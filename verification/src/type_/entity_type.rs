use crate::encoding::edge::{EdgeKind, TypeEdge};
use crate::encoding::kind::Kind;
use crate::encoding::label::Label;
use crate::encoding::property::VertexProperty;
use crate::encoding::vertex::TypeVertex;
use crate::encoding::vertex_generator::TypeVertexGenerator;
use crate::error::{ConceptReadError, ConceptWriteError, EncodingError};
use crate::snapshot::{ReadableSnapshot, WritableSnapshot};
use crate::type_::annotation::{
    holds_annotation, Annotation, AnnotationAbstract, AnnotationCardinality, OrderMode,
};
use crate::type_::attribute_type::AttributeType;
use crate::type_::object_type::ObjectType;
use crate::type_::owns::{owned_vertices, Owns};
use crate::type_::plays::{played_vertices, Plays};
use crate::type_::role_type::RoleType;
use crate::type_::schema::{
    annotations_of, cardinality_of, has_ambiguous_supertype, has_edge, has_label, has_marker,
    is_root, label_bytes, label_of, lemma_annotations_hold_markers, lemma_chain_keeps_kind,
    lemma_subtypes_keep_kind, lists_rising, lists_set, root_of, subtypes, subtypes_at,
    subtypes_transitive, supertype_chain, supertype_is, supertypes, type_exists, typed_targets,
    HIERARCHY_LIMIT,
};
use crate::type_::type_decoder::TypeDecoder;
use crate::type_::type_encoder;
use crate::type_::type_encoder::{
    creates_type, delete_outcome, relabel_outcome, reparent_outcome, supertype_for, with_annotation,
    with_edge, with_label, with_owns, with_supertype, without_annotation, without_edge,
    without_owns, without_type,
};
use crate::type_::type_manager::{ReadableType, TypeManager};
use vstd::prelude::*;
use vstd::utf8::valid_utf8;

verus! {

/// A handle to an entity type: the vertex of the type and nothing else.
#[derive(Debug, Clone, Copy, PartialEq, Eq, Structural, PartialOrd, Ord, Hash)]
pub struct EntityType {
    vertex: TypeVertex,
}

impl View for EntityType {
    type V = TypeVertex;

    closed spec fn view(&self) -> TypeVertex {
        self.vertex
    }
}

/// The vertices of the handles.
pub open spec fn entity_type_vertices(handles: Seq<EntityType>) -> Seq<TypeVertex> {
    Seq::new(handles.len(), |i: int| handles[i]@)
}

/// The vertex of the handle, where there is one.
pub open spec fn entity_type_vertex(handle: Option<EntityType>) -> Option<TypeVertex> {
    match handle {
        Some(handle) => Some(handle@),
        None => None,
    }
}

impl EntityType {
    #[verifier::type_invariant]
    spec fn has_kind(&self) -> bool {
        self.vertex.kind == Kind::Entity
    }

    /// A handle to the type with the vertex, which fails where the vertex is of another kind.
    pub fn new(vertex: TypeVertex) -> (handle: Result<EntityType, EncodingError>)
        ensures
            match handle {
                Ok(handle) => handle@ == vertex && vertex.kind == Kind::Entity,
                Err(error) => error == (EncodingError::UnexpectedKind {
                    expected: Kind::Entity,
                    actual: vertex.kind,
                }) && vertex.kind != Kind::Entity,
            },
    {
        match vertex.kind {
            Kind::Entity => Ok(EntityType { vertex }),
            actual => Err(EncodingError::UnexpectedKind { expected: Kind::Entity, actual }),
        }
    }

    /// A handle to the type with the vertex, which is of the kind of the handle.
    pub fn from_vertex(vertex: TypeVertex) -> (handle: EntityType)
        requires
            vertex.kind == Kind::Entity,
        ensures
            handle@ == vertex,
    {
        EntityType { vertex }
    }

    pub fn vertex(&self) -> (vertex: TypeVertex)
        ensures
            vertex == self@,
            vertex.kind == Kind::Entity,
    {
        proof {
            use_type_invariant(self);
        }
        self.vertex
    }

    pub fn into_vertex(self) -> (vertex: TypeVertex)
        ensures
            vertex == self@,
            vertex.kind == Kind::Entity,
    {
        proof {
            use_type_invariant(&self);
        }
        self.vertex
    }

    pub fn into_owned(self) -> (owned: EntityType)
        ensures
            owned@ == self@,
    {
        self
    }

    /// Handles to the types with the vertices.
    pub fn from_vertices(vertices: &Vec<TypeVertex>) -> (handles: Vec<EntityType>)
        requires
            forall|i: int|
                0 <= i < vertices@.len() ==> (#[trigger] vertices@[i]).kind == Kind::Entity,
        ensures
            entity_type_vertices(handles@) == vertices@,
    {
        let mut handles: Vec<EntityType> = Vec::new();
        let mut i: usize = 0;
        while i < vertices.len()
            invariant
                0 <= i <= vertices@.len(),
                forall|t: int|
                    0 <= t < vertices@.len() ==> (#[trigger] vertices@[t]).kind == Kind::Entity,
                handles@.len() == i,
                forall|t: int| 0 <= t < i ==> (#[trigger] handles@[t])@ == vertices@[t],
            decreases vertices@.len() - i,
        {
            handles.push(EntityType { vertex: vertices[i] });
            i += 1;
        }
        assert(entity_type_vertices(handles@) =~= vertices@);
        handles
    }

    /// Whether the type carries the abstract annotation.
    pub fn is_abstract<S: ReadableSnapshot>(
        &self,
        snapshot: &S,
        type_manager: &TypeManager<S>,
    ) -> (is_abstract: Result<bool, ConceptReadError>)
        requires
            type_exists(type_manager.schema(snapshot), self@),
        ensures
            match is_abstract {
                Ok(is_abstract) => is_abstract == has_marker(
                    type_manager.schema(snapshot),
                    VertexProperty::AnnotationAbstract,
                    self@,
                ) && cardinality_of(type_manager.schema(snapshot), self@) != Some(
                    None::<AnnotationCardinality>,
                ),
                Err(error) => error == (ConceptReadError::Encoding {
                    source: EncodingError::MalformedBytes,
                }) && cardinality_of(type_manager.schema(snapshot), self@) == Some(
                    None::<AnnotationCardinality>,
                ),
            },
    {
        match type_manager.get_annotations(snapshot, self.vertex) {
            Ok(annotations) => {
                proof {
                    lemma_annotations_hold_markers(type_manager.schema(snapshot), self@);
                }
                Ok(holds_annotation(&annotations, Annotation::Abstract(AnnotationAbstract::new())))
            },
            Err(error) => Err(error),
        }
    }

    /// Whether the type is the root type of its kind.
    pub fn is_root<S: ReadableSnapshot>(
        &self,
        snapshot: &S,
        type_manager: &TypeManager<S>,
    ) -> (root: Result<bool, ConceptReadError>)
        requires
            type_exists(type_manager.schema(snapshot), self@),
        ensures
            match root {
                Ok(root) => root == is_root(type_manager.schema(snapshot), self@) && label_of(
                    type_manager.schema(snapshot),
                    self@,
                ) is Some,
                Err(error) => error == (ConceptReadError::Encoding {
                    source: EncodingError::MalformedBytes,
                }) && !valid_utf8(label_bytes(type_manager.schema(snapshot), self@)),
            },
    {
        type_manager.get_is_root(snapshot, self.vertex)
    }

    /// The label of the type.
    pub fn get_label<S: ReadableSnapshot>(
        &self,
        snapshot: &S,
        type_manager: &TypeManager<S>,
    ) -> (label: Result<Label, ConceptReadError>)
        requires
            type_exists(type_manager.schema(snapshot), self@),
        ensures
            match label {
                Ok(label) => label_of(type_manager.schema(snapshot), self@) == Some(label@),
                Err(error) => error == (ConceptReadError::Encoding {
                    source: EncodingError::MalformedBytes,
                }) && !valid_utf8(label_bytes(type_manager.schema(snapshot), self@)),
            },
    {
        type_manager.get_label(snapshot, self.vertex)
    }

    /// Gives the type another label. A root type keeps its label, and a label that another
    /// type carries is refused; nothing is written then.
    pub fn set_label<S: WritableSnapshot>(
        &self,
        snapshot: &mut S,
        label: &Label,
    ) -> (done: Result<(), ConceptWriteError>)
        requires
            has_label(old(snapshot).contents(), self@),
        ensures
            done == relabel_outcome(old(snapshot).contents(), self@, label@),
            final(snapshot).contents() == (if done is Ok {
                with_label(old(snapshot).contents(), self@, label@)
            } else {
                old(snapshot).contents()
            }),
    {
        type_encoder::relabel(snapshot, self.vertex, label)
    }

    /// Deletes the type, with everything that is recorded about it and every edge that it
    /// takes part in. A root type stays; nothing is written then.
    pub fn delete<S: WritableSnapshot>(
        self,
        snapshot: &mut S,
    ) -> (done: Result<(), ConceptWriteError>)
        requires
            has_label(old(snapshot).contents(), self@),
        ensures
            done == delete_outcome(old(snapshot).contents(), self@),
            final(snapshot).contents() == (if done is Ok {
                without_type(old(snapshot).contents(), self@)
            } else {
                old(snapshot).contents()
            }),
    {
        type_encoder::delete(snapshot, self.vertex)
    }

    /// The direct supertype of the type.
    pub fn get_supertype<S: ReadableSnapshot>(
        &self,
        snapshot: &S,
        type_manager: &TypeManager<S>,
    ) -> (supertype: Result<Option<EntityType>, ConceptReadError>)
        requires
            type_exists(type_manager.schema(snapshot), self@),
        ensures
            match supertype {
                Ok(supertype) => supertype_is(
                    type_manager.schema(snapshot),
                    self@,
                    entity_type_vertex(supertype),
                ),
                Err(error) => error == ConceptReadError::AmbiguousSupertype
                    && has_ambiguous_supertype(type_manager.schema(snapshot), self@),
            },
    {
        match type_manager.get_supertype(snapshot, self.vertex) {
            Ok(Some(vertex)) => {
                proof {
                    use_type_invariant(self);
                    assert(supertypes(type_manager.schema(snapshot), self@).contains(vertex));
                }
                Ok(Some(EntityType { vertex }))
            },
            Ok(None) => Ok(None),
            Err(error) => Err(error),
        }
    }

    /// Places the type below `supertype`. A root type stays where it is; nothing is written
    /// then.
    pub fn set_supertype<S: WritableSnapshot>(
        &self,
        snapshot: &mut S,
        supertype: EntityType,
    ) -> (done: Result<(), ConceptWriteError>)
        requires
            has_label(old(snapshot).contents(), self@),
        ensures
            done == reparent_outcome(old(snapshot).contents(), self@),
            final(snapshot).contents() == (if done is Ok {
                with_supertype(old(snapshot).contents(), self@, supertype@)
            } else {
                old(snapshot).contents()
            }),
    {
        type_encoder::reparent(snapshot, self.vertex, supertype.vertex)
    }

    /// The supertypes of the type, from the nearest to the root. The type itself is not among
    /// them.
    pub fn get_supertypes<S: ReadableSnapshot>(
        &self,
        snapshot: &S,
        type_manager: &TypeManager<S>,
    ) -> (found: Result<Vec<EntityType>, ConceptReadError>)
        requires
            type_exists(type_manager.schema(snapshot), self@),
        ensures
            match found {
                Ok(found) => supertype_chain(
                    type_manager.schema(snapshot),
                    self@,
                    HIERARCHY_LIMIT as nat,
                ) == Ok::<Seq<TypeVertex>, ConceptReadError>(entity_type_vertices(found@)),
                Err(error) => supertype_chain(
                    type_manager.schema(snapshot),
                    self@,
                    HIERARCHY_LIMIT as nat,
                ) == Err::<Seq<TypeVertex>, ConceptReadError>(error),
            },
    {
        match type_manager.get_supertypes(snapshot, self.vertex) {
            Ok(vertices) => {
                proof {
                    use_type_invariant(self);
                    lemma_chain_keeps_kind(
                        type_manager.schema(snapshot),
                        self@,
                        HIERARCHY_LIMIT as nat,
                    );
                }
                Ok(Self::from_vertices(&vertices))
            },
            Err(error) => Err(error),
        }
    }

    /// The direct subtypes of the type, in rising order.
    pub fn get_subtypes<S: ReadableSnapshot>(
        &self,
        snapshot: &S,
        type_manager: &TypeManager<S>,
    ) -> (found: Result<Vec<EntityType>, ConceptReadError>)
        requires
            type_exists(type_manager.schema(snapshot), self@),
        ensures
            match found {
                Ok(found) => lists_rising(
                    entity_type_vertices(found@),
                    subtypes(type_manager.schema(snapshot), self@),
                ),
                Err(_) => false,
            },
    {
        let vertices = type_manager.get_subtypes(snapshot, self.vertex);
        proof {
            use_type_invariant(self);
            assert forall|i: int| 0 <= i < vertices@.len() implies (#[trigger] vertices@[i]).kind
                == Kind::Entity by {
                assert(vertices@.to_set().contains(vertices@[i]));
            }
        }
        Ok(Self::from_vertices(&vertices))
    }

    /// All subtypes of the type, direct or not, in rising order. The type itself is not among
    /// them.
    pub fn get_subtypes_transitive<S: ReadableSnapshot>(
        &self,
        snapshot: &S,
        type_manager: &TypeManager<S>,
    ) -> (found: Result<Vec<EntityType>, ConceptReadError>)
        requires
            type_exists(type_manager.schema(snapshot), self@),
        ensures
            match found {
                Ok(found) => lists_rising(
                    entity_type_vertices(found@),
                    subtypes_transitive(type_manager.schema(snapshot), self@),
                ) && subtypes_at(type_manager.schema(snapshot), self@, HIERARCHY_LIMIT as nat)
                    == Set::<TypeVertex>::empty(),
                Err(error) => error == ConceptReadError::HierarchyTooDeep && subtypes_at(
                    type_manager.schema(snapshot),
                    self@,
                    HIERARCHY_LIMIT as nat,
                ) != Set::<TypeVertex>::empty(),
            },
    {
        match type_manager.get_subtypes_transitive(snapshot, self.vertex) {
            Ok(vertices) => {
                proof {
                    use_type_invariant(self);
                    assert forall|i: int| 0 <= i < vertices@.len() implies (
                    #[trigger] vertices@[i]).kind == Kind::Entity by {
                        assert(vertices@.to_set().contains(vertices@[i]));
                        let at = choose|at: nat| #[trigger]
                            subtypes_at(type_manager.schema(snapshot), self@, at).contains(
                                vertices@[i],
                            );
                        lemma_subtypes_keep_kind(type_manager.schema(snapshot), self@, at);
                    }
                }
                Ok(Self::from_vertices(&vertices))
            },
            Err(error) => Err(error),
        }
    }

    /// The annotations of the type. A stored annotation that an entity type cannot carry is
    /// an error.
    pub fn get_annotations<S: ReadableSnapshot>(
        &self,
        snapshot: &S,
        type_manager: &TypeManager<S>,
    ) -> (annotations: Result<Vec<EntityTypeAnnotation>, ConceptReadError>)
        requires
            type_exists(type_manager.schema(snapshot), self@),
        ensures
            match annotations {
                Ok(annotations) => entity_annotations(annotations@) == annotations_of(
                    type_manager.schema(snapshot),
                    self@,
                ) && cardinality_of(type_manager.schema(snapshot), self@) != Some(
                    None::<AnnotationCardinality>,
                ),
                Err(ConceptReadError::Encoding { source }) => source
                    == EncodingError::MalformedBytes && cardinality_of(
                    type_manager.schema(snapshot),
                    self@,
                ) == Some(None::<AnnotationCardinality>),
                Err(ConceptReadError::InvalidAnnotationForKind) => cardinality_of(
                    type_manager.schema(snapshot),
                    self@,
                ) != Some(None::<AnnotationCardinality>) && exists|i: int|
                    0 <= i < annotations_of(type_manager.schema(snapshot), self@).len()
                        && !EntityTypeAnnotation::is_legal(
                        #[trigger] annotations_of(type_manager.schema(snapshot), self@)[i],
                    ),
                Err(_) => false,
            },
    {
        match type_manager.get_annotations(snapshot, self.vertex) {
            Ok(annotations) => EntityTypeAnnotation::from_all(&annotations),
            Err(error) => Err(error),
        }
    }

    /// Attaches the annotation to the type.
    pub fn set_annotation<S: WritableSnapshot>(
        &self,
        snapshot: &mut S,
        annotation: EntityTypeAnnotation,
    ) -> (done: Result<(), ConceptWriteError>)
        ensures
            done is Ok,
            final(snapshot).contents() == with_annotation(
                old(snapshot).contents(),
                self@,
                annotation.spec_into_annotation(),
            ),
    {
        type_encoder::set_annotation(snapshot, self.vertex, annotation.into_annotation());
        Ok(())
    }

    /// Takes the annotation of this sort off the type.
    pub fn delete_annotation<S: WritableSnapshot>(
        &self,
        snapshot: &mut S,
        annotation: EntityTypeAnnotation,
    )
        ensures
            final(snapshot).contents() == without_annotation(
                old(snapshot).contents(),
                self@,
                annotation.spec_into_annotation(),
            ),
    {
        type_encoder::delete_annotation(snapshot, self.vertex, annotation.into_annotation());
    }
}

impl ReadableType for EntityType {
    open spec fn spec_root_kind() -> Kind {
        Kind::Entity
    }

    open spec fn spec_vertex(&self) -> TypeVertex {
        self@
    }

    fn root_kind() -> (kind: Kind) {
        Kind::Entity
    }

    fn read_from(bytes: &[u8]) -> (read: Result<Self, EncodingError>) {
        match TypeVertex::from_bytes(bytes) {
            Some(vertex) => Self::new(vertex),
            None => Err(EncodingError::MalformedBytes),
        }
    }
}

/// The vertex of the type that was created, where one was.
pub open spec fn entity_type_created(created: Result<EntityType, ConceptWriteError>) -> Result<
    TypeVertex,
    ConceptWriteError,
> {
    match created {
        Ok(created) => Ok(created@),
        Err(error) => Err(error),
    }
}

impl EntityType {
    /// Creates an entity type with the label, below the root type of the kind unless it is to
    /// be the root type itself. A label that is in use is refused, and nothing is written
    /// then.
    pub fn create_entity_type<S: WritableSnapshot>(
        snapshot: &mut S,
        vertex_generator: &TypeVertexGenerator,
        label: &Label,
        is_root: bool,
    ) -> (created: Result<EntityType, ConceptWriteError>)
        requires
            !is_root ==> root_of(old(snapshot).contents(), Kind::Entity) is Some,
        ensures
            creates_type(
                old(snapshot).contents(),
                final(snapshot).contents(),
                Kind::Entity,
                label@,
                supertype_for(old(snapshot).contents(), Kind::Entity, is_root),
                entity_type_created(created),
            ),
    {
        let supertype = if is_root {
            None
        } else {
            TypeDecoder::get_root(&*snapshot, Kind::Entity)
        };
        let created = type_encoder::create_type(
            snapshot,
            vertex_generator,
            Kind::Entity,
            label,
            supertype,
        );
        match created {
            Ok(vertex) => Ok(EntityType { vertex }),
            Err(error) => Err(error),
        }
    }
}

impl EntityType {
    /// The type as an owner of attribute types and a player of role types.
    pub fn into_object_type(self) -> (object: ObjectType)
        ensures
            object@ == self@,
    {
        ObjectType::Entity(self)
    }

    /// Records that the type owns the attribute type, held in `ordering`.
    pub fn set_owns<S: WritableSnapshot>(
        &self,
        snapshot: &mut S,
        attribute_type: AttributeType,
        ordering: OrderMode,
    ) -> (owns: Owns)
        ensures
            owns@ == (TypeEdge { kind: EdgeKind::Owns, from: self@, to: attribute_type@ }),
            final(snapshot).contents() == with_owns(
                old(snapshot).contents(),
                self@,
                attribute_type@,
                ordering,
            ),
    {
        type_encoder::set_owns(snapshot, self.vertex, attribute_type.vertex(), ordering);
        Owns::new(ObjectType::Entity(*self), attribute_type)
    }

    /// Forgets that the type owns the attribute type, and what was recorded about that.
    pub fn delete_owns<S: WritableSnapshot>(&self, snapshot: &mut S, attribute_type: AttributeType)
        ensures
            final(snapshot).contents() == without_owns(
                old(snapshot).contents(),
                self@,
                attribute_type@,
            ),
    {
        type_encoder::delete_owns(snapshot, self.vertex, attribute_type.vertex());
    }

    /// The ownerships of the type, each once.
    pub fn get_owns<S: ReadableSnapshot>(
        &self,
        snapshot: &S,
        type_manager: &TypeManager<S>,
    ) -> (found: Result<Vec<Owns>, ConceptReadError>)
        requires
            type_exists(type_manager.schema(snapshot), self@),
        ensures
            match found {
                Ok(found) => lists_rising(
                    owned_vertices(found@),
                    typed_targets(
                        type_manager.schema(snapshot),
                        EdgeKind::Owns,
                        self@,
                        Kind::Attribute,
                    ),
                ) && forall|i: int|
                    0 <= i < found@.len() ==> (#[trigger] found@[i])@.kind == EdgeKind::Owns
                        && found@[i]@.from == self@,
                Err(_) => false,
            },
    {
        let vertices = type_manager.get_owns(snapshot, self.vertex);
        let mut found: Vec<Owns> = Vec::new();
        let mut i: usize = 0;
        while i < vertices.len()
            invariant
                0 <= i <= vertices@.len(),
                lists_set(
                    vertices@,
                    typed_targets(
                        type_manager.schema(snapshot),
                        EdgeKind::Owns,
                        self@,
                        Kind::Attribute,
                    ),
                ),
                found@.len() == i,
                forall|t: int|
                    0 <= t < i ==> (#[trigger] found@[t])@ == (TypeEdge {
                        kind: EdgeKind::Owns,
                        from: self@,
                        to: vertices@[t],
                    }),
            decreases vertices@.len() - i,
        {
            assert(vertices@.to_set().contains(vertices@[i as int]));
            let attribute_type = AttributeType::from_vertex(vertices[i]);
            found.push(Owns::new(ObjectType::Entity(*self), attribute_type));
            i += 1;
        }
        assert(owned_vertices(found@) =~= vertices@);
        Ok(found)
    }

    /// The ownership of the attribute type by the type, if there is one.
    pub fn get_owns_attribute<S: ReadableSnapshot>(
        &self,
        snapshot: &S,
        type_manager: &TypeManager<S>,
        attribute_type: AttributeType,
    ) -> (owns: Result<Option<Owns>, ConceptReadError>)
        requires
            type_exists(type_manager.schema(snapshot), self@),
        ensures
            match owns {
                Ok(Some(owns)) => owns@ == (TypeEdge {
                    kind: EdgeKind::Owns,
                    from: self@,
                    to: attribute_type@,
                }) && has_edge(
                    type_manager.schema(snapshot),
                    EdgeKind::Owns,
                    self@,
                    attribute_type@,
                ),
                Ok(None) => !has_edge(
                    type_manager.schema(snapshot),
                    EdgeKind::Owns,
                    self@,
                    attribute_type@,
                ),
                Err(_) => false,
            },
    {
        let vertices = type_manager.get_owns(snapshot, self.vertex);
        let attribute = attribute_type.vertex();
        proof {
            let owned = typed_targets(
                type_manager.schema(snapshot),
                EdgeKind::Owns,
                self@,
                Kind::Attribute,
            );
            assert(vertices@.contains(attribute) <==> vertices@.to_set().contains(attribute));
            assert(owned.contains(attribute) <==> has_edge(
                type_manager.schema(snapshot),
                EdgeKind::Owns,
                self@,
                attribute,
            ));
        }
        if TypeDecoder::contains_vertex(&vertices, attribute) {
            Ok(Some(Owns::new(ObjectType::Entity(*self), attribute_type)))
        } else {
            Ok(None)
        }
    }

    /// Records that the type plays the role type.
    pub fn set_plays<S: WritableSnapshot>(
        &self,
        snapshot: &mut S,
        role_type: RoleType,
    ) -> (plays: Plays)
        ensures
            plays@ == (TypeEdge { kind: EdgeKind::Plays, from: self@, to: role_type@ }),
            final(snapshot).contents() == with_edge(
                old(snapshot).contents(),
                EdgeKind::Plays,
                self@,
                role_type@,
            ),
    {
        type_encoder::set_plays(snapshot, self.vertex, role_type.vertex());
        Plays::new(ObjectType::Entity(*self), role_type)
    }

    /// Forgets that the type plays the role type.
    pub fn delete_plays<S: WritableSnapshot>(&self, snapshot: &mut S, role_type: RoleType)
        ensures
            final(snapshot).contents() == without_edge(
                old(snapshot).contents(),
                EdgeKind::Plays,
                self@,
                role_type@,
            ),
    {
        type_encoder::delete_plays(snapshot, self.vertex, role_type.vertex());
    }

    /// The role types that the type plays, each once.
    pub fn get_plays<S: ReadableSnapshot>(
        &self,
        snapshot: &S,
        type_manager: &TypeManager<S>,
    ) -> (found: Result<Vec<Plays>, ConceptReadError>)
        requires
            type_exists(type_manager.schema(snapshot), self@),
        ensures
            match found {
                Ok(found) => lists_rising(
                    played_vertices(found@),
                    typed_targets(
                        type_manager.schema(snapshot),
                        EdgeKind::Plays,
                        self@,
                        Kind::Role,
                    ),
                ) && forall|i: int|
                    0 <= i < found@.len() ==> (#[trigger] found@[i])@.kind == EdgeKind::Plays
                        && found@[i]@.from == self@,
                Err(_) => false,
            },
    {
        let vertices = type_manager.get_plays(snapshot, self.vertex);
        let mut found: Vec<Plays> = Vec::new();
        let mut i: usize = 0;
        while i < vertices.len()
            invariant
                0 <= i <= vertices@.len(),
                lists_set(
                    vertices@,
                    typed_targets(
                        type_manager.schema(snapshot),
                        EdgeKind::Plays,
                        self@,
                        Kind::Role,
                    ),
                ),
                found@.len() == i,
                forall|t: int|
                    0 <= t < i ==> (#[trigger] found@[t])@ == (TypeEdge {
                        kind: EdgeKind::Plays,
                        from: self@,
                        to: vertices@[t],
                    }),
            decreases vertices@.len() - i,
        {
            assert(vertices@.to_set().contains(vertices@[i as int]));
            let role_type = RoleType::from_vertex(vertices[i]);
            found.push(Plays::new(ObjectType::Entity(*self), role_type));
            i += 1;
        }
        assert(played_vertices(found@) =~= vertices@);
        Ok(found)
    }

    /// The playing of the role type by the type, if the type plays it.
    pub fn get_plays_role<S: ReadableSnapshot>(
        &self,
        snapshot: &S,
        type_manager: &TypeManager<S>,
        role_type: RoleType,
    ) -> (plays: Result<Option<Plays>, ConceptReadError>)
        requires
            type_exists(type_manager.schema(snapshot), self@),
        ensures
            match plays {
                Ok(Some(plays)) => plays@ == (TypeEdge {
                    kind: EdgeKind::Plays,
                    from: self@,
                    to: role_type@,
                }) && has_edge(type_manager.schema(snapshot), EdgeKind::Plays, self@, role_type@),
                Ok(None) => !has_edge(
                    type_manager.schema(snapshot),
                    EdgeKind::Plays,
                    self@,
                    role_type@,
                ),
                Err(_) => false,
            },
    {
        let vertices = type_manager.get_plays(snapshot, self.vertex);
        let role = role_type.vertex();
        proof {
            let played = typed_targets(
                type_manager.schema(snapshot),
                EdgeKind::Plays,
                self@,
                Kind::Role,
            );
            assert(vertices@.contains(role) <==> vertices@.to_set().contains(role));
            assert(played.contains(role) <==> has_edge(
                type_manager.schema(snapshot),
                EdgeKind::Plays,
                self@,
                role,
            ));
        }
        if TypeDecoder::contains_vertex(&vertices, role) {
            Ok(Some(Plays::new(ObjectType::Entity(*self), role_type)))
        } else {
            Ok(None)
        }
    }
}

/// The annotations that an entity type can carry.
#[derive(Debug, Copy, Clone, Eq, PartialEq, Structural, Hash)]
pub enum EntityTypeAnnotation {
    Abstract(AnnotationAbstract),
}

impl EntityTypeAnnotation {
    /// Whether an entity type can carry the annotation.
    pub open spec fn is_legal(annotation: Annotation) -> bool {
        annotation is Abstract
    }

    /// The annotation as one of any kind of type.
    pub open spec fn spec_into_annotation(self) -> Annotation {
        match self {
            EntityTypeAnnotation::Abstract(annotation) => Annotation::Abstract(annotation),
        }
    }

    /// The annotation as one of an entity type, which fails where an entity type cannot
    /// carry it.
    pub fn from(
        annotation: Annotation,
    ) -> (converted: Result<EntityTypeAnnotation, ConceptWriteError>)
        ensures
            match converted {
                Ok(converted) => converted.spec_into_annotation() == annotation,
                Err(error) => error == ConceptWriteError::InvalidAnnotationForKind
                    && !Self::is_legal(annotation),
            },
    {
        match annotation {
            Annotation::Abstract(annotation) => Ok(EntityTypeAnnotation::Abstract(annotation)),
            Annotation::Distinct(_) => Err(ConceptWriteError::InvalidAnnotationForKind),
            Annotation::Independent(_) => Err(ConceptWriteError::InvalidAnnotationForKind),
            Annotation::Cardinality(_) => Err(ConceptWriteError::InvalidAnnotationForKind),
        }
    }

    /// The annotation as one of any kind of type.
    pub fn into_annotation(self) -> (annotation: Annotation)
        ensures
            annotation == self.spec_into_annotation(),
            Self::is_legal(annotation),
    {
        match self {
            EntityTypeAnnotation::Abstract(annotation) => Annotation::Abstract(annotation),
        }
    }

    /// The annotations as those of an entity type, which fails where one of them is none.
    pub fn from_all(
        annotations: &Vec<Annotation>,
    ) -> (converted: Result<Vec<EntityTypeAnnotation>, ConceptReadError>)
        ensures
            match converted {
                Ok(converted) => entity_annotations(converted@) == annotations@,
                Err(error) => error == ConceptReadError::InvalidAnnotationForKind && exists|i: int|
                    0 <= i < annotations@.len() && !Self::is_legal(#[trigger] annotations@[i]),
            },
    {
        let mut converted: Vec<EntityTypeAnnotation> = Vec::new();
        let mut i: usize = 0;
        while i < annotations.len()
            invariant
                0 <= i <= annotations@.len(),
                converted@.len() == i,
                forall|t: int|
                    0 <= t < i ==> (#[trigger] converted@[t]).spec_into_annotation()
                        == annotations@[t],
            decreases annotations@.len() - i,
        {
            match Self::from(annotations[i]) {
                Ok(annotation) => converted.push(annotation),
                Err(_) => {
                    return Err(ConceptReadError::InvalidAnnotationForKind);
                },
            }
            i += 1;
        }
        assert(entity_annotations(converted@) =~= annotations@);
        Ok(converted)
    }
}

/// The annotations as those of any kind of type.
pub open spec fn entity_annotations(annotations: Seq<EntityTypeAnnotation>) -> Seq<Annotation> {
    Seq::new(annotations.len(), |i: int| annotations[i].spec_into_annotation())
}

} // verus!
