use crate::encoding::edge::EdgeKind;
use crate::encoding::kind::Kind;
use crate::encoding::label::Label;
use crate::encoding::property::{vertex_property_key, VertexProperty};
use crate::encoding::value_type::{value_type_bytes, ValueType};
use crate::encoding::vertex::TypeVertex;
use crate::encoding::vertex_generator::TypeVertexGenerator;
use crate::error::{ConceptReadError, ConceptWriteError, EncodingError};
use crate::snapshot::{ReadableSnapshot, Store, WritableSnapshot};
use crate::type_::annotation::{
    holds_annotation, Annotation, AnnotationAbstract, AnnotationCardinality, AnnotationIndependent,
};
use crate::type_::entity_type::EntityType;
use crate::type_::object_type::{object_vertices, ObjectType};
use crate::type_::relation_type::RelationType;
use crate::type_::schema::{
    annotations_of, cardinality_of, has_ambiguous_supertype, has_edge, has_label, has_marker,
    is_root, label_bytes, label_of, lemma_annotations_hold_markers, lemma_chain_keeps_kind,
    lemma_rising_is_distinct, lemma_subtypes_keep_kind, lists_rising, root_of, subtypes,
    subtypes_at, subtypes_transitive, supertype_chain, supertype_is, supertypes, type_exists,
    typed_targets, value_type_of, vertex_before, HIERARCHY_LIMIT,
};
use crate::type_::type_decoder::TypeDecoder;
use crate::type_::type_encoder;
use crate::type_::type_encoder::{
    creates_type, delete_outcome, relabel_outcome, reparent_outcome, supertype_for, with_annotation,
    with_label, with_supertype, without_annotation, without_type,
};
use crate::type_::type_manager::{ReadableType, TypeManager};
use vstd::prelude::*;
use vstd::utf8::valid_utf8;

verus! {

/// A handle to an attribute type: the vertex of the type and nothing else.
#[derive(Debug, Clone, Copy, PartialEq, Eq, Structural, PartialOrd, Ord, Hash)]
pub struct AttributeType {
    vertex: TypeVertex,
}

impl View for AttributeType {
    type V = TypeVertex;

    closed spec fn view(&self) -> TypeVertex {
        self.vertex
    }
}

/// The vertices of the handles.
pub open spec fn attribute_type_vertices(handles: Seq<AttributeType>) -> Seq<TypeVertex> {
    Seq::new(handles.len(), |i: int| handles[i]@)
}

/// The vertex of the handle, where there is one.
pub open spec fn attribute_type_vertex(handle: Option<AttributeType>) -> Option<TypeVertex> {
    match handle {
        Some(handle) => Some(handle@),
        None => None,
    }
}

impl AttributeType {
    #[verifier::type_invariant]
    spec fn has_kind(&self) -> bool {
        self.vertex.kind == Kind::Attribute
    }

    /// A handle to the type with the vertex, which fails where the vertex is of another kind.
    pub fn new(vertex: TypeVertex) -> (handle: Result<AttributeType, EncodingError>)
        ensures
            match handle {
                Ok(handle) => handle@ == vertex && vertex.kind == Kind::Attribute,
                Err(error) => error == (EncodingError::UnexpectedKind {
                    expected: Kind::Attribute,
                    actual: vertex.kind,
                }) && vertex.kind != Kind::Attribute,
            },
    {
        match vertex.kind {
            Kind::Attribute => Ok(AttributeType { vertex }),
            actual => Err(EncodingError::UnexpectedKind { expected: Kind::Attribute, actual }),
        }
    }

    /// A handle to the type with the vertex, which is of the kind of the handle.
    pub fn from_vertex(vertex: TypeVertex) -> (handle: AttributeType)
        requires
            vertex.kind == Kind::Attribute,
        ensures
            handle@ == vertex,
    {
        AttributeType { vertex }
    }

    pub fn vertex(&self) -> (vertex: TypeVertex)
        ensures
            vertex == self@,
            vertex.kind == Kind::Attribute,
    {
        proof {
            use_type_invariant(self);
        }
        self.vertex
    }

    pub fn into_vertex(self) -> (vertex: TypeVertex)
        ensures
            vertex == self@,
            vertex.kind == Kind::Attribute,
    {
        proof {
            use_type_invariant(&self);
        }
        self.vertex
    }

    pub fn into_owned(self) -> (owned: AttributeType)
        ensures
            owned@ == self@,
    {
        self
    }

    /// Handles to the types with the vertices.
    pub fn from_vertices(vertices: &Vec<TypeVertex>) -> (handles: Vec<AttributeType>)
        requires
            forall|i: int|
                0 <= i < vertices@.len() ==> (#[trigger] vertices@[i]).kind == Kind::Attribute,
        ensures
            attribute_type_vertices(handles@) == vertices@,
    {
        let mut handles: Vec<AttributeType> = Vec::new();
        let mut i: usize = 0;
        while i < vertices.len()
            invariant
                0 <= i <= vertices@.len(),
                forall|t: int|
                    0 <= t < vertices@.len() ==> (#[trigger] vertices@[t]).kind == Kind::Attribute,
                handles@.len() == i,
                forall|t: int| 0 <= t < i ==> (#[trigger] handles@[t])@ == vertices@[t],
            decreases vertices@.len() - i,
        {
            handles.push(AttributeType { vertex: vertices[i] });
            i += 1;
        }
        assert(attribute_type_vertices(handles@) =~= vertices@);
        handles
    }

    /// Whether the type carries the abstract annotation.
    pub fn is_abstract<S: ReadableSnapshot>(
        &self,
        snapshot: &S,
        type_manager: &TypeManager<S>,
    ) -> (is_abstract: Result<bool, ConceptReadError>)
        requires
            type_exists(type_manager.schema(snapshot), self@),
        ensures
            match is_abstract {
                Ok(is_abstract) => is_abstract == has_marker(
                    type_manager.schema(snapshot),
                    VertexProperty::AnnotationAbstract,
                    self@,
                ) && cardinality_of(type_manager.schema(snapshot), self@) != Some(
                    None::<AnnotationCardinality>,
                ),
                Err(error) => error == (ConceptReadError::Encoding {
                    source: EncodingError::MalformedBytes,
                }) && cardinality_of(type_manager.schema(snapshot), self@) == Some(
                    None::<AnnotationCardinality>,
                ),
            },
    {
        match type_manager.get_annotations(snapshot, self.vertex) {
            Ok(annotations) => {
                proof {
                    lemma_annotations_hold_markers(type_manager.schema(snapshot), self@);
                }
                Ok(holds_annotation(&annotations, Annotation::Abstract(AnnotationAbstract::new())))
            },
            Err(error) => Err(error),
        }
    }

    /// Whether the type is the root type of its kind.
    pub fn is_root<S: ReadableSnapshot>(
        &self,
        snapshot: &S,
        type_manager: &TypeManager<S>,
    ) -> (root: Result<bool, ConceptReadError>)
        requires
            type_exists(type_manager.schema(snapshot), self@),
        ensures
            match root {
                Ok(root) => root == is_root(type_manager.schema(snapshot), self@) && label_of(
                    type_manager.schema(snapshot),
                    self@,
                ) is Some,
                Err(error) => error == (ConceptReadError::Encoding {
                    source: EncodingError::MalformedBytes,
                }) && !valid_utf8(label_bytes(type_manager.schema(snapshot), self@)),
            },
    {
        type_manager.get_is_root(snapshot, self.vertex)
    }

    /// The label of the type.
    pub fn get_label<S: ReadableSnapshot>(
        &self,
        snapshot: &S,
        type_manager: &TypeManager<S>,
    ) -> (label: Result<Label, ConceptReadError>)
        requires
            type_exists(type_manager.schema(snapshot), self@),
        ensures
            match label {
                Ok(label) => label_of(type_manager.schema(snapshot), self@) == Some(label@),
                Err(error) => error == (ConceptReadError::Encoding {
                    source: EncodingError::MalformedBytes,
                }) && !valid_utf8(label_bytes(type_manager.schema(snapshot), self@)),
            },
    {
        type_manager.get_label(snapshot, self.vertex)
    }

    /// Gives the type another label. A root type keeps its label, and a label that another
    /// type carries is refused; nothing is written then.
    pub fn set_label<S: WritableSnapshot>(
        &self,
        snapshot: &mut S,
        label: &Label,
    ) -> (done: Result<(), ConceptWriteError>)
        requires
            has_label(old(snapshot).contents(), self@),
        ensures
            done == relabel_outcome(old(snapshot).contents(), self@, label@),
            final(snapshot).contents() == (if done is Ok {
                with_label(old(snapshot).contents(), self@, label@)
            } else {
                old(snapshot).contents()
            }),
    {
        type_encoder::relabel(snapshot, self.vertex, label)
    }

    /// Deletes the type, with everything that is recorded about it and every edge that it
    /// takes part in. A root type stays; nothing is written then.
    pub fn delete<S: WritableSnapshot>(
        self,
        snapshot: &mut S,
    ) -> (done: Result<(), ConceptWriteError>)
        requires
            has_label(old(snapshot).contents(), self@),
        ensures
            done == delete_outcome(old(snapshot).contents(), self@),
            final(snapshot).contents() == (if done is Ok {
                without_type(old(snapshot).contents(), self@)
            } else {
                old(snapshot).contents()
            }),
    {
        type_encoder::delete(snapshot, self.vertex)
    }

    /// The direct supertype of the type.
    pub fn get_supertype<S: ReadableSnapshot>(
        &self,
        snapshot: &S,
        type_manager: &TypeManager<S>,
    ) -> (supertype: Result<Option<AttributeType>, ConceptReadError>)
        requires
            type_exists(type_manager.schema(snapshot), self@),
        ensures
            match supertype {
                Ok(supertype) => supertype_is(
                    type_manager.schema(snapshot),
                    self@,
                    attribute_type_vertex(supertype),
                ),
                Err(error) => error == ConceptReadError::AmbiguousSupertype
                    && has_ambiguous_supertype(type_manager.schema(snapshot), self@),
            },
    {
        match type_manager.get_supertype(snapshot, self.vertex) {
            Ok(Some(vertex)) => {
                proof {
                    use_type_invariant(self);
                    assert(supertypes(type_manager.schema(snapshot), self@).contains(vertex));
                }
                Ok(Some(AttributeType { vertex }))
            },
            Ok(None) => Ok(None),
            Err(error) => Err(error),
        }
    }

    /// Places the type below `supertype`. A root type stays where it is; nothing is written
    /// then.
    pub fn set_supertype<S: WritableSnapshot>(
        &self,
        snapshot: &mut S,
        supertype: AttributeType,
    ) -> (done: Result<(), ConceptWriteError>)
        requires
            has_label(old(snapshot).contents(), self@),
        ensures
            done == reparent_outcome(old(snapshot).contents(), self@),
            final(snapshot).contents() == (if done is Ok {
                with_supertype(old(snapshot).contents(), self@, supertype@)
            } else {
                old(snapshot).contents()
            }),
    {
        type_encoder::reparent(snapshot, self.vertex, supertype.vertex)
    }

    /// The supertypes of the type, from the nearest to the root. The type itself is not among
    /// them.
    pub fn get_supertypes<S: ReadableSnapshot>(
        &self,
        snapshot: &S,
        type_manager: &TypeManager<S>,
    ) -> (found: Result<Vec<AttributeType>, ConceptReadError>)
        requires
            type_exists(type_manager.schema(snapshot), self@),
        ensures
            match found {
                Ok(found) => supertype_chain(
                    type_manager.schema(snapshot),
                    self@,
                    HIERARCHY_LIMIT as nat,
                ) == Ok::<Seq<TypeVertex>, ConceptReadError>(attribute_type_vertices(found@)),
                Err(error) => supertype_chain(
                    type_manager.schema(snapshot),
                    self@,
                    HIERARCHY_LIMIT as nat,
                ) == Err::<Seq<TypeVertex>, ConceptReadError>(error),
            },
    {
        match type_manager.get_supertypes(snapshot, self.vertex) {
            Ok(vertices) => {
                proof {
                    use_type_invariant(self);
                    lemma_chain_keeps_kind(
                        type_manager.schema(snapshot),
                        self@,
                        HIERARCHY_LIMIT as nat,
                    );
                }
                Ok(Self::from_vertices(&vertices))
            },
            Err(error) => Err(error),
        }
    }

    /// The direct subtypes of the type, in rising order.
    pub fn get_subtypes<S: ReadableSnapshot>(
        &self,
        snapshot: &S,
        type_manager: &TypeManager<S>,
    ) -> (found: Result<Vec<AttributeType>, ConceptReadError>)
        requires
            type_exists(type_manager.schema(snapshot), self@),
        ensures
            match found {
                Ok(found) => lists_rising(
                    attribute_type_vertices(found@),
                    subtypes(type_manager.schema(snapshot), self@),
                ),
                Err(_) => false,
            },
    {
        let vertices = type_manager.get_subtypes(snapshot, self.vertex);
        proof {
            use_type_invariant(self);
            assert forall|i: int| 0 <= i < vertices@.len() implies (#[trigger] vertices@[i]).kind
                == Kind::Attribute by {
                assert(vertices@.to_set().contains(vertices@[i]));
            }
        }
        Ok(Self::from_vertices(&vertices))
    }

    /// All subtypes of the type, direct or not, in rising order. The type itself is not among
    /// them.
    pub fn get_subtypes_transitive<S: ReadableSnapshot>(
        &self,
        snapshot: &S,
        type_manager: &TypeManager<S>,
    ) -> (found: Result<Vec<AttributeType>, ConceptReadError>)
        requires
            type_exists(type_manager.schema(snapshot), self@),
        ensures
            match found {
                Ok(found) => lists_rising(
                    attribute_type_vertices(found@),
                    subtypes_transitive(type_manager.schema(snapshot), self@),
                ) && subtypes_at(type_manager.schema(snapshot), self@, HIERARCHY_LIMIT as nat)
                    == Set::<TypeVertex>::empty(),
                Err(error) => error == ConceptReadError::HierarchyTooDeep && subtypes_at(
                    type_manager.schema(snapshot),
                    self@,
                    HIERARCHY_LIMIT as nat,
                ) != Set::<TypeVertex>::empty(),
            },
    {
        match type_manager.get_subtypes_transitive(snapshot, self.vertex) {
            Ok(vertices) => {
                proof {
                    use_type_invariant(self);
                    assert forall|i: int| 0 <= i < vertices@.len() implies (
                    #[trigger] vertices@[i]).kind == Kind::Attribute by {
                        assert(vertices@.to_set().contains(vertices@[i]));
                        let at = choose|at: nat| #[trigger]
                            subtypes_at(type_manager.schema(snapshot), self@, at).contains(
                                vertices@[i],
                            );
                        lemma_subtypes_keep_kind(type_manager.schema(snapshot), self@, at);
                    }
                }
                Ok(Self::from_vertices(&vertices))
            },
            Err(error) => Err(error),
        }
    }

    /// The annotations of the type. A stored annotation that an attribute type cannot carry is
    /// an error.
    pub fn get_annotations<S: ReadableSnapshot>(
        &self,
        snapshot: &S,
        type_manager: &TypeManager<S>,
    ) -> (annotations: Result<Vec<AttributeTypeAnnotation>, ConceptReadError>)
        requires
            type_exists(type_manager.schema(snapshot), self@),
        ensures
            match annotations {
                Ok(annotations) => attribute_annotations(annotations@) == annotations_of(
                    type_manager.schema(snapshot),
                    self@,
                ) && cardinality_of(type_manager.schema(snapshot), self@) != Some(
                    None::<AnnotationCardinality>,
                ),
                Err(ConceptReadError::Encoding { source }) => source
                    == EncodingError::MalformedBytes && cardinality_of(
                    type_manager.schema(snapshot),
                    self@,
                ) == Some(None::<AnnotationCardinality>),
                Err(ConceptReadError::InvalidAnnotationForKind) => cardinality_of(
                    type_manager.schema(snapshot),
                    self@,
                ) != Some(None::<AnnotationCardinality>) && exists|i: int|
                    0 <= i < annotations_of(type_manager.schema(snapshot), self@).len()
                        && !AttributeTypeAnnotation::is_legal(
                        #[trigger] annotations_of(type_manager.schema(snapshot), self@)[i],
                    ),
                Err(_) => false,
            },
    {
        match type_manager.get_annotations(snapshot, self.vertex) {
            Ok(annotations) => AttributeTypeAnnotation::from_all(&annotations),
            Err(error) => Err(error),
        }
    }

    /// Attaches the annotation to the type.
    pub fn set_annotation<S: WritableSnapshot>(
        &self,
        snapshot: &mut S,
        annotation: AttributeTypeAnnotation,
    ) -> (done: Result<(), ConceptWriteError>)
        ensures
            done is Ok,
            final(snapshot).contents() == with_annotation(
                old(snapshot).contents(),
                self@,
                annotation.spec_into_annotation(),
            ),
    {
        type_encoder::set_annotation(snapshot, self.vertex, annotation.into_annotation());
        Ok(())
    }

    /// Takes the annotation of this sort off the type.
    pub fn delete_annotation<S: WritableSnapshot>(
        &self,
        snapshot: &mut S,
        annotation: AttributeTypeAnnotation,
    )
        ensures
            final(snapshot).contents() == without_annotation(
                old(snapshot).contents(),
                self@,
                annotation.spec_into_annotation(),
            ),
    {
        type_encoder::delete_annotation(snapshot, self.vertex, annotation.into_annotation());
    }
}

impl ReadableType for AttributeType {
    open spec fn spec_root_kind() -> Kind {
        Kind::Attribute
    }

    open spec fn spec_vertex(&self) -> TypeVertex {
        self@
    }

    fn root_kind() -> (kind: Kind) {
        Kind::Attribute
    }

    fn read_from(bytes: &[u8]) -> (read: Result<Self, EncodingError>) {
        match TypeVertex::from_bytes(bytes) {
            Some(vertex) => Self::new(vertex),
            None => Err(EncodingError::MalformedBytes),
        }
    }
}

/// The vertex of the type that was created, where one was.
pub open spec fn attribute_type_created(
    created: Result<AttributeType, ConceptWriteError>,
) -> Result<
    TypeVertex,
    ConceptWriteError,
> {
    match created {
        Ok(created) => Ok(created@),
        Err(error) => Err(error),
    }
}

impl AttributeType {
    /// Creates an attribute type with the label, below the root type of the kind unless it is to
    /// be the root type itself. A label that is in use is refused, and nothing is written
    /// then.
    pub fn create_attribute_type<S: WritableSnapshot>(
        snapshot: &mut S,
        vertex_generator: &TypeVertexGenerator,
        label: &Label,
        is_root: bool,
    ) -> (created: Result<AttributeType, ConceptWriteError>)
        requires
            !is_root ==> root_of(old(snapshot).contents(), Kind::Attribute) is Some,
        ensures
            creates_type(
                old(snapshot).contents(),
                final(snapshot).contents(),
                Kind::Attribute,
                label@,
                supertype_for(old(snapshot).contents(), Kind::Attribute, is_root),
                attribute_type_created(created),
            ),
    {
        let supertype = if is_root {
            None
        } else {
            TypeDecoder::get_root(&*snapshot, Kind::Attribute)
        };
        let created = type_encoder::create_type(
            snapshot,
            vertex_generator,
            Kind::Attribute,
            label,
            supertype,
        );
        match created {
            Ok(vertex) => Ok(AttributeType { vertex }),
            Err(error) => Err(error),
        }
    }
}

impl AttributeType {
    /// Records the value type of the attribute type.
    pub fn set_value_type<S: WritableSnapshot>(&self, snapshot: &mut S, value_type: ValueType)
        ensures
            final(snapshot).contents() == old(snapshot).contents().insert(
                vertex_property_key(VertexProperty::ValueType, self@),
                value_type_bytes(value_type),
            ),
    {
        type_encoder::set_value_type(snapshot, self.vertex, &value_type);
    }

    /// The value type of the attribute type, if one is recorded.
    pub fn get_value_type<S: ReadableSnapshot>(
        &self,
        snapshot: &S,
        type_manager: &TypeManager<S>,
    ) -> (value_type: Result<Option<ValueType>, ConceptReadError>)
        requires
            type_exists(type_manager.schema(snapshot), self@),
        ensures
            match value_type {
                Ok(Some(value_type)) => value_type_of(type_manager.schema(snapshot), self@)
                    == Some(Some(value_type)),
                Ok(None) => value_type_of(type_manager.schema(snapshot), self@) is None,
                Err(error) => error == (ConceptReadError::Encoding {
                    source: EncodingError::MalformedBytes,
                }) && value_type_of(type_manager.schema(snapshot), self@) == Some(
                    None::<ValueType>,
                ),
            },
    {
        type_manager.get_value_type(snapshot, self.vertex)
    }

    /// Whether values of the attribute type may exist without an owner.
    pub fn is_independent<S: ReadableSnapshot>(
        &self,
        snapshot: &S,
        type_manager: &TypeManager<S>,
    ) -> (independent: Result<bool, ConceptReadError>)
        requires
            type_exists(type_manager.schema(snapshot), self@),
        ensures
            match independent {
                Ok(independent) => independent == has_marker(
                    type_manager.schema(snapshot),
                    VertexProperty::AnnotationIndependent,
                    self@,
                ) && cardinality_of(type_manager.schema(snapshot), self@) != Some(
                    None::<AnnotationCardinality>,
                ),
                Err(error) => error == (ConceptReadError::Encoding {
                    source: EncodingError::MalformedBytes,
                }) && cardinality_of(type_manager.schema(snapshot), self@) == Some(
                    None::<AnnotationCardinality>,
                ),
            },
    {
        match type_manager.get_annotations(snapshot, self.vertex) {
            Ok(annotations) => {
                proof {
                    lemma_annotations_hold_markers(type_manager.schema(snapshot), self@);
                }
                Ok(
                    holds_annotation(
                        &annotations,
                        Annotation::Independent(AnnotationIndependent::new()),
                    ),
                )
            },
            Err(error) => Err(error),
        }
    }

    /// The types that own the attribute type, in rising order: what the reverse of the owns
    /// edges leads to.
    pub fn get_owns_owners<S: ReadableSnapshot>(&self, snapshot: &S) -> (owners: Vec<ObjectType>)
        ensures
            lists_rising(object_vertices(owners@), owners_of(snapshot.contents(), self@)),
    {
        let ghost store = snapshot.contents();
        let entities = TypeDecoder::get_typed_targets(
            snapshot,
            EdgeKind::OwnsReverse,
            self.vertex,
            Kind::Entity,
        );
        let relations = TypeDecoder::get_typed_targets(
            snapshot,
            EdgeKind::OwnsReverse,
            self.vertex,
            Kind::Relation,
        );
        let mut owners: Vec<ObjectType> = Vec::new();
        let mut i: usize = 0;
        while i < entities.len()
            invariant
                0 <= i <= entities@.len(),
                lists_rising(
                    entities@,
                    typed_targets(store, EdgeKind::OwnsReverse, self@, Kind::Entity),
                ),
                owners@.len() == i,
                forall|t: int| 0 <= t < i ==> (#[trigger] owners@[t])@ == entities@[t],
            decreases entities@.len() - i,
        {
            assert(entities@.to_set().contains(entities@[i as int]));
            owners.push(ObjectType::Entity(EntityType::from_vertex(entities[i])));
            i += 1;
        }
        let mut j: usize = 0;
        while j < relations.len()
            invariant
                0 <= j <= relations@.len(),
                lists_rising(
                    relations@,
                    typed_targets(store, EdgeKind::OwnsReverse, self@, Kind::Relation),
                ),
                owners@.len() == entities@.len() + j,
                forall|t: int|
                    0 <= t < entities@.len() ==> (#[trigger] owners@[t])@ == entities@[t],
                forall|t: int|
                    0 <= t < j ==> (#[trigger] owners@[entities@.len() + t])@ == relations@[t],
            decreases relations@.len() - j,
        {
            assert(relations@.to_set().contains(relations@[j as int]));
            let ghost before = owners@;
            owners.push(ObjectType::Relation(RelationType::from_vertex(relations[j])));
            proof {
                assert forall|t: int| 0 <= t < entities@.len() implies (#[trigger] owners@[t])@
                    == entities@[t] by {
                    assert(owners@[t] == before[t]);
                }
                assert forall|t: int| 0 <= t < j + 1 implies (
                #[trigger] owners@[entities@.len() + t])@ == relations@[t] by {
                    if t < j {
                        assert(owners@[entities@.len() + t] == before[entities@.len() + t]);
                    }
                }
            }
            j += 1;
        }
        proof {
            let listed = object_vertices(owners@);
            let count = entities@.len() as int;
            assert forall|t: int| 0 <= t < listed.len() implies #[trigger] listed[t] == (if t
                < count {
                entities@[t]
            } else {
                relations@[t - count]
            }) by {
                if t >= count {
                    assert(owners@[count + (t - count)]@ == relations@[t - count]);
                }
            }
            assert forall|t: int, u: int| 0 <= t < u < listed.len() implies vertex_before(
                #[trigger] listed[t],
                #[trigger] listed[u],
            ) by {
                if u < count {
                    assert(vertex_before(entities@[t], entities@[u]));
                } else if t >= count {
                    assert(vertex_before(relations@[t - count], relations@[u - count]));
                } else {
                    assert(entities@.to_set().contains(entities@[t]));
                    assert(relations@.to_set().contains(relations@[u - count]));
                }
            }
            lemma_rising_is_distinct(listed);
            assert forall|owner: TypeVertex|
                listed.to_set().contains(owner) <==> owners_of(store, self@).contains(owner) by {
                if listed.to_set().contains(owner) {
                    let t = choose|t: int| 0 <= t < listed.len() && listed[t] == owner;
                    if t < count {
                        assert(entities@.to_set().contains(entities@[t]));
                    } else {
                        assert(relations@.to_set().contains(relations@[t - count]));
                    }
                }
                if owners_of(store, self@).contains(owner) {
                    if owner.kind == Kind::Entity {
                        assert(entities@.to_set().contains(owner));
                        let t = choose|t: int| 0 <= t < entities@.len() && entities@[t] == owner;
                        assert(listed[t] == owner);
                    } else {
                        assert(relations@.to_set().contains(owner));
                        let t = choose|t: int|
                            0 <= t < relations@.len() && relations@[t] == owner;
                        assert(listed[count + t] == owner);
                    }
                }
            }
            assert(listed.to_set() =~= owners_of(store, self@));
        }
        owners
    }
}

/// The types that own the attribute type: the entity types and relation types that the
/// reverse of the owns edges leads to.
pub open spec fn owners_of(store: Store, attribute: TypeVertex) -> Set<TypeVertex> {
    Set::new(
        |owner: TypeVertex|
            (owner.kind == Kind::Entity || owner.kind == Kind::Relation) && has_edge(
                store,
                EdgeKind::OwnsReverse,
                attribute,
                owner,
            ),
    )
}

/// The annotations that an attribute type can carry.
#[derive(Debug, Copy, Clone, Eq, PartialEq, Structural, Hash)]
pub enum AttributeTypeAnnotation {
    Abstract(AnnotationAbstract),
    Independent(AnnotationIndependent),
}

impl AttributeTypeAnnotation {
    /// Whether an attribute type can carry the annotation.
    pub open spec fn is_legal(annotation: Annotation) -> bool {
        annotation is Abstract || annotation is Independent
    }

    /// The annotation as one of any kind of type.
    pub open spec fn spec_into_annotation(self) -> Annotation {
        match self {
            AttributeTypeAnnotation::Abstract(annotation) => Annotation::Abstract(annotation),
            AttributeTypeAnnotation::Independent(annotation) => Annotation::Independent(annotation),
        }
    }

    /// The annotation as one of an attribute type, which fails where an attribute type cannot
    /// carry it.
    pub fn from(
        annotation: Annotation,
    ) -> (converted: Result<AttributeTypeAnnotation, ConceptWriteError>)
        ensures
            match converted {
                Ok(converted) => converted.spec_into_annotation() == annotation,
                Err(error) => error == ConceptWriteError::InvalidAnnotationForKind
                    && !Self::is_legal(annotation),
            },
    {
        match annotation {
            Annotation::Abstract(annotation) => Ok(AttributeTypeAnnotation::Abstract(annotation)),
            Annotation::Distinct(_) => Err(ConceptWriteError::InvalidAnnotationForKind),
            Annotation::Independent(annotation) => Ok(AttributeTypeAnnotation::Independent(annotation)),
            Annotation::Cardinality(_) => Err(ConceptWriteError::InvalidAnnotationForKind),
        }
    }

    /// The annotation as one of any kind of type.
    pub fn into_annotation(self) -> (annotation: Annotation)
        ensures
            annotation == self.spec_into_annotation(),
            Self::is_legal(annotation),
    {
        match self {
            AttributeTypeAnnotation::Abstract(annotation) => Annotation::Abstract(annotation),
            AttributeTypeAnnotation::Independent(annotation) => Annotation::Independent(annotation),
        }
    }

    /// The annotations as those of an attribute type, which fails where one of them is none.
    pub fn from_all(
        annotations: &Vec<Annotation>,
    ) -> (converted: Result<Vec<AttributeTypeAnnotation>, ConceptReadError>)
        ensures
            match converted {
                Ok(converted) => attribute_annotations(converted@) == annotations@,
                Err(error) => error == ConceptReadError::InvalidAnnotationForKind && exists|i: int|
                    0 <= i < annotations@.len() && !Self::is_legal(#[trigger] annotations@[i]),
            },
    {
        let mut converted: Vec<AttributeTypeAnnotation> = Vec::new();
        let mut i: usize = 0;
        while i < annotations.len()
            invariant
                0 <= i <= annotations@.len(),
                converted@.len() == i,
                forall|t: int|
                    0 <= t < i ==> (#[trigger] converted@[t]).spec_into_annotation()
                        == annotations@[t],
            decreases annotations@.len() - i,
        {
            match Self::from(annotations[i]) {
                Ok(annotation) => converted.push(annotation),
                Err(_) => {
                    return Err(ConceptReadError::InvalidAnnotationForKind);
                },
            }
            i += 1;
        }
        assert(attribute_annotations(converted@) =~= annotations@);
        Ok(converted)
    }
}

/// The annotations as those of any kind of type.
pub open spec fn attribute_annotations(
    annotations: Seq<AttributeTypeAnnotation>,
) -> Seq<Annotation> {
    Seq::new(annotations.len(), |i: int| annotations[i].spec_into_annotation())
}

} // verus!
