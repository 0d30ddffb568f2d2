use crate::encoding::kind::Kind;
use crate::encoding::label::Label;
use crate::encoding::property::VertexProperty;
use crate::encoding::vertex::TypeVertex;
use crate::error::{ConceptReadError, ConceptWriteError, EncodingError};
use crate::snapshot::{ReadableSnapshot, WritableSnapshot};
use crate::type_::annotation::{
    holds_annotation, Annotation, AnnotationAbstract, AnnotationCardinality, AnnotationDistinct,
    OrderMode,
};
use crate::type_::schema::{
    annotations_of, cardinality_of, has_ambiguous_supertype, has_label, has_marker, is_root,
    label_bytes, label_of, lemma_annotations_hold_markers, lemma_chain_keeps_kind,
    lemma_subtypes_keep_kind, lists_rising, order_mode_of, subtypes, subtypes_at,
    subtypes_transitive, supertype_chain, supertype_is, supertypes, type_exists, HIERARCHY_LIMIT,
};
use crate::type_::type_encoder;
use crate::type_::type_encoder::{
    delete_outcome, relabel_outcome, reparent_outcome, with_annotation, with_label, with_supertype,
    without_annotation, without_type,
};
use crate::type_::type_manager::{role_cardinality, ReadableType, TypeManager};
use vstd::prelude::*;
use vstd::utf8::valid_utf8;

verus! {

/// A handle to a role type: the vertex of the type and nothing else.
#[derive(Debug, Clone, Copy, PartialEq, Eq, Structural, PartialOrd, Ord, Hash)]
pub struct RoleType {
    vertex: TypeVertex,
}

impl View for RoleType {
    type V = TypeVertex;

    closed spec fn view(&self) -> TypeVertex {
        self.vertex
    }
}

/// The vertices of the handles.
pub open spec fn role_type_vertices(handles: Seq<RoleType>) -> Seq<TypeVertex> {
    Seq::new(handles.len(), |i: int| handles[i]@)
}

/// The vertex of the handle, where there is one.
pub open spec fn role_type_vertex(handle: Option<RoleType>) -> Option<TypeVertex> {
    match handle {
        Some(handle) => Some(handle@),
        None => None,
    }
}

impl RoleType {
    #[verifier::type_invariant]
    spec fn has_kind(&self) -> bool {
        self.vertex.kind == Kind::Role
    }

    /// A handle to the type with the vertex, which fails where the vertex is of another kind.
    pub fn new(vertex: TypeVertex) -> (handle: Result<RoleType, EncodingError>)
        ensures
            match handle {
                Ok(handle) => handle@ == vertex && vertex.kind == Kind::Role,
                Err(error) => error == (EncodingError::UnexpectedKind {
                    expected: Kind::Role,
                    actual: vertex.kind,
                }) && vertex.kind != Kind::Role,
            },
    {
        match vertex.kind {
            Kind::Role => Ok(RoleType { vertex }),
            actual => Err(EncodingError::UnexpectedKind { expected: Kind::Role, actual }),
        }
    }

    /// A handle to the type with the vertex, which is of the kind of the handle.
    pub fn from_vertex(vertex: TypeVertex) -> (handle: RoleType)
        requires
            vertex.kind == Kind::Role,
        ensures
            handle@ == vertex,
    {
        RoleType { vertex }
    }

    pub fn vertex(&self) -> (vertex: TypeVertex)
        ensures
            vertex == self@,
            vertex.kind == Kind::Role,
    {
        proof {
            use_type_invariant(self);
        }
        self.vertex
    }

    pub fn into_vertex(self) -> (vertex: TypeVertex)
        ensures
            vertex == self@,
            vertex.kind == Kind::Role,
    {
        proof {
            use_type_invariant(&self);
        }
        self.vertex
    }

    pub fn into_owned(self) -> (owned: RoleType)
        ensures
            owned@ == self@,
    {
        self
    }

    /// Handles to the types with the vertices.
    pub fn from_vertices(vertices: &Vec<TypeVertex>) -> (handles: Vec<RoleType>)
        requires
            forall|i: int|
                0 <= i < vertices@.len() ==> (#[trigger] vertices@[i]).kind == Kind::Role,
        ensures
            role_type_vertices(handles@) == vertices@,
    {
        let mut handles: Vec<RoleType> = Vec::new();
        let mut i: usize = 0;
        while i < vertices.len()
            invariant
                0 <= i <= vertices@.len(),
                forall|t: int|
                    0 <= t < vertices@.len() ==> (#[trigger] vertices@[t]).kind == Kind::Role,
                handles@.len() == i,
                forall|t: int| 0 <= t < i ==> (#[trigger] handles@[t])@ == vertices@[t],
            decreases vertices@.len() - i,
        {
            handles.push(RoleType { vertex: vertices[i] });
            i += 1;
        }
        assert(role_type_vertices(handles@) =~= vertices@);
        handles
    }

    /// Whether the type carries the abstract annotation.
    pub fn is_abstract<S: ReadableSnapshot>(
        &self,
        snapshot: &S,
        type_manager: &TypeManager<S>,
    ) -> (is_abstract: Result<bool, ConceptReadError>)
        requires
            type_exists(type_manager.schema(snapshot), self@),
        ensures
            match is_abstract {
                Ok(is_abstract) => is_abstract == has_marker(
                    type_manager.schema(snapshot),
                    VertexProperty::AnnotationAbstract,
                    self@,
                ) && cardinality_of(type_manager.schema(snapshot), self@) != Some(
                    None::<AnnotationCardinality>,
                ),
                Err(error) => error == (ConceptReadError::Encoding {
                    source: EncodingError::MalformedBytes,
                }) && cardinality_of(type_manager.schema(snapshot), self@) == Some(
                    None::<AnnotationCardinality>,
                ),
            },
    {
        match type_manager.get_annotations(snapshot, self.vertex) {
            Ok(annotations) => {
                proof {
                    lemma_annotations_hold_markers(type_manager.schema(snapshot), self@);
                }
                Ok(holds_annotation(&annotations, Annotation::Abstract(AnnotationAbstract::new())))
            },
            Err(error) => Err(error),
        }
    }

    /// Whether the type is the root type of its kind.
    pub fn is_root<S: ReadableSnapshot>(
        &self,
        snapshot: &S,
        type_manager: &TypeManager<S>,
    ) -> (root: Result<bool, ConceptReadError>)
        requires
            type_exists(type_manager.schema(snapshot), self@),
        ensures
            match root {
                Ok(root) => root == is_root(type_manager.schema(snapshot), self@) && label_of(
                    type_manager.schema(snapshot),
                    self@,
                ) is Some,
                Err(error) => error == (ConceptReadError::Encoding {
                    source: EncodingError::MalformedBytes,
                }) && !valid_utf8(label_bytes(type_manager.schema(snapshot), self@)),
            },
    {
        type_manager.get_is_root(snapshot, self.vertex)
    }

    /// The label of the type.
    pub fn get_label<S: ReadableSnapshot>(
        &self,
        snapshot: &S,
        type_manager: &TypeManager<S>,
    ) -> (label: Result<Label, ConceptReadError>)
        requires
            type_exists(type_manager.schema(snapshot), self@),
        ensures
            match label {
                Ok(label) => label_of(type_manager.schema(snapshot), self@) == Some(label@),
                Err(error) => error == (ConceptReadError::Encoding {
                    source: EncodingError::MalformedBytes,
                }) && !valid_utf8(label_bytes(type_manager.schema(snapshot), self@)),
            },
    {
        type_manager.get_label(snapshot, self.vertex)
    }

    /// Gives the type another label. A root type keeps its label, and a label that another
    /// type carries is refused; nothing is written then.
    pub fn set_label<S: WritableSnapshot>(
        &self,
        snapshot: &mut S,
        label: &Label,
    ) -> (done: Result<(), ConceptWriteError>)
        requires
            has_label(old(snapshot).contents(), self@),
        ensures
            done == relabel_outcome(old(snapshot).contents(), self@, label@),
            final(snapshot).contents() == (if done is Ok {
                with_label(old(snapshot).contents(), self@, label@)
            } else {
                old(snapshot).contents()
            }),
    {
        type_encoder::relabel(snapshot, self.vertex, label)
    }

    /// Deletes the type, with everything that is recorded about it and every edge that it
    /// takes part in. A root type stays; nothing is written then.
    pub fn delete<S: WritableSnapshot>(
        self,
        snapshot: &mut S,
    ) -> (done: Result<(), ConceptWriteError>)
        requires
            has_label(old(snapshot).contents(), self@),
        ensures
            done == delete_outcome(old(snapshot).contents(), self@),
            final(snapshot).contents() == (if done is Ok {
                without_type(old(snapshot).contents(), self@)
            } else {
                old(snapshot).contents()
            }),
    {
        type_encoder::delete(snapshot, self.vertex)
    }

    /// The direct supertype of the type.
    pub fn get_supertype<S: ReadableSnapshot>(
        &self,
        snapshot: &S,
        type_manager: &TypeManager<S>,
    ) -> (supertype: Result<Option<RoleType>, ConceptReadError>)
        requires
            type_exists(type_manager.schema(snapshot), self@),
        ensures
            match supertype {
                Ok(supertype) => supertype_is(
                    type_manager.schema(snapshot),
                    self@,
                    role_type_vertex(supertype),
                ),
                Err(error) => error == ConceptReadError::AmbiguousSupertype
                    && has_ambiguous_supertype(type_manager.schema(snapshot), self@),
            },
    {
        match type_manager.get_supertype(snapshot, self.vertex) {
            Ok(Some(vertex)) => {
                proof {
                    use_type_invariant(self);
                    assert(supertypes(type_manager.schema(snapshot), self@).contains(vertex));
                }
                Ok(Some(RoleType { vertex }))
            },
            Ok(None) => Ok(None),
            Err(error) => Err(error),
        }
    }

    /// Places the type below `supertype`. A root type stays where it is; nothing is written
    /// then.
    pub fn set_supertype<S: WritableSnapshot>(
        &self,
        snapshot: &mut S,
        supertype: RoleType,
    ) -> (done: Result<(), ConceptWriteError>)
        requires
            has_label(old(snapshot).contents(), self@),
        ensures
            done == reparent_outcome(old(snapshot).contents(), self@),
            final(snapshot).contents() == (if done is Ok {
                with_supertype(old(snapshot).contents(), self@, supertype@)
            } else {
                old(snapshot).contents()
            }),
    {
        type_encoder::reparent(snapshot, self.vertex, supertype.vertex)
    }

    /// The supertypes of the type, from the nearest to the root. The type itself is not among
    /// them.
    pub fn get_supertypes<S: ReadableSnapshot>(
        &self,
        snapshot: &S,
        type_manager: &TypeManager<S>,
    ) -> (found: Result<Vec<RoleType>, ConceptReadError>)
        requires
            type_exists(type_manager.schema(snapshot), self@),
        ensures
            match found {
                Ok(found) => supertype_chain(
                    type_manager.schema(snapshot),
                    self@,
                    HIERARCHY_LIMIT as nat,
                ) == Ok::<Seq<TypeVertex>, ConceptReadError>(role_type_vertices(found@)),
                Err(error) => supertype_chain(
                    type_manager.schema(snapshot),
                    self@,
                    HIERARCHY_LIMIT as nat,
                ) == Err::<Seq<TypeVertex>, ConceptReadError>(error),
            },
    {
        match type_manager.get_supertypes(snapshot, self.vertex) {
            Ok(vertices) => {
                proof {
                    use_type_invariant(self);
                    lemma_chain_keeps_kind(
                        type_manager.schema(snapshot),
                        self@,
                        HIERARCHY_LIMIT as nat,
                    );
                }
                Ok(Self::from_vertices(&vertices))
            },
            Err(error) => Err(error),
        }
    }

    /// The direct subtypes of the type, in rising order.
    pub fn get_subtypes<S: ReadableSnapshot>(
        &self,
        snapshot: &S,
        type_manager: &TypeManager<S>,
    ) -> (found: Result<Vec<RoleType>, ConceptReadError>)
        requires
            type_exists(type_manager.schema(snapshot), self@),
        ensures
            match found {
                Ok(found) => lists_rising(
                    role_type_vertices(found@),
                    subtypes(type_manager.schema(snapshot), self@),
                ),
                Err(_) => false,
            },
    {
        let vertices = type_manager.get_subtypes(snapshot, self.vertex);
        proof {
            use_type_invariant(self);
            assert forall|i: int| 0 <= i < vertices@.len() implies (#[trigger] vertices@[i]).kind
                == Kind::Role by {
                assert(vertices@.to_set().contains(vertices@[i]));
            }
        }
        Ok(Self::from_vertices(&vertices))
    }

    /// All subtypes of the type, direct or not, in rising order. The type itself is not among
    /// them.
    pub fn get_subtypes_transitive<S: ReadableSnapshot>(
        &self,
        snapshot: &S,
        type_manager: &TypeManager<S>,
    ) -> (found: Result<Vec<RoleType>, ConceptReadError>)
        requires
            type_exists(type_manager.schema(snapshot), self@),
        ensures
            match found {
                Ok(found) => lists_rising(
                    role_type_vertices(found@),
                    subtypes_transitive(type_manager.schema(snapshot), self@),
                ) && subtypes_at(type_manager.schema(snapshot), self@, HIERARCHY_LIMIT as nat)
                    == Set::<TypeVertex>::empty(),
                Err(error) => error == ConceptReadError::HierarchyTooDeep && subtypes_at(
                    type_manager.schema(snapshot),
                    self@,
                    HIERARCHY_LIMIT as nat,
                ) != Set::<TypeVertex>::empty(),
            },
    {
        match type_manager.get_subtypes_transitive(snapshot, self.vertex) {
            Ok(vertices) => {
                proof {
                    use_type_invariant(self);
                    assert forall|i: int| 0 <= i < vertices@.len() implies (
                    #[trigger] vertices@[i]).kind == Kind::Role by {
                        assert(vertices@.to_set().contains(vertices@[i]));
                        let at = choose|at: nat| #[trigger]
                            subtypes_at(type_manager.schema(snapshot), self@, at).contains(
                                vertices@[i],
                            );
                        lemma_subtypes_keep_kind(type_manager.schema(snapshot), self@, at);
                    }
                }
                Ok(Self::from_vertices(&vertices))
            },
            Err(error) => Err(error),
        }
    }

    /// The annotations of the type. A stored annotation that a role type cannot carry is
    /// an error.
    pub fn get_annotations<S: ReadableSnapshot>(
        &self,
        snapshot: &S,
        type_manager: &TypeManager<S>,
    ) -> (annotations: Result<Vec<RoleTypeAnnotation>, ConceptReadError>)
        requires
            type_exists(type_manager.schema(snapshot), self@),
        ensures
            match annotations {
                Ok(annotations) => role_annotations(annotations@) == annotations_of(
                    type_manager.schema(snapshot),
                    self@,
                ) && cardinality_of(type_manager.schema(snapshot), self@) != Some(
                    None::<AnnotationCardinality>,
                ),
                Err(ConceptReadError::Encoding { source }) => source
                    == EncodingError::MalformedBytes && cardinality_of(
                    type_manager.schema(snapshot),
                    self@,
                ) == Some(None::<AnnotationCardinality>),
                Err(ConceptReadError::InvalidAnnotationForKind) => cardinality_of(
                    type_manager.schema(snapshot),
                    self@,
                ) != Some(None::<AnnotationCardinality>) && exists|i: int|
                    0 <= i < annotations_of(type_manager.schema(snapshot), self@).len()
                        && !RoleTypeAnnotation::is_legal(
                        #[trigger] annotations_of(type_manager.schema(snapshot), self@)[i],
                    ),
                Err(_) => false,
            },
    {
        match type_manager.get_annotations(snapshot, self.vertex) {
            Ok(annotations) => RoleTypeAnnotation::from_all(&annotations),
            Err(error) => Err(error),
        }
    }

    /// Attaches the annotation to the type.
    pub fn set_annotation<S: WritableSnapshot>(
        &self,
        snapshot: &mut S,
        annotation: RoleTypeAnnotation,
    ) -> (done: Result<(), ConceptWriteError>)
        ensures
            done is Ok,
            final(snapshot).contents() == with_annotation(
                old(snapshot).contents(),
                self@,
                annotation.spec_into_annotation(),
            ),
    {
        type_encoder::set_annotation(snapshot, self.vertex, annotation.into_annotation());
        Ok(())
    }

    /// Takes the annotation of this sort off the type.
    pub fn delete_annotation<S: WritableSnapshot>(
        &self,
        snapshot: &mut S,
        annotation: RoleTypeAnnotation,
    )
        ensures
            final(snapshot).contents() == without_annotation(
                old(snapshot).contents(),
                self@,
                annotation.spec_into_annotation(),
            ),
    {
        type_encoder::delete_annotation(snapshot, self.vertex, annotation.into_annotation());
    }
}

impl ReadableType for RoleType {
    open spec fn spec_root_kind() -> Kind {
        Kind::Role
    }

    open spec fn spec_vertex(&self) -> TypeVertex {
        self@
    }

    fn root_kind() -> (kind: Kind) {
        Kind::Role
    }

    fn read_from(bytes: &[u8]) -> (read: Result<Self, EncodingError>) {
        match TypeVertex::from_bytes(bytes) {
            Some(vertex) => Self::new(vertex),
            None => Err(EncodingError::MalformedBytes),
        }
    }
}

impl RoleType {
    /// The order mode of the role type.
    pub fn get_ordering<S: ReadableSnapshot>(
        &self,
        snapshot: &S,
        type_manager: &TypeManager<S>,
    ) -> (mode: Result<OrderMode, ConceptReadError>)
        requires
            type_exists(type_manager.schema(snapshot), self@),
        ensures
            match mode {
                Ok(mode) => order_mode_of(type_manager.schema(snapshot), self@) == Some(
                    Some(mode),
                ),
                Err(error) => error == (ConceptReadError::Encoding {
                    source: EncodingError::MalformedBytes,
                }) && !(order_mode_of(type_manager.schema(snapshot), self@) matches Some(
                    Some(_),
                )),
            },
    {
        proof {
            use_type_invariant(self);
        }
        type_manager.get_role_ordering(snapshot, self.vertex)
    }

    /// The cardinality of the role type: its cardinality annotation, or exactly one where it
    /// has none.
    pub fn get_cardinality<S: ReadableSnapshot>(
        &self,
        snapshot: &S,
        type_manager: &TypeManager<S>,
    ) -> (cardinality: Result<AnnotationCardinality, ConceptReadError>)
        requires
            type_exists(type_manager.schema(snapshot), self@),
        ensures
            match cardinality {
                Ok(cardinality) => cardinality == role_cardinality(
                    type_manager.schema(snapshot),
                    self@,
                ) && cardinality_of(type_manager.schema(snapshot), self@) != Some(
                    None::<AnnotationCardinality>,
                ),
                Err(error) => error == (ConceptReadError::Encoding {
                    source: EncodingError::MalformedBytes,
                }) && cardinality_of(type_manager.schema(snapshot), self@) == Some(
                    None::<AnnotationCardinality>,
                ),
            },
    {
        type_manager.get_role_cardinality(snapshot, self.vertex)
    }
}

/// The vertex of the role type that was created, where one was.
pub open spec fn role_type_created(created: Result<RoleType, ConceptWriteError>) -> Result<
    TypeVertex,
    ConceptWriteError,
> {
    match created {
        Ok(created) => Ok(created@),
        Err(error) => Err(error),
    }
}

/// The annotations that a role type can carry.
#[derive(Debug, Copy, Clone, Eq, PartialEq, Structural, Hash)]
pub enum RoleTypeAnnotation {
    Abstract(AnnotationAbstract),
    Distinct(AnnotationDistinct),
    Cardinality(AnnotationCardinality),
}

impl RoleTypeAnnotation {
    /// Whether a role type can carry the annotation.
    pub open spec fn is_legal(annotation: Annotation) -> bool {
        annotation is Abstract || annotation is Distinct || annotation is Cardinality
    }

    /// The annotation as one of any kind of type.
    pub open spec fn spec_into_annotation(self) -> Annotation {
        match self {
            RoleTypeAnnotation::Abstract(annotation) => Annotation::Abstract(annotation),
            RoleTypeAnnotation::Distinct(annotation) => Annotation::Distinct(annotation),
            RoleTypeAnnotation::Cardinality(annotation) => Annotation::Cardinality(annotation),
        }
    }

    /// The annotation as one of a role type, which fails where a role type cannot
    /// carry it.
    pub fn from(
        annotation: Annotation,
    ) -> (converted: Result<RoleTypeAnnotation, ConceptWriteError>)
        ensures
            match converted {
                Ok(converted) => converted.spec_into_annotation() == annotation,
                Err(error) => error == ConceptWriteError::InvalidAnnotationForKind
                    && !Self::is_legal(annotation),
            },
    {
        match annotation {
            Annotation::Abstract(annotation) => Ok(RoleTypeAnnotation::Abstract(annotation)),
            Annotation::Distinct(annotation) => Ok(RoleTypeAnnotation::Distinct(annotation)),
            Annotation::Independent(_) => Err(ConceptWriteError::InvalidAnnotationForKind),
            Annotation::Cardinality(annotation) => Ok(RoleTypeAnnotation::Cardinality(annotation)),
        }
    }

    /// The annotation as one of any kind of type.
    pub fn into_annotation(self) -> (annotation: Annotation)
        ensures
            annotation == self.spec_into_annotation(),
            Self::is_legal(annotation),
    {
        match self {
            RoleTypeAnnotation::Abstract(annotation) => Annotation::Abstract(annotation),
            RoleTypeAnnotation::Distinct(annotation) => Annotation::Distinct(annotation),
            RoleTypeAnnotation::Cardinality(annotation) => Annotation::Cardinality(annotation),
        }
    }

    /// The annotations as those of a role type, which fails where one of them is none.
    pub fn from_all(
        annotations: &Vec<Annotation>,
    ) -> (converted: Result<Vec<RoleTypeAnnotation>, ConceptReadError>)
        ensures
            match converted {
                Ok(converted) => role_annotations(converted@) == annotations@,
                Err(error) => error == ConceptReadError::InvalidAnnotationForKind && exists|i: int|
                    0 <= i < annotations@.len() && !Self::is_legal(#[trigger] annotations@[i]),
            },
    {
        let mut converted: Vec<RoleTypeAnnotation> = Vec::new();
        let mut i: usize = 0;
        while i < annotations.len()
            invariant
                0 <= i <= annotations@.len(),
                converted@.len() == i,
                forall|t: int|
                    0 <= t < i ==> (#[trigger] converted@[t]).spec_into_annotation()
                        == annotations@[t],
            decreases annotations@.len() - i,
        {
            match Self::from(annotations[i]) {
                Ok(annotation) => converted.push(annotation),
                Err(_) => {
                    return Err(ConceptReadError::InvalidAnnotationForKind);
                },
            }
            i += 1;
        }
        assert(role_annotations(converted@) =~= annotations@);
        Ok(converted)
    }
}

/// The annotations as those of any kind of type.
pub open spec fn role_annotations(annotations: Seq<RoleTypeAnnotation>) -> Seq<Annotation> {
    Seq::new(annotations.len(), |i: int| annotations[i].spec_into_annotation())
}

} // verus!
