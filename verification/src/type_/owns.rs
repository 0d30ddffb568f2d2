use crate::encoding::edge::{EdgeKind, TypeEdge};
use crate::encoding::kind::Kind;
use crate::encoding::property::{edge_property_key, EdgeProperty};
use crate::encoding::vertex::TypeVertex;
use crate::error::{ConceptReadError, ConceptWriteError, EncodingError};
use crate::snapshot::{ReadableSnapshot, Store, WritableSnapshot};
use crate::type_::annotation::{
    cardinality_bytes, Annotation, AnnotationCardinality, AnnotationDistinct, OrderMode,
};
use crate::type_::attribute_type::AttributeType;
use crate::type_::object_type::ObjectType;
use crate::type_::schema::{
    edge_annotations_of, edge_cardinality_of, edge_order_mode_of, has_edge, type_exists,
};
use crate::type_::type_encoder;
use crate::type_::type_manager::TypeManager;
use vstd::prelude::*;

verus! {

/// The ownership of an attribute type by an entity type or a relation type.
#[derive(Debug, Clone, Copy, PartialEq, Eq, Structural, Hash)]
pub struct Owns {
    owner: ObjectType,
    attribute: AttributeType,
}

impl View for Owns {
    type V = TypeEdge;

    closed spec fn view(&self) -> TypeEdge {
        TypeEdge { kind: EdgeKind::Owns, from: self.owner@, to: self.attribute@ }
    }
}

/// The attribute types of the ownerships.
pub open spec fn owned_vertices(owns: Seq<Owns>) -> Seq<TypeVertex> {
    Seq::new(owns.len(), |i: int| owns[i]@.to)
}

/// `store` with the annotation attached to the relationship.
pub open spec fn with_edge_annotation(
    store: Store,
    edge: TypeEdge,
    annotation: OwnsAnnotation,
) -> Store {
    match annotation {
        OwnsAnnotation::Distinct(_) => store.insert(
            edge_property_key(EdgeProperty::AnnotationDistinct, edge),
            Seq::empty(),
        ),
        OwnsAnnotation::Cardinality(cardinality) => store.insert(
            edge_property_key(EdgeProperty::AnnotationCardinality, edge),
            cardinality_bytes(cardinality),
        ),
    }
}

/// `store` without an annotation of this sort on the relationship.
pub open spec fn without_edge_annotation(
    store: Store,
    edge: TypeEdge,
    annotation: OwnsAnnotation,
) -> Store {
    match annotation {
        OwnsAnnotation::Distinct(_) => store.remove(
            edge_property_key(EdgeProperty::AnnotationDistinct, edge),
        ),
        OwnsAnnotation::Cardinality(_) => store.remove(
            edge_property_key(EdgeProperty::AnnotationCardinality, edge),
        ),
    }
}

impl Owns {
    pub fn new(owner: ObjectType, attribute: AttributeType) -> (owns: Owns)
        ensures
            owns@ == (TypeEdge { kind: EdgeKind::Owns, from: owner@, to: attribute@ }),
    {
        Owns { owner, attribute }
    }

    pub fn owner(&self) -> (owner: ObjectType)
        ensures
            owner@ == self@.from,
    {
        self.owner
    }

    pub fn attribute(&self) -> (attribute: AttributeType)
        ensures
            attribute@ == self@.to,
    {
        self.attribute
    }

    /// The edge under which the ownership and what is recorded about it are stored.
    pub fn into_type_edge(self) -> (edge: TypeEdge)
        ensures
            edge == self@,
            edge.kind == EdgeKind::Owns,
            edge.to.kind == Kind::Attribute,
    {
        TypeEdge::new(EdgeKind::Owns, self.owner.vertex(), self.attribute.vertex())
    }

    /// The annotations of the ownership, in the order distinct, cardinality.
    pub fn get_annotations<S: ReadableSnapshot>(
        &self,
        snapshot: &S,
        type_manager: &TypeManager<S>,
    ) -> (annotations: Result<Vec<OwnsAnnotation>, ConceptReadError>)
        requires
            type_exists(type_manager.schema(snapshot), self@.from),
            has_edge(type_manager.schema(snapshot), EdgeKind::Owns, self@.from, self@.to),
        ensures
            match annotations {
                Ok(annotations) => owns_annotations(annotations@) == edge_annotations_of(
                    type_manager.schema(snapshot),
                    self@,
                ),
                Err(error) => error == (ConceptReadError::Encoding {
                    source: EncodingError::MalformedBytes,
                }) && edge_cardinality_of(type_manager.schema(snapshot), self@) == Some(
                    None::<AnnotationCardinality>,
                ),
            },
    {
        let edge = self.into_type_edge();
        match type_manager.get_owns_annotations(snapshot, edge.from, edge.to) {
            Ok(annotations) => {
                let ghost stored = edge_annotations_of(type_manager.schema(snapshot), self@);
                proof {
                    assert forall|i: int| 0 <= i < stored.len() implies OwnsAnnotation::is_legal(
                        #[trigger] stored[i],
                    ) by {}
                }
                match OwnsAnnotation::from_all(&annotations) {
                    Ok(converted) => Ok(converted),
                    Err(_) => unreached(),
                }
            },
            Err(error) => Err(error),
        }
    }

    /// Attaches the annotation to the ownership.
    pub fn set_annotation<S: WritableSnapshot>(&self, snapshot: &mut S, annotation: OwnsAnnotation)
        ensures
            final(snapshot).contents() == with_edge_annotation(
                old(snapshot).contents(),
                self@,
                annotation,
            ),
    {
        match annotation {
            OwnsAnnotation::Distinct(_) => type_encoder::set_edge_annotation_distinct(
                snapshot,
                self.into_type_edge(),
            ),
            OwnsAnnotation::Cardinality(cardinality) => type_encoder::set_edge_annotation_cardinality(
                snapshot,
                self.into_type_edge(),
                cardinality,
            ),
        }
    }

    /// Takes the annotation of this sort off the ownership.
    pub fn delete_annotation<S: WritableSnapshot>(
        &self,
        snapshot: &mut S,
        annotation: OwnsAnnotation,
    )
        ensures
            final(snapshot).contents() == without_edge_annotation(
                old(snapshot).contents(),
                self@,
                annotation,
            ),
    {
        match annotation {
            OwnsAnnotation::Distinct(_) => type_encoder::delete_edge_annotation_distinct(
                snapshot,
                self.into_type_edge(),
            ),
            OwnsAnnotation::Cardinality(_) => type_encoder::delete_edge_annotation_cardinality(
                snapshot,
                self.into_type_edge(),
            ),
        }
    }

    /// The order mode in which the owner holds the attribute.
    pub fn get_ordering<S: ReadableSnapshot>(
        &self,
        snapshot: &S,
        type_manager: &TypeManager<S>,
    ) -> (mode: Result<OrderMode, ConceptReadError>)
        requires
            type_exists(type_manager.schema(snapshot), self@.from),
            has_edge(type_manager.schema(snapshot), EdgeKind::Owns, self@.from, self@.to),
        ensures
            match mode {
                Ok(mode) => edge_order_mode_of(type_manager.schema(snapshot), self@) == Some(
                    Some(mode),
                ),
                Err(error) => error == (ConceptReadError::Encoding {
                    source: EncodingError::MalformedBytes,
                }) && !(edge_order_mode_of(type_manager.schema(snapshot), self@) matches Some(
                    Some(_),
                )),
            },
    {
        let edge = self.into_type_edge();
        type_manager.get_owns_ordering(snapshot, edge.from, edge.to)
    }
}

/// The annotations that an ownership can carry.
#[derive(Debug, Copy, Clone, Eq, PartialEq, Structural, Hash)]
pub enum OwnsAnnotation {
    Distinct(AnnotationDistinct),
    Cardinality(AnnotationCardinality),
}

impl OwnsAnnotation {
    /// Whether an ownership can carry the annotation.
    pub open spec fn is_legal(annotation: Annotation) -> bool {
        annotation is Distinct || annotation is Cardinality
    }

    /// The annotation as one of any kind of type.
    pub open spec fn spec_into_annotation(self) -> Annotation {
        match self {
            OwnsAnnotation::Distinct(annotation) => Annotation::Distinct(annotation),
            OwnsAnnotation::Cardinality(annotation) => Annotation::Cardinality(annotation),
        }
    }

    /// The annotation as one of an ownership, which fails where an ownership cannot
    /// carry it.
    pub fn from(annotation: Annotation) -> (converted: Result<OwnsAnnotation, ConceptWriteError>)
        ensures
            match converted {
                Ok(converted) => converted.spec_into_annotation() == annotation,
                Err(error) => error == ConceptWriteError::InvalidAnnotationForKind
                    && !Self::is_legal(annotation),
            },
    {
        match annotation {
            Annotation::Abstract(_) => Err(ConceptWriteError::InvalidAnnotationForKind),
            Annotation::Distinct(annotation) => Ok(OwnsAnnotation::Distinct(annotation)),
            Annotation::Independent(_) => Err(ConceptWriteError::InvalidAnnotationForKind),
            Annotation::Cardinality(annotation) => Ok(OwnsAnnotation::Cardinality(annotation)),
        }
    }

    /// The annotation as one of any kind of type.
    pub fn into_annotation(self) -> (annotation: Annotation)
        ensures
            annotation == self.spec_into_annotation(),
            Self::is_legal(annotation),
    {
        match self {
            OwnsAnnotation::Distinct(annotation) => Annotation::Distinct(annotation),
            OwnsAnnotation::Cardinality(annotation) => Annotation::Cardinality(annotation),
        }
    }

    /// The annotations as those of an ownership, which fails where one of them is none.
    pub fn from_all(
        annotations: &Vec<Annotation>,
    ) -> (converted: Result<Vec<OwnsAnnotation>, ConceptReadError>)
        ensures
            match converted {
                Ok(converted) => owns_annotations(converted@) == annotations@,
                Err(error) => error == ConceptReadError::InvalidAnnotationForKind && exists|i: int|
                    0 <= i < annotations@.len() && !Self::is_legal(#[trigger] annotations@[i]),
            },
    {
        let mut converted: Vec<OwnsAnnotation> = Vec::new();
        let mut i: usize = 0;
        while i < annotations.len()
            invariant
                0 <= i <= annotations@.len(),
                converted@.len() == i,
                forall|t: int|
                    0 <= t < i ==> (#[trigger] converted@[t]).spec_into_annotation()
                        == annotations@[t],
            decreases annotations@.len() - i,
        {
            match Self::from(annotations[i]) {
                Ok(annotation) => converted.push(annotation),
                Err(_) => {
                    return Err(ConceptReadError::InvalidAnnotationForKind);
                },
            }
            i += 1;
        }
        assert(owns_annotations(converted@) =~= annotations@);
        Ok(converted)
    }
}

/// The annotations as those of any kind of type.
pub open spec fn owns_annotations(annotations: Seq<OwnsAnnotation>) -> Seq<Annotation> {
    Seq::new(annotations.len(), |i: int| annotations[i].spec_into_annotation())
}

} // verus!
