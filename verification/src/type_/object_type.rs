use crate::encoding::kind::Kind;
use crate::encoding::vertex::TypeVertex;
use crate::error::EncodingError;
use crate::type_::entity_type::EntityType;
use crate::type_::relation_type::RelationType;
use vstd::prelude::*;

verus! {

/// A type that can own attribute types and play role types: an entity type or a relation
/// type.
#[derive(Debug, Clone, Copy, PartialEq, Eq, Structural, Hash)]
pub enum ObjectType {
    Entity(EntityType),
    Relation(RelationType),
}

impl View for ObjectType {
    type V = TypeVertex;

    open spec fn view(&self) -> TypeVertex {
        match self {
            ObjectType::Entity(entity) => entity@,
            ObjectType::Relation(relation) => relation@,
        }
    }
}

/// The vertices of the types.
pub open spec fn object_vertices(objects: Seq<ObjectType>) -> Seq<TypeVertex> {
    Seq::new(objects.len(), |i: int| objects[i]@)
}

impl ObjectType {
    /// A handle to the type with the vertex, which fails where the vertex is that of a role
    /// type or an attribute type.
    pub fn new(vertex: TypeVertex) -> (object: Result<ObjectType, EncodingError>)
        ensures
            match object {
                Ok(object) => object@ == vertex && (vertex.kind == Kind::Entity || vertex.kind
                    == Kind::Relation),
                Err(error) => error == (EncodingError::UnexpectedKind {
                    expected: Kind::Entity,
                    actual: vertex.kind,
                }) && vertex.kind != Kind::Entity && vertex.kind != Kind::Relation,
            },
    {
        match vertex.kind {
            Kind::Relation => match RelationType::new(vertex) {
                Ok(relation) => Ok(ObjectType::Relation(relation)),
                Err(error) => Err(error),
            },
            _ => match EntityType::new(vertex) {
                Ok(entity) => Ok(ObjectType::Entity(entity)),
                Err(error) => Err(error),
            },
        }
    }

    pub fn vertex(&self) -> (vertex: TypeVertex)
        ensures
            vertex == self@,
            vertex.kind == Kind::Entity || vertex.kind == Kind::Relation,
    {
        match self {
            ObjectType::Entity(entity) => entity.vertex(),
            ObjectType::Relation(relation) => relation.vertex(),
        }
    }
}

} // verus!
