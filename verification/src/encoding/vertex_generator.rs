use crate::encoding::kind::Kind;
use crate::encoding::vertex::TypeVertex;
use crate::error::EncodingError;
use crate::snapshot::{Store, WritableSnapshot};
use vstd::prelude::*;

verus! {

/// Whether no type of `kind` has the number `id` yet.
pub open spec fn is_free(store: Store, kind: Kind, id: int) -> bool {
    0 <= id < 65536 && !store.contains_key((TypeVertex { kind, id: id as u16 }).spec_bytes())
}

/// Whether `id` is the least number that no type of `kind` has yet.
pub open spec fn is_first_free(store: Store, kind: Kind, id: int) -> bool {
    is_free(store, kind, id) && forall|lower: int| 0 <= lower < id ==> !is_free(store, kind, lower)
}

/// Whether every number of `kind` is taken.
pub open spec fn is_exhausted(store: Store, kind: Kind) -> bool {
    forall|id: int| 0 <= id < 65536 ==> !is_free(store, kind, id)
}

/// Whether allocating an identity of `kind` ended as `allocated` and made `after` of
/// `before`: the vertex with the least free number was recorded, or every number was taken
/// and nothing was written.
pub open spec fn allocates(
    before: Store,
    after: Store,
    kind: Kind,
    allocated: Result<TypeVertex, EncodingError>,
) -> bool {
    match allocated {
        Ok(vertex) => {
            &&& vertex.kind == kind
            &&& is_first_free(before, kind, vertex.id as int)
            &&& after == before.insert(vertex.spec_bytes(), Seq::empty())
        },
        Err(error) => {
            &&& error == (EncodingError::TypeIdsExhausted { kind })
            &&& is_exhausted(before, kind)
            &&& after == before
        },
    }
}

/// Hands out the identities of new types. A number counts as taken while the key of its
/// vertex is present, so a number is never handed out twice for types that exist.
pub struct TypeVertexGenerator {}

impl TypeVertexGenerator {
    pub fn new() -> (generator: Self) {
        TypeVertexGenerator {  }
    }

    /// Takes the least free number of `kind` and records the new vertex.
    pub fn allocate<S: WritableSnapshot>(
        &self,
        snapshot: &mut S,
        kind: Kind,
    ) -> (vertex: Result<TypeVertex, EncodingError>)
        ensures
            allocates(old(snapshot).contents(), final(snapshot).contents(), kind, vertex),
    {
        let mut id: u32 = 0;
        while id < 65536
            invariant
                0 <= id <= 65536,
                snapshot.contents() == old(snapshot).contents(),
                forall|lower: int| 0 <= lower < id ==> !is_free(snapshot.contents(), kind, lower),
            decreases 65536 - id,
        {
            let vertex = TypeVertex::new(kind, id as u16);
            let key = vertex.bytes();
            if snapshot.get(key.as_slice()).is_none() {
                snapshot.put(key);
                return Ok(vertex);
            }
            id += 1;
        }
        Err(EncodingError::TypeIdsExhausted { kind })
    }

    pub fn create_entity_type<S: WritableSnapshot>(
        &self,
        snapshot: &mut S,
    ) -> (vertex: Result<TypeVertex, EncodingError>)
        ensures
            allocates(
                old(snapshot).contents(),
                final(snapshot).contents(),
                Kind::Entity,
                vertex,
            ),
    {
        self.allocate(snapshot, Kind::Entity)
    }

    pub fn create_relation_type<S: WritableSnapshot>(
        &self,
        snapshot: &mut S,
    ) -> (vertex: Result<TypeVertex, EncodingError>)
        ensures
            allocates(
                old(snapshot).contents(),
                final(snapshot).contents(),
                Kind::Relation,
                vertex,
            ),
    {
        self.allocate(snapshot, Kind::Relation)
    }

    pub fn create_role_type<S: WritableSnapshot>(
        &self,
        snapshot: &mut S,
    ) -> (vertex: Result<TypeVertex, EncodingError>)
        ensures
            allocates(
                old(snapshot).contents(),
                final(snapshot).contents(),
                Kind::Role,
                vertex,
            ),
    {
        self.allocate(snapshot, Kind::Role)
    }

    pub fn create_attribute_type<S: WritableSnapshot>(
        &self,
        snapshot: &mut S,
    ) -> (vertex: Result<TypeVertex, EncodingError>)
        ensures
            allocates(
                old(snapshot).contents(),
                final(snapshot).contents(),
                Kind::Attribute,
                vertex,
            ),
    {
        self.allocate(snapshot, Kind::Attribute)
    }
}

} // verus!
