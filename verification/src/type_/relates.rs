use crate::encoding::edge::{EdgeKind, TypeEdge};
use crate::encoding::vertex::TypeVertex;
use crate::type_::relation_type::RelationType;
use crate::type_::role_type::RoleType;
use vstd::prelude::*;

verus! {

/// The definition of a role type by a relation type.
#[derive(Debug, Clone, Copy, PartialEq, Eq, Structural, Hash)]
pub struct Relates {
    relation: RelationType,
    role: RoleType,
}

impl View for Relates {
    type V = TypeEdge;

    closed spec fn view(&self) -> TypeEdge {
        TypeEdge { kind: EdgeKind::Relates, from: self.relation@, to: self.role@ }
    }
}

/// The role types of the relationships.
pub open spec fn related_vertices(found: Seq<Relates>) -> Seq<TypeVertex> {
    Seq::new(found.len(), |i: int| found[i]@.to)
}

impl Relates {
    pub fn new(relation: RelationType, role: RoleType) -> (relates: Relates)
        ensures
            relates@ == (TypeEdge { kind: EdgeKind::Relates, from: relation@, to: role@ }),
    {
        Relates { relation, role }
    }

    pub fn relation(&self) -> (relation: RelationType)
        ensures
            relation@ == self@.from,
    {
        self.relation
    }

    pub fn role(&self) -> (role: RoleType)
        ensures
            role@ == self@.to,
    {
        self.role
    }
}

} // verus!
