use crate::encoding::edge::{EdgeKind, TypeEdge};
use crate::encoding::vertex::TypeVertex;
use crate::type_::object_type::ObjectType;
use crate::type_::role_type::RoleType;
use vstd::prelude::*;

verus! {

/// The playing of a role type by an entity type or a relation type.
#[derive(Debug, Clone, Copy, PartialEq, Eq, Structural, Hash)]
pub struct Plays {
    player: ObjectType,
    role: RoleType,
}

impl View for Plays {
    type V = TypeEdge;

    closed spec fn view(&self) -> TypeEdge {
        TypeEdge { kind: EdgeKind::Plays, from: self.player@, to: self.role@ }
    }
}

/// The role types of the relationships.
pub open spec fn played_vertices(found: Seq<Plays>) -> Seq<TypeVertex> {
    Seq::new(found.len(), |i: int| found[i]@.to)
}

impl Plays {
    pub fn new(player: ObjectType, role: RoleType) -> (plays: Plays)
        ensures
            plays@ == (TypeEdge { kind: EdgeKind::Plays, from: player@, to: role@ }),
    {
        Plays { player, role }
    }

    pub fn player(&self) -> (player: ObjectType)
        ensures
            player@ == self@.from,
    {
        self.player
    }

    pub fn role(&self) -> (role: RoleType)
        ensures
            role@ == self@.to,
    {
        self.role
    }
}

} // verus!
