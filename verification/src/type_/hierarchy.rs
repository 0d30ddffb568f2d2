use crate::encoding::edge::EdgeKind;
use crate::encoding::vertex::TypeVertex;
use crate::error::ConceptReadError;
use crate::snapshot::Store;
use crate::type_::consistency::sub_edges_mirrored;
use crate::type_::schema::{
    has_ambiguous_supertype, has_edge, subtypes, subtypes_at, subtypes_transitive, supertype_chain,
    supertype_of, supertypes,
};
use vstd::prelude::*;

verus! {

/// A type whose chain of supertypes can be walked has the supertype that its sub edge names.
proof fn lemma_walked_supertype(store: Store, subtype: TypeVertex, supertype: TypeVertex, fuel: nat)
    requires
        supertypes(store, subtype).contains(supertype),
        supertype_chain(store, subtype, fuel) is Ok,
    ensures
        supertype_of(store, subtype) == Some(supertype),
        fuel > 0,
        supertype_chain(store, supertype, (fuel - 1) as nat) is Ok,
        supertype_chain(store, subtype, fuel)->Ok_0 == seq![supertype] + supertype_chain(
            store,
            supertype,
            (fuel - 1) as nat,
        )->Ok_0,
{
    let chosen = supertype_of(store, subtype)->Some_0;
    assert(supertypes(store, subtype).contains(chosen));
    if chosen != supertype {
        assert(has_ambiguous_supertype(store, subtype));
    }
}

/// What is left of a chain of supertypes after its first types is the chain of the last of
/// them.
proof fn lemma_chain_tail(store: Store, vertex: TypeVertex, fuel: nat, at: int)
    requires
        supertype_chain(store, vertex, fuel) is Ok,
        0 <= at < supertype_chain(store, vertex, fuel)->Ok_0.len(),
    ensures
        at < fuel,
        supertype_chain(
            store,
            supertype_chain(store, vertex, fuel)->Ok_0[at],
            (fuel - at - 1) as nat,
        ) == Ok::<Seq<TypeVertex>, ConceptReadError>(
            supertype_chain(store, vertex, fuel)->Ok_0.subrange(
                at + 1,
                supertype_chain(store, vertex, fuel)->Ok_0.len() as int,
            ),
        ),
    decreases at,
{
    let chain = supertype_chain(store, vertex, fuel)->Ok_0;
    let first = supertype_of(store, vertex)->Some_0;
    let rest = supertype_chain(store, first, (fuel - 1) as nat)->Ok_0;
    assert(chain == seq![first] + rest);
    if at == 0 {
        assert(chain.subrange(1, chain.len() as int) =~= rest);
    } else {
        lemma_chain_tail(store, first, (fuel - 1) as nat, at - 1);
        assert(chain[at] == rest[at - 1]);
        assert(chain.subrange(at + 1, chain.len() as int) =~= rest.subrange(
            at,
            rest.len() as int,
        ));
    }
}

/// A chain of supertypes that can be walked is the same however many steps are allowed.
proof fn lemma_chain_is_one(store: Store, vertex: TypeVertex, fuel: nat, other: nat)
    requires
        supertype_chain(store, vertex, fuel) is Ok,
        supertype_chain(store, vertex, other) is Ok,
    ensures
        supertype_chain(store, vertex, fuel) == supertype_chain(store, vertex, other),
    decreases fuel,
{
    match supertype_of(store, vertex) {
        None => {},
        Some(supertype) => {
            lemma_chain_is_one(store, supertype, (fuel - 1) as nat, (other - 1) as nat);
        },
    }
}

/// No type is among its own supertypes: a chain of supertypes that can be walked to its end
/// does not come back to the type it left.
pub proof fn lemma_no_type_above_itself(store: Store, vertex: TypeVertex, fuel: nat)
    requires
        supertype_chain(store, vertex, fuel) is Ok,
    ensures
        !supertype_chain(store, vertex, fuel)->Ok_0.contains(vertex),
{
    let chain = supertype_chain(store, vertex, fuel)->Ok_0;
    if chain.contains(vertex) {
        let at = choose|at: int| 0 <= at < chain.len() && chain[at] == vertex;
        lemma_chain_tail(store, vertex, fuel, at);
        lemma_chain_is_one(store, vertex, fuel, (fuel - at - 1) as nat);
        assert(chain.subrange(at + 1, chain.len() as int).len() == chain.len());
    }
}

/// Every subtype has the type above it: where sub edges are stored in both directions, a
/// type that lies `depth` steps below the direct subtypes of another finds that other type
/// at place `depth` among its own supertypes.
pub proof fn lemma_subtype_has_type_above(
    store: Store,
    vertex: TypeVertex,
    below: TypeVertex,
    depth: nat,
    fuel: nat,
)
    requires
        sub_edges_mirrored(store),
        subtypes_at(store, vertex, depth).contains(below),
        supertype_chain(store, below, fuel) is Ok,
    ensures
        depth < supertype_chain(store, below, fuel)->Ok_0.len(),
        supertype_chain(store, below, fuel)->Ok_0[depth as int] == vertex,
        supertype_chain(store, below, fuel)->Ok_0.contains(vertex),
    decreases depth,
{
    let chain = supertype_chain(store, below, fuel)->Ok_0;
    if depth == 0 {
        assert(has_edge(store, EdgeKind::SubReverse, vertex, below));
        assert(has_edge(store, EdgeKind::Sub, below, vertex));
        assert(supertypes(store, below).contains(vertex));
        lemma_walked_supertype(store, below, vertex, fuel);
        assert(chain[0] == vertex);
    } else {
        let above = choose|above: TypeVertex|
            subtypes_at(store, vertex, (depth - 1) as nat).contains(above) && #[trigger] subtypes(
                store,
                above,
            ).contains(below);
        assert(has_edge(store, EdgeKind::SubReverse, above, below));
        assert(has_edge(store, EdgeKind::Sub, below, above));
        assert(supertypes(store, below).contains(above));
        lemma_walked_supertype(store, below, above, fuel);
        lemma_subtype_has_type_above(store, vertex, above, (depth - 1) as nat, (fuel - 1) as nat);
        let rest = supertype_chain(store, above, (fuel - 1) as nat)->Ok_0;
        assert(chain[depth as int] == rest[depth - 1]);
    }
}

/// Every subtype of a type, direct or not, has the type among its supertypes, where sub
/// edges are stored in both directions.
pub proof fn lemma_subtypes_have_type_above(
    store: Store,
    vertex: TypeVertex,
    below: TypeVertex,
    fuel: nat,
)
    requires
        sub_edges_mirrored(store),
        subtypes_transitive(store, vertex).contains(below),
        supertype_chain(store, below, fuel) is Ok,
    ensures
        supertype_chain(store, below, fuel)->Ok_0.contains(vertex),
{
    let depth = choose|depth: nat| #[trigger] subtypes_at(store, vertex, depth).contains(below);
    lemma_subtype_has_type_above(store, vertex, below, depth, fuel);
}

/// The direct subtypes of a type are among all its subtypes.
pub proof fn lemma_direct_subtypes_are_subtypes(store: Store, vertex: TypeVertex)
    ensures
        subtypes(store, vertex).subset_of(subtypes_transitive(store, vertex)),
{
    assert forall|below: TypeVertex| subtypes(store, vertex).contains(
        below,
    ) implies subtypes_transitive(store, vertex).contains(below) by {
        assert(subtypes_at(store, vertex, 0).contains(below));
    }
}

/// Where a type has subtypes at some depth, it has subtypes at every lesser depth.
proof fn lemma_subtypes_above_exist(store: Store, vertex: TypeVertex, depth: nat, lesser: nat)
    requires
        lesser <= depth,
        subtypes_at(store, vertex, depth) != Set::<TypeVertex>::empty(),
    ensures
        subtypes_at(store, vertex, lesser) != Set::<TypeVertex>::empty(),
    decreases depth - lesser,
{
    if lesser < depth {
        if subtypes_at(store, vertex, (depth - 1) as nat) =~= Set::<TypeVertex>::empty() {
            assert(subtypes_at(store, vertex, depth) =~= Set::<TypeVertex>::empty());
        }
        lemma_subtypes_above_exist(store, vertex, (depth - 1) as nat, lesser);
    }
}

/// Where a type lies below itself, what lies below it at some depth lies below it again one
/// round deeper.
proof fn lemma_subtypes_come_round(store: Store, vertex: TypeVertex, round: nat, depth: nat)
    requires
        subtypes_at(store, vertex, round).contains(vertex),
    ensures
        subtypes_at(store, vertex, depth).subset_of(
            subtypes_at(store, vertex, round + 1 + depth),
        ),
    decreases depth,
{
    assert forall|below: TypeVertex| subtypes_at(store, vertex, depth).contains(
        below,
    ) implies subtypes_at(store, vertex, round + 1 + depth).contains(below) by {
        if depth == 0 {
            assert(subtypes(store, vertex).contains(below));
        } else {
            lemma_subtypes_come_round(store, vertex, round, (depth - 1) as nat);
            let above = choose|above: TypeVertex|
                subtypes_at(store, vertex, (depth - 1) as nat).contains(above)
                    && #[trigger] subtypes(store, above).contains(below);
            assert(subtypes_at(store, vertex, (round + 1 + depth - 1) as nat).contains(above));
        }
    }
}

/// Where a type lies below itself, it has subtypes at every depth.
proof fn lemma_subtypes_never_end(store: Store, vertex: TypeVertex, round: nat, depth: nat)
    requires
        subtypes_at(store, vertex, round).contains(vertex),
    ensures
        subtypes_at(store, vertex, depth) != Set::<TypeVertex>::empty(),
    decreases depth,
{
    if depth <= round {
        lemma_subtypes_above_exist(store, vertex, round, depth);
    } else {
        let before = (depth - round - 1) as nat;
        lemma_subtypes_never_end(store, vertex, round, before);
        lemma_subtypes_come_round(store, vertex, round, before);
        if subtypes_at(store, vertex, depth) =~= Set::<TypeVertex>::empty() {
            assert(subtypes_at(store, vertex, before) =~= Set::<TypeVertex>::empty());
        }
    }
}

/// No type is among its own subtypes, where its subtypes end at some depth.
pub proof fn lemma_no_type_below_itself(store: Store, vertex: TypeVertex, end: nat)
    requires
        subtypes_at(store, vertex, end) == Set::<TypeVertex>::empty(),
    ensures
        !subtypes_transitive(store, vertex).contains(vertex),
{
    if subtypes_transitive(store, vertex).contains(vertex) {
        let round = choose|round: nat| #[trigger]
            subtypes_at(store, vertex, round).contains(vertex);
        lemma_subtypes_never_end(store, vertex, round, end);
    }
}

} // verus!
