use crate::encoding::edge::{edge_key, lemma_edge_key_decodes, EdgeKind, TypeEdge};
use crate::encoding::label::lemma_label_index_key_decodes;
use crate::encoding::property::{
    edge_property_key, lemma_edge_property_key_decodes, lemma_vertex_property_key_decodes,
    vertex_property_key, EdgeProperty, VertexProperty,
};
use crate::encoding::vertex::TypeVertex;
use crate::snapshot::Store;
use crate::type_::annotation::{order_mode_bytes, Annotation, OrderMode};
use crate::type_::consistency::{
    lemma_with_label_changes, lemma_without_type_changes, sub_edges_mirrored,
};
use crate::type_::schema::{has_edge, label_bytes};
use crate::type_::type_encoder::{
    is_edge_key_from, is_key_of_type, is_owns_property_key_of, is_owns_property_key_with, owns_kind,
    with_annotation, with_edge, with_label, with_owns, with_role_type, with_supertype, with_type,
    without_annotation, without_edge, without_edges_from, without_owns, without_type,
};
use vstd::prelude::*;

verus! {

/// Every edge is stored in both directions: one direction is never there without the other.
pub open spec fn edges_mirrored(store: Store) -> bool {
    forall|kind: EdgeKind, from: TypeVertex, to: TypeVertex|
        #[trigger] has_edge(store, kind, from, to) ==> has_edge(
            store,
            kind.spec_reverse(),
            to,
            from,
        )
}

/// Whether the two stores hold the same edges.
pub open spec fn same_edges(before: Store, after: Store) -> bool {
    forall|kind: EdgeKind, from: TypeVertex, to: TypeVertex| #[trigger]
        has_edge(after, kind, from, to) == has_edge(before, kind, from, to)
}

/// The schema that holds nothing stores every edge in both directions.
pub proof fn lemma_empty_is_mirrored()
    ensures
        edges_mirrored(Store::empty()),
{
}

/// Where every edge is stored in both directions, every sub edge is.
pub proof fn lemma_mirrored_sub_edges(store: Store)
    requires
        edges_mirrored(store),
    ensures
        sub_edges_mirrored(store),
{
    assert forall|subtype: TypeVertex, supertype: TypeVertex|
        #[trigger] has_edge(store, EdgeKind::Sub, subtype, supertype) <==> #[trigger] has_edge(
            store,
            EdgeKind::SubReverse,
            supertype,
            subtype,
        ) by {
        assert(EdgeKind::Sub.spec_reverse() == EdgeKind::SubReverse);
        assert(EdgeKind::SubReverse.spec_reverse() == EdgeKind::Sub);
    }
}

/// A change that leaves the edges alone leaves them stored in both directions.
pub proof fn lemma_same_edges_stay_mirrored(before: Store, after: Store)
    requires
        edges_mirrored(before),
        same_edges(before, after),
    ensures
        edges_mirrored(after),
{
    assert forall|kind: EdgeKind, from: TypeVertex, to: TypeVertex| #[trigger]
        has_edge(after, kind, from, to) implies has_edge(after, kind.spec_reverse(), to, from) by {
        assert(has_edge(before, kind, from, to));
        assert(has_edge(before, kind.spec_reverse(), to, from));
    }
}

/// Writing an edge writes it in both directions, and deleting one deletes it in both.
pub proof fn lemma_edge_stays_mirrored(
    store: Store,
    kind: EdgeKind,
    from: TypeVertex,
    to: TypeVertex,
)
    requires
        edges_mirrored(store),
    ensures
        edges_mirrored(with_edge(store, kind, from, to)),
        edges_mirrored(without_edge(store, kind, from, to)),
{
    broadcast use lemma_edge_key_decodes;

    let with = with_edge(store, kind, from, to);
    let without = without_edge(store, kind, from, to);
    assert(kind.spec_reverse().spec_reverse() == kind);
    assert forall|other: EdgeKind, a: TypeVertex, b: TypeVertex| #[trigger]
        has_edge(with, other, a, b) implies has_edge(with, other.spec_reverse(), b, a) by {
        assert(other.spec_reverse().spec_reverse() == other);
        if has_edge(store, other, a, b) {
            assert(has_edge(store, other.spec_reverse(), b, a));
        }
    }
    assert forall|other: EdgeKind, a: TypeVertex, b: TypeVertex| #[trigger]
        has_edge(without, other, a, b) implies has_edge(without, other.spec_reverse(), b, a) by {
        assert(other.spec_reverse().spec_reverse() == other);
        assert(has_edge(store, other, a, b));
        assert(has_edge(store, other.spec_reverse(), b, a));
    }
}

/// Deleting every edge of a kind that leaves a type deletes each in both directions.
pub proof fn lemma_edges_from_stay_mirrored(store: Store, kind: EdgeKind, from: TypeVertex)
    requires
        edges_mirrored(store),
    ensures
        edges_mirrored(without_edges_from(store, kind, from)),
{
    broadcast use lemma_edge_key_decodes;

    let after = without_edges_from(store, kind, from);
    assert(kind.spec_reverse().spec_reverse() == kind);
    assert forall|other: EdgeKind, a: TypeVertex, b: TypeVertex| #[trigger]
        has_edge(after, other, a, b) implies has_edge(after, other.spec_reverse(), b, a) by {
        assert(other.spec_reverse().spec_reverse() == other);
        assert(has_edge(store, other, a, b));
        assert(has_edge(store, other.spec_reverse(), b, a));
        let mirror = edge_key(other.spec_reverse(), b, a);
        if is_edge_key_from(store, kind, from, mirror) {
            let target = choose|target: TypeVertex| #[trigger]
                has_edge(store, kind, from, target) && (mirror == edge_key(kind, from, target)
                    || mirror == edge_key(kind.spec_reverse(), target, from));
            if mirror == edge_key(kind, from, target) {
                assert(other.spec_reverse() == kind && b == from && a == target);
                assert(edge_key(other, a, b) == edge_key(kind.spec_reverse(), target, from));
            } else {
                assert(other.spec_reverse() == kind.spec_reverse() && b == target && a == from);
                assert(other == kind);
            }
            assert(is_edge_key_from(store, kind, from, edge_key(other, a, b)));
        }
    }
}

/// Giving a type another label leaves the edges as they are.
pub proof fn lemma_label_keeps_edges(store: Store, vertex: TypeVertex, label: Seq<char>)
    ensures
        same_edges(store, with_label(store, vertex, label)),
{
    lemma_with_label_changes(store, vertex, label);
}

/// Giving a type a supertype keeps every edge stored in both directions.
pub proof fn lemma_supertype_stays_mirrored(
    store: Store,
    subtype: TypeVertex,
    supertype: TypeVertex,
)
    requires
        edges_mirrored(store),
    ensures
        edges_mirrored(with_supertype(store, subtype, supertype)),
{
    let cleared = without_edges_from(store, EdgeKind::Sub, subtype);
    lemma_edges_from_stay_mirrored(store, EdgeKind::Sub, subtype);
    lemma_edge_stays_mirrored(cleared, EdgeKind::Sub, subtype, supertype);
}

/// Setting or deleting an ownership keeps every edge stored in both directions.
pub proof fn lemma_owns_stays_mirrored(
    store: Store,
    owner: TypeVertex,
    attribute: TypeVertex,
    mode: OrderMode,
)
    requires
        edges_mirrored(store),
    ensures
        edges_mirrored(with_owns(store, owner, attribute, mode)),
        edges_mirrored(without_owns(store, owner, attribute)),
{
    broadcast use lemma_edge_key_decodes, lemma_edge_property_key_decodes;

    lemma_edge_stays_mirrored(store, EdgeKind::Owns, owner, attribute);
    let with = with_edge(store, EdgeKind::Owns, owner, attribute);
    assert(same_edges(with, with_owns(store, owner, attribute, mode)));
    lemma_same_edges_stay_mirrored(with, with_owns(store, owner, attribute, mode));
    let without = without_edge(store, EdgeKind::Owns, owner, attribute);
    assert(same_edges(without, without_owns(store, owner, attribute)));
    lemma_same_edges_stay_mirrored(without, without_owns(store, owner, attribute));
}

/// Attaching an annotation to a type, or taking one off, leaves the edges as they are.
pub proof fn lemma_annotation_keeps_edges(store: Store, vertex: TypeVertex, annotation: Annotation)
    ensures
        same_edges(store, with_annotation(store, vertex, annotation)),
        same_edges(store, without_annotation(store, vertex, annotation)),
{
    broadcast use lemma_edge_key_decodes, lemma_vertex_property_key_decodes;

}

/// Creating a type keeps every edge stored in both directions.
pub proof fn lemma_type_stays_mirrored(
    store: Store,
    vertex: TypeVertex,
    label: Seq<char>,
    supertype: Option<TypeVertex>,
)
    requires
        edges_mirrored(store),
    ensures
        edges_mirrored(with_type(store, vertex, label, supertype)),
{
    broadcast use lemma_edge_key_decodes, TypeVertex::lemma_encode_decode;

    let held = store.insert(vertex.spec_bytes(), Seq::empty());
    assert(same_edges(store, held));
    lemma_same_edges_stay_mirrored(store, held);
    let labelled = with_label(held, vertex, label);
    lemma_label_keeps_edges(held, vertex, label);
    lemma_same_edges_stay_mirrored(held, labelled);
    match supertype {
        Some(supertype) => lemma_supertype_stays_mirrored(labelled, vertex, supertype),
        None => {},
    }
}

/// Creating a role type keeps every edge stored in both directions.
pub proof fn lemma_role_type_stays_mirrored(
    store: Store,
    vertex: TypeVertex,
    label: Seq<char>,
    relation: TypeVertex,
    mode: OrderMode,
    supertype: Option<TypeVertex>,
)
    requires
        edges_mirrored(store),
    ensures
        edges_mirrored(with_role_type(store, vertex, label, relation, mode, supertype)),
{
    broadcast use
        lemma_edge_key_decodes,
        lemma_vertex_property_key_decodes,
        TypeVertex::lemma_encode_decode,
    ;

    let held = store.insert(vertex.spec_bytes(), Seq::empty());
    assert(same_edges(store, held));
    lemma_same_edges_stay_mirrored(store, held);
    let labelled = with_label(held, vertex, label);
    lemma_label_keeps_edges(held, vertex, label);
    lemma_same_edges_stay_mirrored(held, labelled);
    lemma_edge_stays_mirrored(labelled, EdgeKind::Relates, relation, vertex);
    let related = with_edge(labelled, EdgeKind::Relates, relation, vertex);
    let ordered = related.insert(
        vertex_property_key(VertexProperty::Order, vertex),
        order_mode_bytes(mode),
    );
    assert(same_edges(related, ordered));
    lemma_same_edges_stay_mirrored(related, ordered);
    match supertype {
        Some(supertype) => lemma_supertype_stays_mirrored(ordered, vertex, supertype),
        None => {},
    }
}

/// Deleting a type keeps every edge stored in both directions, and leaves no edge that
/// leaves the type or leads to it.
pub proof fn lemma_deletion_stays_mirrored(store: Store, vertex: TypeVertex)
    requires
        edges_mirrored(store),
    ensures
        edges_mirrored(without_type(store, vertex)),
        forall|kind: EdgeKind, other: TypeVertex|
            !#[trigger] has_edge(without_type(store, vertex), kind, vertex, other),
        forall|kind: EdgeKind, other: TypeVertex|
            !#[trigger] has_edge(without_type(store, vertex), kind, other, vertex),
{
    broadcast use lemma_edge_key_decodes;

    let after = without_type(store, vertex);
    lemma_without_type_changes(store, vertex);
    assert forall|kind: EdgeKind, other: TypeVertex|
        !#[trigger] has_edge(after, kind, other, vertex) by {
        assert(kind.spec_reverse().spec_reverse() == kind);
        if has_edge(store, kind, other, vertex) {
            assert(has_edge(store, kind.spec_reverse(), vertex, other));
        }
    }
    assert forall|kind: EdgeKind, from: TypeVertex, to: TypeVertex| #[trigger]
        has_edge(after, kind, from, to) implies has_edge(after, kind.spec_reverse(), to, from) by {
        assert(kind.spec_reverse().spec_reverse() == kind);
        assert(has_edge(store, kind, from, to));
        assert(has_edge(store, kind.spec_reverse(), to, from));
        assert(from != vertex && to != vertex);
        let mirror = edge_key(kind.spec_reverse(), to, from);
        if is_key_of_type(store, vertex, mirror) {
            lemma_edge_key_is_of_type(store, vertex, kind.spec_reverse(), to, from);
        }
    }
}

/// The key of an edge is a key of a type only where the edge leaves the type or leads to it.
proof fn lemma_edge_key_is_of_type(
    store: Store,
    vertex: TypeVertex,
    kind: EdgeKind,
    from: TypeVertex,
    to: TypeVertex,
)
    requires
        is_key_of_type(store, vertex, edge_key(kind, from, to)),
    ensures
        from == vertex || to == vertex,
{
    broadcast use
        lemma_vertex_property_key_decodes,
        lemma_label_index_key_decodes,
        lemma_edge_key_decodes,
        lemma_edge_property_key_decodes,
        TypeVertex::lemma_encode_decode,
    ;

    let key = edge_key(kind, from, to);
    let index = seq![60u8] + label_bytes(store, vertex);
    assert(index.len() >= 1 && index[0] == 60);
    if exists|found: EdgeKind| #[trigger] is_edge_key_from(store, found, vertex, key) {
        let found = choose|found: EdgeKind| #[trigger] is_edge_key_from(store, found, vertex, key);
        let other = choose|other: TypeVertex| #[trigger]
            has_edge(store, found, vertex, other) && (key == edge_key(found, vertex, other) || key
                == edge_key(found.spec_reverse(), other, vertex));
    } else if exists|property: VertexProperty|
        key == #[trigger] vertex_property_key(property, vertex) {
        let property = choose|property: VertexProperty|
            key == #[trigger] vertex_property_key(property, vertex);
    } else if is_owns_property_key_of(store, vertex, true, key) {
        let other = choose|other: TypeVertex| #[trigger]
            has_edge(store, owns_kind(true), vertex, other)
                && is_owns_property_key_with(vertex, other, true, key);
        let edge = TypeEdge { kind: EdgeKind::Owns, from: vertex, to: other };
        let property = choose|property: EdgeProperty|
            key == #[trigger] edge_property_key(property, edge);
    } else if is_owns_property_key_of(store, vertex, false, key) {
        let other = choose|other: TypeVertex| #[trigger]
            has_edge(store, owns_kind(false), vertex, other)
                && is_owns_property_key_with(vertex, other, false, key);
        let edge = TypeEdge { kind: EdgeKind::Owns, from: other, to: vertex };
        let property = choose|property: EdgeProperty|
            key == #[trigger] edge_property_key(property, edge);
    }
}

} // verus!
