use crate::encoding::edge::{edge_key, lemma_edge_key_decodes, EdgeKind};
use crate::encoding::kind::Kind;
use crate::encoding::label::{label_index_key, lemma_label_index_key_decodes};
use crate::encoding::property::{
    lemma_edge_property_key_decodes, lemma_vertex_property_key_decodes, vertex_property_key,
    VertexProperty,
};
use crate::encoding::vertex::TypeVertex;
use crate::snapshot::Store;
use crate::type_::annotation::{order_mode_bytes, Annotation, OrderMode};
use crate::type_::consistency::{
    consistent, lemma_annotation_keeps_consistent, lemma_edge_keeps_consistent,
    lemma_first_free_is_free, lemma_property_keeps_consistent, lemma_root_creation_keeps_consistent,
    lemma_with_label_changes, lemma_with_labelled_vertex_changes, lemma_with_supertype_changes,
    lemma_without_type_changes, with_labelled_vertex,
};
use crate::type_::schema::{
    has_edge, has_label, has_vertex, label_bytes, label_in_use, label_of, labelled_type,
    labelled_vertex, subtypes, supertypes, type_exists, typed_targets,
};
use crate::type_::symmetry::{
    edges_mirrored, lemma_annotation_keeps_edges, lemma_deletion_stays_mirrored,
    lemma_role_type_stays_mirrored, lemma_same_edges_stay_mirrored, lemma_type_stays_mirrored,
};
use crate::type_::type_encoder::{
    abstract_annotation, first_free, initialise_outcome, relabel_outcome, root_role_outcome,
    root_type_outcome, with_annotation, with_edge, with_label, with_owns, with_role_type,
    with_supertype, with_type, without_annotation, without_edge, without_owns, without_type,
};
use vstd::prelude::*;
use vstd::utf8::{
    decode_utf8, decode_utf8_encode_utf8, encode_utf8_decode_utf8, encode_utf8_valid_utf8,
};

verus! {

/// Whether the index leads from the label to a type that carries the label.
pub open spec fn names_labelled(store: Store, text: Seq<char>) -> bool {
    labelled_vertex(store, text) matches Some(vertex) && label_of(store, vertex) == Some(text)
}

/// Every entry of the index leads to a type that carries the label of the entry.
pub open spec fn index_labelled(store: Store) -> bool {
    forall|text: Seq<char>| #[trigger]
        label_in_use(store, text) ==> names_labelled(store, text)
}

/// Every type that the store holds has a label.
pub open spec fn vertices_labelled(store: Store) -> bool {
    forall|vertex: TypeVertex| #[trigger] has_vertex(store, vertex) ==> has_label(store, vertex)
}

/// Every edge leaves a type that the store holds and leads to one.
pub open spec fn edges_anchored(store: Store) -> bool {
    forall|kind: EdgeKind, from: TypeVertex, to: TypeVertex| #[trigger]
        has_edge(store, kind, from, to) ==> has_vertex(store, from) && has_vertex(store, to)
}

/// What a schema keeps beyond consistency where every change is made to types that exist:
/// whatever a label, an index entry or an edge names is a type with a vertex and a label.
pub open spec fn grounded(store: Store) -> bool {
    &&& index_labelled(store)
    &&& vertices_labelled(store)
    &&& edges_anchored(store)
}

/// The schema that holds nothing is grounded.
pub proof fn lemma_empty_is_grounded()
    ensures
        grounded(Store::empty()),
{
}

/// The type that a lookup by label finds exists and carries the label.
pub proof fn lemma_labelled_type_exists(store: Store, label: Seq<char>, kind: Kind)
    requires
        consistent(store),
        grounded(store),
        labelled_type(store, label, kind) is Some,
    ensures
        type_exists(store, labelled_type(store, label, kind)->Some_0),
        label_of(store, labelled_type(store, label, kind)->Some_0) == Some(label),
        labelled_type(store, label, kind)->Some_0.kind == kind,
{
    assert(label_in_use(store, label));
    let vertex = labelled_vertex(store, label)->Some_0;
    assert(has_label(store, vertex));
    assert(has_vertex(store, vertex));
}

/// The types that an edge leads to exist: the supertype and the subtypes of a type, and what
/// it owns, plays and relates.
pub proof fn lemma_edge_ends_exist(store: Store, kind: EdgeKind, from: TypeVertex, to: TypeVertex)
    requires
        grounded(store),
        has_edge(store, kind, from, to),
    ensures
        type_exists(store, from),
        type_exists(store, to),
{
}

/// The direct supertype and the direct subtypes of a type exist.
pub proof fn lemma_hierarchy_exists(store: Store, vertex: TypeVertex, other: TypeVertex)
    requires
        grounded(store),
        supertypes(store, vertex).contains(other) || subtypes(store, vertex).contains(other),
    ensures
        type_exists(store, other),
{
    if supertypes(store, vertex).contains(other) {
        lemma_edge_ends_exist(store, EdgeKind::Sub, vertex, other);
    } else {
        lemma_edge_ends_exist(store, EdgeKind::SubReverse, vertex, other);
    }
}

/// What a type owns, plays or relates exists.
pub proof fn lemma_targets_exist(
    store: Store,
    kind: EdgeKind,
    from: TypeVertex,
    target_kind: Kind,
    to: TypeVertex,
)
    requires
        grounded(store),
        typed_targets(store, kind, from, target_kind).contains(to),
    ensures
        type_exists(store, to),
{
    lemma_edge_ends_exist(store, kind, from, to);
}

/// Relabelling a type keeps a grounded schema grounded.
pub proof fn lemma_relabel_keeps_grounded(store: Store, vertex: TypeVertex, label: Seq<char>)
    requires
        consistent(store),
        grounded(store),
        has_label(store, vertex),
        relabel_outcome(store, vertex, label) is Ok,
    ensures
        grounded(with_label(store, vertex, label)),
{
    broadcast use
        lemma_vertex_property_key_decodes,
        lemma_label_index_key_decodes,
        lemma_edge_key_decodes,
        TypeVertex::lemma_encode_decode,
    ;

    let after = with_label(store, vertex, label);
    lemma_with_label_changes(store, vertex, label);
    encode_utf8_valid_utf8(label);
    encode_utf8_decode_utf8(label);
    let old_bytes = label_bytes(store, vertex);
    let old_label = decode_utf8(old_bytes);
    decode_utf8_encode_utf8(old_bytes);
    assert(seq![60u8] + old_bytes =~= label_index_key(old_label));
    assert(index_labelled(after)) by {
        assert forall|text: Seq<char>| #[trigger] label_in_use(after, text) implies names_labelled(
            after,
            text,
        ) by {
            if text != label {
                assert(label_in_use(store, text));
                assert(label_index_key(text) != label_index_key(old_label));
                assert(text != old_label);
                let found = labelled_vertex(store, text)->Some_0;
                assert(label_of(store, found) == Some(text));
                assert(found != vertex);
                assert(has_label(store, found));
            }
        }
    }
    assert(vertices_labelled(after)) by {
        assert forall|other: TypeVertex| #[trigger] has_vertex(after, other) implies has_label(
            after,
            other,
        ) by {
            assert(has_vertex(store, other));
        }
    }
    assert(edges_anchored(after)) by {
        assert forall|kind: EdgeKind, from: TypeVertex, to: TypeVertex| #[trigger]
            has_edge(after, kind, from, to) implies has_vertex(after, from) && has_vertex(
            after,
            to,
        ) by {
            assert(has_edge(store, kind, from, to));
        }
    }
}

/// Giving a type that exists a supertype that exists keeps a grounded schema grounded.
pub proof fn lemma_reparent_keeps_grounded(store: Store, vertex: TypeVertex, supertype: TypeVertex)
    requires
        grounded(store),
        edges_mirrored(store),
        has_vertex(store, vertex),
        has_vertex(store, supertype),
    ensures
        grounded(with_supertype(store, vertex, supertype)),
{
    broadcast use
        lemma_vertex_property_key_decodes,
        lemma_label_index_key_decodes,
        lemma_edge_key_decodes,
        TypeVertex::lemma_encode_decode,
    ;

    let after = with_supertype(store, vertex, supertype);
    lemma_with_supertype_changes(store, vertex, supertype);
    lemma_placed_is_grounded(store, vertex, supertype);
}

/// Where a schema is grounded, placing a type that exists below a type that exists leaves
/// it grounded. Labels, index entries and vertices stay as they are.
proof fn lemma_placed_is_grounded(store: Store, vertex: TypeVertex, supertype: TypeVertex)
    requires
        grounded(store),
        has_vertex(store, vertex),
        has_vertex(store, supertype),
    ensures
        grounded(with_supertype(store, vertex, supertype)),
{
    broadcast use
        lemma_vertex_property_key_decodes,
        lemma_label_index_key_decodes,
        lemma_edge_key_decodes,
        TypeVertex::lemma_encode_decode,
    ;

    let after = with_supertype(store, vertex, supertype);
    lemma_with_supertype_changes(store, vertex, supertype);
    assert(index_labelled(after)) by {
        assert forall|text: Seq<char>| #[trigger] label_in_use(after, text) implies names_labelled(
            after,
            text,
        ) by {
            assert(label_in_use(store, text));
            let found = labelled_vertex(store, text)->Some_0;
            assert(has_label(store, found));
        }
    }
    assert(vertices_labelled(after)) by {
        assert forall|other: TypeVertex| #[trigger] has_vertex(after, other) implies has_label(
            after,
            other,
        ) by {
            assert(has_vertex(store, other));
        }
    }
    assert(edges_anchored(after)) by {
        assert forall|kind: EdgeKind, from: TypeVertex, to: TypeVertex| #[trigger]
            has_edge(after, kind, from, to) implies has_vertex(after, from) && has_vertex(
            after,
            to,
        ) by {
            lemma_supertype_keeps_other_edges(store, vertex, supertype, kind, from, to);
            assert(has_vertex(after, from) == has_vertex(store, from));
            assert(has_vertex(after, to) == has_vertex(store, to));
        }
    }
}

/// An edge that is there once a type has got a supertype was there before, or is the edge
/// between the type and its supertype.
proof fn lemma_supertype_keeps_other_edges(
    store: Store,
    vertex: TypeVertex,
    supertype: TypeVertex,
    kind: EdgeKind,
    from: TypeVertex,
    to: TypeVertex,
)
    requires
        has_edge(with_supertype(store, vertex, supertype), kind, from, to),
    ensures
        has_edge(store, kind, from, to) || (from == vertex && to == supertype) || (from
            == supertype && to == vertex),
{
    broadcast use lemma_edge_key_decodes;

    assert(EdgeKind::Sub.spec_reverse() == EdgeKind::SubReverse);
}

/// A new type with a label that is not in use keeps a grounded schema grounded.
pub proof fn lemma_labelled_vertex_keeps_grounded(
    store: Store,
    vertex: TypeVertex,
    label: Seq<char>,
)
    requires
        consistent(store),
        grounded(store),
        !has_vertex(store, vertex),
        !label_in_use(store, label),
    ensures
        grounded(with_labelled_vertex(store, vertex, label)),
        forall|other: TypeVertex|
            has_vertex(store, other) ==> #[trigger] has_vertex(
                with_labelled_vertex(store, vertex, label),
                other,
            ),
        has_vertex(with_labelled_vertex(store, vertex, label), vertex),
{
    broadcast use TypeVertex::lemma_encode_decode, lemma_label_index_key_decodes;

    let after = with_labelled_vertex(store, vertex, label);
    assert(!has_label(store, vertex)) by {
        if has_label(store, vertex) {
            assert(has_vertex(store, vertex));
        }
    }
    lemma_with_labelled_vertex_changes(store, vertex, label);
    encode_utf8_valid_utf8(label);
    encode_utf8_decode_utf8(label);
    assert(index_labelled(after)) by {
        assert forall|text: Seq<char>| #[trigger] label_in_use(after, text) implies names_labelled(
            after,
            text,
        ) by {
            if text != label {
                assert(label_in_use(store, text));
                let found = labelled_vertex(store, text)->Some_0;
                assert(has_label(store, found));
                assert(found != vertex);
            }
        }
    }
    assert(vertices_labelled(after)) by {
        assert forall|other: TypeVertex| #[trigger] has_vertex(after, other) implies has_label(
            after,
            other,
        ) by {
            if other != vertex {
                assert(has_vertex(store, other));
            }
        }
    }
    assert(edges_anchored(after)) by {
        assert forall|kind: EdgeKind, from: TypeVertex, to: TypeVertex| #[trigger]
            has_edge(after, kind, from, to) implies has_vertex(after, from) && has_vertex(
            after,
            to,
        ) by {
            assert(has_edge(store, kind, from, to));
            assert(has_vertex(after, from) && has_vertex(after, to));
        }
    }
}

/// Creating a type, below a type that exists where it is placed below one, keeps a grounded
/// schema grounded.
pub proof fn lemma_create_keeps_grounded(
    store: Store,
    vertex: TypeVertex,
    label: Seq<char>,
    supertype: Option<TypeVertex>,
)
    requires
        consistent(store),
        grounded(store),
        !has_vertex(store, vertex),
        !label_in_use(store, label),
        supertype matches Some(supertype) ==> has_vertex(store, supertype),
    ensures
        grounded(with_type(store, vertex, label, supertype)),
{
    let labelled = with_labelled_vertex(store, vertex, label);
    lemma_labelled_vertex_keeps_grounded(store, vertex, label);
    match supertype {
        Some(supertype) => {
            assert(has_vertex(labelled, supertype));
            lemma_placed_is_grounded(labelled, vertex, supertype);
        },
        None => {},
    }
}

/// Writing an edge between two types that exist keeps a grounded schema grounded, and so
/// does deleting an edge.
pub proof fn lemma_edge_keeps_grounded(
    store: Store,
    kind: EdgeKind,
    from: TypeVertex,
    to: TypeVertex,
)
    requires
        grounded(store),
    ensures
        has_vertex(store, from) && has_vertex(store, to) ==> grounded(
            with_edge(store, kind, from, to),
        ),
        grounded(without_edge(store, kind, from, to)),
{
    broadcast use
        lemma_vertex_property_key_decodes,
        lemma_label_index_key_decodes,
        lemma_edge_key_decodes,
        TypeVertex::lemma_encode_decode,
    ;

    let with = with_edge(store, kind, from, to);
    let without = without_edge(store, kind, from, to);
    assert(same_but_edges(store, with));
    assert(same_but_edges(store, without));
    lemma_edge_change_keeps_rest(store, with);
    lemma_edge_change_keeps_rest(store, without);
    if has_vertex(store, from) && has_vertex(store, to) {
        assert(edges_anchored(with)) by {
            assert forall|other: EdgeKind, a: TypeVertex, b: TypeVertex| #[trigger]
                has_edge(with, other, a, b) implies has_vertex(with, a) && has_vertex(with, b) by {
                if !has_edge(store, other, a, b) {
                    assert((a == from && b == to) || (a == to && b == from));
                }
            }
        }
    }
    assert(edges_anchored(without)) by {
        assert forall|other: EdgeKind, a: TypeVertex, b: TypeVertex| #[trigger]
            has_edge(without, other, a, b) implies has_vertex(without, a) && has_vertex(
            without,
            b,
        ) by {
            assert(has_edge(store, other, a, b));
        }
    }
}

/// Whether `key` is the key of neither an edge nor something recorded about an edge.
pub open spec fn is_no_edge_key(key: Seq<u8>) -> bool {
    key.len() > 0 && (key[0] < 30 || 37 < key[0] < 50 || 52 < key[0])
}

/// Whether the two stores hold the same under every key that is the key of neither an edge
/// nor something recorded about an edge.
pub open spec fn same_but_edges(before: Store, after: Store) -> bool {
    forall|key: Seq<u8>| #[trigger]
        is_no_edge_key(key) ==> before.contains_key(key) == after.contains_key(key) && (
        before.contains_key(key) ==> before[key] == after[key])
}

/// A change to edges alone leaves vertices, labels and index entries as they are.
proof fn lemma_edge_change_keeps_rest(before: Store, after: Store)
    requires
        grounded(before),
        same_but_edges(before, after),
    ensures
        index_labelled(after),
        vertices_labelled(after),
        forall|vertex: TypeVertex| #[trigger]
            has_vertex(after, vertex) == has_vertex(before, vertex),
{
    broadcast use
        lemma_vertex_property_key_decodes,
        lemma_label_index_key_decodes,
        TypeVertex::lemma_encode_decode,
    ;

    assert forall|vertex: TypeVertex| #[trigger]
        has_vertex(after, vertex) == has_vertex(before, vertex) by {
        let key = vertex.spec_bytes();
        assert(key[0] == vertex.kind.spec_tag());
        assert(is_no_edge_key(key));
    }
    assert forall|vertex: TypeVertex| #[trigger]
        has_label(after, vertex) == has_label(before, vertex) && label_of(after, vertex)
            == label_of(before, vertex) by {
        let key = vertex_property_key(VertexProperty::Label, vertex);
        assert(is_no_edge_key(key));
    }
    assert(vertices_labelled(after)) by {
        assert forall|vertex: TypeVertex| #[trigger] has_vertex(after, vertex) implies has_label(
            after,
            vertex,
        ) by {
            assert(has_vertex(before, vertex));
        }
    }
    assert(index_labelled(after)) by {
        assert forall|text: Seq<char>| #[trigger] label_in_use(after, text) implies names_labelled(
            after,
            text,
        ) by {
            let key = label_index_key(text);
            assert(is_no_edge_key(key));
            assert(label_in_use(before, text));
            let found = labelled_vertex(before, text)->Some_0;
            assert(label_of(after, found) == label_of(before, found));
        }
    }
}

/// Whether `key` is one that grounding speaks of: the key of a vertex, of an edge, of a
/// label or of an index entry.
pub open spec fn is_grounding_key(key: Seq<u8>) -> bool {
    key.len() > 0 && (20 <= key[0] <= 23 || 30 <= key[0] <= 37 || key[0] == 40 || key[0] == 60)
}

/// Whether the two stores hold the same under every key that grounding speaks of.
pub open spec fn same_grounding(before: Store, after: Store) -> bool {
    forall|key: Seq<u8>| #[trigger]
        is_grounding_key(key) ==> before.contains_key(key) == after.contains_key(key) && (
        before.contains_key(key) ==> before[key] == after[key])
}

/// A change that leaves vertices, edges, labels and index entries alone leaves a grounded
/// schema grounded.
pub proof fn lemma_grounded_frame(before: Store, after: Store)
    requires
        grounded(before),
        same_grounding(before, after),
    ensures
        grounded(after),
        forall|vertex: TypeVertex| #[trigger]
            has_vertex(after, vertex) == has_vertex(before, vertex),
{
    broadcast use
        lemma_vertex_property_key_decodes,
        lemma_label_index_key_decodes,
        lemma_edge_key_decodes,
        TypeVertex::lemma_encode_decode,
    ;

    assert forall|vertex: TypeVertex| #[trigger]
        has_vertex(after, vertex) == has_vertex(before, vertex) by {
        let key = vertex.spec_bytes();
        assert(key[0] == vertex.kind.spec_tag());
        assert(is_grounding_key(key));
    }
    assert forall|vertex: TypeVertex| #[trigger]
        has_label(after, vertex) == has_label(before, vertex) && label_of(after, vertex)
            == label_of(before, vertex) by {
        assert(is_grounding_key(vertex_property_key(VertexProperty::Label, vertex)));
    }
    assert(vertices_labelled(after)) by {
        assert forall|vertex: TypeVertex| #[trigger] has_vertex(after, vertex) implies has_label(
            after,
            vertex,
        ) by {
            assert(has_vertex(before, vertex));
        }
    }
    assert(index_labelled(after)) by {
        assert forall|text: Seq<char>| #[trigger] label_in_use(after, text) implies names_labelled(
            after,
            text,
        ) by {
            assert(is_grounding_key(label_index_key(text)));
            assert(label_in_use(before, text));
            let found = labelled_vertex(before, text)->Some_0;
            assert(label_of(after, found) == label_of(before, found));
        }
    }
    assert(edges_anchored(after)) by {
        assert forall|kind: EdgeKind, from: TypeVertex, to: TypeVertex| #[trigger]
            has_edge(after, kind, from, to) implies has_vertex(after, from) && has_vertex(
            after,
            to,
        ) by {
            let key = edge_key(kind, from, to);
            assert(key[0] == kind.spec_tag());
            assert(is_grounding_key(key));
            assert(has_edge(before, kind, from, to));
        }
    }
}

/// Attaching an annotation to a type, or taking one off, keeps a grounded schema grounded.
pub proof fn lemma_annotation_keeps_grounded(
    store: Store,
    vertex: TypeVertex,
    annotation: Annotation,
)
    requires
        grounded(store),
    ensures
        grounded(with_annotation(store, vertex, annotation)),
        grounded(without_annotation(store, vertex, annotation)),
        forall|other: TypeVertex| #[trigger]
            has_vertex(with_annotation(store, vertex, annotation), other) == has_vertex(
                store,
                other,
            ),
{
    broadcast use lemma_vertex_property_key_decodes;

    assert(same_grounding(store, with_annotation(store, vertex, annotation)));
    assert(same_grounding(store, without_annotation(store, vertex, annotation)));
    lemma_grounded_frame(store, with_annotation(store, vertex, annotation));
    lemma_grounded_frame(store, without_annotation(store, vertex, annotation));
}

/// Recording a value type or an order mode with a type keeps a grounded schema grounded.
pub proof fn lemma_property_keeps_grounded(
    store: Store,
    property: VertexProperty,
    vertex: TypeVertex,
    value: Seq<u8>,
)
    requires
        grounded(store),
        property != VertexProperty::Label,
    ensures
        grounded(store.insert(vertex_property_key(property, vertex), value)),
        forall|other: TypeVertex| #[trigger]
            has_vertex(store.insert(vertex_property_key(property, vertex), value), other)
                == has_vertex(store, other),
{
    broadcast use lemma_vertex_property_key_decodes;

    let after = store.insert(vertex_property_key(property, vertex), value);
    assert(same_grounding(store, after));
    lemma_grounded_frame(store, after);
}

/// Setting an ownership between two types that exist keeps a grounded schema grounded, and
/// so does deleting an ownership.
pub proof fn lemma_owns_keeps_grounded(
    store: Store,
    owner: TypeVertex,
    attribute: TypeVertex,
    mode: OrderMode,
)
    requires
        grounded(store),
    ensures
        has_vertex(store, owner) && has_vertex(store, attribute) ==> grounded(
            with_owns(store, owner, attribute, mode),
        ),
        grounded(without_owns(store, owner, attribute)),
{
    broadcast use lemma_edge_key_decodes, lemma_edge_property_key_decodes;

    lemma_edge_keeps_grounded(store, EdgeKind::Owns, owner, attribute);
    let with = with_edge(store, EdgeKind::Owns, owner, attribute);
    let without = without_edge(store, EdgeKind::Owns, owner, attribute);
    if has_vertex(store, owner) && has_vertex(store, attribute) {
        assert(same_grounding(with, with_owns(store, owner, attribute, mode)));
        lemma_grounded_frame(with, with_owns(store, owner, attribute, mode));
    }
    assert(same_grounding(without, without_owns(store, owner, attribute)));
    lemma_grounded_frame(without, without_owns(store, owner, attribute));
}

/// Creating a role type that a relation type that exists defines, below a type that exists
/// where it is placed below one, keeps a grounded schema grounded.
pub proof fn lemma_role_type_keeps_grounded(
    store: Store,
    vertex: TypeVertex,
    label: Seq<char>,
    relation: TypeVertex,
    mode: OrderMode,
    supertype: Option<TypeVertex>,
)
    requires
        consistent(store),
        grounded(store),
        !has_vertex(store, vertex),
        !label_in_use(store, label),
        has_vertex(store, relation),
        supertype matches Some(supertype) ==> has_vertex(store, supertype),
    ensures
        grounded(with_role_type(store, vertex, label, relation, mode, supertype)),
{
    let labelled = with_labelled_vertex(store, vertex, label);
    lemma_labelled_vertex_keeps_grounded(store, vertex, label);
    assert(has_vertex(labelled, relation));
    lemma_edge_keeps_grounded(labelled, EdgeKind::Relates, relation, vertex);
    let related = with_edge(labelled, EdgeKind::Relates, relation, vertex);
    lemma_still_there(labelled, related, vertex);
    lemma_property_keeps_grounded(related, VertexProperty::Order, vertex, order_mode_bytes(mode));
    let ordered = related.insert(
        vertex_property_key(VertexProperty::Order, vertex),
        order_mode_bytes(mode),
    );
    match supertype {
        Some(supertype) => {
            assert(has_vertex(labelled, supertype));
            lemma_still_there(labelled, related, supertype);
            assert(has_vertex(ordered, supertype));
            assert(has_vertex(ordered, vertex));
            lemma_placed_is_grounded(ordered, vertex, supertype);
        },
        None => {},
    }
}

/// A type that was there before an edge was written is there afterwards.
proof fn lemma_still_there(before: Store, after: Store, vertex: TypeVertex)
    requires
        has_vertex(before, vertex),
        exists|kind: EdgeKind, from: TypeVertex, to: TypeVertex|
            after == #[trigger] with_edge(before, kind, from, to),
    ensures
        has_vertex(after, vertex),
{
}

/// Deleting a type keeps a grounded schema grounded, where every edge is stored in both
/// directions.
pub proof fn lemma_delete_keeps_grounded(store: Store, vertex: TypeVertex)
    requires
        consistent(store),
        grounded(store),
        edges_mirrored(store),
    ensures
        grounded(without_type(store, vertex)),
{
    broadcast use
        lemma_vertex_property_key_decodes,
        lemma_label_index_key_decodes,
        lemma_edge_key_decodes,
        TypeVertex::lemma_encode_decode,
    ;

    let after = without_type(store, vertex);
    lemma_without_type_changes(store, vertex);
    lemma_deletion_stays_mirrored(store, vertex);
    let old_bytes = label_bytes(store, vertex);
    let old_label = decode_utf8(old_bytes);
    if has_label(store, vertex) {
        decode_utf8_encode_utf8(old_bytes);
        assert(seq![60u8] + old_bytes =~= label_index_key(old_label));
    }
    assert(index_labelled(after)) by {
        assert forall|text: Seq<char>| #[trigger] label_in_use(after, text) implies names_labelled(
            after,
            text,
        ) by {
            assert(label_in_use(store, text));
            let found = labelled_vertex(store, text)->Some_0;
            assert(label_of(store, found) == Some(text));
            assert(has_label(store, found));
            if found == vertex {
                assert(text == old_label);
            }
            assert(label_of(after, found) == label_of(store, found));
        }
    }
    assert(vertices_labelled(after)) by {
        assert forall|other: TypeVertex| #[trigger] has_vertex(after, other) implies has_label(
            after,
            other,
        ) by {
            assert(other != vertex);
            assert(has_vertex(store, other));
        }
    }
    assert(edges_anchored(after)) by {
        assert forall|kind: EdgeKind, from: TypeVertex, to: TypeVertex| #[trigger]
            has_edge(after, kind, from, to) implies has_vertex(after, from) && has_vertex(
            after,
            to,
        ) by {
            assert(from != vertex && to != vertex);
            lemma_deleted_edge_was_there(store, vertex, kind, from, to);
        }
    }
}

/// An edge that is there once a type is deleted was there before.
proof fn lemma_deleted_edge_was_there(
    store: Store,
    vertex: TypeVertex,
    kind: EdgeKind,
    from: TypeVertex,
    to: TypeVertex,
)
    requires
        has_edge(without_type(store, vertex), kind, from, to),
    ensures
        has_edge(store, kind, from, to),
{
}

/// Creating the root type of a kind keeps a consistent, grounded schema so, keeps every edge
/// stored in both directions, and puts the vertex of the root type in the store.
proof fn lemma_root_keeps_grounded(store: Store, kind: Kind)
    requires
        consistent(store),
        grounded(store),
        root_type_outcome(store, kind) is Ok,
    ensures
        consistent(root_type_outcome(store, kind)->Ok_0),
        grounded(root_type_outcome(store, kind)->Ok_0),
        edges_mirrored(store) ==> edges_mirrored(root_type_outcome(store, kind)->Ok_0),
        has_vertex(root_type_outcome(store, kind)->Ok_0, first_free(store, kind)),
        first_free(store, kind).kind == kind,
{
    let vertex = first_free(store, kind);
    let label = kind.spec_root_label();
    lemma_first_free_is_free(store, kind);
    lemma_root_creation_keeps_consistent(store, vertex);
    lemma_create_keeps_grounded(store, vertex, label, None);
    let labelled = with_labelled_vertex(store, vertex, label);
    assert(labelled == with_type(store, vertex, label, None));
    lemma_labelled_vertex_keeps_grounded(store, vertex, label);
    lemma_annotation_keeps_consistent(labelled, vertex, abstract_annotation());
    lemma_annotation_keeps_grounded(labelled, vertex, abstract_annotation());
    if edges_mirrored(store) {
        lemma_type_stays_mirrored(store, vertex, label, None);
        lemma_annotation_keeps_edges(labelled, vertex, abstract_annotation());
        lemma_same_edges_stay_mirrored(
            labelled,
            with_annotation(labelled, vertex, abstract_annotation()),
        );
    }
}

/// Creating the root role type keeps a consistent, grounded schema so, and keeps every edge
/// stored in both directions.
proof fn lemma_role_root_keeps_grounded(store: Store, relation: TypeVertex)
    requires
        consistent(store),
        grounded(store),
        has_vertex(store, relation),
        root_role_outcome(store, relation) is Ok,
    ensures
        consistent(root_role_outcome(store, relation)->Ok_0),
        grounded(root_role_outcome(store, relation)->Ok_0),
        edges_mirrored(store) ==> edges_mirrored(root_role_outcome(store, relation)->Ok_0),
{
    let vertex = first_free(store, Kind::Role);
    let label = Kind::Role.spec_root_label();
    let mode = OrderMode::Unordered;
    lemma_first_free_is_free(store, Kind::Role);
    lemma_root_creation_keeps_consistent(store, vertex);
    let labelled = with_labelled_vertex(store, vertex, label);
    lemma_edge_keeps_consistent(labelled, EdgeKind::Relates, relation, vertex);
    let related = with_edge(labelled, EdgeKind::Relates, relation, vertex);
    lemma_property_keeps_consistent(related, VertexProperty::Order, vertex, order_mode_bytes(mode));
    let ordered = related.insert(
        vertex_property_key(VertexProperty::Order, vertex),
        order_mode_bytes(mode),
    );
    assert(ordered == with_role_type(store, vertex, label, relation, mode, None));
    lemma_role_type_keeps_grounded(store, vertex, label, relation, mode, None);
    lemma_annotation_keeps_consistent(ordered, vertex, abstract_annotation());
    lemma_annotation_keeps_grounded(ordered, vertex, abstract_annotation());
    if edges_mirrored(store) {
        lemma_role_type_stays_mirrored(store, vertex, label, relation, mode, None);
        lemma_annotation_keeps_edges(ordered, vertex, abstract_annotation());
        lemma_same_edges_stay_mirrored(
            ordered,
            with_annotation(ordered, vertex, abstract_annotation()),
        );
    }
}

/// Creating the four root types in a consistent, grounded schema, where it succeeds, gives
/// a grounded schema, and one in which every edge is stored in both directions where that
/// held before.
pub proof fn lemma_initialise_keeps_grounded(store: Store)
    requires
        consistent(store),
        grounded(store),
        initialise_outcome(store).0 is Ok,
    ensures
        grounded(initialise_outcome(store).1),
        edges_mirrored(store) ==> edges_mirrored(initialise_outcome(store).1),
{
    lemma_root_keeps_grounded(store, Kind::Entity);
    let with_entity = root_type_outcome(store, Kind::Entity)->Ok_0;
    lemma_root_keeps_grounded(with_entity, Kind::Relation);
    let with_relation = root_type_outcome(with_entity, Kind::Relation)->Ok_0;
    let relation = first_free(with_entity, Kind::Relation);
    lemma_role_root_keeps_grounded(with_relation, relation);
    let with_role = root_role_outcome(with_relation, relation)->Ok_0;
    lemma_root_keeps_grounded(with_role, Kind::Attribute);
}

} // verus!
