use crate::encoding::edge::{edge_key, lemma_edge_key_decodes, EdgeKind, TypeEdge};
use crate::encoding::kind::Kind;
use crate::encoding::label::{label_index_key, lemma_label_index_key_decodes};
use crate::encoding::property::{
    edge_property_key, lemma_edge_property_key_decodes, lemma_vertex_property_key_decodes,
    vertex_property_key, EdgeProperty, VertexProperty,
};
use crate::encoding::vertex::TypeVertex;
use crate::encoding::vertex_generator::{is_exhausted, is_first_free, is_free};
use crate::error::ConceptWriteError;
use crate::snapshot::Store;
use crate::type_::annotation::{
    lemma_order_mode_round_trip, order_mode_bytes, Annotation, OrderMode,
};
use crate::type_::attribute_type::owners_of;
use crate::type_::schema::{
    has_edge, has_label, has_vertex, is_root, label_bytes, label_in_use, label_of, labelled_type,
    labelled_vertex, order_mode_of, root_of, subtypes, supertype_is, supertype_of, supertypes,
    type_exists, typed_targets,
};
use crate::type_::type_encoder::{
    abstract_annotation, first_free, initialise_outcome, is_edge_key_from, is_key_of_type,
    is_owns_property_key_of, is_owns_property_key_with, owns_kind, relabel_outcome,
    reparent_outcome, root_role_outcome, root_type_outcome, with_annotation, with_edge, with_label,
    with_owns, with_role_type, with_supertype, with_type, without_annotation, without_edge,
    without_edges_from, without_owns, without_type,
};
use vstd::prelude::*;
use vstd::utf8::{
    decode_utf8, decode_utf8_encode_utf8, encode_utf8, encode_utf8_decode_utf8,
    encode_utf8_valid_utf8, valid_utf8,
};

verus! {

/// Every sub edge leaves a type that the store holds.
pub open spec fn sub_edges_anchored(store: Store) -> bool {
    forall|subtype: TypeVertex, supertype: TypeVertex| #[trigger]
        has_edge(store, EdgeKind::Sub, subtype, supertype) ==> has_vertex(store, subtype)
}

/// Every sub edge is stored in both directions.
pub open spec fn sub_edges_mirrored(store: Store) -> bool {
    forall|subtype: TypeVertex, supertype: TypeVertex|
        #[trigger] has_edge(store, EdgeKind::Sub, subtype, supertype) <==> #[trigger] has_edge(
            store,
            EdgeKind::SubReverse,
            supertype,
            subtype,
        )
}

/// Every label that is recorded with a type is text, and the index leads from it back to the
/// type.
pub open spec fn labels_indexed(store: Store) -> bool {
    forall|vertex: TypeVertex| #[trigger]
        has_label(store, vertex) ==> {
            &&& valid_utf8(label_bytes(store, vertex))
            &&& store.contains_key(label_index_key(decode_utf8(label_bytes(store, vertex))))
            &&& store[label_index_key(decode_utf8(label_bytes(store, vertex)))]
                == vertex.spec_bytes()
        }
}

/// Every label is recorded with a type that the store holds.
pub open spec fn labels_anchored(store: Store) -> bool {
    forall|vertex: TypeVertex| #[trigger] has_label(store, vertex) ==> has_vertex(store, vertex)
}

/// Whether the type has exactly the supertype that its place in the hierarchy asks for: none
/// where it is a root type, one where it is not.
pub open spec fn well_placed(store: Store, vertex: TypeVertex) -> bool {
    if is_root(store, vertex) {
        supertypes(store, vertex) == Set::<TypeVertex>::empty()
    } else {
        exists|supertype: TypeVertex| supertypes(store, vertex) == set![supertype]
    }
}

/// Every type has exactly the supertype that its place in the hierarchy asks for.
pub open spec fn hierarchy_placed(store: Store) -> bool {
    forall|vertex: TypeVertex| #[trigger] type_exists(store, vertex) ==> well_placed(store, vertex)
}

/// What every schema keeps that was made by creating types, relabelling them and giving them
/// supertypes: labels and index agree, sub edges are stored in both directions and leave
/// types that exist, and every type but a root has exactly one supertype.
pub open spec fn consistent(store: Store) -> bool {
    &&& sub_edges_anchored(store)
    &&& sub_edges_mirrored(store)
    &&& labels_indexed(store)
    &&& labels_anchored(store)
    &&& hierarchy_placed(store)
}

/// Whether the store holds the root type of `kind`, under the root label.
pub open spec fn root_present(store: Store, kind: Kind) -> bool {
    root_of(store, kind) matches Some(root) && is_root(store, root) && has_vertex(store, root)
}

/// Whether the store holds the root type of every kind.
pub open spec fn rooted(store: Store) -> bool {
    forall|kind: Kind| #[trigger] root_present(store, kind)
}

/// Whether `key` is one that consistency speaks of: the key of a vertex, of a sub edge in
/// either direction, of a label or of an index entry.
pub open spec fn is_structural_key(key: Seq<u8>) -> bool {
    key.len() > 0 && (key[0] == 20 || key[0] == 21 || key[0] == 22 || key[0] == 23 || key[0] == 30
        || key[0] == 31 || key[0] == 40 || key[0] == 60)
}

/// Whether the two stores hold the same under every key that consistency speaks of.
pub open spec fn same_structure(before: Store, after: Store) -> bool {
    forall|key: Seq<u8>| #[trigger]
        is_structural_key(key) ==> before.contains_key(key) == after.contains_key(key) && (
        before.contains_key(key) ==> before[key] == after[key])
}

/// In a consistent schema a root type has no supertype, and every
/// other type has exactly one.
pub proof fn lemma_supertype_is_unique(store: Store, vertex: TypeVertex)
    requires
        consistent(store),
        type_exists(store, vertex),
    ensures
        is_root(store, vertex) ==> supertypes(store, vertex) == Set::<TypeVertex>::empty()
            && supertype_of(store, vertex) is None,
        !is_root(store, vertex) ==> supertype_of(store, vertex) is Some && supertypes(
            store,
            vertex,
        ) == set![supertype_of(store, vertex)->Some_0],
{
    assert(well_placed(store, vertex));
    if !is_root(store, vertex) {
        let supertype = choose|supertype: TypeVertex|
            supertypes(store, vertex) == set![supertype];
        assert(supertypes(store, vertex).contains(supertype));
        let chosen = supertype_of(store, vertex)->Some_0;
        assert(supertypes(store, vertex).contains(chosen));
        assert(set![supertype].contains(chosen));
    }
}

/// The label and the supertype of a root type cannot be changed.
pub proof fn lemma_root_is_kept(store: Store, vertex: TypeVertex, label: Seq<char>)
    requires
        is_root(store, vertex),
    ensures
        relabel_outcome(store, vertex, label) == Err::<(), ConceptWriteError>(
            ConceptWriteError::RootModification,
        ),
        reparent_outcome(store, vertex) == Err::<(), ConceptWriteError>(
            ConceptWriteError::RootModification,
        ),
{
}

/// A type carries the label it was given, and the index leads from that
/// label to the type.
pub proof fn lemma_label_is_read_back(store: Store, vertex: TypeVertex, label: Seq<char>)
    ensures
        label_of(with_label(store, vertex, label), vertex) == Some(label),
        labelled_type(with_label(store, vertex, label), label, vertex.kind) == Some(vertex),
{
    broadcast use
        lemma_vertex_property_key_decodes,
        lemma_label_index_key_decodes,
        TypeVertex::lemma_encode_decode,
    ;

    encode_utf8_valid_utf8(label);
    encode_utf8_decode_utf8(label);
    let after = with_label(store, vertex, label);
    let property = vertex_property_key(VertexProperty::Label, vertex);
    assert(property != label_index_key(label));
    assert(after[property] == encode_utf8(label));
    assert(after[label_index_key(label)] == vertex.spec_bytes());
}

/// Once a type that was called `old_label` carries another label, the index
/// holds nothing under `old_label`.
pub proof fn lemma_old_label_is_forgotten(
    store: Store,
    vertex: TypeVertex,
    old_label: Seq<char>,
    label: Seq<char>,
)
    requires
        label_of(store, vertex) == Some(old_label),
        old_label != label,
    ensures
        !label_in_use(with_label(store, vertex, label), old_label),
        forall|kind: Kind|
            labelled_type(with_label(store, vertex, label), old_label, kind) is None,
{
    broadcast use
        lemma_vertex_property_key_decodes,
        lemma_label_index_key_decodes,
        TypeVertex::lemma_encode_decode,
    ;

    decode_utf8_encode_utf8(label_bytes(store, vertex));
    assert(seq![60u8] + label_bytes(store, vertex) =~= label_index_key(old_label));
    let property = vertex_property_key(VertexProperty::Label, vertex);
    assert(property != label_index_key(old_label));
    assert(label_index_key(label) != label_index_key(old_label)) by {
        lemma_label_index_key_decodes(label);
        lemma_label_index_key_decodes(old_label);
    }
}

/// In a consistent schema two types with the same label are the same
/// type.
pub proof fn lemma_labels_are_unique(store: Store, first: TypeVertex, second: TypeVertex)
    requires
        consistent(store),
        label_of(store, first) is Some,
        label_of(store, first) == label_of(store, second),
    ensures
        first == second,
{
    assert(has_label(store, first) && has_label(store, second));
    assert(first.spec_bytes() == second.spec_bytes());
    first.lemma_encode_decode();
    second.lemma_encode_decode();
}

/// Once an ownership is set, the owner leads to the attribute type and the
/// attribute type leads back to the owner.
pub proof fn lemma_owns_is_stored_both_ways(
    store: Store,
    owner: TypeVertex,
    attribute: TypeVertex,
    mode: OrderMode,
)
    requires
        owner.kind == Kind::Entity || owner.kind == Kind::Relation,
        attribute.kind == Kind::Attribute,
    ensures
        typed_targets(
            with_owns(store, owner, attribute, mode),
            EdgeKind::Owns,
            owner,
            Kind::Attribute,
        ).contains(attribute),
        owners_of(with_owns(store, owner, attribute, mode), attribute).contains(owner),
{
}

/// Once an ownership is deleted, neither the owner leads to the attribute
/// type nor the attribute type to the owner.
pub proof fn lemma_owns_is_deleted_both_ways(store: Store, owner: TypeVertex, attribute: TypeVertex)
    ensures
        !typed_targets(
            without_owns(store, owner, attribute),
            EdgeKind::Owns,
            owner,
            Kind::Attribute,
        ).contains(attribute),
        !owners_of(without_owns(store, owner, attribute), attribute).contains(owner),
{
}

/// What `with_label` changes: the label of the type and two index entries, nothing else.
pub proof fn lemma_with_label_changes(store: Store, vertex: TypeVertex, label: Seq<char>)
    ensures
        forall|other: TypeVertex| #[trigger]
            has_vertex(with_label(store, vertex, label), other) == has_vertex(store, other),
        forall|kind: EdgeKind, from: TypeVertex, to: TypeVertex| #[trigger]
            has_edge(with_label(store, vertex, label), kind, from, to) == has_edge(
                store,
                kind,
                from,
                to,
            ),
        forall|other: TypeVertex|
            other != vertex ==> #[trigger] has_label(with_label(store, vertex, label), other)
                == has_label(store, other) && (has_label(store, other) ==> label_bytes(
                with_label(store, vertex, label),
                other,
            ) == label_bytes(store, other)),
        has_label(with_label(store, vertex, label), vertex),
        label_bytes(with_label(store, vertex, label), vertex) == encode_utf8(label),
        forall|text: Seq<char>| #[trigger]
            with_label(store, vertex, label).contains_key(label_index_key(text)) == (text == label
                || (store.contains_key(label_index_key(text)) && !(has_label(store, vertex)
                && label_index_key(text) == seq![60u8] + label_bytes(store, vertex)))),
        with_label(store, vertex, label)[label_index_key(label)] == vertex.spec_bytes(),
        forall|text: Seq<char>|
            text != label && #[trigger] with_label(store, vertex, label).contains_key(
                label_index_key(text),
            ) ==> with_label(store, vertex, label)[label_index_key(text)] == store[label_index_key(
                text,
            )],
{
    broadcast use
        lemma_vertex_property_key_decodes,
        lemma_label_index_key_decodes,
        lemma_edge_key_decodes,
        TypeVertex::lemma_encode_decode,
    ;

    let after = with_label(store, vertex, label);
    let property = vertex_property_key(VertexProperty::Label, vertex);
    let old_index = seq![60u8] + label_bytes(store, vertex);
    assert(old_index.len() >= 1 && old_index[0] == 60);
    assert forall|other: TypeVertex| #[trigger]
        has_vertex(after, other) == has_vertex(store, other) by {
        let key = other.spec_bytes();
        assert(key != property && key != old_index && key != label_index_key(label));
    }
    assert forall|kind: EdgeKind, from: TypeVertex, to: TypeVertex| #[trigger]
        has_edge(after, kind, from, to) == has_edge(store, kind, from, to) by {
        let key = edge_key(kind, from, to);
        assert(key != property && key != old_index && key != label_index_key(label));
    }
    assert forall|other: TypeVertex| other != vertex implies #[trigger] has_label(after, other)
        == has_label(store, other) && (has_label(store, other) ==> label_bytes(after, other)
        == label_bytes(store, other)) by {
        let key = vertex_property_key(VertexProperty::Label, other);
        assert(key != property && key != old_index && key != label_index_key(label));
    }
    assert(property != label_index_key(label));
    assert forall|text: Seq<char>| #[trigger]
        after.contains_key(label_index_key(text)) == (text == label || (store.contains_key(
            label_index_key(text),
        ) && !(has_label(store, vertex) && label_index_key(text) == old_index))) by {
        let key = label_index_key(text);
        assert(key != property);
        if text != label {
            assert(key != label_index_key(label));
        }
    }
    assert forall|text: Seq<char>|
        text != label && #[trigger] after.contains_key(label_index_key(text)) implies after[label_index_key(
        text,
    )] == store[label_index_key(text)] by {
        let key = label_index_key(text);
        assert(key != property);
        assert(key != label_index_key(label));
    }
}

/// What `without_edges_from` and `with_edge` change for sub edges: the edges that leave the
/// subtype, in both directions, and nothing else.
pub proof fn lemma_with_supertype_changes(store: Store, subtype: TypeVertex, supertype: TypeVertex)
    ensures
        forall|other: TypeVertex| #[trigger]
            has_vertex(with_supertype(store, subtype, supertype), other) == has_vertex(
                store,
                other,
            ),
        forall|other: TypeVertex| #[trigger]
            has_label(with_supertype(store, subtype, supertype), other) == has_label(store, other)
                && (has_label(store, other) ==> label_bytes(
                with_supertype(store, subtype, supertype),
                other,
            ) == label_bytes(store, other)),
        forall|text: Seq<char>| #[trigger]
            with_supertype(store, subtype, supertype).contains_key(label_index_key(text))
                == store.contains_key(label_index_key(text)) && (store.contains_key(
                label_index_key(text),
            ) ==> with_supertype(store, subtype, supertype)[label_index_key(text)]
                == store[label_index_key(text)]),
        forall|from: TypeVertex, to: TypeVertex| #[trigger]
            has_edge(with_supertype(store, subtype, supertype), EdgeKind::Sub, from, to) == (
            if from == subtype {
                to == supertype
            } else {
                has_edge(store, EdgeKind::Sub, from, to)
            }),
        forall|from: TypeVertex, to: TypeVertex| #[trigger]
            has_edge(with_supertype(store, subtype, supertype), EdgeKind::SubReverse, from, to)
                == (if to == subtype {
                from == supertype || (has_edge(store, EdgeKind::SubReverse, from, to) && !has_edge(
                    store,
                    EdgeKind::Sub,
                    to,
                    from,
                ))
            } else {
                has_edge(store, EdgeKind::SubReverse, from, to)
            }),
{
    broadcast use
        lemma_vertex_property_key_decodes,
        lemma_label_index_key_decodes,
        lemma_edge_key_decodes,
        TypeVertex::lemma_encode_decode,
    ;

    let after = with_supertype(store, subtype, supertype);
    let cleared = without_edges_from(store, EdgeKind::Sub, subtype);
    let forward = edge_key(EdgeKind::Sub, subtype, supertype);
    let backward = edge_key(EdgeKind::SubReverse, supertype, subtype);
    assert(EdgeKind::Sub.spec_reverse() == EdgeKind::SubReverse);
    assert forall|key: Seq<u8>|
        is_edge_key_from(store, EdgeKind::Sub, subtype, key)
        implies key.len() == 7 && (key[0] == 30 || key[0] == 31) by {
        let to = choose|to: TypeVertex| #[trigger]
            has_edge(store, EdgeKind::Sub, subtype, to) && (key == edge_key(
                EdgeKind::Sub,
                subtype,
                to,
            ) || key == edge_key(EdgeKind::Sub.spec_reverse(), to, subtype));
    }
    assert forall|other: TypeVertex| #[trigger]
        has_vertex(after, other) == has_vertex(store, other) by {
        let key = other.spec_bytes();
        assert(key != forward && key != backward);
    }
    assert forall|other: TypeVertex| #[trigger]
        has_label(after, other) == has_label(store, other) && (has_label(store, other)
            ==> label_bytes(after, other) == label_bytes(store, other)) by {
        let key = vertex_property_key(VertexProperty::Label, other);
        assert(key != forward && key != backward);
    }
    assert forall|text: Seq<char>| #[trigger]
        after.contains_key(label_index_key(text)) == store.contains_key(label_index_key(text))
            && (store.contains_key(label_index_key(text)) ==> after[label_index_key(text)]
            == store[label_index_key(text)]) by {
        let key = label_index_key(text);
        assert(key != forward && key != backward);
    }
    assert forall|from: TypeVertex, to: TypeVertex| #[trigger]
        has_edge(after, EdgeKind::Sub, from, to) == (if from == subtype {
            to == supertype
        } else {
            has_edge(store, EdgeKind::Sub, from, to)
        }) by {
        let key = edge_key(EdgeKind::Sub, from, to);
        assert(key != backward);
        if from == subtype {
            if to != supertype {
                assert(key != forward);
                if has_edge(store, EdgeKind::Sub, subtype, to) {
                    assert(is_edge_key_from(
                        store,
                        EdgeKind::Sub,
                        subtype,
                        key,
                    ));
                }
            }
        } else {
            assert(key != forward);
            if is_edge_key_from(store, EdgeKind::Sub, subtype, key) {
                let t = choose|t: TypeVertex| #[trigger]
                    has_edge(store, EdgeKind::Sub, subtype, t) && (key == edge_key(
                        EdgeKind::Sub,
                        subtype,
                        t,
                    ) || key == edge_key(EdgeKind::Sub.spec_reverse(), t, subtype));
                assert(false);
            }
        }
    }
    assert forall|from: TypeVertex, to: TypeVertex| #[trigger]
        has_edge(after, EdgeKind::SubReverse, from, to) == (if to == subtype {
            from == supertype || (has_edge(store, EdgeKind::SubReverse, from, to) && !has_edge(
                store,
                EdgeKind::Sub,
                to,
                from,
            ))
        } else {
            has_edge(store, EdgeKind::SubReverse, from, to)
        }) by {
        let key = edge_key(EdgeKind::SubReverse, from, to);
        assert(key != forward);
        if to == subtype {
            if from != supertype {
                assert(key != backward);
            }
            if has_edge(store, EdgeKind::Sub, subtype, from) {
                assert(is_edge_key_from(
                    store,
                    EdgeKind::Sub,
                    subtype,
                    key,
                ));
            } else {
                if is_edge_key_from(
                    store,
                    EdgeKind::Sub,
                    subtype,
                    key,
                ) {
                    let t = choose|t: TypeVertex| #[trigger]
                        has_edge(store, EdgeKind::Sub, subtype, t) && (key == edge_key(
                            EdgeKind::Sub,
                            subtype,
                            t,
                        ) || key == edge_key(EdgeKind::Sub.spec_reverse(), t, subtype));
                    assert(false);
                }
            }
        } else {
            assert(key != backward);
            if is_edge_key_from(store, EdgeKind::Sub, subtype, key) {
                let t = choose|t: TypeVertex| #[trigger]
                    has_edge(store, EdgeKind::Sub, subtype, t) && (key == edge_key(
                        EdgeKind::Sub,
                        subtype,
                        t,
                    ) || key == edge_key(EdgeKind::Sub.spec_reverse(), t, subtype));
                assert(false);
            }
        }
    }
}

/// What consistency speaks of is the same in two stores that hold the same under the keys
/// of vertices, sub edges, labels and index entries.
pub proof fn lemma_same_structure(before: Store, after: Store)
    requires
        same_structure(before, after),
    ensures
        forall|vertex: TypeVertex| #[trigger]
            has_vertex(after, vertex) == has_vertex(before, vertex),
        forall|vertex: TypeVertex| #[trigger]
            has_label(after, vertex) == has_label(before, vertex) && label_of(after, vertex)
                == label_of(before, vertex) && (has_label(before, vertex) ==> label_bytes(
                after,
                vertex,
            ) == label_bytes(before, vertex)),
        forall|vertex: TypeVertex| #[trigger]
            supertypes(after, vertex) == supertypes(before, vertex),
        forall|from: TypeVertex, to: TypeVertex| #[trigger]
            has_edge(after, EdgeKind::Sub, from, to) == has_edge(before, EdgeKind::Sub, from, to),
        forall|from: TypeVertex, to: TypeVertex| #[trigger]
            has_edge(after, EdgeKind::SubReverse, from, to) == has_edge(
                before,
                EdgeKind::SubReverse,
                from,
                to,
            ),
        forall|text: Seq<char>| #[trigger]
            labelled_vertex(after, text) == labelled_vertex(before, text) && label_in_use(
                after,
                text,
            ) == label_in_use(before, text),
{
    broadcast use
        lemma_vertex_property_key_decodes,
        lemma_label_index_key_decodes,
        lemma_edge_key_decodes,
        TypeVertex::lemma_encode_decode,
    ;

    assert forall|vertex: TypeVertex| #[trigger]
        has_vertex(after, vertex) == has_vertex(before, vertex) by {
        assert(is_structural_key(vertex.spec_bytes())) by {
            let tag = vertex.spec_bytes()[0];
            assert(tag == vertex.kind.spec_tag());
        }
    }
    assert forall|vertex: TypeVertex| #[trigger]
        has_label(after, vertex) == has_label(before, vertex) && label_of(after, vertex)
            == label_of(before, vertex) && (has_label(before, vertex) ==> label_bytes(
            after,
            vertex,
        ) == label_bytes(before, vertex)) by {
        let key = vertex_property_key(VertexProperty::Label, vertex);
        assert(key.len() == 4 && key[0] == 40);
        assert(is_structural_key(key));
        assert(before.contains_key(key) == after.contains_key(key));
        if before.contains_key(key) {
            assert(before[key] == after[key]);
        }
    }
    assert forall|from: TypeVertex, to: TypeVertex| #[trigger]
        has_edge(after, EdgeKind::Sub, from, to) == has_edge(before, EdgeKind::Sub, from, to) by {
        assert(is_structural_key(edge_key(EdgeKind::Sub, from, to)));
    }
    assert forall|from: TypeVertex, to: TypeVertex| #[trigger]
        has_edge(after, EdgeKind::SubReverse, from, to) == has_edge(
            before,
            EdgeKind::SubReverse,
            from,
            to,
        ) by {
        assert(is_structural_key(edge_key(EdgeKind::SubReverse, from, to)));
    }
    assert forall|vertex: TypeVertex| #[trigger]
        supertypes(after, vertex) == supertypes(before, vertex) by {
        assert(supertypes(after, vertex) =~= supertypes(before, vertex));
    }
    assert forall|text: Seq<char>| #[trigger]
        labelled_vertex(after, text) == labelled_vertex(before, text) && label_in_use(after, text)
            == label_in_use(before, text) by {
        assert(is_structural_key(label_index_key(text)));
    }
}

/// A change that leaves vertices, sub edges, labels and index entries alone leaves a
/// consistent schema consistent, and its root types in place.
pub proof fn lemma_frame(before: Store, after: Store)
    requires
        same_structure(before, after),
    ensures
        consistent(before) ==> consistent(after),
        forall|kind: Kind| root_present(before, kind) ==> #[trigger] root_present(after, kind),
        rooted(before) ==> rooted(after),
{
    lemma_same_structure(before, after);
    if consistent(before) {
        assert(sub_edges_anchored(after)) by {
            assert forall|subtype: TypeVertex, supertype: TypeVertex| #[trigger]
                has_edge(after, EdgeKind::Sub, subtype, supertype) implies has_vertex(
                after,
                subtype,
            ) by {
                assert(has_edge(before, EdgeKind::Sub, subtype, supertype));
                assert(has_vertex(before, subtype));
            }
        }
        assert(sub_edges_mirrored(after)) by {
            assert forall|subtype: TypeVertex, supertype: TypeVertex|
                #[trigger] has_edge(after, EdgeKind::Sub, subtype, supertype)
                    <==> #[trigger] has_edge(after, EdgeKind::SubReverse, supertype, subtype) by {
                assert(has_edge(before, EdgeKind::Sub, subtype, supertype) <==> has_edge(
                    before,
                    EdgeKind::SubReverse,
                    supertype,
                    subtype,
                ));
            }
        }
        assert(labels_indexed(after)) by {
            assert forall|vertex: TypeVertex| #[trigger] has_label(after, vertex) implies {
                &&& valid_utf8(label_bytes(after, vertex))
                &&& after.contains_key(label_index_key(decode_utf8(label_bytes(after, vertex))))
                &&& after[label_index_key(decode_utf8(label_bytes(after, vertex)))]
                    == vertex.spec_bytes()
            } by {
                assert(has_label(before, vertex));
                let text = decode_utf8(label_bytes(before, vertex));
                assert(is_structural_key(label_index_key(text))) by {
                    lemma_label_index_key_decodes(text);
                }
            }
        }
        assert(labels_anchored(after)) by {
            assert forall|vertex: TypeVertex| #[trigger] has_label(after, vertex) implies has_vertex(
                after,
                vertex,
            ) by {
                assert(has_label(before, vertex));
                assert(has_vertex(before, vertex));
            }
        }
        assert(hierarchy_placed(after)) by {
            assert forall|vertex: TypeVertex| #[trigger] type_exists(after, vertex) implies well_placed(
                after,
                vertex,
            ) by {
                assert(type_exists(before, vertex));
                assert(well_placed(before, vertex));
                assert(supertypes(after, vertex) == supertypes(before, vertex));
                assert(label_of(after, vertex) == label_of(before, vertex));
            }
        }
    }
    assert forall|kind: Kind| root_present(before, kind) implies #[trigger] root_present(
        after,
        kind,
    ) by {
        let root = root_of(before, kind)->Some_0;
        assert(labelled_vertex(after, kind.spec_root_label()) == labelled_vertex(
            before,
            kind.spec_root_label(),
        ));
        assert(label_of(after, root) == label_of(before, root));
        assert(has_vertex(after, root) == has_vertex(before, root));
    }
    if rooted(before) {
        assert forall|kind: Kind| #[trigger] root_present(after, kind) by {
            assert(root_present(before, kind));
        }
    }
}

/// Relabelling a type keeps a consistent schema consistent, and its root types in place.
pub proof fn lemma_relabel_keeps_consistent(store: Store, vertex: TypeVertex, label: Seq<char>)
    requires
        consistent(store),
        rooted(store),
        has_label(store, vertex),
        relabel_outcome(store, vertex, label) is Ok,
    ensures
        consistent(with_label(store, vertex, label)),
        rooted(with_label(store, vertex, label)),
{
    broadcast use
        lemma_vertex_property_key_decodes,
        lemma_label_index_key_decodes,
        lemma_edge_key_decodes,
        TypeVertex::lemma_encode_decode,
    ;

    let after = with_label(store, vertex, label);
    lemma_with_label_changes(store, vertex, label);
    encode_utf8_valid_utf8(label);
    encode_utf8_decode_utf8(label);
    let old_bytes = label_bytes(store, vertex);
    let old_label = decode_utf8(old_bytes);
    decode_utf8_encode_utf8(old_bytes);
    assert(seq![60u8] + old_bytes =~= label_index_key(old_label));
    assert(store[label_index_key(old_label)] == vertex.spec_bytes());
    // No root label is the new label, and no root label is the old one.
    assert forall|kind: Kind| label != kind.spec_root_label() && old_label
        != kind.spec_root_label() by {
        assert(root_present(store, kind));
        let root = root_of(store, kind)->Some_0;
        assert(labelled_vertex(store, kind.spec_root_label()) == Some(root));
        assert(store[label_index_key(kind.spec_root_label())] == root.spec_bytes()) by {
            let bytes = store[label_index_key(kind.spec_root_label())];
            TypeVertex::lemma_decode_encode(bytes[0], bytes[1], bytes[2]);
            assert(bytes =~= seq![bytes[0], bytes[1], bytes[2]]);
        }
        if root == vertex {
            assert(is_root(store, vertex));
        }
        assert(root.spec_bytes() != vertex.spec_bytes());
    }
    assert(sub_edges_anchored(after));
    assert(sub_edges_mirrored(after));
    assert(labels_anchored(after)) by {
        assert forall|other: TypeVertex| #[trigger] has_label(after, other) implies has_vertex(
            after,
            other,
        ) by {
            assert(has_label(store, other));
            assert(has_vertex(store, other));
        }
    }
    assert(labels_indexed(after)) by {
        assert forall|other: TypeVertex| #[trigger] has_label(after, other) implies {
            &&& valid_utf8(label_bytes(after, other))
            &&& after.contains_key(label_index_key(decode_utf8(label_bytes(after, other))))
            &&& after[label_index_key(decode_utf8(label_bytes(after, other)))]
                == other.spec_bytes()
        } by {
            if other != vertex {
                assert(has_label(store, other));
                let text = decode_utf8(label_bytes(store, other));
                assert(store[label_index_key(text)] == other.spec_bytes());
                assert(other.spec_bytes() != vertex.spec_bytes());
                assert(text != label);
                assert(text != old_label);
                assert(label_index_key(text) != label_index_key(old_label));
                assert(after.contains_key(label_index_key(text)));
            }
        }
    }
    assert(hierarchy_placed(after)) by {
        assert forall|other: TypeVertex| #[trigger] type_exists(after, other) implies well_placed(
            after,
            other,
        ) by {
            assert(has_label(store, other));
            assert(type_exists(store, other));
            assert(well_placed(store, other));
            assert(supertypes(after, other) =~= supertypes(store, other));
            if other == vertex {
                assert(label_of(after, vertex) == Some(label));
                assert(!is_root(after, vertex));
            } else {
                assert(label_of(after, other) == label_of(store, other));
            }
        }
    }
    assert forall|kind: Kind| #[trigger] root_present(after, kind) by {
        assert(root_present(store, kind));
        let root = root_of(store, kind)->Some_0;
        let text = kind.spec_root_label();
        assert(text != label && text != old_label);
        assert(label_index_key(text) != label_index_key(old_label));
        assert(after.contains_key(label_index_key(text)));
        assert(after[label_index_key(text)] == store[label_index_key(text)]);
        if root == vertex {
            assert(is_root(store, vertex));
        }
        assert(label_of(after, root) == label_of(store, root));
    }
}

/// Giving a type a supertype of its kind keeps a consistent schema consistent, and its root
/// types in place.
pub proof fn lemma_reparent_keeps_consistent(
    store: Store,
    vertex: TypeVertex,
    supertype: TypeVertex,
)
    requires
        consistent(store),
        rooted(store),
        type_exists(store, vertex),
        supertype.kind == vertex.kind,
        reparent_outcome(store, vertex) is Ok,
    ensures
        consistent(with_supertype(store, vertex, supertype)),
        rooted(with_supertype(store, vertex, supertype)),
{
    let after = with_supertype(store, vertex, supertype);
    lemma_with_supertype_changes(store, vertex, supertype);
    lemma_placing_keeps_consistent(store, vertex, supertype);
}

/// Placing a type that is no root type below a type of its kind keeps the schema consistent,
/// where it is consistent but for the place of that type.
pub proof fn lemma_placing_keeps_consistent(store: Store, vertex: TypeVertex, supertype: TypeVertex)
    requires
        sub_edges_anchored(store),
        sub_edges_mirrored(store),
        labels_indexed(store),
        labels_anchored(store),
        forall|other: TypeVertex|
            other != vertex && #[trigger] type_exists(store, other) ==> well_placed(store, other),
        has_vertex(store, vertex),
        !is_root(store, vertex),
        supertype.kind == vertex.kind,
    ensures
        consistent(with_supertype(store, vertex, supertype)),
        forall|kind: Kind|
            root_present(store, kind) ==> #[trigger] root_present(
                with_supertype(store, vertex, supertype),
                kind,
            ),
{
    let after = with_supertype(store, vertex, supertype);
    lemma_with_supertype_changes(store, vertex, supertype);
    assert(sub_edges_anchored(after)) by {
        assert forall|from: TypeVertex, to: TypeVertex| #[trigger]
            has_edge(after, EdgeKind::Sub, from, to) implies has_vertex(after, from) by {
            if from != vertex {
                assert(has_edge(store, EdgeKind::Sub, from, to));
                assert(has_vertex(store, from));
            }
            assert(has_vertex(after, from) == has_vertex(store, from));
        }
    }
    assert(sub_edges_mirrored(after)) by {
        assert forall|from: TypeVertex, to: TypeVertex|
            #[trigger] has_edge(after, EdgeKind::Sub, from, to) <==> #[trigger] has_edge(
                after,
                EdgeKind::SubReverse,
                to,
                from,
            ) by {
            assert(has_edge(store, EdgeKind::Sub, from, to) <==> has_edge(
                store,
                EdgeKind::SubReverse,
                to,
                from,
            ));
        }
    }
    assert(labels_indexed(after)) by {
        assert forall|other: TypeVertex| #[trigger] has_label(after, other) implies {
            &&& valid_utf8(label_bytes(after, other))
            &&& after.contains_key(label_index_key(decode_utf8(label_bytes(after, other))))
            &&& after[label_index_key(decode_utf8(label_bytes(after, other)))]
                == other.spec_bytes()
        } by {
            assert(has_label(store, other));
            let text = decode_utf8(label_bytes(store, other));
            assert(after.contains_key(label_index_key(text)) == store.contains_key(
                label_index_key(text),
            ));
        }
    }
    assert(labels_anchored(after)) by {
        assert forall|other: TypeVertex| #[trigger] has_label(after, other) implies has_vertex(
            after,
            other,
        ) by {
            assert(has_label(store, other));
            assert(has_vertex(after, other) == has_vertex(store, other));
        }
    }
    assert(hierarchy_placed(after)) by {
        assert forall|other: TypeVertex| #[trigger] type_exists(after, other) implies well_placed(
            after,
            other,
        ) by {
            assert(has_label(after, other) == has_label(store, other));
            assert(has_vertex(after, other) == has_vertex(store, other));
            assert(label_of(after, other) == label_of(store, other));
            if other == vertex {
                assert(supertypes(after, vertex) =~= set![supertype]);
            } else {
                assert(type_exists(store, other));
                assert(well_placed(store, other));
                assert(supertypes(after, other) =~= supertypes(store, other));
            }
        }
    }
    assert forall|kind: Kind| root_present(store, kind) implies #[trigger] root_present(
        after,
        kind,
    ) by {
        let root = root_of(store, kind)->Some_0;
        let text = kind.spec_root_label();
        assert(after.contains_key(label_index_key(text)) == store.contains_key(
            label_index_key(text),
        ));
        assert(has_label(after, root) == has_label(store, root));
        assert(has_vertex(after, root) == has_vertex(store, root));
    }
}

/// The store with the vertex of a new type and its label.
pub open spec fn with_labelled_vertex(store: Store, vertex: TypeVertex, label: Seq<char>) -> Store {
    with_label(store.insert(vertex.spec_bytes(), Seq::empty()), vertex, label)
}

/// What recording a new type with its label changes: the vertex, its label and the index
/// entry of the label, nothing else.
pub proof fn lemma_with_labelled_vertex_changes(store: Store, vertex: TypeVertex, label: Seq<char>)
    requires
        !has_label(store, vertex),
    ensures
        forall|other: TypeVertex| #[trigger]
            has_vertex(with_labelled_vertex(store, vertex, label), other) == (other == vertex
                || has_vertex(store, other)),
        forall|kind: EdgeKind, from: TypeVertex, to: TypeVertex| #[trigger]
            has_edge(with_labelled_vertex(store, vertex, label), kind, from, to) == has_edge(
                store,
                kind,
                from,
                to,
            ),
        forall|other: TypeVertex|
            other != vertex ==> #[trigger] has_label(
                with_labelled_vertex(store, vertex, label),
                other,
            ) == has_label(store, other) && (has_label(store, other) ==> label_bytes(
                with_labelled_vertex(store, vertex, label),
                other,
            ) == label_bytes(store, other)),
        has_label(with_labelled_vertex(store, vertex, label), vertex),
        label_bytes(with_labelled_vertex(store, vertex, label), vertex) == encode_utf8(label),
        label_of(with_labelled_vertex(store, vertex, label), vertex) == Some(label),
        forall|text: Seq<char>| #[trigger]
            with_labelled_vertex(store, vertex, label).contains_key(label_index_key(text)) == (text
                == label || store.contains_key(label_index_key(text))),
        with_labelled_vertex(store, vertex, label)[label_index_key(label)]
            == vertex.spec_bytes(),
        forall|text: Seq<char>|
            text != label && #[trigger] store.contains_key(label_index_key(text))
                ==> with_labelled_vertex(store, vertex, label)[label_index_key(text)]
                == store[label_index_key(text)],
{
    broadcast use
        lemma_vertex_property_key_decodes,
        lemma_label_index_key_decodes,
        lemma_edge_key_decodes,
        TypeVertex::lemma_encode_decode,
    ;

    let held = store.insert(vertex.spec_bytes(), Seq::empty());
    let after = with_labelled_vertex(store, vertex, label);
    lemma_with_label_changes(held, vertex, label);
    encode_utf8_valid_utf8(label);
    encode_utf8_decode_utf8(label);
    let property = vertex_property_key(VertexProperty::Label, vertex);
    assert(property != vertex.spec_bytes());
    assert(!has_label(held, vertex));
    assert forall|other: TypeVertex| #[trigger]
        has_vertex(after, other) == (other == vertex || has_vertex(store, other)) by {
        assert(has_vertex(after, other) == has_vertex(held, other));
    }
    assert forall|kind: EdgeKind, from: TypeVertex, to: TypeVertex| #[trigger]
        has_edge(after, kind, from, to) == has_edge(store, kind, from, to) by {
        assert(has_edge(after, kind, from, to) == has_edge(held, kind, from, to));
        assert(edge_key(kind, from, to) != vertex.spec_bytes());
    }
    assert forall|other: TypeVertex| other != vertex implies #[trigger] has_label(after, other)
        == has_label(store, other) && (has_label(store, other) ==> label_bytes(after, other)
        == label_bytes(store, other)) by {
        assert(has_label(after, other) == has_label(held, other));
        assert(vertex_property_key(VertexProperty::Label, other) != vertex.spec_bytes());
    }
    assert forall|text: Seq<char>| #[trigger]
        after.contains_key(label_index_key(text)) == (text == label || store.contains_key(
            label_index_key(text),
        )) by {
        assert(label_index_key(text) != vertex.spec_bytes());
    }
    assert forall|text: Seq<char>|
        text != label && #[trigger] store.contains_key(label_index_key(text)) implies after[label_index_key(
        text,
    )] == store[label_index_key(text)] by {
        assert(label_index_key(text) != vertex.spec_bytes());
        assert(after.contains_key(label_index_key(text)));
    }
}

/// A new type with a label that is not in use leaves the labels of a consistent schema
/// indexed, its edges as they were, and the other types in their places.
pub proof fn lemma_labelled_vertex_keeps(store: Store, vertex: TypeVertex, label: Seq<char>)
    requires
        consistent(store),
        !has_vertex(store, vertex),
        !label_in_use(store, label),
    ensures
        sub_edges_anchored(with_labelled_vertex(store, vertex, label)),
        sub_edges_mirrored(with_labelled_vertex(store, vertex, label)),
        labels_indexed(with_labelled_vertex(store, vertex, label)),
        labels_anchored(with_labelled_vertex(store, vertex, label)),
        forall|other: TypeVertex|
            other != vertex && #[trigger] type_exists(
                with_labelled_vertex(store, vertex, label),
                other,
            ) ==> well_placed(with_labelled_vertex(store, vertex, label), other),
        supertypes(with_labelled_vertex(store, vertex, label), vertex) == Set::<
            TypeVertex,
        >::empty(),
        forall|kind: Kind|
            root_present(store, kind) ==> #[trigger] root_present(
                with_labelled_vertex(store, vertex, label),
                kind,
            ),
{
    broadcast use TypeVertex::lemma_encode_decode;

    let after = with_labelled_vertex(store, vertex, label);
    assert(!has_label(store, vertex)) by {
        if has_label(store, vertex) {
            assert(has_vertex(store, vertex));
        }
    }
    lemma_with_labelled_vertex_changes(store, vertex, label);
    encode_utf8_valid_utf8(label);
    encode_utf8_decode_utf8(label);
    assert(sub_edges_anchored(after)) by {
        assert forall|from: TypeVertex, to: TypeVertex| #[trigger]
            has_edge(after, EdgeKind::Sub, from, to) implies has_vertex(after, from) by {
            assert(has_edge(store, EdgeKind::Sub, from, to));
            assert(has_vertex(store, from));
        }
    }
    assert(sub_edges_mirrored(after)) by {
        assert forall|from: TypeVertex, to: TypeVertex|
            #[trigger] has_edge(after, EdgeKind::Sub, from, to) <==> #[trigger] has_edge(
                after,
                EdgeKind::SubReverse,
                to,
                from,
            ) by {
            assert(has_edge(store, EdgeKind::Sub, from, to) <==> has_edge(
                store,
                EdgeKind::SubReverse,
                to,
                from,
            ));
        }
    }
    assert(labels_indexed(after)) by {
        assert forall|other: TypeVertex| #[trigger] has_label(after, other) implies {
            &&& valid_utf8(label_bytes(after, other))
            &&& after.contains_key(label_index_key(decode_utf8(label_bytes(after, other))))
            &&& after[label_index_key(decode_utf8(label_bytes(after, other)))]
                == other.spec_bytes()
        } by {
            if other != vertex {
                assert(has_label(store, other));
                let text = decode_utf8(label_bytes(store, other));
                assert(store.contains_key(label_index_key(text)));
                assert(label_in_use(store, text));
                assert(text != label);
            }
        }
    }
    assert(labels_anchored(after)) by {
        assert forall|other: TypeVertex| #[trigger] has_label(after, other) implies has_vertex(
            after,
            other,
        ) by {
            if other != vertex {
                assert(has_label(store, other));
                assert(has_vertex(store, other));
            }
        }
    }
    assert forall|other: TypeVertex| other != vertex && #[trigger] type_exists(
        after,
        other,
    ) implies well_placed(after, other) by {
        assert(has_label(store, other));
        assert(type_exists(store, other));
        assert(well_placed(store, other));
        assert(supertypes(after, other) =~= supertypes(store, other));
        assert(label_of(after, other) == label_of(store, other));
    }
    assert(supertypes(after, vertex) =~= Set::<TypeVertex>::empty()) by {
        assert forall|supertype: TypeVertex| !supertypes(after, vertex).contains(supertype) by {
            if has_edge(store, EdgeKind::Sub, vertex, supertype) {
                assert(has_vertex(store, vertex));
            }
        }
    }
    assert forall|kind: Kind| root_present(store, kind) implies #[trigger] root_present(
        after,
        kind,
    ) by {
        let root = root_of(store, kind)->Some_0;
        let text = kind.spec_root_label();
        assert(label_in_use(store, text));
        assert(text != label);
        assert(store.contains_key(label_index_key(text)));
        assert(after[label_index_key(text)] == store[label_index_key(text)]);
        assert(root != vertex);
        assert(has_label(store, root));
        assert(label_of(after, root) == label_of(store, root));
    }
}

/// Creating a type below a type of its kind keeps a consistent schema consistent, and its
/// root types in place.
pub proof fn lemma_create_keeps_consistent(
    store: Store,
    vertex: TypeVertex,
    label: Seq<char>,
    supertype: TypeVertex,
)
    requires
        consistent(store),
        rooted(store),
        !has_vertex(store, vertex),
        !label_in_use(store, label),
        supertype.kind == vertex.kind,
    ensures
        consistent(with_type(store, vertex, label, Some(supertype))),
        rooted(with_type(store, vertex, label, Some(supertype))),
{
    let labelled = with_labelled_vertex(store, vertex, label);
    lemma_labelled_vertex_keeps(store, vertex, label);
    lemma_with_labelled_vertex_changes(store, vertex, label);
    assert(!has_label(store, vertex)) by {
        if has_label(store, vertex) {
            assert(has_vertex(store, vertex));
        }
    }
    assert(!is_root(labelled, vertex)) by {
        assert(root_present(store, vertex.kind));
        assert(label_in_use(store, vertex.kind.spec_root_label()));
    }
    lemma_placing_keeps_consistent(labelled, vertex, supertype);
    assert forall|kind: Kind| #[trigger]
        root_present(with_type(store, vertex, label, Some(supertype)), kind) by {
        assert(root_present(store, kind));
        assert(root_present(labelled, kind));
    }
}

/// Creating the root type of a kind in a consistent schema that holds no type with the root
/// label keeps the schema consistent, puts the root type in place, and leaves the root
/// types of the other kinds in place.
pub proof fn lemma_root_creation_keeps_consistent(store: Store, vertex: TypeVertex)
    requires
        consistent(store),
        !has_vertex(store, vertex),
        !label_in_use(store, vertex.kind.spec_root_label()),
    ensures
        consistent(with_labelled_vertex(store, vertex, vertex.kind.spec_root_label())),
        root_present(
            with_labelled_vertex(store, vertex, vertex.kind.spec_root_label()),
            vertex.kind,
        ),
        forall|kind: Kind|
            root_present(store, kind) ==> #[trigger] root_present(
                with_labelled_vertex(store, vertex, vertex.kind.spec_root_label()),
                kind,
            ),
{
    broadcast use TypeVertex::lemma_encode_decode;

    let label = vertex.kind.spec_root_label();
    let after = with_labelled_vertex(store, vertex, label);
    lemma_labelled_vertex_keeps(store, vertex, label);
    assert(!has_label(store, vertex)) by {
        if has_label(store, vertex) {
            assert(has_vertex(store, vertex));
        }
    }
    lemma_with_labelled_vertex_changes(store, vertex, label);
    assert(is_root(after, vertex));
    assert(hierarchy_placed(after)) by {
        assert forall|other: TypeVertex| #[trigger] type_exists(after, other) implies well_placed(
            after,
            other,
        ) by {}
    }
    assert(labelled_vertex(after, label) == Some(vertex));
    assert(has_vertex(after, vertex));
}

/// The schema that holds nothing is consistent.
pub proof fn lemma_empty_is_consistent()
    ensures
        consistent(Store::empty()),
{
    let store = Store::empty();
    assert forall|vertex: TypeVertex| #[trigger] type_exists(store, vertex) implies well_placed(
        store,
        vertex,
    ) by {}
}

/// Where not every number of a kind is taken, the vertex with the least free number is not
/// in the store.
pub proof fn lemma_first_free_is_free(store: Store, kind: Kind)
    requires
        !is_exhausted(store, kind),
    ensures
        is_first_free(store, kind, first_free(store, kind).id as int),
        first_free(store, kind).kind == kind,
        !has_vertex(store, first_free(store, kind)),
{
    let free = choose|id: int| 0 <= id < 65536 && is_free(store, kind, id);
    lemma_least_free(store, kind, free);
    let least = choose|id: int| is_first_free(store, kind, id);
    assert(is_first_free(store, kind, least));
    assert(0 <= least < 65536);
    assert(least as u16 as int == least);
}

/// Below a free number there is a least free number.
proof fn lemma_least_free(store: Store, kind: Kind, free: int)
    requires
        is_free(store, kind, free),
    ensures
        exists|id: int| is_first_free(store, kind, id),
    decreases free,
{
    if exists|lower: int| 0 <= lower < free && is_free(store, kind, lower) {
        let lower = choose|lower: int| 0 <= lower < free && is_free(store, kind, lower);
        lemma_least_free(store, kind, lower);
    } else {
        assert(is_first_free(store, kind, free));
    }
}

/// Attaching an annotation to a type, or taking one off, keeps a consistent schema
/// consistent, and its root types in place.
pub proof fn lemma_annotation_keeps_consistent(
    store: Store,
    vertex: TypeVertex,
    annotation: Annotation,
)
    ensures
        consistent(store) ==> consistent(with_annotation(store, vertex, annotation))
            && consistent(without_annotation(store, vertex, annotation)),
        rooted(store) ==> rooted(with_annotation(store, vertex, annotation)) && rooted(
            without_annotation(store, vertex, annotation),
        ),
        forall|kind: Kind|
            root_present(store, kind) ==> #[trigger] root_present(
                with_annotation(store, vertex, annotation),
                kind,
            ),
{
    broadcast use lemma_vertex_property_key_decodes;

    let with = with_annotation(store, vertex, annotation);
    let without = without_annotation(store, vertex, annotation);
    assert(same_structure(store, with));
    assert(same_structure(store, without));
    lemma_frame(store, with);
    lemma_frame(store, without);
}

/// Writing or deleting an edge that is no sub edge keeps a consistent schema consistent,
/// and its root types in place.
pub proof fn lemma_edge_keeps_consistent(
    store: Store,
    kind: EdgeKind,
    from: TypeVertex,
    to: TypeVertex,
)
    requires
        kind != EdgeKind::Sub,
        kind != EdgeKind::SubReverse,
    ensures
        consistent(store) ==> consistent(with_edge(store, kind, from, to)) && consistent(
            without_edge(store, kind, from, to),
        ),
        rooted(store) ==> rooted(with_edge(store, kind, from, to)) && rooted(
            without_edge(store, kind, from, to),
        ),
        forall|of: Kind|
            root_present(store, of) ==> #[trigger] root_present(
                with_edge(store, kind, from, to),
                of,
            ),
{
    broadcast use lemma_edge_key_decodes;

    let with = with_edge(store, kind, from, to);
    let without = without_edge(store, kind, from, to);
    assert(kind.spec_reverse() != EdgeKind::Sub && kind.spec_reverse() != EdgeKind::SubReverse);
    assert(same_structure(store, with));
    assert(same_structure(store, without));
    lemma_frame(store, with);
    lemma_frame(store, without);
}

/// Setting or deleting an ownership keeps a consistent schema consistent, and its root
/// types in place.
pub proof fn lemma_owns_keeps_consistent(
    store: Store,
    owner: TypeVertex,
    attribute: TypeVertex,
    mode: OrderMode,
)
    ensures
        consistent(store) ==> consistent(with_owns(store, owner, attribute, mode)) && consistent(
            without_owns(store, owner, attribute),
        ),
        rooted(store) ==> rooted(with_owns(store, owner, attribute, mode)) && rooted(
            without_owns(store, owner, attribute),
        ),
{
    broadcast use lemma_edge_key_decodes, lemma_edge_property_key_decodes;

    let with = with_owns(store, owner, attribute, mode);
    let without = without_owns(store, owner, attribute);
    assert(same_structure(store, with));
    assert(same_structure(store, without));
    lemma_frame(store, with);
    lemma_frame(store, without);
}

/// Recording a value type or an order mode with a type keeps a consistent schema
/// consistent, and its root types in place.
pub proof fn lemma_property_keeps_consistent(
    store: Store,
    property: VertexProperty,
    vertex: TypeVertex,
    value: Seq<u8>,
)
    requires
        property != VertexProperty::Label,
    ensures
        consistent(store) ==> consistent(
            store.insert(vertex_property_key(property, vertex), value),
        ),
        rooted(store) ==> rooted(store.insert(vertex_property_key(property, vertex), value)),
        forall|kind: Kind|
            root_present(store, kind) ==> #[trigger] root_present(
                store.insert(vertex_property_key(property, vertex), value),
                kind,
            ),
{
    broadcast use lemma_vertex_property_key_decodes;

    let after = store.insert(vertex_property_key(property, vertex), value);
    assert(same_structure(store, after));
    lemma_frame(store, after);
}

/// Creating the four root types in a consistent schema, where it succeeds, gives a
/// consistent schema that holds the root type of every kind. The schema that holds nothing
/// is one in which it succeeds.
pub proof fn lemma_initialise_keeps_consistent(store: Store)
    requires
        consistent(store),
        initialise_outcome(store).0 is Ok,
    ensures
        consistent(initialise_outcome(store).1),
        rooted(initialise_outcome(store).1),
{
    let entity = first_free(store, Kind::Entity);
    lemma_first_free_is_free(store, Kind::Entity);
    lemma_root_creation_keeps_consistent(store, entity);
    let entity_labelled = with_labelled_vertex(store, entity, Kind::Entity.spec_root_label());
    lemma_annotation_keeps_consistent(entity_labelled, entity, abstract_annotation());
    let with_entity = root_type_outcome(store, Kind::Entity)->Ok_0;
    assert(with_entity == with_annotation(entity_labelled, entity, abstract_annotation()));
    assert(root_present(with_entity, Kind::Entity));

    let relation = first_free(with_entity, Kind::Relation);
    lemma_first_free_is_free(with_entity, Kind::Relation);
    lemma_root_creation_keeps_consistent(with_entity, relation);
    let relation_labelled = with_labelled_vertex(
        with_entity,
        relation,
        Kind::Relation.spec_root_label(),
    );
    lemma_annotation_keeps_consistent(relation_labelled, relation, abstract_annotation());
    let with_relation = root_type_outcome(with_entity, Kind::Relation)->Ok_0;
    assert(with_relation == with_annotation(relation_labelled, relation, abstract_annotation()));
    assert(root_present(relation_labelled, Kind::Entity));
    assert(root_present(with_relation, Kind::Entity));
    assert(root_present(with_relation, Kind::Relation));

    let role = first_free(with_relation, Kind::Role);
    lemma_first_free_is_free(with_relation, Kind::Role);
    lemma_root_creation_keeps_consistent(with_relation, role);
    let role_labelled = with_labelled_vertex(with_relation, role, Kind::Role.spec_root_label());
    lemma_edge_keeps_consistent(role_labelled, EdgeKind::Relates, relation, role);
    let role_related = with_edge(role_labelled, EdgeKind::Relates, relation, role);
    lemma_property_keeps_consistent(
        role_related,
        VertexProperty::Order,
        role,
        order_mode_bytes(OrderMode::Unordered),
    );
    let role_held = role_related.insert(
        vertex_property_key(VertexProperty::Order, role),
        order_mode_bytes(OrderMode::Unordered),
    );
    lemma_annotation_keeps_consistent(role_held, role, abstract_annotation());
    let with_role = root_role_outcome(with_relation, relation)->Ok_0;
    assert(with_role == with_annotation(role_held, role, abstract_annotation()));
    assert(root_present(role_labelled, Kind::Entity));
    assert(root_present(role_labelled, Kind::Relation));
    assert(root_present(role_labelled, Kind::Role));
    assert(root_present(role_related, Kind::Entity));
    assert(root_present(role_related, Kind::Relation));
    assert(root_present(role_related, Kind::Role));
    assert(root_present(role_held, Kind::Entity));
    assert(root_present(role_held, Kind::Relation));
    assert(root_present(role_held, Kind::Role));
    assert(root_present(with_role, Kind::Entity));
    assert(root_present(with_role, Kind::Relation));
    assert(root_present(with_role, Kind::Role));

    let attribute = first_free(with_role, Kind::Attribute);
    lemma_first_free_is_free(with_role, Kind::Attribute);
    lemma_root_creation_keeps_consistent(with_role, attribute);
    let attribute_labelled = with_labelled_vertex(
        with_role,
        attribute,
        Kind::Attribute.spec_root_label(),
    );
    lemma_annotation_keeps_consistent(attribute_labelled, attribute, abstract_annotation());
    let with_attribute = root_type_outcome(with_role, Kind::Attribute)->Ok_0;
    assert(with_attribute == with_annotation(
        attribute_labelled,
        attribute,
        abstract_annotation(),
    ));
    assert(root_present(attribute_labelled, Kind::Entity));
    assert(root_present(attribute_labelled, Kind::Relation));
    assert(root_present(attribute_labelled, Kind::Role));
    assert(root_present(attribute_labelled, Kind::Attribute));
    assert(root_present(with_attribute, Kind::Entity));
    assert(root_present(with_attribute, Kind::Relation));
    assert(root_present(with_attribute, Kind::Role));
    assert(root_present(with_attribute, Kind::Attribute));
    assert(initialise_outcome(store).1 == with_attribute);
    assert forall|kind: Kind| #[trigger] root_present(with_attribute, kind) by {
        match kind {
            Kind::Entity => {},
            Kind::Relation => {},
            Kind::Role => {},
            Kind::Attribute => {},
        }
    }
}

/// Creating the four root types in the schema that holds nothing succeeds.
pub proof fn lemma_initialise_succeeds_on_empty()
    ensures
        initialise_outcome(Store::empty()).0 is Ok,
{
    broadcast use
        lemma_vertex_property_key_decodes,
        lemma_label_index_key_decodes,
        lemma_edge_key_decodes,
        TypeVertex::lemma_encode_decode,
    ;

    let store = Store::empty();
    assert(is_free(store, Kind::Entity, 0));
    lemma_first_free_is_free(store, Kind::Entity);
    let entity = first_free(store, Kind::Entity);
    lemma_root_outcome_holds(store, Kind::Entity);
    let with_entity = root_type_outcome(store, Kind::Entity)->Ok_0;

    Kind::Relation.lemma_root_labels_differ(Kind::Entity);
    assert(!label_in_use(with_entity, Kind::Relation.spec_root_label()));
    assert(is_free(with_entity, Kind::Relation, 0)) by {
        assert((TypeVertex { kind: Kind::Relation, id: 0 }) != entity);
        assert(!has_vertex(with_entity, TypeVertex { kind: Kind::Relation, id: 0 }));
    }
    lemma_first_free_is_free(with_entity, Kind::Relation);
    let relation = first_free(with_entity, Kind::Relation);
    assert(relation != entity);
    assert(!has_label(with_entity, relation));
    lemma_root_outcome_holds(with_entity, Kind::Relation);
    let with_relation = root_type_outcome(with_entity, Kind::Relation)->Ok_0;

    Kind::Role.lemma_root_labels_differ(Kind::Entity);
    Kind::Role.lemma_root_labels_differ(Kind::Relation);
    assert(!label_in_use(with_relation, Kind::Role.spec_root_label()));
    assert(is_free(with_relation, Kind::Role, 0)) by {
        assert((TypeVertex { kind: Kind::Role, id: 0 }) != entity);
        assert((TypeVertex { kind: Kind::Role, id: 0 }) != relation);
        assert(!has_vertex(with_relation, TypeVertex { kind: Kind::Role, id: 0 }));
    }
    lemma_first_free_is_free(with_relation, Kind::Role);
    let role = first_free(with_relation, Kind::Role);
    assert(role != entity && role != relation);
    assert(!has_label(with_relation, role));
    lemma_role_outcome_holds(with_relation, relation);
    let with_role = root_role_outcome(with_relation, relation)->Ok_0;

    Kind::Attribute.lemma_root_labels_differ(Kind::Entity);
    Kind::Attribute.lemma_root_labels_differ(Kind::Relation);
    Kind::Attribute.lemma_root_labels_differ(Kind::Role);
    assert(!label_in_use(with_role, Kind::Attribute.spec_root_label()));
    assert(is_free(with_role, Kind::Attribute, 0)) by {
        assert((TypeVertex { kind: Kind::Attribute, id: 0 }) != entity);
        assert((TypeVertex { kind: Kind::Attribute, id: 0 }) != relation);
        assert((TypeVertex { kind: Kind::Attribute, id: 0 }) != role);
        assert(!has_vertex(with_role, TypeVertex { kind: Kind::Attribute, id: 0 }));
    }
    assert(root_type_outcome(with_role, Kind::Attribute) is Ok);
}

/// What creating the root type of a kind leaves in use: the labels that were in use and the
/// root label, and the vertices that were in the store and the new one.
proof fn lemma_root_outcome_holds(store: Store, kind: Kind)
    requires
        root_type_outcome(store, kind) is Ok,
        !has_label(store, first_free(store, kind)),
    ensures
        forall|vertex: TypeVertex| #[trigger]
            has_label(root_type_outcome(store, kind)->Ok_0, vertex) == (vertex == first_free(
                store,
                kind,
            ) || has_label(store, vertex)),
        forall|text: Seq<char>| #[trigger]
            label_in_use(root_type_outcome(store, kind)->Ok_0, text) == (text
                == kind.spec_root_label() || label_in_use(store, text)),
        forall|vertex: TypeVertex| #[trigger]
            has_vertex(root_type_outcome(store, kind)->Ok_0, vertex) == (vertex == first_free(
                store,
                kind,
            ) || has_vertex(store, vertex)),
{
    broadcast use
        lemma_vertex_property_key_decodes,
        lemma_label_index_key_decodes,
        lemma_edge_key_decodes,
        TypeVertex::lemma_encode_decode,
    ;

    let vertex = first_free(store, kind);
    let label = kind.spec_root_label();
    let held = store.insert(vertex.spec_bytes(), Seq::empty());
    let labelled = with_label(held, vertex, label);
    let after = root_type_outcome(store, kind)->Ok_0;
    lemma_with_label_changes(held, vertex, label);
    assert(after == with_annotation(labelled, vertex, abstract_annotation()));
    assert(!has_label(held, vertex)) by {
        assert(vertex_property_key(VertexProperty::Label, vertex) != vertex.spec_bytes());
    }
    assert forall|text: Seq<char>| #[trigger]
        label_in_use(after, text) == (text == label || label_in_use(store, text)) by {
        let key = label_index_key(text);
        assert(key != vertex_property_key(VertexProperty::AnnotationAbstract, vertex));
        assert(key != vertex.spec_bytes());
        assert(after.contains_key(key) == labelled.contains_key(key));
    }
    assert forall|other: TypeVertex| #[trigger]
        has_vertex(after, other) == (other == vertex || has_vertex(store, other)) by {
        let key = other.spec_bytes();
        assert(key != vertex_property_key(VertexProperty::AnnotationAbstract, vertex));
        assert(has_vertex(labelled, other) == has_vertex(held, other));
    }
    assert forall|other: TypeVertex| #[trigger]
        has_label(after, other) == (other == vertex || has_label(store, other)) by {
        let key = vertex_property_key(VertexProperty::Label, other);
        assert(key != vertex_property_key(VertexProperty::AnnotationAbstract, vertex));
        assert(key != vertex.spec_bytes());
        assert(has_label(after, other) == has_label(labelled, other));
        if other != vertex {
            assert(has_label(labelled, other) == has_label(held, other));
        }
    }
}

/// What creating the root role type leaves in use.
proof fn lemma_role_outcome_holds(store: Store, relation: TypeVertex)
    requires
        root_role_outcome(store, relation) is Ok,
        !has_label(store, first_free(store, Kind::Role)),
    ensures
        forall|vertex: TypeVertex| #[trigger]
            has_label(root_role_outcome(store, relation)->Ok_0, vertex) == (vertex == first_free(
                store,
                Kind::Role,
            ) || has_label(store, vertex)),
        forall|text: Seq<char>| #[trigger]
            label_in_use(root_role_outcome(store, relation)->Ok_0, text) == (text
                == Kind::Role.spec_root_label() || label_in_use(store, text)),
        forall|vertex: TypeVertex| #[trigger]
            has_vertex(root_role_outcome(store, relation)->Ok_0, vertex) == (vertex
                == first_free(store, Kind::Role) || has_vertex(store, vertex)),
{
    broadcast use
        lemma_vertex_property_key_decodes,
        lemma_label_index_key_decodes,
        lemma_edge_key_decodes,
        TypeVertex::lemma_encode_decode,
    ;

    let vertex = first_free(store, Kind::Role);
    let label = Kind::Role.spec_root_label();
    let held = store.insert(vertex.spec_bytes(), Seq::empty());
    let labelled = with_label(held, vertex, label);
    let after = root_role_outcome(store, relation)->Ok_0;
    lemma_with_label_changes(held, vertex, label);
    assert(EdgeKind::Relates.spec_reverse() == EdgeKind::RelatesReverse);
    assert(!has_label(held, vertex)) by {
        assert(vertex_property_key(VertexProperty::Label, vertex) != vertex.spec_bytes());
    }
    assert forall|other: TypeVertex| #[trigger]
        has_label(after, other) == (other == vertex || has_label(store, other)) by {
        let key = vertex_property_key(VertexProperty::Label, other);
        assert(key != vertex_property_key(VertexProperty::AnnotationAbstract, vertex));
        assert(key != vertex_property_key(VertexProperty::Order, vertex));
        assert(key != edge_key(EdgeKind::Relates, relation, vertex));
        assert(key != edge_key(EdgeKind::RelatesReverse, vertex, relation));
        assert(key != vertex.spec_bytes());
        assert(has_label(after, other) == has_label(labelled, other));
        if other != vertex {
            assert(has_label(labelled, other) == has_label(held, other));
        }
    }
    assert forall|text: Seq<char>| #[trigger]
        label_in_use(after, text) == (text == label || label_in_use(store, text)) by {
        let key = label_index_key(text);
        assert(key != vertex_property_key(VertexProperty::AnnotationAbstract, vertex));
        assert(key != vertex_property_key(VertexProperty::Order, vertex));
        assert(key != edge_key(EdgeKind::Relates, relation, vertex));
        assert(key != edge_key(EdgeKind::RelatesReverse, vertex, relation));
        assert(key != vertex.spec_bytes());
        assert(after.contains_key(key) == labelled.contains_key(key));
    }
    assert forall|other: TypeVertex| #[trigger]
        has_vertex(after, other) == (other == vertex || has_vertex(store, other)) by {
        let key = other.spec_bytes();
        assert(key != vertex_property_key(VertexProperty::AnnotationAbstract, vertex));
        assert(key != vertex_property_key(VertexProperty::Order, vertex));
        assert(key != edge_key(EdgeKind::Relates, relation, vertex));
        assert(key != edge_key(EdgeKind::RelatesReverse, vertex, relation));
        assert(has_vertex(labelled, other) == has_vertex(held, other));
    }
}

/// What deleting a type leaves behind: nothing of the type, and everything of the others
/// but the sub edges that led to it.
pub proof fn lemma_without_type_changes(store: Store, vertex: TypeVertex)
    ensures
        !has_vertex(without_type(store, vertex), vertex),
        !has_label(without_type(store, vertex), vertex),
        forall|kind: EdgeKind, to: TypeVertex|
            !#[trigger] has_edge(without_type(store, vertex), kind, vertex, to),
        forall|kind: EdgeKind, from: TypeVertex|
            has_edge(store, kind.spec_reverse(), vertex, from) ==> !#[trigger] has_edge(
                without_type(store, vertex),
                kind,
                from,
                vertex,
            ),
        forall|other: TypeVertex|
            other != vertex ==> #[trigger] has_vertex(without_type(store, vertex), other)
                == has_vertex(store, other),
        forall|other: TypeVertex|
            other != vertex ==> #[trigger] has_label(without_type(store, vertex), other)
                == has_label(store, other) && (has_label(store, other) ==> label_bytes(
                without_type(store, vertex),
                other,
            ) == label_bytes(store, other)),
        forall|text: Seq<char>| #[trigger]
            without_type(store, vertex).contains_key(label_index_key(text)) == (
            store.contains_key(label_index_key(text)) && !(has_label(store, vertex)
                && label_index_key(text) == seq![60u8] + label_bytes(store, vertex))),
        forall|text: Seq<char>| #[trigger]
            without_type(store, vertex).contains_key(label_index_key(text)) ==> without_type(
                store,
                vertex,
            )[label_index_key(text)] == store[label_index_key(text)],
        forall|from: TypeVertex, to: TypeVertex| #[trigger]
            has_edge(without_type(store, vertex), EdgeKind::Sub, from, to) == (has_edge(
                store,
                EdgeKind::Sub,
                from,
                to,
            ) && from != vertex && !(to == vertex && has_edge(
                store,
                EdgeKind::SubReverse,
                vertex,
                from,
            ))),
        forall|from: TypeVertex, to: TypeVertex| #[trigger]
            has_edge(without_type(store, vertex), EdgeKind::SubReverse, from, to) == (has_edge(
                store,
                EdgeKind::SubReverse,
                from,
                to,
            ) && from != vertex && !(to == vertex && has_edge(store, EdgeKind::Sub, vertex, from))),
{
    broadcast use
        lemma_vertex_property_key_decodes,
        lemma_label_index_key_decodes,
        lemma_edge_key_decodes,
        lemma_edge_property_key_decodes,
        TypeVertex::lemma_encode_decode,
    ;

    let after = without_type(store, vertex);
    let old_index = seq![60u8] + label_bytes(store, vertex);
    assert(old_index.len() >= 1 && old_index[0] == 60);
    // Every key of the type is of one of six shapes.
    assert forall|key: Seq<u8>| is_key_of_type(store, vertex, key) implies key.len() > 0 && (
    key == vertex.spec_bytes() || (key.len() == 4 && 40 <= key[0] <= 46) || key == old_index || (
    key.len() == 7 && 30 <= key[0] <= 37) || (key.len() == 8 && 50 <= key[0] <= 52)) by {
        lemma_key_of_type_shape(store, vertex, key);
    }
    assert(is_key_of_type(store, vertex, vertex.spec_bytes()));
    assert(is_key_of_type(store, vertex, vertex_property_key(VertexProperty::Label, vertex)));
    assert forall|kind: EdgeKind, to: TypeVertex|
        !#[trigger] has_edge(after, kind, vertex, to) by {
        if has_edge(store, kind, vertex, to) {
            assert(is_edge_key_from(store, kind, vertex, edge_key(kind, vertex, to)));
        }
    }
    assert forall|kind: EdgeKind, from: TypeVertex|
        has_edge(store, kind.spec_reverse(), vertex, from) implies !#[trigger] has_edge(
        after,
        kind,
        from,
        vertex,
    ) by {
        assert(kind.spec_reverse().spec_reverse() == kind);
        assert(is_edge_key_from(
            store,
            kind.spec_reverse(),
            vertex,
            edge_key(kind, from, vertex),
        ));
    }
    assert forall|other: TypeVertex| other != vertex implies #[trigger] has_vertex(after, other)
        == has_vertex(store, other) by {
        let key = other.spec_bytes();
        if is_key_of_type(store, vertex, key) {
            lemma_key_of_type_shape(store, vertex, key);
        }
    }
    assert forall|other: TypeVertex| other != vertex implies #[trigger] has_label(after, other)
        == has_label(store, other) && (has_label(store, other) ==> label_bytes(after, other)
        == label_bytes(store, other)) by {
        let key = vertex_property_key(VertexProperty::Label, other);
        if is_key_of_type(store, vertex, key) {
            lemma_key_of_type_shape(store, vertex, key);
            let property = choose|property: VertexProperty|
                key == #[trigger] vertex_property_key(property, vertex);
        }
    }
    assert forall|text: Seq<char>| #[trigger]
        after.contains_key(label_index_key(text)) == (store.contains_key(label_index_key(text))
            && !(has_label(store, vertex) && label_index_key(text) == old_index)) by {
        let key = label_index_key(text);
        if is_key_of_type(store, vertex, key) {
            lemma_key_of_type_shape(store, vertex, key);
        }
    }
    assert forall|from: TypeVertex, to: TypeVertex| #[trigger]
        has_edge(after, EdgeKind::Sub, from, to) == (has_edge(store, EdgeKind::Sub, from, to)
            && from != vertex && !(to == vertex && has_edge(
            store,
            EdgeKind::SubReverse,
            vertex,
            from,
        ))) by {
        lemma_edge_key_of_type(store, vertex, EdgeKind::Sub, from, to);
    }
    assert forall|from: TypeVertex, to: TypeVertex| #[trigger]
        has_edge(after, EdgeKind::SubReverse, from, to) == (has_edge(
            store,
            EdgeKind::SubReverse,
            from,
            to,
        ) && from != vertex && !(to == vertex && has_edge(store, EdgeKind::Sub, vertex, from))) by {
        lemma_edge_key_of_type(store, vertex, EdgeKind::SubReverse, from, to);
    }
}

/// The shapes that the keys of a type have.
proof fn lemma_key_of_type_shape(store: Store, vertex: TypeVertex, key: Seq<u8>)
    requires
        is_key_of_type(store, vertex, key),
    ensures
        key.len() > 0,
        key == vertex.spec_bytes() || (key.len() == 4 && 40 <= key[0] <= 46 && exists|
            property: VertexProperty,
        |
            key == #[trigger] vertex_property_key(property, vertex)) || (has_label(store, vertex)
            && key == seq![60u8] + label_bytes(store, vertex)) || (key.len() == 7 && 30 <= key[0]
            <= 37 && exists|kind: EdgeKind| #[trigger] is_edge_key_from(store, kind, vertex, key))
            || (key.len() == 8 && 50 <= key[0] <= 52),
{
    broadcast use
        lemma_vertex_property_key_decodes,
        lemma_label_index_key_decodes,
        lemma_edge_key_decodes,
        lemma_edge_property_key_decodes,
        TypeVertex::lemma_encode_decode,
    ;

    if exists|property: VertexProperty| key == #[trigger] vertex_property_key(property, vertex) {
        let property = choose|property: VertexProperty|
            key == #[trigger] vertex_property_key(property, vertex);
    } else if exists|kind: EdgeKind| #[trigger] is_edge_key_from(store, kind, vertex, key) {
        let kind = choose|kind: EdgeKind| #[trigger] is_edge_key_from(store, kind, vertex, key);
        let to = choose|to: TypeVertex| #[trigger]
            has_edge(store, kind, vertex, to) && (key == edge_key(kind, vertex, to) || key
                == edge_key(kind.spec_reverse(), to, vertex));
    } else if is_owns_property_key_of(store, vertex, true, key) {
        let other = choose|other: TypeVertex| #[trigger]
            has_edge(store, owns_kind(true), vertex, other) && is_owns_property_key_with(
                vertex,
                other,
                true,
                key,
            );
        let edge = TypeEdge { kind: EdgeKind::Owns, from: vertex, to: other };
        let property = choose|property: EdgeProperty|
            key == #[trigger] edge_property_key(property, edge);
    } else if is_owns_property_key_of(store, vertex, false, key) {
        let other = choose|other: TypeVertex| #[trigger]
            has_edge(store, owns_kind(false), vertex, other) && is_owns_property_key_with(
                vertex,
                other,
                false,
                key,
            );
        let edge = TypeEdge { kind: EdgeKind::Owns, from: other, to: vertex };
        let property = choose|property: EdgeProperty|
            key == #[trigger] edge_property_key(property, edge);
    } else if key == vertex.spec_bytes() {
    } else {
        let index = seq![60u8] + label_bytes(store, vertex);
        assert(index.len() >= 1 && index[0] == 60);
    }
}

/// When the key of an edge is a key of a type: when the edge leaves the type, or reaches it
/// as the other direction of an edge that leaves it.
proof fn lemma_edge_key_of_type(
    store: Store,
    vertex: TypeVertex,
    kind: EdgeKind,
    from: TypeVertex,
    to: TypeVertex,
)
    ensures
        has_edge(without_type(store, vertex), kind, from, to) == (has_edge(store, kind, from, to)
            && from != vertex && !(to == vertex && has_edge(
            store,
            kind.spec_reverse(),
            vertex,
            from,
        ))),
{
    broadcast use
        lemma_vertex_property_key_decodes,
        lemma_label_index_key_decodes,
        lemma_edge_key_decodes,
        lemma_edge_property_key_decodes,
        TypeVertex::lemma_encode_decode,
    ;

    let key = edge_key(kind, from, to);
    assert(kind.spec_reverse().spec_reverse() == kind);
    if is_key_of_type(store, vertex, key) {
        lemma_key_of_type_shape(store, vertex, key);
        let index = seq![60u8] + label_bytes(store, vertex);
        assert(index.len() >= 1 && index[0] == 60);
        let found = choose|found: EdgeKind| #[trigger]
            is_edge_key_from(store, found, vertex, key);
        let other = choose|other: TypeVertex| #[trigger]
            has_edge(store, found, vertex, other) && (key == edge_key(found, vertex, other) || key
                == edge_key(found.spec_reverse(), other, vertex));
        lemma_edge_key_decodes(found, vertex, other);
        lemma_edge_key_decodes(found.spec_reverse(), other, vertex);
        if key == edge_key(found, vertex, other) {
            assert(found == kind && from == vertex && to == other);
        } else {
            assert(found.spec_reverse() == kind && from == other && to == vertex);
            assert(found == kind.spec_reverse());
        }
    }
    if has_edge(store, kind, from, to) && from == vertex {
        assert(is_edge_key_from(store, kind, vertex, key));
    }
    if to == vertex && has_edge(store, kind.spec_reverse(), vertex, from) {
        assert(is_edge_key_from(store, kind.spec_reverse(), vertex, key));
    }
}

/// Deleting a type that is no root type and has no type below it keeps a consistent schema
/// consistent, and its root types in place.
pub proof fn lemma_delete_keeps_consistent(store: Store, vertex: TypeVertex)
    requires
        consistent(store),
        rooted(store),
        !is_root(store, vertex),
        subtypes(store, vertex) == Set::<TypeVertex>::empty(),
    ensures
        consistent(without_type(store, vertex)),
        rooted(without_type(store, vertex)),
{
    broadcast use
        lemma_vertex_property_key_decodes,
        lemma_label_index_key_decodes,
        lemma_edge_key_decodes,
        TypeVertex::lemma_encode_decode,
    ;

    let after = without_type(store, vertex);
    lemma_without_type_changes(store, vertex);
    let old_bytes = label_bytes(store, vertex);
    let old_label = decode_utf8(old_bytes);
    if has_label(store, vertex) {
        decode_utf8_encode_utf8(old_bytes);
        assert(seq![60u8] + old_bytes =~= label_index_key(old_label));
    }
    assert(sub_edges_anchored(after)) by {
        assert forall|from: TypeVertex, to: TypeVertex| #[trigger]
            has_edge(after, EdgeKind::Sub, from, to) implies has_vertex(after, from) by {
            assert(has_edge(store, EdgeKind::Sub, from, to));
            assert(has_vertex(store, from));
        }
    }
    assert(sub_edges_mirrored(after)) by {
        assert forall|from: TypeVertex, to: TypeVertex|
            #[trigger] has_edge(after, EdgeKind::Sub, from, to) <==> #[trigger] has_edge(
                after,
                EdgeKind::SubReverse,
                to,
                from,
            ) by {
            assert(has_edge(store, EdgeKind::Sub, from, to) <==> has_edge(
                store,
                EdgeKind::SubReverse,
                to,
                from,
            ));
            assert(has_edge(store, EdgeKind::Sub, vertex, to) <==> has_edge(
                store,
                EdgeKind::SubReverse,
                to,
                vertex,
            ));
            assert(has_edge(store, EdgeKind::Sub, from, vertex) <==> has_edge(
                store,
                EdgeKind::SubReverse,
                vertex,
                from,
            ));
        }
    }
    assert(labels_indexed(after)) by {
        assert forall|other: TypeVertex| #[trigger] has_label(after, other) implies {
            &&& valid_utf8(label_bytes(after, other))
            &&& after.contains_key(label_index_key(decode_utf8(label_bytes(after, other))))
            &&& after[label_index_key(decode_utf8(label_bytes(after, other)))]
                == other.spec_bytes()
        } by {
            assert(other != vertex);
            assert(has_label(store, other));
            let text = decode_utf8(label_bytes(store, other));
            assert(store[label_index_key(text)] == other.spec_bytes());
            if has_label(store, vertex) {
                assert(store[label_index_key(old_label)] == vertex.spec_bytes());
                assert(text != old_label);
                assert(label_index_key(text) != label_index_key(old_label));
            }
            assert(after.contains_key(label_index_key(text)));
        }
    }
    assert(labels_anchored(after)) by {
        assert forall|other: TypeVertex| #[trigger] has_label(after, other) implies has_vertex(
            after,
            other,
        ) by {
            assert(other != vertex);
            assert(has_label(store, other));
            assert(has_vertex(store, other));
        }
    }
    assert(hierarchy_placed(after)) by {
        assert forall|other: TypeVertex| #[trigger] type_exists(after, other) implies well_placed(
            after,
            other,
        ) by {
            assert(other != vertex);
            assert(has_label(store, other));
            assert(type_exists(store, other));
            assert(well_placed(store, other));
            assert(label_of(after, other) == label_of(store, other));
            assert forall|supertype: TypeVertex|
                supertypes(after, other).contains(supertype) <==> supertypes(
                    store,
                    other,
                ).contains(supertype) by {
                if supertypes(store, other).contains(supertype) && supertype == vertex {
                    assert(has_edge(store, EdgeKind::Sub, other, vertex));
                    assert(has_edge(store, EdgeKind::SubReverse, vertex, other));
                    assert(subtypes(store, vertex).contains(other));
                }
            }
            assert(supertypes(after, other) =~= supertypes(store, other));
        }
    }
    assert forall|kind: Kind| #[trigger] root_present(after, kind) by {
        assert(root_present(store, kind));
        let root = root_of(store, kind)->Some_0;
        let text = kind.spec_root_label();
        assert(labelled_vertex(store, text) == Some(root));
        assert(store[label_index_key(text)] == root.spec_bytes()) by {
            let bytes = store[label_index_key(text)];
            TypeVertex::lemma_decode_encode(bytes[0], bytes[1], bytes[2]);
            assert(bytes =~= seq![bytes[0], bytes[1], bytes[2]]);
        }
        if root == vertex {
            assert(is_root(store, vertex));
        }
        assert(has_label(store, root));
        if has_label(store, vertex) {
            assert(store[label_index_key(old_label)] == vertex.spec_bytes());
            assert(text != old_label);
            assert(label_index_key(text) != label_index_key(old_label));
        }
        assert(after.contains_key(label_index_key(text)));
        assert(label_of(after, root) == label_of(store, root));
    }
}

/// A type that was created exists, carries its label, is found under its label, and has
/// the supertype it was placed below and no other.
pub proof fn lemma_created_type_is_placed(
    store: Store,
    vertex: TypeVertex,
    label: Seq<char>,
    supertype: TypeVertex,
)
    requires
        supertype.kind == vertex.kind,
    ensures
        type_exists(with_type(store, vertex, label, Some(supertype)), vertex),
        label_of(with_type(store, vertex, label, Some(supertype)), vertex) == Some(label),
        labelled_type(with_type(store, vertex, label, Some(supertype)), label, vertex.kind)
            == Some(vertex),
        supertypes(with_type(store, vertex, label, Some(supertype)), vertex) == set![supertype],
        supertype_is(with_type(store, vertex, label, Some(supertype)), vertex, Some(supertype)),
{
    broadcast use TypeVertex::lemma_encode_decode, lemma_label_index_key_decodes;

    let held = store.insert(vertex.spec_bytes(), Seq::empty());
    let labelled = with_label(held, vertex, label);
    let after = with_supertype(labelled, vertex, supertype);
    lemma_with_label_changes(held, vertex, label);
    lemma_label_is_read_back(held, vertex, label);
    lemma_with_supertype_changes(labelled, vertex, supertype);
    assert(has_vertex(held, vertex));
    assert(has_vertex(labelled, vertex));
    assert(has_label(after, vertex) && label_bytes(after, vertex) == label_bytes(labelled, vertex));
    assert(after.contains_key(label_index_key(label)));
    assert(supertypes(after, vertex) =~= set![supertype]);
}

/// A role type that was created exists, carries its label, is found under its label, is
/// defined by its relation type, in both directions, and is held in its order mode.
pub proof fn lemma_created_role_type_is_related(
    store: Store,
    vertex: TypeVertex,
    label: Seq<char>,
    relation: TypeVertex,
    mode: OrderMode,
    supertype: Option<TypeVertex>,
)
    requires
        vertex.kind == Kind::Role,
    ensures
        type_exists(with_role_type(store, vertex, label, relation, mode, supertype), vertex),
        label_of(with_role_type(store, vertex, label, relation, mode, supertype), vertex) == Some(
            label,
        ),
        labelled_type(
            with_role_type(store, vertex, label, relation, mode, supertype),
            label,
            Kind::Role,
        ) == Some(vertex),
        typed_targets(
            with_role_type(store, vertex, label, relation, mode, supertype),
            EdgeKind::Relates,
            relation,
            Kind::Role,
        ).contains(vertex),
        has_edge(
            with_role_type(store, vertex, label, relation, mode, supertype),
            EdgeKind::RelatesReverse,
            vertex,
            relation,
        ),
        order_mode_of(with_role_type(store, vertex, label, relation, mode, supertype), vertex)
            == Some(Some(mode)),
        supertype matches Some(supertype) ==> supertype.kind == Kind::Role ==> supertypes(
            with_role_type(store, vertex, label, relation, mode, Some(supertype)),
            vertex,
        ) == set![supertype],
{
    broadcast use
        TypeVertex::lemma_encode_decode,
        lemma_label_index_key_decodes,
        lemma_edge_key_decodes,
        lemma_vertex_property_key_decodes,
    ;

    let held = store.insert(vertex.spec_bytes(), Seq::empty());
    let labelled = with_label(held, vertex, label);
    lemma_with_label_changes(held, vertex, label);
    lemma_label_is_read_back(held, vertex, label);
    let related = with_edge(labelled, EdgeKind::Relates, relation, vertex);
    assert(EdgeKind::Relates.spec_reverse() == EdgeKind::RelatesReverse);
    let order_key = vertex_property_key(VertexProperty::Order, vertex);
    let ordered = related.insert(order_key, order_mode_bytes(mode));
    lemma_order_mode_round_trip(mode);
    let label_key = vertex_property_key(VertexProperty::Label, vertex);
    let index_key = label_index_key(label);
    assert(related.contains_key(label_key) && related[label_key] == labelled[label_key]);
    assert(related.contains_key(index_key) && related[index_key] == labelled[index_key]);
    assert(ordered.contains_key(label_key) && ordered[label_key] == labelled[label_key]);
    assert(ordered.contains_key(index_key) && ordered[index_key] == labelled[index_key]);
    assert(has_vertex(ordered, vertex));
    assert(has_edge(ordered, EdgeKind::Relates, relation, vertex));
    assert(has_edge(ordered, EdgeKind::RelatesReverse, vertex, relation));
    match supertype {
        Some(supertype) => {
            let after = with_supertype(ordered, vertex, supertype);
            lemma_with_supertype_changes(ordered, vertex, supertype);
            lemma_supertype_keeps_rest(ordered, vertex, supertype, order_key);
            lemma_supertype_keeps_rest(
                ordered,
                vertex,
                supertype,
                edge_key(EdgeKind::Relates, relation, vertex),
            );
            lemma_supertype_keeps_rest(
                ordered,
                vertex,
                supertype,
                edge_key(EdgeKind::RelatesReverse, vertex, relation),
            );
            assert(has_label(after, vertex) && label_bytes(after, vertex) == label_bytes(
                ordered,
                vertex,
            ));
            assert(after.contains_key(index_key));
            if supertype.kind == Kind::Role {
                assert(supertypes(after, vertex) =~= set![supertype]);
            }
        },
        None => {},
    }
}

/// Giving a type a supertype leaves whatever is no sub edge as it is.
proof fn lemma_supertype_keeps_rest(
    store: Store,
    vertex: TypeVertex,
    supertype: TypeVertex,
    key: Seq<u8>,
)
    requires
        key.len() > 0,
        key[0] != 30,
        key[0] != 31,
    ensures
        with_supertype(store, vertex, supertype).contains_key(key) == store.contains_key(key),
        store.contains_key(key) ==> with_supertype(store, vertex, supertype)[key] == store[key],
{
    broadcast use lemma_edge_key_decodes;

    assert(EdgeKind::Sub.spec_reverse() == EdgeKind::SubReverse);
    if is_edge_key_from(store, EdgeKind::Sub, vertex, key) {
        let to = choose|to: TypeVertex| #[trigger]
            has_edge(store, EdgeKind::Sub, vertex, to) && (key == edge_key(
                EdgeKind::Sub,
                vertex,
                to,
            ) || key == edge_key(EdgeKind::Sub.spec_reverse(), to, vertex));
    }
}

} // verus!
