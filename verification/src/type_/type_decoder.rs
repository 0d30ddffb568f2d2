use crate::encoding::edge::{edge_key, edge_prefix, lemma_edge_key_decodes, EdgeKind, TypeEdge};
use crate::encoding::kind::Kind;
use crate::encoding::label::Label;
use crate::encoding::property::{
    build_property_type_annotation_abstract, build_property_type_annotation_cardinality,
    build_property_type_annotation_distinct, build_property_type_annotation_independent,
    build_property_type_edge_annotation_cardinality, build_property_type_edge_annotation_distinct,
    build_property_type_edge_ordering, build_property_type_label, build_property_type_ordering,
    build_property_type_value_type,
};
use crate::encoding::value_type::{ValueType, ValueTypeID};
use crate::encoding::vertex::TypeVertex;
use crate::error::{ConceptReadError, EncodingError};
use crate::snapshot::{key_at, key_before, lists_prefix, ReadableSnapshot};
use crate::type_::annotation::{
    deserialise_annotation_cardinality, deserialise_ordering, Annotation, AnnotationAbstract,
    AnnotationCardinality, AnnotationDistinct, AnnotationIndependent, OrderMode,
};
use crate::type_::schema::{
    annotations_of, cardinality_of, chain_after, edge_annotations_of, edge_cardinality_of,
    edge_order_mode_of, edge_targets, has_ambiguous_supertype, has_edge, has_label, has_vertex,
    is_root, label_bytes, label_of, labelled_type, labelled_vertex, lemma_edge_keys_rise,
    lemma_no_supertype, lemma_rising_is_distinct, lemma_single_supertype, lemma_subtypes_end,
    lemma_vertex_keys_rise, lemma_vertex_order, lists_rising, order_mode_of, rising, root_of,
    subtypes, subtypes_above, subtypes_at, subtypes_transitive, supertype_chain, supertypes,
    typed_targets, value_type_of, vertex_before, HIERARCHY_LIMIT,
};
use vstd::prelude::*;
use vstd::utf8::valid_utf8;

verus! {

/// Reads schema facts straight from a snapshot.
pub struct TypeDecoder {}

impl TypeDecoder {
    /// The types that the edges of `kind` lead to from `from`, each once.
    pub fn get_edge_targets<S: ReadableSnapshot>(
        snapshot: &S,
        kind: EdgeKind,
        from: TypeVertex,
    ) -> (targets: Vec<TypeVertex>)
        ensures
            targets@.no_duplicates(),
            targets@.to_set() == edge_targets(snapshot.contents(), kind, from),
            rising(targets@),
    {
        let prefix = TypeEdge::prefix(kind, from);
        let entries = snapshot.iterate_prefix(prefix.as_slice());
        let ghost store = snapshot.contents();
        let mut targets: Vec<TypeVertex> = Vec::new();
        let mut i: usize = 0;
        while i < entries.len()
            invariant
                0 <= i <= entries@.len(),
                lists_prefix(entries@, store, edge_prefix(kind, from)),
                targets@.no_duplicates(),
                rising(targets@),
                forall|t: int|
                    0 <= t < targets@.len() ==> has_edge(store, kind, from, #[trigger] targets@[t]),
                forall|t: int, j: int|
                    0 <= t < targets@.len() && i <= j < entries@.len() ==> key_before(
                        edge_key(kind, from, #[trigger] targets@[t]),
                        #[trigger] key_at(entries@, j),
                    ),
                forall|j: int, to: TypeVertex|
                    0 <= j < i && #[trigger] key_at(entries@, j) == #[trigger] edge_key(
                        kind,
                        from,
                        to,
                    ) ==> targets@.contains(to),
            decreases entries@.len() - i,
        {
            let key = entries[i].0.as_slice();
            assert(key@ == key_at(entries@, i as int));
            if key.len() == 7 {
                match TypeVertex::decode_at(key, 4) {
                    Some(to) => {
                        proof {
                            let prefix = edge_prefix(kind, from);
                            assert(prefix.is_prefix_of(key@));
                            assert(forall|p: int|
                                0 <= p < 4 ==> key@.subrange(0, 4)[p] == prefix[p]);
                            assert(key@[0] == prefix[0] && key@[1] == prefix[1] && key@[2]
                                == prefix[2] && key@[3] == prefix[3]);
                            TypeVertex::lemma_decode_encode(key@[4], key@[5], key@[6]);
                            let bytes = to.spec_bytes();
                            assert(bytes[0] == key@[4] && bytes[1] == key@[5] && bytes[2]
                                == key@[6]);
                            assert(key@ =~= edge_key(kind, from, to));
                            assert forall|t: int| 0 <= t < targets@.len() implies vertex_before(
                                #[trigger] targets@[t],
                                to,
                            ) && targets@[t] != to by {
                                assert(key_before(
                                    edge_key(kind, from, targets@[t]),
                                    key_at(entries@, i as int),
                                ));
                                lemma_edge_keys_rise(kind, from, targets@[t], to);
                            }
                        }
                        let ghost before = targets@;
                        targets.push(to);
                        proof {
                            assert forall|t: int, j: int|
                                0 <= t < targets@.len() && i + 1 <= j < entries@.len()
                                implies key_before(
                                edge_key(kind, from, #[trigger] targets@[t]),
                                #[trigger] key_at(entries@, j),
                            ) by {
                                if t < before.len() {
                                    assert(targets@[t] == before[t]);
                                } else {
                                    assert(key_before(
                                        key_at(entries@, i as int),
                                        key_at(entries@, j),
                                    ));
                                }
                            }
                            assert forall|t: int, u: int|
                                0 <= t < u < targets@.len() implies vertex_before(
                                #[trigger] targets@[t],
                                #[trigger] targets@[u],
                            ) by {
                                assert(targets@[t] == before[t]);
                                if u < before.len() {
                                    assert(targets@[u] == before[u]);
                                }
                            }
                            assert forall|j: int, other: TypeVertex|
                                0 <= j < i + 1 && #[trigger] key_at(entries@, j)
                                    == #[trigger] edge_key(kind, from, other)
                                implies targets@.contains(other) by {
                                if j < i {
                                    assert(before.contains(other));
                                    let t = choose|t: int|
                                        0 <= t < before.len() && before[t] == other;
                                    assert(targets@[t] == other);
                                } else {
                                    lemma_edge_key_decodes(kind, from, other);
                                    lemma_edge_key_decodes(kind, from, to);
                                    assert(targets@[before.len() as int] == other);
                                }
                            }
                        }
                    },
                    None => {
                        proof {
                            assert forall|to: TypeVertex|
                                key_at(entries@, i as int) != #[trigger] edge_key(
                                    kind,
                                    from,
                                    to,
                                ) by {
                                lemma_edge_key_decodes(kind, from, to);
                                to.lemma_encode_decode();
                            }
                        }
                    },
                }
            } else {
                proof {
                    assert forall|to: TypeVertex|
                        key_at(entries@, i as int) != #[trigger] edge_key(kind, from, to) by {
                        lemma_edge_key_decodes(kind, from, to);
                    }
                }
            }
            i += 1;
        }
        proof {
            let expected = edge_targets(store, kind, from);
            assert forall|to: TypeVertex| targets@.to_set().contains(to) <==> expected.contains(
                to,
            ) by {
                if targets@.to_set().contains(to) {
                    let t = choose|t: int| 0 <= t < targets@.len() && targets@[t] == to;
                    assert(has_edge(store, kind, from, targets@[t]));
                }
                if expected.contains(to) {
                    lemma_edge_key_decodes(kind, from, to);
                    let key = edge_key(kind, from, to);
                    assert(store.contains_key(key) && edge_prefix(kind, from).is_prefix_of(key));
                    let j = choose|j: int|
                        0 <= j < entries@.len() && #[trigger] key_at(entries@, j) == key;
                    assert(targets@.contains(to));
                }
            }
            assert(targets@.to_set() =~= expected);
        }
        targets
    }

    /// The types of `kind` that the snapshot holds, each once.
    pub fn get_vertices<S: ReadableSnapshot>(
        snapshot: &S,
        kind: Kind,
    ) -> (vertices: Vec<TypeVertex>)
        ensures
            vertices@.no_duplicates(),
            rising(vertices@),
            forall|vertex: TypeVertex| #[trigger]
                vertices@.contains(vertex) <==> vertex.kind == kind && has_vertex(
                    snapshot.contents(),
                    vertex,
                ),
    {
        let mut prefix: Vec<u8> = Vec::new();
        prefix.push(kind.tag());
        let entries = snapshot.iterate_prefix(prefix.as_slice());
        let ghost store = snapshot.contents();
        let mut vertices: Vec<TypeVertex> = Vec::new();
        let mut i: usize = 0;
        while i < entries.len()
            invariant
                0 <= i <= entries@.len(),
                prefix@ == seq![kind.spec_tag()],
                lists_prefix(entries@, store, prefix@),
                vertices@.no_duplicates(),
                rising(vertices@),
                forall|t: int|
                    0 <= t < vertices@.len() ==> (#[trigger] vertices@[t]).kind == kind
                        && has_vertex(store, vertices@[t]),
                forall|t: int, j: int|
                    0 <= t < vertices@.len() && i <= j < entries@.len() ==> key_before(
                        (#[trigger] vertices@[t]).spec_bytes(),
                        #[trigger] key_at(entries@, j),
                    ),
                forall|j: int, vertex: TypeVertex|
                    0 <= j < i && #[trigger] key_at(entries@, j)
                        == #[trigger] vertex.spec_bytes() ==> vertices@.contains(vertex),
            decreases entries@.len() - i,
        {
            let key = entries[i].0.as_slice();
            assert(key@ == key_at(entries@, i as int));
            match TypeVertex::from_bytes(key) {
                Some(vertex) => {
                    proof {
                        TypeVertex::lemma_decode_encode(key@[0], key@[1], key@[2]);
                        assert(vertex.spec_bytes() =~= key@);
                        assert(prefix@.is_prefix_of(key@));
                        assert(key@.subrange(0, 1)[0] == prefix@[0]);
                        Kind::lemma_from_tag_round_trip(key@[0]);
                        Kind::lemma_tag_round_trip(kind);
                        assert(vertex.kind == kind);
                        assert forall|t: int| 0 <= t < vertices@.len() implies vertex_before(
                            #[trigger] vertices@[t],
                            vertex,
                        ) && vertices@[t] != vertex by {
                            assert(key_before(
                                vertices@[t].spec_bytes(),
                                key_at(entries@, i as int),
                            ));
                            lemma_vertex_keys_rise(vertices@[t], vertex);
                        }
                    }
                    let ghost before = vertices@;
                    vertices.push(vertex);
                    proof {
                        assert forall|t: int, j: int|
                            0 <= t < vertices@.len() && i + 1 <= j < entries@.len()
                            implies key_before(
                            (#[trigger] vertices@[t]).spec_bytes(),
                            #[trigger] key_at(entries@, j),
                        ) by {
                            if t < before.len() {
                                assert(vertices@[t] == before[t]);
                            } else {
                                assert(key_before(key_at(entries@, i as int), key_at(entries@, j)));
                            }
                        }
                        assert forall|t: int, u: int|
                            0 <= t < u < vertices@.len() implies vertex_before(
                            #[trigger] vertices@[t],
                            #[trigger] vertices@[u],
                        ) by {
                            assert(vertices@[t] == before[t]);
                            if u < before.len() {
                                assert(vertices@[u] == before[u]);
                            }
                        }
                        assert forall|j: int, other: TypeVertex|
                            0 <= j < i + 1 && #[trigger] key_at(entries@, j)
                                == #[trigger] other.spec_bytes() implies vertices@.contains(
                            other,
                        ) by {
                            if j < i {
                                assert(before.contains(other));
                                let t = choose|t: int| 0 <= t < before.len() && before[t] == other;
                                assert(vertices@[t] == other);
                            } else {
                                other.lemma_encode_decode();
                                vertex.lemma_encode_decode();
                                assert(vertices@[before.len() as int] == other);
                            }
                        }
                    }
                },
                None => {
                    proof {
                        assert forall|vertex: TypeVertex|
                            key_at(entries@, i as int) != #[trigger] vertex.spec_bytes() by {
                            vertex.lemma_encode_decode();
                        }
                    }
                },
            }
            i += 1;
        }
        proof {
            assert forall|vertex: TypeVertex| #[trigger]
                vertices@.contains(vertex) <==> vertex.kind == kind && has_vertex(
                    store,
                    vertex,
                ) by {
                if vertices@.contains(vertex) {
                    let t = choose|t: int| 0 <= t < vertices@.len() && vertices@[t] == vertex;
                    assert(vertices@[t].kind == kind);
                }
                if vertex.kind == kind && has_vertex(store, vertex) {
                    let key = vertex.spec_bytes();
                    assert(prefix@ =~= key.subrange(0, 1));
                    assert(store.contains_key(key) && prefix@.is_prefix_of(key));
                    let j = choose|j: int|
                        0 <= j < entries@.len() && #[trigger] key_at(entries@, j) == key;
                    assert(vertices@.contains(vertex));
                }
            }
        }
        vertices
    }

    /// The types of `target_kind` that the edges of `kind` lead to from `from`, each once.
    pub fn get_typed_targets<S: ReadableSnapshot>(
        snapshot: &S,
        kind: EdgeKind,
        from: TypeVertex,
        target_kind: Kind,
    ) -> (targets: Vec<TypeVertex>)
        ensures
            lists_rising(
                targets@,
                typed_targets(snapshot.contents(), kind, from, target_kind),
            ),
    {
        let all = Self::get_edge_targets(snapshot, kind, from);
        let ghost store = snapshot.contents();
        let mut targets: Vec<TypeVertex> = Vec::new();
        let mut i: usize = 0;
        while i < all.len()
            invariant
                0 <= i <= all@.len(),
                all@.no_duplicates(),
                rising(all@),
                targets@.no_duplicates(),
                rising(targets@),
                forall|t: int, j: int|
                    0 <= t < targets@.len() && i <= j < all@.len() ==> vertex_before(
                        #[trigger] targets@[t],
                        #[trigger] all@[j],
                    ),
                forall|t: int|
                    0 <= t < targets@.len() ==> (#[trigger] targets@[t]).kind == target_kind
                        && exists|j: int| 0 <= j < i && all@[j] == targets@[t],
                forall|j: int|
                    0 <= j < i && (#[trigger] all@[j]).kind == target_kind ==> targets@.contains(
                        all@[j],
                    ),
            decreases all@.len() - i,
        {
            if all[i].kind == target_kind {
                let ghost before = targets@;
                proof {
                    assert forall|t: int| 0 <= t < before.len() implies before[t] != all@[i as int] by {
                        let j = choose|j: int| 0 <= j < i && all@[j] == before[t];
                    }
                }
                targets.push(all[i]);
                proof {
                    assert forall|t: int, u: int| 0 <= t < u < targets@.len() implies vertex_before(
                        #[trigger] targets@[t],
                        #[trigger] targets@[u],
                    ) by {
                        assert(targets@[t] == before[t]);
                        if u < before.len() {
                            assert(targets@[u] == before[u]);
                        }
                    }
                    assert forall|t: int, j: int|
                        0 <= t < targets@.len() && i + 1 <= j < all@.len() implies vertex_before(
                        #[trigger] targets@[t],
                        #[trigger] all@[j],
                    ) by {
                        if t < before.len() {
                            assert(targets@[t] == before[t]);
                        }
                    }
                    assert forall|t: int| 0 <= t < targets@.len() implies (
                    #[trigger] targets@[t]).kind == target_kind && exists|j: int|
                        0 <= j < i + 1 && all@[j] == targets@[t] by {
                        if t < before.len() {
                            assert(targets@[t] == before[t]);
                            let j = choose|j: int| 0 <= j < i && all@[j] == before[t];
                            assert(all@[j] == targets@[t]);
                        } else {
                            assert(all@[i as int] == targets@[t]);
                        }
                    }
                    assert forall|j: int|
                        0 <= j < i + 1 && (#[trigger] all@[j]).kind
                            == target_kind implies targets@.contains(all@[j]) by {
                        if j < i {
                            assert(before.contains(all@[j]));
                            let t = choose|t: int| 0 <= t < before.len() && before[t] == all@[j];
                            assert(targets@[t] == all@[j]);
                        } else {
                            assert(targets@[before.len() as int] == all@[j]);
                        }
                    }
                }
            }
            i += 1;
        }
        proof {
            let expected = typed_targets(store, kind, from, target_kind);
            assert forall|to: TypeVertex| targets@.to_set().contains(to) <==> expected.contains(
                to,
            ) by {
                if targets@.to_set().contains(to) {
                    let t = choose|t: int| 0 <= t < targets@.len() && targets@[t] == to;
                    let j = choose|j: int| 0 <= j < all@.len() && all@[j] == targets@[t];
                    assert(all@.to_set().contains(to));
                    assert(edge_targets(store, kind, from).contains(to));
                }
                if expected.contains(to) {
                    assert(edge_targets(store, kind, from).contains(to));
                    assert(all@.to_set().contains(to));
                    let j = choose|j: int| 0 <= j < all@.len() && all@[j] == to;
                    assert(targets@.contains(all@[j]));
                }
            }
            assert(targets@.to_set() =~= expected);
        }
        targets
    }

    /// The label recorded for the type.
    pub fn get_label<S: ReadableSnapshot>(snapshot: &S, type_: TypeVertex) -> (label: Result<
        Option<Label>,
        ConceptReadError,
    >)
        ensures
            match label {
                Ok(Some(label)) => label_of(snapshot.contents(), type_) == Some(label@),
                Ok(None) => !has_label(snapshot.contents(), type_),
                Err(error) => error == (ConceptReadError::Encoding {
                    source: EncodingError::MalformedBytes,
                }) && has_label(snapshot.contents(), type_) && !valid_utf8(
                    label_bytes(snapshot.contents(), type_),
                ),
            },
    {
        let key = build_property_type_label(type_);
        match snapshot.get(key.as_slice()) {
            Some(bytes) => match Label::from_bytes(bytes) {
                Some(label) => Ok(Some(label)),
                None => Err(ConceptReadError::Encoding { source: EncodingError::MalformedBytes }),
            },
            None => Ok(None),
        }
    }

    /// The type that the index gives for the label.
    pub fn get_labelled_vertex<S: ReadableSnapshot>(snapshot: &S, label: &Label) -> (vertex:
        Option<TypeVertex>)
        ensures
            vertex == labelled_vertex(snapshot.contents(), label@),
    {
        let key = label.index_key();
        match snapshot.get(key.as_slice()) {
            Some(bytes) => TypeVertex::from_bytes(bytes.as_slice()),
            None => None,
        }
    }

    /// The type of `kind` that the index gives for the label.
    pub fn get_labelled_type<S: ReadableSnapshot>(
        snapshot: &S,
        label: &Label,
        kind: Kind,
    ) -> (vertex: Option<TypeVertex>)
        ensures
            vertex == labelled_type(snapshot.contents(), label@, kind),
    {
        match Self::get_labelled_vertex(snapshot, label) {
            Some(vertex) => if vertex.kind == kind {
                Some(vertex)
            } else {
                None
            },
            None => None,
        }
    }

    /// The root type of `kind`.
    pub fn get_root<S: ReadableSnapshot>(snapshot: &S, kind: Kind) -> (vertex: Option<TypeVertex>)
        ensures
            vertex == root_of(snapshot.contents(), kind),
    {
        Self::get_labelled_type(snapshot, &kind.root_label(), kind)
    }

    /// Whether the type is the root type of its kind.
    pub fn get_is_root<S: ReadableSnapshot>(
        snapshot: &S,
        type_: TypeVertex,
    ) -> (root: Result<bool, ConceptReadError>)
        requires
            has_label(snapshot.contents(), type_),
        ensures
            match root {
                Ok(root) => root == is_root(snapshot.contents(), type_) && label_of(
                    snapshot.contents(),
                    type_,
                ) is Some,
                Err(error) => error == (ConceptReadError::Encoding {
                    source: EncodingError::MalformedBytes,
                }) && !valid_utf8(label_bytes(snapshot.contents(), type_)),
            },
    {
        match Self::get_label(snapshot, type_) {
            Ok(Some(label)) => Ok(label == type_.kind.root_label()),
            Ok(None) => Ok(false),
            Err(error) => Err(error),
        }
    }

    /// The direct supertype of the type.
    pub fn get_supertype_vertex<S: ReadableSnapshot>(
        snapshot: &S,
        subtype: TypeVertex,
    ) -> (supertype: Result<Option<TypeVertex>, ConceptReadError>)
        ensures
            match supertype {
                Ok(Some(supertype)) => supertypes(snapshot.contents(), subtype) == set![supertype],
                Ok(None) => supertypes(snapshot.contents(), subtype) == Set::<TypeVertex>::empty(),
                Err(error) => error == ConceptReadError::AmbiguousSupertype
                    && has_ambiguous_supertype(snapshot.contents(), subtype),
            },
    {
        let found = Self::get_typed_targets(snapshot, EdgeKind::Sub, subtype, subtype.kind);
        let ghost all = supertypes(snapshot.contents(), subtype);
        if found.len() == 0 {
            proof {
                assert forall|s: TypeVertex| !all.contains(s) by {
                    if all.contains(s) {
                        assert(found@.to_set().contains(s));
                        assert(found@.contains(s));
                    }
                }
                assert(all =~= Set::<TypeVertex>::empty());
            }
            Ok(None)
        } else if found.len() == 1 {
            proof {
                assert forall|s: TypeVertex| all.contains(s) <==> s == found@[0] by {
                    if all.contains(s) {
                        assert(found@.to_set().contains(s));
                        assert(found@.contains(s));
                    }
                    if s == found@[0] {
                        assert(found@.to_set().contains(found@[0]));
                    }
                }
                assert(all =~= set![found@[0]]);
            }
            Ok(Some(found[0]))
        } else {
            proof {
                assert(found@.to_set().contains(found@[0]));
                assert(found@.to_set().contains(found@[1]));
                assert(found@[0] != found@[1]);
                assert(all.contains(found@[0]) && all.contains(found@[1]));
            }
            Err(ConceptReadError::AmbiguousSupertype)
        }
    }

    /// The direct subtypes of the type, each once.
    pub fn get_subtypes<S: ReadableSnapshot>(snapshot: &S, type_: TypeVertex) -> (found: Vec<
        TypeVertex,
    >)
        ensures
            lists_rising(found@, subtypes(snapshot.contents(), type_)),
    {
        Self::get_typed_targets(snapshot, EdgeKind::SubReverse, type_, type_.kind)
    }

    /// The supertypes of the type, from the nearest to the root. The type itself is not
    /// among them unless the hierarchy is a cycle.
    pub fn get_supertypes_transitive<S: ReadableSnapshot>(
        snapshot: &S,
        subtype: TypeVertex,
    ) -> (found: Result<Vec<TypeVertex>, ConceptReadError>)
        ensures
            match found {
                Ok(found) => supertype_chain(
                    snapshot.contents(),
                    subtype,
                    HIERARCHY_LIMIT as nat,
                ) == Ok::<Seq<TypeVertex>, ConceptReadError>(found@),
                Err(error) => supertype_chain(snapshot.contents(), subtype, HIERARCHY_LIMIT as nat)
                    == Err::<Seq<TypeVertex>, ConceptReadError>(error),
            },
    {
        let ghost store = snapshot.contents();
        let ghost whole = supertype_chain(store, subtype, HIERARCHY_LIMIT as nat);
        let mut chain: Vec<TypeVertex> = Vec::new();
        let mut current = subtype;
        let mut fuel: usize = HIERARCHY_LIMIT;
        assert(chain@ + Seq::<TypeVertex>::empty() =~= chain@);
        assert(forall|rest: Seq<TypeVertex>| Seq::<TypeVertex>::empty() + rest =~= rest);
        loop
            invariant
                store == snapshot.contents(),
                fuel <= HIERARCHY_LIMIT,
                whole == supertype_chain(store, subtype, HIERARCHY_LIMIT as nat),
                whole == chain_after(chain@, supertype_chain(store, current, fuel as nat)),
            decreases fuel,
        {
            match Self::get_supertype_vertex(snapshot, current) {
                Err(error) => {
                    return Err(error);
                },
                Ok(None) => {
                    proof {
                        lemma_no_supertype(store, current);
                        assert(chain@ + Seq::<TypeVertex>::empty() =~= chain@);
                    }
                    return Ok(chain);
                },
                Ok(Some(supertype)) => {
                    proof {
                        lemma_single_supertype(store, current, supertype);
                    }
                    if fuel == 0 {
                        return Err(ConceptReadError::HierarchyTooDeep);
                    }
                    let ghost before = chain@;
                    chain.push(supertype);
                    proof {
                        let rest = supertype_chain(store, supertype, (fuel - 1) as nat);
                        if let Ok(rest) = rest {
                            assert(before + (seq![supertype] + rest) =~= chain@ + rest);
                        }
                    }
                    current = supertype;
                    fuel -= 1;
                },
            }
        }
    }

    /// Whether `vertex` is among `vertices`.
    pub fn contains_vertex(vertices: &Vec<TypeVertex>, vertex: TypeVertex) -> (found: bool)
        ensures
            found == vertices@.contains(vertex),
    {
        let mut i: usize = 0;
        while i < vertices.len()
            invariant
                0 <= i <= vertices@.len(),
                forall|j: int| 0 <= j < i ==> vertices@[j] != vertex,
            decreases vertices@.len() - i,
        {
            if vertices[i] == vertex {
                return true;
            }
            i += 1;
        }
        false
    }

    /// Adds to `into` those of `from` that it does not hold yet.
    pub fn add_all(into: &mut Vec<TypeVertex>, from: &Vec<TypeVertex>)
        requires
            old(into)@.no_duplicates(),
        ensures
            final(into)@.no_duplicates(),
            final(into)@.to_set() == old(into)@.to_set().union(from@.to_set()),
    {
        let ghost start = into@;
        let mut i: usize = 0;
        while i < from.len()
            invariant
                0 <= i <= from@.len(),
                into@.no_duplicates(),
                forall|t: int|
                    0 <= t < into@.len() ==> start.contains(#[trigger] into@[t]) || exists|j: int|
                        0 <= j < i && from@[j] == into@[t],
                forall|t: int| 0 <= t < start.len() ==> into@.contains(#[trigger] start[t]),
                forall|j: int| 0 <= j < i ==> into@.contains(#[trigger] from@[j]),
            decreases from@.len() - i,
        {
            let vertex = from[i];
            if !Self::contains_vertex(into, vertex) {
                let ghost before = into@;
                into.push(vertex);
                proof {
                    let last = before.len() as int;
                    assert(into@[last] == vertex);
                    assert forall|t: int| 0 <= t < last implies into@[t] == before[t] by {}
                    assert forall|v: TypeVertex| before.contains(v) implies into@.contains(v) by {
                        let t = choose|t: int| 0 <= t < before.len() && before[t] == v;
                        assert(into@[t] == v);
                    }
                    assert forall|t: int| 0 <= t < into@.len() implies start.contains(
                        #[trigger] into@[t],
                    ) || exists|j: int| 0 <= j < i + 1 && from@[j] == into@[t] by {
                        if t < last {
                            assert(into@[t] == before[t]);
                            if !start.contains(before[t]) {
                                let j = choose|j: int| 0 <= j < i && from@[j] == before[t];
                                assert(0 <= j < i + 1 && from@[j] == into@[t]);
                            }
                        } else {
                            assert(from@[i as int] == into@[t]);
                        }
                    }
                    assert forall|j: int| 0 <= j < i + 1 implies into@.contains(
                        #[trigger] from@[j],
                    ) by {
                        if j < i {
                            assert(before.contains(from@[j]));
                        }
                    }
                }
            }
            i += 1;
        }
        proof {
            let expected = start.to_set().union(from@.to_set());
            assert forall|v: TypeVertex| into@.to_set().contains(v) <==> expected.contains(v) by {
                if into@.to_set().contains(v) {
                    let t = choose|t: int| 0 <= t < into@.len() && into@[t] == v;
                    if !start.contains(into@[t]) {
                        let j = choose|j: int| 0 <= j < from@.len() && from@[j] == into@[t];
                        assert(from@.contains(v));
                    }
                }
                if start.to_set().contains(v) {
                    let t = choose|t: int| 0 <= t < start.len() && start[t] == v;
                    assert(into@.contains(start[t]));
                }
                if from@.to_set().contains(v) {
                    let j = choose|j: int| 0 <= j < from@.len() && from@[j] == v;
                    assert(into@.contains(from@[j]));
                }
            }
            assert(into@.to_set() =~= expected);
        }
    }

    /// Whether `first` comes before `second` in the order of types.
    pub fn comes_before(first: TypeVertex, second: TypeVertex) -> (before: bool)
        ensures
            before == vertex_before(first, second),
    {
        proof {
            first.kind.lemma_tag_round_trip();
            second.kind.lemma_tag_round_trip();
        }
        let left = first.kind.tag();
        let right = second.kind.tag();
        left < right || (left == right && first.id < second.id)
    }

    /// Puts the vertex in its place among vertices that rise, unless it is among them
    /// already.
    pub fn insert_rising(into: &mut Vec<TypeVertex>, vertex: TypeVertex)
        requires
            rising(old(into)@),
        ensures
            rising(final(into)@),
            final(into)@.to_set() == old(into)@.to_set().insert(vertex),
    {
        let ghost before = into@;
        let mut at: usize = 0;
        while at < into.len()
            invariant
                0 <= at <= into@.len(),
                into@ == before,
                forall|t: int| 0 <= t < at ==> vertex_before(#[trigger] into@[t], vertex),
            ensures
                0 <= at <= into@.len(),
                into@ == before,
                forall|t: int| 0 <= t < at ==> vertex_before(#[trigger] into@[t], vertex),
                at < into@.len() ==> !vertex_before(into@[at as int], vertex),
            decreases into@.len() - at,
        {
            if !Self::comes_before(into[at], vertex) {
                break ;
            }
            at += 1;
        }
        if at < into.len() && into[at] == vertex {
            proof {
                assert(before.contains(vertex));
                assert(before.to_set().insert(vertex) =~= before.to_set());
            }
            return ;
        }
        into.insert(at, vertex);
        proof {
            let place = at as int;
            assert forall|t: int, u: int| 0 <= t < u < into@.len() implies vertex_before(
                #[trigger] into@[t],
                #[trigger] into@[u],
            ) by {
                if u == place {
                    assert(into@[t] == before[t]);
                } else if t == place {
                    assert(into@[u] == before[u - 1]);
                    lemma_vertex_order(vertex, before[place], before[u - 1]);
                    if u - 1 > place {
                        assert(vertex_before(before[place], before[u - 1]));
                    }
                } else {
                    let old_t = if t < place {
                        t
                    } else {
                        t - 1
                    };
                    let old_u = if u < place {
                        u
                    } else {
                        u - 1
                    };
                    assert(into@[t] == before[old_t]);
                    assert(into@[u] == before[old_u]);
                }
            }
            assert forall|other: TypeVertex|
                into@.to_set().contains(other) <==> before.to_set().insert(vertex).contains(
                    other,
                ) by {
                if into@.to_set().contains(other) {
                    let t = choose|t: int| 0 <= t < into@.len() && into@[t] == other;
                    if t < place {
                        assert(before[t] == other);
                        assert(before.contains(other));
                    } else if t > place {
                        assert(before[t - 1] == other);
                        assert(before.contains(other));
                    }
                }
                if before.contains(other) {
                    let t = choose|t: int| 0 <= t < before.len() && before[t] == other;
                    if t < place {
                        assert(into@[t] == other);
                    } else {
                        assert(into@[t + 1] == other);
                    }
                }
                if other == vertex {
                    assert(into@[place] == other);
                }
            }
            assert(into@.to_set() =~= before.to_set().insert(vertex));
        }
    }

    /// Puts every one of `from` in its place among vertices that rise.
    pub fn add_all_rising(into: &mut Vec<TypeVertex>, from: &Vec<TypeVertex>)
        requires
            rising(old(into)@),
        ensures
            rising(final(into)@),
            final(into)@.to_set() == old(into)@.to_set().union(from@.to_set()),
    {
        let ghost start = into@.to_set();
        let mut i: usize = 0;
        assert(from@.subrange(0, 0).to_set() =~= Set::<TypeVertex>::empty());
        assert(start.union(Set::<TypeVertex>::empty()) =~= start);
        while i < from.len()
            invariant
                0 <= i <= from@.len(),
                rising(into@),
                into@.to_set() == start.union(from@.subrange(0, i as int).to_set()),
            decreases from@.len() - i,
        {
            Self::insert_rising(into, from[i]);
            proof {
                let done = from@.subrange(0, i as int);
                let next = from@.subrange(0, i + 1);
                assert(next =~= done.push(from@[i as int]));
                done.lemma_push_to_set_commute(from@[i as int]);
                assert(into@.to_set() =~= start.union(next.to_set()));
            }
            i += 1;
        }
        assert(from@.subrange(0, from@.len() as int) =~= from@);
    }

    /// All subtypes of the type, direct or not, in rising order. The type itself is not among
    /// them unless the hierarchy is a cycle.
    pub fn get_subtypes_transitive<S: ReadableSnapshot>(
        snapshot: &S,
        type_: TypeVertex,
    ) -> (found: Result<Vec<TypeVertex>, ConceptReadError>)
        ensures
            match found {
                Ok(found) => lists_rising(
                    found@,
                    subtypes_transitive(snapshot.contents(), type_),
                ) && subtypes_at(snapshot.contents(), type_, HIERARCHY_LIMIT as nat)
                    == Set::<TypeVertex>::empty(),
                Err(error) => error == ConceptReadError::HierarchyTooDeep && subtypes_at(
                    snapshot.contents(),
                    type_,
                    HIERARCHY_LIMIT as nat,
                ) != Set::<TypeVertex>::empty(),
            },
    {
        let ghost store = snapshot.contents();
        let mut found: Vec<TypeVertex> = Vec::new();
        let mut frontier = Self::get_subtypes(snapshot, type_);
        let mut depth: usize = 0;
        assert(found@.to_set() =~= subtypes_above(store, type_, 0));
        while frontier.len() > 0
            invariant
                store == snapshot.contents(),
                depth <= HIERARCHY_LIMIT,
                rising(found@),
                found@.to_set() == subtypes_above(store, type_, depth as nat),
                frontier@.to_set() == subtypes_at(store, type_, depth as nat),
            decreases HIERARCHY_LIMIT - depth,
        {
            if depth == HIERARCHY_LIMIT {
                proof {
                    assert(frontier@.to_set().contains(frontier@[0]));
                }
                return Err(ConceptReadError::HierarchyTooDeep);
            }
            let ghost above = found@.to_set();
            Self::add_all_rising(&mut found, &frontier);
            proof {
                let next = subtypes_above(store, type_, (depth + 1) as nat);
                assert forall|v: TypeVertex| found@.to_set().contains(v) <==> next.contains(v) by {
                    if above.contains(v) {
                        let at = choose|at: nat|
                            at < depth && #[trigger] subtypes_at(store, type_, at).contains(v);
                        assert(at < depth + 1);
                    }
                    if next.contains(v) {
                        let at = choose|at: nat|
                            at < depth + 1 && #[trigger] subtypes_at(store, type_, at).contains(v);
                        if at < depth {
                            assert(subtypes_above(store, type_, depth as nat).contains(v));
                        }
                    }
                }
                assert(found@.to_set() =~= next);
            }
            let mut below: Vec<TypeVertex> = Vec::new();
            let mut i: usize = 0;
            while i < frontier.len()
                invariant
                    store == snapshot.contents(),
                    0 <= i <= frontier@.len(),
                    below@.no_duplicates(),
                    forall|v: TypeVertex|
                        below@.to_set().contains(v) <==> exists|j: int|
                            0 <= j < i && #[trigger] subtypes(store, frontier@[j]).contains(v),
                decreases frontier@.len() - i,
            {
                let children = Self::get_subtypes(snapshot, frontier[i]);
                let ghost before = below@.to_set();
                Self::add_all(&mut below, &children);
                proof {
                    assert forall|v: TypeVertex|
                        below@.to_set().contains(v) <==> exists|j: int|
                            0 <= j < i + 1 && #[trigger] subtypes(store, frontier@[j]).contains(
                                v,
                            ) by {
                        if before.contains(v) {
                            let j = choose|j: int|
                                0 <= j < i && #[trigger] subtypes(store, frontier@[j]).contains(v);
                            assert(0 <= j < i + 1);
                        }
                        if children@.to_set().contains(v) {
                            assert(subtypes(store, frontier@[i as int]).contains(v));
                        }
                        if exists|j: int|
                            0 <= j < i + 1 && #[trigger] subtypes(store, frontier@[j]).contains(v) {
                            let j = choose|j: int|
                                0 <= j < i + 1 && #[trigger] subtypes(
                                    store,
                                    frontier@[j],
                                ).contains(v);
                            if j < i {
                                assert(before.contains(v));
                            } else {
                                assert(children@.to_set().contains(v));
                            }
                        }
                    }
                }
                i += 1;
            }
            proof {
                let next = subtypes_at(store, type_, (depth + 1) as nat);
                assert forall|v: TypeVertex| below@.to_set().contains(v) <==> next.contains(v) by {
                    if below@.to_set().contains(v) {
                        let j = choose|j: int|
                            0 <= j < frontier@.len() && #[trigger] subtypes(
                                store,
                                frontier@[j],
                            ).contains(v);
                        assert(frontier@.to_set().contains(frontier@[j]));
                    }
                    if next.contains(v) {
                        let above = choose|above: TypeVertex|
                            subtypes_at(store, type_, depth as nat).contains(above)
                                && #[trigger] subtypes(store, above).contains(v);
                        assert(frontier@.to_set().contains(above));
                        let j = choose|j: int| 0 <= j < frontier@.len() && frontier@[j] == above;
                        assert(subtypes(store, frontier@[j]).contains(v));
                    }
                }
                assert(below@.to_set() =~= next);
            }
            frontier = below;
            depth += 1;
        }
        proof {
            assert(frontier@.to_set() =~= Set::<TypeVertex>::empty()) by {
                assert forall|v: TypeVertex| !frontier@.to_set().contains(v) by {
                    if frontier@.to_set().contains(v) {
                        assert(frontier@.contains(v));
                    }
                }
            }
            lemma_subtypes_end(store, type_, depth as nat, HIERARCHY_LIMIT as nat);
            let all = subtypes_transitive(store, type_);
            assert forall|v: TypeVertex| found@.to_set().contains(v) <==> all.contains(v) by {
                if found@.to_set().contains(v) {
                    let at = choose|at: nat|
                        at < depth && #[trigger] subtypes_at(store, type_, at).contains(v);
                }
                if all.contains(v) {
                    let at = choose|at: nat| #[trigger] subtypes_at(store, type_, at).contains(v);
                    if at >= depth {
                        lemma_subtypes_end(store, type_, depth as nat, at);
                    }
                    assert(subtypes_above(store, type_, depth as nat).contains(v));
                }
            }
            assert(found@.to_set() =~= all);
            lemma_rising_is_distinct(found@);
        }
        Ok(found)
    }

    /// The attribute types that the type owns, each once.
    pub fn get_owns<S: ReadableSnapshot>(snapshot: &S, owner: TypeVertex) -> (found: Vec<
        TypeVertex,
    >)
        ensures
            lists_rising(
                found@,
                typed_targets(snapshot.contents(), EdgeKind::Owns, owner, Kind::Attribute),
            ),
    {
        Self::get_typed_targets(snapshot, EdgeKind::Owns, owner, Kind::Attribute)
    }

    /// The role types that the type plays, each once.
    pub fn get_plays<S: ReadableSnapshot>(snapshot: &S, player: TypeVertex) -> (found: Vec<
        TypeVertex,
    >)
        ensures
            lists_rising(
                found@,
                typed_targets(snapshot.contents(), EdgeKind::Plays, player, Kind::Role),
            ),
    {
        Self::get_typed_targets(snapshot, EdgeKind::Plays, player, Kind::Role)
    }

    /// The role types that the relation type defines, each once.
    pub fn get_relates<S: ReadableSnapshot>(snapshot: &S, relation: TypeVertex) -> (found: Vec<
        TypeVertex,
    >)
        ensures
            lists_rising(
                found@,
                typed_targets(snapshot.contents(), EdgeKind::Relates, relation, Kind::Role),
            ),
    {
        Self::get_typed_targets(snapshot, EdgeKind::Relates, relation, Kind::Role)
    }

    /// The value type recorded for the attribute type. Bytes that do not spell a built-in
    /// value type are an error.
    pub fn get_value_type<S: ReadableSnapshot>(
        snapshot: &S,
        attribute: TypeVertex,
    ) -> (value_type: Result<Option<ValueType>, ConceptReadError>)
        ensures
            match value_type {
                Ok(Some(value_type)) => value_type_of(snapshot.contents(), attribute) == Some(
                    Some(value_type),
                ),
                Ok(None) => value_type_of(snapshot.contents(), attribute) is None,
                Err(error) => error == (ConceptReadError::Encoding {
                    source: EncodingError::MalformedBytes,
                }) && value_type_of(snapshot.contents(), attribute) == Some(
                    None::<ValueType>,
                ),
            },
    {
        let key = build_property_type_value_type(attribute);
        match snapshot.get(key.as_slice()) {
            Some(bytes) => {
                let decoded = match ValueTypeID::from_bytes(bytes.as_slice()) {
                    Some(id) => ValueType::from_value_type_id(id),
                    None => None,
                };
                match decoded {
                    Some(value_type) => Ok(Some(value_type)),
                    None => Err(
                        ConceptReadError::Encoding { source: EncodingError::MalformedBytes },
                    ),
                }
            },
            None => Ok(None),
        }
    }

    /// The annotations of the type, in the order abstract, distinct, independent,
    /// cardinality. Cardinality bytes that spell no cardinality are an error.
    pub fn get_type_annotations<S: ReadableSnapshot>(
        snapshot: &S,
        type_: TypeVertex,
    ) -> (annotations: Result<Vec<Annotation>, ConceptReadError>)
        ensures
            match annotations {
                Ok(annotations) => annotations@ == annotations_of(snapshot.contents(), type_)
                    && cardinality_of(snapshot.contents(), type_) != Some(
                    None::<AnnotationCardinality>,
                ),
                Err(error) => error == (ConceptReadError::Encoding {
                    source: EncodingError::MalformedBytes,
                }) && cardinality_of(snapshot.contents(), type_) == Some(
                    None::<AnnotationCardinality>,
                ),
            },
    {
        let mut annotations: Vec<Annotation> = Vec::new();
        if snapshot.get(build_property_type_annotation_abstract(type_).as_slice()).is_some() {
            annotations.push(Annotation::Abstract(AnnotationAbstract::new()));
        }
        if snapshot.get(build_property_type_annotation_distinct(type_).as_slice()).is_some() {
            annotations.push(Annotation::Distinct(AnnotationDistinct::new()));
        }
        if snapshot.get(build_property_type_annotation_independent(type_).as_slice()).is_some() {
            annotations.push(Annotation::Independent(AnnotationIndependent::new()));
        }
        match snapshot.get(build_property_type_annotation_cardinality(type_).as_slice()) {
            Some(bytes) => match deserialise_annotation_cardinality(bytes.as_slice()) {
                Some(cardinality) => annotations.push(Annotation::Cardinality(cardinality)),
                None => {
                    return Err(
                        ConceptReadError::Encoding { source: EncodingError::MalformedBytes },
                    );
                },
            },
            None => {},
        }
        Ok(annotations)
    }

    /// The annotations of the relationship, in the order distinct, cardinality. Cardinality
    /// bytes that spell no cardinality are an error.
    pub fn get_type_edge_annotations<S: ReadableSnapshot>(
        snapshot: &S,
        edge: TypeEdge,
    ) -> (annotations: Result<Vec<Annotation>, ConceptReadError>)
        ensures
            match annotations {
                Ok(annotations) => annotations@ == edge_annotations_of(snapshot.contents(), edge)
                    && edge_cardinality_of(snapshot.contents(), edge) != Some(
                    None::<AnnotationCardinality>,
                ),
                Err(error) => error == (ConceptReadError::Encoding {
                    source: EncodingError::MalformedBytes,
                }) && edge_cardinality_of(snapshot.contents(), edge) == Some(
                    None::<AnnotationCardinality>,
                ),
            },
    {
        let mut annotations: Vec<Annotation> = Vec::new();
        if snapshot.get(build_property_type_edge_annotation_distinct(edge).as_slice()).is_some() {
            annotations.push(Annotation::Distinct(AnnotationDistinct::new()));
        }
        match snapshot.get(build_property_type_edge_annotation_cardinality(edge).as_slice()) {
            Some(bytes) => match deserialise_annotation_cardinality(bytes.as_slice()) {
                Some(cardinality) => annotations.push(Annotation::Cardinality(cardinality)),
                None => {
                    return Err(
                        ConceptReadError::Encoding { source: EncodingError::MalformedBytes },
                    );
                },
            },
            None => {},
        }
        Ok(annotations)
    }

    /// The order mode recorded for the role type. A role type without a well-formed order
    /// mode is an error.
    pub fn get_type_ordering<S: ReadableSnapshot>(snapshot: &S, role: TypeVertex) -> (mode:
        Result<OrderMode, ConceptReadError>)
        ensures
            match mode {
                Ok(mode) => order_mode_of(snapshot.contents(), role) == Some(Some(mode)),
                Err(error) => error == (ConceptReadError::Encoding {
                    source: EncodingError::MalformedBytes,
                }) && !(order_mode_of(snapshot.contents(), role) matches Some(Some(_))),
            },
    {
        let decoded = match snapshot.get(build_property_type_ordering(role).as_slice()) {
            Some(bytes) => deserialise_ordering(bytes.as_slice()),
            None => None,
        };
        match decoded {
            Some(mode) => Ok(mode),
            None => Err(ConceptReadError::Encoding { source: EncodingError::MalformedBytes }),
        }
    }

    /// The order mode recorded for the relationship. A relationship without a well-formed
    /// order mode is an error.
    pub fn get_type_edge_ordering<S: ReadableSnapshot>(snapshot: &S, edge: TypeEdge) -> (mode:
        Result<OrderMode, ConceptReadError>)
        ensures
            match mode {
                Ok(mode) => edge_order_mode_of(snapshot.contents(), edge) == Some(Some(mode)),
                Err(error) => error == (ConceptReadError::Encoding {
                    source: EncodingError::MalformedBytes,
                }) && !(edge_order_mode_of(snapshot.contents(), edge) matches Some(Some(_))),
            },
    {
        let decoded = match snapshot.get(build_property_type_edge_ordering(edge).as_slice()) {
            Some(bytes) => deserialise_ordering(bytes.as_slice()),
            None => None,
        };
        match decoded {
            Some(mode) => Ok(mode),
            None => Err(ConceptReadError::Encoding { source: EncodingError::MalformedBytes }),
        }
    }
}

} // verus!
