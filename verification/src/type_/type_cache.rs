use crate::encoding::edge::{EdgeKind, TypeEdge};
use crate::encoding::kind::Kind;
use crate::encoding::label::{
    label_index_key, lemma_label_index_key_decodes, Label, LABEL_INDEX_TAG,
};
use crate::encoding::value_type::{value_type_of_id, ValueTypeID};
use crate::encoding::vertex::TypeVertex;
use crate::error::{ConceptReadError, EncodingError};
use crate::snapshot::{key_at, lists_prefix, value_at, ReadableSnapshot, Store};
use crate::type_::annotation::{Annotation, AnnotationCardinality, OrderMode};
use crate::type_::schema::{
    annotations_of, cardinality_of, edge_annotations_of, edge_cardinality_of, edge_order_mode_of,
    has_edge, has_vertex, is_root, label_of, labelled_vertex, lists_rising, order_mode_of, subtypes,
    subtypes_at, subtypes_transitive, supertype_chain, supertype_is, supertypes, typed_targets,
    value_type_of, HIERARCHY_LIMIT,
};
use crate::type_::type_decoder::TypeDecoder;
use std::collections::HashMap;
use vstd::hash_map::StringHashMap;
use vstd::prelude::*;
use vstd::slice::{slice_subrange, slice_to_vec};
use vstd::std_specs::hash::group_hash_axioms;

verus! {

broadcast use group_hash_axioms;

/// What is known of one ownership: the attribute type, the order mode and the annotations.
pub struct OwnsEntry {
    pub attribute: TypeVertex,
    pub order_mode: OrderMode,
    pub annotations: Vec<Annotation>,
}

/// What is known of one type.
pub struct TypeEntry {
    pub vertex: TypeVertex,
    pub label: Label,
    pub is_root: bool,
    pub supertype: Option<TypeVertex>,
    pub supertypes: Vec<TypeVertex>,
    pub subtypes: Vec<TypeVertex>,
    pub subtypes_transitive: Vec<TypeVertex>,
    pub annotations: Vec<Annotation>,
    pub owns: Vec<OwnsEntry>,
    pub plays: Vec<TypeVertex>,
    pub relates: Vec<TypeVertex>,
    pub value_type: Option<ValueTypeID>,
    pub order_mode: Option<OrderMode>,
}

/// Whether `owns` says of the ownership of its attribute by `owner` what `store` holds.
pub open spec fn owns_reflects(owns: OwnsEntry, store: Store, owner: TypeVertex) -> bool {
    let edge = TypeEdge { kind: EdgeKind::Owns, from: owner, to: owns.attribute };
    &&& edge_order_mode_of(store, edge) == Some(Some(owns.order_mode))
    &&& owns.annotations@ == edge_annotations_of(store, edge)
    &&& edge_cardinality_of(store, edge) != Some(None::<AnnotationCardinality>)
}

/// Whether the order mode and the annotations of the ownership can be read.
pub open spec fn ownership_readable(
    store: Store,
    owner: TypeVertex,
    attribute: TypeVertex,
) -> bool {
    let edge = TypeEdge { kind: EdgeKind::Owns, from: owner, to: attribute };
    &&& edge_order_mode_of(store, edge) matches Some(Some(_))
    &&& edge_cardinality_of(store, edge) != Some(None::<AnnotationCardinality>)
}

/// The attribute types of the ownerships.
pub open spec fn owned_attributes(owns: Seq<OwnsEntry>) -> Seq<TypeVertex> {
    Seq::new(owns.len(), |i: int| owns[i].attribute)
}

/// Whether `value_type` says what value type `store` records for the type.
pub open spec fn value_type_is(
    store: Store,
    vertex: TypeVertex,
    value_type: Option<ValueTypeID>,
) -> bool {
    match value_type {
        Some(id) => value_type_of_id(id) is Some && value_type_of(store, vertex) == Some(
            value_type_of_id(id),
        ),
        None => value_type_of(store, vertex) is None,
    }
}

/// Whether `entry` says of its type what `store` holds.
pub open spec fn entry_reflects(entry: TypeEntry, store: Store) -> bool {
    let vertex = entry.vertex;
    &&& label_of(store, vertex) == Some(entry.label@)
    &&& entry.is_root == is_root(store, vertex)
    &&& supertype_is(store, vertex, entry.supertype)
    &&& supertype_chain(store, vertex, HIERARCHY_LIMIT as nat) == Ok::<
        Seq<TypeVertex>,
        ConceptReadError,
    >(entry.supertypes@)
    &&& lists_rising(entry.subtypes@, subtypes(store, vertex))
    &&& lists_rising(entry.subtypes_transitive@, subtypes_transitive(store, vertex))
    &&& subtypes_at(store, vertex, HIERARCHY_LIMIT as nat) == Set::<TypeVertex>::empty()
    &&& entry.annotations@ == annotations_of(store, vertex)
    &&& cardinality_of(store, vertex) != Some(None::<AnnotationCardinality>)
    &&& lists_rising(
        owned_attributes(entry.owns@),
        typed_targets(store, EdgeKind::Owns, vertex, Kind::Attribute),
    )
    &&& forall|i: int|
        0 <= i < entry.owns@.len() ==> owns_reflects(#[trigger] entry.owns@[i], store, vertex)
    &&& lists_rising(entry.plays@, typed_targets(store, EdgeKind::Plays, vertex, Kind::Role))
    &&& lists_rising(entry.relates@, typed_targets(store, EdgeKind::Relates, vertex, Kind::Role))
    &&& value_type_is(store, vertex, entry.value_type)
    &&& (vertex.kind == Kind::Role ==> entry.order_mode is Some && order_mode_of(store, vertex)
        == Some(entry.order_mode))
}

/// Whether every fact about the type can be read from `store`.
pub open spec fn readable(store: Store, vertex: TypeVertex) -> bool {
    exists|entry: TypeEntry| entry.vertex == vertex && #[trigger] entry_reflects(entry, store)
}

/// Whether every fact about every type can be read from `store`.
pub open spec fn cacheable(store: Store) -> bool {
    forall|vertex: TypeVertex| #[trigger] has_vertex(store, vertex) ==> readable(store, vertex)
}

impl TypeEntry {
    /// Reads what the owner's ownerships of `attributes` are like.
    fn read_owns<S: ReadableSnapshot>(
        snapshot: &S,
        owner: TypeVertex,
        attributes: &Vec<TypeVertex>,
    ) -> (owns: Result<Vec<OwnsEntry>, ConceptReadError>)
        ensures
            match owns {
                Ok(owns) => owned_attributes(owns@) == attributes@ && forall|i: int|
                    0 <= i < owns@.len() ==> owns_reflects(
                        #[trigger] owns@[i],
                        snapshot.contents(),
                        owner,
                    ),
                Err(_) => exists|i: int|
                    0 <= i < attributes@.len() && !ownership_readable(
                        snapshot.contents(),
                        owner,
                        #[trigger] attributes@[i],
                    ),
            },
    {
        let ghost store = snapshot.contents();
        let mut owns: Vec<OwnsEntry> = Vec::new();
        let mut i: usize = 0;
        while i < attributes.len()
            invariant
                0 <= i <= attributes@.len(),
                store == snapshot.contents(),
                owns@.len() == i,
                forall|t: int|
                    0 <= t < i ==> (#[trigger] owns@[t]).attribute == attributes@[t]
                        && owns_reflects(owns@[t], store, owner),
            decreases attributes@.len() - i,
        {
            let attribute = attributes[i];
            let edge = TypeEdge::new(EdgeKind::Owns, owner, attribute);
            let order_mode = match TypeDecoder::get_type_edge_ordering(snapshot, edge) {
                Ok(order_mode) => order_mode,
                Err(error) => {
                    return Err(error);
                },
            };
            let annotations = match TypeDecoder::get_type_edge_annotations(snapshot, edge) {
                Ok(annotations) => annotations,
                Err(error) => {
                    return Err(error);
                },
            };
            owns.push(OwnsEntry { attribute, order_mode, annotations });
            i += 1;
        }
        assert(owned_attributes(owns@) =~= attributes@);
        Ok(owns)
    }

    /// Reads every fact about the type.
    pub fn read<S: ReadableSnapshot>(
        snapshot: &S,
        vertex: TypeVertex,
    ) -> (entry: Result<TypeEntry, ConceptReadError>)
        ensures
            match entry {
                Ok(entry) => entry.vertex == vertex && entry_reflects(entry, snapshot.contents()),
                Err(_) => !readable(snapshot.contents(), vertex),
            },
    {
        let ghost store = snapshot.contents();
        let label = match TypeDecoder::get_label(snapshot, vertex) {
            Ok(Some(label)) => label,
            Ok(None) => {
                return Err(
                    ConceptReadError::Encoding {
                        source: EncodingError::MalformedBytes,
                    },
                );
            },
            Err(error) => {
                return Err(error);
            },
        };
        let is_root = label == vertex.kind.root_label();
        let supertype = match TypeDecoder::get_supertype_vertex(snapshot, vertex) {
            Ok(supertype) => supertype,
            Err(error) => {
                proof {
                    assert forall|entry: TypeEntry| entry.vertex == vertex implies !entry_reflects(
                        entry,
                        store,
                    ) by {
                        if entry_reflects(entry, store) {
                            let (a, b) = choose|a: TypeVertex, b: TypeVertex|
                                a != b && #[trigger] supertypes(
                                    store,
                                    vertex,
                                ).contains(a) && #[trigger] supertypes(
                                    store,
                                    vertex,
                                ).contains(b);
                            assert(false);
                        }
                    }
                }
                return Err(error);
            },
        };
        let supertypes = match TypeDecoder::get_supertypes_transitive(snapshot, vertex) {
            Ok(supertypes) => supertypes,
            Err(error) => {
                return Err(error);
            },
        };
        let subtypes = TypeDecoder::get_subtypes(snapshot, vertex);
        let subtypes_transitive = match TypeDecoder::get_subtypes_transitive(snapshot, vertex) {
            Ok(subtypes_transitive) => subtypes_transitive,
            Err(error) => {
                return Err(error);
            },
        };
        let annotations = match TypeDecoder::get_type_annotations(snapshot, vertex) {
            Ok(annotations) => annotations,
            Err(error) => {
                return Err(error);
            },
        };
        let attributes = TypeDecoder::get_owns(snapshot, vertex);
        let owns = match Self::read_owns(snapshot, vertex, &attributes) {
            Ok(owns) => owns,
            Err(error) => {
                proof {
                    let i = choose|i: int|
                        0 <= i < attributes@.len() && !ownership_readable(
                            store,
                            vertex,
                            #[trigger] attributes@[i],
                        );
                    assert forall|entry: TypeEntry| entry.vertex == vertex implies !entry_reflects(
                        entry,
                        store,
                    ) by {
                        if entry_reflects(entry, store) {
                            let listed = owned_attributes(entry.owns@);
                            assert(attributes@.to_set().contains(attributes@[i]));
                            assert(listed.to_set().contains(attributes@[i]));
                            let t = choose|t: int|
                                0 <= t < listed.len() && listed[t] == attributes@[i];
                            assert(owns_reflects(entry.owns@[t], store, vertex));
                            assert(false);
                        }
                    }
                }
                return Err(error);
            },
        };
        let plays = TypeDecoder::get_plays(snapshot, vertex);
        let relates = TypeDecoder::get_relates(snapshot, vertex);
        let value_type = match TypeDecoder::get_value_type(snapshot, vertex) {
            Ok(Some(value_type)) => Some(value_type.value_type_id()),
            Ok(None) => None,
            Err(error) => {
                return Err(error);
            },
        };
        let order_mode = match vertex.kind {
            Kind::Role => match TypeDecoder::get_type_ordering(snapshot, vertex) {
                Ok(order_mode) => Some(order_mode),
                Err(error) => {
                    return Err(error);
                },
            },
            _ => None,
        };
        Ok(
            TypeEntry {
                vertex,
                label,
                is_root,
                supertype,
                supertypes,
                subtypes,
                subtypes_transitive,
                annotations,
                owns,
                plays,
                relates,
                value_type,
                order_mode,
            },
        )
    }
}

/// Whether `entries` say of every type in `store` what `store` holds, and `index` says where.
pub open spec fn entries_reflect(
    entries: Seq<TypeEntry>,
    index: Map<u32, usize>,
    store: Store,
) -> bool {
    &&& forall|i: int|
        0 <= i < entries.len() ==> {
            &&& entry_reflects(#[trigger] entries[i], store)
            &&& index.contains_key(entries[i].vertex.spec_code())
            &&& index[entries[i].vertex.spec_code()] == i
        }
    &&& forall|vertex: TypeVertex| #[trigger]
        has_vertex(store, vertex) ==> exists|i: int|
            0 <= i < entries.len() && (#[trigger] entries[i]).vertex == vertex
}

/// Whether `labels` says of every label what the index of `store` holds for it.
pub open spec fn labels_reflect(labels: Map<Seq<char>, Option<TypeVertex>>, store: Store) -> bool {
    forall|label: Seq<char>|
        {
            &&& #[trigger] labels.contains_key(label) <==> store.contains_key(
                label_index_key(label),
            )
            &&& labels.contains_key(label) ==> labels[label] == TypeVertex::spec_from_bytes(
                store[label_index_key(label)],
            )
        }
}

/// The whole schema of one snapshot, read once and held in memory. It is never changed: a
/// later schema gets a cache of its own.
pub struct TypeCache {
    entries: Vec<TypeEntry>,
    index: HashMap<u32, usize>,
    labels: StringHashMap<Option<TypeVertex>>,
    source: Ghost<Store>,
}

impl TypeCache {
    #[verifier::type_invariant]
    spec fn reflects_source(&self) -> bool {
        &&& entries_reflect(self.entries@, self.index@, self.source@)
        &&& labels_reflect(self.labels@, self.source@)
    }

    /// What the snapshot held from which the cache was read.
    pub closed spec fn source(&self) -> Store {
        self.source@
    }

    /// Reads the index from labels to types.
    fn read_labels<S: ReadableSnapshot>(snapshot: &S) -> (labels: StringHashMap<Option<TypeVertex>>)
        ensures
            labels_reflect(labels@, snapshot.contents()),
    {
        let ghost store = snapshot.contents();
        let mut prefix: Vec<u8> = Vec::new();
        prefix.push(LABEL_INDEX_TAG);
        let entries = snapshot.iterate_prefix(prefix.as_slice());
        let mut labels: StringHashMap<Option<TypeVertex>> = StringHashMap::new();
        let mut i: usize = 0;
        while i < entries.len()
            invariant
                0 <= i <= entries@.len(),
                prefix@ == seq![60u8],
                lists_prefix(entries@, store, prefix@),
                forall|label: Seq<char>|
                    {
                        &&& #[trigger] labels@.contains_key(label) <==> exists|j: int|
                            0 <= j < i && #[trigger] key_at(entries@, j) == label_index_key(label)
                        &&& labels@.contains_key(label) ==> labels@[label]
                            == TypeVertex::spec_from_bytes(store[label_index_key(label)])
                    },
            decreases entries@.len() - i,
        {
            let key = entries[i].0.as_slice();
            let ghost before = labels@;
            assert(key@ == key_at(entries@, i as int));
            assert(prefix@.is_prefix_of(key@));
            assert(key@.subrange(0, 1)[0] == prefix@[0]);
            let text = slice_to_vec(slice_subrange(key, 1, key.len()));
            match Label::from_bytes(text) {
                Some(label) => {
                    let vertex = TypeVertex::from_bytes(entries[i].1.as_slice());
                    let ghost added = label@;
                    proof {
                        assert(key@ =~= label_index_key(added));
                        assert(store[key@] == value_at(entries@, i as int));
                    }
                    labels.insert(label.into_scoped_name(), vertex);
                    proof {
                        assert forall|other: Seq<char>|
                            {
                                &&& #[trigger] labels@.contains_key(other) <==> exists|j: int|
                                    0 <= j < i + 1 && #[trigger] key_at(entries@, j)
                                        == label_index_key(other)
                                &&& labels@.contains_key(other) ==> labels@[other]
                                    == TypeVertex::spec_from_bytes(store[label_index_key(other)])
                            } by {
                            lemma_label_index_key_decodes(other);
                            lemma_label_index_key_decodes(added);
                            if other == added {
                                assert(key_at(entries@, i as int) == label_index_key(other));
                            } else {
                                assert(label_index_key(other) != key@);
                                if before.contains_key(other) {
                                    let j = choose|j: int|
                                        0 <= j < i && #[trigger] key_at(entries@, j)
                                            == label_index_key(other);
                                    assert(0 <= j < i + 1);
                                }
                            }
                        }
                    }
                },
                None => {
                    proof {
                        assert forall|other: Seq<char>|
                            {
                                &&& #[trigger] labels@.contains_key(other) <==> exists|j: int|
                                    0 <= j < i + 1 && #[trigger] key_at(entries@, j)
                                        == label_index_key(other)
                                &&& labels@.contains_key(other) ==> labels@[other]
                                    == TypeVertex::spec_from_bytes(store[label_index_key(other)])
                            } by {
                            lemma_label_index_key_decodes(other);
                            assert(label_index_key(other) != key@);
                            if before.contains_key(other) {
                                let j = choose|j: int|
                                    0 <= j < i && #[trigger] key_at(entries@, j)
                                        == label_index_key(other);
                                assert(0 <= j < i + 1);
                            }
                        }
                    }
                },
            }
            i += 1;
        }
        proof {
            assert forall|label: Seq<char>|
                {
                    &&& #[trigger] labels@.contains_key(label) <==> store.contains_key(
                        label_index_key(label),
                    )
                    &&& labels@.contains_key(label) ==> labels@[label]
                        == TypeVertex::spec_from_bytes(store[label_index_key(label)])
                } by {
                lemma_label_index_key_decodes(label);
                let key = label_index_key(label);
                assert(prefix@ =~= key.subrange(0, 1));
                if labels@.contains_key(label) {
                    let j = choose|j: int|
                        0 <= j < entries@.len() && #[trigger] key_at(entries@, j) == key;
                }
                if store.contains_key(key) {
                    assert(prefix@.is_prefix_of(key));
                    let j = choose|j: int|
                        0 <= j < entries@.len() && #[trigger] key_at(entries@, j) == key;
                }
            }
        }
        labels
    }

    /// Reads the whole schema of the snapshot. Fails where a fact about a type cannot be
    /// read.
    pub fn new<S: ReadableSnapshot>(snapshot: &S) -> (cache: Result<TypeCache, ConceptReadError>)
        ensures
            match cache {
                Ok(cache) => cache.source() == snapshot.contents() && cacheable(
                    snapshot.contents(),
                ),
                Err(_) => !cacheable(snapshot.contents()),
            },
    {
        let ghost store = snapshot.contents();
        let mut entries: Vec<TypeEntry> = Vec::new();
        let mut index: HashMap<u32, usize> = HashMap::new();
        let mut kinds: Vec<Kind> = Vec::new();
        kinds.push(Kind::Entity);
        kinds.push(Kind::Relation);
        kinds.push(Kind::Role);
        kinds.push(Kind::Attribute);
        let mut k: usize = 0;
        while k < kinds.len()
            invariant
                0 <= k <= kinds@.len(),
                store == snapshot.contents(),
                kinds@ == seq![Kind::Entity, Kind::Relation, Kind::Role, Kind::Attribute],
                forall|i: int|
                    0 <= i < entries@.len() ==> {
                        &&& entry_reflects(#[trigger] entries@[i], store)
                        &&& index@.contains_key(entries@[i].vertex.spec_code())
                        &&& index@[entries@[i].vertex.spec_code()] == i
                    },
                forall|i: int|
                    0 <= i < entries@.len() ==> exists|p: int|
                        0 <= p < k && kinds@[p] == (#[trigger] entries@[i]).vertex.kind,
                forall|vertex: TypeVertex, p: int| #[trigger]
                    has_vertex(store, vertex) && 0 <= p < k && #[trigger] kinds@[p] == vertex.kind
                        ==> exists|i: int|
                        0 <= i < entries@.len() && (#[trigger] entries@[i]).vertex == vertex,
            decreases kinds@.len() - k,
        {
            let kind = kinds[k];
            let vertices = TypeDecoder::get_vertices(snapshot, kind);
            let ghost start = entries@.len();
            let mut v: usize = 0;
            while v < vertices.len()
                invariant
                    0 <= v <= vertices@.len(),
                    0 <= k < kinds@.len(),
                    kind == kinds@[k as int],
                    store == snapshot.contents(),
                    kinds@ == seq![Kind::Entity, Kind::Relation, Kind::Role, Kind::Attribute],
                    vertices@.no_duplicates(),
                    forall|vertex: TypeVertex| #[trigger]
                        vertices@.contains(vertex) <==> vertex.kind == kind && has_vertex(
                            store,
                            vertex,
                        ),
                    entries@.len() == start + v,
                    forall|i: int|
                        0 <= i < start ==> exists|p: int|
                            0 <= p < k && kinds@[p] == (#[trigger] entries@[i]).vertex.kind,
                    forall|i: int|
                        start <= i < entries@.len() ==> (#[trigger] entries@[i]).vertex
                            == vertices@[i - start],
                    forall|i: int|
                        0 <= i < entries@.len() ==> {
                            &&& entry_reflects(#[trigger] entries@[i], store)
                            &&& index@.contains_key(entries@[i].vertex.spec_code())
                            &&& index@[entries@[i].vertex.spec_code()] == i
                        },
                    forall|vertex: TypeVertex, p: int| #[trigger]
                        has_vertex(store, vertex) && 0 <= p < k && #[trigger] kinds@[p]
                            == vertex.kind ==> exists|i: int|
                            0 <= i < entries@.len() && (#[trigger] entries@[i]).vertex == vertex,
                decreases vertices@.len() - v,
            {
                let vertex = vertices[v];
                assert(vertices@.contains(vertex));
                assert(vertex.kind == kind && has_vertex(store, vertex));
                match TypeEntry::read(snapshot, vertex) {
                    Ok(entry) => {
                        let ghost before = entries@;
                        let ghost index_before = index@;
                        let position = entries.len();
                        index.insert(vertex.code(), position);
                        entries.push(entry);
                        proof {
                            assert(kinds@[0] == Kind::Entity && kinds@[1] == Kind::Relation
                                && kinds@[2] == Kind::Role && kinds@[3] == Kind::Attribute);
                            assert forall|i: int| 0 <= i < before.len() implies #[trigger] entries@[i]
                                == before[i] && before[i].vertex != vertex by {
                                assert(entries@[i] == before[i]);
                                if i < start {
                                    let p = choose|p: int|
                                        0 <= p < k && kinds@[p] == before[i].vertex.kind;
                                    assert(0 <= p < k && kinds@[p] == before[i].vertex.kind);
                                    assert(kinds@[p] != kinds@[k as int]);
                                    assert(vertex.kind == kinds@[k as int]);
                                } else {
                                    assert(before[i].vertex == vertices@[i - start]);
                                    assert(vertices@[i - start] != vertices@[v as int]);
                                }
                            }
                            assert forall|i: int| 0 <= i < entries@.len() implies {
                                &&& entry_reflects(#[trigger] entries@[i], store)
                                &&& index@.contains_key(entries@[i].vertex.spec_code())
                                &&& index@[entries@[i].vertex.spec_code()] == i
                            } by {
                                if i < before.len() {
                                    assert(entries@[i] == before[i]);
                                    assert(entry_reflects(before[i], store));
                                    if before[i].vertex.spec_code() == vertex.spec_code() {
                                        before[i].vertex.lemma_code_is_injective(vertex);
                                    }
                                }
                            }
                            assert forall|i: int| 0 <= i < start implies exists|p: int|
                                0 <= p < k && kinds@[p] == (#[trigger] entries@[i]).vertex.kind by {
                                assert(entries@[i] == before[i]);
                                let p = choose|p: int|
                                    0 <= p < k && kinds@[p] == before[i].vertex.kind;
                                assert(kinds@[p] == entries@[i].vertex.kind);
                            }
                            assert forall|i: int|
                                start <= i < entries@.len() implies (#[trigger] entries@[i]).vertex
                                == vertices@[i - start] by {
                                if i < before.len() {
                                    assert(entries@[i] == before[i]);
                                }
                            }
                            assert forall|other: TypeVertex, p: int| #[trigger]
                                has_vertex(store, other) && 0 <= p < k && #[trigger] kinds@[p]
                                    == other.kind implies exists|i: int|
                                0 <= i < entries@.len() && (#[trigger] entries@[i]).vertex
                                    == other by {
                                let i = choose|i: int|
                                    0 <= i < before.len() && (#[trigger] before[i]).vertex
                                        == other;
                                assert(entries@[i].vertex == other);
                            }
                        }
                    },
                    Err(error) => {
                        proof {
                            assert(has_vertex(store, vertex));
                        }
                        return Err(error);
                    },
                }
                v += 1;
            }
            proof {
                assert forall|i: int| 0 <= i < entries@.len() implies exists|p: int|
                    0 <= p < k + 1 && kinds@[p] == (#[trigger] entries@[i]).vertex.kind by {
                    if i < start {
                        let p = choose|p: int|
                            0 <= p < k && kinds@[p] == entries@[i].vertex.kind;
                        assert(0 <= p < k + 1);
                    } else {
                        assert(entries@[i].vertex == vertices@[i - start]);
                        assert(vertices@.contains(vertices@[i - start]));
                        assert(kinds@[k as int] == entries@[i].vertex.kind);
                    }
                }
                assert forall|vertex: TypeVertex, p: int| #[trigger]
                    has_vertex(store, vertex) && 0 <= p < k + 1 && #[trigger] kinds@[p]
                        == vertex.kind implies exists|i: int|
                    0 <= i < entries@.len() && (#[trigger] entries@[i]).vertex == vertex by {
                    if p == k {
                        assert(vertices@.contains(vertex));
                        let t = choose|t: int| 0 <= t < vertices@.len() && vertices@[t] == vertex;
                        assert(entries@[start + t].vertex == vertex);
                    }
                }
            }
            k += 1;
        }
        let labels = Self::read_labels(snapshot);
        proof {
            assert forall|vertex: TypeVertex| #[trigger]
                has_vertex(store, vertex) implies exists|i: int|
                0 <= i < entries@.len() && (#[trigger] entries@[i]).vertex == vertex by {
                let p: int = match vertex.kind {
                    Kind::Entity => 0,
                    Kind::Relation => 1,
                    Kind::Role => 2,
                    Kind::Attribute => 3,
                };
                assert(kinds@[p] == vertex.kind);
            }
            assert forall|vertex: TypeVertex| #[trigger] has_vertex(store, vertex) implies readable(
                store,
                vertex,
            ) by {
                let i = choose|i: int|
                    0 <= i < entries@.len() && (#[trigger] entries@[i]).vertex == vertex;
                assert(entry_reflects(entries@[i], store));
            }
            assert(entries_reflect(entries@, index@, store));
        }
        Ok(TypeCache { entries, index, labels, source: Ghost(store) })
    }

    /// What the cache knows of the type.
    pub fn get(&self, vertex: TypeVertex) -> (entry: &TypeEntry)
        requires
            has_vertex(self.source(), vertex),
        ensures
            entry.vertex == vertex,
            entry_reflects(*entry, self.source()),
    {
        proof {
            use_type_invariant(self);
            let i = choose|i: int|
                0 <= i < self.entries@.len() && (#[trigger] self.entries@[i]).vertex == vertex;
            assert(entry_reflects(self.entries@[i], self.source@));
        }
        let code = vertex.code();
        match self.index.get(&code) {
            Some(position) => &self.entries[*position],
            None => unreached(),
        }
    }

    /// What the cache knows of the ownership of `attribute` by `owner`.
    pub fn get_ownership(&self, owner: TypeVertex, attribute: TypeVertex) -> (owns: &OwnsEntry)
        requires
            has_vertex(self.source(), owner),
            attribute.kind == Kind::Attribute,
            has_edge(self.source(), EdgeKind::Owns, owner, attribute),
        ensures
            owns.attribute == attribute,
            owns_reflects(*owns, self.source(), owner),
    {
        let entry = self.get(owner);
        let ghost listed = owned_attributes(entry.owns@);
        proof {
            assert(typed_targets(self.source(), EdgeKind::Owns, owner, Kind::Attribute).contains(
                attribute,
            ));
            assert(listed.to_set().contains(attribute));
            assert(listed.contains(attribute));
        }
        let mut i: usize = 0;
        while i < entry.owns.len()
            invariant
                0 <= i <= entry.owns@.len(),
                listed == owned_attributes(entry.owns@),
                listed.contains(attribute),
                forall|t: int| 0 <= t < i ==> listed[t] != attribute,
                forall|t: int|
                    0 <= t < entry.owns@.len() ==> owns_reflects(
                        #[trigger] entry.owns@[t],
                        self.source(),
                        owner,
                    ),
            decreases entry.owns@.len() - i,
        {
            if entry.owns[i].attribute == attribute {
                return &entry.owns[i];
            }
            assert(listed[i as int] == entry.owns@[i as int].attribute);
            i += 1;
        }
        proof {
            let t = choose|t: int| 0 <= t < listed.len() && listed[t] == attribute;
            assert(listed[t] != attribute);
        }
        unreached()
    }

    /// The type that the index gave for the label.
    pub fn get_labelled_vertex(&self, label: &Label) -> (vertex: Option<TypeVertex>)
        ensures
            vertex == labelled_vertex(self.source(), label@),
    {
        proof {
            use_type_invariant(self);
            assert(self.labels@.contains_key(label@) <==> self.source@.contains_key(
                label_index_key(label@),
            ));
        }
        match self.labels.get(label.scoped_name()) {
            Some(vertex) => *vertex,
            None => None,
        }
    }
}

} // verus!
