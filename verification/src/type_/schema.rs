use crate::encoding::edge::{edge_key, EdgeKind, TypeEdge};
use crate::encoding::kind::Kind;
use crate::encoding::label::label_index_key;
use crate::encoding::property::{
    edge_property_key, vertex_property_key, EdgeProperty, VertexProperty,
};
use crate::encoding::value_type::{value_type_id_of_bytes, value_type_of_id, ValueType};
use crate::encoding::vertex::TypeVertex;
use crate::error::ConceptReadError;
use crate::snapshot::{differs_at, key_before, Store};
use crate::type_::annotation::{
    cardinality_of_bytes, order_mode_of_bytes, Annotation, AnnotationAbstract,
    AnnotationCardinality, AnnotationDistinct, AnnotationIndependent, OrderMode,
};
use vstd::prelude::*;
use vstd::utf8::{decode_utf8, valid_utf8};

verus! {

/// Whether the store holds the type `vertex`.
pub open spec fn has_vertex(store: Store, vertex: TypeVertex) -> bool {
    store.contains_key(vertex.spec_bytes())
}

/// Whether the store holds the edge of `kind` from `from` to `to`.
pub open spec fn has_edge(store: Store, kind: EdgeKind, from: TypeVertex, to: TypeVertex) -> bool {
    store.contains_key(edge_key(kind, from, to))
}

/// The types that the edges of `kind` lead to from `from`.
pub open spec fn edge_targets(store: Store, kind: EdgeKind, from: TypeVertex) -> Set<TypeVertex> {
    Set::new(|to: TypeVertex| has_edge(store, kind, from, to))
}

/// The types of `target_kind` that the edges of `kind` lead to from `from`.
pub open spec fn typed_targets(
    store: Store,
    kind: EdgeKind,
    from: TypeVertex,
    target_kind: Kind,
) -> Set<TypeVertex> {
    Set::new(|to: TypeVertex| to.kind == target_kind && has_edge(store, kind, from, to))
}

/// The direct supertypes of the type: the types of its own kind that its sub edges lead to.
/// A consistent schema holds at most one.
pub open spec fn supertypes(store: Store, vertex: TypeVertex) -> Set<TypeVertex> {
    typed_targets(store, EdgeKind::Sub, vertex, vertex.kind)
}

/// The direct subtypes of the type: the types of its own kind that its reverse sub edges
/// lead to.
pub open spec fn subtypes(store: Store, vertex: TypeVertex) -> Set<TypeVertex> {
    typed_targets(store, EdgeKind::SubReverse, vertex, vertex.kind)
}

/// Whether the type has two different direct supertypes.
pub open spec fn has_ambiguous_supertype(store: Store, vertex: TypeVertex) -> bool {
    exists|a: TypeVertex, b: TypeVertex|
        a != b && #[trigger] supertypes(store, vertex).contains(a) && #[trigger] supertypes(
            store,
            vertex,
        ).contains(b)
}

/// A direct supertype of the type, if it has one.
pub open spec fn supertype_of(store: Store, vertex: TypeVertex) -> Option<TypeVertex> {
    if exists|s: TypeVertex| supertypes(store, vertex).contains(s) {
        Some(choose|s: TypeVertex| supertypes(store, vertex).contains(s))
    } else {
        None
    }
}

/// Whether `supertype` says what direct supertype the type has: the one it has, or none.
pub open spec fn supertype_is(
    store: Store,
    vertex: TypeVertex,
    supertype: Option<TypeVertex>,
) -> bool {
    match supertype {
        Some(supertype) => supertypes(store, vertex).contains(supertype) && forall|
            other: TypeVertex,
        | #[trigger] supertypes(store, vertex).contains(other) ==> other == supertype,
        None => forall|other: TypeVertex| !#[trigger] supertypes(store, vertex).contains(other),
    }
}

/// Whether `found` holds exactly the types in `expected`, each once.
pub open spec fn lists_set(found: Seq<TypeVertex>, expected: Set<TypeVertex>) -> bool {
    found.no_duplicates() && found.to_set() == expected
}

/// Whether `first` comes before `second` in the order of types: by kind, then by number.
pub open spec fn vertex_before(first: TypeVertex, second: TypeVertex) -> bool {
    first.kind.spec_tag() < second.kind.spec_tag() || (first.kind == second.kind && first.id
        < second.id)
}

/// Whether the types of `found` rise from each to the next.
pub open spec fn rising(found: Seq<TypeVertex>) -> bool {
    forall|i: int, j: int|
        0 <= i < j < found.len() ==> vertex_before(#[trigger] found[i], #[trigger] found[j])
}

/// Whether `found` holds exactly the types in `expected`, in rising order.
pub open spec fn lists_rising(found: Seq<TypeVertex>, expected: Set<TypeVertex>) -> bool {
    lists_set(found, expected) && rising(found)
}

/// Of two different types one comes before the other, and the order is transitive.
pub proof fn lemma_vertex_order(first: TypeVertex, second: TypeVertex, third: TypeVertex)
    ensures
        first != second ==> vertex_before(first, second) || vertex_before(second, first),
        !(vertex_before(first, second) && vertex_before(second, first)),
        vertex_before(first, second) && vertex_before(second, third) ==> vertex_before(
            first,
            third,
        ),
{
    first.kind.lemma_tag_round_trip();
    second.kind.lemma_tag_round_trip();
    third.kind.lemma_tag_round_trip();
}

/// Types that rise are each another type.
pub proof fn lemma_rising_is_distinct(found: Seq<TypeVertex>)
    requires
        rising(found),
    ensures
        found.no_duplicates(),
{
    assert forall|i: int, j: int| 0 <= i < found.len() && 0 <= j < found.len() && i
        != j implies found[i] != found[j] by {
        if i < j {
            assert(vertex_before(found[i], found[j]));
        } else {
            assert(vertex_before(found[j], found[i]));
        }
    }
}

/// The keys of two vertices stand in the order of the vertices.
pub proof fn lemma_vertex_keys_rise(first: TypeVertex, second: TypeVertex)
    requires
        key_before(first.spec_bytes(), second.spec_bytes()),
    ensures
        vertex_before(first, second),
{
    let left = first.spec_bytes();
    let right = second.spec_bytes();
    let at = choose|at: int| #[trigger] differs_at(left, right, at);
    first.kind.lemma_tag_round_trip();
    second.kind.lemma_tag_round_trip();
    if at == 1 {
        assert(left[0] == right[0]);
    } else if at == 2 {
        assert(left[0] == right[0] && left[1] == right[1]);
    }
}

/// The keys of two edges of one kind that leave one type stand in the order of the types
/// that the edges lead to.
pub proof fn lemma_edge_keys_rise(
    kind: EdgeKind,
    from: TypeVertex,
    first: TypeVertex,
    second: TypeVertex,
)
    requires
        key_before(edge_key(kind, from, first), edge_key(kind, from, second)),
    ensures
        vertex_before(first, second),
{
    let left = edge_key(kind, from, first);
    let right = edge_key(kind, from, second);
    let at = choose|at: int| #[trigger] differs_at(left, right, at);
    first.kind.lemma_tag_round_trip();
    second.kind.lemma_tag_round_trip();
    assert(left[0] == right[0] && left[1] == right[1] && left[2] == right[2] && left[3]
        == right[3]);
    if at == 5 {
        assert(left[4] == right[4]);
    } else if at == 6 {
        assert(left[4] == right[4] && left[5] == right[5]);
    }
}

/// Whether the store holds the type with a label: whether a handle to it can be read.
pub open spec fn type_exists(store: Store, vertex: TypeVertex) -> bool {
    has_vertex(store, vertex) && has_label(store, vertex)
}

/// The most steps a walk through a hierarchy takes: the number of types a kind can hold.
pub const HIERARCHY_LIMIT: usize = 65536;

/// `first`, then what `rest` holds, where it holds a chain.
pub open spec fn chain_after(
    first: Seq<TypeVertex>,
    rest: Result<Seq<TypeVertex>, ConceptReadError>,
) -> Result<Seq<TypeVertex>, ConceptReadError> {
    match rest {
        Ok(rest) => Ok(first + rest),
        Err(error) => Err(error),
    }
}

/// The supertypes of the type from the nearest to the root, found in at most `fuel` steps
/// beyond the first: an error where a type on the way has two supertypes, or where the way
/// is longer than that.
pub open spec fn supertype_chain(store: Store, vertex: TypeVertex, fuel: nat) -> Result<
    Seq<TypeVertex>,
    ConceptReadError,
>
    decreases fuel,
{
    if has_ambiguous_supertype(store, vertex) {
        Err(ConceptReadError::AmbiguousSupertype)
    } else {
        match supertype_of(store, vertex) {
            None => Ok(Seq::empty()),
            Some(supertype) => if fuel == 0 {
                Err(ConceptReadError::HierarchyTooDeep)
            } else {
                chain_after(seq![supertype], supertype_chain(store, supertype, (fuel - 1) as nat))
            },
        }
    }
}

/// The subtypes of the type that are `depth` steps below its direct subtypes.
pub open spec fn subtypes_at(store: Store, vertex: TypeVertex, depth: nat) -> Set<TypeVertex>
    decreases depth,
{
    if depth == 0 {
        subtypes(store, vertex)
    } else {
        Set::new(
            |below: TypeVertex|
                exists|above: TypeVertex|
                    subtypes_at(store, vertex, (depth - 1) as nat).contains(above)
                        && #[trigger] subtypes(store, above).contains(below),
        )
    }
}

/// The subtypes of the type that are fewer than `depth` steps below its direct subtypes.
pub open spec fn subtypes_above(store: Store, vertex: TypeVertex, depth: nat) -> Set<TypeVertex> {
    Set::new(
        |below: TypeVertex|
            exists|at: nat| at < depth && #[trigger] subtypes_at(store, vertex, at).contains(below),
    )
}

/// All subtypes of the type, direct or not.
pub open spec fn subtypes_transitive(store: Store, vertex: TypeVertex) -> Set<TypeVertex> {
    Set::new(
        |below: TypeVertex|
            exists|at: nat| #[trigger] subtypes_at(store, vertex, at).contains(below),
    )
}

/// A type with exactly one direct supertype has that supertype, unambiguously.
pub proof fn lemma_single_supertype(store: Store, vertex: TypeVertex, supertype: TypeVertex)
    requires
        supertypes(store, vertex) == set![supertype],
    ensures
        supertype_of(store, vertex) == Some(supertype),
        !has_ambiguous_supertype(store, vertex),
{
    assert(supertypes(store, vertex).contains(supertype));
}

/// A type without direct supertypes has none, unambiguously.
pub proof fn lemma_no_supertype(store: Store, vertex: TypeVertex)
    requires
        supertypes(store, vertex) == Set::<TypeVertex>::empty(),
    ensures
        supertype_of(store, vertex) is None,
        !has_ambiguous_supertype(store, vertex),
{
}

/// The supertypes of a type are of its kind.
pub proof fn lemma_chain_keeps_kind(store: Store, vertex: TypeVertex, fuel: nat)
    ensures
        supertype_chain(store, vertex, fuel) matches Ok(chain) ==> forall|i: int|
            0 <= i < chain.len() ==> (#[trigger] chain[i]).kind == vertex.kind,
    decreases fuel,
{
    if let Ok(chain) = supertype_chain(store, vertex, fuel) {
        match supertype_of(store, vertex) {
            None => {},
            Some(supertype) => {
                assert(supertypes(store, vertex).contains(supertype));
                lemma_chain_keeps_kind(store, supertype, (fuel - 1) as nat);
                let rest = supertype_chain(store, supertype, (fuel - 1) as nat)->Ok_0;
                assert(chain == seq![supertype] + rest);
                assert forall|i: int| 0 <= i < chain.len() implies (#[trigger] chain[i]).kind
                    == vertex.kind by {
                    if i > 0 {
                        assert(chain[i] == rest[i - 1]);
                    }
                }
            },
        }
    }
}

/// The subtypes of a type are of its kind.
pub proof fn lemma_subtypes_keep_kind(store: Store, vertex: TypeVertex, depth: nat)
    ensures
        forall|below: TypeVertex| #[trigger]
            subtypes_at(store, vertex, depth).contains(below) ==> below.kind == vertex.kind,
    decreases depth,
{
    if depth > 0 {
        lemma_subtypes_keep_kind(store, vertex, (depth - 1) as nat);
        assert forall|below: TypeVertex| #[trigger]
            subtypes_at(store, vertex, depth).contains(below) implies below.kind
            == vertex.kind by {
            let above = choose|above: TypeVertex|
                subtypes_at(store, vertex, (depth - 1) as nat).contains(above)
                    && #[trigger] subtypes(store, above).contains(below);
        }
    }
}

/// Below a depth at which a type has no subtypes it has none either.
pub proof fn lemma_subtypes_end(store: Store, vertex: TypeVertex, empty_at: nat, at: nat)
    requires
        subtypes_at(store, vertex, empty_at) == Set::<TypeVertex>::empty(),
        empty_at <= at,
    ensures
        subtypes_at(store, vertex, at) == Set::<TypeVertex>::empty(),
    decreases at,
{
    if at > empty_at {
        lemma_subtypes_end(store, vertex, empty_at, (at - 1) as nat);
        assert(subtypes_at(store, vertex, at) =~= Set::<TypeVertex>::empty());
    }
}

/// The value type recorded for the attribute type: none, one, or bytes that spell none.
pub open spec fn value_type_of(store: Store, vertex: TypeVertex) -> Option<Option<ValueType>> {
    let key = vertex_property_key(VertexProperty::ValueType, vertex);
    if store.contains_key(key) {
        Some(
            match value_type_id_of_bytes(store[key]) {
                Some(id) => value_type_of_id(id),
                None => None,
            },
        )
    } else {
        None
    }
}

/// Whether a label is recorded for the type.
pub open spec fn has_label(store: Store, vertex: TypeVertex) -> bool {
    store.contains_key(vertex_property_key(VertexProperty::Label, vertex))
}

/// The bytes recorded as the label of the type.
pub open spec fn label_bytes(store: Store, vertex: TypeVertex) -> Seq<u8> {
    store[vertex_property_key(VertexProperty::Label, vertex)]
}

/// The label of the type, where one is recorded and its bytes are text.
pub open spec fn label_of(store: Store, vertex: TypeVertex) -> Option<Seq<char>> {
    if has_label(store, vertex) && valid_utf8(label_bytes(store, vertex)) {
        Some(decode_utf8(label_bytes(store, vertex)))
    } else {
        None
    }
}

/// The type that the index gives for a label, where it gives one.
pub open spec fn labelled_vertex(store: Store, label: Seq<char>) -> Option<TypeVertex> {
    if store.contains_key(label_index_key(label)) {
        TypeVertex::spec_from_bytes(store[label_index_key(label)])
    } else {
        None
    }
}

/// The type of `kind` that the index gives for a label, where it gives one.
pub open spec fn labelled_type(store: Store, label: Seq<char>, kind: Kind) -> Option<TypeVertex> {
    match labelled_vertex(store, label) {
        Some(vertex) => if vertex.kind == kind {
            Some(vertex)
        } else {
            None
        },
        None => None,
    }
}

/// The root type of `kind`, where the store holds one.
pub open spec fn root_of(store: Store, kind: Kind) -> Option<TypeVertex> {
    labelled_type(store, kind.spec_root_label(), kind)
}

/// Whether the type is the root type of its kind: whether it carries the root label.
pub open spec fn is_root(store: Store, vertex: TypeVertex) -> bool {
    label_of(store, vertex) == Some(vertex.kind.spec_root_label())
}

/// Whether the index holds an entry for the label.
pub open spec fn label_in_use(store: Store, label: Seq<char>) -> bool {
    store.contains_key(label_index_key(label))
}

/// Whether the index holds an entry for the label that does not lead to `vertex`.
pub open spec fn label_taken_by_other(store: Store, label: Seq<char>, vertex: TypeVertex) -> bool {
    label_in_use(store, label) && store[label_index_key(label)] != vertex.spec_bytes()
}

/// Whether the type carries the marker `property`.
pub open spec fn has_marker(store: Store, property: VertexProperty, vertex: TypeVertex) -> bool {
    store.contains_key(vertex_property_key(property, vertex))
}

/// Whether the relationship carries the marker `property`.
pub open spec fn has_edge_marker(store: Store, property: EdgeProperty, edge: TypeEdge) -> bool {
    store.contains_key(edge_property_key(property, edge))
}

/// The cardinality recorded for the type: none, one, or bytes that spell none.
pub open spec fn cardinality_of(store: Store, vertex: TypeVertex) -> Option<
    Option<AnnotationCardinality>,
> {
    let key = vertex_property_key(VertexProperty::AnnotationCardinality, vertex);
    if store.contains_key(key) {
        Some(cardinality_of_bytes(store[key]))
    } else {
        None
    }
}

/// The cardinality recorded for the relationship: none, one, or bytes that spell none.
pub open spec fn edge_cardinality_of(store: Store, edge: TypeEdge) -> Option<
    Option<AnnotationCardinality>,
> {
    let key = edge_property_key(EdgeProperty::AnnotationCardinality, edge);
    if store.contains_key(key) {
        Some(cardinality_of_bytes(store[key]))
    } else {
        None
    }
}

/// The order mode recorded for the type: none, one, or bytes that spell none.
pub open spec fn order_mode_of(store: Store, vertex: TypeVertex) -> Option<Option<OrderMode>> {
    let key = vertex_property_key(VertexProperty::Order, vertex);
    if store.contains_key(key) {
        Some(order_mode_of_bytes(store[key]))
    } else {
        None
    }
}

/// The order mode recorded for the relationship: none, one, or bytes that spell none.
pub open spec fn edge_order_mode_of(store: Store, edge: TypeEdge) -> Option<Option<OrderMode>> {
    let key = edge_property_key(EdgeProperty::Order, edge);
    if store.contains_key(key) {
        Some(order_mode_of_bytes(store[key]))
    } else {
        None
    }
}

/// `items` with `item` at the end where `present` holds.
pub open spec fn push_if<T>(items: Seq<T>, present: bool, item: T) -> Seq<T> {
    if present {
        items.push(item)
    } else {
        items
    }
}

/// The annotations of the type, in the order abstract, distinct, independent, cardinality.
/// A cardinality whose bytes spell none is left out.
pub open spec fn annotations_of(store: Store, vertex: TypeVertex) -> Seq<Annotation> {
    let with_abstract = push_if(
        Seq::empty(),
        has_marker(store, VertexProperty::AnnotationAbstract, vertex),
        Annotation::Abstract(AnnotationAbstract {  }),
    );
    let with_distinct = push_if(
        with_abstract,
        has_marker(store, VertexProperty::AnnotationDistinct, vertex),
        Annotation::Distinct(AnnotationDistinct {  }),
    );
    let with_independent = push_if(
        with_distinct,
        has_marker(store, VertexProperty::AnnotationIndependent, vertex),
        Annotation::Independent(AnnotationIndependent {  }),
    );
    match cardinality_of(store, vertex) {
        Some(Some(cardinality)) => with_independent.push(Annotation::Cardinality(cardinality)),
        _ => with_independent,
    }
}

/// The abstract annotation is among the annotations of a type exactly where the type carries
/// the abstract marker; the same holds of the independent and the distinct annotation.
pub proof fn lemma_annotations_hold_markers(store: Store, vertex: TypeVertex)
    ensures
        annotations_of(store, vertex).contains(Annotation::Abstract(AnnotationAbstract {  }))
            <==> has_marker(store, VertexProperty::AnnotationAbstract, vertex),
        annotations_of(store, vertex).contains(Annotation::Distinct(AnnotationDistinct {  }))
            <==> has_marker(store, VertexProperty::AnnotationDistinct, vertex),
        annotations_of(store, vertex).contains(
            Annotation::Independent(AnnotationIndependent {  }),
        ) <==> has_marker(store, VertexProperty::AnnotationIndependent, vertex),
{
    let a = Annotation::Abstract(AnnotationAbstract {  });
    let d = Annotation::Distinct(AnnotationDistinct {  });
    let i = Annotation::Independent(AnnotationIndependent {  });
    let s0 = Seq::<Annotation>::empty();
    let s1 = push_if(s0, has_marker(store, VertexProperty::AnnotationAbstract, vertex), a);
    let s2 = push_if(s1, has_marker(store, VertexProperty::AnnotationDistinct, vertex), d);
    let s3 = push_if(s2, has_marker(store, VertexProperty::AnnotationIndependent, vertex), i);
    let all = annotations_of(store, vertex);
    lemma_push_if_contains(s0, has_marker(store, VertexProperty::AnnotationAbstract, vertex), a, a);
    lemma_push_if_contains(s0, has_marker(store, VertexProperty::AnnotationAbstract, vertex), a, d);
    lemma_push_if_contains(s0, has_marker(store, VertexProperty::AnnotationAbstract, vertex), a, i);
    lemma_push_if_contains(s1, has_marker(store, VertexProperty::AnnotationDistinct, vertex), d, a);
    lemma_push_if_contains(s1, has_marker(store, VertexProperty::AnnotationDistinct, vertex), d, d);
    lemma_push_if_contains(s1, has_marker(store, VertexProperty::AnnotationDistinct, vertex), d, i);
    lemma_push_if_contains(
        s2,
        has_marker(store, VertexProperty::AnnotationIndependent, vertex),
        i,
        a,
    );
    lemma_push_if_contains(
        s2,
        has_marker(store, VertexProperty::AnnotationIndependent, vertex),
        i,
        d,
    );
    lemma_push_if_contains(
        s2,
        has_marker(store, VertexProperty::AnnotationIndependent, vertex),
        i,
        i,
    );
    assert(!s0.contains(a) && !s0.contains(d) && !s0.contains(i));
    match cardinality_of(store, vertex) {
        Some(Some(cardinality)) => {
            let c = Annotation::Cardinality(cardinality);
            lemma_push_if_contains(s3, true, c, a);
            lemma_push_if_contains(s3, true, c, d);
            lemma_push_if_contains(s3, true, c, i);
            assert(all == push_if(s3, true, c));
        },
        _ => {
            assert(all == s3);
        },
    }
}

/// What `push_if` holds: what was held before, and the new item where it was added.
pub proof fn lemma_push_if_contains<T>(items: Seq<T>, present: bool, item: T, sought: T)
    ensures
        push_if(items, present, item).contains(sought) <==> items.contains(sought) || (present
            && item == sought),
{
    let pushed = push_if(items, present, item);
    if present {
        if items.contains(sought) {
            let t = choose|t: int| 0 <= t < items.len() && items[t] == sought;
            assert(pushed[t] == sought);
        }
        if item == sought {
            assert(pushed[items.len() as int] == sought);
        }
        if pushed.contains(sought) {
            let t = choose|t: int| 0 <= t < pushed.len() && pushed[t] == sought;
            if t < items.len() {
                assert(items[t] == sought);
            }
        }
    }
}

/// The annotations of the relationship, in the order distinct, cardinality.
/// A cardinality whose bytes spell none is left out.
pub open spec fn edge_annotations_of(store: Store, edge: TypeEdge) -> Seq<Annotation> {
    let with_distinct = push_if(
        Seq::empty(),
        has_edge_marker(store, EdgeProperty::AnnotationDistinct, edge),
        Annotation::Distinct(AnnotationDistinct {  }),
    );
    match edge_cardinality_of(store, edge) {
        Some(Some(cardinality)) => with_distinct.push(Annotation::Cardinality(cardinality)),
        _ => with_distinct,
    }
}

} // verus!
