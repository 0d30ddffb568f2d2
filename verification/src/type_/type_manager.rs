use crate::encoding::edge::{EdgeKind, TypeEdge};
use crate::encoding::kind::Kind;
use crate::encoding::label::Label;
use crate::encoding::value_type::ValueType;
use crate::encoding::vertex::TypeVertex;
use crate::encoding::vertex_generator::TypeVertexGenerator;
use crate::error::{ConceptReadError, ConceptWriteError, EncodingError};
use crate::snapshot::{ReadableSnapshot, Store, WritableSnapshot};
use crate::type_::annotation::{Annotation, AnnotationCardinality, OrderMode};
use crate::type_::attribute_type::{attribute_type_created, attribute_type_vertex, AttributeType};
use crate::type_::entity_type::{entity_type_created, entity_type_vertex, EntityType};
use crate::type_::relation_type::{relation_type_created, relation_type_vertex, RelationType};
use crate::type_::role_type::{role_type_created, role_type_vertex, RoleType};
use crate::type_::schema::{
    annotations_of, cardinality_of, edge_annotations_of, edge_cardinality_of, edge_order_mode_of,
    has_ambiguous_supertype, has_edge, is_root, label_bytes, label_of, labelled_type, lists_rising,
    lists_set, order_mode_of, root_of, subtypes, subtypes_at, subtypes_transitive, supertype_chain,
    supertype_is, type_exists, typed_targets, value_type_of, HIERARCHY_LIMIT,
};
use crate::type_::type_cache::{owned_attributes, TypeCache};
use crate::type_::type_decoder::TypeDecoder;
use crate::type_::type_encoder;
use crate::type_::type_encoder::{creates_role_type, creates_type, supertype_for};
use std::marker::PhantomData;
use std::sync::Arc;
use vstd::prelude::*;
use vstd::seq_lib::seq_to_set_is_finite;
use vstd::set::fold::{is_fun_commutative, lemma_fold_empty, lemma_fold_insert};
use vstd::utf8::valid_utf8;

verus! {

/// The most that the upper bounds of the roles of a relation type may add up to for the
/// relation type to be indexed.
pub const RELATION_INDEX_THRESHOLD: u64 = 8;

/// A sum of upper bounds with one more upper bound added: unbounded where either is.
pub open spec fn add_bound(sum: Option<nat>, bound: Option<u64>) -> Option<nat> {
    match (sum, bound) {
        (Some(sum), Some(bound)) => Some(sum + bound as nat),
        _ => None,
    }
}

/// The sum of the upper bounds, where every one is bounded.
pub open spec fn bounded_sum(bounds: Seq<Option<u64>>) -> Option<nat>
    decreases bounds.len(),
{
    if bounds.len() == 0 {
        Some(0)
    } else {
        add_bound(bounded_sum(bounds.drop_last()), bounds.last())
    }
}

/// Whether a relation type whose roles have these upper bounds is indexed: every role is
/// bounded and the bounds add up to no more than the threshold.
pub open spec fn index_eligible(bounds: Seq<Option<u64>>) -> bool {
    match bounded_sum(bounds) {
        Some(sum) => sum <= RELATION_INDEX_THRESHOLD,
        None => false,
    }
}

/// Whether a relation type whose roles have the upper bounds `bounds` is indexed.
pub fn relation_index_eligible(bounds: &Vec<Option<u64>>) -> (eligible: bool)
    ensures
        eligible == index_eligible(bounds@),
{
    let mut sum: u64 = 0;
    let mut i: usize = 0;
    assert(bounds@.subrange(0, 0) =~= Seq::<Option<u64>>::empty());
    while i < bounds.len()
        invariant
            0 <= i <= bounds@.len(),
            sum <= RELATION_INDEX_THRESHOLD,
            bounded_sum(bounds@.subrange(0, i as int)) == Some(sum as nat),
        decreases bounds@.len() - i,
    {
        let ghost next = bounds@.subrange(0, i + 1);
        assert(next.drop_last() =~= bounds@.subrange(0, i as int));
        assert(next.last() == bounds@[i as int]);
        match bounds[i] {
            None => {
                proof {
                    lemma_unbounded_stays(bounds@, i + 1);
                }
                return false;
            },
            Some(bound) => {
                if bound > RELATION_INDEX_THRESHOLD - sum {
                    proof {
                        lemma_sum_grows(bounds@, i + 1);
                    }
                    return false;
                }
                sum = sum + bound;
            },
        }
        i += 1;
    }
    assert(bounds@.subrange(0, bounds@.len() as int) =~= bounds@);
    true
}

/// Once a bound is missing among the first `n`, the whole sum is unbounded.
pub proof fn lemma_unbounded_stays(bounds: Seq<Option<u64>>, n: int)
    requires
        0 <= n <= bounds.len(),
        bounded_sum(bounds.subrange(0, n)) is None,
    ensures
        bounded_sum(bounds) is None,
    decreases bounds.len() - n,
{
    if n < bounds.len() {
        let next = bounds.subrange(0, n + 1);
        assert(next.drop_last() =~= bounds.subrange(0, n));
        lemma_unbounded_stays(bounds, n + 1);
    } else {
        assert(bounds.subrange(0, n) =~= bounds);
    }
}

/// The whole sum, where it is bounded, is no less than the sum of the first `n`.
pub proof fn lemma_sum_grows(bounds: Seq<Option<u64>>, n: int)
    requires
        0 <= n <= bounds.len(),
    ensures
        match (bounded_sum(bounds.subrange(0, n)), bounded_sum(bounds)) {
            (Some(part), Some(whole)) => part <= whole,
            (None, Some(_)) => false,
            _ => true,
        },
    decreases bounds.len() - n,
{
    if n < bounds.len() {
        let next = bounds.subrange(0, n + 1);
        assert(next.drop_last() =~= bounds.subrange(0, n));
        lemma_sum_grows(bounds, n + 1);
    } else {
        assert(bounds.subrange(0, n) =~= bounds);
    }
}

/// The cardinality among `annotations`, or the default where there is none.
pub open spec fn cardinality_among(
    annotations: Seq<Annotation>,
    default: AnnotationCardinality,
) -> AnnotationCardinality
    decreases annotations.len(),
{
    if annotations.len() == 0 {
        default
    } else {
        match annotations[0] {
            Annotation::Cardinality(cardinality) => cardinality,
            _ => cardinality_among(annotations.drop_first(), default),
        }
    }
}

/// The cardinality of a role type that has no cardinality annotation: exactly one.
pub open spec fn default_role_cardinality() -> AnnotationCardinality {
    AnnotationCardinality { start_inclusive: 1, end_inclusive: Some(1) }
}

/// The cardinality of the role type in `store`.
pub open spec fn role_cardinality(store: Store, role: TypeVertex) -> AnnotationCardinality {
    cardinality_among(annotations_of(store, role), default_role_cardinality())
}

/// What adds the upper bound of the cardinality of a role type to a sum of upper bounds.
pub open spec fn bound_adder(store: Store) -> spec_fn(Option<nat>, TypeVertex) -> Option<nat> {
    |sum: Option<nat>, role: TypeVertex| add_bound(sum, role_cardinality(store, role).end_inclusive)
}

/// The sum of the upper bounds of the cardinalities of the role types, where every one is
/// bounded.
pub open spec fn bounds_total(store: Store, roles: Set<TypeVertex>) -> Option<nat> {
    roles.fold(Some(0nat), bound_adder(store))
}

/// Whether the instances of the relation type are indexed by their players: whether every
/// role type that the relation type defines has an upper bound, and the bounds add up to no
/// more than the threshold.
pub open spec fn relation_indexed(store: Store, relation: TypeVertex) -> bool {
    match bounds_total(store, typed_targets(store, EdgeKind::Relates, relation, Kind::Role)) {
        Some(total) => total <= RELATION_INDEX_THRESHOLD,
        None => false,
    }
}

/// The upper bounds of role types add up to the same, in whatever order the role types are
/// listed.
pub proof fn lemma_bounds_total(store: Store, roles: Seq<TypeVertex>, bounds: Seq<Option<u64>>)
    requires
        roles.no_duplicates(),
        upper_bounds_of(store, roles, bounds),
    ensures
        bounded_sum(bounds) == bounds_total(store, roles.to_set()),
    decreases roles.len(),
{
    let adder = bound_adder(store);
    assert(is_fun_commutative(adder)) by {
        assert forall|a1: TypeVertex, a2: TypeVertex, b: Option<nat>| #[trigger]
            adder(adder(b, a2), a1) == adder(adder(b, a1), a2) by {}
    }
    if roles.len() == 0 {
        assert(roles.to_set() =~= Set::<TypeVertex>::empty());
        lemma_fold_empty(Some(0nat), adder);
    } else {
        let before = roles.drop_last();
        let last = roles.last();
        assert(upper_bounds_of(store, before, bounds.drop_last())) by {
            assert forall|i: int| 0 <= i < before.len() implies #[trigger] bounds.drop_last()[i]
                == role_cardinality(store, before[i]).end_inclusive by {
                assert(bounds.drop_last()[i] == bounds[i]);
            }
        }
        lemma_bounds_total(store, before, bounds.drop_last());
        seq_to_set_is_finite(before);
        assert(!before.to_set().contains(last)) by {
            if before.contains(last) {
                let i = choose|i: int| 0 <= i < before.len() && before[i] == last;
                assert(roles[i] == roles[roles.len() - 1]);
            }
        }
        assert(before.push(last) =~= roles);
        before.lemma_push_to_set_commute(last);
        lemma_fold_insert(before.to_set(), Some(0nat), adder, last);
        assert(bounds.last() == role_cardinality(store, last).end_inclusive);
    }
}

/// Whether `bounds` are the upper bounds of the cardinalities of `roles`, in order.
pub open spec fn upper_bounds_of(
    store: Store,
    roles: Seq<TypeVertex>,
    bounds: Seq<Option<u64>>,
) -> bool {
    bounds.len() == roles.len() && forall|i: int|
        0 <= i < roles.len() ==> #[trigger] bounds[i] == role_cardinality(
            store,
            roles[i],
        ).end_inclusive
}

/// The one door to the schema: reads go to the cache where there is one and to the snapshot
/// where there is none, writes go to the snapshot.
pub struct TypeManager<Snapshot> {
    vertex_generator: Arc<TypeVertexGenerator>,
    type_cache: Option<Arc<TypeCache>>,
    snapshot: PhantomData<Snapshot>,
}

impl<Snapshot> TypeManager<Snapshot> {
    /// There is nothing that a manager holds back until the end.
    pub fn finalise(self) -> (done: Result<(), Vec<ConceptWriteError>>)
        ensures
            done is Ok,
    {
        Ok(())
    }
}

impl<Snapshot: ReadableSnapshot> TypeManager<Snapshot> {
    pub fn new(
        vertex_generator: Arc<TypeVertexGenerator>,
        schema_cache: Option<Arc<TypeCache>>,
    ) -> (manager: Self)
        ensures
            manager.cache() == schema_cache,
    {
        TypeManager { vertex_generator, type_cache: schema_cache, snapshot: PhantomData }
    }

    /// The cache that reads go to, if there is one.
    pub closed spec fn cache(&self) -> Option<Arc<TypeCache>> {
        self.type_cache
    }

    /// The schema that reads see: what the cache was read from where there is a cache, what
    /// the snapshot holds where there is none.
    pub open spec fn schema(&self, snapshot: &Snapshot) -> Store {
        match self.cache() {
            Some(cache) => cache.source(),
            None => snapshot.contents(),
        }
    }

    /// The generator of the identities of new types.
    pub fn vertex_generator(&self) -> (generator: &TypeVertexGenerator) {
        &self.vertex_generator
    }

    /// Whether `type_label` is the label of the root type of `kind`.
    pub fn check_type_is_root(type_label: &Label, kind: Kind) -> (root: bool)
        ensures
            root == (type_label@ == kind.spec_root_label()),
    {
        *type_label == kind.root_label()
    }

    /// The type of `kind` with the label.
    pub fn get_labelled_type(
        &self,
        snapshot: &Snapshot,
        label: &Label,
        kind: Kind,
    ) -> (vertex: Option<TypeVertex>)
        ensures
            vertex == labelled_type(self.schema(snapshot), label@, kind),
    {
        let found = match &self.type_cache {
            Some(cache) => cache.get_labelled_vertex(label),
            None => TypeDecoder::get_labelled_vertex(snapshot, label),
        };
        match found {
            Some(vertex) => if vertex.kind == kind {
                Some(vertex)
            } else {
                None
            },
            None => None,
        }
    }

    /// The entity type with the label.
    pub fn get_entity_type(
        &self,
        snapshot: &Snapshot,
        label: &Label,
    ) -> (found: Result<Option<EntityType>, ConceptReadError>)
        ensures
            match found {
                Ok(found) => entity_type_vertex(found) == labelled_type(
                    self.schema(snapshot),
                    label@,
                    Kind::Entity,
                ),
                Err(_) => false,
            },
    {
        match self.get_labelled_type(snapshot, label, Kind::Entity) {
            Some(vertex) => Ok(Some(EntityType::from_vertex(vertex))),
            None => Ok(None),
        }
    }

    /// The relation type with the label.
    pub fn get_relation_type(
        &self,
        snapshot: &Snapshot,
        label: &Label,
    ) -> (found: Result<Option<RelationType>, ConceptReadError>)
        ensures
            match found {
                Ok(found) => relation_type_vertex(found) == labelled_type(
                    self.schema(snapshot),
                    label@,
                    Kind::Relation,
                ),
                Err(_) => false,
            },
    {
        match self.get_labelled_type(snapshot, label, Kind::Relation) {
            Some(vertex) => Ok(Some(RelationType::from_vertex(vertex))),
            None => Ok(None),
        }
    }

    /// The role type with the label.
    pub fn get_role_type(
        &self,
        snapshot: &Snapshot,
        label: &Label,
    ) -> (found: Result<Option<RoleType>, ConceptReadError>)
        ensures
            match found {
                Ok(found) => role_type_vertex(found) == labelled_type(
                    self.schema(snapshot),
                    label@,
                    Kind::Role,
                ),
                Err(_) => false,
            },
    {
        match self.get_labelled_type(snapshot, label, Kind::Role) {
            Some(vertex) => Ok(Some(RoleType::from_vertex(vertex))),
            None => Ok(None),
        }
    }

    /// The attribute type with the label.
    pub fn get_attribute_type(
        &self,
        snapshot: &Snapshot,
        label: &Label,
    ) -> (found: Result<Option<AttributeType>, ConceptReadError>)
        ensures
            match found {
                Ok(found) => attribute_type_vertex(found) == labelled_type(
                    self.schema(snapshot),
                    label@,
                    Kind::Attribute,
                ),
                Err(_) => false,
            },
    {
        match self.get_labelled_type(snapshot, label, Kind::Attribute) {
            Some(vertex) => Ok(Some(AttributeType::from_vertex(vertex))),
            None => Ok(None),
        }
    }

    /// The direct supertype of the type.
    pub fn get_supertype(
        &self,
        snapshot: &Snapshot,
        type_: TypeVertex,
    ) -> (supertype: Result<Option<TypeVertex>, ConceptReadError>)
        requires
            type_exists(self.schema(snapshot), type_),
        ensures
            match supertype {
                Ok(supertype) => supertype_is(self.schema(snapshot), type_, supertype),
                Err(error) => error == ConceptReadError::AmbiguousSupertype
                    && has_ambiguous_supertype(self.schema(snapshot), type_),
            },
    {
        match &self.type_cache {
            Some(cache) => Ok(cache.get(type_).supertype),
            None => TypeDecoder::get_supertype_vertex(snapshot, type_),
        }
    }

    /// The supertypes of the type, from the nearest to the root.
    pub fn get_supertypes(
        &self,
        snapshot: &Snapshot,
        type_: TypeVertex,
    ) -> (found: Result<Vec<TypeVertex>, ConceptReadError>)
        requires
            type_exists(self.schema(snapshot), type_),
        ensures
            match found {
                Ok(found) => supertype_chain(self.schema(snapshot), type_, HIERARCHY_LIMIT as nat)
                    == Ok::<Seq<TypeVertex>, ConceptReadError>(found@),
                Err(error) => supertype_chain(self.schema(snapshot), type_, HIERARCHY_LIMIT as nat)
                    == Err::<Seq<TypeVertex>, ConceptReadError>(error),
            },
    {
        match &self.type_cache {
            Some(cache) => Ok(copy_vertices(&cache.get(type_).supertypes)),
            None => TypeDecoder::get_supertypes_transitive(snapshot, type_),
        }
    }

    /// The direct subtypes of the type, each once.
    pub fn get_subtypes(&self, snapshot: &Snapshot, type_: TypeVertex) -> (found: Vec<TypeVertex>)
        requires
            type_exists(self.schema(snapshot), type_),
        ensures
            lists_rising(found@, subtypes(self.schema(snapshot), type_)),
    {
        match &self.type_cache {
            Some(cache) => copy_vertices(&cache.get(type_).subtypes),
            None => TypeDecoder::get_subtypes(snapshot, type_),
        }
    }

    /// All subtypes of the type, direct or not, each once.
    pub fn get_subtypes_transitive(
        &self,
        snapshot: &Snapshot,
        type_: TypeVertex,
    ) -> (found: Result<Vec<TypeVertex>, ConceptReadError>)
        requires
            type_exists(self.schema(snapshot), type_),
        ensures
            match found {
                Ok(found) => lists_rising(found@, subtypes_transitive(self.schema(snapshot), type_))
                    && subtypes_at(self.schema(snapshot), type_, HIERARCHY_LIMIT as nat)
                    == Set::<TypeVertex>::empty(),
                Err(error) => error == ConceptReadError::HierarchyTooDeep && subtypes_at(
                    self.schema(snapshot),
                    type_,
                    HIERARCHY_LIMIT as nat,
                ) != Set::<TypeVertex>::empty(),
            },
    {
        match &self.type_cache {
            Some(cache) => Ok(copy_vertices(&cache.get(type_).subtypes_transitive)),
            None => TypeDecoder::get_subtypes_transitive(snapshot, type_),
        }
    }

    /// Whether the type is the root type of its kind.
    pub fn get_is_root(
        &self,
        snapshot: &Snapshot,
        type_: TypeVertex,
    ) -> (root: Result<bool, ConceptReadError>)
        requires
            type_exists(self.schema(snapshot), type_),
        ensures
            match root {
                Ok(root) => root == is_root(self.schema(snapshot), type_) && label_of(
                    self.schema(snapshot),
                    type_,
                ) is Some,
                Err(error) => error == (ConceptReadError::Encoding {
                    source: EncodingError::MalformedBytes,
                }) && !valid_utf8(label_bytes(self.schema(snapshot), type_)),
            },
    {
        match &self.type_cache {
            Some(cache) => Ok(cache.get(type_).is_root),
            None => TypeDecoder::get_is_root(snapshot, type_),
        }
    }

    /// The label of the type.
    pub fn get_label(
        &self,
        snapshot: &Snapshot,
        type_: TypeVertex,
    ) -> (label: Result<Label, ConceptReadError>)
        requires
            type_exists(self.schema(snapshot), type_),
        ensures
            match label {
                Ok(label) => label_of(self.schema(snapshot), type_) == Some(label@),
                Err(error) => error == (ConceptReadError::Encoding {
                    source: EncodingError::MalformedBytes,
                }) && !valid_utf8(label_bytes(self.schema(snapshot), type_)),
            },
    {
        match &self.type_cache {
            Some(cache) => Ok(cache.get(type_).label.clone()),
            None => match TypeDecoder::get_label(snapshot, type_) {
                Ok(Some(label)) => Ok(label),
                Ok(None) => Err(
                    ConceptReadError::Encoding { source: EncodingError::MalformedBytes },
                ),
                Err(error) => Err(error),
            },
        }
    }

    /// The annotations of the type, in the order abstract, distinct, independent,
    /// cardinality.
    pub fn get_annotations(
        &self,
        snapshot: &Snapshot,
        type_: TypeVertex,
    ) -> (annotations: Result<Vec<Annotation>, ConceptReadError>)
        requires
            type_exists(self.schema(snapshot), type_),
        ensures
            match annotations {
                Ok(annotations) => annotations@ == annotations_of(self.schema(snapshot), type_)
                    && cardinality_of(self.schema(snapshot), type_) != Some(
                    None::<AnnotationCardinality>,
                ),
                Err(error) => error == (ConceptReadError::Encoding {
                    source: EncodingError::MalformedBytes,
                }) && cardinality_of(self.schema(snapshot), type_) == Some(
                    None::<AnnotationCardinality>,
                ),
            },
    {
        match &self.type_cache {
            Some(cache) => Ok(copy_annotations(&cache.get(type_).annotations)),
            None => TypeDecoder::get_type_annotations(snapshot, type_),
        }
    }

    /// The attribute types that the type owns, each once.
    pub fn get_owns(&self, snapshot: &Snapshot, owner: TypeVertex) -> (found: Vec<TypeVertex>)
        requires
            type_exists(self.schema(snapshot), owner),
        ensures
            lists_rising(
                found@,
                typed_targets(self.schema(snapshot), EdgeKind::Owns, owner, Kind::Attribute),
            ),
    {
        match &self.type_cache {
            Some(cache) => {
                let owns = &cache.get(owner).owns;
                let mut found: Vec<TypeVertex> = Vec::new();
                let mut i: usize = 0;
                while i < owns.len()
                    invariant
                        0 <= i <= owns@.len(),
                        found@.len() == i,
                        forall|t: int| 0 <= t < i ==> found@[t] == owns@[t].attribute,
                    decreases owns@.len() - i,
                {
                    found.push(owns[i].attribute);
                    i += 1;
                }
                assert(found@ =~= owned_attributes(owns@));
                found
            },
            None => TypeDecoder::get_owns(snapshot, owner),
        }
    }

    /// The role types that the type plays, each once.
    pub fn get_plays(&self, snapshot: &Snapshot, player: TypeVertex) -> (found: Vec<TypeVertex>)
        requires
            type_exists(self.schema(snapshot), player),
        ensures
            lists_rising(
                found@,
                typed_targets(self.schema(snapshot), EdgeKind::Plays, player, Kind::Role),
            ),
    {
        match &self.type_cache {
            Some(cache) => copy_vertices(&cache.get(player).plays),
            None => TypeDecoder::get_plays(snapshot, player),
        }
    }

    /// The role types that the relation type defines, each once.
    pub fn get_relates(&self, snapshot: &Snapshot, relation: TypeVertex) -> (found: Vec<TypeVertex>)
        requires
            type_exists(self.schema(snapshot), relation),
        ensures
            lists_rising(
                found@,
                typed_targets(self.schema(snapshot), EdgeKind::Relates, relation, Kind::Role),
            ),
    {
        match &self.type_cache {
            Some(cache) => copy_vertices(&cache.get(relation).relates),
            None => TypeDecoder::get_relates(snapshot, relation),
        }
    }

    /// The value type of the attribute type.
    pub fn get_value_type(
        &self,
        snapshot: &Snapshot,
        attribute: TypeVertex,
    ) -> (value_type: Result<Option<ValueType>, ConceptReadError>)
        requires
            type_exists(self.schema(snapshot), attribute),
        ensures
            match value_type {
                Ok(Some(value_type)) => value_type_of(self.schema(snapshot), attribute) == Some(
                    Some(value_type),
                ),
                Ok(None) => value_type_of(self.schema(snapshot), attribute) is None,
                Err(error) => error == (ConceptReadError::Encoding {
                    source: EncodingError::MalformedBytes,
                }) && value_type_of(self.schema(snapshot), attribute) == Some(
                    None::<ValueType>,
                ),
            },
    {
        match &self.type_cache {
            Some(cache) => match cache.get(attribute).value_type {
                Some(id) => Ok(ValueType::from_value_type_id(id)),
                None => Ok(None),
            },
            None => TypeDecoder::get_value_type(snapshot, attribute),
        }
    }

    /// The order mode of the role type.
    pub fn get_role_ordering(
        &self,
        snapshot: &Snapshot,
        role: TypeVertex,
    ) -> (mode: Result<OrderMode, ConceptReadError>)
        requires
            type_exists(self.schema(snapshot), role),
            role.kind == Kind::Role,
        ensures
            match mode {
                Ok(mode) => order_mode_of(self.schema(snapshot), role) == Some(Some(mode)),
                Err(error) => error == (ConceptReadError::Encoding {
                    source: EncodingError::MalformedBytes,
                }) && !(order_mode_of(self.schema(snapshot), role) matches Some(Some(_))),
            },
    {
        match &self.type_cache {
            Some(cache) => match cache.get(role).order_mode {
                Some(mode) => Ok(mode),
                None => Err(ConceptReadError::Encoding { source: EncodingError::MalformedBytes }),
            },
            None => TypeDecoder::get_type_ordering(snapshot, role),
        }
    }

    /// The annotations of the ownership of `attribute` by `owner`, in the order distinct,
    /// cardinality.
    pub fn get_owns_annotations(
        &self,
        snapshot: &Snapshot,
        owner: TypeVertex,
        attribute: TypeVertex,
    ) -> (annotations: Result<Vec<Annotation>, ConceptReadError>)
        requires
            type_exists(self.schema(snapshot), owner),
            attribute.kind == Kind::Attribute,
            has_edge(self.schema(snapshot), EdgeKind::Owns, owner, attribute),
        ensures
            match annotations {
                Ok(annotations) => annotations@ == edge_annotations_of(
                    self.schema(snapshot),
                    TypeEdge { kind: EdgeKind::Owns, from: owner, to: attribute },
                ) && edge_cardinality_of(
                    self.schema(snapshot),
                    TypeEdge { kind: EdgeKind::Owns, from: owner, to: attribute },
                ) != Some(None::<AnnotationCardinality>),
                Err(error) => error == (ConceptReadError::Encoding {
                    source: EncodingError::MalformedBytes,
                }) && edge_cardinality_of(
                    self.schema(snapshot),
                    TypeEdge { kind: EdgeKind::Owns, from: owner, to: attribute },
                ) == Some(None::<AnnotationCardinality>),
            },
    {
        match &self.type_cache {
            Some(cache) => Ok(copy_annotations(&cache.get_ownership(owner, attribute).annotations)),
            None => TypeDecoder::get_type_edge_annotations(
                snapshot,
                TypeEdge::new(EdgeKind::Owns, owner, attribute),
            ),
        }
    }

    /// The order mode of the ownership of `attribute` by `owner`.
    pub fn get_owns_ordering(
        &self,
        snapshot: &Snapshot,
        owner: TypeVertex,
        attribute: TypeVertex,
    ) -> (mode: Result<OrderMode, ConceptReadError>)
        requires
            type_exists(self.schema(snapshot), owner),
            attribute.kind == Kind::Attribute,
            has_edge(self.schema(snapshot), EdgeKind::Owns, owner, attribute),
        ensures
            match mode {
                Ok(mode) => edge_order_mode_of(
                    self.schema(snapshot),
                    TypeEdge { kind: EdgeKind::Owns, from: owner, to: attribute },
                ) == Some(Some(mode)),
                Err(error) => error == (ConceptReadError::Encoding {
                    source: EncodingError::MalformedBytes,
                }) && !(edge_order_mode_of(
                    self.schema(snapshot),
                    TypeEdge { kind: EdgeKind::Owns, from: owner, to: attribute },
                ) matches Some(Some(_))),
            },
    {
        match &self.type_cache {
            Some(cache) => Ok(cache.get_ownership(owner, attribute).order_mode),
            None => TypeDecoder::get_type_edge_ordering(
                snapshot,
                TypeEdge::new(EdgeKind::Owns, owner, attribute),
            ),
        }
    }

    /// The cardinality of a role type that has no cardinality annotation: exactly one.
    pub fn role_default_cardinality(&self) -> (cardinality: AnnotationCardinality)
        ensures
            cardinality == default_role_cardinality(),
    {
        AnnotationCardinality::new(1, Some(1))
    }

    /// The cardinality of the role type: its cardinality annotation, or the default where it
    /// has none.
    pub fn get_role_cardinality(
        &self,
        snapshot: &Snapshot,
        role: TypeVertex,
    ) -> (cardinality: Result<AnnotationCardinality, ConceptReadError>)
        requires
            type_exists(self.schema(snapshot), role),
        ensures
            match cardinality {
                Ok(cardinality) => cardinality == role_cardinality(self.schema(snapshot), role)
                    && cardinality_of(self.schema(snapshot), role) != Some(
                    None::<AnnotationCardinality>,
                ),
                Err(error) => error == (ConceptReadError::Encoding {
                    source: EncodingError::MalformedBytes,
                }) && cardinality_of(self.schema(snapshot), role) == Some(
                    None::<AnnotationCardinality>,
                ),
            },
    {
        let annotations = match self.get_annotations(snapshot, role) {
            Ok(annotations) => annotations,
            Err(error) => {
                return Err(error);
            },
        };
        let default = self.role_default_cardinality();
        let mut i: usize = 0;
        assert(annotations@.subrange(0, annotations@.len() as int) =~= annotations@);
        while i < annotations.len()
            invariant
                0 <= i <= annotations@.len(),
                default == default_role_cardinality(),
                annotations@ == annotations_of(self.schema(snapshot), role),
                cardinality_of(self.schema(snapshot), role) != Some(None::<AnnotationCardinality>),
                cardinality_among(annotations@, default) == cardinality_among(
                    annotations@.subrange(i as int, annotations@.len() as int),
                    default,
                ),
            decreases annotations@.len() - i,
        {
            let ghost rest = annotations@.subrange(i as int, annotations@.len() as int);
            assert(rest[0] == annotations@[i as int]);
            assert(rest.drop_first() =~= annotations@.subrange(
                i + 1,
                annotations@.len() as int,
            ));
            match annotations[i] {
                Annotation::Cardinality(cardinality) => {
                    return Ok(cardinality);
                },
                _ => {},
            }
            i += 1;
        }
        Ok(default)
    }

    /// Whether the instances of the relation type are indexed by their players: whether
    /// every role type that the relation type defines has an upper bound, and the bounds add
    /// up to no more than the threshold. The answer is worked out anew at every call.
    pub fn relation_index_available(
        &self,
        snapshot: &Snapshot,
        relation_type: RelationType,
    ) -> (available: Result<bool, ConceptReadError>)
        requires
            type_exists(self.schema(snapshot), relation_type@),
            forall|role: TypeVertex|
                typed_targets(
                    self.schema(snapshot),
                    EdgeKind::Relates,
                    relation_type@,
                    Kind::Role,
                ).contains(role) ==> #[trigger] type_exists(self.schema(snapshot), role),
        ensures
            match available {
                Ok(available) => available == relation_indexed(
                    self.schema(snapshot),
                    relation_type@,
                ),
                Err(error) => error == (ConceptReadError::Encoding {
                    source: EncodingError::MalformedBytes,
                }) && exists|role: TypeVertex|
                    typed_targets(
                        self.schema(snapshot),
                        EdgeKind::Relates,
                        relation_type@,
                        Kind::Role,
                    ).contains(role) && #[trigger] cardinality_of(self.schema(snapshot), role)
                        == Some(None::<AnnotationCardinality>),
            },
    {
        let relation = relation_type.vertex();
        let roles = self.get_relates(snapshot, relation);
        let ghost store = self.schema(snapshot);
        let mut bounds: Vec<Option<u64>> = Vec::new();
        let mut i: usize = 0;
        while i < roles.len()
            invariant
                0 <= i <= roles@.len(),
                store == self.schema(snapshot),
                relation == relation_type@,
                lists_set(roles@, typed_targets(store, EdgeKind::Relates, relation, Kind::Role)),
                forall|role: TypeVertex|
                    typed_targets(store, EdgeKind::Relates, relation, Kind::Role).contains(role)
                        ==> #[trigger] type_exists(store, role),
                bounds@.len() == i,
                forall|t: int|
                    0 <= t < i ==> #[trigger] bounds@[t] == role_cardinality(
                        store,
                        roles@[t],
                    ).end_inclusive,
            decreases roles@.len() - i,
        {
            let role = roles[i];
            proof {
                assert(roles@.to_set().contains(role));
                assert(type_exists(store, role));
            }
            match self.get_role_cardinality(snapshot, role) {
                Ok(cardinality) => bounds.push(cardinality.end()),
                Err(error) => {
                    return Err(error);
                },
            }
            i += 1;
        }
        proof {
            assert(upper_bounds_of(store, roles@, bounds@));
            lemma_bounds_total(store, roles@, bounds@);
        }
        Ok(relation_index_eligible(&bounds))
    }
}

impl<Snapshot: WritableSnapshot> TypeManager<Snapshot> {
    /// Creates an entity type with the label, below the root type of the kind unless it is
    /// to be the root type itself.
    pub fn create_entity_type(
        &self,
        snapshot: &mut Snapshot,
        label: &Label,
        is_root: bool,
    ) -> (created: Result<EntityType, ConceptWriteError>)
        requires
            !is_root ==> root_of(old(snapshot).contents(), Kind::Entity) is Some,
        ensures
            creates_type(
                old(snapshot).contents(),
                final(snapshot).contents(),
                Kind::Entity,
                label@,
                supertype_for(old(snapshot).contents(), Kind::Entity, is_root),
                entity_type_created(created),
            ),
    {
        EntityType::create_entity_type(snapshot, &self.vertex_generator, label, is_root)
    }

    /// Creates a relation type with the label, below the root type of the kind unless it is
    /// to be the root type itself.
    pub fn create_relation_type(
        &self,
        snapshot: &mut Snapshot,
        label: &Label,
        is_root: bool,
    ) -> (created: Result<RelationType, ConceptWriteError>)
        requires
            !is_root ==> root_of(old(snapshot).contents(), Kind::Relation) is Some,
        ensures
            creates_type(
                old(snapshot).contents(),
                final(snapshot).contents(),
                Kind::Relation,
                label@,
                supertype_for(old(snapshot).contents(), Kind::Relation, is_root),
                relation_type_created(created),
            ),
    {
        RelationType::create_relation_type(snapshot, &self.vertex_generator, label, is_root)
    }

    /// Creates an attribute type with the label, below the root type of the kind unless it is
    /// to be the root type itself.
    pub fn create_attribute_type(
        &self,
        snapshot: &mut Snapshot,
        label: &Label,
        is_root: bool,
    ) -> (created: Result<AttributeType, ConceptWriteError>)
        requires
            !is_root ==> root_of(old(snapshot).contents(), Kind::Attribute) is Some,
        ensures
            creates_type(
                old(snapshot).contents(),
                final(snapshot).contents(),
                Kind::Attribute,
                label@,
                supertype_for(old(snapshot).contents(), Kind::Attribute, is_root),
                attribute_type_created(created),
            ),
    {
        AttributeType::create_attribute_type(snapshot, &self.vertex_generator, label, is_root)
    }

    /// Creates a role type with the label that `relation_type` defines, held in `ordering`,
    /// below the root role type unless it is to be the root role type itself.
    pub fn create_role_type(
        &self,
        snapshot: &mut Snapshot,
        label: &Label,
        relation_type: RelationType,
        is_root: bool,
        ordering: OrderMode,
    ) -> (created: Result<RoleType, ConceptWriteError>)
        requires
            !is_root ==> root_of(old(snapshot).contents(), Kind::Role) is Some,
        ensures
            creates_role_type(
                old(snapshot).contents(),
                final(snapshot).contents(),
                label@,
                relation_type@,
                ordering,
                supertype_for(old(snapshot).contents(), Kind::Role, is_root),
                role_type_created(created),
            ),
    {
        let supertype = if is_root {
            None
        } else {
            TypeDecoder::get_root(&*snapshot, Kind::Role)
        };
        match type_encoder::create_role_type(
            snapshot,
            &self.vertex_generator,
            label,
            relation_type.vertex(),
            ordering,
            supertype,
        ) {
            Ok(vertex) => Ok(RoleType::from_vertex(vertex)),
            Err(error) => Err(error),
        }
    }
}

/// A handle that can be read from the bytes of a vertex.
pub trait ReadableType: Sized {
    /// The kind of the types that the handle stands for.
    spec fn spec_root_kind() -> Kind;

    /// The vertex of the type that the handle stands for.
    spec fn spec_vertex(&self) -> TypeVertex;

    /// The kind of the types that the handle stands for.
    fn root_kind() -> (kind: Kind)
        ensures
            kind == Self::spec_root_kind(),
    ;

    /// The handle to the type whose vertex the bytes spell.
    fn read_from(bytes: &[u8]) -> (read: Result<Self, EncodingError>)
        ensures
            match read {
                Ok(read) => TypeVertex::spec_from_bytes(bytes@) == Some(read.spec_vertex())
                    && read.spec_vertex().kind == Self::spec_root_kind(),
                Err(error) => match TypeVertex::spec_from_bytes(bytes@) {
                    Some(vertex) => vertex.kind != Self::spec_root_kind() && error == (
                    EncodingError::UnexpectedKind {
                        expected: Self::spec_root_kind(),
                        actual: vertex.kind,
                    }),
                    None => error == EncodingError::MalformedBytes,
                },
            },
    ;
}

/// A copy of the vertices.
pub fn copy_vertices(vertices: &Vec<TypeVertex>) -> (copy: Vec<TypeVertex>)
    ensures
        copy@ == vertices@,
{
    let mut copy: Vec<TypeVertex> = Vec::new();
    let mut i: usize = 0;
    while i < vertices.len()
        invariant
            0 <= i <= vertices@.len(),
            copy@ == vertices@.subrange(0, i as int),
        decreases vertices@.len() - i,
    {
        copy.push(vertices[i]);
        assert(copy@ =~= vertices@.subrange(0, i + 1));
        i += 1;
    }
    assert(copy@ =~= vertices@);
    copy
}

/// A copy of the annotations.
pub fn copy_annotations(annotations: &Vec<Annotation>) -> (copy: Vec<Annotation>)
    ensures
        copy@ == annotations@,
{
    let mut copy: Vec<Annotation> = Vec::new();
    let mut i: usize = 0;
    while i < annotations.len()
        invariant
            0 <= i <= annotations@.len(),
            copy@ == annotations@.subrange(0, i as int),
        decreases annotations@.len() - i,
    {
        copy.push(annotations[i]);
        assert(copy@ =~= annotations@.subrange(0, i + 1));
        i += 1;
    }
    assert(copy@ =~= annotations@);
    copy
}

} // verus!
