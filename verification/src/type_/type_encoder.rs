use crate::encoding::edge::{edge_key, EdgeKind, TypeEdge};
use crate::encoding::kind::Kind;
use crate::encoding::label::{label_index_key, Label, LABEL_INDEX_TAG};
use crate::encoding::property::{
    build_property_type_annotation_abstract, build_property_type_annotation_cardinality,
    build_property_type_annotation_distinct, build_property_type_annotation_independent,
    build_property_type_edge_annotation_cardinality, build_property_type_edge_annotation_distinct,
    build_property_type_edge_ordering, build_property_type_label, build_property_type_ordering,
    build_property_type_value_type, edge_property_key, vertex_property_key, EdgeProperty,
    VertexProperty,
};
use crate::encoding::value_type::{value_type_bytes, ValueType};
use crate::encoding::vertex::TypeVertex;
use crate::encoding::vertex_generator::{is_exhausted, is_first_free, is_free, TypeVertexGenerator};
use crate::error::{ConceptReadError, ConceptWriteError, EncodingError};
use crate::snapshot::{bytes_equal, ReadableSnapshot, Store, WritableSnapshot};
use crate::type_::annotation::{
    cardinality_bytes, order_mode_bytes, serialise_annotation_cardinality, serialise_ordering,
    Annotation, AnnotationAbstract, AnnotationCardinality, OrderMode,
};
use crate::type_::attribute_type::AttributeTypeAnnotation;
use crate::type_::entity_type::EntityTypeAnnotation;
use crate::type_::relation_type::RelationTypeAnnotation;
use crate::type_::role_type::RoleTypeAnnotation;
use crate::type_::schema::{
    edge_targets, has_edge, has_label, is_root, label_bytes, label_in_use, label_taken_by_other,
    root_of,
};
use crate::type_::type_decoder::TypeDecoder;
use crate::type_::type_manager::TypeManager;
use std::sync::Arc;
use vstd::prelude::*;
use vstd::slice::slice_to_vec;
use vstd::utf8::{encode_utf8, valid_utf8};

verus! {

/// `store` without the keys in `removed`.
pub open spec fn without_keys(store: Store, removed: Set<Seq<u8>>) -> Store {
    Map::new(
        |key: Seq<u8>| store.contains_key(key) && !removed.contains(key),
        |key: Seq<u8>| store[key],
    )
}

/// `store` without the label of the type and without the index entry of that label.
pub open spec fn without_label(store: Store, vertex: TypeVertex) -> Store {
    if has_label(store, vertex) {
        store.remove(vertex_property_key(VertexProperty::Label, vertex)).remove(
            seq![60u8] + label_bytes(store, vertex),
        )
    } else {
        store
    }
}

/// `store` with `label` as the one label of the type, and the index entry that leads from the
/// label to the type.
pub open spec fn with_label(store: Store, vertex: TypeVertex, label: Seq<char>) -> Store {
    without_label(store, vertex).insert(
        vertex_property_key(VertexProperty::Label, vertex),
        encode_utf8(label),
    ).insert(label_index_key(label), vertex.spec_bytes())
}

/// `store` with the edge of `kind` from `from` to `to`, and the same edge seen from `to`.
pub open spec fn with_edge(
    store: Store,
    kind: EdgeKind,
    from: TypeVertex,
    to: TypeVertex,
) -> Store {
    store.insert(edge_key(kind, from, to), Seq::empty()).insert(
        edge_key(kind.spec_reverse(), to, from),
        Seq::empty(),
    )
}

/// `store` without the edge of `kind` from `from` to `to`, in either direction.
pub open spec fn without_edge(
    store: Store,
    kind: EdgeKind,
    from: TypeVertex,
    to: TypeVertex,
) -> Store {
    store.remove(edge_key(kind, from, to)).remove(edge_key(kind.spec_reverse(), to, from))
}

/// Whether `key` is the key, in either direction, of an edge of `kind` that leaves `from` for
/// one of the first `count` of `targets`.
pub open spec fn is_edge_key_of(
    targets: Seq<TypeVertex>,
    count: int,
    kind: EdgeKind,
    from: TypeVertex,
    key: Seq<u8>,
) -> bool {
    exists|t: int|
        0 <= t < count && t < targets.len() && (key == edge_key(kind, from, #[trigger] targets[t])
            || key == edge_key(kind.spec_reverse(), targets[t], from))
}

/// Whether `key` is the key, in either direction, of an edge of `kind` that leaves `from` in
/// `store`.
pub open spec fn is_edge_key_from(
    store: Store,
    kind: EdgeKind,
    from: TypeVertex,
    key: Seq<u8>,
) -> bool {
    exists|to: TypeVertex| #[trigger]
        has_edge(store, kind, from, to) && (key == edge_key(kind, from, to) || key == edge_key(
            kind.spec_reverse(),
            to,
            from,
        ))
}

/// `store` without any edge of `kind` that leaves `from`, in either direction.
pub open spec fn without_edges_from(store: Store, kind: EdgeKind, from: TypeVertex) -> Store {
    without_keys(store, Set::new(|key: Seq<u8>| is_edge_key_from(store, kind, from, key)))
}

/// `store` with `supertype` as the one direct supertype of `subtype`.
pub open spec fn with_supertype(store: Store, subtype: TypeVertex, supertype: TypeVertex) -> Store {
    with_edge(without_edges_from(store, EdgeKind::Sub, subtype), EdgeKind::Sub, subtype, supertype)
}

/// `store` with the ownership of `attribute` by `owner`, held in `mode`.
pub open spec fn with_owns(
    store: Store,
    owner: TypeVertex,
    attribute: TypeVertex,
    mode: OrderMode,
) -> Store {
    with_edge(store, EdgeKind::Owns, owner, attribute).insert(
        edge_property_key(
            EdgeProperty::Order,
            TypeEdge { kind: EdgeKind::Owns, from: owner, to: attribute },
        ),
        order_mode_bytes(mode),
    )
}

/// `store` without the ownership of `attribute` by `owner` and without what is recorded
/// about that ownership.
pub open spec fn without_owns(store: Store, owner: TypeVertex, attribute: TypeVertex) -> Store {
    let edge = TypeEdge { kind: EdgeKind::Owns, from: owner, to: attribute };
    without_edge(store, EdgeKind::Owns, owner, attribute).remove(
        edge_property_key(EdgeProperty::Order, edge),
    ).remove(edge_property_key(EdgeProperty::AnnotationDistinct, edge)).remove(
        edge_property_key(EdgeProperty::AnnotationCardinality, edge),
    )
}

/// `store` with the new type `vertex`, labelled `label` and, where `supertype` names one,
/// placed below that type.
pub open spec fn with_type(
    store: Store,
    vertex: TypeVertex,
    label: Seq<char>,
    supertype: Option<TypeVertex>,
) -> Store {
    let labelled = with_label(store.insert(vertex.spec_bytes(), Seq::empty()), vertex, label);
    match supertype {
        Some(supertype) => with_supertype(labelled, vertex, supertype),
        None => labelled,
    }
}

/// `store` with the new role type `vertex`, labelled `label`, defined by `relation`, held in
/// `mode` and, where `supertype` names one, placed below that type.
pub open spec fn with_role_type(
    store: Store,
    vertex: TypeVertex,
    label: Seq<char>,
    relation: TypeVertex,
    mode: OrderMode,
    supertype: Option<TypeVertex>,
) -> Store {
    let labelled = with_label(store.insert(vertex.spec_bytes(), Seq::empty()), vertex, label);
    let related = with_edge(labelled, EdgeKind::Relates, relation, vertex).insert(
        vertex_property_key(VertexProperty::Order, vertex),
        order_mode_bytes(mode),
    );
    match supertype {
        Some(supertype) => with_supertype(related, vertex, supertype),
        None => related,
    }
}

/// The supertype that a new type of `kind` gets: none where it is to be the root type, the
/// root type of the kind where it is not.
pub open spec fn supertype_for(store: Store, kind: Kind, is_root: bool) -> Option<TypeVertex> {
    if is_root {
        None
    } else {
        root_of(store, kind)
    }
}

/// Why a type of `kind` with the label cannot be created in `store`, if it cannot: the
/// label is in use, or every number of the kind is taken.
pub open spec fn creation_error(store: Store, kind: Kind, label: Seq<char>) -> Option<
    ConceptWriteError,
> {
    if label_in_use(store, label) {
        Some(ConceptWriteError::LabelInUse)
    } else if is_exhausted(store, kind) {
        Some(ConceptWriteError::Encoding { source: EncodingError::TypeIdsExhausted { kind } })
    } else {
        None
    }
}

/// Whether creating a type of `kind` with the label, below `supertype` where one is given,
/// ended as `created` and made `after` of `before`: the type got the least free number of
/// its kind, or it could not be created and nothing was written.
pub open spec fn creates_type(
    before: Store,
    after: Store,
    kind: Kind,
    label: Seq<char>,
    supertype: Option<TypeVertex>,
    created: Result<TypeVertex, ConceptWriteError>,
) -> bool {
    match created {
        Ok(vertex) => {
            &&& creation_error(before, kind, label) is None
            &&& vertex.kind == kind
            &&& is_first_free(before, kind, vertex.id as int)
            &&& after == with_type(before, vertex, label, supertype)
        },
        Err(error) => creation_error(before, kind, label) == Some(error) && after == before,
    }
}

/// Whether creating a role type with the label that `relation` defines, held in `mode`,
/// below `supertype` where one is given, ended as `created` and made `after` of `before`.
pub open spec fn creates_role_type(
    before: Store,
    after: Store,
    label: Seq<char>,
    relation: TypeVertex,
    mode: OrderMode,
    supertype: Option<TypeVertex>,
    created: Result<TypeVertex, ConceptWriteError>,
) -> bool {
    match created {
        Ok(vertex) => {
            &&& creation_error(before, Kind::Role, label) is None
            &&& vertex.kind == Kind::Role
            &&& is_first_free(before, Kind::Role, vertex.id as int)
            &&& after == with_role_type(before, vertex, label, relation, mode, supertype)
        },
        Err(error) => creation_error(before, Kind::Role, label) == Some(error) && after
            == before,
    }
}

/// Creates a type of `kind` with the label `label`, below `supertype` where one is given.
/// A label that is in use is refused before anything is written.
pub fn create_type<S: WritableSnapshot>(
    snapshot: &mut S,
    vertex_generator: &TypeVertexGenerator,
    kind: Kind,
    label: &Label,
    supertype: Option<TypeVertex>,
) -> (created: Result<TypeVertex, ConceptWriteError>)
    ensures
        creates_type(
            old(snapshot).contents(),
            final(snapshot).contents(),
            kind,
            label@,
            supertype,
            created,
        ),
{
    if snapshot.get(label.index_key().as_slice()).is_some() {
        return Err(ConceptWriteError::LabelInUse);
    }
    match vertex_generator.allocate(snapshot, kind) {
        Ok(vertex) => {
            set_label(snapshot, vertex, label);
            match supertype {
                Some(supertype) => set_supertype(snapshot, vertex, supertype),
                None => {},
            }
            Ok(vertex)
        },
        Err(source) => Err(ConceptWriteError::Encoding { source }),
    }
}

/// Creates a role type with the label `label` that `relation` defines, held in `mode`, below
/// `supertype` where one is given. A label that is in use is refused before anything is
/// written.
pub fn create_role_type<S: WritableSnapshot>(
    snapshot: &mut S,
    vertex_generator: &TypeVertexGenerator,
    label: &Label,
    relation: TypeVertex,
    mode: OrderMode,
    supertype: Option<TypeVertex>,
) -> (created: Result<TypeVertex, ConceptWriteError>)
    ensures
        creates_role_type(
            old(snapshot).contents(),
            final(snapshot).contents(),
            label@,
            relation,
            mode,
            supertype,
            created,
        ),
{
    if snapshot.get(label.index_key().as_slice()).is_some() {
        return Err(ConceptWriteError::LabelInUse);
    }
    match vertex_generator.allocate(snapshot, Kind::Role) {
        Ok(vertex) => {
            set_label(snapshot, vertex, label);
            set_relates(snapshot, relation, vertex);
            set_role_ordering(snapshot, vertex, mode);
            match supertype {
                Some(supertype) => set_supertype(snapshot, vertex, supertype),
                None => {},
            }
            Ok(vertex)
        },
        Err(source) => Err(ConceptWriteError::Encoding { source }),
    }
}

/// `store` with the annotation attached to the type.
pub open spec fn with_annotation(
    store: Store,
    vertex: TypeVertex,
    annotation: Annotation,
) -> Store {
    match annotation {
        Annotation::Abstract(_) => store.insert(
            vertex_property_key(VertexProperty::AnnotationAbstract, vertex),
            Seq::empty(),
        ),
        Annotation::Distinct(_) => store.insert(
            vertex_property_key(VertexProperty::AnnotationDistinct, vertex),
            Seq::empty(),
        ),
        Annotation::Independent(_) => store.insert(
            vertex_property_key(VertexProperty::AnnotationIndependent, vertex),
            Seq::empty(),
        ),
        Annotation::Cardinality(cardinality) => store.insert(
            vertex_property_key(VertexProperty::AnnotationCardinality, vertex),
            cardinality_bytes(cardinality),
        ),
    }
}

/// `store` without an annotation of this sort on the type.
pub open spec fn without_annotation(
    store: Store,
    vertex: TypeVertex,
    annotation: Annotation,
) -> Store {
    match annotation {
        Annotation::Abstract(_) => store.remove(
            vertex_property_key(VertexProperty::AnnotationAbstract, vertex),
        ),
        Annotation::Distinct(_) => store.remove(
            vertex_property_key(VertexProperty::AnnotationDistinct, vertex),
        ),
        Annotation::Independent(_) => store.remove(
            vertex_property_key(VertexProperty::AnnotationIndependent, vertex),
        ),
        Annotation::Cardinality(_) => store.remove(
            vertex_property_key(VertexProperty::AnnotationCardinality, vertex),
        ),
    }
}

/// Attaches the annotation to the type.
pub fn set_annotation<S: WritableSnapshot>(
    snapshot: &mut S,
    type_: TypeVertex,
    annotation: Annotation,
)
    ensures
        final(snapshot).contents() == with_annotation(old(snapshot).contents(), type_, annotation),
{
    match annotation {
        Annotation::Abstract(_) => set_annotation_abstract(snapshot, type_),
        Annotation::Distinct(_) => set_annotation_distinct(snapshot, type_),
        Annotation::Independent(_) => set_annotation_independent(snapshot, type_),
        Annotation::Cardinality(cardinality) => set_annotation_cardinality(
            snapshot,
            type_,
            cardinality,
        ),
    }
}

/// Takes the annotation of this sort off the type.
pub fn delete_annotation<S: WritableSnapshot>(
    snapshot: &mut S,
    type_: TypeVertex,
    annotation: Annotation,
)
    ensures
        final(snapshot).contents() == without_annotation(
            old(snapshot).contents(),
            type_,
            annotation,
        ),
{
    match annotation {
        Annotation::Abstract(_) => delete_annotation_abstract(snapshot, type_),
        Annotation::Distinct(_) => delete_annotation_distinct(snapshot, type_),
        Annotation::Independent(_) => delete_annotation_independent(snapshot, type_),
        Annotation::Cardinality(_) => delete_annotation_cardinality(snapshot, type_),
    }
}

/// Whether `label` may become the label of the type: whether the type is no root type and
/// no other type carries the label.
pub open spec fn relabel_outcome(store: Store, vertex: TypeVertex, label: Seq<char>) -> Result<
    (),
    ConceptWriteError,
> {
    if !valid_utf8(label_bytes(store, vertex)) {
        Err(
            ConceptWriteError::Read {
                cause: ConceptReadError::Encoding { source: EncodingError::MalformedBytes },
            },
        )
    } else if is_root(store, vertex) {
        Err(ConceptWriteError::RootModification)
    } else if label_taken_by_other(store, label, vertex) {
        Err(ConceptWriteError::LabelInUse)
    } else {
        Ok(())
    }
}

/// Whether the type may get another supertype: whether it is no root type.
pub open spec fn reparent_outcome(store: Store, vertex: TypeVertex) -> Result<
    (),
    ConceptWriteError,
> {
    if !valid_utf8(label_bytes(store, vertex)) {
        Err(
            ConceptWriteError::Read {
                cause: ConceptReadError::Encoding { source: EncodingError::MalformedBytes },
            },
        )
    } else if is_root(store, vertex) {
        Err(ConceptWriteError::RootModification)
    } else {
        Ok(())
    }
}

/// Gives the type another label, unless it is a root type or another type carries the
/// label. Nothing is written where the label is refused.
pub fn relabel<S: WritableSnapshot>(
    snapshot: &mut S,
    type_: TypeVertex,
    label: &Label,
) -> (done: Result<(), ConceptWriteError>)
    requires
        has_label(old(snapshot).contents(), type_),
    ensures
        done == relabel_outcome(old(snapshot).contents(), type_, label@),
        final(snapshot).contents() == (if done is Ok {
            with_label(old(snapshot).contents(), type_, label@)
        } else {
            old(snapshot).contents()
        }),
{
    match TypeDecoder::get_is_root(&*snapshot, type_) {
        Ok(true) => {
            return Err(ConceptWriteError::RootModification);
        },
        Ok(false) => {},
        Err(cause) => {
            return Err(ConceptWriteError::Read { cause });
        },
    }
    match snapshot.get(label.index_key().as_slice()) {
        Some(holder) => {
            if !bytes_equal(holder.as_slice(), type_.bytes().as_slice()) {
                return Err(ConceptWriteError::LabelInUse);
            }
        },
        None => {},
    }
    set_label(snapshot, type_, label);
    Ok(())
}

/// Places the type below `supertype`, unless it is a root type. Nothing is written where
/// the change is refused.
pub fn reparent<S: WritableSnapshot>(
    snapshot: &mut S,
    type_: TypeVertex,
    supertype: TypeVertex,
) -> (done: Result<(), ConceptWriteError>)
    requires
        has_label(old(snapshot).contents(), type_),
    ensures
        done == reparent_outcome(old(snapshot).contents(), type_),
        final(snapshot).contents() == (if done is Ok {
            with_supertype(old(snapshot).contents(), type_, supertype)
        } else {
            old(snapshot).contents()
        }),
{
    match TypeDecoder::get_is_root(&*snapshot, type_) {
        Ok(true) => {
            return Err(ConceptWriteError::RootModification);
        },
        Ok(false) => {},
        Err(cause) => {
            return Err(ConceptWriteError::Read { cause });
        },
    }
    set_supertype(snapshot, type_, supertype);
    Ok(())
}

/// The vertex of `kind` with the least number that is free in `store`.
pub open spec fn first_free(store: Store, kind: Kind) -> TypeVertex {
    TypeVertex { kind, id: (choose|id: int| is_first_free(store, kind, id)) as u16 }
}

/// The vertex with the least free number is the one that `first_free` names.
pub proof fn lemma_first_free(store: Store, kind: Kind, id: int)
    requires
        is_first_free(store, kind, id),
    ensures
        first_free(store, kind) == (TypeVertex { kind, id: id as u16 }),
{
    let chosen = choose|other: int| is_first_free(store, kind, other);
    if chosen < id {
        assert(!is_free(store, kind, chosen));
    }
    if id < chosen {
        assert(!is_free(store, kind, id));
    }
}

/// The annotation that marks a type as abstract.
pub open spec fn abstract_annotation() -> Annotation {
    Annotation::Abstract(AnnotationAbstract {  })
}

/// What creating the root type of `kind` makes of `store`, or why it cannot be created.
pub open spec fn root_type_outcome(store: Store, kind: Kind) -> Result<Store, ConceptWriteError> {
    if let Some(error) = creation_error(store, kind, kind.spec_root_label()) {
        Err(error)
    } else {
        Ok(
            with_annotation(
                with_type(store, first_free(store, kind), kind.spec_root_label(), None),
                first_free(store, kind),
                abstract_annotation(),
            ),
        )
    }
}

/// What creating the root role type, defined by `relation`, makes of `store`, or why it
/// cannot be created.
pub open spec fn root_role_outcome(store: Store, relation: TypeVertex) -> Result<
    Store,
    ConceptWriteError,
> {
    if let Some(error) = creation_error(store, Kind::Role, Kind::Role.spec_root_label()) {
        Err(error)
    } else {
        Ok(
            with_annotation(
                with_role_type(
                    store,
                    first_free(store, Kind::Role),
                    Kind::Role.spec_root_label(),
                    relation,
                    OrderMode::Unordered,
                    None,
                ),
                first_free(store, Kind::Role),
                abstract_annotation(),
            ),
        )
    }
}

/// What creating the four root types in the order entity, relation, role, attribute makes
/// of `store`: how it ends, and what the store holds then. Where a root type cannot be
/// created, the ones before it stay.
pub open spec fn initialise_outcome(store: Store) -> (Result<(), ConceptWriteError>, Store) {
    match root_type_outcome(store, Kind::Entity) {
        Err(error) => (Err(error), store),
        Ok(with_entity) => match root_type_outcome(with_entity, Kind::Relation) {
            Err(error) => (Err(error), with_entity),
            Ok(with_relation) => match root_role_outcome(
                with_relation,
                first_free(with_entity, Kind::Relation),
            ) {
                Err(error) => (Err(error), with_relation),
                Ok(with_role) => match root_type_outcome(with_role, Kind::Attribute) {
                    Err(error) => (Err(error), with_role),
                    Ok(with_attribute) => (Ok(()), with_attribute),
                },
            },
        },
    }
}

/// Creates the four root types, each marked abstract at once. The caller opens the
/// transaction that `snapshot` belongs to and commits it.
pub fn initialise_types<S: WritableSnapshot>(
    snapshot: &mut S,
    vertex_generator: Arc<TypeVertexGenerator>,
) -> (done: Result<(), ConceptWriteError>)
    ensures
        (done, final(snapshot).contents()) == initialise_outcome(old(snapshot).contents()),
{
    let type_manager = TypeManager::<S>::new(vertex_generator, None);
    let ghost start = snapshot.contents();
    let root_entity = match type_manager.create_entity_type(
        snapshot,
        &Kind::Entity.root_label(),
        true,
    ) {
        Ok(root_entity) => root_entity,
        Err(error) => {
            return Err(error);
        },
    };
    proof {
        lemma_first_free(start, Kind::Entity, root_entity@.id as int);
    }
    let _ = root_entity.set_annotation(
        snapshot,
        EntityTypeAnnotation::Abstract(AnnotationAbstract::new()),
    );
    let ghost with_entity = snapshot.contents();
    let root_relation = match type_manager.create_relation_type(
        snapshot,
        &Kind::Relation.root_label(),
        true,
    ) {
        Ok(root_relation) => root_relation,
        Err(error) => {
            return Err(error);
        },
    };
    proof {
        lemma_first_free(with_entity, Kind::Relation, root_relation@.id as int);
    }
    let _ = root_relation.set_annotation(
        snapshot,
        RelationTypeAnnotation::Abstract(AnnotationAbstract::new()),
    );
    let ghost with_relation = snapshot.contents();
    let root_role = match type_manager.create_role_type(
        snapshot,
        &Kind::Role.root_label(),
        root_relation,
        true,
        OrderMode::Unordered,
    ) {
        Ok(root_role) => root_role,
        Err(error) => {
            return Err(error);
        },
    };
    proof {
        lemma_first_free(with_relation, Kind::Role, root_role@.id as int);
    }
    let _ = root_role.set_annotation(
        snapshot,
        RoleTypeAnnotation::Abstract(AnnotationAbstract::new()),
    );
    let ghost with_role = snapshot.contents();
    let root_attribute = match type_manager.create_attribute_type(
        snapshot,
        &Kind::Attribute.root_label(),
        true,
    ) {
        Ok(root_attribute) => root_attribute,
        Err(error) => {
            return Err(error);
        },
    };
    proof {
        lemma_first_free(with_role, Kind::Attribute, root_attribute@.id as int);
    }
    let _ = root_attribute.set_annotation(
        snapshot,
        AttributeTypeAnnotation::Abstract(AnnotationAbstract::new()),
    );
    Ok(())
}

/// Whether `key` is among `keys`.
pub open spec fn lists_key(keys: Seq<Vec<u8>>, key: Seq<u8>) -> bool {
    exists|i: int| 0 <= i < keys.len() && #[trigger] keys[i]@ == key
}

/// Whether `key` is the key of something that is recorded about the ownership of `attribute`
/// by `owner`.
pub open spec fn is_owns_property_key(
    owner: TypeVertex,
    attribute: TypeVertex,
    key: Seq<u8>,
) -> bool {
    exists|property: EdgeProperty|
        key == #[trigger] edge_property_key(
            property,
            TypeEdge { kind: EdgeKind::Owns, from: owner, to: attribute },
        )
}

/// Whether `key` is the key of something that `store` holds about the type: its vertex, what
/// is recorded with it, the index entry of its label, an edge that leaves it, in either
/// direction, or what is recorded about an ownership that it takes part in.
pub open spec fn is_key_of_type(store: Store, vertex: TypeVertex, key: Seq<u8>) -> bool {
    ||| key == vertex.spec_bytes()
    ||| exists|property: VertexProperty| key == #[trigger] vertex_property_key(property, vertex)
    ||| has_label(store, vertex) && key == seq![60u8] + label_bytes(store, vertex)
    ||| exists|kind: EdgeKind| #[trigger] is_edge_key_from(store, kind, vertex, key)
    ||| is_owns_property_key_of(store, vertex, true, key)
    ||| is_owns_property_key_of(store, vertex, false, key)
}

/// `store` without anything that it holds about the type.
pub open spec fn without_type(store: Store, vertex: TypeVertex) -> Store {
    without_keys(store, Set::new(|key: Seq<u8>| is_key_of_type(store, vertex, key)))
}

/// Whether the type may be deleted: whether it is no root type.
pub open spec fn delete_outcome(store: Store, vertex: TypeVertex) -> Result<(), ConceptWriteError> {
    reparent_outcome(store, vertex)
}

/// Removes every one of `keys`.
pub fn delete_keys<S: WritableSnapshot>(snapshot: &mut S, keys: Vec<Vec<u8>>)
    ensures
        final(snapshot).contents() == without_keys(
            old(snapshot).contents(),
            Set::new(|key: Seq<u8>| lists_key(keys@, key)),
        ),
{
    let ghost before = snapshot.contents();
    let mut i: usize = 0;
    assert(snapshot.contents() =~= without_keys(
        before,
        Set::new(|key: Seq<u8>| lists_key(keys@.subrange(0, 0), key)),
    ));
    while i < keys.len()
        invariant
            0 <= i <= keys@.len(),
            snapshot.contents() == without_keys(
                before,
                Set::new(|key: Seq<u8>| lists_key(keys@.subrange(0, i as int), key)),
            ),
        decreases keys@.len() - i,
    {
        let key = slice_to_vec(keys[i].as_slice());
        snapshot.delete(key);
        proof {
            let done = keys@.subrange(0, i as int);
            let next = keys@.subrange(0, i + 1);
            assert forall|other: Seq<u8>|
                lists_key(next, other) <==> lists_key(done, other) || other == keys@[i as int]@ by {
                if lists_key(next, other) {
                    let t = choose|t: int| 0 <= t < next.len() && #[trigger] next[t]@ == other;
                    if t < i {
                        assert(done[t]@ == other);
                    }
                }
                if lists_key(done, other) {
                    let t = choose|t: int| 0 <= t < done.len() && #[trigger] done[t]@ == other;
                    assert(next[t]@ == other);
                }
                if other == keys@[i as int]@ {
                    assert(next[i as int]@ == other);
                }
            }
            assert(snapshot.contents() =~= without_keys(
                before,
                Set::new(|key: Seq<u8>| lists_key(next, key)),
            ));
        }
        i += 1;
    }
    assert(keys@.subrange(0, keys@.len() as int) =~= keys@);
}

/// Adds to `keys` the keys of the edges of `kind` that leave the type, in both directions.
fn collect_edge_keys<S: ReadableSnapshot>(
    snapshot: &S,
    kind: EdgeKind,
    vertex: TypeVertex,
    keys: &mut Vec<Vec<u8>>,
)
    ensures
        forall|key: Seq<u8>|
            #[trigger] lists_key(final(keys)@, key) <==> lists_key(old(keys)@, key) || is_edge_key_from(
                snapshot.contents(),
                kind,
                vertex,
                key,
            ),
{
    let targets = TypeDecoder::get_edge_targets(snapshot, kind, vertex);
    let ghost store = snapshot.contents();
    let ghost start = keys@;
    let mut i: usize = 0;
    while i < targets.len()
        invariant
            0 <= i <= targets@.len(),
            forall|key: Seq<u8>|
                #[trigger] lists_key(keys@, key) <==> lists_key(start, key) || is_edge_key_of(
                    targets@,
                    i as int,
                    kind,
                    vertex,
                    key,
                ),
        decreases targets@.len() - i,
    {
        let ghost before = keys@;
        let forward = TypeEdge::new(kind, vertex, targets[i]);
        keys.push(forward.bytes());
        keys.push(forward.reversed().bytes());
        proof {
            let to = targets@[i as int];
            let first = edge_key(kind, vertex, to);
            let second = edge_key(kind.spec_reverse(), to, vertex);
            assert(keys@[before.len() as int]@ == first);
            assert(keys@[before.len() as int + 1]@ == second);
            assert forall|key: Seq<u8>|
                #[trigger] lists_key(keys@, key) <==> lists_key(start, key) || is_edge_key_of(
                    targets@,
                    i + 1,
                    kind,
                    vertex,
                    key,
                ) by {
                if lists_key(keys@, key) {
                    let t = choose|t: int| 0 <= t < keys@.len() && #[trigger] keys@[t]@ == key;
                    if t < before.len() {
                        assert(before[t]@ == key);
                        assert(lists_key(before, key));
                        if is_edge_key_of(targets@, i as int, kind, vertex, key) {
                            let u = choose|u: int|
                                0 <= u < i && u < targets@.len() && (key == edge_key(
                                    kind,
                                    vertex,
                                    #[trigger] targets@[u],
                                ) || key == edge_key(kind.spec_reverse(), targets@[u], vertex));
                            assert(is_edge_key_of(targets@, i + 1, kind, vertex, key));
                        }
                    } else {
                        assert(targets@[i as int] == to);
                        assert(is_edge_key_of(targets@, i + 1, kind, vertex, key));
                    }
                }
                if lists_key(start, key) {
                    assert(lists_key(before, key));
                    let t = choose|t: int| 0 <= t < before.len() && #[trigger] before[t]@ == key;
                    assert(keys@[t]@ == key);
                }
                if is_edge_key_of(targets@, i + 1, kind, vertex, key) {
                    let u = choose|u: int|
                        0 <= u < i + 1 && u < targets@.len() && (key == edge_key(
                            kind,
                            vertex,
                            #[trigger] targets@[u],
                        ) || key == edge_key(kind.spec_reverse(), targets@[u], vertex));
                    if u < i {
                        assert(is_edge_key_of(targets@, i as int, kind, vertex, key));
                        assert(lists_key(before, key));
                        let t = choose|t: int|
                            0 <= t < before.len() && #[trigger] before[t]@ == key;
                        assert(keys@[t]@ == key);
                    } else {
                        if key == first {
                            assert(keys@[before.len() as int]@ == key);
                        } else {
                            assert(keys@[before.len() as int + 1]@ == key);
                        }
                    }
                }
            }
        }
        i += 1;
    }
    proof {
        assert forall|key: Seq<u8>|
            is_edge_key_of(targets@, targets@.len() as int, kind, vertex, key)
                <==> is_edge_key_from(store, kind, vertex, key) by {
            if is_edge_key_of(targets@, targets@.len() as int, kind, vertex, key) {
                let t = choose|t: int|
                    0 <= t < targets@.len() && (key == edge_key(
                        kind,
                        vertex,
                        #[trigger] targets@[t],
                    ) || key == edge_key(kind.spec_reverse(), targets@[t], vertex));
                assert(targets@.to_set().contains(targets@[t]));
                assert(has_edge(store, kind, vertex, targets@[t]));
            }
            if is_edge_key_from(store, kind, vertex, key) {
                let to = choose|to: TypeVertex| #[trigger]
                    has_edge(store, kind, vertex, to) && (key == edge_key(kind, vertex, to) || key
                        == edge_key(kind.spec_reverse(), to, vertex));
                assert(edge_targets(store, kind, vertex).contains(to));
                assert(targets@.to_set().contains(to));
                let t = choose|t: int| 0 <= t < targets@.len() && targets@[t] == to;
                assert(key == edge_key(kind, vertex, targets@[t]) || key == edge_key(
                    kind.spec_reverse(),
                    targets@[t],
                    vertex,
                ));
            }
        }
    }
}

/// Whether `key` is the key of something that is recorded about the ownership between the
/// type and `other`: with the type as the owner where `as_owner` holds, as the attribute
/// type where it does not.
pub open spec fn is_owns_property_key_with(
    vertex: TypeVertex,
    other: TypeVertex,
    as_owner: bool,
    key: Seq<u8>,
) -> bool {
    if as_owner {
        is_owns_property_key(vertex, other, key)
    } else {
        is_owns_property_key(other, vertex, key)
    }
}

/// The kind of the edges that lead from a type to its partners in ownerships.
pub open spec fn owns_kind(as_owner: bool) -> EdgeKind {
    if as_owner {
        EdgeKind::Owns
    } else {
        EdgeKind::OwnsReverse
    }
}

/// Whether `key` is the key of something that `store` records about an ownership that the
/// type takes part in.
pub open spec fn is_owns_property_key_of(
    store: Store,
    vertex: TypeVertex,
    as_owner: bool,
    key: Seq<u8>,
) -> bool {
    exists|other: TypeVertex| #[trigger]
        has_edge(store, owns_kind(as_owner), vertex, other) && is_owns_property_key_with(
            vertex,
            other,
            as_owner,
            key,
        )
}

/// Adds to `keys` the keys of what is recorded about the ownerships that the type takes
/// part in: as the owner where `as_owner` holds, as the attribute type where it does not.
fn collect_owns_property_keys<S: ReadableSnapshot>(
    snapshot: &S,
    vertex: TypeVertex,
    as_owner: bool,
    keys: &mut Vec<Vec<u8>>,
)
    ensures
        forall|key: Seq<u8>|
            #[trigger] lists_key(final(keys)@, key) <==> lists_key(old(keys)@, key)
                || is_owns_property_key_of(snapshot.contents(), vertex, as_owner, key),
{
    let kind = if as_owner {
        EdgeKind::Owns
    } else {
        EdgeKind::OwnsReverse
    };
    let others = TypeDecoder::get_edge_targets(snapshot, kind, vertex);
    let ghost store = snapshot.contents();
    let ghost start = keys@;
    let mut i: usize = 0;
    while i < others.len()
        invariant
            0 <= i <= others@.len(),
            forall|key: Seq<u8>|
                #[trigger] lists_key(keys@, key) <==> lists_key(start, key) || exists|u: int|
                    0 <= u < i && is_owns_property_key_with(
                        vertex,
                        #[trigger] others@[u],
                        as_owner,
                        key,
                    ),
        decreases others@.len() - i,
    {
        let ghost before = keys@;
        let other = others[i];
        let edge = if as_owner {
            TypeEdge::new(EdgeKind::Owns, vertex, other)
        } else {
            TypeEdge::new(EdgeKind::Owns, other, vertex)
        };
        keys.push(build_property_type_edge_ordering(edge));
        keys.push(build_property_type_edge_annotation_distinct(edge));
        keys.push(build_property_type_edge_annotation_cardinality(edge));
        proof {
            let base = before.len() as int;
            assert(keys@[base]@ == edge_property_key(EdgeProperty::Order, edge));
            assert(keys@[base + 1]@ == edge_property_key(EdgeProperty::AnnotationDistinct, edge));
            assert(keys@[base + 2]@ == edge_property_key(
                EdgeProperty::AnnotationCardinality,
                edge,
            ));
            assert forall|key: Seq<u8>|
                #[trigger] lists_key(keys@, key) <==> lists_key(start, key) || exists|u: int|
                    0 <= u < i + 1 && is_owns_property_key_with(
                        vertex,
                        #[trigger] others@[u],
                        as_owner,
                        key,
                    ) by {
                if lists_key(keys@, key) {
                    let t = choose|t: int| 0 <= t < keys@.len() && #[trigger] keys@[t]@ == key;
                    if t < base {
                        assert(before[t]@ == key);
                        assert(lists_key(before, key));
                        if !lists_key(start, key) {
                            let u = choose|u: int|
                                0 <= u < i && is_owns_property_key_with(
                                    vertex,
                                    #[trigger] others@[u],
                                    as_owner,
                                    key,
                                );
                            assert(0 <= u < i + 1);
                        }
                    } else {
                        assert(is_owns_property_key_with(vertex, others@[i as int], as_owner, key));
                    }
                }
                if lists_key(start, key) {
                    assert(lists_key(before, key));
                    let t = choose|t: int| 0 <= t < before.len() && #[trigger] before[t]@ == key;
                    assert(keys@[t]@ == key);
                }
                if exists|u: int|
                    0 <= u < i + 1 && is_owns_property_key_with(
                        vertex,
                        #[trigger] others@[u],
                        as_owner,
                        key,
                    ) {
                    let u = choose|u: int|
                        0 <= u < i + 1 && is_owns_property_key_with(
                            vertex,
                            #[trigger] others@[u],
                            as_owner,
                            key,
                        );
                    if u < i {
                        assert(lists_key(before, key));
                        let t = choose|t: int|
                            0 <= t < before.len() && #[trigger] before[t]@ == key;
                        assert(keys@[t]@ == key);
                    } else {
                        let property = choose|property: EdgeProperty|
                            key == #[trigger] edge_property_key(property, edge);
                        match property {
                            EdgeProperty::Order => {
                                assert(keys@[base]@ == key);
                            },
                            EdgeProperty::AnnotationDistinct => {
                                assert(keys@[base + 1]@ == key);
                            },
                            EdgeProperty::AnnotationCardinality => {
                                assert(keys@[base + 2]@ == key);
                            },
                        }
                    }
                }
            }
        }
        i += 1;
    }
    proof {
        assert forall|key: Seq<u8>|
            (exists|u: int|
                0 <= u < others@.len() && is_owns_property_key_with(
                    vertex,
                    #[trigger] others@[u],
                    as_owner,
                    key,
                )) <==> is_owns_property_key_of(store, vertex, as_owner, key) by {
            if exists|u: int|
                0 <= u < others@.len() && is_owns_property_key_with(
                    vertex,
                    #[trigger] others@[u],
                    as_owner,
                    key,
                ) {
                let u = choose|u: int|
                    0 <= u < others@.len() && is_owns_property_key_with(
                        vertex,
                        #[trigger] others@[u],
                        as_owner,
                        key,
                    );
                assert(others@.to_set().contains(others@[u]));
                assert(has_edge(store, owns_kind(as_owner), vertex, others@[u]));
            }
            if is_owns_property_key_of(store, vertex, as_owner, key) {
                let other = choose|other: TypeVertex| #[trigger]
                    has_edge(store, owns_kind(as_owner), vertex, other)
                        && is_owns_property_key_with(vertex, other, as_owner, key);
                assert(edge_targets(store, kind, vertex).contains(other));
                assert(others@.to_set().contains(other));
                let u = choose|u: int| 0 <= u < others@.len() && others@[u] == other;
                assert(is_owns_property_key_with(vertex, others@[u], as_owner, key));
            }
        }
    }
}

/// Adds to `keys` the key of the vertex, the keys of what is recorded with the type, and the
/// key of the index entry of its label.
fn collect_own_keys<S: ReadableSnapshot>(snapshot: &S, vertex: TypeVertex, keys: &mut Vec<Vec<u8>>)
    ensures
        forall|key: Seq<u8>|
            #[trigger] lists_key(final(keys)@, key) <==> lists_key(old(keys)@, key) || key
                == vertex.spec_bytes() || (exists|property: VertexProperty|
                key == #[trigger] vertex_property_key(property, vertex)) || (has_label(
                snapshot.contents(),
                vertex,
            ) && key == seq![60u8] + label_bytes(snapshot.contents(), vertex)),
{
    let ghost start = keys@;
    let ghost store = snapshot.contents();
    let base = keys.len();
    keys.push(vertex.bytes());
    keys.push(build_property_type_label(vertex));
    keys.push(build_property_type_value_type(vertex));
    keys.push(build_property_type_ordering(vertex));
    keys.push(build_property_type_annotation_abstract(vertex));
    keys.push(build_property_type_annotation_independent(vertex));
    keys.push(build_property_type_annotation_distinct(vertex));
    keys.push(build_property_type_annotation_cardinality(vertex));
    let ghost fixed = keys@;
    match snapshot.get(build_property_type_label(vertex).as_slice()) {
        Some(label) => {
            let mut index_key: Vec<u8> = Vec::new();
            index_key.push(LABEL_INDEX_TAG);
            index_key.extend_from_slice(label.as_slice());
            assert(index_key@ =~= seq![60u8] + label@);
            keys.push(index_key);
        },
        None => {},
    }
    proof {
        assert forall|key: Seq<u8>|
            #[trigger] lists_key(keys@, key) <==> lists_key(start, key) || key == vertex.spec_bytes() || (
            exists|property: VertexProperty|
                key == #[trigger] vertex_property_key(property, vertex)) || (has_label(
                store,
                vertex,
            ) && key == seq![60u8] + label_bytes(store, vertex)) by {
            if lists_key(keys@, key) {
                let t = choose|t: int| 0 <= t < keys@.len() && #[trigger] keys@[t]@ == key;
                if t < base {
                    assert(start[t]@ == key);
                } else if t == base {
                } else if t == base + 1 {
                    assert(key == vertex_property_key(VertexProperty::Label, vertex));
                } else if t == base + 2 {
                    assert(key == vertex_property_key(VertexProperty::ValueType, vertex));
                } else if t == base + 3 {
                    assert(key == vertex_property_key(VertexProperty::Order, vertex));
                } else if t == base + 4 {
                    assert(key == vertex_property_key(VertexProperty::AnnotationAbstract, vertex));
                } else if t == base + 5 {
                    assert(key == vertex_property_key(
                        VertexProperty::AnnotationIndependent,
                        vertex,
                    ));
                } else if t == base + 6 {
                    assert(key == vertex_property_key(VertexProperty::AnnotationDistinct, vertex));
                } else if t == base + 7 {
                    assert(key == vertex_property_key(
                        VertexProperty::AnnotationCardinality,
                        vertex,
                    ));
                }
            }
            if lists_key(start, key) {
                let t = choose|t: int| 0 <= t < start.len() && #[trigger] start[t]@ == key;
                assert(keys@[t]@ == key);
            }
            if key == vertex.spec_bytes() {
                assert(keys@[base as int]@ == key);
            }
            if exists|property: VertexProperty|
                key == #[trigger] vertex_property_key(property, vertex) {
                let property = choose|property: VertexProperty|
                    key == #[trigger] vertex_property_key(property, vertex);
                match property {
                    VertexProperty::Label => {
                        assert(keys@[base + 1]@ == key);
                    },
                    VertexProperty::ValueType => {
                        assert(keys@[base + 2]@ == key);
                    },
                    VertexProperty::Order => {
                        assert(keys@[base + 3]@ == key);
                    },
                    VertexProperty::AnnotationAbstract => {
                        assert(keys@[base + 4]@ == key);
                    },
                    VertexProperty::AnnotationIndependent => {
                        assert(keys@[base + 5]@ == key);
                    },
                    VertexProperty::AnnotationDistinct => {
                        assert(keys@[base + 6]@ == key);
                    },
                    VertexProperty::AnnotationCardinality => {
                        assert(keys@[base + 7]@ == key);
                    },
                }
            }
            if has_label(store, vertex) && key == seq![60u8] + label_bytes(store, vertex) {
                assert(keys@[base + 8]@ == key);
            }
        }
    }
}

/// Deletes the type: its vertex, what is recorded with it, the index entry of its label,
/// every edge that leaves it, in both directions, and what is recorded about the
/// ownerships that it takes part in. Types that were placed below it are left without a
/// supertype.
pub fn delete_type<S: WritableSnapshot>(snapshot: &mut S, vertex: TypeVertex)
    ensures
        final(snapshot).contents() == without_type(old(snapshot).contents(), vertex),
{
    let ghost store = snapshot.contents();
    let mut keys: Vec<Vec<u8>> = Vec::new();
    collect_own_keys(&*snapshot, vertex, &mut keys);
    collect_owns_property_keys(&*snapshot, vertex, true, &mut keys);
    collect_owns_property_keys(&*snapshot, vertex, false, &mut keys);
    let ghost with_properties = keys@;
    let mut kinds: Vec<EdgeKind> = Vec::new();
    kinds.push(EdgeKind::Sub);
    kinds.push(EdgeKind::SubReverse);
    kinds.push(EdgeKind::Owns);
    kinds.push(EdgeKind::OwnsReverse);
    kinds.push(EdgeKind::Plays);
    kinds.push(EdgeKind::PlaysReverse);
    kinds.push(EdgeKind::Relates);
    kinds.push(EdgeKind::RelatesReverse);
    let mut k: usize = 0;
    while k < kinds.len()
        invariant
            0 <= k <= kinds@.len(),
            store == snapshot.contents(),
            kinds@ == seq![
                EdgeKind::Sub,
                EdgeKind::SubReverse,
                EdgeKind::Owns,
                EdgeKind::OwnsReverse,
                EdgeKind::Plays,
                EdgeKind::PlaysReverse,
                EdgeKind::Relates,
                EdgeKind::RelatesReverse,
            ],
            forall|key: Seq<u8>|
                #[trigger] lists_key(keys@, key) <==> lists_key(with_properties, key) || exists|p: int|
                    0 <= p < k && #[trigger] is_edge_key_from(store, kinds@[p], vertex, key),
        decreases kinds@.len() - k,
    {
        let ghost before = keys@;
        collect_edge_keys(&*snapshot, kinds[k], vertex, &mut keys);
        proof {
            assert forall|key: Seq<u8>|
                #[trigger] lists_key(keys@, key) <==> lists_key(with_properties, key) || exists|p: int|
                    0 <= p < k + 1 && #[trigger] is_edge_key_from(store, kinds@[p], vertex, key) by {
                if lists_key(before, key) && !lists_key(with_properties, key) {
                    let p = choose|p: int|
                        0 <= p < k && #[trigger] is_edge_key_from(store, kinds@[p], vertex, key);
                    assert(0 <= p < k + 1);
                }
                if is_edge_key_from(store, kinds@[k as int], vertex, key) {
                    assert(0 <= k < k + 1);
                }
                if exists|p: int|
                    0 <= p < k + 1 && #[trigger] is_edge_key_from(store, kinds@[p], vertex, key) {
                    let p = choose|p: int|
                        0 <= p < k + 1 && #[trigger] is_edge_key_from(
                            store,
                            kinds@[p],
                            vertex,
                            key,
                        );
                    if p < k {
                        assert(lists_key(before, key));
                    }
                }
            }
        }
        k += 1;
    }
    proof {
        assert forall|key: Seq<u8>| #[trigger] lists_key(keys@, key) <==> is_key_of_type(
            store,
            vertex,
            key,
        ) by {
            if exists|p: int|
                0 <= p < 8 && #[trigger] is_edge_key_from(store, kinds@[p], vertex, key) {
                let p = choose|p: int|
                    0 <= p < 8 && #[trigger] is_edge_key_from(store, kinds@[p], vertex, key);
                assert(is_edge_key_from(store, kinds@[p], vertex, key));
            }
            if exists|kind: EdgeKind| #[trigger] is_edge_key_from(store, kind, vertex, key) {
                let kind = choose|kind: EdgeKind| #[trigger]
                    is_edge_key_from(store, kind, vertex, key);
                let p: int = match kind {
                    EdgeKind::Sub => 0,
                    EdgeKind::SubReverse => 1,
                    EdgeKind::Owns => 2,
                    EdgeKind::OwnsReverse => 3,
                    EdgeKind::Plays => 4,
                    EdgeKind::PlaysReverse => 5,
                    EdgeKind::Relates => 6,
                    EdgeKind::RelatesReverse => 7,
                };
                assert(kinds@[p] == kind);
                assert(is_edge_key_from(store, kinds@[p], vertex, key));
            }
        }
        assert(Set::new(|key: Seq<u8>| lists_key(keys@, key)) =~= Set::new(
            |key: Seq<u8>| is_key_of_type(store, vertex, key),
        ));
    }
    delete_keys(snapshot, keys);
}

/// Deletes the type, unless it is a root type. Nothing is written where the deletion is
/// refused.
pub fn delete<S: WritableSnapshot>(
    snapshot: &mut S,
    type_: TypeVertex,
) -> (done: Result<(), ConceptWriteError>)
    requires
        has_label(old(snapshot).contents(), type_),
    ensures
        done == delete_outcome(old(snapshot).contents(), type_),
        final(snapshot).contents() == (if done is Ok {
            without_type(old(snapshot).contents(), type_)
        } else {
            old(snapshot).contents()
        }),
{
    match TypeDecoder::get_is_root(&*snapshot, type_) {
        Ok(true) => {
            return Err(ConceptWriteError::RootModification);
        },
        Ok(false) => {},
        Err(cause) => {
            return Err(ConceptWriteError::Read { cause });
        },
    }
    delete_type(snapshot, type_);
    Ok(())
}

fn put_marker<S: WritableSnapshot>(snapshot: &mut S, key: Vec<u8>)
    ensures
        final(snapshot).contents() == old(snapshot).contents().insert(key@, Seq::empty()),
{
    snapshot.put(key);
}

/// Removes the label of the type and the index entry of that label, where the type has a
/// label.
pub fn may_delete_label<S: WritableSnapshot>(snapshot: &mut S, owner: TypeVertex)
    ensures
        final(snapshot).contents() == without_label(old(snapshot).contents(), owner),
{
    let vertex_to_label_key = build_property_type_label(owner);
    match snapshot.get(vertex_to_label_key.as_slice()) {
        Some(label) => {
            let mut label_to_vertex_key: Vec<u8> = Vec::new();
            label_to_vertex_key.push(LABEL_INDEX_TAG);
            label_to_vertex_key.extend_from_slice(label.as_slice());
            assert(label_to_vertex_key@ =~= seq![60u8] + label@);
            snapshot.delete(vertex_to_label_key);
            snapshot.delete(label_to_vertex_key);
        },
        None => {},
    }
}

/// Gives the type `label` as its one label: what it was called before is forgotten, then the
/// label is recorded with the type and the type is entered in the index under the label.
pub fn set_label<S: WritableSnapshot>(snapshot: &mut S, owner: TypeVertex, label: &Label)
    ensures
        final(snapshot).contents() == with_label(old(snapshot).contents(), owner, label@),
{
    may_delete_label(snapshot, owner);
    snapshot.put_val(build_property_type_label(owner), label.bytes());
    snapshot.put_val(label.index_key(), owner.bytes());
}

pub fn set_role_ordering<S: WritableSnapshot>(snapshot: &mut S, role: TypeVertex, mode: OrderMode)
    ensures
        final(snapshot).contents() == old(snapshot).contents().insert(
            vertex_property_key(VertexProperty::Order, role),
            order_mode_bytes(mode),
        ),
{
    snapshot.put_val(build_property_type_ordering(role), serialise_ordering(mode));
}

/// Writes the edge of `kind` from `from` to `to` in both directions.
pub fn set_edge<S: WritableSnapshot>(
    snapshot: &mut S,
    kind: EdgeKind,
    from: TypeVertex,
    to: TypeVertex,
)
    ensures
        final(snapshot).contents() == with_edge(old(snapshot).contents(), kind, from, to),
{
    let forward = TypeEdge::new(kind, from, to);
    snapshot.put(forward.bytes());
    snapshot.put(forward.reversed().bytes());
}

/// Removes the edge of `kind` from `from` to `to` in both directions.
pub fn delete_edge<S: WritableSnapshot>(
    snapshot: &mut S,
    kind: EdgeKind,
    from: TypeVertex,
    to: TypeVertex,
)
    ensures
        final(snapshot).contents() == without_edge(old(snapshot).contents(), kind, from, to),
{
    let forward = TypeEdge::new(kind, from, to);
    snapshot.delete(forward.bytes());
    snapshot.delete(forward.reversed().bytes());
}

/// Removes every edge of `kind` that leaves `from`, in both directions.
pub fn delete_edges_from<S: WritableSnapshot>(snapshot: &mut S, kind: EdgeKind, from: TypeVertex)
    ensures
        final(snapshot).contents() == without_edges_from(old(snapshot).contents(), kind, from),
{
    let targets = TypeDecoder::get_edge_targets(&*snapshot, kind, from);
    let ghost before = snapshot.contents();
    let mut i: usize = 0;
    assert(snapshot.contents() =~= without_keys(
        before,
        Set::new(|key: Seq<u8>| is_edge_key_of(targets@, 0, kind, from, key)),
    ));
    while i < targets.len()
        invariant
            0 <= i <= targets@.len(),
            snapshot.contents() == without_keys(
                before,
                Set::new(|key: Seq<u8>| is_edge_key_of(targets@, i as int, kind, from, key)),
            ),
        decreases targets@.len() - i,
    {
        let ghost current = snapshot.contents();
        delete_edge(snapshot, kind, from, targets[i]);
        proof {
            let to = targets@[i as int];
            let next = without_keys(
                before,
                Set::new(|key: Seq<u8>| is_edge_key_of(targets@, i + 1, kind, from, key)),
            );
            assert forall|key: Seq<u8>|
                is_edge_key_of(targets@, i + 1, kind, from, key) <==> (is_edge_key_of(
                    targets@,
                    i as int,
                    kind,
                    from,
                    key,
                ) || key == edge_key(kind, from, to) || key == edge_key(
                    kind.spec_reverse(),
                    to,
                    from,
                )) by {
                if is_edge_key_of(targets@, i + 1, kind, from, key) {
                    let t = choose|t: int|
                        0 <= t < i + 1 && t < targets@.len() && (key == edge_key(
                            kind,
                            from,
                            #[trigger] targets@[t],
                        ) || key == edge_key(kind.spec_reverse(), targets@[t], from));
                    if t < i {
                        assert(is_edge_key_of(targets@, i as int, kind, from, key));
                    }
                }
                if is_edge_key_of(targets@, i as int, kind, from, key) {
                    let t = choose|t: int|
                        0 <= t < i && t < targets@.len() && (key == edge_key(
                            kind,
                            from,
                            #[trigger] targets@[t],
                        ) || key == edge_key(kind.spec_reverse(), targets@[t], from));
                    assert(is_edge_key_of(targets@, i + 1, kind, from, key));
                }
                if key == edge_key(kind, from, to) || key == edge_key(
                    kind.spec_reverse(),
                    to,
                    from,
                ) {
                    assert(targets@[i as int] == to);
                    assert(is_edge_key_of(targets@, i + 1, kind, from, key));
                }
            }
            assert(snapshot.contents() =~= next);
        }
        i += 1;
    }
    proof {
        assert forall|key: Seq<u8>|
            is_edge_key_of(targets@, targets@.len() as int, kind, from, key) <==> is_edge_key_from(
                before,
                kind,
                from,
                key,
            ) by {
            if is_edge_key_of(targets@, targets@.len() as int, kind, from, key) {
                let t = choose|t: int|
                    0 <= t < targets@.len() && (key == edge_key(
                        kind,
                        from,
                        #[trigger] targets@[t],
                    ) || key == edge_key(kind.spec_reverse(), targets@[t], from));
                assert(targets@.to_set().contains(targets@[t]));
                assert(has_edge(before, kind, from, targets@[t]));
            }
            if is_edge_key_from(before, kind, from, key) {
                let to = choose|to: TypeVertex| #[trigger]
                    has_edge(before, kind, from, to) && (key == edge_key(kind, from, to) || key
                        == edge_key(kind.spec_reverse(), to, from));
                assert(edge_targets(before, kind, from).contains(to));
                assert(targets@.to_set().contains(to));
                let t = choose|t: int| 0 <= t < targets@.len() && targets@[t] == to;
                assert(key == edge_key(kind, from, targets@[t]) || key == edge_key(
                    kind.spec_reverse(),
                    targets@[t],
                    from,
                ));
            }
        }
        assert(snapshot.contents() =~= without_edges_from(before, kind, from));
    }
}

/// Removes whatever direct supertype the type has.
pub fn may_delete_supertype<S: WritableSnapshot>(snapshot: &mut S, subtype: TypeVertex)
    ensures
        final(snapshot).contents() == without_edges_from(
            old(snapshot).contents(),
            EdgeKind::Sub,
            subtype,
        ),
{
    delete_edges_from(snapshot, EdgeKind::Sub, subtype);
}

/// Makes `supertype` the one direct supertype of `subtype`.
pub fn set_supertype<S: WritableSnapshot>(
    snapshot: &mut S,
    subtype: TypeVertex,
    supertype: TypeVertex,
)
    ensures
        final(snapshot).contents() == with_supertype(old(snapshot).contents(), subtype, supertype),
{
    may_delete_supertype(snapshot, subtype);
    set_edge(snapshot, EdgeKind::Sub, subtype, supertype);
}

pub fn set_owns_ordering<S: WritableSnapshot>(
    snapshot: &mut S,
    owns_edge: TypeEdge,
    mode: OrderMode,
)
    ensures
        final(snapshot).contents() == old(snapshot).contents().insert(
            edge_property_key(EdgeProperty::Order, owns_edge),
            order_mode_bytes(mode),
        ),
{
    snapshot.put_val(build_property_type_edge_ordering(owns_edge), serialise_ordering(mode));
}

pub fn delete_owns_ordering<S: WritableSnapshot>(snapshot: &mut S, owns_edge: TypeEdge)
    ensures
        final(snapshot).contents() == old(snapshot).contents().remove(
            edge_property_key(EdgeProperty::Order, owns_edge),
        ),
{
    snapshot.delete(build_property_type_edge_ordering(owns_edge));
}

/// Records that `owner` owns `attribute`, in both directions, and in which order mode.
pub fn set_owns<S: WritableSnapshot>(
    snapshot: &mut S,
    owner: TypeVertex,
    attribute: TypeVertex,
    mode: OrderMode,
)
    ensures
        final(snapshot).contents() == with_owns(old(snapshot).contents(), owner, attribute, mode),
{
    set_edge(snapshot, EdgeKind::Owns, owner, attribute);
    set_owns_ordering(snapshot, TypeEdge::new(EdgeKind::Owns, owner, attribute), mode);
}

/// Forgets that `owner` owns `attribute`: the edge in both directions, its order mode and
/// its annotations.
pub fn delete_owns<S: WritableSnapshot>(snapshot: &mut S, owner: TypeVertex, attribute: TypeVertex)
    ensures
        final(snapshot).contents() == without_owns(old(snapshot).contents(), owner, attribute),
{
    let owns_edge = TypeEdge::new(EdgeKind::Owns, owner, attribute);
    delete_edge(snapshot, EdgeKind::Owns, owner, attribute);
    delete_owns_ordering(snapshot, owns_edge);
    delete_edge_annotation_distinct(snapshot, owns_edge);
    delete_edge_annotation_cardinality(snapshot, owns_edge);
}

pub fn set_plays<S: WritableSnapshot>(snapshot: &mut S, player: TypeVertex, role: TypeVertex)
    ensures
        final(snapshot).contents() == with_edge(
            old(snapshot).contents(),
            EdgeKind::Plays,
            player,
            role,
        ),
{
    set_edge(snapshot, EdgeKind::Plays, player, role);
}

pub fn delete_plays<S: WritableSnapshot>(snapshot: &mut S, player: TypeVertex, role: TypeVertex)
    ensures
        final(snapshot).contents() == without_edge(
            old(snapshot).contents(),
            EdgeKind::Plays,
            player,
            role,
        ),
{
    delete_edge(snapshot, EdgeKind::Plays, player, role);
}

pub fn set_relates<S: WritableSnapshot>(snapshot: &mut S, relation: TypeVertex, role: TypeVertex)
    ensures
        final(snapshot).contents() == with_edge(
            old(snapshot).contents(),
            EdgeKind::Relates,
            relation,
            role,
        ),
{
    set_edge(snapshot, EdgeKind::Relates, relation, role);
}

pub fn delete_relates<S: WritableSnapshot>(
    snapshot: &mut S,
    relation: TypeVertex,
    role: TypeVertex,
)
    ensures
        final(snapshot).contents() == without_edge(
            old(snapshot).contents(),
            EdgeKind::Relates,
            relation,
            role,
        ),
{
    delete_edge(snapshot, EdgeKind::Relates, relation, role);
}

pub fn set_value_type<S: WritableSnapshot>(
    snapshot: &mut S,
    attribute: TypeVertex,
    value_type: &ValueType,
)
    ensures
        final(snapshot).contents() == old(snapshot).contents().insert(
            vertex_property_key(VertexProperty::ValueType, attribute),
            value_type_bytes(*value_type),
        ),
{
    let property_key = build_property_type_value_type(attribute);
    let property_value = value_type.value_type_id().bytes_vec();
    snapshot.put_val(property_key, property_value);
}

pub fn set_annotation_abstract<S: WritableSnapshot>(snapshot: &mut S, type_: TypeVertex)
    ensures
        final(snapshot).contents() == old(snapshot).contents().insert(
            vertex_property_key(VertexProperty::AnnotationAbstract, type_),
            Seq::empty(),
        ),
{
    put_marker(snapshot, build_property_type_annotation_abstract(type_));
}

pub fn delete_annotation_abstract<S: WritableSnapshot>(snapshot: &mut S, type_: TypeVertex)
    ensures
        final(snapshot).contents() == old(snapshot).contents().remove(
            vertex_property_key(VertexProperty::AnnotationAbstract, type_),
        ),
{
    snapshot.delete(build_property_type_annotation_abstract(type_));
}

pub fn set_annotation_distinct<S: WritableSnapshot>(snapshot: &mut S, type_: TypeVertex)
    ensures
        final(snapshot).contents() == old(snapshot).contents().insert(
            vertex_property_key(VertexProperty::AnnotationDistinct, type_),
            Seq::empty(),
        ),
{
    put_marker(snapshot, build_property_type_annotation_distinct(type_));
}

pub fn delete_annotation_distinct<S: WritableSnapshot>(snapshot: &mut S, type_: TypeVertex)
    ensures
        final(snapshot).contents() == old(snapshot).contents().remove(
            vertex_property_key(VertexProperty::AnnotationDistinct, type_),
        ),
{
    snapshot.delete(build_property_type_annotation_distinct(type_));
}

pub fn set_edge_annotation_distinct<S: WritableSnapshot>(snapshot: &mut S, edge: TypeEdge)
    ensures
        final(snapshot).contents() == old(snapshot).contents().insert(
            edge_property_key(EdgeProperty::AnnotationDistinct, edge),
            Seq::empty(),
        ),
{
    put_marker(snapshot, build_property_type_edge_annotation_distinct(edge));
}

pub fn delete_edge_annotation_distinct<S: WritableSnapshot>(snapshot: &mut S, edge: TypeEdge)
    ensures
        final(snapshot).contents() == old(snapshot).contents().remove(
            edge_property_key(EdgeProperty::AnnotationDistinct, edge),
        ),
{
    snapshot.delete(build_property_type_edge_annotation_distinct(edge));
}

pub fn set_annotation_independent<S: WritableSnapshot>(snapshot: &mut S, type_: TypeVertex)
    ensures
        final(snapshot).contents() == old(snapshot).contents().insert(
            vertex_property_key(VertexProperty::AnnotationIndependent, type_),
            Seq::empty(),
        ),
{
    put_marker(snapshot, build_property_type_annotation_independent(type_));
}

pub fn delete_annotation_independent<S: WritableSnapshot>(snapshot: &mut S, type_: TypeVertex)
    ensures
        final(snapshot).contents() == old(snapshot).contents().remove(
            vertex_property_key(VertexProperty::AnnotationIndependent, type_),
        ),
{
    snapshot.delete(build_property_type_annotation_independent(type_));
}

pub fn set_annotation_cardinality<S: WritableSnapshot>(
    snapshot: &mut S,
    type_: TypeVertex,
    annotation: AnnotationCardinality,
)
    ensures
        final(snapshot).contents() == old(snapshot).contents().insert(
            vertex_property_key(VertexProperty::AnnotationCardinality, type_),
            cardinality_bytes(annotation),
        ),
{
    snapshot.put_val(
        build_property_type_annotation_cardinality(type_),
        serialise_annotation_cardinality(annotation),
    );
}

pub fn delete_annotation_cardinality<S: WritableSnapshot>(snapshot: &mut S, type_: TypeVertex)
    ensures
        final(snapshot).contents() == old(snapshot).contents().remove(
            vertex_property_key(VertexProperty::AnnotationCardinality, type_),
        ),
{
    snapshot.delete(build_property_type_annotation_cardinality(type_));
}

pub fn set_edge_annotation_cardinality<S: WritableSnapshot>(
    snapshot: &mut S,
    edge: TypeEdge,
    annotation: AnnotationCardinality,
)
    ensures
        final(snapshot).contents() == old(snapshot).contents().insert(
            edge_property_key(EdgeProperty::AnnotationCardinality, edge),
            cardinality_bytes(annotation),
        ),
{
    snapshot.put_val(
        build_property_type_edge_annotation_cardinality(edge),
        serialise_annotation_cardinality(annotation),
    );
}

pub fn delete_edge_annotation_cardinality<S: WritableSnapshot>(snapshot: &mut S, edge: TypeEdge)
    ensures
        final(snapshot).contents() == old(snapshot).contents().remove(
            edge_property_key(EdgeProperty::AnnotationCardinality, edge),
        ),
{
    snapshot.delete(build_property_type_edge_annotation_cardinality(edge));
}

} // verus!
