use concept::encoding::edge::{
    build_edge_owns, build_edge_owns_reverse, build_edge_plays, build_edge_plays_reverse,
    build_edge_relates, build_edge_relates_reverse, build_edge_sub, build_edge_sub_reverse,
    EdgeKind, TypeEdge,
};
use concept::encoding::kind::Kind;
use concept::encoding::label::Label;
use concept::encoding::property::{
    build_property_type_edge_ordering, build_property_type_label,
};
use concept::encoding::value_type::{ValueType, ValueTypeID};
use concept::encoding::value_type_generator::ValueTypeGenerator;
use concept::encoding::vertex::TypeVertex;
use concept::error::EncodingError;
use concept::type_::annotation::{
    deserialise_annotation_cardinality, deserialise_ordering, serialise_annotation_cardinality,
    serialise_ordering, AnnotationCardinality, OrderMode,
};

#[test]
fn vertex_bytes_are_tag_then_big_endian_id() {
    let vertex = TypeVertex::new(Kind::Relation, 0x0102);
    assert_eq!(vertex.bytes(), vec![21u8, 1, 2]);
    assert_eq!(TypeVertex::from_bytes(&[21u8, 1, 2]), Some(vertex));
}

#[test]
fn vertex_round_trips_for_every_kind_and_extreme_ids() {
    for kind in [Kind::Entity, Kind::Relation, Kind::Role, Kind::Attribute] {
        for id in [0u16, 1, 255, 256, 65535] {
            let vertex = TypeVertex::new(kind, id);
            assert_eq!(TypeVertex::from_bytes(&vertex.bytes()), Some(vertex));
        }
    }
}

#[test]
fn vertex_with_unknown_tag_or_wrong_length_is_no_vertex() {
    assert_eq!(TypeVertex::from_bytes(&[19u8, 0, 0]), None);
    assert_eq!(TypeVertex::from_bytes(&[24u8, 0, 0]), None);
    assert_eq!(TypeVertex::from_bytes(&[20u8, 0]), None);
    assert_eq!(TypeVertex::from_bytes(&[20u8, 0, 0, 0]), None);
}

#[test]
fn kind_tags_round_trip() {
    for kind in [Kind::Entity, Kind::Relation, Kind::Role, Kind::Attribute] {
        assert_eq!(Kind::from_tag(kind.tag()), Some(kind));
    }
    assert_eq!(Kind::from_tag(0), None);
}

#[test]
fn edge_bytes_are_tag_then_both_vertices() {
    let person = TypeVertex::new(Kind::Entity, 1);
    let name = TypeVertex::new(Kind::Attribute, 2);
    let owns = build_edge_owns(person, name);
    assert_eq!(owns.bytes(), vec![32u8, 20, 0, 1, 23, 0, 2]);
    assert_eq!(owns.reversed(), build_edge_owns_reverse(name, person));
    assert_eq!(owns.reversed().bytes(), vec![33u8, 23, 0, 2, 20, 0, 1]);
    assert_eq!(TypeEdge::from_bytes(&owns.bytes()), Some(owns));
    assert_eq!(TypeEdge::prefix(EdgeKind::Owns, person), vec![32u8, 20, 0, 1]);
}

#[test]
fn edge_with_malformed_parts_is_no_edge() {
    assert_eq!(TypeEdge::from_bytes(&[29u8, 20, 0, 1, 23, 0, 2]), None);
    assert_eq!(TypeEdge::from_bytes(&[30u8, 19, 0, 1, 23, 0, 2]), None);
    assert_eq!(TypeEdge::from_bytes(&[30u8, 20, 0, 1, 23, 0]), None);
}

#[test]
fn edge_kinds_reverse_in_pairs() {
    let kinds = [
        EdgeKind::Sub,
        EdgeKind::SubReverse,
        EdgeKind::Owns,
        EdgeKind::OwnsReverse,
        EdgeKind::Plays,
        EdgeKind::PlaysReverse,
        EdgeKind::Relates,
        EdgeKind::RelatesReverse,
    ];
    for kind in kinds {
        assert_ne!(kind.reverse(), kind);
        assert_eq!(kind.reverse().reverse(), kind);
        assert_eq!(EdgeKind::from_tag(kind.tag()), Some(kind));
    }
}

#[test]
fn property_keys_are_tag_then_owner() {
    let person = TypeVertex::new(Kind::Entity, 258);
    assert_eq!(build_property_type_label(person), vec![40u8, 20, 1, 2]);
    let edge = build_edge_sub(person, TypeVertex::new(Kind::Entity, 0));
    assert_eq!(build_property_type_edge_ordering(edge), vec![50u8, 30, 20, 1, 2, 20, 0, 0]);
}

#[test]
fn label_splits_at_the_first_colon() {
    let label = Label::build_scoped("spouse", "marriage");
    assert_eq!(label.scoped_name(), "marriage:spouse");
    assert_eq!(label.name(), "spouse");
    assert_eq!(label.scope(), Some("marriage".to_string()));
    let plain = Label::build("person");
    assert_eq!(plain.scoped_name(), "person");
    assert_eq!(plain.name(), "person");
    assert_eq!(plain.scope(), None);
    assert!(Label::build("marriage:spouse") == label);
}

#[test]
fn label_bytes_round_trip_also_beyond_ascii() {
    let label = Label::build_scoped("épouse", "mariage");
    let bytes = label.bytes();
    assert_eq!(bytes, "mariage:épouse".as_bytes().to_vec());
    let back = Label::from_bytes(bytes).unwrap();
    assert!(back == label);
    assert_eq!(back.name(), "épouse");
    assert!(Label::from_bytes(vec![0xff, 0xfe]).is_none());
}

#[test]
fn label_index_key_is_tag_then_text() {
    assert_eq!(Label::build("ab").index_key(), vec![60u8, b'a', b'b']);
}

#[test]
fn root_labels_are_the_kind_names() {
    assert_eq!(Kind::Entity.root_label().scoped_name(), "entity");
    assert_eq!(Kind::Relation.root_label().scoped_name(), "relation");
    assert_eq!(Kind::Role.root_label().scoped_name(), "relation:role");
    assert_eq!(Kind::Role.root_label().name(), "role");
    assert_eq!(Kind::Attribute.root_label().scoped_name(), "attribute");
}

#[test]
fn order_mode_is_one_byte() {
    assert_eq!(serialise_ordering(OrderMode::Unordered), vec![0u8]);
    assert_eq!(serialise_ordering(OrderMode::Ordered), vec![1u8]);
    assert_eq!(deserialise_ordering(&[1u8]), Some(OrderMode::Ordered));
    assert_eq!(deserialise_ordering(&[0u8]), Some(OrderMode::Unordered));
    assert_eq!(deserialise_ordering(&[2u8]), None);
    assert_eq!(deserialise_ordering(&[]), None);
    assert_eq!(deserialise_ordering(&[0u8, 0]), None);
}

#[test]
fn cardinality_is_eight_or_sixteen_bytes() {
    let bounded = AnnotationCardinality::new(1, Some(258));
    assert_eq!(
        serialise_annotation_cardinality(bounded),
        vec![1u8, 0, 0, 0, 0, 0, 0, 0, 2, 1, 0, 0, 0, 0, 0, 0]
    );
    let unbounded = AnnotationCardinality::new(3, None);
    assert_eq!(serialise_annotation_cardinality(unbounded), vec![3u8, 0, 0, 0, 0, 0, 0, 0]);
    for cardinality in [bounded, unbounded, AnnotationCardinality::new(u64::MAX, Some(u64::MAX))] {
        let bytes = serialise_annotation_cardinality(cardinality);
        assert_eq!(deserialise_annotation_cardinality(&bytes), Some(cardinality));
    }
    assert_eq!(deserialise_annotation_cardinality(&[1u8, 2, 3]), None);
}

#[test]
fn cardinality_validity_is_inclusive() {
    let cardinality = AnnotationCardinality::new(1, Some(3));
    assert!(!cardinality.is_valid(0));
    assert!(cardinality.is_valid(1));
    assert!(cardinality.is_valid(3));
    assert!(!cardinality.is_valid(4));
    assert!(AnnotationCardinality::new(0, None).is_valid(u64::MAX));
    assert_eq!(cardinality.start(), 1);
    assert_eq!(cardinality.end(), Some(3));
}

#[test]
fn value_type_id_bytes_are_big_endian() {
    let id = ValueTypeID::build(0x0102);
    assert_eq!(id.bytes(), [1u8, 2]);
    assert_eq!(ValueTypeID::new([1, 2]), id);
    assert_eq!(ValueTypeID::new([0xff, 0xff]).bytes(), [0xff, 0xff]);
    assert_eq!(ValueTypeID::from_bytes(&[1, 2]), Some(id));
    assert_eq!(ValueTypeID::from_bytes(&[1]), None);
}

#[test]
fn built_in_value_types_are_found_by_their_ids() {
    let all = [
        (ValueType::Boolean, 0u16),
        (ValueType::Long, 1),
        (ValueType::Double, 2),
        (ValueType::String, 3),
        (ValueType::DateTime, 4),
    ];
    for (value_type, id) in all {
        assert_eq!(value_type.value_type_id(), ValueTypeID::build(id));
        assert_eq!(ValueType::from_value_type_id(ValueTypeID::build(id)), Some(value_type));
    }
    assert_eq!(ValueType::from_value_type_id(ValueTypeID::build(5)), None);
}

#[test]
fn value_type_generator_counts_up_and_runs_out() {
    let mut generator = ValueTypeGenerator::new();
    assert_eq!(generator.create_value_type(), Ok(ValueTypeID::build(0)));
    assert_eq!(generator.create_value_type(), Ok(ValueTypeID::build(1)));
    for _ in 2..u16::MAX {
        assert!(generator.create_value_type().is_ok());
    }
    assert_eq!(generator.create_value_type(), Err(EncodingError::ValueTypeIdsExhausted));
    assert_eq!(generator.create_value_type(), Err(EncodingError::ValueTypeIdsExhausted));
    let mut fresh = ValueTypeGenerator::default();
    assert_eq!(fresh.create_value_type(), Ok(ValueTypeID::build(0)));
}

#[test]
fn every_edge_builder_names_its_kind_and_ends() {
    let a = TypeVertex::new(Kind::Relation, 1);
    let b = TypeVertex::new(Kind::Role, 2);
    assert_eq!(build_edge_plays(a, b), TypeEdge::new(EdgeKind::Plays, a, b));
    assert_eq!(build_edge_plays_reverse(b, a), build_edge_plays(a, b).reversed());
    assert_eq!(build_edge_relates(a, b), TypeEdge::new(EdgeKind::Relates, a, b));
    assert_eq!(build_edge_relates_reverse(b, a), build_edge_relates(a, b).reversed());
    assert_eq!(build_edge_sub_reverse(a, b), build_edge_sub(b, a).reversed());
    assert_eq!(build_edge_sub(b, a).kind(), EdgeKind::Sub);
    assert_eq!(build_edge_sub(b, a).from(), b);
    assert_eq!(build_edge_sub(b, a).to(), a);
    assert_eq!(a.code(), 21 * 65536 + 1);
}
