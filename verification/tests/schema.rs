use std::sync::Arc;

use concept::encoding::edge::{EdgeKind, TypeEdge};
use concept::encoding::kind::Kind;
use concept::encoding::label::Label;
use concept::encoding::value_type::ValueType;
use concept::encoding::vertex::TypeVertex;
use concept::encoding::vertex_generator::TypeVertexGenerator;
use concept::error::{ConceptReadError, ConceptWriteError, EncodingError};
use concept::snapshot::{MemorySnapshot, ReadableSnapshot, WritableSnapshot};
use concept::type_::annotation::{
    Annotation, AnnotationAbstract, AnnotationCardinality, AnnotationDistinct,
    AnnotationIndependent, OrderMode,
};
use concept::type_::attribute_type::{AttributeType, AttributeTypeAnnotation};
use concept::type_::entity_type::{EntityType, EntityTypeAnnotation};
use concept::type_::object_type::ObjectType;
use concept::type_::owns::{Owns, OwnsAnnotation};
use concept::type_::relates::Relates;
use concept::type_::relation_type::{RelationType, RelationTypeAnnotation};
use concept::type_::role_type::{RoleType, RoleTypeAnnotation};
use concept::type_::type_cache::TypeCache;
use concept::type_::type_decoder::TypeDecoder;
use concept::type_::type_encoder::initialise_types;
use concept::type_::type_manager::{relation_index_eligible, ReadableType, TypeManager};

fn schema() -> (MemorySnapshot, Arc<TypeVertexGenerator>, TypeManager<MemorySnapshot>) {
    let mut snapshot = MemorySnapshot::new();
    let generator = Arc::new(TypeVertexGenerator::new());
    assert_eq!(initialise_types(&mut snapshot, generator.clone()), Ok(()));
    let manager = TypeManager::new(generator.clone(), None);
    (snapshot, generator, manager)
}

fn cached(
    snapshot: &MemorySnapshot,
    generator: &Arc<TypeVertexGenerator>,
) -> TypeManager<MemorySnapshot> {
    let cache = TypeCache::new(snapshot).unwrap();
    TypeManager::new(generator.clone(), Some(Arc::new(cache)))
}

fn root_entity(snapshot: &MemorySnapshot, manager: &TypeManager<MemorySnapshot>) -> EntityType {
    manager.get_entity_type(snapshot, &Kind::Entity.root_label()).unwrap().unwrap()
}

#[test]
fn bootstrap_creates_four_abstract_roots() {
    let (snapshot, generator, manager) = schema();
    for manager in [manager, cached(&snapshot, &generator)] {
        let entity = root_entity(&snapshot, &manager);
        assert_eq!(entity.vertex(), TypeVertex::new(Kind::Entity, 0));
        assert_eq!(entity.is_root(&snapshot, &manager), Ok(true));
        assert_eq!(entity.is_abstract(&snapshot, &manager), Ok(true));
        assert_eq!(entity.get_supertype(&snapshot, &manager), Ok(None));
        assert_eq!(
            entity.get_annotations(&snapshot, &manager),
            Ok(vec![EntityTypeAnnotation::Abstract(AnnotationAbstract::new())])
        );
        let relation =
            manager.get_relation_type(&snapshot, &Kind::Relation.root_label()).unwrap().unwrap();
        assert_eq!(relation.is_root(&snapshot, &manager), Ok(true));
        assert_eq!(relation.is_abstract(&snapshot, &manager), Ok(true));
        let role = manager.get_role_type(&snapshot, &Kind::Role.root_label()).unwrap().unwrap();
        assert_eq!(role.is_root(&snapshot, &manager), Ok(true));
        assert_eq!(role.is_abstract(&snapshot, &manager), Ok(true));
        assert_eq!(role.get_ordering(&snapshot, &manager), Ok(OrderMode::Unordered));
        assert_eq!(role.get_supertype(&snapshot, &manager), Ok(None));
        let attribute = manager
            .get_attribute_type(&snapshot, &Kind::Attribute.root_label())
            .unwrap()
            .unwrap();
        assert_eq!(attribute.is_root(&snapshot, &manager), Ok(true));
        assert_eq!(attribute.is_abstract(&snapshot, &manager), Ok(true));
        assert_eq!(attribute.get_value_type(&snapshot, &manager), Ok(None));
        let relates = relation.get_relates(&snapshot, &manager).unwrap();
        assert_eq!(relates, vec![Relates::new(relation, role)]);
    }
}

#[test]
fn bootstrap_twice_is_refused_and_changes_nothing() {
    let (mut snapshot, generator, _) = schema();
    let before = snapshot.len();
    assert_eq!(
        initialise_types(&mut snapshot, generator.clone()),
        Err(ConceptWriteError::LabelInUse)
    );
    assert_eq!(snapshot.len(), before);
}

#[test]
fn a_type_of_the_wrong_kind_cannot_be_looked_up_or_wrapped() {
    let (snapshot, _, manager) = schema();
    assert_eq!(manager.get_relation_type(&snapshot, &Kind::Entity.root_label()), Ok(None));
    assert_eq!(manager.get_entity_type(&snapshot, &Label::build("nothing")), Ok(None));
    let vertex = TypeVertex::new(Kind::Entity, 0);
    assert!(EntityType::new(vertex).is_ok());
    assert_eq!(
        RelationType::new(vertex),
        Err(EncodingError::UnexpectedKind { expected: Kind::Relation, actual: Kind::Entity })
    );
    assert_eq!(
        AttributeType::new(vertex),
        Err(EncodingError::UnexpectedKind { expected: Kind::Attribute, actual: Kind::Entity })
    );
    assert_eq!(
        RoleType::new(vertex),
        Err(EncodingError::UnexpectedKind { expected: Kind::Role, actual: Kind::Entity })
    );
    assert!(ObjectType::new(vertex).is_ok());
    assert!(ObjectType::new(TypeVertex::new(Kind::Role, 0)).is_err());
}

#[test]
fn handles_are_read_from_vertex_bytes() {
    assert_eq!(EntityType::root_kind(), Kind::Entity);
    assert_eq!(RoleType::root_kind(), Kind::Role);
    let read = RelationType::read_from(&[21, 0, 7]).unwrap();
    assert_eq!(read.vertex(), TypeVertex::new(Kind::Relation, 7));
    assert_eq!(
        RelationType::read_from(&[20, 0, 7]),
        Err(EncodingError::UnexpectedKind { expected: Kind::Relation, actual: Kind::Entity })
    );
    assert_eq!(AttributeType::read_from(&[23, 0]), Err(EncodingError::MalformedBytes));
}

#[test]
fn a_new_type_sits_below_the_root_of_its_kind() {
    let (mut snapshot, generator, manager) = schema();
    let person =
        EntityType::create_entity_type(&mut snapshot, &generator, &Label::build("person"), false)
            .unwrap();
    assert_eq!(person.vertex(), TypeVertex::new(Kind::Entity, 1));
    for manager in [manager, cached(&snapshot, &generator)] {
        let root = root_entity(&snapshot, &manager);
        assert_eq!(person.is_root(&snapshot, &manager), Ok(false));
        assert_eq!(person.get_supertype(&snapshot, &manager), Ok(Some(root)));
        assert_eq!(person.get_supertypes(&snapshot, &manager), Ok(vec![root]));
        assert_eq!(root.get_subtypes(&snapshot, &manager), Ok(vec![person]));
        assert_eq!(person.get_label(&snapshot, &manager).unwrap().scoped_name(), "person");
        assert_eq!(person.is_abstract(&snapshot, &manager), Ok(false));
        assert_eq!(manager.get_entity_type(&snapshot, &Label::build("person")), Ok(Some(person)));
    }
}

#[test]
fn a_label_in_use_is_refused() {
    let (mut snapshot, generator, manager) = schema();
    let label = Label::build("person");
    manager.create_entity_type(&mut snapshot, &label, false).unwrap();
    let before = snapshot.len();
    assert_eq!(
        manager.create_entity_type(&mut snapshot, &label, false),
        Err(ConceptWriteError::LabelInUse)
    );
    assert_eq!(
        manager.create_attribute_type(&mut snapshot, &label, false),
        Err(ConceptWriteError::LabelInUse)
    );
    assert_eq!(snapshot.len(), before);
    let other = manager.create_entity_type(&mut snapshot, &Label::build("dog"), false).unwrap();
    assert_eq!(other.set_label(&mut snapshot, &label), Err(ConceptWriteError::LabelInUse));
    assert_eq!(other.get_label(&snapshot, &manager).unwrap().scoped_name(), "dog");
    assert_eq!(other.set_label(&mut snapshot, &Label::build("dog")), Ok(()));
}

#[test]
fn relabelling_moves_the_index_entry() {
    let (mut snapshot, generator, manager) = schema();
    let old = Label::build("person");
    let new = Label::build("human");
    let person = manager.create_entity_type(&mut snapshot, &old, false).unwrap();
    assert_eq!(person.set_label(&mut snapshot, &new), Ok(()));
    for manager in [manager, cached(&snapshot, &generator)] {
        assert!(person.get_label(&snapshot, &manager).unwrap() == new);
        assert_eq!(manager.get_entity_type(&snapshot, &old), Ok(None));
        assert_eq!(manager.get_entity_type(&snapshot, &new), Ok(Some(person)));
    }
}

#[test]
fn root_types_keep_label_and_supertype() {
    let (mut snapshot, _, manager) = schema();
    let root = root_entity(&snapshot, &manager);
    let person = manager.create_entity_type(&mut snapshot, &Label::build("person"), false).unwrap();
    let before = snapshot.len();
    assert_eq!(
        root.set_label(&mut snapshot, &Label::build("thing")),
        Err(ConceptWriteError::RootModification)
    );
    assert_eq!(root.set_supertype(&mut snapshot, person), Err(ConceptWriteError::RootModification));
    assert_eq!(snapshot.len(), before);
    assert_eq!(root.is_root(&snapshot, &manager), Ok(true));
    assert_eq!(root.get_supertype(&snapshot, &manager), Ok(None));
    let attribute =
        manager.get_attribute_type(&snapshot, &Kind::Attribute.root_label()).unwrap().unwrap();
    assert_eq!(
        attribute.set_label(&mut snapshot, &Label::build("thing")),
        Err(ConceptWriteError::RootModification)
    );
}

#[test]
fn hierarchy_is_walked_both_ways() {
    let (mut snapshot, generator, manager) = schema();
    let animal = manager.create_entity_type(&mut snapshot, &Label::build("animal"), false).unwrap();
    let dog = manager.create_entity_type(&mut snapshot, &Label::build("dog"), false).unwrap();
    let puppy = manager.create_entity_type(&mut snapshot, &Label::build("puppy"), false).unwrap();
    let cat = manager.create_entity_type(&mut snapshot, &Label::build("cat"), false).unwrap();
    assert_eq!(dog.set_supertype(&mut snapshot, animal), Ok(()));
    assert_eq!(puppy.set_supertype(&mut snapshot, dog), Ok(()));
    assert_eq!(cat.set_supertype(&mut snapshot, animal), Ok(()));
    for manager in [manager, cached(&snapshot, &generator)] {
        let root = root_entity(&snapshot, &manager);
        assert_eq!(puppy.get_supertype(&snapshot, &manager), Ok(Some(dog)));
        assert_eq!(puppy.get_supertypes(&snapshot, &manager), Ok(vec![dog, animal, root]));
        let mut below = animal.get_subtypes_transitive(&snapshot, &manager).unwrap();
        below.sort();
        assert_eq!(below, vec![dog, puppy, cat]);
        assert_eq!(animal.get_subtypes(&snapshot, &manager), Ok(vec![dog, cat]));
        assert_eq!(puppy.get_subtypes_transitive(&snapshot, &manager), Ok(vec![]));
        assert_eq!(root.get_subtypes_transitive(&snapshot, &manager).unwrap().len(), 4);
        for entity in animal.get_subtypes_transitive(&snapshot, &manager).unwrap() {
            assert!(entity.get_supertypes(&snapshot, &manager).unwrap().contains(&animal));
            assert_ne!(entity, animal);
        }
        assert!(!animal.get_supertypes(&snapshot, &manager).unwrap().contains(&animal));
    }
}

#[test]
fn a_second_supertype_replaces_the_first() {
    let (mut snapshot, _, manager) = schema();
    let animal = manager.create_entity_type(&mut snapshot, &Label::build("animal"), false).unwrap();
    let plant = manager.create_entity_type(&mut snapshot, &Label::build("plant"), false).unwrap();
    let fern = manager.create_entity_type(&mut snapshot, &Label::build("fern"), false).unwrap();
    assert_eq!(fern.set_supertype(&mut snapshot, animal), Ok(()));
    assert_eq!(fern.set_supertype(&mut snapshot, plant), Ok(()));
    assert_eq!(fern.get_supertype(&snapshot, &manager), Ok(Some(plant)));
    assert_eq!(animal.get_subtypes(&snapshot, &manager), Ok(vec![]));
    assert_eq!(plant.get_subtypes(&snapshot, &manager), Ok(vec![fern]));
}

#[test]
fn a_cyclic_hierarchy_is_an_error_not_a_hang() {
    let (mut snapshot, _, manager) = schema();
    let a = manager.create_entity_type(&mut snapshot, &Label::build("a"), false).unwrap();
    let b = manager.create_entity_type(&mut snapshot, &Label::build("b"), false).unwrap();
    assert_eq!(a.set_supertype(&mut snapshot, b), Ok(()));
    assert_eq!(b.set_supertype(&mut snapshot, a), Ok(()));
    assert_eq!(a.get_supertypes(&snapshot, &manager), Err(ConceptReadError::HierarchyTooDeep));
    assert_eq!(
        a.get_subtypes_transitive(&snapshot, &manager),
        Err(ConceptReadError::HierarchyTooDeep)
    );
    assert!(TypeCache::new(&snapshot).is_err());
}

#[test]
fn two_supertypes_in_the_store_are_an_error() {
    let (mut snapshot, _, manager) = schema();
    let a = manager.create_entity_type(&mut snapshot, &Label::build("a"), false).unwrap();
    let b = manager.create_entity_type(&mut snapshot, &Label::build("b"), false).unwrap();
    snapshot.put(TypeEdge::new(EdgeKind::Sub, a.vertex(), b.vertex()).bytes());
    assert_eq!(a.get_supertype(&snapshot, &manager), Err(ConceptReadError::AmbiguousSupertype));
    assert_eq!(a.get_supertypes(&snapshot, &manager), Err(ConceptReadError::AmbiguousSupertype));
}

#[test]
fn marriage_defines_its_spouse_role() {
    let (mut snapshot, generator, manager) = schema();
    let marriage = RelationType::create_relation_type(
        &mut snapshot,
        &generator,
        &Label::build("marriage"),
        false,
    )
    .unwrap();
    let spouse =
        marriage.create_relates(&mut snapshot, &generator, "spouse", OrderMode::Unordered).unwrap();
    for manager in [manager, cached(&snapshot, &generator)] {
        let root =
            manager.get_relation_type(&snapshot, &Kind::Relation.root_label()).unwrap().unwrap();
        assert_eq!(marriage.get_supertype(&snapshot, &manager), Ok(Some(root)));
        assert_eq!(
            spouse.get_label(&snapshot, &manager).unwrap().scoped_name(),
            "marriage:spouse"
        );
        assert_eq!(marriage.get_role(&snapshot, &manager, "spouse"), Ok(Some(spouse)));
        assert_eq!(marriage.get_role(&snapshot, &manager, "witness"), Ok(None));
        assert_eq!(
            marriage.get_relates_role(&snapshot, &manager, "spouse"),
            Ok(Some(Relates::new(marriage, spouse)))
        );
        assert_eq!(marriage.has_relates_role(&snapshot, &manager, "spouse"), Ok(true));
        assert_eq!(marriage.has_relates_role(&snapshot, &manager, "witness"), Ok(false));
        assert_eq!(
            marriage.get_relates(&snapshot, &manager),
            Ok(vec![Relates::new(marriage, spouse)])
        );
        let role_root = manager.get_role_type(&snapshot, &Kind::Role.root_label()).unwrap().unwrap();
        assert_eq!(spouse.get_supertype(&snapshot, &manager), Ok(Some(role_root)));
        assert_eq!(spouse.get_ordering(&snapshot, &manager), Ok(OrderMode::Unordered));
        let relates = marriage.get_relates_role(&snapshot, &manager, "spouse").unwrap().unwrap();
        assert_eq!(relates.relation(), marriage);
        assert_eq!(relates.role(), spouse);
    }
    assert_eq!(
        marriage.create_relates(&mut snapshot, &generator, "spouse", OrderMode::Ordered),
        Err(ConceptWriteError::LabelInUse)
    );
    marriage.delete_relates(&mut snapshot, spouse);
    let manager = TypeManager::new(generator.clone(), None);
    assert_eq!(marriage.get_relates(&snapshot, &manager), Ok(vec![]));
}

fn relation_with_bounds(bounds: &[Option<u64>]) -> bool {
    let (mut snapshot, generator, manager) = schema();
    let relation =
        manager.create_relation_type(&mut snapshot, &Label::build("r"), false).unwrap();
    for (i, bound) in bounds.iter().enumerate() {
        let name = format!("role{}", i);
        let role =
            relation.create_relates(&mut snapshot, &generator, &name, OrderMode::Unordered).unwrap();
        role.set_annotation(
            &mut snapshot,
            RoleTypeAnnotation::Cardinality(AnnotationCardinality::new(0, *bound)),
        )
        .unwrap();
    }
    let direct = manager.relation_index_available(&snapshot, relation).unwrap();
    let through_cache =
        cached(&snapshot, &generator).relation_index_available(&snapshot, relation);
    assert_eq!(through_cache, Ok(direct));
    assert_eq!(direct, relation_index_eligible(&bounds.to_vec()));
    direct
}

#[test]
fn relation_index_needs_small_bounded_roles() {
    assert!(relation_with_bounds(&[Some(3), Some(4)]));
    assert!(!relation_with_bounds(&[Some(5), Some(4)]));
    assert!(!relation_with_bounds(&[Some(1), None]));
    assert!(!relation_with_bounds(&[None, Some(1)]));
    assert!(relation_with_bounds(&[Some(4), Some(4)]));
    assert!(relation_with_bounds(&[]));
    assert!(!relation_with_bounds(&[Some(u64::MAX), Some(u64::MAX)]));
}

#[test]
fn relation_index_eligibility_from_bounds() {
    assert!(relation_index_eligible(&vec![Some(3), Some(4)]));
    assert!(!relation_index_eligible(&vec![Some(5), Some(4)]));
    assert!(!relation_index_eligible(&vec![Some(0), None, Some(0)]));
    assert!(!relation_index_eligible(&vec![Some(9)]));
    assert!(relation_index_eligible(&vec![Some(8)]));
    assert!(!relation_index_eligible(&vec![Some(9), None]));
    assert!(!relation_index_eligible(&vec![Some(u64::MAX), Some(1)]));
}

#[test]
fn a_role_without_cardinality_is_exactly_one() {
    let (mut snapshot, generator, manager) = schema();
    let relation =
        manager.create_relation_type(&mut snapshot, &Label::build("r"), false).unwrap();
    let role =
        relation.create_relates(&mut snapshot, &generator, "x", OrderMode::Ordered).unwrap();
    assert_eq!(manager.role_default_cardinality(), AnnotationCardinality::new(1, Some(1)));
    assert_eq!(role.get_cardinality(&snapshot, &manager), Ok(AnnotationCardinality::new(1, Some(1))));
    assert_eq!(role.get_ordering(&snapshot, &manager), Ok(OrderMode::Ordered));
    assert_eq!(manager.relation_index_available(&snapshot, relation), Ok(true));
    role.set_annotation(
        &mut snapshot,
        RoleTypeAnnotation::Cardinality(AnnotationCardinality::new(2, None)),
    )
    .unwrap();
    role.set_annotation(&mut snapshot, RoleTypeAnnotation::Distinct(AnnotationDistinct::new()))
        .unwrap();
    assert_eq!(role.get_cardinality(&snapshot, &manager), Ok(AnnotationCardinality::new(2, None)));
    assert_eq!(
        role.get_annotations(&snapshot, &manager),
        Ok(vec![
            RoleTypeAnnotation::Distinct(AnnotationDistinct::new()),
            RoleTypeAnnotation::Cardinality(AnnotationCardinality::new(2, None)),
        ])
    );
    role.delete_annotation(
        &mut snapshot,
        RoleTypeAnnotation::Cardinality(AnnotationCardinality::new(0, None)),
    );
    assert_eq!(role.get_cardinality(&snapshot, &manager), Ok(AnnotationCardinality::new(1, Some(1))));
}

#[test]
fn annotations_are_legal_only_for_some_kinds() {
    let abstract_ = Annotation::Abstract(AnnotationAbstract::new());
    let independent = Annotation::Independent(AnnotationIndependent::new());
    let distinct = Annotation::Distinct(AnnotationDistinct::new());
    let cardinality = Annotation::Cardinality(AnnotationCardinality::new(0, Some(1)));
    assert_eq!(
        RelationTypeAnnotation::from(independent),
        Err(ConceptWriteError::InvalidAnnotationForKind)
    );
    assert_eq!(
        RoleTypeAnnotation::from(independent),
        Err(ConceptWriteError::InvalidAnnotationForKind)
    );
    assert_eq!(
        AttributeTypeAnnotation::from(cardinality),
        Err(ConceptWriteError::InvalidAnnotationForKind)
    );
    assert_eq!(
        AttributeTypeAnnotation::from(distinct),
        Err(ConceptWriteError::InvalidAnnotationForKind)
    );
    assert_eq!(
        EntityTypeAnnotation::from(distinct),
        Err(ConceptWriteError::InvalidAnnotationForKind)
    );
    assert_eq!(OwnsAnnotation::from(abstract_), Err(ConceptWriteError::InvalidAnnotationForKind));
    assert_eq!(
        EntityTypeAnnotation::from(abstract_),
        Ok(EntityTypeAnnotation::Abstract(AnnotationAbstract::new()))
    );
    assert_eq!(
        RelationTypeAnnotation::from(abstract_),
        Ok(RelationTypeAnnotation::Abstract(AnnotationAbstract::new()))
    );
    assert_eq!(
        RoleTypeAnnotation::from(abstract_),
        Ok(RoleTypeAnnotation::Abstract(AnnotationAbstract::new()))
    );
    assert_eq!(
        AttributeTypeAnnotation::from(abstract_),
        Ok(AttributeTypeAnnotation::Abstract(AnnotationAbstract::new()))
    );
    assert_eq!(
        AttributeTypeAnnotation::from(independent),
        Ok(AttributeTypeAnnotation::Independent(AnnotationIndependent::new()))
    );
    assert_eq!(OwnsAnnotation::from(cardinality).unwrap().into_annotation(), cardinality);
    assert_eq!(RoleTypeAnnotation::from(distinct).unwrap().into_annotation(), distinct);
}

#[test]
fn a_stored_annotation_of_the_wrong_kind_is_a_read_error() {
    let (mut snapshot, generator, manager) = schema();
    let person = manager.create_entity_type(&mut snapshot, &Label::build("person"), false).unwrap();
    let as_attribute_key = concept::encoding::property::build_property_type_annotation_independent(
        person.vertex(),
    );
    snapshot.put(as_attribute_key);
    for manager in [manager, cached(&snapshot, &generator)] {
        assert_eq!(
            person.get_annotations(&snapshot, &manager),
            Err(ConceptReadError::InvalidAnnotationForKind)
        );
        assert_eq!(person.is_abstract(&snapshot, &manager), Ok(false));
    }
}

#[test]
fn attribute_types_carry_value_type_and_independence() {
    let (mut snapshot, generator, manager) = schema();
    let name = AttributeType::create_attribute_type(
        &mut snapshot,
        &generator,
        &Label::build("name"),
        false,
    )
    .unwrap();
    assert_eq!(name.get_value_type(&snapshot, &manager), Ok(None));
    name.set_value_type(&mut snapshot, ValueType::String);
    name.set_annotation(
        &mut snapshot,
        AttributeTypeAnnotation::Independent(AnnotationIndependent::new()),
    )
    .unwrap();
    for manager in [manager, cached(&snapshot, &generator)] {
        assert_eq!(name.get_value_type(&snapshot, &manager), Ok(Some(ValueType::String)));
        assert_eq!(name.is_independent(&snapshot, &manager), Ok(true));
        assert_eq!(name.is_abstract(&snapshot, &manager), Ok(false));
        assert_eq!(
            name.get_annotations(&snapshot, &manager),
            Ok(vec![AttributeTypeAnnotation::Independent(AnnotationIndependent::new())])
        );
    }
    name.set_value_type(&mut snapshot, ValueType::Long);
    name.delete_annotation(
        &mut snapshot,
        AttributeTypeAnnotation::Independent(AnnotationIndependent::new()),
    );
    let manager = TypeManager::new(generator.clone(), None);
    assert_eq!(name.get_value_type(&snapshot, &manager), Ok(Some(ValueType::Long)));
    assert_eq!(name.is_independent(&snapshot, &manager), Ok(false));
    assert_eq!(name.into_owned(), name);
}

#[test]
fn malformed_stored_bytes_are_read_errors() {
    let (mut snapshot, _, manager) = schema();
    let name = manager.create_attribute_type(&mut snapshot, &Label::build("name"), false).unwrap();
    let malformed = Err(ConceptReadError::Encoding { source: EncodingError::MalformedBytes });
    snapshot.put_val(
        concept::encoding::property::build_property_type_value_type(name.vertex()),
        vec![0, 9],
    );
    assert_eq!(name.get_value_type(&snapshot, &manager), malformed);
    snapshot.put_val(
        concept::encoding::property::build_property_type_annotation_cardinality(name.vertex()),
        vec![1, 2, 3],
    );
    assert_eq!(name.is_abstract(&snapshot, &manager), Err(ConceptReadError::Encoding {
        source: EncodingError::MalformedBytes
    }));
    snapshot.put_val(
        concept::encoding::property::build_property_type_label(name.vertex()),
        vec![0xff],
    );
    assert_eq!(name.is_root(&snapshot, &manager), Err(ConceptReadError::Encoding {
        source: EncodingError::MalformedBytes
    }));
    assert_eq!(
        name.set_label(&mut snapshot, &Label::build("n")),
        Err(ConceptWriteError::Read {
            cause: ConceptReadError::Encoding { source: EncodingError::MalformedBytes }
        })
    );
    assert!(TypeCache::new(&snapshot).is_err());
}

#[test]
fn ownership_is_stored_in_both_directions() {
    let (mut snapshot, generator, manager) = schema();
    let person = manager.create_entity_type(&mut snapshot, &Label::build("person"), false).unwrap();
    let name = manager.create_attribute_type(&mut snapshot, &Label::build("name"), false).unwrap();
    let age = manager.create_attribute_type(&mut snapshot, &Label::build("age"), false).unwrap();
    let owns = person.set_owns(&mut snapshot, name, OrderMode::Ordered);
    assert_eq!(owns, Owns::new(ObjectType::Entity(person), name));
    assert_eq!(owns.owner(), person.into_object_type());
    assert_eq!(owns.attribute(), name);
    owns.set_annotation(&mut snapshot, OwnsAnnotation::Distinct(AnnotationDistinct::new()));
    owns.set_annotation(
        &mut snapshot,
        OwnsAnnotation::Cardinality(AnnotationCardinality::new(0, Some(5))),
    );
    for manager in [manager, cached(&snapshot, &generator)] {
        assert_eq!(person.get_owns(&snapshot, &manager), Ok(vec![owns]));
        assert_eq!(person.get_owns_attribute(&snapshot, &manager, name), Ok(Some(owns)));
        assert_eq!(person.get_owns_attribute(&snapshot, &manager, age), Ok(None));
        assert_eq!(owns.get_ordering(&snapshot, &manager), Ok(OrderMode::Ordered));
        assert_eq!(
            owns.get_annotations(&snapshot, &manager),
            Ok(vec![
                OwnsAnnotation::Distinct(AnnotationDistinct::new()),
                OwnsAnnotation::Cardinality(AnnotationCardinality::new(0, Some(5))),
            ])
        );
    }
    assert_eq!(name.get_owns_owners(&snapshot), vec![ObjectType::Entity(person)]);
    assert_eq!(age.get_owns_owners(&snapshot), vec![]);
    assert_eq!(
        snapshot.get(&TypeEdge::new(EdgeKind::OwnsReverse, name.vertex(), person.vertex()).bytes()),
        Some(vec![])
    );
    owns.delete_annotation(&mut snapshot, OwnsAnnotation::Distinct(AnnotationDistinct::new()));
    let manager = TypeManager::new(generator.clone(), None);
    assert_eq!(
        owns.get_annotations(&snapshot, &manager),
        Ok(vec![OwnsAnnotation::Cardinality(AnnotationCardinality::new(0, Some(5)))])
    );
    let before_delete = snapshot.len();
    person.delete_owns(&mut snapshot, name);
    assert_eq!(snapshot.len(), before_delete - 4);
    assert_eq!(person.get_owns(&snapshot, &manager), Ok(vec![]));
    assert_eq!(person.get_owns_attribute(&snapshot, &manager, name), Ok(None));
    assert_eq!(name.get_owns_owners(&snapshot), vec![]);
    assert_eq!(
        snapshot.get(&TypeEdge::new(EdgeKind::OwnsReverse, name.vertex(), person.vertex()).bytes()),
        None
    );
}

#[test]
fn relation_types_own_and_play_too() {
    let (mut snapshot, generator, manager) = schema();
    let marriage =
        manager.create_relation_type(&mut snapshot, &Label::build("marriage"), false).unwrap();
    let person = manager.create_entity_type(&mut snapshot, &Label::build("person"), false).unwrap();
    let date = manager.create_attribute_type(&mut snapshot, &Label::build("date"), false).unwrap();
    let spouse =
        marriage.create_relates(&mut snapshot, &generator, "spouse", OrderMode::Unordered).unwrap();
    let owns = marriage.set_owns(&mut snapshot, date, OrderMode::Unordered);
    let plays = person.set_plays(&mut snapshot, spouse);
    let nested = marriage.set_plays(&mut snapshot, spouse);
    for manager in [manager, cached(&snapshot, &generator)] {
        assert_eq!(marriage.get_owns(&snapshot, &manager), Ok(vec![owns]));
        assert_eq!(owns.get_ordering(&snapshot, &manager), Ok(OrderMode::Unordered));
        assert_eq!(person.get_plays(&snapshot, &manager), Ok(vec![plays]));
        assert_eq!(person.get_plays_role(&snapshot, &manager, spouse), Ok(Some(plays)));
        assert_eq!(marriage.get_plays(&snapshot, &manager), Ok(vec![nested]));
        assert_eq!(plays.player(), ObjectType::Entity(person));
        assert_eq!(plays.role(), spouse);
    }
    let mut owners = date.get_owns_owners(&snapshot);
    owners.sort_by_key(|owner| owner.vertex().id());
    assert_eq!(owners, vec![ObjectType::Relation(marriage)]);
    person.delete_plays(&mut snapshot, spouse);
    marriage.delete_owns(&mut snapshot, date);
    let manager = TypeManager::new(generator.clone(), None);
    assert_eq!(person.get_plays(&snapshot, &manager), Ok(vec![]));
    assert_eq!(person.get_plays_role(&snapshot, &manager, spouse), Ok(None));
    assert_eq!(marriage.get_plays(&snapshot, &manager), Ok(vec![nested]));
    assert_eq!(marriage.get_owns(&snapshot, &manager), Ok(vec![]));
}

#[test]
fn identities_are_the_least_free_numbers() {
    let (mut snapshot, generator, _) = schema();
    assert_eq!(generator.create_entity_type(&mut snapshot), Ok(TypeVertex::new(Kind::Entity, 1)));
    assert_eq!(generator.create_entity_type(&mut snapshot), Ok(TypeVertex::new(Kind::Entity, 2)));
    assert_eq!(
        generator.create_attribute_type(&mut snapshot),
        Ok(TypeVertex::new(Kind::Attribute, 1))
    );
    snapshot.delete(TypeVertex::new(Kind::Entity, 1).bytes());
    assert_eq!(generator.create_entity_type(&mut snapshot), Ok(TypeVertex::new(Kind::Entity, 1)));
    assert_eq!(generator.create_relation_type(&mut snapshot), Ok(TypeVertex::new(Kind::Relation, 1)));
    assert_eq!(generator.create_role_type(&mut snapshot), Ok(TypeVertex::new(Kind::Role, 1)));
}

#[test]
fn identities_run_out() {
    let mut snapshot = MemorySnapshot::new();
    let generator = TypeVertexGenerator::new();
    for id in 0..=65535u16 {
        if id != 40000 {
            snapshot.put(TypeVertex::new(Kind::Role, id).bytes());
        }
    }
    assert_eq!(generator.create_role_type(&mut snapshot), Ok(TypeVertex::new(Kind::Role, 40000)));
    assert_eq!(
        generator.create_role_type(&mut snapshot),
        Err(EncodingError::TypeIdsExhausted { kind: Kind::Role })
    );
    assert_eq!(generator.create_entity_type(&mut snapshot), Ok(TypeVertex::new(Kind::Entity, 0)));
}

#[test]
fn decoder_lists_the_types_of_a_kind() {
    let (mut snapshot, _, manager) = schema();
    let person = manager.create_entity_type(&mut snapshot, &Label::build("person"), false).unwrap();
    let vertices = TypeDecoder::get_vertices(&snapshot, Kind::Entity);
    assert_eq!(vertices, vec![TypeVertex::new(Kind::Entity, 0), person.vertex()]);
    assert_eq!(TypeDecoder::get_root(&snapshot, Kind::Entity), Some(TypeVertex::new(Kind::Entity, 0)));
}

#[test]
fn finalise_has_nothing_to_do() {
    let (_, _, manager) = schema();
    assert_eq!(manager.finalise(), Ok(()));
}

#[test]
fn a_read_snapshot_serves_reads() {
    let (mut snapshot, generator, manager) = schema();
    let person = manager.create_entity_type(&mut snapshot, &Label::build("person"), false).unwrap();
    let copy = MemorySnapshot::from_entries(&snapshot.entries());
    assert_eq!(copy.entries(), snapshot.entries());
    let read = copy.into_read();
    let manager: TypeManager<concept::snapshot::ReadSnapshot> =
        TypeManager::new(generator.clone(), None);
    assert_eq!(person.get_label(&read, &manager).unwrap().scoped_name(), "person");
    assert_eq!(person.is_root(&read, &manager), Ok(false));
    let cache = Arc::new(TypeCache::new(&read).unwrap());
    let cached: TypeManager<concept::snapshot::ReadSnapshot> =
        TypeManager::new(generator.clone(), Some(cache));
    assert_eq!(
        person.get_supertype(&read, &cached),
        Ok(Some(EntityType::new(TypeVertex::new(Kind::Entity, 0)).unwrap()))
    );
}

#[test]
fn later_entries_replace_earlier_ones() {
    let entries = vec![(vec![1u8], vec![1u8]), (vec![0u8], vec![2u8]), (vec![1u8], vec![3u8])];
    let snapshot = MemorySnapshot::from_entries(&entries);
    assert_eq!(snapshot.entries(), vec![(vec![0u8], vec![2u8]), (vec![1u8], vec![3u8])]);
}

#[test]
fn deleting_a_type_removes_everything_about_it() {
    let (mut snapshot, generator, manager) = schema();
    let pristine = snapshot.entries();
    let person = manager.create_entity_type(&mut snapshot, &Label::build("person"), false).unwrap();
    let name = manager.create_attribute_type(&mut snapshot, &Label::build("name"), false).unwrap();
    let marriage =
        manager.create_relation_type(&mut snapshot, &Label::build("marriage"), false).unwrap();
    let spouse =
        marriage.create_relates(&mut snapshot, &generator, "spouse", OrderMode::Unordered).unwrap();
    let with_others = snapshot.entries();
    let owns = person.set_owns(&mut snapshot, name, OrderMode::Ordered);
    owns.set_annotation(&mut snapshot, OwnsAnnotation::Distinct(AnnotationDistinct::new()));
    person.set_plays(&mut snapshot, spouse);
    person
        .set_annotation(&mut snapshot, EntityTypeAnnotation::Abstract(AnnotationAbstract::new()))
        .unwrap();
    assert_eq!(person.delete(&mut snapshot), Ok(()));
    assert_eq!(manager.get_entity_type(&snapshot, &Label::build("person")), Ok(None));
    assert_eq!(name.get_owns_owners(&snapshot), vec![]);
    assert_eq!(root_entity(&snapshot, &manager).get_subtypes(&snapshot, &manager), Ok(vec![]));
    let mut expected = with_others.clone();
    expected.retain(|(key, _)| {
        key != &person.vertex().bytes()
            && key != &Label::build("person").index_key()
            && !(key.len() == 4 && key[1..] == person.vertex().bytes()[..])
            && !(key.len() == 7 && (key[1..4] == person.vertex().bytes()[..]
                || key[4..] == person.vertex().bytes()[..]))
    });
    assert_eq!(snapshot.entries(), expected);
    assert_eq!(name.delete(&mut snapshot), Ok(()));
    assert_eq!(spouse.delete(&mut snapshot), Ok(()));
    assert_eq!(marriage.delete(&mut snapshot), Ok(()));
    assert_eq!(snapshot.entries(), pristine);
    assert!(TypeCache::new(&snapshot).is_ok());
}

#[test]
fn deleting_an_attribute_type_removes_its_ownerships() {
    let (mut snapshot, _, manager) = schema();
    let person = manager.create_entity_type(&mut snapshot, &Label::build("person"), false).unwrap();
    let before = snapshot.entries();
    let name = manager.create_attribute_type(&mut snapshot, &Label::build("name"), false).unwrap();
    let owns = person.set_owns(&mut snapshot, name, OrderMode::Unordered);
    owns.set_annotation(
        &mut snapshot,
        OwnsAnnotation::Cardinality(AnnotationCardinality::new(0, Some(1))),
    );
    name.set_value_type(&mut snapshot, ValueType::String);
    assert_eq!(name.delete(&mut snapshot), Ok(()));
    assert_eq!(snapshot.entries(), before);
    assert_eq!(person.get_owns(&snapshot, &manager), Ok(vec![]));
}

#[test]
fn a_root_type_cannot_be_deleted() {
    let (mut snapshot, _, manager) = schema();
    let before = snapshot.entries();
    assert_eq!(
        root_entity(&snapshot, &manager).delete(&mut snapshot),
        Err(ConceptWriteError::RootModification)
    );
    let role = manager.get_role_type(&snapshot, &Kind::Role.root_label()).unwrap().unwrap();
    assert_eq!(role.delete(&mut snapshot), Err(ConceptWriteError::RootModification));
    assert_eq!(snapshot.entries(), before);
}

#[test]
fn an_identifier_is_free_again_after_deletion() {
    let (mut snapshot, _, manager) = schema();
    let person = manager.create_entity_type(&mut snapshot, &Label::build("person"), false).unwrap();
    let dog = manager.create_entity_type(&mut snapshot, &Label::build("dog"), false).unwrap();
    assert_eq!(person.delete(&mut snapshot), Ok(()));
    let cat = manager.create_entity_type(&mut snapshot, &Label::build("cat"), false).unwrap();
    assert_eq!(cat.vertex(), person.vertex());
    assert_ne!(cat.vertex(), dog.vertex());
    assert_eq!(cat.get_label(&snapshot, &manager).unwrap().scoped_name(), "cat");
}

#[test]
fn direct_lists_rise_by_kind_and_number() {
    let (mut snapshot, generator, manager) = schema();
    let person = manager.create_entity_type(&mut snapshot, &Label::build("person"), false).unwrap();
    let mut attributes = Vec::new();
    for name in ["c", "a", "b", "e", "d"] {
        attributes
            .push(manager.create_attribute_type(&mut snapshot, &Label::build(name), false).unwrap());
    }
    for attribute in attributes.iter().rev() {
        person.set_owns(&mut snapshot, *attribute, OrderMode::Unordered);
    }
    for manager in [manager, cached(&snapshot, &generator)] {
        let owned: Vec<AttributeType> = person
            .get_owns(&snapshot, &manager)
            .unwrap()
            .iter()
            .map(|owns| owns.attribute())
            .collect();
        assert_eq!(owned, attributes);
        let mut sorted = owned.clone();
        sorted.sort();
        assert_eq!(owned, sorted);
    }
    assert!(TypeVertex::new(Kind::Entity, 9) < TypeVertex::new(Kind::Relation, 0));
    assert!(TypeVertex::new(Kind::Role, 1) < TypeVertex::new(Kind::Role, 256));
    assert_eq!(EntityType::from_vertex(person.vertex()), person);
}

#[test]
fn root_labels_are_recognised_per_kind() {
    let entity = Label::build("entity");
    let role = Label::build_scoped("role", "relation");
    assert!(TypeManager::<MemorySnapshot>::check_type_is_root(&entity, Kind::Entity));
    assert!(!TypeManager::<MemorySnapshot>::check_type_is_root(&entity, Kind::Role));
    assert!(TypeManager::<MemorySnapshot>::check_type_is_root(&role, Kind::Role));
    let (snapshot, _, manager) = schema();
    let root = root_entity(&snapshot, &manager);
    assert_eq!(root.into_vertex(), TypeVertex::new(Kind::Entity, 0));
    assert_eq!(
        manager.vertex_generator().create_entity_type(&mut MemorySnapshot::new()),
        Ok(TypeVertex::new(Kind::Entity, 0))
    );
}

#[test]
fn a_kind_without_free_identifiers_takes_no_new_type() {
    let (mut snapshot, _, manager) = schema();
    for id in 1..=65535u16 {
        snapshot.put(TypeVertex::new(Kind::Attribute, id).bytes());
    }
    let before = snapshot.len();
    assert_eq!(
        manager.create_attribute_type(&mut snapshot, &Label::build("name"), false),
        Err(ConceptWriteError::Encoding {
            source: EncodingError::TypeIdsExhausted { kind: Kind::Attribute }
        })
    );
    assert_eq!(snapshot.len(), before);
    assert!(manager.create_entity_type(&mut snapshot, &Label::build("name"), false).is_ok());
}
