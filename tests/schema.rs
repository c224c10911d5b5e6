use cedar_policy_validator::entities::{CoreSchema, EntityTypeDescription};
use cedar_policy_validator::names::{EntityType, EntityUID, Name};
use cedar_policy_validator::query::{ActionHeadVar, PrincipalOrResourceHeadVar};
use cedar_policy_validator::schema::{
    ActionBehavior, ActionFragment, ContextOrShape, EntityTypeFragment, Literal, SchemaError,
    SchemaFragment, UnsupportedFeature, ValidatorApplySpec, ValidatorNamespaceDef, ValidatorSchema,
    ValidatorSchemaFragment,
};
use cedar_policy_validator::types::{AttributeType, SchemaAttribute, SchemaType, Type};

fn name(text: &str) -> Name {
    let mut parts: Vec<String> = text.split("::").map(|p| p.to_string()).collect();
    let id = parts.pop().unwrap();
    Name::new(parts, id)
}

fn qualify(ns: &str, local: &str) -> Name {
    if ns.is_empty() || local.contains("::") {
        name(local)
    } else {
        name(&format!("{ns}::{local}"))
    }
}

fn action_uid(ns: &str, id: &str) -> EntityUID {
    EntityUID::new(EntityType::Concrete(qualify(ns, "Action")), id.to_string())
}

fn empty_record() -> SchemaType {
    SchemaType::Record { attrs: vec![], open: false }
}

fn record(attrs: Vec<(&str, SchemaType)>) -> SchemaType {
    SchemaType::Record {
        attrs: attrs
            .into_iter()
            .map(|(k, ty)| (k.to_string(), SchemaAttribute { ty, required: true }))
            .collect(),
        open: false,
    }
}

fn entity(ns: &str, local: &str, parents: &[&str], shape: SchemaType) -> EntityTypeFragment {
    EntityTypeFragment {
        name: qualify(ns, local),
        parents: parents.iter().map(|p| qualify(ns, p)).collect(),
        shape,
    }
}

fn action(
    ns: &str,
    id: &str,
    parents: Vec<EntityUID>,
    principals: &[&str],
    resources: &[&str],
) -> ActionFragment {
    ActionFragment {
        name: action_uid(ns, id),
        parents,
        applies_to: ValidatorApplySpec {
            principal_types: principals.iter().map(|p| EntityType::Concrete(qualify(ns, p))).collect(),
            resource_types: resources.iter().map(|p| EntityType::Concrete(qualify(ns, p))).collect(),
        },
        context: empty_record(),
        attributes: vec![],
    }
}

fn namespace(
    ns: &str,
    type_defs: Vec<(&str, Type)>,
    entity_types: Vec<EntityTypeFragment>,
    actions: Vec<ActionFragment>,
) -> ValidatorNamespaceDef {
    ValidatorNamespaceDef {
        namespace: if ns.is_empty() { None } else { Some(name(ns)) },
        type_defs: type_defs.into_iter().map(|(n, t)| (qualify(ns, n), t)).collect(),
        entity_types,
        actions,
    }
}

fn build(nss: Vec<ValidatorNamespaceDef>) -> Result<ValidatorSchema, SchemaError> {
    ValidatorSchema::from_schema_fragments(vec![ValidatorSchemaFragment::from_namespaces(nss)])
}

fn has_name(v: &[Name], text: &str) -> bool {
    let n = name(text);
    v.iter().any(|x| *x == n)
}

fn same_names(v: &[Name], texts: &[&str]) -> bool {
    v.len() == texts.len() && texts.iter().all(|t| has_name(v, t))
}

fn has_uid(v: &[EntityUID], uid: &EntityUID) -> bool {
    v.iter().any(|x| x == uid)
}

fn photo_schema(group_parents: &[&str]) -> Vec<ValidatorNamespaceDef> {
    vec![namespace(
        "",
        vec![],
        vec![
            entity("", "User", &["Group"], empty_record()),
            entity("", "Group", group_parents, empty_record()),
            entity("", "Photo", &["Album"], empty_record()),
            entity("", "Album", &[], empty_record()),
        ],
        vec![action("", "view_photo", vec![], &["User", "Group"], &["Photo"])],
    )]
}

#[test]
fn schema_no_fragments() {
    let schema = ValidatorSchema::from_schema_fragments(vec![]).ok().unwrap();
    assert!(schema.entity_types.is_empty());
    assert!(schema.action_ids.is_empty());
}

#[test]
fn test_from_schema_file() {
    let file = SchemaFragment(photo_schema(&[]));
    let schema = ValidatorSchema::from_schema_file(file, ActionBehavior::default());
    assert!(schema.is_ok());
}

#[test]
fn test_from_schema_file_undefined_entities() {
    let nss = vec![namespace(
        "",
        vec![],
        vec![
            entity("", "User", &["Grop"], empty_record()),
            entity("", "Group", &[], empty_record()),
            entity("", "Photo", &[], empty_record()),
        ],
        vec![action("", "view_photo", vec![], &["Usr", "Group"], &["Phoot"])],
    )];
    match build(nss) {
        Err(SchemaError::UndeclaredEntityTypes(v)) => assert_eq!(v.len(), 3),
        _ => panic!("Unexpected error from from_schema_file"),
    }
}

#[test]
fn undefined_entity_namespace_member_of() {
    let nss = vec![namespace(
        "Foo",
        vec![],
        vec![
            entity("Foo", "User", &["Foo::Group", "Bar::Group"], empty_record()),
            entity("Foo", "Group", &[], empty_record()),
        ],
        vec![],
    )];
    match build(nss) {
        Err(SchemaError::UndeclaredEntityTypes(v)) => assert!(same_names(&v, &["Bar::Group"])),
        _ => panic!("Unexpected error from try_into"),
    }
}

#[test]
fn undefined_entity_namespace_applies_to() {
    let nss = vec![namespace(
        "Foo",
        vec![],
        vec![
            entity("Foo", "User", &[], empty_record()),
            entity("Foo", "Photo", &[], empty_record()),
        ],
        vec![action(
            "Foo",
            "view_photo",
            vec![],
            &["Foo::User", "Bar::User"],
            &["Photo", "Bar::Photo"],
        )],
    )];
    match build(nss) {
        Err(SchemaError::UndeclaredEntityTypes(v)) => {
            assert!(same_names(&v, &["Bar::Photo", "Bar::User"]))
        }
        _ => panic!("Unexpected error from try_into"),
    }
}

#[test]
fn test_from_schema_file_undefined_action() {
    let nss = vec![namespace(
        "",
        vec![],
        vec![
            entity("", "User", &["Group"], empty_record()),
            entity("", "Group", &[], empty_record()),
            entity("", "Photo", &[], empty_record()),
        ],
        vec![action(
            "",
            "view_photo",
            vec![action_uid("", "photo_action")],
            &["User", "Group"],
            &["Photo"],
        )],
    )];
    match build(nss) {
        Err(SchemaError::UndeclaredActions(v)) => assert_eq!(v.len(), 1),
        _ => panic!("Unexpected error from from_schema_file"),
    }
}

#[test]
fn test_from_schema_file_action_cycle1() {
    let nss = vec![namespace(
        "",
        vec![],
        vec![],
        vec![action("", "view_photo", vec![action_uid("", "view_photo")], &[], &[])],
    )];
    assert!(matches!(build(nss), Err(SchemaError::CycleInActionHierarchy)));
}

#[test]
fn test_from_schema_file_action_cycle2() {
    let nss = vec![namespace(
        "",
        vec![],
        vec![],
        vec![
            action("", "view_photo", vec![action_uid("", "edit_photo")], &[], &[]),
            action("", "edit_photo", vec![action_uid("", "delete_photo")], &[], &[]),
            action("", "delete_photo", vec![action_uid("", "view_photo")], &[], &[]),
            action("", "other_action", vec![action_uid("", "edit_photo")], &[], &[]),
        ],
    )];
    assert!(matches!(build(nss), Err(SchemaError::CycleInActionHierarchy)));
}

#[test]
fn namespaced_schema() {
    let nss = vec![namespace(
        "N::S",
        vec![],
        vec![
            entity("N::S", "User", &[], empty_record()),
            entity("N::S", "Photo", &[], empty_record()),
        ],
        vec![action("N::S", "view_photo", vec![], &["User"], &["Photo"])],
    )];
    let schema = build(nss).ok().expect("Namespaced schema failed to convert.");
    let user = name("N::S::User");
    let photo = name("N::S::Photo");
    assert!(schema.is_known_entity_type(&user), "Expected and entity type User.");
    assert!(schema.is_known_entity_type(&photo), "Expected an entity type Photo.");
    assert_eq!(schema.entity_types.len(), 2, "Expected exactly 2 entity types.");
    assert!(
        schema.is_known_action_id(&action_uid("N::S", "view_photo")),
        "Expected an action \"view_photo\"."
    );
    assert_eq!(schema.action_ids.len(), 1, "Expected exactly 1 action.");
    let apply_spec = &schema.action_ids[0].applies_to;
    assert!(apply_spec.principal_types == vec![EntityType::Concrete(user)]);
    assert!(apply_spec.resource_types == vec![EntityType::Concrete(photo)]);
}

#[test]
fn entity_attribute_entity_type_with_namespace() {
    let nss = vec![namespace(
        "A::B",
        vec![],
        vec![entity(
            "A::B",
            "Foo",
            &[],
            record(vec![("name", SchemaType::Entity { name: name("C::D::Foo") })]),
        )],
        vec![],
    )];
    match build(nss) {
        Err(SchemaError::UndeclaredEntityTypes(tys)) => assert!(same_names(&tys, &["C::D::Foo"])),
        _ => panic!("Schema construction should have failed due to undeclared entity type."),
    }
}

#[test]
fn entity_attribute_entity_type_with_declared_namespace() {
    let nss = vec![namespace(
        "A::B",
        vec![],
        vec![entity(
            "A::B",
            "Foo",
            &[],
            record(vec![("name", SchemaType::Entity { name: name("A::B::Foo") })]),
        )],
        vec![],
    )];
    let schema = build(nss).ok().expect("Expected schema to construct without error.");
    let foo_name = name("A::B::Foo");
    let foo_type = schema.get_entity_type(&foo_name).expect("Expected to find entity");
    let name_type = &foo_type.attr(&"name".to_string()).expect("Expected attribute name").attr_type;
    match name_type {
        Type::Entity { lub } => assert!(*lub == vec![foo_name]),
        _ => panic!("Expected an entity type"),
    }
}

#[test]
fn can_declare_other_type_when_action_type_prohibited() {
    let file = SchemaFragment(vec![namespace(
        "",
        vec![],
        vec![entity("", "Foo", &[], empty_record())],
        vec![],
    )]);
    assert!(ValidatorSchema::from_schema_file(file, ActionBehavior::default()).is_ok());
}

#[test]
fn cannot_declare_action_in_group_when_prohibited() {
    let mut acts = vec![action("", "universe", vec![], &[], &[])];
    for id in ["view_photo", "edit_photo", "delete_photo"] {
        let mut a = action("", id, vec![], &[], &[]);
        a.attributes = vec![("id".to_string(), Literal::String("universe".to_string()))];
        acts.push(a);
    }
    let file = SchemaFragment(vec![namespace("", vec![], vec![], acts)]);
    match ValidatorSchemaFragment::from_schema_fragment(file, ActionBehavior::ProhibitAttributes) {
        Err(SchemaError::UnsupportedFeature(UnsupportedFeature::ActionAttributes(actions))) => {
            assert_eq!(actions.len(), 3);
            for id in ["view_photo", "edit_photo", "delete_photo"] {
                assert!(actions.contains(&id.to_string()));
            }
        }
        _ => panic!("Did not see expected error."),
    }
}

#[test]
fn get_namespaces() {
    let fragment = ValidatorSchemaFragment::from_namespaces(vec![
        namespace("Foo::Bar::Baz", vec![], vec![], vec![]),
        namespace("Foo", vec![], vec![], vec![]),
        namespace("Bar", vec![], vec![], vec![]),
    ]);
    let got = fragment.namespaces();
    assert_eq!(got.len(), 3);
    for n in ["Foo::Bar::Baz", "Foo", "Bar"] {
        assert!(got.contains(&Some(name(n))));
    }
}

#[test]
fn same_action_different_namespace() {
    let nss = vec![
        namespace("Foo::Bar", vec![], vec![], vec![action("Foo::Bar", "Baz", vec![], &[], &[])]),
        namespace("Bar::Foo", vec![], vec![], vec![action("Bar::Foo", "Baz", vec![], &[], &[])]),
        namespace("Biz", vec![], vec![], vec![action("Biz", "Baz", vec![], &[], &[])]),
    ];
    let schema = build(nss).ok().unwrap();
    assert!(schema.get_action_id(&action_uid("Foo::Bar", "Baz")).is_some());
    assert!(schema.get_action_id(&action_uid("Bar::Foo", "Baz")).is_some());
    assert!(schema.get_action_id(&action_uid("Biz", "Baz")).is_some());
}

#[test]
fn same_type_different_namespace() {
    let nss = vec![
        namespace("Foo::Bar", vec![], vec![entity("Foo::Bar", "Baz", &[], empty_record())], vec![]),
        namespace("Bar::Foo", vec![], vec![entity("Bar::Foo", "Baz", &[], empty_record())], vec![]),
        namespace("Biz", vec![], vec![entity("Biz", "Baz", &[], empty_record())], vec![]),
    ];
    let schema = build(nss).ok().unwrap();
    assert!(schema.get_entity_type(&name("Foo::Bar::Baz")).is_some());
    assert!(schema.get_entity_type(&name("Bar::Foo::Baz")).is_some());
    assert!(schema.get_entity_type(&name("Biz::Baz")).is_some());
}

#[test]
fn member_of_different_namespace() {
    let nss = vec![
        namespace("Bar", vec![], vec![entity("Bar", "Baz", &["Foo::Buz"], empty_record())], vec![]),
        namespace("Foo", vec![], vec![entity("Foo", "Buz", &[], empty_record())], vec![]),
    ];
    let schema = build(nss).ok().unwrap();
    let buz = schema.get_entity_type(&name("Foo::Buz")).unwrap();
    assert!(same_names(&buz.descendants, &["Bar::Baz"]));
}

#[test]
fn attribute_different_namespace() {
    let nss = vec![
        namespace(
            "Bar",
            vec![],
            vec![entity(
                "Bar",
                "Baz",
                &[],
                record(vec![("fiz", SchemaType::Entity { name: name("Foo::Buz") })]),
            )],
            vec![],
        ),
        namespace("Foo", vec![], vec![entity("Foo", "Buz", &[], empty_record())], vec![]),
    ];
    let schema = build(nss).ok().unwrap();
    let baz = schema.get_entity_type(&name("Bar::Baz")).unwrap();
    match &baz.attr(&"fiz".to_string()).unwrap().attr_type {
        Type::Entity { lub } => assert!(*lub == vec![name("Foo::Buz")]),
        _ => panic!("Expected an entity type"),
    }
}

#[test]
fn applies_to_different_namespace() {
    let nss = vec![
        namespace(
            "Foo::Bar",
            vec![],
            vec![],
            vec![action("Foo::Bar", "Baz", vec![], &["Fiz::Buz"], &["Fiz::Baz"])],
        ),
        namespace(
            "Fiz",
            vec![],
            vec![
                entity("Fiz", "Buz", &[], empty_record()),
                entity("Fiz", "Baz", &[], empty_record()),
            ],
            vec![],
        ),
    ];
    let schema = build(nss).ok().unwrap();
    let baz = schema.get_action_id(&action_uid("Foo::Bar", "Baz")).unwrap();
    assert!(baz.applies_to.principal_types == vec![EntityType::Concrete(name("Fiz::Buz"))]);
    assert!(baz.applies_to.resource_types == vec![EntityType::Concrete(name("Fiz::Baz"))]);
}

fn is_required_long(attrs: &[(String, AttributeType)], key: &str) -> bool {
    attrs.len() == 1
        && attrs[0].0 == key
        && attrs[0].1.is_required
        && matches!(attrs[0].1.attr_type, Type::Long)
}

#[test]
fn simple_defined_type() {
    let nss = vec![namespace(
        "",
        vec![("MyLong", Type::Long)],
        vec![entity(
            "",
            "User",
            &[],
            record(vec![("a", SchemaType::CommonType { name: name("MyLong") })]),
        )],
        vec![],
    )];
    let schema = build(nss).ok().unwrap();
    assert!(is_required_long(&schema.entity_types[0].attributes, "a"));
}

#[test]
fn defined_record_as_attrs() {
    let my_record = Type::Record {
        attrs: vec![("a".to_string(), AttributeType { attr_type: Type::Long, is_required: true })],
        open: false,
    };
    let nss = vec![namespace(
        "",
        vec![("MyRecord", my_record)],
        vec![entity("", "User", &[], SchemaType::CommonType { name: name("MyRecord") })],
        vec![],
    )];
    let schema = build(nss).ok().unwrap();
    assert!(is_required_long(&schema.entity_types[0].attributes, "a"));
}

#[test]
fn cross_namespace_type() {
    let nss = vec![
        namespace("A", vec![("MyLong", Type::Long)], vec![], vec![]),
        namespace(
            "B",
            vec![],
            vec![entity(
                "B",
                "User",
                &[],
                record(vec![("a", SchemaType::CommonType { name: name("A::MyLong") })]),
            )],
            vec![],
        ),
    ];
    let schema = build(nss).ok().unwrap();
    assert!(is_required_long(&schema.entity_types[0].attributes, "a"));
}

#[test]
fn cross_fragment_type() {
    let fragment1 = ValidatorSchemaFragment::from_namespaces(vec![namespace(
        "A",
        vec![("MyLong", Type::Long)],
        vec![],
        vec![],
    )]);
    let fragment2 = ValidatorSchemaFragment::from_namespaces(vec![namespace(
        "A",
        vec![],
        vec![entity(
            "A",
            "User",
            &[],
            record(vec![("a", SchemaType::CommonType { name: name("A::MyLong") })]),
        )],
        vec![],
    )]);
    let schema = ValidatorSchema::from_schema_fragments(vec![fragment1, fragment2]).ok().unwrap();
    assert!(is_required_long(&schema.entity_types[0].attributes, "a"));
}

#[test]
fn cross_fragment_duplicate_type() {
    let fragment1 = ValidatorSchemaFragment::from_namespaces(vec![namespace(
        "A",
        vec![("MyLong", Type::Long)],
        vec![],
        vec![],
    )]);
    let fragment2 = ValidatorSchemaFragment::from_namespaces(vec![namespace(
        "A",
        vec![("MyLong", Type::Long)],
        vec![],
        vec![],
    )]);
    match ValidatorSchema::from_schema_fragments(vec![fragment1, fragment2]) {
        Err(SchemaError::DuplicateCommonType(s)) if s == name("A::MyLong") => (),
        _ => panic!("should have errored because schema fragments have duplicate types"),
    }
}

#[test]
fn undeclared_type_in_attr() {
    let nss = vec![namespace(
        "",
        vec![],
        vec![entity(
            "",
            "User",
            &[],
            record(vec![("a", SchemaType::CommonType { name: name("MyLong") })]),
        )],
        vec![],
    )];
    match build(nss) {
        Err(SchemaError::UndeclaredCommonType(n)) => assert!(n == name("MyLong")),
        _ => panic!("Expected Err(SchemaError::UndeclaredCommonType)"),
    }
}

#[test]
fn shape_not_record() {
    let nss = vec![namespace(
        "",
        vec![("MyLong", Type::Long)],
        vec![entity("", "User", &[], SchemaType::CommonType { name: name("MyLong") })],
        vec![],
    )];
    match build(nss) {
        Err(SchemaError::ContextOrShapeNotRecord(ContextOrShape::EntityTypeShape(n))) => {
            assert!(n == name("User"))
        }
        _ => panic!("Expected Err(SchemaError::ContextOrShapeNotRecord)"),
    }
}

#[test]
fn simple_action_entity() {
    let nss = vec![namespace("", vec![], vec![], vec![action("", "view_photo", vec![], &[], &[])])];
    let schema = build(nss).ok().expect("Schema Error");
    let actions = schema.action_entities();
    let action_uid = action_uid("", "view_photo");
    let view_photo = actions.entity(&action_uid).unwrap();
    assert!(view_photo.uid == action_uid);
    assert!(view_photo.attrs.is_empty());
    assert!(view_photo.ancestors.is_empty());
}

#[test]
fn action_entity_hierarchy() {
    let nss = vec![namespace(
        "",
        vec![],
        vec![],
        vec![
            action("", "read", vec![], &[], &[]),
            action("", "view", vec![action_uid("", "read")], &[], &[]),
            action("", "view_photo", vec![action_uid("", "view")], &[], &[]),
        ],
    )];
    let schema = build(nss).ok().expect("Schema Error");
    let actions = schema.action_entities();
    let view_photo_uid = action_uid("", "view_photo");
    let view_uid = action_uid("", "view");
    let read_uid = action_uid("", "read");

    let view_photo_entity = actions.entity(&view_photo_uid).unwrap();
    assert_eq!(view_photo_entity.ancestors.len(), 2);
    assert!(has_uid(&view_photo_entity.ancestors, &view_uid));
    assert!(has_uid(&view_photo_entity.ancestors, &read_uid));

    let view_entity = actions.entity(&view_uid).unwrap();
    assert!(view_entity.ancestors == vec![read_uid.clone()]);

    let read_entity = actions.entity(&read_uid).unwrap();
    assert!(read_entity.ancestors.is_empty());
}

#[test]
fn action_entity_attribute() {
    let mut a = action("", "view_photo", vec![], &[], &[]);
    a.attributes = vec![("attr".to_string(), Literal::String("foo".to_string()))];
    let file = SchemaFragment(vec![namespace("", vec![], vec![], vec![a])]);
    let schema = ValidatorSchema::from_schema_file(file, ActionBehavior::PermitAttributes)
        .ok()
        .expect("Schema Error");
    let actions = schema.action_entities();
    let view_photo = actions.entity(&action_uid("", "view_photo")).unwrap();
    assert_eq!(view_photo.attrs.len(), 1);
    assert_eq!(view_photo.attrs[0].0, "attr");
    assert!(matches!(&view_photo.attrs[0].1, Literal::String(s) if s == "foo"));
    assert!(view_photo.ancestors.is_empty());
}

#[test]
fn test_action_namespace_inference_multi_success() {
    let nss = vec![
        namespace("Foo", vec![], vec![], vec![action("Foo", "read", vec![], &[], &[])]),
        namespace(
            "ExampleCo::Personnel",
            vec![],
            vec![],
            vec![action("ExampleCo::Personnel", "viewPhoto", vec![action_uid("Foo", "read")], &[], &[])],
        ),
    ];
    let schema = build(nss).ok().expect("Schema should construct");
    let view_photo = schema
        .action_entities_iter()
        .into_iter()
        .find(|e| e.uid == action_uid("ExampleCo::Personnel", "viewPhoto"))
        .unwrap();
    let read = &view_photo.ancestors[0];
    assert_eq!(read.eid, "read");
    assert!(read.ty == EntityType::Concrete(name("Foo::Action")));
}

#[test]
fn test_action_namespace_inference_multi() {
    let nss = vec![
        namespace(
            "ExampleCo::Personnel::Foo",
            vec![],
            vec![],
            vec![action("ExampleCo::Personnel::Foo", "read", vec![], &[], &[])],
        ),
        namespace(
            "ExampleCo::Personnel",
            vec![],
            vec![],
            vec![action("ExampleCo::Personnel", "viewPhoto", vec![action_uid("Foo", "read")], &[], &[])],
        ),
    ];
    assert!(build(nss).is_err());
}

#[test]
fn test_action_namespace_inference() {
    let ns = "ExampleCo::Personnel";
    let nss = vec![namespace(
        ns,
        vec![],
        vec![],
        vec![
            action(ns, "read", vec![], &[], &[]),
            action(ns, "viewPhoto", vec![action_uid(ns, "read")], &[], &[]),
        ],
    )];
    let schema = build(nss).ok().unwrap();
    let view_photo = schema
        .action_entities_iter()
        .into_iter()
        .find(|e| e.uid == action_uid(ns, "viewPhoto"))
        .unwrap();
    let read = &view_photo.ancestors[0];
    assert_eq!(read.eid, "read");
    assert!(read.ty == EntityType::Concrete(name("ExampleCo::Personnel::Action")));
}

#[test]
fn end_to_end_photo_schema() {
    let schema = build(photo_schema(&[])).ok().unwrap();
    let group = schema.get_entity_type(&name("Group")).unwrap();
    assert!(same_names(&group.descendants, &["User"]));
    let user = schema.get_entity_type(&name("User")).unwrap();
    assert!(user.descendants.is_empty());
    let album = schema.get_entity_type(&name("Album")).unwrap();
    assert!(same_names(&album.descendants, &["Photo"]));
    match build(photo_schema(&["Admin"])) {
        Err(SchemaError::UndeclaredEntityTypes(v)) => assert!(same_names(&v, &["Admin"])),
        _ => panic!("expected the undeclared parent to be reported"),
    }
}

#[test]
fn transitive_descendants() {
    let nss = vec![namespace(
        "",
        vec![],
        vec![
            entity("", "A", &["B"], empty_record()),
            entity("", "B", &["C"], empty_record()),
            entity("", "C", &[], empty_record()),
        ],
        vec![],
    )];
    let schema = build(nss).ok().unwrap();
    let c = schema.get_entity_type(&name("C")).unwrap();
    assert!(same_names(&c.descendants, &["A", "B"]));
    let b = schema.get_entity_type(&name("B")).unwrap();
    assert!(same_names(&b.descendants, &["A"]));
}

#[test]
fn closure_is_repeatable() {
    let first = build(photo_schema(&[])).ok().unwrap();
    let second = build(photo_schema(&[])).ok().unwrap();
    for (a, b) in first.entity_types.iter().zip(second.entity_types.iter()) {
        assert!(a.name == b.name);
        assert_eq!(a.descendants.len(), b.descendants.len());
        assert!(a.descendants.iter().all(|n| b.descendants.contains(n)));
    }
}

#[test]
fn undeclared_names_reported_together() {
    let nss = vec![namespace(
        "",
        vec![],
        vec![entity(
            "",
            "User",
            &["Missing1"],
            record(vec![("owner", SchemaType::Entity { name: name("Missing2") })]),
        )],
        vec![action("", "view", vec![], &["Missing3"], &["User"])],
    )];
    match build(nss) {
        Err(SchemaError::UndeclaredEntityTypes(v)) => {
            assert!(same_names(&v, &["Missing1", "Missing2", "Missing3"]))
        }
        _ => panic!("expected all three undeclared names"),
    }
}

#[test]
fn undeclared_entity_types_take_precedence() {
    let nss = vec![namespace(
        "",
        vec![],
        vec![entity("", "User", &["Nobody"], empty_record())],
        vec![action("", "view", vec![action_uid("", "nothing")], &[], &[])],
    )];
    assert!(matches!(build(nss), Err(SchemaError::UndeclaredEntityTypes(_))));
}

#[test]
fn duplicate_entity_type_across_fragments() {
    let f1 = ValidatorSchemaFragment::from_namespaces(vec![namespace(
        "N",
        vec![],
        vec![entity("N", "User", &[], empty_record())],
        vec![],
    )]);
    let f2 = ValidatorSchemaFragment::from_namespaces(vec![namespace(
        "N",
        vec![],
        vec![entity("N", "User", &[], empty_record())],
        vec![],
    )]);
    match ValidatorSchema::from_schema_fragments(vec![f1, f2]) {
        Err(SchemaError::DuplicateEntityType(n)) => assert!(n == name("N::User")),
        _ => panic!("expected a duplicate entity type"),
    }
}

#[test]
fn duplicate_action_across_fragments() {
    let f1 = ValidatorSchemaFragment::from_namespaces(vec![namespace(
        "N",
        vec![],
        vec![],
        vec![action("N", "view", vec![], &[], &[])],
    )]);
    let f2 = ValidatorSchemaFragment::from_namespaces(vec![namespace(
        "N",
        vec![],
        vec![],
        vec![action("N", "view", vec![], &[], &[])],
    )]);
    match ValidatorSchema::from_schema_fragments(vec![f1, f2]) {
        Err(SchemaError::DuplicateAction(u)) => assert!(u == action_uid("N", "view")),
        _ => panic!("expected a duplicate action"),
    }
}

#[test]
fn context_not_record() {
    let mut a = action("", "view", vec![], &[], &[]);
    a.context = SchemaType::Long;
    let nss = vec![namespace("", vec![], vec![], vec![a])];
    match build(nss) {
        Err(SchemaError::ContextOrShapeNotRecord(ContextOrShape::ActionContext(u))) => {
            assert!(u == action_uid("", "view"))
        }
        _ => panic!("expected a context error"),
    }
}

#[test]
fn context_schema_of_action() {
    let mut a = action("", "view", vec![], &[], &[]);
    a.context = record(vec![("ip", SchemaType::Extension { name: name("ipaddr") })]);
    let schema = build(vec![namespace("", vec![], vec![], vec![a])]).ok().unwrap();
    let ctx = schema.get_context_schema(&action_uid("", "view")).unwrap();
    match ctx.context_type() {
        Type::Record { attrs, open } => {
            assert!(!open);
            assert_eq!(attrs.len(), 1);
            assert_eq!(attrs[0].0, "ip");
            assert!(matches!(&attrs[0].1.attr_type, Type::Extension { name: n } if *n == name("ipaddr")));
        }
        _ => panic!("expected a record"),
    }
    assert!(schema.get_context_schema(&action_uid("", "edit")).is_none());
}

#[test]
fn entities_in_hierarchy() {
    let schema = build(photo_schema(&[])).ok().unwrap();
    let group_uid = EntityUID::new(EntityType::Concrete(name("Group")), "g".to_string());
    let found = schema.get_entities_in(PrincipalOrResourceHeadVar::PrincipalOrResource, group_uid.clone());
    assert!(same_names(&found, &["Group", "User"]));
    let unknown = EntityUID::new(EntityType::Concrete(name("Nope")), "x".to_string());
    assert!(schema
        .get_entities_in(PrincipalOrResourceHeadVar::PrincipalOrResource, unknown.clone())
        .is_empty());
    let album_uid = EntityUID::new(EntityType::Concrete(name("Album")), "a".to_string());
    let in_set = schema.get_entities_in_set(
        PrincipalOrResourceHeadVar::PrincipalOrResource,
        vec![group_uid, album_uid, unknown],
    );
    assert!(same_names(&in_set, &["Group", "User", "Album", "Photo"]));
    let unspecified = EntityUID::new(EntityType::Unspecified, "u".to_string());
    assert!(schema
        .get_entity_eq(PrincipalOrResourceHeadVar::PrincipalOrResource, unspecified)
        .is_none());
}

#[test]
fn actions_in_hierarchy() {
    let nss = vec![namespace(
        "",
        vec![],
        vec![],
        vec![
            action("", "read", vec![], &[], &[]),
            action("", "view", vec![action_uid("", "read")], &[], &[]),
        ],
    )];
    let schema = build(nss).ok().unwrap();
    let found = schema.get_actions_in(ActionHeadVar::Action, action_uid("", "read"));
    assert_eq!(found.len(), 2);
    assert!(has_uid(&found, &action_uid("", "read")));
    assert!(has_uid(&found, &action_uid("", "view")));
    let leaf = schema.get_actions_in(ActionHeadVar::Action, action_uid("", "view"));
    assert!(leaf == vec![action_uid("", "view")]);
    let both = schema.get_actions_in_set(
        ActionHeadVar::Action,
        vec![action_uid("", "view"), action_uid("", "read"), action_uid("", "nope")],
    );
    assert_eq!(both.len(), 2);
}

#[test]
fn entity_type_descriptions() {
    let nss = vec![namespace(
        "NS",
        vec![],
        vec![
            entity(
                "NS",
                "User",
                &["Group"],
                SchemaType::Record {
                    attrs: vec![
                        ("name".to_string(), SchemaAttribute { ty: SchemaType::String, required: true }),
                        ("age".to_string(), SchemaAttribute { ty: SchemaType::Long, required: false }),
                    ],
                    open: false,
                },
            ),
            entity("NS", "Group", &[], empty_record()),
        ],
        vec![action("NS", "view", vec![], &["User"], &["Group"])],
    )];
    let schema = build(nss).ok().unwrap();
    let desc = EntityTypeDescription::new(&schema, &name("NS::User")).unwrap();
    assert!(desc.entity_type() == EntityType::Concrete(name("NS::User")));
    assert!(*desc.allowed_parent_types() == vec![EntityType::Concrete(name("NS::Group"))]);
    assert_eq!(desc.required_attrs(), vec!["name".to_string()]);
    assert!(matches!(desc.attr_type(&"age".to_string()), Some(Type::Long)));
    assert!(desc.attr_type(&"height".to_string()).is_none());
    assert!(EntityTypeDescription::new(&schema, &name("NS::Nope")).is_none());

    let core = CoreSchema::new(&schema);
    assert!(core.entity_type(&EntityType::Unspecified).is_none());
    assert!(core.entity_type(&EntityType::Concrete(name("NS::Group"))).is_some());
    assert!(core.action(&action_uid("NS", "view")).is_some());
    assert!(core.action(&action_uid("NS", "edit")).is_none());
    assert_eq!(core.action_entities().len(), 1);
    let users = core.entity_types_with_basename(&"User".to_string());
    assert!(users == vec![EntityType::Concrete(name("NS::User"))]);
    assert!(core.entity_types_with_basename(&"Admin".to_string()).is_empty());
}

#[test]
fn known_names_listed() {
    let schema = build(photo_schema(&[])).ok().unwrap();
    let names = schema.known_entity_types();
    assert!(same_names(&names, &["User", "Group", "Photo", "Album"]));
    assert!(schema.known_action_ids() == vec![action_uid("", "view_photo")]);
    assert_eq!(schema.entity_types().len(), 4);
    assert!(ValidatorSchema::empty().entity_types.is_empty());
}

#[test]
fn cannot_declare_action_type_when_prohibited() {
    let file = SchemaFragment(vec![namespace(
        "",
        vec![],
        vec![entity("", "Action", &[], empty_record())],
        vec![],
    )]);
    let schema = ValidatorSchema::from_schema_file(file, ActionBehavior::default());
    assert!(matches!(schema, Err(SchemaError::ActionEntityTypeDeclared)));
}

#[test]
fn test_entity_type_namespace() {
    let schema_ty = SchemaType::Entity { name: name("NS::Foo") };
    let ty = schema_ty.resolve_type_defs(&vec![]).ok().expect("Error converting schema type to type.");
    match ty {
        Type::Entity { lub } => assert!(lub == vec![name("NS::Foo")]),
        _ => panic!("Expected an entity type"),
    }
}

#[test]
fn schema_type_record_is_validator_type_record() {
    let schema_ty = SchemaType::Record { attrs: vec![], open: false };
    let ty = schema_ty.resolve_type_defs(&vec![]).ok().expect("Error converting schema type to type.");
    match ty {
        Type::Record { attrs, open } => {
            assert!(attrs.is_empty());
            assert!(!open);
        }
        _ => panic!("Expected a record type"),
    }
}

#[test]
fn resolving_nested_common_types() {
    let defs = vec![(name("N::Id"), Type::String)];
    let schema_ty = SchemaType::SetOf {
        element: Box::new(record(vec![("id", SchemaType::CommonType { name: name("N::Id") })])),
    };
    match schema_ty.resolve_type_defs(&defs).ok().unwrap() {
        Type::SetOf { element_type: Some(e) } => match *e {
            Type::Record { attrs, .. } => {
                assert_eq!(attrs.len(), 1);
                assert!(matches!(attrs[0].1.attr_type, Type::String));
            }
            _ => panic!("Expected a record element"),
        },
        _ => panic!("Expected a set"),
    }
    let missing = SchemaType::SetOf { element: Box::new(SchemaType::CommonType { name: name("N::Gone") }) };
    match missing.resolve_type_defs(&defs) {
        Err(n) => assert!(n == name("N::Gone")),
        Ok(_) => panic!("Expected an undeclared common type"),
    }
}

#[test]
fn entity_type_cycles_are_not_rejected() {
    let nss = vec![namespace(
        "",
        vec![],
        vec![
            entity("", "A", &["B"], empty_record()),
            entity("", "B", &["A"], empty_record()),
        ],
        vec![],
    )];
    let schema = build(nss).ok().unwrap();
    let a = schema.get_entity_type(&name("A")).unwrap();
    assert!(same_names(&a.descendants, &["A", "B"]));
}

#[test]
fn empty_context_schema_for_plain_action() {
    let schema = build(photo_schema(&[])).ok().unwrap();
    match schema.get_context_schema(&action_uid("", "view_photo")).unwrap().context_type() {
        Type::Record { attrs, open } => {
            assert!(attrs.is_empty());
            assert!(!open);
        }
        _ => panic!("expected a record"),
    }
}

#[test]
fn required_attrs_listed_once() {
    let shape = SchemaType::Record {
        attrs: vec![
            ("name".to_string(), SchemaAttribute { ty: SchemaType::String, required: true }),
            ("name".to_string(), SchemaAttribute { ty: SchemaType::String, required: true }),
            ("age".to_string(), SchemaAttribute { ty: SchemaType::Long, required: true }),
        ],
        open: false,
    };
    let schema = build(vec![namespace("", vec![], vec![entity("", "User", &[], shape)], vec![])])
        .ok()
        .unwrap();
    let desc = EntityTypeDescription::new(&schema, &name("User")).unwrap();
    assert_eq!(desc.required_attrs(), vec!["name".to_string(), "age".to_string()]);
    assert_eq!(desc.validator_type.attributes.len(), 3);
}
