use cedar_policy_validator::json::{
    check_action_parents, display_value, JsonShape, check_extn_call_arity, check_record_attrs, check_record_keys,
    check_reserved_keys, EscapeKind, JsonDeserializationError, JsonDeserializationErrorContext,
    JsonSerializationError,
};
use cedar_policy_validator::names::{EntityType, EntityUID, Name};
use cedar_policy_validator::types::{AttributeType, Type};

fn keys(v: &[&str]) -> Vec<String> {
    v.iter().map(|k| k.to_string()).collect()
}

fn action(id: &str) -> EntityUID {
    EntityUID::new(EntityType::Concrete(Name::unqualified("Action".to_string())), id.to_string())
}

#[test]
fn duplicate_key_in_record_literal_rejected() {
    match check_record_keys(JsonDeserializationErrorContext::Context, &keys(&["a", "b", "a"])) {
        Err(JsonDeserializationError::DuplicateKeyInRecordLiteral { key, .. }) => assert_eq!(key, "a"),
        _ => panic!("expected a duplicate key error"),
    }
    assert!(check_record_keys(JsonDeserializationErrorContext::Context, &keys(&["a", "b"])).is_ok());
    assert!(check_record_keys(JsonDeserializationErrorContext::Context, &keys(&[])).is_ok());
}

#[test]
fn record_attributes_checked_against_schema() {
    let attrs = vec![
        ("name".to_string(), AttributeType { attr_type: Type::String, is_required: true }),
        ("age".to_string(), AttributeType { attr_type: Type::Long, is_required: false }),
    ];
    let ctx = || JsonDeserializationErrorContext::EntityUid;
    assert!(check_record_attrs(ctx(), &keys(&["name"]), &attrs).is_ok());
    assert!(check_record_attrs(ctx(), &keys(&["age", "name"]), &attrs).is_ok());
    match check_record_attrs(ctx(), &keys(&["name", "height"]), &attrs) {
        Err(JsonDeserializationError::UnexpectedRecordAttr { record_attr, .. }) => {
            assert_eq!(record_attr, "height")
        }
        _ => panic!("expected an unexpected attribute"),
    }
    match check_record_attrs(ctx(), &keys(&["age"]), &attrs) {
        Err(JsonDeserializationError::MissingRequiredRecordAttr { record_attr, .. }) => {
            assert_eq!(record_attr, "name")
        }
        _ => panic!("expected a missing attribute"),
    }
}

#[test]
fn action_parents_must_be_actions() {
    let uid = action("view");
    assert!(check_action_parents(&uid, &vec![action("read")]).is_ok());
    let user = EntityUID::new(EntityType::Concrete(Name::unqualified("User".to_string())), "alice".to_string());
    match check_action_parents(&uid, &vec![action("read"), user]) {
        Err(JsonDeserializationError::ActionParentIsNotAction { parent, .. }) => {
            assert_eq!(parent.eid, "alice")
        }
        _ => panic!("expected a non-action parent"),
    }
    let unspecified = EntityUID::new(EntityType::Unspecified, "x".to_string());
    assert!(check_action_parents(&uid, &vec![unspecified]).is_err());
}

#[test]
fn escape_keys() {
    assert_eq!(EscapeKind::Entity.key(), "__entity");
    assert_eq!(EscapeKind::Extension.key(), "__extn");
}

#[test]
fn reserved_keys_rejected_when_encoding() {
    assert!(check_reserved_keys(&keys(&["a", "b"])).is_ok());
    match check_reserved_keys(&keys(&["a", "__extn"])) {
        Err(JsonSerializationError::ReservedKey { key }) => assert_eq!(key, "__extn"),
        _ => panic!("expected a reserved key"),
    }
    assert!(check_reserved_keys(&keys(&["__entity"])).is_err());
}

#[test]
fn extension_call_arity() {
    let f = Name::unqualified("ip".to_string());
    assert!(check_extn_call_arity(&f, 1).is_ok());
    assert!(matches!(
        check_extn_call_arity(&f, 0),
        Err(JsonSerializationError::ExtnCall0Arguments { .. })
    ));
    assert!(matches!(
        check_extn_call_arity(&f, 3),
        Err(JsonSerializationError::ExtnCall2OrMoreArguments { .. })
    ));
}

fn other(t: &str) -> JsonShape {
    JsonShape::Other(t.to_string())
}

#[test]
fn display_of_json_values() {
    assert_eq!(display_value(&other("true")), "true");
    assert_eq!(display_value(&JsonShape::Array(vec![other("1"), other("\"a\"")])), "[1, \"a\"]");
    assert_eq!(display_value(&JsonShape::Array(vec![])), "[]");
    assert_eq!(display_value(&JsonShape::Object(vec![])), "{}");
    let obj = JsonShape::Object(vec![
        ("b".to_string(), "2".to_string()),
        ("a".to_string(), "[1,2]".to_string()),
    ]);
    assert_eq!(display_value(&obj), "{\"a\":[1,2],\"b\":2}");
    let nested = JsonShape::Array(vec![obj, other("null")]);
    assert_eq!(display_value(&nested), "[{\"a\":[1,2],\"b\":2}, null]");
}

fn user(eid: &str) -> EntityUID {
    EntityUID::new(
        EntityType::Concrete(Name::new(vec!["NS".to_string()], "User".to_string())),
        eid.to_string(),
    )
}

#[test]
fn texts_of_names_and_uids() {
    assert_eq!(Name::new(vec!["A".to_string(), "B".to_string()], "C".to_string()).to_text(), "A::B::C");
    assert_eq!(Name::unqualified("Foo".to_string()).to_text(), "Foo");
    assert_eq!(user("alice").to_text(), "NS::User::\"alice\"");
    assert_eq!(user("a\"b").to_text(), "NS::User::\"a\\\"b\"");
    assert_eq!(user("x").text_with_escaped_id(&"y".to_string()), "NS::User::\"y\"");
    assert_eq!(EntityType::Unspecified.to_text(), "<Unspecified>");
}

#[test]
fn texts_of_error_contexts() {
    let attr = JsonDeserializationErrorContext::EntityAttribute { uid: user("alice"), attr: "age".to_string() };
    assert_eq!(attr.describe(), "in attribute `age` on `NS::User::\"alice\"`");
    let parents = JsonDeserializationErrorContext::EntityParents { uid: user("bob") };
    assert_eq!(parents.describe(), "in parents field of `NS::User::\"bob\"`");
    assert_eq!(JsonDeserializationErrorContext::EntityUid.describe(), "in uid field of <unknown entity>");
    assert_eq!(JsonDeserializationErrorContext::Context.describe(), "while parsing context");
    let policy = JsonDeserializationErrorContext::Policy { id: "p1".to_string() };
    assert_eq!(policy.describe(), "while parsing JSON policy `p1`");
}

#[test]
fn errors_keep_their_context() {
    match check_record_keys(JsonDeserializationErrorContext::Context, &keys(&["k", "k"])) {
        Err(JsonDeserializationError::DuplicateKeyInRecordLiteral { ctx, key }) => {
            assert!(matches!(ctx, JsonDeserializationErrorContext::Context));
            assert_eq!(key, "k");
        }
        _ => panic!("expected a duplicate key error"),
    }
    let ctx = JsonDeserializationErrorContext::Policy { id: "p".to_string() };
    match check_record_attrs(ctx, &keys(&["x"]), &vec![]) {
        Err(JsonDeserializationError::UnexpectedRecordAttr { ctx, record_attr }) => {
            assert!(matches!(ctx, JsonDeserializationErrorContext::Policy { id } if id == "p"));
            assert_eq!(record_attr, "x");
        }
        _ => panic!("expected an unexpected attribute"),
    }
}
