use abac_rs::{evaluate_rules, Attributes, Error, Value};

fn user(id: i64, role: &str, department: &str) -> Attributes {
    let mut u = Attributes::new();
    u.insert("id".to_string(), Value::Int(id));
    u.insert("role".to_string(), Value::Str(role.to_string()));
    u.insert("department".to_string(), Value::Str(department.to_string()));
    u
}

fn file(owner_id: i64, tag: &str) -> Attributes {
    let mut f = Attributes::new();
    f.insert("owner_id".to_string(), Value::Int(owner_id));
    f.insert("tag".to_string(), Value::Str(tag.to_string()));
    f
}

// Success: (admin OR owner) AND department matches
#[test]
fn policy_allows_admin_in_department() {
    let rules = r#"
        [ subject.role == 'admin', object.owner_id == subject.id ],
        [ subject.department == 'informatics' ]
    "#;

    let user = user(1, "admin", "informatics");
    let file = file(42, "draft");

    assert!(evaluate_rules(rules, &user, Some(&file)).unwrap());
}

// Denied: none of OR-group clauses pass
#[test]
fn policy_denies_guest_wrong_department() {
    let rules = r#"
        [ subject.role == 'admin', object.owner_id == subject.id ],
        [ subject.department == 'informatics' ]
    "#;

    let user = user(2, "guest", "design");
    let file = file(99, "draft");

    assert!(!evaluate_rules(rules, &user, Some(&file)).unwrap());
}

// Error: unknown field referenced in policy
#[test]
fn unknown_field_error() {
    let rules = "[ subject.nonexistent == 'x' ]";

    let user = user(3, "guest", "informatics");
    let file = file(3, "draft");

    match evaluate_rules(rules, &user, Some(&file)) {
        Err(Error::UnknownField(_)) => {} // expected
        other => panic!("expected UnknownField error, got {other:?}"),
    }
}

// Error: type mismatch (string literal vs int field)
#[test]
fn type_mismatch_error() {
    let rules = "[ subject.id == '42' ]"; // id is an integer, literal is a string

    let user = user(42, "guest", "informatics");
    let file = file(0, "draft");

    match evaluate_rules(rules, &user, Some(&file)) {
        Err(Error::TypeMismatch { .. }) => {} // expected
        other => panic!("expected TypeMismatch error, got {other:?}"),
    }
}

// Error: parse failure due to invalid operator
#[test]
fn parse_error_invalid_operator() {
    let rules = "[ subject.role === 'admin' ]"; // triple equals not supported

    let user = user(0, "admin", "informatics");
    let file = file(0, "draft");

    match evaluate_rules(rules, &user, Some(&file)) {
        Err(Error::Parse(_)) => {} // expected
        other => panic!("expected Parse error, got {other:?}"),
    }
}

#[test]
fn object_clauses_skipped_without_object() {
    // with no object, the object.* clause is dropped and the admin clause
    // decides the first group alone
    let rules = r#"
        [ subject.role == 'admin', object.owner_id == subject.id ],
        [ subject.department == 'informatics' ]
    "#;

    let admin = user(7, "admin", "informatics");
    assert!(evaluate_rules(rules, &admin, None::<&Attributes>).unwrap());

    let guest = user(8, "guest", "informatics");
    assert!(!evaluate_rules(rules, &guest, None::<&Attributes>).unwrap());
}

#[test]
fn group_of_only_object_clauses_fails_without_object() {
    // when every clause of a group is skipped, nothing can satisfy it
    let rules = "[ object.owner_id == subject.id ]";
    let user = user(7, "admin", "informatics");
    assert!(!evaluate_rules(rules, &user, None::<&Attributes>).unwrap());
}

#[test]
fn scenario_age_denied_over_threshold() {
    let mut subject = Attributes::new();
    subject.insert("age".to_string(), Value::Int(21));
    assert!(!evaluate_rules("[ subject.age > 30 ]", &subject, None::<&Attributes>).unwrap());
}

#[test]
fn scenario_second_clause_saves_group() {
    let mut subject = Attributes::new();
    subject.insert("age".to_string(), Value::Int(21));
    subject.insert("name".to_string(), Value::Str("Ann".to_string()));
    let mut object = Attributes::new();
    object.insert("owner".to_string(), Value::Str("Ann".to_string()));
    let rules = "[ subject.age > 30, subject.name == object.owner ]";
    assert!(evaluate_rules(rules, &subject, Some(&object)).unwrap());
}

#[test]
fn scenario_second_group_fails() {
    let mut subject = Attributes::new();
    subject.insert("age".to_string(), Value::Int(21));
    subject.insert("name".to_string(), Value::Str("Ann".to_string()));
    let rules = "[ subject.age >= 18 ], [ subject.name == 'Bob' ]";
    assert!(!evaluate_rules(rules, &subject, None::<&Attributes>).unwrap());
}

#[test]
fn empty_policy_string_denies() {
    // an empty policy text parses as one group with no clauses, and a
    // group with no clauses can never be satisfied
    let subject = user(1, "admin", "informatics");
    assert!(!evaluate_rules("", &subject, None::<&Attributes>).unwrap());
}
