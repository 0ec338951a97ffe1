use abac_rs::{
    clause_uses_object, parse_int_str, parse_rules, trim_str, Attributes, Entity, Error, Op, Rule,
    SideRule, Value,
};

#[test]
fn parse_equal_subject_vs_object() {
    let rules = parse_rules("[ subject.name == object.owner ]").expect("Should parse");
    assert_eq!(rules.0.len(), 1);
    assert_eq!(rules.0[0].len(), 1);
    let rule = &rules.0[0][0];
    assert!(matches!(rule.left, SideRule::Subject(ref s) if s == "name"));
    assert!(matches!(rule.operator, Op::Eq));
    assert!(matches!(rule.right, SideRule::Object(ref s) if s == "owner"));
}

#[test]
fn parse_greater_subject_vs_literal() {
    let rules = parse_rules("[ subject.age > 18 ]").expect("Should parse");
    let rule = &rules.0[0][0];
    assert!(matches!(rule.left, SideRule::Subject(ref s) if s == "age"));
    assert!(matches!(rule.operator, Op::Gt));
    assert!(matches!(rule.right, SideRule::Literal(Value::Int(18))));
}

#[test]
fn parse_order_operators() {
    let rules = parse_rules(
        "[ subject.priority < 5 ], [ subject.score >= 90 ], [ subject.cost <= 1000, subject.role != 'guest' ]",
    )
    .expect("Should parse");
    assert_eq!(rules.0.len(), 3);
    assert!(matches!(rules.0[0][0].operator, Op::Lt));
    assert!(matches!(rules.0[0][0].right, SideRule::Literal(Value::Int(5))));
    assert!(matches!(rules.0[1][0].operator, Op::Ge));
    assert!(matches!(rules.0[1][0].right, SideRule::Literal(Value::Int(90))));
    assert!(matches!(rules.0[2][0].operator, Op::Le));
    assert!(
        matches!(rules.0[2][0].right, SideRule::Literal(Value::Int(1000)))
    );
    assert!(matches!(rules.0[2][1].operator, Op::Ne));
    assert!(
        matches!(rules.0[2][1].right, SideRule::Literal(Value::Str(ref s)) if s == "guest")
    );
}

#[test]
fn parse_quoted_string_literal() {
    let rules = parse_rules("[ subject.role == 'admin' ]").expect("Should parse");
    let rule = &rules.0[0][0];
    assert!(matches!(rule.right, SideRule::Literal(Value::Str(ref s)) if s == "admin"));
}

#[test]
fn parse_negative_and_signed_integers() {
    let rules = parse_rules("[ subject.delta == -7, subject.plus == +5 ]").expect("Should parse");
    assert!(matches!(rules.0[0][0].right, SideRule::Literal(Value::Int(-7))));
    assert!(matches!(rules.0[0][1].right, SideRule::Literal(Value::Int(5))));
}

#[test]
fn parse_rejects_bad_operand() {
    match parse_rules("[ subject.age > banana ]") {
        Err(Error::Parse(frag)) => assert_eq!(frag, "banana"),
        other => panic!("expected Parse error, got {other:?}"),
    }
}

#[test]
fn parse_rejects_missing_operator() {
    match parse_rules("[ subject.age ]") {
        Err(Error::Parse(_)) => {}
        other => panic!("expected Parse error, got {other:?}"),
    }
}

#[test]
fn parse_int_edges() {
    assert_eq!(parse_int_str("0"), Some(0));
    assert_eq!(parse_int_str("+5"), Some(5));
    assert_eq!(parse_int_str("-7"), Some(-7));
    assert_eq!(parse_int_str("9223372036854775807"), Some(i64::MAX));
    assert_eq!(parse_int_str("-9223372036854775808"), Some(i64::MIN));
    assert_eq!(parse_int_str("9223372036854775808"), None);
    assert_eq!(parse_int_str("99999999999999999999999999"), None);
    assert_eq!(parse_int_str("12a"), None);
    assert_eq!(parse_int_str(""), None);
    assert_eq!(parse_int_str("-"), None);
    assert_eq!(parse_int_str("'x'"), None);
}

#[test]
fn trim_strips_simple_whitespace() {
    assert_eq!(trim_str("  a b\t"), "a b");
    assert_eq!(trim_str("\r\n x \n"), "x");
    assert_eq!(trim_str(""), "");
    assert_eq!(trim_str("   "), "");
}

#[test]
fn clause_object_detection() {
    let with_object = Rule {
        left: SideRule::Subject("name".to_string()),
        operator: Op::Eq,
        right: SideRule::Object("owner".to_string()),
    };
    let without_object = Rule {
        left: SideRule::Subject("age".to_string()),
        operator: Op::Ge,
        right: SideRule::Literal(Value::Int(18)),
    };
    assert!(clause_uses_object(&with_object));
    assert!(!clause_uses_object(&without_object));
}

#[test]
fn attributes_last_insert_wins() {
    let mut a = Attributes::new();
    a.insert("k".to_string(), Value::Int(1));
    a.insert("k".to_string(), Value::Int(2));
    assert!(matches!(a.get("k"), Some(&Value::Int(2))));
    assert!(a.get("missing").is_none());
}

#[test]
fn attributes_field_names_list_bound_names() {
    let mut a = Attributes::new();
    a.insert("name".to_string(), Value::Str("Ann".to_string()));
    a.insert("age".to_string(), Value::Int(21));
    let mut names = a.field_names();
    names.sort();
    assert_eq!(names, vec!["age".to_string(), "name".to_string()]);
}

#[test]
fn attributes_project_into_equal_map() {
    let mut a = Attributes::new();
    a.insert("name".to_string(), Value::Str("Ann".to_string()));
    let b = a.to_attributes().expect("projection never fails");
    assert!(matches!(b.get("name"), Some(Value::Str(s)) if s == "Ann"));
}
