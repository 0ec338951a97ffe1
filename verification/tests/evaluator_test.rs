use abac_rs::{
    evaluate, which_to_evaluate, which_to_evaluate_lenient, Attributes, EmptyEntity, Error, Op,
    Rule, Rules, SideRule, Value,
};

fn user_entity() -> Attributes {
    let mut user = Attributes::new();
    user.insert("name".to_string(), Value::Str("WiszeL".to_string()));
    user.insert("age".to_string(), Value::Int(21));
    user
}

fn task_entity() -> Attributes {
    let mut task = Attributes::new();
    task.insert("owner".to_string(), Value::Str("WiszeL".to_string()));
    task
}

#[test]
fn which_to_evaluate_test() {
    // ##### Arrange ##### //
    let mut subject = Attributes::new();
    subject.insert("age".to_string(), Value::Int(21));
    subject.insert("name".to_string(), Value::Str("WiszeL".to_string()));

    let mut object = Attributes::new();
    object.insert("owner".to_string(), Value::Str("WiszeL".to_string()));

    let literal = Value::Bool(true);

    // ##### Act & Assert ##### //

    // Case 01 - Subject field exists
    let binding = SideRule::Subject("age".to_string());
    let result = which_to_evaluate_lenient(&subject, &object, &binding);
    assert!(
        matches!(result, Value::Int(21)),
        "Case 01: should return subject field 'age'"
    );

    // Case 02 - Object field exists
    let binding = SideRule::Object("owner".to_string());
    let result = which_to_evaluate_lenient(&subject, &object, &binding);
    assert!(
        matches!(result, Value::Str(ref s) if s.as_str() == "WiszeL"),
        "Case 02: should return object field 'owner'"
    );

    // Case 03 - Literal value returned directly
    let binding = SideRule::Literal(literal);
    let result = which_to_evaluate_lenient(&subject, &object, &binding);
    assert!(
        matches!(result, Value::Bool(true)),
        "Case 03: should return literal directly"
    );

    // Case 04 - Missing field resolves to false
    let binding = SideRule::Subject("not_found".to_string());
    let result = which_to_evaluate_lenient(&subject, &object, &binding);
    assert!(
        matches!(result, Value::Bool(false)),
        "Case 04: should return error for missing subject field"
    );
}

#[test]
fn evaluator_test_which_to_evaluate_test() {
    // ##### Arrange ##### //
    let mut subject = Attributes::new();
    subject.insert("age".to_string(), Value::Int(21));
    subject.insert("name".to_string(), Value::Str("WiszeL".to_string()));

    let mut object = Attributes::new();
    object.insert("owner".to_string(), Value::Str("WiszeL".to_string()));

    let literal = Value::Bool(true);

    // ##### Act & Assert ##### //

    // Case 01 - Subject field exists
    let binding = SideRule::Subject("age".to_string());
    let result = which_to_evaluate(&subject, &object, &binding);
    assert!(
        matches!(result, Ok(&Value::Int(21))),
        "Case 01: should return subject field 'age'"
    );

    // Case 02 - Object field exists
    let binding = SideRule::Object("owner".to_string());
    let result = which_to_evaluate(&subject, &object, &binding);
    assert!(
        matches!(result, Ok(Value::Str(s)) if s.as_str() == "WiszeL"),
        "Case 02: should return object field 'owner'"
    );

    // Case 03 - Literal value returned directly
    let binding = SideRule::Literal(literal);
    let result = which_to_evaluate(&subject, &object, &binding);
    assert!(
        matches!(result, Ok(&Value::Bool(true))),
        "Case 03: should return literal directly"
    );

    // Case 04 - Missing field returns error
    let binding = SideRule::Subject("not_found".to_string());
    let result = which_to_evaluate(&subject, &object, &binding);
    assert!(
        result.is_err(),
        "Case 04: should return error for missing subject field"
    );
}

#[test]
fn evaluate_test() {
    // ##### Arrange ##### //
    let user = user_entity();
    let task = task_entity();

    // ##### Act & Assert ##### //

    // Case 01 - Subject.age >= 18 -> true
    let rules = Rules(vec![vec![Rule {
        left: SideRule::Subject("age".to_string()),
        operator: Op::Ge,
        right: SideRule::Literal(Value::Int(18)),
    }]]);

    let result = evaluate(&user, &task, &rules);
    assert_eq!(result.unwrap(), true, "Case 01: age >= 18 should pass");

    // Case 02 - Subject.name == Object.owner -> true
    let rules = Rules(vec![vec![Rule {
        left: SideRule::Subject("name".to_string()),
        operator: Op::Eq,
        right: SideRule::Object("owner".to_string()),
    }]]);

    let result = evaluate(&user, &task, &rules);
    assert_eq!(result.unwrap(), true, "Case 02: name == owner should pass");

    // Case 03 - Subject.age > 30 -> false
    let rules = Rules(vec![vec![Rule {
        left: SideRule::Subject("age".to_string()),
        operator: Op::Gt,
        right: SideRule::Literal(Value::Int(30)),
    }]]);

    let result = evaluate(&user, &task, &rules);
    assert_eq!(result.unwrap(), false, "Case 03: age > 30 should fail");

    // Case 04 - OR group: (age > 30 OR name == owner) -> true
    let rules = Rules(vec![vec![
        Rule {
            left: SideRule::Subject("age".to_string()),
            operator: Op::Gt,
            right: SideRule::Literal(Value::Int(30)),
        },
        Rule {
            left: SideRule::Subject("name".to_string()),
            operator: Op::Eq,
            right: SideRule::Object("owner".to_string()),
        },
    ]]);

    let result = evaluate(&user, &task, &rules);
    assert_eq!(result.unwrap(), true, "Case 04: OR group should pass");

    // Case 05 - AND group fail: (age >= 18) AND (name == 'SomeoneElse') -> false
    let rules = Rules(vec![
        vec![Rule {
            left: SideRule::Subject("age".to_string()),
            operator: Op::Ge,
            right: SideRule::Literal(Value::Int(18)),
        }],
        vec![Rule {
            left: SideRule::Subject("name".to_string()),
            operator: Op::Eq,
            right: SideRule::Literal(Value::Str("SomeoneElse".to_string())),
        }],
    ]);

    let result = evaluate(&user, &task, &rules);
    assert_eq!(result.unwrap(), false, "Case 05: AND block should fail");
}

#[test]
fn evaluator_test_evaluate_test() {
    // ##### Arrange ##### //
    let user = user_entity();
    let task = task_entity();

    // ##### Act & Assert ##### //

    // Case 01 - Subject.age >= 18 -> true
    let rules = Rules(vec![vec![Rule {
        left: SideRule::Subject("age".to_string()),
        operator: Op::Ge,
        right: SideRule::Literal(Value::Int(18)),
    }]]);

    let result = evaluate(&user, &task, &rules);
    assert!(result.unwrap(), "Case 01: age >= 18 should pass");

    // Case 02 - Subject.name == Object.owner -> true
    let rules = Rules(vec![vec![Rule {
        left: SideRule::Subject("name".to_string()),
        operator: Op::Eq,
        right: SideRule::Object("owner".to_string()),
    }]]);

    let result = evaluate(&user, &task, &rules);
    assert!(result.unwrap(), "Case 02: name == owner should pass");

    // Case 03 - Subject.age > 30 -> false
    let rules = Rules(vec![vec![Rule {
        left: SideRule::Subject("age".to_string()),
        operator: Op::Gt,
        right: SideRule::Literal(Value::Int(30)),
    }]]);

    let result = evaluate(&user, &task, &rules);
    assert!(!result.unwrap(), "Case 03: age > 30 should fail");

    // Case 04 - OR group: (age > 30 OR name == owner) -> true
    let rules = Rules(vec![vec![
        Rule {
            left: SideRule::Subject("age".to_string()),
            operator: Op::Gt,
            right: SideRule::Literal(Value::Int(30)),
        },
        Rule {
            left: SideRule::Subject("name".to_string()),
            operator: Op::Eq,
            right: SideRule::Object("owner".to_string()),
        },
    ]]);

    let result = evaluate(&user, &task, &rules);
    assert!(result.unwrap(), "Case 04: OR group should pass");

    // Case 05 - AND group fail: (age >= 18) AND (name == 'SomeoneElse') -> false
    let rules = Rules(vec![
        vec![Rule {
            left: SideRule::Subject("age".to_string()),
            operator: Op::Ge,
            right: SideRule::Literal(Value::Int(18)),
        }],
        vec![Rule {
            left: SideRule::Subject("name".to_string()),
            operator: Op::Eq,
            right: SideRule::Literal(Value::Str("SomeoneElse".to_string())),
        }],
    ]);

    let result = evaluate(&user, &task, &rules);
    assert!(!result.unwrap(), "Case 05: AND block should fail");

    // Case 06 - Field is invalid/not found, continue anyway and result true
    let rules = Rules(vec![vec![
        Rule {
            left: SideRule::Subject("name".to_string()),
            operator: Op::Eq,
            right: SideRule::Object("owner".to_string()),
        },
        Rule {
            left: SideRule::Subject("name".to_string()),
            operator: Op::Eq,
            right: SideRule::Object("editor".to_string()),
        },
    ]]);

    let result = evaluate(&user, &task, &rules);
    assert!(result.unwrap(), "Case 06: name == owner, but field not found...ignored n still should pass");
}

#[test]
fn empty_policy_is_vacuously_allowed() {
    let user = user_entity();
    let task = task_entity();
    let rules = Rules(vec![]);
    assert_eq!(evaluate(&user, &task, &rules).unwrap(), true);
}

#[test]
fn empty_group_is_always_denied() {
    let user = user_entity();
    let task = task_entity();
    let rules = Rules(vec![vec![]]);
    assert_eq!(evaluate(&user, &task, &rules).unwrap(), false);
}

#[test]
fn or_short_circuit_skips_erroring_clause() {
    // the first clause passes, so the second, which would raise
    // UnknownField, is never evaluated
    let user = user_entity();
    let task = task_entity();
    let rules = Rules(vec![vec![
        Rule {
            left: SideRule::Subject("age".to_string()),
            operator: Op::Ge,
            right: SideRule::Literal(Value::Int(18)),
        },
        Rule {
            left: SideRule::Subject("no_such_field".to_string()),
            operator: Op::Eq,
            right: SideRule::Literal(Value::Int(1)),
        },
    ]]);
    assert_eq!(evaluate(&user, &task, &rules).unwrap(), true);
}

#[test]
fn and_short_circuit_skips_erroring_group() {
    // the first group fails, so the second, which would raise
    // UnknownField, is never evaluated
    let user = user_entity();
    let task = task_entity();
    let rules = Rules(vec![
        vec![Rule {
            left: SideRule::Subject("age".to_string()),
            operator: Op::Gt,
            right: SideRule::Literal(Value::Int(30)),
        }],
        vec![Rule {
            left: SideRule::Subject("no_such_field".to_string()),
            operator: Op::Eq,
            right: SideRule::Literal(Value::Int(1)),
        }],
    ]);
    assert_eq!(evaluate(&user, &task, &rules).unwrap(), false);
}

#[test]
fn cross_kind_comparison_is_type_mismatch() {
    let user = user_entity();
    let task = task_entity();
    let rules = Rules(vec![vec![Rule {
        left: SideRule::Subject("age".to_string()),
        operator: Op::Eq,
        right: SideRule::Literal(Value::Str("21".to_string())),
    }]]);
    match evaluate(&user, &task, &rules) {
        Err(Error::TypeMismatch { .. }) => {}
        other => panic!("expected TypeMismatch error, got {other:?}"),
    }
}

#[test]
fn missing_field_is_unknown_field_error() {
    let user = user_entity();
    let task = task_entity();
    let rules = Rules(vec![vec![Rule {
        left: SideRule::Subject("salary".to_string()),
        operator: Op::Gt,
        right: SideRule::Literal(Value::Int(0)),
    }]]);
    match evaluate(&user, &task, &rules) {
        Err(Error::UnknownField(f)) => assert_eq!(f, "salary"),
        other => panic!("expected UnknownField error, got {other:?}"),
    }
}

#[test]
fn empty_entity_has_no_fields() {
    let user = user_entity();
    let rules = Rules(vec![vec![Rule {
        left: SideRule::Subject("name".to_string()),
        operator: Op::Eq,
        right: SideRule::Object("owner".to_string()),
    }]]);
    match evaluate(&user, &EmptyEntity, &rules) {
        Err(Error::UnknownField(f)) => assert_eq!(f, "owner"),
        other => panic!("expected UnknownField error, got {other:?}"),
    }
}

#[test]
fn scenario_adult_subject_without_object() {
    let mut ann = Attributes::new();
    ann.insert("name".to_string(), Value::Str("Ann".to_string()));
    ann.insert("age".to_string(), Value::Int(21));
    let rules = Rules(vec![vec![Rule {
        left: SideRule::Subject("age".to_string()),
        operator: Op::Ge,
        right: SideRule::Literal(Value::Int(18)),
    }]]);
    assert_eq!(evaluate(&ann, &EmptyEntity, &rules).unwrap(), true);
}

#[test]
fn scenario_owner_matches_subject() {
    let mut ann = Attributes::new();
    ann.insert("name".to_string(), Value::Str("Ann".to_string()));
    let mut doc = Attributes::new();
    doc.insert("owner".to_string(), Value::Str("Ann".to_string()));
    let rules = Rules(vec![vec![Rule {
        left: SideRule::Subject("name".to_string()),
        operator: Op::Eq,
        right: SideRule::Object("owner".to_string()),
    }]]);
    assert_eq!(evaluate(&ann, &doc, &rules).unwrap(), true);
}

#[test]
fn uuid_identity_comparison() {
    let han_id: u128 = 0x1234_5678_9abc_def0;
    let leia_id: u128 = 0x0fed_cba9_8765_4321;
    let mut han = Attributes::new();
    han.insert("id".to_string(), Value::Uuid(han_id));
    let mut leia = Attributes::new();
    leia.insert("id".to_string(), Value::Uuid(leia_id));
    let mut doc = Attributes::new();
    doc.insert("owner_id".to_string(), Value::Uuid(han_id));

    let rules = Rules(vec![vec![Rule {
        left: SideRule::Subject("id".to_string()),
        operator: Op::Eq,
        right: SideRule::Object("owner_id".to_string()),
    }]]);

    assert_eq!(evaluate(&han, &doc, &rules).unwrap(), true);
    assert_eq!(evaluate(&leia, &doc, &rules).unwrap(), false);
}
