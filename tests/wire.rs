use evaluator::api::{ApiError, EvaluateParams};
use evaluator::eval::EvaluationError;
use evaluator::json::{JsonValue, Number};
use evaluator::repository::{
    CreateRuleError, EvaluateRuleError, Evaluation, EvaluationReason, EvaluationResult,
    GetRuleError,
};
use evaluator::rule::{CompoundPredicate, Operator, Predicate, RawPredicate, Rule};
use evaluator::wire::{rules_from_json, rules_to_json, FormatError};

fn convert(v: &serde_json::Value) -> JsonValue {
    match v {
        serde_json::Value::Null => JsonValue::Null,
        serde_json::Value::Bool(b) => JsonValue::Bool(*b),
        serde_json::Value::Number(n) => {
            if let Some(u) = n.as_u64() {
                JsonValue::Number(Number::PosInt(u))
            } else if let Some(i) = n.as_i64() {
                JsonValue::Number(Number::NegInt(i))
            } else {
                JsonValue::Number(Number::Float(n.as_f64().unwrap().to_bits()))
            }
        }
        serde_json::Value::String(s) => JsonValue::String(s.clone()),
        serde_json::Value::Array(items) => JsonValue::Array(items.iter().map(convert).collect()),
        serde_json::Value::Object(members) => JsonValue::Object(
            members.iter().map(|(k, v)| (k.clone(), convert(v))).collect(),
        ),
    }
}

fn j(text: &str) -> JsonValue {
    convert(&serde_json::from_str(text).expect("test JSON must parse"))
}

fn raw(path: &str, operator: Operator, value: &str) -> RawPredicate {
    RawPredicate::new(path, operator, j(value))
}

fn pred(p: RawPredicate) -> Predicate {
    Predicate::from(p)
}

fn parse(text: &str) -> Result<Predicate, FormatError> {
    Predicate::from_json(&j(text))
}

#[test]
fn rule_test_raw_predicate() {
    assert_eq!(
        parse(r#"{"path": "foo", "operator": "==", "value": 10}"#),
        Ok(pred(raw("foo", Operator::Equal, "10")))
    );

    assert_eq!(
        parse(r#"{"path": "foo.bar.baz", "operator": "==", "value": {"bob": 10, "alice": "Red", "eve": [1, 2, 3]}}"#),
        Ok(pred(raw("foo.bar.baz", Operator::Equal, r#"{"bob": 10, "alice": "Red", "eve": [1,2,3]}"#)))
    );
}

#[test]
fn rule_test_compound() {
    assert_eq!(
        parse(
            r#"
            {
                "any": [
                    {
                        "path": "baz",
                        "operator": "contains",
                        "value": 1810
                    },
                    {
                        "path": "bar",
                        "operator": "contains",
                        "value": 1950
                    }
                ]
            }
            "#
        ),
        Ok(Predicate::Compound(CompoundPredicate::Any(vec![
            pred(raw("baz", Operator::Contains, "1810")),
            pred(raw("bar", Operator::Contains, "1950")),
        ])))
    );
}

#[test]
fn rule_test_predicate() {
    let expected = Predicate::Compound(CompoundPredicate::All(vec![
        pred(raw("age", Operator::GreaterEqual, "12")),
        Predicate::Compound(CompoundPredicate::Any(vec![
            pred(raw("height.feet", Operator::Greater, "5")),
            Predicate::Compound(CompoundPredicate::All(vec![
                pred(raw("height.feet", Operator::Equal, "5")),
                pred(raw("height.inches", Operator::GreaterEqual, "2")),
            ])),
        ])),
    ]));
    assert_eq!(
        parse(
            r#"{
                "all": [
                    {
                        "path": "age",
                        "operator": ">=",
                        "value": 12
                    },
                    {
                        "any": [
                            {
                                "path": "height.feet",
                                "operator": ">",
                                "value": 5
                            },
                            {
                                "all": [
                                    {
                                        "path": "height.feet",
                                        "operator": "==",
                                        "value": 5
                                    },
                                    {
                                        "path": "height.inches",
                                        "operator": ">=",
                                        "value": 2
                                    }
                                ]
                            }
                        ]
                    }
                ]
            }"#
        ),
        Ok(expected)
    );
}

#[test]
fn rule_test_rule() {
    let parsed = Rule::from_json(&j(r#"{
        "name": "rule-1",
        "message": "Important rule failed",
        "predicate": {
            "any": [
                {
                    "path": "foo",
                    "operator": ">=",
                    "value": 12
                }
            ]
        }
    }"#));
    let expected = Rule::new(
        "rule-1",
        "Important rule failed",
        Predicate::Compound(CompoundPredicate::Any(vec![pred(raw("foo", Operator::GreaterEqual, "12"))])),
    );
    assert_eq!(parsed, Ok(expected));
}

#[test]
fn operator_names_and_aliases() {
    let pairs = [
        ("equal", "==", Operator::Equal),
        ("notEqual", "!=", Operator::NotEqual),
        ("greater", ">", Operator::Greater),
        ("less", "<", Operator::Less),
        ("greaterEqual", ">=", Operator::GreaterEqual),
        ("lessEqual", "<=", Operator::LessEqual),
        ("contains", "in", Operator::Contains),
    ];
    for (name, alias, op) in pairs {
        assert_eq!(Operator::from_name(&name.to_string()), Some(op));
        assert_eq!(Operator::from_name(&alias.to_string()), Some(op));
        assert_eq!(op.name(), name);
    }
    assert_eq!(Operator::from_name(&"Equal".to_string()), None);
    assert_eq!(Operator::from_name(&"=".to_string()), None);
}

#[test]
fn malformed_predicates_are_refused() {
    let refused = Err(FormatError { expected: "predicate" });
    assert_eq!(parse(r#"{"path": "a", "operator": "==", "value": 1, "extra": 0}"#), refused);
    assert_eq!(parse(r#"{"path": "a", "operator": "=="}"#), refused);
    assert_eq!(parse(r#"{"path": "a", "operator": "~", "value": 1}"#), refused);
    assert_eq!(parse(r#"{"path": 1, "operator": "==", "value": 1}"#), refused);
    assert_eq!(parse(r#"{"any": [], "all": []}"#), refused);
    assert_eq!(parse(r#"{"some": []}"#), refused);
    assert_eq!(parse(r#"{"any": {}}"#), refused);
    assert_eq!(parse(r#"{"not": [1]}"#), refused);
    assert_eq!(parse(r#"{"all": [{"path": "a"}]}"#), refused);
    assert_eq!(parse("[]"), refused);
    assert_eq!(
        parse(r#"{"none": [], "extra": 1}"#),
        refused
    );
    assert!(parse(r#"{"not": {"none": []}}"#).is_ok());
    assert!(Rule::from_json(&j(r#"{"name": "r", "predicate": {"all": []}, "message": "m", "x": 1}"#)).is_err());
    assert!(Rule::from_json(&j(r#"{"name": "r", "predicate": {"all": []}}"#)).is_err());
    assert!(Rule::from_json(&j(r#"{"name": "r", "predicate": {"al": []}, "message": "m"}"#)).is_err());
}

#[test]
fn predicates_round_trip_through_json() {
    let text = r#"{"not": {"all": [{"path": "a.b", "operator": "in", "value": [1, "x"]},
                           {"none": [{"path": "c", "operator": "!=", "value": null}]}]}}"#;
    let p = parse(text).unwrap();
    let encoded = p.to_json();
    assert_eq!(
        encoded,
        j(r#"{"not": {"all": [{"path": "a.b", "operator": "contains", "value": [1, "x"]},
                              {"none": [{"path": "c", "operator": "notEqual", "value": null}]}]}}"#)
    );
    assert_eq!(Predicate::from_json(&encoded), Ok(p));
}

#[test]
fn rule_lists_read_and_write() {
    let text = r#"[
        {"name": "a", "predicate": {"path": "x", "operator": ">", "value": 1}, "message": "x above one"},
        {"name": "b", "predicate": {"any": []}, "message": "never"}
    ]"#;
    let rules = rules_from_json(&j(text)).unwrap();
    assert_eq!(rules.len(), 2);
    assert_eq!(rules[0].name(), "a");
    assert_eq!(rules[1].message(), "never");
    assert_eq!(
        rules_to_json(&rules),
        j(r#"[
            {"name": "a", "predicate": {"path": "x", "operator": "greater", "value": 1}, "message": "x above one"},
            {"name": "b", "predicate": {"any": []}, "message": "never"}
        ]"#)
    );
    assert_eq!(rules_from_json(&j("{}")), Err(FormatError { expected: "list of rules" }));
    assert!(rules_from_json(&j(r#"[{"name": "a"}]"#)).is_err());
}

#[test]
fn evaluation_json_form() {
    let ev = Evaluation {
        result: EvaluationResult::Fail,
        reasons: vec![
            EvaluationReason { rule: "r1".into(), requirement: "m1".into(), evaluation: EvaluationResult::Pass },
            EvaluationReason { rule: "r2".into(), requirement: "m2".into(), evaluation: EvaluationResult::Fail },
        ],
    };
    assert_eq!(
        ev.to_json(),
        j(r#"{"result": "FAIL", "reasons": [
            {"rule": "r1", "requirement": "m1", "evaluation": "PASS"},
            {"rule": "r2", "requirement": "m2", "evaluation": "FAIL"}
        ]}"#)
    );
}

#[test]
fn error_bodies_and_messages() {
    assert_eq!(
        ApiError::new("boom".to_string()).to_json(),
        j(r#"{"error": {"message": "boom"}}"#)
    );
    assert_eq!(
        CreateRuleError::Duplicate("r1".into()).message(),
        "a rule with id r1 already exists"
    );
    assert_eq!(CreateRuleError::Unknown.message(), "an unknown error occured");
    assert_eq!(GetRuleError::NoSuchRule("x".into()).message(), "a rule with id x does not exist");
    let mismatch = EvaluationError::TypeMismatch { lhs: "string", rhs: "number", operator: Operator::GreaterEqual };
    assert_eq!(mismatch.message(), "cannot compare string with number using operator GreaterEqual");
    assert_eq!(
        EvaluateRuleError::EvaluationError("r9".into(), mismatch).message(),
        "failed to evaluate rule r9: cannot compare string with number using operator GreaterEqual"
    );
    assert_eq!(
        EvaluationError::NotAnObject { field: "a".into(), kind: "array" }.message(),
        "cannot read field `a` of type array"
    );
}

#[test]
fn evaluate_params_split_on_commas() {
    let ids = |rules: Option<&str>| EvaluateParams { rules: rules.map(String::from) }.rule_ids();
    assert_eq!(ids(Some("rule-1,rule-2")), vec!["rule-1".to_string(), "rule-2".to_string()]);
    assert_eq!(ids(Some("a,,b")), vec!["a".to_string(), String::new(), "b".to_string()]);
    assert_eq!(ids(Some("")), vec![String::new()]);
    assert_eq!(ids(None), Vec::<String>::new());
}
