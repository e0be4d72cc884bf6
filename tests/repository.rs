use evaluator::eval::EvaluationError;
use evaluator::json::{JsonValue, Number};
use evaluator::repository::{
    CreateRuleError, EvaluateRuleError, Evaluation, EvaluationReason, EvaluationResult,
    GetRuleError, InMemRuleRepository, UpdateRuleError,
};
use evaluator::rule::{Operator, Predicate, RawPredicate, Rule};

fn number(n: u64) -> JsonValue {
    JsonValue::Number(Number::PosInt(n))
}

fn foo_doc(n: u64) -> JsonValue {
    JsonValue::Object(vec![("foo".to_string(), number(n))])
}

fn rule(name: &str, message: &str, operator: Operator, value: u64) -> Rule {
    Rule::new(name, message, Predicate::from(RawPredicate::new("foo", operator, number(value))))
}

fn ids(names: &[&str]) -> Vec<String> {
    names.iter().map(|n| n.to_string()).collect()
}

fn assert_size(db: &InMemRuleRepository, expected: usize) {
    let rules = db.get_all().expect("get_all failed unexpectedly");
    assert_eq!(rules.len(), expected);
}

fn assert_contains(db: &InMemRuleRepository, rule: &Rule) {
    let rules = db.get_all().expect("get_all failed unexpectedly");
    assert!(rules.contains(rule));
    let fetched = db.get(&rule.name).expect("get failed unexpectedly");
    assert_eq!(&fetched, rule);
}

fn assert_does_not_contain(db: &InMemRuleRepository, rule: &Rule) {
    let rules = db.get_all().expect("get_all failed unexpectedly");
    assert!(!rules.contains(rule));
    match db.get(&rule.name) {
        Err(err) => assert_eq!(err, GetRuleError::NoSuchRule(rule.name.clone())),
        Ok(fetched) => assert_ne!(&fetched, rule),
    }
}

#[test]
fn repository_test_create_rule() {
    let mut db = InMemRuleRepository::empty();
    assert_size(&db, 0);

    let rule = rule("rule-1", "important rule failed", Operator::Equal, 10);
    db.create(rule.clone()).expect("rule creation should not fail");

    assert_size(&db, 1);
    assert_contains(&db, &rule);
}

#[test]
fn repository_test_delete_rule() {
    let mut db = InMemRuleRepository::empty();
    let rule = rule("rule-1", "important rule failed", Operator::Equal, 10);
    db.create(rule.clone()).expect("rule creation should not fail");

    assert_size(&db, 1);
    assert_contains(&db, &rule);

    db.delete(&rule.name).expect("delete should not fail");

    assert_size(&db, 0);
    assert_does_not_contain(&db, &rule);
}

#[test]
fn test_create_duplicate_err() {
    let mut db = InMemRuleRepository::empty();
    assert_size(&db, 0);

    let rule = rule("rule-1", "important rule failed", Operator::Equal, 10);
    db.create(rule.clone()).expect("rule creation should not fail");

    let creation_result = db.create(rule.clone());
    assert!(matches!(creation_result, Err(CreateRuleError::Duplicate(_))));
    assert_eq!(creation_result, Err(CreateRuleError::Duplicate("rule-1".to_string())));
    assert_size(&db, 1);
}

#[test]
fn test_delete_idempotent() {
    let mut db = InMemRuleRepository::empty();
    let rule = rule("rule-1", "important rule failed", Operator::Equal, 10);
    db.create(rule.clone()).expect("rule creation should not fail");

    assert_size(&db, 1);
    assert_contains(&db, &rule);

    assert_eq!(db.delete(&rule.name), Ok(Some(rule.clone())));

    assert_size(&db, 0);
    assert_does_not_contain(&db, &rule);

    assert_eq!(db.delete(&rule.name), Ok(None));

    assert_size(&db, 0);
    assert_does_not_contain(&db, &rule);
}

#[test]
fn test_update() {
    let mut db = InMemRuleRepository::empty();
    let rule = rule("rule-1", "important rule failed", Operator::Equal, 10);
    db.create(rule.clone()).expect("rule creation should not fail");

    let updated_rule = rule_named_2();

    assert_contains(&db, &rule);
    assert_does_not_contain(&db, &updated_rule);

    let replaced = db
        .update(rule.name.clone(), updated_rule.clone())
        .expect("update should not fail");
    assert_eq!(replaced, Some(rule.clone()));

    assert_contains(&db, &updated_rule);
    assert_does_not_contain(&db, &rule);
    assert_eq!(db.get(&"rule-1".to_string()), Err(GetRuleError::NoSuchRule("rule-1".to_string())));
    assert_eq!(db.get(&"rule-2".to_string()), Ok(updated_rule));
}

fn rule_named_2() -> Rule {
    rule("rule-2", "updated message", Operator::Equal, 10)
}

#[test]
fn test_update_err() {
    let mut db = InMemRuleRepository::empty();
    let rule = rule("rule-1", "important rule failed", Operator::Equal, 10);
    db.create(rule.clone()).expect("rule creation should not fail");

    let update_result = db.update("rule-3".to_owned(), rule_named_2());
    assert!(matches!(update_result, Err(UpdateRuleError::NoSuchRule(_))));
    assert_eq!(update_result, Err(UpdateRuleError::NoSuchRule("rule-3".to_string())));
    assert_contains(&db, &rule);
    assert_size(&db, 1);
}

#[test]
fn update_onto_an_existing_name_replaces_it() {
    let mut db = InMemRuleRepository::empty();
    let first = rule("r1", "first", Operator::Equal, 1);
    let second = rule("r2", "second", Operator::Equal, 2);
    db.create(first.clone()).unwrap();
    db.create(second.clone()).unwrap();
    let renamed = rule("r2", "renamed", Operator::Equal, 3);
    assert_eq!(db.update("r1".to_string(), renamed.clone()), Ok(Some(first)));
    assert_size(&db, 1);
    assert_eq!(db.get(&"r2".to_string()), Ok(renamed));
}

#[test]
fn new_keeps_the_last_rule_of_a_name() {
    let a = rule("a", "one", Operator::Equal, 1);
    let b = rule("b", "two", Operator::Equal, 2);
    let a2 = rule("a", "three", Operator::Equal, 3);
    let db = InMemRuleRepository::new(&[a, b.clone(), a2.clone()]);
    assert_size(&db, 2);
    assert_contains(&db, &a2);
    assert_contains(&db, &b);
}

#[test]
fn test_get_rules_empty() {
    let db = InMemRuleRepository::empty();
    assert_eq!(db.get_all().expect("get_all failed unexpectedly").len(), 0);
}

#[test]
fn main_test_create_rule() {
    let mut db = InMemRuleRepository::empty();
    let rule = rule("rule-1", "some message", Operator::Equal, 10);
    assert!(db.create(rule.clone()).is_ok());
    assert_eq!(db.get(&"rule-1".to_string()), Ok(rule.clone()));
    assert!(db.get_all().unwrap().contains(&rule));
}

#[test]
fn main_test_delete_rule() {
    let mut db = InMemRuleRepository::empty();
    let rule = rule("rule-1", "some message", Operator::Equal, 10);
    assert!(db.create(rule.clone()).is_ok());
    assert_eq!(db.get(&"rule-1".to_string()), Ok(rule));
    assert!(db.delete(&"rule-1".to_string()).is_ok());
    assert!(db.delete(&"rule-1".to_string()).is_ok(), "delete should be idempotent");
    assert_eq!(db.get_all().unwrap().len(), 0);
}

#[test]
fn test_update_rule() {
    let mut db = InMemRuleRepository::empty();
    let rule = rule("rule-1", "some message", Operator::Equal, 10);
    assert!(db.create(rule.clone()).is_ok());

    let updated_rule = self::rule("rule-2", "some other message", Operator::Equal, 12);
    assert!(db.update("rule-1".to_string(), updated_rule.clone()).is_ok());
    assert_eq!(db.get(&"rule-2".to_string()), Ok(updated_rule.clone()));

    let all = db.get_all().unwrap();
    assert_eq!(all.len(), 1);
    assert!(all.contains(&updated_rule));
    assert!(!all.contains(&rule));
}

#[test]
fn test_evaluate() {
    let mut db = InMemRuleRepository::empty();
    db.create(rule("rule-1", "some message", Operator::Equal, 10)).unwrap();
    db.create(rule("rule-2", "some other message", Operator::Equal, 14)).unwrap();
    db.create(rule("rule-3", "unused rule", Operator::Less, 0)).unwrap();

    let resp = db.evaluate(&ids(&["rule-1", "rule-2"]), foo_doc(10)).unwrap();
    assert_eq!(resp.result, EvaluationResult::Fail);
    assert_eq!(resp.reasons.len(), 2);

    assert!(resp.reasons.contains(&EvaluationReason {
        rule: "rule-1".to_owned(),
        requirement: "some message".to_owned(),
        evaluation: EvaluationResult::Pass,
    }));

    assert!(resp.reasons.contains(&EvaluationReason {
        rule: "rule-2".to_owned(),
        requirement: "some other message".to_owned(),
        evaluation: EvaluationResult::Fail,
    }));
}

#[test]
fn evaluate_keeps_order_and_duplicates() {
    let mut db = InMemRuleRepository::empty();
    db.create(rule("r1", "m1", Operator::Equal, 10)).unwrap();
    db.create(rule("r2", "m2", Operator::Greater, 5)).unwrap();
    let resp = db.evaluate(&ids(&["r2", "r1", "r2"]), foo_doc(10)).unwrap();
    let reason = |r: &str, m: &str| EvaluationReason {
        rule: r.to_string(),
        requirement: m.to_string(),
        evaluation: EvaluationResult::Pass,
    };
    assert_eq!(
        resp,
        Evaluation {
            result: EvaluationResult::Pass,
            reasons: vec![reason("r2", "m2"), reason("r1", "m1"), reason("r2", "m2")],
        }
    );
    let empty = db.evaluate(&[], foo_doc(10)).unwrap();
    assert_eq!(empty, Evaluation { result: EvaluationResult::Pass, reasons: vec![] });
}

#[test]
fn evaluate_missing_rule_aborts_batch() {
    let mut db = InMemRuleRepository::empty();
    db.create(rule("r1", "passes", Operator::Equal, 10)).unwrap();
    db.create(rule("r3", "fails", Operator::Equal, 11)).unwrap();
    assert_eq!(
        db.evaluate(&ids(&["r1", "missing"]), foo_doc(10)),
        Err(EvaluateRuleError::NoSuchRule("missing".to_string()))
    );
    assert_eq!(
        db.evaluate(&ids(&["r3", "missing"]), foo_doc(10)),
        Err(EvaluateRuleError::NoSuchRule("missing".to_string()))
    );
}

#[test]
fn evaluate_failure_names_the_rule() {
    let mut db = InMemRuleRepository::empty();
    db.create(rule("ok", "fine", Operator::Equal, 10)).unwrap();
    db.create(rule("bad", "compares", Operator::Greater, 1)).unwrap();
    let doc = JsonValue::Object(vec![("foo".to_string(), JsonValue::String("x".to_string()))]);
    assert_eq!(
        db.evaluate(&ids(&["ok", "bad", "missing"]), doc),
        Err(EvaluateRuleError::EvaluationError(
            "bad".to_string(),
            EvaluationError::TypeMismatch { lhs: "string", rhs: "number", operator: Operator::Greater }
        ))
    );
}
