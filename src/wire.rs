use crate::json::{
    copy_value, find_member, key_index, lemma_key_index, lemma_members_view, member,
    members_view, items_view, lemma_items_view, JsonValue, JsonView,
};
use crate::repository::{
    reason_views, Evaluation, EvaluationReason, EvaluationResult, EvaluationView, ReasonView,
};
use crate::rule::{
    lemma_predicates_view, predicates_view, CompoundPredicate, Operator, Predicate, PredicateView,
    RawPredicate, RawView, Rule, RuleView,
};
use vstd::prelude::*;

verus! {

broadcast use {vstd::seq::group_seq_axioms, vstd::std_specs::vec::group_vec_axioms};

/// A JSON document that does not have the shape of a rule or a predicate.
#[derive(Debug, PartialEq, Eq)]
pub struct FormatError {
    pub expected: &'static str,
}

/// The operator a wire name stands for: its canonical name or its symbol.
pub open spec fn operator_of_name(name: Seq<char>) -> Option<Operator> {
    if name == "equal"@ || name == "=="@ {
        Some(Operator::Equal)
    } else if name == "greater"@ || name == ">"@ {
        Some(Operator::Greater)
    } else if name == "less"@ || name == "<"@ {
        Some(Operator::Less)
    } else if name == "greaterEqual"@ || name == ">="@ {
        Some(Operator::GreaterEqual)
    } else if name == "lessEqual"@ || name == "<="@ {
        Some(Operator::LessEqual)
    } else if name == "notEqual"@ || name == "!="@ {
        Some(Operator::NotEqual)
    } else if name == "contains"@ || name == "in"@ {
        Some(Operator::Contains)
    } else {
        None
    }
}

/// The canonical wire name of an operator.
pub open spec fn operator_name(operator: Operator) -> Seq<char> {
    match operator {
        Operator::Equal => "equal"@,
        Operator::Greater => "greater"@,
        Operator::Less => "less"@,
        Operator::GreaterEqual => "greaterEqual"@,
        Operator::LessEqual => "lessEqual"@,
        Operator::NotEqual => "notEqual"@,
        Operator::Contains => "contains"@,
    }
}

fn is_named(s: &String, name: &str) -> (r: bool)
    ensures
        r == (s@ == name@),
{
    *s == name.to_owned()
}

impl Operator {
    /// The operator a wire name stands for, canonical or symbolic.
    pub fn from_name(name: &String) -> (r: Option<Operator>)
        ensures
            r == operator_of_name(name@),
    {
        if is_named(name, "equal") || is_named(name, "==") {
            Some(Operator::Equal)
        } else if is_named(name, "greater") || is_named(name, ">") {
            Some(Operator::Greater)
        } else if is_named(name, "less") || is_named(name, "<") {
            Some(Operator::Less)
        } else if is_named(name, "greaterEqual") || is_named(name, ">=") {
            Some(Operator::GreaterEqual)
        } else if is_named(name, "lessEqual") || is_named(name, "<=") {
            Some(Operator::LessEqual)
        } else if is_named(name, "notEqual") || is_named(name, "!=") {
            Some(Operator::NotEqual)
        } else if is_named(name, "contains") || is_named(name, "in") {
            Some(Operator::Contains)
        } else {
            None
        }
    }

    /// The canonical wire name of the operator.
    pub fn name(&self) -> (r: &'static str)
        ensures
            r@ == operator_name(*self),
    {
        match self {
            Operator::Equal => "equal",
            Operator::Greater => "greater",
            Operator::Less => "less",
            Operator::GreaterEqual => "greaterEqual",
            Operator::LessEqual => "lessEqual",
            Operator::NotEqual => "notEqual",
            Operator::Contains => "contains",
        }
    }
}

/// An object with exactly the members `path`, `operator` and `value`.
pub open spec fn raw_shape(members: Seq<(Seq<char>, JsonView)>) -> bool {
    &&& members.len() == 3
    &&& key_index(members, "path"@) >= 0
    &&& key_index(members, "operator"@) >= 0
    &&& key_index(members, "value"@) >= 0
}

/// The raw predicate a JSON object stands for.
pub open spec fn raw_of_json(members: Seq<(Seq<char>, JsonView)>) -> Option<RawView> {
    if !raw_shape(members) {
        None
    } else {
        match (member(members, "path"@), member(members, "operator"@)) {
            (JsonView::String(path), JsonView::String(name)) => match operator_of_name(name) {
                Some(operator) => Some(RawView { path, operator, value: member(members, "value"@) }),
                None => None,
            },
            _ => None,
        }
    }
}

/// The predicate a JSON value stands for: a raw predicate with exactly the
/// members `path`, `operator` and `value`, or an object with exactly one of
/// the members `not`, `any`, `all` and `none`.
pub open spec fn predicate_of_json(v: JsonView) -> Option<PredicateView>
    decreases v,
{
    match v {
        JsonView::Object(members) => if raw_shape(members) {
            match raw_of_json(members) {
                Some(raw) => Some(PredicateView::Raw(raw)),
                None => None,
            }
        } else if members.len() == 1 {
            let key = members[0].0;
            let child = members[0].1;
            if key == "not"@ {
                match predicate_of_json(child) {
                    Some(p) => Some(PredicateView::Not(Box::new(p))),
                    None => None,
                }
            } else if key == "any"@ || key == "all"@ || key == "none"@ {
                match child {
                    JsonView::Array(items) => match predicates_of_json(items) {
                        Some(ps) => if key == "any"@ {
                            Some(PredicateView::Any(ps))
                        } else if key == "all"@ {
                            Some(PredicateView::All(ps))
                        } else {
                            Some(PredicateView::NoneOf(ps))
                        },
                        None => None,
                    },
                    _ => None,
                }
            } else {
                None
            }
        } else {
            None
        },
        _ => None,
    }
}

/// The predicates a JSON array stands for, when each element stands for one.
pub open spec fn predicates_of_json(items: Seq<JsonView>) -> Option<Seq<PredicateView>>
    decreases items,
{
    if items.len() == 0 {
        Some(Seq::empty())
    } else {
        match (predicates_of_json(items.drop_last()), predicate_of_json(items.last())) {
            (Some(ps), Some(p)) => Some(ps.push(p)),
            _ => None,
        }
    }
}

/// A list with an element that is no predicate is no list of predicates.
pub proof fn lemma_predicates_of_json_prefix(items: Seq<JsonView>, i: int)
    requires
        0 <= i <= items.len(),
        predicates_of_json(items.take(i)) is None,
    ensures
        predicates_of_json(items) is None,
    decreases items.len() - i,
{
    if i < items.len() {
        let next = items.take(i + 1);
        assert(next.drop_last() =~= items.take(i));
        lemma_predicates_of_json_prefix(items, i + 1);
    } else {
        assert(items.take(i) =~= items);
    }
}

fn member_named<'a>(members: &'a Vec<(String, JsonValue)>, name: &str) -> (r: Option<&'a JsonValue>)
    ensures
        match r {
            Some(v) => key_index(members_view(members@), name@) >= 0 && v@ == member(
                members_view(members@),
                name@,
            ),
            None => key_index(members_view(members@), name@) < 0,
        },
{
    let key = name.to_owned();
    proof {
        lemma_members_view(members@);
        lemma_key_index(members_view(members@), name@);
    }
    match find_member(members, &key) {
        Some(i) => {
            assert(key@ == name@);
            assert(members_view(members@).len() == members.len());
            assert(members_view(members@)[i as int] == (members@[i as int].0@, members@[
                i as int
            ].1@));
            assert(member(members_view(members@), name@) == members@[i as int].1@);
            Some(&members[i].1)
        },
        None => None,
    }
}

impl Predicate {
    /// Reads a predicate from its JSON form; fields other than those of the
    /// predicate's shape are refused.
    pub fn from_json(v: &JsonValue) -> (r: Result<Predicate, FormatError>)
        ensures
            match r {
                Ok(p) => predicate_of_json(v@) == Some(p@),
                Err(_) => predicate_of_json(v@) is None,
            },
        decreases v,
    {
        let not_predicate = FormatError { expected: "predicate" };
        let members = match v {
            JsonValue::Object(members) => members,
            _ => return Err(not_predicate),
        };
        let ghost mv = members_view(members@);
        proof {
            lemma_members_view(members@);
            assert(v@ == JsonView::Object(mv));
        }
        if members.len() == 3 {
            let path = member_named(members, "path");
            let operator = member_named(members, "operator");
            let value = member_named(members, "value");
            if path.is_some() && operator.is_some() && value.is_some() {
                let path = path.unwrap();
                let operator = operator.unwrap();
                let value = value.unwrap();
                let path = match path {
                    JsonValue::String(s) => s,
                    _ => return Err(not_predicate),
                };
                let operator = match operator {
                    JsonValue::String(name) => match Operator::from_name(name) {
                        Some(op) => op,
                        None => return Err(not_predicate),
                    },
                    _ => return Err(not_predicate),
                };
                let raw = RawPredicate { path: path.clone(), operator, value: copy_value(value) };
                return Ok(Predicate::Raw(raw));
            }
        }
        if members.len() != 1 {
            return Err(not_predicate);
        }
        assert(mv[0] == (members@[0].0@, members@[0].1@));
        let key = &members[0].0;
        let child = &members[0].1;
        if is_named(key, "not") {
            return match Predicate::from_json(child) {
                Ok(p) => Ok(Predicate::Compound(CompoundPredicate::Not(Box::new(p)))),
                Err(e) => Err(e),
            };
        }
        let any = is_named(key, "any");
        let all = is_named(key, "all");
        let none = is_named(key, "none");
        if !(any || all || none) {
            return Err(not_predicate);
        }
        let items = match child {
            JsonValue::Array(items) => items,
            _ => return Err(not_predicate),
        };
        let children = match predicates_from_json(child, items) {
            Ok(children) => children,
            Err(e) => return Err(e),
        };
        if any {
            Ok(Predicate::Compound(CompoundPredicate::Any(children)))
        } else if all {
            Ok(Predicate::Compound(CompoundPredicate::All(children)))
        } else {
            Ok(Predicate::Compound(CompoundPredicate::NoneOf(children)))
        }
    }
}

fn predicates_from_json(v: &JsonValue, items: &Vec<JsonValue>) -> (r: Result<
    Vec<Predicate>,
    FormatError,
>)
    requires
        *v == JsonValue::Array(*items),
    ensures
        match r {
            Ok(ps) => predicates_of_json(items_view(items@)) == Some(predicates_view(ps@)),
            Err(_) => predicates_of_json(items_view(items@)) is None,
        },
    decreases v, 0nat,
{
    let ghost iv = items_view(items@);
    proof {
        lemma_items_view(items@);
        assert(iv.take(0) =~= Seq::<JsonView>::empty());
        assert(predicates_view(Seq::<Predicate>::empty()) =~= Seq::<PredicateView>::empty());
    }
    let mut out: Vec<Predicate> = Vec::new();
    let mut i: usize = 0;
    while i < items.len()
        invariant
            i <= items@.len(),
            *v == JsonValue::Array(*items),
            v@ == JsonView::Array(items_view(items@)),
            iv == items_view(items@),
            iv.len() == items@.len(),
            forall|j: int| 0 <= j < items@.len() ==> #[trigger] iv[j] == items@[j]@,
            predicates_of_json(iv.take(i as int)) == Some(predicates_view(out@)),
        decreases items.len() - i,
    {
        let ghost next = iv.take(i + 1);
        proof {
            assert(next.drop_last() =~= iv.take(i as int));
            assert(next.last() == items@[i as int]@);
        }
        match Predicate::from_json(&items[i]) {
            Ok(p) => {
                let ghost before = out@;
                out.push(p);
                proof {
                    assert(out@.drop_last() =~= before);
                }
            },
            Err(e) => {
                proof {
                    lemma_predicates_of_json_prefix(iv, i + 1);
                }
                return Err(e);
            },
        }
        i = i + 1;
    }
    proof {
        assert(iv.take(i as int) =~= iv);
    }
    Ok(out)
}

/// The rule a JSON object stands for: exactly the members `name` and
/// `message`, both strings, and `predicate`.
pub open spec fn rule_of_json(v: JsonView) -> Option<RuleView> {
    match v {
        JsonView::Object(members) => if members.len() == 3 && key_index(members, "name"@) >= 0
            && key_index(members, "predicate"@) >= 0 && key_index(members, "message"@) >= 0 {
            match (
                member(members, "name"@),
                predicate_of_json(member(members, "predicate"@)),
                member(members, "message"@),
            ) {
                (JsonView::String(name), Some(predicate), JsonView::String(message)) => Some(
                    RuleView { name, predicate, message },
                ),
                _ => None,
            }
        } else {
            None
        },
        _ => None,
    }
}

impl Rule {
    /// Reads a rule from its JSON form; fields other than `name`,
    /// `predicate` and `message` are refused.
    pub fn from_json(v: &JsonValue) -> (r: Result<Rule, FormatError>)
        ensures
            match r {
                Ok(rule) => rule_of_json(v@) == Some(rule@),
                Err(_) => rule_of_json(v@) is None,
            },
    {
        let not_rule = FormatError { expected: "rule" };
        let members = match v {
            JsonValue::Object(members) => members,
            _ => return Err(not_rule),
        };
        proof {
            lemma_members_view(members@);
        }
        if members.len() != 3 {
            return Err(not_rule);
        }
        let name = member_named(members, "name");
        let predicate = member_named(members, "predicate");
        let message = member_named(members, "message");
        if name.is_none() || predicate.is_none() || message.is_none() {
            return Err(not_rule);
        }
        let name = match name.unwrap() {
            JsonValue::String(s) => s,
            _ => return Err(not_rule),
        };
        let predicate = match Predicate::from_json(predicate.unwrap()) {
            Ok(p) => p,
            Err(e) => return Err(e),
        };
        let message = match message.unwrap() {
            JsonValue::String(s) => s,
            _ => return Err(not_rule),
        };
        Ok(Rule { name: name.clone(), predicate, message: message.clone() })
    }
}

/// The rules a JSON array stands for, when each element stands for one.
pub open spec fn rules_of_json(items: Seq<JsonView>) -> Option<Seq<RuleView>>
    decreases items.len(),
{
    if items.len() == 0 {
        Some(Seq::empty())
    } else {
        match (rules_of_json(items.drop_last()), rule_of_json(items.last())) {
            (Some(rules), Some(rule)) => Some(rules.push(rule)),
            _ => None,
        }
    }
}

/// A list with an element that is no rule is no list of rules.
pub proof fn lemma_rules_of_json_prefix(items: Seq<JsonView>, i: int)
    requires
        0 <= i <= items.len(),
        rules_of_json(items.take(i)) is None,
    ensures
        rules_of_json(items) is None,
    decreases items.len() - i,
{
    if i < items.len() {
        let next = items.take(i + 1);
        assert(next.drop_last() =~= items.take(i));
        lemma_rules_of_json_prefix(items, i + 1);
    } else {
        assert(items.take(i) =~= items);
    }
}

/// Reads a list of rules from a JSON array of rule objects.
pub fn rules_from_json(v: &JsonValue) -> (r: Result<Vec<Rule>, FormatError>)
    ensures
        match r {
            Ok(rules) => v@ matches JsonView::Array(items) && rules_of_json(items) == Some(
                rules@.map_values(|rule: Rule| rule@),
            ),
            Err(_) => !(v@ matches JsonView::Array(items) && rules_of_json(items) is Some),
        },
{
    let items = match v {
        JsonValue::Array(items) => items,
        _ => return Err(FormatError { expected: "list of rules" }),
    };
    let ghost iv = items_view(items@);
    proof {
        lemma_items_view(items@);
        assert(iv.take(0) =~= Seq::<JsonView>::empty());
    }
    let mut out: Vec<Rule> = Vec::new();
    let mut i: usize = 0;
    proof {
        assert(out@.map_values(|rule: Rule| rule@) =~= Seq::<RuleView>::empty());
    }
    while i < items.len()
        invariant
            i <= items@.len(),
            v@ == JsonView::Array(iv),
            iv == items_view(items@),
            iv.len() == items@.len(),
            forall|j: int| 0 <= j < items@.len() ==> #[trigger] iv[j] == items@[j]@,
            rules_of_json(iv.take(i as int)) == Some(out@.map_values(|rule: Rule| rule@)),
        decreases items.len() - i,
    {
        let ghost next = iv.take(i + 1);
        proof {
            assert(next.drop_last() =~= iv.take(i as int));
            assert(next.last() == items@[i as int]@);
        }
        match Rule::from_json(&items[i]) {
            Ok(rule) => {
                let ghost before = out@;
                out.push(rule);
                proof {
                    assert(out@.map_values(|rule: Rule| rule@) =~= before.map_values(
                        |rule: Rule| rule@,
                    ).push(rule@));
                }
            },
            Err(e) => {
                proof {
                    lemma_rules_of_json_prefix(iv, i + 1);
                }
                return Err(e);
            },
        }
        i = i + 1;
    }
    proof {
        assert(iv.take(i as int) =~= iv);
    }
    Ok(out)
}

/// The JSON form of a predicate.
pub open spec fn predicate_json(p: PredicateView) -> JsonView
    decreases p,
{
    match p {
        PredicateView::Raw(r) => JsonView::Object(
            seq![
                ("path"@, JsonView::String(r.path)),
                ("operator"@, JsonView::String(operator_name(r.operator))),
                ("value"@, r.value),
            ],
        ),
        PredicateView::Not(q) => JsonView::Object(seq![("not"@, predicate_json(*q))]),
        PredicateView::Any(qs) => JsonView::Object(
            seq![("any"@, JsonView::Array(predicates_json(qs)))],
        ),
        PredicateView::All(qs) => JsonView::Object(
            seq![("all"@, JsonView::Array(predicates_json(qs)))],
        ),
        PredicateView::NoneOf(qs) => JsonView::Object(
            seq![("none"@, JsonView::Array(predicates_json(qs)))],
        ),
    }
}

/// The JSON forms of a sequence of predicates.
pub open spec fn predicates_json(qs: Seq<PredicateView>) -> Seq<JsonView>
    decreases qs,
{
    if qs.len() == 0 {
        Seq::empty()
    } else {
        predicates_json(qs.drop_last()).push(predicate_json(qs.last()))
    }
}

pub(crate) fn member_of(key: &str, value: JsonValue) -> (r: (String, JsonValue))
    ensures
        r.0@ == key@,
        r.1@ == value@,
{
    (key.to_owned(), value)
}

pub(crate) fn object_of(members: Vec<(String, JsonValue)>) -> (r: JsonValue)
    ensures
        r@ == JsonView::Object(members@.map_values(|m: (String, JsonValue)| (m.0@, m.1@))),
{
    proof {
        lemma_members_view(members@);
        assert(members_view(members@) =~= members@.map_values(
            |m: (String, JsonValue)| (m.0@, m.1@),
        ));
    }
    JsonValue::Object(members)
}

impl Predicate {
    /// The JSON form of the predicate, with canonical operator names.
    pub fn to_json(&self) -> (r: JsonValue)
        ensures
            r@ == predicate_json(self@),
        decreases self,
    {
        match self {
            Predicate::Raw(raw) => {
                let members = vec![
                    member_of("path", JsonValue::String(raw.path.clone())),
                    member_of("operator", JsonValue::String(raw.operator.name().to_owned())),
                    member_of("value", copy_value(&raw.value)),
                ];
                let r = object_of(members);
                proof {
                    assert(r@->Object_0 =~= predicate_json(self@)->Object_0);
                }
                r
            },
            Predicate::Compound(c) => c.to_json(),
        }
    }
}

impl CompoundPredicate {
    /// The JSON form of the combination.
    pub fn to_json(&self) -> (r: JsonValue)
        ensures
            r@ == predicate_json(self@),
        decreases self,
    {
        let (key, inner) = match self {
            CompoundPredicate::Not(p) => ("not", p.to_json()),
            CompoundPredicate::Any(ps) => ("any", predicates_to_json(ps)),
            CompoundPredicate::All(ps) => ("all", predicates_to_json(ps)),
            CompoundPredicate::NoneOf(ps) => ("none", predicates_to_json(ps)),
        };
        let r = object_of(vec![member_of(key, inner)]);
        proof {
            assert(r@->Object_0 =~= predicate_json(self@)->Object_0);
        }
        r
    }
}

fn predicates_to_json(ps: &Vec<Predicate>) -> (r: JsonValue)
    ensures
        r@ == JsonView::Array(predicates_json(predicates_view(ps@))),
    decreases ps,
{
    let ghost pv = predicates_view(ps@);
    proof {
        lemma_predicates_view(ps@);
        assert(pv.take(0) =~= Seq::<PredicateView>::empty());
        assert(items_view(Seq::<JsonValue>::empty()) =~= Seq::<JsonView>::empty());
    }
    let mut out: Vec<JsonValue> = Vec::new();
    let mut i: usize = 0;
    while i < ps.len()
        invariant
            i <= ps@.len(),
            pv == predicates_view(ps@),
            pv.len() == ps@.len(),
            forall|j: int| 0 <= j < ps@.len() ==> #[trigger] pv[j] == ps@[j]@,
            items_view(out@) == predicates_json(pv.take(i as int)),
        decreases ps.len() - i,
    {
        let item = ps[i].to_json();
        let ghost before = out@;
        out.push(item);
        proof {
            assert(out@.drop_last() =~= before);
            let next = pv.take(i + 1);
            assert(next.drop_last() =~= pv.take(i as int));
            assert(next.last() == ps@[i as int]@);
        }
        i = i + 1;
    }
    proof {
        assert(pv.take(i as int) =~= pv);
    }
    JsonValue::Array(out)
}

proof fn lemma_wire_names_distinct()
    ensures
        "path"@ != "operator"@,
        "path"@ != "value"@,
        "operator"@ != "value"@,
        "any"@ != "not"@,
        "all"@ != "not"@,
        "all"@ != "any"@,
        "none"@ != "not"@,
        "none"@ != "any"@,
        "none"@ != "all"@,
        forall|operator: Operator| #[trigger] operator_of_name(operator_name(operator)) == Some(
            operator,
        ),
{
    reveal_strlit("path");
    reveal_strlit("operator");
    reveal_strlit("value");
    reveal_strlit("not");
    reveal_strlit("any");
    reveal_strlit("all");
    reveal_strlit("none");
    reveal_strlit("equal");
    reveal_strlit("==");
    reveal_strlit("greater");
    reveal_strlit(">");
    reveal_strlit("less");
    reveal_strlit("<");
    reveal_strlit("greaterEqual");
    reveal_strlit(">=");
    reveal_strlit("lessEqual");
    reveal_strlit("<=");
    reveal_strlit("notEqual");
    reveal_strlit("!=");
    reveal_strlit("contains");
    reveal_strlit("in");
    assert("path"@[0] != "operator"@[0]);
    assert("path"@[0] != "value"@[0]);
    assert("operator"@[0] != "value"@[0]);
    assert("any"@[0] != "not"@[0]);
    assert("all"@[0] != "not"@[0]);
    assert("all"@[1] != "any"@[1]);
    assert("none"@.len() != "not"@.len());
    assert("none"@.len() != "any"@.len());
    assert("none"@.len() != "all"@.len());
    assert forall|operator: Operator| #[trigger] operator_of_name(operator_name(operator)) == Some(
        operator,
    ) by {
        let eq = "equal"@;
        let gt = "greater"@;
        let lt = "less"@;
        let ge = "greaterEqual"@;
        let le = "lessEqual"@;
        let ne = "notEqual"@;
        let ct = "contains"@;
        assert(eq.len() == 5 && gt.len() == 7 && lt.len() == 4 && ge.len() == 12);
        assert(le.len() == 9 && ne.len() == 8 && ct.len() == 8);
        assert("=="@.len() == 2 && ">"@.len() == 1 && "<"@.len() == 1 && ">="@.len() == 2);
        assert("<="@.len() == 2 && "!="@.len() == 2 && "in"@.len() == 2);
        assert(ne[0] != ct[0]);
    }
}

/// Reading back the JSON form of a predicate gives the same predicate.
pub proof fn predicate_json_round_trip(p: PredicateView)
    ensures
        predicate_of_json(predicate_json(p)) == Some(p),
    decreases p,
{
    lemma_wire_names_distinct();
    match p {
        PredicateView::Raw(r) => {
            let members = predicate_json(p)->Object_0;
            assert(key_index(members, "path"@) == 0);
            assert(key_index(members.drop_first(), "operator"@) == 0);
            assert(key_index(members, "operator"@) == 1);
            assert(key_index(members.drop_first().drop_first(), "value"@) == 0);
            assert(key_index(members.drop_first(), "value"@) == 1);
            assert(key_index(members, "value"@) == 2);
            assert(operator_of_name(operator_name(r.operator)) == Some(r.operator));
        },
        PredicateView::Not(q) => {
            predicate_json_round_trip(*q);
        },
        PredicateView::Any(qs) => {
            predicates_json_round_trip(qs);
        },
        PredicateView::All(qs) => {
            predicates_json_round_trip(qs);
        },
        PredicateView::NoneOf(qs) => {
            predicates_json_round_trip(qs);
        },
    }
}

/// Reading back the JSON forms of a sequence of predicates gives the same
/// sequence.
pub proof fn predicates_json_round_trip(qs: Seq<PredicateView>)
    ensures
        predicates_of_json(predicates_json(qs)) == Some(qs),
    decreases qs,
{
    if qs.len() > 0 {
        predicates_json_round_trip(qs.drop_last());
        predicate_json_round_trip(qs.last());
        let items = predicates_json(qs);
        assert(items.drop_last() =~= predicates_json(qs.drop_last()));
        assert(qs.drop_last().push(qs.last()) =~= qs);
    } else {
        assert(predicates_json(qs) =~= Seq::<JsonView>::empty());
        assert(qs =~= Seq::<PredicateView>::empty());
    }
}

/// The JSON form of a rule.
pub open spec fn rule_json(rule: RuleView) -> JsonView {
    JsonView::Object(
        seq![
            ("name"@, JsonView::String(rule.name)),
            ("predicate"@, predicate_json(rule.predicate)),
            ("message"@, JsonView::String(rule.message)),
        ],
    )
}

/// Reading back the JSON form of a rule gives the same rule.
pub proof fn rule_json_round_trip(rule: RuleView)
    ensures
        rule_of_json(rule_json(rule)) == Some(rule),
{
    reveal_strlit("name");
    reveal_strlit("predicate");
    reveal_strlit("message");
    assert("name"@[0] != "predicate"@[0]);
    assert("name"@[0] != "message"@[0]);
    assert("predicate"@[0] != "message"@[0]);
    predicate_json_round_trip(rule.predicate);
    let members = rule_json(rule)->Object_0;
    assert(key_index(members, "name"@) == 0);
    assert(key_index(members.drop_first(), "predicate"@) == 0);
    assert(key_index(members, "predicate"@) == 1);
    assert(key_index(members.drop_first().drop_first(), "message"@) == 0);
    assert(key_index(members.drop_first(), "message"@) == 1);
    assert(key_index(members, "message"@) == 2);
}

impl Rule {
    /// The JSON form of the rule.
    pub fn to_json(&self) -> (r: JsonValue)
        ensures
            r@ == rule_json(self@),
    {
        let r = object_of(
            vec![
                member_of("name", JsonValue::String(self.name.clone())),
                member_of("predicate", self.predicate.to_json()),
                member_of("message", JsonValue::String(self.message.clone())),
            ],
        );
        proof {
            assert(r@->Object_0 =~= rule_json(self@)->Object_0);
        }
        r
    }
}

/// The JSON form of a list of rules.
pub fn rules_to_json(rules: &Vec<Rule>) -> (r: JsonValue)
    ensures
        r@ == JsonView::Array(rules@.map_values(|rule: Rule| rule_json(rule@))),
{
    let mut out: Vec<JsonValue> = Vec::new();
    let mut i: usize = 0;
    while i < rules.len()
        invariant
            i <= rules@.len(),
            out@.len() == i,
            forall|j: int| 0 <= j < i ==> (#[trigger] out@[j])@ == rule_json(rules@[j]@),
        decreases rules.len() - i,
    {
        out.push(rules[i].to_json());
        i = i + 1;
    }
    proof {
        lemma_items_view(out@);
        assert(items_view(out@) =~= rules@.map_values(|rule: Rule| rule_json(rule@)));
    }
    JsonValue::Array(out)
}

/// The wire name of a verdict.
pub open spec fn result_name(result: EvaluationResult) -> Seq<char> {
    match result {
        EvaluationResult::Pass => "PASS"@,
        EvaluationResult::Fail => "FAIL"@,
    }
}

fn result_to_json(result: EvaluationResult) -> (r: JsonValue)
    ensures
        r@ == JsonView::String(result_name(result)),
{
    match result {
        EvaluationResult::Pass => JsonValue::String("PASS".to_owned()),
        EvaluationResult::Fail => JsonValue::String("FAIL".to_owned()),
    }
}

/// The JSON form of a reason.
pub open spec fn reason_json(reason: ReasonView) -> JsonView {
    JsonView::Object(
        seq![
            ("rule"@, JsonView::String(reason.rule)),
            ("requirement"@, JsonView::String(reason.requirement)),
            ("evaluation"@, JsonView::String(result_name(reason.evaluation))),
        ],
    )
}

/// The JSON form of a batch outcome.
pub open spec fn evaluation_json(ev: EvaluationView) -> JsonView {
    JsonView::Object(
        seq![
            ("result"@, JsonView::String(result_name(ev.result))),
            ("reasons"@, JsonView::Array(ev.reasons.map_values(|r: ReasonView| reason_json(r)))),
        ],
    )
}

impl Evaluation {
    /// The JSON form of the batch outcome.
    pub fn to_json(&self) -> (r: JsonValue)
        ensures
            r@ == evaluation_json(self@),
    {
        let mut reasons: Vec<JsonValue> = Vec::new();
        let mut i: usize = 0;
        while i < self.reasons.len()
            invariant
                i <= self.reasons@.len(),
                reasons@.len() == i,
                forall|j: int|
                    0 <= j < i ==> (#[trigger] reasons@[j])@ == reason_json(self.reasons@[j]@),
            decreases self.reasons.len() - i,
        {
            let reason: &EvaluationReason = &self.reasons[i];
            let item = object_of(
                vec![
                    member_of("rule", JsonValue::String(reason.rule.clone())),
                    member_of("requirement", JsonValue::String(reason.requirement.clone())),
                    member_of("evaluation", result_to_json(reason.evaluation)),
                ],
            );
            proof {
                assert(item@->Object_0 =~= reason_json(reason@)->Object_0);
            }
            reasons.push(item);
            i = i + 1;
        }
        proof {
            lemma_items_view(reasons@);
            assert(items_view(reasons@) =~= reason_views(self.reasons@).map_values(
                |r: ReasonView| reason_json(r),
            ));
        }
        let r = object_of(
            vec![
                member_of("result", result_to_json(self.result)),
                member_of("reasons", JsonValue::Array(reasons)),
            ],
        );
        proof {
            assert(r@->Object_0 =~= evaluation_json(self@)->Object_0);
        }
        r
    }
}

} // verus!
