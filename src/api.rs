use crate::eval::{split_on, split_on_char, ErrorView, EvaluationError};
use crate::json::{JsonValue, JsonView};
use crate::wire::{member_of, object_of};
use crate::repository::{
    CreateRuleError, DeleteRuleError, EvaluateRuleError, GetAllRulesError, GetRuleError,
    UpdateRuleError,
};
use crate::rule::Operator;
use vstd::prelude::*;
use vstd::string::StringExecFns;

verus! {

/// The body of an error response: `{"error": {"message": ...}}`.
#[derive(Debug, Clone)]
pub struct ApiError {
    pub error: InnerError,
}

/// The message of an error response.
#[derive(Debug, Clone)]
pub struct InnerError {
    pub message: String,
}

impl ApiError {
    pub fn new(message: String) -> (r: ApiError)
        ensures
            r.error.message@ == message@,
    {
        ApiError { error: InnerError { message } }
    }

    /// The JSON form of the error body.
    pub fn to_json(&self) -> (r: JsonValue)
        ensures
            r@ == JsonView::Object(
                seq![
                    (
                        "error"@,
                        JsonView::Object(
                            seq![("message"@, JsonView::String(self.error.message@))],
                        ),
                    ),
                ],
            ),
    {
        let inner = object_of(
            vec![member_of("message", JsonValue::String(self.error.message.clone()))],
        );
        let r = object_of(vec![member_of("error", inner)]);
        proof {
            assert(inner@->Object_0 =~= seq![
                ("message"@, JsonView::String(self.error.message@)),
            ]);
            assert(r@->Object_0 =~= seq![("error"@, inner@)]);
        }
        r
    }
}

/// The query of an evaluation request: the ids of the rules to evaluate,
/// separated by commas.
#[derive(Debug, Clone)]
pub struct EvaluateParams {
    pub rules: Option<String>,
}

impl EvaluateParams {
    /// The rule ids the query names, in order; none where it names no list.
    pub fn rule_ids(&self) -> (r: Vec<String>)
        ensures
            r@.map_values(|id: String| id@) == match self.rules {
                Some(list) => split_on(list@, ','),
                None => Seq::<Seq<char>>::empty(),
            },
    {
        match &self.rules {
            Some(list) => split_on_char(list.as_str(), ','),
            None => {
                let r: Vec<String> = Vec::new();
                assert(r@.map_values(|id: String| id@) =~= Seq::<Seq<char>>::empty());
                r
            },
        }
    }
}

/// The text `prefix`, then `middle`, then `suffix`.
fn framed(prefix: &str, middle: &str, suffix: &str) -> (r: String)
    ensures
        r@ == prefix@ + middle@ + suffix@,
{
    let mut r = String::from_str(prefix);
    r.append(middle);
    r.append(suffix);
    r
}

/// The message of an error that the store did not cause.
pub open spec fn unknown_message() -> Seq<char> {
    "an unknown error occured"@
}

fn unknown() -> (r: String)
    ensures
        r@ == unknown_message(),
{
    String::from_str("an unknown error occured")
}

/// The name of an operator as debugging output spells it.
pub open spec fn debug_name_of(operator: Operator) -> Seq<char> {
    match operator {
        Operator::Equal => "Equal"@,
        Operator::Greater => "Greater"@,
        Operator::Less => "Less"@,
        Operator::GreaterEqual => "GreaterEqual"@,
        Operator::LessEqual => "LessEqual"@,
        Operator::NotEqual => "NotEqual"@,
        Operator::Contains => "Contains"@,
    }
}

/// The sentence that says why an evaluation failed.
pub open spec fn evaluation_message(e: ErrorView) -> Seq<char> {
    match e {
        ErrorView::NotAnObject { field, kind } => "cannot read field `"@ + field + "` of type "@
            + kind,
        ErrorView::TypeMismatch { lhs, rhs, operator } => "cannot compare "@ + lhs + " with "@
            + rhs + " using operator "@ + debug_name_of(operator),
    }
}

impl Operator {
    /// The operator's name as debugging output spells it.
    pub fn debug_name(&self) -> (r: &'static str)
        ensures
            r@ == debug_name_of(*self),
    {
        match self {
            Operator::Equal => "Equal",
            Operator::Greater => "Greater",
            Operator::Less => "Less",
            Operator::GreaterEqual => "GreaterEqual",
            Operator::LessEqual => "LessEqual",
            Operator::NotEqual => "NotEqual",
            Operator::Contains => "Contains",
        }
    }
}

impl EvaluationError {
    /// A sentence that says what went wrong.
    pub fn message(&self) -> (r: String)
        ensures
            r@ == evaluation_message(self@),
    {
        match self {
            EvaluationError::NotAnObject { field, kind } => {
                let mut r = framed("cannot read field `", field.as_str(), "` of type ");
                r.append(kind);
                r
            },
            EvaluationError::TypeMismatch { lhs, rhs, operator } => {
                let mut r = framed("cannot compare ", lhs, " with ");
                r.append(rhs);
                r.append(" using operator ");
                r.append(operator.debug_name());
                r
            },
        }
    }
}

impl GetAllRulesError {
    /// A sentence that says what went wrong.
    pub fn message(&self) -> (r: String)
        ensures
            r@ == unknown_message(),
    {
        unknown()
    }
}

impl DeleteRuleError {
    /// A sentence that says what went wrong.
    pub fn message(&self) -> (r: String)
        ensures
            r@ == unknown_message(),
    {
        unknown()
    }
}

impl CreateRuleError {
    /// A sentence that says what went wrong.
    pub fn message(&self) -> (r: String)
        ensures
            match self {
                CreateRuleError::Duplicate(id) => r@ == "a rule with id "@ + id@
                    + " already exists"@,
                CreateRuleError::Unknown => r@ == unknown_message(),
            },
    {
        match self {
            CreateRuleError::Duplicate(id) => framed("a rule with id ", id.as_str(), " already exists"),
            CreateRuleError::Unknown => unknown(),
        }
    }
}

impl GetRuleError {
    /// A sentence that says what went wrong.
    pub fn message(&self) -> (r: String)
        ensures
            match self {
                GetRuleError::NoSuchRule(id) => r@ == "a rule with id "@ + id@
                    + " does not exist"@,
                GetRuleError::Unknown => r@ == unknown_message(),
            },
    {
        match self {
            GetRuleError::NoSuchRule(id) => framed("a rule with id ", id.as_str(), " does not exist"),
            GetRuleError::Unknown => unknown(),
        }
    }
}

impl UpdateRuleError {
    /// A sentence that says what went wrong.
    pub fn message(&self) -> (r: String)
        ensures
            match self {
                UpdateRuleError::NoSuchRule(id) => r@ == "a rule with id "@ + id@
                    + " does not exist"@,
                UpdateRuleError::Unknown => r@ == unknown_message(),
            },
    {
        match self {
            UpdateRuleError::NoSuchRule(id) => framed(
                "a rule with id ",
                id.as_str(),
                " does not exist",
            ),
            UpdateRuleError::Unknown => unknown(),
        }
    }
}

impl EvaluateRuleError {
    /// A sentence that says what went wrong.
    pub fn message(&self) -> (r: String)
        ensures
            match self {
                EvaluateRuleError::NoSuchRule(id) => r@ == "a rule with id "@ + id@
                    + " does not exist"@,
                EvaluateRuleError::EvaluationError(id, e) => r@ == "failed to evaluate rule "@
                    + id@ + ": "@ + evaluation_message(e@),
                EvaluateRuleError::Unknown => r@ == unknown_message(),
            },
    {
        match self {
            EvaluateRuleError::NoSuchRule(id) => framed(
                "a rule with id ",
                id.as_str(),
                " does not exist",
            ),
            EvaluateRuleError::EvaluationError(id, e) => {
                let inner = e.message();
                framed("failed to evaluate rule ", id.as_str(), ": ").concat(inner.as_str())
            },
            EvaluateRuleError::Unknown => unknown(),
        }
    }
}

} // verus!
