use crate::json::{
    double_is_nan, double_le, double_less, double_less_equal, double_lt, deep_eq, json_type, kind_name,
    lemma_items_view, items_view, member, JsonValue, JsonView,
};
use crate::rule::{
    lemma_predicates_view, predicates_view, CompoundPredicate, Operator, Predicate, PredicateView,
    RawPredicate, RawView, Rule,
};
use vstd::prelude::*;

verus! {

broadcast use {vstd::seq::group_seq_axioms, vstd::std_specs::vec::group_vec_axioms};

/// Why a predicate could not be evaluated against a document.
#[derive(Debug, PartialEq, Eq, Hash)]
pub enum EvaluationError {
    /// A path went through `field` of a value that is not an object; `kind`
    /// names that value's kind.
    NotAnObject { field: String, kind: &'static str },
    /// An operator met operands it cannot compare; `lhs` names the kind of
    /// the value found at the path, `rhs` the kind of the literal.
    TypeMismatch { lhs: &'static str, rhs: &'static str, operator: Operator },
}

/// The model of an evaluation error.
pub enum ErrorView {
    NotAnObject { field: Seq<char>, kind: Seq<char> },
    TypeMismatch { lhs: Seq<char>, rhs: Seq<char>, operator: Operator },
}

impl View for EvaluationError {
    type V = ErrorView;

    open spec fn view(&self) -> ErrorView {
        match self {
            EvaluationError::NotAnObject { field, kind } => ErrorView::NotAnObject {
                field: field@,
                kind: kind@,
            },
            EvaluationError::TypeMismatch { lhs, rhs, operator } => ErrorView::TypeMismatch {
                lhs: lhs@,
                rhs: rhs@,
                operator: *operator,
            },
        }
    }
}

/// The model of an evaluation's outcome.
pub open spec fn outcome(r: Result<bool, EvaluationError>) -> Result<bool, ErrorView> {
    match r {
        Ok(b) => Ok(b),
        Err(e) => Err(e@),
    }
}

/// The error for an operator that cannot compare `data` with `value`.
pub open spec fn mismatch(data: JsonView, value: JsonView, operator: Operator) -> ErrorView {
    ErrorView::TypeMismatch { lhs: kind_name(data), rhs: kind_name(value), operator }
}

impl EvaluationError {
    pub fn not_an_object(field: String, value: &JsonValue) -> (r: EvaluationError)
        ensures
            r@ == (ErrorView::NotAnObject { field: field@, kind: kind_name(value@) }),
    {
        EvaluationError::NotAnObject { field, kind: json_type(value) }
    }

    pub fn type_mismatch(lhs: &JsonValue, rhs: &JsonValue, operator: Operator) -> (r:
        EvaluationError)
        ensures
            r@ == mismatch(lhs@, rhs@, operator),
    {
        EvaluationError::TypeMismatch { lhs: json_type(lhs), rhs: json_type(rhs), operator }
    }
}

/// The pieces of `s` between occurrences of `sep`, in order; empty pieces
/// count, so a string without `sep` is one piece.
pub open spec fn split_on(s: Seq<char>, sep: char) -> Seq<Seq<char>>
    decreases s.len(),
{
    if s.len() == 0 {
        seq![Seq::empty()]
    } else {
        let init = split_on(s.drop_last(), sep);
        if s.last() == sep {
            init.push(Seq::empty())
        } else {
            init.update(init.len() - 1, init.last().push(s.last()))
        }
    }
}

/// Relies on `str::split` with a `char` pattern: the pieces between the
/// separators, in order, empty pieces included.
#[verifier::external_body]
pub(crate) fn split_on_char(s: &str, sep: char) -> (r: Vec<String>)
    ensures
        r@.map_values(|piece: String| piece@) == split_on(s@, sep),
{
    s.split(sep).map(String::from).collect()
}

/// The field names a dotted path goes through; the empty path goes through
/// none.
pub open spec fn path_segments(path: Seq<char>) -> Seq<Seq<char>> {
    if path.len() == 0 {
        Seq::empty()
    } else {
        split_on(path, '.')
    }
}

/// Following field names from `node`: each step needs an object and moves to
/// the member of that name, or to null where there is none.
pub open spec fn resolve(segments: Seq<Seq<char>>, node: JsonView) -> Result<JsonView, ErrorView>
    decreases segments.len(),
{
    if segments.len() == 0 {
        Ok(node)
    } else {
        match node {
            JsonView::Object(members) => resolve(
                segments.drop_first(),
                member(members, segments[0]),
            ),
            _ => Err(ErrorView::NotAnObject { field: segments[0], kind: kind_name(node) }),
        }
    }
}

/// The value at a dotted path of a document.
pub open spec fn follow(path: Seq<char>, doc: JsonView) -> Result<JsonView, ErrorView> {
    resolve(path_segments(path), doc)
}

/// What a lookup found: a value, or null where nothing was there.
pub open spec fn found_view(found: Option<&JsonValue>) -> JsonView {
    match found {
        Some(v) => v@,
        None => JsonView::Null,
    }
}

/// Whether two doubles stand in the order an ordering operator asks for.
pub open spec fn ordered(operator: Operator, a: u64, b: u64) -> bool {
    match operator {
        Operator::Greater => double_lt(b, a),
        Operator::Less => double_lt(a, b),
        Operator::GreaterEqual => double_le(b, a),
        Operator::LessEqual => double_le(a, b),
        _ => false,
    }
}

/// Whether some element of `items` is deeply equal to `value`.
pub open spec fn holds_value(items: Seq<JsonView>, value: JsonView) -> bool {
    exists|i: int| 0 <= i < items.len() && deep_eq(#[trigger] items[i], value)
}

/// Applying an operator to the value found at a path and a literal.
pub open spec fn compare(operator: Operator, data: JsonView, value: JsonView) -> Result<
    bool,
    ErrorView,
> {
    match operator {
        Operator::Equal => Ok(deep_eq(data, value)),
        Operator::NotEqual => Ok(!deep_eq(data, value)),
        Operator::Contains => match data {
            JsonView::Array(items) => Ok(holds_value(items, value)),
            _ => Err(mismatch(data, value, operator)),
        },
        _ => match (data, value) {
            (JsonView::Number(x), JsonView::Number(y)) => Ok(
                ordered(operator, x.spec_double(), y.spec_double()),
            ),
            _ => Err(mismatch(data, value, operator)),
        },
    }
}

proof fn lemma_contains_witness(items: Seq<JsonView>, value: JsonView, i: int)
    requires
        0 <= i < items.len(),
        deep_eq(items[i], value),
    ensures
        compare(Operator::Contains, JsonView::Array(items), value) == Ok::<bool, ErrorView>(true),
{
    assert(holds_value(items, value));
}

/// Evaluating a raw predicate.
pub open spec fn eval_raw(p: RawView, doc: JsonView) -> Result<bool, ErrorView> {
    match follow(p.path, doc) {
        Ok(data) => compare(p.operator, data, p.value),
        Err(e) => Err(e),
    }
}

/// Evaluating a predicate tree; children are taken in order and the first
/// error ends the evaluation.
pub open spec fn eval(p: PredicateView, doc: JsonView) -> Result<bool, ErrorView>
    decreases p,
{
    match p {
        PredicateView::Raw(r) => eval_raw(r, doc),
        PredicateView::Not(q) => match eval(*q, doc) {
            Ok(b) => Ok(!b),
            Err(e) => Err(e),
        },
        PredicateView::Any(qs) => eval_any(qs, doc),
        PredicateView::All(qs) => eval_all(qs, doc),
        PredicateView::NoneOf(qs) => eval_none(qs, doc),
    }
}

/// True at the first child that holds, false when none does.
pub open spec fn eval_any(qs: Seq<PredicateView>, doc: JsonView) -> Result<bool, ErrorView>
    decreases qs,
{
    if qs.len() == 0 {
        Ok(false)
    } else {
        match eval(qs[0], doc) {
            Ok(false) => eval_any(qs.drop_first(), doc),
            r => r,
        }
    }
}

/// False at the first child that fails, true when all hold.
pub open spec fn eval_all(qs: Seq<PredicateView>, doc: JsonView) -> Result<bool, ErrorView>
    decreases qs,
{
    if qs.len() == 0 {
        Ok(true)
    } else {
        match eval(qs[0], doc) {
            Ok(true) => eval_all(qs.drop_first(), doc),
            r => r,
        }
    }
}

/// False at the first child that holds, true when none does.
pub open spec fn eval_none(qs: Seq<PredicateView>, doc: JsonView) -> Result<bool, ErrorView>
    decreases qs,
{
    if qs.len() == 0 {
        Ok(true)
    } else {
        match eval(qs[0], doc) {
            Ok(false) => eval_none(qs.drop_first(), doc),
            Ok(true) => Ok(false),
            Err(e) => Err(e),
        }
    }
}

/// Where the value at a path and the literal are both numbers that are not
/// NaN, `>` holds exactly when `<=` does not, and `<` exactly when `>=` does
/// not; none of the four fails.
pub proof fn greater_and_less_equal_complement(path: Seq<char>, value: JsonView, doc: JsonView)
    requires
        follow(path, doc) matches Ok(JsonView::Number(x)) && !double_is_nan(x.spec_double()),
        value matches JsonView::Number(y) && !double_is_nan(y.spec_double()),
    ensures
        eval_raw(RawView { path, operator: Operator::Greater, value }, doc) is Ok,
        eval_raw(RawView { path, operator: Operator::LessEqual, value }, doc) is Ok,
        eval_raw(RawView { path, operator: Operator::Greater, value }, doc)->Ok_0 == !eval_raw(
            RawView { path, operator: Operator::LessEqual, value },
            doc,
        )->Ok_0,
        eval_raw(RawView { path, operator: Operator::Less, value }, doc) is Ok,
        eval_raw(RawView { path, operator: Operator::GreaterEqual, value }, doc) is Ok,
        eval_raw(RawView { path, operator: Operator::Less, value }, doc)->Ok_0 == !eval_raw(
            RawView { path, operator: Operator::GreaterEqual, value },
            doc,
        )->Ok_0,
{
}

/// For a path that resolves, `==` and `!=` never fail and always give
/// opposite answers, whatever the kinds of the two values.
pub proof fn equal_and_not_equal_complement(path: Seq<char>, value: JsonView, doc: JsonView)
    requires
        follow(path, doc) is Ok,
    ensures
        eval_raw(RawView { path, operator: Operator::Equal, value }, doc) is Ok,
        eval_raw(RawView { path, operator: Operator::NotEqual, value }, doc) is Ok,
        eval_raw(RawView { path, operator: Operator::NotEqual, value }, doc)->Ok_0 == !eval_raw(
            RawView { path, operator: Operator::Equal, value },
            doc,
        )->Ok_0,
{
}

/// With no children, `all` and `none` hold and `any` does not, on every
/// document.
pub proof fn empty_combinations(doc: JsonView)
    ensures
        eval(PredicateView::All(Seq::empty()), doc) == Ok::<bool, ErrorView>(true),
        eval(PredicateView::Any(Seq::empty()), doc) == Ok::<bool, ErrorView>(false),
        eval(PredicateView::NoneOf(Seq::empty()), doc) == Ok::<bool, ErrorView>(true),
{
    assert(eval_all(Seq::empty(), doc) == Ok::<bool, ErrorView>(true));
    assert(eval_any(Seq::empty(), doc) == Ok::<bool, ErrorView>(false));
    assert(eval_none(Seq::empty(), doc) == Ok::<bool, ErrorView>(true));
}

/// The value at a dotted path of `input`: `Ok(None)` where the last field is
/// missing, which reads as null. The empty path names `input` itself.
pub fn follow_path<'a>(path: &str, input: &'a JsonValue) -> (r: Result<
    Option<&'a JsonValue>,
    EvaluationError,
>)
    ensures
        match r {
            Ok(found) => follow(path@, input@) == Ok::<JsonView, ErrorView>(found_view(found)),
            Err(e) => follow(path@, input@) == Err::<JsonView, ErrorView>(e@),
        },
{
    if path.is_empty() {
        return Ok(Some(input));
    }
    let segments = split_on_char(path, '.');
    let ghost segs = path_segments(path@);
    assert(segs == segments@.map_values(|piece: String| piece@));
    assert(segs.skip(0) =~= segs);
    let mut head: Option<&'a JsonValue> = Some(input);
    let mut i: usize = 0;
    while i < segments.len()
        invariant
            i <= segments.len(),
            segs == segments@.map_values(|piece: String| piece@),
            follow(path@, input@) == resolve(segs.skip(i as int), found_view(head)),
        decreases segments.len() - i,
    {
        let seg = &segments[i];
        let ghost rest = segs.skip(i as int);
        assert(rest[0] == seg@);
        assert(rest.drop_first() =~= segs.skip(i + 1));
        match head {
            Some(node) => {
                if node.is_object() {
                    head = node.get(seg);
                } else {
                    return Err(EvaluationError::not_an_object(seg.clone(), node));
                }
            },
            None => {
                return Err(EvaluationError::not_an_object(seg.clone(), &JsonValue::Null));
            },
        }
        i = i + 1;
    }
    assert(segs.skip(i as int) =~= Seq::empty());
    Ok(head)
}

impl RawPredicate {
    /// Evaluates the comparison against `input`.
    pub fn evaluate(&self, input: &JsonValue) -> (r: Result<bool, EvaluationError>)
        ensures
            outcome(r) == eval_raw(self@, input@),
    {
        let null = JsonValue::Null;
        let data: &JsonValue = match follow_path(self.path.as_str(), input) {
            Err(e) => return Err(e),
            Ok(Some(found)) => found,
            Ok(None) => &null,
        };
        let operator = self.operator;
        match operator {
            Operator::Equal => Ok(*data == self.value),
            Operator::NotEqual => Ok(!(*data == self.value)),
            Operator::Greater | Operator::Less | Operator::GreaterEqual | Operator::LessEqual => {
                match (data, &self.value) {
                    (JsonValue::Number(x), JsonValue::Number(y)) => {
                        let a = x.as_double();
                        let b = y.as_double();
                        Ok(
                            match operator {
                                Operator::Greater => double_less(b, a),
                                Operator::Less => double_less(a, b),
                                Operator::GreaterEqual => double_less_equal(b, a),
                                _ => double_less_equal(a, b),
                            },
                        )
                    },
                    _ => Err(EvaluationError::type_mismatch(data, &self.value, operator)),
                }
            },
            Operator::Contains => match data {
                JsonValue::Array(items) => {
                    proof {
                        lemma_items_view(items@);
                    }
                    let mut i: usize = 0;
                    while i < items.len()
                        invariant
                            i <= items.len(),
                            operator == Operator::Contains,
                            self.operator == operator,
                            follow(self.path@, input@) == Ok::<JsonView, ErrorView>(data@),
                            data@ == JsonView::Array(items_view(items@)),
                            items_view(items@).len() == items@.len(),
                            forall|j: int|
                                0 <= j < items@.len() ==> #[trigger] items_view(items@)[j]
                                    == items@[j]@,
                            forall|j: int| 0 <= j < i ==> !deep_eq(items@[j]@, self.value@),
                        decreases items.len() - i,
                    {
                        if items[i] == self.value {
                            assert(deep_eq(items_view(items@)[i as int], self.value@));
                            proof {
                                lemma_contains_witness(items_view(items@), self.value@, i as int);
                            }
                            return Ok(true);
                        }
                        i = i + 1;
                    }
                    assert forall|j: int| 0 <= j < items_view(items@).len() implies !deep_eq(
                        #[trigger] items_view(items@)[j],
                        self.value@,
                    ) by {
                        assert(items_view(items@)[j] == items@[j]@);
                    }
                    Ok(false)
                },
                _ => Err(EvaluationError::type_mismatch(data, &self.value, operator)),
            },
        }
    }
}

impl Predicate {
    /// Evaluates the predicate against `input`.
    pub fn evaluate(&self, input: &JsonValue) -> (r: Result<bool, EvaluationError>)
        ensures
            outcome(r) == eval(self@, input@),
        decreases self,
    {
        match self {
            Predicate::Raw(p) => p.evaluate(input),
            Predicate::Compound(p) => p.evaluate(input),
        }
    }
}

impl CompoundPredicate {
    /// Evaluates the combination against `input`, children in order, stopping
    /// at the first child that decides the result or fails.
    pub fn evaluate(&self, input: &JsonValue) -> (r: Result<bool, EvaluationError>)
        ensures
            outcome(r) == eval(self@, input@),
        decreases self,
    {
        match self {
            CompoundPredicate::Not(p) => match p.evaluate(input) {
                Ok(b) => Ok(!b),
                Err(e) => Err(e),
            },
            CompoundPredicate::Any(ps) => {
                proof {
                    lemma_scan(predicates_view(ps@), input@);
                }
                first_decisive(ps, input, true, true, false)
            },
            CompoundPredicate::All(ps) => {
                proof {
                    lemma_scan(predicates_view(ps@), input@);
                }
                first_decisive(ps, input, false, false, true)
            },
            CompoundPredicate::NoneOf(ps) => {
                proof {
                    lemma_scan(predicates_view(ps@), input@);
                }
                first_decisive(ps, input, true, false, true)
            },
        }
    }
}

/// The outcome of scanning `qs` in order: the first error, or `on_stop` at
/// the first child that evaluates to `stop`, or `on_end` when none does.
pub open spec fn scan(
    qs: Seq<PredicateView>,
    doc: JsonView,
    stop: bool,
    on_stop: bool,
    on_end: bool,
) -> Result<bool, ErrorView>
    decreases qs.len(),
{
    if qs.len() == 0 {
        Ok(on_end)
    } else {
        match eval(qs[0], doc) {
            Ok(b) => if b == stop {
                Ok(on_stop)
            } else {
                scan(qs.drop_first(), doc, stop, on_stop, on_end)
            },
            Err(e) => Err(e),
        }
    }
}

/// `any`, `all` and `none` are scans that stop at the first decisive child.
pub proof fn lemma_scan(qs: Seq<PredicateView>, doc: JsonView)
    ensures
        eval_any(qs, doc) == scan(qs, doc, true, true, false),
        eval_all(qs, doc) == scan(qs, doc, false, false, true),
        eval_none(qs, doc) == scan(qs, doc, true, false, true),
    decreases qs.len(),
{
    if qs.len() > 0 {
        lemma_scan(qs.drop_first(), doc);
    }
}

fn first_decisive(
    ps: &Vec<Predicate>,
    input: &JsonValue,
    stop: bool,
    on_stop: bool,
    on_end: bool,
) -> (r: Result<bool, EvaluationError>)
    ensures
        outcome(r) == scan(predicates_view(ps@), input@, stop, on_stop, on_end),
    decreases ps,
{
    let ghost qs = predicates_view(ps@);
    proof {
        lemma_predicates_view(ps@);
        assert(qs.skip(0) =~= qs);
    }
    let mut i: usize = 0;
    while i < ps.len()
        invariant
            i <= ps.len(),
            qs == predicates_view(ps@),
            qs.len() == ps@.len(),
            forall|j: int| 0 <= j < ps@.len() ==> #[trigger] qs[j] == ps@[j]@,
            scan(qs, input@, stop, on_stop, on_end) == scan(
                qs.skip(i as int),
                input@,
                stop,
                on_stop,
                on_end,
            ),
        decreases ps.len() - i,
    {
        let ghost rest = qs.skip(i as int);
        assert(rest[0] == qs[i as int]);
        assert(rest.drop_first() =~= qs.skip(i + 1));
        match ps[i].evaluate(input) {
            Ok(b) => {
                if b == stop {
                    return Ok(on_stop);
                }
            },
            Err(e) => return Err(e),
        }
        i = i + 1;
    }
    assert(qs.skip(i as int) =~= Seq::<PredicateView>::empty());
    Ok(on_end)
}

impl Rule {
    /// Evaluates the rule's predicate against `input`.
    pub fn evaluate(&self, input: &JsonValue) -> (r: Result<bool, EvaluationError>)
        ensures
            outcome(r) == eval(self@.predicate, input@),
    {
        self.predicate.evaluate(input)
    }
}

} // verus!
