use crate::json::{copy_value, JsonValue, JsonView};
use vstd::prelude::*;

verus! {

broadcast use {vstd::seq::group_seq_axioms, vstd::std_specs::vec::group_vec_axioms};

/// The comparison a raw predicate makes between the value found at its path
/// and its literal.
#[derive(Clone, Copy, Debug, PartialEq, Eq, Hash, Structural)]
pub enum Operator {
    Equal,
    Greater,
    Less,
    GreaterEqual,
    LessEqual,
    NotEqual,
    Contains,
}

/// A single comparison: the value at a dotted `path` of the document, compared
/// by `operator` with the literal `value`.
#[derive(Debug, PartialEq)]
pub struct RawPredicate {
    pub path: String,
    pub operator: Operator,
    pub value: JsonValue,
}

/// A boolean combination of predicates.
#[derive(Debug, PartialEq)]
pub enum CompoundPredicate {
    Not(Box<Predicate>),
    Any(Vec<Predicate>),
    All(Vec<Predicate>),
    NoneOf(Vec<Predicate>),
}

/// A predicate over a JSON document.
#[derive(Debug, PartialEq)]
pub enum Predicate {
    Raw(RawPredicate),
    Compound(CompoundPredicate),
}

/// A named predicate, with the message that explains what it requires.
#[derive(Debug, PartialEq)]
pub struct Rule {
    pub name: String,
    pub predicate: Predicate,
    pub message: String,
}

/// The model of a raw predicate.
pub struct RawView {
    pub path: Seq<char>,
    pub operator: Operator,
    pub value: JsonView,
}

/// The model of a predicate tree.
pub enum PredicateView {
    Raw(RawView),
    Not(Box<PredicateView>),
    Any(Seq<PredicateView>),
    All(Seq<PredicateView>),
    NoneOf(Seq<PredicateView>),
}

/// The model of a rule.
pub struct RuleView {
    pub name: Seq<char>,
    pub predicate: PredicateView,
    pub message: Seq<char>,
}

impl View for RawPredicate {
    type V = RawView;

    open spec fn view(&self) -> RawView {
        RawView { path: self.path@, operator: self.operator, value: self.value@ }
    }
}

/// The model of a predicate.
pub open spec fn predicate_view(p: Predicate) -> PredicateView
    decreases p,
{
    match p {
        Predicate::Raw(r) => PredicateView::Raw(r@),
        Predicate::Compound(c) => compound_view(c),
    }
}

/// The model of a compound predicate.
pub open spec fn compound_view(c: CompoundPredicate) -> PredicateView
    decreases c,
{
    match c {
        CompoundPredicate::Not(p) => PredicateView::Not(Box::new(predicate_view(*p))),
        CompoundPredicate::Any(ps) => PredicateView::Any(predicates_view(ps@)),
        CompoundPredicate::All(ps) => PredicateView::All(predicates_view(ps@)),
        CompoundPredicate::NoneOf(ps) => PredicateView::NoneOf(predicates_view(ps@)),
    }
}

/// The models of a sequence of predicates.
pub open spec fn predicates_view(ps: Seq<Predicate>) -> Seq<PredicateView>
    decreases ps,
{
    if ps.len() == 0 {
        Seq::empty()
    } else {
        predicates_view(ps.drop_last()).push(predicate_view(ps.last()))
    }
}

/// The model of each predicate of a sequence is that predicate's model.
pub proof fn lemma_predicates_view(ps: Seq<Predicate>)
    ensures
        predicates_view(ps).len() == ps.len(),
        forall|i: int|
            0 <= i < ps.len() ==> #[trigger] predicates_view(ps)[i] == predicate_view(ps[i]),
    decreases ps.len(),
{
    if ps.len() > 0 {
        let init = ps.drop_last();
        lemma_predicates_view(init);
        assert(predicates_view(ps) == predicates_view(init).push(predicate_view(ps.last())));
        assert forall|i: int| 0 <= i < ps.len() implies #[trigger] predicates_view(ps)[i]
            == predicate_view(ps[i]) by {
            if i < init.len() {
                assert(init[i] == ps[i]);
            }
        }
    }
}

impl View for Predicate {
    type V = PredicateView;

    open spec fn view(&self) -> PredicateView {
        predicate_view(*self)
    }
}

impl View for CompoundPredicate {
    type V = PredicateView;

    open spec fn view(&self) -> PredicateView {
        compound_view(*self)
    }
}

impl View for Rule {
    type V = RuleView;

    open spec fn view(&self) -> RuleView {
        RuleView { name: self.name@, predicate: self.predicate@, message: self.message@ }
    }
}

impl RawPredicate {
    pub fn new(path: &str, operator: Operator, value: JsonValue) -> (r: RawPredicate)
        ensures
            r@ == (RawView { path: path@, operator, value: value@ }),
    {
        RawPredicate { path: path.to_owned(), operator, value }
    }
}

impl Clone for RawPredicate {
    fn clone(&self) -> (r: RawPredicate)
        ensures
            r@ == self@,
    {
        RawPredicate { path: self.path.clone(), operator: self.operator, value: copy_value(&self.value) }
    }
}

/// A copy of a predicate tree.
pub fn copy_predicate(p: &Predicate) -> (r: Predicate)
    ensures
        r@ == p@,
    decreases p,
{
    match p {
        Predicate::Raw(raw) => Predicate::Raw(raw.clone()),
        Predicate::Compound(c) => Predicate::Compound(copy_compound(c)),
    }
}

/// A copy of a compound predicate.
pub fn copy_compound(c: &CompoundPredicate) -> (r: CompoundPredicate)
    ensures
        r@ == c@,
    decreases c,
{
    match c {
        CompoundPredicate::Not(p) => CompoundPredicate::Not(Box::new(copy_predicate(p))),
        CompoundPredicate::Any(ps) => CompoundPredicate::Any(copy_predicates(ps)),
        CompoundPredicate::All(ps) => CompoundPredicate::All(copy_predicates(ps)),
        CompoundPredicate::NoneOf(ps) => CompoundPredicate::NoneOf(copy_predicates(ps)),
    }
}

fn copy_predicates(ps: &Vec<Predicate>) -> (r: Vec<Predicate>)
    ensures
        predicates_view(r@) == predicates_view(ps@),
    decreases ps,
{
    let mut out: Vec<Predicate> = Vec::new();
    let mut i: usize = 0;
    proof {
        lemma_predicates_view(ps@);
    }
    while i < ps.len()
        invariant
            i <= ps.len(),
            predicates_view(ps@).len() == ps@.len(),
            forall|j: int|
                0 <= j < ps@.len() ==> #[trigger] predicates_view(ps@)[j] == predicate_view(ps@[j]),
            out@.len() == i,
            forall|j: int| 0 <= j < i ==> predicate_view(#[trigger] out@[j]) == predicate_view(ps@[j]),
        decreases ps.len() - i,
    {
        let p = copy_predicate(&ps[i]);
        out.push(p);
        i = i + 1;
    }
    proof {
        lemma_predicates_view(out@);
        assert(predicates_view(out@) =~= predicates_view(ps@));
    }
    out
}

impl Clone for Predicate {
    fn clone(&self) -> (r: Predicate)
        ensures
            r@ == self@,
    {
        copy_predicate(self)
    }
}

impl Clone for CompoundPredicate {
    fn clone(&self) -> (r: CompoundPredicate)
        ensures
            r@ == self@,
    {
        copy_compound(self)
    }
}

impl Clone for Rule {
    fn clone(&self) -> (r: Rule)
        ensures
            r@ == self@,
    {
        Rule {
            name: self.name.clone(),
            predicate: copy_predicate(&self.predicate),
            message: self.message.clone(),
        }
    }
}

impl From<RawPredicate> for Predicate {
    fn from(value: RawPredicate) -> (r: Predicate) {
        Predicate::Raw(value)
    }
}

impl vstd::std_specs::convert::FromSpecImpl<RawPredicate> for Predicate {
    open spec fn obeys_from_spec() -> bool {
        true
    }

    open spec fn from_spec(v: RawPredicate) -> Predicate {
        Predicate::Raw(v)
    }
}

impl From<CompoundPredicate> for Predicate {
    fn from(value: CompoundPredicate) -> (r: Predicate) {
        Predicate::Compound(value)
    }
}

impl vstd::std_specs::convert::FromSpecImpl<CompoundPredicate> for Predicate {
    open spec fn obeys_from_spec() -> bool {
        true
    }

    open spec fn from_spec(v: CompoundPredicate) -> Predicate {
        Predicate::Compound(v)
    }
}

impl Rule {
    pub fn new(name: &str, message: &str, predicate: Predicate) -> (r: Rule)
        ensures
            r@ == (RuleView { name: name@, predicate: predicate@, message: message@ }),
    {
        Rule { name: name.to_owned(), predicate, message: message.to_owned() }
    }

    /// The rule's name, which is also its key in a store.
    pub fn name(&self) -> (r: &str)
        ensures
            r@ == self.name@,
    {
        self.name.as_str()
    }

    pub fn predicate(&self) -> (r: &Predicate)
        ensures
            r == &self.predicate,
    {
        &self.predicate
    }

    /// The message that tells what the rule requires.
    pub fn message(&self) -> (r: &str)
        ensures
            r@ == self.message@,
    {
        self.message.as_str()
    }
}

} // verus!
