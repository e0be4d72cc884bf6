use crate::eval::{eval, ErrorView, EvaluationError};
use crate::json::{JsonValue, JsonView};
use crate::rule::{Rule, RuleView};
use vstd::prelude::*;

verus! {

broadcast use {vstd::seq::group_seq_axioms, vstd::std_specs::vec::group_vec_axioms};

/// Whether a rule passed or failed, and whether a whole batch did.
#[derive(Clone, Copy, Debug, PartialEq, Eq, Hash, Structural)]
pub enum EvaluationResult {
    Pass,
    Fail,
}

/// The verdict on one rule of a batch.
#[derive(Debug, PartialEq, Eq, Hash)]
pub struct EvaluationReason {
    pub rule: String,
    pub requirement: String,
    pub evaluation: EvaluationResult,
}

/// The outcome of a batch: its verdict and one reason per rule, in order.
#[derive(Debug, PartialEq, Eq, Hash)]
pub struct Evaluation {
    pub result: EvaluationResult,
    pub reasons: Vec<EvaluationReason>,
}

#[derive(Debug, PartialEq, Eq, Hash)]
pub enum CreateRuleError {
    Duplicate(String),
    Unknown,
}

#[derive(Debug, PartialEq, Eq, Hash)]
pub enum DeleteRuleError {
    Unknown,
}

#[derive(Debug, PartialEq, Eq, Hash)]
pub enum GetRuleError {
    NoSuchRule(String),
    Unknown,
}

#[derive(Debug, PartialEq, Eq, Hash)]
pub enum UpdateRuleError {
    NoSuchRule(String),
    Unknown,
}

#[derive(Debug, PartialEq, Eq, Hash)]
pub enum GetAllRulesError {
    Unknown,
}

#[derive(Debug, PartialEq, Eq, Hash)]
pub enum EvaluateRuleError {
    NoSuchRule(String),
    EvaluationError(String, EvaluationError),
    Unknown,
}

/// The model of one reason of a batch.
pub struct ReasonView {
    pub rule: Seq<char>,
    pub requirement: Seq<char>,
    pub evaluation: EvaluationResult,
}

impl View for EvaluationReason {
    type V = ReasonView;

    open spec fn view(&self) -> ReasonView {
        ReasonView {
            rule: self.rule@,
            requirement: self.requirement@,
            evaluation: self.evaluation,
        }
    }
}

/// The model of a batch failure.
pub enum BatchError {
    NoSuchRule(Seq<char>),
    EvaluationError(Seq<char>, ErrorView),
    Unknown,
}

impl View for EvaluateRuleError {
    type V = BatchError;

    open spec fn view(&self) -> BatchError {
        match self {
            EvaluateRuleError::NoSuchRule(id) => BatchError::NoSuchRule(id@),
            EvaluateRuleError::EvaluationError(id, e) => BatchError::EvaluationError(id@, e@),
            EvaluateRuleError::Unknown => BatchError::Unknown,
        }
    }
}

/// The model of a batch outcome.
pub struct EvaluationView {
    pub result: EvaluationResult,
    pub reasons: Seq<ReasonView>,
}

/// The models of a sequence of reasons.
pub open spec fn reason_views(reasons: Seq<EvaluationReason>) -> Seq<ReasonView> {
    reasons.map_values(|r: EvaluationReason| r@)
}

impl View for Evaluation {
    type V = EvaluationView;

    open spec fn view(&self) -> EvaluationView {
        EvaluationView { result: self.result, reasons: reason_views(self.reasons@) }
    }
}

/// The reason recorded for a rule that evaluated to `passed`.
pub open spec fn reason_for(id: Seq<char>, rule: RuleView, passed: bool) -> ReasonView {
    ReasonView {
        rule: id,
        requirement: rule.message,
        evaluation: if passed {
            EvaluationResult::Pass
        } else {
            EvaluationResult::Fail
        },
    }
}

/// A batch over `ids`, in order: the first missing rule or failing
/// evaluation ends it with that error; otherwise one reason per id.
pub open spec fn batch(
    store: Map<Seq<char>, RuleView>,
    ids: Seq<Seq<char>>,
    doc: JsonView,
) -> Result<Seq<ReasonView>, BatchError>
    decreases ids.len(),
{
    if ids.len() == 0 {
        Ok(Seq::empty())
    } else if !store.contains_key(ids[0]) {
        Err(BatchError::NoSuchRule(ids[0]))
    } else {
        match eval(store[ids[0]].predicate, doc) {
            Err(e) => Err(BatchError::EvaluationError(ids[0], e)),
            Ok(passed) => match batch(store, ids.drop_first(), doc) {
                Ok(rest) => Ok(seq![reason_for(ids[0], store[ids[0]], passed)] + rest),
                Err(e) => Err(e),
            },
        }
    }
}

/// A batch passes when every one of its reasons passes.
pub open spec fn verdict(reasons: Seq<ReasonView>) -> EvaluationResult {
    if forall|i: int| 0 <= i < reasons.len() ==> #[trigger] reasons[i].evaluation
        == EvaluationResult::Pass {
        EvaluationResult::Pass
    } else {
        EvaluationResult::Fail
    }
}

/// Reasons already gathered, put before what the rest of a batch gives.
pub open spec fn after(done: Seq<ReasonView>, rest: Result<Seq<ReasonView>, BatchError>) -> Result<
    Seq<ReasonView>,
    BatchError,
> {
    match rest {
        Ok(more) => Ok(done + more),
        Err(e) => Err(e),
    }
}

/// The names a list of ids gives.
pub open spec fn id_views(ids: Seq<String>) -> Seq<Seq<char>> {
    ids.map_values(|id: String| id@)
}

/// A batch that names a missing rule fails with that name, whatever the
/// rules named before it give, as long as they are there and evaluate.
pub proof fn missing_rule_fails_batch(
    store: Map<Seq<char>, RuleView>,
    ids: Seq<Seq<char>>,
    doc: JsonView,
    missing: int,
)
    requires
        0 <= missing < ids.len(),
        !store.contains_key(ids[missing]),
        forall|j: int|
            0 <= j < missing ==> store.contains_key(#[trigger] ids[j]) && eval(
                store[ids[j]].predicate,
                doc,
            ) is Ok,
    ensures
        batch(store, ids, doc) == Err::<Seq<ReasonView>, BatchError>(
            BatchError::NoSuchRule(ids[missing]),
        ),
    decreases missing,
{
    if missing > 0 {
        let rest = ids.drop_first();
        assert forall|j: int| 0 <= j < missing - 1 implies store.contains_key(#[trigger] rest[j])
            && eval(store[rest[j]].predicate, doc) is Ok by {
            assert(rest[j] == ids[j + 1]);
        }
        assert(store.contains_key(ids[0]));
        missing_rule_fails_batch(store, rest, doc, missing - 1);
    }
}

/// The models of a sequence of rules.
pub open spec fn rule_views(rules: Seq<Rule>) -> Seq<RuleView> {
    rules.map_values(|r: Rule| r@)
}

/// No two rules of the sequence share a name.
pub open spec fn names_unique(rules: Seq<RuleView>) -> bool {
    forall|i: int, j: int|
        0 <= i < rules.len() && 0 <= j < rules.len() && i != j ==> #[trigger] rules[i].name
            != #[trigger] rules[j].name
}

/// Whether some rule of the sequence has the given name.
pub open spec fn has_name(rules: Seq<RuleView>, name: Seq<char>) -> bool {
    exists|i: int| 0 <= i < rules.len() && #[trigger] rules[i].name == name
}

/// The rules of a sequence keyed by name.
pub open spec fn rules_map(rules: Seq<RuleView>) -> Map<Seq<char>, RuleView> {
    Map::new(
        |name: Seq<char>| has_name(rules, name),
        |name: Seq<char>| rules[choose|i: int| 0 <= i < rules.len() && #[trigger] rules[i].name == name],
    )
}

/// The rules of a sequence keyed by name, where a later rule replaces an
/// earlier one of the same name.
pub open spec fn rules_by_name(rules: Seq<RuleView>) -> Map<Seq<char>, RuleView>
    decreases rules.len(),
{
    if rules.len() == 0 {
        Map::empty()
    } else {
        rules_by_name(rules.drop_last()).insert(rules.last().name, rules.last())
    }
}

/// Where names are distinct, each rule sits in the map under its name.
pub proof fn lemma_rules_map(rules: Seq<RuleView>)
    requires
        names_unique(rules),
    ensures
        forall|i: int|
            0 <= i < rules.len() ==> #[trigger] rules_map(rules).contains_key(rules[i].name)
                && rules_map(rules)[rules[i].name] == rules[i],
        forall|name: Seq<char>|
            #[trigger] rules_map(rules).contains_key(name) <==> has_name(rules, name),
{
    assert forall|i: int| 0 <= i < rules.len() implies #[trigger] rules_map(rules).contains_key(
        rules[i].name,
    ) && rules_map(rules)[rules[i].name] == rules[i] by {
        let name = rules[i].name;
        assert(has_name(rules, name));
        let j = choose|j: int| 0 <= j < rules.len() && #[trigger] rules[j].name == name;
        assert(i == j);
    }
}

/// Adding a rule under a new name adds it to the map.
pub proof fn lemma_push(rules: Seq<RuleView>, rule: RuleView)
    requires
        names_unique(rules),
        !has_name(rules, rule.name),
    ensures
        names_unique(rules.push(rule)),
        rules_map(rules.push(rule)) == rules_map(rules).insert(rule.name, rule),
{
    let pushed = rules.push(rule);
    assert forall|i: int, j: int|
        0 <= i < pushed.len() && 0 <= j < pushed.len() && i != j implies #[trigger] pushed[i].name
        != #[trigger] pushed[j].name by {
        if i == rules.len() {
            assert(pushed[j] == rules[j]);
        } else if j == rules.len() {
            assert(pushed[i] == rules[i]);
        } else {
            assert(pushed[i] == rules[i] && pushed[j] == rules[j]);
        }
    }
    lemma_rules_map(rules);
    lemma_rules_map(pushed);
    assert forall|name: Seq<char>| #[trigger] has_name(pushed, name) <==> (has_name(rules, name)
        || name == rule.name) by {
        if has_name(pushed, name) {
            let i = choose|i: int| 0 <= i < pushed.len() && #[trigger] pushed[i].name == name;
            if i < rules.len() {
                assert(rules[i] == pushed[i]);
            }
        }
        if has_name(rules, name) {
            let i = choose|i: int| 0 <= i < rules.len() && #[trigger] rules[i].name == name;
            assert(pushed[i] == rules[i]);
        }
        if name == rule.name {
            assert(pushed[rules.len() as int] == rule);
        }
    }
    assert forall|name: Seq<char>| #[trigger] rules_map(pushed).contains_key(name) implies rules_map(
        pushed,
    )[name] == rules_map(rules).insert(rule.name, rule)[name] by {
        let i = choose|i: int| 0 <= i < pushed.len() && #[trigger] pushed[i].name == name;
        if i < rules.len() {
            assert(rules[i] == pushed[i]);
        }
    }
    assert(rules_map(pushed) =~= rules_map(rules).insert(rule.name, rule));
}

/// Taking a rule out of the sequence takes its name out of the map.
pub proof fn lemma_remove(rules: Seq<RuleView>, k: int)
    requires
        names_unique(rules),
        0 <= k < rules.len(),
    ensures
        names_unique(rules.remove(k)),
        rules_map(rules.remove(k)) == rules_map(rules).remove(rules[k].name),
{
    let removed = rules.remove(k);
    assert forall|i: int| 0 <= i < removed.len() implies #[trigger] removed[i] == rules[
        if i < k {
            i
        } else {
            i + 1
        }
    ] by {}
    assert forall|i: int, j: int|
        0 <= i < removed.len() && 0 <= j < removed.len() && i != j implies #[trigger] removed[i].name
        != #[trigger] removed[j].name by {
        let i0 = if i < k {
            i
        } else {
            i + 1
        };
        let j0 = if j < k {
            j
        } else {
            j + 1
        };
        assert(removed[i] == rules[i0]);
        assert(removed[j] == rules[j0]);
    }
    lemma_rules_map(rules);
    lemma_rules_map(removed);
    assert forall|name: Seq<char>| #[trigger] has_name(removed, name) <==> (has_name(rules, name)
        && name != rules[k].name) by {
        if has_name(removed, name) {
            let i = choose|i: int| 0 <= i < removed.len() && #[trigger] removed[i].name == name;
            let i0 = if i < k {
                i
            } else {
                i + 1
            };
            assert(removed[i] == rules[i0]);
        }
        if has_name(rules, name) && name != rules[k].name {
            let i = choose|i: int| 0 <= i < rules.len() && #[trigger] rules[i].name == name;
            if i < k {
                assert(removed[i] == rules[i]);
            } else {
                assert(removed[i - 1] == rules[i]);
            }
        }
    }
    assert forall|name: Seq<char>| #[trigger] rules_map(removed).contains_key(name) implies rules_map(
        removed,
    )[name] == rules_map(rules)[name] by {
        let i = choose|i: int| 0 <= i < removed.len() && #[trigger] removed[i].name == name;
        let i0 = if i < k {
            i
        } else {
            i + 1
        };
        assert(removed[i] == rules[i0]);
    }
    assert(rules_map(removed) =~= rules_map(rules).remove(rules[k].name));
}

/// The position of the rule named `name` in `rules`.
fn find_named(rules: &Vec<Rule>, name: &String) -> (r: Option<usize>)
    ensures
        match r {
            Some(i) => i < rules@.len() && rules@[i as int].name@ == name@,
            None => !has_name(rule_views(rules@), name@),
        },
{
    let mut i: usize = 0;
    while i < rules.len()
        invariant
            i <= rules@.len(),
            forall|j: int| 0 <= j < i ==> rules@[j].name@ != name@,
        decreases rules.len() - i,
    {
        if rules[i].name == *name {
            return Some(i);
        }
        i = i + 1;
    }
    proof {
        let views = rule_views(rules@);
        if has_name(views, name@) {
            let j = choose|j: int| 0 <= j < views.len() && #[trigger] views[j].name == name@;
            assert(views[j] == rules@[j]@);
        }
    }
    None
}

/// Takes the rule named `name` out of `rules`, if there is one.
fn take_named(rules: &mut Vec<Rule>, name: &String) -> (r: Option<Rule>)
    requires
        names_unique(rule_views(old(rules)@)),
    ensures
        names_unique(rule_views(final(rules)@)),
        rules_map(rule_views(final(rules)@)) == rules_map(rule_views(old(rules)@)).remove(name@),
        match r {
            Some(rule) => rules_map(rule_views(old(rules)@)).contains_key(name@) && rule@
                == rules_map(rule_views(old(rules)@))[name@],
            None => !rules_map(rule_views(old(rules)@)).contains_key(name@),
        },
{
    let ghost views = rule_views(rules@);
    proof {
        lemma_rules_map(views);
    }
    match find_named(rules, name) {
        Some(k) => {
            let rule = rules.remove(k);
            proof {
                assert(views[k as int] == rule@);
                assert(rule_views(rules@) =~= views.remove(k as int));
                lemma_remove(views, k as int);
            }
            Some(rule)
        },
        None => {
            proof {
                assert(rules_map(views).remove(name@) =~= rules_map(views));
            }
            None
        },
    }
}

/// Puts `rule` in `rules` under its name, in place of any rule of that name.
fn put_rule(rules: &mut Vec<Rule>, rule: Rule)
    requires
        names_unique(rule_views(old(rules)@)),
    ensures
        names_unique(rule_views(final(rules)@)),
        rules_map(rule_views(final(rules)@)) == rules_map(rule_views(old(rules)@)).insert(
            rule@.name,
            rule@,
        ),
{
    let ghost before = rules_map(rule_views(rules@));
    let _ = take_named(rules, &rule.name);
    let ghost views = rule_views(rules@);
    proof {
        lemma_rules_map(views);
        assert(rule@.name == rule.name@);
        assert(!rules_map(views).contains_key(rule@.name));
        assert(!has_name(views, rule@.name));
        lemma_push(views, rule@);
    }
    rules.push(rule);
    proof {
        assert(rule_views(rules@) =~= views.push(rule@));
        assert(before.remove(rule@.name).insert(rule@.name, rule@) =~= before.insert(rule@.name, rule@));
    }
}

/// An in-memory store of rules keyed by name.
pub struct InMemRuleRepository {
    rules: Vec<Rule>,
}

impl View for InMemRuleRepository {
    type V = Map<Seq<char>, RuleView>;

    closed spec fn view(&self) -> Map<Seq<char>, RuleView> {
        rules_map(rule_views(self.rules@))
    }
}

impl InMemRuleRepository {
    #[verifier::type_invariant]
    spec fn names_distinct(self) -> bool {
        names_unique(rule_views(self.rules@))
    }

    /// A store with no rules.
    pub fn empty() -> (r: InMemRuleRepository)
        ensures
            r@ == Map::<Seq<char>, RuleView>::empty(),
    {
        let r = InMemRuleRepository { rules: Vec::new() };
        proof {
            assert(rules_map(rule_views(r.rules@)) =~= Map::<Seq<char>, RuleView>::empty());
        }
        r
    }

    /// The position of the rule named `name`.
    fn position(&self, name: &String) -> (r: Option<usize>)
        ensures
            match r {
                Some(i) => {
                    &&& i < self.rules@.len()
                    &&& self.rules@[i as int].name@ == name@
                    &&& self@.contains_key(name@)
                    &&& self@[name@] == self.rules@[i as int]@
                },
                None => !self@.contains_key(name@),
            },
    {
        proof {
            use_type_invariant(self);
            lemma_rules_map(rule_views(self.rules@));
        }
        let r = find_named(&self.rules, name);
        proof {
            if r is Some {
                let views = rule_views(self.rules@);
                let i = r->0 as int;
                assert(views[i] == self.rules@[i]@);
                assert(self@.contains_key(views[i].name));
            }
        }
        r
    }

    /// A copy of the rule named `id`.
    pub fn get(&self, id: &String) -> (r: Result<Rule, GetRuleError>)
        ensures
            self@.contains_key(id@) ==> (r matches Ok(rule) && rule@ == self@[id@]),
            !self@.contains_key(id@) ==> (r matches Err(GetRuleError::NoSuchRule(n)) && n@ == id@),
    {
        match self.position(id) {
            Some(i) => Ok(self.rules[i].clone()),
            None => Err(GetRuleError::NoSuchRule(id.clone())),
        }
    }

    /// Copies of all the rules, each once.
    pub fn get_all(&self) -> (r: Result<Vec<Rule>, GetAllRulesError>)
        ensures
            r matches Ok(all) && names_unique(rule_views(all@)) && rules_map(rule_views(all@))
                == self@,
    {
        proof {
            use_type_invariant(self);
        }
        let mut all: Vec<Rule> = Vec::new();
        let mut i: usize = 0;
        while i < self.rules.len()
            invariant
                i <= self.rules@.len(),
                all@.len() == i,
                forall|j: int| 0 <= j < i ==> (#[trigger] all@[j])@ == self.rules@[j]@,
            decreases self.rules.len() - i,
        {
            all.push(self.rules[i].clone());
            i = i + 1;
        }
        proof {
            assert(rule_views(all@) =~= rule_views(self.rules@));
        }
        Ok(all)
    }

    /// A store holding `rules`, keyed by name; of two rules with one name the
    /// later one stays.
    pub fn new(rules: &[Rule]) -> (r: InMemRuleRepository)
        ensures
            r@ == rules_by_name(rule_views(rules@)),
    {
        let mut stored: Vec<Rule> = Vec::new();
        let mut i: usize = 0;
        proof {
            assert(rule_views(rules@.take(0)) =~= Seq::<RuleView>::empty());
            assert(rules_map(rule_views(stored@)) =~= Map::<Seq<char>, RuleView>::empty());
        }
        while i < rules.len()
            invariant
                i <= rules@.len(),
                names_unique(rule_views(stored@)),
                rules_map(rule_views(stored@)) == rules_by_name(rule_views(rules@.take(i as int))),
            decreases rules.len() - i,
        {
            let rule = rules[i].clone();
            put_rule(&mut stored, rule);
            proof {
                let next = rule_views(rules@.take(i + 1));
                assert(next.drop_last() =~= rule_views(rules@.take(i as int)));
                assert(next.last() == rules@[i as int]@);
            }
            i = i + 1;
        }
        proof {
            assert(rules@.take(i as int) =~= rules@);
        }
        InMemRuleRepository { rules: stored }
    }

    /// Adds `rule` under its name, unless a rule of that name is there.
    pub fn create(&mut self, rule: Rule) -> (r: Result<(), CreateRuleError>)
        ensures
            old(self)@.contains_key(rule@.name) ==> {
                &&& r matches Err(CreateRuleError::Duplicate(n)) && n@ == rule@.name
                &&& final(self)@ == old(self)@
            },
            !old(self)@.contains_key(rule@.name) ==> {
                &&& r is Ok
                &&& final(self)@ == old(self)@.insert(rule@.name, rule@)
            },
    {
        proof {
            use_type_invariant(&*self);
        }
        if self.position(&rule.name).is_some() {
            return Err(CreateRuleError::Duplicate(rule.name.clone()));
        }
        let mut rules: Vec<Rule> = Vec::new();
        std::mem::swap(&mut rules, &mut self.rules);
        put_rule(&mut rules, rule);
        *self = InMemRuleRepository { rules };
        Ok(())
    }

    /// Removes the rule named `id` and hands it back; removing a name that is
    /// not there changes nothing.
    pub fn delete(&mut self, id: &String) -> (r: Result<Option<Rule>, DeleteRuleError>)
        ensures
            r matches Ok(removed) && match removed {
                Some(rule) => old(self)@.contains_key(id@) && rule@ == old(self)@[id@],
                None => !old(self)@.contains_key(id@),
            },
            final(self)@ == old(self)@.remove(id@),
    {
        proof {
            use_type_invariant(&*self);
        }
        let mut rules: Vec<Rule> = Vec::new();
        std::mem::swap(&mut rules, &mut self.rules);
        let removed = take_named(&mut rules, id);
        *self = InMemRuleRepository { rules };
        Ok(removed)
    }

    /// Replaces the rule named `id` by `new_rule`, which goes in under its
    /// own name; a rule already there under that name is replaced too.
    pub fn update(&mut self, id: String, new_rule: Rule) -> (r: Result<
        Option<Rule>,
        UpdateRuleError,
    >)
        ensures
            !old(self)@.contains_key(id@) ==> {
                &&& r matches Err(UpdateRuleError::NoSuchRule(n)) && n@ == id@
                &&& final(self)@ == old(self)@
            },
            old(self)@.contains_key(id@) ==> {
                &&& r matches Ok(Some(replaced)) && replaced@ == old(self)@[id@]
                &&& final(self)@ == old(self)@.remove(id@).insert(new_rule@.name, new_rule@)
            },
    {
        proof {
            use_type_invariant(&*self);
        }
        if self.position(&id).is_none() {
            return Err(UpdateRuleError::NoSuchRule(id));
        }
        let mut rules: Vec<Rule> = Vec::new();
        std::mem::swap(&mut rules, &mut self.rules);
        let replaced = take_named(&mut rules, &id);
        put_rule(&mut rules, new_rule);
        *self = InMemRuleRepository { rules };
        Ok(replaced)
    }

    /// Evaluates the rules named by `ids`, in order, against `input`, all
    /// against the same state of the store. The first missing rule or failing
    /// evaluation ends the batch with that error.
    pub fn evaluate(&self, ids: &[String], input: JsonValue) -> (r: Result<
        Evaluation,
        EvaluateRuleError,
    >)
        ensures
            match r {
                Ok(ev) => {
                    &&& batch(self@, id_views(ids@), input@) == Ok::<
                        Seq<ReasonView>,
                        BatchError,
                    >(ev@.reasons)
                    &&& ev@.result == verdict(ev@.reasons)
                },
                Err(e) => batch(self@, id_views(ids@), input@) == Err::<
                    Seq<ReasonView>,
                    BatchError,
                >(e@),
            },
    {
        let ghost names = id_views(ids@);
        let mut reasons: Vec<EvaluationReason> = Vec::new();
        let mut is_pass = true;
        let mut i: usize = 0;
        proof {
            assert(names.skip(0) =~= names);
            assert(reason_views(reasons@) + Seq::<ReasonView>::empty() =~= Seq::<
                ReasonView,
            >::empty());
        }
        while i < ids.len()
            invariant
                i <= ids@.len(),
                names == id_views(ids@),
                batch(self@, names, input@) == after(
                    reason_views(reasons@),
                    batch(self@, names.skip(i as int), input@),
                ),
                reasons@.len() == i,
                is_pass == (forall|j: int|
                    0 <= j < i ==> #[trigger] reason_views(reasons@)[j].evaluation
                        == EvaluationResult::Pass),
            decreases ids.len() - i,
        {
            let id = &ids[i];
            let ghost rest = names.skip(i as int);
            assert(rest[0] == id@);
            assert(rest.drop_first() =~= names.skip(i + 1));
            let k = match self.position(id) {
                Some(k) => k,
                None => return Err(EvaluateRuleError::NoSuchRule(id.clone())),
            };
            let rule = &self.rules[k];
            let passed = match rule.evaluate(&input) {
                Ok(b) => b,
                Err(e) => return Err(EvaluateRuleError::EvaluationError(id.clone(), e)),
            };
            let reason = EvaluationReason {
                rule: id.clone(),
                requirement: rule.message.clone(),
                evaluation: if passed {
                    EvaluationResult::Pass
                } else {
                    EvaluationResult::Fail
                },
            };
            let ghost done = reason_views(reasons@);
            reasons.push(reason);
            proof {
                assert(reason@ == reason_for(id@, self@[id@], passed));
                assert(reason_views(reasons@) =~= done.push(reason@));
                match batch(self@, names.skip(i + 1), input@) {
                    Ok(more) => {
                        assert(done + (seq![reason@] + more) =~= done.push(reason@) + more);
                    },
                    Err(_) => {},
                }
            }
            proof {
                let now = reason_views(reasons@);
                assert(now[i as int].evaluation == reason@.evaluation);
                assert forall|j: int| 0 <= j < i implies now[j] == done[j] by {}
                if !passed {
                    assert(now[i as int].evaluation != EvaluationResult::Pass);
                }
            }
            is_pass = is_pass && passed;
            i = i + 1;
        }
        proof {
            assert(names.skip(i as int) =~= Seq::<Seq<char>>::empty());
            assert(reason_views(reasons@) + Seq::<ReasonView>::empty() =~= reason_views(reasons@));
        }
        Ok(
            Evaluation {
                result: if is_pass {
                    EvaluationResult::Pass
                } else {
                    EvaluationResult::Fail
                },
                reasons,
            },
        )
    }
}

} // verus!
