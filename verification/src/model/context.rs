//! Choosing bars by context.
use std::collections::BTreeSet;

use vstd::prelude::*;

use crate::model::BarId;
use crate::text;
use crate::text::TextMap;

verus! {

/// What is known about a fact.
#[derive(Debug, PartialEq, Eq)]
pub enum ContextValue {
    Text(String),
    Boolean(bool),
}

impl Clone for ContextValue {
    fn clone(&self) -> (copy: Self)
        ensures
            copy == *self,
    {
        match self {
            ContextValue::Text(text) => ContextValue::Text(text.clone()),
            ContextValue::Boolean(value) => ContextValue::Boolean(*value),
        }
    }
}

/// The same text, or the same truth value.
pub open spec fn same_value(a: ContextValue, b: ContextValue) -> bool {
    match (a, b) {
        (ContextValue::Text(x), ContextValue::Text(y)) => x@ == y@,
        (ContextValue::Boolean(x), ContextValue::Boolean(y)) => x == y,
        _ => false,
    }
}

fn is_same_value(a: &ContextValue, b: &ContextValue) -> (r: bool)
    ensures
        r == same_value(*a, *b),
{
    match (a, b) {
        (ContextValue::Text(x), ContextValue::Text(y)) => text::same(x.as_str(), y.as_str()),
        (ContextValue::Boolean(x), ContextValue::Boolean(y)) => *x == *y,
        _ => false,
    }
}

/// What is known of the surroundings at one time.
#[derive(Clone, Debug, PartialEq, Eq)]
pub struct ContextSnapshot {
    pub generation: u64,
    pub facts: TextMap<String, ContextValue>,
}

impl Default for ContextSnapshot {
    fn default() -> (context: Self)
        ensures
            context.generation == 0,
            context.facts.wf(),
            context.facts.keys().len() == 0,
    {
        ContextSnapshot { generation: 0, facts: TextMap::new() }
    }
}

impl ContextSnapshot {
    pub open spec fn wf(self) -> bool {
        self.facts.wf()
    }

    /// Adds or replaces a fact that is a text.
    pub fn text(self, key: &str, value: &str) -> (context: Self)
        requires
            self.wf(),
        ensures
            context.wf(),
            context.generation == self.generation,
            context.facts.lookup(key@) matches Some(ContextValue::Text(v)) && v@ == value@,
            forall|other: Seq<char>|
                other != key@ ==> #[trigger] context.facts.lookup(other) == self.facts.lookup(
                    other,
                ),
    {
        let mut context: ContextSnapshot = self;
        let ghost before = context.facts;
        let fact: ContextValue = ContextValue::Text(value.to_owned());
        let ghost wanted = fact;
        context.facts.insert(key.to_owned(), fact);
        proof {
            text::lemma_insert_lookup(before, context.facts, key@, wanted);
        }
        context
    }

    /// Adds or replaces a fact that is a truth value.
    pub fn boolean(self, key: &str, value: bool) -> (context: Self)
        requires
            self.wf(),
        ensures
            context.wf(),
            context.generation == self.generation,
            context.facts.lookup(key@) == Some(ContextValue::Boolean(value)),
            forall|other: Seq<char>|
                other != key@ ==> #[trigger] context.facts.lookup(other) == self.facts.lookup(
                    other,
                ),
    {
        let mut context: ContextSnapshot = self;
        let ghost before = context.facts;
        let fact: ContextValue = ContextValue::Boolean(value);
        let ghost wanted = fact;
        context.facts.insert(key.to_owned(), fact);
        proof {
            text::lemma_insert_lookup(before, context.facts, key@, wanted);
        }
        context
    }
}

/// A condition on the surroundings.
#[derive(Debug, PartialEq, Eq)]
pub enum ContextPredicate {
    Always,
    Present(String),
    Equals(String, ContextValue),
    All(Vec<ContextPredicate>),
    Any(Vec<ContextPredicate>),
    Not(Box<ContextPredicate>),
}

impl ContextPredicate {
    /// The condition holds.
    pub open spec fn holds(self, context: ContextSnapshot) -> bool
        decreases self,
    {
        match self {
            ContextPredicate::Always => true,
            ContextPredicate::Present(key) => context.facts.has(key@),
            ContextPredicate::Equals(key, value) => match context.facts.lookup(key@) {
                Some(known) => same_value(known, value),
                None => false,
            },
            ContextPredicate::All(predicates) => forall|i: int|
                0 <= i < predicates@.len() ==> (#[trigger] predicates@[i]).holds(context),
            ContextPredicate::Any(predicates) => exists|i: int|
                0 <= i < predicates@.len() && (#[trigger] predicates@[i]).holds(context),
            ContextPredicate::Not(predicate) => !predicate.holds(context),
        }
    }

    pub fn matches(&self, context: &ContextSnapshot) -> (r: bool)
        requires
            context.wf(),
        ensures
            r == self.holds(*context),
        decreases self,
    {
        match self {
            ContextPredicate::Always => true,
            ContextPredicate::Present(key) => context.facts.contains(key.as_str()),
            ContextPredicate::Equals(key, value) => match context.facts.get(key.as_str()) {
                Some(known) => is_same_value(known, value),
                None => false,
            },
            ContextPredicate::All(predicates) => all_match(predicates, context),
            ContextPredicate::Any(predicates) => any_matches(predicates, context),
            ContextPredicate::Not(predicate) => !predicate.matches(context),
        }
    }
}

/// The conditions are the same, part by part.
pub open spec fn alike(left: ContextPredicate, right: ContextPredicate) -> bool
    decreases left,
{
    match (left, right) {
        (ContextPredicate::Always, ContextPredicate::Always) => true,
        (ContextPredicate::Present(left), ContextPredicate::Present(right)) => left@ == right@,
        (ContextPredicate::Equals(left, known), ContextPredicate::Equals(right, value)) => left@
            == right@ && known == value,
        (ContextPredicate::All(left), ContextPredicate::All(right)) => left@.len() == right@.len()
            && forall|i: int|
            #![trigger left@[i]]
            0 <= i < left@.len() ==> alike(left@[i], right@[i]),
        (ContextPredicate::Any(left), ContextPredicate::Any(right)) => left@.len() == right@.len()
            && forall|i: int|
            #![trigger left@[i]]
            0 <= i < left@.len() ==> alike(left@[i], right@[i]),
        (ContextPredicate::Not(left), ContextPredicate::Not(right)) => alike(*left, *right),
        _ => false,
    }
}

fn copy_predicates(predicates: &Vec<ContextPredicate>) -> (copy: Vec<ContextPredicate>)
    ensures
        copy@.len() == predicates@.len(),
        forall|i: int|
            #![trigger predicates@[i]]
            0 <= i < predicates@.len() ==> alike(predicates@[i], copy@[i]),
    decreases predicates,
{
    let mut copy: Vec<ContextPredicate> = Vec::new();
    let mut i: usize = 0;
    while i < predicates.len()
        invariant
            i <= predicates@.len(),
            copy@.len() == i,
            forall|k: int|
                #![trigger predicates@[k]]
                0 <= k < i ==> alike(predicates@[k], copy@[k]),
        decreases predicates@.len() - i,
    {
        copy.push(copy_predicate(&predicates[i]));
        i = i + 1;
    }
    copy
}

fn copy_predicate(predicate: &ContextPredicate) -> (copy: ContextPredicate)
    ensures
        alike(*predicate, copy),
    decreases predicate,
{
    match predicate {
        ContextPredicate::Always => ContextPredicate::Always,
        ContextPredicate::Present(key) => ContextPredicate::Present(key.clone()),
        ContextPredicate::Equals(key, value) => {
            ContextPredicate::Equals(key.clone(), value.clone())
        },
        ContextPredicate::All(parts) => ContextPredicate::All(copy_predicates(parts)),
        ContextPredicate::Any(parts) => ContextPredicate::Any(copy_predicates(parts)),
        ContextPredicate::Not(part) => ContextPredicate::Not(Box::new(copy_predicate(part))),
    }
}

impl Clone for ContextPredicate {
    fn clone(&self) -> (copy: Self)
        ensures
            alike(*self, copy),
    {
        copy_predicate(self)
    }
}

/// Conditions that are the same hold in the same contexts.
pub proof fn alike_conditions_hold_alike(
    left: ContextPredicate,
    right: ContextPredicate,
    context: ContextSnapshot,
)
    requires
        alike(left, right),
    ensures
        left.holds(context) == right.holds(context),
    decreases left,
{
    match (left, right) {
        (ContextPredicate::All(ls), ContextPredicate::All(rs)) => {
            assert forall|i: int|
                #![trigger ls@[i]]
                #![trigger rs@[i]]
                0 <= i < ls@.len() implies ls@[i].holds(context) == rs@[i].holds(context) by {
                alike_conditions_hold_alike(ls@[i], rs@[i], context);
            }
        },
        (ContextPredicate::Any(ls), ContextPredicate::Any(rs)) => {
            assert forall|i: int|
                #![trigger ls@[i]]
                #![trigger rs@[i]]
                0 <= i < ls@.len() implies ls@[i].holds(context) == rs@[i].holds(context) by {
                alike_conditions_hold_alike(ls@[i], rs@[i], context);
            }
        },
        (ContextPredicate::Not(l), ContextPredicate::Not(r)) => {
            alike_conditions_hold_alike(*l, *r, context);
        },
        _ => {},
    }
}

fn all_match(predicates: &Vec<ContextPredicate>, context: &ContextSnapshot) -> (r: bool)
    requires
        context.wf(),
    ensures
        r == forall|i: int|
            0 <= i < predicates@.len() ==> (#[trigger] predicates@[i]).holds(*context),
    decreases predicates,
{
    let mut i: usize = 0;
    while i < predicates.len()
        invariant
            context.wf(),
            i <= predicates@.len(),
            forall|k: int| 0 <= k < i ==> (#[trigger] predicates@[k]).holds(*context),
        decreases predicates@.len() - i,
    {
        if !predicates[i].matches(context) {
            return false;
        }
        i = i + 1;
    }
    true
}

fn any_matches(predicates: &Vec<ContextPredicate>, context: &ContextSnapshot) -> (r: bool)
    requires
        context.wf(),
    ensures
        r == exists|i: int|
            0 <= i < predicates@.len() && (#[trigger] predicates@[i]).holds(*context),
    decreases predicates,
{
    let mut i: usize = 0;
    while i < predicates.len()
        invariant
            context.wf(),
            i <= predicates@.len(),
            forall|k: int| 0 <= k < i ==> !(#[trigger] predicates@[k]).holds(*context),
        decreases predicates@.len() - i,
    {
        if predicates[i].matches(context) {
            return true;
        }
        i = i + 1;
    }
    false
}

/// How specific a rule is.
#[derive(Clone, Copy, Debug, PartialEq, Eq, PartialOrd, Ord, Structural)]
pub enum ContextScope {
    Global,
    Workspace,
    Application,
    Window,
}

/// A bar for a condition.
#[derive(Clone, Debug, PartialEq, Eq)]
pub struct ContextRule {
    pub bar: BarId,
    pub scope: ContextScope,
    pub priority: i32,
    pub predicate: ContextPredicate,
}

/// The rules by which bars are chosen.
#[derive(Clone, Debug, PartialEq, Eq)]
pub struct ContextSelector {
    pub fallback: BarId,
    pub rules: Vec<ContextRule>,
}

/// The rule is for the scope and its condition holds.
pub open spec fn applies(rule: ContextRule, context: ContextSnapshot, scope: ContextScope) -> bool {
    rule.scope == scope && rule.predicate.holds(context)
}

/// Among the first `n` rules, the applying one of the highest priority; the
/// earliest of several.
pub open spec fn winner(
    rules: Seq<ContextRule>,
    context: ContextSnapshot,
    scope: ContextScope,
    n: int,
) -> Option<int>
    decreases n,
{
    if n <= 0 {
        None
    } else {
        let best = winner(rules, context, scope, n - 1);
        if applies(rules[n - 1], context, scope) && (best is None || rules[n - 1].priority
            > rules[best->Some_0].priority) {
            Some(n - 1)
        } else {
            best
        }
    }
}

/// The bar of a scope, if there is one.
pub open spec fn chosen(
    rules: Seq<ContextRule>,
    context: ContextSnapshot,
    scope: ContextScope,
) -> Seq<
    BarId,
> {
    match winner(rules, context, scope, rules.len() as int) {
        Some(i) => seq![rules[i].bar],
        None => Seq::empty(),
    }
}

/// The bars of all scopes, from the most specific to the least.
pub open spec fn chosen_chain(rules: Seq<ContextRule>, context: ContextSnapshot) -> Seq<BarId> {
    chosen(rules, context, ContextScope::Window) + chosen(
        rules,
        context,
        ContextScope::Application,
    ) + chosen(rules, context, ContextScope::Workspace) + chosen(
        rules,
        context,
        ContextScope::Global,
    )
}

/// The bar is in the chain.
pub open spec fn names(chain: Seq<BarId>, bar: Seq<char>) -> bool {
    exists|i: int| 0 <= i < chain.len() && (#[trigger] chain[i])@ == bar
}

impl ContextSelector {
    /// The bars for a context: the chosen ones, and the fallback unless it is
    /// among them.
    pub open spec fn chain(self, context: ContextSnapshot) -> Seq<BarId> {
        let chain = chosen_chain(self.rules@, context);
        if names(chain, self.fallback@) {
            chain
        } else {
            chain.push(self.fallback)
        }
    }

    fn best(&self, context: &ContextSnapshot, scope: ContextScope) -> (best: Option<usize>)
        requires
            context.wf(),
        ensures
            winner(self.rules@, *context, scope, self.rules@.len() as int) == (match best {
                Some(i) => Some(i as int),
                None => None,
            }),
            best matches Some(i) ==> i < self.rules@.len(),
    {
        let mut best: Option<usize> = None;
        let mut i: usize = 0;
        while i < self.rules.len()
            invariant
                context.wf(),
                i <= self.rules@.len(),
                winner(self.rules@, *context, scope, i as int) == (match best {
                    Some(k) => Some(k as int),
                    None => None,
                }),
                best matches Some(k) ==> k < i,
            decreases self.rules@.len() - i,
        {
            let rule: &ContextRule = &self.rules[i];
            if rule.scope == scope && rule.predicate.matches(context) {
                let better: bool = match best {
                    Some(k) => rule.priority > self.rules[k].priority,
                    None => true,
                };
                if better {
                    best = Some(i);
                }
            }
            i = i + 1;
        }
        best
    }

    fn choose_into(&self, context: &ContextSnapshot, scope: ContextScope, chain: &mut Vec<BarId>)
        requires
            context.wf(),
        ensures
            final(chain)@ == old(chain)@ + chosen(self.rules@, *context, scope),
    {
        match self.best(context, scope) {
            Some(i) => {
                chain.push(self.rules[i].bar.clone());
                proof {
                    assert(chain@ =~= old(chain)@ + seq![self.rules@[i as int].bar]);
                }
            },
            None => {
                proof {
                    assert(chain@ =~= old(chain)@ + Seq::<BarId>::empty());
                }
            },
        }
    }

    /// Select at most one bar per scope, ordered most-specific to
    /// least-specific. Earlier rules win equal-priority ties, keeping replay
    /// deterministic.
    pub fn select_chain(&self, context: &ContextSnapshot) -> (chain: Vec<BarId>)
        requires
            context.wf(),
        ensures
            chain@ == self.chain(*context),
    {
        let mut chain: Vec<BarId> = Vec::new();
        self.choose_into(context, ContextScope::Window, &mut chain);
        self.choose_into(context, ContextScope::Application, &mut chain);
        self.choose_into(context, ContextScope::Workspace, &mut chain);
        self.choose_into(context, ContextScope::Global, &mut chain);
        proof {
            assert(chain@ =~= chosen_chain(self.rules@, *context));
        }
        let mut found: bool = false;
        let mut i: usize = 0;
        while i < chain.len()
            invariant
                i <= chain@.len(),
                found == exists|k: int|
                    0 <= k < i && (#[trigger] chain@[k])@ == self.fallback@,
            decreases chain@.len() - i,
        {
            if text::same(chain[i].as_str(), self.fallback.as_str()) {
                found = true;
            }
            i = i + 1;
        }
        if !found {
            chain.push(self.fallback.clone());
        }
        chain
    }
}

/// The winning rule of a scope applies, and no applying rule of the scope has
/// a higher priority, nor the same one and an earlier place.
pub proof fn the_best_rule_wins(
    rules: Seq<ContextRule>,
    context: ContextSnapshot,
    scope: ContextScope,
    n: int,
)
    requires
        0 <= n <= rules.len(),
    ensures
        match winner(rules, context, scope, n) {
            Some(i) => {
                &&& 0 <= i < n
                &&& applies(rules[i], context, scope)
                &&& forall|j: int|
                    0 <= j < n && #[trigger] applies(rules[j], context, scope) ==> rules[j].priority
                        < rules[i].priority || (rules[j].priority == rules[i].priority && i <= j)
            },
            None => forall|j: int|
                0 <= j < n ==> !#[trigger] applies(rules[j], context, scope),
        },
    decreases n,
{
    if n > 0 {
        the_best_rule_wins(rules, context, scope, n - 1);
    }
}

/// A chain is never empty, and always names the fallback.
pub proof fn the_fallback_is_always_there(selector: ContextSelector, context: ContextSnapshot)
    ensures
        names(selector.chain(context), selector.fallback@),
        selector.chain(context).len() <= 5,
{
    let chain = chosen_chain(selector.rules@, context);
    if !names(chain, selector.fallback@) {
        assert(selector.chain(context)[chain.len() as int]@ == selector.fallback@);
    }
}

/// The scope is at least as specific as another one: windows are more specific
/// than applications, these than workspaces, and these than everything.
pub open spec fn at_least_as_specific(left: ContextScope, right: ContextScope) -> bool {
    ||| left == right
    ||| left is Window
    ||| right is Global
    ||| left is Application && right is Workspace
}

/// The condition of the rule with the given number holds, and so does that of no
/// rule of its scope with a higher priority, nor of an earlier one with the same.
pub open spec fn leads(rules: Seq<ContextRule>, context: ContextSnapshot, i: int) -> bool {
    &&& 0 <= i < rules.len()
    &&& rules[i].predicate.holds(context)
    &&& forall|j: int|
        #![trigger rules[j]]
        0 <= j < rules.len() && rules[j].scope == rules[i].scope && rules[j].predicate.holds(
            context,
        ) ==> rules[j].priority < rules[i].priority || (rules[j].priority == rules[i].priority && i
            <= j)
}

proof fn lemma_leads(rules: Seq<ContextRule>, context: ContextSnapshot, scope: ContextScope)
    ensures
        match winner(rules, context, scope, rules.len() as int) {
            Some(w) => leads(rules, context, w) && rules[w].scope == scope && forall|i: int|
                #[trigger] leads(rules, context, i) && rules[i].scope == scope ==> i == w,
            None => forall|i: int|
                #[trigger] leads(rules, context, i) ==> rules[i].scope != scope,
        },
{
    the_best_rule_wins(rules, context, scope, rules.len() as int);
    match winner(rules, context, scope, rules.len() as int) {
        Some(w) => {
            assert(applies(rules[w], context, scope));
            assert forall|j: int|
                #![trigger rules[j]]
                0 <= j < rules.len() && rules[j].scope == rules[w].scope
                    && rules[j].predicate.holds(context) implies rules[j].priority
                < rules[w].priority || (rules[j].priority == rules[w].priority && w <= j) by {
                assert(applies(rules[j], context, scope));
            }
            assert forall|i: int| #[trigger]
                leads(rules, context, i) && rules[i].scope == scope implies i == w by {
                assert(applies(rules[i], context, scope));
                assert(rules[w].scope == rules[i].scope);
            }
        },
        None => {
            assert forall|i: int| #[trigger] leads(rules, context, i) implies rules[i].scope
                != scope by {
                assert(!applies(rules[i], context, scope));
            }
        },
    }
}

/// The bars with the given numbers are those of the rules that lead, each once, from
/// the most specific scope to the least.
pub open spec fn led_by(
    rules: Seq<ContextRule>,
    context: ContextSnapshot,
    bars: Seq<BarId>,
    numbers: Seq<int>,
) -> bool {
    &&& numbers.len() == bars.len()
    &&& forall|j: int|
        0 <= j < numbers.len() ==> leads(rules, context, #[trigger] numbers[j]) && bars[j]
            == rules[numbers[j]].bar
    &&& forall|i: int| #[trigger] leads(rules, context, i) ==> numbers.contains(i)
    &&& forall|j: int, k: int|
        #![trigger numbers[j], numbers[k]]
        0 <= j < k < numbers.len() ==> !at_least_as_specific(
            rules[numbers[k]].scope,
            rules[numbers[j]].scope,
        )
}

spec fn seated(rules: Seq<ContextRule>, context: ContextSnapshot, scope: ContextScope) -> Seq<int> {
    match winner(rules, context, scope, rules.len() as int) {
        Some(i) => seq![i],
        None => Seq::empty(),
    }
}

proof fn lemma_led_by(rules: Seq<ContextRule>, context: ContextSnapshot) -> (numbers: Seq<int>)
    ensures
        led_by(rules, context, chosen_chain(rules, context), numbers),
{
    let a = seated(rules, context, ContextScope::Window);
    let b = seated(rules, context, ContextScope::Application);
    let c = seated(rules, context, ContextScope::Workspace);
    let d = seated(rules, context, ContextScope::Global);
    lemma_leads(rules, context, ContextScope::Window);
    lemma_leads(rules, context, ContextScope::Application);
    lemma_leads(rules, context, ContextScope::Workspace);
    lemma_leads(rules, context, ContextScope::Global);
    let numbers = a + b + c + d;
    assert forall|i: int| #[trigger] leads(rules, context, i) implies numbers.contains(i) by {
        let at: nat = match rules[i].scope {
            ContextScope::Window => 0,
            ContextScope::Application => a.len(),
            ContextScope::Workspace => a.len() + b.len(),
            ContextScope::Global => a.len() + b.len() + c.len(),
        };
        assert(numbers[at as int] == i);
    }
    numbers
}

/// Every scope with a rule whose condition holds has a bar in the chain: that of
/// the rule with the highest priority, the earliest of several. The bars of
/// windows stand before those of applications, these before those of workspaces,
/// and these before those of everything. The fallback ends the chain unless it is
/// one of these bars already.
pub proof fn chains_hold_the_best_rule_of_every_scope(
    selector: ContextSelector,
    context: ContextSnapshot,
)
    ensures
        exists|bars: Seq<BarId>, numbers: Seq<int>|
            {
                &&& #[trigger] led_by(selector.rules@, context, bars, numbers)
                &&& selector.chain(context) == if exists|j: int|
                    0 <= j < bars.len() && (#[trigger] bars[j])@ == selector.fallback@ {
                    bars
                } else {
                    bars.push(selector.fallback)
                }
            },
        forall|i: int| #[trigger]
            leads(selector.rules@, context, i) ==> selector.chain(context).contains(
                selector.rules@[i].bar,
            ),
{
    let rules = selector.rules@;
    let bars = chosen_chain(rules, context);
    let numbers = lemma_led_by(rules, context);
    let chain = selector.chain(context);
    assert(led_by(rules, context, bars, numbers));
    assert(names(bars, selector.fallback@) == exists|j: int|
        0 <= j < bars.len() && (#[trigger] bars[j])@ == selector.fallback@);
    assert forall|i: int| #[trigger] leads(rules, context, i) implies chain.contains(
        rules[i].bar,
    ) by {
        assert(numbers.contains(i));
        let j = choose|j: int| 0 <= j < numbers.len() && numbers[j] == i;
        assert(leads(rules, context, numbers[j]));
        assert(chain[j] == rules[i].bar);
    }
}

/// A condition and its opposite never hold together, and one of the two does. All
/// of several conditions hold where none of their opposites does, and any of them
/// where not all of their opposites do. All of no conditions hold, and none of
/// them does. What equals a value is present.
pub proof fn conditions_obey_logic(
    context: ContextSnapshot,
    part: ContextPredicate,
    opposite: ContextPredicate,
    all: ContextPredicate,
    any: ContextPredicate,
    parts: Vec<ContextPredicate>,
    equal: ContextPredicate,
    key: String,
    value: ContextValue,
)
    requires
        context.wf(),
        opposite == ContextPredicate::Not(Box::new(part)),
        all == ContextPredicate::All(parts),
        any == ContextPredicate::Any(parts),
        equal == ContextPredicate::Equals(key, value),
    ensures
        ContextPredicate::Always.holds(context),
        opposite.holds(context) != part.holds(context),
        all.holds(context) && parts@.contains(part) ==> part.holds(context),
        !all.holds(context) ==> exists|i: int|
            0 <= i < parts@.len() && !(#[trigger] parts@[i]).holds(context),
        part.holds(context) && parts@.contains(part) ==> any.holds(context),
        any.holds(context) ==> exists|i: int|
            0 <= i < parts@.len() && (#[trigger] parts@[i]).holds(context),
        parts@.len() == 0 ==> all.holds(context) && !any.holds(context),
        parts@.len() > 0 && all.holds(context) ==> any.holds(context),
        equal.holds(context) ==> ContextPredicate::Present(key).holds(context),
        ContextPredicate::Present(key).holds(context) == context.facts.keys().contains(key@),
        forall|i: int|
            0 <= i < context.facts.keys().len() && #[trigger] context.facts.keys()[i] == key@
                ==> equal.holds(context) == match (context.facts.values()[i], value) {
                (ContextValue::Text(known), ContextValue::Text(wanted)) => known@ == wanted@,
                (ContextValue::Boolean(known), ContextValue::Boolean(wanted)) => known == wanted,
                _ => false,
            },
{
    text::maps_hold_one_value_for_a_text(context.facts);
    if let ContextPredicate::All(each) = all {
        if all.holds(context) {
            assert forall|i: int| 0 <= i < parts@.len() implies (#[trigger] parts@[i]).holds(
                context,
            ) by {
                assert(each@[i].holds(context));
            }
        }
    }
    if let ContextPredicate::Any(each) = any {
        if part.holds(context) && parts@.contains(part) {
            let i = choose|i: int| 0 <= i < parts@.len() && parts@[i] == part;
            assert(each@[i].holds(context));
        }
        if parts@.len() > 0 && all.holds(context) {
            assert(parts@[0].holds(context));
            assert(each@[0].holds(context));
        }
    }
}

/// Bars that are shown together.
#[derive(Clone, Debug, PartialEq, Eq)]
pub struct CompositionSnapshot {
    pub generation: u64,
    pub context_generation: u64,
    pub active_bars: Vec<BarId>,
}

/// The same in mathematical terms.
#[verifier::ext_equal]
pub struct Composition {
    pub generation: u64,
    pub context_generation: u64,
    pub active_bars: Seq<BarId>,
}

impl View for CompositionSnapshot {
    type V = Composition;

    open spec fn view(&self) -> Composition {
        Composition {
            generation: self.generation,
            context_generation: self.context_generation,
            active_bars: self.active_bars@,
        }
    }
}

/// The bars that are shown, and those that will be once no finger is down.
pub struct TransactionalContext {
    selector: ContextSelector,
    current: CompositionSnapshot,
    pending: Option<CompositionSnapshot>,
    captured_contacts: BTreeSet<u32>,
    next_generation: u64,
}

/// The generation after another one; zero is never one.
pub open spec fn generation_after(generation: u64) -> u64 {
    if generation == u64::MAX {
        1
    } else {
        (generation + 1) as u64
    }
}

impl TransactionalContext {
    pub closed spec fn rules(self) -> ContextSelector {
        self.selector
    }

    /// What is shown.
    pub closed spec fn shown(self) -> Composition {
        self.current@
    }

    /// What waits to be shown.
    pub closed spec fn waiting(self) -> Option<Composition> {
        match self.pending {
            Some(pending) => Some(pending@),
            None => None,
        }
    }

    /// The contacts that are down.
    pub closed spec fn contacts(self) -> Set<u32> {
        self.captured_contacts@
    }

    /// The generation of the next candidate.
    pub closed spec fn upcoming(self) -> u64 {
        self.next_generation
    }

    /// Something waits only while a contact is down.
    pub open spec fn wf(self) -> bool {
        self.contacts() == Set::<u32>::empty() ==> self.waiting() is None
    }

    /// What a context calls for.
    pub open spec fn candidate(self, context: ContextSnapshot) -> Composition {
        Composition {
            generation: self.upcoming(),
            context_generation: context.generation,
            active_bars: self.rules().chain(context),
        }
    }

    pub fn new(selector: ContextSelector, initial: &ContextSnapshot) -> (context: Self)
        requires
            initial.wf(),
        ensures
            context.wf(),
            context.rules() == selector,
            context.shown() == (Composition {
                generation: 1,
                context_generation: initial.generation,
                active_bars: selector.chain(*initial),
            }),
            context.waiting() is None,
            context.contacts() == Set::<u32>::empty(),
            context.upcoming() == 2,
    {
        let current: CompositionSnapshot = CompositionSnapshot {
            generation: 1,
            context_generation: initial.generation,
            active_bars: selector.select_chain(initial),
        };
        TransactionalContext {
            selector,
            current,
            pending: None,
            captured_contacts: BTreeSet::new(),
            next_generation: 2,
        }
    }

    pub fn current(&self) -> (current: &CompositionSnapshot)
        ensures
            current@ == self.shown(),
    {
        &self.current
    }

    /// Prepare the newest context atomically. While a gesture is captured the
    /// newest candidate replaces any older pending candidate but is not shown.
    pub fn update(&mut self, context: &ContextSnapshot) -> (committed: Option<&CompositionSnapshot>)
        requires
            old(self).wf(),
            context.wf(),
        ensures
            final(self).wf(),
            final(self).rules() == old(self).rules(),
            final(self).contacts() == old(self).contacts(),
            final(self).upcoming() == generation_after(old(self).upcoming()),
            if old(self).contacts() == Set::<u32>::empty() {
                &&& final(self).shown() == old(self).candidate(*context)
                &&& final(self).waiting() is None
                &&& committed matches Some(c) && c@ == final(self).shown()
            } else {
                &&& final(self).shown() == old(self).shown()
                &&& final(self).waiting() == Some(old(self).candidate(*context))
                &&& committed is None
            },
    {
        let candidate: CompositionSnapshot = CompositionSnapshot {
            generation: self.next_generation,
            context_generation: context.generation,
            active_bars: self.selector.select_chain(context),
        };
        self.next_generation = if self.next_generation == u64::MAX {
            1
        } else {
            self.next_generation + 1
        };
        if self.captured_contacts.is_empty() {
            self.current = candidate;
            Some(&self.current)
        } else {
            self.pending = Some(candidate);
            None
        }
    }

    pub fn capture_started(&mut self, contact_id: u32)
        requires
            old(self).wf(),
        ensures
            final(self).wf(),
            final(self).rules() == old(self).rules(),
            final(self).shown() == old(self).shown(),
            final(self).waiting() == old(self).waiting(),
            final(self).upcoming() == old(self).upcoming(),
            final(self).contacts() == old(self).contacts().insert(contact_id),
    {
        self.captured_contacts.insert(contact_id);
        proof {
            assert(self.contacts().contains(contact_id));
        }
    }

    /// Shows what waits once the last contact is up.
    pub fn capture_ended(&mut self, contact_id: u32) -> (committed: Option<&CompositionSnapshot>)
        requires
            old(self).wf(),
        ensures
            final(self).wf(),
            final(self).rules() == old(self).rules(),
            final(self).upcoming() == old(self).upcoming(),
            final(self).contacts() == old(self).contacts().remove(contact_id),
            if final(self).contacts() == Set::<u32>::empty() && old(self).waiting() is Some {
                &&& final(self).shown() == old(self).waiting()->Some_0
                &&& final(self).waiting() is None
                &&& committed matches Some(c) && c@ == final(self).shown()
            } else {
                &&& final(self).shown() == old(self).shown()
                &&& final(self).waiting() == old(self).waiting()
                &&& committed is None
            },
    {
        self.captured_contacts.remove(&contact_id);
        if self.captured_contacts.is_empty() {
            if let Some(pending) = self.pending.take() {
                self.current = pending;
                return Some(&self.current);
            }
        }
        None
    }
}

} // verus!
