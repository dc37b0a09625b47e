//! Which contributions a slot shows, and which profile a context calls for.
use vstd::prelude::*;

use crate::model::context::{self, ContextPredicate, ContextScope, ContextSnapshot};
use crate::model::ids::{ContributionId, ProfileId};
use crate::model::profiles::{
    ContributionBinding, ContributionDefinition, ProfileCatalog, SlotDefinition, SlotPolicy,
};
use crate::text::TextMap;

verus! {

/// Where a binding of the given order goes among bindings that are in order:
/// after all of the same or a lower order.
pub open spec fn place_for(bindings: Seq<ContributionBinding>, ranked: Seq<int>, order: i32) -> int
    decreases ranked.len(),
{
    if ranked.len() == 0 {
        0
    } else if bindings[ranked.last()].order > order {
        place_for(bindings, ranked.drop_last(), order)
    } else {
        ranked.len() as int
    }
}

/// The first `n` bindings by their order, and by their place among equals.
pub open spec fn ranking(bindings: Seq<ContributionBinding>, n: int) -> Seq<int>
    decreases n,
{
    if n <= 0 {
        Seq::empty()
    } else {
        let before = ranking(bindings, n - 1);
        before.insert(place_for(bindings, before, bindings[n - 1].order), n - 1)
    }
}

/// The binding is of a known contribution, and the slot shows it in the
/// context.
pub open spec fn eligible(
    contributions: TextMap<ContributionId, ContributionDefinition>,
    policy: SlotPolicy,
    binding: ContributionBinding,
    context: ContextSnapshot,
) -> bool {
    contributions.lookup(binding.contribution@) matches Some(known) && (policy == SlotPolicy::Fixed
        || known.predicate.holds(context))
}

/// The contributions of the first `n` ranked bindings that are shown.
pub open spec fn candidates(
    contributions: TextMap<ContributionId, ContributionDefinition>,
    slot: SlotDefinition,
    context: ContextSnapshot,
    n: int,
) -> Seq<ContributionDefinition>
    decreases n,
{
    if n <= 0 {
        Seq::empty()
    } else {
        let before = candidates(contributions, slot, context, n - 1);
        let i = ranking(slot.bindings@, slot.bindings@.len() as int)[n - 1];
        let binding = slot.bindings@[i];
        if eligible(contributions, slot.policy, binding, context) {
            before.push(contributions.lookup(binding.contribution@)->Some_0)
        } else {
            before
        }
    }
}

/// How specific a scope is.
pub open spec fn specificity(scope: ContextScope) -> int {
    match scope {
        ContextScope::Global => 0,
        ContextScope::Workspace => 1,
        ContextScope::Application => 2,
        ContextScope::Window => 3,
    }
}

/// The contribution has the higher priority, or the same one and the more
/// specific scope.
pub open spec fn preferred(a: ContributionDefinition, b: ContributionDefinition) -> bool {
    a.priority > b.priority || (a.priority == b.priority && specificity(a.scope) > specificity(
        b.scope,
    ))
}

/// The first of the first `n` that no other one is preferred to.
pub open spec fn favourite(all: Seq<ContributionDefinition>, n: int) -> Option<int>
    decreases n,
{
    if n <= 0 {
        None
    } else {
        match favourite(all, n - 1) {
            None => Some(n - 1),
            Some(best) => if preferred(all[n - 1], all[best]) {
                Some(n - 1)
            } else {
                Some(best)
            },
        }
    }
}

/// The contributions that a slot shows in a context.
pub open spec fn selection(
    contributions: TextMap<ContributionId, ContributionDefinition>,
    slot: SlotDefinition,
    context: ContextSnapshot,
) -> Seq<ContributionDefinition> {
    let all = candidates(contributions, slot, context, slot.bindings@.len() as int);
    if slot.policy != SlotPolicy::Select {
        all
    } else {
        match favourite(all, all.len() as int) {
            Some(best) => seq![all[best]],
            None => Seq::empty(),
        }
    }
}

proof fn lemma_place_for(bindings: Seq<ContributionBinding>, ranked: Seq<int>, order: i32)
    ensures
        0 <= place_for(bindings, ranked, order) <= ranked.len(),
        forall|i: int|
            place_for(
                bindings,
                ranked,
                order,
            ) <= i < ranked.len() ==> bindings[#[trigger] ranked[i]].order
                > order,
        place_for(bindings, ranked, order) > 0 ==> bindings[ranked[place_for(
            bindings,
            ranked,
            order,
        ) - 1]].order <= order,
    decreases ranked.len(),
{
    if ranked.len() > 0 {
        lemma_place_for(bindings, ranked.drop_last(), order);
        if bindings[ranked.last()].order > order {
            let p = place_for(bindings, ranked, order);
            assert forall|i: int| p <= i < ranked.len() implies bindings[#[trigger] ranked[i]].order
                > order by {
                if i < ranked.len() - 1 {
                    assert(ranked[i] == ranked.drop_last()[i]);
                }
            }
        }
    }
}

/// A ranking holds every binding once, by order and then by place.
pub proof fn bindings_stand_in_user_order(bindings: Seq<ContributionBinding>, n: int)
    requires
        0 <= n <= bindings.len(),
    ensures
        ranking(bindings, n).len() == n,
        forall|i: int| 0 <= i < n ==> 0 <= #[trigger] ranking(bindings, n)[i] < n,
        forall|i: int, j: int|
            0 <= i < j < n ==> {
                let a = #[trigger] ranking(bindings, n)[i];
                let b = #[trigger] ranking(bindings, n)[j];
                bindings[a].order < bindings[b].order
                    || (bindings[a].order == bindings[b].order && a
                    < b)
            },
        forall|k: int| 0 <= k < n ==> #[trigger] ranking(bindings, n).contains(k),
    decreases n,
{
    if n > 0 {
        bindings_stand_in_user_order(bindings, n - 1);
        let before = ranking(bindings, n - 1);
        let order = bindings[n - 1].order;
        let p = place_for(bindings, before, order);
        lemma_place_for(bindings, before, order);
        let after = ranking(bindings, n);
        assert forall|i: int, j: int| 0 <= i < j < n implies {
            let a = #[trigger] after[i];
            let b = #[trigger] after[j];
            bindings[a].order < bindings[b].order || (bindings[a].order == bindings[b].order && a
                < b)
        } by {
            if i < p {
                assert(after[i] == before[i]);
                assert(bindings[before[i]].order <= bindings[before[p - 1]].order);
            } else if i > p {
                assert(after[i] == before[i - 1]);
            }
            if j < p {
                assert(after[j] == before[j]);
            } else if j > p {
                assert(after[j] == before[j - 1]);
            }
        }
        assert forall|i: int| 0 <= i < n implies 0 <= #[trigger] after[i] < n by {
            if i < p {
                assert(after[i] == before[i]);
            } else if i > p {
                assert(after[i] == before[i - 1]);
            }
        }
        assert forall|k: int| 0 <= k < n implies #[trigger] after.contains(k) by {
            if k == n - 1 {
                assert(after[p] == k);
            } else {
                assert(before.contains(k));
                let i = choose|i: int| 0 <= i < before.len() && before[i] == k;
                if i < p {
                    assert(after[i] == k);
                } else {
                    assert(after[i + 1] == k);
                }
            }
        }
    }
}

/// No candidate is preferred to the favourite, and none before it is its
/// equal.
pub proof fn the_favourite_is_best(all: Seq<ContributionDefinition>, n: int)
    requires
        0 <= n <= all.len(),
    ensures
        match favourite(all, n) {
            Some(best) => {
                &&& 0 <= best < n
                &&& forall|i: int| 0 <= i < n ==> !preferred(#[trigger] all[i], all[best])
                &&& forall|i: int| 0 <= i < best ==> preferred(all[best], #[trigger] all[i])
            },
            None => n == 0,
        },
    decreases n,
{
    if n > 0 {
        the_favourite_is_best(all, n - 1);
    }
}

spec fn as_ints(ranked: Seq<usize>) -> Seq<int> {
    Seq::new(ranked.len(), |i: int| ranked[i] as int)
}

fn rank_bindings(bindings: &Vec<ContributionBinding>) -> (ranked: Vec<usize>)
    ensures
        as_ints(ranked@) == ranking(bindings@, bindings@.len() as int),
        ranked@.len() == bindings@.len(),
        forall|i: int| 0 <= i < ranked@.len() ==> #[trigger] ranked@[i] < bindings@.len(),
{
    let mut ranked: Vec<usize> = Vec::new();
    let mut n: usize = 0;
    proof {
        assert(as_ints(ranked@) =~= Seq::empty());
    }
    while n < bindings.len()
        invariant
            n <= bindings@.len(),
            ranked@.len() == n,
            as_ints(ranked@) == ranking(bindings@, n as int),
            forall|i: int| 0 <= i < n ==> #[trigger] ranked@[i] < n,
        decreases bindings@.len() - n,
    {
        let ghost before = as_ints(ranked@);
        let order: i32 = bindings[n].order;
        let mut p: usize = n;
        proof {
            assert(before.subrange(0, n as int) =~= before);
        }
        while p > 0 && bindings[ranked[p - 1]].order > order
            invariant
                p <= n < bindings@.len(),
                ranked@.len() == n,
                before == as_ints(ranked@),
                order == bindings@[n as int].order,
                forall|i: int| 0 <= i < n ==> #[trigger] ranked@[i] < n,
                place_for(bindings@, before, order) == place_for(
                    bindings@,
                    before.subrange(0, p as int),
                    order,
                ),
            decreases p,
        {
            proof {
                assert(before.subrange(0, p as int).drop_last() =~= before.subrange(0, p - 1));
            }
            p = p - 1;
        }
        let ghost old_ranked = ranked@;
        ranked.insert(p, n);
        proof {
            assert(as_ints(ranked@) =~= before.insert(p as int, n as int));
            assert forall|i: int| 0 <= i < n + 1 implies #[trigger] ranked@[i] < n + 1 by {
                if i < p {
                    assert(ranked@[i] == old_ranked[i]);
                } else if i > p {
                    assert(ranked@[i] == old_ranked[i - 1]);
                }
            }
        }
        n = n + 1;
    }
    ranked
}

/// The contributions that references point to.
pub open spec fn pointed(all: Seq<&ContributionDefinition>) -> Seq<ContributionDefinition> {
    Seq::new(all.len(), |i: int| *all[i])
}

fn scope_rank(scope: ContextScope) -> (r: u8)
    ensures
        r == specificity(scope),
{
    match scope {
        ContextScope::Global => 0,
        ContextScope::Workspace => 1,
        ContextScope::Application => 2,
        ContextScope::Window => 3,
    }
}

fn is_preferred(a: &ContributionDefinition, b: &ContributionDefinition) -> (r: bool)
    ensures
        r == preferred(*a, *b),
{
    a.priority > b.priority || (a.priority == b.priority && scope_rank(a.scope) > scope_rank(
        b.scope,
    ))
}

impl ProfileCatalog {
    /// The contributions that a slot shows in a context.
    pub fn select_bindings(&self, slot: &SlotDefinition, context: &ContextSnapshot) -> (selected:
        Vec<&ContributionDefinition>)
        requires
            self.wf(),
            context.wf(),
        ensures
            pointed(selected@) == selection(self.contribution_map(), *slot, *context),
    {
        let ghost bindings = slot.bindings@;
        let ghost n = bindings.len() as int;
        let ranked: Vec<usize> = rank_bindings(&slot.bindings);
        let mut all: Vec<&ContributionDefinition> = Vec::new();
        let mut i: usize = 0;
        proof {
            assert(pointed(all@) =~= Seq::empty());
        }
        while i < ranked.len()
            invariant
                self.wf(),
                context.wf(),
                bindings == slot.bindings@,
                n == bindings.len(),
                ranked@.len() == n,
                as_ints(ranked@) == ranking(bindings, n),
                forall|k: int| 0 <= k < ranked@.len() ==> #[trigger] ranked@[k] < n,
                i <= n,
                pointed(all@) == candidates(
                    self.contribution_map(),
                    *slot,
                    *context,
                    i as int,
                ),
            decreases n - i,
        {
            let at: usize = ranked[i];
            proof {
                assert(as_ints(ranked@)[i as int] == at);
            }
            let binding: &ContributionBinding = &slot.bindings[at];
            if let Some(contribution) = self.contribution(&binding.contribution) {
                if slot.policy == SlotPolicy::Fixed || contribution.predicate.matches(context) {
                    let ghost before = all@;
                    all.push(contribution);
                    proof {
                        assert(pointed(all@) =~= pointed(before).push(*contribution));
                    }
                }
            }
            i = i + 1;
        }
        if slot.policy != SlotPolicy::Select {
            return all;
        }
        let ghost found = pointed(all@);
        let mut best: usize = 0;
        let mut k: usize = 0;
        while k < all.len()
            invariant
                found == pointed(all@),
                k <= all@.len(),
                k > 0 ==> best < k,
                match favourite(found, k as int) {
                    Some(b) => b == best,
                    None => k == 0,
                },
            decreases all@.len() - k,
        {
            proof {
                assert(found[k as int] == *all@[k as int]);
                if k > 0 {
                    assert(found[best as int] == *all@[best as int]);
                }
            }
            if k == 0 || is_preferred(all[k], all[best]) {
                best = k;
            }
            k = k + 1;
        }
        let mut selected: Vec<&ContributionDefinition> = Vec::new();
        if all.len() > 0 {
            selected.push(all[best]);
            proof {
                assert(pointed(selected@) =~= seq![found[best as int]]);
            }
        } else {
            proof {
                assert(pointed(selected@) =~= Seq::empty());
            }
        }
        selected
    }
}

/// A profile for a condition.
#[derive(Clone, Debug, PartialEq, Eq)]
pub struct ProfileRule {
    pub profile: ProfileId,
    pub priority: i32,
    pub predicate: ContextPredicate,
}

/// The rules by which a profile is chosen.
#[derive(Clone, Debug, PartialEq, Eq)]
pub struct ProfileSelector {
    pub fallback: ProfileId,
    pub rules: Vec<ProfileRule>,
}

/// Among the first `n` rules, the one of the highest priority whose condition
/// holds; the earliest of several.
pub open spec fn ruling(rules: Seq<ProfileRule>, context: ContextSnapshot, n: int) -> Option<int>
    decreases n,
{
    if n <= 0 {
        None
    } else {
        let best = ruling(rules, context, n - 1);
        if rules[n - 1].predicate.holds(context) && (best is None || rules[n - 1].priority
            > rules[best->Some_0].priority) {
            Some(n - 1)
        } else {
            best
        }
    }
}

impl ProfileSelector {
    /// The profile that a context calls for.
    pub open spec fn choice(self, context: ContextSnapshot) -> ProfileId {
        match ruling(self.rules@, context, self.rules@.len() as int) {
            Some(i) => self.rules@[i].profile,
            None => self.fallback,
        }
    }

    /// Chooses by the matching rule of the highest priority, the earliest of
    /// several, or else takes the fallback.
    pub fn select(&self, context: &ContextSnapshot) -> (profile: ProfileId)
        requires
            context.wf(),
        ensures
            profile == self.choice(*context),
    {
        let mut best: Option<usize> = None;
        let mut i: usize = 0;
        while i < self.rules.len()
            invariant
                context.wf(),
                i <= self.rules@.len(),
                ruling(self.rules@, *context, i as int) == (match best {
                    Some(k) => Some(k as int),
                    None => None,
                }),
                best matches Some(k) ==> k < i,
            decreases self.rules@.len() - i,
        {
            let rule: &ProfileRule = &self.rules[i];
            if rule.predicate.matches(context) {
                let better: bool = match best {
                    Some(k) => rule.priority > self.rules[k].priority,
                    None => true,
                };
                if better {
                    best = Some(i);
                }
            }
            i = i + 1;
        }
        match best {
            Some(k) => self.rules[k].profile.clone(),
            None => self.fallback.clone(),
        }
    }
}

/// The ruling rule applies, and no applying rule has a higher priority, nor
/// the same one and an earlier place.
pub proof fn the_best_profile_rule_wins(rules: Seq<ProfileRule>, context: ContextSnapshot, n: int)
    requires
        0 <= n <= rules.len(),
    ensures
        match ruling(rules, context, n) {
            Some(i) => {
                &&& 0 <= i < n
                &&& rules[i].predicate.holds(context)
                &&& forall|j: int|
                    0 <= j < n && (#[trigger] rules[j]).predicate.holds(context)
                        ==> rules[j].priority < rules[i].priority || (rules[j].priority
                        == rules[i].priority && i <= j)
            },
            None => forall|j: int|
                0 <= j < n ==> !(#[trigger] rules[j]).predicate.holds(context),
        },
    decreases n,
{
    if n > 0 {
        the_best_profile_rule_wins(rules, context, n - 1);
    }
}

// ---------------------------------------------------------------------------
// What slots show

/// The binding with the given number is of a known contribution, and of one that
/// suits the context, unless the slot shows all of its contributions.
pub open spec fn takes_part(
    contributions: TextMap<ContributionId, ContributionDefinition>,
    slot: SlotDefinition,
    context: ContextSnapshot,
    k: int,
) -> bool {
    &&& 0 <= k < slot.bindings@.len()
    &&& contributions.lookup(slot.bindings@[k].contribution@) is Some
    &&& slot.policy == SlotPolicy::Fixed || contributions.lookup(
        slot.bindings@[k].contribution@,
    )->Some_0.predicate.holds(context)
}

/// The bindings with the given numbers are those that take part, each once, by
/// their order and then by their place, and what is shown are their contributions.
pub open spec fn all_shown(
    contributions: TextMap<ContributionId, ContributionDefinition>,
    slot: SlotDefinition,
    context: ContextSnapshot,
    shown: Seq<ContributionDefinition>,
    numbers: Seq<int>,
) -> bool {
    &&& numbers.len() == shown.len()
    &&& forall|j: int|
        0 <= j < numbers.len() ==> takes_part(
            contributions,
            slot,
            context,
            #[trigger] numbers[j],
        ) && contributions.lookup(slot.bindings@[numbers[j]].contribution@) == Some(shown[j])
    &&& forall|k: int| #[trigger] takes_part(contributions, slot, context, k) ==> numbers.contains(k)
    &&& forall|i: int, j: int|
        #![trigger numbers[i], numbers[j]]
        0 <= i < j < numbers.len() ==> slot.bindings@[numbers[i]].order
            < slot.bindings@[numbers[j]].order || (slot.bindings@[numbers[i]].order
            == slot.bindings@[numbers[j]].order && numbers[i] < numbers[j])
}

/// The contribution goes before another one: by its priority, or by its scope
/// where the priorities are the same.
pub open spec fn outdoes(left: ContributionDefinition, right: ContributionDefinition) -> bool {
    ||| left.priority > right.priority
    ||| left.priority == right.priority && !context::at_least_as_specific(right.scope, left.scope)
}

proof fn lemma_candidates(
    contributions: TextMap<ContributionId, ContributionDefinition>,
    slot: SlotDefinition,
    context: ContextSnapshot,
    n: int,
) -> (numbers: Seq<int>)
    requires
        0 <= n <= slot.bindings@.len(),
    ensures
        ({
            let ranked = ranking(slot.bindings@, slot.bindings@.len() as int);
            let all = candidates(contributions, slot, context, n);
            &&& numbers.len() == all.len()
            &&& forall|j: int|
                0 <= j < numbers.len() ==> takes_part(
                    contributions,
                    slot,
                    context,
                    #[trigger] numbers[j],
                ) && contributions.lookup(slot.bindings@[numbers[j]].contribution@) == Some(all[j])
            &&& forall|j: int|
                0 <= j < numbers.len() ==> exists|i: int|
                    0 <= i < n && #[trigger] ranked[i] == #[trigger] numbers[j]
            &&& forall|i: int|
                0 <= i < n && takes_part(
                    contributions,
                    slot,
                    context,
                    #[trigger] ranked[i],
                ) ==> numbers.contains(ranked[i])
            &&& forall|i: int, j: int|
                #![trigger numbers[i], numbers[j]]
                0 <= i < j < numbers.len() ==> slot.bindings@[numbers[i]].order
                    < slot.bindings@[numbers[j]].order || (slot.bindings@[numbers[i]].order
                    == slot.bindings@[numbers[j]].order && numbers[i] < numbers[j])
        }),
    decreases n,
{
    let total = slot.bindings@.len() as int;
    let ranked = ranking(slot.bindings@, total);
    bindings_stand_in_user_order(slot.bindings@, total);
    if n == 0 {
        Seq::empty()
    } else {
        let before = lemma_candidates(contributions, slot, context, n - 1);
        let at = ranked[n - 1];
        assert(0 <= at < total);
        if eligible(contributions, slot.policy, slot.bindings@[at], context) {
            let numbers = before.push(at);
            assert(takes_part(contributions, slot, context, at));
            assert forall|j: int| 0 <= j < numbers.len() implies exists|i: int|
                0 <= i < n && #[trigger] ranked[i] == #[trigger] numbers[j] by {
                if j < before.len() {
                    assert(numbers[j] == before[j]);
                    let i = choose|i: int| 0 <= i < n - 1 && ranked[i] == before[j];
                    assert(ranked[i] == numbers[j]);
                } else {
                    assert(ranked[n - 1] == numbers[j]);
                }
            }
            assert forall|i: int|
                0 <= i < n && takes_part(
                    contributions,
                    slot,
                    context,
                    #[trigger] ranked[i],
                ) implies numbers.contains(ranked[i]) by {
                if i < n - 1 {
                    let k = choose|k: int| 0 <= k < before.len() && before[k] == ranked[i];
                    assert(numbers[k] == ranked[i]);
                } else {
                    assert(numbers[before.len() as int] == ranked[i]);
                }
            }
            assert forall|i: int, j: int|
                #![trigger numbers[i], numbers[j]]
                0 <= i < j < numbers.len() implies slot.bindings@[numbers[i]].order
                < slot.bindings@[numbers[j]].order || (slot.bindings@[numbers[i]].order
                == slot.bindings@[numbers[j]].order && numbers[i] < numbers[j]) by {
                assert(numbers[i] == before[i]);
                if j < before.len() {
                    assert(numbers[j] == before[j]);
                } else {
                    let k = choose|k: int| 0 <= k < n - 1 && ranked[k] == before[i];
                    assert(ranked[k] == numbers[i] && ranked[n - 1] == numbers[j]);
                }
            }
            numbers
        } else {
            assert(!takes_part(contributions, slot, context, at));
            before
        }
    }
}

/// A slot that collects shows all of its contributions that suit the context, and
/// one that is fixed shows all of them, in the order of the user.
pub proof fn slots_show_all_in_user_order(
    contributions: TextMap<ContributionId, ContributionDefinition>,
    slot: SlotDefinition,
    context: ContextSnapshot,
)
    requires
        slot.policy != SlotPolicy::Select,
    ensures
        exists|numbers: Seq<int>|
            all_shown(
                contributions,
                slot,
                context,
                selection(contributions, slot, context),
                numbers,
            ),
{
    let n = slot.bindings@.len() as int;
    let numbers = lemma_candidates(contributions, slot, context, n);
    bindings_stand_in_user_order(slot.bindings@, n);
    let ranked = ranking(slot.bindings@, n);
    assert forall|k: int| #[trigger]
        takes_part(contributions, slot, context, k) implies numbers.contains(k) by {
        assert(ranked.contains(k));
        let i = choose|i: int| 0 <= i < ranked.len() && ranked[i] == k;
        assert(takes_part(contributions, slot, context, ranked[i]));
    }
    assert(all_shown(
        contributions,
        slot,
        context,
        selection(contributions, slot, context),
        numbers,
    ));
}

/// A slot that selects shows one contribution where any suits the context, and
/// none otherwise. The one that is shown has the greatest priority of those that
/// suit; among these the most specific scope; and among these it stands first in
/// the order of the user.
pub proof fn slots_select_by_priority_then_scope(
    contributions: TextMap<ContributionId, ContributionDefinition>,
    slot: SlotDefinition,
    context: ContextSnapshot,
)
    requires
        slot.policy == SlotPolicy::Select,
    ensures
        ({
            let shown = selection(contributions, slot, context);
            &&& shown.len() <= 1
            &&& shown.len() == 0 <==> forall|k: int|
                !#[trigger] takes_part(contributions, slot, context, k)
            &&& shown.len() == 1 ==> exists|b: int|
                {
                    &&& #[trigger] takes_part(contributions, slot, context, b)
                    &&& contributions.lookup(slot.bindings@[b].contribution@) == Some(shown[0])
                    &&& forall|k: int| #[trigger]
                        takes_part(contributions, slot, context, k) ==> {
                            let other = contributions.lookup(
                                slot.bindings@[k].contribution@,
                            )->Some_0;
                            &&& shown[0].priority >= other.priority
                            &&& shown[0].priority == other.priority ==> context::at_least_as_specific(
                                shown[0].scope,
                                other.scope,
                            )
                            &&& outdoes(shown[0], other) || slot.bindings@[b].order
                                < slot.bindings@[k].order || (slot.bindings@[b].order
                                == slot.bindings@[k].order && b <= k)
                        }
                }
        }),
{
    let n = slot.bindings@.len() as int;
    let shown = selection(contributions, slot, context);
    let all = candidates(contributions, slot, context, n);
    let numbers = lemma_candidates(contributions, slot, context, n);
    bindings_stand_in_user_order(slot.bindings@, n);
    let ranked = ranking(slot.bindings@, n);
    the_favourite_is_best(all, all.len() as int);
    assert forall|k: int| #[trigger]
        takes_part(contributions, slot, context, k) implies numbers.contains(k) by {
        assert(ranked.contains(k));
        let i = choose|i: int| 0 <= i < ranked.len() && ranked[i] == k;
        assert(takes_part(contributions, slot, context, ranked[i]));
    }
    if shown.len() == 1 {
        let best = favourite(all, all.len() as int)->Some_0;
        let b = numbers[best];
        assert(takes_part(contributions, slot, context, b));
        assert forall|k: int| #[trigger] takes_part(contributions, slot, context, k) implies {
            let other = contributions.lookup(slot.bindings@[k].contribution@)->Some_0;
            &&& shown[0].priority >= other.priority
            &&& shown[0].priority == other.priority ==> context::at_least_as_specific(
                shown[0].scope,
                other.scope,
            )
            &&& outdoes(shown[0], other) || slot.bindings@[b].order < slot.bindings@[k].order || (
            slot.bindings@[b].order == slot.bindings@[k].order && b <= k)
        } by {
            let j = choose|j: int| 0 <= j < numbers.len() && numbers[j] == k;
            assert(contributions.lookup(slot.bindings@[numbers[j]].contribution@) == Some(all[j]));
            assert(!preferred(all[j], all[best]));
            if j < best {
                assert(preferred(all[best], all[j]));
            } else if best < j {
                assert(numbers[best] == b && numbers[j] == k);
            }
        }
    } else {
        assert forall|k: int| !#[trigger] takes_part(contributions, slot, context, k) by {
            if takes_part(contributions, slot, context, k) {
                assert(numbers.contains(k));
            }
        }
    }
}

/// The profile that a context calls for is that of the rule with the greatest
/// priority among those whose condition holds, the earliest of several, or else
/// the fallback.
pub proof fn profiles_follow_the_greatest_priority(
    selector: ProfileSelector,
    context: ContextSnapshot,
)
    ensures
        forall|i: int|
            #![trigger selector.rules@[i]]
            {
                &&& 0 <= i < selector.rules@.len()
                &&& selector.rules@[i].predicate.holds(context)
                &&& forall|j: int|
                    #![trigger selector.rules@[j]]
                    0 <= j < selector.rules@.len() && selector.rules@[j].predicate.holds(context)
                        ==> selector.rules@[j].priority < selector.rules@[i].priority || (
                    selector.rules@[j].priority == selector.rules@[i].priority && i <= j)
            } ==> selector.choice(context) == selector.rules@[i].profile,
        (forall|i: int|
            0 <= i < selector.rules@.len() ==> !(#[trigger] selector.rules@[i]).predicate.holds(
                context,
            )) ==> selector.choice(context) == selector.fallback,
{
    the_best_profile_rule_wins(selector.rules@, context, selector.rules@.len() as int);
}

} // verus!
