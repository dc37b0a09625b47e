//! What a controller shows, told from the commands it has carried out.
use vstd::prelude::*;

use crate::model::compose;
use crate::model::compose::ProfileShape;
use crate::model::context::ContextSnapshot;
use crate::model::controller;
use crate::model::controller::{
    CompositionController, ControlOwner, ControllerCommand, ProfileLease, Settings,
};
use crate::model::ids::ProfileId;
use crate::model::profiles::ProfileCatalog;
use crate::model::select::ProfileSelector;
use crate::text;

verus! {

/// The profile that was selected by hand last, unless automatic selection was
/// asked for since.
pub open spec fn selected(commands: Seq<ControllerCommand>) -> Option<ProfileId>
    decreases commands.len(),
{
    if commands.len() == 0 {
        None
    } else {
        match commands.last() {
            ControllerCommand::SelectProfile(profile) => Some(profile),
            ControllerCommand::UseAutomaticProfile => None,
            _ => selected(commands.drop_last()),
        }
    }
}

/// The context that was set last.
pub open spec fn context_of(
    commands: Seq<ControllerCommand>,
    start: ContextSnapshot,
) -> ContextSnapshot
    decreases commands.len(),
{
    if commands.len() == 0 {
        start
    } else {
        match commands.last() {
            ControllerCommand::SetContext(context) => context,
            _ => context_of(commands.drop_last(), start),
        }
    }
}

/// The command ends the mode of an owner, or starts it anew.
pub open spec fn ends(command: ControllerCommand, owner: ControlOwner, mode: Seq<char>) -> bool {
    match command {
        ControllerCommand::ActivateMode { owner: o, mode: m, .. } => o == owner && m@ == mode,
        ControllerCommand::ReleaseMode { owner: o, mode: m } => o == owner && m@ == mode,
        ControllerCommand::ReleaseOwner(o) => o == owner,
        _ => false,
    }
}

/// The command with the given number activates a mode that nothing has ended
/// since.
pub open spec fn in_force(commands: Seq<ControllerCommand>, i: int) -> bool {
    &&& 0 <= i < commands.len()
    &&& commands[i] matches ControllerCommand::ActivateMode { owner, mode, .. } && forall|j: int|
        i < j < commands.len() ==> !ends(#[trigger] commands[j], owner, mode@)
}

/// The mode that the command with the given number activates is in force, and
/// every other one that is has a lower priority, or the same one and was
/// activated before it.
pub open spec fn prevails(commands: Seq<ControllerCommand>, i: int) -> bool {
    &&& in_force(commands, i)
    &&& forall|j: int| #[trigger]
        in_force(commands, j) ==> {
            ||| commands[j]->ActivateMode_priority < commands[i]->ActivateMode_priority
            ||| commands[j]->ActivateMode_priority == commands[i]->ActivateMode_priority && j <= i
        }
}

/// The profile that commands lead to: the one that is selected by hand, or else
/// that of the mode that prevails, or else that of the rules.
pub open spec fn called_for(
    commands: Seq<ControllerCommand>,
    selector: ProfileSelector,
    start: ContextSnapshot,
) -> ProfileId {
    match selected(commands) {
        Some(profile) => profile,
        None => if exists|i: int| prevails(commands, i) {
            commands[choose|i: int| prevails(commands, i)]->ActivateMode_profile
        } else {
            selector.choice(context_of(commands, start))
        },
    }
}

/// At most one mode prevails.
pub proof fn one_mode_prevails(commands: Seq<ControllerCommand>, i: int, j: int)
    requires
        prevails(commands, i),
        prevails(commands, j),
    ensures
        i == j,
{
}

/// How many of the first `n` commands activate a mode.
spec fn activations(commands: Seq<ControllerCommand>, n: int) -> int
    decreases n,
{
    if n <= 0 {
        0
    } else {
        activations(commands, n - 1) + if commands[n - 1] is ActivateMode {
            1int
        } else {
            0
        }
    }
}

proof fn lemma_activations(commands: Seq<ControllerCommand>, i: int, j: int)
    requires
        0 <= i <= j,
    ensures
        activations(commands, i) <= activations(commands, j) <= activations(commands, i) + j - i,
        i < j && commands[i] is ActivateMode ==> activations(commands, i) < activations(
            commands,
            j,
        ),
    decreases j - i,
{
    if i < j {
        lemma_activations(commands, i, j - 1);
    }
}

proof fn lemma_activations_prefix(commands: Seq<ControllerCommand>, last: ControllerCommand, n: int)
    requires
        n <= commands.len(),
    ensures
        activations(commands.push(last), n) == activations(commands, n),
    decreases n,
{
    if n > 0 {
        lemma_activations_prefix(commands, last, n - 1);
    }
}

/// The lease that the command with the given number sets.
spec fn lease_of(commands: Seq<ControllerCommand>, i: int) -> ProfileLease {
    ProfileLease {
        owner: commands[i]->ActivateMode_owner,
        mode: commands[i]->ActivateMode_mode,
        profile: commands[i]->ActivateMode_profile,
        priority: commands[i]->ActivateMode_priority,
        sequence: (1 + activations(commands, i)) as u64,
    }
}

spec fn lease_from(commands: Seq<ControllerCommand>, x: ProfileLease, i: int) -> bool {
    in_force(commands, i) && lease_of(commands, i) == x
}

/// The settings are those that commands lead to.
spec fn led_to(
    commands: Seq<ControllerCommand>,
    start: ContextSnapshot,
    settings: Settings,
) -> bool {
    &&& settings.manual == selected(commands)
    &&& settings.context == context_of(commands, start)
    &&& settings.sequence == 1 + activations(commands, commands.len() as int)
    &&& controller::leases_sorted(settings.leases)
    &&& forall|x: ProfileLease| #[trigger]
        settings.leases.contains(x) <==> exists|i: int| lease_from(commands, x, i)
}

/// The leases after one was set.
proof fn lemma_with_lease(leases: Seq<ProfileLease>, lease: ProfileLease, x: ProfileLease)
    requires
        controller::leases_sorted(leases),
    ensures
        controller::with_lease(leases, lease).contains(x) <==> x == lease || (leases.contains(x)
            && !controller::is_lease(x, lease.owner, lease.mode@)),
{
    let at = controller::lease_place(leases, lease.owner, lease.mode@, 0);
    let next = controller::with_lease(leases, lease);
    controller::lemma_lease_place(leases, lease.owner, lease.mode@, 0);
    text::lemma_text_less_irreflexive(lease.mode@);
    let replaces = at < leases.len() && controller::is_lease(
        leases[at],
        lease.owner,
        lease.mode@,
    );
    assert(next[at] == lease);
    if leases.contains(x) {
        let k = choose|k: int| 0 <= k < leases.len() && leases[k] == x;
        if controller::is_lease(x, lease.owner, lease.mode@) {
            assert(k == at) by {
                if k > at {
                    assert(controller::precedes(leases[at], leases[k].owner, leases[k].mode@));
                }
            }
        } else if k < at || replaces {
            assert(next[k] == x);
        } else {
            assert(next[k + 1] == x);
        }
        if controller::is_lease(x, lease.owner, lease.mode@) && next.contains(x) && x != lease {
            let m = choose|m: int| 0 <= m < next.len() && next[m] == x;
            assert(next[m] == leases[m]);
            if m > at {
                assert(controller::precedes(leases[at], leases[m].owner, leases[m].mode@));
            }
        }
    }
    if next.contains(x) && x != lease {
        let m = choose|m: int| 0 <= m < next.len() && next[m] == x;
        if m < at || replaces {
            assert(leases[m] == x);
        } else {
            assert(leases[m - 1] == x);
        }
    }
}

/// The leases after one was given up.
proof fn lemma_without_lease(
    leases: Seq<ProfileLease>,
    owner: ControlOwner,
    mode: Seq<char>,
    x: ProfileLease,
)
    requires
        controller::leases_sorted(leases),
    ensures
        controller::without_lease(leases, owner, mode).contains(x) <==> (leases.contains(x)
            && !controller::is_lease(x, owner, mode)),
{
    let at = controller::lease_place(leases, owner, mode, 0);
    let next = controller::without_lease(leases, owner, mode);
    controller::lemma_lease_place(leases, owner, mode, 0);
    text::lemma_text_less_irreflexive(mode);
    let found = at < leases.len() && controller::is_lease(leases[at], owner, mode);
    assert forall|k: int|
        0 <= k < leases.len() && controller::is_lease(
            #[trigger] leases[k],
            owner,
            mode,
        ) implies k == at by {
        if k > at {
            assert(controller::precedes(leases[at], leases[k].owner, leases[k].mode@));
        }
    }
    if leases.contains(x) {
        let k = choose|k: int| 0 <= k < leases.len() && leases[k] == x;
        if !controller::is_lease(x, owner, mode) {
            if k < at || !found {
                assert(next[k] == x);
            } else {
                assert(next[k - 1] == x);
            }
        }
    }
    if next.contains(x) {
        let m = choose|m: int| 0 <= m < next.len() && next[m] == x;
        if m < at || !found {
            assert(leases[m] == x);
        } else {
            assert(leases[m + 1] == x);
        }
    }
}

/// A mode stays in force until a command ends it.
proof fn lemma_in_force(commands: Seq<ControllerCommand>, last: ControllerCommand, i: int)
    ensures
        in_force(commands.push(last), i) <==> {
            ||| in_force(commands, i) && !ends(
                last,
                commands[i]->ActivateMode_owner,
                commands[i]->ActivateMode_mode@,
            )
            ||| i == commands.len() && last is ActivateMode
        },
{
    let all = commands.push(last);
    if 0 <= i < commands.len() {
        assert(all[i] == commands[i]);
        assert(all[commands.len() as int] == last);
        if in_force(all, i) {
            assert forall|j: int| i < j < commands.len() implies !ends(
                #[trigger] commands[j],
                commands[i]->ActivateMode_owner,
                commands[i]->ActivateMode_mode@,
            ) by {
                assert(all[j] == commands[j]);
            }
        }
        if in_force(commands, i) && !ends(
            last,
            commands[i]->ActivateMode_owner,
            commands[i]->ActivateMode_mode@,
        ) {
            assert forall|j: int| i < j < all.len() implies !ends(
                #[trigger] all[j],
                commands[i]->ActivateMode_owner,
                commands[i]->ActivateMode_mode@,
            ) by {
                if j < commands.len() {
                    assert(all[j] == commands[j]);
                }
            }
        }
    }
}

/// The leases that commands leave, one command later.
proof fn lemma_leases_after(
    commands: Seq<ControllerCommand>,
    last: ControllerCommand,
    x: ProfileLease,
)
    requires
        commands.len() < u64::MAX,
    ensures
        (exists|i: int| lease_from(commands.push(last), x, i)) <==> {
            ||| (exists|i: int| lease_from(commands, x, i)) && !ends(last, x.owner, x.mode@)
            ||| last is ActivateMode && x == lease_of(commands.push(last), commands.len() as int)
        },
{
    let all = commands.push(last);
    let n = commands.len() as int;
    assert forall|i: int| 0 <= i < n implies lease_of(all, i) == #[trigger] lease_of(
        commands,
        i,
    ) by {
        lemma_activations_prefix(commands, last, i);
        assert(all[i] == commands[i]);
    }
    if exists|i: int| lease_from(all, x, i) {
        let i = choose|i: int| lease_from(all, x, i);
        lemma_in_force(commands, last, i);
        if i < n {
            assert(lease_of(all, i) == lease_of(commands, i));
            assert(lease_from(commands, x, i));
        }
    }
    if (exists|i: int| lease_from(commands, x, i)) && !ends(last, x.owner, x.mode@) {
        let i = choose|i: int| lease_from(commands, x, i);
        lemma_in_force(commands, last, i);
        assert(lease_of(all, i) == lease_of(commands, i));
        assert(lease_from(all, x, i));
    }
    if last is ActivateMode && x == lease_of(all, n) {
        lemma_in_force(commands, last, n);
        assert(lease_from(all, x, n));
    }
}

/// The settings follow the commands.
proof fn lemma_step(
    commands: Seq<ControllerCommand>,
    last: ControllerCommand,
    start: ContextSnapshot,
    before: Settings,
    after: Settings,
    catalog: ProfileCatalog,
)
    requires
        led_to(commands, start, before),
        commands.len() < u64::MAX - 1,
        match controller::adjusted(before, last, catalog) {
            Ok(Some(settings)) => after == settings,
            Ok(None) => after == before,
            Err(_) => false,
        },
    ensures
        led_to(commands.push(last), start, after),
{
    let all = commands.push(last);
    let n = commands.len() as int;
    assert(all.drop_last() =~= commands);
    assert(all.last() == last);
    lemma_activations_prefix(commands, last, n);
    lemma_activations(commands, 0, n);
    let leases = before.leases;
    match last {
        ControllerCommand::ActivateMode { owner, mode, profile, priority } => {
            let lease = ProfileLease { owner, mode, profile, priority, sequence: before.sequence };
            assert(lease == lease_of(all, n));
            controller::setting_a_lease_keeps_the_order(leases, lease);
            assert forall|x: ProfileLease| #[trigger]
                after.leases.contains(x) <==> exists|i: int| lease_from(all, x, i) by {
                lemma_with_lease(leases, lease, x);
                lemma_leases_after(commands, last, x);
                assert(leases.contains(x) <==> exists|i: int| lease_from(commands, x, i));
            }
        },
        ControllerCommand::ReleaseMode { owner, mode } => {
            controller::releasing_a_lease_keeps_the_order(leases, owner, mode@);
            let next = controller::without_lease(leases, owner, mode@);
            assert(after.leases == next) by {
                controller::lemma_lease_place(leases, owner, mode@, 0);
            }
            assert forall|x: ProfileLease| #[trigger]
                after.leases.contains(x) <==> exists|i: int| lease_from(all, x, i) by {
                lemma_without_lease(leases, owner, mode@, x);
                lemma_leases_after(commands, last, x);
                assert(leases.contains(x) <==> exists|i: int| lease_from(commands, x, i));
            }
        },
        ControllerCommand::ReleaseOwner(owner) => {
            let kept = controller::without_owner(leases, owner, leases.len() as int);
            controller::lemma_without_owner(leases, owner, leases.len() as int);
            assert(leases.subrange(0, leases.len() as int) =~= leases);
            controller::lemma_kept_leases(leases, owner, leases.len() as int, arbitrary());
            assert(after.leases == kept);
            assert forall|x: ProfileLease| #[trigger]
                after.leases.contains(x) <==> exists|i: int| lease_from(all, x, i) by {
                controller::lemma_kept_leases(leases, owner, leases.len() as int, x);
                lemma_leases_after(commands, last, x);
                assert(leases.contains(x) <==> exists|i: int| lease_from(commands, x, i));
                if leases.contains(x) {
                    let k = choose|k: int| 0 <= k < leases.len() && leases[k] == x;
                    assert(leases[k] == x);
                }
            }
        },
        _ => {
            assert(after.leases == leases);
            assert forall|x: ProfileLease| #[trigger]
                after.leases.contains(x) <==> exists|i: int| lease_from(all, x, i) by {
                lemma_leases_after(commands, last, x);
                assert(leases.contains(x) <==> exists|i: int| lease_from(commands, x, i));
            }
        },
    }
}

/// The states of a controller between commands that it carried out one after
/// another, from the start on.
pub open spec fn carried_out(
    states: Seq<CompositionController>,
    commands: Seq<ControllerCommand>,
) -> bool {
    &&& states.len() == commands.len() + 1
    &&& states[0].fresh()
    &&& forall|i: int|
        0 <= i < commands.len() ==> #[trigger] states[i].followed_by(commands[i], states[i + 1])
}

proof fn lemma_run(
    states: Seq<CompositionController>,
    commands: Seq<ControllerCommand>,
    n: int,
)
    requires
        carried_out(states, commands),
        0 <= n <= commands.len() < u64::MAX,
    ensures
        led_to(commands.take(n), states[0].settings().context, states[n].settings()),
        states[n].wf(),
        states[n].templates() == states[0].templates(),
        states[n].known_items() == states[0].known_items(),
        states[n].rules() == states[0].rules(),
        states[n].contacts() == states[0].contacts(),
    decreases n,
{
    let start = states[0].settings().context;
    if n == 0 {
        assert(commands.take(0) =~= Seq::empty());
        assert forall|x: ProfileLease| #[trigger]
            states[0].settings().leases.contains(x) <==> exists|i: int|
                lease_from(commands.take(0), x, i) by {
        }
    } else {
        lemma_run(states, commands, n - 1);
        assert(states[n - 1].followed_by(commands[n - 1], states[n - 1 + 1]));
        lemma_step(
            commands.take(n - 1),
            commands[n - 1],
            start,
            states[n - 1].settings(),
            states[n].settings(),
            states[n - 1].templates(),
        );
        assert(commands.take(n - 1).push(commands[n - 1]) =~= commands.take(n));
    }
}

/// Which profile the settings name that commands lead to.
proof fn lemma_called_for(
    commands: Seq<ControllerCommand>,
    start: ContextSnapshot,
    settings: Settings,
    selector: ProfileSelector,
)
    requires
        led_to(commands, start, settings),
        commands.len() < u64::MAX,
    ensures
        controller::effective(settings, selector) == called_for(commands, selector, start),
{
    let leases = settings.leases;
    controller::the_strongest_lease_wins(leases, leases.len() as int);
    if selected(commands) is None {
        match controller::strongest(leases, leases.len() as int) {
            Some(best) => {
                assert(leases.contains(leases[best]));
                let i = choose|i: int| lease_from(commands, leases[best], i);
                assert forall|j: int| #[trigger] in_force(commands, j) implies {
                    ||| commands[j]->ActivateMode_priority < commands[i]->ActivateMode_priority
                    ||| commands[j]->ActivateMode_priority == commands[i]->ActivateMode_priority
                        && j <= i
                } by {
                    let other = lease_of(commands, j);
                    assert(lease_from(commands, other, j));
                    assert(leases.contains(other));
                    let k = choose|k: int| 0 <= k < leases.len() && leases[k] == other;
                    assert(controller::at_least(leases[best], leases[k]));
                    lemma_activations(commands, 0, i);
                    lemma_activations(commands, 0, j);
                    if i < j {
                        lemma_activations(commands, i, j);
                    }
                }
                assert(prevails(commands, i));
                one_mode_prevails(commands, i, choose|i: int| prevails(commands, i));
            },
            None => {
                if exists|i: int| prevails(commands, i) {
                    let i = choose|i: int| prevails(commands, i);
                    assert(lease_from(commands, lease_of(commands, i), i));
                    assert(leases.contains(lease_of(commands, i)));
                }
            },
        }
    }
}

/// After any commands that a controller carried out from the start on, what it
/// shows is the composition, in the context that was set last, of the profile
/// that was selected by hand, unless automatic selection was asked for since;
/// or else of the mode that is held with the greatest priority, the one that was
/// activated last among several; or else of the rules.
pub proof fn commands_decide_what_is_shown(
    states: Seq<CompositionController>,
    commands: Seq<ControllerCommand>,
)
    requires
        carried_out(states, commands),
        commands.len() < u64::MAX,
    ensures
        compose::composed(
            states[0].templates(),
            states[0].known_items(),
            called_for(commands, states[0].rules(), states[0].settings().context),
            context_of(commands, states[0].settings().context),
        ) == Ok::<ProfileShape, compose::Fault>(states.last().shown().composition@),
{
    let n = commands.len() as int;
    lemma_run(states, commands, n);
    assert(commands.take(n) =~= commands);
    lemma_called_for(
        commands,
        states[0].settings().context,
        states[n].settings(),
        states[0].rules(),
    );
}

/// A mode that is activated prevails over every mode that is in force with no
/// greater priority.
pub proof fn the_latest_of_equals_prevails(
    commands: Seq<ControllerCommand>,
    last: ControllerCommand,
)
    requires
        last is ActivateMode,
        forall|j: int| #[trigger]
            in_force(commands, j) ==> commands[j]->ActivateMode_priority
                <= last->ActivateMode_priority,
    ensures
        prevails(commands.push(last), commands.len() as int),
{
    let all = commands.push(last);
    let n = commands.len() as int;
    lemma_in_force(commands, last, n);
    assert forall|j: int| #[trigger] in_force(all, j) implies {
        ||| all[j]->ActivateMode_priority < all[n]->ActivateMode_priority
        ||| all[j]->ActivateMode_priority == all[n]->ActivateMode_priority && j <= n
    } by {
        lemma_in_force(commands, last, j);
    }
}

} // verus!
