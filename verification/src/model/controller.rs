//! Which profile is shown, and when a change takes effect.
use std::collections::BTreeSet;

use vstd::prelude::*;

use crate::layout::{BarSpec, Element};
use crate::model::compose;
use crate::model::compose::{ProfileComposition, ProfileShape};
use crate::model::context;
use crate::model::context::ContextSnapshot;
use crate::model::delta;
use crate::model::delta::CompositionDelta;
use crate::model::ids::ProfileId;
use crate::model::profiles;
use crate::model::profiles::{ProfileCatalog, ProfileError};
use crate::model::registry::Registry;
use crate::model::select::ProfileSelector;
use crate::text;

verus! {

/// Who holds a mode.
#[derive(Clone, Copy, Debug, PartialEq, Eq, Hash, PartialOrd, Ord, Structural)]
pub struct ControlOwner(pub u64);

/// A request to the controller.
#[derive(Clone, Debug, PartialEq, Eq)]
pub enum ControllerCommand {
    SetContext(ContextSnapshot),
    SelectProfile(ProfileId),
    UseAutomaticProfile,
    ActivateMode { owner: ControlOwner, mode: String, profile: ProfileId, priority: i32 },
    ReleaseMode { owner: ControlOwner, mode: String },
    ReleaseOwner(ControlOwner),
}

/// A composition that is shown or will be.
#[derive(Clone, Debug, PartialEq, Eq)]
pub struct ProfileCompositionSnapshot {
    pub generation: u64,
    pub context_generation: u64,
    pub composition: ProfileComposition,
    pub delta: CompositionDelta,
}

/// A profile that an owner asks for while it holds a mode.
#[derive(Debug)]
pub struct ProfileLease {
    pub owner: ControlOwner,
    pub mode: String,
    pub profile: ProfileId,
    pub priority: i32,
    pub sequence: u64,
}

impl Clone for ProfileLease {
    fn clone(&self) -> (copy: Self)
        ensures
            copy == *self,
    {
        ProfileLease {
            owner: self.owner,
            mode: self.mode.clone(),
            profile: self.profile.clone(),
            priority: self.priority,
            sequence: self.sequence,
        }
    }
}

// ---------------------------------------------------------------------------
// Leases, by owner and mode

pub open spec fn is_lease(lease: ProfileLease, owner: ControlOwner, mode: Seq<char>) -> bool {
    lease.owner == owner && lease.mode@ == mode
}

/// The lease stands before that of the given owner and mode.
pub open spec fn precedes(lease: ProfileLease, owner: ControlOwner, mode: Seq<char>) -> bool {
    lease.owner.0 < owner.0 || (lease.owner == owner && text::text_less(lease.mode@, mode))
}

/// How many leases at the front stand before that of the given owner and mode.
pub open spec fn lease_place(
    leases: Seq<ProfileLease>,
    owner: ControlOwner,
    mode: Seq<char>,
    from: int,
) -> int
    decreases leases.len() - from,
{
    if from >= leases.len() || !precedes(leases[from], owner, mode) {
        from
    } else {
        lease_place(leases, owner, mode, from + 1)
    }
}

/// The leases with one more, or with one replaced.
pub open spec fn with_lease(leases: Seq<ProfileLease>, lease: ProfileLease) -> Seq<ProfileLease> {
    let at = lease_place(leases, lease.owner, lease.mode@, 0);
    if at < leases.len() && is_lease(leases[at], lease.owner, lease.mode@) {
        leases.update(at, lease)
    } else {
        leases.insert(at, lease)
    }
}

/// The leases without one.
pub open spec fn without_lease(
    leases: Seq<ProfileLease>,
    owner: ControlOwner,
    mode: Seq<char>,
) -> Seq<ProfileLease> {
    let at = lease_place(leases, owner, mode, 0);
    if at < leases.len() && is_lease(leases[at], owner, mode) {
        leases.remove(at)
    } else {
        leases
    }
}

/// The first `n` leases without those of an owner.
pub open spec fn without_owner(leases: Seq<ProfileLease>, owner: ControlOwner, n: int) -> Seq<
    ProfileLease,
>
    decreases n,
{
    if n <= 0 {
        Seq::empty()
    } else if leases[n - 1].owner == owner {
        without_owner(leases, owner, n - 1)
    } else {
        without_owner(leases, owner, n - 1).push(leases[n - 1])
    }
}

/// The lease is at least as strong: by priority, and by recency among equals.
pub open spec fn at_least(a: ProfileLease, b: ProfileLease) -> bool {
    a.priority > b.priority || (a.priority == b.priority && a.sequence >= b.sequence)
}

/// The strongest of the first `n` leases.
pub open spec fn strongest(leases: Seq<ProfileLease>, n: int) -> Option<int>
    decreases n,
{
    if n <= 0 {
        None
    } else {
        match strongest(leases, n - 1) {
            None => Some(n - 1),
            Some(best) => if at_least(leases[n - 1], leases[best]) {
                Some(n - 1)
            } else {
                Some(best)
            },
        }
    }
}

/// The leases stand by owner and mode, and there is one for each.
pub open spec fn leases_sorted(leases: Seq<ProfileLease>) -> bool {
    forall|i: int, j: int|
        #![trigger leases[i], leases[j]]
        0 <= i < j < leases.len() ==> precedes(leases[i], leases[j].owner, leases[j].mode@)
}

// ---------------------------------------------------------------------------
// What decides on the profile

/// What the commands have set.
#[verifier::ext_equal]
pub struct Settings {
    pub context: ContextSnapshot,
    pub manual: Option<ProfileId>,
    pub leases: Seq<ProfileLease>,
    pub sequence: u64,
}

/// The profile that is wanted: the one selected by hand, or else that of the
/// strongest lease, or else that of the rules.
pub open spec fn effective(settings: Settings, selector: ProfileSelector) -> ProfileId {
    match settings.manual {
        Some(profile) => profile,
        None => match strongest(settings.leases, settings.leases.len() as int) {
            Some(best) => settings.leases[best].profile,
            None => selector.choice(settings.context),
        },
    }
}

/// The settings after a command. `None` where the command changes nothing.
pub open spec fn adjusted(
    settings: Settings,
    command: ControllerCommand,
    catalog: ProfileCatalog,
) -> Result<Option<Settings>, ProfileError> {
    match command {
        ControllerCommand::SetContext(context) => Ok(Some(Settings { context, ..settings })),
        ControllerCommand::SelectProfile(profile) => if catalog.profile_map().has(profile@) {
            Ok(Some(Settings { manual: Some(profile), ..settings }))
        } else {
            Err(ProfileError::UnknownProfile(profile))
        },
        ControllerCommand::UseAutomaticProfile => if settings.manual is Some {
            Ok(Some(Settings { manual: None, ..settings }))
        } else {
            Ok(None)
        },
        ControllerCommand::ActivateMode {
            owner,
            mode,
            profile,
            priority,
        } => if !catalog.profile_map().has(
            profile@,
        ) {
            Err(ProfileError::UnknownProfile(profile))
        } else if text::is_blank(mode@) {
            Err(ProfileError::EmptyModeId)
        } else {
            Ok(
                Some(
                    Settings {
                        leases: with_lease(
                            settings.leases,
                            (ProfileLease {
                                owner,
                                mode,
                                profile,
                                priority,
                                sequence: settings.sequence,
                            }),
                        ),
                        sequence: context::generation_after(settings.sequence),
                        ..settings
                    },
                ),
            )
        },
        ControllerCommand::ReleaseMode { owner, mode } => {
            let leases = without_lease(settings.leases, owner, mode@);
            if leases.len() == settings.leases.len() {
                Ok(None)
            } else {
                Ok(Some(Settings { leases, ..settings }))
            }
        },
        ControllerCommand::ReleaseOwner(owner) => {
            let leases = without_owner(settings.leases, owner, settings.leases.len() as int);
            if leases.len() == settings.leases.len() {
                Ok(None)
            } else {
                Ok(Some(Settings { leases, ..settings }))
            }
        },
    }
}

/// The strongest lease is at least as strong as every other one.
pub proof fn the_strongest_lease_wins(leases: Seq<ProfileLease>, n: int)
    requires
        0 <= n <= leases.len(),
    ensures
        match strongest(leases, n) {
            Some(best) => 0 <= best < n && forall|i: int|
                0 <= i < n ==> at_least(leases[best], #[trigger] leases[i]),
            None => n == 0,
        },
    decreases n,
{
    if n > 0 {
        the_strongest_lease_wins(leases, n - 1);
    }
}

/// A profile that was selected by hand is shown, whatever leases there are and
/// whatever the context says.
pub proof fn manual_selection_overrides_everything(
    settings: Settings,
    selector: ProfileSelector,
    profile: ProfileId,
)
    ensures
        effective(Settings { manual: Some(profile), ..settings }, selector) == profile,
{
}

/// A lease overrides the rules.
pub proof fn leases_override_rules(settings: Settings, selector: ProfileSelector)
    requires
        settings.manual is None,
        settings.leases.len() > 0,
    ensures
        exists|i: int|
            0 <= i < settings.leases.len() && effective(settings, selector) == (
            #[trigger] settings.leases[i]).profile,
{
    the_strongest_lease_wins(settings.leases, settings.leases.len() as int);
    let best = strongest(settings.leases, settings.leases.len() as int)->Some_0;
    assert(effective(settings, selector) == settings.leases[best].profile);
}

/// Every lease was numbered before the next number.
pub open spec fn numbered(settings: Settings) -> bool {
    forall|i: int|
        0 <= i < settings.leases.len() ==> (#[trigger] settings.leases[i]).sequence
            < settings.sequence
}

/// Until the counter wraps, the number of every lease is below the next one,
/// so that a lease which is set has a greater number than all that are held.
pub proof fn leases_are_numbered_in_order(
    settings: Settings,
    command: ControllerCommand,
    catalog: ProfileCatalog,
)
    requires
        numbered(settings),
        settings.sequence < u64::MAX,
        adjusted(settings, command, catalog) matches Ok(Some(_)),
    ensures
        ({
            let next = adjusted(settings, command, catalog)->Ok_0->Some_0;
            &&& numbered(next)
            &&& next.sequence == (if command is ActivateMode {
                settings.sequence + 1
            } else {
                settings.sequence as int
            })
        }),
{
    let next = adjusted(settings, command, catalog)->Ok_0->Some_0;
    assert forall|x: ProfileLease| next.leases.contains(x) implies x.sequence < next.sequence by {
        match command {
            ControllerCommand::ActivateMode { owner, mode, profile, priority } => {
                let lease = ProfileLease {
                    owner,
                    mode,
                    profile,
                    priority,
                    sequence: settings.sequence,
                };
                lemma_lease_place(settings.leases, owner, mode@, 0);
                let i = choose|i: int| 0 <= i < next.leases.len() && next.leases[i] == x;
                let at = lease_place(settings.leases, owner, mode@, 0);
                if x != lease {
                    if next.leases.len() == settings.leases.len() {
                        assert(x == settings.leases[i]);
                    } else if i < at {
                        assert(x == settings.leases[i]);
                    } else {
                        assert(x == settings.leases[i - 1]);
                    }
                }
            },
            ControllerCommand::ReleaseMode { owner, mode } => {
                lemma_lease_place(settings.leases, owner, mode@, 0);
                let i = choose|i: int| 0 <= i < next.leases.len() && next.leases[i] == x;
                if i < lease_place(settings.leases, owner, mode@, 0) {
                    assert(x == settings.leases[i]);
                } else {
                    assert(x == settings.leases[i + 1]);
                }
            },
            ControllerCommand::ReleaseOwner(owner) => {
                lemma_kept_leases(settings.leases, owner, settings.leases.len() as int, x);
                let i = choose|i: int| 0 <= i < settings.leases.len() && settings.leases[i] == x;
                assert(x == settings.leases[i]);
            },
            _ => {
                let i = choose|i: int| 0 <= i < next.leases.len() && next.leases[i] == x;
                assert(x == settings.leases[i]);
            },
        }
    }
    assert forall|i: int| 0 <= i < next.leases.len() implies (#[trigger] next.leases[i]).sequence
        < next.sequence by {
        assert(next.leases.contains(next.leases[i]));
    }
}

pub(crate) proof fn lemma_kept_leases(
    leases: Seq<ProfileLease>,
    owner: ControlOwner,
    n: int,
    x: ProfileLease,
)
    requires
        0 <= n <= leases.len(),
    ensures
        without_owner(leases, owner, n).contains(x) <==> (x.owner != owner && exists|i: int|
            0 <= i < n && #[trigger] leases[i] == x),
        without_owner(leases, owner, n).len() <= n,
        without_owner(leases, owner, n).len() == n ==> without_owner(leases, owner, n)
            == leases.subrange(0, n),
    decreases n,
{
    let kept = without_owner(leases, owner, n);
    if n > 0 {
        lemma_kept_leases(leases, owner, n - 1, x);
        let before = without_owner(leases, owner, n - 1);
        if leases[n - 1].owner == owner {
            assert(before == kept);
        } else {
            if kept.contains(x) {
                let i = choose|i: int| 0 <= i < kept.len() && kept[i] == x;
                if i < before.len() {
                    assert(before[i] == x);
                    assert(before.contains(x));
                } else {
                    assert(leases[n - 1] == x);
                }
            }
            if before.contains(x) {
                let i = choose|i: int| 0 <= i < before.len() && before[i] == x;
                assert(kept[i] == x);
            }
            if leases[n - 1] == x {
                assert(kept[before.len() as int] == x);
            }
            if kept.len() == n {
                assert(leases.subrange(0, n) =~= leases.subrange(0, n - 1).push(leases[n - 1]));
            }
        }
    } else {
        assert(leases.subrange(0, 0) =~= Seq::empty());
    }
}

pub(crate) proof fn lemma_lease_place(
    leases: Seq<ProfileLease>,
    owner: ControlOwner,
    mode: Seq<char>,
    from: int,
)
    requires
        0 <= from <= leases.len(),
    ensures
        from <= lease_place(leases, owner, mode, from) <= leases.len(),
        forall|i: int|
            from <= i < lease_place(leases, owner, mode, from) ==> precedes(
                #[trigger] leases[i],
                owner,
                mode,
            ),
        lease_place(leases, owner, mode, from) < leases.len() ==> !precedes(
            leases[lease_place(leases, owner, mode, from)],
            owner,
            mode,
        ),
    decreases leases.len() - from,
{
    if from < leases.len() && precedes(leases[from], owner, mode) {
        lemma_lease_place(leases, owner, mode, from + 1);
    }
}

proof fn lemma_precedes(a: ProfileLease, b: ProfileLease, owner: ControlOwner, mode: Seq<char>)
    requires
        precedes(a, b.owner, b.mode@),
        precedes(b, owner, mode),
    ensures
        precedes(a, owner, mode),
{
    if a.owner == b.owner && b.owner == owner {
        text::lemma_text_less_transitive(a.mode@, b.mode@, mode);
    }
}

/// Leases stay in order when one is set.
pub proof fn setting_a_lease_keeps_the_order(leases: Seq<ProfileLease>, lease: ProfileLease)
    requires
        leases_sorted(leases),
    ensures
        leases_sorted(with_lease(leases, lease)),
{
    let at = lease_place(leases, lease.owner, lease.mode@, 0);
    lemma_lease_place(leases, lease.owner, lease.mode@, 0);
    let next = with_lease(leases, lease);
    if at < leases.len() && is_lease(leases[at], lease.owner, lease.mode@) {
        assert forall|i: int, j: int|
            #![trigger next[i], next[j]]
            0 <= i < j < next.len() implies precedes(next[i], next[j].owner, next[j].mode@) by {
            assert(precedes(leases[i], leases[j].owner, leases[j].mode@));
        }
    } else {
        assert forall|i: int, j: int|
            #![trigger next[i], next[j]]
            0 <= i < j < next.len() implies precedes(next[i], next[j].owner, next[j].mode@) by {
            if j < at {
                assert(next[i] == leases[i] && next[j] == leases[j]);
            } else if j == at {
                assert(next[i] == leases[i]);
            } else if i < at {
                assert(next[i] == leases[i] && next[j] == leases[j - 1]);
            } else {
                assert(next[j] == leases[j - 1]);
                let first = leases[at];
                text::lemma_text_less_total(first.mode@, lease.mode@);
                assert(precedes(lease, first.owner, first.mode@));
                if i == at {
                    if j - 1 > at {
                        assert(precedes(first, leases[j - 1].owner, leases[j - 1].mode@));
                        lemma_precedes(lease, first, leases[j - 1].owner, leases[j - 1].mode@);
                    }
                } else {
                    assert(next[i] == leases[i - 1]);
                }
            }
        }
    }
}

/// Leases stay in order when one is given up.
pub proof fn releasing_a_lease_keeps_the_order(
    leases: Seq<ProfileLease>,
    owner: ControlOwner,
    mode: Seq<char>,
)
    requires
        leases_sorted(leases),
    ensures
        leases_sorted(without_lease(leases, owner, mode)),
{
    let at = lease_place(leases, owner, mode, 0);
    lemma_lease_place(leases, owner, mode, 0);
    let next = without_lease(leases, owner, mode);
    if at < leases.len() && is_lease(leases[at], owner, mode) {
        assert forall|i: int, j: int|
            #![trigger next[i], next[j]]
            0 <= i < j < next.len() implies precedes(next[i], next[j].owner, next[j].mode@) by {
            let a = if i < at {
                i
            } else {
                i + 1
            };
            let b = if j < at {
                j
            } else {
                j + 1
            };
            assert(next[i] == leases[a] && next[j] == leases[b]);
        }
    }
}

pub(crate) proof fn lemma_without_owner(leases: Seq<ProfileLease>, owner: ControlOwner, n: int)
    requires
        0 <= n <= leases.len(),
        leases_sorted(leases),
    ensures
        leases_sorted(without_owner(leases, owner, n)),
        without_owner(leases, owner, n).len() <= n,
        forall|i: int|
            0 <= i < without_owner(leases, owner, n).len() ==> exists|m: int|
                0 <= m < n && #[trigger] without_owner(leases, owner, n)[i] == leases[m],
    decreases n,
{
    if n > 0 {
        lemma_without_owner(leases, owner, n - 1);
        let before = without_owner(leases, owner, n - 1);
        let next = without_owner(leases, owner, n);
        assert forall|i: int| 0 <= i < next.len() implies exists|m: int|
            0 <= m < n && #[trigger] next[i] == leases[m] by {
            if i < before.len() {
                let m = choose|m: int| 0 <= m < n - 1 && before[i] == leases[m];
                assert(next[i] == leases[m]);
            } else {
                assert(next[i] == leases[n - 1]);
            }
        }
        if leases[n - 1].owner != owner {
            assert forall|i: int, j: int|
                #![trigger next[i], next[j]]
                0 <= i < j < next.len() implies precedes(next[i], next[j].owner, next[j].mode@) by {
                if j < before.len() {
                    assert(next[i] == before[i] && next[j] == before[j]);
                } else {
                    assert(next[i] == before[i]);
                    let m = choose|m: int| 0 <= m < n - 1 && before[i] == leases[m];
                    assert(precedes(leases[m], leases[n - 1].owner, leases[n - 1].mode@));
                }
            }
        }
    }
}

/// After an owner's release none of its leases is left.
pub proof fn released_owners_hold_nothing(leases: Seq<ProfileLease>, owner: ControlOwner, n: int)
    requires
        0 <= n <= leases.len(),
    ensures
        forall|i: int|
            0 <= i < without_owner(leases, owner, n).len() ==> (#[trigger] without_owner(
                leases,
                owner,
                n,
            )[i]).owner != owner,
    decreases n,
{
    if n > 0 {
        released_owners_hold_nothing(leases, owner, n - 1);
        let before = without_owner(leases, owner, n - 1);
        let next = without_owner(leases, owner, n);
        assert forall|i: int| 0 <= i < next.len() implies (#[trigger] next[i]).owner != owner by {
            if i < before.len() {
                assert(next[i] == before[i]);
            }
        }
    }
}

// ---------------------------------------------------------------------------
// The controller

/// Decides which composition is shown.
pub struct CompositionController {
    catalog: ProfileCatalog,
    registry: Registry,
    selector: ProfileSelector,
    context: ContextSnapshot,
    manual_profile: Option<ProfileId>,
    modes: Vec<ProfileLease>,
    current: ProfileCompositionSnapshot,
    pending: Option<ProfileCompositionSnapshot>,
    captured_contacts: BTreeSet<u32>,
    next_generation: u64,
    next_mode_sequence: u64,
}

/// The snapshot shows a composition that comes after another bar.
pub open spec fn is_snapshot(
    snapshot: ProfileCompositionSnapshot,
    generation: u64,
    context_generation: u64,
    shape: ProfileShape,
    previous: Option<Seq<Element>>,
) -> bool {
    &&& snapshot.generation == generation
    &&& snapshot.context_generation == context_generation
    &&& snapshot.composition@ == shape
    &&& delta::is_delta(snapshot.delta, previous, snapshot.composition.bar.elements@)
}

/// The first profile that a selector names and a catalog does not know.
pub open spec fn rules_fault(catalog: ProfileCatalog, selector: ProfileSelector, n: int) -> Option<
    ProfileError,
>
    decreases n,
{
    if n <= 0 {
        if catalog.profile_map().has(selector.fallback@) {
            None
        } else {
            Some(ProfileError::UnknownProfile(selector.fallback))
        }
    } else {
        match rules_fault(catalog, selector, n - 1) {
            Some(e) => Some(e),
            None => if catalog.profile_map().has(selector.rules@[n - 1].profile@) {
                None
            } else {
                Some(ProfileError::UnknownProfile(selector.rules@[n - 1].profile))
            },
        }
    }
}

proof fn lemma_rules_fault_prefix(
    catalog: ProfileCatalog,
    selector: ProfileSelector,
    k: int,
    n: int,
)
    requires
        0 <= k <= n,
    ensures
        rules_fault(catalog, selector, k) is Some ==> rules_fault(catalog, selector, n)
            == rules_fault(catalog, selector, k),
    decreases n - k,
{
    if k < n {
        lemma_rules_fault_prefix(catalog, selector, k, n - 1);
    }
}

fn validate_selector(catalog: &ProfileCatalog, selector: &ProfileSelector) -> (result: Result<
    (),
    ProfileError,
>)
    requires
        catalog.wf(),
    ensures
        match result {
            Ok(_) => rules_fault(*catalog, *selector, selector.rules@.len() as int) is None,
            Err(e) => rules_fault(*catalog, *selector, selector.rules@.len() as int) == Some(e),
        },
{
    let ghost n = selector.rules@.len() as int;
    if catalog.profile(&selector.fallback).is_none() {
        proof {
            lemma_rules_fault_prefix(*catalog, *selector, 0, n);
        }
        return Err(ProfileError::UnknownProfile(selector.fallback.clone()));
    }
    let mut i: usize = 0;
    while i < selector.rules.len()
        invariant
            catalog.wf(),
            n == selector.rules@.len(),
            i <= n,
            rules_fault(*catalog, *selector, i as int) is None,
        decreases n - i,
    {
        if catalog.profile(&selector.rules[i].profile).is_none() {
            proof {
                lemma_rules_fault_prefix(*catalog, *selector, i + 1, n);
            }
            return Err(ProfileError::UnknownProfile(selector.rules[i].profile.clone()));
        }
        i = i + 1;
    }
    Ok(())
}

/// Why a controller cannot start, if so.
pub open spec fn start_fault(
    catalog: ProfileCatalog,
    registry: Registry,
    selector: ProfileSelector,
    context: ContextSnapshot,
) -> Option<compose::Fault> {
    match profiles::catalog_fault(catalog, registry) {
        Some(e) => Some(compose::fault_of(e)),
        None => match rules_fault(catalog, selector, selector.rules@.len() as int) {
            Some(e) => Some(compose::fault_of(e)),
            None => match compose::composed(catalog, registry, selector.choice(context), context) {
                Err(f) => Some(f),
                Ok(_) => None,
            },
        },
    }
}

fn find_lease(leases: &Vec<ProfileLease>, owner: ControlOwner, mode: &str) -> (found: (
    usize,
    bool,
))
    ensures
        found.0 == lease_place(leases@, owner, mode@, 0),
        found.0 <= leases@.len(),
        found.1 == (found.0 < leases@.len() && is_lease(leases@[found.0 as int], owner, mode@)),
{
    let mut i: usize = 0;
    proof {
        lemma_lease_place(leases@, owner, mode@, 0);
    }
    while i < leases.len() && (leases[i].owner.0 < owner.0 || (leases[i].owner == owner
        && text::less(leases[i].mode.as_str(), mode)))
        invariant
            i <= leases@.len(),
            lease_place(leases@, owner, mode@, 0) == lease_place(leases@, owner, mode@, i as int),
        decreases leases@.len() - i,
    {
        i = i + 1;
    }
    let found: bool = i < leases.len() && leases[i].owner == owner && text::same(
        leases[i].mode.as_str(),
        mode,
    );
    (i, found)
}

fn copy_leases(leases: &Vec<ProfileLease>) -> (copy: Vec<ProfileLease>)
    ensures
        copy@ == leases@,
{
    let mut copy: Vec<ProfileLease> = Vec::new();
    let mut i: usize = 0;
    while i < leases.len()
        invariant
            i <= leases@.len(),
            copy@ == leases@.subrange(0, i as int),
        decreases leases@.len() - i,
    {
        copy.push(leases[i].clone());
        proof {
            assert(leases@.subrange(0, i + 1) =~= leases@.subrange(0, i as int).push(
                leases@[i as int],
            ));
        }
        i = i + 1;
    }
    proof {
        assert(leases@.subrange(0, leases@.len() as int) =~= leases@);
    }
    copy
}

fn keep_other_owners(leases: &Vec<ProfileLease>, owner: ControlOwner) -> (kept: Vec<ProfileLease>)
    ensures
        kept@ == without_owner(leases@, owner, leases@.len() as int),
{
    let mut kept: Vec<ProfileLease> = Vec::new();
    let mut i: usize = 0;
    while i < leases.len()
        invariant
            i <= leases@.len(),
            kept@ == without_owner(leases@, owner, i as int),
        decreases leases@.len() - i,
    {
        if leases[i].owner != owner {
            kept.push(leases[i].clone());
        }
        i = i + 1;
    }
    kept
}

impl CompositionController {
    pub closed spec fn templates(self) -> ProfileCatalog {
        self.catalog
    }

    pub closed spec fn known_items(self) -> Registry {
        self.registry
    }

    pub closed spec fn rules(self) -> ProfileSelector {
        self.selector
    }

    /// What the commands have set.
    pub closed spec fn settings(self) -> Settings {
        Settings {
            context: self.context,
            manual: self.manual_profile,
            leases: self.modes@,
            sequence: self.next_mode_sequence,
        }
    }

    /// What is shown.
    pub closed spec fn shown(self) -> ProfileCompositionSnapshot {
        self.current
    }

    /// What waits to be shown.
    pub closed spec fn waiting(self) -> Option<ProfileCompositionSnapshot> {
        self.pending
    }

    /// The contacts that are down.
    pub closed spec fn contacts(self) -> Set<u32> {
        self.captured_contacts@
    }

    /// The generation of the next composition.
    pub closed spec fn upcoming(self) -> u64 {
        self.next_generation
    }

    /// What is shown once no contact is down.
    pub open spec fn latest(self) -> ProfileCompositionSnapshot {
        match self.waiting() {
            Some(snapshot) => snapshot,
            None => self.shown(),
        }
    }

    /// What the settings ask for.
    pub open spec fn asked(self) -> Result<ProfileShape, compose::Fault> {
        compose::composed(
            self.templates(),
            self.known_items(),
            effective(self.settings(), self.rules()),
            self.settings().context,
        )
    }

    /// What the settings ask for is shown or waits, something waits only while
    /// a contact is down, and there is one lease for each owner and mode.
    pub open spec fn wf(self) -> bool {
        &&& self.templates().wf()
        &&& self.known_items().wf()
        &&& self.settings().context.wf()
        &&& leases_sorted(self.settings().leases)
        &&& self.contacts() == Set::<u32>::empty() ==> self.waiting() is None
        &&& self.asked() == Ok::<ProfileShape, compose::Fault>(self.latest().composition@)
    }

    /// A command was carried out between two states.
    pub open spec fn followed_by(self, command: ControllerCommand, after: Self) -> bool {
        &&& after.wf()
        &&& after.templates() == self.templates()
        &&& after.known_items() == self.known_items()
        &&& after.rules() == self.rules()
        &&& after.contacts() == self.contacts()
        &&& match adjusted(self.settings(), command, self.templates()) {
            Ok(Some(settings)) => after.settings() == settings,
            Ok(None) => after.settings() == self.settings(),
            Err(_) => false,
        }
    }

    /// Nothing has been asked of it yet.
    pub open spec fn fresh(self) -> bool {
        &&& self.wf()
        &&& self.settings().manual is None
        &&& self.settings().leases == Seq::<ProfileLease>::empty()
        &&& self.settings().sequence == 1
        &&& self.contacts() == Set::<u32>::empty()
    }

    /// Nothing differs between two states.
    pub open spec fn unchanged(self, before: Self) -> bool {
        &&& self.templates() == before.templates()
        &&& self.known_items() == before.known_items()
        &&& self.rules() == before.rules()
        &&& self.settings() == before.settings()
        &&& self.shown() == before.shown()
        &&& self.waiting() == before.waiting()
        &&& self.contacts() == before.contacts()
        &&& self.upcoming() == before.upcoming()
    }

    pub fn new(
        catalog: ProfileCatalog,
        registry: Registry,
        selector: ProfileSelector,
        context: ContextSnapshot,
    ) -> (result: Result<Self, ProfileError>)
        requires
            catalog.wf(),
            registry.wf(),
            context.wf(),
        ensures
            match result {
                Err(e) => start_fault(catalog, registry, selector, context) == Some(
                    compose::fault_of(e),
                ),
                Ok(controller) => {
                    &&& start_fault(catalog, registry, selector, context) is None
                    &&& controller.wf()
                    &&& controller.fresh()
                    &&& controller.templates() == catalog
                    &&& controller.known_items() == registry
                    &&& controller.rules() == selector
                    &&& controller.settings() == (Settings {
                        context,
                        manual: None,
                        leases: Seq::empty(),
                        sequence: 1,
                    })
                    &&& is_snapshot(
                        controller.shown(),
                        1,
                        context.generation,
                        compose::composed(
                            catalog,
                            registry,
                            selector.choice(context),
                            context,
                        )->Ok_0,
                        None,
                    )
                    &&& controller.waiting() is None
                    &&& controller.contacts() == Set::<u32>::empty()
                    &&& controller.upcoming() == 2
                },
            },
    {
        catalog.validate(&registry)?;
        validate_selector(&catalog, &selector)?;
        let profile: ProfileId = selector.select(&context);
        let composition: ProfileComposition = catalog.compose(&registry, &profile, &context)?;
        let changes: CompositionDelta = CompositionDelta::between(None, &composition.bar);
        let generation: u64 = context.generation;
        let controller: CompositionController = CompositionController {
            catalog,
            registry,
            selector,
            context,
            manual_profile: None,
            modes: Vec::new(),
            current: ProfileCompositionSnapshot {
                generation: 1,
                context_generation: generation,
                composition,
                delta: changes,
            },
            pending: None,
            captured_contacts: BTreeSet::new(),
            next_generation: 2,
            next_mode_sequence: 1,
        };
        proof {
            assert(controller.settings().leases =~= Seq::empty());
        }
        Ok(controller)
    }

    pub fn current(&self) -> (current: &ProfileCompositionSnapshot)
        ensures
            *current == self.shown(),
    {
        &self.current
    }

    pub fn context(&self) -> (context: &ContextSnapshot)
        ensures
            *context == self.settings().context,
    {
        &self.context
    }

    fn require_profile(&self, profile: &ProfileId) -> (result: Result<(), ProfileError>)
        requires
            self.templates().wf(),
        ensures
            result == (if self.templates().profile_map().has(profile@) {
                Ok(())
            } else {
                Err(ProfileError::UnknownProfile(*profile))
            }),
    {
        match self.catalog.profile(profile) {
            Some(_) => Ok(()),
            None => Err(ProfileError::UnknownProfile(profile.clone())),
        }
    }

    fn effective_profile(
        &self,
        context: &ContextSnapshot,
        manual: &Option<ProfileId>,
        leases: &Vec<ProfileLease>,
    ) -> (profile: ProfileId)
        requires
            context.wf(),
        ensures
            forall|sequence: u64|
                profile == #[trigger] effective(
                    (Settings { context: *context, manual: *manual, leases: leases@, sequence }),
                    self.rules(),
                ),
    {
        if let Some(profile) = manual {
            return profile.clone();
        }
        let mut best: usize = 0;
        let mut i: usize = 0;
        while i < leases.len()
            invariant
                i <= leases@.len(),
                i > 0 ==> best < i,
                match strongest(leases@, i as int) {
                    Some(b) => b == best && i > 0,
                    None => i == 0,
                },
            decreases leases@.len() - i,
        {
            if i == 0 || leases[i].priority > leases[best].priority || (leases[i].priority
                == leases[best].priority && leases[i].sequence >= leases[best].sequence) {
                best = i;
            }
            i = i + 1;
        }
        if leases.len() > 0 {
            leases[best].profile.clone()
        } else {
            self.selector.select(context)
        }
    }

    fn build_snapshot(
        &self,
        context: &ContextSnapshot,
        manual: &Option<ProfileId>,
        leases: &Vec<ProfileLease>,
    ) -> (result: Result<ProfileCompositionSnapshot, ProfileError>)
        requires
            self.wf(),
            context.wf(),
        ensures
            forall|sequence: u64|
                match result {
                    Ok(snapshot) => {
                        let wanted = #[trigger] effective(
                            (Settings {
                                context: *context,
                                manual: *manual,
                                leases: leases@,
                                sequence,
                            }),
                            self.rules(),
                        );
                        let made = compose::composed(
                            self.templates(),
                            self.known_items(),
                            wanted,
                            *context,
                        );
                        made is Ok && is_snapshot(
                            snapshot,
                            self.upcoming(),
                            context.generation,
                            made->Ok_0,
                            Some(self.shown().composition.bar.elements@),
                        )
                    },
                    Err(e) => compose::composed(
                        self.templates(),
                        self.known_items(),
                        effective(
                            (Settings {
                                context: *context,
                                manual: *manual,
                                leases: leases@,
                                sequence,
                            }),
                            self.rules(),
                        ),
                        *context,
                    ) == Err::<ProfileShape, compose::Fault>(compose::fault_of(e)),
                },
    {
        let profile: ProfileId = self.effective_profile(context, manual, leases);
        let composition: ProfileComposition = self.catalog.compose(
            &self.registry,
            &profile,
            context,
        )?;
        let changes: CompositionDelta = CompositionDelta::between(
            Some(&self.current.composition.bar),
            &composition.bar,
        );
        Ok(
            ProfileCompositionSnapshot {
                generation: self.next_generation,
                context_generation: context.generation,
                composition,
                delta: changes,
            },
        )
    }
}

/// Settings that a command would lead to.
struct Draft {
    /// `None` where the context stays.
    context: Option<ContextSnapshot>,
    manual: Option<ProfileId>,
    leases: Vec<ProfileLease>,
    sequence: u64,
}

spec fn drafted(draft: Draft, context: ContextSnapshot) -> Settings {
    Settings {
        context: (match draft.context {
            Some(c) => c,
            None => context,
        }),
        manual: draft.manual,
        leases: draft.leases@,
        sequence: draft.sequence,
    }
}

/// The context that a command brings is well formed.
pub open spec fn command_wf(command: ControllerCommand) -> bool {
    command matches ControllerCommand::SetContext(context) ==> context.wf()
}

impl CompositionController {
    fn copy_manual(&self) -> (manual: Option<ProfileId>)
        ensures
            manual == self.settings().manual,
    {
        match &self.manual_profile {
            Some(profile) => Some(profile.clone()),
            None => None,
        }
    }

    /// The settings that a command leads to; `None` where it changes nothing.
    fn draft(&self, command: ControllerCommand) -> (result: Result<Option<Draft>, ProfileError>)
        requires
            self.wf(),
            command_wf(command),
        ensures
            adjusted(self.settings(), command, self.templates()) == (match result {
                Ok(Some(draft)) => Ok::<Option<Settings>, ProfileError>(
                    Some(drafted(draft, self.settings().context)),
                ),
                Ok(None) => Ok(None),
                Err(e) => Err(e),
            }),
            result matches Ok(Some(draft)) ==> {
                &&& leases_sorted(draft.leases@)
                &&& draft.context matches Some(c) ==> c.wf()
            },
    {
        let ghost now = self.settings();
        match command {
            ControllerCommand::SetContext(context) => {
                let draft: Draft = Draft {
                    context: Some(context),
                    manual: self.copy_manual(),
                    leases: copy_leases(&self.modes),
                    sequence: self.next_mode_sequence,
                };
                proof {
                    assert(drafted(draft, now.context) =~= (Settings { context, ..now }));
                }
                Ok(Some(draft))
            },
            ControllerCommand::SelectProfile(profile) => {
                self.require_profile(&profile)?;
                let draft: Draft = Draft {
                    context: None,
                    manual: Some(profile),
                    leases: copy_leases(&self.modes),
                    sequence: self.next_mode_sequence,
                };
                proof {
                    assert(drafted(draft, now.context) =~= (Settings {
                        manual: Some(profile),
                        ..now
                    }));
                }
                Ok(Some(draft))
            },
            ControllerCommand::UseAutomaticProfile => {
                if self.manual_profile.is_none() {
                    return Ok(None);
                }
                let draft: Draft = Draft {
                    context: None,
                    manual: None,
                    leases: copy_leases(&self.modes),
                    sequence: self.next_mode_sequence,
                };
                proof {
                    assert(drafted(draft, now.context) =~= (Settings { manual: None, ..now }));
                }
                Ok(Some(draft))
            },
            ControllerCommand::ActivateMode { owner, mode, profile, priority } => {
                self.require_profile(&profile)?;
                if text::blank(mode.as_str()) {
                    return Err(ProfileError::EmptyModeId);
                }
                let (at, replaces) = find_lease(&self.modes, owner, mode.as_str());
                let lease: ProfileLease = ProfileLease {
                    owner,
                    mode,
                    profile,
                    priority,
                    sequence: self.next_mode_sequence,
                };
                let ghost added = lease;
                let mut leases: Vec<ProfileLease> = copy_leases(&self.modes);
                if replaces {
                    leases.set(at, lease);
                } else {
                    leases.insert(at, lease);
                }
                let sequence: u64 = if self.next_mode_sequence == u64::MAX {
                    1
                } else {
                    self.next_mode_sequence + 1
                };
                proof {
                    assert(leases@ =~= with_lease(now.leases, added));
                    setting_a_lease_keeps_the_order(now.leases, added);
                }
                Ok(Some(Draft { context: None, manual: self.copy_manual(), leases, sequence }))
            },
            ControllerCommand::ReleaseMode { owner, mode } => {
                let (at, found) = find_lease(&self.modes, owner, mode.as_str());
                proof {
                    releasing_a_lease_keeps_the_order(now.leases, owner, mode@);
                }
                if !found {
                    return Ok(None);
                }
                let mut leases: Vec<ProfileLease> = copy_leases(&self.modes);
                leases.remove(at);
                proof {
                    assert(leases@ =~= without_lease(now.leases, owner, mode@));
                }
                Ok(
                    Some(
                        Draft {
                            context: None,
                            manual: self.copy_manual(),
                            leases,
                            sequence: self.next_mode_sequence,
                        },
                    ),
                )
            },
            ControllerCommand::ReleaseOwner(owner) => {
                let leases: Vec<ProfileLease> = keep_other_owners(&self.modes, owner);
                proof {
                    lemma_without_owner(now.leases, owner, now.leases.len() as int);
                }
                if leases.len() == self.modes.len() {
                    return Ok(None);
                }
                Ok(
                    Some(
                        Draft {
                            context: None,
                            manual: self.copy_manual(),
                            leases,
                            sequence: self.next_mode_sequence,
                        },
                    ),
                )
            },
        }
    }

    /// Carries out a command. What it leads to is shown at once, or, while a
    /// contact is down, once the last one is up. A command that fails changes
    /// nothing.
    pub fn apply(&mut self, command: ControllerCommand) -> (result: Result<
        Option<&ProfileCompositionSnapshot>,
        ProfileError,
    >)
        requires
            old(self).wf(),
            command_wf(command),
        ensures
            final(self).wf(),
            final(self).templates() == old(self).templates(),
            final(self).known_items() == old(self).known_items(),
            final(self).rules() == old(self).rules(),
            final(self).contacts() == old(self).contacts(),
            result is Ok ==> old(self).followed_by(command, *final(self)),
            match adjusted(old(self).settings(), command, old(self).templates()) {
                Err(e) => result == Err::<Option<&ProfileCompositionSnapshot>, ProfileError>(e)
                    && final(self).unchanged(*old(self)),
                Ok(None) => result == Ok::<Option<&ProfileCompositionSnapshot>, ProfileError>(None)
                    && final(self).unchanged(*old(self)),
                Ok(Some(settings)) => {
                    let made = compose::composed(
                        old(self).templates(),
                        old(self).known_items(),
                        effective(settings, old(self).rules()),
                        settings.context,
                    );
                    let previous = Some(old(self).shown().composition.bar.elements@);
                    match made {
                        Err(fault) => {
                            &&& result matches Err(e) && compose::fault_of(e) == fault
                            &&& final(self).unchanged(*old(self))
                        },
                        Ok(shape) => {
                            &&& final(self).settings() == settings
                            &&& final(self).upcoming() == context::generation_after(
                                old(self).upcoming(),
                            )
                            &&& if old(self).contacts() == Set::<u32>::empty() {
                                &&& is_snapshot(
                                    final(self).shown(),
                                    old(self).upcoming(),
                                    settings.context.generation,
                                    shape,
                                    previous,
                                )
                                &&& final(self).waiting() is None
                                &&& result matches Ok(Some(shown)) && *shown == final(self).shown()
                            } else {
                                &&& final(self).shown() == old(self).shown()
                                &&& final(self).waiting() is Some
                                &&& is_snapshot(
                                    final(self).waiting()->Some_0,
                                    old(self).upcoming(),
                                    settings.context.generation,
                                    shape,
                                    previous,
                                )
                                &&& result == Ok::<
                                    Option<&ProfileCompositionSnapshot>,
                                    ProfileError,
                                >(None)
                            }
                        },
                    }
                },
            },
    {
        let draft: Draft = match self.draft(command) {
            Err(e) => {
                return Err(e);
            },
            Ok(None) => {
                return Ok(None);
            },
            Ok(Some(draft)) => draft,
        };
        let ghost settings = drafted(draft, self.settings().context);
        let built: Result<ProfileCompositionSnapshot, ProfileError> = match &draft.context {
            Some(context) => self.build_snapshot(context, &draft.manual, &draft.leases),
            None => self.build_snapshot(&self.context, &draft.manual, &draft.leases),
        };
        proof {
            assert(effective(settings, self.rules()) == effective(
                (Settings {
                    context: settings.context,
                    manual: settings.manual,
                    leases: settings.leases,
                    sequence: settings.sequence,
                }),
                self.rules(),
            ));
        }
        let candidate: ProfileCompositionSnapshot = match built {
            Ok(candidate) => candidate,
            Err(e) => {
                return Err(e);
            },
        };
        let Draft { context, manual, leases, sequence } = draft;
        if let Some(context) = context {
            self.context = context;
        }
        self.manual_profile = manual;
        self.modes = leases;
        self.next_mode_sequence = sequence;
        self.next_generation = if self.next_generation == u64::MAX {
            1
        } else {
            self.next_generation + 1
        };
        proof {
            assert(self.settings() =~= settings);
        }
        if self.captured_contacts.is_empty() {
            self.current = candidate;
            Ok(Some(&self.current))
        } else {
            self.pending = Some(candidate);
            Ok(None)
        }
    }

    pub fn capture_started(&mut self, contact_id: u32)
        requires
            old(self).wf(),
        ensures
            final(self).wf(),
            final(self).templates() == old(self).templates(),
            final(self).known_items() == old(self).known_items(),
            final(self).rules() == old(self).rules(),
            final(self).settings() == old(self).settings(),
            final(self).shown() == old(self).shown(),
            final(self).waiting() == old(self).waiting(),
            final(self).upcoming() == old(self).upcoming(),
            final(self).contacts() == old(self).contacts().insert(contact_id),
    {
        self.captured_contacts.insert(contact_id);
        proof {
            assert(self.contacts().contains(contact_id));
        }
    }

    /// Shows what waits once the last contact is up.
    pub fn capture_ended(&mut self, contact_id: u32) -> (committed: Option<
        &ProfileCompositionSnapshot,
    >)
        requires
            old(self).wf(),
        ensures
            final(self).wf(),
            final(self).templates() == old(self).templates(),
            final(self).known_items() == old(self).known_items(),
            final(self).rules() == old(self).rules(),
            final(self).settings() == old(self).settings(),
            final(self).upcoming() == old(self).upcoming(),
            final(self).contacts() == old(self).contacts().remove(contact_id),
            if final(self).contacts() == Set::<u32>::empty() && old(self).waiting() is Some {
                &&& final(self).shown() == old(self).waiting()->Some_0
                &&& final(self).waiting() is None
                &&& committed matches Some(c) && *c == final(self).shown()
            } else {
                &&& final(self).shown() == old(self).shown()
                &&& final(self).waiting() == old(self).waiting()
                &&& committed is None
            },
    {
        self.captured_contacts.remove(&contact_id);
        if self.captured_contacts.is_empty() {
            if let Some(pending) = self.pending.take() {
                self.current = pending;
                return Some(&self.current);
            }
        }
        None
    }
}

// ---------------------------------------------------------------------------
// What commands do

/// A profile that was selected by hand is wanted. Without one, that of the lease is with
/// which no other lease has a greater priority, and none with the same priority was set
/// later. Without leases, the profile is that of the rule with the greatest priority among
/// those whose conditions hold, the earliest of several, or else the fallback.
pub proof fn the_wanted_profile_is_decided_in_order(settings: Settings, selector: ProfileSelector)
    ensures
        settings.manual matches Some(profile) ==> effective(settings, selector) == profile,
        settings.manual is None && settings.leases.len() > 0 ==> exists|i: int|
            {
                &&& 0 <= i < settings.leases.len()
                &&& effective(settings, selector) == (#[trigger] settings.leases[i]).profile
                &&& forall|j: int|
                    0 <= j < settings.leases.len() ==> {
                        ||| (#[trigger] settings.leases[j]).priority < settings.leases[i].priority
                        ||| settings.leases[j].priority == settings.leases[i].priority
                            && settings.leases[j].sequence <= settings.leases[i].sequence
                    }
            },
        settings.manual is None && settings.leases.len() == 0 ==> effective(settings, selector)
            == selector.choice(settings.context),
{
    let n = settings.leases.len() as int;
    the_strongest_lease_wins(settings.leases, n);
    if settings.manual is None && n > 0 {
        let best = strongest(settings.leases, n)->Some_0;
        assert forall|j: int| 0 <= j < n implies {
            ||| (#[trigger] settings.leases[j]).priority < settings.leases[best].priority
            ||| settings.leases[j].priority == settings.leases[best].priority
                && settings.leases[j].sequence <= settings.leases[best].sequence
        } by {
            assert(at_least(settings.leases[best], settings.leases[j]));
        }
    }
}

/// There is a lease of the owner and mode.
pub open spec fn leased(leases: Seq<ProfileLease>, owner: ControlOwner, mode: Seq<char>) -> bool {
    exists|i: int|
        0 <= i < leases.len() && (#[trigger] leases[i]).owner == owner && leases[i].mode@ == mode
}

proof fn lemma_place(
    leases: Seq<ProfileLease>,
    owner: ControlOwner,
    mode: Seq<char>,
    from: int,
)
    requires
        leases_sorted(leases),
        0 <= from <= leases.len(),
        forall|i: int| 0 <= i < from ==> precedes(#[trigger] leases[i], owner, mode),
    ensures
        ({
            let at = lease_place(leases, owner, mode, from);
            &&& from <= at <= leases.len()
            &&& forall|i: int| 0 <= i < at ==> precedes(#[trigger] leases[i], owner, mode)
            &&& leased(leases, owner, mode) <==> at < leases.len() && is_lease(
                leases[at],
                owner,
                mode,
            )
            &&& forall|i: int|
                0 <= i < leases.len() && is_lease(#[trigger] leases[i], owner, mode) ==> i == at
        }),
    decreases leases.len() - from,
{
    text::lemma_text_less_irreflexive(mode);
    if from < leases.len() && precedes(leases[from], owner, mode) {
        lemma_place(leases, owner, mode, from + 1);
    } else {
        assert forall|i: int|
            0 <= i < leases.len() && is_lease(#[trigger] leases[i], owner, mode) implies i
            == from by {
            if i < from {
                assert(precedes(leases[i], owner, mode));
            } else if i > from {
                assert(precedes(leases[from], leases[i].owner, leases[i].mode@));
            }
        }
    }
}

/// The leases but those of an owner and mode are the same.
pub open spec fn others_kept(
    before: Seq<ProfileLease>,
    after: Seq<ProfileLease>,
    owner: ControlOwner,
    mode: Seq<char>,
) -> bool {
    forall|x: ProfileLease|
        !(x.owner == owner && x.mode@ == mode) ==> (#[trigger] before.contains(x)
            <==> after.contains(x))
}

proof fn lemma_with_lease(leases: Seq<ProfileLease>, lease: ProfileLease)
    requires
        leases_sorted(leases),
    ensures
        with_lease(leases, lease).contains(lease),
        forall|x: ProfileLease| #[trigger]
            with_lease(leases, lease).contains(x) && x.owner == lease.owner && x.mode@
                == lease.mode@ ==> x == lease,
        others_kept(leases, with_lease(leases, lease), lease.owner, lease.mode@),
{
    let owner = lease.owner;
    let mode = lease.mode@;
    lemma_place(leases, owner, mode, 0);
    let at = lease_place(leases, owner, mode, 0);
    let after = with_lease(leases, lease);
    assert(after[at] == lease);
    if leased(leases, owner, mode) {
        assert forall|x: ProfileLease| !(x.owner == owner && x.mode@ == mode) implies (
        #[trigger] leases.contains(x) <==> after.contains(x)) by {
            if leases.contains(x) {
                let i = choose|i: int| 0 <= i < leases.len() && leases[i] == x;
                assert(after[i] == x);
            }
            if after.contains(x) {
                let i = choose|i: int| 0 <= i < after.len() && after[i] == x;
                assert(leases[i] == x);
            }
        }
        assert forall|x: ProfileLease| #[trigger]
            after.contains(x) && x.owner == owner && x.mode@ == mode implies x == lease by {
            let i = choose|i: int| 0 <= i < after.len() && after[i] == x;
            if i != at {
                assert(leases[i] == x);
                assert(is_lease(leases[i], owner, mode));
            }
        }
    } else {
        assert forall|x: ProfileLease| !(x.owner == owner && x.mode@ == mode) implies (
        #[trigger] leases.contains(x) <==> after.contains(x)) by {
            text::lemma_insert_contains(leases, at, lease, x);
        }
        assert forall|x: ProfileLease| #[trigger]
            after.contains(x) && x.owner == owner && x.mode@ == mode implies x == lease by {
            text::lemma_insert_contains(leases, at, lease, x);
            if leases.contains(x) {
                let i = choose|i: int| 0 <= i < leases.len() && leases[i] == x;
                assert(leased(leases, owner, mode));
            }
        }
    }
}

proof fn lemma_without_lease(leases: Seq<ProfileLease>, owner: ControlOwner, mode: Seq<char>)
    requires
        leases_sorted(leases),
    ensures
        !leased(without_lease(leases, owner, mode), owner, mode),
        without_lease(leases, owner, mode).len() < leases.len() <==> leased(leases, owner, mode),
        without_lease(leases, owner, mode).len() <= leases.len(),
        others_kept(leases, without_lease(leases, owner, mode), owner, mode),
{
    lemma_place(leases, owner, mode, 0);
    let at = lease_place(leases, owner, mode, 0);
    let after = without_lease(leases, owner, mode);
    if leased(leases, owner, mode) {
        assert forall|i: int| 0 <= i < after.len() implies !is_lease(
            #[trigger] after[i],
            owner,
            mode,
        ) by {
            if i < at {
                assert(after[i] == leases[i]);
            } else {
                assert(after[i] == leases[i + 1]);
            }
        }
        assert forall|x: ProfileLease| !(x.owner == owner && x.mode@ == mode) implies (
        #[trigger] leases.contains(x) <==> after.contains(x)) by {
            if leases.contains(x) {
                let i = choose|i: int| 0 <= i < leases.len() && leases[i] == x;
                if i < at {
                    assert(after[i] == x);
                } else {
                    assert(i != at);
                    assert(after[i - 1] == x);
                }
            }
            if after.contains(x) {
                let i = choose|i: int| 0 <= i < after.len() && after[i] == x;
                if i < at {
                    assert(leases[i] == x);
                } else {
                    assert(leases[i + 1] == x);
                }
            }
        }
    }
}

proof fn lemma_owner_gone(leases: Seq<ProfileLease>, owner: ControlOwner, n: int)
    requires
        0 <= n <= leases.len(),
    ensures
        without_owner(leases, owner, n).len() <= n,
        without_owner(leases, owner, n).len() == n <==> forall|i: int|
            0 <= i < n ==> (#[trigger] leases[i]).owner != owner,
        forall|x: ProfileLease| #[trigger]
            without_owner(leases, owner, n).contains(x) <==> x.owner != owner && leases.take(
                n,
            ).contains(x),
    decreases n,
{
    if n > 0 {
        lemma_owner_gone(leases, owner, n - 1);
        let before = without_owner(leases, owner, n - 1);
        let after = without_owner(leases, owner, n);
        let some = leases.take(n - 1);
        let more = leases.take(n);
        assert(more =~= some.push(leases[n - 1]));
        assert forall|x: ProfileLease| #[trigger] after.contains(x) <==> x.owner != owner
            && more.contains(x) by {
            text::lemma_insert_contains(some, n - 1, leases[n - 1], x);
            assert(some.insert(n - 1, leases[n - 1]) =~= more);
            assert(before.contains(x) <==> x.owner != owner && some.contains(x));
            if leases[n - 1].owner != owner {
                text::lemma_insert_contains(before, before.len() as int, leases[n - 1], x);
                assert(before.insert(before.len() as int, leases[n - 1]) =~= after);
            }
        }
    }
}

/// A command that names an unknown profile is refused, and so is one that activates a mode
/// without a name. Automatic selection where nothing is selected by hand, and the release
/// of what is not held, change nothing. Every other command sets what it says and leaves
/// everything else as it was.
pub proof fn commands_set_what_they_say(
    settings: Settings,
    command: ControllerCommand,
    catalog: ProfileCatalog,
)
    requires
        leases_sorted(settings.leases),
    ensures
        ({
            let next = adjusted(settings, command, catalog);
            match command {
                ControllerCommand::SetContext(context) => {
                    &&& next matches Ok(Some(after))
                    &&& after.context == context
                    &&& after.manual == settings.manual
                    &&& after.leases == settings.leases
                    &&& after.sequence == settings.sequence
                },
                ControllerCommand::SelectProfile(profile) => if catalog.profile_map().has(
                    profile@,
                ) {
                    &&& next matches Ok(Some(after))
                    &&& after.context == settings.context
                    &&& after.manual == Some(profile)
                    &&& after.leases == settings.leases
                    &&& after.sequence == settings.sequence
                } else {
                    next == Err::<Option<Settings>, ProfileError>(
                        ProfileError::UnknownProfile(profile),
                    )
                },
                ControllerCommand::UseAutomaticProfile => if settings.manual is None {
                    next == Ok::<Option<Settings>, ProfileError>(None)
                } else {
                    &&& next matches Ok(Some(after))
                    &&& after.context == settings.context
                    &&& after.manual is None
                    &&& after.leases == settings.leases
                    &&& after.sequence == settings.sequence
                },
                ControllerCommand::ActivateMode {
                    owner,
                    mode,
                    profile,
                    priority,
                } => if !catalog.profile_map().has(profile@) {
                    next == Err::<Option<Settings>, ProfileError>(
                        ProfileError::UnknownProfile(profile),
                    )
                } else if forall|i: int| 0 <= i < mode@.len() ==> text::is_space(
                    #[trigger] mode@[i],
                ) {
                    next == Err::<Option<Settings>, ProfileError>(ProfileError::EmptyModeId)
                } else {
                    &&& next matches Ok(Some(after))
                    &&& after.context == settings.context
                    &&& after.manual == settings.manual
                    &&& after.leases.contains(
                        ProfileLease {
                            owner,
                            mode,
                            profile,
                            priority,
                            sequence: settings.sequence,
                        },
                    )
                    &&& forall|x: ProfileLease| #[trigger]
                        after.leases.contains(x) && x.owner == owner && x.mode@ == mode@
                            ==> x.sequence == settings.sequence && x.profile == profile
                            && x.priority == priority
                    &&& others_kept(settings.leases, after.leases, owner, mode@)
                    &&& after.sequence == if settings.sequence == u64::MAX {
                        1
                    } else {
                        settings.sequence + 1
                    }
                },
                ControllerCommand::ReleaseMode { owner, mode } => if !leased(
                    settings.leases,
                    owner,
                    mode@,
                ) {
                    next == Ok::<Option<Settings>, ProfileError>(None)
                } else {
                    &&& next matches Ok(Some(after))
                    &&& after.context == settings.context
                    &&& after.manual == settings.manual
                    &&& after.sequence == settings.sequence
                    &&& !leased(after.leases, owner, mode@)
                    &&& others_kept(settings.leases, after.leases, owner, mode@)
                },
                ControllerCommand::ReleaseOwner(owner) => if forall|i: int|
                    0 <= i < settings.leases.len() ==> (#[trigger] settings.leases[i]).owner
                        != owner {
                    next == Ok::<Option<Settings>, ProfileError>(None)
                } else {
                    &&& next matches Ok(Some(after))
                    &&& after.context == settings.context
                    &&& after.manual == settings.manual
                    &&& after.sequence == settings.sequence
                    &&& forall|x: ProfileLease| #[trigger]
                        after.leases.contains(x) <==> x.owner != owner && settings.leases.contains(
                            x,
                        )
                },
            }
        }),
{
    match command {
        ControllerCommand::ActivateMode { owner, mode, profile, priority } => {
            lemma_with_lease(
                settings.leases,
                ProfileLease { owner, mode, profile, priority, sequence: settings.sequence },
            );
        },
        ControllerCommand::ReleaseMode { owner, mode } => {
            lemma_without_lease(settings.leases, owner, mode@);
        },
        ControllerCommand::ReleaseOwner(owner) => {
            lemma_owner_gone(settings.leases, owner, settings.leases.len() as int);
            assert(settings.leases.take(settings.leases.len() as int) =~= settings.leases);
        },
        _ => {},
    }
}

/// A controller starts exactly where its catalog is accepted, every profile that its rules
/// name is known, the fallback too, and the profile that the context calls for can be
/// composed.
pub proof fn controllers_start_where_all_profiles_are_known(
    catalog: ProfileCatalog,
    registry: Registry,
    selector: ProfileSelector,
    context: ContextSnapshot,
)
    ensures
        start_fault(catalog, registry, selector, context) is None <==> {
            &&& profiles::catalog_fault(catalog, registry) is None
            &&& catalog.profile_map().has(selector.fallback@)
            &&& forall|i: int|
                0 <= i < selector.rules@.len() ==> catalog.profile_map().has(
                    (#[trigger] selector.rules@[i]).profile@,
                )
            &&& compose::composed(catalog, registry, selector.choice(context), context) is Ok
        },
{
    lemma_rules_known(catalog, selector, selector.rules@.len() as int);
}

proof fn lemma_rules_known(catalog: ProfileCatalog, selector: ProfileSelector, n: int)
    requires
        0 <= n <= selector.rules@.len(),
    ensures
        rules_fault(catalog, selector, n) is None <==> catalog.profile_map().has(
            selector.fallback@,
        ) && forall|i: int|
            0 <= i < n ==> catalog.profile_map().has((#[trigger] selector.rules@[i]).profile@),
    decreases n,
{
    if n > 0 {
        lemma_rules_known(catalog, selector, n - 1);
    }
}

} // verus!
