//! Putting an appearance together from its parts.
use vstd::prelude::*;

use crate::text;

verus! {

#[derive(Clone, Copy, Debug, PartialEq, Eq, Structural)]
pub enum ColorScheme {
    Dark,
    Light,
}

#[derive(Clone, Copy, Debug, PartialEq, Eq, Structural)]
pub enum MotionPolicy {
    Full,
    Reduced,
    Disabled,
}

/// What a colour is for.
#[derive(Clone, Copy, Debug, PartialEq, Eq, Structural)]
pub enum ColorRole {
    Background,
    Surface,
    SurfaceHover,
    SurfacePressed,
    Foreground,
    Muted,
    Accent,
    Destructive,
}

/// How many roles there are.
pub const COLOR_ROLES: usize = 8;

/// The number of a role.
pub open spec fn role_number(role: ColorRole) -> int {
    match role {
        ColorRole::Background => 0,
        ColorRole::Surface => 1,
        ColorRole::SurfaceHover => 2,
        ColorRole::SurfacePressed => 3,
        ColorRole::Foreground => 4,
        ColorRole::Muted => 5,
        ColorRole::Accent => 6,
        ColorRole::Destructive => 7,
    }
}

impl ColorRole {
    pub fn number(self) -> (n: usize)
        ensures
            n == role_number(self),
            n < COLOR_ROLES,
    {
        match self {
            ColorRole::Background => 0,
            ColorRole::Surface => 1,
            ColorRole::SurfaceHover => 2,
            ColorRole::SurfacePressed => 3,
            ColorRole::Foreground => 4,
            ColorRole::Muted => 5,
            ColorRole::Accent => 6,
            ColorRole::Destructive => 7,
        }
    }
}

/// A complete appearance: a packed colour for every role, by its number.
#[derive(Clone, Debug, PartialEq, Eq)]
pub struct AppearanceSnapshot {
    pub generation: u32,
    pub scheme: ColorScheme,
    pub motion: MotionPolicy,
    pub corner_radius_millipixels: u32,
    pub colors: Vec<u32>,
}

/// An appearance of which parts are still missing.
#[derive(Debug)]
struct Pending {
    generation: u32,
    scheme: ColorScheme,
    motion: MotionPolicy,
    corner_radius_millipixels: u32,
    colors: Vec<Option<u32>>,
}

/// An appearance of which parts may be missing.
#[verifier::ext_equal]
pub struct PendingView {
    pub generation: u32,
    pub scheme: ColorScheme,
    pub motion: MotionPolicy,
    pub corner_radius_millipixels: u32,
    /// The last colour that was given for each role.
    pub colors: Seq<Option<u32>>,
}

/// Every role has a colour.
pub open spec fn complete(colors: Seq<Option<u32>>) -> bool {
    forall|i: int| 0 <= i < colors.len() ==> (#[trigger] colors[i]) is Some
}

/// No role has a colour.
pub open spec fn uncolored() -> Seq<Option<u32>> {
    Seq::new(COLOR_ROLES as nat, |i: int| None)
}

/// The snapshot is the appearance that was put together.
pub open spec fn assembled(snapshot: AppearanceSnapshot, pending: PendingView) -> bool {
    &&& snapshot.generation == pending.generation
    &&& snapshot.scheme == pending.scheme
    &&& snapshot.motion == pending.motion
    &&& snapshot.corner_radius_millipixels == pending.corner_radius_millipixels
    &&& snapshot.colors@.len() == pending.colors.len()
    &&& forall|i: int|
        0 <= i < pending.colors.len() ==> (#[trigger] pending.colors[i]) == Some(
            snapshot.colors@[i],
        )
}

/// The parts of an appearance that have arrived.
#[derive(Debug)]
pub struct AppearanceAssembly {
    pending: Option<Pending>,
}

impl AppearanceAssembly {
    /// What has arrived, unless nothing has.
    pub closed spec fn parts(self) -> Option<PendingView> {
        match self.pending {
            None => None,
            Some(pending) => Some(
                PendingView {
                    generation: pending.generation,
                    scheme: pending.scheme,
                    motion: pending.motion,
                    corner_radius_millipixels: pending.corner_radius_millipixels,
                    colors: pending.colors@,
                },
            ),
        }
    }

    /// There is a place for the colour of every role.
    pub open spec fn wf(self) -> bool {
        self.parts() is Some ==> self.parts()->0.colors.len() == COLOR_ROLES
    }

    pub fn new() -> (assembly: Self)
        ensures
            assembly.wf(),
            assembly.parts() is None,
    {
        AppearanceAssembly { pending: None }
    }

    /// An appearance begins. What had arrived before is forgotten.
    pub fn begin(
        &mut self,
        generation: u32,
        scheme: Option<ColorScheme>,
        motion: Option<MotionPolicy>,
        corner_radius_millipixels: u32,
    ) -> (result: Result<(), &'static str>)
        requires
            old(self).wf(),
        ensures
            final(self).wf(),
            match (scheme, motion) {
                (Some(scheme), Some(motion)) => {
                    &&& result is Ok
                    &&& final(self).parts() == Some(
                        PendingView {
                            generation,
                            scheme,
                            motion,
                            corner_radius_millipixels,
                            colors: uncolored(),
                        },
                    )
                },
                _ => {
                    &&& result is Err
                    &&& result->Err_0@ == (if scheme is None {
                        "unknown appearance color scheme"@
                    } else {
                        "unknown appearance motion policy"@
                    })
                    &&& final(self).parts() == old(self).parts()
                },
            },
    {
        let scheme = match scheme {
            Some(scheme) => scheme,
            None => {
                return Err("unknown appearance color scheme");
            },
        };
        let motion = match motion {
            Some(motion) => motion,
            None => {
                return Err("unknown appearance motion policy");
            },
        };
        let mut colors: Vec<Option<u32>> = Vec::new();
        let mut i: usize = 0;
        while i < COLOR_ROLES
            invariant
                i <= COLOR_ROLES,
                colors@.len() == i,
                forall|k: int| 0 <= k < i ==> (#[trigger] colors@[k]) is None,
            decreases COLOR_ROLES - i,
        {
            colors.push(None);
            i = i + 1;
        }
        proof {
            assert(colors@ =~= uncolored());
        }
        self.pending = Some(
            Pending { generation, scheme, motion, corner_radius_millipixels, colors },
        );
        Ok(())
    }

    /// A colour arrives.
    pub fn color(
        &mut self,
        generation: u32,
        role: Result<Option<ColorRole>, String>,
        rgba: u32,
    ) -> (result: Result<(), String>)
        requires
            old(self).wf(),
        ensures
            final(self).wf(),
            match old(self).parts() {
                None => {
                    &&& result is Err
                    &&& result->Err_0@ == "appearance color arrived before begin"@
                    &&& final(self).parts() is None
                },
                Some(parts) => if parts.generation != generation {
                    &&& result is Err
                    &&& result->Err_0@ == "appearance color generation does not match begin"@
                    &&& final(self).parts() == Some(parts)
                } else {
                    match role {
                        Err(cause) => {
                            &&& result is Err
                            &&& result->Err_0@ == "appearance contains an unknown color role: "@
                                + cause@
                            &&& final(self).parts() == Some(parts)
                        },
                        Ok(None) => {
                            &&& result is Err
                            &&& result->Err_0@ == "unknown appearance color role"@
                            &&& final(self).parts() == Some(parts)
                        },
                        Ok(Some(role)) => {
                            &&& result is Ok
                            &&& final(self).parts() == Some(
                                PendingView {
                                    colors: parts.colors.update(role_number(role), Some(rgba)),
                                    ..parts
                                },
                            )
                        },
                    }
                },
            },
    {
        let mut taken: Option<Pending> = None;
        std::mem::swap(&mut self.pending, &mut taken);
        let mut pending = match taken {
            Some(pending) => pending,
            None => {
                return Err("appearance color arrived before begin".to_owned());
            },
        };
        if pending.generation != generation {
            self.pending = Some(pending);
            return Err("appearance color generation does not match begin".to_owned());
        }
        let role = match role {
            Ok(Some(role)) => role,
            Ok(None) => {
                self.pending = Some(pending);
                return Err("unknown appearance color role".to_owned());
            },
            Err(cause) => {
                self.pending = Some(pending);
                return Err(
                    text::joined("appearance contains an unknown color role: ", cause.as_str()),
                );
            },
        };
        pending.colors.set(role.number(), Some(rgba));
        self.pending = Some(pending);
        Ok(())
    }

    /// The appearance ends; hands it out, if nothing is missing. Either way
    /// nothing is left of it.
    pub fn done(&mut self, generation: u32) -> (result: Result<AppearanceSnapshot, &'static str>)
        requires
            old(self).wf(),
        ensures
            final(self).wf(),
            final(self).parts() is None,
            match old(self).parts() {
                None => result is Err && result->Err_0@ == "appearance done arrived before begin"@,
                Some(parts) => if parts.generation == generation && complete(parts.colors) {
                    result is Ok && assembled(result->Ok_0, parts)
                } else {
                    result is Err && result->Err_0@ == "appearance snapshot is incomplete"@
                },
            },
    {
        let mut taken: Option<Pending> = None;
        std::mem::swap(&mut self.pending, &mut taken);
        let pending = match taken {
            Some(pending) => pending,
            None => {
                return Err("appearance done arrived before begin");
            },
        };
        if pending.generation != generation {
            return Err("appearance snapshot is incomplete");
        }
        let mut colors: Vec<u32> = Vec::new();
        let mut i: usize = 0;
        while i < pending.colors.len()
            invariant
                i <= pending.colors@.len(),
                colors@.len() == i,
                self.wf(),
                self.parts() is None,
                old(self).parts() is Some,
                old(self).parts()->0.colors == pending.colors@,
                forall|k: int|
                    0 <= k < i ==> (#[trigger] pending.colors@[k]) == Some(colors@[k]),
            decreases pending.colors@.len() - i,
        {
            match pending.colors[i] {
                Some(color) => {
                    colors.push(color);
                },
                None => {
                    proof {
                        assert(!((#[trigger] pending.colors@[i as int]) is Some));
                    }
                    return Err("appearance snapshot is incomplete");
                },
            }
            i = i + 1;
        }
        Ok(
            AppearanceSnapshot {
                generation: pending.generation,
                scheme: pending.scheme,
                motion: pending.motion,
                corner_radius_millipixels: pending.corner_radius_millipixels,
                colors,
            },
        )
    }
}

/// An appearance for which no colour was given is never handed out.
pub proof fn colorless_appearances_are_incomplete()
    ensures
        !complete(uncolored()),
{
    assert(uncolored()[0] is None);
}

/// Every role has a place of its own among the colours, in the order of the
/// roles: a colour that is given for one is that of no other.
pub proof fn roles_have_places_of_their_own(
    colors: Seq<Option<u32>>,
    role: ColorRole,
    other: ColorRole,
    rgba: u32,
)
    requires
        colors.len() == 8,
    ensures
        0 <= role_number(role) < 8,
        role_number(role) == role_number(other) <==> role == other,
        colors.update(role_number(role), Some(rgba))[role_number(other)] == if role == other {
            Some(rgba)
        } else {
            colors[role_number(other)]
        },
        role_number(role) == 0 <==> role is Background,
        role_number(role) == 1 <==> role is Surface,
        role_number(role) == 2 <==> role is SurfaceHover,
        role_number(role) == 3 <==> role is SurfacePressed,
        role_number(role) == 4 <==> role is Foreground,
        role_number(role) == 5 <==> role is Muted,
        role_number(role) == 6 <==> role is Accent,
        role_number(role) == 7 <==> role is Destructive,
{
}

/// An appearance is complete where each of eight roles has a colour, and it is
/// handed out with the colours that were given.
pub proof fn appearances_have_the_colors_that_were_given(
    snapshot: AppearanceSnapshot,
    pending: PendingView,
    role: ColorRole,
)
    requires
        pending.colors.len() == 8,
        assembled(snapshot, pending),
    ensures
        complete(pending.colors),
        snapshot.colors@.len() == 8,
        pending.colors[role_number(role)] == Some(snapshot.colors@[role_number(role)]),
        snapshot.generation == pending.generation,
        snapshot.scheme == pending.scheme,
        snapshot.motion == pending.motion,
        snapshot.corner_radius_millipixels == pending.corner_radius_millipixels,
{
}

} // verus!
