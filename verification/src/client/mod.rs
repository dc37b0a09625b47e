//! What a plugin process does with what the compositor tells it, apart from
//! drawing.
use vstd::prelude::*;

use crate::text;

pub mod appearance;
pub mod pace;
pub mod presentation;
pub mod surface;

verus! {

/// What a surface is for.
#[derive(Clone, Copy, Debug, PartialEq, Eq, Structural)]
pub enum SurfaceRole {
    Item,
    Backdrop,
}

/// How wide a surface can be.
#[derive(Clone, Copy, Debug, PartialEq, Eq, Structural)]
pub struct Sizing {
    pub minimum: u32,
    pub preferred: u32,
    pub maximum: u32,
}

/// The widths stand in order, and none is zero.
pub open spec fn ordered(sizing: Sizing) -> bool {
    0 < sizing.minimum <= sizing.preferred <= sizing.maximum
}

impl Sizing {
    pub fn new(minimum: u32, preferred: u32, maximum: u32) -> (sizing: Self)
        ensures
            sizing == (Sizing { minimum, preferred, maximum }),
    {
        Sizing { minimum, preferred, maximum }
    }

    pub fn is_valid(self) -> (valid: bool)
        ensures
            valid == ordered(self),
    {
        self.minimum > 0 && self.minimum <= self.preferred && self.preferred <= self.maximum
    }
}

/// How a plugin process connects to the session.
#[derive(Clone, Debug, PartialEq, Eq)]
pub struct ClientOptions {
    pub plugin_id: String,
    pub item_id: String,
    pub compact_sizing: Sizing,
    pub expanded_sizing: Option<Sizing>,
    pub surface_role: SurfaceRole,
    pub require_hardware: bool,
    /// Used only where a launcher names no other.
    pub default_socket_name: String,
}

impl ClientOptions {
    pub fn new(plugin_id: &str, default_socket_name: &str) -> (options: Self)
        ensures
            options.plugin_id@ == plugin_id@,
            options.item_id@ == plugin_id@,
            options.compact_sizing == (Sizing { minimum: 80, preferred: 1004, maximum: 2008 }),
            options.expanded_sizing is None,
            options.surface_role == SurfaceRole::Item,
            !options.require_hardware,
            options.default_socket_name@ == default_socket_name@,
    {
        ClientOptions {
            plugin_id: text::copied(plugin_id),
            item_id: text::copied(plugin_id),
            compact_sizing: Sizing { minimum: 80, preferred: 1004, maximum: 2008 },
            expanded_sizing: None,
            surface_role: SurfaceRole::Item,
            require_hardware: false,
            default_socket_name: text::copied(default_socket_name),
        }
    }

    pub fn require_hardware(self, required: bool) -> (options: Self)
        ensures
            options == (ClientOptions { require_hardware: required, ..self }),
    {
        let mut options = self;
        options.require_hardware = required;
        options
    }

    pub fn item_id(self, item_id: &str) -> (options: Self)
        ensures
            options.item_id@ == item_id@,
            options == (ClientOptions { item_id: options.item_id, ..self }),
    {
        let mut options = self;
        options.item_id = text::copied(item_id);
        options
    }

    pub fn compact_sizing(self, sizing: Sizing) -> (options: Self)
        ensures
            options == (ClientOptions { compact_sizing: sizing, ..self }),
    {
        let mut options = self;
        options.compact_sizing = sizing;
        options
    }

    pub fn expanded_sizing(self, sizing: Sizing) -> (options: Self)
        ensures
            options == (ClientOptions { expanded_sizing: Some(sizing), ..self }),
    {
        let mut options = self;
        options.expanded_sizing = Some(sizing);
        options
    }

    /// A layer behind all items, which takes no touches.
    pub fn backdrop(self) -> (options: Self)
        ensures
            options == (ClientOptions { surface_role: SurfaceRole::Backdrop, ..self }),
    {
        let mut options = self;
        options.surface_role = SurfaceRole::Backdrop;
        options
    }

    /// Whether a process can be run with these options: the widths of a
    /// backdrop do not matter.
    pub fn check(&self) -> (result: Result<(), &'static str>)
        ensures
            match result {
                Ok(_) => runnable(*self),
                Err(message) => if self.surface_role == SurfaceRole::Item && !ordered(
                    self.compact_sizing,
                ) {
                    message@ == "compact sizing must satisfy 0 < minimum <= preferred <= maximum"@
                } else {
                    !runnable(*self) && message@
                        == "expanded sizing must satisfy 0 < minimum <= preferred <= maximum"@
                },
            },
    {
        if self.surface_role == SurfaceRole::Item {
            if !self.compact_sizing.is_valid() {
                return Err("compact sizing must satisfy 0 < minimum <= preferred <= maximum");
            }
            if let Some(sizing) = self.expanded_sizing {
                if !sizing.is_valid() {
                    return Err("expanded sizing must satisfy 0 < minimum <= preferred <= maximum");
                }
            }
        }
        Ok(())
    }

    /// The expanded widths, or zeros where there are none.
    pub fn requested_expansion(&self) -> (sizing: Sizing)
        ensures
            sizing == (match self.expanded_sizing {
                Some(sizing) => sizing,
                None => Sizing { minimum: 0, preferred: 0, maximum: 0 },
            }),
    {
        match self.expanded_sizing {
            Some(sizing) => sizing,
            None => Sizing { minimum: 0, preferred: 0, maximum: 0 },
        }
    }
}

/// The widths of an item are in order.
pub open spec fn runnable(options: ClientOptions) -> bool {
    options.surface_role == SurfaceRole::Item ==> ordered(options.compact_sizing) && (
    options.expanded_sizing is Some ==> ordered(options.expanded_sizing->0))
}

/// Where the surface is, and how often it is shown.
#[derive(Clone, Copy, Debug, PartialEq, Eq, Structural)]
pub struct SurfaceConfig {
    pub width: u32,
    pub height: u32,
    pub refresh_millihz: u32,
}

impl SurfaceConfig {
    /// Whether there is any place at all.
    pub fn check(&self) -> (result: Result<(), &'static str>)
        ensures
            match result {
                Ok(_) => self.width > 0 && self.height > 0,
                Err(message) => (self.width == 0 || self.height == 0) && message@
                    == "compositor configured an empty region"@,
            },
    {
        if self.width == 0 || self.height == 0 {
            return Err("compositor configured an empty region");
        }
        Ok(())
    }
}

/// What comes after a frame.
#[derive(Clone, Copy, Debug, PartialEq, Eq, Structural)]
pub enum FrameFlow {
    /// Another frame, as soon as the compositor wants one.
    Animate,
    /// Nothing, until something happens.
    Wait,
    /// The end.
    Exit,
}

#[derive(Clone, Copy, Debug, PartialEq, Eq, Structural)]
pub enum ContactPhase {
    Down,
    Motion,
    Up,
    Cancel,
}

/// Who touches: only a hand on the Touch Bar can ever grant anything.
#[derive(Clone, Copy, Debug, PartialEq, Eq, Structural)]
pub enum ContactOrigin {
    Physical,
    Synthetic,
}

/// What a run of a process came to.
#[derive(Clone, Debug, PartialEq, Eq)]
pub struct RunSummary {
    pub plugin_id: String,
    pub frames: u64,
    pub renderer_name: String,
}

// ---------------------------------------------------------------------------
// The renderer

/// A renderer that draws without the help of hardware.
pub open spec fn is_software(renderer: Seq<char>) -> bool {
    let low = text::lowered(renderer);
    text::occurs(low, "llvmpipe"@) || text::occurs(low, "softpipe"@)
}

/// Whether a renderer may be used.
pub fn check_renderer(renderer: &str, require_hardware: bool) -> (result: Result<(), String>)
    ensures
        match result {
            Ok(_) => !(require_hardware && is_software(renderer@)),
            Err(message) => require_hardware && is_software(renderer@) && message@
                == "software renderer selected: "@ + renderer@,
        },
{
    if require_hardware {
        let low = text::lower_text(renderer);
        if text::contains(low.as_str(), "llvmpipe") || text::contains(low.as_str(), "softpipe") {
            return Err(text::joined("software renderer selected: ", renderer));
        }
    }
    Ok(())
}

/// The characters from `from` to `to` are a word, with white space or an end on
/// either side.
pub open spec fn word_at(text: Seq<char>, from: int, to: int) -> bool {
    &&& 0 <= from <= to <= text.len()
    &&& from == 0 || text::is_space(text[from - 1])
    &&& to == text.len() || text::is_space(text[to])
}

/// A name is one of the words of a list.
pub open spec fn names_extension(list: Seq<char>, name: Seq<char>) -> bool {
    exists|from: int|
        #[trigger] word_at(list, from, from + name.len()) && list.subrange(
            from,
            from + name.len(),
        ) == name
}

/// The extension by which a frame says when it is done.
pub const FENCE_EXTENSION: &'static str = "EGL_ANDROID_native_fence_sync";

fn stands(list: &Vec<char>, name: &Vec<char>, from: usize) -> (r: bool)
    requires
        from + name@.len() <= list@.len(),
    ensures
        r == (list@.subrange(from as int, from + name@.len()) == name@),
{
    let end: usize = list.len();
    let mut i: usize = 0;
    while i < name.len()
        invariant
            end == list@.len(),
            from + name@.len() <= end,
            i <= name@.len(),
            forall|k: int| 0 <= k < i ==> list@[from + k] == #[trigger] name@[k],
        decreases name@.len() - i,
    {
        if list[from + i] != name[i] {
            proof {
                assert(list@.subrange(from as int, from + name@.len())[i as int]
                    != name@[i as int]);
            }
            return false;
        }
        i = i + 1;
    }
    proof {
        assert(list@.subrange(from as int, from + name@.len()) =~= name@);
    }
    true
}

/// Whether a name without white space is one of the words of a list.
pub fn has_extension(list: &str, name: &str) -> (found: bool)
    ensures
        found == names_extension(list@, name@),
{
    let chars: Vec<char> = text::characters(list);
    let wanted: Vec<char> = text::characters(name);
    let n: usize = chars.len();
    let k: usize = wanted.len();
    if k > n {
        return false;
    }
    let last: usize = n - k;
    let mut from: usize = 0;
    let mut over: bool = false;
    while !over
        invariant
            last == n - k,
            from <= last,
            n == chars@.len(),
            k == wanted@.len(),
            chars@ == list@,
            wanted@ == name@,
            forall|at: int|
                0 <= at < from && #[trigger] word_at(list@, at, at + k) ==> list@.subrange(
                    at,
                    at + k,
                ) != name@,
            over ==> from == last && (word_at(list@, last as int, last + k) ==> list@.subrange(
                last as int,
                last + k,
            ) != name@),
        decreases last - from, if over { 0int } else { 1int },
    {
        let to: usize = from + k;
        if (from == 0 || text::space(chars[from - 1])) && (to == n || text::space(chars[to])) {
            if stands(&chars, &wanted, from) {
                proof {
                    assert(word_at(list@, from as int, from + name@.len()));
                }
                return true;
            }
        }
        if from == last {
            over = true;
        } else {
            from = from + 1;
        }
    }
    proof {
        assert forall|at: int|
            #[trigger] word_at(list@, at, at + name@.len()) implies list@.subrange(
            at,
            at + name@.len(),
        ) != name@ by {
            assert(at <= last);
            assert(word_at(list@, at, at + k));
        }
    }
    false
}

/// A list of extensions names what stands between its white space.
pub proof fn extensions_stand_between_white_space(list: Seq<char>, name: Seq<char>)
    ensures
        names_extension(list, name) <==> exists|front: Seq<char>, back: Seq<char>|
            #![trigger front + name + back]
            list == front + name + back && (front.len() == 0 || text::is_space(front.last())) && (
            back.len() == 0 || text::is_space(back[0])),
{
    if names_extension(list, name) {
        let from = choose|from: int|
            #[trigger] word_at(list, from, from + name.len()) && list.subrange(
                from,
                from + name.len(),
            ) == name;
        let front = list.subrange(0, from);
        let back = list.subrange(from + name.len(), list.len() as int);
        assert(list =~= front + name + back);
    }
    if exists|front: Seq<char>, back: Seq<char>|
        #![trigger front + name + back]
        list == front + name + back && (front.len() == 0 || text::is_space(front.last())) && (
        back.len() == 0 || text::is_space(back[0])) {
        let (front, back) = choose|front: Seq<char>, back: Seq<char>|
            #![trigger front + name + back]
            list == front + name + back && (front.len() == 0 || text::is_space(front.last())) && (
            back.len() == 0 || text::is_space(back[0]));
        let from = front.len() as int;
        assert(list.subrange(from, from + name.len()) =~= name);
        assert(word_at(list, from, from + name.len()));
    }
}

} // verus!
