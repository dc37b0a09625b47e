//! Switching the items and profiles of an installed plugin on and off.
use vstd::prelude::*;

use super::args;
use crate::scan;
use crate::text;

verus! {

/// What becomes of an item.
#[derive(Clone, Copy, Debug, PartialEq, Eq, Structural)]
pub enum ItemSetting {
    Enabled(bool),
    Width(u32),
}

/// What becomes of an item.
pub open spec fn item_asked(words: Seq<Seq<char>>) -> Result<ItemSetting, Seq<char>> {
    let usage = "usage: touchbarctl plugin item SOURCE ITEM enable|disable|width [PX]"@;
    if words.len() == 0 {
        Err("item requires SOURCE ITEM ACTION"@)
    } else if words.len() == 1 {
        Err("item requires ITEM"@)
    } else if words.len() == 2 {
        Err("item requires ACTION"@)
    } else if words[2] == "enable"@ && words.len() == 3 {
        Ok(ItemSetting::Enabled(true))
    } else if words[2] == "disable"@ && words.len() == 3 {
        Ok(ItemSetting::Enabled(false))
    } else if words[2] == "width"@ && words.len() == 4 {
        match scan::number_in(words[3], u32::MAX as nat) {
            Some(width) => Ok(ItemSetting::Width(width as u32)),
            None => Err("PX must be an integer: "@ + scan::number_fault(words[3])),
        }
    } else {
        Err(usage)
    }
}

/// What becomes of an item, which the second argument names.
pub fn item_setting(args: &[String]) -> (result: Result<ItemSetting, String>)
    ensures
        item_asked(text::texts(args@)) == (match result {
            Ok(setting) => Ok::<ItemSetting, Seq<char>>(setting),
            Err(message) => Err(message@),
        }),
{
    let n: usize = args.len();
    if n == 0 {
        return Err(text::copied("item requires SOURCE ITEM ACTION"));
    }
    if n == 1 {
        return Err(text::copied("item requires ITEM"));
    }
    if n == 2 {
        return Err(text::copied("item requires ACTION"));
    }
    let action = args[2].as_str();
    proof {
        assert(text::texts(args@)[2] == action@);
    }
    if n == 3 && text::same(action, "enable") {
        return Ok(ItemSetting::Enabled(true));
    }
    if n == 3 && text::same(action, "disable") {
        return Ok(ItemSetting::Enabled(false));
    }
    if n == 4 && text::same(action, "width") {
        let width = args[3].as_str();
        proof {
            assert(text::texts(args@)[3] == width@);
        }
        return match scan::parse_u32(width) {
            Ok(width) => Ok(ItemSetting::Width(width)),
            Err(cause) => Err(text::joined("PX must be an integer: ", cause.as_str())),
        };
    }
    Err(text::copied("usage: touchbarctl plugin item SOURCE ITEM enable|disable|width [PX]"))
}

/// Whether a profile is switched on or off.
pub open spec fn profile_asked(words: Seq<Seq<char>>) -> Result<bool, Seq<char>> {
    let usage = "usage: touchbarctl plugin profile SOURCE PROFILE enable|disable"@;
    if words.len() == 0 {
        Err("profile requires SOURCE PROFILE ACTION"@)
    } else if words.len() == 1 {
        Err("profile requires PROFILE"@)
    } else if words.len() == 2 {
        Err("profile requires ACTION"@)
    } else if words.len() != 3 {
        Err(usage)
    } else if words[2] == "enable"@ {
        Ok(true)
    } else if words[2] == "disable"@ {
        Ok(false)
    } else {
        Err(usage)
    }
}

/// Whether a profile, which the second argument names, is switched on or off.
pub fn profile_setting(args: &[String]) -> (result: Result<bool, String>)
    ensures
        profile_asked(text::texts(args@)) == (match result {
            Ok(enabled) => Ok::<bool, Seq<char>>(enabled),
            Err(message) => Err(message@),
        }),
{
    let n: usize = args.len();
    if n == 0 {
        return Err(text::copied("profile requires SOURCE PROFILE ACTION"));
    }
    if n == 1 {
        return Err(text::copied("profile requires PROFILE"));
    }
    if n == 2 {
        return Err(text::copied("profile requires ACTION"));
    }
    if n == 3 {
        let action = args[2].as_str();
        proof {
            assert(text::texts(args@)[2] == action@);
        }
        if text::same(action, "enable") {
            return Ok(true);
        }
        if text::same(action, "disable") {
            return Ok(false);
        }
    }
    Err(text::copied("usage: touchbarctl plugin profile SOURCE PROFILE enable|disable"))
}

/// An item is switched on or off by three words, and made so many pixels wide
/// by four; a profile is switched by three. Nothing else changes either.
pub proof fn changes_are_asked_for_by_name(words: Seq<Seq<char>>)
    ensures
        item_asked(words) == Ok::<ItemSetting, Seq<char>>(ItemSetting::Enabled(true))
            <==> words.len() == 3 && words[2] == "enable"@,
        item_asked(words) == Ok::<ItemSetting, Seq<char>>(ItemSetting::Enabled(false))
            <==> words.len() == 3 && words[2] == "disable"@,
        (item_asked(words) matches Ok(ItemSetting::Width(_))) <==> words.len() == 4 && words[2]
            == "width"@ && scan::number_in(words[3], u32::MAX as nat) is Some,
        item_asked(words) matches Ok(ItemSetting::Width(width)) ==> Some(width as nat)
            == scan::number_in(words[3], u32::MAX as nat),
        profile_asked(words) == Ok::<bool, Seq<char>>(true) <==> words.len() == 3 && words[2]
            == "enable"@,
        profile_asked(words) == Ok::<bool, Seq<char>>(false) <==> words.len() == 3 && words[2]
            == "disable"@,
{
    reveal_strlit("enable");
    reveal_strlit("disable");
    reveal_strlit("width");
    assert("enable"@[0] != "disable"@[0]);
    assert("enable"@[0] != "width"@[0]);
    assert("disable"@[0] != "width"@[0]);
}

} // verus!
