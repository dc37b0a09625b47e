//! The names of plugins, and the titles that are made of them.
use vstd::prelude::*;

use super::args;
use crate::text;

verus! {

/// A character of a name.
pub open spec fn name_char(c: char) -> bool {
    'a' <= c <= 'z' || '0' <= c <= '9' || c == '-'
}

/// Lowercase letters, digits and hyphens, with no hyphen at either end.
pub open spec fn is_name(value: Seq<char>) -> bool {
    &&& 0 < value.len() <= 64
    &&& forall|i: int| 0 <= i < value.len() ==> #[trigger] name_char(value[i])
    &&& value[0] != '-'
    &&& value.last() != '-'
}

fn name_is_valid(value: &str) -> (valid: bool)
    ensures
        valid == is_name(value@),
{
    let chars: Vec<char> = text::characters(value);
    let n: usize = chars.len();
    if n == 0 || n > 64 {
        return false;
    }
    let mut i: usize = 0;
    while i < n
        invariant
            i <= n == chars@.len(),
            chars@ == value@,
            forall|k: int| 0 <= k < i ==> #[trigger] name_char(value@[k]),
        decreases n - i,
    {
        let c: char = chars[i];
        if !(('a' <= c && c <= 'z') || ('0' <= c && c <= '9') || c == '-') {
            proof {
                assert(!name_char(value@[i as int]));
            }
            return false;
        }
        i = i + 1;
    }
    chars[0] != '-' && chars[n - 1] != '-'
}

/// Whether a plugin can have this name.
pub open spec fn name_checked(value: Seq<char>) -> Result<(), Seq<char>> {
    if is_name(value) {
        Ok(())
    } else {
        Err("NAME must be a lowercase kebab-case identifier"@)
    }
}

pub fn validate_name(value: &str) -> (result: Result<(), String>)
    ensures
        args::outcome(result) == name_checked(value@),
{
    if name_is_valid(value) {
        Ok(())
    } else {
        Err(text::copied("NAME must be a lowercase kebab-case identifier"))
    }
}

/// What `char::to_uppercase` makes of a character.
pub uninterp spec fn upper_of(c: char) -> Seq<char>;

/// The characters of `char::to_uppercase`. A lowercase letter of ASCII becomes
/// its capital letter, and a digit stays what it is.
#[verifier::external_body]
fn upper(c: char) -> (letters: String)
    ensures
        letters@ == upper_of(c),
        'a' <= c <= 'z' ==> letters@ == seq![((c as u32 - 32) as u8) as char],
        '0' <= c <= '9' ==> letters@ == seq![c],
{
    c.to_uppercase().collect()
}

/// What the character behind `to - 1` others becomes in a title.
pub open spec fn titled_char(value: Seq<char>, to: int) -> Seq<char> {
    let c = value[to - 1];
    if c == '-' {
        seq![' ']
    } else if to == 1 || value[to - 2] == '-' {
        upper_of(c)
    } else {
        seq![c]
    }
}

/// A name as a title, up to `to`: each word with a capital letter, and spaces
/// in place of hyphens.
pub open spec fn titled(value: Seq<char>, to: int) -> Seq<char>
    decreases to,
{
    if to <= 0 {
        Seq::empty()
    } else {
        titled(value, to - 1) + titled_char(value, to)
    }
}

/// A name as a title.
pub open spec fn title_of(value: Seq<char>) -> Seq<char> {
    titled(value, value.len() as int)
}

/// A name as a title.
pub fn title(value: &str) -> (shown: String)
    ensures
        shown@ == title_of(value@),
{
    let chars: Vec<char> = text::characters(value);
    let mut shown: String = String::new();
    let mut i: usize = 0;
    while i < chars.len()
        invariant
            i <= chars@.len(),
            chars@ == value@,
            shown@ == titled(value@, i as int),
        decreases chars@.len() - i,
    {
        let c: char = chars[i];
        let ghost before = shown@;
        if c == '-' {
            shown.push(' ');
        } else if i == 0 || chars[i - 1] == '-' {
            let capital = upper(c);
            shown = text::joined(shown.as_str(), capital.as_str());
        } else {
            shown.push(c);
        }
        proof {
            assert(shown@ =~= before + titled_char(value@, i + 1));
        }
        i = i + 1;
    }
    shown
}

/// The title of two names with a hyphen between them is that of each with a space between
/// them, and the title of a word is its first letter as a capital and the others as they are.
pub proof fn titles_are_made_word_by_word(
    first: Seq<char>,
    rest: Seq<char>,
    letter: char,
    word: Seq<char>,
)
    requires
        letter != '-',
        !word.contains('-'),
    ensures
        title_of(first.push('-') + rest) == title_of(first).push(' ') + title_of(rest),
        title_of(seq![letter] + word) == upper_of(letter) + word,
{
    lemma_titled_start(first, rest, first.len() as int);
    lemma_titled_rest(first, rest, rest.len() as int);
    lemma_titled_word(letter, word, word.len() as int);
    assert(word.subrange(0, word.len() as int) =~= word);
}

proof fn lemma_titled_start(first: Seq<char>, rest: Seq<char>, to: int)
    requires
        0 <= to <= first.len(),
    ensures
        titled(first.push('-') + rest, to) == titled(first, to),
    decreases to,
{
    if to > 0 {
        lemma_titled_start(first, rest, to - 1);
        let all = first.push('-') + rest;
        assert(all[to - 1] == first[to - 1]);
        if to > 1 {
            assert(all[to - 2] == first[to - 2]);
        }
    }
}

proof fn lemma_titled_rest(first: Seq<char>, rest: Seq<char>, to: int)
    requires
        0 <= to <= rest.len(),
    ensures
        titled(first.push('-') + rest, first.len() + 1 + to) == titled(
            first,
            first.len() as int,
        ).push(' ') + titled(rest, to),
    decreases to,
{
    let all = first.push('-') + rest;
    let n = first.len() as int;
    lemma_titled_start(first, rest, n);
    assert(all[n] == '-');
    if to > 0 {
        lemma_titled_rest(first, rest, to - 1);
        assert(all[n + to] == rest[to - 1]);
        if to > 1 {
            assert(all[n + to - 1] == rest[to - 2]);
        }
        assert(titled(first, n).push(' ') + titled(rest, to) =~= (titled(first, n).push(' ')
            + titled(rest, to - 1)) + titled_char(rest, to));
    } else {
        assert(titled(all, n + 1) =~= titled(first, n).push(' ') + titled(rest, 0));
    }
}

proof fn lemma_titled_word(letter: char, word: Seq<char>, to: int)
    requires
        0 <= to <= word.len(),
        letter != '-',
        !word.contains('-'),
    ensures
        titled(seq![letter] + word, to + 1) == upper_of(letter) + word.subrange(0, to),
    decreases to,
{
    let all = seq![letter] + word;
    if to > 0 {
        lemma_titled_word(letter, word, to - 1);
        assert(word.contains(word[to - 1]));
        assert(all[to] == word[to - 1]);
        if to > 1 {
            assert(word.contains(word[to - 2]));
            assert(all[to - 1] == word[to - 2]);
        }
        assert(upper_of(letter) + word.subrange(0, to) =~= (upper_of(letter) + word.subrange(
            0,
            to - 1,
        )) + seq![word[to - 1]]);
    } else {
        assert(all[0] == letter);
        assert(titled(all, 0) =~= Seq::empty());
        assert(titled(all, 1) =~= upper_of(letter) + word.subrange(0, 0));
    }
}

} // verus!
