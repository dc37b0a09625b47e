//! Reading the arguments of a command.
use vstd::prelude::*;

use crate::text;

verus! {

/// Texts, by their characters.
pub open spec fn names(list: Seq<&str>) -> Seq<Seq<char>> {
    Seq::new(list.len(), |i: int| list[i]@)
}

pub open spec fn str_view(value: Option<&str>) -> Option<Seq<char>> {
    match value {
        Some(value) => Some(value@),
        None => None,
    }
}

/// A result whose error is a message, by its view.
pub open spec fn outcome<T: View>(result: Result<T, String>) -> Result<T::V, Seq<char>> {
    match result {
        Ok(value) => Ok(value@),
        Err(message) => Err(message@),
    }
}

// ---------------------------------------------------------------------------
// Options

/// Where the first use of an option from `from` on stands that has something
/// behind it, or else the end.
pub open spec fn option_at(words: Seq<Seq<char>>, name: Seq<char>, from: int) -> int
    decreases words.len() - from,
{
    if from + 1 >= words.len() {
        words.len() as int
    } else if words[from] == name {
        from
    } else {
        option_at(words, name, from + 1)
    }
}

/// What stands behind the first use of an option.
pub open spec fn option_value(words: Seq<Seq<char>>, name: Seq<char>) -> Option<Seq<char>> {
    let at = option_at(words, name, 0);
    if at < words.len() {
        Some(words[at + 1])
    } else {
        None
    }
}

pub fn opt<'a>(args: &'a [String], name: &str) -> (value: Option<&'a str>)
    ensures
        str_view(value) == option_value(text::texts(args@), name@),
{
    let ghost words = text::texts(args@);
    let mut i: usize = 0;
    while i < args.len() && i + 1 < args.len()
        invariant
            i <= args@.len(),
            words == text::texts(args@),
            option_at(words, name@, 0) == option_at(words, name@, i as int),
        decreases args@.len() - i,
    {
        if text::same(args[i].as_str(), name) {
            return Some(args[i + 1].as_str());
        }
        i = i + 1;
    }
    None
}

/// What stands behind the uses of an option that begin before `to`.
pub open spec fn option_values(words: Seq<Seq<char>>, name: Seq<char>, to: int) -> Seq<Seq<char>>
    decreases to,
{
    if to <= 0 {
        Seq::empty()
    } else if to < words.len() && words[to - 1] == name {
        option_values(words, name, to - 1).push(words[to])
    } else {
        option_values(words, name, to - 1)
    }
}

/// What stands behind each use of an option.
pub fn options<'a>(args: &'a [String], name: &str) -> (values: Vec<&'a str>)
    ensures
        names(values@) == option_values(text::texts(args@), name@, args@.len() as int),
{
    let ghost words = text::texts(args@);
    let mut values: Vec<&'a str> = Vec::new();
    let mut i: usize = 0;
    proof {
        assert(names(values@) =~= Seq::empty());
    }
    while i < args.len()
        invariant
            i <= args@.len(),
            words == text::texts(args@),
            names(values@) == option_values(words, name@, i as int),
        decreases args@.len() - i,
    {
        let ghost before = values@;
        if i + 1 < args.len() && text::same(args[i].as_str(), name) {
            let value: &'a str = args[i + 1].as_str();
            values.push(value);
            proof {
                assert(names(values@) =~= names(before).push(value@));
            }
        }
        i = i + 1;
    }
    values
}

pub fn has_flag(args: &[String], name: &str) -> (found: bool)
    ensures
        found == text::texts(args@).contains(name@),
{
    let ghost words = text::texts(args@);
    let mut i: usize = 0;
    while i < args.len()
        invariant
            i <= args@.len(),
            words == text::texts(args@),
            forall|k: int| 0 <= k < i ==> words[k] != name@,
        decreases args@.len() - i,
    {
        if text::same(args[i].as_str(), name) {
            proof {
                assert(words[i as int] == name@);
            }
            return true;
        }
        i = i + 1;
    }
    false
}

fn is_one_of(word: &str, list: &[&str]) -> (found: bool)
    ensures
        found == names(list@).contains(word@),
{
    let mut i: usize = 0;
    while i < list.len()
        invariant
            i <= list@.len(),
            forall|k: int| 0 <= k < i ==> names(list@)[k] != word@,
        decreases list@.len() - i,
    {
        if text::same(list[i], word) {
            proof {
                assert(names(list@)[i as int] == word@);
            }
            return true;
        }
        i = i + 1;
    }
    false
}

/// A word that is an option, as far as it is no flag.
pub open spec fn dashed(word: Seq<char>) -> bool {
    text::begins(word, "--"@)
}

// ---------------------------------------------------------------------------
// Positions

/// Where the argument stands that has `wanted` others before it: neither flags
/// nor options with their values count.
pub open spec fn position(
    words: Seq<Seq<char>>,
    flags: Seq<Seq<char>>,
    wanted: nat,
    from: int,
) -> Option<int>
    decreases words.len() + 1 - from,
{
    if from >= words.len() {
        None
    } else if flags.contains(words[from]) {
        position(words, flags, wanted, from + 1)
    } else if dashed(words[from]) {
        position(words, flags, wanted, from + 2)
    } else if wanted == 0 {
        Some(from)
    } else {
        position(words, flags, (wanted - 1) as nat, from + 1)
    }
}

/// The argument that has `wanted` others before it.
pub open spec fn positioned(words: Seq<Seq<char>>, flags: Seq<Seq<char>>, wanted: nat) -> Option<
    Seq<char>,
> {
    match position(words, flags, wanted, 0) {
        Some(at) => Some(words[at]),
        None => None,
    }
}

pub fn positional_with_flags<'a>(
    args: &'a [String],
    wanted: usize,
    flags: &[&str],
) -> (value: Option<
    &'a str,
>)
    ensures
        str_view(value) == positioned(text::texts(args@), names(flags@), wanted as nat),
{
    let ghost words = text::texts(args@);
    let mut left: usize = wanted;
    let mut index: usize = 0;
    while index < args.len()
        invariant
            index <= args@.len(),
            words == text::texts(args@),
            position(words, names(flags@), wanted as nat, 0) == position(
                words,
                names(flags@),
                left as nat,
                index as int,
            ),
        decreases args@.len() - index,
    {
        let word: &'a str = args[index].as_str();
        proof {
            assert(words[index as int] == word@);
        }
        if is_one_of(word, flags) {
            index = index + 1;
        } else if text::starts_with(word, "--") {
            if args.len() - index < 2 {
                proof {
                    assert(position(words, names(flags@), left as nat, index + 2) is None);
                }
                return None;
            }
            index = index + 2;
        } else if left == 0 {
            return Some(word);
        } else {
            left = left - 1;
            index = index + 1;
        }
    }
    None
}

pub fn positional<'a>(args: &'a [String], wanted: usize) -> (value: Option<&'a str>)
    ensures
        str_view(value) == positioned(text::texts(args@), Seq::empty(), wanted as nat),
{
    let flags: [&str; 0] = [];
    proof {
        assert(names(flags@) =~= Seq::<Seq<char>>::empty());
    }
    positional_with_flags(args, wanted, flags.as_slice())
}

// ---------------------------------------------------------------------------
// Checks

/// What is wrong with the arguments from `from` on, after `count` positions, if
/// anything is.
pub open spec fn checked(
    words: Seq<Seq<char>>,
    options: Seq<Seq<char>>,
    flags: Seq<Seq<char>>,
    most: nat,
    from: int,
    count: nat,
) -> Result<(), Seq<char>>
    decreases words.len() - from,
{
    if from >= words.len() {
        if count > most {
            Err("too many arguments"@)
        } else {
            Ok(())
        }
    } else if flags.contains(words[from]) {
        checked(words, options, flags, most, from + 1, count)
    } else if dashed(words[from]) {
        if !options.contains(words[from]) {
            Err("unknown option `"@ + words[from] + "`"@)
        } else if from + 1 >= words.len() || dashed(words[from + 1]) {
            Err(words[from] + " requires a value"@)
        } else {
            checked(words, options, flags, most, from + 2, count)
        }
    } else {
        checked(words, options, flags, most, from + 1, count + 1)
    }
}

/// The arguments are options with values, flags, and at most so many others.
pub open spec fn well_used(
    words: Seq<Seq<char>>,
    options: Seq<Seq<char>>,
    flags: Seq<Seq<char>>,
    most: nat,
) -> Result<(), Seq<char>> {
    checked(words, options, flags, most, 0, 0)
}

pub fn reject_with_flags(
    args: &[String],
    options: &[&str],
    flags: &[&str],
    max_positionals: usize,
) -> (result: Result<(), String>)
    ensures
        outcome(result) == well_used(
            text::texts(args@),
            names(options@),
            names(flags@),
            max_positionals as nat,
        ),
{
    let ghost words = text::texts(args@);
    let mut index: usize = 0;
    let mut count: usize = 0;
    while index < args.len()
        invariant
            count <= index <= args@.len(),
            words == text::texts(args@),
            well_used(words, names(options@), names(flags@), max_positionals as nat) == checked(
                words,
                names(options@),
                names(flags@),
                max_positionals as nat,
                index as int,
                count as nat,
            ),
        decreases args@.len() - index,
    {
        let word = args[index].as_str();
        proof {
            assert(words[index as int] == word@);
        }
        if is_one_of(word, flags) {
            index = index + 1;
        } else if text::starts_with(word, "--") {
            if !is_one_of(word, options) {
                return Err(text::joined3("unknown option `", word, "`"));
            }
            if args.len() - index < 2 || text::starts_with(args[index + 1].as_str(), "--") {
                return Err(text::joined(word, " requires a value"));
            }
            index = index + 2;
        } else {
            count = count + 1;
            index = index + 1;
        }
    }
    if count > max_positionals {
        return Err(text::copied("too many arguments"));
    }
    Ok(())
}

pub fn reject(args: &[String], options: &[&str], max_positionals: usize) -> (result: Result<
    (),
    String,
>)
    ensures
        outcome(result) == well_used(
            text::texts(args@),
            names(options@),
            Seq::empty(),
            max_positionals as nat,
        ),
{
    let flags: [&str; 0] = [];
    proof {
        assert(names(flags@) =~= Seq::<Seq<char>>::empty());
    }
    reject_with_flags(args, options, flags.as_slice(), max_positionals)
}

/// What a command prints.
#[derive(Clone, Copy, Debug, PartialEq, Eq, Structural)]
pub enum Format {
    Text,
    Json,
}

/// The format that the arguments ask for.
pub open spec fn wanted_format(words: Seq<Seq<char>>) -> Result<Format, Seq<char>> {
    match option_value(words, "--format"@) {
        None => Ok(Format::Text),
        Some(value) => if value == "text"@ || value == "markdown"@ {
            Ok(Format::Text)
        } else if value == "json"@ {
            Ok(Format::Json)
        } else {
            Err("unsupported format `"@ + value + "`"@)
        },
    }
}

pub open spec fn format_outcome(result: Result<Format, String>) -> Result<Format, Seq<char>> {
    match result {
        Ok(format) => Ok(format),
        Err(message) => Err(message@),
    }
}

pub fn output_format(args: &[String]) -> (result: Result<Format, String>)
    ensures
        format_outcome(result) == wanted_format(text::texts(args@)),
{
    match opt(args, "--format") {
        None => Ok(Format::Text),
        Some(value) => {
            if text::same(value, "text") || text::same(value, "markdown") {
                Ok(Format::Text)
            } else if text::same(value, "json") {
                Ok(Format::Json)
            } else {
                Err(text::joined3("unsupported format `", value, "`"))
            }
        },
    }
}

// ---------------------------------------------------------------------------
// Laws

/// Every option of arguments that were accepted is one of those that are
/// known, and has a value.
pub proof fn accepted_options_are_known(
    words: Seq<Seq<char>>,
    options: Seq<Seq<char>>,
    flags: Seq<Seq<char>>,
    most: nat,
    from: int,
    count: nat,
    name: Seq<char>,
)
    requires
        0 <= from,
        checked(words, options, flags, most, from, count) is Ok,
        dashed(name),
        !options.contains(name),
        !flags.contains(name),
    ensures
        forall|i: int| from <= i < words.len() ==> #[trigger] words[i] != name,
    decreases words.len() - from,
{
    if from < words.len() {
        if flags.contains(words[from]) {
            accepted_options_are_known(words, options, flags, most, from + 1, count, name);
        } else if dashed(words[from]) {
            accepted_options_are_known(words, options, flags, most, from + 2, count, name);
        } else {
            accepted_options_are_known(words, options, flags, most, from + 1, count + 1, name);
        }
        assert forall|i: int| from <= i < words.len() implies #[trigger] words[i] != name by {
            if i == from + 1 {
            }
        }
    }
}

// ---------------------------------------------------------------------------
// How arguments are read

/// The value of an option is what stands behind its first use that has anything behind it.
pub proof fn the_first_use_of_an_option_counts(words: Seq<Seq<char>>, name: Seq<char>)
    ensures
        forall|i: int|
            #![trigger words[i]]
            0 <= i < words.len() - 1 && words[i] == name && (forall|j: int|
                0 <= j < i ==> #[trigger] words[j] != name) ==> option_value(words, name) == Some(
                words[i + 1],
            ),
        (forall|i: int| 0 <= i < words.len() - 1 ==> #[trigger] words[i] != name) ==> option_value(
            words,
            name,
        ) is None,
{
    lemma_option_at(words, name, 0);
}

proof fn lemma_option_at(words: Seq<Seq<char>>, name: Seq<char>, from: int)
    requires
        0 <= from,
    ensures
        ({
            let at = option_at(words, name, from);
            &&& at == words.len() || from <= at < words.len() - 1 && words[at] == name
            &&& forall|j: int| from <= j < at && j < words.len() - 1 ==> #[trigger] words[j] != name
        }),
    decreases words.len() - from,
{
    if from + 1 < words.len() && words[from] != name {
        lemma_option_at(words, name, from + 1);
    }
}

/// The uses of an option that have something behind them stand at the given places, in
/// order, and their values are what stands there.
pub open spec fn used_at(
    words: Seq<Seq<char>>,
    name: Seq<char>,
    values: Seq<Seq<char>>,
    places: Seq<int>,
) -> bool {
    &&& places.len() == values.len()
    &&& forall|k: int|
        #![trigger places[k]]
        0 <= k < places.len() ==> 0 <= places[k] < words.len() - 1 && words[places[k]] == name
            && values[k] == words[places[k] + 1]
    &&& forall|i: int|
        0 <= i < words.len() - 1 && #[trigger] words[i] == name ==> places.contains(i)
    &&& forall|k: int, m: int|
        #![trigger places[k], places[m]]
        0 <= k < m < places.len() ==> places[k] < places[m]
}

proof fn lemma_used_at(words: Seq<Seq<char>>, name: Seq<char>, to: int) -> (places: Seq<int>)
    requires
        0 <= to <= words.len(),
    ensures
        places.len() == option_values(words, name, to).len(),
        forall|k: int|
            #![trigger places[k]]
            0 <= k < places.len() ==> 0 <= places[k] < to && places[k] < words.len() - 1
                && words[places[k]] == name && option_values(words, name, to)[k]
                == words[places[k] + 1],
        forall|i: int|
            0 <= i < to && i < words.len() - 1 && #[trigger] words[i] == name ==> places.contains(i),
        forall|k: int, m: int|
            #![trigger places[k], places[m]]
            0 <= k < m < places.len() ==> places[k] < places[m],
    decreases to,
{
    if to == 0 {
        Seq::empty()
    } else {
        let before = lemma_used_at(words, name, to - 1);
        if to < words.len() && words[to - 1] == name {
            let places = before.push(to - 1);
            assert forall|i: int|
                0 <= i < to && i < words.len() - 1 && #[trigger] words[i] == name implies
                places.contains(i) by {
                if i < to - 1 {
                    let k = choose|k: int| 0 <= k < before.len() && before[k] == i;
                    assert(places[k] == i);
                } else {
                    assert(places[before.len() as int] == i);
                }
            }
            assert forall|k: int, m: int|
                #![trigger places[k], places[m]]
                0 <= k < m < places.len() implies places[k] < places[m] by {
                assert(places[k] == before[k]);
                if m < before.len() {
                    assert(places[m] == before[m]);
                }
            }
            assert forall|k: int|
                #![trigger places[k]]
                0 <= k < places.len() implies 0 <= places[k] < to && places[k] < words.len() - 1
                && words[places[k]] == name && option_values(words, name, to)[k]
                == words[places[k] + 1] by {
                if k < before.len() {
                    assert(places[k] == before[k]);
                }
            }
            places
        } else {
            before
        }
    }
}

/// The values of an option are what stands behind each of its uses, in order.
pub proof fn every_use_of_an_option_counts(words: Seq<Seq<char>>, name: Seq<char>)
    ensures
        exists|places: Seq<int>|
            used_at(words, name, option_values(words, name, words.len() as int), places),
{
    let places = lemma_used_at(words, name, words.len() as int);
    assert(used_at(words, name, option_values(words, name, words.len() as int), places));
}

proof fn lemma_position_behind(
    first: Seq<char>,
    rest: Seq<Seq<char>>,
    flags: Seq<Seq<char>>,
    wanted: nat,
    from: int,
)
    requires
        0 <= from,
    ensures
        position(seq![first] + rest, flags, wanted, from + 1) == (match position(
            rest,
            flags,
            wanted,
            from,
        ) {
            Some(at) => Some(at + 1),
            None => None,
        }),
        position(rest, flags, wanted, from) matches Some(at) ==> from <= at < rest.len(),
    decreases rest.len() + 1 - from,
{
    let words = seq![first] + rest;
    if from < rest.len() {
        assert(words[from + 1] == rest[from]);
        if flags.contains(rest[from]) {
            lemma_position_behind(first, rest, flags, wanted, from + 1);
        } else if dashed(rest[from]) {
            lemma_position_behind(first, rest, flags, wanted, from + 2);
        } else if wanted > 0 {
            lemma_position_behind(first, rest, flags, (wanted - 1) as nat, from + 1);
        }
    }
}

/// Arguments are counted without flags, and without options and what stands behind them.
pub proof fn arguments_are_counted_without_options(
    first: Seq<char>,
    rest: Seq<Seq<char>>,
    flags: Seq<Seq<char>>,
    wanted: nat,
)
    ensures
        positioned(Seq::empty(), flags, wanted) is None,
        positioned(seq![first] + rest, flags, wanted) == if flags.contains(first) {
            positioned(rest, flags, wanted)
        } else if first.len() >= 2 && first[0] == '-' && first[1] == '-' {
            if rest.len() == 0 {
                None
            } else {
                positioned(rest.drop_first(), flags, wanted)
            }
        } else if wanted == 0 {
            Some(first)
        } else {
            positioned(rest, flags, (wanted - 1) as nat)
        },
{
    let words = seq![first] + rest;
    assert(words[0] == first);
    lemma_dashed(first);
    lemma_position_behind(first, rest, flags, wanted, 0);
    if wanted > 0 {
        lemma_position_behind(first, rest, flags, (wanted - 1) as nat, 0);
    }
    if rest.len() > 0 {
        let second = rest[0];
        let behind = rest.drop_first();
        assert(rest =~= seq![second] + behind);
        lemma_position_behind(first, rest, flags, wanted, 1);
        lemma_position_behind(second, behind, flags, wanted, 0);
    }
}

proof fn lemma_dashed(word: Seq<char>)
    ensures
        dashed(word) <==> word.len() >= 2 && word[0] == '-' && word[1] == '-',
{
    reveal_strlit("--");
    if word.len() >= 2 {
        let start = word.subrange(0, 2);
        assert(start[0] == word[0] && start[1] == word[1]);
        if word[0] == '-' && word[1] == '-' {
            assert(start =~= "--"@);
        }
    }
}

proof fn lemma_checked_behind(
    first: Seq<char>,
    rest: Seq<Seq<char>>,
    options: Seq<Seq<char>>,
    flags: Seq<Seq<char>>,
    most: nat,
    from: int,
    count: nat,
)
    requires
        0 <= from,
    ensures
        checked(seq![first] + rest, options, flags, most, from + 1, count) == checked(
            rest,
            options,
            flags,
            most,
            from,
            count,
        ),
    decreases rest.len() + 1 - from,
{
    let words = seq![first] + rest;
    if from < rest.len() {
        assert(words[from + 1] == rest[from]);
        if from + 1 < rest.len() {
            assert(words[from + 2] == rest[from + 1]);
        }
        if flags.contains(rest[from]) {
            lemma_checked_behind(first, rest, options, flags, most, from + 1, count);
        } else if dashed(rest[from]) {
            lemma_checked_behind(first, rest, options, flags, most, from + 2, count);
        } else {
            lemma_checked_behind(first, rest, options, flags, most, from + 1, count + 1);
        }
    }
}

proof fn lemma_checked_count(
    words: Seq<Seq<char>>,
    options: Seq<Seq<char>>,
    flags: Seq<Seq<char>>,
    most: nat,
    from: int,
    count: nat,
)
    requires
        0 <= from,
    ensures
        most > 0 ==> checked(words, options, flags, most, from, count + 1) == checked(
            words,
            options,
            flags,
            (most - 1) as nat,
            from,
            count,
        ),
        most == 0 ==> checked(words, options, flags, most, from, count + 1) == (match checked(
            words,
            options,
            flags,
            most,
            from,
            count,
        ) {
            Ok(_) => Err::<(), Seq<char>>("too many arguments"@),
            Err(message) => Err(message),
        }),
    decreases words.len() + 1 - from,
{
    if from < words.len() {
        if flags.contains(words[from]) {
            lemma_checked_count(words, options, flags, most, from + 1, count);
        } else if dashed(words[from]) {
            lemma_checked_count(words, options, flags, most, from + 2, count);
        } else {
            lemma_checked_count(words, options, flags, most, from + 1, count + 1);
        }
    }
}

/// Arguments are accepted word by word: a flag may always stand there; an option must be
/// known and have a value behind it that is no option; and of other words there may be so
/// many.
pub proof fn arguments_are_accepted_word_by_word(
    first: Seq<char>,
    rest: Seq<Seq<char>>,
    options: Seq<Seq<char>>,
    flags: Seq<Seq<char>>,
    most: nat,
)
    ensures
        well_used(Seq::empty(), options, flags, most) is Ok,
        well_used(seq![first] + rest, options, flags, most) == if flags.contains(first) {
            well_used(rest, options, flags, most)
        } else if first.len() >= 2 && first[0] == '-' && first[1] == '-' {
            if !options.contains(first) {
                Err("unknown option `"@ + first + "`"@)
            } else if rest.len() == 0 || rest[0].len() >= 2 && rest[0][0] == '-' && rest[0][1]
                == '-' {
                Err(first + " requires a value"@)
            } else {
                well_used(rest.drop_first(), options, flags, most)
            }
        } else if most > 0 {
            well_used(rest, options, flags, (most - 1) as nat)
        } else {
            match well_used(rest, options, flags, most) {
                Ok(_) => Err::<(), Seq<char>>("too many arguments"@),
                Err(message) => Err(message),
            }
        },
{
    let words = seq![first] + rest;
    assert(words[0] == first);
    lemma_dashed(first);
    lemma_checked_behind(first, rest, options, flags, most, 0, 0);
    lemma_checked_behind(first, rest, options, flags, most, 0, 1);
    lemma_checked_count(rest, options, flags, most, 0, 0);
    if rest.len() > 0 {
        let second = rest[0];
        let behind = rest.drop_first();
        lemma_dashed(second);
        assert(words[1] == second);
        assert(rest =~= seq![second] + behind);
        lemma_checked_behind(first, rest, options, flags, most, 1, 0);
        lemma_checked_behind(second, behind, options, flags, most, 0, 0);
    }
}

} // verus!
