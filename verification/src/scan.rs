//! Reading numbers and lines.
use vstd::prelude::*;

use crate::text;

verus! {

// ---------------------------------------------------------------------------
// Numbers

pub open spec fn is_digit(c: char) -> bool {
    '0' <= c <= '9'
}

pub open spec fn all_digits(digits: Seq<char>) -> bool {
    forall|i: int| 0 <= i < digits.len() ==> #[trigger] is_digit(digits[i])
}

/// What digits are worth.
pub open spec fn worth(digits: Seq<char>) -> nat
    decreases digits.len(),
{
    if digits.len() == 0 {
        0
    } else {
        10 * worth(digits.drop_last()) + (digits.last() as nat - '0' as nat) as nat
    }
}

/// The digits of a number that may have a plus sign in front of it.
pub open spec fn unsigned_digits(text: Seq<char>) -> Seq<char> {
    if text.len() > 0 && text[0] == '+' {
        text.subrange(1, text.len() as int)
    } else {
        text
    }
}

/// The number that a text stands for, where it is one, and not too large.
pub open spec fn number_in(text: Seq<char>, most: nat) -> Option<nat> {
    let digits = unsigned_digits(text);
    if digits.len() > 0 && all_digits(digits) && worth(digits) <= most {
        Some(worth(digits))
    } else {
        None
    }
}

/// Reads a number of at most `most`.
pub fn parse_wide(text: &str, most: u64) -> (number: Option<u64>)
    ensures
        match number {
            Some(number) => number_in(text@, most as nat) == Some(number as nat),
            None => number_in(text@, most as nat) is None,
        },
{
    let chars: Vec<char> = text::characters(text);
    let n: usize = chars.len();
    let start: usize = if n > 0 && chars[0] == '+' {
        1
    } else {
        0
    };
    let ghost digits = unsigned_digits(text@);
    proof {
        assert(digits =~= text@.subrange(start as int, n as int));
    }
    if start == n {
        return None;
    }
    let mut value: u128 = 0;
    let mut i: usize = start;
    let mut large: bool = false;
    proof {
        assert(digits.subrange(0, 0) =~= Seq::empty());
    }
    while i < n
        invariant
            start <= i <= n == chars@.len(),
            chars@ == text@,
            digits == unsigned_digits(text@),
            digits == text@.subrange(start as int, n as int),
            start < n,
            forall|k: int| 0 <= k < i - start ==> #[trigger] is_digit(digits[k]),
            !large ==> value == worth(digits.subrange(0, i - start)) && value <= most,
            large ==> worth(digits.subrange(0, i - start)) > most,
        decreases n - i,
    {
        let c: char = chars[i];
        proof {
            assert(digits[i - start] == c);
        }
        if !('0' <= c && c <= '9') {
            proof {
                assert(!is_digit(digits[i - start]));
            }
            return None;
        }
        proof {
            let longer = digits.subrange(0, i - start + 1);
            assert(longer.drop_last() =~= digits.subrange(0, i - start));
        }
        if !large {
            let next: u128 = 10 * value + (c as u128 - '0' as u128);
            if next > most as u128 {
                large = true;
            } else {
                value = next;
            }
        }
        i = i + 1;
    }
    proof {
        assert(digits.subrange(0, n - start) =~= digits);
    }
    if large {
        None
    } else {
        Some(value as u64)
    }
}

/// Reads a number of at most `most`.
pub fn parse_number(text: &str, most: u32) -> (number: Option<u32>)
    ensures
        match number {
            Some(number) => number_in(text@, most as nat) == Some(number as nat),
            None => number_in(text@, most as nat) is None,
        },
{
    match parse_wide(text, most as u64) {
        Some(number) => Some(number as u32),
        None => None,
    }
}

/// What `str::parse::<u32>` says is wrong with a text.
pub uninterp spec fn number_fault(text: Seq<char>) -> Seq<char>;

/// `str::parse::<u32>`, with the message of its error. It takes digits with an
/// optional plus sign in front of them, where the number is not too large.
#[verifier::external_body]
pub(crate) fn parse_u32(text: &str) -> (parsed: Result<u32, String>)
    ensures
        match parsed {
            Ok(number) => number_in(text@, u32::MAX as nat) == Some(number as nat),
            Err(message) => number_in(text@, u32::MAX as nat) is None && message@ == number_fault(
                text@,
            ),
        },
{
    text.parse::<u32>().map_err(|error| error.to_string())
}

proof fn lemma_decimal_digits(n: int)
    requires
        0 <= n,
    ensures
        text::decimal(n).len() > 0,
        all_digits(text::decimal(n)),
        worth(text::decimal(n)) == n,
        text::decimal(n)[0] != '+',
    decreases n,
{
    let digits = text::decimal(n);
    if n < 10 {
        assert(digits.drop_last() =~= Seq::empty());
        assert(worth(digits.drop_last()) == 0);
        assert(digits.last() as nat - '0' as nat == n);
    } else {
        lemma_decimal_digits(n / 10);
        assert(digits.drop_last() =~= text::decimal(n / 10));
        assert forall|i: int| 0 <= i < digits.len() implies #[trigger] is_digit(digits[i]) by {
            if i < digits.len() - 1 {
                assert(digits[i] == text::decimal(n / 10)[i]);
            }
        }
        assert(digits[0] == text::decimal(n / 10)[0]);
    }
}

/// A number that is written out is read back.
pub proof fn numbers_read_back(n: nat, most: nat)
    requires
        n <= most,
    ensures
        number_in(text::decimal(n as int), most) == Some(n),
{
    lemma_decimal_digits(n as int);
}

// ---------------------------------------------------------------------------
// Lines

/// Where the first end of a line from `from` on stands, or else the end.
pub open spec fn line_end(text: Seq<char>, from: int) -> int
    decreases text.len() - from,
{
    if from >= text.len() {
        text.len() as int
    } else if text[from] == '\n' {
        from
    } else {
        line_end(text, from + 1)
    }
}

/// The line that begins at `from`, without its end.
pub open spec fn line_at(text: Seq<char>, from: int) -> Seq<char> {
    let end = line_end(text, from);
    if from < end < text.len() && text[end - 1] == '\r' {
        text.subrange(from, end - 1)
    } else {
        text.subrange(from, end)
    }
}

/// The line that begins at `from`, and where it ends.
pub fn take_line(chars: &Vec<char>, from: usize) -> (line: (String, usize))
    requires
        from <= chars@.len(),
    ensures
        line.0@ == line_at(chars@, from as int),
        line.1 == line_end(chars@, from as int),
        from <= line.1 <= chars@.len(),
{
    let mut end: usize = from;
    while end < chars.len() && chars[end] != '\n'
        invariant
            from <= end <= chars@.len(),
            line_end(chars@, from as int) == line_end(chars@, end as int),
        decreases chars@.len() - end,
    {
        end = end + 1;
    }
    if from < end && end < chars.len() && chars[end - 1] == '\r' {
        return (text::text_of(chars, from, end - 1), end);
    }
    (text::text_of(chars, from, end), end)
}

/// What the first line with a prefix says behind it, from `from` on.
pub open spec fn line_with(text: Seq<char>, prefix: Seq<char>, from: int) -> Option<Seq<char>>
    decreases text.len() - from,
    when 0 <= from
{
    if from >= text.len() {
        None
    } else if text::begins(line_at(text, from), prefix) {
        text::following(line_at(text, from), prefix)
    } else if line_end(text, from) >= text.len() || line_end(text, from) < from {
        None
    } else {
        line_with(text, prefix, line_end(text, from) + 1)
    }
}

/// What the first line with a prefix says behind it.
pub fn find_line(text: &str, prefix: &str) -> (rest: Option<String>)
    ensures
        line_with(text@, prefix@, 0) == (match rest {
            Some(rest) => Some(rest@),
            None => None::<Seq<char>>,
        }),
{
    let chars: Vec<char> = text::characters(text);
    let mut from: usize = 0;
    while from < chars.len()
        invariant
            from <= chars@.len(),
            chars@ == text@,
            line_with(text@, prefix@, 0) == line_with(text@, prefix@, from as int),
        decreases chars@.len() - from,
    {
        let (line, end) = take_line(&chars, from);
        if let Some(rest) = text::strip_prefix(line.as_str(), prefix) {
            return Some(rest);
        }
        if end >= chars.len() {
            return None;
        }
        from = end + 1;
    }
    None
}

/// A plus sign in front of a number and zeros in front of its digits make no difference, and
/// one more digit behind them makes ten times as much and the digit. What has anything but
/// digits is no number.
pub proof fn numbers_are_read_digit_by_digit(digits: Seq<char>, d: char, most: nat, at: int)
    requires
        digits.len() > 0,
        all_digits(digits),
        '0' <= d <= '9',
    ensures
        number_in(seq!['+'] + digits, most) == number_in(digits, most),
        number_in(seq!['0'] + digits, most) == number_in(digits, most),
        number_in(seq![d], most) == if (d as nat - '0' as nat) <= most {
            Some((d as nat - '0' as nat) as nat)
        } else {
            None
        },
        number_in(digits, most) matches Some(value) ==> value <= most && number_in(
            digits.push(d),
            most,
        ) == if 10 * value + (d as nat - '0' as nat) <= most {
            Some((10 * value + (d as nat - '0' as nat)) as nat)
        } else {
            None
        },
        number_in(Seq::empty(), most) is None,
{
    let first = digits[0];
    assert(is_digit(first));
    let signed = seq!['+'] + digits;
    assert(signed[0] == '+');
    assert(signed.subrange(1, signed.len() as int) =~= digits);
    let padded = seq!['0'] + digits;
    assert(padded[0] == '0');
    assert forall|i: int| 0 <= i < padded.len() implies #[trigger] is_digit(padded[i]) by {
        if i > 0 {
            assert(padded[i] == digits[i - 1]);
            assert(is_digit(digits[i - 1]));
        }
    }
    lemma_padded(digits);
    let one = seq![d];
    assert(one[0] == d);
    assert(one.drop_last() =~= Seq::empty());
    assert(worth(one.drop_last()) == 0);
    let more = digits.push(d);
    assert(more[0] == first);
    assert(more.drop_last() =~= digits);
    assert forall|i: int| 0 <= i < more.len() implies #[trigger] is_digit(more[i]) by {
        if i < digits.len() {
            assert(is_digit(digits[i]));
        }
    }
    assert(worth(more) == 10 * worth(digits) + (d as nat - '0' as nat));
}

proof fn lemma_padded(digits: Seq<char>)
    ensures
        worth(seq!['0'] + digits) == worth(digits),
    decreases digits.len(),
{
    let padded = seq!['0'] + digits;
    if digits.len() == 0 {
        assert(padded =~= seq!['0']);
        assert(padded.drop_last() =~= Seq::empty());
        assert(worth(padded.drop_last()) == 0);
    } else {
        lemma_padded(digits.drop_last());
        assert(padded.drop_last() =~= seq!['0'] + digits.drop_last());
    }
}

/// A line begins at the given place.
pub open spec fn line_begins(text: Seq<char>, at: int) -> bool {
    0 <= at < text.len() && (at == 0 || text[at - 1] == '\n')
}

proof fn lemma_line_end(text: Seq<char>, from: int)
    requires
        0 <= from <= text.len(),
    ensures
        from <= line_end(text, from) <= text.len(),
        line_end(text, from) < text.len() ==> text[line_end(text, from)] == '\n',
        forall|i: int| from <= i < line_end(text, from) ==> #[trigger] text[i] != '\n',
    decreases text.len() - from,
{
    if from < text.len() && text[from] != '\n' {
        lemma_line_end(text, from + 1);
    }
}

/// A line goes up to the next line feed or the end of the text, without a carriage return
/// right in front of the line feed.
pub proof fn lines_end_at_line_feeds(text: Seq<char>, from: int)
    requires
        0 <= from <= text.len(),
    ensures
        ({
            let line = line_at(text, from);
            let end = from + line.len();
            &&& end <= text.len()
            &&& line == text.subrange(from, end)
            &&& forall|i: int| from <= i < end ==> #[trigger] text[i] != '\n'
            &&& end == text.len() || text[end] == '\n' || end + 1 < text.len() && text[end] == '\r'
                && text[end + 1] == '\n'
            &&& end < text.len() && end > from && text[end] == '\n' ==> text[end - 1] != '\r'
        }),
{
    lemma_line_end(text, from);
}

proof fn lemma_line_with(text: Seq<char>, prefix: Seq<char>, from: int)
    requires
        0 <= from <= text.len(),
        from == 0 || text[from - 1] == '\n',
    ensures
        match line_with(text, prefix, from) {
            Some(rest) => exists|at: int|
                {
                    &&& from <= at
                    &&& #[trigger] line_begins(text, at)
                    &&& line_at(text, at) == prefix + rest
                    &&& forall|j: int|
                        from <= j < at && #[trigger] line_begins(text, j) ==> !text::begins(
                            line_at(text, j),
                            prefix,
                        )
                },
            None => forall|j: int|
                from <= j && #[trigger] line_begins(text, j) ==> !text::begins(
                    line_at(text, j),
                    prefix,
                ),
        },
    decreases text.len() - from,
{
    if from < text.len() {
        lemma_line_end(text, from);
        let end = line_end(text, from);
        assert(line_begins(text, from));
        let line = line_at(text, from);
        assert forall|j: int| from < j <= end implies !#[trigger] line_begins(text, j) by {
            assert(text[j - 1] != '\n');
        }
        if text::begins(line, prefix) {
            assert(line =~= prefix + line.subrange(prefix.len() as int, line.len() as int));
        } else if end < text.len() {
            lemma_line_with(text, prefix, end + 1);
        }
    }
}

/// What is found is what the first line with the prefix says behind it.
pub proof fn the_first_line_with_the_prefix_counts(text: Seq<char>, prefix: Seq<char>)
    ensures
        match line_with(text, prefix, 0) {
            Some(rest) => exists|at: int|
                {
                    &&& #[trigger] line_begins(text, at)
                    &&& line_at(text, at) == prefix + rest
                    &&& forall|j: int|
                        j < at && #[trigger] line_begins(text, j) ==> !text::begins(
                            line_at(text, j),
                            prefix,
                        )
                },
            None => forall|j: int| #[trigger]
                line_begins(text, j) ==> !text::begins(line_at(text, j), prefix),
        },
{
    lemma_line_with(text, prefix, 0);
}

} // verus!
