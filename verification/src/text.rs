//! Texts: comparison, order, trimming, and sorted collections keyed by text.
use vstd::prelude::*;

verus! {

/// Two texts have the same characters.
pub fn same(a: &str, b: &str) -> (r: bool)
    ensures
        r == (a@ == b@),
{
    let x: &[u8] = a.as_bytes();
    let y: &[u8] = b.as_bytes();
    proof {
        vstd::utf8::encode_utf8_decode_utf8(a@);
        vstd::utf8::encode_utf8_decode_utf8(b@);
    }
    if x.len() != y.len() {
        return false;
    }
    let mut i: usize = 0;
    while i < x.len()
        invariant
            i <= x@.len(),
            x@.len() == y@.len(),
            x@ == vstd::utf8::encode_utf8(a@),
            y@ == vstd::utf8::encode_utf8(b@),
            forall|j: int| 0 <= j < i ==> x@[j] == y@[j],
        decreases x@.len() - i,
    {
        if x[i] != y[i] {
            return false;
        }
        i += 1;
    }
    proof {
        assert(x@ =~= y@);
    }
    true
}

/// `String::push`: the character is put behind the text.
pub assume_specification[ std::string::String::push ](this: &mut std::string::String, c: char)
    ensures
        final(this)@ == old(this)@.push(c),
;

/// The characters of a text.
pub fn characters(text: &str) -> (chars: Vec<char>)
    ensures
        chars@ == text@,
{
    let mut chars: Vec<char> = Vec::new();
    for c in iter: text.chars()
        invariant
            iter.seq() == text@,
            chars@ == text@.subrange(0, iter.index()),
    {
        chars.push(c);
        proof {
            assert(text@.subrange(0, iter.index() + 1) =~= text@.subrange(0, iter.index()).push(c));
        }
    }
    proof {
        assert(text@.subrange(0, text@.len() as int) =~= text@);
    }
    chars
}

/// A copy of a text.
pub fn copied(text: &str) -> (copy: String)
    ensures
        copy@ == text@,
{
    text.to_owned()
}

// ---------------------------------------------------------------------------
// Kinds of characters

/// White space as Unicode defines it.
pub open spec fn is_space(c: char) -> bool {
    let n = c as u32;
    ||| 0x09 <= n <= 0x0d
    ||| n == 0x20
    ||| n == 0x85
    ||| n == 0xa0
    ||| n == 0x1680
    ||| 0x2000 <= n <= 0x200a
    ||| n == 0x2028
    ||| n == 0x2029
    ||| n == 0x202f
    ||| n == 0x205f
    ||| n == 0x3000
}

/// Control characters as Unicode defines them.
pub open spec fn is_control(c: char) -> bool {
    let n = c as u32;
    n <= 0x1f || 0x7f <= n <= 0x9f
}

/// Nothing but white space.
pub open spec fn is_blank(text: Seq<char>) -> bool {
    forall|i: int| 0 <= i < text.len() ==> is_space(#[trigger] text[i])
}

pub open spec fn has_control(text: Seq<char>) -> bool {
    exists|i: int| 0 <= i < text.len() && is_control(#[trigger] text[i])
}

pub fn space(c: char) -> (r: bool)
    ensures
        r == is_space(c),
{
    let n: u32 = c as u32;
    (0x09 <= n && n <= 0x0d) || n == 0x20 || n == 0x85 || n == 0xa0 || n == 0x1680 || (0x2000 <= n
        && n <= 0x200a) || n == 0x2028 || n == 0x2029 || n == 0x202f || n == 0x205f || n == 0x3000
}

pub fn control(c: char) -> (r: bool)
    ensures
        r == is_control(c),
{
    let n: u32 = c as u32;
    n <= 0x1f || (0x7f <= n && n <= 0x9f)
}

pub fn blank(text: &str) -> (r: bool)
    ensures
        r == is_blank(text@),
{
    for c in iter: text.chars()
        invariant
            iter.seq() == text@,
            forall|i: int| 0 <= i < iter.index() ==> is_space(#[trigger] text@[i]),
    {
        if !space(c) {
            proof {
                assert(text@[iter.index()] == c);
            }
            return false;
        }
    }
    true
}

pub fn contains_control(text: &str) -> (r: bool)
    ensures
        r == has_control(text@),
{
    for c in iter: text.chars()
        invariant
            iter.seq() == text@,
            forall|i: int| 0 <= i < iter.index() ==> !is_control(#[trigger] text@[i]),
    {
        if control(c) {
            proof {
                assert(text@[iter.index()] == c);
            }
            return true;
        }
    }
    false
}

// ---------------------------------------------------------------------------
// Numbers

/// A decimal digit.
pub open spec fn digit(d: int) -> char {
    (48 + d) as char
}

/// A number in decimal digits, without leading zeros.
pub open spec fn decimal(n: int) -> Seq<char>
    decreases n,
{
    if n < 10 {
        seq![digit(n)]
    } else {
        decimal(n / 10).push(digit(n % 10))
    }
}

fn digit_of(d: u64) -> (c: char)
    requires
        d < 10,
    ensures
        c == digit(d as int),
{
    if d == 0 {
        '0'
    } else if d == 1 {
        '1'
    } else if d == 2 {
        '2'
    } else if d == 3 {
        '3'
    } else if d == 4 {
        '4'
    } else if d == 5 {
        '5'
    } else if d == 6 {
        '6'
    } else if d == 7 {
        '7'
    } else if d == 8 {
        '8'
    } else {
        '9'
    }
}

/// A number in decimal digits.
pub fn decimal_text(n: u64) -> (text: String)
    ensures
        text@ == decimal(n as int),
    decreases n,
{
    let mut text: String = if n < 10 {
        String::new()
    } else {
        decimal_text(n / 10)
    };
    text.push(digit_of(n % 10));
    proof {
        assert(text@ =~= decimal(n as int));
    }
    text
}

/// Two texts, one after the other.
pub fn joined(first: &str, second: &str) -> (text: String)
    ensures
        text@ == first@ + second@,
{
    first.to_owned().concat(second)
}

/// Three texts, one after the other.
pub fn joined3(first: &str, second: &str, third: &str) -> (text: String)
    ensures
        text@ == first@ + second@ + third@,
{
    first.to_owned().concat(second).concat(third)
}

/// Four texts, one after the other.
pub fn joined4(first: &str, second: &str, third: &str, fourth: &str) -> (text: String)
    ensures
        text@ == first@ + second@ + third@ + fourth@,
{
    first.to_owned().concat(second).concat(third).concat(fourth)
}

/// Texts, by their characters.
pub open spec fn texts(parts: Seq<String>) -> Seq<Seq<char>> {
    Seq::new(parts.len(), |i: int| parts[i]@)
}

/// Texts one after the other, with another text between each two.
pub open spec fn listed(parts: Seq<Seq<char>>, between: Seq<char>) -> Seq<char>
    decreases parts.len(),
{
    if parts.len() == 0 {
        Seq::empty()
    } else if parts.len() == 1 {
        parts[0]
    } else {
        listed(parts.drop_last(), between) + between + parts.last()
    }
}

/// Texts one after the other, with another text between each two.
pub fn list(parts: &Vec<String>, between: &str) -> (text: String)
    ensures
        text@ == listed(texts(parts@), between@),
{
    let mut text: String = String::new();
    let mut i: usize = 0;
    let ghost all = texts(parts@);
    proof {
        assert(all.subrange(0, 0) =~= Seq::empty());
    }
    while i < parts.len()
        invariant
            i <= parts@.len(),
            all == texts(parts@),
            text@ == listed(all.subrange(0, i as int), between@),
        decreases parts@.len() - i,
    {
        let ghost after = all.subrange(0, i + 1);
        proof {
            assert(after.drop_last() =~= all.subrange(0, i as int));
            assert(after.last() == parts@[i as int]@);
        }
        if i == 0 {
            text = copied(parts[i].as_str());
        } else {
            text = joined3(text.as_str(), between, parts[i].as_str());
        }
        i = i + 1;
    }
    proof {
        assert(all.subrange(0, i as int) =~= all);
    }
    text
}

/// A text begins with another one.
pub open spec fn begins(text: Seq<char>, prefix: Seq<char>) -> bool {
    prefix.len() <= text.len() && text.subrange(0, prefix.len() as int) == prefix
}

/// A text ends with another one.
pub open spec fn ends(text: Seq<char>, suffix: Seq<char>) -> bool {
    suffix.len() <= text.len() && text.subrange(text.len() - suffix.len(), text.len() as int)
        == suffix
}

/// The characters of `whole` from `at` on are those of `part`.
fn stands_at(whole: &Vec<char>, part: &Vec<char>, at: usize) -> (r: bool)
    requires
        at + part@.len() <= whole@.len(),
    ensures
        r == (whole@.subrange(at as int, at + part@.len()) == part@),
{
    let end: usize = whole.len();
    let mut i: usize = 0;
    while i < part.len()
        invariant
            end == whole@.len(),
            at + part@.len() <= end,
            i <= part@.len(),
            forall|k: int| 0 <= k < i ==> whole@[at + k] == #[trigger] part@[k],
        decreases part@.len() - i,
    {
        if whole[at + i] != part[i] {
            proof {
                assert(whole@.subrange(at as int, at + part@.len())[i as int] != part@[i as int]);
            }
            return false;
        }
        i = i + 1;
    }
    proof {
        assert(whole@.subrange(at as int, at + part@.len()) =~= part@);
    }
    true
}

pub fn starts_with(text: &str, prefix: &str) -> (r: bool)
    ensures
        r == begins(text@, prefix@),
{
    let whole: Vec<char> = characters(text);
    let part: Vec<char> = characters(prefix);
    part.len() <= whole.len() && stands_at(&whole, &part, 0)
}

pub fn ends_with(text: &str, suffix: &str) -> (r: bool)
    ensures
        r == ends(text@, suffix@),
{
    let whole: Vec<char> = characters(text);
    let part: Vec<char> = characters(suffix);
    if part.len() > whole.len() {
        return false;
    }
    let at: usize = whole.len() - part.len();
    stands_at(&whole, &part, at)
}

/// A text with the characters given one by one.
pub fn text_of(chars: &Vec<char>, from: usize, to: usize) -> (text: String)
    requires
        from <= to <= chars@.len(),
    ensures
        text@ == chars@.subrange(from as int, to as int),
{
    let mut text: String = String::new();
    let mut i: usize = from;
    proof {
        assert(chars@.subrange(from as int, from as int) =~= Seq::empty());
    }
    while i < to
        invariant
            from <= i <= to <= chars@.len(),
            text@ == chars@.subrange(from as int, i as int),
        decreases to - i,
    {
        text.push(chars[i]);
        proof {
            assert(chars@.subrange(from as int, i + 1) =~= chars@.subrange(
                from as int,
                i as int,
            ).push(chars@[i as int]));
        }
        i = i + 1;
    }
    text
}

/// What follows a prefix, where a text begins with it.
pub open spec fn following(text: Seq<char>, prefix: Seq<char>) -> Option<Seq<char>> {
    if begins(text, prefix) {
        Some(text.subrange(prefix.len() as int, text.len() as int))
    } else {
        None
    }
}

pub fn strip_prefix(text: &str, prefix: &str) -> (rest: Option<String>)
    ensures
        following(text@, prefix@) == (match rest {
            Some(rest) => Some(rest@),
            None => None::<Seq<char>>,
        }),
{
    let whole: Vec<char> = characters(text);
    let part: Vec<char> = characters(prefix);
    if part.len() <= whole.len() && stands_at(&whole, &part, 0) {
        Some(text_of(&whole, part.len(), whole.len()))
    } else {
        None
    }
}

/// How many characters at the front, up to `n`, are white space.
pub open spec fn leading(text: Seq<char>, from: int) -> int
    decreases text.len() - from,
{
    if from >= text.len() || !is_space(text[from]) {
        from
    } else {
        leading(text, from + 1)
    }
}

/// Where the white space at the end begins, not before `from`.
pub open spec fn trailing(text: Seq<char>, from: int, to: int) -> int
    decreases to - from,
{
    if to <= from || !is_space(text[to - 1]) {
        to
    } else {
        trailing(text, from, to - 1)
    }
}

/// A text without the white space at its ends.
pub open spec fn trimmed(text: Seq<char>) -> Seq<char> {
    let from = leading(text, 0);
    text.subrange(from, trailing(text, from, text.len() as int))
}

pub proof fn lemma_trimmed(text: Seq<char>, from: int)
    requires
        0 <= from <= text.len(),
    ensures
        from <= leading(text, from) <= text.len(),
        forall|i: int| from <= i < leading(text, from) ==> is_space(#[trigger] text[i]),
        leading(text, from) < text.len() ==> !is_space(text[leading(text, from)]),
    decreases text.len() - from,
{
    if from < text.len() && is_space(text[from]) {
        lemma_trimmed(text, from + 1);
    }
}

pub proof fn lemma_trailing(text: Seq<char>, from: int, to: int)
    requires
        0 <= from <= to <= text.len(),
    ensures
        from <= trailing(text, from, to) <= to,
        forall|i: int| trailing(text, from, to) <= i < to ==> is_space(#[trigger] text[i]),
        trailing(text, from, to) > from ==> !is_space(text[trailing(text, from, to) - 1]),
    decreases to - from,
{
    if from < to && is_space(text[to - 1]) {
        lemma_trailing(text, from, to - 1);
    }
}

/// A text without the white space at its ends.
pub fn trim(text: &str) -> (short: String)
    ensures
        short@ == trimmed(text@),
{
    let chars: Vec<char> = characters(text);
    let mut from: usize = 0;
    proof {
        lemma_trimmed(text@, 0);
    }
    while from < chars.len() && space(chars[from])
        invariant
            chars@ == text@,
            from <= chars@.len(),
            leading(text@, 0) == leading(text@, from as int),
        decreases chars@.len() - from,
    {
        from = from + 1;
    }
    let mut to: usize = chars.len();
    proof {
        lemma_trailing(text@, from as int, to as int);
    }
    while to > from && space(chars[to - 1])
        invariant
            chars@ == text@,
            from <= to <= chars@.len(),
            trailing(text@, from as int, chars@.len() as int) == trailing(
                text@,
                from as int,
                to as int,
            ),
        decreases to,
    {
        to = to - 1;
    }
    text_of(&chars, from, to)
}

/// A letter of the English alphabet in lower case.
pub open spec fn lower(c: char) -> char {
    if 'A' <= c && c <= 'Z' {
        ((c as u32) + 32) as char
    } else {
        c
    }
}

/// All letters of the English alphabet in lower case.
pub open spec fn lowered(text: Seq<char>) -> Seq<char> {
    Seq::new(text.len(), |i: int| lower(text[i]))
}

fn lower_char(c: char) -> (l: char)
    ensures
        l == lower(c),
{
    if 'A' <= c && c <= 'Z' {
        let n: u8 = c as u8 + 32;
        n as char
    } else {
        c
    }
}

/// All letters of the English alphabet in lower case.
pub fn lower_text(text: &str) -> (low: String)
    ensures
        low@ == lowered(text@),
{
    let chars: Vec<char> = characters(text);
    let mut low: String = String::new();
    let mut i: usize = 0;
    while i < chars.len()
        invariant
            chars@ == text@,
            i <= chars@.len(),
            low@ == lowered(text@).subrange(0, i as int),
        decreases chars@.len() - i,
    {
        low.push(lower_char(chars[i]));
        proof {
            assert(lowered(text@).subrange(0, i + 1) =~= lowered(text@).subrange(
                0,
                i as int,
            ).push(lowered(text@)[i as int]));
        }
        i = i + 1;
    }
    proof {
        assert(lowered(text@).subrange(0, text@.len() as int) =~= lowered(text@));
    }
    low
}

/// A text holds another one somewhere.
pub open spec fn occurs(text: Seq<char>, part: Seq<char>) -> bool {
    exists|i: int|
        0 <= i <= text.len() - part.len() && #[trigger] text.subrange(i, i + part.len()) == part
}

/// The characters of `whole` hold those of `part` somewhere.
pub fn holds_chars(whole: &Vec<char>, part: &Vec<char>) -> (r: bool)
    ensures
        r == occurs(whole@, part@),
{
    if part.len() > whole.len() {
        return false;
    }
    let last: usize = whole.len() - part.len();
    let mut i: usize = 0;
    while i <= last
        invariant
            last == whole@.len() - part@.len(),
            i <= last + 1,
            last < usize::MAX || i <= last,
            forall|k: int|
                0 <= k < i ==> #[trigger] whole@.subrange(k, k + part@.len()) != part@,
        ensures
            forall|k: int|
                0 <= k <= last ==> #[trigger] whole@.subrange(k, k + part@.len()) != part@,
        decreases last + 1 - i,
    {
        if stands_at(whole, part, i) {
            proof {
                assert(whole@.subrange(i as int, i + part@.len()) == part@);
            }
            return true;
        }
        if i == last {
            break;
        }
        i = i + 1;
    }
    false
}

/// A text holds another one somewhere.
pub fn contains(text: &str, part: &str) -> (r: bool)
    ensures
        r == occurs(text@, part@),
{
    holds_chars(&characters(text), &characters(part))
}

/// How `std` quotes a text for a person who looks for mistakes in it.
pub uninterp spec fn quotation(text: Seq<char>) -> Seq<char>;

/// The text as the `Debug` formatting of `str` renders it: in quotes, with
/// escapes. Nothing is claimed of the result but that it is determined by the
/// text.
#[verifier::external_body]
pub(crate) fn quoted(text: &str) -> (quoted: String)
    ensures
        quoted@ == quotation(text@),
{
    format!("{:?}", text)
}

// ---------------------------------------------------------------------------
// Order

/// `a` comes before `b`: character by character, by code point.
pub open spec fn text_less(a: Seq<char>, b: Seq<char>) -> bool
    decreases a.len(),
{
    if b.len() == 0 {
        false
    } else if a.len() == 0 {
        true
    } else if a[0] != b[0] {
        (a[0] as u32) < (b[0] as u32)
    } else {
        text_less(a.drop_first(), b.drop_first())
    }
}

pub proof fn lemma_text_less_irreflexive(a: Seq<char>)
    ensures
        !text_less(a, a),
    decreases a.len(),
{
    if a.len() > 0 {
        lemma_text_less_irreflexive(a.drop_first());
    }
}

pub proof fn lemma_text_less_transitive(a: Seq<char>, b: Seq<char>, c: Seq<char>)
    requires
        text_less(a, b),
        text_less(b, c),
    ensures
        text_less(a, c),
    decreases a.len(),
{
    if a.len() > 0 && a[0] == b[0] && b[0] == c[0] {
        lemma_text_less_transitive(a.drop_first(), b.drop_first(), c.drop_first());
    }
}

pub proof fn lemma_text_less_total(a: Seq<char>, b: Seq<char>)
    ensures
        a == b || text_less(a, b) || text_less(b, a),
    decreases a.len(),
{
    if a.len() > 0 && b.len() > 0 {
        if a[0] == b[0] {
            lemma_text_less_total(a.drop_first(), b.drop_first());
            if a.drop_first() == b.drop_first() {
                assert(a =~= seq![a[0]] + a.drop_first());
                assert(b =~= seq![b[0]] + b.drop_first());
            }
        } else {
            vstd::utf8::char_u32_cast(a[0], a[0] as u32);
            vstd::utf8::char_u32_cast(b[0], b[0] as u32);
        }
    } else {
        if a.len() == 0 && b.len() == 0 {
            assert(a =~= b);
        }
    }
}

/// Whether `a` comes before `b`.
pub fn less(a: &str, b: &str) -> (r: bool)
    ensures
        r == text_less(a@, b@),
{
    let x: Vec<char> = characters(a);
    let y: Vec<char> = characters(b);
    let mut i: usize = 0;
    proof {
        assert(x@.subrange(0, x@.len() as int) =~= x@);
        assert(y@.subrange(0, y@.len() as int) =~= y@);
    }
    while i < x.len() && i < y.len()
        invariant
            i <= x@.len(),
            i <= y@.len(),
            text_less(a@, b@) == text_less(
                x@.subrange(i as int, x@.len() as int),
                y@.subrange(i as int, y@.len() as int),
            ),
        decreases x@.len() - i,
    {
        let ghost p = x@.subrange(i as int, x@.len() as int);
        let ghost q = y@.subrange(i as int, y@.len() as int);
        if x[i] != y[i] {
            return (x[i] as u32) < (y[i] as u32);
        }
        proof {
            assert(p.drop_first() =~= x@.subrange(i + 1, x@.len() as int));
            assert(q.drop_first() =~= y@.subrange(i + 1, y@.len() as int));
        }
        i += 1;
    }
    i < y.len()
}

/// The texts stand in order, and none occurs twice.
pub open spec fn sorted(keys: Seq<Seq<char>>) -> bool {
    forall|i: int, j: int| 0 <= i < j < keys.len() ==> text_less(
        #[trigger] keys[i],
        #[trigger] keys[j],
    )
}

/// How many of the texts at the front come before `key`.
pub open spec fn rank(keys: Seq<Seq<char>>, key: Seq<char>) -> nat
    decreases keys.len(),
{
    if keys.len() == 0 || !text_less(keys[0], key) {
        0
    } else {
        1 + rank(keys.drop_first(), key)
    }
}

/// Where `key` belongs among sorted texts.
pub proof fn lemma_rank(keys: Seq<Seq<char>>, key: Seq<char>)
    requires
        sorted(keys),
    ensures
        rank(keys, key) <= keys.len(),
        forall|i: int| 0 <= i < rank(keys, key) ==> text_less(#[trigger] keys[i], key),
        forall|i: int|
            rank(keys, key) <= i < keys.len() ==> !text_less(#[trigger] keys[i], key),
        keys.contains(key) <==> rank(keys, key) < keys.len() && keys[rank(keys, key) as int] == key,
    decreases keys.len(),
{
    if keys.len() > 0 {
        let tail = keys.drop_first();
        assert(sorted(tail)) by {
            assert forall|i: int, j: int| 0 <= i < j < tail.len() implies text_less(
                #[trigger] tail[i],
                #[trigger] tail[j],
            ) by {
                assert(tail[i] == keys[i + 1] && tail[j] == keys[j + 1]);
            }
        }
        lemma_rank(tail, key);
        assert forall|i: int| 0 <= i < rank(keys, key) implies text_less(
            #[trigger] keys[i],
            key,
        ) by {
            if i > 0 {
                assert(keys[i] == tail[i - 1]);
            }
        }
        assert forall|i: int| rank(keys, key) <= i < keys.len() implies !text_less(
            #[trigger] keys[i],
            key,
        ) by {
            if text_less(keys[0], key) {
                assert(keys[i] == tail[i - 1]);
            } else if i > 0 {
                assert(text_less(keys[0], keys[i]));
                if text_less(keys[i], key) {
                    lemma_text_less_transitive(keys[0], keys[i], key);
                }
            }
        }
        let r = rank(keys, key);
        if keys.contains(key) {
            let k = choose|k: int| 0 <= k < keys.len() && keys[k] == key;
            lemma_text_less_irreflexive(key);
            assert(k >= r);
            if k > r {
                assert(text_less(keys[r as int], keys[k]));
                assert(!text_less(keys[r as int], key));
            }
        }
    }
}

/// A text that is new stands at its rank.
pub proof fn lemma_insert_sorted(keys: Seq<Seq<char>>, key: Seq<char>)
    requires
        sorted(keys),
        !keys.contains(key),
    ensures
        sorted(keys.insert(rank(keys, key) as int, key)),
{
    lemma_rank(keys, key);
    let r = rank(keys, key) as int;
    let next = keys.insert(r, key);
    assert forall|i: int, j: int| 0 <= i < j < next.len() implies text_less(
        #[trigger] next[i],
        #[trigger] next[j],
    ) by {
        if i == r {
            lemma_text_less_total(key, keys[j - 1]);
            assert(keys.contains(keys[j - 1]));
        } else if j == r {
            assert(next[i] == keys[i]);
        } else if i < r && r < j {
            assert(next[i] == keys[i] && next[j] == keys[j - 1]);
        } else if j < r {
            assert(next[i] == keys[i] && next[j] == keys[j]);
        } else {
            assert(next[i] == keys[i - 1] && next[j] == keys[j - 1]);
        }
    }
}

// ---------------------------------------------------------------------------
// Sorted sets

/// What is found by a text and ordered by it.
pub trait TextKey: Sized {
    spec fn text(&self) -> Seq<char>;

    fn as_text(&self) -> (text: &str)
        ensures
            text@ == self.text(),
    ;
}

impl TextKey for String {
    open spec fn text(&self) -> Seq<char> {
        self@
    }

    fn as_text(&self) -> (text: &str) {
        self.as_str()
    }
}

/// A set of texts, in order.
#[derive(Clone, Debug, PartialEq, Eq)]
pub struct TextSet<K> {
    items: Vec<K>,
}

impl<K: TextKey> View for TextSet<K> {
    type V = Seq<Seq<char>>;

    /// The texts, in order.
    closed spec fn view(&self) -> Seq<Seq<char>> {
        Seq::new(self.items@.len(), |i: int| self.items@[i].text())
    }
}

impl<K: TextKey> TextSet<K> {
    /// What the set holds, in order.
    pub closed spec fn items(self) -> Seq<K> {
        self.items@
    }

    /// The texts stand in order, and none occurs twice.
    pub open spec fn wf(self) -> bool {
        sorted(self@)
    }

    /// The items are what the texts are of, one by one.
    pub proof fn lemma_items(self)
        ensures
            self.items().len() == self@.len(),
            forall|i: int| 0 <= i < self@.len() ==> #[trigger] self.items()[i].text() == self@[i],
    {
    }

    pub fn new() -> (set: Self)
        ensures
            set@ == Seq::<Seq<char>>::empty(),
            set.wf(),
    {
        let set: TextSet<K> = TextSet { items: Vec::new() };
        proof {
            assert(set@ =~= Seq::<Seq<char>>::empty());
        }
        set
    }

    pub fn len(&self) -> (n: usize)
        ensures
            n == self@.len(),
    {
        self.items.len()
    }

    pub fn get(&self, i: usize) -> (item: &K)
        requires
            i < self@.len(),
        ensures
            *item == self.items()[i as int],
            item.text() == self@[i as int],
    {
        &self.items[i]
    }

    fn position(&self, key: &str) -> (r: usize)
        requires
            self.wf(),
        ensures
            r == rank(self@, key@),
            r <= self@.len(),
    {
        let mut i: usize = 0;
        proof {
            lemma_rank(self@, key@);
        }
        while i < self.items.len()
            invariant
                i <= self@.len(),
                self@.len() == self.items@.len(),
                self.wf(),
                i <= rank(self@, key@) <= self@.len(),
                forall|k: int|
                    0 <= k < rank(self@, key@) ==> text_less(#[trigger] self@[k], key@),
                forall|k: int|
                    rank(self@, key@) <= k < self@.len() ==> !text_less(#[trigger] self@[k], key@),
            decreases self@.len() - i,
        {
            if !less(self.items[i].as_text(), key) {
                proof {
                    assert(!text_less(self@[i as int], key@));
                }
                return i;
            }
            proof {
                assert(text_less(self@[i as int], key@));
            }
            i += 1;
        }
        i
    }

    pub fn contains(&self, key: &str) -> (found: bool)
        requires
            self.wf(),
        ensures
            found == self@.contains(key@),
    {
        let r: usize = self.position(key);
        proof {
            lemma_rank(self@, key@);
        }
        r < self.items.len() && same(self.items[r].as_text(), key)
    }

    /// Adds a text; the answer is whether it was new.
    pub fn insert(&mut self, key: K) -> (added: bool)
        requires
            old(self).wf(),
        ensures
            final(self).wf(),
            added == !old(self)@.contains(key.text()),
            final(self)@ == (if added {
                old(self)@.insert(rank(old(self)@, key.text()) as int, key.text())
            } else {
                old(self)@
            }),
            final(self).items() == (if added {
                old(self).items().insert(rank(old(self)@, key.text()) as int, key)
            } else {
                old(self).items()
            }),
    {
        let r: usize = self.position(key.as_text());
        proof {
            lemma_rank(self@, key.text());
        }
        if r < self.items.len() && same(self.items[r].as_text(), key.as_text()) {
            return false;
        }
        let ghost before = self@;
        self.items.insert(r, key);
        proof {
            lemma_insert_sorted(before, key.text());
            assert(self@ =~= before.insert(r as int, key.text()));
        }
        true
    }
}

/// What is in a sequence with one more element.
pub proof fn lemma_insert_contains<T>(s: Seq<T>, r: int, x: T, y: T)
    requires
        0 <= r <= s.len(),
    ensures
        s.insert(r, x).contains(y) <==> x == y || s.contains(y),
{
    let t = s.insert(r, x);
    if s.contains(y) {
        let k = choose|k: int| 0 <= k < s.len() && s[k] == y;
        if k < r {
            assert(t[k] == y);
        } else {
            assert(t[k + 1] == y);
        }
    }
    if x == y {
        assert(t[r] == y);
    }
    if t.contains(y) {
        let k = choose|k: int| 0 <= k < t.len() && t[k] == y;
        if k < r {
            assert(s[k] == y);
        } else if k > r {
            assert(s[k - 1] == y);
        }
    }
}

// ---------------------------------------------------------------------------
// Sorted maps

/// Values by text, in the order of the texts.
#[derive(Clone, Debug, PartialEq, Eq)]
pub struct TextMap<K, V> {
    entries: Vec<(K, V)>,
}

impl<K: TextKey, V> TextMap<K, V> {
    /// The texts, in order.
    pub closed spec fn keys(self) -> Seq<Seq<char>> {
        Seq::new(self.entries@.len(), |i: int| self.entries@[i].0.text())
    }

    /// The values, in the order of their texts.
    pub closed spec fn values(self) -> Seq<V> {
        Seq::new(self.entries@.len(), |i: int| self.entries@[i].1)
    }

    /// There is one value for each text, and the texts stand in order.
    pub open spec fn wf(self) -> bool {
        sorted(self.keys()) && self.keys().len() == self.values().len()
    }

    pub open spec fn has(self, key: Seq<char>) -> bool {
        self.keys().contains(key)
    }

    /// The value of a text.
    pub open spec fn lookup(self, key: Seq<char>) -> Option<V> {
        if self.has(key) {
            Some(self.values()[rank(self.keys(), key) as int])
        } else {
            None
        }
    }

    pub fn new() -> (map: Self)
        ensures
            map.wf(),
            map.keys() == Seq::<Seq<char>>::empty(),
            map.values() == Seq::<V>::empty(),
    {
        let map: TextMap<K, V> = TextMap { entries: Vec::new() };
        proof {
            assert(map.keys() =~= Seq::<Seq<char>>::empty());
            assert(map.values() =~= Seq::<V>::empty());
        }
        map
    }

    pub fn len(&self) -> (n: usize)
        ensures
            n == self.keys().len(),
            n == self.values().len(),
    {
        self.entries.len()
    }

    pub fn key_at(&self, i: usize) -> (key: &str)
        requires
            i < self.keys().len(),
        ensures
            key@ == self.keys()[i as int],
    {
        self.entries[i].0.as_text()
    }

    pub fn value_at(&self, i: usize) -> (value: &V)
        requires
            i < self.keys().len(),
        ensures
            *value == self.values()[i as int],
    {
        &self.entries[i].1
    }

    fn position(&self, key: &str) -> (r: usize)
        requires
            self.wf(),
        ensures
            r == rank(self.keys(), key@),
            r <= self.keys().len(),
    {
        let mut i: usize = 0;
        proof {
            lemma_rank(self.keys(), key@);
        }
        while i < self.entries.len()
            invariant
                i <= self.keys().len(),
                self.keys().len() == self.entries@.len(),
                i <= rank(self.keys(), key@) <= self.keys().len(),
                forall|k: int|
                    0 <= k < rank(self.keys(), key@) ==> text_less(#[trigger] self.keys()[k], key@),
                forall|k: int|
                    rank(self.keys(), key@) <= k < self.keys().len() ==> !text_less(
                        #[trigger] self.keys()[k],
                        key@,
                    ),
            decreases self.keys().len() - i,
        {
            if !less(self.entries[i].0.as_text(), key) {
                proof {
                    assert(!text_less(self.keys()[i as int], key@));
                }
                return i;
            }
            proof {
                assert(text_less(self.keys()[i as int], key@));
            }
            i += 1;
        }
        i
    }

    pub fn get(&self, key: &str) -> (value: Option<&V>)
        requires
            self.wf(),
        ensures
            match value {
                Some(v) => self.lookup(key@) == Some(*v),
                None => self.lookup(key@) is None,
            },
    {
        let r: usize = self.position(key);
        proof {
            lemma_rank(self.keys(), key@);
        }
        if r < self.entries.len() && same(self.entries[r].0.as_text(), key) {
            Some(&self.entries[r].1)
        } else {
            None
        }
    }

    pub fn contains(&self, key: &str) -> (found: bool)
        requires
            self.wf(),
        ensures
            found == self.has(key@),
    {
        self.get(key).is_some()
    }

    /// Sets the value of a text, replacing an earlier one.
    pub fn insert(&mut self, key: K, value: V)
        requires
            old(self).wf(),
        ensures
            final(self).wf(),
            final(self).keys() == (if old(self).has(key.text()) {
                old(self).keys()
            } else {
                old(self).keys().insert(rank(old(self).keys(), key.text()) as int, key.text())
            }),
            final(self).values() == (if old(self).has(key.text()) {
                old(self).values().update(rank(old(self).keys(), key.text()) as int, value)
            } else {
                old(self).values().insert(rank(old(self).keys(), key.text()) as int, value)
            }),
    {
        let r: usize = self.position(key.as_text());
        proof {
            lemma_rank(self.keys(), key.text());
        }
        let ghost before = *self;
        if r < self.entries.len() && same(self.entries[r].0.as_text(), key.as_text()) {
            self.entries.set(r, (key, value));
            proof {
                assert(self.keys() =~= before.keys());
                assert(self.values() =~= before.values().update(r as int, value));
            }
        } else {
            self.entries.insert(r, (key, value));
            proof {
                lemma_insert_sorted(before.keys(), key.text());
                assert(self.keys() =~= before.keys().insert(r as int, key.text()));
                assert(self.values() =~= before.values().insert(r as int, value));
            }
        }
    }
}

/// Setting a value leaves the values of all other texts as they were.
pub proof fn lemma_insert_lookup<K: TextKey, V>(
    before: TextMap<K, V>,
    after: TextMap<K, V>,
    key: Seq<char>,
    value: V,
)
    requires
        before.wf(),
        after.wf(),
        after.keys() == (if before.has(key) {
            before.keys()
        } else {
            before.keys().insert(rank(before.keys(), key) as int, key)
        }),
        after.values() == (if before.has(key) {
            before.values().update(rank(before.keys(), key) as int, value)
        } else {
            before.values().insert(rank(before.keys(), key) as int, value)
        }),
    ensures
        after.lookup(key) == Some(value),
        forall|other: Seq<char>| other != key ==> #[trigger] after.lookup(other) == before.lookup(
            other,
        ),
{
    let r = rank(before.keys(), key) as int;
    lemma_rank(before.keys(), key);
    lemma_rank(after.keys(), key);
    if before.has(key) {
        assert forall|other: Seq<char>| other != key implies #[trigger] after.lookup(other)
            == before.lookup(other) by {
            lemma_rank(before.keys(), other);
        }
    } else {
        lemma_insert_contains(before.keys(), r, key, key);
        assert(after.keys()[r] == key);
        assert(after.keys().contains(key));
        let ra = rank(after.keys(), key) as int;
        if ra != r {
            lemma_text_less_irreflexive(key);
            assert(after.keys()[ra] == key);
            if ra < r {
                assert(text_less(after.keys()[ra], after.keys()[r]));
            } else {
                assert(text_less(after.keys()[r], after.keys()[ra]));
            }
        }
        assert forall|other: Seq<char>| other != key implies #[trigger] after.lookup(other)
            == before.lookup(other) by {
            lemma_insert_contains(before.keys(), r, key, other);
            lemma_rank(before.keys(), other);
            lemma_rank(after.keys(), other);
            if before.has(other) {
                let b = rank(before.keys(), other) as int;
                let a = rank(after.keys(), other) as int;
                let e = if b < r { b } else { b + 1 };
                assert(after.keys()[e] == other);
                lemma_text_less_irreflexive(other);
                if a < e {
                    assert(text_less(after.keys()[a], after.keys()[e]));
                } else if e < a {
                    assert(text_less(after.keys()[e], after.keys()[a]));
                }
                assert(after.values()[e] == before.values()[b]);
            }
        }
    }
}

pub proof fn lemma_insert_to_set(s: Seq<Seq<char>>, r: int, x: Seq<char>)
    requires
        0 <= r <= s.len(),
    ensures
        s.insert(r, x).to_set() == s.to_set().insert(x),
{
    assert forall|y: Seq<char>|
        #[trigger] s.insert(r, x).to_set().contains(y) == s.to_set().insert(x).contains(y) by {
        lemma_insert_contains(s, r, x, y);
    }
    assert(s.insert(r, x).to_set() =~= s.to_set().insert(x));
}

/// A map gives for each of its texts the value that stands with it, and nothing for
/// any other text.
pub proof fn maps_hold_one_value_for_a_text<K: TextKey, V>(map: TextMap<K, V>)
    requires
        map.wf(),
    ensures
        forall|i: int|
            0 <= i < map.keys().len() ==> map.lookup(#[trigger] map.keys()[i]) == Some(
                map.values()[i],
            ),
        forall|key: Seq<char>|
            !map.keys().contains(key) ==> #[trigger] map.lookup(key) == None::<V>,
{
    assert forall|i: int| 0 <= i < map.keys().len() implies map.lookup(#[trigger] map.keys()[i])
        == Some(map.values()[i]) by {
        let key = map.keys()[i];
        let at = rank(map.keys(), key) as int;
        assert(map.keys().contains(key));
        lemma_rank(map.keys(), key);
        lemma_text_less_irreflexive(key);
        assert(map.keys()[at] == map.keys()[i]);
        if at < i {
            assert(text_less(map.keys()[at], map.keys()[i]));
        } else if i < at {
            assert(text_less(map.keys()[i], map.keys()[at]));
        }
    }
}

/// A text comes before another one where it is a proper beginning of it, or where
/// the first character in which they differ has the lower code point.
pub proof fn texts_are_ordered_by_their_first_difference(a: Seq<char>, b: Seq<char>, k: int)
    requires
        0 <= k <= a.len(),
        k <= b.len(),
        forall|i: int| 0 <= i < k ==> #[trigger] a[i] == b[i],
        k < a.len() && k < b.len() ==> a[k] != b[k],
    ensures
        text_less(a, b) == if k < a.len() && k < b.len() {
            (a[k] as u32) < (b[k] as u32)
        } else {
            k < b.len()
        },
    decreases k,
{
    if k > 0 {
        assert(a[0] == b[0]);
        let x = a.drop_first();
        let y = b.drop_first();
        assert forall|i: int| 0 <= i < k - 1 implies #[trigger] x[i] == y[i] by {
            assert(a[i + 1] == b[i + 1]);
        }
        texts_are_ordered_by_their_first_difference(x, y, k - 1);
    }
}

/// What is left of a text without the white space at its ends is a part of it, with
/// nothing but white space before and behind, and neither begins nor ends with any.
pub proof fn trimming_takes_white_space_off_both_ends(text: Seq<char>) -> (from: int)
    ensures
        0 <= from <= from + trimmed(text).len() <= text.len(),
        trimmed(text) == text.subrange(from, from + trimmed(text).len()),
        forall|i: int|
            #![trigger text[i]]
            0 <= i < text.len() && !(from <= i < from + trimmed(text).len()) ==> is_space(text[i]),
        trimmed(text).len() > 0 ==> !is_space(trimmed(text)[0]) && !is_space(trimmed(text).last()),
{
    lemma_trimmed(text, 0);
    let from = leading(text, 0);
    lemma_trailing(text, from, text.len() as int);
    from
}

/// A number is written with its digits from the highest on: one more digit behind them makes
/// ten times as much and the digit, and no zero stands in front.
pub proof fn numbers_are_written_digit_by_digit(n: int, d: int)
    requires
        n >= 0,
        0 <= d < 10,
    ensures
        decimal(d) == seq![digit(d)],
        n > 0 ==> decimal(10 * n + d) == decimal(n).push(digit(d)),
        n > 0 ==> decimal(n)[0] != '0',
        digit(d) as u32 == '0' as u32 + d,
    decreases n,
{
    assert((10 * n + d) / 10 == n && (10 * n + d) % 10 == d);
    if n >= 10 {
        numbers_are_written_digit_by_digit(n / 10, n % 10);
        assert(decimal(n)[0] == decimal(n / 10)[0]);
    }
}

/// The list of some texts and one more is the list of the others, what stands between, and
/// that one.
pub proof fn lists_are_made_one_by_one(
    parts: Seq<Seq<char>>,
    part: Seq<char>,
    between: Seq<char>,
)
    ensures
        listed(Seq::empty(), between) == Seq::<char>::empty(),
        listed(seq![part], between) == part,
        parts.len() > 0 ==> listed(parts.push(part), between) == listed(parts, between) + between
            + part,
{
    assert(parts.push(part).drop_last() =~= parts);
}

/// Letters of the English alphabet are put in lower case, and nothing else is changed; text in
/// lower case stays as it is.
pub proof fn lower_case_changes_capitals_only(text: Seq<char>, i: int)
    requires
        0 <= i < text.len(),
    ensures
        lowered(text).len() == text.len(),
        'A' <= text[i] <= 'Z' ==> lowered(text)[i] as u32 == text[i] as u32 + 32,
        !('A' <= text[i] <= 'Z') ==> lowered(text)[i] == text[i],
        lowered(lowered(text)) == lowered(text),
{
    let low = lowered(text);
    assert forall|k: int| 0 <= k < low.len() implies #[trigger] lowered(low)[k] == low[k] by {
        let c = text[k];
        vstd::utf8::char_u32_cast(c, c as u32);
    }
    assert(lowered(low) =~= low);
    let c = text[i];
    vstd::utf8::char_u32_cast(c, c as u32);
}

/// A text holds another one exactly where it is something, that one, and something else.
pub proof fn texts_hold_what_stands_within_them(text: Seq<char>, part: Seq<char>)
    ensures
        occurs(text, part) <==> exists|before: Seq<char>, after: Seq<char>|
            text == #[trigger] (before + part + after),
        begins(text, part) <==> exists|after: Seq<char>| text == #[trigger] (part + after),
        ends(text, part) <==> exists|before: Seq<char>| text == #[trigger] (before + part),
{
    if occurs(text, part) {
        let i = choose|i: int|
            0 <= i <= text.len() - part.len() && #[trigger] text.subrange(i, i + part.len())
                == part;
        let before = text.subrange(0, i);
        let after = text.subrange(i + part.len(), text.len() as int);
        assert(text =~= before + part + after);
    }
    if exists|before: Seq<char>, after: Seq<char>| text == #[trigger] (before + part + after) {
        let (before, after) = choose|before: Seq<char>, after: Seq<char>|
            text == #[trigger] (before + part + after);
        let i = before.len() as int;
        assert(text.subrange(i, i + part.len()) =~= part);
    }
    if begins(text, part) {
        let after = text.subrange(part.len() as int, text.len() as int);
        assert(text =~= part + after);
    }
    if exists|after: Seq<char>| text == #[trigger] (part + after) {
        let after = choose|after: Seq<char>| text == #[trigger] (part + after);
        assert(text.subrange(0, part.len() as int) =~= part);
    }
    if ends(text, part) {
        let before = text.subrange(0, text.len() - part.len());
        assert(text =~= before + part);
    }
    if exists|before: Seq<char>| text == #[trigger] (before + part) {
        let before = choose|before: Seq<char>| text == #[trigger] (before + part);
        assert(text.subrange(text.len() - part.len(), text.len() as int) =~= part);
    }
}

} // verus!
