//! Primitive fields of the bounded binary payloads, and the cursor types that
//! read and write them.
//!
//! Every field has two descriptions: `put_*` says which bytes stand in front of
//! the rest of a payload, `parse_*` says what is read off the front of a byte
//! sequence and what is left. The lemmas of `group_wire` relate the two.
use vstd::prelude::*;

verus! {

pub const MAX_PAYLOAD_BYTES: usize = 65536;

pub const MAX_STRING_BYTES: usize = 4096;

/// Why a payload could not be written or read.
#[derive(Clone, Copy, Debug, PartialEq, Eq, Structural)]
pub enum SchemaError {
    Malformed,
    LimitExceeded,
}

impl SchemaError {
    /// The message shown to a user.
    pub fn message(&self) -> (text: &'static str)
        ensures
            text@ == (match *self {
                SchemaError::Malformed => "malformed capability payload"@,
                SchemaError::LimitExceeded => "capability payload exceeds its limit"@,
            }),
    {
        match *self {
            SchemaError::Malformed => "malformed capability payload",
            SchemaError::LimitExceeded => "capability payload exceeds its limit",
        }
    }
}

/// A value read off the front of a byte sequence, with what is left of it.
pub type Parsed<T> = Result<(T, Seq<u8>), SchemaError>;

// ---------------------------------------------------------------------------
// Little-endian numbers

/// The number of values that `n` bytes can hold.
pub open spec fn pow256(n: nat) -> nat
    decreases n,
{
    if n == 0 {
        1
    } else {
        256 * pow256((n - 1) as nat)
    }
}

/// The `n` low bytes of `v`, lowest first.
pub open spec fn le_bytes(v: nat, n: nat) -> Seq<u8>
    decreases n,
{
    if n == 0 {
        Seq::empty()
    } else {
        seq![(v % 256) as u8] + le_bytes(v / 256, (n - 1) as nat)
    }
}

/// The number whose bytes, lowest first, are `s`.
pub open spec fn le_value(s: Seq<u8>) -> nat
    decreases s.len(),
{
    if s.len() == 0 {
        0
    } else {
        s[0] as nat + 256 * le_value(s.subrange(1, s.len() as int))
    }
}

pub proof fn lemma_le_bytes_value(v: nat, n: nat)
    requires
        v < pow256(n),
    ensures
        le_bytes(v, n).len() == n,
        le_value(le_bytes(v, n)) == v,
    decreases n,
{
    if n > 0 {
        lemma_le_bytes_value(v / 256, (n - 1) as nat);
        let tail = le_bytes(v / 256, (n - 1) as nat);
        assert(le_bytes(v, n).subrange(1, n as int) =~= tail);
    }
}

pub proof fn lemma_le_value_bytes(s: Seq<u8>)
    ensures
        le_value(s) < pow256(s.len()),
        le_bytes(le_value(s), s.len()) == s,
    decreases s.len(),
{
    if s.len() > 0 {
        let tail = s.subrange(1, s.len() as int);
        lemma_le_value_bytes(tail);
        assert(le_bytes(le_value(s), s.len()) =~= s);
    }
}

proof fn lemma_le_bytes_len(v: nat, n: nat)
    ensures
        le_bytes(v, n).len() == n,
    decreases n,
{
    if n > 0 {
        lemma_le_bytes_len(v / 256, (n - 1) as nat);
    }
}

pub proof fn lemma_pow256()
    ensures
        pow256(1) == 0x100,
        pow256(7) == 0x100_0000_0000_0000,
        pow256(2) == 0x1_0000,
        pow256(4) == 0x1_0000_0000,
        pow256(8) == 0x1_0000_0000_0000_0000,
{
    reveal_with_fuel(pow256, 9);
}

/// The `n`-byte number `v` in front of `rest`.
pub open spec fn put_le(v: nat, n: nat, rest: Seq<u8>) -> Seq<u8> {
    le_bytes(v, n) + rest
}

/// Reads exactly `n` bytes.
pub open spec fn parse_take(s: Seq<u8>, n: nat) -> Parsed<Seq<u8>> {
    if s.len() < n {
        Err(SchemaError::Malformed)
    } else {
        Ok((s.subrange(0, n as int), s.subrange(n as int, s.len() as int)))
    }
}

/// Reads an `n`-byte number.
pub open spec fn parse_le(s: Seq<u8>, n: nat) -> Parsed<nat> {
    match parse_take(s, n) {
        Err(e) => Err(e),
        Ok((bytes, rest)) => Ok((le_value(bytes), rest)),
    }
}

proof fn lemma_parse_put_le(v: nat, n: nat, rest: Seq<u8>)
    requires
        v < pow256(n),
    ensures
        parse_le(put_le(v, n, rest), n) == Ok::<(nat, Seq<u8>), SchemaError>((v, rest)),
{
    lemma_le_bytes_value(v, n);
    let s = put_le(v, n, rest);
    assert(s.subrange(0, n as int) =~= le_bytes(v, n));
    assert(s.subrange(n as int, s.len() as int) =~= rest);
}

proof fn lemma_put_parse_le(s: Seq<u8>, n: nat)
    ensures
        parse_le(s, n) matches Ok((v, rest)) ==> s == put_le(v, n, rest) && v < pow256(n),
{
    if s.len() >= n {
        lemma_le_value_bytes(s.subrange(0, n as int));
        assert(s =~= s.subrange(0, n as int) + s.subrange(n as int, s.len() as int));
    }
}

// ---------------------------------------------------------------------------
// Fixed-width fields

pub open spec fn put_u8(v: u8, rest: Seq<u8>) -> Seq<u8> {
    put_le(v as nat, 1, rest)
}

pub open spec fn put_u16(v: u16, rest: Seq<u8>) -> Seq<u8> {
    put_le(v as nat, 2, rest)
}

pub open spec fn put_u32(v: u32, rest: Seq<u8>) -> Seq<u8> {
    put_le(v as nat, 4, rest)
}

pub open spec fn put_u64(v: u64, rest: Seq<u8>) -> Seq<u8> {
    put_le(v as nat, 8, rest)
}

pub open spec fn parse_u8(s: Seq<u8>) -> Parsed<u8> {
    match parse_le(s, 1) {
        Err(e) => Err(e),
        Ok((v, rest)) => Ok((v as u8, rest)),
    }
}

pub open spec fn parse_u16(s: Seq<u8>) -> Parsed<u16> {
    match parse_le(s, 2) {
        Err(e) => Err(e),
        Ok((v, rest)) => Ok((v as u16, rest)),
    }
}

pub open spec fn parse_u32(s: Seq<u8>) -> Parsed<u32> {
    match parse_le(s, 4) {
        Err(e) => Err(e),
        Ok((v, rest)) => Ok((v as u32, rest)),
    }
}

pub open spec fn parse_u64(s: Seq<u8>) -> Parsed<u64> {
    match parse_le(s, 8) {
        Err(e) => Err(e),
        Ok((v, rest)) => Ok((v as u64, rest)),
    }
}

/// The unsigned number with the same `n` bytes as the signed number `v`.
pub open spec fn twos_complement(v: int, n: nat) -> nat {
    if v < 0 {
        (v + pow256(n)) as nat
    } else {
        v as nat
    }
}

/// The signed number with the same `n` bytes as the unsigned number `v`.
pub open spec fn signed_value(v: nat, n: nat) -> int {
    if v < pow256(n) / 2 {
        v as int
    } else {
        v - pow256(n)
    }
}

pub open spec fn put_i16(v: i16, rest: Seq<u8>) -> Seq<u8> {
    put_le(twos_complement(v as int, 2), 2, rest)
}

pub open spec fn put_i32(v: i32, rest: Seq<u8>) -> Seq<u8> {
    put_le(twos_complement(v as int, 4), 4, rest)
}

pub open spec fn put_i64(v: i64, rest: Seq<u8>) -> Seq<u8> {
    put_le(twos_complement(v as int, 8), 8, rest)
}

pub open spec fn parse_i16(s: Seq<u8>) -> Parsed<i16> {
    match parse_le(s, 2) {
        Err(e) => Err(e),
        Ok((v, rest)) => Ok((signed_value(v, 2) as i16, rest)),
    }
}

pub open spec fn parse_i32(s: Seq<u8>) -> Parsed<i32> {
    match parse_le(s, 4) {
        Err(e) => Err(e),
        Ok((v, rest)) => Ok((signed_value(v, 4) as i32, rest)),
    }
}

pub open spec fn parse_i64(s: Seq<u8>) -> Parsed<i64> {
    match parse_le(s, 8) {
        Err(e) => Err(e),
        Ok((v, rest)) => Ok((signed_value(v, 8) as i64, rest)),
    }
}

/// A flag is the byte 0 or 1.
pub open spec fn put_bool(v: bool, rest: Seq<u8>) -> Seq<u8> {
    put_u8(if v { 1u8 } else { 0u8 }, rest)
}

pub open spec fn parse_bool(s: Seq<u8>) -> Parsed<bool> {
    match parse_u8(s) {
        Err(e) => Err(e),
        Ok((v, rest)) => if v == 0 {
            Ok((false, rest))
        } else if v == 1 {
            Ok((true, rest))
        } else {
            Err(SchemaError::Malformed)
        },
    }
}

// ---------------------------------------------------------------------------
// Text and bytes

/// How many bytes `text` takes as UTF-8.
pub open spec fn text_bytes(text: Seq<char>) -> nat {
    vstd::utf8::encode_utf8(text).len()
}

/// A text is short enough to be a field.
pub open spec fn text_fits(text: Seq<char>) -> bool {
    text_bytes(text) <= MAX_STRING_BYTES
}

/// A two-byte length, then the UTF-8 bytes.
pub open spec fn put_text(text: Seq<char>, rest: Seq<u8>) -> Seq<u8> {
    put_le(text_bytes(text), 2, vstd::utf8::encode_utf8(text) + rest)
}

pub open spec fn parse_text(s: Seq<u8>) -> Parsed<Seq<char>> {
    match parse_le(s, 2) {
        Err(e) => Err(e),
        Ok((n, body)) => if n > MAX_STRING_BYTES {
            Err(SchemaError::LimitExceeded)
        } else {
            match parse_take(body, n) {
                Err(e) => Err(e),
                Ok((bytes, rest)) => if vstd::utf8::valid_utf8(bytes) {
                    Ok((vstd::utf8::decode_utf8(bytes), rest))
                } else {
                    Err(SchemaError::Malformed)
                },
            }
        },
    }
}

pub open spec fn optional_text_fits(text: Option<Seq<char>>) -> bool {
    text matches Some(t) ==> text_fits(t)
}

/// A flag that says whether a text follows, then the text.
pub open spec fn put_optional_text(text: Option<Seq<char>>, rest: Seq<u8>) -> Seq<u8> {
    match text {
        None => put_bool(false, rest),
        Some(t) => put_bool(true, put_text(t, rest)),
    }
}

pub open spec fn parse_optional_text(s: Seq<u8>) -> Parsed<Option<Seq<char>>> {
    match parse_bool(s) {
        Err(e) => Err(e),
        Ok((present, body)) => if present {
            match parse_text(body) {
                Err(e) => Err(e),
                Ok((t, rest)) => Ok((Some(t), rest)),
            }
        } else {
            Ok((None, body))
        },
    }
}

/// A flag that says whether a number follows, then the number.
pub open spec fn put_optional_u64(value: Option<u64>, rest: Seq<u8>) -> Seq<u8> {
    match value {
        None => put_bool(false, rest),
        Some(v) => put_bool(true, put_u64(v, rest)),
    }
}

pub open spec fn parse_optional_u64(s: Seq<u8>) -> Parsed<Option<u64>> {
    match parse_bool(s) {
        Err(e) => Err(e),
        Ok((present, body)) => if present {
            match parse_u64(body) {
                Err(e) => Err(e),
                Ok((v, rest)) => Ok((Some(v), rest)),
            }
        } else {
            Ok((None, body))
        },
    }
}

/// A flag that says whether a number follows, then the number.
pub open spec fn put_optional_i32(value: Option<i32>, rest: Seq<u8>) -> Seq<u8> {
    match value {
        None => put_bool(false, rest),
        Some(v) => put_bool(true, put_i32(v, rest)),
    }
}

pub open spec fn parse_optional_i32(s: Seq<u8>) -> Parsed<Option<i32>> {
    match parse_bool(s) {
        Err(e) => Err(e),
        Ok((present, body)) => if present {
            match parse_i32(body) {
                Err(e) => Err(e),
                Ok((v, rest)) => Ok((Some(v), rest)),
            }
        } else {
            Ok((None, body))
        },
    }
}

/// An `n`-byte length, then the bytes.
pub open spec fn put_bytes(bytes: Seq<u8>, n: nat, rest: Seq<u8>) -> Seq<u8> {
    put_le(bytes.len(), n, bytes + rest)
}

/// Bytes behind an `n`-byte length, which must lie between `least` and `most`.
pub open spec fn parse_bytes(s: Seq<u8>, n: nat, least: nat, most: nat) -> Parsed<Seq<u8>> {
    match parse_le(s, n) {
        Err(e) => Err(e),
        Ok((length, body)) => if length < least || length > most {
            Err(SchemaError::LimitExceeded)
        } else {
            parse_take(body, length)
        },
    }
}

// ---------------------------------------------------------------------------
// Whole payloads

/// What follows the tag of a payload.
pub open spec fn parse_open(s: Seq<u8>, magic: Seq<u8>) -> Result<Seq<u8>, SchemaError> {
    if s.len() > MAX_PAYLOAD_BYTES {
        Err(SchemaError::LimitExceeded)
    } else if s.len() < magic.len() || s.subrange(0, magic.len() as int) != magic {
        Err(SchemaError::Malformed)
    } else {
        Ok(s.subrange(magic.len() as int, s.len() as int))
    }
}

/// A payload that was written completely, if it is not too long.
pub open spec fn sealed(bytes: Seq<u8>) -> Result<Seq<u8>, SchemaError> {
    if bytes.len() > MAX_PAYLOAD_BYTES {
        Err(SchemaError::LimitExceeded)
    } else {
        Ok(bytes)
    }
}

/// Nothing may be left behind the last field.
pub open spec fn parse_end<T>(s: Seq<u8>, value: T) -> Result<T, SchemaError> {
    if s.len() == 0 {
        Ok(value)
    } else {
        Err(SchemaError::Malformed)
    }
}

/// The outcome of an operation, with the value seen through its view.
pub open spec fn outcome<T: View>(r: Result<T, SchemaError>) -> Result<T::V, SchemaError> {
    match r {
        Ok(v) => Ok(v@),
        Err(e) => Err(e),
    }
}

// ---------------------------------------------------------------------------
// Reading is the inverse of writing

pub broadcast proof fn lemma_parse_put_u8(v: u8, rest: Seq<u8>)
    ensures
        #[trigger] parse_u8(put_u8(v, rest)) == Ok::<(u8, Seq<u8>), SchemaError>((v, rest)),
{
    lemma_pow256();
    lemma_parse_put_le(v as nat, 1, rest);
}

pub broadcast proof fn lemma_put_parse_u8(s: Seq<u8>)
    ensures
        #[trigger] parse_u8(s) matches Ok((v, rest)) ==> s == put_u8(v, rest),
{
    lemma_pow256();
    lemma_put_parse_le(s, 1);
}

pub broadcast proof fn lemma_parse_put_u16(v: u16, rest: Seq<u8>)
    ensures
        #[trigger] parse_u16(put_u16(v, rest)) == Ok::<(u16, Seq<u8>), SchemaError>((v, rest)),
{
    lemma_pow256();
    lemma_parse_put_le(v as nat, 2, rest);
}

pub broadcast proof fn lemma_put_parse_u16(s: Seq<u8>)
    ensures
        #[trigger] parse_u16(s) matches Ok((v, rest)) ==> s == put_u16(v, rest),
{
    lemma_pow256();
    lemma_put_parse_le(s, 2);
}

pub broadcast proof fn lemma_parse_put_u32(v: u32, rest: Seq<u8>)
    ensures
        #[trigger] parse_u32(put_u32(v, rest)) == Ok::<(u32, Seq<u8>), SchemaError>((v, rest)),
{
    lemma_pow256();
    lemma_parse_put_le(v as nat, 4, rest);
}

pub broadcast proof fn lemma_put_parse_u32(s: Seq<u8>)
    ensures
        #[trigger] parse_u32(s) matches Ok((v, rest)) ==> s == put_u32(v, rest),
{
    lemma_pow256();
    lemma_put_parse_le(s, 4);
}

pub broadcast proof fn lemma_parse_put_u64(v: u64, rest: Seq<u8>)
    ensures
        #[trigger] parse_u64(put_u64(v, rest)) == Ok::<(u64, Seq<u8>), SchemaError>((v, rest)),
{
    lemma_pow256();
    lemma_parse_put_le(v as nat, 8, rest);
}

pub broadcast proof fn lemma_put_parse_u64(s: Seq<u8>)
    ensures
        #[trigger] parse_u64(s) matches Ok((v, rest)) ==> s == put_u64(v, rest),
{
    lemma_pow256();
    lemma_put_parse_le(s, 8);
}

pub broadcast proof fn lemma_parse_put_i16(v: i16, rest: Seq<u8>)
    ensures
        #[trigger] parse_i16(put_i16(v, rest)) == Ok::<(i16, Seq<u8>), SchemaError>((v, rest)),
{
    lemma_pow256();
    lemma_parse_put_le(twos_complement(v as int, 2), 2, rest);
}

pub broadcast proof fn lemma_put_parse_i16(s: Seq<u8>)
    ensures
        #[trigger] parse_i16(s) matches Ok((v, rest)) ==> s == put_i16(v, rest),
{
    lemma_pow256();
    lemma_put_parse_le(s, 2);
}

pub broadcast proof fn lemma_parse_put_i32(v: i32, rest: Seq<u8>)
    ensures
        #[trigger] parse_i32(put_i32(v, rest)) == Ok::<(i32, Seq<u8>), SchemaError>((v, rest)),
{
    lemma_pow256();
    lemma_parse_put_le(twos_complement(v as int, 4), 4, rest);
}

pub broadcast proof fn lemma_put_parse_i32(s: Seq<u8>)
    ensures
        #[trigger] parse_i32(s) matches Ok((v, rest)) ==> s == put_i32(v, rest),
{
    lemma_pow256();
    lemma_put_parse_le(s, 4);
}

pub broadcast proof fn lemma_parse_put_i64(v: i64, rest: Seq<u8>)
    ensures
        #[trigger] parse_i64(put_i64(v, rest)) == Ok::<(i64, Seq<u8>), SchemaError>((v, rest)),
{
    lemma_pow256();
    lemma_parse_put_le(twos_complement(v as int, 8), 8, rest);
}

pub broadcast proof fn lemma_put_parse_i64(s: Seq<u8>)
    ensures
        #[trigger] parse_i64(s) matches Ok((v, rest)) ==> s == put_i64(v, rest),
{
    lemma_pow256();
    lemma_put_parse_le(s, 8);
}

pub broadcast proof fn lemma_parse_put_bool(v: bool, rest: Seq<u8>)
    ensures
        #[trigger] parse_bool(put_bool(v, rest)) == Ok::<(bool, Seq<u8>), SchemaError>((v, rest)),
{
    lemma_parse_put_u8(if v { 1u8 } else { 0u8 }, rest);
}

pub broadcast proof fn lemma_put_parse_bool(s: Seq<u8>)
    ensures
        #[trigger] parse_bool(s) matches Ok((v, rest)) ==> s == put_bool(v, rest),
{
    lemma_put_parse_u8(s);
}

pub broadcast proof fn lemma_parse_put_text(text: Seq<char>, rest: Seq<u8>)
    requires
        text_fits(text),
    ensures
        #[trigger] parse_text(put_text(text, rest)) == Ok::<(Seq<char>, Seq<u8>), SchemaError>(
            (text, rest),
        ),
{
    lemma_pow256();
    let bytes = vstd::utf8::encode_utf8(text);
    lemma_parse_put_le(bytes.len(), 2, bytes + rest);
    assert((bytes + rest).subrange(0, bytes.len() as int) =~= bytes);
    assert((bytes + rest).subrange(bytes.len() as int, (bytes + rest).len() as int) =~= rest);
    vstd::utf8::encode_utf8_valid_utf8(text);
    vstd::utf8::encode_utf8_decode_utf8(text);
}

pub broadcast proof fn lemma_put_parse_text(s: Seq<u8>)
    ensures
        #[trigger] parse_text(s) matches Ok((text, rest)) ==> s == put_text(text, rest)
            && text_fits(text),
{
    lemma_pow256();
    lemma_put_parse_le(s, 2);
    if parse_text(s) is Ok {
        let (n, body) = parse_le(s, 2)->Ok_0;
        let (bytes, rest) = parse_take(body, n)->Ok_0;
        vstd::utf8::decode_utf8_encode_utf8(bytes);
        assert(body =~= bytes + rest);
    }
}

pub broadcast proof fn lemma_parse_put_optional_text(text: Option<Seq<char>>, rest: Seq<u8>)
    requires
        optional_text_fits(text),
    ensures
        #[trigger] parse_optional_text(put_optional_text(text, rest)) == Ok::<
            (Option<Seq<char>>, Seq<u8>),
            SchemaError,
        >((text, rest)),
{
    match text {
        None => {
            lemma_parse_put_bool(false, rest);
        },
        Some(t) => {
            lemma_parse_put_bool(true, put_text(t, rest));
            lemma_parse_put_text(t, rest);
        },
    }
}

pub broadcast proof fn lemma_put_parse_optional_text(s: Seq<u8>)
    ensures
        #[trigger] parse_optional_text(s) matches Ok((text, rest)) ==> s == put_optional_text(
            text,
            rest,
        ) && optional_text_fits(text),
{
    lemma_put_parse_bool(s);
    if parse_bool(s) is Ok {
        lemma_put_parse_text(parse_bool(s)->Ok_0.1);
    }
}

pub broadcast proof fn lemma_parse_put_optional_u64(value: Option<u64>, rest: Seq<u8>)
    ensures
        #[trigger] parse_optional_u64(put_optional_u64(value, rest)) == Ok::<
            (Option<u64>, Seq<u8>),
            SchemaError,
        >((value, rest)),
{
    match value {
        None => {
            lemma_parse_put_bool(false, rest);
        },
        Some(v) => {
            lemma_parse_put_bool(true, put_u64(v, rest));
            lemma_parse_put_u64(v, rest);
        },
    }
}

pub broadcast proof fn lemma_put_parse_optional_u64(s: Seq<u8>)
    ensures
        #[trigger] parse_optional_u64(s) matches Ok((value, rest)) ==> s == put_optional_u64(
            value,
            rest,
        ),
{
    lemma_put_parse_bool(s);
    if parse_bool(s) is Ok {
        lemma_put_parse_u64(parse_bool(s)->Ok_0.1);
    }
}

pub broadcast proof fn lemma_parse_put_optional_i32(value: Option<i32>, rest: Seq<u8>)
    ensures
        #[trigger] parse_optional_i32(put_optional_i32(value, rest)) == Ok::<
            (Option<i32>, Seq<u8>),
            SchemaError,
        >((value, rest)),
{
    match value {
        None => {
            lemma_parse_put_bool(false, rest);
        },
        Some(v) => {
            lemma_parse_put_bool(true, put_i32(v, rest));
            lemma_parse_put_i32(v, rest);
        },
    }
}

pub broadcast proof fn lemma_put_parse_optional_i32(s: Seq<u8>)
    ensures
        #[trigger] parse_optional_i32(s) matches Ok((value, rest)) ==> s == put_optional_i32(
            value,
            rest,
        ),
{
    lemma_put_parse_bool(s);
    if parse_bool(s) is Ok {
        lemma_put_parse_i32(parse_bool(s)->Ok_0.1);
    }
}

pub broadcast proof fn lemma_parse_put_bytes(
    bytes: Seq<u8>,
    n: nat,
    rest: Seq<u8>,
    least: nat,
    most: nat,
)
    requires
        bytes.len() < pow256(n),
        least <= bytes.len() <= most,
    ensures
        #[trigger] parse_bytes(put_bytes(bytes, n, rest), n, least, most) == Ok::<
            (Seq<u8>, Seq<u8>),
            SchemaError,
        >((bytes, rest)),
{
    lemma_parse_put_le(bytes.len(), n, bytes + rest);
    assert((bytes + rest).subrange(0, bytes.len() as int) =~= bytes);
    assert((bytes + rest).subrange(bytes.len() as int, (bytes + rest).len() as int) =~= rest);
}

pub broadcast proof fn lemma_put_parse_bytes(s: Seq<u8>, n: nat, least: nat, most: nat)
    ensures
        #[trigger] parse_bytes(s, n, least, most) matches Ok((bytes, rest)) ==> s == put_bytes(
            bytes,
            n,
            rest,
        ) && least <= bytes.len() <= most,
{
    lemma_put_parse_le(s, n);
    if parse_bytes(s, n, least, most) is Ok {
        let (length, body) = parse_le(s, n)->Ok_0;
        let (bytes, rest) = parse_take(body, length)->Ok_0;
        assert(body =~= bytes + rest);
    }
}

pub broadcast proof fn lemma_parse_open_put(magic: Seq<u8>, rest: Seq<u8>)
    ensures
        (magic + rest).len() <= MAX_PAYLOAD_BYTES ==> #[trigger] parse_open(magic + rest, magic)
            == Ok::<Seq<u8>, SchemaError>(rest),
{
    assert((magic + rest).subrange(0, magic.len() as int) =~= magic);
    assert((magic + rest).subrange(magic.len() as int, (magic + rest).len() as int) =~= rest);
}

pub broadcast proof fn lemma_put_parse_open(s: Seq<u8>, magic: Seq<u8>)
    ensures
        #[trigger] parse_open(s, magic) matches Ok(rest) ==> s == magic + rest && s.len()
            <= MAX_PAYLOAD_BYTES,
{
    if s.len() >= magic.len() {
        assert(s =~= s.subrange(0, magic.len() as int) + s.subrange(
            magic.len() as int,
            s.len() as int,
        ));
    }
}

pub broadcast proof fn lemma_parse_end<T>(s: Seq<u8>, value: T)
    ensures
        #[trigger] parse_end(s, value) matches Ok(v) ==> s == Seq::<u8>::empty() && v == value,
{
    if s.len() == 0 {
        assert(s =~= Seq::<u8>::empty());
    }
}

/// Reading is the inverse of writing, field by field.
pub broadcast group group_wire {
    lemma_parse_put_u8,
    lemma_put_parse_u8,
    lemma_parse_put_u16,
    lemma_put_parse_u16,
    lemma_parse_put_u32,
    lemma_put_parse_u32,
    lemma_parse_put_u64,
    lemma_put_parse_u64,
    lemma_parse_put_i16,
    lemma_put_parse_i16,
    lemma_parse_put_i32,
    lemma_put_parse_i32,
    lemma_parse_put_i64,
    lemma_put_parse_i64,
    lemma_parse_put_bool,
    lemma_put_parse_bool,
    lemma_parse_put_text,
    lemma_put_parse_text,
    lemma_parse_put_optional_text,
    lemma_put_parse_optional_text,
    lemma_parse_put_bytes,
    lemma_put_parse_bytes,
    lemma_parse_put_optional_u64,
    lemma_put_parse_optional_u64,
    lemma_parse_put_optional_i32,
    lemma_put_parse_optional_i32,
    lemma_parse_open_put,
    lemma_put_parse_open,
    lemma_parse_end,
}

// ---------------------------------------------------------------------------
// Lists

/// How the next element of a list is read, given those before it.
pub type ItemParser<T> = spec_fn(Seq<T>, Seq<u8>) -> Parsed<T>;

/// The bytes of one element, in front of the rest.
pub type ItemPut<T> = spec_fn(T, Seq<u8>) -> Seq<u8>;

/// Whether an element may follow those before it.
pub type ItemCheck<T> = spec_fn(Seq<T>, T) -> Result<(), SchemaError>;

/// Reads `n` more elements behind those in `done`.
pub open spec fn parse_list<T>(
    done: Seq<T>,
    s: Seq<u8>,
    n: nat,
    item: ItemParser<T>,
) -> Parsed<Seq<T>>
    decreases n,
{
    if n == 0 {
        Ok((done, s))
    } else {
        match item(done, s) {
            Err(e) => Err(e),
            Ok((value, rest)) => parse_list(done.push(value), rest, (n - 1) as nat, item),
        }
    }
}

/// The elements, one after the other.
pub open spec fn put_list<T>(items: Seq<T>, put: ItemPut<T>, rest: Seq<u8>) -> Seq<u8>
    decreases items.len(),
{
    if items.len() == 0 {
        rest
    } else {
        put(items[0], put_list(items.drop_first(), put, rest))
    }
}

/// The error of the first element, from the `from`th on, that may not stand
/// where it does.
pub open spec fn first_error<T>(items: Seq<T>, from: nat, check: ItemCheck<T>) -> Result<
    (),
    SchemaError,
>
    decreases items.len() - from,
{
    if from >= items.len() {
        Ok(())
    } else {
        match check(items.subrange(0, from as int), items[from as int]) {
            Err(e) => Err(e),
            Ok(_) => first_error(items, from + 1, check),
        }
    }
}

/// An element that passes the check is read back behind any others.
pub open spec fn item_reads_back<T>(
    item: ItemParser<T>,
    put: ItemPut<T>,
    check: ItemCheck<T>,
) -> bool {
    forall|done: Seq<T>, value: T, rest: Seq<u8>|
        check(done, value) is Ok ==> #[trigger] item(done, put(value, rest)) == Ok::<
            (T, Seq<u8>),
            SchemaError,
        >((value, rest))
}

/// An element that was read passes the check and has the bytes it was read
/// from.
pub open spec fn item_canonical<T>(
    item: ItemParser<T>,
    put: ItemPut<T>,
    check: ItemCheck<T>,
) -> bool {
    forall|done: Seq<T>, s: Seq<u8>|
        (#[trigger] item(done, s)) matches Ok((value, rest)) ==> s == put(value, rest)
            && check(done, value) is Ok
}

pub proof fn lemma_parse_put_list<T>(
    items: Seq<T>,
    from: nat,
    rest: Seq<u8>,
    item: ItemParser<T>,
    put: ItemPut<T>,
    check: ItemCheck<T>,
)
    requires
        from <= items.len(),
        first_error(items, from, check) is Ok,
        item_reads_back(item, put, check),
    ensures
        parse_list(
            items.subrange(0, from as int),
            put_list(items.subrange(from as int, items.len() as int), put, rest),
            (items.len() - from) as nat,
            item,
        ) == Ok::<(Seq<T>, Seq<u8>), SchemaError>((items, rest)),
    decreases items.len() - from,
{
    let done = items.subrange(0, from as int);
    let left = items.subrange(from as int, items.len() as int);
    if from < items.len() {
        lemma_parse_put_list(items, from + 1, rest, item, put, check);
        let value = items[from as int];
        assert(left.drop_first() =~= items.subrange(from + 1int, items.len() as int));
        assert(done.push(value) =~= items.subrange(0, from + 1int));
        let tail = put_list(left.drop_first(), put, rest);
        assert(item(done, put(value, tail)) == Ok::<(T, Seq<u8>), SchemaError>((value, tail)));
    } else {
        assert(done =~= items);
    }
}

/// A whole list is read back.
pub proof fn lemma_list_reads_back<T>(
    items: Seq<T>,
    rest: Seq<u8>,
    item: ItemParser<T>,
    put: ItemPut<T>,
    check: ItemCheck<T>,
)
    requires
        first_error(items, 0, check) is Ok,
        item_reads_back(item, put, check),
    ensures
        parse_list(Seq::empty(), put_list(items, put, rest), items.len(), item) == Ok::<
            (Seq<T>, Seq<u8>),
            SchemaError,
        >((items, rest)),
{
    lemma_parse_put_list(items, 0, rest, item, put, check);
    assert(items.subrange(0, 0) =~= Seq::<T>::empty());
    assert(items.subrange(0, items.len() as int) =~= items);
}

proof fn lemma_put_parse_list<T>(
    done: Seq<T>,
    s: Seq<u8>,
    n: nat,
    item: ItemParser<T>,
    put: ItemPut<T>,
    check: ItemCheck<T>,
)
    requires
        item_canonical(item, put, check),
    ensures
        parse_list(done, s, n, item) matches Ok((items, rest)) ==> {
            &&& items.len() == done.len() + n
            &&& items.subrange(0, done.len() as int) == done
            &&& s == put_list(items.subrange(done.len() as int, items.len() as int), put, rest)
            &&& first_error(items, done.len(), check) is Ok
        },
    decreases n,
{
    if n == 0 {
        if parse_list(done, s, n, item) is Ok {
            assert(done.subrange(0, done.len() as int) =~= done);
        }
    } else if item(done, s) is Ok {
        let (value, rest1) = item(done, s)->Ok_0;
        lemma_put_parse_list(done.push(value), rest1, (n - 1) as nat, item, put, check);
        if parse_list(done, s, n, item) is Ok {
            let (items, rest) = parse_list(done, s, n, item)->Ok_0;
            assert(items.subrange(0, done.len() as int) =~= done.push(value).subrange(
                0,
                done.len() as int,
            ));
            assert(done.push(value).subrange(0, done.len() as int) =~= done);
            assert(items.subrange(0, done.len() + 1int)[done.len() as int] == value);
            let left = items.subrange(done.len() as int, items.len() as int);
            assert(left.drop_first() =~= items.subrange(done.len() + 1int, items.len() as int));
        }
    }
}

/// A list that was read has the bytes it was read from.
pub proof fn lemma_list_canonical<T>(
    s: Seq<u8>,
    n: nat,
    item: ItemParser<T>,
    put: ItemPut<T>,
    check: ItemCheck<T>,
)
    requires
        item_canonical(item, put, check),
    ensures
        parse_list(Seq::empty(), s, n, item) matches Ok((items, rest)) ==> {
            &&& items.len() == n
            &&& s == put_list(items, put, rest)
            &&& first_error(items, 0, check) is Ok
        },
{
    lemma_put_parse_list(Seq::<T>::empty(), s, n, item, put, check);
    if parse_list(Seq::empty(), s, n, item) is Ok {
        let (items, rest) = parse_list(Seq::empty(), s, n, item)->Ok_0;
        assert(items.subrange(0, items.len() as int) =~= items);
    }
}

/// `first_error` ends in the error of one element, after elements without.
pub proof fn lemma_first_error_skips<T>(items: Seq<T>, from: nat, to: nat, check: ItemCheck<T>)
    requires
        from <= to <= items.len(),
        forall|i: int|
            from <= i < to ==> check(#[trigger] items.subrange(0, i), items[i]) is Ok,
    ensures
        first_error(items, from, check) == first_error(items, to, check),
    decreases to - from,
{
    if from < to {
        assert(check(items.subrange(0, from as int), items[from as int]) is Ok);
        lemma_first_error_skips(items, from + 1, to, check);
    }
}

/// The bytes of a list and one more element.
pub proof fn lemma_put_list_push<T>(items: Seq<T>, value: T, put: ItemPut<T>, rest: Seq<u8>)
    ensures
        put_list(items.push(value), put, rest) == put_list(items, put, put(value, rest)),
    decreases items.len(),
{
    if items.len() == 0 {
        assert(items.push(value).drop_first() =~= items);
        assert(put_list(items, put, rest) == rest);
    } else {
        lemma_put_list_push(items.drop_first(), value, put, rest);
        assert(items.push(value).drop_first() =~= items.drop_first().push(value));
        assert(items.push(value)[0] == items[0]);
    }
}

/// Texts are elements of their own.
pub open spec fn text_item() -> ItemParser<Seq<char>> {
    |done: Seq<Seq<char>>, s: Seq<u8>| parse_text(s)
}

pub open spec fn text_put() -> ItemPut<Seq<char>> {
    |text: Seq<char>, rest: Seq<u8>| put_text(text, rest)
}

pub open spec fn text_check() -> ItemCheck<Seq<char>> {
    |done: Seq<Seq<char>>, text: Seq<char>| if text_fits(text) {
        Ok(())
    } else {
        Err(SchemaError::LimitExceeded)
    }
}

pub proof fn lemma_text_item()
    ensures
        item_reads_back(text_item(), text_put(), text_check()),
        item_canonical(text_item(), text_put(), text_check()),
{
    broadcast use group_wire;

}

/// The texts of strings.
pub open spec fn texts(strings: Seq<String>) -> Seq<Seq<char>> {
    Seq::new(strings.len(), |i: int| strings[i]@)
}

// ---------------------------------------------------------------------------
// Writing

/// A payload under construction.
pub(crate) struct Encoder {
    pub bytes: Vec<u8>,
}

impl Encoder {
    pub(crate) fn new(magic: &[u8; 8]) -> (encoder: Self)
        ensures
            encoder.bytes@ == magic@,
    {
        let mut bytes: Vec<u8> = Vec::new();
        let mut i: usize = 0;
        while i < 8
            invariant
                i <= 8,
                bytes@ == magic@.subrange(0, i as int),
            decreases 8 - i,
        {
            bytes.push(magic[i]);
            proof {
                assert(magic@.subrange(0, i + 1) =~= magic@.subrange(0, i as int).push(
                    magic@[i as int],
                ));
            }
            i += 1;
        }
        proof {
            assert(magic@.subrange(0, 8) =~= magic@);
        }
        Encoder { bytes }
    }

    fn number(&mut self, value: u64, count: usize)
        ensures
            forall|rest: Seq<u8>|
                #[trigger] (final(self).bytes@ + rest) == old(self).bytes@ + put_le(
                    value as nat,
                    count as nat,
                    rest,
                ),
    {
        let mut left: u64 = value;
        let mut done: usize = 0;
        let ghost start = self.bytes@;
        while done < count
            invariant
                done <= count,
                self.bytes@ + le_bytes(left as nat, (count - done) as nat) == start + le_bytes(
                    value as nat,
                    count as nat,
                ),
            decreases count - done,
        {
            let ghost before = self.bytes@;
            let ghost tail = le_bytes((left / 256) as nat, (count - done - 1) as nat);
            self.bytes.push((left % 256) as u8);
            proof {
                assert(
                    self.bytes@ + tail =~= before + le_bytes(left as nat, (count - done) as nat)
                );
            }
            left = left / 256;
            done += 1;
        }
        proof {
            assert(self.bytes@ + le_bytes(left as nat, 0) =~= self.bytes@);
            assert forall|rest: Seq<u8>| #[trigger]
                (self.bytes@ + rest) == start + put_le(value as nat, count as nat, rest) by {
                assert(self.bytes@ + rest =~= start + put_le(value as nat, count as nat, rest));
            }
        }
    }

    fn raw(&mut self, value: &[u8])
        ensures
            forall|rest: Seq<u8>|
                #[trigger] (final(self).bytes@ + rest) == old(self).bytes@ + (value@ + rest),
    {
        let ghost start = self.bytes@;
        self.bytes.extend_from_slice(value);
        proof {
            assert(self.bytes@ =~= start + value@);
            assert forall|rest: Seq<u8>| #[trigger]
                (self.bytes@ + rest) == start + (value@ + rest) by {
                assert(self.bytes@ + rest =~= start + (value@ + rest));
            }
        }
    }

    pub(crate) fn byte(&mut self, value: u8)
        ensures
            forall|rest: Seq<u8>|
                #[trigger] (final(self).bytes@ + rest) == old(self).bytes@ + put_u8(value, rest),
    {
        self.number(value as u64, 1);
    }

    pub(crate) fn u16(&mut self, value: u16)
        ensures
            forall|rest: Seq<u8>|
                #[trigger] (final(self).bytes@ + rest) == old(self).bytes@ + put_u16(value, rest),
    {
        self.number(value as u64, 2);
    }

    pub(crate) fn u32(&mut self, value: u32)
        ensures
            forall|rest: Seq<u8>|
                #[trigger] (final(self).bytes@ + rest) == old(self).bytes@ + put_u32(value, rest),
    {
        self.number(value as u64, 4);
    }

    pub(crate) fn u64(&mut self, value: u64)
        ensures
            forall|rest: Seq<u8>|
                #[trigger] (final(self).bytes@ + rest) == old(self).bytes@ + put_u64(value, rest),
    {
        self.number(value as u64, 8);
    }

    pub(crate) fn i16(&mut self, value: i16)
        ensures
            forall|rest: Seq<u8>|
                #[trigger] (final(self).bytes@ + rest) == old(self).bytes@ + put_i16(value, rest),
    {
        proof {
            lemma_pow256();
        }
        let unsigned: u64 = if value < 0 {
            (value as i128 + 0x10000i128) as u64
        } else {
            value as u64
        };
        self.number(unsigned, 2);
    }

    pub(crate) fn i32(&mut self, value: i32)
        ensures
            forall|rest: Seq<u8>|
                #[trigger] (final(self).bytes@ + rest) == old(self).bytes@ + put_i32(value, rest),
    {
        proof {
            lemma_pow256();
        }
        let unsigned: u64 = if value < 0 {
            (value as i128 + 0x100000000i128) as u64
        } else {
            value as u64
        };
        self.number(unsigned, 4);
    }

    pub(crate) fn i64(&mut self, value: i64)
        ensures
            forall|rest: Seq<u8>|
                #[trigger] (final(self).bytes@ + rest) == old(self).bytes@ + put_i64(value, rest),
    {
        proof {
            lemma_pow256();
        }
        let unsigned: u64 = if value < 0 {
            (value as i128 + 0x10000000000000000i128) as u64
        } else {
            value as u64
        };
        self.number(unsigned, 8);
    }

    pub(crate) fn flag(&mut self, value: bool)
        ensures
            forall|rest: Seq<u8>|
                #[trigger] (final(self).bytes@ + rest) == old(self).bytes@ + put_bool(value, rest),
    {
        self.byte(if value { 1 } else { 0 });
    }

    pub(crate) fn string(&mut self, value: &str) -> (done: Result<(), SchemaError>)
        ensures
            done == (if text_fits(value@) {
                Ok::<(), SchemaError>(())
            } else {
                Err::<(), SchemaError>(SchemaError::LimitExceeded)
            }),
            done is Ok ==> forall|rest: Seq<u8>|
                #[trigger] (final(self).bytes@ + rest) == old(self).bytes@ + put_text(value@, rest),
    {
        let bytes: &[u8] = value.as_bytes();
        if bytes.len() > MAX_STRING_BYTES {
            return Err(SchemaError::LimitExceeded);
        }
        self.u16(bytes.len() as u16);
        self.raw(bytes);
        Ok(())
    }

    pub(crate) fn optional_string(&mut self, value: &Option<String>) -> (done: Result<
        (),
        SchemaError,
    >)
        ensures
            done == (if optional_text_fits(optional_view(*value)) {
                Ok::<(), SchemaError>(())
            } else {
                Err::<(), SchemaError>(SchemaError::LimitExceeded)
            }),
            done is Ok ==> forall|rest: Seq<u8>|
                #[trigger] (final(self).bytes@ + rest) == old(self).bytes@ + put_optional_text(
                    optional_view(*value),
                    rest,
                ),
    {
        match value {
            None => {
                self.flag(false);
                Ok(())
            },
            Some(text) => {
                self.flag(true);
                self.string(text.as_str())
            },
        }
    }

    pub(crate) fn optional_u64(&mut self, value: Option<u64>)
        ensures
            forall|rest: Seq<u8>|
                #[trigger] (final(self).bytes@ + rest) == old(self).bytes@ + put_optional_u64(
                    value,
                    rest,
                ),
    {
        match value {
            None => {
                self.flag(false);
            },
            Some(number) => {
                self.flag(true);
                self.u64(number);
            },
        }
    }

    pub(crate) fn optional_i32(&mut self, value: Option<i32>)
        ensures
            forall|rest: Seq<u8>|
                #[trigger] (final(self).bytes@ + rest) == old(self).bytes@ + put_optional_i32(
                    value,
                    rest,
                ),
    {
        match value {
            None => {
                self.flag(false);
            },
            Some(number) => {
                self.flag(true);
                self.i32(number);
            },
        }
    }

    /// Writes a four-byte length and the bytes.
    pub(crate) fn blob(&mut self, value: &[u8]) -> (done: Result<(), SchemaError>)
        ensures
            done == (if value@.len() < pow256(4) {
                Ok::<(), SchemaError>(())
            } else {
                Err::<(), SchemaError>(SchemaError::LimitExceeded)
            }),
            done is Ok ==> forall|rest: Seq<u8>|
                #[trigger] (final(self).bytes@ + rest) == old(self).bytes@ + put_bytes(
                    value@,
                    4,
                    rest,
                ),
    {
        proof {
            lemma_pow256();
        }
        if value.len() as u64 > 0xffff_ffff {
            return Err(SchemaError::LimitExceeded);
        }
        self.number(value.len() as u64, 4);
        self.raw(value);
        Ok(())
    }

    /// Writes an eight-byte length and the bytes.
    pub(crate) fn chunk(&mut self, value: &[u8])
        ensures
            forall|rest: Seq<u8>|
                #[trigger] (final(self).bytes@ + rest) == old(self).bytes@ + put_bytes(
                    value@,
                    8,
                    rest,
                ),
    {
        self.number(value.len() as u64, 8);
        self.raw(value);
    }

    /// Writes the texts one after the other.
    pub(crate) fn strings(&mut self, values: &Vec<String>) -> (done: Result<(), SchemaError>)
        ensures
            done == first_error(texts(values@), 0, text_check()),
            done is Ok ==> forall|rest: Seq<u8>|
                #[trigger] (final(self).bytes@ + rest) == old(self).bytes@ + put_list(
                    texts(values@),
                    text_put(),
                    rest,
                ),
    {
        let mut i: usize = 0;
        let ghost start = self.bytes@;
        let ghost all = texts(values@);
        proof {
            assert forall|rest: Seq<u8>| #[trigger]
                (self.bytes@ + rest) == start + put_list(all.subrange(0, 0), text_put(), rest) by {}
        }
        while i < values.len()
            invariant
                i <= values@.len(),
                all == texts(values@),
                forall|rest: Seq<u8>|
                    #[trigger] (self.bytes@ + rest) == start + put_list(
                        all.subrange(0, i as int),
                        text_put(),
                        rest,
                    ),
                first_error(all, 0, text_check()) == first_error(all, i as nat, text_check()),
            decreases values@.len() - i,
        {
            self.string(values[i].as_str())?;
            proof {
                let next = all.subrange(0, i + 1);
                assert(next =~= all.subrange(0, i as int).push(all[i as int]));
                assert forall|rest: Seq<u8>| #[trigger]
                    (self.bytes@ + rest) == start + put_list(next, text_put(), rest) by {
                    lemma_put_list_push(all.subrange(0, i as int), all[i as int], text_put(), rest);
                }
            }
            i += 1;
        }
        proof {
            assert(all.subrange(0, i as int) =~= all);
        }
        Ok(())
    }

    pub(crate) fn finish(self) -> (done: Result<Vec<u8>, SchemaError>)
        ensures
            outcome(done) == sealed(self.bytes@ + Seq::<u8>::empty()),
    {
        proof {
            assert(self.bytes@ + Seq::<u8>::empty() =~= self.bytes@);
        }
        if self.bytes.len() > MAX_PAYLOAD_BYTES {
            Err(SchemaError::LimitExceeded)
        } else {
            Ok(self.bytes)
        }
    }
}

/// An optional text, seen as its characters.
pub open spec fn optional_view(value: Option<String>) -> Option<Seq<char>> {
    match value {
        None => None,
        Some(text) => Some(text@),
    }
}

// ---------------------------------------------------------------------------
// Reading

/// `std::str::from_utf8`: a text exactly where the bytes are valid UTF-8, and
/// then the text that they encode.
#[verifier::external_body]
fn text_from_utf8(bytes: &[u8]) -> (text: Option<String>)
    ensures
        text is Some <==> vstd::utf8::valid_utf8(bytes@),
        text matches Some(t) ==> t@ == vstd::utf8::decode_utf8(bytes@),
{
    match std::str::from_utf8(bytes) {
        Ok(text) => Some(text.to_owned()),
        Err(_) => None,
    }
}

/// What a reader returned and left, against what the field says.
pub open spec fn reads<T>(
    result: Result<T, SchemaError>,
    rest: Seq<u8>,
    expected: Parsed<T>,
) -> bool {
    match expected {
        Ok((v, left)) => result == Ok::<T, SchemaError>(v) && rest == left,
        Err(e) => result == Err::<T, SchemaError>(e),
    }
}

/// The same for values that are seen through their view.
pub open spec fn reads_view<T: View>(
    result: Result<T, SchemaError>,
    rest: Seq<u8>,
    expected: Parsed<T::V>,
) -> bool {
    match expected {
        Ok((v, left)) => (result matches Ok(t) && t@ == v) && rest == left,
        Err(e) => result == Err::<T, SchemaError>(e),
    }
}

/// A payload being read.
pub(crate) struct Decoder<'a> {
    pub remaining: &'a [u8],
}

impl<'a> Decoder<'a> {
    pub(crate) fn new(bytes: &'a [u8], magic: &[u8; 8]) -> (decoder: Result<Self, SchemaError>)
        ensures
            match parse_open(bytes@, magic@) {
                Ok(rest) => decoder matches Ok(d) && d.remaining@ == rest,
                Err(e) => decoder == Err::<Self, SchemaError>(e),
            },
    {
        if bytes.len() > MAX_PAYLOAD_BYTES {
            return Err(SchemaError::LimitExceeded);
        }
        if bytes.len() < 8 {
            return Err(SchemaError::Malformed);
        }
        let mut i: usize = 0;
        while i < 8
            invariant
                i <= 8,
                8 <= bytes@.len(),
                magic@.len() == 8,
                bytes@.len() <= MAX_PAYLOAD_BYTES,
                bytes@.subrange(0, i as int) == magic@.subrange(0, i as int),
            decreases 8 - i,
        {
            if bytes[i] != magic[i] {
                proof {
                    assert(bytes@.subrange(0, 8)[i as int] != magic@[i as int]);
                }
                return Err(SchemaError::Malformed);
            }
            proof {
                assert(bytes@.subrange(0, i + 1) =~= bytes@.subrange(0, i as int).push(
                    bytes@[i as int],
                ));
                assert(magic@.subrange(0, i + 1) =~= magic@.subrange(0, i as int).push(
                    magic@[i as int],
                ));
            }
            i += 1;
        }
        proof {
            assert(magic@.subrange(0, 8) =~= magic@);
        }
        Ok(Decoder { remaining: vstd::slice::slice_subrange(bytes, 8, bytes.len()) })
    }

    pub(crate) fn take(&mut self, length: usize) -> (value: Result<&'a [u8], SchemaError>)
        ensures
            match parse_take(old(self).remaining@, length as nat) {
                Ok((bytes, rest)) => (value matches Ok(v) && v@ == bytes)
                    && final(self).remaining@ == rest,
                Err(e) => value == Err::<&'a [u8], SchemaError>(e),
            },
    {
        if self.remaining.len() < length {
            return Err(SchemaError::Malformed);
        }
        let value: &'a [u8] = vstd::slice::slice_subrange(self.remaining, 0, length);
        self.remaining =
        vstd::slice::slice_subrange(self.remaining, length, self.remaining.len());
        Ok(value)
    }

    fn number(&mut self, count: usize) -> (value: Result<u64, SchemaError>)
        requires
            count <= 8,
        ensures
            match parse_le(old(self).remaining@, count as nat) {
                Ok((v, rest)) => (value matches Ok(n) && n as nat == v)
                    && final(self).remaining@ == rest && v < pow256(count as nat),
                Err(e) => value == Err::<u64, SchemaError>(e),
            },
    {
        let bytes: &[u8] = self.take(count)?;
        let mut value: u64 = 0;
        let mut i: usize = count;
        proof {
            lemma_pow256();
            lemma_le_value_bytes(bytes@);
            assert(bytes@.subrange(count as int, count as int) =~= Seq::<u8>::empty());
        }
        while i > 0
            invariant
                i <= count <= 8,
                bytes@.len() == count,
                value == le_value(bytes@.subrange(i as int, count as int)),
            decreases i,
        {
            proof {
                let tail = bytes@.subrange(i as int, count as int);
                let wider = bytes@.subrange(i - 1, count as int);
                lemma_le_value_bytes(tail);
                assert(wider.subrange(1, wider.len() as int) =~= tail);
                lemma_pow256();
                lemma_pow256_grows(tail.len(), 7);
            }
            i -= 1;
            value = value * 256 + bytes[i] as u64;
        }
        proof {
            assert(bytes@.subrange(0, count as int) =~= bytes@);
        }
        Ok(value)
    }

    pub(crate) fn byte(&mut self) -> (value: Result<u8, SchemaError>)
        ensures
            reads(value, final(self).remaining@, parse_u8(old(self).remaining@)),
    {
        proof {
            lemma_pow256();
        }
        let value: u64 = self.number(1)?;
        Ok(value as u8)
    }

    pub(crate) fn u16(&mut self) -> (value: Result<u16, SchemaError>)
        ensures
            reads(value, final(self).remaining@, parse_u16(old(self).remaining@)),
    {
        proof {
            lemma_pow256();
        }
        let value: u64 = self.number(2)?;
        Ok(value as u16)
    }

    pub(crate) fn u32(&mut self) -> (value: Result<u32, SchemaError>)
        ensures
            reads(value, final(self).remaining@, parse_u32(old(self).remaining@)),
    {
        proof {
            lemma_pow256();
        }
        let value: u64 = self.number(4)?;
        Ok(value as u32)
    }

    pub(crate) fn u64(&mut self) -> (value: Result<u64, SchemaError>)
        ensures
            reads(value, final(self).remaining@, parse_u64(old(self).remaining@)),
    {
        proof {
            lemma_pow256();
        }
        let value: u64 = self.number(8)?;
        Ok(value as u64)
    }

    pub(crate) fn i16(&mut self) -> (value: Result<i16, SchemaError>)
        ensures
            reads(value, final(self).remaining@, parse_i16(old(self).remaining@)),
    {
        proof {
            lemma_pow256();
        }
        let value: u64 = self.number(2)?;
        if value < 0x8000 {
            Ok(value as i16)
        } else {
            Ok((value as i128 - 0x10000i128) as i16)
        }
    }

    pub(crate) fn i32(&mut self) -> (value: Result<i32, SchemaError>)
        ensures
            reads(value, final(self).remaining@, parse_i32(old(self).remaining@)),
    {
        proof {
            lemma_pow256();
        }
        let value: u64 = self.number(4)?;
        if value < 0x80000000 {
            Ok(value as i32)
        } else {
            Ok((value as i128 - 0x100000000i128) as i32)
        }
    }

    pub(crate) fn i64(&mut self) -> (value: Result<i64, SchemaError>)
        ensures
            reads(value, final(self).remaining@, parse_i64(old(self).remaining@)),
    {
        proof {
            lemma_pow256();
        }
        let value: u64 = self.number(8)?;
        if value < 0x8000000000000000 {
            Ok(value as i64)
        } else {
            Ok((value as i128 - 0x10000000000000000i128) as i64)
        }
    }

    pub(crate) fn flag(&mut self) -> (value: Result<bool, SchemaError>)
        ensures
            reads(value, final(self).remaining@, parse_bool(old(self).remaining@)),
    {
        match self.byte()? {
            0 => Ok(false),
            1 => Ok(true),
            _ => Err(SchemaError::Malformed),
        }
    }

    pub(crate) fn string(&mut self) -> (value: Result<String, SchemaError>)
        ensures
            reads_view(value, final(self).remaining@, parse_text(old(self).remaining@)),
    {
        let length: u64 = self.number(2)?;
        if length > MAX_STRING_BYTES as u64 {
            return Err(SchemaError::LimitExceeded);
        }
        let bytes: &[u8] = self.take(length as usize)?;
        match text_from_utf8(bytes) {
            Some(text) => Ok(text),
            None => Err(SchemaError::Malformed),
        }
    }

    pub(crate) fn optional_string(&mut self) -> (value: Result<Option<String>, SchemaError>)
        ensures
            match parse_optional_text(old(self).remaining@) {
                Ok((text, rest)) => (value matches Ok(v) && optional_view(v) == text)
                    && final(self).remaining@ == rest,
                Err(e) => value == Err::<Option<String>, SchemaError>(e),
            },
    {
        if self.flag()? {
            let text: String = self.string()?;
            Ok(Some(text))
        } else {
            Ok(None)
        }
    }

    pub(crate) fn optional_u64(&mut self) -> (value: Result<Option<u64>, SchemaError>)
        ensures
            reads(value, final(self).remaining@, parse_optional_u64(old(self).remaining@)),
    {
        if self.flag()? {
            let number: u64 = self.u64()?;
            Ok(Some(number))
        } else {
            Ok(None)
        }
    }

    pub(crate) fn optional_i32(&mut self) -> (value: Result<Option<i32>, SchemaError>)
        ensures
            reads(value, final(self).remaining@, parse_optional_i32(old(self).remaining@)),
    {
        if self.flag()? {
            let number: i32 = self.i32()?;
            Ok(Some(number))
        } else {
            Ok(None)
        }
    }

    pub(crate) fn sized(&mut self, count: usize, least: usize, most: usize) -> (value: Result<
        Vec<u8>,
        SchemaError,
    >)
        requires
            count <= 8,
        ensures
            reads_view(
                value,
                final(self).remaining@,
                parse_bytes(old(self).remaining@, count as nat, least as nat, most as nat),
            ),
    {
        let length: u64 = self.number(count)?;
        if length < least as u64 || length > most as u64 {
            return Err(SchemaError::LimitExceeded);
        }
        let bytes: &[u8] = self.take(length as usize)?;
        Ok(vstd::slice::slice_to_vec(bytes))
    }

    /// Reads bytes behind a four-byte length.
    pub(crate) fn blob(&mut self, most: usize) -> (value: Result<Vec<u8>, SchemaError>)
        ensures
            reads_view(
                value,
                final(self).remaining@,
                parse_bytes(old(self).remaining@, 4, 0, most as nat),
            ),
    {
        self.sized(4, 0, most)
    }

    /// Reads bytes behind an eight-byte length.
    pub(crate) fn chunk(&mut self, least: usize, most: usize) -> (value: Result<
        Vec<u8>,
        SchemaError,
    >)
        ensures
            reads_view(
                value,
                final(self).remaining@,
                parse_bytes(old(self).remaining@, 8, least as nat, most as nat),
            ),
    {
        self.sized(8, least, most)
    }

    /// Reads `count` texts.
    pub(crate) fn strings(&mut self, count: usize) -> (value: Result<Vec<String>, SchemaError>)
        ensures
            match parse_list(Seq::empty(), old(self).remaining@, count as nat, text_item()) {
                Ok((items, rest)) => (value matches Ok(v) && texts(v@) == items)
                    && final(self).remaining@ == rest,
                Err(e) => value == Err::<Vec<String>, SchemaError>(e),
            },
    {
        let mut values: Vec<String> = Vec::new();
        let mut i: usize = 0;
        let ghost start = self.remaining@;
        proof {
            assert(texts(values@) =~= Seq::<Seq<char>>::empty());
        }
        while i < count
            invariant
                i <= count,
                start == old(self).remaining@,
                parse_list(Seq::empty(), start, count as nat, text_item()) == parse_list(
                    texts(values@),
                    self.remaining@,
                    (count - i) as nat,
                    text_item(),
                ),
            decreases count - i,
        {
            let text: String = self.string()?;
            let ghost before = values@;
            values.push(text);
            proof {
                assert(texts(values@) =~= texts(before).push(text@));
            }
            i += 1;
        }
        Ok(values)
    }

    pub(crate) fn finish(self) -> (done: Result<(), SchemaError>)
        ensures
            done == parse_end(self.remaining@, ()),
    {
        if self.remaining.len() == 0 {
            Ok(())
        } else {
            Err(SchemaError::Malformed)
        }
    }
}

proof fn lemma_pow256_grows(a: nat, b: nat)
    requires
        a <= b,
    ensures
        pow256(a) <= pow256(b),
    decreases b,
{
    if a < b {
        lemma_pow256_grows(a, (b - 1) as nat);
    }
}

} // verus!
