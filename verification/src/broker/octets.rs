//! What the bytes of payloads are, one after the other.
use vstd::prelude::*;

use super::appearance;
use super::appearance::{APPEARANCE_PUBLISH_MAGIC, AppearanceColor, AppearancePublishView};
use super::clipboard::{
    CLIPBOARD_READ_MAGIC, CLIPBOARD_VALUE_MAGIC, CLIPBOARD_WRITE_MAGIC,
    ClipboardReadRequestView, ClipboardValueView, ClipboardWriteRequestView,
};
use super::command;
use super::command::{
    COMMAND_EVENT_MAGIC, COMMAND_OPENED_MAGIC, COMMAND_REQUEST_MAGIC, CommandEventView,
    CommandOpened, CommandRunRequestView, CommandValueView,
};
use super::context;
use super::context::{
    CONTEXT_OPENED_MAGIC, CONTEXT_READ_MAGIC, CONTEXT_SNAPSHOT_MAGIC, ContextFactValueView,
    ContextFactView, ContextReadRequestView, ContextSnapshotView, ContextSubscriptionOpenedView,
};
use super::dbus;
use super::dbus::{
    CALL_MAGIC, DbusCallView, DbusPropertiesChangedView, DbusPropertyView, DbusReplyKind,
    DbusReplyView, DbusSubscriptionOpened, DbusSubscriptionView, DbusValueView, OPENED_MAGIC,
    REPLY_MAGIC, SIGNAL_MAGIC, SUBSCRIPTION_MAGIC,
};
use super::filesystem_read;
use super::filesystem_read::{
    DIRECTORY_LIST_MAGIC, DIRECTORY_REPLY_MAGIC, FILE_READ_MAGIC, FILE_REPLY_MAGIC,
    FILE_STREAM_EVENT_MAGIC, FILE_STREAM_OPENED_MAGIC, FILE_STREAM_REQUEST_MAGIC,
    FilesystemDirectoryEntriesView, FilesystemEntryView, FilesystemFileChunkView,
    FilesystemListDirectoryView, FilesystemReadFileView, FilesystemReadStreamView,
    FilesystemStreamEventView, FilesystemStreamOpened,
};
use super::filesystem_write::{
    FILE_MUTATION_MAGIC, FILE_PATH_MAGIC, FILE_RENAME_MAGIC, FILE_WRITE_MAGIC,
    FILE_WRITE_STREAM_CHUNK_MAGIC, FILE_WRITE_STREAM_COMMIT_MAGIC, FILE_WRITE_STREAM_MAGIC,
    FILE_WRITE_STREAM_OPENED_MAGIC, FilesystemMutationResult, FilesystemPathView,
    FilesystemRenameView, FilesystemWriteFileView, FilesystemWriteStreamChunkView,
    FilesystemWriteStreamCommit, FilesystemWriteStreamOpened, FilesystemWriteStreamView,
};
use super::http::{
    HTTP_REQUEST_MAGIC, HTTP_RESPONSE_MAGIC, HTTP_STREAM_EVENT_MAGIC, HTTP_STREAM_OPENED_MAGIC,
    HttpRequestMethod, HttpRequestView, HttpResponseView, HttpStreamEventView, HttpStreamOpened,
};
use super::local::{
    LOCAL_CONNECT_MAGIC, LOCAL_EVENT_MAGIC, LOCAL_OPENED_MAGIC, LOCAL_SEND_MAGIC,
    LocalConnectView, LocalConnectionOpened, LocalFrameEventView, LocalSendFrameView,
};
use super::notification::{
    NOTIFICATION_REMOVE_MAGIC, NOTIFICATION_SEND_MAGIC, NotificationRemoveView,
    NotificationSendView, NotificationUrgencyValue,
};
use super::secret::{SECRET_READ_MAGIC, SECRET_VALUE_MAGIC, SecretReadRequestView, SecretValueView};
use super::uri::{URI_OPEN_MAGIC, UriOpenRequestView};
use crate::wire;
use crate::wire::SchemaError;

verus! {

// ---------------------------------------------------------------------------
// Fields

/// A number in so many bytes, the lowest first.
pub open spec fn number(value: nat, n: nat) -> Seq<u8> {
    Seq::new(n, |i: int| ((value / wire::pow256(i as nat)) % 256) as u8)
}

/// A signed number in so many bytes: one below zero stands at the top.
pub open spec fn signed(value: int, n: nat) -> Seq<u8> {
    number(
        (if value < 0 {
            wire::pow256(n) + value
        } else {
            value
        }) as nat,
        n,
    )
}

/// A text in as many bytes as UTF-8 takes.
pub open spec fn octets(text: Seq<char>) -> Seq<u8> {
    vstd::utf8::encode_utf8(text)
}

/// A text behind its length in two bytes.
pub open spec fn words(text: Seq<char>) -> Seq<u8> {
    number(octets(text).len(), 2) + octets(text)
}

/// Bytes behind their length in so many bytes.
pub open spec fn data(bytes: Seq<u8>, n: nat) -> Seq<u8> {
    number(bytes.len(), n) + bytes
}

/// One byte.
pub open spec fn byte(value: u8) -> Seq<u8> {
    seq![value]
}

/// A byte that is one or zero.
pub open spec fn flag(value: bool) -> Seq<u8> {
    seq![if value {
        1u8
    } else {
        0u8
    }]
}

/// A one and the text, or a zero.
pub open spec fn maybe_words(text: Option<Seq<char>>) -> Seq<u8> {
    match text {
        Some(text) => seq![1u8] + words(text),
        None => seq![0u8],
    }
}

/// A one and the number in eight bytes, or a zero.
pub open spec fn maybe_number(value: Option<u64>) -> Seq<u8> {
    match value {
        Some(value) => seq![1u8] + number(value as nat, 8),
        None => seq![0u8],
    }
}

/// A one and the signed number in four bytes, or a zero.
pub open spec fn maybe_signed(value: Option<i32>) -> Seq<u8> {
    match value {
        Some(value) => seq![1u8] + signed(value as int, 4),
        None => seq![0u8],
    }
}

/// What each of some items takes, one after the other.
pub open spec fn each<T>(items: Seq<T>, one: spec_fn(T) -> Seq<u8>) -> Seq<u8>
    decreases items.len(),
{
    if items.len() == 0 {
        Seq::empty()
    } else {
        each(items.drop_last(), one) + one(items.last())
    }
}

/// Texts one after the other.
pub open spec fn all_words(texts: Seq<Seq<char>>) -> Seq<u8>
    decreases texts.len(),
{
    if texts.len() == 0 {
        Seq::empty()
    } else {
        all_words(texts.drop_last()) + words(texts.last())
    }
}

/// What a payload has in all, if it is not too long.
pub open spec fn whole(bytes: Seq<u8>) -> Result<Seq<u8>, SchemaError> {
    if bytes.len() <= 65536 {
        Ok(bytes)
    } else {
        Err(SchemaError::LimitExceeded)
    }
}

proof fn lemma_number(value: nat, n: nat)
    ensures
        wire::le_bytes(value, n) == number(value, n),
    decreases n,
{
    if n > 0 {
        let rest = wire::le_bytes(value / 256, (n - 1) as nat);
        lemma_number(value / 256, (n - 1) as nat);
        assert(wire::pow256(0) == 1);
        assert forall|i: int| 0 <= i < n implies wire::le_bytes(value, n)[i] == #[trigger] number(
            value,
            n,
        )[i] by {
            if i > 0 {
                let p = wire::pow256((i - 1) as nat);
                lemma_pow256_positive((i - 1) as nat);
                assert(wire::pow256(i as nat) == 256 * p);
                vstd::arithmetic::div_mod::lemma_div_denominator(value as int, 256, p as int);
                assert(wire::le_bytes(value, n)[i] == rest[i - 1]);
                assert(rest[i - 1] == number(value / 256, (n - 1) as nat)[i - 1]);
                assert(((value / 256) / p) as int == (value as int) / (256 * p as int));
            } else {
                assert(value / 1 == value);
                assert(wire::le_bytes(value, n)[0] == (value % 256) as u8);
            }
        }
        assert(wire::le_bytes(value, n) =~= number(value, n));
    } else {
        assert(wire::le_bytes(value, n) =~= number(value, n));
    }
}

proof fn lemma_pow256_positive(n: nat)
    ensures
        wire::pow256(n) > 0,
    decreases n,
{
    if n > 0 {
        lemma_pow256_positive((n - 1) as nat);
    }
}

proof fn lemma_joined(first: Seq<u8>, second: Seq<u8>, third: Seq<u8>)
    ensures
        first + second + third == first + (second + third),
{
    assert(first + second + third =~= first + (second + third));
}

broadcast proof fn lemma_put_le(value: nat, n: nat, rest: Seq<u8>)
    ensures
        #[trigger] wire::put_le(value, n, rest) == number(value, n) + rest,
{
    lemma_number(value, n);
}

broadcast proof fn lemma_put_u8(value: u8, rest: Seq<u8>)
    ensures
        #[trigger] wire::put_u8(value, rest) == byte(value) + rest,
{
    lemma_number(value as nat, 1);
    assert(wire::pow256(0) == 1);
    assert(number(value as nat, 1) =~= byte(value));
}

broadcast proof fn lemma_put_u16(value: u16, rest: Seq<u8>)
    ensures
        #[trigger] wire::put_u16(value, rest) == number(value as nat, 2) + rest,
{
    lemma_number(value as nat, 2);
}

broadcast proof fn lemma_put_u64(value: u64, rest: Seq<u8>)
    ensures
        #[trigger] wire::put_u64(value, rest) == number(value as nat, 8) + rest,
{
    lemma_number(value as nat, 8);
}

broadcast proof fn lemma_put_u32(value: u32, rest: Seq<u8>)
    ensures
        #[trigger] wire::put_u32(value, rest) == number(value as nat, 4) + rest,
{
    lemma_number(value as nat, 4);
}

broadcast proof fn lemma_put_i16(value: i16, rest: Seq<u8>)
    ensures
        #[trigger] wire::put_i16(value, rest) == signed(value as int, 2) + rest,
{
    lemma_number(wire::twos_complement(value as int, 2), 2);
}

broadcast proof fn lemma_put_i32(value: i32, rest: Seq<u8>)
    ensures
        #[trigger] wire::put_i32(value, rest) == signed(value as int, 4) + rest,
{
    lemma_number(wire::twos_complement(value as int, 4), 4);
}

broadcast proof fn lemma_put_i64(value: i64, rest: Seq<u8>)
    ensures
        #[trigger] wire::put_i64(value, rest) == signed(value as int, 8) + rest,
{
    lemma_number(wire::twos_complement(value as int, 8), 8);
}

broadcast proof fn lemma_put_bool(value: bool, rest: Seq<u8>)
    ensures
        #[trigger] wire::put_bool(value, rest) == flag(value) + rest,
{
    lemma_put_u8(
        if value {
            1u8
        } else {
            0u8
        },
        rest,
    );
    assert(flag(value) =~= byte(
        if value {
            1u8
        } else {
            0u8
        },
    ));
}

broadcast proof fn lemma_put_text(text: Seq<char>, rest: Seq<u8>)
    ensures
        #[trigger] wire::put_text(text, rest) == words(text) + rest,
{
    lemma_number(octets(text).len(), 2);
    assert(wire::put_text(text, rest) =~= words(text) + rest);
}

broadcast proof fn lemma_put_optional_text(text: Option<Seq<char>>, rest: Seq<u8>)
    ensures
        #[trigger] wire::put_optional_text(text, rest) == maybe_words(text) + rest,
{
    match text {
        Some(t) => {
            lemma_put_text(t, rest);
            lemma_put_bool(true, wire::put_text(t, rest));
            assert(wire::put_optional_text(text, rest) =~= maybe_words(text) + rest);
        },
        None => {
            lemma_put_bool(false, rest);
            assert(wire::put_optional_text(text, rest) =~= maybe_words(text) + rest);
        },
    }
}

broadcast proof fn lemma_put_optional_u64(value: Option<u64>, rest: Seq<u8>)
    ensures
        #[trigger] wire::put_optional_u64(value, rest) == maybe_number(value) + rest,
{
    match value {
        Some(v) => {
            lemma_put_u64(v, rest);
            lemma_put_bool(true, wire::put_u64(v, rest));
        },
        None => {
            lemma_put_bool(false, rest);
        },
    }
    assert(wire::put_optional_u64(value, rest) =~= maybe_number(value) + rest);
}

broadcast proof fn lemma_put_optional_i32(value: Option<i32>, rest: Seq<u8>)
    ensures
        #[trigger] wire::put_optional_i32(value, rest) == maybe_signed(value) + rest,
{
    match value {
        Some(v) => {
            lemma_put_i32(v, rest);
            lemma_put_bool(true, wire::put_i32(v, rest));
        },
        None => {
            lemma_put_bool(false, rest);
        },
    }
    assert(wire::put_optional_i32(value, rest) =~= maybe_signed(value) + rest);
}

broadcast proof fn lemma_put_bytes(bytes: Seq<u8>, n: nat, rest: Seq<u8>)
    ensures
        #[trigger] wire::put_bytes(bytes, n, rest) == data(bytes, n) + rest,
{
    lemma_number(bytes.len(), n);
    assert(wire::put_bytes(bytes, n, rest) =~= data(bytes, n) + rest);
}

broadcast group group_fields {
    lemma_put_le,
    lemma_put_u8,
    lemma_put_u16,
    lemma_put_u32,
    lemma_put_u64,
    lemma_put_i64,
    lemma_put_optional_u64,
    lemma_put_optional_i32,
    lemma_put_bool,
    lemma_put_text,
    lemma_put_optional_text,
    lemma_put_bytes,
}

proof fn lemma_each_joined<T>(first: Seq<T>, second: Seq<T>, one: spec_fn(T) -> Seq<u8>)
    ensures
        each(first + second, one) == each(first, one) + each(second, one),
    decreases second.len(),
{
    let all = first + second;
    if second.len() == 0 {
        assert(all =~= first);
        assert(each(first, one) + each(second, one) =~= each(first, one));
    } else {
        lemma_each_joined(first, second.drop_last(), one);
        assert(all.drop_last() =~= first + second.drop_last());
        assert(all.last() == second.last());
        assert(each(all, one) =~= each(first, one) + each(second, one));
    }
}

proof fn lemma_put_each<T>(
    items: Seq<T>,
    put: wire::ItemPut<T>,
    one: spec_fn(T) -> Seq<u8>,
    rest: Seq<u8>,
)
    requires
        forall|item: T, behind: Seq<u8>| #[trigger] put(item, behind) == one(item) + behind,
    ensures
        wire::put_list(items, put, rest) == each(items, one) + rest,
    decreases items.len(),
{
    if items.len() == 0 {
        assert(each(items, one) + rest =~= rest);
    } else {
        let first = items[0];
        let behind = items.drop_first();
        lemma_put_each(behind, put, one, rest);
        lemma_each_joined(seq![first], behind, one);
        assert(items =~= seq![first] + behind);
        assert(seq![first].drop_last() =~= Seq::empty());
        assert(each(seq![first].drop_last(), one) =~= Seq::empty());
        assert(each(seq![first], one) =~= one(first));
        assert(each(items, one) + rest =~= one(first) + (each(behind, one) + rest));
    }
}

/// The first element that is refused says why all are.
proof fn lemma_refused<T>(items: Seq<T>, from: nat, check: wire::ItemCheck<T>)
    requires
        from <= items.len(),
    ensures
        match wire::first_error(items, from, check) {
            Ok(_) => forall|i: int|
                from <= i < items.len() ==> check(items.subrange(0, i), #[trigger] items[i]) is Ok,
            Err(e) => exists|i: int|
                from <= i < items.len() && check(items.subrange(0, i), #[trigger] items[i])
                    == Err::<(), SchemaError>(e),
        },
    decreases items.len() - from,
{
    if from < items.len() {
        lemma_refused(items, from + 1, check);
        let this = items[from as int];
        assert(check(items.subrange(0, from as int), this) is Ok || check(
            items.subrange(0, from as int),
            this,
        ) is Err);
    }
}

proof fn lemma_put_words(texts: Seq<Seq<char>>, rest: Seq<u8>)
    ensures
        wire::put_list(texts, wire::text_put(), rest) == all_words(texts) + rest,
    decreases texts.len(),
{
    if texts.len() == 0 {
        assert(all_words(texts) + rest =~= rest);
    } else {
        let first = texts[0];
        let behind = texts.drop_first();
        lemma_put_words(behind, rest);
        lemma_put_text(first, wire::put_list(behind, wire::text_put(), rest));
        lemma_words_joined(seq![first], behind);
        assert(texts =~= seq![first] + behind);
        assert(seq![first].drop_last() =~= Seq::empty());
        assert(all_words(seq![first].drop_last()) =~= Seq::empty());
        assert(all_words(seq![first]) =~= words(first));
        assert(all_words(texts) + rest =~= words(first) + (all_words(behind) + rest));
    }
}

proof fn lemma_words_joined(first: Seq<Seq<char>>, second: Seq<Seq<char>>)
    ensures
        all_words(first + second) == all_words(first) + all_words(second),
    decreases second.len(),
{
    let all = first + second;
    if second.len() == 0 {
        assert(all =~= first);
        assert(all_words(second) =~= Seq::empty());
        assert(all_words(first) + all_words(second) =~= all_words(first));
    } else {
        lemma_words_joined(first, second.drop_last());
        assert(all.drop_last() =~= first + second.drop_last());
        assert(all.last() == second.last());
        assert(all_words(all) =~= all_words(first) + all_words(second));
    }
}

proof fn lemma_texts_fit(texts: Seq<Seq<char>>, from: nat)
    requires
        from <= texts.len(),
    ensures
        wire::first_error(texts, from, wire::text_check()) == if forall|i: int|
            from <= i < texts.len() ==> octets(#[trigger] texts[i]).len() <= 4096 {
            Ok::<(), SchemaError>(())
        } else {
            Err::<(), SchemaError>(SchemaError::LimitExceeded)
        },
    decreases texts.len() - from,
{
    if from < texts.len() {
        lemma_texts_fit(texts, from + 1);
        assert(wire::text_fits(texts[from as int]) <==> octets(texts[from as int]).len() <= 4096);
    }
}

/// A colour in three bytes: red, green and blue.
pub open spec fn color(color: AppearanceColor) -> Seq<u8> {
    seq![color.red, color.green, color.blue]
}

broadcast proof fn lemma_put_color(value: AppearanceColor, rest: Seq<u8>)
    ensures
        #[trigger] appearance::put_color(value, rest) == color(value) + rest,
{
    lemma_put_u8(value.blue, rest);
    lemma_put_u8(value.green, byte(value.blue) + rest);
    lemma_put_u8(value.red, byte(value.green) + (byte(value.blue) + rest));
    assert(appearance::put_color(value, rest) =~= color(value) + rest);
}

// ---------------------------------------------------------------------------
// Payloads

/// `OMAPPPB1`, and then: the provider, the scheme as a byte that is zero where it is
/// dark, and six colours of three bytes each.
pub proof fn appearances_are_laid_out(v: AppearancePublishView)
    ensures
        v.payload() == if v.provider.len() == 0 {
            Err(SchemaError::Malformed)
        } else if octets(v.provider).len() > 4096 {
            Err(SchemaError::LimitExceeded)
        } else {
            whole(
                seq![79u8, 77, 65, 80, 80, 80, 66, 49]
                    + words(v.provider)
                    + byte(
                        if v.scheme is Dark {
                            0
                        } else {
                            1
                        },
                    )
                    + color(v.background)
                    + color(v.foreground)
                    + color(v.accent)
                    + color(v.selection)
                    + color(v.muted)
                    + color(v.destructive),
            )
        },
{
    broadcast use {group_fields, lemma_put_color};

    let tag: Seq<u8> = seq![79u8, 77, 65, 80, 80, 80, 66, 49];
    assert(APPEARANCE_PUBLISH_MAGIC@ =~= tag);
    let f0 = words(v.provider);
    let f1 = byte(
        if v.scheme is Dark {
            0
        } else {
            1
        },
    );
    let f2 = color(v.background);
    let f3 = color(v.foreground);
    let f4 = color(v.accent);
    let f5 = color(v.selection);
    let f6 = color(v.muted);
    let f7 = color(v.destructive);
    let r7: Seq<u8> = Seq::empty();
    let r6 = f7 + r7;
    let r5 = f6 + r6;
    let r4 = f5 + r5;
    let r3 = f4 + r4;
    let r2 = f3 + r3;
    let r1 = f2 + r2;
    let r0 = f1 + r1;
    lemma_joined(tag, f0, r0);
    lemma_joined(tag + f0, f1, r1);
    lemma_joined(tag + f0 + f1, f2, r2);
    lemma_joined(tag + f0 + f1 + f2, f3, r3);
    lemma_joined(tag + f0 + f1 + f2 + f3, f4, r4);
    lemma_joined(tag + f0 + f1 + f2 + f3 + f4, f5, r5);
    lemma_joined(tag + f0 + f1 + f2 + f3 + f4 + f5, f6, r6);
    lemma_joined(tag + f0 + f1 + f2 + f3 + f4 + f5 + f6, f7, r7);
    assert(tag + f0 + f1 + f2 + f3 + f4 + f5 + f6 + f7 + r7
        =~= tag + f0 + f1 + f2 + f3 + f4 + f5 + f6 + f7);
}

/// `OMCLPRQ1`, and then: the media type.
pub proof fn clipboard_reads_are_laid_out(v: ClipboardReadRequestView)
    ensures
        v.payload() == if octets(v.mime_type).len() > 128 {
            Err(SchemaError::LimitExceeded)
        } else {
            whole(
                seq![79u8, 77, 67, 76, 80, 82, 81, 49]
                    + words(v.mime_type),
            )
        },
{
    broadcast use group_fields;

    let tag: Seq<u8> = seq![79u8, 77, 67, 76, 80, 82, 81, 49];
    assert(CLIPBOARD_READ_MAGIC@ =~= tag);
    let f0 = words(v.mime_type);
    assert(tag + f0 =~= tag + (f0 + Seq::empty()));
}

/// `OMCLPWQ1`, and then: the media type, and the bytes behind their length in four bytes.
pub proof fn clipboard_writes_are_laid_out(v: ClipboardWriteRequestView)
    ensures
        v.payload() == if octets(v.mime_type).len() > 128 || v.bytes.len() > 49152 {
            Err(SchemaError::LimitExceeded)
        } else {
            whole(
                seq![79u8, 77, 67, 76, 80, 87, 81, 49]
                    + words(v.mime_type)
                    + data(v.bytes, 4),
            )
        },
{
    broadcast use group_fields;

    let tag: Seq<u8> = seq![79u8, 77, 67, 76, 80, 87, 81, 49];
    assert(CLIPBOARD_WRITE_MAGIC@ =~= tag);
    let f0 = words(v.mime_type);
    let f1 = data(v.bytes, 4);
    assert(tag + f0 + f1 =~= tag + (f0 + (f1 + Seq::empty())));
}

/// `OMCLPVL1`, and then: the media type, and the bytes behind their length in four bytes.
pub proof fn clipboard_values_are_laid_out(v: ClipboardValueView)
    ensures
        v.payload() == if octets(v.mime_type).len() > 128 || v.bytes.len() > 49152 {
            Err(SchemaError::LimitExceeded)
        } else {
            whole(
                seq![79u8, 77, 67, 76, 80, 86, 76, 49]
                    + words(v.mime_type)
                    + data(v.bytes, 4),
            )
        },
{
    broadcast use group_fields;

    let tag: Seq<u8> = seq![79u8, 77, 67, 76, 80, 86, 76, 49];
    assert(CLIPBOARD_VALUE_MAGIC@ =~= tag);
    let f0 = words(v.mime_type);
    let f1 = data(v.bytes, 4);
    assert(tag + f0 + f1 =~= tag + (f0 + (f1 + Seq::empty())));
}

/// `OMCTXRQ1`, and then: the number of facts in two bytes, and their names.
pub proof fn context_reads_are_laid_out(v: ContextReadRequestView)
    ensures
        v.payload() == if v.facts.len() == 0 {
            Err(SchemaError::Malformed)
        } else if v.facts.len() > 32
            || exists|i: int|
                0 <= i < v.facts.len() && octets(#[trigger] v.facts[i]).len() > 4096 {
            Err(SchemaError::LimitExceeded)
        } else {
            whole(
                seq![79u8, 77, 67, 84, 88, 82, 81, 49]
                    + number(v.facts.len(), 2)
                    + all_words(v.facts),
            )
        },
{
    broadcast use group_fields;

    lemma_texts_fit(v.facts, 0);
    lemma_put_words(v.facts, Seq::empty());
    let tag: Seq<u8> = seq![79u8, 77, 67, 84, 88, 82, 81, 49];
    assert(CONTEXT_READ_MAGIC@ =~= tag);
    let f0 = number(v.facts.len(), 2);
    let f1 = all_words(v.facts);
    assert(tag + f0 + f1 =~= tag + (f0 + (f1 + Seq::empty())));
}

/// `OMDBUSS1`, and then: the bus as a byte that is zero where it is that of the session,
/// five texts, and the first argument where there is one.
pub proof fn subscriptions_are_laid_out(v: DbusSubscriptionView)
    ensures
        v.payload() == if octets(v.sender).len() > 4096 || octets(v.path).len() > 4096
            || octets(v.interface).len() > 4096 || octets(v.member).len() > 4096
            || octets(v.signature).len() > 4096
            || (v.argument_zero matches Some(t) && octets(t).len() > 4096) {
            Err(SchemaError::LimitExceeded)
        } else {
            whole(
                seq![79u8, 77, 68, 66, 85, 83, 83, 49]
                    + byte(
                        if v.bus is Session {
                            0
                        } else {
                            1
                        },
                    )
                    + words(v.sender)
                    + words(v.path)
                    + words(v.interface)
                    + words(v.member)
                    + words(v.signature)
                    + maybe_words(v.argument_zero),
            )
        },
{
    broadcast use group_fields;

    let tag: Seq<u8> = seq![79u8, 77, 68, 66, 85, 83, 83, 49];
    assert(SUBSCRIPTION_MAGIC@ =~= tag);
    let f0 = byte(
        if v.bus is Session {
            0
        } else {
            1
        },
    );
    let f1 = words(v.sender);
    let f2 = words(v.path);
    let f3 = words(v.interface);
    let f4 = words(v.member);
    let f5 = words(v.signature);
    let f6 = maybe_words(v.argument_zero);
    let r6: Seq<u8> = Seq::empty();
    let r5 = f6 + r6;
    let r4 = f5 + r5;
    let r3 = f4 + r4;
    let r2 = f3 + r3;
    let r1 = f2 + r2;
    let r0 = f1 + r1;
    lemma_joined(tag, f0, r0);
    lemma_joined(tag + f0, f1, r1);
    lemma_joined(tag + f0 + f1, f2, r2);
    lemma_joined(tag + f0 + f1 + f2, f3, r3);
    lemma_joined(tag + f0 + f1 + f2 + f3, f4, r4);
    lemma_joined(tag + f0 + f1 + f2 + f3 + f4, f5, r5);
    lemma_joined(tag + f0 + f1 + f2 + f3 + f4 + f5, f6, r6);
    assert(tag + f0 + f1 + f2 + f3 + f4 + f5 + f6 + r6 =~= tag + f0 + f1 + f2 + f3 + f4 + f5 + f6);
}

/// `OMDBUSC1`, and then: the bus, four texts, the kind of reply, the number of arguments
/// in two bytes, and the arguments.
pub proof fn calls_are_laid_out(v: DbusCallView)
    ensures
        v.payload() == if v.arguments.len() > 32 || octets(v.destination).len() > 4096
            || octets(v.path).len() > 4096 || octets(v.interface).len() > 4096
            || octets(v.member).len() > 4096
            || exists|i: int|
                0 <= i < v.arguments.len() && octets(#[trigger] v.arguments[i]).len() > 4096 {
            Err(SchemaError::LimitExceeded)
        } else {
            whole(
                seq![79u8, 77, 68, 66, 85, 83, 67, 49]
                    + byte(
                        if v.bus is Session {
                            0
                        } else {
                            1
                        },
                    )
                    + words(v.destination)
                    + words(v.path)
                    + words(v.interface)
                    + words(v.member)
                    + byte(
                        match v.reply {
                            DbusReplyKind::Unit => 0,
                            DbusReplyKind::VariantString => 1,
                            DbusReplyKind::VariantI64 => 2,
                        },
                    )
                    + number(v.arguments.len(), 2)
                    + all_words(v.arguments),
            )
        },
{
    broadcast use group_fields;

    lemma_texts_fit(v.arguments, 0);
    lemma_put_words(v.arguments, Seq::empty());
    let tag: Seq<u8> = seq![79u8, 77, 68, 66, 85, 83, 67, 49];
    assert(CALL_MAGIC@ =~= tag);
    let f0 = byte(
        if v.bus is Session {
            0
        } else {
            1
        },
    );
    let f1 = words(v.destination);
    let f2 = words(v.path);
    let f3 = words(v.interface);
    let f4 = words(v.member);
    let f5 = byte(
        match v.reply {
            DbusReplyKind::Unit => 0,
            DbusReplyKind::VariantString => 1,
            DbusReplyKind::VariantI64 => 2,
        },
    );
    let f6 = number(v.arguments.len(), 2);
    let f7 = all_words(v.arguments);
    let r7: Seq<u8> = Seq::empty();
    let r6 = f7 + r7;
    let r5 = f6 + r6;
    let r4 = f5 + r5;
    let r3 = f4 + r4;
    let r2 = f3 + r3;
    let r1 = f2 + r2;
    let r0 = f1 + r1;
    lemma_joined(tag, f0, r0);
    lemma_joined(tag + f0, f1, r1);
    lemma_joined(tag + f0 + f1, f2, r2);
    lemma_joined(tag + f0 + f1 + f2, f3, r3);
    lemma_joined(tag + f0 + f1 + f2 + f3, f4, r4);
    lemma_joined(tag + f0 + f1 + f2 + f3 + f4, f5, r5);
    lemma_joined(tag + f0 + f1 + f2 + f3 + f4 + f5, f6, r6);
    lemma_joined(tag + f0 + f1 + f2 + f3 + f4 + f5 + f6, f7, r7);
    assert(tag + f0 + f1 + f2 + f3 + f4 + f5 + f6 + f7 + r7
        =~= tag + f0 + f1 + f2 + f3 + f4 + f5 + f6 + f7);
}

/// `OMFSRED1`, and then: the mount, the path, and the place and the number of bytes in
/// eight bytes each.
pub proof fn file_reads_are_laid_out(v: FilesystemReadFileView)
    ensures
        v.payload() == if v.maximum_bytes == 0 || v.maximum_bytes > 49152 {
            Err(SchemaError::LimitExceeded)
        } else if v.path.len() == 0 {
            Err(SchemaError::Malformed)
        } else if octets(v.mount).len() > 4096 || octets(v.path).len() > 4096 {
            Err(SchemaError::LimitExceeded)
        } else {
            whole(
                seq![79u8, 77, 70, 83, 82, 69, 68, 49]
                    + words(v.mount)
                    + words(v.path)
                    + number(v.offset as nat, 8)
                    + number(v.maximum_bytes as nat, 8),
            )
        },
{
    broadcast use group_fields;

    let tag: Seq<u8> = seq![79u8, 77, 70, 83, 82, 69, 68, 49];
    assert(FILE_READ_MAGIC@ =~= tag);
    let f0 = words(v.mount);
    let f1 = words(v.path);
    let f2 = number(v.offset as nat, 8);
    let f3 = number(v.maximum_bytes as nat, 8);
    let r3: Seq<u8> = Seq::empty();
    let r2 = f3 + r3;
    let r1 = f2 + r2;
    let r0 = f1 + r1;
    lemma_joined(tag, f0, r0);
    lemma_joined(tag + f0, f1, r1);
    lemma_joined(tag + f0 + f1, f2, r2);
    lemma_joined(tag + f0 + f1 + f2, f3, r3);
    assert(tag + f0 + f1 + f2 + f3 + r3 =~= tag + f0 + f1 + f2 + f3);
}

/// `OMFSSTQ1`, and then: the mount, the path, and the place and the number of bytes in
/// eight bytes each.
pub proof fn file_streams_are_laid_out(v: FilesystemReadStreamView)
    ensures
        v.payload() == if v.maximum_bytes == 0 || v.maximum_bytes > 67108864 {
            Err(SchemaError::LimitExceeded)
        } else if v.path.len() == 0 {
            Err(SchemaError::Malformed)
        } else if octets(v.mount).len() > 4096 || octets(v.path).len() > 4096 {
            Err(SchemaError::LimitExceeded)
        } else {
            whole(
                seq![79u8, 77, 70, 83, 83, 84, 81, 49]
                    + words(v.mount)
                    + words(v.path)
                    + number(v.offset as nat, 8)
                    + number(v.maximum_bytes as nat, 8),
            )
        },
{
    broadcast use group_fields;

    let tag: Seq<u8> = seq![79u8, 77, 70, 83, 83, 84, 81, 49];
    assert(FILE_STREAM_REQUEST_MAGIC@ =~= tag);
    let f0 = words(v.mount);
    let f1 = words(v.path);
    let f2 = number(v.offset as nat, 8);
    let f3 = number(v.maximum_bytes as nat, 8);
    let r3: Seq<u8> = Seq::empty();
    let r2 = f3 + r3;
    let r1 = f2 + r2;
    let r0 = f1 + r1;
    lemma_joined(tag, f0, r0);
    lemma_joined(tag + f0, f1, r1);
    lemma_joined(tag + f0 + f1, f2, r2);
    lemma_joined(tag + f0 + f1 + f2, f3, r3);
    assert(tag + f0 + f1 + f2 + f3 + r3 =~= tag + f0 + f1 + f2 + f3);
}

/// `OMFSRPL1`, and then: the place and the size of the file in eight bytes each, whether
/// it ends, and the bytes behind their length in eight bytes.
pub proof fn file_chunks_are_laid_out(v: FilesystemFileChunkView)
    ensures
        v.payload() == if v.bytes.len() > 49152 {
            Err(SchemaError::LimitExceeded)
        } else {
            whole(
                seq![79u8, 77, 70, 83, 82, 80, 76, 49]
                    + number(v.offset as nat, 8)
                    + number(v.total_size as nat, 8)
                    + flag(v.eof)
                    + data(v.bytes, 8),
            )
        },
{
    broadcast use group_fields;

    let tag: Seq<u8> = seq![79u8, 77, 70, 83, 82, 80, 76, 49];
    assert(FILE_REPLY_MAGIC@ =~= tag);
    let f0 = number(v.offset as nat, 8);
    let f1 = number(v.total_size as nat, 8);
    let f2 = flag(v.eof);
    let f3 = data(v.bytes, 8);
    let r3: Seq<u8> = Seq::empty();
    let r2 = f3 + r3;
    let r1 = f2 + r2;
    let r0 = f1 + r1;
    lemma_joined(tag, f0, r0);
    lemma_joined(tag + f0, f1, r1);
    lemma_joined(tag + f0 + f1, f2, r2);
    lemma_joined(tag + f0 + f1 + f2, f3, r3);
    assert(tag + f0 + f1 + f2 + f3 + r3 =~= tag + f0 + f1 + f2 + f3);
}

/// `OMFSLST1`, and then: the mount, the path, and the number of entries in two bytes.
pub proof fn directory_lists_are_laid_out(v: FilesystemListDirectoryView)
    ensures
        v.payload() == if v.maximum_entries == 0 || v.maximum_entries > 256 {
            Err(SchemaError::LimitExceeded)
        } else if octets(v.mount).len() > 4096 || octets(v.path).len() > 4096 {
            Err(SchemaError::LimitExceeded)
        } else {
            whole(
                seq![79u8, 77, 70, 83, 76, 83, 84, 49]
                    + words(v.mount)
                    + words(v.path)
                    + number(v.maximum_entries as nat, 2),
            )
        },
{
    broadcast use group_fields;

    let tag: Seq<u8> = seq![79u8, 77, 70, 83, 76, 83, 84, 49];
    assert(DIRECTORY_LIST_MAGIC@ =~= tag);
    let f0 = words(v.mount);
    let f1 = words(v.path);
    let f2 = number(v.maximum_entries as nat, 2);
    assert(tag + f0 + f1 + f2 =~= tag + (f0 + (f1 + (f2 + Seq::empty()))));
}

/// `OMFSSTE1`, and then: a zero, and the place and the size of the file in eight bytes
/// each.
pub proof fn stream_starts_are_laid_out(offset: u64, total_size: u64)
    ensures
        (FilesystemStreamEventView::Metadata { offset, total_size }).payload() == whole(
            seq![79u8, 77, 70, 83, 83, 84, 69, 49]
                + byte(0)
                + number(offset as nat, 8)
                + number(total_size as nat, 8),
        ),
{
    broadcast use group_fields;

    let tag: Seq<u8> = seq![79u8, 77, 70, 83, 83, 84, 69, 49];
    assert(FILE_STREAM_EVENT_MAGIC@ =~= tag);
    let f0 = byte(0);
    let f1 = number(offset as nat, 8);
    let f2 = number(total_size as nat, 8);
    assert(tag + f0 + f1 + f2 =~= tag + (f0 + (f1 + (f2 + Seq::empty()))));
}

/// `OMFSSTE1`, and then: a one, the place in eight bytes, and the bytes behind their
/// length in eight bytes.
pub proof fn stream_chunks_are_laid_out(offset: u64, bytes: Seq<u8>)
    ensures
        (FilesystemStreamEventView::Chunk { offset, bytes }).payload()
            == if bytes.len() == 0 || bytes.len() > 12288 {
            Err(SchemaError::LimitExceeded)
        } else {
            whole(
                seq![79u8, 77, 70, 83, 83, 84, 69, 49]
                    + byte(1)
                    + number(offset as nat, 8)
                    + data(bytes, 8),
            )
        },
{
    broadcast use group_fields;

    let tag: Seq<u8> = seq![79u8, 77, 70, 83, 83, 84, 69, 49];
    assert(FILE_STREAM_EVENT_MAGIC@ =~= tag);
    let f0 = byte(1);
    let f1 = number(offset as nat, 8);
    let f2 = data(bytes, 8);
    assert(tag + f0 + f1 + f2 =~= tag + (f0 + (f1 + (f2 + Seq::empty()))));
}

/// `OMFSSTE1`, and then: a two, the place and the number of bytes in eight bytes each,
/// and whether the file ends.
pub proof fn stream_ends_are_laid_out(end_offset: u64, total_bytes: u64, eof: bool)
    ensures
        (FilesystemStreamEventView::Complete { end_offset, total_bytes, eof }).payload() == whole(
            seq![79u8, 77, 70, 83, 83, 84, 69, 49]
                + byte(2)
                + number(end_offset as nat, 8)
                + number(total_bytes as nat, 8)
                + flag(eof),
        ),
{
    broadcast use group_fields;

    let tag: Seq<u8> = seq![79u8, 77, 70, 83, 83, 84, 69, 49];
    assert(FILE_STREAM_EVENT_MAGIC@ =~= tag);
    let f0 = byte(2);
    let f1 = number(end_offset as nat, 8);
    let f2 = number(total_bytes as nat, 8);
    let f3 = flag(eof);
    let r3: Seq<u8> = Seq::empty();
    let r2 = f3 + r3;
    let r1 = f2 + r2;
    let r0 = f1 + r1;
    lemma_joined(tag, f0, r0);
    lemma_joined(tag + f0, f1, r1);
    lemma_joined(tag + f0 + f1, f2, r2);
    lemma_joined(tag + f0 + f1 + f2, f3, r3);
    assert(tag + f0 + f1 + f2 + f3 + r3 =~= tag + f0 + f1 + f2 + f3);
}

/// `OMFSWRT1`, and then: the mount, the path, and the bytes behind their length in eight
/// bytes.
pub proof fn file_writes_are_laid_out(v: FilesystemWriteFileView)
    ensures
        v.payload() == if v.bytes.len() > 49152 || octets(v.mount).len() > 4096
            || octets(v.path).len() > 4096 {
            Err(SchemaError::LimitExceeded)
        } else {
            whole(
                seq![79u8, 77, 70, 83, 87, 82, 84, 49]
                    + words(v.mount)
                    + words(v.path)
                    + data(v.bytes, 8),
            )
        },
{
    broadcast use group_fields;

    let tag: Seq<u8> = seq![79u8, 77, 70, 83, 87, 82, 84, 49];
    assert(FILE_WRITE_MAGIC@ =~= tag);
    let f0 = words(v.mount);
    let f1 = words(v.path);
    let f2 = data(v.bytes, 8);
    assert(tag + f0 + f1 + f2 =~= tag + (f0 + (f1 + (f2 + Seq::empty()))));
}

/// `OMFSPTH1`, and then: the mount and the path.
pub proof fn file_paths_are_laid_out(v: FilesystemPathView)
    ensures
        v.payload() == if octets(v.mount).len() > 4096 || octets(v.path).len() > 4096 {
            Err(SchemaError::LimitExceeded)
        } else {
            whole(
                seq![79u8, 77, 70, 83, 80, 84, 72, 49]
                    + words(v.mount)
                    + words(v.path),
            )
        },
{
    broadcast use group_fields;

    let tag: Seq<u8> = seq![79u8, 77, 70, 83, 80, 84, 72, 49];
    assert(FILE_PATH_MAGIC@ =~= tag);
    let f0 = words(v.mount);
    let f1 = words(v.path);
    assert(tag + f0 + f1 =~= tag + (f0 + (f1 + Seq::empty())));
}

/// `OMFSREN1`, and then: the mount, what is renamed, and what it becomes.
pub proof fn renames_are_laid_out(v: FilesystemRenameView)
    ensures
        v.payload() == if octets(v.mount).len() > 4096 || octets(v.source).len() > 4096
            || octets(v.destination).len() > 4096 {
            Err(SchemaError::LimitExceeded)
        } else {
            whole(
                seq![79u8, 77, 70, 83, 82, 69, 78, 49]
                    + words(v.mount)
                    + words(v.source)
                    + words(v.destination),
            )
        },
{
    broadcast use group_fields;

    let tag: Seq<u8> = seq![79u8, 77, 70, 83, 82, 69, 78, 49];
    assert(FILE_RENAME_MAGIC@ =~= tag);
    let f0 = words(v.mount);
    let f1 = words(v.source);
    let f2 = words(v.destination);
    assert(tag + f0 + f1 + f2 =~= tag + (f0 + (f1 + (f2 + Seq::empty()))));
}

/// `OMFSWSQ1`, and then: the mount, the path, and the number of bytes in eight bytes.
pub proof fn write_streams_are_laid_out(v: FilesystemWriteStreamView)
    ensures
        v.payload() == if v.expected_bytes > 67108864 || octets(v.mount).len() > 4096
            || octets(v.path).len() > 4096 {
            Err(SchemaError::LimitExceeded)
        } else {
            whole(
                seq![79u8, 77, 70, 83, 87, 83, 81, 49]
                    + words(v.mount)
                    + words(v.path)
                    + number(v.expected_bytes as nat, 8),
            )
        },
{
    broadcast use group_fields;

    let tag: Seq<u8> = seq![79u8, 77, 70, 83, 87, 83, 81, 49];
    assert(FILE_WRITE_STREAM_MAGIC@ =~= tag);
    let f0 = words(v.mount);
    let f1 = words(v.path);
    let f2 = number(v.expected_bytes as nat, 8);
    assert(tag + f0 + f1 + f2 =~= tag + (f0 + (f1 + (f2 + Seq::empty()))));
}

/// `OMFSWSC1`, and then: the stream and the place in eight bytes each, and the bytes
/// behind their length in four bytes.
pub proof fn write_chunks_are_laid_out(v: FilesystemWriteStreamChunkView)
    ensures
        v.payload() == if v.resource_id == 0 || v.bytes.len() == 0 || v.bytes.len() > 12288 {
            Err(SchemaError::LimitExceeded)
        } else {
            whole(
                seq![79u8, 77, 70, 83, 87, 83, 67, 49]
                    + number(v.resource_id as nat, 8)
                    + number(v.offset as nat, 8)
                    + data(v.bytes, 4),
            )
        },
{
    broadcast use group_fields;

    let tag: Seq<u8> = seq![79u8, 77, 70, 83, 87, 83, 67, 49];
    assert(FILE_WRITE_STREAM_CHUNK_MAGIC@ =~= tag);
    let f0 = number(v.resource_id as nat, 8);
    let f1 = number(v.offset as nat, 8);
    let f2 = data(v.bytes, 4);
    assert(tag + f0 + f1 + f2 =~= tag + (f0 + (f1 + (f2 + Seq::empty()))));
}

/// `OMHTTPQ1`, and then: the method as a byte, the address, the accepted and the given
/// media type where there are any, and the body behind its length in eight bytes.
pub proof fn http_requests_are_laid_out(v: HttpRequestView)
    ensures
        v.payload() == if v.body.len() > 48128 || octets(v.url).len() > 4096
            || (v.accept matches Some(t) && octets(t).len() > 4096)
            || (v.content_type matches Some(t) && octets(t).len() > 4096) {
            Err(SchemaError::LimitExceeded)
        } else {
            whole(
                seq![79u8, 77, 72, 84, 84, 80, 81, 49]
                    + byte(
                        match v.method {
                            HttpRequestMethod::Get => 0,
                            HttpRequestMethod::Head => 1,
                            HttpRequestMethod::Post => 2,
                            HttpRequestMethod::Put => 3,
                            HttpRequestMethod::Patch => 4,
                            HttpRequestMethod::Delete => 5,
                        },
                    )
                    + words(v.url)
                    + maybe_words(v.accept)
                    + maybe_words(v.content_type)
                    + data(v.body, 8),
            )
        },
{
    broadcast use group_fields;

    let tag: Seq<u8> = seq![79u8, 77, 72, 84, 84, 80, 81, 49];
    assert(HTTP_REQUEST_MAGIC@ =~= tag);
    let f0 = byte(
        match v.method {
            HttpRequestMethod::Get => 0,
            HttpRequestMethod::Head => 1,
            HttpRequestMethod::Post => 2,
            HttpRequestMethod::Put => 3,
            HttpRequestMethod::Patch => 4,
            HttpRequestMethod::Delete => 5,
        },
    );
    let f1 = words(v.url);
    let f2 = maybe_words(v.accept);
    let f3 = maybe_words(v.content_type);
    let f4 = data(v.body, 8);
    let r4: Seq<u8> = Seq::empty();
    let r3 = f4 + r4;
    let r2 = f3 + r3;
    let r1 = f2 + r2;
    let r0 = f1 + r1;
    lemma_joined(tag, f0, r0);
    lemma_joined(tag + f0, f1, r1);
    lemma_joined(tag + f0 + f1, f2, r2);
    lemma_joined(tag + f0 + f1 + f2, f3, r3);
    lemma_joined(tag + f0 + f1 + f2 + f3, f4, r4);
    assert(tag + f0 + f1 + f2 + f3 + f4 + r4 =~= tag + f0 + f1 + f2 + f3 + f4);
}

/// `OMHTTPR1`, and then: the status in two bytes, the address, the media type and the tag
/// where there are any, and the body behind its length in eight bytes.
pub proof fn http_responses_are_laid_out(v: HttpResponseView)
    ensures
        v.payload() == if !(100 <= v.status <= 599) || v.body.len() > 48128
            || octets(v.final_url).len() > 4096
            || (v.content_type matches Some(t) && octets(t).len() > 4096)
            || (v.etag matches Some(t) && octets(t).len() > 4096) {
            Err(SchemaError::LimitExceeded)
        } else {
            whole(
                seq![79u8, 77, 72, 84, 84, 80, 82, 49]
                    + number(v.status as nat, 2)
                    + words(v.final_url)
                    + maybe_words(v.content_type)
                    + maybe_words(v.etag)
                    + data(v.body, 8),
            )
        },
{
    broadcast use group_fields;

    let tag: Seq<u8> = seq![79u8, 77, 72, 84, 84, 80, 82, 49];
    assert(HTTP_RESPONSE_MAGIC@ =~= tag);
    let f0 = number(v.status as nat, 2);
    let f1 = words(v.final_url);
    let f2 = maybe_words(v.content_type);
    let f3 = maybe_words(v.etag);
    let f4 = data(v.body, 8);
    let r4: Seq<u8> = Seq::empty();
    let r3 = f4 + r4;
    let r2 = f3 + r3;
    let r1 = f2 + r2;
    let r0 = f1 + r1;
    lemma_joined(tag, f0, r0);
    lemma_joined(tag + f0, f1, r1);
    lemma_joined(tag + f0 + f1, f2, r2);
    lemma_joined(tag + f0 + f1 + f2, f3, r3);
    lemma_joined(tag + f0 + f1 + f2 + f3, f4, r4);
    assert(tag + f0 + f1 + f2 + f3 + f4 + r4 =~= tag + f0 + f1 + f2 + f3 + f4);
}

/// `OMHTTPE1`, and then: a zero, the status in two bytes, the address, and the media type
/// and the tag where there are any.
pub proof fn http_starts_are_laid_out(
    status: u16,
    final_url: Seq<char>,
    content_type: Option<Seq<char>>,
    etag: Option<Seq<char>>,
)
    ensures
        (HttpStreamEventView::Metadata { status, final_url, content_type, etag }).payload()
            == if !(100 <= status <= 599) {
            Err(SchemaError::Malformed)
        } else if octets(final_url).len() > 4096
            || (content_type matches Some(t) && octets(t).len() > 4096)
            || (etag matches Some(t) && octets(t).len() > 4096) {
            Err(SchemaError::LimitExceeded)
        } else {
            whole(
                seq![79u8, 77, 72, 84, 84, 80, 69, 49]
                    + byte(0)
                    + number(status as nat, 2)
                    + words(final_url)
                    + maybe_words(content_type)
                    + maybe_words(etag),
            )
        },
{
    broadcast use group_fields;

    let tag: Seq<u8> = seq![79u8, 77, 72, 84, 84, 80, 69, 49];
    assert(HTTP_STREAM_EVENT_MAGIC@ =~= tag);
    let f0 = byte(0);
    let f1 = number(status as nat, 2);
    let f2 = words(final_url);
    let f3 = maybe_words(content_type);
    let f4 = maybe_words(etag);
    let r4: Seq<u8> = Seq::empty();
    let r3 = f4 + r4;
    let r2 = f3 + r3;
    let r1 = f2 + r2;
    let r0 = f1 + r1;
    lemma_joined(tag, f0, r0);
    lemma_joined(tag + f0, f1, r1);
    lemma_joined(tag + f0 + f1, f2, r2);
    lemma_joined(tag + f0 + f1 + f2, f3, r3);
    lemma_joined(tag + f0 + f1 + f2 + f3, f4, r4);
    assert(tag + f0 + f1 + f2 + f3 + f4 + r4 =~= tag + f0 + f1 + f2 + f3 + f4);
}

/// `OMHTTPE1`, and then: a one, and the bytes behind their length in eight bytes.
pub proof fn http_chunks_are_laid_out(bytes: Seq<u8>)
    ensures
        (HttpStreamEventView::Chunk(bytes)).payload()
            == if bytes.len() == 0 || bytes.len() > 12288 {
            Err(SchemaError::LimitExceeded)
        } else {
            whole(
                seq![79u8, 77, 72, 84, 84, 80, 69, 49]
                    + byte(1)
                    + data(bytes, 8),
            )
        },
{
    broadcast use group_fields;

    let tag: Seq<u8> = seq![79u8, 77, 72, 84, 84, 80, 69, 49];
    assert(HTTP_STREAM_EVENT_MAGIC@ =~= tag);
    let f0 = byte(1);
    let f1 = data(bytes, 8);
    assert(tag + f0 + f1 =~= tag + (f0 + (f1 + Seq::empty())));
}

/// `OMHTTPE1`, and then: a two, and the number of bytes in eight bytes.
pub proof fn http_ends_are_laid_out(total_bytes: u64)
    ensures
        (HttpStreamEventView::Complete { total_bytes }).payload() == whole(
            seq![79u8, 77, 72, 84, 84, 80, 69, 49]
                + byte(2)
                + number(total_bytes as nat, 8),
        ),
{
    broadcast use group_fields;

    let tag: Seq<u8> = seq![79u8, 77, 72, 84, 84, 80, 69, 49];
    assert(HTTP_STREAM_EVENT_MAGIC@ =~= tag);
    let f0 = byte(2);
    let f1 = number(total_bytes as nat, 8);
    assert(tag + f0 + f1 =~= tag + (f0 + (f1 + Seq::empty())));
}

/// `OMLOCNQ1`, and then: the endpoint and the protocol.
pub proof fn connects_are_laid_out(v: LocalConnectView)
    ensures
        v.payload() == if octets(v.endpoint).len() > 4096
            || octets(v.protocol).len() > 4096 {
            Err(SchemaError::LimitExceeded)
        } else {
            whole(
                seq![79u8, 77, 76, 79, 67, 78, 81, 49]
                    + words(v.endpoint)
                    + words(v.protocol),
            )
        },
{
    broadcast use group_fields;

    let tag: Seq<u8> = seq![79u8, 77, 76, 79, 67, 78, 81, 49];
    assert(LOCAL_CONNECT_MAGIC@ =~= tag);
    let f0 = words(v.endpoint);
    let f1 = words(v.protocol);
    assert(tag + f0 + f1 =~= tag + (f0 + (f1 + Seq::empty())));
}

/// `OMLOCNS1`, and then: the connection in eight bytes, and the bytes behind their length
/// in four bytes.
pub proof fn sent_frames_are_laid_out(v: LocalSendFrameView)
    ensures
        v.payload() == if v.resource_id == 0 || v.bytes.len() == 0 {
            Err(SchemaError::Malformed)
        } else if v.bytes.len() > 12288 {
            Err(SchemaError::LimitExceeded)
        } else {
            whole(
                seq![79u8, 77, 76, 79, 67, 78, 83, 49]
                    + number(v.resource_id as nat, 8)
                    + data(v.bytes, 4),
            )
        },
{
    broadcast use group_fields;

    let tag: Seq<u8> = seq![79u8, 77, 76, 79, 67, 78, 83, 49];
    assert(LOCAL_SEND_MAGIC@ =~= tag);
    let f0 = number(v.resource_id as nat, 8);
    let f1 = data(v.bytes, 4);
    assert(tag + f0 + f1 =~= tag + (f0 + (f1 + Seq::empty())));
}

/// `OMLOCNE1`, and then: the bytes behind their length in four bytes.
pub proof fn received_frames_are_laid_out(v: LocalFrameEventView)
    ensures
        v.payload() == if v.bytes.len() == 0 {
            Err(SchemaError::Malformed)
        } else if v.bytes.len() > 12288 {
            Err(SchemaError::LimitExceeded)
        } else {
            whole(
                seq![79u8, 77, 76, 79, 67, 78, 69, 49]
                    + data(v.bytes, 4),
            )
        },
{
    broadcast use group_fields;

    let tag: Seq<u8> = seq![79u8, 77, 76, 79, 67, 78, 69, 49];
    assert(LOCAL_EVENT_MAGIC@ =~= tag);
    let f0 = data(v.bytes, 4);
    assert(tag + f0 =~= tag + (f0 + Seq::empty()));
}

/// `OMNOTIF1`, and then: the identifier, the category, the urgency as a byte, the title
/// and the body.
pub proof fn notifications_are_laid_out(v: NotificationSendView)
    ensures
        v.payload() == if octets(v.title).len() > 256 || octets(v.body).len() > 4096
            || octets(v.id).len() > 4096 || octets(v.category).len() > 4096 {
            Err(SchemaError::LimitExceeded)
        } else {
            whole(
                seq![79u8, 77, 78, 79, 84, 73, 70, 49]
                    + words(v.id)
                    + words(v.category)
                    + byte(
                        match v.urgency {
                            NotificationUrgencyValue::Low => 0,
                            NotificationUrgencyValue::Normal => 1,
                            NotificationUrgencyValue::Critical => 2,
                        },
                    )
                    + words(v.title)
                    + words(v.body),
            )
        },
{
    broadcast use group_fields;

    let tag: Seq<u8> = seq![79u8, 77, 78, 79, 84, 73, 70, 49];
    assert(NOTIFICATION_SEND_MAGIC@ =~= tag);
    let f0 = words(v.id);
    let f1 = words(v.category);
    let f2 = byte(
        match v.urgency {
            NotificationUrgencyValue::Low => 0,
            NotificationUrgencyValue::Normal => 1,
            NotificationUrgencyValue::Critical => 2,
        },
    );
    let f3 = words(v.title);
    let f4 = words(v.body);
    let r4: Seq<u8> = Seq::empty();
    let r3 = f4 + r4;
    let r2 = f3 + r3;
    let r1 = f2 + r2;
    let r0 = f1 + r1;
    lemma_joined(tag, f0, r0);
    lemma_joined(tag + f0, f1, r1);
    lemma_joined(tag + f0 + f1, f2, r2);
    lemma_joined(tag + f0 + f1 + f2, f3, r3);
    lemma_joined(tag + f0 + f1 + f2 + f3, f4, r4);
    assert(tag + f0 + f1 + f2 + f3 + f4 + r4 =~= tag + f0 + f1 + f2 + f3 + f4);
}

/// `OMNOTIR1`, and then: the identifier.
pub proof fn removals_are_laid_out(v: NotificationRemoveView)
    ensures
        v.payload() == if octets(v.id).len() > 4096 {
            Err(SchemaError::LimitExceeded)
        } else {
            whole(
                seq![79u8, 77, 78, 79, 84, 73, 82, 49]
                    + words(v.id),
            )
        },
{
    broadcast use group_fields;

    let tag: Seq<u8> = seq![79u8, 77, 78, 79, 84, 73, 82, 49];
    assert(NOTIFICATION_REMOVE_MAGIC@ =~= tag);
    let f0 = words(v.id);
    assert(tag + f0 =~= tag + (f0 + Seq::empty()));
}

/// `OMSECRQ1`, and then: the name.
pub proof fn secret_reads_are_laid_out(v: SecretReadRequestView)
    ensures
        v.payload() == if octets(v.logical_name).len() > 4096 {
            Err(SchemaError::LimitExceeded)
        } else {
            whole(
                seq![79u8, 77, 83, 69, 67, 82, 81, 49]
                    + words(v.logical_name),
            )
        },
{
    broadcast use group_fields;

    let tag: Seq<u8> = seq![79u8, 77, 83, 69, 67, 82, 81, 49];
    assert(SECRET_READ_MAGIC@ =~= tag);
    let f0 = words(v.logical_name);
    assert(tag + f0 =~= tag + (f0 + Seq::empty()));
}

/// `OMSECRV1`, and then: the bytes behind their length in four bytes, and the media type.
pub proof fn secret_values_are_laid_out(v: SecretValueView)
    ensures
        v.payload() == if v.bytes.len() > 49152 || octets(v.content_type).len() > 128 {
            Err(SchemaError::LimitExceeded)
        } else {
            whole(
                seq![79u8, 77, 83, 69, 67, 82, 86, 49]
                    + data(v.bytes, 4)
                    + words(v.content_type),
            )
        },
{
    broadcast use group_fields;

    let tag: Seq<u8> = seq![79u8, 77, 83, 69, 67, 82, 86, 49];
    assert(SECRET_VALUE_MAGIC@ =~= tag);
    let f0 = data(v.bytes, 4);
    let f1 = words(v.content_type);
    assert(tag + f0 + f1 =~= tag + (f0 + (f1 + Seq::empty())));
}

/// `OMURIOP1`, and then: the address.
pub proof fn uris_are_laid_out(v: UriOpenRequestView)
    ensures
        v.payload() == if octets(v.uri).len() > 4096 {
            Err(SchemaError::LimitExceeded)
        } else {
            whole(
                seq![79u8, 77, 85, 82, 73, 79, 80, 49]
                    + words(v.uri),
            )
        },
{
    broadcast use group_fields;

    let tag: Seq<u8> = seq![79u8, 77, 85, 82, 73, 79, 80, 49];
    assert(URI_OPEN_MAGIC@ =~= tag);
    let f0 = words(v.uri);
    assert(tag + f0 =~= tag + (f0 + Seq::empty()));
}

/// `OMCMDE01`, and then: a zero, and the bytes behind their length in eight
/// bytes.
pub proof fn command_output_is_laid_out(bytes: Seq<u8>)
    ensures
        (CommandEventView::Stdout(bytes)).payload() == if bytes.len() == 0 || bytes.len() > 12288 {
            Err(SchemaError::LimitExceeded)
        } else {
            whole(
                seq![79u8, 77, 67, 77, 68, 69, 48, 49]
                    + byte(0)
                    + data(bytes, 8),
            )
        },
{
    broadcast use group_fields;

    let tag: Seq<u8> = seq![79u8, 77, 67, 77, 68, 69, 48, 49];
    assert(COMMAND_EVENT_MAGIC@ =~= tag);
    let f0 = byte(0);
    let f1 = data(bytes, 8);
    assert(tag + f0 + f1 =~= tag + (f0 + (f1 + Seq::empty())));
}

/// `OMCMDE01`, and then: a one, and the bytes behind their length in eight bytes.
pub proof fn command_errors_are_laid_out(bytes: Seq<u8>)
    ensures
        (CommandEventView::Stderr(bytes)).payload() == if bytes.len() == 0 || bytes.len() > 12288 {
            Err(SchemaError::LimitExceeded)
        } else {
            whole(
                seq![79u8, 77, 67, 77, 68, 69, 48, 49]
                    + byte(1)
                    + data(bytes, 8),
            )
        },
{
    broadcast use group_fields;

    let tag: Seq<u8> = seq![79u8, 77, 67, 77, 68, 69, 48, 49];
    assert(COMMAND_EVENT_MAGIC@ =~= tag);
    let f0 = byte(1);
    let f1 = data(bytes, 8);
    assert(tag + f0 + f1 =~= tag + (f0 + (f1 + Seq::empty())));
}

/// `OMCMDO01`, and then: the resource in eight bytes, which is not zero.
pub proof fn opened_commands_are_laid_out(v: CommandOpened)
    ensures
        v.payload() == if v.resource_id == 0 {
            Err(SchemaError::Malformed)
        } else {
            whole(
                seq![79u8, 77, 67, 77, 68, 79, 48, 49]
                    + number(v.resource_id as nat, 8),
            )
        },
{
    broadcast use group_fields;

    let tag: Seq<u8> = seq![79u8, 77, 67, 77, 68, 79, 48, 49];
    assert(COMMAND_OPENED_MAGIC@ =~= tag);
    let f0 = number(v.resource_id as nat, 8);
    assert(tag + f0 =~= tag + (f0 + Seq::empty()));
}

/// `OMDBUSO1`, and then: the resource in eight bytes, which is not zero.
pub proof fn opened_subscriptions_are_laid_out(v: DbusSubscriptionOpened)
    ensures
        v.payload() == if v.resource_id == 0 {
            Err(SchemaError::Malformed)
        } else {
            whole(
                seq![79u8, 77, 68, 66, 85, 83, 79, 49]
                    + number(v.resource_id as nat, 8),
            )
        },
{
    broadcast use group_fields;

    let tag: Seq<u8> = seq![79u8, 77, 68, 66, 85, 83, 79, 49];
    assert(OPENED_MAGIC@ =~= tag);
    let f0 = number(v.resource_id as nat, 8);
    assert(tag + f0 =~= tag + (f0 + Seq::empty()));
}

/// `OMFSSOP1`, and then: the resource in eight bytes, which is not zero.
pub proof fn opened_streams_are_laid_out(v: FilesystemStreamOpened)
    ensures
        v.payload() == if v.resource_id == 0 {
            Err(SchemaError::Malformed)
        } else {
            whole(
                seq![79u8, 77, 70, 83, 83, 79, 80, 49]
                    + number(v.resource_id as nat, 8),
            )
        },
{
    broadcast use group_fields;

    let tag: Seq<u8> = seq![79u8, 77, 70, 83, 83, 79, 80, 49];
    assert(FILE_STREAM_OPENED_MAGIC@ =~= tag);
    let f0 = number(v.resource_id as nat, 8);
    assert(tag + f0 =~= tag + (f0 + Seq::empty()));
}

/// `OMFSWSM1`, and then: the resource in eight bytes, which is not zero.
pub proof fn commits_are_laid_out(v: FilesystemWriteStreamCommit)
    ensures
        v.payload() == if v.resource_id == 0 {
            Err(SchemaError::Malformed)
        } else {
            whole(
                seq![79u8, 77, 70, 83, 87, 83, 77, 49]
                    + number(v.resource_id as nat, 8),
            )
        },
{
    broadcast use group_fields;

    let tag: Seq<u8> = seq![79u8, 77, 70, 83, 87, 83, 77, 49];
    assert(FILE_WRITE_STREAM_COMMIT_MAGIC@ =~= tag);
    let f0 = number(v.resource_id as nat, 8);
    assert(tag + f0 =~= tag + (f0 + Seq::empty()));
}

/// `OMHTTPO1`, and then: the resource in eight bytes, which is not zero.
pub proof fn opened_responses_are_laid_out(v: HttpStreamOpened)
    ensures
        v.payload() == if v.resource_id == 0 {
            Err(SchemaError::Malformed)
        } else {
            whole(
                seq![79u8, 77, 72, 84, 84, 80, 79, 49]
                    + number(v.resource_id as nat, 8),
            )
        },
{
    broadcast use group_fields;

    let tag: Seq<u8> = seq![79u8, 77, 72, 84, 84, 80, 79, 49];
    assert(HTTP_STREAM_OPENED_MAGIC@ =~= tag);
    let f0 = number(v.resource_id as nat, 8);
    assert(tag + f0 =~= tag + (f0 + Seq::empty()));
}

/// `OMFSMUT1`, and then: the number of bytes written in eight bytes, and the size where
/// it is known.
pub proof fn mutations_are_laid_out(v: FilesystemMutationResult)
    ensures
        v.payload() == whole(
            seq![79u8, 77, 70, 83, 77, 85, 84, 49]
                + number(v.bytes_written as nat, 8)
                + maybe_number(v.resulting_size),
        ),
{
    broadcast use group_fields;

    let tag: Seq<u8> = seq![79u8, 77, 70, 83, 77, 85, 84, 49];
    assert(FILE_MUTATION_MAGIC@ =~= tag);
    let f0 = number(v.bytes_written as nat, 8);
    let f1 = maybe_number(v.resulting_size);
    assert(tag + f0 + f1 =~= tag + (f0 + (f1 + Seq::empty())));
}

/// `OMFSWSO1`, and then: the resource in eight bytes, and the longest chunk in four
/// bytes.
pub proof fn opened_write_streams_are_laid_out(v: FilesystemWriteStreamOpened)
    ensures
        v.payload() == if v.resource_id == 0 || v.maximum_chunk_bytes == 0
            || v.maximum_chunk_bytes > 12288 {
            Err(SchemaError::Malformed)
        } else {
            whole(
                seq![79u8, 77, 70, 83, 87, 83, 79, 49]
                    + number(v.resource_id as nat, 8)
                    + number(v.maximum_chunk_bytes as nat, 4),
            )
        },
{
    broadcast use group_fields;

    let tag: Seq<u8> = seq![79u8, 77, 70, 83, 87, 83, 79, 49];
    assert(FILE_WRITE_STREAM_OPENED_MAGIC@ =~= tag);
    let f0 = number(v.resource_id as nat, 8);
    let f1 = number(v.maximum_chunk_bytes as nat, 4);
    assert(tag + f0 + f1 =~= tag + (f0 + (f1 + Seq::empty())));
}

/// `OMLOCNO1`, and then: the resource in eight bytes, and the longest frame in four
/// bytes.
pub proof fn opened_connections_are_laid_out(v: LocalConnectionOpened)
    ensures
        v.payload() == if v.resource_id == 0 || v.maximum_frame_bytes == 0
            || v.maximum_frame_bytes > 12288 {
            Err(SchemaError::Malformed)
        } else {
            whole(
                seq![79u8, 77, 76, 79, 67, 78, 79, 49]
                    + number(v.resource_id as nat, 8)
                    + number(v.maximum_frame_bytes as nat, 4),
            )
        },
{
    broadcast use group_fields;

    let tag: Seq<u8> = seq![79u8, 77, 76, 79, 67, 78, 79, 49];
    assert(LOCAL_OPENED_MAGIC@ =~= tag);
    let f0 = number(v.resource_id as nat, 8);
    let f1 = number(v.maximum_frame_bytes as nat, 4);
    assert(tag + f0 + f1 =~= tag + (f0 + (f1 + Seq::empty())));
}

/// `OMCMDE01`, and then: a two, the exit code or else the signal in four bytes, and the
/// bytes of both outputs in eight bytes each.
pub proof fn command_ends_are_laid_out(
    exit_code: Option<i32>,
    signal: Option<i32>,
    stdout_bytes: u64,
    stderr_bytes: u64,
)
    ensures
        (CommandEventView::Exited { exit_code, signal, stdout_bytes, stderr_bytes }).payload()
            == if (exit_code is Some) == (signal is Some) {
            Err(SchemaError::Malformed)
        } else {
            whole(
                seq![79u8, 77, 67, 77, 68, 69, 48, 49]
                    + byte(2)
                    + maybe_signed(exit_code)
                    + maybe_signed(signal)
                    + number(stdout_bytes as nat, 8)
                    + number(stderr_bytes as nat, 8),
            )
        },
{
    broadcast use group_fields;

    let tag: Seq<u8> = seq![79u8, 77, 67, 77, 68, 69, 48, 49];
    assert(COMMAND_EVENT_MAGIC@ =~= tag);
    let f0 = byte(2);
    let f1 = maybe_signed(exit_code);
    let f2 = maybe_signed(signal);
    let f3 = number(stdout_bytes as nat, 8);
    let f4 = number(stderr_bytes as nat, 8);
    let r4: Seq<u8> = Seq::empty();
    let r3 = f4 + r4;
    let r2 = f3 + r3;
    let r1 = f2 + r2;
    let r0 = f1 + r1;
    lemma_joined(tag, f0, r0);
    lemma_joined(tag + f0, f1, r1);
    lemma_joined(tag + f0 + f1, f2, r2);
    lemma_joined(tag + f0 + f1 + f2, f3, r3);
    lemma_joined(tag + f0 + f1 + f2 + f3, f4, r4);
    assert(tag + f0 + f1 + f2 + f3 + f4 + r4 =~= tag + f0 + f1 + f2 + f3 + f4);
}

/// `OMDBUSR1`, and then: a zero.
pub proof fn empty_replies_are_laid_out()
    ensures
        (DbusReplyView::Unit).payload() == whole(
            seq![79u8, 77, 68, 66, 85, 83, 82, 49]
                + byte(0),
        ),
{
    broadcast use group_fields;

    let tag: Seq<u8> = seq![79u8, 77, 68, 66, 85, 83, 82, 49];
    assert(REPLY_MAGIC@ =~= tag);
    let f0 = byte(0);
    assert(tag + f0 =~= tag + (f0 + Seq::empty()));
}

/// `OMDBUSR1`, and then: a one, and the text.
pub proof fn text_replies_are_laid_out(text: Seq<char>)
    ensures
        (DbusReplyView::String(text)).payload() == if octets(text).len() > 4096 {
            Err(SchemaError::LimitExceeded)
        } else {
            whole(
                seq![79u8, 77, 68, 66, 85, 83, 82, 49]
                    + byte(1)
                    + words(text),
            )
        },
{
    broadcast use group_fields;

    let tag: Seq<u8> = seq![79u8, 77, 68, 66, 85, 83, 82, 49];
    assert(REPLY_MAGIC@ =~= tag);
    let f0 = byte(1);
    let f1 = words(text);
    assert(tag + f0 + f1 =~= tag + (f0 + (f1 + Seq::empty())));
}

/// `OMDBUSR1`, and then: a two, and the signed number in eight bytes.
pub proof fn number_replies_are_laid_out(value: i64)
    ensures
        (DbusReplyView::I64(value)).payload() == whole(
            seq![79u8, 77, 68, 66, 85, 83, 82, 49]
                + byte(2)
                + signed(value as int, 8),
        ),
{
    broadcast use group_fields;

    let tag: Seq<u8> = seq![79u8, 77, 68, 66, 85, 83, 82, 49];
    assert(REPLY_MAGIC@ =~= tag);
    let f0 = byte(2);
    let f1 = signed(value as int, 8);
    assert(tag + f0 + f1 =~= tag + (f0 + (f1 + Seq::empty())));
}


/// A fact: its key, and a zero and a text or a one and a flag.
pub open spec fn fact(fact: ContextFactView) -> Seq<u8> {
    words(fact.key) + match fact.value {
        ContextFactValueView::Text(text) => byte(0) + words(text),
        ContextFactValueView::Boolean(value) => byte(1) + flag(value),
    }
}

pub open spec fn one_fact() -> spec_fn(ContextFactView) -> Seq<u8> {
    |item: ContextFactView| fact(item)
}

/// An argument: a byte that tells its kind, its name, and a signed number in
/// eight bytes or a text.
pub open spec fn argument(value: CommandValueView) -> Seq<u8> {
    match value {
        CommandValueView::Integer { name, value } => byte(0) + words(name) + signed(
            value as int,
            8,
        ),
        CommandValueView::FixedEnum { name, value } => byte(1) + words(name) + words(value),
        CommandValueView::Text { name, value } => byte(2) + words(name) + words(value),
        CommandValueView::ApprovedFile { name, path } => byte(3) + words(name) + words(path),
        CommandValueView::Url { name, value } => byte(4) + words(name) + words(value),
    }
}

pub open spec fn one_argument() -> spec_fn(CommandValueView) -> Seq<u8> {
    |item: CommandValueView| argument(item)
}

/// What an argument is called.
pub open spec fn called(value: CommandValueView) -> Seq<char> {
    match value {
        CommandValueView::Integer { name, .. } => name,
        CommandValueView::FixedEnum { name, .. } => name,
        CommandValueView::Text { name, .. } => name,
        CommandValueView::ApprovedFile { name, .. } => name,
        CommandValueView::Url { name, .. } => name,
    }
}

/// No text of an argument is too long.
pub open spec fn short(value: CommandValueView) -> bool {
    &&& octets(called(value)).len() <= 4096
    &&& match value {
        CommandValueView::Integer { .. } => true,
        CommandValueView::FixedEnum { value, .. } => octets(value).len() <= 4096,
        CommandValueView::Text { value, .. } => octets(value).len() <= 4096,
        CommandValueView::ApprovedFile { path, .. } => octets(path).len() <= 4096,
        CommandValueView::Url { value, .. } => octets(value).len() <= 4096,
    }
}

/// A value: a byte that tells its kind, and the value.
pub open spec fn bus_value(value: DbusValueView) -> Seq<u8> {
    match value {
        DbusValueView::U8(x) => byte(0) + byte(x),
        DbusValueView::Bool(x) => byte(1) + flag(x),
        DbusValueView::I16(x) => byte(2) + signed(x as int, 2),
        DbusValueView::U16(x) => byte(3) + number(x as nat, 2),
        DbusValueView::I32(x) => byte(4) + signed(x as int, 4),
        DbusValueView::U32(x) => byte(5) + number(x as nat, 4),
        DbusValueView::I64(x) => byte(6) + signed(x as int, 8),
        DbusValueView::U64(x) => byte(7) + number(x as nat, 8),
        DbusValueView::F64(bits) => byte(8) + number(bits as nat, 8),
        DbusValueView::String(text) => byte(9) + words(text),
    }
}

/// A property: its name and its value.
pub open spec fn property(property: DbusPropertyView) -> Seq<u8> {
    words(property.name) + bus_value(property.value)
}

pub open spec fn one_property() -> spec_fn(DbusPropertyView) -> Seq<u8> {
    |item: DbusPropertyView| property(item)
}

/// An entry: its name, a byte that is one for a directory, and its size in
/// eight bytes.
pub open spec fn entry(entry: FilesystemEntryView) -> Seq<u8> {
    words(entry.name) + byte(
        if entry.kind is Directory {
            1
        } else {
            0
        },
    ) + number(entry.size as nat, 8)
}

pub open spec fn one_entry() -> spec_fn(FilesystemEntryView) -> Seq<u8> {
    |item: FilesystemEntryView| entry(item)
}

/// `OMCMDQ01`, and then: the command, the number of arguments in two bytes,
/// and the arguments. No two arguments have one name.
pub proof fn command_runs_are_laid_out(v: CommandRunRequestView)
    ensures
        ({
            let distinct = forall|i: int, j: int|
                0 <= i < j < v.values.len() ==> called(#[trigger] v.values[i]) != called(
                    #[trigger] v.values[j],
                );
            let fitting = forall|i: int|
                0 <= i < v.values.len() ==> short(#[trigger] v.values[i]);
            let bytes = seq![79u8, 77, 67, 77, 68, 81, 48, 49] + words(v.command_id) + number(
                v.values.len(),
                2,
            ) + each(v.values, one_argument());
            if v.values.len() > 32 || octets(v.command_id).len() > 4096 {
                v.payload() == Err::<Seq<u8>, SchemaError>(SchemaError::LimitExceeded)
            } else if distinct && fitting {
                v.payload() == whole(bytes)
            } else {
                &&& v.payload() is Err
                &&& distinct ==> v.payload()->Err_0 == SchemaError::LimitExceeded
                &&& fitting ==> v.payload()->Err_0 == SchemaError::Malformed
            }
        }),
{
    lemma_refused(v.values, 0, command::value_check());
    lemma_arguments(v.values);
    assert forall|item: CommandValueView, behind: Seq<u8>| #[trigger]
        command::value_put()(item, behind) == one_argument()(item) + behind by {
        lemma_argument(item, behind);
    }
    lemma_put_each(v.values, command::value_put(), one_argument(), Seq::empty());
    let tag: Seq<u8> = seq![79u8, 77, 67, 77, 68, 81, 48, 49];
    assert(COMMAND_REQUEST_MAGIC@ =~= tag);
    let f0 = words(v.command_id);
    let f1 = number(v.values.len(), 2);
    let f2 = each(v.values, one_argument());
    let r2: Seq<u8> = Seq::empty();
    let r1 = f2 + r2;
    lemma_put_u16(v.values.len() as u16, r1);
    lemma_put_text(v.command_id, f1 + r1);
    lemma_joined(tag, f0, f1 + r1);
    lemma_joined(tag + f0, f1, r1);
    lemma_joined(tag + f0 + f1, f2, r2);
    assert(tag + f0 + f1 + f2 + r2 =~= tag + f0 + f1 + f2);
}

proof fn lemma_argument(item: CommandValueView, behind: Seq<u8>)
    ensures
        item.put(behind) == argument(item) + behind,
{
    broadcast use {lemma_put_u8, lemma_put_text, lemma_put_i64};

    assert(item.put(behind) =~= argument(item) + behind);
}

proof fn lemma_arguments(values: Seq<CommandValueView>)
    ensures
        forall|i: int|
            0 <= i < values.len() ==> (match command::value_check()(
                values.subrange(0, i),
                #[trigger] values[i],
            ) {
                Ok(_) => short(values[i]) && forall|j: int|
                    0 <= j < i ==> called(#[trigger] values[j]) != called(values[i]),
                Err(SchemaError::LimitExceeded) => !short(values[i]),
                Err(SchemaError::Malformed) => exists|j: int|
                    0 <= j < i && called(#[trigger] values[j]) == called(values[i]),
            }),
{
    assert forall|i: int| 0 <= i < values.len() implies (match command::value_check()(
        values.subrange(0, i),
        #[trigger] values[i],
    ) {
        Ok(_) => short(values[i]) && forall|j: int|
            0 <= j < i ==> called(#[trigger] values[j]) != called(values[i]),
        Err(SchemaError::LimitExceeded) => !short(values[i]),
        Err(SchemaError::Malformed) => exists|j: int|
            0 <= j < i && called(#[trigger] values[j]) == called(values[i]),
    }) by {
        let done = values.subrange(0, i);
        let value = values[i];
        assert(value.name() == called(value));
        assert(value.fits() == short(value));
        assert(forall|j: int| 0 <= j < i ==> #[trigger] done[j] == values[j]);
        if command::name_is_new(done, value.name()) {
            assert forall|j: int| 0 <= j < i implies called(#[trigger] values[j]) != called(
                value,
            ) by {
                assert(done[j].name() != value.name());
            }
        } else {
            let j = choose|j: int| 0 <= j < done.len() && #[trigger] done[j].name() == value.name();
            assert(called(values[j]) == called(value));
        }
    }
}

/// `OMFSDIR1`, and then: whether entries were left out, their number in two
/// bytes, and the entries.
pub proof fn directory_entries_are_laid_out(v: FilesystemDirectoryEntriesView)
    ensures
        v.payload() == if v.entries.len() > 256 || exists|i: int|
            0 <= i < v.entries.len() && octets((#[trigger] v.entries[i]).name).len() > 4096 {
            Err(SchemaError::LimitExceeded)
        } else {
            whole(
                seq![79u8, 77, 70, 83, 68, 73, 82, 49]
                    + flag(v.truncated)
                    + number(v.entries.len(), 2)
                    + each(v.entries, one_entry()),
            )
        },
{
    broadcast use group_fields;

    lemma_refused(v.entries, 0, filesystem_read::entry_check());
    assert forall|item: FilesystemEntryView, behind: Seq<u8>| #[trigger]
        filesystem_read::entry_put()(item, behind) == one_entry()(item) + behind by {
        assert(filesystem_read::entry_put()(item, behind) =~= entry(item) + behind);
    }
    lemma_put_each(v.entries, filesystem_read::entry_put(), one_entry(), Seq::empty());
    let tag: Seq<u8> = seq![79u8, 77, 70, 83, 68, 73, 82, 49];
    assert(DIRECTORY_REPLY_MAGIC@ =~= tag);
    let f0 = flag(v.truncated);
    let f1 = number(v.entries.len(), 2);
    let f2 = each(v.entries, one_entry());
    assert(tag + f0 + f1 + f2 =~= tag + (f0 + (f1 + (f2 + Seq::empty()))));
}

/// Whether a snapshot can be sent: it has a generation, not too many facts, no
/// two facts with one key, and no text that is too long.
pub open spec fn sendable(v: ContextSnapshotView) -> bool {
    &&& v.generation != 0
    &&& v.facts.len() <= 32
    &&& forall|i: int, j: int|
        0 <= i < j < v.facts.len() ==> (#[trigger] v.facts[i]).key != (#[trigger] v.facts[j]).key
    &&& forall|i: int|
        0 <= i < v.facts.len() ==> octets((#[trigger] v.facts[i]).key).len() <= 4096
    &&& forall|i: int|
        0 <= i < v.facts.len() ==> ((#[trigger] v.facts[i]).value matches
            ContextFactValueView::Text(text) ==> octets(text).len() <= 256)
}

/// A snapshot: its generation in eight bytes, the number of facts in two bytes,
/// and the facts.
pub open spec fn snapshot(v: ContextSnapshotView) -> Seq<u8> {
    number(v.generation as nat, 8) + number(v.facts.len(), 2) + each(v.facts, one_fact())
}

proof fn lemma_snapshot(v: ContextSnapshotView)
    ensures
        v.check() is Ok <==> sendable(v),
        v.generation == 0 ==> v.check() == Err::<(), SchemaError>(SchemaError::Malformed),
        v.generation != 0 && v.facts.len() > 32 ==> v.check() == Err::<(), SchemaError>(
            SchemaError::LimitExceeded,
        ),
        sendable(v) ==> v.put() == snapshot(v),
{
    broadcast use group_fields;

    lemma_refused(v.facts, 0, context::fact_check());
    assert forall|item: ContextFactView, behind: Seq<u8>| #[trigger]
        context::fact_put()(item, behind) == one_fact()(item) + behind by {
        assert(context::fact_put()(item, behind) =~= fact(item) + behind);
    }
    lemma_put_each(v.facts, context::fact_put(), one_fact(), Seq::empty());
    assert forall|i: int| 0 <= i < v.facts.len() implies context::key_is_new(
        v.facts.subrange(0, i),
        (#[trigger] v.facts[i]).key,
    ) == forall|j: int| 0 <= j < i ==> (#[trigger] v.facts[j]).key != v.facts[i].key by {
        let done = v.facts.subrange(0, i);
        assert(forall|j: int| 0 <= j < i ==> #[trigger] done[j] == v.facts[j]);
        if context::key_is_new(done, v.facts[i].key) {
            assert forall|j: int| 0 <= j < i implies (#[trigger] v.facts[j]).key
                != v.facts[i].key by {
                assert(done[j].key != v.facts[i].key);
            }
        }
    }
    let f0 = number(v.generation as nat, 8);
    let f1 = number(v.facts.len(), 2);
    let f2 = each(v.facts, one_fact());
    assert(f0 + f1 + f2 =~= f0 + (f1 + (f2 + Seq::empty())));
}

/// `OMCTXSN1`, and then the snapshot.
pub proof fn snapshots_are_laid_out(v: ContextSnapshotView)
    ensures
        sendable(v) ==> v.payload() == whole(seq![79u8, 77, 67, 84, 88, 83, 78, 49] + snapshot(v)),
        !sendable(v) ==> v.payload() is Err,
        v.generation == 0 ==> v.payload() == Err::<Seq<u8>, SchemaError>(SchemaError::Malformed),
{
    lemma_snapshot(v);
    assert(CONTEXT_SNAPSHOT_MAGIC@ =~= seq![79u8, 77, 67, 84, 88, 83, 78, 49]);
}

/// `OMCTXOP1`, and then: the resource in eight bytes, which is not zero, and the
/// snapshot.
pub proof fn opened_contexts_are_laid_out(v: ContextSubscriptionOpenedView)
    ensures
        v.resource_id != 0 && sendable(v.snapshot) ==> v.payload() == whole(
            seq![79u8, 77, 67, 84, 88, 79, 80, 49]
                + number(v.resource_id as nat, 8)
                + snapshot(v.snapshot),
        ),
        v.resource_id == 0 ==> v.payload() == Err::<Seq<u8>, SchemaError>(SchemaError::Malformed),
        !sendable(v.snapshot) ==> v.payload() is Err,
{
    lemma_snapshot(v.snapshot);
    lemma_put_u64(v.resource_id, v.snapshot.put());
    let tag: Seq<u8> = seq![79u8, 77, 67, 84, 88, 79, 80, 49];
    assert(CONTEXT_OPENED_MAGIC@ =~= tag);
    lemma_joined(tag, number(v.resource_id as nat, 8), v.snapshot.put());
}

/// Whether a property can be sent: its texts are not too long, and a number
/// with a fraction is finite.
pub open spec fn proper(property: DbusPropertyView) -> bool {
    &&& octets(property.name).len() <= 4096
    &&& match property.value {
        DbusValueView::F64(bits) => (bits as int / 0x10_0000_0000_0000) % 0x800 != 0x7ff,
        DbusValueView::String(text) => octets(text).len() <= 4096,
        _ => true,
    }
}

/// `OMDBUSE1`, and then: the interface, the changed properties behind their
/// number in two bytes, and the names of the others behind theirs.
pub proof fn signals_are_laid_out(v: DbusPropertiesChangedView)
    ensures
        ({
            let fitting = v.changed_properties.len() <= 64 && v.invalidated_properties.len() <= 64
                && octets(v.interface_name).len() <= 4096;
            let sound = (forall|i: int|
                0 <= i < v.changed_properties.len() ==> proper(#[trigger] v.changed_properties[i]))
                && (forall|i: int|
                0 <= i < v.invalidated_properties.len() ==> octets(
                    #[trigger] v.invalidated_properties[i],
                ).len() <= 4096);
            let bytes = seq![79u8, 77, 68, 66, 85, 83, 69, 49] + words(v.interface_name) + number(
                v.changed_properties.len(),
                2,
            ) + each(v.changed_properties, one_property()) + number(
                v.invalidated_properties.len(),
                2,
            ) + all_words(v.invalidated_properties);
            if !fitting {
                v.payload() == Err::<Seq<u8>, SchemaError>(SchemaError::LimitExceeded)
            } else if sound {
                v.payload() == whole(bytes)
            } else {
                v.payload() is Err
            }
        }),
{
    lemma_refused(v.changed_properties, 0, dbus::property_check());
    lemma_texts_fit(v.invalidated_properties, 0);
    let r4 = all_words(v.invalidated_properties) + Seq::empty();
    lemma_put_words(v.invalidated_properties, Seq::empty());
    lemma_put_u16(v.invalidated_properties.len() as u16, r4);
    let r3 = number(v.invalidated_properties.len(), 2) + r4;
    assert forall|item: DbusPropertyView, behind: Seq<u8>| #[trigger]
        dbus::property_put()(item, behind) == one_property()(item) + behind by {
        lemma_property(item, behind);
    }
    lemma_put_each(v.changed_properties, dbus::property_put(), one_property(), r3);
    let r2 = each(v.changed_properties, one_property()) + r3;
    lemma_put_u16(v.changed_properties.len() as u16, r2);
    let r1 = number(v.changed_properties.len(), 2) + r2;
    lemma_put_text(v.interface_name, r1);
    let tag: Seq<u8> = seq![79u8, 77, 68, 66, 85, 83, 69, 49];
    assert(SIGNAL_MAGIC@ =~= tag);
    let f0 = words(v.interface_name);
    let f1 = number(v.changed_properties.len(), 2);
    let f2 = each(v.changed_properties, one_property());
    let f3 = number(v.invalidated_properties.len(), 2);
    let f4 = all_words(v.invalidated_properties);
    lemma_joined(tag, f0, r1);
    lemma_joined(tag + f0, f1, r2);
    lemma_joined(tag + f0 + f1, f2, r3);
    lemma_joined(tag + f0 + f1 + f2, f3, r4);
    lemma_joined(tag + f0 + f1 + f2 + f3, f4, Seq::empty());
    assert(tag + f0 + f1 + f2 + f3 + f4 + Seq::empty() =~= tag + f0 + f1 + f2 + f3 + f4);
}

proof fn lemma_property(item: DbusPropertyView, behind: Seq<u8>)
    ensures
        dbus::property_put()(item, behind) == property(item) + behind,
{
    broadcast use group_fields;

    broadcast use {lemma_put_i16, lemma_put_i32};

    assert(item.value.put(behind) =~= bus_value(item.value) + behind);
    assert(words(item.name) + (bus_value(item.value) + behind) =~= property(item) + behind);
}

} // verus!
