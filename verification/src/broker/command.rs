//! Command payloads.
use vstd::prelude::*;

use crate::wire;
use crate::wire::{Decoder, Encoder, Parsed, SchemaError};

verus! {

/// `OMCMDQ01`
pub const COMMAND_REQUEST_MAGIC: [u8; 8] = [79, 77, 67, 77, 68, 81, 48, 49];

/// `OMCMDO01`
pub const COMMAND_OPENED_MAGIC: [u8; 8] = [79, 77, 67, 77, 68, 79, 48, 49];

/// `OMCMDE01`
pub const COMMAND_EVENT_MAGIC: [u8; 8] = [79, 77, 67, 77, 68, 69, 48, 49];

pub const MAX_COMMAND_VALUES: usize = 32;

pub const MAX_COMMAND_OUTPUT_CHUNK_BYTES: usize = 12288;

/// The running command that a request was given.
#[derive(Clone, Copy, Debug, PartialEq, Eq)]
pub struct CommandOpened {
    pub resource_id: u64,
}

impl CommandOpened {
    /// The bytes of this payload, or why it has none.
    pub open spec fn payload(self) -> Result<Seq<u8>, SchemaError> {
        if self.resource_id == 0 {
            Err(SchemaError::Malformed)
        } else {
            wire::sealed(COMMAND_OPENED_MAGIC@ + wire::put_u64(self.resource_id, Seq::empty()))
        }
    }

    /// What is read from `bytes`.
    pub open spec fn read(bytes: Seq<u8>) -> Result<Self, SchemaError> {
        match wire::parse_open(bytes, COMMAND_OPENED_MAGIC@) {
            Err(e) => Err(e),
            Ok(s0) => {
                match wire::parse_u64(s0) {
                    Err(e) => Err(e),
                    Ok((resource_id, s1)) => {
                        match wire::parse_end(s1, ()) {
                            Err(e) => Err(e),
                            Ok(_) => if resource_id == 0 {
                                Err(SchemaError::Malformed)
                            } else {
                                Ok(Self { resource_id })
                            },
                        }
                    },
                }
            },
        }
    }

    /// What was written is read back.
    pub proof fn round_trip(self)
        ensures
            self.payload() matches Ok(bytes) ==> Self::read(bytes) == Ok::<Self, SchemaError>(self),
    {
        broadcast use wire::group_wire;

        wire::lemma_pow256();
    }

    /// What is read has no other payload than the bytes it was read from.
    pub proof fn canonical(bytes: Seq<u8>)
        ensures
            Self::read(bytes) matches Ok(value) ==> value.payload() == Ok::<Seq<u8>, SchemaError>(
                bytes,
            ),
    {
        broadcast use wire::group_wire;

    }

    pub fn encode(self) -> (payload: Result<Vec<u8>, SchemaError>)
        ensures
            wire::outcome(payload) == self.payload(),
    {
        if self.resource_id == 0 {
            return Err(SchemaError::Malformed);
        }
        let mut encoder: Encoder = Encoder::new(&COMMAND_OPENED_MAGIC);
        encoder.u64(self.resource_id);
        encoder.finish()
    }

    pub fn decode(bytes: &[u8]) -> (value: Result<Self, SchemaError>)
        ensures
            value == CommandOpened::read(bytes@),
    {
        let mut decoder: Decoder<'_> = Decoder::new(bytes, &COMMAND_OPENED_MAGIC)?;
        let resource_id: u64 = decoder.u64()?;
        decoder.finish()?;
        if resource_id == 0 {
            return Err(SchemaError::Malformed);
        }
        Ok(CommandOpened { resource_id })
    }
}

/// A named argument of a command.
#[allow(inconsistent_fields)]
#[derive(Clone, Debug, PartialEq, Eq)]
pub enum CommandValue {
    Integer { name: String, value: i64 },
    FixedEnum { name: String, value: String },
    Text { name: String, value: String },
    ApprovedFile { name: String, path: String },
    Url { name: String, value: String },
}

/// [`CommandValue`], field by field.
#[allow(inconsistent_fields)]
#[verifier::ext_equal]
pub enum CommandValueView {
    Integer { name: Seq<char>, value: i64 },
    FixedEnum { name: Seq<char>, value: Seq<char> },
    Text { name: Seq<char>, value: Seq<char> },
    ApprovedFile { name: Seq<char>, path: Seq<char> },
    Url { name: Seq<char>, value: Seq<char> },
}

impl View for CommandValue {
    type V = CommandValueView;

    open spec fn view(&self) -> CommandValueView {
        match *self {
            CommandValue::Integer { name, value } => CommandValueView::Integer {
                name: name@,
                value,
            },
            CommandValue::FixedEnum { name, value } => CommandValueView::FixedEnum {
                name: name@,
                value: value@,
            },
            CommandValue::Text { name, value } => CommandValueView::Text {
                name: name@,
                value: value@,
            },
            CommandValue::ApprovedFile { name, path } => CommandValueView::ApprovedFile {
                name: name@,
                path: path@,
            },
            CommandValue::Url { name, value } => CommandValueView::Url {
                name: name@,
                value: value@,
            },
        }
    }
}

impl CommandValueView {
    /// The name of the argument.
    pub open spec fn name(self) -> Seq<char> {
        match self {
            CommandValueView::Integer { name, .. } => name,
            CommandValueView::FixedEnum { name, .. } => name,
            CommandValueView::Text { name, .. } => name,
            CommandValueView::ApprovedFile { name, .. } => name,
            CommandValueView::Url { name, .. } => name,
        }
    }

    /// Both texts of the argument fit.
    pub open spec fn fits(self) -> bool {
        match self {
            CommandValueView::Integer { name, .. } => wire::text_fits(name),
            CommandValueView::FixedEnum { name, value } => wire::text_fits(name)
                && wire::text_fits(value),
            CommandValueView::Text { name, value } => wire::text_fits(name)
                && wire::text_fits(value),
            CommandValueView::ApprovedFile { name, path } => wire::text_fits(name)
                && wire::text_fits(path),
            CommandValueView::Url { name, value } => wire::text_fits(name)
                && wire::text_fits(value),
        }
    }

    /// What follows the byte that tells the kinds of argument apart.
    pub open spec fn parse_step(tag: u8, s: Seq<u8>) -> Parsed<Self> {
        match wire::parse_text(s) {
            Err(e) => if tag <= 4 {
                Err(e)
            } else {
                Err(SchemaError::Malformed)
            },
            Ok((name, s1)) => if tag == 0 {
                match wire::parse_i64(s1) {
                    Err(e) => Err(e),
                    Ok((value, rest)) => Ok((CommandValueView::Integer { name, value }, rest)),
                }
            } else if tag <= 4 {
                match wire::parse_text(s1) {
                    Err(e) => Err(e),
                    Ok((text, rest)) => Ok((Self::texts(tag, name, text), rest)),
                }
            } else {
                Err(SchemaError::Malformed)
            },
        }
    }

    /// The argument with two texts that a byte stands for.
    pub open spec fn texts(tag: u8, name: Seq<char>, text: Seq<char>) -> Self {
        if tag == 1 {
            CommandValueView::FixedEnum { name, value: text }
        } else if tag == 2 {
            CommandValueView::Text { name, value: text }
        } else if tag == 3 {
            CommandValueView::ApprovedFile { name, path: text }
        } else {
            CommandValueView::Url { name, value: text }
        }
    }

    /// The bytes of this argument.
    pub open spec fn put(self, rest: Seq<u8>) -> Seq<u8> {
        match self {
            CommandValueView::Integer { name, value } => wire::put_u8(
                0,
                wire::put_text(name, wire::put_i64(value, rest)),
            ),
            CommandValueView::FixedEnum { name, value } => wire::put_u8(
                1,
                wire::put_text(name, wire::put_text(value, rest)),
            ),
            CommandValueView::Text { name, value } => wire::put_u8(
                2,
                wire::put_text(name, wire::put_text(value, rest)),
            ),
            CommandValueView::ApprovedFile { name, path } => wire::put_u8(
                3,
                wire::put_text(name, wire::put_text(path, rest)),
            ),
            CommandValueView::Url { name, value } => wire::put_u8(
                4,
                wire::put_text(name, wire::put_text(value, rest)),
            ),
        }
    }
}

impl CommandValue {
    fn name(&self) -> (name: &str)
        ensures
            name@ == self@.name(),
    {
        match self {
            CommandValue::Integer { name, .. } => name.as_str(),
            CommandValue::FixedEnum { name, .. } => name.as_str(),
            CommandValue::Text { name, .. } => name.as_str(),
            CommandValue::ApprovedFile { name, .. } => name.as_str(),
            CommandValue::Url { name, .. } => name.as_str(),
        }
    }
}

/// No argument before has that name.
pub open spec fn name_is_new(done: Seq<CommandValueView>, name: Seq<char>) -> bool {
    forall|i: int| 0 <= i < done.len() ==> #[trigger] done[i].name() != name
}

/// Reads one argument. Two arguments may not have the same name.
pub open spec fn value_item() -> wire::ItemParser<CommandValueView> {
    |done: Seq<CommandValueView>, s: Seq<u8>|
        match wire::parse_u8(s) {
            Err(e) => Err(e),
            Ok((tag, s1)) => match CommandValueView::parse_step(tag, s1) {
                Err(e) => Err(e),
                Ok((value, rest)) => if name_is_new(done, value.name()) {
                    Ok((value, rest))
                } else {
                    Err(SchemaError::Malformed)
                },
            },
        }
}

pub open spec fn value_put() -> wire::ItemPut<CommandValueView> {
    |value: CommandValueView, rest: Seq<u8>| value.put(rest)
}

pub open spec fn value_check() -> wire::ItemCheck<CommandValueView> {
    |done: Seq<CommandValueView>, value: CommandValueView|
        if !name_is_new(done, value.name()) {
            Err(SchemaError::Malformed)
        } else if !value.fits() {
            Err(SchemaError::LimitExceeded)
        } else {
            Ok(())
        }
}

proof fn lemma_parse_put_value(value: CommandValueView, rest: Seq<u8>)
    requires
        value.fits(),
    ensures
        wire::parse_u8(value.put(rest)) matches Ok((tag, s)) && CommandValueView::parse_step(tag, s)
            == Ok::<(CommandValueView, Seq<u8>), SchemaError>((value, rest)),
{
    broadcast use wire::group_wire;

    match value {
        CommandValueView::Integer { name, value: number } => {
            assert(wire::parse_text(wire::put_text(name, wire::put_i64(number, rest))) is Ok);
        },
        CommandValueView::FixedEnum { name, value } => {
            assert(wire::parse_text(wire::put_text(name, wire::put_text(value, rest))) is Ok);
        },
        CommandValueView::Text { name, value } => {
            assert(wire::parse_text(wire::put_text(name, wire::put_text(value, rest))) is Ok);
        },
        CommandValueView::ApprovedFile { name, path } => {
            assert(wire::parse_text(wire::put_text(name, wire::put_text(path, rest))) is Ok);
        },
        CommandValueView::Url { name, value } => {
            assert(wire::parse_text(wire::put_text(name, wire::put_text(value, rest))) is Ok);
        },
    }
}

proof fn lemma_put_parse_value(s: Seq<u8>)
    ensures
        wire::parse_u8(s) matches Ok((tag, s1)) ==> (CommandValueView::parse_step(tag, s1) matches Ok(
            (value, rest),
        ) ==> s == value.put(rest) && value.fits()),
{
    broadcast use wire::group_wire;

    if wire::parse_u8(s) is Ok {
        let (tag, s1) = wire::parse_u8(s)->Ok_0;
        if CommandValueView::parse_step(tag, s1) is Ok {
            let (name, s2) = wire::parse_text(s1)->Ok_0;
            assert(s1 == wire::put_text(name, s2));
            if tag == 0 {
                assert(wire::parse_i64(s2) is Ok);
            } else {
                assert(wire::parse_text(s2) is Ok);
            }
        }
    }
}

proof fn lemma_value_item()
    ensures
        wire::item_reads_back(value_item(), value_put(), value_check()),
        wire::item_canonical(value_item(), value_put(), value_check()),
{
    assert forall|done: Seq<CommandValueView>, value: CommandValueView, rest: Seq<u8>|
        value_check()(done, value) is Ok implies #[trigger] value_item()(
        done,
        value_put()(value, rest),
    ) == Ok::<(CommandValueView, Seq<u8>), SchemaError>((value, rest)) by {
        lemma_parse_put_value(value, rest);
    }
    assert forall|done: Seq<CommandValueView>, s: Seq<u8>|
        (#[trigger] value_item()(done, s)) matches Ok((value, rest)) implies {
        let (value, rest) = value_item()(done, s)->Ok_0;
        s == value_put()(value, rest) && value_check()(done, value) is Ok
    } by {
        lemma_put_parse_value(s);
    }
}

fn has_name(values: &Vec<CommandValue>, count: usize, name: &str) -> (found: bool)
    requires
        count <= values@.len(),
    ensures
        found == !name_is_new(value_views(values@).subrange(0, count as int), name@),
{
    let mut i: usize = 0;
    while i < count
        invariant
            i <= count <= values@.len(),
            forall|j: int| 0 <= j < i ==> values@[j]@.name() != name@,
        decreases count - i,
    {
        if crate::text::same(values[i].name(), name) {
            proof {
                let seen = value_views(values@).subrange(0, count as int);
                assert(seen[i as int].name() == name@);
            }
            return true;
        }
        i += 1;
    }
    false
}

fn write_value(encoder: &mut Encoder, values: &Vec<CommandValue>, i: usize) -> (done: Result<
    (),
    SchemaError,
>)
    requires
        i < values@.len(),
    ensures
        done == value_check()(
            value_views(values@).subrange(0, i as int),
            value_views(values@)[i as int],
        ),
        done is Ok ==> forall|rest: Seq<u8>|
            #[trigger] (final(encoder).bytes@ + rest) == old(encoder).bytes@ + value_put()(
                value_views(values@)[i as int],
                rest,
            ),
{
    if has_name(values, i, values[i].name()) {
        return Err(SchemaError::Malformed);
    }
    match &values[i] {
        CommandValue::Integer { name, value } => {
            encoder.byte(0);
            encoder.string(name.as_str())?;
            encoder.i64(*value);
        },
        CommandValue::FixedEnum { name, value } => {
            encoder.byte(1);
            encoder.string(name.as_str())?;
            encoder.string(value.as_str())?;
        },
        CommandValue::Text { name, value } => {
            encoder.byte(2);
            encoder.string(name.as_str())?;
            encoder.string(value.as_str())?;
        },
        CommandValue::ApprovedFile { name, path } => {
            encoder.byte(3);
            encoder.string(name.as_str())?;
            encoder.string(path.as_str())?;
        },
        CommandValue::Url { name, value } => {
            encoder.byte(4);
            encoder.string(name.as_str())?;
            encoder.string(value.as_str())?;
        },
    }
    Ok(())
}

fn read_value(decoder: &mut Decoder<'_>, values: &Vec<CommandValue>) -> (value: Result<
    CommandValue,
    SchemaError,
>)
    ensures
        wire::reads_view(
            value,
            final(decoder).remaining@,
            value_item()(value_views(values@), old(decoder).remaining@),
        ),
{
    let tag: u8 = decoder.byte()?;
    if tag > 4 {
        return Err(SchemaError::Malformed);
    }
    let name: String = decoder.string()?;
    let value: CommandValue = match tag {
        0 => {
            let value: i64 = decoder.i64()?;
            CommandValue::Integer { name, value }
        },
        1 => {
            let value: String = decoder.string()?;
            CommandValue::FixedEnum { name, value }
        },
        2 => {
            let value: String = decoder.string()?;
            CommandValue::Text { name, value }
        },
        3 => {
            let path: String = decoder.string()?;
            CommandValue::ApprovedFile { name, path }
        },
        _ => {
            let value: String = decoder.string()?;
            CommandValue::Url { name, value }
        },
    };
    proof {
        assert(value_views(values@).subrange(0, values@.len() as int) =~= value_views(values@));
    }
    if has_name(values, values.len(), value.name()) {
        return Err(SchemaError::Malformed);
    }
    Ok(value)
}

/// The arguments of a command, seen one by one.
pub open spec fn value_views(values: Seq<CommandValue>) -> Seq<CommandValueView> {
    Seq::new(values.len(), |i: int| values[i]@)
}

fn write_values(
    encoder: &mut Encoder,
    values: &Vec<CommandValue>,
) -> (done: Result<(), SchemaError>)
    ensures
        done == wire::first_error(value_views(values@), 0, value_check()),
        done is Ok ==> forall|rest: Seq<u8>|
            #[trigger] (final(encoder).bytes@ + rest) == old(encoder).bytes@ + wire::put_list(
                value_views(values@),
                value_put(),
                rest,
            ),
{
    let mut i: usize = 0;
    let ghost start = encoder.bytes@;
    let ghost all = value_views(values@);
    proof {
        assert forall|rest: Seq<u8>| #[trigger]
            (encoder.bytes@ + rest) == start + wire::put_list(
                all.subrange(0, 0),
                value_put(),
                rest,
            ) by {}
    }
    while i < values.len()
        invariant
            i <= values@.len(),
            all == value_views(values@),
            forall|rest: Seq<u8>|
                #[trigger] (encoder.bytes@ + rest) == start + wire::put_list(
                    all.subrange(0, i as int),
                    value_put(),
                    rest,
                ),
            wire::first_error(all, 0, value_check()) == wire::first_error(
                all,
                i as nat,
                value_check(),
            ),
        decreases values@.len() - i,
    {
        write_value(encoder, values, i)?;
        proof {
            let next = all.subrange(0, i + 1);
            assert(next =~= all.subrange(0, i as int).push(all[i as int]));
            assert forall|rest: Seq<u8>| #[trigger]
                (encoder.bytes@ + rest) == start + wire::put_list(next, value_put(), rest) by {
                wire::lemma_put_list_push(
                    all.subrange(0, i as int),
                    all[i as int],
                    value_put(),
                    rest,
                );
            }
        }
        i += 1;
    }
    proof {
        assert(all.subrange(0, i as int) =~= all);
    }
    Ok(())
}

fn read_values(decoder: &mut Decoder<'_>, count: usize) -> (value: Result<
    Vec<CommandValue>,
    SchemaError,
>)
    ensures
        match wire::parse_list(Seq::empty(), old(decoder).remaining@, count as nat, value_item()) {
            Ok((items, rest)) => (value matches Ok(v) && value_views(v@) == items)
                && final(decoder).remaining@ == rest,
            Err(e) => value == Err::<Vec<CommandValue>, SchemaError>(e),
        },
{
    let mut values: Vec<CommandValue> = Vec::new();
    let mut i: usize = 0;
    let ghost start = decoder.remaining@;
    proof {
        assert(value_views(values@) =~= Seq::<CommandValueView>::empty());
    }
    while i < count
        invariant
            i <= count,
            start == old(decoder).remaining@,
            wire::parse_list(Seq::empty(), start, count as nat, value_item()) == wire::parse_list(
                value_views(values@),
                decoder.remaining@,
                (count - i) as nat,
                value_item(),
            ),
        decreases count - i,
    {
        let value: CommandValue = read_value(decoder, &values)?;
        let ghost before = values@;
        values.push(value);
        proof {
            assert(value_views(values@) =~= value_views(before).push(value@));
        }
        i += 1;
    }
    Ok(values)
}

/// Runs a granted command.
#[derive(Clone, Debug, PartialEq, Eq)]
pub struct CommandRunRequest {
    pub command_id: String,
    pub values: Vec<CommandValue>,
}

/// [`CommandRunRequest`], field by field.
#[verifier::ext_equal]
pub struct CommandRunRequestView {
    pub command_id: Seq<char>,
    pub values: Seq<CommandValueView>,
}

impl View for CommandRunRequest {
    type V = CommandRunRequestView;

    open spec fn view(&self) -> CommandRunRequestView {
        CommandRunRequestView { command_id: self.command_id@, values: value_views(self.values@) }
    }
}

impl CommandRunRequestView {
    /// The bytes of this payload, or why it has none.
    pub open spec fn payload(self) -> Result<Seq<u8>, SchemaError> {
        if self.values.len() > MAX_COMMAND_VALUES || !wire::text_fits(self.command_id) {
            Err(SchemaError::LimitExceeded)
        } else {
            match wire::first_error(self.values, 0, value_check()) {
                Err(e) => Err(e),
                Ok(_) => wire::sealed(
                    COMMAND_REQUEST_MAGIC@ + wire::put_text(
                        self.command_id,
                        wire::put_u16(
                            self.values.len() as u16,
                            wire::put_list(self.values, value_put(), Seq::empty()),
                        ),
                    ),
                ),
            }
        }
    }

    /// What is read from `bytes`.
    pub open spec fn read(bytes: Seq<u8>) -> Result<Self, SchemaError> {
        match wire::parse_open(bytes, COMMAND_REQUEST_MAGIC@) {
            Err(e) => Err(e),
            Ok(s0) => match wire::parse_text(s0) {
                Err(e) => Err(e),
                Ok((command_id, s1)) => match wire::parse_u16(s1) {
                    Err(e) => Err(e),
                    Ok((count, s2)) => if count > MAX_COMMAND_VALUES {
                        Err(SchemaError::LimitExceeded)
                    } else {
                        match wire::parse_list(Seq::empty(), s2, count as nat, value_item()) {
                            Err(e) => Err(e),
                            Ok((values, s3)) => wire::parse_end(s3, Self { command_id, values }),
                        }
                    },
                },
            },
        }
    }

    /// What was written is read back.
    pub proof fn round_trip(self)
        ensures
            self.payload() matches Ok(bytes) ==> Self::read(bytes) == Ok::<Self, SchemaError>(self),
    {
        broadcast use wire::group_wire;

        if self.payload() is Ok {
            lemma_value_item();
            wire::lemma_list_reads_back(
                self.values,
                Seq::empty(),
                value_item(),
                value_put(),
                value_check(),
            );
        }
    }

    /// What is read has no other payload than the bytes it was read from.
    pub proof fn canonical(bytes: Seq<u8>)
        ensures
            Self::read(bytes) matches Ok(value) ==> value.payload() == Ok::<Seq<u8>, SchemaError>(
                bytes,
            ),
    {
        broadcast use wire::group_wire;

        if Self::read(bytes) is Ok {
            let s0 = wire::parse_open(bytes, COMMAND_REQUEST_MAGIC@)->Ok_0;
            let s1 = wire::parse_text(s0)->Ok_0.1;
            let (count, s2) = wire::parse_u16(s1)->Ok_0;
            lemma_value_item();
            wire::lemma_list_canonical(
                s2,
                count as nat,
                value_item(),
                value_put(),
                value_check(),
            );
        }
    }
}

impl CommandRunRequest {
    pub fn encode(&self) -> (payload: Result<Vec<u8>, SchemaError>)
        ensures
            wire::outcome(payload) == self@.payload(),
    {
        if self.values.len() > MAX_COMMAND_VALUES {
            return Err(SchemaError::LimitExceeded);
        }
        let mut encoder: Encoder = Encoder::new(&COMMAND_REQUEST_MAGIC);
        encoder.string(self.command_id.as_str())?;
        encoder.u16(self.values.len() as u16);
        write_values(&mut encoder, &self.values)?;
        encoder.finish()
    }

    pub fn decode(bytes: &[u8]) -> (value: Result<Self, SchemaError>)
        ensures
            wire::outcome(value) == CommandRunRequestView::read(bytes@),
    {
        let mut decoder: Decoder<'_> = Decoder::new(bytes, &COMMAND_REQUEST_MAGIC)?;
        let command_id: String = decoder.string()?;
        let count: u16 = decoder.u16()?;
        if count as usize > MAX_COMMAND_VALUES {
            return Err(SchemaError::LimitExceeded);
        }
        let values: Vec<CommandValue> = read_values(&mut decoder, count as usize)?;
        decoder.finish()?;
        Ok(CommandRunRequest { command_id, values })
    }
}

/// Output or the end of a running command.
#[derive(Clone, Debug, PartialEq, Eq)]
pub enum CommandEvent {
    Stdout(Vec<u8>),
    Stderr(Vec<u8>),
    Exited {
        exit_code: Option<i32>,
        signal: Option<i32>,
        stdout_bytes: u64,
        stderr_bytes: u64,
    },
}

/// [`CommandEvent`], field by field.
#[verifier::ext_equal]
pub enum CommandEventView {
    Stdout(Seq<u8>),
    Stderr(Seq<u8>),
    Exited {
        exit_code: Option<i32>,
        signal: Option<i32>,
        stdout_bytes: u64,
        stderr_bytes: u64,
    },
}

impl View for CommandEvent {
    type V = CommandEventView;

    open spec fn view(&self) -> CommandEventView {
        match *self {
            CommandEvent::Stdout(bytes) => CommandEventView::Stdout(bytes@),
            CommandEvent::Stderr(bytes) => CommandEventView::Stderr(bytes@),
            CommandEvent::Exited { exit_code, signal, stdout_bytes, stderr_bytes } => {
                CommandEventView::Exited { exit_code, signal, stdout_bytes, stderr_bytes }
            },
        }
    }
}

/// A command ends with an exit code or by a signal, never both.
pub open spec fn one_reason(exit_code: Option<i32>, signal: Option<i32>) -> bool {
    exit_code is Some != signal is Some
}

impl CommandEventView {
    /// The bytes of this payload, or why it has none.
    pub open spec fn payload(self) -> Result<Seq<u8>, SchemaError> {
        match self {
            CommandEventView::Stdout(bytes) => Self::output(0, bytes),
            CommandEventView::Stderr(bytes) => Self::output(1, bytes),
            CommandEventView::Exited { exit_code, signal, stdout_bytes, stderr_bytes } => {
                if !one_reason(exit_code, signal) {
                    Err(SchemaError::Malformed)
                } else {
                    wire::sealed(
                        COMMAND_EVENT_MAGIC@ + wire::put_u8(
                            2,
                            wire::put_optional_i32(
                                exit_code,
                                wire::put_optional_i32(
                                    signal,
                                    wire::put_u64(
                                        stdout_bytes,
                                        wire::put_u64(stderr_bytes, Seq::empty()),
                                    ),
                                ),
                            ),
                        ),
                    )
                }
            },
        }
    }

    /// The bytes of a chunk of output.
    pub open spec fn output(tag: u8, bytes: Seq<u8>) -> Result<Seq<u8>, SchemaError> {
        if bytes.len() == 0 || bytes.len() > MAX_COMMAND_OUTPUT_CHUNK_BYTES {
            Err(SchemaError::LimitExceeded)
        } else {
            wire::sealed(
                COMMAND_EVENT_MAGIC@ + wire::put_u8(tag, wire::put_bytes(bytes, 8, Seq::empty())),
            )
        }
    }

    /// What follows the byte that tells the events apart.
    pub open spec fn parse_step(tag: u8, s: Seq<u8>) -> Parsed<Self> {
        if tag == 0 || tag == 1 {
            match wire::parse_bytes(s, 8, 1, MAX_COMMAND_OUTPUT_CHUNK_BYTES as nat) {
                Err(e) => Err(e),
                Ok((bytes, rest)) => if tag == 0 {
                    Ok((CommandEventView::Stdout(bytes), rest))
                } else {
                    Ok((CommandEventView::Stderr(bytes), rest))
                },
            }
        } else if tag == 2 {
            match wire::parse_optional_i32(s) {
                Err(e) => Err(e),
                Ok((exit_code, s1)) => match wire::parse_optional_i32(s1) {
                    Err(e) => Err(e),
                    Ok((signal, s2)) => if !one_reason(exit_code, signal) {
                        Err(SchemaError::Malformed)
                    } else {
                        match wire::parse_u64(s2) {
                            Err(e) => Err(e),
                            Ok((stdout_bytes, s3)) => match wire::parse_u64(s3) {
                                Err(e) => Err(e),
                                Ok((stderr_bytes, rest)) => Ok(
                                    (
                                        CommandEventView::Exited {
                                            exit_code,
                                            signal,
                                            stdout_bytes,
                                            stderr_bytes,
                                        },
                                        rest,
                                    ),
                                ),
                            },
                        }
                    },
                },
            }
        } else {
            Err(SchemaError::Malformed)
        }
    }

    /// What is read from `bytes`.
    pub open spec fn read(bytes: Seq<u8>) -> Result<Self, SchemaError> {
        match wire::parse_open(bytes, COMMAND_EVENT_MAGIC@) {
            Err(e) => Err(e),
            Ok(s0) => match wire::parse_u8(s0) {
                Err(e) => Err(e),
                Ok((tag, s1)) => match Self::parse_step(tag, s1) {
                    Err(e) => Err(e),
                    Ok((value, rest)) => wire::parse_end(rest, value),
                },
            },
        }
    }

    /// What was written is read back.
    pub proof fn round_trip(self)
        ensures
            self.payload() matches Ok(bytes) ==> Self::read(bytes) == Ok::<Self, SchemaError>(self),
    {
        broadcast use wire::group_wire;

        wire::lemma_pow256();
    }

    /// What is read has no other payload than the bytes it was read from.
    pub proof fn canonical(bytes: Seq<u8>)
        ensures
            Self::read(bytes) matches Ok(value) ==> value.payload() == Ok::<Seq<u8>, SchemaError>(
                bytes,
            ),
    {
        broadcast use wire::group_wire;

    }
}

impl CommandEvent {
    pub fn encode(&self) -> (payload: Result<Vec<u8>, SchemaError>)
        ensures
            wire::outcome(payload) == self@.payload(),
    {
        let mut encoder: Encoder = Encoder::new(&COMMAND_EVENT_MAGIC);
        match self {
            CommandEvent::Stdout(bytes) => {
                if bytes.len() == 0 || bytes.len() > MAX_COMMAND_OUTPUT_CHUNK_BYTES {
                    return Err(SchemaError::LimitExceeded);
                }
                encoder.byte(0);
                encoder.chunk(bytes.as_slice());
            },
            CommandEvent::Stderr(bytes) => {
                if bytes.len() == 0 || bytes.len() > MAX_COMMAND_OUTPUT_CHUNK_BYTES {
                    return Err(SchemaError::LimitExceeded);
                }
                encoder.byte(1);
                encoder.chunk(bytes.as_slice());
            },
            CommandEvent::Exited { exit_code, signal, stdout_bytes, stderr_bytes } => {
                if exit_code.is_some() == signal.is_some() {
                    return Err(SchemaError::Malformed);
                }
                encoder.byte(2);
                encoder.optional_i32(*exit_code);
                encoder.optional_i32(*signal);
                encoder.u64(*stdout_bytes);
                encoder.u64(*stderr_bytes);
            },
        }
        encoder.finish()
    }

    pub fn decode(bytes: &[u8]) -> (value: Result<Self, SchemaError>)
        ensures
            wire::outcome(value) == CommandEventView::read(bytes@),
    {
        let mut decoder: Decoder<'_> = Decoder::new(bytes, &COMMAND_EVENT_MAGIC)?;
        let tag: u8 = decoder.byte()?;
        let event: CommandEvent = match tag {
            0 => CommandEvent::Stdout(decoder.chunk(1, MAX_COMMAND_OUTPUT_CHUNK_BYTES)?),
            1 => CommandEvent::Stderr(decoder.chunk(1, MAX_COMMAND_OUTPUT_CHUNK_BYTES)?),
            2 => {
                let exit_code: Option<i32> = decoder.optional_i32()?;
                let signal: Option<i32> = decoder.optional_i32()?;
                if exit_code.is_some() == signal.is_some() {
                    return Err(SchemaError::Malformed);
                }
                let stdout_bytes: u64 = decoder.u64()?;
                let stderr_bytes: u64 = decoder.u64()?;
                CommandEvent::Exited { exit_code, signal, stdout_bytes, stderr_bytes }
            },
            _ => {
                return Err(SchemaError::Malformed);
            },
        };
        decoder.finish()?;
        Ok(event)
    }
}

} // verus!
