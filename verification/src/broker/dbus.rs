//! D-Bus payloads.
use vstd::prelude::*;
use vstd::string::StringExecFns;

use crate::wire;
use crate::wire::{Decoder, Encoder, Parsed, SchemaError};

verus! {

/// `OMDBUSC1`
pub const CALL_MAGIC: [u8; 8] = [79, 77, 68, 66, 85, 83, 67, 49];

/// `OMDBUSR1`
pub const REPLY_MAGIC: [u8; 8] = [79, 77, 68, 66, 85, 83, 82, 49];

/// `OMDBUSS1`
pub const SUBSCRIPTION_MAGIC: [u8; 8] = [79, 77, 68, 66, 85, 83, 83, 49];

/// `OMDBUSO1`
pub const OPENED_MAGIC: [u8; 8] = [79, 77, 68, 66, 85, 83, 79, 49];

/// `OMDBUSE1`
pub const SIGNAL_MAGIC: [u8; 8] = [79, 77, 68, 66, 85, 83, 69, 49];

pub const MAX_ARGUMENTS: usize = 32;

pub const MAX_PROPERTIES: usize = 64;

/// The bus that a message travels on.
#[derive(Clone, Copy, Debug, PartialEq, Eq, Structural)]
pub enum DbusBus {
    Session,
    System,
}

impl DbusBus {
    /// The byte that stands for this value.
    pub open spec fn code(self) -> u8 {
        match self {
            DbusBus::Session => 0,
            DbusBus::System => 1,
        }
    }

    pub open spec fn of_code(code: u8) -> Result<Self, SchemaError> {
        if code == 0 {
            Ok(DbusBus::Session)
        } else if code == 1 {
            Ok(DbusBus::System)
        } else {
            Err(SchemaError::Malformed)
        }
    }

    /// Reads the byte of a value.
    pub open spec fn parse(s: Seq<u8>) -> Parsed<Self> {
        match wire::parse_u8(s) {
            Err(e) => Err(e),
            Ok((code, rest)) => match Self::of_code(code) {
                Err(e) => Err(e),
                Ok(value) => Ok((value, rest)),
            },
        }
    }

    pub(crate) fn to_code(self) -> (code: u8)
        ensures
            code == self.code(),
    {
        match self {
            DbusBus::Session => 0,
            DbusBus::System => 1,
        }
    }

    pub(crate) fn from_code(code: u8) -> (value: Result<Self, SchemaError>)
        ensures
            value == Self::of_code(code),
    {
        match code {
            0 => Ok(DbusBus::Session),
            1 => Ok(DbusBus::System),
            _ => Err(SchemaError::Malformed),
        }
    }
}

/// What a call answers.
#[derive(Clone, Copy, Debug, PartialEq, Eq, Structural)]
pub enum DbusReplyKind {
    Unit,
    VariantString,
    VariantI64,
}

impl DbusReplyKind {
    /// The byte that stands for this value.
    pub open spec fn code(self) -> u8 {
        match self {
            DbusReplyKind::Unit => 0,
            DbusReplyKind::VariantString => 1,
            DbusReplyKind::VariantI64 => 2,
        }
    }

    pub open spec fn of_code(code: u8) -> Result<Self, SchemaError> {
        if code == 0 {
            Ok(DbusReplyKind::Unit)
        } else if code == 1 {
            Ok(DbusReplyKind::VariantString)
        } else if code == 2 {
            Ok(DbusReplyKind::VariantI64)
        } else {
            Err(SchemaError::Malformed)
        }
    }

    /// Reads the byte of a value.
    pub open spec fn parse(s: Seq<u8>) -> Parsed<Self> {
        match wire::parse_u8(s) {
            Err(e) => Err(e),
            Ok((code, rest)) => match Self::of_code(code) {
                Err(e) => Err(e),
                Ok(value) => Ok((value, rest)),
            },
        }
    }

    pub(crate) fn to_code(self) -> (code: u8)
        ensures
            code == self.code(),
    {
        match self {
            DbusReplyKind::Unit => 0,
            DbusReplyKind::VariantString => 1,
            DbusReplyKind::VariantI64 => 2,
        }
    }

    pub(crate) fn from_code(code: u8) -> (value: Result<Self, SchemaError>)
        ensures
            value == Self::of_code(code),
    {
        match code {
            0 => Ok(DbusReplyKind::Unit),
            1 => Ok(DbusReplyKind::VariantString),
            2 => Ok(DbusReplyKind::VariantI64),
            _ => Err(SchemaError::Malformed),
        }
    }
}

/// One exact signal subscription.
#[derive(Clone, Debug, PartialEq, Eq)]
pub struct DbusSubscription {
    pub bus: DbusBus,
    pub sender: String,
    pub path: String,
    pub interface: String,
    pub member: String,
    pub signature: String,
    pub argument_zero: Option<String>,
}

/// [`DbusSubscription`], field by field.
#[verifier::ext_equal]
pub struct DbusSubscriptionView {
    pub bus: DbusBus,
    pub sender: Seq<char>,
    pub path: Seq<char>,
    pub interface: Seq<char>,
    pub member: Seq<char>,
    pub signature: Seq<char>,
    pub argument_zero: Option<Seq<char>>,
}

impl View for DbusSubscription {
    type V = DbusSubscriptionView;

    open spec fn view(&self) -> DbusSubscriptionView {
        DbusSubscriptionView {
            bus: self.bus,
            sender: self.sender@,
            path: self.path@,
            interface: self.interface@,
            member: self.member@,
            signature: self.signature@,
            argument_zero: wire::optional_view(self.argument_zero),
        }
    }
}

impl DbusSubscriptionView {
    /// The bytes of this payload, or why it has none.
    pub open spec fn payload(self) -> Result<Seq<u8>, SchemaError> {
        if !(
            wire::text_fits(self.sender) && wire::text_fits(self.path)
                && wire::text_fits(self.interface) && wire::text_fits(self.member)
                && wire::text_fits(self.signature) && wire::optional_text_fits(self.argument_zero)
        ) {
            Err(SchemaError::LimitExceeded)
        } else {
            wire::sealed(
                SUBSCRIPTION_MAGIC@ + wire::put_u8(
                    self.bus.code(),
                    wire::put_text(
                        self.sender,
                        wire::put_text(
                            self.path,
                            wire::put_text(
                                self.interface,
                                wire::put_text(
                                    self.member,
                                    wire::put_text(
                                        self.signature,
                                        wire::put_optional_text(self.argument_zero, Seq::empty()),
                                    ),
                                ),
                            ),
                        ),
                    ),
                ),
            )
        }
    }

    /// What is read from `bytes`.
    pub open spec fn read(bytes: Seq<u8>) -> Result<Self, SchemaError> {
        match wire::parse_open(bytes, SUBSCRIPTION_MAGIC@) {
            Err(e) => Err(e),
            Ok(s0) => {
                match DbusBus::parse(s0) {
                    Err(e) => Err(e),
                    Ok((bus, s1)) => {
                        match wire::parse_text(s1) {
                            Err(e) => Err(e),
                            Ok((sender, s2)) => {
                                match wire::parse_text(s2) {
                                    Err(e) => Err(e),
                                    Ok((path, s3)) => {
                                        match wire::parse_text(s3) {
                                            Err(e) => Err(e),
                                            Ok((interface, s4)) => {
                                                match wire::parse_text(s4) {
                                                    Err(e) => Err(e),
                                                    Ok((member, s5)) => {
                                                        match wire::parse_text(s5) {
                                                            Err(e) => Err(e),
                                                            Ok((signature, s6)) => {
                                                                match wire::parse_optional_text(s6) {
                                                                    Err(e) => Err(e),
                                                                    Ok((argument_zero, s7)) => {
                                                                        wire::parse_end(
                                                                            s7,
                                                                            Self {
                                                                                bus,
                                                                                sender,
                                                                                path,
                                                                                interface,
                                                                                member,
                                                                                signature,
                                                                                argument_zero,
                                                                            },
                                                                        )
                                                                    },
                                                                }
                                                            },
                                                        }
                                                    },
                                                }
                                            },
                                        }
                                    },
                                }
                            },
                        }
                    },
                }
            },
        }
    }

    /// What was written is read back.
    pub proof fn round_trip(self)
        ensures
            self.payload() matches Ok(bytes) ==> Self::read(bytes) == Ok::<Self, SchemaError>(self),
    {
        broadcast use wire::group_wire;

        wire::lemma_pow256();
    }

    /// What is read has no other payload than the bytes it was read from.
    pub proof fn canonical(bytes: Seq<u8>)
        ensures
            Self::read(bytes) matches Ok(value) ==> value.payload() == Ok::<Seq<u8>, SchemaError>(
                bytes,
            ),
    {
        broadcast use wire::group_wire;

    }
}

impl DbusSubscription {
    pub fn encode(&self) -> (payload: Result<Vec<u8>, SchemaError>)
        ensures
            wire::outcome(payload) == self@.payload(),
    {
        let mut encoder: Encoder = Encoder::new(&SUBSCRIPTION_MAGIC);
        encoder.byte(self.bus.to_code());
        encoder.string(self.sender.as_str())?;
        encoder.string(self.path.as_str())?;
        encoder.string(self.interface.as_str())?;
        encoder.string(self.member.as_str())?;
        encoder.string(self.signature.as_str())?;
        encoder.optional_string(&self.argument_zero)?;
        encoder.finish()
    }

    pub fn decode(bytes: &[u8]) -> (value: Result<Self, SchemaError>)
        ensures
            wire::outcome(value) == DbusSubscriptionView::read(bytes@),
    {
        let mut decoder: Decoder<'_> = Decoder::new(bytes, &SUBSCRIPTION_MAGIC)?;
        let bus: DbusBus = DbusBus::from_code(decoder.byte()?)?;
        let sender: String = decoder.string()?;
        let path: String = decoder.string()?;
        let interface: String = decoder.string()?;
        let member: String = decoder.string()?;
        let signature: String = decoder.string()?;
        let argument_zero: Option<String> = decoder.optional_string()?;
        decoder.finish()?;
        Ok(DbusSubscription { bus, sender, path, interface, member, signature, argument_zero })
    }
}

/// The subscription that a request was given.
#[derive(Clone, Copy, Debug, PartialEq, Eq)]
pub struct DbusSubscriptionOpened {
    pub resource_id: u64,
}

impl DbusSubscriptionOpened {
    /// The bytes of this payload, or why it has none.
    pub open spec fn payload(self) -> Result<Seq<u8>, SchemaError> {
        if self.resource_id == 0 {
            Err(SchemaError::Malformed)
        } else {
            wire::sealed(OPENED_MAGIC@ + wire::put_u64(self.resource_id, Seq::empty()))
        }
    }

    /// What is read from `bytes`.
    pub open spec fn read(bytes: Seq<u8>) -> Result<Self, SchemaError> {
        match wire::parse_open(bytes, OPENED_MAGIC@) {
            Err(e) => Err(e),
            Ok(s0) => {
                match wire::parse_u64(s0) {
                    Err(e) => Err(e),
                    Ok((resource_id, s1)) => {
                        match wire::parse_end(s1, ()) {
                            Err(e) => Err(e),
                            Ok(_) => if resource_id == 0 {
                                Err(SchemaError::Malformed)
                            } else {
                                Ok(Self { resource_id })
                            },
                        }
                    },
                }
            },
        }
    }

    /// What was written is read back.
    pub proof fn round_trip(self)
        ensures
            self.payload() matches Ok(bytes) ==> Self::read(bytes) == Ok::<Self, SchemaError>(self),
    {
        broadcast use wire::group_wire;

        wire::lemma_pow256();
    }

    /// What is read has no other payload than the bytes it was read from.
    pub proof fn canonical(bytes: Seq<u8>)
        ensures
            Self::read(bytes) matches Ok(value) ==> value.payload() == Ok::<Seq<u8>, SchemaError>(
                bytes,
            ),
    {
        broadcast use wire::group_wire;

    }

    pub fn encode(self) -> (payload: Result<Vec<u8>, SchemaError>)
        ensures
            wire::outcome(payload) == self.payload(),
    {
        if self.resource_id == 0 {
            return Err(SchemaError::Malformed);
        }
        let mut encoder: Encoder = Encoder::new(&OPENED_MAGIC);
        encoder.u64(self.resource_id);
        encoder.finish()
    }

    pub fn decode(bytes: &[u8]) -> (value: Result<Self, SchemaError>)
        ensures
            value == DbusSubscriptionOpened::read(bytes@),
    {
        let mut decoder: Decoder<'_> = Decoder::new(bytes, &OPENED_MAGIC)?;
        let resource_id: u64 = decoder.u64()?;
        decoder.finish()?;
        if resource_id == 0 {
            return Err(SchemaError::Malformed);
        }
        Ok(DbusSubscriptionOpened { resource_id })
    }
}

/// A method call whose arguments are all strings.
#[derive(Clone, Debug, PartialEq, Eq)]
pub struct DbusCall {
    pub bus: DbusBus,
    pub destination: String,
    pub path: String,
    pub interface: String,
    pub member: String,
    pub arguments: Vec<String>,
    pub reply: DbusReplyKind,
}

/// [`DbusCall`], field by field.
#[verifier::ext_equal]
pub struct DbusCallView {
    pub bus: DbusBus,
    pub destination: Seq<char>,
    pub path: Seq<char>,
    pub interface: Seq<char>,
    pub member: Seq<char>,
    pub arguments: Seq<Seq<char>>,
    pub reply: DbusReplyKind,
}

impl View for DbusCall {
    type V = DbusCallView;

    open spec fn view(&self) -> DbusCallView {
        DbusCallView {
            bus: self.bus,
            destination: self.destination@,
            path: self.path@,
            interface: self.interface@,
            member: self.member@,
            arguments: wire::texts(self.arguments@),
            reply: self.reply,
        }
    }
}

impl DbusCallView {
    /// The bytes of this payload, or why it has none.
    pub open spec fn payload(self) -> Result<Seq<u8>, SchemaError> {
        if self.arguments.len() > MAX_ARGUMENTS {
            Err(SchemaError::LimitExceeded)
        } else if !(wire::text_fits(self.destination) && wire::text_fits(self.path)
            && wire::text_fits(self.interface)
            && wire::text_fits(self.member)) {
            Err(SchemaError::LimitExceeded)
        } else {
            match wire::first_error(self.arguments, 0, wire::text_check()) {
                Err(e) => Err(e),
                Ok(_) => wire::sealed(
                    CALL_MAGIC@ + wire::put_u8(
                        self.bus.code(),
                        wire::put_text(
                            self.destination,
                            wire::put_text(
                                self.path,
                                wire::put_text(
                                    self.interface,
                                    wire::put_text(
                                        self.member,
                                        wire::put_u8(
                                            self.reply.code(),
                                            wire::put_u16(
                                                self.arguments.len() as u16,
                                                wire::put_list(
                                                    self.arguments,
                                                    wire::text_put(),
                                                    Seq::empty(),
                                                ),
                                            ),
                                        ),
                                    ),
                                ),
                            ),
                        ),
                    ),
                ),
            }
        }
    }

    /// What follows the name of the member.
    pub open spec fn parse_tail(s: Seq<u8>) -> Parsed<(DbusReplyKind, Seq<Seq<char>>)> {
        match DbusReplyKind::parse(s) {
            Err(e) => Err(e),
            Ok((reply, s1)) => match wire::parse_u16(s1) {
                Err(e) => Err(e),
                Ok((count, s2)) => if count > MAX_ARGUMENTS {
                    Err(SchemaError::LimitExceeded)
                } else {
                    match wire::parse_list(Seq::empty(), s2, count as nat, wire::text_item()) {
                        Err(e) => Err(e),
                        Ok((arguments, rest)) => Ok(((reply, arguments), rest)),
                    }
                },
            },
        }
    }

    /// What is read from `bytes`.
    pub open spec fn read(bytes: Seq<u8>) -> Result<Self, SchemaError> {
        match wire::parse_open(bytes, CALL_MAGIC@) {
            Err(e) => Err(e),
            Ok(s0) => match DbusBus::parse(s0) {
                Err(e) => Err(e),
                Ok((bus, s1)) => match wire::parse_text(s1) {
                    Err(e) => Err(e),
                    Ok((destination, s2)) => match wire::parse_text(s2) {
                        Err(e) => Err(e),
                        Ok((path, s3)) => match wire::parse_text(s3) {
                            Err(e) => Err(e),
                            Ok((interface, s4)) => match wire::parse_text(s4) {
                                Err(e) => Err(e),
                                Ok((member, s5)) => match Self::parse_tail(s5) {
                                    Err(e) => Err(e),
                                    Ok(((reply, arguments), s6)) => wire::parse_end(
                                        s6,
                                        Self {
                                            bus,
                                            destination,
                                            path,
                                            interface,
                                            member,
                                            arguments,
                                            reply,
                                        },
                                    ),
                                },
                            },
                        },
                    },
                },
            },
        }
    }

    /// What was written is read back.
    pub proof fn round_trip(self)
        ensures
            self.payload() matches Ok(bytes) ==> Self::read(bytes) == Ok::<Self, SchemaError>(self),
    {
        broadcast use wire::group_wire;

        if self.payload() is Ok {
            wire::lemma_text_item();
            wire::lemma_list_reads_back(
                self.arguments,
                Seq::empty(),
                wire::text_item(),
                wire::text_put(),
                wire::text_check(),
            );
        }
    }

    proof fn lemma_tail_canonical(s: Seq<u8>)
        ensures
            Self::parse_tail(s) matches Ok(((reply, arguments), rest)) ==> {
                &&& arguments.len() <= MAX_ARGUMENTS
                &&& wire::first_error(arguments, 0, wire::text_check()) is Ok
                &&& s == wire::put_u8(
                    reply.code(),
                    wire::put_u16(
                        arguments.len() as u16,
                        wire::put_list(arguments, wire::text_put(), rest),
                    ),
                )
            },
    {
        broadcast use wire::group_wire;

        if Self::parse_tail(s) is Ok {
            let s1 = DbusReplyKind::parse(s)->Ok_0.1;
            let (count, s2) = wire::parse_u16(s1)->Ok_0;
            wire::lemma_text_item();
            wire::lemma_list_canonical(
                s2,
                count as nat,
                wire::text_item(),
                wire::text_put(),
                wire::text_check(),
            );
        }
    }

    /// What is read has no other payload than the bytes it was read from.
    pub proof fn canonical(bytes: Seq<u8>)
        ensures
            Self::read(bytes) matches Ok(value) ==> value.payload() == Ok::<Seq<u8>, SchemaError>(
                bytes,
            ),
    {
        broadcast use wire::group_wire;

        if Self::read(bytes) is Ok {
            let s0 = wire::parse_open(bytes, CALL_MAGIC@)->Ok_0;
            let s1 = DbusBus::parse(s0)->Ok_0.1;
            let s2 = wire::parse_text(s1)->Ok_0.1;
            let s3 = wire::parse_text(s2)->Ok_0.1;
            let s4 = wire::parse_text(s3)->Ok_0.1;
            let s5 = wire::parse_text(s4)->Ok_0.1;
            Self::lemma_tail_canonical(s5);
        }
    }
}

impl DbusCall {
    /// The D-Bus signature of the arguments: one `s` each.
    pub fn signature(&self) -> (signature: String)
        ensures
            signature@ == Seq::new(self@.arguments.len(), |i: int| 's'),
    {
        let mut signature: String = String::new();
        let mut i: usize = 0;
        while i < self.arguments.len()
            invariant
                i <= self.arguments@.len(),
                signature@ == Seq::new(i as nat, |k: int| 's'),
            decreases self.arguments@.len() - i,
        {
            proof {
                reveal_strlit("s");
            }
            signature.append("s");
            proof {
                assert(signature@ =~= Seq::new((i + 1) as nat, |k: int| 's'));
            }
            i += 1;
        }
        signature
    }

    pub fn encode(&self) -> (payload: Result<Vec<u8>, SchemaError>)
        ensures
            wire::outcome(payload) == self@.payload(),
    {
        if self.arguments.len() > MAX_ARGUMENTS {
            return Err(SchemaError::LimitExceeded);
        }
        let mut encoder: Encoder = Encoder::new(&CALL_MAGIC);
        encoder.byte(self.bus.to_code());
        encoder.string(self.destination.as_str())?;
        encoder.string(self.path.as_str())?;
        encoder.string(self.interface.as_str())?;
        encoder.string(self.member.as_str())?;
        encoder.byte(self.reply.to_code());
        encoder.u16(self.arguments.len() as u16);
        encoder.strings(&self.arguments)?;
        encoder.finish()
    }

    pub fn decode(bytes: &[u8]) -> (value: Result<Self, SchemaError>)
        ensures
            wire::outcome(value) == DbusCallView::read(bytes@),
    {
        let mut decoder: Decoder<'_> = Decoder::new(bytes, &CALL_MAGIC)?;
        let bus: DbusBus = DbusBus::from_code(decoder.byte()?)?;
        let destination: String = decoder.string()?;
        let path: String = decoder.string()?;
        let interface: String = decoder.string()?;
        let member: String = decoder.string()?;
        let reply: DbusReplyKind = DbusReplyKind::from_code(decoder.byte()?)?;
        let count: u16 = decoder.u16()?;
        if count as usize > MAX_ARGUMENTS {
            return Err(SchemaError::LimitExceeded);
        }
        let arguments: Vec<String> = decoder.strings(count as usize)?;
        decoder.finish()?;
        Ok(DbusCall { bus, destination, path, interface, member, arguments, reply })
    }
}

/// The answer to a call.
#[derive(Clone, Debug, PartialEq, Eq)]
pub enum DbusReply {
    Unit,
    String(String),
    I64(i64),
}

/// [`DbusReply`], field by field.
#[verifier::ext_equal]
pub enum DbusReplyView {
    Unit,
    String(Seq<char>),
    I64(i64),
}

impl View for DbusReply {
    type V = DbusReplyView;

    open spec fn view(&self) -> DbusReplyView {
        match *self {
            DbusReply::Unit => DbusReplyView::Unit,
            DbusReply::String(text) => DbusReplyView::String(text@),
            DbusReply::I64(value) => DbusReplyView::I64(value),
        }
    }
}

impl DbusReplyView {
    /// The bytes of this payload, or why it has none.
    pub open spec fn payload(self) -> Result<Seq<u8>, SchemaError> {
        match self {
            DbusReplyView::Unit => wire::sealed(REPLY_MAGIC@ + wire::put_u8(0, Seq::empty())),
            DbusReplyView::String(text) => if !wire::text_fits(text) {
                Err(SchemaError::LimitExceeded)
            } else {
                wire::sealed(REPLY_MAGIC@ + wire::put_u8(1, wire::put_text(text, Seq::empty())))
            },
            DbusReplyView::I64(value) => wire::sealed(
                REPLY_MAGIC@ + wire::put_u8(2, wire::put_i64(value, Seq::empty())),
            ),
        }
    }

    /// What follows the byte that tells the answers apart.
    pub open spec fn parse_step(tag: u8, s: Seq<u8>) -> Parsed<Self> {
        if tag == 0 {
            Ok((DbusReplyView::Unit, s))
        } else if tag == 1 {
            match wire::parse_text(s) {
                Err(e) => Err(e),
                Ok((text, rest)) => Ok((DbusReplyView::String(text), rest)),
            }
        } else if tag == 2 {
            match wire::parse_i64(s) {
                Err(e) => Err(e),
                Ok((value, rest)) => Ok((DbusReplyView::I64(value), rest)),
            }
        } else {
            Err(SchemaError::Malformed)
        }
    }

    /// What is read from `bytes`.
    pub open spec fn read(bytes: Seq<u8>) -> Result<Self, SchemaError> {
        match wire::parse_open(bytes, REPLY_MAGIC@) {
            Err(e) => Err(e),
            Ok(s0) => match wire::parse_u8(s0) {
                Err(e) => Err(e),
                Ok((tag, s1)) => match Self::parse_step(tag, s1) {
                    Err(e) => Err(e),
                    Ok((value, rest)) => wire::parse_end(rest, value),
                },
            },
        }
    }

    /// What was written is read back.
    pub proof fn round_trip(self)
        ensures
            self.payload() matches Ok(bytes) ==> Self::read(bytes) == Ok::<Self, SchemaError>(self),
    {
        broadcast use wire::group_wire;

    }

    /// What is read has no other payload than the bytes it was read from.
    pub proof fn canonical(bytes: Seq<u8>)
        ensures
            Self::read(bytes) matches Ok(value) ==> value.payload() == Ok::<Seq<u8>, SchemaError>(
                bytes,
            ),
    {
        broadcast use wire::group_wire;

    }
}

impl DbusReply {
    pub fn encode(&self) -> (payload: Result<Vec<u8>, SchemaError>)
        ensures
            wire::outcome(payload) == self@.payload(),
    {
        let mut encoder: Encoder = Encoder::new(&REPLY_MAGIC);
        match self {
            DbusReply::Unit => {
                encoder.byte(0);
            },
            DbusReply::String(text) => {
                encoder.byte(1);
                encoder.string(text.as_str())?;
            },
            DbusReply::I64(value) => {
                encoder.byte(2);
                encoder.i64(*value);
            },
        }
        encoder.finish()
    }

    pub fn decode(bytes: &[u8]) -> (value: Result<Self, SchemaError>)
        ensures
            wire::outcome(value) == DbusReplyView::read(bytes@),
    {
        let mut decoder: Decoder<'_> = Decoder::new(bytes, &REPLY_MAGIC)?;
        let tag: u8 = decoder.byte()?;
        let reply: DbusReply = match tag {
            0 => DbusReply::Unit,
            1 => DbusReply::String(decoder.string()?),
            2 => DbusReply::I64(decoder.i64()?),
            _ => {
                return Err(SchemaError::Malformed);
            },
        };
        decoder.finish()?;
        Ok(reply)
    }
}

/// The values that signals carry into the sandbox. File descriptors, nested
/// containers, object paths and arbitrary variants never do.
#[derive(Clone, Debug, PartialEq, Eq)]
pub enum DbusValue {
    U8(u8),
    Bool(bool),
    I16(i16),
    U16(u16),
    I32(i32),
    U32(u32),
    I64(i64),
    U64(u64),
    /// The bits of a double-precision number.
    F64(u64),
    String(String),
}

/// [`DbusValue`], field by field.
#[verifier::ext_equal]
pub enum DbusValueView {
    U8(u8),
    Bool(bool),
    I16(i16),
    U16(u16),
    I32(i32),
    U32(u32),
    I64(i64),
    U64(u64),
    /// The bits of a double-precision number.
    F64(u64),
    String(Seq<char>),
}

impl View for DbusValue {
    type V = DbusValueView;

    open spec fn view(&self) -> DbusValueView {
        match *self {
            DbusValue::U8(x) => DbusValueView::U8(x),
            DbusValue::Bool(x) => DbusValueView::Bool(x),
            DbusValue::I16(x) => DbusValueView::I16(x),
            DbusValue::U16(x) => DbusValueView::U16(x),
            DbusValue::I32(x) => DbusValueView::I32(x),
            DbusValue::U32(x) => DbusValueView::U32(x),
            DbusValue::I64(x) => DbusValueView::I64(x),
            DbusValue::U64(x) => DbusValueView::U64(x),
            DbusValue::F64(bits) => DbusValueView::F64(bits),
            DbusValue::String(text) => DbusValueView::String(text@),
        }
    }
}

/// The bits of a number that is neither infinite nor not-a-number: the
/// exponent is not all ones.
pub open spec fn finite_bits(bits: u64) -> bool {
    (bits / 0x10_0000_0000_0000) % 0x800 != 0x7ff
}

impl DbusValueView {
    /// Why a value cannot be sent.
    pub open spec fn check(self) -> Result<(), SchemaError> {
        match self {
            DbusValueView::F64(bits) => if finite_bits(bits) {
                Ok(())
            } else {
                Err(SchemaError::Malformed)
            },
            DbusValueView::String(text) => if wire::text_fits(text) {
                Ok(())
            } else {
                Err(SchemaError::LimitExceeded)
            },
            _ => Ok(()),
        }
    }

    /// The bytes of this value.
    pub open spec fn put(self, rest: Seq<u8>) -> Seq<u8> {
        match self {
            DbusValueView::U8(x) => wire::put_u8(0, wire::put_u8(x, rest)),
            DbusValueView::Bool(x) => wire::put_u8(1, wire::put_bool(x, rest)),
            DbusValueView::I16(x) => wire::put_u8(2, wire::put_i16(x, rest)),
            DbusValueView::U16(x) => wire::put_u8(3, wire::put_u16(x, rest)),
            DbusValueView::I32(x) => wire::put_u8(4, wire::put_i32(x, rest)),
            DbusValueView::U32(x) => wire::put_u8(5, wire::put_u32(x, rest)),
            DbusValueView::I64(x) => wire::put_u8(6, wire::put_i64(x, rest)),
            DbusValueView::U64(x) => wire::put_u8(7, wire::put_u64(x, rest)),
            DbusValueView::F64(bits) => wire::put_u8(8, wire::put_u64(bits, rest)),
            DbusValueView::String(text) => wire::put_u8(9, wire::put_text(text, rest)),
        }
    }

    /// What follows the byte that tells the values apart.
    pub open spec fn parse_step(tag: u8, s: Seq<u8>) -> Parsed<Self> {
        if tag == 0 {
            match wire::parse_u8(s) {
                Err(e) => Err(e),
                Ok((x, rest)) => Ok((DbusValueView::U8(x), rest)),
            }
        } else if tag == 1 {
            match wire::parse_bool(s) {
                Err(e) => Err(e),
                Ok((x, rest)) => Ok((DbusValueView::Bool(x), rest)),
            }
        } else if tag == 2 {
            match wire::parse_i16(s) {
                Err(e) => Err(e),
                Ok((x, rest)) => Ok((DbusValueView::I16(x), rest)),
            }
        } else if tag == 3 {
            match wire::parse_u16(s) {
                Err(e) => Err(e),
                Ok((x, rest)) => Ok((DbusValueView::U16(x), rest)),
            }
        } else if tag == 4 {
            match wire::parse_i32(s) {
                Err(e) => Err(e),
                Ok((x, rest)) => Ok((DbusValueView::I32(x), rest)),
            }
        } else if tag == 5 {
            match wire::parse_u32(s) {
                Err(e) => Err(e),
                Ok((x, rest)) => Ok((DbusValueView::U32(x), rest)),
            }
        } else if tag == 6 {
            match wire::parse_i64(s) {
                Err(e) => Err(e),
                Ok((x, rest)) => Ok((DbusValueView::I64(x), rest)),
            }
        } else if tag == 7 {
            match wire::parse_u64(s) {
                Err(e) => Err(e),
                Ok((x, rest)) => Ok((DbusValueView::U64(x), rest)),
            }
        } else if tag == 8 {
            match wire::parse_u64(s) {
                Err(e) => Err(e),
                Ok((bits, rest)) => if finite_bits(bits) {
                    Ok((DbusValueView::F64(bits), rest))
                } else {
                    Err(SchemaError::Malformed)
                },
            }
        } else if tag == 9 {
            match wire::parse_text(s) {
                Err(e) => Err(e),
                Ok((text, rest)) => Ok((DbusValueView::String(text), rest)),
            }
        } else {
            Err(SchemaError::Malformed)
        }
    }

    /// Reads one value.
    pub open spec fn parse(s: Seq<u8>) -> Parsed<Self> {
        match wire::parse_u8(s) {
            Err(e) => Err(e),
            Ok((tag, s1)) => Self::parse_step(tag, s1),
        }
    }

    pub proof fn lemma_parse_put(self, rest: Seq<u8>)
        requires
            self.check() is Ok,
        ensures
            Self::parse(self.put(rest)) == Ok::<(Self, Seq<u8>), SchemaError>((self, rest)),
    {
        broadcast use wire::group_wire;

    }

    pub proof fn lemma_put_parse(s: Seq<u8>)
        ensures
            Self::parse(s) matches Ok((value, rest)) ==> s == value.put(rest) && value.check()
                is Ok,
    {
        broadcast use wire::group_wire;

    }
}

fn encode_value(encoder: &mut Encoder, value: &DbusValue) -> (done: Result<(), SchemaError>)
    ensures
        done == value@.check(),
        done is Ok ==> forall|rest: Seq<u8>|
            #[trigger] (final(encoder).bytes@ + rest) == old(encoder).bytes@ + value@.put(rest),
{
    match value {
        DbusValue::U8(x) => {
            encoder.byte(0);
            encoder.byte(*x);
        },
        DbusValue::Bool(x) => {
            encoder.byte(1);
            encoder.flag(*x);
        },
        DbusValue::I16(x) => {
            encoder.byte(2);
            encoder.i16(*x);
        },
        DbusValue::U16(x) => {
            encoder.byte(3);
            encoder.u16(*x);
        },
        DbusValue::I32(x) => {
            encoder.byte(4);
            encoder.i32(*x);
        },
        DbusValue::U32(x) => {
            encoder.byte(5);
            encoder.u32(*x);
        },
        DbusValue::I64(x) => {
            encoder.byte(6);
            encoder.i64(*x);
        },
        DbusValue::U64(x) => {
            encoder.byte(7);
            encoder.u64(*x);
        },
        DbusValue::F64(bits) => {
            if (*bits / 0x10_0000_0000_0000) % 0x800 == 0x7ff {
                return Err(SchemaError::Malformed);
            }
            encoder.byte(8);
            encoder.u64(*bits);
        },
        DbusValue::String(text) => {
            encoder.byte(9);
            encoder.string(text.as_str())?;
        },
    }
    Ok(())
}

fn decode_value(decoder: &mut Decoder<'_>) -> (value: Result<DbusValue, SchemaError>)
    ensures
        wire::reads_view(
            value,
            final(decoder).remaining@,
            DbusValueView::parse(old(decoder).remaining@),
        ),
{
    let tag: u8 = decoder.byte()?;
    match tag {
        0 => Ok(DbusValue::U8(decoder.byte()?)),
        1 => Ok(DbusValue::Bool(decoder.flag()?)),
        2 => Ok(DbusValue::I16(decoder.i16()?)),
        3 => Ok(DbusValue::U16(decoder.u16()?)),
        4 => Ok(DbusValue::I32(decoder.i32()?)),
        5 => Ok(DbusValue::U32(decoder.u32()?)),
        6 => Ok(DbusValue::I64(decoder.i64()?)),
        7 => Ok(DbusValue::U64(decoder.u64()?)),
        8 => {
            let bits: u64 = decoder.u64()?;
            if (bits / 0x10_0000_0000_0000) % 0x800 == 0x7ff {
                return Err(SchemaError::Malformed);
            }
            Ok(DbusValue::F64(bits))
        },
        9 => Ok(DbusValue::String(decoder.string()?)),
        _ => Err(SchemaError::Malformed),
    }
}

/// A property and its new value.
#[derive(Clone, Debug, PartialEq, Eq)]
pub struct DbusProperty {
    pub name: String,
    pub value: DbusValue,
}

/// [`DbusProperty`], field by field.
#[verifier::ext_equal]
pub struct DbusPropertyView {
    pub name: Seq<char>,
    pub value: DbusValueView,
}

impl View for DbusProperty {
    type V = DbusPropertyView;

    open spec fn view(&self) -> DbusPropertyView {
        DbusPropertyView { name: self.name@, value: self.value@ }
    }
}

/// Reads one property.
pub open spec fn property_item() -> wire::ItemParser<DbusPropertyView> {
    |done: Seq<DbusPropertyView>, s: Seq<u8>|
        match wire::parse_text(s) {
            Err(e) => Err(e),
            Ok((name, s1)) => match DbusValueView::parse(s1) {
                Err(e) => Err(e),
                Ok((value, rest)) => Ok((DbusPropertyView { name, value }, rest)),
            },
        }
}

pub open spec fn property_put() -> wire::ItemPut<DbusPropertyView> {
    |property: DbusPropertyView, rest: Seq<u8>|
        wire::put_text(property.name, property.value.put(rest))
}

pub open spec fn property_check() -> wire::ItemCheck<DbusPropertyView> {
    |done: Seq<DbusPropertyView>, property: DbusPropertyView|
        if !wire::text_fits(property.name) {
            Err(SchemaError::LimitExceeded)
        } else {
            property.value.check()
        }
}

proof fn lemma_property_item()
    ensures
        wire::item_reads_back(property_item(), property_put(), property_check()),
        wire::item_canonical(property_item(), property_put(), property_check()),
{
    assert forall|done: Seq<DbusPropertyView>, property: DbusPropertyView, rest: Seq<u8>|
        property_check()(done, property) is Ok implies #[trigger] property_item()(
        done,
        property_put()(property, rest),
    ) == Ok::<(DbusPropertyView, Seq<u8>), SchemaError>((property, rest)) by {
        property.value.lemma_parse_put(rest);
        wire::lemma_parse_put_text(property.name, property.value.put(rest));
    }
    assert forall|done: Seq<DbusPropertyView>, s: Seq<u8>|
        (#[trigger] property_item()(done, s)) matches Ok((property, rest)) implies {
        let (property, rest) = property_item()(done, s)->Ok_0;
        s == property_put()(property, rest) && property_check()(done, property) is Ok
    } by {
        wire::lemma_put_parse_text(s);
        DbusValueView::lemma_put_parse(wire::parse_text(s)->Ok_0.1);
    }
}

fn write_property(encoder: &mut Encoder, values: &Vec<DbusProperty>, i: usize) -> (done: Result<
    (),
    SchemaError,
>)
    requires
        i < values@.len(),
    ensures
        done == property_check()(
            property_views(values@).subrange(0, i as int),
            property_views(values@)[i as int],
        ),
        done is Ok ==> forall|rest: Seq<u8>|
            #[trigger] (final(encoder).bytes@ + rest) == old(encoder).bytes@ + property_put()(
                property_views(values@)[i as int],
                rest,
            ),
{
    encoder.string(values[i].name.as_str())?;
    encode_value(encoder, &values[i].value)
}

fn read_property(decoder: &mut Decoder<'_>, values: &Vec<DbusProperty>) -> (value: Result<
    DbusProperty,
    SchemaError,
>)
    ensures
        wire::reads_view(
            value,
            final(decoder).remaining@,
            property_item()(property_views(values@), old(decoder).remaining@),
        ),
{
    let name: String = decoder.string()?;
    let value: DbusValue = decode_value(decoder)?;
    Ok(DbusProperty { name, value })
}

/// The properties of a signal, seen one by one.
pub open spec fn property_views(values: Seq<DbusProperty>) -> Seq<DbusPropertyView> {
    Seq::new(values.len(), |i: int| values[i]@)
}

fn write_properties(
    encoder: &mut Encoder,
    values: &Vec<DbusProperty>,
) -> (done: Result<(), SchemaError>)
    ensures
        done == wire::first_error(property_views(values@), 0, property_check()),
        done is Ok ==> forall|rest: Seq<u8>|
            #[trigger] (final(encoder).bytes@ + rest) == old(encoder).bytes@ + wire::put_list(
                property_views(values@),
                property_put(),
                rest,
            ),
{
    let mut i: usize = 0;
    let ghost start = encoder.bytes@;
    let ghost all = property_views(values@);
    proof {
        assert forall|rest: Seq<u8>| #[trigger]
            (encoder.bytes@ + rest) == start + wire::put_list(
                all.subrange(0, 0),
                property_put(),
                rest,
            ) by {}
    }
    while i < values.len()
        invariant
            i <= values@.len(),
            all == property_views(values@),
            forall|rest: Seq<u8>|
                #[trigger] (encoder.bytes@ + rest) == start + wire::put_list(
                    all.subrange(0, i as int),
                    property_put(),
                    rest,
                ),
            wire::first_error(all, 0, property_check()) == wire::first_error(
                all,
                i as nat,
                property_check(),
            ),
        decreases values@.len() - i,
    {
        write_property(encoder, values, i)?;
        proof {
            let next = all.subrange(0, i + 1);
            assert(next =~= all.subrange(0, i as int).push(all[i as int]));
            assert forall|rest: Seq<u8>| #[trigger]
                (encoder.bytes@ + rest) == start + wire::put_list(next, property_put(), rest) by {
                wire::lemma_put_list_push(
                    all.subrange(0, i as int),
                    all[i as int],
                    property_put(),
                    rest,
                );
            }
        }
        i += 1;
    }
    proof {
        assert(all.subrange(0, i as int) =~= all);
    }
    Ok(())
}

fn read_properties(decoder: &mut Decoder<'_>, count: usize) -> (value: Result<
    Vec<DbusProperty>,
    SchemaError,
>)
    ensures
        match wire::parse_list(
            Seq::empty(),
            old(decoder).remaining@,
            count as nat,
            property_item(),
        ) {
            Ok((items, rest)) => (value matches Ok(v) && property_views(v@) == items)
                && final(decoder).remaining@ == rest,
            Err(e) => value == Err::<Vec<DbusProperty>, SchemaError>(e),
        },
{
    let mut values: Vec<DbusProperty> = Vec::new();
    let mut i: usize = 0;
    let ghost start = decoder.remaining@;
    proof {
        assert(property_views(values@) =~= Seq::<DbusPropertyView>::empty());
    }
    while i < count
        invariant
            i <= count,
            start == old(decoder).remaining@,
            wire::parse_list(
                Seq::empty(),
                start,
                count as nat,
                property_item(),
            ) == wire::parse_list(
                property_views(values@),
                decoder.remaining@,
                (count - i) as nat,
                property_item(),
            ),
        decreases count - i,
    {
        let value: DbusProperty = read_property(decoder, &values)?;
        let ghost before = values@;
        values.push(value);
        proof {
            assert(property_views(values@) =~= property_views(before).push(value@));
        }
        i += 1;
    }
    Ok(values)
}

/// The body of the standard signal on changed properties.
#[derive(Clone, Debug, PartialEq, Eq)]
pub struct DbusPropertiesChanged {
    pub interface_name: String,
    pub changed_properties: Vec<DbusProperty>,
    pub invalidated_properties: Vec<String>,
}

/// [`DbusPropertiesChanged`], field by field.
#[verifier::ext_equal]
pub struct DbusPropertiesChangedView {
    pub interface_name: Seq<char>,
    pub changed_properties: Seq<DbusPropertyView>,
    pub invalidated_properties: Seq<Seq<char>>,
}

impl View for DbusPropertiesChanged {
    type V = DbusPropertiesChangedView;

    open spec fn view(&self) -> DbusPropertiesChangedView {
        DbusPropertiesChangedView {
            interface_name: self.interface_name@,
            changed_properties: property_views(self.changed_properties@),
            invalidated_properties: wire::texts(self.invalidated_properties@),
        }
    }
}

impl DbusPropertiesChangedView {
    /// The bytes of this payload, or why it has none.
    pub open spec fn payload(self) -> Result<Seq<u8>, SchemaError> {
        if self.changed_properties.len() > MAX_PROPERTIES || self.invalidated_properties.len()
            > MAX_PROPERTIES || !wire::text_fits(self.interface_name) {
            Err(SchemaError::LimitExceeded)
        } else {
            match wire::first_error(self.changed_properties, 0, property_check()) {
                Err(e) => Err(e),
                Ok(_) => match wire::first_error(
                    self.invalidated_properties,
                    0,
                    wire::text_check(),
                ) {
                    Err(e) => Err(e),
                    Ok(_) => wire::sealed(
                        SIGNAL_MAGIC@ + wire::put_text(
                            self.interface_name,
                            wire::put_u16(
                                self.changed_properties.len() as u16,
                                wire::put_list(
                                    self.changed_properties,
                                    property_put(),
                                    wire::put_u16(
                                        self.invalidated_properties.len() as u16,
                                        wire::put_list(
                                            self.invalidated_properties,
                                            wire::text_put(),
                                            Seq::empty(),
                                        ),
                                    ),
                                ),
                            ),
                        ),
                    ),
                },
            }
        }
    }

    /// Reads the names of the invalidated properties.
    pub open spec fn parse_invalidated(s: Seq<u8>) -> Parsed<Seq<Seq<char>>> {
        match wire::parse_u16(s) {
            Err(e) => Err(e),
            Ok((count, s1)) => if count > MAX_PROPERTIES {
                Err(SchemaError::LimitExceeded)
            } else {
                wire::parse_list(Seq::empty(), s1, count as nat, wire::text_item())
            },
        }
    }

    /// Reads the changed properties.
    pub open spec fn parse_changed(s: Seq<u8>) -> Parsed<Seq<DbusPropertyView>> {
        match wire::parse_u16(s) {
            Err(e) => Err(e),
            Ok((count, s1)) => if count > MAX_PROPERTIES {
                Err(SchemaError::LimitExceeded)
            } else {
                wire::parse_list(Seq::empty(), s1, count as nat, property_item())
            },
        }
    }

    /// What is read from `bytes`.
    pub open spec fn read(bytes: Seq<u8>) -> Result<Self, SchemaError> {
        match wire::parse_open(bytes, SIGNAL_MAGIC@) {
            Err(e) => Err(e),
            Ok(s0) => match wire::parse_text(s0) {
                Err(e) => Err(e),
                Ok((interface_name, s1)) => match Self::parse_changed(s1) {
                    Err(e) => Err(e),
                    Ok((changed_properties, s2)) => match Self::parse_invalidated(s2) {
                        Err(e) => Err(e),
                        Ok((invalidated_properties, s3)) => wire::parse_end(
                            s3,
                            Self { interface_name, changed_properties, invalidated_properties },
                        ),
                    },
                },
            },
        }
    }

    /// What was written is read back.
    pub proof fn round_trip(self)
        ensures
            self.payload() matches Ok(bytes) ==> Self::read(bytes) == Ok::<Self, SchemaError>(self),
    {
        broadcast use wire::group_wire;

        if self.payload() is Ok {
            wire::lemma_text_item();
            lemma_property_item();
            wire::lemma_list_reads_back(
                self.invalidated_properties,
                Seq::empty(),
                wire::text_item(),
                wire::text_put(),
                wire::text_check(),
            );
            let tail = wire::put_u16(
                self.invalidated_properties.len() as u16,
                wire::put_list(self.invalidated_properties, wire::text_put(), Seq::empty()),
            );
            wire::lemma_list_reads_back(
                self.changed_properties,
                tail,
                property_item(),
                property_put(),
                property_check(),
            );
        }
    }

    /// What is read has no other payload than the bytes it was read from.
    pub proof fn canonical(bytes: Seq<u8>)
        ensures
            Self::read(bytes) matches Ok(value) ==> value.payload() == Ok::<Seq<u8>, SchemaError>(
                bytes,
            ),
    {
        broadcast use wire::group_wire;

        if Self::read(bytes) is Ok {
            let s0 = wire::parse_open(bytes, SIGNAL_MAGIC@)->Ok_0;
            let s1 = wire::parse_text(s0)->Ok_0.1;
            let (count, c1) = wire::parse_u16(s1)->Ok_0;
            let s2 = Self::parse_changed(s1)->Ok_0.1;
            let (gone, c2) = wire::parse_u16(s2)->Ok_0;
            wire::lemma_text_item();
            lemma_property_item();
            wire::lemma_list_canonical(
                c1,
                count as nat,
                property_item(),
                property_put(),
                property_check(),
            );
            wire::lemma_list_canonical(
                c2,
                gone as nat,
                wire::text_item(),
                wire::text_put(),
                wire::text_check(),
            );
        }
    }
}

impl DbusPropertiesChanged {
    pub fn encode(&self) -> (payload: Result<Vec<u8>, SchemaError>)
        ensures
            wire::outcome(payload) == self@.payload(),
    {
        if self.changed_properties.len() > MAX_PROPERTIES || self.invalidated_properties.len()
            > MAX_PROPERTIES {
            return Err(SchemaError::LimitExceeded);
        }
        let mut encoder: Encoder = Encoder::new(&SIGNAL_MAGIC);
        encoder.string(self.interface_name.as_str())?;
        encoder.u16(self.changed_properties.len() as u16);
        write_properties(&mut encoder, &self.changed_properties)?;
        encoder.u16(self.invalidated_properties.len() as u16);
        encoder.strings(&self.invalidated_properties)?;
        encoder.finish()
    }

    pub fn decode(bytes: &[u8]) -> (value: Result<Self, SchemaError>)
        ensures
            wire::outcome(value) == DbusPropertiesChangedView::read(bytes@),
    {
        let mut decoder: Decoder<'_> = Decoder::new(bytes, &SIGNAL_MAGIC)?;
        let interface_name: String = decoder.string()?;
        let changed: u16 = decoder.u16()?;
        if changed as usize > MAX_PROPERTIES {
            return Err(SchemaError::LimitExceeded);
        }
        let changed_properties: Vec<DbusProperty> = read_properties(
            &mut decoder,
            changed as usize,
        )?;
        let invalidated: u16 = decoder.u16()?;
        if invalidated as usize > MAX_PROPERTIES {
            return Err(SchemaError::LimitExceeded);
        }
        let invalidated_properties: Vec<String> = decoder.strings(invalidated as usize)?;
        decoder.finish()?;
        Ok(
            DbusPropertiesChanged {
                interface_name,
                changed_properties,
                invalidated_properties,
            },
        )
    }
}

} // verus!
