//! Notification payloads.
use vstd::prelude::*;

use crate::wire;
use crate::wire::{Decoder, Encoder, Parsed, SchemaError};

verus! {

/// `OMNOTIF1`
pub const NOTIFICATION_SEND_MAGIC: [u8; 8] = [79, 77, 78, 79, 84, 73, 70, 49];

/// `OMNOTIR1`
pub const NOTIFICATION_REMOVE_MAGIC: [u8; 8] = [79, 77, 78, 79, 84, 73, 82, 49];

pub const MAX_NOTIFICATION_TITLE_BYTES: usize = 256;

pub const MAX_NOTIFICATION_BODY_BYTES: usize = 4096;

/// How urgent a notification is.
#[derive(Clone, Copy, Debug, PartialEq, Eq, Structural)]
pub enum NotificationUrgencyValue {
    Low,
    Normal,
    Critical,
}

impl NotificationUrgencyValue {
    /// The byte that stands for this value.
    pub open spec fn code(self) -> u8 {
        match self {
            NotificationUrgencyValue::Low => 0,
            NotificationUrgencyValue::Normal => 1,
            NotificationUrgencyValue::Critical => 2,
        }
    }

    pub open spec fn of_code(code: u8) -> Result<Self, SchemaError> {
        if code == 0 {
            Ok(NotificationUrgencyValue::Low)
        } else if code == 1 {
            Ok(NotificationUrgencyValue::Normal)
        } else if code == 2 {
            Ok(NotificationUrgencyValue::Critical)
        } else {
            Err(SchemaError::Malformed)
        }
    }

    /// Reads the byte of a value.
    pub open spec fn parse(s: Seq<u8>) -> Parsed<Self> {
        match wire::parse_u8(s) {
            Err(e) => Err(e),
            Ok((code, rest)) => match Self::of_code(code) {
                Err(e) => Err(e),
                Ok(value) => Ok((value, rest)),
            },
        }
    }

    pub(crate) fn to_code(self) -> (code: u8)
        ensures
            code == self.code(),
    {
        match self {
            NotificationUrgencyValue::Low => 0,
            NotificationUrgencyValue::Normal => 1,
            NotificationUrgencyValue::Critical => 2,
        }
    }

    pub(crate) fn from_code(code: u8) -> (value: Result<Self, SchemaError>)
        ensures
            value == Self::of_code(code),
    {
        match code {
            0 => Ok(NotificationUrgencyValue::Low),
            1 => Ok(NotificationUrgencyValue::Normal),
            2 => Ok(NotificationUrgencyValue::Critical),
            _ => Err(SchemaError::Malformed),
        }
    }
}

/// Shows a desktop notification.
#[derive(Clone, Debug, PartialEq, Eq)]
pub struct NotificationSend {
    pub id: String,
    pub category: String,
    pub urgency: NotificationUrgencyValue,
    pub title: String,
    pub body: String,
}

/// [`NotificationSend`], field by field.
#[verifier::ext_equal]
pub struct NotificationSendView {
    pub id: Seq<char>,
    pub category: Seq<char>,
    pub urgency: NotificationUrgencyValue,
    pub title: Seq<char>,
    pub body: Seq<char>,
}

impl View for NotificationSend {
    type V = NotificationSendView;

    open spec fn view(&self) -> NotificationSendView {
        NotificationSendView {
            id: self.id@,
            category: self.category@,
            urgency: self.urgency,
            title: self.title@,
            body: self.body@,
        }
    }
}

impl NotificationSendView {
    /// The bytes of this payload, or why it has none.
    pub open spec fn payload(self) -> Result<Seq<u8>, SchemaError> {
        if wire::text_bytes(self.title) > MAX_NOTIFICATION_TITLE_BYTES
            || wire::text_bytes(self.body) > MAX_NOTIFICATION_BODY_BYTES {
            Err(SchemaError::LimitExceeded)
        } else if !(wire::text_fits(self.id) && wire::text_fits(self.category)
            && wire::text_fits(self.title) && wire::text_fits(self.body)) {
            Err(SchemaError::LimitExceeded)
        } else {
            wire::sealed(
                NOTIFICATION_SEND_MAGIC@ + wire::put_text(
                    self.id,
                    wire::put_text(
                        self.category,
                        wire::put_u8(
                            self.urgency.code(),
                            wire::put_text(self.title, wire::put_text(self.body, Seq::empty())),
                        ),
                    ),
                ),
            )
        }
    }

    /// What is read from `bytes`.
    pub open spec fn read(bytes: Seq<u8>) -> Result<Self, SchemaError> {
        match wire::parse_open(bytes, NOTIFICATION_SEND_MAGIC@) {
            Err(e) => Err(e),
            Ok(s0) => {
                match wire::parse_text(s0) {
                    Err(e) => Err(e),
                    Ok((id, s1)) => {
                        match wire::parse_text(s1) {
                            Err(e) => Err(e),
                            Ok((category, s2)) => {
                                match NotificationUrgencyValue::parse(s2) {
                                    Err(e) => Err(e),
                                    Ok((urgency, s3)) => {
                                        match wire::parse_text(s3) {
                                            Err(e) => Err(e),
                                            Ok((title, s4)) => {
                                                match wire::parse_text(s4) {
                                                    Err(e) => Err(e),
                                                    Ok((body, s5)) => {
                                                        match wire::parse_end(s5, ()) {
                                                            Err(e) => Err(e),
                                                            Ok(_) => if wire::text_bytes(title) > MAX_NOTIFICATION_TITLE_BYTES
                                                                || wire::text_bytes(body) > MAX_NOTIFICATION_BODY_BYTES {
                                                                Err(SchemaError::LimitExceeded)
                                                            } else {
                                                                Ok(
                                                                    Self {
                                                                        id,
                                                                        category,
                                                                        urgency,
                                                                        title,
                                                                        body,
                                                                    },
                                                                )
                                                            },
                                                        }
                                                    },
                                                }
                                            },
                                        }
                                    },
                                }
                            },
                        }
                    },
                }
            },
        }
    }

    /// What was written is read back.
    pub proof fn round_trip(self)
        ensures
            self.payload() matches Ok(bytes) ==> Self::read(bytes) == Ok::<Self, SchemaError>(self),
    {
        broadcast use wire::group_wire;

        wire::lemma_pow256();
    }

    /// What is read has no other payload than the bytes it was read from.
    pub proof fn canonical(bytes: Seq<u8>)
        ensures
            Self::read(bytes) matches Ok(value) ==> value.payload() == Ok::<Seq<u8>, SchemaError>(
                bytes,
            ),
    {
        broadcast use wire::group_wire;

    }
}

impl NotificationSend {
    pub fn encode(&self) -> (payload: Result<Vec<u8>, SchemaError>)
        ensures
            wire::outcome(payload) == self@.payload(),
    {
        if self.title.as_str().as_bytes().len() > MAX_NOTIFICATION_TITLE_BYTES
            || self.body.as_str().as_bytes().len() > MAX_NOTIFICATION_BODY_BYTES {
            return Err(SchemaError::LimitExceeded);
        }
        let mut encoder: Encoder = Encoder::new(&NOTIFICATION_SEND_MAGIC);
        encoder.string(self.id.as_str())?;
        encoder.string(self.category.as_str())?;
        encoder.byte(self.urgency.to_code());
        encoder.string(self.title.as_str())?;
        encoder.string(self.body.as_str())?;
        encoder.finish()
    }

    pub fn decode(bytes: &[u8]) -> (value: Result<Self, SchemaError>)
        ensures
            wire::outcome(value) == NotificationSendView::read(bytes@),
    {
        let mut decoder: Decoder<'_> = Decoder::new(bytes, &NOTIFICATION_SEND_MAGIC)?;
        let id: String = decoder.string()?;
        let category: String = decoder.string()?;
        let urgency: NotificationUrgencyValue = NotificationUrgencyValue::from_code(
            decoder.byte()?,
        )?;
        let title: String = decoder.string()?;
        let body: String = decoder.string()?;
        decoder.finish()?;
        if title.as_str().as_bytes().len() > MAX_NOTIFICATION_TITLE_BYTES
            || body.as_str().as_bytes().len() > MAX_NOTIFICATION_BODY_BYTES {
            return Err(SchemaError::LimitExceeded);
        }
        Ok(NotificationSend { id, category, urgency, title, body })
    }
}

/// Withdraws a desktop notification.
#[derive(Clone, Debug, PartialEq, Eq)]
pub struct NotificationRemove {
    pub id: String,
}

/// [`NotificationRemove`], field by field.
#[verifier::ext_equal]
pub struct NotificationRemoveView {
    pub id: Seq<char>,
}

impl View for NotificationRemove {
    type V = NotificationRemoveView;

    open spec fn view(&self) -> NotificationRemoveView {
        NotificationRemoveView {
            id: self.id@,
        }
    }
}

impl NotificationRemoveView {
    /// The bytes of this payload, or why it has none.
    pub open spec fn payload(self) -> Result<Seq<u8>, SchemaError> {
        if !(wire::text_fits(self.id)) {
            Err(SchemaError::LimitExceeded)
        } else {
            wire::sealed(NOTIFICATION_REMOVE_MAGIC@ + wire::put_text(self.id, Seq::empty()))
        }
    }

    /// What is read from `bytes`.
    pub open spec fn read(bytes: Seq<u8>) -> Result<Self, SchemaError> {
        match wire::parse_open(bytes, NOTIFICATION_REMOVE_MAGIC@) {
            Err(e) => Err(e),
            Ok(s0) => {
                match wire::parse_text(s0) {
                    Err(e) => Err(e),
                    Ok((id, s1)) => {
                        wire::parse_end(s1, Self { id })
                    },
                }
            },
        }
    }

    /// What was written is read back.
    pub proof fn round_trip(self)
        ensures
            self.payload() matches Ok(bytes) ==> Self::read(bytes) == Ok::<Self, SchemaError>(self),
    {
        broadcast use wire::group_wire;

        wire::lemma_pow256();
    }

    /// What is read has no other payload than the bytes it was read from.
    pub proof fn canonical(bytes: Seq<u8>)
        ensures
            Self::read(bytes) matches Ok(value) ==> value.payload() == Ok::<Seq<u8>, SchemaError>(
                bytes,
            ),
    {
        broadcast use wire::group_wire;

    }
}

impl NotificationRemove {
    pub fn encode(&self) -> (payload: Result<Vec<u8>, SchemaError>)
        ensures
            wire::outcome(payload) == self@.payload(),
    {
        let mut encoder: Encoder = Encoder::new(&NOTIFICATION_REMOVE_MAGIC);
        encoder.string(self.id.as_str())?;
        encoder.finish()
    }

    pub fn decode(bytes: &[u8]) -> (value: Result<Self, SchemaError>)
        ensures
            wire::outcome(value) == NotificationRemoveView::read(bytes@),
    {
        let mut decoder: Decoder<'_> = Decoder::new(bytes, &NOTIFICATION_REMOVE_MAGIC)?;
        let id: String = decoder.string()?;
        decoder.finish()?;
        Ok(NotificationRemove { id })
    }
}

} // verus!
