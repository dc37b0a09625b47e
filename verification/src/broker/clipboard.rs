//! Clipboard payloads.
use vstd::prelude::*;

use crate::wire;
use crate::wire::{Decoder, Encoder, SchemaError};

verus! {

/// `OMCLPRQ1`
pub const CLIPBOARD_READ_MAGIC: [u8; 8] = [79, 77, 67, 76, 80, 82, 81, 49];

/// `OMCLPWQ1`
pub const CLIPBOARD_WRITE_MAGIC: [u8; 8] = [79, 77, 67, 76, 80, 87, 81, 49];

/// `OMCLPVL1`
pub const CLIPBOARD_VALUE_MAGIC: [u8; 8] = [79, 77, 67, 76, 80, 86, 76, 49];

pub const MAX_CLIPBOARD_BYTES: usize = 49152;

pub const MAX_CLIPBOARD_MIME_BYTES: usize = 128;

/// Asks for one MIME representation of the clipboard.
#[derive(Clone, Debug, PartialEq, Eq)]
pub struct ClipboardReadRequest {
    pub mime_type: String,
}

/// [`ClipboardReadRequest`], field by field.
#[verifier::ext_equal]
pub struct ClipboardReadRequestView {
    pub mime_type: Seq<char>,
}

impl View for ClipboardReadRequest {
    type V = ClipboardReadRequestView;

    open spec fn view(&self) -> ClipboardReadRequestView {
        ClipboardReadRequestView {
            mime_type: self.mime_type@,
        }
    }
}

impl ClipboardReadRequestView {
    /// The bytes of this payload, or why it has none.
    pub open spec fn payload(self) -> Result<Seq<u8>, SchemaError> {
        if wire::text_bytes(self.mime_type) > MAX_CLIPBOARD_MIME_BYTES {
            Err(SchemaError::LimitExceeded)
        } else if !(wire::text_fits(self.mime_type)) {
            Err(SchemaError::LimitExceeded)
        } else {
            wire::sealed(CLIPBOARD_READ_MAGIC@ + wire::put_text(self.mime_type, Seq::empty()))
        }
    }

    /// What is read from `bytes`.
    pub open spec fn read(bytes: Seq<u8>) -> Result<Self, SchemaError> {
        match wire::parse_open(bytes, CLIPBOARD_READ_MAGIC@) {
            Err(e) => Err(e),
            Ok(s0) => {
                match wire::parse_text(s0) {
                    Err(e) => Err(e),
                    Ok((mime_type, s1)) => {
                        match wire::parse_end(s1, ()) {
                            Err(e) => Err(e),
                            Ok(_) => if wire::text_bytes(mime_type) > MAX_CLIPBOARD_MIME_BYTES {
                                Err(SchemaError::LimitExceeded)
                            } else {
                                Ok(Self { mime_type })
                            },
                        }
                    },
                }
            },
        }
    }

    /// What was written is read back.
    pub proof fn round_trip(self)
        ensures
            self.payload() matches Ok(bytes) ==> Self::read(bytes) == Ok::<Self, SchemaError>(self),
    {
        broadcast use wire::group_wire;

        wire::lemma_pow256();
    }

    /// What is read has no other payload than the bytes it was read from.
    pub proof fn canonical(bytes: Seq<u8>)
        ensures
            Self::read(bytes) matches Ok(value) ==> value.payload() == Ok::<Seq<u8>, SchemaError>(
                bytes,
            ),
    {
        broadcast use wire::group_wire;

    }
}

impl ClipboardReadRequest {
    pub fn encode(&self) -> (payload: Result<Vec<u8>, SchemaError>)
        ensures
            wire::outcome(payload) == self@.payload(),
    {
        if self.mime_type.as_str().as_bytes().len() > MAX_CLIPBOARD_MIME_BYTES {
            return Err(SchemaError::LimitExceeded);
        }
        let mut encoder: Encoder = Encoder::new(&CLIPBOARD_READ_MAGIC);
        encoder.string(self.mime_type.as_str())?;
        encoder.finish()
    }

    pub fn decode(bytes: &[u8]) -> (value: Result<Self, SchemaError>)
        ensures
            wire::outcome(value) == ClipboardReadRequestView::read(bytes@),
    {
        let mut decoder: Decoder<'_> = Decoder::new(bytes, &CLIPBOARD_READ_MAGIC)?;
        let mime_type: String = decoder.string()?;
        decoder.finish()?;
        if mime_type.as_str().as_bytes().len() > MAX_CLIPBOARD_MIME_BYTES {
            return Err(SchemaError::LimitExceeded);
        }
        Ok(ClipboardReadRequest { mime_type })
    }
}

/// Replaces the clipboard with one MIME representation.
#[derive(Clone, Debug, PartialEq, Eq)]
pub struct ClipboardWriteRequest {
    pub mime_type: String,
    pub bytes: Vec<u8>,
}

/// [`ClipboardWriteRequest`], field by field.
#[verifier::ext_equal]
pub struct ClipboardWriteRequestView {
    pub mime_type: Seq<char>,
    pub bytes: Seq<u8>,
}

impl View for ClipboardWriteRequest {
    type V = ClipboardWriteRequestView;

    open spec fn view(&self) -> ClipboardWriteRequestView {
        ClipboardWriteRequestView {
            mime_type: self.mime_type@,
            bytes: self.bytes@,
        }
    }
}

impl ClipboardWriteRequestView {
    /// The bytes of this payload, or why it has none.
    pub open spec fn payload(self) -> Result<Seq<u8>, SchemaError> {
        if wire::text_bytes(self.mime_type) > MAX_CLIPBOARD_MIME_BYTES {
            Err(SchemaError::LimitExceeded)
        } else if self.bytes.len() > MAX_CLIPBOARD_BYTES {
            Err(SchemaError::LimitExceeded)
        } else if !(wire::text_fits(self.mime_type)) {
            Err(SchemaError::LimitExceeded)
        } else {
            wire::sealed(
                CLIPBOARD_WRITE_MAGIC@ + wire::put_text(
                    self.mime_type,
                    wire::put_bytes(self.bytes, 4, Seq::empty()),
                ),
            )
        }
    }

    /// What is read from `bytes`.
    pub open spec fn read(bytes: Seq<u8>) -> Result<Self, SchemaError> {
        match wire::parse_open(bytes, CLIPBOARD_WRITE_MAGIC@) {
            Err(e) => Err(e),
            Ok(s0) => {
                match wire::parse_text(s0) {
                    Err(e) => Err(e),
                    Ok((mime_type, s1)) => {
                        match wire::parse_bytes(s1, 4, 0, MAX_CLIPBOARD_BYTES as nat) {
                            Err(e) => Err(e),
                            Ok((bytes, s2)) => {
                                match wire::parse_end(s2, ()) {
                                    Err(e) => Err(e),
                                    Ok(_) => if wire::text_bytes(mime_type) > MAX_CLIPBOARD_MIME_BYTES {
                                        Err(SchemaError::LimitExceeded)
                                    } else {
                                        Ok(Self { mime_type, bytes })
                                    },
                                }
                            },
                        }
                    },
                }
            },
        }
    }

    /// What was written is read back.
    pub proof fn round_trip(self)
        ensures
            self.payload() matches Ok(bytes) ==> Self::read(bytes) == Ok::<Self, SchemaError>(self),
    {
        broadcast use wire::group_wire;

        wire::lemma_pow256();
    }

    /// What is read has no other payload than the bytes it was read from.
    pub proof fn canonical(bytes: Seq<u8>)
        ensures
            Self::read(bytes) matches Ok(value) ==> value.payload() == Ok::<Seq<u8>, SchemaError>(
                bytes,
            ),
    {
        broadcast use wire::group_wire;

    }
}

impl ClipboardWriteRequest {
    pub fn encode(&self) -> (payload: Result<Vec<u8>, SchemaError>)
        ensures
            wire::outcome(payload) == self@.payload(),
    {
        proof {
            wire::lemma_pow256();
        }
        if self.mime_type.as_str().as_bytes().len() > MAX_CLIPBOARD_MIME_BYTES {
            return Err(SchemaError::LimitExceeded);
        }
        if self.bytes.len() > MAX_CLIPBOARD_BYTES {
            return Err(SchemaError::LimitExceeded);
        }
        let mut encoder: Encoder = Encoder::new(&CLIPBOARD_WRITE_MAGIC);
        encoder.string(self.mime_type.as_str())?;
        encoder.blob(self.bytes.as_slice())?;
        encoder.finish()
    }

    pub fn decode(bytes: &[u8]) -> (value: Result<Self, SchemaError>)
        ensures
            wire::outcome(value) == ClipboardWriteRequestView::read(bytes@),
    {
        let mut decoder: Decoder<'_> = Decoder::new(bytes, &CLIPBOARD_WRITE_MAGIC)?;
        let mime_type: String = decoder.string()?;
        let bytes: Vec<u8> = decoder.blob(MAX_CLIPBOARD_BYTES)?;
        decoder.finish()?;
        if mime_type.as_str().as_bytes().len() > MAX_CLIPBOARD_MIME_BYTES {
            return Err(SchemaError::LimitExceeded);
        }
        Ok(ClipboardWriteRequest { mime_type, bytes })
    }
}

/// One MIME representation of the clipboard.
#[derive(Clone, Debug, PartialEq, Eq)]
pub struct ClipboardValue {
    pub mime_type: String,
    pub bytes: Vec<u8>,
}

/// [`ClipboardValue`], field by field.
#[verifier::ext_equal]
pub struct ClipboardValueView {
    pub mime_type: Seq<char>,
    pub bytes: Seq<u8>,
}

impl View for ClipboardValue {
    type V = ClipboardValueView;

    open spec fn view(&self) -> ClipboardValueView {
        ClipboardValueView {
            mime_type: self.mime_type@,
            bytes: self.bytes@,
        }
    }
}

impl ClipboardValueView {
    /// The bytes of this payload, or why it has none.
    pub open spec fn payload(self) -> Result<Seq<u8>, SchemaError> {
        if wire::text_bytes(self.mime_type) > MAX_CLIPBOARD_MIME_BYTES {
            Err(SchemaError::LimitExceeded)
        } else if self.bytes.len() > MAX_CLIPBOARD_BYTES {
            Err(SchemaError::LimitExceeded)
        } else if !(wire::text_fits(self.mime_type)) {
            Err(SchemaError::LimitExceeded)
        } else {
            wire::sealed(
                CLIPBOARD_VALUE_MAGIC@ + wire::put_text(
                    self.mime_type,
                    wire::put_bytes(self.bytes, 4, Seq::empty()),
                ),
            )
        }
    }

    /// What is read from `bytes`.
    pub open spec fn read(bytes: Seq<u8>) -> Result<Self, SchemaError> {
        match wire::parse_open(bytes, CLIPBOARD_VALUE_MAGIC@) {
            Err(e) => Err(e),
            Ok(s0) => {
                match wire::parse_text(s0) {
                    Err(e) => Err(e),
                    Ok((mime_type, s1)) => {
                        match wire::parse_bytes(s1, 4, 0, MAX_CLIPBOARD_BYTES as nat) {
                            Err(e) => Err(e),
                            Ok((bytes, s2)) => {
                                match wire::parse_end(s2, ()) {
                                    Err(e) => Err(e),
                                    Ok(_) => if wire::text_bytes(mime_type) > MAX_CLIPBOARD_MIME_BYTES {
                                        Err(SchemaError::LimitExceeded)
                                    } else {
                                        Ok(Self { mime_type, bytes })
                                    },
                                }
                            },
                        }
                    },
                }
            },
        }
    }

    /// What was written is read back.
    pub proof fn round_trip(self)
        ensures
            self.payload() matches Ok(bytes) ==> Self::read(bytes) == Ok::<Self, SchemaError>(self),
    {
        broadcast use wire::group_wire;

        wire::lemma_pow256();
    }

    /// What is read has no other payload than the bytes it was read from.
    pub proof fn canonical(bytes: Seq<u8>)
        ensures
            Self::read(bytes) matches Ok(value) ==> value.payload() == Ok::<Seq<u8>, SchemaError>(
                bytes,
            ),
    {
        broadcast use wire::group_wire;

    }
}

impl ClipboardValue {
    pub fn encode(&self) -> (payload: Result<Vec<u8>, SchemaError>)
        ensures
            wire::outcome(payload) == self@.payload(),
    {
        proof {
            wire::lemma_pow256();
        }
        if self.mime_type.as_str().as_bytes().len() > MAX_CLIPBOARD_MIME_BYTES {
            return Err(SchemaError::LimitExceeded);
        }
        if self.bytes.len() > MAX_CLIPBOARD_BYTES {
            return Err(SchemaError::LimitExceeded);
        }
        let mut encoder: Encoder = Encoder::new(&CLIPBOARD_VALUE_MAGIC);
        encoder.string(self.mime_type.as_str())?;
        encoder.blob(self.bytes.as_slice())?;
        encoder.finish()
    }

    pub fn decode(bytes: &[u8]) -> (value: Result<Self, SchemaError>)
        ensures
            wire::outcome(value) == ClipboardValueView::read(bytes@),
    {
        let mut decoder: Decoder<'_> = Decoder::new(bytes, &CLIPBOARD_VALUE_MAGIC)?;
        let mime_type: String = decoder.string()?;
        let bytes: Vec<u8> = decoder.blob(MAX_CLIPBOARD_BYTES)?;
        decoder.finish()?;
        if mime_type.as_str().as_bytes().len() > MAX_CLIPBOARD_MIME_BYTES {
            return Err(SchemaError::LimitExceeded);
        }
        Ok(ClipboardValue { mime_type, bytes })
    }
}

} // verus!
