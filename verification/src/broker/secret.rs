//! Secret payloads.
use vstd::prelude::*;

use crate::wire;
use crate::wire::{Decoder, Encoder, SchemaError};

verus! {

/// `OMSECRQ1`
pub const SECRET_READ_MAGIC: [u8; 8] = [79, 77, 83, 69, 67, 82, 81, 49];

/// `OMSECRV1`
pub const SECRET_VALUE_MAGIC: [u8; 8] = [79, 77, 83, 69, 67, 82, 86, 49];

pub const MAX_SECRET_BYTES: usize = 49152;

pub const MAX_SECRET_CONTENT_TYPE_BYTES: usize = 128;

/// Asks for one logical secret.
#[derive(Clone, Debug, PartialEq, Eq)]
pub struct SecretReadRequest {
    pub logical_name: String,
}

/// [`SecretReadRequest`], field by field.
#[verifier::ext_equal]
pub struct SecretReadRequestView {
    pub logical_name: Seq<char>,
}

impl View for SecretReadRequest {
    type V = SecretReadRequestView;

    open spec fn view(&self) -> SecretReadRequestView {
        SecretReadRequestView {
            logical_name: self.logical_name@,
        }
    }
}

impl SecretReadRequestView {
    /// The bytes of this payload, or why it has none.
    pub open spec fn payload(self) -> Result<Seq<u8>, SchemaError> {
        if !(wire::text_fits(self.logical_name)) {
            Err(SchemaError::LimitExceeded)
        } else {
            wire::sealed(SECRET_READ_MAGIC@ + wire::put_text(self.logical_name, Seq::empty()))
        }
    }

    /// What is read from `bytes`.
    pub open spec fn read(bytes: Seq<u8>) -> Result<Self, SchemaError> {
        match wire::parse_open(bytes, SECRET_READ_MAGIC@) {
            Err(e) => Err(e),
            Ok(s0) => {
                match wire::parse_text(s0) {
                    Err(e) => Err(e),
                    Ok((logical_name, s1)) => {
                        wire::parse_end(s1, Self { logical_name })
                    },
                }
            },
        }
    }

    /// What was written is read back.
    pub proof fn round_trip(self)
        ensures
            self.payload() matches Ok(bytes) ==> Self::read(bytes) == Ok::<Self, SchemaError>(self),
    {
        broadcast use wire::group_wire;

        wire::lemma_pow256();
    }

    /// What is read has no other payload than the bytes it was read from.
    pub proof fn canonical(bytes: Seq<u8>)
        ensures
            Self::read(bytes) matches Ok(value) ==> value.payload() == Ok::<Seq<u8>, SchemaError>(
                bytes,
            ),
    {
        broadcast use wire::group_wire;

    }
}

impl SecretReadRequest {
    pub fn encode(&self) -> (payload: Result<Vec<u8>, SchemaError>)
        ensures
            wire::outcome(payload) == self@.payload(),
    {
        let mut encoder: Encoder = Encoder::new(&SECRET_READ_MAGIC);
        encoder.string(self.logical_name.as_str())?;
        encoder.finish()
    }

    pub fn decode(bytes: &[u8]) -> (value: Result<Self, SchemaError>)
        ensures
            wire::outcome(value) == SecretReadRequestView::read(bytes@),
    {
        let mut decoder: Decoder<'_> = Decoder::new(bytes, &SECRET_READ_MAGIC)?;
        let logical_name: String = decoder.string()?;
        decoder.finish()?;
        Ok(SecretReadRequest { logical_name })
    }
}

/// The value of a secret.
#[derive(Clone, Debug, PartialEq, Eq)]
pub struct SecretValue {
    pub bytes: Vec<u8>,
    pub content_type: String,
}

/// [`SecretValue`], field by field.
#[verifier::ext_equal]
pub struct SecretValueView {
    pub bytes: Seq<u8>,
    pub content_type: Seq<char>,
}

impl View for SecretValue {
    type V = SecretValueView;

    open spec fn view(&self) -> SecretValueView {
        SecretValueView {
            bytes: self.bytes@,
            content_type: self.content_type@,
        }
    }
}

impl SecretValueView {
    /// The bytes of this payload, or why it has none.
    pub open spec fn payload(self) -> Result<Seq<u8>, SchemaError> {
        if self.bytes.len() > MAX_SECRET_BYTES {
            Err(SchemaError::LimitExceeded)
        } else if wire::text_bytes(self.content_type) > MAX_SECRET_CONTENT_TYPE_BYTES {
            Err(SchemaError::LimitExceeded)
        } else if !(wire::text_fits(self.content_type)) {
            Err(SchemaError::LimitExceeded)
        } else {
            wire::sealed(
                SECRET_VALUE_MAGIC@ + wire::put_bytes(
                    self.bytes,
                    4,
                    wire::put_text(self.content_type, Seq::empty()),
                ),
            )
        }
    }

    /// What is read from `bytes`.
    pub open spec fn read(bytes: Seq<u8>) -> Result<Self, SchemaError> {
        match wire::parse_open(bytes, SECRET_VALUE_MAGIC@) {
            Err(e) => Err(e),
            Ok(s0) => {
                match wire::parse_bytes(s0, 4, 0, MAX_SECRET_BYTES as nat) {
                    Err(e) => Err(e),
                    Ok((bytes, s1)) => {
                        match wire::parse_text(s1) {
                            Err(e) => Err(e),
                            Ok((content_type, s2)) => {
                                match wire::parse_end(s2, ()) {
                                    Err(e) => Err(e),
                                    Ok(_) => if wire::text_bytes(
                                        content_type,
                                    ) > MAX_SECRET_CONTENT_TYPE_BYTES {
                                        Err(SchemaError::LimitExceeded)
                                    } else {
                                        Ok(Self { bytes, content_type })
                                    },
                                }
                            },
                        }
                    },
                }
            },
        }
    }

    /// What was written is read back.
    pub proof fn round_trip(self)
        ensures
            self.payload() matches Ok(bytes) ==> Self::read(bytes) == Ok::<Self, SchemaError>(self),
    {
        broadcast use wire::group_wire;

        wire::lemma_pow256();
    }

    /// What is read has no other payload than the bytes it was read from.
    pub proof fn canonical(bytes: Seq<u8>)
        ensures
            Self::read(bytes) matches Ok(value) ==> value.payload() == Ok::<Seq<u8>, SchemaError>(
                bytes,
            ),
    {
        broadcast use wire::group_wire;

    }
}

impl SecretValue {
    pub fn encode(&self) -> (payload: Result<Vec<u8>, SchemaError>)
        ensures
            wire::outcome(payload) == self@.payload(),
    {
        proof {
            wire::lemma_pow256();
        }
        if self.bytes.len() > MAX_SECRET_BYTES {
            return Err(SchemaError::LimitExceeded);
        }
        if self.content_type.as_str().as_bytes().len() > MAX_SECRET_CONTENT_TYPE_BYTES {
            return Err(SchemaError::LimitExceeded);
        }
        let mut encoder: Encoder = Encoder::new(&SECRET_VALUE_MAGIC);
        encoder.blob(self.bytes.as_slice())?;
        encoder.string(self.content_type.as_str())?;
        encoder.finish()
    }

    pub fn decode(bytes: &[u8]) -> (value: Result<Self, SchemaError>)
        ensures
            wire::outcome(value) == SecretValueView::read(bytes@),
    {
        let mut decoder: Decoder<'_> = Decoder::new(bytes, &SECRET_VALUE_MAGIC)?;
        let bytes: Vec<u8> = decoder.blob(MAX_SECRET_BYTES)?;
        let content_type: String = decoder.string()?;
        decoder.finish()?;
        if content_type.as_str().as_bytes().len() > MAX_SECRET_CONTENT_TYPE_BYTES {
            return Err(SchemaError::LimitExceeded);
        }
        Ok(SecretValue { bytes, content_type })
    }
}

} // verus!
