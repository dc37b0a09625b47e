//! Payloads of framed local connections.
use vstd::prelude::*;

use crate::wire;
use crate::wire::{Decoder, Encoder, SchemaError};

verus! {

/// `OMLOCNQ1`
pub const LOCAL_CONNECT_MAGIC: [u8; 8] = [79, 77, 76, 79, 67, 78, 81, 49];

/// `OMLOCNO1`
pub const LOCAL_OPENED_MAGIC: [u8; 8] = [79, 77, 76, 79, 67, 78, 79, 49];

/// `OMLOCNS1`
pub const LOCAL_SEND_MAGIC: [u8; 8] = [79, 77, 76, 79, 67, 78, 83, 49];

/// `OMLOCNE1`
pub const LOCAL_EVENT_MAGIC: [u8; 8] = [79, 77, 76, 79, 67, 78, 69, 49];

pub const MAX_LOCAL_FRAME_BYTES: usize = 12288;

/// Opens a connection to a granted local endpoint.
#[derive(Clone, Debug, PartialEq, Eq)]
pub struct LocalConnect {
    pub endpoint: String,
    pub protocol: String,
}

/// [`LocalConnect`], field by field.
#[verifier::ext_equal]
pub struct LocalConnectView {
    pub endpoint: Seq<char>,
    pub protocol: Seq<char>,
}

impl View for LocalConnect {
    type V = LocalConnectView;

    open spec fn view(&self) -> LocalConnectView {
        LocalConnectView {
            endpoint: self.endpoint@,
            protocol: self.protocol@,
        }
    }
}

impl LocalConnectView {
    /// The bytes of this payload, or why it has none.
    pub open spec fn payload(self) -> Result<Seq<u8>, SchemaError> {
        if !(wire::text_fits(self.endpoint) && wire::text_fits(self.protocol)) {
            Err(SchemaError::LimitExceeded)
        } else {
            wire::sealed(
                LOCAL_CONNECT_MAGIC@ + wire::put_text(
                    self.endpoint,
                    wire::put_text(self.protocol, Seq::empty()),
                ),
            )
        }
    }

    /// What is read from `bytes`.
    pub open spec fn read(bytes: Seq<u8>) -> Result<Self, SchemaError> {
        match wire::parse_open(bytes, LOCAL_CONNECT_MAGIC@) {
            Err(e) => Err(e),
            Ok(s0) => {
                match wire::parse_text(s0) {
                    Err(e) => Err(e),
                    Ok((endpoint, s1)) => {
                        match wire::parse_text(s1) {
                            Err(e) => Err(e),
                            Ok((protocol, s2)) => {
                                wire::parse_end(s2, Self { endpoint, protocol })
                            },
                        }
                    },
                }
            },
        }
    }

    /// What was written is read back.
    pub proof fn round_trip(self)
        ensures
            self.payload() matches Ok(bytes) ==> Self::read(bytes) == Ok::<Self, SchemaError>(self),
    {
        broadcast use wire::group_wire;

        wire::lemma_pow256();
    }

    /// What is read has no other payload than the bytes it was read from.
    pub proof fn canonical(bytes: Seq<u8>)
        ensures
            Self::read(bytes) matches Ok(value) ==> value.payload() == Ok::<Seq<u8>, SchemaError>(
                bytes,
            ),
    {
        broadcast use wire::group_wire;

    }
}

impl LocalConnect {
    pub fn encode(&self) -> (payload: Result<Vec<u8>, SchemaError>)
        ensures
            wire::outcome(payload) == self@.payload(),
    {
        let mut encoder: Encoder = Encoder::new(&LOCAL_CONNECT_MAGIC);
        encoder.string(self.endpoint.as_str())?;
        encoder.string(self.protocol.as_str())?;
        encoder.finish()
    }

    pub fn decode(bytes: &[u8]) -> (value: Result<Self, SchemaError>)
        ensures
            wire::outcome(value) == LocalConnectView::read(bytes@),
    {
        let mut decoder: Decoder<'_> = Decoder::new(bytes, &LOCAL_CONNECT_MAGIC)?;
        let endpoint: String = decoder.string()?;
        let protocol: String = decoder.string()?;
        decoder.finish()?;
        Ok(LocalConnect { endpoint, protocol })
    }
}

/// A local connection and the largest frame that it takes.
#[derive(Clone, Copy, Debug, PartialEq, Eq)]
pub struct LocalConnectionOpened {
    pub resource_id: u64,
    pub maximum_frame_bytes: u32,
}

impl LocalConnectionOpened {
    /// The bytes of this payload, or why it has none.
    pub open spec fn payload(self) -> Result<Seq<u8>, SchemaError> {
        if self.resource_id == 0 || self.maximum_frame_bytes == 0
            || self.maximum_frame_bytes > MAX_LOCAL_FRAME_BYTES {
            Err(SchemaError::Malformed)
        } else {
            wire::sealed(
                LOCAL_OPENED_MAGIC@ + wire::put_u64(
                    self.resource_id,
                    wire::put_u32(self.maximum_frame_bytes, Seq::empty()),
                ),
            )
        }
    }

    /// What is read from `bytes`.
    pub open spec fn read(bytes: Seq<u8>) -> Result<Self, SchemaError> {
        match wire::parse_open(bytes, LOCAL_OPENED_MAGIC@) {
            Err(e) => Err(e),
            Ok(s0) => {
                match wire::parse_u64(s0) {
                    Err(e) => Err(e),
                    Ok((resource_id, s1)) => {
                        match wire::parse_u32(s1) {
                            Err(e) => Err(e),
                            Ok((maximum_frame_bytes, s2)) => {
                                match wire::parse_end(s2, ()) {
                                    Err(e) => Err(e),
                                    Ok(_) => if resource_id == 0 || maximum_frame_bytes == 0
                                        || maximum_frame_bytes > MAX_LOCAL_FRAME_BYTES {
                                        Err(SchemaError::Malformed)
                                    } else {
                                        Ok(Self { resource_id, maximum_frame_bytes })
                                    },
                                }
                            },
                        }
                    },
                }
            },
        }
    }

    /// What was written is read back.
    pub proof fn round_trip(self)
        ensures
            self.payload() matches Ok(bytes) ==> Self::read(bytes) == Ok::<Self, SchemaError>(self),
    {
        broadcast use wire::group_wire;

        wire::lemma_pow256();
    }

    /// What is read has no other payload than the bytes it was read from.
    pub proof fn canonical(bytes: Seq<u8>)
        ensures
            Self::read(bytes) matches Ok(value) ==> value.payload() == Ok::<Seq<u8>, SchemaError>(
                bytes,
            ),
    {
        broadcast use wire::group_wire;

    }

    pub fn encode(self) -> (payload: Result<Vec<u8>, SchemaError>)
        ensures
            wire::outcome(payload) == self.payload(),
    {
        if self.resource_id == 0 || self.maximum_frame_bytes == 0
            || self.maximum_frame_bytes as usize > MAX_LOCAL_FRAME_BYTES {
            return Err(SchemaError::Malformed);
        }
        let mut encoder: Encoder = Encoder::new(&LOCAL_OPENED_MAGIC);
        encoder.u64(self.resource_id);
        encoder.u32(self.maximum_frame_bytes);
        encoder.finish()
    }

    pub fn decode(bytes: &[u8]) -> (value: Result<Self, SchemaError>)
        ensures
            value == LocalConnectionOpened::read(bytes@),
    {
        let mut decoder: Decoder<'_> = Decoder::new(bytes, &LOCAL_OPENED_MAGIC)?;
        let resource_id: u64 = decoder.u64()?;
        let maximum_frame_bytes: u32 = decoder.u32()?;
        decoder.finish()?;
        if resource_id == 0 || maximum_frame_bytes == 0
            || maximum_frame_bytes as usize > MAX_LOCAL_FRAME_BYTES {
            return Err(SchemaError::Malformed);
        }
        Ok(LocalConnectionOpened { resource_id, maximum_frame_bytes })
    }
}

/// One frame for a local connection.
#[derive(Clone, Debug, PartialEq, Eq)]
pub struct LocalSendFrame {
    pub resource_id: u64,
    pub bytes: Vec<u8>,
}

/// [`LocalSendFrame`], field by field.
#[verifier::ext_equal]
pub struct LocalSendFrameView {
    pub resource_id: u64,
    pub bytes: Seq<u8>,
}

impl View for LocalSendFrame {
    type V = LocalSendFrameView;

    open spec fn view(&self) -> LocalSendFrameView {
        LocalSendFrameView {
            resource_id: self.resource_id,
            bytes: self.bytes@,
        }
    }
}

impl LocalSendFrameView {
    /// The bytes of this payload, or why it has none.
    pub open spec fn payload(self) -> Result<Seq<u8>, SchemaError> {
        if self.resource_id == 0 || self.bytes.len() == 0 {
            Err(SchemaError::Malformed)
        } else if self.bytes.len() > MAX_LOCAL_FRAME_BYTES {
            Err(SchemaError::LimitExceeded)
        } else {
            wire::sealed(
                LOCAL_SEND_MAGIC@ + wire::put_u64(
                    self.resource_id,
                    wire::put_bytes(self.bytes, 4, Seq::empty()),
                ),
            )
        }
    }

    /// What is read from `bytes`.
    pub open spec fn read(bytes: Seq<u8>) -> Result<Self, SchemaError> {
        match wire::parse_open(bytes, LOCAL_SEND_MAGIC@) {
            Err(e) => Err(e),
            Ok(s0) => {
                match wire::parse_u64(s0) {
                    Err(e) => Err(e),
                    Ok((resource_id, s1)) => {
                        match wire::parse_bytes(s1, 4, 0, MAX_LOCAL_FRAME_BYTES as nat) {
                            Err(e) => Err(e),
                            Ok((bytes, s2)) => {
                                match wire::parse_end(s2, ()) {
                                    Err(e) => Err(e),
                                    Ok(_) => if resource_id == 0 || bytes.len() == 0 {
                                        Err(SchemaError::Malformed)
                                    } else {
                                        Ok(Self { resource_id, bytes })
                                    },
                                }
                            },
                        }
                    },
                }
            },
        }
    }

    /// What was written is read back.
    pub proof fn round_trip(self)
        ensures
            self.payload() matches Ok(bytes) ==> Self::read(bytes) == Ok::<Self, SchemaError>(self),
    {
        broadcast use wire::group_wire;

        wire::lemma_pow256();
    }

    /// What is read has no other payload than the bytes it was read from.
    pub proof fn canonical(bytes: Seq<u8>)
        ensures
            Self::read(bytes) matches Ok(value) ==> value.payload() == Ok::<Seq<u8>, SchemaError>(
                bytes,
            ),
    {
        broadcast use wire::group_wire;

    }
}

impl LocalSendFrame {
    pub fn encode(&self) -> (payload: Result<Vec<u8>, SchemaError>)
        ensures
            wire::outcome(payload) == self@.payload(),
    {
        proof {
            wire::lemma_pow256();
        }
        if self.resource_id == 0 || self.bytes.len() == 0 {
            return Err(SchemaError::Malformed);
        }
        if self.bytes.len() > MAX_LOCAL_FRAME_BYTES {
            return Err(SchemaError::LimitExceeded);
        }
        let mut encoder: Encoder = Encoder::new(&LOCAL_SEND_MAGIC);
        encoder.u64(self.resource_id);
        encoder.blob(self.bytes.as_slice())?;
        encoder.finish()
    }

    pub fn decode(bytes: &[u8]) -> (value: Result<Self, SchemaError>)
        ensures
            wire::outcome(value) == LocalSendFrameView::read(bytes@),
    {
        let mut decoder: Decoder<'_> = Decoder::new(bytes, &LOCAL_SEND_MAGIC)?;
        let resource_id: u64 = decoder.u64()?;
        let bytes: Vec<u8> = decoder.blob(MAX_LOCAL_FRAME_BYTES)?;
        decoder.finish()?;
        if resource_id == 0 || bytes.len() == 0 {
            return Err(SchemaError::Malformed);
        }
        Ok(LocalSendFrame { resource_id, bytes })
    }
}

/// One frame from a local connection.
#[derive(Clone, Debug, PartialEq, Eq)]
pub struct LocalFrameEvent {
    pub bytes: Vec<u8>,
}

/// [`LocalFrameEvent`], field by field.
#[verifier::ext_equal]
pub struct LocalFrameEventView {
    pub bytes: Seq<u8>,
}

impl View for LocalFrameEvent {
    type V = LocalFrameEventView;

    open spec fn view(&self) -> LocalFrameEventView {
        LocalFrameEventView {
            bytes: self.bytes@,
        }
    }
}

impl LocalFrameEventView {
    /// The bytes of this payload, or why it has none.
    pub open spec fn payload(self) -> Result<Seq<u8>, SchemaError> {
        if self.bytes.len() == 0 {
            Err(SchemaError::Malformed)
        } else if self.bytes.len() > MAX_LOCAL_FRAME_BYTES {
            Err(SchemaError::LimitExceeded)
        } else {
            wire::sealed(LOCAL_EVENT_MAGIC@ + wire::put_bytes(self.bytes, 4, Seq::empty()))
        }
    }

    /// What is read from `bytes`.
    pub open spec fn read(bytes: Seq<u8>) -> Result<Self, SchemaError> {
        match wire::parse_open(bytes, LOCAL_EVENT_MAGIC@) {
            Err(e) => Err(e),
            Ok(s0) => {
                match wire::parse_bytes(s0, 4, 0, MAX_LOCAL_FRAME_BYTES as nat) {
                    Err(e) => Err(e),
                    Ok((bytes, s1)) => {
                        match wire::parse_end(s1, ()) {
                            Err(e) => Err(e),
                            Ok(_) => if bytes.len() == 0 {
                                Err(SchemaError::Malformed)
                            } else {
                                Ok(Self { bytes })
                            },
                        }
                    },
                }
            },
        }
    }

    /// What was written is read back.
    pub proof fn round_trip(self)
        ensures
            self.payload() matches Ok(bytes) ==> Self::read(bytes) == Ok::<Self, SchemaError>(self),
    {
        broadcast use wire::group_wire;

        wire::lemma_pow256();
    }

    /// What is read has no other payload than the bytes it was read from.
    pub proof fn canonical(bytes: Seq<u8>)
        ensures
            Self::read(bytes) matches Ok(value) ==> value.payload() == Ok::<Seq<u8>, SchemaError>(
                bytes,
            ),
    {
        broadcast use wire::group_wire;

    }
}

impl LocalFrameEvent {
    pub fn encode(&self) -> (payload: Result<Vec<u8>, SchemaError>)
        ensures
            wire::outcome(payload) == self@.payload(),
    {
        proof {
            wire::lemma_pow256();
        }
        if self.bytes.len() == 0 {
            return Err(SchemaError::Malformed);
        }
        if self.bytes.len() > MAX_LOCAL_FRAME_BYTES {
            return Err(SchemaError::LimitExceeded);
        }
        let mut encoder: Encoder = Encoder::new(&LOCAL_EVENT_MAGIC);
        encoder.blob(self.bytes.as_slice())?;
        encoder.finish()
    }

    pub fn decode(bytes: &[u8]) -> (value: Result<Self, SchemaError>)
        ensures
            wire::outcome(value) == LocalFrameEventView::read(bytes@),
    {
        let mut decoder: Decoder<'_> = Decoder::new(bytes, &LOCAL_EVENT_MAGIC)?;
        let bytes: Vec<u8> = decoder.blob(MAX_LOCAL_FRAME_BYTES)?;
        decoder.finish()?;
        if bytes.len() == 0 {
            return Err(SchemaError::Malformed);
        }
        Ok(LocalFrameEvent { bytes })
    }
}

} // verus!
