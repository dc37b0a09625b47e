//! The payload that opens a URI.
use vstd::prelude::*;

use crate::wire;
use crate::wire::{Decoder, Encoder, SchemaError};

verus! {

/// `OMURIOP1`
pub const URI_OPEN_MAGIC: [u8; 8] = [79, 77, 85, 82, 73, 79, 80, 49];

pub const MAX_URI_BYTES: usize = 4096;

/// Opens one URI through the desktop portal.
#[derive(Clone, Debug, PartialEq, Eq)]
pub struct UriOpenRequest {
    pub uri: String,
}

/// [`UriOpenRequest`], field by field.
#[verifier::ext_equal]
pub struct UriOpenRequestView {
    pub uri: Seq<char>,
}

impl View for UriOpenRequest {
    type V = UriOpenRequestView;

    open spec fn view(&self) -> UriOpenRequestView {
        UriOpenRequestView {
            uri: self.uri@,
        }
    }
}

impl UriOpenRequestView {
    /// The bytes of this payload, or why it has none.
    pub open spec fn payload(self) -> Result<Seq<u8>, SchemaError> {
        if wire::text_bytes(self.uri) > MAX_URI_BYTES {
            Err(SchemaError::LimitExceeded)
        } else if !(wire::text_fits(self.uri)) {
            Err(SchemaError::LimitExceeded)
        } else {
            wire::sealed(URI_OPEN_MAGIC@ + wire::put_text(self.uri, Seq::empty()))
        }
    }

    /// What is read from `bytes`.
    pub open spec fn read(bytes: Seq<u8>) -> Result<Self, SchemaError> {
        match wire::parse_open(bytes, URI_OPEN_MAGIC@) {
            Err(e) => Err(e),
            Ok(s0) => {
                match wire::parse_text(s0) {
                    Err(e) => Err(e),
                    Ok((uri, s1)) => {
                        match wire::parse_end(s1, ()) {
                            Err(e) => Err(e),
                            Ok(_) => if wire::text_bytes(uri) > MAX_URI_BYTES {
                                Err(SchemaError::LimitExceeded)
                            } else {
                                Ok(Self { uri })
                            },
                        }
                    },
                }
            },
        }
    }

    /// What was written is read back.
    pub proof fn round_trip(self)
        ensures
            self.payload() matches Ok(bytes) ==> Self::read(bytes) == Ok::<Self, SchemaError>(self),
    {
        broadcast use wire::group_wire;

        wire::lemma_pow256();
    }

    /// What is read has no other payload than the bytes it was read from.
    pub proof fn canonical(bytes: Seq<u8>)
        ensures
            Self::read(bytes) matches Ok(value) ==> value.payload() == Ok::<Seq<u8>, SchemaError>(
                bytes,
            ),
    {
        broadcast use wire::group_wire;

    }
}

impl UriOpenRequest {
    pub fn encode(&self) -> (payload: Result<Vec<u8>, SchemaError>)
        ensures
            wire::outcome(payload) == self@.payload(),
    {
        if self.uri.as_str().as_bytes().len() > MAX_URI_BYTES {
            return Err(SchemaError::LimitExceeded);
        }
        let mut encoder: Encoder = Encoder::new(&URI_OPEN_MAGIC);
        encoder.string(self.uri.as_str())?;
        encoder.finish()
    }

    pub fn decode(bytes: &[u8]) -> (value: Result<Self, SchemaError>)
        ensures
            wire::outcome(value) == UriOpenRequestView::read(bytes@),
    {
        let mut decoder: Decoder<'_> = Decoder::new(bytes, &URI_OPEN_MAGIC)?;
        let uri: String = decoder.string()?;
        decoder.finish()?;
        if uri.as_str().as_bytes().len() > MAX_URI_BYTES {
            return Err(SchemaError::LimitExceeded);
        }
        Ok(UriOpenRequest { uri })
    }
}

} // verus!
