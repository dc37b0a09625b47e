//! HTTP payloads.
use vstd::prelude::*;

use crate::wire;
use crate::wire::{Decoder, Encoder, Parsed, SchemaError};

verus! {

/// `OMHTTPQ1`
pub const HTTP_REQUEST_MAGIC: [u8; 8] = [79, 77, 72, 84, 84, 80, 81, 49];

/// `OMHTTPR1`
pub const HTTP_RESPONSE_MAGIC: [u8; 8] = [79, 77, 72, 84, 84, 80, 82, 49];

/// `OMHTTPO1`
pub const HTTP_STREAM_OPENED_MAGIC: [u8; 8] = [79, 77, 72, 84, 84, 80, 79, 49];

/// `OMHTTPE1`
pub const HTTP_STREAM_EVENT_MAGIC: [u8; 8] = [79, 77, 72, 84, 84, 80, 69, 49];

/// Leaves room inside the outer broker payload for a maximum-size URL and both
/// bounded metadata fields.
pub const MAX_HTTP_INLINE_BODY_BYTES: u64 = 48128;

pub const MAX_HTTP_STREAM_CHUNK_BYTES: usize = 12288;

/// The method of a request.
#[derive(Clone, Copy, Debug, PartialEq, Eq, Structural)]
pub enum HttpRequestMethod {
    Get,
    Head,
    Post,
    Put,
    Patch,
    Delete,
}

impl HttpRequestMethod {
    /// The byte that stands for this value.
    pub open spec fn code(self) -> u8 {
        match self {
            HttpRequestMethod::Get => 0,
            HttpRequestMethod::Head => 1,
            HttpRequestMethod::Post => 2,
            HttpRequestMethod::Put => 3,
            HttpRequestMethod::Patch => 4,
            HttpRequestMethod::Delete => 5,
        }
    }

    pub open spec fn of_code(code: u8) -> Result<Self, SchemaError> {
        if code == 0 {
            Ok(HttpRequestMethod::Get)
        } else if code == 1 {
            Ok(HttpRequestMethod::Head)
        } else if code == 2 {
            Ok(HttpRequestMethod::Post)
        } else if code == 3 {
            Ok(HttpRequestMethod::Put)
        } else if code == 4 {
            Ok(HttpRequestMethod::Patch)
        } else if code == 5 {
            Ok(HttpRequestMethod::Delete)
        } else {
            Err(SchemaError::Malformed)
        }
    }

    /// Reads the byte of a value.
    pub open spec fn parse(s: Seq<u8>) -> Parsed<Self> {
        match wire::parse_u8(s) {
            Err(e) => Err(e),
            Ok((code, rest)) => match Self::of_code(code) {
                Err(e) => Err(e),
                Ok(value) => Ok((value, rest)),
            },
        }
    }

    pub(crate) fn to_code(self) -> (code: u8)
        ensures
            code == self.code(),
    {
        match self {
            HttpRequestMethod::Get => 0,
            HttpRequestMethod::Head => 1,
            HttpRequestMethod::Post => 2,
            HttpRequestMethod::Put => 3,
            HttpRequestMethod::Patch => 4,
            HttpRequestMethod::Delete => 5,
        }
    }

    pub(crate) fn from_code(code: u8) -> (value: Result<Self, SchemaError>)
        ensures
            value == Self::of_code(code),
    {
        match code {
            0 => Ok(HttpRequestMethod::Get),
            1 => Ok(HttpRequestMethod::Head),
            2 => Ok(HttpRequestMethod::Post),
            3 => Ok(HttpRequestMethod::Put),
            4 => Ok(HttpRequestMethod::Patch),
            5 => Ok(HttpRequestMethod::Delete),
            _ => Err(SchemaError::Malformed),
        }
    }
}

/// A request. `accept` and `content_type` are the only headers that a caller
/// controls: credential-bearing and hop-by-hop headers have no place here.
#[derive(Clone, Debug, PartialEq, Eq)]
pub struct HttpRequest {
    pub method: HttpRequestMethod,
    pub url: String,
    pub accept: Option<String>,
    pub content_type: Option<String>,
    pub body: Vec<u8>,
}

/// [`HttpRequest`], field by field.
#[verifier::ext_equal]
pub struct HttpRequestView {
    pub method: HttpRequestMethod,
    pub url: Seq<char>,
    pub accept: Option<Seq<char>>,
    pub content_type: Option<Seq<char>>,
    pub body: Seq<u8>,
}

impl View for HttpRequest {
    type V = HttpRequestView;

    open spec fn view(&self) -> HttpRequestView {
        HttpRequestView {
            method: self.method,
            url: self.url@,
            accept: wire::optional_view(self.accept),
            content_type: wire::optional_view(self.content_type),
            body: self.body@,
        }
    }
}

impl HttpRequestView {
    /// The bytes of this payload, or why it has none.
    pub open spec fn payload(self) -> Result<Seq<u8>, SchemaError> {
        if self.body.len() > MAX_HTTP_INLINE_BODY_BYTES {
            Err(SchemaError::LimitExceeded)
        } else if !(wire::text_fits(self.url) && wire::optional_text_fits(self.accept)
            && wire::optional_text_fits(self.content_type)) {
            Err(SchemaError::LimitExceeded)
        } else {
            wire::sealed(
                HTTP_REQUEST_MAGIC@ + wire::put_u8(
                    self.method.code(),
                    wire::put_text(
                        self.url,
                        wire::put_optional_text(
                            self.accept,
                            wire::put_optional_text(
                                self.content_type,
                                wire::put_bytes(self.body, 8, Seq::empty()),
                            ),
                        ),
                    ),
                ),
            )
        }
    }

    /// What is read from `bytes`.
    pub open spec fn read(bytes: Seq<u8>) -> Result<Self, SchemaError> {
        match wire::parse_open(bytes, HTTP_REQUEST_MAGIC@) {
            Err(e) => Err(e),
            Ok(s0) => {
                match HttpRequestMethod::parse(s0) {
                    Err(e) => Err(e),
                    Ok((method, s1)) => {
                        match wire::parse_text(s1) {
                            Err(e) => Err(e),
                            Ok((url, s2)) => {
                                match wire::parse_optional_text(s2) {
                                    Err(e) => Err(e),
                                    Ok((accept, s3)) => {
                                        match wire::parse_optional_text(s3) {
                                            Err(e) => Err(e),
                                            Ok((content_type, s4)) => {
                                                match wire::parse_bytes(
                                                    s4,
                                                    8,
                                                    0,
                                                    MAX_HTTP_INLINE_BODY_BYTES as nat,
                                                ) {
                                                    Err(e) => Err(e),
                                                    Ok((body, s5)) => {
                                                        wire::parse_end(
                                                            s5,
                                                            Self {
                                                                method,
                                                                url,
                                                                accept,
                                                                content_type,
                                                                body,
                                                            },
                                                        )
                                                    },
                                                }
                                            },
                                        }
                                    },
                                }
                            },
                        }
                    },
                }
            },
        }
    }

    /// What was written is read back.
    pub proof fn round_trip(self)
        ensures
            self.payload() matches Ok(bytes) ==> Self::read(bytes) == Ok::<Self, SchemaError>(self),
    {
        broadcast use wire::group_wire;

        wire::lemma_pow256();
    }

    /// What is read has no other payload than the bytes it was read from.
    pub proof fn canonical(bytes: Seq<u8>)
        ensures
            Self::read(bytes) matches Ok(value) ==> value.payload() == Ok::<Seq<u8>, SchemaError>(
                bytes,
            ),
    {
        broadcast use wire::group_wire;

    }
}

impl HttpRequest {
    pub fn encode(&self) -> (payload: Result<Vec<u8>, SchemaError>)
        ensures
            wire::outcome(payload) == self@.payload(),
    {
        proof {
            wire::lemma_pow256();
        }
        if self.body.len() as u64 > MAX_HTTP_INLINE_BODY_BYTES {
            return Err(SchemaError::LimitExceeded);
        }
        let mut encoder: Encoder = Encoder::new(&HTTP_REQUEST_MAGIC);
        encoder.byte(self.method.to_code());
        encoder.string(self.url.as_str())?;
        encoder.optional_string(&self.accept)?;
        encoder.optional_string(&self.content_type)?;
        encoder.chunk(self.body.as_slice());
        encoder.finish()
    }

    pub fn decode(bytes: &[u8]) -> (value: Result<Self, SchemaError>)
        ensures
            wire::outcome(value) == HttpRequestView::read(bytes@),
    {
        let mut decoder: Decoder<'_> = Decoder::new(bytes, &HTTP_REQUEST_MAGIC)?;
        let method: HttpRequestMethod = HttpRequestMethod::from_code(decoder.byte()?)?;
        let url: String = decoder.string()?;
        let accept: Option<String> = decoder.optional_string()?;
        let content_type: Option<String> = decoder.optional_string()?;
        let body: Vec<u8> = decoder.chunk(0, MAX_HTTP_INLINE_BODY_BYTES as usize)?;
        decoder.finish()?;
        Ok(HttpRequest { method, url, accept, content_type, body })
    }
}

/// The status codes that a response can have.
pub open spec fn http_status(status: u16) -> bool {
    100 <= status <= 599
}

/// A complete response.
#[derive(Clone, Debug, PartialEq, Eq)]
pub struct HttpResponse {
    pub status: u16,
    pub final_url: String,
    pub content_type: Option<String>,
    pub etag: Option<String>,
    pub body: Vec<u8>,
}

/// [`HttpResponse`], field by field.
#[verifier::ext_equal]
pub struct HttpResponseView {
    pub status: u16,
    pub final_url: Seq<char>,
    pub content_type: Option<Seq<char>>,
    pub etag: Option<Seq<char>>,
    pub body: Seq<u8>,
}

impl View for HttpResponse {
    type V = HttpResponseView;

    open spec fn view(&self) -> HttpResponseView {
        HttpResponseView {
            status: self.status,
            final_url: self.final_url@,
            content_type: wire::optional_view(self.content_type),
            etag: wire::optional_view(self.etag),
            body: self.body@,
        }
    }
}

impl HttpResponseView {
    /// The bytes of this payload, or why it has none.
    pub open spec fn payload(self) -> Result<Seq<u8>, SchemaError> {
        if !http_status(self.status) || self.body.len() > MAX_HTTP_INLINE_BODY_BYTES {
            Err(SchemaError::LimitExceeded)
        } else if !(wire::text_fits(self.final_url) && wire::optional_text_fits(self.content_type)
            && wire::optional_text_fits(self.etag)) {
            Err(SchemaError::LimitExceeded)
        } else {
            wire::sealed(
                HTTP_RESPONSE_MAGIC@ + wire::put_u16(
                    self.status,
                    wire::put_text(
                        self.final_url,
                        wire::put_optional_text(
                            self.content_type,
                            wire::put_optional_text(
                                self.etag,
                                wire::put_bytes(self.body, 8, Seq::empty()),
                            ),
                        ),
                    ),
                ),
            )
        }
    }

    /// What is read from `bytes`.
    pub open spec fn read(bytes: Seq<u8>) -> Result<Self, SchemaError> {
        match wire::parse_open(bytes, HTTP_RESPONSE_MAGIC@) {
            Err(e) => Err(e),
            Ok(s0) => {
                match wire::parse_u16(s0) {
                    Err(e) => Err(e),
                    Ok((status, s1)) => {
                        if !http_status(status) {
                            Err(SchemaError::Malformed)
                        } else {
                            match wire::parse_text(s1) {
                                Err(e) => Err(e),
                                Ok((final_url, s2)) => {
                                    match wire::parse_optional_text(s2) {
                                        Err(e) => Err(e),
                                        Ok((content_type, s3)) => {
                                            match wire::parse_optional_text(s3) {
                                                Err(e) => Err(e),
                                                Ok((etag, s4)) => {
                                                    match wire::parse_bytes(
                                                        s4,
                                                        8,
                                                        0,
                                                        MAX_HTTP_INLINE_BODY_BYTES as nat,
                                                    ) {
                                                        Err(e) => Err(e),
                                                        Ok((body, s5)) => {
                                                            wire::parse_end(
                                                                s5,
                                                                Self {
                                                                    status,
                                                                    final_url,
                                                                    content_type,
                                                                    etag,
                                                                    body,
                                                                },
                                                            )
                                                        },
                                                    }
                                                },
                                            }
                                        },
                                    }
                                },
                            }
                        }
                    },
                }
            },
        }
    }

    /// What was written is read back.
    pub proof fn round_trip(self)
        ensures
            self.payload() matches Ok(bytes) ==> Self::read(bytes) == Ok::<Self, SchemaError>(self),
    {
        broadcast use wire::group_wire;

        wire::lemma_pow256();
    }

    /// What is read has no other payload than the bytes it was read from.
    pub proof fn canonical(bytes: Seq<u8>)
        ensures
            Self::read(bytes) matches Ok(value) ==> value.payload() == Ok::<Seq<u8>, SchemaError>(
                bytes,
            ),
    {
        broadcast use wire::group_wire;

    }
}

impl HttpResponse {
    pub fn encode(&self) -> (payload: Result<Vec<u8>, SchemaError>)
        ensures
            wire::outcome(payload) == self@.payload(),
    {
        proof {
            wire::lemma_pow256();
        }
        if self.status < 100 || self.status > 599
            || self.body.len() as u64 > MAX_HTTP_INLINE_BODY_BYTES {
            return Err(SchemaError::LimitExceeded);
        }
        let mut encoder: Encoder = Encoder::new(&HTTP_RESPONSE_MAGIC);
        encoder.u16(self.status);
        encoder.string(self.final_url.as_str())?;
        encoder.optional_string(&self.content_type)?;
        encoder.optional_string(&self.etag)?;
        encoder.chunk(self.body.as_slice());
        encoder.finish()
    }

    pub fn decode(bytes: &[u8]) -> (value: Result<Self, SchemaError>)
        ensures
            wire::outcome(value) == HttpResponseView::read(bytes@),
    {
        let mut decoder: Decoder<'_> = Decoder::new(bytes, &HTTP_RESPONSE_MAGIC)?;
        let status: u16 = decoder.u16()?;
        if status < 100 || status > 599 {
            return Err(SchemaError::Malformed);
        }
        let final_url: String = decoder.string()?;
        let content_type: Option<String> = decoder.optional_string()?;
        let etag: Option<String> = decoder.optional_string()?;
        let body: Vec<u8> = decoder.chunk(0, MAX_HTTP_INLINE_BODY_BYTES as usize)?;
        decoder.finish()?;
        Ok(HttpResponse { status, final_url, content_type, etag, body })
    }
}

/// The stream that a request was given.
#[derive(Clone, Copy, Debug, PartialEq, Eq)]
pub struct HttpStreamOpened {
    pub resource_id: u64,
}

impl HttpStreamOpened {
    /// The bytes of this payload, or why it has none.
    pub open spec fn payload(self) -> Result<Seq<u8>, SchemaError> {
        if self.resource_id == 0 {
            Err(SchemaError::Malformed)
        } else {
            wire::sealed(HTTP_STREAM_OPENED_MAGIC@ + wire::put_u64(self.resource_id, Seq::empty()))
        }
    }

    /// What is read from `bytes`.
    pub open spec fn read(bytes: Seq<u8>) -> Result<Self, SchemaError> {
        match wire::parse_open(bytes, HTTP_STREAM_OPENED_MAGIC@) {
            Err(e) => Err(e),
            Ok(s0) => {
                match wire::parse_u64(s0) {
                    Err(e) => Err(e),
                    Ok((resource_id, s1)) => {
                        match wire::parse_end(s1, ()) {
                            Err(e) => Err(e),
                            Ok(_) => if resource_id == 0 {
                                Err(SchemaError::Malformed)
                            } else {
                                Ok(Self { resource_id })
                            },
                        }
                    },
                }
            },
        }
    }

    /// What was written is read back.
    pub proof fn round_trip(self)
        ensures
            self.payload() matches Ok(bytes) ==> Self::read(bytes) == Ok::<Self, SchemaError>(self),
    {
        broadcast use wire::group_wire;

        wire::lemma_pow256();
    }

    /// What is read has no other payload than the bytes it was read from.
    pub proof fn canonical(bytes: Seq<u8>)
        ensures
            Self::read(bytes) matches Ok(value) ==> value.payload() == Ok::<Seq<u8>, SchemaError>(
                bytes,
            ),
    {
        broadcast use wire::group_wire;

    }

    pub fn encode(self) -> (payload: Result<Vec<u8>, SchemaError>)
        ensures
            wire::outcome(payload) == self.payload(),
    {
        if self.resource_id == 0 {
            return Err(SchemaError::Malformed);
        }
        let mut encoder: Encoder = Encoder::new(&HTTP_STREAM_OPENED_MAGIC);
        encoder.u64(self.resource_id);
        encoder.finish()
    }

    pub fn decode(bytes: &[u8]) -> (value: Result<Self, SchemaError>)
        ensures
            value == HttpStreamOpened::read(bytes@),
    {
        let mut decoder: Decoder<'_> = Decoder::new(bytes, &HTTP_STREAM_OPENED_MAGIC)?;
        let resource_id: u64 = decoder.u64()?;
        decoder.finish()?;
        if resource_id == 0 {
            return Err(SchemaError::Malformed);
        }
        Ok(HttpStreamOpened { resource_id })
    }
}

/// One step of a response stream.
#[derive(Clone, Debug, PartialEq, Eq)]
pub enum HttpStreamEvent {
    Metadata {
        status: u16,
        final_url: String,
        content_type: Option<String>,
        etag: Option<String>,
    },
    Chunk(Vec<u8>),
    Complete { total_bytes: u64 },
}

/// [`HttpStreamEvent`], field by field.
#[verifier::ext_equal]
pub enum HttpStreamEventView {
    Metadata {
        status: u16,
        final_url: Seq<char>,
        content_type: Option<Seq<char>>,
        etag: Option<Seq<char>>,
    },
    Chunk(Seq<u8>),
    Complete { total_bytes: u64 },
}

impl View for HttpStreamEvent {
    type V = HttpStreamEventView;

    open spec fn view(&self) -> HttpStreamEventView {
        match *self {
            HttpStreamEvent::Metadata { status, final_url, content_type, etag } => {
                HttpStreamEventView::Metadata {
                    status,
                    final_url: final_url@,
                    content_type: wire::optional_view(content_type),
                    etag: wire::optional_view(etag),
                }
            },
            HttpStreamEvent::Chunk(bytes) => HttpStreamEventView::Chunk(bytes@),
            HttpStreamEvent::Complete { total_bytes } => {
                HttpStreamEventView::Complete { total_bytes }
            },
        }
    }
}

impl HttpStreamEventView {
    /// The bytes of this payload, or why it has none.
    pub open spec fn payload(self) -> Result<Seq<u8>, SchemaError> {
        match self {
            HttpStreamEventView::Metadata { status, final_url, content_type, etag } => {
                if !http_status(status) {
                    Err(SchemaError::Malformed)
                } else if !(wire::text_fits(final_url) && wire::optional_text_fits(content_type)
                    && wire::optional_text_fits(etag)) {
                    Err(SchemaError::LimitExceeded)
                } else {
                    wire::sealed(
                        HTTP_STREAM_EVENT_MAGIC@ + wire::put_u8(
                            0,
                            wire::put_u16(
                                status,
                                wire::put_text(
                                    final_url,
                                    wire::put_optional_text(
                                        content_type,
                                        wire::put_optional_text(etag, Seq::empty()),
                                    ),
                                ),
                            ),
                        ),
                    )
                }
            },
            HttpStreamEventView::Chunk(bytes) => if bytes.len() == 0 || bytes.len()
                > MAX_HTTP_STREAM_CHUNK_BYTES {
                Err(SchemaError::LimitExceeded)
            } else {
                wire::sealed(
                    HTTP_STREAM_EVENT_MAGIC@ + wire::put_u8(
                        1,
                        wire::put_bytes(bytes, 8, Seq::empty()),
                    ),
                )
            },
            HttpStreamEventView::Complete { total_bytes } => wire::sealed(
                HTTP_STREAM_EVENT_MAGIC@ + wire::put_u8(
                    2,
                    wire::put_u64(total_bytes, Seq::empty()),
                ),
            ),
        }
    }

    /// What follows the byte that tells the steps apart.
    pub open spec fn parse_step(tag: u8, s: Seq<u8>) -> Parsed<Self> {
        if tag == 0 {
            match wire::parse_u16(s) {
                Err(e) => Err(e),
                Ok((status, s1)) => if !http_status(status) {
                    Err(SchemaError::Malformed)
                } else {
                    match wire::parse_text(s1) {
                        Err(e) => Err(e),
                        Ok((final_url, s2)) => match wire::parse_optional_text(s2) {
                            Err(e) => Err(e),
                            Ok((content_type, s3)) => match wire::parse_optional_text(s3) {
                                Err(e) => Err(e),
                                Ok((etag, rest)) => Ok(
                                    (
                                        HttpStreamEventView::Metadata {
                                            status,
                                            final_url,
                                            content_type,
                                            etag,
                                        },
                                        rest,
                                    ),
                                ),
                            },
                        },
                    }
                },
            }
        } else if tag == 1 {
            match wire::parse_bytes(s, 8, 1, MAX_HTTP_STREAM_CHUNK_BYTES as nat) {
                Err(e) => Err(e),
                Ok((bytes, rest)) => Ok((HttpStreamEventView::Chunk(bytes), rest)),
            }
        } else if tag == 2 {
            match wire::parse_u64(s) {
                Err(e) => Err(e),
                Ok((total_bytes, rest)) => Ok(
                    (HttpStreamEventView::Complete { total_bytes }, rest),
                ),
            }
        } else {
            Err(SchemaError::Malformed)
        }
    }

    /// What is read from `bytes`.
    pub open spec fn read(bytes: Seq<u8>) -> Result<Self, SchemaError> {
        match wire::parse_open(bytes, HTTP_STREAM_EVENT_MAGIC@) {
            Err(e) => Err(e),
            Ok(s0) => match wire::parse_u8(s0) {
                Err(e) => Err(e),
                Ok((tag, s1)) => match Self::parse_step(tag, s1) {
                    Err(e) => Err(e),
                    Ok((value, rest)) => wire::parse_end(rest, value),
                },
            },
        }
    }

    /// What was written is read back.
    pub proof fn round_trip(self)
        ensures
            self.payload() matches Ok(bytes) ==> Self::read(bytes) == Ok::<Self, SchemaError>(self),
    {
        broadcast use wire::group_wire;

        wire::lemma_pow256();
        match self {
            HttpStreamEventView::Metadata { status, final_url, content_type, etag } => {
                if self.payload() is Ok {
                    let s3 = wire::put_optional_text(etag, Seq::empty());
                    let s2 = wire::put_optional_text(content_type, s3);
                    let s1 = wire::put_text(final_url, s2);
                    assert(Self::parse_step(0, wire::put_u16(status, s1)) == Ok::<
                        (Self, Seq<u8>),
                        SchemaError,
                    >((self, Seq::empty()))) by {
                        assert(wire::parse_text(s1) == Ok::<(Seq<char>, Seq<u8>), SchemaError>(
                            (final_url, s2),
                        ));
                        assert(wire::parse_optional_text(s2) == Ok::<
                            (Option<Seq<char>>, Seq<u8>),
                            SchemaError,
                        >((content_type, s3)));
                    }
                    assert(wire::parse_u8(wire::put_u8(0, wire::put_u16(status, s1))) is Ok);
                }
            },
            HttpStreamEventView::Chunk(bytes) => {
                let s1 = wire::put_bytes(bytes, 8, Seq::empty());
                assert(wire::parse_u8(wire::put_u8(1, s1)) is Ok);
            },
            HttpStreamEventView::Complete { total_bytes } => {
                assert(
                    wire::parse_u8(wire::put_u8(2, wire::put_u64(total_bytes, Seq::empty()))) is Ok
                );
            },
        }
    }

    /// What is read has no other payload than the bytes it was read from.
    pub proof fn canonical(bytes: Seq<u8>)
        ensures
            Self::read(bytes) matches Ok(value) ==> value.payload() == Ok::<Seq<u8>, SchemaError>(
                bytes,
            ),
    {
        broadcast use wire::group_wire;

    }
}

impl HttpStreamEvent {
    pub fn encode(&self) -> (payload: Result<Vec<u8>, SchemaError>)
        ensures
            wire::outcome(payload) == self@.payload(),
    {
        let mut encoder: Encoder = Encoder::new(&HTTP_STREAM_EVENT_MAGIC);
        match self {
            HttpStreamEvent::Metadata { status, final_url, content_type, etag } => {
                if *status < 100 || *status > 599 {
                    return Err(SchemaError::Malformed);
                }
                encoder.byte(0);
                encoder.u16(*status);
                encoder.string(final_url.as_str())?;
                encoder.optional_string(content_type)?;
                encoder.optional_string(etag)?;
            },
            HttpStreamEvent::Chunk(bytes) => {
                if bytes.len() == 0 || bytes.len() > MAX_HTTP_STREAM_CHUNK_BYTES {
                    return Err(SchemaError::LimitExceeded);
                }
                encoder.byte(1);
                encoder.chunk(bytes.as_slice());
            },
            HttpStreamEvent::Complete { total_bytes } => {
                encoder.byte(2);
                encoder.u64(*total_bytes);
            },
        }
        encoder.finish()
    }

    pub fn decode(bytes: &[u8]) -> (value: Result<Self, SchemaError>)
        ensures
            wire::outcome(value) == HttpStreamEventView::read(bytes@),
    {
        let mut decoder: Decoder<'_> = Decoder::new(bytes, &HTTP_STREAM_EVENT_MAGIC)?;
        let tag: u8 = decoder.byte()?;
        let event: HttpStreamEvent = match tag {
            0 => {
                let status: u16 = decoder.u16()?;
                if status < 100 || status > 599 {
                    return Err(SchemaError::Malformed);
                }
                let final_url: String = decoder.string()?;
                let content_type: Option<String> = decoder.optional_string()?;
                let etag: Option<String> = decoder.optional_string()?;
                HttpStreamEvent::Metadata { status, final_url, content_type, etag }
            },
            1 => {
                let bytes: Vec<u8> = decoder.chunk(1, MAX_HTTP_STREAM_CHUNK_BYTES)?;
                HttpStreamEvent::Chunk(bytes)
            },
            2 => {
                let total_bytes: u64 = decoder.u64()?;
                HttpStreamEvent::Complete { total_bytes }
            },
            _ => {
                return Err(SchemaError::Malformed);
            },
        };
        decoder.finish()?;
        Ok(event)
    }
}

} // verus!
