//! Payloads that read below a granted mount.
use vstd::prelude::*;

use crate::wire;
use crate::wire::{Decoder, Encoder, Parsed, SchemaError};

verus! {

/// `OMFSRED1`
pub const FILE_READ_MAGIC: [u8; 8] = [79, 77, 70, 83, 82, 69, 68, 49];

/// `OMFSRPL1`
pub const FILE_REPLY_MAGIC: [u8; 8] = [79, 77, 70, 83, 82, 80, 76, 49];

/// `OMFSSTQ1`
pub const FILE_STREAM_REQUEST_MAGIC: [u8; 8] = [79, 77, 70, 83, 83, 84, 81, 49];

/// `OMFSSOP1`
pub const FILE_STREAM_OPENED_MAGIC: [u8; 8] = [79, 77, 70, 83, 83, 79, 80, 49];

/// `OMFSSTE1`
pub const FILE_STREAM_EVENT_MAGIC: [u8; 8] = [79, 77, 70, 83, 83, 84, 69, 49];

/// `OMFSLST1`
pub const DIRECTORY_LIST_MAGIC: [u8; 8] = [79, 77, 70, 83, 76, 83, 84, 49];

/// `OMFSDIR1`
pub const DIRECTORY_REPLY_MAGIC: [u8; 8] = [79, 77, 70, 83, 68, 73, 82, 49];

pub const MAX_FILE_CHUNK_BYTES: u64 = 49152;

pub const MAX_FILE_STREAM_BYTES: u64 = 67108864;

pub const MAX_FILE_STREAM_CHUNK_BYTES: usize = 12288;

pub const MAX_DIRECTORY_ENTRIES: u16 = 256;

/// Reads one chunk of a file below a granted mount.
///
/// `path` is slash-separated and relative to the mount. An empty path is
/// invalid for reads; it stands for the mount root in directory lists only.
#[derive(Clone, Debug, PartialEq, Eq)]
pub struct FilesystemReadFile {
    pub mount: String,
    pub path: String,
    pub offset: u64,
    pub maximum_bytes: u64,
}

/// [`FilesystemReadFile`], field by field.
#[verifier::ext_equal]
pub struct FilesystemReadFileView {
    pub mount: Seq<char>,
    pub path: Seq<char>,
    pub offset: u64,
    pub maximum_bytes: u64,
}

impl View for FilesystemReadFile {
    type V = FilesystemReadFileView;

    open spec fn view(&self) -> FilesystemReadFileView {
        FilesystemReadFileView {
            mount: self.mount@,
            path: self.path@,
            offset: self.offset,
            maximum_bytes: self.maximum_bytes,
        }
    }
}

impl FilesystemReadFileView {
    /// The bytes of this payload, or why it has none.
    pub open spec fn payload(self) -> Result<Seq<u8>, SchemaError> {
        if self.maximum_bytes == 0 || self.maximum_bytes > MAX_FILE_CHUNK_BYTES {
            Err(SchemaError::LimitExceeded)
        } else if self.path.len() == 0 {
            Err(SchemaError::Malformed)
        } else if !(wire::text_fits(self.mount) && wire::text_fits(self.path)) {
            Err(SchemaError::LimitExceeded)
        } else {
            wire::sealed(
                FILE_READ_MAGIC@ + wire::put_text(
                    self.mount,
                    wire::put_text(
                        self.path,
                        wire::put_u64(self.offset, wire::put_u64(self.maximum_bytes, Seq::empty())),
                    ),
                ),
            )
        }
    }

    /// What is read from `bytes`.
    pub open spec fn read(bytes: Seq<u8>) -> Result<Self, SchemaError> {
        match wire::parse_open(bytes, FILE_READ_MAGIC@) {
            Err(e) => Err(e),
            Ok(s0) => {
                match wire::parse_text(s0) {
                    Err(e) => Err(e),
                    Ok((mount, s1)) => {
                        match wire::parse_text(s1) {
                            Err(e) => Err(e),
                            Ok((path, s2)) => {
                                match wire::parse_u64(s2) {
                                    Err(e) => Err(e),
                                    Ok((offset, s3)) => {
                                        match wire::parse_u64(s3) {
                                            Err(e) => Err(e),
                                            Ok((maximum_bytes, s4)) => {
                                                match wire::parse_end(s4, ()) {
                                                    Err(e) => Err(e),
                                                    Ok(_) => if maximum_bytes == 0
                                                        || maximum_bytes > MAX_FILE_CHUNK_BYTES {
                                                        Err(SchemaError::LimitExceeded)
                                                    } else if path.len() == 0 {
                                                        Err(SchemaError::Malformed)
                                                    } else {
                                                        Ok(
                                                            Self {
                                                                mount,
                                                                path,
                                                                offset,
                                                                maximum_bytes,
                                                            },
                                                        )
                                                    },
                                                }
                                            },
                                        }
                                    },
                                }
                            },
                        }
                    },
                }
            },
        }
    }

    /// What was written is read back.
    pub proof fn round_trip(self)
        ensures
            self.payload() matches Ok(bytes) ==> Self::read(bytes) == Ok::<Self, SchemaError>(self),
    {
        broadcast use wire::group_wire;

        wire::lemma_pow256();
    }

    /// What is read has no other payload than the bytes it was read from.
    pub proof fn canonical(bytes: Seq<u8>)
        ensures
            Self::read(bytes) matches Ok(value) ==> value.payload() == Ok::<Seq<u8>, SchemaError>(
                bytes,
            ),
    {
        broadcast use wire::group_wire;

    }
}

impl FilesystemReadFile {
    pub fn encode(&self) -> (payload: Result<Vec<u8>, SchemaError>)
        ensures
            wire::outcome(payload) == self@.payload(),
    {
        if self.maximum_bytes == 0 || self.maximum_bytes > MAX_FILE_CHUNK_BYTES {
            return Err(SchemaError::LimitExceeded);
        }
        if self.path.as_str().is_empty() {
            return Err(SchemaError::Malformed);
        }
        let mut encoder: Encoder = Encoder::new(&FILE_READ_MAGIC);
        encoder.string(self.mount.as_str())?;
        encoder.string(self.path.as_str())?;
        encoder.u64(self.offset);
        encoder.u64(self.maximum_bytes);
        encoder.finish()
    }

    pub fn decode(bytes: &[u8]) -> (value: Result<Self, SchemaError>)
        ensures
            wire::outcome(value) == FilesystemReadFileView::read(bytes@),
    {
        let mut decoder: Decoder<'_> = Decoder::new(bytes, &FILE_READ_MAGIC)?;
        let mount: String = decoder.string()?;
        let path: String = decoder.string()?;
        let offset: u64 = decoder.u64()?;
        let maximum_bytes: u64 = decoder.u64()?;
        decoder.finish()?;
        if maximum_bytes == 0 || maximum_bytes > MAX_FILE_CHUNK_BYTES {
            return Err(SchemaError::LimitExceeded);
        }
        if path.as_str().is_empty() {
            return Err(SchemaError::Malformed);
        }
        Ok(FilesystemReadFile { mount, path, offset, maximum_bytes })
    }
}

/// Reads a part of a file as a stream. As for every read, an empty path is
/// invalid.
#[derive(Clone, Debug, PartialEq, Eq)]
pub struct FilesystemReadStream {
    pub mount: String,
    pub path: String,
    pub offset: u64,
    pub maximum_bytes: u64,
}

/// [`FilesystemReadStream`], field by field.
#[verifier::ext_equal]
pub struct FilesystemReadStreamView {
    pub mount: Seq<char>,
    pub path: Seq<char>,
    pub offset: u64,
    pub maximum_bytes: u64,
}

impl View for FilesystemReadStream {
    type V = FilesystemReadStreamView;

    open spec fn view(&self) -> FilesystemReadStreamView {
        FilesystemReadStreamView {
            mount: self.mount@,
            path: self.path@,
            offset: self.offset,
            maximum_bytes: self.maximum_bytes,
        }
    }
}

impl FilesystemReadStreamView {
    /// The bytes of this payload, or why it has none.
    pub open spec fn payload(self) -> Result<Seq<u8>, SchemaError> {
        if self.maximum_bytes == 0 || self.maximum_bytes > MAX_FILE_STREAM_BYTES {
            Err(SchemaError::LimitExceeded)
        } else if self.path.len() == 0 {
            Err(SchemaError::Malformed)
        } else if !(wire::text_fits(self.mount) && wire::text_fits(self.path)) {
            Err(SchemaError::LimitExceeded)
        } else {
            wire::sealed(
                FILE_STREAM_REQUEST_MAGIC@ + wire::put_text(
                    self.mount,
                    wire::put_text(
                        self.path,
                        wire::put_u64(self.offset, wire::put_u64(self.maximum_bytes, Seq::empty())),
                    ),
                ),
            )
        }
    }

    /// What is read from `bytes`.
    pub open spec fn read(bytes: Seq<u8>) -> Result<Self, SchemaError> {
        match wire::parse_open(bytes, FILE_STREAM_REQUEST_MAGIC@) {
            Err(e) => Err(e),
            Ok(s0) => {
                match wire::parse_text(s0) {
                    Err(e) => Err(e),
                    Ok((mount, s1)) => {
                        match wire::parse_text(s1) {
                            Err(e) => Err(e),
                            Ok((path, s2)) => {
                                match wire::parse_u64(s2) {
                                    Err(e) => Err(e),
                                    Ok((offset, s3)) => {
                                        match wire::parse_u64(s3) {
                                            Err(e) => Err(e),
                                            Ok((maximum_bytes, s4)) => {
                                                match wire::parse_end(s4, ()) {
                                                    Err(e) => Err(e),
                                                    Ok(_) => if maximum_bytes == 0
                                                        || maximum_bytes > MAX_FILE_STREAM_BYTES {
                                                        Err(SchemaError::LimitExceeded)
                                                    } else if path.len() == 0 {
                                                        Err(SchemaError::Malformed)
                                                    } else {
                                                        Ok(
                                                            Self {
                                                                mount,
                                                                path,
                                                                offset,
                                                                maximum_bytes,
                                                            },
                                                        )
                                                    },
                                                }
                                            },
                                        }
                                    },
                                }
                            },
                        }
                    },
                }
            },
        }
    }

    /// What was written is read back.
    pub proof fn round_trip(self)
        ensures
            self.payload() matches Ok(bytes) ==> Self::read(bytes) == Ok::<Self, SchemaError>(self),
    {
        broadcast use wire::group_wire;

        wire::lemma_pow256();
    }

    /// What is read has no other payload than the bytes it was read from.
    pub proof fn canonical(bytes: Seq<u8>)
        ensures
            Self::read(bytes) matches Ok(value) ==> value.payload() == Ok::<Seq<u8>, SchemaError>(
                bytes,
            ),
    {
        broadcast use wire::group_wire;

    }
}

impl FilesystemReadStream {
    pub fn encode(&self) -> (payload: Result<Vec<u8>, SchemaError>)
        ensures
            wire::outcome(payload) == self@.payload(),
    {
        if self.maximum_bytes == 0 || self.maximum_bytes > MAX_FILE_STREAM_BYTES {
            return Err(SchemaError::LimitExceeded);
        }
        if self.path.as_str().is_empty() {
            return Err(SchemaError::Malformed);
        }
        let mut encoder: Encoder = Encoder::new(&FILE_STREAM_REQUEST_MAGIC);
        encoder.string(self.mount.as_str())?;
        encoder.string(self.path.as_str())?;
        encoder.u64(self.offset);
        encoder.u64(self.maximum_bytes);
        encoder.finish()
    }

    pub fn decode(bytes: &[u8]) -> (value: Result<Self, SchemaError>)
        ensures
            wire::outcome(value) == FilesystemReadStreamView::read(bytes@),
    {
        let mut decoder: Decoder<'_> = Decoder::new(bytes, &FILE_STREAM_REQUEST_MAGIC)?;
        let mount: String = decoder.string()?;
        let path: String = decoder.string()?;
        let offset: u64 = decoder.u64()?;
        let maximum_bytes: u64 = decoder.u64()?;
        decoder.finish()?;
        if maximum_bytes == 0 || maximum_bytes > MAX_FILE_STREAM_BYTES {
            return Err(SchemaError::LimitExceeded);
        }
        if path.as_str().is_empty() {
            return Err(SchemaError::Malformed);
        }
        Ok(FilesystemReadStream { mount, path, offset, maximum_bytes })
    }
}

/// The stream that a read was given.
#[derive(Clone, Copy, Debug, PartialEq, Eq)]
pub struct FilesystemStreamOpened {
    pub resource_id: u64,
}

impl FilesystemStreamOpened {
    /// The bytes of this payload, or why it has none.
    pub open spec fn payload(self) -> Result<Seq<u8>, SchemaError> {
        if self.resource_id == 0 {
            Err(SchemaError::Malformed)
        } else {
            wire::sealed(FILE_STREAM_OPENED_MAGIC@ + wire::put_u64(self.resource_id, Seq::empty()))
        }
    }

    /// What is read from `bytes`.
    pub open spec fn read(bytes: Seq<u8>) -> Result<Self, SchemaError> {
        match wire::parse_open(bytes, FILE_STREAM_OPENED_MAGIC@) {
            Err(e) => Err(e),
            Ok(s0) => {
                match wire::parse_u64(s0) {
                    Err(e) => Err(e),
                    Ok((resource_id, s1)) => {
                        match wire::parse_end(s1, ()) {
                            Err(e) => Err(e),
                            Ok(_) => if resource_id == 0 {
                                Err(SchemaError::Malformed)
                            } else {
                                Ok(Self { resource_id })
                            },
                        }
                    },
                }
            },
        }
    }

    /// What was written is read back.
    pub proof fn round_trip(self)
        ensures
            self.payload() matches Ok(bytes) ==> Self::read(bytes) == Ok::<Self, SchemaError>(self),
    {
        broadcast use wire::group_wire;

        wire::lemma_pow256();
    }

    /// What is read has no other payload than the bytes it was read from.
    pub proof fn canonical(bytes: Seq<u8>)
        ensures
            Self::read(bytes) matches Ok(value) ==> value.payload() == Ok::<Seq<u8>, SchemaError>(
                bytes,
            ),
    {
        broadcast use wire::group_wire;

    }

    pub fn encode(self) -> (payload: Result<Vec<u8>, SchemaError>)
        ensures
            wire::outcome(payload) == self.payload(),
    {
        if self.resource_id == 0 {
            return Err(SchemaError::Malformed);
        }
        let mut encoder: Encoder = Encoder::new(&FILE_STREAM_OPENED_MAGIC);
        encoder.u64(self.resource_id);
        encoder.finish()
    }

    pub fn decode(bytes: &[u8]) -> (value: Result<Self, SchemaError>)
        ensures
            value == FilesystemStreamOpened::read(bytes@),
    {
        let mut decoder: Decoder<'_> = Decoder::new(bytes, &FILE_STREAM_OPENED_MAGIC)?;
        let resource_id: u64 = decoder.u64()?;
        decoder.finish()?;
        if resource_id == 0 {
            return Err(SchemaError::Malformed);
        }
        Ok(FilesystemStreamOpened { resource_id })
    }
}

/// A chunk of a file.
#[derive(Clone, Debug, PartialEq, Eq)]
pub struct FilesystemFileChunk {
    pub offset: u64,
    pub total_size: u64,
    pub eof: bool,
    pub bytes: Vec<u8>,
}

/// [`FilesystemFileChunk`], field by field.
#[verifier::ext_equal]
pub struct FilesystemFileChunkView {
    pub offset: u64,
    pub total_size: u64,
    pub eof: bool,
    pub bytes: Seq<u8>,
}

impl View for FilesystemFileChunk {
    type V = FilesystemFileChunkView;

    open spec fn view(&self) -> FilesystemFileChunkView {
        FilesystemFileChunkView {
            offset: self.offset,
            total_size: self.total_size,
            eof: self.eof,
            bytes: self.bytes@,
        }
    }
}

impl FilesystemFileChunkView {
    /// The bytes of this payload, or why it has none.
    pub open spec fn payload(self) -> Result<Seq<u8>, SchemaError> {
        if self.bytes.len() > MAX_FILE_CHUNK_BYTES {
            Err(SchemaError::LimitExceeded)
        } else {
            wire::sealed(
                FILE_REPLY_MAGIC@ + wire::put_u64(
                    self.offset,
                    wire::put_u64(
                        self.total_size,
                        wire::put_bool(self.eof, wire::put_bytes(self.bytes, 8, Seq::empty())),
                    ),
                ),
            )
        }
    }

    /// What is read from `bytes`.
    pub open spec fn read(bytes: Seq<u8>) -> Result<Self, SchemaError> {
        match wire::parse_open(bytes, FILE_REPLY_MAGIC@) {
            Err(e) => Err(e),
            Ok(s0) => {
                match wire::parse_u64(s0) {
                    Err(e) => Err(e),
                    Ok((offset, s1)) => {
                        match wire::parse_u64(s1) {
                            Err(e) => Err(e),
                            Ok((total_size, s2)) => {
                                match wire::parse_bool(s2) {
                                    Err(e) => Err(e),
                                    Ok((eof, s3)) => {
                                        match wire::parse_bytes(
                                            s3,
                                            8,
                                            0,
                                            MAX_FILE_CHUNK_BYTES as nat,
                                        ) {
                                            Err(e) => Err(e),
                                            Ok((bytes, s4)) => {
                                                wire::parse_end(
                                                    s4,
                                                    Self { offset, total_size, eof, bytes },
                                                )
                                            },
                                        }
                                    },
                                }
                            },
                        }
                    },
                }
            },
        }
    }

    /// What was written is read back.
    pub proof fn round_trip(self)
        ensures
            self.payload() matches Ok(bytes) ==> Self::read(bytes) == Ok::<Self, SchemaError>(self),
    {
        broadcast use wire::group_wire;

        wire::lemma_pow256();
    }

    /// What is read has no other payload than the bytes it was read from.
    pub proof fn canonical(bytes: Seq<u8>)
        ensures
            Self::read(bytes) matches Ok(value) ==> value.payload() == Ok::<Seq<u8>, SchemaError>(
                bytes,
            ),
    {
        broadcast use wire::group_wire;

    }
}

impl FilesystemFileChunk {
    pub fn encode(&self) -> (payload: Result<Vec<u8>, SchemaError>)
        ensures
            wire::outcome(payload) == self@.payload(),
    {
        proof {
            wire::lemma_pow256();
        }
        if self.bytes.len() as u64 > MAX_FILE_CHUNK_BYTES {
            return Err(SchemaError::LimitExceeded);
        }
        let mut encoder: Encoder = Encoder::new(&FILE_REPLY_MAGIC);
        encoder.u64(self.offset);
        encoder.u64(self.total_size);
        encoder.flag(self.eof);
        encoder.chunk(self.bytes.as_slice());
        encoder.finish()
    }

    pub fn decode(bytes: &[u8]) -> (value: Result<Self, SchemaError>)
        ensures
            wire::outcome(value) == FilesystemFileChunkView::read(bytes@),
    {
        let mut decoder: Decoder<'_> = Decoder::new(bytes, &FILE_REPLY_MAGIC)?;
        let offset: u64 = decoder.u64()?;
        let total_size: u64 = decoder.u64()?;
        let eof: bool = decoder.flag()?;
        let bytes: Vec<u8> = decoder.chunk(0, MAX_FILE_CHUNK_BYTES as usize)?;
        decoder.finish()?;
        Ok(FilesystemFileChunk { offset, total_size, eof, bytes })
    }
}

/// Lists a directory below a granted mount. An empty path is the mount itself.
#[derive(Clone, Debug, PartialEq, Eq)]
pub struct FilesystemListDirectory {
    pub mount: String,
    pub path: String,
    pub maximum_entries: u16,
}

/// [`FilesystemListDirectory`], field by field.
#[verifier::ext_equal]
pub struct FilesystemListDirectoryView {
    pub mount: Seq<char>,
    pub path: Seq<char>,
    pub maximum_entries: u16,
}

impl View for FilesystemListDirectory {
    type V = FilesystemListDirectoryView;

    open spec fn view(&self) -> FilesystemListDirectoryView {
        FilesystemListDirectoryView {
            mount: self.mount@,
            path: self.path@,
            maximum_entries: self.maximum_entries,
        }
    }
}

impl FilesystemListDirectoryView {
    /// The bytes of this payload, or why it has none.
    pub open spec fn payload(self) -> Result<Seq<u8>, SchemaError> {
        if self.maximum_entries == 0 || self.maximum_entries > MAX_DIRECTORY_ENTRIES {
            Err(SchemaError::LimitExceeded)
        } else if !(wire::text_fits(self.mount) && wire::text_fits(self.path)) {
            Err(SchemaError::LimitExceeded)
        } else {
            wire::sealed(
                DIRECTORY_LIST_MAGIC@ + wire::put_text(
                    self.mount,
                    wire::put_text(self.path, wire::put_u16(self.maximum_entries, Seq::empty())),
                ),
            )
        }
    }

    /// What is read from `bytes`.
    pub open spec fn read(bytes: Seq<u8>) -> Result<Self, SchemaError> {
        match wire::parse_open(bytes, DIRECTORY_LIST_MAGIC@) {
            Err(e) => Err(e),
            Ok(s0) => {
                match wire::parse_text(s0) {
                    Err(e) => Err(e),
                    Ok((mount, s1)) => {
                        match wire::parse_text(s1) {
                            Err(e) => Err(e),
                            Ok((path, s2)) => {
                                match wire::parse_u16(s2) {
                                    Err(e) => Err(e),
                                    Ok((maximum_entries, s3)) => {
                                        match wire::parse_end(s3, ()) {
                                            Err(e) => Err(e),
                                            Ok(_) => if maximum_entries == 0
                                                || maximum_entries > MAX_DIRECTORY_ENTRIES {
                                                Err(SchemaError::LimitExceeded)
                                            } else {
                                                Ok(Self { mount, path, maximum_entries })
                                            },
                                        }
                                    },
                                }
                            },
                        }
                    },
                }
            },
        }
    }

    /// What was written is read back.
    pub proof fn round_trip(self)
        ensures
            self.payload() matches Ok(bytes) ==> Self::read(bytes) == Ok::<Self, SchemaError>(self),
    {
        broadcast use wire::group_wire;

        wire::lemma_pow256();
    }

    /// What is read has no other payload than the bytes it was read from.
    pub proof fn canonical(bytes: Seq<u8>)
        ensures
            Self::read(bytes) matches Ok(value) ==> value.payload() == Ok::<Seq<u8>, SchemaError>(
                bytes,
            ),
    {
        broadcast use wire::group_wire;

    }
}

impl FilesystemListDirectory {
    pub fn encode(&self) -> (payload: Result<Vec<u8>, SchemaError>)
        ensures
            wire::outcome(payload) == self@.payload(),
    {
        if self.maximum_entries == 0 || self.maximum_entries > MAX_DIRECTORY_ENTRIES {
            return Err(SchemaError::LimitExceeded);
        }
        let mut encoder: Encoder = Encoder::new(&DIRECTORY_LIST_MAGIC);
        encoder.string(self.mount.as_str())?;
        encoder.string(self.path.as_str())?;
        encoder.u16(self.maximum_entries);
        encoder.finish()
    }

    pub fn decode(bytes: &[u8]) -> (value: Result<Self, SchemaError>)
        ensures
            wire::outcome(value) == FilesystemListDirectoryView::read(bytes@),
    {
        let mut decoder: Decoder<'_> = Decoder::new(bytes, &DIRECTORY_LIST_MAGIC)?;
        let mount: String = decoder.string()?;
        let path: String = decoder.string()?;
        let maximum_entries: u16 = decoder.u16()?;
        decoder.finish()?;
        if maximum_entries == 0 || maximum_entries > MAX_DIRECTORY_ENTRIES {
            return Err(SchemaError::LimitExceeded);
        }
        Ok(FilesystemListDirectory { mount, path, maximum_entries })
    }
}

/// One step of a file stream.
#[derive(Clone, Debug, PartialEq, Eq)]
pub enum FilesystemStreamEvent {
    Metadata { offset: u64, total_size: u64 },
    Chunk { offset: u64, bytes: Vec<u8> },
    Complete { end_offset: u64, total_bytes: u64, eof: bool },
}

/// [`FilesystemStreamEvent`], field by field.
#[verifier::ext_equal]
pub enum FilesystemStreamEventView {
    Metadata { offset: u64, total_size: u64 },
    Chunk { offset: u64, bytes: Seq<u8> },
    Complete { end_offset: u64, total_bytes: u64, eof: bool },
}

impl View for FilesystemStreamEvent {
    type V = FilesystemStreamEventView;

    open spec fn view(&self) -> FilesystemStreamEventView {
        match *self {
            FilesystemStreamEvent::Metadata { offset, total_size } => {
                FilesystemStreamEventView::Metadata { offset, total_size }
            },
            FilesystemStreamEvent::Chunk { offset, bytes } => {
                FilesystemStreamEventView::Chunk { offset, bytes: bytes@ }
            },
            FilesystemStreamEvent::Complete { end_offset, total_bytes, eof } => {
                FilesystemStreamEventView::Complete { end_offset, total_bytes, eof }
            },
        }
    }
}

impl FilesystemStreamEventView {
    /// The bytes of this payload, or why it has none.
    pub open spec fn payload(self) -> Result<Seq<u8>, SchemaError> {
        match self {
            FilesystemStreamEventView::Metadata { offset, total_size } => wire::sealed(
                FILE_STREAM_EVENT_MAGIC@ + wire::put_u8(
                    0,
                    wire::put_u64(offset, wire::put_u64(total_size, Seq::empty())),
                ),
            ),
            FilesystemStreamEventView::Chunk { offset, bytes } => if bytes.len() == 0 || bytes.len()
                > MAX_FILE_STREAM_CHUNK_BYTES {
                Err(SchemaError::LimitExceeded)
            } else {
                wire::sealed(
                    FILE_STREAM_EVENT_MAGIC@ + wire::put_u8(
                        1,
                        wire::put_u64(offset, wire::put_bytes(bytes, 8, Seq::empty())),
                    ),
                )
            },
            FilesystemStreamEventView::Complete { end_offset, total_bytes, eof } => wire::sealed(
                FILE_STREAM_EVENT_MAGIC@ + wire::put_u8(
                    2,
                    wire::put_u64(
                        end_offset,
                        wire::put_u64(total_bytes, wire::put_bool(eof, Seq::empty())),
                    ),
                ),
            ),
        }
    }

    /// What follows the byte that tells the steps apart.
    pub open spec fn parse_step(tag: u8, s: Seq<u8>) -> Parsed<Self> {
        if tag == 0 {
            match wire::parse_u64(s) {
                Err(e) => Err(e),
                Ok((offset, s1)) => match wire::parse_u64(s1) {
                    Err(e) => Err(e),
                    Ok((total_size, rest)) => Ok(
                        (FilesystemStreamEventView::Metadata { offset, total_size }, rest),
                    ),
                },
            }
        } else if tag == 1 {
            match wire::parse_u64(s) {
                Err(e) => Err(e),
                Ok((offset, s1)) => match wire::parse_bytes(
                    s1,
                    8,
                    1,
                    MAX_FILE_STREAM_CHUNK_BYTES as nat,
                ) {
                    Err(e) => Err(e),
                    Ok((bytes, rest)) => Ok(
                        (FilesystemStreamEventView::Chunk { offset, bytes }, rest),
                    ),
                },
            }
        } else if tag == 2 {
            match wire::parse_u64(s) {
                Err(e) => Err(e),
                Ok((end_offset, s1)) => match wire::parse_u64(s1) {
                    Err(e) => Err(e),
                    Ok((total_bytes, s2)) => match wire::parse_bool(s2) {
                        Err(e) => Err(e),
                        Ok((eof, rest)) => Ok(
                            (
                                FilesystemStreamEventView::Complete {
                                    end_offset,
                                    total_bytes,
                                    eof,
                                },
                                rest,
                            ),
                        ),
                    },
                },
            }
        } else {
            Err(SchemaError::Malformed)
        }
    }

    /// What is read from `bytes`.
    pub open spec fn read(bytes: Seq<u8>) -> Result<Self, SchemaError> {
        match wire::parse_open(bytes, FILE_STREAM_EVENT_MAGIC@) {
            Err(e) => Err(e),
            Ok(s0) => match wire::parse_u8(s0) {
                Err(e) => Err(e),
                Ok((tag, s1)) => match Self::parse_step(tag, s1) {
                    Err(e) => Err(e),
                    Ok((event, rest)) => wire::parse_end(rest, event),
                },
            },
        }
    }

    /// What was written is read back.
    pub proof fn round_trip(self)
        ensures
            self.payload() matches Ok(bytes) ==> Self::read(bytes) == Ok::<Self, SchemaError>(self),
    {
        broadcast use wire::group_wire;

        wire::lemma_pow256();
    }

    /// What is read has no other payload than the bytes it was read from.
    pub proof fn canonical(bytes: Seq<u8>)
        ensures
            Self::read(bytes) matches Ok(value) ==> value.payload() == Ok::<Seq<u8>, SchemaError>(
                bytes,
            ),
    {
        broadcast use wire::group_wire;

    }
}

impl FilesystemStreamEvent {
    pub fn encode(&self) -> (payload: Result<Vec<u8>, SchemaError>)
        ensures
            wire::outcome(payload) == self@.payload(),
    {
        let mut encoder: Encoder = Encoder::new(&FILE_STREAM_EVENT_MAGIC);
        match self {
            FilesystemStreamEvent::Metadata { offset, total_size } => {
                encoder.byte(0);
                encoder.u64(*offset);
                encoder.u64(*total_size);
            },
            FilesystemStreamEvent::Chunk { offset, bytes } => {
                if bytes.len() == 0 || bytes.len() > MAX_FILE_STREAM_CHUNK_BYTES {
                    return Err(SchemaError::LimitExceeded);
                }
                encoder.byte(1);
                encoder.u64(*offset);
                encoder.chunk(bytes.as_slice());
            },
            FilesystemStreamEvent::Complete { end_offset, total_bytes, eof } => {
                encoder.byte(2);
                encoder.u64(*end_offset);
                encoder.u64(*total_bytes);
                encoder.flag(*eof);
            },
        }
        encoder.finish()
    }

    pub fn decode(bytes: &[u8]) -> (value: Result<Self, SchemaError>)
        ensures
            wire::outcome(value) == FilesystemStreamEventView::read(bytes@),
    {
        let mut decoder: Decoder<'_> = Decoder::new(bytes, &FILE_STREAM_EVENT_MAGIC)?;
        let tag: u8 = decoder.byte()?;
        let event: FilesystemStreamEvent = match tag {
            0 => {
                let offset: u64 = decoder.u64()?;
                let total_size: u64 = decoder.u64()?;
                FilesystemStreamEvent::Metadata { offset, total_size }
            },
            1 => {
                let offset: u64 = decoder.u64()?;
                let bytes: Vec<u8> = decoder.chunk(1, MAX_FILE_STREAM_CHUNK_BYTES)?;
                FilesystemStreamEvent::Chunk { offset, bytes }
            },
            2 => {
                let end_offset: u64 = decoder.u64()?;
                let total_bytes: u64 = decoder.u64()?;
                let eof: bool = decoder.flag()?;
                FilesystemStreamEvent::Complete { end_offset, total_bytes, eof }
            },
            _ => {
                return Err(SchemaError::Malformed);
            },
        };
        decoder.finish()?;
        Ok(event)
    }
}

/// What a directory entry is.
#[derive(Clone, Copy, Debug, PartialEq, Eq, Structural)]
pub enum FilesystemEntryKind {
    RegularFile,
    Directory,
}

impl FilesystemEntryKind {
    /// The byte that stands for this value.
    pub open spec fn code(self) -> u8 {
        match self {
            FilesystemEntryKind::RegularFile => 0,
            FilesystemEntryKind::Directory => 1,
        }
    }

    pub open spec fn of_code(code: u8) -> Result<Self, SchemaError> {
        if code == 0 {
            Ok(FilesystemEntryKind::RegularFile)
        } else if code == 1 {
            Ok(FilesystemEntryKind::Directory)
        } else {
            Err(SchemaError::Malformed)
        }
    }

    /// Reads the byte of a value.
    pub open spec fn parse(s: Seq<u8>) -> Parsed<Self> {
        match wire::parse_u8(s) {
            Err(e) => Err(e),
            Ok((code, rest)) => match Self::of_code(code) {
                Err(e) => Err(e),
                Ok(value) => Ok((value, rest)),
            },
        }
    }

    pub(crate) fn to_code(self) -> (code: u8)
        ensures
            code == self.code(),
    {
        match self {
            FilesystemEntryKind::RegularFile => 0,
            FilesystemEntryKind::Directory => 1,
        }
    }

    pub(crate) fn from_code(code: u8) -> (value: Result<Self, SchemaError>)
        ensures
            value == Self::of_code(code),
    {
        match code {
            0 => Ok(FilesystemEntryKind::RegularFile),
            1 => Ok(FilesystemEntryKind::Directory),
            _ => Err(SchemaError::Malformed),
        }
    }
}

/// One entry of a directory.
#[derive(Clone, Debug, PartialEq, Eq)]
pub struct FilesystemEntry {
    pub name: String,
    pub kind: FilesystemEntryKind,
    pub size: u64,
}

/// [`FilesystemEntry`], field by field.
#[verifier::ext_equal]
pub struct FilesystemEntryView {
    pub name: Seq<char>,
    pub kind: FilesystemEntryKind,
    pub size: u64,
}

impl View for FilesystemEntry {
    type V = FilesystemEntryView;

    open spec fn view(&self) -> FilesystemEntryView {
        FilesystemEntryView { name: self.name@, kind: self.kind, size: self.size }
    }
}

/// Reads one entry.
pub open spec fn entry_item() -> wire::ItemParser<FilesystemEntryView> {
    |done: Seq<FilesystemEntryView>, s: Seq<u8>|
        match wire::parse_text(s) {
            Err(e) => Err(e),
            Ok((name, s1)) => match FilesystemEntryKind::parse(s1) {
                Err(e) => Err(e),
                Ok((kind, s2)) => match wire::parse_u64(s2) {
                    Err(e) => Err(e),
                    Ok((size, rest)) => Ok((FilesystemEntryView { name, kind, size }, rest)),
                },
            },
        }
}

/// The bytes of one entry.
pub open spec fn entry_put() -> wire::ItemPut<FilesystemEntryView> {
    |entry: FilesystemEntryView, rest: Seq<u8>|
        wire::put_text(entry.name, wire::put_u8(entry.kind.code(), wire::put_u64(entry.size, rest)))
}

/// The name of an entry must fit.
pub open spec fn entry_check() -> wire::ItemCheck<FilesystemEntryView> {
    |done: Seq<FilesystemEntryView>, entry: FilesystemEntryView|
        if wire::text_fits(entry.name) {
            Ok(())
        } else {
            Err(SchemaError::LimitExceeded)
        }
}

proof fn lemma_entry_item()
    ensures
        wire::item_reads_back(entry_item(), entry_put(), entry_check()),
        wire::item_canonical(entry_item(), entry_put(), entry_check()),
{
    broadcast use wire::group_wire;

}

fn write_entry(encoder: &mut Encoder, values: &Vec<FilesystemEntry>, i: usize) -> (done: Result<
    (),
    SchemaError,
>)
    requires
        i < values@.len(),
    ensures
        done == entry_check()(
            entry_views(values@).subrange(0, i as int),
            entry_views(values@)[i as int],
        ),
        done is Ok ==> forall|rest: Seq<u8>|
            #[trigger] (final(encoder).bytes@ + rest) == old(encoder).bytes@ + entry_put()(
                entry_views(values@)[i as int],
                rest,
            ),
{
    encoder.string(values[i].name.as_str())?;
    encoder.byte(values[i].kind.to_code());
    encoder.u64(values[i].size);
    Ok(())
}

fn read_entry(decoder: &mut Decoder<'_>, values: &Vec<FilesystemEntry>) -> (value: Result<
    FilesystemEntry,
    SchemaError,
>)
    ensures
        wire::reads_view(
            value,
            final(decoder).remaining@,
            entry_item()(entry_views(values@), old(decoder).remaining@),
        ),
{
    let name: String = decoder.string()?;
    let kind: FilesystemEntryKind = FilesystemEntryKind::from_code(decoder.byte()?)?;
    let size: u64 = decoder.u64()?;
    Ok(FilesystemEntry { name, kind, size })
}

/// The entries of a directory, seen one by one.
pub open spec fn entry_views(values: Seq<FilesystemEntry>) -> Seq<FilesystemEntryView> {
    Seq::new(values.len(), |i: int| values[i]@)
}

fn write_entries(
    encoder: &mut Encoder,
    values: &Vec<FilesystemEntry>,
) -> (done: Result<(), SchemaError>)
    ensures
        done == wire::first_error(entry_views(values@), 0, entry_check()),
        done is Ok ==> forall|rest: Seq<u8>|
            #[trigger] (final(encoder).bytes@ + rest) == old(encoder).bytes@ + wire::put_list(
                entry_views(values@),
                entry_put(),
                rest,
            ),
{
    let mut i: usize = 0;
    let ghost start = encoder.bytes@;
    let ghost all = entry_views(values@);
    proof {
        assert forall|rest: Seq<u8>| #[trigger]
            (encoder.bytes@ + rest) == start + wire::put_list(
                all.subrange(0, 0),
                entry_put(),
                rest,
            ) by {}
    }
    while i < values.len()
        invariant
            i <= values@.len(),
            all == entry_views(values@),
            forall|rest: Seq<u8>|
                #[trigger] (encoder.bytes@ + rest) == start + wire::put_list(
                    all.subrange(0, i as int),
                    entry_put(),
                    rest,
                ),
            wire::first_error(all, 0, entry_check()) == wire::first_error(
                all,
                i as nat,
                entry_check(),
            ),
        decreases values@.len() - i,
    {
        write_entry(encoder, values, i)?;
        proof {
            let next = all.subrange(0, i + 1);
            assert(next =~= all.subrange(0, i as int).push(all[i as int]));
            assert forall|rest: Seq<u8>| #[trigger]
                (encoder.bytes@ + rest) == start + wire::put_list(next, entry_put(), rest) by {
                wire::lemma_put_list_push(
                    all.subrange(0, i as int),
                    all[i as int],
                    entry_put(),
                    rest,
                );
            }
        }
        i += 1;
    }
    proof {
        assert(all.subrange(0, i as int) =~= all);
    }
    Ok(())
}

fn read_entries(decoder: &mut Decoder<'_>, count: usize) -> (value: Result<
    Vec<FilesystemEntry>,
    SchemaError,
>)
    ensures
        match wire::parse_list(Seq::empty(), old(decoder).remaining@, count as nat, entry_item()) {
            Ok((items, rest)) => (value matches Ok(v) && entry_views(v@) == items)
                && final(decoder).remaining@ == rest,
            Err(e) => value == Err::<Vec<FilesystemEntry>, SchemaError>(e),
        },
{
    let mut values: Vec<FilesystemEntry> = Vec::new();
    let mut i: usize = 0;
    let ghost start = decoder.remaining@;
    proof {
        assert(entry_views(values@) =~= Seq::<FilesystemEntryView>::empty());
    }
    while i < count
        invariant
            i <= count,
            start == old(decoder).remaining@,
            wire::parse_list(Seq::empty(), start, count as nat, entry_item()) == wire::parse_list(
                entry_views(values@),
                decoder.remaining@,
                (count - i) as nat,
                entry_item(),
            ),
        decreases count - i,
    {
        let value: FilesystemEntry = read_entry(decoder, &values)?;
        let ghost before = values@;
        values.push(value);
        proof {
            assert(entry_views(values@) =~= entry_views(before).push(value@));
        }
        i += 1;
    }
    Ok(values)
}

/// The entries of a directory, and whether there are more.
#[derive(Clone, Debug, PartialEq, Eq)]
pub struct FilesystemDirectoryEntries {
    pub entries: Vec<FilesystemEntry>,
    pub truncated: bool,
}

/// [`FilesystemDirectoryEntries`], field by field.
#[verifier::ext_equal]
pub struct FilesystemDirectoryEntriesView {
    pub entries: Seq<FilesystemEntryView>,
    pub truncated: bool,
}

impl View for FilesystemDirectoryEntries {
    type V = FilesystemDirectoryEntriesView;

    open spec fn view(&self) -> FilesystemDirectoryEntriesView {
        FilesystemDirectoryEntriesView {
            entries: entry_views(self.entries@),
            truncated: self.truncated,
        }
    }
}

impl FilesystemDirectoryEntriesView {
    /// The bytes of this payload, or why it has none.
    pub open spec fn payload(self) -> Result<Seq<u8>, SchemaError> {
        if self.entries.len() > MAX_DIRECTORY_ENTRIES {
            Err(SchemaError::LimitExceeded)
        } else {
            match wire::first_error(self.entries, 0, entry_check()) {
                Err(e) => Err(e),
                Ok(_) => wire::sealed(
                    DIRECTORY_REPLY_MAGIC@ + wire::put_bool(
                        self.truncated,
                        wire::put_u16(
                            self.entries.len() as u16,
                            wire::put_list(self.entries, entry_put(), Seq::empty()),
                        ),
                    ),
                ),
            }
        }
    }

    /// What is read from `bytes`.
    pub open spec fn read(bytes: Seq<u8>) -> Result<Self, SchemaError> {
        match wire::parse_open(bytes, DIRECTORY_REPLY_MAGIC@) {
            Err(e) => Err(e),
            Ok(s0) => match wire::parse_bool(s0) {
                Err(e) => Err(e),
                Ok((truncated, s1)) => match wire::parse_u16(s1) {
                    Err(e) => Err(e),
                    Ok((count, s2)) => if count > MAX_DIRECTORY_ENTRIES {
                        Err(SchemaError::LimitExceeded)
                    } else {
                        match wire::parse_list(Seq::empty(), s2, count as nat, entry_item()) {
                            Err(e) => Err(e),
                            Ok((entries, s3)) => wire::parse_end(s3, Self { entries, truncated }),
                        }
                    },
                },
            },
        }
    }

    /// What was written is read back.
    pub proof fn round_trip(self)
        ensures
            self.payload() matches Ok(bytes) ==> Self::read(bytes) == Ok::<Self, SchemaError>(self),
    {
        broadcast use wire::group_wire;

        if self.payload() is Ok {
            lemma_entry_item();
            wire::lemma_list_reads_back(
                self.entries,
                Seq::empty(),
                entry_item(),
                entry_put(),
                entry_check(),
            );
        }
    }

    /// What is read has no other payload than the bytes it was read from.
    pub proof fn canonical(bytes: Seq<u8>)
        ensures
            Self::read(bytes) matches Ok(value) ==> value.payload() == Ok::<Seq<u8>, SchemaError>(
                bytes,
            ),
    {
        broadcast use wire::group_wire;

        if Self::read(bytes) is Ok {
            let s0 = wire::parse_open(bytes, DIRECTORY_REPLY_MAGIC@)->Ok_0;
            let s1 = wire::parse_bool(s0)->Ok_0.1;
            let (count, s2) = wire::parse_u16(s1)->Ok_0;
            lemma_entry_item();
            wire::lemma_list_canonical(
                s2,
                count as nat,
                entry_item(),
                entry_put(),
                entry_check(),
            );
        }
    }
}

impl FilesystemDirectoryEntries {
    pub fn encode(&self) -> (payload: Result<Vec<u8>, SchemaError>)
        ensures
            wire::outcome(payload) == self@.payload(),
    {
        if self.entries.len() > MAX_DIRECTORY_ENTRIES as usize {
            return Err(SchemaError::LimitExceeded);
        }
        let mut encoder: Encoder = Encoder::new(&DIRECTORY_REPLY_MAGIC);
        encoder.flag(self.truncated);
        encoder.u16(self.entries.len() as u16);
        write_entries(&mut encoder, &self.entries)?;
        encoder.finish()
    }

    pub fn decode(bytes: &[u8]) -> (value: Result<Self, SchemaError>)
        ensures
            wire::outcome(value) == FilesystemDirectoryEntriesView::read(bytes@),
    {
        let mut decoder: Decoder<'_> = Decoder::new(bytes, &DIRECTORY_REPLY_MAGIC)?;
        let truncated: bool = decoder.flag()?;
        let count: u16 = decoder.u16()?;
        if count > MAX_DIRECTORY_ENTRIES {
            return Err(SchemaError::LimitExceeded);
        }
        let entries: Vec<FilesystemEntry> = read_entries(&mut decoder, count as usize)?;
        decoder.finish()?;
        Ok(FilesystemDirectoryEntries { entries, truncated })
    }
}

} // verus!
