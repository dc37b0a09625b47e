//! Payloads that change files below a granted mount.
use vstd::prelude::*;

use crate::broker::filesystem_read::MAX_FILE_STREAM_BYTES;
use crate::wire;
use crate::wire::{Decoder, Encoder, SchemaError};

verus! {

/// `OMFSWRT1`
pub const FILE_WRITE_MAGIC: [u8; 8] = [79, 77, 70, 83, 87, 82, 84, 49];

/// `OMFSPTH1`
pub const FILE_PATH_MAGIC: [u8; 8] = [79, 77, 70, 83, 80, 84, 72, 49];

/// `OMFSREN1`
pub const FILE_RENAME_MAGIC: [u8; 8] = [79, 77, 70, 83, 82, 69, 78, 49];

/// `OMFSMUT1`
pub const FILE_MUTATION_MAGIC: [u8; 8] = [79, 77, 70, 83, 77, 85, 84, 49];

/// `OMFSWSQ1`
pub const FILE_WRITE_STREAM_MAGIC: [u8; 8] = [79, 77, 70, 83, 87, 83, 81, 49];

/// `OMFSWSO1`
pub const FILE_WRITE_STREAM_OPENED_MAGIC: [u8; 8] = [79, 77, 70, 83, 87, 83, 79, 49];

/// `OMFSWSC1`
pub const FILE_WRITE_STREAM_CHUNK_MAGIC: [u8; 8] = [79, 77, 70, 83, 87, 83, 67, 49];

/// `OMFSWSM1`
pub const FILE_WRITE_STREAM_COMMIT_MAGIC: [u8; 8] = [79, 77, 70, 83, 87, 83, 77, 49];

pub const MAX_FILE_WRITE_BYTES: usize = 49152;

pub const MAX_FILE_WRITE_STREAM_CHUNK_BYTES: usize = 12288;

/// Creates, replaces or extends a small file.
#[derive(Clone, Debug, PartialEq, Eq)]
pub struct FilesystemWriteFile {
    pub mount: String,
    pub path: String,
    pub bytes: Vec<u8>,
}

/// [`FilesystemWriteFile`], field by field.
#[verifier::ext_equal]
pub struct FilesystemWriteFileView {
    pub mount: Seq<char>,
    pub path: Seq<char>,
    pub bytes: Seq<u8>,
}

impl View for FilesystemWriteFile {
    type V = FilesystemWriteFileView;

    open spec fn view(&self) -> FilesystemWriteFileView {
        FilesystemWriteFileView {
            mount: self.mount@,
            path: self.path@,
            bytes: self.bytes@,
        }
    }
}

impl FilesystemWriteFileView {
    /// The bytes of this payload, or why it has none.
    pub open spec fn payload(self) -> Result<Seq<u8>, SchemaError> {
        if self.bytes.len() > MAX_FILE_WRITE_BYTES {
            Err(SchemaError::LimitExceeded)
        } else if !(wire::text_fits(self.mount) && wire::text_fits(self.path)) {
            Err(SchemaError::LimitExceeded)
        } else {
            wire::sealed(
                FILE_WRITE_MAGIC@ + wire::put_text(
                    self.mount,
                    wire::put_text(self.path, wire::put_bytes(self.bytes, 8, Seq::empty())),
                ),
            )
        }
    }

    /// What is read from `bytes`.
    pub open spec fn read(bytes: Seq<u8>) -> Result<Self, SchemaError> {
        match wire::parse_open(bytes, FILE_WRITE_MAGIC@) {
            Err(e) => Err(e),
            Ok(s0) => {
                match wire::parse_text(s0) {
                    Err(e) => Err(e),
                    Ok((mount, s1)) => {
                        match wire::parse_text(s1) {
                            Err(e) => Err(e),
                            Ok((path, s2)) => {
                                match wire::parse_bytes(s2, 8, 0, MAX_FILE_WRITE_BYTES as nat) {
                                    Err(e) => Err(e),
                                    Ok((bytes, s3)) => {
                                        wire::parse_end(s3, Self { mount, path, bytes })
                                    },
                                }
                            },
                        }
                    },
                }
            },
        }
    }

    /// What was written is read back.
    pub proof fn round_trip(self)
        ensures
            self.payload() matches Ok(bytes) ==> Self::read(bytes) == Ok::<Self, SchemaError>(self),
    {
        broadcast use wire::group_wire;

        wire::lemma_pow256();
    }

    /// What is read has no other payload than the bytes it was read from.
    pub proof fn canonical(bytes: Seq<u8>)
        ensures
            Self::read(bytes) matches Ok(value) ==> value.payload() == Ok::<Seq<u8>, SchemaError>(
                bytes,
            ),
    {
        broadcast use wire::group_wire;

    }
}

impl FilesystemWriteFile {
    pub fn encode(&self) -> (payload: Result<Vec<u8>, SchemaError>)
        ensures
            wire::outcome(payload) == self@.payload(),
    {
        proof {
            wire::lemma_pow256();
        }
        if self.bytes.len() > MAX_FILE_WRITE_BYTES {
            return Err(SchemaError::LimitExceeded);
        }
        let mut encoder: Encoder = Encoder::new(&FILE_WRITE_MAGIC);
        encoder.string(self.mount.as_str())?;
        encoder.string(self.path.as_str())?;
        encoder.chunk(self.bytes.as_slice());
        encoder.finish()
    }

    pub fn decode(bytes: &[u8]) -> (value: Result<Self, SchemaError>)
        ensures
            wire::outcome(value) == FilesystemWriteFileView::read(bytes@),
    {
        let mut decoder: Decoder<'_> = Decoder::new(bytes, &FILE_WRITE_MAGIC)?;
        let mount: String = decoder.string()?;
        let path: String = decoder.string()?;
        let bytes: Vec<u8> = decoder.chunk(0, MAX_FILE_WRITE_BYTES)?;
        decoder.finish()?;
        Ok(FilesystemWriteFile { mount, path, bytes })
    }
}

/// Names a file or directory below a granted mount.
#[derive(Clone, Debug, PartialEq, Eq)]
pub struct FilesystemPath {
    pub mount: String,
    pub path: String,
}

/// [`FilesystemPath`], field by field.
#[verifier::ext_equal]
pub struct FilesystemPathView {
    pub mount: Seq<char>,
    pub path: Seq<char>,
}

impl View for FilesystemPath {
    type V = FilesystemPathView;

    open spec fn view(&self) -> FilesystemPathView {
        FilesystemPathView {
            mount: self.mount@,
            path: self.path@,
        }
    }
}

impl FilesystemPathView {
    /// The bytes of this payload, or why it has none.
    pub open spec fn payload(self) -> Result<Seq<u8>, SchemaError> {
        if !(wire::text_fits(self.mount) && wire::text_fits(self.path)) {
            Err(SchemaError::LimitExceeded)
        } else {
            wire::sealed(
                FILE_PATH_MAGIC@ + wire::put_text(
                    self.mount,
                    wire::put_text(self.path, Seq::empty()),
                ),
            )
        }
    }

    /// What is read from `bytes`.
    pub open spec fn read(bytes: Seq<u8>) -> Result<Self, SchemaError> {
        match wire::parse_open(bytes, FILE_PATH_MAGIC@) {
            Err(e) => Err(e),
            Ok(s0) => {
                match wire::parse_text(s0) {
                    Err(e) => Err(e),
                    Ok((mount, s1)) => {
                        match wire::parse_text(s1) {
                            Err(e) => Err(e),
                            Ok((path, s2)) => {
                                wire::parse_end(s2, Self { mount, path })
                            },
                        }
                    },
                }
            },
        }
    }

    /// What was written is read back.
    pub proof fn round_trip(self)
        ensures
            self.payload() matches Ok(bytes) ==> Self::read(bytes) == Ok::<Self, SchemaError>(self),
    {
        broadcast use wire::group_wire;

        wire::lemma_pow256();
    }

    /// What is read has no other payload than the bytes it was read from.
    pub proof fn canonical(bytes: Seq<u8>)
        ensures
            Self::read(bytes) matches Ok(value) ==> value.payload() == Ok::<Seq<u8>, SchemaError>(
                bytes,
            ),
    {
        broadcast use wire::group_wire;

    }
}

impl FilesystemPath {
    pub fn encode(&self) -> (payload: Result<Vec<u8>, SchemaError>)
        ensures
            wire::outcome(payload) == self@.payload(),
    {
        let mut encoder: Encoder = Encoder::new(&FILE_PATH_MAGIC);
        encoder.string(self.mount.as_str())?;
        encoder.string(self.path.as_str())?;
        encoder.finish()
    }

    pub fn decode(bytes: &[u8]) -> (value: Result<Self, SchemaError>)
        ensures
            wire::outcome(value) == FilesystemPathView::read(bytes@),
    {
        let mut decoder: Decoder<'_> = Decoder::new(bytes, &FILE_PATH_MAGIC)?;
        let mount: String = decoder.string()?;
        let path: String = decoder.string()?;
        decoder.finish()?;
        Ok(FilesystemPath { mount, path })
    }
}

/// Moves a file inside a granted mount.
#[derive(Clone, Debug, PartialEq, Eq)]
pub struct FilesystemRename {
    pub mount: String,
    pub source: String,
    pub destination: String,
}

/// [`FilesystemRename`], field by field.
#[verifier::ext_equal]
pub struct FilesystemRenameView {
    pub mount: Seq<char>,
    pub source: Seq<char>,
    pub destination: Seq<char>,
}

impl View for FilesystemRename {
    type V = FilesystemRenameView;

    open spec fn view(&self) -> FilesystemRenameView {
        FilesystemRenameView {
            mount: self.mount@,
            source: self.source@,
            destination: self.destination@,
        }
    }
}

impl FilesystemRenameView {
    /// The bytes of this payload, or why it has none.
    pub open spec fn payload(self) -> Result<Seq<u8>, SchemaError> {
        if !(
            wire::text_fits(self.mount) && wire::text_fits(self.source)
                && wire::text_fits(self.destination)
        ) {
            Err(SchemaError::LimitExceeded)
        } else {
            wire::sealed(
                FILE_RENAME_MAGIC@ + wire::put_text(
                    self.mount,
                    wire::put_text(self.source, wire::put_text(self.destination, Seq::empty())),
                ),
            )
        }
    }

    /// What is read from `bytes`.
    pub open spec fn read(bytes: Seq<u8>) -> Result<Self, SchemaError> {
        match wire::parse_open(bytes, FILE_RENAME_MAGIC@) {
            Err(e) => Err(e),
            Ok(s0) => {
                match wire::parse_text(s0) {
                    Err(e) => Err(e),
                    Ok((mount, s1)) => {
                        match wire::parse_text(s1) {
                            Err(e) => Err(e),
                            Ok((source, s2)) => {
                                match wire::parse_text(s2) {
                                    Err(e) => Err(e),
                                    Ok((destination, s3)) => {
                                        wire::parse_end(s3, Self { mount, source, destination })
                                    },
                                }
                            },
                        }
                    },
                }
            },
        }
    }

    /// What was written is read back.
    pub proof fn round_trip(self)
        ensures
            self.payload() matches Ok(bytes) ==> Self::read(bytes) == Ok::<Self, SchemaError>(self),
    {
        broadcast use wire::group_wire;

        wire::lemma_pow256();
    }

    /// What is read has no other payload than the bytes it was read from.
    pub proof fn canonical(bytes: Seq<u8>)
        ensures
            Self::read(bytes) matches Ok(value) ==> value.payload() == Ok::<Seq<u8>, SchemaError>(
                bytes,
            ),
    {
        broadcast use wire::group_wire;

    }
}

impl FilesystemRename {
    pub fn encode(&self) -> (payload: Result<Vec<u8>, SchemaError>)
        ensures
            wire::outcome(payload) == self@.payload(),
    {
        let mut encoder: Encoder = Encoder::new(&FILE_RENAME_MAGIC);
        encoder.string(self.mount.as_str())?;
        encoder.string(self.source.as_str())?;
        encoder.string(self.destination.as_str())?;
        encoder.finish()
    }

    pub fn decode(bytes: &[u8]) -> (value: Result<Self, SchemaError>)
        ensures
            wire::outcome(value) == FilesystemRenameView::read(bytes@),
    {
        let mut decoder: Decoder<'_> = Decoder::new(bytes, &FILE_RENAME_MAGIC)?;
        let mount: String = decoder.string()?;
        let source: String = decoder.string()?;
        let destination: String = decoder.string()?;
        decoder.finish()?;
        Ok(FilesystemRename { mount, source, destination })
    }
}

/// What a change wrote, and the size that it left.
#[derive(Clone, Copy, Debug, PartialEq, Eq)]
pub struct FilesystemMutationResult {
    pub bytes_written: u64,
    pub resulting_size: Option<u64>,
}

impl FilesystemMutationResult {
    /// The bytes of this payload, or why it has none.
    pub open spec fn payload(self) -> Result<Seq<u8>, SchemaError> {
        wire::sealed(
            FILE_MUTATION_MAGIC@ + wire::put_u64(
                self.bytes_written,
                wire::put_optional_u64(self.resulting_size, Seq::empty()),
            ),
        )
    }

    /// What is read from `bytes`.
    pub open spec fn read(bytes: Seq<u8>) -> Result<Self, SchemaError> {
        match wire::parse_open(bytes, FILE_MUTATION_MAGIC@) {
            Err(e) => Err(e),
            Ok(s0) => {
                match wire::parse_u64(s0) {
                    Err(e) => Err(e),
                    Ok((bytes_written, s1)) => {
                        match wire::parse_optional_u64(s1) {
                            Err(e) => Err(e),
                            Ok((resulting_size, s2)) => {
                                wire::parse_end(s2, Self { bytes_written, resulting_size })
                            },
                        }
                    },
                }
            },
        }
    }

    /// What was written is read back.
    pub proof fn round_trip(self)
        ensures
            self.payload() matches Ok(bytes) ==> Self::read(bytes) == Ok::<Self, SchemaError>(self),
    {
        broadcast use wire::group_wire;

        wire::lemma_pow256();
    }

    /// What is read has no other payload than the bytes it was read from.
    pub proof fn canonical(bytes: Seq<u8>)
        ensures
            Self::read(bytes) matches Ok(value) ==> value.payload() == Ok::<Seq<u8>, SchemaError>(
                bytes,
            ),
    {
        broadcast use wire::group_wire;

    }

    pub fn encode(self) -> (payload: Result<Vec<u8>, SchemaError>)
        ensures
            wire::outcome(payload) == self.payload(),
    {
        let mut encoder: Encoder = Encoder::new(&FILE_MUTATION_MAGIC);
        encoder.u64(self.bytes_written);
        encoder.optional_u64(self.resulting_size);
        encoder.finish()
    }

    pub fn decode(bytes: &[u8]) -> (value: Result<Self, SchemaError>)
        ensures
            value == FilesystemMutationResult::read(bytes@),
    {
        let mut decoder: Decoder<'_> = Decoder::new(bytes, &FILE_MUTATION_MAGIC)?;
        let bytes_written: u64 = decoder.u64()?;
        let resulting_size: Option<u64> = decoder.optional_u64()?;
        decoder.finish()?;
        Ok(FilesystemMutationResult { bytes_written, resulting_size })
    }
}

/// Opens a staging stream for a large file.
#[derive(Clone, Debug, PartialEq, Eq)]
pub struct FilesystemWriteStream {
    pub mount: String,
    pub path: String,
    pub expected_bytes: u64,
}

/// [`FilesystemWriteStream`], field by field.
#[verifier::ext_equal]
pub struct FilesystemWriteStreamView {
    pub mount: Seq<char>,
    pub path: Seq<char>,
    pub expected_bytes: u64,
}

impl View for FilesystemWriteStream {
    type V = FilesystemWriteStreamView;

    open spec fn view(&self) -> FilesystemWriteStreamView {
        FilesystemWriteStreamView {
            mount: self.mount@,
            path: self.path@,
            expected_bytes: self.expected_bytes,
        }
    }
}

impl FilesystemWriteStreamView {
    /// The bytes of this payload, or why it has none.
    pub open spec fn payload(self) -> Result<Seq<u8>, SchemaError> {
        if self.expected_bytes > MAX_FILE_STREAM_BYTES {
            Err(SchemaError::LimitExceeded)
        } else if !(wire::text_fits(self.mount) && wire::text_fits(self.path)) {
            Err(SchemaError::LimitExceeded)
        } else {
            wire::sealed(
                FILE_WRITE_STREAM_MAGIC@ + wire::put_text(
                    self.mount,
                    wire::put_text(self.path, wire::put_u64(self.expected_bytes, Seq::empty())),
                ),
            )
        }
    }

    /// What is read from `bytes`.
    pub open spec fn read(bytes: Seq<u8>) -> Result<Self, SchemaError> {
        match wire::parse_open(bytes, FILE_WRITE_STREAM_MAGIC@) {
            Err(e) => Err(e),
            Ok(s0) => {
                match wire::parse_text(s0) {
                    Err(e) => Err(e),
                    Ok((mount, s1)) => {
                        match wire::parse_text(s1) {
                            Err(e) => Err(e),
                            Ok((path, s2)) => {
                                match wire::parse_u64(s2) {
                                    Err(e) => Err(e),
                                    Ok((expected_bytes, s3)) => {
                                        match wire::parse_end(s3, ()) {
                                            Err(e) => Err(e),
                                            Ok(_) => if expected_bytes > MAX_FILE_STREAM_BYTES {
                                                Err(SchemaError::LimitExceeded)
                                            } else {
                                                Ok(Self { mount, path, expected_bytes })
                                            },
                                        }
                                    },
                                }
                            },
                        }
                    },
                }
            },
        }
    }

    /// What was written is read back.
    pub proof fn round_trip(self)
        ensures
            self.payload() matches Ok(bytes) ==> Self::read(bytes) == Ok::<Self, SchemaError>(self),
    {
        broadcast use wire::group_wire;

        wire::lemma_pow256();
    }

    /// What is read has no other payload than the bytes it was read from.
    pub proof fn canonical(bytes: Seq<u8>)
        ensures
            Self::read(bytes) matches Ok(value) ==> value.payload() == Ok::<Seq<u8>, SchemaError>(
                bytes,
            ),
    {
        broadcast use wire::group_wire;

    }
}

impl FilesystemWriteStream {
    pub fn encode(&self) -> (payload: Result<Vec<u8>, SchemaError>)
        ensures
            wire::outcome(payload) == self@.payload(),
    {
        if self.expected_bytes > MAX_FILE_STREAM_BYTES {
            return Err(SchemaError::LimitExceeded);
        }
        let mut encoder: Encoder = Encoder::new(&FILE_WRITE_STREAM_MAGIC);
        encoder.string(self.mount.as_str())?;
        encoder.string(self.path.as_str())?;
        encoder.u64(self.expected_bytes);
        encoder.finish()
    }

    pub fn decode(bytes: &[u8]) -> (value: Result<Self, SchemaError>)
        ensures
            wire::outcome(value) == FilesystemWriteStreamView::read(bytes@),
    {
        let mut decoder: Decoder<'_> = Decoder::new(bytes, &FILE_WRITE_STREAM_MAGIC)?;
        let mount: String = decoder.string()?;
        let path: String = decoder.string()?;
        let expected_bytes: u64 = decoder.u64()?;
        decoder.finish()?;
        if expected_bytes > MAX_FILE_STREAM_BYTES {
            return Err(SchemaError::LimitExceeded);
        }
        Ok(FilesystemWriteStream { mount, path, expected_bytes })
    }
}

/// A staging stream and the largest chunk that it takes.
#[derive(Clone, Copy, Debug, PartialEq, Eq)]
pub struct FilesystemWriteStreamOpened {
    pub resource_id: u64,
    pub maximum_chunk_bytes: u32,
}

impl FilesystemWriteStreamOpened {
    /// The bytes of this payload, or why it has none.
    pub open spec fn payload(self) -> Result<Seq<u8>, SchemaError> {
        if self.resource_id == 0 || self.maximum_chunk_bytes == 0
            || self.maximum_chunk_bytes > MAX_FILE_WRITE_STREAM_CHUNK_BYTES {
            Err(SchemaError::Malformed)
        } else {
            wire::sealed(
                FILE_WRITE_STREAM_OPENED_MAGIC@ + wire::put_u64(
                    self.resource_id,
                    wire::put_u32(self.maximum_chunk_bytes, Seq::empty()),
                ),
            )
        }
    }

    /// What is read from `bytes`.
    pub open spec fn read(bytes: Seq<u8>) -> Result<Self, SchemaError> {
        match wire::parse_open(bytes, FILE_WRITE_STREAM_OPENED_MAGIC@) {
            Err(e) => Err(e),
            Ok(s0) => {
                match wire::parse_u64(s0) {
                    Err(e) => Err(e),
                    Ok((resource_id, s1)) => {
                        match wire::parse_u32(s1) {
                            Err(e) => Err(e),
                            Ok((maximum_chunk_bytes, s2)) => {
                                match wire::parse_end(s2, ()) {
                                    Err(e) => Err(e),
                                    Ok(_) => if resource_id == 0 || maximum_chunk_bytes == 0
                                        || maximum_chunk_bytes > MAX_FILE_WRITE_STREAM_CHUNK_BYTES {
                                        Err(SchemaError::Malformed)
                                    } else {
                                        Ok(Self { resource_id, maximum_chunk_bytes })
                                    },
                                }
                            },
                        }
                    },
                }
            },
        }
    }

    /// What was written is read back.
    pub proof fn round_trip(self)
        ensures
            self.payload() matches Ok(bytes) ==> Self::read(bytes) == Ok::<Self, SchemaError>(self),
    {
        broadcast use wire::group_wire;

        wire::lemma_pow256();
    }

    /// What is read has no other payload than the bytes it was read from.
    pub proof fn canonical(bytes: Seq<u8>)
        ensures
            Self::read(bytes) matches Ok(value) ==> value.payload() == Ok::<Seq<u8>, SchemaError>(
                bytes,
            ),
    {
        broadcast use wire::group_wire;

    }

    pub fn encode(self) -> (payload: Result<Vec<u8>, SchemaError>)
        ensures
            wire::outcome(payload) == self.payload(),
    {
        if self.resource_id == 0 || self.maximum_chunk_bytes == 0
            || self.maximum_chunk_bytes as usize > MAX_FILE_WRITE_STREAM_CHUNK_BYTES {
            return Err(SchemaError::Malformed);
        }
        let mut encoder: Encoder = Encoder::new(&FILE_WRITE_STREAM_OPENED_MAGIC);
        encoder.u64(self.resource_id);
        encoder.u32(self.maximum_chunk_bytes);
        encoder.finish()
    }

    pub fn decode(bytes: &[u8]) -> (value: Result<Self, SchemaError>)
        ensures
            value == FilesystemWriteStreamOpened::read(bytes@),
    {
        let mut decoder: Decoder<'_> = Decoder::new(bytes, &FILE_WRITE_STREAM_OPENED_MAGIC)?;
        let resource_id: u64 = decoder.u64()?;
        let maximum_chunk_bytes: u32 = decoder.u32()?;
        decoder.finish()?;
        if resource_id == 0 || maximum_chunk_bytes == 0
            || maximum_chunk_bytes as usize > MAX_FILE_WRITE_STREAM_CHUNK_BYTES {
            return Err(SchemaError::Malformed);
        }
        Ok(FilesystemWriteStreamOpened { resource_id, maximum_chunk_bytes })
    }
}

/// The largest chunk that a stream takes: no stream has the number zero.
pub open spec fn largest_chunk(resource_id: u64) -> nat {
    if resource_id == 0 {
        0
    } else {
        MAX_FILE_WRITE_STREAM_CHUNK_BYTES as nat
    }
}

/// One chunk for a staging stream.
#[derive(Clone, Debug, PartialEq, Eq)]
pub struct FilesystemWriteStreamChunk {
    pub resource_id: u64,
    pub offset: u64,
    pub bytes: Vec<u8>,
}

/// [`FilesystemWriteStreamChunk`], field by field.
#[verifier::ext_equal]
pub struct FilesystemWriteStreamChunkView {
    pub resource_id: u64,
    pub offset: u64,
    pub bytes: Seq<u8>,
}

impl View for FilesystemWriteStreamChunk {
    type V = FilesystemWriteStreamChunkView;

    open spec fn view(&self) -> FilesystemWriteStreamChunkView {
        FilesystemWriteStreamChunkView {
            resource_id: self.resource_id,
            offset: self.offset,
            bytes: self.bytes@,
        }
    }
}

impl FilesystemWriteStreamChunkView {
    /// The bytes of this payload, or why it has none.
    pub open spec fn payload(self) -> Result<Seq<u8>, SchemaError> {
        if self.resource_id == 0 || self.bytes.len() == 0
            || self.bytes.len() > MAX_FILE_WRITE_STREAM_CHUNK_BYTES {
            Err(SchemaError::LimitExceeded)
        } else {
            wire::sealed(
                FILE_WRITE_STREAM_CHUNK_MAGIC@ + wire::put_u64(
                    self.resource_id,
                    wire::put_u64(self.offset, wire::put_bytes(self.bytes, 4, Seq::empty())),
                ),
            )
        }
    }

    /// What is read from `bytes`.
    pub open spec fn read(bytes: Seq<u8>) -> Result<Self, SchemaError> {
        match wire::parse_open(bytes, FILE_WRITE_STREAM_CHUNK_MAGIC@) {
            Err(e) => Err(e),
            Ok(s0) => {
                match wire::parse_u64(s0) {
                    Err(e) => Err(e),
                    Ok((resource_id, s1)) => {
                        match wire::parse_u64(s1) {
                            Err(e) => Err(e),
                            Ok((offset, s2)) => {
                                match wire::parse_bytes(s2, 4, 1, largest_chunk(resource_id)) {
                                    Err(e) => Err(e),
                                    Ok((bytes, s3)) => {
                                        wire::parse_end(s3, Self { resource_id, offset, bytes })
                                    },
                                }
                            },
                        }
                    },
                }
            },
        }
    }

    /// What was written is read back.
    pub proof fn round_trip(self)
        ensures
            self.payload() matches Ok(bytes) ==> Self::read(bytes) == Ok::<Self, SchemaError>(self),
    {
        broadcast use wire::group_wire;

        wire::lemma_pow256();
    }

    /// What is read has no other payload than the bytes it was read from.
    pub proof fn canonical(bytes: Seq<u8>)
        ensures
            Self::read(bytes) matches Ok(value) ==> value.payload() == Ok::<Seq<u8>, SchemaError>(
                bytes,
            ),
    {
        broadcast use wire::group_wire;

    }
}

impl FilesystemWriteStreamChunk {
    pub fn encode(&self) -> (payload: Result<Vec<u8>, SchemaError>)
        ensures
            wire::outcome(payload) == self@.payload(),
    {
        proof {
            wire::lemma_pow256();
        }
        if self.resource_id == 0 || self.bytes.len() == 0
            || self.bytes.len() > MAX_FILE_WRITE_STREAM_CHUNK_BYTES {
            return Err(SchemaError::LimitExceeded);
        }
        let mut encoder: Encoder = Encoder::new(&FILE_WRITE_STREAM_CHUNK_MAGIC);
        encoder.u64(self.resource_id);
        encoder.u64(self.offset);
        encoder.blob(self.bytes.as_slice())?;
        encoder.finish()
    }

    pub fn decode(bytes: &[u8]) -> (value: Result<Self, SchemaError>)
        ensures
            wire::outcome(value) == FilesystemWriteStreamChunkView::read(bytes@),
    {
        let mut decoder: Decoder<'_> = Decoder::new(bytes, &FILE_WRITE_STREAM_CHUNK_MAGIC)?;
        let resource_id: u64 = decoder.u64()?;
        let offset: u64 = decoder.u64()?;
        let bytes: Vec<u8> = decoder.sized(
            4,
            1,
            if resource_id == 0 {
                0
            } else {
                MAX_FILE_WRITE_STREAM_CHUNK_BYTES
            },
        )?;
        decoder.finish()?;
        Ok(FilesystemWriteStreamChunk { resource_id, offset, bytes })
    }
}

/// Puts the staged file in place.
#[derive(Clone, Copy, Debug, PartialEq, Eq)]
pub struct FilesystemWriteStreamCommit {
    pub resource_id: u64,
}

impl FilesystemWriteStreamCommit {
    /// The bytes of this payload, or why it has none.
    pub open spec fn payload(self) -> Result<Seq<u8>, SchemaError> {
        if self.resource_id == 0 {
            Err(SchemaError::Malformed)
        } else {
            wire::sealed(
                FILE_WRITE_STREAM_COMMIT_MAGIC@ + wire::put_u64(self.resource_id, Seq::empty()),
            )
        }
    }

    /// What is read from `bytes`.
    pub open spec fn read(bytes: Seq<u8>) -> Result<Self, SchemaError> {
        match wire::parse_open(bytes, FILE_WRITE_STREAM_COMMIT_MAGIC@) {
            Err(e) => Err(e),
            Ok(s0) => {
                match wire::parse_u64(s0) {
                    Err(e) => Err(e),
                    Ok((resource_id, s1)) => {
                        match wire::parse_end(s1, ()) {
                            Err(e) => Err(e),
                            Ok(_) => if resource_id == 0 {
                                Err(SchemaError::Malformed)
                            } else {
                                Ok(Self { resource_id })
                            },
                        }
                    },
                }
            },
        }
    }

    /// What was written is read back.
    pub proof fn round_trip(self)
        ensures
            self.payload() matches Ok(bytes) ==> Self::read(bytes) == Ok::<Self, SchemaError>(self),
    {
        broadcast use wire::group_wire;

        wire::lemma_pow256();
    }

    /// What is read has no other payload than the bytes it was read from.
    pub proof fn canonical(bytes: Seq<u8>)
        ensures
            Self::read(bytes) matches Ok(value) ==> value.payload() == Ok::<Seq<u8>, SchemaError>(
                bytes,
            ),
    {
        broadcast use wire::group_wire;

    }

    pub fn encode(self) -> (payload: Result<Vec<u8>, SchemaError>)
        ensures
            wire::outcome(payload) == self.payload(),
    {
        if self.resource_id == 0 {
            return Err(SchemaError::Malformed);
        }
        let mut encoder: Encoder = Encoder::new(&FILE_WRITE_STREAM_COMMIT_MAGIC);
        encoder.u64(self.resource_id);
        encoder.finish()
    }

    pub fn decode(bytes: &[u8]) -> (value: Result<Self, SchemaError>)
        ensures
            value == FilesystemWriteStreamCommit::read(bytes@),
    {
        let mut decoder: Decoder<'_> = Decoder::new(bytes, &FILE_WRITE_STREAM_COMMIT_MAGIC)?;
        let resource_id: u64 = decoder.u64()?;
        decoder.finish()?;
        if resource_id == 0 {
            return Err(SchemaError::Malformed);
        }
        Ok(FilesystemWriteStreamCommit { resource_id })
    }
}

} // verus!
