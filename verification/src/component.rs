//! What a sandboxed component asks of the broker, and how it reads the
//! answers.
//!
//! A component only ever names a capability and an operation and hands over
//! bytes; the host decides what becomes of them.
use vstd::prelude::*;

use crate::broker::{
    AppearancePublish, ClipboardReadRequest, ClipboardValue, ClipboardWriteRequest, CommandEvent,
    CommandOpened, CommandRunRequest, ContextReadRequest, ContextSnapshot,
    ContextSubscriptionOpened, DbusCall, DbusPropertiesChanged, DbusReply, DbusSubscription,
    DbusSubscriptionOpened, FilesystemDirectoryEntries, FilesystemFileChunk,
    FilesystemListDirectory, FilesystemMutationResult, FilesystemPath, FilesystemReadFile,
    FilesystemReadStream, FilesystemRename, FilesystemStreamEvent, FilesystemStreamOpened,
    FilesystemWriteFile, FilesystemWriteStream, FilesystemWriteStreamChunk,
    FilesystemWriteStreamCommit, FilesystemWriteStreamOpened, HttpRequest, HttpResponse,
    HttpStreamEvent, HttpStreamOpened, LocalConnect, LocalConnectionOpened, LocalFrameEvent,
    LocalSendFrame, NotificationRemove, NotificationSend, SecretReadRequest, SecretValue,
    UriOpenRequest,
};
use crate::broker::appearance::AppearancePublishView;
use crate::broker::clipboard::{
    ClipboardReadRequestView, ClipboardValueView, ClipboardWriteRequestView,
};
use crate::broker::command::CommandEventView;
use crate::broker::context::{ContextSnapshotView, ContextSubscriptionOpenedView};
use crate::broker::dbus::{DbusPropertiesChangedView, DbusReplyView};
use crate::broker::filesystem_read::{
    FilesystemDirectoryEntriesView, FilesystemFileChunkView, FilesystemStreamEventView,
};
use crate::broker::http::{HttpResponseView, HttpStreamEventView};
use crate::broker::local::{LocalFrameEventView, LocalSendFrameView};
use crate::broker::notification::NotificationRemoveView;
use crate::broker::secret::{SecretReadRequestView, SecretValueView};
use crate::text;
use crate::wire;
use crate::wire::SchemaError;

verus! {

/// An operation that the host has accepted.
#[derive(Clone, Copy, Debug, PartialEq, Eq, PartialOrd, Ord, Hash)]
pub struct RequestId(u64);

impl RequestId {
    pub closed spec fn raw(self) -> u64 {
        self.0
    }

    pub fn from_raw(value: u64) -> (id: Self)
        ensures
            id.raw() == value,
    {
        RequestId(value)
    }

    pub fn into_raw(self) -> (value: u64)
        ensures
            value == self.raw(),
    {
        self.0
    }
}

/// Something that the broker keeps for a component.
#[derive(Clone, Copy, Debug, PartialEq, Eq, PartialOrd, Ord, Hash)]
pub struct ResourceId(u64);

impl ResourceId {
    pub closed spec fn raw(self) -> u64 {
        self.0
    }

    pub fn from_raw(value: u64) -> (id: Self)
        ensures
            id.raw() == value,
    {
        ResourceId(value)
    }

    pub fn into_raw(self) -> (value: u64)
        ensures
            value == self.raw(),
    {
        self.0
    }
}

/// What is handed to the broker.
#[derive(Debug, PartialEq, Eq)]
pub struct Submission {
    pub capability: &'static str,
    pub operation: &'static str,
    pub payload: Vec<u8>,
}

/// What is handed to the broker for a message, where the message has any bytes.
pub open spec fn submits(
    submission: Submission,
    capability: Seq<char>,
    operation: Seq<char>,
    payload: Result<Seq<u8>, SchemaError>,
) -> bool {
    &&& submission.capability@ == capability
    &&& submission.operation@ == operation
    &&& payload == Ok::<Seq<u8>, SchemaError>(submission.payload@)
}

/// The code of an error of the broker.
#[derive(Clone, Copy, Debug, PartialEq, Eq, Structural)]
pub struct ErrorCode(pub u32);

#[derive(Clone, Copy, Debug, PartialEq, Eq, Structural)]
pub enum DbusSubmitError {
    InvalidPayload,
    Broker(ErrorCode),
}

impl DbusSubmitError {
    /// What the broker answers to a submission.
    pub fn answer(reply: Result<u64, ErrorCode>) -> (result: Result<RequestId, Self>)
        ensures
            match (result, reply) {
                (Ok(id), Ok(value)) => id.raw() == value,
                (Err(error), Err(code)) => error == DbusSubmitError::Broker(code),
                _ => false,
            },
    {
        match reply {
            Ok(value) => Ok(RequestId(value)),
            Err(code) => Err(DbusSubmitError::Broker(code)),
        }
    }
}

#[derive(Clone, Copy, Debug, PartialEq, Eq, Structural)]
pub enum FilesystemSubmitError {
    InvalidPayload,
    Broker(ErrorCode),
}

impl FilesystemSubmitError {
    /// What the broker answers to a submission.
    pub fn answer(reply: Result<u64, ErrorCode>) -> (result: Result<RequestId, Self>)
        ensures
            match (result, reply) {
                (Ok(id), Ok(value)) => id.raw() == value,
                (Err(error), Err(code)) => error == FilesystemSubmitError::Broker(code),
                _ => false,
            },
    {
        match reply {
            Ok(value) => Ok(RequestId(value)),
            Err(code) => Err(FilesystemSubmitError::Broker(code)),
        }
    }
}

#[derive(Clone, Copy, Debug, PartialEq, Eq, Structural)]
pub enum HttpSubmitError {
    InvalidPayload,
    Broker(ErrorCode),
}

impl HttpSubmitError {
    /// What the broker answers to a submission.
    pub fn answer(reply: Result<u64, ErrorCode>) -> (result: Result<RequestId, Self>)
        ensures
            match (result, reply) {
                (Ok(id), Ok(value)) => id.raw() == value,
                (Err(error), Err(code)) => error == HttpSubmitError::Broker(code),
                _ => false,
            },
    {
        match reply {
            Ok(value) => Ok(RequestId(value)),
            Err(code) => Err(HttpSubmitError::Broker(code)),
        }
    }
}

#[derive(Clone, Copy, Debug, PartialEq, Eq, Structural)]
pub enum CommandSubmitError {
    InvalidPayload,
    Broker(ErrorCode),
}

impl CommandSubmitError {
    /// What the broker answers to a submission.
    pub fn answer(reply: Result<u64, ErrorCode>) -> (result: Result<RequestId, Self>)
        ensures
            match (result, reply) {
                (Ok(id), Ok(value)) => id.raw() == value,
                (Err(error), Err(code)) => error == CommandSubmitError::Broker(code),
                _ => false,
            },
    {
        match reply {
            Ok(value) => Ok(RequestId(value)),
            Err(code) => Err(CommandSubmitError::Broker(code)),
        }
    }
}

#[derive(Clone, Copy, Debug, PartialEq, Eq, Structural)]
pub enum UriSubmitError {
    InvalidPayload,
    Broker(ErrorCode),
}

impl UriSubmitError {
    /// What the broker answers to a submission.
    pub fn answer(reply: Result<u64, ErrorCode>) -> (result: Result<RequestId, Self>)
        ensures
            match (result, reply) {
                (Ok(id), Ok(value)) => id.raw() == value,
                (Err(error), Err(code)) => error == UriSubmitError::Broker(code),
                _ => false,
            },
    {
        match reply {
            Ok(value) => Ok(RequestId(value)),
            Err(code) => Err(UriSubmitError::Broker(code)),
        }
    }
}

#[derive(Clone, Copy, Debug, PartialEq, Eq, Structural)]
pub enum NotificationSubmitError {
    InvalidPayload,
    Broker(ErrorCode),
}

impl NotificationSubmitError {
    /// What the broker answers to a submission.
    pub fn answer(reply: Result<u64, ErrorCode>) -> (result: Result<RequestId, Self>)
        ensures
            match (result, reply) {
                (Ok(id), Ok(value)) => id.raw() == value,
                (Err(error), Err(code)) => error == NotificationSubmitError::Broker(code),
                _ => false,
            },
    {
        match reply {
            Ok(value) => Ok(RequestId(value)),
            Err(code) => Err(NotificationSubmitError::Broker(code)),
        }
    }
}

#[derive(Clone, Copy, Debug, PartialEq, Eq, Structural)]
pub enum LocalSubmitError {
    InvalidPayload,
    Broker(ErrorCode),
}

impl LocalSubmitError {
    /// What the broker answers to a submission.
    pub fn answer(reply: Result<u64, ErrorCode>) -> (result: Result<RequestId, Self>)
        ensures
            match (result, reply) {
                (Ok(id), Ok(value)) => id.raw() == value,
                (Err(error), Err(code)) => error == LocalSubmitError::Broker(code),
                _ => false,
            },
    {
        match reply {
            Ok(value) => Ok(RequestId(value)),
            Err(code) => Err(LocalSubmitError::Broker(code)),
        }
    }
}

#[derive(Clone, Copy, Debug, PartialEq, Eq, Structural)]
pub enum SecretSubmitError {
    InvalidPayload,
    Broker(ErrorCode),
}

impl SecretSubmitError {
    /// What the broker answers to a submission.
    pub fn answer(reply: Result<u64, ErrorCode>) -> (result: Result<RequestId, Self>)
        ensures
            match (result, reply) {
                (Ok(id), Ok(value)) => id.raw() == value,
                (Err(error), Err(code)) => error == SecretSubmitError::Broker(code),
                _ => false,
            },
    {
        match reply {
            Ok(value) => Ok(RequestId(value)),
            Err(code) => Err(SecretSubmitError::Broker(code)),
        }
    }
}

#[derive(Clone, Copy, Debug, PartialEq, Eq, Structural)]
pub enum ContextSubmitError {
    InvalidPayload,
    Broker(ErrorCode),
}

impl ContextSubmitError {
    /// What the broker answers to a submission.
    pub fn answer(reply: Result<u64, ErrorCode>) -> (result: Result<RequestId, Self>)
        ensures
            match (result, reply) {
                (Ok(id), Ok(value)) => id.raw() == value,
                (Err(error), Err(code)) => error == ContextSubmitError::Broker(code),
                _ => false,
            },
    {
        match reply {
            Ok(value) => Ok(RequestId(value)),
            Err(code) => Err(ContextSubmitError::Broker(code)),
        }
    }
}

#[derive(Clone, Copy, Debug, PartialEq, Eq, Structural)]
pub enum ClipboardSubmitError {
    InvalidPayload,
    Broker(ErrorCode),
}

impl ClipboardSubmitError {
    /// What the broker answers to a submission.
    pub fn answer(reply: Result<u64, ErrorCode>) -> (result: Result<RequestId, Self>)
        ensures
            match (result, reply) {
                (Ok(id), Ok(value)) => id.raw() == value,
                (Err(error), Err(code)) => error == ClipboardSubmitError::Broker(code),
                _ => false,
            },
    {
        match reply {
            Ok(value) => Ok(RequestId(value)),
            Err(code) => Err(ClipboardSubmitError::Broker(code)),
        }
    }
}

#[derive(Clone, Copy, Debug, PartialEq, Eq, Structural)]
pub enum SubmitError {
    InvalidPayload,
    Broker(ErrorCode),
}

impl SubmitError {
    /// What the broker answers to a submission.
    pub fn answer(reply: Result<u64, ErrorCode>) -> (result: Result<RequestId, Self>)
        ensures
            match (result, reply) {
                (Ok(id), Ok(value)) => id.raw() == value,
                (Err(error), Err(code)) => error == SubmitError::Broker(code),
                _ => false,
            },
    {
        match reply {
            Ok(value) => Ok(RequestId(value)),
            Err(code) => Err(SubmitError::Broker(code)),
        }
    }
}

fn copied_bytes(bytes: &[u8]) -> (copy: Vec<u8>)
    ensures
        copy@ == bytes@,
{
    let mut copy: Vec<u8> = Vec::new();
    let mut i: usize = 0;
    while i < bytes.len()
        invariant
            i <= bytes@.len(),
            copy@ == bytes@.subrange(0, i as int),
        decreases bytes@.len() - i,
    {
        copy.push(bytes[i]);
        proof {
            assert(copy@ =~= bytes@.subrange(0, i + 1));
        }
        i = i + 1;
    }
    proof {
        assert(copy@ =~= bytes@);
    }
    copy
}

// ---------------------------------------------------------------------------
// Submissions

/// Asks for one MIME representation of the clipboard.
pub fn clipboard_read(mime_type: &str) -> (result: Result<Submission, ClipboardSubmitError>)
    ensures
        match result {
            Ok(submission) => submits(
                submission,
                "clipboard.read.v1"@,
                "read"@,
                (ClipboardReadRequestView { mime_type: mime_type@ }).payload(),
            ),
            Err(error) => error == ClipboardSubmitError::InvalidPayload
                && (ClipboardReadRequestView { mime_type: mime_type@ })
                .payload() is Err,
        },
{
    let message = ClipboardReadRequest { mime_type: text::copied(mime_type) };
    match message.encode() {
        Ok(payload) => Ok(
            Submission { capability: "clipboard.read.v1", operation: "read", payload },
        ),
        Err(_) => Err(ClipboardSubmitError::InvalidPayload),
    }
}

/// Replaces the clipboard with one MIME representation.
pub fn clipboard_write(mime_type: &str, bytes: &[u8]) -> (result: Result<
    Submission,
    ClipboardSubmitError,
>)
    ensures
        match result {
            Ok(submission) => submits(
                submission,
                "clipboard.write.v1"@,
                "write"@,
                (ClipboardWriteRequestView { mime_type: mime_type@, bytes: bytes@ }).payload(),
            ),
            Err(error) => error == ClipboardSubmitError::InvalidPayload
                && (ClipboardWriteRequestView { mime_type: mime_type@, bytes: bytes@ })
                .payload() is Err,
        },
{
    let message = ClipboardWriteRequest {
        mime_type: text::copied(mime_type),
        bytes: copied_bytes(bytes),
    };
    match message.encode() {
        Ok(payload) => Ok(
            Submission { capability: "clipboard.write.v1", operation: "write", payload },
        ),
        Err(_) => Err(ClipboardSubmitError::InvalidPayload),
    }
}

/// Asks for facts, once.
pub fn context_snapshot(message: &ContextReadRequest) -> (result: Result<
    Submission,
    ContextSubmitError,
>)
    ensures
        match result {
            Ok(submission) => submits(
                submission,
                "context.read.v1"@,
                "snapshot"@,
                message@.payload(),
            ),
            Err(error) => error == ContextSubmitError::InvalidPayload && message@.payload() is Err,
        },
{
    match message.encode() {
        Ok(payload) => Ok(
            Submission { capability: "context.read.v1", operation: "snapshot", payload },
        ),
        Err(_) => Err(ContextSubmitError::InvalidPayload),
    }
}

/// Asks for facts, and for their changes.
pub fn context_subscribe(message: &ContextReadRequest) -> (result: Result<
    Submission,
    ContextSubmitError,
>)
    ensures
        match result {
            Ok(submission) => submits(
                submission,
                "context.read.v1"@,
                "subscribe"@,
                message@.payload(),
            ),
            Err(error) => error == ContextSubmitError::InvalidPayload && message@.payload() is Err,
        },
{
    match message.encode() {
        Ok(payload) => Ok(
            Submission { capability: "context.read.v1", operation: "subscribe", payload },
        ),
        Err(_) => Err(ContextSubmitError::InvalidPayload),
    }
}

/// Asks for one secret by its logical name.
pub fn read_secret(logical_name: &str) -> (result: Result<Submission, SecretSubmitError>)
    ensures
        match result {
            Ok(submission) => submits(
                submission,
                "secret.read.v1"@,
                "read"@,
                (SecretReadRequestView { logical_name: logical_name@ }).payload(),
            ),
            Err(error) => error == SecretSubmitError::InvalidPayload
                && (SecretReadRequestView { logical_name: logical_name@ })
                .payload() is Err,
        },
{
    let message = SecretReadRequest { logical_name: text::copied(logical_name) };
    match message.encode() {
        Ok(payload) => Ok(Submission { capability: "secret.read.v1", operation: "read", payload }),
        Err(_) => Err(SecretSubmitError::InvalidPayload),
    }
}

/// Asks for a connection to a local endpoint.
pub fn local_connect(message: &LocalConnect) -> (result: Result<Submission, LocalSubmitError>)
    ensures
        match result {
            Ok(submission) => submits(
                submission,
                "local.connect.v1"@,
                "connect"@,
                message@.payload(),
            ),
            Err(error) => error == LocalSubmitError::InvalidPayload && message@.payload() is Err,
        },
{
    match message.encode() {
        Ok(payload) => Ok(
            Submission { capability: "local.connect.v1", operation: "connect", payload },
        ),
        Err(_) => Err(LocalSubmitError::InvalidPayload),
    }
}

/// Sends a frame over a connection.
pub fn local_send(resource_id: ResourceId, bytes: &[u8]) -> (result: Result<
    Submission,
    LocalSubmitError,
>)
    ensures
        match result {
            Ok(submission) => submits(
                submission,
                "local.connect.v1"@,
                "send"@,
                (LocalSendFrameView { resource_id: resource_id.raw(), bytes: bytes@ }).payload(),
            ),
            Err(error) => error == LocalSubmitError::InvalidPayload
                && (LocalSendFrameView { resource_id: resource_id.raw(), bytes: bytes@ })
                .payload() is Err,
        },
{
    let message = LocalSendFrame { resource_id: resource_id.0, bytes: copied_bytes(bytes) };
    match message.encode() {
        Ok(payload) => Ok(
            Submission { capability: "local.connect.v1", operation: "send", payload },
        ),
        Err(_) => Err(LocalSubmitError::InvalidPayload),
    }
}

/// Shows a notification.
pub fn send_notification(message: &NotificationSend) -> (result: Result<
    Submission,
    NotificationSubmitError,
>)
    ensures
        match result {
            Ok(submission) => submits(
                submission,
                "notification.send.v1"@,
                "send"@,
                message@.payload(),
            ),
            Err(error) => error == NotificationSubmitError::InvalidPayload && message@
                .payload() is Err,
        },
{
    match message.encode() {
        Ok(payload) => Ok(
            Submission { capability: "notification.send.v1", operation: "send", payload },
        ),
        Err(_) => Err(NotificationSubmitError::InvalidPayload),
    }
}

/// Removes a notification.
pub fn remove_notification(id: &str) -> (result: Result<Submission, NotificationSubmitError>)
    ensures
        match result {
            Ok(submission) => submits(
                submission,
                "notification.send.v1"@,
                "remove"@,
                (NotificationRemoveView { id: id@ }).payload(),
            ),
            Err(error) => error == NotificationSubmitError::InvalidPayload
                && (NotificationRemoveView { id: id@ })
                .payload() is Err,
        },
{
    let message = NotificationRemove { id: text::copied(id) };
    match message.encode() {
        Ok(payload) => Ok(
            Submission { capability: "notification.send.v1", operation: "remove", payload },
        ),
        Err(_) => Err(NotificationSubmitError::InvalidPayload),
    }
}

/// Opens an address.
pub fn open_uri(message: &UriOpenRequest) -> (result: Result<Submission, UriSubmitError>)
    ensures
        match result {
            Ok(submission) => submits(submission, "uri.open.v1"@, "open"@, message@.payload()),
            Err(error) => error == UriSubmitError::InvalidPayload && message@.payload() is Err,
        },
{
    match message.encode() {
        Ok(payload) => Ok(Submission { capability: "uri.open.v1", operation: "open", payload }),
        Err(_) => Err(UriSubmitError::InvalidPayload),
    }
}

/// Runs a command.
pub fn command_run(message: &CommandRunRequest) -> (result: Result<Submission, CommandSubmitError>)
    ensures
        match result {
            Ok(submission) => submits(submission, "command.run.v1"@, "run"@, message@.payload()),
            Err(error) => error == CommandSubmitError::InvalidPayload && message@.payload() is Err,
        },
{
    match message.encode() {
        Ok(payload) => Ok(Submission { capability: "command.run.v1", operation: "run", payload }),
        Err(_) => Err(CommandSubmitError::InvalidPayload),
    }
}

/// Makes a request over HTTP.
pub fn http_request(message: &HttpRequest) -> (result: Result<Submission, HttpSubmitError>)
    ensures
        match result {
            Ok(submission) => submits(
                submission,
                "http.request.v1"@,
                "request"@,
                message@.payload(),
            ),
            Err(error) => error == HttpSubmitError::InvalidPayload && message@.payload() is Err,
        },
{
    match message.encode() {
        Ok(payload) => Ok(
            Submission { capability: "http.request.v1", operation: "request", payload },
        ),
        Err(_) => Err(HttpSubmitError::InvalidPayload),
    }
}

/// Makes a request over HTTP whose answer comes in parts.
pub fn http_request_stream(message: &HttpRequest) -> (result: Result<Submission, HttpSubmitError>)
    ensures
        match result {
            Ok(submission) => submits(
                submission,
                "http.request.v1"@,
                "request-stream"@,
                message@.payload(),
            ),
            Err(error) => error == HttpSubmitError::InvalidPayload && message@.payload() is Err,
        },
{
    match message.encode() {
        Ok(payload) => Ok(
            Submission { capability: "http.request.v1", operation: "request-stream", payload },
        ),
        Err(_) => Err(HttpSubmitError::InvalidPayload),
    }
}

/// Reads a part of a file.
pub fn filesystem_read_file(message: &FilesystemReadFile) -> (result: Result<
    Submission,
    FilesystemSubmitError,
>)
    ensures
        match result {
            Ok(submission) => submits(
                submission,
                "filesystem.read.v1"@,
                "read-file"@,
                message@.payload(),
            ),
            Err(error) => error == FilesystemSubmitError::InvalidPayload && message@
                .payload() is Err,
        },
{
    match message.encode() {
        Ok(payload) => Ok(
            Submission { capability: "filesystem.read.v1", operation: "read-file", payload },
        ),
        Err(_) => Err(FilesystemSubmitError::InvalidPayload),
    }
}

/// Reads a file in parts.
pub fn filesystem_read_stream(message: &FilesystemReadStream) -> (result: Result<
    Submission,
    FilesystemSubmitError,
>)
    ensures
        match result {
            Ok(submission) => submits(
                submission,
                "filesystem.read.v1"@,
                "read-file-stream"@,
                message@.payload(),
            ),
            Err(error) => error == FilesystemSubmitError::InvalidPayload && message@
                .payload() is Err,
        },
{
    match message.encode() {
        Ok(payload) => Ok(
            Submission { capability: "filesystem.read.v1", operation: "read-file-stream", payload },
        ),
        Err(_) => Err(FilesystemSubmitError::InvalidPayload),
    }
}

/// Lists a directory.
pub fn filesystem_list_directory(message: &FilesystemListDirectory) -> (result: Result<
    Submission,
    FilesystemSubmitError,
>)
    ensures
        match result {
            Ok(submission) => submits(
                submission,
                "filesystem.read.v1"@,
                "list-directory"@,
                message@.payload(),
            ),
            Err(error) => error == FilesystemSubmitError::InvalidPayload && message@
                .payload() is Err,
        },
{
    match message.encode() {
        Ok(payload) => Ok(
            Submission { capability: "filesystem.read.v1", operation: "list-directory", payload },
        ),
        Err(_) => Err(FilesystemSubmitError::InvalidPayload),
    }
}

/// Creates a file.
pub fn filesystem_create_file(message: &FilesystemWriteFile) -> (result: Result<
    Submission,
    FilesystemSubmitError,
>)
    ensures
        match result {
            Ok(submission) => submits(
                submission,
                "filesystem.write.v1"@,
                "create-file"@,
                message@.payload(),
            ),
            Err(error) => error == FilesystemSubmitError::InvalidPayload && message@
                .payload() is Err,
        },
{
    match message.encode() {
        Ok(payload) => Ok(
            Submission { capability: "filesystem.write.v1", operation: "create-file", payload },
        ),
        Err(_) => Err(FilesystemSubmitError::InvalidPayload),
    }
}

/// Replaces a file.
pub fn filesystem_replace_file(message: &FilesystemWriteFile) -> (result: Result<
    Submission,
    FilesystemSubmitError,
>)
    ensures
        match result {
            Ok(submission) => submits(
                submission,
                "filesystem.write.v1"@,
                "replace-file"@,
                message@.payload(),
            ),
            Err(error) => error == FilesystemSubmitError::InvalidPayload && message@
                .payload() is Err,
        },
{
    match message.encode() {
        Ok(payload) => Ok(
            Submission { capability: "filesystem.write.v1", operation: "replace-file", payload },
        ),
        Err(_) => Err(FilesystemSubmitError::InvalidPayload),
    }
}

/// Appends to a file.
pub fn filesystem_append_file(message: &FilesystemWriteFile) -> (result: Result<
    Submission,
    FilesystemSubmitError,
>)
    ensures
        match result {
            Ok(submission) => submits(
                submission,
                "filesystem.write.v1"@,
                "append-file"@,
                message@.payload(),
            ),
            Err(error) => error == FilesystemSubmitError::InvalidPayload && message@
                .payload() is Err,
        },
{
    match message.encode() {
        Ok(payload) => Ok(
            Submission { capability: "filesystem.write.v1", operation: "append-file", payload },
        ),
        Err(_) => Err(FilesystemSubmitError::InvalidPayload),
    }
}

/// Deletes a file.
pub fn filesystem_delete_file(message: &FilesystemPath) -> (result: Result<
    Submission,
    FilesystemSubmitError,
>)
    ensures
        match result {
            Ok(submission) => submits(
                submission,
                "filesystem.write.v1"@,
                "delete-file"@,
                message@.payload(),
            ),
            Err(error) => error == FilesystemSubmitError::InvalidPayload && message@
                .payload() is Err,
        },
{
    match message.encode() {
        Ok(payload) => Ok(
            Submission { capability: "filesystem.write.v1", operation: "delete-file", payload },
        ),
        Err(_) => Err(FilesystemSubmitError::InvalidPayload),
    }
}

/// Creates a directory.
pub fn filesystem_create_directory(message: &FilesystemPath) -> (result: Result<
    Submission,
    FilesystemSubmitError,
>)
    ensures
        match result {
            Ok(submission) => submits(
                submission,
                "filesystem.write.v1"@,
                "create-directory"@,
                message@.payload(),
            ),
            Err(error) => error == FilesystemSubmitError::InvalidPayload && message@
                .payload() is Err,
        },
{
    match message.encode() {
        Ok(payload) => Ok(
            Submission {
                capability: "filesystem.write.v1",
                operation: "create-directory",
                payload,
            },
        ),
        Err(_) => Err(FilesystemSubmitError::InvalidPayload),
    }
}

/// Renames a file.
pub fn filesystem_rename(message: &FilesystemRename) -> (result: Result<
    Submission,
    FilesystemSubmitError,
>)
    ensures
        match result {
            Ok(submission) => submits(
                submission,
                "filesystem.write.v1"@,
                "rename"@,
                message@.payload(),
            ),
            Err(error) => error == FilesystemSubmitError::InvalidPayload && message@
                .payload() is Err,
        },
{
    match message.encode() {
        Ok(payload) => Ok(
            Submission { capability: "filesystem.write.v1", operation: "rename", payload },
        ),
        Err(_) => Err(FilesystemSubmitError::InvalidPayload),
    }
}

/// Creates a file in parts.
pub fn filesystem_create_file_stream(message: &FilesystemWriteStream) -> (result: Result<
    Submission,
    FilesystemSubmitError,
>)
    ensures
        match result {
            Ok(submission) => submits(
                submission,
                "filesystem.write.v1"@,
                "create-file-stream"@,
                message@.payload(),
            ),
            Err(error) => error == FilesystemSubmitError::InvalidPayload && message@
                .payload() is Err,
        },
{
    match message.encode() {
        Ok(payload) => Ok(
            Submission {
                capability: "filesystem.write.v1",
                operation: "create-file-stream",
                payload,
            },
        ),
        Err(_) => Err(FilesystemSubmitError::InvalidPayload),
    }
}

/// Replaces a file in parts.
pub fn filesystem_replace_file_stream(message: &FilesystemWriteStream) -> (result: Result<
    Submission,
    FilesystemSubmitError,
>)
    ensures
        match result {
            Ok(submission) => submits(
                submission,
                "filesystem.write.v1"@,
                "replace-file-stream"@,
                message@.payload(),
            ),
            Err(error) => error == FilesystemSubmitError::InvalidPayload && message@
                .payload() is Err,
        },
{
    match message.encode() {
        Ok(payload) => Ok(
            Submission {
                capability: "filesystem.write.v1",
                operation: "replace-file-stream",
                payload,
            },
        ),
        Err(_) => Err(FilesystemSubmitError::InvalidPayload),
    }
}

/// Appends to a file in parts.
pub fn filesystem_append_file_stream(message: &FilesystemWriteStream) -> (result: Result<
    Submission,
    FilesystemSubmitError,
>)
    ensures
        match result {
            Ok(submission) => submits(
                submission,
                "filesystem.write.v1"@,
                "append-file-stream"@,
                message@.payload(),
            ),
            Err(error) => error == FilesystemSubmitError::InvalidPayload && message@
                .payload() is Err,
        },
{
    match message.encode() {
        Ok(payload) => Ok(
            Submission {
                capability: "filesystem.write.v1",
                operation: "append-file-stream",
                payload,
            },
        ),
        Err(_) => Err(FilesystemSubmitError::InvalidPayload),
    }
}

/// Hands over the next part of a file.
pub fn filesystem_write_stream_chunk(message: &FilesystemWriteStreamChunk) -> (result: Result<
    Submission,
    FilesystemSubmitError,
>)
    ensures
        match result {
            Ok(submission) => submits(
                submission,
                "filesystem.write.v1"@,
                "write-stream-chunk"@,
                message@.payload(),
            ),
            Err(error) => error == FilesystemSubmitError::InvalidPayload && message@
                .payload() is Err,
        },
{
    match message.encode() {
        Ok(payload) => Ok(
            Submission {
                capability: "filesystem.write.v1",
                operation: "write-stream-chunk",
                payload,
            },
        ),
        Err(_) => Err(FilesystemSubmitError::InvalidPayload),
    }
}

/// Ends a file that was handed over in parts.
pub fn filesystem_write_stream_commit(resource_id: ResourceId) -> (result: Result<
    Submission,
    FilesystemSubmitError,
>)
    ensures
        match result {
            Ok(submission) => submits(
                submission,
                "filesystem.write.v1"@,
                "write-stream-commit"@,
                (FilesystemWriteStreamCommit { resource_id: resource_id.raw() }).payload(),
            ),
            Err(error) => error == FilesystemSubmitError::InvalidPayload
                && (FilesystemWriteStreamCommit { resource_id: resource_id.raw() })
                .payload() is Err,
        },
{
    let message = FilesystemWriteStreamCommit { resource_id: resource_id.0 };
    match message.encode() {
        Ok(payload) => Ok(
            Submission {
                capability: "filesystem.write.v1",
                operation: "write-stream-commit",
                payload,
            },
        ),
        Err(_) => Err(FilesystemSubmitError::InvalidPayload),
    }
}

/// Calls a method over D-Bus.
pub fn dbus_call(message: &DbusCall) -> (result: Result<Submission, DbusSubmitError>)
    ensures
        match result {
            Ok(submission) => submits(submission, "dbus.call.v1"@, "call"@, message@.payload()),
            Err(error) => error == DbusSubmitError::InvalidPayload && message@.payload() is Err,
        },
{
    match message.encode() {
        Ok(payload) => Ok(Submission { capability: "dbus.call.v1", operation: "call", payload }),
        Err(_) => Err(DbusSubmitError::InvalidPayload),
    }
}

/// Asks for a signal of D-Bus.
pub fn dbus_subscribe(message: &DbusSubscription) -> (result: Result<Submission, DbusSubmitError>)
    ensures
        match result {
            Ok(submission) => submits(
                submission,
                "dbus.subscribe.v1"@,
                "subscribe"@,
                message@.payload(),
            ),
            Err(error) => error == DbusSubmitError::InvalidPayload && message@.payload() is Err,
        },
{
    match message.encode() {
        Ok(payload) => Ok(
            Submission { capability: "dbus.subscribe.v1", operation: "subscribe", payload },
        ),
        Err(_) => Err(DbusSubmitError::InvalidPayload),
    }
}

/// Reads a part of a file, for a provider of appearances.
pub fn read_file(message: &FilesystemReadFile) -> (result: Result<Submission, SubmitError>)
    ensures
        match result {
            Ok(submission) => submits(
                submission,
                "appearance.provide.v1"@,
                "read-file"@,
                message@.payload(),
            ),
            Err(error) => error == SubmitError::InvalidPayload && message@.payload() is Err,
        },
{
    match message.encode() {
        Ok(payload) => Ok(
            Submission { capability: "appearance.provide.v1", operation: "read-file", payload },
        ),
        Err(_) => Err(SubmitError::InvalidPayload),
    }
}

/// Publishes an appearance.
pub fn publish(message: &AppearancePublish) -> (result: Result<Submission, SubmitError>)
    ensures
        match result {
            Ok(submission) => submits(
                submission,
                "appearance.provide.v1"@,
                "publish"@,
                message@.payload(),
            ),
            Err(error) => error == SubmitError::InvalidPayload && message@.payload() is Err,
        },
{
    match message.encode() {
        Ok(payload) => Ok(
            Submission { capability: "appearance.provide.v1", operation: "publish", payload },
        ),
        Err(_) => Err(SubmitError::InvalidPayload),
    }
}

// ---------------------------------------------------------------------------
// Answers

/// Reads the clipboard.
pub fn decode_clipboard(payload: &[u8]) -> (value: Result<ClipboardValue, SchemaError>)
    ensures
        wire::outcome(value) == ClipboardValueView::read(payload@),
{
    ClipboardValue::decode(payload)
}

/// Reads facts.
pub fn decode_context_snapshot(payload: &[u8]) -> (value: Result<ContextSnapshot, SchemaError>)
    ensures
        wire::outcome(value) == ContextSnapshotView::read(payload@),
{
    ContextSnapshot::decode(payload)
}

/// Reads facts, and what their changes come under.
pub fn decode_context_subscription_opened(payload: &[u8]) -> (value: Result<
    (ResourceId, ContextSnapshot),
    SchemaError,
>)
    ensures
        match (value, ContextSubscriptionOpenedView::read(payload@)) {
            (Ok((id, snapshot)), Ok(opened)) => id.raw() == opened.resource_id && snapshot@
                == opened.snapshot,
            (Err(error), Err(why)) => error == why,
            _ => false,
        },
{
    match ContextSubscriptionOpened::decode(payload) {
        Ok(opened) => Ok((ResourceId(opened.resource_id), opened.snapshot)),
        Err(error) => Err(error),
    }
}

/// Reads a secret.
pub fn decode_secret(payload: &[u8]) -> (value: Result<SecretValue, SchemaError>)
    ensures
        wire::outcome(value) == SecretValueView::read(payload@),
{
    SecretValue::decode(payload)
}

/// Reads what a connection is known by, and how long its frames may be.
pub fn decode_local_connection_opened(payload: &[u8]) -> (value: Result<
    (ResourceId, u32),
    SchemaError,
>)
    ensures
        match (value, LocalConnectionOpened::read(payload@)) {
            (Ok((id, most)), Ok(opened)) => id.raw() == opened.resource_id && most
                == opened.maximum_frame_bytes,
            (Err(error), Err(why)) => error == why,
            _ => false,
        },
{
    match LocalConnectionOpened::decode(payload) {
        Ok(opened) => Ok((ResourceId(opened.resource_id), opened.maximum_frame_bytes)),
        Err(error) => Err(error),
    }
}

/// Reads a frame of a connection.
pub fn decode_local_frame(payload: &[u8]) -> (value: Result<LocalFrameEvent, SchemaError>)
    ensures
        wire::outcome(value) == LocalFrameEventView::read(payload@),
{
    LocalFrameEvent::decode(payload)
}

/// Reads what a command is known by.
pub fn decode_command_opened(payload: &[u8]) -> (value: Result<ResourceId, SchemaError>)
    ensures
        match (value, CommandOpened::read(payload@)) {
            (Ok(id), Ok(opened)) => id.raw() == opened.resource_id,
            (Err(error), Err(why)) => error == why,
            _ => false,
        },
{
    match CommandOpened::decode(payload) {
        Ok(opened) => Ok(ResourceId(opened.resource_id)),
        Err(error) => Err(error),
    }
}

/// Reads what a command says.
pub fn decode_command_event(payload: &[u8]) -> (value: Result<CommandEvent, SchemaError>)
    ensures
        wire::outcome(value) == CommandEventView::read(payload@),
{
    CommandEvent::decode(payload)
}

/// Reads an answer over HTTP.
pub fn decode_http_response(payload: &[u8]) -> (value: Result<HttpResponse, SchemaError>)
    ensures
        wire::outcome(value) == HttpResponseView::read(payload@),
{
    HttpResponse::decode(payload)
}

/// Reads what an answer in parts is known by.
pub fn decode_http_stream_opened(payload: &[u8]) -> (value: Result<ResourceId, SchemaError>)
    ensures
        match (value, HttpStreamOpened::read(payload@)) {
            (Ok(id), Ok(opened)) => id.raw() == opened.resource_id,
            (Err(error), Err(why)) => error == why,
            _ => false,
        },
{
    match HttpStreamOpened::decode(payload) {
        Ok(opened) => Ok(ResourceId(opened.resource_id)),
        Err(error) => Err(error),
    }
}

/// Reads a part of an answer over HTTP.
pub fn decode_http_stream_event(payload: &[u8]) -> (value: Result<HttpStreamEvent, SchemaError>)
    ensures
        wire::outcome(value) == HttpStreamEventView::read(payload@),
{
    HttpStreamEvent::decode(payload)
}

/// Reads a part of a file.
pub fn decode_filesystem_file_chunk(payload: &[u8]) -> (value: Result<
    FilesystemFileChunk,
    SchemaError,
>)
    ensures
        wire::outcome(value) == FilesystemFileChunkView::read(payload@),
{
    FilesystemFileChunk::decode(payload)
}

/// Reads what a file in parts is known by.
pub fn decode_filesystem_stream_opened(payload: &[u8]) -> (value: Result<ResourceId, SchemaError>)
    ensures
        match (value, FilesystemStreamOpened::read(payload@)) {
            (Ok(id), Ok(opened)) => id.raw() == opened.resource_id,
            (Err(error), Err(why)) => error == why,
            _ => false,
        },
{
    match FilesystemStreamOpened::decode(payload) {
        Ok(opened) => Ok(ResourceId(opened.resource_id)),
        Err(error) => Err(error),
    }
}

/// Reads the next part of a file.
pub fn decode_filesystem_stream_event(payload: &[u8]) -> (value: Result<
    FilesystemStreamEvent,
    SchemaError,
>)
    ensures
        wire::outcome(value) == FilesystemStreamEventView::read(payload@),
{
    FilesystemStreamEvent::decode(payload)
}

/// Reads the entries of a directory.
pub fn decode_filesystem_directory_entries(payload: &[u8]) -> (value: Result<
    FilesystemDirectoryEntries,
    SchemaError,
>)
    ensures
        wire::outcome(value) == FilesystemDirectoryEntriesView::read(payload@),
{
    FilesystemDirectoryEntries::decode(payload)
}

/// Reads what a change of a file came to.
pub fn decode_filesystem_mutation_result(payload: &[u8]) -> (value: Result<
    FilesystemMutationResult,
    SchemaError,
>)
    ensures
        value == FilesystemMutationResult::read(payload@),
{
    FilesystemMutationResult::decode(payload)
}

/// Reads what a file that is handed over in parts is known by.
pub fn decode_filesystem_write_stream_opened(payload: &[u8]) -> (value: Result<
    FilesystemWriteStreamOpened,
    SchemaError,
>)
    ensures
        value == FilesystemWriteStreamOpened::read(payload@),
{
    FilesystemWriteStreamOpened::decode(payload)
}

/// Reads the reply to a call over D-Bus.
pub fn decode_dbus_reply(payload: &[u8]) -> (value: Result<DbusReply, SchemaError>)
    ensures
        wire::outcome(value) == DbusReplyView::read(payload@),
{
    DbusReply::decode(payload)
}

/// Reads what a subscription is known by.
pub fn decode_dbus_subscription_opened(payload: &[u8]) -> (value: Result<ResourceId, SchemaError>)
    ensures
        match (value, DbusSubscriptionOpened::read(payload@)) {
            (Ok(id), Ok(opened)) => id.raw() == opened.resource_id,
            (Err(error), Err(why)) => error == why,
            _ => false,
        },
{
    match DbusSubscriptionOpened::decode(payload) {
        Ok(opened) => Ok(ResourceId(opened.resource_id)),
        Err(error) => Err(error),
    }
}

/// Reads a signal of D-Bus.
pub fn decode_dbus_properties_changed(payload: &[u8]) -> (value: Result<
    DbusPropertiesChanged,
    SchemaError,
>)
    ensures
        wire::outcome(value) == DbusPropertiesChangedView::read(payload@),
{
    DbusPropertiesChanged::decode(payload)
}

/// Reads a part of a file, for a provider of appearances.
pub fn decode_file_chunk(payload: &[u8]) -> (value: Result<FilesystemFileChunk, SchemaError>)
    ensures
        wire::outcome(value) == FilesystemFileChunkView::read(payload@),
{
    FilesystemFileChunk::decode(payload)
}

} // verus!
