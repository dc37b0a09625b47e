//! Bounded, typed payloads shared by sandboxed plugins and trusted brokers.
//!
//! Each capability owns exactly one schema. For every payload `payload` gives
//! the bytes of a value and `read` the value of some bytes; `round_trip` and
//! `canonical` show that they are inverse to each other.
pub mod appearance;
pub mod clipboard;
pub mod command;
pub mod context;
pub mod dbus;
pub mod filesystem_read;
pub mod filesystem_write;
pub mod http;
pub mod local;
pub mod notification;
pub mod octets;
pub mod secret;
pub mod uri;

pub use appearance::{
    APPEARANCE_PUBLISH_MAGIC, AppearanceColor, AppearancePublish, AppearanceScheme,
};
pub use clipboard::{
    CLIPBOARD_READ_MAGIC, CLIPBOARD_VALUE_MAGIC, CLIPBOARD_WRITE_MAGIC, ClipboardReadRequest,
    ClipboardValue, ClipboardWriteRequest, MAX_CLIPBOARD_BYTES, MAX_CLIPBOARD_MIME_BYTES,
};
pub use command::{
    COMMAND_EVENT_MAGIC, COMMAND_OPENED_MAGIC, COMMAND_REQUEST_MAGIC, CommandEvent, CommandOpened,
    CommandRunRequest, CommandValue, MAX_COMMAND_OUTPUT_CHUNK_BYTES, MAX_COMMAND_VALUES,
};
pub use context::{
    CONTEXT_OPENED_MAGIC, CONTEXT_READ_MAGIC, CONTEXT_SNAPSHOT_MAGIC, ContextFact, ContextFactValue,
    ContextReadRequest, ContextSnapshot, ContextSubscriptionOpened, MAX_CONTEXT_FACTS,
    MAX_CONTEXT_VALUE_BYTES,
};
pub use dbus::{
    CALL_MAGIC, DbusBus, DbusCall, DbusPropertiesChanged, DbusProperty, DbusReply, DbusReplyKind,
    DbusSubscription, DbusSubscriptionOpened, DbusValue, MAX_ARGUMENTS, MAX_PROPERTIES,
    OPENED_MAGIC, REPLY_MAGIC, SIGNAL_MAGIC, SUBSCRIPTION_MAGIC,
};
pub use filesystem_read::{
    DIRECTORY_LIST_MAGIC, DIRECTORY_REPLY_MAGIC, FILE_READ_MAGIC, FILE_REPLY_MAGIC,
    FILE_STREAM_EVENT_MAGIC, FILE_STREAM_OPENED_MAGIC, FILE_STREAM_REQUEST_MAGIC,
    FilesystemDirectoryEntries, FilesystemEntry, FilesystemEntryKind, FilesystemFileChunk,
    FilesystemListDirectory, FilesystemReadFile, FilesystemReadStream, FilesystemStreamEvent,
    FilesystemStreamOpened, MAX_DIRECTORY_ENTRIES, MAX_FILE_CHUNK_BYTES, MAX_FILE_STREAM_BYTES,
    MAX_FILE_STREAM_CHUNK_BYTES,
};
pub use filesystem_write::{
    FILE_MUTATION_MAGIC, FILE_PATH_MAGIC, FILE_RENAME_MAGIC, FILE_WRITE_MAGIC,
    FILE_WRITE_STREAM_CHUNK_MAGIC, FILE_WRITE_STREAM_COMMIT_MAGIC, FILE_WRITE_STREAM_MAGIC,
    FILE_WRITE_STREAM_OPENED_MAGIC, FilesystemMutationResult, FilesystemPath, FilesystemRename,
    FilesystemWriteFile, FilesystemWriteStream, FilesystemWriteStreamChunk,
    FilesystemWriteStreamCommit, FilesystemWriteStreamOpened, MAX_FILE_WRITE_BYTES,
    MAX_FILE_WRITE_STREAM_CHUNK_BYTES,
};
pub use http::{
    HTTP_REQUEST_MAGIC, HTTP_RESPONSE_MAGIC, HTTP_STREAM_EVENT_MAGIC, HTTP_STREAM_OPENED_MAGIC,
    HttpRequest, HttpRequestMethod, HttpResponse, HttpStreamEvent, HttpStreamOpened,
    MAX_HTTP_INLINE_BODY_BYTES, MAX_HTTP_STREAM_CHUNK_BYTES,
};
pub use local::{
    LOCAL_CONNECT_MAGIC, LOCAL_EVENT_MAGIC, LOCAL_OPENED_MAGIC, LOCAL_SEND_MAGIC, LocalConnect,
    LocalConnectionOpened, LocalFrameEvent, LocalSendFrame, MAX_LOCAL_FRAME_BYTES,
};
pub use notification::{
    MAX_NOTIFICATION_BODY_BYTES, MAX_NOTIFICATION_TITLE_BYTES, NOTIFICATION_REMOVE_MAGIC,
    NOTIFICATION_SEND_MAGIC, NotificationRemove, NotificationSend, NotificationUrgencyValue,
};
pub use secret::{
    MAX_SECRET_BYTES, MAX_SECRET_CONTENT_TYPE_BYTES, SECRET_READ_MAGIC, SECRET_VALUE_MAGIC,
    SecretReadRequest, SecretValue,
};
pub use uri::{MAX_URI_BYTES, URI_OPEN_MAGIC, UriOpenRequest};
