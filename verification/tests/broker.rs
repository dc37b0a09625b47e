//! The capability payloads.
use touchbar::broker::{
    AppearanceColor, AppearancePublish, AppearanceScheme, CALL_MAGIC, CLIPBOARD_READ_MAGIC,
    CLIPBOARD_VALUE_MAGIC, CLIPBOARD_WRITE_MAGIC, COMMAND_EVENT_MAGIC, COMMAND_OPENED_MAGIC,
    COMMAND_REQUEST_MAGIC, CONTEXT_OPENED_MAGIC, CONTEXT_READ_MAGIC, CONTEXT_SNAPSHOT_MAGIC,
    ClipboardReadRequest, ClipboardValue, ClipboardWriteRequest, CommandEvent, CommandOpened,
    CommandRunRequest, CommandValue, ContextFact, ContextFactValue, ContextReadRequest,
    ContextSnapshot, ContextSubscriptionOpened, DIRECTORY_LIST_MAGIC, DIRECTORY_REPLY_MAGIC,
    DbusBus, DbusCall, DbusPropertiesChanged, DbusProperty, DbusReply, DbusReplyKind,
    DbusSubscription, DbusSubscriptionOpened, DbusValue, FILE_MUTATION_MAGIC, FILE_PATH_MAGIC,
    FILE_READ_MAGIC, FILE_RENAME_MAGIC, FILE_REPLY_MAGIC, FILE_STREAM_EVENT_MAGIC,
    FILE_STREAM_OPENED_MAGIC, FILE_STREAM_REQUEST_MAGIC, FILE_WRITE_MAGIC,
    FILE_WRITE_STREAM_CHUNK_MAGIC, FILE_WRITE_STREAM_COMMIT_MAGIC, FILE_WRITE_STREAM_MAGIC,
    FILE_WRITE_STREAM_OPENED_MAGIC, FilesystemDirectoryEntries, FilesystemEntry,
    FilesystemEntryKind, FilesystemFileChunk, FilesystemListDirectory, FilesystemMutationResult,
    FilesystemPath, FilesystemReadFile, FilesystemReadStream, FilesystemRename,
    FilesystemStreamEvent, FilesystemStreamOpened, FilesystemWriteFile, FilesystemWriteStream,
    FilesystemWriteStreamChunk, FilesystemWriteStreamCommit, FilesystemWriteStreamOpened,
    HTTP_REQUEST_MAGIC, HTTP_RESPONSE_MAGIC, HTTP_STREAM_EVENT_MAGIC, HTTP_STREAM_OPENED_MAGIC,
    HttpRequest, HttpRequestMethod, HttpResponse, HttpStreamEvent, HttpStreamOpened,
    LOCAL_CONNECT_MAGIC, LOCAL_EVENT_MAGIC, LOCAL_OPENED_MAGIC, LOCAL_SEND_MAGIC, LocalConnect,
    LocalConnectionOpened, LocalFrameEvent, LocalSendFrame, MAX_CLIPBOARD_BYTES,
    MAX_CLIPBOARD_MIME_BYTES, MAX_CONTEXT_VALUE_BYTES, MAX_FILE_CHUNK_BYTES,
    MAX_FILE_STREAM_CHUNK_BYTES, MAX_FILE_WRITE_BYTES, MAX_FILE_WRITE_STREAM_CHUNK_BYTES,
    MAX_HTTP_INLINE_BODY_BYTES, MAX_HTTP_STREAM_CHUNK_BYTES, MAX_LOCAL_FRAME_BYTES,
    MAX_NOTIFICATION_TITLE_BYTES, MAX_SECRET_BYTES, MAX_URI_BYTES, NOTIFICATION_REMOVE_MAGIC,
    NOTIFICATION_SEND_MAGIC, NotificationRemove, NotificationSend, NotificationUrgencyValue,
    OPENED_MAGIC, REPLY_MAGIC, SECRET_READ_MAGIC, SECRET_VALUE_MAGIC, SIGNAL_MAGIC,
    SUBSCRIPTION_MAGIC, SecretReadRequest, SecretValue, URI_OPEN_MAGIC, UriOpenRequest,
};
use touchbar::text::TextSet;
use touchbar::wire::{SchemaError, MAX_PAYLOAD_BYTES, MAX_STRING_BYTES};

fn facts(names: &[&str]) -> TextSet<String> {
    let mut set = TextSet::new();
    for name in names {
        set.insert(name.to_string());
    }
    set
}

fn exercise_all_decoders(bytes: &[u8]) {
    let _ = ContextReadRequest::decode(bytes);
    let _ = ContextSnapshot::decode(bytes);
    let _ = ContextSubscriptionOpened::decode(bytes);
    let _ = ClipboardReadRequest::decode(bytes);
    let _ = ClipboardWriteRequest::decode(bytes);
    let _ = ClipboardValue::decode(bytes);
    let _ = SecretReadRequest::decode(bytes);
    let _ = SecretValue::decode(bytes);
    let _ = LocalConnect::decode(bytes);
    let _ = LocalConnectionOpened::decode(bytes);
    let _ = LocalSendFrame::decode(bytes);
    let _ = LocalFrameEvent::decode(bytes);
    let _ = NotificationSend::decode(bytes);
    let _ = NotificationRemove::decode(bytes);
    let _ = UriOpenRequest::decode(bytes);
    let _ = FilesystemWriteFile::decode(bytes);
    let _ = FilesystemWriteStream::decode(bytes);
    let _ = FilesystemWriteStreamOpened::decode(bytes);
    let _ = FilesystemWriteStreamChunk::decode(bytes);
    let _ = FilesystemWriteStreamCommit::decode(bytes);
    let _ = FilesystemPath::decode(bytes);
    let _ = FilesystemRename::decode(bytes);
    let _ = FilesystemMutationResult::decode(bytes);
    let _ = CommandRunRequest::decode(bytes);
    let _ = CommandOpened::decode(bytes);
    let _ = CommandEvent::decode(bytes);
    let _ = HttpRequest::decode(bytes);
    let _ = HttpResponse::decode(bytes);
    let _ = HttpStreamOpened::decode(bytes);
    let _ = HttpStreamEvent::decode(bytes);
    let _ = FilesystemReadFile::decode(bytes);
    let _ = FilesystemReadStream::decode(bytes);
    let _ = FilesystemStreamOpened::decode(bytes);
    let _ = FilesystemStreamEvent::decode(bytes);
    let _ = FilesystemFileChunk::decode(bytes);
    let _ = FilesystemListDirectory::decode(bytes);
    let _ = FilesystemDirectoryEntries::decode(bytes);
    let _ = DbusCall::decode(bytes);
    let _ = DbusReply::decode(bytes);
    let _ = DbusSubscription::decode(bytes);
    let _ = DbusSubscriptionOpened::decode(bytes);
    let _ = DbusPropertiesChanged::decode(bytes);
}

#[test]
fn deterministic_adversarial_corpus_never_panics_or_allocates_from_untrusted_lengths() {
    const MAGICS: &[[u8; 8]] = &[
        CONTEXT_READ_MAGIC,
        CONTEXT_SNAPSHOT_MAGIC,
        CONTEXT_OPENED_MAGIC,
        CLIPBOARD_READ_MAGIC,
        CLIPBOARD_WRITE_MAGIC,
        CLIPBOARD_VALUE_MAGIC,
        SECRET_READ_MAGIC,
        SECRET_VALUE_MAGIC,
        LOCAL_CONNECT_MAGIC,
        LOCAL_OPENED_MAGIC,
        LOCAL_SEND_MAGIC,
        LOCAL_EVENT_MAGIC,
        FILE_READ_MAGIC,
        FILE_REPLY_MAGIC,
        FILE_STREAM_REQUEST_MAGIC,
        FILE_STREAM_OPENED_MAGIC,
        FILE_STREAM_EVENT_MAGIC,
        DIRECTORY_LIST_MAGIC,
        DIRECTORY_REPLY_MAGIC,
        FILE_WRITE_MAGIC,
        FILE_PATH_MAGIC,
        FILE_RENAME_MAGIC,
        FILE_MUTATION_MAGIC,
        FILE_WRITE_STREAM_MAGIC,
        FILE_WRITE_STREAM_OPENED_MAGIC,
        FILE_WRITE_STREAM_CHUNK_MAGIC,
        FILE_WRITE_STREAM_COMMIT_MAGIC,
        URI_OPEN_MAGIC,
        NOTIFICATION_SEND_MAGIC,
        NOTIFICATION_REMOVE_MAGIC,
        HTTP_REQUEST_MAGIC,
        HTTP_RESPONSE_MAGIC,
        HTTP_STREAM_OPENED_MAGIC,
        HTTP_STREAM_EVENT_MAGIC,
        COMMAND_REQUEST_MAGIC,
        COMMAND_OPENED_MAGIC,
        COMMAND_EVENT_MAGIC,
        CALL_MAGIC,
        REPLY_MAGIC,
        SUBSCRIPTION_MAGIC,
        OPENED_MAGIC,
        SIGNAL_MAGIC,
    ];
    let mut random = 0x9e37_79b9_7f4a_7c15_u64;
    for index in 0..4096 {
        random ^= random << 13;
        random ^= random >> 7;
        random ^= random << 17;
        let length = match index % 127 {
            0 => MAX_PAYLOAD_BYTES + 1,
            1 => MAX_PAYLOAD_BYTES,
            _ => (random as usize) % 2048,
        };
        let mut bytes = vec![0_u8; length];
        for byte in &mut bytes {
            random ^= random << 13;
            random ^= random >> 7;
            random ^= random << 17;
            *byte = random as u8;
        }
        if bytes.len() >= 8 {
            bytes[..8].copy_from_slice(&MAGICS[index % MAGICS.len()]);
        }
        exercise_all_decoders(&bytes);
    }
}

#[test]
fn call_and_reply_round_trip_without_ambiguous_trailing_data() {
    let call = DbusCall {
        bus: DbusBus::Session,
        destination: "org.mpris.MediaPlayer2.demo".into(),
        path: "/org/mpris/MediaPlayer2".into(),
        interface: "org.freedesktop.DBus.Properties".into(),
        member: "Get".into(),
        arguments: vec![
            "org.mpris.MediaPlayer2.Player".into(),
            "PlaybackStatus".into(),
        ],
        reply: DbusReplyKind::VariantString,
    };
    let encoded = call.encode().unwrap();
    assert_eq!(DbusCall::decode(&encoded), Ok(call));

    for reply in [
        DbusReply::Unit,
        DbusReply::String("Playing".into()),
        DbusReply::I64(42),
    ] {
        assert_eq!(DbusReply::decode(&reply.encode().unwrap()), Ok(reply));
    }

    let mut trailing = encoded;
    trailing.push(0);
    assert_eq!(DbusCall::decode(&trailing), Err(SchemaError::Malformed));
}

#[test]
fn malformed_and_unbounded_payloads_fail_closed() {
    assert_eq!(DbusCall::decode(b"not-a-call"), Err(SchemaError::Malformed));
    assert_eq!(
        DbusCall::decode(&vec![0; MAX_PAYLOAD_BYTES + 1]),
        Err(SchemaError::LimitExceeded)
    );
    let call = DbusCall {
        bus: DbusBus::Session,
        destination: "x".repeat(MAX_STRING_BYTES + 1),
        path: "/x".into(),
        interface: "x.y".into(),
        member: "X".into(),
        arguments: Vec::new(),
        reply: DbusReplyKind::Unit,
    };
    assert_eq!(call.encode(), Err(SchemaError::LimitExceeded));
}

#[test]
fn filesystem_mutation_payloads_are_typed_and_bounded() {
    let write = FilesystemWriteFile {
        mount: "documents".into(),
        path: "notes/today.txt".into(),
        bytes: b"hello".to_vec(),
    };
    assert_eq!(
        FilesystemWriteFile::decode(&write.encode().unwrap()),
        Ok(write)
    );

    let path = FilesystemPath {
        mount: "documents".into(),
        path: "notes".into(),
    };
    assert_eq!(FilesystemPath::decode(&path.encode().unwrap()), Ok(path));

    let rename = FilesystemRename {
        mount: "documents".into(),
        source: "old.txt".into(),
        destination: "archive/old.txt".into(),
    };
    assert_eq!(
        FilesystemRename::decode(&rename.encode().unwrap()),
        Ok(rename)
    );

    let stream = FilesystemWriteStream {
        mount: "documents".into(),
        path: "large.bin".into(),
        expected_bytes: 32 * 1024,
    };
    assert_eq!(
        FilesystemWriteStream::decode(&stream.encode().unwrap()),
        Ok(stream)
    );
    let opened = FilesystemWriteStreamOpened {
        resource_id: 7,
        maximum_chunk_bytes: MAX_FILE_WRITE_STREAM_CHUNK_BYTES as u32,
    };
    assert_eq!(
        FilesystemWriteStreamOpened::decode(&opened.encode().unwrap()),
        Ok(opened)
    );
    let stream_chunk = FilesystemWriteStreamChunk {
        resource_id: 7,
        offset: 12,
        bytes: b"chunk".to_vec(),
    };
    assert_eq!(
        FilesystemWriteStreamChunk::decode(&stream_chunk.encode().unwrap()),
        Ok(stream_chunk)
    );
    let commit = FilesystemWriteStreamCommit { resource_id: 7 };
    assert_eq!(
        FilesystemWriteStreamCommit::decode(&commit.encode().unwrap()),
        Ok(commit)
    );

    for result in [
        FilesystemMutationResult {
            bytes_written: 5,
            resulting_size: Some(10),
        },
        FilesystemMutationResult {
            bytes_written: 0,
            resulting_size: None,
        },
    ] {
        assert_eq!(
            FilesystemMutationResult::decode(&result.encode().unwrap()),
            Ok(result)
        );
    }

    let oversized = FilesystemWriteFile {
        mount: "documents".into(),
        path: "large".into(),
        bytes: vec![0; MAX_FILE_WRITE_BYTES + 1],
    };
    assert_eq!(oversized.encode(), Err(SchemaError::LimitExceeded));
    assert_eq!(
        FilesystemWriteStreamChunk {
            resource_id: 7,
            offset: 0,
            bytes: vec![0; MAX_FILE_WRITE_STREAM_CHUNK_BYTES + 1],
        }
        .encode(),
        Err(SchemaError::LimitExceeded)
    );
    let mut trailing = FilesystemPath {
        mount: "documents".into(),
        path: "file".into(),
    }
    .encode()
    .unwrap();
    trailing.push(0);
    assert_eq!(
        FilesystemPath::decode(&trailing),
        Err(SchemaError::Malformed)
    );
}

#[test]
fn uri_open_payload_is_bounded_and_strict() {
    let request = UriOpenRequest {
        uri: "https://example.com/docs".into(),
    };
    assert_eq!(
        UriOpenRequest::decode(&request.encode().unwrap()),
        Ok(request)
    );
    assert_eq!(
        UriOpenRequest {
            uri: "x".repeat(MAX_URI_BYTES + 1),
        }
        .encode(),
        Err(SchemaError::LimitExceeded)
    );
    let mut trailing = UriOpenRequest {
        uri: "mailto:test@example.com".into(),
    }
    .encode()
    .unwrap();
    trailing.push(0);
    assert_eq!(
        UriOpenRequest::decode(&trailing),
        Err(SchemaError::Malformed)
    );
}

#[test]
fn local_connection_payloads_are_framed_bounded_and_strict() {
    let connect = LocalConnect {
        endpoint: "music-player".into(),
        protocol: "mpris.bridge.v1".into(),
    };
    assert_eq!(
        LocalConnect::decode(&connect.encode().unwrap()),
        Ok(connect)
    );

    let opened = LocalConnectionOpened {
        resource_id: 8,
        maximum_frame_bytes: MAX_LOCAL_FRAME_BYTES as u32,
    };
    assert_eq!(
        LocalConnectionOpened::decode(&opened.encode().unwrap()),
        Ok(opened)
    );
    let send = LocalSendFrame {
        resource_id: 8,
        bytes: b"request".to_vec(),
    };
    assert_eq!(LocalSendFrame::decode(&send.encode().unwrap()), Ok(send));
    let event = LocalFrameEvent {
        bytes: b"response".to_vec(),
    };
    assert_eq!(LocalFrameEvent::decode(&event.encode().unwrap()), Ok(event));

    assert_eq!(
        LocalSendFrame {
            resource_id: 8,
            bytes: vec![0; MAX_LOCAL_FRAME_BYTES + 1],
        }
        .encode(),
        Err(SchemaError::LimitExceeded)
    );
    assert_eq!(
        LocalFrameEvent { bytes: Vec::new() }.encode(),
        Err(SchemaError::Malformed)
    );
    let mut trailing = LocalConnect {
        endpoint: "music-player".into(),
        protocol: "mpris.bridge.v1".into(),
    }
    .encode()
    .unwrap();
    trailing.push(0);
    assert_eq!(LocalConnect::decode(&trailing), Err(SchemaError::Malformed));
}

#[test]
fn secret_payloads_are_inline_bounded_and_strict() {
    let request = SecretReadRequest {
        logical_name: "github-token".into(),
    };
    assert_eq!(
        SecretReadRequest::decode(&request.encode().unwrap()),
        Ok(request)
    );
    let value = SecretValue {
        bytes: b"not-logged".to_vec(),
        content_type: "text/plain; charset=utf8".into(),
    };
    assert_eq!(SecretValue::decode(&value.encode().unwrap()), Ok(value));
    assert_eq!(
        SecretValue {
            bytes: vec![0; MAX_SECRET_BYTES + 1],
            content_type: "application/octet-stream".into(),
        }
        .encode(),
        Err(SchemaError::LimitExceeded)
    );
    let mut trailing = SecretReadRequest {
        logical_name: "token".into(),
    }
    .encode()
    .unwrap();
    trailing.push(0);
    assert_eq!(
        SecretReadRequest::decode(&trailing),
        Err(SchemaError::Malformed)
    );
}

#[test]
fn clipboard_payloads_are_single_mime_inline_bounded_and_strict() {
    let read = ClipboardReadRequest {
        mime_type: "text/plain;charset=utf-8".into(),
    };
    assert_eq!(
        ClipboardReadRequest::decode(&read.encode().unwrap()),
        Ok(read)
    );
    let write = ClipboardWriteRequest {
        mime_type: "image/png".into(),
        bytes: b"png".to_vec(),
    };
    assert_eq!(
        ClipboardWriteRequest::decode(&write.encode().unwrap()),
        Ok(write)
    );
    let value = ClipboardValue {
        mime_type: "image/png".into(),
        bytes: b"png".to_vec(),
    };
    assert_eq!(ClipboardValue::decode(&value.encode().unwrap()), Ok(value));
    assert_eq!(
        ClipboardWriteRequest {
            mime_type: "application/octet-stream".into(),
            bytes: vec![0; MAX_CLIPBOARD_BYTES + 1],
        }
        .encode(),
        Err(SchemaError::LimitExceeded)
    );
    assert_eq!(
        ClipboardReadRequest {
            mime_type: "x/".to_owned() + &"y".repeat(MAX_CLIPBOARD_MIME_BYTES),
        }
        .encode(),
        Err(SchemaError::LimitExceeded)
    );
    let mut trailing = ClipboardReadRequest {
        mime_type: "text/plain".into(),
    }
    .encode()
    .unwrap();
    trailing.push(0);
    assert_eq!(
        ClipboardReadRequest::decode(&trailing),
        Err(SchemaError::Malformed)
    );
}

#[test]
fn context_payloads_are_sorted_unique_bounded_and_strict() {
    let read = ContextReadRequest {
        facts: facts(&["application.id", "workspace.id"]),
    };
    assert_eq!(
        ContextReadRequest::decode(&read.encode().unwrap()),
        Ok(read)
    );
    let snapshot = ContextSnapshot {
        generation: 7,
        facts: vec![
            ContextFact {
                key: "application.id".into(),
                value: ContextFactValue::Text("terminal".into()),
            },
            ContextFact {
                key: "power.on-battery".into(),
                value: ContextFactValue::Boolean(true),
            },
        ],
    };
    assert_eq!(
        ContextSnapshot::decode(&snapshot.encode().unwrap()),
        Ok(snapshot.clone())
    );
    let opened = ContextSubscriptionOpened {
        resource_id: 9,
        snapshot,
    };
    assert_eq!(
        ContextSubscriptionOpened::decode(&opened.encode().unwrap()),
        Ok(opened)
    );
    assert_eq!(
        ContextSnapshot {
            generation: 1,
            facts: vec![ContextFact {
                key: "application.id".into(),
                value: ContextFactValue::Text("x".repeat(MAX_CONTEXT_VALUE_BYTES + 1)),
            }],
        }
        .encode(),
        Err(SchemaError::LimitExceeded)
    );
    assert_eq!(
        ContextReadRequest {
            facts: facts(&[])
        }
        .encode(),
        Err(SchemaError::Malformed)
    );
}

#[test]
fn notification_payloads_are_bounded_and_typed() {
    let send = NotificationSend {
        id: "build".into(),
        category: "status".into(),
        urgency: NotificationUrgencyValue::Normal,
        title: "Complete".into(),
        body: "All checks passed".into(),
    };
    assert_eq!(NotificationSend::decode(&send.encode().unwrap()), Ok(send));
    let remove = NotificationRemove { id: "build".into() };
    assert_eq!(
        NotificationRemove::decode(&remove.encode().unwrap()),
        Ok(remove)
    );
    assert_eq!(
        NotificationSend {
            id: "build".into(),
            category: "status".into(),
            urgency: NotificationUrgencyValue::Low,
            title: "x".repeat(MAX_NOTIFICATION_TITLE_BYTES + 1),
            body: String::new(),
        }
        .encode(),
        Err(SchemaError::LimitExceeded)
    );
}

#[test]
fn subscription_open_and_typed_properties_round_trip() {
    let subscription = DbusSubscription {
        bus: DbusBus::Session,
        sender: "org.mpris.MediaPlayer2.playerctld".into(),
        path: "/org/mpris/MediaPlayer2".into(),
        interface: "org.freedesktop.DBus.Properties".into(),
        member: "PropertiesChanged".into(),
        signature: "sa{sv}as".into(),
        argument_zero: Some("org.mpris.MediaPlayer2.Player".into()),
    };
    assert_eq!(
        DbusSubscription::decode(&subscription.encode().unwrap()),
        Ok(subscription)
    );
    let opened = DbusSubscriptionOpened { resource_id: 42 };
    assert_eq!(
        DbusSubscriptionOpened::decode(&opened.encode().unwrap()),
        Ok(opened)
    );
    let event = DbusPropertiesChanged {
        interface_name: "org.mpris.MediaPlayer2.Player".into(),
        changed_properties: vec![DbusProperty {
            name: "PlaybackStatus".into(),
            value: DbusValue::String("Playing".into()),
        }],
        invalidated_properties: vec!["Metadata".into()],
    };
    assert_eq!(
        DbusPropertiesChanged::decode(&event.encode().unwrap()),
        Ok(event)
    );
}

#[test]
fn filesystem_payloads_are_bounded_and_round_trip() {
    let read = FilesystemReadFile {
        mount: "gallery".into(),
        path: "album/image.png".into(),
        offset: 32,
        maximum_bytes: 4096,
    };
    assert_eq!(
        FilesystemReadFile::decode(&read.encode().unwrap()),
        Ok(read)
    );
    let chunk = FilesystemFileChunk {
        offset: 32,
        total_size: 35,
        eof: true,
        bytes: vec![1, 2, 3],
    };
    assert_eq!(
        FilesystemFileChunk::decode(&chunk.encode().unwrap()),
        Ok(chunk)
    );
    let list = FilesystemListDirectory {
        mount: "gallery".into(),
        path: String::new(),
        maximum_entries: 16,
    };
    assert_eq!(
        FilesystemListDirectory::decode(&list.encode().unwrap()),
        Ok(list)
    );
    let entries = FilesystemDirectoryEntries {
        entries: vec![FilesystemEntry {
            name: "image.png".into(),
            kind: FilesystemEntryKind::RegularFile,
            size: 3,
        }],
        truncated: false,
    };
    assert_eq!(
        FilesystemDirectoryEntries::decode(&entries.encode().unwrap()),
        Ok(entries)
    );

    let oversized = FilesystemReadFile {
        maximum_bytes: MAX_FILE_CHUNK_BYTES + 1,
        ..FilesystemReadFile {
            mount: "gallery".into(),
            path: "image.png".into(),
            offset: 0,
            maximum_bytes: 1,
        }
    };
    assert_eq!(oversized.encode(), Err(SchemaError::LimitExceeded));
}

#[test]
fn only_directory_lists_reach_the_mount_root() {
    let read = FilesystemReadFile {
        mount: "gallery".into(),
        path: "".into(),
        offset: 0,
        maximum_bytes: 1,
    };
    assert_eq!(read.encode(), Err(SchemaError::Malformed));
    let named = FilesystemReadFile { path: "p".into(), ..read };
    let mut bytes = named.encode().unwrap();
    let path = bytes.iter().rposition(|byte| *byte == b'p').unwrap();
    bytes.remove(path);
    bytes[path - 2..path].fill(0);
    assert_eq!(FilesystemReadFile::decode(&bytes), Err(SchemaError::Malformed));

    let stream = FilesystemReadStream {
        mount: "gallery".into(),
        path: "".into(),
        offset: 0,
        maximum_bytes: 1,
    };
    assert_eq!(stream.encode(), Err(SchemaError::Malformed));

    let list = FilesystemListDirectory {
        mount: "gallery".into(),
        path: "".into(),
        maximum_entries: 1,
    };
    assert_eq!(FilesystemListDirectory::decode(&list.encode().unwrap()), Ok(list));
}

#[test]
fn filesystem_stream_payloads_are_typed_and_bounded() {
    let request = FilesystemReadStream {
        mount: "gallery".into(),
        path: "large.raw".into(),
        offset: 17,
        maximum_bytes: 1024 * 1024,
    };
    assert_eq!(
        FilesystemReadStream::decode(&request.encode().unwrap()),
        Ok(request)
    );
    let opened = FilesystemStreamOpened { resource_id: 9 };
    assert_eq!(
        FilesystemStreamOpened::decode(&opened.encode().unwrap()),
        Ok(opened)
    );
    for event in [
        FilesystemStreamEvent::Metadata {
            offset: 17,
            total_size: 99,
        },
        FilesystemStreamEvent::Chunk {
            offset: 17,
            bytes: vec![1, 2, 3],
        },
        FilesystemStreamEvent::Complete {
            end_offset: 20,
            total_bytes: 3,
            eof: false,
        },
    ] {
        assert_eq!(
            FilesystemStreamEvent::decode(&event.encode().unwrap()),
            Ok(event)
        );
    }
    assert_eq!(
        FilesystemStreamEvent::Chunk {
            offset: 0,
            bytes: vec![0; MAX_FILE_STREAM_CHUNK_BYTES + 1],
        }
        .encode(),
        Err(SchemaError::LimitExceeded)
    );
}

#[test]
fn http_payloads_exclude_arbitrary_headers_and_are_bounded() {
    let request = HttpRequest {
        method: HttpRequestMethod::Post,
        url: "https://api.example.com/v1/state".into(),
        accept: Some("application/json".into()),
        content_type: Some("application/json".into()),
        body: br#"{"enabled":true}"#.to_vec(),
    };
    assert_eq!(HttpRequest::decode(&request.encode().unwrap()), Ok(request));
    let response = HttpResponse {
        status: 200,
        final_url: "https://api.example.com/v1/state".into(),
        content_type: Some("application/json".into()),
        etag: Some("\"revision-1\"".into()),
        body: b"ok".to_vec(),
    };
    assert_eq!(
        HttpResponse::decode(&response.encode().unwrap()),
        Ok(response)
    );
    let too_large = HttpRequest {
        body: vec![0; MAX_HTTP_INLINE_BODY_BYTES as usize + 1],
        ..HttpRequest {
            method: HttpRequestMethod::Post,
            url: "https://api.example.com/".into(),
            accept: None,
            content_type: None,
            body: Vec::new(),
        }
    };
    assert_eq!(too_large.encode(), Err(SchemaError::LimitExceeded));
}

#[test]
fn http_stream_events_are_typed_bounded_and_unambiguous() {
    let opened = HttpStreamOpened { resource_id: 77 };
    assert_eq!(
        HttpStreamOpened::decode(&opened.encode().unwrap()),
        Ok(opened)
    );
    for event in [
        HttpStreamEvent::Metadata {
            status: 200,
            final_url: "https://example.test/v1/data".into(),
            content_type: Some("application/octet-stream".into()),
            etag: Some("v1".into()),
        },
        HttpStreamEvent::Chunk(vec![1, 2, 3]),
        HttpStreamEvent::Complete { total_bytes: 3 },
    ] {
        assert_eq!(HttpStreamEvent::decode(&event.encode().unwrap()), Ok(event));
    }
    assert_eq!(
        HttpStreamEvent::Chunk(vec![0; MAX_HTTP_STREAM_CHUNK_BYTES + 1]).encode(),
        Err(SchemaError::LimitExceeded)
    );
    assert_eq!(
        HttpStreamEvent::Chunk(Vec::new()).encode(),
        Err(SchemaError::LimitExceeded)
    );
}

#[test]
fn command_request_and_stream_events_are_typed_and_bounded() {
    let request = CommandRunRequest {
        command_id: "set-level".into(),
        values: vec![
            CommandValue::Integer {
                name: "level".into(),
                value: 42,
            },
            CommandValue::FixedEnum {
                name: "profile".into(),
                value: "balanced".into(),
            },
        ],
    };
    assert_eq!(
        CommandRunRequest::decode(&request.encode().unwrap()),
        Ok(request)
    );
    let duplicate = CommandRunRequest {
        command_id: "bad".into(),
        values: vec![
            CommandValue::Text {
                name: "value".into(),
                value: "one".into(),
            },
            CommandValue::Text {
                name: "value".into(),
                value: "two".into(),
            },
        ],
    };
    assert_eq!(duplicate.encode(), Err(SchemaError::Malformed));
    let opened = CommandOpened { resource_id: 11 };
    assert_eq!(CommandOpened::decode(&opened.encode().unwrap()), Ok(opened));
    for event in [
        CommandEvent::Stdout(b"ok".to_vec()),
        CommandEvent::Stderr(b"warning".to_vec()),
        CommandEvent::Exited {
            exit_code: Some(0),
            signal: None,
            stdout_bytes: 2,
            stderr_bytes: 7,
        },
    ] {
        assert_eq!(CommandEvent::decode(&event.encode().unwrap()), Ok(event));
    }
    assert_eq!(
        CommandEvent::Exited {
            exit_code: None,
            signal: None,
            stdout_bytes: 0,
            stderr_bytes: 0,
        }
        .encode(),
        Err(SchemaError::Malformed)
    );
}

#[test]
fn appearance_publication_is_typed_bounded_and_strict() {
    let publication = AppearancePublish {
        provider: "desktop-theme".into(),
        scheme: AppearanceScheme::Dark,
        background: AppearanceColor {
            red: 1,
            green: 2,
            blue: 3,
        },
        foreground: AppearanceColor {
            red: 4,
            green: 5,
            blue: 6,
        },
        accent: AppearanceColor {
            red: 7,
            green: 8,
            blue: 9,
        },
        selection: AppearanceColor {
            red: 10,
            green: 11,
            blue: 12,
        },
        muted: AppearanceColor {
            red: 13,
            green: 14,
            blue: 15,
        },
        destructive: AppearanceColor {
            red: 16,
            green: 17,
            blue: 18,
        },
    };
    assert_eq!(
        AppearancePublish::decode(&publication.encode().unwrap()),
        Ok(publication.clone())
    );
    let mut trailing = publication.encode().unwrap();
    trailing.push(0);
    assert_eq!(
        AppearancePublish::decode(&trailing),
        Err(SchemaError::Malformed)
    );
    assert_eq!(
        AppearancePublish {
            provider: String::new(),
            ..publication
        }
        .encode(),
        Err(SchemaError::Malformed)
    );
}
