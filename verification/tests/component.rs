use touchbar::broker::{
    ClipboardReadRequest, ClipboardValue, CommandRunRequest, FilesystemListDirectory,
    FilesystemPath, FilesystemReadFile, FilesystemReadStream, FilesystemRename,
    FilesystemWriteFile, FilesystemWriteStream, FilesystemWriteStreamChunk,
    FilesystemWriteStreamCommit, HttpStreamOpened, LocalConnect, LocalConnectionOpened,
    LocalSendFrame, NotificationRemove, SecretReadRequest, SecretValue, UriOpenRequest,
};
use touchbar::component::{
    clipboard_read, clipboard_write, command_run, decode_clipboard, decode_http_stream_opened,
    decode_local_connection_opened, decode_secret, filesystem_append_file,
    filesystem_append_file_stream, filesystem_create_directory, filesystem_create_file,
    filesystem_create_file_stream, filesystem_delete_file, filesystem_list_directory,
    filesystem_read_file, filesystem_read_stream, filesystem_rename, filesystem_replace_file,
    filesystem_replace_file_stream, filesystem_write_stream_chunk,
    filesystem_write_stream_commit, local_connect, local_send, open_uri, read_file, read_secret,
    remove_notification, ClipboardSubmitError, DbusSubmitError, ErrorCode, RequestId, ResourceId,
    SecretSubmitError, Submission, SubmitError,
};

#[test]
fn submissions_name_the_capability_and_carry_the_message() {
    let sent = clipboard_read("text/plain").unwrap();
    assert_eq!(sent.capability, "clipboard.read.v1");
    let request = ClipboardReadRequest { mime_type: "text/plain".into() };
    assert_eq!(sent.payload, request.encode().unwrap());
    let written = clipboard_write("text/plain", b"hello").unwrap();
    assert_eq!(written.capability, "clipboard.write.v1");
    let secret = read_secret("token").unwrap();
    let request = SecretReadRequest { logical_name: "token".into() };
    assert_eq!(secret.payload, request.encode().unwrap());
    let long = "x".repeat(100_000);
    assert_eq!(clipboard_read(&long), Err(ClipboardSubmitError::InvalidPayload));
    assert_eq!(read_secret(&long), Err(SecretSubmitError::InvalidPayload));
}

#[test]
fn answers_of_the_broker_are_handed_on() {
    let id = DbusSubmitError::answer(Ok(7)).unwrap();
    assert_eq!(id, RequestId::from_raw(7));
    assert_eq!(id.into_raw(), 7);
    assert_eq!(
        DbusSubmitError::answer(Err(ErrorCode(3))),
        Err(DbusSubmitError::Broker(ErrorCode(3)))
    );
    assert_eq!(ResourceId::from_raw(4).into_raw(), 4);
}

#[test]
fn payloads_are_decoded() {
    let value = ClipboardValue { mime_type: "text/plain".into(), bytes: b"hello".to_vec() };
    let bytes = value.encode().unwrap();
    assert_eq!(decode_clipboard(&bytes).unwrap(), value);
    assert!(decode_clipboard(&bytes[1..]).is_err());
    let opened = HttpStreamOpened { resource_id: 9 }.encode().unwrap();
    assert_eq!(decode_http_stream_opened(&opened).unwrap(), ResourceId::from_raw(9));
    assert!(decode_http_stream_opened(&[]).is_err());
}

#[test]
fn appearance_providers_read_files() {
    let message = FilesystemReadFile {
        mount: "themes".into(),
        path: "dark.json".into(),
        offset: 0,
        maximum_bytes: 1024,
    };
    let sent = read_file(&message).unwrap();
    assert_eq!((sent.capability, sent.operation), ("appearance.provide.v1", "read-file"));
    assert_eq!(sent.payload, message.encode().unwrap());
    let long = FilesystemReadFile { mount: "x".repeat(100_000), ..message };
    assert_eq!(read_file(&long), Err(SubmitError::InvalidPayload));
}

#[test]
fn file_operations_are_told_apart() {
    let (mount, path) = ("music".to_string(), "list.txt".to_string());
    let read = FilesystemReadFile {
        mount: mount.clone(),
        path: path.clone(),
        offset: 0,
        maximum_bytes: 16,
    };
    let stream = FilesystemReadStream {
        mount: mount.clone(),
        path: path.clone(),
        offset: 0,
        maximum_bytes: 16,
    };
    let entries =
        FilesystemListDirectory { mount: mount.clone(), path: "".into(), maximum_entries: 8 };
    for (sent, operation, payload) in [
        (filesystem_read_file(&read), "read-file", read.encode()),
        (filesystem_read_stream(&stream), "read-file-stream", stream.encode()),
        (filesystem_list_directory(&entries), "list-directory", entries.encode()),
    ] {
        let sent: Submission = sent.unwrap();
        assert_eq!((sent.capability, sent.operation), ("filesystem.read.v1", operation));
        assert_eq!(sent.payload, payload.unwrap());
    }

    let file = FilesystemWriteFile {
        mount: mount.clone(),
        path: path.clone(),
        bytes: b"one".to_vec(),
    };
    let place = FilesystemPath { mount: mount.clone(), path: path.clone() };
    let rename = FilesystemRename {
        mount: mount.clone(),
        source: path.clone(),
        destination: "old.txt".into(),
    };
    let long = FilesystemWriteStream { mount, path, expected_bytes: 3 };
    let chunk =
        FilesystemWriteStreamChunk { resource_id: 5, offset: 0, bytes: b"one".to_vec() };
    let commit = FilesystemWriteStreamCommit { resource_id: 5 };
    for (sent, operation, payload) in [
        (filesystem_create_file(&file), "create-file", file.encode()),
        (filesystem_replace_file(&file), "replace-file", file.encode()),
        (filesystem_append_file(&file), "append-file", file.encode()),
        (filesystem_delete_file(&place), "delete-file", place.encode()),
        (filesystem_create_directory(&place), "create-directory", place.encode()),
        (filesystem_rename(&rename), "rename", rename.encode()),
        (filesystem_create_file_stream(&long), "create-file-stream", long.encode()),
        (filesystem_replace_file_stream(&long), "replace-file-stream", long.encode()),
        (filesystem_append_file_stream(&long), "append-file-stream", long.encode()),
        (filesystem_write_stream_chunk(&chunk), "write-stream-chunk", chunk.encode()),
        (
            filesystem_write_stream_commit(ResourceId::from_raw(5)),
            "write-stream-commit",
            commit.encode(),
        ),
    ] {
        let sent: Submission = sent.unwrap();
        assert_eq!((sent.capability, sent.operation), ("filesystem.write.v1", operation));
        assert_eq!(sent.payload, payload.unwrap());
    }
}

#[test]
fn other_operations_go_to_their_own_capability() {
    let connect = LocalConnect { endpoint: "player".into(), protocol: "mpd.v1".into() };
    let sent = local_connect(&connect).unwrap();
    assert_eq!((sent.capability, sent.operation), ("local.connect.v1", "connect"));
    assert_eq!(sent.payload, connect.encode().unwrap());
    let sent = local_send(ResourceId::from_raw(6), b"ping").unwrap();
    assert_eq!((sent.capability, sent.operation), ("local.connect.v1", "send"));
    let frame = LocalSendFrame { resource_id: 6, bytes: b"ping".to_vec() };
    assert_eq!(sent.payload, frame.encode().unwrap());
    let sent = remove_notification("build").unwrap();
    assert_eq!((sent.capability, sent.operation), ("notification.send.v1", "remove"));
    assert_eq!(sent.payload, NotificationRemove { id: "build".into() }.encode().unwrap());
    let uri = UriOpenRequest { uri: "https://example.com".into() };
    let sent = open_uri(&uri).unwrap();
    assert_eq!((sent.capability, sent.operation), ("uri.open.v1", "open"));
    assert_eq!(sent.payload, uri.encode().unwrap());
    let command = CommandRunRequest { command_id: "build".into(), values: vec![] };
    let sent = command_run(&command).unwrap();
    assert_eq!((sent.capability, sent.operation), ("command.run.v1", "run"));
    assert_eq!(sent.payload, command.encode().unwrap());

    let opened = LocalConnectionOpened { resource_id: 6, maximum_frame_bytes: 512 };
    assert_eq!(
        decode_local_connection_opened(&opened.encode().unwrap()).unwrap(),
        (ResourceId::from_raw(6), 512)
    );
    let secret = SecretValue { bytes: b"s3".to_vec(), content_type: "text/plain".into() };
    assert_eq!(decode_secret(&secret.encode().unwrap()).unwrap(), secret);
}
