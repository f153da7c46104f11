use anki_backup::sync::{
    decode_response, encode_request_body, session_id_from, sync_url, trim_trailing_slashes, SyncMethod,
    SyncPhase,
};
use anki_backup::{simple_session_id, SyncAction, SyncConfig, SyncError, SyncReply, SyncRequest, SyncSession};

fn config(endpoint: Option<&str>) -> SyncConfig {
    SyncConfig { username: "user".to_string(), password: "pass".to_string(), endpoint: endpoint.map(|e| e.to_string()) }
}

fn sent(action: SyncAction) -> SyncRequest {
    match action {
        SyncAction::Send(r) => r,
        other => panic!("expected a request, got {:?}", other),
    }
}

fn failed(action: SyncAction) -> SyncError {
    match action {
        SyncAction::Fail(e) => e,
        other => panic!("expected a failure, got {:?}", other),
    }
}

#[test]
fn requires_credentials() {
    let cfg = SyncConfig { username: String::new(), password: String::new(), endpoint: None };
    let err = SyncSession::start(&cfg, "s".to_string()).unwrap_err();
    assert!(err.message().contains("credentials"));
}

#[test]
fn zstd_roundtrip() {
    let data = b"hello world this is a test of zstd compression";
    let compressed = encode_request_body(data);
    assert_ne!(compressed.as_slice(), data.as_slice());
    assert_eq!(&compressed[..4], &[0x28, 0xb5, 0x2f, 0xfd]);
    let decompressed = decode_response(&compressed).unwrap();
    assert_eq!(data.as_slice(), decompressed.as_slice());
}

#[test]
fn session_id_is_nonempty() {
    let id = simple_session_id();
    assert!(!id.is_empty());
    assert!(id.chars().all(|c| c.is_ascii_alphanumeric()));
}

#[test]
fn session_id_digits() {
    assert_eq!(session_id_from(0), "0");
    assert_eq!(session_id_from(1), "b");
    assert_eq!(session_id_from(61), "9");
    assert_eq!(session_id_from(62), "ab");
    assert_eq!(session_id_from(63), "bb");
}

#[test]
fn uncompressed_response_passes_through() {
    assert_eq!(decode_response(b"{\"key\":\"k\"}").unwrap(), b"{\"key\":\"k\"}".to_vec());
    assert_eq!(decode_response(b"").unwrap(), Vec::<u8>::new());
    assert!(decode_response(&[0x28, 0xb5, 0x2f, 0xfd, 0, 0]).is_none());
}

#[test]
fn urls_drop_trailing_slashes() {
    assert_eq!(trim_trailing_slashes("https://a.example//"), "https://a.example");
    assert_eq!(sync_url("https://sync.ankiweb.net/", SyncMethod::HostKey), "https://sync.ankiweb.net/sync/hostKey");
    assert_eq!(sync_url("https://s32.example", SyncMethod::Download), "https://s32.example/sync/download");
}

#[test]
fn full_exchange_follows_meta_redirect() {
    let (mut s, login) = SyncSession::start(&config(None), "sess".to_string()).unwrap();
    assert_eq!(login.url, "https://sync.ankiweb.net/sync/hostKey");
    assert_eq!(login.host_key, "");
    assert_eq!(login.session_key, "sess");

    let meta = sent(s.on_reply(SyncReply::HostKey { key: "hk".to_string() }));
    assert_eq!(meta.url, "https://sync.ankiweb.net/sync/meta");
    assert_eq!(meta.method, SyncMethod::Meta);
    assert_eq!(meta.host_key, "hk");

    let again = sent(s.on_reply(SyncReply::Redirect {
        status: 308,
        location: Some("https://sync32.ankiweb.net/".to_string()),
        body: String::new(),
    }));
    assert_eq!(again.url, "https://sync32.ankiweb.net/sync/meta");
    assert_eq!(again.host_key, "hk");

    let download = sent(s.on_reply(SyncReply::Meta { empty: false }));
    assert_eq!(download.url, "https://sync32.ankiweb.net/sync/download");
    assert_eq!(download.method, SyncMethod::Download);

    match s.on_reply(SyncReply::Collection { bytes: vec![1, 2, 3] }) {
        SyncAction::Done(b) => assert_eq!(b, vec![1, 2, 3]),
        other => panic!("expected done, got {:?}", other),
    }
    assert_eq!(s.phase(), SyncPhase::Over);
    assert!(matches!(failed(s.on_reply(SyncReply::Meta { empty: false })), SyncError::DownloadFailed(_)));
}

#[test]
fn login_redirect_does_not_move_endpoint() {
    let (mut s, _) = SyncSession::start(&config(Some("https://own.example/")), "k".to_string()).unwrap();
    let retry = sent(s.on_reply(SyncReply::Redirect {
        status: 307,
        location: Some("https://other.example".to_string()),
        body: String::new(),
    }));
    assert_eq!(retry.url, "https://other.example/sync/hostKey");
    let meta = sent(s.on_reply(SyncReply::HostKey { key: "hk".to_string() }));
    assert_eq!(meta.url, "https://own.example/sync/meta");
}

#[test]
fn login_failure_carries_status_and_text() {
    let (mut s, _) = SyncSession::start(&config(None), "k".to_string()).unwrap();
    let e = failed(s.on_reply(SyncReply::Failure { status: 403, body: "denied".to_string() }));
    match &e {
        SyncError::LoginFailed(m) => assert_eq!(m, "sync request to hostKey failed (403): denied"),
        other => panic!("expected login failure, got {:?}", other),
    }
    assert_eq!(e.message(), "ankiweb login failed: sync request to hostKey failed (403): denied");
}

#[test]
fn second_redirect_fails() {
    let (mut s, _) = SyncSession::start(&config(None), "k".to_string()).unwrap();
    sent(s.on_reply(SyncReply::HostKey { key: "hk".to_string() }));
    sent(s.on_reply(SyncReply::Redirect { status: 302, location: Some("https://a".to_string()), body: String::new() }));
    let e = failed(s.on_reply(SyncReply::Redirect { status: 302, location: Some("https://b".to_string()), body: "again".to_string() }));
    match e {
        SyncError::DownloadFailed(m) => assert_eq!(m, "sync request to meta failed (302): again"),
        other => panic!("expected download failure, got {:?}", other),
    }
}

#[test]
fn redirect_without_location_fails() {
    let (mut s, _) = SyncSession::start(&config(None), "k".to_string()).unwrap();
    let e = failed(s.on_reply(SyncReply::Redirect { status: 301, location: None, body: String::new() }));
    assert!(matches!(e, SyncError::LoginFailed(_)));
}

#[test]
fn empty_remote_collection_fails_download() {
    let (mut s, _) = SyncSession::start(&config(None), "k".to_string()).unwrap();
    sent(s.on_reply(SyncReply::HostKey { key: "hk".to_string() }));
    let e = failed(s.on_reply(SyncReply::Meta { empty: true }));
    assert_eq!(e.message(), "ankiweb download failed: server collection is empty");
}

#[test]
fn unreadable_and_unexpected_replies_fail() {
    let (mut s, _) = SyncSession::start(&config(None), "k".to_string()).unwrap();
    let e = failed(s.on_reply(SyncReply::Unreadable { detail: "parsing hostKey response".to_string() }));
    assert_eq!(e.message(), "ankiweb login failed: parsing hostKey response");

    let (mut s, _) = SyncSession::start(&config(None), "k".to_string()).unwrap();
    let e = failed(s.on_reply(SyncReply::Collection { bytes: vec![] }));
    assert_eq!(e.message(), "ankiweb login failed: unexpected sync reply");
}
