//! The remote sync client's logic: credentials check, session keys, request
//! framing, manual redirects to a shard, and the login, meta and download
//! exchange as a state machine. The caller performs each POST that the
//! session asks for and hands back what came of it.

use vstd::prelude::*;
use crate::stats::{decimal_string, decimal_text};

verus! {

/// Version of the sync protocol spoken.
pub const SYNC_VERSION: u8 = 11;

/// The sync endpoint used when the configuration names none.
pub const DEFAULT_ENDPOINT: &'static str = "https://sync.ankiweb.net/";

/// Client version sent in the request header.
pub const CLIENT_VERSION_SHORT: &'static str = "25.09.2,dev,linux";

/// Client version sent in the meta request body.
pub const CLIENT_VERSION_LONG: &'static str = "anki,25.09.2 (dev),linux";

/// Credentials and endpoint of the remote account.
#[derive(Debug)]
pub struct SyncConfig {
    pub username: String,
    pub password: String,
    /// Overrides the default sync endpoint.
    pub endpoint: Option<String>,
}

/// A downloaded collection.
#[derive(Debug)]
pub struct SyncResult {
    pub collection_bytes: Vec<u8>,
    pub source_revision: Option<String>,
    pub sync_duration_ms: i64,
}

/// Why a sync failed.
#[derive(Debug)]
pub enum SyncError {
    MissingCredentials,
    LoginFailed(String),
    DownloadFailed(String),
}

pub open spec fn missing_credentials_text() -> Seq<char> {
    "ankiweb credentials are missing"@
}

pub open spec fn login_failed_prefix() -> Seq<char> {
    "ankiweb login failed: "@
}

pub open spec fn download_failed_prefix() -> Seq<char> {
    "ankiweb download failed: "@
}

impl SyncError {
    /// The text of the error.
    pub open spec fn text(&self) -> Seq<char> {
        match self {
            SyncError::MissingCredentials => missing_credentials_text(),
            SyncError::LoginFailed(m) => login_failed_prefix() + m@,
            SyncError::DownloadFailed(m) => download_failed_prefix() + m@,
        }
    }

    /// The text of the error.
    pub fn message(&self) -> (r: String)
        ensures
            r@ == self.text(),
    {
        match self {
            SyncError::MissingCredentials => "ankiweb credentials are missing".to_owned(),
            SyncError::LoginFailed(m) => {
                let mut out = "ankiweb login failed: ".to_owned();
                out.append(m.as_str());
                out
            },
            SyncError::DownloadFailed(m) => {
                let mut out = "ankiweb download failed: ".to_owned();
                out.append(m.as_str());
                out
            },
        }
    }
}

pub open spec fn session_alphabet() -> Seq<char> {
    "abcdefghijklmnopqrstuvwxyzABCDEFGHIJKLMNOPQRSTUVWXYZ0123456789"@
}

/// Base-62 digits of `n`, least significant first.
pub open spec fn base62_digits(n: nat) -> Seq<char>
    decreases n,
{
    if n == 0 {
        Seq::empty()
    } else {
        seq![session_alphabet()[(n % 62) as int]] + base62_digits(n / 62)
    }
}

/// The session key made from the number `n`: "0" for zero, else its
/// base-62 digits over letters and digits, least significant first.
pub open spec fn session_id_text(n: nat) -> Seq<char> {
    if n == 0 {
        seq!['0']
    } else {
        base62_digits(n)
    }
}

/// The session key made from the number `n`.
pub fn session_id_from(n: u32) -> (r: String)
    ensures
        r@ == session_id_text(n as nat),
{
    let table = "abcdefghijklmnopqrstuvwxyzABCDEFGHIJKLMNOPQRSTUVWXYZ0123456789";
    proof {
        reveal_strlit("abcdefghijklmnopqrstuvwxyzABCDEFGHIJKLMNOPQRSTUVWXYZ0123456789");
    }
    assert(table@.len() == 62);
    if n == 0 {
        proof {
            reveal_strlit("0");
        }
        return "0".to_owned();
    }
    let mut out = String::new();
    let mut val: u64 = n as u64;
    while val > 0
        invariant
            table@ == session_alphabet(),
            table@.len() == 62,
            out@ + base62_digits(val as nat) == base62_digits(n as nat),
        decreases val,
    {
        let idx = (val % 62) as usize;
        let piece = table.substring_char(idx, idx + 1);
        assert(piece@ =~= seq![session_alphabet()[idx as int]]);
        let ghost before = out@;
        out.append(piece);
        assert(base62_digits(val as nat) == seq![session_alphabet()[idx as int]] + base62_digits((val / 62) as nat));
        assert(out@ + base62_digits((val / 62) as nat) =~= before + base62_digits(val as nat));
        val = val / 62;
    }
    assert(out@ =~= out@ + base62_digits(0));
    out
}

/// Relies on rand::random::<u32>: any number; nothing is known of it.
#[verifier::external_body]
fn random_u32() -> (r: u32) {
    rand::random::<u32>()
}

pub open spec fn is_session_char(c: char) -> bool {
    ||| ('a' <= c && c <= 'z')
    ||| ('A' <= c && c <= 'Z')
    ||| ('0' <= c && c <= '9')
}

proof fn lemma_base62_chars(n: nat)
    ensures
        forall|i: int| 0 <= i < base62_digits(n).len() ==> session_alphabet().contains(#[trigger] base62_digits(n)[i]),
    decreases n,
{
    reveal_strlit("abcdefghijklmnopqrstuvwxyzABCDEFGHIJKLMNOPQRSTUVWXYZ0123456789");
    if n > 0 {
        lemma_base62_chars(n / 62);
        let head = seq![session_alphabet()[(n % 62) as int]];
        assert forall|i: int| 0 <= i < base62_digits(n).len() implies session_alphabet().contains(#[trigger] base62_digits(n)[i]) by {
            if i == 0 {
                assert(base62_digits(n)[0] == session_alphabet()[(n % 62) as int]);
            } else {
                assert(base62_digits(n)[i] == base62_digits(n / 62)[i - 1]);
            }
        }
    }
}

/// A fresh random session key: non-empty, letters and digits only.
pub fn simple_session_id() -> (r: String)
    ensures
        r@.len() > 0,
        forall|i: int| 0 <= i < r@.len() ==> session_alphabet().contains(#[trigger] r@[i]),
{
    let n = random_u32();
    let r = session_id_from(n);
    proof {
        lemma_base62_chars(n as nat);
        reveal_strlit("abcdefghijklmnopqrstuvwxyzABCDEFGHIJKLMNOPQRSTUVWXYZ0123456789");
        if n == 0 {
            assert(session_alphabet().len() == 62);
            assert(session_alphabet()[52] == '0');
            assert(r@ == seq!['0']);
            assert(session_alphabet().contains(r@[0]));
        } else {
            assert(base62_digits(n as nat).len() > 0);
        }
    }
    r
}

/// What a zstd frame decompresses to, or `None` when the bytes are not
/// valid zstd data.
pub uninterp spec fn zstd_decoded_of(frame: Seq<u8>) -> Option<Seq<u8>>;

/// The four bytes that open every zstd frame.
pub open spec fn zstd_magic() -> Seq<u8> {
    seq![0x28u8, 0xb5u8, 0x2fu8, 0xfdu8]
}

/// Relies on zstd::encode_all at level 3 reading from a slice into a `Vec`,
/// which fails only if the encoder cannot be set up: one zstd frame, which
/// opens with the frame magic number and decompresses to the input.
#[verifier::external_body]
fn zstd_compress(data: &[u8]) -> (r: Option<Vec<u8>>)
    ensures
        r is Some,
        r matches Some(c) ==> c@.len() >= 4 && c@.subrange(0, 4) == zstd_magic() && zstd_decoded_of(c@) == Some(data@),
{
    zstd::encode_all(data, 3).ok()
}

/// Relies on zstd::decode_all: what the zstd data decompresses to, and a
/// failure exactly when the data is not valid zstd data.
#[verifier::external_body]
fn zstd_decompress(data: &[u8]) -> (r: Option<Vec<u8>>)
    ensures
        r is Some <==> zstd_decoded_of(data@) is Some,
        r matches Some(d) ==> zstd_decoded_of(data@) == Some(d@),
{
    zstd::decode_all(data).ok()
}

/// The body of a request, compressed as the protocol requires.
pub fn encode_request_body(body: &[u8]) -> (r: Vec<u8>)
    ensures
        has_zstd_magic(r@),
        zstd_decoded_of(r@) == Some(body@),
{
    match zstd_compress(body) {
        Some(c) => c,
        None => Vec::new(),
    }
}

/// A compressed request body reads back, as a response body, to the body
/// that was compressed.
pub proof fn lemma_body_round_trip(body: Seq<u8>, framed: Seq<u8>, decoded: Option<Seq<u8>>)
    requires
        has_zstd_magic(framed),
        zstd_decoded_of(framed) == Some(body),
        has_zstd_magic(framed) ==> (decoded is Some <==> zstd_decoded_of(framed) is Some),
        has_zstd_magic(framed) ==> (decoded matches Some(d) ==> zstd_decoded_of(framed) == Some(d)),
    ensures
        decoded == Some(body),
{
}

/// `b` opens with the zstd frame magic number.
pub open spec fn has_zstd_magic(b: Seq<u8>) -> bool {
    b.len() >= 4 && b.subrange(0, 4) == zstd_magic()
}

/// The content of a response body: decompressed when it opens with the zstd
/// magic number, else the bytes as they are. `None` when compressed data
/// could not be decompressed.
pub fn decode_response(body: &[u8]) -> (r: Option<Vec<u8>>)
    ensures
        !has_zstd_magic(body@) ==> (r matches Some(d) && d@ == body@),
        has_zstd_magic(body@) ==> (r is Some <==> zstd_decoded_of(body@) is Some),
        has_zstd_magic(body@) ==> (r matches Some(d) ==> zstd_decoded_of(body@) == Some(d@)),
{
    let magic = body.len() >= 4 && body[0] == 0x28u8 && body[1] == 0xb5u8 && body[2] == 0x2fu8 && body[3] == 0xfdu8;
    proof {
        if body@.len() >= 4 {
            assert(magic == (body@.subrange(0, 4) =~= zstd_magic()));
        }
    }
    if magic {
        zstd_decompress(body)
    } else {
        let mut out: Vec<u8> = Vec::new();
        let n = body.len();
        let mut i: usize = 0;
        while i < n
            invariant
                n == body@.len(),
                0 <= i <= n,
                out@ == body@.subrange(0, i as int),
            decreases n - i,
        {
            out.push(body[i]);
            assert(out@ =~= body@.subrange(0, i + 1));
            i = i + 1;
        }
        assert(out@ =~= body@);
        Some(out)
    }
}

/// `s` without its trailing slashes.
pub open spec fn trim_slashes(s: Seq<char>) -> Seq<char>
    decreases s.len(),
{
    if s.len() > 0 && s.last() == '/' {
        trim_slashes(s.drop_last())
    } else {
        s
    }
}

/// `s` without its trailing slashes.
pub fn trim_trailing_slashes(s: &str) -> (r: String)
    ensures
        r@ == trim_slashes(s@),
{
    let mut end = s.unicode_len();
    assert(s@.subrange(0, end as int) =~= s@);
    while end > 0 && s.get_char(end - 1) == '/'
        invariant
            end <= s@.len(),
            trim_slashes(s@) == trim_slashes(s@.subrange(0, end as int)),
        decreases end,
    {
        let ghost pre = s@.subrange(0, end as int);
        assert(pre.drop_last() =~= s@.subrange(0, end - 1));
        end = end - 1;
    }
    proof {
        if end == s@.len() {
            assert(s@.subrange(0, end as int) =~= s@);
        }
    }
    s.substring_char(0, end).to_owned()
}

/// A method of the sync protocol.
#[derive(Clone, Copy, Debug, PartialEq, Eq, Structural)]
pub enum SyncMethod {
    HostKey,
    Meta,
    Download,
}

pub open spec fn method_text(m: SyncMethod) -> Seq<char> {
    match m {
        SyncMethod::HostKey => "hostKey"@,
        SyncMethod::Meta => "meta"@,
        SyncMethod::Download => "download"@,
    }
}

/// The name of a method in its URL.
pub fn method_name(m: SyncMethod) -> (r: &'static str)
    ensures
        r@ == method_text(m),
{
    match m {
        SyncMethod::HostKey => "hostKey",
        SyncMethod::Meta => "meta",
        SyncMethod::Download => "download",
    }
}

/// The URL of `method` under the base `base`: `{base}/sync/{method}`, with
/// the base's trailing slashes dropped.
pub open spec fn sync_url_of(base: Seq<char>, m: SyncMethod) -> Seq<char> {
    trim_slashes(base) + "/sync/"@ + method_text(m)
}

/// The URL of `method` under the base `base`.
pub fn sync_url(base: &str, m: SyncMethod) -> (r: String)
    ensures
        r@ == sync_url_of(base@, m),
{
    let mut out = trim_trailing_slashes(base);
    out.append("/sync/");
    out.append(method_name(m));
    out
}

/// Where a sync session stands.
#[derive(Clone, Copy, Debug, PartialEq, Eq, Structural)]
pub enum SyncPhase {
    AwaitingLogin,
    AwaitingMeta,
    AwaitingDownload,
    Over,
}

/// The method whose reply a phase awaits.
pub open spec fn phase_method(p: SyncPhase) -> SyncMethod {
    match p {
        SyncPhase::AwaitingLogin => SyncMethod::HostKey,
        SyncPhase::AwaitingMeta => SyncMethod::Meta,
        _ => SyncMethod::Download,
    }
}

fn method_of_phase(p: SyncPhase) -> (r: SyncMethod)
    ensures
        r == phase_method(p),
{
    match p {
        SyncPhase::AwaitingLogin => SyncMethod::HostKey,
        SyncPhase::AwaitingMeta => SyncMethod::Meta,
        _ => SyncMethod::Download,
    }
}

/// One POST to send: to `url`, with the host key and session key in its
/// header. Its body is the method's request, compressed.
#[derive(Debug)]
pub struct SyncRequest {
    pub url: String,
    pub method: SyncMethod,
    pub host_key: String,
    pub session_key: String,
}

/// What came of the last request: a redirect, a failure status, a body
/// that could not be read, or the decoded reply of the method.
#[derive(Debug)]
pub enum SyncReply {
    /// A 3xx status, with the `Location` header if there was one.
    Redirect { status: u16, location: Option<String>, body: String },
    /// Any other status that is not a success.
    Failure { status: u16, body: String },
    /// A success whose body could not be decoded.
    Unreadable { detail: String },
    /// The login reply: the host key.
    HostKey { key: String },
    /// The meta reply: whether the remote collection is empty.
    Meta { empty: bool },
    /// The download reply: the collection.
    Collection { bytes: Vec<u8> },
}

/// What the caller does next.
#[derive(Debug)]
pub enum SyncAction {
    Send(SyncRequest),
    Done(Vec<u8>),
    Fail(SyncError),
}

/// Mathematical value of a `SyncSession`.
pub struct SyncSessionView {
    pub endpoint: Seq<char>,
    pub phase: SyncPhase,
    pub host_key: Seq<char>,
    pub session_key: Seq<char>,
    pub request_base: Seq<char>,
    pub redirected: bool,
}

/// The state of one login, meta and download exchange.
#[derive(Debug)]
pub struct SyncSession {
    endpoint: String,
    phase: SyncPhase,
    host_key: String,
    session_key: String,
    request_base: String,
    redirected: bool,
}

impl View for SyncSession {
    type V = SyncSessionView;

    closed spec fn view(&self) -> SyncSessionView {
        SyncSessionView {
            endpoint: self.endpoint@,
            phase: self.phase,
            host_key: self.host_key@,
            session_key: self.session_key@,
            request_base: self.request_base@,
            redirected: self.redirected,
        }
    }
}

/// The endpoint that a configuration names, or the default one.
pub open spec fn endpoint_of(config: SyncConfig) -> Seq<char> {
    match config.endpoint {
        Some(e) => e@,
        None => DEFAULT_ENDPOINT@,
    }
}

/// `req` is a POST of method `m` under `base` with these keys.
pub open spec fn request_is(req: SyncRequest, base: Seq<char>, m: SyncMethod, host_key: Seq<char>, session_key: Seq<char>) -> bool {
    &&& req.url@ == sync_url_of(base, m)
    &&& req.method == m
    &&& req.host_key@ == host_key
    &&& req.session_key@ == session_key
}

/// The text of a failed request.
pub open spec fn failure_text(m: SyncMethod, status: u16, body: Seq<char>) -> Seq<char> {
    "sync request to "@ + method_text(m) + " failed ("@ + decimal_text(status as int) + "): "@ + body
}

pub open spec fn empty_collection_text() -> Seq<char> {
    "server collection is empty"@
}

pub open spec fn unexpected_reply_text() -> Seq<char> {
    "unexpected sync reply"@
}

/// `e` is the error of phase `p` with text `msg`: a login failure while
/// logging in, a download failure after.
pub open spec fn is_phase_error(e: SyncError, p: SyncPhase, msg: Seq<char>) -> bool {
    match e {
        SyncError::LoginFailed(m) => p == SyncPhase::AwaitingLogin && m@ == msg,
        SyncError::DownloadFailed(m) => p != SyncPhase::AwaitingLogin && m@ == msg,
        SyncError::MissingCredentials => false,
    }
}

/// The session ended in failure with the error of its phase.
pub open spec fn ends_failed(old: SyncSessionView, new: SyncSessionView, r: SyncAction, msg: Seq<char>) -> bool {
    &&& new == SyncSessionView { phase: SyncPhase::Over, ..old }
    &&& r matches SyncAction::Fail(e) && is_phase_error(e, old.phase, msg)
}

fn phase_error(p: SyncPhase, msg: String) -> (r: SyncError)
    ensures
        p != SyncPhase::Over ==> is_phase_error(r, p, msg@),
        p == SyncPhase::Over ==> (r matches SyncError::DownloadFailed(m) && m@ == msg@),
{
    match p {
        SyncPhase::AwaitingLogin => SyncError::LoginFailed(msg),
        _ => SyncError::DownloadFailed(msg),
    }
}

fn failure_message(m: SyncMethod, status: u16, body: &String) -> (r: String)
    ensures
        r@ == failure_text(m, status, body@),
{
    let mut out = "sync request to ".to_owned();
    out.append(method_name(m));
    out.append(" failed (");
    let code = decimal_string(status as i64);
    out.append(code.as_str());
    out.append("): ");
    out.append(body.as_str());
    out
}

impl SyncSession {
    /// Where the session stands.
    pub fn phase(&self) -> (r: SyncPhase)
        ensures
            r == self@.phase,
    {
        self.phase
    }

    fn request(&self, base: &String, m: SyncMethod) -> (r: SyncRequest)
        ensures
            request_is(r, base@, m, if m == SyncMethod::HostKey { Seq::<char>::empty() } else { self@.host_key }, self@.session_key),
    {
        let host_key = match m {
            SyncMethod::HostKey => String::new(),
            _ => self.host_key.clone(),
        };
        SyncRequest { url: sync_url(base.as_str(), m), method: m, host_key, session_key: self.session_key.clone() }
    }

    /// Starts an exchange with session key `session_key`. Fails, before any
    /// request, when the user name or the password is empty; else the first
    /// request is the login to the configured (or default) endpoint, with an
    /// empty host key.
    pub fn start(config: &SyncConfig, session_key: String) -> (r: Result<(SyncSession, SyncRequest), SyncError>)
        ensures
            (config.username@.len() == 0 || config.password@.len() == 0) <==> r is Err,
            r matches Err(e) ==> e is MissingCredentials,
            r matches Ok((s, req)) ==> {
                &&& s@ == SyncSessionView {
                    endpoint: endpoint_of(*config),
                    phase: SyncPhase::AwaitingLogin,
                    host_key: Seq::empty(),
                    session_key: session_key@,
                    request_base: endpoint_of(*config),
                    redirected: false,
                }
                &&& request_is(req, endpoint_of(*config), SyncMethod::HostKey, Seq::empty(), session_key@)
            },
    {
        if config.username.unicode_len() == 0 || config.password.unicode_len() == 0 {
            return Err(SyncError::MissingCredentials);
        }
        let endpoint = match &config.endpoint {
            Some(e) => e.clone(),
            None => DEFAULT_ENDPOINT.to_owned(),
        };
        let s = SyncSession {
            endpoint: endpoint.clone(),
            phase: SyncPhase::AwaitingLogin,
            host_key: String::new(),
            session_key,
            request_base: endpoint,
            redirected: false,
        };
        let req = s.request(&s.endpoint, SyncMethod::HostKey);
        Ok((s, req))
    }

    /// Takes what came of the last request and says what to do next.
    ///
    /// A redirect is followed once per request, by sending the same method
    /// to the `Location` base (trailing slashes dropped); a redirect of the
    /// meta request moves the endpoint of the download. A second redirect, a
    /// redirect without a location, a failure status or an unreadable body
    /// ends the session with a login failure while logging in and a
    /// download failure after. A host key leads to the meta request, a
    /// non-empty meta reply to the download, and the download's bytes end
    /// the session. A reply that does not fit the phase, or any reply to a
    /// session that is over, is a download failure.
    pub fn on_reply(&mut self, reply: SyncReply) -> (r: SyncAction)
        ensures
            ({
                let o = old(self)@;
                let n = final(self)@;
                let m = phase_method(o.phase);
                if o.phase == SyncPhase::Over {
                    &&& n == o
                    &&& r matches SyncAction::Fail(e) && e matches SyncError::DownloadFailed(t) && t@ == unexpected_reply_text()
                } else {
                    match reply {
                        SyncReply::Redirect { status, location, body } => {
                            if !o.redirected && location is Some {
                                let base = trim_slashes(location->0@);
                                &&& n == SyncSessionView { request_base: base, redirected: true, ..o }
                                &&& r matches SyncAction::Send(req) && request_is(
                                    req,
                                    base,
                                    m,
                                    if m == SyncMethod::HostKey { Seq::<char>::empty() } else { o.host_key },
                                    o.session_key,
                                )
                            } else {
                                ends_failed(o, n, r, failure_text(m, status, body@))
                            }
                        },
                        SyncReply::Failure { status, body } => ends_failed(o, n, r, failure_text(m, status, body@)),
                        SyncReply::Unreadable { detail } => ends_failed(o, n, r, detail@),
                        SyncReply::HostKey { key } => {
                            if o.phase == SyncPhase::AwaitingLogin {
                                &&& n == SyncSessionView {
                                    phase: SyncPhase::AwaitingMeta,
                                    host_key: key@,
                                    request_base: o.endpoint,
                                    redirected: false,
                                    ..o
                                }
                                &&& r matches SyncAction::Send(req) && request_is(req, o.endpoint, SyncMethod::Meta, key@, o.session_key)
                            } else {
                                ends_failed(o, n, r, unexpected_reply_text())
                            }
                        },
                        SyncReply::Meta { empty } => {
                            if o.phase == SyncPhase::AwaitingMeta && empty {
                                ends_failed(o, n, r, empty_collection_text())
                            } else if o.phase == SyncPhase::AwaitingMeta {
                                &&& n == SyncSessionView {
                                    endpoint: o.request_base,
                                    phase: SyncPhase::AwaitingDownload,
                                    redirected: false,
                                    ..o
                                }
                                &&& r matches SyncAction::Send(req) && request_is(
                                    req,
                                    o.request_base,
                                    SyncMethod::Download,
                                    o.host_key,
                                    o.session_key,
                                )
                            } else {
                                ends_failed(o, n, r, unexpected_reply_text())
                            }
                        },
                        SyncReply::Collection { bytes } => {
                            if o.phase == SyncPhase::AwaitingDownload {
                                &&& n == SyncSessionView { phase: SyncPhase::Over, ..o }
                                &&& r matches SyncAction::Done(b) && b@ == bytes@
                            } else {
                                ends_failed(o, n, r, unexpected_reply_text())
                            }
                        },
                    }
                }
            }),
    {
        let unexpected = "unexpected sync reply";
        proof {
            reveal_strlit("unexpected sync reply");
        }
        if self.phase == SyncPhase::Over {
            return SyncAction::Fail(SyncError::DownloadFailed(unexpected.to_owned()));
        }
        let m = method_of_phase(self.phase);
        match reply {
            SyncReply::Redirect { status, location, body } => {
                if !self.redirected {
                    if let Some(loc) = location {
                        let base = trim_trailing_slashes(loc.as_str());
                        let req = self.request(&base, m);
                        self.request_base = base;
                        self.redirected = true;
                        return SyncAction::Send(req);
                    }
                }
                let msg = failure_message(m, status, &body);
                let e = phase_error(self.phase, msg);
                self.phase = SyncPhase::Over;
                SyncAction::Fail(e)
            },
            SyncReply::Failure { status, body } => {
                let msg = failure_message(m, status, &body);
                let e = phase_error(self.phase, msg);
                self.phase = SyncPhase::Over;
                SyncAction::Fail(e)
            },
            SyncReply::Unreadable { detail } => {
                let e = phase_error(self.phase, detail);
                self.phase = SyncPhase::Over;
                SyncAction::Fail(e)
            },
            SyncReply::HostKey { key } => {
                if self.phase != SyncPhase::AwaitingLogin {
                    let e = phase_error(self.phase, unexpected.to_owned());
                    self.phase = SyncPhase::Over;
                    return SyncAction::Fail(e);
                }
                self.host_key = key;
                self.phase = SyncPhase::AwaitingMeta;
                self.request_base = self.endpoint.clone();
                self.redirected = false;
                let req = self.request(&self.endpoint, SyncMethod::Meta);
                SyncAction::Send(req)
            },
            SyncReply::Meta { empty } => {
                if self.phase != SyncPhase::AwaitingMeta {
                    let e = phase_error(self.phase, unexpected.to_owned());
                    self.phase = SyncPhase::Over;
                    return SyncAction::Fail(e);
                }
                if empty {
                    proof {
                        reveal_strlit("server collection is empty");
                    }
                    let e = phase_error(self.phase, "server collection is empty".to_owned());
                    self.phase = SyncPhase::Over;
                    return SyncAction::Fail(e);
                }
                self.endpoint = self.request_base.clone();
                self.phase = SyncPhase::AwaitingDownload;
                self.redirected = false;
                let req = self.request(&self.endpoint, SyncMethod::Download);
                SyncAction::Send(req)
            },
            SyncReply::Collection { bytes } => {
                if self.phase != SyncPhase::AwaitingDownload {
                    let e = phase_error(self.phase, unexpected.to_owned());
                    self.phase = SyncPhase::Over;
                    return SyncAction::Fail(e);
                }
                self.phase = SyncPhase::Over;
                SyncAction::Done(bytes)
            },
        }
    }
}

} // verus!
