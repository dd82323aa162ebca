//! WebSocket connection handling: the RFC 6455 upgrade handshake, and
//! the message layer over the frame codec — opcode dispatch, close-code
//! extraction, automatic pong replies, and a receive ceiling.

use vstd::prelude::*;
use vstd::string::*;
use sha1::Digest;
use base64::Engine;
use crate::frame::{Frame, FrameParse, parse_frame, frame_bytes, read_frame, build};
use crate::headers::{Headers, HeaderEntry, header_lookup, str_bytes};
use crate::num::be_val;
use crate::response::{HttpResponse, AbstractResponse, response_to_bytes};
use crate::scan::{find_sub, find_window, lower_bytes, lower_byte, trim_bytes, trim_slice};
use crate::stream::AbstractStream;
use crate::textenc::{lossy_decoded, lossy_string};

verus! {

/// A message surfaced to the application.
pub enum Message {
    Continue(Vec<u8>),
    Text(String),
    Binary(Vec<u8>),
    Close(u16, String),
    Ping(),
    Pong(),
    Others(Vec<u8>),
}

/// What `sha1` makes of a byte sequence; a function of the bytes alone.
pub uninterp spec fn sha1_of(s: Seq<u8>) -> Seq<u8>;

/// Relies on the `sha1` crate: the digest depends on the bytes alone and
/// is always 20 bytes.
#[verifier::external_body]
fn sha1_digest(v: &[u8]) -> (r: Vec<u8>)
    ensures
        r@ == sha1_of(v@),
        r@.len() == 20,
{
    let mut hasher = sha1::Sha1::new();
    hasher.update(v);
    hasher.finalize().to_vec()
}

/// What `base64`'s standard engine makes of a byte sequence; a function
/// of the bytes alone.
pub uninterp spec fn base64_of(s: Seq<u8>) -> Seq<char>;

/// Relies on the `base64` crate's standard engine: the encoding depends
/// on the bytes alone.
#[verifier::external_body]
fn base64_standard(v: &[u8]) -> (r: String)
    ensures
        r@ == base64_of(v@),
{
    base64::engine::general_purpose::STANDARD.encode(v)
}

/// Relies on `uuid::Uuid::new_v4`: a fresh random identifier; its
/// hyphenated text is always 36 characters.
#[verifier::external_body]
fn new_uuid_string() -> (r: String)
    ensures
        r@.len() == 36,
{
    uuid::Uuid::new_v4().to_string()
}

/// The accept token of the handshake: base64 of the SHA-1 digest of the
/// trimmed client key followed by the fixed protocol GUID.
pub open spec fn spec_accept_token(key: Seq<char>) -> Seq<char> {
    base64_of(
        sha1_of(
            trim_bytes(str_bytes(key)) + str_bytes("258EAFA5-E914-47DA-95CA-C5AB0DC85B11"@),
        ),
    )
}

/// Computes the `Sec-WebSocket-Accept` value for a client key.
pub fn handshake_key_base64(sec_websocket_key: &str) -> (r: String)
    ensures
        r@ == spec_accept_token(sec_websocket_key@),
{
    let mut data = trim_slice(sec_websocket_key.as_bytes());
    let mut guid = "258EAFA5-E914-47DA-95CA-C5AB0DC85B11".as_bytes_vec();
    data.append(&mut guid);
    let digest = sha1_digest(data.as_slice());
    base64_standard(digest.as_slice())
}

/// ASCII-lowercases a byte slice.
fn lower_vec(s: &[u8]) -> (r: Vec<u8>)
    ensures
        r@ == lower_bytes(s@),
{
    let n: usize = s.len();
    let mut r: Vec<u8> = Vec::new();
    let mut i: usize = 0;
    while i < n
        invariant
            0 <= i <= n,
            n == s@.len(),
            r@.len() == i,
            forall|j: int| 0 <= j < i ==> #[trigger] r@[j] == lower_byte(s@[j]),
        decreases n - i,
    {
        let b = s[i];
        if 65 <= b && b <= 90 {
            r.push(b + 32);
        } else {
            r.push(b);
        }
        i += 1;
    }
    proof {
        assert(r@ =~= lower_bytes(s@));
    }
    r
}

/// The text of a stored header value, as the rest of the specs see it.
pub open spec fn header_text(hv: Seq<HeaderEntry>, i: int) -> Seq<u8> {
    str_bytes(lossy_decoded(hv[i].1[0]))
}

/// The trimmed client key of a valid upgrade request: the method must be
/// `GET`, `Connection` must name `upgrade`, `Upgrade` must be
/// `websocket`, and `Sec-WebSocket-Key` must be present.
pub open spec fn spec_upgrade_key(method: Seq<char>, hv: Seq<HeaderEntry>) -> Option<Seq<u8>> {
    if str_bytes(method) != str_bytes("GET"@) {
        None
    } else {
        match header_lookup(hv, str_bytes("Connection"@)) {
            None => None,
            Some(ci) => {
                if find_sub(
                    lower_bytes(header_text(hv, ci)),
                    lower_bytes(str_bytes("upgrade"@)),
                ) is None {
                    None
                } else {
                    match header_lookup(hv, str_bytes("Upgrade"@)) {
                        None => None,
                        Some(ui) => {
                            if lower_bytes(header_text(hv, ui)) != lower_bytes(
                                str_bytes("websocket"@),
                            ) {
                                None
                            } else {
                                match header_lookup(hv, str_bytes("Sec-WebSocket-Key"@)) {
                                    None => None,
                                    Some(ki) => Some(trim_bytes(header_text(hv, ki))),
                                }
                            }
                        },
                    }
                }
            },
        }
    }
}

/// Checks an upgrade request and hands back the trimmed client key.
pub fn validate_upgrade(method: &str, headers: &Headers) -> (r: Result<String, String>)
    requires
        headers.wf(),
    ensures
        r is Ok <==> spec_upgrade_key(method@, headers@) is Some,
        r matches Ok(k) ==> k@ == lossy_decoded(spec_upgrade_key(method@, headers@)->Some_0),
{
    if !crate::scan::slice_eq(method.as_bytes(), "GET".as_bytes()) {
        return Err(String::from_str("Invalid request method."));
    }
    let connection = match headers.value("Connection") {
        Some(v) => v,
        None => {
            return Err(String::from_str("Connection header is missing."));
        },
    };
    let conn_lower = lower_vec(connection.as_str().as_bytes());
    let upgrade_needle = lower_vec("upgrade".as_bytes());
    if find_window(conn_lower.as_slice(), upgrade_needle.as_slice()).is_none() {
        return Err(String::from_str("Connection header does not specify to upgrade"));
    }
    let upgrade = match headers.value("Upgrade") {
        Some(v) => v,
        None => {
            return Err(String::from_str("Upgrade header is missing."));
        },
    };
    let sec_websocket_key = match headers.value("Sec-WebSocket-Key") {
        Some(v) => v,
        None => {
            return Err(String::from_str("Sec-WebSocket-Key header is missing"));
        },
    };
    if !crate::scan::eq_ignore_ascii(upgrade.as_str().as_bytes(), "websocket".as_bytes()) {
        return Err(String::from_str("Upgrade header is not set to websocket."));
    }
    let trimmed = trim_slice(sec_websocket_key.as_str().as_bytes());
    Ok(lossy_string(trimmed.as_slice()))
}

/// The default receive ceiling for an assembled message.
pub const DEFAULT_MAX_PAYLOAD_SIZE: u64 = 5 * 1024 * 1024;

/// The close code a close frame's payload carries: its first two bytes
/// big-endian, or zero when the payload is shorter.
pub open spec fn close_code_of(p: Seq<u8>) -> nat {
    if p.len() >= 2 {
        be_val(p.take(2))
    } else {
        0
    }
}

/// The close reason a close frame's payload carries, after the two code
/// bytes.
pub open spec fn close_msg_of(p: Seq<u8>) -> Seq<char> {
    if p.len() < 3 {
        "No close message specified."@
    } else {
        lossy_decoded(p.skip(2))
    }
}

/// The wire bytes of the automatic pong reply: an empty unmasked pong
/// frame.
pub open spec fn pong_frame_bytes() -> Seq<u8> {
    frame_bytes(1, 10, false, seq![0u8, 0u8, 0u8, 0u8], Seq::empty())
}

/// A message at the spec level.
pub enum WsMsg {
    Continue(Seq<u8>),
    Text(Seq<char>),
    Binary(Seq<u8>),
    Close(nat, Seq<char>),
    Ping,
    Pong,
    Others(Seq<u8>),
}

/// What one receive call yields.
pub enum WsOutcome {
    /// A frame could not be read; the connection closes with code 1000.
    ErrClose,
    /// The assembled payload passed the receive ceiling; the connection
    /// closes with code 0.
    OverLimit,
    /// A message, the stream bytes after it, and whether receiving stops
    /// (a close frame).
    Msg { m: WsMsg, rest: Seq<u8>, stop: bool },
}

/// A complete frame occupies between two bytes and the whole sequence.
pub proof fn lemma_parse_frame_consumes(s: Seq<u8>, max: nat)
    requires
        parse_frame(s, max) is Done,
    ensures
        2 <= parse_frame(s, max)->Done_consumed <= s.len(),
{
}

/// Reads frames until a final frame arrives and classifies it by opcode,
/// tracking the assembled payload size against the default ceiling.
pub open spec fn ws_next(s: Seq<u8>, max: nat, acc: nat) -> WsOutcome
    decreases s.len(),
{
    match parse_frame(s, max) {
        FrameParse::Incomplete => WsOutcome::ErrClose,
        FrameParse::TooBig => WsOutcome::ErrClose,
        FrameParse::Done { fin, op, payload, consumed } => {
            if acc + payload.len() > DEFAULT_MAX_PAYLOAD_SIZE {
                WsOutcome::OverLimit
            } else if fin == 1 {
                let rest = s.skip(consumed);
                if op == 0 {
                    WsOutcome::Msg { m: WsMsg::Continue(payload), rest, stop: false }
                } else if op == 1 {
                    WsOutcome::Msg { m: WsMsg::Text(lossy_decoded(payload)), rest, stop: false }
                } else if op == 2 {
                    WsOutcome::Msg { m: WsMsg::Binary(payload), rest, stop: false }
                } else if op == 8 {
                    WsOutcome::Msg {
                        m: WsMsg::Close(close_code_of(payload), close_msg_of(payload)),
                        rest,
                        stop: true,
                    }
                } else if op == 9 {
                    WsOutcome::Msg { m: WsMsg::Ping, rest, stop: false }
                } else if op == 10 {
                    WsOutcome::Msg { m: WsMsg::Pong, rest, stop: false }
                } else {
                    WsOutcome::Msg { m: WsMsg::Others(payload), rest, stop: false }
                }
            } else if 2 <= consumed <= s.len() {
                ws_next(s.skip(consumed), max, acc + payload.len())
            } else {
                WsOutcome::ErrClose
            }
        },
    }
}

/// A WebSocket connection: the stream it owns after the upgrade, and
/// whether further messages are expected.
pub struct WebSocket<S: AbstractStream> {
    /// A fresh identifier for this connection.
    pub uid: String,
    stream: S,
    request_validated: bool,
    receive_next: bool,
    headers: Headers,
    body: Vec<u8>,
}

impl<S: AbstractStream> WebSocket<S> {
    pub closed spec fn st(&self) -> S {
        self.stream
    }

    pub closed spec fn receiving(&self) -> bool {
        self.receive_next
    }

    pub closed spec fn validated(&self) -> bool {
        self.request_validated
    }

    pub open spec fn wf(&self) -> bool {
        self.st().wf()
    }

    /// Performs the upgrade: validates the request and writes the
    /// `101 Switching Protocols` handshake with the accept token for the
    /// client's key. The flag says whether the connection is now a
    /// WebSocket; on a request that is no upgrade, nothing is written.
    pub fn from_parts(stream: S, method: &str, headers: &Headers) -> (r: (WebSocket<S>, bool))
        requires
            stream.wf(),
            headers.wf(),
        ensures
            r.0.wf(),
            r.0.st().chunk_size() == stream.chunk_size(),
            r.0.st().content() == stream.content(),
            r.1 ==> spec_upgrade_key(method@, headers@) is Some && r.0.validated()
                && r.0.receiving(),
            !r.1 ==> r.0.st().written() == stream.written(),
            spec_upgrade_key(method@, headers@) is None ==> !r.1,
            r.1 ==> (exists|hv: Seq<HeaderEntry>|
                {
                    &&& r.0.st().written() == stream.written() + #[trigger] crate::response::spec_head_wire(
                        101,
                        "Switching Protocols"@,
                        hv,
                    )
                    &&& header_lookup(hv, str_bytes("Sec-WebSocket-Accept"@)) is Some
                    &&& lossy_decoded(
                        hv[header_lookup(hv, str_bytes("Sec-WebSocket-Accept"@))->Some_0].1[0],
                    ) == spec_accept_token(
                        lossy_decoded(spec_upgrade_key(method@, headers@)->Some_0),
                    )
                }),
    {
        let key = match validate_upgrade(method, headers) {
            Ok(k) => k,
            Err(_) => {
                let failed = WebSocket {
                    uid: new_uuid_string(),
                    stream,
                    request_validated: false,
                    receive_next: true,
                    headers: Headers::new(),
                    body: Vec::new(),
                };
                return (failed, false);
            },
        };
        let accept = handshake_key_base64(key.as_str());
        let mut response = HttpResponse::new_with_status(101, "Switching Protocols");
        response.set_header("Connection", "upgrade".as_bytes());
        response.set_header("Upgrade", "websocket".as_bytes());
        response.set_header("Sec-WebSocket-Accept", accept.as_str().as_bytes());
        let boxed = response.empty();
        // read the stored accept value back, so the contract can name it
        let stored = boxed.headers_ref().value("Sec-WebSocket-Accept");
        let header_ok = match &stored {
            Some(v) => *v == accept,
            None => false,
        };
        let mut stream_m = stream;
        let mut ok = false;
        if header_ok {
            let response_bytes = boxed.to_bytes();
            proof {
                reveal_strlit("");
                assert(str_bytes(""@) =~= Seq::<u8>::empty());
                assert(response_bytes@ =~= crate::response::spec_head_wire(
                    101,
                    "Switching Protocols"@,
                    boxed.spec_headers(),
                ));
            }
            ok = stream_m.write_chunk(response_bytes.as_slice()).is_ok();
        }
        let ws = WebSocket {
            uid: new_uuid_string(),
            stream: stream_m,
            request_validated: ok,
            receive_next: ok,
            headers: Headers::new(),
            body: Vec::new(),
        };
        proof {
            if ok {
                let hv = boxed.spec_headers();
                assert(header_lookup(hv, str_bytes("Sec-WebSocket-Accept"@)) is Some);
            }
        }
        (ws, ok)
    }

    /// Gives the stream back once the connection is over.
    pub fn into_stream(self) -> (r: S)
        ensures
            r == self.st(),
    {
        self.stream
    }

    /// The close code carried by a close frame's payload.
    pub fn close_code_from_payload(&self, response: &[u8]) -> (r: u16)
        ensures
            r == close_code_of(response@),
    {
        if response.len() >= 2 {
            let v = crate::num::be16_value(response[0], response[1]);
            proof {
                assert(seq![response@[0], response@[1]] =~= response@.take(2));
            }
            return v;
        }
        0
    }

    /// The close reason carried by a close frame's payload.
    pub fn close_message_from_payload(&self, response: &[u8]) -> (r: String)
        ensures
            r@ == close_msg_of(response@),
    {
        if response.len() < 3 {
            return String::from_str("No close message specified.");
        }
        let rlen: usize = response.len();
        let tail = &response[2..rlen];
        assert(tail@ == response@.skip(2));
        lossy_string(tail)
    }

    /// Sends one pong frame; a write failure stops further receives.
    fn send_pong(&mut self)
        requires
            old(self).wf(),
        ensures
            final(self).wf(),
            final(self).st().chunk_size() == old(self).st().chunk_size(),
            final(self).st().content() == old(self).st().content(),
            final(self).validated() == old(self).validated(),
            final(self).st().written() == old(self).st().written() + pong_frame_bytes() || (
            final(self).st().written() == old(self).st().written() && !final(self).receiving()),
            final(self).st().written() == old(self).st().written() + pong_frame_bytes()
                ==> final(self).receiving() == old(self).receiving(),
    {
        let frame = Frame { fin: 1, op_code: 10, payload: Vec::new() };
        let bytes = build(&frame);
        match self.stream.write_chunk(bytes.as_slice()) {
            Ok(_) => {},
            Err(_) => {
                self.receive_next = false;
            },
        }
    }

    /// Receives one message, assembling continuation frames up to the
    /// default ceiling and replying to pings; `None` once receiving has
    /// stopped.
    pub fn receive_message_with_limit(&mut self, max_payload_size: u64) -> (r: Option<Message>)
        requires
            old(self).wf(),
            max_payload_size as int + 14 <= usize::MAX as int,
        ensures
            final(self).wf(),
            final(self).st().chunk_size() == old(self).st().chunk_size(),
            final(self).validated() == old(self).validated(),
            !old(self).receiving() ==> r is None && *final(self) == *old(self),
            old(self).receiving() ==> ({
                let out = ws_next(old(self).st().content(), max_payload_size as nat, 0);
                &&& r is Some
                &&& (out is ErrClose ==> (r matches Some(m) && m matches Message::Close(code, _)
                    && code == 1000) && !final(self).receiving() && final(self).st().written()
                    == old(self).st().written())
                &&& (out is OverLimit ==> (r matches Some(m) && m matches Message::Close(code, _)
                    && code == 0) && final(self).st().written() == old(self).st().written())
                &&& (out matches WsOutcome::Msg { m, rest, stop } ==> (match m {
                    WsMsg::Continue(p) => r matches Some(Message::Continue(v)) && v@ == p,
                    WsMsg::Text(t) => r matches Some(Message::Text(v)) && v@ == t,
                    WsMsg::Binary(p) => r matches Some(Message::Binary(v)) && v@ == p,
                    WsMsg::Close(code, msg) => r matches Some(Message::Close(c2, m2)) && c2
                        == code && m2@ == msg,
                    WsMsg::Ping => r matches Some(Message::Ping()),
                    WsMsg::Pong => r matches Some(Message::Pong()),
                    WsMsg::Others(p) => r matches Some(Message::Others(v)) && v@ == p,
                } && final(self).st().content() == rest && (stop ==> !final(self).receiving())
                    && (!stop && !(m is Ping) ==> final(self).receiving() == old(self).receiving()) && (m is Ping ==> final(self).st().written() == old(self).st().written() + pong_frame_bytes() || (final(self).st().written() == old(self).st().written() && !final(self).receiving())) && (!(m is Ping) ==> final(self).st().written() == old(self).st().written())))
            }),
    {
        if !self.receive_next {
            return None;
        }
        let ghost c0 = self.stream.content();
        let mut response_len: u64 = 0;
        loop
            invariant
                self.stream.wf(),
                self.stream.written() == old(self).st().written(),
                self.stream.chunk_size() == old(self).st().chunk_size(),
                self.request_validated == old(self).validated(),
                self.receive_next,
                old(self).receiving(),
                max_payload_size as int + 14 <= usize::MAX as int,
                response_len <= DEFAULT_MAX_PAYLOAD_SIZE,
                ws_next(c0, max_payload_size as nat, 0) == ws_next(
                    self.stream.content(),
                    max_payload_size as nat,
                    response_len as nat,
                ),
                c0 == old(self).st().content(),
            decreases self.stream.content().len(),
        {
            let ghost s_cur = self.stream.content();
            let ghost acc_cur = response_len as nat;
            let frame = match read_frame(&mut self.stream, max_payload_size) {
                Ok(f) => f,
                Err(_) => {
                    self.receive_next = false;
                    return Some(
                        Message::Close(1000, String::from_str("failed to read a frame")),
                    );
                },
            };
            let ghost pf = parse_frame(s_cur, max_payload_size as nat);
            proof {
                lemma_parse_frame_consumes(s_cur, max_payload_size as nat);
            }
            let plen: usize = frame.payload.len();
            if plen as u64 > DEFAULT_MAX_PAYLOAD_SIZE - response_len {
                return Some(Message::Close(0, String::from_str("Max payload size exceed.")));
            }
            response_len = response_len + plen as u64;
            if frame.fin == 1 {
                if frame.op_code == 0 {
                    return Some(Message::Continue(frame.payload));
                } else if frame.op_code == 1 {
                    let payload_text = lossy_string(frame.payload.as_slice());
                    return Some(Message::Text(payload_text));
                } else if frame.op_code == 2 {
                    return Some(Message::Binary(frame.payload));
                } else if frame.op_code == 8 {
                    self.receive_next = false;
                    let close_code = self.close_code_from_payload(frame.payload.as_slice());
                    let close_message = self.close_message_from_payload(
                        frame.payload.as_slice(),
                    );
                    return Some(Message::Close(close_code, close_message));
                } else if frame.op_code == 9 {
                    self.send_pong();
                    return Some(Message::Ping());
                } else if frame.op_code == 10 {
                    return Some(Message::Pong());
                } else {
                    return Some(Message::Others(frame.payload));
                }
            }
        }
    }

    /// Receives one message under the default ceiling.
    pub fn message(&mut self) -> (r: Option<Message>)
        requires
            old(self).wf(),
        ensures
            final(self).wf(),
            final(self).st().chunk_size() == old(self).st().chunk_size(),
            final(self).validated() == old(self).validated(),
            !old(self).receiving() ==> r is None && *final(self) == *old(self),
            old(self).receiving() ==> ({
                let out = ws_next(old(self).st().content(), DEFAULT_MAX_PAYLOAD_SIZE as nat, 0);
                &&& r is Some
                &&& (out is ErrClose ==> (r matches Some(m) && m matches Message::Close(code, _)
                    && code == 1000) && !final(self).receiving() && final(self).st().written()
                    == old(self).st().written())
                &&& (out is OverLimit ==> (r matches Some(m) && m matches Message::Close(code, _)
                    && code == 0) && final(self).st().written() == old(self).st().written())
                &&& (out matches WsOutcome::Msg { m, rest, stop } ==> (match m {
                    WsMsg::Continue(p) => r matches Some(Message::Continue(v)) && v@ == p,
                    WsMsg::Text(t) => r matches Some(Message::Text(v)) && v@ == t,
                    WsMsg::Binary(p) => r matches Some(Message::Binary(v)) && v@ == p,
                    WsMsg::Close(code, msg) => r matches Some(Message::Close(c2, m2)) && c2
                        == code && m2@ == msg,
                    WsMsg::Ping => r matches Some(Message::Ping()),
                    WsMsg::Pong => r matches Some(Message::Pong()),
                    WsMsg::Others(p) => r matches Some(Message::Others(v)) && v@ == p,
                } && final(self).st().content() == rest && (stop ==> !final(self).receiving())
                    && (!stop && !(m is Ping) ==> final(self).receiving() == old(self).receiving())
                    && (m is Ping ==> final(self).st().written() == old(self).st().written()
                    + pong_frame_bytes() || (final(self).st().written() == old(self).st().written()
                    && !final(self).receiving())) && (!(m is Ping) ==> final(self).st().written()
                    == old(self).st().written())))
            }),
    {
        proof {
            assert(DEFAULT_MAX_PAYLOAD_SIZE as int + 14 <= usize::MAX as int);
        }
        self.receive_message_with_limit(DEFAULT_MAX_PAYLOAD_SIZE)
    }

    /// Sends one final text frame.
    pub fn send_text(&mut self, message: &str) -> (r: Result<(), crate::stream::StreamError>)
        requires
            old(self).wf(),
        ensures
            final(self).wf(),
            final(self).st().chunk_size() == old(self).st().chunk_size(),
            final(self).st().content() == old(self).st().content(),
            r is Ok ==> final(self).st().written() == old(self).st().written() + frame_bytes(
                1,
                1,
                false,
                seq![0u8, 0u8, 0u8, 0u8],
                str_bytes(message@),
            ),
            r is Err ==> final(self).st().written() == old(self).st().written(),
    {
        let frame = Frame { fin: 1, op_code: 1, payload: message.as_bytes_vec() };
        let bytes = build(&frame);
        self.stream.write_chunk(bytes.as_slice())
    }

    /// Sends one final binary frame.
    pub fn send_bytes(&mut self, payload: Vec<u8>) -> (r: Result<(), crate::stream::StreamError>)
        requires
            old(self).wf(),
        ensures
            final(self).wf(),
            final(self).st().chunk_size() == old(self).st().chunk_size(),
            final(self).st().content() == old(self).st().content(),
            r is Ok ==> final(self).st().written() == old(self).st().written() + frame_bytes(
                1,
                2,
                false,
                seq![0u8, 0u8, 0u8, 0u8],
                payload@,
            ),
            r is Err ==> final(self).st().written() == old(self).st().written(),
    {
        let frame = Frame { fin: 1, op_code: 2, payload };
        let bytes = build(&frame);
        self.stream.write_chunk(bytes.as_slice())
    }

    /// Writes a plain `400 Bad Request` response, for a request that was
    /// no upgrade.
    pub fn bad_request(self) -> (r: Box<WebSocket<S>>)
        requires
            self.wf(),
        ensures
            r.wf(),
            r.st().chunk_size() == self.st().chunk_size(),
            r.st().content() == self.st().content(),
            (exists|hv: Seq<HeaderEntry>|
                r.st().written() == self.st().written() + #[trigger] crate::response::spec_head_wire(
                    400,
                    "Bad Request"@,
                    hv,
                ) + str_bytes("Bad Request"@)) || r.st().written() == self.st().written(),
    {
        let mut this = self;
        let response = HttpResponse::new_with_status(400, "Bad Request");
        let boxed = response.body("Bad Request");
        let response_bytes = boxed.to_bytes();
        let _write_result = this.stream.write_chunk(response_bytes.as_slice());
        Box::new(this)
    }

    /// Ends the exchange, handing the connection back boxed.
    pub fn exit(self) -> (r: Box<WebSocket<S>>)
        ensures
            r.st() == self.st(),
    {
        Box::new(self)
    }
}

/// A WebSocket upgrade also stands where a response is expected: the
/// handler then serves nothing itself and closes when the exchange ends.
impl<S: AbstractStream> crate::response::AbstractResponse for WebSocket<S> {
    closed spec fn resp_status(&self) -> (u32, Seq<char>) {
        (200u32, "OK"@)
    }

    closed spec fn resp_headers(&self) -> Seq<HeaderEntry> {
        self.headers@
    }

    closed spec fn resp_body(&self) -> Seq<u8> {
        self.body@
    }

    closed spec fn resp_serve_default(&self) -> bool {
        false
    }

    closed spec fn resp_should_close(&self) -> bool {
        true
    }

    fn status(&self) -> (u32, String) {
        (200, String::from_str("OK"))
    }

    fn serve_default(&mut self) -> bool {
        false
    }

    fn get_headers(&mut self) -> &mut Headers {
        &mut self.headers
    }

    fn get_body(&mut self) -> &mut Vec<u8> {
        &mut self.body
    }

    fn should_close(&mut self) -> bool {
        true
    }
}

} // verus!
