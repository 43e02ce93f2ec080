//! WebSocket upgrades: checking a request's upgrade headers, choosing a
//! subprotocol among those requested, and the messages a socket carries.

use vstd::prelude::*;
use crate::text::{chars_of, string_of, split_with, split_chars, eq_ignore_case, eq_ignore_ascii_case};
use crate::cookie::{trim, trim_chars};
use crate::headers::{Headers, HeaderEntries};
use crate::multipart::header_text;
use crate::response::{Response, IntoResponse};
use vstd::utf8::encode_utf8;

verus! {

/// A message on a WebSocket.
#[derive(Debug, Clone, PartialEq, Eq)]
pub enum WebSocketMessage {
    Text(String),
    Binary(Vec<u8>),
    Ping(Vec<u8>),
    Pong(Vec<u8>),
    Close { code: Option<u16>, reason: String },
}

/// A failure reading from or writing to a WebSocket.
#[derive(Debug, Clone, PartialEq, Eq)]
pub struct WebSocketError {
    message: String,
}

impl WebSocketError {
    pub closed spec fn spec_message(&self) -> Seq<char> {
        self.message@
    }

    pub fn new(message: String) -> (r: WebSocketError)
        ensures
            r.spec_message() == message@,
    {
        WebSocketError { message }
    }

    pub fn message(&self) -> (r: &str)
        ensures
            r@ == self.spec_message(),
    {
        self.message.as_str()
    }
}

impl IntoResponse for WebSocketError {
    open spec fn response_for(self, r: Response) -> bool {
        &&& (r.spec_status() == 500)
        &&& (r.spec_headers() == Response::typed("text/plain; charset=utf-8"@))
        &&& (r.spec_body().spec_buffered() == Some(vstd::utf8::encode_utf8(self.spec_message())))
    }

    /// A `500` plain-text response with the message.
    fn into_response(self) -> (r: Response)
        ensures
            r.spec_status() == 500,
            r.spec_headers() == Response::typed("text/plain; charset=utf-8"@),
            r.spec_body().spec_buffered() == Some(vstd::utf8::encode_utf8(self.spec_message())),
    {
        Response::error(500, self.message)
    }
}

/// Why a request cannot be upgraded to a WebSocket.
#[derive(Debug, Clone, Copy, PartialEq, Eq)]
pub enum WebSocketUpgradeError {
    /// The request does not ask for a WebSocket upgrade.
    NotWebSocket,
    /// The WebSocket version is not 13.
    Version,
    /// The `Sec-WebSocket-Key` header is missing or empty.
    MissingKey,
    /// The chosen subprotocol was not requested.
    Protocol,
    /// The serving runtime cannot upgrade this connection.
    Runtime,
}

/// The status and message a refused upgrade is answered with.
pub open spec fn upgrade_refusal(e: WebSocketUpgradeError) -> (u16, Seq<char>) {
    match e {
        WebSocketUpgradeError::NotWebSocket => (400u16, "request is not a WebSocket upgrade"@),
        WebSocketUpgradeError::Version => (426u16, "unsupported WebSocket version"@),
        WebSocketUpgradeError::MissingKey => (400u16, "WebSocket key is missing"@),
        WebSocketUpgradeError::Protocol => (400u16, "WebSocket protocol was not requested"@),
        WebSocketUpgradeError::Runtime => (500u16, "WebSocket runtime upgrade is unavailable"@),
    }
}

impl IntoResponse for WebSocketUpgradeError {
    /// A plain-text response with the refusal's status and message; an
    /// unsupported version also names the supported one, `13`.
    open spec fn response_for(self, r: Response) -> bool {
        let typed = Response::typed("text/plain; charset=utf-8"@);
        &&& r.spec_status() == upgrade_refusal(self).0
        &&& r.spec_body().spec_buffered() == Some(vstd::utf8::encode_utf8(upgrade_refusal(self).1))
        &&& r.spec_pending() is None
        &&& r.spec_headers() == if self is Version {
            crate::headers::without_named(typed, "Sec-WebSocket-Version"@, typed.len() as int).push(
                ("Sec-WebSocket-Version"@, seq![49u8, 51u8]),
            )
        } else {
            typed
        }
    }

    fn into_response(self) -> (r: Response)
    {
        match self {
            WebSocketUpgradeError::NotWebSocket => Response::error(400, "request is not a WebSocket upgrade".to_owned()),
            WebSocketUpgradeError::Version => {
                let mut response = Response::error(426, "unsupported WebSocket version".to_owned());
                let version: Vec<u8> = vec![49u8, 51u8];
                assert(version@ =~= seq![49u8, 51u8]);
                response.set_header("Sec-WebSocket-Version".to_owned(), version);
                response
            },
            WebSocketUpgradeError::MissingKey => Response::error(400, "WebSocket key is missing".to_owned()),
            WebSocketUpgradeError::Protocol => Response::error(400, "WebSocket protocol was not requested".to_owned()),
            WebSocketUpgradeError::Runtime => Response::error(500, "WebSocket runtime upgrade is unavailable".to_owned()),
        }
    }
}

/// Whether one of the `,`-separated items of `value`, trimmed, is `token`
/// regardless of case.
pub open spec fn has_token(value: Seq<char>, token: Seq<char>) -> bool {
    exists|i: int| 0 <= i < split_with(value, ',').len() && eq_ignore_case(trim(#[trigger] split_with(value, ',')[i]), token)
}

/// The trimmed, non-empty items of `pieces`, in order.
pub open spec fn nonempty_trimmed(pieces: Seq<Seq<char>>) -> Seq<Seq<char>>
    decreases pieces.len(),
{
    if pieces.len() == 0 {
        Seq::empty()
    } else {
        let rest = nonempty_trimmed(pieces.drop_last());
        if trim(pieces.last()).len() == 0 {
            rest
        } else {
            rest.push(trim(pieces.last()))
        }
    }
}

/// The subprotocols a request asks for.
pub open spec fn requested_protocols(entries: HeaderEntries) -> Seq<Seq<char>> {
    match header_text(entries, "sec-websocket-protocol"@) {
        Some(t) => nonempty_trimmed(split_with(t, ',')),
        None => Seq::empty(),
    }
}

/// What a request's headers say about upgrading it: the error, or its key
/// and requested subprotocols.
pub open spec fn upgrade_check(entries: HeaderEntries, runtime: bool) -> Result<(Seq<char>, Seq<Seq<char>>), WebSocketUpgradeError> {
    let upgrade = header_text(entries, "upgrade"@);
    let connection = header_text(entries, "connection"@);
    if !(upgrade matches Some(u) && eq_ignore_case(u, "websocket"@)) || !(connection matches Some(c) && has_token(c, "upgrade"@)) {
        Err(WebSocketUpgradeError::NotWebSocket)
    } else if header_text(entries, "sec-websocket-version"@) != Some("13"@) {
        Err(WebSocketUpgradeError::Version)
    } else {
        match header_text(entries, "sec-websocket-key"@) {
            Some(k) => if k.len() == 0 {
                Err(WebSocketUpgradeError::MissingKey)
            } else if !runtime {
                Err(WebSocketUpgradeError::Runtime)
            } else {
                Ok((k, requested_protocols(entries)))
            },
            None => Err(WebSocketUpgradeError::MissingKey),
        }
    }
}

/// A request that may be upgraded to a WebSocket: its key, the
/// subprotocols it requested, and the one chosen, if any.
#[derive(Debug)]
pub struct WebSocketUpgrade {
    key: String,
    requested_protocols: Vec<String>,
    selected_protocol: Option<String>,
}

/// What the serving runtime needs to complete an upgrade: the request's key
/// and the chosen subprotocol.
#[derive(Debug)]
pub struct WebSocketPlan {
    key: String,
    selected_protocol: Option<String>,
}

fn header_str<'a>(headers: &'a Headers, name: &str) -> (r: Option<&'a str>)
    ensures
        match header_text(headers.entries(), name@) {
            Some(t) => r matches Some(s) && s@ == t,
            None => r is None,
        },
{
    match headers.get(name) {
        Some(v) => crate::text::str_from_utf8(v),
        None => None,
    }
}

fn token_in(value: &str, token: &str) -> (r: bool)
    ensures
        r == has_token(value@, token@),
{
    let chars = chars_of(value);
    let parts = split_chars(chars.as_slice(), ',');
    let mut i: usize = 0;
    while i < parts.len()
        invariant
            i <= parts@.len(),
            parts@.len() == split_with(value@, ',').len(),
            forall|k: int| 0 <= k < parts@.len() ==> (#[trigger] parts@[k])@ == split_with(value@, ',')[k],
            forall|k: int| 0 <= k < i ==> !eq_ignore_case(trim(#[trigger] split_with(value@, ',')[k]), token@),
        decreases parts@.len() - i,
    {
        let t = trim_chars(parts[i].as_slice());
        let text = string_of(t.as_slice());
        if eq_ignore_ascii_case(text.as_str(), token) {
            assert(eq_ignore_case(trim(split_with(value@, ',')[i as int]), token@));
            return true;
        }
        i += 1;
    }
    false
}

fn protocol_list(value: &str) -> (r: Vec<String>)
    ensures
        r@.map_values(|s: String| s@) == nonempty_trimmed(split_with(value@, ',')),
{
    let chars = chars_of(value);
    let parts = split_chars(chars.as_slice(), ',');
    let ghost ps = split_with(value@, ',');
    let mut out: Vec<String> = Vec::new();
    let mut i: usize = 0;
    while i < parts.len()
        invariant
            i <= parts@.len(),
            parts@.len() == ps.len(),
            forall|k: int| 0 <= k < parts@.len() ==> (#[trigger] parts@[k])@ == ps[k],
            out@.map_values(|s: String| s@) == nonempty_trimmed(ps.take(i as int)),
        decreases parts@.len() - i,
    {
        let t = trim_chars(parts[i].as_slice());
        proof {
            assert(ps.take(i + 1).drop_last() =~= ps.take(i as int));
            assert(ps.take(i + 1).last() == parts@[i as int]@);
        }
        if t.len() > 0 {
            out.push(string_of(t.as_slice()));
            assert(out@.map_values(|s: String| s@) =~= nonempty_trimmed(ps.take(i as int)).push(t@));
        }
        i += 1;
    }
    assert(ps.take(ps.len() as int) =~= ps);
    out
}

impl WebSocketUpgrade {
    pub closed spec fn spec_key(&self) -> Seq<char> {
        self.key@
    }

    pub closed spec fn spec_requested(&self) -> Seq<Seq<char>> {
        self.requested_protocols@.map_values(|s: String| s@)
    }

    pub closed spec fn spec_selected(&self) -> Option<Seq<char>> {
        match self.selected_protocol {
            Some(p) => Some(p@),
            None => None,
        }
    }

    /// Checks a request's headers for a WebSocket upgrade; `runtime` says
    /// whether the serving runtime can upgrade the connection.
    pub fn from_headers(headers: &Headers, runtime: bool) -> (r: Result<WebSocketUpgrade, WebSocketUpgradeError>)
        ensures
            match upgrade_check(headers.entries(), runtime) {
                Ok((k, ps)) => r matches Ok(u) && u.spec_key() == k && u.spec_requested() == ps && u.spec_selected() is None,
                Err(e) => r == Err::<WebSocketUpgrade, WebSocketUpgradeError>(e),
            },
    {
        proof {
            reveal_strlit("13");
        }
        let upgrade = header_str(headers, "upgrade");
        let connection = header_str(headers, "connection");
        let upgrade_ok = match upgrade {
            Some(u) => eq_ignore_ascii_case(u, "websocket"),
            None => false,
        };
        let connection_ok = match connection {
            Some(c) => token_in(c, "upgrade"),
            None => false,
        };
        if !upgrade_ok || !connection_ok {
            return Err(WebSocketUpgradeError::NotWebSocket);
        }
        let version_ok = match header_str(headers, "sec-websocket-version") {
            Some(v) => {
                let vc = chars_of(v);
                let ok = vc.len() == 2 && vc[0] == '1' && vc[1] == '3';
                assert(ok == (v@ == "13"@)) by {
                    if vc@.len() == 2 && vc@[0] == '1' && vc@[1] == '3' {
                        assert(vc@ =~= "13"@);
                    }
                }
                ok
            },
            None => false,
        };
        if !version_ok {
            return Err(WebSocketUpgradeError::Version);
        }
        let key = match header_str(headers, "sec-websocket-key") {
            Some(k) => {
                let kc = chars_of(k);
                if kc.len() == 0 {
                    return Err(WebSocketUpgradeError::MissingKey);
                }
                k.to_owned()
            },
            None => {
                return Err(WebSocketUpgradeError::MissingKey);
            },
        };
        if !runtime {
            return Err(WebSocketUpgradeError::Runtime);
        }
        let requested_protocols = match header_str(headers, "sec-websocket-protocol") {
            Some(p) => protocol_list(p),
            None => Vec::new(),
        };
        proof {
            if header_text(headers.entries(), "sec-websocket-protocol"@) is None {
                assert(requested_protocols@.map_values(|s: String| s@) =~= Seq::<Seq<char>>::empty());
            }
        }
        Ok(WebSocketUpgrade { key, requested_protocols, selected_protocol: None })
    }

    /// The subprotocols the request asked for, in order.
    pub fn protocols(&self) -> (r: &Vec<String>)
        ensures
            r@.map_values(|s: String| s@) == self.spec_requested(),
    {
        &self.requested_protocols
    }

    /// Chooses `protocol`, which the request must have asked for.
    pub fn protocol(self, protocol: String) -> (r: Result<WebSocketUpgrade, WebSocketUpgradeError>)
        ensures
            self.spec_requested().contains(protocol@) ==> (r matches Ok(u) && u.spec_key() == self.spec_key()
                && u.spec_requested() == self.spec_requested() && u.spec_selected() == Some(protocol@)),
            !self.spec_requested().contains(protocol@) ==> r == Err::<WebSocketUpgrade, WebSocketUpgradeError>(
                WebSocketUpgradeError::Protocol,
            ),
    {
        let mut i: usize = 0;
        let ghost req = self.spec_requested();
        while i < self.requested_protocols.len()
            invariant
                i <= self.requested_protocols@.len(),
                req == self.requested_protocols@.map_values(|s: String| s@),
                forall|k: int| 0 <= k < i ==> req[k] != protocol@,
            decreases self.requested_protocols@.len() - i,
        {
            let a = chars_of(self.requested_protocols[i].as_str());
            let b = chars_of(protocol.as_str());
            if crate::text::chars_equal(a.as_slice(), b.as_slice()) {
                assert(req[i as int] == protocol@);
                let mut upgrade = self;
                upgrade.selected_protocol = Some(protocol);
                return Ok(upgrade);
            }
            i += 1;
        }
        assert(!req.contains(protocol@));
        Err(WebSocketUpgradeError::Protocol)
    }

    /// The `101` response that completes the upgrade; the serving runtime
    /// then runs the socket's handler.
    pub fn on_upgrade(self) -> (r: Response)
        ensures
            r.spec_status() == 101,
            r.spec_body() matches crate::response::ResponseBody::WebSocket(p) && p.spec_key() == self.spec_key()
                && p.spec_selected() == self.spec_selected(),
            r.spec_headers() == match self.spec_selected() {
                Some(p) => seq![("Sec-WebSocket-Protocol"@, encode_utf8(p))],
                None => Seq::empty(),
            },
            r.spec_pending() is None,
    {
        Response::websocket(self.plan())
    }

    /// What the serving runtime needs to complete the upgrade.
    pub fn plan(self) -> (r: WebSocketPlan)
        ensures
            r.spec_key() == self.spec_key(),
            r.spec_selected() == self.spec_selected(),
    {
        WebSocketPlan { key: self.key, selected_protocol: self.selected_protocol }
    }
}

impl WebSocketPlan {
    pub closed spec fn spec_key(&self) -> Seq<char> {
        self.key@
    }

    pub closed spec fn spec_selected(&self) -> Option<Seq<char>> {
        match self.selected_protocol {
            Some(p) => Some(p@),
            None => None,
        }
    }

    pub fn key(&self) -> (r: &str)
        ensures
            r@ == self.spec_key(),
    {
        self.key.as_str()
    }

    pub fn selected_protocol(&self) -> (r: Option<&str>)
        ensures
            match self.spec_selected() {
                Some(p) => r matches Some(s) && s@ == p,
                None => r is None,
            },
    {
        match &self.selected_protocol {
            Some(p) => Some(p.as_str()),
            None => None,
        }
    }
}

} // verus!
