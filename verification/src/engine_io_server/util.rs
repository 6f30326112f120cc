//! Request context, server errors and cookies.
use vstd::prelude::*;
use crate::engine_io_parser::packet::ParsePacketError;
use crate::engine_io_server::server::CookieOptions;
use crate::engine_io_server::transport::TransportKind;
use crate::string_map::{copy_string, owned, str_eq, StringMap};

verus! {

/// What the server knows of an HTTP request.
#[derive(Debug)]
pub struct RequestContext {
    pub query: StringMap,
    pub headers: StringMap,
    pub origin: Option<String>,
    pub secure: bool,
    pub user_agent: String,
    pub content_type: String,
    pub transport_kind: TransportKind,
    pub http_method: HttpMethod,
    pub remote_address: String,
    pub request_url: String,
    pub set_cookie: Option<SetCookie>,
}

/// The view of an optional string.
pub open spec fn opt_str_view(o: Option<String>) -> Option<Seq<char>> {
    match o {
        Some(s) => Some(s@),
        None => None,
    }
}

/// A copy of an optional string.
pub fn copy_opt_string(o: &Option<String>) -> (r: Option<String>)
    ensures
        opt_str_view(r) == opt_str_view(*o),
{
    match o {
        Some(s) => Some(copy_string(s)),
        None => None,
    }
}

impl RequestContext {
    /// The query and the headers are well formed.
    pub open spec fn wf(&self) -> bool {
        self.query.wf() && self.headers.wf()
    }

    /// `self` and `other` hold the same request, whatever their cookies.
    pub open spec fn same_request(&self, other: &RequestContext) -> bool {
        &&& self.query@ == other.query@
        &&& self.headers@ == other.headers@
        &&& opt_str_view(self.origin) == opt_str_view(other.origin)
        &&& self.secure == other.secure
        &&& self.user_agent@ == other.user_agent@
        &&& self.content_type@ == other.content_type@
        &&& self.transport_kind == other.transport_kind
        &&& self.http_method == other.http_method
        &&& self.remote_address@ == other.remote_address@
        &&& self.request_url@ == other.request_url@
    }

    /// A copy of this request context with the given cookie to set.
    pub fn with_set_cookie(&self, set_cookie: Option<SetCookie>) -> (r: RequestContext)
        requires
            self.wf(),
        ensures
            r.wf(),
            r.same_request(self),
            r.set_cookie == set_cookie,
    {
        RequestContext {
            query: self.query.copy(),
            headers: self.headers.copy(),
            origin: copy_opt_string(&self.origin),
            secure: self.secure,
            user_agent: copy_string(&self.user_agent),
            content_type: copy_string(&self.content_type),
            transport_kind: self.transport_kind,
            http_method: self.http_method,
            remote_address: copy_string(&self.remote_address),
            request_url: copy_string(&self.request_url),
            set_cookie,
        }
    }
}

/// The method of an HTTP request.
#[derive(Debug, Copy, Clone, PartialEq, Eq, Structural)]
pub enum HttpMethod {
    Options,
    Get,
    Post,
    Put,
    Delete,
    Head,
    Trace,
    Connect,
    Patch,
}

/// Errors that the server answers a request with.
#[derive(Debug, Copy, Clone, PartialEq, Eq, Structural)]
pub enum ServerError {
    UnknownTransport,
    UnknownSid,
    BadHandshakeMethod,
    BadRequest,
    Forbidden,
    Unknown,
    ShuttingDown,
}

/// The code of a server error.
pub open spec fn server_error_code(e: ServerError) -> i8 {
    match e {
        ServerError::UnknownTransport => 0i8,
        ServerError::UnknownSid => 1i8,
        ServerError::BadHandshakeMethod => 2i8,
        ServerError::BadRequest => 3i8,
        ServerError::Forbidden => 4i8,
        ServerError::Unknown => -1i8,
        ServerError::ShuttingDown => -99i8,
    }
}

/// The message of a server error.
pub open spec fn server_error_message(e: ServerError) -> Seq<char> {
    match e {
        ServerError::UnknownTransport => "Transport unknown"@,
        ServerError::UnknownSid => "Session ID unknown"@,
        ServerError::BadHandshakeMethod => "Bad handshake method"@,
        ServerError::BadRequest => "Bad request"@,
        ServerError::Forbidden => "Forbidden"@,
        ServerError::Unknown => "Unknown"@,
        ServerError::ShuttingDown => "Server is shutting down"@,
    }
}

/// No two server errors have the same message, so a message gives its
/// error back (see [`ServerError::from_message`]).
pub proof fn law_server_error_messages_distinct(a: ServerError, b: ServerError)
    requires
        server_error_message(a) == server_error_message(b),
    ensures
        a == b,
{
    reveal_strlit("Transport unknown");
    reveal_strlit("Session ID unknown");
    reveal_strlit("Bad handshake method");
    reveal_strlit("Bad request");
    reveal_strlit("Forbidden");
    reveal_strlit("Unknown");
    reveal_strlit("Server is shutting down");
    assert(server_error_message(a).len() == server_error_message(b).len());
    match a {
        ServerError::UnknownTransport => assert(server_error_message(a).len() == 17),
        ServerError::UnknownSid => assert(server_error_message(a).len() == 18),
        ServerError::BadHandshakeMethod => assert(server_error_message(a).len() == 20),
        ServerError::BadRequest => assert(server_error_message(a).len() == 11),
        ServerError::Forbidden => assert(server_error_message(a).len() == 9),
        ServerError::Unknown => assert(server_error_message(a).len() == 7),
        ServerError::ShuttingDown => assert(server_error_message(a).len() == 23),
    }
    match b {
        ServerError::UnknownTransport => assert(server_error_message(b).len() == 17),
        ServerError::UnknownSid => assert(server_error_message(b).len() == 18),
        ServerError::BadHandshakeMethod => assert(server_error_message(b).len() == 20),
        ServerError::BadRequest => assert(server_error_message(b).len() == 11),
        ServerError::Forbidden => assert(server_error_message(b).len() == 9),
        ServerError::Unknown => assert(server_error_message(b).len() == 7),
        ServerError::ShuttingDown => assert(server_error_message(b).len() == 23),
    }
}

impl ServerError {
    /// The error's code.
    pub fn code(&self) -> (c: i8)
        ensures
            c == server_error_code(*self),
    {
        match self {
            ServerError::UnknownTransport => 0,
            ServerError::UnknownSid => 1,
            ServerError::BadHandshakeMethod => 2,
            ServerError::BadRequest => 3,
            ServerError::Forbidden => 4,
            ServerError::Unknown => -1,
            ServerError::ShuttingDown => -99,
        }
    }

    /// The error's message.
    pub fn message(&self) -> (m: &'static str)
        ensures
            m@ == server_error_message(*self),
    {
        match self {
            ServerError::UnknownTransport => "Transport unknown",
            ServerError::UnknownSid => "Session ID unknown",
            ServerError::BadHandshakeMethod => "Bad handshake method",
            ServerError::BadRequest => "Bad request",
            ServerError::Forbidden => "Forbidden",
            ServerError::Unknown => "Unknown",
            ServerError::ShuttingDown => "Server is shutting down",
        }
    }

    /// The error's message, as `Display` shows it.
    pub fn to_string(&self) -> (s: String)
        ensures
            s@ == server_error_message(*self),
    {
        owned(self.message())
    }

    /// The error whose message is `s`, if any.
    pub fn from_message(s: &str) -> (r: Option<ServerError>)
        ensures
            r matches Some(e) ==> server_error_message(e) == s@,
            r is None ==> forall|e: ServerError| server_error_message(e) != s@,
    {
        let all = [
            ServerError::UnknownTransport,
            ServerError::UnknownSid,
            ServerError::BadHandshakeMethod,
            ServerError::BadRequest,
            ServerError::Forbidden,
            ServerError::Unknown,
            ServerError::ShuttingDown,
        ];
        let mut i: usize = 0;
        while i < 7
            invariant
                all@ == seq![
                    ServerError::UnknownTransport,
                    ServerError::UnknownSid,
                    ServerError::BadHandshakeMethod,
                    ServerError::BadRequest,
                    ServerError::Forbidden,
                    ServerError::Unknown,
                    ServerError::ShuttingDown,
                ],
                i <= 7,
                forall|j: int| 0 <= j < i ==> server_error_message(all@[j]) != s@,
            decreases 7 - i,
        {
            if str_eq(all[i].message(), s) {
                return Some(all[i]);
            }
            i = i + 1;
        }
        assert forall|e: ServerError| server_error_message(e) != s@ by {
            match e {
                ServerError::UnknownTransport => assert(all@[0] == e),
                ServerError::UnknownSid => assert(all@[1] == e),
                ServerError::BadHandshakeMethod => assert(all@[2] == e),
                ServerError::BadRequest => assert(all@[3] == e),
                ServerError::Forbidden => assert(all@[4] == e),
                ServerError::Unknown => assert(all@[5] == e),
                ServerError::ShuttingDown => assert(all@[6] == e),
            }
        }
        None
    }

    /// A packet that could not be decoded is a bad request.
    pub fn from_parse_error(_e: ParsePacketError) -> (r: ServerError)
        ensures
            r == ServerError::BadRequest,
    {
        ServerError::BadRequest
    }
}

/// The code and message of a server error, as sent to clients.
#[derive(Debug)]
pub struct ServerErrorMessage {
    pub code: i8,
    pub message: String,
}

impl ServerErrorMessage {
    /// The code and message of `server_error`.
    pub fn from_server_error(server_error: ServerError) -> (m: ServerErrorMessage)
        ensures
            m.code == server_error_code(server_error),
            m.message@ == server_error_message(server_error),
    {
        ServerErrorMessage { code: server_error.code(), message: server_error.to_string() }
    }
}

/// A cookie to set in the response to a handshake.
#[derive(Debug)]
pub struct SetCookie {
    pub name: String,
    pub value: String,
    pub path: String,
    pub http_only: bool,
    pub same_site: bool,
}

impl SetCookie {
    /// The cookie that the cookie options ask for, holding `value`; none
    /// without options. It is always `SameSite`.
    pub fn from_cookie_options(cookie_options: &Option<CookieOptions>, value: String) -> (r: Option<
        SetCookie,
    >)
        ensures
            r is Some <==> cookie_options is Some,
            r matches Some(c) ==> ({
                let o = cookie_options->Some_0;
                &&& c.name@ == o.name@
                &&& c.value == value
                &&& c.path@ == o.path@
                &&& c.http_only == o.http_only
                &&& c.same_site
            }),
    {
        match cookie_options {
            Some(options) => Some(
                SetCookie {
                    name: copy_string(&options.name),
                    value,
                    path: copy_string(&options.path),
                    http_only: options.http_only,
                    same_site: true,
                },
            ),
            None => None,
        }
    }
}

/// Errors of sending a packet to a client.
#[derive(Debug, Copy, Clone, PartialEq, Eq, Structural)]
pub enum SendPacketError {
    UnknownConnectionId,
}

} // verus!
