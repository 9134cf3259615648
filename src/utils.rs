//! `ws://` and `wss://` URIs: parsing, and what a connection needs from them.
use vstd::prelude::*;

use crate::errors::URIError;
use crate::primitives::{decimal_text, parse_uri, u16_to_string, uri_parts_of};

verus! {

pub const DEFAULT_PORT_SECURE: u16 = 443;

pub const DEFAULT_PORT_INSECURE: u16 = 80;

/// The authority of a URI: its host and, if written, its port as written.
#[derive(Debug, Clone, PartialEq, Eq)]
pub struct Authority {
    pub host: String,
    pub port: Option<String>,
}

/// A parsed absolute URI, its components as written.
#[derive(Debug, Clone, PartialEq, Eq)]
pub struct Uri {
    pub scheme: String,
    pub authority: Option<Authority>,
    pub path: String,
    pub query: Option<String>,
}

pub struct AuthorityView {
    pub host: Seq<char>,
    pub port: Option<Seq<char>>,
}

pub struct UriView {
    pub scheme: Seq<char>,
    pub authority: Option<AuthorityView>,
    pub path: Seq<char>,
    pub query: Option<Seq<char>>,
}

pub open spec fn opt_view(s: Option<String>) -> Option<Seq<char>> {
    match s {
        Some(v) => Some(v@),
        None => None,
    }
}

impl View for Authority {
    type V = AuthorityView;

    open spec fn view(&self) -> AuthorityView {
        AuthorityView { host: self.host@, port: opt_view(self.port) }
    }
}

impl View for Uri {
    type V = UriView;

    open spec fn view(&self) -> UriView {
        UriView {
            scheme: self.scheme@,
            authority: match self.authority {
                Some(a) => Some(a@),
                None => None,
            },
            path: self.path@,
            query: opt_view(self.query),
        }
    }
}

pub open spec fn is_digit(c: char) -> bool {
    '0' <= c <= '9'
}

pub open spec fn all_digits(s: Seq<char>) -> bool {
    forall|i: int| 0 <= i < s.len() ==> is_digit(#[trigger] s[i])
}

/// The number that the decimal digits `s` spell.
pub open spec fn digits_value(s: Seq<char>) -> nat
    decreases s.len(),
{
    if s.len() == 0 {
        0
    } else {
        digits_value(s.drop_last()) * 10 + (s.last() as nat - '0' as nat) as nat
    }
}

/// The port that a URI with `scheme` and port text `port` names: the
/// default of the scheme when the port is absent or empty, else the number
/// it spells; `None` when that is no number from 0 to 65535.
pub open spec fn port_of(scheme: Seq<char>, port: Option<Seq<char>>) -> Option<u16> {
    match port {
        Some(p) if p.len() > 0 => if all_digits(p) && digits_value(p) <= 65535 {
            Some(digits_value(p) as u16)
        } else {
            None
        },
        _ => if scheme == "wss"@ {
            Some(DEFAULT_PORT_SECURE)
        } else {
            Some(DEFAULT_PORT_INSECURE)
        },
    }
}

/// The request target: the path, `/` when it is empty, then `?` and the
/// query when there is a non-empty one.
pub open spec fn target_of(u: UriView) -> Seq<char> {
    let path = if u.path.len() == 0 {
        "/"@
    } else {
        u.path
    };
    match u.query {
        Some(q) if q.len() > 0 => path + "?"@ + q,
        _ => path,
    }
}

pub open spec fn is_ws_scheme(scheme: Seq<char>) -> bool {
    scheme == "ws"@ || scheme == "wss"@
}

/// No URI, or one of another scheme.
pub open spec fn malformed_uri(p: Option<UriView>) -> bool {
    match p {
        Some(u) => !is_ws_scheme(u.scheme),
        None => true,
    }
}

/// A WebSocket URI without an authority.
pub open spec fn incomplete_uri(p: Option<UriView>) -> bool {
    match p {
        Some(u) => is_ws_scheme(u.scheme) && u.authority is None,
        None => false,
    }
}

/// A WebSocket URI with an authority.
pub open spec fn accepted_uri(p: Option<UriView>) -> bool {
    match p {
        Some(u) => is_ws_scheme(u.scheme) && u.authority is Some,
        None => false,
    }
}

/// Accepts a parsed URI for a connection: its scheme must be `ws` or `wss`
/// (else it is malformed) and it must have an authority (else it is
/// incomplete).
pub fn validate_uri(uri: Uri) -> (r: Result<Uri, URIError>)
    ensures
        r is Ok <==> accepted_uri(Some(uri@)),
        r matches Ok(u) ==> u == uri,
        malformed_uri(Some(uri@)) ==> r matches Err(URIError::MalformedURIError(_)),
        incomplete_uri(Some(uri@)) ==> r matches Err(URIError::IncompleteURIError(_)),
{
    if uri.scheme != String::from_str("ws") && uri.scheme != String::from_str("wss") {
        return Err(URIError::MalformedURIError(String::from_str("Unsupported scheme")));
    }
    if uri.authority.is_none() {
        return Err(URIError::IncompleteURIError(String::from_str("Authority for the URI is not found")));
    }
    Ok(uri)
}

/// Parses a `ws://` or `wss://` URI. A string that is no URI, or whose
/// scheme is another, is malformed; one without an authority is incomplete.
pub fn get_uri(uri_string: String) -> (r: Result<Uri, URIError>)
    ensures
        r is Ok <==> accepted_uri(uri_parts_of(uri_string@)),
        r matches Ok(u) ==> uri_parts_of(uri_string@) == Some(u@),
        malformed_uri(uri_parts_of(uri_string@)) ==> r matches Err(URIError::MalformedURIError(_)),
        incomplete_uri(uri_parts_of(uri_string@)) ==> r matches Err(
            URIError::IncompleteURIError(_),
        ),
{
    match parse_uri(uri_string.as_str()) {
        Ok(u) => validate_uri(u),
        Err(e) => Err(URIError::MalformedURIError(e)),
    }
}

pub fn get_host(auth: &Authority) -> (r: String)
    ensures
        r@ == auth.host@,
{
    auth.host.clone()
}

/// Whether the URI asks for TLS: its scheme is `wss`.
pub fn is_secured(uri: &Uri) -> (r: bool)
    ensures
        r == (uri.scheme@ == "wss"@),
{
    uri.scheme == String::from_str("wss")
}

/// The port to connect to.
pub fn get_port(uri: &Uri) -> (r: Result<u16, URIError>)
    ensures
        uri@.authority is None ==> r matches Err(URIError::IncompleteURIError(_)),
        uri@.authority matches Some(a) ==> match port_of(uri@.scheme, a.port) {
            Some(p) => r == Ok::<u16, URIError>(p),
            None => r matches Err(URIError::BadPortError(_)),
        },
{
    let auth = match &uri.authority {
        Some(a) => a,
        None => {
            return Err(URIError::IncompleteURIError(String::from_str("Authority for the URI is not found")));
        },
    };
    match &auth.port {
        Some(p) => {
            if p.as_str().unicode_len() > 0 {
                return match parse_port(p.as_str()) {
                    Some(n) => Ok(n),
                    None => Err(URIError::BadPortError(p.clone())),
                };
            }
        },
        None => {},
    }
    if is_secured(uri) {
        Ok(DEFAULT_PORT_SECURE)
    } else {
        Ok(DEFAULT_PORT_INSECURE)
    }
}

proof fn lemma_digits_value_grows(s: Seq<char>, k: int)
    requires
        0 <= k <= s.len(),
        all_digits(s),
    ensures
        digits_value(s.subrange(0, k)) <= digits_value(s),
    decreases s.len() - k,
{
    if k < s.len() {
        let t = s.subrange(0, k + 1);
        assert(t.drop_last() =~= s.subrange(0, k));
        assert(is_digit(s[k]));
        lemma_digits_value_grows(s, k + 1);
    } else {
        assert(s.subrange(0, k) =~= s);
    }
}

/// The number that the decimal digits `text` spell, if it is at most 65535.
fn parse_port(text: &str) -> (r: Option<u16>)
    ensures
        match r {
            Some(n) => all_digits(text@) && digits_value(text@) <= 65535 && n == digits_value(
                text@,
            ),
            None => !(all_digits(text@) && digits_value(text@) <= 65535),
        },
{
    let n = text.unicode_len();
    let mut acc: u32 = 0;
    let mut i: usize = 0;
    while i < n
        invariant
            n == text@.len(),
            i <= n,
            all_digits(text@.subrange(0, i as int)),
            acc == digits_value(text@.subrange(0, i as int)),
            acc <= 65535,
        decreases n - i,
    {
        let c = text.get_char(i);
        let ghost next = text@.subrange(0, i + 1);
        assert(next.drop_last() =~= text@.subrange(0, i as int));
        if c < '0' || c > '9' {
            assert(!is_digit(text@[i as int]));
            return None;
        }
        let d = (c as u32) - ('0' as u32);
        let v = acc * 10 + d;
        assert(next =~= text@.subrange(0, i as int).push(c));
        if v > 65535 {
            proof {
                if all_digits(text@) {
                    lemma_digits_value_grows(text@, i + 1);
                }
            }
            return None;
        }
        acc = v;
        i = i + 1;
    }
    assert(text@.subrange(0, n as int) =~= text@);
    Some(acc as u16)
}

/// `host:port`, the address to open a connection to.
pub fn get_socket_address(uri: &Uri) -> (r: Result<String, URIError>)
    ensures
        uri@.authority is None ==> r matches Err(URIError::IncompleteURIError(_)),
        uri@.authority matches Some(a) ==> match port_of(uri@.scheme, a.port) {
            Some(p) => r matches Ok(s) && s@ == a.host + ":"@ + decimal_text(p as nat),
            None => r matches Err(URIError::BadPortError(_)),
        },
{
    let host = match &uri.authority {
        Some(a) => get_host(a),
        None => {
            return Err(URIError::IncompleteURIError(String::from_str("Authority for the URI is not found")));
        },
    };
    let port = match get_port(uri) {
        Ok(p) => p,
        Err(e) => {
            return Err(e);
        },
    };
    let mut addr = host;
    addr.append(":");
    let digits = u16_to_string(port);
    addr.append(digits.as_str());
    Ok(addr)
}

/// The request target of the URI: its path, `/` when empty, then `?` and
/// the query when there is a non-empty one.
pub fn get_resource_target(uri: &Uri) -> (r: Result<String, URIError>)
    ensures
        r matches Ok(t) && t@ == target_of(uri@),
{
    let mut target = if uri.path.as_str().unicode_len() == 0 {
        String::from_str("/")
    } else {
        uri.path.clone()
    };
    match &uri.query {
        Some(q) => {
            if q.as_str().unicode_len() > 0 {
                target.append("?");
                target.append(q.as_str());
            }
        },
        None => {},
    }
    Ok(target)
}

} // verus!
