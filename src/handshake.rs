//! The opening handshake: the HTTP Upgrade request, and the checks on the
//! server's answer, down to the accept key.
use vstd::prelude::*;

use crate::errors::{HandshakeFailureError, URIError, WebSocketError};
use crate::primitives::{
    base64_encode, base64_of, fill_random, lossy_utf8_of, lowercase_of, sha1_digest, sha1_of,
    to_lowercase, trim, trimmed_of, utf8_lossy,
};
use crate::utils::{get_host, get_resource_target, target_of, Uri};
use vstd::utf8::{
    decode_utf8, encode_utf8, encode_utf8_decode_utf8, encode_utf8_valid_utf8, is_ascii_chars,
    is_ascii_chars_encode_utf8, valid_utf8, valid_utf8_concat,
};

verus! {

/// The status line of a server that agrees to the upgrade.
pub const EXPECTED_STATUS_LINE: &'static str = "HTTP/1.1 101 Switching Protocols";

/// The response header that carries the accept key, in lower case.
pub const ACCEPT_KEY_NAME: &'static str = "sec-websocket-accept";

/// The GUID that RFC 6455 appends to the key before hashing it.
pub const GUID: &'static str = "258EAFA5-E914-47DA-95CA-C5AB0DC85B11";

/// The accept key that answers `security_key`: the base64 encoding of the
/// SHA-1 digest of the key followed by the GUID.
pub open spec fn accept_key_for(security_key: Seq<char>) -> Seq<char> {
    base64_of(sha1_of(encode_utf8(security_key + GUID@)))
}

/// The Upgrade request for `target` on `host`, offering `key`.
pub open spec fn request_text(target: Seq<char>, host: Seq<char>, key: Seq<char>) -> Seq<char> {
    "GET "@ + target + " HTTP/1.1\r\n"@ + "Host: "@ + host + "\r\n"@ + "Connection: Upgrade\r\n"@
        + "Upgrade: websocket\r\n"@ + "Sec-WebSocket-Key: "@ + key + "\r\n"@
        + "Sec-WebSocket-Version: 13\r\n"@ + "\r\n"@
}

/// `s` cut at each CRLF, left to right; the pieces hold no separator. There
/// is always at least one piece.
pub open spec fn split_lines(s: Seq<char>) -> Seq<Seq<char>>
    decreases s.len(),
{
    if s.len() == 0 {
        seq![Seq::empty()]
    } else if s.len() >= 2 && s[0] == '\r' && s[1] == '\n' {
        seq![Seq::<char>::empty()] + split_lines(s.subrange(2, s.len() as int))
    } else {
        let rest = split_lines(s.drop_first());
        rest.update(0, seq![s[0]] + rest[0])
    }
}

/// `j` is the position of the first colon in `line`.
pub open spec fn first_colon(line: Seq<char>, j: int) -> bool {
    &&& 0 <= j < line.len()
    &&& line[j] == ':'
    &&& forall|k: int| 0 <= k < j ==> line[k] != ':'
}

/// The header that a response line holds, if it holds a colon: the text
/// before the first colon, trimmed and in lower case, and the text after it,
/// trimmed.
pub open spec fn header_entry(line: Seq<char>) -> Option<(Seq<char>, Seq<char>)> {
    if exists|j: int| first_colon(line, j) {
        let j = choose|j: int| first_colon(line, j);
        Some(
            (
                lowercase_of(trimmed_of(line.subrange(0, j))),
                trimmed_of(line.subrange(j + 1, line.len() as int)),
            ),
        )
    } else {
        None
    }
}

/// The headers that `lines` hold, in order.
pub open spec fn header_entries(lines: Seq<Seq<char>>) -> Seq<(Seq<char>, Seq<char>)>
    decreases lines.len(),
{
    if lines.len() == 0 {
        Seq::empty()
    } else {
        let rest = header_entries(lines.drop_last());
        match header_entry(lines.last()) {
            Some(e) => rest.push(e),
            None => rest,
        }
    }
}

/// The value of the last header named `name`: a later header of the same
/// name replaces an earlier one.
pub open spec fn header_value(entries: Seq<(Seq<char>, Seq<char>)>, name: Seq<char>) -> Option<
    Seq<char>,
>
    decreases entries.len(),
{
    if entries.len() == 0 {
        None
    } else if entries.last().0 == name {
        Some(entries.last().1)
    } else {
        header_value(entries.drop_last(), name)
    }
}

pub open spec fn lines_view(lines: Seq<String>) -> Seq<Seq<char>> {
    lines.map_values(|l: String| l@)
}

pub open spec fn entries_view(entries: Seq<(String, String)>) -> Seq<(Seq<char>, Seq<char>)> {
    entries.map_values(|e: (String, String)| (e.0@, e.1@))
}

/// `lines` with `p` put in front of the first one.
pub open spec fn prepend_first(p: Seq<char>, lines: Seq<Seq<char>>) -> Seq<Seq<char>> {
    lines.update(0, p + lines[0])
}

proof fn lemma_split_lines_nonempty(s: Seq<char>)
    ensures
        split_lines(s).len() >= 1,
    decreases s.len(),
{
    if s.len() > 0 {
        if s.len() >= 2 && s[0] == '\r' && s[1] == '\n' {
            lemma_split_lines_nonempty(s.subrange(2, s.len() as int));
        } else {
            lemma_split_lines_nonempty(s.drop_first());
        }
    }
}

/// Cuts `text` at each CRLF.
pub fn split_crlf(text: &str) -> (r: Vec<String>)
    ensures
        lines_view(r@) == split_lines(text@),
{
    let n = text.unicode_len();
    let ghost s = text@;
    let mut out: Vec<String> = Vec::new();
    let mut start: usize = 0;
    let mut i: usize = 0;
    proof {
        assert(s.subrange(0, n as int) =~= s);
        lemma_split_lines_nonempty(s);
        assert(prepend_first(Seq::empty(), split_lines(s)) =~= split_lines(s));
        assert(lines_view(out@) =~= Seq::<Seq<char>>::empty());
        assert(s.subrange(0, 0) =~= Seq::<char>::empty());
    }
    while i < n
        invariant
            n == s.len(),
            s == text@,
            start <= i <= n,
            lines_view(out@) + prepend_first(
                s.subrange(start as int, i as int),
                split_lines(s.subrange(i as int, n as int)),
            ) == split_lines(s),
        decreases n - i,
    {
        let ghost rest = s.subrange(i as int, n as int);
        let ghost p = s.subrange(start as int, i as int);
        if i + 1 < n && text.get_char(i) == '\r' && text.get_char(i + 1) == '\n' {
            let line = String::from_str(text.substring_char(start, i));
            proof {
                let tail = s.subrange(i + 2, n as int);
                assert(rest.subrange(2, rest.len() as int) =~= tail);
                lemma_split_lines_nonempty(tail);
                assert(prepend_first(p, split_lines(rest)) =~= seq![p] + split_lines(tail));
                assert(prepend_first(Seq::empty(), split_lines(tail)) =~= split_lines(tail));
                assert(s.subrange(i + 2, i + 2) =~= Seq::<char>::empty());
                assert(lines_view(out@.push(line)) =~= lines_view(out@).push(p));
            }
            out.push(line);
            i = i + 2;
            start = i;
        } else {
            proof {
                let tail = s.subrange(i + 1, n as int);
                assert(rest.drop_first() =~= tail);
                lemma_split_lines_nonempty(tail);
                let lt = split_lines(tail);
                assert(split_lines(rest) == lt.update(0, seq![s[i as int]] + lt[0]));
                assert(s.subrange(start as int, i + 1) =~= p + seq![s[i as int]]);
                assert(p + (seq![s[i as int]] + lt[0]) =~= (p + seq![s[i as int]]) + lt[0]);
                assert(prepend_first(p, split_lines(rest)) =~= prepend_first(
                    s.subrange(start as int, i + 1),
                    lt,
                ));
            }
            i = i + 1;
        }
    }
    let last = String::from_str(text.substring_char(start, n));
    proof {
        let p = s.subrange(start as int, n as int);
        assert(s.subrange(n as int, n as int) =~= Seq::<char>::empty());
        assert(prepend_first(p, split_lines(Seq::empty())) =~= seq![p]);
        assert(lines_view(out@.push(last)) =~= lines_view(out@).push(p));
    }
    out.push(last);
    out
}

/// The header that `line` holds, if it holds a colon.
pub fn parse_header_line(line: &str) -> (r: Option<(String, String)>)
    ensures
        match r {
            Some(e) => header_entry(line@) == Some((e.0@, e.1@)),
            None => header_entry(line@) is None,
        },
{
    let n = line.unicode_len();
    let mut j: usize = 0;
    while j < n
        invariant
            n == line@.len(),
            j <= n,
            forall|k: int| 0 <= k < j ==> line@[k] != ':',
        decreases n - j,
    {
        if line.get_char(j) == ':' {
            assert(first_colon(line@, j as int));
            let ghost c = choose|c: int| first_colon(line@, c);
            assert(c == j) by {
                if c < j {
                    assert(line@[c] != ':');
                } else if c > j {
                    assert(line@[j as int] != ':');
                }
            }
            let key = to_lowercase(trim(line.substring_char(0, j)));
            let value = String::from_str(trim(line.substring_char(j + 1, n)));
            return Some((key, value));
        }
        j = j + 1;
    }
    assert(!exists|c: int| first_colon(line@, c));
    None
}

/// The status line and the headers of the server's answer to the upgrade.
#[derive(Debug)]
pub struct HandshakeHeaders {
    pub http_version: String,
    pub http_status_code: String,
    pub http_status_text: String,
    /// The headers in the order of the response, names in lower case.
    pub headers: Vec<(String, String)>,
}

impl HandshakeHeaders {
    /// Reads the server's answer: the first line must be the status line of
    /// an accepted upgrade; every line with a colon is a header.
    pub fn new(data: &str) -> (r: Result<HandshakeHeaders, WebSocketError>)
        ensures
            r is Ok <==> split_lines(data@)[0] == EXPECTED_STATUS_LINE@,
            r matches Ok(h) ==> h.http_version@ == "HTTP/1.1"@ && h.http_status_code@ == "101"@
                && h.http_status_text@ == "Switching Protocols"@ && entries_view(h.headers@)
                == header_entries(split_lines(data@)),
            r matches Err(e) ==> e matches WebSocketError::Handshake(
                HandshakeFailureError::HeaderError(_),
            ),
    {
        let lines = split_crlf(data);
        proof {
            lemma_split_lines_nonempty(data@);
        }
        assert(lines@[0]@ == lines_view(lines@)[0]);
        if lines[0] != String::from_str(EXPECTED_STATUS_LINE) {
            return Err(
                WebSocketError::Handshake(
                    HandshakeFailureError::HeaderError(
                        String::from_str("Bad Status Line in handshake response"),
                    ),
                ),
            );
        }
        let mut headers: Vec<(String, String)> = Vec::new();
        let mut i: usize = 0;
        while i < lines.len()
            invariant
                i <= lines@.len(),
                entries_view(headers@) == header_entries(lines_view(lines@).subrange(0, i as int)),
            decreases lines@.len() - i,
        {
            let ghost before = lines_view(lines@).subrange(0, i as int);
            let ghost after = lines_view(lines@).subrange(0, i + 1);
            assert(after.drop_last() =~= before);
            assert(after.last() == lines@[i as int]@);
            match parse_header_line(lines[i].as_str()) {
                Some(e) => {
                    proof {
                        assert(entries_view(headers@.push(e)) =~= entries_view(headers@).push(
                            (e.0@, e.1@),
                        ));
                    }
                    headers.push(e);
                },
                None => {},
            }
            i = i + 1;
        }
        assert(lines_view(lines@).subrange(0, lines@.len() as int) =~= lines_view(lines@));
        Ok(
            HandshakeHeaders {
                http_version: String::from_str("HTTP/1.1"),
                http_status_code: String::from_str("101"),
                http_status_text: String::from_str("Switching Protocols"),
                headers,
            },
        )
    }

    /// The value of the last header called `name`, which is matched exactly.
    pub fn get(&self, name: &str) -> (r: Option<String>)
        ensures
            match r {
                Some(v) => header_value(entries_view(self.headers@), name@) == Some(v@),
                None => header_value(entries_view(self.headers@), name@) is None,
            },
    {
        let wanted = String::from_str(name);
        let mut found: Option<String> = None;
        let mut i: usize = 0;
        while i < self.headers.len()
            invariant
                i <= self.headers@.len(),
                wanted@ == name@,
                match found {
                    Some(v) => header_value(
                        entries_view(self.headers@).subrange(0, i as int),
                        name@,
                    ) == Some(v@),
                    None => header_value(
                        entries_view(self.headers@).subrange(0, i as int),
                        name@,
                    ) is None,
                },
            decreases self.headers@.len() - i,
        {
            let ghost before = entries_view(self.headers@).subrange(0, i as int);
            let ghost after = entries_view(self.headers@).subrange(0, i + 1);
            assert(after.drop_last() =~= before);
            assert(after.last() == (self.headers@[i as int].0@, self.headers@[i as int].1@));
            if self.headers[i].0 == wanted {
                found = Some(self.headers[i].1.clone());
            }
            i = i + 1;
        }
        assert(entries_view(self.headers@).subrange(0, self.headers@.len() as int)
            =~= entries_view(self.headers@));
        found
    }
}

/// A fresh security key: 16 random bytes, base64-encoded.
pub fn generate_security_key() -> (r: String)
    ensures
        exists|nonce: Seq<u8>| nonce.len() == 16 && r@ == base64_of(nonce),
        r@.len() == 24,
{
    let mut bytes: Vec<u8> = vec![0u8; 16];
    fill_random(&mut bytes);
    base64_encode(bytes.as_slice())
}

/// The accept key that a server must send back for `security_key`.
pub fn generate_valid_accept(security_key: String) -> (r: String)
    ensures
        r@ == accept_key_for(security_key@),
        r@.len() == 28,
{
    let mut accept = security_key;
    accept.append(GUID);
    let digest = sha1_digest(accept.as_str().as_bytes());
    base64_encode(digest.as_slice())
}

/// Checks the server's accept key against the key that was sent.
pub fn validate_accept(accept_key: &str, security_key: String) -> (r: Result<(), HandshakeFailureError>)
    ensures
        r is Ok <==> accept_key@ == accept_key_for(security_key@),
        r matches Err(e) ==> e is ValidationError,
{
    let valid_accept_key = generate_valid_accept(security_key);
    if String::from_str(accept_key) == valid_accept_key {
        Ok(())
    } else {
        Err(HandshakeFailureError::ValidationError)
    }
}

/// The Upgrade request that opens a connection to `uri`, offering
/// `security_key`.
pub fn get_handshake_payload(uri: &Uri, security_key: &str) -> (r: Result<String, URIError>)
    ensures
        uri@.authority is None ==> r matches Err(URIError::IncompleteURIError(_)),
        uri@.authority matches Some(a) ==> r matches Ok(req) && req@ == request_text(
            target_of(uri@),
            a.host,
            security_key@,
        ),
{
    let host = match &uri.authority {
        Some(a) => get_host(a),
        None => {
            return Err(URIError::IncompleteURIError(String::from_str("Authority for the URI is not found")));
        },
    };
    let target = match get_resource_target(uri) {
        Ok(t) => t,
        Err(e) => {
            return Err(e);
        },
    };
    let mut req = String::from_str("GET ");
    req.append(target.as_str());
    req.append(" HTTP/1.1\r\n");
    req.append("Host: ");
    req.append(host.as_str());
    req.append("\r\n");
    req.append("Connection: Upgrade\r\n");
    req.append("Upgrade: websocket\r\n");
    req.append("Sec-WebSocket-Key: ");
    req.append(security_key);
    req.append("\r\n");
    req.append("Sec-WebSocket-Version: 13\r\n");
    req.append("\r\n");
    Ok(req)
}

/// The first line of the server's answer is the status line of an accepted
/// upgrade.
pub open spec fn status_accepted(text: Seq<char>) -> bool {
    split_lines(text)[0] == EXPECTED_STATUS_LINE@
}

/// The accept key that the server's answer carries, if any.
pub open spec fn response_accept_key(text: Seq<char>) -> Option<Seq<char>> {
    header_value(header_entries(split_lines(text)), ACCEPT_KEY_NAME@)
}

/// The server's answer is an accepted upgrade, and its accept key answers
/// `security_key`.
pub open spec fn response_accepted(text: Seq<char>, security_key: Seq<char>) -> bool {
    status_accepted(text) && response_accept_key(text) == Some(accept_key_for(security_key))
}

/// `n` zero bytes.
pub open spec fn zero_bytes(n: nat) -> Seq<u8> {
    Seq::new(n, |i: int| 0u8)
}

proof fn lemma_split_lines_crlf(u: Seq<char>)
    ensures
        split_lines(u + "\r\n"@) == split_lines(u).push(Seq::<char>::empty()),
    decreases u.len(),
{
    reveal_strlit("\r\n");
    let crlf = "\r\n"@;
    let s = u + crlf;
    if u.len() == 0 {
        assert(s =~= crlf);
        assert(crlf.len() == 2 && crlf[0] == '\r' && crlf[1] == '\n');
        assert(crlf.subrange(2, 2) =~= Seq::<char>::empty());
        assert(split_lines(Seq::<char>::empty()) == seq![Seq::<char>::empty()]);
        assert(split_lines(crlf) == seq![Seq::<char>::empty()] + split_lines(crlf.subrange(2, 2)));
        assert(split_lines(s) =~= split_lines(u).push(Seq::<char>::empty()));
    } else if u.len() >= 2 && u[0] == '\r' && u[1] == '\n' {
        let t = u.subrange(2, u.len() as int);
        lemma_split_lines_crlf(t);
        assert(s.subrange(2, s.len() as int) =~= t + crlf);
        assert(split_lines(s) =~= split_lines(u).push(Seq::<char>::empty()));
    } else {
        let t = u.drop_first();
        lemma_split_lines_crlf(t);
        lemma_split_lines_nonempty(t);
        assert(s.drop_first() =~= t + crlf);
        assert(split_lines(s) =~= split_lines(u).push(Seq::<char>::empty()));
    }
}

/// A text without a line feed is a single line.
proof fn lemma_split_lines_single(z: Seq<char>)
    requires
        forall|i: int| 0 <= i < z.len() ==> z[i] != '\n',
    ensures
        split_lines(z) == seq![z],
    decreases z.len(),
{
    if z.len() > 0 {
        let t = z.drop_first();
        lemma_split_lines_single(t);
        assert(z.len() >= 2 ==> z[1] != '\n');
        assert(seq![z[0]] + t =~= z);
        assert(split_lines(z) =~= seq![z]);
    } else {
        assert(z =~= Seq::<char>::empty());
        assert(split_lines(z) =~= seq![z]);
    }
}

/// `s + z` cut at each CRLF, where `z` holds no line feed: the cuts of `s`,
/// with `z` added to the last piece.
proof fn lemma_split_lines_tail(s: Seq<char>, z: Seq<char>)
    requires
        forall|i: int| 0 <= i < z.len() ==> z[i] != '\n',
    ensures
        split_lines(s + z) == split_lines(s).update(
            split_lines(s).len() - 1,
            split_lines(s).last() + z,
        ),
    decreases s.len() + z.len(),
{
    lemma_split_lines_nonempty(s);
    let a = s + z;
    if s.len() == 0 {
        assert(a =~= z);
        lemma_split_lines_single(z);
        assert(split_lines(a) =~= split_lines(s).update(0, split_lines(s).last() + z));
    } else if s.len() >= 2 && s[0] == '\r' && s[1] == '\n' {
        let t = s.subrange(2, s.len() as int);
        lemma_split_lines_tail(t, z);
        lemma_split_lines_nonempty(t);
        assert(a.subrange(2, a.len() as int) =~= t + z);
        assert(split_lines(a) =~= split_lines(s).update(
            split_lines(s).len() - 1,
            split_lines(s).last() + z,
        ));
    } else {
        let t = s.drop_first();
        lemma_split_lines_tail(t, z);
        lemma_split_lines_nonempty(t);
        assert(a.drop_first() =~= t + z);
        let r = split_lines(t);
        if r.len() == 1 {
            assert(seq![s[0]] + r[0] + z =~= seq![s[0]] + (r[0] + z));
        }
        assert(split_lines(a) =~= split_lines(s).update(
            split_lines(s).len() - 1,
            split_lines(s).last() + z,
        ));
    }
}

proof fn lemma_encode_utf8_concat(a: Seq<char>, b: Seq<char>)
    ensures
        encode_utf8(a + b) == encode_utf8(a) + encode_utf8(b),
    decreases a.len(),
{
    if a.len() > 0 {
        lemma_encode_utf8_concat(a.drop_first(), b);
        assert((a + b).drop_first() =~= a.drop_first() + b);
        assert((a + b)[0] == a[0]);
        assert(encode_utf8(a + b) =~= encode_utf8(a) + encode_utf8(b));
    } else {
        assert(a + b =~= b);
        assert(encode_utf8(a) + encode_utf8(b) =~= encode_utf8(b));
    }
}

/// A response that ends in CRLF, sent as UTF-8 and read into a buffer whose
/// rest stays zero-filled, is still valid UTF-8, and the zero bytes change
/// neither the status line nor the headers: the response is accepted exactly
/// when it is accepted without them.
pub proof fn lemma_zero_padding_keeps_acceptance(text: Seq<char>, k: nat, security_key: Seq<char>)
    requires
        text.len() >= 2,
        text[text.len() - 2] == '\r',
        text[text.len() - 1] == '\n',
    ensures
        valid_utf8(encode_utf8(text) + zero_bytes(k)),
        decode_utf8(encode_utf8(text) + zero_bytes(k)) == text + Seq::new(k, |i: int| '\0'),
        status_accepted(text + Seq::new(k, |i: int| '\0')) == status_accepted(text),
        response_accept_key(text + Seq::new(k, |i: int| '\0')) == response_accept_key(text),
        response_accepted(decode_utf8(encode_utf8(text) + zero_bytes(k)), security_key)
            == response_accepted(text, security_key),
{
    reveal_strlit("\r\n");
    let nuls = Seq::new(k, |i: int| '\0');
    assert(is_ascii_chars(nuls));
    is_ascii_chars_encode_utf8(nuls);
    assert(encode_utf8(nuls) =~= zero_bytes(k));
    lemma_encode_utf8_concat(text, nuls);
    encode_utf8_valid_utf8(text + nuls);
    encode_utf8_decode_utf8(text + nuls);

    let u = text.subrange(0, text.len() - 2);
    assert(text =~= u + "\r\n"@);
    lemma_split_lines_crlf(u);
    lemma_split_lines_tail(text, nuls);
    lemma_split_lines_nonempty(u);
    let lu = split_lines(u);
    assert(split_lines(text) == lu.push(Seq::<char>::empty()));
    assert(split_lines(text + nuls) =~= lu.push(nuls));
    assert(split_lines(text + nuls)[0] == split_lines(text)[0]);
    assert(!exists|j: int| first_colon(Seq::<char>::empty(), j));
    assert(!exists|j: int| first_colon(nuls, j)) by {
        assert forall|j: int| !first_colon(nuls, j) by {
            if 0 <= j < nuls.len() {
                assert(nuls[j] == '\0');
            }
        }
    }
    assert(lu.push(nuls).drop_last() =~= lu);
    assert(lu.push(Seq::<char>::empty()).drop_last() =~= lu);
    assert(header_entries(split_lines(text + nuls)) == header_entries(split_lines(text)));
}

/// Checks the text of the server's answer to the Upgrade request: the status
/// line, then the accept key against `security_key`.
pub fn check_handshake_text(text: &str, security_key: &str) -> (r: Result<
    HandshakeHeaders,
    WebSocketError,
>)
    ensures
        r is Ok <==> response_accepted(text@, security_key@),
        !status_accepted(text@) ==> r matches Err(
            WebSocketError::Handshake(HandshakeFailureError::HeaderError(_)),
        ),
        status_accepted(text@) && response_accept_key(text@) is None ==> r matches Err(
            WebSocketError::Handshake(HandshakeFailureError::HeaderError(_)),
        ),
        status_accepted(text@) && response_accept_key(text@) is Some && response_accept_key(
            text@,
        ) != Some(accept_key_for(security_key@)) ==> r matches Err(
            WebSocketError::Handshake(HandshakeFailureError::ValidationError),
        ),
        r matches Ok(h) ==> entries_view(h.headers@) == header_entries(split_lines(text@)),
{
    let headers = match HandshakeHeaders::new(text) {
        Ok(h) => h,
        Err(e) => {
            return Err(e);
        },
    };
    let accept = match headers.get(ACCEPT_KEY_NAME) {
        Some(a) => a,
        None => {
            return Err(
                WebSocketError::Handshake(
                    HandshakeFailureError::HeaderError(
                        String::from_str("`sec-websocket-accept` header not found in handshake response"),
                    ),
                ),
            );
        },
    };
    match validate_accept(accept.as_str(), String::from_str(security_key)) {
        Ok(()) => Ok(headers),
        Err(e) => Err(WebSocketError::Handshake(e)),
    }
}

/// Checks the bytes that the server answered the Upgrade request with, read
/// as UTF-8 with each invalid sequence replaced.
pub fn check_handshake_response(response: &[u8], security_key: &str) -> (r: Result<
    HandshakeHeaders,
    WebSocketError,
>)
    ensures
        r is Ok <==> response_accepted(lossy_utf8_of(response@), security_key@),
        !status_accepted(lossy_utf8_of(response@)) ==> r matches Err(
            WebSocketError::Handshake(HandshakeFailureError::HeaderError(_)),
        ),
        status_accepted(lossy_utf8_of(response@)) && response_accept_key(lossy_utf8_of(response@))
            is None ==> r matches Err(
            WebSocketError::Handshake(HandshakeFailureError::HeaderError(_)),
        ),
        status_accepted(lossy_utf8_of(response@)) && response_accept_key(lossy_utf8_of(response@))
            is Some && response_accept_key(lossy_utf8_of(response@)) != Some(
            accept_key_for(security_key@),
        ) ==> r matches Err(WebSocketError::Handshake(HandshakeFailureError::ValidationError)),
        valid_utf8(response@) ==> (r is Ok <==> response_accepted(
            decode_utf8(response@),
            security_key@,
        )),
{
    let text = utf8_lossy(response);
    check_handshake_text(text.as_str(), security_key)
}

} // verus!
