//! A tiny HTTP/1.1 server core: enough to read a single request (method,
//! path, headers, body) and to render one response. Used for both the XML-RPC
//! endpoint (`POST /RPC2`) and the web UI (`GET /`).
pub mod base64;
pub mod laws;

use crate::config::settings::AuthModel;
use crate::config::settings::HttpAuth;
use crate::number;
use crate::text;
use crate::util;
use vstd::prelude::*;
use vstd::slice::slice_subrange;
use vstd::utf8;

verus! {

/// A parsed HTTP request.
#[derive(Debug)]
pub struct Request {
    pub method: String,
    pub path: String,
    pub headers: Vec<(String, String)>,
    pub body: String,
}

/// The mathematical content of a [`Request`].
#[verifier::ext_equal]
pub struct RequestModel {
    pub method: Seq<char>,
    pub path: Seq<char>,
    pub headers: Seq<(Seq<char>, Seq<char>)>,
    pub body: Seq<char>,
}

impl View for Request {
    type V = RequestModel;

    open spec fn view(&self) -> RequestModel {
        RequestModel {
            method: self.method@,
            path: self.path@,
            headers: text::text_pairs(self.headers@),
            body: self.body@,
        }
    }
}

// ---------------------------------------------------------------------------
// Headers
// ---------------------------------------------------------------------------

/// Whether two names are the same but for the case of ASCII letters.
pub open spec fn same_name(a: Seq<char>, b: Seq<char>) -> bool {
    text::lowered(a) == text::lowered(b)
}

/// The value of the first header called `name`, in any letter case.
pub open spec fn header_value(headers: Seq<(Seq<char>, Seq<char>)>, name: Seq<char>) -> Option<
    Seq<char>,
>
    decreases headers.len(),
{
    if headers.len() == 0 {
        None
    } else if same_name(headers[0].0, name) {
        Some(headers[0].1)
    } else {
        header_value(headers.skip(1), name)
    }
}

fn names_match(a: &str, b: &str) -> (r: bool)
    ensures
        r == same_name(a@, b@),
{
    let x = text::chars_of(a);
    let y = text::chars_of(b);
    let x = text::to_lower(x.as_slice());
    let y = text::to_lower(y.as_slice());
    text::same_chars(x.as_slice(), y.as_slice())
}

/// What follows `Basic ` (or `basic `) in an authorization header.
pub open spec fn basic_token(value: Seq<char>) -> Option<Seq<char>> {
    if text::has_prefix(value, "Basic "@) || text::has_prefix(value, "basic "@) {
        Some(value.skip(6))
    } else {
        None
    }
}

/// The user name and password in the text `user:password`.
pub open spec fn split_credentials(s: Seq<char>) -> Option<(Seq<char>, Seq<char>)> {
    let i = text::first_index(s, ':');
    if i < s.len() {
        Some((s.take(i), s.skip(i + 1)))
    } else {
        None
    }
}

/// The credentials in the value of an authorization header, if it is
/// well-formed.
pub open spec fn credentials_of(value: Seq<char>) -> Option<(Seq<char>, Seq<char>)> {
    match basic_token(value) {
        None => None,
        Some(t) => match base64::decoded(utf8::encode_utf8(text::trimmed(t))) {
            None => None,
            Some(bytes) => if utf8::valid_utf8(bytes) {
                split_credentials(utf8::decode_utf8(bytes))
            } else {
                None
            },
        },
    }
}

/// The credentials that a request carries.
pub open spec fn basic_auth_of(headers: Seq<(Seq<char>, Seq<char>)>) -> Option<
    (Seq<char>, Seq<char>),
> {
    match header_value(headers, "authorization"@) {
        Some(v) => credentials_of(v),
        None => None,
    }
}

/// Splits `user:password` at the first colon.
fn read_credentials(s: &str) -> (r: Option<(String, String)>)
    ensures
        match r {
            Some((u, p)) => split_credentials(s@) == Some((u@, p@)),
            None => split_credentials(s@) is None,
        },
{
    let c = text::chars_of(s);
    let i = text::find_char(c.as_slice(), ':');
    if i == c.len() {
        return None;
    }
    let u = slice_subrange(c.as_slice(), 0, i);
    let p = slice_subrange(c.as_slice(), i + 1, c.len());
    proof {
        assert(u@ =~= s@.take(i as int));
        assert(p@ =~= s@.skip(i as int + 1));
    }
    Some((text::string_of(u), text::string_of(p)))
}

impl Request {
    /// The value of the header called `name`, in any letter case.
    pub fn header(&self, name: &str) -> (r: Option<&str>)
        ensures
            match r {
                Some(v) => header_value(self@.headers, name@) == Some(v@),
                None => header_value(self@.headers, name@) is None,
            },
    {
        let ghost all = self@.headers;
        let mut i: usize = 0;
        proof {
            assert(all.skip(0) =~= all);
        }
        while i < self.headers.len()
            invariant
                i <= self.headers@.len(),
                all == text::text_pairs(self.headers@),
                header_value(all, name@) == header_value(all.skip(i as int), name@),
            decreases self.headers@.len() - i,
        {
            proof {
                assert(all.skip(i as int)[0] == all[i as int]);
                assert(all.skip(i as int).skip(1) =~= all.skip(i as int + 1));
            }
            if names_match(self.headers[i].0.as_str(), name) {
                return Some(self.headers[i].1.as_str());
            }
            i = i + 1;
        }
        None
    }

    /// The decoded `(username, password)` from a Basic `Authorization`
    /// header, if present and well-formed.
    pub fn basic_auth(&self) -> (r: Option<(String, String)>)
        ensures
            match r {
                Some((u, p)) => basic_auth_of(self@.headers) == Some((u@, p@)),
                None => basic_auth_of(self@.headers) is None,
            },
    {
        let value = self.header("authorization")?;
        let c = text::chars_of(value);
        let c = c.as_slice();
        proof {
            reveal_strlit("Basic ");
            reveal_strlit("basic ");
        }
        if !text::starts_with(c, "Basic ") && !text::starts_with(c, "basic ") {
            return None;
        }
        let token = slice_subrange(c, 6, c.len());
        proof {
            assert(token@ =~= value@.skip(6));
        }
        let t = text::string_of(text::trim(token));
        let bytes = base64::base64_decode(t.as_str().as_bytes())?;
        let s = util::utf8_text(bytes)?;
        proof {
            utf8::encode_utf8_decode_utf8(s@);
        }
        read_credentials(s.as_str())
    }
}

/// Whether the credentials that were given are those asked for. A server
/// without a user name asks for none; one without a password accepts any.
pub open spec fn admits(auth: AuthModel, given: Option<(Seq<char>, Seq<char>)>) -> bool {
    match auth.username {
        None => true,
        Some(user) => match given {
            None => false,
            Some((u, p)) => u == user && (auth.password is None || auth.password == Some(p)),
        },
    }
}

fn same_secret(a: &str, b: &str) -> (r: bool)
    ensures
        r == (a@ == b@),
{
    proof {
        utf8::encode_utf8_decode_utf8(a@);
        utf8::encode_utf8_decode_utf8(b@);
    }
    util::constant_time_eq(a.as_bytes(), b.as_bytes())
}

/// Whether a request may be served.
pub fn authorize(req: &Request, auth: &HttpAuth) -> (r: bool)
    ensures
        r == admits(auth@, basic_auth_of(req@.headers)),
{
    match &auth.username {
        None => true,
        Some(user) => match req.basic_auth() {
            None => false,
            Some((u, p)) => {
                let user_ok = same_secret(u.as_str(), user.as_str());
                match &auth.password {
                    None => user_ok,
                    Some(password) => {
                        let password_ok = same_secret(p.as_str(), password.as_str());
                        user_ok && password_ok
                    },
                }
            },
        },
    }
}

// ---------------------------------------------------------------------------
// The head of a request
// ---------------------------------------------------------------------------

/// A request without its body.
#[derive(Debug)]
pub struct Head {
    pub method: String,
    pub path: String,
    pub headers: Vec<(String, String)>,
    /// How many bytes the body has.
    pub content_length: usize,
}

/// The mathematical content of a [`Head`].
#[verifier::ext_equal]
pub struct HeadModel {
    pub method: Seq<char>,
    pub path: Seq<char>,
    pub headers: Seq<(Seq<char>, Seq<char>)>,
    pub content_length: nat,
}

impl View for Head {
    type V = HeadModel;

    open spec fn view(&self) -> HeadModel {
        HeadModel {
            method: self.method@,
            path: self.path@,
            headers: text::text_pairs(self.headers@),
            content_length: self.content_length as nat,
        }
    }
}

/// The headers in the given lines; lines without a colon are passed over.
pub open spec fn header_fields(lines: Seq<Seq<char>>) -> Seq<(Seq<char>, Seq<char>)>
    decreases lines.len(),
{
    if lines.len() == 0 {
        Seq::empty()
    } else {
        let l = lines[0];
        let rest = header_fields(lines.skip(1));
        let i = text::first_index(l, ':');
        if i < l.len() {
            seq![(text::trimmed(l.take(i)), text::trimmed(l.skip(i + 1)))] + rest
        } else {
            rest
        }
    }
}

/// The number of bytes that a header value announces; zero if it is no number.
pub open spec fn length_value(v: Seq<char>) -> nat {
    match number::unsigned_upto(v, 10, usize::MAX as nat) {
        Some(n) => n,
        None => 0,
    }
}

/// The length of the body: what the last `Content-Length` header says, zero
/// without one.
pub open spec fn body_length(headers: Seq<(Seq<char>, Seq<char>)>) -> nat
    decreases headers.len(),
{
    if headers.len() == 0 {
        0
    } else if same_name(headers.last().0, "content-length"@) {
        length_value(headers.last().1)
    } else {
        body_length(headers.drop_last())
    }
}

/// The request that a head describes; `None` if its first line does not hold
/// a method and a path.
pub open spec fn head_of(s: Seq<char>) -> Option<HeadModel> {
    let lines = text::parts(s, "\r\n"@);
    let words = text::words(lines[0]);
    if words.len() < 2 {
        None
    } else {
        let headers = header_fields(lines.skip(1));
        Some(
            HeadModel {
                method: words[0],
                path: words[1],
                headers,
                content_length: body_length(headers),
            },
        )
    }
}

/// Reads the headers off lines.
fn read_fields(lines: &Vec<Vec<char>>, from: usize) -> (r: Vec<(String, String)>)
    requires
        from <= lines@.len(),
    ensures
        text::text_pairs(r@) == header_fields(text::char_lists(lines@).skip(from as int)),
{
    let ghost all = text::char_lists(lines@).skip(from as int);
    let mut r: Vec<(String, String)> = Vec::new();
    let mut i: usize = from;
    proof {
        assert(all.skip(0) =~= all);
        assert(text::text_pairs(r@) + header_fields(all) =~= header_fields(all));
    }
    while i < lines.len()
        invariant
            from <= i <= lines@.len(),
            all == text::char_lists(lines@).skip(from as int),
            text::text_pairs(r@) + header_fields(all.skip(i - from)) == header_fields(all),
        decreases lines@.len() - i,
    {
        let l = lines[i].as_slice();
        let ghost t = all.skip(i - from);
        let ghost before = text::text_pairs(r@);
        proof {
            assert(t[0] == l@);
            assert(t.skip(1) =~= all.skip(i - from + 1));
        }
        let k = text::find_char(l, ':');
        if k < l.len() {
            let a = slice_subrange(l, 0, k);
            let b = slice_subrange(l, k + 1, l.len());
            proof {
                assert(a@ =~= l@.take(k as int));
                assert(b@ =~= l@.skip(k as int + 1));
            }
            let key = text::string_of(text::trim(a));
            let value = text::string_of(text::trim(b));
            let ghost pair = (key@, value@);
            r.push((key, value));
            proof {
                assert(text::text_pairs(r@) =~= before + seq![pair]);
                let rest = header_fields(all.skip(i - from + 1));
                assert(before + (seq![pair] + rest) =~= text::text_pairs(r@) + rest);
            }
        }
        i = i + 1;
    }
    proof {
        assert(all.skip(i - from) =~= Seq::<Seq<char>>::empty());
        assert(header_fields(all.skip(i - from)) =~= Seq::<(Seq<char>, Seq<char>)>::empty());
        assert(text::text_pairs(r@) + Seq::<(Seq<char>, Seq<char>)>::empty() =~= text::text_pairs(
            r@,
        ));
    }
    r
}

/// The length that the headers give the body.
fn read_length(headers: &Vec<(String, String)>) -> (r: usize)
    ensures
        r as nat == body_length(text::text_pairs(headers@)),
{
    let ghost all = text::text_pairs(headers@);
    let mut i: usize = headers.len();
    proof {
        assert(all.take(i as int) =~= all);
    }
    while i > 0
        invariant
            i <= headers@.len(),
            all == text::text_pairs(headers@),
            body_length(all) == body_length(all.take(i as int)),
        decreases i,
    {
        i = i - 1;
        proof {
            assert(all.take(i as int + 1).drop_last() =~= all.take(i as int));
            assert(all.take(i as int + 1).last() == all[i as int]);
        }
        if names_match(headers[i].0.as_str(), "content-length") {
            let c = text::chars_of(headers[i].1.as_str());
            return match number::parse_unsigned(c.as_slice(), 10, usize::MAX as u64) {
                Some(n) => n as usize,
                None => 0,
            };
        }
    }
    0
}

/// Reads the head of a request, from the request line to the empty line.
pub fn parse_head(s: &str) -> (r: Option<Head>)
    ensures
        match r {
            Some(h) => head_of(s@) == Some(h@),
            None => head_of(s@) is None,
        },
{
    let c = text::chars_of(s);
    proof {
        reveal_strlit("\r\n");
    }
    let lines = text::split_text(c.as_slice(), "\r\n");
    let ghost all = text::parts(s@, "\r\n"@);
    proof {
        assert(all.len() >= 1);
        assert(all[0] == lines@[0]@);
    }
    let words = text::split_words(lines[0].as_slice());
    proof {
        assert(text::char_lists(words@) == text::words(all[0]));
    }
    if words.len() < 2 {
        return None;
    }
    let method = text::string_of(words[0].as_slice());
    let path = text::string_of(words[1].as_slice());
    let headers = read_fields(&lines, 1);
    let content_length = read_length(&headers);
    proof {
        assert(text::char_lists(words@)[0] == words@[0]@);
        assert(text::char_lists(words@)[1] == words@[1]@);
    }
    Some(Head { method, path, headers, content_length })
}

// ---------------------------------------------------------------------------
// Reading a request
// ---------------------------------------------------------------------------

/// How many bytes may be read before the head of a request ends.
pub const MAX_HEAD: usize = 1048576;

/// The empty line that ends a head: two line ends in a row.
pub open spec fn head_end() -> Seq<u8> {
    seq![13u8, 10u8, 13u8, 10u8]
}

/// How far a request has been read.
pub enum Phase {
    /// The head has not ended yet.
    Head,
    /// The head was read; the body follows.
    Body(HeadModel),
    /// The request is no good.
    Failed,
}

/// A request being read: how far, and the bytes that belong to the part under way.
pub struct Reading {
    pub phase: Phase,
    pub bytes: Seq<u8>,
}

/// The state before anything was read.
pub open spec fn unread() -> Reading {
    Reading { phase: Phase::Head, bytes: Seq::empty() }
}

/// The state after one more read.
pub open spec fn fed(m: Reading, data: Seq<u8>) -> Reading {
    let b = m.bytes + data;
    match m.phase {
        Phase::Head => if b.len() > MAX_HEAD {
            Reading { phase: Phase::Failed, bytes: Seq::empty() }
        } else {
            match text::first_occurrence(b, head_end()) {
                None => Reading { phase: Phase::Head, bytes: b },
                Some(p) => match head_of(util::text_of(b.take(p + 4))) {
                    None => Reading { phase: Phase::Failed, bytes: Seq::empty() },
                    Some(h) => Reading { phase: Phase::Body(h), bytes: b.skip(p + 4) },
                },
            }
        },
        Phase::Body(h) => Reading { phase: m.phase, bytes: b },
        Phase::Failed => m,
    }
}

/// Whether no more has to be read.
pub open spec fn complete(m: Reading) -> bool {
    match m.phase {
        Phase::Head => false,
        Phase::Body(h) => m.bytes.len() >= h.content_length,
        Phase::Failed => true,
    }
}

/// The request that was read. A body cut short is taken as it is.
pub open spec fn outcome(m: Reading) -> Option<RequestModel> {
    match m.phase {
        Phase::Body(h) => Some(
            RequestModel {
                method: h.method,
                path: h.path,
                headers: h.headers,
                body: util::text_of(
                    if m.bytes.len() <= h.content_length {
                        m.bytes
                    } else {
                        m.bytes.take(h.content_length as int)
                    },
                ),
            },
        ),
        _ => None,
    }
}

/// The state after the reads from `i` on, as far as they are needed. An empty
/// read is the end of the stream.
pub open spec fn fed_from(m: Reading, reads: Seq<Seq<u8>>, i: int) -> Reading
    decreases reads.len() - i,
{
    if i < 0 || i >= reads.len() || complete(m) || reads[i].len() == 0 {
        m
    } else {
        fed_from(fed(m, reads[i]), reads, i + 1)
    }
}

/// The request that a list of reads from a stream makes up.
pub open spec fn request_of(reads: Seq<Seq<u8>>) -> Option<RequestModel> {
    outcome(fed_from(unread(), reads, 0))
}

/// Reads a single request off a stream, read by read.
#[derive(Debug)]
pub struct RequestReader {
    pub failed: bool,
    pub head: Option<Head>,
    pub bytes: Vec<u8>,
}

impl View for RequestReader {
    type V = Reading;

    open spec fn view(&self) -> Reading {
        Reading {
            phase: if self.failed {
                Phase::Failed
            } else {
                match self.head {
                    Some(h) => Phase::Body(h@),
                    None => Phase::Head,
                }
            },
            bytes: self.bytes@,
        }
    }
}

impl RequestReader {
    /// A reader that has read nothing.
    pub fn new() -> (r: Self)
        ensures
            r@ == unread(),
    {
        RequestReader { failed: false, head: None, bytes: Vec::new() }
    }

    /// Whether no more has to be read.
    pub fn is_complete(&self) -> (r: bool)
        ensures
            r == complete(self@),
    {
        if self.failed {
            return true;
        }
        match &self.head {
            Some(h) => self.bytes.len() >= h.content_length,
            None => false,
        }
    }

    /// Gives up on the request.
    fn fail(&mut self)
        ensures
            final(self)@ == (Reading { phase: Phase::Failed, bytes: Seq::empty() }),
    {
        self.failed = true;
        self.bytes = Vec::new();
        proof {
            assert(self.bytes@ =~= Seq::<u8>::empty());
        }
    }

    /// Takes one more read.
    pub fn push(&mut self, data: &[u8])
        ensures
            final(self)@ == fed(old(self)@, data@),
    {
        if self.failed {
            return;
        }
        util::push_bytes(&mut self.bytes, data);
        if self.head.is_some() {
            return;
        }
        if self.bytes.len() > MAX_HEAD {
            self.fail();
            return;
        }
        let end: [u8; 4] = [13, 10, 13, 10];
        proof {
            assert(end@ =~= head_end());
        }
        match util::find_subslice(self.bytes.as_slice(), end.as_slice()) {
            None => {},
            Some(p) => {
                let head_bytes = slice_subrange(self.bytes.as_slice(), 0, p + 4);
                proof {
                    assert(head_bytes@ =~= self.bytes@.take(p + 4));
                }
                let head_text = util::decode_text(head_bytes);
                match parse_head(head_text.as_str()) {
                    None => {
                        self.fail();
                    },
                    Some(h) => {
                        let rest = slice_subrange(self.bytes.as_slice(), p + 4, self.bytes.len());
                        proof {
                            assert(rest@ =~= self.bytes@.skip(p + 4));
                        }
                        let rest = util::copy_bytes(rest);
                        self.head = Some(h);
                        self.bytes = rest;
                    },
                }
            },
        }
    }

    /// The request that was read.
    pub fn finish(self) -> (r: Option<Request>)
        ensures
            match r {
                Some(q) => outcome(self@) == Some(q@),
                None => outcome(self@) is None,
            },
    {
        if self.failed {
            return None;
        }
        match self.head {
            None => None,
            Some(h) => {
                let body = if self.bytes.len() <= h.content_length {
                    util::decode_text(self.bytes.as_slice())
                } else {
                    let cut = slice_subrange(self.bytes.as_slice(), 0, h.content_length);
                    proof {
                        assert(cut@ =~= self.bytes@.take(h.content_length as int));
                    }
                    util::decode_text(cut)
                };
                Some(Request { method: h.method, path: h.path, headers: h.headers, body })
            },
        }
    }
}

/// The byte strings of a list.
pub open spec fn read_list(v: Seq<Vec<u8>>) -> Seq<Seq<u8>> {
    v.map_values(|b: Vec<u8>| b@)
}

/// Reads a single request from what reading a stream gave, read by read.
/// `None` if the stream ended before the head did, or the request is malformed.
pub fn read_request(reads: &Vec<Vec<u8>>) -> (r: Option<Request>)
    ensures
        match r {
            Some(q) => request_of(read_list(reads@)) == Some(q@),
            None => request_of(read_list(reads@)) is None,
        },
{
    let ghost all = read_list(reads@);
    let mut reader = RequestReader::new();
    let mut i: usize = 0;
    while i < reads.len() && !reader.is_complete() && reads[i].len() > 0
        invariant
            i <= reads@.len(),
            all == read_list(reads@),
            fed_from(unread(), all, 0) == fed_from(reader@, all, i as int),
        decreases reads@.len() - i,
    {
        proof {
            assert(all[i as int] == reads@[i as int]@);
        }
        reader.push(reads[i].as_slice());
        i = i + 1;
    }
    proof {
        if i < reads@.len() {
            assert(all[i as int] == reads@[i as int]@);
        }
    }
    reader.finish()
}

// ---------------------------------------------------------------------------
// Responses
// ---------------------------------------------------------------------------

/// The lines of additional headers.
pub open spec fn extra_lines(extra: Seq<(Seq<char>, Seq<char>)>) -> Seq<char>
    decreases extra.len(),
{
    if extra.len() == 0 {
        Seq::empty()
    } else {
        extra[0].0 + ": "@ + extra[0].1 + "\r\n"@ + extra_lines(extra.skip(1))
    }
}

/// The head of a response with a body of `len` bytes.
pub open spec fn response_head(
    status: nat,
    reason: Seq<char>,
    content_type: Seq<char>,
    len: nat,
    extra: Seq<(Seq<char>, Seq<char>)>,
) -> Seq<char> {
    "HTTP/1.1 "@ + number::nat_text(status) + " "@ + reason + "\r\nContent-Type: "@ + content_type
        + "\r\nContent-Length: "@ + number::nat_text(len) + "\r\nConnection: close\r\n"@
        + extra_lines(extra) + "\r\n"@
}

/// A complete response.
pub open spec fn response_bytes(
    status: nat,
    reason: Seq<char>,
    content_type: Seq<char>,
    body: Seq<char>,
    extra: Seq<(Seq<char>, Seq<char>)>,
) -> Seq<u8> {
    let b = utf8::encode_utf8(body);
    utf8::encode_utf8(response_head(status, reason, content_type, b.len(), extra)) + b
}

/// The texts of a list of string pairs.
pub open spec fn str_pairs(v: Seq<(&str, &str)>) -> Seq<(Seq<char>, Seq<char>)> {
    v.map_values(|p: (&str, &str)| (p.0@, p.1@))
}

/// Appends a complete response.
pub fn write_response(
    out: &mut Vec<u8>,
    status: u16,
    reason: &str,
    content_type: &str,
    body: &str,
    extra_headers: &[(&str, &str)],
)
    ensures
        final(out)@ == old(out)@ + response_bytes(
            status as nat,
            reason@,
            content_type@,
            body@,
            str_pairs(extra_headers@),
        ),
{
    let ghost before = out@;
    let bytes = body.as_bytes();
    let mut head = "HTTP/1.1 ".to_string();
    head.append(number::nat_string(status as u64).as_str());
    head.append(" ");
    head.append(reason);
    head.append("\r\nContent-Type: ");
    head.append(content_type);
    head.append("\r\nContent-Length: ");
    head.append(number::nat_string(bytes.len() as u64).as_str());
    head.append("\r\nConnection: close\r\n");
    let ghost start = head@;
    let ghost all = str_pairs(extra_headers@);
    let mut i: usize = 0;
    proof {
        assert(all.skip(0) =~= all);
    }
    while i < extra_headers.len()
        invariant
            i <= extra_headers@.len(),
            all == str_pairs(extra_headers@),
            head@ + extra_lines(all.skip(i as int)) == start + extra_lines(all),
        decreases extra_headers@.len() - i,
    {
        let ghost sofar = head@;
        let ghost t = all.skip(i as int);
        let (k, v) = extra_headers[i];
        head.append(k);
        head.append(": ");
        head.append(v);
        head.append("\r\n");
        proof {
            assert(t[0] == (k@, v@));
            assert(t.skip(1) =~= all.skip(i as int + 1));
            let rest = extra_lines(all.skip(i as int + 1));
            assert(sofar + (k@ + ": "@ + v@ + "\r\n"@ + rest) =~= head@ + rest);
        }
        i = i + 1;
    }
    proof {
        assert(all.skip(i as int) =~= Seq::<(Seq<char>, Seq<char>)>::empty());
        assert(head@ =~= start + extra_lines(all));
    }
    head.append("\r\n");
    util::push_bytes(out, head.as_str().as_bytes());
    util::push_bytes(out, bytes);
    proof {
        assert(out@ =~= before + response_bytes(
            status as nat,
            reason@,
            content_type@,
            body@,
            all,
        ));
    }
}

} // verus!
