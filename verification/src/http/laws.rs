//! What the two ends of a connection have to do with each other: the server
//! reads the request that the client sent, the client reads the reply that
//! the server gave, and credentials arrive as they were given.
use crate::control;
use crate::control::ErrorModel;
use crate::http;
use crate::http::base64;
use crate::http::HeadModel;
use crate::http::Phase;
use crate::http::Reading;
use crate::http::RequestModel;
use crate::number;
use crate::text;
use crate::util;
use crate::xmlrpc;
use crate::xmlrpc::ResponseModel;
use crate::xmlrpc::ValueModel;
use vstd::prelude::*;
use vstd::utf8;

verus! {

// ---------------------------------------------------------------------------
// Encoding
// ---------------------------------------------------------------------------

/// The encoding of two texts in a row is that of one followed by that of the other.
pub proof fn law_encoding_of_concatenation(a: Seq<char>, b: Seq<char>)
    ensures
        utf8::encode_utf8(a + b) == utf8::encode_utf8(a) + utf8::encode_utf8(b),
    decreases a.len(),
{
    if a.len() == 0 {
        assert(a + b =~= b);
        assert(utf8::encode_utf8(a) + utf8::encode_utf8(b) =~= utf8::encode_utf8(b));
    } else {
        assert((a + b)[0] == a[0]);
        assert((a + b).drop_first() =~= a.drop_first() + b);
        law_encoding_of_concatenation(a.drop_first(), b);
        let first = utf8::encode_scalar(a[0] as u32);
        assert(first + (utf8::encode_utf8(a.drop_first()) + utf8::encode_utf8(b)) =~= (first
            + utf8::encode_utf8(a.drop_first())) + utf8::encode_utf8(b));
    }
}

/// Whether a text is printable ASCII.
pub open spec fn is_plain(s: Seq<char>) -> bool {
    forall|i: int| 0 <= i < s.len() ==> ' ' <= #[trigger] s[i] <= '~'
}

/// The encoding of printable ASCII holds no control characters.
proof fn lemma_plain_encoding(s: Seq<char>)
    requires
        is_plain(s),
    ensures
        utf8::encode_utf8(s).len() == s.len(),
        forall|i: int| 0 <= i < s.len() ==> 32 <= #[trigger] utf8::encode_utf8(s)[i] <= 126,
{
    assert(utf8::is_ascii_chars(s)) by {
        assert forall|i: int| 0 <= i < s.len() implies '\0' <= #[trigger] s[i] <= '\u{7f}' by {}
    }
    utf8::is_ascii_chars_encode_utf8(s);
    assert forall|i: int| 0 <= i < s.len() implies 32 <= #[trigger] utf8::encode_utf8(s)[i]
        <= 126 by {
        assert(' ' <= s[i] <= '~');
        assert(s[i] as u8 == utf8::encode_utf8(s)[i]);
    }
}

/// The encoding of a line end.
proof fn lemma_line_end_encoding()
    ensures
        utf8::encode_utf8("\r\n"@) == seq![13u8, 10u8],
        "\r\n"@ == seq!['\r', '\n'],
{
    reveal_strlit("\r\n");
    let s = "\r\n"@;
    assert(s =~= seq!['\r', '\n']);
    assert(utf8::is_ascii_chars(s));
    utf8::is_ascii_chars_encode_utf8(s);
    assert(s[0] as u8 == utf8::encode_utf8(s)[0]);
    assert(s[1] as u8 == utf8::encode_utf8(s)[1]);
    assert(utf8::encode_utf8(s) =~= seq![13u8, 10u8]);
}

// ---------------------------------------------------------------------------
// Lines
// ---------------------------------------------------------------------------

/// A position with an occurrence and none before it is the first.
proof fn lemma_first_occurrence_is<T>(h: Seq<T>, n: Seq<T>, i: int)
    requires
        text::occurs_at(h, n, i),
        forall|j: int| 0 <= j < i ==> !#[trigger] text::occurs_at(h, n, j),
    ensures
        text::first_occurrence(h, n) == Some(i),
{
    text::lemma_occurrence_from(h, n, 0);
}

/// The first line end of a text.
proof fn lemma_first_line<T>(x: Seq<T>, rest: Seq<T>, cr: T, lf: T)
    requires
        forall|i: int| 0 <= i < x.len() ==> #[trigger] x[i] != cr,
        cr != lf,
    ensures
        text::first_occurrence(x + seq![cr, lf] + rest, seq![cr, lf]) == Some(x.len() as int),
{
    let n = seq![cr, lf];
    let s = x + n + rest;
    let k = x.len() as int;
    assert(s.subrange(k, k + 2) =~= n);
    assert forall|j: int| 0 <= j < k implies !#[trigger] text::occurs_at(s, n, j) by {
        if j + 2 <= s.len() {
            assert(s.subrange(j, j + 2)[0] == x[j]);
        }
    }
    lemma_first_occurrence_is(s, n, k);
}

/// Where a head ends whose last line is `x`.
proof fn lemma_last_line<T>(x: Seq<T>, body: Seq<T>, cr: T, lf: T)
    requires
        forall|i: int| 0 <= i < x.len() ==> #[trigger] x[i] != cr,
        cr != lf,
    ensures
        text::first_occurrence(x + seq![cr, lf, cr, lf] + body, seq![cr, lf, cr, lf]) == Some(
            x.len() as int,
        ),
{
    let n = seq![cr, lf, cr, lf];
    let s = x + n + body;
    let k = x.len() as int;
    assert(s.subrange(k, k + 4) =~= n);
    assert forall|j: int| 0 <= j < k implies !#[trigger] text::occurs_at(s, n, j) by {
        if j + 4 <= s.len() {
            assert(s.subrange(j, j + 4)[0] == x[j]);
        }
    }
    lemma_first_occurrence_is(s, n, k);
}

/// A line in front that is followed by another moves the end of the head back.
proof fn lemma_line_before<T>(x: Seq<T>, rest: Seq<T>, cr: T, lf: T, at: int)
    requires
        forall|i: int| 0 <= i < x.len() ==> #[trigger] x[i] != cr,
        cr != lf,
        rest.len() > 0,
        rest[0] != cr,
        text::first_occurrence(rest, seq![cr, lf, cr, lf]) == Some(at),
    ensures
        text::first_occurrence(x + seq![cr, lf] + rest, seq![cr, lf, cr, lf]) == Some(
            x.len() + 2 + at,
        ),
{
    let n = seq![cr, lf, cr, lf];
    let s = x + seq![cr, lf] + rest;
    let k = x.len() as int + 2;
    text::lemma_occurrence_from(rest, n, 0);
    assert(s.subrange(k + at, k + at + 4) =~= rest.subrange(at, at + 4));
    assert forall|j: int| 0 <= j < k + at implies !#[trigger] text::occurs_at(s, n, j) by {
        if j + 4 <= s.len() {
            let w = s.subrange(j, j + 4);
            if j < x.len() {
                assert(w[0] == x[j]);
            } else if j == x.len() {
                assert(w[2] == rest[0]);
            } else if j == x.len() + 1 {
                assert(w[0] == lf);
            } else {
                assert(w =~= rest.subrange(j - k, j - k + 4));
                assert(!text::occurs_at(rest, n, j - k));
            }
        }
    }
    lemma_first_occurrence_is(s, n, k + at);
}

// ---------------------------------------------------------------------------
// Replies
// ---------------------------------------------------------------------------

/// Decimal digits are printable.
proof fn lemma_digits_plain(n: nat)
    ensures
        is_plain(number::nat_text(n)),
{
    number::lemma_nat_text_digits(n);
    let s = number::nat_text(n);
    assert forall|i: int| 0 <= i < s.len() implies ' ' <= #[trigger] s[i] <= '~' by {
        assert('0' <= s[i] <= '9');
    }
}

/// Two printable texts in a row are printable.
proof fn lemma_plain_concat(a: Seq<char>, b: Seq<char>)
    requires
        is_plain(a),
        is_plain(b),
    ensures
        is_plain(a + b),
{
    let s = a + b;
    assert forall|i: int| 0 <= i < s.len() implies ' ' <= #[trigger] s[i] <= '~' by {
        if i < a.len() {
            assert(s[i] == a[i]);
        } else {
            assert(s[i] == b[i - a.len()]);
        }
    }
}

/// The head of a response ends where its first empty line does.
proof fn lemma_response_head_end(
    status: nat,
    reason: Seq<char>,
    content_type: Seq<char>,
    len: nat,
    body: Seq<char>,
)
    requires
        is_plain(reason),
        is_plain(content_type),
    ensures
        ({
            let none = Seq::<(Seq<char>, Seq<char>)>::empty();
            let head = http::response_head(status, reason, content_type, len, none);
            &&& head.len() >= 4
            &&& text::first_occurrence(head + body, "\r\n\r\n"@) == Some(head.len() - 4)
        }),
{
    let none = Seq::<(Seq<char>, Seq<char>)>::empty();
    let head = http::response_head(status, reason, content_type, len, none);
    reveal_strlit("HTTP/1.1 ");
    reveal_strlit(" ");
    reveal_strlit("\r\nContent-Type: ");
    reveal_strlit("\r\nContent-Length: ");
    reveal_strlit("\r\nConnection: close\r\n");
    reveal_strlit("\r\n");
    reveal_strlit("\r\n\r\n");
    reveal_strlit("Content-Type: ");
    reveal_strlit("Content-Length: ");
    reveal_strlit("Connection: close");
    let l1 = "HTTP/1.1 "@ + number::nat_text(status) + " "@ + reason;
    let l2 = "Content-Type: "@ + content_type;
    let l3 = "Content-Length: "@ + number::nat_text(len);
    let l4 = "Connection: close"@;
    let e = seq!['\r', '\n'];
    let ee = seq!['\r', '\n', '\r', '\n'];
    assert("\r\n\r\n"@ =~= ee);
    assert("\r\nContent-Type: "@ =~= e + "Content-Type: "@);
    assert("\r\nContent-Length: "@ =~= e + "Content-Length: "@);
    assert("\r\nConnection: close\r\n"@ =~= e + l4 + e);
    lemma_digits_plain(status);
    lemma_digits_plain(len);
    assert(is_plain("HTTP/1.1 "@));
    assert(is_plain(" "@));
    assert(is_plain("Content-Type: "@));
    assert(is_plain("Content-Length: "@));
    assert(is_plain(l4));
    lemma_plain_concat("HTTP/1.1 "@, number::nat_text(status));
    lemma_plain_concat("HTTP/1.1 "@ + number::nat_text(status), " "@);
    lemma_plain_concat("HTTP/1.1 "@ + number::nat_text(status) + " "@, reason);
    lemma_plain_concat("Content-Type: "@, content_type);
    lemma_plain_concat("Content-Length: "@, number::nat_text(len));
    let r4 = l4 + ee + body;
    let r3 = l3 + e + r4;
    let r2 = l2 + e + r3;
    lemma_last_line(l4, body, '\r', '\n');
    lemma_line_before(l3, r4, '\r', '\n', l4.len() as int);
    lemma_line_before(l2, r3, '\r', '\n', l3.len() as int + 2 + l4.len());
    lemma_line_before(l1, r2, '\r', '\n', l2.len() as int + 2 + l3.len() + 2 + l4.len());
    assert(http::extra_lines(none) =~= Seq::<char>::empty());
    assert(head + body =~= l1 + e + r2);
}

/// A status that begins with 2 is not the one for a refusal.
proof fn lemma_not_refused(s: Seq<char>)
    requires
        s.len() > 9,
        s[9] == '2',
    ensures
        !text::has_prefix(s, "HTTP/1.1 401"@),
        !text::has_prefix(s, "HTTP/1.0 401"@),
{
    reveal_strlit("HTTP/1.1 401");
    reveal_strlit("HTTP/1.0 401");
    assert("HTTP/1.1 401"@[9] == '4');
    assert("HTTP/1.0 401"@[9] == '4');
    if s.len() >= 12 {
        assert(s.take(12)[9] == '2');
    }
}

/// Where the status of a response is.
proof fn lemma_status_200(content_type: Seq<char>, len: nat)
    ensures
        ({
            let none = Seq::<(Seq<char>, Seq<char>)>::empty();
            let head = http::response_head(200, "OK"@, content_type, len, none);
            head.len() > 9 && head[9] == '2'
        }),
{
    reveal_strlit("HTTP/1.1 ");
    assert(number::nat_text(2) =~= seq!['2']);
    assert(number::nat_text(20) =~= seq!['2', '0']);
    assert(number::nat_text(200) =~= seq!['2', '0', '0']);
}

/// What the client makes of a text with a body behind an empty line.
proof fn lemma_reply_of(s: Seq<char>, k: int, body: Seq<char>)
    requires
        text::first_occurrence(s, "\r\n\r\n"@) == Some(k),
        s.skip(k + 4) == body,
        !text::has_prefix(s, "HTTP/1.1 401"@),
        !text::has_prefix(s, "HTTP/1.0 401"@),
    ensures
        control::reply_of(s) == control::reply_in(xmlrpc::response_in(body)),
{
}

/// The text of a response, and where its body begins.
proof fn lemma_response_text(body: Seq<char>)
    ensures
        ({
            let none = Seq::<(Seq<char>, Seq<char>)>::empty();
            let len = utf8::encode_utf8(body).len();
            let head = http::response_head(200, "OK"@, "text/xml"@, len, none);
            let s = util::text_of(http::response_bytes(200, "OK"@, "text/xml"@, body, none));
            let k = head.len() - 4;
            &&& s == head + body
            &&& text::first_occurrence(s, "\r\n\r\n"@) == Some(k)
            &&& s.skip(k + 4) == body
        }),
{
    reveal_strlit("OK");
    reveal_strlit("text/xml");
    let none = Seq::<(Seq<char>, Seq<char>)>::empty();
    let b = utf8::encode_utf8(body);
    let head = http::response_head(200, "OK"@, "text/xml"@, b.len(), none);
    let s = head + body;
    law_encoding_of_concatenation(head, body);
    util::law_text_round_trip(s);
    lemma_response_head_end(200, "OK"@, "text/xml"@, b.len(), body);
    assert(s.skip(head.len() - 4 + 4) =~= body);
}

/// What the client makes of a response with the given body.
proof fn lemma_reply(body: Seq<char>)
    ensures
        control::reply_of(
            util::text_of(
                http::response_bytes(200, "OK"@, "text/xml"@, body, Seq::empty()),
            ),
        ) == control::reply_in(xmlrpc::response_in(body)),
{
    let none = Seq::<(Seq<char>, Seq<char>)>::empty();
    let len = utf8::encode_utf8(body).len();
    let head = http::response_head(200, "OK"@, "text/xml"@, len, none);
    let s = util::text_of(http::response_bytes(200, "OK"@, "text/xml"@, body, none));
    lemma_response_text(body);
    lemma_status_200("text/xml"@, len);
    assert(s[9] == head[9]);
    lemma_not_refused(s);
    lemma_reply_of(s, head.len() - 4, body);
}

/// The client receives the value that the server sent.
pub proof fn law_reply_round_trip(v: ValueModel)
    requires
        xmlrpc::laws::sound(v),
    ensures
        control::reply_of(
            util::text_of(
                http::response_bytes(
                    200,
                    "OK"@,
                    "text/xml"@,
                    xmlrpc::response_text(v),
                    Seq::empty(),
                ),
            ),
        ) == Ok::<ValueModel, ErrorModel>(v),
{
    lemma_reply(xmlrpc::response_text(v));
    xmlrpc::laws::law_response_round_trip(v);
}

/// The client receives the fault that the server sent.
pub proof fn law_fault_reply_round_trip(code: i32, message: Seq<char>)
    ensures
        control::reply_of(
            util::text_of(
                http::response_bytes(
                    200,
                    "OK"@,
                    "text/xml"@,
                    xmlrpc::fault_document(code as int, message),
                    Seq::empty(),
                ),
            ),
        ) == Err::<ValueModel, ErrorModel>(ErrorModel::Fault(code, message)),
{
    lemma_reply(xmlrpc::fault_document(code as int, message));
    xmlrpc::laws::law_fault_round_trip(code, message);
}

/// What the server returns as a fault, and nothing else, reaches the client as
/// a fault: a body that is no response is a protocol error.
pub proof fn law_malformed_reply_is_no_fault(body: Seq<char>)
    ensures
        ({
            let reply = control::reply_of(
                util::text_of(
                    http::response_bytes(200, "OK"@, "text/xml"@, body, Seq::empty()),
                ),
            );
            match xmlrpc::response_in(body) {
                ResponseModel::Value(v) => reply == Ok::<ValueModel, ErrorModel>(v),
                ResponseModel::Fault(c, m) => reply == Err::<ValueModel, ErrorModel>(
                    ErrorModel::Fault(c, m),
                ),
                ResponseModel::Malformed(m) => reply == Err::<ValueModel, ErrorModel>(
                    ErrorModel::Protocol(m),
                ),
            }
        }),
{
    lemma_reply(body);
}

/// A client that is refused for want of credentials is told so, whatever else
/// the response holds.
#[verifier::spinoff_prover]
#[verifier::rlimit(50)]
pub proof fn law_unauthorized_reply(
    reason: Seq<char>,
    content_type: Seq<char>,
    body: Seq<char>,
    extra: Seq<(Seq<char>, Seq<char>)>,
)
    ensures
        control::reply_of(
            util::text_of(http::response_bytes(401, reason, content_type, body, extra)),
        ) == Err::<ValueModel, ErrorModel>(ErrorModel::Protocol("authentication required"@)),
{
    reveal_strlit("HTTP/1.1 ");
    reveal_strlit("HTTP/1.1 401");
    reveal_strlit("\r\n");
    reveal_strlit("\r\n\r\n");
    reveal_strlit("\r\nConnection: close\r\n");
    let b = utf8::encode_utf8(body);
    let head = http::response_head(401, reason, content_type, b.len(), extra);
    let s = head + body;
    law_encoding_of_concatenation(head, body);
    util::law_text_round_trip(s);
    assert(number::nat_text(4) =~= seq!['4']);
    assert(number::nat_text(40) =~= seq!['4', '0']);
    assert(number::nat_text(401) =~= seq!['4', '0', '1']);
    assert(s.take(12) =~= "HTTP/1.1 401"@);
    // The head ends with an empty line.
    lemma_extra_lines_end(extra);
    let front = "HTTP/1.1 "@ + number::nat_text(401) + " "@ + reason + "\r\nContent-Type: "@
        + content_type + "\r\nContent-Length: "@ + number::nat_text(b.len());
    let lines = "\r\nConnection: close\r\n"@ + http::extra_lines(extra);
    assert(head =~= front + lines + "\r\n"@);
    let k = head.len() as int - 4;
    assert(lines.len() >= 2);
    assert(lines[lines.len() - 2] == '\r' && lines[lines.len() - 1] == '\n') by {
        let close = "\r\nConnection: close\r\n"@;
        let more = http::extra_lines(extra);
        if more.len() > 0 {
            assert(lines[lines.len() - 1] == more[more.len() - 1]);
            assert(lines[lines.len() - 2] == more[more.len() - 2]);
        }
    }
    assert(s.subrange(k, k + 4) =~= "\r\n\r\n"@);
    text::lemma_occurrence_from(s, "\r\n\r\n"@, 0);
    assert(text::occurs_at(s, "\r\n\r\n"@, k));
}

/// Additional header lines end with a line end.
proof fn lemma_extra_lines_end(extra: Seq<(Seq<char>, Seq<char>)>)
    ensures
        http::extra_lines(extra).len() > 0 ==> {
            let l = http::extra_lines(extra);
            l.len() >= 2 && l[l.len() - 2] == '\r' && l[l.len() - 1] == '\n'
        },
    decreases extra.len(),
{
    if extra.len() > 0 {
        reveal_strlit("\r\n");
        lemma_extra_lines_end(extra.skip(1));
        let first = extra[0].0 + ": "@ + extra[0].1 + "\r\n"@;
        let more = http::extra_lines(extra.skip(1));
        let l = http::extra_lines(extra);
        assert(l =~= first + more);
        if more.len() > 0 {
            assert(l[l.len() - 1] == more[more.len() - 1]);
            assert(l[l.len() - 2] == more[more.len() - 2]);
        } else {
            assert(l[l.len() - 1] == first[first.len() - 1]);
            assert(l[l.len() - 2] == first[first.len() - 2]);
        }
    }
}

// ---------------------------------------------------------------------------
// Requests
// ---------------------------------------------------------------------------

/// The lines of a text that begins with the line `x`.
proof fn lemma_parts_line(x: Seq<char>, rest: Seq<char>)
    requires
        is_plain(x),
    ensures
        text::parts(x + "\r\n"@ + rest, "\r\n"@) == seq![x] + text::parts(rest, "\r\n"@),
{
    lemma_line_end_encoding();
    let s = x + "\r\n"@ + rest;
    lemma_first_line(x, rest, '\r', '\n');
    let k = x.len() as int;
    assert(s.take(k) =~= x);
    assert(s.skip(k + 2) =~= rest);
}

/// The words of a text that begins with the word `w`.
proof fn lemma_first_word(w: Seq<char>, rest: Seq<char>)
    requires
        w.len() > 0,
        forall|i: int| 0 <= i < w.len() ==> !text::is_white(#[trigger] w[i]),
        rest.len() > 0 ==> text::is_white(rest[0]),
    ensures
        text::words(w + rest) == seq![w] + text::words(rest),
{
    let s = w + rest;
    text::lemma_word_len(s);
    let n = text::word_len(s);
    assert(s[0] == w[0]);
    if n < w.len() {
        assert(s[n] == w[n]);
    }
    if n > w.len() {
        assert(s[w.len() as int] == rest[0]);
    }
    assert(n == w.len());
    assert(s.take(n) =~= w);
    assert(s.skip(n) =~= rest);
}

/// A header line `name: value`.
proof fn lemma_field(k: Seq<char>, v: Seq<char>, rest: Seq<Seq<char>>)
    requires
        k.len() > 0,
        v.len() > 0,
        forall|i: int| 0 <= i < k.len() ==> #[trigger] k[i] != ':',
        !text::is_white(k[0]) && !text::is_white(k.last()),
        !text::is_white(v[0]) && !text::is_white(v.last()),
    ensures
        http::header_fields(seq![k + seq![':', ' '] + v] + rest) == seq![(k, v)]
            + http::header_fields(rest),
{
    let l = k + seq![':', ' '] + v;
    let lines = seq![l] + rest;
    let n = k.len() as int;
    assert forall|j: int| 0 <= j < n implies l[j] != ':' by {
        assert(l[j] == k[j]);
    }
    assert(l[n] == ':');
    text::lemma_first_index_is(l, ':', n);
    assert(l.take(n) =~= k);
    let t = l.skip(n + 1);
    assert(t[0] == ' ');
    assert(t.skip(1) =~= v);
    assert(text::trimmed_start(t) == text::trimmed_start(v));
    assert(text::trimmed(t) == v);
    assert(lines[0] == l);
    assert(lines.skip(1) =~= rest);
}

/// The head of a client's request, line by line.
proof fn lemma_request_lines(len: nat)
    ensures
        control::request_head(len) == "POST /RPC2 HTTP/1.1"@ + "\r\n"@ + ("Host: localhost"@
            + "\r\n"@ + ("Content-Type: text/xml"@ + "\r\n"@ + (("Content-Length: "@
            + number::nat_text(len)) + "\r\n"@ + ("Connection: close"@ + "\r\n"@ + ("\r\n"@))))),
        is_plain("POST /RPC2 HTTP/1.1"@),
        is_plain("Host: localhost"@),
        is_plain("Content-Type: text/xml"@),
        is_plain("Content-Length: "@ + number::nat_text(len)),
        is_plain("Connection: close"@),
{
    reveal_strlit(
        "POST /RPC2 HTTP/1.1\r\nHost: localhost\r\nContent-Type: text/xml\r\nContent-Length: ",
    );
    reveal_strlit("\r\nConnection: close\r\n\r\n");
    reveal_strlit("POST /RPC2 HTTP/1.1");
    reveal_strlit("Host: localhost");
    reveal_strlit("Content-Type: text/xml");
    reveal_strlit("Content-Length: ");
    reveal_strlit("Connection: close");
    reveal_strlit("\r\n");
    lemma_digits_plain(len);
    lemma_plain_concat("Content-Length: "@, number::nat_text(len));
    assert("POST /RPC2 HTTP/1.1\r\nHost: localhost\r\nContent-Type: text/xml\r\nContent-Length: "@
        =~= "POST /RPC2 HTTP/1.1"@ + "\r\n"@ + "Host: localhost"@ + "\r\n"@
        + "Content-Type: text/xml"@ + "\r\n"@ + "Content-Length: "@);
    assert("\r\nConnection: close\r\n\r\n"@ =~= "\r\n"@ + "Connection: close"@ + "\r\n"@ + "\r\n"@);
    assert(control::request_head(len) =~= "POST /RPC2 HTTP/1.1"@ + "\r\n"@ + ("Host: localhost"@
        + "\r\n"@ + ("Content-Type: text/xml"@ + "\r\n"@ + (("Content-Length: "@
        + number::nat_text(len)) + "\r\n"@ + ("Connection: close"@ + "\r\n"@ + ("\r\n"@))))));
}

/// The headers of a client's request.
pub open spec fn client_headers(len: nat) -> Seq<(Seq<char>, Seq<char>)> {
    seq![
        ("Host"@, "localhost"@),
        ("Content-Type"@, "text/xml"@),
        ("Content-Length"@, number::nat_text(len)),
        ("Connection"@, "close"@),
    ]
}

/// The header lines of a client's request.
proof fn lemma_client_fields(len: nat)
    ensures
        http::header_fields(
            seq![
                "Host: localhost"@,
                "Content-Type: text/xml"@,
                "Content-Length: "@ + number::nat_text(len),
                "Connection: close"@,
                Seq::empty(),
                Seq::empty(),
            ],
        ) == client_headers(len),
{
    reveal_strlit("Host: localhost");
    reveal_strlit("Host");
    reveal_strlit("localhost");
    reveal_strlit("Content-Type: text/xml");
    reveal_strlit("Content-Type");
    reveal_strlit("text/xml");
    reveal_strlit("Content-Length: ");
    reveal_strlit("Content-Length");
    reveal_strlit("Connection: close");
    reveal_strlit("Connection");
    reveal_strlit("close");
    let cs = seq![':', ' '];
    let empty = Seq::<char>::empty();
    let n = number::nat_text(len);
    number::lemma_nat_text_digits(len);
    assert('0' <= n[0] <= '9');
    assert('0' <= n[n.len() - 1] <= '9');
    assert("Host: localhost"@ =~= "Host"@ + cs + "localhost"@);
    assert("Content-Type: text/xml"@ =~= "Content-Type"@ + cs + "text/xml"@);
    assert("Content-Length: "@ + n =~= "Content-Length"@ + cs + n);
    assert("Connection: close"@ =~= "Connection"@ + cs + "close"@);
    let r6 = Seq::<Seq<char>>::empty();
    let r5 = seq![empty];
    let r4 = seq![empty, empty];
    assert(r5.skip(1) =~= r6);
    assert(r4.skip(1) =~= r5);
    assert(text::first_index(empty, ':') == 0);
    assert(http::header_fields(r6) =~= Seq::<(Seq<char>, Seq<char>)>::empty());
    assert(http::header_fields(r5) == http::header_fields(r6));
    assert(http::header_fields(r4) == http::header_fields(r5));
    let r3 = seq!["Connection"@ + cs + "close"@] + r4;
    lemma_field("Connection"@, "close"@, r4);
    let r2 = seq!["Content-Length"@ + cs + n] + r3;
    lemma_field("Content-Length"@, n, r3);
    let r1 = seq!["Content-Type"@ + cs + "text/xml"@] + r2;
    lemma_field("Content-Type"@, "text/xml"@, r2);
    let r0 = seq!["Host"@ + cs + "localhost"@] + r1;
    lemma_field("Host"@, "localhost"@, r1);
    assert(r0 =~= seq![
        "Host: localhost"@,
        "Content-Type: text/xml"@,
        "Content-Length: "@ + n,
        "Connection: close"@,
        empty,
        empty,
    ]);
    assert(http::header_fields(r0) =~= client_headers(len));
}

/// The length that a client's headers announce.
proof fn lemma_client_length(len: nat)
    requires
        len <= usize::MAX,
    ensures
        http::body_length(client_headers(len)) == len,
{
    reveal_strlit("Content-Length");
    reveal_strlit("content-length");
    reveal_strlit("Connection");
    let h = client_headers(len);
    let t = h.drop_last();
    assert(h.last() == ("Connection"@, "close"@));
    assert(text::lowered("Connection"@).len() == 10);
    assert(text::lowered("content-length"@).len() == 14);
    assert(!http::same_name("Connection"@, "content-length"@));
    assert(t.last() == ("Content-Length"@, number::nat_text(len)));
    assert(text::lowered("Content-Length"@) =~= text::lowered("content-length"@));
    number::law_unsigned_round_trip(len);
    assert(http::body_length(h) == http::body_length(t));
}

/// The head of a client's request, read back.
proof fn lemma_client_head(len: nat)
    requires
        len <= usize::MAX,
    ensures
        http::head_of(control::request_head(len)) == Some(
            http::HeadModel {
                method: "POST"@,
                path: "/RPC2"@,
                headers: client_headers(len),
                content_length: len,
            },
        ),
{
    let e = "\r\n"@;
    let l1 = "POST /RPC2 HTTP/1.1"@;
    let l2 = "Host: localhost"@;
    let l3 = "Content-Type: text/xml"@;
    let l4 = "Content-Length: "@ + number::nat_text(len);
    let l5 = "Connection: close"@;
    let empty = Seq::<char>::empty();
    lemma_request_lines(len);
    let t5 = l5 + e + e;
    let t4 = l4 + e + t5;
    let t3 = l3 + e + t4;
    let t2 = l2 + e + t3;
    let s = control::request_head(len);
    assert(s =~= l1 + e + t2);
    lemma_parts_line(l1, t2);
    lemma_parts_line(l2, t3);
    lemma_parts_line(l3, t4);
    lemma_parts_line(l4, t5);
    assert(l5 + e + e =~= l5 + e + (empty + e + empty));
    lemma_parts_line(l5, empty + e + empty);
    lemma_parts_line(empty, empty);
    lemma_no_occurrence_in_empty();
    assert(text::parts(empty, e) =~= seq![empty]);
    let lines = text::parts(s, e);
    let fields = seq![l2, l3, l4, l5, empty, empty];
    assert(lines =~= seq![l1] + fields);
    assert(lines[0] == l1);
    assert(lines.skip(1) =~= fields);
    lemma_client_fields(len);
    lemma_client_length(len);
    lemma_request_words();
}

proof fn lemma_no_occurrence_in_empty()
    ensures
        text::first_occurrence(Seq::<char>::empty(), "\r\n"@) is None,
{
    reveal_strlit("\r\n");
}

/// The words of a client's request line.
proof fn lemma_request_words()
    ensures
        ({
            let w = text::words("POST /RPC2 HTTP/1.1"@);
            w.len() >= 2 && w[0] == "POST"@ && w[1] == "/RPC2"@
        }),
{
    reveal_strlit("POST /RPC2 HTTP/1.1");
    reveal_strlit("POST");
    reveal_strlit("/RPC2");
    reveal_strlit(" HTTP/1.1");
    let tail = " HTTP/1.1"@;
    let rest = seq![' '] + ("/RPC2"@ + tail);
    assert("POST /RPC2 HTTP/1.1"@ =~= "POST"@ + rest);
    lemma_first_word("POST"@, rest);
    assert(rest.skip(1) =~= "/RPC2"@ + tail);
    assert(text::words(rest) == text::words("/RPC2"@ + tail));
    lemma_first_word("/RPC2"@, tail);
}

/// Where the head of a client's request ends, in bytes.
proof fn lemma_client_head_end(len: nat, body: Seq<u8>)
    ensures
        ({
            let head = utf8::encode_utf8(control::request_head(len));
            &&& head.len() >= 4
            &&& text::first_occurrence(head + body, http::head_end()) == Some(head.len() - 4)
        }),
{
    let e = "\r\n"@;
    let l1 = "POST /RPC2 HTTP/1.1"@;
    let l2 = "Host: localhost"@;
    let l3 = "Content-Type: text/xml"@;
    let l4 = "Content-Length: "@ + number::nat_text(len);
    let l5 = "Connection: close"@;
    lemma_request_lines(len);
    lemma_line_end_encoding();
    reveal_strlit("Host: localhost");
    reveal_strlit("Content-Type: text/xml");
    reveal_strlit("Content-Length: ");
    reveal_strlit("Connection: close");
    let t5 = l5 + e + e;
    let t4 = l4 + e + t5;
    let t3 = l3 + e + t4;
    let t2 = l2 + e + t3;
    assert(control::request_head(len) =~= l1 + e + t2);
    let b1 = utf8::encode_utf8(l1);
    let b2 = utf8::encode_utf8(l2);
    let b3 = utf8::encode_utf8(l3);
    let b4 = utf8::encode_utf8(l4);
    let b5 = utf8::encode_utf8(l5);
    let n = seq![13u8, 10u8];
    law_encoding_of_concatenation(l1 + e, t2);
    law_encoding_of_concatenation(l1, e);
    law_encoding_of_concatenation(l2 + e, t3);
    law_encoding_of_concatenation(l2, e);
    law_encoding_of_concatenation(l3 + e, t4);
    law_encoding_of_concatenation(l3, e);
    law_encoding_of_concatenation(l4 + e, t5);
    law_encoding_of_concatenation(l4, e);
    law_encoding_of_concatenation(l5 + e, e);
    law_encoding_of_concatenation(l5, e);
    lemma_plain_encoding(l1);
    lemma_plain_encoding(l2);
    lemma_plain_encoding(l3);
    lemma_plain_encoding(l4);
    lemma_plain_encoding(l5);
    let nn = seq![13u8, 10u8, 13u8, 10u8];
    let r5 = b5 + nn + body;
    let r4 = b4 + n + r5;
    let r3 = b3 + n + r4;
    let r2 = b2 + n + r3;
    assert(b5[0] >= 32);
    assert(b4[0] >= 32);
    assert(b3[0] >= 32);
    assert(b2[0] >= 32);
    lemma_last_line(b5, body, 13u8, 10u8);
    lemma_line_before(b4, r5, 13u8, 10u8, b5.len() as int);
    lemma_line_before(b3, r4, 13u8, 10u8, b4.len() as int + 2 + b5.len());
    lemma_line_before(b2, r3, 13u8, 10u8, b3.len() as int + 2 + b4.len() + 2 + b5.len());
    lemma_line_before(
        b1,
        r2,
        13u8,
        10u8,
        b2.len() as int + 2 + b3.len() + 2 + b4.len() + 2 + b5.len(),
    );
    let head = utf8::encode_utf8(control::request_head(len));
    assert(head =~= b1 + n + (b2 + n + (b3 + n + (b4 + n + (b5 + n + n)))));
    assert(head + body =~= b1 + n + r2);
}

/// The largest number of bytes that one read gives.
pub const READ_SIZE: usize = 4096;

/// What a stream gives from read `i` on.
pub open spec fn joined(reads: Seq<Seq<u8>>, i: int) -> Seq<u8>
    decreases reads.len() - i,
{
    if i < 0 || i >= reads.len() {
        Seq::empty()
    } else {
        reads[i] + joined(reads, i + 1)
    }
}

/// Ten to the power of `k`.
spec fn power_of_ten(k: nat) -> nat
    decreases k,
{
    if k == 0 {
        1
    } else {
        10 * power_of_ten((k - 1) as nat)
    }
}

/// A number below ten to the power of `k` has at most `k` digits.
proof fn lemma_digit_count(n: nat, k: nat)
    requires
        k >= 1,
        n < power_of_ten(k),
    ensures
        number::nat_text(n).len() <= k,
    decreases k,
{
    if n >= 10 {
        if k == 1 {
            assert(power_of_ten(1) == 10 * power_of_ten(0));
        } else {
            assert(n / 10 < power_of_ten((k - 1) as nat));
            lemma_digit_count(n / 10, (k - 1) as nat);
        }
    }
}

/// The head of a client's request is short.
proof fn lemma_client_head_len(len: nat)
    requires
        len <= usize::MAX,
    ensures
        utf8::encode_utf8(control::request_head(len)).len() + READ_SIZE <= http::MAX_HEAD,
{
    reveal_with_fuel(power_of_ten, 21);
    assert(len < power_of_ten(20));
    lemma_digit_count(len, 20);
    reveal_strlit(
        "POST /RPC2 HTTP/1.1\r\nHost: localhost\r\nContent-Type: text/xml\r\nContent-Length: ",
    );
    reveal_strlit("\r\nConnection: close\r\n\r\n");
    let s = control::request_head(len);
    number::lemma_nat_text_digits(len);
    assert(utf8::is_ascii_chars(s)) by {
        let a =
            "POST /RPC2 HTTP/1.1\r\nHost: localhost\r\nContent-Type: text/xml\r\nContent-Length: "@;
        let n = number::nat_text(len);
        assert forall|i: int| 0 <= i < s.len() implies '\0' <= #[trigger] s[i] <= '\u{7f}' by {
            if i < a.len() {
                assert(s[i] == a[i]);
            } else if i < a.len() + n.len() {
                assert(s[i] == n[i - a.len()]);
            } else {
                assert(s[i] == "\r\nConnection: close\r\n\r\n"@[i - a.len() - n.len()]);
            }
        }
    }
    utf8::is_ascii_chars_encode_utf8(s);
}

/// How far a client's request has been read after its first bytes `done`.
spec fn read_so_far(len: nat, done: Seq<u8>) -> Reading {
    let head = utf8::encode_utf8(control::request_head(len));
    if done.len() < head.len() {
        Reading { phase: Phase::Head, bytes: done }
    } else {
        Reading {
            phase: Phase::Body(
                http::HeadModel {
                    method: "POST"@,
                    path: "/RPC2"@,
                    headers: client_headers(len),
                    content_length: len,
                },
            ),
            bytes: done.skip(head.len() as int),
        }
    }
}

/// One more read of a client's request.
proof fn lemma_one_read(b: Seq<u8>, done: Seq<u8>, data: Seq<u8>, rest: Seq<u8>)
    requires
        b.len() <= usize::MAX,
        data.len() <= READ_SIZE,
        done + (data + rest) == utf8::encode_utf8(control::request_head(b.len())) + b,
    ensures
        http::fed(read_so_far(b.len(), done), data) == read_so_far(b.len(), done + data),
{
    let len = b.len();
    let head = utf8::encode_utf8(control::request_head(len));
    let all = head + b;
    let n = http::head_end();
    let x = done + data;
    assert(x + rest =~= all);
    assert forall|i: int| 0 <= i < x.len() implies x[i] == all[i] by {
        assert((x + rest)[i] == x[i]);
    }
    lemma_client_head_end(len, b);
    lemma_client_head(len);
    lemma_client_head_len(len);
    util::law_text_round_trip(control::request_head(len));
    text::lemma_occurrence_from(all, n, 0);
    text::lemma_occurrence_from(x, n, 0);
    let e = head.len() as int - 4;
    assert forall|p: int| text::occurs_at(x, n, p) implies text::occurs_at(all, n, p) by {
        assert(all.subrange(p, p + 4) =~= x.subrange(p, p + 4));
    }
    if done.len() < head.len() {
        if x.len() < head.len() {
            if let Some(p) = text::first_occurrence(x, n) {
                assert(text::occurs_at(all, n, p));
                assert(p < e);
            }
        } else {
            assert(x.subrange(e, e + 4) =~= all.subrange(e, e + 4));
            assert(text::occurs_at(x, n, e));
            let p = text::first_occurrence(x, n)->0;
            assert(text::occurs_at(all, n, p));
            assert(p == e);
            assert(x.take(e + 4) =~= head) by {
                assert forall|i: int| 0 <= i < head.len() implies x.take(e + 4)[i] == head[i] by {
                    assert(x[i] == all[i]);
                }
            }
        }
    } else {
        let h = head.len() as int;
        assert(done.skip(h) + data =~= x.skip(h));
    }
}

/// The reads from `i` on complete a client's request.
proof fn lemma_reads(b: Seq<u8>, reads: Seq<Seq<u8>>, i: int, done: Seq<u8>)
    requires
        b.len() <= usize::MAX,
        0 <= i <= reads.len(),
        forall|k: int| 0 <= k < reads.len() ==> 0 < (#[trigger] reads[k]).len() <= READ_SIZE,
        done + joined(reads, i) == utf8::encode_utf8(control::request_head(b.len())) + b,
    ensures
        ({
            let head = utf8::encode_utf8(control::request_head(b.len()));
            http::fed_from(read_so_far(b.len(), done), reads, i) == read_so_far(
                b.len(),
                head + b,
            )
        }),
    decreases reads.len() - i,
{
    let head = utf8::encode_utf8(control::request_head(b.len()));
    let all = head + b;
    let m = read_so_far(b.len(), done);
    let rest = joined(reads, i);
    if i == reads.len() {
        assert(done =~= all);
    } else if http::complete(m) {
        assert(done.len() >= head.len() + b.len());
        assert(done.len() + rest.len() == all.len());
        assert(rest =~= Seq::<u8>::empty());
        assert(done =~= all);
    } else {
        let data = reads[i];
        let more = joined(reads, i + 1);
        assert(rest == data + more);
        lemma_one_read(b, done, data, more);
        assert(done + data + more =~= done + (data + more));
        lemma_reads(b, reads, i + 1, done + data);
    }
}

/// The server receives the call that the client sent, however the stream cuts
/// it into reads: the request is a `POST /RPC2` whose body is the client's
/// document.
pub proof fn law_request_round_trip(body: Seq<char>, reads: Seq<Seq<u8>>)
    requires
        utf8::encode_utf8(body).len() <= usize::MAX,
        forall|k: int| 0 <= k < reads.len() ==> 0 < (#[trigger] reads[k]).len() <= READ_SIZE,
        joined(reads, 0) == control::request_bytes(body),
    ensures
        http::request_of(reads) == Some(
            RequestModel {
                method: "POST"@,
                path: "/RPC2"@,
                headers: client_headers(utf8::encode_utf8(body).len()),
                body,
            },
        ),
{
    let b = utf8::encode_utf8(body);
    let head = utf8::encode_utf8(control::request_head(b.len()));
    let empty = Seq::<u8>::empty();
    lemma_client_head_end(b.len(), b);
    assert(empty + joined(reads, 0) =~= head + b);
    lemma_reads(b, reads, 0, empty);
    assert(read_so_far(b.len(), empty) == http::unread());
    let m = read_so_far(b.len(), head + b);
    assert(m.bytes =~= b);
    util::law_text_round_trip(body);
}

/// It does not matter how a request is cut into reads, as long as no more
/// than the allowed number of bytes has come when the head ends.
pub proof fn law_request_can_be_cut_anywhere(m: Reading, a: Seq<u8>, b: Seq<u8>)
    requires
        m.phase is Head ==> (m.bytes + a + b).len() <= http::MAX_HEAD,
    ensures
        http::fed(http::fed(m, a), b) == http::fed(m, a + b),
{
    let n = http::head_end();
    let x = m.bytes + a;
    let y = m.bytes + (a + b);
    assert(x + b =~= y);
    if m.phase is Head {
        text::lemma_occurrence_from(x, n, 0);
        text::lemma_occurrence_from(y, n, 0);
        match text::first_occurrence(x, n) {
            Some(p) => {
                assert(y.subrange(p, p + 4) =~= x.subrange(p, p + 4));
                assert(text::occurs_at(y, n, p));
                let q = text::first_occurrence(y, n)->0;
                if q < p {
                    assert(x.subrange(q, q + 4) =~= y.subrange(q, q + 4));
                    assert(text::occurs_at(x, n, q));
                }
                assert(q == p);
                assert(y.take(p + 4) =~= x.take(p + 4));
                assert(y.skip(p + 4) =~= x.skip(p + 4) + b);
            },
            None => {},
        }
    }
}

// ---------------------------------------------------------------------------
// Credentials
// ---------------------------------------------------------------------------

/// The value of the authorization header for a user and a password.
pub open spec fn authorization(user: Seq<char>, password: Seq<char>) -> Seq<char> {
    "Basic "@ + base64::digits_text(base64::encoded(utf8::encode_utf8(user + seq![':'] + password)))
}

/// The credentials that a client puts into the authorization header are those
/// that the server reads, whatever the password holds. A user name cannot
/// hold a colon.
pub proof fn law_credentials_round_trip(user: Seq<char>, password: Seq<char>)
    requires
        forall|i: int| 0 <= i < user.len() ==> #[trigger] user[i] != ':',
    ensures
        http::credentials_of(authorization(user, password)) == Some((user, password)),
{
    reveal_strlit("Basic ");
    let both = user + seq![':'] + password;
    let raw = utf8::encode_utf8(both);
    let e = base64::encoded(raw);
    let t = base64::digits_text(e);
    let value = authorization(user, password);
    assert(value.take(6) =~= "Basic "@);
    assert(value.skip(6) =~= t);
    assert(raw.len() > 0) by {
        assert(both[0] == both[0]);
        assert(utf8::encode_utf8(both).len() >= 1) by {
            assert(utf8::encode_scalar(both[0] as u32).len() >= 1);
        }
    }
    base64::lemma_digits_text(raw);
    assert(text::trimmed(t) == t) by {
        assert(!text::is_white(t[0]));
        assert(!text::is_white(t[t.len() - 1]));
    }
    base64::law_base64_round_trip(raw);
    utf8::encode_utf8_valid_utf8(both);
    utf8::encode_utf8_decode_utf8(both);
    let n = user.len() as int;
    assert forall|j: int| 0 <= j < n implies both[j] != ':' by {
        assert(both[j] == user[j]);
    }
    assert(both[n] == ':');
    text::lemma_first_index_is(both, ':', n);
    assert(both.take(n) =~= user);
    assert(both.skip(n + 1) =~= password);
}

// ---------------------------------------------------------------------------
// Parts
// ---------------------------------------------------------------------------

/// A header is found by its name in any letter case, the first of several.
pub proof fn law_headers(
    name: Seq<char>,
    value: Seq<char>,
    rest: Seq<(Seq<char>, Seq<char>)>,
    asked: Seq<char>,
)
    ensures
        text::lowered(asked) == text::lowered(name) ==> http::header_value(
            seq![(name, value)] + rest,
            asked,
        ) == Some(value),
        text::lowered(asked) != text::lowered(name) ==> http::header_value(
            seq![(name, value)] + rest,
            asked,
        ) == http::header_value(rest, asked),
        http::header_value(Seq::empty(), asked) is None,
{
    assert((seq![(name, value)] + rest).skip(1) =~= rest);
}

/// The length of a body is what the last header about it says.
pub proof fn law_body_length(headers: Seq<(Seq<char>, Seq<char>)>, name: Seq<char>, value: Seq<char>, n: nat)
    requires
        n <= usize::MAX,
    ensures
        text::lowered(name) == text::lowered("content-length"@) ==> http::body_length(
            headers.push((name, number::nat_text(n))),
        ) == n,
        text::lowered(name) != text::lowered("content-length"@) ==> http::body_length(
            headers.push((name, value)),
        ) == http::body_length(headers),
        http::body_length(Seq::empty()) == 0,
{
    let a = headers.push((name, number::nat_text(n)));
    let b = headers.push((name, value));
    assert(b.drop_last() =~= headers);
    number::law_bounds(n, usize::MAX as nat, 0, 0, 0);
}

/// A header line is a name and a value with a colon between them.
pub proof fn law_header_lines(lines: Seq<Seq<char>>, name: Seq<char>, value: Seq<char>)
    requires
        forall|i: int| 0 <= i < name.len() ==> #[trigger] name[i] != ':',
    ensures
        http::header_fields(seq![name + seq![':'] + value] + lines) == seq![
            (text::trimmed(name), text::trimmed(value)),
        ] + http::header_fields(lines),
        http::header_fields(seq![name] + lines) == http::header_fields(lines),
        http::header_fields(Seq::empty()).len() == 0,
{
    let l = name + seq![':'] + value;
    let n = name.len() as int;
    assert forall|j: int| 0 <= j < n implies l[j] != ':' by {
        assert(l[j] == name[j]);
    }
    assert(l[n] == ':');
    text::lemma_first_index_is(l, ':', n);
    text::lemma_first_index_is(name, ':', n);
    assert(l.take(n) =~= name);
    assert(l.skip(n + 1) =~= value);
    assert((seq![l] + lines).skip(1) =~= lines);
    assert((seq![name] + lines).skip(1) =~= lines);
}

/// A request line is a method and a path.
pub proof fn law_request_line(s: Seq<char>)
    ensures
        ({
            let lines = text::parts(s, "\r\n"@);
            let w = text::words(lines[0]);
            &&& http::head_of(s) is Some <==> w.len() >= 2
            &&& w.len() >= 2 ==> {
                let h = http::head_of(s)->0;
                &&& h.method == w[0]
                &&& h.path == w[1]
                &&& h.headers == http::header_fields(lines.skip(1))
                &&& h.content_length == http::body_length(h.headers)
            }
        }),
{
}

/// A request is complete once its body is, and its body is just as long as was
/// announced, or as much of it as came.
pub proof fn law_request_body(h: HeadModel, bytes: Seq<u8>)
    ensures
        ({
            let m = Reading { phase: Phase::Body(h), bytes };
            let r = http::outcome(m);
            &&& http::complete(m) <==> bytes.len() >= h.content_length
            &&& r is Some
            &&& r->0.method == h.method && r->0.path == h.path && r->0.headers == h.headers
            &&& bytes.len() >= h.content_length ==> r->0.body == util::text_of(
                bytes.take(h.content_length as int),
            )
            &&& bytes.len() < h.content_length ==> r->0.body == util::text_of(bytes)
            &&& http::outcome(Reading { phase: Phase::Head, bytes }) is None
            &&& http::outcome(Reading { phase: Phase::Failed, bytes }) is None
            &&& !http::complete(Reading { phase: Phase::Head, bytes })
            &&& http::complete(Reading { phase: Phase::Failed, bytes })
        }),
{
    if bytes.len() == h.content_length {
        assert(bytes.take(h.content_length as int) =~= bytes);
    }
}

/// A head that never ends is given up after a megabyte.
pub proof fn law_endless_head(bytes: Seq<u8>, data: Seq<u8>)
    requires
        bytes.len() + data.len() > 1024 * 1024,
    ensures
        http::fed(Reading { phase: Phase::Head, bytes }, data).phase is Failed,
{
}

/// The head of a response, line by line.
pub proof fn law_response_head(
    status: nat,
    reason: Seq<char>,
    content_type: Seq<char>,
    body: Seq<char>,
    name: Seq<char>,
    value: Seq<char>,
    rest: Seq<(Seq<char>, Seq<char>)>,
)
    ensures
        http::response_bytes(status, reason, content_type, body, rest) == utf8::encode_utf8(
            "HTTP/1.1 "@ + number::nat_text(status) + " "@ + reason + "\r\nContent-Type: "@
                + content_type + "\r\nContent-Length: "@ + number::nat_text(
                utf8::encode_utf8(body).len(),
            ) + "\r\nConnection: close\r\n"@ + http::extra_lines(rest) + "\r\n"@,
        ) + utf8::encode_utf8(body),
        http::extra_lines(seq![(name, value)] + rest) == name + ": "@ + value + "\r\n"@
            + http::extra_lines(rest),
        http::extra_lines(Seq::empty()).len() == 0,
{
    assert((seq![(name, value)] + rest).skip(1) =~= rest);
}

/// Who is let in: everyone where no user is asked for, else the user asked for,
/// with the password if one is asked for.
pub proof fn law_admission(user: Seq<char>, password: Seq<char>, u: Seq<char>, p: Seq<char>)
    ensures
        ({
            let open = crate::config::settings::AuthModel { username: None, password: None };
            let named = crate::config::settings::AuthModel {
                username: Some(user),
                password: None,
            };
            let locked = crate::config::settings::AuthModel {
                username: Some(user),
                password: Some(password),
            };
            &&& http::admits(open, None) && http::admits(open, Some((u, p)))
            &&& !http::admits(named, None) && !http::admits(locked, None)
            &&& http::admits(named, Some((u, p))) <==> u == user
            &&& http::admits(locked, Some((u, p))) <==> u == user && p == password
        }),
{
}

/// What a client makes of a reply: without an end of the head there is no body,
/// a refusal asks for credentials whatever the body says, and otherwise the body
/// says what was returned.
pub proof fn law_replies(rest: Seq<char>, s: Seq<char>, v: ValueModel, code: i32, why: Seq<char>)
    ensures
        ({
            let failed = |r: Seq<char>, m: Seq<char>|
                control::reply_of(r) == Err::<ValueModel, ErrorModel>(ErrorModel::Protocol(m));
            let ends = |r: Seq<char>| text::first_occurrence(r, "\r\n\r\n"@) is Some;
            let newer = "HTTP/1.1 401"@ + rest;
            let older = "HTTP/1.0 401"@ + rest;
            let body = xmlrpc::response_in(
                s.skip(text::first_occurrence(s, "\r\n\r\n"@)->0 + 4),
            );
            let refused = text::has_prefix(s, "HTTP/1.1 401"@) || text::has_prefix(
                s,
                "HTTP/1.0 401"@,
            );
            &&& !ends(s) ==> failed(s, "no HTTP body in response"@)
            &&& ends(newer) ==> failed(newer, "authentication required"@)
            &&& ends(older) ==> failed(older, "authentication required"@)
            &&& ends(s) && !refused ==> {
                &&& body == ResponseModel::Value(v) ==> control::reply_of(s) == Ok::<
                    ValueModel,
                    ErrorModel,
                >(v)
                &&& body == ResponseModel::Fault(code, why) ==> control::reply_of(s) == Err::<
                    ValueModel,
                    ErrorModel,
                >(ErrorModel::Fault(code, why))
                &&& body == ResponseModel::Malformed(why) ==> failed(s, why)
            }
        }),
{
    text::law_prefix_and_suffix("HTTP/1.1 401"@, rest);
    text::law_prefix_and_suffix("HTTP/1.0 401"@, rest);
}

} // verus!
