//! The client side of the control protocol: XML-RPC calls over HTTP.
//!
//! Requests are sent as `POST /RPC2`; whoever owns the connection sends the
//! bytes and hands back what came in reply.
use crate::number;
use crate::text;
use crate::util;
use crate::xmlrpc;
use crate::xmlrpc::Response;
use crate::xmlrpc::ResponseModel;
use crate::xmlrpc::Value;
use crate::xmlrpc::ValueModel;
use vstd::prelude::*;
use vstd::slice::slice_subrange;
use vstd::utf8;

verus! {

/// Errors that can occur while making a control call.
#[derive(Debug)]
pub enum ClientError {
    /// Could not connect to, or talk to, the daemon.
    Io(String),
    /// The server returned a malformed HTTP or XML-RPC response.
    Protocol(String),
    /// The server returned an XML-RPC fault `(code, message)`.
    Fault(i32, String),
}

/// The mathematical content of a [`ClientError`].
pub enum ErrorModel {
    Io(Seq<char>),
    Protocol(Seq<char>),
    Fault(i32, Seq<char>),
}

impl View for ClientError {
    type V = ErrorModel;

    open spec fn view(&self) -> ErrorModel {
        match self {
            ClientError::Io(s) => ErrorModel::Io(s@),
            ClientError::Protocol(s) => ErrorModel::Protocol(s@),
            ClientError::Fault(c, s) => ErrorModel::Fault(*c, s@),
        }
    }
}

/// How an error is shown.
pub open spec fn error_text(e: ErrorModel) -> Seq<char> {
    match e {
        ErrorModel::Io(s) => s,
        ErrorModel::Protocol(s) => "protocol error: "@ + s,
        ErrorModel::Fault(c, s) => "fault "@ + number::int_text(c as int) + ": "@ + s,
    }
}

impl ClientError {
    /// How the error is shown.
    pub fn message(&self) -> (r: String)
        ensures
            r@ == error_text(self@),
    {
        match self {
            ClientError::Io(s) => s.clone(),
            ClientError::Protocol(s) => {
                let mut r = "protocol error: ".to_string();
                r.append(s.as_str());
                r
            },
            ClientError::Fault(c, s) => {
                let mut r = "fault ".to_string();
                r.append(number::int_string(*c as i64).as_str());
                r.append(": ");
                r.append(s.as_str());
                r
            },
        }
    }
}

/// The head of a request with a body of `len` bytes.
pub open spec fn request_head(len: nat) -> Seq<char> {
    "POST /RPC2 HTTP/1.1\r\nHost: localhost\r\nContent-Type: text/xml\r\nContent-Length: "@
        + number::nat_text(len) + "\r\nConnection: close\r\n\r\n"@
}

/// The request that carries a document.
pub open spec fn request_bytes(body: Seq<char>) -> Seq<u8> {
    let b = utf8::encode_utf8(body);
    utf8::encode_utf8(request_head(b.len())) + b
}

/// The request for a call of `method`.
pub fn call_request(method: &str, params: &[Value]) -> (r: Vec<u8>)
    ensures
        r@ == request_bytes(xmlrpc::call_text(method@, xmlrpc::value_models(params@))),
{
    let body = xmlrpc::serialize_method_call(method, params);
    let bytes = body.as_str().as_bytes();
    let mut head =
        "POST /RPC2 HTTP/1.1\r\nHost: localhost\r\nContent-Type: text/xml\r\nContent-Length: ".to_string();
    head.append(number::nat_string(bytes.len() as u64).as_str());
    head.append("\r\nConnection: close\r\n\r\n");
    let mut out = util::bytes_of(head.as_str());
    util::push_bytes(&mut out, bytes);
    out
}

/// What a response says: the value it carries, the fault that the server
/// returned, or a protocol error where it is no response.
pub open spec fn reply_in(r: ResponseModel) -> Result<ValueModel, ErrorModel> {
    match r {
        ResponseModel::Value(v) => Ok(v),
        ResponseModel::Fault(c, m) => Err(ErrorModel::Fault(c, m)),
        ResponseModel::Malformed(m) => Err(ErrorModel::Protocol(m)),
    }
}

/// What a reply says: the value it carries, or the error.
pub open spec fn reply_of(s: Seq<char>) -> Result<ValueModel, ErrorModel> {
    match text::first_occurrence(s, "\r\n\r\n"@) {
        None => Err(ErrorModel::Protocol("no HTTP body in response"@)),
        Some(i) => if text::has_prefix(s, "HTTP/1.1 401"@) || text::has_prefix(
            s,
            "HTTP/1.0 401"@,
        ) {
            Err(ErrorModel::Protocol("authentication required"@))
        } else {
            reply_in(xmlrpc::response_in(s.skip(i + 4)))
        },
    }
}

/// Reads the text of a reply.
pub fn read_reply(s: &str) -> (r: Result<Value, ClientError>)
    ensures
        match reply_of(s@) {
            Ok(v) => r matches Ok(w) && w@ == v,
            Err(e) => r matches Err(d) && d@ == e,
        },
{
    let c = text::chars_of(s);
    let c = c.as_slice();
    proof {
        reveal_strlit("\r\n\r\n");
    }
    match text::find_text(c, "\r\n\r\n") {
        None => Err(ClientError::Protocol("no HTTP body in response".to_string())),
        Some(i) => {
            if text::starts_with(c, "HTTP/1.1 401") || text::starts_with(c, "HTTP/1.0 401") {
                return Err(ClientError::Protocol("authentication required".to_string()));
            }
            let body = slice_subrange(c, i + 4, c.len());
            proof {
                assert(body@ =~= s@.skip(i + 4));
            }
            match xmlrpc::read_response(text::string_of(body).as_str()) {
                Response::Value(v) => Ok(v),
                Response::Fault(code, m) => Err(ClientError::Fault(code, m)),
                Response::Malformed(m) => Err(ClientError::Protocol(m)),
            }
        },
    }
}

/// Reads the bytes of a reply.
pub fn parse_reply(raw: &[u8]) -> (r: Result<Value, ClientError>)
    ensures
        match reply_of(util::text_of(raw@)) {
            Ok(v) => r matches Ok(w) && w@ == v,
            Err(e) => r matches Err(d) && d@ == e,
        },
{
    let s = util::decode_text(raw);
    read_reply(s.as_str())
}

} // verus!
