//! The control server: where a request goes, and what is sent back.
//!
//! XML-RPC calls are served at `POST /RPC2`, the status page at `GET /`, and
//! the forms on that page at `POST /`.
use crate::config::settings::AuthModel;
use crate::config::settings::HttpAuth;
use crate::http;
use crate::http::Request;
use crate::http::RequestModel;
use crate::rpc;
use crate::text;
use crate::web;
use crate::xmlrpc;
use crate::xmlrpc::Value;
use crate::xmlrpc::ValueModel;
use vstd::prelude::*;
use vstd::slice::slice_subrange;

verus! {

/// Where a request goes.
#[derive(Debug)]
pub enum Route {
    /// It is refused for want of credentials.
    Refused,
    /// It is an XML-RPC call.
    Call(String, Vec<Value>),
    /// It should be an XML-RPC call, but cannot be read as one.
    Malformed(String),
    /// It asks for the status page.
    Page,
    /// It asks for an action on a process, and for the status page.
    Form(String, String),
}

/// The mathematical content of a [`Route`].
pub enum RouteModel {
    Refused,
    Call(Seq<char>, Seq<ValueModel>),
    Malformed(Seq<char>),
    Page,
    Form(Seq<char>, Seq<char>),
}

impl View for Route {
    type V = RouteModel;

    open spec fn view(&self) -> RouteModel {
        match self {
            Route::Refused => RouteModel::Refused,
            Route::Call(method, params) => RouteModel::Call(
                method@,
                xmlrpc::value_models(params@),
            ),
            Route::Malformed(e) => RouteModel::Malformed(e@),
            Route::Page => RouteModel::Page,
            Route::Form(action, name) => RouteModel::Form(action@, name@),
        }
    }
}

/// A request path without its query string.
pub open spec fn path_only(path: Seq<char>) -> Seq<char> {
    path.take(text::first_index(path, '?'))
}

/// Where a request goes.
pub open spec fn route_of(r: RequestModel, auth: AuthModel) -> RouteModel {
    if !http::admits(auth, http::basic_auth_of(r.headers)) {
        RouteModel::Refused
    } else if r.method != "POST"@ {
        RouteModel::Page
    } else if path_only(r.path) == "/"@ {
        match web::requested(web::form_of(r.body)) {
            Some((action, name)) => RouteModel::Form(action, name),
            None => RouteModel::Page,
        }
    } else {
        match xmlrpc::call_of(r.body) {
            Ok((method, params)) => RouteModel::Call(method, params),
            Err(e) => RouteModel::Malformed(e),
        }
    }
}

/// The response to a request without the right credentials.
pub open spec fn refusal() -> Seq<u8> {
    http::response_bytes(
        401,
        "Unauthorized"@,
        "text/plain"@,
        "401 Unauthorized\n"@,
        seq![("WWW-Authenticate"@, "Basic realm=\"supervisor\""@)],
    )
}

/// The document that answers a call.
pub open spec fn answer_text(answer: Result<ValueModel, (i32, Seq<char>)>) -> Seq<char> {
    match answer {
        Ok(v) => xmlrpc::response_text(v),
        Err(f) => xmlrpc::fault_document(f.0 as int, f.1),
    }
}

/// The response that carries an XML document.
pub open spec fn xml_bytes(document: Seq<char>) -> Seq<u8> {
    http::response_bytes(200, "OK"@, "text/xml"@, document, Seq::empty())
}

/// The answer to a call that cannot be read.
pub open spec fn malformed_answer(e: Seq<char>) -> Result<ValueModel, (i32, Seq<char>)> {
    Err((rpc::faults::UNKNOWN_METHOD, "malformed call: "@ + e))
}

/// Whether a path leads to the status page.
fn is_root(path: &str) -> (r: bool)
    ensures
        r == (path_only(path@) == "/"@),
{
    let chars = text::chars_of(path);
    let k = text::find_char(chars.as_slice(), '?');
    let front = slice_subrange(chars.as_slice(), 0, k);
    proof {
        assert(front@ =~= path_only(path@));
    }
    text::spells(front, "/")
}

/// Decides where a request goes.
pub fn route(req: &Request, auth: &HttpAuth) -> (r: Route)
    ensures
        r@ == route_of(req@, auth@),
{
    if !http::authorize(req, auth) {
        return Route::Refused;
    }
    if !text::same(req.method.as_str(), "POST") {
        return Route::Page;
    }
    if is_root(req.path.as_str()) {
        let fields = web::parse_form(req.body.as_str());
        return match web::requested_action(&fields) {
            Some((action, name)) => Route::Form(action, name),
            None => Route::Page,
        };
    }
    match xmlrpc::parse_method_call(req.body.as_str()) {
        Ok((method, params)) => Route::Call(method, params),
        Err(e) => Route::Malformed(e),
    }
}

/// The response to a request without the right credentials.
pub fn refuse() -> (r: Vec<u8>)
    ensures
        r@ == refusal(),
{
    let mut out: Vec<u8> = Vec::new();
    let extra: [(&str, &str); 1] = [("WWW-Authenticate", "Basic realm=\"supervisor\"")];
    http::write_response(
        &mut out,
        401,
        "Unauthorized",
        "text/plain",
        "401 Unauthorized\n",
        extra.as_slice(),
    );
    proof {
        assert(http::str_pairs(extra@) =~= seq![
            ("WWW-Authenticate"@, "Basic realm=\"supervisor\""@),
        ]);
        assert(out@ =~= refusal());
    }
    out
}

/// A response without additional headers.
fn plain_response(content_type: &str, body: &str) -> (r: Vec<u8>)
    ensures
        r@ == http::response_bytes(200, "OK"@, content_type@, body@, Seq::empty()),
{
    let mut out: Vec<u8> = Vec::new();
    let none: [(&str, &str); 0] = [];
    http::write_response(&mut out, 200, "OK", content_type, body, none.as_slice());
    proof {
        assert(http::str_pairs(none@) =~= Seq::<(Seq<char>, Seq<char>)>::empty());
        assert(out@ =~= http::response_bytes(200, "OK"@, content_type@, body@, Seq::empty()));
    }
    out
}

/// The response to a call, given its answer.
pub fn call_response(answer: &Result<Value, (i32, String)>) -> (r: Vec<u8>)
    ensures
        r@ == xml_bytes(answer_text(rpc::answer_model(*answer))),
{
    let body = match answer {
        Ok(v) => xmlrpc::serialize_response(v),
        Err(f) => xmlrpc::serialize_fault(f.0, f.1.as_str()),
    };
    plain_response("text/xml", body.as_str())
}

/// The response to a call that cannot be read.
pub fn malformed_response(e: &str) -> (r: Vec<u8>)
    ensures
        r@ == xml_bytes(answer_text(malformed_answer(e@))),
{
    let mut m = "malformed call: ".to_string();
    m.append(e);
    let body = xmlrpc::serialize_fault(rpc::faults::UNKNOWN_METHOD, m.as_str());
    plain_response("text/xml", body.as_str())
}

/// The response that carries the status page.
pub fn page_response(html: &str) -> (r: Vec<u8>)
    ensures
        r@ == http::response_bytes(
            200,
            "OK"@,
            "text/html; charset=utf-8"@,
            html@,
            Seq::empty(),
        ),
{
    plain_response("text/html; charset=utf-8", html)
}

} // verus!
