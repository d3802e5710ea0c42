//! The web management UI.
//!
//! It shows a status table and exposes start/stop/restart actions as small
//! form `POST`s, so that a `GET`, a refresh or a prefetch never changes state.
//! The page is a single self-contained HTML document with inline CSS.
pub mod laws;

use crate::daemon;
use crate::daemon::batch;
use crate::daemon::batch::Batch;
use crate::daemon::batch::BatchModel;
use crate::daemon::Supervisor;
use crate::daemon::SupervisorModel;
use crate::daemon::Verb;
use crate::process::info::InfoModel;
use crate::process::info::LocalTime;
use crate::process::info::ProcessInfo;
use crate::rpc;
use crate::states;
use crate::states::ProcessState;
use crate::text;
use crate::util;
use vstd::prelude::*;
use vstd::slice::slice_subrange;
use vstd::utf8;

verus! {

// ---------------------------------------------------------------------------
// Forms
// ---------------------------------------------------------------------------

/// The value of a hexadecimal digit.
pub open spec fn hex_value(b: u8) -> Option<u8> {
    if 48 <= b <= 57 {
        Some((b - 48) as u8)
    } else if 97 <= b <= 102 {
        Some((b - 87) as u8)
    } else if 65 <= b <= 70 {
        Some((b - 55) as u8)
    } else {
        None
    }
}

/// The bytes that a form-encoded text stands for: `+` is a space, and `%`
/// with two hexadecimal digits the byte of that value.
pub open spec fn url_bytes(s: Seq<u8>) -> Seq<u8>
    decreases s.len(),
{
    if s.len() == 0 {
        Seq::empty()
    } else if s[0] == 43 {
        seq![32u8] + url_bytes(s.skip(1))
    } else if s[0] == 37 && s.len() > 2 && hex_value(s[1]) is Some && hex_value(s[2]) is Some {
        seq![(16 * hex_value(s[1])->0 + hex_value(s[2])->0) as u8] + url_bytes(s.skip(3))
    } else {
        seq![s[0]] + url_bytes(s.skip(1))
    }
}

/// The text that a form-encoded text stands for.
pub open spec fn url_decoded(s: Seq<char>) -> Seq<char> {
    util::text_of(url_bytes(utf8::encode_utf8(s)))
}

/// A `key=value` pair; without `=` the value is empty.
pub open spec fn field_of(s: Seq<char>) -> (Seq<char>, Seq<char>) {
    let k = text::first_index(s, '=');
    if k < s.len() {
        (url_decoded(s.take(k)), url_decoded(s.skip(k + 1)))
    } else {
        (url_decoded(s), url_decoded(Seq::empty()))
    }
}

/// The pairs that the parts of a form hold. Empty parts hold none.
pub open spec fn fields_of(parts: Seq<Seq<char>>) -> Seq<(Seq<char>, Seq<char>)>
    decreases parts.len(),
{
    if parts.len() == 0 {
        Seq::empty()
    } else {
        let rest = fields_of(parts.skip(1));
        if parts[0].len() == 0 {
            rest
        } else {
            seq![field_of(parts[0])] + rest
        }
    }
}

/// The key/value pairs of a form or a query string.
pub open spec fn form_of(s: Seq<char>) -> Seq<(Seq<char>, Seq<char>)> {
    fields_of(text::pieces(s, '&'))
}

/// The value of the first pair with this key.
pub open spec fn field_value(fields: Seq<(Seq<char>, Seq<char>)>, key: Seq<char>) -> Option<
    Seq<char>,
>
    decreases fields.len(),
{
    if fields.len() == 0 {
        None
    } else if fields[0].0 == key {
        Some(fields[0].1)
    } else {
        field_value(fields.skip(1), key)
    }
}

/// The action that a form asks for, and the name of the process it is for.
pub open spec fn requested(fields: Seq<(Seq<char>, Seq<char>)>) -> Option<(Seq<char>, Seq<char>)> {
    match field_value(fields, "action"@) {
        Some(action) => Some(
            (
                action,
                match field_value(fields, "name"@) {
                    Some(name) => name,
                    None => Seq::empty(),
                },
            ),
        ),
        None => None,
    }
}

/// The value of a hexadecimal digit.
fn hex_digit(b: u8) -> (r: Option<u8>)
    ensures
        r == hex_value(b),
        r is Some ==> r->0 < 16,
{
    if 48 <= b && b <= 57 {
        Some(b - 48)
    } else if 97 <= b && b <= 102 {
        Some(b - 87)
    } else if 65 <= b && b <= 70 {
        Some(b - 55)
    } else {
        None
    }
}

/// The bytes that a form-encoded text stands for.
fn decode_bytes(s: &[u8]) -> (r: Vec<u8>)
    ensures
        r@ == url_bytes(s@),
{
    let mut out: Vec<u8> = Vec::new();
    let mut i: usize = 0;
    proof {
        assert(s@.skip(0) =~= s@);
    }
    while i < s.len()
        invariant
            i <= s@.len(),
            out@ + url_bytes(s@.skip(i as int)) == url_bytes(s@),
        decreases s@.len() - i,
    {
        let ghost rest = s@.skip(i as int);
        let ghost before = out@;
        proof {
            assert(rest.skip(1) =~= s@.skip(i as int + 1));
        }
        let mut step: usize = 1;
        let mut b = s[i];
        if b == 43 {
            b = 32;
        } else if b == 37 && s.len() - i > 2 {
            if let Some(h) = hex_digit(s[i + 1]) {
                if let Some(l) = hex_digit(s[i + 2]) {
                    b = 16 * h + l;
                    step = 3;
                    proof {
                        assert(rest.skip(3) =~= s@.skip(i as int + 3));
                    }
                }
            }
        }
        out.push(b);
        i = i + step;
        proof {
            assert(url_bytes(rest) == seq![b] + url_bytes(s@.skip(i as int)));
            assert(out@ + url_bytes(s@.skip(i as int)) =~= before + url_bytes(rest));
        }
    }
    proof {
        assert(out@ + url_bytes(s@.skip(i as int)) =~= out@);
    }
    out
}

/// The text that a form-encoded text stands for.
pub fn url_decode(s: &str) -> (r: String)
    ensures
        r@ == url_decoded(s@),
{
    let bytes = util::bytes_of(s);
    let out = decode_bytes(bytes.as_slice());
    util::decode_text(out.as_slice())
}

/// A `key=value` pair.
fn parse_field(s: &[char]) -> (r: (String, String))
    ensures
        (r.0@, r.1@) == field_of(s@),
{
    let k = text::find_char(s, '=');
    if k < s.len() {
        let key = text::string_of(slice_subrange(s, 0, k));
        let value = text::string_of(slice_subrange(s, k + 1, s.len()));
        proof {
            assert(s@.subrange(0, k as int) =~= s@.take(k as int));
            assert(s@.subrange(k as int + 1, s@.len() as int) =~= s@.skip(k as int + 1));
        }
        (url_decode(key.as_str()), url_decode(value.as_str()))
    } else {
        let key = text::string_of(s);
        proof {
            reveal_strlit("");
            assert(""@ =~= Seq::<char>::empty());
        }
        (url_decode(key.as_str()), url_decode(""))
    }
}

/// The key/value pairs of an `application/x-www-form-urlencoded` body (or a
/// URL query string).
pub fn parse_form(body: &str) -> (r: Vec<(String, String)>)
    ensures
        text::text_pairs(r@) == form_of(body@),
{
    let chars = text::chars_of(body);
    let parts = text::split(chars.as_slice(), '&');
    let ghost all = text::char_lists(parts@);
    let mut r: Vec<(String, String)> = Vec::new();
    let mut i: usize = 0;
    proof {
        assert(all.skip(0) =~= all);
        assert(text::text_pairs(r@) + fields_of(all) =~= fields_of(all));
    }
    while i < parts.len()
        invariant
            i <= parts@.len(),
            all == text::char_lists(parts@),
            text::text_pairs(r@) + fields_of(all.skip(i as int)) == fields_of(all),
        decreases parts@.len() - i,
    {
        let ghost rest = all.skip(i as int);
        let ghost before = text::text_pairs(r@);
        proof {
            assert(rest.skip(1) =~= all.skip(i as int + 1));
            assert(rest[0] == parts@[i as int]@);
        }
        if parts[i].len() > 0 {
            let f = parse_field(parts[i].as_slice());
            r.push(f);
            proof {
                assert(text::text_pairs(r@) =~= before + seq![field_of(rest[0])]);
                assert(before + seq![field_of(rest[0])] + fields_of(rest.skip(1)) =~= before
                    + fields_of(rest));
            }
        }
        i = i + 1;
    }
    proof {
        assert(text::text_pairs(r@) + fields_of(all.skip(i as int)) =~= text::text_pairs(r@));
    }
    r
}

/// The value of the first pair with this key.
fn lookup(fields: &Vec<(String, String)>, key: &str) -> (r: Option<String>)
    ensures
        text::opt_text(r) == field_value(text::text_pairs(fields@), key@),
{
    let ghost all = text::text_pairs(fields@);
    let mut i: usize = 0;
    proof {
        assert(all.skip(0) =~= all);
    }
    while i < fields.len()
        invariant
            i <= fields@.len(),
            all == text::text_pairs(fields@),
            field_value(all.skip(i as int), key@) == field_value(all, key@),
        decreases fields@.len() - i,
    {
        proof {
            assert(all.skip(i as int)[0] == (fields@[i as int].0@, fields@[i as int].1@));
            assert(all.skip(i as int).skip(1) =~= all.skip(i as int + 1));
        }
        if text::same(fields[i].0.as_str(), key) {
            return Some(fields[i].1.clone());
        }
        i = i + 1;
    }
    None
}

/// The action that a form asks for, and the name of the process it is for.
pub fn requested_action(fields: &Vec<(String, String)>) -> (r: Option<(String, String)>)
    ensures
        match (r, requested(text::text_pairs(fields@))) {
            (Some(a), Some(b)) => a.0@ == b.0 && a.1@ == b.1,
            (None, None) => true,
            _ => false,
        },
{
    match lookup(fields, "action") {
        Some(action) => match lookup(fields, "name") {
            Some(name) => Some((action, name)),
            None => {
                let name = String::new();
                proof {
                    assert(name@ =~= Seq::<char>::empty());
                }
                Some((action, name))
            },
        },
        None => None,
    }
}

// ---------------------------------------------------------------------------
// Actions
// ---------------------------------------------------------------------------

/// The operations that an action asks for. An unknown action asks for none.
pub open spec fn action_batch(s: SupervisorModel, action: Seq<char>, name: Seq<char>) -> BatchModel {
    let all = daemon::names_of(s.processes);
    if action == "start"@ {
        batch::new_batch(Verb::Start, seq![name])
    } else if action == "stop"@ {
        batch::new_batch(Verb::Stop, seq![name])
    } else if action == "restart"@ {
        batch::new_batch(Verb::Restart, seq![name])
    } else if action == "startall"@ {
        batch::new_batch(Verb::Start, all)
    } else if action == "stopall"@ {
        batch::new_batch(Verb::Stop, all)
    } else if action == "restartall"@ {
        batch::new_batch(Verb::Restart, all)
    } else {
        batch::new_batch(Verb::Start, Seq::empty())
    }
}

/// What the page says about an action whose operations have run.
pub open spec fn notice_text(
    action: Seq<char>,
    name: Seq<char>,
    outcomes: Seq<Result<(), (i32, Seq<char>)>>,
) -> Seq<char> {
    let ok = outcomes.len() > 0 && outcomes[0] is Ok;
    if action == "start"@ {
        name + (if ok {
            ": started"@
        } else {
            ": could not start"@
        })
    } else if action == "stop"@ {
        name + (if ok {
            ": stopped"@
        } else {
            ": not running"@
        })
    } else if action == "restart"@ {
        name + (if ok {
            ": restarted"@
        } else {
            ": no such process"@
        })
    } else if action == "startall"@ {
        "started all processes"@
    } else if action == "stopall"@ {
        "stopped all processes"@
    } else if action == "restartall"@ {
        "restarted all processes"@
    } else {
        Seq::empty()
    }
}

/// The same operation on one process.
fn one(verb: Verb, name: &str) -> (r: Batch)
    ensures
        r@ == batch::new_batch(verb, seq![name@]),
{
    let names: Vec<String> = vec![name.to_string()];
    proof {
        assert(text::texts(names@) =~= seq![name@]);
    }
    Batch::new(verb, names)
}

/// The operations that an action asks for.
pub fn begin_action(sup: &Supervisor, action: &str, name: &str) -> (r: Batch)
    ensures
        r@ == action_batch(sup@, action@, name@),
{
    if text::same(action, "start") {
        one(Verb::Start, name)
    } else if text::same(action, "stop") {
        one(Verb::Stop, name)
    } else if text::same(action, "restart") {
        one(Verb::Restart, name)
    } else if text::same(action, "startall") {
        sup.op_start_all()
    } else if text::same(action, "stopall") {
        sup.op_stop_all()
    } else if text::same(action, "restartall") {
        Batch::new(Verb::Restart, sup.names())
    } else {
        let names: Vec<String> = Vec::new();
        proof {
            assert(text::texts(names@) =~= Seq::<Seq<char>>::empty());
        }
        Batch::new(Verb::Start, names)
    }
}

/// A name followed by what became of it.
fn remark(name: &str, what: &str) -> (r: String)
    ensures
        r@ == name@ + what@,
{
    let mut r = name.to_string();
    r.append(what);
    r
}

/// What the page says about an action whose operations have run.
pub fn notice(action: &str, name: &str, done: &Batch) -> (r: String)
    ensures
        r@ == notice_text(action@, name@, done@.outcomes),
{
    let ok = done.outcomes.len() > 0 && done.outcomes[0].is_ok();
    proof {
        if done@.outcomes.len() > 0 {
            assert(done@.outcomes[0] == batch::outcome_model(done.outcomes@[0]));
        }
    }
    if text::same(action, "start") {
        remark(
            name,
            if ok {
                ": started"
            } else {
                ": could not start"
            },
        )
    } else if text::same(action, "stop") {
        remark(
            name,
            if ok {
                ": stopped"
            } else {
                ": not running"
            },
        )
    } else if text::same(action, "restart") {
        remark(
            name,
            if ok {
                ": restarted"
            } else {
                ": no such process"
            },
        )
    } else if text::same(action, "startall") {
        "started all processes".to_string()
    } else if text::same(action, "stopall") {
        "stopped all processes".to_string()
    } else if text::same(action, "restartall") {
        "restarted all processes".to_string()
    } else {
        let r = String::new();
        proof {
            assert(r@ =~= Seq::<char>::empty());
        }
        r
    }
}

// ---------------------------------------------------------------------------
// The page
// ---------------------------------------------------------------------------

/// A character as it appears in HTML.
pub open spec fn html_char(c: char) -> Seq<char> {
    if c == '&' {
        "&amp;"@
    } else if c == '<' {
        "&lt;"@
    } else if c == '>' {
        "&gt;"@
    } else if c == '"' {
        "&quot;"@
    } else {
        seq![c]
    }
}

/// A text as it appears in HTML.
pub open spec fn html_escaped(s: Seq<char>) -> Seq<char>
    decreases s.len(),
{
    if s.len() == 0 {
        Seq::empty()
    } else {
        html_char(s[0]) + html_escaped(s.skip(1))
    }
}

/// The state that a number stands for.
pub open spec fn state_of_code(code: i64) -> ProcessState {
    if code == 0 {
        ProcessState::Stopped
    } else if code == 10 {
        ProcessState::Starting
    } else if code == 20 {
        ProcessState::Running
    } else if code == 30 {
        ProcessState::Backoff
    } else if code == 40 {
        ProcessState::Stopping
    } else if code == 100 {
        ProcessState::Exited
    } else if code == 200 {
        ProcessState::Fatal
    } else {
        ProcessState::Unknown
    }
}

/// The CSS class of a state.
pub open spec fn class_of(state: ProcessState) -> Seq<char> {
    match state {
        ProcessState::Running => "ok"@,
        ProcessState::Starting | ProcessState::Stopping => "pending"@,
        ProcessState::Backoff | ProcessState::Fatal => "bad"@,
        _ => "off"@,
    }
}

/// `name` if the group equals the name or is empty, else `group:name`.
pub open spec fn namespec(group: Seq<char>, name: Seq<char>) -> Seq<char> {
    if group == name || group.len() == 0 {
        name
    } else {
        group + ":"@ + name
    }
}

/// A button for one action on one process.
pub open spec fn action_form(action: Seq<char>, name: Seq<char>, label: Seq<char>) -> Seq<char> {
    "<form method=\"post\" action=\"/\" class=\"act\"><input type=\"hidden\" name=\"action\" value=\""@
        + html_escaped(action)
        + "\"><input type=\"hidden\" name=\"name\" value=\""@
        + html_escaped(name)
        + "\"><button type=\"submit\">"@
        + html_escaped(label)
        + "</button></form>"@
}

/// A button for one action on every process.
pub open spec fn toolbar_form(action: Seq<char>, label: Seq<char>) -> Seq<char> {
    "<form method=\"post\" action=\"/\" class=\"tb\"><input type=\"hidden\" name=\"action\" value=\""@
        + html_escaped(action)
        + "\"><button type=\"submit\" class=\"btn\">"@
        + html_escaped(label)
        + "</button></form>"@
}

/// The row of one process.
pub open spec fn row_text(i: InfoModel) -> Seq<char> {
    "<tr><td><span class=\"state "@ + class_of(state_of_code(i.state)) + "\">"@ + html_escaped(
        i.statename,
    ) + "</span></td><td class=\"name\">"@ + html_escaped(namespec(i.group, i.name))
        + "</td><td class=\"desc\">"@ + html_escaped(i.description)
        + "</td><td class=\"actions\">"@ + action_form("start"@, i.name, "start"@) + action_form(
        "stop"@,
        i.name,
        "stop"@,
    ) + action_form("restart"@, i.name, "restart"@) + "</td></tr>"@
}

/// The rows of the processes, one after another.
pub open spec fn row_texts(infos: Seq<InfoModel>) -> Seq<char>
    decreases infos.len(),
{
    if infos.len() == 0 {
        Seq::empty()
    } else {
        row_texts(infos.drop_last()) + row_text(infos.last())
    }
}

/// The body of the table.
pub open spec fn rows_text(infos: Seq<InfoModel>) -> Seq<char> {
    if infos.len() == 0 {
        "<tr><td colspan=\"4\">No programs configured</td></tr>"@
    } else {
        row_texts(infos)
    }
}

/// The line that says what became of an action.
pub open spec fn notice_html(notice: Seq<char>) -> Seq<char> {
    if notice.len() == 0 {
        Seq::empty()
    } else {
        "<p class=\"notice\">"@ + html_escaped(notice) + "</p>"@
    }
}

/// The page before the table.
pub open spec fn page_top(identifier: Seq<char>, notice: Seq<char>) -> Seq<char> {
    "<!doctype html>\n<html lang=\"en\"><head><meta charset=\"utf-8\"><meta name=\"viewport\" content=\"width=device-width, initial-scale=1\"><title>Supervisor Status — "@
        + html_escaped(identifier)
        + "</title>"@
        + STYLE@
        + "</head><body><header><h1>supervisor</h1><span class=\"ident\">"@
        + html_escaped(identifier)
        + "</span></header>"@
        + notice_html(notice)
        + "<div class=\"toolbar\">"@
        + toolbar_form("startall"@, "Start all"@)
        + toolbar_form("stopall"@, "Stop all"@)
        + toolbar_form("restartall"@, "Restart all"@)
        + "<a class=\"btn ghost\" href=\"/\">Refresh</a></div>"@
}

/// The status page.
pub open spec fn page_text(identifier: Seq<char>, infos: Seq<InfoModel>, notice: Seq<char>) -> Seq<
    char,
> {
    page_top(identifier, notice)
        + "<table><thead><tr><th>State</th><th>Name</th><th>Description</th><th>Action</th></tr></thead><tbody>"@
        + rows_text(infos)
        + "</tbody></table><footer>supervisor-rs "@
        + rpc::VERSION@
        + " · XML-RPC at <code>POST /RPC2</code></footer></body></html>"@
}

/// A text as it appears in HTML.
pub fn html_escape(s: &str) -> (r: String)
    ensures
        r@ == html_escaped(s@),
{
    let chars = text::chars_of(s);
    let mut r = String::new();
    let mut i: usize = 0;
    proof {
        assert(chars@.skip(0) =~= chars@);
        assert(r@ + html_escaped(chars@) =~= html_escaped(chars@));
    }
    while i < chars.len()
        invariant
            i <= chars@.len(),
            r@ + html_escaped(chars@.skip(i as int)) == html_escaped(chars@),
        decreases chars@.len() - i,
    {
        let c = chars[i];
        let ghost before = r@;
        if c == '&' {
            r.append("&amp;");
        } else if c == '<' {
            r.append("&lt;");
        } else if c == '>' {
            r.append("&gt;");
        } else if c == '"' {
            r.append("&quot;");
        } else {
            r.push(c);
        }
        proof {
            assert(r@ =~= before + html_char(c));
            let rest = chars@.skip(i as int);
            let more = html_escaped(chars@.skip(i as int + 1));
            assert(rest.skip(1) =~= chars@.skip(i as int + 1));
            assert(before + (html_char(c) + more) =~= (before + html_char(c)) + more);
        }
        i = i + 1;
    }
    proof {
        assert(r@ + html_escaped(chars@.skip(i as int)) =~= r@);
    }
    r
}

/// The state that a number stands for.
pub fn state_from_code(code: i64) -> (r: ProcessState)
    ensures
        r == state_of_code(code),
{
    if code == 0 {
        ProcessState::Stopped
    } else if code == 10 {
        ProcessState::Starting
    } else if code == 20 {
        ProcessState::Running
    } else if code == 30 {
        ProcessState::Backoff
    } else if code == 40 {
        ProcessState::Stopping
    } else if code == 100 {
        ProcessState::Exited
    } else if code == 200 {
        ProcessState::Fatal
    } else {
        ProcessState::Unknown
    }
}

/// The CSS class of a state.
pub fn state_class(state: ProcessState) -> (r: &'static str)
    ensures
        r@ == class_of(state),
{
    match state {
        ProcessState::Running => "ok",
        ProcessState::Starting | ProcessState::Stopping => "pending",
        ProcessState::Backoff | ProcessState::Fatal => "bad",
        _ => "off",
    }
}

/// `name` if the group equals the name or is empty, else `group:name`.
pub fn make_namespec(group: &str, name: &str) -> (r: String)
    ensures
        r@ == namespec(group@, name@),
{
    if text::same(group, name) || text::chars_of(group).len() == 0 {
        name.to_string()
    } else {
        let mut r = group.to_string();
        r.append(":");
        r.append(name);
        r
    }
}

/// A button for one action on one process.
fn action_button(action: &str, name: &str, label: &str) -> (r: String)
    ensures
        r@ == action_form(action@, name@, label@),
{
    let mut r =
        "<form method=\"post\" action=\"/\" class=\"act\"><input type=\"hidden\" name=\"action\" value=\"".to_string();
    r.append(html_escape(action).as_str());
    r.append("\"><input type=\"hidden\" name=\"name\" value=\"");
    r.append(html_escape(name).as_str());
    r.append("\"><button type=\"submit\">");
    r.append(html_escape(label).as_str());
    r.append("</button></form>");
    r
}

/// A button for one action on every process.
fn toolbar_button(action: &str, label: &str) -> (r: String)
    ensures
        r@ == toolbar_form(action@, label@),
{
    let mut r =
        "<form method=\"post\" action=\"/\" class=\"tb\"><input type=\"hidden\" name=\"action\" value=\"".to_string();
    r.append(html_escape(action).as_str());
    r.append("\"><button type=\"submit\" class=\"btn\">");
    r.append(html_escape(label).as_str());
    r.append("</button></form>");
    r
}

/// The row of one process.
fn render_row(info: &ProcessInfo) -> (r: String)
    ensures
        r@ == row_text(info@),
{
    let name = info.name.as_str();
    let mut r = "<tr><td><span class=\"state ".to_string();
    r.append(state_class(state_from_code(info.state)));
    r.append("\">");
    r.append(html_escape(info.statename.as_str()).as_str());
    r.append("</span></td><td class=\"name\">");
    r.append(html_escape(make_namespec(info.group.as_str(), name).as_str()).as_str());
    r.append("</td><td class=\"desc\">");
    r.append(html_escape(info.description.as_str()).as_str());
    r.append("</td><td class=\"actions\">");
    r.append(action_button("start", name, "start").as_str());
    r.append(action_button("stop", name, "stop").as_str());
    r.append(action_button("restart", name, "restart").as_str());
    r.append("</td></tr>");
    r
}

/// The body of the table.
fn render_rows(infos: &Vec<ProcessInfo>) -> (r: String)
    ensures
        r@ == rows_text(infos@.map_values(|i: ProcessInfo| i@)),
{
    if infos.len() == 0 {
        return "<tr><td colspan=\"4\">No programs configured</td></tr>".to_string();
    }
    let ghost all = infos@.map_values(|i: ProcessInfo| i@);
    let mut r = String::new();
    let mut i: usize = 0;
    proof {
        assert(r@ =~= row_texts(all.take(0)));
    }
    while i < infos.len()
        invariant
            i <= infos@.len(),
            all == infos@.map_values(|i: ProcessInfo| i@),
            r@ == row_texts(all.take(i as int)),
        decreases infos@.len() - i,
    {
        proof {
            let t = all.take(i as int + 1);
            assert(t.drop_last() =~= all.take(i as int));
            assert(t.last() == infos@[i as int]@);
        }
        r.append(render_row(&infos[i]).as_str());
        i = i + 1;
    }
    proof {
        assert(all.take(i as int) =~= all);
    }
    r
}

/// The line that says what became of an action.
fn render_notice(notice: &str) -> (r: String)
    ensures
        r@ == notice_html(notice@),
{
    if text::chars_of(notice).len() == 0 {
        let r = String::new();
        proof {
            assert(r@ =~= Seq::<char>::empty());
        }
        r
    } else {
        let mut r = "<p class=\"notice\">".to_string();
        r.append(html_escape(notice).as_str());
        r.append("</p>");
        r
    }
}

/// The page before the table.
fn render_top(identifier: &str, notice: &str) -> (r: String)
    ensures
        r@ == page_top(identifier@, notice@),
{
    let ident = html_escape(identifier);
    let mut r =
        "<!doctype html>\n<html lang=\"en\"><head><meta charset=\"utf-8\"><meta name=\"viewport\" content=\"width=device-width, initial-scale=1\"><title>Supervisor Status — ".to_string();
    r.append(ident.as_str());
    r.append("</title>");
    r.append(STYLE);
    r.append("</head><body><header><h1>supervisor</h1><span class=\"ident\">");
    r.append(ident.as_str());
    r.append("</span></header>");
    r.append(render_notice(notice).as_str());
    r.append("<div class=\"toolbar\">");
    r.append(toolbar_button("startall", "Start all").as_str());
    r.append(toolbar_button("stopall", "Stop all").as_str());
    r.append(toolbar_button("restartall", "Restart all").as_str());
    r.append("<a class=\"btn ghost\" href=\"/\">Refresh</a></div>");
    r
}

/// Renders the status page. `notice` says what became of an action; it is
/// empty for a page that was only asked for. `stops` has the local time of the
/// last stop of each process.
pub fn render(sup: &Supervisor, notice: &str, now_epoch: i64, stops: &Vec<LocalTime>) -> (r: String)
    requires
        stops@.len() == sup@.processes.len(),
    ensures
        r@ == page_text(
            sup@.config.supervisord.identifier,
            daemon::snapshots(sup@.processes, now_epoch, stops@),
            notice@,
        ),
{
    let infos = sup.all_process_info(now_epoch, stops);
    let mut r = render_top(sup.identifier(), notice);
    r.append(
        "<table><thead><tr><th>State</th><th>Name</th><th>Description</th><th>Action</th></tr></thead><tbody>",
    );
    r.append(render_rows(&infos).as_str());
    r.append("</tbody></table><footer>supervisor-rs ");
    r.append(rpc::VERSION);
    r.append(" · XML-RPC at <code>POST /RPC2</code></footer></body></html>");
    r
}

/// The style sheet of the page.
pub const STYLE: &'static str = "<style>\
    :root{color-scheme:light dark}\
    body{font-family:system-ui,-apple-system,Segoe UI,Roboto,sans-serif;margin:0;background:#0f1115;color:#e6e6e6}\
    header{display:flex;align-items:baseline;gap:.75rem;padding:1rem 1.5rem;background:#171a21;border-bottom:1px solid #262b36}\
    h1{font-size:1.25rem;margin:0;color:#fff}\
    .ident{color:#8a93a6;font-size:.9rem}\
    .toolbar{padding:1rem 1.5rem;display:flex;gap:.5rem;flex-wrap:wrap}\
    .btn{padding:.4rem .8rem;border-radius:.4rem;background:#2a64ff;color:#fff;text-decoration:none;font-size:.85rem}\
    .btn.ghost{background:#262b36}\
    .notice{margin:0;padding:.6rem 1.5rem;background:#1c2a16;color:#bdf0a0;border-bottom:1px solid #2c3a22}\
    table{width:100%;border-collapse:collapse}\
    th,td{text-align:left;padding:.6rem 1.5rem;border-bottom:1px solid #1d222c;font-size:.9rem}\
    th{color:#8a93a6;font-weight:600;font-size:.75rem;text-transform:uppercase;letter-spacing:.05em}\
    .name{font-weight:600;color:#fff}\
    .desc{color:#8a93a6}\
    .actions{display:flex;gap:.5rem}\
    .act{display:inline;margin:0}\
    .act button{background:none;border:none;color:#7aa2ff;cursor:pointer;font-size:.85rem;padding:0;font-family:inherit}\
    .act button:hover{text-decoration:underline}\
    .toolbar form{margin:0;display:inline}\
    .toolbar button{cursor:pointer;font-family:inherit}\
    .state{display:inline-block;min-width:5.5rem;padding:.15rem .5rem;border-radius:.3rem;font-size:.75rem;font-weight:700;text-align:center}\
    .state.ok{background:#10331c;color:#5fe08a}\
    .state.bad{background:#3a1414;color:#ff8a8a}\
    .state.pending{background:#33300f;color:#f0d65f}\
    .state.off{background:#23262e;color:#9aa3b2}\
    footer{padding:1.5rem;color:#5b6577;font-size:.8rem}\
    code{background:#171a21;padding:.1rem .3rem;border-radius:.2rem}\
    </style>";

} // verus!
