//! What holds of every form and every page.
use crate::daemon::batch;
use crate::daemon::SupervisorModel;
use crate::daemon::Verb;
use crate::http::laws;
use crate::process::info::InfoModel;
use crate::states;
use crate::states::ProcessState;
use crate::text;
use crate::util;
use crate::web;
use crate::xmlrpc;
use vstd::prelude::*;
use vstd::utf8;

verus! {

// ---------------------------------------------------------------------------
// Escaping
// ---------------------------------------------------------------------------

/// What is shown on the page cannot open or close a tag or an attribute: an
/// escaped text holds no `<`, no `>` and no `"`.
pub proof fn law_escaped_text_is_no_markup(s: Seq<char>)
    ensures
        forall|i: int|
            0 <= i < web::html_escaped(s).len() ==> {
                let c = #[trigger] web::html_escaped(s)[i];
                c != '<' && c != '>' && c != '"'
            },
    decreases s.len(),
{
    if s.len() > 0 {
        reveal_strlit("&lt;");
        reveal_strlit("&gt;");
        reveal_strlit("&quot;");
        reveal_strlit("&amp;");
        law_escaped_text_is_no_markup(s.skip(1));
        let e = web::html_char(s[0]);
        let r = web::html_escaped(s.skip(1));
        assert forall|i: int| 0 <= i < (e + r).len() implies {
            let c = #[trigger] (e + r)[i];
            c != '<' && c != '>' && c != '"'
        } by {
            if i < e.len() {
                assert((e + r)[i] == e[i]);
            } else {
                assert((e + r)[i] == r[i - e.len()]);
            }
        }
    }
}

/// One escaped character, read back.
proof fn lemma_unescape_one(c: char, rest: Seq<char>)
    ensures
        xmlrpc::unescaped(web::html_char(c) + rest) == seq![c] + xmlrpc::unescaped(rest),
{
    reveal_strlit("&lt;");
    reveal_strlit("&gt;");
    reveal_strlit("&quot;");
    reveal_strlit("&apos;");
    reveal_strlit("&amp;");
    let e = web::html_char(c);
    let s = e + rest;
    assert(s.skip(e.len() as int) =~= rest);
    assert(s[0] == e[0]);
    if c == '&' || c == '<' || c == '>' || c == '"' {
        assert(s.take(e.len() as int) =~= e);
        assert(s[1] == e[1]);
        if s.len() >= 4 {
            assert(s.take(4)[1] == e[1]);
        }
        if s.len() >= 5 {
            assert(s.take(5)[1] == e[1]);
        }
        if s.len() >= 6 {
            assert(s.take(6)[1] == e[1]);
        }
        assert("&lt;"@[1] == 'l');
        assert("&gt;"@[1] == 'g');
        assert("&quot;"@[1] == 'q');
        assert("&apos;"@[1] == 'a' && "&apos;"@[2] == 'p');
        assert("&amp;"@[1] == 'a' && "&amp;"@[2] == 'm');
        if c == '&' && s.len() >= 6 {
            assert(s.take(6)[2] == e[2]);
        }
    } else {
        assert(s[0] == c);
        if s.len() >= 4 {
            assert(s.take(4)[0] == c);
        }
        if s.len() >= 5 {
            assert(s.take(5)[0] == c);
        }
        if s.len() >= 6 {
            assert(s.take(6)[0] == c);
        }
        assert("&lt;"@[0] == '&');
        assert("&gt;"@[0] == '&');
        assert("&quot;"@[0] == '&');
        assert("&apos;"@[0] == '&');
        assert("&amp;"@[0] == '&');
        assert(xmlrpc::leading_entity(s) is None);
    }
}

/// The page shows what it was given: replacing the entities of an escaped text
/// gives the text back.
pub proof fn law_unescape_inverts_html_escape(s: Seq<char>)
    ensures
        xmlrpc::unescaped(web::html_escaped(s)) == s,
    decreases s.len(),
{
    if s.len() > 0 {
        law_unescape_inverts_html_escape(s.skip(1));
        lemma_unescape_one(s[0], web::html_escaped(s.skip(1)));
        assert(seq![s[0]] + s.skip(1) =~= s);
    }
}

// ---------------------------------------------------------------------------
// Forms
// ---------------------------------------------------------------------------

/// The hexadecimal digit of a value.
pub open spec fn hex_char(v: u8) -> char {
    if v < 10 {
        (48 + v) as char
    } else {
        (55 + v) as char
    }
}

/// A text with every byte written as `%` and two hexadecimal digits.
pub open spec fn percent_encoded(bytes: Seq<u8>) -> Seq<char>
    decreases bytes.len(),
{
    if bytes.len() == 0 {
        Seq::empty()
    } else {
        seq!['%', hex_char(bytes[0] / 16), hex_char(bytes[0] % 16)] + percent_encoded(
            bytes.skip(1),
        )
    }
}

/// What a percent-encoded text is made of.
proof fn lemma_percent_chars(bytes: Seq<u8>)
    ensures
        forall|i: int|
            0 <= i < percent_encoded(bytes).len() ==> {
                let c = #[trigger] percent_encoded(bytes)[i];
                c == '%' || '0' <= c <= '9' || 'A' <= c <= 'F'
            },
    decreases bytes.len(),
{
    if bytes.len() > 0 {
        lemma_percent_chars(bytes.skip(1));
        let e = seq!['%', hex_char(bytes[0] / 16), hex_char(bytes[0] % 16)];
        let r = percent_encoded(bytes.skip(1));
        assert forall|i: int| 0 <= i < (e + r).len() implies {
            let c = #[trigger] (e + r)[i];
            c == '%' || '0' <= c <= '9' || 'A' <= c <= 'F'
        } by {
            if i < 3 {
                assert((e + r)[i] == e[i]);
            } else {
                assert((e + r)[i] == r[i - 3]);
            }
        }
    }
}

/// The encoding of three ASCII characters.
proof fn lemma_ascii_triple(a: char, b: char, c: char)
    requires
        '\0' <= a <= '\u{7f}',
        '\0' <= b <= '\u{7f}',
        '\0' <= c <= '\u{7f}',
    ensures
        utf8::encode_utf8(seq![a, b, c]) == seq![a as u8, b as u8, c as u8],
{
    let s = seq![a, b, c];
    assert(utf8::is_ascii_chars(s));
    utf8::is_ascii_chars_encode_utf8(s);
    assert(s[0] as u8 == utf8::encode_utf8(s)[0]);
    assert(s[1] as u8 == utf8::encode_utf8(s)[1]);
    assert(s[2] as u8 == utf8::encode_utf8(s)[2]);
    assert(utf8::encode_utf8(s) =~= seq![a as u8, b as u8, c as u8]);
}

/// Percent-encoded bytes are read back.
pub proof fn law_percent_round_trip(bytes: Seq<u8>)
    ensures
        web::url_bytes(utf8::encode_utf8(percent_encoded(bytes))) == bytes,
    decreases bytes.len(),
{
    if bytes.len() > 0 {
        let b = bytes[0];
        let rest = bytes.skip(1);
        law_percent_round_trip(rest);
        let (h, l) = (b / 16, b % 16);
        let e = seq!['%', hex_char(h), hex_char(l)];
        let tail = utf8::encode_utf8(percent_encoded(rest));
        lemma_ascii_triple('%', hex_char(h), hex_char(l));
        laws::law_encoding_of_concatenation(e, percent_encoded(rest));
        let s = utf8::encode_utf8(percent_encoded(bytes));
        assert(s =~= seq![37u8, hex_char(h) as u8, hex_char(l) as u8] + tail);
        assert(web::hex_value(s[1]) == Some(h));
        assert(web::hex_value(s[2]) == Some(l));
        assert(16 * h + l == b);
        assert(s.skip(3) =~= tail);
        assert(seq![b] + rest =~= bytes);
    } else {
        assert(utf8::encode_utf8(percent_encoded(bytes)) =~= Seq::<u8>::empty());
    }
}

/// Bytes without `+` and `%` stand for themselves.
proof fn lemma_plain_url_bytes(s: Seq<u8>)
    requires
        forall|i: int| 0 <= i < s.len() ==> #[trigger] s[i] != 43 && s[i] != 37,
    ensures
        web::url_bytes(s) == s,
    decreases s.len(),
{
    if s.len() > 0 {
        assert(s[0] != 43 && s[0] != 37);
        assert forall|i: int| 0 <= i < s.skip(1).len() implies #[trigger] s.skip(1)[i] != 43
            && s.skip(1)[i] != 37 by {
            assert(s.skip(1)[i] == s[i + 1]);
        }
        lemma_plain_url_bytes(s.skip(1));
        assert(seq![s[0]] + s.skip(1) =~= s);
    }
}

/// Printable text without `+` and `%` stands for itself.
pub proof fn law_plain_text_decodes_to_itself(s: Seq<char>)
    requires
        laws::is_plain(s),
        forall|i: int| 0 <= i < s.len() ==> #[trigger] s[i] != '+' && s[i] != '%',
    ensures
        web::url_decoded(s) == s,
{
    assert(utf8::is_ascii_chars(s)) by {
        assert forall|i: int| 0 <= i < s.len() implies '\0' <= #[trigger] s[i] <= '\u{7f}' by {
            assert(' ' <= s[i] <= '~');
        }
    }
    utf8::is_ascii_chars_encode_utf8(s);
    let b = utf8::encode_utf8(s);
    assert forall|i: int| 0 <= i < b.len() implies #[trigger] b[i] != 43 && b[i] != 37 by {
        assert(s[i] as u8 == b[i]);
        assert(' ' <= s[i] <= '~');
    }
    lemma_plain_url_bytes(b);
    util::law_text_round_trip(s);
}

/// A text as a form carries it.
pub open spec fn form_encoded(s: Seq<char>) -> Seq<char> {
    percent_encoded(utf8::encode_utf8(s))
}

/// What the button for one action on one process submits.
pub open spec fn submission(action: Seq<char>, name: Seq<char>) -> Seq<char> {
    "action="@ + form_encoded(action) + "&"@ + ("name="@ + form_encoded(name))
}

/// One field of a form, read back.
proof fn lemma_field(key: Seq<char>, value: Seq<char>, s: Seq<char>)
    requires
        laws::is_plain(key),
        forall|i: int|
            0 <= i < key.len() ==> #[trigger] key[i] != '=' && key[i] != '+' && key[i] != '%',
        s == key + seq!['='] + form_encoded(value),
    ensures
        web::field_of(s) == (key, value),
{
    let n = key.len() as int;
    assert forall|j: int| 0 <= j < n implies s[j] != '=' by {
        assert(s[j] == key[j]);
    }
    assert(s[n] == '=');
    text::lemma_first_index_is(s, '=', n);
    assert(s.take(n) =~= key);
    assert(s.skip(n + 1) =~= form_encoded(value));
    law_plain_text_decodes_to_itself(key);
    law_percent_round_trip(utf8::encode_utf8(value));
    util::law_text_round_trip(value);
}

/// A button asks for what it says: from what the form of an action on a
/// process submits, the server reads that action and that name.
pub proof fn law_button_submits_its_action(action: Seq<char>, name: Seq<char>)
    ensures
        web::requested(web::form_of(submission(action, name))) == Some((action, name)),
{
    reveal_strlit("action=");
    reveal_strlit("name=");
    reveal_strlit("&");
    reveal_strlit("action");
    reveal_strlit("name");
    let s = submission(action, name);
    let a = "action="@ + form_encoded(action);
    let b = "name="@ + form_encoded(name);
    lemma_percent_chars(utf8::encode_utf8(action));
    lemma_percent_chars(utf8::encode_utf8(name));
    let n = a.len() as int;
    assert(s =~= a + seq!['&'] + b);
    assert forall|j: int| 0 <= j < n implies s[j] != '&' by {
        assert(s[j] == a[j]);
        if j >= 7 {
            assert(a[j] == form_encoded(action)[j - 7]);
        }
    }
    assert(s[n] == '&');
    text::lemma_first_index_is(s, '&', n);
    assert(s.take(n) =~= a);
    assert(s.skip(n + 1) =~= b);
    assert forall|j: int| 0 <= j < b.len() implies b[j] != '&' by {
        if j >= 5 {
            assert(b[j] == form_encoded(name)[j - 5]);
        }
    }
    text::lemma_first_index_is(b, '&', b.len() as int);
    assert(text::pieces(b, '&') =~= seq![b]);
    let parts = text::pieces(s, '&');
    assert(parts =~= seq![a, b]);
    assert(a =~= "action"@ + seq!['='] + form_encoded(action));
    assert(b =~= "name"@ + seq!['='] + form_encoded(name));
    lemma_field("action"@, action, a);
    lemma_field("name"@, name, b);
    assert(parts.skip(1) =~= seq![b]);
    assert(seq![b].skip(1) =~= Seq::<Seq<char>>::empty());
    assert(web::fields_of(seq![b].skip(1)) =~= Seq::<(Seq<char>, Seq<char>)>::empty());
    assert(seq![b][0] == b);
    assert(web::fields_of(seq![b]) =~= seq![("name"@, name)]);
    let fields = web::fields_of(parts);
    assert(fields =~= seq![("action"@, action), ("name"@, name)]);
    assert(fields[0].0 == "action"@);
    assert("action"@.len() != "name"@.len());
    assert(fields.skip(1) =~= seq![("name"@, name)]);
    assert(web::field_value(fields.skip(1), "name"@) == Some(name));
}

/// An action that is none of the page's changes nothing.
pub proof fn law_unknown_action_does_nothing(
    s: SupervisorModel,
    action: Seq<char>,
    name: Seq<char>,
    now: u128,
)
    requires
        action != "start"@ && action != "stop"@ && action != "restart"@ && action != "startall"@
            && action != "stopall"@ && action != "restartall"@,
    ensures
        batch::is_done(web::action_batch(s, action, name)),
        batch::stepped(web::action_batch(s, action, name), s, now).1 == s,
{
}

/// The number of a state stands for that state.
pub proof fn law_state_code_round_trip(state: ProcessState)
    ensures
        web::state_of_code(states::state_code(state)) == state,
{
}

// ---------------------------------------------------------------------------
// Actions
// ---------------------------------------------------------------------------

/// What tells the actions apart.
proof fn lemma_actions()
    ensures
        "start"@.len() == 5,
        "stop"@.len() == 4,
        "restart"@.len() == 7,
        "startall"@.len() == 8,
        "stopall"@.len() == 7,
        "restartall"@.len() == 10,
        "restart"@[0] == 'r',
        "stopall"@[0] == 's',
{
    reveal_strlit("start");
    reveal_strlit("stop");
    reveal_strlit("restart");
    reveal_strlit("startall");
    reveal_strlit("stopall");
    reveal_strlit("restartall");
}

/// The buttons do what they say: each action is that operation, on the process
/// named or on every process, in order.
pub proof fn law_actions(s: SupervisorModel, name: Seq<char>, i: int)
    requires
        0 <= i < s.processes.len(),
    ensures
        ({
            let one = |action: Seq<char>, verb: Verb|
                ({
                    let b = web::action_batch(s, action, name);
                    &&& b.verb == verb
                    &&& b.names == seq![name]
                    &&& b.outcomes.len() == 0
                    &&& b.stage is Begin
                });
            let all = |action: Seq<char>, verb: Verb|
                ({
                    let b = web::action_batch(s, action, name);
                    &&& b.verb == verb
                    &&& b.names.len() == s.processes.len()
                    &&& b.names[i] == s.processes[i].config.name
                    &&& b.outcomes.len() == 0
                    &&& b.stage is Begin
                });
            &&& one("start"@, Verb::Start)
            &&& one("stop"@, Verb::Stop)
            &&& one("restart"@, Verb::Restart)
            &&& all("startall"@, Verb::Start)
            &&& all("stopall"@, Verb::Stop)
            &&& all("restartall"@, Verb::Restart)
        }),
{
    lemma_actions();
}

/// The page says what became of an action.
pub proof fn law_notices(name: Seq<char>, outcomes: Seq<Result<(), (i32, Seq<char>)>>)
    requires
        outcomes.len() > 0,
    ensures
        ({
            let ok = outcomes[0] is Ok;
            let said = |action: Seq<char>| web::notice_text(action, name, outcomes);
            &&& ok ==> said("start"@) == name + ": started"@
            &&& !ok ==> said("start"@) == name + ": could not start"@
            &&& ok ==> said("stop"@) == name + ": stopped"@
            &&& !ok ==> said("stop"@) == name + ": not running"@
            &&& ok ==> said("restart"@) == name + ": restarted"@
            &&& !ok ==> said("restart"@) == name + ": no such process"@
            &&& said("startall"@) == "started all processes"@
            &&& said("stopall"@) == "stopped all processes"@
            &&& said("restartall"@) == "restarted all processes"@
        }),
{
    lemma_actions();
}

// ---------------------------------------------------------------------------
// The page
// ---------------------------------------------------------------------------

/// Whether a text holds another.
pub open spec fn holds(s: Seq<char>, part: Seq<char>) -> bool {
    exists|i: int| text::occurs_at(s, part, i)
}

proof fn lemma_holds(a: Seq<char>, part: Seq<char>, b: Seq<char>)
    ensures
        holds(a + part + b, part),
{
    let s = a + part + b;
    let k = a.len() as int;
    assert(s.subrange(k, k + part.len()) =~= part);
    assert(text::occurs_at(s, part, k));
}

/// A part of a part is a part.
proof fn lemma_holds_within(s: Seq<char>, mid: Seq<char>, part: Seq<char>)
    requires
        holds(s, mid),
        holds(mid, part),
    ensures
        holds(s, part),
{
    let i = choose|i: int| text::occurs_at(s, mid, i);
    let j = choose|j: int| text::occurs_at(mid, part, j);
    let inner = s.subrange(i, i + mid.len());
    assert(s.subrange(i + j, i + j + part.len()) =~= inner.subrange(j, j + part.len()));
    assert(text::occurs_at(s, part, i + j));
}

/// The row of a process shows its state in words and as a class, under which
/// name it goes, and its description, all of it escaped.
pub proof fn law_row(i: InfoModel)
    ensures
        ({
            let r = web::row_text(i);
            &&& holds(
                r,
                "<span class=\"state "@ + web::class_of(web::state_of_code(i.state)) + "\">"@
                    + web::html_escaped(i.statename) + "</span>"@,
            )
            &&& holds(
                r,
                "<td class=\"name\">"@ + web::html_escaped(web::namespec(i.group, i.name))
                    + "</td>"@,
            )
            &&& holds(
                r,
                "<td class=\"desc\">"@ + web::html_escaped(i.description) + "</td>"@,
            )
        }),
{
    let a = "<tr><td>"@;
    let b = "<span class=\"state "@;
    let c = "</span>"@;
    let n = "<td class=\"name\">"@;
    let e = "</td>"@;
    let d = "<td class=\"desc\">"@;
    let z = "<td class=\"actions\">"@;
    reveal_strlit("<tr><td>");
    reveal_strlit("<span class=\"state ");
    reveal_strlit("<tr><td><span class=\"state ");
    reveal_strlit("</span>");
    reveal_strlit("<td class=\"name\">");
    reveal_strlit("</span></td><td class=\"name\">");
    reveal_strlit("</td>");
    reveal_strlit("<td class=\"desc\">");
    reveal_strlit("</td><td class=\"desc\">");
    reveal_strlit("<td class=\"actions\">");
    reveal_strlit("</td><td class=\"actions\">");
    assert("<tr><td><span class=\"state "@ =~= a + b);
    assert("</span></td><td class=\"name\">"@ =~= c + e + n);
    assert("</td><td class=\"desc\">"@ =~= e + d);
    assert("</td><td class=\"actions\">"@ =~= e + z);
    let r = web::row_text(i);
    let state = b + web::class_of(web::state_of_code(i.state)) + "\">"@ + web::html_escaped(
        i.statename,
    ) + c;
    let name = n + web::html_escaped(web::namespec(i.group, i.name)) + e;
    let desc = d + web::html_escaped(i.description) + e;
    let tail = z + web::action_form("start"@, i.name, "start"@) + web::action_form(
        "stop"@,
        i.name,
        "stop"@,
    ) + web::action_form("restart"@, i.name, "restart"@) + "</td></tr>"@;
    assert(r =~= a + state + (e + name + desc + tail));
    assert(r =~= (a + state + e) + name + (desc + tail));
    assert(r =~= (a + state + e + name) + desc + tail);
    lemma_holds(a, state, e + name + desc + tail);
    lemma_holds(a + state + e, name, desc + tail);
    lemma_holds(a + state + e + name, desc, tail);
}

/// The row of a process has a button for each action, for that process.
pub proof fn law_row_buttons(i: InfoModel)
    ensures
        holds(web::row_text(i), web::action_form("start"@, i.name, "start"@)),
        holds(web::row_text(i), web::action_form("stop"@, i.name, "stop"@)),
        holds(web::row_text(i), web::action_form("restart"@, i.name, "restart"@)),
{
    let r = web::row_text(i);
    let head = "<tr><td><span class=\"state "@ + web::class_of(web::state_of_code(i.state))
        + "\">"@ + web::html_escaped(i.statename) + "</span></td><td class=\"name\">"@
        + web::html_escaped(web::namespec(i.group, i.name)) + "</td><td class=\"desc\">"@
        + web::html_escaped(i.description) + "</td><td class=\"actions\">"@;
    let a = web::action_form("start"@, i.name, "start"@);
    let b = web::action_form("stop"@, i.name, "stop"@);
    let c = web::action_form("restart"@, i.name, "restart"@);
    let z = "</td></tr>"@;
    assert(r =~= head + a + (b + c + z));
    assert(r =~= (head + a) + b + (c + z));
    assert(r =~= (head + a + b) + c + z);
    lemma_holds(head, a, b + c + z);
    lemma_holds(head + a, b, c + z);
    lemma_holds(head + a + b, c, z);
}

/// A button posts its action and the name of its process, and says what it
/// does.
pub proof fn law_buttons(action: Seq<char>, name: Seq<char>, label: Seq<char>)
    ensures
        ({
            let one = web::action_form(action, name, label);
            let all = web::toolbar_form(action, label);
            let does = "name=\"action\" value=\""@ + web::html_escaped(action) + "\">"@;
            &&& text::has_prefix(one, "<form method=\"post\" action=\"/\""@)
            &&& text::has_prefix(all, "<form method=\"post\" action=\"/\""@)
            &&& holds(one, does)
            &&& holds(all, does)
            &&& holds(one, "name=\"name\" value=\""@ + web::html_escaped(name) + "\">"@)
            &&& text::has_suffix(
                one,
                "<button type=\"submit\">"@ + web::html_escaped(label) + "</button></form>"@,
            )
        }),
{
    let f = "<form method=\"post\" action=\"/\""@;
    let x = " class=\"act\"><input type=\"hidden\" "@;
    let y = " class=\"tb\"><input type=\"hidden\" "@;
    let v = "name=\"action\" value=\""@;
    let q = "\">"@;
    let h = "<input type=\"hidden\" "@;
    let w = "name=\"name\" value=\""@;
    let k = "<button type=\"submit\">"@;
    let m = "<button type=\"submit\" class=\"btn\">"@;
    let z = "</button></form>"@;
    reveal_strlit("<form method=\"post\" action=\"/\"");
    reveal_strlit(" class=\"act\"><input type=\"hidden\" ");
    reveal_strlit(" class=\"tb\"><input type=\"hidden\" ");
    reveal_strlit("name=\"action\" value=\"");
    reveal_strlit("\">");
    reveal_strlit("<input type=\"hidden\" ");
    reveal_strlit("name=\"name\" value=\"");
    reveal_strlit("<button type=\"submit\">");
    reveal_strlit("<button type=\"submit\" class=\"btn\">");
    reveal_strlit(
        "<form method=\"post\" action=\"/\" class=\"act\"><input type=\"hidden\" name=\"action\" value=\"",
    );
    reveal_strlit(
        "<form method=\"post\" action=\"/\" class=\"tb\"><input type=\"hidden\" name=\"action\" value=\"",
    );
    reveal_strlit("\"><input type=\"hidden\" name=\"name\" value=\"");
    reveal_strlit("\"><button type=\"submit\">");
    reveal_strlit("\"><button type=\"submit\" class=\"btn\">");
    let one = web::action_form(action, name, label);
    let all = web::toolbar_form(action, label);
    let a = web::html_escaped(action);
    let n = web::html_escaped(name);
    let l = web::html_escaped(label);
    assert("<form method=\"post\" action=\"/\" class=\"act\"><input type=\"hidden\" name=\"action\" value=\""@
        =~= f + x + v);
    assert("<form method=\"post\" action=\"/\" class=\"tb\"><input type=\"hidden\" name=\"action\" value=\""@
        =~= f + y + v);
    assert("\"><input type=\"hidden\" name=\"name\" value=\""@ =~= q + h + w);
    assert("\"><button type=\"submit\">"@ =~= q + k);
    assert("\"><button type=\"submit\" class=\"btn\">"@ =~= q + m);
    let does = v + a + q;
    let names = w + n + q;
    let says = k + l + z;
    assert(one =~= (f + x) + does + (h + names + says));
    assert(one =~= (f + x + does + h) + names + says);
    assert(all =~= (f + y) + does + (m + l + z));
    lemma_holds(f + x, does, h + names + says);
    lemma_holds(f + x + does + h, names, says);
    lemma_holds(f + y, does, m + l + z);
    assert(one.take(f.len() as int) =~= f);
    assert(all.take(f.len() as int) =~= f);
    assert(one.skip(one.len() - says.len()) =~= says);
}

/// The page shows a row for every process, in order, and says so if there are
/// none.
pub proof fn law_rows(infos: Seq<InfoModel>, i: InfoModel)
    ensures
        web::row_texts(infos.push(i)) == web::row_texts(infos) + web::row_text(i),
        infos.len() > 0 ==> web::rows_text(infos) == web::row_texts(infos),
        web::row_texts(Seq::empty()).len() == 0,
        holds(web::rows_text(Seq::empty()), "No programs configured"@),
{
    assert(infos.push(i).drop_last() =~= infos);
    let a = "<tr><td colspan=\"4\">"@;
    let b = "No programs configured"@;
    let c = "</td></tr>"@;
    reveal_strlit("<tr><td colspan=\"4\">");
    reveal_strlit("No programs configured");
    reveal_strlit("</td></tr>");
    reveal_strlit("<tr><td colspan=\"4\">No programs configured</td></tr>");
    assert("<tr><td colspan=\"4\">No programs configured</td></tr>"@ =~= a + b + c);
    lemma_holds(a, b, c);
}

/// The page shows the rows, whose supervisor it is, what became of the last
/// action, and buttons for what can be done to every process.
pub proof fn law_page(identifier: Seq<char>, infos: Seq<InfoModel>, notice: Seq<char>)
    ensures
        ({
            let p = web::page_text(identifier, infos, notice);
            &&& holds(p, web::rows_text(infos))
            &&& holds(p, "<span class=\"ident\">"@ + web::html_escaped(identifier) + "</span>"@)
            &&& notice.len() > 0 ==> holds(
                p,
                "<p class=\"notice\">"@ + web::html_escaped(notice) + "</p>"@,
            )
            &&& notice.len() == 0 ==> web::notice_html(notice).len() == 0
            &&& holds(p, web::toolbar_form("startall"@, "Start all"@))
            &&& holds(p, web::toolbar_form("stopall"@, "Stop all"@))
            &&& holds(p, web::toolbar_form("restartall"@, "Restart all"@))
        }),
{
    let p = web::page_text(identifier, infos, notice);
    let top = web::page_top(identifier, notice);
    let mid =
        "<table><thead><tr><th>State</th><th>Name</th><th>Description</th><th>Action</th></tr></thead><tbody>"@;
    let foot = "</tbody></table><footer>supervisor-rs "@ + crate::rpc::VERSION@
        + " · XML-RPC at <code>POST /RPC2</code></footer></body></html>"@;
    let rows = web::rows_text(infos);
    assert(p =~= (top + mid) + rows + foot);
    lemma_holds(top + mid, rows, foot);
    lemma_holds(Seq::empty(), top, mid + rows + foot);
    assert(p =~= Seq::<char>::empty() + top + (mid + rows + foot));
    lemma_page_top(identifier, notice);
    lemma_holds_within(
        p,
        top,
        "<span class=\"ident\">"@ + web::html_escaped(identifier) + "</span>"@,
    );
    if notice.len() > 0 {
        lemma_holds_within(p, top, web::notice_html(notice));
    }
    lemma_holds_within(p, top, web::toolbar_form("startall"@, "Start all"@));
    lemma_holds_within(p, top, web::toolbar_form("stopall"@, "Stop all"@));
    lemma_holds_within(p, top, web::toolbar_form("restartall"@, "Restart all"@));
}

proof fn lemma_page_top(identifier: Seq<char>, notice: Seq<char>)
    ensures
        ({
            let top = web::page_top(identifier, notice);
            &&& holds(top, "<span class=\"ident\">"@ + web::html_escaped(identifier) + "</span>"@)
            &&& holds(top, web::notice_html(notice))
            &&& holds(top, web::toolbar_form("startall"@, "Start all"@))
            &&& holds(top, web::toolbar_form("stopall"@, "Stop all"@))
            &&& holds(top, web::toolbar_form("restartall"@, "Restart all"@))
        }),
{
    let top = web::page_top(identifier, notice);
    let id = web::html_escaped(identifier);
    let a =
        "<!doctype html>\n<html lang=\"en\"><head><meta charset=\"utf-8\"><meta name=\"viewport\" content=\"width=device-width, initial-scale=1\"><title>Supervisor Status — "@
        + id + "</title>"@ + web::STYLE@;
    let b = "</head><body><header><h1>supervisor</h1>"@;
    let c = "<span class=\"ident\">"@;
    let e = "</span>"@;
    let f = "</header>"@;
    reveal_strlit("</head><body><header><h1>supervisor</h1>");
    reveal_strlit("<span class=\"ident\">");
    reveal_strlit("</head><body><header><h1>supervisor</h1><span class=\"ident\">");
    reveal_strlit("</span>");
    reveal_strlit("</header>");
    reveal_strlit("</span></header>");
    assert("</head><body><header><h1>supervisor</h1><span class=\"ident\">"@ =~= b + c);
    assert("</span></header>"@ =~= e + f);
    let shown = c + id + e;
    let n = web::notice_html(notice);
    let g = "<div class=\"toolbar\">"@;
    let x = web::toolbar_form("startall"@, "Start all"@);
    let y = web::toolbar_form("stopall"@, "Stop all"@);
    let z = web::toolbar_form("restartall"@, "Restart all"@);
    let end = "<a class=\"btn ghost\" href=\"/\">Refresh</a></div>"@;
    assert(top =~= (a + b) + shown + (f + n + g + x + y + z + end));
    assert(top =~= (a + b + shown + f) + n + (g + x + y + z + end));
    assert(top =~= (a + b + shown + f + n + g) + x + (y + z + end));
    assert(top =~= (a + b + shown + f + n + g + x) + y + (z + end));
    assert(top =~= (a + b + shown + f + n + g + x + y) + z + end);
    lemma_holds(a + b, shown, f + n + g + x + y + z + end);
    lemma_holds(a + b + shown + f, n, g + x + y + z + end);
    lemma_holds(a + b + shown + f + n + g, x, y + z + end);
    lemma_holds(a + b + shown + f + n + g + x, y, z + end);
    lemma_holds(a + b + shown + f + n + g + x + y, z, end);
}

/// What a state looks like: good while it runs, pending on the way up or down,
/// bad when it fails, off otherwise.
pub proof fn law_state_classes(state: ProcessState)
    ensures
        state is Running ==> web::class_of(state) == "ok"@,
        state is Starting || state is Stopping ==> web::class_of(state) == "pending"@,
        state is Backoff || state is Fatal ==> web::class_of(state) == "bad"@,
        state is Stopped || state is Exited || state is Unknown ==> web::class_of(state) == "off"@,
{
}

/// Numbers that are no state stand for the unknown one.
pub proof fn law_other_codes_are_unknown(code: i64)
    requires
        forall|state: ProcessState| #[trigger] states::state_code(state) != code,
    ensures
        web::state_of_code(code) is Unknown,
{
    assert(states::state_code(ProcessState::Stopped) != code);
    assert(states::state_code(ProcessState::Starting) != code);
    assert(states::state_code(ProcessState::Running) != code);
    assert(states::state_code(ProcessState::Backoff) != code);
    assert(states::state_code(ProcessState::Stopping) != code);
    assert(states::state_code(ProcessState::Exited) != code);
    assert(states::state_code(ProcessState::Fatal) != code);
}

/// In a form a plus sign is a space; the first pair with a key counts, and a
/// part without a value has an empty one.
pub proof fn law_forms(
    key: Seq<char>,
    value: Seq<char>,
    other: Seq<char>,
    fields: Seq<(Seq<char>, Seq<char>)>,
    rest: Seq<u8>,
)
    ensures
        web::url_bytes(seq![43u8] + rest) == seq![32u8] + web::url_bytes(rest),
        web::field_value(seq![(key, value)] + fields, key) == Some(value),
        other != key ==> web::field_value(seq![(key, value)] + fields, other) == web::field_value(
            fields,
            other,
        ),
        web::field_value(Seq::empty(), key) is None,
{
    assert((seq![43u8] + rest).skip(1) =~= rest);
    assert((seq![(key, value)] + fields).skip(1) =~= fields);
}

/// A form holds a pair for each of its parts, in order: what stands before the
/// first equals sign and what stands behind it, both decoded. A part without
/// one is a key with an empty value, and an empty part is nothing.
pub proof fn law_form_parts(key: Seq<char>, value: Seq<char>, parts: Seq<Seq<char>>)
    requires
        forall|i: int| 0 <= i < key.len() ==> #[trigger] key[i] != '=',
    ensures
        web::fields_of(seq![key + seq!['='] + value] + parts) == seq![
            (web::url_decoded(key), web::url_decoded(value)),
        ] + web::fields_of(parts),
        key.len() > 0 ==> web::fields_of(seq![key] + parts) == seq![
            (web::url_decoded(key), Seq::<char>::empty()),
        ] + web::fields_of(parts),
        web::fields_of(seq![Seq::<char>::empty()] + parts) == web::fields_of(parts),
        web::fields_of(Seq::empty()).len() == 0,
{
    let whole = key + seq!['='] + value;
    let n = key.len() as int;
    assert forall|j: int| 0 <= j < n implies whole[j] != '=' by {
        assert(whole[j] == key[j]);
    }
    assert(whole[n] == '=');
    text::lemma_first_index_is(whole, '=', n);
    text::lemma_first_index_is(key, '=', n);
    assert(whole.take(n) =~= key);
    assert(whole.skip(n + 1) =~= value);
    assert((seq![whole] + parts).skip(1) =~= parts);
    assert((seq![key] + parts).skip(1) =~= parts);
    assert((seq![Seq::<char>::empty()] + parts).skip(1) =~= parts);
    law_plain_text_decodes_to_itself(Seq::empty());
}

} // verus!
