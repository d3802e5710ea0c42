//! What the two directions of the protocol have to do with each other:
//! parsing a rendered document gives back what was rendered.
use crate::http::base64;
use crate::number;
use crate::text;
use crate::xmlrpc;
use crate::xmlrpc::ResponseModel;
use crate::xmlrpc::TokModel;
use crate::xmlrpc::ValueModel;
use vstd::prelude::*;
use vstd::utf8;

verus! {

// ---------------------------------------------------------------------------
// Entities
// ---------------------------------------------------------------------------

/// Replacing the entity that stands for a character gives the character.
proof fn lemma_unescape_one(c: char, rest: Seq<char>)
    ensures
        xmlrpc::unescaped(xmlrpc::escaped_char(c) + rest) == seq![c] + xmlrpc::unescaped(rest),
{
    reveal_strlit("&lt;");
    reveal_strlit("&gt;");
    reveal_strlit("&quot;");
    reveal_strlit("&apos;");
    reveal_strlit("&amp;");
    let e = xmlrpc::escaped_char(c);
    let s = e + rest;
    if c == '&' || c == '<' || c == '>' {
        assert(s.take(e.len() as int) =~= e);
        assert(s.skip(e.len() as int) =~= rest);
        if c == '&' {
            assert(s[1] == 'a');
            assert(s[2] == 'm');
            assert(!text::has_prefix(s, "&lt;"@)) by {
                assert(s.take(4)[1] == 'a');
            }
            assert(!text::has_prefix(s, "&gt;"@)) by {
                assert(s.take(4)[1] == 'a');
            }
            assert(!text::has_prefix(s, "&quot;"@)) by {
                if 6 <= s.len() {
                    assert(s.take(6)[1] == 'a');
                }
            }
            assert(!text::has_prefix(s, "&apos;"@)) by {
                if 6 <= s.len() {
                    assert(s.take(6)[2] == 'm');
                }
            }
        }
        if c == '>' {
            assert(!text::has_prefix(s, "&lt;"@)) by {
                assert(s.take(4)[1] == 'g');
            }
        }
    } else {
        assert(s[0] == c);
        assert(s.skip(1) =~= rest);
        assert(xmlrpc::leading_entity(s) is None) by {
            assert("&lt;"@[0] == '&');
            assert("&gt;"@[0] == '&');
            assert("&quot;"@[0] == '&');
            assert("&apos;"@[0] == '&');
            assert("&amp;"@[0] == '&');
            if 4 <= s.len() {
                assert(s.take(4)[0] == c);
            }
            if 5 <= s.len() {
                assert(s.take(5)[0] == c);
            }
            if 6 <= s.len() {
                assert(s.take(6)[0] == c);
            }
        }
    }
}

/// Replacing the entities of an escaped text gives the text back.
pub proof fn law_unescape_inverts_escape(s: Seq<char>)
    ensures
        xmlrpc::unescaped(xmlrpc::escaped(s)) == s,
    decreases s.len(),
{
    if s.len() > 0 {
        law_unescape_inverts_escape(s.skip(1));
        lemma_unescape_one(s[0], xmlrpc::escaped(s.skip(1)));
        assert(seq![s[0]] + s.skip(1) =~= s);
    }
}

/// An escaped text holds no `<` and no `>`, and is empty only for the empty text.
pub proof fn law_escaped_is_plain(s: Seq<char>)
    ensures
        forall|i: int|
            0 <= i < xmlrpc::escaped(s).len() ==> #[trigger] xmlrpc::escaped(s)[i] != '<'
                && xmlrpc::escaped(s)[i] != '>',
        xmlrpc::escaped(s).len() == 0 <==> s.len() == 0,
    decreases s.len(),
{
    if s.len() > 0 {
        reveal_strlit("&lt;");
        reveal_strlit("&gt;");
        reveal_strlit("&amp;");
        law_escaped_is_plain(s.skip(1));
        let e = xmlrpc::escaped_char(s[0]);
        let r = xmlrpc::escaped(s.skip(1));
        assert forall|i: int| 0 <= i < (e + r).len() implies #[trigger] (e + r)[i] != '<' && (e
            + r)[i] != '>' by {
            if i < e.len() {
                assert((e + r)[i] == e[i]);
            } else {
                assert((e + r)[i] == r[i - e.len()]);
            }
        }
    }
}

/// A text without `&` stays as it is.
proof fn lemma_unescape_plain(s: Seq<char>)
    requires
        forall|i: int| 0 <= i < s.len() ==> #[trigger] s[i] != '&',
    ensures
        xmlrpc::unescaped(s) == s,
    decreases s.len(),
{
    if s.len() > 0 {
        reveal_strlit("&lt;");
        reveal_strlit("&gt;");
        reveal_strlit("&quot;");
        reveal_strlit("&apos;");
        reveal_strlit("&amp;");
        assert(s[0] != '&');
        assert(xmlrpc::leading_entity(s) is None) by {
            assert("&lt;"@[0] == '&');
            assert("&gt;"@[0] == '&');
            assert("&quot;"@[0] == '&');
            assert("&apos;"@[0] == '&');
            assert("&amp;"@[0] == '&');
            if 4 <= s.len() {
                assert(s.take(4)[0] == s[0]);
            }
            if 5 <= s.len() {
                assert(s.take(5)[0] == s[0]);
            }
            if 6 <= s.len() {
                assert(s.take(6)[0] == s[0]);
            }
        }
        let t = s.skip(1);
        assert forall|i: int| 0 <= i < t.len() implies #[trigger] t[i] != '&' by {
            assert(t[i] == s[i + 1]);
        }
        lemma_unescape_plain(t);
        assert(seq![s[0]] + t =~= s);
    }
}

// ---------------------------------------------------------------------------
// Tokens of a rendered document
// ---------------------------------------------------------------------------

/// Whether `s` can be the name of an element: letters and digits, at least one.
pub open spec fn is_name(s: Seq<char>) -> bool {
    &&& s.len() > 0
    &&& forall|i: int|
        0 <= i < s.len() ==> ('a' <= #[trigger] s[i] <= 'z') || ('A' <= s[i] <= 'Z') || ('0' <= s[i]
            <= '9')
}

/// A text that neither begins nor ends with white space is its own trimmed form.
proof fn lemma_trimmed_same(s: Seq<char>)
    requires
        s.len() > 0 ==> !text::is_white(s[0]) && !text::is_white(s.last()),
    ensures
        text::trimmed(s) == s,
{
}

/// A run of characters that are not white space is one word.
proof fn lemma_one_word(s: Seq<char>)
    requires
        s.len() > 0,
        forall|i: int| 0 <= i < s.len() ==> !text::is_white(#[trigger] s[i]),
    ensures
        text::words(s) == seq![s],
{
    text::lemma_word_len(s);
    assert(!text::is_white(s[0]));
    assert(text::word_len(s) == s.len());
    assert(s.take(s.len() as int) =~= s);
    assert(s.skip(s.len() as int) =~= Seq::<char>::empty());
    assert(text::words(Seq::<char>::empty()) =~= Seq::<Seq<char>>::empty());
    assert(text::words(s) =~= seq![s]);
}

proof fn lemma_tokens_open(name: Seq<char>, rest: Seq<char>)
    requires
        is_name(name),
    ensures
        xmlrpc::tokens(xmlrpc::open_tag(name) + rest) == seq![TokModel::Open(name)]
            + xmlrpc::tokens(rest),
{
    reveal_strlit("<");
    reveal_strlit(">");
    reveal_strlit("<?");
    reveal_strlit("<!--");
    reveal_strlit("/");
    let s = xmlrpc::open_tag(name) + rest;
    let e = name.len() as int + 1;
    assert(s[0] == '<');
    assert(s[1] == name[0]);
    assert(!text::has_prefix(s, "<?"@)) by {
        assert(s.take(2)[1] == name[0]);
        assert("<?"@[1] == '?');
    }
    assert(!text::has_prefix(s, "<!--"@)) by {
        if 4 <= s.len() {
            assert(s.take(4)[1] == name[0]);
            assert("<!--"@[1] == '!');
        }
    }
    assert forall|j: int| 0 <= j < e implies s[j] != '>' by {
        if j > 0 {
            assert(s[j] == name[j - 1]);
        }
    }
    assert(s[e] == '>');
    text::lemma_first_index_is(s, '>', e);
    assert(s.subrange(1, e) =~= name);
    assert(s.skip(e + 1) =~= rest);
    assert forall|i: int| 0 <= i < name.len() implies !text::is_white(#[trigger] name[i]) by {}
    lemma_trimmed_same(name);
    lemma_one_word(name);
    assert(!text::has_prefix(name, "/"@)) by {
        assert(name.take(1)[0] == name[0]);
        assert("/"@[0] == '/');
    }
    assert(!text::has_suffix(name, "/"@)) by {
        assert(name.skip(name.len() - 1)[0] == name[name.len() - 1]);
        assert("/"@[0] == '/');
    }
    assert(xmlrpc::tag_token(name) == TokModel::Open(name));
}

proof fn lemma_tokens_close(name: Seq<char>, rest: Seq<char>)
    requires
        is_name(name),
    ensures
        xmlrpc::tokens(xmlrpc::close_tag(name) + rest) == seq![TokModel::Close(name)]
            + xmlrpc::tokens(rest),
{
    reveal_strlit("</");
    reveal_strlit(">");
    reveal_strlit("<?");
    reveal_strlit("<!--");
    reveal_strlit("/");
    let s = xmlrpc::close_tag(name) + rest;
    let e = name.len() as int + 2;
    assert(s[0] == '<');
    assert(s[1] == '/');
    assert(!text::has_prefix(s, "<?"@)) by {
        assert(s.take(2)[1] == '/');
        assert("<?"@[1] == '?');
    }
    assert(!text::has_prefix(s, "<!--"@)) by {
        if 4 <= s.len() {
            assert(s.take(4)[1] == '/');
            assert("<!--"@[1] == '!');
        }
    }
    assert forall|j: int| 0 <= j < e implies s[j] != '>' by {
        if j > 1 {
            assert(s[j] == name[j - 2]);
        }
    }
    assert(s[e] == '>');
    text::lemma_first_index_is(s, '>', e);
    let inner = s.subrange(1, e);
    assert(inner.skip(1) =~= name);
    assert(inner.last() == name.last());
    assert(s.skip(e + 1) =~= rest);
    assert(!text::is_white(name[0]));
    assert(!text::is_white(name[name.len() - 1]));
    lemma_trimmed_same(inner);
    lemma_trimmed_same(name);
    assert(inner.take(1) =~= "/"@);
    assert(xmlrpc::tag_token(inner) == TokModel::Close(name));
}

/// The token of a text between tags; none for the empty text.
pub open spec fn text_toks(s: Seq<char>) -> Seq<TokModel> {
    if s.len() == 0 {
        Seq::empty()
    } else {
        seq![TokModel::Text(s)]
    }
}

/// The text `raw`, written before a tag or at the end, is one token.
proof fn lemma_tokens_text(raw: Seq<char>, rest: Seq<char>)
    requires
        forall|i: int| 0 <= i < raw.len() ==> #[trigger] raw[i] != '<',
        rest.len() > 0 ==> rest[0] == '<',
        raw.len() > 0,
    ensures
        xmlrpc::tokens(raw + rest) == seq![TokModel::Text(xmlrpc::unescaped(raw))]
            + xmlrpc::tokens(rest),
{
    let s = raw + rest;
    assert(s[0] == raw[0]);
    assert forall|j: int| 0 <= j < raw.len() implies s[j] != '<' by {
        assert(s[j] == raw[j]);
    }
    text::lemma_first_index_is(s, '<', raw.len() as int);
    assert(s.take(raw.len() as int) =~= raw);
    assert(s.skip(raw.len() as int) =~= rest);
}

/// An escaped text before a tag is the token of the text.
proof fn lemma_tokens_escaped(t: Seq<char>, rest: Seq<char>)
    requires
        rest.len() > 0,
        rest[0] == '<',
    ensures
        xmlrpc::tokens(xmlrpc::escaped(t) + rest) == text_toks(t) + xmlrpc::tokens(rest),
{
    law_escaped_is_plain(t);
    law_unescape_inverts_escape(t);
    if t.len() == 0 {
        assert(xmlrpc::escaped(t) + rest =~= rest);
        assert(text_toks(t) + xmlrpc::tokens(rest) =~= xmlrpc::tokens(rest));
    } else {
        lemma_tokens_text(xmlrpc::escaped(t), rest);
    }
}

/// The tokens of an element with the given content.
pub open spec fn element_toks(name: Seq<char>, inner: Seq<TokModel>) -> Seq<TokModel> {
    seq![TokModel::Open(name)] + inner + seq![TokModel::Close(name)]
}

/// The first character of a tag is `<`.
proof fn lemma_tag_starts(name: Seq<char>, rest: Seq<char>)
    ensures
        (xmlrpc::open_tag(name) + rest).len() > 0,
        (xmlrpc::open_tag(name) + rest)[0] == '<',
        (xmlrpc::close_tag(name) + rest).len() > 0,
        (xmlrpc::close_tag(name) + rest)[0] == '<',
{
    reveal_strlit("<");
    reveal_strlit("</");
    reveal_strlit(">");
}

/// An element's tokens are those of its content between its tags, if the
/// content's tokens are `inner` whatever tag follows.
proof fn lemma_tokens_element(
    name: Seq<char>,
    body: Seq<char>,
    inner: Seq<TokModel>,
    rest: Seq<char>,
)
    requires
        is_name(name),
        xmlrpc::tokens(body + (xmlrpc::close_tag(name) + rest)) == inner + xmlrpc::tokens(
            xmlrpc::close_tag(name) + rest,
        ),
    ensures
        xmlrpc::tokens(xmlrpc::element(name, body) + rest) == element_toks(name, inner)
            + xmlrpc::tokens(rest),
{
    let tail = xmlrpc::close_tag(name) + rest;
    assert(xmlrpc::element(name, body) + rest =~= xmlrpc::open_tag(name) + (body + tail));
    lemma_tokens_open(name, body + tail);
    lemma_tokens_close(name, rest);
    assert(seq![TokModel::Open(name)] + (inner + (seq![TokModel::Close(name)] + xmlrpc::tokens(
        rest,
    ))) =~= element_toks(name, inner) + xmlrpc::tokens(rest));
}

// ---------------------------------------------------------------------------
// Values
// ---------------------------------------------------------------------------

/// Whether a value can be written: integers fit in 64 bits, and the text of a
/// floating-point number is one.
pub open spec fn sound(v: ValueModel) -> bool
    decreases v,
{
    match v {
        ValueModel::Int(i) => i64::MIN <= i <= i64::MAX,
        ValueModel::Double(s) => xmlrpc::is_double(s),
        ValueModel::Array(items) => all_sound(items),
        ValueModel::Struct(members) => members_sound(members),
        _ => true,
    }
}

/// Whether every value of a list can be written.
pub open spec fn all_sound(s: Seq<ValueModel>) -> bool
    decreases s,
{
    s.len() == 0 || (sound(s[0]) && all_sound(s.subrange(1, s.len() as int)))
}

/// Whether the value of every member can be written.
pub open spec fn members_sound(s: Seq<(Seq<char>, ValueModel)>) -> bool
    decreases s,
{
    s.len() == 0 || (sound(s[0].1) && members_sound(s.subrange(1, s.len() as int)))
}

/// The tokens of a value.
pub open spec fn value_toks(v: ValueModel) -> Seq<TokModel>
    decreases v,
{
    element_toks(
        "value"@,
        match v {
            ValueModel::Int(i) => element_toks("int"@, text_toks(number::int_text(i))),
            ValueModel::Bool(b) => element_toks(
                "boolean"@,
                text_toks(seq![if b { '1' } else { '0' }]),
            ),
            ValueModel::Str(s) => element_toks("string"@, text_toks(s)),
            ValueModel::Double(s) => element_toks("double"@, text_toks(s)),
            ValueModel::Array(items) => element_toks(
                "array"@,
                element_toks("data"@, values_toks(items)),
            ),
            ValueModel::Struct(members) => element_toks("struct"@, members_toks(members)),
        },
    )
}

/// The tokens of a list of values.
pub open spec fn values_toks(s: Seq<ValueModel>) -> Seq<TokModel>
    decreases s,
{
    if s.len() == 0 {
        Seq::empty()
    } else {
        value_toks(s[0]) + values_toks(s.subrange(1, s.len() as int))
    }
}

/// The tokens of a struct's members.
pub open spec fn members_toks(s: Seq<(Seq<char>, ValueModel)>) -> Seq<TokModel>
    decreases s,
{
    if s.len() == 0 {
        Seq::empty()
    } else {
        element_toks(
            "member"@,
            element_toks("name"@, text_toks(s[0].0)) + value_toks(s[0].1),
        ) + members_toks(s.subrange(1, s.len() as int))
    }
}

/// The names of the elements.
proof fn lemma_names()
    ensures
        is_name("value"@),
        is_name("int"@),
        is_name("boolean"@),
        is_name("string"@),
        is_name("double"@),
        is_name("array"@),
        is_name("data"@),
        is_name("struct"@),
        is_name("member"@),
        is_name("name"@),
        is_name("param"@),
        is_name("params"@),
        is_name("fault"@),
        is_name("methodName"@),
        is_name("methodCall"@),
        is_name("methodResponse"@),
{
    reveal_strlit("value");
    reveal_strlit("int");
    reveal_strlit("boolean");
    reveal_strlit("string");
    reveal_strlit("double");
    reveal_strlit("array");
    reveal_strlit("data");
    reveal_strlit("struct");
    reveal_strlit("member");
    reveal_strlit("name");
    reveal_strlit("param");
    reveal_strlit("params");
    reveal_strlit("fault");
    reveal_strlit("methodName");
    reveal_strlit("methodCall");
    reveal_strlit("methodResponse");
}

/// A text without markup, in an element, is the element's one text token.
proof fn lemma_plain_element(name: Seq<char>, t: Seq<char>, rest: Seq<char>)
    requires
        is_name(name),
        t.len() > 0,
        forall|i: int| 0 <= i < t.len() ==> #[trigger] t[i] != '<' && t[i] != '&',
    ensures
        xmlrpc::tokens(xmlrpc::element(name, t) + rest) == element_toks(name, text_toks(t))
            + xmlrpc::tokens(rest),
{
    let tail = xmlrpc::close_tag(name) + rest;
    lemma_tag_starts(name, rest);
    lemma_unescape_plain(t);
    lemma_tokens_text(t, tail);
    lemma_tokens_element(name, t, text_toks(t), rest);
}

/// An escaped text in an element is the text's token.
proof fn lemma_escaped_element(name: Seq<char>, t: Seq<char>, rest: Seq<char>)
    requires
        is_name(name),
    ensures
        xmlrpc::tokens(xmlrpc::element(name, xmlrpc::escaped(t)) + rest) == element_toks(
            name,
            text_toks(t),
        ) + xmlrpc::tokens(rest),
{
    let tail = xmlrpc::close_tag(name) + rest;
    lemma_tag_starts(name, rest);
    lemma_tokens_escaped(t, tail);
    lemma_tokens_element(name, xmlrpc::escaped(t), text_toks(t), rest);
}

/// The decimal text of an integer holds digits and a sign.
proof fn lemma_int_text_chars(n: int)
    ensures
        number::int_text(n).len() > 0,
        forall|i: int|
            0 <= i < number::int_text(n).len() ==> ('0' <= #[trigger] number::int_text(n)[i]
                <= '9') || number::int_text(n)[i] == '-',
{
    if n < 0 {
        let d = number::nat_text((-n) as nat);
        number::lemma_nat_text_digits((-n) as nat);
        let s = seq!['-'] + d;
        assert forall|i: int| 0 <= i < s.len() implies ('0' <= #[trigger] s[i] <= '9') || s[i]
            == '-' by {
            if i > 0 {
                assert(s[i] == d[i - 1]);
            }
        }
    } else {
        number::lemma_nat_text_digits(n as nat);
    }
}

/// Lowering keeps a character that is no upper-case letter.
proof fn lemma_lowered_char(s: Seq<char>, i: int)
    requires
        0 <= i < s.len(),
    ensures
        text::lowered(s)[i] == s[i] || ('A' <= s[i] <= 'Z'),
{
}

/// Whether a character can stand in the text of a floating-point number.
spec fn double_char(c: char) -> bool {
    ('a' <= c <= 'z') || ('A' <= c <= 'Z') || ('0' <= c <= '9') || c == '+' || c == '-' || c == '.'
}

/// The text of a floating-point number is made of letters, digits, signs and points.
proof fn lemma_double_chars(s: Seq<char>)
    requires
        xmlrpc::is_double(s),
    ensures
        s.len() > 0,
        forall|i: int| 0 <= i < s.len() ==> double_char(#[trigger] s[i]),
{
    let w = xmlrpc::without_sign(s);
    let t = text::lowered(w);
    reveal_strlit("inf");
    reveal_strlit("infinity");
    reveal_strlit("nan");
    assert(t.len() == w.len());
    let e = text::first_index(t, 'e');
    text::lemma_first_index(t, 'e');
    assert(t.len() > 0 && forall|i: int| 0 <= i < t.len() ==> double_char(#[trigger] t[i])) by {
        if t == "inf"@ || t == "infinity"@ || t == "nan"@ {
        } else {
            let m = t.take(e);
            let d = text::first_index(m, '.');
            text::lemma_first_index(m, '.');
            assert forall|i: int| 0 <= i < t.len() implies double_char(#[trigger] t[i]) by {
                if i < e {
                    assert(m[i] == t[i]);
                    if d == m.len() {
                    } else if i < d {
                        assert(m.take(d)[i] == m[i]);
                    } else if i > d {
                        assert(m.skip(d + 1)[i - d - 1] == m[i]);
                    }
                } else if i > e {
                    let y = t.skip(e + 1);
                    let x = xmlrpc::without_sign(y);
                    assert(y[i - e - 1] == t[i]);
                    if x == y {
                        assert(x[i - e - 1] == t[i]);
                    } else if i > e + 1 {
                        assert(x[i - e - 2] == y[i - e - 1]);
                    }
                }
            }
        }
    }
    assert forall|i: int| 0 <= i < s.len() implies double_char(#[trigger] s[i]) by {
        if w == s {
            lemma_lowered_char(w, i);
            assert(double_char(t[i]));
        } else if i > 0 {
            assert(w[i - 1] == s[i]);
            lemma_lowered_char(w, i - 1);
            assert(double_char(t[i - 1]));
        }
    }
}

/// The tokens of a rendered value.
proof fn lemma_tokens_value(v: ValueModel, rest: Seq<char>)
    requires
        sound(v),
    ensures
        xmlrpc::tokens(xmlrpc::value_text(v) + rest) == value_toks(v) + xmlrpc::tokens(rest),
    decreases v,
{
    lemma_names();
    let tail = xmlrpc::close_tag("value"@) + rest;
    lemma_tag_starts("value"@, rest);
    match v {
        ValueModel::Int(i) => {
            lemma_int_text_chars(i);
            lemma_plain_element("int"@, number::int_text(i), tail);
            lemma_tokens_element(
                "value"@,
                xmlrpc::element("int"@, number::int_text(i)),
                element_toks("int"@, text_toks(number::int_text(i))),
                rest,
            );
        },
        ValueModel::Bool(b) => {
            let t = seq![if b { '1' } else { '0' }];
            lemma_plain_element("boolean"@, t, tail);
            lemma_tokens_element(
                "value"@,
                xmlrpc::element("boolean"@, t),
                element_toks("boolean"@, text_toks(t)),
                rest,
            );
        },
        ValueModel::Str(s) => {
            lemma_escaped_element("string"@, s, tail);
            lemma_tokens_element(
                "value"@,
                xmlrpc::element("string"@, xmlrpc::escaped(s)),
                element_toks("string"@, text_toks(s)),
                rest,
            );
        },
        ValueModel::Double(s) => {
            lemma_double_chars(s);
            lemma_plain_element("double"@, s, tail);
            lemma_tokens_element(
                "value"@,
                xmlrpc::element("double"@, s),
                element_toks("double"@, text_toks(s)),
                rest,
            );
        },
        ValueModel::Array(items) => {
            let array_tail = xmlrpc::close_tag("array"@) + tail;
            let data_tail = xmlrpc::close_tag("data"@) + array_tail;
            let body = xmlrpc::values_text(items);
            lemma_tokens_values(items, data_tail);
            lemma_tokens_element("data"@, body, values_toks(items), array_tail);
            let data = xmlrpc::element("data"@, body);
            let data_toks = element_toks("data"@, values_toks(items));
            lemma_tokens_element("array"@, data, data_toks, tail);
            lemma_tokens_element(
                "value"@,
                xmlrpc::element("array"@, data),
                element_toks("array"@, data_toks),
                rest,
            );
        },
        ValueModel::Struct(members) => {
            let struct_tail = xmlrpc::close_tag("struct"@) + tail;
            let body = xmlrpc::members_text(members);
            lemma_tokens_members(members, struct_tail);
            lemma_tokens_element("struct"@, body, members_toks(members), tail);
            lemma_tokens_element(
                "value"@,
                xmlrpc::element("struct"@, body),
                element_toks("struct"@, members_toks(members)),
                rest,
            );
        },
    }
}

proof fn lemma_tokens_values(s: Seq<ValueModel>, rest: Seq<char>)
    requires
        all_sound(s),
    ensures
        xmlrpc::tokens(xmlrpc::values_text(s) + rest) == values_toks(s) + xmlrpc::tokens(rest),
    decreases s,
{
    if s.len() == 0 {
        assert(xmlrpc::values_text(s) + rest =~= rest);
        assert(values_toks(s) + xmlrpc::tokens(rest) =~= xmlrpc::tokens(rest));
    } else {
        let t = s.subrange(1, s.len() as int);
        let more = xmlrpc::values_text(t) + rest;
        lemma_tokens_value(s[0], more);
        lemma_tokens_values(t, rest);
        assert(xmlrpc::values_text(s) + rest =~= xmlrpc::value_text(s[0]) + more);
        assert(value_toks(s[0]) + (values_toks(t) + xmlrpc::tokens(rest)) =~= values_toks(s)
            + xmlrpc::tokens(rest));
    }
}

proof fn lemma_tokens_members(s: Seq<(Seq<char>, ValueModel)>, rest: Seq<char>)
    requires
        members_sound(s),
    ensures
        xmlrpc::tokens(xmlrpc::members_text(s) + rest) == members_toks(s) + xmlrpc::tokens(rest),
    decreases s,
{
    if s.len() == 0 {
        assert(xmlrpc::members_text(s) + rest =~= rest);
        assert(members_toks(s) + xmlrpc::tokens(rest) =~= xmlrpc::tokens(rest));
    } else {
        lemma_names();
        let t = s.subrange(1, s.len() as int);
        let more = xmlrpc::members_text(t) + rest;
        let member_tail = xmlrpc::close_tag("member"@) + more;
        let name = xmlrpc::element("name"@, xmlrpc::escaped(s[0].0));
        let name_toks = element_toks("name"@, text_toks(s[0].0));
        let value = xmlrpc::value_text(s[0].1);
        lemma_tokens_value(s[0].1, member_tail);
        lemma_escaped_element("name"@, s[0].0, value + member_tail);
        let body = name + value;
        let body_toks = name_toks + value_toks(s[0].1);
        assert(body + member_tail =~= name + (value + member_tail));
        assert(name_toks + (value_toks(s[0].1) + xmlrpc::tokens(member_tail)) =~= body_toks
            + xmlrpc::tokens(member_tail));
        lemma_tokens_element("member"@, body, body_toks, more);
        lemma_tokens_members(t, rest);
        let member = xmlrpc::element("member"@, body);
        let member_toks = element_toks("member"@, body_toks);
        assert(xmlrpc::members_text(s) + rest =~= member + more);
        assert(member_toks + (members_toks(t) + xmlrpc::tokens(rest)) =~= members_toks(s)
            + xmlrpc::tokens(rest));
    }
}

// ---------------------------------------------------------------------------
// Parsing the tokens of a rendered value
// ---------------------------------------------------------------------------

/// Whether `part` stands in `toks` at position `pos`.
pub open spec fn holds(toks: Seq<TokModel>, pos: int, part: Seq<TokModel>) -> bool {
    &&& 0 <= pos
    &&& pos + part.len() <= toks.len()
    &&& forall|i: int| 0 <= i < part.len() ==> #[trigger] part[i] == toks[pos + i]
}

/// What holds two parts in a row holds each.
proof fn lemma_holds_split(toks: Seq<TokModel>, pos: int, a: Seq<TokModel>, b: Seq<TokModel>)
    requires
        holds(toks, pos, a + b),
    ensures
        holds(toks, pos, a),
        holds(toks, pos + a.len(), b),
{
    let c = a + b;
    assert forall|i: int| 0 <= i < a.len() implies #[trigger] a[i] == toks[pos + i] by {
        assert(c[i] == a[i]);
    }
    assert forall|i: int| 0 <= i < b.len() implies #[trigger] b[i] == toks[pos + a.len() + i] by {
        assert(c[a.len() + i] == b[i]);
    }
}

/// The parts of an element: its opening tag, its content, its closing tag.
proof fn lemma_holds_element(
    toks: Seq<TokModel>,
    pos: int,
    name: Seq<char>,
    inner: Seq<TokModel>,
)
    requires
        holds(toks, pos, element_toks(name, inner)),
    ensures
        element_toks(name, inner).len() == inner.len() + 2,
        toks[pos] == TokModel::Open(name),
        xmlrpc::skip_blank(toks, pos) == pos,
        xmlrpc::after_open(toks, pos, name) == Ok::<int, Seq<char>>(pos + 1),
        holds(toks, pos + 1, inner),
        toks[pos + 1 + inner.len()] == TokModel::Close(name),
        xmlrpc::skip_blank(toks, pos + 1 + inner.len()) == pos + 1 + inner.len(),
        xmlrpc::after_close(toks, pos + 1 + inner.len(), name) == Ok::<int, Seq<char>>(
            pos + 2 + inner.len(),
        ),
{
    let head = seq![TokModel::Open(name)];
    let tail = seq![TokModel::Close(name)];
    lemma_holds_split(toks, pos, head + inner, tail);
    lemma_holds_split(toks, pos, head, inner);
    assert(head[0] == toks[pos]);
    assert(tail[0] == toks[pos + (head + inner).len()]);
    assert((head + inner).len() == 1 + inner.len());
}

/// Reading the text between an element's tags.
proof fn lemma_read_text(toks: Seq<TokModel>, pos: int, name: Seq<char>, t: Seq<char>)
    requires
        holds(toks, pos, element_toks(name, text_toks(t))),
    ensures
        xmlrpc::text_at(toks, pos + 1) == t,
        xmlrpc::after_text(toks, pos + 1) == pos + 1 + text_toks(t).len(),
        xmlrpc::simple_element(toks, pos, name) == Ok::<(Seq<char>, int), Seq<char>>(
            (t, pos + 2 + text_toks(t).len()),
        ),
{
    lemma_holds_element(toks, pos, name, text_toks(t));
    if t.len() > 0 {
        assert(text_toks(t)[0] == toks[pos + 1]);
    } else {
        assert(t =~= Seq::<char>::empty());
    }
}

/// The names of the parts of a value are what the parser tells apart.
proof fn lemma_kinds()
    ensures
        "int"@ != "boolean"@,
        "string"@ != "int"@,
        "string"@ != "i4"@,
        "string"@ != "i8"@,
        "string"@ != "boolean"@,
        "string"@ != "double"@,
        "string"@ != "base64"@,
        "double"@ != "int"@,
        "double"@ != "i4"@,
        "double"@ != "i8"@,
        "double"@ != "boolean"@,
        "boolean"@ != "i4"@,
        "boolean"@ != "i8"@,
        "array"@ != "struct"@,
        !xmlrpc::is_simple("array"@),
        !xmlrpc::is_simple("struct"@),
{
    xmlrpc::lemma_simple_names();
    reveal_strlit("int");
    reveal_strlit("i4");
    reveal_strlit("i8");
    reveal_strlit("boolean");
    reveal_strlit("double");
    reveal_strlit("string");
    reveal_strlit("base64");
    reveal_strlit("array");
    reveal_strlit("struct");
    assert("string"@[0] == 's');
    assert("base64"@[0] == 'b');
    assert("double"@[0] == 'd');
    assert("int"@.len() == 3);
    assert("boolean"@.len() == 7);
    assert("array"@.len() == 5);
}

/// A simple value's content, read back.
proof fn lemma_simple_content(toks: Seq<TokModel>, pos: int, name: Seq<char>, t: Seq<char>)
    requires
        holds(toks, pos, element_toks(name, text_toks(t))),
        xmlrpc::is_simple(name),
    ensures
        xmlrpc::content_at(toks, pos) == (match xmlrpc::simple_value(name, t) {
            Ok(v) => Ok::<(ValueModel, int), Seq<char>>(
                (v, pos + element_toks(name, text_toks(t)).len()),
            ),
            Err(e) => Err::<(ValueModel, int), Seq<char>>(e),
        }),
{
    lemma_holds_element(toks, pos, name, text_toks(t));
    lemma_read_text(toks, pos, name, t);
}

/// Reading an integer's text gives the integer.
proof fn lemma_read_int(i: int)
    requires
        i64::MIN <= i <= i64::MAX,
    ensures
        xmlrpc::simple_value("int"@, number::int_text(i)) == Ok::<ValueModel, Seq<char>>(
            ValueModel::Int(i),
        ),
{
    let t = number::int_text(i);
    lemma_int_text_chars(i);
    assert(!text::is_white(t[0]));
    assert(!text::is_white(t[t.len() - 1]));
    lemma_trimmed_same(t);
    number::law_signed_round_trip(i);
}

/// Parsing the tokens of a value gives the value.
proof fn lemma_parse_value(toks: Seq<TokModel>, pos: int, v: ValueModel)
    requires
        sound(v),
        holds(toks, pos, value_toks(v)),
    ensures
        xmlrpc::value_at(toks, pos) == Ok::<(ValueModel, int), Seq<char>>(
            (v, pos + value_toks(v).len()),
        ),
    decreases v,
{
    lemma_kinds();
    reveal_strlit("1");
    match v {
        ValueModel::Int(i) => {
            let t = number::int_text(i);
            let inner = element_toks("int"@, text_toks(t));
            lemma_holds_element(toks, pos, "value"@, inner);
            lemma_simple_content(toks, pos + 1, "int"@, t);
            lemma_read_int(i);
        },
        ValueModel::Bool(b) => {
            let t = seq![if b { '1' } else { '0' }];
            let inner = element_toks("boolean"@, text_toks(t));
            lemma_holds_element(toks, pos, "value"@, inner);
            lemma_simple_content(toks, pos + 1, "boolean"@, t);
            lemma_trimmed_same(t);
            assert("1"@[0] == '1');
            if b {
                assert(t =~= "1"@);
            } else {
                assert(t[0] == '0');
            }
        },
        ValueModel::Str(s) => {
            let inner = element_toks("string"@, text_toks(s));
            lemma_holds_element(toks, pos, "value"@, inner);
            lemma_simple_content(toks, pos + 1, "string"@, s);
        },
        ValueModel::Double(s) => {
            let inner = element_toks("double"@, text_toks(s));
            lemma_holds_element(toks, pos, "value"@, inner);
            lemma_simple_content(toks, pos + 1, "double"@, s);
            lemma_double_chars(s);
            assert(double_char(s[0]));
            assert(double_char(s[s.len() - 1]));
            lemma_trimmed_same(s);
        },
        ValueModel::Array(items) => {
            let list = values_toks(items);
            let data = element_toks("data"@, list);
            let inner = element_toks("array"@, data);
            lemma_holds_element(toks, pos, "value"@, inner);
            lemma_holds_element(toks, pos + 1, "array"@, data);
            lemma_holds_element(toks, pos + 2, "data"@, list);
            lemma_parse_items(toks, pos + 3, items);
        },
        ValueModel::Struct(members) => {
            let list = members_toks(members);
            let inner = element_toks("struct"@, list);
            lemma_holds_element(toks, pos, "value"@, inner);
            lemma_holds_element(toks, pos + 1, "struct"@, list);
            lemma_parse_members(toks, pos + 2, members);
        },
    }
}

proof fn lemma_parse_items(toks: Seq<TokModel>, pos: int, s: Seq<ValueModel>)
    requires
        all_sound(s),
        holds(toks, pos, values_toks(s)),
        pos + values_toks(s).len() < toks.len(),
        toks[pos + values_toks(s).len()] is Close,
    ensures
        xmlrpc::items_at(toks, pos) == Ok::<(Seq<ValueModel>, int), Seq<char>>(
            (s, pos + values_toks(s).len()),
        ),
    decreases s,
{
    if s.len() == 0 {
        assert(s =~= Seq::<ValueModel>::empty());
    } else {
        let t = s.subrange(1, s.len() as int);
        let first = value_toks(s[0]);
        lemma_holds_split(toks, pos, first, values_toks(t));
        lemma_parse_value(toks, pos, s[0]);
        lemma_parse_items(toks, pos + first.len(), t);
        assert(first.len() >= 1 && first[0] == TokModel::Open("value"@));
        assert(first[0] == toks[pos]);
        assert(seq![s[0]] + t =~= s);
    }
}

proof fn lemma_parse_members(toks: Seq<TokModel>, pos: int, s: Seq<(Seq<char>, ValueModel)>)
    requires
        members_sound(s),
        holds(toks, pos, members_toks(s)),
        pos + members_toks(s).len() < toks.len(),
        toks[pos + members_toks(s).len()] is Close,
    ensures
        xmlrpc::members_at(toks, pos) == Ok::<(Seq<(Seq<char>, ValueModel)>, int), Seq<char>>(
            (s, pos + members_toks(s).len()),
        ),
    decreases s,
{
    if s.len() == 0 {
        assert(s =~= Seq::<(Seq<char>, ValueModel)>::empty());
    } else {
        let t = s.subrange(1, s.len() as int);
        let name = element_toks("name"@, text_toks(s[0].0));
        let value = value_toks(s[0].1);
        let first = element_toks("member"@, name + value);
        lemma_holds_split(toks, pos, first, members_toks(t));
        lemma_holds_element(toks, pos, "member"@, name + value);
        lemma_holds_split(toks, pos + 1, name, value);
        lemma_holds_element(toks, pos + 1, "name"@, text_toks(s[0].0));
        lemma_read_text(toks, pos + 1, "name"@, s[0].0);
        lemma_parse_value(toks, pos + 1 + name.len(), s[0].1);
        lemma_parse_members(toks, pos + first.len(), t);
        assert(seq![(s[0].0, s[0].1)] + t =~= s);
    }
}

// ---------------------------------------------------------------------------
// Documents
// ---------------------------------------------------------------------------

/// The line break around the root element.
spec fn line_break() -> Seq<TokModel> {
    seq![TokModel::Text(seq!['\n'])]
}

/// A document's tokens are those of its root element between two line breaks.
proof fn lemma_tokens_document(root: Seq<char>, toks: Seq<TokModel>)
    requires
        root.len() > 0,
        root[0] == '<',
        xmlrpc::tokens(root + seq!['\n']) == toks + xmlrpc::tokens(seq!['\n']),
    ensures
        xmlrpc::tokens(xmlrpc::document(root)) == line_break() + (toks + line_break()),
{
    let head = "<?xml version=\"1.0\"?>\n"@;
    reveal_strlit("<?xml version=\"1.0\"?>\n");
    reveal_strlit("\n");
    reveal_strlit("<?");
    reveal_strlit("?>");
    let lf = seq!['\n'];
    assert("\n"@ =~= lf);
    let s = xmlrpc::document(root);
    assert(head.len() == 22);
    assert(s.take(2) =~= "<?"@);
    assert(text::first_occurrence(s, "?>"@) == Some(19int)) by {
        text::lemma_occurrence_from(s, "?>"@, 0);
        assert(s.subrange(19, 21) =~= "?>"@);
        assert(text::occurs_at(s, "?>"@, 19));
        assert forall|j: int| 0 <= j < 19 implies !text::occurs_at(s, "?>"@, j) by {
            assert(s.subrange(j, j + 2)[0] == head[j]);
            assert(s.subrange(j, j + 2)[1] == head[j + 1]);
            assert("?>"@[0] == '?');
            assert("?>"@[1] == '>');
            assert(head[1] == '?' && head[2] == 'x');
            assert(forall|k: int| 2 <= k < 19 ==> #[trigger] head[k] != '?');
        }
    }
    assert(s.skip(21) =~= lf + (root + lf));
    lemma_unescape_plain(lf);
    assert((root + lf)[0] == '<');
    lemma_tokens_text(lf, root + lf);
    lemma_tokens_text(lf, Seq::<char>::empty());
    assert(lf + Seq::<char>::empty() =~= lf);
    assert(xmlrpc::tokens(lf) =~= line_break());
}

/// The line break before the root element is skipped.
proof fn lemma_root(toks: Seq<TokModel>, name: Seq<char>, inner: Seq<TokModel>)
    requires
        toks == line_break() + (element_toks(name, inner) + line_break()),
    ensures
        holds(toks, 1, element_toks(name, inner)),
        xmlrpc::after_open(toks, 0, name) == Ok::<int, Seq<char>>(2),
{
    let root = element_toks(name, inner);
    assert forall|i: int| 0 <= i < root.len() implies #[trigger] root[i] == toks[1 + i] by {}
    lemma_holds_element(toks, 1, name, inner);
    let lf = seq!['\n'];
    assert(toks[0] == TokModel::Text(lf));
    assert(text::is_white('\n'));
    assert(lf.skip(1) =~= Seq::<char>::empty());
    assert(text::trimmed_start(lf) == text::trimmed_start(lf.skip(1)));
    assert(text::trimmed(lf).len() == 0);
    assert(xmlrpc::skip_blank(toks, 0) == xmlrpc::skip_blank(toks, 1));
}

/// What tells the two forms of a response, and the parts of a fault, apart.
proof fn lemma_response_names()
    ensures
        "params"@ != "fault"@,
        "faultCode"@ != "faultString"@,
{
    reveal_strlit("params");
    reveal_strlit("fault");
    reveal_strlit("faultCode");
    reveal_strlit("faultString");
    assert("params"@.len() == 6);
    assert("faultCode"@.len() == 9);
}

/// The tokens of a rendered response.
proof fn lemma_response_tokens(v: ValueModel)
    requires
        sound(v),
    ensures
        xmlrpc::tokens(xmlrpc::response_text(v)) == line_break() + (element_toks(
            "methodResponse"@,
            element_toks("params"@, element_toks("param"@, value_toks(v))),
        ) + line_break()),
{
    lemma_names();
    let lf = seq!['\n'];
    let value = xmlrpc::value_text(v);
    let param = xmlrpc::element("param"@, value);
    let params = xmlrpc::element("params"@, param);
    let root = xmlrpc::element("methodResponse"@, params);
    let root_tail = xmlrpc::close_tag("methodResponse"@) + lf;
    let params_tail = xmlrpc::close_tag("params"@) + root_tail;
    let param_tail = xmlrpc::close_tag("param"@) + params_tail;
    let param_toks = element_toks("param"@, value_toks(v));
    let params_toks = element_toks("params"@, param_toks);
    lemma_tokens_value(v, param_tail);
    lemma_tokens_element("param"@, value, value_toks(v), params_tail);
    lemma_tokens_element("params"@, param, param_toks, root_tail);
    lemma_tokens_element("methodResponse"@, params, params_toks, lf);
    lemma_tag_starts("methodResponse"@, params + xmlrpc::close_tag("methodResponse"@));
    assert(root =~= xmlrpc::open_tag("methodResponse"@) + (params + xmlrpc::close_tag(
        "methodResponse"@,
    )));
    lemma_tokens_document(root, element_toks("methodResponse"@, params_toks));
}

/// The value inside a rendered response is read back.
proof fn lemma_response_value(v: ValueModel)
    requires
        sound(v),
    ensures
        ({
            let toks = xmlrpc::tokens(xmlrpc::response_text(v));
            &&& xmlrpc::after_open(toks, 0, "methodResponse"@) == Ok::<int, Seq<char>>(2)
            &&& xmlrpc::skip_blank(toks, 2) == 2
            &&& xmlrpc::token_at(toks, 2) == Some(TokModel::Open("params"@))
            &&& xmlrpc::after_open(toks, 3, "param"@) == Ok::<int, Seq<char>>(4)
            &&& xmlrpc::value_at(toks, 4) == Ok::<(ValueModel, int), Seq<char>>(
                (v, 4int + value_toks(v).len()),
            )
        }),
{
    lemma_response_tokens(v);
    let toks = xmlrpc::tokens(xmlrpc::response_text(v));
    let param_toks = element_toks("param"@, value_toks(v));
    let params_toks = element_toks("params"@, param_toks);
    lemma_root(toks, "methodResponse"@, params_toks);
    lemma_holds_element(toks, 1, "methodResponse"@, params_toks);
    lemma_holds_element(toks, 2, "params"@, param_toks);
    lemma_holds_element(toks, 3, "param"@, value_toks(v));
    lemma_parse_value(toks, 4, v);
}

/// Parsing a rendered response gives the value back.
pub proof fn law_response_round_trip(v: ValueModel)
    requires
        sound(v),
    ensures
        xmlrpc::response_in(xmlrpc::response_text(v)) == ResponseModel::Value(v),
{
    lemma_response_value(v);
    lemma_response_names();
}

/// The value inside a rendered fault is read back.
#[verifier::spinoff_prover]
#[verifier::rlimit(50)]
proof fn lemma_fault_value(v: ValueModel)
    requires
        sound(v),
    ensures
        ({
            let toks = xmlrpc::tokens(
                xmlrpc::document(
                    xmlrpc::element(
                        "methodResponse"@,
                        xmlrpc::element("fault"@, xmlrpc::value_text(v)),
                    ),
                ),
            );
            &&& xmlrpc::after_open(toks, 0, "methodResponse"@) == Ok::<int, Seq<char>>(2)
            &&& xmlrpc::skip_blank(toks, 2) == 2
            &&& xmlrpc::token_at(toks, 2) == Some(TokModel::Open("fault"@))
            &&& xmlrpc::value_at(toks, 3) == Ok::<(ValueModel, int), Seq<char>>(
                (v, 3int + value_toks(v).len()),
            )
        }),
{
    lemma_names();
    let lf = seq!['\n'];
    let value = xmlrpc::value_text(v);
    let fault = xmlrpc::element("fault"@, value);
    let root = xmlrpc::element("methodResponse"@, fault);
    let root_tail = xmlrpc::close_tag("methodResponse"@) + lf;
    let fault_tail = xmlrpc::close_tag("fault"@) + root_tail;
    let fault_toks = element_toks("fault"@, value_toks(v));
    lemma_tokens_value(v, fault_tail);
    lemma_tokens_element("fault"@, value, value_toks(v), root_tail);
    lemma_tokens_element("methodResponse"@, fault, fault_toks, lf);
    lemma_tag_starts("methodResponse"@, fault + xmlrpc::close_tag("methodResponse"@));
    assert(root =~= xmlrpc::open_tag("methodResponse"@) + (fault + xmlrpc::close_tag(
        "methodResponse"@,
    )));
    lemma_tokens_document(root, element_toks("methodResponse"@, fault_toks));
    let toks = xmlrpc::tokens(xmlrpc::document(root));
    lemma_root(toks, "methodResponse"@, fault_toks);
    lemma_holds_element(toks, 1, "methodResponse"@, fault_toks);
    lemma_holds_element(toks, 2, "fault"@, value_toks(v));
    lemma_parse_value(toks, 3, v);
}

/// Parsing a rendered fault gives its code and message back.
pub proof fn law_fault_round_trip(code: i32, message: Seq<char>)
    ensures
        xmlrpc::response_in(xmlrpc::fault_document(code as int, message)) == ResponseModel::Fault(
            code,
            message,
        ),
{
    let v = xmlrpc::fault_value(code as int, message);
    let members = v->Struct_0;
    assert(sound(v)) by {
        let t = members.subrange(1, 2);
        assert(t[0] == members[1]);
        assert(t.subrange(1, 1).len() == 0);
        assert(sound(members[0].1));
        assert(sound(members[1].1));
        assert(members_sound(t.subrange(1, 1)));
        assert(members_sound(t));
    }
    lemma_fault_value(v);
    lemma_response_names();
    let rest = members.skip(1);
    assert(rest[0] == members[1]);
    assert(xmlrpc::member_value(members, "faultString"@) == xmlrpc::member_value(
        rest,
        "faultString"@,
    ));
}

proof fn lemma_tokens_params(s: Seq<ValueModel>, rest: Seq<char>)
    requires
        forall|i: int| 0 <= i < s.len() ==> sound(#[trigger] s[i]),
    ensures
        xmlrpc::tokens(xmlrpc::params_text(s) + rest) == params_toks(s) + xmlrpc::tokens(rest),
    decreases s.len(),
{
    if s.len() == 0 {
        assert(xmlrpc::params_text(s) + rest =~= rest);
        assert(params_toks(s) + xmlrpc::tokens(rest) =~= xmlrpc::tokens(rest));
    } else {
        lemma_names();
        let t = s.skip(1);
        assert forall|i: int| 0 <= i < t.len() implies sound(#[trigger] t[i]) by {
            assert(t[i] == s[i + 1]);
        }
        let more = xmlrpc::params_text(t) + rest;
        lemma_tokens_value(s[0], xmlrpc::close_tag("param"@) + more);
        lemma_tokens_element("param"@, xmlrpc::value_text(s[0]), value_toks(s[0]), more);
        lemma_tokens_params(t, rest);
        let param = xmlrpc::element("param"@, xmlrpc::value_text(s[0]));
        let param_toks = element_toks("param"@, value_toks(s[0]));
        assert(xmlrpc::params_text(s) + rest =~= param + more);
        assert(param_toks + (params_toks(t) + xmlrpc::tokens(rest)) =~= params_toks(s)
            + xmlrpc::tokens(rest));
    }
}

/// The tokens of a list of parameters.
pub open spec fn params_toks(s: Seq<ValueModel>) -> Seq<TokModel>
    decreases s.len(),
{
    if s.len() == 0 {
        Seq::empty()
    } else {
        element_toks("param"@, value_toks(s[0])) + params_toks(s.skip(1))
    }
}

proof fn lemma_parse_params(toks: Seq<TokModel>, pos: int, s: Seq<ValueModel>)
    requires
        forall|i: int| 0 <= i < s.len() ==> sound(#[trigger] s[i]),
        holds(toks, pos, params_toks(s)),
        pos + params_toks(s).len() < toks.len(),
        toks[pos + params_toks(s).len()] is Close,
    ensures
        xmlrpc::params_at(toks, pos) == Ok::<(Seq<ValueModel>, int), Seq<char>>(
            (s, pos + params_toks(s).len()),
        ),
    decreases s.len(),
{
    if s.len() == 0 {
        assert(s =~= Seq::<ValueModel>::empty());
    } else {
        let t = s.skip(1);
        assert forall|i: int| 0 <= i < t.len() implies sound(#[trigger] t[i]) by {
            assert(t[i] == s[i + 1]);
        }
        let first = element_toks("param"@, value_toks(s[0]));
        lemma_holds_split(toks, pos, first, params_toks(t));
        lemma_holds_element(toks, pos, "param"@, value_toks(s[0]));
        lemma_parse_value(toks, pos + 1, s[0]);
        lemma_parse_params(toks, pos + first.len(), t);
        assert(seq![s[0]] + t =~= s);
    }
}

/// The tokens of a rendered method call.
proof fn lemma_tokens_call(method: Seq<char>, params: Seq<ValueModel>)
    requires
        forall|i: int| 0 <= i < params.len() ==> sound(#[trigger] params[i]),
    ensures
        xmlrpc::tokens(xmlrpc::call_text(method, params)) == line_break() + (element_toks(
            "methodCall"@,
            element_toks("methodName"@, text_toks(method)) + element_toks(
                "params"@,
                params_toks(params),
            ),
        ) + line_break()),
{
    lemma_names();
    let lf = seq!['\n'];
    let name = xmlrpc::element("methodName"@, xmlrpc::escaped(method));
    let list = xmlrpc::element("params"@, xmlrpc::params_text(params));
    let root = xmlrpc::element("methodCall"@, name + list);
    let root_tail = xmlrpc::close_tag("methodCall"@) + lf;
    let name_toks = element_toks("methodName"@, text_toks(method));
    let list_toks = element_toks("params"@, params_toks(params));
    lemma_tokens_params(params, xmlrpc::close_tag("params"@) + root_tail);
    lemma_tokens_element("params"@, xmlrpc::params_text(params), params_toks(params), root_tail);
    lemma_escaped_element("methodName"@, method, list + root_tail);
    assert((name + list) + root_tail =~= name + (list + root_tail));
    assert(name_toks + (list_toks + xmlrpc::tokens(root_tail)) =~= (name_toks + list_toks)
        + xmlrpc::tokens(root_tail));
    lemma_tokens_element("methodCall"@, name + list, name_toks + list_toks, lf);
    lemma_tag_starts("methodCall"@, (name + list) + xmlrpc::close_tag("methodCall"@));
    assert(root =~= xmlrpc::open_tag("methodCall"@) + ((name + list) + xmlrpc::close_tag(
        "methodCall"@,
    )));
    lemma_tokens_document(root, element_toks("methodCall"@, name_toks + list_toks));
}

/// Parsing a rendered method call gives the method name, without white space
/// around it, and the parameters back.
#[verifier::spinoff_prover]
#[verifier::rlimit(50)]
pub proof fn law_call_round_trip(method: Seq<char>, params: Seq<ValueModel>)
    requires
        forall|i: int| 0 <= i < params.len() ==> sound(#[trigger] params[i]),
    ensures
        xmlrpc::call_of(xmlrpc::call_text(method, params)) == Ok::<
            (Seq<char>, Seq<ValueModel>),
            Seq<char>,
        >((text::trimmed(method), params)),
{
    let name_toks = element_toks("methodName"@, text_toks(method));
    let list_toks = element_toks("params"@, params_toks(params));
    lemma_tokens_call(method, params);
    let toks = xmlrpc::tokens(xmlrpc::call_text(method, params));
    lemma_root(toks, "methodCall"@, name_toks + list_toks);
    lemma_holds_element(toks, 1, "methodCall"@, name_toks + list_toks);
    lemma_holds_split(toks, 2, name_toks, list_toks);
    lemma_holds_element(toks, 2, "methodName"@, text_toks(method));
    lemma_read_text(toks, 2, "methodName"@, method);
    lemma_holds_element(toks, 2int + name_toks.len(), "params"@, params_toks(params));
    lemma_parse_params(toks, 3int + name_toks.len(), params);
}

/// A text that was put into base64 is read as that text.
pub proof fn law_base64_value(s: Seq<char>)
    ensures
        xmlrpc::simple_value(
            "base64"@,
            base64::digits_text(base64::encoded(utf8::encode_utf8(s))),
        ) == Ok::<ValueModel, Seq<char>>(ValueModel::Str(s)),
{
    reveal_strlit("int");
    reveal_strlit("i4");
    reveal_strlit("i8");
    reveal_strlit("boolean");
    reveal_strlit("double");
    reveal_strlit("base64");
    assert("base64"@.len() == 6);
    assert("base64"@[0] == 'b');
    assert("double"@[0] == 'd');
    assert("boolean"@.len() == 7);
    let raw = utf8::encode_utf8(s);
    base64::lemma_digits_text(raw);
    base64::law_base64_round_trip(raw);
    utf8::encode_utf8_valid_utf8(s);
    utf8::encode_utf8_decode_utf8(s);
}

/// How simple values are read: numbers in decimal under any of their names,
/// one for true, texts as they are.
pub proof fn law_simple_values(n: int, t: Seq<char>)
    ensures
        ({
            let number = |name: Seq<char>|
                xmlrpc::simple_value(name, number::int_text(n)) == (if i64::MIN <= n <= i64::MAX {
                    Ok::<ValueModel, Seq<char>>(ValueModel::Int(n))
                } else {
                    Err::<ValueModel, Seq<char>>("bad int"@)
                });
            &&& number("int"@) && number("i4"@) && number("i8"@)
            &&& xmlrpc::simple_value("boolean"@, t) == Ok::<ValueModel, Seq<char>>(
                ValueModel::Bool(text::trimmed(t) == "1"@),
            )
            &&& xmlrpc::simple_value("string"@, t) == Ok::<ValueModel, Seq<char>>(
                ValueModel::Str(t),
            )
            &&& xmlrpc::simple_value("double"@, t) == (if xmlrpc::is_double(text::trimmed(t)) {
                Ok::<ValueModel, Seq<char>>(ValueModel::Double(text::trimmed(t)))
            } else {
                Err::<ValueModel, Seq<char>>("bad double"@)
            })
        }),
{
    lemma_kinds();
    let s = number::int_text(n);
    let m = if n < 0 {
        (-n) as nat
    } else {
        n as nat
    };
    number::lemma_nat_text_digits(m);
    let d = number::nat_text(m);
    assert(!text::is_white(s[0]) && !text::is_white(s[s.len() - 1])) by {
        if n < 0 {
            assert(s[0] == '-');
            assert(s[s.len() - 1] == d[d.len() - 1]);
        }
        assert('0' <= d[0] <= '9');
        assert('0' <= d[d.len() - 1] <= '9');
    }
    lemma_trimmed_same(s);
    number::law_bounds(0, 0, n, i64::MIN as int, i64::MAX as int);
}

/// The kinds of values that hold nothing but text.
pub proof fn law_simple_kinds(name: Seq<char>)
    ensures
        xmlrpc::is_simple(name) <==> name == "int"@ || name == "i4"@ || name == "i8"@ || name
            == "boolean"@ || name == "double"@ || name == "string"@ || name == "base64"@,
{
}

/// What can stand in a value: a text without a type is a string, an empty
/// element for nothing an empty string, and an unknown type is refused.
pub proof fn law_contents(toks: Seq<TokModel>, pos: int, s: Seq<char>)
    requires
        0 <= pos < toks.len(),
    ensures
        toks[pos] == TokModel::Text(s) && text::trimmed(s).len() > 0 ==> xmlrpc::content_at(
            toks,
            pos,
        ) == Ok::<(ValueModel, int), Seq<char>>((ValueModel::Str(s), pos + 1)),
        toks[pos] == TokModel::SelfClose("nil"@) ==> xmlrpc::content_at(toks, pos) == Ok::<
            (ValueModel, int),
            Seq<char>,
        >((ValueModel::Str(Seq::empty()), pos + 1)),
        toks[pos] == TokModel::Open(s) && !xmlrpc::is_simple(s) && s != "array"@ && s != "struct"@
            ==> xmlrpc::content_at(toks, pos) == Err::<(ValueModel, int), Seq<char>>(
            "unsupported value type <"@ + s + ">"@,
        ),
        toks[pos] is Close ==> xmlrpc::content_at(toks, pos) == Ok::<
            (ValueModel, int),
            Seq<char>,
        >((ValueModel::Str(Seq::empty()), pos)),
        toks[pos] == TokModel::SelfClose(s) && s != "nil"@ ==> xmlrpc::content_at(toks, pos) == Ok::<
            (ValueModel, int),
            Seq<char>,
        >((ValueModel::Str(Seq::empty()), pos)),
{
    assert(!xmlrpc::is_blank(toks[pos]) ==> xmlrpc::skip_blank(toks, pos) == pos);
}

/// How values are written.
pub proof fn law_written_values(
    n: int,
    t: Seq<char>,
    v: ValueModel,
    key: Seq<char>,
)
    ensures
        xmlrpc::value_text(ValueModel::Int(n)) == "<value>"@ + ("<int>"@ + number::int_text(n)
            + "</int>"@) + "</value>"@,
        xmlrpc::value_text(ValueModel::Bool(true)) == "<value>"@ + "<boolean>1</boolean>"@
            + "</value>"@,
        xmlrpc::value_text(ValueModel::Bool(false)) == "<value>"@ + "<boolean>0</boolean>"@
            + "</value>"@,
        xmlrpc::value_text(ValueModel::Str(t)) == "<value>"@ + ("<string>"@ + xmlrpc::escaped(t)
            + "</string>"@) + "</value>"@,
        xmlrpc::value_text(ValueModel::Array(seq![v])) == "<value>"@ + ("<array>"@ + ("<data>"@
            + xmlrpc::value_text(v) + "</data>"@) + "</array>"@) + "</value>"@,
        xmlrpc::value_text(ValueModel::Struct(seq![(key, v)])) == "<value>"@ + ("<struct>"@ + (
        "<member>"@ + ("<name>"@ + xmlrpc::escaped(key) + "</name>"@ + xmlrpc::value_text(v))
            + "</member>"@) + "</struct>"@) + "</value>"@,
{
    lemma_tags();
    reveal_strlit("<boolean>1</boolean>");
    reveal_strlit("<boolean>0</boolean>");
    reveal_strlit("<boolean>");
    reveal_strlit("</boolean>");
    assert("<boolean>"@ + seq!['1'] + "</boolean>"@ =~= "<boolean>1</boolean>"@);
    assert("<boolean>"@ + seq!['0'] + "</boolean>"@ =~= "<boolean>0</boolean>"@);
    let one = seq![v];
    let none = Seq::<ValueModel>::empty();
    assert(one.subrange(1, 1) =~= none);
    assert(xmlrpc::values_text(none) =~= Seq::<char>::empty());
    assert(xmlrpc::values_text(one) =~= xmlrpc::value_text(v));
    let m = seq![(key, v)];
    let nothing = Seq::<(Seq<char>, ValueModel)>::empty();
    assert(m.subrange(1, 1) =~= nothing);
    assert(xmlrpc::members_text(nothing) =~= Seq::<char>::empty());
    assert(xmlrpc::members_text(m) =~= xmlrpc::element(
        "member"@,
        xmlrpc::element("name"@, xmlrpc::escaped(key)) + xmlrpc::value_text(v),
    ));
}

proof fn lemma_tags()
    ensures
        xmlrpc::open_tag("value"@) == "<value>"@ && xmlrpc::close_tag("value"@) == "</value>"@,
        xmlrpc::open_tag("int"@) == "<int>"@ && xmlrpc::close_tag("int"@) == "</int>"@,
        xmlrpc::open_tag("boolean"@) == "<boolean>"@ && xmlrpc::close_tag("boolean"@)
            == "</boolean>"@,
        xmlrpc::open_tag("string"@) == "<string>"@ && xmlrpc::close_tag("string"@)
            == "</string>"@,
        xmlrpc::open_tag("array"@) == "<array>"@ && xmlrpc::close_tag("array"@) == "</array>"@,
        xmlrpc::open_tag("data"@) == "<data>"@ && xmlrpc::close_tag("data"@) == "</data>"@,
        xmlrpc::open_tag("struct"@) == "<struct>"@ && xmlrpc::close_tag("struct"@)
            == "</struct>"@,
        xmlrpc::open_tag("member"@) == "<member>"@ && xmlrpc::close_tag("member"@)
            == "</member>"@,
        xmlrpc::open_tag("name"@) == "<name>"@ && xmlrpc::close_tag("name"@) == "</name>"@,
{
    reveal_strlit("value");
    reveal_strlit("<value>");
    reveal_strlit("</value>");
    reveal_strlit("int");
    reveal_strlit("<int>");
    reveal_strlit("</int>");
    reveal_strlit("boolean");
    reveal_strlit("<boolean>");
    reveal_strlit("</boolean>");
    reveal_strlit("string");
    reveal_strlit("<string>");
    reveal_strlit("</string>");
    reveal_strlit("array");
    reveal_strlit("<array>");
    reveal_strlit("</array>");
    reveal_strlit("data");
    reveal_strlit("<data>");
    reveal_strlit("</data>");
    reveal_strlit("struct");
    reveal_strlit("<struct>");
    reveal_strlit("</struct>");
    reveal_strlit("member");
    reveal_strlit("<member>");
    reveal_strlit("</member>");
    reveal_strlit("name");
    reveal_strlit("<name>");
    reveal_strlit("</name>");
    reveal_strlit("<");
    reveal_strlit("</");
    reveal_strlit(">");
    assert(xmlrpc::open_tag("value"@) =~= "<value>"@);
    assert(xmlrpc::close_tag("value"@) =~= "</value>"@);
    assert(xmlrpc::open_tag("int"@) =~= "<int>"@);
    assert(xmlrpc::close_tag("int"@) =~= "</int>"@);
    assert(xmlrpc::open_tag("boolean"@) =~= "<boolean>"@);
    assert(xmlrpc::close_tag("boolean"@) =~= "</boolean>"@);
    assert(xmlrpc::open_tag("string"@) =~= "<string>"@);
    assert(xmlrpc::close_tag("string"@) =~= "</string>"@);
    assert(xmlrpc::open_tag("array"@) =~= "<array>"@);
    assert(xmlrpc::close_tag("array"@) =~= "</array>"@);
    assert(xmlrpc::open_tag("data"@) =~= "<data>"@);
    assert(xmlrpc::close_tag("data"@) =~= "</data>"@);
    assert(xmlrpc::open_tag("struct"@) =~= "<struct>"@);
    assert(xmlrpc::close_tag("struct"@) =~= "</struct>"@);
    assert(xmlrpc::open_tag("member"@) =~= "<member>"@);
    assert(xmlrpc::close_tag("member"@) =~= "</member>"@);
    assert(xmlrpc::open_tag("name"@) =~= "<name>"@);
    assert(xmlrpc::close_tag("name"@) =~= "</name>"@);
}

/// The five entities, each read once.
pub proof fn law_entities(rest: Seq<char>)
    ensures
        xmlrpc::unescaped("&lt;"@ + rest) == seq!['<'] + xmlrpc::unescaped(rest),
        xmlrpc::unescaped("&gt;"@ + rest) == seq!['>'] + xmlrpc::unescaped(rest),
        xmlrpc::unescaped("&quot;"@ + rest) == seq!['"'] + xmlrpc::unescaped(rest),
        xmlrpc::unescaped("&apos;"@ + rest) == seq!['\''] + xmlrpc::unescaped(rest),
        xmlrpc::unescaped("&amp;"@ + rest) == seq!['&'] + xmlrpc::unescaped(rest),
{
    reveal_strlit("&lt;");
    reveal_strlit("&gt;");
    reveal_strlit("&quot;");
    reveal_strlit("&apos;");
    reveal_strlit("&amp;");
    let a = "&lt;"@ + rest;
    let b = "&gt;"@ + rest;
    let c = "&quot;"@ + rest;
    let d = "&apos;"@ + rest;
    let e = "&amp;"@ + rest;
    assert(a.take(4) =~= "&lt;"@);
    assert(a.skip(4) =~= rest);
    assert(b.take(4) =~= "&gt;"@);
    assert(b.take(4)[1] == 'g' && "&lt;"@[1] == 'l');
    assert(b.skip(4) =~= rest);
    assert(c.take(6) =~= "&quot;"@);
    assert(c.take(4)[1] == 'q' && "&gt;"@[1] == 'g');
    assert(c.skip(6) =~= rest);
    assert(d.take(6) =~= "&apos;"@);
    assert(d.take(4)[1] == 'a' && d.take(6)[1] == 'a' && "&quot;"@[1] == 'q');
    assert(d.skip(6) =~= rest);
    assert(e.take(5) =~= "&amp;"@);
    assert(e.take(4)[1] == 'a');
    assert(!text::has_prefix(e, "&quot;"@)) by {
        if text::has_prefix(e, "&quot;"@) {
            assert(e.take(6)[1] == 'a');
        }
    }
    assert(!text::has_prefix(e, "&apos;"@)) by {
        if text::has_prefix(e, "&apos;"@) {
            assert(e.take(6)[2] == 'm');
            assert("&apos;"@[2] == 'p');
        }
    }
    assert(e.skip(5) =~= rest);
}

/// The code and the message of a fault are those of its members; a code is cut
/// to 32 bits.
pub proof fn law_fault_members(code: i32, message: Seq<char>, other: Seq<(Seq<char>, ValueModel)>)
    requires
        forall|i: int| 0 <= i < other.len() ==> (#[trigger] other[i]).0 != "faultCode"@ && other[i].0
            != "faultString"@,
    ensures
        ({
            let m = xmlrpc::fault_value(code as int, message)->Struct_0;
            &&& xmlrpc::fault_code(m) == code
            &&& xmlrpc::fault_text(m) == message
            &&& xmlrpc::fault_code(other) == -1
            &&& xmlrpc::fault_text(other).len() == 0
        }),
{
    lemma_response_names();
    let m = xmlrpc::fault_value(code as int, message)->Struct_0;
    assert(m.skip(1)[0] == m[1]);
    assert(xmlrpc::member_value(m, "faultString"@) == xmlrpc::member_value(
        m.skip(1),
        "faultString"@,
    ));
    lemma_no_member(other, "faultCode"@);
    lemma_no_member(other, "faultString"@);
}

proof fn lemma_no_member(s: Seq<(Seq<char>, ValueModel)>, name: Seq<char>)
    requires
        forall|i: int| 0 <= i < s.len() ==> (#[trigger] s[i]).0 != name,
    ensures
        xmlrpc::member_value(s, name) is None,
    decreases s.len(),
{
    if s.len() > 0 {
        assert(s[0].0 != name);
        let t = s.skip(1);
        assert forall|i: int| 0 <= i < t.len() implies (#[trigger] t[i]).0 != name by {
            assert(t[i] == s[i + 1]);
        }
        lemma_no_member(t, name);
    }
}

/// The documents, from the first line to the last.
pub proof fn law_documents(v: ValueModel, method: Seq<char>, code: int, message: Seq<char>)
    ensures
        xmlrpc::response_text(v) == "<?xml version=\"1.0\"?>\n"@
            + "<methodResponse><params><param>"@ + xmlrpc::value_text(v)
            + "</param></params></methodResponse>"@ + "\n"@,
        xmlrpc::fault_document(code, message) == "<?xml version=\"1.0\"?>\n"@
            + "<methodResponse><fault>"@ + xmlrpc::value_text(
            ValueModel::Struct(
                seq![
                    ("faultCode"@, ValueModel::Int(code)),
                    ("faultString"@, ValueModel::Str(message)),
                ],
            ),
        ) + "</fault></methodResponse>"@ + "\n"@,
        xmlrpc::call_text(method, seq![v]) == "<?xml version=\"1.0\"?>\n"@
            + "<methodCall><methodName>"@ + xmlrpc::escaped(method)
            + "</methodName><params><param>"@ + xmlrpc::value_text(v)
            + "</param></params></methodCall>"@ + "\n"@,
{
    let value = xmlrpc::value_text(v);
    reveal_strlit("<");
    reveal_strlit("</");
    reveal_strlit(">");
    reveal_strlit("methodResponse");
    reveal_strlit("params");
    reveal_strlit("param");
    reveal_strlit("fault");
    reveal_strlit("methodCall");
    reveal_strlit("methodName");
    reveal_strlit("<methodResponse><params><param>");
    reveal_strlit("</param></params></methodResponse>");
    reveal_strlit("<methodResponse><fault>");
    reveal_strlit("</fault></methodResponse>");
    reveal_strlit("<methodCall><methodName>");
    reveal_strlit("</methodName><params><param>");
    reveal_strlit("</param></params></methodCall>");
    let o = |n: Seq<char>| xmlrpc::open_tag(n);
    let c = |n: Seq<char>| xmlrpc::close_tag(n);
    assert(o("methodResponse"@) + o("params"@) + o("param"@)
        =~= "<methodResponse><params><param>"@);
    assert(c("param"@) + c("params"@) + c("methodResponse"@)
        =~= "</param></params></methodResponse>"@);
    assert(o("methodResponse"@) + o("fault"@) =~= "<methodResponse><fault>"@);
    assert(c("fault"@) + c("methodResponse"@) =~= "</fault></methodResponse>"@);
    assert(o("methodCall"@) + o("methodName"@) =~= "<methodCall><methodName>"@);
    assert(c("methodName"@) + o("params"@) + o("param"@) =~= "</methodName><params><param>"@);
    assert(c("param"@) + c("params"@) + c("methodCall"@) =~= "</param></params></methodCall>"@);
    let h = "<?xml version=\"1.0\"?>\n"@;
    assert(xmlrpc::response_text(v) =~= h + (o("methodResponse"@) + o("params"@) + o("param"@))
        + value + (c("param"@) + c("params"@) + c("methodResponse"@)) + "\n"@);
    let f = xmlrpc::value_text(xmlrpc::fault_value(code, message));
    assert(xmlrpc::fault_document(code, message) =~= h + (o("methodResponse"@) + o("fault"@)) + f
        + (c("fault"@) + c("methodResponse"@)) + "\n"@);
    let one = seq![v];
    assert(one.skip(1) =~= Seq::<ValueModel>::empty());
    assert(xmlrpc::params_text(Seq::<ValueModel>::empty()) =~= Seq::<char>::empty());
    assert(xmlrpc::params_text(one) =~= o("param"@) + value + c("param"@));
    assert(xmlrpc::call_text(method, one) =~= h + (o("methodCall"@) + o("methodName"@))
        + xmlrpc::escaped(method) + (c("methodName"@) + o("params"@) + o("param"@)) + value + (c(
        "param"@,
    ) + c("params"@) + c("methodCall"@)) + "\n"@);
}

/// Processing instructions and comments are passed over, wherever they stand.
pub proof fn law_remarks_are_passed_over(body: Seq<char>, rest: Seq<char>)
    requires
        forall|i: int|
            0 <= i < body.len() ==> #[trigger] body[i] != '?' && body[i] != '-' && body[i] != '>',
    ensures
        xmlrpc::tokens("<?"@ + body + "?>"@ + rest) == xmlrpc::tokens(rest),
        xmlrpc::tokens("<!--"@ + body + "-->"@ + rest) == xmlrpc::tokens(rest),
{
    reveal_strlit("<?");
    reveal_strlit("?>");
    reveal_strlit("<!--");
    reveal_strlit("-->");
    let n = body.len() as int;
    let a = "<?"@ + body + "?>"@ + rest;
    assert(a.take(2) =~= "<?"@);
    assert(a.subrange(n + 2, n + 4) =~= "?>"@);
    assert forall|j: int| 0 <= j < n + 2 implies !#[trigger] text::occurs_at(a, "?>"@, j) by {
        if text::occurs_at(a, "?>"@, j) {
            let p = a.subrange(j, j + 2);
            assert(p[0] == a[j] && p[1] == a[j + 1]);
            assert("?>"@[0] == '?' && "?>"@[1] == '>');
            if 2 <= j {
                assert(a[j] == body[j - 2]);
            } else if j == 1 {
                if n > 0 {
                    assert(a[2] == body[0]);
                } else {
                    assert(a[2] == '?');
                }
            }
        }
    }
    text::lemma_first_occurrence_is(a, "?>"@, n + 2, 0);
    assert(a.skip(n + 4) =~= rest);
    assert(a[0] == '<');
    let b = "<!--"@ + body + "-->"@ + rest;
    assert(b.take(4) =~= "<!--"@);
    assert(b[0] == '<' && b[1] == '!');
    assert(!text::has_prefix(b, "<?"@)) by {
        assert(b.take(2)[1] == '!');
        assert("<?"@[1] == '?');
    }
    assert(b.subrange(n + 4, n + 7) =~= "-->"@);
    assert forall|j: int| 0 <= j < n + 4 implies !#[trigger] text::occurs_at(b, "-->"@, j) by {
        if text::occurs_at(b, "-->"@, j) {
            let p = b.subrange(j, j + 3);
            assert(p[0] == b[j] && p[1] == b[j + 1] && p[2] == b[j + 2]);
            assert("-->"@[0] == '-' && "-->"@[1] == '-' && "-->"@[2] == '>');
            if j >= 4 {
                assert(b[j] == body[j - 4]);
            } else if j == 3 {
                if n > 0 {
                    assert(b[4] == body[0]);
                } else {
                    assert(b[5] == '-');
                }
            } else if j == 2 {
                if n > 0 {
                    assert(b[4] == body[0]);
                } else {
                    assert(b[4] == '-');
                }
            }
        }
    }
    text::lemma_first_occurrence_is(b, "-->"@, n + 4, 0);
    assert(b.skip(n + 7) =~= rest);
}

/// What stands between angle brackets: a tag that opens, closes, or does both.
/// What follows the name of an opening tag does not count.
pub proof fn law_tags(name: Seq<char>, attributes: Seq<char>)
    requires
        name.len() > 0,
        forall|i: int| 0 <= i < name.len() ==> !text::is_white(#[trigger] name[i]) && name[i] != '/',
        attributes.len() > 0,
        attributes.last() != '/',
        !text::is_white(attributes.last()),
    ensures
        xmlrpc::tag_token(name) == TokModel::Open(name),
        xmlrpc::tag_token(seq!['/'] + name) == TokModel::Close(name),
        xmlrpc::tag_token(name + seq!['/']) == TokModel::SelfClose(name),
        xmlrpc::tag_token(name + seq![' '] + attributes) == TokModel::Open(name),
{
    reveal_strlit("/");
    let none = Seq::<char>::empty();
    assert(!text::is_white(name[0]) && name[0] != '/');
    assert(!text::is_white(name[name.len() - 1]) && name[name.len() - 1] != '/');
    lemma_trimmed_same(name);
    let a = seq!['/'] + name;
    let b = name + seq!['/'];
    let c = name + seq![' '] + attributes;
    assert(a[0] == '/' && a[a.len() - 1] == name[name.len() - 1]);
    assert(b[0] == name[0] && b[b.len() - 1] == '/');
    assert(c[0] == name[0] && c[c.len() - 1] == attributes[attributes.len() - 1]);
    lemma_trimmed_same(a);
    lemma_trimmed_same(b);
    lemma_trimmed_same(c);
    assert(a.take(1) =~= "/"@);
    assert(a.skip(1) =~= name);
    assert(!text::has_prefix(name, "/"@)) by {
        assert(name.take(1)[0] == name[0]);
    }
    assert(!text::has_suffix(name, "/"@)) by {
        assert(name.skip(name.len() - 1)[0] == name[name.len() - 1]);
    }
    assert(!text::has_prefix(b, "/"@)) by {
        assert(b.take(1)[0] == name[0]);
    }
    assert(b.skip(b.len() - 1) =~= "/"@);
    assert(b.take(b.len() - 1) =~= name);
    assert(!text::has_prefix(c, "/"@)) by {
        assert(c.take(1)[0] == name[0]);
    }
    assert(!text::has_suffix(c, "/"@)) by {
        assert(c.skip(c.len() - 1)[0] == c[c.len() - 1]);
    }
    text::law_words(none, name, ' ', attributes);
    assert(none + name =~= name);
    assert(none + name + seq![' '] + attributes =~= c);
    assert(text::words(c)[0] == name);
}

/// Blank text between tags does not count.
pub proof fn law_blanks_do_not_count(toks: Seq<TokModel>, pos: int, blank: Seq<char>, name: Seq<char>)
    requires
        0 <= pos,
        pos + 1 < toks.len(),
        toks[pos] == TokModel::Text(blank),
        text::all_white(blank),
    ensures
        toks[pos + 1] == TokModel::Open(name) ==> xmlrpc::after_open(toks, pos, name) == Ok::<
            int,
            Seq<char>,
        >(pos + 2),
        toks[pos + 1] == TokModel::Close(name) ==> xmlrpc::after_close(toks, pos, name) == Ok::<
            int,
            Seq<char>,
        >(pos + 2),
{
    let w = seq!['w'];
    text::law_trimmed(blank, w, blank);
    assert(xmlrpc::is_blank(toks[pos]));
    assert(xmlrpc::skip_blank(toks, pos) == xmlrpc::skip_blank(toks, pos + 1));
    if toks[pos + 1] is Open || toks[pos + 1] is Close {
        assert(!xmlrpc::is_blank(toks[pos + 1]));
        assert(xmlrpc::skip_blank(toks, pos + 1) == pos + 1);
    }
}

/// What is a number with a fraction: digits, with a point among them or not,
/// with a sign or without.
pub proof fn law_doubles(a: nat, b: nat)
    ensures
        ({
            let x = number::nat_text(a);
            let y = number::nat_text(b);
            let p = seq!['.'];
            &&& xmlrpc::is_double(x)
            &&& xmlrpc::is_double(seq!['-'] + x)
            &&& xmlrpc::is_double(x + p + y)
            &&& xmlrpc::is_double(seq!['-'] + (x + p + y))
            &&& !xmlrpc::is_double(Seq::empty())
            &&& !xmlrpc::is_double(p)
        }),
{
    let x = number::nat_text(a);
    let y = number::nat_text(b);
    let p = seq!['.'];
    let d = x + p + y;
    number::lemma_nat_text_digits(a);
    number::lemma_nat_text_digits(b);
    assert('0' <= x[0] <= '9');
    lemma_plain_double(x);
    assert forall|i: int| 0 <= i < d.len() implies '.' <= #[trigger] d[i] <= '9' && d[i] != '/' by {
        if i < x.len() {
            assert(d[i] == x[i]);
        } else if i > x.len() {
            assert(d[i] == y[i - x.len() - 1]);
        }
    }
    let n = x.len() as int;
    assert(d[n] == '.');
    assert forall|j: int| 0 <= j < n implies d[j] != '.' by {
        assert(d[j] == x[j]);
    }
    text::lemma_first_index_is(d, '.', n);
    assert(d.take(n) =~= x);
    assert(d.skip(n + 1) =~= y);
    assert(xmlrpc::is_mantissa(d));
    assert(d[0] == x[0]);
    lemma_unsigned_double(d);
    assert(xmlrpc::is_mantissa(x)) by {
        text::lemma_first_index_is(x, '.', n);
    }
    assert((seq!['-'] + x).skip(1) =~= x);
    assert((seq!['-'] + d).skip(1) =~= d);
    lemma_unsigned_double(x);
    lemma_no_double();
}

proof fn lemma_no_double()
    ensures
        !xmlrpc::is_double(Seq::empty()),
        !xmlrpc::is_double(seq!['.']),
{
    reveal_strlit("inf");
    reveal_strlit("infinity");
    reveal_strlit("nan");
    let none = Seq::<char>::empty();
    let p = seq!['.'];
    assert(text::lowered(none) =~= none);
    assert(text::lowered(p) =~= p);
    assert("inf"@.len() == 3 && "infinity"@.len() == 8 && "nan"@.len() == 3);
    text::lemma_first_index_is(none, 'e', 0);
    text::lemma_first_index_is(p, 'e', 1);
    assert(none.take(0) =~= none);
    assert(p.take(1) =~= p);
    text::lemma_first_index_is(none, '.', 0);
    text::lemma_first_index_is(p, '.', 0);
}

/// Digits alone are a number.
proof fn lemma_plain_double(x: Seq<char>)
    requires
        x.len() > 0,
        forall|i: int| 0 <= i < x.len() ==> '0' <= #[trigger] x[i] <= '9',
    ensures
        xmlrpc::is_double(x),
{
    text::lemma_first_index_is(x, '.', x.len() as int);
    lemma_unsigned_double(x);
}

/// A mantissa is a number, with a minus sign or without.
proof fn lemma_unsigned_double(d: Seq<char>)
    requires
        d.len() > 0,
        forall|i: int| 0 <= i < d.len() ==> '.' <= #[trigger] d[i] <= '9',
        xmlrpc::is_mantissa(d),
    ensures
        xmlrpc::is_double(d),
        xmlrpc::is_double(seq!['-'] + d),
{
    let m = seq!['-'] + d;
    assert('.' <= d[0] <= '9');
    assert(m[0] == '-');
    assert(m.skip(1) =~= d);
    assert(xmlrpc::without_sign(d) == d);
    assert(xmlrpc::without_sign(m) == d);
    assert(text::lowered(d) =~= d) by {
        assert forall|i: int| 0 <= i < d.len() implies #[trigger] text::lowered(d)[i] == d[i] by {
            assert('.' <= d[i] <= '9');
        }
    }
    text::lemma_first_index_is(d, 'e', d.len() as int);
    assert(d.take(d.len() as int) =~= d);
}

/// What is said when another token stands where a tag is expected: the tag,
/// and the token, or that there is none.
pub proof fn law_misplaced_tokens(
    toks: Seq<TokModel>,
    pos: int,
    name: Seq<char>,
    s: Seq<char>,
)
    requires
        0 <= pos <= toks.len(),
        pos < toks.len() ==> !xmlrpc::is_blank(toks[pos]),
    ensures
        ({
            let opening = |got: Seq<char>|
                xmlrpc::after_open(toks, pos, name) == Err::<int, Seq<char>>(
                    "expected <"@ + name + ">, got "@ + got,
                );
            let closing = |got: Seq<char>|
                xmlrpc::after_close(toks, pos, name) == Err::<int, Seq<char>>(
                    "expected </"@ + name + ">, got "@ + got,
                );
            let at = |t: TokModel| pos < toks.len() && toks[pos] == t;
            let open = "Some(Open("@ + text::debug_text(s) + "))"@;
            let close = "Some(Close("@ + text::debug_text(s) + "))"@;
            let empty = "Some(SelfClose("@ + text::debug_text(s) + "))"@;
            let words = "Some(Text("@ + text::debug_text(s) + "))"@;
            &&& pos == toks.len() ==> opening("None"@) && closing("None"@)
            &&& at(TokModel::Open(s)) && s != name ==> opening(open)
            &&& at(TokModel::Open(s)) ==> closing(open)
            &&& at(TokModel::Close(s)) ==> opening(close)
            &&& at(TokModel::Close(s)) && s != name ==> closing(close)
            &&& at(TokModel::SelfClose(s)) ==> opening(empty) && closing(empty)
            &&& at(TokModel::Text(s)) ==> opening(words) && closing(words)
            &&& at(TokModel::Open(name)) ==> xmlrpc::after_open(toks, pos, name) == Ok::<
                int,
                Seq<char>,
            >(pos + 1)
            &&& at(TokModel::Close(name)) ==> xmlrpc::after_close(toks, pos, name) == Ok::<
                int,
                Seq<char>,
            >(pos + 1)
        }),
{
}

/// A document that is no response is told apart from a fault by the code -1,
/// with what is wrong with it.
pub proof fn law_no_response(xml: Seq<char>, code: i32, why: Seq<char>, v: ValueModel)
    ensures
        ({
            let toks = xmlrpc::tokens(xml);
            let wrong = |m: Seq<char>|
                xmlrpc::response_of(xml) == Err::<ValueModel, (i32, Seq<char>)>((-1i32, m));
            &&& xmlrpc::response_in(xml) == ResponseModel::Malformed(why) ==> wrong(why)
            &&& xmlrpc::response_in(xml) == ResponseModel::Fault(code, why)
                ==> xmlrpc::response_of(xml) == Err::<ValueModel, (i32, Seq<char>)>((code, why))
            &&& xmlrpc::response_in(xml) == ResponseModel::Value(v) ==> xmlrpc::response_of(xml)
                == Ok::<ValueModel, (i32, Seq<char>)>(v)
            &&& toks.len() == 0 ==> wrong("expected <"@ + "methodResponse"@ + ">, got "@ + "None"@)
            &&& toks == seq![TokModel::Open("methodResponse"@)] ==> wrong(
                "unexpected response content: "@ + "None"@,
            )
            &&& toks.len() > 1 && toks[0] == TokModel::Open("methodResponse"@) && toks[1]
                == TokModel::Open(why) && why != "fault"@ && why != "params"@ ==> wrong(
                "unexpected response content: "@ + ("Some(Open("@ + text::debug_text(why) + "))"@),
            )
            &&& toks.len() > 1 && toks[0] == TokModel::Open("methodResponse"@) && toks[1]
                == TokModel::Open("fault"@) ==> {
                &&& xmlrpc::value_at(toks, 2) is Ok && !(xmlrpc::value_at(toks, 2)->Ok_0.0 is Struct)
                    ==> wrong("malformed fault"@)
                &&& xmlrpc::value_at(toks, 2) is Err ==> wrong(xmlrpc::value_at(toks, 2)->Err_0)
            }
        }),
{
}

} // verus!
