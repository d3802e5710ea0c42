//! XML-RPC: just enough of the protocol to parse the method calls that a
//! control client sends and to render the responses and faults it expects.
//!
//! Supported value types: `int`/`i4`/`i8`, `boolean`, `string`, `double`,
//! `base64` (decoded to a string), `array`, `struct`, and `nil` (an empty
//! string). Untyped `<value>text</value>` is a string.
pub mod laws;

use crate::http::base64;
use crate::number;
use crate::text;
use crate::util;
use vstd::prelude::*;
use vstd::slice::slice_subrange;
use vstd::utf8;

verus! {

/// An XML-RPC value. A `Double` holds the text of the number.
#[derive(Debug, PartialEq)]
pub enum Value {
    Int(i64),
    Bool(bool),
    Str(String),
    Double(String),
    Array(Vec<Value>),
    Struct(Vec<(String, Value)>),
}

/// The mathematical content of a [`Value`].
pub enum ValueModel {
    Int(int),
    Bool(bool),
    Str(Seq<char>),
    Double(Seq<char>),
    Array(Seq<ValueModel>),
    Struct(Seq<(Seq<char>, ValueModel)>),
}

/// The content of a value.
pub open spec fn value_model(v: Value) -> ValueModel
    decreases v,
{
    match v {
        Value::Int(i) => ValueModel::Int(i as int),
        Value::Bool(b) => ValueModel::Bool(b),
        Value::Str(s) => ValueModel::Str(s@),
        Value::Double(s) => ValueModel::Double(s@),
        Value::Array(items) => ValueModel::Array(value_models(items@)),
        Value::Struct(members) => ValueModel::Struct(member_models(members@)),
    }
}

/// The contents of a list of values.
pub open spec fn value_models(s: Seq<Value>) -> Seq<ValueModel>
    decreases s,
{
    if s.len() == 0 {
        Seq::empty()
    } else {
        value_models(s.subrange(0, s.len() - 1)).push(value_model(s[s.len() - 1]))
    }
}

/// The contents of a list of struct members.
pub open spec fn member_models(s: Seq<(String, Value)>) -> Seq<(Seq<char>, ValueModel)>
    decreases s,
{
    if s.len() == 0 {
        Seq::empty()
    } else {
        member_models(s.subrange(0, s.len() - 1)).push(
            (s[s.len() - 1].0@, value_model(s[s.len() - 1].1)),
        )
    }
}

impl View for Value {
    type V = ValueModel;

    open spec fn view(&self) -> ValueModel {
        value_model(*self)
    }
}

/// `value_models` lists the contents in order.
pub proof fn lemma_value_models(s: Seq<Value>)
    ensures
        value_models(s).len() == s.len(),
        forall|i: int| 0 <= i < s.len() ==> #[trigger] value_models(s)[i] == s[i]@,
    decreases s.len(),
{
    if s.len() > 0 {
        let t = s.subrange(0, s.len() - 1);
        lemma_value_models(t);
        assert forall|i: int| 0 <= i < s.len() implies #[trigger] value_models(s)[i] == s[i]@ by {
            if i < s.len() - 1 {
                assert(value_models(s)[i] == value_models(t)[i]);
                assert(t[i] == s[i]);
            }
        }
    }
}

/// `member_models` lists the names and contents in order.
pub proof fn lemma_member_models(s: Seq<(String, Value)>)
    ensures
        member_models(s).len() == s.len(),
        forall|i: int|
            0 <= i < s.len() ==> #[trigger] member_models(s)[i] == (s[i].0@, s[i].1@),
    decreases s.len(),
{
    if s.len() > 0 {
        let t = s.subrange(0, s.len() - 1);
        lemma_member_models(t);
        assert forall|i: int| 0 <= i < s.len() implies #[trigger] member_models(s)[i] == (
            s[i].0@,
            s[i].1@,
        ) by {
            if i < s.len() - 1 {
                assert(member_models(s)[i] == member_models(t)[i]);
                assert(t[i] == s[i]);
            }
        }
    }
}

impl Value {
    /// The text of a string value.
    pub fn as_str(&self) -> (r: Option<&str>)
        ensures
            match r {
                Some(s) => self@ == ValueModel::Str(s@),
                None => !(self@ is Str),
            },
    {
        match self {
            Value::Str(s) => Some(s.as_str()),
            _ => None,
        }
    }

    /// The truth value of a boolean, or of an integer (non-zero is true).
    pub fn as_bool(&self) -> (r: Option<bool>)
        ensures
            r == (match self@ {
                ValueModel::Bool(b) => Some(b),
                ValueModel::Int(i) => Some(i != 0),
                _ => None,
            }),
    {
        match self {
            Value::Bool(b) => Some(*b),
            Value::Int(i) => Some(*i != 0),
            _ => None,
        }
    }
}

// ---------------------------------------------------------------------------
// Character entities
// ---------------------------------------------------------------------------

/// The escaped form of one character.
pub open spec fn escaped_char(c: char) -> Seq<char> {
    if c == '&' {
        "&amp;"@
    } else if c == '<' {
        "&lt;"@
    } else if c == '>' {
        "&gt;"@
    } else {
        seq![c]
    }
}

/// `s` with `&`, `<` and `>` written as entities.
pub open spec fn escaped(s: Seq<char>) -> Seq<char>
    decreases s.len(),
{
    if s.len() == 0 {
        Seq::empty()
    } else {
        escaped_char(s[0]) + escaped(s.skip(1))
    }
}

/// The character that an entity at the start of `s` stands for, and the entity's length.
pub open spec fn leading_entity(s: Seq<char>) -> Option<(char, int)> {
    if text::has_prefix(s, "&lt;"@) {
        Some(('<', 4))
    } else if text::has_prefix(s, "&gt;"@) {
        Some(('>', 4))
    } else if text::has_prefix(s, "&quot;"@) {
        Some(('"', 6))
    } else if text::has_prefix(s, "&apos;"@) {
        Some(('\'', 6))
    } else if text::has_prefix(s, "&amp;"@) {
        Some(('&', 5))
    } else {
        None
    }
}

/// `s` with the five predefined entities replaced by their characters, once each.
pub open spec fn unescaped(s: Seq<char>) -> Seq<char>
    decreases s.len(),
{
    if s.len() == 0 {
        Seq::empty()
    } else {
        match leading_entity(s) {
            Some((c, n)) => if 0 < n <= s.len() {
                seq![c] + unescaped(s.skip(n))
            } else {
                Seq::empty()
            },
            None => seq![s[0]] + unescaped(s.skip(1)),
        }
    }
}

/// An entity is never longer than the text that begins with it.
pub proof fn lemma_leading_entity(s: Seq<char>)
    ensures
        match leading_entity(s) {
            Some((c, n)) => 0 < n <= s.len(),
            None => true,
        },
{
    reveal_strlit("&lt;");
    reveal_strlit("&gt;");
    reveal_strlit("&quot;");
    reveal_strlit("&apos;");
    reveal_strlit("&amp;");
}

/// Writes `&`, `<` and `>` as entities.
pub fn escape(s: &str) -> (r: String)
    ensures
        r@ == escaped(s@),
{
    let c = text::chars_of(s);
    let mut out = String::new();
    let mut i: usize = 0;
    proof {
        assert(s@.skip(0) =~= s@);
        assert(out@ + escaped(s@) =~= escaped(s@));
    }
    while i < c.len()
        invariant
            c@ == s@,
            i <= s@.len(),
            out@ + escaped(s@.skip(i as int)) == escaped(s@),
        decreases s@.len() - i,
    {
        let ghost before = out@;
        let ghost t = s@.skip(i as int);
        let ch = c[i];
        if ch == '&' {
            out.append("&amp;");
        } else if ch == '<' {
            out.append("&lt;");
        } else if ch == '>' {
            out.append("&gt;");
        } else {
            out.push(ch);
        }
        proof {
            assert(out@ =~= before + escaped_char(ch));
            assert(t.skip(1) =~= s@.skip(i as int + 1));
            assert(before + (escaped_char(ch) + escaped(t.skip(1))) =~= out@ + escaped(
                t.skip(1),
            ));
        }
        i = i + 1;
    }
    proof {
        assert(s@.skip(s@.len() as int) =~= Seq::<char>::empty());
        assert(out@ + Seq::<char>::empty() =~= out@);
    }
    out
}

/// Replaces the five predefined entities by their characters.
fn unescape(s: &[char]) -> (r: String)
    ensures
        r@ == unescaped(s@),
{
    let mut out = String::new();
    let mut i: usize = 0;
    proof {
        assert(s@.skip(0) =~= s@);
        assert(out@ + unescaped(s@) =~= unescaped(s@));
    }
    while i < s.len()
        invariant
            i <= s@.len(),
            out@ + unescaped(s@.skip(i as int)) == unescaped(s@),
        decreases s@.len() - i,
    {
        let ghost before = out@;
        let ghost t = s@.skip(i as int);
        let rest = slice_subrange(s, i, s.len());
        proof {
            assert(rest@ =~= t);
            lemma_leading_entity(t);
            reveal_strlit("&lt;");
            reveal_strlit("&gt;");
            reveal_strlit("&quot;");
            reveal_strlit("&apos;");
            reveal_strlit("&amp;");
        }
        let (ch, n): (char, usize) = if text::starts_with(rest, "&lt;") {
            ('<', 4)
        } else if text::starts_with(rest, "&gt;") {
            ('>', 4)
        } else if text::starts_with(rest, "&quot;") {
            ('"', 6)
        } else if text::starts_with(rest, "&apos;") {
            ('\'', 6)
        } else if text::starts_with(rest, "&amp;") {
            ('&', 5)
        } else {
            (s[i], 1)
        };
        out.push(ch);
        proof {
            assert(t.skip(n as int) =~= s@.skip(i as int + n as int));
            assert(unescaped(t) == seq![ch] + unescaped(t.skip(n as int)));
            assert(before + (seq![ch] + unescaped(t.skip(n as int))) =~= out@ + unescaped(
                t.skip(n as int),
            ));
        }
        i = i + n;
    }
    proof {
        assert(s@.skip(s@.len() as int) =~= Seq::<char>::empty());
        assert(out@ + Seq::<char>::empty() =~= out@);
    }
    out
}

// ---------------------------------------------------------------------------
// Tokens
// ---------------------------------------------------------------------------

/// A piece of markup: `<name>`, `</name>`, `<name/>` or the text between tags.
#[derive(Debug)]
pub enum Tok {
    Open(String),
    Close(String),
    SelfClose(String),
    Text(String),
}

/// The mathematical content of a [`Tok`].
pub enum TokModel {
    Open(Seq<char>),
    Close(Seq<char>),
    SelfClose(Seq<char>),
    Text(Seq<char>),
}

impl View for Tok {
    type V = TokModel;

    open spec fn view(&self) -> TokModel {
        match self {
            Tok::Open(s) => TokModel::Open(s@),
            Tok::Close(s) => TokModel::Close(s@),
            Tok::SelfClose(s) => TokModel::SelfClose(s@),
            Tok::Text(s) => TokModel::Text(s@),
        }
    }
}

/// The contents of a list of tokens.
pub open spec fn tok_models(v: Seq<Tok>) -> Seq<TokModel> {
    v.map_values(|t: Tok| t@)
}

/// The token for the text between `<` and `>`; attributes are dropped.
pub open spec fn tag_token(inner: Seq<char>) -> TokModel {
    let t = text::trimmed(inner);
    if text::has_prefix(t, "/"@) {
        TokModel::Close(text::trimmed(t.skip(1)))
    } else if text::has_suffix(t, "/"@) {
        TokModel::SelfClose(text::trimmed(t.take(t.len() - 1)))
    } else {
        let w = text::words(t);
        TokModel::Open(
            if w.len() == 0 {
                Seq::empty()
            } else {
                w[0]
            },
        )
    }
}

/// Where the processing instruction or comment at the start of `s` ends, if there is one.
pub open spec fn skipped_markup(s: Seq<char>) -> Option<int> {
    if text::has_prefix(s, "<?"@) && text::first_occurrence(s, "?>"@) is Some {
        Some(text::first_occurrence(s, "?>"@)->0 + 2)
    } else if text::has_prefix(s, "<!--"@) && text::first_occurrence(s, "-->"@) is Some {
        Some(text::first_occurrence(s, "-->"@)->0 + 3)
    } else {
        None
    }
}

/// The tokens of a document. A tag that is never closed ends the list.
pub open spec fn tokens(s: Seq<char>) -> Seq<TokModel>
    decreases s.len(),
{
    if s.len() == 0 {
        Seq::empty()
    } else if s[0] == '<' {
        match skipped_markup(s) {
            Some(n) => if 0 < n <= s.len() {
                tokens(s.skip(n))
            } else {
                Seq::empty()
            },
            None => {
                let e = text::first_index(s, '>');
                if 0 < e < s.len() {
                    seq![tag_token(s.subrange(1, e))] + tokens(s.skip(e + 1))
                } else {
                    Seq::empty()
                }
            },
        }
    } else {
        let n = text::first_index(s, '<');
        if 0 < n <= s.len() {
            seq![TokModel::Text(unescaped(s.take(n)))] + tokens(s.skip(n))
        } else {
            Seq::empty()
        }
    }
}

/// The token for the text between `<` and `>`.
fn read_tag(inner: &[char]) -> (r: Tok)
    ensures
        r@ == tag_token(inner@),
{
    let t = text::trim(inner);
    proof {
        reveal_strlit("/");
    }
    if text::starts_with(t, "/") {
        let rest = slice_subrange(t, 1, t.len());
        proof {
            assert(rest@ =~= t@.skip(1));
        }
        Tok::Close(text::string_of(text::trim(rest)))
    } else if text::ends_with(t, "/") {
        let rest = slice_subrange(t, 0, t.len() - 1);
        proof {
            assert(rest@ =~= t@.take(t@.len() - 1));
        }
        Tok::SelfClose(text::string_of(text::trim(rest)))
    } else {
        let w = text::split_words(t);
        if w.len() == 0 {
            Tok::Open(String::new())
        } else {
            proof {
                assert(text::char_lists(w@)[0] == w@[0]@);
            }
            Tok::Open(text::string_of(w[0].as_slice()))
        }
    }
}

/// Splits a document into tokens.
pub fn tokenize(input: &str) -> (r: Vec<Tok>)
    ensures
        tok_models(r@) == tokens(input@),
{
    let s = text::chars_of(input);
    let n: usize = s.len();
    let mut toks: Vec<Tok> = Vec::new();
    let mut i: usize = 0;
    proof {
        assert(s@.skip(0) =~= s@);
        assert(tok_models(toks@) + tokens(s@) =~= tokens(s@));
        reveal_strlit("<?");
        reveal_strlit("?>");
        reveal_strlit("<!--");
        reveal_strlit("-->");
    }
    while i < n
        invariant
            s@ == input@,
            n == s@.len(),
            i <= n,
            "?>"@.len() == 2,
            "-->"@.len() == 3,
            tok_models(toks@) + tokens(s@.skip(i as int)) == tokens(input@),
        decreases n - i,
    {
        let rest = slice_subrange(s.as_slice(), i, n);
        let ghost t = s@.skip(i as int);
        let ghost before = toks@;
        proof {
            assert(rest@ =~= t);
        }
        if rest[0] == '<' {
            let mut skip: Option<usize> = None;
            if text::starts_with(rest, "<?") {
                if let Some(e) = text::find_text(rest, "?>") {
                    skip = Some(e + 2);
                }
            }
            if skip.is_none() && text::starts_with(rest, "<!--") {
                if let Some(e) = text::find_text(rest, "-->") {
                    skip = Some(e + 3);
                }
            }
            if let Some(k) = skip {
                proof {
                    assert(skipped_markup(t) == Some(k as int));
                    assert(t.skip(k as int) =~= s@.skip(i as int + k as int));
                }
                i = i + k;
            } else {
                proof {
                    assert(skipped_markup(t) is None);
                }
                let e = text::find_char(rest, '>');
                if e == rest.len() {
                    proof {
                        assert(tokens(t) =~= Seq::<TokModel>::empty());
                        assert(tok_models(toks@) + tokens(t) =~= tok_models(toks@));
                    }
                    return toks;
                }
                let tok = read_tag(slice_subrange(rest, 1, e));
                proof {
                    assert(t.skip(e as int + 1) =~= s@.skip(i as int + e as int + 1));
                }
                toks.push(tok);
                proof {
                    let tail = tokens(t.skip(e as int + 1));
                    assert(tok_models(toks@) =~= tok_models(before) + seq![tok@]);
                    assert(tok_models(before) + (seq![tok@] + tail) =~= tok_models(toks@) + tail);
                }
                i = i + e + 1;
            }
        } else {
            let e = text::find_char(rest, '<');
            let body = slice_subrange(rest, 0, e);
            let tok = Tok::Text(unescape(body));
            proof {
                assert(body@ =~= t.take(e as int));
                assert(t.skip(e as int) =~= s@.skip(i as int + e as int));
            }
            toks.push(tok);
            proof {
                let tail = tokens(t.skip(e as int));
                assert(tok_models(toks@) =~= tok_models(before) + seq![tok@]);
                assert(tok_models(before) + (seq![tok@] + tail) =~= tok_models(toks@) + tail);
            }
            i = i + e;
        }
    }
    proof {
        assert(s@.skip(n as int) =~= Seq::<char>::empty());
        assert(tok_models(toks@) + Seq::<TokModel>::empty() =~= tok_models(toks@));
    }
    toks
}

// ---------------------------------------------------------------------------
// Numbers with a fraction
// ---------------------------------------------------------------------------

/// Whether every character is a decimal digit.
pub open spec fn all_digits(s: Seq<char>) -> bool {
    forall|i: int| 0 <= i < s.len() ==> '0' <= #[trigger] s[i] <= '9'
}

/// Digits with at most one point among them, and at least one digit.
pub open spec fn is_mantissa(s: Seq<char>) -> bool {
    let d = text::first_index(s, '.');
    if d == s.len() {
        s.len() > 0 && all_digits(s)
    } else {
        s.len() > 1 && all_digits(s.take(d)) && all_digits(s.skip(d + 1))
    }
}

/// `s` without a leading sign.
pub open spec fn without_sign(s: Seq<char>) -> Seq<char> {
    if s.len() > 0 && (s[0] == '+' || s[0] == '-') {
        s.skip(1)
    } else {
        s
    }
}

/// Whether `s` is the text of a floating-point number, in the grammar that
/// `f64::from_str` documents: an optional sign, then `inf`, `infinity` or
/// `nan` in any letter case, or a mantissa with an optional exponent.
pub open spec fn is_double(s: Seq<char>) -> bool {
    let t = text::lowered(without_sign(s));
    ||| t == "inf"@
    ||| t == "infinity"@
    ||| t == "nan"@
    ||| {
        let e = text::first_index(t, 'e');
        &&& is_mantissa(t.take(e))
        &&& e < t.len() ==> {
            let x = without_sign(t.skip(e + 1));
            x.len() > 0 && all_digits(x)
        }
    }
}

fn digits_only(s: &[char]) -> (r: bool)
    ensures
        r == all_digits(s@),
{
    let mut i: usize = 0;
    while i < s.len()
        invariant
            i <= s@.len(),
            forall|j: int| 0 <= j < i ==> '0' <= #[trigger] s@[j] <= '9',
        decreases s@.len() - i,
    {
        if !('0' <= s[i] && s[i] <= '9') {
            return false;
        }
        i = i + 1;
    }
    true
}

fn strip_sign(s: &[char]) -> (r: &[char])
    ensures
        r@ == without_sign(s@),
{
    if s.len() > 0 && (s[0] == '+' || s[0] == '-') {
        let r = slice_subrange(s, 1, s.len());
        proof {
            assert(r@ =~= s@.skip(1));
        }
        r
    } else {
        s
    }
}

/// Whether the characters are the text of a floating-point number.
pub fn double_text(s: &[char]) -> (r: bool)
    ensures
        r == is_double(s@),
{
    let t = text::to_lower(strip_sign(s));
    let t = t.as_slice();
    if text::spells(t, "inf") || text::spells(t, "infinity") || text::spells(t, "nan") {
        return true;
    }
    let e = text::find_char(t, 'e');
    let m = slice_subrange(t, 0, e);
    proof {
        assert(m@ =~= t@.take(e as int));
    }
    let d = text::find_char(m, '.');
    let mantissa = if d == m.len() {
        m.len() > 0 && digits_only(m)
    } else {
        let whole = slice_subrange(m, 0, d);
        let fraction = slice_subrange(m, d + 1, m.len());
        proof {
            assert(whole@ =~= m@.take(d as int));
            assert(fraction@ =~= m@.skip(d as int + 1));
        }
        m.len() > 1 && digits_only(whole) && digits_only(fraction)
    };
    if e == t.len() {
        return mantissa;
    }
    let rest = slice_subrange(t, e + 1, t.len());
    proof {
        assert(rest@ =~= t@.skip(e as int + 1));
    }
    let x = strip_sign(rest);
    mantissa && x.len() > 0 && digits_only(x)
}

// ---------------------------------------------------------------------------
// Text in base64
// ---------------------------------------------------------------------------

/// The text that a base64 text stands for; `None` when it is no base64, or the
/// bytes it stands for are no text.
pub open spec fn base64_text(s: Seq<char>) -> Option<Seq<char>> {
    match base64::decoded(utf8::encode_utf8(s)) {
        Some(bytes) => if utf8::valid_utf8(bytes) {
            Some(utf8::decode_utf8(bytes))
        } else {
            None
        },
        None => None,
    }
}

/// The text that a base64 text stands for.
fn read_base64(s: &str) -> (r: Option<String>)
    ensures
        match r {
            Some(t) => base64_text(s@) == Some(t@),
            None => base64_text(s@) is None,
        },
{
    let bytes = base64::base64_decode(s.as_bytes())?;
    let t = util::utf8_text(bytes)?;
    proof {
        utf8::encode_utf8_decode_utf8(t@);
    }
    Some(t)
}

// ---------------------------------------------------------------------------
// Parser
// ---------------------------------------------------------------------------

/// Text that is nothing but white space.
pub open spec fn is_blank(t: TokModel) -> bool {
    match t {
        TokModel::Text(s) => text::trimmed(s).len() == 0,
        _ => false,
    }
}

/// The position of the first token at or after `pos` that is not blank text.
pub open spec fn skip_blank(toks: Seq<TokModel>, pos: int) -> int
    decreases toks.len() - pos,
{
    if 0 <= pos < toks.len() && is_blank(toks[pos]) {
        skip_blank(toks, pos + 1)
    } else {
        pos
    }
}

/// The token at `pos`, if there is one.
pub open spec fn token_at(toks: Seq<TokModel>, pos: int) -> Option<TokModel> {
    if 0 <= pos < toks.len() {
        Some(toks[pos])
    } else {
        None
    }
}

/// How error messages show a token.
pub open spec fn token_shown(t: Option<TokModel>) -> Seq<char> {
    match t {
        None => "None"@,
        Some(TokModel::Open(s)) => "Some(Open("@ + text::debug_text(s) + "))"@,
        Some(TokModel::Close(s)) => "Some(Close("@ + text::debug_text(s) + "))"@,
        Some(TokModel::SelfClose(s)) => "Some(SelfClose("@ + text::debug_text(s) + "))"@,
        Some(TokModel::Text(s)) => "Some(Text("@ + text::debug_text(s) + "))"@,
    }
}

/// The position behind the opening tag `name`, which must come next.
pub open spec fn after_open(toks: Seq<TokModel>, pos: int, name: Seq<char>) -> Result<
    int,
    Seq<char>,
> {
    let p = skip_blank(toks, pos);
    if token_at(toks, p) == Some(TokModel::Open(name)) {
        Ok(p + 1)
    } else {
        Err("expected <"@ + name + ">, got "@ + token_shown(token_at(toks, p)))
    }
}

/// The position behind the closing tag `name`, which must come next.
pub open spec fn after_close(toks: Seq<TokModel>, pos: int, name: Seq<char>) -> Result<
    int,
    Seq<char>,
> {
    let p = skip_blank(toks, pos);
    if token_at(toks, p) == Some(TokModel::Close(name)) {
        Ok(p + 1)
    } else {
        Err("expected </"@ + name + ">, got "@ + token_shown(token_at(toks, p)))
    }
}

/// The text at `pos`; empty when the token there is no text.
pub open spec fn text_at(toks: Seq<TokModel>, pos: int) -> Seq<char> {
    match token_at(toks, pos) {
        Some(TokModel::Text(s)) => s,
        _ => Seq::empty(),
    }
}

/// The position behind the text at `pos`, if there is text.
pub open spec fn after_text(toks: Seq<TokModel>, pos: int) -> int {
    match token_at(toks, pos) {
        Some(TokModel::Text(_)) => pos + 1,
        _ => pos,
    }
}

/// Where skipping blank text can end.
pub proof fn lemma_skip_blank(toks: Seq<TokModel>, pos: int)
    requires
        0 <= pos <= toks.len(),
    ensures
        pos <= skip_blank(toks, pos) <= toks.len(),
        skip_blank(toks, pos) < toks.len() ==> !is_blank(toks[skip_blank(toks, pos)]),
    decreases toks.len() - pos,
{
    if pos < toks.len() && is_blank(toks[pos]) {
        lemma_skip_blank(toks, pos + 1);
    }
}

/// The text of the element whose opening tag is at `pos`, and the position behind its closing tag.
pub open spec fn simple_element(toks: Seq<TokModel>, pos: int, name: Seq<char>) -> Result<
    (Seq<char>, int),
    Seq<char>,
> {
    match after_close(toks, after_text(toks, pos + 1), name) {
        Ok(q) => Ok((text_at(toks, pos + 1), q)),
        Err(e) => Err(e),
    }
}

/// The value of the simple element called `name` that holds the text `s`, or
/// what is wrong with the text.
pub open spec fn simple_value(name: Seq<char>, s: Seq<char>) -> Result<ValueModel, Seq<char>> {
    if name == "int"@ || name == "i4"@ || name == "i8"@ {
        match number::signed_within(text::trimmed(s), i64::MIN as int, i64::MAX as int) {
            Some(n) => Ok(ValueModel::Int(n)),
            None => Err("bad int"@),
        }
    } else if name == "boolean"@ {
        Ok(ValueModel::Bool(text::trimmed(s) == "1"@))
    } else if name == "double"@ {
        if is_double(text::trimmed(s)) {
            Ok(ValueModel::Double(text::trimmed(s)))
        } else {
            Err("bad double"@)
        }
    } else if name == "base64"@ {
        match base64_text(s) {
            Some(t) => Ok(ValueModel::Str(t)),
            None => Err("bad base64"@),
        }
    } else {
        Ok(ValueModel::Str(s))
    }
}

/// Whether `name` is the name of an element that holds nothing but text.
pub open spec fn is_simple(name: Seq<char>) -> bool {
    ||| name == "int"@
    ||| name == "i4"@
    ||| name == "i8"@
    ||| name == "boolean"@
    ||| name == "double"@
    ||| name == "string"@
    ||| name == "base64"@
}

/// The content of a `value` element whose content starts at `pos`, and the position behind it.
pub open spec fn content_at(toks: Seq<TokModel>, pos: int) -> Result<(ValueModel, int), Seq<char>>
    decreases toks.len() - pos, 3nat,
    when 0 <= pos <= toks.len()
{
    let p = skip_blank(toks, pos);
    match token_at(toks, p) {
        Some(TokModel::Open(name)) => {
            if is_simple(name) {
                match simple_element(toks, p, name) {
                    Ok((s, q)) => match simple_value(name, s) {
                        Ok(v) => Ok((v, q)),
                        Err(e) => Err(e),
                    },
                    Err(e) => Err(e),
                }
            } else if name == "array"@ {
                proof {
                    lemma_skip_blank(toks, pos);
                }
                array_at(toks, p)
            } else if name == "struct"@ {
                proof {
                    lemma_skip_blank(toks, pos);
                }
                struct_at(toks, p)
            } else {
                Err("unsupported value type <"@ + name + ">"@)
            }
        },
        Some(TokModel::SelfClose(name)) => if name == "nil"@ {
            Ok((ValueModel::Str(Seq::empty()), p + 1))
        } else {
            Ok((ValueModel::Str(Seq::empty()), p))
        },
        _ => Ok((ValueModel::Str(text_at(toks, p)), after_text(toks, p))),
    }
}

/// The `value` element at `pos`, and the position behind it.
pub open spec fn value_at(toks: Seq<TokModel>, pos: int) -> Result<(ValueModel, int), Seq<char>>
    decreases toks.len() - pos, 0nat,
    when 0 <= pos <= toks.len()
{
    match after_open(toks, pos, "value"@) {
        Err(e) => Err(e),
        Ok(q) => {
            proof {
                lemma_skip_blank(toks, pos);
            }
            match content_at(toks, q) {
                Err(e) => Err(e),
                Ok((v, r)) => match after_close(toks, r, "value"@) {
                    Ok(z) => Ok((v, z)),
                    Err(e) => Err(e),
                },
            }
        },
    }
}

/// The `array` element at `pos`, and the position behind it.
pub open spec fn array_at(toks: Seq<TokModel>, pos: int) -> Result<(ValueModel, int), Seq<char>>
    decreases toks.len() - pos, 2nat,
    when 0 <= pos <= toks.len()
{
    match after_open(toks, pos, "array"@) {
        Err(e) => Err(e),
        Ok(q) => match after_open(toks, q, "data"@) {
            Err(e) => Err(e),
            Ok(r) => {
                proof {
                    lemma_skip_blank(toks, pos);
                    lemma_skip_blank(toks, q);
                }
                match items_at(toks, r) {
                    Err(e) => Err(e),
                    Ok((items, x)) => match after_close(toks, x, "data"@) {
                        Err(e) => Err(e),
                        Ok(y) => match after_close(toks, y, "array"@) {
                            Err(e) => Err(e),
                            Ok(z) => Ok((ValueModel::Array(items), z)),
                        },
                    },
                }
            },
        },
    }
}

/// The `value` elements from `pos` on, and the position behind the last.
pub open spec fn items_at(toks: Seq<TokModel>, pos: int) -> Result<
    (Seq<ValueModel>, int),
    Seq<char>,
>
    decreases toks.len() - pos, 1nat,
    when 0 <= pos <= toks.len()
{
    let p = skip_blank(toks, pos);
    if token_at(toks, p) == Some(TokModel::Open("value"@)) {
        proof {
            lemma_skip_blank(toks, pos);
        }
        match value_at(toks, p) {
            Err(e) => Err(e),
            Ok((v, q)) => if pos < q <= toks.len() {
                match items_at(toks, q) {
                    Err(e) => Err(e),
                    Ok((rest, r)) => Ok((seq![v] + rest, r)),
                }
            } else {
                Err(Seq::empty())
            },
        }
    } else {
        Ok((Seq::empty(), p))
    }
}

/// The `struct` element at `pos`, and the position behind it.
pub open spec fn struct_at(toks: Seq<TokModel>, pos: int) -> Result<(ValueModel, int), Seq<char>>
    decreases toks.len() - pos, 2nat,
    when 0 <= pos <= toks.len()
{
    match after_open(toks, pos, "struct"@) {
        Err(e) => Err(e),
        Ok(q) => {
            proof {
                lemma_skip_blank(toks, pos);
            }
            match members_at(toks, q) {
                Err(e) => Err(e),
                Ok((members, x)) => match after_close(toks, x, "struct"@) {
                    Err(e) => Err(e),
                    Ok(z) => Ok((ValueModel::Struct(members), z)),
                },
            }
        },
    }
}

/// The name of the struct member whose opening tag comes next at `pos`, and the position behind it.
pub open spec fn member_name_at(toks: Seq<TokModel>, pos: int) -> Result<
    (Seq<char>, int),
    Seq<char>,
> {
    match after_open(toks, pos, "member"@) {
        Err(e) => Err(e),
        Ok(q) => match after_open(toks, q, "name"@) {
            Err(e) => Err(e),
            Ok(r) => match after_close(toks, after_text(toks, r), "name"@) {
                Err(e) => Err(e),
                Ok(x) => Ok((text_at(toks, r), x)),
            },
        },
    }
}

/// The position behind a struct member's name lies behind the member's start.
pub proof fn lemma_member_name_at(toks: Seq<TokModel>, pos: int)
    requires
        0 <= pos <= toks.len(),
    ensures
        match member_name_at(toks, pos) {
            Ok((_, x)) => pos < x <= toks.len(),
            Err(_) => true,
        },
{
    lemma_skip_blank(toks, pos);
    if let Ok(q) = after_open(toks, pos, "member"@) {
        lemma_skip_blank(toks, q);
        if let Ok(r) = after_open(toks, q, "name"@) {
            lemma_skip_blank(toks, after_text(toks, r));
        }
    }
}

/// The `member` elements from `pos` on, and the position behind the last.
pub open spec fn members_at(toks: Seq<TokModel>, pos: int) -> Result<
    (Seq<(Seq<char>, ValueModel)>, int),
    Seq<char>,
>
    decreases toks.len() - pos, 1nat,
    when 0 <= pos <= toks.len()
{
    let p = skip_blank(toks, pos);
    if token_at(toks, p) == Some(TokModel::Open("member"@)) {
        proof {
            lemma_skip_blank(toks, pos);
        }
        match member_name_at(toks, p) {
            Err(e) => Err(e),
            Ok((name, x)) => {
                proof {
                    lemma_member_name_at(toks, p);
                }
                match value_at(toks, x) {
                    Err(e) => Err(e),
                    Ok((v, y)) => match after_close(toks, y, "member"@) {
                        Err(e) => Err(e),
                        Ok(z) => if pos < z <= toks.len() {
                            match members_at(toks, z) {
                                Err(e) => Err(e),
                                Ok((rest, r)) => Ok((seq![(name, v)] + rest, r)),
                            }
                        } else {
                            Err(Seq::empty())
                        },
                    },
                }
            },
        }
    } else {
        Ok((Seq::empty(), p))
    }
}

// Where an element ends: behind its start, and within the list.

proof fn lemma_content_end(toks: Seq<TokModel>, pos: int)
    requires
        0 <= pos <= toks.len(),
    ensures
        content_at(toks, pos) matches Ok((_, q)) ==> pos <= q <= toks.len(),
    decreases toks.len() - pos, 3nat,
{
    lemma_skip_blank(toks, pos);
    let p = skip_blank(toks, pos);
    lemma_array_end(toks, p);
    lemma_struct_end(toks, p);
    if p < toks.len() {
        lemma_skip_blank(toks, after_text(toks, p + 1));
    }
}

proof fn lemma_value_end(toks: Seq<TokModel>, pos: int)
    requires
        0 <= pos <= toks.len(),
    ensures
        value_at(toks, pos) matches Ok((_, q)) ==> pos < q <= toks.len(),
    decreases toks.len() - pos, 0nat,
{
    lemma_skip_blank(toks, pos);
    if let Ok(q) = after_open(toks, pos, "value"@) {
        lemma_content_end(toks, q);
        if let Ok((_, r)) = content_at(toks, q) {
            lemma_skip_blank(toks, r);
        }
    }
}

proof fn lemma_array_end(toks: Seq<TokModel>, pos: int)
    requires
        0 <= pos <= toks.len(),
    ensures
        array_at(toks, pos) matches Ok((_, q)) ==> pos < q <= toks.len(),
    decreases toks.len() - pos, 2nat,
{
    lemma_skip_blank(toks, pos);
    if let Ok(q) = after_open(toks, pos, "array"@) {
        lemma_skip_blank(toks, q);
        if let Ok(r) = after_open(toks, q, "data"@) {
            lemma_items_end(toks, r);
            if let Ok((_, x)) = items_at(toks, r) {
                lemma_skip_blank(toks, x);
                if let Ok(y) = after_close(toks, x, "data"@) {
                    lemma_skip_blank(toks, y);
                }
            }
        }
    }
}

proof fn lemma_items_end(toks: Seq<TokModel>, pos: int)
    requires
        0 <= pos <= toks.len(),
    ensures
        items_at(toks, pos) matches Ok((_, q)) ==> pos <= q <= toks.len(),
    decreases toks.len() - pos, 1nat,
{
    lemma_skip_blank(toks, pos);
    let p = skip_blank(toks, pos);
    lemma_value_end(toks, p);
    if let Ok((_, q)) = value_at(toks, p) {
        lemma_items_end(toks, q);
    }
}

proof fn lemma_struct_end(toks: Seq<TokModel>, pos: int)
    requires
        0 <= pos <= toks.len(),
    ensures
        struct_at(toks, pos) matches Ok((_, q)) ==> pos < q <= toks.len(),
    decreases toks.len() - pos, 2nat,
{
    lemma_skip_blank(toks, pos);
    if let Ok(q) = after_open(toks, pos, "struct"@) {
        lemma_members_end(toks, q);
        if let Ok((_, x)) = members_at(toks, q) {
            lemma_skip_blank(toks, x);
        }
    }
}

proof fn lemma_members_end(toks: Seq<TokModel>, pos: int)
    requires
        0 <= pos <= toks.len(),
    ensures
        members_at(toks, pos) matches Ok((_, q)) ==> pos <= q <= toks.len(),
    decreases toks.len() - pos, 1nat,
{
    lemma_skip_blank(toks, pos);
    let p = skip_blank(toks, pos);
    lemma_member_name_at(toks, p);
    if let Ok((_, x)) = member_name_at(toks, p) {
        lemma_value_end(toks, x);
        if let Ok((_, y)) = value_at(toks, x) {
            lemma_skip_blank(toks, y);
            if let Ok(z) = after_close(toks, y, "member"@) {
                lemma_members_end(toks, z);
            }
        }
    }
}

/// Reads elements off a list of tokens. The position always lies within the list.
struct Parser {
    toks: Vec<Tok>,
    pos: usize,
}

/// The text of `s` between two others.
fn joined(a: &str, s: &str, b: &str) -> (r: String)
    ensures
        r@ == a@ + s@ + b@,
{
    let mut out = String::new();
    out.append(a);
    out.append(s);
    out.append(b);
    proof {
        assert(out@ =~= a@ + s@ + b@);
    }
    out
}

/// How error messages show a token.
fn show_token(t: Option<&Tok>) -> (r: String)
    ensures
        r@ == token_shown(
            match t {
                Some(k) => Some(k@),
                None => None,
            },
        ),
{
    match t {
        None => "None".to_string(),
        Some(Tok::Open(s)) => joined("Some(Open(", text::debug_string(s.as_str()).as_str(), "))"),
        Some(Tok::Close(s)) => joined("Some(Close(", text::debug_string(s.as_str()).as_str(), "))"),
        Some(Tok::SelfClose(s)) => joined(
            "Some(SelfClose(",
            text::debug_string(s.as_str()).as_str(),
            "))",
        ),
        Some(Tok::Text(s)) => joined("Some(Text(", text::debug_string(s.as_str()).as_str(), "))"),
    }
}

impl Parser {
    spec fn wf(&self) -> bool {
        self.pos <= self.toks@.len()
    }

    spec fn list(&self) -> Seq<TokModel> {
        tok_models(self.toks@)
    }

    spec fn at(&self) -> int {
        self.pos as int
    }

    fn new(toks: Vec<Tok>) -> (r: Self)
        ensures
            r.wf(),
            r.list() == tok_models(toks@),
            r.at() == 0,
    {
        Parser { toks, pos: 0 }
    }

    /// Skips blank text.
    fn skip(&mut self)
        requires
            old(self).wf(),
        ensures
            final(self).wf(),
            final(self).list() == old(self).list(),
            final(self).at() == skip_blank(old(self).list(), old(self).at()),
    {
        let ghost list = self.list();
        let ghost start = self.at();
        loop
            invariant
                self.wf(),
                self.list() == list,
                skip_blank(list, self.at()) == skip_blank(list, start),
            ensures
                self.wf(),
                self.list() == list,
                self.at() == skip_blank(list, start),
            decreases self.toks@.len() - self.pos,
        {
            if self.pos == self.toks.len() {
                break;
            }
            proof {
                assert(list[self.at()] == self.toks@[self.at()]@);
            }
            let blank = match &self.toks[self.pos] {
                Tok::Text(t) => {
                    let c = text::chars_of(t.as_str());
                    text::trim(c.as_slice()).len() == 0
                },
                _ => false,
            };
            if !blank {
                break;
            }
            self.pos = self.pos + 1;
        }
    }

    /// The token at the current position.
    fn current(&self) -> (r: Option<&Tok>)
        requires
            self.wf(),
        ensures
            match r {
                Some(t) => token_at(self.list(), self.at()) == Some(t@),
                None => token_at(self.list(), self.at()) is None,
            },
    {
        if self.pos < self.toks.len() {
            proof {
                assert(self.list()[self.at()] == self.toks@[self.at()]@);
            }
            Some(&self.toks[self.pos])
        } else {
            None
        }
    }

    /// Moves past the current token.
    fn advance(&mut self)
        requires
            old(self).wf(),
            token_at(old(self).list(), old(self).at()) is Some,
        ensures
            final(self).wf(),
            final(self).list() == old(self).list(),
            final(self).at() == old(self).at() + 1,
    {
        if self.pos < self.toks.len() {
            self.pos = self.pos + 1;
        }
    }

    /// Whether the current token is the opening tag `name`.
    fn opens(&self, name: &str) -> (r: bool)
        requires
            self.wf(),
        ensures
            r == (token_at(self.list(), self.at()) == Some(TokModel::Open(name@))),
    {
        match self.current() {
            Some(Tok::Open(n)) => text::same(n.as_str(), name),
            _ => false,
        }
    }

    /// Whether the next token that is not blank text is the opening tag `name`.
    fn next_opens(&mut self, name: &str) -> (r: bool)
        requires
            old(self).wf(),
        ensures
            final(self).wf(),
            final(self).list() == old(self).list(),
            final(self).at() == skip_blank(old(self).list(), old(self).at()),
            r == (token_at(final(self).list(), final(self).at()) == Some(TokModel::Open(name@))),
    {
        self.skip();
        self.opens(name)
    }

    /// Takes the opening tag `name`, which must come next.
    fn expect_open(&mut self, name: &str) -> (r: Result<(), String>)
        requires
            old(self).wf(),
        ensures
            final(self).wf(),
            final(self).list() == old(self).list(),
            match after_open(old(self).list(), old(self).at(), name@) {
                Ok(q) => r is Ok && final(self).at() == q && old(self).at() < q,
                Err(e) => r matches Err(m) && m@ == e,
            },
    {
        proof {
            lemma_skip_blank(self.list(), self.at());
        }
        if self.next_opens(name) {
            self.advance();
            return Ok(());
        }
        let shown = show_token(self.current());
        let mut e = joined("expected <", name, ">, got ");
        e.append(shown.as_str());
        Err(e)
    }

    /// Takes the closing tag `name`, which must come next.
    fn expect_close(&mut self, name: &str) -> (r: Result<(), String>)
        requires
            old(self).wf(),
        ensures
            final(self).wf(),
            final(self).list() == old(self).list(),
            match after_close(old(self).list(), old(self).at(), name@) {
                Ok(q) => r is Ok && final(self).at() == q && old(self).at() < q,
                Err(e) => r matches Err(m) && m@ == e,
            },
    {
        proof {
            lemma_skip_blank(self.list(), self.at());
        }
        self.skip();
        let matches_name = match self.current() {
            Some(Tok::Close(n)) => text::same(n.as_str(), name),
            _ => false,
        };
        if matches_name {
            self.advance();
            return Ok(());
        }
        let shown = show_token(self.current());
        let mut e = joined("expected </", name, ">, got ");
        e.append(shown.as_str());
        Err(e)
    }

    /// Takes the text at the current position; empty when there is none.
    fn read_text(&mut self) -> (r: String)
        requires
            old(self).wf(),
        ensures
            final(self).wf(),
            final(self).list() == old(self).list(),
            r@ == text_at(old(self).list(), old(self).at()),
            final(self).at() == after_text(old(self).list(), old(self).at()),
    {
        let found = match self.current() {
            Some(Tok::Text(t)) => Some(t.clone()),
            _ => None,
        };
        match found {
            Some(t) => {
                self.advance();
                t
            },
            None => String::new(),
        }
    }

    /// Parses a `value` element.
    fn parse_value(&mut self) -> (r: Result<Value, String>)
        requires
            old(self).wf(),
        ensures
            final(self).wf(),
            final(self).list() == old(self).list(),
            match value_at(old(self).list(), old(self).at()) {
                Ok((v, q)) => r matches Ok(w) && w@ == v && final(self).at() == q
                    && old(self).at() < q,
                Err(e) => r matches Err(m) && m@ == e,
            },
        decreases old(self).toks@.len() - old(self).pos, 0nat,
    {
        let ghost list = self.list();
        proof {
            lemma_value_end(list, self.at());
        }
        self.expect_open("value")?;
        let value = self.parse_content()?;
        self.expect_close("value")?;
        Ok(value)
    }

    /// Parses what stands inside a `value` element.
    fn parse_content(&mut self) -> (r: Result<Value, String>)
        requires
            old(self).wf(),
        ensures
            final(self).wf(),
            final(self).list() == old(self).list(),
            match content_at(old(self).list(), old(self).at()) {
                Ok((v, q)) => r matches Ok(w) && w@ == v && final(self).at() == q,
                Err(e) => r matches Err(m) && m@ == e,
            },
        decreases old(self).toks@.len() - old(self).pos, 3nat,
    {
        proof {
            lemma_skip_blank(self.list(), self.at());
        }
        self.skip();
        let (opens, name) = match self.current() {
            Some(Tok::Open(n)) => (true, n.clone()),
            Some(Tok::SelfClose(n)) => (false, n.clone()),
            _ => {
                return Ok(Value::Str(self.read_text()));
            },
        };
        if !opens {
            if text::same(name.as_str(), "nil") {
                self.advance();
            }
            return Ok(Value::Str(String::new()));
        }
        if text::same(name.as_str(), "array") {
            proof {
                lemma_simple_names();
            }
            return self.parse_array();
        }
        if text::same(name.as_str(), "struct") {
            proof {
                lemma_simple_names();
            }
            return self.parse_struct();
        }
        let n = name.as_str();
        let number = text::same(n, "int") || text::same(n, "i4") || text::same(n, "i8");
        let boolean = text::same(n, "boolean");
        let double = text::same(n, "double");
        let base64 = text::same(n, "base64");
        if !(number || boolean || double || base64 || text::same(n, "string")) {
            return Err(joined("unsupported value type <", n, ">"));
        }
        self.advance();
        let s = self.read_text();
        self.expect_close(n)?;
        let c = text::chars_of(s.as_str());
        let t = text::trim(c.as_slice());
        if number {
            match number::parse_signed(t, i64::MIN, i64::MAX) {
                Some(i) => Ok(Value::Int(i)),
                None => Err("bad int".to_string()),
            }
        } else if boolean {
            Ok(Value::Bool(text::spells(t, "1")))
        } else if double {
            if double_text(t) {
                Ok(Value::Double(text::string_of(t)))
            } else {
                Err("bad double".to_string())
            }
        } else if base64 {
            match read_base64(s.as_str()) {
                Some(t) => Ok(Value::Str(t)),
                None => Err("bad base64".to_string()),
            }
        } else {
            Ok(Value::Str(s))
        }
    }

    /// Parses an `array` element.
    fn parse_array(&mut self) -> (r: Result<Value, String>)
        requires
            old(self).wf(),
        ensures
            final(self).wf(),
            final(self).list() == old(self).list(),
            match array_at(old(self).list(), old(self).at()) {
                Ok((v, q)) => r matches Ok(w) && w@ == v && final(self).at() == q,
                Err(e) => r matches Err(m) && m@ == e,
            },
        decreases old(self).toks@.len() - old(self).pos, 2nat,
    {
        self.expect_open("array")?;
        self.expect_open("data")?;
        proof {
            lemma_items_end(self.list(), self.at());
        }
        let items = self.parse_items()?;
        self.expect_close("data")?;
        self.expect_close("array")?;
        Ok(Value::Array(items))
    }

    /// Parses the `value` elements that come next.
    fn parse_items(&mut self) -> (r: Result<Vec<Value>, String>)
        requires
            old(self).wf(),
        ensures
            final(self).wf(),
            final(self).list() == old(self).list(),
            match items_at(old(self).list(), old(self).at()) {
                Ok((v, q)) => r matches Ok(w) && value_models(w@) == v && final(self).at() == q,
                Err(e) => r matches Err(m) && m@ == e,
            },
        decreases old(self).toks@.len() - old(self).pos, 1nat,
    {
        let ghost list = self.list();
        let ghost start = self.at();
        let mut items: Vec<Value> = Vec::new();
        proof {
            if let Ok((all, _)) = items_at(list, start) {
                assert(value_models(items@) + all =~= all);
            }
        }
        loop
            invariant
                self.wf(),
                self.list() == list,
                start <= self.at(),
                old(self).list() == list,
                old(self).at() == start,
                match (items_at(list, start), items_at(list, self.at())) {
                    (Ok((all, end)), Ok((rest, q))) => end == q && all == value_models(items@)
                        + rest,
                    (Err(e), Err(m)) => e == m,
                    _ => false,
                },
            decreases list.len() - self.at(),
        {
            let ghost before = items@;
            proof {
                lemma_skip_blank(list, self.at());
            }
            if !self.next_opens("value") {
                proof {
                    assert(value_models(items@) + Seq::<ValueModel>::empty() =~= value_models(
                        items@,
                    ));
                }
                return Ok(items);
            }
            proof {
                lemma_value_end(list, self.at());
            }
            let v = self.parse_value()?;
            items.push(v);
            proof {
                assert(items@.subrange(0, items@.len() - 1) =~= before);
                assert(value_models(items@) =~= value_models(before) + seq![v@]);
                if let Ok((rest, _)) = items_at(list, self.at()) {
                    assert(value_models(before) + (seq![v@] + rest) =~= value_models(items@)
                        + rest);
                }
            }
        }
    }

    /// Parses a `struct` element.
    fn parse_struct(&mut self) -> (r: Result<Value, String>)
        requires
            old(self).wf(),
        ensures
            final(self).wf(),
            final(self).list() == old(self).list(),
            match struct_at(old(self).list(), old(self).at()) {
                Ok((v, q)) => r matches Ok(w) && w@ == v && final(self).at() == q,
                Err(e) => r matches Err(m) && m@ == e,
            },
        decreases old(self).toks@.len() - old(self).pos, 2nat,
    {
        self.expect_open("struct")?;
        proof {
            lemma_members_end(self.list(), self.at());
        }
        let members = self.parse_members()?;
        self.expect_close("struct")?;
        Ok(Value::Struct(members))
    }

    /// Parses the opening tag and the name of a struct member.
    fn parse_member_name(&mut self) -> (r: Result<String, String>)
        requires
            old(self).wf(),
        ensures
            final(self).wf(),
            final(self).list() == old(self).list(),
            match member_name_at(old(self).list(), old(self).at()) {
                Ok((v, q)) => r matches Ok(w) && w@ == v && final(self).at() == q,
                Err(e) => r matches Err(m) && m@ == e,
            },
    {
        self.expect_open("member")?;
        self.expect_open("name")?;
        let name = self.read_text();
        self.expect_close("name")?;
        Ok(name)
    }

    /// Parses the `member` elements that come next.
    fn parse_members(&mut self) -> (r: Result<Vec<(String, Value)>, String>)
        requires
            old(self).wf(),
        ensures
            final(self).wf(),
            final(self).list() == old(self).list(),
            match members_at(old(self).list(), old(self).at()) {
                Ok((v, q)) => r matches Ok(w) && member_models(w@) == v && final(self).at() == q,
                Err(e) => r matches Err(m) && m@ == e,
            },
        decreases old(self).toks@.len() - old(self).pos, 1nat,
    {
        let ghost list = self.list();
        let ghost start = self.at();
        let mut members: Vec<(String, Value)> = Vec::new();
        proof {
            if let Ok((all, _)) = members_at(list, start) {
                assert(member_models(members@) + all =~= all);
            }
        }
        loop
            invariant
                self.wf(),
                self.list() == list,
                start <= self.at(),
                old(self).list() == list,
                old(self).at() == start,
                match (members_at(list, start), members_at(list, self.at())) {
                    (Ok((all, end)), Ok((rest, q))) => end == q && all == member_models(members@)
                        + rest,
                    (Err(e), Err(m)) => e == m,
                    _ => false,
                },
            decreases list.len() - self.at(),
        {
            let ghost before = members@;
            proof {
                lemma_skip_blank(list, self.at());
            }
            if !self.next_opens("member") {
                proof {
                    assert(member_models(members@) + Seq::<(Seq<char>, ValueModel)>::empty()
                        =~= member_models(members@));
                }
                return Ok(members);
            }
            proof {
                lemma_member_name_at(list, self.at());
            }
            let name = self.parse_member_name()?;
            proof {
                lemma_value_end(list, self.at());
            }
            let value = self.parse_value()?;
            self.expect_close("member")?;
            let ghost member = (name@, value@);
            members.push((name, value));
            proof {
                assert(members@.subrange(0, members@.len() - 1) =~= before);
                assert(member_models(members@) =~= member_models(before) + seq![member]);
                if let Ok((rest, _)) = members_at(list, self.at()) {
                    assert(member_models(before) + (seq![member] + rest) =~= member_models(
                        members@,
                    ) + rest);
                }
            }
        }
    }
}

/// The two compound types are no simple ones.
pub proof fn lemma_simple_names()
    ensures
        !is_simple("array"@),
        !is_simple("struct"@),
{
    reveal_strlit("int");
    reveal_strlit("i4");
    reveal_strlit("i8");
    reveal_strlit("boolean");
    reveal_strlit("double");
    reveal_strlit("string");
    reveal_strlit("base64");
    reveal_strlit("array");
    reveal_strlit("struct");
    assert("array"@.len() == 5);
    assert("boolean"@.len() == 7);
    assert("struct"@[0] == 's');
    assert("struct"@[2] == 'r');
    assert("string"@[3] == 'i');
    assert("struct"@[3] == 'u');
}

// ---------------------------------------------------------------------------
// Documents
// ---------------------------------------------------------------------------

/// The values of the `param` elements from `pos` on, and the position behind the last.
pub open spec fn params_at(toks: Seq<TokModel>, pos: int) -> Result<
    (Seq<ValueModel>, int),
    Seq<char>,
>
    decreases toks.len() - pos,
    when 0 <= pos <= toks.len()
{
    let p = skip_blank(toks, pos);
    if token_at(toks, p) == Some(TokModel::Open("param"@)) {
        match value_at(toks, p + 1) {
            Err(e) => Err(e),
            Ok((v, r)) => match after_close(toks, r, "param"@) {
                Err(e) => Err(e),
                Ok(z) => if pos < z <= toks.len() {
                    match params_at(toks, z) {
                        Err(e) => Err(e),
                        Ok((rest, y)) => Ok((seq![v] + rest, y)),
                    }
                } else {
                    Err(Seq::empty())
                },
            },
        }
    } else {
        Ok((Seq::empty(), p))
    }
}

/// The method name and the parameters of a method call document, or why it is none.
pub open spec fn call_of(body: Seq<char>) -> Result<(Seq<char>, Seq<ValueModel>), Seq<char>> {
    let toks = tokens(body);
    match after_open(toks, 0, "methodCall"@) {
        Err(e) => Err(e),
        Ok(a) => match after_open(toks, a, "methodName"@) {
            Err(e) => Err(e),
            Ok(b) => match after_close(toks, after_text(toks, b), "methodName"@) {
                Err(e) => Err(e),
                Ok(c) => {
                    let method = text::trimmed(text_at(toks, b));
                    let p = skip_blank(toks, c);
                    if token_at(toks, p) == Some(TokModel::Open("params"@)) {
                        match params_at(toks, p + 1) {
                            Err(e) => Err(e),
                            Ok((params, d)) => match after_close(toks, d, "params"@) {
                                Err(e) => Err(e),
                                Ok(_) => Ok((method, params)),
                            },
                        }
                    } else {
                        Ok((method, Seq::empty()))
                    }
                },
            },
        },
    }
}

/// The value of the first member called `name`.
pub open spec fn member_value(members: Seq<(Seq<char>, ValueModel)>, name: Seq<char>) -> Option<
    ValueModel,
>
    decreases members.len(),
{
    if members.len() == 0 {
        None
    } else if members[0].0 == name {
        Some(members[0].1)
    } else {
        member_value(members.skip(1), name)
    }
}

/// The code of a fault: the low 32 bits of its `faultCode`, -1 when that is missing or no integer.
pub open spec fn fault_code(members: Seq<(Seq<char>, ValueModel)>) -> i32 {
    match member_value(members, "faultCode"@) {
        Some(ValueModel::Int(i)) => i as i32,
        _ => -1i32,
    }
}

/// The message of a fault; empty when it is missing or no string.
pub open spec fn fault_text(members: Seq<(Seq<char>, ValueModel)>) -> Seq<char> {
    match member_value(members, "faultString"@) {
        Some(ValueModel::Str(s)) => s,
        _ => Seq::empty(),
    }
}

/// What a response document says.
#[derive(Debug, PartialEq)]
pub enum Response {
    /// The call returned a value.
    Value(Value),
    /// The call ended with a fault: its code and its message.
    Fault(i32, String),
    /// The document is no response, for this reason.
    Malformed(String),
}

/// The mathematical content of a [`Response`].
pub enum ResponseModel {
    Value(ValueModel),
    Fault(i32, Seq<char>),
    Malformed(Seq<char>),
}

impl View for Response {
    type V = ResponseModel;

    open spec fn view(&self) -> ResponseModel {
        match self {
            Response::Value(v) => ResponseModel::Value(v@),
            Response::Fault(c, m) => ResponseModel::Fault(*c, m@),
            Response::Malformed(m) => ResponseModel::Malformed(m@),
        }
    }
}

/// What a document says as a response.
pub open spec fn response_in(xml: Seq<char>) -> ResponseModel {
    let toks = tokens(xml);
    match after_open(toks, 0, "methodResponse"@) {
        Err(e) => ResponseModel::Malformed(e),
        Ok(a) => {
            let p = skip_blank(toks, a);
            if token_at(toks, p) == Some(TokModel::Open("fault"@)) {
                match value_at(toks, p + 1) {
                    Err(e) => ResponseModel::Malformed(e),
                    Ok((ValueModel::Struct(members), _)) => ResponseModel::Fault(
                        fault_code(members),
                        fault_text(members),
                    ),
                    Ok(_) => ResponseModel::Malformed("malformed fault"@),
                }
            } else if token_at(toks, p) == Some(TokModel::Open("params"@)) {
                match after_open(toks, p + 1, "param"@) {
                    Err(e) => ResponseModel::Malformed(e),
                    Ok(b) => match value_at(toks, b) {
                        Err(e) => ResponseModel::Malformed(e),
                        Ok((v, _)) => ResponseModel::Value(v),
                    },
                }
            } else {
                ResponseModel::Malformed(
                    "unexpected response content: "@ + token_shown(token_at(toks, p)),
                )
            }
        },
    }
}

/// The value that a response document carries, or the code and message of its
/// fault; -1 and what is wrong when it is no response.
pub open spec fn response_of(xml: Seq<char>) -> Result<ValueModel, (i32, Seq<char>)> {
    match response_in(xml) {
        ResponseModel::Value(v) => Ok(v),
        ResponseModel::Fault(c, m) => Err((c, m)),
        ResponseModel::Malformed(m) => Err((-1i32, m)),
    }
}

impl Parser {
    /// Parses the `param` elements that come next.
    fn parse_params(&mut self) -> (r: Result<Vec<Value>, String>)
        requires
            old(self).wf(),
        ensures
            final(self).wf(),
            final(self).list() == old(self).list(),
            match params_at(old(self).list(), old(self).at()) {
                Ok((v, q)) => r matches Ok(w) && value_models(w@) == v && final(self).at() == q,
                Err(e) => r matches Err(m) && m@ == e,
            },
    {
        let ghost list = self.list();
        let ghost start = self.at();
        let mut params: Vec<Value> = Vec::new();
        proof {
            if let Ok((all, _)) = params_at(list, start) {
                assert(value_models(params@) + all =~= all);
            }
        }
        loop
            invariant
                self.wf(),
                self.list() == list,
                old(self).list() == list,
                old(self).at() == start,
                match (params_at(list, start), params_at(list, self.at())) {
                    (Ok((all, end)), Ok((rest, q))) => end == q && all == value_models(params@)
                        + rest,
                    (Err(e), Err(m)) => e == m,
                    _ => false,
                },
            decreases list.len() - self.at(),
        {
            let ghost before = params@;
            proof {
                lemma_skip_blank(list, self.at());
            }
            if !self.next_opens("param") {
                proof {
                    assert(value_models(params@) + Seq::<ValueModel>::empty() =~= value_models(
                        params@,
                    ));
                }
                return Ok(params);
            }
            self.advance();
            let v = self.parse_value()?;
            self.expect_close("param")?;
            params.push(v);
            proof {
                assert(params@.subrange(0, params@.len() - 1) =~= before);
                assert(value_models(params@) =~= value_models(before) + seq![v@]);
                if let Ok((rest, _)) = params_at(list, self.at()) {
                    assert(value_models(before) + (seq![v@] + rest) =~= value_models(params@)
                        + rest);
                }
            }
        }
    }
}

/// Parses a method call document into the method name and the parameters.
pub fn parse_method_call(body: &str) -> (r: Result<(String, Vec<Value>), String>)
    ensures
        match call_of(body@) {
            Ok((method, params)) => r matches Ok((m, ps)) && m@ == method && value_models(ps@)
                == params,
            Err(e) => r matches Err(m) && m@ == e,
        },
{
    let mut p = Parser::new(tokenize(body));
    p.expect_open("methodCall")?;
    p.expect_open("methodName")?;
    let name = p.read_text();
    let c = text::chars_of(name.as_str());
    let method = text::string_of(text::trim(c.as_slice()));
    p.expect_close("methodName")?;
    if p.next_opens("params") {
        p.advance();
        let params = p.parse_params()?;
        p.expect_close("params")?;
        return Ok((method, params));
    }
    let none: Vec<Value> = Vec::new();
    proof {
        assert(value_models(none@) =~= Seq::<ValueModel>::empty());
    }
    Ok((method, none))
}

/// The first member called `name`.
fn find_member<'a>(members: &'a Vec<(String, Value)>, name: &str) -> (r: Option<&'a Value>)
    ensures
        match r {
            Some(v) => member_value(member_models(members@), name@) == Some(v@),
            None => member_value(member_models(members@), name@) is None,
        },
{
    let ghost models = member_models(members@);
    let mut i: usize = 0;
    proof {
        lemma_member_models(members@);
        assert(models.skip(0) =~= models);
    }
    while i < members.len()
        invariant
            i <= members@.len(),
            models == member_models(members@),
            models.len() == members@.len(),
            forall|k: int|
                0 <= k < members@.len() ==> #[trigger] models[k] == (
                    members@[k].0@,
                    members@[k].1@,
                ),
            member_value(models, name@) == member_value(models.skip(i as int), name@),
        decreases members@.len() - i,
    {
        proof {
            assert(models.skip(i as int)[0] == models[i as int]);
            assert(models.skip(i as int).skip(1) =~= models.skip(i as int + 1));
        }
        if text::same(members[i].0.as_str(), name) {
            return Some(&members[i].1);
        }
        i = i + 1;
    }
    None
}

/// The code and message of a fault's members.
fn read_fault(members: &Vec<(String, Value)>) -> (r: (i32, String))
    ensures
        r.0 == fault_code(member_models(members@)),
        r.1@ == fault_text(member_models(members@)),
{
    let code: i32 = match find_member(members, "faultCode") {
        Some(Value::Int(i)) => #[verifier::truncate] (*i as i32),
        _ => -1,
    };
    let msg = match find_member(members, "faultString") {
        Some(Value::Str(s)) => s.clone(),
        _ => String::new(),
    };
    (code, msg)
}

/// Parses a response document.
pub fn read_response(xml: &str) -> (r: Response)
    ensures
        r@ == response_in(xml@),
{
    let mut p = Parser::new(tokenize(xml));
    match p.expect_open("methodResponse") {
        Ok(_) => {},
        Err(e) => {
            return Response::Malformed(e);
        },
    }
    p.skip();
    if p.opens("fault") {
        p.advance();
        return match p.parse_value() {
            Err(e) => Response::Malformed(e),
            Ok(Value::Struct(members)) => {
                let (code, message) = read_fault(&members);
                Response::Fault(code, message)
            },
            Ok(_) => Response::Malformed("malformed fault".to_string()),
        };
    }
    if p.opens("params") {
        p.advance();
        return match p.expect_open("param") {
            Err(e) => Response::Malformed(e),
            Ok(_) => match p.parse_value() {
                Err(e) => Response::Malformed(e),
                Ok(v) => Response::Value(v),
            },
        };
    }
    let shown = show_token(p.current());
    let mut e = "unexpected response content: ".to_string();
    e.append(shown.as_str());
    Response::Malformed(e)
}

/// Parses a response document into the value it carries, or the code and
/// message of its fault; -1 and what is wrong when it is no response.
pub fn parse_method_response(xml: &str) -> (r: Result<Value, (i32, String)>)
    ensures
        match response_of(xml@) {
            Ok(v) => r matches Ok(w) && w@ == v,
            Err((code, msg)) => r matches Err((c, m)) && c == code && m@ == msg,
        },
{
    match read_response(xml) {
        Response::Value(v) => Ok(v),
        Response::Fault(code, message) => Err((code, message)),
        Response::Malformed(message) => Err((-1, message)),
    }
}

// ---------------------------------------------------------------------------
// Serialisation
// ---------------------------------------------------------------------------

/// `<name>`
pub open spec fn open_tag(name: Seq<char>) -> Seq<char> {
    "<"@ + name + ">"@
}

/// `</name>`
pub open spec fn close_tag(name: Seq<char>) -> Seq<char> {
    "</"@ + name + ">"@
}

/// `<name>body</name>`
pub open spec fn element(name: Seq<char>, body: Seq<char>) -> Seq<char> {
    open_tag(name) + body + close_tag(name)
}

/// The `value` element of a value.
pub open spec fn value_text(v: ValueModel) -> Seq<char>
    decreases v, 1nat,
{
    element("value"@, content_text(v))
}

/// What stands inside the `value` element of a value.
pub open spec fn content_text(v: ValueModel) -> Seq<char>
    decreases v, 0nat,
{
    match v {
        ValueModel::Int(i) => element("int"@, number::int_text(i)),
        ValueModel::Bool(b) => element("boolean"@, seq![if b { '1' } else { '0' }]),
        ValueModel::Str(s) => element("string"@, escaped(s)),
        ValueModel::Double(s) => element("double"@, s),
        ValueModel::Array(items) => element("array"@, element("data"@, values_text(items))),
        ValueModel::Struct(members) => element("struct"@, members_text(members)),
    }
}

/// The `value` elements of a list of values.
pub open spec fn values_text(s: Seq<ValueModel>) -> Seq<char>
    decreases s, 2nat,
{
    if s.len() == 0 {
        Seq::empty()
    } else {
        value_text(s[0]) + values_text(s.subrange(1, s.len() as int))
    }
}

/// The `member` elements of a struct.
pub open spec fn members_text(s: Seq<(Seq<char>, ValueModel)>) -> Seq<char>
    decreases s, 2nat,
{
    if s.len() == 0 {
        Seq::empty()
    } else {
        element("member"@, element("name"@, escaped(s[0].0)) + value_text(s[0].1)) + members_text(
            s.subrange(1, s.len() as int),
        )
    }
}

/// The `param` elements of a list of values.
pub open spec fn params_text(s: Seq<ValueModel>) -> Seq<char>
    decreases s.len(),
{
    if s.len() == 0 {
        Seq::empty()
    } else {
        element("param"@, value_text(s[0])) + params_text(s.skip(1))
    }
}

/// A document with the given root element.
pub open spec fn document(root: Seq<char>) -> Seq<char> {
    "<?xml version=\"1.0\"?>\n"@ + root + "\n"@
}

/// The response that carries a value.
pub open spec fn response_text(v: ValueModel) -> Seq<char> {
    document(element("methodResponse"@, element("params"@, element("param"@, value_text(v)))))
}

/// The call of a method.
pub open spec fn call_text(method: Seq<char>, params: Seq<ValueModel>) -> Seq<char> {
    document(
        element(
            "methodCall"@,
            element("methodName"@, escaped(method)) + element("params"@, params_text(params)),
        ),
    )
}

/// The value inside a fault.
pub open spec fn fault_value(code: int, message: Seq<char>) -> ValueModel {
    ValueModel::Struct(
        seq![
            ("faultCode"@, ValueModel::Int(code)),
            ("faultString"@, ValueModel::Str(message)),
        ],
    )
}

/// The response that reports a fault.
pub open spec fn fault_document(code: int, message: Seq<char>) -> Seq<char> {
    document(
        element("methodResponse"@, element("fault"@, value_text(fault_value(code, message)))),
    )
}

fn push_open(out: &mut String, name: &str)
    ensures
        final(out)@ == old(out)@ + open_tag(name@),
{
    let ghost before = out@;
    out.append("<");
    out.append(name);
    out.append(">");
    proof {
        assert(out@ =~= before + open_tag(name@));
    }
}

fn push_close(out: &mut String, name: &str)
    ensures
        final(out)@ == old(out)@ + close_tag(name@),
{
    let ghost before = out@;
    out.append("</");
    out.append(name);
    out.append(">");
    proof {
        assert(out@ =~= before + close_tag(name@));
    }
}

/// Appends `<name>body</name>`.
fn push_element(out: &mut String, name: &str, body: &str)
    ensures
        final(out)@ == old(out)@ + element(name@, body@),
{
    let ghost before = out@;
    push_open(out, name);
    out.append(body);
    push_close(out, name);
    proof {
        assert(out@ =~= before + element(name@, body@));
    }
}

/// Appends the `value` element of a value.
pub fn write_value(out: &mut String, v: &Value)
    ensures
        final(out)@ == old(out)@ + value_text(v@),
    decreases v, 1nat,
{
    let ghost before = out@;
    push_open(out, "value");
    write_content(out, v);
    push_close(out, "value");
    proof {
        assert(out@ =~= before + value_text(v@));
    }
}

/// Appends what stands inside the `value` element of a value.
fn write_content(out: &mut String, v: &Value)
    ensures
        final(out)@ == old(out)@ + content_text(v@),
    decreases v, 0nat,
{
    let ghost before = out@;
    match v {
        Value::Int(i) => {
            push_element(out, "int", number::int_string(*i).as_str());
        },
        Value::Bool(b) => {
            let digit = if *b {
                '1'
            } else {
                '0'
            };
            push_open(out, "boolean");
            out.push(digit);
            push_close(out, "boolean");
            proof {
                assert(out@ =~= before + element("boolean"@, seq![digit]));
            }
        },
        Value::Double(s) => {
            push_element(out, "double", s.as_str());
        },
        Value::Str(s) => {
            push_element(out, "string", escape(s.as_str()).as_str());
        },
        Value::Array(items) => {
            push_open(out, "array");
            push_open(out, "data");
            write_values(out, items);
            push_close(out, "data");
            push_close(out, "array");
            proof {
                let list = values_text(value_models(items@));
                assert(out@ =~= before + element("array"@, element("data"@, list)));
            }
        },
        Value::Struct(members) => {
            push_open(out, "struct");
            write_members(out, members);
            push_close(out, "struct");
            proof {
                let list = members_text(member_models(members@));
                assert(out@ =~= before + element("struct"@, list));
            }
        },
    }
}

/// Appends the `value` elements of a list of values.
fn write_values(out: &mut String, items: &Vec<Value>)
    ensures
        final(out)@ == old(out)@ + values_text(value_models(items@)),
    decreases items, 2nat,
{
    let ghost start = out@;
    let ghost models = value_models(items@);
    let mut i: usize = 0;
    proof {
        lemma_value_models(items@);
        assert(models.skip(0) =~= models);
    }
    while i < items.len()
        invariant
            i <= items@.len(),
            models == value_models(items@),
            models.len() == items@.len(),
            forall|k: int| 0 <= k < items@.len() ==> #[trigger] models[k] == items@[k]@,
            out@ + values_text(models.skip(i as int)) == start + values_text(models),
        decreases items@.len() - i,
    {
        let ghost t = models.skip(i as int);
        let ghost sofar = out@;
        proof {
            assert(decreases_to!(items => items@));
            assert(decreases_to!(items@ => items@[i as int]));
        }
        write_value(out, &items[i]);
        proof {
            assert(t.subrange(1, t.len() as int) =~= models.skip(i as int + 1));
            assert(t[0] == models[i as int]);
            let tail = values_text(models.skip(i as int + 1));
            assert(sofar + (value_text(t[0]) + tail) =~= out@ + tail);
        }
        i = i + 1;
    }
    proof {
        assert(models.skip(i as int) =~= Seq::<ValueModel>::empty());
        assert(out@ =~= start + values_text(models));
    }
}

/// Appends the `member` elements of a struct.
fn write_members(out: &mut String, members: &Vec<(String, Value)>)
    ensures
        final(out)@ == old(out)@ + members_text(member_models(members@)),
    decreases members, 2nat,
{
    let ghost start = out@;
    let ghost models = member_models(members@);
    let mut i: usize = 0;
    proof {
        lemma_member_models(members@);
        assert(models.skip(0) =~= models);
    }
    while i < members.len()
        invariant
            i <= members@.len(),
            models == member_models(members@),
            models.len() == members@.len(),
            forall|k: int|
                0 <= k < members@.len() ==> #[trigger] models[k] == (
                    members@[k].0@,
                    members@[k].1@,
                ),
            out@ + members_text(models.skip(i as int)) == start + members_text(models),
        decreases members@.len() - i,
    {
        let ghost t = models.skip(i as int);
        let ghost sofar = out@;
        let member = &members[i];
        push_open(out, "member");
        push_element(out, "name", escape(member.0.as_str()).as_str());
        proof {
            assert(decreases_to!(members => members@));
            assert(decreases_to!(members@ => members@[i as int]));
            assert(decreases_to!(members@[i as int] => members@[i as int].1));
        }
        write_value(out, &member.1);
        push_close(out, "member");
        proof {
            assert(t.subrange(1, t.len() as int) =~= models.skip(i as int + 1));
            assert(t[0] == models[i as int]);
            let tail = members_text(models.skip(i as int + 1));
            let this = element("member"@, element("name"@, escaped(t[0].0)) + value_text(t[0].1));
            assert(out@ =~= sofar + this);
            assert(sofar + (this + tail) =~= out@ + tail);
        }
        i = i + 1;
    }
    proof {
        assert(models.skip(i as int) =~= Seq::<(Seq<char>, ValueModel)>::empty());
        assert(out@ =~= start + members_text(models));
    }
}

/// Renders a successful response that carries a value.
pub fn serialize_response(value: &Value) -> (r: String)
    ensures
        r@ == response_text(value@),
{
    let mut out = "<?xml version=\"1.0\"?>\n".to_string();
    push_open(&mut out, "methodResponse");
    push_open(&mut out, "params");
    push_open(&mut out, "param");
    write_value(&mut out, value);
    push_close(&mut out, "param");
    push_close(&mut out, "params");
    push_close(&mut out, "methodResponse");
    out.append("\n");
    proof {
        assert(out@ =~= response_text(value@));
    }
    out
}

/// Renders a method call.
pub fn serialize_method_call(method: &str, params: &[Value]) -> (r: String)
    ensures
        r@ == call_text(method@, value_models(params@)),
{
    let mut out = "<?xml version=\"1.0\"?>\n".to_string();
    push_open(&mut out, "methodCall");
    push_element(&mut out, "methodName", escape(method).as_str());
    push_open(&mut out, "params");
    let ghost start = out@;
    let ghost models = value_models(params@);
    let mut i: usize = 0;
    proof {
        lemma_value_models(params@);
        assert(models.skip(0) =~= models);
    }
    while i < params.len()
        invariant
            i <= params@.len(),
            models == value_models(params@),
            models.len() == params@.len(),
            forall|k: int| 0 <= k < params@.len() ==> #[trigger] models[k] == params@[k]@,
            out@ + params_text(models.skip(i as int)) == start + params_text(models),
        decreases params@.len() - i,
    {
        let ghost t = models.skip(i as int);
        let ghost sofar = out@;
        push_open(&mut out, "param");
        write_value(&mut out, &params[i]);
        push_close(&mut out, "param");
        proof {
            assert(t.skip(1) =~= models.skip(i as int + 1));
            assert(t[0] == models[i as int]);
            let tail = params_text(models.skip(i as int + 1));
            assert(sofar + (element("param"@, value_text(t[0])) + tail) =~= out@ + tail);
        }
        i = i + 1;
    }
    proof {
        assert(models.skip(i as int) =~= Seq::<ValueModel>::empty());
        assert(out@ =~= start + params_text(models));
    }
    push_close(&mut out, "params");
    push_close(&mut out, "methodCall");
    out.append("\n");
    proof {
        assert(out@ =~= call_text(method@, models));
    }
    out
}

/// Renders a fault with the given code and message.
pub fn serialize_fault(code: i32, message: &str) -> (r: String)
    ensures
        r@ == fault_document(code as int, message@),
{
    let mut members: Vec<(String, Value)> = Vec::new();
    members.push(("faultCode".to_string(), Value::Int(code as i64)));
    members.push(("faultString".to_string(), Value::Str(message.to_string())));
    proof {
        lemma_member_models(members@);
        assert(Value::Struct(members)@->Struct_0 =~= fault_value(code as int, message@)->Struct_0);
    }
    let fault = Value::Struct(members);
    let mut out = "<?xml version=\"1.0\"?>\n".to_string();
    push_open(&mut out, "methodResponse");
    push_open(&mut out, "fault");
    write_value(&mut out, &fault);
    push_close(&mut out, "fault");
    push_close(&mut out, "methodResponse");
    out.append("\n");
    proof {
        assert(out@ =~= fault_document(code as int, message@));
    }
    out
}

} // verus!
