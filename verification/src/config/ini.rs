//! The INI format: `[section]` headers, `key=value` lines, indented
//! continuation lines, and comments that start with `;` or `#`.
use crate::number;
use crate::text;
use vstd::prelude::*;
use vstd::slice::slice_subrange;

verus! {

/// A parsed `[section]` with its key/value pairs, in file order.
#[derive(Debug)]
pub struct Section {
    pub name: String,
    pub items: Vec<(String, String)>,
}

/// The mathematical content of a [`Section`].
#[verifier::ext_equal]
pub struct SectionModel {
    pub name: Seq<char>,
    pub items: Seq<(Seq<char>, Seq<char>)>,
}

impl View for Section {
    type V = SectionModel;

    open spec fn view(&self) -> SectionModel {
        SectionModel { name: self.name@, items: text::text_pairs(self.items@) }
    }
}

/// The contents of a list of sections.
pub open spec fn section_models(v: Seq<Section>) -> Seq<SectionModel> {
    v.map_values(|s: Section| s@)
}

// ---------------------------------------------------------------------------
// Inline comments
// ---------------------------------------------------------------------------

/// Whether an inline comment begins at `i`: a `;` behind a space or a tab.
pub open spec fn comment_at(s: Seq<char>, i: int) -> bool {
    0 < i < s.len() && s[i] == ';' && (s[i - 1] == ' ' || s[i - 1] == '\t')
}

/// Where the first inline comment at or after `from` begins; the length when there is none.
pub open spec fn comment_start(s: Seq<char>, from: int) -> int
    decreases s.len() - from,
{
    if from >= s.len() {
        s.len() as int
    } else if comment_at(s, from) {
        from
    } else {
        comment_start(s, from + 1)
    }
}

/// A value without its inline comment and without white space around it.
pub open spec fn uncommented(s: Seq<char>) -> Seq<char> {
    text::trimmed(s.take(comment_start(s, 0)))
}

/// Strips an inline comment off the characters of a value.
fn strip_comment(c: &[char]) -> (r: String)
    ensures
        r@ == uncommented(c@),
{
    let mut i: usize = 0;
    while i < c.len() && !(c[i] == ';' && i > 0 && (c[i - 1] == ' ' || c[i - 1] == '\t'))
        invariant
            i <= c@.len(),
            comment_start(c@, i as int) == comment_start(c@, 0),
        decreases c@.len() - i,
    {
        i = i + 1;
    }
    let head = slice_subrange(c, 0, i);
    proof {
        assert(head@ =~= c@.take(i as int));
    }
    text::string_of(text::trim(head))
}

/// Strips an inline `;` comment. The `;` must be preceded by white space to
/// count as a comment.
pub fn strip_inline_comment(value: &str) -> (r: String)
    ensures
        r@ == uncommented(value@),
{
    let c = text::chars_of(value);
    strip_comment(c.as_slice())
}

// ---------------------------------------------------------------------------
// Lines
// ---------------------------------------------------------------------------

/// Whether a line without the white space around it says nothing.
pub open spec fn is_remark(t: Seq<char>) -> bool {
    t.len() == 0 || t[0] == ';' || t[0] == '#'
}

/// Whether a line can continue the value before it.
pub open spec fn is_indented(raw: Seq<char>) -> bool {
    raw.len() > 0 && (raw[0] == ' ' || raw[0] == '\t')
}

/// `line <n>: `
pub open spec fn line_prefix(lineno: nat) -> Seq<char> {
    "line "@ + number::nat_text(lineno) + ": "@
}

/// Where the key of a line ends: at the first `=`, or at the first `:` when
/// there is no `=`; the length when there is neither.
pub open spec fn key_end(t: Seq<char>) -> int {
    let e = text::first_index(t, '=');
    if e < t.len() {
        e
    } else {
        text::first_index(t, ':')
    }
}

/// A section with `more` added to its last value as a line of its own.
pub open spec fn continued(s: SectionModel, more: Seq<char>) -> SectionModel {
    let last = s.items.last();
    SectionModel {
        name: s.name,
        items: s.items.drop_last().push((last.0, last.1 + seq!['\n'] + more)),
    }
}

/// The sections after one more line, or what is wrong with the line.
pub open spec fn after_line(sections: Seq<SectionModel>, lineno: nat, raw: Seq<char>) -> Result<
    Seq<SectionModel>,
    Seq<char>,
> {
    let t = text::trimmed(raw);
    if is_remark(t) {
        Ok(sections)
    } else if t[0] == '[' {
        let e = text::first_index(t, ']');
        if e == t.len() {
            Err(line_prefix(lineno) + "missing ']' in section header"@)
        } else {
            Ok(
                sections.push(
                    SectionModel { name: text::trimmed(t.subrange(1, e)), items: Seq::empty() },
                ),
            )
        }
    } else if is_indented(raw) && sections.len() > 0 && sections.last().items.len() > 0 {
        Ok(sections.drop_last().push(continued(sections.last(), t)))
    } else {
        let e = key_end(t);
        if e >= t.len() {
            Err(line_prefix(lineno) + "expected 'key=value'"@)
        } else {
            let key = text::trimmed(t.take(e));
            if sections.len() == 0 {
                Err(line_prefix(lineno) + "key '"@ + key + "' outside any [section]"@)
            } else {
                let s = sections.last();
                Ok(
                    sections.drop_last().push(
                        SectionModel {
                            name: s.name,
                            items: s.items.push((key, uncommented(t.skip(e + 1)))),
                        },
                    ),
                )
            }
        }
    }
}

/// The sections after the lines from `i` on, or what is wrong with the first bad line.
pub open spec fn after_lines(sections: Seq<SectionModel>, lines: Seq<Seq<char>>, i: int) -> Result<
    Seq<SectionModel>,
    Seq<char>,
>
    decreases lines.len() - i,
{
    if i >= lines.len() {
        Ok(sections)
    } else {
        match after_line(sections, (i + 1) as nat, lines[i]) {
            Ok(next) => after_lines(next, lines, i + 1),
            Err(e) => Err(e),
        }
    }
}

/// The sections of an INI text, or what is wrong with its first bad line.
pub open spec fn sections_of(s: Seq<char>) -> Result<Seq<SectionModel>, Seq<char>> {
    after_lines(Seq::empty(), text::pieces(s, '\n'), 0)
}

/// `line <n>: <what>`
fn line_error(lineno: usize, what: &str) -> (r: String)
    ensures
        r@ == line_prefix(lineno as nat) + what@,
{
    let mut e = "line ".to_string();
    e.append(number::nat_string(lineno as u64).as_str());
    e.append(": ");
    e.append(what);
    e
}

/// Adds a line to the last value of the last section.
fn continue_value(sections: &mut Vec<Section>, more: &[char])
    requires
        old(sections)@.len() > 0,
        old(sections)@.last().items@.len() > 0,
    ensures
        section_models(final(sections)@) == section_models(old(sections)@).drop_last().push(
            continued(section_models(old(sections)@).last(), more@),
        ),
{
    let ghost before = sections@;
    if let Some(mut sec) = sections.pop() {
        let ghost items = sec.items@;
        if let Some(mut item) = sec.items.pop() {
            let ghost value = item.1@;
            item.1.push('\n');
            item.1.append(text::string_of(more).as_str());
            proof {
                assert(item.1@ =~= value + seq!['\n'] + more@);
            }
            sec.items.push(item);
            proof {
                assert(text::text_pairs(sec.items@) =~= continued(before.last()@, more@).items);
            }
        }
        sections.push(sec);
    }
    proof {
        assert(section_models(sections@) =~= section_models(before).drop_last().push(
            continued(section_models(before).last(), more@),
        ));
    }
}

/// Adds an item to the last section.
fn push_item(sections: &mut Vec<Section>, key: String, value: String)
    requires
        old(sections)@.len() > 0,
    ensures
        section_models(final(sections)@) == section_models(old(sections)@).drop_last().push(
            (SectionModel {
                name: section_models(old(sections)@).last().name,
                items: section_models(old(sections)@).last().items.push((key@, value@)),
            }),
        ),
{
    let ghost before = sections@;
    let ghost k = key@;
    let ghost v = value@;
    if let Some(mut sec) = sections.pop() {
        sec.items.push((key, value));
        proof {
            assert(text::text_pairs(sec.items@) =~= before.last()@.items.push((k, v)));
        }
        sections.push(sec);
    }
    proof {
        assert(section_models(sections@) =~= section_models(before).drop_last().push(
            SectionModel {
                name: section_models(before).last().name,
                items: section_models(before).last().items.push((k, v)),
            },
        ));
    }
}

/// Takes one more line.
fn add_line(sections: &mut Vec<Section>, lineno: usize, raw: &[char]) -> (r: Result<(), String>)
    ensures
        match after_line(section_models(old(sections)@), lineno as nat, raw@) {
            Ok(next) => r is Ok && section_models(final(sections)@) == next,
            Err(e) => r matches Err(m) && m@ == e,
        },
{
    let ghost before = section_models(sections@);
    let t = text::trim(raw);
    if t.len() == 0 || t[0] == ';' || t[0] == '#' {
        return Ok(());
    }
    if t[0] == '[' {
        let e = text::find_char(t, ']');
        if e == t.len() {
            return Err(line_error(lineno, "missing ']' in section header"));
        }
        let name = text::string_of(text::trim(slice_subrange(t, 1, e)));
        let items: Vec<(String, String)> = Vec::new();
        proof {
            assert(text::text_pairs(items@) =~= Seq::<(Seq<char>, Seq<char>)>::empty());
        }
        let ghost n = name@;
        sections.push(Section { name, items });
        proof {
            assert(section_models(sections@) =~= before.push(
                SectionModel { name: n, items: Seq::empty() },
            ));
        }
        return Ok(());
    }
    if (raw.len() > 0 && (raw[0] == ' ' || raw[0] == '\t')) && sections.len() > 0
        && sections[sections.len() - 1].items.len() > 0 {
        continue_value(sections, t);
        return Ok(());
    }
    let mut e: usize = text::find_char(t, '=');
    if e == t.len() {
        e = text::find_char(t, ':');
    }
    if e == t.len() {
        return Err(line_error(lineno, "expected 'key=value'"));
    }
    let head = slice_subrange(t, 0, e);
    let tail = slice_subrange(t, e + 1, t.len());
    proof {
        assert(head@ =~= t@.take(e as int));
        assert(tail@ =~= t@.skip(e as int + 1));
    }
    let key = text::string_of(text::trim(head));
    if sections.len() == 0 {
        let mut what = "key '".to_string();
        what.append(key.as_str());
        what.append("' outside any [section]");
        let m = line_error(lineno, what.as_str());
        proof {
            assert(m@ =~= line_prefix(lineno as nat) + "key '"@ + key@
                + "' outside any [section]"@);
        }
        return Err(m);
    }
    push_item(sections, key, strip_comment(tail));
    Ok(())
}

/// Splits an INI text into its sections. The error says what is wrong with
/// the first bad line.
pub fn parse_ini(input: &str) -> (r: Result<Vec<Section>, String>)
    ensures
        match sections_of(input@) {
            Ok(m) => r matches Ok(v) && section_models(v@) == m,
            Err(e) => r matches Err(m) && m@ == e,
        },
{
    let c = text::chars_of(input);
    let lines = text::split(c.as_slice(), '\n');
    let ghost raw = text::pieces(input@, '\n');
    let mut sections: Vec<Section> = Vec::new();
    proof {
        assert(section_models(sections@) =~= Seq::<SectionModel>::empty());
    }
    let mut i: usize = 0;
    while i < lines.len()
        invariant
            i <= lines@.len(),
            raw == text::char_lists(lines@),
            sections_of(input@) == after_lines(section_models(sections@), raw, i as int),
        decreases lines@.len() - i,
    {
        proof {
            assert(raw[i as int] == lines@[i as int]@);
        }
        add_line(&mut sections, i + 1, lines[i].as_slice())?;
        i = i + 1;
    }
    Ok(sections)
}

// ---------------------------------------------------------------------------
// Looking up a key
// ---------------------------------------------------------------------------

/// The value that a key has: that of its last item.
pub open spec fn value_of(items: Seq<(Seq<char>, Seq<char>)>, key: Seq<char>) -> Option<Seq<char>>
    decreases items.len(),
{
    if items.len() == 0 {
        None
    } else if items.last().0 == key {
        Some(items.last().1)
    } else {
        value_of(items.drop_last(), key)
    }
}

/// The value that a key has; of several items with one key the last counts.
pub fn lookup<'a>(items: &'a [(String, String)], key: &str) -> (r: Option<&'a str>)
    ensures
        match r {
            Some(v) => value_of(text::text_pairs(items@), key@) == Some(v@),
            None => value_of(text::text_pairs(items@), key@) is None,
        },
{
    let ghost all = text::text_pairs(items@);
    let mut i: usize = items.len();
    proof {
        assert(all.take(i as int) =~= all);
    }
    while i > 0
        invariant
            i <= items@.len(),
            all == text::text_pairs(items@),
            value_of(all, key@) == value_of(all.take(i as int), key@),
        decreases i,
    {
        i = i - 1;
        proof {
            assert(all.take(i as int + 1).drop_last() =~= all.take(i as int));
            assert(all.take(i as int + 1).last() == all[i as int]);
        }
        if text::same(items[i].0.as_str(), key) {
            return Some(items[i].1.as_str());
        }
    }
    None
}

} // verus!
