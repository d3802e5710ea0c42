//! Command lines: splitting into arguments, with single and double quotes
//! and backslashes. A small shell-like splitter, not a full shell.
use crate::text;
use vstd::prelude::*;
use vstd::slice::slice_subrange;

verus! {

/// Whether a character separates arguments.
pub open spec fn is_gap(c: char) -> bool {
    c == ' ' || c == '\t' || c == '\n' || c == '\r'
}

/// What stands between double quotes at the front of `s`, and how many
/// characters it takes up with the closing quote. A backslash keeps a double
/// quote or a backslash behind it; the end of the text closes the quotes too.
pub open spec fn double_quoted(s: Seq<char>) -> (Seq<char>, int)
    decreases s.len(),
{
    if s.len() == 0 {
        (Seq::empty(), 0)
    } else if s[0] == '"' {
        (Seq::empty(), 1)
    } else if s[0] == '\\' && s.len() > 1 && (s[1] == '"' || s[1] == '\\') {
        let (rest, n) = double_quoted(s.skip(2));
        (seq![s[1]] + rest, n + 2)
    } else {
        let (rest, n) = double_quoted(s.skip(1));
        (seq![s[0]] + rest, n + 1)
    }
}

/// What stands between single quotes at the front of `s`, and how many
/// characters it takes up with the closing quote.
pub open spec fn single_quoted(s: Seq<char>) -> (Seq<char>, int) {
    let n = text::first_index(s, '\'');
    if n < s.len() {
        (s.take(n), n + 1)
    } else {
        (s, n)
    }
}

/// An argument with more text added; `None` is no argument yet.
pub open spec fn grown(arg: Option<Seq<char>>, more: Seq<char>) -> Option<Seq<char>> {
    match arg {
        Some(a) => Some(a + more),
        None => Some(more),
    }
}

/// An argument, if there is one, as a list.
pub open spec fn finished(arg: Option<Seq<char>>) -> Seq<Seq<char>> {
    match arg {
        Some(a) => seq![a],
        None => Seq::empty(),
    }
}

/// The arguments of the command line `s`, where `arg` has been read of the
/// argument under way.
pub open spec fn arguments_from(s: Seq<char>, arg: Option<Seq<char>>) -> Seq<Seq<char>>
    decreases s.len(),
{
    if s.len() == 0 {
        finished(arg)
    } else if is_gap(s[0]) {
        finished(arg) + arguments_from(s.skip(1), None)
    } else if s[0] == '\'' {
        let (body, n) = single_quoted(s.skip(1));
        if 0 <= n <= s.skip(1).len() {
            arguments_from(s.skip(1 + n), grown(arg, body))
        } else {
            Seq::empty()
        }
    } else if s[0] == '"' {
        let (body, n) = double_quoted(s.skip(1));
        if 0 <= n <= s.skip(1).len() {
            arguments_from(s.skip(1 + n), grown(arg, body))
        } else {
            Seq::empty()
        }
    } else if s[0] == '\\' {
        if s.len() > 1 {
            arguments_from(s.skip(2), grown(arg, seq![s[1]]))
        } else {
            finished(grown(arg, Seq::empty()))
        }
    } else {
        arguments_from(s.skip(1), grown(arg, seq![s[0]]))
    }
}

/// The arguments of a command line.
pub open spec fn arguments(s: Seq<char>) -> Seq<Seq<char>> {
    arguments_from(s, None)
}

/// Reads what stands between double quotes from `from` on, adding it to
/// `cur`. Returns the position behind the closing quote.
fn read_double_quoted(c: &[char], from: usize, cur: &mut Vec<char>) -> (r: usize)
    requires
        from <= c@.len(),
    ensures
        from <= r <= c@.len(),
        double_quoted(c@.skip(from as int)).1 == r - from,
        final(cur)@ == old(cur)@ + double_quoted(c@.skip(from as int)).0,
{
    let ghost t = c@.skip(from as int);
    let ghost before = cur@;
    let mut i: usize = from;
    proof {
        assert(cur@ + double_quoted(t).0 =~= before + double_quoted(t).0);
    }
    while i < c.len() && c[i] != '"'
        invariant
            from <= i <= c@.len(),
            cur@ + double_quoted(c@.skip(i as int)).0 == before + double_quoted(t).0,
            i - from + double_quoted(c@.skip(i as int)).1 == double_quoted(t).1,
        decreases c@.len() - i,
    {
        let ghost sofar = cur@;
        let ghost u = c@.skip(i as int);
        proof {
            assert(u[0] == c@[i as int]);
            if i + 1 < c@.len() {
                assert(u[1] == c@[i + 1]);
            }
            assert(u.skip(1) =~= c@.skip(i + 1));
        }
        if c[i] == '\\' && i + 1 < c.len() && (c[i + 1] == '"' || c[i + 1] == '\\') {
            cur.push(c[i + 1]);
            proof {
                assert(u.skip(2) =~= c@.skip(i + 2));
                let rest = double_quoted(c@.skip(i + 2)).0;
                assert(sofar + (seq![u[1]] + rest) =~= cur@ + rest);
            }
            i = i + 2;
        } else {
            cur.push(c[i]);
            proof {
                let rest = double_quoted(c@.skip(i + 1)).0;
                assert(sofar + (seq![u[0]] + rest) =~= cur@ + rest);
            }
            i = i + 1;
        }
    }
    proof {
        let u = c@.skip(i as int);
        if i < c@.len() {
            assert(u[0] == c@[i as int]);
        }
        assert(double_quoted(u).0 =~= Seq::<char>::empty());
        assert(cur@ + Seq::<char>::empty() =~= cur@);
    }
    if i < c.len() {
        i = i + 1;
    }
    i
}

/// Splits a command line into arguments, honouring single and double quotes.
pub fn shell_split(input: &str) -> (r: Result<Vec<String>, String>)
    ensures
        r matches Ok(v) && text::texts(v@) == arguments(input@),
{
    let cv = text::chars_of(input);
    let c = cv.as_slice();
    let mut args: Vec<String> = Vec::new();
    let mut cur: Vec<char> = Vec::new();
    let mut in_arg = false;
    let mut i: usize = 0;
    proof {
        assert(c@.skip(0) =~= c@);
        assert(text::texts(args@) + arguments(c@) =~= arguments(c@));
    }
    while i < c.len()
        invariant
            c@ == input@,
            i <= c@.len(),
            !in_arg ==> cur@.len() == 0,
            text::texts(args@) + arguments_from(
                c@.skip(i as int),
                if in_arg {
                    Some(cur@)
                } else {
                    None
                },
            ) == arguments(input@),
        decreases c@.len() - i,
    {
        let ghost u = c@.skip(i as int);
        let ghost arg = if in_arg {
            Some(cur@)
        } else {
            None
        };
        let ghost held = cur@;
        let ch = c[i];
        proof {
            assert(u[0] == ch);
            assert(u.skip(1) =~= c@.skip(i + 1));
            assert(held + Seq::<char>::empty() =~= held);
            if !in_arg {
                assert(held =~= Seq::<char>::empty());
            }
        }
        if ch == ' ' || ch == '\t' || ch == '\n' || ch == '\r' {
            if in_arg {
                let ghost before = args@;
                args.push(text::string_of(cur.as_slice()));
                cur = Vec::new();
                in_arg = false;
                proof {
                    assert(text::texts(args@) =~= text::texts(before) + seq![held]);
                    let rest = arguments_from(c@.skip(i + 1), None);
                    assert(text::texts(before) + (seq![held] + rest) =~= text::texts(args@) + rest);
                }
            } else {
                proof {
                    let rest = arguments_from(c@.skip(i + 1), None);
                    assert(Seq::<Seq<char>>::empty() + rest =~= rest);
                }
            }
            i = i + 1;
        } else if ch == '\'' {
            in_arg = true;
            let rest = slice_subrange(c, i + 1, c.len());
            let n = text::find_char(rest, '\'');
            let body = slice_subrange(rest, 0, n);
            text::extend(&mut cur, body);
            proof {
                assert(rest@ =~= u.skip(1));
                assert(body@ =~= rest@.take(n as int));
                if n == rest@.len() {
                    assert(body@ =~= rest@);
                }
                assert(grown(arg, body@) == Some(cur@)) by {
                    assert(cur@ =~= held + body@);
                    assert(Seq::<char>::empty() + body@ =~= body@);
                }
            }
            if n < rest.len() {
                proof {
                    assert(u.skip(1 + (n + 1)) =~= c@.skip(i + n + 2));
                }
                i = i + n + 2;
            } else {
                proof {
                    assert(u.skip(1 + n) =~= c@.skip(c@.len() as int));
                }
                i = c.len();
            }
        } else if ch == '"' {
            in_arg = true;
            let j = read_double_quoted(c, i + 1, &mut cur);
            proof {
                let (body, n) = double_quoted(u.skip(1));
                assert(grown(arg, body) == Some(cur@)) by {
                    assert(Seq::<char>::empty() + body =~= body);
                }
                assert(u.skip(1 + n) =~= c@.skip(j as int));
            }
            i = j;
        } else if ch == '\\' {
            in_arg = true;
            if i + 1 < c.len() {
                cur.push(c[i + 1]);
                proof {
                    assert(u[1] == c@[i + 1]);
                    assert(u.skip(2) =~= c@.skip(i + 2));
                    assert(held.push(u[1]) =~= held + seq![u[1]]);
                    assert(Seq::<char>::empty() + seq![u[1]] =~= seq![u[1]]);
                    assert(grown(arg, seq![u[1]]) == Some(cur@));
                }
                i = i + 2;
            } else {
                proof {
                    assert(grown(arg, Seq::empty()) == Some(cur@));
                    assert(c@.skip(i + 1) =~= Seq::<char>::empty());
                }
                i = i + 1;
            }
        } else {
            in_arg = true;
            cur.push(ch);
            proof {
                assert(held.push(ch) =~= held + seq![ch]);
                assert(Seq::<char>::empty() + seq![ch] =~= seq![ch]);
                assert(grown(arg, seq![ch]) == Some(cur@));
            }
            i = i + 1;
        }
    }
    let ghost before = args@;
    let ghost held = cur@;
    if in_arg {
        args.push(text::string_of(cur.as_slice()));
        proof {
            assert(text::texts(args@) =~= text::texts(before) + seq![held]);
        }
    } else {
        proof {
            assert(text::texts(args@) + Seq::<Seq<char>>::empty() =~= text::texts(args@));
        }
    }
    Ok(args)
}

// ---------------------------------------------------------------------------
// Laws
// ---------------------------------------------------------------------------

/// `s` with a backslash before every double quote and backslash.
pub open spec fn backslashed(s: Seq<char>) -> Seq<char>
    decreases s.len(),
{
    if s.len() == 0 {
        Seq::empty()
    } else if s[0] == '"' || s[0] == '\\' {
        seq!['\\', s[0]] + backslashed(s.skip(1))
    } else {
        seq![s[0]] + backslashed(s.skip(1))
    }
}

/// A command line that spells out the given arguments, each in double quotes.
pub open spec fn command_line(args: Seq<Seq<char>>) -> Seq<char>
    decreases args.len(),
{
    if args.len() == 0 {
        Seq::empty()
    } else {
        seq!['"'] + backslashed(args[0]) + seq!['"', ' '] + command_line(args.skip(1))
    }
}

/// Reading a text that was put between double quotes gives it back.
proof fn lemma_backslashed(s: Seq<char>, rest: Seq<char>)
    ensures
        double_quoted(backslashed(s) + (seq!['"'] + rest)) == (
            s,
            backslashed(s).len() as int + 1,
        ),
    decreases s.len(),
{
    let tail = seq!['"'] + rest;
    let whole = backslashed(s) + tail;
    if s.len() == 0 {
        assert(whole =~= tail);
        assert(s =~= Seq::<char>::empty());
    } else {
        lemma_backslashed(s.skip(1), rest);
        let more = backslashed(s.skip(1)) + tail;
        if s[0] == '"' || s[0] == '\\' {
            assert(whole =~= seq!['\\', s[0]] + more);
            assert(whole.skip(2) =~= more);
        } else {
            assert(whole =~= seq![s[0]] + more);
            assert(whole.skip(1) =~= more);
        }
        assert(seq![s[0]] + s.skip(1) =~= s);
    }
}

/// Every list of arguments can be written as a command line: splitting what
/// `command_line` spells out gives the arguments back, whatever they hold.
pub proof fn law_quoted_arguments(args: Seq<Seq<char>>)
    ensures
        arguments(command_line(args)) == args,
    decreases args.len(),
{
    if args.len() == 0 {
        assert(args =~= Seq::<Seq<char>>::empty());
    } else {
        let a = args[0];
        let rest = command_line(args.skip(1));
        let line = command_line(args);
        let gap = seq![' '] + rest;
        let inner = backslashed(a) + (seq!['"'] + gap);
        assert(line =~= seq!['"'] + inner);
        assert(line.skip(1) =~= inner);
        lemma_backslashed(a, gap);
        let n = backslashed(a).len() as int + 1;
        assert(line.skip(1 + n) =~= gap);
        assert(arguments(line) == arguments_from(gap, Some(a)));
        assert(gap[0] == ' ');
        assert(gap.skip(1) =~= rest);
        assert(arguments_from(gap, Some(a)) == seq![a] + arguments(rest));
        law_quoted_arguments(args.skip(1));
        assert(seq![a] + args.skip(1) =~= args);
    }
}

/// Whether a character stands for itself outside quotes.
pub open spec fn is_ordinary(c: char) -> bool {
    !is_gap(c) && c != '\'' && c != '"' && c != '\\'
}

/// Whether all characters stand for themselves outside quotes.
pub open spec fn all_ordinary(s: Seq<char>) -> bool {
    forall|i: int| 0 <= i < s.len() ==> is_ordinary(#[trigger] s[i])
}

/// Words with a gap character behind each.
pub open spec fn spaced(words: Seq<Seq<char>>, gap: char) -> Seq<char>
    decreases words.len(),
{
    if words.len() == 0 {
        Seq::empty()
    } else {
        words[0] + seq![gap] + spaced(words.skip(1), gap)
    }
}

/// Ordinary characters are read as they are.
proof fn lemma_ordinary(w: Seq<char>, rest: Seq<char>, arg: Option<Seq<char>>)
    requires
        all_ordinary(w),
        w.len() > 0,
    ensures
        arguments_from(w + rest, arg) == arguments_from(rest, grown(arg, w)),
    decreases w.len(),
{
    let all = w + rest;
    assert(is_ordinary(w[0]));
    assert(all[0] == w[0]);
    let t = w.skip(1);
    assert(all.skip(1) =~= t + rest);
    let next = grown(arg, seq![w[0]]);
    if t.len() == 0 {
        assert(t + rest =~= rest);
        assert(seq![w[0]] =~= w);
    } else {
        assert forall|i: int| 0 <= i < t.len() implies is_ordinary(#[trigger] t[i]) by {
            assert(t[i] == w[i + 1]);
        }
        lemma_ordinary(t, rest, next);
        assert(seq![w[0]] + t =~= w);
        match arg {
            Some(a) => {
                assert(a + seq![w[0]] + t =~= a + w);
            },
            None => {},
        }
    }
}

/// Words without quotes and backslashes are split at the gaps between them,
/// whether those are spaces, tabs or line ends.
pub proof fn law_plain_words(words: Seq<Seq<char>>, gap: char)
    requires
        gap == ' ' || gap == '\t' || gap == '\n' || gap == '\r',
        forall|i: int| 0 <= i < words.len() ==> (#[trigger] words[i]).len() > 0,
        forall|i: int| 0 <= i < words.len() ==> all_ordinary(#[trigger] words[i]),
    ensures
        arguments(spaced(words, gap)) == words,
    decreases words.len(),
{
    if words.len() == 0 {
        assert(words =~= Seq::<Seq<char>>::empty());
    } else {
        let w = words[0];
        let t = words.skip(1);
        let rest = spaced(t, gap);
        let tail = seq![gap] + rest;
        assert(spaced(words, gap) =~= w + tail);
        assert(words[0].len() > 0);
        lemma_ordinary(w, tail, None);
        assert(tail[0] == gap);
        assert(tail.skip(1) =~= rest);
        assert forall|i: int| 0 <= i < t.len() implies (#[trigger] t[i]).len() > 0 by {
            assert(t[i] == words[i + 1]);
        }
        assert forall|i: int| 0 <= i < t.len() implies all_ordinary(#[trigger] t[i]) by {
            assert(t[i] == words[i + 1]);
        }
        law_plain_words(t, gap);
        assert(seq![w] + t =~= words);
    }
}

/// What stands between single quotes is one argument as it is, backslashes and
/// double quotes too.
pub proof fn law_single_quotes(a: Seq<char>)
    requires
        forall|i: int| 0 <= i < a.len() ==> #[trigger] a[i] != '\'',
    ensures
        arguments(seq!['\''] + a + seq!['\'']) == seq![a],
{
    let s = seq!['\''] + a + seq!['\''];
    let t = s.skip(1);
    let n = a.len() as int;
    assert(t =~= a + seq!['\'']);
    assert forall|j: int| 0 <= j < n implies t[j] != '\'' by {
        assert(t[j] == a[j]);
    }
    assert(t[n] == '\'');
    text::lemma_first_index_is(t, '\'', n);
    assert(t.take(n) =~= a);
    assert(s.skip(1 + n + 1) =~= Seq::<char>::empty());
    assert(single_quoted(t) == (a, n + 1));
    assert(s[0] == '\'');
    assert(arguments_from(Seq::<char>::empty(), Some(a)) == seq![a]);
    assert(arguments_from(s, None) == arguments_from(s.skip(1 + (n + 1)), grown(None, a)));
}

/// Outside quotes a backslash keeps the character behind it, whatever it is.
pub proof fn law_backslash(c: char, rest: Seq<char>)
    ensures
        arguments(seq!['\\', c] + rest) == arguments_from(rest, Some(seq![c])),
        arguments(seq!['\\', c]) == seq![seq![c]],
{
    let s = seq!['\\', c] + rest;
    assert(s.skip(2) =~= rest);
    let t = seq!['\\', c];
    assert(t.skip(2) =~= Seq::<char>::empty());
    assert(arguments_from(Seq::<char>::empty(), Some(seq![c])) == seq![seq![c]]);
    assert(arguments_from(t, None) == arguments_from(t.skip(2), grown(None, seq![c])));
}

/// Whether a text stands for itself between double quotes: it holds none, and
/// no backslash that would keep the character behind it.
pub open spec fn is_quotable(a: Seq<char>) -> bool {
    forall|i: int|
        0 <= i < a.len() ==> (#[trigger] a[i]) != '"' && (a[i] == '\\' ==> i + 1 < a.len()
            && a[i + 1] != '\\')
}

proof fn lemma_double_quoted(a: Seq<char>, closing: Seq<char>)
    requires
        is_quotable(a),
        closing.len() == 0 || closing == seq!['"'],
    ensures
        double_quoted(a + closing) == (a, (a.len() + closing.len()) as int),
    decreases a.len(),
{
    let s = a + closing;
    if a.len() == 0 {
        assert(s =~= closing);
        assert(a =~= Seq::<char>::empty());
    } else {
        let t = a.skip(1);
        assert(s[0] == a[0]);
        assert(s[0] != '"');
        assert(s.skip(1) =~= t + closing);
        if a[0] == '\\' {
            assert(a[1] != '\\');
            assert(a[1] != '"');
            assert(s[1] == a[1]);
        }
        assert forall|i: int| 0 <= i < t.len() implies (#[trigger] t[i]) != '"' && (t[i] == '\\'
            ==> i + 1 < t.len() && t[i + 1] != '\\') by {
            assert(t[i] == a[i + 1]);
        }
        lemma_double_quoted(t, closing);
        assert(seq![a[0]] + t =~= a);
    }
}

/// What stands between double quotes is one argument, gaps and single quotes
/// too; a backslash stays unless a double quote or another follows it. The end
/// of the line closes the quotes.
pub proof fn law_double_quotes(a: Seq<char>)
    requires
        is_quotable(a),
    ensures
        arguments(seq!['"'] + a + seq!['"']) == seq![a],
        arguments(seq!['"'] + a) == seq![a],
{
    let s = seq!['"'] + a + seq!['"'];
    let n = a.len() as int;
    assert(s.skip(1) =~= a + seq!['"']);
    lemma_double_quoted(a, seq!['"']);
    assert(s.skip(1 + (n + 1)) =~= Seq::<char>::empty());
    assert(s[0] == '"');
    assert(arguments_from(Seq::<char>::empty(), Some(a)) == seq![a]);
    assert(arguments_from(s, None) == arguments_from(s.skip(1 + (n + 1)), grown(None, a)));
    let u = seq!['"'] + a;
    assert(u.skip(1) =~= a + Seq::<char>::empty());
    lemma_double_quoted(a, Seq::empty());
    assert(u.skip(1 + n) =~= Seq::<char>::empty());
    assert(u[0] == '"');
    assert(arguments_from(u, None) == arguments_from(u.skip(1 + n), grown(None, a)));
}

/// The end of the line closes single quotes, and a backslash there begins an
/// argument that may be empty.
pub proof fn law_line_ends(a: Seq<char>)
    requires
        forall|i: int| 0 <= i < a.len() ==> #[trigger] a[i] != '\'',
    ensures
        arguments(seq!['\''] + a) == seq![a],
        arguments(seq!['\\']) == seq![Seq::<char>::empty()],
        arguments(Seq::empty()).len() == 0,
{
    let s = seq!['\''] + a;
    let n = a.len() as int;
    assert(s.skip(1) =~= a);
    text::lemma_first_index_is(a, '\'', n);
    assert(single_quoted(a) == (a, n));
    assert(s.skip(1 + n) =~= Seq::<char>::empty());
    assert(s[0] == '\'');
    assert(arguments_from(Seq::<char>::empty(), Some(a)) == seq![a]);
    assert(arguments_from(s, None) == arguments_from(s.skip(1 + n), grown(None, a)));
}

} // verus!
