//! The lines of a stream as syslog messages.
//!
//! Messages have the RFC 3164 form `<priority>tag: line`. The sender decides
//! what to send; whoever owns the socket sends it. If the socket is
//! unavailable everything is silently dropped: logging should never crash the
//! supervisor.
use crate::util;
use vstd::prelude::*;
use vstd::slice::slice_subrange;
use vstd::utf8;

verus! {

/// A line-buffered writer that turns complete lines into syslog messages,
/// tagged with a program name.
#[derive(Debug)]
pub struct Syslog {
    /// Whether there is a socket to send to.
    pub connected: bool,
    pub tag: String,
    pub buf: Vec<u8>,
}

/// How long a line may grow before it is sent without its end.
pub const MAX_LINE: usize = 1048576;

/// The complete lines of `s`, without their line feeds.
pub open spec fn complete_lines(s: Seq<u8>) -> Seq<Seq<u8>>
    decreases s.len(),
{
    let n = util::first_byte(s, 10u8);
    if 0 <= n < s.len() {
        seq![s.take(n)] + complete_lines(s.skip(n + 1))
    } else {
        Seq::empty()
    }
}

/// What follows the last line feed of `s`.
pub open spec fn last_part(s: Seq<u8>) -> Seq<u8>
    decreases s.len(),
{
    let n = util::first_byte(s, 10u8);
    if 0 <= n < s.len() {
        last_part(s.skip(n + 1))
    } else {
        s
    }
}

/// The message for a line. The priority is facility `daemon` (3) times 8 plus
/// severity `info` (6).
pub open spec fn message(tag: Seq<char>, line: Seq<u8>) -> Seq<u8> {
    utf8::encode_utf8("<30>"@ + tag + ": "@) + line
}

/// The messages for a list of lines.
pub open spec fn messages(tag: Seq<char>, lines: Seq<Seq<u8>>) -> Seq<Seq<u8>> {
    lines.map_values(|l: Seq<u8>| message(tag, l))
}

/// The lines that are due when `s` has been read: the complete ones, and the
/// last part if it has grown too long.
pub open spec fn due_lines(s: Seq<u8>) -> Seq<Seq<u8>> {
    if last_part(s).len() > MAX_LINE {
        complete_lines(s).push(last_part(s))
    } else {
        complete_lines(s)
    }
}

/// What is kept of `s` for the next read.
pub open spec fn kept_part(s: Seq<u8>) -> Seq<u8> {
    if last_part(s).len() > MAX_LINE {
        Seq::empty()
    } else {
        last_part(s)
    }
}

/// The byte strings of a list.
pub open spec fn byte_lists(v: Seq<Vec<u8>>) -> Seq<Seq<u8>> {
    v.map_values(|b: Vec<u8>| b@)
}

impl Syslog {
    /// A writer for a stream of the program `tag`; `connected` says whether
    /// there is a socket.
    pub fn new(tag: &str, connected: bool) -> (r: Self)
        ensures
            r.tag@ == tag@,
            r.connected == connected,
            r.buf@.len() == 0,
    {
        Syslog { connected, tag: tag.to_string(), buf: Vec::new() }
    }

    /// The message for one line.
    fn format(&self, line: &[u8]) -> (r: Vec<u8>)
        ensures
            r@ == message(self.tag@, line@),
    {
        let mut head = "<30>".to_string();
        head.append(self.tag.as_str());
        head.append(": ");
        let mut r = util::bytes_of(head.as_str());
        util::push_bytes(&mut r, line);
        r
    }

    /// Takes raw stream bytes. Returns the messages for the lines that are
    /// complete now; a trailing partial line is retained for the next call,
    /// unless it has grown too long.
    pub fn feed(&mut self, data: &[u8]) -> (r: Vec<Vec<u8>>)
        ensures
            final(self).tag@ == old(self).tag@,
            final(self).connected == old(self).connected,
            old(self).connected ==> byte_lists(r@) == messages(
                old(self).tag@,
                due_lines(old(self).buf@ + data@),
            ) && final(self).buf@ == kept_part(old(self).buf@ + data@),
            !old(self).connected ==> r@.len() == 0 && final(self).buf@ == old(self).buf@,
    {
        let mut out: Vec<Vec<u8>> = Vec::new();
        if !self.connected {
            return out;
        }
        util::push_bytes(&mut self.buf, data);
        let ghost all = self.buf@;
        let ghost tag = self.tag@;
        let all_len: usize = self.buf.len();
        let mut start: usize = 0;
        proof {
            assert(all.skip(0) =~= all);
            assert(byte_lists(out@) + messages(tag, complete_lines(all)) =~= messages(
                tag,
                complete_lines(all),
            ));
        }
        loop
            invariant
                self.buf@ == all,
                self.tag@ == tag,
                self.connected,
                all_len == all.len(),
                start <= all.len(),
                byte_lists(out@) + messages(tag, complete_lines(all.skip(start as int)))
                    == messages(tag, complete_lines(all)),
                last_part(all.skip(start as int)) == last_part(all),
            ensures
                self.buf@ == all,
                self.tag@ == tag,
                self.connected,
                start <= all.len(),
                byte_lists(out@) == messages(tag, complete_lines(all)),
                all.skip(start as int) == last_part(all),
            decreases all.len() - start,
        {
            let rest = slice_subrange(self.buf.as_slice(), start, all_len);
            proof {
                assert(rest@ =~= all.skip(start as int));
            }
            let n = util::find_byte(rest, 10);
            if n == rest.len() {
                proof {
                    assert(messages(tag, complete_lines(rest@)) =~= Seq::<Seq<u8>>::empty());
                    assert(byte_lists(out@) + Seq::<Seq<u8>>::empty() =~= byte_lists(out@));
                }
                break;
            }
            let line = slice_subrange(rest, 0, n);
            let ghost before = byte_lists(out@);
            let m = self.format(line);
            let ghost sent = m@;
            out.push(m);
            proof {
                assert(line@ =~= rest@.take(n as int));
                assert(rest@.skip(n as int + 1) =~= all.skip(start as int + n as int + 1));
                let later = complete_lines(all.skip(start as int + n as int + 1));
                assert(complete_lines(rest@) =~= seq![line@] + later);
                assert(messages(tag, complete_lines(rest@)) =~= seq![sent] + messages(tag, later));
                assert(byte_lists(out@) =~= before + seq![sent]);
                assert(before + (seq![sent] + messages(tag, later)) =~= byte_lists(out@) + messages(
                    tag,
                    later,
                ));
            }
            start = start + n + 1;
        }
        let rest = util::copy_bytes(slice_subrange(self.buf.as_slice(), start, all_len));
        proof {
            assert(rest@ =~= last_part(all));
        }
        if rest.len() > MAX_LINE {
            let ghost before = byte_lists(out@);
            let m = self.format(rest.as_slice());
            let ghost sent = m@;
            out.push(m);
            self.buf = Vec::new();
            proof {
                assert(byte_lists(out@) =~= before.push(sent));
                assert(messages(tag, due_lines(all)) =~= messages(tag, complete_lines(all)).push(
                    sent,
                ));
                assert(self.buf@ =~= kept_part(all));
            }
        } else {
            self.buf = rest;
        }
        out
    }
}

// ---------------------------------------------------------------------------
// Laws
// ---------------------------------------------------------------------------

/// It does not matter how a stream is cut into reads: the lines are those of
/// the whole stream.
pub proof fn law_lines_can_be_cut_anywhere(a: Seq<u8>, b: Seq<u8>)
    ensures
        complete_lines(a + b) == complete_lines(a) + complete_lines(last_part(a) + b),
        last_part(a + b) == last_part(last_part(a) + b),
    decreases a.len(),
{
    util::lemma_first_byte(a, 10u8);
    let n = util::first_byte(a, 10u8);
    if n < a.len() {
        util::lemma_first_byte(a + b, 10u8);
        let m = util::first_byte(a + b, 10u8);
        assert((a + b)[n] == a[n]);
        if m < n {
            assert((a + b)[m] == a[m]);
        }
        assert(m == n);
        assert((a + b).take(n) =~= a.take(n));
        assert((a + b).skip(n + 1) =~= a.skip(n + 1) + b);
        law_lines_can_be_cut_anywhere(a.skip(n + 1), b);
        let tail = complete_lines(last_part(a) + b);
        assert(seq![a.take(n)] + (complete_lines(a.skip(n + 1)) + tail) =~= complete_lines(a)
            + tail);
    } else {
        assert(complete_lines(a) + complete_lines(a + b) =~= complete_lines(a + b));
    }
}

/// No line holds a line feed, and neither does the part kept.
pub proof fn law_lines_hold_no_line_feed(s: Seq<u8>)
    ensures
        forall|i: int, j: int|
            0 <= i < complete_lines(s).len() && 0 <= j < complete_lines(s)[i].len()
                ==> #[trigger] complete_lines(s)[i][j] != 10u8,
        forall|j: int| 0 <= j < last_part(s).len() ==> #[trigger] last_part(s)[j] != 10u8,
    decreases s.len(),
{
    util::lemma_first_byte(s, 10u8);
    let n = util::first_byte(s, 10u8);
    if n < s.len() {
        law_lines_hold_no_line_feed(s.skip(n + 1));
        let rest = complete_lines(s.skip(n + 1));
        let lines = complete_lines(s);
        assert forall|i: int, j: int| 0 <= i < lines.len() && 0 <= j < lines[i].len() implies
            #[trigger] lines[i][j] != 10u8 by {
            if i == 0 {
                assert(lines[0] == s.take(n));
            } else {
                assert(lines[i] == rest[i - 1]);
            }
        }
        assert(last_part(s) == last_part(s.skip(n + 1)));
    } else {
        assert(last_part(s) == s);
        assert(forall|j: int| 0 <= j < s.len() ==> s[j] != 10u8);
    }
}

/// A line is complete with its line feed, and is followed by the lines behind
/// it; what comes behind the last line feed is kept.
pub proof fn law_lines(line: Seq<u8>, rest: Seq<u8>)
    requires
        forall|i: int| 0 <= i < line.len() ==> #[trigger] line[i] != 10u8,
    ensures
        complete_lines(line + seq![10u8] + rest) == seq![line] + complete_lines(rest),
        last_part(line + seq![10u8] + rest) == last_part(rest),
        complete_lines(line).len() == 0,
        last_part(line) == line,
        line.len() <= 1048576 ==> kept_part(line) == line && due_lines(line).len() == 0,
        line.len() > 1048576 ==> kept_part(line).len() == 0 && due_lines(line) == seq![line],
{
    let s = line + seq![10u8] + rest;
    let n = line.len() as int;
    util::lemma_first_byte(s, 10u8);
    util::lemma_first_byte(line, 10u8);
    assert(s[n] == 10u8);
    let m = util::first_byte(s, 10u8);
    if m < n {
        assert(s[m] == line[m]);
    }
    assert(m == n);
    assert(s.take(n) =~= line);
    assert(s.skip(n + 1) =~= rest);
    let k = util::first_byte(line, 10u8);
    if k < line.len() {
        assert(line[k] == 10u8);
    }
    assert(complete_lines(line).push(line) =~= seq![line]);
}

/// A message is the line behind the tag, and the priority of the daemon's
/// notes in front.
pub proof fn law_message(tag: Seq<char>, line: Seq<u8>, lines: Seq<Seq<u8>>, k: int)
    ensures
        message(tag, line) == utf8::encode_utf8("<30>"@ + tag + ": "@) + line,
        messages(tag, lines).len() == lines.len(),
        0 <= k < lines.len() ==> messages(tag, lines)[k] == message(tag, lines[k]),
{
}

} // verus!
