//! The event listener protocol: the supervisor's side of the READY / RESULT
//! handshake on a listener's stdout.
use crate::number;
use crate::text;
use crate::util;
use vstd::prelude::*;
use vstd::slice::slice_subrange;
use vstd::utf8;

verus! {

/// The state of an event listener in the notification protocol.
#[derive(Clone, Copy, PartialEq, Eq, Debug, Structural)]
pub enum ListenerState {
    /// Awaiting a `READY` token before it can accept an event.
    Acknowledged,
    /// Ready to be sent an event.
    Ready,
    /// Processing an event we sent; awaiting its `RESULT`.
    Busy,
    /// Protocol desynchronised; no longer eligible for events.
    Unknown,
}

/// The protocol as far as a listener has followed it.
#[derive(Debug)]
pub struct Listener {
    pub state: ListenerState,
    /// Unparsed bytes read from the listener's stdout.
    pub buf: Vec<u8>,
    /// The announced length of the result being read, if any.
    pub result_len: Option<usize>,
    /// The part of the result read so far.
    pub result_buf: Vec<u8>,
}

/// The mathematical content of a [`Listener`].
#[verifier::ext_equal]
pub struct ListenerModel {
    pub state: ListenerState,
    pub buf: Seq<u8>,
    pub result_len: Option<nat>,
    pub result_buf: Seq<u8>,
}

impl View for Listener {
    type V = ListenerModel;

    open spec fn view(&self) -> ListenerModel {
        ListenerModel {
            state: self.state,
            buf: self.buf@,
            result_len: match self.result_len {
                Some(n) => Some(n as nat),
                None => None,
            },
            result_buf: self.result_buf@,
        }
    }
}

/// Whether no more of a result has been read than was announced.
pub open spec fn well_formed(l: ListenerModel) -> bool {
    match l.result_len {
        Some(n) => l.result_buf.len() <= n,
        None => l.result_buf.len() == 0,
    }
}

/// `READY` and a line feed.
pub open spec fn ready_token() -> Seq<u8> {
    seq![82u8, 69u8, 65u8, 68u8, 89u8, 10u8]
}

/// `RESULT` and a space.
pub open spec fn result_token() -> Seq<u8> {
    seq![82u8, 69u8, 83u8, 85u8, 76u8, 84u8, 32u8]
}

/// The length that a text announces.
pub open spec fn announced(s: Seq<char>) -> Option<nat> {
    number::unsigned_upto(text::trimmed(s), 10, usize::MAX as nat)
}

/// The length that the rest of a `RESULT` line announces. What is no text
/// announces none.
pub open spec fn announced_length(bytes: Seq<u8>) -> Option<nat> {
    if utf8::valid_utf8(bytes) {
        announced(utf8::decode_utf8(bytes))
    } else {
        None
    }
}

/// A listener at the start of the protocol.
pub open spec fn fresh() -> ListenerModel {
    ListenerModel {
        state: ListenerState::Acknowledged,
        buf: Seq::empty(),
        result_len: None,
        result_buf: Seq::empty(),
    }
}

/// A listener that has lost track of the protocol.
pub open spec fn lost(l: ListenerModel) -> ListenerModel {
    ListenerModel { state: ListenerState::Unknown, ..l }
}

/// The listener after the `RESULT` line that ends at `nl` announced `n` bytes.
pub open spec fn awaiting(l: ListenerModel, nl: int, n: nat) -> ListenerModel {
    ListenerModel { buf: l.buf.skip(nl + 1), result_len: Some(n), ..l }
}

/// How much of the unread bytes belongs to a result of which `n` bytes were announced.
pub open spec fn share(l: ListenerModel, n: nat) -> int {
    if n - l.result_buf.len() <= l.buf.len() {
        n - l.result_buf.len()
    } else {
        l.buf.len() as int
    }
}

/// The listener once all the bytes read so far have been dealt with.
pub open spec fn settled(l: ListenerModel) -> ListenerModel
    decreases
            l.buf.len(),
            if l.state is Busy {
                1nat
            } else {
                0nat
            },
    when well_formed(l)
{
    match l.state {
        ListenerState::Acknowledged => if text::has_prefix(l.buf, ready_token()) {
            ListenerModel { state: ListenerState::Ready, buf: l.buf.skip(6), ..l }
        } else if l.buf.len() >= 6 {
            lost(l)
        } else {
            l
        },
        ListenerState::Ready => l,
        ListenerState::Unknown => l,
        ListenerState::Busy => match l.result_len {
            None => {
                let nl = util::first_byte(l.buf, 10u8);
                if 0 <= nl < l.buf.len() {
                    let line = l.buf.take(nl);
                    if text::has_prefix(line, result_token()) {
                        match announced_length(line.skip(7)) {
                            Some(n) => settled(awaiting(l, nl, n)),
                            None => lost(l),
                        }
                    } else {
                        lost(l)
                    }
                } else {
                    l
                }
            },
            Some(n) => {
                let take = share(l, n);
                if l.result_buf.len() + take >= n {
                    settled(
                        ListenerModel {
                            state: ListenerState::Acknowledged,
                            buf: l.buf.skip(take),
                            result_len: None,
                            result_buf: Seq::empty(),
                        },
                    )
                } else {
                    ListenerModel {
                        buf: l.buf.skip(take),
                        result_buf: l.result_buf + l.buf.take(take),
                        ..l
                    }
                }
            },
        },
    }
}

/// A listener with more bytes to deal with.
pub open spec fn with_bytes(l: ListenerModel, more: Seq<u8>) -> ListenerModel {
    ListenerModel { buf: l.buf + more, ..l }
}

/// The length that a text announces.
pub fn read_announced(s: &str) -> (r: Option<usize>)
    ensures
        match r {
            Some(n) => announced(s@) == Some(n as nat),
            None => announced(s@) is None,
        },
{
    let c = text::chars_of(s);
    match number::parse_unsigned(text::trim(c.as_slice()), 10, usize::MAX as u64) {
        Some(n) => Some(n as usize),
        None => None,
    }
}

/// The length that the rest of a `RESULT` line announces.
fn read_length(bytes: &[u8]) -> (r: Option<usize>)
    ensures
        match r {
            Some(n) => announced_length(bytes@) == Some(n as nat),
            None => announced_length(bytes@) is None,
        },
{
    match util::utf8_text(util::copy_bytes(bytes)) {
        Some(s) => {
            proof {
                utf8::encode_utf8_decode_utf8(s@);
            }
            read_announced(s.as_str())
        },
        None => None,
    }
}

/// The bytes from `from` on.
fn bytes_from(b: &Vec<u8>, from: usize) -> (r: Vec<u8>)
    requires
        from <= b@.len(),
    ensures
        r@ == b@.skip(from as int),
{
    let tail = slice_subrange(b.as_slice(), from, b.len());
    proof {
        assert(tail@ =~= b@.skip(from as int));
    }
    util::copy_bytes(tail)
}

impl Listener {
    /// A listener at the start of the protocol.
    pub fn new() -> (r: Self)
        ensures
            r@ == fresh(),
            well_formed(r@),
    {
        let r = Listener {
            state: ListenerState::Acknowledged,
            buf: Vec::new(),
            result_len: None,
            result_buf: Vec::new(),
        };
        proof {
            assert(r@ =~= fresh());
        }
        r
    }

    /// Starts the protocol over.
    pub fn reset(&mut self)
        ensures
            final(self)@ == fresh(),
            well_formed(final(self)@),
    {
        self.state = ListenerState::Acknowledged;
        self.buf = Vec::new();
        self.result_len = None;
        self.result_buf = Vec::new();
        proof {
            assert(self@ =~= fresh());
        }
    }

    /// Takes bytes read from the listener's stdout and follows the protocol
    /// as far as they go.
    pub fn feed(&mut self, data: &[u8])
        requires
            well_formed(old(self)@),
        ensures
            final(self)@ == settled(with_bytes(old(self)@, data@)),
            well_formed(final(self)@),
    {
        util::push_bytes(&mut self.buf, data);
        proof {
            assert(self@ =~= with_bytes(old(self)@, data@));
        }
        self.advance();
    }

    /// Follows the protocol over the bytes that have accumulated.
    fn advance(&mut self)
        requires
            well_formed(old(self)@),
        ensures
            final(self)@ == settled(old(self)@),
            well_formed(final(self)@),
    {
        let ghost start = self@;
        let ready: [u8; 6] = [82, 69, 65, 68, 89, 10];
        let result: [u8; 7] = [82, 69, 83, 85, 76, 84, 32];
        proof {
            assert(ready@ =~= ready_token());
            assert(result@ =~= result_token());
        }
        loop
            invariant
                ready@ == ready_token(),
                result@ == result_token(),
                well_formed(self@),
                settled(self@) == settled(start),
                start == old(self)@,
            decreases
                    self.buf@.len(),
                    if self.state is Busy {
                        1nat
                    } else {
                        0nat
                    },
        {
            let ghost now = self@;
            match self.state {
                ListenerState::Acknowledged => {
                    if util::begins_with(self.buf.as_slice(), ready.as_slice()) {
                        self.buf = bytes_from(&self.buf, 6);
                        self.state = ListenerState::Ready;
                        proof {
                            assert(self@ =~= settled(now));
                        }
                    } else if self.buf.len() >= 6 {
                        self.state = ListenerState::Unknown;
                        proof {
                            assert(self@ =~= settled(now));
                        }
                    }
                    return;
                },
                ListenerState::Ready => {
                    return;
                },
                ListenerState::Unknown => {
                    return;
                },
                ListenerState::Busy => {
                    match self.result_len {
                        None => {
                            let nl = util::find_byte(self.buf.as_slice(), 10);
                            if nl == self.buf.len() {
                                return;
                            }
                            let line = slice_subrange(self.buf.as_slice(), 0, nl);
                            proof {
                                assert(line@ =~= now.buf.take(nl as int));
                            }
                            if !util::begins_with(line, result.as_slice()) {
                                self.state = ListenerState::Unknown;
                                proof {
                                    assert(self@ =~= settled(now));
                                }
                                return;
                            }
                            let digits = slice_subrange(line, 7, line.len());
                            proof {
                                assert(digits@ =~= line@.skip(7));
                            }
                            match read_length(digits) {
                                Some(n) => {
                                    self.buf = bytes_from(&self.buf, nl + 1);
                                    self.result_len = Some(n);
                                    proof {
                                        assert(self@ =~= awaiting(now, nl as int, n as nat));
                                    }
                                },
                                None => {
                                    self.state = ListenerState::Unknown;
                                    proof {
                                        assert(self@ =~= settled(now));
                                    }
                                    return;
                                },
                            }
                        },
                        Some(want) => {
                            let need: usize = want - self.result_buf.len();
                            let take: usize = if need <= self.buf.len() {
                                need
                            } else {
                                self.buf.len()
                            };
                            let chunk = slice_subrange(self.buf.as_slice(), 0, take);
                            util::push_bytes(&mut self.result_buf, chunk);
                            proof {
                                assert(chunk@ =~= now.buf.take(take as int));
                                assert(take as int == share(now, want as nat));
                            }
                            self.buf = bytes_from(&self.buf, take);
                            if self.result_buf.len() >= want {
                                self.result_len = None;
                                self.result_buf = Vec::new();
                                self.state = ListenerState::Acknowledged;
                                proof {
                                    let next = ListenerModel {
                                        state: ListenerState::Acknowledged,
                                        buf: now.buf.skip(take as int),
                                        result_len: None,
                                        result_buf: Seq::empty(),
                                    };
                                    assert(self@ =~= next);
                                }
                            } else {
                                proof {
                                    assert(self@ =~= settled(now));
                                }
                                return;
                            }
                        },
                    }
                },
            }
        }
    }
}

// ---------------------------------------------------------------------------
// Laws
// ---------------------------------------------------------------------------

/// Following the protocol never reads more of a result than was announced.
pub proof fn law_settled_is_well_formed(l: ListenerModel)
    requires
        well_formed(l),
    ensures
        well_formed(settled(l)),
    decreases
            l.buf.len(),
            if l.state is Busy {
                1nat
            } else {
                0nat
            },
{
    if l.state is Busy {
        match l.result_len {
            None => {
                let nl = util::first_byte(l.buf, 10u8);
                if 0 <= nl < l.buf.len() {
                    if let Some(n) = announced_length(l.buf.take(nl).skip(7)) {
                        law_settled_is_well_formed(awaiting(l, nl, n));
                    }
                }
            },
            Some(n) => {
                let next = ListenerModel {
                    state: ListenerState::Acknowledged,
                    buf: l.buf.skip(share(l, n)),
                    result_len: None,
                    result_buf: Seq::empty(),
                };
                law_settled_is_well_formed(next);
            },
        }
    }
}

/// The first line feed stays where it is when more bytes come.
proof fn lemma_first_byte_extends(a: Seq<u8>, more: Seq<u8>, b: u8)
    requires
        util::first_byte(a, b) < a.len(),
    ensures
        util::first_byte(a + more, b) == util::first_byte(a, b),
{
    util::lemma_first_byte(a, b);
    util::lemma_first_byte(a + more, b);
    let i = util::first_byte(a, b);
    let j = util::first_byte(a + more, b);
    assert((a + more)[i] == a[i]);
    if j < i {
        assert((a + more)[j] == a[j]);
    }
}

/// What a byte string begins with does not change when more bytes come.
proof fn lemma_prefix_extends(a: Seq<u8>, more: Seq<u8>, p: Seq<u8>)
    requires
        p.len() <= a.len(),
    ensures
        text::has_prefix(a + more, p) == text::has_prefix(a, p),
{
    assert((a + more).take(p.len() as int) =~= a.take(p.len() as int));
}

/// It does not matter how a listener's output is cut into reads: following
/// the protocol after each read leads where following it once, over all the
/// bytes, would.
pub proof fn law_reads_can_be_cut_anywhere(l: ListenerModel, more: Seq<u8>)
    requires
        well_formed(l),
    ensures
        settled(with_bytes(settled(l), more)) == settled(with_bytes(l, more)),
    decreases
            l.buf.len(),
            if l.state is Busy {
                1nat
            } else {
                0nat
            },
{
    let w = with_bytes(l, more);
    match l.state {
        ListenerState::Acknowledged => {
            if l.buf.len() >= 6 {
                lemma_prefix_extends(l.buf, more, ready_token());
                assert((l.buf + more).skip(6) =~= l.buf.skip(6) + more);
                assert(settled(with_bytes(settled(l), more)) =~= settled(w));
            }
        },
        ListenerState::Ready => {},
        ListenerState::Unknown => {},
        ListenerState::Busy => {
            match l.result_len {
                None => {
                    util::lemma_first_byte(l.buf, 10u8);
                    let nl = util::first_byte(l.buf, 10u8);
                    if nl < l.buf.len() {
                        lemma_first_byte_extends(l.buf, more, 10u8);
                        assert((l.buf + more).take(nl) =~= l.buf.take(nl));
                        let line = l.buf.take(nl);
                        match announced_length(line.skip(7)) {
                            Some(n) => {
                                if text::has_prefix(line, result_token()) {
                                    let next = awaiting(l, nl, n);
                                    assert((l.buf + more).skip(nl + 1) =~= l.buf.skip(nl + 1)
                                        + more);
                                    assert(awaiting(w, nl, n) =~= with_bytes(next, more));
                                    law_reads_can_be_cut_anywhere(next, more);
                                } else {
                                    assert(with_bytes(lost(l), more) =~= lost(w));
                                }
                            },
                            None => {
                                assert(with_bytes(lost(l), more) =~= lost(w));
                            },
                        }
                    }
                },
                Some(n) => {
                    lemma_cut_result(l, more, n);
                },
            }
        },
    }
}

/// The same, while a result is being read.
proof fn lemma_cut_result(l: ListenerModel, more: Seq<u8>, n: nat)
    requires
        well_formed(l),
        l.state is Busy,
        l.result_len == Some(n),
    ensures
        settled(with_bytes(settled(l), more)) == settled(with_bytes(l, more)),
    decreases l.buf.len(), 0nat,
{
    let w = with_bytes(l, more);
    let take = share(l, n);
    if l.result_buf.len() + take >= n {
        let next = ListenerModel {
            state: ListenerState::Acknowledged,
            buf: l.buf.skip(take),
            result_len: None,
            result_buf: Seq::empty(),
        };
        assert((l.buf + more).skip(take) =~= l.buf.skip(take) + more);
        let later = ListenerModel {
            state: ListenerState::Acknowledged,
            buf: w.buf.skip(take),
            result_len: None,
            result_buf: Seq::empty(),
        };
        assert(share(w, n) == take);
        assert(later =~= with_bytes(next, more));
        // From here on only a `READY` token is read.
        let a = settled(next);
        if next.buf.len() >= 6 {
            lemma_prefix_extends(next.buf, more, ready_token());
            assert((next.buf + more).skip(6) =~= next.buf.skip(6) + more);
            assert(settled(with_bytes(a, more)) =~= settled(later));
        }
    } else {
        let part = settled(l);
        assert(part.buf =~= Seq::<u8>::empty());
        assert(l.buf.take(take) =~= l.buf);
        let p = with_bytes(part, more);
        assert(p.buf =~= more);
        let t = share(p, n);
        assert(share(w, n) == take + t);
        assert(w.buf.skip(take + t) =~= p.buf.skip(t));
        assert(w.buf.take(take + t) =~= l.buf + more.take(t));
        assert(l.result_buf + w.buf.take(take + t) =~= p.result_buf + p.buf.take(t));
        assert(settled(p) =~= settled(w));
    }
}

/// A listener that says `READY` gets ready, and nothing of what it says after
/// that is lost.
pub proof fn law_ready(rest: Seq<u8>)
    ensures
        ({
            let l = settled(with_bytes(fresh(), utf8::encode_utf8("READY\n"@) + rest));
            &&& l.state is Ready
            &&& l.buf == rest
            &&& l.result_len is None
        }),
{
    lemma_tokens();
    let l = with_bytes(fresh(), ready_token() + rest);
    assert(l.buf =~= ready_token() + rest);
    assert(l.buf.take(6) =~= ready_token());
    assert(l.buf.skip(6) =~= rest);
}

/// The words of the protocol.
proof fn lemma_tokens()
    ensures
        utf8::encode_utf8("READY\n"@) == ready_token(),
        utf8::encode_utf8("RESULT "@) == result_token(),
{
    reveal_strlit("READY\n");
    reveal_strlit("RESULT ");
    lemma_ascii("READY\n"@);
    lemma_ascii("RESULT "@);
    assert(utf8::encode_utf8("READY\n"@) =~= ready_token());
    assert(utf8::encode_utf8("RESULT "@) =~= result_token());
}

/// The encoding of ASCII text is its characters.
proof fn lemma_ascii(s: Seq<char>)
    requires
        forall|i: int| 0 <= i < s.len() ==> '\0' <= #[trigger] s[i] <= '\u{7f}',
    ensures
        utf8::encode_utf8(s).len() == s.len(),
        forall|i: int| 0 <= i < s.len() ==> #[trigger] utf8::encode_utf8(s)[i] == s[i] as u8,
{
    assert(utf8::is_ascii_chars(s));
    utf8::is_ascii_chars_encode_utf8(s);
}

/// A listener that waits for its first token has not got ready before it has
/// said all of it, and anything else loses it.
pub proof fn law_other_words_lose_a_listener(said: Seq<u8>)
    ensures
        ({
            let l = settled(with_bytes(fresh(), said));
            &&& said.len() < 6 ==> l.state is Acknowledged && l.buf == said
            &&& said.len() >= 6 && said.take(6) != utf8::encode_utf8("READY\n"@) ==> l.state
                is Unknown
        }),
{
    lemma_tokens();
    assert(with_bytes(fresh(), said).buf =~= said);
}

/// A busy listener that announces a result and gives as many bytes of it as it
/// announced has done with the event: it waits to get ready again, and what
/// follows the result is kept.
pub proof fn law_result(n: nat, body: Seq<u8>, rest: Seq<u8>)
    requires
        body.len() == n,
        n <= usize::MAX,
        rest.len() < 6,
    ensures
        ({
            let busy = ListenerModel { state: ListenerState::Busy, ..fresh() };
            let line = utf8::encode_utf8("RESULT "@) + utf8::encode_utf8(number::nat_text(n))
                + seq![10u8];
            let l = settled(with_bytes(busy, line + body + rest));
            &&& l.state is Acknowledged
            &&& l.buf == rest
            &&& l.result_len is None
            &&& l.result_buf.len() == 0
        }),
{
    lemma_tokens();
    let t = number::nat_text(n);
    let d = utf8::encode_utf8(t);
    number::lemma_nat_text_digits(n);
    assert forall|i: int| 0 <= i < t.len() implies '\0' <= #[trigger] t[i] <= '\u{7f}' by {
        assert('0' <= t[i] <= '9');
    }
    lemma_ascii(t);
    let busy = ListenerModel { state: ListenerState::Busy, ..fresh() };
    let line = result_token() + d;
    let all = line + seq![10u8] + body + rest;
    let l = with_bytes(busy, all);
    assert(l.buf =~= all);
    assert forall|j: int| 0 <= j < line.len() implies #[trigger] all[j] != 10u8 by {
        if j >= 7 {
            assert(all[j] == d[j - 7]);
            assert('0' <= t[j - 7] <= '9');
            assert(d[j - 7] == t[j - 7] as u8);
        }
    }
    let nl = line.len() as int;
    assert(all[nl] == 10u8);
    util::lemma_first_byte(all, 10u8);
    assert(util::first_byte(all, 10u8) == nl);
    assert(all.take(nl) =~= line);
    assert(line.take(7) =~= result_token());
    assert(line.skip(7) =~= d);
    utf8::encode_utf8_valid_utf8(t);
    utf8::encode_utf8_decode_utf8(t);
    assert(text::trimmed(t) == t) by {
        assert(!text::is_white(t[0]));
        assert(!text::is_white(t[t.len() - 1]));
    }
    number::law_unsigned_round_trip(n);
    assert(announced_length(d) == Some(n));
    let a = awaiting(l, nl, n);
    assert(a.buf =~= body + rest);
    assert(share(a, n) == n);
    assert(a.buf.skip(n as int) =~= rest);
    let next = ListenerModel {
        state: ListenerState::Acknowledged,
        buf: a.buf.skip(n as int),
        result_len: None,
        result_buf: Seq::empty(),
    };
    assert(settled(l) == settled(a));
    assert(settled(a) == settled(next));
    assert(settled(next) == next) by {
        assert(!text::has_prefix(next.buf, ready_token()));
    }
}

/// A result is not over before all of it has come.
pub proof fn law_result_is_awaited(n: nat, body: Seq<u8>)
    requires
        body.len() < n,
    ensures
        ({
            let l = settled(
                ListenerModel {
                    state: ListenerState::Busy,
                    buf: body,
                    result_len: Some(n),
                    result_buf: Seq::empty(),
                },
            );
            &&& l.state is Busy
            &&& l.result_len == Some(n)
            &&& l.result_buf == body
        }),
{
    let l = ListenerModel {
        state: ListenerState::Busy,
        buf: body,
        result_len: Some(n),
        result_buf: Seq::empty(),
    };
    assert(share(l, n) == body.len());
    assert(settled(l).result_buf =~= body);
}

/// A busy listener that says anything but a result, line by line, is lost.
pub proof fn law_no_result(line: Seq<u8>, rest: Seq<u8>)
    requires
        forall|i: int| 0 <= i < line.len() ==> #[trigger] line[i] != 10u8,
        line.len() < 7 || line.take(7) != utf8::encode_utf8("RESULT "@),
    ensures
        ({
            let busy = ListenerModel { state: ListenerState::Busy, ..fresh() };
            &&& settled(with_bytes(busy, line + seq![10u8] + rest)).state is Unknown
            &&& settled(with_bytes(busy, line)).state is Busy
        }),
{
    lemma_tokens();
    let busy = ListenerModel { state: ListenerState::Busy, ..fresh() };
    let s = line + seq![10u8] + rest;
    let n = line.len() as int;
    assert(with_bytes(busy, s).buf =~= s);
    assert(with_bytes(busy, line).buf =~= line);
    util::lemma_first_byte(s, 10u8);
    util::lemma_first_byte(line, 10u8);
    assert(s[n] == 10u8);
    let m = util::first_byte(s, 10u8);
    if m < n {
        assert(s[m] == line[m]);
    }
    assert(s.take(n) =~= line);
    let k = util::first_byte(line, 10u8);
    if k < line.len() {
        assert(line[k] == 10u8);
    }
}

} // verus!
