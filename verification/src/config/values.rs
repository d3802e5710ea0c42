//! The values of configuration keys: byte sizes, booleans, signals, umasks,
//! comma-separated lists, environments, process names and addresses.
use crate::number;
use crate::text;
use vstd::prelude::*;
use vstd::slice::slice_subrange;

verus! {

// ---------------------------------------------------------------------------
// Byte sizes and booleans
// ---------------------------------------------------------------------------

/// The unit at the end of a lower-case byte size: how many characters it has
/// and how many bytes it stands for.
pub open spec fn size_unit(t: Seq<char>) -> (nat, nat) {
    if text::has_suffix(t, "gb"@) {
        (2, 1024 * 1024 * 1024)
    } else if text::has_suffix(t, "mb"@) {
        (2, 1024 * 1024)
    } else if text::has_suffix(t, "kb"@) {
        (2, 1024)
    } else if text::has_suffix(t, "b"@) {
        (1, 1)
    } else {
        (0, 1)
    }
}

/// The bytes that a size such as `50MB`, `1KB` or `10` stands for, with units
/// of 1024; `None` when it is no size or does not fit in 64 bits.
pub open spec fn byte_size(s: Seq<char>) -> Option<nat> {
    let t = text::lowered(text::trimmed(s));
    let (cut, unit) = size_unit(t);
    match number::unsigned_upto(text::trimmed(t.take(t.len() - cut)), 10, u64::MAX as nat) {
        Some(n) => if n * unit <= u64::MAX {
            Some(n * unit)
        } else {
            None
        },
        None => None,
    }
}

/// `invalid byte size: "<s>"`
pub open spec fn byte_size_error(s: Seq<char>) -> Seq<char> {
    "invalid byte size: "@ + text::debug_text(text::trimmed(s))
}

/// `<before>"<s>"`
fn quoting(before: &str, s: &str) -> (r: String)
    ensures
        r@ == before@ + text::debug_text(s@),
{
    let mut e = before.to_string();
    e.append(text::debug_string(s).as_str());
    e
}

/// Parses a human byte size like `50MB`, `1KB`, `10` into bytes, with units of 1024.
pub fn parse_byte_size(s: &str) -> (r: Result<u64, String>)
    ensures
        match byte_size(s@) {
            Some(n) => r matches Ok(v) && v == n,
            None => r matches Err(e) && e@ == byte_size_error(s@),
        },
{
    let c = text::chars_of(s);
    let trimmed = text::trim(c.as_slice());
    let lower = text::to_lower(trimmed);
    let t = lower.as_slice();
    proof {
        reveal_strlit("gb");
        reveal_strlit("mb");
        reveal_strlit("kb");
        reveal_strlit("b");
    }
    let (cut, unit): (usize, u64) = if text::ends_with(t, "gb") {
        (2, 1024 * 1024 * 1024)
    } else if text::ends_with(t, "mb") {
        (2, 1024 * 1024)
    } else if text::ends_with(t, "kb") {
        (2, 1024)
    } else if text::ends_with(t, "b") {
        (1, 1)
    } else {
        (0, 1)
    };
    let digits = slice_subrange(t, 0, t.len() - cut);
    proof {
        assert(digits@ =~= t@.take(t@.len() - cut));
        assert(size_unit(t@) == (cut as nat, unit as nat));
    }
    match number::parse_unsigned(text::trim(digits), 10, u64::MAX) {
        Some(n) => match n.checked_mul(unit) {
            Some(v) => Ok(v),
            None => Err(quoting("invalid byte size: ", text::string_of(trimmed).as_str())),
        },
        None => Err(quoting("invalid byte size: ", text::string_of(trimmed).as_str())),
    }
}

/// Whether a lower-case word means yes.
pub open spec fn is_yes(t: Seq<char>) -> bool {
    t == "true"@ || t == "yes"@ || t == "on"@ || t == "1"@
}

/// Whether a lower-case word means no.
pub open spec fn is_no(t: Seq<char>) -> bool {
    t == "false"@ || t == "no"@ || t == "off"@ || t == "0"@
}

/// The truth value that a word stands for, or why it stands for none.
pub open spec fn bool_of(s: Seq<char>) -> Result<bool, Seq<char>> {
    let t = text::lowered(text::trimmed(s));
    if is_yes(t) {
        Ok(true)
    } else if is_no(t) {
        Ok(false)
    } else {
        Err("invalid boolean: "@ + text::debug_text(t))
    }
}

fn yes(t: &[char]) -> (r: bool)
    ensures
        r == is_yes(t@),
{
    text::spells(t, "true") || text::spells(t, "yes") || text::spells(t, "on") || text::spells(
        t,
        "1",
    )
}

fn no(t: &[char]) -> (r: bool)
    ensures
        r == is_no(t@),
{
    text::spells(t, "false") || text::spells(t, "no") || text::spells(t, "off") || text::spells(
        t,
        "0",
    )
}

/// Parses a boolean: true/false, yes/no, on/off or 1/0 in any letter case.
pub fn parse_bool(s: &str) -> (r: Result<bool, String>)
    ensures
        match bool_of(s@) {
            Ok(b) => r matches Ok(v) && v == b,
            Err(e) => r matches Err(m) && m@ == e,
        },
{
    let c = text::chars_of(s);
    let lower = text::to_lower(text::trim(c.as_slice()));
    let t = lower.as_slice();
    if yes(t) {
        Ok(true)
    } else if no(t) {
        Ok(false)
    } else {
        Err(quoting("invalid boolean: ", text::string_of(t).as_str()))
    }
}

/// When a program is restarted after it exits on its own.
#[derive(Clone, Copy, PartialEq, Eq, Debug, Structural)]
pub enum AutoRestart {
    /// Never restart automatically.
    Never,
    /// Always restart, regardless of exit code.
    Always,
    /// Restart only if the exit code is not in `exitcodes`.
    Unexpected,
}

/// The restart rule that a word stands for, or why it stands for none.
pub open spec fn autorestart_of(s: Seq<char>) -> Result<AutoRestart, Seq<char>> {
    let t = text::lowered(text::trimmed(s));
    if is_yes(t) {
        Ok(AutoRestart::Always)
    } else if is_no(t) {
        Ok(AutoRestart::Never)
    } else if t == "unexpected"@ {
        Ok(AutoRestart::Unexpected)
    } else {
        Err("invalid autorestart: "@ + text::debug_text(t))
    }
}

/// Parses an `autorestart=` value: a boolean or `unexpected`.
pub fn parse_autorestart(s: &str) -> (r: Result<AutoRestart, String>)
    ensures
        match autorestart_of(s@) {
            Ok(a) => r matches Ok(v) && v == a,
            Err(e) => r matches Err(m) && m@ == e,
        },
{
    let c = text::chars_of(s);
    let lower = text::to_lower(text::trim(c.as_slice()));
    let t = lower.as_slice();
    if yes(t) {
        Ok(AutoRestart::Always)
    } else if no(t) {
        Ok(AutoRestart::Never)
    } else if text::spells(t, "unexpected") {
        Ok(AutoRestart::Unexpected)
    } else {
        Err(quoting("invalid autorestart: ", text::string_of(t).as_str()))
    }
}

// ---------------------------------------------------------------------------
// Signals
// ---------------------------------------------------------------------------

/// The numbers of the signals that have names here.
#[derive(Clone, Copy, Debug)]
pub struct Signals {
    pub term: i32,
    pub kill: i32,
    pub int_: i32,
    pub quit: i32,
    pub hup: i32,
    pub usr1: i32,
    pub usr2: i32,
    pub stop: i32,
    pub cont: i32,
}

/// Whether the numbers are those of some Unix platform. The first five are
/// the same everywhere.
pub open spec fn unix_signals(s: Signals) -> bool {
    &&& s.hup == 1
    &&& s.int_ == 2
    &&& s.quit == 3
    &&& s.kill == 9
    &&& s.term == 15
    &&& (s.usr1 == 10 || s.usr1 == 16 || s.usr1 == 18 || s.usr1 == 25 || s.usr1 == 30)
    &&& (s.usr2 == 12 || s.usr2 == 17 || s.usr2 == 19 || s.usr2 == 26 || s.usr2 == 31)
    &&& (s.stop == 10 || s.stop == 17 || s.stop == 19 || s.stop == 23)
    &&& (s.cont == 12 || s.cont == 18 || s.cont == 19 || s.cont == 25)
}

/// `libc::SIGTERM`: 15 on every platform that the crate knows.
#[verifier::external_body]
fn sigterm() -> (r: i32)
    ensures
        r == 15,
{
    libc::SIGTERM
}

/// `libc::SIGKILL`: 9 on every platform that the crate knows.
#[verifier::external_body]
fn sigkill() -> (r: i32)
    ensures
        r == 9,
{
    libc::SIGKILL
}

/// `libc::SIGINT`: 2 on every platform that the crate knows.
#[verifier::external_body]
fn sigint() -> (r: i32)
    ensures
        r == 2,
{
    libc::SIGINT
}

/// `libc::SIGQUIT`: 3 on every platform that the crate knows.
#[verifier::external_body]
fn sigquit() -> (r: i32)
    ensures
        r == 3,
{
    libc::SIGQUIT
}

/// `libc::SIGHUP`: 1 on every platform that the crate knows.
#[verifier::external_body]
fn sighup() -> (r: i32)
    ensures
        r == 1,
{
    libc::SIGHUP
}

/// `libc::SIGUSR1`: one of five numbers, depending on the platform.
#[verifier::external_body]
fn sigusr1() -> (r: i32)
    ensures
        r == 10 || r == 16 || r == 18 || r == 25 || r == 30,
{
    libc::SIGUSR1
}

/// `libc::SIGUSR2`: one of five numbers, depending on the platform.
#[verifier::external_body]
fn sigusr2() -> (r: i32)
    ensures
        r == 12 || r == 17 || r == 19 || r == 26 || r == 31,
{
    libc::SIGUSR2
}

/// `libc::SIGSTOP`: one of four numbers, depending on the platform.
#[verifier::external_body]
fn sigstop() -> (r: i32)
    ensures
        r == 10 || r == 17 || r == 19 || r == 23,
{
    libc::SIGSTOP
}

/// `libc::SIGCONT`: one of four numbers, depending on the platform.
#[verifier::external_body]
fn sigcont() -> (r: i32)
    ensures
        r == 12 || r == 18 || r == 19 || r == 25,
{
    libc::SIGCONT
}

/// The signal numbers of this platform.
pub fn platform_signals() -> (r: Signals)
    ensures
        unix_signals(r),
{
    Signals {
        term: sigterm(),
        kill: sigkill(),
        int_: sigint(),
        quit: sigquit(),
        hup: sighup(),
        usr1: sigusr1(),
        usr2: sigusr2(),
        stop: sigstop(),
        cont: sigcont(),
    }
}

/// The number of the signal with an upper-case name that has no `SIG` in front.
pub open spec fn signal_named(signals: Signals, name: Seq<char>) -> Option<i32> {
    if name == "TERM"@ {
        Some(signals.term)
    } else if name == "KILL"@ {
        Some(signals.kill)
    } else if name == "INT"@ {
        Some(signals.int_)
    } else if name == "QUIT"@ {
        Some(signals.quit)
    } else if name == "HUP"@ {
        Some(signals.hup)
    } else if name == "USR1"@ {
        Some(signals.usr1)
    } else if name == "USR2"@ {
        Some(signals.usr2)
    } else if name == "STOP"@ {
        Some(signals.stop)
    } else if name == "CONT"@ {
        Some(signals.cont)
    } else {
        None
    }
}

/// `s` without the prefix `p`, if it has it.
pub open spec fn without_prefix(s: Seq<char>, p: Seq<char>) -> Seq<char> {
    if text::has_prefix(s, p) {
        s.skip(p.len() as int)
    } else {
        s
    }
}

/// The number of a signal given with or without `SIG`, in any letter case; or
/// why it has none.
pub open spec fn signal_of(signals: Signals, s: Seq<char>) -> Result<i32, Seq<char>> {
    match signal_named(signals, without_prefix(text::uppered(text::trimmed(s)), "SIG"@)) {
        Some(n) => Ok(n),
        None => Err("unknown signal: "@ + text::debug_text(s)),
    }
}

/// The number that `signals` gives to a signal name (with or without the `SIG` prefix).
pub fn signal_number(signals: &Signals, s: &str) -> (r: Result<i32, String>)
    ensures
        match signal_of(*signals, s@) {
            Ok(n) => r matches Ok(v) && v == n,
            Err(e) => r matches Err(m) && m@ == e,
        },
{
    let c = text::chars_of(s);
    let upper = text::to_upper(text::trim(c.as_slice()));
    let t = upper.as_slice();
    proof {
        reveal_strlit("SIG");
    }
    let name = if text::starts_with(t, "SIG") {
        let rest = slice_subrange(t, 3, t.len());
        proof {
            assert(rest@ =~= t@.skip(3));
        }
        rest
    } else {
        t
    };
    if text::spells(name, "TERM") {
        Ok(signals.term)
    } else if text::spells(name, "KILL") {
        Ok(signals.kill)
    } else if text::spells(name, "INT") {
        Ok(signals.int_)
    } else if text::spells(name, "QUIT") {
        Ok(signals.quit)
    } else if text::spells(name, "HUP") {
        Ok(signals.hup)
    } else if text::spells(name, "USR1") {
        Ok(signals.usr1)
    } else if text::spells(name, "USR2") {
        Ok(signals.usr2)
    } else if text::spells(name, "STOP") {
        Ok(signals.stop)
    } else if text::spells(name, "CONT") {
        Ok(signals.cont)
    } else {
        Err(quoting("unknown signal: ", s))
    }
}

/// Maps a signal name (with or without the `SIG` prefix) to its number on
/// this platform.
pub fn parse_signal(s: &str) -> (r: Result<i32, String>)
    ensures
        exists|signals: Signals| #[trigger]
            unix_signals(signals) && match signal_of(signals, s@) {
                Ok(n) => r matches Ok(v) && v == n,
                Err(e) => r matches Err(m) && m@ == e,
            },
{
    let signals = platform_signals();
    signal_number(&signals, s)
}

// ---------------------------------------------------------------------------
// Umasks
// ---------------------------------------------------------------------------

/// `s` without any number of prefixes `p`.
pub open spec fn without_prefixes(s: Seq<char>, p: Seq<char>) -> Seq<char>
    decreases s.len(),
{
    if p.len() > 0 && text::has_prefix(s, p) {
        without_prefixes(s.skip(p.len() as int), p)
    } else {
        s
    }
}

/// The file mode mask that an octal number stands for; `None` when it is none.
pub open spec fn umask_of(s: Seq<char>) -> Option<nat> {
    number::unsigned_upto(text::trimmed(without_prefixes(s, "0o"@)), 8, u32::MAX as nat)
}

/// Parses an octal mask, with or without `0o` in front.
pub fn parse_umask(s: &str) -> (r: Result<u32, String>)
    ensures
        match umask_of(s@) {
            Some(n) => r matches Ok(v) && v == n,
            None => r matches Err(e) && e@ == "invalid umask"@,
        },
{
    let c = text::chars_of(s);
    let mut i: usize = 0;
    proof {
        reveal_strlit("0o");
        assert(c@.skip(0) =~= c@);
    }
    loop
        invariant
            c@ == s@,
            i <= c@.len(),
            "0o"@.len() == 2,
            without_prefixes(s@, "0o"@) == without_prefixes(c@.skip(i as int), "0o"@),
        ensures
            i <= c@.len(),
            without_prefixes(s@, "0o"@) == c@.skip(i as int),
        decreases c@.len() - i,
    {
        let rest = slice_subrange(c.as_slice(), i, c.len());
        proof {
            assert(rest@ =~= c@.skip(i as int));
        }
        if !text::starts_with(rest, "0o") {
            break;
        }
        proof {
            assert(rest@.skip(2) =~= c@.skip(i as int + 2));
        }
        i = i + 2;
    }
    let rest = slice_subrange(c.as_slice(), i, c.len());
    proof {
        assert(rest@ =~= c@.skip(i as int));
    }
    match number::parse_unsigned(text::trim(rest), 8, u32::MAX as u64) {
        Some(n) => Ok(n as u32),
        None => Err("invalid umask".to_string()),
    }
}

// ---------------------------------------------------------------------------
// Lists
// ---------------------------------------------------------------------------

/// The parts without white space around them, those left empty dropped.
pub open spec fn nonblank(parts: Seq<Seq<char>>) -> Seq<Seq<char>>
    decreases parts.len(),
{
    if parts.len() == 0 {
        Seq::empty()
    } else {
        let t = text::trimmed(parts[0]);
        let rest = nonblank(parts.skip(1));
        if t.len() == 0 {
            rest
        } else {
            seq![t] + rest
        }
    }
}

/// The items of a comma-separated list.
pub open spec fn comma_items(s: Seq<char>) -> Seq<Seq<char>> {
    nonblank(text::pieces(s, ','))
}

/// The items of a comma-separated list.
pub fn comma_list(s: &str) -> (r: Vec<Vec<char>>)
    ensures
        text::char_lists(r@) == comma_items(s@),
{
    let c = text::chars_of(s);
    let parts = text::split(c.as_slice(), ',');
    let ghost raw = text::char_lists(parts@);
    let mut r: Vec<Vec<char>> = Vec::new();
    let mut i: usize = 0;
    proof {
        assert(raw.skip(0) =~= raw);
        assert(text::char_lists(r@) + nonblank(raw) =~= nonblank(raw));
    }
    while i < parts.len()
        invariant
            i <= parts@.len(),
            raw == text::char_lists(parts@),
            text::char_lists(r@) + nonblank(raw.skip(i as int)) == nonblank(raw),
        decreases parts@.len() - i,
    {
        let t = text::trim(parts[i].as_slice());
        let ghost before = r@;
        proof {
            assert(raw.skip(i as int)[0] == parts@[i as int]@);
            assert(raw.skip(i as int).skip(1) =~= raw.skip(i as int + 1));
        }
        if t.len() > 0 {
            r.push(text::to_vec(t));
            proof {
                assert(text::char_lists(r@) =~= text::char_lists(before) + seq![t@]);
                let tail = nonblank(raw.skip(i as int + 1));
                assert(text::char_lists(before) + (seq![t@] + tail) =~= text::char_lists(r@)
                    + tail);
            }
        }
        i = i + 1;
    }
    proof {
        assert(raw.skip(i as int) =~= Seq::<Seq<char>>::empty());
        assert(text::char_lists(r@) + Seq::<Seq<char>>::empty() =~= text::char_lists(r@));
    }
    r
}

/// The event names of an `events=` value, in upper case.
pub open spec fn event_names(s: Seq<char>) -> Seq<Seq<char>> {
    comma_items(s).map_values(|t: Seq<char>| text::uppered(t))
}

/// Parses an `events=` value.
pub fn parse_events(s: &str) -> (r: Vec<String>)
    ensures
        text::texts(r@) == event_names(s@),
{
    let items = comma_list(s);
    let ghost raw = text::char_lists(items@);
    let mut r: Vec<String> = Vec::new();
    let mut i: usize = 0;
    while i < items.len()
        invariant
            i <= items@.len(),
            raw == text::char_lists(items@),
            r@.len() == i,
            forall|k: int| 0 <= k < i ==> (#[trigger] r@[k])@ == text::uppered(raw[k]),
        decreases items@.len() - i,
    {
        let upper = text::to_upper(items[i].as_slice());
        r.push(text::string_of(upper.as_slice()));
        i = i + 1;
    }
    proof {
        assert(text::texts(r@) =~= event_names(s@));
    }
    r
}

/// The numbers that the items of a list of exit codes stand for.
pub open spec fn code_numbers(items: Seq<Seq<char>>) -> Result<Seq<i32>, Seq<char>>
    decreases items.len(),
{
    if items.len() == 0 {
        Ok(Seq::empty())
    } else {
        match number::signed_within(items[0], i32::MIN as int, i32::MAX as int) {
            None => Err("invalid exitcode: "@ + text::debug_text(items[0])),
            Some(n) => match code_numbers(items.skip(1)) {
                Ok(rest) => Ok(seq![n as i32] + rest),
                Err(e) => Err(e),
            },
        }
    }
}

/// The exit codes that an `exitcodes=` value lists; zero alone when it lists none.
pub open spec fn exit_codes(s: Seq<char>) -> Result<Seq<i32>, Seq<char>> {
    match code_numbers(comma_items(s)) {
        Ok(codes) => Ok(
            if codes.len() == 0 {
                seq![0i32]
            } else {
                codes
            },
        ),
        Err(e) => Err(e),
    }
}

/// Parses an `exitcodes=` value.
pub fn parse_exitcodes(s: &str) -> (r: Result<Vec<i32>, String>)
    ensures
        match exit_codes(s@) {
            Ok(codes) => r matches Ok(v) && v@ == codes,
            Err(e) => r matches Err(m) && m@ == e,
        },
{
    let items = comma_list(s);
    let ghost raw = text::char_lists(items@);
    let mut codes: Vec<i32> = Vec::new();
    let mut i: usize = 0;
    proof {
        assert(raw.skip(0) =~= raw);
        if let Ok(all) = code_numbers(raw) {
            assert(codes@ + all =~= all);
        }
    }
    while i < items.len()
        invariant
            i <= items@.len(),
            raw == text::char_lists(items@),
            raw == comma_items(s@),
            match (code_numbers(raw), code_numbers(raw.skip(i as int))) {
                (Ok(all), Ok(rest)) => all == codes@ + rest,
                (Err(a), Err(b)) => a == b,
                _ => false,
            },
        decreases items@.len() - i,
    {
        proof {
            assert(raw.skip(i as int)[0] == items@[i as int]@);
            assert(raw.skip(i as int).skip(1) =~= raw.skip(i as int + 1));
        }
        match number::parse_signed(items[i].as_slice(), i32::MIN as i64, i32::MAX as i64) {
            None => {
                return Err(
                    quoting("invalid exitcode: ", text::string_of(items[i].as_slice()).as_str()),
                );
            },
            Some(n) => {
                let ghost before = codes@;
                codes.push(n as i32);
                proof {
                    if let Ok(rest) = code_numbers(raw.skip(i as int + 1)) {
                        assert(before + (seq![n as i32] + rest) =~= codes@ + rest);
                    }
                }
            },
        }
        i = i + 1;
    }
    proof {
        assert(raw.skip(i as int) =~= Seq::<Seq<char>>::empty());
        assert(codes@ + Seq::<i32>::empty() =~= codes@);
    }
    if codes.len() == 0 {
        codes.push(0);
        proof {
            assert(codes@ =~= seq![0i32]);
        }
    }
    Ok(codes)
}

// ---------------------------------------------------------------------------
// Environments
// ---------------------------------------------------------------------------

/// The position of the first comma outside double quotes; the length when there is none.
pub open spec fn next_comma(s: Seq<char>, quoted: bool) -> int
    decreases s.len(),
{
    if s.len() == 0 || (s[0] == ',' && !quoted) {
        0
    } else {
        1 + next_comma(s.skip(1), quoted != (s[0] == '"'))
    }
}

/// The parts between the commas outside double quotes; an empty last part is dropped.
pub open spec fn comma_parts(s: Seq<char>) -> Seq<Seq<char>>
    decreases s.len(),
{
    let i = next_comma(s, false);
    if 0 <= i < s.len() {
        seq![s.take(i)] + comma_parts(s.skip(i + 1))
    } else if s.len() == 0 {
        Seq::empty()
    } else {
        seq![s]
    }
}

/// Splits on commas that are not inside double quotes.
pub fn split_top_level_commas(s: &str) -> (r: Vec<String>)
    ensures
        text::texts(r@) == comma_parts(s@),
{
    let c = text::chars_of(s);
    let mut r: Vec<String> = Vec::new();
    let mut start: usize = 0;
    proof {
        assert(c@.skip(0) =~= c@);
        assert(text::texts(r@) + comma_parts(c@) =~= comma_parts(c@));
    }
    loop
        invariant
            c@ == s@,
            start <= c@.len(),
            text::texts(r@) + comma_parts(c@.skip(start as int)) == comma_parts(s@),
        decreases c@.len() - start,
    {
        let ghost t = c@.skip(start as int);
        let ghost before = r@;
        let mut i: usize = start;
        let mut quoted = false;
        proof {
            assert(t =~= c@.skip(i as int));
        }
        while i < c.len() && !(c[i] == ',' && !quoted)
            invariant
                start <= i <= c@.len(),
                t == c@.skip(start as int),
                next_comma(t, false) == i - start + next_comma(c@.skip(i as int), quoted),
            decreases c@.len() - i,
        {
            proof {
                assert(c@.skip(i as int)[0] == c@[i as int]);
                assert(c@.skip(i as int).skip(1) =~= c@.skip(i as int + 1));
            }
            quoted = quoted != (c[i] == '"');
            i = i + 1;
        }
        proof {
            if i < c@.len() {
                assert(c@.skip(i as int)[0] == c@[i as int]);
            }
            assert(next_comma(t, false) == i - start);
        }
        let part = slice_subrange(c.as_slice(), start, i);
        proof {
            assert(part@ =~= t.take(i - start));
        }
        if i == c.len() {
            if part.len() > 0 {
                r.push(text::string_of(part));
                proof {
                    assert(part@ =~= t);
                    assert(text::texts(r@) =~= text::texts(before) + seq![t]);
                }
            } else {
                proof {
                    assert(comma_parts(t) =~= Seq::<Seq<char>>::empty());
                    assert(text::texts(r@) + Seq::<Seq<char>>::empty() =~= text::texts(r@));
                }
            }
            return r;
        }
        r.push(text::string_of(part));
        proof {
            assert(t.skip(i - start + 1) =~= c@.skip(i as int + 1));
            assert(text::texts(r@) =~= text::texts(before) + seq![part@]);
            let tail = comma_parts(c@.skip(i as int + 1));
            assert(text::texts(before) + (seq![part@] + tail) =~= text::texts(r@) + tail);
        }
        start = i + 1;
    }
}

/// `s` without a pair of double quotes around it.
pub open spec fn unquoted(s: Seq<char>) -> Seq<char> {
    if s.len() >= 2 && s[0] == '"' && s.last() == '"' {
        s.subrange(1, s.len() - 1)
    } else {
        s
    }
}

/// The variables that the parts of an environment set, in order. A part
/// without `=` sets none.
pub open spec fn variables(parts: Seq<Seq<char>>) -> Seq<(Seq<char>, Seq<char>)>
    decreases parts.len(),
{
    if parts.len() == 0 {
        Seq::empty()
    } else {
        let t = text::trimmed(parts[0]);
        let e = text::first_index(t, '=');
        let rest = variables(parts.skip(1));
        if e < t.len() {
            seq![(text::trimmed(t.take(e)), unquoted(text::trimmed(t.skip(e + 1))))] + rest
        } else {
            rest
        }
    }
}

/// The variables that an `environment=` value sets.
pub open spec fn environment_of(s: Seq<char>) -> Seq<(Seq<char>, Seq<char>)> {
    variables(comma_parts(s))
}

/// Parses an `environment=` value such as `A="1",B="2"` into pairs. Quotes
/// around values are optional and stripped.
pub fn parse_environment(s: &str) -> (r: Vec<(String, String)>)
    ensures
        text::text_pairs(r@) == environment_of(s@),
{
    let parts = split_top_level_commas(s);
    let ghost raw = text::texts(parts@);
    let mut r: Vec<(String, String)> = Vec::new();
    let mut i: usize = 0;
    proof {
        assert(raw.skip(0) =~= raw);
        assert(text::text_pairs(r@) + variables(raw) =~= variables(raw));
    }
    while i < parts.len()
        invariant
            i <= parts@.len(),
            raw == text::texts(parts@),
            text::text_pairs(r@) + variables(raw.skip(i as int)) == variables(raw),
        decreases parts@.len() - i,
    {
        let c = text::chars_of(parts[i].as_str());
        let t = text::trim(c.as_slice());
        let e = text::find_char(t, '=');
        let ghost before = r@;
        proof {
            assert(raw.skip(i as int)[0] == parts@[i as int]@);
            assert(raw.skip(i as int).skip(1) =~= raw.skip(i as int + 1));
        }
        if e < t.len() {
            let head = slice_subrange(t, 0, e);
            let tail = slice_subrange(t, e + 1, t.len());
            proof {
                assert(head@ =~= t@.take(e as int));
                assert(tail@ =~= t@.skip(e as int + 1));
            }
            let key = text::string_of(text::trim(head));
            let v = text::trim(tail);
            let value = if v.len() >= 2 && v[0] == '"' && v[v.len() - 1] == '"' {
                text::string_of(slice_subrange(v, 1, v.len() - 1))
            } else {
                text::string_of(v)
            };
            let ghost pair = (key@, value@);
            r.push((key, value));
            proof {
                assert(pair.1 == unquoted(v@));
                assert(text::text_pairs(r@) =~= text::text_pairs(before) + seq![pair]);
                let rest = variables(raw.skip(i as int + 1));
                assert(text::text_pairs(before) + (seq![pair] + rest) =~= text::text_pairs(r@)
                    + rest);
            }
        }
        i = i + 1;
    }
    proof {
        assert(raw.skip(i as int) =~= Seq::<Seq<char>>::empty());
        assert(variables(raw.skip(i as int)) =~= Seq::<(Seq<char>, Seq<char>)>::empty());
        assert(text::text_pairs(r@) + Seq::<(Seq<char>, Seq<char>)>::empty() =~= text::text_pairs(
            r@,
        ));
    }
    r
}

// ---------------------------------------------------------------------------
// Process names
// ---------------------------------------------------------------------------

/// The number of leading decimal digits.
pub open spec fn digit_run(s: Seq<char>) -> int
    decreases s.len(),
{
    if s.len() > 0 && '0' <= s[0] && s[0] <= '9' {
        1 + digit_run(s.skip(1))
    } else {
        0
    }
}

/// The width that a number format such as `02d` or `d` asks for, and the
/// length of the format; `None` when `s` does not begin with one, or the width
/// is no machine number.
pub open spec fn number_format(s: Seq<char>) -> Option<(nat, int)> {
    let j = digit_run(s);
    if 0 <= j < s.len() && s[j] == 'd' {
        if j == 0 {
            Some((0, 1))
        } else {
            match number::unsigned_upto(s.take(j), 10, usize::MAX as nat) {
                Some(w) => Some((w, j + 1)),
                None => None,
            }
        }
    } else {
        None
    }
}

/// `s` with each `%(process_num)` and its number format replaced by `num`. One
/// without a format ends the replacing.
pub open spec fn numbered(s: Seq<char>, num: nat) -> Seq<char>
    decreases s.len(),
{
    match text::first_occurrence(s, "%(process_num)"@) {
        Some(i) => {
            let rest = s.skip(i + 14);
            match number_format(rest) {
                Some((width, len)) => if 0 <= i && i + 14 <= s.len() && 0 < len <= rest.len() {
                    s.take(i) + number::zero_padded(number::nat_text(num), width) + numbered(
                        rest.skip(len),
                        num,
                    )
                } else {
                    s
                },
                None => s,
            }
        },
        None => s,
    }
}

/// The process name that a template gives to instance `num` of a program.
pub open spec fn process_name(template: Seq<char>, program: Seq<char>, num: nat) -> Seq<char> {
    numbered(text::replaced(template, "%(program_name)s"@, program), num)
}

proof fn lemma_digit_run_is(s: Seq<char>, j: int)
    requires
        0 <= j <= s.len(),
        forall|k: int| 0 <= k < j ==> '0' <= #[trigger] s[k] <= '9',
        j < s.len() ==> !('0' <= s[j] <= '9'),
    ensures
        digit_run(s) == j,
    decreases j,
{
    if j > 0 {
        let t = s.skip(1);
        assert('0' <= s[0] <= '9');
        assert forall|k: int| 0 <= k < j - 1 implies '0' <= #[trigger] t[k] <= '9' by {
            assert(t[k] == s[k + 1]);
        }
        lemma_digit_run_is(t, j - 1);
    }
}

/// Reads a number format off the front.
fn read_number_format(s: &[char]) -> (r: Option<(usize, usize)>)
    ensures
        match r {
            Some((width, len)) => number_format(s@) == Some((width as nat, len as int)) && 0 < len
                <= s@.len(),
            None => number_format(s@) is None,
        },
{
    let mut j: usize = 0;
    while j < s.len() && '0' <= s[j] && s[j] <= '9'
        invariant
            j <= s@.len(),
            forall|k: int| 0 <= k < j ==> '0' <= #[trigger] s@[k] <= '9',
        decreases s@.len() - j,
    {
        j = j + 1;
    }
    proof {
        lemma_digit_run_is(s@, j as int);
    }
    if j == s.len() || s[j] != 'd' {
        return None;
    }
    if j == 0 {
        return Some((0, 1));
    }
    let digits = slice_subrange(s, 0, j);
    proof {
        assert(digits@ =~= s@.take(j as int));
    }
    match number::parse_unsigned(digits, 10, usize::MAX as u64) {
        Some(w) => Some((w as usize, j + 1)),
        None => None,
    }
}

/// Expands `%(program_name)s` and `%(process_num)d` (and zero-padded variants
/// like `%(process_num)02d`) in a process name template.
pub fn expand_process_name(template: &str, program_name: &str, process_num: usize) -> (r: String)
    ensures
        r@ == process_name(template@, program_name@, process_num as nat),
{
    let t = text::chars_of(template);
    proof {
        reveal_strlit("%(program_name)s");
        reveal_strlit("%(process_num)");
    }
    let named = text::replace(t.as_slice(), "%(program_name)s", program_name);
    let ghost num = process_num as nat;
    let mut out: Vec<char> = Vec::new();
    let mut i: usize = 0;
    proof {
        assert(named@.skip(0) =~= named@);
        assert(out@ + numbered(named@, num) =~= numbered(named@, num));
    }
    loop
        invariant
            i <= named@.len(),
            num == process_num as nat,
            named@ == text::replaced(template@, "%(program_name)s"@, program_name@),
            "%(process_num)"@.len() == 14,
            out@ + numbered(named@.skip(i as int), num) == numbered(named@, num),
        decreases named@.len() - i,
    {
        let rest = slice_subrange(named.as_slice(), i, named.len());
        let ghost before = out@;
        proof {
            assert(rest@ =~= named@.skip(i as int));
        }
        if let Some(k) = text::find_text(rest, "%(process_num)") {
            let spec_part = slice_subrange(rest, k + 14, rest.len());
            proof {
                assert(spec_part@ =~= rest@.skip(k + 14));
            }
            if let Some((width, len)) = read_number_format(spec_part) {
                let head = slice_subrange(rest, 0, k);
                let digits = number::padded_chars(process_num as u64, width);
                text::extend(&mut out, head);
                text::extend(&mut out, digits.as_slice());
                proof {
                    assert(head@ =~= rest@.take(k as int));
                    assert(spec_part@.skip(len as int) =~= named@.skip(i + k + 14 + len));
                    let tail = numbered(named@.skip(i + k + 14 + len), num);
                    assert(before + (head@ + digits@ + tail) =~= out@ + tail);
                }
                i = i + k + 14 + len;
                continue;
            }
        }
        text::extend(&mut out, rest);
        return text::string_of(out.as_slice());
    }
}

// ---------------------------------------------------------------------------
// Addresses
// ---------------------------------------------------------------------------

/// The `host:port` that a `port=` value stands for. `*:9001` is every
/// interface, a bare `9001` the local host.
pub open spec fn inet_addr(s: Seq<char>) -> Seq<char> {
    let t = text::trimmed(s);
    if text::has_prefix(t, "*:"@) {
        "0.0.0.0:"@ + t.skip(2)
    } else if t.contains(':') {
        t
    } else {
        "127.0.0.1:"@ + t
    }
}

/// Normalises a `port=` value into a `host:port` string. `*:9001` binds all
/// interfaces; a bare `9001` binds localhost.
pub fn normalize_inet_addr(port: &str) -> (r: String)
    ensures
        r@ == inet_addr(port@),
{
    let c = text::chars_of(port);
    let t = text::trim(c.as_slice());
    let mut out = String::new();
    proof {
        reveal_strlit("*:");
    }
    if text::starts_with(t, "*:") {
        let rest = slice_subrange(t, 2, t.len());
        out.append("0.0.0.0:");
        out.append(text::string_of(rest).as_str());
        proof {
            assert(rest@ =~= t@.skip(2));
            assert(out@ =~= "0.0.0.0:"@ + t@.skip(2));
        }
    } else {
        let i = text::find_char(t, ':');
        if i == t.len() {
            out.append("127.0.0.1:");
        } else {
            proof {
                assert(t@[i as int] == ':');
            }
        }
        out.append(text::string_of(t).as_str());
        proof {
            assert(out@ =~= inet_addr(port@));
        }
    }
    out
}

} // verus!
