//! What a configuration file says is what is read from it: lists, numbers,
//! sizes, signals and names come out as they were written down, and every
//! setting ends up where it belongs.
use crate::config::assemble;
use crate::config::assemble::ConfigModel;
use crate::config::ini;
use crate::config::ini::SectionModel;
use crate::config::laws;
use crate::config::program;
use crate::config::settings;
use crate::config::settings::AuthModel;
use crate::config::settings::LogTargetModel;
use crate::config::settings::ProgramModel;
use crate::config::values;
use crate::config::values::AutoRestart;
use crate::config::values::Signals;
use crate::number;
use crate::text;
use vstd::prelude::*;

verus! {

// ---------------------------------------------------------------------------
// Lists
// ---------------------------------------------------------------------------

/// Items with commas between them.
pub open spec fn listed(items: Seq<Seq<char>>) -> Seq<char>
    decreases items.len(),
{
    if items.len() == 0 {
        Seq::empty()
    } else if items.len() == 1 {
        items[0]
    } else {
        items[0] + seq![','] + listed(items.skip(1))
    }
}

/// Whether a text can be an item of a list: it holds no comma, and neither
/// begins nor ends with white space.
pub open spec fn is_item(s: Seq<char>) -> bool {
    &&& s.len() > 0
    &&& !text::is_white(s[0])
    &&& !text::is_white(s.last())
    &&& forall|i: int| 0 <= i < s.len() ==> #[trigger] s[i] != ','
}

/// Splitting a list at its commas gives the items.
proof fn lemma_pieces(items: Seq<Seq<char>>)
    requires
        items.len() > 0,
        forall|k: int| 0 <= k < items.len() ==> is_item(#[trigger] items[k]),
    ensures
        text::pieces(listed(items), ',') == items,
    decreases items.len(),
{
    let s = listed(items);
    let a = items[0];
    let n = a.len() as int;
    assert(is_item(items[0]));
    if items.len() == 1 {
        text::lemma_first_index_is(s, ',', n);
        assert(seq![s] =~= items);
    } else {
        let t = items.skip(1);
        assert forall|k: int| 0 <= k < t.len() implies is_item(#[trigger] t[k]) by {
            assert(t[k] == items[k + 1]);
        }
        lemma_pieces(t);
        assert forall|j: int| 0 <= j < n implies s[j] != ',' by {
            assert(s[j] == a[j]);
        }
        assert(s[n] == ',');
        text::lemma_first_index_is(s, ',', n);
        assert(s.take(n) =~= a);
        assert(s.skip(n + 1) =~= listed(t));
        assert(seq![a] + t =~= items);
    }
}

proof fn lemma_nonblank(items: Seq<Seq<char>>)
    requires
        forall|k: int| 0 <= k < items.len() ==> is_item(#[trigger] items[k]),
    ensures
        values::nonblank(items) == items,
    decreases items.len(),
{
    if items.len() > 0 {
        let a = items[0];
        assert(is_item(items[0]));
        assert(text::trimmed(a) == a);
        let t = items.skip(1);
        assert forall|k: int| 0 <= k < t.len() implies is_item(#[trigger] t[k]) by {
            assert(t[k] == items[k + 1]);
        }
        lemma_nonblank(t);
        assert(seq![a] + t =~= items);
    } else {
        assert(items =~= Seq::<Seq<char>>::empty());
    }
}

/// A comma-separated list gives its items, in order.
pub proof fn law_comma_list(items: Seq<Seq<char>>)
    requires
        items.len() > 0,
        forall|k: int| 0 <= k < items.len() ==> is_item(#[trigger] items[k]),
    ensures
        values::comma_items(listed(items)) == items,
{
    lemma_pieces(items);
    lemma_nonblank(items);
}

/// A list of events is that list, in upper case.
pub proof fn law_event_list(items: Seq<Seq<char>>)
    requires
        items.len() > 0,
        forall|k: int| 0 <= k < items.len() ==> is_item(#[trigger] items[k]),
    ensures
        values::event_names(listed(items)).len() == items.len(),
        forall|k: int|
            0 <= k < items.len() ==> #[trigger] values::event_names(listed(items))[k]
                == text::uppered(items[k]),
{
    law_comma_list(items);
}

/// The texts of a list of numbers.
pub open spec fn number_texts(codes: Seq<i32>) -> Seq<Seq<char>> {
    codes.map_values(|c: i32| number::int_text(c as int))
}

/// The text of a number can be an item of a list.
proof fn lemma_number_is_item(n: int)
    ensures
        is_item(number::int_text(n)),
        text::trimmed(number::int_text(n)) == number::int_text(n),
{
    let m = if n < 0 {
        (-n) as nat
    } else {
        n as nat
    };
    number::lemma_nat_text_digits(m);
    let t = number::int_text(n);
    let d = number::nat_text(m);
    assert forall|i: int| 0 <= i < t.len() implies '-' <= #[trigger] t[i] <= '9' by {
        if n < 0 {
            if i > 0 {
                assert(t[i] == d[i - 1]);
            }
        } else {
            assert(t[i] == d[i]);
        }
    }
    assert('-' <= t[0] <= '9');
    assert('-' <= t[t.len() - 1] <= '9');
}

proof fn lemma_code_numbers(codes: Seq<i32>)
    ensures
        values::code_numbers(number_texts(codes)) == Ok::<Seq<i32>, Seq<char>>(codes),
    decreases codes.len(),
{
    let t = number_texts(codes);
    if codes.len() == 0 {
        assert(codes =~= Seq::<i32>::empty());
    } else {
        let c = codes[0];
        lemma_code_numbers(codes.skip(1));
        assert(t.skip(1) =~= number_texts(codes.skip(1)));
        assert(t[0] == number::int_text(c as int));
        number::law_signed_round_trip(c as int);
        assert(seq![c] + codes.skip(1) =~= codes);
    }
}

/// A list of exit codes is read as just those codes, in order.
pub proof fn law_exit_code_list(codes: Seq<i32>)
    requires
        codes.len() > 0,
    ensures
        values::exit_codes(listed(number_texts(codes))) == Ok::<Seq<i32>, Seq<char>>(codes),
{
    let t = number_texts(codes);
    assert forall|k: int| 0 <= k < t.len() implies is_item(#[trigger] t[k]) by {
        lemma_number_is_item(codes[k] as int);
    }
    law_comma_list(t);
    lemma_code_numbers(codes);
}

// ---------------------------------------------------------------------------
// Words, sizes and masks
// ---------------------------------------------------------------------------

/// The words for yes and no, in any letter case and with white space around
/// them; nothing else is a truth value.
pub proof fn law_booleans(s: Seq<char>)
    ensures
        ({
            let t = text::lowered(text::trimmed(s));
            let yes = t == "true"@ || t == "yes"@ || t == "on"@ || t == "1"@;
            let no = t == "false"@ || t == "no"@ || t == "off"@ || t == "0"@;
            &&& values::bool_of(s) == Ok::<bool, Seq<char>>(true) <==> yes
            &&& values::bool_of(s) == Ok::<bool, Seq<char>>(false) <==> no
            &&& values::bool_of(s) is Err <==> !yes && !no
            &&& values::autorestart_of(s) == Ok::<AutoRestart, Seq<char>>(AutoRestart::Always)
                <==> yes
            &&& values::autorestart_of(s) == Ok::<AutoRestart, Seq<char>>(AutoRestart::Never)
                <==> no
            &&& values::autorestart_of(s) == Ok::<AutoRestart, Seq<char>>(
                AutoRestart::Unexpected,
            ) <==> t == "unexpected"@
        }),
{
    reveal_strlit("true");
    reveal_strlit("yes");
    reveal_strlit("on");
    reveal_strlit("1");
    reveal_strlit("false");
    reveal_strlit("no");
    reveal_strlit("off");
    reveal_strlit("0");
    reveal_strlit("unexpected");
    assert("true"@.len() == 4 && "yes"@.len() == 3 && "on"@.len() == 2 && "1"@.len() == 1);
    assert("false"@.len() == 5 && "no"@.len() == 2 && "off"@.len() == 3 && "0"@.len() == 1);
    assert("unexpected"@.len() == 10);
    assert("on"@[0] == 'o' && "no"@[0] == 'n');
    assert("yes"@[0] == 'y' && "off"@[0] == 'o');
    assert("1"@[0] == '1' && "0"@[0] == '0');
}

/// A number with a unit behind it.
proof fn lemma_size(n: nat, unit: Seq<char>, lower: Seq<char>, bytes: nat)
    requires
        unit.len() <= 2,
        text::lowered(unit) == lower,
        unit.len() > 0 ==> !text::is_white(unit.last()),
        values::size_unit(number::nat_text(n) + lower) == (unit.len(), bytes),
        n * bytes <= u64::MAX,
        n <= u64::MAX,
    ensures
        values::byte_size(number::nat_text(n) + unit) == Some(n * bytes),
{
    let d = number::nat_text(n);
    let s = d + unit;
    number::lemma_nat_text_digits(n);
    assert('0' <= d[0] <= '9');
    assert('0' <= d[d.len() - 1] <= '9');
    assert(s[0] == d[0]);
    assert(!text::is_white(s[0]));
    assert(!text::is_white(s[s.len() - 1])) by {
        if unit.len() == 0 {
            assert(s[s.len() - 1] == d[d.len() - 1]);
        } else {
            assert(s[s.len() - 1] == unit[unit.len() - 1]);
        }
    }
    assert(text::trimmed(s) == s);
    let t = text::lowered(s);
    assert(t =~= d + lower) by {
        assert forall|i: int| 0 <= i < d.len() implies #[trigger] t[i] == d[i] by {
            assert('0' <= d[i] <= '9');
        }
        assert forall|i: int| 0 <= i < lower.len() implies #[trigger] lower[i]
            == text::lower_char(unit[i]) by {}
    }
    assert(t.take(t.len() - unit.len()) =~= d);
    assert(text::trimmed(d) == d);
    number::law_unsigned_round_trip(n);
}

/// A size is a number of bytes, or of kilobytes, megabytes or gigabytes of
/// 1024 each; units may be in either letter case.
pub proof fn law_byte_sizes(n: nat)
    ensures
        n <= u64::MAX ==> values::byte_size(number::nat_text(n)) == Some(n),
        n <= u64::MAX ==> values::byte_size(number::nat_text(n) + "B"@) == Some(n),
        n * 1024 <= u64::MAX ==> values::byte_size(number::nat_text(n) + "KB"@) == Some(n * 1024),
        n * 1024 <= u64::MAX ==> values::byte_size(number::nat_text(n) + "kb"@) == Some(n * 1024),
        n * 1048576 <= u64::MAX ==> values::byte_size(number::nat_text(n) + "MB"@) == Some(
            n * 1048576,
        ),
        n * 1073741824 <= u64::MAX ==> values::byte_size(number::nat_text(n) + "GB"@) == Some(
            n * 1073741824,
        ),
{
    reveal_strlit("B");
    reveal_strlit("KB");
    reveal_strlit("kb");
    reveal_strlit("MB");
    reveal_strlit("GB");
    reveal_strlit("b");
    reveal_strlit("mb");
    reveal_strlit("gb");
    let d = number::nat_text(n);
    let none = Seq::<char>::empty();
    number::lemma_nat_text_digits(n);
    assert('0' <= d[d.len() - 1] <= '9');
    assert(text::lowered(none) =~= none);
    assert(text::lowered("B"@) =~= "b"@);
    assert(text::lowered("KB"@) =~= "kb"@);
    assert(text::lowered("kb"@) =~= "kb"@);
    assert(text::lowered("MB"@) =~= "mb"@);
    assert(text::lowered("GB"@) =~= "gb"@);
    assert(d + none =~= d);
    lemma_no_unit(d);
    lemma_unit_b(d);
    lemma_unit(d, "kb"@, 'k');
    lemma_unit(d, "mb"@, 'm');
    lemma_unit(d, "gb"@, 'g');
    if n <= u64::MAX {
        lemma_size(n, none, none, 1);
        lemma_size(n, "B"@, "b"@, 1);
    }
    if n * 1024 <= u64::MAX {
        lemma_size(n, "KB"@, "kb"@, 1024);
        lemma_size(n, "kb"@, "kb"@, 1024);
    }
    if n * 1048576 <= u64::MAX {
        lemma_size(n, "MB"@, "mb"@, 1048576);
    }
    if n * 1073741824 <= u64::MAX {
        lemma_size(n, "GB"@, "gb"@, 1073741824);
    }
}

/// What the end of a lower-case size says.
proof fn lemma_suffix(s: Seq<char>, p: Seq<char>, i: int)
    requires
        p.len() <= s.len(),
        0 <= i < p.len(),
        p[i] != s[s.len() - p.len() + i],
    ensures
        !text::has_suffix(s, p),
{
    assert(s.skip(s.len() - p.len())[i] == s[s.len() - p.len() + i]);
}

proof fn lemma_no_unit(d: Seq<char>)
    requires
        d.len() > 0,
        '0' <= d.last() <= '9',
    ensures
        values::size_unit(d) == (0nat, 1nat),
{
    reveal_strlit("b");
    reveal_strlit("kb");
    reveal_strlit("mb");
    reveal_strlit("gb");
    assert("b"@[0] == 'b' && d[d.len() - 1] != 'b');
    lemma_suffix(d, "b"@, 0);
    if d.len() >= 2 {
        assert("kb"@[1] == 'b' && d[d.len() - 2 + 1] != 'b');
        assert("mb"@[1] == 'b');
        assert("gb"@[1] == 'b');
        lemma_suffix(d, "kb"@, 1);
        lemma_suffix(d, "mb"@, 1);
        lemma_suffix(d, "gb"@, 1);
    }
}

proof fn lemma_unit_b(d: Seq<char>)
    requires
        d.len() > 0,
        '0' <= d.last() <= '9',
    ensures
        values::size_unit(d + "b"@) == (1nat, 1nat),
{
    reveal_strlit("b");
    reveal_strlit("kb");
    reveal_strlit("mb");
    reveal_strlit("gb");
    let s = d + "b"@;
    assert(s.skip(s.len() - 1) =~= "b"@);
    assert(s[s.len() - 2 + 0] == d[d.len() - 1]);
    assert("kb"@[0] == 'k');
    assert("mb"@[0] == 'm');
    assert("gb"@[0] == 'g');
    lemma_suffix(s, "kb"@, 0);
    lemma_suffix(s, "mb"@, 0);
    lemma_suffix(s, "gb"@, 0);
}

proof fn lemma_unit(d: Seq<char>, unit: Seq<char>, c: char)
    requires
        d.len() > 0,
        unit.len() == 2,
        unit[0] == c,
        unit[1] == 'b',
        c == 'k' || c == 'm' || c == 'g',
    ensures
        values::size_unit(d + unit) == (2nat, if c == 'k' {
            1024nat
        } else if c == 'm' {
            1048576nat
        } else {
            1073741824nat
        }),
{
    reveal_strlit("kb");
    reveal_strlit("mb");
    reveal_strlit("gb");
    let s = d + unit;
    assert(s[s.len() - 2 + 0] == c);
    assert("kb"@[0] == 'k');
    assert("mb"@[0] == 'm');
    assert("gb"@[0] == 'g');
    if c == 'k' {
        assert(s.skip(s.len() - 2) =~= "kb"@);
        lemma_suffix(s, "mb"@, 0);
        lemma_suffix(s, "gb"@, 0);
    } else if c == 'm' {
        assert(s.skip(s.len() - 2) =~= "mb"@);
        lemma_suffix(s, "gb"@, 0);
    } else {
        assert(s.skip(s.len() - 2) =~= "gb"@);
    }
}

/// The octal text of a number.
pub open spec fn octal_text(n: nat) -> Seq<char>
    decreases n,
{
    if n < 8 {
        seq![(48 + n) as char]
    } else {
        octal_text(n / 8).push((48 + n % 8) as char)
    }
}

proof fn lemma_octal(n: nat)
    ensures
        octal_text(n).len() >= 1,
        forall|i: int| 0 <= i < octal_text(n).len() ==> '0' <= #[trigger] octal_text(n)[i] <= '7',
        number::digits_value(octal_text(n), 8) == Some(n),
    decreases n,
{
    reveal_with_fuel(number::digits_value, 2);
    if n < 8 {
        assert(octal_text(n).drop_last() =~= Seq::<char>::empty());
        assert(number::digit_value(octal_text(n).last(), 8) == Some(n));
    } else {
        lemma_octal(n / 8);
        assert(octal_text(n).drop_last() =~= octal_text(n / 8));
        assert(number::digit_value(octal_text(n).last(), 8) == Some(n % 8));
    }
}

/// A file mode mask is read as an octal number.
pub proof fn law_umask(n: nat)
    requires
        n <= u32::MAX,
    ensures
        values::umask_of(octal_text(n)) == Some(n),
        values::umask_of(seq!['0'] + octal_text(n)) == Some(n),
{
    lemma_octal(n);
    reveal_strlit("0o");
    let t = octal_text(n);
    let z = seq!['0'] + t;
    assert('0' <= t[0] <= '7');
    assert('0' <= t[t.len() - 1] <= '7');
    assert(!text::has_prefix(t, "0o"@)) by {
        if t.len() >= 2 {
            assert(t.take(2)[1] == t[1]);
            assert('0' <= t[1] <= '7');
            assert("0o"@[1] == 'o');
        }
    }
    assert(text::trimmed(t) == t);
    assert(!text::has_prefix(z, "0o"@)) by {
        assert(z.take(2)[1] == t[0]);
        assert("0o"@[1] == 'o');
    }
    assert(z[z.len() - 1] == t[t.len() - 1]);
    assert(text::trimmed(z) == z);
    lemma_leading_zero(t);
}

/// A zero in front changes no octal number.
proof fn lemma_leading_zero(t: Seq<char>)
    ensures
        number::digits_value(seq!['0'] + t, 8) == number::digits_value(t, 8),
    decreases t.len(),
{
    let z = seq!['0'] + t;
    if t.len() == 0 {
        reveal_with_fuel(number::digits_value, 2);
        assert(z.drop_last() =~= Seq::<char>::empty());
        assert(number::digit_value(z.last(), 8) == Some(0nat));
    } else {
        lemma_leading_zero(t.drop_last());
        assert(z.drop_last() =~= seq!['0'] + t.drop_last());
        assert(z.last() == t.last());
    }
}

// ---------------------------------------------------------------------------
// Signals
// ---------------------------------------------------------------------------

/// A name is looked up in upper case, with or without `SIG` in front.
proof fn lemma_signal(signals: Signals, name: Seq<char>)
    requires
        name.len() >= 3,
        forall|i: int| 0 <= i < name.len() ==> '0' <= #[trigger] name[i] <= 'Z',
        name[1] != 'I',
    ensures
        values::signal_of(signals, name) == (match values::signal_named(signals, name) {
            Some(n) => Ok::<i32, Seq<char>>(n),
            None => Err::<i32, Seq<char>>("unknown signal: "@ + text::debug_text(name)),
        }),
        values::signal_named(signals, name) is Some ==> values::signal_of(
            signals,
            "SIG"@ + name,
        ) == Ok::<i32, Seq<char>>(values::signal_named(signals, name)->0),
{
    reveal_strlit("SIG");
    assert('0' <= name[0] <= 'Z');
    assert('0' <= name[name.len() - 1] <= 'Z');
    assert(text::trimmed(name) == name);
    assert(text::uppered(name) =~= name);
    assert(!text::has_prefix(name, "SIG"@)) by {
        assert(name.take(3)[1] == name[1]);
        assert("SIG"@[1] == 'I');
    }
    let full = "SIG"@ + name;
    assert(full[0] == 'S');
    assert(full[full.len() - 1] == name[name.len() - 1]);
    assert(text::trimmed(full) == full);
    assert(text::uppered(full) =~= full) by {
        assert forall|i: int| 0 <= i < full.len() implies #[trigger] text::uppered(full)[i]
            == full[i] by {
            if i >= 3 {
                assert(full[i] == name[i - 3]);
            }
        }
    }
    assert(full.take(3) =~= "SIG"@);
    assert(full.skip(3) =~= name);
}

/// Each signal goes by its own name, with or without `SIG` in front.
pub proof fn law_signal_names(signals: Signals)
    ensures
        values::signal_of(signals, "TERM"@) == Ok::<i32, Seq<char>>(signals.term),
        values::signal_of(signals, "KILL"@) == Ok::<i32, Seq<char>>(signals.kill),
        values::signal_of(signals, "INT"@) == Ok::<i32, Seq<char>>(signals.int_),
        values::signal_of(signals, "QUIT"@) == Ok::<i32, Seq<char>>(signals.quit),
        values::signal_of(signals, "HUP"@) == Ok::<i32, Seq<char>>(signals.hup),
        values::signal_of(signals, "USR1"@) == Ok::<i32, Seq<char>>(signals.usr1),
        values::signal_of(signals, "USR2"@) == Ok::<i32, Seq<char>>(signals.usr2),
        values::signal_of(signals, "STOP"@) == Ok::<i32, Seq<char>>(signals.stop),
        values::signal_of(signals, "CONT"@) == Ok::<i32, Seq<char>>(signals.cont),
        values::signal_of(signals, "SIG"@ + "TERM"@) == Ok::<i32, Seq<char>>(signals.term),
        values::signal_of(signals, "SIG"@ + "KILL"@) == Ok::<i32, Seq<char>>(signals.kill),
        values::signal_of(signals, "SIG"@ + "INT"@) == Ok::<i32, Seq<char>>(signals.int_),
        values::signal_of(signals, "SIG"@ + "QUIT"@) == Ok::<i32, Seq<char>>(signals.quit),
        values::signal_of(signals, "SIG"@ + "HUP"@) == Ok::<i32, Seq<char>>(signals.hup),
        values::signal_of(signals, "SIG"@ + "USR1"@) == Ok::<i32, Seq<char>>(signals.usr1),
        values::signal_of(signals, "SIG"@ + "USR2"@) == Ok::<i32, Seq<char>>(signals.usr2),
        values::signal_of(signals, "SIG"@ + "STOP"@) == Ok::<i32, Seq<char>>(signals.stop),
        values::signal_of(signals, "SIG"@ + "CONT"@) == Ok::<i32, Seq<char>>(signals.cont),
{
    reveal_strlit("TERM");
    reveal_strlit("KILL");
    reveal_strlit("INT");
    reveal_strlit("QUIT");
    reveal_strlit("HUP");
    reveal_strlit("USR1");
    reveal_strlit("USR2");
    reveal_strlit("STOP");
    reveal_strlit("CONT");
    assert("TERM"@[0] == 'T' && "QUIT"@[0] == 'Q' && "STOP"@[0] == 'S');
    assert("CONT"@[0] == 'C' && "INT"@[0] == 'I' && "HUP"@[0] == 'H');
    assert("USR1"@[0] == 'U' && "USR2"@[0] == 'U' && "USR1"@[3] == '1' && "USR2"@[3] == '2');
    assert("KILL"@[0] == 'K' && "KILL"@[1] == 'I');
    lemma_signal(signals, "TERM"@);
    lemma_kill(signals);
    lemma_signal(signals, "INT"@);
    lemma_signal(signals, "QUIT"@);
    lemma_signal(signals, "HUP"@);
    lemma_signal(signals, "USR1"@);
    lemma_signal(signals, "USR2"@);
    lemma_signal(signals, "STOP"@);
    lemma_signal(signals, "CONT"@);
}

proof fn lemma_kill(signals: Signals)
    ensures
        values::signal_of(signals, "KILL"@) == Ok::<i32, Seq<char>>(signals.kill),
        values::signal_of(signals, "SIG"@ + "KILL"@) == Ok::<i32, Seq<char>>(signals.kill),
{
    reveal_strlit("SIG");
    reveal_strlit("KILL");
    reveal_strlit("TERM");
    let name = "KILL"@;
    let full = "SIG"@ + name;
    assert("TERM"@[0] == 'T' && name[0] == 'K');
    assert(text::trimmed(name) == name);
    assert(text::uppered(name) =~= name);
    assert(!text::has_prefix(name, "SIG"@)) by {
        assert(name.take(3)[0] == 'K');
        assert("SIG"@[0] == 'S');
    }
    assert(full[0] == 'S' && full[6] == 'L');
    assert(text::trimmed(full) == full);
    assert(text::uppered(full) =~= full);
    assert(full.take(3) =~= "SIG"@);
    assert(full.skip(3) =~= name);
}

// ---------------------------------------------------------------------------
// Programs
// ---------------------------------------------------------------------------

/// What a section says about a number is what its programs have.
proof fn lemma_number(
    items: Seq<(Seq<char>, Seq<char>)>,
    key: Seq<char>,
    max: nat,
    default: nat,
    error: Seq<char>,
)
    ensures
        forall|n: nat|
            ini::value_of(items, key) == Some(#[trigger] number::nat_text(n))
                ==> settings::number_item(items, key, max, default, error) == (if n <= max {
                Ok::<nat, Seq<char>>(n)
            } else {
                Err::<nat, Seq<char>>(error)
            }),
{
    assert forall|n: nat|
        ini::value_of(items, key) == Some(#[trigger] number::nat_text(n)) implies settings::number_item(
        items,
        key,
        max,
        default,
        error,
    ) == (if n <= max {
        Ok::<nat, Seq<char>>(n)
    } else {
        Err::<nat, Seq<char>>(error)
    }) by {
        number::law_bounds(n, max, 0, 0, 0);
    }
}

/// The numbers that a section gives are those that its programs have.
pub proof fn law_program_numbers(
    name: Seq<char>,
    items: Seq<(Seq<char>, Seq<char>)>,
    base: Seq<(Seq<char>, Seq<char>)>,
    listener: bool,
    signals: Signals,
    i: int,
    n: nat,
)
    requires
        program::programs_of(name, items, base, listener, signals) is Ok,
        0 <= i < program::programs_of(name, items, base, listener, signals)->Ok_0.len(),
    ensures
        ({
            let p = program::programs_of(name, items, base, listener, signals)->Ok_0[i];
            let given = |key: Seq<char>| ini::value_of(items, key) == Some(number::nat_text(n));
            &&& given("startsecs"@) ==> p.startsecs == n
            &&& given("startretries"@) ==> p.startretries == n
            &&& given("stopwaitsecs"@) ==> p.stopwaitsecs == n
            &&& given("buffer_size"@) ==> p.buffer_size == n
            &&& given("stdout_logfile_backups"@) ==> p.stdout_logfile_backups == n
            &&& given("stderr_logfile_backups"@) ==> p.stderr_logfile_backups == n
            &&& given("stdout_logfile_maxbytes"@) ==> p.stdout_logfile_maxbytes == n
            &&& given("stderr_logfile_maxbytes"@) ==> p.stderr_logfile_maxbytes == n
        }),
{
    lemma_number(items, "startsecs"@, u64::MAX as nat, 1, "invalid startsecs"@);
    lemma_number(items, "startretries"@, u32::MAX as nat, 3, "invalid startretries"@);
    lemma_number(items, "stopwaitsecs"@, u64::MAX as nat, 10, "invalid stopwaitsecs"@);
    lemma_number(items, "buffer_size"@, usize::MAX as nat, 10, "invalid buffer_size"@);
    lemma_number(
        items,
        "stdout_logfile_backups"@,
        u32::MAX as nat,
        10,
        "invalid stdout_logfile_backups"@,
    );
    lemma_number(
        items,
        "stderr_logfile_backups"@,
        u32::MAX as nat,
        10,
        "invalid stderr_logfile_backups"@,
    );
    lemma_plain_size(n);
}

/// A size without a unit is that many bytes, or too many.
proof fn lemma_plain_size(n: nat)
    ensures
        values::byte_size(number::nat_text(n)) == (if n <= u64::MAX {
            Some(n)
        } else {
            None
        }),
{
    law_byte_sizes(n);
    if n > u64::MAX {
        let d = number::nat_text(n);
        number::lemma_nat_text_digits(n);
        assert('0' <= d[0] <= '9');
        assert('0' <= d[d.len() - 1] <= '9');
        assert(text::trimmed(d) == d);
        assert(text::lowered(d) =~= d) by {
            assert forall|i: int| 0 <= i < d.len() implies #[trigger] text::lowered(d)[i]
                == d[i] by {
                assert('0' <= d[i] <= '9');
            }
        }
        lemma_no_unit(d);
        assert(d.take(d.len() - 0) =~= d);
        number::law_unsigned_round_trip(n);
    }
}

/// The exit codes that a section lists are just those that its programs are
/// expected to end with, in order.
pub proof fn law_program_exit_codes(
    name: Seq<char>,
    items: Seq<(Seq<char>, Seq<char>)>,
    base: Seq<(Seq<char>, Seq<char>)>,
    listener: bool,
    signals: Signals,
    i: int,
    codes: Seq<i32>,
)
    requires
        program::programs_of(name, items, base, listener, signals) is Ok,
        0 <= i < program::programs_of(name, items, base, listener, signals)->Ok_0.len(),
    ensures
        ({
            let p = program::programs_of(name, items, base, listener, signals)->Ok_0[i];
            &&& codes.len() > 0 && ini::value_of(items, "exitcodes"@) == Some(
                listed(number_texts(codes)),
            ) ==> p.exitcodes == codes
            &&& ini::value_of(items, "exitcodes"@) is None ==> p.exitcodes == seq![0i32]
        }),
{
    if codes.len() > 0 {
        law_exit_code_list(codes);
    }
}

/// The order in which a program starts is by the number that its section gives.
pub proof fn law_program_priority(
    name: Seq<char>,
    items: Seq<(Seq<char>, Seq<char>)>,
    base: Seq<(Seq<char>, Seq<char>)>,
    listener: bool,
    signals: Signals,
    i: int,
    n: int,
)
    requires
        program::programs_of(name, items, base, listener, signals) is Ok,
        0 <= i < program::programs_of(name, items, base, listener, signals)->Ok_0.len(),
    ensures
        ({
            let p = program::programs_of(name, items, base, listener, signals)->Ok_0[i];
            &&& ini::value_of(items, "priority"@) == Some(number::int_text(n)) ==> p.priority == n
            &&& ini::value_of(items, "priority"@) is None ==> p.priority == (if listener {
                -1
            } else {
                999int
            })
        }),
{
    number::law_bounds(0, 0, n, i32::MIN as int, i32::MAX as int);
}

/// The words of a section become the settings of its programs: each key is read
/// for the setting it names, and for no other.
pub proof fn law_program_words(
    name: Seq<char>,
    items: Seq<(Seq<char>, Seq<char>)>,
    base: Seq<(Seq<char>, Seq<char>)>,
    listener: bool,
    signals: Signals,
    i: int,
    v: Seq<char>,
)
    requires
        program::programs_of(name, items, base, listener, signals) is Ok,
        0 <= i < program::programs_of(name, items, base, listener, signals)->Ok_0.len(),
    ensures
        ({
            let p = program::programs_of(name, items, base, listener, signals)->Ok_0[i];
            let given = |key: Seq<char>| ini::value_of(items, key) == Some(v);
            let missing = |key: Seq<char>| ini::value_of(items, key) is None;
            &&& given("command"@) ==> p.command == v
            &&& !missing("command"@)
            &&& given("directory"@) ==> p.directory == Some(v)
            &&& missing("directory"@) ==> p.directory is None
            &&& given("user"@) ==> p.user == Some(v)
            &&& missing("user"@) ==> p.user is None
            &&& given("autostart"@) ==> values::bool_of(v) == Ok::<bool, Seq<char>>(p.autostart)
            &&& missing("autostart"@) ==> p.autostart
            &&& given("autorestart"@) ==> values::autorestart_of(v) == Ok::<
                AutoRestart,
                Seq<char>,
            >(p.autorestart)
            &&& missing("autorestart"@) ==> p.autorestart is Unexpected
            &&& given("stopsignal"@) ==> values::signal_of(signals, v) == Ok::<i32, Seq<char>>(
                p.stopsignal,
            )
            &&& missing("stopsignal"@) ==> p.stopsignal == signals.term
            &&& given("umask"@) ==> p.umask is Some && values::umask_of(v) == Some(
                p.umask->0 as nat,
            )
            &&& missing("umask"@) ==> p.umask is None
            &&& given("environment"@) ==> p.environment == base + values::environment_of(v)
            &&& missing("environment"@) ==> p.environment == base
            &&& given("redirect_stderr"@) && !listener ==> values::bool_of(v) == Ok::<
                bool,
                Seq<char>,
            >(p.redirect_stderr)
            &&& missing("redirect_stderr"@) ==> !p.redirect_stderr
            &&& given("events"@) ==> p.events == values::event_names(v)
            &&& missing("events"@) ==> p.events.len() == 0
        }),
{
    assert(base + Seq::<(Seq<char>, Seq<char>)>::empty() =~= base);
}

/// Where the logs of a program go: by default to a file of its own, with `NONE`
/// nowhere, else to the path given. How large they grow and how many are kept
/// has the same defaults for both streams.
pub proof fn law_program_logs(
    name: Seq<char>,
    items: Seq<(Seq<char>, Seq<char>)>,
    base: Seq<(Seq<char>, Seq<char>)>,
    listener: bool,
    signals: Signals,
    i: int,
    v: Seq<char>,
)
    requires
        program::programs_of(name, items, base, listener, signals) is Ok,
        0 <= i < program::programs_of(name, items, base, listener, signals)->Ok_0.len(),
    ensures
        ({
            let p = program::programs_of(name, items, base, listener, signals)->Ok_0[i];
            let given = |key: Seq<char>| ini::value_of(items, key) == Some(v);
            let missing = |key: Seq<char>| ini::value_of(items, key) is None;
            let path = v != "AUTO"@ && v != "NONE"@;
            &&& given("stdout_logfile"@) && path ==> p.stdout_logfile == LogTargetModel::Path(v)
            &&& given("stderr_logfile"@) && path ==> p.stderr_logfile == LogTargetModel::Path(v)
            &&& given("stdout_logfile"@) && v == "NONE"@ ==> p.stdout_logfile is Discard
            &&& given("stderr_logfile"@) && v == "NONE"@ ==> p.stderr_logfile is Discard
            &&& given("stdout_logfile"@) && v == "AUTO"@ ==> p.stdout_logfile is Auto
            &&& given("stderr_logfile"@) && v == "AUTO"@ ==> p.stderr_logfile is Auto
            &&& missing("stdout_logfile"@) ==> p.stdout_logfile is Auto
            &&& missing("stderr_logfile"@) ==> p.stderr_logfile is Auto
            &&& given("stdout_logfile_maxbytes"@) ==> values::byte_size(v) == Some(
                p.stdout_logfile_maxbytes as nat,
            )
            &&& given("stderr_logfile_maxbytes"@) ==> values::byte_size(v) == Some(
                p.stderr_logfile_maxbytes as nat,
            )
            &&& missing("stdout_logfile_maxbytes"@) ==> p.stdout_logfile_maxbytes == 50 * 1024 * 1024
            &&& missing("stderr_logfile_maxbytes"@) ==> p.stderr_logfile_maxbytes == 50 * 1024 * 1024
            &&& missing("stdout_logfile_backups"@) ==> p.stdout_logfile_backups == 10
            &&& missing("stderr_logfile_backups"@) ==> p.stderr_logfile_backups == 10
            &&& missing("startsecs"@) ==> p.startsecs == 1
            &&& missing("startretries"@) ==> p.startretries == 3
            &&& missing("stopwaitsecs"@) ==> p.stopwaitsecs == 10
            &&& missing("buffer_size"@) ==> p.buffer_size == 10
        }),
{
    reveal_strlit("AUTO");
    reveal_strlit("NONE");
    assert("AUTO"@[0] == 'A' && "NONE"@[0] == 'N');
}

/// A section is refused just if it lacks a command or a value cannot be read.
pub proof fn law_program_is_refused(
    name: Seq<char>,
    items: Seq<(Seq<char>, Seq<char>)>,
    base: Seq<(Seq<char>, Seq<char>)>,
    signals: Signals,
)
    ensures
        ({
            let number = |key: Seq<char>, max: nat|
                ini::value_of(items, key) is None || number::unsigned_upto(
                    ini::value_of(items, key)->0,
                    10,
                    max,
                ) is Some;
            let truth = |key: Seq<char>|
                ini::value_of(items, key) is None || values::bool_of(
                    ini::value_of(items, key)->0,
                ) is Ok;
            let size = |key: Seq<char>|
                ini::value_of(items, key) is None || values::byte_size(
                    ini::value_of(items, key)->0,
                ) is Some;
            let value = |key: Seq<char>| ini::value_of(items, key);
            program::programs_of(name, items, base, false, signals) is Ok <==> {
                &&& value("command"@) is Some
                &&& number("numprocs"@, usize::MAX as nat)
                &&& truth("autostart"@)
                &&& value("autorestart"@) is None || values::autorestart_of(
                    value("autorestart"@)->0,
                ) is Ok
                &&& number("startsecs"@, u64::MAX as nat)
                &&& number("startretries"@, u32::MAX as nat)
                &&& value("exitcodes"@) is None || values::exit_codes(value("exitcodes"@)->0) is Ok
                &&& value("stopsignal"@) is None || values::signal_of(
                    signals,
                    value("stopsignal"@)->0,
                ) is Ok
                &&& number("stopwaitsecs"@, u64::MAX as nat)
                &&& value("umask"@) is None || values::umask_of(value("umask"@)->0) is Some
                &&& value("priority"@) is None || number::signed_within(
                    value("priority"@)->0,
                    i32::MIN as int,
                    i32::MAX as int,
                ) is Some
                &&& truth("redirect_stderr"@)
                &&& number("buffer_size"@, usize::MAX as nat)
                &&& size("stdout_logfile_maxbytes"@)
                &&& number("stdout_logfile_backups"@, u32::MAX as nat)
                &&& size("stderr_logfile_maxbytes"@)
                &&& number("stderr_logfile_backups"@, u32::MAX as nat)
            }
        }),
{
}

// ---------------------------------------------------------------------------
// Instances
// ---------------------------------------------------------------------------

/// A text without `%` is no template.
proof fn lemma_no_occurrence(s: Seq<char>, n: Seq<char>)
    requires
        n.len() > 0,
        n[0] == '%',
        forall|i: int| 0 <= i < s.len() ==> #[trigger] s[i] != '%',
    ensures
        text::first_occurrence(s, n) is None,
{
    text::lemma_occurrence_from(s, n, 0);
    if let Some(i) = text::first_occurrence(s, n) {
        assert(text::occurs_at(s, n, i));
        assert(s.subrange(i, i + n.len())[0] == s[i]);
    }
}

/// A text stands where it was put.
proof fn lemma_occurs(a: Seq<char>, n: Seq<char>, b: Seq<char>)
    ensures
        text::occurs_at(a + n + b, n, a.len() as int),
{
    let s = a + n + b;
    let k = a.len() as int;
    assert(s.subrange(k, k + n.len()) =~= n);
}

/// A text that begins with `%` does not begin before the first `%`.
proof fn lemma_occurs_not(a: Seq<char>, n: Seq<char>, rest: Seq<char>, i: int)
    requires
        n.len() > 0,
        n[0] == '%',
        0 <= i < a.len(),
        a[i] != '%',
    ensures
        !text::occurs_at(a + rest, n, i),
{
    let s = a + rest;
    if text::occurs_at(s, n, i) {
        assert(s.subrange(i, i + n.len())[0] == s[i]);
        assert(s[i] == a[i]);
    }
}

/// The first occurrence of a text that begins with `%`, behind text without.
proof fn lemma_occurrence_behind(a: Seq<char>, n: Seq<char>, b: Seq<char>)
    requires
        n.len() > 0,
        n[0] == '%',
        forall|i: int| 0 <= i < a.len() ==> #[trigger] a[i] != '%',
    ensures
        text::first_occurrence(a + n + b, n) == Some(a.len() as int),
{
    let s = a + n + b;
    let k = a.len() as int;
    lemma_occurs(a, n, b);
    assert(s =~= a + (n + b));
    assert forall|j: int| 0 <= j < k implies !#[trigger] text::occurs_at(s, n, j) by {
        assert(a[j] != '%');
        lemma_occurs_not(a, n, n + b, j);
    }
    text::lemma_first_occurrence_is(s, n, k, 0);
}

/// The place for the program's name in a template is filled with that name.
pub proof fn law_program_name_is_filled_in(
    a: Seq<char>,
    b: Seq<char>,
    program: Seq<char>,
    num: nat,
)
    requires
        forall|i: int| 0 <= i < a.len() ==> #[trigger] a[i] != '%',
        forall|i: int| 0 <= i < b.len() ==> #[trigger] b[i] != '%',
        forall|i: int| 0 <= i < program.len() ==> #[trigger] program[i] != '%',
    ensures
        values::process_name(a + "%(program_name)s"@ + b, program, num) == a + program + b,
        values::process_name(a, program, num) == a,
{
    reveal_strlit("%(program_name)s");
    reveal_strlit("%(process_num)");
    let n = "%(program_name)s"@;
    let s = a + n + b;
    lemma_occurrence_behind(a, n, b);
    lemma_no_occurrence(b, n);
    lemma_no_occurrence(a, n);
    assert(s.take(a.len() as int) =~= a);
    assert(s.skip((a.len() + n.len()) as int) =~= b);
    assert(text::replaced(b, n, program) == b);
    assert(text::replaced(s, n, program) =~= a + program + b);
    let filled = a + program + b;
    assert forall|i: int| 0 <= i < filled.len() implies #[trigger] filled[i] != '%' by {
        if i < a.len() {
            assert(filled[i] == a[i]);
        } else if i < a.len() + program.len() {
            assert(filled[i] == program[i - a.len()]);
        } else {
            assert(filled[i] == b[i - a.len() - program.len()]);
        }
    }
    lemma_no_occurrence(filled, "%(process_num)"@);
    lemma_no_occurrence(a, "%(process_num)"@);
}

/// The place for the number in a template is filled with the number, with
/// zeros in front up to the width that the template gives.
pub proof fn law_process_number_is_filled_in(
    a: Seq<char>,
    b: Seq<char>,
    program: Seq<char>,
    num: nat,
    width: nat,
)
    requires
        forall|i: int| 0 <= i < a.len() ==> #[trigger] a[i] != '%',
        forall|i: int| 0 <= i < b.len() ==> #[trigger] b[i] != '%',
        width <= usize::MAX,
    ensures
        values::process_name(a + "%(process_num)"@ + seq!['d'] + b, program, num) == a
            + number::nat_text(num) + b,
        values::process_name(
            a + "%(process_num)"@ + number::nat_text(width) + seq!['d'] + b,
            program,
            num,
        ) == a + number::zero_padded(number::nat_text(num), width) + b,
{
    reveal_strlit("%(program_name)s");
    reveal_strlit("%(process_num)");
    let n = "%(process_num)"@;
    assert(number::zero_padded(number::nat_text(num), 0) =~= number::nat_text(num));
    number::lemma_nat_text_digits(width);
    number::law_unsigned_round_trip(width);
    let none = Seq::<char>::empty();
    assert(none + seq!['d'] + b =~= seq!['d'] + b);
    assert(a + n + none + seq!['d'] + b =~= a + n + seq!['d'] + b);
    lemma_filled(a, none, b, program, num, 0);
    lemma_filled(a, number::nat_text(width), b, program, num, width);
}

proof fn lemma_filled(
    a: Seq<char>,
    digits: Seq<char>,
    b: Seq<char>,
    program: Seq<char>,
    num: nat,
    width: nat,
)
    requires
        forall|i: int| 0 <= i < a.len() ==> #[trigger] a[i] != '%',
        forall|i: int| 0 <= i < b.len() ==> #[trigger] b[i] != '%',
        forall|i: int| 0 <= i < digits.len() ==> '0' <= #[trigger] digits[i] <= '9',
        digits.len() == 0 ==> width == 0,
        digits.len() > 0 ==> number::unsigned_upto(digits, 10, usize::MAX as nat) == Some(width),
    ensures
        values::process_name(a + "%(process_num)"@ + digits + seq!['d'] + b, program, num) == a
            + number::zero_padded(number::nat_text(num), width) + b,
{
    reveal_strlit("%(program_name)s");
    reveal_strlit("%(process_num)");
    let n = "%(process_num)"@;
    let m = "%(program_name)s"@;
    let rest = digits + seq!['d'] + b;
    let s = a + n + digits + seq!['d'] + b;
    assert(s =~= a + n + rest);
    // There is no place for the program's name.
    text::lemma_occurrence_from(s, m, 0);
    assert(text::first_occurrence(s, m) is None) by {
        if let Some(i) = text::first_occurrence(s, m) {
            assert(text::occurs_at(s, m, i));
            let part = s.subrange(i, i + m.len());
            assert(part[0] == s[i]);
            assert(part[5] == s[i + 5]);
            assert(m[0] == '%' && m[5] == 'g');
            let k = a.len() as int;
            if i < k {
                assert(s[i] == a[i]);
            } else if i == k {
                assert(s[i + 5] == n[5]);
                assert(n[5] == 'c');
            } else if i < k + 14 {
                assert(s[i] == n[i - k]);
                assert(n[i - k] != '%');
            } else {
                assert(s[i] == rest[i - k - 14]);
                let j = i - k - 14;
                if j < digits.len() {
                    assert(rest[j] == digits[j]);
                } else if j > digits.len() {
                    assert(rest[j] == b[j - digits.len() - 1]);
                }
            }
        }
    }
    assert(text::replaced(s, m, program) == s);
    lemma_occurrence_behind(a, n, rest);
    let k = a.len() as int;
    assert(s.skip(k + 14) =~= rest);
    assert(s.take(k) =~= a);
    let d = digits.len() as int;
    assert(rest[d] == 'd');
    lemma_digit_run(rest, d);
    assert(rest.take(d) =~= digits);
    assert(rest.skip(d + 1) =~= b);
    assert(values::number_format(rest) == Some((width, d + 1)));
    lemma_no_occurrence(b, n);
    assert(values::numbered(b, num) == b);
}

proof fn lemma_digit_run(s: Seq<char>, d: int)
    requires
        0 <= d < s.len(),
        forall|i: int| 0 <= i < d ==> '0' <= #[trigger] s[i] <= '9',
        s[d] == 'd',
    ensures
        values::digit_run(s) == d,
    decreases d,
{
    if d > 0 {
        let t = s.skip(1);
        assert('0' <= s[0] <= '9');
        assert forall|i: int| 0 <= i < d - 1 implies '0' <= #[trigger] t[i] <= '9' by {
            assert(t[i] == s[i + 1]);
        }
        lemma_digit_run(t, d - 1);
    }
}

/// Zeros in front do not change what digits denote.
proof fn lemma_padded_value(t: Seq<char>, zeros: nat)
    ensures
        number::digits_value(Seq::new(zeros, |i: int| '0') + t, 10) == number::digits_value(t, 10),
    decreases t.len(), zeros,
{
    reveal_with_fuel(number::digits_value, 2);
    let z = Seq::new(zeros, |i: int| '0');
    let s = z + t;
    if t.len() > 0 {
        lemma_padded_value(t.drop_last(), zeros);
        assert(s.drop_last() =~= z + t.drop_last());
        assert(s.last() == t.last());
    } else if zeros > 0 {
        let less = (zeros - 1) as nat;
        lemma_padded_value(t, less);
        assert(s.drop_last() =~= Seq::new(less, |i: int| '0') + t);
        assert(number::digit_value(s.last(), 10) == Some(0nat));
    } else {
        assert(s =~= t);
    }
}

/// Padded numbers differ where the numbers do.
proof fn lemma_padded_differ(a: nat, b: nat, width: nat)
    requires
        number::zero_padded(number::nat_text(a), width) == number::zero_padded(
            number::nat_text(b),
            width,
        ),
    ensures
        a == b,
{
    let x = number::nat_text(a);
    let y = number::nat_text(b);
    number::lemma_digits_of_nat_text(a);
    number::lemma_digits_of_nat_text(b);
    if x.len() < width {
        lemma_padded_value(x, (width - x.len()) as nat);
    }
    if y.len() < width {
        lemma_padded_value(y, (width - y.len()) as nat);
    }
}

/// As many instances as the section asks for, one where it does not say. One
/// instance has the program's name; several have it with a number behind it,
/// so that no two have the same.
pub proof fn law_instance_names(
    name: Seq<char>,
    items: Seq<(Seq<char>, Seq<char>)>,
    base: Seq<(Seq<char>, Seq<char>)>,
    listener: bool,
    signals: Signals,
    n: nat,
)
    requires
        program::programs_of(name, items, base, listener, signals) is Ok,
        ini::value_of(items, "process_name"@) is None,
        forall|i: int| 0 <= i < name.len() ==> #[trigger] name[i] != '%',
    ensures
        ({
            let r = program::programs_of(name, items, base, listener, signals)->Ok_0;
            &&& ini::value_of(items, "numprocs"@) is None ==> r.len() == 1
            &&& ini::value_of(items, "numprocs"@) == Some(number::nat_text(n)) ==> r.len() == (if n
                == 0 {
                1
            } else {
                n
            })
            &&& r.len() == 1 ==> r[0].name == name
            &&& r.len() > 1 ==> forall|i: int|
                0 <= i < r.len() ==> (#[trigger] r[i]).name == name + "_"@ + number::zero_padded(
                    number::nat_text(i as nat),
                    2,
                )
            &&& forall|i: int, j: int|
                0 <= i < j < r.len() ==> (#[trigger] r[i]).name != (#[trigger] r[j]).name
        }),
{
    let r = program::programs_of(name, items, base, listener, signals)->Ok_0;
    lemma_number(items, "numprocs"@, usize::MAX as nat, 1, "invalid numprocs"@);
    assert(ini::value_of(items, "numprocs"@) == Some(number::nat_text(n)) ==> r.len() == (if n == 0 {
        1
    } else {
        n
    }));
    reveal_strlit("%(program_name)s");
    let none = Seq::<char>::empty();
    assert(none + "%(program_name)s"@ + none =~= "%(program_name)s"@);
    assert(none + name + none =~= name);
    assert forall|i: nat| #[trigger] values::process_name("%(program_name)s"@, name, i)
        == name by {
        law_program_name_is_filled_in(none, none, name, i);
    }
    assert forall|i: int| 0 <= i < r.len() && r.len() > 1 implies (#[trigger] r[i]).name == name
        + "_"@ + number::zero_padded(number::nat_text(i as nat), 2) by {
        assert(values::process_name("%(program_name)s"@, name, i as nat) == name);
    }
    if r.len() == 1 {
        assert(values::process_name("%(program_name)s"@, name, 0) == name);
    }
    assert forall|i: int, j: int| 0 <= i < j < r.len() implies (#[trigger] r[i]).name != (
    #[trigger] r[j]).name by {
        let a = number::zero_padded(number::nat_text(i as nat), 2);
        let b = number::zero_padded(number::nat_text(j as nat), 2);
        let head = name + "_"@;
        assert((head + a).skip(head.len() as int) =~= a);
        assert((head + b).skip(head.len() as int) =~= b);
        if r[i].name == r[j].name {
            lemma_padded_differ(i as nat, j as nat, 2);
        }
    }
}

// ---------------------------------------------------------------------------
// Lines
// ---------------------------------------------------------------------------

/// Whether a text has no white space around it and is not empty.
pub open spec fn is_word(s: Seq<char>) -> bool {
    s.len() > 0 && !text::is_white(s[0]) && !text::is_white(s.last())
}

/// A line `[name]` begins a section of that name.
pub proof fn law_header_line(sections: Seq<SectionModel>, lineno: nat, name: Seq<char>)
    requires
        is_word(name),
        forall|i: int| 0 <= i < name.len() ==> #[trigger] name[i] != ']',
    ensures
        ini::after_line(sections, lineno, seq!['['] + name + seq![']']) == Ok::<
            Seq<SectionModel>,
            Seq<char>,
        >(sections.push(SectionModel { name, items: Seq::empty() })),
{
    let s = seq!['['] + name + seq![']'];
    let n = name.len() as int;
    assert(s[0] == '[');
    assert(s[n + 1] == ']');
    assert(text::trimmed(s) == s) by {
        assert(s[s.len() - 1] == ']');
    }
    assert forall|j: int| 0 <= j < n + 1 implies s[j] != ']' by {
        if j > 0 {
            assert(s[j] == name[j - 1]);
        }
    }
    text::lemma_first_index_is(s, ']', n + 1);
    assert(s.subrange(1, n + 1) =~= name);
    assert(text::trimmed(name) == name);
}

/// Whether a text can be a key: it holds neither of the signs that end one.
pub open spec fn is_key(s: Seq<char>) -> bool {
    &&& is_word(s)
    &&& s[0] != ';' && s[0] != '#' && s[0] != '['
    &&& forall|i: int| 0 <= i < s.len() ==> #[trigger] s[i] != '=' && s[i] != ':'
}

/// Whether a text holds no inline comment.
pub open spec fn is_clean(s: Seq<char>) -> bool {
    forall|i: int| 0 <= i < s.len() ==> #[trigger] s[i] != ';'
}

proof fn lemma_no_comment(s: Seq<char>, from: int)
    requires
        is_clean(s),
        0 <= from <= s.len(),
    ensures
        ini::comment_start(s, from) == s.len(),
    decreases s.len() - from,
{
    if from < s.len() {
        assert(s[from] != ';');
        lemma_no_comment(s, from + 1);
    }
}

/// A line `key=value` adds that item to the section it stands in.
pub proof fn law_item_line(
    sections: Seq<SectionModel>,
    lineno: nat,
    key: Seq<char>,
    value: Seq<char>,
)
    requires
        sections.len() > 0,
        is_key(key),
        is_word(value),
        is_clean(value),
    ensures
        ini::after_line(sections, lineno, key + seq!['='] + value) == Ok::<
            Seq<SectionModel>,
            Seq<char>,
        >(
            sections.drop_last().push(
                SectionModel {
                    name: sections.last().name,
                    items: sections.last().items.push((key, value)),
                },
            ),
        ),
{
    let s = key + seq!['='] + value;
    let n = key.len() as int;
    assert(s[0] == key[0]);
    assert(s[s.len() - 1] == value[value.len() - 1]);
    assert(text::trimmed(s) == s);
    assert forall|j: int| 0 <= j < n implies s[j] != '=' by {
        assert(s[j] == key[j]);
    }
    assert(s[n] == '=');
    text::lemma_first_index_is(s, '=', n);
    assert(s.take(n) =~= key);
    assert(s.skip(n + 1) =~= value);
    assert(text::trimmed(key) == key);
    lemma_no_comment(value, 0);
    assert(value.take(value.len() as int) =~= value);
    assert(text::trimmed(value) == value);
    assert(!ini::is_indented(s)) by {
        assert(!text::is_white(key[0]));
        assert(text::is_white(' '));
        assert(text::is_white('\t'));
    }
}

/// What follows a `;` behind a space is a remark and no part of the value.
pub proof fn law_inline_comment(value: Seq<char>, remark: Seq<char>)
    requires
        is_word(value),
        is_clean(value),
    ensures
        ini::uncommented(value + seq![' ', ';'] + remark) == value,
        ini::uncommented(value) == value,
{
    let s = value + seq![' ', ';'] + remark;
    let n = value.len() as int;
    lemma_no_comment(value, 0);
    assert(value.take(n) =~= value);
    assert(text::trimmed(value) == value);
    lemma_comment(s, 0, n + 1);
    let t = s.take(n + 1);
    assert(t =~= value.push(' '));
    assert(t[0] == value[0]);
    assert(text::is_white(' '));
    assert(t.drop_last() =~= value);
    assert(text::trimmed_start(t) == t);
    assert(text::trimmed_end(t) == text::trimmed_end(value));
    assert(text::trimmed_end(value) == value);
}

proof fn lemma_comment(s: Seq<char>, from: int, at: int)
    requires
        0 <= from <= at < s.len(),
        ini::comment_at(s, at),
        forall|i: int| from <= i < at ==> #[trigger] s[i] != ';',
    ensures
        ini::comment_start(s, from) == at,
    decreases at - from,
{
    if from < at {
        assert(s[from] != ';');
        lemma_comment(s, from + 1, at);
    }
}

/// An indented line goes on with the value before it.
pub proof fn law_continuation_line(
    sections: Seq<SectionModel>,
    lineno: nat,
    more: Seq<char>,
    key: Seq<char>,
    value: Seq<char>,
    items: Seq<(Seq<char>, Seq<char>)>,
)
    requires
        sections.len() > 0,
        sections.last().items == items.push((key, value)),
        is_word(more),
        more[0] != ';' && more[0] != '#' && more[0] != '[',
    ensures
        ini::after_line(sections, lineno, seq![' '] + more) == Ok::<Seq<SectionModel>, Seq<char>>(
            sections.drop_last().push(
                SectionModel {
                    name: sections.last().name,
                    items: items.push((key, value + seq!['\n'] + more)),
                },
            ),
        ),
{
    let s = seq![' '] + more;
    assert(text::is_white(' '));
    assert(s.skip(1) =~= more);
    assert(text::trimmed_start(s) == text::trimmed_start(more));
    assert(text::trimmed(s) == more);
    assert(items.push((key, value)).drop_last() =~= items);
}

/// Lines that say nothing a section understands are refused, by their number.
pub proof fn law_bad_lines(sections: Seq<SectionModel>, lineno: nat, word: Seq<char>)
    requires
        is_key(word),
        forall|i: int| 0 <= i < word.len() ==> #[trigger] word[i] != ']',
    ensures
        ini::after_line(sections, lineno, word) == Err::<Seq<SectionModel>, Seq<char>>(
            "line "@ + number::nat_text(lineno) + ": "@ + "expected 'key=value'"@,
        ),
        ini::after_line(sections, lineno, seq!['['] + word) == Err::<Seq<SectionModel>, Seq<char>>(
            "line "@ + number::nat_text(lineno) + ": "@ + "missing ']' in section header"@,
        ),
        ini::after_line(Seq::empty(), lineno, word + seq!['=']) == Err::<
            Seq<SectionModel>,
            Seq<char>,
        >(
            "line "@ + number::nat_text(lineno) + ": "@ + "key '"@ + word
                + "' outside any [section]"@,
        ),
{
    let n = word.len() as int;
    assert(text::trimmed(word) == word);
    text::lemma_first_index_is(word, '=', n);
    text::lemma_first_index_is(word, ':', n);
    assert(!ini::is_indented(word)) by {
        assert(text::is_white(' '));
        assert(text::is_white('\t'));
    }
    let h = seq!['['] + word;
    assert(h[0] == '[');
    assert(h[h.len() - 1] == word[n - 1]);
    assert(text::trimmed(h) == h);
    assert forall|j: int| 0 <= j < h.len() implies h[j] != ']' by {
        if j > 0 {
            assert(h[j] == word[j - 1]);
        }
    }
    text::lemma_first_index_is(h, ']', n + 1);
    let k = word + seq!['='];
    assert(k[0] == word[0]);
    assert(k[n] == '=');
    assert(text::trimmed(k) == k) by {
        assert(k[k.len() - 1] == '=');
    }
    assert forall|j: int| 0 <= j < n implies k[j] != '=' by {
        assert(k[j] == word[j]);
    }
    text::lemma_first_index_is(k, '=', n);
    assert(k.take(n) =~= word);
}

/// The text of a file is the sum of its lines.
pub proof fn law_lines(sections: Seq<SectionModel>, lines: Seq<Seq<char>>, i: int)
    requires
        0 <= i < lines.len(),
    ensures
        ini::after_lines(sections, lines, i) == (match ini::after_line(
            sections,
            (i + 1) as nat,
            lines[i],
        ) {
            Ok(next) => ini::after_lines(next, lines, i + 1),
            Err(e) => Err::<Seq<SectionModel>, Seq<char>>(e),
        }),
        ini::after_lines(sections, lines, lines.len() as int) == Ok::<
            Seq<SectionModel>,
            Seq<char>,
        >(sections),
{
}

// ---------------------------------------------------------------------------
// Sections
// ---------------------------------------------------------------------------

/// The sections about the control servers set where they listen and who may
/// use them, and nothing else.
pub proof fn law_server_sections(
    c: ConfigModel,
    items: Seq<(Seq<char>, Seq<char>)>,
    tmpdir: Seq<char>,
    signals: Signals,
    v: Seq<char>,
)
    ensures
        ({
            let unix = assemble::after_section(
                c,
                SectionModel { name: "unix_http_server"@, items },
                tmpdir,
                signals,
            );
            let inet = assemble::after_section(
                c,
                SectionModel { name: "inet_http_server"@, items },
                tmpdir,
                signals,
            );
            let given = |key: Seq<char>| ini::value_of(items, key) == Some(v);
            &&& unix is Ok && inet is Ok
            &&& given("file"@) ==> unix->Ok_0.socket_path == Some(v)
            &&& ini::value_of(items, "file"@) is None ==> unix->Ok_0.socket_path == c.socket_path
            &&& unix->Ok_0.unix_auth.username == ini::value_of(items, "username"@)
            &&& unix->Ok_0.unix_auth.password == ini::value_of(items, "password"@)
            &&& unix->Ok_0 == ConfigModel {
                socket_path: unix->Ok_0.socket_path,
                unix_auth: unix->Ok_0.unix_auth,
                ..c
            }
            &&& given("port"@) ==> inet->Ok_0.inet_addr == Some(values::inet_addr(v))
            &&& ini::value_of(items, "port"@) is None ==> inet->Ok_0.inet_addr == c.inet_addr
            &&& inet->Ok_0.inet_auth.username == ini::value_of(items, "username"@)
            &&& inet->Ok_0.inet_auth.password == ini::value_of(items, "password"@)
            &&& inet->Ok_0 == ConfigModel {
                inet_addr: inet->Ok_0.inet_addr,
                inet_auth: inet->Ok_0.inet_auth,
                ..c
            }
        }),
{
    reveal_strlit("supervisord");
    reveal_strlit("unix_http_server");
    reveal_strlit("inet_http_server");
    assert("supervisord"@.len() == 11 && "unix_http_server"@.len() == 16);
    assert("unix_http_server"@[0] == 'u' && "inet_http_server"@[0] == 'i');
}

/// An address with a host is taken as it is, a star is every interface, and a
/// bare port is on the local host.
pub proof fn law_addresses(port: Seq<char>, host: Seq<char>)
    requires
        is_word(port),
        is_word(host),
        host[0] != '*',
        forall|i: int| 0 <= i < port.len() ==> #[trigger] port[i] != ':' && port[i] != '*',
    ensures
        values::inet_addr(port) == "127.0.0.1:"@ + port,
        values::inet_addr(seq!['*', ':'] + port) == "0.0.0.0:"@ + port,
        values::inet_addr(host + seq![':'] + port) == host + seq![':'] + port,
{
    reveal_strlit("*:");
    let a = seq!['*', ':'] + port;
    let b = host + seq![':'] + port;
    assert(text::trimmed(port) == port);
    assert(a[0] == '*' && a[a.len() - 1] == port[port.len() - 1]);
    assert(text::trimmed(a) == a);
    assert(b[0] == host[0] && b[b.len() - 1] == port[port.len() - 1]);
    assert(text::trimmed(b) == b);
    assert(a.take(2) =~= "*:"@);
    assert(a.skip(2) =~= port);
    assert(!text::has_prefix(port, "*:"@)) by {
        if port.len() >= 2 {
            assert(port.take(2)[0] == port[0]);
        }
    }
    assert(!port.contains(':'));
    assert(!text::has_prefix(b, "*:"@)) by {
        assert(b.take(2)[0] == host[0]);
    }
    assert(b[host.len() as int] == ':');
}

/// What a section is about, by its name.
proof fn lemma_section_names(name: Seq<char>)
    ensures
        ({
            let p = "program:"@ + name;
            let l = "eventlistener:"@ + name;
            &&& p != "supervisord"@ && p != "unix_http_server"@ && p != "inet_http_server"@
            &&& l != "supervisord"@ && l != "unix_http_server"@ && l != "inet_http_server"@
            &&& text::has_prefix(p, "program:"@) && p.skip(8) == name
            &&& !text::has_prefix(l, "program:"@)
            &&& text::has_prefix(l, "eventlistener:"@) && l.skip(14) == name
        }),
{
    reveal_strlit("supervisord");
    reveal_strlit("unix_http_server");
    reveal_strlit("inet_http_server");
    reveal_strlit("program:");
    reveal_strlit("eventlistener:");
    let p = "program:"@ + name;
    let l = "eventlistener:"@ + name;
    assert(p[0] == 'p' && l[0] == 'e');
    assert("supervisord"@[0] == 's' && "unix_http_server"@[0] == 'u' && "inet_http_server"@[0]
        == 'i');
    assert(p.take(8) =~= "program:"@);
    assert(p.skip(8) =~= name);
    assert(l.take(14) =~= "eventlistener:"@);
    assert(l.skip(14) =~= name);
    assert(!text::has_prefix(l, "program:"@)) by {
        assert(l.take(8)[0] == 'e');
        assert("program:"@[0] == 'p');
    }
}

/// The configuration with more programs, or what is wrong with them.
pub open spec fn with_more(c: ConfigModel, more: Result<Seq<ProgramModel>, Seq<char>>) -> Result<
    ConfigModel,
    Seq<char>,
> {
    match more {
        Ok(programs) => Ok(ConfigModel { programs: c.programs + programs, ..c }),
        Err(e) => Err(e),
    }
}

/// A section about a program or a listener adds its instances behind those
/// that are there, each with the environment of the daemon, and changes
/// nothing else.
pub proof fn law_program_sections(
    c: ConfigModel,
    name: Seq<char>,
    items: Seq<(Seq<char>, Seq<char>)>,
    tmpdir: Seq<char>,
    signals: Signals,
)
    requires
        is_word(name),
    ensures
        assemble::after_section(
            c,
            SectionModel { name: "program:"@ + name, items },
            tmpdir,
            signals,
        ) == with_more(
            c,
            program::programs_of(name, items, c.supervisord.environment, false, signals),
        ),
        assemble::after_section(
            c,
            SectionModel { name: "eventlistener:"@ + name, items },
            tmpdir,
            signals,
        ) == with_more(
            c,
            program::programs_of(name, items, c.supervisord.environment, true, signals),
        ),
{
    lemma_section_names(name);
    assert(text::trimmed(name) == name);
}

/// The settings of the daemon are those that its section gives, each by its own
/// key, and the defaults where it gives none.
pub proof fn law_supervisord_settings(
    items: Seq<(Seq<char>, Seq<char>)>,
    tmpdir: Seq<char>,
    v: Seq<char>,
    n: nat,
)
    requires
        settings::supervisord_of(items, tmpdir) is Ok,
    ensures
        ({
            let s = settings::supervisord_of(items, tmpdir)->Ok_0;
            let given = |key: Seq<char>| ini::value_of(items, key) == Some(v);
            let missing = |key: Seq<char>| ini::value_of(items, key) is None;
            let number = |key: Seq<char>| ini::value_of(items, key) == Some(number::nat_text(n));
            &&& given("logfile"@) ==> s.logfile == v
            &&& missing("logfile"@) ==> s.logfile == "supervisord.log"@
            &&& given("logfile_maxbytes"@) ==> values::byte_size(v) == Some(
                s.logfile_maxbytes as nat,
            )
            &&& missing("logfile_maxbytes"@) ==> s.logfile_maxbytes == 50 * 1024 * 1024
            &&& number("logfile_backups"@) ==> s.logfile_backups == n
            &&& missing("logfile_backups"@) ==> s.logfile_backups == 10
            &&& given("loglevel"@) ==> s.loglevel == v
            &&& missing("loglevel"@) ==> s.loglevel == "info"@
            &&& given("pidfile"@) ==> s.pidfile == v
            &&& missing("pidfile"@) ==> s.pidfile == "supervisord.pid"@
            &&& given("nodaemon"@) ==> values::bool_of(v) == Ok::<bool, Seq<char>>(s.nodaemon)
            &&& missing("nodaemon"@) ==> !s.nodaemon
            &&& given("silent"@) ==> values::bool_of(v) == Ok::<bool, Seq<char>>(s.silent)
            &&& missing("silent"@) ==> !s.silent
            &&& given("childlogdir"@) ==> s.childlogdir == v
            &&& missing("childlogdir"@) ==> s.childlogdir == tmpdir
            &&& given("directory"@) ==> s.directory == Some(v)
            &&& missing("directory"@) ==> s.directory is None
            &&& given("identifier"@) ==> s.identifier == v
            &&& missing("identifier"@) ==> s.identifier == "supervisor"@
            &&& given("umask"@) ==> s.umask is Some && values::umask_of(v) == Some(
                s.umask->0 as nat,
            )
            &&& missing("umask"@) ==> s.umask is None
            &&& given("environment"@) ==> s.environment == values::environment_of(v)
            &&& missing("environment"@) ==> s.environment.len() == 0
        }),
{
    lemma_number(items, "logfile_backups"@, u32::MAX as nat, 10, "invalid logfile_backups"@);
}

/// The section about the daemon sets its settings and nothing else. Without
/// one they have their defaults.
pub proof fn law_supervisord_section(
    c: ConfigModel,
    items: Seq<(Seq<char>, Seq<char>)>,
    tmpdir: Seq<char>,
    signals: Signals,
)
    ensures
        assemble::after_section(c, SectionModel { name: "supervisord"@, items }, tmpdir, signals)
            == (match settings::supervisord_of(items, tmpdir) {
            Ok(s) => Ok::<ConfigModel, Seq<char>>(ConfigModel { supervisord: s, ..c }),
            Err(e) => Err::<ConfigModel, Seq<char>>(e),
        }),
        settings::supervisord_of(Seq::empty(), tmpdir) == Ok::<
            settings::SupervisordModel,
            Seq<char>,
        >(assemble::blank_config(tmpdir).supervisord),
        assemble::blank_config(tmpdir).programs.len() == 0,
        assemble::blank_config(tmpdir).socket_path is None,
        assemble::blank_config(tmpdir).inet_addr is None,
        assemble::blank_config(tmpdir).unix_auth == (AuthModel { username: None, password: None }),
        assemble::blank_config(tmpdir).inet_auth == (AuthModel { username: None, password: None }),
{
    assert(settings::supervisord_of(Seq::empty(), tmpdir)->Ok_0
        =~= assemble::blank_config(tmpdir).supervisord);
}

/// A group section puts the programs it lists into the group, with the group's
/// priority if it has one; other programs, and sections, have no part in it.
pub proof fn law_group_section(
    programs: Seq<ProgramModel>,
    group: Seq<char>,
    member: Seq<char>,
    n: i32,
    other: SectionModel,
    k: int,
)
    requires
        is_word(group),
        is_item(member),
        0 <= k < programs.len(),
        programs[k].program == member,
        !text::has_prefix(other.name, "group:"@),
    ensures
        ({
            let plain = assemble::after_group(
                programs,
                SectionModel { name: "group:"@ + group, items: seq![("programs"@, member)] },
            );
            let ranked = assemble::after_group(
                programs,
                SectionModel {
                    name: "group:"@ + group,
                    items: seq![
                        ("programs"@, member),
                        ("priority"@, number::int_text(n as int)),
                    ],
                },
            );
            &&& plain is Ok && ranked is Ok
            &&& plain->Ok_0[k] == ProgramModel { group, ..programs[k] }
            &&& ranked->Ok_0[k] == ProgramModel { group, priority: n, ..programs[k] }
            &&& forall|j: int|
                0 <= j < programs.len() && (#[trigger] programs[j]).program != member
                    ==> plain->Ok_0[j] == programs[j] && ranked->Ok_0[j] == programs[j]
            &&& assemble::after_group(programs, other) == Ok::<Seq<ProgramModel>, Seq<char>>(
                programs,
            )
        }),
{
    reveal_strlit("group:");
    reveal_strlit("programs");
    reveal_strlit("priority");
    assert("programs"@[1] == 'r' && "priority"@[1] == 'r');
    assert("programs"@[2] == 'o' && "priority"@[2] == 'i');
    let s = "group:"@ + group;
    assert(s.take(6) =~= "group:"@);
    assert(s.skip(6) =~= group);
    assert(text::trimmed(group) == group);
    let one = seq![("programs"@, member)];
    let two = seq![("programs"@, member), ("priority"@, number::int_text(n as int))];
    assert(one.drop_last() =~= Seq::<(Seq<char>, Seq<char>)>::empty());
    assert(two.drop_last() =~= one);
    assert(ini::value_of(Seq::<(Seq<char>, Seq<char>)>::empty(), "priority"@) is None);
    assert(ini::value_of(one, "programs"@) == Some(member));
    assert(ini::value_of(one, "priority"@) is None);
    assert(ini::value_of(two, "programs"@) == Some(member));
    assert(ini::value_of(two, "priority"@) == Some(number::int_text(n as int)));
    number::law_bounds(0, 0, n as int, i32::MIN as int, i32::MAX as int);
    law_comma_list(seq![member]);
    assert(listed(seq![member]) == member);
    let names = seq![member];
    assert(names[0] == member);
    assert(assemble::has_program(programs, member));
    let a = assemble::joined(programs, member, group, None);
    let b = assemble::joined(programs, member, group, Some(n));
    assert(assemble::after_members(programs, names, 0, group, None)
        == assemble::after_members(a, names, 1, group, None));
    assert(assemble::after_members(programs, names, 0, group, Some(n))
        == assemble::after_members(b, names, 1, group, Some(n)));
    assert(a[k] =~= ProgramModel { group, ..programs[k] });
    assert(b[k] =~= ProgramModel { group, priority: n, ..programs[k] });
}

/// A whole configuration: the sections one after another, then the groups, and
/// at last the order of the priorities.
pub proof fn law_whole_configuration(
    sections: Seq<SectionModel>,
    tmpdir: Seq<char>,
    signals: Signals,
    path: Option<Seq<char>>,
)
    ensures
        ({
            let read = assemble::after_sections(
                assemble::blank_config(tmpdir),
                sections,
                0,
                tmpdir,
                signals,
            );
            let r = assemble::config_of(sections, tmpdir, signals, path);
            &&& r is Ok <==> read is Ok && assemble::after_groups(
                read->Ok_0.programs,
                sections,
                0,
            ) is Ok
            &&& r is Ok ==> {
                let c = r->Ok_0;
                &&& c.path == path
                &&& c.supervisord == read->Ok_0.supervisord
                &&& c.socket_path == read->Ok_0.socket_path
                &&& c.unix_auth == read->Ok_0.unix_auth
                &&& c.inet_addr == read->Ok_0.inet_addr
                &&& c.inet_auth == read->Ok_0.inet_auth
                &&& c.programs.len() == assemble::after_groups(
                    read->Ok_0.programs,
                    sections,
                    0,
                )->Ok_0.len()
            }
        }),
{
    let read = assemble::after_sections(
        assemble::blank_config(tmpdir),
        sections,
        0,
        tmpdir,
        signals,
    );
    if let Ok(c) = read {
        if let Ok(programs) = assemble::after_groups(c.programs, sections, 0) {
            laws::law_by_priority(programs);
        }
    }
}

/// The files to be included are those that the include sections list, in order.
pub proof fn law_included_files(sections: Seq<SectionModel>, i: int, files: Seq<char>)
    requires
        0 <= i < sections.len(),
    ensures
        sections[i].name == "include"@ && ini::value_of(sections[i].items, "files"@) == Some(files)
            ==> assemble::include_patterns(sections, i) == text::words(files)
            + assemble::include_patterns(sections, i + 1),
        sections[i].name != "include"@ ==> assemble::include_patterns(sections, i)
            == assemble::include_patterns(sections, i + 1),
        assemble::include_patterns(sections, sections.len() as int).len() == 0,
{
}

/// The sections of a text are those of its lines.
pub proof fn law_text_of_lines(lines: Seq<Seq<char>>)
    requires
        lines.len() > 0,
        forall|k: int, i: int|
            0 <= k < lines.len() && 0 <= i < lines[k].len() ==> #[trigger] lines[k][i] != '\n',
    ensures
        ini::sections_of(text::between(lines, '\n')) == ini::after_lines(Seq::empty(), lines, 0),
{
    text::law_pieces(lines, '\n');
}

/// A section with its items, one line each, is read as that section: this is
/// how a configuration is written.
pub open spec fn written(name: Seq<char>, items: Seq<(Seq<char>, Seq<char>)>) -> Seq<Seq<char>> {
    seq![seq!['['] + name + seq![']']] + Seq::new(
        items.len(),
        |i: int| items[i].0 + seq!['='] + items[i].1,
    )
}

proof fn lemma_items_are_read(
    before: Seq<SectionModel>,
    name: Seq<char>,
    items: Seq<(Seq<char>, Seq<char>)>,
    k: int,
)
    requires
        0 <= k <= items.len(),
        forall|i: int|
            0 <= i < items.len() ==> is_key((#[trigger] items[i]).0) && is_word(items[i].1)
                && is_clean(items[i].1),
    ensures
        ini::after_lines(
            before.push(SectionModel { name, items: items.take(k) }),
            written(name, items),
            k + 1,
        ) == Ok::<Seq<SectionModel>, Seq<char>>(before.push(SectionModel { name, items })),
    decreases items.len() - k,
{
    let lines = written(name, items);
    let now = before.push(SectionModel { name, items: items.take(k) });
    if k < items.len() {
        assert(is_key(items[k].0) && is_word(items[k].1) && is_clean(items[k].1));
        assert(lines[k + 1] == items[k].0 + seq!['='] + items[k].1);
        law_item_line(now, (k + 2) as nat, items[k].0, items[k].1);
        assert(items.take(k).push(items[k]) =~= items.take(k + 1));
        assert(now.drop_last() =~= before);
        let next = before.push(SectionModel { name, items: items.take(k + 1) });
        lemma_items_are_read(before, name, items, k + 1);
        assert(ini::after_line(now, (k + 2) as nat, lines[k + 1]) == Ok::<
            Seq<SectionModel>,
            Seq<char>,
        >(next));
    } else {
        assert(items.take(k) =~= items);
    }
}

/// Writing down a section and reading it gives the section back.
pub proof fn law_section_round_trip(name: Seq<char>, items: Seq<(Seq<char>, Seq<char>)>)
    requires
        is_word(name),
        forall|i: int| 0 <= i < name.len() ==> #[trigger] name[i] != ']',
        forall|i: int|
            0 <= i < items.len() ==> is_key((#[trigger] items[i]).0) && is_word(items[i].1)
                && is_clean(items[i].1),
    ensures
        ini::after_lines(Seq::empty(), written(name, items), 0) == Ok::<
            Seq<SectionModel>,
            Seq<char>,
        >(seq![SectionModel { name, items }]),
{
    let none = Seq::<SectionModel>::empty();
    let lines = written(name, items);
    assert(lines[0] == seq!['['] + name + seq![']']);
    law_header_line(none, 1, name);
    assert(items.take(0) =~= Seq::<(Seq<char>, Seq<char>)>::empty());
    lemma_items_are_read(none, name, items, 0);
    assert(none.push(SectionModel { name, items }) =~= seq![SectionModel { name, items }]);
}

/// A key may be followed by a colon in place of an equals sign.
pub proof fn law_colon_line(
    sections: Seq<SectionModel>,
    lineno: nat,
    key: Seq<char>,
    value: Seq<char>,
)
    requires
        sections.len() > 0,
        is_key(key),
        is_word(value),
        is_clean(value),
        forall|i: int| 0 <= i < value.len() ==> #[trigger] value[i] != '=',
    ensures
        ini::after_line(sections, lineno, key + seq![':'] + value) == Ok::<
            Seq<SectionModel>,
            Seq<char>,
        >(
            sections.drop_last().push(
                SectionModel {
                    name: sections.last().name,
                    items: sections.last().items.push((key, value)),
                },
            ),
        ),
{
    let s = key + seq![':'] + value;
    let n = key.len() as int;
    assert(s[0] == key[0]);
    assert(s[s.len() - 1] == value[value.len() - 1]);
    assert(text::trimmed(s) == s);
    assert forall|j: int| 0 <= j < s.len() implies s[j] != '=' by {
        if j < n {
            assert(s[j] == key[j]);
        } else if j > n {
            assert(s[j] == value[j - n - 1]);
        }
    }
    text::lemma_first_index_is(s, '=', s.len() as int);
    assert forall|j: int| 0 <= j < n implies s[j] != ':' by {
        assert(s[j] == key[j]);
    }
    assert(s[n] == ':');
    text::lemma_first_index_is(s, ':', n);
    assert(s.take(n) =~= key);
    assert(s.skip(n + 1) =~= value);
    assert(text::trimmed(key) == key);
    lemma_no_comment(value, 0);
    assert(value.take(value.len() as int) =~= value);
    assert(text::trimmed(value) == value);
    assert(!ini::is_indented(s)) by {
        assert(!text::is_white(key[0]));
        assert(text::is_white(' '));
        assert(text::is_white('\t'));
    }
}

/// The first thing that is wrong with a section is what it is refused for: a
/// missing command before everything else, then the values, one by one.
pub proof fn law_first_fault(
    name: Seq<char>,
    items: Seq<(Seq<char>, Seq<char>)>,
    base: Seq<(Seq<char>, Seq<char>)>,
    signals: Signals,
)
    ensures
        ini::value_of(items, "command"@) is None ==> program::programs_of(
            name,
            items,
            base,
            false,
            signals,
        ) == Err::<Seq<ProgramModel>, Seq<char>>(
            "["@ + "program"@ + ":"@ + name + "] is missing required 'command'"@,
        ),
        ini::value_of(items, "command"@) is None ==> program::programs_of(
            name,
            items,
            base,
            true,
            signals,
        ) == Err::<Seq<ProgramModel>, Seq<char>>(
            "["@ + "eventlistener"@ + ":"@ + name + "] is missing required 'command'"@,
        ),
        ({
            let value = |key: Seq<char>| ini::value_of(items, key);
            let number = |key: Seq<char>, max: nat|
                ini::value_of(items, key) is None || number::unsigned_upto(
                    ini::value_of(items, key)->0,
                    10,
                    max,
                ) is Some;
            let truth = |key: Seq<char>|
                ini::value_of(items, key) is None || values::bool_of(
                    ini::value_of(items, key)->0,
                ) is Ok;
            let size = |key: Seq<char>|
                ini::value_of(items, key) is None || values::byte_size(
                    ini::value_of(items, key)->0,
                ) is Some;
            let refused = |e: Seq<char>|
                program::programs_of(name, items, base, false, signals) == Err::<
                    Seq<ProgramModel>,
                    Seq<char>,
                >(e);
            let command = value("command"@) is Some;
            let numprocs = command && number("numprocs"@, usize::MAX as nat);
            let autostart = numprocs && truth("autostart"@);
            let autorestart = autostart && (value("autorestart"@) is None || values::autorestart_of(value("autorestart"@)->0) is Ok);
            let startsecs = autorestart && number("startsecs"@, u64::MAX as nat);
            let startretries = startsecs && number("startretries"@, u32::MAX as nat);
            let exitcodes = startretries && (value("exitcodes"@) is None || values::exit_codes(value("exitcodes"@)->0) is Ok);
            let stopsignal = exitcodes && (value("stopsignal"@) is None || values::signal_of(signals, value("stopsignal"@)->0) is Ok);
            let stopwaitsecs = stopsignal && number("stopwaitsecs"@, u64::MAX as nat);
            let umask = stopwaitsecs && (value("umask"@) is None || values::umask_of(value("umask"@)->0) is Some);
            let priority = umask && (value("priority"@) is None || number::signed_within(value("priority"@)->0, i32::MIN as int, i32::MAX as int) is Some);
            let redirect = priority && truth("redirect_stderr"@);
            let buffer = redirect && number("buffer_size"@, usize::MAX as nat);
            let out_size = buffer && size("stdout_logfile_maxbytes"@);
            let out_backups = out_size && number("stdout_logfile_backups"@, u32::MAX as nat);
            let err_size = out_backups && size("stderr_logfile_maxbytes"@);
            &&& command && !number("numprocs"@, usize::MAX as nat) ==> refused(
                "invalid numprocs"@,
            )
            &&& numprocs && !truth("autostart"@) ==> refused(
                values::bool_of(value("autostart"@)->0)->Err_0,
            )
            &&& autostart && !(value("autorestart"@) is None || values::autorestart_of(value("autorestart"@)->0) is Ok) ==> refused(
                values::autorestart_of(value("autorestart"@)->0)->Err_0,
            )
            &&& autorestart && !number("startsecs"@, u64::MAX as nat) ==> refused(
                "invalid startsecs"@,
            )
            &&& startsecs && !number("startretries"@, u32::MAX as nat) ==> refused(
                "invalid startretries"@,
            )
            &&& startretries && !(value("exitcodes"@) is None || values::exit_codes(value("exitcodes"@)->0) is Ok) ==> refused(
                values::exit_codes(value("exitcodes"@)->0)->Err_0,
            )
            &&& exitcodes && !(value("stopsignal"@) is None || values::signal_of(signals, value("stopsignal"@)->0) is Ok) ==> refused(
                values::signal_of(signals, value("stopsignal"@)->0)->Err_0,
            )
            &&& stopsignal && !number("stopwaitsecs"@, u64::MAX as nat) ==> refused(
                "invalid stopwaitsecs"@,
            )
            &&& stopwaitsecs && !(value("umask"@) is None || values::umask_of(value("umask"@)->0) is Some) ==> refused(
                "invalid umask"@,
            )
            &&& umask && !(value("priority"@) is None || number::signed_within(value("priority"@)->0, i32::MIN as int, i32::MAX as int) is Some) ==> refused(
                "invalid priority"@,
            )
            &&& priority && !truth("redirect_stderr"@) ==> refused(
                values::bool_of(value("redirect_stderr"@)->0)->Err_0,
            )
            &&& redirect && !number("buffer_size"@, usize::MAX as nat) ==> refused(
                "invalid buffer_size"@,
            )
            &&& buffer && !size("stdout_logfile_maxbytes"@) ==> refused(
                values::byte_size_error(value("stdout_logfile_maxbytes"@)->0),
            )
            &&& out_size && !number("stdout_logfile_backups"@, u32::MAX as nat) ==> refused(
                "invalid stdout_logfile_backups"@,
            )
            &&& out_backups && !size("stderr_logfile_maxbytes"@) ==> refused(
                values::byte_size_error(value("stderr_logfile_maxbytes"@)->0),
            )
            &&& err_size && !number("stderr_logfile_backups"@, u32::MAX as nat) ==> refused(
                "invalid stderr_logfile_backups"@,
            )
        }),
{
}

/// Variables with commas between them, the values in quotes.
pub open spec fn quoted_list(vars: Seq<(Seq<char>, Seq<char>)>) -> Seq<char>
    decreases vars.len(),
{
    if vars.len() == 0 {
        Seq::empty()
    } else if vars.len() == 1 {
        quoted(vars[0])
    } else {
        quoted(vars[0]) + seq![','] + quoted_list(vars.skip(1))
    }
}

/// `NAME="value"`
pub open spec fn quoted(v: (Seq<char>, Seq<char>)) -> Seq<char> {
    v.0 + seq!['=', '"'] + v.1 + seq!['"']
}

/// Whether a pair can be written as `NAME="value"`.
pub open spec fn is_variable(v: (Seq<char>, Seq<char>)) -> bool {
    &&& v.0.len() > 0
    &&& forall|i: int| 0 <= i < v.0.len() ==> laws::name_char(#[trigger] v.0[i])
    &&& forall|i: int| 0 <= i < v.1.len() ==> #[trigger] v.1[i] != '"'
}

/// Where a text with its quotes closed ends, the next comma is what ends the
/// part.
proof fn lemma_comma_behind(a: Seq<char>, rest: Seq<char>, open: bool)
    requires
        values::next_comma(a, open) == a.len(),
        rest.len() == 0 || rest[0] == ',',
        ends_closed(a, open),
    ensures
        values::next_comma(a + rest, open) == a.len(),
    decreases a.len(),
{
    let s = a + rest;
    if a.len() == 0 {
        assert(s =~= rest);
    } else {
        assert(s[0] == a[0]);
        assert(s.skip(1) =~= a.skip(1) + rest);
        lemma_comma_behind(a.skip(1), rest, open != (a[0] == '"'));
    }
}

/// Whether the quotes of a text are closed at its end.
pub open spec fn ends_closed(a: Seq<char>, open: bool) -> bool
    decreases a.len(),
{
    if a.len() == 0 {
        !open
    } else {
        ends_closed(a.skip(1), open != (a[0] == '"'))
    }
}

proof fn lemma_ends_closed(a: Seq<char>, b: Seq<char>, open: bool)
    requires
        forall|i: int| 0 <= i < a.len() ==> #[trigger] a[i] != '"',
    ensures
        ends_closed(a + b, open) == ends_closed(b, open),
    decreases a.len(),
{
    if a.len() == 0 {
        assert(a + b =~= b);
    } else {
        assert(a[0] != '"');
        assert((a + b)[0] == a[0]);
        assert((a + b).skip(1) =~= a.skip(1) + b);
        let t = a.skip(1);
        assert forall|i: int| 0 <= i < t.len() implies #[trigger] t[i] != '"' by {
            assert(t[i] == a[i + 1]);
        }
        lemma_ends_closed(t, b, open);
    }
}

/// A variable is one part, and its quotes are closed.
proof fn lemma_quoted_part(v: (Seq<char>, Seq<char>))
    requires
        is_variable(v),
    ensures
        values::next_comma(quoted(v), false) == quoted(v).len(),
        ends_closed(quoted(v), false),
        values::variables(seq![quoted(v)]) == seq![v],
{
    let s = quoted(v);
    laws::law_quoted_variable(v.0, v.1);
    laws::lemma_quoted_variable_is_one_part(v.0, v.1);
    let head = v.0 + seq!['='];
    let q = seq!['"'];
    assert(s =~= head + (q + (v.1 + q)));
    assert forall|i: int| 0 <= i < head.len() implies #[trigger] head[i] != '"' by {
        if i < v.0.len() {
            assert(head[i] == v.0[i]);
        }
    }
    lemma_ends_closed(head, q + (v.1 + q), false);
    let t = q + (v.1 + q);
    assert(t[0] == '"');
    assert(t.skip(1) =~= v.1 + q);
    lemma_ends_closed(v.1, q, true);
    assert(q.skip(1) =~= Seq::<char>::empty());
    assert(ends_closed(Seq::<char>::empty(), false));
    assert(ends_closed(q, true));
    assert(values::comma_parts(s) =~= seq![s]);
}

/// A list of quoted variables sets those variables to those values, in order,
/// whatever the values hold apart from double quotes.
pub proof fn law_environment_list(vars: Seq<(Seq<char>, Seq<char>)>)
    requires
        forall|i: int| 0 <= i < vars.len() ==> is_variable(#[trigger] vars[i]),
    ensures
        values::environment_of(quoted_list(vars)) == vars,
    decreases vars.len(),
{
    let s = quoted_list(vars);
    if vars.len() == 0 {
        assert(values::comma_parts(s) =~= Seq::<Seq<char>>::empty());
        assert(values::environment_of(s) =~= vars);
    } else {
        let a = quoted(vars[0]);
        assert(is_variable(vars[0]));
        lemma_quoted_part(vars[0]);
        if vars.len() == 1 {
            assert(values::comma_parts(s) =~= seq![a]);
            assert(seq![vars[0]] =~= vars);
        } else {
            let t = vars.skip(1);
            let more = quoted_list(t);
            let rest = seq![','] + more;
            assert forall|i: int| 0 <= i < t.len() implies is_variable(#[trigger] t[i]) by {
                assert(t[i] == vars[i + 1]);
            }
            law_environment_list(t);
            assert(s =~= a + rest);
            lemma_comma_behind(a, rest, false);
            assert(s.take(a.len() as int) =~= a);
            assert(s.skip(a.len() as int + 1) =~= more);
            let parts = values::comma_parts(s);
            assert(parts == seq![a] + values::comma_parts(more));
            assert(parts[0] == a);
            assert(parts.skip(1) =~= values::comma_parts(more));
            assert(seq![a].skip(1) =~= Seq::<Seq<char>>::empty());
            lemma_first_variable(a, values::comma_parts(more), vars[0]);
            assert(seq![vars[0]] + t =~= vars);
        }
    }
}

proof fn lemma_first_variable(a: Seq<char>, more: Seq<Seq<char>>, v: (Seq<char>, Seq<char>))
    requires
        values::variables(seq![a]) == seq![v],
    ensures
        values::variables(seq![a] + more) == seq![v] + values::variables(more),
{
    let one = seq![a];
    let all = seq![a] + more;
    assert(one.skip(1) =~= Seq::<Seq<char>>::empty());
    assert(values::variables(Seq::<Seq<char>>::empty()) =~= Seq::<(Seq<char>, Seq<char>)>::empty());
    assert(all.skip(1) =~= more);
    assert(all[0] == a && one[0] == a);
    assert(seq![v].len() == 1);
    let t = text::trimmed(a);
    let e = text::first_index(t, '=');
    assert(e < t.len());
    let x = (text::trimmed(t.take(e)), values::unquoted(text::trimmed(t.skip(e + 1))));
    assert(values::variables(one) =~= seq![x]);
    assert(seq![x][0] == seq![v][0]);
}

/// Blank lines say nothing, nor do lines that begin with a semicolon or a number
/// sign.
pub proof fn law_remark_lines(sections: Seq<SectionModel>, lineno: nat, raw: Seq<char>)
    ensures
        ({
            let t = text::trimmed(raw);
            t.len() == 0 || t[0] == ';' || t[0] == '#' ==> ini::after_line(sections, lineno, raw)
                == Ok::<Seq<SectionModel>, Seq<char>>(sections)
        }),
{
}

proof fn lemma_unknown_member(
    programs: Seq<ProgramModel>,
    members: Seq<Seq<char>>,
    i: int,
    k: int,
    group: Seq<char>,
    priority: Option<i32>,
)
    requires
        0 <= i <= k < members.len(),
        forall|j: int|
            i <= j < k ==> assemble::has_program(programs, #[trigger] members[j]),
        !assemble::has_program(programs, members[k]),
    ensures
        assemble::after_members(programs, members, i, group, priority) == Err::<
            Seq<ProgramModel>,
            Seq<char>,
        >("[group:"@ + group + "] names unknown program "@ + members[k]),
    decreases k - i,
{
    if i < k {
        assert(assemble::has_program(programs, members[i]));
        let next = assemble::joined(programs, members[i], group, priority);
        assert(next.len() == programs.len());
        assert forall|j: int| 0 <= j < next.len() implies (#[trigger] next[j]).program
            == programs[j].program by {}
        assert forall|j: int| i + 1 <= j < k implies assemble::has_program(
            next,
            #[trigger] members[j],
        ) by {
            assert(assemble::has_program(programs, members[j]));
            let n = choose|n: int|
                0 <= n < programs.len() && (#[trigger] programs[n]).program == members[j];
            assert(next[n].program == members[j]);
        }
        if assemble::has_program(next, members[k]) {
            let n = choose|n: int|
                0 <= n < next.len() && (#[trigger] next[n]).program == members[k];
            assert(programs[n].program == members[k]);
        }
        lemma_unknown_member(next, members, i + 1, k, group, priority);
    }
}

/// A group is refused for a priority that is no number, and else for the first
/// program that it names and nobody knows.
pub proof fn law_group_faults(
    programs: Seq<ProgramModel>,
    group: Seq<char>,
    items: Seq<(Seq<char>, Seq<char>)>,
    k: int,
)
    requires
        text::trimmed(group) == group,
    ensures
        ({
            let r = assemble::after_group(
                programs,
                SectionModel { name: "group:"@ + group, items },
            );
            let rank = ini::value_of(items, "priority"@);
            let ranked = rank is None || number::signed_within(
                rank->0,
                i32::MIN as int,
                i32::MAX as int,
            ) is Some;
            let named = ini::value_of(items, "programs"@);
            let members = values::comma_items(named->0);
            &&& !ranked ==> r == Err::<Seq<ProgramModel>, Seq<char>>("invalid group priority"@)
            &&& ranked && named is Some && 0 <= k < members.len() && (forall|j: int|
                0 <= j < k ==> assemble::has_program(programs, #[trigger] members[j]))
                && !assemble::has_program(programs, members[k]) ==> r == Err::<
                Seq<ProgramModel>,
                Seq<char>,
            >("[group:"@ + group + "] names unknown program "@ + members[k])
            &&& ranked && named is None ==> r == Ok::<Seq<ProgramModel>, Seq<char>>(programs)
        }),
{
    reveal_strlit("group:");
    let s = "group:"@ + group;
    assert(s.take(6) =~= "group:"@);
    assert(s.skip(6) =~= group);
    let members = assemble::group_members(items);
    let priority = assemble::group_priority(items);
    if priority is Ok && 0 <= k < members.len() && (forall|j: int|
        0 <= j < k ==> assemble::has_program(programs, #[trigger] members[j]))
        && !assemble::has_program(programs, members[k]) {
        lemma_unknown_member(programs, members, 0, k, group, priority->Ok_0);
    }
}

} // verus!
