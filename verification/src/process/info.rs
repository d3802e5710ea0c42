//! What is told about a process: exit statuses, durations, times, and the
//! snapshot that the control interface returns.
use crate::number;
use vstd::prelude::*;

verus! {

// ---------------------------------------------------------------------------
// Exit statuses
// ---------------------------------------------------------------------------

/// What a wait status says: the exit code, or the negated number of the
/// signal that ended the process; and whether it was a signal. The low seven
/// bits hold the signal, the second byte the exit code. A status that reports
/// a stopped process counts as exit code zero.
pub open spec fn exit_of(status: i32) -> (int, bool) {
    let bits = status as u32;
    let low = bits % 128;
    if low == 0 {
        (((bits / 256) % 256) as int, false)
    } else if low != 127 {
        (-(low as int), true)
    } else {
        (0, false)
    }
}

/// Decodes a wait status into `(exit_code, was_signaled)`. For a
/// signal-terminated child the code is the negated signal number so it can
/// never accidentally match a configured exit code.
pub fn decode_status(status: i32) -> (r: (i32, bool))
    ensures
        (r.0 as int, r.1) == exit_of(status),
        r.1 ==> r.0 < 0,
        !r.1 ==> 0 <= r.0 <= 255,
{
    let bits: u32 = #[verifier::truncate]
    (status as u32);
    let low: u32 = bits % 128;
    if low == 0 {
        (((bits / 256) % 256) as i32, false)
    } else if low != 127 {
        (-(low as i32), true)
    } else {
        (0, false)
    }
}

// ---------------------------------------------------------------------------
// Durations and times
// ---------------------------------------------------------------------------

/// `n` in decimal, with two digits at least.
pub open spec fn two_digits(n: nat) -> Seq<char> {
    number::zero_padded(number::nat_text(n), 2)
}

/// A duration as `H:MM:SS`.
pub open spec fn duration_text(secs: nat) -> Seq<char> {
    number::nat_text(secs / 3600) + seq![':'] + two_digits((secs % 3600) / 60) + seq![':']
        + two_digits(secs % 60)
}

/// Formats a duration of whole seconds as `H:MM:SS`.
pub fn fmt_duration(secs: u64) -> (r: String)
    ensures
        r@ == duration_text(secs as nat),
{
    let mut r = number::nat_string(secs / 3600);
    r.push(':');
    r.append(number::padded_string((secs % 3600) / 60, 2).as_str());
    r.push(':');
    r.append(number::padded_string(secs % 60, 2).as_str());
    proof {
        assert(r@ =~= duration_text(secs as nat));
    }
    r
}

/// A point in time on the local calendar and clock, as far as it is shown.
/// Months count from zero.
#[derive(Clone, Copy, Debug, PartialEq, Eq)]
pub struct LocalTime {
    pub mon: u32,
    pub mday: u32,
    pub hour: u32,
    pub min: u32,
}

/// The short name of a month.
pub open spec fn month_name(mon: u32) -> Seq<char> {
    if mon == 1 {
        "Feb"@
    } else if mon == 2 {
        "Mar"@
    } else if mon == 3 {
        "Apr"@
    } else if mon == 4 {
        "May"@
    } else if mon == 5 {
        "Jun"@
    } else if mon == 6 {
        "Jul"@
    } else if mon == 7 {
        "Aug"@
    } else if mon == 8 {
        "Sep"@
    } else if mon == 9 {
        "Oct"@
    } else if mon == 10 {
        "Nov"@
    } else if mon == 11 {
        "Dec"@
    } else {
        "Jan"@
    }
}

/// The hour on a twelve-hour clock.
pub open spec fn hour12(hour: u32) -> nat {
    if hour % 12 == 0 {
        12
    } else {
        (hour % 12) as nat
    }
}

/// A time as `Jun 17 09:05 PM`.
pub open spec fn stop_time_text(t: LocalTime) -> Seq<char> {
    month_name(t.mon) + seq![' '] + two_digits(t.mday as nat) + seq![' '] + two_digits(
        hour12(t.hour),
    ) + seq![':'] + two_digits(t.min as nat) + (if t.hour < 12 {
        " AM"@
    } else {
        " PM"@
    })
}

/// Formats a time as `Jun 17 09:05 PM`.
pub fn fmt_stop_time(t: &LocalTime) -> (r: String)
    ensures
        r@ == stop_time_text(*t),
{
    let month = if t.mon == 1 {
        "Feb"
    } else if t.mon == 2 {
        "Mar"
    } else if t.mon == 3 {
        "Apr"
    } else if t.mon == 4 {
        "May"
    } else if t.mon == 5 {
        "Jun"
    } else if t.mon == 6 {
        "Jul"
    } else if t.mon == 7 {
        "Aug"
    } else if t.mon == 8 {
        "Sep"
    } else if t.mon == 9 {
        "Oct"
    } else if t.mon == 10 {
        "Nov"
    } else if t.mon == 11 {
        "Dec"
    } else {
        "Jan"
    };
    let hour: u32 = if t.hour % 12 == 0 {
        12
    } else {
        t.hour % 12
    };
    let mut r = month.to_string();
    r.push(' ');
    r.append(number::padded_string(t.mday as u64, 2).as_str());
    r.push(' ');
    r.append(number::padded_string(hour as u64, 2).as_str());
    r.push(':');
    r.append(number::padded_string(t.min as u64, 2).as_str());
    r.append(
        if t.hour < 12 {
            " AM"
        } else {
            " PM"
        },
    );
    proof {
        assert(r@ =~= stop_time_text(*t));
    }
    r
}

// ---------------------------------------------------------------------------
// Snapshots
// ---------------------------------------------------------------------------

/// A snapshot of a process's state for the control interface.
#[derive(Debug)]
pub struct ProcessInfo {
    pub name: String,
    pub group: String,
    pub state: i64,
    pub statename: String,
    pub pid: i32,
    pub start: i64,
    pub stop: i64,
    pub now: i64,
    pub exitstatus: i32,
    pub spawnerr: String,
    pub stdout_logfile: String,
    pub stderr_logfile: String,
    pub description: String,
}

/// The mathematical content of a [`ProcessInfo`].
#[verifier::ext_equal]
pub struct InfoModel {
    pub name: Seq<char>,
    pub group: Seq<char>,
    pub state: i64,
    pub statename: Seq<char>,
    pub pid: i32,
    pub start: i64,
    pub stop: i64,
    pub now: i64,
    pub exitstatus: i32,
    pub spawnerr: Seq<char>,
    pub stdout_logfile: Seq<char>,
    pub stderr_logfile: Seq<char>,
    pub description: Seq<char>,
}

impl View for ProcessInfo {
    type V = InfoModel;

    open spec fn view(&self) -> InfoModel {
        InfoModel {
            name: self.name@,
            group: self.group@,
            state: self.state,
            statename: self.statename@,
            pid: self.pid,
            start: self.start,
            stop: self.stop,
            now: self.now,
            exitstatus: self.exitstatus,
            spawnerr: self.spawnerr@,
            stdout_logfile: self.stdout_logfile@,
            stderr_logfile: self.stderr_logfile@,
            description: self.description@,
        }
    }
}

/// The contents of a list of snapshots.
pub open spec fn info_list(v: Seq<ProcessInfo>) -> Seq<InfoModel> {
    v.map_values(|i: ProcessInfo| i@)
}

// ---------------------------------------------------------------------------
// Laws
// ---------------------------------------------------------------------------

/// A status with an exit code in its second byte is that exit; one with a
/// signal in its low bits is that signal, whether or not it left a core file.
pub proof fn law_exit_codes(code: int, sig: int, core: bool)
    requires
        0 <= code <= 255,
        1 <= sig <= 126,
    ensures
        exit_of((256 * code) as i32) == (code, false),
        exit_of(
            (if core {
                sig + 128
            } else {
                sig
            }) as i32,
        ) == (-sig, true),
{
    let a = (256 * code) as i32 as u32;
    assert(a == 256 * code);
    assert(a % 128 == 0);
    assert((a / 256) % 256 == code);
}

/// A duration is shown as hours, minutes and seconds that make it up, with
/// less than sixty of each of the latter, in two digits.
pub proof fn law_duration(h: nat, m: nat, s: nat)
    requires
        m < 60,
        s < 60,
    ensures
        duration_text(3600 * h + 60 * m + s) == number::nat_text(h) + seq![':']
            + number::zero_padded(number::nat_text(m), 2) + seq![':'] + number::zero_padded(
            number::nat_text(s),
            2,
        ),
{
    let t = 3600 * h + 60 * m + s;
    assert(t / 3600 == h);
    assert(t % 3600 == 60 * m + s);
    assert((t % 3600) / 60 == m);
    assert(t % 60 == s);
}

/// A time of day on the twelve-hour clock: the hours after midnight and after
/// noon are twelve, and the afternoon is told from the morning.
pub proof fn law_stop_time(t: LocalTime, hour: u32)
    requires
        1 <= hour <= 12,
        t.mon < 12,
    ensures
        ({
            let head = month_name(t.mon) + seq![' '] + number::zero_padded(
                number::nat_text(t.mday as nat),
                2,
            ) + seq![' '];
            let tail = seq![':'] + number::zero_padded(number::nat_text(t.min as nat), 2);
            let shown = number::zero_padded(number::nat_text(hour as nat), 2);
            &&& t.hour == hour % 12 ==> stop_time_text(t) == head + shown + tail + " AM"@
            &&& t.hour == hour % 12 + 12 ==> stop_time_text(t) == head + shown + tail + " PM"@
        }),
{
    let head = month_name(t.mon) + seq![' '] + number::zero_padded(
        number::nat_text(t.mday as nat),
        2,
    ) + seq![' '];
    let tail = seq![':'] + number::zero_padded(number::nat_text(t.min as nat), 2);
    let shown = number::zero_padded(number::nat_text(hour as nat), 2);
    if t.hour == hour % 12 {
        assert(hour12(t.hour) == hour);
        assert(stop_time_text(t) =~= head + shown + tail + " AM"@);
    }
    if t.hour == hour % 12 + 12 {
        assert(hour12(t.hour) == hour);
        assert(stop_time_text(t) =~= head + shown + tail + " PM"@);
    }
}

/// The months in their order.
pub proof fn law_months(mon: u32)
    requires
        mon < 12,
    ensures
        month_name(mon) == "JanFebMarAprMayJunJulAugSepOctNovDec"@.subrange(
            3 * mon as int,
            3 * mon as int + 3,
        ),
{
    reveal_strlit("JanFebMarAprMayJunJulAugSepOctNovDec");
    reveal_strlit("Jan");
    reveal_strlit("Feb");
    reveal_strlit("Mar");
    reveal_strlit("Apr");
    reveal_strlit("May");
    reveal_strlit("Jun");
    reveal_strlit("Jul");
    reveal_strlit("Aug");
    reveal_strlit("Sep");
    reveal_strlit("Oct");
    reveal_strlit("Nov");
    reveal_strlit("Dec");
    assert(month_name(mon) =~= "JanFebMarAprMayJunJulAugSepOctNovDec"@.subrange(
        3 * mon as int,
        3 * mon as int + 3,
    ));
}

} // verus!
