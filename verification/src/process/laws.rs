//! What holds of every supervised process, whatever happens to it.
use crate::config::settings::LogTargetModel;
use crate::config::settings::ProgramModel;
use crate::config::values::AutoRestart;
use crate::events;
use crate::logger;
use crate::logger::LoggerModel;
use crate::number;
use crate::process::command;
use crate::process::info;
use crate::process::info::LocalTime;
use crate::process::machine;
use crate::process::machine::LaunchFailure;
use crate::process::machine::ProcessModel;
use crate::process::machine::Request;
use crate::process::machine::Stream;
use crate::states;
use crate::states::ProcessState;
use vstd::prelude::*;

verus! {

// ---------------------------------------------------------------------------
// Starting
// ---------------------------------------------------------------------------

/// A process that has stayed up for `startsecs` is running, and its failed
/// starts are forgotten; until then nothing happens to it.
pub proof fn law_running_after_startsecs(p: ProcessModel, now: u128, shutting_down: bool)
    requires
        p.state is Starting,
        p.laststart is Some,
    ensures
        ({
            let (q, r) = machine::advanced(p, now, shutting_down);
            &&& r is Idle
            &&& if machine::elapsed(now, p.laststart->0) >= p.config.startsecs * machine::NANOS {
                &&& q.state is Running
                &&& q.backoff == 0
                &&& q.spawnerr is None
                &&& q.pid == p.pid
            } else {
                q == p
            }
        }),
{
}

/// A process that exits before `startsecs` backs off, for as many seconds as
/// it has failed to start in a row.
pub proof fn law_quick_exit_backs_off(p: ProcessModel, status: i32, now: u128, epoch: i64)
    requires
        p.state is Starting,
        machine::too_quick(p, now),
        p.backoff < u32::MAX,
    ensures
        ({
            let q = machine::reaped(p, status, now, epoch);
            &&& q.state is Backoff
            &&& q.backoff == p.backoff + 1
            &&& q.delay == Some(machine::later(now, (p.backoff + 1) as nat))
            &&& q.pid == 0
        }),
{
}

/// A launch followed by an exit at once.
pub open spec fn failed_round(
    p: ProcessModel,
    pid: i32,
    status: i32,
    now: u128,
    epoch: i64,
) -> ProcessModel {
    machine::reaped(machine::launched(p, pid, now, epoch), status, now, epoch)
}

/// `n` launches, each followed by an exit at once.
pub open spec fn failed_rounds(
    p: ProcessModel,
    n: nat,
    pid: i32,
    status: i32,
    now: u128,
    epoch: i64,
) -> ProcessModel
    decreases n,
{
    if n == 0 {
        p
    } else {
        failed_round(failed_rounds(p, (n - 1) as nat, pid, status, now, epoch), pid, status, now, epoch)
    }
}

/// A process that keeps exiting at once is retried `startretries` times, and
/// after one failure more it is given up.
pub proof fn law_gives_up_after_startretries(
    p: ProcessModel,
    n: nat,
    pid: i32,
    status: i32,
    now: u128,
    epoch: i64,
    at: u128,
)
    requires
        p.backoff == 0,
        p.config.startsecs > 0,
        1 <= n <= u32::MAX,
        command::arguments(p.config.command).len() > 0,
        at >= machine::later(now, n),
    ensures
        ({
            let q = failed_rounds(p, n, pid, status, now, epoch);
            let (after, r) = machine::advanced(q, at, false);
            &&& q.state is Backoff
            &&& q.backoff == n
            &&& n <= p.config.startretries ==> r is Launch && after == q
            &&& n > p.config.startretries ==> r is Idle && after.state is Fatal
        }),
    decreases n,
{
    lemma_failed_rounds(p, n, pid, status, now, epoch);
}

proof fn lemma_failed_rounds(
    p: ProcessModel,
    n: nat,
    pid: i32,
    status: i32,
    now: u128,
    epoch: i64,
)
    requires
        p.backoff == 0,
        p.config.startsecs > 0,
        n <= u32::MAX,
    ensures
        ({
            let q = failed_rounds(p, n, pid, status, now, epoch);
            &&& q.config == p.config
            &&& q.backoff == n
            &&& n >= 1 ==> q.state is Backoff && q.delay == Some(machine::later(now, n))
        }),
    decreases n,
{
    if n > 0 {
        lemma_failed_rounds(p, (n - 1) as nat, pid, status, now, epoch);
        let q = failed_rounds(p, (n - 1) as nat, pid, status, now, epoch);
        let l = machine::launched(q, pid, now, epoch);
        assert(l.laststart == Some(now));
        assert(p.config.startsecs * machine::NANOS > 0) by (nonlinear_arith)
            requires
                p.config.startsecs > 0,
                machine::NANOS == 1000000000u128,
        ;
        assert(machine::too_quick(l, now));
    }
}

/// A process that was given up stays so until it is started by request.
pub proof fn law_fatal_is_final(p: ProcessModel, now: u128, shutting_down: bool)
    requires
        p.state is Fatal,
    ensures
        machine::advanced(p, now, shutting_down) == (p, Request::Idle),
{
}

// ---------------------------------------------------------------------------
// Exits and restarts
// ---------------------------------------------------------------------------

/// A process that was running is restarted after it exits just if its
/// `autorestart` rule says so: always, never, or when the exit code is not
/// among the expected ones.
pub proof fn law_autorestart(p: ProcessModel, status: i32, now: u128, epoch: i64, at: u128)
    requires
        p.state is Running,
        !p.administratively_stopped,
        command::arguments(p.config.command).len() > 0,
    ensures
        ({
            let q = machine::reaped(p, status, now, epoch);
            let (_, r) = machine::advanced(q, at, false);
            &&& q.state is Exited
            &&& r is Launch <==> match p.config.autorestart {
                AutoRestart::Always => true,
                AutoRestart::Never => false,
                AutoRestart::Unexpected => !machine::expected_exit(p, status),
            }
        }),
{
}

/// An exit by a signal is never an expected one, whatever exit codes are configured.
pub proof fn law_signal_is_never_expected(p: ProcessModel, status: i32, now: u128, epoch: i64)
    requires
        info::exit_of(status).1,
    ensures
        !machine::reaped(p, status, now, epoch).last_exit_expected,
        machine::reaped(p, status, now, epoch).exitstatus->0 < 0,
        p.config.autorestart is Unexpected ==> machine::wants_restart(
            machine::reaped(p, status, now, epoch),
        ),
{
}

/// While the supervisor shuts down nothing is launched.
pub proof fn law_shutdown_launches_nothing(p: ProcessModel, now: u128)
    ensures
        !(machine::advanced(p, now, true).1 is Launch),
{
}

/// Whether a process was stopped by request and is to stay so.
pub open spec fn at_rest(p: ProcessModel) -> bool {
    &&& p.administratively_stopped
    &&& !p.restart_pending
    &&& !(p.state is Starting || p.state is Running || p.state is Backoff)
}

/// A process that was stopped by request stays stopped: neither its exit nor
/// any step of the state machine launches it again.
pub proof fn law_stop_suppresses_restart(
    p: ProcessModel,
    now: u128,
    status: i32,
    epoch: i64,
    shutting_down: bool,
)
    ensures
        !p.restart_pending ==> at_rest(machine::stopped(p, now).0),
        at_rest(p) ==> at_rest(machine::reaped(p, status, now, epoch)),
        at_rest(p) ==> at_rest(machine::advanced(p, now, shutting_down).0),
        at_rest(p) ==> !(machine::advanced(p, now, shutting_down).1 is Launch),
{
}

/// Stopping a running process sends the stop signal; if the process has not
/// exited when `stopwaitsecs` have passed it is killed.
pub proof fn law_stop_escalates(p: ProcessModel, now: u128, at: u128, shutting_down: bool)
    requires
        p.state is Running || p.state is Starting,
        p.pid > 0,
    ensures
        ({
            let (q, r, initiated) = machine::stopped(p, now);
            &&& initiated
            &&& q.state is Stopping
            &&& r == Request::Signal { pid: p.pid, sig: p.config.stopsignal }
            &&& machine::advanced(q, at, shutting_down).1 == (if at >= machine::later(
                now,
                p.config.stopwaitsecs as nat,
            ) {
                Request::Signal { pid: p.pid, sig: 9 }
            } else {
                Request::Idle
            })
        }),
{
}

/// A restart of a running process stops it, and launches it again once it has exited.
pub proof fn law_restart_comes_back(
    p: ProcessModel,
    now: u128,
    status: i32,
    at: u128,
    epoch: i64,
    later: u128,
)
    requires
        p.state is Running || p.state is Starting,
        command::arguments(p.config.command).len() > 0,
    ensures
        ({
            let (q, _) = machine::restarted(p, now);
            let e = machine::reaped(q, status, at, epoch);
            &&& q.state is Stopping
            &&& e.state is Stopped
            &&& machine::advanced(e, later, false).1 == Request::Launch(
                command::arguments(p.config.command),
            )
        }),
{
}

/// A process that was stopped can be started again.
pub proof fn law_stopped_process_starts_again(
    p: ProcessModel,
    now: u128,
    status: i32,
    at: u128,
    epoch: i64,
    later: u128,
)
    requires
        p.state is Running || p.state is Starting,
        command::arguments(p.config.command).len() > 0,
    ensures
        ({
            let e = machine::reaped(machine::stopped(p, now).0, status, at, epoch);
            let (q, r, initiated) = machine::started(e, later);
            &&& e.state is Stopped
            &&& initiated
            &&& r == Request::Launch(command::arguments(p.config.command))
            &&& !q.administratively_stopped
            &&& q.backoff == 0
        }),
{
}

// ---------------------------------------------------------------------------
// Pids
// ---------------------------------------------------------------------------

/// Whether a process with a pid is in a state in which it has a child.
pub open spec fn pid_is_live(p: ProcessModel) -> bool {
    p.pid != 0 ==> p.state is Starting || p.state is Running || p.state is Stopping
}

/// Only a process that is starting, running or stopping has a pid, and every
/// operation keeps it so.
pub proof fn law_pid_is_live(
    p: ProcessModel,
    c: ProgramModel,
    childlogdir: Seq<char>,
    pid: i32,
    status: i32,
    now: u128,
    epoch: i64,
    why: Seq<char>,
    shutting_down: bool,
)
    requires
        pid_is_live(p),
    ensures
        pid_is_live(machine::new_process(c, childlogdir)),
        pid_is_live(machine::launched(p, pid, now, epoch)),
        p.pid == 0 ==> pid_is_live(machine::start_failed(p, why, now)),
        pid_is_live(machine::reaped(p, status, now, epoch)),
        pid_is_live(machine::advanced(p, now, shutting_down).0),
        pid_is_live(machine::stopped(p, now).0),
        pid_is_live(machine::started(p, now).0),
        pid_is_live(machine::restarted(p, now).0),
{
}

// ---------------------------------------------------------------------------
// Events
// ---------------------------------------------------------------------------

/// Whether going from `p` to `q` produced at most one event, which names the
/// state entered, and none was left out.
pub open spec fn reports(p: ProcessModel, q: ProcessModel) -> bool {
    ||| q.pending_events == p.pending_events && q.state == p.state
    ||| q.pending_events.len() == p.pending_events.len() + 1 && q.pending_events.drop_last()
        == p.pending_events && q.pending_events.last().0 == events::state_event(q.state)
}

proof fn lemma_changed_reports(p: ProcessModel, q: ProcessModel, s: ProcessState)
    requires
        q.pending_events == p.pending_events,
    ensures
        reports(p, machine::changed(q, s)),
{
    assert(machine::changed(q, s).pending_events.drop_last() =~= p.pending_events);
}

/// Every change of state is reported by one event that names the new state,
/// and nothing else produces events.
pub proof fn law_state_changes_are_reported(
    p: ProcessModel,
    pid: i32,
    status: i32,
    now: u128,
    epoch: i64,
    why: Seq<char>,
    shutting_down: bool,
)
    ensures
        reports(p, machine::launched(p, pid, now, epoch)),
        reports(p, machine::start_failed(p, why, now)),
        reports(p, machine::reaped(p, status, now, epoch)),
        reports(p, machine::advanced(p, now, shutting_down).0),
        reports(p, machine::stopped(p, now).0),
        reports(p, machine::started(p, now).0),
        reports(p, machine::restarted(p, now).0),
{
    assert forall|q: ProcessModel, s: ProcessState|
        q.pending_events == p.pending_events implies reports(
        p,
        #[trigger] machine::changed(q, s),
    ) by {
        lemma_changed_reports(p, q, s);
    }
    let r = machine::reaped(p, status, now, epoch);
    assert(reports(p, r)) by {
        assert forall|q: ProcessModel, s: ProcessState|
            q.pending_events == p.pending_events implies reports(
            p,
            ProcessModel { pid: 0, ..#[trigger] machine::changed(q, s) },
        ) by {
            lemma_changed_reports(p, q, s);
        }
    }
}

/// A full buffer loses its oldest event; the newest is always kept, the order
/// stays, and the buffer never holds more than its size (one event at least).
pub proof fn law_event_buffer(
    buffer: Seq<(u64, Seq<char>, Seq<char>)>,
    size: nat,
    event: (u64, Seq<char>, Seq<char>),
)
    requires
        buffer.len() <= (if size == 0 {
            1
        } else {
            size
        }),
    ensures
        ({
            let r = machine::with_event(buffer, size, event);
            &&& r.len() <= (if size == 0 {
                1
            } else {
                size
            })
            &&& r.last() == event
            &&& r.drop_last() == (if buffer.len() >= size && buffer.len() > 0 {
                buffer.skip(1)
            } else {
                buffer
            })
        }),
{
    let r = machine::with_event(buffer, size, event);
    if buffer.len() >= size && buffer.len() > 0 {
        assert(r.drop_last() =~= buffer.skip(1));
    } else {
        assert(r.drop_last() =~= buffer);
    }
}

// ---------------------------------------------------------------------------
// Requests
// ---------------------------------------------------------------------------

/// A point in time some seconds ahead is that many thousand millions of
/// nanoseconds ahead.
pub proof fn law_later(now: u128, secs: u64)
    requires
        now <= machine::MAX_NOW,
    ensures
        machine::later(now, secs as nat) == now + secs * 1000000000,
{
}

/// A start request starts every process that is not running, starting or
/// stopping: its command is launched, argument by argument, its failed starts
/// and an earlier stop are forgotten, and nothing else about it changes. Any
/// other process is left alone.
pub proof fn law_start_request(p: ProcessModel, now: u128)
    ensures
        ({
            let (q, r, initiated) = machine::started(p, now);
            let argv = command::arguments(p.config.command);
            &&& initiated <==> !(p.state is Running || p.state is Starting || p.state is Stopping)
            &&& !initiated ==> q == p && r is Idle
            &&& initiated && argv.len() > 0 ==> {
                &&& r == Request::Launch(argv)
                &&& q.backoff == 0
                &&& q.delay is None
                &&& !q.administratively_stopped
                &&& q == (ProcessModel {
                    backoff: 0,
                    delay: None,
                    administratively_stopped: false,
                    ..p
                })
            }
            &&& initiated && argv.len() == 0 ==> {
                &&& r is Idle
                &&& q.state is Backoff
                &&& q.backoff == 1
                &&& q.spawnerr == Some("bad command"@)
                &&& q.pid == p.pid
                &&& q.config == p.config
            }
        }),
{
}

/// What a stop request does, state by state. It always takes note that the
/// process is to stay stopped.
pub proof fn law_stop_request(p: ProcessModel, now: u128)
    ensures
        ({
            let (q, r, initiated) = machine::stopped(p, now);
            &&& q.administratively_stopped
            &&& q.pid == p.pid && q.config == p.config && q.backoff == p.backoff
            &&& initiated <==> p.state is Running || p.state is Starting || p.state is Stopping
                || p.state is Backoff
            &&& p.state is Running || p.state is Starting ==> q.state is Stopping && q.delay
                == Some(machine::later(now, p.config.stopwaitsecs as nat))
            &&& p.state is Backoff ==> q.state is Stopped && q.delay is None && r is Idle
            &&& !(p.state is Running || p.state is Starting || p.state is Backoff) ==> r is Idle && q
                == (ProcessModel { administratively_stopped: true, ..p })
            &&& p.pid <= 0 ==> r is Idle
        }),
{
}

/// A restart of a process that is stopping waits for its exit; one that is
/// down is started as a start request would.
pub proof fn law_restart_request(p: ProcessModel, now: u128)
    ensures
        ({
            let (q, r) = machine::restarted(p, now);
            &&& p.state is Running || p.state is Starting || p.state is Stopping ==> {
                &&& q.restart_pending
                &&& q.state is Stopping
                &&& r == (if p.pid > 0 && p.state !is Stopping {
                    Request::Signal { pid: p.pid, sig: p.config.stopsignal }
                } else {
                    Request::Idle
                })
            }
            &&& !(p.state is Running || p.state is Starting || p.state is Stopping) ==> {
                let argv = command::arguments(p.config.command);
                &&& q.restart_pending == p.restart_pending
                &&& argv.len() > 0 ==> r == Request::Launch(argv)
            }
        }),
{
}

/// A signal reaches a process that is running, starting or stopping and has a
/// child, and no other.
pub proof fn law_signal_request(p: ProcessModel, sig: i32)
    ensures
        machine::signallable(p) <==> p.state is Running || p.state is Starting || p.state is Stopping,
        p.pid > 0 ==> machine::signalling(p, sig) == (Request::Signal { pid: p.pid, sig }),
        p.pid <= 0 ==> machine::signalling(p, sig) is Idle,
{
}

// ---------------------------------------------------------------------------
// Steps
// ---------------------------------------------------------------------------

/// A process that backs off is given up after more than `startretries` failed
/// starts; until then it is launched again once its delay has passed, unless
/// the supervisor shuts down.
pub proof fn law_backoff_step(p: ProcessModel, now: u128, shutting_down: bool)
    requires
        p.state is Backoff,
        command::arguments(p.config.command).len() > 0,
    ensures
        ({
            let (q, r) = machine::advanced(p, now, shutting_down);
            if p.backoff > p.config.startretries {
                &&& r is Idle
                &&& q.state is Fatal
                &&& q.delay is None
                &&& q.backoff == p.backoff
                &&& q.spawnerr == Some(
                    "Exited too quickly; gave up after "@ + number::nat_text(
                        p.config.startretries as nat,
                    ) + " retries"@,
                )
            } else {
                &&& q == p
                &&& r == (if !shutting_down && p.delay is Some && now >= p.delay->0 {
                    Request::Launch(command::arguments(p.config.command))
                } else {
                    Request::Idle
                })
            }
        }),
{
}

/// A process that has exited is launched again by itself just if it was not
/// stopped by request, the supervisor does not shut down, and its restart rule
/// says so: always, never, or when its exit code is not an expected one.
pub proof fn law_exited_step(p: ProcessModel, now: u128, shutting_down: bool)
    requires
        p.state is Exited,
        command::arguments(p.config.command).len() > 0,
    ensures
        ({
            let (q, r) = machine::advanced(p, now, shutting_down);
            let again = match p.config.autorestart {
                AutoRestart::Always => true,
                AutoRestart::Never => false,
                AutoRestart::Unexpected => p.exitstatus is None || p.exitstatus->0 < 0
                    || !p.config.exitcodes.contains(p.exitstatus->0),
            };
            &&& q == p
            &&& r == (if again && !shutting_down && !p.administratively_stopped {
                Request::Launch(command::arguments(p.config.command))
            } else {
                Request::Idle
            })
        }),
{
}

/// A process that does not stop is killed again and again, every two seconds
/// once its time is up.
pub proof fn law_stopping_step(p: ProcessModel, now: u128, shutting_down: bool)
    requires
        p.state is Stopping,
        p.pid > 0,
    ensures
        ({
            let (q, r) = machine::advanced(p, now, shutting_down);
            if p.delay is Some && now >= p.delay->0 {
                &&& r == (Request::Signal { pid: p.pid, sig: 9 })
                &&& q == (ProcessModel { delay: Some(machine::later(now, 2)), ..p })
            } else {
                r is Idle && q == p
            }
        }),
{
}

/// A process that has stopped is launched again just if a restart is pending
/// and the supervisor does not shut down.
pub proof fn law_stopped_step(p: ProcessModel, now: u128, shutting_down: bool)
    requires
        p.state is Stopped,
        command::arguments(p.config.command).len() > 0,
    ensures
        ({
            let (q, r) = machine::advanced(p, now, shutting_down);
            if p.restart_pending && !shutting_down {
                &&& r == Request::Launch(command::arguments(p.config.command))
                &&& q == (ProcessModel {
                    restart_pending: false,
                    administratively_stopped: false,
                    backoff: 0,
                    delay: None,
                    ..p
                })
            } else {
                r is Idle && q == p
            }
        }),
{
}

/// Time alone does nothing to a process that runs.
pub proof fn law_running_step(p: ProcessModel, now: u128, shutting_down: bool)
    requires
        p.state is Running || p.state is Unknown,
    ensures
        machine::advanced(p, now, shutting_down) == (p, Request::Idle),
{
}

/// A launched child makes a process start: from then on it has that pid, and
/// `startsecs` begin to run.
pub proof fn law_launched(p: ProcessModel, pid: i32, now: u128, epoch: i64)
    ensures
        ({
            let q = machine::launched(p, pid, now, epoch);
            &&& q.state is Starting
            &&& q.pid == pid
            &&& q.laststart == Some(now)
            &&& q.laststart_epoch == Some(epoch)
            &&& q.delay == Some(machine::later(now, p.config.startsecs as nat))
            &&& q.spawnerr is None
            &&& q.backoff == p.backoff
            &&& q.restart_pending == p.restart_pending
            &&& q.administratively_stopped == p.administratively_stopped
            &&& q.exitstatus == p.exitstatus
        }),
{
}

/// A launch that failed counts as a failed start, and its reason is kept.
pub proof fn law_failed_launch(p: ProcessModel, why: Seq<char>, now: u128)
    requires
        p.backoff < u32::MAX,
    ensures
        ({
            let q = machine::start_failed(p, why, now);
            &&& q.state is Backoff
            &&& q.spawnerr == Some(why)
            &&& q.backoff == p.backoff + 1
            &&& q.delay == Some(machine::later(now, (p.backoff + 1) as nat))
            &&& q.pid == p.pid
        }),
{
}

/// What a process is told of its exit: an exit code as it is, the number of a
/// signal negated. An exit is expected just if it is one with a code that the
/// configuration lists.
pub proof fn law_exit_is_noted(p: ProcessModel, code: int, sig: int, core: bool, now: u128, epoch: i64)
    requires
        0 <= code <= 255,
        1 <= sig <= 126,
    ensures
        ({
            let q = machine::reaped(p, (256 * code) as i32, now, epoch);
            &&& q.exitstatus == Some(code as i32)
            &&& q.last_exit_expected <==> p.config.exitcodes.contains(code as i32)
            &&& q.laststop_epoch == Some(epoch)
            &&& q.pid == 0
        }),
        ({
            let q = machine::reaped(
                p,
                (if core {
                    sig + 128
                } else {
                    sig
                }) as i32,
                now,
                epoch,
            );
            &&& q.exitstatus == Some((-sig) as i32)
            &&& !q.last_exit_expected
            &&& q.laststop_epoch == Some(epoch)
            &&& q.pid == 0
        }),
{
    info::law_exit_codes(code, sig, core);
}

/// The state after an exit: a process that had not been up for `startsecs`
/// backs off, one that was up has exited, one that was told to stop has
/// stopped. An exit after a successful start forgets failed starts.
pub proof fn law_state_after_exit(p: ProcessModel, status: i32, now: u128, epoch: i64)
    requires
        p.laststart is Some,
    ensures
        ({
            let q = machine::reaped(p, status, now, epoch);
            let up = machine::elapsed(now, p.laststart->0) >= p.config.startsecs * machine::NANOS;
            &&& p.state is Starting && !up ==> q.state is Backoff && q.spawnerr == Some(
                "Exited too quickly (process log may have details)"@,
            )
            &&& p.state is Starting && up ==> q.state is Exited && q.backoff == 0
            &&& p.state is Running ==> q.state is Exited && q.backoff == 0 && q.delay is None
            &&& p.state is Stopping ==> q.state is Stopped && q.backoff == 0 && q.delay is None
            &&& q.restart_pending == p.restart_pending
            &&& q.administratively_stopped == p.administratively_stopped
            &&& q.laststart == p.laststart
        }),
{
}

/// How long ago something was.
pub proof fn law_elapsed(now: u128, t: u128)
    ensures
        now >= t ==> machine::elapsed(now, t) == now - t,
        now < t ==> machine::elapsed(now, t) == 0,
{
}

/// After a running process has exited by itself, with an exit code: it comes
/// back just if its restart rule says so.
pub proof fn law_autorestart_by_code(p: ProcessModel, code: int, now: u128, epoch: i64, at: u128)
    requires
        p.state is Running,
        !p.administratively_stopped,
        0 <= code <= 255,
        command::arguments(p.config.command).len() > 0,
    ensures
        ({
            let q = machine::reaped(p, (256 * code) as i32, now, epoch);
            machine::advanced(q, at, false).1 == (if match p.config.autorestart {
                AutoRestart::Always => true,
                AutoRestart::Never => false,
                AutoRestart::Unexpected => !p.config.exitcodes.contains(code as i32),
            } {
                Request::Launch(command::arguments(p.config.command))
            } else {
                Request::Idle
            })
        }),
{
    info::law_exit_codes(code, 1, false);
}

// ---------------------------------------------------------------------------
// What stays
// ---------------------------------------------------------------------------

/// Whether a process is still the same one, with the same logs and events.
pub open spec fn same_process(p: ProcessModel, q: ProcessModel) -> bool {
    &&& q.config == p.config
    &&& q.stdout_path == p.stdout_path
    &&& q.stderr_path == p.stderr_path
    &&& q.stdout_logger == p.stdout_logger
    &&& q.stderr_logger == p.stderr_logger
    &&& q.subscribed == p.subscribed
    &&& q.event_buffer == p.event_buffer
    &&& q.pool_serial == p.pool_serial
}

/// Whether a listener starts the protocol over when it enters a state in which
/// it does not run, and only then.
pub open spec fn protocol_follows(p: ProcessModel, q: ProcessModel) -> bool {
    if p.config.is_listener && q.pending_events.len() > p.pending_events.len() && q.state
        !is Running {
        &&& q.listener.state is Acknowledged
        &&& q.listener.buf.len() == 0
        &&& q.listener.result_len is None
        &&& q.listener.result_buf.len() == 0
    } else {
        q.listener == p.listener
    }
}

/// Nothing that happens to a process changes its configuration, its logs or
/// the events that wait for it; and a listener whose process goes down starts
/// the protocol over.
pub proof fn law_what_stays(
    p: ProcessModel,
    pid: i32,
    status: i32,
    now: u128,
    epoch: i64,
    why: Seq<char>,
    shutting_down: bool,
)
    ensures
        same_process(p, machine::launched(p, pid, now, epoch)),
        same_process(p, machine::start_failed(p, why, now)),
        same_process(p, machine::reaped(p, status, now, epoch)),
        same_process(p, machine::advanced(p, now, shutting_down).0),
        same_process(p, machine::stopped(p, now).0),
        same_process(p, machine::started(p, now).0),
        same_process(p, machine::restarted(p, now).0),
        protocol_follows(p, machine::launched(p, pid, now, epoch)),
        protocol_follows(p, machine::start_failed(p, why, now)),
        protocol_follows(p, machine::reaped(p, status, now, epoch)),
        protocol_follows(p, machine::advanced(p, now, shutting_down).0),
        protocol_follows(p, machine::stopped(p, now).0),
        protocol_follows(p, machine::started(p, now).0),
        protocol_follows(p, machine::restarted(p, now).0),
{
}

/// The event about an exit tells which process it was, what it was doing, what
/// its pid was, and whether the exit was expected.
pub proof fn law_exit_event(p: ProcessModel, code: int, now: u128, epoch: i64)
    requires
        p.state is Running,
        0 <= code <= 255,
    ensures
        ({
            let q = machine::reaped(p, (256 * code) as i32, now, epoch);
            q.pending_events.last() == (
                "PROCESS_STATE_EXITED"@,
                "processname:"@ + p.config.name + " groupname:"@ + p.config.group
                    + " from_state:"@ + "RUNNING"@ + (if p.config.exitcodes.contains(code as i32) {
                    " expected:1 pid:"@
                } else {
                    " expected:0 pid:"@
                }) + number::int_text(p.pid as int),
            )
        }),
{
    info::law_exit_codes(code, 1, false);
    events::law_exit_payload(
        p.config.name,
        p.config.group,
        ProcessState::Running,
        p.pid as int,
        0,
        p.config.exitcodes.contains(code as i32),
    );
}

/// The events about a start tell the pid, once there is a child that stays up.
pub proof fn law_start_events(p: ProcessModel, pid: i32, now: u128, epoch: i64, at: u128)
    requires
        at >= now,
        at - now >= p.config.startsecs * machine::NANOS,
    ensures
        ({
            let a = machine::launched(p, pid, now, epoch);
            let (b, _) = machine::advanced(a, at, false);
            &&& a.pending_events.last().0 == "PROCESS_STATE_STARTING"@
            &&& b.pending_events.last().0 == "PROCESS_STATE_RUNNING"@
            &&& b.pending_events.last().1 == "processname:"@ + p.config.name + " groupname:"@
                + p.config.group + " from_state:"@ + "STARTING"@ + " pid:"@ + number::int_text(
                pid as int,
            )
        }),
{
}

// ---------------------------------------------------------------------------
// New processes and their logs
// ---------------------------------------------------------------------------

/// A new process is stopped, has no child and no history, and subscribes to
/// just the events that its configuration lists.
pub proof fn law_new_process(c: ProgramModel, childlogdir: Seq<char>, event: Seq<char>)
    ensures
        ({
            let p = machine::new_process(c, childlogdir);
            &&& p.config == c
            &&& p.state is Stopped
            &&& p.pid == 0
            &&& p.backoff == 0
            &&& p.delay is None && p.laststart is None && p.laststart_epoch is None
            &&& p.laststop_epoch is None && p.exitstatus is None && p.spawnerr is None
            &&& !p.administratively_stopped && !p.restart_pending
            &&& p.pending_events.len() == 0 && p.event_buffer.len() == 0
            &&& p.subscribed.contains(event) <==> c.events.contains(event)
            &&& p.listener.state is Acknowledged
            &&& p.stdout_logger.maxbytes == (if c.stdout_logfile is Discard {
                0
            } else {
                c.stdout_logfile_maxbytes
            })
            &&& p.stderr_logger.maxbytes == (if c.stderr_logfile is Discard {
                0
            } else {
                c.stderr_logfile_maxbytes
            })
            &&& c.stdout_logfile !is Discard ==> p.stdout_logger.backups
                == c.stdout_logfile_backups && p.stdout_logger.path == Some(p.stdout_path)
            &&& c.stderr_logfile !is Discard ==> p.stderr_logger.backups
                == c.stderr_logfile_backups
            &&& c.stderr_logfile !is Discard && !c.redirect_stderr ==> p.stderr_logger.path
                == Some(p.stderr_path)
            &&& c.redirect_stderr ==> p.stderr_path.len() == 0
        }),
{
}

/// Where logs are kept: in the directory for logs under the name of the process
/// and the stream, at the path given, or nowhere.
pub proof fn law_log_paths(c: ProgramModel, dir: Seq<char>, out: Seq<char>, err: Seq<char>)
    requires
        dir.len() > 0,
        dir.last() != '/',
        c.name.len() > 0 && c.name[0] != '/',
        !c.redirect_stderr,
    ensures
        ({
            let p = machine::new_process(c, dir);
            &&& c.stdout_logfile is Auto ==> p.stdout_path == dir + seq!['/'] + c.name
                + "-stdout.log"@
            &&& c.stderr_logfile is Auto ==> p.stderr_path == dir + seq!['/'] + c.name
                + "-stderr.log"@
            &&& c.stdout_logfile == LogTargetModel::Path(out) ==> p.stdout_path == out
            &&& c.stderr_logfile == LogTargetModel::Path(err) ==> p.stderr_path == err
            &&& c.stdout_logfile is Discard ==> p.stdout_path.len() == 0 && p.stdout_logger.path
                is None
            &&& c.stderr_logfile is Discard ==> p.stderr_path.len() == 0 && p.stderr_logger.path
                is None
        }),
{
    let p = machine::new_process(c, dir);
    reveal_strlit("-");
    reveal_strlit("stdout");
    reveal_strlit("stderr");
    reveal_strlit(".log");
    reveal_strlit("-stdout.log");
    reveal_strlit("-stderr.log");
    assert("-"@ + "stdout"@ + ".log"@ =~= "-stdout.log"@);
    assert("-"@ + "stderr"@ + ".log"@ =~= "-stderr.log"@);
    assert(c.name + "-"@ + "stdout"@ + ".log"@ =~= c.name + "-stdout.log"@);
    assert(c.name + "-"@ + "stderr"@ + ".log"@ =~= c.name + "-stderr.log"@);
    assert(dir + seq!['/'] + (c.name + "-stdout.log"@) =~= dir + seq!['/'] + c.name
        + "-stdout.log"@);
    assert(dir + seq!['/'] + (c.name + "-stderr.log"@) =~= dir + seq!['/'] + c.name
        + "-stderr.log"@);
}

/// What a child writes goes to the log of its stream, except what a listener
/// writes to stdout, which is the protocol. Neither touches anything else.
pub proof fn law_output_goes_where_it_belongs(p: ProcessModel, data: Seq<u8>)
    ensures
        ({
            let out = machine::received(p, Stream::Stdout, data);
            let err = machine::received(p, Stream::Stderr, data);
            &&& p.config.is_listener ==> out == ProcessModel { listener: out.listener, ..p }
            &&& !p.config.is_listener ==> out == ProcessModel {
                stdout_logger: out.stdout_logger,
                ..p
            }
            &&& err == ProcessModel { stderr_logger: err.stderr_logger, ..p }
            &&& machine::to_protocol(p, Stream::Stdout) <==> p.config.is_listener
            &&& !machine::to_protocol(p, Stream::Stderr)
            &&& machine::stream_logger(p, Stream::Stdout) == p.stdout_logger
            &&& machine::stream_logger(p, Stream::Stderr) == p.stderr_logger
        }),
{
}

/// A log is rotated before a write that would make it too large, and then
/// starts empty; else it is left as it is.
pub proof fn law_room_is_made(l: LoggerModel, len: nat)
    requires
        l.path is Some,
    ensures
        ({
            let full = l.open && l.maxbytes > 0 && l.size + len > l.maxbytes;
            &&& machine::with_room(l, len).size == (if full {
                0
            } else {
                l.size
            })
            &&& machine::room_for(l, len).len() == 0 <==> !full
            &&& machine::with_room(l, len).path == l.path
            &&& machine::with_room(l, len).maxbytes == l.maxbytes
            &&& machine::with_room(l, len).backups == l.backups
            &&& machine::cleared(l).size == 0
            &&& machine::cleared(l).path == l.path
        }),
{
}

// ---------------------------------------------------------------------------
// What is told of a process
// ---------------------------------------------------------------------------

/// A snapshot tells the truth about a process.
pub proof fn law_snapshot(p: ProcessModel, now: i64, at: LocalTime)
    ensures
        ({
            let i = machine::snapshot(p, now, at);
            &&& i.name == p.config.name
            &&& i.group == p.config.group
            &&& i.pid == p.pid
            &&& i.state == states::state_code(p.state)
            &&& i.statename == states::state_name(p.state)
            &&& i.now == now
            &&& p.laststart_epoch is Some ==> i.start == p.laststart_epoch->0
            &&& p.laststart_epoch is None ==> i.start == 0
            &&& p.laststop_epoch is Some ==> i.stop == p.laststop_epoch->0
            &&& p.laststop_epoch is None ==> i.stop == 0
            &&& p.exitstatus is Some ==> i.exitstatus == p.exitstatus->0
            &&& p.exitstatus is None ==> i.exitstatus == 0
            &&& p.spawnerr is Some ==> i.spawnerr == p.spawnerr->0
            &&& p.spawnerr is None ==> i.spawnerr.len() == 0
            &&& i.stdout_logfile == p.stdout_path
            &&& i.stderr_logfile == p.stderr_path
        }),
{
}

/// The description in a snapshot: pid and uptime of a process that runs, why
/// one failed, when one stopped, or that it was never started.
pub proof fn law_description(p: ProcessModel, now: i64, at: LocalTime)
    ensures
        ({
            let d = machine::snapshot(p, now, at).description;
            let start = if p.laststart_epoch is Some {
                p.laststart_epoch->0 as int
            } else {
                0
            };
            &&& p.state is Running && now >= start ==> d == "pid "@ + number::int_text(p.pid as int)
                + ", uptime "@ + info::duration_text((now - start) as nat)
            &&& (p.state is Fatal || p.state is Backoff) && p.spawnerr is Some
                && p.spawnerr->0.len() > 0 ==> d == p.spawnerr->0
            &&& (p.state is Fatal || p.state is Backoff) && p.spawnerr is None ==> d
                == "unknown error (try \"tail "@ + p.config.name + "\")"@
            &&& (p.state is Stopped || p.state is Exited) && start > 0 ==> d == info::stop_time_text(
                at,
            )
            &&& (p.state is Stopped || p.state is Exited) && start <= 0 ==> d == "Not started"@
            &&& p.state is Starting || p.state is Stopping ==> d.len() == 0
        }),
{
}

/// The one-line status: what the process is doing, and for how long or why.
pub proof fn law_status(p: ProcessModel, now: u128)
    ensures
        ({
            let s = machine::status_text(p, now);
            &&& p.state is Stopped ==> s == "Not started"@
            &&& p.state is Starting ==> s == "starting"@
            &&& p.state is Stopping ==> s == "stopping"@
            &&& p.state is Running && p.laststart is Some && now >= p.laststart->0 ==> s == "pid "@
                + number::int_text(p.pid as int) + ", uptime "@ + info::duration_text(
                ((now - p.laststart->0) / 1000000000) as nat,
            )
            &&& p.state is Backoff ==> s == "Backing off, retry "@ + number::nat_text(
                p.backoff as nat,
            ) + " of "@ + number::nat_text(p.config.startretries as nat + 1)
            &&& p.state is Exited && p.exitstatus is Some && p.exitstatus->0 >= 0 ==> s
                == "exited, status "@ + number::nat_text(p.exitstatus->0 as nat)
            &&& p.state is Exited && p.exitstatus is Some && p.exitstatus->0 < 0 ==> s
                == "terminated by signal "@ + number::nat_text((-p.exitstatus->0) as nat)
            &&& p.state is Fatal && p.spawnerr is Some ==> s == p.spawnerr->0
        }),
{
}

/// The user that a program runs as: a number stands for itself, a name for
/// what the user database says.
pub proof fn law_user(n: u32, name: Seq<char>, found: Option<(u32, u32)>)
    requires
        name.len() > 0,
        !('0' <= name[0] <= '9'),
        name[0] != '+',
        !name.contains('\0'),
    ensures
        machine::user_of(number::nat_text(n as nat), found) == Ok::<(u32, u32), Seq<char>>((n, n)),
        found is Some ==> machine::user_of(name, found) == Ok::<(u32, u32), Seq<char>>(found->0),
        found is None ==> machine::user_of(name, found) == Err::<(u32, u32), Seq<char>>(
            "unknown user: "@ + name,
        ),
{
    number::law_unsigned_round_trip(n as nat);
    number::law_other_text_is_no_number(name, 10);
}

/// Only a listener that runs and has asked for an event can be sent one.
pub proof fn law_can_receive(p: ProcessModel)
    ensures
        machine::can_receive(p) <==> p.config.is_listener && p.state is Running
            && p.listener.state is Ready,
{
}

/// An event counts as sent just if all of it was written; then the listener is
/// busy with it, and the next one waits behind it.
pub proof fn law_sent_events(p: ProcessModel, written: Option<i64>, len: int, e: (u64, Seq<char>, Seq<char>), rest: Seq<(u64, Seq<char>, Seq<char>)>)
    requires
        p.event_buffer == seq![e] + rest,
    ensures
        ({
            let q = machine::event_sent(p);
            &&& q.event_buffer == rest
            &&& q.listener.state is Busy
            &&& q.listener.buf == p.listener.buf
            &&& q.state == p.state && q.config == p.config && q.pid == p.pid
            &&& written is None ==> !machine::went_out(written, len)
            &&& written is Some ==> (machine::went_out(written, len) <==> written->0 == len)
            &&& machine::stdin_taken(None) is None
            &&& written is Some && written->0 < 0 ==> machine::stdin_taken(written) is None
            &&& written is Some && written->0 >= 0 ==> machine::stdin_taken(written) == Some(
                written->0 as int,
            )
        }),
{
    assert((seq![e] + rest).skip(1) =~= rest);
}

/// What is said about a launch that failed.
pub proof fn law_launch_failures(f: LaunchFailure)
    ensures
        match f {
            LaunchFailure::Pipe(e) => machine::failure_text(f) == "pipe failed: "@ + e@,
            LaunchFailure::Dup(e) => machine::failure_text(f) == "dup failed: "@ + e@,
            LaunchFailure::User(e) => machine::failure_text(f) == e@,
            LaunchFailure::Spawn(e) => machine::failure_text(f) == "spawn failed: "@ + e@,
        },
{
}

/// Clearing the logs of a process clears both, and each by its own path.
pub proof fn law_logs_are_cleared(l: LoggerModel, files: Map<Seq<char>, Seq<u8>>)
    ensures
        l.path is Some ==> logger::content(
            logger::after_all(files, machine::clearing_of(l)),
            l.path->0,
        ) == Some(Seq::<u8>::empty()),
        l.path is None ==> machine::clearing_of(l).len() == 0 && machine::cleared(l) == l,
{
    if l.path is Some {
        logger::law_clearing(files, l.path->0, l.backups as nat);
    }
}

} // verus!
