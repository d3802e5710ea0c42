//! The state machine.
use crate::config::settings::LogTarget;
use crate::config::settings::LogTargetModel;
use crate::config::settings::ProgramConfig;
use crate::config::settings::ProgramModel;
use crate::config::values;
use crate::config::values::AutoRestart;
use crate::events;
use crate::events::Subscriptions;
use crate::logger;
use crate::logger::ActionModel;
use crate::logger::FileAction;
use crate::logger::LoggerModel;
use crate::logger::RotatingLogger;
use crate::number;
use crate::process::command;
use crate::process::info;
use crate::process::info::InfoModel;
use crate::process::info::LocalTime;
use crate::process::info::ProcessInfo;
use crate::process::listener;
use crate::process::listener::Listener;
use crate::process::listener::ListenerModel;
use crate::process::listener::ListenerState;
use crate::states;
use crate::states::ProcessState;
use crate::text;
use crate::util;
use std::collections::VecDeque;
use vstd::prelude::*;

verus! {

/// Nanoseconds in a second.
pub const NANOS: u128 = 1000000000;

/// The last point in time: what the longest `std::time::Duration` has in nanoseconds.
pub const MAX_NOW: u128 = 18446744073709551615999999999;

// ---------------------------------------------------------------------------
// Types
// ---------------------------------------------------------------------------

/// A running (or stopped) instance of a configured program.
pub struct Process {
    pub config: ProgramConfig,
    pub state: ProcessState,
    /// OS process id, or 0 when not running.
    pub pid: i32,
    /// When a delayed action (retry after backoff, or SIGKILL escalation) is due.
    pub delay: Option<u128>,
    /// Number of consecutive failed start attempts.
    pub backoff: u32,
    /// When the current attempt was spawned.
    pub laststart: Option<u128>,
    /// Wall-clock spawn and exit times.
    pub laststart_epoch: Option<i64>,
    pub laststop_epoch: Option<i64>,
    /// Resolved stdout and stderr log paths (empty when disabled).
    pub stdout_path: String,
    pub stderr_path: String,
    /// Last observed exit code (negative for signal-terminated).
    pub exitstatus: Option<i32>,
    /// Human-readable reason the last start failed.
    pub spawnerr: Option<String>,
    /// Set when the user explicitly stopped the process; suppresses restart.
    pub administratively_stopped: bool,
    /// Set when a restart was requested: the process is stopped now and
    /// spawned again once it has fully exited.
    pub restart_pending: bool,
    pub stdout_logger: RotatingLogger,
    pub stderr_logger: RotatingLogger,
    /// Whether the most recent exit was an expected one.
    pub last_exit_expected: bool,
    /// `(event_name, payload)` pairs produced by state changes, to be routed
    /// to event listeners.
    pub pending_events: Vec<(String, String)>,
    /// The notification protocol, for event listeners.
    pub listener: Listener,
    /// Serial counter for outgoing events.
    pub pool_serial: u64,
    /// Event names this listener subscribes to (concrete or abstract).
    pub subscribed: Subscriptions,
    /// Buffered events awaiting delivery: `(serial, name, payload)`.
    pub event_buffer: VecDeque<(u64, String, String)>,
}

/// The mathematical content of a [`Process`].
#[verifier::ext_equal]
pub struct ProcessModel {
    pub config: ProgramModel,
    pub state: ProcessState,
    pub pid: i32,
    pub delay: Option<u128>,
    pub backoff: u32,
    pub laststart: Option<u128>,
    pub laststart_epoch: Option<i64>,
    pub laststop_epoch: Option<i64>,
    pub stdout_path: Seq<char>,
    pub stderr_path: Seq<char>,
    pub exitstatus: Option<i32>,
    pub spawnerr: Option<Seq<char>>,
    pub administratively_stopped: bool,
    pub restart_pending: bool,
    pub stdout_logger: LoggerModel,
    pub stderr_logger: LoggerModel,
    pub last_exit_expected: bool,
    pub pending_events: Seq<(Seq<char>, Seq<char>)>,
    pub listener: ListenerModel,
    pub pool_serial: u64,
    pub subscribed: Set<Seq<char>>,
    pub event_buffer: Seq<(u64, Seq<char>, Seq<char>)>,
}

/// The contents of a list of buffered events.
pub open spec fn buffered(v: Seq<(u64, String, String)>) -> Seq<(u64, Seq<char>, Seq<char>)> {
    v.map_values(|e: (u64, String, String)| (e.0, e.1@, e.2@))
}

impl View for Process {
    type V = ProcessModel;

    open spec fn view(&self) -> ProcessModel {
        ProcessModel {
            config: self.config@,
            state: self.state,
            pid: self.pid,
            delay: self.delay,
            backoff: self.backoff,
            laststart: self.laststart,
            laststart_epoch: self.laststart_epoch,
            laststop_epoch: self.laststop_epoch,
            stdout_path: self.stdout_path@,
            stderr_path: self.stderr_path@,
            exitstatus: self.exitstatus,
            spawnerr: text::opt_text(self.spawnerr),
            administratively_stopped: self.administratively_stopped,
            restart_pending: self.restart_pending,
            stdout_logger: self.stdout_logger@,
            stderr_logger: self.stderr_logger@,
            last_exit_expected: self.last_exit_expected,
            pending_events: text::text_pairs(self.pending_events@),
            listener: self.listener@,
            pool_serial: self.pool_serial,
            subscribed: self.subscribed@,
            event_buffer: buffered(self.event_buffer@),
        }
    }
}

/// Whether a process is in order: its listener has read no more of a result
/// than was announced.
pub open spec fn well_formed(p: ProcessModel) -> bool {
    listener::well_formed(p.listener)
}

/// What a process wants done.
#[derive(Debug, PartialEq)]
pub enum Action {
    /// Nothing.
    Idle,
    /// Launch a child with these arguments, the first of which is the program.
    Launch(Vec<String>),
    /// Send a signal to the process group of a child, or to the child alone
    /// if the group is gone.
    Signal { pid: i32, sig: i32 },
}

/// The mathematical content of an [`Action`].
pub enum Request {
    Idle,
    Launch(Seq<Seq<char>>),
    Signal { pid: i32, sig: i32 },
}

impl View for Action {
    type V = Request;

    open spec fn view(&self) -> Request {
        match self {
            Action::Idle => Request::Idle,
            Action::Launch(argv) => Request::Launch(text::texts(argv@)),
            Action::Signal { pid, sig } => Request::Signal { pid: *pid, sig: *sig },
        }
    }
}

/// Why a child could not be launched.
#[derive(Debug)]
pub enum LaunchFailure {
    /// A pipe could not be made.
    Pipe(String),
    /// A pipe could not be shared between stdout and stderr.
    Dup(String),
    /// The user to run as could not be found.
    User(String),
    /// The child could not be started.
    Spawn(String),
}

/// The message for a failed launch.
pub open spec fn failure_text(f: LaunchFailure) -> Seq<char> {
    match f {
        LaunchFailure::Pipe(e) => "pipe failed: "@ + e@,
        LaunchFailure::Dup(e) => "dup failed: "@ + e@,
        LaunchFailure::User(e) => e@,
        LaunchFailure::Spawn(e) => "spawn failed: "@ + e@,
    }
}

// ---------------------------------------------------------------------------
// The model
// ---------------------------------------------------------------------------

/// The point in time `secs` seconds after `now`.
pub open spec fn later(now: u128, secs: nat) -> u128 {
    (now + secs * NANOS) as u128
}

/// How long before `now` the time `t` was; zero if it lies ahead.
pub open spec fn elapsed(now: u128, t: u128) -> int {
    if now >= t {
        now - t
    } else {
        0
    }
}

/// The process in state `new`, with the event that reports the change. A
/// listener that is not running starts the protocol over.
pub open spec fn changed(p: ProcessModel, new: ProcessState) -> ProcessModel {
    ProcessModel {
        state: new,
        pending_events: p.pending_events.push(
            (
                events::state_event(new),
                events::state_payload(
                    p.config.name,
                    p.config.group,
                    p.state,
                    new,
                    p.pid as int,
                    p.backoff as nat,
                    p.last_exit_expected,
                ),
            ),
        ),
        listener: if p.config.is_listener && new !is Running {
            listener::fresh()
        } else {
            p.listener
        },
        ..p
    }
}

/// One more failed start, counted up to the largest number there is.
pub open spec fn one_more(backoff: u32) -> u32 {
    if backoff < u32::MAX {
        (backoff + 1) as u32
    } else {
        backoff
    }
}

/// The process after a failed (or too quick) start: it backs off for as many
/// seconds as there were failed starts in a row.
pub open spec fn backed_off(p: ProcessModel, now: u128) -> ProcessModel {
    let n = one_more(p.backoff);
    changed(
        ProcessModel { backoff: n, delay: Some(later(now, n as nat)), ..p },
        ProcessState::Backoff,
    )
}

/// The process after a start that failed for the reason `why`.
pub open spec fn start_failed(p: ProcessModel, why: Seq<char>, now: u128) -> ProcessModel {
    backed_off(ProcessModel { spawnerr: Some(why), ..p }, now)
}

/// Spawning: a launch of the command, unless there is none.
pub open spec fn spawning(p: ProcessModel, now: u128) -> (ProcessModel, Request) {
    let argv = command::arguments(p.config.command);
    if argv.len() == 0 {
        (start_failed(p, "bad command"@, now), Request::Idle)
    } else {
        (p, Request::Launch(argv))
    }
}

/// The process once its child runs.
pub open spec fn launched(p: ProcessModel, pid: i32, now: u128, epoch: i64) -> ProcessModel {
    changed(
        ProcessModel {
            pid,
            laststart: Some(now),
            laststart_epoch: Some(epoch),
            delay: Some(later(now, p.config.startsecs as nat)),
            spawnerr: None,
            ..p
        },
        ProcessState::Starting,
    )
}

/// Whether a start ended before `startsecs` had passed.
pub open spec fn too_quick(p: ProcessModel, now: u128) -> bool {
    match p.laststart {
        Some(t) => elapsed(now, t) < p.config.startsecs * NANOS,
        None => true,
    }
}

/// Whether an exit with this status was expected.
pub open spec fn expected_exit(p: ProcessModel, status: i32) -> bool {
    !info::exit_of(status).1 && p.config.exitcodes.contains(info::exit_of(status).0 as i32)
}

/// The process right after its child is gone, before the change of state.
pub open spec fn ended(p: ProcessModel, status: i32, epoch: i64) -> ProcessModel {
    ProcessModel {
        last_exit_expected: expected_exit(p, status),
        laststop_epoch: Some(epoch),
        exitstatus: Some(info::exit_of(status).0 as i32),
        ..p
    }
}

/// The process after its child was reaped.
pub open spec fn reaped(p: ProcessModel, status: i32, now: u128, epoch: i64) -> ProcessModel {
    let e = ended(p, status, epoch);
    let rested = ProcessModel { backoff: 0, delay: None, ..e };
    let r = match p.state {
        ProcessState::Starting => if too_quick(p, now) {
            start_failed(e, "Exited too quickly (process log may have details)"@, now)
        } else {
            changed(rested, ProcessState::Exited)
        },
        ProcessState::Running => changed(rested, ProcessState::Exited),
        ProcessState::Stopping => changed(rested, ProcessState::Stopped),
        _ => changed(e, ProcessState::Stopped),
    };
    ProcessModel { pid: 0, ..r }
}

/// Whether an exited process is to be started again.
pub open spec fn wants_restart(p: ProcessModel) -> bool {
    match p.config.autorestart {
        AutoRestart::Never => false,
        AutoRestart::Always => true,
        AutoRestart::Unexpected => match p.exitstatus {
            Some(es) => !(es >= 0 && p.config.exitcodes.contains(es)),
            None => true,
        },
    }
}

/// A signal to the child, if there is one.
pub open spec fn signalling(p: ProcessModel, sig: i32) -> Request {
    if p.pid > 0 {
        Request::Signal { pid: p.pid, sig }
    } else {
        Request::Idle
    }
}

/// `Exited too quickly; gave up after <n> retries`
pub open spec fn gave_up_text(retries: nat) -> Seq<char> {
    "Exited too quickly; gave up after "@ + number::nat_text(retries) + " retries"@
}

/// One step of the state machine.
pub open spec fn advanced(p: ProcessModel, now: u128, shutting_down: bool) -> (
    ProcessModel,
    Request,
) {
    match p.state {
        ProcessState::Starting => if p.laststart is Some && !too_quick(p, now) {
            (
                changed(
                    ProcessModel { spawnerr: None, backoff: 0, delay: None, ..p },
                    ProcessState::Running,
                ),
                Request::Idle,
            )
        } else {
            (p, Request::Idle)
        },
        ProcessState::Backoff => if p.backoff > p.config.startretries {
            (
                changed(
                    ProcessModel {
                        delay: None,
                        spawnerr: Some(gave_up_text(p.config.startretries as nat)),
                        ..p
                    },
                    ProcessState::Fatal,
                ),
                Request::Idle,
            )
        } else if !shutting_down && p.delay is Some && now >= p.delay->0 {
            spawning(p, now)
        } else {
            (p, Request::Idle)
        },
        ProcessState::Exited => if !shutting_down && !p.administratively_stopped && wants_restart(
            p,
        ) {
            spawning(p, now)
        } else {
            (p, Request::Idle)
        },
        ProcessState::Stopping => if p.delay is Some && now >= p.delay->0 && p.pid != 0 {
            (ProcessModel { delay: Some(later(now, 2)), ..p }, signalling(p, 9))
        } else {
            (p, Request::Idle)
        },
        ProcessState::Stopped => if p.restart_pending && !shutting_down {
            spawning(
                ProcessModel {
                    restart_pending: false,
                    administratively_stopped: false,
                    backoff: 0,
                    delay: None,
                    ..p
                },
                now,
            )
        } else {
            (p, Request::Idle)
        },
        _ => (p, Request::Idle),
    }
}

/// A stop request: the process after it, what to do, and whether a stop was initiated.
pub open spec fn stopped(p: ProcessModel, now: u128) -> (ProcessModel, Request, bool) {
    let q = ProcessModel { administratively_stopped: true, ..p };
    match p.state {
        ProcessState::Running | ProcessState::Starting => (
            changed(
                ProcessModel { delay: Some(later(now, p.config.stopwaitsecs as nat)), ..q },
                ProcessState::Stopping,
            ),
            signalling(p, p.config.stopsignal),
            true,
        ),
        ProcessState::Stopping => (q, Request::Idle, true),
        ProcessState::Backoff => (
            changed(ProcessModel { delay: None, ..q }, ProcessState::Stopped),
            Request::Idle,
            true,
        ),
        _ => (q, Request::Idle, false),
    }
}

/// A start request: the process after it, what to do, and whether a start was initiated.
pub open spec fn started(p: ProcessModel, now: u128) -> (ProcessModel, Request, bool) {
    match p.state {
        ProcessState::Running | ProcessState::Starting | ProcessState::Stopping => (
            p,
            Request::Idle,
            false,
        ),
        _ => {
            let (q, r) = spawning(
                ProcessModel { administratively_stopped: false, backoff: 0, delay: None, ..p },
                now,
            );
            (q, r, true)
        },
    }
}

/// A restart request: stop now if running and spawn again after the exit, else start.
pub open spec fn restarted(p: ProcessModel, now: u128) -> (ProcessModel, Request) {
    match p.state {
        ProcessState::Running | ProcessState::Starting | ProcessState::Stopping => {
            let (q, r, _) = stopped(ProcessModel { restart_pending: true, ..p }, now);
            (q, r)
        },
        _ => {
            let (q, r, _) = started(p, now);
            (q, r)
        },
    }
}

/// Whether a process can be sent a signal.
pub open spec fn signallable(p: ProcessModel) -> bool {
    p.state is Running || p.state is Starting || p.state is Stopping
}

/// Whether a listener can be sent an event.
pub open spec fn can_receive(p: ProcessModel) -> bool {
    p.config.is_listener && p.state is Running && p.listener.state is Ready
}

/// Whether all of `len` bytes were written.
pub open spec fn went_out(written: Option<i64>, len: int) -> bool {
    written is Some && written->0 == len
}

/// A listener to which its oldest event was written: it is busy with it.
pub open spec fn event_sent(p: ProcessModel) -> ProcessModel {
    ProcessModel {
        event_buffer: if p.event_buffer.len() > 0 {
            p.event_buffer.skip(1)
        } else {
            p.event_buffer
        },
        listener: ListenerModel { state: ListenerState::Busy, ..p.listener },
        ..p
    }
}

/// What a write to a process's stdin came to.
pub open spec fn stdin_taken(written: Option<i64>) -> Option<int> {
    match written {
        Some(n) => if n < 0 {
            None
        } else {
            Some(n as int)
        },
        None => None,
    }
}

/// The buffer with one more event. A full buffer loses its oldest event.
pub open spec fn with_event(
    buffer: Seq<(u64, Seq<char>, Seq<char>)>,
    size: nat,
    event: (u64, Seq<char>, Seq<char>),
) -> Seq<(u64, Seq<char>, Seq<char>)> {
    if buffer.len() >= size && buffer.len() > 0 {
        buffer.skip(1).push(event)
    } else {
        buffer.push(event)
    }
}

/// The path of the log that a target stands for; `None` when there is none.
pub open spec fn log_path(
    target: LogTargetModel,
    childlogdir: Seq<char>,
    name: Seq<char>,
    stream: Seq<char>,
) -> Option<Seq<char>> {
    match target {
        LogTargetModel::Discard => None,
        LogTargetModel::Auto => Some(
            util::path_from(childlogdir, name + "-"@ + stream + ".log"@),
        ),
        LogTargetModel::Path(p) => Some(p),
    }
}

/// A path as the control interface shows it: empty for none.
pub open spec fn shown_path(path: Option<Seq<char>>) -> Seq<char> {
    match path {
        Some(p) => p,
        None => Seq::empty(),
    }
}

/// The logger for a target.
pub open spec fn logger_for(path: Option<Seq<char>>, maxbytes: u64, backups: u32) -> LoggerModel {
    match path {
        Some(p) => LoggerModel { path: Some(p), maxbytes, backups, open: false, size: 0 },
        None => logger::null_logger(),
    }
}

/// A process that was never started.
pub open spec fn new_process(c: ProgramModel, childlogdir: Seq<char>) -> ProcessModel {
    let out = log_path(c.stdout_logfile, childlogdir, c.name, "stdout"@);
    let err = log_path(c.stderr_logfile, childlogdir, c.name, "stderr"@);
    ProcessModel {
        config: c,
        state: ProcessState::Stopped,
        pid: 0,
        delay: None,
        backoff: 0,
        laststart: None,
        laststart_epoch: None,
        laststop_epoch: None,
        stdout_path: shown_path(out),
        stderr_path: if c.redirect_stderr {
            Seq::empty()
        } else {
            shown_path(err)
        },
        exitstatus: None,
        spawnerr: None,
        administratively_stopped: false,
        restart_pending: false,
        stdout_logger: logger_for(out, c.stdout_logfile_maxbytes, c.stdout_logfile_backups),
        stderr_logger: logger_for(err, c.stderr_logfile_maxbytes, c.stderr_logfile_backups),
        last_exit_expected: true,
        pending_events: Seq::empty(),
        listener: listener::fresh(),
        pool_serial: 0,
        subscribed: c.events.to_set(),
        event_buffer: Seq::empty(),
    }
}

/// One of the two streams a child writes.
#[derive(Clone, Copy, PartialEq, Eq, Debug, Structural)]
pub enum Stream {
    Stdout,
    Stderr,
}

/// Whether what a child writes to a stream drives the notification protocol.
pub open spec fn to_protocol(p: ProcessModel, stream: Stream) -> bool {
    p.config.is_listener && stream is Stdout
}

/// The logger of a stream.
pub open spec fn stream_logger(p: ProcessModel, stream: Stream) -> LoggerModel {
    match stream {
        Stream::Stdout => p.stdout_logger,
        Stream::Stderr => p.stderr_logger,
    }
}

/// What has to be done before `len` bytes are appended to a log.
pub open spec fn room_for(l: LoggerModel, len: nat) -> Seq<ActionModel> {
    if logger::must_rotate(l, len) {
        logger::rotation(l.path->0, l.backups as nat)
    } else {
        Seq::empty()
    }
}

/// A logger once room has been made for `len` bytes.
pub open spec fn with_room(l: LoggerModel, len: nat) -> LoggerModel {
    if logger::must_rotate(l, len) {
        LoggerModel { open: false, size: 0, ..l }
    } else {
        l
    }
}

/// The process after its child wrote some bytes.
pub open spec fn received(p: ProcessModel, stream: Stream, data: Seq<u8>) -> ProcessModel {
    if to_protocol(p, stream) {
        ProcessModel {
            listener: listener::settled(listener::with_bytes(p.listener, data)),
            ..p
        }
    } else {
        match stream {
            Stream::Stdout => ProcessModel {
                stdout_logger: with_room(p.stdout_logger, data.len()),
                ..p
            },
            Stream::Stderr => ProcessModel {
                stderr_logger: with_room(p.stderr_logger, data.len()),
                ..p
            },
        }
    }
}

/// What has to be done to clear a log.
pub open spec fn clearing_of(l: LoggerModel) -> Seq<ActionModel> {
    match l.path {
        Some(p) => logger::clearing(p, l.backups as nat),
        None => Seq::empty(),
    }
}

/// A logger whose log is being cleared.
pub open spec fn cleared(l: LoggerModel) -> LoggerModel {
    match l.path {
        Some(p) => LoggerModel { open: false, size: 0, ..l },
        None => l,
    }
}

/// `pid <pid>, uptime <H:MM:SS>`
pub open spec fn running_text(pid: int, secs: nat) -> Seq<char> {
    "pid "@ + number::int_text(pid) + ", uptime "@ + info::duration_text(secs)
}

/// The one-line status of a process.
pub open spec fn status_text(p: ProcessModel, now: u128) -> Seq<char> {
    match p.state {
        ProcessState::Running => running_text(
            p.pid as int,
            match p.laststart {
                Some(t) => (elapsed(now, t) / NANOS as int) as nat,
                None => 0,
            },
        ),
        ProcessState::Stopped => "Not started"@,
        ProcessState::Starting => "starting"@,
        ProcessState::Stopping => "stopping"@,
        ProcessState::Backoff => "Backing off, retry "@ + number::nat_text(p.backoff as nat)
            + " of "@ + number::nat_text(p.config.startretries as nat + 1),
        ProcessState::Exited => match p.exitstatus {
            Some(es) => if es >= 0 {
                "exited, status "@ + number::nat_text(es as nat)
            } else {
                "terminated by signal "@ + number::nat_text((-es) as nat)
            },
            None => "exited"@,
        },
        ProcessState::Fatal => match p.spawnerr {
            Some(e) => e,
            None => "Exited too many times"@,
        },
        ProcessState::Unknown => Seq::empty(),
    }
}

/// The description in a snapshot.
pub open spec fn description_text(
    p: ProcessModel,
    start: int,
    now: int,
    stop_time: LocalTime,
) -> Seq<char> {
    match p.state {
        ProcessState::Running => running_text(
            p.pid as int,
            if now > start {
                (now - start) as nat
            } else {
                0
            },
        ),
        ProcessState::Fatal | ProcessState::Backoff => if p.spawnerr is Some
            && p.spawnerr->0.len() > 0 {
            p.spawnerr->0
        } else {
            "unknown error (try \"tail "@ + p.config.name + "\")"@
        },
        ProcessState::Stopped | ProcessState::Exited => if start > 0 {
            info::stop_time_text(stop_time)
        } else {
            "Not started"@
        },
        _ => Seq::empty(),
    }
}

/// A wall-clock time, zero when there is none.
pub open spec fn epoch_of(t: Option<i64>) -> i64 {
    match t {
        Some(n) => n,
        None => 0,
    }
}

/// The snapshot of a process.
pub open spec fn snapshot(p: ProcessModel, now: i64, stop_time: LocalTime) -> InfoModel {
    let start = epoch_of(p.laststart_epoch);
    InfoModel {
        name: p.config.name,
        group: p.config.group,
        state: states::state_code(p.state),
        statename: states::state_name(p.state),
        pid: p.pid,
        start,
        stop: epoch_of(p.laststop_epoch),
        now,
        exitstatus: match p.exitstatus {
            Some(es) => es,
            None => 0,
        },
        spawnerr: match p.spawnerr {
            Some(e) => e,
            None => Seq::empty(),
        },
        stdout_logfile: p.stdout_path,
        stderr_logfile: p.stderr_path,
        description: description_text(p, start as int, now as int, stop_time),
    }
}

// ---------------------------------------------------------------------------
// The process
// ---------------------------------------------------------------------------

/// The point in time `secs` seconds after `now`.
fn add_secs(now: u128, secs: u64) -> (r: u128)
    requires
        now <= MAX_NOW,
    ensures
        r == later(now, secs as nat),
        r == now + secs * NANOS,
{
    now + (secs as u128) * NANOS
}

/// Whether a list of exit codes holds `code`.
fn holds_code(codes: &Vec<i32>, code: i32) -> (r: bool)
    ensures
        r == codes@.contains(code),
{
    let mut i: usize = 0;
    while i < codes.len()
        invariant
            i <= codes@.len(),
            forall|k: int| 0 <= k < i ==> codes@[k] != code,
        decreases codes@.len() - i,
    {
        if codes[i] == code {
            proof {
                assert(codes@[i as int] == code);
            }
            return true;
        }
        i = i + 1;
    }
    false
}

/// The path of the log that a target stands for.
fn resolve_log(target: &LogTarget, childlogdir: &str, name: &str, stream: &str) -> (r: Option<
    String,
>)
    ensures
        text::opt_text(r) == log_path(target@, childlogdir@, name@, stream@),
{
    match target {
        LogTarget::Discard => None,
        LogTarget::Auto => {
            let mut file = name.to_string();
            file.append("-");
            file.append(stream);
            file.append(".log");
            Some(util::join_path(childlogdir, file.as_str()))
        },
        LogTarget::Path(p) => Some(p.clone()),
    }
}

/// The path a stream's log resolves to (empty when disabled).
pub fn resolved_log_path(target: &LogTarget, childlogdir: &str, name: &str, stream: &str) -> (r:
    String)
    ensures
        r@ == shown_path(log_path(target@, childlogdir@, name@, stream@)),
{
    match resolve_log(target, childlogdir, name, stream) {
        Some(p) => p,
        None => {
            let r = String::new();
            proof {
                assert(r@ =~= Seq::<char>::empty());
            }
            r
        },
    }
}

/// The logger for a stream; its file is yet to be opened.
pub fn make_logger(
    target: &LogTarget,
    childlogdir: &str,
    name: &str,
    stream: &str,
    maxbytes: u64,
    backups: u32,
) -> (r: RotatingLogger)
    ensures
        r@ == logger_for(log_path(target@, childlogdir@, name@, stream@), maxbytes, backups),
{
    match resolve_log(target, childlogdir, name, stream) {
        Some(p) => RotatingLogger::new(Some(p), maxbytes, backups),
        None => RotatingLogger::null(),
    }
}

impl LaunchFailure {
    /// The message for the failure.
    pub fn message(&self) -> (r: String)
        ensures
            r@ == failure_text(*self),
    {
        match self {
            LaunchFailure::Pipe(e) => {
                let mut r = "pipe failed: ".to_string();
                r.append(e.as_str());
                r
            },
            LaunchFailure::Dup(e) => {
                let mut r = "dup failed: ".to_string();
                r.append(e.as_str());
                r
            },
            LaunchFailure::User(e) => e.clone(),
            LaunchFailure::Spawn(e) => {
                let mut r = "spawn failed: ".to_string();
                r.append(e.as_str());
                r
            },
        }
    }
}

impl Process {
    /// Builds a process from its configuration, resolving `AUTO` log paths
    /// against `childlogdir`.
    pub fn new(config: ProgramConfig, childlogdir: &str) -> (r: Self)
        ensures
            r@ == new_process(config@, childlogdir@),
            well_formed(r@),
    {
        let stdout_logger = make_logger(
            &config.stdout_logfile,
            childlogdir,
            config.name.as_str(),
            "stdout",
            config.stdout_logfile_maxbytes,
            config.stdout_logfile_backups,
        );
        let stderr_logger = make_logger(
            &config.stderr_logfile,
            childlogdir,
            config.name.as_str(),
            "stderr",
            config.stderr_logfile_maxbytes,
            config.stderr_logfile_backups,
        );
        let stdout_path = resolved_log_path(
            &config.stdout_logfile,
            childlogdir,
            config.name.as_str(),
            "stdout",
        );
        let stderr_path = if config.redirect_stderr {
            let none = String::new();
            proof {
                assert(none@ =~= Seq::<char>::empty());
            }
            none
        } else {
            resolved_log_path(&config.stderr_logfile, childlogdir, config.name.as_str(), "stderr")
        };
        let subscribed = Subscriptions::of(&config.events);
        let r = Process {
            config,
            state: ProcessState::Stopped,
            pid: 0,
            delay: None,
            backoff: 0,
            laststart: None,
            laststart_epoch: None,
            laststop_epoch: None,
            stdout_path,
            stderr_path,
            exitstatus: None,
            spawnerr: None,
            administratively_stopped: false,
            restart_pending: false,
            stdout_logger,
            stderr_logger,
            last_exit_expected: true,
            pending_events: Vec::new(),
            listener: Listener::new(),
            pool_serial: 0,
            subscribed,
            event_buffer: VecDeque::new(),
        };
        proof {
            assert(r@ =~= new_process(config@, childlogdir@));
        }
        r
    }

    /// Whether this process is an event listener.
    pub fn is_listener(&self) -> (r: bool)
        ensures
            r == self@.config.is_listener,
    {
        self.config.is_listener
    }

    /// The pool (group) name used in event envelopes.
    pub fn pool_name(&self) -> (r: &str)
        ensures
            r@ == self@.config.group,
    {
        self.config.group.as_str()
    }

    /// The name of the process.
    pub fn name(&self) -> (r: &str)
        ensures
            r@ == self@.config.name,
    {
        self.config.name.as_str()
    }

    /// Whether this listener is currently eligible to be sent an event.
    pub fn listener_ready(&self) -> (r: bool)
        ensures
            r == can_receive(self@),
    {
        self.config.is_listener && self.state == ProcessState::Running && self.listener.state
            == ListenerState::Ready
    }

    /// Whether this listener subscribes to `event_name`.
    pub fn subscribed_to(&self, event_name: &str) -> (r: bool)
        ensures
            r == events::wants(self@.subscribed, event_name@),
    {
        events::subscription_matches(&self.subscribed, event_name)
    }

    /// Buffers an event for later delivery, discarding the oldest if the
    /// buffer is full.
    pub fn buffer_event(&mut self, serial: u64, name: &str, payload: &str)
        ensures
            final(self)@ == (ProcessModel {
                event_buffer: with_event(
                    old(self)@.event_buffer,
                    old(self)@.config.buffer_size as nat,
                    (serial, name@, payload@),
                ),
                ..old(self)@
            }),
    {
        let ghost before = self.event_buffer@;
        if self.event_buffer.len() >= self.config.buffer_size {
            let _ = self.event_buffer.pop_front();
        }
        let ghost mid = self.event_buffer@;
        self.event_buffer.push_back((serial, name.to_string(), payload.to_string()));
        proof {
            assert(buffered(self.event_buffer@) =~= with_event(
                buffered(before),
                self.config.buffer_size as nat,
                (serial, name@, payload@),
            ));
        }
    }

    /// The oldest buffered event, if any.
    pub fn peek_event(&self) -> (r: Option<(u64, String, String)>)
        ensures
            match r {
                Some(e) => self@.event_buffer.len() > 0 && self@.event_buffer[0] == (
                    e.0,
                    e.1@,
                    e.2@,
                ),
                None => self@.event_buffer.len() == 0,
            },
    {
        if self.event_buffer.len() == 0 {
            None
        } else {
            let e = &self.event_buffer[0];
            Some((e.0, e.1.clone(), e.2.clone()))
        }
    }

    /// Takes note of an event envelope of `len` bytes having been written to
    /// the listener's stdin: `written` is the number of bytes that went out
    /// (negative on an error), `None` when there is no pipe. If all did, the
    /// event is consumed and the listener is busy. Returns whether it was.
    pub fn send_event(&mut self, written: Option<i64>, len: usize) -> (r: bool)
        ensures
            r == went_out(written, len as int),
            !r ==> final(self)@ == old(self)@,
            r ==> final(self)@ == event_sent(old(self)@),
            well_formed(old(self)@) ==> well_formed(final(self)@),
    {
        match written {
            Some(n) => {
                if n >= 0 && n as u64 == len as u64 {
                    let ghost before = self.event_buffer@;
                    let _ = self.event_buffer.pop_front();
                    self.listener.state = ListenerState::Busy;
                    proof {
                        if before.len() > 0 {
                            assert(buffered(self.event_buffer@) =~= buffered(before).skip(1));
                        } else {
                            assert(buffered(self.event_buffer@) =~= buffered(before));
                        }
                    }
                    true
                } else {
                    false
                }
            },
            None => false,
        }
    }

    /// Counts an event that went out.
    pub fn count_event(&mut self)
        ensures
            final(self)@ == (ProcessModel {
                pool_serial: events::next_serial(old(self)@.pool_serial),
                ..old(self)@
            }),
    {
        self.pool_serial = events::following(self.pool_serial);
    }

    /// What a write to the process's stdin came to: the number of bytes
    /// written, or `None` if there is no stdin (`written` is `None`) or the
    /// write failed (it is negative).
    pub fn write_stdin(&self, written: Option<i64>) -> (r: Option<usize>)
        requires
            written is Some ==> written->0 <= usize::MAX,
        ensures
            match (r, stdin_taken(written)) {
                (Some(n), Some(m)) => n == m,
                (None, None) => true,
                _ => false,
            },
    {
        match written {
            Some(n) => if n < 0 {
                None
            } else {
                Some(n as usize)
            },
            None => None,
        }
    }

    /// A signal to the child, if there is one.
    fn send_signal(&self, sig: i32) -> (r: Action)
        ensures
            r@ == signalling(self@, sig),
    {
        if self.pid <= 0 {
            Action::Idle
        } else {
            Action::Signal { pid: self.pid, sig }
        }
    }

    /// Sends a signal to the running process (its process group). Returns
    /// whether the process is in a signallable state, and what to do.
    pub fn signal(&self, sig: i32) -> (r: (bool, Action))
        ensures
            r.0 == signallable(self@),
            r.1@ == (if signallable(self@) {
                signalling(self@, sig)
            } else {
                Request::Idle
            }),
    {
        match self.state {
            ProcessState::Running | ProcessState::Starting | ProcessState::Stopping => (
                true,
                self.send_signal(sig),
            ),
            _ => (false, Action::Idle),
        }
    }

    /// Enters a state and records the event.
    fn change_state(&mut self, new: ProcessState)
        ensures
            final(self)@ == changed(old(self)@, new),
            well_formed(old(self)@) ==> well_formed(final(self)@),
    {
        let from = self.state;
        self.state = new;
        let name = events::process_state_event_name(new);
        let payload = events::process_state_payload(
            self.config.name.as_str(),
            self.config.group.as_str(),
            from,
            new,
            self.pid,
            self.backoff,
            self.last_exit_expected,
        );
        let ghost before = self.pending_events@;
        self.pending_events.push((name.to_string(), payload));
        proof {
            assert(text::text_pairs(self.pending_events@) =~= changed(
                old(self)@,
                new,
            ).pending_events);
        }
        if self.config.is_listener && new != ProcessState::Running {
            self.listener.reset();
        }
        proof {
            assert(self@ =~= changed(old(self)@, new));
        }
    }

    /// Enters BACKOFF (a failed or too quick start): bumps the counter and
    /// sets the retry delay to that many seconds.
    fn fail_to_backoff(&mut self, now: u128)
        requires
            now <= MAX_NOW,
        ensures
            final(self)@ == backed_off(old(self)@, now),
            well_formed(old(self)@) ==> well_formed(final(self)@),
    {
        if self.backoff < u32::MAX {
            self.backoff = self.backoff + 1;
        }
        self.delay = Some(add_secs(now, self.backoff as u64));
        self.change_state(ProcessState::Backoff);
    }

    /// Begins to spawn the child: a launch of the command, unless there is
    /// none to launch, which is a failed start.
    pub fn spawn(&mut self, now: u128) -> (r: Action)
        requires
            now <= MAX_NOW,
        ensures
            (final(self)@, r@) == spawning(old(self)@, now),
            well_formed(old(self)@) ==> well_formed(final(self)@),
    {
        match command::shell_split(self.config.command.as_str()) {
            Ok(argv) => {
                if argv.len() > 0 {
                    proof {
                        assert(command::arguments(self.config.command@).len() == argv@.len());
                    }
                    return Action::Launch(argv);
                }
            },
            Err(_) => {},
        }
        self.spawnerr = Some("bad command".to_string());
        self.fail_to_backoff(now);
        Action::Idle
    }

    /// Takes note of the child having been launched: enters the `STARTING` state.
    pub fn launched(&mut self, pid: i32, now: u128, epoch: i64)
        requires
            now <= MAX_NOW,
        ensures
            final(self)@ == launched(old(self)@, pid, now, epoch),
            well_formed(old(self)@) ==> well_formed(final(self)@),
    {
        self.pid = pid;
        self.laststart = Some(now);
        self.laststart_epoch = Some(epoch);
        self.delay = Some(add_secs(now, self.config.startsecs));
        self.spawnerr = None;
        self.change_state(ProcessState::Starting);
    }

    /// Takes note of the child not having been launched.
    pub fn launch_failed(&mut self, why: &LaunchFailure, now: u128)
        requires
            now <= MAX_NOW,
        ensures
            final(self)@ == start_failed(old(self)@, failure_text(*why), now),
            well_formed(old(self)@) ==> well_formed(final(self)@),
    {
        self.spawnerr = Some(why.message());
        self.fail_to_backoff(now);
    }

    /// Whether a start ended before `startsecs` had passed.
    fn too_quick(&self, now: u128) -> (r: bool)
        ensures
            r == too_quick(self@, now),
    {
        match self.laststart {
            Some(t) => {
                let up: u128 = if now >= t {
                    now - t
                } else {
                    0
                };
                up < (self.config.startsecs as u128) * NANOS
            },
            None => true,
        }
    }

    /// Called when this process has been reaped. `raw_status` is the raw wait
    /// status; the final output has been drained.
    pub fn on_reap(&mut self, raw_status: i32, now: u128, epoch: i64)
        requires
            now <= MAX_NOW,
        ensures
            final(self)@ == reaped(old(self)@, raw_status, now, epoch),
            well_formed(old(self)@) ==> well_formed(final(self)@),
    {
        let (es, signaled) = info::decode_status(raw_status);
        let expected = !signaled && holds_code(&self.config.exitcodes, es);
        let quick = self.too_quick(now);
        self.last_exit_expected = expected;
        self.laststop_epoch = Some(epoch);
        self.exitstatus = Some(es);
        proof {
            assert(self@ =~= ended(old(self)@, raw_status, epoch));
        }
        match self.state {
            ProcessState::Starting => {
                if quick {
                    self.spawnerr = Some(
                        "Exited too quickly (process log may have details)".to_string(),
                    );
                    self.fail_to_backoff(now);
                } else {
                    self.backoff = 0;
                    self.delay = None;
                    self.change_state(ProcessState::Exited);
                }
            },
            ProcessState::Running => {
                self.backoff = 0;
                self.delay = None;
                self.change_state(ProcessState::Exited);
            },
            ProcessState::Stopping => {
                self.backoff = 0;
                self.delay = None;
                self.change_state(ProcessState::Stopped);
            },
            _ => {
                self.change_state(ProcessState::Stopped);
            },
        }
        // The event payload above holds the pid; clear it now.
        self.pid = 0;
    }

    /// Whether an exited process is to be started again.
    fn should_restart(&self) -> (r: bool)
        ensures
            r == wants_restart(self@),
    {
        match self.config.autorestart {
            AutoRestart::Never => false,
            AutoRestart::Always => true,
            AutoRestart::Unexpected => match self.exitstatus {
                Some(es) => !(es >= 0 && holds_code(&self.config.exitcodes, es)),
                None => true,
            },
        }
    }

    /// Advances the state machine. Called every tick.
    pub fn transition(&mut self, now: u128, shutting_down: bool) -> (r: Action)
        requires
            now <= MAX_NOW,
        ensures
            (final(self)@, r@) == advanced(old(self)@, now, shutting_down),
            well_formed(old(self)@) ==> well_formed(final(self)@),
    {
        match self.state {
            ProcessState::Starting => {
                if self.laststart.is_some() && !self.too_quick(now) {
                    self.spawnerr = None;
                    self.backoff = 0;
                    self.delay = None;
                    self.change_state(ProcessState::Running);
                }
                Action::Idle
            },
            ProcessState::Backoff => {
                if self.backoff > self.config.startretries {
                    self.delay = None;
                    let mut why = "Exited too quickly; gave up after ".to_string();
                    why.append(number::nat_string(self.config.startretries as u64).as_str());
                    why.append(" retries");
                    self.spawnerr = Some(why);
                    self.change_state(ProcessState::Fatal);
                    return Action::Idle;
                }
                if !shutting_down {
                    if let Some(d) = self.delay {
                        if now >= d {
                            return self.spawn(now);
                        }
                    }
                }
                Action::Idle
            },
            ProcessState::Exited => {
                if !shutting_down && !self.administratively_stopped && self.should_restart() {
                    return self.spawn(now);
                }
                Action::Idle
            },
            ProcessState::Stopping => {
                if let Some(d) = self.delay {
                    if now >= d && self.pid != 0 {
                        // stopwaitsecs elapsed; escalate to SIGKILL.
                        let kill = values::platform_signals().kill;
                        let r = self.send_signal(kill);
                        self.delay = Some(add_secs(now, 2));
                        return r;
                    }
                }
                Action::Idle
            },
            ProcessState::Stopped => {
                // A restart was requested while the process was running; the
                // stop has now completed, so bring it back up.
                if self.restart_pending && !shutting_down {
                    self.restart_pending = false;
                    self.administratively_stopped = false;
                    self.backoff = 0;
                    self.delay = None;
                    return self.spawn(now);
                }
                Action::Idle
            },
            _ => Action::Idle,
        }
    }

    /// Begins a graceful stop. Returns whether a stop was initiated, and what to do.
    pub fn stop(&mut self, now: u128) -> (r: (bool, Action))
        requires
            now <= MAX_NOW,
        ensures
            (final(self)@, r.1@, r.0) == stopped(old(self)@, now),
            well_formed(old(self)@) ==> well_formed(final(self)@),
    {
        self.administratively_stopped = true;
        match self.state {
            ProcessState::Running | ProcessState::Starting => {
                let r = self.send_signal(self.config.stopsignal);
                self.delay = Some(add_secs(now, self.config.stopwaitsecs));
                self.change_state(ProcessState::Stopping);
                (true, r)
            },
            ProcessState::Stopping => (true, Action::Idle),
            ProcessState::Backoff => {
                self.delay = None;
                self.change_state(ProcessState::Stopped);
                (true, Action::Idle)
            },
            _ => (false, Action::Idle),
        }
    }

    /// Handles a user start request. Returns whether a start was initiated,
    /// and what to do.
    pub fn start(&mut self, now: u128) -> (r: (bool, Action))
        requires
            now <= MAX_NOW,
        ensures
            (final(self)@, r.1@, r.0) == started(old(self)@, now),
            well_formed(old(self)@) ==> well_formed(final(self)@),
    {
        match self.state {
            ProcessState::Running | ProcessState::Starting | ProcessState::Stopping => (
                false,
                Action::Idle,
            ),
            _ => {
                self.administratively_stopped = false;
                self.backoff = 0;
                self.delay = None;
                let r = self.spawn(now);
                (true, r)
            },
        }
    }

    /// Requests a restart: stop now if running, then spawn again once the
    /// process has exited. If already stopped, start immediately.
    pub fn request_restart(&mut self, now: u128) -> (r: Action)
        requires
            now <= MAX_NOW,
        ensures
            (final(self)@, r@) == restarted(old(self)@, now),
            well_formed(old(self)@) ==> well_formed(final(self)@),
    {
        match self.state {
            ProcessState::Running | ProcessState::Starting | ProcessState::Stopping => {
                self.restart_pending = true;
                let (_, r) = self.stop(now);
                r
            },
            _ => {
                let (_, r) = self.start(now);
                r
            },
        }
    }

    /// Takes bytes that the child wrote. A listener's stdout drives the
    /// notification protocol (`None`); everything else goes to the stream's
    /// log, once the returned actions have made room for it.
    pub fn drain_output(&mut self, stream: Stream, data: &[u8]) -> (r: Option<Vec<FileAction>>)
        requires
            well_formed(old(self)@),
        ensures
            well_formed(final(self)@),
            final(self)@ == received(old(self)@, stream, data@),
            match r {
                None => to_protocol(old(self)@, stream),
                Some(actions) => !to_protocol(old(self)@, stream) && logger::action_list(actions@)
                    == room_for(stream_logger(old(self)@, stream), data@.len()),
            },
    {
        match stream {
            Stream::Stdout => {
                if self.config.is_listener {
                    self.listener.feed(data);
                    None
                } else {
                    let actions = self.stdout_logger.write(data.len());
                    proof {
                        assert(logger::action_list(actions@) =~= room_for(
                            old(self)@.stdout_logger,
                            data@.len(),
                        ));
                    }
                    Some(actions)
                }
            },
            Stream::Stderr => {
                let actions = self.stderr_logger.write(data.len());
                proof {
                    assert(logger::action_list(actions@) =~= room_for(
                        old(self)@.stderr_logger,
                        data@.len(),
                    ));
                }
                Some(actions)
            },
        }
    }

    /// What has to be done to truncate this process's stdout and stderr logs
    /// (and their rotations).
    pub fn clear_logs(&mut self) -> (r: (Vec<FileAction>, Vec<FileAction>))
        ensures
            final(self)@ == (ProcessModel {
                stdout_logger: cleared(old(self)@.stdout_logger),
                stderr_logger: cleared(old(self)@.stderr_logger),
                ..old(self)@
            }),
            logger::action_list(r.0@) == clearing_of(old(self)@.stdout_logger),
            logger::action_list(r.1@) == clearing_of(old(self)@.stderr_logger),
    {
        let out = self.stdout_logger.clear();
        let err = self.stderr_logger.clear();
        proof {
            assert(logger::action_list(out@) =~= clearing_of(old(self)@.stdout_logger));
            assert(logger::action_list(err@) =~= clearing_of(old(self)@.stderr_logger));
        }
        (out, err)
    }

    /// Hands out the events that state changes have produced.
    pub fn take_events(&mut self) -> (r: Vec<(String, String)>)
        ensures
            text::text_pairs(r@) == old(self)@.pending_events,
            final(self)@ == (ProcessModel { pending_events: Seq::empty(), ..old(self)@ }),
    {
        let mut none: Vec<(String, String)> = Vec::new();
        proof {
            assert(text::text_pairs(none@) =~= Seq::<(Seq<char>, Seq<char>)>::empty());
        }
        std::mem::swap(&mut self.pending_events, &mut none);
        none
    }

    /// One-line status description, as `supervisorctl status` shows it.
    pub fn status_description(&self, now: u128) -> (r: String)
        requires
            now <= MAX_NOW,
        ensures
            r@ == status_text(self@, now),
    {
        match self.state {
            ProcessState::Running => {
                let up: u128 = match self.laststart {
                    Some(t) => if now >= t {
                        now - t
                    } else {
                        0
                    },
                    None => 0,
                };
                running_description(self.pid, (up / NANOS) as u64)
            },
            ProcessState::Stopped => "Not started".to_string(),
            ProcessState::Starting => "starting".to_string(),
            ProcessState::Stopping => "stopping".to_string(),
            ProcessState::Backoff => {
                let mut r = "Backing off, retry ".to_string();
                r.append(number::nat_string(self.backoff as u64).as_str());
                r.append(" of ");
                r.append(number::nat_string(self.config.startretries as u64 + 1).as_str());
                r
            },
            ProcessState::Exited => match self.exitstatus {
                Some(es) => if es >= 0 {
                    let mut r = "exited, status ".to_string();
                    r.append(number::nat_string(es as u64).as_str());
                    r
                } else {
                    let mut r = "terminated by signal ".to_string();
                    r.append(number::nat_string((-(es as i64)) as u64).as_str());
                    r
                },
                None => "exited".to_string(),
            },
            ProcessState::Fatal => match &self.spawnerr {
                Some(e) => e.clone(),
                None => "Exited too many times".to_string(),
            },
            ProcessState::Unknown => {
                let r = String::new();
                proof {
                    assert(r@ =~= Seq::<char>::empty());
                }
                r
            },
        }
    }

    /// The description in a snapshot; `stop_time` is the local time of the
    /// last stop.
    fn interpret_description(&self, start: i64, now: i64, stop_time: &LocalTime) -> (r: String)
        ensures
            r@ == description_text(self@, start as int, now as int, *stop_time),
    {
        match self.state {
            ProcessState::Running => {
                let up: i128 = now as i128 - start as i128;
                running_description(
                    self.pid,
                    if up > 0 {
                        up as u64
                    } else {
                        0
                    },
                )
            },
            ProcessState::Fatal | ProcessState::Backoff => {
                if let Some(e) = &self.spawnerr {
                    if text::chars_of(e.as_str()).len() > 0 {
                        return e.clone();
                    }
                }
                let mut r = "unknown error (try \"tail ".to_string();
                r.append(self.config.name.as_str());
                r.append("\")");
                r
            },
            ProcessState::Stopped | ProcessState::Exited => {
                if start > 0 {
                    info::fmt_stop_time(stop_time)
                } else {
                    "Not started".to_string()
                }
            },
            _ => {
                let r = String::new();
                proof {
                    assert(r@ =~= Seq::<char>::empty());
                }
                r
            },
        }
    }

    /// Produces a snapshot of this process for the control interface;
    /// `stop_time` is the local time of the last stop.
    pub fn info(&self, now_epoch: i64, stop_time: &LocalTime) -> (r: ProcessInfo)
        ensures
            r@ == snapshot(self@, now_epoch, *stop_time),
    {
        let start: i64 = match self.laststart_epoch {
            Some(t) => t,
            None => 0,
        };
        let stop: i64 = match self.laststop_epoch {
            Some(t) => t,
            None => 0,
        };
        let description = self.interpret_description(start, now_epoch, stop_time);
        let spawnerr = match &self.spawnerr {
            Some(e) => e.clone(),
            None => {
                let none = String::new();
                proof {
                    assert(none@ =~= Seq::<char>::empty());
                }
                none
            },
        };
        ProcessInfo {
            name: self.config.name.clone(),
            group: self.config.group.clone(),
            state: self.state.code(),
            statename: self.state.description().to_string(),
            pid: self.pid,
            start,
            stop,
            now: now_epoch,
            exitstatus: match self.exitstatus {
                Some(es) => es,
                None => 0,
            },
            spawnerr,
            stdout_logfile: self.stdout_path.clone(),
            stderr_logfile: self.stderr_path.clone(),
            description,
        }
    }
}

/// `pid <pid>, uptime <H:MM:SS>`
fn running_description(pid: i32, secs: u64) -> (r: String)
    ensures
        r@ == running_text(pid as int, secs as nat),
{
    let mut r = "pid ".to_string();
    r.append(number::int_string(pid as i64).as_str());
    r.append(", uptime ");
    r.append(info::fmt_duration(secs).as_str());
    r
}

/// The user that a program runs as.
pub open spec fn user_of(name: Seq<char>, found: Option<(u32, u32)>) -> Result<
    (u32, u32),
    Seq<char>,
> {
    match number::unsigned_upto(name, 10, u32::MAX as nat) {
        Some(n) => Ok((n as u32, n as u32)),
        None => if name.contains('\0') {
            Err("invalid user name"@)
        } else {
            match found {
                Some(ids) => Ok(ids),
                None => Err("unknown user: "@ + name),
            }
        },
    }
}

/// Resolves the user and group ids of a user given by number or by name;
/// `found` is what the user database says of the name.
pub fn resolve_user(name: &str, found: Option<(u32, u32)>) -> (r: Result<(u32, u32), String>)
    ensures
        match user_of(name@, found) {
            Ok(ids) => r matches Ok(v) && v == ids,
            Err(e) => r matches Err(m) && m@ == e,
        },
{
    let c = text::chars_of(name);
    if let Some(n) = number::parse_unsigned(c.as_slice(), 10, u32::MAX as u64) {
        return Ok((n as u32, n as u32));
    }
    let nul = text::find_char(c.as_slice(), '\0');
    if nul < c.len() {
        proof {
            assert(c@[nul as int] == '\0');
        }
        return Err("invalid user name".to_string());
    }
    match found {
        Some(ids) => Ok(ids),
        None => {
            let mut e = "unknown user: ".to_string();
            e.append(name);
            Err(e)
        },
    }
}

} // verus!
