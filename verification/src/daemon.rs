//! The supervisor: every configured process, the index of live children, and
//! the operations that the control interface offers. Groups of processes come
//! and go as the configuration changes.
//!
//! A [`Supervisor`] decides; whoever owns the operating system's side of
//! things performs the [`Action`]s it asks for and reports back which
//! children were launched and which have exited.
pub mod batch;
pub mod groups;
pub mod laws;
pub mod notify;
pub mod serve;

use crate::config::assemble::Config;
use crate::config::assemble::ConfigModel;
use crate::config::settings;
use crate::config::settings::ProgramConfig;
use crate::config::settings::ProgramModel;
use crate::logger;
use crate::logger::FileAction;
use crate::logger::LoggerModel;
use crate::logger::RotatingLogger;
use crate::number;
use crate::process::info;
use crate::process::info::InfoModel;
use crate::process::info::LocalTime;
use crate::process::info::ProcessInfo;
use crate::process::machine;
use crate::process::machine::Action;
use crate::process::machine::LaunchFailure;
use crate::process::machine::Process;
use crate::process::machine::ProcessModel;
use crate::process::machine::Request;
use crate::process::machine::Stream;
use crate::rpc::faults;
use crate::states;
use crate::states::SupervisorState;
use crate::text;
use crate::util;
use std::collections::HashMap;
use vstd::prelude::*;
use vstd::slice::slice_subrange;
use vstd::utf8;

verus! {

broadcast use vstd::std_specs::hash::group_hash_axioms;

// ---------------------------------------------------------------------------
// Types
// ---------------------------------------------------------------------------

/// The running supervisor: owns every process.
pub struct Supervisor {
    pub config: Config,
    pub processes: Vec<Process>,
    /// Map of live child pid -> index into `processes`.
    pub pid_index: HashMap<i32, usize>,
    /// The main log.
    pub log: RotatingLogger,
    /// A clean shutdown was asked for.
    pub shutdown_requested: bool,
    /// A shutdown followed by a new start was asked for.
    pub restart_requested: bool,
    /// Every process has been told to stop.
    pub shutting_down: bool,
    /// The serial number of the next event.
    pub event_serial: u64,
    /// `(event_name, payload)` pairs about the supervisor itself, to be routed
    /// to event listeners.
    pub pending_events: Vec<(String, String)>,
    /// When ticks were last looked for, in seconds since the epoch.
    pub last_tick: Option<u64>,
    /// The programs of the configuration that was read last.
    pub available: Vec<ProgramConfig>,
}

/// The mathematical content of a [`Supervisor`].
#[verifier::ext_equal]
pub struct SupervisorModel {
    pub config: ConfigModel,
    pub processes: Seq<ProcessModel>,
    pub log: LoggerModel,
    pub shutdown_requested: bool,
    pub restart_requested: bool,
    pub shutting_down: bool,
    pub event_serial: u64,
    pub pending_events: Seq<(Seq<char>, Seq<char>)>,
    pub last_tick: Option<u64>,
    pub available: Seq<ProgramModel>,
}

/// The contents of a list of processes.
pub open spec fn process_list(v: Seq<Process>) -> Seq<ProcessModel> {
    v.map_values(|p: Process| p@)
}

impl View for Supervisor {
    type V = SupervisorModel;

    open spec fn view(&self) -> SupervisorModel {
        SupervisorModel {
            config: self.config@,
            processes: process_list(self.processes@),
            log: self.log@,
            shutdown_requested: self.shutdown_requested,
            restart_requested: self.restart_requested,
            shutting_down: self.shutting_down,
            event_serial: self.event_serial,
            pending_events: text::text_pairs(self.pending_events@),
            last_tick: self.last_tick,
            available: settings::program_list(self.available@),
        }
    }
}

/// The programs that processes are instances of.
pub open spec fn programs_of(ps: Seq<ProcessModel>) -> Seq<ProgramModel> {
    ps.map_values(|p: ProcessModel| p.config)
}

/// Which process has which live child.
pub open spec fn children(ps: Seq<ProcessModel>) -> Map<i32, usize>
    decreases ps.len(),
{
    if ps.len() == 0 {
        Map::empty()
    } else {
        let rest = children(ps.drop_last());
        if ps.last().pid != 0 {
            rest.insert(ps.last().pid, (ps.len() - 1) as usize)
        } else {
            rest
        }
    }
}

/// Every process with a live child is in the index, and the index holds
/// nothing else.
pub proof fn lemma_children(ps: Seq<ProcessModel>)
    requires
        ps.len() <= usize::MAX,
    ensures
        forall|i: int|
            0 <= i < ps.len() && (#[trigger] ps[i]).pid != 0 ==> children(ps).contains_key(ps[i].pid),
        forall|pid: i32| #[trigger]
            children(ps).contains_key(pid) ==> {
                let i = children(ps)[pid];
                i < ps.len() && ps[i as int].pid == pid && pid != 0
            },
    decreases ps.len(),
{
    if ps.len() > 0 {
        let t = ps.drop_last();
        lemma_children(t);
        assert forall|i: int| 0 <= i < ps.len() && (#[trigger] ps[i]).pid != 0 implies children(
            ps,
        ).contains_key(ps[i].pid) by {
            if i < t.len() {
                assert(t[i] == ps[i]);
            }
        }
        assert forall|pid: i32| #[trigger] children(ps).contains_key(pid) implies {
            let i = children(ps)[pid];
            i < ps.len() && ps[i as int].pid == pid && pid != 0
        } by {
            if children(t).contains_key(pid) {
                assert(t[children(t)[pid] as int] == ps[children(t)[pid] as int]);
            }
        }
    }
}

/// A process that stays an instance of its program changes no program.
pub proof fn lemma_same_programs(ps: Seq<ProcessModel>, i: int, q: ProcessModel)
    requires
        0 <= i < ps.len(),
        q.config == ps[i].config,
    ensures
        programs_of(ps.update(i, q)) == programs_of(ps),
{
    assert(programs_of(ps.update(i, q)) =~= programs_of(ps));
}

impl Supervisor {
    /// The index holds every live child, there is one process for each program
    /// of the configuration, and every process is in order.
    pub open spec fn well_formed(&self) -> bool {
        &&& self.pid_index@ == children(self@.processes)
        &&& self@.config.programs == programs_of(self@.processes)
        &&& forall|i: int|
            0 <= i < self@.processes.len() ==> machine::well_formed(#[trigger] self@.processes[i])
    }
}

// ---------------------------------------------------------------------------
// The model
// ---------------------------------------------------------------------------

/// The part of a namespec after its first colon, or all of it.
pub open spec fn short_name(name: Seq<char>) -> Seq<char> {
    let k = text::first_index(name, ':');
    if k < name.len() {
        name.skip(k + 1)
    } else {
        name
    }
}

/// Whether a process goes by this name or namespec.
pub open spec fn answers(p: ProcessModel, name: Seq<char>) -> bool {
    p.config.name == name || p.config.name == short_name(name)
}

/// The first process from position `i` on that goes by this name or namespec.
pub open spec fn found_from(ps: Seq<ProcessModel>, name: Seq<char>, i: int) -> Option<int>
    decreases ps.len() - i,
{
    if i < 0 || i >= ps.len() {
        None
    } else if answers(ps[i], name) {
        Some(i)
    } else {
        found_from(ps, name, i + 1)
    }
}

/// The first process that goes by this name or namespec.
pub open spec fn found(ps: Seq<ProcessModel>, name: Seq<char>) -> Option<int> {
    found_from(ps, name, 0)
}

/// What `found_from` returns: the least position that fits.
pub proof fn lemma_found_from(ps: Seq<ProcessModel>, name: Seq<char>, i: int)
    requires
        0 <= i <= ps.len(),
    ensures
        match found_from(ps, name, i) {
            Some(k) => i <= k < ps.len() && answers(ps[k], name) && forall|j: int|
                i <= j < k ==> !answers(#[trigger] ps[j], name),
            None => forall|j: int| i <= j < ps.len() ==> !answers(#[trigger] ps[j], name),
        },
    decreases ps.len() - i,
{
    if i < ps.len() && !answers(ps[i], name) {
        lemma_found_from(ps, name, i + 1);
    }
}

/// The supervisor with another process at position `i`.
pub open spec fn with_process(s: SupervisorModel, i: int, p: ProcessModel) -> SupervisorModel {
    SupervisorModel { processes: s.processes.update(i, p), ..s }
}

/// What to do to a process.
#[derive(Clone, Copy, PartialEq, Eq, Debug, Structural)]
pub enum Verb {
    Start,
    Stop,
    Restart,
}

/// The content of a fault.
pub open spec fn fault_model(f: (i32, String)) -> (i32, Seq<char>) {
    (f.0, f.1@)
}

/// The beginning of an operation on the process that `name` names: the
/// supervisor after it, the position of the process, and what to do for it.
/// Or the fault, if the operation is refused.
pub open spec fn begun(verb: Verb, s: SupervisorModel, name: Seq<char>, now: u128) -> Result<
    (SupervisorModel, int, Request),
    (i32, Seq<char>),
> {
    match found(s.processes, name) {
        None => Err((faults::BAD_NAME, name)),
        Some(i) => {
            let p = s.processes[i];
            match verb {
                Verb::Start => if states::is_up(p.state) {
                    Err((faults::ALREADY_STARTED, name))
                } else {
                    let (q, r, _) = machine::started(p, now);
                    Ok((with_process(s, i, q), i, r))
                },
                Verb::Stop => if !states::is_up(p.state) {
                    Err((faults::NOT_RUNNING, name))
                } else {
                    let (q, r, _) = machine::stopped(p, now);
                    Ok((with_process(s, i, q), i, r))
                },
                Verb::Restart => {
                    let (q, r) = machine::restarted(p, now);
                    Ok((with_process(s, i, q), i, r))
                },
            }
        },
    }
}

/// A process that is configured to start by itself is started when the
/// supervisor starts: the supervisor after it, and what to do.
pub open spec fn autostarted(s: SupervisorModel, i: int, now: u128) -> (SupervisorModel, Request) {
    let p = s.processes[i];
    if p.config.autostart {
        let (q, a, _) = machine::started(p, now);
        (with_process(s, i, q), a)
    } else {
        (s, Request::Idle)
    }
}

/// What came of starting a process: a fault if it could not be spawned.
pub open spec fn start_outcome(p: ProcessModel, name: Seq<char>) -> Result<(), (i32, Seq<char>)> {
    if p.spawnerr is Some && !states::is_up(p.state) {
        Err((faults::SPAWN_ERROR, name))
    } else {
        Ok(())
    }
}

/// The snapshots of the processes, each with the local time of its last stop.
pub open spec fn snapshots(ps: Seq<ProcessModel>, now: i64, stops: Seq<LocalTime>) -> Seq<
    InfoModel,
> {
    Seq::new(ps.len(), |i: int| machine::snapshot(ps[i], now, stops[i]))
}

/// The names of the processes.
pub open spec fn names_of(ps: Seq<ProcessModel>) -> Seq<Seq<char>> {
    ps.map_values(|p: ProcessModel| p.config.name)
}

/// Every process after being told to stop.
pub open spec fn all_told_to_stop(ps: Seq<ProcessModel>, now: u128) -> Seq<ProcessModel> {
    ps.map_values(|p: ProcessModel| machine::stopped(p, now).0)
}

/// What telling every process to stop asks for, one request per process.
pub open spec fn stop_requests(ps: Seq<ProcessModel>, now: u128) -> Seq<Request> {
    ps.map_values(|p: ProcessModel| machine::stopped(p, now).1)
}

/// The supervisor once it has told every process to stop. That it stops is an
/// event of its own.
pub open spec fn stopping(s: SupervisorModel, now: u128) -> SupervisorModel {
    with_note(
        SupervisorModel {
            processes: all_told_to_stop(s.processes, now),
            shutting_down: true,
            ..s
        },
        "SUPERVISOR_STATE_CHANGE_STOPPING"@,
        Seq::empty(),
    )
}

/// The contents of a list of actions.
pub open spec fn request_list(v: Seq<Action>) -> Seq<Request> {
    v.map_values(|a: Action| a@)
}

/// Whether no process has a child or wants one.
pub open spec fn all_at_rest(ps: Seq<ProcessModel>) -> bool {
    forall|i: int| 0 <= i < ps.len() ==> (#[trigger] ps[i]).pid == 0 && states::is_down(ps[i].state)
}

/// Where the control socket is.
pub open spec fn socket_of(c: ConfigModel) -> Seq<char> {
    match c.socket_path {
        Some(p) => p,
        None => settings::DEFAULT_SOCKET@,
    }
}

/// Whether the supervisor has nothing left to do.
pub open spec fn is_finished(s: SupervisorModel) -> bool {
    s.shutting_down && all_at_rest(s.processes)
}

/// Whether the supervisor is to tell its processes to stop.
pub open spec fn is_to_shut_down(s: SupervisorModel) -> bool {
    !s.shutting_down && overall_state(s) is Shutdown
}

/// Whether the lines of the main log go to standard output too.
pub open spec fn echoes(s: SupervisorModel) -> bool {
    !s.config.supervisord.silent && s.config.supervisord.nodaemon
}

/// The state of the supervisor itself.
pub open spec fn overall_state(s: SupervisorModel) -> SupervisorState {
    if s.shutdown_requested || s.restart_requested {
        SupervisorState::Shutdown
    } else {
        SupervisorState::Running
    }
}

/// The supervisor with an event about itself.
pub open spec fn with_note(s: SupervisorModel, name: Seq<char>, payload: Seq<char>) -> SupervisorModel {
    SupervisorModel { pending_events: s.pending_events.push((name, payload)), ..s }
}

/// A supervisor none of whose processes was ever started. That it runs is its
/// first event.
pub open spec fn new_supervisor(c: ConfigModel) -> SupervisorModel {
    SupervisorModel {
        config: c,
        processes: c.programs.map_values(
            |p: ProgramModel| machine::new_process(p, c.supervisord.childlogdir),
        ),
        log: LoggerModel {
            path: Some(c.supervisord.logfile),
            maxbytes: c.supervisord.logfile_maxbytes,
            backups: c.supervisord.logfile_backups,
            open: false,
            size: 0,
        },
        shutdown_requested: false,
        restart_requested: false,
        shutting_down: false,
        event_serial: 0,
        pending_events: seq![("SUPERVISOR_STATE_CHANGE_RUNNING"@, Seq::<char>::empty())],
        last_tick: None,
        available: c.programs,
    }
}

/// What is known of a log file.
#[derive(Debug)]
pub enum LogFile {
    /// There is no such file.
    Missing,
    /// The file could not be read, for this reason.
    Failed(String),
    /// What the file holds.
    Data(Vec<u8>),
}

/// The mathematical content of a [`LogFile`].
pub enum LogFileModel {
    Missing,
    Failed(Seq<char>),
    Data(Seq<u8>),
}

impl View for LogFile {
    type V = LogFileModel;

    open spec fn view(&self) -> LogFileModel {
        match self {
            LogFile::Missing => LogFileModel::Missing,
            LogFile::Failed(e) => LogFileModel::Failed(e@),
            LogFile::Data(d) => LogFileModel::Data(d@),
        }
    }
}

/// The stream that a channel name stands for.
pub open spec fn stream_of(channel: Seq<char>) -> Stream {
    if channel == "stderr"@ {
        Stream::Stderr
    } else {
        Stream::Stdout
    }
}

/// Where the log of a stream is kept (empty when nowhere).
pub open spec fn log_path_of(p: ProcessModel, stream: Stream) -> Seq<char> {
    match stream {
        Stream::Stdout => p.stdout_path,
        Stream::Stderr => p.stderr_path,
    }
}

/// Up to `length` bytes from position `offset` on. A negative offset counts
/// as zero; a `length` of zero or less means the rest.
pub open spec fn log_slice(data: Seq<u8>, offset: int, length: int) -> Seq<u8> {
    let start = if offset < 0 {
        0
    } else {
        offset
    };
    if start >= data.len() {
        Seq::empty()
    } else if length <= 0 || start + length >= data.len() {
        data.skip(start)
    } else {
        data.subrange(start, start + length)
    }
}

/// What reading a log gives, or the fault.
pub open spec fn log_text(
    s: SupervisorModel,
    name: Seq<char>,
    stream: Stream,
    offset: int,
    length: int,
    file: LogFileModel,
) -> Result<Seq<char>, (i32, Seq<char>)> {
    match found(s.processes, name) {
        None => Err((faults::BAD_NAME, name)),
        Some(i) => {
            let path = log_path_of(s.processes[i], stream);
            if path.len() == 0 {
                Err((faults::NO_FILE, path))
            } else {
                match file {
                    LogFileModel::Missing => Err((faults::NO_FILE, path)),
                    LogFileModel::Failed(e) => Err((faults::FAILED, e)),
                    LogFileModel::Data(d) => Ok(util::text_of(log_slice(d, offset, length))),
                }
            }
        },
    }
}

/// A point in time as the calendar has it.
#[derive(Debug, Clone, Copy)]
pub struct CalendarTime {
    /// Years since 1900.
    pub year: u32,
    /// Months since January.
    pub mon: u32,
    pub mday: u32,
    pub hour: u32,
    pub min: u32,
    pub sec: u32,
}

/// A number with leading zeros up to `width` digits.
pub open spec fn digits(n: nat, width: nat) -> Seq<char> {
    number::zero_padded(number::nat_text(n), width)
}

/// A time as `2024-06-17 21:05:09`.
pub open spec fn timestamp_text(t: CalendarTime) -> Seq<char> {
    digits((t.year + 1900) as nat, 4) + "-"@ + digits((t.mon + 1) as nat, 2) + "-"@ + digits(
        t.mday as nat,
        2,
    ) + " "@ + digits(t.hour as nat, 2) + ":"@ + digits(t.min as nat, 2) + ":"@ + digits(
        t.sec as nat,
        2,
    )
}

/// A line of the main log.
pub open spec fn log_line_text(t: CalendarTime, level: Seq<char>, msg: Seq<char>) -> Seq<char> {
    timestamp_text(t) + " "@ + level + " "@ + msg + "\n"@
}

/// A line for the main log, and what has to be done before it is appended.
#[derive(Debug)]
pub struct LogLine {
    pub line: String,
    pub actions: Vec<FileAction>,
    /// Whether the line goes to standard output too.
    pub echo: bool,
}

/// The message about a child that was launched.
pub open spec fn spawn_text(p: ProcessModel) -> Seq<char> {
    "spawned: '"@ + p.config.name + "' with pid "@ + number::int_text(p.pid as int)
}

/// The message about a child that has exited.
pub open spec fn exit_text(p: ProcessModel, now: u128) -> Seq<char> {
    "exited: '"@ + p.config.name + "' ("@ + machine::status_text(p, now) + ")"@
}

/// The supervisor after a child was reaped. A child that no process has
/// changes nothing.
pub open spec fn after_reap(
    s: SupervisorModel,
    pid: i32,
    status: i32,
    now: u128,
    epoch: i64,
) -> SupervisorModel {
    if children(s.processes).contains_key(pid) {
        let i = children(s.processes)[pid] as int;
        with_process(s, i, machine::reaped(s.processes[i], status, now, epoch))
    } else {
        s
    }
}

/// The short message that goes with a fault code.
pub open spec fn fault_message_text(code: i32) -> Seq<char> {
    if code == faults::ALREADY_STARTED {
        "already started"@
    } else if code == faults::NOT_RUNNING {
        "not running"@
    } else if code == faults::SPAWN_ERROR {
        "spawn error"@
    } else if code == faults::BAD_NAME {
        "no such process"@
    } else {
        "error"@
    }
}

// ---------------------------------------------------------------------------
// The supervisor
// ---------------------------------------------------------------------------

/// The short message that goes with a fault code.
pub fn fault_message(code: i32) -> (r: &'static str)
    ensures
        r@ == fault_message_text(code),
{
    if code == faults::ALREADY_STARTED {
        "already started"
    } else if code == faults::NOT_RUNNING {
        "not running"
    } else if code == faults::SPAWN_ERROR {
        "spawn error"
    } else if code == faults::BAD_NAME {
        "no such process"
    } else {
        "error"
    }
}

/// A time as `2024-06-17 21:05:09`.
pub fn timestamp(t: &CalendarTime) -> (r: String)
    ensures
        r@ == timestamp_text(*t),
{
    let mut r = number::padded_string(t.year as u64 + 1900, 4);
    r.append("-");
    r.append(number::padded_string(t.mon as u64 + 1, 2).as_str());
    r.append("-");
    r.append(number::padded_string(t.mday as u64, 2).as_str());
    r.append(" ");
    r.append(number::padded_string(t.hour as u64, 2).as_str());
    r.append(":");
    r.append(number::padded_string(t.min as u64, 2).as_str());
    r.append(":");
    r.append(number::padded_string(t.sec as u64, 2).as_str());
    r
}

/// The part of a namespec after its first colon, or all of it.
fn short(name: &[char]) -> (r: &[char])
    ensures
        r@ == short_name(name@),
{
    let k = text::find_char(name, ':');
    if k < name.len() {
        slice_subrange(name, k + 1, name.len())
    } else {
        name
    }
}

/// Up to `length` bytes from position `offset` on.
fn slice_of(data: &[u8], offset: i64, length: i64) -> (r: &[u8])
    ensures
        r@ == log_slice(data@, offset as int, length as int),
{
    let start: u64 = if offset < 0 {
        0
    } else {
        offset as u64
    };
    let len = data.len() as u64;
    if start >= len {
        let r = slice_subrange(data, 0, 0);
        proof {
            assert(r@ =~= Seq::<u8>::empty());
        }
        r
    } else if length <= 0 || start as i128 + length as i128 >= len as i128 {
        slice_subrange(data, start as usize, data.len())
    } else {
        slice_subrange(data, start as usize, (start + length as u64) as usize)
    }
}

impl Supervisor {
    /// The supervisor for a configuration: one [`Process`] per program
    /// instance, none of them started.
    pub fn new(config: Config) -> (r: Supervisor)
        ensures
            r@ == new_supervisor(config@),
            r.well_formed(),
    {
        let log = RotatingLogger::new(
            Some(config.supervisord.logfile.clone()),
            config.supervisord.logfile_maxbytes,
            config.supervisord.logfile_backups,
        );
        let mut processes: Vec<Process> = Vec::new();
        let mut i: usize = 0;
        while i < config.programs.len()
            invariant
                i <= config.programs@.len(),
                processes@.len() == i,
                forall|k: int|
                    0 <= k < i ==> (#[trigger] processes@[k])@ == machine::new_process(
                        config.programs@[k]@,
                        config.supervisord.childlogdir@,
                    ),
            decreases config.programs@.len() - i,
        {
            processes.push(
                Process::new(config.programs[i].clone(), config.supervisord.childlogdir.as_str()),
            );
            i = i + 1;
        }
        let available = settings::copy_programs(&config.programs);
        let mut r = Supervisor {
            config,
            processes,
            pid_index: HashMap::new(),
            log,
            shutdown_requested: false,
            restart_requested: false,
            shutting_down: false,
            event_serial: 0,
            pending_events: Vec::new(),
            last_tick: None,
            available,
        };
        r.note_event("SUPERVISOR_STATE_CHANGE_RUNNING", "");
        r.resync_pid_index();
        proof {
            reveal_strlit("");
            assert(""@ =~= Seq::<char>::empty());
            assert(r@ =~= new_supervisor(config@));
            assert(r@.config.programs =~= programs_of(r@.processes));
        }
        r
    }

    /// Records an event about the supervisor itself.
    fn note_event(&mut self, name: &str, payload: &str)
        ensures
            final(self)@ == with_note(old(self)@, name@, payload@),
            final(self).pid_index@ == old(self).pid_index@,
    {
        self.pending_events.push((name.to_string(), payload.to_string()));
        proof {
            assert(self@ =~= with_note(old(self)@, name@, payload@));
        }
    }

    /// Brings the index of live children up to date.
    pub(crate) fn resync_pid_index(&mut self)
        ensures
            final(self)@ == old(self)@,
            final(self).pid_index@ == children(old(self)@.processes),
    {
        self.pid_index.clear();
        let mut i: usize = 0;
        while i < self.processes.len()
            invariant
                i <= self.processes@.len(),
                self@ == old(self)@,
                self.pid_index@ == children(self@.processes.take(i as int)),
            decreases self.processes@.len() - i,
        {
            let pid = self.processes[i].pid;
            proof {
                let t = self@.processes.take(i as int + 1);
                assert(t.drop_last() =~= self@.processes.take(i as int));
                assert(t.last() == self@.processes[i as int]);
            }
            if pid != 0 {
                self.pid_index.insert(pid, i);
            }
            i = i + 1;
        }
        proof {
            assert(self@.processes.take(i as int) =~= self@.processes);
        }
    }

    /// The position of the process with this name (or `group:name` namespec).
    pub fn find(&self, name: &str) -> (r: Option<usize>)
        ensures
            match r {
                Some(i) => found(self@.processes, name@) == Some(i as int) && i
                    < self@.processes.len(),
                None => found(self@.processes, name@) is None,
            },
    {
        let chars = text::chars_of(name);
        let tail = short(chars.as_slice());
        let mut i: usize = 0;
        while i < self.processes.len()
            invariant
                i <= self.processes@.len(),
                chars@ == name@,
                tail@ == short_name(name@),
                found(self@.processes, name@) == found_from(self@.processes, name@, i as int),
            decreases self.processes@.len() - i,
        {
            let own = text::chars_of(self.processes[i].name());
            if text::same_chars(own.as_slice(), chars.as_slice()) || text::same_chars(
                own.as_slice(),
                tail,
            ) {
                return Some(i);
            }
            i = i + 1;
        }
        None
    }

    /// The name under which this supervisor is known.
    pub fn identifier(&self) -> (r: &str)
        ensures
            r@ == self@.config.supervisord.identifier,
    {
        self.config.supervisord.identifier.as_str()
    }

    /// The state of the supervisor itself.
    pub fn supervisor_state(&self) -> (r: SupervisorState)
        ensures
            r == overall_state(self@),
    {
        if self.shutdown_requested || self.restart_requested {
            SupervisorState::Shutdown
        } else {
            SupervisorState::Running
        }
    }

    /// Asks for a clean shutdown.
    pub fn request_shutdown(&mut self)
        ensures
            final(self)@ == (SupervisorModel { shutdown_requested: true, ..old(self)@ }),
            old(self).well_formed() ==> final(self).well_formed(),
    {
        self.shutdown_requested = true;
    }

    /// Asks for a shutdown followed by a new start.
    pub fn request_restart(&mut self)
        ensures
            final(self)@ == (SupervisorModel { restart_requested: true, ..old(self)@ }),
            old(self).well_formed() ==> final(self).well_formed(),
    {
        self.restart_requested = true;
    }

    /// The path of the control socket.
    pub fn socket_path(&self) -> (r: String)
        ensures
            r@ == socket_of(self@.config),
    {
        match &self.config.socket_path {
            Some(p) => p.clone(),
            None => settings::DEFAULT_SOCKET.to_string(),
        }
    }

    /// When each process last stopped (0 if it never did), in config order.
    pub fn stop_epochs(&self) -> (r: Vec<i64>)
        ensures
            r@ =~= self@.processes.map_values(
                |p: ProcessModel| machine::epoch_of(p.laststop_epoch),
            ),
    {
        let mut r: Vec<i64> = Vec::new();
        let mut i: usize = 0;
        while i < self.processes.len()
            invariant
                i <= self.processes@.len(),
                r@.len() == i,
                forall|k: int|
                    0 <= k < i ==> #[trigger] r@[k] == machine::epoch_of(
                        self@.processes[k].laststop_epoch,
                    ),
            decreases self.processes@.len() - i,
        {
            r.push(
                match self.processes[i].laststop_epoch {
                    Some(n) => n,
                    None => 0,
                },
            );
            i = i + 1;
        }
        r
    }

    /// The names of the processes, in config order.
    pub fn names(&self) -> (r: Vec<String>)
        ensures
            text::texts(r@) =~= names_of(self@.processes),
    {
        let mut r: Vec<String> = Vec::new();
        let mut i: usize = 0;
        while i < self.processes.len()
            invariant
                i <= self.processes@.len(),
                r@.len() == i,
                forall|k: int|
                    0 <= k < i ==> (#[trigger] r@[k])@ == self@.processes[k].config.name,
            decreases self.processes@.len() - i,
        {
            r.push(self.processes[i].name().to_string());
            i = i + 1;
        }
        r
    }

    /// Snapshot of every process, in config order. `stops` has the local time
    /// of the last stop of each.
    pub fn all_process_info(&self, now_epoch: i64, stops: &Vec<LocalTime>) -> (r: Vec<ProcessInfo>)
        requires
            stops@.len() == self@.processes.len(),
        ensures
            info::info_list(r@) == snapshots(self@.processes, now_epoch, stops@),
    {
        let mut r: Vec<ProcessInfo> = Vec::new();
        let mut i: usize = 0;
        while i < self.processes.len()
            invariant
                i <= self.processes@.len(),
                stops@.len() == self@.processes.len(),
                r@.len() == i,
                forall|k: int|
                    0 <= k < i ==> (#[trigger] r@[k])@ == machine::snapshot(
                        self@.processes[k],
                        now_epoch,
                        stops@[k],
                    ),
            decreases self.processes@.len() - i,
        {
            r.push(self.processes[i].info(now_epoch, &stops[i]));
            i = i + 1;
        }
        proof {
            assert(info::info_list(r@) =~= snapshots(self@.processes, now_epoch, stops@));
        }
        r
    }

    /// Snapshot of a single process by name.
    pub fn process_info(&self, name: &str, now_epoch: i64, stops: &Vec<LocalTime>) -> (r: Option<
        ProcessInfo,
    >)
        requires
            stops@.len() == self@.processes.len(),
        ensures
            match r {
                Some(v) => found(self@.processes, name@) is Some && v@ == machine::snapshot(
                    self@.processes[found(self@.processes, name@)->0],
                    now_epoch,
                    stops@[found(self@.processes, name@)->0],
                ),
                None => found(self@.processes, name@) is None,
            },
    {
        match self.find(name) {
            Some(i) => Some(self.processes[i].info(now_epoch, &stops[i])),
            None => None,
        }
    }

    /// Begins to start a process by name: its position and what to do for it,
    /// or a `(fault_code, message)`.
    pub fn op_start(&mut self, name: &str, now: u128) -> (r: Result<(usize, Action), (i32, String)>)
        requires
            old(self).well_formed(),
            now <= machine::MAX_NOW,
        ensures
            final(self).well_formed(),
            match (r, begun(Verb::Start, old(self)@, name@, now)) {
                (Ok(o), Ok(b)) => final(self)@ == b.0 && o.0 == b.1 && o.1@ == b.2,
                (Err(f), Err(g)) => final(self)@ == old(self)@ && fault_model(f) == g,
                _ => false,
            },
    {
        match self.find(name) {
            None => Err((faults::BAD_NAME, name.to_string())),
            Some(i) => {
                if self.processes[i].state.is_running() {
                    return Err((faults::ALREADY_STARTED, name.to_string()));
                }
                let r = self.processes[i].start(now);
                self.resync_pid_index();
                proof {
                    assert(self@ =~= begun(Verb::Start, old(self)@, name@, now)->Ok_0.0);
                    lemma_same_programs(
                        old(self)@.processes,
                        i as int,
                        self@.processes[i as int],
                    );
                }
                Ok((i, r.1))
            },
        }
    }

    /// Begins to stop a process by name: its position and what to do for it,
    /// or a `(fault_code, message)`.
    pub fn op_stop(&mut self, name: &str, now: u128) -> (r: Result<(usize, Action), (i32, String)>)
        requires
            old(self).well_formed(),
            now <= machine::MAX_NOW,
        ensures
            final(self).well_formed(),
            match (r, begun(Verb::Stop, old(self)@, name@, now)) {
                (Ok(o), Ok(b)) => final(self)@ == b.0 && o.0 == b.1 && o.1@ == b.2,
                (Err(f), Err(g)) => final(self)@ == old(self)@ && fault_model(f) == g,
                _ => false,
            },
    {
        match self.find(name) {
            None => Err((faults::BAD_NAME, name.to_string())),
            Some(i) => {
                if !self.processes[i].state.is_running() {
                    return Err((faults::NOT_RUNNING, name.to_string()));
                }
                let r = self.processes[i].stop(now);
                self.resync_pid_index();
                proof {
                    assert(self@ =~= begun(Verb::Stop, old(self)@, name@, now)->Ok_0.0);
                    lemma_same_programs(
                        old(self)@.processes,
                        i as int,
                        self@.processes[i as int],
                    );
                }
                Ok((i, r.1))
            },
        }
    }

    /// Begins to restart a process by name (stop, then spawn again on exit):
    /// its position and what to do for it, or a `(fault_code, message)`.
    pub fn op_restart(&mut self, name: &str, now: u128) -> (r: Result<
        (usize, Action),
        (i32, String),
    >)
        requires
            old(self).well_formed(),
            now <= machine::MAX_NOW,
        ensures
            final(self).well_formed(),
            match (r, begun(Verb::Restart, old(self)@, name@, now)) {
                (Ok(o), Ok(b)) => final(self)@ == b.0 && o.0 == b.1 && o.1@ == b.2,
                (Err(f), Err(g)) => final(self)@ == old(self)@ && fault_model(f) == g,
                _ => false,
            },
    {
        match self.find(name) {
            None => Err((faults::BAD_NAME, name.to_string())),
            Some(i) => {
                let r = self.processes[i].request_restart(now);
                self.resync_pid_index();
                proof {
                    assert(self@ =~= begun(Verb::Restart, old(self)@, name@, now)->Ok_0.0);
                    lemma_same_programs(
                        old(self)@.processes,
                        i as int,
                        self@.processes[i as int],
                    );
                }
                Ok((i, r))
            },
        }
    }

    /// Advances a process that was just started, whether or not the
    /// supervisor is shutting down.
    pub fn settle_start(&mut self, i: usize, now: u128) -> (r: Action)
        requires
            old(self).well_formed(),
            i < old(self)@.processes.len(),
            now <= machine::MAX_NOW,
        ensures
            final(self).well_formed(),
            ({
                let (q, a) = machine::advanced(old(self)@.processes[i as int], now, false);
                final(self)@ == with_process(old(self)@, i as int, q) && r@ == a
            }),
    {
        let r = self.processes[i].transition(now, false);
        self.resync_pid_index();
        proof {
            let (q, a) = machine::advanced(old(self)@.processes[i as int], now, false);
            assert(self@ =~= with_process(old(self)@, i as int, q));
            lemma_same_programs(old(self)@.processes, i as int, q);
        }
        r
    }

    /// What came of starting a process: a fault if it could not be spawned.
    pub fn start_result(&self, i: usize, name: &str) -> (r: Result<(), (i32, String)>)
        requires
            i < self@.processes.len(),
        ensures
            match (r, start_outcome(self@.processes[i as int], name@)) {
                (Ok(_), Ok(_)) => true,
                (Err(f), Err(g)) => fault_model(f) == g,
                _ => false,
            },
    {
        if self.processes[i].spawnerr.is_some() && !self.processes[i].state.is_running() {
            return Err((faults::SPAWN_ERROR, name.to_string()));
        }
        Ok(())
    }

    /// Takes note of a child that was launched for a process.
    pub fn launched(&mut self, i: usize, pid: i32, now: u128, epoch: i64)
        requires
            old(self).well_formed(),
            i < old(self)@.processes.len(),
            now <= machine::MAX_NOW,
        ensures
            final(self).well_formed(),
            final(self)@ == with_process(
                old(self)@,
                i as int,
                machine::launched(old(self)@.processes[i as int], pid, now, epoch),
            ),
    {
        self.processes[i].launched(pid, now, epoch);
        self.resync_pid_index();
        proof {
            assert(self@ =~= with_process(
                old(self)@,
                i as int,
                machine::launched(old(self)@.processes[i as int], pid, now, epoch),
            ));
            lemma_same_programs(old(self)@.processes, i as int, self@.processes[i as int]);
        }
    }

    /// Takes note of a launch that failed.
    pub fn launch_failed(&mut self, i: usize, why: &LaunchFailure, now: u128)
        requires
            old(self).well_formed(),
            i < old(self)@.processes.len(),
            now <= machine::MAX_NOW,
        ensures
            final(self).well_formed(),
            final(self)@ == with_process(
                old(self)@,
                i as int,
                machine::start_failed(
                    old(self)@.processes[i as int],
                    machine::failure_text(*why),
                    now,
                ),
            ),
    {
        self.processes[i].launch_failed(why, now);
        self.resync_pid_index();
        proof {
            assert(self@ =~= with_process(
                old(self)@,
                i as int,
                machine::start_failed(
                    old(self)@.processes[i as int],
                    machine::failure_text(*why),
                    now,
                ),
            ));
            lemma_same_programs(old(self)@.processes, i as int, self@.processes[i as int]);
        }
    }

    /// Takes note of a child that has exited. The message for the log, if it
    /// was the child of a process.
    pub fn reap(&mut self, pid: i32, status: i32, now: u128, epoch: i64) -> (r: Option<String>)
        requires
            old(self).well_formed(),
            now <= machine::MAX_NOW,
        ensures
            final(self).well_formed(),
            final(self)@ == after_reap(old(self)@, pid, status, now, epoch),
            match r {
                Some(m) => children(old(self)@.processes).contains_key(pid) && m@ == exit_text(
                    final(self)@.processes[children(old(self)@.processes)[pid] as int],
                    now,
                ),
                None => !children(old(self)@.processes).contains_key(pid),
            },
    {
        proof {
            assert(self@.processes.len() == self.processes.len());
            lemma_children(self@.processes);
        }
        let found = match self.pid_index.get(&pid) {
            Some(i) => Some(*i),
            None => None,
        };
        match found {
            Some(i) => {
                self.processes[i].on_reap(status, now, epoch);
                self.resync_pid_index();
                proof {
                    assert(self@ =~= after_reap(old(self)@, pid, status, now, epoch));
                    lemma_same_programs(
                        old(self)@.processes,
                        i as int,
                        self@.processes[i as int],
                    );
                }
                let mut m = "exited: '".to_string();
                m.append(self.processes[i].name());
                m.append("' (");
                m.append(self.processes[i].status_description(now).as_str());
                m.append(")");
                Some(m)
            },
            None => None,
        }
    }

    /// The message for the log about the child of a process.
    pub fn spawn_message(&self, i: usize) -> (r: String)
        requires
            i < self@.processes.len(),
        ensures
            r@ == spawn_text(self@.processes[i as int]),
    {
        let mut m = "spawned: '".to_string();
        m.append(self.processes[i].name());
        m.append("' with pid ");
        m.append(number::int_string(self.processes[i].pid as i64).as_str());
        m
    }

    /// Starts a process that is configured to start by itself, and no other.
    pub fn autostart(&mut self, i: usize, now: u128) -> (r: Action)
        requires
            old(self).well_formed(),
            i < old(self)@.processes.len(),
            now <= machine::MAX_NOW,
        ensures
            final(self).well_formed(),
            (final(self)@, r@) == autostarted(old(self)@, i as int, now),
    {
        if !self.processes[i].config.autostart {
            return Action::Idle;
        }
        let r = self.processes[i].start(now);
        self.resync_pid_index();
        proof {
            let (q, a, _) = machine::started(old(self)@.processes[i as int], now);
            assert(self@ =~= with_process(old(self)@, i as int, q));
            lemma_same_programs(old(self)@.processes, i as int, q);
        }
        r.1
    }

    /// Advances the state machine of one process.
    pub fn advance(&mut self, i: usize, now: u128) -> (r: Action)
        requires
            old(self).well_formed(),
            i < old(self)@.processes.len(),
            now <= machine::MAX_NOW,
        ensures
            final(self).well_formed(),
            ({
                let (q, a) = machine::advanced(
                    old(self)@.processes[i as int],
                    now,
                    old(self)@.shutting_down,
                );
                final(self)@ == with_process(old(self)@, i as int, q) && r@ == a
            }),
    {
        let down = self.shutting_down;
        let r = self.processes[i].transition(now, down);
        self.resync_pid_index();
        proof {
            let (q, a) = machine::advanced(
                old(self)@.processes[i as int],
                now,
                old(self)@.shutting_down,
            );
            assert(self@ =~= with_process(old(self)@, i as int, q));
            lemma_same_programs(old(self)@.processes, i as int, q);
        }
        r
    }

    /// Tells every process to stop, once, after a shutdown or a restart was
    /// asked for: what to do for each of them. `None` if nothing was asked for
    /// or they have been told.
    pub fn begin_shutdown(&mut self, now: u128) -> (r: Option<Vec<Action>>)
        requires
            old(self).well_formed(),
            now <= machine::MAX_NOW,
        ensures
            final(self).well_formed(),
            match r {
                Some(actions) => {
                    &&& is_to_shut_down(old(self)@)
                    &&& request_list(actions@) == stop_requests(old(self)@.processes, now)
                    &&& final(self)@ == stopping(old(self)@, now)
                },
                None => {
                    &&& !is_to_shut_down(old(self)@)
                    &&& final(self)@ == old(self)@
                },
            },
    {
        if self.shutting_down || !(self.shutdown_requested || self.restart_requested) {
            return None;
        }
        self.shutting_down = true;
        let mut actions: Vec<Action> = Vec::new();
        let mut i: usize = 0;
        while i < self.processes.len()
            invariant
                now <= machine::MAX_NOW,
                i <= self.processes@.len(),
                actions@.len() == i,
                self@.processes.len() == old(self)@.processes.len(),
                self@ == (SupervisorModel {
                    processes: self@.processes,
                    shutting_down: true,
                    ..old(self)@
                }),
                old(self).well_formed(),
                forall|k: int|
                    0 <= k < i ==> #[trigger] self@.processes[k] == machine::stopped(
                        old(self)@.processes[k],
                        now,
                    ).0,
                forall|k: int|
                    i <= k < self@.processes.len() ==> #[trigger] self@.processes[k] == old(
                        self,
                    )@.processes[k],
                forall|k: int|
                    0 <= k < i ==> (#[trigger] actions@[k])@ == machine::stopped(
                        old(self)@.processes[k],
                        now,
                    ).1,
                forall|k: int|
                    0 <= k < self@.processes.len() ==> machine::well_formed(
                        #[trigger] self@.processes[k],
                    ),
            decreases self.processes@.len() - i,
        {
            proof {
                assert(self@.processes[i as int] == old(self)@.processes[i as int]);
            }
            let ghost before = self@;
            let r = self.processes[i].stop(now);
            proof {
                assert(self@.processes =~= before.processes.update(
                    i as int,
                    machine::stopped(before.processes[i as int], now).0,
                ));
            }
            actions.push(r.1);
            i = i + 1;
        }
        self.note_event("SUPERVISOR_STATE_CHANGE_STOPPING", "");
        self.resync_pid_index();
        proof {
            reveal_strlit("");
            assert(""@ =~= Seq::<char>::empty());
            assert(self@.processes =~= all_told_to_stop(old(self)@.processes, now));
            assert(request_list(actions@) =~= stop_requests(old(self)@.processes, now));
            assert(programs_of(self@.processes) =~= programs_of(old(self)@.processes));
        }
        Some(actions)
    }

    /// Whether no process has a child or wants one.
    pub fn all_stopped(&self) -> (r: bool)
        ensures
            r == all_at_rest(self@.processes),
    {
        let mut i: usize = 0;
        while i < self.processes.len()
            invariant
                i <= self.processes@.len(),
                forall|k: int|
                    0 <= k < i ==> (#[trigger] self@.processes[k]).pid == 0 && states::is_down(
                        self@.processes[k].state,
                    ),
            decreases self.processes@.len() - i,
        {
            if self.processes[i].pid != 0 || !self.processes[i].state.is_stopped() {
                proof {
                    let p = self@.processes[i as int];
                    assert(!(p.pid == 0 && states::is_down(p.state)));
                }
                return false;
            }
            i = i + 1;
        }
        true
    }

    /// Whether the supervisor has nothing left to do.
    pub fn finished(&self) -> (r: bool)
        ensures
            r == is_finished(self@),
    {
        self.shutting_down && self.all_stopped()
    }

    /// Where the log of a process is kept. `None` if there is no such process
    /// or it has no such log.
    pub fn log_file(&self, name: &str, channel: &str) -> (r: Option<String>)
        ensures
            match (r, found(self@.processes, name@)) {
                (Some(p), Some(i)) => p@ == log_path_of(
                    self@.processes[i],
                    stream_of(channel@),
                ) && p@.len() > 0,
                (None, Some(i)) => log_path_of(self@.processes[i], stream_of(channel@)).len() == 0,
                (None, None) => true,
                _ => false,
            },
    {
        match self.find(name) {
            None => None,
            Some(i) => {
                let path = self.path_of(i, channel);
                if text::chars_of(path).len() == 0 {
                    None
                } else {
                    Some(path.to_string())
                }
            },
        }
    }

    /// The path of a log of the process at position `i`.
    fn path_of(&self, i: usize, channel: &str) -> (r: &str)
        requires
            i < self@.processes.len(),
        ensures
            r@ == log_path_of(self@.processes[i as int], stream_of(channel@)),
    {
        if text::same(channel, "stderr") {
            self.processes[i].stderr_path.as_str()
        } else {
            self.processes[i].stdout_path.as_str()
        }
    }

    /// Up to `length` bytes of a process log from `offset` on, given what is
    /// known of its file (see [`Supervisor::log_file`]). `channel` is "stdout"
    /// or "stderr". A negative offset counts as zero, and a `length` of zero or
    /// less means the rest.
    pub fn read_log(
        &self,
        name: &str,
        channel: &str,
        offset: i64,
        length: i64,
        file: &LogFile,
    ) -> (r: Result<String, (i32, String)>)
        ensures
            match (
                r,
                log_text(
                    self@,
                    name@,
                    stream_of(channel@),
                    offset as int,
                    length as int,
                    file@,
                ),
            ) {
                (Ok(t), Ok(u)) => t@ == u,
                (Err(f), Err(g)) => fault_model(f) == g,
                _ => false,
            },
    {
        match self.find(name) {
            None => Err((faults::BAD_NAME, name.to_string())),
            Some(i) => {
                let path = self.path_of(i, channel);
                if text::chars_of(path).len() == 0 {
                    return Err((faults::NO_FILE, path.to_string()));
                }
                match file {
                    LogFile::Missing => Err((faults::NO_FILE, path.to_string())),
                    LogFile::Failed(e) => Err((faults::FAILED, e.clone())),
                    LogFile::Data(d) => Ok(
                        util::decode_text(slice_of(d.as_slice(), offset, length)),
                    ),
                }
            },
        }
    }

    /// A timestamped line for the main log.
    pub fn log_line(&mut self, at: &CalendarTime, level: &str, msg: &str) -> (r: LogLine)
        ensures
            r.line@ == log_line_text(*at, level@, msg@),
            logger::action_list(r.actions@) == machine::room_for(
                old(self)@.log,
                utf8::encode_utf8(r.line@).len(),
            ),
            r.echo == echoes(old(self)@),
            final(self)@ == (SupervisorModel {
                log: machine::with_room(old(self)@.log, utf8::encode_utf8(r.line@).len()),
                ..old(self)@
            }),
            old(self).well_formed() ==> final(self).well_formed(),
    {
        let mut line = timestamp(at);
        line.append(" ");
        line.append(level);
        line.append(" ");
        line.append(msg);
        line.append("\n");
        let bytes = util::bytes_of(line.as_str());
        let actions = self.log.write(bytes.len());
        let echo = !self.config.supervisord.silent && self.config.supervisord.nodaemon;
        proof {
            assert(logger::action_list(actions@) =~= machine::room_for(
                old(self)@.log,
                bytes@.len(),
            ));
        }
        LogLine { line, actions, echo }
    }
}

} // verus!
