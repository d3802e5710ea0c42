//! Process and supervisor states.
use vstd::prelude::*;

verus! {

/// The lifecycle state of a single supervised process.
#[derive(Clone, Copy, PartialEq, Eq, Debug, Structural)]
pub enum ProcessState {
    /// The process has been stopped (or was never started).
    Stopped,
    /// The process has been spawned and is waiting out `startsecs`.
    Starting,
    /// The process stayed up long enough to be considered running.
    Running,
    /// The process exited too quickly while starting; waiting to retry.
    Backoff,
    /// A stop signal was sent; waiting for the process to exit.
    Stopping,
    /// The process exited after having run successfully.
    Exited,
    /// The process could not be started after `startretries` attempts.
    Fatal,
    /// The process is in an indeterminate state.
    Unknown,
}

/// The number of a process state in the control interface.
pub open spec fn state_code(s: ProcessState) -> i64 {
    match s {
        ProcessState::Stopped => 0,
        ProcessState::Starting => 10,
        ProcessState::Running => 20,
        ProcessState::Backoff => 30,
        ProcessState::Stopping => 40,
        ProcessState::Exited => 100,
        ProcessState::Fatal => 200,
        ProcessState::Unknown => 1000,
    }
}

/// The name of a process state.
pub open spec fn state_name(s: ProcessState) -> Seq<char> {
    match s {
        ProcessState::Stopped => "STOPPED"@,
        ProcessState::Starting => "STARTING"@,
        ProcessState::Running => "RUNNING"@,
        ProcessState::Backoff => "BACKOFF"@,
        ProcessState::Stopping => "STOPPING"@,
        ProcessState::Exited => "EXITED"@,
        ProcessState::Fatal => "FATAL"@,
        ProcessState::Unknown => "UNKNOWN"@,
    }
}

/// Whether a process has, or is trying to get, a live pid.
pub open spec fn is_up(s: ProcessState) -> bool {
    s is Starting || s is Running || s is Backoff
}

/// Whether a process is down.
pub open spec fn is_down(s: ProcessState) -> bool {
    s is Stopped || s is Exited || s is Fatal || s is Unknown
}

impl ProcessState {
    /// The human-readable name shown by `supervisorctl status`.
    pub fn description(self) -> (r: &'static str)
        ensures
            r@ == state_name(self),
    {
        match self {
            ProcessState::Stopped => "STOPPED",
            ProcessState::Starting => "STARTING",
            ProcessState::Running => "RUNNING",
            ProcessState::Backoff => "BACKOFF",
            ProcessState::Stopping => "STOPPING",
            ProcessState::Exited => "EXITED",
            ProcessState::Fatal => "FATAL",
            ProcessState::Unknown => "UNKNOWN",
        }
    }

    /// The number of the state in the control interface.
    pub fn code(self) -> (r: i64)
        ensures
            r == state_code(self),
    {
        match self {
            ProcessState::Stopped => 0,
            ProcessState::Starting => 10,
            ProcessState::Running => 20,
            ProcessState::Backoff => 30,
            ProcessState::Stopping => 40,
            ProcessState::Exited => 100,
            ProcessState::Fatal => 200,
            ProcessState::Unknown => 1000,
        }
    }

    /// States in which the process is considered "up" (has, or is trying to
    /// get, a live PID).
    pub fn is_running(self) -> (r: bool)
        ensures
            r == is_up(self),
    {
        match self {
            ProcessState::Starting | ProcessState::Running | ProcessState::Backoff => true,
            _ => false,
        }
    }

    /// States in which the process is considered "down".
    pub fn is_stopped(self) -> (r: bool)
        ensures
            r == is_down(self),
    {
        match self {
            ProcessState::Stopped | ProcessState::Exited | ProcessState::Fatal
            | ProcessState::Unknown => true,
            _ => false,
        }
    }
}

/// The lifecycle state of the supervisor daemon itself.
#[derive(Clone, Copy, PartialEq, Eq, Debug, Structural)]
pub enum SupervisorState {
    Fatal,
    Running,
    Restarting,
    Shutdown,
}

/// The number of a supervisor state in the control interface.
pub open spec fn supervisor_code(s: SupervisorState) -> i64 {
    match s {
        SupervisorState::Fatal => 2,
        SupervisorState::Running => 1,
        SupervisorState::Restarting => 0,
        SupervisorState::Shutdown => -1i64,
    }
}

/// The name of a supervisor state.
pub open spec fn supervisor_name(s: SupervisorState) -> Seq<char> {
    match s {
        SupervisorState::Fatal => "FATAL"@,
        SupervisorState::Running => "RUNNING"@,
        SupervisorState::Restarting => "RESTARTING"@,
        SupervisorState::Shutdown => "SHUTDOWN"@,
    }
}

impl SupervisorState {
    /// The human-readable name of the state.
    pub fn description(self) -> (r: &'static str)
        ensures
            r@ == supervisor_name(self),
    {
        match self {
            SupervisorState::Fatal => "FATAL",
            SupervisorState::Running => "RUNNING",
            SupervisorState::Restarting => "RESTARTING",
            SupervisorState::Shutdown => "SHUTDOWN",
        }
    }

    /// The number of the state in the control interface.
    pub fn code(self) -> (r: i64)
        ensures
            r == supervisor_code(self),
    {
        match self {
            SupervisorState::Fatal => 2,
            SupervisorState::Running => 1,
            SupervisorState::Restarting => 0,
            SupervisorState::Shutdown => -1,
        }
    }
}

/// Every process state but `STOPPING` is either up or down, and none is both.
pub proof fn law_up_or_down(s: ProcessState)
    ensures
        !(is_up(s) && is_down(s)),
        s !is Stopping <==> is_up(s) || is_down(s),
{
}

/// Different states have different numbers.
pub proof fn law_codes_differ(a: ProcessState, b: ProcessState)
    ensures
        state_code(a) == state_code(b) ==> a == b,
{
}

/// A process is up while it starts, runs or backs off, and down when it has
/// stopped, exited, failed for good, or is in no known state.
pub proof fn law_up_and_down_states()
    ensures
        is_up(ProcessState::Starting) && is_up(ProcessState::Running) && is_up(
            ProcessState::Backoff,
        ),
        is_down(ProcessState::Stopped) && is_down(ProcessState::Exited) && is_down(
            ProcessState::Fatal,
        ) && is_down(ProcessState::Unknown),
{
}

/// The numbers that the states have in the control interface: the states that
/// end in nothing running are the multiples of a hundred.
pub proof fn law_state_numbers(s: ProcessState)
    ensures
        is_down(s) <==> state_code(s) % 100 == 0,
        state_code(s) < 100 && !is_down(s) ==> 10 <= state_code(s) <= 40,
        s is Stopped <==> state_code(s) == 0,
        s is Starting <==> state_code(s) == 10,
        s is Running <==> state_code(s) == 20,
        s is Backoff <==> state_code(s) == 30,
        s is Stopping <==> state_code(s) == 40,
        s is Exited <==> state_code(s) == 100,
        s is Fatal <==> state_code(s) == 200,
        s is Unknown <==> state_code(s) == 1000,
{
}

/// The states of the supervisor: it runs, or is on its way down.
pub proof fn law_supervisor_states(s: SupervisorState)
    ensures
        s is Running <==> supervisor_code(s) == 1,
        s is Shutdown <==> supervisor_code(s) == -1,
        s is Restarting <==> supervisor_code(s) == 0,
        s is Fatal <==> supervisor_code(s) == 2,
        s is Running ==> supervisor_name(s) == state_name(ProcessState::Running),
        s is Fatal ==> supervisor_name(s) == state_name(ProcessState::Fatal),
        s is Shutdown ==> supervisor_name(s) == "SHUTDOWN"@,
        s is Restarting ==> supervisor_name(s) == "RESTARTING"@,
{
}

/// Different states have different names.
pub proof fn law_names_differ(a: ProcessState, b: ProcessState)
    ensures
        state_name(a) == state_name(b) ==> a == b,
        state_name(ProcessState::Stopped) == "STOPPED"@,
        state_name(ProcessState::Starting) == "STARTING"@,
        state_name(ProcessState::Running) == "RUNNING"@,
        state_name(ProcessState::Backoff) == "BACKOFF"@,
        state_name(ProcessState::Stopping) == "STOPPING"@,
        state_name(ProcessState::Exited) == "EXITED"@,
        state_name(ProcessState::Fatal) == "FATAL"@,
        state_name(ProcessState::Unknown) == "UNKNOWN"@,
{
    reveal_strlit("STOPPED");
    reveal_strlit("STARTING");
    reveal_strlit("RUNNING");
    reveal_strlit("BACKOFF");
    reveal_strlit("STOPPING");
    reveal_strlit("EXITED");
    reveal_strlit("FATAL");
    reveal_strlit("UNKNOWN");
    assert("STOPPED"@.len() == 7 && "STARTING"@.len() == 8 && "RUNNING"@.len() == 7);
    assert("BACKOFF"@.len() == 7 && "STOPPING"@.len() == 8 && "EXITED"@.len() == 6);
    assert("FATAL"@.len() == 5 && "UNKNOWN"@.len() == 7);
    assert("STOPPED"@[0] == 'S' && "RUNNING"@[0] == 'R' && "BACKOFF"@[0] == 'B');
    assert("UNKNOWN"@[0] == 'U');
    assert("STARTING"@[2] == 'A' && "STOPPING"@[2] == 'O');
}

} // verus!
