//! What holds of every supervisor, whatever is asked of it.
use crate::config::assemble::ConfigModel;
use crate::config::settings::AuthModel;
use crate::control;
use crate::control::ErrorModel;
use crate::daemon;
use crate::daemon::batch;
use crate::daemon::batch::BatchModel;
use crate::daemon::batch::Stage;
use crate::daemon::batch::WorkModel;
use crate::daemon::serve;
use crate::daemon::serve::RouteModel;
use crate::daemon::CalendarTime;
use crate::daemon::LogFileModel;
use crate::daemon::SupervisorModel;
use crate::http;
use crate::http::RequestModel;
use crate::number;
use crate::process;
use crate::process::command;
use crate::process::machine;
use crate::process::machine::ProcessModel;
use crate::process::machine::Request;
use crate::process::machine::Stream;
use crate::states;
use crate::text;
use crate::util;
use crate::web;
use crate::xmlrpc;
use crate::xmlrpc::ValueModel;
use vstd::prelude::*;
use vstd::utf8;

verus! {

// ---------------------------------------------------------------------------
// Children
// ---------------------------------------------------------------------------

/// A child that has exited is that of the process with its pid: that process
/// takes note of the exit and has no child any more, and no other process
/// changes.
pub proof fn law_reap_reaches_its_process(
    s: SupervisorModel,
    i: int,
    status: i32,
    now: u128,
    epoch: i64,
)
    requires
        s.processes.len() <= usize::MAX,
        0 <= i < s.processes.len(),
        s.processes[i].pid != 0,
        forall|j: int|
            0 <= j < s.processes.len() && j != i ==> (#[trigger] s.processes[j]).pid
                != s.processes[i].pid,
    ensures
        ({
            let t = daemon::after_reap(s, s.processes[i].pid, status, now, epoch);
            &&& t == daemon::with_process(
                s,
                i,
                machine::reaped(s.processes[i], status, now, epoch),
            )
            &&& t.processes[i].pid == 0
        }),
{
    daemon::lemma_children(s.processes);
    let k = daemon::children(s.processes)[s.processes[i].pid] as int;
    assert(s.processes[k].pid == s.processes[i].pid);
}

/// A child that no process has changes nothing.
pub proof fn law_strange_child_changes_nothing(
    s: SupervisorModel,
    pid: i32,
    status: i32,
    now: u128,
    epoch: i64,
)
    requires
        s.processes.len() <= usize::MAX,
        pid == 0 || forall|j: int| 0 <= j < s.processes.len() ==> (#[trigger] s.processes[j]).pid
            != pid,
    ensures
        daemon::after_reap(s, pid, status, now, epoch) == s,
{
    daemon::lemma_children(s.processes);
}

// ---------------------------------------------------------------------------
// Names
// ---------------------------------------------------------------------------

/// A process is found by its name.
pub proof fn law_found_by_name(ps: Seq<ProcessModel>, i: int)
    requires
        0 <= i < ps.len(),
        forall|j: int| 0 <= j < i ==> !daemon::answers(#[trigger] ps[j], ps[i].config.name),
    ensures
        daemon::found(ps, ps[i].config.name) == Some(i),
{
    daemon::lemma_found_from(ps, ps[i].config.name, 0);
}

/// A process is found by its `group:name` namespec.
pub proof fn law_found_by_namespec(ps: Seq<ProcessModel>, i: int)
    requires
        0 <= i < ps.len(),
        forall|k: int|
            0 <= k < ps[i].config.group.len() ==> #[trigger] ps[i].config.group[k] != ':',
        forall|j: int|
            0 <= j < i ==> (#[trigger] ps[j]).config.name != ps[i].config.name && ps[j].config.name
                != ps[i].config.group + ":"@ + ps[i].config.name,
    ensures
        daemon::found(ps, ps[i].config.group + ":"@ + ps[i].config.name) == Some(i),
{
    reveal_strlit(":");
    let g = ps[i].config.group;
    let n = ps[i].config.name;
    let s = g + ":"@ + n;
    let k = g.len() as int;
    assert forall|j: int| 0 <= j < k implies s[j] != ':' by {
        assert(s[j] == g[j]);
    }
    assert(s[k] == ':');
    text::lemma_first_index_is(s, ':', k);
    assert(s.skip(k + 1) =~= n);
    daemon::lemma_found_from(ps, s, 0);
}

/// The name under which a process is shown finds that process.
pub proof fn law_shown_name_finds_its_process(ps: Seq<ProcessModel>, i: int)
    requires
        0 <= i < ps.len(),
        forall|k: int|
            0 <= k < ps[i].config.group.len() ==> #[trigger] ps[i].config.group[k] != ':',
        forall|j: int|
            0 <= j < i ==> !daemon::answers(
                #[trigger] ps[j],
                web::namespec(ps[i].config.group, ps[i].config.name),
            ),
    ensures
        daemon::found(ps, web::namespec(ps[i].config.group, ps[i].config.name)) == Some(i),
{
    reveal_strlit(":");
    let g = ps[i].config.group;
    let n = ps[i].config.name;
    let s = web::namespec(g, n);
    if g != n && g.len() > 0 {
        let k = g.len() as int;
        assert forall|j: int| 0 <= j < k implies s[j] != ':' by {
            assert(s[j] == g[j]);
        }
        assert(s[k] == ':');
        text::lemma_first_index_is(s, ':', k);
        assert(s.skip(k + 1) =~= n);
    }
    daemon::lemma_found_from(ps, s, 0);
}

// ---------------------------------------------------------------------------
// Operations
// ---------------------------------------------------------------------------

/// An operation that is refused changes nothing, and its fault says why: no
/// process goes by the name, or the process is up already, or it is not up.
pub proof fn law_refused_operation_changes_nothing(b: BatchModel, s: SupervisorModel, now: u128)
    requires
        !batch::is_done(b),
        b.stage is Begin,
        daemon::begun(b.verb, s, b.names[b.outcomes.len() as int], now) is Err,
    ensures
        ({
            let name = b.names[b.outcomes.len() as int];
            let (c, t, w) = batch::stepped(b, s, now);
            &&& t == s
            &&& w is Proceed
            &&& c.outcomes.last() is Err
            &&& match daemon::found(s.processes, name) {
                None => batch::outcome_code(c.outcomes.last()) == crate::rpc::faults::BAD_NAME,
                Some(i) => if states::is_up(s.processes[i].state) {
                    batch::outcome_code(c.outcomes.last()) == crate::rpc::faults::ALREADY_STARTED
                } else {
                    batch::outcome_code(c.outcomes.last()) == crate::rpc::faults::NOT_RUNNING
                },
            }
        }),
{
}

/// How much of a batch is left.
pub open spec fn left(b: BatchModel) -> int {
    4 * (b.names.len() - b.outcomes.len()) + match b.stage {
        Stage::Begin => 3int,
        Stage::Reap(_) => 2,
        Stage::Settle(_) => 1,
        Stage::Check(_) => 0,
    }
}

/// A batch comes to an end: every step leaves less to do, whatever happens in
/// between, and when it is done there is one outcome for every name.
pub proof fn law_batch_comes_to_an_end(b: BatchModel, s: SupervisorModel, now: u128)
    requires
        batch::fits(b, s.processes.len()),
    ensures
        ({
            let (c, t, w) = batch::stepped(b, s, now);
            &&& w is Done <==> batch::is_done(b)
            &&& w is Done ==> b.outcomes.len() == b.names.len()
            &&& !(w is Done) ==> 0 <= left(c) < left(b)
            &&& c.names == b.names
        }),
{
}

/// The outcomes that a batch has taken stay as they are.
pub proof fn law_outcomes_are_kept(b: BatchModel, s: SupervisorModel, now: u128)
    ensures
        ({
            let (c, t, w) = batch::stepped(b, s, now);
            &&& c.outcomes.len() >= b.outcomes.len()
            &&& forall|k: int|
                0 <= k < b.outcomes.len() ==> #[trigger] c.outcomes[k] == b.outcomes[k]
        }),
{
}

/// Operations neither add nor remove processes, and leave alone every process
/// but the one they are about.
pub proof fn law_operation_is_about_one_process(b: BatchModel, s: SupervisorModel, now: u128)
    requires
        s.processes.len() <= usize::MAX,
        batch::fits(b, s.processes.len()),
    ensures
        ({
            let (c, t, w) = batch::stepped(b, s, now);
            &&& t.processes.len() == s.processes.len()
            &&& forall|j: int|
                0 <= j < s.processes.len() && #[trigger] t.processes[j] != s.processes[j] ==> c.stage
                    == Stage::Reap(j as usize) || c.stage == Stage::Check(j as usize)
        }),
{
    if !batch::is_done(b) {
        daemon::lemma_found_from(s.processes, b.names[b.outcomes.len() as int], 0);
    }
}

/// Starting every process reports on every process, in order, under its name
/// and its group.
pub proof fn law_every_process_is_reported(b: BatchModel, ps: Seq<ProcessModel>)
    requires
        b.names == daemon::names_of(ps),
        b.outcomes.len() == b.names.len(),
    ensures
        ({
            let es = batch::entries(b, ps);
            &&& es.len() == ps.len()
            &&& forall|k: int|
                0 <= k < ps.len() ==> (#[trigger] es[k]).0 == ps[k].config.name && es[k].1
                    == ps[k].config.group
        }),
{
}

// ---------------------------------------------------------------------------
// Shutdown
// ---------------------------------------------------------------------------

/// Whether a process has no child and wants none.
pub open spec fn idle(p: ProcessModel) -> bool {
    p.pid == 0 && states::is_down(p.state)
}

/// A process that is told to stop is idle at once, or as soon as its child has
/// exited, and it stays so while the supervisor shuts down: the shutdown
/// comes to an end.
pub proof fn law_shutdown_completes(
    p: ProcessModel,
    now: u128,
    status: i32,
    at: u128,
    epoch: i64,
    later: u128,
)
    requires
        process::laws::pid_is_live(p),
        p.state is Starting || p.state is Running || p.state is Stopping ==> p.pid != 0,
    ensures
        ({
            let q = machine::stopped(p, now).0;
            &&& idle(q) || q.state is Stopping && q.pid != 0
            &&& q.state is Stopping ==> idle(machine::reaped(q, status, at, epoch))
        }),
        idle(p) ==> idle(machine::advanced(p, later, true).0) && machine::advanced(
            p,
            later,
            true,
        ).1 is Idle,
{
}

/// Once no process has a child or wants one, the supervisor is done.
pub proof fn law_idle_processes_are_at_rest(ps: Seq<ProcessModel>)
    ensures
        daemon::all_at_rest(ps) <==> forall|i: int| 0 <= i < ps.len() ==> idle(#[trigger] ps[i]),
{
}

// ---------------------------------------------------------------------------
// Logs
// ---------------------------------------------------------------------------

/// A log can be read in parts: what a limited read gives, followed by what
/// reading on from there gives, is what reading everything gives.
pub proof fn law_log_can_be_read_in_parts(data: Seq<u8>, offset: int, length: int)
    requires
        offset >= 0,
        length > 0,
    ensures
        daemon::log_slice(data, offset, length) + daemon::log_slice(data, offset + length, 0)
            == daemon::log_slice(data, offset, 0),
        daemon::log_slice(data, offset, length).len() <= length,
        daemon::log_slice(data, 0, 0) == data,
{
    assert(daemon::log_slice(data, offset, length) + daemon::log_slice(data, offset + length, 0)
        =~= daemon::log_slice(data, offset, 0));
    assert(daemon::log_slice(data, 0, 0) =~= data);
}

// ---------------------------------------------------------------------------
// Requests
// ---------------------------------------------------------------------------

/// Only a `POST` changes anything: any other request is answered by the page
/// alone, or refused.
pub proof fn law_get_changes_nothing(r: RequestModel, auth: AuthModel)
    requires
        r.method != "POST"@,
    ensures
        serve::route_of(r, auth) is Page || serve::route_of(r, auth) is Refused,
{
}

/// Where credentials are asked for, a request with other credentials or none is
/// refused, whatever it asks.
pub proof fn law_wrong_credentials_are_refused(r: RequestModel, auth: AuthModel)
    requires
        auth.username is Some,
        match http::basic_auth_of(r.headers) {
            None => true,
            Some((u, p)) => u != auth.username->0 || (auth.password is Some && p
                != auth.password->0),
        },
    ensures
        serve::route_of(r, auth) is Refused,
{
}

/// A request with the right credentials is not refused.
pub proof fn law_right_credentials_are_admitted(
    r: RequestModel,
    user: Seq<char>,
    password: Seq<char>,
)
    requires
        http::basic_auth_of(r.headers) == Some((user, password)),
    ensures
        !(serve::route_of(
            r,
            AuthModel { username: Some(user), password: Some(password) },
        ) is Refused),
        !(serve::route_of(r, AuthModel { username: Some(user), password: None }) is Refused),
{
}

/// A client that is refused is told that credentials are asked for.
pub proof fn law_refusal_is_understood()
    ensures
        control::reply_of(util::text_of(serve::refusal())) == Err::<ValueModel, ErrorModel>(
            ErrorModel::Protocol("authentication required"@),
        ),
{
    http::laws::law_unauthorized_reply(
        "Unauthorized"@,
        "text/plain"@,
        "401 Unauthorized\n"@,
        seq![("WWW-Authenticate"@, "Basic realm=\"supervisor\""@)],
    );
}

/// A call that a client makes arrives as that call, however the stream cuts
/// the request into reads.
pub proof fn law_call_arrives(
    method: Seq<char>,
    params: Seq<ValueModel>,
    reads: Seq<Seq<u8>>,
    auth: AuthModel,
)
    requires
        text::trimmed(method) == method,
        forall|i: int| 0 <= i < params.len() ==> xmlrpc::laws::sound(#[trigger] params[i]),
        auth.username is None,
        utf8::encode_utf8(xmlrpc::call_text(method, params)).len() <= usize::MAX,
        forall|k: int|
            0 <= k < reads.len() ==> 0 < (#[trigger] reads[k]).len() <= http::laws::READ_SIZE,
        http::laws::joined(reads, 0) == control::request_bytes(xmlrpc::call_text(method, params)),
    ensures
        http::request_of(reads) is Some,
        serve::route_of(http::request_of(reads)->0, auth) == RouteModel::Call(method, params),
{
    reveal_strlit("/");
    reveal_strlit("/RPC2");
    http::laws::law_request_round_trip(xmlrpc::call_text(method, params), reads);
    xmlrpc::laws::law_call_round_trip(method, params);
    let path = "/RPC2"@;
    text::lemma_first_index_is(path, '?', path.len() as int);
    assert(serve::path_only(path).len() == 5);
    assert("/"@.len() == 1);
}

/// The client receives the answer that the server gave.
pub proof fn law_answer_arrives(answer: Result<ValueModel, (i32, Seq<char>)>)
    requires
        answer is Ok ==> xmlrpc::laws::sound(answer->Ok_0),
    ensures
        control::reply_of(util::text_of(serve::xml_bytes(serve::answer_text(answer)))) == (
        match answer {
            Ok(v) => Ok::<ValueModel, ErrorModel>(v),
            Err(f) => Err::<ValueModel, ErrorModel>(ErrorModel::Fault(f.0, f.1)),
        }),
{
    match answer {
        Ok(v) => {
            http::laws::law_reply_round_trip(v);
        },
        Err(f) => {
            http::laws::law_fault_reply_round_trip(f.0, f.1);
        },
    }
}

// ---------------------------------------------------------------------------
// What operations do
// ---------------------------------------------------------------------------

/// Whether a batch is about to begin with the process at position `i`.
pub open spec fn about_to_begin(b: BatchModel, s: SupervisorModel, i: int) -> bool {
    &&& b.outcomes.len() < b.names.len()
    &&& b.stage is Begin
    &&& daemon::found(s.processes, b.names[b.outcomes.len() as int]) == Some(i)
    &&& 0 <= i < s.processes.len() <= usize::MAX
}

/// A start operation launches the command of a process that is down, argument
/// by argument, and touches no other process. One that is up already is
/// refused as such, and nothing happens.
pub proof fn law_start_operation(b: BatchModel, s: SupervisorModel, i: int, now: u128)
    requires
        about_to_begin(b, s, i),
        b.verb is Start,
    ensures
        ({
            let (c, t, work) = batch::stepped(b, s, now);
            let p = s.processes[i];
            let argv = command::arguments(p.config.command);
            let name = b.names[b.outcomes.len() as int];
            &&& states::is_down(p.state) && argv.len() > 0 ==> {
                &&& work == (WorkModel::Act { index: i, action: Request::Launch(argv) })
                &&& c.outcomes == b.outcomes
                &&& c.stage == Stage::Reap(i as usize)
                &&& forall|j: int|
                    0 <= j < s.processes.len() && j != i ==> #[trigger] t.processes[j]
                        == s.processes[j]
            }
            &&& p.state is Running || p.state is Starting || p.state is Backoff ==> {
                &&& work is Proceed
                &&& t == s
                &&& c.outcomes == b.outcomes.push(Err((60i32, name)))
                &&& c.stage is Begin
            }
            &&& c.names == b.names && c.verb == b.verb
        }),
{
}

/// A stop operation sends the stop signal to a process that is up and has a
/// child, and touches no other process. One that is not up is refused as such.
pub proof fn law_stop_operation(b: BatchModel, s: SupervisorModel, i: int, now: u128)
    requires
        about_to_begin(b, s, i),
        b.verb is Stop,
    ensures
        ({
            let (c, t, work) = batch::stepped(b, s, now);
            let p = s.processes[i];
            let name = b.names[b.outcomes.len() as int];
            &&& (p.state is Running || p.state is Starting) && p.pid > 0 ==> {
                &&& work == (WorkModel::Act {
                    index: i,
                    action: Request::Signal { pid: p.pid, sig: p.config.stopsignal },
                })
                &&& t.processes[i].state is Stopping
            }
            &&& p.state is Backoff ==> t.processes[i].state is Stopped
            &&& p.state is Running || p.state is Starting || p.state is Backoff ==> {
                &&& c.outcomes == b.outcomes
                &&& c.stage == Stage::Reap(i as usize)
                &&& forall|j: int|
                    0 <= j < s.processes.len() && j != i ==> #[trigger] t.processes[j]
                        == s.processes[j]
            }
            &&& states::is_down(p.state) || p.state is Stopping ==> {
                &&& work is Proceed
                &&& t == s
                &&& c.outcomes == b.outcomes.push(Err((70i32, name)))
                &&& c.stage is Begin
            }
            &&& c.names == b.names && c.verb == b.verb
        }),
{
}

/// A restart operation stops a process that is up, to be launched again when it
/// has exited, and launches one that is down.
pub proof fn law_restart_operation(b: BatchModel, s: SupervisorModel, i: int, now: u128)
    requires
        about_to_begin(b, s, i),
        b.verb is Restart,
    ensures
        ({
            let (c, t, work) = batch::stepped(b, s, now);
            let p = s.processes[i];
            let argv = command::arguments(p.config.command);
            &&& (p.state is Running || p.state is Starting) && p.pid > 0 ==> {
                &&& work == (WorkModel::Act {
                    index: i,
                    action: Request::Signal { pid: p.pid, sig: p.config.stopsignal },
                })
                &&& t.processes[i].restart_pending
            }
            &&& (states::is_down(p.state) || p.state is Backoff) && argv.len() > 0 ==> work == (
            WorkModel::Act { index: i, action: Request::Launch(argv) })
            &&& c.outcomes == b.outcomes
            &&& c.stage == Stage::Check(i as usize)
        }),
{
}

/// An operation on a name that no process goes by is refused as such.
pub proof fn law_unknown_name(b: BatchModel, s: SupervisorModel, now: u128)
    requires
        b.outcomes.len() < b.names.len(),
        b.stage is Begin,
        daemon::found(s.processes, b.names[b.outcomes.len() as int]) is None,
    ensures
        ({
            let (c, t, work) = batch::stepped(b, s, now);
            &&& work is Proceed
            &&& t == s
            &&& c.outcomes == b.outcomes.push(
                Err((10i32, b.names[b.outcomes.len() as int])),
            )
            &&& c.names == b.names
        }),
{
}

/// How an operation ends: a start reaps, lets the process settle, and has
/// failed just if the process could not be spawned and is not up; a stop reaps
/// and has then succeeded, as has a restart.
pub proof fn law_operation_ends(b: BatchModel, s: SupervisorModel, i: usize, now: u128)
    requires
        b.outcomes.len() < b.names.len(),
        i < s.processes.len(),
    ensures
        ({
            let (c, t, work) = batch::stepped(b, s, now);
            let p = s.processes[i as int];
            let name = b.names[b.outcomes.len() as int];
            &&& b.stage == Stage::Reap(i) ==> {
                &&& work is Reap
                &&& t == s
                &&& c.outcomes == b.outcomes
                &&& c.stage == (if b.verb is Start {
                    Stage::Settle(i)
                } else {
                    Stage::Check(i)
                })
            }
            &&& b.stage == Stage::Settle(i) ==> {
                &&& c.stage == Stage::Check(i)
                &&& c.outcomes == b.outcomes
                &&& t.processes[i as int] == machine::advanced(p, now, false).0
                &&& work == (WorkModel::Act {
                    index: i as int,
                    action: machine::advanced(p, now, false).1,
                })
            }
            &&& b.stage == Stage::Check(i) ==> {
                &&& work is Proceed
                &&& t == s
                &&& c.stage is Begin
                &&& c.outcomes == b.outcomes.push(
                    if b.verb is Start && p.spawnerr is Some && !(p.state is Running || p.state
                        is Starting || p.state is Backoff) {
                        Err((50i32, name))
                    } else {
                        Ok(())
                    },
                )
            }
        }),
{
}

/// A batch is done when there is an outcome for every name, and not before.
pub proof fn law_batch_is_done(b: BatchModel, s: SupervisorModel, now: u128)
    ensures
        batch::stepped(b, s, now).2 is Done <==> b.outcomes.len() >= b.names.len(),
        b.outcomes.len() >= b.names.len() ==> batch::stepped(b, s, now).0 == b && batch::stepped(
            b,
            s,
            now,
        ).1 == s,
{
}

/// How outcomes are reported: success by one code and the word for what was
/// done, a failure by its code and what it means.
pub proof fn law_outcome_reports(b: BatchModel, ps: Seq<ProcessModel>, k: int, code: i32, why: Seq<char>)
    requires
        0 <= k < b.outcomes.len(),
    ensures
        ({
            let e = batch::entries(b, ps)[k];
            &&& e.0 == b.names[k]
            &&& b.outcomes[k] is Ok ==> e.2 == 80
            &&& b.outcomes[k] is Ok && b.verb is Start ==> e.3 == "started"@
            &&& b.outcomes[k] is Ok && b.verb is Stop ==> e.3 == "stopped"@
            &&& b.outcomes[k] is Ok && b.verb is Restart ==> e.3 == "restarted"@
            &&& b.outcomes[k] == Err::<(), (i32, Seq<char>)>((code, why)) ==> {
                &&& e.2 == code
                &&& e.3 == (if code == 60 {
                    "already started"@
                } else if code == 70 {
                    "not running"@
                } else if code == 50 {
                    "spawn error"@
                } else if code == 10 {
                    "no such process"@
                } else {
                    "error"@
                })
            }
        }),
{
}

/// When the supervisor starts it starts just the processes that are configured
/// to start by themselves.
pub proof fn law_autostart(s: SupervisorModel, i: int, now: u128)
    requires
        0 <= i < s.processes.len(),
        s.processes[i].state is Stopped,
        command::arguments(s.processes[i].config.command).len() > 0,
    ensures
        ({
            let (t, r) = daemon::autostarted(s, i, now);
            let p = s.processes[i];
            &&& r == (if p.config.autostart {
                Request::Launch(command::arguments(p.config.command))
            } else {
                Request::Idle
            })
            &&& !p.config.autostart ==> t == s
            &&& t.processes.len() == s.processes.len()
            &&& forall|j: int|
                0 <= j < s.processes.len() && j != i ==> #[trigger] t.processes[j]
                    == s.processes[j]
        }),
{
}

/// A new supervisor has one process for each program, in order, none of them
/// started; it has announced that it runs, and nothing else has happened.
pub proof fn law_new_supervisor(c: ConfigModel, i: int)
    requires
        0 <= i < c.programs.len(),
    ensures
        ({
            let s = daemon::new_supervisor(c);
            &&& s.config == c
            &&& s.processes.len() == c.programs.len()
            &&& s.processes[i].config == c.programs[i]
            &&& s.processes[i].state is Stopped
            &&& s.processes[i].pid == 0
            &&& !s.shutdown_requested && !s.restart_requested && !s.shutting_down
            &&& s.pending_events.len() == 1
            &&& s.pending_events[0].0 == "SUPERVISOR_STATE_CHANGE_RUNNING"@
            &&& s.pending_events[0].1.len() == 0
            &&& s.log.path == Some(c.supervisord.logfile)
            &&& s.log.maxbytes == c.supervisord.logfile_maxbytes
            &&& s.log.backups == c.supervisord.logfile_backups
            &&& s.available == c.programs
        }),
{
}

/// A shutdown tells every process to stop, in order, and announces itself.
pub proof fn law_shutdown_tells_every_process(s: SupervisorModel, i: int, now: u128)
    requires
        0 <= i < s.processes.len(),
    ensures
        ({
            let t = daemon::stopping(s, now);
            let p = s.processes[i];
            &&& t.shutting_down
            &&& t.processes.len() == s.processes.len()
            &&& daemon::stop_requests(s.processes, now).len() == s.processes.len()
            &&& t.processes[i].administratively_stopped
            &&& (p.state is Running || p.state is Starting) && p.pid > 0 ==> {
                &&& t.processes[i].state is Stopping
                &&& daemon::stop_requests(s.processes, now)[i] == (Request::Signal {
                    pid: p.pid,
                    sig: p.config.stopsignal,
                })
            }
            &&& p.state is Backoff ==> t.processes[i].state is Stopped
            &&& t.pending_events.last() == (
                "SUPERVISOR_STATE_CHANGE_STOPPING"@,
                Seq::<char>::empty(),
            )
            &&& t.pending_events.drop_last() == s.pending_events
            &&& t.config == s.config && t.log == s.log
        }),
{
    assert(daemon::stopping(s, now).pending_events.drop_last() =~= s.pending_events);
}

/// The supervisor runs until a shutdown or a restart is asked for.
pub proof fn law_overall_state(s: SupervisorModel)
    ensures
        daemon::overall_state(s) is Shutdown <==> s.shutdown_requested || s.restart_requested,
        daemon::overall_state(s) is Running <==> !s.shutdown_requested && !s.restart_requested,
        daemon::all_at_rest(s.processes) <==> forall|i: int|
            0 <= i < s.processes.len() ==> (#[trigger] s.processes[i]).pid == 0 && (
            s.processes[i].state is Stopped || s.processes[i].state is Exited
                || s.processes[i].state is Fatal || s.processes[i].state is Unknown),
        s.config.socket_path is Some ==> daemon::socket_of(s.config) == s.config.socket_path->0,
        s.config.socket_path is None ==> daemon::socket_of(s.config) == "/tmp/supervisor.sock"@,
{
}

// ---------------------------------------------------------------------------
// What is read and written
// ---------------------------------------------------------------------------

/// Reading a log gives the bytes that were asked for, as text: as many as were
/// asked for, as far as there are any, from the offset on. Without a length it
/// gives the rest.
pub proof fn law_reading_a_log(
    s: SupervisorModel,
    name: Seq<char>,
    i: int,
    stream: Stream,
    t: Seq<char>,
    offset: int,
    length: int,
    e: Seq<char>,
)
    requires
        daemon::found(s.processes, name) == Some(i),
    ensures
        ({
            let p = s.processes[i];
            let path = if stream is Stdout {
                p.stdout_path
            } else {
                p.stderr_path
            };
            let d = utf8::encode_utf8(t);
            let read = |offset: int, length: int, file: LogFileModel|
                daemon::log_text(s, name, stream, offset, length, file);
            &&& path.len() > 0 ==> read(0, 0, LogFileModel::Data(d)) == Ok::<
                Seq<char>,
                (i32, Seq<char>),
            >(t)
            &&& path.len() > 0 ==> read(offset, length, LogFileModel::Missing) == Err::<
                Seq<char>,
                (i32, Seq<char>),
            >((20i32, path))
            &&& path.len() > 0 ==> read(offset, length, LogFileModel::Failed(e)) == Err::<
                Seq<char>,
                (i32, Seq<char>),
            >((30i32, e))
            &&& path.len() == 0 ==> read(offset, length, LogFileModel::Data(d)) == Err::<
                Seq<char>,
                (i32, Seq<char>),
            >((20i32, path))
            &&& path.len() > 0 && offset >= d.len() ==> read(
                offset,
                length,
                LogFileModel::Data(d),
            ) == Ok::<Seq<char>, (i32, Seq<char>)>(util::text_of(Seq::empty()))
        }),
{
    util::law_text_round_trip(t);
    law_log_can_be_read_in_parts(utf8::encode_utf8(t), 0, 1);
}

/// Only the log of a process that exists can be read.
pub proof fn law_no_log_without_a_process(
    s: SupervisorModel,
    name: Seq<char>,
    stream: Stream,
    offset: int,
    length: int,
    file: LogFileModel,
)
    requires
        daemon::found(s.processes, name) is None,
    ensures
        daemon::log_text(s, name, stream, offset, length, file) == Err::<
            Seq<char>,
            (i32, Seq<char>),
        >((10i32, name)),
{
}

/// The two channels: `stderr` is one, and everything else the other.
pub proof fn law_channels(channel: Seq<char>)
    ensures
        daemon::stream_of("stderr"@) is Stderr,
        channel != "stderr"@ ==> daemon::stream_of(channel) is Stdout,
{
}

/// The part of a log between an offset and an end.
pub proof fn law_part_of_a_log(data: Seq<u8>, offset: int, length: int, k: int)
    requires
        0 <= offset,
        0 < length,
        offset <= k < offset + length,
        k < data.len(),
    ensures
        daemon::log_slice(data, offset, length)[k - offset] == data[k],
        daemon::log_slice(data, offset, length).len() == (if offset + length <= data.len() {
            length
        } else {
            data.len() - offset
        }),
        daemon::log_slice(data, -length, length) == daemon::log_slice(data, 0, length),
{
}

/// A line of the main log begins with the date and the time, the year in four
/// digits and the rest in two, and goes on with how grave it is and what
/// happened.
pub proof fn law_log_line(t: CalendarTime, level: Seq<char>, msg: Seq<char>)
    ensures
        ({
            let two = |n: nat| number::zero_padded(number::nat_text(n), 2);
            daemon::log_line_text(t, level, msg) == number::zero_padded(
                number::nat_text((1900 + t.year) as nat),
                4,
            ) + "-"@ + two((1 + t.mon) as nat) + "-"@ + two(t.mday as nat) + " "@ + two(
                t.hour as nat,
            ) + ":"@ + two(t.min as nat) + ":"@ + two(t.sec as nat) + " "@ + level + " "@ + msg
                + "\n"@
        }),
{
}

/// What the main log says about children.
pub proof fn law_child_messages(p: ProcessModel, now: u128)
    ensures
        daemon::spawn_text(p) == "spawned: '"@ + p.config.name + "' with pid "@ + number::int_text(
            p.pid as int,
        ),
        daemon::exit_text(p, now) == "exited: '"@ + p.config.name + "' ("@ + machine::status_text(
            p,
            now,
        ) + ")"@,
{
}

/// A process is found by its name, by a namespec, or not at all.
pub proof fn law_names(p: ProcessModel, group: Seq<char>, name: Seq<char>)
    requires
        forall|i: int| 0 <= i < group.len() ==> #[trigger] group[i] != ':',
    ensures
        daemon::answers(p, p.config.name),
        daemon::answers(p, group + seq![':'] + p.config.name),
        daemon::short_name(group + seq![':'] + name) == name,
        daemon::short_name(group) == group,
{
    let s = group + seq![':'] + name;
    let t = group + seq![':'] + p.config.name;
    let n = group.len() as int;
    assert forall|j: int| 0 <= j < n implies s[j] != ':' by {
        assert(s[j] == group[j]);
    }
    assert forall|j: int| 0 <= j < n implies t[j] != ':' by {
        assert(t[j] == group[j]);
    }
    text::lemma_first_index_is(s, ':', n);
    text::lemma_first_index_is(t, ':', n);
    text::lemma_first_index_is(group, ':', n);
    assert(s.skip(n + 1) =~= name);
    assert(t.skip(n + 1) =~= p.config.name);
}

/// Where requests go: without the right credentials nowhere; a `POST` to the
/// page's own path is a form, any other `POST` a call, and everything else
/// asks for the page.
pub proof fn law_routes(
    r: RequestModel,
    auth: AuthModel,
    method: Seq<char>,
    params: Seq<ValueModel>,
    query: Seq<char>,
    why: Seq<char>,
)
    requires
        http::admits(auth, http::basic_auth_of(r.headers)),
    ensures
        r.method != "POST"@ ==> serve::route_of(r, auth) is Page,
        r.method == "POST"@ && (r.path == "/"@ || r.path == "/?"@ + query) ==> {
            let fields = web::form_of(r.body);
            let action = web::field_value(fields, "action"@);
            let name = web::field_value(fields, "name"@);
            &&& action is None ==> serve::route_of(r, auth) is Page
            &&& action is Some && name is Some ==> serve::route_of(r, auth) == RouteModel::Form(
                action->0,
                name->0,
            )
            &&& action is Some && name is None ==> serve::route_of(r, auth) == RouteModel::Form(
                action->0,
                Seq::empty(),
            )
        },
        r.method == "POST"@ && r.path != "/"@ && !r.path.contains('?') && xmlrpc::call_of(r.body)
            == Ok::<(Seq<char>, Seq<ValueModel>), Seq<char>>((method, params))
            ==> serve::route_of(r, auth) == RouteModel::Call(method, params),
        r.method == "POST"@ && r.path != "/"@ && !r.path.contains('?') && xmlrpc::call_of(r.body)
            == Err::<(Seq<char>, Seq<ValueModel>), Seq<char>>(why) ==> serve::route_of(r, auth)
            == RouteModel::Malformed(why),
{
    reveal_strlit("/");
    reveal_strlit("/?");
    let a = "/"@;
    let b = "/?"@ + query;
    let c = r.path;
    text::lemma_first_index_is(a, '?', 1);
    assert(b[0] == '/' && b[1] == '?');
    text::lemma_first_index_is(b, '?', 1);
    assert(serve::path_only(a) =~= a);
    assert(serve::path_only(b) =~= a);
    if !c.contains('?') {
        assert forall|k: int| 0 <= k < c.len() implies c[k] != '?' by {
            assert(c.contains(c[k]));
        }
        text::lemma_first_index_is(c, '?', c.len() as int);
        assert(serve::path_only(c) =~= c);
    }
}

/// What is sent to whom has no right to be here, and for a call that cannot be
/// understood.
pub proof fn law_refusals(e: Seq<char>)
    ensures
        serve::refusal() == http::response_bytes(
            401,
            "Unauthorized"@,
            "text/plain"@,
            "401 Unauthorized\n"@,
            seq![("WWW-Authenticate"@, "Basic realm=\"supervisor\""@)],
        ),
        serve::malformed_answer(e) == Err::<ValueModel, (i32, Seq<char>)>(
            (1i32, "malformed call: "@ + e),
        ),
{
}

/// When the supervisor tells its processes to stop: once, after a shutdown or a
/// restart was asked for. It is done when it has, and none of them is left.
pub proof fn law_when_to_shut_down(s: SupervisorModel, now: u128)
    ensures
        daemon::is_to_shut_down(s) <==> !s.shutting_down && (s.shutdown_requested
            || s.restart_requested),
        !daemon::is_to_shut_down(daemon::stopping(s, now)),
        daemon::is_finished(s) <==> s.shutting_down && forall|i: int|
            0 <= i < s.processes.len() ==> idle(#[trigger] s.processes[i]),
        daemon::echoes(s) <==> s.config.supervisord.nodaemon && !s.config.supervisord.silent,
{
}

/// Which process a name finds: the first that goes by it, if any does. A
/// process goes by its own name, and by that behind the first colon.
pub proof fn law_found(ps: Seq<ProcessModel>, name: Seq<char>, i: int)
    ensures
        daemon::found(ps, name) == Some(i) <==> {
            &&& 0 <= i < ps.len()
            &&& daemon::answers(ps[i], name)
            &&& forall|j: int| 0 <= j < i ==> !daemon::answers(#[trigger] ps[j], name)
        },
        daemon::found(ps, name) is None <==> forall|j: int|
            0 <= j < ps.len() ==> !daemon::answers(#[trigger] ps[j], name),
{
    daemon::lemma_found_from(ps, name, 0);
}

/// A process goes by no other name.
pub proof fn law_other_names(p: ProcessModel, group: Seq<char>, name: Seq<char>)
    requires
        forall|i: int| 0 <= i < group.len() ==> #[trigger] group[i] != ':',
        p.config.name != name,
        p.config.name != group + seq![':'] + name,
    ensures
        !daemon::answers(p, group + seq![':'] + name),
        p.config.name != group ==> !daemon::answers(p, group),
{
    law_names(p, group, name);
}

/// A document is sent as such.
pub proof fn law_documents_are_sent(
    document: Seq<char>,
    v: ValueModel,
    code: i32,
    message: Seq<char>,
)
    ensures
        serve::xml_bytes(document) == http::response_bytes(
            200,
            "OK"@,
            "text/xml"@,
            document,
            Seq::empty(),
        ),
        serve::answer_text(Ok(v)) == xmlrpc::response_text(v),
        serve::answer_text(Err((code, message))) == xmlrpc::fault_document(code as int, message),
{
}

} // verus!
