//! What the commands of the client are for: what each asks the daemon, what
//! the daemon does about it, and what is printed in the end.
use crate::control::ErrorModel;
use crate::ctl;
use crate::ctl::answer;
use crate::ctl::plan;
use crate::ctl::plan::EntryModel;
use crate::ctl::ReportModel;
use crate::ctl::TaskModel;
use crate::daemon;
use crate::daemon::LogFileModel;
use crate::daemon::SupervisorModel;
use crate::number;
use crate::process::info::LocalTime;
use crate::process::machine::Stream;
use crate::rpc;
use crate::rpc::PendingModel;
use crate::text;
use crate::util;
use crate::web;
use crate::xmlrpc::ValueModel;
use vstd::prelude::*;
use vstd::utf8;

verus! {

// ---------------------------------------------------------------------------
// Commands
// ---------------------------------------------------------------------------

/// What tells the verbs apart.
proof fn lemma_verbs()
    ensures
        "status"@.len() == 6,
        "start"@.len() == 5,
        "stop"@.len() == 4,
        "restart"@.len() == 7,
        "clear"@.len() == 5,
        "signal"@.len() == 6,
        "pid"@.len() == 3,
        "fg"@.len() == 2,
        "avail"@.len() == 5,
        "tail"@.len() == 4,
        "reread"@.len() == 6,
        "update"@.len() == 6,
        "add"@.len() == 3,
        "remove"@.len() == 6,
        "maintail"@.len() == 8,
        "version"@.len() == 7,
        "shutdown"@.len() == 8,
        "reload"@.len() == 6,
        "help"@.len() == 4,
        "status"@[0] == 's',
        "status"@[1] == 't',
        "start"@[0] == 's',
        "stop"@[0] == 's',
        "restart"@[0] == 'r',
        "clear"@[0] == 'c',
        "signal"@[0] == 's',
        "signal"@[1] == 'i',
        "pid"@[0] == 'p',
        "avail"@[0] == 'a',
        "tail"@[0] == 't',
        "reread"@[0] == 'r',
        "reread"@[2] == 'r',
        "update"@[0] == 'u',
        "add"@[0] == 'a',
        "remove"@[0] == 'r',
        "remove"@[2] == 'm',
        "maintail"@[0] == 'm',
        "version"@[0] == 'v',
        "shutdown"@[0] == 's',
        "reload"@[0] == 'r',
        "reload"@[2] == 'l',
        "help"@[0] == 'h',
{
    reveal_strlit("status");
    reveal_strlit("start");
    reveal_strlit("stop");
    reveal_strlit("restart");
    reveal_strlit("clear");
    reveal_strlit("signal");
    reveal_strlit("pid");
    reveal_strlit("fg");
    reveal_strlit("avail");
    reveal_strlit("tail");
    reveal_strlit("reread");
    reveal_strlit("update");
    reveal_strlit("add");
    reveal_strlit("remove");
    reveal_strlit("maintail");
    reveal_strlit("version");
    reveal_strlit("shutdown");
    reveal_strlit("reload");
    reveal_strlit("help");
}

/// A command line: a verb and its arguments.
pub open spec fn line(verb: Seq<char>, args: Seq<Seq<char>>) -> Seq<Seq<char>> {
    seq![verb] + args
}

proof fn lemma_line(verb: Seq<char>, args: Seq<Seq<char>>)
    ensures
        line(verb, args)[0] == verb,
        line(verb, args).skip(1) == args,
{
    assert(line(verb, args).skip(1) =~= args);
}

/// What the daemon makes of a task.
pub open spec fn asked(
    t: TaskModel,
    s: SupervisorModel,
    epoch: i64,
    stops: Seq<LocalTime>,
    pid: i32,
) -> (SupervisorModel, PendingModel) {
    match t {
        TaskModel::Call(method, params, _) => rpc::dispatched(s, method, params, epoch, stops, pid),
        _ => (s, PendingModel::Reload),
    }
}

/// What the client makes of an answer to a task.
pub open spec fn printed(t: TaskModel, a: Result<ValueModel, ErrorModel>) -> Seq<char> {
    match t {
        TaskModel::Call(_, _, report) => answer::outcome_of(report, a).text,
        _ => Seq::empty(),
    }
}

/// `start` and `stop` with names: one call for each name, in order, by which the
/// daemon starts or stops the process of that name; what comes of it is said
/// about that name.
pub proof fn law_start_and_stop_commands(
    names: Seq<Seq<char>>,
    k: int,
    s: SupervisorModel,
    epoch: i64,
    stops: Seq<LocalTime>,
    pid: i32,
    v: ValueModel,
)
    requires
        0 <= k < names.len(),
        !names.contains("all"@),
    ensures
        ({
            let start = plan::tasks_of(line("start"@, names));
            let stop = plan::tasks_of(line("stop"@, names));
            let a = asked(start[k], s, epoch, stops, pid);
            let b = asked(stop[k], s, epoch, stops, pid);
            &&& start.len() == names.len() && stop.len() == names.len()
            &&& start[k] is Call && stop[k] is Call
            &&& a.0 == s && b.0 == s
            &&& a.1 is Run && a.1->Run_0.verb is Start && a.1->Run_0.names == seq![names[k]]
            &&& b.1 is Run && b.1->Run_0.verb is Stop && b.1->Run_0.names == seq![names[k]]
            &&& printed(start[k], Ok(v)) == names[k] + ": "@ + "started"@ + "\n"@
            &&& printed(stop[k], Ok(v)) == names[k] + ": "@ + "stopped"@ + "\n"@
        }),
{
    lemma_verbs();
    lemma_line("start"@, names);
    lemma_line("stop"@, names);
    let params = seq![ValueModel::Str(names[k])];
    rpc::laws::law_start_and_stop_calls(s, names[k], params, epoch, stops, pid);
}

/// `start all` and `stop all`, alone or among names: one call, by which the
/// daemon starts or stops every process.
pub proof fn law_start_all_and_stop_all_commands(
    args: Seq<Seq<char>>,
    s: SupervisorModel,
    epoch: i64,
    stops: Seq<LocalTime>,
    pid: i32,
    i: int,
)
    requires
        args.contains("all"@),
        0 <= i < s.processes.len(),
    ensures
        ({
            let start = plan::tasks_of(line("start"@, args));
            let stop = plan::tasks_of(line("stop"@, args));
            let a = asked(start[0], s, epoch, stops, pid);
            let b = asked(stop[0], s, epoch, stops, pid);
            &&& start.len() == 1 && stop.len() == 1
            &&& start[0] is Call && stop[0] is Call
            &&& a.1 is Run && a.1->Run_0.verb is Start
            &&& b.1 is Run && b.1->Run_0.verb is Stop
            &&& a.1->Run_0.names.len() == s.processes.len()
            &&& b.1->Run_0.names.len() == s.processes.len()
            &&& a.1->Run_0.names[i] == s.processes[i].config.name
            &&& b.1->Run_0.names[i] == s.processes[i].config.name
            &&& start[0]->Call_2 == ReportModel::Results("done"@)
            &&& stop[0]->Call_2 == ReportModel::Results("done"@)
        }),
{
    lemma_verbs();
    lemma_line("start"@, args);
    lemma_line("stop"@, args);
    assert(args.len() > 0);
    let none = Seq::<ValueModel>::empty();
    rpc::laws::law_start_and_stop_all_calls(s, none, epoch, stops, pid, i);
}

/// `restart` with names stops them all, and then starts them; with `all` it
/// asks first which there are, and then does the same to each.
pub proof fn law_restart_command(
    names: Seq<Seq<char>>,
    args: Seq<Seq<char>>,
    items: Seq<ValueModel>,
    k: int,
)
    requires
        names.len() > 0,
        !names.contains("all"@),
        args.contains("all"@),
        0 <= k < items.len(),
    ensures
        plan::tasks_of(line("restart"@, names)) == plan::restart_tasks(names),
        ({
            let all = plan::tasks_of(line("restart"@, args));
            &&& all.len() == 1
            &&& all[0] is Call
            &&& all[0]->Call_0 == "supervisor.getAllProcessInfo"@
            &&& all[0]->Call_1.len() == 0
            &&& answer::outcome_of(all[0]->Call_2, Ok(ValueModel::Array(items))).more
                == plan::restart_tasks(answer::process_names(ValueModel::Array(items)))
            &&& answer::process_names(ValueModel::Array(items)).len() == items.len()
            &&& answer::process_names(ValueModel::Array(items))[k] == ctl::member_words(
                items[k],
                "name"@,
            )
        }),
{
    lemma_verbs();
    lemma_line("restart"@, names);
    lemma_line("restart"@, args);
    assert(args.len() > 0);
}

/// `tail` prints the whole log of the process, of stdout or, if that is asked
/// for, of stderr.
pub proof fn law_tail_command(
    name: Seq<char>,
    more: Seq<Seq<char>>,
    s: SupervisorModel,
    epoch: i64,
    stops: Seq<LocalTime>,
    pid: i32,
    log: Seq<char>,
    i: int,
)
    requires
        daemon::found(s.processes, name) == Some(i),
        daemon::log_path_of(
            s.processes[i],
            if line(name, more).contains("stderr"@) {
                Stream::Stderr
            } else {
                Stream::Stdout
            },
        ).len() > 0,
    ensures
        ({
            let args = line(name, more);
            let stream = if args.contains("stderr"@) {
                Stream::Stderr
            } else {
                Stream::Stdout
            };
            let t = plan::tasks_of(line("tail"@, args));
            let (after, pending) = asked(t[0], s, epoch, stops, pid);
            let file = LogFileModel::Data(utf8::encode_utf8(log));
            &&& t.len() == 1
            &&& after == s
            &&& pending is Read
            &&& pending->Read_0.name == name
            &&& pending->Read_0.channel == stream
            &&& rpc::read_answer(pending->Read_0, s, file) == Ok::<ValueModel, (i32, Seq<char>)>(
                ValueModel::Str(log),
            )
            &&& printed(t[0], Ok(ValueModel::Str(log))) == log
        }),
{
    lemma_verbs();
    let args = line(name, more);
    lemma_line("tail"@, args);
    assert(args[0] == name);
    rpc::laws::law_log_calls(s, name, 0, 0, epoch, stops, pid);
    let d = utf8::encode_utf8(log);
    daemon::laws::law_log_can_be_read_in_parts(d, 0, 1);
    util::law_text_round_trip(log);
}

/// `status` asks for every process, and shows all of them or the one that was
/// asked for.
pub proof fn law_status_command(args: Seq<Seq<char>>, items: Seq<ValueModel>)
    ensures
        ({
            let t = plan::tasks_of(line("status"@, args));
            &&& t.len() == 1
            &&& t[0] is Call
            &&& t[0]->Call_0 == "supervisor.getAllProcessInfo"@
            &&& t[0]->Call_1.len() == 0
            &&& args.len() == 0 || args[0] == "all"@ ==> printed(
                t[0],
                Ok(ValueModel::Array(items)),
            ) == ctl::status_lines(items, None)
            &&& args.len() > 0 && args[0] != "all"@ && ctl::any_wanted(items, Some(args[0]))
                ==> printed(t[0], Ok(ValueModel::Array(items))) == ctl::status_lines(
                items,
                Some(args[0]),
            )
            &&& args.len() > 0 && args[0] != "all"@ && !ctl::any_wanted(items, Some(args[0]))
                ==> printed(t[0], Ok(ValueModel::Array(items))) == args[0] + ": ERROR ("@
                + "no such process"@ + ")\n"@
        }),
{
    lemma_verbs();
    lemma_line("status"@, args);
}

/// The lines of a status, one behind another: a process has a line just if it
/// is asked for, by its name or its namespec. The line shows the namespec, the
/// state and the description, in columns.
pub proof fn law_status_lines(items: Seq<ValueModel>, v: ValueModel, want: Option<Seq<char>>)
    ensures
        ({
            let name = ctl::member_words(v, "name"@);
            let group = ctl::member_words(v, "group"@);
            let wanted = want is None || want->0 == name || want->0 == web::namespec(group, name);
            &&& ctl::status_lines(Seq::empty(), want).len() == 0
            &&& ctl::status_lines(items.push(v), want) == (if wanted {
                ctl::status_lines(items, want) + ctl::filled(web::namespec(group, name), 28)
                    + " "@ + ctl::filled(ctl::member_words(v, "statename"@), 10) + " "@
                    + ctl::member_words(v, "description"@) + "\n"@
            } else {
                ctl::status_lines(items, want)
            })
        }),
{
    let all = items.push(v);
    assert(all.drop_last() =~= items);
    assert(all.last() == v);
    let name = ctl::member_words(v, "name"@);
    let group = ctl::member_words(v, "group"@);
    let front = ctl::status_lines(items, want);
    assert(front + ctl::status_line(v) =~= front + ctl::filled(web::namespec(group, name), 28)
        + " "@ + ctl::filled(ctl::member_words(v, "statename"@), 10) + " "@ + ctl::member_words(
        v,
        "description"@,
    ) + "\n"@);
}

/// A column is filled up with spaces, and never cut.
pub proof fn law_columns(s: Seq<char>, width: nat)
    ensures
        ({
            let f = ctl::filled(s, width);
            &&& f.len() == (if s.len() < width {
                width
            } else {
                s.len()
            })
            &&& f.take(s.len() as int) == s
            &&& forall|i: int| s.len() <= i < f.len() ==> #[trigger] f[i] == ' '
        }),
{
    assert(ctl::filled(s, width).take(s.len() as int) =~= s);
}

/// A process of its own group is shown by its name, any other with its group.
pub proof fn law_namespecs(group: Seq<char>, name: Seq<char>)
    ensures
        web::namespec(name, name) == name,
        web::namespec(Seq::empty(), name) == name,
        group.len() > 0 && group != name ==> web::namespec(group, name) == group + ":"@ + name,
{
}

/// Commands about the daemon and its configuration, what the daemon does about
/// them, and what is said.
pub proof fn law_daemon_commands(
    args: Seq<Seq<char>>,
    s: SupervisorModel,
    epoch: i64,
    stops: Seq<LocalTime>,
    pid: i32,
)
    ensures
        ({
            let granted = PendingModel::Reply(
                Ok::<ValueModel, (i32, Seq<char>)>(ValueModel::Bool(true)),
            );
            let only = |verb: Seq<char>| plan::tasks_of(line(verb, args));
            let done = |verb: Seq<char>| asked(only(verb)[0], s, epoch, stops, pid);
            let truth = Ok::<ValueModel, ErrorModel>(ValueModel::Bool(true));
            &&& only("shutdown"@).len() == 1 && only("reload"@).len() == 1
            &&& done("shutdown"@) == (SupervisorModel { shutdown_requested: true, ..s }, granted)
            &&& done("reload"@) == (SupervisorModel { restart_requested: true, ..s }, granted)
            &&& printed(only("shutdown"@)[0], truth) == "Shut down\n"@
            &&& printed(only("reload"@)[0], truth) == "Restarted supervisord\n"@
            &&& only("version"@).len() == 1
            &&& done("version"@) == (
                s,
                PendingModel::Reply(
                    Ok::<ValueModel, (i32, Seq<char>)>(ValueModel::Str("0.1.0"@)),
                ),
            )
            &&& printed(only("version"@)[0], Ok(ValueModel::Str("0.1.0"@))) == "0.1.0"@ + "\n"@
            &&& only("reread"@).len() == 1 && only("update"@).len() == 1
            &&& done("reread"@) == (s, PendingModel::Reload)
            &&& done("update"@) == (s, PendingModel::Reload)
            &&& only("help"@) == seq![TaskModel::Usage]
        }),
{
    lemma_verbs();
    lemma_line("shutdown"@, args);
    lemma_line("reload"@, args);
    lemma_line("version"@, args);
    lemma_line("reread"@, args);
    lemma_line("update"@, args);
    lemma_line("help"@, args);
    let none = Seq::<ValueModel>::empty();
    rpc::laws::law_shutdown_and_restart_calls(s, none, epoch, stops, pid);
    rpc::laws::law_calls_about_the_daemon(s, none, epoch, stops, pid);
    rpc::laws::law_configuration_calls(s, Seq::empty(), epoch, stops, pid);
}

/// `pid` prints the pid of the daemon, or that of a process.
pub proof fn law_pid_command(
    args: Seq<Seq<char>>,
    s: SupervisorModel,
    epoch: i64,
    stops: Seq<LocalTime>,
    pid: i32,
    v: ValueModel,
)
    requires
        args.len() > 0,
    ensures
        ({
            let own = plan::tasks_of(line("pid"@, Seq::empty()));
            let of = plan::tasks_of(line("pid"@, args));
            &&& own.len() == 1 && of.len() == 1
            &&& asked(own[0], s, epoch, stops, pid) == (
                s,
                PendingModel::Reply(
                    Ok::<ValueModel, (i32, Seq<char>)>(ValueModel::Int(pid as int)),
                ),
            )
            &&& printed(own[0], Ok(ValueModel::Int(pid as int))) == number::int_text(pid as int)
                + "\n"@
            &&& of[0] is Call
            &&& of[0]->Call_0 == "supervisor.getProcessInfo"@
            &&& of[0]->Call_1 == seq![ValueModel::Str(args[0])]
            &&& printed(of[0], Ok(v)) == number::int_text(ctl::member_number(v, "pid"@)) + "\n"@
            &&& printed(of[0], Err(ErrorModel::Fault(10, Seq::empty()))) == args[0]
                + ": ERROR ("@ + "no such process"@ + ")\n"@
        }),
{
    lemma_verbs();
    lemma_line("pid"@, Seq::empty());
    lemma_line("pid"@, args);
    rpc::laws::law_calls_about_the_daemon(s, Seq::empty(), epoch, stops, pid);
}

/// `add` and `remove`: one call for each group, in order.
pub proof fn law_group_commands(names: Seq<Seq<char>>, k: int, v: ValueModel, why: Seq<char>)
    requires
        0 <= k < names.len(),
    ensures
        ({
            let add = plan::tasks_of(line("add"@, names));
            let remove = plan::tasks_of(line("remove"@, names));
            let fault = |code: i32| Err::<ValueModel, ErrorModel>(ErrorModel::Fault(code, why));
            &&& add.len() == names.len() && remove.len() == names.len()
            &&& add[k] is Call && remove[k] is Call
            &&& add[k]->Call_0 == "supervisor.addProcessGroup"@
            &&& remove[k]->Call_0 == "supervisor.removeProcessGroup"@
            &&& add[k]->Call_1 == seq![ValueModel::Str(names[k])]
            &&& remove[k]->Call_1 == seq![ValueModel::Str(names[k])]
            &&& printed(add[k], Ok(v)) == names[k] + ": "@ + "added process group"@ + "\n"@
            &&& printed(remove[k], Ok(v)) == names[k] + ": "@ + "removed process group"@ + "\n"@
            &&& printed(add[k], fault(90)) == "ERROR: process group already active\n"@
            &&& printed(add[k], fault(10)) == "ERROR: no such process/group: "@ + names[k]
                + "\n"@
            &&& printed(remove[k], fault(91)) == "ERROR: process/group still running: "@
                + names[k] + "\n"@
            &&& printed(remove[k], fault(10)) == "ERROR: no such process/group: "@ + names[k]
                + "\n"@
        }),
{
    lemma_verbs();
    lemma_line("add"@, names);
    lemma_line("remove"@, names);
}

/// `signal` sends the signal named first to each process named after it, or to
/// all; `clear` clears the logs of each, or of all.
pub proof fn law_signal_and_clear_commands(sig: Seq<char>, names: Seq<Seq<char>>, k: int)
    requires
        0 <= k < names.len(),
    ensures
        ({
            let signal = plan::tasks_of(line("signal"@, line(sig, names)));
            let clear = plan::tasks_of(line("clear"@, names));
            &&& !names.contains("all"@) ==> {
                &&& signal.len() == names.len() && clear.len() == names.len()
                &&& signal[k] == TaskModel::Call(
                    "supervisor.signalProcess"@,
                    seq![ValueModel::Str(names[k]), ValueModel::Str(sig)],
                    ReportModel::Named(names[k], "signalled"@),
                )
                &&& clear[k] == TaskModel::Call(
                    "supervisor.clearProcessLogs"@,
                    seq![ValueModel::Str(names[k])],
                    ReportModel::Named(names[k], "cleared"@),
                )
            }
            &&& names.contains("all"@) ==> {
                &&& signal == seq![
                    TaskModel::Call(
                        "supervisor.signalAllProcesses"@,
                        seq![ValueModel::Str(sig)],
                        ReportModel::Results("signalled"@),
                    ),
                ]
                &&& clear == seq![
                    TaskModel::Call(
                        "supervisor.clearAllProcessLogs"@,
                        Seq::empty(),
                        ReportModel::Cleared,
                    ),
                ]
            }
        }),
{
    lemma_verbs();
    lemma_line("signal"@, line(sig, names));
    lemma_line("clear"@, names);
    lemma_line(sig, names);
}

/// `fg` attaches to a process that runs, and to no other; `maintail` prints the
/// main log.
pub proof fn law_fg_and_maintail_commands(args: Seq<Seq<char>>, v: ValueModel, log: Seq<char>)
    requires
        args.len() > 0,
    ensures
        ({
            let fg = plan::tasks_of(line("fg"@, args));
            let log_tasks = plan::tasks_of(line("maintail"@, args));
            &&& fg.len() == 1
            &&& fg[0] is Call
            &&& fg[0]->Call_0 == "supervisor.getProcessInfo"@
            &&& fg[0]->Call_1 == seq![ValueModel::Str(args[0])]
            &&& ctl::member_number(v, "state"@) == 20 ==> answer::outcome_of(
                fg[0]->Call_2,
                Ok(v),
            ).more == seq![TaskModel::Foreground(args[0])]
            &&& ctl::member_number(v, "state"@) != 20 ==> answer::outcome_of(
                fg[0]->Call_2,
                Ok(v),
            ).more.len() == 0
            &&& log_tasks.len() == 1
            &&& log_tasks[0] is Call
            &&& log_tasks[0]->Call_0 == "supervisor.readLog"@
            &&& log_tasks[0]->Call_1 == seq![ValueModel::Int(0), ValueModel::Int(0)]
            &&& printed(log_tasks[0], Ok(ValueModel::Str(log))) == log
        }),
{
    lemma_verbs();
    lemma_line("fg"@, args);
    lemma_line("maintail"@, args);
}

/// Following the output of a process asks for what comes behind the offset, and
/// goes on where the answer says.
pub proof fn law_following(
    s: SupervisorModel,
    name: Seq<char>,
    line: Seq<char>,
    offset: int,
    epoch: i64,
    stops: Seq<LocalTime>,
    pid: i32,
    t: Seq<char>,
    next: int,
    over: bool,
)
    ensures
        ({
            let r = rpc::dispatched(
                s,
                "supervisor.tailProcessStdoutLog"@,
                plan::follow_params(name, offset),
                epoch,
                stops,
                pid,
            );
            &&& r.0 == s
            &&& r.1 is Read
            &&& r.1->Read_0.name == name
            &&& r.1->Read_0.channel is Stdout
            &&& r.1->Read_0.offset == offset
            &&& r.1->Read_0.length == 4096
            &&& r.1->Read_0.tail
            &&& answer::tail_parts(
                ValueModel::Array(
                    seq![ValueModel::Str(t), ValueModel::Int(next), ValueModel::Bool(over)],
                ),
            ) == Some((t, next))
            &&& plan::input_params(name, line) == seq![
                ValueModel::Str(name),
                ValueModel::Str(line),
            ]
        }),
{
    rpc::laws::law_log_calls(s, name, offset, 4096, epoch, stops, pid);
}

/// Commands that need a name say so when they get none, and do nothing else;
/// so does what is no command.
pub proof fn law_incomplete_commands(word: Seq<char>, sig: Seq<Seq<char>>)
    requires
        sig.len() == 1,
    ensures
        ({
            let none = Seq::<Seq<char>>::empty();
            let says = |verb: Seq<char>, args: Seq<Seq<char>>, s: Seq<char>|
                plan::tasks_of(line(verb, args)) == seq![TaskModel::Say(s)];
            &&& says("start"@, none, "Error: start requires a process name\n"@)
            &&& says("stop"@, none, "Error: stop requires a process name\n"@)
            &&& says("restart"@, none, "Error: restart requires a process name\n"@)
            &&& says("clear"@, none, "Error: clear requires a process name\n"@)
            &&& says("tail"@, none, "Error: tail requires a process name\n"@)
            &&& says("fg"@, none, "ERROR: no process name supplied\n"@)
            &&& says(
                "signal"@,
                sig,
                "Error: signal requires a signal name and a process name\n"@,
            )
            &&& says(seq!['x'] + word, none, "*** Unknown syntax: "@ + (seq!['x'] + word) + "\n"@)
        }),
{
    lemma_verbs();
    lemma_first_letters();
    let none = Seq::<Seq<char>>::empty();
    lemma_line("start"@, none);
    lemma_line("stop"@, none);
    lemma_line("restart"@, none);
    lemma_line("clear"@, none);
    lemma_line("tail"@, none);
    lemma_line("fg"@, none);
    lemma_line("signal"@, sig);
    lemma_line(seq!['x'] + word, none);
    assert((seq!['x'] + word)[0] == 'x');
}

proof fn lemma_first_letters()
    ensures
        "status"@[0] == 's',
        "start"@[0] == 's',
        "stop"@[0] == 's',
        "restart"@[0] == 'r',
        "clear"@[0] == 'c',
        "signal"@[0] == 's',
        "pid"@[0] == 'p',
        "fg"@[0] == 'f',
        "avail"@[0] == 'a',
        "tail"@[0] == 't',
        "reread"@[0] == 'r',
        "update"@[0] == 'u',
        "add"@[0] == 'a',
        "remove"@[0] == 'r',
        "maintail"@[0] == 'm',
        "version"@[0] == 'v',
        "shutdown"@[0] == 's',
        "reload"@[0] == 'r',
        "help"@[0] == 'h',
{
    reveal_strlit("status");
    reveal_strlit("start");
    reveal_strlit("stop");
    reveal_strlit("restart");
    reveal_strlit("clear");
    reveal_strlit("signal");
    reveal_strlit("pid");
    reveal_strlit("fg");
    reveal_strlit("avail");
    reveal_strlit("tail");
    reveal_strlit("reread");
    reveal_strlit("update");
    reveal_strlit("add");
    reveal_strlit("remove");
    reveal_strlit("maintail");
    reveal_strlit("version");
    reveal_strlit("shutdown");
    reveal_strlit("reload");
    reveal_strlit("help");
}

// ---------------------------------------------------------------------------
// Reports
// ---------------------------------------------------------------------------

/// What is said about an operation on one process: the word for it if it
/// succeeded, else why it did not.
pub proof fn law_named_report(name: Seq<char>, word: Seq<char>, v: ValueModel, code: i32, why: Seq<char>)
    ensures
        ({
            let report = ReportModel::Named(name, word);
            let good = answer::outcome_of(report, Ok(v));
            let bad = answer::outcome_of(report, Err(ErrorModel::Fault(code, why)));
            &&& good.text == name + ": "@ + word + "\n"@
            &&& good.more.len() == 0 && good.failure is None
            &&& bad.text == name + ": ERROR ("@ + (if code == 10 {
                "no such process"@
            } else if code == 11 {
                "bad signal"@
            } else if code == 20 {
                "no such file"@
            } else if code == 21 {
                "file is not executable"@
            } else if code == 50 {
                "spawn error"@
            } else if code == 60 {
                "already started"@
            } else if code == 70 {
                "not running"@
            } else {
                "error"@
            }) + ")\n"@
            &&& bad.more.len() == 0 && bad.failure is None
        }),
{
}

/// What is said about an operation on every process: a line for each, in order.
pub proof fn law_results_report(items: Seq<ValueModel>, v: ValueModel, word: Seq<char>)
    ensures
        ({
            let before = answer::outcome_of(
                ReportModel::Results(word),
                Ok(ValueModel::Array(items)),
            ).text;
            let after = answer::outcome_of(
                ReportModel::Results(word),
                Ok(ValueModel::Array(items.push(v))),
            ).text;
            let name = ctl::member_words(v, "name"@);
            let status = ctl::member_number(v, "status"@);
            &&& status == 80 ==> after == before + (name + ": "@ + word + "\n"@)
            &&& status == 60 ==> after == before + (name + ": ERROR ("@ + "already started"@
                + ")\n"@)
            &&& status == 70 ==> after == before + (name + ": ERROR ("@ + "not running"@ + ")\n"@)
            &&& status == 10 ==> after == before + (name + ": ERROR ("@ + "no such process"@
                + ")\n"@)
            &&& answer::outcome_of(
                ReportModel::Cleared,
                Ok(ValueModel::Array(items.push(v))),
            ).text == answer::outcome_of(ReportModel::Cleared, Ok(ValueModel::Array(items))).text
                + (name + ": "@ + "cleared"@ + "\n"@)
        }),
{
    assert(items.push(v).drop_last() =~= items);
}

/// What a reread says: every group that has come, changed or gone, or that
/// there is none.
pub proof fn law_reread_report(added: Seq<Seq<char>>, changed: Seq<Seq<char>>, removed: Seq<Seq<char>>)
    ensures
        ({
            let d = crate::config::difference::DiffModel { added, changed, removed };
            let said = answer::outcome_of(ReportModel::Reread, Ok(rpc::diff_value(d))).text;
            if added.len() == 0 && changed.len() == 0 && removed.len() == 0 {
                said == "No config updates to processes\n"@
            } else {
                said == ctl::labelled_lines(added, "available"@) + ctl::labelled_lines(
                    changed,
                    "changed"@,
                ) + ctl::labelled_lines(removed, "disappeared"@)
            }
        }),
{
    let d = crate::config::difference::DiffModel { added, changed, removed };
    rpc::laws::law_difference_is_understood(d);
}

/// Lines with a label: one for each name, in order.
pub proof fn law_labelled_lines(names: Seq<Seq<char>>, name: Seq<char>, label: Seq<char>)
    ensures
        ctl::labelled_lines(names.push(name), label) == ctl::labelled_lines(names, label) + (name
            + ": "@ + label + "\n"@),
        ctl::labelled_lines(Seq::empty(), label).len() == 0,
{
    assert(names.push(name).drop_last() =~= names);
}

/// An update does what the difference asks for, of the groups that were named,
/// or of all where none was.
pub proof fn law_update_report(
    d: crate::config::difference::DiffModel,
    filter: Seq<Seq<char>>,
    group: Seq<char>,
    word: Seq<char>,
)
    ensures
        answer::outcome_of(ReportModel::Update(filter), Ok(rpc::diff_value(d))).more
            == answer::update_tasks(d, filter),
        filter.len() == 0 ==> answer::in_filter(filter, group),
        filter.len() > 0 ==> (answer::in_filter(filter, group) <==> filter.contains(group)),
        plan::without_all(filter.push("all"@)) == plan::without_all(filter),
        word != "all"@ ==> plan::without_all(filter.push(word)) == plan::without_all(filter).push(
            word,
        ),
{
    rpc::laws::law_difference_is_understood(d);
    assert(filter.push("all"@).drop_last() =~= filter);
    assert(filter.push(word).drop_last() =~= filter);
}

/// A group that has gone is stopped, waited for and removed; one that has come
/// is added.
pub proof fn law_update_of_a_group(names: Seq<Seq<char>>, group: Seq<char>)
    ensures
        ({
            let all = Seq::<Seq<char>>::empty();
            let gone = answer::removed_tasks(names.push(group), all);
            let n = answer::removed_tasks(names, all).len() as int;
            &&& gone.len() == n + 4
            &&& gone.take(n) == answer::removed_tasks(names, all)
            &&& gone[n] == TaskModel::Call(
                "supervisor.stopProcessGroup"@,
                seq![ValueModel::Str(group)],
                ReportModel::Quiet,
            )
            &&& gone[n + 1] == TaskModel::AwaitGroup(group)
            &&& gone[n + 2] == TaskModel::Say(group + ": "@ + "stopped"@ + "\n"@)
            &&& gone[n + 3] == TaskModel::Call(
                "supervisor.removeProcessGroup"@,
                seq![ValueModel::Str(group)],
                ReportModel::UpdateRemoved(group),
            )
            &&& answer::added_tasks(names.push(group), all) == answer::added_tasks(names, all).push(
                TaskModel::Call(
                    "supervisor.addProcessGroup"@,
                    seq![ValueModel::Str(group)],
                    ReportModel::UpdateAdded(group),
                ),
            )
        }),
{
    let all = Seq::<Seq<char>>::empty();
    assert(names.push(group).drop_last() =~= names);
    let n = answer::removed_tasks(names, all).len() as int;
    assert(answer::removed_tasks(names.push(group), all).take(n) =~= answer::removed_tasks(
        names,
        all,
    ));
}

/// Which states count as stopped: those in which nothing runs.
pub proof fn law_settled(v: ValueModel)
    ensures
        answer::is_settled(v) <==> ctl::member_number(v, "state"@) == 0 || ctl::member_number(
            v,
            "state"@,
        ) == 100 || ctl::member_number(v, "state"@) == 200 || ctl::member_number(v, "state"@)
            == 1000,
{
}

/// What is said when the daemon cannot be reached, or something else goes
/// wrong.
pub proof fn law_failure_lines(socket: Seq<char>, why: Seq<char>, code: i32)
    ensures
        answer::failure_line(ErrorModel::Io(why), socket)
            == "supervisorctl: cannot reach supervisord at "@ + socket + " (is it running?)\n"@,
        answer::failure_line(ErrorModel::Protocol(why), socket) == "supervisorctl: "@ + (
        "protocol error: "@ + why) + "\n"@,
        answer::failure_line(ErrorModel::Fault(code, why), socket) == "supervisorctl: "@ + (
        "fault "@ + number::int_text(code as int) + ": "@ + why) + "\n"@,
{
}

/// A value as text and as a number: texts and numbers stand for themselves,
/// truth values for their words, and everything else for nothing.
pub proof fn law_values_as_words(
    t: Seq<char>,
    n: int,
    b: bool,
    items: Seq<ValueModel>,
    k: int,
    members: Seq<(Seq<char>, ValueModel)>,
    key: Seq<char>,
    v: ValueModel,
)
    ensures
        ctl::value_words(ValueModel::Str(t)) == t,
        ctl::value_words(ValueModel::Int(n)) == number::int_text(n),
        ctl::value_words(ValueModel::Bool(b)) == (if b {
            "true"@
        } else {
            "false"@
        }),
        ctl::value_number(ValueModel::Int(n)) == n,
        ctl::value_number(ValueModel::Str(t)) == 0,
        ctl::member_words(ValueModel::Struct(seq![(key, v)] + members), key) == ctl::value_words(v),
        ctl::member_number(ValueModel::Struct(seq![(key, v)] + members), key) == ctl::value_number(
            v,
        ),
        ctl::member_words(ValueModel::Struct(Seq::empty()), key).len() == 0,
        0 <= k < items.len() ==> ctl::word_list(ValueModel::Array(items))[k] == ctl::value_words(
            items[k],
        ),
        ctl::word_list(ValueModel::Array(items)).len() == items.len(),
{
    assert((seq![(key, v)] + members)[0] == (key, v));
}

/// A line of the shell: words, unless it is blank or ends the shell.
pub proof fn law_shell_lines(s: Seq<char>)
    ensures
        ({
            let w = text::words(s);
            &&& w.len() == 0 ==> plan::entry_of(s) is Blank
            &&& w.len() > 0 && (w[0] == "quit"@ || w[0] == "exit"@ || w[0] == "bye"@)
                ==> plan::entry_of(s) is Quit
            &&& w.len() > 0 && w[0] != "quit"@ && w[0] != "exit"@ && w[0] != "bye"@
                ==> plan::entry_of(s) == EntryModel::Command(w)
        }),
{
}

/// What is said during an update, and about logs and processes that are not
/// there.
pub proof fn law_other_reports(name: Seq<char>, v: ValueModel, t: Seq<char>, n: int, code: i32, why: Seq<char>)
    ensures
        ({
            let fault = Err::<ValueModel, ErrorModel>(ErrorModel::Fault(code, why));
            let said = |r: ReportModel, a: Result<ValueModel, ErrorModel>|
                answer::outcome_of(r, a).text;
            &&& said(ReportModel::UpdateRemoved(name), Ok(v)) == name + ": "@
                + "removed process group"@ + "\n"@
            &&& said(ReportModel::UpdateRemoved(name), fault) == name + ": "@
                + "has problems; not removing"@ + "\n"@
            &&& said(ReportModel::UpdateAdded(name), Ok(v)) == name + ": "@
                + "added process group"@ + "\n"@
            &&& answer::outcome_of(ReportModel::UpdateAdded(name), fault).failure == Some(
                ErrorModel::Fault(code, why),
            )
            &&& said(ReportModel::LogOf(name), fault) == name + ": ERROR ("@ + "no log file"@
                + ")\n"@
            &&& said(ReportModel::LogOf(name), Ok(ValueModel::Str(t))) == t
            &&& said(ReportModel::Text, Ok(ValueModel::Str(t))) == t
            &&& said(ReportModel::Line, Ok(ValueModel::Str(t))) == t + "\n"@
            &&& said(ReportModel::Number, Ok(ValueModel::Int(n))) == number::int_text(n) + "\n"@
            &&& said(ReportModel::Fixed(t), Ok(v)) == t
            &&& said(ReportModel::Quiet, Ok(v)).len() == 0
            &&& said(ReportModel::Quiet, fault).len() == 0
            &&& said(ReportModel::Attach(name), fault) == "ERROR: bad process name supplied\n"@
            &&& ctl::member_number(v, "state"@) != 20 ==> said(ReportModel::Attach(name), Ok(v))
                == "ERROR: process not running\n"@
            &&& ctl::member_number(v, "state"@) == 20 ==> said(ReportModel::Attach(name), Ok(v))
                == "==> Press Ctrl-D to exit <==\n"@
            &&& answer::outcome_of(ReportModel::Status(None), fault).failure == Some(
                ErrorModel::Fault(code, why),
            )
            &&& answer::outcome_of(ReportModel::Results(t), fault).failure == Some(
                ErrorModel::Fault(code, why),
            )
        }),
{
}

/// `avail` is another word for `tail`.
pub proof fn law_avail_command(args: Seq<Seq<char>>)
    ensures
        plan::tasks_of(line("avail"@, args)) == plan::tasks_of(line("tail"@, args)),
{
    lemma_verbs();
    lemma_line("avail"@, args);
    lemma_line("tail"@, args);
}

/// An answer that is no difference ends a reread and an update.
pub proof fn law_strange_differences(t: Seq<char>, filter: Seq<Seq<char>>)
    ensures
        ({
            let v = Ok::<ValueModel, ErrorModel>(ValueModel::Str(t));
            let e = Some(ErrorModel::Protocol("malformed reloadConfig result"@));
            &&& answer::outcome_of(ReportModel::Reread, v).failure == e
            &&& answer::outcome_of(ReportModel::Update(filter), v).failure == e
        }),
{
}

/// A failure ends the command, unless the report has words for it; a call that
/// succeeds ends none, and only some reports ask for more.
pub proof fn law_failures_end_commands(
    report: ReportModel,
    e: ErrorModel,
    code: i32,
    why: Seq<char>,
    v: ValueModel,
)
    ensures
        ({
            let ends = |f: ErrorModel|
                {
                    let o = answer::outcome_of(report, Err::<ValueModel, ErrorModel>(f));
                    o.text.len() == 0 && o.more.len() == 0 && o.failure == Some(f)
                };
            let fault = ErrorModel::Fault(code, why);
            let silent = report is Quiet || report is RestartAll;
            let done = answer::outcome_of(report, Ok::<ValueModel, ErrorModel>(v));
            let failed = answer::outcome_of(report, Err::<ValueModel, ErrorModel>(e));
            &&& !(e is Fault) && !silent && !(report is Attach) ==> ends(e)
            &&& (report is Text || report is Line || report is Number || report is Fixed
                || report is Status || report is Results || report is Cleared || report is Reread
                || report is Update || report is UpdateAdded) ==> ends(fault)
            &&& report is Added && code != 90 && code != 10 ==> ends(fault)
            &&& report is Removed && code != 91 && code != 10 ==> ends(fault)
            &&& silent || report is Attach ==> failed.failure is None && failed.more.len() == 0
            &&& silent ==> failed.text.len() == 0
            &&& !(report is Reread) && !(report is Update) ==> done.failure is None
            &&& !(report is RestartAll) && !(report is Attach) && !(report is Update)
                ==> done.more.len() == 0
        }),
{
}

} // verus!
