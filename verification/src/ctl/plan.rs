//! From a command line to the tasks it stands for.
use crate::ctl;
use crate::ctl::Report;
use crate::ctl::ReportModel;
use crate::ctl::Task;
use crate::ctl::TaskModel;
use crate::text;
use crate::xmlrpc;
use crate::xmlrpc::Value;
use crate::xmlrpc::ValueModel;
use vstd::prelude::*;
use vstd::slice::slice_subrange;

verus! {

// ---------------------------------------------------------------------------
// The model
// ---------------------------------------------------------------------------

/// A call without parameters.
pub open spec fn bare_call(method: Seq<char>, report: ReportModel) -> TaskModel {
    TaskModel::Call(method, Seq::empty(), report)
}

/// A call with one text as its parameter.
pub open spec fn text_call(method: Seq<char>, param: Seq<char>, report: ReportModel) -> TaskModel {
    TaskModel::Call(method, seq![ValueModel::Str(param)], report)
}

/// A call that reads a log from its beginning to its end.
pub open spec fn log_call(method: Seq<char>, name: Seq<char>) -> TaskModel {
    TaskModel::Call(
        method,
        seq![ValueModel::Str(name), ValueModel::Int(0), ValueModel::Int(0)],
        ReportModel::LogOf(name),
    )
}

/// The same call for every name, each reported by the word.
pub open spec fn named_calls(method: Seq<char>, names: Seq<Seq<char>>, word: Seq<char>) -> Seq<
    TaskModel,
> {
    names.map_values(|n: Seq<char>| text_call(method, n, ReportModel::Named(n, word)))
}

/// The call that sends a signal, for every name.
pub open spec fn signal_calls(sig: Seq<char>, names: Seq<Seq<char>>) -> Seq<TaskModel> {
    names.map_values(
        |n: Seq<char>|
            TaskModel::Call(
                "supervisor.signalProcess"@,
                seq![ValueModel::Str(n), ValueModel::Str(sig)],
                ReportModel::Named(n, "signalled"@),
            ),
    )
}

/// A command that needs a name and does the same for each, or for all at once.
pub open spec fn each_or_all(
    args: Seq<Seq<char>>,
    complaint: Seq<char>,
    all: TaskModel,
    each: Seq<TaskModel>,
) -> Seq<TaskModel> {
    if args.len() == 0 {
        seq![TaskModel::Say(complaint)]
    } else if args.contains("all"@) {
        seq![all]
    } else {
        each
    }
}

/// Stopping processes one after another, each until it has stopped.
pub open spec fn stop_tasks(names: Seq<Seq<char>>) -> Seq<TaskModel>
    decreases names.len(),
{
    if names.len() == 0 {
        Seq::empty()
    } else {
        let n = names.last();
        stop_tasks(names.drop_last()).push(
            text_call("supervisor.stopProcess"@, n, ReportModel::Quiet),
        ).push(TaskModel::Await(n)).push(TaskModel::Say(ctl::done_line(n, "stopped"@)))
    }
}

/// Restarting processes: all of them are stopped, and then started.
pub open spec fn restart_tasks(names: Seq<Seq<char>>) -> Seq<TaskModel> {
    stop_tasks(names) + named_calls("supervisor.startProcess"@, names, "started"@)
}

/// Adding groups.
pub open spec fn add_tasks(names: Seq<Seq<char>>) -> Seq<TaskModel> {
    names.map_values(
        |n: Seq<char>| text_call("supervisor.addProcessGroup"@, n, ReportModel::Added(n)),
    )
}

/// Removing groups.
pub open spec fn remove_tasks(names: Seq<Seq<char>>) -> Seq<TaskModel> {
    names.map_values(
        |n: Seq<char>| text_call("supervisor.removeProcessGroup"@, n, ReportModel::Removed(n)),
    )
}

/// The arguments that name something, as opposed to everything.
pub open spec fn without_all(args: Seq<Seq<char>>) -> Seq<Seq<char>>
    decreases args.len(),
{
    if args.len() == 0 {
        Seq::empty()
    } else {
        let front = without_all(args.drop_last());
        if args.last() == "all"@ {
            front
        } else {
            front.push(args.last())
        }
    }
}

/// The status command.
pub open spec fn status_tasks(args: Seq<Seq<char>>) -> Seq<TaskModel> {
    seq![
        bare_call(
            "supervisor.getAllProcessInfo"@,
            ReportModel::Status(
                if args.len() == 0 || args[0] == "all"@ {
                    None
                } else {
                    Some(args[0])
                },
            ),
        ),
    ]
}

/// The signal command.
pub open spec fn signal_tasks(args: Seq<Seq<char>>) -> Seq<TaskModel> {
    if args.len() < 2 {
        seq![TaskModel::Say("Error: signal requires a signal name and a process name\n"@)]
    } else if args.skip(1).contains("all"@) {
        seq![
            text_call(
                "supervisor.signalAllProcesses"@,
                args[0],
                ReportModel::Results("signalled"@),
            ),
        ]
    } else {
        signal_calls(args[0], args.skip(1))
    }
}

/// The tail command.
pub open spec fn tail_tasks(args: Seq<Seq<char>>) -> Seq<TaskModel> {
    if args.len() == 0 {
        seq![TaskModel::Say("Error: tail requires a process name\n"@)]
    } else if args.contains("stderr"@) {
        seq![log_call("supervisor.readProcessStderrLog"@, args[0])]
    } else {
        seq![log_call("supervisor.readProcessStdoutLog"@, args[0])]
    }
}

/// The pid command.
pub open spec fn pid_tasks(args: Seq<Seq<char>>) -> Seq<TaskModel> {
    if args.len() == 0 {
        seq![bare_call("supervisor.getPID"@, ReportModel::Number)]
    } else {
        seq![text_call("supervisor.getProcessInfo"@, args[0], ReportModel::PidOf(args[0]))]
    }
}

/// The fg command.
pub open spec fn attach_tasks(args: Seq<Seq<char>>) -> Seq<TaskModel> {
    if args.len() == 0 {
        seq![TaskModel::Say("ERROR: no process name supplied\n"@)]
    } else {
        seq![text_call("supervisor.getProcessInfo"@, args[0], ReportModel::Attach(args[0]))]
    }
}

/// The tasks of a command that is about processes.
pub open spec fn process_tasks(verb: Seq<char>, args: Seq<Seq<char>>) -> Option<Seq<TaskModel>> {
    if verb == "status"@ {
        Some(status_tasks(args))
    } else if verb == "start"@ {
        Some(
            each_or_all(
                args,
                "Error: start requires a process name\n"@,
                bare_call("supervisor.startAllProcesses"@, ReportModel::Results("done"@)),
                named_calls("supervisor.startProcess"@, args, "started"@),
            ),
        )
    } else if verb == "stop"@ {
        Some(
            each_or_all(
                args,
                "Error: stop requires a process name\n"@,
                bare_call("supervisor.stopAllProcesses"@, ReportModel::Results("done"@)),
                named_calls("supervisor.stopProcess"@, args, "stopped"@),
            ),
        )
    } else if verb == "restart"@ {
        Some(
            each_or_all(
                args,
                "Error: restart requires a process name\n"@,
                bare_call("supervisor.getAllProcessInfo"@, ReportModel::RestartAll),
                restart_tasks(args),
            ),
        )
    } else if verb == "clear"@ {
        Some(
            each_or_all(
                args,
                "Error: clear requires a process name\n"@,
                bare_call("supervisor.clearAllProcessLogs"@, ReportModel::Cleared),
                named_calls("supervisor.clearProcessLogs"@, args, "cleared"@),
            ),
        )
    } else if verb == "signal"@ {
        Some(signal_tasks(args))
    } else if verb == "pid"@ {
        Some(pid_tasks(args))
    } else if verb == "fg"@ {
        Some(attach_tasks(args))
    } else if verb == "avail"@ || verb == "tail"@ {
        Some(tail_tasks(args))
    } else {
        None
    }
}

/// The tasks of a command that is about the supervisor and its configuration.
pub open spec fn supervisor_tasks(verb: Seq<char>, args: Seq<Seq<char>>) -> Seq<TaskModel> {
    if verb == "reread"@ {
        seq![bare_call("supervisor.reloadConfig"@, ReportModel::Reread)]
    } else if verb == "update"@ {
        seq![bare_call("supervisor.reloadConfig"@, ReportModel::Update(without_all(args)))]
    } else if verb == "add"@ {
        add_tasks(args)
    } else if verb == "remove"@ {
        remove_tasks(args)
    } else if verb == "maintail"@ {
        seq![
            TaskModel::Call(
                "supervisor.readLog"@,
                seq![ValueModel::Int(0), ValueModel::Int(0)],
                ReportModel::Text,
            ),
        ]
    } else if verb == "version"@ {
        seq![bare_call("supervisor.getSupervisorVersion"@, ReportModel::Line)]
    } else if verb == "shutdown"@ {
        seq![bare_call("supervisor.shutdown"@, ReportModel::Fixed("Shut down\n"@))]
    } else if verb == "reload"@ {
        seq![bare_call("supervisor.restart"@, ReportModel::Fixed("Restarted supervisord\n"@))]
    } else if verb == "help"@ {
        seq![TaskModel::Usage]
    } else {
        seq![TaskModel::Say("*** Unknown syntax: "@ + verb + "\n"@)]
    }
}

/// The tasks of a command line.
pub open spec fn tasks_of(argv: Seq<Seq<char>>) -> Seq<TaskModel> {
    match process_tasks(argv[0], argv.skip(1)) {
        Some(tasks) => tasks,
        None => supervisor_tasks(argv[0], argv.skip(1)),
    }
}

// ---------------------------------------------------------------------------
// Execution
// ---------------------------------------------------------------------------

/// A list of one task.
fn only(t: Task) -> (r: Vec<Task>)
    ensures
        ctl::task_list(r@) == seq![t@],
{
    let r: Vec<Task> = vec![t];
    proof {
        assert(ctl::task_list(r@) =~= seq![t@]);
    }
    r
}

/// A task that prints a text.
fn say(s: &str) -> (r: Task)
    ensures
        r@ == TaskModel::Say(s@),
{
    Task::Say(s.to_string())
}

/// A call without parameters.
fn call_bare(method: &str, report: Report) -> (r: Task)
    ensures
        r@ == bare_call(method@, report@),
{
    let params: Vec<Value> = Vec::new();
    proof {
        assert(xmlrpc::value_models(params@) =~= Seq::<ValueModel>::empty());
    }
    Task::Call(method.to_string(), params, report)
}

/// A call with one text as its parameter.
pub fn call_text(method: &str, param: &str, report: Report) -> (r: Task)
    ensures
        r@ == text_call(method@, param@, report@),
{
    let params: Vec<Value> = vec![Value::Str(param.to_string())];
    proof {
        xmlrpc::lemma_value_models(params@);
        assert(xmlrpc::value_models(params@) =~= seq![ValueModel::Str(param@)]);
    }
    Task::Call(method.to_string(), params, report)
}

/// A call that reads a log from its beginning to its end.
fn call_log(method: &str, name: &str) -> (r: Task)
    ensures
        r@ == log_call(method@, name@),
{
    let params: Vec<Value> = vec![Value::Str(name.to_string()), Value::Int(0), Value::Int(0)];
    proof {
        xmlrpc::lemma_value_models(params@);
        assert(xmlrpc::value_models(params@) =~= seq![
            ValueModel::Str(name@),
            ValueModel::Int(0),
            ValueModel::Int(0),
        ]);
    }
    Task::Call(method.to_string(), params, Report::LogOf(name.to_string()))
}

/// Whether a list of arguments holds a word.
fn holds(args: &[String], word: &str) -> (r: bool)
    ensures
        r == text::texts(args@).contains(word@),
{
    let ghost all = text::texts(args@);
    let mut i: usize = 0;
    while i < args.len()
        invariant
            i <= args@.len(),
            all == text::texts(args@),
            forall|k: int| 0 <= k < i ==> #[trigger] all[k] != word@,
        decreases args@.len() - i,
    {
        if text::same(args[i].as_str(), word) {
            proof {
                assert(all[i as int] == word@);
            }
            return true;
        }
        i = i + 1;
    }
    false
}

/// The same call for every name, each reported by the word.
pub fn calls_for(method: &str, names: &[String], word: &str) -> (r: Vec<Task>)
    ensures
        ctl::task_list(r@) == named_calls(method@, text::texts(names@), word@),
{
    let mut r: Vec<Task> = Vec::new();
    let mut i: usize = 0;
    while i < names.len()
        invariant
            i <= names@.len(),
            r@.len() == i,
            forall|k: int|
                0 <= k < i ==> (#[trigger] r@[k])@ == text_call(
                    method@,
                    names@[k]@,
                    ReportModel::Named(names@[k]@, word@),
                ),
        decreases names@.len() - i,
    {
        let report = Report::Named(names[i].clone(), word.to_string());
        r.push(call_text(method, names[i].as_str(), report));
        i = i + 1;
    }
    proof {
        assert(ctl::task_list(r@) =~= named_calls(method@, text::texts(names@), word@));
    }
    r
}

/// The call that sends a signal, for every name.
fn calls_signal(sig: &str, names: &[String]) -> (r: Vec<Task>)
    ensures
        ctl::task_list(r@) == signal_calls(sig@, text::texts(names@)),
{
    let mut r: Vec<Task> = Vec::new();
    let mut i: usize = 0;
    while i < names.len()
        invariant
            i <= names@.len(),
            r@.len() == i,
            forall|k: int|
                0 <= k < i ==> (#[trigger] r@[k])@ == signal_calls(
                    sig@,
                    text::texts(names@),
                )[k],
        decreases names@.len() - i,
    {
        let params: Vec<Value> = vec![
            Value::Str(names[i].clone()),
            Value::Str(sig.to_string()),
        ];
        proof {
            xmlrpc::lemma_value_models(params@);
            assert(xmlrpc::value_models(params@) =~= seq![
                ValueModel::Str(names@[i as int]@),
                ValueModel::Str(sig@),
            ]);
        }
        r.push(
            Task::Call(
                "supervisor.signalProcess".to_string(),
                params,
                Report::Named(names[i].clone(), "signalled".to_string()),
            ),
        );
        i = i + 1;
    }
    proof {
        assert(ctl::task_list(r@) =~= signal_calls(sig@, text::texts(names@)));
    }
    r
}

/// Restarting processes.
pub fn restart_each(names: &[String]) -> (r: Vec<Task>)
    ensures
        ctl::task_list(r@) == restart_tasks(text::texts(names@)),
{
    let ghost all = text::texts(names@);
    let mut r: Vec<Task> = Vec::new();
    let mut i: usize = 0;
    proof {
        assert(ctl::task_list(r@) =~= stop_tasks(all.take(0)));
    }
    while i < names.len()
        invariant
            i <= names@.len(),
            all == text::texts(names@),
            ctl::task_list(r@) == stop_tasks(all.take(i as int)),
        decreases names@.len() - i,
    {
        let name = names[i].as_str();
        let ghost before = r@;
        proof {
            let t = all.take(i as int + 1);
            assert(t.drop_last() =~= all.take(i as int));
            assert(t.last() == name@);
        }
        r.push(call_text("supervisor.stopProcess", name, Report::Quiet));
        r.push(Task::Await(name.to_string()));
        let mut line = name.to_string();
        line.append(": ");
        line.append("stopped");
        line.append("\n");
        r.push(Task::Say(line));
        i = i + 1;
        proof {
            assert(ctl::task_list(r@) =~= stop_tasks(all.take(i as int)));
        }
    }
    let mut starts = calls_for("supervisor.startProcess", names, "started");
    let ghost stops = r@;
    let ghost more = starts@;
    r.append(&mut starts);
    proof {
        assert(all.take(i as int) =~= all);
        assert(ctl::task_list(r@) =~= ctl::task_list(stops) + ctl::task_list(more));
    }
    r
}

/// Adding groups.
fn add_each(names: &[String]) -> (r: Vec<Task>)
    ensures
        ctl::task_list(r@) == add_tasks(text::texts(names@)),
{
    let mut r: Vec<Task> = Vec::new();
    let mut i: usize = 0;
    while i < names.len()
        invariant
            i <= names@.len(),
            r@.len() == i,
            forall|k: int|
                0 <= k < i ==> (#[trigger] r@[k])@ == add_tasks(text::texts(names@))[k],
        decreases names@.len() - i,
    {
        r.push(
            call_text(
                "supervisor.addProcessGroup",
                names[i].as_str(),
                Report::Added(names[i].clone()),
            ),
        );
        i = i + 1;
    }
    proof {
        assert(ctl::task_list(r@) =~= add_tasks(text::texts(names@)));
    }
    r
}

/// Removing groups.
fn remove_each(names: &[String]) -> (r: Vec<Task>)
    ensures
        ctl::task_list(r@) == remove_tasks(text::texts(names@)),
{
    let mut r: Vec<Task> = Vec::new();
    let mut i: usize = 0;
    while i < names.len()
        invariant
            i <= names@.len(),
            r@.len() == i,
            forall|k: int|
                0 <= k < i ==> (#[trigger] r@[k])@ == remove_tasks(text::texts(names@))[k],
        decreases names@.len() - i,
    {
        r.push(
            call_text(
                "supervisor.removeProcessGroup",
                names[i].as_str(),
                Report::Removed(names[i].clone()),
            ),
        );
        i = i + 1;
    }
    proof {
        assert(ctl::task_list(r@) =~= remove_tasks(text::texts(names@)));
    }
    r
}

/// The arguments that name something, as opposed to everything.
fn drop_all(args: &[String]) -> (r: Vec<String>)
    ensures
        text::texts(r@) == without_all(text::texts(args@)),
{
    let ghost all = text::texts(args@);
    let mut r: Vec<String> = Vec::new();
    let mut i: usize = 0;
    proof {
        assert(text::texts(r@) =~= without_all(all.take(0)));
    }
    while i < args.len()
        invariant
            i <= args@.len(),
            all == text::texts(args@),
            text::texts(r@) == without_all(all.take(i as int)),
        decreases args@.len() - i,
    {
        proof {
            let t = all.take(i as int + 1);
            assert(t.drop_last() =~= all.take(i as int));
            assert(t.last() == args@[i as int]@);
        }
        if !text::same(args[i].as_str(), "all") {
            let ghost before = r@;
            r.push(args[i].clone());
            proof {
                assert(text::texts(r@) =~= text::texts(before).push(args@[i as int]@));
            }
        }
        i = i + 1;
    }
    proof {
        assert(all.take(i as int) =~= all);
    }
    r
}

/// The status command.
fn plan_status(args: &[String]) -> (r: Vec<Task>)
    ensures
        ctl::task_list(r@) == status_tasks(text::texts(args@)),
{
    let want: Option<String> = if args.len() == 0 || text::same(args[0].as_str(), "all") {
        None
    } else {
        Some(args[0].clone())
    };
    only(call_bare("supervisor.getAllProcessInfo", Report::Status(want)))
}

/// The signal command.
fn plan_signal(args: &[String]) -> (r: Vec<Task>)
    ensures
        ctl::task_list(r@) == signal_tasks(text::texts(args@)),
{
    if args.len() < 2 {
        return only(say("Error: signal requires a signal name and a process name\n"));
    }
    let names = slice_subrange(args, 1, args.len());
    proof {
        assert(text::texts(names@) =~= text::texts(args@).skip(1));
    }
    if holds(names, "all") {
        let report = Report::Results("signalled".to_string());
        only(call_text("supervisor.signalAllProcesses", args[0].as_str(), report))
    } else {
        calls_signal(args[0].as_str(), names)
    }
}

/// The tail command.
fn plan_tail(args: &[String]) -> (r: Vec<Task>)
    ensures
        ctl::task_list(r@) == tail_tasks(text::texts(args@)),
{
    if args.len() == 0 {
        only(say("Error: tail requires a process name\n"))
    } else if holds(args, "stderr") {
        only(call_log("supervisor.readProcessStderrLog", args[0].as_str()))
    } else {
        only(call_log("supervisor.readProcessStdoutLog", args[0].as_str()))
    }
}

/// The pid command.
fn plan_pid(args: &[String]) -> (r: Vec<Task>)
    ensures
        ctl::task_list(r@) == pid_tasks(text::texts(args@)),
{
    if args.len() == 0 {
        only(call_bare("supervisor.getPID", Report::Number))
    } else {
        let report = Report::PidOf(args[0].clone());
        only(call_text("supervisor.getProcessInfo", args[0].as_str(), report))
    }
}

/// The fg command.
fn plan_attach(args: &[String]) -> (r: Vec<Task>)
    ensures
        ctl::task_list(r@) == attach_tasks(text::texts(args@)),
{
    if args.len() == 0 {
        only(say("ERROR: no process name supplied\n"))
    } else {
        let report = Report::Attach(args[0].clone());
        only(call_text("supervisor.getProcessInfo", args[0].as_str(), report))
    }
}

/// The tasks of a command that is about processes.
fn plan_process(verb: &str, args: &[String]) -> (r: Option<Vec<Task>>)
    ensures
        match (r, process_tasks(verb@, text::texts(args@))) {
            (Some(v), Some(t)) => ctl::task_list(v@) == t,
            (None, None) => true,
            _ => false,
        },
{
    if text::same(verb, "status") {
        Some(plan_status(args))
    } else if text::same(verb, "start") {
        if args.len() == 0 {
            Some(only(say("Error: start requires a process name\n")))
        } else if holds(args, "all") {
            let report = Report::Results("done".to_string());
            Some(only(call_bare("supervisor.startAllProcesses", report)))
        } else {
            Some(calls_for("supervisor.startProcess", args, "started"))
        }
    } else if text::same(verb, "stop") {
        if args.len() == 0 {
            Some(only(say("Error: stop requires a process name\n")))
        } else if holds(args, "all") {
            let report = Report::Results("done".to_string());
            Some(only(call_bare("supervisor.stopAllProcesses", report)))
        } else {
            Some(calls_for("supervisor.stopProcess", args, "stopped"))
        }
    } else if text::same(verb, "restart") {
        if args.len() == 0 {
            Some(only(say("Error: restart requires a process name\n")))
        } else if holds(args, "all") {
            Some(only(call_bare("supervisor.getAllProcessInfo", Report::RestartAll)))
        } else {
            Some(restart_each(args))
        }
    } else if text::same(verb, "clear") {
        if args.len() == 0 {
            Some(only(say("Error: clear requires a process name\n")))
        } else if holds(args, "all") {
            Some(only(call_bare("supervisor.clearAllProcessLogs", Report::Cleared)))
        } else {
            Some(calls_for("supervisor.clearProcessLogs", args, "cleared"))
        }
    } else if text::same(verb, "signal") {
        Some(plan_signal(args))
    } else if text::same(verb, "pid") {
        Some(plan_pid(args))
    } else if text::same(verb, "fg") {
        Some(plan_attach(args))
    } else if text::same(verb, "avail") || text::same(verb, "tail") {
        Some(plan_tail(args))
    } else {
        None
    }
}

/// The tasks of a command that is about the supervisor and its configuration.
fn plan_supervisor(verb: &str, args: &[String]) -> (r: Vec<Task>)
    ensures
        ctl::task_list(r@) == supervisor_tasks(verb@, text::texts(args@)),
{
    if text::same(verb, "reread") {
        only(call_bare("supervisor.reloadConfig", Report::Reread))
    } else if text::same(verb, "update") {
        only(call_bare("supervisor.reloadConfig", Report::Update(drop_all(args))))
    } else if text::same(verb, "add") {
        add_each(args)
    } else if text::same(verb, "remove") {
        remove_each(args)
    } else if text::same(verb, "maintail") {
        let params: Vec<Value> = vec![Value::Int(0), Value::Int(0)];
        proof {
            xmlrpc::lemma_value_models(params@);
            assert(xmlrpc::value_models(params@) =~= seq![ValueModel::Int(0), ValueModel::Int(0)]);
        }
        only(Task::Call("supervisor.readLog".to_string(), params, Report::Text))
    } else if text::same(verb, "version") {
        only(call_bare("supervisor.getSupervisorVersion", Report::Line))
    } else if text::same(verb, "shutdown") {
        only(call_bare("supervisor.shutdown", Report::Fixed("Shut down\n".to_string())))
    } else if text::same(verb, "reload") {
        only(call_bare("supervisor.restart", Report::Fixed("Restarted supervisord\n".to_string())))
    } else if text::same(verb, "help") {
        only(Task::Usage)
    } else {
        let mut line = "*** Unknown syntax: ".to_string();
        line.append(verb);
        line.append("\n");
        only(Task::Say(line))
    }
}

/// The tasks of a command line: a verb and its arguments.
pub fn plan(argv: &[String]) -> (r: Vec<Task>)
    requires
        argv@.len() > 0,
    ensures
        ctl::task_list(r@) == tasks_of(text::texts(argv@)),
{
    let verb = argv[0].as_str();
    let args = slice_subrange(argv, 1, argv.len());
    proof {
        assert(text::texts(args@) =~= text::texts(argv@).skip(1));
        assert(text::texts(argv@)[0] == verb@);
    }
    match plan_process(verb, args) {
        Some(tasks) => tasks,
        None => plan_supervisor(verb, args),
    }
}

/// The parameters of a call for the output of a process from `offset` on.
pub open spec fn follow_params(name: Seq<char>, offset: int) -> Seq<ValueModel> {
    seq![ValueModel::Str(name), ValueModel::Int(offset), ValueModel::Int(4096)]
}

/// The parameters of a call that hands a line to a process.
pub open spec fn input_params(name: Seq<char>, line: Seq<char>) -> Seq<ValueModel> {
    seq![ValueModel::Str(name), ValueModel::Str(line)]
}

/// The call that follows the output of a process from `offset` on.
pub fn follow_call(name: &str, offset: i64) -> (r: (&'static str, Vec<Value>))
    ensures
        r.0@ == "supervisor.tailProcessStdoutLog"@,
        xmlrpc::value_models(r.1@) == follow_params(name@, offset as int),
{
    let params: Vec<Value> = vec![
        Value::Str(name.to_string()),
        Value::Int(offset),
        Value::Int(4096),
    ];
    proof {
        xmlrpc::lemma_value_models(params@);
        assert(xmlrpc::value_models(params@) =~= follow_params(name@, offset as int));
    }
    ("supervisor.tailProcessStdoutLog", params)
}

/// The call that hands a line to a process.
pub fn input_call(name: &str, line: &str) -> (r: (&'static str, Vec<Value>))
    ensures
        r.0@ == "supervisor.sendProcessStdin"@,
        xmlrpc::value_models(r.1@) == input_params(name@, line@),
{
    let params: Vec<Value> = vec![Value::Str(name.to_string()), Value::Str(line.to_string())];
    proof {
        xmlrpc::lemma_value_models(params@);
        assert(xmlrpc::value_models(params@) =~= input_params(name@, line@));
    }
    ("supervisor.sendProcessStdin", params)
}

/// A line of the interactive shell.
#[derive(Debug, PartialEq)]
pub enum Entry {
    /// There is nothing on it.
    Blank,
    /// It ends the shell.
    Quit,
    /// It is a command.
    Command(Vec<String>),
}

/// The mathematical content of an [`Entry`].
pub enum EntryModel {
    Blank,
    Quit,
    Command(Seq<Seq<char>>),
}

impl View for Entry {
    type V = EntryModel;

    open spec fn view(&self) -> EntryModel {
        match self {
            Entry::Blank => EntryModel::Blank,
            Entry::Quit => EntryModel::Quit,
            Entry::Command(argv) => EntryModel::Command(text::texts(argv@)),
        }
    }
}

/// What a line of the interactive shell says.
pub open spec fn entry_of(line: Seq<char>) -> EntryModel {
    let w = text::words(line);
    if w.len() == 0 {
        EntryModel::Blank
    } else if w[0] == "quit"@ || w[0] == "exit"@ || w[0] == "bye"@ {
        EntryModel::Quit
    } else {
        EntryModel::Command(w)
    }
}

/// Reads a line of the interactive shell.
pub fn read_entry(line: &str) -> (r: Entry)
    ensures
        r@ == entry_of(line@),
{
    let chars = text::chars_of(line);
    let parts = text::split_words(chars.as_slice());
    let mut argv: Vec<String> = Vec::new();
    let mut i: usize = 0;
    while i < parts.len()
        invariant
            i <= parts@.len(),
            argv@.len() == i,
            forall|k: int| 0 <= k < i ==> (#[trigger] argv@[k])@ == parts@[k]@,
        decreases parts@.len() - i,
    {
        argv.push(text::string_of(parts[i].as_slice()));
        i = i + 1;
    }
    proof {
        assert(text::texts(argv@) =~= text::char_lists(parts@));
    }
    if argv.len() == 0 {
        return Entry::Blank;
    }
    proof {
        assert(text::texts(argv@)[0] == argv@[0]@);
    }
    let verb = argv[0].as_str();
    if text::same(verb, "quit") || text::same(verb, "exit") || text::same(verb, "bye") {
        Entry::Quit
    } else {
        Entry::Command(argv)
    }
}

} // verus!
