use supervisor::control::ClientError;
use supervisor::ctl::answer::failure_message;
use supervisor::ctl::answer::read_tail;
use supervisor::ctl::answer::report;
use supervisor::ctl::answer::group_settled;
use supervisor::ctl::answer::group_wait_is_over;
use supervisor::ctl::answer::settled;
use supervisor::ctl::answer::wait_is_over;
use supervisor::ctl::plan::follow_call;
use supervisor::ctl::plan::input_call;
use supervisor::ctl::plan::plan;
use supervisor::ctl::plan::read_entry;
use supervisor::ctl::plan::Entry;
use supervisor::ctl::Report;
use supervisor::ctl::Task;
use supervisor::ctl::WAIT_LIMIT;
use supervisor::ctl::WAIT_PAUSE;
use supervisor::xmlrpc::Value;

fn text(s: &str) -> Value {
    Value::Str(s.to_string())
}

fn fault(code: i32) -> Result<Value, ClientError> {
    Err(ClientError::Fault(code, "why".to_string()))
}

fn lost() -> Result<Value, ClientError> {
    Err(ClientError::Io("gone".to_string()))
}

fn tasks(line: &str) -> Vec<Task> {
    let argv: Vec<String> = line.split(' ').map(|s| s.to_string()).collect();
    plan(argv.as_slice())
}

/// The calls of a list of tasks: the method and the first parameter, if any.
fn calls(tasks: &[Task]) -> Vec<String> {
    let mut out = Vec::new();
    for t in tasks {
        match t {
            Task::Call(m, p, _) => {
                let name = m.strip_prefix("supervisor.").unwrap();
                match p.first() {
                    Some(v) => match v {
                        Value::Str(s) => out.push(format!("{name} {s}")),
                        _ => out.push(format!("{name} #")),
                    },
                    None => out.push(name.to_string()),
                }
            }
            Task::Say(s) => out.push(format!("say {}", s.trim_end())),
            Task::Await(n) => out.push(format!("await {n}")),
            Task::AwaitGroup(g) => out.push(format!("await group {g}")),
            Task::Foreground(n) => out.push(format!("fg {n}")),
            Task::Usage => out.push("usage".to_string()),
        }
    }
    out
}

/// What the answer to the only call of a command prints.
fn says(line: &str, answer: Result<Value, ClientError>) -> String {
    let list = tasks(line);
    assert_eq!(list.len(), 1);
    match &list[0] {
        Task::Call(_, _, how) => {
            let o = report(how, answer);
            assert!(o.failure.is_none());
            o.text
        }
        _ => panic!("a call"),
    }
}

fn info(name: &str, group: &str, state: i64) -> Value {
    Value::Struct(vec![
        ("name".to_string(), text(name)),
        ("group".to_string(), text(group)),
        ("state".to_string(), Value::Int(state)),
        ("statename".to_string(), text("RUNNING")),
        ("description".to_string(), text("pid 7")),
        ("pid".to_string(), Value::Int(7)),
    ])
}

fn result(name: &str, status: i64) -> Value {
    Value::Struct(vec![
        ("name".to_string(), text(name)),
        ("status".to_string(), Value::Int(status)),
    ])
}

#[test]
fn commands_become_calls() {
    assert_eq!(calls(&tasks("start a b")), vec!["startProcess a", "startProcess b"]);
    assert_eq!(calls(&tasks("start a all")), vec!["startAllProcesses"]);
    assert_eq!(calls(&tasks("stop a")), vec!["stopProcess a"]);
    assert_eq!(calls(&tasks("stop all")), vec!["stopAllProcesses"]);
    assert_eq!(
        calls(&tasks("restart a b")),
        vec![
            "stopProcess a",
            "await a",
            "say a: stopped",
            "stopProcess b",
            "await b",
            "say b: stopped",
            "startProcess a",
            "startProcess b",
        ]
    );
    assert_eq!(calls(&tasks("restart all")), vec!["getAllProcessInfo"]);
    assert_eq!(calls(&tasks("clear a")), vec!["clearProcessLogs a"]);
    assert_eq!(calls(&tasks("clear all")), vec!["clearAllProcessLogs"]);
    assert_eq!(calls(&tasks("signal HUP a")), vec!["signalProcess a"]);
    assert_eq!(calls(&tasks("signal HUP all")), vec!["signalAllProcesses HUP"]);
    assert_eq!(calls(&tasks("pid")), vec!["getPID"]);
    assert_eq!(calls(&tasks("pid a")), vec!["getProcessInfo a"]);
    assert_eq!(calls(&tasks("fg a")), vec!["getProcessInfo a"]);
    assert_eq!(calls(&tasks("tail a")), vec!["readProcessStdoutLog a"]);
    assert_eq!(calls(&tasks("tail a stderr")), vec!["readProcessStderrLog a"]);
    assert_eq!(calls(&tasks("maintail")), vec!["readLog #"]);
    assert_eq!(calls(&tasks("reread")), vec!["reloadConfig"]);
    assert_eq!(calls(&tasks("update")), vec!["reloadConfig"]);
    assert_eq!(calls(&tasks("add a b")), vec!["addProcessGroup a", "addProcessGroup b"]);
    assert_eq!(calls(&tasks("remove a")), vec!["removeProcessGroup a"]);
    assert_eq!(calls(&tasks("version")), vec!["getSupervisorVersion"]);
    assert_eq!(calls(&tasks("shutdown")), vec!["shutdown"]);
    assert_eq!(calls(&tasks("reload")), vec!["restart"]);
    assert_eq!(calls(&tasks("help")), vec!["usage"]);
}

#[test]
fn commands_need_their_arguments() {
    assert_eq!(calls(&tasks("start")), vec!["say Error: start requires a process name"]);
    assert_eq!(calls(&tasks("stop")), vec!["say Error: stop requires a process name"]);
    assert_eq!(
        calls(&tasks("restart")),
        vec!["say Error: restart requires a process name"]
    );
    assert_eq!(calls(&tasks("clear")), vec!["say Error: clear requires a process name"]);
    assert_eq!(
        calls(&tasks("signal HUP")),
        vec!["say Error: signal requires a signal name and a process name"]
    );
    assert_eq!(calls(&tasks("tail")), vec!["say Error: tail requires a process name"]);
    assert_eq!(calls(&tasks("fg")), vec!["say ERROR: no process name supplied"]);
    assert_eq!(calls(&tasks("dance")), vec!["say *** Unknown syntax: dance"]);
}

#[test]
fn the_status_is_a_table() {
    let list = || Ok(Value::Array(vec![info("web", "web", 20), info("w", "grp", 20)]));
    assert_eq!(
        says("status", list()),
        "web                          RUNNING    pid 7\ngrp:w                        RUNNING    pid 7\n"
    );
    assert_eq!(
        says("status grp:w", list()),
        "grp:w                        RUNNING    pid 7\n"
    );
    assert_eq!(
        says("status w", list()),
        "grp:w                        RUNNING    pid 7\n"
    );
    assert_eq!(says("status all", list()), says("status", list()));
    assert_eq!(says("status x", list()), "x: ERROR (no such process)\n");
    assert_eq!(says("status", Ok(Value::Bool(true))), "");
}

#[test]
fn operations_are_reported() {
    assert_eq!(says("start web", Ok(Value::Bool(true))), "web: started\n");
    assert_eq!(says("stop web", fault(70)), "web: ERROR (not running)\n");
    for (code, why) in [
        (10, "no such process"),
        (11, "bad signal"),
        (20, "no such file"),
        (21, "file is not executable"),
        (50, "spawn error"),
        (60, "already started"),
        (99, "error"),
    ] {
        assert_eq!(says("start web", fault(code)), format!("web: ERROR ({why})\n"));
    }
    let list = Ok(Value::Array(vec![result("a", 80), result("b", 60)]));
    assert_eq!(
        says("start all", list),
        "a: done\nb: ERROR (already started)\n"
    );
    let list = Ok(Value::Array(vec![result("a", 80), result("b", 70)]));
    assert_eq!(
        says("signal HUP all", list),
        "a: signalled\nb: ERROR (not running)\n"
    );
    let list = Ok(Value::Array(vec![result("a", 80)]));
    assert_eq!(says("clear all", list), "a: cleared\n");
}

#[test]
fn single_answers_are_printed() {
    assert_eq!(says("pid", Ok(Value::Int(12))), "12\n");
    assert_eq!(says("pid a", Ok(info("a", "a", 20))), "7\n");
    assert_eq!(says("pid a", fault(10)), "a: ERROR (no such process)\n");
    assert_eq!(says("tail a", Ok(text("log\nline"))), "log\nline");
    assert_eq!(says("tail a", fault(20)), "a: ERROR (no log file)\n");
    assert_eq!(says("version", Ok(text("0.1.0"))), "0.1.0\n");
    assert_eq!(says("maintail", Ok(text("x"))), "x");
    assert_eq!(says("shutdown", Ok(Value::Bool(true))), "Shut down\n");
    assert_eq!(says("reload", Ok(Value::Bool(true))), "Restarted supervisord\n");
}

#[test]
fn groups_are_added_and_removed() {
    assert_eq!(says("add g", Ok(Value::Bool(true))), "g: added process group\n");
    assert_eq!(says("add g", fault(90)), "ERROR: process group already active\n");
    assert_eq!(says("add g", fault(10)), "ERROR: no such process/group: g\n");
    assert_eq!(says("remove g", Ok(Value::Bool(true))), "g: removed process group\n");
    assert_eq!(says("remove g", fault(91)), "ERROR: process/group still running: g\n");
    assert_eq!(says("remove g", fault(10)), "ERROR: no such process/group: g\n");
}

fn words(list: &[&str]) -> Value {
    Value::Array(list.iter().map(|s| text(s)).collect())
}

fn diff(added: &[&str], changed: &[&str], removed: &[&str]) -> Result<Value, ClientError> {
    Ok(Value::Array(vec![Value::Array(vec![
        words(added),
        words(changed),
        words(removed),
    ])]))
}

#[test]
fn a_reread_lists_the_changes() {
    assert_eq!(
        says("reread", diff(&["n"], &["c"], &["o"])),
        "n: available\nc: changed\no: disappeared\n"
    );
    assert_eq!(
        says("reread", diff(&[], &[], &[])),
        "No config updates to processes\n"
    );
}

#[test]
fn an_update_does_the_changes() {
    let list = tasks("update");
    let how = match &list[0] {
        Task::Call(_, _, how) => how,
        _ => panic!("a call"),
    };
    let o = report(how, diff(&["n"], &["c"], &["o"]));
    assert_eq!(
        calls(&o.more),
        vec![
            "stopProcessGroup o",
            "await group o",
            "say o: stopped",
            "removeProcessGroup o",
            "stopProcessGroup c",
            "await group c",
            "say c: stopped",
            "removeProcessGroup c",
            "addProcessGroup c",
            "say c: updated process group",
            "addProcessGroup n",
        ]
    );
    let list = tasks("update all n");
    match &list[0] {
        Task::Call(_, _, how) => {
            let o = report(how, diff(&["n"], &["c"], &["o"]));
            assert_eq!(calls(&o.more), vec!["addProcessGroup n"]);
        }
        _ => panic!("a call"),
    }
    let removed = Report::UpdateRemoved("o".to_string());
    assert_eq!(report(&removed, Ok(Value::Bool(true))).text, "o: removed process group\n");
    assert_eq!(report(&removed, fault(91)).text, "o: has problems; not removing\n");
    let added = Report::UpdateAdded("n".to_string());
    assert_eq!(report(&added, Ok(Value::Bool(true))).text, "n: added process group\n");
    assert!(report(&added, fault(90)).failure.is_some());
}

#[test]
fn a_strange_reconfiguration_is_refused() {
    for answer in [
        Ok(Value::Bool(true)),
        Ok(Value::Array(Vec::new())),
        Ok(words(&["a"])),
        Ok(Value::Array(vec![words(&["a", "b"])])),
    ] {
        match report(&Report::Reread, answer).failure {
            Some(ClientError::Protocol(m)) => assert_eq!(m, "malformed reloadConfig result"),
            _ => panic!("an error"),
        }
    }
}

#[test]
fn everything_can_be_restarted() {
    let o = report(
        &Report::RestartAll,
        Ok(Value::Array(vec![info("a", "a", 20)])),
    );
    assert_eq!(
        calls(&o.more),
        vec!["stopProcess a", "await a", "say a: stopped", "startProcess a"]
    );
    assert!(report(&Report::RestartAll, lost()).failure.is_none());
    assert!(report(&Report::RestartAll, lost()).more.is_empty());
}

#[test]
fn only_running_processes_are_attached_to() {
    let how = Report::Attach("a".to_string());
    let o = report(&how, Ok(info("a", "a", 20)));
    assert_eq!(o.text, "==> Press Ctrl-D to exit <==\n");
    assert_eq!(calls(&o.more), vec!["fg a"]);
    let o = report(&how, Ok(info("a", "a", 0)));
    assert_eq!(o.text, "ERROR: process not running\n");
    assert!(o.more.is_empty());
    assert_eq!(report(&how, lost()).text, "ERROR: bad process name supplied\n");
}

#[test]
fn a_lost_connection_ends_a_command() {
    let list = tasks("start a");
    match &list[0] {
        Task::Call(_, _, how) => match report(how, lost()).failure {
            Some(e) => assert_eq!(
                failure_message(&e, "/s"),
                "supervisorctl: cannot reach supervisord at /s (is it running?)\n"
            ),
            None => panic!("an error"),
        },
        _ => panic!("a call"),
    }
    assert!(report(&Report::Quiet, lost()).failure.is_none());
    assert_eq!(
        failure_message(&ClientError::Protocol("x".to_string()), "/s"),
        "supervisorctl: protocol error: x\n"
    );
}

#[test]
fn a_group_is_waited_for() {
    let all = |a: i64, b: i64, c: i64| {
        Value::Array(vec![info("a", "g", a), info("b", "g", b), info("c", "c", c)])
    };
    assert!(group_settled("g", &all(0, 100, 20)));
    assert!(!group_settled("g", &all(0, 40, 0)));
    assert!(!group_settled("c", &all(0, 0, 40)));
    assert!(group_settled("ghost", &all(20, 20, 20)));
    assert!(group_wait_is_over("g", &Ok(all(0, 0, 20))));
    assert!(!group_wait_is_over("g", &Ok(all(10, 0, 20))));
    assert!(group_wait_is_over("g", &fault(1)));
    assert!(wait_is_over(&Ok(info("a", "a", 0))));
    assert!(!wait_is_over(&Ok(info("a", "a", 40))));
    assert!(wait_is_over(&fault(10)));
    assert_eq!((WAIT_LIMIT, WAIT_PAUSE), (12000, 150));
}

#[test]
fn stopped_processes_have_settled() {
    for state in [0, 100, 200, 1000] {
        assert!(settled(&info("a", "a", state)));
    }
    for state in [10, 20, 30, 40, 7] {
        assert!(!settled(&info("a", "a", state)));
    }
}

#[test]
fn the_shell_reads_lines() {
    assert_eq!(read_entry("  \n"), Entry::Blank);
    assert_eq!(read_entry("quit\n"), Entry::Quit);
    assert_eq!(read_entry(" exit now"), Entry::Quit);
    assert_eq!(read_entry("bye"), Entry::Quit);
    assert_eq!(
        read_entry("start  a\n"),
        Entry::Command(vec!["start".to_string(), "a".to_string()])
    );
}

#[test]
fn a_log_is_followed() {
    let (method, params) = follow_call("web", 7);
    assert_eq!(method, "supervisor.tailProcessStdoutLog");
    assert_eq!(params, vec![text("web"), Value::Int(7), Value::Int(4096)]);
    let reply = Value::Array(vec![text("more"), Value::Int(11), Value::Bool(false)]);
    assert_eq!(read_tail(&reply), Some(("more".to_string(), 11)));
    assert_eq!(read_tail(&words(&["more", "11"])), None);
    assert_eq!(read_tail(&Value::Bool(true)), None);
    let (method, params) = input_call("web", "hi\n");
    assert_eq!(method, "supervisor.sendProcessStdin");
    assert_eq!(params, vec![text("web"), text("hi\n")]);
}
