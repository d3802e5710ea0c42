use supervisor::config::Config;
use supervisor::process::decode_status;
use supervisor::process::fmt_duration;
use supervisor::process::fmt_stop_time;
use supervisor::process::machine::resolve_user;
use supervisor::process::machine::Stream;
use supervisor::process::machine::NANOS;
use supervisor::process::shell_split;
use supervisor::process::Action;
use supervisor::process::LaunchFailure;
use supervisor::process::Listener;
use supervisor::process::ListenerState;
use supervisor::process::LocalTime;
use supervisor::process::Process;
use supervisor::states::ProcessState;

#[test]
fn splits_quoted_commands() {
    assert_eq!(
        shell_split("/bin/sh -c 'echo hello world'").unwrap(),
        vec!["/bin/sh", "-c", "echo hello world"]
    );
    assert_eq!(
        shell_split(r#"prog --msg="a b" tail"#).unwrap(),
        vec!["prog", "--msg=a b", "tail"]
    );
}

#[test]
fn decodes_exit_status() {
    // exit code 7: status = 7 << 8
    assert_eq!(decode_status(7 << 8), (7, false));
    // killed by SIGKILL (9)
    assert_eq!(decode_status(9), (-9, true));
}

#[test]
fn formats_durations() {
    assert_eq!(fmt_duration(3661), "1:01:01");
    assert_eq!(fmt_duration(0), "0:00:00");
}

fn secs(n: u128) -> u128 {
    n * NANOS
}

fn process(text: &str) -> Process {
    let mut config = Config::parse(text, "/tmp").unwrap();
    Process::new(config.programs.remove(0), "/logs")
}

fn plain() -> Process {
    process("[program:p]\ncommand=/bin/p -v\nstartsecs=2\nstartretries=1\nstopwaitsecs=3\n")
}

fn launch() -> Action {
    Action::Launch(vec!["/bin/p".to_string(), "-v".to_string()])
}

/// A process that has been running since time zero.
fn running() -> Process {
    let mut p = plain();
    assert_eq!(p.start(0), (true, launch()));
    p.launched(42, 0, 1000);
    assert_eq!(p.transition(secs(2), false), Action::Idle);
    assert_eq!(p.state, ProcessState::Running);
    p
}

#[test]
fn a_start_takes_startsecs() {
    let mut p = plain();
    assert_eq!(p.state, ProcessState::Stopped);
    assert_eq!(p.start(0), (true, launch()));
    p.launched(42, 0, 1000);
    assert_eq!(p.state, ProcessState::Starting);
    assert_eq!(p.pid, 42);
    assert_eq!(p.transition(secs(2) - 1, false), Action::Idle);
    assert_eq!(p.state, ProcessState::Starting);
    assert_eq!(p.start(secs(1)), (false, Action::Idle));
    assert_eq!(p.transition(secs(2), false), Action::Idle);
    assert_eq!(p.state, ProcessState::Running);
    assert_eq!(p.status_description(secs(3663)), "pid 42, uptime 1:01:03");
}

#[test]
fn quick_exits_end_in_fatal() {
    let mut p = plain();
    p.start(0);
    p.launched(42, 0, 1000);
    p.on_reap(1 << 8, secs(1), 1001);
    assert_eq!(p.state, ProcessState::Backoff);
    assert_eq!(p.pid, 0);
    assert_eq!(p.status_description(0), "Backing off, retry 1 of 2");
    assert_eq!(p.transition(secs(2) - 1, false), Action::Idle);
    assert_eq!(p.transition(secs(2), false), launch());
    p.launched(43, secs(2), 1002);
    p.on_reap(1 << 8, secs(2), 1002);
    assert_eq!(p.backoff, 2);
    assert_eq!(p.transition(secs(2), false), Action::Idle);
    assert_eq!(p.state, ProcessState::Fatal);
    assert_eq!(
        p.status_description(0),
        "Exited too quickly; gave up after 1 retries"
    );
    assert_eq!(p.transition(secs(99), false), Action::Idle);
    assert_eq!(p.state, ProcessState::Fatal);
}

#[test]
fn failed_launches_back_off() {
    let mut p = plain();
    p.start(0);
    p.launch_failed(&LaunchFailure::Spawn("not found".to_string()), 0);
    assert_eq!(p.state, ProcessState::Backoff);
    assert_eq!(p.spawnerr, Some("spawn failed: not found".to_string()));
    assert_eq!(p.stop(0), (true, Action::Idle));
    assert_eq!(p.state, ProcessState::Stopped);
    assert_eq!(
        LaunchFailure::Pipe("x".to_string()).message(),
        "pipe failed: x"
    );
    assert_eq!(
        LaunchFailure::Dup("x".to_string()).message(),
        "dup failed: x"
    );
    assert_eq!(LaunchFailure::User("x".to_string()).message(), "x");
}

#[test]
fn an_empty_command_cannot_be_launched() {
    let mut p = process("[program:p]\ncommand=\n");
    assert_eq!(p.start(0), (true, Action::Idle));
    assert_eq!(p.state, ProcessState::Backoff);
    assert_eq!(p.spawnerr, Some("bad command".to_string()));
}

#[test]
fn unexpected_exits_restart() {
    let mut p = running();
    p.on_reap(3 << 8, secs(9), 1009);
    assert_eq!(p.state, ProcessState::Exited);
    assert_eq!(p.status_description(0), "exited, status 3");
    assert_eq!(p.transition(secs(9), true), Action::Idle);
    assert_eq!(p.transition(secs(9), false), launch());
}

#[test]
fn expected_exits_do_not_restart() {
    let mut p = running();
    p.on_reap(0, secs(9), 1009);
    assert_eq!(p.state, ProcessState::Exited);
    assert!(p.last_exit_expected);
    assert_eq!(p.transition(secs(9), false), Action::Idle);
}

#[test]
fn a_signal_is_never_expected() {
    let mut p = running();
    p.on_reap(15, secs(9), 1009);
    assert_eq!(p.exitstatus, Some(-15));
    assert!(!p.last_exit_expected);
    assert_eq!(p.status_description(0), "terminated by signal 15");
    assert_eq!(p.transition(secs(9), false), launch());
}

#[test]
fn stopping_escalates() {
    let mut p = running();
    assert_eq!(
        p.stop(secs(10)),
        (true, Action::Signal { pid: 42, sig: libc::SIGTERM })
    );
    assert_eq!(p.state, ProcessState::Stopping);
    assert_eq!(p.stop(secs(10)), (true, Action::Idle));
    assert_eq!(p.transition(secs(13) - 1, false), Action::Idle);
    assert_eq!(
        p.transition(secs(13), false),
        Action::Signal { pid: 42, sig: libc::SIGKILL }
    );
    assert_eq!(p.transition(secs(14), false), Action::Idle);
    p.on_reap(9, secs(14), 1014);
    assert_eq!(p.state, ProcessState::Stopped);
    assert_eq!(p.transition(secs(15), false), Action::Idle);
    assert_eq!(p.stop(secs(15)), (false, Action::Idle));
    assert_eq!(p.status_description(0), "Not started");
}

#[test]
fn a_restart_comes_back() {
    let mut p = running();
    assert_eq!(
        p.request_restart(secs(10)),
        Action::Signal { pid: 42, sig: libc::SIGTERM }
    );
    p.on_reap(15, secs(11), 1011);
    assert_eq!(p.state, ProcessState::Stopped);
    assert_eq!(p.transition(secs(11), false), launch());
    let mut idle = plain();
    assert_eq!(idle.request_restart(0), launch());
}

#[test]
fn only_live_processes_are_signalled() {
    let p = running();
    assert_eq!(p.signal(10), (true, Action::Signal { pid: 42, sig: 10 }));
    assert_eq!(plain().signal(10), (false, Action::Idle));
}

#[test]
fn changes_of_state_are_reported() {
    let mut p = running();
    let events = p.take_events();
    assert_eq!(events.len(), 2);
    assert_eq!(events[0].0, "PROCESS_STATE_STARTING");
    assert_eq!(
        events[0].1,
        "processname:p groupname:p from_state:STOPPED tries:0"
    );
    assert_eq!(events[1].0, "PROCESS_STATE_RUNNING");
    assert_eq!(
        events[1].1,
        "processname:p groupname:p from_state:STARTING pid:42"
    );
    assert!(p.take_events().is_empty());
}

#[test]
fn logs_have_names() {
    let p = plain();
    assert_eq!(p.stdout_path, "/logs/p-stdout.log");
    assert_eq!(p.stderr_path, "/logs/p-stderr.log");
    let p = process("[program:p]\ncommand=/x\nstdout_logfile=NONE\nredirect_stderr=true\n");
    assert_eq!(p.stdout_path, "");
    assert_eq!(p.stderr_path, "");
}

#[test]
fn output_goes_to_the_log() {
    let mut p = running();
    p.stdout_logger.opened(Some(0));
    assert_eq!(p.drain_output(Stream::Stdout, b"hello"), Some(Vec::new()));
    let (out, err) = p.clear_logs();
    assert_eq!(out.len(), 12);
    assert_eq!(err.len(), 12);
}

fn listener() -> Process {
    let mut p = process(
        "[eventlistener:l]\ncommand=/bin/l\nevents=TICK\nbuffer_size=2\nstartsecs=0\n",
    );
    p.start(0);
    p.launched(7, 0, 0);
    p.transition(0, false);
    p
}

#[test]
fn listeners_speak_the_protocol() {
    let mut p = listener();
    assert!(p.is_listener());
    assert_eq!(p.pool_name(), "l");
    assert!(p.subscribed_to("TICK_60"));
    assert!(!p.subscribed_to("PROCESS_STATE_EXITED"));
    assert!(!p.listener_ready());
    assert_eq!(p.drain_output(Stream::Stdout, b"READY\n"), None);
    assert!(p.listener_ready());
    p.buffer_event(1, "TICK_5", "when:5");
    assert!(!p.send_event(Some(3), 10));
    assert!(!p.send_event(None, 10));
    assert!(p.send_event(Some(10), 10));
    assert_eq!(p.peek_event(), None);
    assert!(!p.listener_ready());
    assert_eq!(p.drain_output(Stream::Stdout, b"RESULT 2\nOKREADY\n"), None);
    assert!(p.listener_ready());
    p.drain_output(Stream::Stderr, b"noise");
    assert!(p.listener_ready());
}

#[test]
fn full_buffers_lose_the_oldest_event() {
    let mut p = listener();
    for serial in 1..4 {
        p.buffer_event(serial, "TICK_5", "x");
    }
    assert_eq!(
        p.peek_event(),
        Some((2, "TICK_5".to_string(), "x".to_string()))
    );
}

#[test]
fn a_listener_can_be_read_in_any_pieces() {
    let all = b"READY\n";
    for cut in 0..all.len() + 1 {
        let mut l = Listener::new();
        l.feed(&all[..cut]);
        l.feed(&all[cut..]);
        assert_eq!(l.state, ListenerState::Ready);
    }
    let mut l = Listener::new();
    l.feed(b"HELLO\n");
    assert_eq!(l.state, ListenerState::Unknown);
    l.reset();
    assert_eq!(l.state, ListenerState::Acknowledged);
}

#[test]
fn bad_results_are_noticed() {
    for answer in [&b"RESULT x\n"[..], &b"DONE\n"[..]] {
        let mut l = Listener::new();
        l.feed(b"READY\n");
        l.state = ListenerState::Busy;
        l.feed(answer);
        assert_eq!(l.state, ListenerState::Unknown);
    }
}

#[test]
fn writes_to_stdin_are_counted() {
    let p = running();
    assert_eq!(p.write_stdin(Some(5)), Some(5));
    assert_eq!(p.write_stdin(Some(-1)), None);
    assert_eq!(p.write_stdin(None), None);
}

#[test]
fn users_are_resolved() {
    assert_eq!(resolve_user("1000", None), Ok((1000, 1000)));
    assert_eq!(resolve_user("www", Some((33, 34))), Ok((33, 34)));
    assert_eq!(
        resolve_user("ghost", None),
        Err("unknown user: ghost".to_string())
    );
}

const JUNE: LocalTime = LocalTime {
    mon: 5,
    mday: 7,
    hour: 21,
    min: 5,
};

#[test]
fn stop_times_are_formatted() {
    assert_eq!(fmt_stop_time(&JUNE), "Jun 07 09:05 PM");
    let midnight = LocalTime {
        mon: 11,
        mday: 31,
        hour: 0,
        min: 0,
    };
    assert_eq!(fmt_stop_time(&midnight), "Dec 31 12:00 AM");
}

#[test]
fn snapshots_describe_the_process() {
    let mut p = plain();
    assert_eq!(p.info(5, &JUNE).description, "Not started");
    p.start(0);
    p.launched(42, 0, 1000);
    p.transition(secs(2), false);
    let i = p.info(1061, &JUNE);
    assert_eq!(i.name, "p");
    assert_eq!(i.group, "p");
    assert_eq!(i.state, 20);
    assert_eq!(i.statename, "RUNNING");
    assert_eq!(i.pid, 42);
    assert_eq!(i.start, 1000);
    assert_eq!(i.stop, 0);
    assert_eq!(i.now, 1061);
    assert_eq!(i.description, "pid 42, uptime 0:01:01");
    p.on_reap(2 << 8, secs(3), 1070);
    let i = p.info(1071, &JUNE);
    assert_eq!(i.exitstatus, 2);
    assert_eq!(i.stop, 1070);
    assert_eq!(i.description, "Jun 07 09:05 PM");
}

#[test]
fn commands_are_split_like_a_shell_does() {
    assert_eq!(shell_split("  a\tb \n").unwrap(), vec!["a", "b"]);
    assert_eq!(shell_split("a\\ b").unwrap(), vec!["a b"]);
    assert_eq!(shell_split("'' x").unwrap(), vec!["", "x"]);
    assert_eq!(shell_split("a'b'\"c\"").unwrap(), vec!["abc"]);
    assert_eq!(shell_split("\"a\\\"b\"").unwrap(), vec!["a\"b"]);
    assert!(shell_split("").unwrap().is_empty());
}

#[test]
fn every_argument_can_be_quoted() {
    let args = ["", "two words", "quo\"te", "back\\slash", "it's"];
    let line: String = args
        .iter()
        .map(|a| format!("\"{}\" ", a.replace('\\', "\\\\").replace('"', "\\\"")))
        .collect();
    assert_eq!(shell_split(line.as_str()).unwrap(), args);
}

#[test]
fn a_stopped_process_starts_again() {
    let mut p = running();
    p.stop(secs(10));
    p.on_reap(15, secs(11), 1011);
    assert_eq!(p.transition(secs(11), false), Action::Idle);
    assert_eq!(p.start(secs(12)), (true, launch()));
    assert!(!p.administratively_stopped);
}
