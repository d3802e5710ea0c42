use supervisor::config::Config;
use supervisor::daemon::batch::Batch;
use supervisor::daemon::batch::Work;
use supervisor::daemon::fault_message;
use supervisor::daemon::timestamp;
use supervisor::daemon::CalendarTime;
use supervisor::daemon::LogFile;
use supervisor::daemon::Supervisor;
use supervisor::daemon::Verb;
use supervisor::events::ticks;
use supervisor::process::machine::Stream;
use supervisor::process::machine::NANOS;
use supervisor::process::Action;
use supervisor::process::LaunchFailure;
use supervisor::process::LocalTime;
use supervisor::states::ProcessState;
use supervisor::states::SupervisorState;

const NOON: LocalTime = LocalTime {
    mon: 0,
    mday: 1,
    hour: 12,
    min: 0,
};

fn supervisor() -> Supervisor {
    let text = "\
[supervisord]
identifier=me
nodaemon=true
[program:a]
command=/bin/a
startsecs=0
[program:b]
command=/bin/b
autostart=false
startsecs=0
stdout_logfile=NONE
[group:g]
programs=b
";
    Supervisor::new(Config::parse(text, "/tmp").unwrap())
}

/// Runs a batch; every launch succeeds, with pids counting up from `pid`.
fn run(sup: &mut Supervisor, batch: &mut Batch, now: u128, mut pid: i32) -> Vec<Action> {
    let mut actions = Vec::new();
    loop {
        match batch.step(sup, now) {
            Work::Act { index, action } => {
                if let Action::Launch(_) = action {
                    sup.launched(index, pid, now, 100);
                    pid += 1;
                }
                actions.push(action);
            }
            Work::Reap | Work::Proceed => {}
            Work::Done => return actions,
        }
    }
}

fn start(sup: &mut Supervisor, name: &str, pid: i32) -> Result<(), (i32, String)> {
    let mut b = Batch::new(Verb::Start, vec![name.to_string()]);
    run(sup, &mut b, 0, pid);
    b.outcomes.remove(0)
}

#[test]
fn processes_are_found_by_name_and_namespec() {
    let sup = supervisor();
    assert_eq!(sup.find("a"), Some(0));
    assert_eq!(sup.find("b"), Some(1));
    assert_eq!(sup.find("g:b"), Some(1));
    assert_eq!(sup.find("nothing"), None);
    assert_eq!(sup.names(), vec!["a".to_string(), "b".to_string()]);
}

#[test]
fn autostart_is_per_program() {
    let mut sup = supervisor();
    assert_eq!(
        sup.autostart(0, 0),
        Action::Launch(vec!["/bin/a".to_string()])
    );
    assert_eq!(sup.autostart(1, 0), Action::Idle);
}

#[test]
fn a_start_launches() {
    let mut sup = supervisor();
    let mut b = Batch::new(Verb::Start, vec!["g:b".to_string()]);
    let actions = run(&mut sup, &mut b, 0, 42);
    assert_eq!(actions[0], Action::Launch(vec!["/bin/b".to_string()]));
    assert_eq!(b.outcomes, vec![Ok(())]);
    assert_eq!(sup.processes[1].pid, 42);
    assert_eq!(sup.processes[1].state, ProcessState::Running);
    assert_eq!(sup.spawn_message(1), "spawned: 'b' with pid 42");
}

#[test]
fn refused_operations_say_why() {
    let mut sup = supervisor();
    assert_eq!(
        start(&mut sup, "ghost", 1),
        Err((10, "ghost".to_string()))
    );
    assert_eq!(start(&mut sup, "a", 1), Ok(()));
    assert_eq!(start(&mut sup, "a", 2), Err((60, "a".to_string())));
    let mut b = Batch::new(Verb::Stop, vec!["b".to_string(), "ghost".to_string()]);
    assert!(run(&mut sup, &mut b, 0, 1).is_empty());
    assert_eq!(
        b.outcomes,
        vec![Err((70, "b".to_string())), Err((10, "ghost".to_string()))]
    );
}

#[test]
fn a_failed_launch_is_no_error_until_it_is_given_up() {
    let mut sup = supervisor();
    let mut b = Batch::new(Verb::Start, vec!["a".to_string()]);
    loop {
        match b.step(&mut sup, 0) {
            Work::Act { index, action } => {
                if let Action::Launch(_) = action {
                    sup.launch_failed(index, &LaunchFailure::Spawn("no".to_string()), 0);
                }
            }
            Work::Done => break,
            _ => {}
        }
    }
    // The process backs off, which counts as being up.
    assert_eq!(b.outcomes, vec![Ok(())]);
    assert_eq!(sup.processes[0].state, ProcessState::Backoff);
    sup.processes[0].state = ProcessState::Fatal;
    assert_eq!(sup.start_result(0, "a"), Err((50, "a".to_string())));
}

#[test]
fn reaped_children_reach_their_process() {
    let mut sup = supervisor();
    start(&mut sup, "a", 42).unwrap();
    start(&mut sup, "b", 43).unwrap();
    assert_eq!(sup.reap(99, 0, NANOS, 101), None);
    assert_eq!(
        sup.reap(43, 1 << 8, NANOS, 101),
        Some("exited: 'b' (exited, status 1)".to_string())
    );
    assert_eq!(sup.processes[1].pid, 0);
    assert_eq!(sup.processes[1].state, ProcessState::Exited);
    assert_eq!(sup.processes[0].pid, 42);
    assert_eq!(sup.reap(43, 0, NANOS, 101), None);
    assert_eq!(
        sup.advance(1, NANOS),
        Action::Launch(vec!["/bin/b".to_string()])
    );
}

#[test]
fn everything_can_be_started_and_stopped() {
    let mut sup = supervisor();
    let mut b = sup.op_start_all();
    run(&mut sup, &mut b, 0, 10);
    assert_eq!(
        b.entries(&sup),
        vec![
            ("a".to_string(), "a".to_string(), 80, "started".to_string()),
            ("b".to_string(), "g".to_string(), 80, "started".to_string()),
        ]
    );
    let mut b = sup.op_stop_all();
    let actions = run(&mut sup, &mut b, 0, 0);
    assert_eq!(
        actions,
        vec![
            Action::Signal { pid: 10, sig: libc::SIGTERM },
            Action::Signal { pid: 11, sig: libc::SIGTERM },
        ]
    );
    let mut b = sup.op_stop_all();
    run(&mut sup, &mut b, 0, 0);
    let entries = b.entries(&sup);
    assert_eq!(entries[0].2, 70);
    assert_eq!(entries[0].3, "not running");
}

#[test]
fn a_restart_needs_a_process() {
    let mut sup = supervisor();
    start(&mut sup, "a", 42).unwrap();
    let mut b = Batch::new(
        Verb::Restart,
        vec!["a".to_string(), "b".to_string(), "c".to_string()],
    );
    let actions = run(&mut sup, &mut b, 0, 50);
    assert_eq!(
        actions,
        vec![
            Action::Signal { pid: 42, sig: libc::SIGTERM },
            Action::Launch(vec!["/bin/b".to_string()]),
        ]
    );
    assert_eq!(
        b.outcomes,
        vec![Ok(()), Ok(()), Err((10, "c".to_string()))]
    );
}

#[test]
fn a_shutdown_comes_to_an_end() {
    let mut sup = supervisor();
    start(&mut sup, "a", 42).unwrap();
    assert_eq!(sup.supervisor_state(), SupervisorState::Running);
    assert_eq!(sup.begin_shutdown(0), None);
    sup.request_shutdown();
    assert_eq!(sup.supervisor_state(), SupervisorState::Shutdown);
    assert_eq!(
        sup.begin_shutdown(0),
        Some(vec![
            Action::Signal { pid: 42, sig: libc::SIGTERM },
            Action::Idle
        ])
    );
    assert_eq!(sup.begin_shutdown(0), None);
    assert!(!sup.finished());
    sup.reap(42, 15, NANOS, 100);
    assert!(sup.all_stopped());
    assert!(sup.finished());
    assert_eq!(sup.advance(0, NANOS), Action::Idle);
}

#[test]
fn a_restart_request_shuts_down_too() {
    let mut sup = supervisor();
    sup.request_restart();
    assert_eq!(sup.supervisor_state(), SupervisorState::Shutdown);
    assert!(sup.begin_shutdown(0).is_some());
}

#[test]
fn snapshots_of_every_process() {
    let mut sup = supervisor();
    start(&mut sup, "a", 42).unwrap();
    let stops = vec![NOON, NOON];
    let infos = sup.all_process_info(160, &stops);
    assert_eq!(infos.len(), 2);
    assert_eq!(infos[0].description, "pid 42, uptime 0:01:00");
    assert_eq!(infos[1].group, "g");
    assert_eq!(sup.process_info("g:b", 160, &stops).unwrap().name, "b");
    assert!(sup.process_info("x", 160, &stops).is_none());
    assert_eq!(sup.stop_epochs(), vec![0, 0]);
    sup.reap(42, 0, NANOS, 170);
    assert_eq!(sup.stop_epochs(), vec![170, 0]);
}

#[test]
fn logs_are_read_in_parts() {
    let sup = supervisor();
    let data = LogFile::Data(b"hello world".to_vec());
    let read = |offset: i64, length: i64| sup.read_log("a", "stdout", offset, length, &data);
    assert_eq!(read(0, 0), Ok("hello world".to_string()));
    assert_eq!(read(6, 0), Ok("world".to_string()));
    assert_eq!(read(0, 5), Ok("hello".to_string()));
    assert_eq!(read(6, 99), Ok("world".to_string()));
    assert_eq!(read(-3, 5), Ok("hello".to_string()));
    assert_eq!(read(11, 0), Ok("".to_string()));
    assert_eq!(read(i64::MAX, i64::MAX), Ok("".to_string()));
    assert_eq!(read(0, i64::MAX), Ok("hello world".to_string()));
    assert_eq!(read(0, -1), Ok("hello world".to_string()));
}

#[test]
fn logs_that_cannot_be_read() {
    let sup = supervisor();
    let data = LogFile::Data(Vec::new());
    assert_eq!(
        sup.read_log("x", "stdout", 0, 0, &data),
        Err((10, "x".to_string()))
    );
    assert_eq!(
        sup.read_log("b", "stdout", 0, 0, &data),
        Err((20, "".to_string()))
    );
    assert_eq!(sup.log_file("b", "stdout"), None);
    assert_eq!(sup.log_file("x", "stdout"), None);
    let path = sup.log_file("a", "stderr").unwrap();
    assert!(path.ends_with("/a-stderr.log"));
    assert_eq!(
        sup.read_log("a", "stderr", 0, 0, &LogFile::Missing),
        Err((20, path))
    );
    assert_eq!(
        sup.read_log("a", "stderr", 0, 0, &LogFile::Failed("denied".to_string())),
        Err((30, "denied".to_string()))
    );
}

#[test]
fn the_main_log_has_timestamps() {
    let mut sup = supervisor();
    let at = CalendarTime {
        year: 124,
        mon: 5,
        mday: 7,
        hour: 21,
        min: 5,
        sec: 9,
    };
    assert_eq!(timestamp(&at), "2024-06-07 21:05:09");
    let l = sup.log_line(&at, "INFO", "hi");
    assert_eq!(l.line, "2024-06-07 21:05:09 INFO hi\n");
    assert!(l.actions.is_empty());
    assert!(l.echo);
    sup.config.supervisord.silent = true;
    assert!(!sup.log_line(&at, "INFO", "hi").echo);
    sup.log.opened(Some(50 * 1024 * 1024));
    assert!(!sup.log_line(&at, "INFO", "hi").actions.is_empty());
}

#[test]
fn the_socket_has_a_default() {
    assert_eq!(supervisor().socket_path(), "/tmp/supervisor.sock");
    let cfg = Config::parse("[unix_http_server]\nfile=/s\n", "/tmp").unwrap();
    assert_eq!(Supervisor::new(cfg).socket_path(), "/s");
    assert_eq!(supervisor().identifier(), "me");
}

#[test]
fn faults_have_messages() {
    assert_eq!(fault_message(60), "already started");
    assert_eq!(fault_message(70), "not running");
    assert_eq!(fault_message(50), "spawn error");
    assert_eq!(fault_message(10), "no such process");
    assert_eq!(fault_message(30), "error");
}

#[test]
fn events_reach_their_subscribers() {
    let text = "\
[eventlistener:all]
command=/bin/l
events=EVENT
[eventlistener:ticks]
command=/bin/l
events=TICK
[program:a]
command=/bin/a
";
    let mut sup = Supervisor::new(Config::parse(text, "/tmp").unwrap());
    start(&mut sup, "a", 42).unwrap();
    sup.route_events();
    assert_eq!(
        sup.processes[0].peek_event(),
        Some((
            0,
            "SUPERVISOR_STATE_CHANGE_RUNNING".to_string(),
            "".to_string()
        ))
    );
    assert_eq!(
        sup.processes[0].event_buffer.back(),
        Some(&(
            1,
            "PROCESS_STATE_STARTING".to_string(),
            "processname:a groupname:a from_state:STOPPED tries:0".to_string()
        ))
    );
    assert_eq!(sup.processes[1].peek_event(), None);
    assert_eq!(sup.processes[2].peek_event(), None);
    assert!(sup.processes[2].pending_events.is_empty());
    assert_eq!(sup.event_serial, 2);
    sup.route_events();
    assert_eq!(sup.event_serial, 2);
}

fn listening() -> Supervisor {
    let text = "\
[supervisord]
identifier=me
[eventlistener:l]
command=/bin/l
events=TICK,SUPERVISOR_STATE_CHANGE
startsecs=0
";
    let mut sup = Supervisor::new(Config::parse(text, "/tmp").unwrap());
    assert_eq!(start(&mut sup, "l", 42), Ok(()));
    sup
}

#[test]
fn ticks_come_with_their_periods() {
    let pairs = |v: &[(&str, &str)]| -> Vec<(String, String)> {
        v.iter().map(|p| (p.0.to_string(), p.1.to_string())).collect()
    };
    assert_eq!(ticks(None, 7200), pairs(&[]));
    assert_eq!(ticks(Some(7201), 7204), pairs(&[]));
    assert_eq!(ticks(Some(7204), 7206), pairs(&[("TICK_5", "when:7205")]));
    assert_eq!(
        ticks(Some(7259), 7261),
        pairs(&[("TICK_5", "when:7260"), ("TICK_60", "when:7260")])
    );
    assert_eq!(
        ticks(Some(7199), 7200),
        pairs(&[
            ("TICK_5", "when:7200"),
            ("TICK_60", "when:7200"),
            ("TICK_3600", "when:7200"),
        ])
    );
}

#[test]
fn events_are_delivered_one_by_one() {
    let mut sup = listening();
    sup.tick(100);
    sup.tick(104);
    sup.tick(105);
    sup.route_events();
    // Not before the listener has asked for one.
    assert_eq!(sup.next_envelope(0), None);
    assert!(sup.processes[0].drain_output(Stream::Stdout, b"READY\n").is_none());
    let first = sup.next_envelope(0).unwrap();
    assert_eq!(
        String::from_utf8(first.clone()).unwrap(),
        "ver:3.0 server:me serial:0 pool:l poolserial:0 \
         eventname:SUPERVISOR_STATE_CHANGE_RUNNING len:0\n"
    );
    // A write that fails is tried again.
    assert!(!sup.envelope_written(0, Some(-1), first.len()));
    assert!(!sup.envelope_written(0, None, first.len()));
    assert_eq!(sup.next_envelope(0), Some(first.clone()));
    assert!(sup.envelope_written(0, Some(first.len() as i64), first.len()));
    assert_eq!(sup.next_envelope(0), None);
    assert!(sup.processes[0]
        .drain_output(Stream::Stdout, b"RESULT 2\nOKREADY\n")
        .is_none());
    let second = String::from_utf8(sup.next_envelope(0).unwrap()).unwrap();
    assert_eq!(
        second,
        "ver:3.0 server:me serial:1 pool:l poolserial:1 eventname:TICK_5 len:8\nwhen:105"
    );
}

#[test]
fn a_shutdown_is_an_event() {
    let mut sup = listening();
    sup.route_events();
    let before = sup.processes[0].event_buffer.len();
    sup.request_shutdown();
    assert!(sup.begin_shutdown(0).is_some());
    sup.route_events();
    assert_eq!(sup.processes[0].event_buffer.len(), before + 1);
    assert_eq!(
        sup.processes[0].event_buffer[before].1,
        "SUPERVISOR_STATE_CHANGE_STOPPING"
    );
    assert!(sup.pending_events.is_empty());
}
