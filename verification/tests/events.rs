use supervisor::events::ancestors;
use supervisor::events::process_state_event_name;
use supervisor::events::process_state_payload;
use supervisor::events::subscription_matches;
use supervisor::events::Subscriptions;
use supervisor::states::ProcessState;
use supervisor::states::SupervisorState;

#[test]
fn matches_concrete_and_abstract_subscriptions() {
    let mut subs = Subscriptions::new();
    subs.insert("PROCESS_STATE".to_string());
    assert!(subscription_matches(&subs, "PROCESS_STATE_RUNNING"));
    assert!(!subscription_matches(&subs, "TICK_60"));

    let mut subs2 = Subscriptions::new();
    subs2.insert("TICK_60".to_string());
    assert!(subscription_matches(&subs2, "TICK_60"));
    assert!(!subscription_matches(&subs2, "TICK_5"));
}

#[test]
fn formats_running_payload() {
    let p = process_state_payload(
        "web",
        "web",
        ProcessState::Starting,
        ProcessState::Running,
        42,
        0,
        true,
    );
    assert_eq!(p, "processname:web groupname:web from_state:STARTING pid:42");
}

#[test]
fn formats_exited_payload() {
    let p = process_state_payload(
        "job",
        "grp",
        ProcessState::Running,
        ProcessState::Exited,
        7,
        0,
        false,
    );
    assert_eq!(
        p,
        "processname:job groupname:grp from_state:RUNNING expected:0 pid:7"
    );
}

#[test]
fn formats_backoff_payload() {
    let p = process_state_payload(
        "job",
        "grp",
        ProcessState::Starting,
        ProcessState::Backoff,
        7,
        2,
        false,
    );
    assert_eq!(p, "processname:job groupname:grp from_state:STARTING tries:2");
}

#[test]
fn everything_is_an_event() {
    let subs = Subscriptions::of(&vec!["EVENT".to_string()]);
    assert!(subscription_matches(&subs, "PROCESS_STATE_FATAL"));
    assert!(subscription_matches(&subs, "TICK_3600"));
    assert!(subscription_matches(&subs, "SOMETHING_ELSE"));
    assert_eq!(
        ancestors("TICK_5"),
        vec!["TICK_5", "TICK", "EVENT"]
    );
    assert_eq!(ancestors("NEWS"), vec!["NEWS", "EVENT"]);
    assert_eq!(
        ancestors("PROCESS_GROUP_ADDED"),
        vec!["PROCESS_GROUP_ADDED", "PROCESS_GROUP", "EVENT"]
    );
}

#[test]
fn an_event_is_received_under_its_own_name() {
    let subs = Subscriptions::of(&vec!["PROCESS_GROUP_ADDED".to_string()]);
    assert!(subscription_matches(&subs, "PROCESS_GROUP_ADDED"));
    assert!(!subscription_matches(&subs, "PROCESS_GROUP_REMOVED"));
    assert!(!subscription_matches(&subs, "NEWS"));
}

#[test]
fn event_names_name_the_state() {
    assert_eq!(
        process_state_event_name(ProcessState::Fatal),
        "PROCESS_STATE_FATAL"
    );
    assert_eq!(
        process_state_event_name(ProcessState::Stopping),
        "PROCESS_STATE_STOPPING"
    );
}

#[test]
fn states_are_up_or_down() {
    assert!(ProcessState::Backoff.is_running());
    assert!(!ProcessState::Backoff.is_stopped());
    assert!(ProcessState::Unknown.is_stopped());
    assert!(!ProcessState::Stopping.is_running());
    assert!(!ProcessState::Stopping.is_stopped());
    assert_eq!(ProcessState::Exited.description(), "EXITED");
    assert_eq!(ProcessState::Exited.code(), 100);
    assert_eq!(ProcessState::Unknown.code(), 1000);
}

#[test]
fn supervisor_states_have_names_and_numbers() {
    assert_eq!(SupervisorState::Running.description(), "RUNNING");
    assert_eq!(SupervisorState::Running.code(), 1);
    assert_eq!(SupervisorState::Shutdown.description(), "SHUTDOWN");
    assert_eq!(SupervisorState::Shutdown.code(), -1);
    assert_eq!(SupervisorState::Restarting.code(), 0);
    assert_eq!(SupervisorState::Fatal.code(), 2);
}
