use supervisor::config::difference::difference;
use supervisor::config::difference::ConfigDiff;
use supervisor::config::Config;
use supervisor::config::HttpAuth;
use supervisor::control::call_request;
use supervisor::control::parse_reply;
use supervisor::control::read_reply;
use supervisor::control::ClientError;
use supervisor::ctl::answer::group_settled;
use supervisor::ctl::answer::read_diff;
use supervisor::daemon::batch::Work;
use supervisor::daemon::serve::call_response;
use supervisor::daemon::serve::malformed_response;
use supervisor::daemon::serve::page_response;
use supervisor::daemon::serve::refuse;
use supervisor::daemon::serve::route;
use supervisor::daemon::serve::Route;
use supervisor::daemon::LogFile;
use supervisor::daemon::Supervisor;
use supervisor::http::read_request;
use supervisor::http::Request;
use supervisor::process::Action;
use supervisor::process::LocalTime;
use supervisor::rpc::dispatch;
use supervisor::rpc::diff_to_value;
use supervisor::rpc::finish_group;
use supervisor::rpc::finish_read;
use supervisor::rpc::finish_reload;
use supervisor::rpc::finish_run;
use supervisor::rpc::success;
use supervisor::rpc::Moment;
use supervisor::rpc::Pending;
use supervisor::xmlrpc::serialize_fault;
use supervisor::xmlrpc::Value;

const NOON: LocalTime = LocalTime {
    mon: 0,
    mday: 1,
    hour: 12,
    min: 0,
};

fn supervisor() -> Supervisor {
    let text = "[supervisord]\nidentifier=me\n[program:a]\ncommand=/bin/a\n[program:b]\ncommand=/bin/b\n";
    Supervisor::new(Config::parse(text, "/tmp").unwrap())
}

fn text(s: &str) -> Value {
    Value::Str(s.to_string())
}

/// The configuration that `reloadConfig` finds: `a` is as before, `b` has
/// another command, `c` and `d` are new.
const NEXT: &str = "[supervisord]\nidentifier=me\n[program:a]\ncommand=/bin/a\n\
[program:b]\ncommand=/bin/b -v\n\
[program:c]\ncommand=/bin/c\npriority=1\n[program:d]\ncommand=/bin/d\nautostart=false\n\
[group:g]\nprograms=c,d\n";

/// Makes a call; every launch succeeds, every log holds "line\n", and the
/// configuration has become another.
fn call(sup: &mut Supervisor, method: &str, params: &[Value]) -> Result<Value, (i32, String)> {
    let at = Moment {
        epoch: 160,
        stops: sup.processes.iter().map(|_| NOON).collect(),
        pid: 4242,
    };
    match dispatch(sup, method, params, &at) {
        Pending::Reply(r) => r,
        Pending::Run(mut batch, shape) => {
            loop {
                match batch.step(sup, 0) {
                    Work::Act { index, action } => {
                        if let Action::Launch(_) = action {
                            sup.launched(index, 42, 0, 100);
                        }
                    }
                    Work::Done => break,
                    _ => {}
                }
            }
            finish_run(&batch, shape, sup)
        }
        Pending::RunGroup(mut batch, group) => {
            let mut pid = 50;
            loop {
                match batch.step(sup, 0) {
                    Work::Act { index, action } => {
                        if let Action::Launch(_) = action {
                            sup.launched(index, pid, 0, 100);
                            pid += 1;
                        }
                    }
                    Work::Done => break,
                    _ => {}
                }
            }
            Ok(finish_group(&batch, &group))
        }
        Pending::Read(q) => finish_read(&q, sup, &LogFile::Data(b"line\n".to_vec())),
        Pending::Reload => finish_reload(sup, Config::parse(NEXT, "/tmp")),
        Pending::Add(programs) => {
            for (k, p) in programs.into_iter().enumerate() {
                let (i, action) = sup.add_process(p, 0);
                if let Action::Launch(_) = action {
                    sup.launched(i, 70 + k as i32, 0, 100);
                }
            }
            Ok(success())
        }
        Pending::Removed(_) => Ok(success()),
    }
}

fn member(v: &Value, key: &str) -> Value {
    match v {
        Value::Struct(members) => {
            for (k, m) in members {
                if k == key {
                    return match m {
                        Value::Str(s) => Value::Str(s.clone()),
                        Value::Int(i) => Value::Int(*i),
                        _ => panic!("simple"),
                    };
                }
            }
            panic!("a member")
        }
        _ => panic!("a struct"),
    }
}

#[test]
fn versions_and_names() {
    let mut sup = supervisor();
    assert_eq!(call(&mut sup, "supervisor.getAPIVersion", &[]), Ok(text("3.0")));
    assert_eq!(call(&mut sup, "getVersion", &[]), Ok(text("3.0")));
    assert_eq!(
        call(&mut sup, "supervisor.getSupervisorVersion", &[]),
        Ok(text("0.1.0"))
    );
    assert_eq!(
        call(&mut sup, "supervisor.getIdentification", &[]),
        Ok(text("me"))
    );
    assert_eq!(call(&mut sup, "supervisor.getPID", &[]), Ok(Value::Int(4242)));
}

#[test]
fn shutdown_and_restart_are_announced() {
    let mut sup = supervisor();
    let state = call(&mut sup, "supervisor.getState", &[]).unwrap();
    assert_eq!(member(&state, "statecode"), Value::Int(1));
    assert_eq!(member(&state, "statename"), text("RUNNING"));
    assert_eq!(call(&mut sup, "supervisor.shutdown", &[]), Ok(Value::Bool(true)));
    let state = call(&mut sup, "supervisor.getState", &[]).unwrap();
    assert_eq!(member(&state, "statecode"), Value::Int(-1));
    assert_eq!(member(&state, "statename"), text("SHUTDOWN"));
    let mut sup = supervisor();
    assert_eq!(call(&mut sup, "restart", &[]), Ok(Value::Bool(true)));
    assert!(sup.restart_requested);
}

#[test]
fn processes_are_shown() {
    let mut sup = supervisor();
    match call(&mut sup, "supervisor.getAllProcessInfo", &[]) {
        Ok(Value::Array(items)) => {
            assert_eq!(items.len(), 2);
            assert_eq!(member(&items[1], "name"), text("b"));
        }
        _ => panic!("a list"),
    }
    let info = call(&mut sup, "supervisor.getProcessInfo", &[text("a")]).unwrap();
    assert_eq!(member(&info, "group"), text("a"));
    assert_eq!(member(&info, "state"), Value::Int(0));
    assert_eq!(member(&info, "now"), Value::Int(160));
    assert_eq!(member(&info, "description"), text("Not started"));
    assert_eq!(member(&info, "logfile"), member(&info, "stdout_logfile"));
    assert_eq!(
        call(&mut sup, "supervisor.getProcessInfo", &[text("x")]),
        Err((10, "x".to_string()))
    );
}

#[test]
fn parameters_are_checked() {
    let mut sup = supervisor();
    let bad = Err((2, "expected string param 0".to_string()));
    assert_eq!(call(&mut sup, "supervisor.getProcessInfo", &[]), bad);
    assert_eq!(
        call(&mut sup, "supervisor.startProcess", &[Value::Int(1)]),
        Err((2, "expected string param 0".to_string()))
    );
    assert_eq!(
        call(&mut sup, "supervisor.unheardOf", &[]),
        Err((1, "supervisor.unheardOf".to_string()))
    );
}

#[test]
fn processes_are_started_and_stopped() {
    let mut sup = supervisor();
    assert_eq!(
        call(&mut sup, "supervisor.startProcess", &[text("a")]),
        Ok(Value::Bool(true))
    );
    assert_eq!(
        call(&mut sup, "supervisor.startProcess", &[text("a")]),
        Err((60, "a".to_string()))
    );
    assert_eq!(
        call(&mut sup, "supervisor.stopProcess", &[text("a")]),
        Ok(Value::Bool(true))
    );
    assert_eq!(
        call(&mut sup, "supervisor.stopProcess", &[text("b")]),
        Err((70, "b".to_string()))
    );
}

#[test]
fn groups_report_their_outcome() {
    let mut sup = supervisor();
    match call(&mut sup, "supervisor.startProcessGroup", &[text("a")]) {
        Ok(Value::Array(items)) => {
            assert_eq!(items.len(), 1);
            assert_eq!(member(&items[0], "group"), text("a"));
            assert_eq!(member(&items[0], "status"), Value::Int(80));
            assert_eq!(member(&items[0], "description"), text("started"));
        }
        _ => panic!("a list"),
    }
    match call(&mut sup, "supervisor.stopProcessGroup", &[text("x")]) {
        Ok(Value::Array(items)) => {
            assert_eq!(member(&items[0], "status"), Value::Int(10));
            assert_eq!(member(&items[0], "description"), text("error"));
        }
        _ => panic!("a list"),
    }
    match call(&mut sup, "supervisor.stopAllProcesses", &[]) {
        Ok(Value::Array(items)) => {
            assert_eq!(items.len(), 2);
            assert_eq!(member(&items[0], "description"), text("stopped"));
            assert_eq!(member(&items[1], "description"), text("not running"));
        }
        _ => panic!("a list"),
    }
}

#[test]
fn logs_are_read_and_followed() {
    let mut sup = supervisor();
    assert_eq!(
        call(&mut sup, "supervisor.readProcessLog", &[text("a")]),
        Ok(text("line\n"))
    );
    assert_eq!(
        call(
            &mut sup,
            "supervisor.readProcessStderrLog",
            &[text("a"), Value::Int(1), Value::Int(2)]
        ),
        Ok(text("in"))
    );
    assert_eq!(
        call(
            &mut sup,
            "supervisor.tailProcessStdoutLog",
            &[text("a"), Value::Int(1), Value::Int(2)]
        ),
        Ok(Value::Array(vec![
            text("in"),
            Value::Int(3),
            Value::Bool(true)
        ]))
    );
    assert_eq!(
        call(
            &mut sup,
            "supervisor.tailProcessStderrLog",
            &[text("a"), Value::Int(0), Value::Int(4096)]
        ),
        Ok(Value::Array(vec![
            text("line\n"),
            Value::Int(5),
            Value::Bool(false)
        ]))
    );
    // A tail is lenient when there is nothing to read.
    assert_eq!(
        call(
            &mut sup,
            "supervisor.tailProcessStdoutLog",
            &[text("x"), Value::Int(7)]
        ),
        Ok(Value::Array(vec![
            text(""),
            Value::Int(7),
            Value::Bool(false)
        ]))
    );
    assert_eq!(
        call(&mut sup, "supervisor.readProcessStdoutLog", &[text("x")]),
        Err((10, "x".to_string()))
    );
}

fn request(raw: &str) -> Request {
    read_request(&vec![raw.as_bytes().to_vec()]).unwrap()
}

fn post(path: &str, body: &str) -> Request {
    let raw = format!(
        "POST {path} HTTP/1.1\r\nContent-Length: {}\r\n\r\n{body}",
        body.len()
    );
    request(raw.as_str())
}

#[test]
fn requests_find_their_way() {
    let open = HttpAuth::default();
    assert!(matches!(
        route(&request("GET / HTTP/1.1\r\n\r\n"), &open),
        Route::Page
    ));
    // A GET never acts.
    assert!(matches!(
        route(&request("GET /?action=stopall HTTP/1.1\r\n\r\n"), &open),
        Route::Page
    ));
    match route(&post("/", "action=start&name=web"), &open) {
        Route::Form(action, name) => {
            assert_eq!(action, "start");
            assert_eq!(name, "web");
        }
        _ => panic!("a form"),
    }
    assert!(matches!(route(&post("/?x", "other=1"), &open), Route::Page));
    assert!(matches!(
        route(&post("/RPC2", "nonsense"), &open),
        Route::Malformed(_)
    ));
}

#[test]
fn calls_arrive() {
    let params = vec![text("a <b>"), Value::Int(-3)];
    let raw = call_request("supervisor.startProcess", params.as_slice());
    for cut in [1, 20, 100, raw.len() - 1] {
        let reads = vec![raw[..cut].to_vec(), raw[cut..].to_vec()];
        let req = read_request(&reads).unwrap();
        assert_eq!(req.method, "POST");
        assert_eq!(req.path, "/RPC2");
        match route(&req, &HttpAuth::default()) {
            Route::Call(method, got) => {
                assert_eq!(method, "supervisor.startProcess");
                assert_eq!(got, params);
            }
            _ => panic!("a call"),
        }
    }
}

#[test]
fn answers_arrive() {
    let answer: Result<Value, (i32, String)> = Ok(Value::Array(vec![text("x"), Value::Bool(true)]));
    match parse_reply(call_response(&answer).as_slice()) {
        Ok(v) => assert_eq!(Ok(v), answer),
        Err(_) => panic!("an answer"),
    }
    let fault: Result<Value, (i32, String)> = Err((10, "x".to_string()));
    match parse_reply(call_response(&fault).as_slice()) {
        Err(ClientError::Fault(code, message)) => {
            assert_eq!(code, 10);
            assert_eq!(message, "x");
        }
        _ => panic!("a fault"),
    }
    match parse_reply(malformed_response("why").as_slice()) {
        Err(ClientError::Fault(code, message)) => {
            assert_eq!(code, 1);
            assert_eq!(message, "malformed call: why");
        }
        _ => panic!("a fault"),
    }
}

#[test]
fn refusals_are_understood() {
    let auth = HttpAuth {
        username: Some("u".to_string()),
        password: Some("p".to_string()),
    };
    let req = request("GET / HTTP/1.1\r\n\r\n");
    assert!(matches!(route(&req, &auth), Route::Refused));
    // "u:p" base64 == "dTpw"
    let req = request("GET / HTTP/1.1\r\nAuthorization: Basic dTpw\r\n\r\n");
    assert!(matches!(route(&req, &auth), Route::Page));
    let bytes = refuse();
    let shown = String::from_utf8(bytes.clone()).unwrap();
    assert!(shown.starts_with("HTTP/1.1 401 Unauthorized\r\n"));
    assert!(shown.contains("WWW-Authenticate: Basic realm=\"supervisor\"\r\n"));
    match parse_reply(bytes.as_slice()) {
        Err(ClientError::Protocol(m)) => assert_eq!(m, "authentication required"),
        _ => panic!("a refusal"),
    }
}

#[test]
fn pages_are_html() {
    let shown = String::from_utf8(page_response("<p>")).unwrap();
    assert!(shown.contains("Content-Type: text/html; charset=utf-8\r\n"));
    assert!(shown.ends_with("\r\n\r\n<p>"));
}

#[test]
fn replies_without_a_body() {
    match read_reply("HTTP/1.1 200 OK\r\n") {
        Err(ClientError::Protocol(m)) => assert_eq!(m, "no HTTP body in response"),
        _ => panic!("an error"),
    }
}

fn names(v: &[&str]) -> Value {
    Value::Array(v.iter().map(|n| text(n)).collect())
}

#[test]
fn a_new_configuration_is_compared_by_group() {
    let mut sup = supervisor();
    assert_eq!(
        call(&mut sup, "supervisor.reloadConfig", &[]),
        Ok(Value::Array(vec![Value::Array(vec![
            names(&["g"]),
            names(&["b"]),
            names(&[]),
        ])]))
    );
    // What runs is not touched by that.
    assert_eq!(sup.names(), vec!["a".to_string(), "b".to_string()]);
    assert_eq!(sup.config.programs[1].command, "/bin/b");
    assert_eq!(
        finish_reload(&mut sup, Err("unreadable".to_string())),
        Err((92, "unreadable".to_string()))
    );
}

#[test]
fn differences_are_understood() {
    let d = difference(
        &Config::parse(NEXT, "/tmp").unwrap(),
        &Config::parse("[program:a]\ncommand=/bin/a\n[program:z]\ncommand=z\n", "/tmp").unwrap(),
    );
    let expected = ConfigDiff {
        added: vec!["z".to_string()],
        changed: vec![],
        removed: vec!["g".to_string(), "b".to_string()],
    };
    assert_eq!(d, expected);
    assert_eq!(read_diff(&diff_to_value(&d)), Some(expected));
    let same = Config::parse(NEXT, "/tmp").unwrap();
    let none = difference(&same, &Config::parse(NEXT, "/tmp").unwrap());
    assert!(none.added.is_empty() && none.changed.is_empty() && none.removed.is_empty());
}

#[test]
fn group_operations_reach_every_process_of_the_group() {
    let text_of = "[program:w]\ncommand=/bin/w\nnumprocs=2\nprocess_name=w_%(process_num)02d\n\
[program:a]\ncommand=/bin/a\n[program:b]\ncommand=/bin/b\n[program:c]\ncommand=/bin/c\n\
[group:g]\nprograms=a,b\n";
    let mut sup = Supervisor::new(Config::parse(text_of, "/tmp").unwrap());
    let outcomes = |v: Result<Value, (i32, String)>| match v {
        Ok(Value::Array(items)) => items
            .iter()
            .map(|i| {
                (
                    member(i, "name"),
                    member(i, "group"),
                    member(i, "status"),
                    member(i, "description"),
                )
            })
            .collect::<Vec<_>>(),
        _ => panic!("a list"),
    };
    let one = |name: &str, group: &str, status: i64, word: &str| {
        (text(name), text(group), Value::Int(status), text(word))
    };
    assert_eq!(
        outcomes(call(&mut sup, "supervisor.startProcessGroup", &[text("g")])),
        vec![one("a", "g", 80, "started"), one("b", "g", 80, "started")]
    );
    assert_eq!(
        outcomes(call(&mut sup, "supervisor.startProcessGroup", &[text("g")])),
        vec![one("a", "g", 60, "error"), one("b", "g", 60, "error")]
    );
    assert_eq!(
        outcomes(call(&mut sup, "supervisor.startProcessGroup", &[text("w")])),
        vec![one("w_00", "w", 80, "started"), one("w_01", "w", 80, "started")]
    );
    assert_eq!(
        outcomes(call(&mut sup, "supervisor.stopProcessGroup", &[text("g")])),
        vec![one("a", "g", 80, "stopped"), one("b", "g", 80, "stopped")]
    );
    // A program is a group of its own; a process can be named as one.
    assert_eq!(
        outcomes(call(&mut sup, "supervisor.startProcessGroup", &[text("c")])),
        vec![one("c", "c", 80, "started")]
    );
    assert_eq!(
        outcomes(call(&mut sup, "supervisor.stopProcessGroup", &[text("w_00")])),
        vec![one("w_00", "w_00", 80, "stopped")]
    );
    assert_eq!(
        outcomes(call(&mut sup, "supervisor.stopProcessGroup", &[text("ghost")])),
        vec![one("ghost", "ghost", 10, "error")]
    );
}

#[test]
fn a_group_that_has_settled_can_be_removed() {
    let mut sup = supervisor();
    let all = "supervisor.getAllProcessInfo";
    assert!(call(&mut sup, "startProcessGroup", &[text("b")]).is_ok());
    assert!(call(&mut sup, "stopProcessGroup", &[text("b")]).is_ok());
    assert!(!group_settled("b", &call(&mut sup, all, &[]).unwrap()));
    assert_eq!(
        call(&mut sup, "removeProcessGroup", &[text("b")]),
        Err((91, "b".to_string()))
    );
    sup.reap(50, 0, 0, 100);
    assert!(group_settled("b", &call(&mut sup, all, &[]).unwrap()));
    assert_eq!(
        call(&mut sup, "removeProcessGroup", &[text("b")]),
        Ok(Value::Bool(true))
    );
}

#[test]
fn groups_are_added() {
    let mut sup = supervisor();
    let add = "supervisor.addProcessGroup";
    assert_eq!(call(&mut sup, add, &[text("g")]), Err((10, "g".to_string())));
    assert_eq!(call(&mut sup, add, &[text("a")]), Err((90, "a".to_string())));
    assert_eq!(
        call(&mut sup, add, &[]),
        Err((2, "expected string param 0".to_string()))
    );
    assert!(call(&mut sup, "supervisor.reloadConfig", &[]).is_ok());
    assert_eq!(call(&mut sup, add, &[text("g")]), Ok(Value::Bool(true)));
    // `c` starts first, by its priority, and by itself.
    assert_eq!(sup.names(), vec!["c", "a", "b", "d"]);
    assert_eq!(sup.processes[0].pid, 70);
    assert_eq!(sup.processes[3].pid, 0);
    assert_eq!(sup.pid_index.get(&70), Some(&0));
    assert_eq!(call(&mut sup, add, &[text("g")]), Err((90, "g".to_string())));
}

#[test]
fn groups_are_removed() {
    let mut sup = supervisor();
    let remove = "supervisor.removeProcessGroup";
    assert_eq!(
        call(&mut sup, remove, &[text("ghost")]),
        Err((10, "ghost".to_string()))
    );
    assert_eq!(
        call(&mut sup, "startProcess", &[text("b")]),
        Ok(Value::Bool(true))
    );
    assert_eq!(call(&mut sup, remove, &[text("b")]), Err((91, "b".to_string())));
    assert_eq!(call(&mut sup, remove, &[text("a")]), Ok(Value::Bool(true)));
    assert_eq!(sup.names(), vec!["b"]);
    assert_eq!(sup.config.programs.len(), 1);
    assert_eq!(sup.pid_index.get(&42), Some(&0));
    // It is still configured, so it can come back.
    assert_eq!(
        call(&mut sup, "addProcessGroup", &[text("a")]),
        Ok(Value::Bool(true))
    );
    assert_eq!(sup.names(), vec!["b", "a"]);
}

#[test]
fn an_update_leaves_nothing_to_update() {
    let mut sup = supervisor();
    assert!(call(&mut sup, "reloadConfig", &[]).is_ok());
    assert!(call(&mut sup, "removeProcessGroup", &[text("b")]).is_ok());
    assert!(call(&mut sup, "addProcessGroup", &[text("b")]).is_ok());
    assert!(call(&mut sup, "addProcessGroup", &[text("g")]).is_ok());
    assert_eq!(
        call(&mut sup, "reloadConfig", &[]),
        Ok(Value::Array(vec![Value::Array(vec![
            names(&[]),
            names(&[]),
            names(&[]),
        ])]))
    );
}

#[test]
fn malformed_replies_are_protocol_errors() {
    match parse_reply(b"HTTP/1.1 200 OK\r\n\r\nnot xml") {
        Err(ClientError::Protocol(m)) => assert!(m.starts_with("expected <methodResponse>, got ")),
        _ => panic!("a protocol error"),
    }
    let sent = "HTTP/1.1 200 OK\r\n\r\n".to_string() + serialize_fault(-1, "no").as_str();
    match read_reply(sent.as_str()) {
        Err(ClientError::Fault(-1, m)) => assert_eq!(m, "no"),
        _ => panic!("a fault"),
    }
}

#[test]
fn client_errors_are_shown() {
    assert_eq!(ClientError::Io("x".to_string()).message(), "x");
    assert_eq!(
        ClientError::Protocol("x".to_string()).message(),
        "protocol error: x"
    );
    assert_eq!(
        ClientError::Fault(-1, "x".to_string()).message(),
        "fault -1: x"
    );
}

#[test]
fn a_call_goes_all_the_way() {
    let mut sup = supervisor();
    let raw = call_request("supervisor.stopProcess", &[text("a")]);
    let req = read_request(&raw.chunks(7).map(|c| c.to_vec()).collect()).unwrap();
    let answer = match route(&req, &HttpAuth::default()) {
        Route::Call(method, params) => call(&mut sup, method.as_str(), params.as_slice()),
        _ => panic!("a call"),
    };
    match parse_reply(call_response(&answer).as_slice()) {
        Err(ClientError::Fault(code, message)) => {
            assert_eq!(code, 70);
            assert_eq!(message, "a");
        }
        _ => panic!("a fault"),
    }
}

#[test]
fn a_tail_can_be_followed() {
    let mut sup = supervisor();
    let mut seen = String::new();
    let mut offset = 0;
    for _ in 0..4 {
        let params = [text("a"), Value::Int(offset), Value::Int(2)];
        match call(&mut sup, "supervisor.tailProcessStdoutLog", &params) {
            Ok(Value::Array(parts)) => match (&parts[0], &parts[1]) {
                (Value::Str(t), Value::Int(next)) => {
                    seen.push_str(t);
                    offset = *next;
                }
                _ => panic!("text and offset"),
            },
            _ => panic!("a list"),
        }
    }
    assert_eq!(seen, "line\n");
    assert_eq!(offset, 5);
}
