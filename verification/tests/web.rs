use supervisor::config::Config;
use supervisor::daemon::batch::Work;
use supervisor::daemon::Supervisor;
use supervisor::process::Action;
use supervisor::process::LocalTime;
use supervisor::states::ProcessState;
use supervisor::web::begin_action;
use supervisor::web::html_escape;
use supervisor::web::make_namespec;
use supervisor::web::notice;
use supervisor::web::parse_form;
use supervisor::web::render;
use supervisor::web::requested_action;
use supervisor::web::state_class;
use supervisor::web::state_from_code;
use supervisor::web::url_decode;

const NOON: LocalTime = LocalTime {
    mon: 0,
    mday: 1,
    hour: 12,
    min: 0,
};

fn supervisor() -> Supervisor {
    let text = "[supervisord]\nidentifier=<me>\n[program:a]\ncommand=/bin/a\n[program:b]\ncommand=/bin/b\n[group:g]\nprograms=b\n";
    Supervisor::new(Config::parse(text, "/tmp").unwrap())
}

/// Runs what an action asks for and says what the page says about it.
fn act(sup: &mut Supervisor, action: &str, name: &str) -> String {
    let mut batch = begin_action(sup, action, name);
    loop {
        match batch.step(sup, 0) {
            Work::Act { index, action } => {
                if let Action::Launch(_) = action {
                    sup.launched(index, 42 + index as i32, 0, 100);
                }
            }
            Work::Done => break,
            _ => {}
        }
    }
    notice(action, name, &batch)
}

fn pair(k: &str, v: &str) -> (String, String) {
    (k.to_string(), v.to_string())
}

#[test]
fn forms_are_decoded() {
    assert_eq!(
        parse_form("a=1&&b=x+y&c&d=%41%e2%82%ac&e=1=2"),
        vec![
            pair("a", "1"),
            pair("b", "x y"),
            pair("c", ""),
            pair("d", "A\u{20ac}"),
            pair("e", "1=2"),
        ]
    );
    assert!(parse_form("").is_empty());
}

#[test]
fn stray_percent_signs_stay() {
    assert_eq!(url_decode("100%"), "100%");
    assert_eq!(url_decode("%4"), "%4");
    assert_eq!(url_decode("%zz"), "%zz");
    assert_eq!(url_decode("%ff"), "\u{fffd}");
}

#[test]
fn a_form_asks_for_an_action() {
    assert_eq!(
        requested_action(&parse_form("name=web%201&action=stop")),
        Some(pair("stop", "web 1"))
    );
    assert_eq!(
        requested_action(&parse_form("action=startall")),
        Some(pair("startall", ""))
    );
    assert_eq!(requested_action(&parse_form("name=x")), None);
    // The first of two equal keys counts.
    assert_eq!(
        requested_action(&parse_form("action=a&action=b")),
        Some(pair("a", ""))
    );
}

#[test]
fn actions_are_noted() {
    let mut sup = supervisor();
    assert_eq!(act(&mut sup, "start", "a"), "a: started");
    assert_eq!(act(&mut sup, "start", "a"), "a: could not start");
    assert_eq!(act(&mut sup, "stop", "b"), "b: not running");
    assert_eq!(act(&mut sup, "stop", "a"), "a: stopped");
    assert_eq!(act(&mut sup, "restart", "b"), "b: restarted");
    assert_eq!(act(&mut sup, "restart", "x"), "x: no such process");
    assert_eq!(act(&mut sup, "startall", ""), "started all processes");
    assert_eq!(act(&mut sup, "stopall", ""), "stopped all processes");
    assert_eq!(act(&mut sup, "restartall", ""), "restarted all processes");
}

#[test]
fn unknown_actions_do_nothing() {
    let mut sup = supervisor();
    assert_eq!(act(&mut sup, "explode", "a"), "");
    assert_eq!(sup.processes[0].state, ProcessState::Stopped);
}

#[test]
fn all_actions_reach_every_process() {
    let mut sup = supervisor();
    act(&mut sup, "startall", "");
    assert_eq!(sup.processes[0].pid, 42);
    assert_eq!(sup.processes[1].pid, 43);
    act(&mut sup, "restartall", "");
    assert!(sup.processes[0].restart_pending);
    assert!(sup.processes[1].restart_pending);
}

#[test]
fn text_is_escaped() {
    assert_eq!(
        html_escape("<a href=\"x\">&amp;</a>"),
        "&lt;a href=&quot;x&quot;&gt;&amp;amp;&lt;/a&gt;"
    );
    assert_eq!(html_escape("plain 'text'"), "plain 'text'");
}

#[test]
fn states_have_classes() {
    for (code, class) in [
        (0, "off"),
        (10, "pending"),
        (20, "ok"),
        (30, "bad"),
        (40, "pending"),
        (100, "off"),
        (200, "bad"),
        (1000, "off"),
        (7, "off"),
    ] {
        assert_eq!(state_class(state_from_code(code)), class);
    }
    assert_eq!(state_from_code(100), ProcessState::Exited);
    assert_eq!(state_from_code(5), ProcessState::Unknown);
}

#[test]
fn namespecs_leave_out_the_obvious() {
    assert_eq!(make_namespec("web", "web"), "web");
    assert_eq!(make_namespec("", "web"), "web");
    assert_eq!(make_namespec("g", "web"), "g:web");
}

#[test]
fn the_page_shows_every_process() {
    let sup = supervisor();
    let page = render(&sup, "", 100, &vec![NOON, NOON]);
    assert!(page.starts_with("<!doctype html>\n<html lang=\"en\">"));
    assert!(page.ends_with("</body></html>"));
    assert!(page.contains("<title>Supervisor Status \u{2014} &lt;me&gt;</title><style>"));
    assert!(page.contains(
        "<tr><td><span class=\"state off\">STOPPED</span></td><td class=\"name\">a</td><td class=\"desc\">Not started</td><td class=\"actions\">"
    ));
    assert!(page.contains("<td class=\"name\">g:b</td>"));
    assert!(page.contains(
        "<form method=\"post\" action=\"/\" class=\"act\"><input type=\"hidden\" name=\"action\" value=\"restart\"><input type=\"hidden\" name=\"name\" value=\"b\"><button type=\"submit\">restart</button></form></td></tr></tbody>"
    ));
    assert!(page.contains(
        "<div class=\"toolbar\"><form method=\"post\" action=\"/\" class=\"tb\"><input type=\"hidden\" name=\"action\" value=\"startall\"><button type=\"submit\" class=\"btn\">Start all</button></form>"
    ));
    assert!(!page.contains("class=\"notice\""));
    assert!(!page.contains("No programs configured"));
}

#[test]
fn the_page_shows_what_happened() {
    let cfg = Config::parse("", "/tmp").unwrap();
    let sup = Supervisor::new(cfg);
    let page = render(&sup, "a & b: started", 100, &Vec::new());
    assert!(page.contains("<p class=\"notice\">a &amp; b: started</p>"));
    assert!(page.contains("<tr><td colspan=\"4\">No programs configured</td></tr>"));
}

#[test]
fn a_button_submits_its_action() {
    for name in ["web", "a&b=c", "100%+", "gr\u{fc}n \"x\"", ""] {
        let encoded: String = name.bytes().map(|b| format!("%{b:02X}")).collect();
        let body = format!("action=%73top&name={encoded}");
        assert_eq!(
            requested_action(&parse_form(body.as_str())),
            Some(pair("stop", name))
        );
    }
}
