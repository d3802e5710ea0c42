use supervisor::config::assemble::has_wildcard;
use supervisor::config::assemble::Sources;
use supervisor::config::expand_process_name;
use supervisor::config::glob::select;
use supervisor::config::glob_match;
use supervisor::config::normalize_inet_addr;
use supervisor::config::parse_bool;
use supervisor::config::parse_byte_size;
use supervisor::config::parse_environment;
use supervisor::config::parse_ini;
use supervisor::config::parse_signal;
use supervisor::config::settings::default_tmpdir;
use supervisor::config::strip_inline_comment;
use supervisor::config::values::parse_autorestart;
use supervisor::config::values::parse_events;
use supervisor::config::values::parse_exitcodes;
use supervisor::config::values::parse_umask;
use supervisor::config::values::split_top_level_commas;
use supervisor::config::AutoRestart;
use supervisor::config::Config;
use supervisor::config::LogTarget;

fn parse(text: &str) -> Config {
    Config::parse(text, "/tmp").unwrap()
}

fn refusal(text: &str) -> String {
    Config::parse(text, "/tmp").unwrap_err()
}

#[test]
fn parses_byte_sizes() {
    assert_eq!(parse_byte_size("50MB").unwrap(), 50 * 1024 * 1024);
    assert_eq!(parse_byte_size("1KB").unwrap(), 1024);
    assert_eq!(parse_byte_size("512").unwrap(), 512);
    assert_eq!(parse_byte_size("1GB").unwrap(), 1024 * 1024 * 1024);
}

#[test]
fn strips_inline_comments_only_with_leading_space() {
    assert_eq!(strip_inline_comment("value ; comment"), "value");
    assert_eq!(strip_inline_comment("a=b;c"), "a=b;c");
}

#[test]
fn expands_process_names() {
    assert_eq!(expand_process_name("%(program_name)s", "web", 0), "web");
    assert_eq!(
        expand_process_name("%(program_name)s_%(process_num)02d", "web", 3),
        "web_03"
    );
}

#[test]
fn parses_a_basic_program() {
    let text = "\
[supervisord]
logfile=/tmp/sd.log

[unix_http_server]
file=/tmp/sup.sock

[program:web]
command=/bin/sleep 100
autostart=true
autorestart=unexpected
numprocs=2
process_name=%(program_name)s_%(process_num)02d
";
    let cfg = Config::parse(text, "/tmp").unwrap();
    assert_eq!(cfg.socket_path, Some("/tmp/sup.sock".to_string()));
    assert_eq!(cfg.programs.len(), 2);
    assert_eq!(cfg.programs[0].name, "web_00");
    assert_eq!(cfg.programs[1].name, "web_01");
    assert_eq!(cfg.programs[0].autorestart, AutoRestart::Unexpected);
}

#[test]
fn glob_matches_wildcards() {
    assert!(glob_match("*.conf", "web.conf"));
    assert!(glob_match("*.conf", ".conf"));
    assert!(!glob_match("*.conf", "web.cfg"));
    assert!(glob_match("conf-?.ini", "conf-1.ini"));
    assert!(!glob_match("conf-?.ini", "conf-12.ini"));
    assert!(glob_match("a*b*c", "axxbxxc"));
}

#[test]
fn group_section_assigns_membership() {
    let text = "\
[program:a]
command=/bin/true
[program:b]
command=/bin/true
[group:grp]
programs=a,b
priority=5
";
    let cfg = Config::parse(text, "/tmp").unwrap();
    for p in &cfg.programs {
        assert_eq!(p.group, "grp");
        assert_eq!(p.priority, 5);
    }
}

#[test]
fn eventlistener_section_is_parsed() {
    let text = "\
[eventlistener:l]
command=/bin/cat
events=PROCESS_STATE,TICK_60
buffer_size=20
";
    let cfg = Config::parse(text, "/tmp").unwrap();
    assert_eq!(cfg.programs.len(), 1);
    let l = &cfg.programs[0];
    assert!(l.is_listener);
    assert_eq!(l.buffer_size, 20);
    assert_eq!(
        l.events,
        vec!["PROCESS_STATE".to_string(), "TICK_60".to_string()]
    );
    assert_eq!(l.priority, -1); // listeners start first by default
}

#[test]
fn parses_environment_pairs() {
    let env = parse_environment(r#"A="1",B="2,3""#);
    assert_eq!(
        env,
        vec![
            ("A".to_string(), "1".to_string()),
            ("B".to_string(), "2,3".to_string())
        ]
    );
}

#[test]
fn byte_sizes_allow_case_and_space_and_refuse_the_rest() {
    assert_eq!(parse_byte_size(" 2 kB ").unwrap(), 2048);
    assert_eq!(parse_byte_size("7b").unwrap(), 7);
    assert_eq!(
        parse_byte_size(" ten ").unwrap_err(),
        "invalid byte size: \"ten\""
    );
    assert_eq!(
        parse_byte_size("-1").unwrap_err(),
        "invalid byte size: \"-1\""
    );
    assert_eq!(
        parse_byte_size("18014398509481984KB").unwrap_err(),
        "invalid byte size: \"18014398509481984KB\""
    );
}

#[test]
fn booleans_have_eight_spellings() {
    for s in ["true", "YES", " on ", "1"] {
        assert_eq!(parse_bool(s), Ok(true));
    }
    for s in ["false", "No", "off", "0"] {
        assert_eq!(parse_bool(s), Ok(false));
    }
    assert_eq!(
        parse_bool("Maybe").unwrap_err(),
        "invalid boolean: \"maybe\""
    );
}

#[test]
fn autorestart_has_three_kinds() {
    assert_eq!(parse_autorestart("true"), Ok(AutoRestart::Always));
    assert_eq!(parse_autorestart("off"), Ok(AutoRestart::Never));
    assert_eq!(parse_autorestart(" Unexpected "), Ok(AutoRestart::Unexpected));
    assert_eq!(
        parse_autorestart("sometimes").unwrap_err(),
        "invalid autorestart: \"sometimes\""
    );
}

#[test]
fn signals_have_the_platform_numbers() {
    assert_eq!(parse_signal("TERM"), Ok(libc::SIGTERM));
    assert_eq!(parse_signal("sigkill"), Ok(libc::SIGKILL));
    assert_eq!(parse_signal(" Int "), Ok(libc::SIGINT));
    assert_eq!(parse_signal("QUIT"), Ok(libc::SIGQUIT));
    assert_eq!(parse_signal("SIGHUP"), Ok(libc::SIGHUP));
    assert_eq!(parse_signal("USR1"), Ok(libc::SIGUSR1));
    assert_eq!(parse_signal("USR2"), Ok(libc::SIGUSR2));
    assert_eq!(parse_signal("STOP"), Ok(libc::SIGSTOP));
    assert_eq!(parse_signal("CONT"), Ok(libc::SIGCONT));
    assert_eq!(
        parse_signal("SIGWINCH").unwrap_err(),
        "unknown signal: \"SIGWINCH\""
    );
}

#[test]
fn umasks_are_octal() {
    assert_eq!(parse_umask("022"), Ok(18));
    assert_eq!(parse_umask("0o077"), Ok(63));
    assert_eq!(parse_umask("9").unwrap_err(), "invalid umask");
}

#[test]
fn exit_codes_are_a_list() {
    assert_eq!(parse_exitcodes("0, 2,,-1"), Ok(vec![0, 2, -1]));
    assert_eq!(parse_exitcodes(" , "), Ok(vec![0]));
    assert_eq!(
        parse_exitcodes("1,x").unwrap_err(),
        "invalid exitcode: \"x\""
    );
}

#[test]
fn event_names_are_upper_case() {
    assert_eq!(
        parse_events(" tick_5 ,, Event"),
        vec!["TICK_5".to_string(), "EVENT".to_string()]
    );
}

#[test]
fn commas_in_quotes_do_not_split() {
    assert_eq!(
        split_top_level_commas("a,\"b,c\",d"),
        vec!["a".to_string(), "\"b,c\"".to_string(), "d".to_string()]
    );
    assert_eq!(split_top_level_commas("a,"), vec!["a".to_string()]);
    assert!(split_top_level_commas("").is_empty());
}

#[test]
fn environment_quotes_are_optional() {
    let env = parse_environment("PATH = /bin , EMPTY=\"\", bare, X=\"");
    assert_eq!(
        env,
        vec![
            ("PATH".to_string(), "/bin".to_string()),
            ("EMPTY".to_string(), "".to_string()),
            ("X".to_string(), "\"".to_string()),
        ]
    );
}

#[test]
fn process_numbers_take_a_width() {
    assert_eq!(expand_process_name("p%(process_num)d", "x", 12), "p12");
    assert_eq!(expand_process_name("p%(process_num)4d", "x", 12), "p0012");
    let wide = expand_process_name("%(process_num)70000d", "x", 12);
    assert_eq!(wide.len(), 70000);
    assert!(wide.starts_with("000") && wide.ends_with("012"));
    assert_eq!(
        expand_process_name("%(process_num)d-%(process_num)02d", "x", 1),
        "1-01"
    );
    assert_eq!(
        expand_process_name("%(process_num)s", "x", 1),
        "%(process_num)s"
    );
}

#[test]
fn a_star_in_the_name_is_no_wildcard() {
    assert!(glob_match("*b", "*ab"));
    assert!(glob_match("**", "anything"));
    assert!(!glob_match("?", ""));
    assert!(has_wildcard("conf.d/*.conf"));
    assert!(has_wildcard("a?"));
    assert!(!has_wildcard("plain.conf"));
}

#[test]
fn ports_get_a_host() {
    assert_eq!(normalize_inet_addr(" *:9001"), "0.0.0.0:9001");
    assert_eq!(normalize_inet_addr("9001"), "127.0.0.1:9001");
    assert_eq!(normalize_inet_addr("10.0.0.1:80 "), "10.0.0.1:80");
}

#[test]
fn the_temporary_directory_has_a_default() {
    assert_eq!(default_tmpdir(None), "/tmp");
    assert_eq!(default_tmpdir(Some("/var/tmp".to_string())), "/var/tmp");
}

#[test]
fn sections_keep_their_order_and_continuations() {
    let s = parse_ini("; note\n[a]\nk = v ; why\nl: 1\n  two\n# note\n[b]\n").unwrap();
    assert_eq!(s.len(), 2);
    assert_eq!(s[0].name, "a");
    assert_eq!(
        s[0].items,
        vec![
            ("k".to_string(), "v".to_string()),
            ("l".to_string(), "1\ntwo".to_string())
        ]
    );
    assert_eq!(s[1].name, "b");
    assert!(s[1].items.is_empty());
}

#[test]
fn malformed_lines_are_refused() {
    assert_eq!(
        parse_ini("\n[a\n").unwrap_err(),
        "line 2: missing ']' in section header"
    );
    assert_eq!(
        parse_ini("[a]\nword\n").unwrap_err(),
        "line 2: expected 'key=value'"
    );
    assert_eq!(
        parse_ini("k=v\n").unwrap_err(),
        "line 1: key 'k' outside any [section]"
    );
}

#[test]
fn defaults_of_a_program() {
    let cfg = parse("[program:p]\ncommand=/bin/true\n");
    let p = &cfg.programs[0];
    assert_eq!(p.name, "p");
    assert_eq!(p.program, "p");
    assert_eq!(p.group, "p");
    assert!(p.autostart);
    assert_eq!(p.autorestart, AutoRestart::Unexpected);
    assert_eq!(p.startsecs, 1);
    assert_eq!(p.startretries, 3);
    assert_eq!(p.exitcodes, vec![0]);
    assert_eq!(p.stopsignal, libc::SIGTERM);
    assert_eq!(p.stopwaitsecs, 10);
    assert_eq!(p.user, None);
    assert_eq!(p.umask, None);
    assert_eq!(p.priority, 999);
    assert!(!p.redirect_stderr);
    assert!(matches!(p.stdout_logfile, LogTarget::Auto));
    assert_eq!(p.stdout_logfile_maxbytes, 50 * 1024 * 1024);
    assert_eq!(p.stdout_logfile_backups, 10);
    assert!(!p.is_listener);
    assert_eq!(p.buffer_size, 10);
}

#[test]
fn settings_of_a_program() {
    let cfg = parse(
        "[supervisord]\nenvironment=A=1\n[program:p]\ncommand=/bin/x\nautostart=no\nautorestart=always_no\n"
            .replace("always_no", "true")
            .as_str(),
    );
    let p = &cfg.programs[0];
    assert!(!p.autostart);
    assert_eq!(p.autorestart, AutoRestart::Always);
    assert_eq!(p.environment, vec![("A".to_string(), "1".to_string())]);
    let cfg = parse(
        "[supervisord]\nenvironment=A=1\n[program:p]\ncommand=/bin/x\nenvironment=B=2\nstdout_logfile=NONE\nstderr_logfile=/tmp/e.log\nstopsignal=INT\nuser=nobody\numask=022\nredirect_stderr=true\ndirectory=/srv\n",
    );
    let p = &cfg.programs[0];
    assert_eq!(
        p.environment,
        vec![
            ("A".to_string(), "1".to_string()),
            ("B".to_string(), "2".to_string())
        ]
    );
    assert!(matches!(p.stdout_logfile, LogTarget::Discard));
    match &p.stderr_logfile {
        LogTarget::Path(path) => assert_eq!(path, "/tmp/e.log"),
        _ => panic!("a path"),
    }
    assert_eq!(p.stopsignal, libc::SIGINT);
    assert_eq!(p.user, Some("nobody".to_string()));
    assert_eq!(p.umask, Some(18));
    assert!(p.redirect_stderr);
    assert_eq!(p.directory, Some("/srv".to_string()));
}

#[test]
fn instances_get_different_names() {
    let cfg = parse("[program:w]\ncommand=/bin/x\nnumprocs=3\n");
    let names: Vec<&str> = cfg.programs.iter().map(|p| p.name.as_str()).collect();
    assert_eq!(names, vec!["w_00", "w_01", "w_02"]);
    assert!(cfg.programs.iter().all(|p| p.program == "w"));
}

#[test]
fn programs_start_in_order_of_priority() {
    let cfg = parse(
        "[program:late]\ncommand=/x\n[program:a]\ncommand=/x\npriority=1\n[program:b]\ncommand=/x\npriority=1\n[eventlistener:l]\ncommand=/x\n",
    );
    let names: Vec<&str> = cfg.programs.iter().map(|p| p.name.as_str()).collect();
    assert_eq!(names, vec!["l", "a", "b", "late"]);
}

#[test]
fn listeners_keep_stderr_apart() {
    let cfg = parse("[eventlistener:l]\ncommand=/x\nredirect_stderr=true\n");
    assert!(!cfg.programs[0].redirect_stderr);
}

#[test]
fn the_last_of_two_equal_keys_counts() {
    let cfg = parse("[program:p]\ncommand=/first\ncommand=/second\n");
    assert_eq!(cfg.programs[0].command, "/second");
}

#[test]
fn remarks_change_nothing() {
    let plain = parse("[program:p]\ncommand=/x\n");
    let noted = parse("; one\n[program:p]\n\n# two\ncommand=/x\n");
    assert_eq!(plain.programs.len(), noted.programs.len());
    assert_eq!(plain.programs[0].command, noted.programs[0].command);
}

#[test]
fn supervisord_settings() {
    let cfg = parse(
        "[supervisord]\nlogfile=/l\nlogfile_maxbytes=1KB\nlogfile_backups=2\nloglevel=debug\npidfile=/p\nnodaemon=true\nsilent=1\nchildlogdir=/c\ndirectory=/d\nidentifier=me\numask=027\n",
    );
    let s = &cfg.supervisord;
    assert_eq!(s.logfile, "/l");
    assert_eq!(s.logfile_maxbytes, 1024);
    assert_eq!(s.logfile_backups, 2);
    assert_eq!(s.loglevel, "debug");
    assert_eq!(s.pidfile, "/p");
    assert!(s.nodaemon);
    assert!(s.silent);
    assert_eq!(s.childlogdir, "/c");
    assert_eq!(s.directory, Some("/d".to_string()));
    assert_eq!(s.identifier, "me");
    assert_eq!(s.umask, Some(23));
}

#[test]
fn servers_and_credentials() {
    let cfg = parse(
        "[unix_http_server]\nfile=/s\nusername=u\n[inet_http_server]\nport=*:9001\nusername=a\npassword=b\n",
    );
    assert_eq!(cfg.socket_path, Some("/s".to_string()));
    assert!(cfg.unix_auth.is_set());
    assert_eq!(cfg.unix_auth.password, None);
    assert_eq!(cfg.inet_addr, Some("0.0.0.0:9001".to_string()));
    assert_eq!(cfg.inet_auth.username, Some("a".to_string()));
    assert_eq!(cfg.inet_auth.password, Some("b".to_string()));
    assert!(!parse("").inet_auth.is_set());
}

#[test]
fn bad_settings_are_refused() {
    assert_eq!(
        refusal("[program:p]\nnumprocs=1\n"),
        "[program:p] is missing required 'command'"
    );
    assert_eq!(
        refusal("[eventlistener:p]\n"),
        "[eventlistener:p] is missing required 'command'"
    );
    assert_eq!(
        refusal("[program:p]\ncommand=/x\nnumprocs=many\n"),
        "invalid numprocs"
    );
    assert_eq!(
        refusal("[program:p]\ncommand=/x\nstartsecs=-1\n"),
        "invalid startsecs"
    );
    assert_eq!(
        refusal("[program:p]\ncommand=/x\nstartretries=x\n"),
        "invalid startretries"
    );
    assert_eq!(
        refusal("[program:p]\ncommand=/x\nstopwaitsecs=x\n"),
        "invalid stopwaitsecs"
    );
    assert_eq!(
        refusal("[program:p]\ncommand=/x\npriority=x\n"),
        "invalid priority"
    );
    assert_eq!(
        refusal("[program:p]\ncommand=/x\nbuffer_size=x\n"),
        "invalid buffer_size"
    );
    assert_eq!(
        refusal("[program:p]\ncommand=/x\numask=8\n"),
        "invalid umask"
    );
    assert_eq!(
        refusal("[program:p]\ncommand=/x\nstdout_logfile_backups=x\n"),
        "invalid stdout_logfile_backups"
    );
    assert_eq!(
        refusal("[program:p]\ncommand=/x\nstderr_logfile_backups=x\n"),
        "invalid stderr_logfile_backups"
    );
    assert_eq!(
        refusal("[supervisord]\nlogfile_backups=x\n"),
        "invalid logfile_backups"
    );
    assert_eq!(
        refusal("[group:g]\nprograms=ghost\n"),
        "[group:g] names unknown program ghost"
    );
    assert_eq!(
        refusal("[program:p]\ncommand=/x\n[group:g]\nprograms=p\npriority=x\n"),
        "invalid group priority"
    );
}

#[test]
fn included_files_follow_the_main_one() {
    let mut s = Sources::read("[include]\nfiles=conf.d/*.conf\n  extra.ini\n[program:a]\ncommand=/a\n")
        .unwrap();
    assert_eq!(
        s.patterns(),
        vec!["conf.d/*.conf".to_string(), "extra.ini".to_string()]
    );
    s.add("[program:b]\ncommand=/b\n").unwrap();
    assert_eq!(
        s.add("oops\n").unwrap_err(),
        "line 1: expected 'key=value'"
    );
    let cfg = s.finish("/etc/supervisord.conf", "/tmp").unwrap();
    let names: Vec<&str> = cfg.programs.iter().map(|p| p.name.as_str()).collect();
    assert_eq!(names, vec!["a", "b"]);
    assert_eq!(cfg.path, Some("/etc/supervisord.conf".to_string()));
}

#[test]
fn files_are_selected_in_order() {
    let names: Vec<String> = ["b.conf", "x.ini", "a.conf", "", "a.conf", "B.conf"]
        .iter()
        .map(|s| s.to_string())
        .collect();
    assert_eq!(select("*.conf", &names), vec![5, 2, 4, 0]);
    assert!(select("*.none", &names).is_empty());
}

#[test]
fn quoted_variables_may_hold_commas() {
    let cfg = parse("[program:p]\ncommand=/x\nenvironment=A=\"1,2 3\",B=\"=\"\n");
    assert_eq!(
        cfg.programs[0].environment,
        vec![
            ("A".to_string(), "1,2 3".to_string()),
            ("B".to_string(), "=".to_string())
        ]
    );
}
