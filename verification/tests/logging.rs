use std::collections::BTreeMap;

use supervisor::logger::FileAction;
use supervisor::logger::RotatingLogger;
use supervisor::syslog::Syslog;

#[test]
fn forwards_complete_lines() {
    let mut sl = Syslog::new("myprog", true);
    assert_eq!(sl.feed(b"hello\nwor"), vec![b"<30>myprog: hello".to_vec()]);
    assert_eq!(sl.feed(b"ld\n"), vec![b"<30>myprog: world".to_vec()]);
}

#[test]
fn lines_are_cut_by_line_feeds_alone() {
    let all = b"one\ntwo\nthree";
    for cut in 0..all.len() + 1 {
        let mut sl = Syslog::new("p", true);
        let mut got = sl.feed(&all[..cut]);
        got.extend(sl.feed(&all[cut..]));
        assert_eq!(got, vec![b"<30>p: one".to_vec(), b"<30>p: two".to_vec()]);
    }
}

#[test]
fn without_a_connection_nothing_is_sent() {
    let mut sl = Syslog::new("p", false);
    assert!(sl.feed(b"one\n").is_empty());
}

fn logger(maxbytes: u64, backups: u32, size: u64) -> RotatingLogger {
    let mut l = RotatingLogger::new(Some("/l".to_string()), maxbytes, backups);
    l.opened(Some(size));
    l
}

#[test]
fn a_full_log_is_rotated() {
    let mut l = logger(10, 2, 8);
    assert!(l.write(2).is_empty());
    l.appended(2);
    assert_eq!(l.size, 10);
    assert_eq!(
        l.write(1),
        vec![
            FileAction::Remove("/l.2".to_string()),
            FileAction::Rename("/l.1".to_string(), "/l.2".to_string()),
            FileAction::Rename("/l".to_string(), "/l.1".to_string()),
            FileAction::Open("/l".to_string()),
        ]
    );
    l.reopened(true);
    l.appended(1);
    assert_eq!(l.size, 1);
    assert!(l.open);
}

#[test]
fn without_backups_the_log_goes() {
    let mut l = logger(10, 0, 10);
    assert_eq!(
        l.write(1),
        vec![
            FileAction::Remove("/l".to_string()),
            FileAction::Open("/l".to_string())
        ]
    );
    l.reopened(false);
    assert!(!l.open);
    assert!(l.write(100).is_empty());
}

#[test]
fn zero_disables_rotation() {
    let mut l = logger(0, 5, u64::MAX);
    assert!(l.write(1000).is_empty());
    l.appended(1000);
    assert_eq!(l.size, u64::MAX);
}

#[test]
fn clearing_deletes_the_backups() {
    let mut l = logger(10, 2, 5);
    assert_eq!(
        l.clear(),
        vec![
            FileAction::Remove("/l.1".to_string()),
            FileAction::Remove("/l.2".to_string()),
            FileAction::Truncate("/l".to_string()),
            FileAction::Open("/l".to_string()),
        ]
    );
    assert_eq!(l.size, 0);
}

#[test]
fn a_null_logger_does_nothing() {
    let mut l = RotatingLogger::null();
    assert!(l.write(1000).is_empty());
    assert!(l.clear().is_empty());
    let mut l = RotatingLogger::new(Some("/x".to_string()), 1, 1);
    l.opened(None);
    assert!(l.write(1000).is_empty());
    assert_eq!(l.path, None);
}

/// The files after some actions.
fn apply(files: &mut BTreeMap<String, String>, actions: &[FileAction]) {
    for a in actions {
        match a {
            FileAction::Remove(p) => {
                files.remove(p);
            }
            FileAction::Rename(from, to) => {
                if let Some(c) = files.remove(from) {
                    files.insert(to.clone(), c);
                }
            }
            FileAction::Truncate(p) => {
                files.insert(p.clone(), String::new());
            }
            FileAction::Open(p) => {
                files.entry(p.clone()).or_default();
            }
        }
    }
}

#[test]
fn rotation_keeps_the_newest() {
    let mut files = BTreeMap::new();
    files.insert("/other".to_string(), "untouched".to_string());
    let mut l = logger(4, 2, 0);
    for chunk in ["aaaa", "bbbb", "cccc", "dddd"] {
        apply(&mut files, l.write(chunk.len()).as_slice());
        l.reopened(true);
        files.entry("/l".to_string()).or_default().push_str(chunk);
        l.appended(chunk.len());
    }
    assert_eq!(files["/l"], "dddd");
    assert_eq!(files["/l.1"], "cccc");
    assert_eq!(files["/l.2"], "bbbb");
    assert_eq!(files.len(), 4);
    apply(&mut files, l.clear().as_slice());
    assert_eq!(files["/l"], "");
    assert_eq!(files["/other"], "untouched");
    assert_eq!(files.len(), 2);
}
