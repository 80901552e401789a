use really_notify::config::FileWatcherConfig;
use really_notify::error::FileWatcherError;
use really_notify::fallback::{is_relevant, paths_to_watch, ChangeKind};
use really_notify::path::NormalPath;
use std::time::Duration;

fn path(s: &str) -> NormalPath {
    NormalPath::parse(&s.as_bytes().to_vec())
}

#[test]
fn default_setup() {
    let config = FileWatcherConfig::new("./test.yaml", "config");
    assert_eq!(config.file, b"./test.yaml".to_vec());
    assert_eq!(config.log_name, "config");
    assert_eq!(config.retry_interval, Duration::from_secs(1));
    let out = config.read_target(Ok(vec![1, 2, 3]));
    assert!(matches!(out, Ok(ref v) if v == &vec![1, 2, 3]));
}

#[test]
fn setup_from_a_path_that_is_no_text() {
    let config = FileWatcherConfig::from_bytes(vec![b'/', 0xff, b'/', b'c'], "raw");
    assert_eq!(config.file, vec![b'/', 0xff, b'/', b'c']);
    assert_eq!(config.log_name, "raw");
    assert_eq!(config.retry_interval, Duration::from_secs(1));
    assert_eq!(config.watcher_context(None).unwrap().file.to_bytes(), vec![b'/', 0xff, b'/', b'c']);
    let parsed = config.with_parser(|data: Vec<u8>| Ok::<usize, String>(data.len()));
    assert_eq!(parsed.file, vec![b'/', 0xff, b'/', b'c']);
}

#[test]
fn parser_and_interval_can_be_replaced() {
    let config = FileWatcherConfig::new("/etc/app.yaml", "app")
        .with_parser(|data| String::from_utf8(data))
        .with_retry_interval(Duration::from_millis(250));
    assert_eq!(config.file, b"/etc/app.yaml".to_vec());
    assert_eq!(config.log_name, "app");
    assert_eq!(config.retry_interval, Duration::from_millis(250));
    assert!(matches!(config.read_target(Ok(b"good".to_vec())), Ok(ref s) if s == "good"));
    assert!(matches!(config.read_target(Ok(vec![0xff])), Err(FileWatcherError::Parse(_))));
    let failed = config.read_target(Err(std::io::Error::new(std::io::ErrorKind::PermissionDenied, "eacces")));
    assert!(matches!(failed, Err(FileWatcherError::Io(ref e)) if e.kind() == std::io::ErrorKind::PermissionDenied));
}

#[test]
fn parser_that_rejects_some_contents() {
    let config = FileWatcherConfig::new("./cfg", "cfg").with_parser(|data: Vec<u8>| {
        if data.first() == Some(&b'!') {
            Err("starts with !".to_string())
        } else {
            Ok(data)
        }
    });
    assert!(matches!(config.read_target(Ok(b"!bad".to_vec())), Err(FileWatcherError::Parse(ref e)) if e == "starts with !"));
    assert!(matches!(config.read_target(Ok(b"good".to_vec())), Ok(ref v) if v == b"good"));
}

#[test]
fn relative_path_is_read_from_the_working_directory() {
    let config = FileWatcherConfig::new("./cfg", "cfg");
    let cwd = b"/home/me".to_vec();
    assert_eq!(config.absolute_file(Some(&cwd)), b"/home/me/./cfg".to_vec());
    assert_eq!(config.absolute_file(None), b"./cfg".to_vec());
    let context = config.watcher_context(Some(&cwd)).unwrap();
    assert_eq!(context.file.to_bytes(), b"/home/me/cfg".to_vec());
    assert_eq!(context.log_name, "cfg");
    assert_eq!(context.retry_interval, Duration::from_secs(1));
    assert!(config.watcher_context(None).is_none());
    assert!(config.watcher_context(Some(&b"home".to_vec())).is_none());
}

#[test]
fn absolute_path_stands_for_itself() {
    let config = FileWatcherConfig::new("/etc//app/./cfg", "cfg");
    let cwd = b"/home/me".to_vec();
    assert_eq!(config.absolute_file(Some(&cwd)), b"/etc//app/./cfg".to_vec());
    assert_eq!(config.watcher_context(None).unwrap().file.to_bytes(), b"/etc/app/cfg".to_vec());
}

#[test]
fn ancestors_follow_std() {
    for spelling in ["/", "/a", "/a/b/c"] {
        let ours: Vec<Vec<u8>> = path(spelling).ancestors().iter().map(|p| p.to_bytes()).collect();
        let std: Vec<Vec<u8>> =
            std::path::Path::new(spelling).ancestors().map(|p| p.to_str().unwrap().as_bytes().to_vec()).collect();
        assert_eq!(ours, std);
    }
}

#[test]
fn fallback_watches_both_spellings() {
    let list: Vec<Vec<u8>> =
        paths_to_watch(&path("/w/cfg"), &path("/srv/real/cfg")).iter().map(|p| p.to_bytes()).collect();
    let expected: Vec<Vec<u8>> = ["/w/cfg", "/w", "/", "/srv/real/cfg", "/srv/real", "/srv", "/"]
        .iter()
        .map(|s| s.as_bytes().to_vec())
        .collect();
    assert_eq!(list, expected);
}

#[test]
fn fallback_filters_by_kind_and_path() {
    let file = path("/w/cfg");
    let real = path("/srv/real/cfg");
    assert!(is_relevant(ChangeKind::Modify, &vec![path("/w/cfg")], &file, &real));
    assert!(is_relevant(ChangeKind::CloseWrite, &vec![path("/srv/real/cfg")], &file, &real));
    assert!(is_relevant(ChangeKind::Remove, &vec![path("/other"), path("/srv")], &file, &real));
    assert!(!is_relevant(ChangeKind::Other, &vec![path("/w/cfg")], &file, &real));
    assert!(!is_relevant(ChangeKind::Modify, &vec![path("/w/other"), path("/srv/real/cfg/x")], &file, &real));
    assert!(!is_relevant(ChangeKind::Modify, &vec![], &file, &real));
    assert!(path("/w").leads_to(&file));
    assert!(!path("/w/c").leads_to(&file));
    assert!(file.same(&path("//w/./cfg/")));
    assert!(!file.same(&real));
    assert_eq!(file.depth(), 2);
    assert!(path("/").is_root());
}
