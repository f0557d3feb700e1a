//! The fleet: names, paths, settings, logs and restart counting.

use wintermute_platform::files::{bootstrap_env_path_with, join_path};
use wintermute_platform::{
    canonical_children, child_log_path_with, socket_path_with, tail_child_log_with, Duration,
    EnvConfig, FileRead, Instant, RestartTracker, BACKOFF_SECS, BOOTSTRAP_ENV_PATH,
    RESTART_WINDOW_SECS,
};

fn start() -> Instant {
    Instant::from_nanos(9_000_000_000_000)
}

#[test]
fn canonical_children_in_documented_order() {
    let kids = canonical_children();
    let names: Vec<&str> = kids.iter().map(|c| c.name.as_str()).collect();
    assert_eq!(
        names,
        vec!["wm-audio", "wm-tts", "wm-stt", "wm-dialog", "wmd"]
    );
    assert_eq!(kids.len(), 5);
}

#[test]
fn env_parse_handles_comments_blanks_and_kv() {
    let env = EnvConfig::parse(
        "# header\n\nWM_USER_NAME=Mary\n  WM_WAKE_WORD = hey_jarvis  \njunkline\n",
    );
    assert_eq!(env.keys.get("WM_USER_NAME"), Some(&"Mary".to_string()));
    assert_eq!(env.keys.get("WM_WAKE_WORD"), Some(&"hey_jarvis".to_string()));
    assert_eq!(env.keys.len(), 2);
}

#[test]
fn env_load_missing_returns_none() {
    let cfg = EnvConfig::load_optional("/srv/nope.env", &|_p: &str| FileRead::NotFound);
    assert!(matches!(cfg, Ok(None)));
}

#[test]
fn env_load_present_returns_some() {
    let read = |p: &str| {
        assert_eq!(p, "/srv/00.env");
        FileRead::Text("WM_USER_NAME=Mary\n".to_string())
    };
    let cfg = EnvConfig::load_optional("/srv/00.env", &read).expect("readable");
    assert!(cfg.is_some_and(|c| c.keys.len() == 1));
}

#[test]
fn restart_tracker_no_storm_below_threshold() {
    let mut t = RestartTracker::default();
    let now = start();
    for i in 0..4 {
        let d = t.record(now.plus(Duration::from_millis(i * 100)));
        assert_eq!(d, Duration::zero());
        assert!(!t.in_storm());
    }
    assert_eq!(t.restarts_in_window(), 4);
}

#[test]
fn restart_tracker_storm_triggers_backoff() {
    let mut t = RestartTracker::default();
    let now = start();
    for i in 0..4 {
        t.record(now.plus(Duration::from_millis(i * 100)));
    }
    let d = t.record(now.plus(Duration::from_millis(500)));
    assert_eq!(d, Duration::from_secs(BACKOFF_SECS));
    assert!(t.in_storm());
}

#[test]
fn restart_tracker_expires_old_entries() {
    let mut t = RestartTracker::default();
    let now = start();
    for i in 0..4 {
        t.record(now.plus(Duration::from_millis(i * 10)));
    }
    let later = now.plus(Duration::from_secs(RESTART_WINDOW_SECS + 1));
    let d = t.record(later);
    assert_eq!(d, Duration::zero());
    assert!(!t.in_storm());
    assert_eq!(t.restarts_in_window(), 1);
}

#[test]
fn socket_path_under_explicit_xdg_runtime_dir() {
    let p = socket_path_with(Some("/run/user/1000"));
    assert_eq!(p, "/run/user/1000/wintermute/init.sock");
}

#[test]
fn socket_path_falls_back_to_tmp_when_unset() {
    let p = socket_path_with(None);
    assert_eq!(p, "/tmp/wintermute/init.sock");
}

#[test]
fn child_log_path_under_explicit_home() {
    let p = child_log_path_with(Some("/home/test"), "wm-audio");
    assert_eq!(p, "/home/test/.local/state/wintermute/logs/wm-audio.log");
}

#[test]
fn tail_child_log_missing_file_returns_empty() {
    let lines = tail_child_log_with(Some("/home/test"), "wm-audio", 20, &|_p: &str| {
        FileRead::NotFound
    })
    .expect("missing log is no error");
    assert!(lines.is_empty());
}

fn child_log(child: &'static str, contents: &'static str) -> impl Fn(&str) -> FileRead {
    move |p: &str| {
        assert_eq!(p, format!("/home/test/.local/state/wintermute/logs/{child}.log"));
        FileRead::Text(contents.to_string())
    }
}

#[test]
fn tail_child_log_returns_last_n_lines_in_order() {
    let read = child_log("wm-audio", "a\nb\nc\nd\ne\n");
    let lines = tail_child_log_with(Some("/home/test"), "wm-audio", 3, &read).expect("tail");
    assert_eq!(lines, vec!["c".to_string(), "d".into(), "e".into()]);
}

#[test]
fn tail_child_log_tail_larger_than_file_returns_all() {
    let read = child_log("wm-stt", "one\ntwo\n");
    let lines = tail_child_log_with(Some("/home/test"), "wm-stt", 20, &read).expect("tail");
    assert_eq!(lines, vec!["one".to_string(), "two".into()]);
}

#[test]
fn tail_child_log_zero_returns_empty() {
    let read = child_log("wm-tts", "x\ny\n");
    let lines = tail_child_log_with(Some("/home/test"), "wm-tts", 0, &read).expect("tail");
    assert!(lines.is_empty());
}

#[test]
fn tail_child_log_surfaces_read_errors() {
    let read = |_p: &str| FileRead::Failed("permission denied".to_string());
    let err = tail_child_log_with(None, "wmd", 0, &read).unwrap_err();
    assert_eq!(err, "permission denied");
}

#[test]
fn tail_drops_line_ends() {
    let read = |_p: &str| FileRead::Text("a\r\nb\r\r\n\rc\nd\r".to_string());
    assert_eq!(
        tail_child_log_with(None, "x", 9, &read),
        Ok(vec!["a".to_string(), "b".into(), "\rc".into(), "d".into()])
    );
    assert_eq!(tail_child_log_with(None, "x", 1, &read), Ok(vec!["d".to_string()]));
}

#[test]
fn env_load_surfaces_read_errors() {
    let read = |_p: &str| FileRead::Failed("is a directory".to_string());
    assert_eq!(
        EnvConfig::load_optional("/srv", &read).unwrap_err(),
        "is a directory"
    );
}

#[test]
fn env_parse_last_value_wins_and_keys_are_sorted() {
    let env = EnvConfig::parse("B=1\nA==x=\n#C=3\nB= 2 \n=v\n");
    assert_eq!(env.value("B"), Some(&"2".to_string()));
    assert_eq!(env.value("A"), Some(&"=x=".to_string()));
    assert_eq!(env.value(""), Some(&"v".to_string()));
    assert_eq!(env.value("C"), None);
    assert_eq!(env.keys.keys(), vec!["".to_string(), "A".into(), "B".into()]);
    assert_eq!(EnvConfig::default().keys.len(), 0);
}

#[test]
fn bootstrap_path_is_the_chosen_one_or_the_default() {
    assert_eq!(bootstrap_env_path_with(Some("/x.env")), "/x.env");
    assert_eq!(bootstrap_env_path_with(None), BOOTSTRAP_ENV_PATH);
}

#[test]
fn paths_join_like_directories() {
    assert_eq!(join_path("/a", "b"), "/a/b");
    assert_eq!(join_path("/a/", "b"), "/a/b");
    assert_eq!(join_path("", "b"), "b");
    assert_eq!(join_path("/a", "/b"), "/b");
}

#[test]
fn restart_tracker_keeps_an_entry_exactly_one_window_old() {
    let mut t = RestartTracker::default();
    let now = start();
    t.record(now);
    t.record(now.plus(Duration::from_secs(RESTART_WINDOW_SECS)));
    assert_eq!(t.restarts_in_window(), 2);
    t.record(now.plus(Duration::from_millis(RESTART_WINDOW_SECS * 1000 + 1)));
    assert_eq!(t.restarts_in_window(), 2);
}

#[test]
fn restart_tracker_near_the_start_of_the_clock_expires_nothing() {
    let mut t = RestartTracker::default();
    t.record(Instant::from_nanos(0));
    t.record(Instant::from_nanos(1));
    assert_eq!(t.restarts_in_window(), 2);
}

#[test]
fn fleet_names_are_distinct() {
    let kids = canonical_children();
    for (i, a) in kids.iter().enumerate() {
        assert!(kids.iter().skip(i + 1).all(|b| a.name != b.name));
    }
}

#[test]
fn settings_are_equal_when_their_keys_and_values_are() {
    assert_eq!(EnvConfig::parse("A=1\nB=2\n"), EnvConfig::parse("# x\nB = 2\nA=0\nA=1"));
    assert_eq!(EnvConfig::parse("junk"), EnvConfig::default());
    assert_ne!(EnvConfig::parse("A=1"), EnvConfig::parse("A=2"));
}
