//! The control protocol.

use wintermute_platform::canonical_children;
use wintermute_platform::protocol::{
    bad_request, frame, unframe, ChildStatus, Response, SupervisorView, PROTOCOL_VERSION,
};

#[test]
fn supervisor_view_pending_for_preserves_order() {
    let view = SupervisorView::pending_for(&canonical_children());
    let names: Vec<&str> = view.children.iter().map(|c| c.name.as_str()).collect();
    assert_eq!(
        names,
        vec!["wm-audio", "wm-tts", "wm-stt", "wm-dialog", "wmd"]
    );
}

#[test]
fn pending_view_is_stamped_and_unmuted() {
    let view = SupervisorView::pending_for(&canonical_children());
    assert_eq!(view.protocol_version, PROTOCOL_VERSION);
    assert!(!view.muted);
    for c in &view.children {
        assert_eq!(c.status, ChildStatus::Pending);
        assert_eq!((c.uptime_secs, c.restart_count), (0, 0));
        assert_eq!((c.last_event.clone(), c.child_pid), (None, None));
    }
    assert_eq!(view.clone(), view);
    assert_eq!(SupervisorView::default().protocol_version, 0);
}

#[test]
fn a_message_comes_out_of_its_line() {
    let json = "{\"op\":\"status\"}";
    assert_eq!(frame(json), "{\"op\":\"status\"}\n");
    assert_eq!(unframe(&frame(json)), json);
    assert_eq!(unframe("{}\r\n\n"), "{}");
    assert_eq!(unframe("a\nb"), "a\nb");
}

#[test]
fn bad_request_says_what_is_wrong() {
    assert_eq!(
        bad_request("expected value at line 1 column 1"),
        Response::Error {
            message: "bad request: expected value at line 1 column 1".to_string()
        }
    );
}
