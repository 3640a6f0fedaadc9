use agent_browser::session::Session;
use agent_browser::supervisor::choose_candidate;
use agent_browser::supervisor::liveness_probe_target;
use agent_browser::supervisor::poll_step;
use agent_browser::supervisor::PollStep;
use agent_browser::supervisor::SupError;
use agent_browser::supervisor::POLL_INTERVAL_MS;
use agent_browser::supervisor::POLL_LIMIT;

fn session(tag: &str) -> Session {
    Session::new("/tmp".to_string(), Some(tag.to_string()))
}

#[test]
fn session_paths_follow_tag() {
    let s = session("work");
    assert_eq!(s.socket_path(), "/tmp/agent-browser-work.sock");
    assert_eq!(s.pid_path(), "/tmp/agent-browser-work.pid");
}

#[test]
fn session_default_tag() {
    let s = Session::new("/tmp".to_string(), None);
    assert_eq!(s.socket_path(), "/tmp/agent-browser-default.sock");
    assert_eq!(s.pid_path(), "/tmp/agent-browser-default.pid");
}

#[test]
fn distinct_tags_give_distinct_paths() {
    let a = session("one");
    let b = session("two");
    assert_ne!(a.socket_path(), b.socket_path());
    assert_ne!(a.pid_path(), b.pid_path());
    assert_ne!(a.socket_path(), a.pid_path());
}

#[test]
fn paths_are_stable_across_calls() {
    let s = session("same");
    assert_eq!(s.socket_path(), s.socket_path());
    assert_eq!(s.pid_path(), s.pid_path());
}

#[test]
fn absent_marker_means_no_probe() {
    assert_eq!(liveness_probe_target(&None), None);
}

#[test]
fn marker_contents_parse_with_trim() {
    assert_eq!(liveness_probe_target(&Some("12345\n".to_string())), Some(12345));
    assert_eq!(liveness_probe_target(&Some("  42  ".to_string())), Some(42));
    assert_eq!(liveness_probe_target(&Some("-7".to_string())), Some(-7));
    assert_eq!(liveness_probe_target(&Some("nonsense".to_string())), None);
    assert_eq!(liveness_probe_target(&Some("".to_string())), None);
    assert_eq!(liveness_probe_target(&Some("99999999999".to_string())), None);
}

#[test]
fn first_existing_candidate_wins() {
    assert_eq!(choose_candidate(&vec![false, true, true]), Some(1));
    assert_eq!(choose_candidate(&vec![true, false, false]), Some(0));
    assert_eq!(choose_candidate(&vec![false, false, false]), None);
    assert_eq!(choose_candidate(&vec![]), None);
}

#[test]
fn poll_gives_up_after_fifty_attempts() {
    assert_eq!(POLL_LIMIT, 50);
    assert_eq!(POLL_INTERVAL_MS, 100);
    let mut attempt: u64 = 0;
    let mut checks: u64 = 0;
    loop {
        checks += 1;
        match poll_step(attempt, false) {
            PollStep::Ready => panic!("socket never appears"),
            PollStep::Wait { next_attempt } => attempt = next_attempt,
            PollStep::GiveUp => break,
        }
    }
    assert_eq!(checks, 50);
}

#[test]
fn poll_stops_the_moment_the_socket_appears() {
    assert_eq!(poll_step(0, true), PollStep::Ready);
    assert_eq!(poll_step(49, true), PollStep::Ready);
    assert_eq!(poll_step(3, false), PollStep::Wait { next_attempt: 4 });
    assert_eq!(poll_step(49, false), PollStep::GiveUp);
}

#[test]
fn supervisor_error_messages() {
    assert_eq!(
        SupError::DaemonNotFound.message(),
        "Daemon not found. Run from project directory or ensure daemon.js is alongside binary."
    );
    assert_eq!(SupError::StartTimeout.message(), "Daemon failed to start");
}
