use agent_browser::render::render_human;
use agent_browser::render::Rendering;
use agent_browser::render::Response;
use agent_browser::render::ResponseData;
use agent_browser::supervisor::already_reachable;

fn data() -> ResponseData {
    ResponseData {
        url: None,
        title: None,
        snapshot: None,
        text: None,
        result_pretty: None,
        closed: false,
    }
}

fn ok(d: ResponseData) -> Response {
    Response { success: true, data: Some(d), error: None }
}

#[test]
fn url_and_title_render_title_then_url_even_with_other_fields() {
    let mut d = data();
    d.url = Some("https://e.com".to_string());
    d.title = Some("Example".to_string());
    d.snapshot = Some("tree".to_string());
    d.text = Some("txt".to_string());
    d.result_pretty = Some("{}".to_string());
    d.closed = true;
    assert_eq!(
        render_human(ok(d)),
        Rendering::TitleUrl { title: "Example".to_string(), url: "https://e.com".to_string() }
    );
}

#[test]
fn url_alone_renders_url() {
    let mut d = data();
    d.url = Some("https://e.com".to_string());
    assert_eq!(render_human(ok(d)), Rendering::UrlOnly { url: "https://e.com".to_string() });
}

#[test]
fn priority_order_walks_down() {
    let mut d = data();
    d.snapshot = Some("tree".to_string());
    d.title = Some("T".to_string());
    assert_eq!(render_human(ok(d)), Rendering::SnapshotText { snapshot: "tree".to_string() });

    let mut d2 = data();
    d2.title = Some("T".to_string());
    d2.text = Some("body".to_string());
    assert_eq!(render_human(ok(d2)), Rendering::TitleOnly { title: "T".to_string() });

    let mut d3 = data();
    d3.text = Some("body".to_string());
    assert_eq!(render_human(ok(d3)), Rendering::TextOnly { text: "body".to_string() });

    let mut d4 = data();
    d4.result_pretty = Some("{\n  \"a\": 1\n}".to_string());
    assert_eq!(
        render_human(ok(d4)),
        Rendering::ResultPretty { pretty: "{\n  \"a\": 1\n}".to_string() }
    );

    let mut d5 = data();
    d5.closed = true;
    assert_eq!(render_human(ok(d5)), Rendering::ClosedNote);

    assert_eq!(render_human(ok(data())), Rendering::DoneNote);
}

#[test]
fn failure_renders_error_string() {
    let r = Response { success: false, data: None, error: Some("boom".to_string()) };
    assert_eq!(render_human(r), Rendering::Error { message: "boom".to_string() });
}

#[test]
fn failure_without_error_uses_fallback() {
    let r = Response { success: false, data: None, error: None };
    assert_eq!(render_human(r), Rendering::Error { message: "Unknown error".to_string() });
}

#[test]
fn success_without_data_prints_nothing() {
    let r = Response { success: true, data: None, error: None };
    assert_eq!(render_human(r), Rendering::Silent);
}

#[test]
fn reachable_needs_probe_and_socket() {
    assert!(already_reachable(true, true));
    assert!(!already_reachable(true, false));
    assert!(!already_reachable(false, true));
    assert!(!already_reachable(false, false));
}
