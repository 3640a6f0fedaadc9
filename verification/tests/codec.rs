use agent_browser::command::gen_id;
use agent_browser::command::Request;
use agent_browser::wire::decode_request;
use agent_browser::wire::encode_request;
use agent_browser::wire::extract_frame;
use agent_browser::wire::failure_json;
use agent_browser::wire::frame_request;

fn enc(id: &str, req: &Request) -> String {
    encode_request(&id.to_string(), req)
}

#[test]
fn encode_navigate_exact() {
    let line = enc("r1", &Request::Navigate { url: "https://example.com".to_string() });
    assert_eq!(
        line,
        "{\"id\":\"r1\",\"action\":\"navigate\",\"url\":\"https://example.com\"}"
    );
}

#[test]
fn encode_wait_timeout_is_numeric() {
    let line = enc("r2", &Request::WaitTimeout { timeout: 500 });
    assert_eq!(line, "{\"id\":\"r2\",\"action\":\"wait\",\"timeout\":500}");
}

#[test]
fn encode_snapshot_flags() {
    let line = enc(
        "r3",
        &Request::Snapshot { interactive: true, compact: false, max_depth: Some(3), selector: None },
    );
    assert_eq!(
        line,
        "{\"id\":\"r3\",\"action\":\"snapshot\",\"interactive\":true,\"maxDepth\":3}"
    );
}

#[test]
fn encode_screenshot_absent_path_is_null() {
    let line = enc("r4", &Request::Screenshot { path: None });
    assert_eq!(line, "{\"id\":\"r4\",\"action\":\"screenshot\",\"path\":null}");
}

#[test]
fn encode_escapes_specials() {
    let line = enc("r5", &Request::Eval { script: "say \"hi\\\"\nbye".to_string() });
    assert_eq!(
        line,
        "{\"id\":\"r5\",\"action\":\"evaluate\",\"script\":\"say \\\"hi\\\\\\\"\\nbye\"}"
    );
}

fn round_trip(req: Request) {
    let id = "r42".to_string();
    let line = encode_request(&id, &req);
    let (id2, req2) = decode_request(&line).expect("decodes");
    assert_eq!(id2, id);
    assert_eq!(req2, req);
}

#[test]
fn round_trip_all_variants() {
    round_trip(Request::Navigate { url: "https://e.com/a?b=c".to_string() });
    round_trip(Request::Click { selector: "@e2".to_string() });
    round_trip(Request::Fill { selector: "#f".to_string(), value: "a b c".to_string() });
    round_trip(Request::TypeText { selector: "#f".to_string(), text: "t \"x\"".to_string() });
    round_trip(Request::Hover { selector: ".h".to_string() });
    round_trip(Request::Close);
    round_trip(Request::GetText { selector: "#t".to_string() });
    round_trip(Request::GetUrl);
    round_trip(Request::GetTitle);
    round_trip(Request::Press { key: "Enter".to_string() });
    round_trip(Request::WaitTimeout { timeout: 0 });
    round_trip(Request::WaitTimeout { timeout: u64::MAX });
    round_trip(Request::WaitSelector { selector: "#ready".to_string() });
    round_trip(Request::Back);
    round_trip(Request::Forward);
    round_trip(Request::Reload);
    round_trip(Request::Eval { script: "1\t+\\2\r\n".to_string() });
    round_trip(Request::Screenshot { path: Some("/tmp/x.png".to_string()) });
    round_trip(Request::Screenshot { path: None });
}

#[test]
fn round_trip_snapshot_flag_combinations() {
    for i in [false, true] {
        for c in [false, true] {
            for d in [None, Some(0), Some(3), Some(-7), Some(i32::MIN), Some(i32::MAX)] {
                for s in [None, Some("#scope".to_string())] {
                    round_trip(Request::Snapshot {
                        interactive: i,
                        compact: c,
                        max_depth: d,
                        selector: s,
                    });
                }
            }
        }
    }
}

#[test]
fn round_trip_awkward_strings() {
    round_trip(Request::Eval { script: "".to_string() });
    round_trip(Request::Eval { script: "\\\"}{\",\"action\":\"close\"".to_string() });
    round_trip(Request::Fill { selector: "\n".to_string(), value: "\t\r".to_string() });
}

#[test]
fn decode_rejects_malformed_lines() {
    assert!(decode_request("").is_none());
    assert!(decode_request("{}").is_none());
    assert!(decode_request("{\"id\":\"r1\"}").is_none());
    assert!(decode_request("{\"id\":\"r1\",\"action\":\"frobnicate\"}").is_none());
    assert!(decode_request("{\"id\":\"r1\",\"action\":\"close\"").is_none());
    assert!(decode_request("{\"id\":\"r1\",\"action\":\"close\"}x").is_none());
    assert!(decode_request("{\"id\":\"r1\",\"action\":\"navigate\"}").is_none());
}

#[test]
fn frame_appends_exactly_one_newline() {
    let framed = frame_request(&"r7".to_string(), &Request::Close);
    assert_eq!(framed, "{\"id\":\"r7\",\"action\":\"close\"}\n");
}

#[test]
fn extract_frame_requires_complete_line() {
    assert_eq!(extract_frame("{\"success\":true}\n").unwrap(), "{\"success\":true}");
    assert!(extract_frame("{\"success\":true}").is_none());
    assert!(extract_frame("").is_none());
}

#[test]
fn failure_json_shape() {
    assert_eq!(
        failure_json("Daemon failed to start"),
        "{\"success\":false,\"error\":\"Daemon failed to start\"}"
    );
    assert_eq!(
        failure_json("a \"quoted\" cause"),
        "{\"success\":false,\"error\":\"a \\\"quoted\\\" cause\"}"
    );
}

#[test]
fn parse_then_encode_then_decode_pipeline() {
    let args: Vec<String> = ["fill", "#name", "Ada", "Lovelace"]
        .iter()
        .map(|s| s.to_string())
        .collect();
    let req = agent_browser::command::parse_command(&args).unwrap();
    let id = gen_id(77);
    let line = encode_request(&id, &req);
    assert_eq!(
        line,
        "{\"id\":\"r77\",\"action\":\"fill\",\"selector\":\"#name\",\"value\":\"Ada Lovelace\"}"
    );
    let (id2, req2) = decode_request(&line).unwrap();
    assert_eq!(id2, "r77");
    assert_eq!(req2, req);
}

#[test]
fn gen_id_uses_subsecond_sample() {
    assert_eq!(gen_id(1234567), "r234567");
    assert_eq!(gen_id(0), "r0");
    assert_eq!(gen_id(999999), "r999999");
    assert_eq!(gen_id(1000000), "r0");
}
