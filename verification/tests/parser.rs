use agent_browser::command::parse_command;
use agent_browser::command::scan_args;
use agent_browser::command::Request;

fn toks(words: &[&str]) -> Vec<String> {
    words.iter().map(|w| w.to_string()).collect()
}

#[test]
fn navigate_without_scheme_gets_default_scheme() {
    let r = parse_command(&toks(&["open", "example.com"])).unwrap();
    assert_eq!(r, Request::Navigate { url: "https://example.com".to_string() });
}

#[test]
fn navigate_with_scheme_passes_through() {
    let r = parse_command(&toks(&["open", "http://x"])).unwrap();
    assert_eq!(r, Request::Navigate { url: "http://x".to_string() });
    let r2 = parse_command(&toks(&["goto", "https://y"])).unwrap();
    assert_eq!(r2, Request::Navigate { url: "https://y".to_string() });
}

#[test]
fn navigate_requires_url() {
    assert!(parse_command(&toks(&["open"])).is_none());
}

#[test]
fn fill_joins_remainder_with_spaces() {
    let r = parse_command(&toks(&["fill", "sel", "a", "b", "c"])).unwrap();
    assert_eq!(
        r,
        Request::Fill { selector: "sel".to_string(), value: "a b c".to_string() }
    );
}

#[test]
fn type_joins_remainder_with_spaces() {
    let r = parse_command(&toks(&["type", "#in", "hello", "world"])).unwrap();
    assert_eq!(
        r,
        Request::TypeText { selector: "#in".to_string(), text: "hello world".to_string() }
    );
}

#[test]
fn snapshot_interactive_and_depth() {
    let r = parse_command(&toks(&["snapshot", "-i", "-d", "3"])).unwrap();
    assert_eq!(
        r,
        Request::Snapshot { interactive: true, compact: false, max_depth: Some(3), selector: None }
    );
}

#[test]
fn snapshot_unrecognized_tokens_are_ignored() {
    let r = parse_command(&toks(&["snapshot", "bogus", "--compact"])).unwrap();
    assert_eq!(
        r,
        Request::Snapshot { interactive: false, compact: true, max_depth: None, selector: None }
    );
}

#[test]
fn snapshot_depth_with_bad_number_is_dropped() {
    let r = parse_command(&toks(&["snapshot", "-d", "xyz"])).unwrap();
    assert_eq!(
        r,
        Request::Snapshot { interactive: false, compact: false, max_depth: None, selector: None }
    );
}

#[test]
fn snapshot_selector_flag() {
    let r = parse_command(&toks(&["snapshot", "-s", "#main", "-c"])).unwrap();
    assert_eq!(
        r,
        Request::Snapshot {
            interactive: false,
            compact: true,
            max_depth: None,
            selector: Some("#main".to_string())
        }
    );
}

#[test]
fn wait_numeric_is_timeout() {
    let r = parse_command(&toks(&["wait", "500"])).unwrap();
    assert_eq!(r, Request::WaitTimeout { timeout: 500 });
}

#[test]
fn wait_non_numeric_is_selector() {
    let r = parse_command(&toks(&["wait", "#ready"])).unwrap();
    assert_eq!(r, Request::WaitSelector { selector: "#ready".to_string() });
}

#[test]
fn wait_overflowing_number_is_selector() {
    let r = parse_command(&toks(&["wait", "99999999999999999999999"])).unwrap();
    assert_eq!(
        r,
        Request::WaitSelector { selector: "99999999999999999999999".to_string() }
    );
}

#[test]
fn unknown_command_fails_to_parse() {
    assert!(parse_command(&toks(&["frobnicate"])).is_none());
    assert!(parse_command(&toks(&["frobnicate", "x", "y"])).is_none());
    assert!(parse_command(&toks(&[])).is_none());
}

#[test]
fn close_synonyms() {
    for w in ["close", "quit", "exit"] {
        assert_eq!(parse_command(&toks(&[w])).unwrap(), Request::Close);
    }
}

#[test]
fn get_subcommands() {
    assert_eq!(
        parse_command(&toks(&["get", "text", "#t"])).unwrap(),
        Request::GetText { selector: "#t".to_string() }
    );
    assert_eq!(parse_command(&toks(&["get", "url"])).unwrap(), Request::GetUrl);
    assert_eq!(parse_command(&toks(&["get", "title"])).unwrap(), Request::GetTitle);
    assert!(parse_command(&toks(&["get", "bogus"])).is_none());
    assert!(parse_command(&toks(&["get", "text"])).is_none());
    assert!(parse_command(&toks(&["get"])).is_none());
}

#[test]
fn screenshot_path_optional() {
    assert_eq!(
        parse_command(&toks(&["screenshot", "/tmp/a.png"])).unwrap(),
        Request::Screenshot { path: Some("/tmp/a.png".to_string()) }
    );
    assert_eq!(
        parse_command(&toks(&["screenshot"])).unwrap(),
        Request::Screenshot { path: None }
    );
}

#[test]
fn press_eval_and_no_arg_commands() {
    assert_eq!(
        parse_command(&toks(&["press", "Enter"])).unwrap(),
        Request::Press { key: "Enter".to_string() }
    );
    assert_eq!(
        parse_command(&toks(&["eval", "1", "+", "2"])).unwrap(),
        Request::Eval { script: "1 + 2".to_string() }
    );
    assert_eq!(parse_command(&toks(&["back"])).unwrap(), Request::Back);
    assert_eq!(parse_command(&toks(&["forward"])).unwrap(), Request::Forward);
    assert_eq!(parse_command(&toks(&["reload"])).unwrap(), Request::Reload);
}

#[test]
fn scan_args_strips_flags_and_finds_modes() {
    let r = scan_args(&toks(&["open", "x.com", "--json"]));
    assert!(r.json_mode);
    assert!(!r.help);
    assert_eq!(r.tokens, toks(&["open", "x.com"]));

    let r2 = scan_args(&toks(&["--future-flag", "click", "#a"]));
    assert!(!r2.json_mode);
    assert_eq!(r2.tokens, toks(&["click", "#a"]));

    let r3 = scan_args(&toks(&["--help"]));
    assert!(r3.help);
    let r4 = scan_args(&toks(&[]));
    assert!(r4.help);
    let r5 = scan_args(&toks(&["open", "x", "-h"]));
    assert!(r5.help);
}
