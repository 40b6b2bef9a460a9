use race_gateway::loadtest::{parse_load_test_args, LoadTestCommand};

fn args(items: &[&str]) -> Vec<String> {
    items.iter().map(|s| s.to_string()).collect()
}

fn run(items: &[&str]) -> race_gateway::loadtest::LoadTestArgs {
    match parse_load_test_args(&args(items)) {
        Ok(LoadTestCommand::Run(a)) => a,
        Ok(LoadTestCommand::Help) => panic!("help"),
        Err(e) => panic!("{}", e),
    }
}

fn error(items: &[&str]) -> String {
    match parse_load_test_args(&args(items)) {
        Err(e) => e,
        Ok(_) => panic!("expected an error"),
    }
}

#[test]
fn defaults_apply_without_flags() {
    let a = run(&["--url", "http://127.0.0.1:8080/x"]);
    assert_eq!(a.url, "http://127.0.0.1:8080/x");
    assert_eq!(a.method, "POST");
    assert_eq!(a.requests, 100);
    assert_eq!(a.concurrency, 10);
    assert_eq!(a.timeout_ms, 60_000);
    assert!(a.headers.is_empty());
    assert!(a.body_file.is_none());
}

#[test]
fn flags_are_read_in_order() {
    let a = run(&[
        "--method", "GET", "--requests", "+7", "--concurrency", "3", "--timeout-ms", "250",
        "--header", " a : b ", "--header", "c:d:e", "--body-file", "body.json", "--url", "u",
    ]);
    assert_eq!(a.method, "GET");
    assert_eq!(a.requests, 7);
    assert_eq!(a.concurrency, 3);
    assert_eq!(a.timeout_ms, 250);
    assert_eq!(a.headers.len(), 2);
    assert_eq!((a.headers[0].key.as_str(), a.headers[0].value.as_str()), ("a", "b"));
    assert_eq!((a.headers[1].key.as_str(), a.headers[1].value.as_str()), ("c", "d:e"));
    assert_eq!(a.body_file.as_deref(), Some("body.json"));
    assert_eq!(a.url, "u");
}

#[test]
fn zero_counts_are_raised_to_one() {
    let a = run(&["--url", "u", "--requests", "0", "--concurrency", "0", "--timeout-ms", "0"]);
    assert_eq!((a.requests, a.concurrency, a.timeout_ms), (1, 1, 1));
}

#[test]
fn method_without_value_stays_post() {
    let a = run(&["--url", "u", "--method"]);
    assert_eq!(a.method, "POST");
}

#[test]
fn url_is_required() {
    assert_eq!(error(&["--requests", "2"]), "missing required --url");
    assert_eq!(error(&["--url"]), "missing required --url");
}

#[test]
fn numeric_flags_need_a_number() {
    assert_eq!(error(&["--url", "u", "--requests"]), "missing value for --requests");
    assert_eq!(
        error(&["--url", "u", "--concurrency", "x1"]),
        format!("failed to parse --concurrency: {}", "x1".parse::<usize>().unwrap_err())
    );
    assert_eq!(
        error(&["--timeout-ms", "-5"]),
        format!("failed to parse --timeout-ms: {}", "-5".parse::<u64>().unwrap_err())
    );
}

#[test]
fn header_needs_a_colon() {
    assert_eq!(
        error(&["--header", "plain"]),
        "invalid header 'plain', expected 'name:value'"
    );
    assert_eq!(error(&["--header"]), "missing value for --header");
    assert_eq!(error(&["--body-file"]), "missing value for --body-file");
}

#[test]
fn unknown_argument_is_reported_first() {
    assert_eq!(error(&["--bogus", "--help"]), "unknown argument '--bogus'");
}

#[test]
fn help_stops_reading() {
    assert!(matches!(
        parse_load_test_args(&args(&["-h", "--bogus"])),
        Ok(LoadTestCommand::Help)
    ));
    assert!(matches!(
        parse_load_test_args(&args(&["--url", "u", "--help"])),
        Ok(LoadTestCommand::Help)
    ));
}

#[test]
fn later_header_of_the_same_name_replaces_the_value() {
    let a = run(&[
        "--url", "u", "--header", "X-Token: one", "--header", "accept:json", "--header", "x-token:two",
    ]);
    assert_eq!(a.headers.len(), 2);
    assert_eq!((a.headers[0].key.as_str(), a.headers[0].value.as_str()), ("X-Token", "two"));
    assert_eq!((a.headers[1].key.as_str(), a.headers[1].value.as_str()), ("accept", "json"));
}

#[test]
fn header_name_and_value_are_checked_when_read() {
    assert_eq!(error(&["--header", "a b:c", "--help"]), "invalid header name 'a b'");
    assert_eq!(error(&["--header", " x :\u{1}"]), "invalid header value for ' x '");
    assert_eq!(error(&["--header", ":v"]), "invalid header name ''");
}
