use std::path::PathBuf;

use hurl_tui::runner::Runner;

#[test]
fn test_runner_creation() {
    let runner = Runner::new();
    assert!(runner.hurl_path.is_none());
    assert_eq!(runner.timeout, 30);
}

#[test]
fn test_runner_with_options() {
    let runner = Runner::new()
        .with_hurl_path(PathBuf::from("/usr/bin/hurl"))
        .with_timeout(60);

    assert_eq!(runner.hurl_path, Some(PathBuf::from("/usr/bin/hurl")));
    assert_eq!(runner.timeout, 60);
}

#[test]
fn test_response_extracted_with_stdout_fallback() {
    let runner = Runner::new();
    let stderr = "< HTTP/1.1 404 Not Found\n< Content-Type: application/json\n< X-Req: abc\n< \nsome other noise\n";
    let stdout = "{\"error\":\"nope\"}";
    let response = runner
        .parse_response_from_very_verbose(stderr, stdout)
        .expect("a status line was present");
    assert_eq!(response.status_code, 404);
    assert_eq!(response.headers.len(), 2);
    assert_eq!(
        response.headers[0],
        ("Content-Type".to_string(), "application/json".to_string())
    );
    assert_eq!(response.body, "{\"error\":\"nope\"}");
}

#[test]
fn test_no_status_line_means_no_response() {
    let runner = Runner::new();
    let stderr = "* Executing entry 1\n* Request:\n* GET http://x\nsomething: else\n";
    let response = runner.parse_response_from_very_verbose(stderr, "ignored stdout");
    assert!(response.is_none());
}

#[test]
fn test_http2_status_line() {
    let runner = Runner::new();
    let stderr = "< HTTP/2 200\n< \n";
    let response = runner.parse_response_from_very_verbose(stderr, "").unwrap();
    assert_eq!(response.status_code, 200);
}

#[test]
fn test_last_status_line_wins_in_trace() {
    let runner = Runner::new();
    let stderr = "< HTTP/1.1 301 Moved\n< Location: http://y\n< \n< HTTP/1.1 200 OK\n< Server: z\n< \n";
    let response = runner.parse_response_from_very_verbose(stderr, "").unwrap();
    assert_eq!(response.status_code, 200);
    // Headers of both exchanges are collected in trace order.
    assert_eq!(response.headers.len(), 2);
    assert_eq!(response.headers[1], ("Server".to_string(), "z".to_string()));
}

#[test]
fn test_marked_body_lines_and_duration() {
    let runner = Runner::new();
    let stderr = "< HTTP/1.1 200 OK\n< \n* Response body:\n* {\"a\":1}\n* Timings:\n* time_total: 0.029 s\n";
    let response = runner.parse_response_from_very_verbose(stderr, "fallback unused").unwrap();
    assert_eq!(response.body, "{\"a\":1}");
    assert_eq!(response.duration_ms, 29);
}

#[test]
fn test_duration_absent_is_zero() {
    let runner = Runner::new();
    let stderr = "< HTTP/1.1 200 OK\n< \n";
    let response = runner.parse_response_from_very_verbose(stderr, "").unwrap();
    assert_eq!(response.duration_ms, 0);
}

#[test]
fn test_failure_marker_yields_failed_outcome() {
    let runner = Runner::new();
    let stderr = "some prelude\nerror: Assert failure at line 4\nmore text\n";
    let outcomes = runner.parse_asserts(stderr);
    assert!(!outcomes.is_empty());
    assert!(outcomes.iter().any(|o| !o.success));
    let failed = outcomes.iter().find(|o| !o.success).unwrap();
    assert_eq!(failed.message, Some("error: Assert failure at line 4".to_string()));
}

#[test]
fn test_starred_assert_line_counts_as_passed() {
    let runner = Runner::new();
    let stderr = "* running assert on field\n* something unrelated\n";
    let outcomes = runner.parse_asserts(stderr);
    assert_eq!(outcomes.len(), 1);
    assert!(outcomes[0].success);
    assert_eq!(outcomes[0].text, "running assert on field");
    assert_eq!(outcomes[0].message, None);
}

#[test]
fn test_collect_result_threads_streams_and_status() {
    let runner = Runner::new();
    let stderr = "< HTTP/1.1 500 Oops\n< \nerror: Assert failure\n".to_string();
    let stdout = "body text".to_string();
    let result = runner.collect_result(stdout.clone(), stderr.clone(), false, 1);
    assert!(!result.success);
    assert_eq!(result.exit_code, 1);
    assert_eq!(result.stdout, "body text");
    assert_eq!(result.stderr, stderr);
    assert_eq!(result.response.as_ref().unwrap().status_code, 500);
    assert!(result.assertions.iter().any(|o| !o.success));
}

#[test]
fn test_final_line_keeps_bare_carriage_return() {
    // A carriage return is a line terminator only together with a newline;
    // at the very end of the text it belongs to the last line.
    let runner = Runner::new();
    let stderr = "error: Assert failure x\r";
    let outcomes = runner.parse_asserts(stderr);
    assert_eq!(outcomes.len(), 1);
    assert_eq!(outcomes[0].message, Some("error: Assert failure x\r".to_string()));
}

#[test]
fn test_run_args_with_variables_file() {
    let runner = Runner::new().with_timeout(45);
    let args = runner.run_args(Some("vars.env"));
    assert_eq!(
        args,
        vec![
            "--very-verbose".to_string(),
            "--max-time".to_string(),
            "45".to_string(),
            "--variables-file".to_string(),
            "vars.env".to_string(),
        ]
    );
}

#[test]
fn test_run_args_without_variables_file() {
    let args = Runner::new().run_args(None);
    assert_eq!(
        args,
        vec![
            "--very-verbose".to_string(),
            "--max-time".to_string(),
            "30".to_string(),
        ]
    );
}
