use hurl_tui::parser::parse_hurl_file;

#[test]
fn test_parse_simple_request() {
    let content = "\nGET https://api.example.com/users\nAccept: application/json\n\nHTTP 200\n";
    let hurl_file = parse_hurl_file(content);
    assert_eq!(hurl_file.entries.len(), 1);
    assert_eq!(hurl_file.entries[0].method, "GET");
    assert_eq!(hurl_file.entries[0].url, "https://api.example.com/users");
    assert_eq!(hurl_file.entries[0].expected_status, Some(200));
}

#[test]
fn test_parse_request_with_asserts() {
    let content = "\nGET https://api.example.com/users\nAccept: application/json\n\nHTTP 200\n[Asserts]\njsonpath \"$.users\" count > 0\njsonpath \"$.users[0].id\" exists\n";
    let hurl_file = parse_hurl_file(content);
    assert_eq!(hurl_file.entries.len(), 1);
    assert_eq!(hurl_file.entries[0].asserts.len(), 2);
}

#[test]
fn test_raw_text_kept_verbatim() {
    let content = "# just a comment\nGET http://x/y\n";
    let parsed = parse_hurl_file(content);
    assert_eq!(parsed.content, content);
}

#[test]
fn test_reparse_is_identical() {
    let content = "GET http://a/b\nX-One: 1\nX-One: 2\n\nHTTP 201\n[Asserts]\nstatus == 201\n[Captures]\ntoken: jsonpath \"$.token\"\n\nPOST http://a/c\n{\n\"k\": \"v\"\n}\nHTTP 200\n";
    let first = parse_hurl_file(content);
    let second = parse_hurl_file(&first.content);
    assert_eq!(first, second);
}

#[test]
fn test_multi_entry_spans_disjoint_and_ordered() {
    let content = "GET http://a/1\nHTTP 200\n\nPOST http://a/2\nHTTP 201\n\nDELETE http://a/3\nHTTP 204\n";
    let parsed = parse_hurl_file(content);
    assert_eq!(parsed.entries.len(), 3);
    for w in parsed.entries.windows(2) {
        assert!(w[0].line_start <= w[0].line_end);
        assert!(w[0].line_end < w[1].line_start);
    }
    assert_eq!(parsed.entries[0].line_start, 0);
    assert_eq!(parsed.entries[1].method, "POST");
    assert_eq!(parsed.entries[2].url, "http://a/3");
}

#[test]
fn test_assert_exists_predicate() {
    let content = "GET http://a\nHTTP 200\n[Asserts]\njsonpath \"$.id\" exists\n";
    let parsed = parse_hurl_file(content);
    let a = &parsed.entries[0].asserts[0];
    assert_eq!(a.query_type, "jsonpath");
    assert_eq!(a.query, "\"$.id\"");
    assert_eq!(a.predicate, "exists");
    assert_eq!(a.expected, None);
}

#[test]
fn test_assert_priority_list_order_wins() {
    // Both `count` and `>` occur; the scan takes the first token of the
    // fixed list that occurs anywhere, and `>` stands before `count` in
    // that list.
    let content = "GET http://a\nHTTP 200\n[Asserts]\njsonpath \"$.count\" count > 0\n";
    let parsed = parse_hurl_file(content);
    let a = &parsed.entries[0].asserts[0];
    assert_eq!(a.predicate, ">");
    assert_eq!(a.query, "\"$.count\" count");
    assert_eq!(a.expected, Some("0".to_string()));
}

#[test]
fn test_assert_without_predicate_is_kept() {
    let content = "GET http://a\nHTTP 200\n[Asserts]\nstatus\n";
    let parsed = parse_hurl_file(content);
    let a = &parsed.entries[0].asserts[0];
    assert_eq!(a.query_type, "status");
    assert_eq!(a.query, "");
    assert_eq!(a.predicate, "");
    assert_eq!(a.expected, None);
}

#[test]
fn test_capture_parsed() {
    let content = "GET http://a\nHTTP 200\n[Captures]\ntoken: jsonpath \"$.token\"\n";
    let parsed = parse_hurl_file(content);
    let c = &parsed.entries[0].captures[0];
    assert_eq!(c.name, "token");
    assert_eq!(c.query_type, "jsonpath");
    assert_eq!(c.query, "\"$.token\"");
}

#[test]
fn test_capture_without_colon_dropped() {
    let content = "GET http://a\nHTTP 200\n[Captures]\nno colon here\n";
    let parsed = parse_hurl_file(content);
    assert_eq!(parsed.entries[0].captures.len(), 0);
}

#[test]
fn test_capture_with_empty_name_dropped() {
    let content = "GET http://a\nHTTP 200\n[Captures]\n: jsonpath \"$.x\"\n";
    let parsed = parse_hurl_file(content);
    assert_eq!(parsed.entries[0].captures.len(), 0);
}

#[test]
fn test_headers_keep_order_and_duplicates() {
    let content = "GET http://a\nAccept: application/json\nX-K: one\nX-K: two\nHTTP 200\n";
    let parsed = parse_hurl_file(content);
    let hs = &parsed.entries[0].headers;
    assert_eq!(hs.len(), 3);
    assert_eq!(hs[0].name, "Accept");
    assert_eq!(hs[0].value, "application/json");
    assert_eq!(hs[1].value, "one");
    assert_eq!(hs[2].name, "X-K");
    assert_eq!(hs[2].value, "two");
}

#[test]
fn test_lines_after_status_are_not_headers() {
    let content = "GET http://a\nHTTP 200\nX-Late: nope\n";
    let parsed = parse_hurl_file(content);
    assert_eq!(parsed.entries[0].headers.len(), 0);
}

#[test]
fn test_brace_body_collected() {
    let content = "POST http://a\n{\n\"k\": \"v\"\n}\nHTTP 200\n";
    let parsed = parse_hurl_file(content);
    assert_eq!(parsed.entries[0].body, Some("{\n\"k\": \"v\"\n}".to_string()));
}

#[test]
fn test_fenced_body_collected() {
    let content = "POST http://a\n```\nplain text\n```\nHTTP 200\n";
    let parsed = parse_hurl_file(content);
    assert_eq!(parsed.entries[0].body, Some("```\nplain text\n```".to_string()));
}

#[test]
fn test_unclosed_body_stays_absent() {
    let content = "POST http://a\n{\n\"k\": \"v\"\n";
    let parsed = parse_hurl_file(content);
    assert_eq!(parsed.entries[0].body, None);
}

#[test]
fn test_status_needs_readable_token() {
    let content = "GET http://a\nHTTP abc\n";
    let parsed = parse_hurl_file(content);
    assert_eq!(parsed.entries[0].expected_status, None);
}

#[test]
fn test_status_out_of_range_ignored() {
    let content = "GET http://a\nHTTP 70000\n";
    let parsed = parse_hurl_file(content);
    assert_eq!(parsed.entries[0].expected_status, None);
}

#[test]
fn test_last_status_line_wins() {
    let content = "GET http://a\nHTTP 200\nHTTP 301\n";
    let parsed = parse_hurl_file(content);
    assert_eq!(parsed.entries[0].expected_status, Some(301));
}

#[test]
fn test_empty_input_gives_no_entries() {
    let parsed = parse_hurl_file("");
    assert_eq!(parsed.entries.len(), 0);
    assert_eq!(parsed.content, "");
}

#[test]
fn test_comments_and_blanks_only() {
    let parsed = parse_hurl_file("# a comment\n\n   \n# another\n");
    assert_eq!(parsed.entries.len(), 0);
}

#[test]
fn test_verb_needs_url() {
    // A verb with nothing after it opens no entry.
    let parsed = parse_hurl_file("GET\nPOST   \n");
    assert_eq!(parsed.entries.len(), 0);
}

#[test]
fn test_url_taken_verbatim_after_whitespace_run() {
    let parsed = parse_hurl_file("GET    http://a/b?q={{id}} extra\n");
    assert_eq!(parsed.entries[0].method, "GET");
    assert_eq!(parsed.entries[0].url, "http://a/b?q={{id}} extra");
}

#[test]
fn test_neutral_marker_leaves_asserts_section() {
    let content = "GET http://a\nHTTP 200\n[Asserts]\nstatus == 200\n[Options]\nstatus == 500\n";
    let parsed = parse_hurl_file(content);
    // After [Options] the scan is no longer collecting assertions.
    assert_eq!(parsed.entries[0].asserts.len(), 1);
}

#[test]
fn test_crlf_lines_accepted() {
    let content = "GET http://a\r\nAccept: x\r\n\r\nHTTP 200\r\n";
    let parsed = parse_hurl_file(content);
    assert_eq!(parsed.entries.len(), 1);
    assert_eq!(parsed.entries[0].expected_status, Some(200));
    assert_eq!(parsed.entries[0].headers[0].value, "x");
}

#[test]
fn test_status_line_inside_body_still_counts() {
    let content = "POST http://a\n{\nHTTP 204\n\"k\": 1\n}\n";
    let parsed = parse_hurl_file(content);
    // The status line is honored even while a body block is open, and is
    // not part of the body text.
    assert_eq!(parsed.entries[0].expected_status, Some(204));
    assert_eq!(parsed.entries[0].body, Some("{\n\"k\": 1\n}".to_string()));
}

#[test]
fn test_section_marker_inside_body_exits_block() {
    let content = "POST http://a\n{\n[Asserts]\nstatus == 200\n";
    let parsed = parse_hurl_file(content);
    // The marker leaves the open block; the lines after it are assertions,
    // and the never-closed block yields no body.
    assert_eq!(parsed.entries[0].asserts.len(), 1);
    assert_eq!(parsed.entries[0].body, None);
}
