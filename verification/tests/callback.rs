use linear_tui::callback::{html_escape, parse_query, percent_decode, request_target, route, split_target, Route};

#[test]
fn reads_the_target_from_a_request_line() {
    let request = "GET /callback?code=abc&state=xyz HTTP/1.1\r\nHost: localhost\r\n\r\n";
    assert_eq!(request_target(request), Some("/callback?code=abc&state=xyz"));
}

#[test]
fn splits_a_target_without_a_query() {
    assert_eq!(split_target("/favicon.ico"), ("/favicon.ico", ""));
}

#[test]
fn parses_query_parameters() {
    let params = parse_query("code=abc&state=xyz");
    assert_eq!(params[0], ("code".to_string(), "abc".to_string()));
    assert_eq!(params[1], ("state".to_string(), "xyz".to_string()));
}

#[test]
fn decodes_percent_escapes_in_values() {
    let params = parse_query("code=a%2Fb%2Bc&state=x%20y");
    assert_eq!(params[0].1, "a/b+c");
    assert_eq!(params[1].1, "x y");
}

#[test]
fn leaves_a_malformed_escape_intact() {
    assert_eq!(percent_decode("100%"), "100%");
    assert_eq!(percent_decode("%zz"), "%zz");
}

const REQ: &str = " HTTP/1.1\r\nHost: localhost\r\n\r\n";

fn get(target: &str) -> String {
    format!("GET {target}{REQ}")
}

#[test]
fn a_matching_callback_returns_the_code() {
    assert_eq!(
        route(&get("/callback?code=abc&state=s1"), "s1"),
        Route::Done(Ok("abc".into()))
    );
}

#[test]
fn a_foreign_state_is_answered_but_does_not_end_the_login() {
    for target in [
        "/callback?code=abc&state=other",
        "/callback?error=access_denied&state=other",
        "/callback?error=access_denied",
    ] {
        assert!(
            matches!(route(&get(target), "s1"), Route::Reply { .. }),
            "{target}"
        );
    }
}

#[test]
fn a_denial_with_our_state_ends_the_login() {
    assert_eq!(
        route(
            &get("/callback?error=access_denied&error_description=nope&state=s1"),
            "s1"
        ),
        Route::Done(Err("access_denied: nope".into()))
    );
}

#[test]
fn other_paths_are_ignored() {
    assert!(matches!(route(&get("/favicon.ico"), "s1"), Route::Reply { .. }));
}

#[test]
fn html_is_escaped() {
    assert_eq!(
        html_escape("<script>alert('x')</script>&"),
        "&lt;script&gt;alert(&#39;x&#39;)&lt;/script&gt;&amp;"
    );
}

#[test]
fn treats_plus_as_a_space() {
    assert_eq!(percent_decode("a+b"), "a b");
}

#[test]
fn the_callback_is_answered_with_the_page_and_ends_the_login() {
    let (outcome, reply) =
        linear_tui::callback::answer(b"GET /callback?code=abc&state=s1 HTTP/1.1\r\n\r\n", "s1");
    assert_eq!(outcome, Some(Ok("abc".to_string())));
    let body = linear_tui::callback::SUCCESS_BODY;
    assert_eq!(
        reply,
        format!(
            "HTTP/1.1 200 OK\r\nContent-Type: text/html; charset=utf-8\r\nContent-Length: {}\r\nConnection: close\r\n\r\n{body}",
            body.len()
        )
    );
}

#[test]
fn a_refusal_is_shown_escaped_and_other_requests_keep_waiting() {
    let (outcome, reply) = linear_tui::callback::answer(
        b"GET /callback?state=s1&error=access_denied&error_description=%3Cno%3E HTTP/1.1",
        "s1",
    );
    assert_eq!(outcome, Some(Err("access_denied: <no>".to_string())));
    assert!(reply.ends_with("<h1>Authorization cancelled</h1><p>access_denied: &lt;no&gt;</p>"), "{reply}");
    let (outcome, reply) = linear_tui::callback::answer(b"GET /favicon.ico HTTP/1.1", "s1");
    assert_eq!(outcome, None);
    assert_eq!(
        reply,
        "HTTP/1.1 404 Not Found\r\nContent-Type: text/plain\r\nContent-Length: 10\r\nConnection: close\r\n\r\nNot found."
    );
    let (outcome, _) = linear_tui::callback::answer(&[0xff, 0xfe], "s1");
    assert_eq!(outcome, None);
}

#[test]
fn bytes_that_are_not_utf8_are_read_with_replacement_characters() {
    let (outcome, _) =
        linear_tui::callback::answer(b"GET /callback?code=a\xffb&state=s1 HTTP/1.1", "s1");
    assert_eq!(outcome, Some(Ok("a\u{fffd}b".to_string())));
}
