use antigravity_tools::upstream::{build_url, mask_email, should_try_next_endpoint};

#[test]
fn test_build_url_no_query() {
    let base = "https://cloudcode-pa.googleapis.com/v1internal";
    let url = build_url(base, "generateContent", None);
    assert_eq!(
        url,
        "https://cloudcode-pa.googleapis.com/v1internal:generateContent"
    );
}

#[test]
fn test_build_url_with_query() {
    let base = "https://cloudcode-pa.googleapis.com/v1internal";
    let url = build_url(base, "streamGenerateContent", Some("alt=sse"));
    assert_eq!(
        url,
        "https://cloudcode-pa.googleapis.com/v1internal:streamGenerateContent?alt=sse"
    );
}

#[test]
fn test_mask_email() {
    assert_eq!(mask_email("userexample@gmail.com"), "use***@gm***");
    assert_eq!(mask_email("nodomain"), "noDom***");
}

#[test]
fn test_should_try_next_endpoint() {
    assert!(should_try_next_endpoint(429));
    assert!(should_try_next_endpoint(500));
    assert!(!should_try_next_endpoint(401));
    assert!(!should_try_next_endpoint(200));
}

use antigravity_tools::upstream::{
    add_extra_header, effective_user_agent, insert_header, machine_id_cache_path,
    machine_id_choice, machine_id_choice_from_cache, v1_internal_base_url,
    v1_request_headers, FallbackRun, MachineIdSource,
};

fn pairs(v: &[(&str, &str)]) -> Vec<(String, String)> {
    v.iter().map(|(a, b)| (a.to_string(), b.to_string())).collect()
}

#[test]
fn should_try_next_covers_timeouts_not_found_and_server_errors() {
    assert!(should_try_next_endpoint(408));
    assert!(should_try_next_endpoint(404));
    assert!(should_try_next_endpoint(503));
    assert!(should_try_next_endpoint(599));
    assert!(!should_try_next_endpoint(600));
    assert!(!should_try_next_endpoint(403));
}

#[test]
fn mask_email_edge_cases() {
    assert_eq!(mask_email("ab@c"), "ab***@c***");
    assert_eq!(mask_email("@"), "***@***");
    assert_eq!(mask_email("a@b@c"), "a***@b@***");
    assert_eq!(mask_email("ab"), "ab***");
    assert_eq!(mask_email(""), "***");
    assert_eq!(mask_email("12345678"), "12345***");
}

#[test]
fn endpoints_in_fallback_order() {
    assert_eq!(v1_internal_base_url(0), "https://daily-cloudcode-pa.sandbox.googleapis.com/v1internal");
    assert_eq!(v1_internal_base_url(1), "https://daily-cloudcode-pa.googleapis.com/v1internal");
    assert_eq!(v1_internal_base_url(2), "https://cloudcode-pa.googleapis.com/v1internal");
}

#[test]
fn fallback_run_moves_on_and_logs_attempts() {
    let mut run = FallbackRun::new();
    assert_eq!(
        run.current_url("generateContent", None).unwrap(),
        "https://daily-cloudcode-pa.sandbox.googleapis.com/v1internal:generateContent"
    );
    assert!(!run.on_response("generateContent", None, 429, "429 Too Many Requests"));
    run.on_send_error("generateContent", None, "connection refused");
    assert_eq!(
        run.current_url("generateContent", Some("alt=sse")).unwrap(),
        "https://cloudcode-pa.googleapis.com/v1internal:generateContent?alt=sse"
    );
    // The last endpoint's answer is taken whatever it is.
    assert!(run.on_response("generateContent", None, 503, "503 Service Unavailable"));
    assert_eq!(run.final_error(), "HTTP request failed at https://daily-cloudcode-pa.googleapis.com/v1internal: connection refused");
    let attempts = run.into_attempts();
    assert_eq!(attempts.len(), 2);
    assert_eq!(attempts[0].status, Some(429));
    assert_eq!(attempts[0].endpoint_url, "https://daily-cloudcode-pa.sandbox.googleapis.com/v1internal:generateContent");
    assert_eq!(attempts[0].error, "Upstream https://daily-cloudcode-pa.sandbox.googleapis.com/v1internal returned 429 Too Many Requests");
    assert_eq!(attempts[1].status, None);
}

#[test]
fn fallback_run_accepts_success_and_client_errors() {
    let mut run = FallbackRun::new();
    assert!(run.on_response("m", None, 200, "200 OK"));
    assert!(run.on_response("m", None, 401, "401 Unauthorized"));
    assert_eq!(run.final_error(), "All endpoints failed");
    let mut run = FallbackRun::new();
    run.on_send_error("m", None, "a");
    run.on_send_error("m", None, "b");
    run.on_send_error("m", None, "c");
    assert!(run.current_url("m", None).is_none());
    assert_eq!(run.final_error(), "HTTP request failed at https://cloudcode-pa.googleapis.com/v1internal: c");
}

#[test]
fn v1_headers_fixed_part() {
    let h = v1_request_headers("tok", "ua/1", "4.1", "mid", "sess", &vec![]).unwrap();
    assert_eq!(
        h,
        pairs(&[
            ("content-type", "application/json"),
            ("authorization", "Bearer tok"),
            ("user-agent", "ua/1"),
            ("x-client-name", "antigravity"),
            ("x-client-version", "4.1"),
            ("x-machine-id", "mid"),
            ("x-vscode-sessionid", "sess"),
        ])
    );
    let h = v1_request_headers("tok", "bad\nua", "bad\u{7f}", "", "s", &vec![]).unwrap();
    assert_eq!(
        h,
        pairs(&[
            ("content-type", "application/json"),
            ("authorization", "Bearer tok"),
            ("user-agent", "antigravity"),
            ("x-client-name", "antigravity"),
            ("x-vscode-sessionid", "s"),
        ])
    );
    assert_eq!(
        v1_request_headers("to\nk", "ua", "v", "m", "s", &vec![]),
        Err("failed to parse header value".to_string())
    );
}

#[test]
fn v1_headers_extra_headers_insert_by_normalized_name() {
    let extra = pairs(&[("Anthropic-Beta", "x"), ("User-Agent", "override"), ("bad name", "v"), ("x-ok", "bad\u{1}")]);
    let h = v1_request_headers("t", "ua", "v", "m", "s", &extra).unwrap();
    assert_eq!(h[2], ("user-agent".to_string(), "override".to_string()));
    assert_eq!(h.last().unwrap(), &("anthropic-beta".to_string(), "x".to_string()));
    assert_eq!(h.len(), 8);
}

#[test]
fn header_insert_replaces_in_place() {
    let mut h = pairs(&[("a", "1"), ("b", "2")]);
    insert_header(&mut h, "a".to_string(), "3".to_string());
    assert_eq!(h, pairs(&[("a", "3"), ("b", "2")]));
    add_extra_header(&mut h, None, "x");
    add_extra_header(&mut h, Some("c".to_string()), "\u{0}");
    assert_eq!(h.len(), 2);
    add_extra_header(&mut h, Some("c".to_string()), "4");
    assert_eq!(h, pairs(&[("a", "3"), ("b", "2"), ("c", "4")]));
}

#[test]
fn user_agent_override_wins() {
    assert_eq!(effective_user_agent(&Some("o".to_string()), "d"), "o");
    assert_eq!(effective_user_agent(&None, "d"), "d");
}

#[test]
fn machine_id_sources_in_order() {
    assert!(matches!(machine_id_choice(Some("u".into()), Some("c".into())), MachineIdSource::Uid(ref x) if x == "u"));
    assert!(matches!(machine_id_choice(Some("".into()), Some("c".into())), MachineIdSource::Cached(ref x) if x == "c"));
    assert!(matches!(machine_id_choice(None, Some("".into())), MachineIdSource::Generate));
    assert!(matches!(machine_id_choice_from_cache(None, Some("  abc \n".into())), MachineIdSource::Cached(ref x) if x == "abc"));
    assert!(matches!(machine_id_choice_from_cache(None, Some(" \n".into())), MachineIdSource::Generate));
    assert!(matches!(machine_id_choice_from_cache(None, Some("\t x y \n".into())), MachineIdSource::Cached(ref x) if x == "x y"));
}

#[test]
fn machine_id_cache_path_prefers_app_dir() {
    assert_eq!(machine_id_cache_path(Some("/a".into()), Some("/b".into()), None), "/a/.machine_id");
    assert_eq!(machine_id_cache_path(None, Some("/b".into()), Some("/c".into())), "/b/.machine_id");
    assert_eq!(machine_id_cache_path(None, None, Some("/c".into())), "/c/.machine_id");
    assert_eq!(machine_id_cache_path(None, None, None), "/tmp/.machine_id");
}

#[test]
fn cached_machine_id_is_trimmed_of_unicode_white_space() {
    assert!(matches!(
        machine_id_choice_from_cache(None, Some("\u{3000}\u{a0}abc\u{2028}\n".into())),
        MachineIdSource::Cached(ref x) if x == "abc"
    ));
    assert!(matches!(
        machine_id_choice_from_cache(None, Some("\u{85}\u{2009}".into())),
        MachineIdSource::Generate
    ));
}
