use antigravity_tools::stealth::{
    build_stealth_headers, header_disposition, stream_event_name, CloudflaredState,
    HeaderDisposition, ProxyServiceState,
};

fn pairs(v: &[(&str, &str)]) -> Vec<(String, String)> {
    v.iter().map(|(a, b)| (a.to_string(), b.to_string())).collect()
}

#[test]
fn dispositions() {
    assert_eq!(header_disposition("user-agent", false), HeaderDisposition::Drop);
    assert_eq!(header_disposition("sec-ch-ua-platform", true), HeaderDisposition::Drop);
    assert_eq!(header_disposition("authorization", true), HeaderDisposition::InjectToken);
    assert_eq!(header_disposition("authorization", false), HeaderDisposition::Forward);
    assert_eq!(header_disposition("content-type", true), HeaderDisposition::Forward);
}

#[test]
fn stealth_headers_with_token() {
    let hs = pairs(&[
        ("User-Agent", "curl"),
        ("Authorization", "Bearer caller"),
        ("Content-Type", "application/json"),
        ("SEC-CH-UA", "x"),
    ]);
    let out = build_stealth_headers(&hs, &Some("stored".to_string()), "UA/1", "\"Chromium\"");
    assert_eq!(
        out,
        pairs(&[
            ("authorization", "Bearer stored"),
            ("Content-Type", "application/json"),
            ("user-agent", "UA/1"),
            ("sec-ch-ua", "\"Chromium\""),
            ("sec-ch-ua-mobile", "?1"),
            ("sec-ch-ua-platform", "\"Android\""),
        ])
    );
}

#[test]
fn stealth_headers_without_token_forward_authorization() {
    let hs = pairs(&[("Authorization", "Bearer caller"), ("X-Other", "1")]);
    let out = build_stealth_headers(&hs, &None, "UA", "S");
    assert_eq!(out[0], ("Authorization".to_string(), "Bearer caller".to_string()));
    assert_eq!(out[1], ("X-Other".to_string(), "1".to_string()));
    assert_eq!(out.len(), 6);
}

#[test]
fn stream_event_names() {
    assert_eq!(stream_event_name("chunk", "abc"), "stream-chunk-abc");
    assert_eq!(stream_event_name("done", "7"), "stream-done-7");
}

#[test]
fn state_handles() {
    let _p = ProxyServiceState::new();
    let c = CloudflaredState::new();
    let _i = c.inner();
}
