use traza::dashboard::route;

#[test]
fn recognizes_only_dashboard_routes() {
    assert!(route("/").is_some());
    assert!(route("/dashboard").is_some());
    assert!(route("/dashboard/").is_some());
    assert!(route("/dashboard/app.js").is_none());
    assert!(route("/v1/spans").is_none());
    assert!(route("/v1/stats").is_none());
}

#[test]
fn embeds_a_substantive_html_document() {
    let page = route("/").expect("root serves the dashboard").body;
    assert!(page.len() > 4_000, "embedded page looks truncated");
    assert!(page[..30]
        .to_ascii_lowercase()
        .starts_with("<!doctype html>"));
    assert!(page.contains("<title>Traza</title>"));
}

#[test]
fn declares_safe_response_metadata() {
    let response = route("/dashboard").expect("dashboard route serves");
    assert_eq!(response.status, 200);
    let headers: Vec<&str> = response.headers.iter().map(|(name, _)| *name).collect();
    assert!(headers.contains(&"Content-Type"));
    assert!(headers.contains(&"X-Content-Type-Options"));
    assert!(headers.contains(&"Cache-Control"));
}
