use rig_tools::web_fetch::{
    accept_header_for, accept_language, accepts_url, after_response, browser_user_agent, convert_html_to_markdown, declared_too_large,
    extract_text_from_html, fetch_answer, fetch_output, image_mime_from_content_type, is_success, mime_of,
    needs_fallback, render_body, BodyBuffer, MAX_RESPONSE_BYTES,
};
use rig_tools::{WebFetchArgs, WebFetchFormat};

#[test]
fn rejects_non_http_urls() {
    assert!(!accepts_url("ftp://example.com"));
    assert!(accepts_url("http://example.com"));
    assert!(accepts_url("https://example.com"));
}

#[test]
fn rejects_bare_string_url() {
    assert!(!accepts_url("example.com"));
    assert!(!accepts_url("http:/"));
}

#[test]
fn image_mime_from_content_type_recognises_known_types() {
    assert_eq!(image_mime_from_content_type("image/png"), Some("image/png"));
    assert_eq!(image_mime_from_content_type("image/jpeg"), Some("image/jpeg"));
    assert_eq!(image_mime_from_content_type("image/jpg"), Some("image/jpeg"));
    assert_eq!(image_mime_from_content_type("image/svg+xml"), Some("image/svg+xml"));
    assert_eq!(image_mime_from_content_type("text/html"), None);
    assert_eq!(image_mime_from_content_type(""), None);
}

#[test]
fn accept_header_varies_by_format() {
    assert!(accept_header_for(WebFetchFormat::Markdown).starts_with("text/markdown"));
    assert!(accept_header_for(WebFetchFormat::Text).starts_with("text/plain"));
    assert!(accept_header_for(WebFetchFormat::Html).starts_with("text/html"));
}

#[test]
fn extract_text_strips_script_and_style() {
    let html = r#"<html><head>
        <style>body { color: red; }</style>
        <script>alert('hi')</script>
    </head><body>
        <p>Hello <b>world</b></p>
        <noscript>js disabled</noscript>
    </body></html>"#;
    let text = extract_text_from_html(html);
    assert!(text.contains("Hello"));
    assert!(text.contains("world"));
    assert!(!text.contains("alert"));
    assert!(!text.contains("color: red"));
    assert!(!text.contains("js disabled"));
}

#[test]
fn extract_text_collapses_white_space() {
    let text = extract_text_from_html("<p>  a \n\t b  </p><iframe>x</iframe><p>c</p>");
    assert_eq!(text, "a b c");
}

#[test]
fn html_to_markdown_basic_round_trip() {
    let md = convert_html_to_markdown("<h1>Hi</h1><p>A <em>quick</em> test.</p>").unwrap();
    assert!(md.contains("# Hi"));
    assert!(md.contains("quick"));
}

#[test]
fn fetch_settings_defaults() {
    let args = WebFetchArgs { url: "https://x".to_string(), format: None, timeout: None };
    assert_eq!(args.timeout_secs(), 30);
    assert_eq!(args.format_or_default(), WebFetchFormat::Markdown);
    let args = WebFetchArgs { url: "https://x".to_string(), format: Some(WebFetchFormat::Text), timeout: Some(500) };
    assert_eq!(args.timeout_secs(), 120);
    assert_eq!(args.format_or_default(), WebFetchFormat::Text);
    assert_eq!(WebFetchFormat::default(), WebFetchFormat::Markdown);
}

#[test]
fn fallback_only_on_challenge() {
    assert!(needs_fallback(403, Some("challenge")));
    assert!(!needs_fallback(403, Some("other")));
    assert!(!needs_fallback(403, None));
    assert!(!needs_fallback(200, Some("challenge")));
}

#[test]
fn status_and_size_checks() {
    assert!(is_success(200) && is_success(299));
    assert!(!is_success(199) && !is_success(300) && !is_success(404));
    assert!(declared_too_large(5 * 1024 * 1024 + 1));
    assert!(!declared_too_large(5 * 1024 * 1024));
}

#[test]
fn body_buffer_refuses_overflow() {
    let mut b = BodyBuffer::new();
    assert!(b.push_chunk(&vec![1u8; MAX_RESPONSE_BYTES - 1]).is_ok());
    assert!(b.push_chunk(&[2, 3]).is_err());
    assert!(b.push_chunk(&[4]).is_ok());
    let bytes = b.into_bytes();
    assert_eq!(bytes.len(), MAX_RESPONSE_BYTES);
    assert_eq!(bytes[bytes.len() - 1], 4);
}

#[test]
fn mime_of_content_type() {
    assert_eq!(mime_of(" Text/HTML ; charset=utf-8"), "text/html");
    assert_eq!(mime_of("image/PNG"), "image/png");
    assert_eq!(mime_of(""), "");
}

#[test]
fn render_body_by_format() {
    let html = b"<p>Hi <b>there</b></p>";
    assert_eq!(render_body(WebFetchFormat::Html, "text/html", html).unwrap(), "<p>Hi <b>there</b></p>");
    assert_eq!(render_body(WebFetchFormat::Text, "text/html", html).unwrap(), "Hi there");
    assert!(render_body(WebFetchFormat::Markdown, "text/html", html).unwrap().contains("**there**"));
    assert_eq!(render_body(WebFetchFormat::Text, "text/plain", b"  raw  ").unwrap(), "  raw  ");
    let img = render_body(WebFetchFormat::Markdown, "image/jpg", &[1, 2, 3]).unwrap();
    let v: serde_json::Value = serde_json::from_str(&img).unwrap();
    assert_eq!(v["mimeType"], "image/jpeg");
    assert_eq!(v["data"], "AQID");
}

#[test]
fn fetch_output_layout() {
    assert_eq!(fetch_output("https://a", "text/plain", "body"), "https://a (text/plain)\n\nbody");
}

#[test]
fn fetch_answer_layout() {
    let a = fetch_answer("https://a", "Text/Plain; charset=utf-8", WebFetchFormat::Markdown, b"hi").unwrap();
    assert_eq!(a, "https://a (Text/Plain; charset=utf-8)\n\nhi");
    let img = fetch_answer("https://a", "image/gif", WebFetchFormat::Text, &[0]).unwrap();
    assert!(img.starts_with('{'));
    let v: serde_json::Value = serde_json::from_str(&img).unwrap();
    assert_eq!(v["type"], "image");
    assert_eq!(v["mimeType"], "image/gif");
}

#[test]
fn accept_language_is_english() {
    assert_eq!(accept_language(), "en-US,en;q=0.9");
}

#[test]
fn challenge_is_retried_once_with_plain_agent() {
    assert_eq!(after_response(false, 403, Some("challenge")), Some("rig-tools"));
    assert_eq!(after_response(true, 403, Some("challenge")), None);
    assert_eq!(after_response(false, 403, None), None);
    assert_eq!(after_response(false, 403, Some("block")), None);
    assert_eq!(after_response(false, 200, Some("challenge")), None);
    assert!(browser_user_agent().starts_with("Mozilla/5.0"));
}
