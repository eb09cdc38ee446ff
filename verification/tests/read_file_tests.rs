use base64::Engine;
use rig_tools::encoding::image_payload;
use rig_tools::read_file::{image_mime_for, ReadError, DEFAULT_MAX_LINES};
use rig_tools::ReadFile;

#[test]
fn image_mime_for_known_extensions() {
    assert_eq!(image_mime_for("a.png"), Some("image/png"));
    assert_eq!(image_mime_for("a.JPG"), Some("image/jpeg"));
    assert_eq!(image_mime_for("a.jpeg"), Some("image/jpeg"));
    assert_eq!(image_mime_for("a.svg"), Some("image/svg+xml"));
    assert_eq!(image_mime_for("a.txt"), None);
    assert_eq!(image_mime_for("noext"), None);
}

#[test]
fn image_mime_for_path_edge_cases() {
    assert_eq!(image_mime_for("dir/photo.WebP"), Some("image/webp"));
    assert_eq!(image_mime_for(".png"), None);
    assert_eq!(image_mime_for("archive.tar.gif"), Some("image/gif"));
    assert_eq!(image_mime_for("pics.png/"), Some("image/png"));
    assert_eq!(image_mime_for("a.png/.."), None);
    assert_eq!(image_mime_for("x.heic/."), Some("image/heic"));
    assert_eq!(image_mime_for("dir.png/file"), None);
    assert_eq!(image_mime_for(""), None);
}

#[test]
fn reads_image_as_base64_json() {
    const PNG_BYTES: &[u8] = &[
        0x89, 0x50, 0x4E, 0x47, 0x0D, 0x0A, 0x1A, 0x0A, 0x00, 0x00, 0x00, 0x0D, 0x49, 0x48,
        0x44, 0x52, 0x00, 0x00, 0x00, 0x01, 0x00, 0x00, 0x00, 0x01, 0x08, 0x06, 0x00, 0x00,
        0x00, 0x1F, 0x15, 0xC4, 0x89, 0x00, 0x00, 0x00, 0x0D, 0x49, 0x44, 0x41, 0x54, 0x78,
        0x9C, 0x63, 0x00, 0x01, 0x00, 0x00, 0x05, 0x00, 0x01, 0x0D, 0x0A, 0x2D, 0xB4, 0x00,
        0x00, 0x00, 0x00, 0x49, 0x45, 0x4E, 0x44, 0xAE, 0x42, 0x60, 0x82,
    ];
    let mime = image_mime_for("pixel.png").unwrap();
    let out = image_payload(PNG_BYTES, mime);
    let v: serde_json::Value = serde_json::from_str(&out).expect("output must be JSON");
    assert_eq!(v["type"], "image");
    assert_eq!(v["mimeType"], "image/png");
    let data = v["data"].as_str().expect("data must be a string");
    let decoded = base64::engine::general_purpose::STANDARD
        .decode(data)
        .expect("data must round-trip from base64");
    assert_eq!(decoded.as_slice(), PNG_BYTES);
}

#[test]
fn reads_text_file_as_plain_text() {
    let tool = ReadFile::default();
    let w = tool.select_lines("line1\nline2\nline3", None, None).ok().unwrap();
    assert_eq!(w.text, "line1\nline2\nline3");
    assert_eq!(w.shown, w.total);
}

#[test]
fn read_default_limit() {
    let tool = ReadFile::default();
    assert_eq!(tool.max_lines, DEFAULT_MAX_LINES);
    assert!(tool.working_dir.is_none());
}

#[test]
fn read_window_of_lines() {
    let tool = ReadFile { working_dir: None, max_lines: 2 };
    let w = tool.select_lines("a\r\nb\nc\nd\n", Some(2), None).ok().unwrap();
    assert_eq!(w.text, "b\nc");
    assert_eq!((w.start, w.end, w.total, w.shown), (2, 3, 4, 2));
    let w = tool.select_lines("a\nb\nc\nd", Some(0), Some(10)).ok().unwrap();
    assert_eq!(w.text, "a\nb\nc\nd");
    assert_eq!((w.start, w.end, w.total, w.shown), (1, 4, 4, 4));
}

#[test]
fn read_start_beyond_end_of_file() {
    let tool = ReadFile::default();
    match tool.select_lines("one\ntwo", Some(3), None) {
        Err(ReadError::StartBeyondEof { start, total }) => assert_eq!((start, total), (3, 2)),
        Ok(_) => panic!("expected an error"),
    }
    assert!(tool.select_lines("", None, None).is_err());
}

#[test]
fn read_without_range_shows_every_line() {
    let tool = ReadFile { working_dir: None, max_lines: 3 };
    let w = tool.select_lines("x\r\ny\nz\n", None, None).ok().unwrap();
    assert_eq!(w.text, "x\ny\nz");
    assert_eq!((w.start, w.end, w.total, w.shown), (1, 3, 3, 3));
}

#[test]
fn base64_of_short_tails_is_padded() {
    let out = image_payload(b"Ma", "image/png");
    let v: serde_json::Value = serde_json::from_str(&out).expect("output must be JSON");
    assert_eq!(v["data"], "TWE=");
    let out = image_payload(b"M", "image/png");
    let v: serde_json::Value = serde_json::from_str(&out).expect("output must be JSON");
    assert_eq!(v["data"], "TQ==");
    let out = image_payload(b"Man", "image/png");
    let v: serde_json::Value = serde_json::from_str(&out).expect("output must be JSON");
    assert_eq!(v["data"], "TWFu");
}

#[test]
fn read_keeps_lone_carriage_return() {
    let tool = ReadFile::default();
    let w = tool.select_lines("a\rb\nc", None, None).ok().unwrap();
    assert_eq!(w.text, "a\rb\nc");
    assert_eq!((w.total, w.shown), (2, 2));
}
