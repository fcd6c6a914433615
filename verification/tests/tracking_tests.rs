use base64::Engine;
use multiroblox::tracking::{
    attachment_file_name, attachment_part_name, capture_caption, capture_caption_now, capture_error,
    decode_capture_output, encode_preview, webhook_error, NO_IMAGE,
};

#[test]
fn capture_output_is_decoded() {
    assert_eq!(decode_capture_output("log line\r\nCAPTURED_B64: aGVsbG8=\r\n"), Ok(b"hello".to_vec()));
    assert_eq!(decode_capture_output("CAPTURED_B64:"), Ok(vec![]));
    assert_eq!(decode_capture_output("nothing\n"), Err(NO_IMAGE.to_string()));
    assert_eq!(decode_capture_output(" CAPTURED_B64:aGk="), Err(NO_IMAGE.to_string()));
    let want = base64::engine::general_purpose::STANDARD.decode("a$").unwrap_err().to_string();
    assert_eq!(decode_capture_output("CAPTURED_B64:a$"), Err(want));
}

#[test]
fn preview_is_base64() {
    assert_eq!(encode_preview(&b"hello".to_vec()), "aGVsbG8=");
    assert_eq!(encode_preview(&vec![]), "");
}

#[test]
fn webhook_message_parts() {
    assert_eq!(attachment_part_name(0), "files[0]");
    assert_eq!(attachment_file_name(0), "screenshot-1.png");
    assert_eq!(attachment_file_name(11), "screenshot-12.png");
    assert_eq!(webhook_error("404 Not Found", &"z".repeat(400)), format!("Webhook returned 404 Not Found: {}", "z".repeat(300)));
    assert_eq!(capture_caption("bob", "2024-01-02 03:04:05 UTC"), "**bob** \u{2014} 2024-01-02 03:04:05 UTC");
    let now = capture_caption_now("bob");
    assert!(now.starts_with("**bob** \u{2014} ") && now.ends_with(" UTC"));
    let when = now.trim_start_matches("**bob** \u{2014} ");
    let shape = regex::Regex::new(r"^\d{4}-\d{2}-\d{2} \d{2}:\d{2}:\d{2} UTC$").unwrap();
    assert!(shape.is_match(when), "{when}");
    assert_eq!(capture_error("  "), "Capture failed");
    assert_eq!(capture_error(" no window \n"), "no window");
}
