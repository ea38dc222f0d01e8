use loopbox::support::{
    support_ticket_endpoint, support_ticket_error_detail, support_ticket_payload,
    validate_support_ticket, SUPPORT_TICKET_ENDPOINT_DEV, SUPPORT_TICKET_ENDPOINT_PROD,
};

#[test]
fn tickets_need_every_field() {
    assert_eq!(validate_support_ticket(" ", "s", "t", "v"), Err("Email is required.".to_string()));
    assert_eq!(validate_support_ticket("a@b", "", "t", "v"), Err("Subject is required.".to_string()));
    assert_eq!(validate_support_ticket("a@b", "s", "\n", "v"), Err("Text is required.".to_string()));
    assert_eq!(validate_support_ticket("a@b", "s", "t", "  "), Err("App version is required.".to_string()));
    let ticket = validate_support_ticket(" a@b ", " Help ", " It broke ", " v1.2.0 ").unwrap();
    assert_eq!(ticket.email, "a@b");
    assert_eq!(ticket.subject, "Help");
    assert_eq!(ticket.text, "It broke");
    assert_eq!(ticket.app_version, "v1.2.0");
}

#[test]
fn endpoint_prefers_configured_value() {
    assert_eq!(support_ticket_endpoint(Some(" https://x.test/api "), false), "https://x.test/api");
    assert_eq!(support_ticket_endpoint(Some("  "), true), SUPPORT_TICKET_ENDPOINT_DEV);
    assert_eq!(support_ticket_endpoint(None, false), SUPPORT_TICKET_ENDPOINT_PROD);
}

#[test]
fn payload_is_json_with_all_fields() {
    let ticket = validate_support_ticket("a@b", "Help", "It \"broke\"", "v1").unwrap();
    let (_doc, text) = support_ticket_payload(&ticket, 1_700_000_000_123);
    let parsed: serde_json::Value = serde_json::from_str(&text).unwrap();
    assert_eq!(parsed["email"].as_str(), Some("a@b"));
    assert_eq!(parsed["subject"].as_str(), Some("Help"));
    assert_eq!(parsed["text"].as_str(), Some("It \"broke\""));
    assert_eq!(parsed["app_version"].as_str(), Some("v1"));
    assert_eq!(parsed["submitted_at_unix_ms"].as_u64(), Some(1_700_000_000_123));
}

#[test]
fn error_detail_reads_json_or_body() {
    assert_eq!(support_ticket_error_detail(r#"{"message":" bad email "}"#), "bad email");
    assert_eq!(support_ticket_error_detail(r#"{"message":"  ","detail":"later"}"#), "later");
    assert_eq!(support_ticket_error_detail(r#"{"error":"nope"}"#), "nope");
    assert_eq!(support_ticket_error_detail(r#"{"other":1}"#), r#"{"other":1}"#);
    assert_eq!(support_ticket_error_detail("  plain text \n"), "plain text");
    assert_eq!(support_ticket_error_detail("   "), "no additional details");
}
