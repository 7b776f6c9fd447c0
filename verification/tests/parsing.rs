use bounce_relay::dsn::{
    parse_dsn, parse_dsn_fields, parse_original_message, EmbeddedMessage, HeaderField,
    MessagePart, ParsedEmail, PartBody,
};
use bounce_relay::columns::{EmailRoute, WebhookQueue};
use bounce_relay::payload::{build_payload, format_rfc3339};
use bounce_relay::routes::split_target;

fn text_part(ctype: &str, subtype: &str, contents: &str) -> MessagePart {
    MessagePart {
        ctype: ctype.as_bytes().to_vec(),
        subtype: subtype.as_bytes().to_vec(),
        body: PartBody::Text { contents: contents.as_bytes().to_vec(), as_headers: None },
    }
}

#[test]
fn dsn_fields_all_present() {
    let text = "Reporting-MTA: dns; mx.example.net\r\n\
                Original-Recipient: rfc822; alice@example.com\r\n\
                Final-Recipient: rfc822; alias@example.com\r\n\
                Action: failed\r\n\
                Status: 5.1.1\r\n\
                Diagnostic-Code: smtp; 550 user unknown\r\n";
    let info = parse_dsn_fields(text.as_bytes());
    assert_eq!(info.recipient, b"alice@example.com".to_vec());
    assert_eq!(info.reason, b"smtp; 550 user unknown".to_vec());
    assert_eq!(info.status, b"5.1.1".to_vec());
    assert_eq!(info.action, b"failed".to_vec());
}

#[test]
fn dsn_original_recipient_wins_either_order() {
    let first = "Original-Recipient: rfc822; alice@example.com\n\
                 Final-Recipient: rfc822; alias@example.com\n";
    let info = parse_dsn_fields(first.as_bytes());
    assert_eq!(info.recipient, b"alice@example.com".to_vec());

    let second = "Final-Recipient: rfc822; alias@example.com\n\
                  Original-Recipient: rfc822; alice@example.com\n";
    let info = parse_dsn_fields(second.as_bytes());
    assert_eq!(info.recipient, b"alice@example.com".to_vec());
}

#[test]
fn dsn_first_final_recipient_wins() {
    let text = "Final-Recipient: rfc822; one@example.com\n\
                Final-Recipient: rfc822; two@example.com\n";
    let info = parse_dsn_fields(text.as_bytes());
    assert_eq!(info.recipient, b"one@example.com".to_vec());
}

#[test]
fn dsn_defaults_when_fields_missing() {
    let info = parse_dsn_fields(b"Reporting-MTA: dns; mx.example.net\n");
    assert_eq!(info.recipient, b"unknown".to_vec());
    assert_eq!(info.reason, b"No reason found".to_vec());
    assert_eq!(info.status, b"5.0.0".to_vec());
    assert_eq!(info.action, b"failed".to_vec());
}

#[test]
fn dsn_field_names_case_insensitive() {
    let text = "ORIGINAL-RECIPIENT: rfc822; a@b.c\nSTATUS: 4.4.1\naCtIoN: delayed\n";
    let info = parse_dsn_fields(text.as_bytes());
    assert_eq!(info.recipient, b"a@b.c".to_vec());
    assert_eq!(info.status, b"4.4.1".to_vec());
    assert_eq!(info.action, b"delayed".to_vec());
}

#[test]
fn dsn_value_splitting_rules() {
    // recipient: after the last ';'; reason: after the first ':';
    // status and action: after the last ':'
    let text = "Original-Recipient: rfc822; group; final@x.y\n\
                Diagnostic-Code: smtp; 550 5.1.1 bad: address\n";
    let info = parse_dsn_fields(text.as_bytes());
    assert_eq!(info.recipient, b"final@x.y".to_vec());
    assert_eq!(info.reason, b"smtp; 550 5.1.1 bad: address".to_vec());
}

#[test]
fn parse_dsn_finds_delivery_status_part() {
    let email = ParsedEmail {
        to: Some(b"bob@example.com".to_vec()),
        message_id: None,
        parts: vec![
            text_part("text", "plain", "your message bounced"),
            text_part("message", "delivery-status", "Status: 5.2.2\n"),
        ],
    };
    let info = parse_dsn(&email).expect("is a bounce");
    assert_eq!(info.status, b"5.2.2".to_vec());
}

#[test]
fn parse_dsn_none_without_delivery_status() {
    let email = ParsedEmail {
        to: None,
        message_id: None,
        parts: vec![text_part("text", "plain", "hello"), text_part("text", "html", "<p>hi</p>")],
    };
    assert!(parse_dsn(&email).is_none());
}

#[test]
fn nested_delivery_status_part_yields_defaults() {
    // a part that is itself a message has no textual contents to scan,
    // so a delivery-status content type on it yields the default record
    let email = ParsedEmail {
        to: None,
        message_id: None,
        parts: vec![MessagePart {
            ctype: b"message".to_vec(),
            subtype: b"delivery-status".to_vec(),
            body: PartBody::Nested(EmbeddedMessage {
                subject: None,
                from: None,
                message_id: None,
                headers: vec![],
            }),
        }],
    };
    let info = parse_dsn(&email).expect("content type still matches");
    assert_eq!(info.recipient, b"unknown".to_vec());
    assert_eq!(info.status, b"5.0.0".to_vec());
}

#[test]
fn original_message_from_nested_part() {
    let nested = EmbeddedMessage {
        subject: Some(b"Weekly news".to_vec()),
        from: Some(b"news@example.org".to_vec()),
        message_id: Some(b"abc123@example.org".to_vec()),
        headers: vec![
            HeaderField { name: b"X-Campaign".to_vec(), value: b"spring".to_vec() },
            HeaderField { name: b"x-Campaign".to_vec(), value: b"summer".to_vec() },
            HeaderField { name: b"Subject".to_vec(), value: b"Weekly news".to_vec() },
        ],
    };
    let email = ParsedEmail {
        to: None,
        message_id: Some(b"outer@example.net".to_vec()),
        parts: vec![
            text_part("text", "plain", "bounce explanation"),
            MessagePart {
                ctype: b"message".to_vec(),
                subtype: b"rfc822".to_vec(),
                body: PartBody::Nested(nested),
            },
        ],
    };
    let info = parse_original_message(&email);
    assert_eq!(info.subject, b"Weekly news".to_vec());
    assert_eq!(info.from, b"news@example.org".to_vec());
    assert_eq!(info.message_id, Some(b"abc123@example.org".to_vec()));
    // both spellings of the prefix collect; the later value replaces the earlier
    assert_eq!(info.metadata.len(), 1);
    assert_eq!(info.metadata[0].name, b"Campaign".to_vec());
    assert_eq!(info.metadata[0].value, b"summer".to_vec());
}

#[test]
fn original_message_id_falls_back_to_outer() {
    let nested = EmbeddedMessage { subject: None, from: None, message_id: None, headers: vec![] };
    let email = ParsedEmail {
        to: None,
        message_id: Some(b"outer@example.net".to_vec()),
        parts: vec![MessagePart {
            ctype: b"message".to_vec(),
            subtype: b"rfc822".to_vec(),
            body: PartBody::Nested(nested),
        }],
    };
    let info = parse_original_message(&email);
    assert_eq!(info.subject, b"unknown".to_vec());
    assert_eq!(info.from, b"unknown".to_vec());
    assert_eq!(info.message_id, Some(b"outer@example.net".to_vec()));
}

#[test]
fn original_message_from_rfc822_headers_part() {
    let parsed = EmbeddedMessage {
        subject: Some(b"Order 7".to_vec()),
        from: Some(b"shop@example.org".to_vec()),
        message_id: None,
        headers: vec![],
    };
    let email = ParsedEmail {
        to: None,
        message_id: None,
        parts: vec![MessagePart {
            ctype: b"text".to_vec(),
            subtype: b"rfc822-headers".to_vec(),
            body: PartBody::Text {
                contents: b"Subject: Order 7\r\nFrom: shop@example.org\r\n".to_vec(),
                as_headers: Some(parsed),
            },
        }],
    };
    let info = parse_original_message(&email);
    assert_eq!(info.subject, b"Order 7".to_vec());
    assert_eq!(info.from, b"shop@example.org".to_vec());
    assert_eq!(info.message_id, None);
}

#[test]
fn original_message_defaults_without_embedded() {
    let email = ParsedEmail {
        to: None,
        message_id: Some(b"outer@example.net".to_vec()),
        parts: vec![text_part("text", "plain", "nothing embedded")],
    };
    let info = parse_original_message(&email);
    assert_eq!(info.subject, b"unknown".to_vec());
    assert_eq!(info.from, b"unknown".to_vec());
    assert_eq!(info.message_id, None);
    assert!(info.metadata.is_empty());
}

#[test]
fn split_target_strips_subaddress_tag() {
    let (user, domain) = split_target(b"bob+promo@example.com", b'+');
    assert_eq!(user, b"bob".to_vec());
    assert_eq!(domain, b"example.com".to_vec());

    let (user, domain) = split_target(b"bob@example.com", b'+');
    assert_eq!(user, b"bob".to_vec());
    assert_eq!(domain, b"example.com".to_vec());

    let (user, domain) = split_target(b"not-an-address", b'+');
    assert_eq!(user, b"".to_vec());
    assert_eq!(domain, b"".to_vec());
}

#[test]
fn rfc3339_known_values() {
    assert_eq!(format_rfc3339(0), b"1970-01-01T00:00:00Z".to_vec());
    assert_eq!(format_rfc3339(1000000000), b"2001-09-09T01:46:40Z".to_vec());
}

#[test]
fn payload_fields_parse_back() {
    let email = ParsedEmail {
        to: None,
        message_id: Some(b"m-1@example.net".to_vec()),
        parts: vec![MessagePart {
            ctype: b"message".to_vec(),
            subtype: b"rfc822".to_vec(),
            body: PartBody::Nested(EmbeddedMessage {
                subject: Some(b"He said \"hi\"\tthere".to_vec()),
                from: Some(b"sender@example.org".to_vec()),
                message_id: Some(b"orig@example.org".to_vec()),
                headers: vec![HeaderField {
                    name: b"X-Tag".to_vec(),
                    value: b"a\\b\ncontrol\x01".to_vec(),
                }],
            }),
        }],
    };
    let info = parse_original_message(&email);
    let bounce = parse_dsn_fields(b"Status: 5.7.1\nDiagnostic-Code: smtp; blocked\n");
    let ts = format_rfc3339(1000000000);
    let payload = build_payload(&info, &bounce, &ts);

    let v: serde_json::Value = serde_json::from_slice(&payload).expect("valid JSON");
    assert_eq!(v["event"], "bounce");
    assert_eq!(v["timestamp"], "2001-09-09T01:46:40Z");
    assert_eq!(v["message_id"], "orig@example.org");
    assert_eq!(v["from"], "sender@example.org");
    assert_eq!(v["subject"], "He said \"hi\"\tthere");
    assert_eq!(v["metadata"]["Tag"], "a\\b\ncontrol\u{1}");
    assert_eq!(v["email"], "unknown");
    assert_eq!(v["reason"], "smtp; blocked");
    assert_eq!(v["status"], "5.7.1");
    assert_eq!(v["action"], "failed");
    assert_eq!(v["is_permanent"], true);
}

#[test]
fn payload_exact_bytes_minimal() {
    let info = parse_original_message(&ParsedEmail { to: None, message_id: None, parts: vec![] });
    let bounce = parse_dsn_fields(b"Status: 4.4.1\n");
    let payload = build_payload(&info, &bounce, b"2001-09-09T01:46:40Z");
    let expected = "{\"event\":\"bounce\",\"timestamp\":\"2001-09-09T01:46:40Z\",\"message_id\":null,\"from\":\"unknown\",\"subject\":\"unknown\",\"metadata\":{},\"email\":\"unknown\",\"reason\":\"No reason found\",\"status\":\"4.4.1\",\"action\":\"failed\",\"is_permanent\":false}";
    assert_eq!(payload, expected.as_bytes().to_vec());
}

#[test]
fn column_identifiers() {
    assert_eq!(EmailRoute::Table.unquoted(), "email_routes");
    assert_eq!(EmailRoute::SecretToken.unquoted(), "secret_token");
    assert_eq!(EmailRoute::IsActive.unquoted(), "is_active");
    assert_eq!(WebhookQueue::Table.unquoted(), "webhook_queue");
    assert_eq!(WebhookQueue::EmailRouteId.unquoted(), "email_route_id");
    assert_eq!(WebhookQueue::NextRetryAt.unquoted(), "next_retry_at");
    assert_eq!(WebhookQueue::IsExpired.unquoted(), "is_expired");
}
