use base64::Engine;
use bounce_relay::dsn::{EmbeddedMessage, MessagePart, ParsedEmail, PartBody};
use bounce_relay::ingest::{ingest_into, plan_ingest, IngestPlan, IngestResult};
use bounce_relay::queue::{QueueEntry, QueueStore};
use bounce_relay::retry::{backoff_minutes, delivery_succeeded, plan_retry};
use bounce_relay::routes::Route;
use bounce_relay::backend::{select_backend, Backend};
use bounce_relay::sign::{recomputed_signature_matches, sign, u64_to_dec, verify_signature};
use bounce_relay::worker::{settle_job, signed_headers, DeliveryOutcome};
use hmac::Mac;

fn route(id: i32, domain: &str, local: Option<&str>, active: bool) -> Route {
    Route {
        id,
        domain: domain.as_bytes().to_vec(),
        local_part: local.map(|l| l.as_bytes().to_vec()),
        endpoint_url: format!("https://hooks.example.net/{}", id).into_bytes(),
        secret: format!("hook-secret-{}", id).into_bytes(),
        active,
    }
}

fn dsn_email(to: &str, status_text: &str) -> ParsedEmail {
    ParsedEmail {
        to: Some(to.as_bytes().to_vec()),
        message_id: Some(b"outer@example.net".to_vec()),
        parts: vec![
            MessagePart {
                ctype: b"text".to_vec(),
                subtype: b"plain".to_vec(),
                body: PartBody::Text { contents: b"delivery failed".to_vec(), as_headers: None },
            },
            MessagePart {
                ctype: b"message".to_vec(),
                subtype: b"delivery-status".to_vec(),
                body: PartBody::Text {
                    contents: status_text.as_bytes().to_vec(),
                    as_headers: None,
                },
            },
        ],
    }
}

#[test]
fn backoff_table_and_monotone() {
    let expected: [i64; 10] = [2, 4, 8, 16, 30, 30, 30, 30, 30, 30];
    let mut prev = 0;
    for attempts in 1..=10 {
        let d = backoff_minutes(attempts, 30);
        assert_eq!(d, expected[(attempts - 1) as usize]);
        assert_eq!(d, std::cmp::min(2i64.pow(attempts as u32), 30));
        assert!(d >= prev);
        prev = d;
    }
}

#[test]
fn backoff_huge_attempts_clamps() {
    assert_eq!(backoff_minutes(63, 30), 30);
    assert_eq!(backoff_minutes(200, 1800), 1800);
}

#[test]
fn expiry_rule() {
    // bounded retries: expired exactly when the new counter reaches the bound
    let p = plan_retry(1, 3, 30, 1000);
    assert_eq!(p.attempts, 2);
    assert!(!p.expired);
    let p = plan_retry(2, 3, 30, 1000);
    assert_eq!(p.attempts, 3);
    assert!(p.expired);
    let p = plan_retry(50, 3, 30, 1000);
    assert!(p.expired);
    // unbounded: never expired
    for prev in [0, 5, 100, 100000] {
        assert!(!plan_retry(prev, 0, 30, 1000).expired);
    }
}

#[test]
fn retry_schedule_applies_backoff() {
    let p = plan_retry(0, 50, 30, 600);
    assert_eq!(p.attempts, 1);
    assert_eq!(p.delay_minutes, 2);
    assert_eq!(p.next_attempt_at, 600 + 120);
}

#[test]
fn http_status_classes() {
    assert!(delivery_succeeded(200));
    assert!(delivery_succeeded(204));
    assert!(delivery_succeeded(299));
    assert!(!delivery_succeeded(199));
    assert!(!delivery_succeeded(301));
    assert!(!delivery_succeeded(404));
    assert!(!delivery_succeeded(500));
}

#[test]
fn decimal_timestamp() {
    assert_eq!(u64_to_dec(0), b"0".to_vec());
    assert_eq!(u64_to_dec(7), b"7".to_vec());
    assert_eq!(u64_to_dec(1714567890), b"1714567890".to_vec());
    assert_eq!(u64_to_dec(u64::MAX), b"18446744073709551615".to_vec());
}

#[test]
fn signature_matches_direct_computation() {
    let secret = b"hook-secret";
    let payload = b"{\"event\":\"bounce\"}";
    let (ts, sig) = signed_headers(secret, 1714567890, payload);
    assert_eq!(ts, b"1714567890".to_vec());

    let mut mac = hmac::Hmac::<sha2::Sha512>::new_from_slice(secret).unwrap();
    mac.update(b"1714567890.{\"event\":\"bounce\"}");
    let expected =
        base64::engine::general_purpose::STANDARD.encode(mac.finalize().into_bytes());
    assert_eq!(sig, expected);
}

#[test]
fn signature_verifies_and_rejects_changes() {
    let secret = b"topsecret";
    let ts = b"1714567890";
    let payload = b"{\"email\":\"bob@example.com\"}";
    let sig = sign(secret, ts, payload);
    assert!(verify_signature(secret, ts, payload, &sig));

    // any altered byte of the payload mismatches
    let mut altered = payload.to_vec();
    altered[3] ^= 1;
    assert!(!verify_signature(secret, ts, &altered, &sig));

    // an altered timestamp mismatches
    assert!(!verify_signature(secret, b"1714567891", payload, &sig));

    // another secret mismatches
    assert!(!verify_signature(b"othersecret", ts, payload, &sig));
}

#[test]
fn signature_roundtrip_always_accepts() {
    assert!(recomputed_signature_matches(b"k", b"0", b""));
    assert!(recomputed_signature_matches(b"hook-secret", b"1714567890", b"{\"a\":1}"));
}

#[test]
fn backend_selection() {
    assert!(matches!(select_backend("PostgreSQL"), Some(Backend::Postgres)));
    assert!(matches!(select_backend("MySQL"), Some(Backend::MySql)));
    assert!(matches!(select_backend("SQLite"), Some(Backend::Sqlite)));
    assert!(select_backend("postgresql").is_none());
    assert!(select_backend("MSSQL").is_none());
}

#[test]
fn no_bounce_no_queue_write() {
    let routes = vec![route(1, "example.com", None, true)];
    let email = ParsedEmail {
        to: Some(b"bob@example.com".to_vec()),
        message_id: None,
        parts: vec![MessagePart {
            ctype: b"text".to_vec(),
            subtype: b"plain".to_vec(),
            body: PartBody::Text { contents: b"just a newsletter".to_vec(), as_headers: None },
        }],
    };
    let plan = plan_ingest(&email, b'+', &routes, 1000000000);
    assert!(matches!(plan, IngestPlan::NotBounce));

    let mut store = QueueStore::new(routes);
    let r = ingest_into(&mut store, &email, b'+', 1000000000);
    assert!(matches!(r, IngestResult::NotBounce));
    assert!(store.entries.is_empty());
}

#[test]
fn catch_all_and_specific_route_counts() {
    let routes =
        vec![route(1, "example.com", Some("user"), true), route(2, "example.com", None, true)];

    let mut store = QueueStore::new(routes);
    let email = dsn_email("user@example.com", "Status: 5.1.1\n");
    let r = ingest_into(&mut store, &email, b'+', 1000000000);
    assert!(matches!(r, IngestResult::Enqueued(2)));
    assert_eq!(store.entries.len(), 2);
    assert_eq!(store.entries[0].route_id, 1);
    assert_eq!(store.entries[1].route_id, 2);

    let email = dsn_email("other@example.com", "Status: 5.1.1\n");
    let r = ingest_into(&mut store, &email, b'+', 1000000000);
    assert!(matches!(r, IngestResult::Enqueued(1)));
    assert_eq!(store.entries.len(), 3);
    assert_eq!(store.entries[2].route_id, 2);
}

#[test]
fn inactive_or_foreign_routes_do_not_match() {
    let routes = vec![
        route(1, "example.com", None, false),
        route(2, "elsewhere.org", None, true),
        route(3, "example.com", Some("carol"), true),
    ];
    let mut store = QueueStore::new(routes);
    let email = dsn_email("bob@example.com", "Status: 5.1.1\n");
    let r = ingest_into(&mut store, &email, b'+', 1000000000);
    assert!(matches!(r, IngestResult::NoRoutes));
    assert!(store.entries.is_empty());
}

fn entry(id: i64, route_id: i32, due: i64, expired: bool) -> QueueEntry {
    QueueEntry {
        id,
        route_id,
        payload: b"{}".to_vec(),
        attempts: 0,
        next_attempt_at: due,
        last_error: None,
        expired,
        created_at: 0,
    }
}

#[test]
fn claim_ready_excludes_and_orders() {
    let store = QueueStore {
        routes: vec![route(1, "example.com", None, true), route(2, "example.com", None, false)],
        entries: vec![
            entry(10, 1, 500, false),   // due, active route
            entry(11, 1, 100, false),   // due earlier, active route
            entry(12, 1, 9000, false),  // not yet due
            entry(13, 1, 50, true),     // expired
            entry(14, 2, 10, false),    // inactive route
            entry(15, 99, 10, false),   // no such route
            entry(16, 1, 300, false),   // due, active route
        ],
        next_id: 100,
    };
    let jobs = store.claim_ready(1000, 10);
    let ids: Vec<i64> = jobs.iter().map(|j| j.entry_id).collect();
    assert_eq!(ids, vec![11, 16, 10]);
    for j in &jobs {
        assert_eq!(j.url, format!("https://hooks.example.net/{}", 1).into_bytes());
        assert_eq!(j.secret, format!("hook-secret-{}", 1).into_bytes());
    }
}

#[test]
fn claim_ready_caps_at_limit_oldest_first() {
    let store = QueueStore {
        routes: vec![route(1, "example.com", None, true)],
        entries: vec![
            entry(1, 1, 400, false),
            entry(2, 1, 100, false),
            entry(3, 1, 300, false),
            entry(4, 1, 200, false),
        ],
        next_id: 100,
    };
    let jobs = store.claim_ready(1000, 2);
    let ids: Vec<i64> = jobs.iter().map(|j| j.entry_id).collect();
    assert_eq!(ids, vec![2, 4]);
}

#[test]
fn settle_success_deletes_entry() {
    let mut store = QueueStore {
        routes: vec![route(1, "example.com", None, true)],
        entries: vec![entry(1, 1, 0, false), entry(2, 1, 0, false)],
        next_id: 100,
    };
    settle_job(&mut store, 1, 0, DeliveryOutcome::Success, 50, 30, 1000);
    assert_eq!(store.entries.len(), 1);
    assert_eq!(store.entries[0].id, 2);
}

#[test]
fn settle_failure_reschedules_and_expires() {
    let mut store = QueueStore {
        routes: vec![route(1, "example.com", None, true)],
        entries: vec![entry(7, 1, 0, false)],
        next_id: 100,
    };
    settle_job(
        &mut store,
        7,
        0,
        DeliveryOutcome::Failure { error: b"503: unavailable".to_vec() },
        2,
        30,
        1000,
    );
    assert_eq!(store.entries.len(), 1);
    assert_eq!(store.entries[0].attempts, 1);
    assert_eq!(store.entries[0].last_error, Some(b"503: unavailable".to_vec()));
    assert!(!store.entries[0].expired);
    assert_eq!(store.entries[0].next_attempt_at, 1000 + 120);

    settle_job(
        &mut store,
        7,
        1,
        DeliveryOutcome::Failure { error: b"timeout".to_vec() },
        2,
        30,
        2000,
    );
    // retries used up: expired, kept for audit, never claimed again
    assert_eq!(store.entries.len(), 1);
    assert_eq!(store.entries[0].attempts, 2);
    assert!(store.entries[0].expired);
    assert!(store.claim_ready(i64::MAX, 10).is_empty());
}

#[test]
fn bounce_to_tagged_address_end_to_end() {
    // a DSN for bob+promo@example.com with delimiter '+' matches the route
    // for local part "bob"; the payload records the permanent 5.1.1 status
    let routes = vec![route(5, "example.com", Some("bob"), true)];
    let mut store = QueueStore::new(routes);
    let email = ParsedEmail {
        to: Some(b"bob+promo@example.com".to_vec()),
        message_id: Some(b"outer@example.net".to_vec()),
        parts: vec![
            MessagePart {
                ctype: b"message".to_vec(),
                subtype: b"delivery-status".to_vec(),
                body: PartBody::Text {
                    contents: b"Final-Recipient: rfc822; bob@example.com\n\
                                Status: 5.1.1\n\
                                Action: failed\n\
                                Diagnostic-Code: smtp; 550 no such user\n"
                        .to_vec(),
                    as_headers: None,
                },
            },
        ],
    };
    let r = ingest_into(&mut store, &email, b'+', 1000000000);
    assert!(matches!(r, IngestResult::Enqueued(1)));
    assert_eq!(store.entries.len(), 1);
    assert_eq!(store.entries[0].route_id, 5);
    assert_eq!(store.entries[0].attempts, 0);
    assert!(!store.entries[0].expired);

    let payload = &store.entries[0].payload;
    let v: serde_json::Value = serde_json::from_slice(payload).expect("valid JSON");
    assert_eq!(v["timestamp"], "2001-09-09T01:46:40Z");
    assert_eq!(v["email"], "bob@example.com");
    assert_eq!(v["status"], "5.1.1");
    assert_eq!(v["action"], "failed");
    assert_eq!(v["reason"], "smtp; 550 no such user");
    assert_eq!(v["is_permanent"], true);

    // the entry is immediately claimable and joined with its route
    let jobs = store.claim_ready(1000000000, 10);
    assert_eq!(jobs.len(), 1);
    assert_eq!(jobs[0].entry_id, store.entries[0].id);
    assert_eq!(jobs[0].secret, b"hook-secret-5".to_vec());
}

#[test]
fn claim_ready_limit_zero_returns_nothing() {
    let store = QueueStore {
        routes: vec![route(1, "example.com", None, true)],
        entries: vec![entry(1, 1, 0, false)],
        next_id: 100,
    };
    assert!(store.claim_ready(1000, 0).is_empty());
}

#[test]
fn enqueue_assigns_fresh_ids() {
    let mut store = QueueStore::new(vec![route(1, "example.com", None, true)]);
    let a = store.enqueue(1, b"{}".to_vec(), 10);
    let b = store.enqueue(1, b"{}".to_vec(), 10);
    assert_ne!(a, b);
    assert_eq!(store.entries.len(), 2);
    assert_eq!(store.entries[0].id, a);
    assert_eq!(store.entries[1].id, b);
    assert_eq!(store.entries[0].attempts, 0);
    assert_eq!(store.entries[0].next_attempt_at, 10);
    assert!(!store.entries[0].expired);
}
