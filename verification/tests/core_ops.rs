//! Store-level behavior: idempotent tenant registration, tenant-scoped
//! email lookup, append-only event recording, and row reloading.

use little_bell::database::{Database, Email, Event, Tenant};
use little_bell::error::AppError;

#[test]
fn tenant_registration_is_idempotent() {
    let mut db = Database::new();
    db.create_tenant("acme", "Acme Corp", 10).unwrap();
    db.create_tenant("acme", "Some Other Name", 20).unwrap();

    let t = db.get_tenant("acme").unwrap().expect("tenant must exist");
    assert_eq!(t.id, "acme");
    // The second registration never overwrites the first row.
    assert_eq!(t.name, "Acme Corp");
    assert_eq!(t.created_at, 10);
}

#[test]
fn get_tenant_absent_is_none_not_error() {
    let db = Database::new();
    assert!(db.get_tenant("nobody").unwrap().is_none());
}

#[test]
fn email_ids_are_assigned_monotonically() {
    let mut db = Database::new();
    let a = db.create_email("t1", Some("first"), None, 1).unwrap();
    let b = db.create_email("t2", None, Some("x@y.z"), 2).unwrap();
    let c = db.create_email("t1", None, None, 3).unwrap();
    assert_eq!(a, 1);
    assert_eq!(b, 2);
    assert_eq!(c, 3);
}

#[test]
fn email_lookup_requires_both_keys() {
    let mut db = Database::new();
    let id = db.create_email("t1", Some("subject"), Some("rcpt"), 5).unwrap();

    let found = db.get_email(id, "t1").unwrap().expect("owner sees the email");
    assert_eq!(found.id, id);
    assert_eq!(found.tenant_id, "t1");
    assert_eq!(found.subject.as_deref(), Some("subject"));
    assert_eq!(found.recipient.as_deref(), Some("rcpt"));
    assert_eq!(found.created_at, 5);

    // The same id under another tenant resolves to absent, not the record.
    assert!(db.get_email(id, "t2").unwrap().is_none());
    assert!(db.get_email(999, "t1").unwrap().is_none());
}

#[test]
fn log_event_appends_without_checking_ownership() {
    let mut db = Database::new();
    // The recorder trusts its caller's prior check: an event can reference
    // an email id that does not exist.
    db.log_event(42, "open", Some("agent"), Some("1.2.3.4"), 100).unwrap();
    db.log_event(42, "open", None, None, 101).unwrap();
    // Neither call overwrote the other: both rows are visible once the
    // email comes to exist under a tenant.
    let mut db2 = Database::new();
    let id = db2.create_email("t", None, None, 1).unwrap();
    db2.log_event(id, "open", None, None, 10).unwrap();
    db2.log_event(id, "open", None, None, 11).unwrap();
    let stats = db2.get_tenant_stats("t").unwrap();
    assert_eq!(stats.total_opens, 2);
    assert_eq!(stats.recent_events.len(), 2);
}

#[test]
fn create_email_fails_only_when_id_space_is_exhausted() {
    let emails = vec![Email {
        id: i64::MAX - 1,
        tenant_id: "t".to_string(),
        subject: None,
        recipient: None,
        created_at: 0,
    }];
    let mut db = Database::from_rows(Vec::new(), emails, Vec::new());
    let r = db.create_email("t", None, None, 1);
    assert!(matches!(r, Err(AppError::Database(_))));
}

#[test]
fn log_event_fails_only_when_id_space_is_exhausted() {
    let events = vec![Event {
        id: i64::MAX - 1,
        email_id: 1,
        event_type: "open".to_string(),
        timestamp: 0,
        user_agent: None,
        ip_address: None,
    }];
    let mut db = Database::from_rows(Vec::new(), Vec::new(), events);
    let r = db.log_event(1, "open", None, None, 1);
    assert!(matches!(r, Err(AppError::Database(_))));
}

#[test]
fn from_rows_drops_duplicate_and_out_of_range_ids() {
    let tenants = vec![
        Tenant { id: "a".to_string(), name: "first".to_string(), created_at: 1 },
        Tenant { id: "a".to_string(), name: "second".to_string(), created_at: 2 },
        Tenant { id: "b".to_string(), name: "other".to_string(), created_at: 3 },
    ];
    let emails = vec![
        Email { id: 7, tenant_id: "a".to_string(), subject: None, recipient: None, created_at: 1 },
        Email { id: 7, tenant_id: "b".to_string(), subject: None, recipient: None, created_at: 2 },
        Email { id: 0, tenant_id: "a".to_string(), subject: None, recipient: None, created_at: 3 },
        Email { id: 3, tenant_id: "a".to_string(), subject: None, recipient: None, created_at: 4 },
    ];
    let events = vec![
        Event {
            id: 2,
            email_id: 7,
            event_type: "open".to_string(),
            timestamp: 5,
            user_agent: None,
            ip_address: None,
        },
        Event {
            id: 2,
            email_id: 7,
            event_type: "click".to_string(),
            timestamp: 6,
            user_agent: None,
            ip_address: None,
        },
    ];
    let mut db = Database::from_rows(tenants, emails, events);

    // The first tenant row for "a" survived.
    let t = db.get_tenant("a").unwrap().unwrap();
    assert_eq!(t.name, "first");
    // Email id 7 belongs to "a" (first occurrence), not "b".
    assert!(db.get_email(7, "a").unwrap().is_some());
    assert!(db.get_email(7, "b").unwrap().is_none());
    // The out-of-range email row was dropped.
    assert!(db.get_email(0, "a").unwrap().is_none());
    // The counters resume above every kept id.
    let next = db.create_email("a", None, None, 9).unwrap();
    assert_eq!(next, 8);
    // Only the first event row with id 2 was kept.
    let stats = db.get_tenant_stats("a").unwrap();
    assert_eq!(stats.total_opens, 1);
    assert_eq!(stats.total_clicks, 0);
}
