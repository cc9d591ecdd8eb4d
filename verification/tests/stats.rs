//! Aggregation behavior: zero results for unknown tenants, exact counts
//! and distinct counts, and the bounded, ordered recent feed.

use little_bell::database::{Database, RECENT_EVENTS_CAP};

#[test]
fn stats_for_tenant_with_no_emails_are_all_zero() {
    let db = Database::new();
    let stats = db.get_tenant_stats("ghost").unwrap();
    assert_eq!(stats.total_opens, 0);
    assert_eq!(stats.total_clicks, 0);
    assert_eq!(stats.unique_opens, 0);
    assert_eq!(stats.unique_clicks, 0);
    assert!(stats.recent_events.is_empty());
}

#[test]
fn counts_and_distinct_counts_from_one_email() {
    let mut db = Database::new();
    db.create_tenant("t", "t", 0).unwrap();
    let id = db.create_email("t", None, None, 0).unwrap();
    for k in 0..3 {
        db.log_event(id, "open", None, None, 10 + k).unwrap();
    }
    for k in 0..2 {
        db.log_event(id, "click", None, None, 20 + k).unwrap();
    }
    let stats = db.get_tenant_stats("t").unwrap();
    assert_eq!(stats.total_opens, 3);
    assert_eq!(stats.unique_opens, 1);
    assert_eq!(stats.total_clicks, 2);
    assert_eq!(stats.unique_clicks, 1);
}

#[test]
fn distinct_counts_span_emails() {
    let mut db = Database::new();
    let a = db.create_email("t", None, None, 0).unwrap();
    let b = db.create_email("t", None, None, 0).unwrap();
    db.log_event(a, "open", None, None, 1).unwrap();
    db.log_event(a, "open", None, None, 2).unwrap();
    db.log_event(b, "open", None, None, 3).unwrap();
    db.log_event(b, "click", None, None, 4).unwrap();
    let stats = db.get_tenant_stats("t").unwrap();
    assert_eq!(stats.total_opens, 3);
    assert_eq!(stats.unique_opens, 2);
    assert_eq!(stats.total_clicks, 1);
    assert_eq!(stats.unique_clicks, 1);
}

#[test]
fn stats_are_scoped_to_the_tenant() {
    let mut db = Database::new();
    let a = db.create_email("alpha", None, None, 0).unwrap();
    let b = db.create_email("beta", None, None, 0).unwrap();
    db.log_event(a, "open", None, None, 1).unwrap();
    db.log_event(b, "click", None, None, 2).unwrap();
    let alpha = db.get_tenant_stats("alpha").unwrap();
    assert_eq!(alpha.total_opens, 1);
    assert_eq!(alpha.total_clicks, 0);
    let beta = db.get_tenant_stats("beta").unwrap();
    assert_eq!(beta.total_opens, 0);
    assert_eq!(beta.total_clicks, 1);
}

#[test]
fn recent_events_are_capped_and_most_recent_first() {
    let mut db = Database::new();
    let id = db.create_email("t", None, None, 0).unwrap();
    for k in 0..60 {
        db.log_event(id, "open", None, None, 1000 + k).unwrap();
    }
    let stats = db.get_tenant_stats("t").unwrap();
    assert_eq!(stats.recent_events.len(), RECENT_EVENTS_CAP);
    // Most recent first: timestamps decrease strictly here.
    for w in stats.recent_events.windows(2) {
        assert!(w[0].timestamp > w[1].timestamp);
    }
    assert_eq!(stats.recent_events[0].timestamp, 1000 + 59);
    assert_eq!(stats.recent_events[49].timestamp, 1000 + 10);
}

#[test]
fn recent_events_break_timestamp_ties_by_insertion_order() {
    let mut db = Database::new();
    let id = db.create_email("t", None, None, 0).unwrap();
    db.log_event(id, "open", Some("first"), None, 5).unwrap();
    db.log_event(id, "open", Some("second"), None, 5).unwrap();
    let stats = db.get_tenant_stats("t").unwrap();
    assert_eq!(stats.recent_events.len(), 2);
    // Equal timestamps: the later-appended event is the more recent one.
    assert_eq!(stats.recent_events[0].user_agent.as_deref(), Some("second"));
    assert_eq!(stats.recent_events[1].user_agent.as_deref(), Some("first"));
}

#[test]
fn recent_events_carry_their_fields() {
    let mut db = Database::new();
    let id = db.create_email("t", None, None, 0).unwrap();
    db.log_event(id, "click", Some("agent"), Some("9.8.7.6"), 77).unwrap();
    let stats = db.get_tenant_stats("t").unwrap();
    assert_eq!(stats.recent_events.len(), 1);
    let e = &stats.recent_events[0];
    assert_eq!(e.email_id, id);
    assert_eq!(e.event_type, "click");
    assert_eq!(e.timestamp, 77);
    assert_eq!(e.user_agent.as_deref(), Some("agent"));
    assert_eq!(e.ip_address.as_deref(), Some("9.8.7.6"));
}

#[test]
fn events_of_other_types_are_not_counted() {
    let mut db = Database::new();
    let id = db.create_email("t", None, None, 0).unwrap();
    db.log_event(id, "bounce", None, None, 1).unwrap();
    db.log_event(id, "open", None, None, 2).unwrap();
    let stats = db.get_tenant_stats("t").unwrap();
    assert_eq!(stats.total_opens, 1);
    assert_eq!(stats.total_clicks, 0);
    // The feed still carries every event of the tenant.
    assert_eq!(stats.recent_events.len(), 2);
}
