//! The tracking operations end to end: pixel and click tracking, the
//! wrapped click URL, dashboard aggregation, and the error outcomes.

use little_bell::database::Database;
use little_bell::error::AppError;
use little_bell::track::{
    create_email, extract_ip, get_click_url, show_dashboard, track_click, track_open,
    CreateEmailRequest,
};

const BASE: &str = "http://localhost:3000";

#[test]
fn test_create_email() {
    let mut db = Database::new();
    let req = CreateEmailRequest {
        subject: Some("Test Email".to_string()),
        recipient: Some("test@example.com".to_string()),
    };
    let resp = create_email(&mut db, "test_tenant", BASE, req).unwrap();
    assert!(resp.email_id >= 1);
    assert!(resp.tracking_pixel_url.contains("/test_tenant/pixel/"));
    assert_eq!(
        resp.tracking_pixel_url,
        format!("{}/test_tenant/pixel/{}.gif", BASE, resp.email_id)
    );
}

#[test]
fn test_pixel_tracking() {
    let mut db = Database::new();
    let req = CreateEmailRequest {
        subject: Some("Test Email".to_string()),
        recipient: Some("test@example.com".to_string()),
    };
    let resp = create_email(&mut db, "test_tenant", BASE, req).unwrap();
    let path = format!("{}.gif", resp.email_id);
    let r = track_open(&mut db, "test_tenant", &path, Some("agent"), None, None);
    assert!(r.is_ok());
    let stats = db.get_tenant_stats("test_tenant").unwrap();
    assert_eq!(stats.total_opens, 1);
}

#[test]
fn test_click_tracking() {
    let mut db = Database::new();
    let req = CreateEmailRequest {
        subject: Some("Test Email".to_string()),
        recipient: Some("test@example.com".to_string()),
    };
    let resp = create_email(&mut db, "test_tenant", BASE, req).unwrap();
    let target = "https://example.com";
    let redirect = track_click(
        &mut db,
        "test_tenant",
        resp.email_id,
        target,
        None,
        None,
        None,
    )
    .unwrap();
    // The redirect target is exactly the given URL, unmodified.
    assert_eq!(redirect, target);
    let stats = db.get_tenant_stats("test_tenant").unwrap();
    assert_eq!(stats.total_clicks, 1);
}

#[test]
fn test_get_click_url() {
    let mut db = Database::new();
    let req = CreateEmailRequest {
        subject: Some("Test Email".to_string()),
        recipient: Some("test@example.com".to_string()),
    };
    let resp = create_email(&mut db, "test_tenant", BASE, req).unwrap();
    let target = "https://example.com";
    let (click, original) =
        get_click_url(&db, "test_tenant", resp.email_id, Some(target), BASE).unwrap();
    assert!(click.contains(&format!("/test_tenant/click/{}", resp.email_id)));
    assert_eq!(original, target);
}

#[test]
fn test_dashboard() {
    let mut db = Database::new();
    let stats = show_dashboard(&mut db, "test_tenant").unwrap();
    assert_eq!(stats.total_opens, 0);
    assert!(stats.recent_events.is_empty());
    // The dashboard lazily registered the tenant.
    assert!(db.get_tenant("test_tenant").unwrap().is_some());
}

#[test]
fn test_email_not_found() {
    let mut db = Database::new();
    let r = track_open(&mut db, "test_tenant", "999.gif", None, None, None);
    assert!(matches!(r, Err(AppError::EmailNotFound)));
    // No event row was created.
    let stats = db.get_tenant_stats("test_tenant").unwrap();
    assert!(stats.recent_events.is_empty());
}

#[test]
fn test_invalid_email_id() {
    let mut db = Database::new();
    let r = track_open(&mut db, "test_tenant", "invalid.gif", None, None, None);
    match r {
        Err(AppError::InvalidEmailId(s)) => assert_eq!(s, "invalid"),
        other => panic!("expected InvalidEmailId, got {:?}", other),
    }
}

#[test]
fn scenario_acme_end_to_end() {
    let mut db = Database::new();
    db.create_tenant("acme", "acme", 0).unwrap();
    let req = CreateEmailRequest { subject: None, recipient: None };
    let resp = create_email(&mut db, "acme", BASE, req).unwrap();
    assert_eq!(resp.email_id, 1);

    let r = track_open(
        &mut db,
        "acme",
        "1.gif",
        Some("agent"),
        Some("203.0.113.5, 70.41.3.18"),
        None,
    );
    assert!(r.is_ok());

    let redirect = track_click(&mut db, "acme", 1, "https://example.com", None, None, None)
        .unwrap();
    assert_eq!(redirect, "https://example.com");

    let stats = db.get_tenant_stats("acme").unwrap();
    assert_eq!(stats.total_opens, 1);
    assert_eq!(stats.total_clicks, 1);
    assert_eq!(stats.unique_opens, 1);
    assert_eq!(stats.unique_clicks, 1);
    // The forwarded-for chain was reduced to its first entry, trimmed.
    let open_event = stats
        .recent_events
        .iter()
        .find(|e| e.event_type == "open")
        .expect("open event recorded");
    assert_eq!(open_event.ip_address.as_deref(), Some("203.0.113.5"));
}

#[test]
fn repeated_tracking_calls_append_rows() {
    let mut db = Database::new();
    let req = CreateEmailRequest { subject: None, recipient: None };
    let resp = create_email(&mut db, "t", BASE, req).unwrap();
    let path = format!("{}.gif", resp.email_id);
    for _ in 0..3 {
        track_open(&mut db, "t", &path, None, None, None).unwrap();
    }
    let stats = db.get_tenant_stats("t").unwrap();
    assert_eq!(stats.total_opens, 3);
    assert_eq!(stats.recent_events.len(), 3);
}

#[test]
fn tracking_is_isolated_between_tenants() {
    let mut db = Database::new();
    let req = CreateEmailRequest { subject: None, recipient: None };
    let resp = create_email(&mut db, "t1", BASE, req).unwrap();
    let path = format!("{}.gif", resp.email_id);
    // The same email id under another tenant is not found.
    let r = track_open(&mut db, "t2", &path, None, None, None);
    assert!(matches!(r, Err(AppError::EmailNotFound)));
    let r2 = track_click(&mut db, "t2", resp.email_id, "https://a.b", None, None, None);
    assert!(matches!(r2, Err(AppError::EmailNotFound)));
}

#[test]
fn click_url_percent_encodes_the_target() {
    let mut db = Database::new();
    let req = CreateEmailRequest { subject: None, recipient: None };
    let resp = create_email(&mut db, "t", BASE, req).unwrap();
    let (click, original) = get_click_url(
        &db,
        "t",
        resp.email_id,
        Some("https://example.com/a b?x=1&y=2"),
        BASE,
    )
    .unwrap();
    assert_eq!(
        click,
        format!(
            "{}/t/click/{}?url=https%3A%2F%2Fexample.com%2Fa%20b%3Fx%3D1%26y%3D2",
            BASE, resp.email_id
        )
    );
    assert_eq!(original, "https://example.com/a b?x=1&y=2");
}

#[test]
fn click_url_requires_a_target() {
    let mut db = Database::new();
    let req = CreateEmailRequest { subject: None, recipient: None };
    let resp = create_email(&mut db, "t", BASE, req).unwrap();
    let r = get_click_url(&db, "t", resp.email_id, None, BASE);
    match r {
        Err(AppError::InvalidUrl(msg)) => assert_eq!(msg, "Missing 'url' parameter"),
        _ => panic!("expected InvalidUrl"),
    }
}

#[test]
fn click_url_for_foreign_email_is_not_found() {
    let db = Database::new();
    let r = get_click_url(&db, "t", 1, Some("https://example.com"), BASE);
    assert!(matches!(r, Err(AppError::EmailNotFound)));
}

#[test]
fn extract_ip_prefers_forwarded_for() {
    assert_eq!(
        extract_ip(Some("203.0.113.5, 70.41.3.18"), Some("9.9.9.9")).as_deref(),
        Some("203.0.113.5")
    );
    assert_eq!(extract_ip(None, Some("  1.2.3.4\t")).as_deref(), Some("1.2.3.4"));
    assert_eq!(extract_ip(None, None), None);
    assert_eq!(extract_ip(Some("   "), None).as_deref(), Some(""));
}

#[test]
fn open_tracking_accepts_a_bare_numeric_id() {
    let mut db = Database::new();
    let req = CreateEmailRequest { subject: None, recipient: None };
    let resp = create_email(&mut db, "t", BASE, req).unwrap();
    // Without the .gif extension the segment still parses.
    let path = format!("{}", resp.email_id);
    assert!(track_open(&mut db, "t", &path, None, None, None).is_ok());
}
