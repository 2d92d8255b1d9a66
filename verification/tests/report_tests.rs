use higuard::alerts::{AlertCheck, AlertRecord};
use higuard::errors::{QueryError, RequestError, ServerError};
use higuard::report::{ReportAction, ReportEvent, ReportPhase, ReportRequest, ReportState, TagPair, UserContact};

fn request(trace: &str, tags: Option<Vec<TagPair>>) -> ReportRequest {
    ReportRequest {
        message: "boom".to_string(),
        stack_trace: trace.to_string(),
        user_affected: "carol".to_string(),
        tags,
    }
}

fn alert(id: u128, method: &str, path: Option<&str>, triggered: bool) -> AlertRecord {
    AlertRecord {
        id,
        namespace_id: 5,
        alert_method: method.to_string(),
        discord_channel_id: Some("42".to_string()),
        path: path.map(|p| p.to_string()),
        line: None,
        message: None,
        stack_trace: None,
        count_threshold: Some(1),
        time_window: Some(120_000),
        unresolved_time_threshold: None,
        rate_threshold: None,
        rate_time_window: None,
        triggered,
        created_at: 0,
        updated_at: 0,
    }
}

const TRACE: &str = "Error: boom\n  at src/app.rs:9 run app";

fn begin(tags: Option<Vec<TagPair>>) -> (ReportState, ReportAction) {
    ReportState::begin(request(TRACE, tags), 77, 1000, 600_000, "now".to_string(), "https://d".to_string()).unwrap()
}

#[test]
fn empty_trace_is_refused_before_anything_else() {
    let r = ReportState::begin(request("", None), 1, 2, 3, String::new(), String::new());
    assert!(matches!(r, Err(ServerError::RequestError(RequestError::StackTraceParsingError))));
}

#[test]
fn unknown_namespace_fails() {
    let (mut s, a) = begin(None);
    assert!(matches!(a, ReportAction::FindNamespace(77)));
    let a = s.step(ReportEvent::Namespace(None));
    assert!(matches!(a, ReportAction::Fail(ServerError::QueryError(QueryError::NamespaceNotFound))));
    assert_eq!(s.phase, ReportPhase::Finished);
}

#[test]
fn firing_email_alert_runs_through_to_storage() {
    let (mut s, _) = begin(Some(vec![TagPair { tag_key: "env".to_string(), tag_value: "prod".to_string() }]));
    assert!(matches!(s.step(ReportEvent::Namespace(Some(5))), ReportAction::LoadAlerts(5)));
    let alerts = vec![alert(1, "email", Some("other.rs"), false), alert(2, "email", None, true), alert(3, "email", Some("src/app.rs"), false)];
    let a = s.step(ReportEvent::Alerts(alerts, vec!["t1".to_string(), "t2".to_string(), "t3".to_string()]));
    // alert 1 filters another path, alert 2 already fired
    assert!(matches!(a, ReportAction::LoadSubscribers(3)));
    match s.step(ReportEvent::Subscribers(vec![11])) {
        ReportAction::RunCheck { namespace_id, path, .. } => {
            assert_eq!(namespace_id, 5);
            assert_eq!(path.as_deref(), Some("src/app.rs"));
        },
        _ => panic!("expected a check"),
    }
    assert!(matches!(s.step(ReportEvent::Counted(2)), ReportAction::FindUser(11)));
    match s.step(ReportEvent::User(Some(UserContact { id: 11, email: "eve@x".to_string() }), 900)) {
        ReportAction::Notify(n) => {
            assert_eq!(n.id, 900);
            assert_eq!(n.user_id, 11);
            assert_eq!(n.title, "Alert Notification");
            assert!(n.text.starts_with("Alert 00000000-0000-0000-0000-000000000003 has been triggered"));
        },
        _ => panic!("expected a notification"),
    }
    match s.step(ReportEvent::Notified) {
        ReportAction::SendEmail { to, subject, content } => {
            assert_eq!(to, "eve@x");
            assert_eq!(subject, "Error Alert");
            assert_eq!(content.dynamic_content.unwrap(), "Alert Details:\nError Count Triggered: 1.\nTime Triggered: now");
        },
        _ => panic!("expected an e-mail"),
    }
    match s.step(ReportEvent::Sent) {
        ReportAction::MarkTriggered(ids) => assert_eq!(ids, vec![3]),
        _ => panic!("expected the fired alerts"),
    }
    match s.step(ReportEvent::Marked) {
        ReportAction::Store(rec, tags) => {
            assert_eq!(rec.id, 1000);
            assert_eq!(rec.path, "src/app.rs");
            assert_eq!(rec.line, 9);
            assert!(!rec.resolved);
            assert_eq!(tags.len(), 1);
            assert_eq!(tags[0].error_id, 1000);
        },
        _ => panic!("expected storage"),
    }
    match s.step(ReportEvent::Stored) {
        ReportAction::Done(c) => {
            assert_eq!(c.id, 1000);
            assert_eq!(c.namespace_id, 5);
            assert_eq!(c.user_affected, "carol");
        },
        _ => panic!("expected completion"),
    }
}

#[test]
fn count_below_threshold_does_not_fire() {
    let (mut s, _) = begin(None);
    s.step(ReportEvent::Namespace(Some(5)));
    s.step(ReportEvent::Alerts(vec![alert(3, "email", None, false)], vec!["t".to_string()]));
    s.step(ReportEvent::Subscribers(vec![11, 12]));
    assert!(matches!(s.step(ReportEvent::Counted(1)), ReportAction::RunCheck { .. }));
    match s.step(ReportEvent::Counted(0)) {
        ReportAction::MarkTriggered(ids) => assert!(ids.is_empty()),
        _ => panic!("expected marking"),
    }
}

#[test]
fn unknown_alert_method_fails() {
    let (mut s, _) = begin(None);
    s.step(ReportEvent::Namespace(Some(5)));
    s.step(ReportEvent::Alerts(vec![alert(3, "sms", None, false)], vec!["t".to_string()]));
    let a = s.step(ReportEvent::Subscribers(vec![11]));
    assert!(matches!(a, ReportAction::Fail(ServerError::QueryError(QueryError::AlertTypeNotFound))));
}

#[test]
fn alert_without_subscribers_is_skipped() {
    let (mut s, _) = begin(None);
    s.step(ReportEvent::Namespace(Some(5)));
    s.step(ReportEvent::Alerts(vec![alert(3, "sms", None, false)], vec!["t".to_string()]));
    assert!(matches!(s.step(ReportEvent::Subscribers(vec![])), ReportAction::MarkTriggered(_)));
}

#[test]
fn missing_subscriber_fails() {
    let (mut s, _) = begin(None);
    s.step(ReportEvent::Namespace(Some(5)));
    s.step(ReportEvent::Alerts(vec![alert(3, "email", None, false)], vec!["t".to_string()]));
    s.step(ReportEvent::Subscribers(vec![11]));
    s.step(ReportEvent::Counted(5));
    let a = s.step(ReportEvent::User(None, 1));
    assert!(matches!(a, ReportAction::Fail(ServerError::QueryError(QueryError::UserNotFound))));
}

#[test]
fn discord_alert_posts_to_its_channel() {
    let (mut s, _) = begin(None);
    s.step(ReportEvent::Namespace(Some(5)));
    s.step(ReportEvent::Alerts(vec![alert(3, "discord", None, false)], vec!["2024-01-01 00:00:00 UTC".to_string()]));
    s.step(ReportEvent::Subscribers(vec![11]));
    s.step(ReportEvent::Counted(5));
    s.step(ReportEvent::User(Some(UserContact { id: 11, email: "e".to_string() }), 1));
    match s.step(ReportEvent::Notified) {
        ReportAction::SendDiscord { channel, text } => {
            assert_eq!(channel, 42);
            assert!(text.ends_with(" at 2024-01-01 00:00:00 UTC."));
        },
        _ => panic!("expected a Discord post"),
    }
}

#[test]
fn discord_alert_without_readable_channel_fails() {
    let (mut s, _) = begin(None);
    s.step(ReportEvent::Namespace(Some(5)));
    let mut a = alert(3, "discord", None, false);
    a.discord_channel_id = Some("general".to_string());
    s.step(ReportEvent::Alerts(vec![a], vec!["t".to_string()]));
    s.step(ReportEvent::Subscribers(vec![11]));
    s.step(ReportEvent::Counted(5));
    s.step(ReportEvent::User(Some(UserContact { id: 11, email: "e".to_string() }), 1));
    let r = s.step(ReportEvent::Notified);
    assert!(matches!(r, ReportAction::Fail(ServerError::QueryError(QueryError::DiscordChannelNotFound))));
}

fn thresholds(mut a: AlertRecord, count: Option<i32>, unresolved: Option<i64>, rate: Option<(i32, i64)>) -> AlertRecord {
    a.count_threshold = count;
    a.time_window = count.map(|_| 120_000);
    a.unresolved_time_threshold = unresolved;
    a.rate_threshold = rate.map(|r| r.0);
    a.rate_time_window = rate.map(|r| r.1);
    a
}

#[test]
fn alert_without_count_threshold_is_not_checked() {
    let (mut s, _) = begin(None);
    s.step(ReportEvent::Namespace(Some(5)));
    let a = thresholds(alert(3, "email", None, false), None, Some(60_000), None);
    s.step(ReportEvent::Alerts(vec![a], vec!["t".to_string()]));
    match s.step(ReportEvent::Subscribers(vec![11])) {
        ReportAction::MarkTriggered(ids) => assert!(ids.is_empty()),
        _ => panic!("expected marking"),
    }
}

#[test]
fn unresolved_check_follows_a_count_that_did_not_fire() {
    let (mut s, _) = begin(None);
    s.step(ReportEvent::Namespace(Some(5)));
    let a = thresholds(alert(3, "email", None, false), Some(4), Some(60_000), Some((1, 60_000)));
    s.step(ReportEvent::Alerts(vec![a], vec!["t".to_string()]));
    match s.step(ReportEvent::Subscribers(vec![11])) {
        ReportAction::RunCheck { check: AlertCheck::Count { threshold: 4, .. }, .. } => {},
        _ => panic!("expected the count check"),
    }
    match s.step(ReportEvent::Counted(2)) {
        ReportAction::RunCheck { check: AlertCheck::Unresolved { window_start: 540_000 }, .. } => {},
        _ => panic!("expected the unresolved check"),
    }
    assert!(matches!(s.step(ReportEvent::Unresolved(vec![9])), ReportAction::FindUser(11)));
}

#[test]
fn rate_check_follows_when_no_unresolved_threshold() {
    let (mut s, _) = begin(None);
    s.step(ReportEvent::Namespace(Some(5)));
    let a = thresholds(alert(3, "email", None, false), Some(4), None, Some((1, 60_000)));
    s.step(ReportEvent::Alerts(vec![a], vec!["t".to_string()]));
    s.step(ReportEvent::Subscribers(vec![11, 12]));
    match s.step(ReportEvent::Counted(0)) {
        ReportAction::RunCheck { check: AlertCheck::Rate { threshold: 1, time_window: 60_000, .. }, .. } => {},
        _ => panic!("expected the rate check"),
    }
    // the next subscriber starts again from the count check
    match s.step(ReportEvent::Rated(false, "0".to_string())) {
        ReportAction::RunCheck { check: AlertCheck::Count { .. }, .. } => {},
        _ => panic!("expected the next subscriber's count check"),
    }
}
