use higuard::alerts::{
    alert_check, apply_alert_update, follow_up_check, check_alert_found, check_alert_subscription, check_alert_unsubscription,
    new_alert_record, should_fire, AlertCheck, AlertUpdate, CheckAnswer, NewAlert,
};
use higuard::config::Config;
use higuard::errors::{QueryError, RequestError, ServerError};
use higuard::issues::{apply_error_update, check_bug_report_found, check_error_found, check_feature_request_found, check_tag_found, new_tag_records};
use higuard::aggregate::ErrorRecord;
use higuard::mailing::{render_email_page, sms_address, sms_gateway, EmailContent};
use higuard::namespace::{
    apply_namespace_update, check_client, check_delete_namespace, check_membership_found, check_namespace_limit,
    check_remover_is_member, check_role_grant, check_update_permission, check_user_namespace_perms,
    compare_user_namespace_perms, creator_role, member_role, namespace_created_text, namespace_deleted_text,
    namespace_details, new_namespace_record, role_for_namespace, sdk_credentials, Membership, NamespaceRecord,
    UpdateNamespace,
};
use higuard::notifications::{mark_read, notifications_to_prune, NotificationRecord};
use higuard::rate_limit::{DynamicStripedRateLimiter, RateLimiterMiddleware};
use higuard::role::{initialize_role_rules, Permission};
use higuard::sessions::SessionRegistry;

fn ns() -> NamespaceRecord {
    new_namespace_record(1, "api".to_string(), "prod".to_string(), 2, 0x11, 100)
}

fn config(cost: &str) -> Config {
    Config {
        environment: "t".to_string(),
        secret_key: "SECRET-REDACTED".to_string(),
        hash_cost: cost.to_string(),
        jwt_issuer: "i".to_string(),
        jwt_audience: "a".to_string(),
        api_port: 1,
        db_user: "u".to_string(),
        db_pass: "p".to_string(),
        db_name: "n".to_string(),
        db_host: "h".to_string(),
        db_port: 1,
        domain: "d".to_string(),
        gmail_email: "g".to_string(),
        gmail_token_pass: "t".to_string(),
    }
}

#[test]
fn limiter_refuses_after_maximum_and_restarts_window() {
    let mut l = DynamicStripedRateLimiter::new(4, 60, 2, 30);
    assert!(l.check_rate_limit("1.1.1.1", 0));
    assert!(l.check_rate_limit("1.1.1.1", 10));
    assert!(!l.check_rate_limit("1.1.1.1", 20));
    assert!(l.check_rate_limit("2.2.2.2", 20));
    assert!(l.check_rate_limit("1.1.1.1", 100));
    assert_eq!(l.cleanup_interval(), 30);
    l.cleanup_expired_entries(1000);
    assert!(l.check_rate_limit("2.2.2.2", 1000));
}

#[test]
fn middleware_counts_unknown_addresses_together() {
    let mut m = RateLimiterMiddleware::new(DynamicStripedRateLimiter::new(2, 60, 1, 30));
    assert!(m.let_through(None, 0).is_ok());
    assert!(matches!(m.let_through(Some("unknown"), 1), Err(ServerError::RequestError(RequestError::RateLimitExceeded))));
    assert!(m.let_through(Some("9.9.9.9"), 1).is_ok());
}

#[test]
fn sessions_subscribe_and_unsubscribe() {
    let mut r = SessionRegistry::new();
    r.subscribe(5, 1);
    r.subscribe(5, 2);
    r.subscribe(6, 3);
    assert_eq!(r.targets(5), vec![1, 2]);
    r.unsubscribe(5, 1);
    assert_eq!(r.targets(5), vec![2]);
    r.unsubscribe(5, 2);
    assert!(r.targets(5).is_empty());
    assert_eq!(r.targets(6), vec![3]);
    r.unsubscribe(7, 3);
    assert_eq!(r.targets(6), vec![3]);
}

#[test]
fn subscribe_then_unsubscribe_restores_registry() {
    let mut r = SessionRegistry::new();
    r.subscribe(5, 1);
    r.subscribe(5, 9);
    r.unsubscribe(5, 9);
    assert_eq!(r.targets(5), vec![1]);
}

fn note(id: u128, created: i64) -> NotificationRecord {
    NotificationRecord { id, user_id: 1, title: "t".to_string(), text: "x".to_string(), source: "s".to_string(), is_read: false, created_at: created }
}

#[test]
fn pruning_keeps_ten_newest() {
    let notes: Vec<NotificationRecord> = (0..12).map(|i| note(i as u128, i as i64)).collect();
    assert_eq!(notifications_to_prune(&notes), vec![1, 0]);
    let few: Vec<NotificationRecord> = (0..3).map(|i| note(i as u128, i as i64)).collect();
    assert!(notifications_to_prune(&few).is_empty());
    assert!(mark_read(note(1, 1)).is_read);
}

#[test]
fn alert_records_and_updates() {
    let a = new_alert_record(
        NewAlert {
            namespace_id: 3,
            alert_method: "email".to_string(),
            discord_channel_id: None,
            path: None,
            line: Some(4),
            message: None,
            stack_trace: None,
            count_threshold: None,
            time_window: None,
            unresolved_time_threshold: Some(60_000),
            rate_threshold: None,
            rate_time_window: None,
        },
        8,
        50,
    );
    assert!(!a.triggered);
    assert_eq!(a.created_at, 50);
    // without a count threshold the alert is not checked; its unresolved
    // threshold only follows a count check that did not fire
    assert!(matches!(alert_check(&a, 1_000_000), AlertCheck::Nothing));
    assert!(matches!(follow_up_check(&a, 1_000_000), AlertCheck::Unresolved { window_start: 940_000 }));
    let upd = AlertUpdate {
        alert_method: Some("discord".to_string()),
        path: Some("p".to_string()),
        line: None,
        message: None,
        stack_trace: None,
        count_threshold: None,
        time_window: None,
        unresolved_time_threshold: None,
        rate_threshold: None,
        rate_time_window: None,
    };
    let b = apply_alert_update(a, upd, 99);
    assert_eq!(b.alert_method, "discord");
    assert_eq!(b.path.as_deref(), Some("p"));
    assert_eq!(b.line, Some(4));
    assert_eq!(b.updated_at, 99);
    assert!(should_fire(AlertCheck::Count { window_start: 0, threshold: 3 }, CheckAnswer::Count(4)));
    assert!(!should_fire(AlertCheck::Count { window_start: 0, threshold: 3 }, CheckAnswer::Count(3)));
    assert!(should_fire(AlertCheck::Unresolved { window_start: 0 }, CheckAnswer::Unresolved(1)));
}

#[test]
fn alert_subscription_rules() {
    assert!(matches!(check_alert_subscription(false, false), Err(ServerError::QueryError(QueryError::UserNotNamespaceMember))));
    assert!(matches!(check_alert_subscription(true, true), Err(ServerError::QueryError(QueryError::UserAlreadySubscribed))));
    assert!(check_alert_subscription(true, false).is_ok());
    assert!(matches!(check_alert_unsubscription(false), Err(ServerError::QueryError(QueryError::UserNotFound))));
    assert!(matches!(check_alert_found(false), Err(ServerError::QueryError(QueryError::NamespaceAlertNotFound))));
}

#[test]
fn namespace_permissions() {
    let rules = initialize_role_rules();
    let owner = "owner".to_string();
    let guest = "guest".to_string();
    assert!(check_user_namespace_perms(Some(&owner), &rules, Permission::Invite).unwrap());
    assert!(matches!(check_user_namespace_perms(Some(&guest), &rules, Permission::Delete), Err(ServerError::RequestError(RequestError::PermissionDenied))));
    assert!(matches!(check_user_namespace_perms(None, &rules, Permission::View), Err(ServerError::QueryError(QueryError::UserNamespaceJunctionNotFound))));
    assert!(compare_user_namespace_perms(Some(&owner), Some(&guest), &rules).unwrap());
    assert!(matches!(compare_user_namespace_perms(Some(&guest), Some(&owner), &rules), Err(ServerError::RequestError(RequestError::PermissionDenied))));
    assert!(check_role_grant(&owner, &"manager".to_string(), &rules).is_ok());
    assert!(matches!(check_role_grant(&guest, &"manager".to_string(), &rules), Err(ServerError::RequestError(RequestError::PermissionDenied))));
    assert!(matches!(check_role_grant(&owner, &"boss".to_string(), &rules), Err(ServerError::QueryError(QueryError::InvalidRole))));
    assert!(check_update_permission(Some(&"manager".to_string()), &rules).is_ok());
    assert!(matches!(check_update_permission(Some(&"member".to_string()), &rules), Err(ServerError::RequestError(RequestError::PermissionDenied))));
}

#[test]
fn update_permission_with_a_role_missing_from_the_table() {
    let mut rules = initialize_role_rules();
    rules.role_rules.retain(|(r, _)| *r != higuard::role::Role::Manager);
    assert!(matches!(check_update_permission(Some(&"manager".to_string()), &rules), Err(ServerError::RequestError(RequestError::PermissionDenied))));
    assert!(check_update_permission(Some(&"owner".to_string()), &rules).is_ok());
}

#[test]
fn namespace_lifecycle_rules() {
    assert!(check_namespace_limit(9).is_ok());
    assert!(matches!(check_namespace_limit(10), Err(ServerError::RequestError(RequestError::NamespaceLimitReached))));
    assert_eq!(creator_role(), "owner");
    assert!(namespace_created_text(&"api".to_string()).starts_with("You have created a new namespace: api."));
    assert_eq!(namespace_deleted_text(&"api".to_string()), "The namespace api has been deleted. You will no longer receive alerts for this namespace.");
    assert!(check_delete_namespace(Some(4), true, 4).is_ok());
    assert!(matches!(check_delete_namespace(None, true, 4), Err(ServerError::QueryError(QueryError::UserNamespaceJunctionNotFound))));
    assert!(matches!(check_delete_namespace(Some(4), false, 4), Err(ServerError::QueryError(QueryError::NamespaceNotFound))));
    assert!(matches!(check_delete_namespace(Some(5), true, 4), Err(ServerError::RequestError(RequestError::PermissionDenied))));
    assert!(matches!(check_remover_is_member(false), Err(ServerError::RequestError(RequestError::PermissionDenied))));
    assert!(matches!(check_membership_found(false), Err(ServerError::QueryError(QueryError::UserNamespaceJunctionNotFound))));
    let upd = UpdateNamespace { id: 1, active: Some(false), service_name: None, environment_type: Some("dev".to_string()), client_id: None, client_secret: Some(true) };
    let n = apply_namespace_update(ns(), upd, 0x22, 300);
    assert!(!n.active);
    assert_eq!(n.environment_type, "dev");
    assert_eq!(n.client_secret, 0x22);
    assert_eq!(n.updated_at, 300);
}

#[test]
fn membership_roles() {
    let ms = vec![
        Membership { user_id: 1, namespace_id: 10, role: "owner".to_string() },
        Membership { user_id: 2, namespace_id: 10, role: "guest".to_string() },
        Membership { user_id: 1, namespace_id: 11, role: "member".to_string() },
    ];
    assert_eq!(role_for_namespace(&ms, 11).as_deref(), Some("member"));
    assert_eq!(role_for_namespace(&ms, 12), None);
    assert_eq!(member_role(&ms, 1), "member");
    assert_eq!(member_role(&ms, 3), "unknown");
}

#[test]
fn sdk_credentials_and_client_check() {
    let id = "00000000-0000-0000-0000-000000000002";
    let (cid, secret) = sdk_credentials(Some(id), Some("s")).unwrap();
    assert_eq!(cid, 2);
    assert_eq!(secret, "s");
    assert!(matches!(sdk_credentials(Some("not-a-uuid"), Some("s")), Err(ServerError::HttpError(401, ref t)) if t == "Invalid client_id format"));
    assert!(matches!(sdk_credentials(None, Some("s")), Err(ServerError::HttpError(401, ref t)) if t == "Missing client_id or client_secret header"));
    let n = ns();
    assert!(check_client(Some(&n), &"00000000-0000-0000-0000-000000000011".to_string()).is_ok());
    assert!(matches!(check_client(Some(&n), &"wrong".to_string()), Err(ServerError::HttpError(401, _))));
    assert!(check_client(None, &"x".to_string()).is_err());
}

#[test]
fn namespace_details_hide_secret() {
    let n = ns();
    let d = namespace_details(Some(&n), &config("4")).unwrap();
    assert_eq!(d.client_id, 2);
    assert!(d.client_secret_hash.starts_with("$2b$04$"));
    assert!(matches!(namespace_details(None, &config("4")), Err(ServerError::QueryError(QueryError::NamespaceNotFound))));
}

#[test]
fn mail_page_and_sms() {
    let page = render_email_page(&EmailContent {
        greeting: "Hi".to_string(),
        main_message: "M".to_string(),
        body: "B".to_string(),
        dynamic_content: Some("a\nb".to_string()),
    });
    assert!(page.contains("<h1 style=\"color: #333333;\">Hi</h1>"));
    assert!(page.contains("a<br>b"));
    assert_eq!(sms_gateway("Verizon"), Some("@vtext.com"));
    assert_eq!(sms_gateway("Nope"), None);
    assert_eq!(sms_address("5551234", "AT&T"), "5551234@txt.att.net");
}

#[test]
fn issue_records() {
    assert!(matches!(check_error_found(false), Err(ServerError::QueryError(QueryError::ErrorNotFound))));
    assert!(matches!(check_feature_request_found(false), Err(ServerError::QueryError(QueryError::FeatureRequestNotFound))));
    assert!(matches!(check_bug_report_found(false), Err(ServerError::QueryError(QueryError::NotFound))));
    assert!(matches!(check_tag_found(false), Err(ServerError::QueryError(QueryError::InvalidTag))));
    let e = ErrorRecord {
        id: 1, user_affected: "u".to_string(), path: "p".to_string(), line: 1, message: "m".to_string(),
        stack_trace: "s".to_string(), resolved: false, namespace_id: 2, created_at: 3, updated_at: 3,
    };
    let u = apply_error_update(e.clone(), Some(true), 9);
    assert!(u.resolved);
    assert_eq!(u.updated_at, 9);
    assert!(!apply_error_update(e, None, 9).resolved);
    let tags = new_tag_records(vec![("k".to_string(), "v".to_string(), "c".to_string())], &vec![42], 1);
    assert_eq!(tags[0].id, 42);
    assert_eq!(tags[0].error_id, 1);
}

#[test]
fn one_window_admits_at_most_the_maximum() {
    let mut l = DynamicStripedRateLimiter::new(1, 60, 3, 30);
    let passed = (0..10).filter(|i| l.check_rate_limit("9.9.9.9", *i * 5)).count();
    assert_eq!(passed, 3);
}

#[test]
fn other_addresses_and_cleanup_do_not_change_answers() {
    let times = [0u64, 10, 20, 30, 70, 80, 200];
    let mut alone = DynamicStripedRateLimiter::new(1, 60, 2, 30);
    let a: Vec<bool> = times.iter().map(|t| alone.check_rate_limit("1.1.1.1", *t)).collect();
    let mut mixed = DynamicStripedRateLimiter::new(1, 60, 2, 30);
    let mut b = Vec::new();
    for t in times {
        mixed.check_rate_limit("2.2.2.2", t);
        mixed.cleanup_expired_entries(t);
        b.push(mixed.check_rate_limit("1.1.1.1", t));
        mixed.check_rate_limit("3.3.3.3", t);
    }
    assert_eq!(a, b);
    assert_eq!(a, vec![true, true, false, false, true, true, true]);
}
