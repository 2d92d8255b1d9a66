use higuard::config::Config;
use higuard::errors::{ExternalError, QueryError, RequestError, ServerError};
use higuard::parse::{parse_stack_trace, StackTraceInfo};
use higuard::query::create_query;
use higuard::role::{get_perms, get_weight, has_permission, initialize_role_rules, string_to_role, Permission, Role};
use higuard::text::{str_eq, trim_chars};
use higuard::uuid_text::uuid_text;

fn config() -> Config {
    Config {
        environment: "test".to_string(),
        secret_key: "SECRET-REDACTED".to_string(),
        hash_cost: "4".to_string(),
        jwt_issuer: "higuard".to_string(),
        jwt_audience: "dashboard".to_string(),
        api_port: 8080,
        db_user: "admin".to_string(),
        db_pass: "pw".to_string(),
        db_name: "errors".to_string(),
        db_host: "localhost".to_string(),
        db_port: 5432,
        domain: "https://higuard.dev".to_string(),
        gmail_email: "root@higuard.dev".to_string(),
        gmail_token_pass: "token".to_string(),
    }
}

#[test]
fn db_url_is_assembled_from_settings() {
    assert_eq!(config().build_db_url(), "postgresql://admin:pw@localhost:5432/errors");
}

#[test]
fn query_with_every_clause() {
    let q = create_query("*", "errors", Some("id = 1"), Some("created_at"), Some("message"));
    assert_eq!(q, "SELECT * FROM errors WHERE id = 1ORDER BY created_atGROUP BY message");
}

#[test]
fn query_without_clauses() {
    assert_eq!(create_query("count(*)", "tags", None, None, None), "SELECT count(*) FROM tags ");
}

#[test]
fn stack_trace_is_parsed() {
    let trace = "TypeError: value is undefined\n    at src/app.js:42 handler api\n    at src/main.js:7 main".to_string();
    let info = parse_stack_trace(&trace).unwrap();
    assert_eq!(info.error_type, "TypeError");
    assert_eq!(info.error_message, "value is undefined");
    assert_eq!(info.file_path, "src/main.js");
    assert_eq!(info.line_number, 7);
    assert_eq!(info.function_name, "main");
    assert_eq!(info.module_name, "api");
    assert_eq!(info.stack_trace_lines.len(), 2);
    assert_eq!(info.stack_trace_lines[0], "    at src/app.js:42 handler api");
}

#[test]
fn stack_trace_without_type_is_all_message() {
    let info = parse_stack_trace(&"something broke".to_string()).unwrap();
    assert_eq!(info.error_type, "");
    assert_eq!(info.error_message, "something broke");
    assert_eq!(info.line_number, 0);
}

#[test]
fn empty_stack_trace_is_refused() {
    assert_eq!(parse_stack_trace(&String::new()).unwrap_err(), "Stack trace is empty");
}

#[test]
fn stack_trace_info_constructors() {
    let d = StackTraceInfo::default();
    assert_eq!(d.line_number, 0);
    assert!(d.file_path.is_empty() && d.stack_trace_lines.is_empty());
    let n = StackTraceInfo::new("E".to_string(), "m".to_string(), "f".to_string(), 3, "g".to_string(), "h".to_string(), vec!["x".to_string()]);
    assert_eq!(n.line_number, 3);
    assert_eq!(n.module_name, "h");
}

#[test]
fn standard_roles_and_weights() {
    let rules = initialize_role_rules();
    assert_eq!(string_to_role("owner"), Some(Role::Owner));
    assert_eq!(string_to_role("Owner"), None);
    assert_eq!(get_weight(&Role::Guest, &rules), Some(0));
    assert_eq!(get_weight(&Role::Owner, &rules), Some(4));
    let manager = get_perms("manager", &rules).unwrap();
    assert!(has_permission(manager, Permission::Update));
    assert!(!has_permission(manager, Permission::Invite));
    assert!(get_perms("admin", &rules).is_none());
}

#[test]
fn weights_increase_with_rank() {
    let rules = initialize_role_rules();
    let order = [Role::Guest, Role::Member, Role::Contributor, Role::Manager, Role::Owner];
    for w in order.windows(2) {
        assert!(get_weight(&w[0], &rules).unwrap() < get_weight(&w[1], &rules).unwrap());
    }
}

#[test]
fn higher_roles_keep_lower_permissions() {
    let rules = initialize_role_rules();
    let names = ["guest", "member", "contributor", "manager", "owner"];
    let all = [Permission::View, Permission::Comment, Permission::AddAlert, Permission::Delete, Permission::Invite, Permission::RemoveUser, Permission::Update];
    for i in 0..names.len() {
        for j in i..names.len() {
            for p in all.iter() {
                if has_permission(get_perms(names[i], &rules).unwrap(), *p) {
                    assert!(has_permission(get_perms(names[j], &rules).unwrap(), *p));
                }
            }
        }
    }
}

#[test]
fn error_messages_and_statuses() {
    let e = ServerError::QueryError(QueryError::UserNotFound);
    assert_eq!(e.message(), "Query error: User not found");
    assert_eq!(e.status_code(), 404);
    assert_eq!(ServerError::QueryError(QueryError::UserExists).status_code(), 409);
    assert_eq!(ServerError::QueryError(QueryError::InvalidTag).status_code(), 400);
    assert_eq!(ServerError::RequestError(RequestError::RateLimitExceeded).status_code(), 400);
    assert_eq!(ServerError::HttpError(401, "no".to_string()).status_code(), 401);
    assert_eq!(ServerError::HttpError(401, "no".to_string()).message(), "HTTP error: 401 Unauthorized - no");
    let x = ServerError::ExternalError(ExternalError::DB("down".to_string()));
    assert_eq!(x.status_code(), 500);
    assert_eq!(x.message(), "External error: Database error: down");
    assert_eq!(ServerError::from(RequestError::InvalidToken).message(), "Request error: Invalid token");
}

#[test]
fn uuid_text_is_hyphenated_lowercase() {
    assert_eq!(uuid_text(0), "00000000-0000-0000-0000-000000000000");
    assert_eq!(uuid_text(0x0123456789abcdef0123456789abcdef), "01234567-89ab-cdef-0123-456789abcdef");
}

#[test]
fn trimming_and_string_equality() {
    let t: Vec<char> = " \t key \n".chars().collect();
    assert_eq!(trim_chars(&t).into_iter().collect::<String>(), "key");
    assert!(str_eq("abc", "abc"));
    assert!(!str_eq("abc", "abd"));
}
