use higuard::accounts::{
    check_account_password, check_admin_role, check_login, check_user_verification, google_user_records,
    hash_cost, login_response, refresh_cookie, refreshed_login, register, short_profile, short_user,
    token_owner, token_to_revoke, update_user_profile, verify_account, ProfileRecord, ProfileUpdate,
    RefreshTokenRecord, UserRecord,
};
use higuard::config::Config;
use higuard::errors::{ExternalError, QueryError, RequestError, ServerError};

fn config(cost: &str) -> Config {
    Config {
        environment: "test".to_string(),
        secret_key: "SECRET-REDACTED".to_string(),
        hash_cost: cost.to_string(),
        jwt_issuer: "higuard".to_string(),
        jwt_audience: "dashboard".to_string(),
        api_port: 8080,
        db_user: "u".to_string(),
        db_pass: "p".to_string(),
        db_name: "n".to_string(),
        db_host: "h".to_string(),
        db_port: 1,
        domain: "https://higuard.dev".to_string(),
        gmail_email: "root@higuard.dev".to_string(),
        gmail_token_pass: "t".to_string(),
    }
}

fn profile(user_id: u128) -> ProfileRecord {
    ProfileRecord {
        id: 2,
        user_id,
        first_name: Some("Ada".to_string()),
        last_name: None,
        avatar_color: "#098585".to_string(),
        role: "user".to_string(),
        created_at: 5,
        updated_at: 5,
    }
}

#[test]
fn hash_cost_reads_setting_or_defaults() {
    assert_eq!(hash_cost("4"), 4);
    assert_eq!(hash_cost("+10"), 10);
    assert_eq!(hash_cost("fast"), 12);
    assert_eq!(hash_cost("99999999999"), 12);
}

#[test]
fn registered_password_logs_in() {
    let reg = register("ada".to_string(), "ada@x".to_string(), "s3cret", &config("4"), 10, 20, 99).unwrap();
    assert_eq!(reg.user.id, 10);
    assert_eq!(reg.user.o_auth_provider, "Custom");
    assert!(!reg.user.verified);
    assert_eq!(reg.profile.role, "user");
    assert_eq!(reg.profile.avatar_color, "#098585");
    assert_eq!(reg.welcome.greeting, "Welcome");
    assert_eq!(reg.welcome.dynamic_content.as_deref(), Some("Your ID is: 00000000-0000-0000-0000-00000000000a"));
    assert!(reg.user.password.as_deref().unwrap().starts_with("$2b$04$"));
    assert_eq!(reg.user.password.as_deref().unwrap().len(), 60);
    let at_five = register("bo".to_string(), "bo@x".to_string(), "pw", &config("5"), 11, 21, 99).unwrap();
    assert!(at_five.user.password.as_deref().unwrap().starts_with("$2b$05$"));
    assert!(check_login(Some(&reg.user), "s3cret").is_ok());
    assert!(matches!(check_login(Some(&reg.user), "wrong"), Err(ServerError::QueryError(QueryError::PasswordIncorrect))));
}

#[test]
fn administrator_address_registers_as_admin() {
    let reg = register("root".to_string(), "root@higuard.dev".to_string(), "pw", &config("4"), 1, 2, 3).unwrap();
    assert_eq!(reg.profile.role, "admin");
}

#[test]
fn cost_outside_bcrypt_range_fails_registration() {
    let r = register("a".to_string(), "a@x".to_string(), "pw", &config("3"), 1, 2, 3);
    assert!(matches!(r, Err(ServerError::ExternalError(ExternalError::Bcrypt(_)))));
}

#[test]
fn login_refusals() {
    assert!(matches!(check_login(None, "x"), Err(ServerError::QueryError(QueryError::UserNotFound))));
    let (google, _) = google_user_records(&"G".to_string(), &"H".to_string(), &"g@x".to_string(), 1, 2, 3);
    assert!(matches!(check_login(Some(&google), "x"), Err(ServerError::QueryError(QueryError::OAuthTypeError))));
    let mut custom = google.clone();
    custom.o_auth_provider = "Custom".to_string();
    assert!(matches!(check_login(Some(&custom), "x"), Err(ServerError::QueryError(QueryError::PasswordNotFound))));
    custom.password = Some("not a hash".to_string());
    assert!(matches!(check_login(Some(&custom), "x"), Err(ServerError::ExternalError(ExternalError::Bcrypt(_)))));
}

#[test]
fn account_password_check() {
    assert!(matches!(check_account_password(None, "x"), Err(ServerError::QueryError(QueryError::UserNotFound))));
    let (g, _) = google_user_records(&"G".to_string(), &"H".to_string(), &"g@x".to_string(), 1, 2, 3);
    assert!(matches!(check_account_password(Some(&g), "x"), Err(ServerError::QueryError(QueryError::PasswordNotSet))));
}

#[test]
fn google_records() {
    let (u, p) = google_user_records(&"Grace".to_string(), &"Hopper".to_string(), &"g@x".to_string(), 1, 2, 3);
    assert_eq!(u.username, "g@x");
    assert_eq!(u.o_auth_provider, "Google");
    assert!(u.password.is_none());
    assert_eq!(p.first_name.as_deref(), Some("Grace"));
    assert_eq!(p.role, "User");
}

#[test]
fn login_response_needs_profile() {
    let (u, _) = google_user_records(&"G".to_string(), &"H".to_string(), &"g@x".to_string(), 1, 2, 3);
    assert!(matches!(login_response(&u, None, 9), Err(ServerError::QueryError(QueryError::UserProfileNotFound))));
    let v = login_response(&u, Some(&profile(1)), 9).unwrap();
    assert_eq!(v.profile.updated_at, 9);
    assert_eq!(v.user.email, "g@x");
    assert!(matches!(refreshed_login(None, Some(&profile(1)), 9), Err(ServerError::QueryError(QueryError::UserNotFound))));
}

#[test]
fn token_refresh_steps() {
    assert!(matches!(token_to_revoke(None), Err(ServerError::RequestError(RequestError::InvalidToken))));
    let t = RefreshTokenRecord {
        id: 1,
        user_id: None,
        token: "tok".to_string(),
        issued_at: 1,
        expires_at: 2,
        issuer: "i".to_string(),
        audience: "a".to_string(),
        revoked: false,
    };
    let revoked = token_to_revoke(Some(t)).unwrap();
    assert!(revoked.revoked);
    assert!(matches!(token_owner(&revoked), Err(ServerError::RequestError(RequestError::MissingUserID))));
    let mut owned = revoked.clone();
    owned.user_id = Some(4);
    assert_eq!(token_owner(&owned).unwrap(), 4);
}

#[test]
fn user_lookups() {
    assert!(matches!(short_user(None), Err(ServerError::QueryError(QueryError::UserNotFound))));
    assert!(matches!(short_profile(None), Err(ServerError::QueryError(QueryError::UserNotFound))));
    assert_eq!(short_profile(Some(&profile(1))).unwrap().first_name.as_deref(), Some("Ada"));
    let (mut u, _) = google_user_records(&"G".to_string(), &"H".to_string(), &"g@x".to_string(), 1, 2, 3);
    assert!(matches!(check_user_verification(Some(&u)), Err(ServerError::QueryError(QueryError::UserNotVerified))));
    u.verified = true;
    assert_eq!(check_user_verification(Some(&u)).unwrap(), true);
}

#[test]
fn verifying_account_sets_flag() {
    let (u, _) = google_user_records(&"G".to_string(), &"H".to_string(), &"g@x".to_string(), 1, 2, 3);
    let v = verify_account(Some(u), &config("4"), 50).unwrap();
    assert!(v.verified);
    assert_eq!(v.updated_at, 50);
    assert!(v.password.is_some());
    assert!(matches!(verify_account(None, &config("4"), 1), Err(ServerError::QueryError(QueryError::UserNotFound))));
}

#[test]
fn profile_update_applies_non_empty_fields() {
    let (u, _) = google_user_records(&"G".to_string(), &"H".to_string(), &"g@x".to_string(), 1, 2, 3);
    let upd = ProfileUpdate {
        first_name: Some(String::new()),
        last_name: Some("Lovelace".to_string()),
        avatar_color: None,
        username: Some("ada".to_string()),
        password: Some("newpw".to_string()),
    };
    let (nu, np) = update_user_profile(Some(profile(1)), Some(u), &upd, &config("4"), 77).unwrap();
    assert_eq!(np.first_name.as_deref(), Some("Ada"));
    assert_eq!(np.last_name.as_deref(), Some("Lovelace"));
    assert_eq!(np.updated_at, 77);
    assert_eq!(nu.username, "ada");
    assert_eq!(nu.updated_at, 77);
    let mut c = nu.clone();
    c.o_auth_provider = "Custom".to_string();
    assert!(check_login(Some(&c), "newpw").is_ok());
}

#[test]
fn empty_profile_update_changes_nothing() {
    let (u, _): (UserRecord, ProfileRecord) = google_user_records(&"G".to_string(), &"H".to_string(), &"g@x".to_string(), 1, 2, 3);
    let upd = ProfileUpdate { first_name: None, last_name: Some(String::new()), avatar_color: None, username: None, password: None };
    let (nu, np) = update_user_profile(Some(profile(1)), Some(u.clone()), &upd, &config("4"), 77).unwrap();
    assert_eq!(np.updated_at, 5);
    assert_eq!(nu.updated_at, u.updated_at);
    assert_eq!(nu.username, u.username);
    assert!(matches!(update_user_profile(None, Some(u), &upd, &config("4"), 1), Err(ServerError::QueryError(QueryError::UserNotFound))));
}

#[test]
fn admin_role_and_refresh_cookie() {
    assert!(check_admin_role("admin").is_ok());
    assert!(matches!(check_admin_role("user"), Err(ServerError::QueryError(QueryError::InvalidRole))));
    let cookies = vec![("accessToken".to_string(), "a".to_string()), ("refreshToken".to_string(), "r".to_string())];
    assert_eq!(refresh_cookie(&cookies).unwrap(), "r");
    assert!(matches!(refresh_cookie(&vec![]), Err(ServerError::RequestError(RequestError::MissingCookie))));
}
