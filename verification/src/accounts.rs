//! Accounts: registration, password checks, logins and token refreshes, and
//! the updates a user makes to an account. Passwords are hashed and checked
//! with bcrypt.
use vstd::prelude::*;
use vstd::string::{StrSliceExecFns, StringExecFns};
use crate::config::Config;
use crate::errors::{ExternalError, QueryError, RequestError, ServerError};
use crate::mailing::{welcome_mail, EmailContent};
use crate::text::{parse_unsigned, spec_parse_unsigned, str_chars};

verus! {

#[verifier::external_type_specification]
#[verifier::external_body]
pub struct ExBcryptError(bcrypt::BcryptError);

/// What `bcrypt::verify` gives for a password and a stored hash: `None` when
/// the hash cannot be read, else whether the password matches it.
pub uninterp spec fn bcrypt_verify_outcome(password: Seq<char>, hash: Seq<char>) -> Option<bool>;

/// `bcrypt::verify(password, hash)`: fails exactly when the hash cannot be
/// read, and otherwise tells whether the password matches; the result depends
/// on the two strings alone.
#[verifier::external_body]
fn bcrypt_verify(password: &str, hash: &str) -> (r: Result<bool, bcrypt::BcryptError>)
    ensures
        match r {
            Ok(b) => bcrypt_verify_outcome(password@, hash@) == Some(b),
            Err(_) => bcrypt_verify_outcome(password@, hash@) is None,
        },
{
    bcrypt::verify(password, hash)
}

/// The two decimal digits of a bcrypt cost below 100, as a hash writes it.
pub open spec fn cost_digits(cost: u32) -> Seq<char> {
    seq![(48 + cost / 10) as char, (48 + cost % 10) as char]
}

/// `h` is a bcrypt hash of version 2b made at `cost`: 60 characters,
/// "$2b$", the cost's two digits, "$", then the salt and the digest.
pub open spec fn hash_made_at_cost(h: Seq<char>, cost: u32) -> bool {
    &&& h.len() == 60
    &&& h.subrange(0, 4) == seq!['$', '2', 'b', '$']
    &&& h.subrange(4, 6) == cost_digits(cost)
    &&& h[6] == '$'
}

/// `bcrypt::hash(password, cost)`: draws a random salt, so its result is not
/// a function of its arguments. It fails when the cost is outside 4..=31 (and
/// when no random salt can be had); a hash it returns verifies against the
/// password it was made from, and writes version 2b and the cost in front of
/// the 22 characters of salt and 31 of digest.
#[verifier::external_body]
pub(crate) fn bcrypt_hash(password: &str, cost: u32) -> (r: Result<String, bcrypt::BcryptError>)
    ensures
        !(4 <= cost <= 31) ==> r is Err,
        r matches Ok(h) ==> bcrypt_verify_outcome(password@, h@) == Some(true) && hash_made_at_cost(h@, cost),
{
    bcrypt::hash(password, cost)
}

/// `BcryptError`'s `Display` text; nothing is stated of it.
#[verifier::external_body]
fn bcrypt_error_text(e: &bcrypt::BcryptError) -> String {
    e.to_string()
}

pub(crate) fn bcrypt_failure(e: bcrypt::BcryptError) -> (r: ServerError)
    ensures
        r matches ServerError::ExternalError(ExternalError::Bcrypt(_)),
{
    ServerError::ExternalError(ExternalError::Bcrypt(bcrypt_error_text(&e)))
}

/// A user account as stored. Ids are UUIDs as 128-bit numbers; times are
/// milliseconds since the Unix epoch; `password` is a bcrypt hash.
#[derive(Debug, Clone)]
pub struct UserRecord {
    pub id: u128,
    pub username: String,
    pub email: String,
    pub password: Option<String>,
    pub verified: bool,
    pub user_profile_id: u128,
    pub o_auth_provider: String,
    pub created_at: i64,
    pub updated_at: i64,
}

/// A user's profile as stored.
#[derive(Debug, Clone)]
pub struct ProfileRecord {
    pub id: u128,
    pub user_id: u128,
    pub first_name: Option<String>,
    pub last_name: Option<String>,
    pub avatar_color: String,
    pub role: String,
    pub created_at: i64,
    pub updated_at: i64,
}

/// A refresh token as stored.
#[derive(Debug, Clone)]
pub struct RefreshTokenRecord {
    pub id: u128,
    pub user_id: Option<u128>,
    pub token: String,
    pub issued_at: i64,
    pub expires_at: i64,
    pub issuer: String,
    pub audience: String,
    pub revoked: bool,
}

/// What a client is told of a user.
#[derive(Debug, Clone)]
pub struct ShortUser {
    pub id: u128,
    pub username: String,
    pub email: String,
}

/// What a client is told of a profile.
#[derive(Debug, Clone)]
pub struct ShortProfile {
    pub first_name: Option<String>,
    pub last_name: Option<String>,
    pub avatar_color: String,
    pub role: String,
    pub updated_at: i64,
}

/// The user and profile a login answers with (the tokens are added by the caller).
#[derive(Debug, Clone)]
pub struct LoginView {
    pub user: ShortUser,
    pub profile: ShortProfile,
}

/// The colour a new profile gets.
pub open spec fn default_avatar() -> Seq<char> {
    "#098585"@
}

/// The bcrypt cost the settings ask for: their `hash_cost` read as a `u32`,
/// or 12 (bcrypt's default) when it does not read as one.
pub open spec fn spec_hash_cost(text: Seq<char>) -> u32 {
    match spec_parse_unsigned(text, u32::MAX as int) {
        Some(v) => v as u32,
        None => 12,
    }
}

pub fn hash_cost(text: &str) -> (r: u32)
    ensures
        r == spec_hash_cost(text@),
{
    let cs = str_chars(text);
    match parse_unsigned(&cs, 0xffff_ffff) {
        Some(v) => v as u32,
        None => 12,
    }
}

fn owned(s: &str) -> (r: String)
    ensures
        r@ == s@,
{
    let mut r = String::new();
    r.append(s);
    r
}

/// The role a new account gets: "admin" for the administrator's address,
/// "user" for any other.
pub open spec fn spec_registration_role(email: Seq<char>, admin_email: Seq<char>) -> Seq<char> {
    if email == admin_email {
        "admin"@
    } else {
        "user"@
    }
}

/// A new account and its profile, as registration stores them.
#[derive(Debug)]
pub struct Registration {
    pub user: UserRecord,
    pub profile: ProfileRecord,
    /// The welcome e-mail to send to the new user.
    pub welcome: EmailContent,
}

/// The stored records of a registration with password hash `hash`.
pub open spec fn registration_ok(
    reg: Registration,
    user_name: Seq<char>,
    user_email: Seq<char>,
    hash: Seq<char>,
    admin_email: Seq<char>,
    user_id: u128,
    profile_id: u128,
    now: i64,
) -> bool {
    &&& reg.user.id == user_id
    &&& reg.user.username@ == user_name
    &&& reg.user.email@ == user_email
    &&& reg.user.password matches Some(h) && h@ == hash
    &&& reg.user.o_auth_provider@ == "Custom"@
    &&& !reg.user.verified
    &&& reg.user.user_profile_id == profile_id
    &&& reg.user.created_at == now && reg.user.updated_at == now
    &&& reg.profile.id == profile_id
    &&& reg.profile.user_id == user_id
    &&& reg.profile.first_name is None && reg.profile.last_name is None
    &&& reg.profile.avatar_color@ == default_avatar()
    &&& reg.profile.role@ == spec_registration_role(user_email, admin_email)
    &&& reg.profile.created_at == now && reg.profile.updated_at == now
}

/// Registers an account: hashes the password at the configured cost, gives
/// the administrator's address the "admin" role and any other "user", and
/// prepares the welcome e-mail. Fails with a bcrypt error when hashing does
/// (always when the cost is outside 4..=31).
pub fn register(
    user_name: String,
    user_email: String,
    user_pass: &str,
    config: &Config,
    user_id: u128,
    profile_id: u128,
    now: i64,
) -> (r: Result<Registration, ServerError>)
    ensures
        !(4 <= spec_hash_cost(config.hash_cost@) <= 31) ==> r is Err,
        match r {
            Ok(reg) => exists|h: Seq<char>|
                #[trigger] bcrypt_verify_outcome(user_pass@, h) == Some(true)
                && hash_made_at_cost(h, spec_hash_cost(config.hash_cost@))
                && registration_ok(reg, user_name@, user_email@, h, config.gmail_email@, user_id, profile_id, now)
                && reg.welcome@ == welcome_mail_view(user_email@, user_id, config.domain@),
            Err(e) => e matches ServerError::ExternalError(ExternalError::Bcrypt(_)),
        },
{
    let cost = hash_cost(config.hash_cost.as_str());
    let hashed = match bcrypt_hash(user_pass, cost) {
        Ok(h) => h,
        Err(e) => return Err(bcrypt_failure(e)),
    };
    let ghost h = hashed@;
    let role = if user_email == config.gmail_email {
        owned("admin")
    } else {
        owned("user")
    };
    let welcome = welcome_mail(&user_email, user_id, &config.domain);
    let profile = ProfileRecord {
        id: profile_id,
        user_id,
        first_name: None,
        last_name: None,
        avatar_color: owned("#098585"),
        role,
        created_at: now,
        updated_at: now,
    };
    let user = UserRecord {
        id: user_id,
        username: user_name,
        email: user_email,
        password: Some(hashed),
        verified: false,
        user_profile_id: profile_id,
        o_auth_provider: owned("Custom"),
        created_at: now,
        updated_at: now,
    };
    let reg = Registration { user, profile, welcome };
    assert(bcrypt_verify_outcome(user_pass@, h) == Some(true));
    assert(hash_made_at_cost(h, spec_hash_cost(config.hash_cost@)));
    Ok(reg)
}

/// The welcome e-mail's parts.
pub open spec fn welcome_mail_view(email: Seq<char>, user_id: u128, domain: Seq<char>) -> crate::mailing::EmailView {
    crate::mailing::EmailView {
        greeting: "Welcome"@,
        main_message: "Welcome to Higuard's Error Dashboard."@,
        body: "Welcome "@ + email
            + ", thanks for signing up to my application! Feel free to contact this email for anything in regards to the error dashboard. If this isn't you, ignore this. Please verify by clicking the following link: <a href=\""@
            + crate::mailing::verify_url(domain, user_id) + "\" style=\"color: #1a73e8;\">Verify your account</a>"@,
        dynamic_content: Some("Your ID is: "@ + crate::uuid_text::uuid_hyphenated(user_id)),
    }
}

/// Whether `r` answers a password check whose bcrypt outcome was `outcome`.
pub open spec fn is_verdict(outcome: Option<bool>, r: Result<(), ServerError>) -> bool {
    match outcome {
        Some(true) => r is Ok,
        Some(false) => r == Err::<(), ServerError>(ServerError::QueryError(QueryError::PasswordIncorrect)),
        None => r matches Err(ServerError::ExternalError(ExternalError::Bcrypt(_))),
    }
}

/// Turns the result of checking a password with bcrypt into the answer of
/// the check.
pub fn password_verdict(checked: Result<bool, ServerError>) -> (r: Result<(), ServerError>)
    ensures
        match checked {
            Ok(true) => r is Ok,
            Ok(false) => r == Err::<(), ServerError>(ServerError::QueryError(QueryError::PasswordIncorrect)),
            Err(e) => r == Err::<(), ServerError>(e),
        },
{
    match checked {
        Ok(true) => Ok(()),
        Ok(false) => Err(ServerError::QueryError(QueryError::PasswordIncorrect)),
        Err(e) => Err(e),
    }
}

fn check_password(password: &str, hash: &String) -> (r: Result<(), ServerError>)
    ensures
        is_verdict(bcrypt_verify_outcome(password@, hash@), r),
{
    let checked = match bcrypt_verify(password, hash.as_str()) {
        Ok(b) => Ok(b),
        Err(e) => Err(bcrypt_failure(e)),
    };
    password_verdict(checked)
}

/// The answer to a login with `password` for the account found (if any): no
/// account is `UserNotFound`; an account that signs in elsewhere than with a
/// password of its own ("Custom") is `OAuthTypeError`; one without a password
/// is `PasswordNotFound`; otherwise bcrypt decides.
pub open spec fn is_login_answer(found: Option<UserRecord>, password: Seq<char>, r: Result<(), ServerError>) -> bool {
    match found {
        None => r == Err::<(), ServerError>(ServerError::QueryError(QueryError::UserNotFound)),
        Some(u) => if u.o_auth_provider@ != "Custom"@ {
            r == Err::<(), ServerError>(ServerError::QueryError(QueryError::OAuthTypeError))
        } else {
            match u.password {
                None => r == Err::<(), ServerError>(ServerError::QueryError(QueryError::PasswordNotFound)),
                Some(h) => is_verdict(bcrypt_verify_outcome(password, h@), r),
            }
        },
    }
}

pub open spec fn opt_user(o: Option<&UserRecord>) -> Option<UserRecord> {
    match o {
        Some(u) => Some(*u),
        None => None,
    }
}

/// Checks a login's password against the account found by its e-mail.
pub fn check_login(found: Option<&UserRecord>, password: &str) -> (r: Result<(), ServerError>)
    ensures
        is_login_answer(opt_user(found), password@, r),
{
    match found {
        None => Err(ServerError::QueryError(QueryError::UserNotFound)),
        Some(u) => {
            if !crate::text::str_eq(u.o_auth_provider.as_str(), "Custom") {
                return Err(ServerError::QueryError(QueryError::OAuthTypeError));
            }
            match &u.password {
                None => Err(ServerError::QueryError(QueryError::PasswordNotFound)),
                Some(h) => check_password(password, h),
            }
        },
    }
}

/// A password that registration hashed lets its account log in: an account
/// with its own password whose stored hash bcrypt matches to the password
/// passes the login check.
pub proof fn lemma_registered_password_logs_in(user: UserRecord, password: Seq<char>, r: Result<(), ServerError>)
    requires
        user.o_auth_provider@ == "Custom"@,
        user.password matches Some(h) && bcrypt_verify_outcome(password, h@) == Some(true),
        is_login_answer(Some(user), password, r),
    ensures
        r is Ok,
{
}

/// Checks the password of the account `found` (if any) when the user
/// confirms it: no account is `UserNotFound`, an account without a password
/// is `PasswordNotSet`, otherwise bcrypt decides.
pub fn check_account_password(found: Option<&UserRecord>, password: &str) -> (r: Result<(), ServerError>)
    ensures
        match opt_user(found) {
            None => r == Err::<(), ServerError>(ServerError::QueryError(QueryError::UserNotFound)),
            Some(u) => match u.password {
                None => r == Err::<(), ServerError>(ServerError::QueryError(QueryError::PasswordNotSet)),
                Some(h) => is_verdict(bcrypt_verify_outcome(password@, h@), r),
            },
        },
{
    match found {
        None => Err(ServerError::QueryError(QueryError::UserNotFound)),
        Some(u) => match &u.password {
            None => Err(ServerError::QueryError(QueryError::PasswordNotSet)),
            Some(h) => check_password(password, h),
        },
    }
}

pub open spec fn opt_text(o: Option<String>) -> Option<Seq<char>> {
    match o {
        Some(s) => Some(s@),
        None => None,
    }
}

fn clone_opt(o: &Option<String>) -> (r: Option<String>)
    ensures
        r == *o,
{
    match o {
        Some(s) => Some(s.clone()),
        None => None,
    }
}

/// The user and profile a login answers with, the profile stamped `now`.
pub open spec fn login_view_ok(v: LoginView, user: UserRecord, profile: ProfileRecord, now: i64) -> bool {
    &&& v.user.id == user.id
    &&& v.user.username@ == user.username@
    &&& v.user.email@ == user.email@
    &&& v.profile.first_name == profile.first_name
    &&& v.profile.last_name == profile.last_name
    &&& v.profile.avatar_color@ == profile.avatar_color@
    &&& v.profile.role@ == profile.role@
    &&& v.profile.updated_at == now
}

pub open spec fn opt_profile(o: Option<&ProfileRecord>) -> Option<ProfileRecord> {
    match o {
        Some(p) => Some(*p),
        None => None,
    }
}

/// What a login answers for `user` with the profile found (if any); a
/// missing profile is `UserProfileNotFound`.
pub fn login_response(user: &UserRecord, profile: Option<&ProfileRecord>, now: i64) -> (r: Result<LoginView, ServerError>)
    ensures
        match opt_profile(profile) {
            None => r matches Err(e) && e == ServerError::QueryError(QueryError::UserProfileNotFound),
            Some(p) => r matches Ok(v) && login_view_ok(v, *user, p, now),
        },
{
    match profile {
        None => Err(ServerError::QueryError(QueryError::UserProfileNotFound)),
        Some(p) => Ok(LoginView {
            user: ShortUser { id: user.id, username: user.username.clone(), email: user.email.clone() },
            profile: ShortProfile {
                first_name: clone_opt(&p.first_name),
                last_name: clone_opt(&p.last_name),
                avatar_color: p.avatar_color.clone(),
                role: p.role.clone(),
                updated_at: now,
            },
        }),
    }
}

/// The account and profile of a user who signs up with Google.
pub fn google_user_records(
    given_name: &String,
    family_name: &String,
    email: &String,
    user_id: u128,
    profile_id: u128,
    now: i64,
) -> (r: (UserRecord, ProfileRecord))
    ensures
        r.0.id == user_id && r.0.username@ == email@ && r.0.email@ == email@ && r.0.password is None
            && !r.0.verified && r.0.user_profile_id == profile_id && r.0.o_auth_provider@ == "Google"@
            && r.0.created_at == now && r.0.updated_at == now,
        r.1.id == profile_id && r.1.user_id == user_id && opt_text(r.1.first_name) == Some(given_name@)
            && opt_text(r.1.last_name) == Some(family_name@) && r.1.role@ == "User"@
            && r.1.avatar_color@ == default_avatar() && r.1.created_at == now && r.1.updated_at == now,
{
    let profile = ProfileRecord {
        id: profile_id,
        user_id,
        first_name: Some(given_name.clone()),
        last_name: Some(family_name.clone()),
        avatar_color: owned("#098585"),
        role: owned("User"),
        created_at: now,
        updated_at: now,
    };
    let user = UserRecord {
        id: user_id,
        username: email.clone(),
        email: email.clone(),
        password: None,
        verified: false,
        user_profile_id: profile_id,
        o_auth_provider: owned("Google"),
        created_at: now,
        updated_at: now,
    };
    (user, profile)
}

/// The first step of a token refresh: the token presented must be stored
/// (else `InvalidToken`); it is revoked.
pub fn token_to_revoke(found: Option<RefreshTokenRecord>) -> (r: Result<RefreshTokenRecord, ServerError>)
    ensures
        match found {
            None => r matches Err(e) && e == ServerError::RequestError(RequestError::InvalidToken),
            Some(t) => r matches Ok(n) && n.revoked && n.id == t.id && n.user_id == t.user_id
                && n.token == t.token && n.issued_at == t.issued_at && n.expires_at == t.expires_at
                && n.issuer == t.issuer && n.audience == t.audience,
        },
{
    match found {
        None => Err(ServerError::RequestError(RequestError::InvalidToken)),
        Some(t) => {
            let mut n = t;
            n.revoked = true;
            Ok(n)
        },
    }
}

/// The user a refresh token belongs to; a token without one is `MissingUserID`.
pub fn token_owner(t: &RefreshTokenRecord) -> (r: Result<u128, ServerError>)
    ensures
        match t.user_id {
            None => r matches Err(e) && e == ServerError::RequestError(RequestError::MissingUserID),
            Some(u) => r == Ok::<u128, ServerError>(u),
        },
{
    match t.user_id {
        None => Err(ServerError::RequestError(RequestError::MissingUserID)),
        Some(u) => Ok(u),
    }
}

/// The record of a newly issued refresh token, not revoked.
pub fn new_refresh_record(
    id: u128,
    user_id: u128,
    token: String,
    issued_at: i64,
    expires_at: i64,
    config: &Config,
) -> (r: RefreshTokenRecord)
    ensures
        r.id == id && r.user_id == Some(user_id) && r.token == token && r.issued_at == issued_at
            && r.expires_at == expires_at && r.issuer@ == config.jwt_issuer@
            && r.audience@ == config.jwt_audience@ && !r.revoked,
{
    RefreshTokenRecord {
        id,
        user_id: Some(user_id),
        token,
        issued_at,
        expires_at,
        issuer: config.jwt_issuer.clone(),
        audience: config.jwt_audience.clone(),
        revoked: false,
    }
}

/// What a refresh answers once the token's user and profile were looked up:
/// a missing user is `UserNotFound`, a missing profile `UserProfileNotFound`.
pub fn refreshed_login(user: Option<&UserRecord>, profile: Option<&ProfileRecord>, now: i64) -> (r: Result<LoginView, ServerError>)
    ensures
        match (opt_user(user), opt_profile(profile)) {
            (None, _) => r matches Err(e) && e == ServerError::QueryError(QueryError::UserNotFound),
            (Some(_), None) => r matches Err(e) && e == ServerError::QueryError(QueryError::UserProfileNotFound),
            (Some(u), Some(p)) => r matches Ok(v) && login_view_ok(v, u, p, now),
        },
{
    match user {
        None => Err(ServerError::QueryError(QueryError::UserNotFound)),
        Some(u) => login_response(u, profile, now),
    }
}

/// What a client is told of the user found; no user is `UserNotFound`.
pub fn short_user(found: Option<&UserRecord>) -> (r: Result<ShortUser, ServerError>)
    ensures
        match opt_user(found) {
            None => r matches Err(e) && e == ServerError::QueryError(QueryError::UserNotFound),
            Some(u) => r matches Ok(s) && s.id == u.id && s.username@ == u.username@ && s.email@ == u.email@,
        },
{
    match found {
        None => Err(ServerError::QueryError(QueryError::UserNotFound)),
        Some(u) => Ok(ShortUser { id: u.id, username: u.username.clone(), email: u.email.clone() }),
    }
}

/// What a client is told of the profile found; no profile is `UserNotFound`.
pub fn short_profile(found: Option<&ProfileRecord>) -> (r: Result<ShortProfile, ServerError>)
    ensures
        match opt_profile(found) {
            None => r matches Err(e) && e == ServerError::QueryError(QueryError::UserNotFound),
            Some(p) => r matches Ok(s) && s.first_name == p.first_name && s.last_name == p.last_name
                && s.avatar_color@ == p.avatar_color@ && s.role@ == p.role@ && s.updated_at == p.updated_at,
        },
{
    match found {
        None => Err(ServerError::QueryError(QueryError::UserNotFound)),
        Some(p) => Ok(ShortProfile {
            first_name: clone_opt(&p.first_name),
            last_name: clone_opt(&p.last_name),
            avatar_color: p.avatar_color.clone(),
            role: p.role.clone(),
            updated_at: p.updated_at,
        }),
    }
}

/// Whether the user found has verified the account: no user is
/// `UserNotFound`, an unverified one `UserNotVerified`.
pub fn check_user_verification(found: Option<&UserRecord>) -> (r: Result<bool, ServerError>)
    ensures
        match opt_user(found) {
            None => r matches Err(e) && e == ServerError::QueryError(QueryError::UserNotFound),
            Some(u) => if u.verified {
                r == Ok::<bool, ServerError>(true)
            } else {
                r matches Err(e) && e == ServerError::QueryError(QueryError::UserNotVerified)
            },
        },
{
    match found {
        None => Err(ServerError::QueryError(QueryError::UserNotFound)),
        Some(u) => if u.verified {
            Ok(true)
        } else {
            Err(ServerError::QueryError(QueryError::UserNotVerified))
        },
    }
}

/// Marks the account found as verified, stamped `now`. Its stored password
/// text (empty when it has none) is hashed again at the configured cost and
/// stored as its password; no account is `UserNotFound`, a failed hash a
/// bcrypt error.
pub fn verify_account(found: Option<UserRecord>, config: &Config, now: i64) -> (r: Result<UserRecord, ServerError>)
    ensures
        match found {
            None => r matches Err(e) && e == ServerError::QueryError(QueryError::UserNotFound),
            Some(u) => match r {
                Ok(n) => {
                    &&& n.id == u.id && n.username == u.username && n.email == u.email
                    &&& n.user_profile_id == u.user_profile_id && n.o_auth_provider == u.o_auth_provider
                    &&& n.created_at == u.created_at && n.updated_at == now && n.verified
                    &&& n.password matches Some(h) && bcrypt_verify_outcome(
                        match u.password { Some(p) => p@, None => Seq::<char>::empty() }, h@) == Some(true)
                        && hash_made_at_cost(h@, spec_hash_cost(config.hash_cost@))
                },
                Err(e) => e matches ServerError::ExternalError(ExternalError::Bcrypt(_)),
            },
        },
        found matches Some(_) && !(4 <= spec_hash_cost(config.hash_cost@) <= 31) ==> r is Err,
{
    match found {
        None => Err(ServerError::QueryError(QueryError::UserNotFound)),
        Some(u) => {
            let cost = hash_cost(config.hash_cost.as_str());
            let old_text = match &u.password {
                Some(p) => p.clone(),
                None => String::new(),
            };
            let hashed = match bcrypt_hash(old_text.as_str(), cost) {
                Ok(h) => h,
                Err(e) => return Err(bcrypt_failure(e)),
            };
            let mut n = u;
            n.password = Some(hashed);
            n.verified = true;
            n.updated_at = now;
            Ok(n)
        },
    }
}

/// The changes a user asks of the account; an absent or empty field changes
/// nothing.
#[derive(Debug, Clone)]
pub struct ProfileUpdate {
    pub first_name: Option<String>,
    pub last_name: Option<String>,
    pub avatar_color: Option<String>,
    pub username: Option<String>,
    pub password: Option<String>,
}

/// The field asks for a change: present and not empty.
pub open spec fn asks(o: Option<String>) -> bool {
    o matches Some(s) && s@.len() > 0
}

/// The profile after an update: each asked-for field replaced, and stamped
/// `now` when any was.
pub open spec fn updated_profile_ok(p: ProfileRecord, upd: ProfileUpdate, now: i64, n: ProfileRecord) -> bool {
    &&& n.id == p.id && n.user_id == p.user_id && n.role == p.role && n.created_at == p.created_at
    &&& n.first_name == if asks(upd.first_name) { upd.first_name } else { p.first_name }
    &&& n.last_name == if asks(upd.last_name) { upd.last_name } else { p.last_name }
    &&& n.avatar_color == if asks(upd.avatar_color) { upd.avatar_color->0 } else { p.avatar_color }
    &&& n.updated_at == if asks(upd.first_name) || asks(upd.last_name) || asks(upd.avatar_color) {
        now
    } else {
        p.updated_at
    }
}

/// The account after an update: a new username or password (hashed at
/// `cost`) when asked for, and stamped `now` when either was.
pub open spec fn updated_user_ok(u: UserRecord, upd: ProfileUpdate, cost: u32, now: i64, n: UserRecord) -> bool {
    &&& n.id == u.id && n.email == u.email && n.verified == u.verified
    &&& n.user_profile_id == u.user_profile_id && n.o_auth_provider == u.o_auth_provider
    &&& n.created_at == u.created_at
    &&& n.username == if asks(upd.username) { upd.username->0 } else { u.username }
    &&& if asks(upd.password) {
        n.password matches Some(h) && bcrypt_verify_outcome(upd.password->0@, h@) == Some(true)
            && hash_made_at_cost(h@, cost)
    } else {
        n.password == u.password
    }
    &&& n.updated_at == if asks(upd.username) || asks(upd.password) { now } else { u.updated_at }
}

fn asks_for(o: &Option<String>) -> (r: bool)
    ensures
        r == asks(*o),
{
    match o {
        Some(s) => s.as_str().unicode_len() > 0,
        None => false,
    }
}

/// Applies a user's update to the account and profile found: a missing
/// profile or account is `UserNotFound`; a new password is hashed at the
/// configured cost (a failed hash is a bcrypt error).
pub fn update_user_profile(
    profile: Option<ProfileRecord>,
    user: Option<UserRecord>,
    upd: &ProfileUpdate,
    config: &Config,
    now: i64,
) -> (r: Result<(UserRecord, ProfileRecord), ServerError>)
    ensures
        match (profile, user) {
            (None, _) => r matches Err(e) && e == ServerError::QueryError(QueryError::UserNotFound),
            (Some(_), None) => r matches Err(e) && e == ServerError::QueryError(QueryError::UserNotFound),
            (Some(p), Some(u)) => match r {
                Ok((nu, np)) => updated_user_ok(u, *upd, spec_hash_cost(config.hash_cost@), now, nu)
                    && updated_profile_ok(p, *upd, now, np),
                Err(e) => asks(upd.password) && e matches ServerError::ExternalError(ExternalError::Bcrypt(_)),
            },
        },
        profile is Some && user is Some && asks(upd.password) && !(4 <= spec_hash_cost(config.hash_cost@) <= 31)
            ==> r is Err,
        profile is Some && user is Some && !asks(upd.password) ==> r is Ok,
{
    let mut p = match profile {
        None => return Err(ServerError::QueryError(QueryError::UserNotFound)),
        Some(p) => p,
    };
    let mut u = match user {
        None => return Err(ServerError::QueryError(QueryError::UserNotFound)),
        Some(u) => u,
    };
    let cost = hash_cost(config.hash_cost.as_str());
    let mut profile_updated = false;
    let mut user_updated = false;
    if asks_for(&upd.first_name) {
        p.first_name = clone_opt(&upd.first_name);
        profile_updated = true;
    }
    if asks_for(&upd.last_name) {
        p.last_name = clone_opt(&upd.last_name);
        profile_updated = true;
    }
    if let Some(c) = &upd.avatar_color {
        if c.as_str().unicode_len() > 0 {
            p.avatar_color = c.clone();
            profile_updated = true;
        }
    }
    if let Some(name) = &upd.username {
        if name.as_str().unicode_len() > 0 {
            u.username = name.clone();
            user_updated = true;
        }
    }
    if let Some(pw) = &upd.password {
        if pw.as_str().unicode_len() > 0 {
            match bcrypt_hash(pw.as_str(), cost) {
                Ok(h) => {
                    u.password = Some(h);
                },
                Err(e) => return Err(bcrypt_failure(e)),
            }
            user_updated = true;
        }
    }
    if profile_updated {
        p.updated_at = now;
    }
    if user_updated {
        u.updated_at = now;
    }
    Ok((u, p))
}

/// An update that asks for nothing leaves the account and the profile as
/// they were, timestamps included.
pub proof fn lemma_empty_update_changes_nothing(
    p: ProfileRecord,
    u: UserRecord,
    upd: ProfileUpdate,
    cost: u32,
    now: i64,
    np: ProfileRecord,
    nu: UserRecord,
)
    requires
        !asks(upd.first_name) && !asks(upd.last_name) && !asks(upd.avatar_color),
        !asks(upd.username) && !asks(upd.password),
        updated_profile_ok(p, upd, now, np),
        updated_user_ok(u, upd, cost, now, nu),
    ensures
        np == p,
        nu == u,
{
}

} // verus!

verus! {

/// Only an account whose role is "admin" passes the administrator check
/// (else `InvalidRole`).
pub fn check_admin_role(role: &str) -> (r: Result<(), ServerError>)
    ensures
        role@ == "admin"@ ==> r is Ok,
        role@ != "admin"@ ==> r == Err::<(), ServerError>(ServerError::QueryError(QueryError::InvalidRole)),
{
    if crate::text::str_eq(role, "admin") {
        Ok(())
    } else {
        Err(ServerError::QueryError(QueryError::InvalidRole))
    }
}

/// The first cookie named `name` among `cookies` (name, value), if any.
pub open spec fn first_cookie(cookies: Seq<(String, String)>, name: Seq<char>) -> Option<Seq<char>>
    decreases cookies.len(),
{
    if cookies.len() == 0 {
        None
    } else if cookies[0].0@ == name {
        Some(cookies[0].1@)
    } else {
        first_cookie(cookies.drop_first(), name)
    }
}

/// The refresh token a request carries in its "refreshToken" cookie; a
/// request without one is `MissingCookie`.
pub fn refresh_cookie(cookies: &Vec<(String, String)>) -> (r: Result<String, ServerError>)
    ensures
        match first_cookie(cookies@, "refreshToken"@) {
            Some(v) => r matches Ok(t) && t@ == v,
            None => r matches Err(e) && e == ServerError::RequestError(RequestError::MissingCookie),
        },
{
    let mut i: usize = 0;
    assert(cookies@.skip(0) =~= cookies@);
    while i < cookies.len()
        invariant
            i <= cookies@.len(),
            first_cookie(cookies@, "refreshToken"@) == first_cookie(cookies@.skip(i as int), "refreshToken"@),
        decreases cookies@.len() - i,
    {
        proof {
            let t = cookies@.skip(i as int);
            assert(t[0] == cookies@[i as int]);
            assert(t.drop_first() =~= cookies@.skip(i + 1));
        }
        if crate::text::str_eq(cookies[i].0.as_str(), "refreshToken") {
            return Ok(cookies[i].1.clone());
        }
        i = i + 1;
    }
    Err(ServerError::RequestError(RequestError::MissingCookie))
}

} // verus!
