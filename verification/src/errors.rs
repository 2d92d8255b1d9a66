//! The server's error types, their messages and the HTTP status each maps to.
use vstd::prelude::*;
use vstd::string::StringExecFns;

verus! {

/// Every error a request can end in.
#[derive(Debug)]
pub enum ServerError {
    ExternalError(ExternalError),
    QueryError(QueryError),
    RequestError(RequestError),
    ServiceInitError(String),
    HttpError(u16, String),
}

/// A failure reported by a library the server relies on, with that library's
/// own description of it.
#[derive(Debug)]
pub enum ExternalError {
    Actix(String),
    Anyhow(String),
    DB(String),
    Jwt(String),
    Uuid(String),
    Bcrypt(String),
    Json(String),
    Pool(String),
    Transaction(String),
    Address(String),
    Lettre(String),
    Smtp(String),
    Serenity(String),
    OAuth2,
}

/// A request that the stored data cannot satisfy.
#[derive(Debug, PartialEq, Eq, Structural, Clone, Copy)]
pub enum QueryError {
    UserNotFound,
    UserExists,
    PasswordIncorrect,
    NamespaceNotFound,
    NamespaceExists,
    UserNamespaceJunctionNotFound,
    UserNamespaceJunctionExists,
    OAuthTypeError,
    PasswordNotFound,
    PasswordNotSet,
    UserProfileNotFound,
    UserNotVerified,
    ErrorNotFound,
    InvalidTimestamp,
    InvalidTag,
    InvalidRole,
    DiscordChannelNotFound,
    AlertTypeNotFound,
    NamespaceAlertNotFound,
    UserNotNamespaceMember,
    UserAlreadySubscribed,
    NotFound,
    FeatureRequestNotFound,
}

/// A request that is malformed or not allowed.
#[derive(Debug, PartialEq, Eq, Structural, Clone, Copy)]
pub enum RequestError {
    MissingUserID,
    InvalidHeader,
    InvalidToken,
    MissingHeader,
    PermissionDenied,
    StackTraceParsingError,
    NamespaceLimitReached,
    RateLimitExceeded,
    InvalidCookies,
    MissingCookie,
}

/// The message of a query error.
pub open spec fn query_error_text(e: QueryError) -> Seq<char> {
    match e {
        QueryError::UserNotFound => "User not found"@,
        QueryError::UserExists => "User already exists"@,
        QueryError::PasswordIncorrect => "Password incorrect"@,
        QueryError::NamespaceNotFound => "Namespace not found"@,
        QueryError::NamespaceExists => "Namespace already exists"@,
        QueryError::UserNamespaceJunctionNotFound => "User-Namespace junction not found"@,
        QueryError::UserNamespaceJunctionExists => "User-Namespace junction already exists"@,
        QueryError::OAuthTypeError => "Account uses a different sign-in provider"@,
        QueryError::PasswordNotFound => "Password not found"@,
        QueryError::PasswordNotSet => "Password not set"@,
        QueryError::UserProfileNotFound => "User profile not found"@,
        QueryError::UserNotVerified => "User not verified"@,
        QueryError::ErrorNotFound => "Error not found"@,
        QueryError::InvalidTimestamp => "Invalid timestamp"@,
        QueryError::InvalidTag => "Invalid tag"@,
        QueryError::InvalidRole => "Invalid role"@,
        QueryError::DiscordChannelNotFound => "Discord channel not found"@,
        QueryError::AlertTypeNotFound => "Alert type not found"@,
        QueryError::NamespaceAlertNotFound => "Namespace alert not found"@,
        QueryError::UserNotNamespaceMember => "User is not a member of the namespace"@,
        QueryError::UserAlreadySubscribed => "User already subscribed"@,
        QueryError::NotFound => "Not found"@,
        QueryError::FeatureRequestNotFound => "Feature request not found"@,
    }
}

/// The message of a request error.
pub open spec fn request_error_text(e: RequestError) -> Seq<char> {
    match e {
        RequestError::MissingUserID => "Missing user ID"@,
        RequestError::InvalidHeader => "Invalid header"@,
        RequestError::InvalidToken => "Invalid token"@,
        RequestError::MissingHeader => "Missing header"@,
        RequestError::PermissionDenied => "Permission denied"@,
        RequestError::StackTraceParsingError => "Stack trace could not be parsed"@,
        RequestError::NamespaceLimitReached => "Namespace limit reached"@,
        RequestError::RateLimitExceeded => "Rate limit exceeded"@,
        RequestError::InvalidCookies => "Invalid cookies"@,
        RequestError::MissingCookie => "Missing cookie"@,
    }
}

/// The message of an outside failure: the library's name, then its description.
pub open spec fn external_error_text(e: ExternalError) -> Seq<char> {
    match e {
        ExternalError::Actix(s) => "Actix error: "@ + s@,
        ExternalError::Anyhow(s) => "Anyhow error: "@ + s@,
        ExternalError::DB(s) => "Database error: "@ + s@,
        ExternalError::Jwt(s) => "JWT error: "@ + s@,
        ExternalError::Uuid(s) => "UUID error: "@ + s@,
        ExternalError::Bcrypt(s) => "Bcrypt error: "@ + s@,
        ExternalError::Json(s) => "JSON error: "@ + s@,
        ExternalError::Pool(s) => "SQL pool error: "@ + s@,
        ExternalError::Transaction(s) => "Transaction error: "@ + s@,
        ExternalError::Address(s) => "Address error: "@ + s@,
        ExternalError::Lettre(s) => "Email error: "@ + s@,
        ExternalError::Smtp(s) => "SMTP error: "@ + s@,
        ExternalError::Serenity(s) => "Discord error: "@ + s@,
        ExternalError::OAuth2 => "OAuth2 error"@,
    }
}

/// How the `http` crate displays the status `code`: the number and its
/// canonical reason phrase ("401 Unauthorized").
pub uninterp spec fn status_display(code: u16) -> Seq<char>;

/// `Display` of `actix_web::http::StatusCode::from_u16(code)`; a number that
/// is no status code (outside 100..=999) is shown as the number alone. The
/// reason phrases come from the `http` crate's table, so the contract only
/// names the text.
#[verifier::external_body]
fn status_text(code: u16) -> (r: String)
    ensures
        r@ == status_display(code),
{
    match actix_web::http::StatusCode::from_u16(code) {
        Ok(status) => status.to_string(),
        Err(_) => code.to_string(),
    }
}

/// The message of a server error: its category, then the inner message.
pub open spec fn server_error_text(e: ServerError) -> Seq<char> {
    match e {
        ServerError::ExternalError(x) => "External error: "@ + external_error_text(x),
        ServerError::QueryError(q) => "Query error: "@ + query_error_text(q),
        ServerError::RequestError(r) => "Request error: "@ + request_error_text(r),
        ServerError::ServiceInitError(s) => "Service initialization error: "@ + s@,
        ServerError::HttpError(code, s) => "HTTP error: "@ + status_display(code) + " - "@ + s@,
    }
}

/// The HTTP status a server error is answered with: 404 for missing users,
/// namespaces and memberships, 409 for ones that already exist, 400 for other
/// query errors and for request errors, the carried status for HTTP errors, and
/// 500 for everything else.
pub open spec fn spec_status_code(e: ServerError) -> u16 {
    match e {
        ServerError::QueryError(q) => match q {
            QueryError::UserNotFound | QueryError::NamespaceNotFound
            | QueryError::UserNamespaceJunctionNotFound => 404,
            QueryError::UserExists | QueryError::NamespaceExists
            | QueryError::UserNamespaceJunctionExists => 409,
            _ => 400,
        },
        ServerError::RequestError(_) => 400,
        ServerError::HttpError(status, _) => status,
        _ => 500,
    }
}

fn text(s: &str) -> (r: String)
    ensures
        r@ == s@,
{
    let mut r = String::new();
    r.append(s);
    r
}

impl QueryError {
    /// The message of this error.
    pub fn message(&self) -> (r: String)
        ensures
            r@ == query_error_text(*self),
    {
        match self {
            QueryError::UserNotFound => text("User not found"),
            QueryError::UserExists => text("User already exists"),
            QueryError::PasswordIncorrect => text("Password incorrect"),
            QueryError::NamespaceNotFound => text("Namespace not found"),
            QueryError::NamespaceExists => text("Namespace already exists"),
            QueryError::UserNamespaceJunctionNotFound => text("User-Namespace junction not found"),
            QueryError::UserNamespaceJunctionExists => text(
                "User-Namespace junction already exists",
            ),
            QueryError::OAuthTypeError => text("Account uses a different sign-in provider"),
            QueryError::PasswordNotFound => text("Password not found"),
            QueryError::PasswordNotSet => text("Password not set"),
            QueryError::UserProfileNotFound => text("User profile not found"),
            QueryError::UserNotVerified => text("User not verified"),
            QueryError::ErrorNotFound => text("Error not found"),
            QueryError::InvalidTimestamp => text("Invalid timestamp"),
            QueryError::InvalidTag => text("Invalid tag"),
            QueryError::InvalidRole => text("Invalid role"),
            QueryError::DiscordChannelNotFound => text("Discord channel not found"),
            QueryError::AlertTypeNotFound => text("Alert type not found"),
            QueryError::NamespaceAlertNotFound => text("Namespace alert not found"),
            QueryError::UserNotNamespaceMember => text("User is not a member of the namespace"),
            QueryError::UserAlreadySubscribed => text("User already subscribed"),
            QueryError::NotFound => text("Not found"),
            QueryError::FeatureRequestNotFound => text("Feature request not found"),
        }
    }
}

impl RequestError {
    /// The message of this error.
    pub fn message(&self) -> (r: String)
        ensures
            r@ == request_error_text(*self),
    {
        match self {
            RequestError::MissingUserID => text("Missing user ID"),
            RequestError::InvalidHeader => text("Invalid header"),
            RequestError::InvalidToken => text("Invalid token"),
            RequestError::MissingHeader => text("Missing header"),
            RequestError::PermissionDenied => text("Permission denied"),
            RequestError::StackTraceParsingError => text("Stack trace could not be parsed"),
            RequestError::NamespaceLimitReached => text("Namespace limit reached"),
            RequestError::RateLimitExceeded => text("Rate limit exceeded"),
            RequestError::InvalidCookies => text("Invalid cookies"),
            RequestError::MissingCookie => text("Missing cookie"),
        }
    }
}

fn prefixed(prefix: &str, s: &String) -> (r: String)
    ensures
        r@ == prefix@ + s@,
{
    let mut r = String::new();
    r.append(prefix);
    r.append(s.as_str());
    r
}

impl ExternalError {
    /// The message of this error.
    pub fn message(&self) -> (r: String)
        ensures
            r@ == external_error_text(*self),
    {
        match self {
            ExternalError::Actix(s) => prefixed("Actix error: ", s),
            ExternalError::Anyhow(s) => prefixed("Anyhow error: ", s),
            ExternalError::DB(s) => prefixed("Database error: ", s),
            ExternalError::Jwt(s) => prefixed("JWT error: ", s),
            ExternalError::Uuid(s) => prefixed("UUID error: ", s),
            ExternalError::Bcrypt(s) => prefixed("Bcrypt error: ", s),
            ExternalError::Json(s) => prefixed("JSON error: ", s),
            ExternalError::Pool(s) => prefixed("SQL pool error: ", s),
            ExternalError::Transaction(s) => prefixed("Transaction error: ", s),
            ExternalError::Address(s) => prefixed("Address error: ", s),
            ExternalError::Lettre(s) => prefixed("Email error: ", s),
            ExternalError::Smtp(s) => prefixed("SMTP error: ", s),
            ExternalError::Serenity(s) => prefixed("Discord error: ", s),
            ExternalError::OAuth2 => text("OAuth2 error"),
        }
    }
}

impl ServerError {
    /// The message of this error.
    pub fn message(&self) -> (r: String)
        ensures
            r@ == server_error_text(*self),
    {
        let mut r = String::new();
        match self {
            ServerError::ExternalError(x) => {
                r.append("External error: ");
                let m = x.message();
                r.append(m.as_str());
            },
            ServerError::QueryError(q) => {
                r.append("Query error: ");
                let m = q.message();
                r.append(m.as_str());
            },
            ServerError::RequestError(e) => {
                r.append("Request error: ");
                let m = e.message();
                r.append(m.as_str());
            },
            ServerError::ServiceInitError(s) => {
                r.append("Service initialization error: ");
                r.append(s.as_str());
            },
            ServerError::HttpError(code, s) => {
                r.append("HTTP error: ");
                let d = status_text(*code);
                r.append(d.as_str());
                r.append(" - ");
                r.append(s.as_str());
            },
        }
        proof {
            assert(r@ =~= server_error_text(*self));
        }
        r
    }

    /// The HTTP status this error is answered with.
    pub fn status_code(&self) -> (r: u16)
        ensures
            r == spec_status_code(*self),
    {
        match self {
            ServerError::QueryError(q) => match q {
                QueryError::UserNotFound | QueryError::NamespaceNotFound
                | QueryError::UserNamespaceJunctionNotFound => 404,
                QueryError::UserExists | QueryError::NamespaceExists
                | QueryError::UserNamespaceJunctionExists => 409,
                _ => 400,
            },
            ServerError::RequestError(_) => 400,
            ServerError::HttpError(status, _) => *status,
            _ => 500,
        }
    }
}

impl From<ExternalError> for ServerError {
    fn from(err: ExternalError) -> (r: Self)
        ensures
            r == ServerError::ExternalError(err),
    {
        ServerError::ExternalError(err)
    }
}

impl vstd::std_specs::convert::FromSpecImpl<ExternalError> for ServerError {
    open spec fn obeys_from_spec() -> bool {
        true
    }

    open spec fn from_spec(err: ExternalError) -> ServerError {
        ServerError::ExternalError(err)
    }
}

impl From<QueryError> for ServerError {
    fn from(err: QueryError) -> (r: Self)
        ensures
            r == ServerError::QueryError(err),
    {
        ServerError::QueryError(err)
    }
}

impl vstd::std_specs::convert::FromSpecImpl<QueryError> for ServerError {
    open spec fn obeys_from_spec() -> bool {
        true
    }

    open spec fn from_spec(err: QueryError) -> ServerError {
        ServerError::QueryError(err)
    }
}

impl From<RequestError> for ServerError {
    fn from(err: RequestError) -> (r: Self)
        ensures
            r == ServerError::RequestError(err),
    {
        ServerError::RequestError(err)
    }
}

impl vstd::std_specs::convert::FromSpecImpl<RequestError> for ServerError {
    open spec fn obeys_from_spec() -> bool {
        true
    }

    open spec fn from_spec(err: RequestError) -> ServerError {
        ServerError::RequestError(err)
    }
}

}
