//! Namespace alerts: which alerts a reported error concerns, which check each
//! alert asks for, when an alert fires, and the messages it sends.
use vstd::prelude::*;
use vstd::string::StringExecFns;
use crate::errors::{QueryError, RequestError, ServerError};
use crate::parse::{parse_stack_trace, spec_trace_info, trace_frames_ok, StackTraceInfo, frame_line_ok};
use crate::text::{
    parse_i32, parse_unsigned, spec_lines, spec_parse_i32, spec_parse_unsigned, spec_split,
    spec_words, split_lines, split_on, split_words, str_chars, string_from_chars,
};
use crate::uuid_text::{uuid_hyphenated, uuid_text};

verus! {

/// Earliest instant chrono's `DateTime<Utc>` can hold, in milliseconds since
/// the Unix epoch.
pub const DATETIME_MIN_MS: i64 = -8334601228800000;

/// Latest instant chrono's `DateTime<Utc>` can hold, in milliseconds since the
/// Unix epoch.
pub const DATETIME_MAX_MS: i64 = 8210266876799999;

/// One alert configured on a namespace. Ids are UUIDs as 128-bit numbers;
/// windows and thresholds of time are in milliseconds; times are milliseconds
/// since the Unix epoch.
#[derive(Debug, Clone)]
pub struct AlertRecord {
    pub id: u128,
    pub namespace_id: u128,
    pub alert_method: String,
    pub discord_channel_id: Option<String>,
    pub path: Option<String>,
    pub line: Option<i32>,
    pub message: Option<String>,
    pub stack_trace: Option<String>,
    pub count_threshold: Option<i32>,
    pub time_window: Option<i64>,
    pub unresolved_time_threshold: Option<i64>,
    pub rate_threshold: Option<i32>,
    pub rate_time_window: Option<i64>,
    pub triggered: bool,
    pub created_at: i64,
    pub updated_at: i64,
}

/// How an alert delivers its notice.
#[derive(Debug, PartialEq, Eq, Structural, Clone, Copy)]
pub enum AlertMethod {
    Email,
    Discord,
}

/// The query an alert needs answered before it can decide whether to fire.
#[derive(Debug, PartialEq, Eq, Structural, Clone, Copy)]
pub enum AlertCheck {
    /// Count the namespace's matching errors created after `window_start`;
    /// fire when there are more than `threshold`.
    Count { window_start: i64, threshold: i32 },
    /// Look for unresolved errors of the namespace created after
    /// `window_start`; fire when there is any.
    Unresolved { window_start: i64 },
    /// Count the namespace's matching errors created after `window_start`;
    /// fire when their rate per minute over `time_window` exceeds `threshold`.
    Rate { window_start: i64, threshold: i32, time_window: i64 },
    /// Nothing (more) to check: no count threshold, or no threshold after it.
    Nothing,
}

pub open spec fn opt_str(o: Option<String>) -> Option<Seq<char>> {
    match o {
        Some(s) => Some(s@),
        None => None,
    }
}

/// An alert concerns a reported error when it has not fired yet and each of
/// its path, line and message filters that is set equals the error's.
pub open spec fn spec_alert_applies(alert: AlertRecord, file_path: Seq<char>, line: i32, message: Seq<char>) -> bool {
    &&& !alert.triggered
    &&& (opt_str(alert.path) matches Some(p) ==> p == file_path)
    &&& (alert.line matches Some(l) ==> l == line)
    &&& (opt_str(alert.message) matches Some(m) ==> m == message)
}

/// Whether `alert` concerns an error at `info`'s origin with message `message`.
pub fn alert_applies(alert: &AlertRecord, info: &StackTraceInfo, message: &String) -> (r: bool)
    ensures
        r == spec_alert_applies(*alert, info.file_path@, info.line_number, message@),
        alert.triggered ==> !r,
        alert.path matches Some(p) && p@ != info.file_path@ ==> !r,
        alert.line matches Some(l) && l != info.line_number ==> !r,
        alert.message matches Some(m) && m@ != message@ ==> !r,
        !alert.triggered && alert.path is None && alert.line is None && alert.message is None ==> r,
{
    if alert.triggered {
        return false;
    }
    if let Some(p) = &alert.path {
        if *p != info.file_path {
            return false;
        }
    }
    if let Some(l) = alert.line {
        if l != info.line_number {
            return false;
        }
    }
    if let Some(m) = &alert.message {
        if *m != *message {
            return false;
        }
    }
    true
}

/// The delivery method named by an alert: "email" or "discord"; any other
/// name is `AlertTypeNotFound`.
pub open spec fn spec_alert_method(name: Seq<char>) -> Result<AlertMethod, ServerError> {
    if name == seq!['e', 'm', 'a', 'i', 'l'] {
        Ok(AlertMethod::Email)
    } else if name == seq!['d', 'i', 's', 'c', 'o', 'r', 'd'] {
        Ok(AlertMethod::Discord)
    } else {
        Err(ServerError::QueryError(QueryError::AlertTypeNotFound))
    }
}

/// Reads an alert's delivery method.
pub fn alert_method(alert: &AlertRecord) -> (r: Result<AlertMethod, ServerError>)
    ensures
        r == spec_alert_method(alert.alert_method@),
{
    let s = str_chars(alert.alert_method.as_str());
    let email = ['e', 'm', 'a', 'i', 'l'];
    let discord = ['d', 'i', 's', 'c', 'o', 'r', 'd'];
    assert(email@ =~= seq!['e', 'm', 'a', 'i', 'l']);
    assert(discord@ =~= seq!['d', 'i', 's', 'c', 'o', 'r', 'd']);
    if crate::text::chars_eq(&s, &email) {
        Ok(AlertMethod::Email)
    } else if crate::text::chars_eq(&s, &discord) {
        Ok(AlertMethod::Discord)
    } else {
        Err(ServerError::QueryError(QueryError::AlertTypeNotFound))
    }
}

/// `window` milliseconds, counted in whole minutes (rounded toward zero) as
/// milliseconds.
pub open spec fn whole_minutes_ms(window: i64) -> int {
    let minutes = if window >= 0 {
        window / 60000
    } else {
        -((-window) / 60000)
    };
    minutes * 60000
}

/// The start of a window of `window` milliseconds ending at `now`.
pub open spec fn window_start_of(now: i64, window: i64) -> int {
    now - whole_minutes_ms(window)
}

/// A window start chrono can represent.
pub open spec fn representable(t: int) -> bool {
    DATETIME_MIN_MS <= t <= DATETIME_MAX_MS
}

/// The first check an alert asks for at time `now`: counting its matching
/// errors in its time window, when it sets a count threshold. An alert with
/// no count threshold is not checked at all.
pub open spec fn spec_alert_check(alert: AlertRecord, now: i64) -> AlertCheck {
    if alert.count_threshold is Some {
        AlertCheck::Count {
            window_start: window_start_of(now, alert.time_window->0) as i64,
            threshold: alert.count_threshold->0,
        }
    } else {
        AlertCheck::Nothing
    }
}

/// The check that follows a count check that did not fire: an
/// unresolved-time threshold comes first, then a rate threshold (with its
/// window); with neither there is nothing more to check.
pub open spec fn spec_follow_up(alert: AlertRecord, now: i64) -> AlertCheck {
    if alert.unresolved_time_threshold is Some {
        AlertCheck::Unresolved {
            window_start: window_start_of(now, alert.unresolved_time_threshold->0) as i64,
        }
    } else if alert.rate_threshold is Some {
        AlertCheck::Rate {
            window_start: window_start_of(now, alert.rate_time_window->0) as i64,
            threshold: alert.rate_threshold->0,
            time_window: alert.rate_time_window->0,
        }
    } else {
        AlertCheck::Nothing
    }
}

/// The alert's settings are complete for its first check: a count threshold
/// comes with a time window whose start chrono can represent.
pub open spec fn alert_check_defined(alert: AlertRecord, now: i64) -> bool {
    alert.count_threshold is Some ==> alert.time_window is Some && window_defined(now, alert.time_window->0)
}

/// The alert's settings are complete for the check after its count check:
/// the window of an unresolved-time threshold, or the rate window of a rate
/// threshold, is set and starts at an instant chrono can represent.
pub open spec fn follow_up_defined(alert: AlertRecord, now: i64) -> bool {
    if alert.unresolved_time_threshold is Some {
        window_defined(now, alert.unresolved_time_threshold->0)
    } else if alert.rate_threshold is Some {
        alert.rate_time_window is Some && window_defined(now, alert.rate_time_window->0)
    } else {
        true
    }
}

/// Both `now` and the start of a window of `window` milliseconds ending at
/// `now` are instants chrono can represent.
pub open spec fn window_defined(now: i64, window: i64) -> bool {
    representable(now as int) && representable(window_start_of(now, window))
}

/// `window` milliseconds in whole minutes, rounded toward zero.
fn whole_minutes(window: i64) -> (m: i64)
    ensures
        m * 60000 == whole_minutes_ms(window),
        -153722867280912 <= m <= 153722867280912,
{
    if window >= 0 {
        window / 60000
    } else {
        0 - ((0 - (window as i128)) / 60000) as i64
    }
}

/// chrono's `DateTime<Utc> - Duration::minutes(minutes)` on the instant
/// `now` milliseconds after the Unix epoch, in milliseconds again. chrono
/// holds the instants from the start of year -262143 to the end of year
/// 262142 (the two constants above); the result is `None` where `now` or the
/// instant `minutes` whole minutes before it lies outside that range.
#[verifier::external_body]
fn minutes_before(now: i64, minutes: i64) -> (r: Option<i64>)
    requires
        -153722867280912 <= minutes <= 153722867280912,
    ensures
        r == (if representable(now as int) && representable(now - minutes * 60000) {
            Some((now - minutes * 60000) as i64)
        } else {
            None::<i64>
        }),
{
    let at = chrono::DateTime::from_timestamp_millis(now)?;
    let start = at.checked_sub_signed(chrono::Duration::minutes(minutes))?;
    Some(start.timestamp_millis())
}

fn window_start(now: i64, window: i64) -> (r: i64)
    requires
        window_defined(now, window),
    ensures
        r == window_start_of(now, window),
{
    let minutes = whole_minutes(window);
    match minutes_before(now, minutes) {
        Some(t) => t,
        None => now,
    }
}

/// Decides which check an alert needs at time `now`.
pub fn alert_check(alert: &AlertRecord, now: i64) -> (r: AlertCheck)
    requires
        alert_check_defined(*alert, now),
    ensures
        r == spec_alert_check(*alert, now),
        alert.count_threshold is None ==> r is Nothing,
        alert.count_threshold matches Some(t) ==> r is Count && r->Count_threshold == t,
{
    if let Some(threshold) = alert.count_threshold {
        let tw = alert.time_window.unwrap();
        AlertCheck::Count { window_start: window_start(now, tw), threshold }
    } else {
        AlertCheck::Nothing
    }
}

/// Decides which check follows a count check that did not fire, at time `now`.
pub fn follow_up_check(alert: &AlertRecord, now: i64) -> (r: AlertCheck)
    requires
        follow_up_defined(*alert, now),
    ensures
        r == spec_follow_up(*alert, now),
        alert.unresolved_time_threshold is Some ==> r is Unresolved,
        alert.rate_threshold matches Some(t) ==> alert.unresolved_time_threshold is None
            ==> r is Rate && r->Rate_threshold == t && Some(r->time_window) == alert.rate_time_window,
        alert.unresolved_time_threshold is None && alert.rate_threshold is None ==> r is Nothing,
{
    if let Some(unresolved) = alert.unresolved_time_threshold {
        AlertCheck::Unresolved { window_start: window_start(now, unresolved) }
    } else if let Some(threshold) = alert.rate_threshold {
        let tw = alert.rate_time_window.unwrap();
        AlertCheck::Rate { window_start: window_start(now, tw), threshold, time_window: tw }
    } else {
        AlertCheck::Nothing
    }
}

/// What the database answered to an alert's check.
#[derive(Debug, PartialEq, Eq, Structural, Clone, Copy)]
pub enum CheckAnswer {
    /// The number of matching errors in the window.
    Count(u64),
    /// The number of unresolved errors in the window.
    Unresolved(u64),
    /// Whether the rate of matching errors exceeds the threshold.
    RateExceeded(bool),
}

/// An alert fires when its count exceeds the threshold (compared as the
/// threshold's unsigned 64-bit value), when any unresolved error is found, or
/// when the rate exceeds its threshold.
pub open spec fn spec_should_fire(check: AlertCheck, answer: CheckAnswer) -> bool {
    match (check, answer) {
        (AlertCheck::Count { threshold, .. }, CheckAnswer::Count(n)) => n > (threshold as u64),
        (AlertCheck::Unresolved { .. }, CheckAnswer::Unresolved(n)) => n > 0,
        (AlertCheck::Rate { .. }, CheckAnswer::RateExceeded(b)) => b,
        _ => false,
    }
}

/// Decides whether an alert fires given the answer to its check.
pub fn should_fire(check: AlertCheck, answer: CheckAnswer) -> (r: bool)
    ensures
        r == spec_should_fire(check, answer),
        answer is Count && check is Count ==> (r <==> answer->Count_0 > (check->Count_threshold as u64)),
        answer is Unresolved && check is Unresolved ==> (r <==> answer->Unresolved_0 > 0),
        answer is RateExceeded && check is Rate ==> r == answer->RateExceeded_0,
        check is Nothing ==> !r,
{
    match (check, answer) {
        (AlertCheck::Count { threshold, .. }, CheckAnswer::Count(n)) => n > (threshold as u64),
        (AlertCheck::Unresolved { .. }, CheckAnswer::Unresolved(n)) => n > 0,
        (AlertCheck::Rate { .. }, CheckAnswer::RateExceeded(b)) => b,
        _ => false,
    }
}

/// The Discord channel an alert posts to: its channel id read as a `u64`;
/// an alert without one, or with one that is not a number, is
/// `DiscordChannelNotFound`.
pub open spec fn spec_discord_channel(alert: AlertRecord) -> Result<u64, ServerError> {
    match opt_str(alert.discord_channel_id) {
        Some(s) => match spec_parse_unsigned(s, u64::MAX as int) {
            Some(v) => Ok(v as u64),
            None => Err(ServerError::QueryError(QueryError::DiscordChannelNotFound)),
        },
        None => Err(ServerError::QueryError(QueryError::DiscordChannelNotFound)),
    }
}

/// Reads the Discord channel an alert posts to.
pub fn discord_channel(alert: &AlertRecord) -> (r: Result<u64, ServerError>)
    ensures
        r == spec_discord_channel(*alert),
{
    match &alert.discord_channel_id {
        Some(s) => {
            let cs = str_chars(s.as_str());
            match parse_unsigned(&cs, u64::MAX) {
                Some(v) => Ok(v),
                None => Err(ServerError::QueryError(QueryError::DiscordChannelNotFound)),
            }
        },
        None => Err(ServerError::QueryError(QueryError::DiscordChannelNotFound)),
    }
}

/// The notice a subscriber receives when an alert fires.
pub open spec fn spec_alert_notice(alert_id: u128, namespace_id: u128) -> Seq<char> {
    "Alert "@ + uuid_hyphenated(alert_id)
        + " has been triggered for a namespace you are subscribed to by the ID of "@
        + uuid_hyphenated(namespace_id)
}

/// Builds the notice a subscriber receives when an alert fires.
pub fn alert_notice(alert: &AlertRecord) -> (r: String)
    ensures
        r@ == spec_alert_notice(alert.id, alert.namespace_id),
{
    let mut r = String::new();
    r.append("Alert ");
    let a = uuid_text(alert.id);
    r.append(a.as_str());
    r.append(" has been triggered for a namespace you are subscribed to by the ID of ");
    let n = uuid_text(alert.namespace_id);
    r.append(n.as_str());
    r
}

/// The Discord message of a fired alert; `created_text` is the alert's
/// creation time as displayed.
pub fn discord_alert_text(alert: &AlertRecord, created_text: &String) -> (r: String)
    ensures
        r@ == spec_alert_notice(alert.id, alert.namespace_id) + " at "@ + created_text@ + "."@,
{
    let mut r = alert_notice(alert);
    r.append(" at ");
    r.append(created_text.as_str());
    r.append(".");
    r
}

/// Parses a reported stack trace for a new error; a trace with no lines is
/// `StackTraceParsingError`.
pub fn parse_reported_trace(stack_trace: &String) -> (r: Result<StackTraceInfo, ServerError>)
    requires
        trace_frames_ok(stack_trace@),
    ensures
        r is Err <==> spec_lines(stack_trace@).len() == 0,
        r matches Err(e) ==> e == ServerError::RequestError(RequestError::StackTraceParsingError),
        r matches Ok(info) ==> info@ == spec_trace_info(spec_lines(stack_trace@)),
{
    match parse_stack_trace(stack_trace) {
        Ok(info) => Ok(info),
        Err(_) => Err(ServerError::RequestError(RequestError::StackTraceParsingError)),
    }
}

/// Whether every frame line of a trace that gives a line number gives one that
/// reads as an `i32` (the condition for parsing the trace).
pub fn trace_frames_readable(stack_trace: &String) -> (r: bool)
    ensures
        r == trace_frames_ok(stack_trace@),
{
    let text = str_chars(stack_trace.as_str());
    let lines = split_lines(&text);
    let mut i: usize = 1;
    while i < lines.len()
        invariant
            lines@.len() == spec_lines(stack_trace@).len(),
            forall|j: int| 0 <= j < lines@.len() ==> #[trigger] lines@[j]@ == spec_lines(stack_trace@)[j],
            1 <= i,
            forall|j: int| 1 <= j < i && j < lines@.len() ==> #[trigger] frame_line_ok(spec_lines(stack_trace@)[j]),
        decreases lines@.len() - i,
    {
        let words = split_words(&lines[i]);
        if words.len() > 1 {
            let parts = split_on(&words[1], ':');
            if parts.len() > 1 {
                if parse_i32(&parts[1]).is_none() {
                    assert(!frame_line_ok(spec_lines(stack_trace@)[i as int]));
                    return false;
                }
            }
        }
        assert(frame_line_ok(spec_lines(stack_trace@)[i as int]));
        i = i + 1;
    }
    true
}

}

verus! {

/// The settings of a new alert.
#[derive(Debug, Clone)]
pub struct NewAlert {
    pub namespace_id: u128,
    pub alert_method: String,
    pub discord_channel_id: Option<String>,
    pub path: Option<String>,
    pub line: Option<i32>,
    pub message: Option<String>,
    pub stack_trace: Option<String>,
    pub count_threshold: Option<i32>,
    pub time_window: Option<i64>,
    pub unresolved_time_threshold: Option<i64>,
    pub rate_threshold: Option<i32>,
    pub rate_time_window: Option<i64>,
}

/// The stored alert for new settings: id `id`, not triggered, created and
/// updated `now`.
pub fn new_alert_record(a: NewAlert, id: u128, now: i64) -> (r: AlertRecord)
    ensures
        r.id == id && r.namespace_id == a.namespace_id && r.alert_method == a.alert_method
            && r.discord_channel_id == a.discord_channel_id && r.path == a.path && r.line == a.line
            && r.message == a.message && r.stack_trace == a.stack_trace
            && r.count_threshold == a.count_threshold && r.time_window == a.time_window
            && r.unresolved_time_threshold == a.unresolved_time_threshold
            && r.rate_threshold == a.rate_threshold && r.rate_time_window == a.rate_time_window
            && !r.triggered && r.created_at == now && r.updated_at == now,
{
    AlertRecord {
        id,
        namespace_id: a.namespace_id,
        alert_method: a.alert_method,
        discord_channel_id: a.discord_channel_id,
        path: a.path,
        line: a.line,
        message: a.message,
        stack_trace: a.stack_trace,
        count_threshold: a.count_threshold,
        time_window: a.time_window,
        unresolved_time_threshold: a.unresolved_time_threshold,
        rate_threshold: a.rate_threshold,
        rate_time_window: a.rate_time_window,
        triggered: false,
        created_at: now,
        updated_at: now,
    }
}

/// The changes an alert update asks for; an absent field stays.
#[derive(Debug, Clone)]
pub struct AlertUpdate {
    pub alert_method: Option<String>,
    pub path: Option<String>,
    pub line: Option<i32>,
    pub message: Option<String>,
    pub stack_trace: Option<String>,
    pub count_threshold: Option<i32>,
    pub time_window: Option<i64>,
    pub unresolved_time_threshold: Option<i64>,
    pub rate_threshold: Option<i32>,
    pub rate_time_window: Option<i64>,
}

pub open spec fn or_keep<T>(new: Option<T>, old: T) -> T {
    match new {
        Some(v) => v,
        None => old,
    }
}

pub open spec fn or_keep_opt<T>(new: Option<T>, old: Option<T>) -> Option<T> {
    match new {
        Some(v) => Some(v),
        None => old,
    }
}

/// An alert after an update: each field given replaces the stored one, the
/// others stay, and the alert is stamped `now`.
pub open spec fn spec_apply_alert_update(a: AlertRecord, u: AlertUpdate, now: i64) -> AlertRecord {
    AlertRecord {
        alert_method: or_keep(u.alert_method, a.alert_method),
        path: or_keep_opt(u.path, a.path),
        line: or_keep_opt(u.line, a.line),
        message: or_keep_opt(u.message, a.message),
        stack_trace: or_keep_opt(u.stack_trace, a.stack_trace),
        count_threshold: or_keep_opt(u.count_threshold, a.count_threshold),
        time_window: or_keep_opt(u.time_window, a.time_window),
        unresolved_time_threshold: or_keep_opt(u.unresolved_time_threshold, a.unresolved_time_threshold),
        rate_threshold: or_keep_opt(u.rate_threshold, a.rate_threshold),
        rate_time_window: or_keep_opt(u.rate_time_window, a.rate_time_window),
        updated_at: now,
        ..a
    }
}

/// `r` is `a` with the update `u` made at `now`: every field the update
/// gives holds the given value, every other field is the stored one, and the
/// update time is `now`.
pub open spec fn alert_update_applied(a: AlertRecord, u: AlertUpdate, now: i64, r: AlertRecord) -> bool {
    &&& (u.alert_method matches Some(m) ==> r.alert_method == m) && (u.alert_method is None ==> r.alert_method == a.alert_method)
    &&& (u.path matches Some(p) ==> r.path == Some(p)) && (u.path is None ==> r.path == a.path)
    &&& (u.line matches Some(l) ==> r.line == Some(l)) && (u.line is None ==> r.line == a.line)
    &&& (u.message matches Some(m) ==> r.message == Some(m)) && (u.message is None ==> r.message == a.message)
    &&& (u.stack_trace matches Some(t) ==> r.stack_trace == Some(t)) && (u.stack_trace is None ==> r.stack_trace == a.stack_trace)
    &&& (u.count_threshold matches Some(c) ==> r.count_threshold == Some(c))
        && (u.count_threshold is None ==> r.count_threshold == a.count_threshold)
    &&& (u.time_window matches Some(w) ==> r.time_window == Some(w)) && (u.time_window is None ==> r.time_window == a.time_window)
    &&& (u.unresolved_time_threshold matches Some(t) ==> r.unresolved_time_threshold == Some(t))
        && (u.unresolved_time_threshold is None ==> r.unresolved_time_threshold == a.unresolved_time_threshold)
    &&& (u.rate_threshold matches Some(t) ==> r.rate_threshold == Some(t))
        && (u.rate_threshold is None ==> r.rate_threshold == a.rate_threshold)
    &&& (u.rate_time_window matches Some(w) ==> r.rate_time_window == Some(w))
        && (u.rate_time_window is None ==> r.rate_time_window == a.rate_time_window)
    &&& r.id == a.id && r.namespace_id == a.namespace_id && r.discord_channel_id == a.discord_channel_id
    &&& r.triggered == a.triggered && r.created_at == a.created_at
    &&& r.updated_at == now
}

/// Updating an alert sets each field the update gives, keeps every other
/// field, and stamps the update time.
pub proof fn lemma_alert_update_sets_given_fields(a: AlertRecord, u: AlertUpdate, now: i64)
    ensures
        alert_update_applied(a, u, now, spec_apply_alert_update(a, u, now)),
{
}

/// The filters of an alert decide which errors it concerns: a triggered
/// alert concerns none, a path, line or message filter that differs from the
/// error's excludes it, and an untriggered alert without filters concerns
/// every error.
pub proof fn lemma_alert_filters(alert: AlertRecord, file_path: Seq<char>, line: i32, message: Seq<char>)
    ensures
        alert.triggered ==> !spec_alert_applies(alert, file_path, line, message),
        alert.path matches Some(p) && p@ != file_path ==> !spec_alert_applies(alert, file_path, line, message),
        alert.line matches Some(l) && l != line ==> !spec_alert_applies(alert, file_path, line, message),
        alert.message matches Some(m) && m@ != message ==> !spec_alert_applies(alert, file_path, line, message),
        !alert.triggered && alert.path is None && alert.line is None && alert.message is None
            ==> spec_alert_applies(alert, file_path, line, message),
{
}

/// When an alert fires: a count check exactly when more errors than the
/// threshold were counted, an unresolved check exactly when at least one
/// unresolved error was found (none found never fires), a rate check exactly
/// when the rate exceeded its threshold; an answer of another kind, or no
/// check, never fires.
pub proof fn lemma_when_alerts_fire(check: AlertCheck, answer: CheckAnswer)
    ensures
        answer is Count && check is Count ==> (spec_should_fire(check, answer) <==> answer->Count_0 > (check->Count_threshold as u64)),
        answer is Unresolved && check is Unresolved ==> (spec_should_fire(check, answer) <==> answer->Unresolved_0 > 0),
        answer is RateExceeded && check is Rate ==> spec_should_fire(check, answer) == answer->RateExceeded_0,
        check is Count && !(answer is Count) ==> !spec_should_fire(check, answer),
        check is Unresolved && !(answer is Unresolved) ==> !spec_should_fire(check, answer),
        check is Rate && !(answer is RateExceeded) ==> !spec_should_fire(check, answer),
        check is Nothing ==> !spec_should_fire(check, answer),
{
}

/// Applies an update to an alert.
pub fn apply_alert_update(a: AlertRecord, u: AlertUpdate, now: i64) -> (r: AlertRecord)
    ensures
        r == spec_apply_alert_update(a, u, now),
        alert_update_applied(a, u, now, r),
{
    let mut r = a;
    if let Some(m) = u.alert_method {
        r.alert_method = m;
    }
    if let Some(p) = u.path {
        r.path = Some(p);
    }
    if let Some(l) = u.line {
        r.line = Some(l);
    }
    if let Some(m) = u.message {
        r.message = Some(m);
    }
    if let Some(s) = u.stack_trace {
        r.stack_trace = Some(s);
    }
    if let Some(c) = u.count_threshold {
        r.count_threshold = Some(c);
    }
    if let Some(w) = u.time_window {
        r.time_window = Some(w);
    }
    if let Some(t) = u.unresolved_time_threshold {
        r.unresolved_time_threshold = Some(t);
    }
    if let Some(t) = u.rate_threshold {
        r.rate_threshold = Some(t);
    }
    if let Some(w) = u.rate_time_window {
        r.rate_time_window = Some(w);
    }
    r.updated_at = now;
    r
}

/// Applying the same update twice at the same time gives what applying it once does.
pub proof fn lemma_alert_update_idempotent(a: AlertRecord, u: AlertUpdate, now: i64)
    ensures
        spec_apply_alert_update(spec_apply_alert_update(a, u, now), u, now) == spec_apply_alert_update(a, u, now),
{
}

/// Whether a user may subscribe to an alert: only a member of the alert's
/// namespace (else `UserNotNamespaceMember`) who is not yet subscribed (else
/// `UserAlreadySubscribed`).
pub fn check_alert_subscription(is_member: bool, already_subscribed: bool) -> (r: Result<(), ServerError>)
    ensures
        !is_member ==> r == Err::<(), ServerError>(ServerError::QueryError(QueryError::UserNotNamespaceMember)),
        is_member && already_subscribed ==> r == Err::<(), ServerError>(ServerError::QueryError(QueryError::UserAlreadySubscribed)),
        is_member && !already_subscribed ==> r is Ok,
{
    if !is_member {
        Err(ServerError::QueryError(QueryError::UserNotNamespaceMember))
    } else if already_subscribed {
        Err(ServerError::QueryError(QueryError::UserAlreadySubscribed))
    } else {
        Ok(())
    }
}

/// Whether a user may unsubscribe: only one who is subscribed (else `UserNotFound`).
pub fn check_alert_unsubscription(subscribed: bool) -> (r: Result<(), ServerError>)
    ensures
        subscribed ==> r is Ok,
        !subscribed ==> r == Err::<(), ServerError>(ServerError::QueryError(QueryError::UserNotFound)),
{
    if subscribed {
        Ok(())
    } else {
        Err(ServerError::QueryError(QueryError::UserNotFound))
    }
}

/// An alert can be deleted or updated only when it exists (else `NamespaceAlertNotFound`).
pub fn check_alert_found(found: bool) -> (r: Result<(), ServerError>)
    ensures
        found ==> r is Ok,
        !found ==> r == Err::<(), ServerError>(ServerError::QueryError(QueryError::NamespaceAlertNotFound)),
{
    if found {
        Ok(())
    } else {
        Err(ServerError::QueryError(QueryError::NamespaceAlertNotFound))
    }
}

} // verus!

verus! {

fn window_representable(now: i64, window: i64) -> (r: bool)
    ensures
        r == window_defined(now, window),
{
    minutes_before(now, whole_minutes(window)).is_some()
}

/// Whether an alert's settings are complete for its first check at `now`
/// (the condition for deciding it).
pub fn check_defined(alert: &AlertRecord, now: i64) -> (r: bool)
    ensures
        r == alert_check_defined(*alert, now),
{
    if alert.count_threshold.is_some() {
        match alert.time_window {
            Some(w) => window_representable(now, w),
            None => false,
        }
    } else {
        true
    }
}

/// Whether an alert's settings are complete for the check after its count
/// check at `now` (the condition for deciding that check).
pub fn check_follow_up_defined(alert: &AlertRecord, now: i64) -> (r: bool)
    ensures
        r == follow_up_defined(*alert, now),
{
    if let Some(u) = alert.unresolved_time_threshold {
        window_representable(now, u)
    } else if alert.rate_threshold.is_some() {
        match alert.rate_time_window {
            Some(w) => window_representable(now, w),
            None => false,
        }
    } else {
        true
    }
}

} // verus!
