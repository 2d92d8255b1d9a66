//! Reporting a new error. The exchange parses the error's stack trace, finds
//! its namespace, runs each alert of the namespace that concerns the error
//! for each of the alert's subscribers, marks the alerts that fired, and
//! stores the error with its tags. The decisions are made here, one event at
//! a time; the caller performs each action and reports what came of it.
use vstd::prelude::*;
use vstd::string::StringExecFns;
use crate::aggregate::ErrorRecord;
use crate::alerts::{
    alert_applies, alert_check, alert_check_defined, alert_method, alert_notice, discord_alert_text,
    discord_channel, follow_up_check, follow_up_defined, parse_reported_trace, should_fire,
    spec_alert_applies, spec_alert_check, spec_follow_up,
    spec_alert_method, spec_alert_notice, spec_discord_channel, spec_should_fire, AlertCheck,
    AlertMethod, AlertRecord, CheckAnswer,
};
use crate::errors::{QueryError, RequestError, ServerError};
use crate::mailing::{
    alert_mail_view, count_alert_mail, count_details, rate_alert_mail, rate_details,
    unresolved_alert_mail, unresolved_details, EmailContent,
};
use crate::parse::{spec_trace_info, trace_frames_ok, StackTraceInfo};
use crate::text::spec_lines;

verus! {

/// A tag sent along with a reported error.
#[derive(Debug, Clone)]
pub struct TagPair {
    pub tag_key: String,
    pub tag_value: String,
}

/// An error as a client reports it.
#[derive(Debug, Clone)]
pub struct ReportRequest {
    pub message: String,
    pub stack_trace: String,
    pub user_affected: String,
    pub tags: Option<Vec<TagPair>>,
}

/// A tag to store for a new error.
#[derive(Debug, Clone)]
pub struct TagRequest {
    pub tag_key: String,
    pub tag_value: String,
    pub error_id: u128,
}

/// What the reporter is told of the stored error.
#[derive(Debug, Clone)]
pub struct CreatedError {
    pub id: u128,
    pub message: String,
    pub resolved: bool,
    pub namespace_id: u128,
    pub stack_trace: String,
    pub user_affected: String,
}

/// The subscriber an alert notifies.
#[derive(Debug, Clone)]
pub struct UserContact {
    pub id: u128,
    pub email: String,
}

/// A notification stored for (and broadcast to) one user.
#[derive(Debug, Clone)]
pub struct AlertNotification {
    pub id: u128,
    pub user_id: u128,
    pub title: String,
    pub text: String,
    pub source: String,
    pub is_read: bool,
    pub created_at: i64,
}

/// What an exchange knows from the start: the request, its parsed trace,
/// the namespace's client id, the id the new error gets, the time (in
/// milliseconds, and as displayed), and the server's domain.
pub struct ReportContext {
    pub request: ReportRequest,
    pub info: StackTraceInfo,
    pub client_id: u128,
    pub error_id: u128,
    pub now: i64,
    pub now_text: String,
    pub domain: String,
}

/// Where an exchange stands: what it waits for.
#[derive(Debug, Clone, Copy, PartialEq, Eq, Structural)]
pub enum ReportPhase {
    AwaitNamespace,
    AwaitAlerts,
    AwaitSubscribers,
    AwaitAnswer,
    AwaitUser,
    AwaitNotified,
    AwaitSent,
    AwaitMarked,
    AwaitStored,
    Finished,
}

/// The state of one exchange.
pub struct ReportState {
    pub ctx: ReportContext,
    pub phase: ReportPhase,
    pub namespace_id: u128,
    /// The namespace's alerts, and each one's creation time as displayed.
    pub alerts: Vec<AlertRecord>,
    pub alert_times: Vec<String>,
    /// The alert being run.
    pub alert_idx: usize,
    /// Its subscribers, and the one being served.
    pub subscribers: Vec<u128>,
    pub sub_idx: usize,
    pub method: AlertMethod,
    /// The alert's first check (its count check), and the check being run:
    /// the first one, or the one that follows it when it did not fire.
    pub first_check: AlertCheck,
    pub check: AlertCheck,
    /// The e-mail to send once the subscriber has been notified.
    pub mail: Option<EmailContent>,
    pub contact: Option<UserContact>,
    /// The alerts that fired, once per delivery.
    pub alerts_sent: Vec<u128>,
}

/// What the caller reports back.
pub enum ReportEvent {
    /// The namespace with the client id, if there is one.
    Namespace(Option<u128>),
    /// The namespace's alerts, with their creation times as displayed.
    Alerts(Vec<AlertRecord>, Vec<String>),
    /// The users subscribed to the current alert.
    Subscribers(Vec<u128>),
    /// The number of errors a count check found.
    Counted(u64),
    /// The unresolved errors an unresolved check found.
    Unresolved(Vec<u128>),
    /// Whether the rate check's rate exceeds its threshold, and the rate as displayed.
    Rated(bool, String),
    /// The subscriber's record, if there is one, and an id for the notification.
    User(Option<UserContact>, u128),
    Notified,
    Sent,
    Marked,
    Stored,
}

/// What the caller is asked to do next.
pub enum ReportAction {
    FindNamespace(u128),
    LoadAlerts(u128),
    LoadSubscribers(u128),
    /// Answer the alert's check: count the namespace's errors created after
    /// the check's window start matching the alert's filters (count and rate
    /// checks), or list its unresolved errors created after it.
    RunCheck { namespace_id: u128, check: AlertCheck, path: Option<String>, line: Option<i32>, message: Option<String> },
    FindUser(u128),
    /// Store the notification and broadcast it to its user.
    Notify(AlertNotification),
    SendEmail { to: String, subject: String, content: EmailContent },
    SendDiscord { channel: u64, text: String },
    /// Mark these alerts as triggered.
    MarkTriggered(Vec<u128>),
    /// Store the error and its tags.
    Store(ErrorRecord, Vec<TagRequest>),
    Done(CreatedError),
    Fail(ServerError),
}

/// Whether `a` concerns the reported error.
pub open spec fn concerns(c: ReportContext, a: AlertRecord) -> bool {
    spec_alert_applies(a, c.info.file_path@, c.info.line_number, c.request.message@)
}

/// The first alert at or after `from` that concerns the error (the number of
/// alerts when none does).
pub open spec fn next_concerned(c: ReportContext, alerts: Seq<AlertRecord>, from: int) -> int
    decreases alerts.len() - from,
{
    if from >= alerts.len() {
        alerts.len() as int
    } else if concerns(c, alerts[from]) {
        from
    } else {
        next_concerned(c, alerts, from + 1)
    }
}

/// Moving on from `from`, the exchange skips exactly the alerts that do not
/// concern the error (already triggered, or with a path, line or message
/// filter the error does not match) and stops at the first that does.
pub proof fn lemma_next_concerned(c: ReportContext, alerts: Seq<AlertRecord>, from: int)
    requires
        0 <= from <= alerts.len(),
    ensures
        from <= next_concerned(c, alerts, from) <= alerts.len(),
        next_concerned(c, alerts, from) < alerts.len() ==> concerns(c, alerts[next_concerned(c, alerts, from)]),
        forall|k: int| from <= k < next_concerned(c, alerts, from) ==> !concerns(c, #[trigger] alerts[k]),
    decreases alerts.len() - from,
{
    if from < alerts.len() && !concerns(c, alerts[from]) {
        lemma_next_concerned(c, alerts, from + 1);
    }
}

/// An alert whose path, line or message filter differs from the reported
/// error's, or that fired before, is never the one the exchange moves to:
/// moving on from any position skips it.
pub proof fn lemma_filtered_alert_never_selected(c: ReportContext, alerts: Seq<AlertRecord>, from: int, k: int)
    requires
        0 <= from <= alerts.len(),
        0 <= k < alerts.len(),
        alerts[k].triggered
            || (alerts[k].path matches Some(p) && p@ != c.info.file_path@)
            || (alerts[k].line matches Some(l) && l != c.info.line_number)
            || (alerts[k].message matches Some(m) && m@ != c.request.message@),
    ensures
        next_concerned(c, alerts, from) != k,
{
    lemma_next_concerned(c, alerts, from);
    crate::alerts::lemma_alert_filters(alerts[k], c.info.file_path@, c.info.line_number, c.request.message@);
}

/// Only alerts that had not fired before and concern the reported error are
/// ever marked as triggered: every id the exchange collects names such an alert.
pub proof fn lemma_sent_alerts_concern(s: ReportState)
    requires
        s.wf(),
    ensures
        forall|k: int| 0 <= k < s.alerts_sent@.len() ==> names_fresh_concerned_alert(s.ctx, s.alerts@, #[trigger] s.alerts_sent@[k]),
{
    assert forall|k: int| 0 <= k < s.alerts_sent@.len() implies names_fresh_concerned_alert(s.ctx, s.alerts@, #[trigger] s.alerts_sent@[k]) by {
        assert(names_concerned_alert(s.ctx, s.alerts@, s.alerts_sent@[k]));
        let j = choose|j: int| 0 <= j < s.alerts@.len() && #[trigger] s.alerts@[j].id == s.alerts_sent@[k] && concerns(s.ctx, s.alerts@[j]);
        assert(s.alerts@[j].id == s.alerts_sent@[k] && !s.alerts@[j].triggered);
    }
}

/// `id` is the id of one of `alerts` that had not fired and concerns the error.
pub open spec fn names_fresh_concerned_alert(c: ReportContext, alerts: Seq<AlertRecord>, id: u128) -> bool {
    exists|j: int| 0 <= j < alerts.len() && #[trigger] alerts[j].id == id && !alerts[j].triggered && concerns(c, alerts[j])
}

/// `id` is the id of one of `alerts` that concerns the error.
pub open spec fn names_concerned_alert(c: ReportContext, alerts: Seq<AlertRecord>, id: u128) -> bool {
    exists|j: int| 0 <= j < alerts.len() && #[trigger] alerts[j].id == id && concerns(c, alerts[j])
}

impl ReportState {
    pub open spec fn current(self) -> AlertRecord {
        self.alerts@[self.alert_idx as int]
    }

    pub open spec fn serving(self) -> bool {
        self.phase == ReportPhase::AwaitAnswer || self.phase == ReportPhase::AwaitUser
            || self.phase == ReportPhase::AwaitNotified || self.phase == ReportPhase::AwaitSent
    }

    /// The state's invariant.
    pub open spec fn wf(self) -> bool {
        &&& self.alerts@.len() == self.alert_times@.len()
        &&& self.alert_idx <= self.alerts@.len()
        &&& (self.phase == ReportPhase::AwaitSubscribers || self.serving()) ==> self.alert_idx < self.alerts@.len()
            && concerns(self.ctx, self.current())
        &&& self.serving() ==> {
            &&& self.sub_idx < self.subscribers@.len()
            &&& spec_alert_method(self.current().alert_method@) == Ok::<AlertMethod, ServerError>(self.method)
            &&& self.first_check == spec_alert_check(self.current(), self.ctx.now)
            &&& self.first_check != AlertCheck::Nothing
            &&& self.check == self.first_check || self.check == spec_follow_up(self.current(), self.ctx.now)
            &&& self.check != AlertCheck::Nothing
        }
        &&& (self.phase == ReportPhase::AwaitUser || self.phase == ReportPhase::AwaitNotified)
            && self.method == AlertMethod::Email ==> self.mail is Some
        &&& (self.phase == ReportPhase::AwaitNotified || self.phase == ReportPhase::AwaitSent) ==> self.contact is Some
        &&& (self.phase == ReportPhase::AwaitNamespace || self.phase == ReportPhase::AwaitAlerts) ==> self.alerts_sent@.len() == 0
        &&& forall|k: int| 0 <= k < self.alerts_sent@.len() ==> names_concerned_alert(self.ctx, self.alerts@, #[trigger] self.alerts_sent@[k])
    }
}

/// The event is one the phase waits for.
pub open spec fn event_fits(p: ReportPhase, ev: ReportEvent) -> bool {
    match ev {
        ReportEvent::Namespace(_) => p == ReportPhase::AwaitNamespace,
        ReportEvent::Alerts(a, t) => p == ReportPhase::AwaitAlerts && a@.len() == t@.len(),
        ReportEvent::Subscribers(_) => p == ReportPhase::AwaitSubscribers,
        ReportEvent::Counted(_) => p == ReportPhase::AwaitAnswer,
        ReportEvent::Unresolved(_) => p == ReportPhase::AwaitAnswer,
        ReportEvent::Rated(_, _) => p == ReportPhase::AwaitAnswer,
        ReportEvent::User(_, _) => p == ReportPhase::AwaitUser,
        ReportEvent::Notified => p == ReportPhase::AwaitNotified,
        ReportEvent::Sent => p == ReportPhase::AwaitSent,
        ReportEvent::Marked => p == ReportPhase::AwaitMarked,
        ReportEvent::Stored => p == ReportPhase::AwaitStored,
    }
}

/// The event answers a check.
pub open spec fn is_answer(ev: ReportEvent) -> bool {
    ev is Counted || ev is Unresolved || ev is Rated
}

/// The answer an event gives to a check.
pub open spec fn answer_of(ev: ReportEvent) -> CheckAnswer {
    match ev {
        ReportEvent::Counted(n) => CheckAnswer::Count(n),
        ReportEvent::Unresolved(ids) => CheckAnswer::Unresolved(ids@.len() as u64),
        ReportEvent::Rated(b, _) => CheckAnswer::RateExceeded(b),
        _ => CheckAnswer::RateExceeded(false),
    }
}

/// The highlighted block of the e-mail of a fired alert.
pub open spec fn mail_details(check: AlertCheck, ev: ReportEvent, now_text: Seq<char>, alert_id: u128) -> Seq<char> {
    match (check, ev) {
        (AlertCheck::Count { threshold, .. }, _) => count_details(threshold, now_text),
        (AlertCheck::Unresolved { .. }, ReportEvent::Unresolved(ids)) => unresolved_details(ids@),
        (AlertCheck::Rate { threshold, .. }, ReportEvent::Rated(_, text)) => rate_details(text@, threshold, alert_id),
        _ => Seq::empty(),
    }
}

/// The fields that stay while the exchange moves between alerts.
pub open spec fn keeps(s: ReportState, t: ReportState) -> bool {
    &&& t.ctx == s.ctx
    &&& t.namespace_id == s.namespace_id
    &&& t.alerts == s.alerts
    &&& t.alert_times == s.alert_times
}

/// The fields that stay while the exchange serves one alert.
pub open spec fn keeps_alert(s: ReportState, t: ReportState) -> bool {
    &&& keeps(s, t)
    &&& t.alert_idx == s.alert_idx
    &&& t.subscribers == s.subscribers
    &&& t.method == s.method
    &&& t.first_check == s.first_check
    &&& t.check == s.check
}

/// The exchange has moved to the first alert at or after `from` that
/// concerns the error, asking for its subscribers, or, when none is left,
/// asks to mark the alerts that fired.
pub open spec fn lands_on_alert(t: ReportState, from: int, act: ReportAction) -> bool {
    let j = next_concerned(t.ctx, t.alerts@, from);
    &&& t.alert_idx == j
    &&& if j < t.alerts@.len() {
        t.phase == ReportPhase::AwaitSubscribers && act == ReportAction::LoadSubscribers(t.alerts@[j].id)
    } else {
        t.phase == ReportPhase::AwaitMarked && (act matches ReportAction::MarkTriggered(v) && v@ == t.alerts_sent@)
    }
}

/// The action runs the current alert's check.
pub open spec fn is_run_check(t: ReportState, act: ReportAction) -> bool {
    let a = t.current();
    act matches ReportAction::RunCheck { namespace_id, check, path, line, message }
        && namespace_id == t.namespace_id && check == t.check && path == a.path && line == a.line
        && message == a.message
}

/// The exchange stays on the current alert and asks to run `check` for its
/// subscriber `sub`.
pub open spec fn runs_check_for(s: ReportState, t: ReportState, sub: int, check: AlertCheck, act: ReportAction) -> bool {
    &&& keeps(s, t)
    &&& t.alert_idx == s.alert_idx
    &&& t.subscribers == s.subscribers
    &&& t.method == s.method
    &&& t.first_check == s.first_check
    &&& t.check == check
    &&& t.sub_idx == sub
    &&& t.phase == ReportPhase::AwaitAnswer
    &&& is_run_check(t, act)
}

/// The exchange serves subscriber `next` of the current alert (starting from
/// the alert's first check), or moves on
/// to the alerts after it when there is no such subscriber.
pub open spec fn lands_on_subscriber(s: ReportState, t: ReportState, next: int, act: ReportAction) -> bool {
    if next < s.subscribers@.len() {
        runs_check_for(s, t, next, s.first_check, act)
    } else {
        lands_on_alert(t, s.alert_idx + 1, act)
    }
}

/// The stored error: the reported fields, the origin parsed from its trace,
/// unresolved, in its namespace, created and updated now.
pub open spec fn record_ok(c: ReportContext, namespace_id: u128, r: ErrorRecord) -> bool {
    &&& r.id == c.error_id
    &&& r.user_affected@ == c.request.user_affected@
    &&& r.path@ == c.info.file_path@
    &&& r.line == c.info.line_number
    &&& r.message@ == c.request.message@
    &&& r.stack_trace@ == c.request.stack_trace@
    &&& !r.resolved
    &&& r.namespace_id == namespace_id
    &&& r.created_at == c.now
    &&& r.updated_at == c.now
}

/// One stored tag per tag of the request, in order, each on the new error.
pub open spec fn tags_ok(c: ReportContext, tags: Seq<TagRequest>) -> bool {
    match c.request.tags {
        Some(v) => tags.len() == v@.len() && forall|i: int| 0 <= i < tags.len() ==> {
            &&& (#[trigger] tags[i]).tag_key@ == v@[i].tag_key@
            &&& tags[i].tag_value@ == v@[i].tag_value@
            &&& tags[i].error_id == c.error_id
        },
        None => tags.len() == 0,
    }
}

pub open spec fn created_ok(c: ReportContext, namespace_id: u128, e: CreatedError) -> bool {
    &&& e.id == c.error_id
    &&& e.message@ == c.request.message@
    &&& !e.resolved
    &&& e.namespace_id == namespace_id
    &&& e.stack_trace@ == c.request.stack_trace@
    &&& e.user_affected@ == c.request.user_affected@
}

/// The notification a subscriber gets when an alert fires.
pub open spec fn notification_ok(n: AlertNotification, id: u128, user_id: u128, a: AlertRecord, now: i64) -> bool {
    &&& n.id == id
    &&& n.user_id == user_id
    &&& n.title@ == "Alert Notification"@
    &&& n.text@ == spec_alert_notice(a.id, a.namespace_id)
    &&& n.source@ == "HiGuard Alert System"@
    &&& !n.is_read
    &&& n.created_at == now
}

/// What one step does: the new state `t` and the action `act` for the
/// state `s` and the event `ev`.
pub open spec fn step_spec(s: ReportState, ev: ReportEvent, t: ReportState, act: ReportAction) -> bool {
    let a = s.current();
    match ev {
        ReportEvent::Namespace(None) => t.phase == ReportPhase::Finished
            && act == ReportAction::Fail(ServerError::QueryError(QueryError::NamespaceNotFound)),
        ReportEvent::Namespace(Some(id)) => t.ctx == s.ctx && t.namespace_id == id && t.alerts == s.alerts
            && t.alert_times == s.alert_times && t.alerts_sent == s.alerts_sent
            && t.phase == ReportPhase::AwaitAlerts && act == ReportAction::LoadAlerts(id),
        ReportEvent::Alerts(v, times) => t.ctx == s.ctx && t.namespace_id == s.namespace_id && t.alerts == v
            && t.alert_times == times && t.alerts_sent == s.alerts_sent && lands_on_alert(t, 0, act),
        ReportEvent::Subscribers(v) => keeps(s, t) && t.subscribers == v && t.alerts_sent == s.alerts_sent && if v@.len() == 0 {
            lands_on_alert(t, s.alert_idx + 1, act)
        } else {
            match spec_alert_method(a.alert_method@) {
                Err(e) => t.phase == ReportPhase::Finished && act == ReportAction::Fail(e),
                Ok(m) => t.method == m && t.check == spec_alert_check(a, s.ctx.now) && t.first_check == t.check && if t.check == AlertCheck::Nothing {
                    lands_on_alert(t, s.alert_idx + 1, act)
                } else {
                    t.alert_idx == s.alert_idx && t.sub_idx == 0 && t.phase == ReportPhase::AwaitAnswer
                        && is_run_check(t, act)
                },
            }
        },
        ReportEvent::Counted(_) | ReportEvent::Unresolved(_) | ReportEvent::Rated(_, _) => t.alerts_sent == s.alerts_sent
            && if !spec_should_fire(s.check, answer_of(ev)) {
            if s.check is Count && spec_follow_up(a, s.ctx.now) != AlertCheck::Nothing {
                runs_check_for(s, t, s.sub_idx as int, spec_follow_up(a, s.ctx.now), act)
            } else {
                lands_on_subscriber(s, t, s.sub_idx + 1, act)
            }
        } else {
            &&& keeps_alert(s, t) && t.sub_idx == s.sub_idx
            &&& t.phase == ReportPhase::AwaitUser
            &&& act == ReportAction::FindUser(s.subscribers@[s.sub_idx as int])
            &&& s.method == AlertMethod::Email ==> (t.mail matches Some(m)
                && m@ == alert_mail_view(a.namespace_id, s.ctx.domain@, mail_details(s.check, ev, s.ctx.now_text@, a.id)))
        },
        ReportEvent::User(None, _) => t.phase == ReportPhase::Finished
            && act == ReportAction::Fail(ServerError::QueryError(QueryError::UserNotFound)),
        ReportEvent::User(Some(c), nid) => keeps_alert(s, t) && t.sub_idx == s.sub_idx && t.mail == s.mail
            && t.alerts_sent == s.alerts_sent && t.contact == Some(c) && t.phase == ReportPhase::AwaitNotified
            && (act matches ReportAction::Notify(n) && notification_ok(n, nid, c.id, a, s.ctx.now)),
        ReportEvent::Notified => match s.method {
            AlertMethod::Email => keeps_alert(s, t) && t.sub_idx == s.sub_idx && t.contact == s.contact
                && t.alerts_sent == s.alerts_sent && t.phase == ReportPhase::AwaitSent
                && (act matches ReportAction::SendEmail { to, subject, content } && to == s.contact->0.email
                && subject@ == "Error Alert"@ && s.mail == Some(content)),
            AlertMethod::Discord => match spec_discord_channel(a) {
                Err(e) => t.phase == ReportPhase::Finished && act == ReportAction::Fail(e),
                Ok(ch) => keeps_alert(s, t) && t.sub_idx == s.sub_idx && t.contact == s.contact
                    && t.alerts_sent == s.alerts_sent && t.phase == ReportPhase::AwaitSent
                    && (act matches ReportAction::SendDiscord { channel, text } && channel == ch
                    && text@ == spec_alert_notice(a.id, a.namespace_id) + " at "@
                        + s.alert_times@[s.alert_idx as int]@ + "."@),
            },
        },
        ReportEvent::Sent => t.alerts_sent@ == s.alerts_sent@.push(a.id) && lands_on_subscriber(s, t, s.sub_idx + 1, act),
        ReportEvent::Marked => keeps(s, t) && t.phase == ReportPhase::AwaitStored
            && (act matches ReportAction::Store(r, tags) && record_ok(s.ctx, s.namespace_id, r) && tags_ok(s.ctx, tags@)),
        ReportEvent::Stored => t.phase == ReportPhase::Finished
            && (act matches ReportAction::Done(e) && created_ok(s.ctx, s.namespace_id, e)),
    }
}

/// The index after `i` in a sequence of `n` elements that holds it.
fn next_index(i: usize, n: usize) -> (r: usize)
    requires
        i < n,
    ensures
        r == i + 1,
{
    i + 1
}

fn clone_opt_string(o: &Option<String>) -> (r: Option<String>)
    ensures
        r == *o,
{
    match o {
        Some(s) => Some(s.clone()),
        None => None,
    }
}

fn copy_ids(v: &Vec<u128>) -> (r: Vec<u128>)
    ensures
        r@ == v@,
{
    let mut r: Vec<u128> = Vec::new();
    let mut i: usize = 0;
    while i < v.len()
        invariant
            i <= v@.len(),
            r@ == v@.take(i as int),
        decreases v@.len() - i,
    {
        r.push(v[i]);
        proof { assert(r@ =~= v@.take(i + 1)); }
        i = i + 1;
    }
    proof { assert(v@.take(v@.len() as int) =~= v@); }
    r
}

impl ReportState {
    /// Starts an exchange: parses the reported trace (a trace with no lines is
    /// `StackTraceParsingError`) and asks for the namespace of `client_id`.
    pub fn begin(
        request: ReportRequest,
        client_id: u128,
        error_id: u128,
        now: i64,
        now_text: String,
        domain: String,
    ) -> (r: Result<(ReportState, ReportAction), ServerError>)
        requires
            trace_frames_ok(request.stack_trace@),
        ensures
            r is Err <==> spec_lines(request.stack_trace@).len() == 0,
            r matches Err(e) ==> e == ServerError::RequestError(RequestError::StackTraceParsingError),
            r matches Ok((s, act)) ==> {
                &&& s.wf()
                &&& s.phase == ReportPhase::AwaitNamespace
                &&& s.ctx.request == request
                &&& s.ctx.info@ == spec_trace_info(spec_lines(request.stack_trace@))
                &&& s.ctx.client_id == client_id
                &&& s.ctx.error_id == error_id
                &&& s.ctx.now == now
                &&& s.ctx.now_text == now_text
                &&& s.ctx.domain == domain
                &&& s.alerts@.len() == 0
                &&& s.alerts_sent@.len() == 0
                &&& act == ReportAction::FindNamespace(client_id)
            },
    {
        let info = match parse_reported_trace(&request.stack_trace) {
            Ok(info) => info,
            Err(e) => return Err(e),
        };
        let s = ReportState {
            ctx: ReportContext { request, info, client_id, error_id, now, now_text, domain },
            phase: ReportPhase::AwaitNamespace,
            namespace_id: 0,
            alerts: Vec::new(),
            alert_times: Vec::new(),
            alert_idx: 0,
            subscribers: Vec::new(),
            sub_idx: 0,
            method: AlertMethod::Email,
            first_check: AlertCheck::Nothing,
            check: AlertCheck::Nothing,
            mail: None,
            contact: None,
            alerts_sent: Vec::new(),
        };
        Ok((s, ReportAction::FindNamespace(client_id)))
    }

    /// Moves to the first alert at or after `from` that concerns the error.
    fn land_on_alert(&mut self, from: usize) -> (act: ReportAction)
        requires
            old(self).alerts@.len() == old(self).alert_times@.len(),
            from <= old(self).alerts@.len(),
            forall|k: int| 0 <= k < old(self).alerts_sent@.len() ==> names_concerned_alert(old(self).ctx, old(self).alerts@, #[trigger] old(self).alerts_sent@[k]),
        ensures
            keeps(*old(self), *final(self)),
            final(self).alerts_sent == old(self).alerts_sent,
            final(self).subscribers == old(self).subscribers,
            final(self).method == old(self).method,
            final(self).first_check == old(self).first_check,
            final(self).check == old(self).check,
            lands_on_alert(*final(self), from as int, act),
            final(self).wf(),
    {
        let mut j = from;
        while j < self.alerts.len() && !alert_applies(&self.alerts[j], &self.ctx.info, &self.ctx.request.message)
            invariant
                from <= j <= self.alerts@.len(),
                next_concerned(self.ctx, self.alerts@, from as int) == next_concerned(self.ctx, self.alerts@, j as int),
            decreases self.alerts@.len() - j,
        {
            j = j + 1;
        }
        self.alert_idx = j;
        if j < self.alerts.len() {
            self.phase = ReportPhase::AwaitSubscribers;
            ReportAction::LoadSubscribers(self.alerts[j].id)
        } else {
            self.phase = ReportPhase::AwaitMarked;
            ReportAction::MarkTriggered(copy_ids(&self.alerts_sent))
        }
    }

    /// Serves subscriber `next` of the current alert, or moves on.
    fn land_on_subscriber(&mut self, next: usize) -> (act: ReportAction)
        requires
            old(self).alerts@.len() == old(self).alert_times@.len(),
            old(self).alert_idx < old(self).alerts@.len(),
            concerns(old(self).ctx, old(self).current()),
            spec_alert_method(old(self).current().alert_method@) == Ok::<AlertMethod, ServerError>(old(self).method),
            old(self).first_check == spec_alert_check(old(self).current(), old(self).ctx.now),
            old(self).first_check != AlertCheck::Nothing,
            forall|k: int| 0 <= k < old(self).alerts_sent@.len() ==> names_concerned_alert(old(self).ctx, old(self).alerts@, #[trigger] old(self).alerts_sent@[k]),
        ensures
            lands_on_subscriber(*old(self), *final(self), next as int, act),
            final(self).alerts_sent == old(self).alerts_sent,
            keeps(*old(self), *final(self)),
            final(self).wf(),
    {
        if next < self.subscribers.len() {
            self.sub_idx = next;
            self.check = self.first_check;
            self.phase = ReportPhase::AwaitAnswer;
            let a = &self.alerts[self.alert_idx];
            ReportAction::RunCheck {
                namespace_id: self.namespace_id,
                check: self.check,
                path: clone_opt_string(&a.path),
                line: a.line,
                message: clone_opt_string(&a.message),
            }
        } else {
            let from = next_index(self.alert_idx, self.alerts.len());
            self.land_on_alert(from)
        }
    }

    fn stored_tags(&self) -> (r: Vec<TagRequest>)
        ensures
            tags_ok(self.ctx, r@),
    {
        let mut r: Vec<TagRequest> = Vec::new();
        match &self.ctx.request.tags {
            Some(v) => {
                let mut i: usize = 0;
                while i < v.len()
                    invariant
                        i <= v@.len(),
                        r@.len() == i,
                        forall|k: int| 0 <= k < i ==> {
                            &&& (#[trigger] r@[k]).tag_key@ == v@[k].tag_key@
                            &&& r@[k].tag_value@ == v@[k].tag_value@
                            &&& r@[k].error_id == self.ctx.error_id
                        },
                    decreases v@.len() - i,
                {
                    r.push(TagRequest {
                        tag_key: v[i].tag_key.clone(),
                        tag_value: v[i].tag_value.clone(),
                        error_id: self.ctx.error_id,
                    });
                    i = i + 1;
                }
            },
            None => {},
        }
        r
    }

    /// Takes one step of the exchange.
    pub fn step(&mut self, ev: ReportEvent) -> (act: ReportAction)
        requires
            old(self).wf(),
            event_fits(old(self).phase, ev),
            ev matches ReportEvent::Subscribers(v) && v@.len() > 0
                && spec_alert_method(old(self).current().alert_method@) is Ok
                ==> alert_check_defined(old(self).current(), old(self).ctx.now),
            is_answer(ev) && old(self).check is Count && !spec_should_fire(old(self).check, answer_of(ev))
                ==> follow_up_defined(old(self).current(), old(self).ctx.now),
        ensures
            step_spec(*old(self), ev, *final(self), act),
            final(self).phase != ReportPhase::Finished ==> final(self).wf(),
    {
        let ghost s = *self;
        match ev {
            ReportEvent::Namespace(found) => match found {
                None => {
                    self.phase = ReportPhase::Finished;
                    ReportAction::Fail(ServerError::QueryError(QueryError::NamespaceNotFound))
                },
                Some(id) => {
                    self.namespace_id = id;
                    self.phase = ReportPhase::AwaitAlerts;
                    ReportAction::LoadAlerts(id)
                },
            },
            ReportEvent::Alerts(v, times) => {
                self.alerts = v;
                self.alert_times = times;
                self.land_on_alert(0)
            },
            ReportEvent::Subscribers(v) => {
                let empty = v.len() == 0;
                self.subscribers = v;
                if empty {
                    let from = next_index(self.alert_idx, self.alerts.len());
                    return self.land_on_alert(from);
                }
                match alert_method(&self.alerts[self.alert_idx]) {
                    Err(e) => {
                        self.phase = ReportPhase::Finished;
                        ReportAction::Fail(e)
                    },
                    Ok(m) => {
                        self.method = m;
                        self.first_check = alert_check(&self.alerts[self.alert_idx], self.ctx.now);
                        self.check = self.first_check;
                        if self.check == AlertCheck::Nothing {
                            let from = next_index(self.alert_idx, self.alerts.len());
                            self.land_on_alert(from)
                        } else {
                            self.land_on_subscriber(0)
                        }
                    },
                }
            },
            ReportEvent::Counted(n) => self.answered(CheckAnswer::Count(n), None, None),
            ReportEvent::Unresolved(ids) => {
                let n = ids.len() as u64;
                self.answered(CheckAnswer::Unresolved(n), Some(ids), None)
            },
            ReportEvent::Rated(b, text) => self.answered(CheckAnswer::RateExceeded(b), None, Some(text)),
            ReportEvent::User(found, nid) => match found {
                None => {
                    self.phase = ReportPhase::Finished;
                    ReportAction::Fail(ServerError::QueryError(QueryError::UserNotFound))
                },
                Some(c) => {
                    let a = &self.alerts[self.alert_idx];
                    let n = AlertNotification {
                        id: nid,
                        user_id: c.id,
                        title: "Alert Notification".to_string(),
                        text: alert_notice(a),
                        source: "HiGuard Alert System".to_string(),
                        is_read: false,
                        created_at: self.ctx.now,
                    };
                    self.contact = Some(c);
                    self.phase = ReportPhase::AwaitNotified;
                    ReportAction::Notify(n)
                },
            },
            ReportEvent::Notified => match self.method {
                AlertMethod::Email => {
                    let content = self.mail.take().unwrap();
                    let to = match &self.contact {
                        Some(c) => c.email.clone(),
                        None => String::new(),
                    };
                    self.phase = ReportPhase::AwaitSent;
                    ReportAction::SendEmail { to, subject: "Error Alert".to_string(), content }
                },
                AlertMethod::Discord => {
                    let a = &self.alerts[self.alert_idx];
                    match discord_channel(a) {
                        Err(e) => {
                            self.phase = ReportPhase::Finished;
                            ReportAction::Fail(e)
                        },
                        Ok(ch) => {
                            let text = discord_alert_text(a, &self.alert_times[self.alert_idx]);
                            self.phase = ReportPhase::AwaitSent;
                            ReportAction::SendDiscord { channel: ch, text }
                        },
                    }
                },
            },
            ReportEvent::Sent => {
                let id = self.alerts[self.alert_idx].id;
                self.alerts_sent.push(id);
                proof {
                    assert forall|k: int| 0 <= k < self.alerts_sent@.len() implies names_concerned_alert(self.ctx, self.alerts@, #[trigger] self.alerts_sent@[k]) by {
                        if k == s.alerts_sent@.len() {
                            assert(self.alerts@[self.alert_idx as int].id == self.alerts_sent@[k]);
                        } else {
                            assert(self.alerts_sent@[k] == s.alerts_sent@[k]);
                        }
                    }
                }
                let next = next_index(self.sub_idx, self.subscribers.len());
                self.land_on_subscriber(next)
            },
            ReportEvent::Marked => {
                let ns = self.namespace_id;
                let record = ErrorRecord {
                    id: self.ctx.error_id,
                    user_affected: self.ctx.request.user_affected.clone(),
                    path: self.ctx.info.file_path.clone(),
                    line: self.ctx.info.line_number,
                    message: self.ctx.request.message.clone(),
                    stack_trace: self.ctx.request.stack_trace.clone(),
                    resolved: false,
                    namespace_id: ns,
                    created_at: self.ctx.now,
                    updated_at: self.ctx.now,
                };
                let tags = self.stored_tags();
                self.phase = ReportPhase::AwaitStored;
                ReportAction::Store(record, tags)
            },
            ReportEvent::Stored => {
                self.phase = ReportPhase::Finished;
                ReportAction::Done(
                    CreatedError {
                        id: self.ctx.error_id,
                        message: self.ctx.request.message.clone(),
                        resolved: false,
                        namespace_id: self.namespace_id,
                        stack_trace: self.ctx.request.stack_trace.clone(),
                        user_affected: self.ctx.request.user_affected.clone(),
                    },
                )
            },
        }
    }

    /// The current check was answered: fire (find the subscriber, with the
    /// e-mail ready when the alert mails) or move to the next subscriber.
    fn answered(&mut self, answer: CheckAnswer, ids: Option<Vec<u128>>, rate_text: Option<String>) -> (act: ReportAction)
        requires
            old(self).wf(),
            old(self).phase == ReportPhase::AwaitAnswer,
            answer matches CheckAnswer::Unresolved(n) ==> ids matches Some(v) && v@.len() == n,
            answer matches CheckAnswer::RateExceeded(_) ==> rate_text is Some,
            old(self).check is Count && !spec_should_fire(old(self).check, answer)
                ==> follow_up_defined(old(self).current(), old(self).ctx.now),
        ensures
            final(self).alerts_sent == old(self).alerts_sent,
            !spec_should_fire(old(self).check, answer) ==> if old(self).check is Count
                && spec_follow_up(old(self).current(), old(self).ctx.now) != AlertCheck::Nothing {
                runs_check_for(*old(self), *final(self), old(self).sub_idx as int,
                    spec_follow_up(old(self).current(), old(self).ctx.now), act)
            } else {
                lands_on_subscriber(*old(self), *final(self), old(self).sub_idx + 1, act)
            },
            spec_should_fire(old(self).check, answer) ==> {
                &&& keeps_alert(*old(self), *final(self)) && final(self).sub_idx == old(self).sub_idx
                &&& final(self).phase == ReportPhase::AwaitUser
                &&& act == ReportAction::FindUser(old(self).subscribers@[old(self).sub_idx as int])
                &&& old(self).method == AlertMethod::Email ==> (final(self).mail matches Some(m)
                    && m@ == alert_mail_view(old(self).current().namespace_id, old(self).ctx.domain@,
                        match (old(self).check, ids, rate_text) {
                            (AlertCheck::Count { threshold, .. }, _, _) => count_details(threshold, old(self).ctx.now_text@),
                            (AlertCheck::Unresolved { .. }, Some(v), _) => unresolved_details(v@),
                            (AlertCheck::Rate { threshold, .. }, _, Some(t)) => rate_details(t@, threshold, old(self).current().id),
                            _ => Seq::empty(),
                        }))
            },
            final(self).wf(),
    {
        if !should_fire(self.check, answer) {
            let counted = match self.check {
                AlertCheck::Count { .. } => true,
                _ => false,
            };
            if counted {
                let follow = follow_up_check(&self.alerts[self.alert_idx], self.ctx.now);
                if follow != AlertCheck::Nothing {
                    self.check = follow;
                    let a = &self.alerts[self.alert_idx];
                    return ReportAction::RunCheck {
                        namespace_id: self.namespace_id,
                        check: self.check,
                        path: clone_opt_string(&a.path),
                        line: a.line,
                        message: clone_opt_string(&a.message),
                    };
                }
            }
            let next = next_index(self.sub_idx, self.subscribers.len());
            return self.land_on_subscriber(next);
        }
        if self.method == AlertMethod::Email {
            let a = &self.alerts[self.alert_idx];
            let mail = match (self.check, ids, rate_text) {
                (AlertCheck::Count { threshold, .. }, _, _) => count_alert_mail(a, threshold, &self.ctx.domain, &self.ctx.now_text),
                (AlertCheck::Unresolved { .. }, Some(v), _) => unresolved_alert_mail(a, &v, &self.ctx.domain),
                (AlertCheck::Rate { threshold, .. }, _, Some(t)) => rate_alert_mail(a, threshold, &t, &self.ctx.domain),
                _ => EmailContent {
                    greeting: "Alert Notice!".to_string(),
                    main_message: String::new(),
                    body: String::new(),
                    dynamic_content: Some(String::new()),
                },
            };
            self.mail = Some(mail);
        }
        self.phase = ReportPhase::AwaitUser;
        ReportAction::FindUser(self.subscribers[self.sub_idx])
    }
}

} // verus!
