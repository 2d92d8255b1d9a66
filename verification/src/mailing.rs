//! Composition of the e-mails the server sends: the HTML page around a
//! message, and the texts of alert and welcome messages.
use vstd::prelude::*;
use vstd::string::StringExecFns;
use crate::alerts::AlertRecord;
use crate::text::{decimal, decimal_chars, signed_decimal, signed_decimal_chars, string_from_chars, str_chars};
use crate::uuid_text::{uuid_hyphenated, uuid_text};

verus! {

/// The parts of an e-mail: a heading, two paragraphs and an optional
/// highlighted block.
#[derive(Debug)]
pub struct EmailContent {
    pub greeting: String,
    pub main_message: String,
    pub body: String,
    pub dynamic_content: Option<String>,
}

pub open spec fn page_head() -> Seq<char> { "\n        <html>\n        <body style=\"font-family: Arial, sans-serif; background-color: #f4f4f4; padding: 20px;\">\n            <table style=\"max-width: 600px; margin: 0 auto; background-color: #ffffff; padding: 20px; border-radius: 8px; box-shadow: 0 0 10px rgba(0,0,0,0.1);\">\n                <tr>\n                    <td style=\"text-align: center; padding-bottom: 20px;\">\n                        <h1 style=\"color: #333333;\">"@ }
pub open spec fn page_after_greeting() -> Seq<char> { "</h1>\n                    </td>\n                </tr>\n                <tr>\n                    <td style=\"padding: 20px; color: #555555; line-height: 1.6;\">\n                        <p>"@ }
pub open spec fn page_after_main() -> Seq<char> { "</p>\n                        <p>"@ }
pub open spec fn page_after_body() -> Seq<char> { "</p>\n                        "@ }
pub open spec fn page_tail() -> Seq<char> { "\n                    </td>\n                </tr>\n            </table>\n        </body>\n        </html>\n        "@ }
pub open spec fn block_head() -> Seq<char> { "<div style=\"background-color: #e0e0e0; padding: 10px; border-radius: 5px; text-align: center; font-weight: bold; letter-spacing: 1px; font-size: 16px;\">"@ }
pub open spec fn block_tail() -> Seq<char> { "</div>"@ }

/// `s` with every newline replaced by `<br>`.
pub open spec fn newlines_to_br(s: Seq<char>) -> Seq<char>
    decreases s.len(),
{
    if s.len() == 0 {
        seq![]
    } else if s.last() == '\n' {
        newlines_to_br(s.drop_last()) + seq!['<', 'b', 'r', '>']
    } else {
        newlines_to_br(s.drop_last()).push(s.last())
    }
}

/// The highlighted block of an e-mail, empty when there is none.
pub open spec fn dynamic_block(d: Option<Seq<char>>) -> Seq<char> {
    match d {
        Some(v) => block_head() + newlines_to_br(v) + block_tail(),
        None => seq![],
    }
}

pub open spec fn opt_text(o: Option<String>) -> Option<Seq<char>> {
    match o {
        Some(s) => Some(s@),
        None => None,
    }
}

/// An e-mail's parts as text.
pub struct EmailView {
    pub greeting: Seq<char>,
    pub main_message: Seq<char>,
    pub body: Seq<char>,
    pub dynamic_content: Option<Seq<char>>,
}

impl View for EmailContent {
    type V = EmailView;

    open spec fn view(&self) -> EmailView {
        EmailView {
            greeting: self.greeting@,
            main_message: self.main_message@,
            body: self.body@,
            dynamic_content: opt_text(self.dynamic_content),
        }
    }
}

/// The HTML page of an e-mail with the given parts.
pub open spec fn spec_email_page(c: EmailContent) -> Seq<char> {
    page_head() + c.greeting@ + page_after_greeting() + c.main_message@ + page_after_main()
        + c.body@ + page_after_body() + dynamic_block(opt_text(c.dynamic_content)) + page_tail()
}

fn newlines_to_br_chars(s: &[char]) -> (r: Vec<char>)
    ensures
        r@ == newlines_to_br(s@),
{
    let mut r: Vec<char> = Vec::new();
    let mut i: usize = 0;
    while i < s.len()
        invariant
            i <= s@.len(),
            r@ == newlines_to_br(s@.take(i as int)),
        decreases s@.len() - i,
    {
        assert(s@.take(i + 1).drop_last() =~= s@.take(i as int));
        if s[i] == '\n' {
            r.push('<');
            r.push('b');
            r.push('r');
            r.push('>');
            assert(r@ =~= newlines_to_br(s@.take(i as int)) + seq!['<', 'b', 'r', '>']);
        } else {
            r.push(s[i]);
        }
        i = i + 1;
    }
    assert(s@.take(s@.len() as int) =~= s@);
    r
}

/// Renders the HTML page of an e-mail.
pub fn render_email_page(content: &EmailContent) -> (page: String)
    ensures
        page@ == spec_email_page(*content),
{
    let mut page = String::new();
    page.append("\n        <html>\n        <body style=\"font-family: Arial, sans-serif; background-color: #f4f4f4; padding: 20px;\">\n            <table style=\"max-width: 600px; margin: 0 auto; background-color: #ffffff; padding: 20px; border-radius: 8px; box-shadow: 0 0 10px rgba(0,0,0,0.1);\">\n                <tr>\n                    <td style=\"text-align: center; padding-bottom: 20px;\">\n                        <h1 style=\"color: #333333;\">");
    page.append(content.greeting.as_str());
    page.append("</h1>\n                    </td>\n                </tr>\n                <tr>\n                    <td style=\"padding: 20px; color: #555555; line-height: 1.6;\">\n                        <p>");
    page.append(content.main_message.as_str());
    page.append("</p>\n                        <p>");
    page.append(content.body.as_str());
    page.append("</p>\n                        ");
    match &content.dynamic_content {
        Some(value) => {
            let chars = str_chars(value.as_str());
            let br = newlines_to_br_chars(&chars);
            let text = string_from_chars(&br);
            page.append("<div style=\"background-color: #e0e0e0; padding: 10px; border-radius: 5px; text-align: center; font-weight: bold; letter-spacing: 1px; font-size: 16px;\">");
            page.append(text.as_str());
            page.append("</div>");
        },
        None => {},
    }
    page.append("\n                    </td>\n                </tr>\n            </table>\n        </body>\n        </html>\n        ");
    proof {
        assert(page@ =~= spec_email_page(*content));
    }
    page
}


fn owned(s: &str) -> (r: String)
    ensures
        r@ == s@,
{
    let mut r = String::new();
    r.append(s);
    r
}

/// The heading and paragraphs shared by every alert e-mail.
pub open spec fn alert_mail_main(namespace_id: u128) -> Seq<char> {
    "An error alert has been triggered for a namespace you are subscribed to by the ID of "@
        + uuid_hyphenated(namespace_id)
}

pub open spec fn alert_mail_body(domain: Seq<char>) -> Seq<char> {
    "Please log in to your account to view the error details and resolve the issue. "@ + domain
}

/// An alert e-mail about namespace `namespace_id` whose highlighted block is `details`.
pub open spec fn alert_mail_view(namespace_id: u128, domain: Seq<char>, details: Seq<char>) -> EmailView {
    EmailView {
        greeting: "Alert Notice!"@,
        main_message: alert_mail_main(namespace_id),
        body: alert_mail_body(domain),
        dynamic_content: Some(details),
    }
}

pub open spec fn count_details(count_threshold: i32, now_text: Seq<char>) -> Seq<char> {
    "Alert Details:\nError Count Triggered: "@ + signed_decimal(count_threshold as int)
        + ".\nTime Triggered: "@ + now_text
}

pub open spec fn unresolved_details(error_ids: Seq<u128>) -> Seq<char> {
    "Alert Details:\nErrors unresolved within time: "@ + decimal(error_ids.len())
        + " Errors. \nError IDs: "@ + "["@ + id_list(error_ids) + "]"@
}

pub open spec fn rate_details(rate_text: Seq<char>, rate_threshold: i32, alert_id: u128) -> Seq<char> {
    "Alert Details:\nRate: "@ + rate_text + " errors per minute. \nThreshold: "@
        + signed_decimal(rate_threshold as int) + " errors per minute. \nAlert ID: "@
        + uuid_hyphenated(alert_id)
}

fn alert_mail(namespace_id: u128, domain: &String, details: String) -> (c: EmailContent)
    ensures
        c.greeting@ == "Alert Notice!"@,
        c.main_message@ == alert_mail_main(namespace_id),
        c.body@ == alert_mail_body(domain@),
        c.dynamic_content == Some(details),
{
    let mut main_message = owned(
        "An error alert has been triggered for a namespace you are subscribed to by the ID of ",
    );
    let ns = uuid_text(namespace_id);
    main_message.append(ns.as_str());
    let mut body = owned("Please log in to your account to view the error details and resolve the issue. ");
    body.append(domain.as_str());
    EmailContent {
        greeting: owned("Alert Notice!"),
        main_message,
        body,
        dynamic_content: Some(details),
    }
}

/// The e-mail of an alert that fired on its error count; `now_text` is the
/// time of firing as displayed.
pub fn count_alert_mail(alert: &AlertRecord, count_threshold: i32, domain: &String, now_text: &String) -> (c: EmailContent)
    ensures
        c@ == alert_mail_view(alert.namespace_id, domain@, count_details(count_threshold, now_text@)),
        c.greeting@ == "Alert Notice!"@,
        c.main_message@ == alert_mail_main(alert.namespace_id),
        c.body@ == alert_mail_body(domain@),
        opt_text(c.dynamic_content) == Some(
            "Alert Details:\nError Count Triggered: "@ + signed_decimal(count_threshold as int)
                + ".\nTime Triggered: "@ + now_text@,
        ),
{
    let mut details = owned("Alert Details:\nError Count Triggered: ");
    let digits = signed_decimal_chars(count_threshold as i64);
    let n = string_from_chars(&digits);
    details.append(n.as_str());
    details.append(".\nTime Triggered: ");
    details.append(now_text.as_str());
    alert_mail(alert.namespace_id, domain, details)
}

/// `[a, b, ...]`: the hyphenated ids separated by `, ` inside brackets (how a
/// list of UUIDs is debug-printed).
pub open spec fn id_list(ids: Seq<u128>) -> Seq<char>
    decreases ids.len(),
{
    if ids.len() == 0 {
        seq![]
    } else if ids.len() == 1 {
        uuid_hyphenated(ids[0])
    } else {
        id_list(ids.drop_last()) + ", "@ + uuid_hyphenated(ids.last())
    }
}

fn id_list_text(ids: &Vec<u128>) -> (r: String)
    ensures
        r@ == "["@ + id_list(ids@) + "]"@,
{
    let mut inner = String::new();
    let mut i: usize = 0;
    while i < ids.len()
        invariant
            i <= ids@.len(),
            inner@ == id_list(ids@.take(i as int)),
        decreases ids@.len() - i,
    {
        assert(ids@.take(i + 1).drop_last() =~= ids@.take(i as int));
        if i > 0 {
            inner.append(", ");
        }
        let u = uuid_text(ids[i]);
        inner.append(u.as_str());
        proof {
            if i == 0 {
                assert(inner@ =~= uuid_hyphenated(ids@[0]));
            }
        }
        i = i + 1;
    }
    assert(ids@.take(ids@.len() as int) =~= ids@);
    let mut r = owned("[");
    r.append(inner.as_str());
    r.append("]");
    r
}

/// The e-mail of an alert that fired on unresolved errors, listing them.
pub fn unresolved_alert_mail(alert: &AlertRecord, error_ids: &Vec<u128>, domain: &String) -> (c: EmailContent)
    ensures
        c@ == alert_mail_view(alert.namespace_id, domain@, unresolved_details(error_ids@)),
        c.greeting@ == "Alert Notice!"@,
        c.main_message@ == alert_mail_main(alert.namespace_id),
        c.body@ == alert_mail_body(domain@),
        opt_text(c.dynamic_content) == Some(
            "Alert Details:\nErrors unresolved within time: "@ + decimal(error_ids@.len())
                + " Errors. \nError IDs: "@ + "["@ + id_list(error_ids@) + "]"@,
        ),
{
    let mut details = owned("Alert Details:\nErrors unresolved within time: ");
    let digits = decimal_chars(error_ids.len() as u64);
    let n = string_from_chars(&digits);
    details.append(n.as_str());
    details.append(" Errors. \nError IDs: ");
    let list = id_list_text(error_ids);
    details.append(list.as_str());
    assert(details@ =~= unresolved_details(error_ids@));
    alert_mail(alert.namespace_id, domain, details)
}

/// The e-mail of an alert that fired on its error rate; `rate_text` is the
/// measured rate as displayed.
pub fn rate_alert_mail(alert: &AlertRecord, rate_threshold: i32, rate_text: &String, domain: &String) -> (c: EmailContent)
    ensures
        c@ == alert_mail_view(alert.namespace_id, domain@, rate_details(rate_text@, rate_threshold, alert.id)),
        c.greeting@ == "Alert Notice!"@,
        c.main_message@ == alert_mail_main(alert.namespace_id),
        c.body@ == alert_mail_body(domain@),
        opt_text(c.dynamic_content) == Some(
            "Alert Details:\nRate: "@ + rate_text@ + " errors per minute. \nThreshold: "@
                + signed_decimal(rate_threshold as int) + " errors per minute. \nAlert ID: "@
                + uuid_hyphenated(alert.id),
        ),
{
    let mut details = owned("Alert Details:\nRate: ");
    details.append(rate_text.as_str());
    details.append(" errors per minute. \nThreshold: ");
    let digits = signed_decimal_chars(rate_threshold as i64);
    let n = string_from_chars(&digits);
    details.append(n.as_str());
    details.append(" errors per minute. \nAlert ID: ");
    let id = uuid_text(alert.id);
    details.append(id.as_str());
    alert_mail(alert.namespace_id, domain, details)
}

/// The address a new user follows to verify the account.
pub open spec fn verify_url(domain: Seq<char>, user_id: u128) -> Seq<char> {
    domain + "/user/"@ + uuid_hyphenated(user_id) + "/verify"@
}

/// The welcome e-mail of a newly registered user.
pub fn welcome_mail(email: &String, user_id: u128, domain: &String) -> (c: EmailContent)
    ensures
        c.greeting@ == "Welcome"@,
        c.main_message@ == "Welcome to Higuard's Error Dashboard."@,
        c.body@ == "Welcome "@ + email@
            + ", thanks for signing up to my application! Feel free to contact this email for anything in regards to the error dashboard. If this isn't you, ignore this. Please verify by clicking the following link: <a href=\""@
            + verify_url(domain@, user_id) + "\" style=\"color: #1a73e8;\">Verify your account</a>"@,
        opt_text(c.dynamic_content) == Some("Your ID is: "@ + uuid_hyphenated(user_id)),
{
    let id = uuid_text(user_id);
    let mut url = String::new();
    url.append(domain.as_str());
    url.append("/user/");
    url.append(id.as_str());
    url.append("/verify");
    let mut body = owned("Welcome ");
    body.append(email.as_str());
    body.append(
        ", thanks for signing up to my application! Feel free to contact this email for anything in regards to the error dashboard. If this isn't you, ignore this. Please verify by clicking the following link: <a href=\"",
    );
    body.append(url.as_str());
    body.append("\" style=\"color: #1a73e8;\">Verify your account</a>");
    let mut dynamic = owned("Your ID is: ");
    dynamic.append(id.as_str());
    EmailContent {
        greeting: owned("Welcome"),
        main_message: owned("Welcome to Higuard's Error Dashboard."),
        body,
        dynamic_content: Some(dynamic),
    }
}

/// The e-mail-to-SMS gateway domain of each supported carrier.
pub open spec fn spec_sms_gateway(service: Seq<char>) -> Option<Seq<char>> {
    if service == "AT&T"@ {
        Some("@txt.att.net"@)
    } else if service == "Verizon"@ {
        Some("@vtext.com"@)
    } else if service == "T-Mobile"@ {
        Some("@tmomail.net"@)
    } else if service == "Sprint"@ {
        Some("@messaging.sprintpcs.com"@)
    } else if service == "Boost Mobile"@ {
        Some("@sms.myboostmobile.com"@)
    } else if service == "Metro PCS"@ {
        Some("@mymetropcs.com"@)
    } else if service == "Cricket"@ {
        Some("@sms.cricketwireless.net"@)
    } else if service == "US Cellular"@ {
        Some("@email.uscc.net"@)
    } else {
        None
    }
}

/// The gateway domain of a carrier, if it is supported.
pub fn sms_gateway(service: &str) -> (r: Option<&'static str>)
    ensures
        match r {
            Some(g) => spec_sms_gateway(service@) == Some(g@),
            None => spec_sms_gateway(service@) is None,
        },
{
    if crate::text::str_eq(service, "AT&T") {
        Some("@txt.att.net")
    } else if crate::text::str_eq(service, "Verizon") {
        Some("@vtext.com")
    } else if crate::text::str_eq(service, "T-Mobile") {
        Some("@tmomail.net")
    } else if crate::text::str_eq(service, "Sprint") {
        Some("@messaging.sprintpcs.com")
    } else if crate::text::str_eq(service, "Boost Mobile") {
        Some("@sms.myboostmobile.com")
    } else if crate::text::str_eq(service, "Metro PCS") {
        Some("@mymetropcs.com")
    } else if crate::text::str_eq(service, "Cricket") {
        Some("@sms.cricketwireless.net")
    } else if crate::text::str_eq(service, "US Cellular") {
        Some("@email.uscc.net")
    } else {
        None
    }
}

/// The address a text message to `number` on carrier `service` is mailed to.
pub fn sms_address(number: &str, service: &str) -> (r: String)
    requires
        spec_sms_gateway(service@) is Some,
    ensures
        r@ == number@ + spec_sms_gateway(service@)->0,
{
    let gateway = sms_gateway(service).unwrap();
    let mut r = String::new();
    r.append(number);
    r.append(gateway);
    r
}

}

