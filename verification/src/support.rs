//! Support tickets: what a ticket must hold, where it is sent, the JSON
//! sent, and the detail shown when the service refuses it.

use vstd::prelude::*;
use crate::json::{
    as_str, at, json_at, json_compact_text, json_parsed, json_str, json_to_compact_string, member,
    members_are, parse_json_text, str_is, JsonMember, JsonNumber, JsonValue,
};
use crate::kube::dec_string;
use crate::license::{optional_value, trimmed_nonempty};
use crate::routes::opt_view;
use crate::text::{dec_chars, string_of, trim, trim_str};

verus! {

pub const SUPPORT_TICKET_ENDPOINT_DEV: &'static str = "http://loopbox-web.loopboxweb.localhost/api/support";

pub const SUPPORT_TICKET_ENDPOINT_PROD: &'static str = "https://www.loopbox.tech/api/support";

/// A support ticket with its fields trimmed.
#[derive(Debug, Clone, PartialEq, Eq)]
pub struct SupportTicket {
    pub email: String,
    pub subject: String,
    pub text: String,
    pub app_version: String,
}

/// The ticket's fields trimmed; the first blank one, in the order email,
/// subject, text, app version, is refused.
pub fn validate_support_ticket(email: &str, subject: &str, text: &str, app_version: &str) -> (r: Result<SupportTicket, String>)
    ensures
        trim(email@).len() == 0 ==> (r matches Err(e) && e@ == "Email is required."@),
        trim(email@).len() > 0 && trim(subject@).len() == 0 ==> (r matches Err(e) && e@ == "Subject is required."@),
        trim(email@).len() > 0 && trim(subject@).len() > 0 && trim(text@).len() == 0 ==> (r matches Err(e) && e@
            == "Text is required."@),
        trim(email@).len() > 0 && trim(subject@).len() > 0 && trim(text@).len() > 0 && trim(app_version@).len() == 0
            ==> (r matches Err(e) && e@ == "App version is required."@),
        trim(email@).len() > 0 && trim(subject@).len() > 0 && trim(text@).len() > 0 && trim(app_version@).len() > 0
            ==> (r matches Ok(t) && t.email@ == trim(email@) && t.subject@ == trim(subject@) && t.text@ == trim(text@)
            && t.app_version@ == trim(app_version@)),
{
    let e = trim_str(email);
    let s = trim_str(subject);
    let t = trim_str(text);
    let v = trim_str(app_version);
    if e.len() == 0 {
        return Err("Email is required.".to_owned());
    }
    if s.len() == 0 {
        return Err("Subject is required.".to_owned());
    }
    if t.len() == 0 {
        return Err("Text is required.".to_owned());
    }
    if v.len() == 0 {
        return Err("App version is required.".to_owned());
    }
    Ok(SupportTicket { email: string_of(&e), subject: string_of(&s), text: string_of(&t), app_version: string_of(&v) })
}

/// Where tickets go: the configured endpoint when it is not blank, else the
/// development or the production service.
pub fn support_ticket_endpoint(configured: Option<&str>, debug_build: bool) -> (r: String)
    ensures
        r@ == match match configured {
            Some(v) => trimmed_nonempty(v@),
            None => None,
        } {
            Some(v) => v,
            None => if debug_build {
                SUPPORT_TICKET_ENDPOINT_DEV@
            } else {
                SUPPORT_TICKET_ENDPOINT_PROD@
            },
        },
{
    match optional_value(configured) {
        Some(v) => v,
        None => if debug_build {
            SUPPORT_TICKET_ENDPOINT_DEV.to_owned()
        } else {
            SUPPORT_TICKET_ENDPOINT_PROD.to_owned()
        },
    }
}

/// The number of a time in milliseconds, as JSON writes it.
pub open spec fn ms_is(v: JsonValue, n: u128) -> bool {
    match v {
        JsonValue::Number(x) => x.as_u64 == (if n <= u64::MAX {
            Some(n as u64)
        } else {
            None
        }) && x.text@ == dec_chars(n as nat),
        _ => false,
    }
}

/// `{"app_version", "email", "subject", "submitted_at_unix_ms", "text"}`.
pub open spec fn payload_read(v: JsonValue, t: SupportTicket, at_ms: u128) -> bool {
    &&& members_are(v, seq!["app_version"@, "email"@, "subject"@, "submitted_at_unix_ms"@, "text"@])
    &&& str_is(member(v, 0), t.app_version@)
    &&& str_is(member(v, 1), t.email@)
    &&& str_is(member(v, 2), t.subject@)
    &&& ms_is(member(v, 3), at_ms)
    &&& str_is(member(v, 4), t.text@)
}

fn u128_text(n: u128) -> (r: String)
    ensures
        r@ == dec_chars(n as nat),
    decreases n,
{
    if n < 10 {
        dec_string(n as u64)
    } else {
        let mut r = u128_text(n / 10);
        let d = dec_string((n % 10) as u64);
        proof {
            assert(dec_chars((n % 10) as nat) == seq![crate::text::digit_char((n % 10) as nat)]);
        }
        r.append(d.as_str());
        r
    }
}

/// The JSON sent for a ticket, and its text as `serde_json` writes it.
pub fn support_ticket_payload(ticket: &SupportTicket, submitted_at_unix_ms: u128) -> (r: (JsonValue, String))
    ensures
        payload_read(r.0, *ticket, submitted_at_unix_ms),
        r.1@ == json_compact_text(r.0),
{
    let small = if submitted_at_unix_ms <= u64::MAX as u128 {
        Some(submitted_at_unix_ms as u64)
    } else {
        None
    };
    let mut ms: Vec<JsonMember> = Vec::new();
    ms.push(JsonMember { key: "app_version".to_owned(), value: JsonValue::Str(ticket.app_version.clone()) });
    ms.push(JsonMember { key: "email".to_owned(), value: JsonValue::Str(ticket.email.clone()) });
    ms.push(JsonMember { key: "subject".to_owned(), value: JsonValue::Str(ticket.subject.clone()) });
    ms.push(
        JsonMember {
            key: "submitted_at_unix_ms".to_owned(),
            value: JsonValue::Number(JsonNumber { as_u64: small, text: u128_text(submitted_at_unix_ms) }),
        },
    );
    ms.push(JsonMember { key: "text".to_owned(), value: JsonValue::Str(ticket.text.clone()) });
    let doc = JsonValue::Object(ms);
    let text = json_to_compact_string(&doc);
    (doc, text)
}

/// The first of `message`, `detail`, `error` that is a non-blank string in
/// a JSON body, trimmed.
pub open spec fn detail_in(v: JsonValue) -> Option<Seq<char>> {
    let pick = |k: Seq<char>|
        match as_str(at(Some(v), k)) {
            Some(s) => if trim(s).len() > 0 {
                Some(trim(s))
            } else {
                None
            },
            None => None,
        };
    match pick("message"@) {
        Some(s) => Some(s),
        None => match pick("detail"@) {
            Some(s) => Some(s),
            None => pick("error"@),
        },
    }
}

/// What a refusal says: the detail of its JSON body, else the body trimmed,
/// else "no additional details".
pub open spec fn error_detail(body: Seq<char>) -> Seq<char> {
    let found = match json_parsed(body) {
        Ok(v) => detail_in(v),
        Err(_) => None,
    };
    match found {
        Some(s) => s,
        None => if trim(body).len() > 0 {
            trim(body)
        } else {
            "no additional details"@
        },
    }
}

fn nonblank_member(v: &JsonValue, key: &str) -> (r: Option<String>)
    ensures
        opt_view(r) == match as_str(at(Some(*v), key@)) {
            Some(s) => if trim(s).len() > 0 {
                Some(trim(s))
            } else {
                None
            },
            None => None,
        },
{
    match json_str(json_at(Some(v), key)) {
        Some(s) => {
            let t = trim_str(s.as_str());
            if t.len() > 0 {
                Some(string_of(&t))
            } else {
                None
            }
        },
        None => None,
    }
}

/// The detail shown when the support service refuses a ticket.
pub fn support_ticket_error_detail(body: &str) -> (r: String)
    ensures
        r@ == error_detail(body@),
{
    let found = match parse_json_text(body) {
        Ok(v) => match nonblank_member(&v, "message") {
            Some(s) => Some(s),
            None => match nonblank_member(&v, "detail") {
                Some(s) => Some(s),
                None => nonblank_member(&v, "error"),
            },
        },
        Err(_) => None,
    };
    match found {
        Some(s) => s,
        None => {
            let t = trim_str(body);
            if t.len() > 0 {
                string_of(&t)
            } else {
                "no additional details".to_owned()
            }
        },
    }
}

} // verus!
