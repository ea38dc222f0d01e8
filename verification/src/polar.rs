//! The Polar license API as licensing uses it: the requests it sends, how a
//! reply is accepted or refused, and what is read from an accepted reply.

use vstd::prelude::*;
use crate::json::{
    as_str, at, json_at, json_compact_text, json_parsed, json_str, json_to_compact_string, member,
    members_are, opt_str_is, parse_json_text, str_is, JsonMember, JsonValue,
};
use crate::kube::cat;
use crate::license::{
    activation_id_from_response, device_fingerprint, hash_device_identifier, non_empty,
    polar_error_message, trimmed_nonempty, PolarConfig, PolarValidateResponse,
};
use crate::routes::opt_view;
use crate::text::trim;

verus! {

pub const POLAR_TIMEOUT_SECS: u64 = 8;

/// The condition key under which a device's fingerprint is bound.
pub const LOOPBOX_DEVICE_FINGERPRINT_CONDITION_KEY: &'static str = "loopbox_device_fingerprint";

/// The endpoint that validates a key.
pub fn polar_validate_endpoint(config: &PolarConfig) -> (r: String)
    ensures
        r@ == config.api_base_url@ + "/v1/customer-portal/license-keys/validate"@,
{
    cat(config.api_base_url.as_str(), "/v1/customer-portal/license-keys/validate")
}

/// The endpoint that activates a key.
pub fn polar_activate_endpoint(config: &PolarConfig) -> (r: String)
    ensures
        r@ == config.api_base_url@ + "/v1/customer-portal/license-keys/activate"@,
{
    cat(config.api_base_url.as_str(), "/v1/customer-portal/license-keys/activate")
}

/// The device binding sent with a request: none when binding is off, the
/// device's fingerprint when it has an identifier, else an error.
pub fn license_conditions(require_binding: bool, raw_device_id: Option<&str>) -> (r: Result<Option<JsonValue>, String>)
    ensures
        !require_binding ==> r matches Ok(None),
        require_binding && raw_device_id is None ==> (r matches Err(e) && e@
            == "Unable to derive a stable device identifier for Polar activation binding. Set LOOPBOX_LICENSE_DEVICE_ID to an explicit value or disable strict binding with LOOPBOX_POLAR_REQUIRE_DEVICE_BINDING=false."@),
        require_binding && raw_device_id is Some ==> (r matches Ok(Some(c)) && members_are(
            c,
            seq![LOOPBOX_DEVICE_FINGERPRINT_CONDITION_KEY@],
        ) && str_is(member(c, 0), device_fingerprint(raw_device_id.unwrap()@))),
{
    if !require_binding {
        return Ok(None);
    }
    match raw_device_id {
        None => Err(
            "Unable to derive a stable device identifier for Polar activation binding. Set LOOPBOX_LICENSE_DEVICE_ID to an explicit value or disable strict binding with LOOPBOX_POLAR_REQUIRE_DEVICE_BINDING=false.".to_owned(),
        ),
        Some(id) => {
            let mut ms: Vec<JsonMember> = Vec::new();
            ms.push(
                JsonMember {
                    key: LOOPBOX_DEVICE_FINGERPRINT_CONDITION_KEY.to_owned(),
                    value: JsonValue::Str(hash_device_identifier(id)),
                },
            );
            Ok(Some(JsonValue::Object(ms)))
        },
    }
}

/// The validation request: `activation_id` (trimmed, when not blank) and
/// `conditions` when present, `key` and `organization_id`.
pub open spec fn validate_request_read(
    v: JsonValue,
    config: PolarConfig,
    key: Seq<char>,
    activation_id: Option<Seq<char>>,
    conditions: Option<JsonValue>,
) -> bool {
    let act = match activation_id {
        Some(a) => trimmed_nonempty(a),
        None => None,
    };
    let keys = (if act is Some {
        seq!["activation_id"@]
    } else {
        Seq::<Seq<char>>::empty()
    }) + (if conditions is Some {
        seq!["conditions"@]
    } else {
        Seq::<Seq<char>>::empty()
    }) + seq!["key"@, "organization_id"@];
    let n = keys.len() as int;
    &&& members_are(v, keys)
    &&& act matches Some(a) ==> str_is(member(v, 0), a)
    &&& conditions matches Some(c) ==> member(v, if act is Some {
        1int
    } else {
        0int
    }) == c
    &&& str_is(member(v, n - 2), key)
    &&& str_is(member(v, n - 1), config.organization_id@)
}

/// The validation request sent for a key, and its text.
pub fn polar_validate_request(
    config: &PolarConfig,
    key: &str,
    activation_id: Option<&str>,
    conditions: Option<JsonValue>,
) -> (r: (JsonValue, String))
    ensures
        validate_request_read(
            r.0,
            *config,
            key@,
            match activation_id {
                Some(a) => Some(a@),
                None => None,
            },
            conditions,
        ),
        r.1@ == json_compact_text(r.0),
{
    let ghost g_conditions = conditions;
    let act = match activation_id {
        Some(a) => non_empty(a),
        None => None,
    };
    let mut ms: Vec<JsonMember> = Vec::new();
    match act {
        Some(a) => {
            ms.push(JsonMember { key: "activation_id".to_owned(), value: JsonValue::Str(a) });
        },
        None => {},
    }
    match conditions {
        Some(c) => {
            ms.push(JsonMember { key: "conditions".to_owned(), value: c });
        },
        None => {},
    }
    ms.push(JsonMember { key: "key".to_owned(), value: JsonValue::Str(key.to_owned()) });
    ms.push(JsonMember { key: "organization_id".to_owned(), value: JsonValue::Str(config.organization_id.clone()) });
    let doc = JsonValue::Object(ms);
    let text = json_to_compact_string(&doc);
    (doc, text)
}

/// The activation request: `conditions` when present, `key`, `label`,
/// `organization_id`.
pub open spec fn activate_request_read(v: JsonValue, config: PolarConfig, key: Seq<char>, conditions: Option<JsonValue>) -> bool {
    let keys = (if conditions is Some {
        seq!["conditions"@]
    } else {
        Seq::<Seq<char>>::empty()
    }) + seq!["key"@, "label"@, "organization_id"@];
    let n = keys.len() as int;
    &&& members_are(v, keys)
    &&& conditions matches Some(c) ==> member(v, 0) == c
    &&& str_is(member(v, n - 3), key)
    &&& str_is(member(v, n - 2), config.activation_label@)
    &&& str_is(member(v, n - 1), config.organization_id@)
}

/// The activation request sent for a key, and its text.
pub fn polar_activate_request(config: &PolarConfig, key: &str, conditions: Option<JsonValue>) -> (r: (JsonValue, String))
    ensures
        activate_request_read(r.0, *config, key@, conditions),
        r.1@ == json_compact_text(r.0),
{
    let mut ms: Vec<JsonMember> = Vec::new();
    match conditions {
        Some(c) => {
            ms.push(JsonMember { key: "conditions".to_owned(), value: c });
        },
        None => {},
    }
    ms.push(JsonMember { key: "key".to_owned(), value: JsonValue::Str(key.to_owned()) });
    ms.push(JsonMember { key: "label".to_owned(), value: JsonValue::Str(config.activation_label.clone()) });
    ms.push(JsonMember { key: "organization_id".to_owned(), value: JsonValue::Str(config.organization_id.clone()) });
    let doc = JsonValue::Object(ms);
    let text = json_to_compact_string(&doc);
    (doc, text)
}

/// The text of a reply's top-level string member.
pub open spec fn top_text(v: Option<JsonValue>, key: Seq<char>) -> Option<Seq<char>> {
    as_str(at(v, key))
}

/// How a Polar reply is taken: a failure status is refused with the
/// reply's detail; a success must carry JSON.
pub open spec fn polar_reply_result(success: bool, status: Seq<char>, body: Seq<char>) -> Result<JsonValue, Seq<char>> {
    let parsed = match json_parsed(body) {
        Ok(v) => Some(v),
        Err(_) => None,
    };
    if !success {
        let pick = |k: Seq<char>|
            match top_text(parsed, k) {
                Some(s) => if trim(s).len() > 0 {
                    Some(trim(s))
                } else {
                    None
                },
                None => None,
            };
        let detail = match pick("detail"@) {
            Some(s) => s,
            None => match pick("error"@) {
                Some(s) => s,
                None => match pick("message"@) {
                    Some(s) => s,
                    None => if trim(body).len() > 0 {
                        trim(body)
                    } else {
                        "no additional details"@
                    },
                },
            },
        };
        Err("Polar API request failed with status "@ + status + ": "@ + detail)
    } else {
        match parsed {
            Some(v) => Ok(v),
            None => Err("Polar API response was not valid JSON."@),
        }
    }
}

/// Takes a Polar reply: its status (as `reqwest` writes it), whether it is a
/// success, and its body.
pub fn polar_reply(success: bool, status: &str, body: &str) -> (r: Result<JsonValue, String>)
    ensures
        match polar_reply_result(success, status@, body@) {
            Ok(v) => r matches Ok(x) && x == v,
            Err(e) => r matches Err(x) && x@ == e,
        },
{
    let parsed = match parse_json_text(body) {
        Ok(v) => Some(v),
        Err(_) => None,
    };
    if !success {
        let (detail, error, message) = match &parsed {
            Some(v) => (
                json_str(json_at(Some(v), "detail")),
                json_str(json_at(Some(v), "error")),
                json_str(json_at(Some(v), "message")),
            ),
            None => (None, None, None),
        };
        let text = polar_error_message(
            match &detail {
                Some(d) => Some(d.as_str()),
                None => None,
            },
            match &error {
                Some(d) => Some(d.as_str()),
                None => None,
            },
            match &message {
                Some(d) => Some(d.as_str()),
                None => None,
            },
            body,
        );
        let head = cat(cat("Polar API request failed with status ", status).as_str(), ": ");
        return Err(cat(head.as_str(), text.as_str()));
    }
    match parsed {
        Some(v) => Ok(v),
        None => Err("Polar API response was not valid JSON.".to_owned()),
    }
}

/// The fields of a validation reply that licensing reads.
pub fn polar_validate_response_of(v: &JsonValue) -> (r: PolarValidateResponse)
    ensures
        opt_view(r.status) == as_str(at(Some(*v), "status"@)),
        opt_view(r.benefit_id) == as_str(at(Some(*v), "benefit_id"@)),
        opt_view(r.customer_id) == as_str(at(Some(*v), "customer_id"@)),
        opt_view(r.customer_object_id) == as_str(at(at(Some(*v), "customer"@), "id"@)),
{
    PolarValidateResponse {
        status: json_str(json_at(Some(v), "status")),
        benefit_id: json_str(json_at(Some(v), "benefit_id")),
        customer_id: json_str(json_at(Some(v), "customer_id")),
        customer_object_id: json_str(json_at(json_at(Some(v), "customer"), "id")),
    }
}

/// The activation id of an activation reply: `id`, else `activation.id`.
pub fn polar_activation_id_of(v: &JsonValue) -> (r: Result<String, String>)
    ensures
        match as_str(at(Some(*v), "id"@)) {
            Some(id) => r matches Ok(x) && x@ == id,
            None => match as_str(at(at(Some(*v), "activation"@), "id"@)) {
                Some(id) => r matches Ok(x) && x@ == id,
                None => r matches Err(e) && e@ == "Polar activate response missing activation id."@,
            },
        },
{
    activation_id_from_response(
        json_str(json_at(Some(v), "id")),
        json_str(json_at(json_at(Some(v), "activation"), "id")),
    )
}

} // verus!
