//! Licensing: the build channel, the license tier, and the decisions around
//! validating license keys with Polar. The HTTP calls and the reading of the
//! environment are done by the caller, which hands in what they returned.

use vstd::prelude::*;
use sha2::Digest;
use crate::routes::opt_view;
use crate::text::{
    append_chars, append_str, ascii_lower, ascii_lower_chars, chars_eq, chars_of, parse_uint,
    parse_u64_chars, string_of, str_eq_chars, trim, trim_chars,
};

verus! {

/// Which edition this binary is.
#[derive(Debug, Clone, Copy, PartialEq, Eq, Structural)]
pub enum BuildChannel {
    Community,
    Commercial,
}

/// What the current license grants.
#[derive(Debug, Clone, Copy, PartialEq, Eq, Structural)]
pub enum LicenseTier {
    Unlicensed,
    Commercial,
}

/// The result of activating a key.
#[derive(Debug, Clone)]
pub struct LicenseActivation {
    pub tier: LicenseTier,
    pub activation_id: Option<String>,
    pub customer_id: Option<String>,
}

/// The license kept on disk.
#[derive(Debug, Clone, PartialEq, Eq)]
pub struct StoredLicense {
    pub key: String,
    pub activation_id: Option<String>,
    pub customer_id: Option<String>,
}

/// The license state of this process.
#[derive(Debug, Clone, Copy, PartialEq, Eq)]
pub struct LicenseState {
    pub tier: LicenseTier,
}

impl LicenseState {
    /// The state a process starts in: unlicensed until a check says more.
    pub fn new() -> (r: Self)
        ensures
            r.tier == LicenseTier::Unlicensed,
    {
        LicenseState { tier: LicenseTier::Unlicensed }
    }
}

/// The Polar settings licensing uses.
#[derive(Debug, Clone)]
pub struct PolarConfig {
    pub api_base_url: String,
    pub organization_id: String,
    pub pro_benefit_id: String,
    pub ultimate_benefit_id: Option<String>,
    pub use_activations: bool,
    pub activation_label: String,
}

/// This binary's edition.
pub fn build_channel() -> (r: BuildChannel)
    ensures
        r == BuildChannel::Commercial,
{
    BuildChannel::Commercial
}

/// The Polar settings as raw values: each as set in the environment when
/// the program runs, or as fixed when it was built.
#[derive(Debug, Clone)]
pub struct PolarSettings {
    pub organization_id: Option<String>,
    pub pro_benefit_id: Option<String>,
    pub ultimate_benefit_id: Option<String>,
    pub api_base_url: Option<String>,
    pub use_activations: Option<String>,
    pub activation_label: Option<String>,
    pub require_device_binding: Option<String>,
}

/// A setting: the runtime value, trimmed, when not blank; else the build-time
/// value, trimmed, when not blank.
pub open spec fn setting_value(runtime: Option<String>, build_time: Option<String>) -> Option<Seq<char>> {
    match match runtime {
        Some(v) => trimmed_nonempty(v@),
        None => None,
    } {
        Some(v) => Some(v),
        None => match build_time {
            Some(v) => trimmed_nonempty(v@),
            None => None,
        },
    }
}

/// A setting (see [`setting_value`]).
pub fn polar_setting(runtime: &Option<String>, build_time: &Option<String>) -> (r: Option<String>)
    ensures
        opt_view(r) == setting_value(*runtime, *build_time),
{
    let from_runtime = match runtime {
        Some(v) => non_empty(v.as_str()),
        None => None,
    };
    match from_runtime {
        Some(v) => Some(v),
        None => match build_time {
            Some(v) => non_empty(v.as_str()),
            None => None,
        },
    }
}

/// The Polar settings from the runtime values, falling back to the
/// build-time ones setting by setting. They are complete, and keys can be
/// verified, exactly when the organization and the pro benefit are set.
pub fn polar_config_from_settings(runtime: &PolarSettings, build_time: &PolarSettings, default_label: String) -> (r:
    Result<PolarConfig, String>)
    ensures
        r is Ok <==> (setting_value(runtime.organization_id, build_time.organization_id) is Some
            && setting_value(runtime.pro_benefit_id, build_time.pro_benefit_id) is Some),
        r is Ok ==> r->Ok_0.organization_id@ == setting_value(
            runtime.organization_id,
            build_time.organization_id,
        ).unwrap() && r->Ok_0.pro_benefit_id@ == setting_value(
            runtime.pro_benefit_id,
            build_time.pro_benefit_id,
        ).unwrap() && opt_view(r->Ok_0.ultimate_benefit_id) == setting_value(
            runtime.ultimate_benefit_id,
            build_time.ultimate_benefit_id,
        ) && r->Ok_0.api_base_url@ == match setting_value(runtime.api_base_url, build_time.api_base_url) {
            Some(u) => u,
            None => "https://api.polar.sh"@,
        } && r->Ok_0.use_activations == bool_setting(
            setting_value(runtime.use_activations, build_time.use_activations),
            false,
        ) && r->Ok_0.activation_label@ == match setting_value(
            runtime.activation_label,
            build_time.activation_label,
        ) {
            Some(l) => l,
            None => default_label@,
        },
{
    let use_activations = polar_setting(&runtime.use_activations, &build_time.use_activations);
    polar_config_from_values(
        polar_setting(&runtime.organization_id, &build_time.organization_id),
        polar_setting(&runtime.pro_benefit_id, &build_time.pro_benefit_id),
        polar_setting(&runtime.ultimate_benefit_id, &build_time.ultimate_benefit_id),
        polar_setting(&runtime.api_base_url, &build_time.api_base_url),
        match &use_activations {
            Some(v) => Some(v.as_str()),
            None => None,
        },
        polar_setting(&runtime.activation_label, &build_time.activation_label),
        default_label,
    )
}

/// Keys can be activated in a commercial build whose Polar settings are
/// complete.
pub fn license_activation_available(verifier_available: bool) -> (r: bool)
    ensures
        r == verifier_available,
{
    build_channel() == BuildChannel::Commercial && verifier_available
}

/// Whether the Polar settings are complete.
pub fn license_verifier_available(config: &Result<PolarConfig, String>) -> (r: bool)
    ensures
        r == config is Ok,
{
    config.is_ok()
}

/// The tier of this process.
pub fn current_license_tier(state: &LicenseState) -> (r: LicenseTier)
    ensures
        r == state.tier,
{
    state.tier
}

/// Sets the tier of this process.
pub fn set_current_license_tier(state: &mut LicenseState, tier: LicenseTier)
    ensures
        final(state).tier == tier,
{
    state.tier = tier;
}

/// `community`, `paid-no-polar-config`, `unlicensed` or `commercial`.
pub open spec fn status_label(channel: BuildChannel, available: bool, tier: LicenseTier) -> Seq<char> {
    match channel {
        BuildChannel::Community => "community"@,
        BuildChannel::Commercial => if !available {
            "paid-no-polar-config"@
        } else {
            match tier {
                LicenseTier::Unlicensed => "unlicensed"@,
                LicenseTier::Commercial => "commercial"@,
            }
        },
    }
}

/// The word that describes the license situation.
pub fn license_status_label(channel: BuildChannel, activation_available: bool, tier: LicenseTier) -> (r:
    String)
    ensures
        r@ == status_label(channel, activation_available, tier),
{
    let s = match channel {
        BuildChannel::Community => "community",
        BuildChannel::Commercial => if !activation_available {
            "paid-no-polar-config"
        } else {
            match tier {
                LicenseTier::Unlicensed => "unlicensed",
                LicenseTier::Commercial => "commercial",
            }
        },
    };
    string_of(&chars_of(s))
}

/// The word of a tier.
pub fn license_tier_label(tier: LicenseTier) -> (r: &'static str)
    ensures
        tier == LicenseTier::Unlicensed ==> r@ == "none"@,
        tier == LicenseTier::Commercial ==> r@ == "commercial"@,
{
    match tier {
        LicenseTier::Unlicensed => "none",
        LicenseTier::Commercial => "commercial",
    }
}

/// A trimmed text, when it is not empty.
pub open spec fn trimmed_nonempty(v: Seq<char>) -> Option<Seq<char>> {
    if trim(v).len() > 0 {
        Some(trim(v))
    } else {
        None
    }
}

/// The trimmed value, when it is not empty.
pub fn non_empty(value: &str) -> (r: Option<String>)
    ensures
        opt_view(r) == trimmed_nonempty(value@),
{
    let t = trim_chars(&chars_of(value));
    if t.len() == 0 {
        None
    } else {
        Some(string_of(&t))
    }
}

/// An optional setting, trimmed, absent when blank.
pub fn optional_value(raw: Option<&str>) -> (r: Option<String>)
    ensures
        opt_view(r) == match raw {
            Some(v) => trimmed_nonempty(v@),
            None => None,
        },
{
    match raw {
        Some(v) => non_empty(v),
        None => None,
    }
}

/// How a yes/no setting reads: `1 true yes on` and `0 false no off`
/// (trimmed, any ASCII case), else the default.
pub open spec fn bool_setting(value: Option<Seq<char>>, default: bool) -> bool {
    match value {
        Some(v) => {
            let l = ascii_lower(trim(v));
            if l == "1"@ || l == "true"@ || l == "yes"@ || l == "on"@ {
                true
            } else if l == "0"@ || l == "false"@ || l == "no"@ || l == "off"@ {
                false
            } else {
                default
            }
        },
        None => default,
    }
}

/// Reads a yes/no setting.
pub fn parse_bool_value(value: Option<&str>, default: bool) -> (r: bool)
    ensures
        r == bool_setting(
            match value {
                Some(v) => Some(v@),
                None => None,
            },
            default,
        ),
{
    match value {
        Some(v) => {
            let l = ascii_lower_chars(&trim_chars(&chars_of(v)));
            if str_eq_chars("1", &l) || str_eq_chars("true", &l) || str_eq_chars("yes", &l)
                || str_eq_chars("on", &l) {
                true
            } else if str_eq_chars("0", &l) || str_eq_chars("false", &l) || str_eq_chars(
                "no",
                &l,
            ) || str_eq_chars("off", &l) {
                false
            } else {
                default
            }
        },
        None => default,
    }
}

pub const LICENSE_REVALIDATE_INTERVAL_DEFAULT_SECS: u64 = 21_600;
pub const LICENSE_REVALIDATE_INTERVAL_MIN_SECS: u64 = 3_600;
pub const LICENSE_REVALIDATE_INTERVAL_MAX_SECS: u64 = 86_400;

/// The revalidation interval: the configured number of seconds (default six
/// hours), clamped to one hour ..= one day.
pub open spec fn interval_secs(raw: Option<Seq<char>>) -> nat {
    let v: nat = match raw {
        Some(r) => match parse_uint(trim(r), u64::MAX as nat) {
            Some(x) => x,
            None => LICENSE_REVALIDATE_INTERVAL_DEFAULT_SECS as nat,
        },
        None => LICENSE_REVALIDATE_INTERVAL_DEFAULT_SECS as nat,
    };
    if v < LICENSE_REVALIDATE_INTERVAL_MIN_SECS {
        LICENSE_REVALIDATE_INTERVAL_MIN_SECS as nat
    } else if v > LICENSE_REVALIDATE_INTERVAL_MAX_SECS {
        LICENSE_REVALIDATE_INTERVAL_MAX_SECS as nat
    } else {
        v
    }
}

/// How often the license is checked again.
pub fn revalidation_interval_secs(raw: Option<&str>) -> (r: u64)
    ensures
        r as nat == interval_secs(
            match raw {
                Some(v) => Some(v@),
                None => None,
            },
        ),
{
    let v = match raw {
        Some(s) => match parse_u64_chars(&trim_chars(&chars_of(s))) {
            Some(x) => x,
            None => LICENSE_REVALIDATE_INTERVAL_DEFAULT_SECS,
        },
        None => LICENSE_REVALIDATE_INTERVAL_DEFAULT_SECS,
    };
    if v < LICENSE_REVALIDATE_INTERVAL_MIN_SECS {
        LICENSE_REVALIDATE_INTERVAL_MIN_SECS
    } else if v > LICENSE_REVALIDATE_INTERVAL_MAX_SECS {
        LICENSE_REVALIDATE_INTERVAL_MAX_SECS
    } else {
        v
    }
}

/// The activation label when none is configured: `loopbox-<user>@<host>`.
pub fn default_activation_label(host: Option<&str>, user: Option<&str>) -> (r: String)
    ensures
        r@ == "loopbox-"@ + match user {
            Some(u) => u@,
            None => "user"@,
        } + "@"@ + match host {
            Some(h) => h@,
            None => "device"@,
        },
{
    let mut out = chars_of("loopbox-");
    match user {
        Some(u) => append_str(&mut out, u),
        None => append_str(&mut out, "user"),
    }
    append_str(&mut out, "@");
    match host {
        Some(h) => append_str(&mut out, h),
        None => append_str(&mut out, "device"),
    }
    string_of(&out)
}

/// The Polar settings from their configured values (already trimmed, absent
/// when blank); the organization and the pro benefit are required.
pub fn polar_config_from_values(
    organization_id: Option<String>,
    pro_benefit_id: Option<String>,
    ultimate_benefit_id: Option<String>,
    api_base_url: Option<String>,
    use_activations: Option<&str>,
    activation_label: Option<String>,
    default_label: String,
) -> (r: Result<PolarConfig, String>)
    ensures
        organization_id is None ==> r is Err && r->Err_0@ == "Missing required Polar config `LOOPBOX_POLAR_ORGANIZATION_ID`. Set it as runtime env or at build-time."@,
        organization_id is Some && pro_benefit_id is None ==> r is Err && r->Err_0@ == "Missing required Polar config `LOOPBOX_POLAR_PRO_BENEFIT_ID`. Set it as runtime env or at build-time."@,
        organization_id is Some && pro_benefit_id is Some ==> r is Ok && r->Ok_0.organization_id
            == organization_id.unwrap() && r->Ok_0.pro_benefit_id == pro_benefit_id.unwrap()
            && r->Ok_0.ultimate_benefit_id == ultimate_benefit_id && r->Ok_0.api_base_url@ == match api_base_url {
            Some(u) => u@,
            None => "https://api.polar.sh"@,
        } && r->Ok_0.use_activations == bool_setting(
            match use_activations {
                Some(v) => Some(v@),
                None => None,
            },
            false,
        ) && r->Ok_0.activation_label@ == match activation_label {
            Some(l) => l@,
            None => default_label@,
        },
{
    let organization_id = match organization_id {
        Some(v) => v,
        None => return Err(
            string_of(
                &chars_of(
                    "Missing required Polar config `LOOPBOX_POLAR_ORGANIZATION_ID`. Set it as runtime env or at build-time.",
                ),
            ),
        ),
    };
    let pro_benefit_id = match pro_benefit_id {
        Some(v) => v,
        None => return Err(
            string_of(
                &chars_of(
                    "Missing required Polar config `LOOPBOX_POLAR_PRO_BENEFIT_ID`. Set it as runtime env or at build-time.",
                ),
            ),
        ),
    };
    Ok(
        PolarConfig {
            api_base_url: match api_base_url {
                Some(u) => u,
                None => string_of(&chars_of("https://api.polar.sh")),
            },
            organization_id,
            pro_benefit_id,
            ultimate_benefit_id,
            use_activations: parse_bool_value(use_activations, false),
            activation_label: match activation_label {
                Some(l) => l,
                None => default_label,
            },
        },
    )
}

/// A benefit grants the commercial tier when it is the ultimate or the pro
/// benefit.
pub fn tier_from_benefit_id(config: &PolarConfig, benefit_id: &str) -> (r: Option<LicenseTier>)
    ensures
        (match config.ultimate_benefit_id {
            Some(u) => u@ == benefit_id@,
            None => false,
        } || config.pro_benefit_id@ == benefit_id@) ==> r == Some(LicenseTier::Commercial),
        !(match config.ultimate_benefit_id {
            Some(u) => u@ == benefit_id@,
            None => false,
        } || config.pro_benefit_id@ == benefit_id@) ==> r is None,
{
    let b = chars_of(benefit_id);
    match &config.ultimate_benefit_id {
        Some(u) => {
            if chars_eq(&chars_of(u.as_str()), &b) {
                return Some(LicenseTier::Commercial);
            }
        },
        None => {},
    }
    if chars_eq(&chars_of(config.pro_benefit_id.as_str()), &b) {
        return Some(LicenseTier::Commercial);
    }
    None
}

/// The fields of a Polar validation reply that licensing reads.
#[derive(Debug, Clone)]
pub struct PolarValidateResponse {
    pub status: Option<String>,
    pub benefit_id: Option<String>,
    pub customer_id: Option<String>,
    pub customer_object_id: Option<String>,
}

/// The outcome of a validation.
#[derive(Debug, Clone)]
pub struct LicenseValidation {
    pub tier: LicenseTier,
    pub customer_id: Option<String>,
}

/// The customer of a validation reply: `customer_id`, else `customer.id`,
/// trimmed and not blank.
pub open spec fn reply_customer(resp: PolarValidateResponse) -> Option<Seq<char>> {
    let direct = match resp.customer_id {
        Some(c) => trimmed_nonempty(c@),
        None => None,
    };
    if direct is Some {
        direct
    } else {
        match resp.customer_object_id {
            Some(c) => trimmed_nonempty(c@),
            None => None,
        }
    }
}

/// Reads a Polar validation reply: the status must be `granted` (any ASCII
/// case), and the benefit must map to a tier.
pub fn interpret_validation(config: &PolarConfig, resp: &PolarValidateResponse) -> (r: Result<
    LicenseValidation,
    String,
>)
    ensures
        ({
            let status = match resp.status {
                Some(s) => ascii_lower(s@),
                None => seq![],
            };
            &&& status != "granted"@ ==> r is Err && r->Err_0@ == "Polar license status is "@
                + (if status.len() == 0 {
                "not granted"@
            } else {
                status
            }) + " (expected granted)."@
            &&& status == "granted"@ && resp.benefit_id is None ==> r is Err && r->Err_0@
                == "Polar validate response missing benefit_id."@
            &&& r is Ok ==> status == "granted"@ && resp.benefit_id is Some && r->Ok_0.tier
                == LicenseTier::Commercial && opt_view(r->Ok_0.customer_id) == reply_customer(
                *resp,
            )
        }),
{
    let status = match &resp.status {
        Some(s) => ascii_lower_chars(&chars_of(s.as_str())),
        None => Vec::new(),
    };
    if !str_eq_chars("granted", &status) {
        let mut m = chars_of("Polar license status is ");
        if status.len() == 0 {
            append_str(&mut m, "not granted");
        } else {
            append_chars(&mut m, &status);
        }
        append_str(&mut m, " (expected granted).");
        return Err(string_of(&m));
    }
    let benefit_id = match &resp.benefit_id {
        Some(b) => b,
        None => return Err(string_of(&chars_of("Polar validate response missing benefit_id."))),
    };
    let tier = match tier_from_benefit_id(config, benefit_id.as_str()) {
        Some(t) => t,
        None => {
            let mut m = chars_of("License key is valid, but benefit_id ");
            append_str(&mut m, benefit_id.as_str());
            append_str(&mut m, " is not mapped to a Loopbox tier.");
            return Err(string_of(&m));
        },
    };
    let direct = match &resp.customer_id {
        Some(c) => non_empty(c.as_str()),
        None => None,
    };
    let customer_id = if direct.is_some() {
        direct
    } else {
        match &resp.customer_object_id {
            Some(c) => non_empty(c.as_str()),
            None => None,
        }
    };
    Ok(LicenseValidation { tier, customer_id })
}

/// The activation id of a Polar activation reply: `id`, else `activation.id`.
pub fn activation_id_from_response(id: Option<String>, nested_id: Option<String>) -> (r: Result<
    String,
    String,
>)
    ensures
        id is Some ==> r == Ok::<String, String>(id.unwrap()),
        id is None && nested_id is Some ==> r == Ok::<String, String>(nested_id.unwrap()),
        id is None && nested_id is None ==> r is Err && r->Err_0@
            == "Polar activate response missing activation id."@,
{
    match id {
        Some(v) => Ok(v),
        None => match nested_id {
            Some(v) => Ok(v),
            None => Err(string_of(&chars_of("Polar activate response missing activation id."))),
        },
    }
}

/// The text of a failed Polar reply: its `detail`, `error` or `message`
/// (trimmed, first not blank), else the trimmed body, else a stock text.
pub fn polar_error_message(
    detail: Option<&str>,
    error: Option<&str>,
    message: Option<&str>,
    body: &str,
) -> (r: String)
    ensures
        r@ == if detail is Some && trim(detail.unwrap()@).len() > 0 {
            trim(detail.unwrap()@)
        } else if error is Some && trim(error.unwrap()@).len() > 0 {
            trim(error.unwrap()@)
        } else if message is Some && trim(message.unwrap()@).len() > 0 {
            trim(message.unwrap()@)
        } else if trim(body@).len() > 0 {
            trim(body@)
        } else {
            "no additional details"@
        },
{
    match detail {
        Some(d) => {
            let t = trim_chars(&chars_of(d));
            if t.len() > 0 {
                return string_of(&t);
            }
        },
        None => {},
    }
    match error {
        Some(d) => {
            let t = trim_chars(&chars_of(d));
            if t.len() > 0 {
                return string_of(&t);
            }
        },
        None => {},
    }
    match message {
        Some(d) => {
            let t = trim_chars(&chars_of(d));
            if t.len() > 0 {
                return string_of(&t);
            }
        },
        None => {},
    }
    let b = trim_chars(&chars_of(body));
    if b.len() > 0 {
        string_of(&b)
    } else {
        string_of(&chars_of("no additional details"))
    }
}

/// The tier a validation grants (`validation` is what Polar's reply gave).
pub fn resolve_license_tier_from_key(validation: Result<LicenseValidation, String>) -> (r: Result<
    LicenseTier,
    String,
>)
    ensures
        validation is Ok ==> r == Ok::<LicenseTier, String>(validation->Ok_0.tier),
        validation is Err ==> r == Err::<LicenseTier, String>(validation->Err_0),
{
    match validation {
        Ok(v) => Ok(v.tier),
        Err(e) => Err(e),
    }
}

/// The activation a key gets: the tier and customer of the validation, and
/// the activation id when activations are used.
pub fn activate_license_key_with_provider(
    activation_id: Option<String>,
    validation: Result<LicenseValidation, String>,
) -> (r: Result<LicenseActivation, String>)
    ensures
        validation is Err ==> r == Err::<LicenseActivation, String>(validation->Err_0),
        validation is Ok ==> r is Ok && r->Ok_0.tier == validation->Ok_0.tier
            && r->Ok_0.activation_id == activation_id && r->Ok_0.customer_id
            == validation->Ok_0.customer_id,
{
    match validation {
        Ok(v) => Ok(LicenseActivation { tier: v.tier, activation_id, customer_id: v.customer_id }),
        Err(e) => Err(e),
    }
}

/// The key to activate: an error in a community build or for a blank key,
/// else the trimmed key.
pub fn activate_license_key(channel: BuildChannel, key: &str) -> (r: Result<String, String>)
    ensures
        channel == BuildChannel::Community ==> r is Err && r->Err_0@
            == "License activation is not available in Community build."@,
        channel == BuildChannel::Commercial && trim(key@).len() == 0 ==> r is Err && r->Err_0@
            == "License key cannot be empty."@,
        channel == BuildChannel::Commercial && trim(key@).len() > 0 ==> r is Ok && r->Ok_0@ == trim(
            key@,
        ),
{
    if channel == BuildChannel::Community {
        return Err(string_of(&chars_of("License activation is not available in Community build.")));
    }
    let normalized = trim_chars(&chars_of(key));
    if normalized.len() == 0 {
        return Err(string_of(&chars_of("License key cannot be empty.")));
    }
    Ok(string_of(&normalized))
}

/// The record kept for an activated key.
pub fn stored_license_for(key: &str, activation: &LicenseActivation) -> (r: StoredLicense)
    ensures
        r.key@ == key@,
        r.activation_id == activation.activation_id,
        r.customer_id == activation.customer_id,
{
    StoredLicense {
        key: string_of(&chars_of(key)),
        activation_id: crate::traffic::clone_opt(&activation.activation_id),
        customer_id: crate::traffic::clone_opt(&activation.customer_id),
    }
}

/// A persisted license as read: the key trimmed (none when blank), the ids
/// trimmed and absent when blank.
pub fn normalize_stored_license(stored: &StoredLicense) -> (r: Option<StoredLicense>)
    ensures
        trim(stored.key@).len() == 0 ==> r is None,
        trim(stored.key@).len() > 0 ==> r is Some && r.unwrap().key@ == trim(stored.key@)
            && opt_view(r.unwrap().activation_id) == match stored.activation_id {
            Some(a) => trimmed_nonempty(a@),
            None => None,
        } && opt_view(r.unwrap().customer_id) == match stored.customer_id {
            Some(a) => trimmed_nonempty(a@),
            None => None,
        },
{
    let key = trim_chars(&chars_of(stored.key.as_str()));
    if key.len() == 0 {
        return None;
    }
    let activation_id = match &stored.activation_id {
        Some(a) => non_empty(a.as_str()),
        None => None,
    };
    let customer_id = match &stored.customer_id {
        Some(a) => non_empty(a.as_str()),
        None => None,
    };
    Some(StoredLicense { key: string_of(&key), activation_id, customer_id })
}

/// What the startup check does next.
#[derive(Debug, Clone)]
pub enum StartupLicenseStep {
    /// Run unlicensed.
    Unlicensed,
    /// Verify this key (from the environment when `from_env`).
    Verify { key: String, activation_id: Option<String>, from_env: bool },
    /// Run unlicensed and report this error.
    Fail(String),
}

/// What the first step of the startup check is (see
/// [`init_license_state_at_startup`]).
pub open spec fn startup_step_is(
    r: StartupLicenseStep,
    channel: BuildChannel,
    activation_available: bool,
    env_key: Option<Seq<char>>,
    env_activation_id: Option<Seq<char>>,
    stored: Result<Option<StoredLicense>, String>,
) -> bool {
    &&& (channel == BuildChannel::Community || !activation_available) ==> r is Unlicensed
    &&& channel == BuildChannel::Commercial && activation_available && env_key is Some ==> (
    if trim(env_key.unwrap()).len() == 0 {
        r is Unlicensed
    } else {
        r is Verify && r->key@ == trim(env_key.unwrap()) && r->from_env && opt_view(
            r->activation_id,
        ) == match env_activation_id {
            Some(a) => trimmed_nonempty(a),
            None => None,
        }
    })
    &&& channel == BuildChannel::Commercial && activation_available && env_key is None ==> match stored {
        Err(e) => r is Fail && r->Fail_0 == e,
        Ok(None) => r is Unlicensed,
        Ok(Some(s)) => if trim(s.key@).len() == 0 {
            r is Unlicensed
        } else {
            r is Verify && r->key@ == trim(s.key@) && !r->from_env && r->activation_id
                == s.activation_id
        },
    }
}

/// The first step of the startup check: a community build or one without
/// Polar settings runs unlicensed; a key in `LOOPBOX_LICENSE_KEY` is verified
/// (none when blank); else the persisted license is verified, if any.
pub fn init_license_state_at_startup(
    channel: BuildChannel,
    activation_available: bool,
    env_key: Option<&str>,
    env_activation_id: Option<&str>,
    stored: Result<Option<StoredLicense>, String>,
) -> (r: StartupLicenseStep)
    ensures
        startup_step_is(
            r,
            channel,
            activation_available,
            match env_key {
                Some(k) => Some(k@),
                None => None,
            },
            match env_activation_id {
                Some(a) => Some(a@),
                None => None,
            },
            stored,
        ),
{
    if channel == BuildChannel::Community || !activation_available {
        return StartupLicenseStep::Unlicensed;
    }
    match env_key {
        Some(k) => {
            let key = trim_chars(&chars_of(k));
            if key.len() == 0 {
                return StartupLicenseStep::Unlicensed;
            }
            let activation_id = match env_activation_id {
                Some(a) => non_empty(a),
                None => None,
            };
            StartupLicenseStep::Verify { key: string_of(&key), activation_id, from_env: true }
        },
        None => match stored {
            Err(e) => StartupLicenseStep::Fail(e),
            Ok(None) => StartupLicenseStep::Unlicensed,
            Ok(Some(s)) => {
                let key = trim_chars(&chars_of(s.key.as_str()));
                if key.len() == 0 {
                    return StartupLicenseStep::Unlicensed;
                }
                StartupLicenseStep::Verify {
                    key: string_of(&key),
                    activation_id: s.activation_id,
                    from_env: false,
                }
            },
        },
    }
}

/// The tier after a startup step is applied: unlicensed for a step that
/// runs unlicensed; otherwise unchanged until the key has been verified.
pub open spec fn applied_tier(tier: LicenseTier, step: StartupLicenseStep) -> LicenseTier {
    match step {
        StartupLicenseStep::Unlicensed => LicenseTier::Unlicensed,
        _ => tier,
    }
}

/// Applies the first startup step to the license state.
pub fn apply_startup_step(state: &mut LicenseState, step: &StartupLicenseStep)
    ensures
        final(state).tier == applied_tier(old(state).tier, *step),
{
    match step {
        StartupLicenseStep::Unlicensed => set_current_license_tier(state, LicenseTier::Unlicensed),
        _ => {},
    }
}

/// The tier `current_license_tier` reports is unlicensed when nothing has
/// changed it since the process started (`LicenseState::new`), and after a
/// startup check applied (`apply_startup_step`) in a community build, in a
/// build without Polar settings, or with `LOOPBOX_LICENSE_KEY` set but blank,
/// whatever tier the process had before.
pub proof fn law_startup_without_key_is_unlicensed(
    before: LicenseState,
    after: LicenseState,
    step: StartupLicenseStep,
    channel: BuildChannel,
    activation_available: bool,
    env_key: Option<Seq<char>>,
    env_activation_id: Option<Seq<char>>,
    stored: Result<Option<StoredLicense>, String>,
)
    requires
        startup_step_is(step, channel, activation_available, env_key, env_activation_id, stored),
        after.tier == applied_tier(before.tier, step),
        channel == BuildChannel::Community || !activation_available || (env_key is Some && trim(
            env_key.unwrap(),
        ).len() == 0),
    ensures
        after.tier == LicenseTier::Unlicensed,
{
}


/// What finding the license identity for a support ticket does next.
#[derive(Debug, Clone)]
pub enum SupportIdentityStep {
    /// The customer id and the activation id are known.
    Found(String, Option<String>),
    /// Ask the license provider for the customer id of this key.
    Resolve { key: String, activation_id: Option<String> },
    /// Look at the persisted license.
    UseStored,
}

/// The first step, from the environment: a customer id set there (trimmed,
/// not blank) is used with the activation id set there; else a key set there
/// is resolved with that activation id; else the persisted license is used.
pub open spec fn env_identity_step(
    r: SupportIdentityStep,
    customer_id: Option<Seq<char>>,
    key: Option<Seq<char>>,
    activation_id: Option<Seq<char>>,
) -> bool {
    let act = match activation_id {
        Some(a) => trimmed_nonempty(a),
        None => None,
    };
    let cust = match customer_id {
        Some(c) => trimmed_nonempty(c),
        None => None,
    };
    let k = match key {
        Some(x) => trimmed_nonempty(x),
        None => None,
    };
    match cust {
        Some(c) => r matches SupportIdentityStep::Found(c2, a2) && c2@ == c && opt_view(a2) == act,
        None => match k {
            Some(kk) => r matches SupportIdentityStep::Resolve { key: k2, activation_id: a2 } && k2@
                == kk && opt_view(a2) == act,
            None => r is UseStored,
        },
    }
}

fn opt_trimmed(v: Option<&str>) -> (r: Option<String>)
    ensures
        opt_view(r) == match v {
            Some(x) => trimmed_nonempty(x@),
            None => None,
        },
{
    match v {
        Some(x) => non_empty(x),
        None => None,
    }
}

/// The first step of finding the identity for a support ticket, from the
/// `LOOPBOX_LICENSE_CUSTOMER_ID`, `LOOPBOX_LICENSE_KEY` and
/// `LOOPBOX_LICENSE_ACTIVATION_ID` settings.
pub fn support_identity_from_env(customer_id: Option<&str>, key: Option<&str>, activation_id: Option<&str>) -> (r:
    SupportIdentityStep)
    ensures
        env_identity_step(
            r,
            match customer_id {
                Some(c) => Some(c@),
                None => None,
            },
            match key {
                Some(k) => Some(k@),
                None => None,
            },
            match activation_id {
                Some(a) => Some(a@),
                None => None,
            },
        ),
{
    let act = opt_trimmed(activation_id);
    if let Some(c) = opt_trimmed(customer_id) {
        return SupportIdentityStep::Found(c, act);
    }
    match opt_trimmed(key) {
        Some(k) => SupportIdentityStep::Resolve { key: k, activation_id: act },
        None => SupportIdentityStep::UseStored,
    }
}

/// The step from the persisted license: its customer id (trimmed, not
/// blank) with its activation id; else its key is resolved with its
/// activation id.
pub fn support_identity_from_stored(stored: &StoredLicense) -> (r: SupportIdentityStep)
    ensures
        match stored.customer_id {
            Some(c) => trimmed_nonempty(c@) is Some,
            None => false,
        } ==> (r matches SupportIdentityStep::Found(c2, a2) && Some(c2@) == trimmed_nonempty(
            stored.customer_id.unwrap()@,
        ) && opt_view(a2) == opt_view(stored.activation_id)),
        !(match stored.customer_id {
            Some(c) => trimmed_nonempty(c@) is Some,
            None => false,
        }) ==> (r matches SupportIdentityStep::Resolve { key: k2, activation_id: a2 } && k2@
            == stored.key@ && opt_view(a2) == opt_view(stored.activation_id)),
{
    let act = match &stored.activation_id {
        Some(a) => Some(a.clone()),
        None => None,
    };
    let cust = match &stored.customer_id {
        Some(c) => non_empty(c.as_str()),
        None => None,
    };
    match cust {
        Some(c) => SupportIdentityStep::Found(c, act),
        None => SupportIdentityStep::Resolve { key: stored.key.clone(), activation_id: act },
    }
}

/// Whether the periodic license check starts, and at what interval: only in
/// a commercial build with Polar settings, unless it is switched off or
/// already running.
pub fn start_periodic_license_revalidation(
    channel: BuildChannel,
    activation_available: bool,
    revalidation_disabled: bool,
    already_started: bool,
    interval_raw: Option<&str>,
) -> (r: Option<u64>)
    ensures
        (channel == BuildChannel::Commercial && activation_available && !revalidation_disabled
            && !already_started) ==> r is Some && r->Some_0 as nat == interval_secs(
            match interval_raw {
                Some(v) => Some(v@),
                None => None,
            },
        ),
        !(channel == BuildChannel::Commercial && activation_available && !revalidation_disabled
            && !already_started) ==> r is None,
{
    if channel != BuildChannel::Commercial {
        return None;
    }
    if !activation_available || revalidation_disabled {
        return None;
    }
    if already_started {
        return None;
    }
    Some(revalidation_interval_secs(interval_raw))
}

/// The tier after verifying a startup key, and the error to report when the
/// verification failed (`license_path` names the persisted license file).
pub fn init_license_finish(
    from_env: bool,
    license_path: &str,
    verified: Result<LicenseTier, String>,
) -> (r: (LicenseTier, Result<(), String>))
    ensures
        verified is Ok ==> r.0 == verified->Ok_0 && r.1 is Ok,
        verified is Err ==> r.0 == LicenseTier::Unlicensed && r.1 is Err && r.1->Err_0@ == if from_env {
            "LOOPBOX_LICENSE_KEY could not be verified: "@ + verified->Err_0@
        } else {
            "Persisted license in "@ + license_path@ + " could not be verified: "@
                + verified->Err_0@
        },
{
    match verified {
        Ok(t) => (t, Ok(())),
        Err(reason) => {
            let mut m = if from_env {
                chars_of("LOOPBOX_LICENSE_KEY could not be verified: ")
            } else {
                let mut m = chars_of("Persisted license in ");
                append_str(&mut m, license_path);
                append_str(&mut m, " could not be verified: ");
                m
            };
            append_str(&mut m, reason.as_str());
            (LicenseTier::Unlicensed, Err(string_of(&m)))
        },
    }
}

// ---------------------------------------------------------------------------
// Device fingerprint
// ---------------------------------------------------------------------------

/// A lowercase hex digit.
pub open spec fn hex_lower(d: nat) -> char {
    crate::grpc::hex_digit(d)
}

/// Each byte as two lowercase hex digits.
pub open spec fn hex_text(bytes: Seq<u8>) -> Seq<char>
    decreases bytes.len(),
{
    if bytes.len() == 0 {
        seq![]
    } else {
        hex_text(bytes.drop_last()) + crate::grpc::hex2(bytes.last())
    }
}

/// The bytes in lowercase hex.
pub fn bytes_to_hex_lower(bytes: &[u8]) -> (r: String)
    ensures
        r@ == hex_text(bytes@),
        r@.len() == 2 * bytes@.len(),
{
    let mut out: Vec<char> = Vec::new();
    let mut i: usize = 0;
    assert(bytes@.take(0) =~= Seq::<u8>::empty());
    while i < bytes.len()
        invariant
            i <= bytes@.len(),
            out@ == hex_text(bytes@.take(i as int)),
            out@.len() == 2 * i,
        decreases bytes.len() - i,
    {
        assert(bytes@.take(i + 1).drop_last() =~= bytes@.take(i as int));
        assert(bytes@.take(i + 1).last() == bytes@[i as int]);
        let b = bytes[i];
        out.push(crate::grpc::hex_digit_char(b / 16));
        out.push(crate::grpc::hex_digit_char(b % 16));
        assert(out@ =~= hex_text(bytes@.take(i as int)) + crate::grpc::hex2(b));
        i = i + 1;
    }
    assert(bytes@.take(bytes@.len() as int) =~= bytes@);
    string_of(&out)
}

/// The SHA-256 digest of some bytes.
pub uninterp spec fn sha256(data: Seq<u8>) -> Seq<u8>;

/// The UTF-8 encoding of a text.
pub open spec fn utf8_encoding(s: Seq<char>) -> Seq<u8> {
    vstd::utf8::encode_utf8(s)
}

/// `sha2::Sha256::digest`: the contract names the digest as a function of the
/// input and states its documented length, 32 bytes.
#[verifier::external_body]
fn sha256_digest(data: &[u8]) -> (r: Vec<u8>)
    ensures
        r@ == sha256(data@),
        r@.len() == 32,
{
    sha2::Sha256::digest(data).to_vec()
}

/// The UTF-8 bytes of a text.
pub(crate) fn utf8_bytes(s: &str) -> (r: Vec<u8>)
    ensures
        r@ == utf8_encoding(s@),
{
    let b = s.as_bytes();
    let mut r: Vec<u8> = Vec::new();
    let mut i: usize = 0;
    while i < b.len()
        invariant
            i <= b@.len(),
            b@ == utf8_encoding(s@),
            r@ == b@.take(i as int),
        decreases b.len() - i,
    {
        r.push(b[i]);
        assert(r@ =~= b@.take(i + 1));
        i = i + 1;
    }
    assert(b@.take(b@.len() as int) =~= b@);
    r
}

/// The fingerprint of a device: SHA-256 of `loopbox-license-device-v1:` and the
/// device id, in lowercase hex.
pub open spec fn device_fingerprint(raw: Seq<char>) -> Seq<char> {
    hex_text(sha256(utf8_encoding("loopbox-license-device-v1"@ + ":"@ + raw)))
}

/// The fingerprint under which a device is bound to a license.
pub fn hash_device_identifier(raw_device_id: &str) -> (r: String)
    ensures
        r@ == device_fingerprint(raw_device_id@),
        r@.len() == 64,
{
    let mut text = chars_of("loopbox-license-device-v1");
    append_str(&mut text, ":");
    append_str(&mut text, raw_device_id);
    let s = string_of(&text);
    let data = utf8_bytes(s.as_str());
    let digest = sha256_digest(data.as_slice());
    bytes_to_hex_lower(digest.as_slice())
}

} // verus!
