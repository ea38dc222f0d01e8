use loopbox::license::{
    apply_startup_step, current_license_tier, init_license_state_at_startup,
    license_activation_available, license_verifier_available, polar_config_from_settings,
    polar_setting, support_identity_from_env, support_identity_from_stored, BuildChannel,
    LicenseState, LicenseTier, PolarSettings, StartupLicenseStep, StoredLicense,
    SupportIdentityStep,
};
use loopbox::preview::PreviewCapture;
use loopbox::status::{
    effective_reverse_proxy_status, proxy_bind_choice, record_synced_status, ReverseProxyState,
    ReverseProxyStatus,
};

#[test]
fn startup_without_polar_settings_runs_unlicensed() {
    let mut state = LicenseState::new();
    assert_eq!(current_license_tier(&state), LicenseTier::Unlicensed);
    state.tier = LicenseTier::Commercial;
    let step = init_license_state_at_startup(BuildChannel::Commercial, false, Some("key"), None, Ok(None));
    apply_startup_step(&mut state, &step);
    assert_eq!(current_license_tier(&state), LicenseTier::Unlicensed);

    state.tier = LicenseTier::Commercial;
    let blank = init_license_state_at_startup(BuildChannel::Commercial, true, Some("   "), None, Ok(None));
    apply_startup_step(&mut state, &blank);
    assert_eq!(current_license_tier(&state), LicenseTier::Unlicensed);

    state.tier = LicenseTier::Commercial;
    let verify = init_license_state_at_startup(BuildChannel::Commercial, true, Some(" k "), None, Ok(None));
    assert!(matches!(verify, StartupLicenseStep::Verify { .. }));
    apply_startup_step(&mut state, &verify);
    assert_eq!(current_license_tier(&state), LicenseTier::Commercial);
}

#[test]
fn preview_capture_keeps_the_first_bytes_of_a_series() {
    let mut c = PreviewCapture::new(5, true);
    c.ingest(b"ab");
    c.ingest(b"");
    c.ingest(b"cd");
    assert_eq!(c.bytes, b"abcd".to_vec());
    assert!(!c.truncated);
    c.ingest(b"efg");
    assert_eq!(c.bytes, b"abcde".to_vec());
    assert!(c.truncated);
    assert_eq!(c.max_bytes, 5);
    assert!(c.text_only);

    let mut zero = PreviewCapture::new(0, false);
    zero.ingest(b"");
    assert!(!zero.truncated);
    zero.ingest(b"x");
    assert!(zero.bytes.is_empty() && zero.truncated);
}

#[test]
fn effective_status_prefers_port_80_over_the_fallback() {
    let local = ReverseProxyStatus::default();
    let on_80 = effective_reverse_proxy_status(local.clone(), None, &vec![false, true], &vec![true]);
    assert!(on_80.running);
    assert_eq!(on_80.bind_port, 80);
    assert!(!on_80.using_fallback_port);
    assert_eq!(on_80.source, "external_probe");
    assert_eq!(on_80.listener_count, 1);

    let fallback = effective_reverse_proxy_status(local.clone(), None, &vec![false], &vec![true]);
    assert_eq!(fallback.bind_port, 18080);
    assert!(fallback.using_fallback_port);
    assert!(fallback.note.is_some());

    let mut sidecar = ReverseProxyStatus::default();
    sidecar.last_error = Some("bind failed".to_string());
    let none = effective_reverse_proxy_status(local, Some(sidecar), &vec![false], &vec![]);
    assert!(!none.running);
    assert_eq!(none.bind_port, 0);
    assert_eq!(none.source, "none");
    assert_eq!(none.last_error.as_deref(), Some("bind failed"));
}

#[test]
fn polar_settings_fall_back_to_build_time_values() {
    let none = PolarSettings {
        organization_id: None,
        pro_benefit_id: None,
        ultimate_benefit_id: None,
        api_base_url: None,
        use_activations: None,
        activation_label: None,
        require_device_binding: None,
    };
    let runtime = PolarSettings { organization_id: Some(" org ".to_string()), pro_benefit_id: Some("  ".to_string()), ..none.clone() };
    let build = PolarSettings { pro_benefit_id: Some("pro".to_string()), use_activations: Some("yes".to_string()), ..none.clone() };
    let config = polar_config_from_settings(&runtime, &build, "loopbox-u@h".to_string()).expect("complete");
    assert_eq!(config.organization_id, "org");
    assert_eq!(config.pro_benefit_id, "pro");
    assert!(config.use_activations);
    assert_eq!(config.activation_label, "loopbox-u@h");
    assert!(license_verifier_available(&Ok(config)));
    let missing = polar_config_from_settings(&runtime, &none, "l".to_string());
    assert!(!license_verifier_available(&missing));
    assert!(!license_activation_available(license_verifier_available(&missing)));
    assert_eq!(polar_setting(&Some(" ".to_string()), &Some(" b ".to_string())).as_deref(), Some("b"));
}

#[test]
fn support_identity_prefers_environment_then_stored_license() {
    match support_identity_from_env(Some(" cust "), Some("key"), Some(" act ")) {
        SupportIdentityStep::Found(c, a) => {
            assert_eq!(c, "cust");
            assert_eq!(a.as_deref(), Some("act"));
        }
        other => panic!("unexpected {other:?}"),
    }
    match support_identity_from_env(Some(" "), Some(" key "), None) {
        SupportIdentityStep::Resolve { key, activation_id } => {
            assert_eq!(key, "key");
            assert!(activation_id.is_none());
        }
        other => panic!("unexpected {other:?}"),
    }
    assert!(matches!(support_identity_from_env(None, Some(""), None), SupportIdentityStep::UseStored));
    let stored = StoredLicense { key: "k".to_string(), activation_id: Some("a".to_string()), customer_id: Some(" c ".to_string()) };
    assert!(matches!(support_identity_from_stored(&stored), SupportIdentityStep::Found(ref c, Some(ref a)) if c == "c" && a == "a"));
    let unresolved = StoredLicense { customer_id: None, ..stored };
    assert!(matches!(support_identity_from_stored(&unresolved), SupportIdentityStep::Resolve { ref key, .. } if key == "k"));
}

#[test]
fn synced_status_counts_listeners_and_joins_notes() {
    let mut state = ReverseProxyState {
        http_listener_started: true,
        started_endpoint_listeners: 2,
        base_note: Some("base".to_string()),
        status: ReverseProxyStatus::default(),
        proxy_traffic_max_events: 100,
    };
    state.status.bind_port = 18080;
    let status = record_synced_status(&mut state, &vec!["one".to_string(), "two".to_string()]);
    assert!(status.running);
    assert_eq!(status.bind_port, 18080);
    assert_eq!(status.listener_count, 3);
    assert_eq!(status.endpoint_listener_count, 2);
    assert_eq!(status.note.as_deref(), Some("base one two"));
    assert_eq!(status.source, "in_process");
    let mut idle = ReverseProxyState { http_listener_started: false, started_endpoint_listeners: 0, base_note: None, status: ReverseProxyStatus::default(), proxy_traffic_max_events: 1 };
    let s = record_synced_status(&mut idle, &vec![]);
    assert!(!s.running && s.note.is_none() && s.listener_count == 0);
}

#[test]
fn proxy_binds_port_80_then_the_fallback() {
    assert_eq!(proxy_bind_choice(None, None), Ok((80, false, None)));
    assert_eq!(
        proxy_bind_choice(Some("in use"), None),
        Ok((18080, true, Some("Proxy could not bind :80 (in use). Using fallback :18080.".to_string())))
    );
    assert_eq!(
        proxy_bind_choice(Some("in use"), Some("denied")),
        Err("Failed to start reverse proxy. Could not bind :80 (in use) or :18080 (denied).".to_string())
    );
}
