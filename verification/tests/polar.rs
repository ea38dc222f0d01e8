use loopbox::json::JsonValue;
use loopbox::license::PolarConfig;
use loopbox::polar::{
    license_conditions, polar_activate_endpoint, polar_activate_request, polar_activation_id_of,
    polar_reply, polar_validate_endpoint, polar_validate_request, polar_validate_response_of,
};

fn config() -> PolarConfig {
    PolarConfig {
        api_base_url: "https://api.polar.test".to_string(),
        organization_id: "org".to_string(),
        pro_benefit_id: "pro".to_string(),
        ultimate_benefit_id: None,
        use_activations: true,
        activation_label: "loopbox-me@host".to_string(),
    }
}

#[test]
fn endpoints_and_requests() {
    assert_eq!(
        polar_validate_endpoint(&config()),
        "https://api.polar.test/v1/customer-portal/license-keys/validate"
    );
    assert_eq!(
        polar_activate_endpoint(&config()),
        "https://api.polar.test/v1/customer-portal/license-keys/activate"
    );
    let (_doc, text) = polar_validate_request(&config(), "KEY", Some("  act-1 "), None);
    let v: serde_json::Value = serde_json::from_str(&text).unwrap();
    assert_eq!(v["key"].as_str(), Some("KEY"));
    assert_eq!(v["organization_id"].as_str(), Some("org"));
    assert_eq!(v["activation_id"].as_str(), Some("act-1"));
    assert!(v.get("conditions").is_none());

    let conditions = license_conditions(true, Some("device-1")).unwrap();
    let (_doc, text) = polar_activate_request(&config(), "KEY", conditions);
    let v: serde_json::Value = serde_json::from_str(&text).unwrap();
    assert_eq!(v["label"].as_str(), Some("loopbox-me@host"));
    assert_eq!(
        v["conditions"]["loopbox_device_fingerprint"].as_str().map(|s| s.len()),
        Some(64)
    );
    assert!(license_conditions(false, None).unwrap().is_none());
    assert!(license_conditions(true, None).is_err());
}

#[test]
fn replies_are_read_or_refused() {
    let err = polar_reply(false, "422 Unprocessable Entity", r#"{"detail":" bad key "}"#).unwrap_err();
    assert_eq!(err, "Polar API request failed with status 422 Unprocessable Entity: bad key");
    let err = polar_reply(false, "500 Internal Server Error", "").unwrap_err();
    assert_eq!(err, "Polar API request failed with status 500 Internal Server Error: no additional details");
    assert_eq!(
        polar_reply(true, "200 OK", "not json").unwrap_err(),
        "Polar API response was not valid JSON."
    );
    let reply = polar_reply(
        true,
        "200 OK",
        r#"{"status":"Granted","benefit_id":"pro","customer":{"id":"c-9"},"id":"act-2"}"#,
    )
    .unwrap();
    let resp = polar_validate_response_of(&reply);
    assert_eq!(resp.status.as_deref(), Some("Granted"));
    assert_eq!(resp.benefit_id.as_deref(), Some("pro"));
    assert_eq!(resp.customer_id, None);
    assert_eq!(resp.customer_object_id.as_deref(), Some("c-9"));
    assert_eq!(polar_activation_id_of(&reply), Ok("act-2".to_string()));
    let nested = polar_reply(true, "200 OK", r#"{"activation":{"id":"act-3"}}"#).unwrap();
    assert_eq!(polar_activation_id_of(&nested), Ok("act-3".to_string()));
    assert!(polar_activation_id_of(&JsonValue::Null).is_err());
}
