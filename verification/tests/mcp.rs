use loopbox::mcp::{
    add_project_input, approval_step, elicitation_decision, explicit_approval_gate, tool_limit,
    ApprovalStep, ElicitationOutcome, McpPortInput, McpProjectInput, McpServiceInput,
};

#[test]
fn converts_mcp_project_input_to_add_project_input() {
    let input = McpProjectInput {
        name: "demo".to_string(),
        dir: "/tmp/demo".to_string(),
        ip: None,
        health_check_interval_secs: None,
        services: vec![McpServiceInput {
            name: "web".to_string(),
            command: "npm run dev".to_string(),
            workdir: None,
            ports: Some(vec![McpPortInput {
                port: 5173,
                protocol: None,
                health_path: Some("/health".to_string()),
                health_check_interval_secs: None,
            }]),
            runtime: None,
            env_files: Some(vec![".env".to_string()]),
            depends_on: Some(vec!["api".to_string()]),
            autostart: Some(true),
        }],
    };

    let converted = add_project_input(input).unwrap();
    assert_eq!(converted.name, "demo");
    assert_eq!(converted.services[0].ports[0].port, "5173");
    assert_eq!(converted.services[0].ports[0].protocol, "http1");
    assert_eq!(converted.services[0].env_files, ".env");
    assert_eq!(converted.services[0].depends_on, "api");
    assert!(converted.services[0].autostart);
}

#[test]
fn explicit_decline_blocks_mutation_before_elicitation() {
    let err = explicit_approval_gate(Some(false)).unwrap_err();
    assert!(err.contains("declined"));
}

#[test]
fn services_without_command_are_refused() {
    let input = McpProjectInput {
        name: "demo".to_string(),
        dir: "/tmp/demo".to_string(),
        ip: Some("127.0.0.9".to_string()),
        health_check_interval_secs: None,
        services: vec![McpServiceInput {
            name: "web".to_string(),
            command: "  ".to_string(),
            workdir: None,
            ports: None,
            runtime: None,
            env_files: None,
            depends_on: None,
            autostart: None,
        }],
    };
    assert_eq!(add_project_input(input).unwrap_err(), "Service 'web' command cannot be empty.");
}

#[test]
fn approval_and_limits_follow_the_rules() {
    assert_eq!(approval_step(Some(true), false), ApprovalStep::Approved);
    assert_eq!(approval_step(None, true), ApprovalStep::AskUser);
    assert!(matches!(approval_step(None, false), ApprovalStep::Refused(_)));
    assert!(elicitation_decision(ElicitationOutcome::Answered(Some(true))).is_ok());
    assert_eq!(elicitation_decision(ElicitationOutcome::Answered(Some(false))), Err("Mutation was not approved.".to_string()));
    assert_eq!(elicitation_decision(ElicitationOutcome::Cancelled), Err("Mutation cancelled by user.".to_string()));
    assert_eq!(tool_limit(None, 50, 200), 50);
    assert_eq!(tool_limit(Some(0), 50, 200), 1);
    assert_eq!(tool_limit(Some(900), 50, 200), 200);
}
