use loopbox::container::{
    docker_container_stats_from_output,
    docker_inspect_state_from_output, docker_logs_lines_from_output, docker_remove_result_from_output,
    docker_run_args, docker_runtime_unavailable_message, docker_status_from_version_probe,
    existing_container_start_action, runtime_container_name, ContainerSpec, DockerContainerState,
    DockerRuntimeStatus, ExistingContainerStartAction, StartContainerInput,
};

#[test]
fn docker_status_messages_distinguish_missing_cli_and_daemon() {
    assert_eq!(
        docker_runtime_unavailable_message(&DockerRuntimeStatus::CliMissing),
        Some("Docker CLI is not installed or is not available on PATH.".to_string())
    );
    assert_eq!(
        docker_runtime_unavailable_message(&DockerRuntimeStatus::DaemonUnavailable(
            "Cannot connect to the Docker daemon".to_string()
        )),
        Some(
            "Docker CLI is installed, but the Docker daemon is not reachable: Cannot connect to the Docker daemon"
                .to_string()
        )
    );
    assert_eq!(docker_runtime_unavailable_message(&DockerRuntimeStatus::Ready), None);
}

#[test]
fn failed_docker_version_probe_is_daemon_unavailable() {
    assert_eq!(
        docker_status_from_version_probe(false, "Cannot connect to the Docker daemon"),
        DockerRuntimeStatus::DaemonUnavailable("Cannot connect to the Docker daemon".to_string())
    );
    assert_eq!(
        docker_status_from_version_probe(false, ""),
        DockerRuntimeStatus::DaemonUnavailable("docker version exited with a non-zero status".to_string())
    );
}

#[test]
fn docker_run_args_bind_ports_and_include_container_options() {
    let input = StartContainerInput {
        project_name: "Demo App".to_string(),
        service_name: "Postgres DB".to_string(),
        bind_ip: "127.0.0.61".to_string(),
        ports: vec![5432, 9187],
        container: ContainerSpec {
            image: "postgres:16-alpine".to_string(),
            args: vec!["postgres".to_string(), "-c".to_string(), "fsync=off".to_string()],
            env: vec!["POSTGRES_PASSWORD=loopbox".to_string()],
            volumes: vec!["pgdata:/var/lib/postgresql/data".to_string()],
            auto_remove: true,
        },
    };

    let args = docker_run_args(&input).expect("docker run args");

    assert_eq!(args[0], "run");
    assert!(args.contains(&"--rm".to_string()));
    assert!(args.contains(&"--name".to_string()));
    assert!(args.contains(&"loopbox-demo-app-postgres-db".to_string()));
    assert!(args.contains(&"127.0.0.61:5432:5432".to_string()));
    assert!(args.contains(&"127.0.0.61:9187:9187".to_string()));
    assert!(args.contains(&"POSTGRES_PASSWORD=loopbox".to_string()));
    assert!(args.contains(&"pgdata:/var/lib/postgresql/data".to_string()));
    assert_eq!(args.last().map(String::as_str), Some("fsync=off"));
}

#[test]
fn existing_container_policy_removes_stopped_and_rejects_running() {
    assert_eq!(existing_container_start_action(None), ExistingContainerStartAction::Continue);
    assert_eq!(
        existing_container_start_action(Some(DockerContainerState { running: false, exit_code: Some(1) })),
        ExistingContainerStartAction::RemoveBeforeStart
    );
    assert_eq!(
        existing_container_start_action(Some(DockerContainerState { running: true, exit_code: None })),
        ExistingContainerStartAction::AlreadyRunning
    );
}

#[test]
fn inspect_output_parser_distinguishes_missing_and_existing_containers() {
    assert_eq!(
        docker_inspect_state_from_output(true, "", "true|0\n").expect("running state"),
        Some(DockerContainerState { running: true, exit_code: Some(0) })
    );
    assert_eq!(
        docker_inspect_state_from_output(true, "", "false|137\n").expect("stopped state"),
        Some(DockerContainerState { running: false, exit_code: Some(137) })
    );
    assert_eq!(
        docker_inspect_state_from_output(false, "Error: No such object: demo", "").expect("missing state"),
        None
    );
    assert!(docker_inspect_state_from_output(false, "permission denied", "")
        .unwrap_err()
        .contains("docker inspect failed"));
}

#[test]
fn remove_result_parser_ignores_missing_container() {
    assert!(docker_remove_result_from_output(true, "").is_ok());
    assert!(docker_remove_result_from_output(false, "No such container: demo").is_ok());
    assert!(docker_remove_result_from_output(false, "permission denied")
        .unwrap_err()
        .contains("docker rm failed"));
}

#[test]
fn logs_output_parser_combines_stdout_and_stderr_lines() {
    let lines = docker_logs_lines_from_output(true, "warn\n", "line-1\nline-2\n").expect("log lines");

    assert_eq!(lines, vec!["line-1", "line-2", "warn"]);
    assert!(docker_logs_lines_from_output(false, "boom", "")
        .unwrap_err()
        .contains("docker logs failed"));
}

#[test]
fn container_name_is_lowercase_dashed_and_prefixed() {
    assert_eq!(runtime_container_name("Demo App", "Postgres DB"), "loopbox-demo-app-postgres-db");
    assert_eq!(runtime_container_name("  ", "***"), "loopbox--");
    assert!(runtime_container_name(&"x".repeat(200), "db").len() <= 63);
}

#[test]
fn docker_stats_split_into_fields() {
    let r = docker_container_stats_from_output(true, "", " 1.50%|12.5MiB / 1GiB| 7 \n").unwrap().unwrap();
    assert_eq!(r.cpu_field.as_deref(), Some("1.50%"));
    assert_eq!(r.memory_field.as_deref(), Some("12.5MiB / 1GiB"));
    assert_eq!(r.process_count, Some(7));
    let partial = docker_container_stats_from_output(true, "", "0.1%").unwrap().unwrap();
    assert_eq!(partial.memory_field, None);
    assert_eq!(partial.process_count, None);
    assert_eq!(docker_container_stats_from_output(true, "", "  \n"), Ok(None));
    assert_eq!(docker_container_stats_from_output(false, "Error: No such container: x", ""), Ok(None));
    assert_eq!(
        docker_container_stats_from_output(false, " daemon down \n", ""),
        Err("docker stats failed: daemon down".to_string())
    );
}
