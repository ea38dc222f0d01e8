//! Feature switches of this build, the per-project traffic-capture choice and
//! the service checks that `doctor` adds.

use vstd::prelude::*;
use crate::config::{
    LoopboxConfig, ProjectConfig, ProjectMap, ProxyCaptureMode, ServiceConfig, ServiceRuntimeKind,
};
use crate::text::{append_str, chars_of, string_of, trim, trim_chars, append_chars};

verus! {

/// Whether this build records proxy traffic at all.
pub fn supports_traffic_capture() -> (r: bool)
    ensures
        r,
{
    true
}

/// The capture mode this build applies when `selected` is configured.
pub fn enforce_traffic_capture_mode(selected: ProxyCaptureMode) -> (r: ProxyCaptureMode)
    ensures
        r == selected,
{
    selected
}

/// Whether a project's traffic is captured: its own switch, or the global
/// default when it has none.
pub open spec fn capture_enabled_for(config: LoopboxConfig, p: ProjectConfig) -> bool {
    match p.proxy_traffic_capture_enabled {
        Some(b) => b,
        None => config.global.proxy_traffic.capture_enabled_by_default,
    }
}

/// The capture mode of a project: its own, or the global default.
pub open spec fn capture_mode_for(config: LoopboxConfig, p: ProjectConfig) -> ProxyCaptureMode {
    match p.proxy_traffic_capture_mode {
        Some(m) => m,
        None => config.global.proxy_traffic.capture_mode_default,
    }
}

/// Whether traffic of the named project is captured; an unknown project is not.
pub fn project_proxy_traffic_enabled(config: &LoopboxConfig, project_name: &str) -> (r: bool)
    requires
        config.projects.wf(),
    ensures
        r == match config.projects.lookup(project_name@) {
            Some(p) => capture_enabled_for(*config, p),
            None => false,
        },
{
    match config.projects.get(project_name) {
        Some(p) => match p.proxy_traffic_capture_enabled {
            Some(b) => b,
            None => config.global.proxy_traffic.capture_enabled_by_default,
        },
        None => false,
    }
}

/// The capture mode of the named project; an unknown project gets the default.
pub fn project_proxy_traffic_capture_mode(config: &LoopboxConfig, project_name: &str) -> (r:
    ProxyCaptureMode)
    requires
        config.projects.wf(),
    ensures
        r == match config.projects.lookup(project_name@) {
            Some(p) => capture_mode_for(*config, p),
            None => config.global.proxy_traffic.capture_mode_default,
        },
{
    let selected = match config.projects.get(project_name) {
        Some(p) => match p.proxy_traffic_capture_mode {
            Some(m) => m,
            None => config.global.proxy_traffic.capture_mode_default,
        },
        None => config.global.proxy_traffic.capture_mode_default,
    };
    enforce_traffic_capture_mode(selected)
}

// ---------------------------------------------------------------------------
// Doctor
// ---------------------------------------------------------------------------

/// How serious a reported issue is.
#[derive(Debug, Clone, Copy, PartialEq, Eq, Structural)]
pub enum DoctorLevel {
    Error,
    Warning,
    Info,
}

/// A finding of `doctor`.
#[derive(Debug, Clone, PartialEq, Eq)]
pub struct DoctorIssue {
    pub level: DoctorLevel,
    pub project: Option<String>,
    pub message: String,
    pub fix: Option<String>,
}

/// A container service lacks an image when it has no container settings or
/// their image is blank.
pub open spec fn container_image_missing(s: ServiceConfig) -> bool {
    s.runtime == ServiceRuntimeKind::Container && match s.container {
        Some(c) => trim(c.image@).len() == 0,
        None => true,
    }
}

/// The message for a container service without an image.
pub open spec fn missing_image_message(name: Seq<char>) -> Seq<char> {
    "Service '"@ + name + "' runtime is container but container.image is empty."@
}

/// The issues `doctor` adds for one service.
pub fn doctor_service_extra_issues(
    config: &LoopboxConfig,
    project_name: &str,
    project: &ProjectConfig,
    service: &ServiceConfig,
) -> (r: Vec<DoctorIssue>)
    ensures
        container_image_missing(*service) ==> r@.len() == 1 && r@[0].level == DoctorLevel::Error
            && r@[0].project is Some && r@[0].project.unwrap()@ == project_name@ && r@[0].message@
            == missing_image_message(service.name@) && r@[0].fix is None,
        !container_image_missing(*service) ==> r@.len() == 0,
{
    let mut issues: Vec<DoctorIssue> = Vec::new();
    let missing = match service.runtime {
        ServiceRuntimeKind::Container => match &service.container {
            Some(c) => trim_chars(&chars_of(c.image.as_str())).len() == 0,
            None => true,
        },
        ServiceRuntimeKind::Process => false,
    };
    if missing {
        let mut msg = chars_of("Service '");
        append_str(&mut msg, service.name.as_str());
        append_str(&mut msg, "' runtime is container but container.image is empty.");
        issues.push(
            DoctorIssue {
                level: DoctorLevel::Error,
                project: Some(string_of(&chars_of(project_name))),
                message: string_of(&msg),
                fix: None,
            },
        );
    }
    issues
}

/// Only process services need a start command.
pub fn doctor_requires_start_command(service: &ServiceConfig) -> (r: bool)
    ensures
        r == (service.runtime == ServiceRuntimeKind::Process),
{
    match service.runtime {
        ServiceRuntimeKind::Process => true,
        ServiceRuntimeKind::Container => false,
    }
}

/// Some service of some project runs in a container.
pub open spec fn uses_containers(m: ProjectMap) -> bool {
    exists|i: int, j: int|
        0 <= i < m.entries@.len() && 0 <= j < m.entries@[i].1.services@.len()
            && #[trigger] m.entries@[i].1.services@[j].runtime == ServiceRuntimeKind::Container
}

/// Whether any configured service runs in a container.
pub fn config_uses_containers(config: &LoopboxConfig) -> (r: bool)
    ensures
        r == uses_containers(config.projects),
{
    let entries = &config.projects.entries;
    let mut i: usize = 0;
    while i < entries.len()
        invariant
            i <= entries@.len(),
            entries == &config.projects.entries,
            forall|a: int, b: int|
                0 <= a < i && 0 <= b < entries@[a].1.services@.len() ==> #[trigger] entries@[a].1.services@[b].runtime
                    != ServiceRuntimeKind::Container,
        decreases entries.len() - i,
    {
        let services = &entries[i].1.services;
        let mut j: usize = 0;
        while j < services.len()
            invariant
                j <= services@.len(),
                i < entries@.len(),
                entries == &config.projects.entries,
                services == &entries@[i as int].1.services,
                forall|b: int| 0 <= b < j ==> #[trigger] services@[b].runtime != ServiceRuntimeKind::Container,
            decreases services.len() - j,
        {
            match services[j].runtime {
                ServiceRuntimeKind::Container => {
                    assert(config.projects.entries@[i as int].1.services@[j as int].runtime
                        == ServiceRuntimeKind::Container);
                    return true;
                },
                ServiceRuntimeKind::Process => {},
            }
            j = j + 1;
        }
        i = i + 1;
    }
    false
}

/// The message of the global Docker warning.
pub open spec fn docker_warning_message(detail: Seq<char>) -> Seq<char> {
    "One or more services use runtime 'container', but Docker is unavailable. "@ + detail
}

/// The global issues `doctor` adds, given what the Docker probe reported
/// (`docker_message` is `None` when Docker is available).
pub fn doctor_global_extra_issues(config: &LoopboxConfig, docker_message: Option<&str>) -> (r: Vec<
    DoctorIssue,
>)
    ensures
        (uses_containers(config.projects) && docker_message is Some) ==> r@.len() == 1
            && r@[0].level == DoctorLevel::Warning && r@[0].project is None && r@[0].message@
            == docker_warning_message(docker_message.unwrap()@) && r@[0].fix is None,
        !(uses_containers(config.projects) && docker_message is Some) ==> r@.len() == 0,
{
    let mut issues: Vec<DoctorIssue> = Vec::new();
    if config_uses_containers(config) {
        match docker_message {
            Some(m) => {
                let mut msg = chars_of(
                    "One or more services use runtime 'container', but Docker is unavailable. ",
                );
                append_str(&mut msg, m);
                issues.push(
                    DoctorIssue {
                        level: DoctorLevel::Warning,
                        project: None,
                        message: string_of(&msg),
                        fix: None,
                    },
                );
            },
            None => {},
        }
    }
    issues
}

/// The word that names a level.
pub fn doctor_level_label(level: DoctorLevel) -> (r: &'static str)
    ensures
        level == DoctorLevel::Error ==> r@ == "error"@,
        level == DoctorLevel::Warning ==> r@ == "warning"@,
        level == DoctorLevel::Info ==> r@ == "info"@,
{
    match level {
        DoctorLevel::Error => "error",
        DoctorLevel::Warning => "warning",
        DoctorLevel::Info => "info",
    }
}

} // verus!
