//! The rules of the MCP tools: how a project description sent by an agent
//! becomes a project form, how tool limits are clamped, and when a change is
//! allowed to run.

use vstd::prelude::*;
use crate::projects::{AddProjectInput, ServiceEntry, ServicePortEntry, UpdateProjectInput};
use crate::text::{chars_of, dec_chars, join, join_chars, str_views, string_of, trim, trim_str, u64_chars, views};

verus! {

/// A port as an agent describes it.
#[derive(Debug, Clone, PartialEq, Eq)]
pub struct McpPortInput {
    pub port: u16,
    pub protocol: Option<String>,
    pub health_path: Option<String>,
    pub health_check_interval_secs: Option<u64>,
}

/// A service as an agent describes it.
#[derive(Debug, Clone, PartialEq, Eq)]
pub struct McpServiceInput {
    pub name: String,
    pub command: String,
    pub workdir: Option<String>,
    pub ports: Option<Vec<McpPortInput>>,
    pub runtime: Option<String>,
    pub env_files: Option<Vec<String>>,
    pub depends_on: Option<Vec<String>>,
    pub autostart: Option<bool>,
}

/// A new project as an agent describes it.
#[derive(Debug, Clone, PartialEq, Eq)]
pub struct McpProjectInput {
    pub name: String,
    pub dir: String,
    pub ip: Option<String>,
    pub health_check_interval_secs: Option<u64>,
    pub services: Vec<McpServiceInput>,
}

/// A changed project as an agent describes it.
#[derive(Debug, Clone, PartialEq, Eq)]
pub struct McpProjectUpdateInput {
    pub dir: String,
    pub ip: Option<String>,
    pub health_check_interval_secs: Option<u64>,
    pub services: Vec<McpServiceInput>,
}

pub open spec fn text_or_empty(o: Option<String>) -> Seq<char> {
    match o {
        Some(s) => s@,
        None => seq![],
    }
}

/// A port form from an agent's port: protocol "http1" unless given.
pub open spec fn port_entry_matches(e: ServicePortEntry, p: McpPortInput) -> bool {
    &&& e.port@ == dec_chars(p.port as nat)
    &&& e.protocol@ == match p.protocol {
        Some(s) => s@,
        None => "http1"@,
    }
    &&& e.health_path@ == text_or_empty(p.health_path)
    &&& e.health_check_interval_secs@ == match p.health_check_interval_secs {
        Some(v) => dec_chars(v as nat),
        None => seq![],
    }
}

/// A service form from an agent's service: its first port also fills the
/// single port fields; lists are joined; runtime "process" unless given.
pub open spec fn service_entry_matches(e: ServiceEntry, s: McpServiceInput) -> bool {
    let ports = match s.ports {
        Some(v) => v@,
        None => seq![],
    };
    &&& e.name == s.name
    &&& e.ports@.len() == ports.len()
    &&& forall|i: int| 0 <= i < ports.len() ==> port_entry_matches(#[trigger] e.ports@[i], ports[i])
    &&& if ports.len() > 0 {
        e.port@ == e.ports@[0].port@ && e.protocol@ == e.ports@[0].protocol@ && e.health_path@ == e.ports@[0].health_path@
    } else {
        e.port@ == Seq::<char>::empty() && e.protocol@ == "http1"@ && e.health_path@ == Seq::<char>::empty()
    }
    &&& e.runtime@ == match s.runtime {
        Some(r) => r@,
        None => "process"@,
    }
    &&& e.command == s.command
    &&& e.workdir@ == text_or_empty(s.workdir)
    &&& e.env_files@ == join(str_views(match s.env_files {
        Some(v) => v@,
        None => seq![],
    }), "\n"@)
    &&& e.depends_on@ == join(str_views(match s.depends_on {
        Some(v) => v@,
        None => seq![],
    }), ", "@)
    &&& e.autostart == match s.autostart {
        Some(b) => b,
        None => false,
    }
    &&& e.container_image@.len() == 0
    &&& e.container_args@.len() == 0
    &&& e.container_env@.len() == 0
    &&& e.container_volumes@.len() == 0
    &&& !e.container_auto_remove
}

/// A service from an agent needs a name and a command.
pub open spec fn service_input_error(s: McpServiceInput) -> Option<Seq<char>> {
    if trim(s.name@).len() == 0 {
        Some("Service name cannot be empty."@)
    } else if trim(s.command@).len() == 0 {
        Some("Service '"@ + s.name@ + "' command cannot be empty."@)
    } else {
        None
    }
}

fn owned_or_empty(o: &Option<String>) -> (r: String)
    ensures
        r@ == text_or_empty(*o),
{
    match o {
        Some(s) => s.clone(),
        None => String::new(),
    }
}

fn number_text(v: u64) -> (r: String)
    ensures
        r@ == dec_chars(v as nat),
{
    string_of(&u64_chars(v))
}

fn joined(items: &Option<Vec<String>>, sep: &str) -> (r: String)
    ensures
        r@ == join(str_views(match items {
            Some(v) => v@,
            None => seq![],
        }), sep@),
{
    let empty: Vec<String> = Vec::new();
    let list = match items {
        Some(v) => v,
        None => &empty,
    };
    let mut pieces: Vec<Vec<char>> = Vec::new();
    let mut i: usize = 0;
    while i < list.len()
        invariant
            i <= list@.len(),
            views(pieces@) == str_views(list@).take(i as int),
        decreases list.len() - i,
    {
        let ghost before = pieces@;
        let p = chars_of(list[i].as_str());
        pieces.push(p);
        assert(views(pieces@) =~= views(before).push(p@));
        assert(str_views(list@).take(i + 1) =~= str_views(list@).take(i as int).push(list@[i as int]@));
        i = i + 1;
    }
    assert(str_views(list@).take(list@.len() as int) =~= str_views(list@));
    assert(str_views(empty@) =~= seq![]);
    let sepv = chars_of(sep);
    string_of(&join_chars(&pieces, &sepv))
}

fn port_entry(p: &McpPortInput) -> (r: ServicePortEntry)
    ensures
        port_entry_matches(r, *p),
{
    ServicePortEntry {
        port: number_text(p.port as u64),
        protocol: match &p.protocol {
            Some(s) => s.clone(),
            None => "http1".to_owned(),
        },
        health_path: owned_or_empty(&p.health_path),
        health_check_interval_secs: match p.health_check_interval_secs {
            Some(v) => number_text(v),
            None => String::new(),
        },
    }
}

/// The service form for a service an agent describes, or why it is refused.
pub fn service_entry(input: &McpServiceInput) -> (r: Result<ServiceEntry, String>)
    ensures
        match service_input_error(*input) {
            Some(m) => r is Err && r->Err_0@ == m,
            None => r is Ok && service_entry_matches(r->Ok_0, *input),
        },
{
    if trim_str(input.name.as_str()).len() == 0 {
        return Err("Service name cannot be empty.".to_owned());
    }
    if trim_str(input.command.as_str()).len() == 0 {
        let mut m = "Service '".to_owned();
        m.append(input.name.as_str());
        m.append("' command cannot be empty.");
        return Err(m);
    }
    let mut ports: Vec<ServicePortEntry> = Vec::new();
    let empty_ports: Vec<McpPortInput> = Vec::new();
    let source = match &input.ports {
        Some(v) => v,
        None => &empty_ports,
    };
    let mut i: usize = 0;
    while i < source.len()
        invariant
            i <= source@.len(),
            ports@.len() == i,
            forall|j: int| 0 <= j < i ==> port_entry_matches(#[trigger] ports@[j], source@[j]),
        decreases source.len() - i,
    {
        ports.push(port_entry(&source[i]));
        i = i + 1;
    }
    let (port, protocol, health_path) = if ports.len() > 0 {
        (ports[0].port.clone(), ports[0].protocol.clone(), ports[0].health_path.clone())
    } else {
        (String::new(), "http1".to_owned(), String::new())
    };
    let entry = ServiceEntry {
        name: input.name.clone(),
        port,
        protocol,
        health_path,
        ports,
        runtime: match &input.runtime {
            Some(r) => r.clone(),
            None => "process".to_owned(),
        },
        command: input.command.clone(),
        workdir: owned_or_empty(&input.workdir),
        env_files: joined(&input.env_files, "\n"),
        depends_on: joined(&input.depends_on, ", "),
        autostart: match input.autostart {
            Some(b) => b,
            None => false,
        },
        container_image: String::new(),
        container_args: String::new(),
        container_env: String::new(),
        container_volumes: String::new(),
        container_auto_remove: false,
    };
    Ok(entry)
}

/// The first refused service of a list.
pub open spec fn first_service_error(svcs: Seq<McpServiceInput>) -> Option<Seq<char>>
    decreases svcs.len(),
{
    if svcs.len() == 0 {
        None
    } else {
        match first_service_error(svcs.drop_last()) {
            Some(m) => Some(m),
            None => service_input_error(svcs.last()),
        }
    }
}

proof fn lemma_first_service_error_prefix(svcs: Seq<McpServiceInput>, n: int)
    requires
        0 <= n <= svcs.len(),
        first_service_error(svcs.take(n)) is Some,
    ensures
        first_service_error(svcs) == first_service_error(svcs.take(n)),
    decreases svcs.len(),
{
    if n < svcs.len() {
        assert(svcs.drop_last().take(n) =~= svcs.take(n));
        lemma_first_service_error_prefix(svcs.drop_last(), n);
    } else {
        assert(svcs.take(n) =~= svcs);
    }
}

fn service_entries(services: &Vec<McpServiceInput>) -> (r: Result<Vec<ServiceEntry>, String>)
    ensures
        match first_service_error(services@) {
            Some(m) => r is Err && r->Err_0@ == m,
            None => r is Ok && r->Ok_0@.len() == services@.len() && forall|i: int|
                0 <= i < services@.len() ==> service_entry_matches(#[trigger] r->Ok_0@[i], services@[i]),
        },
{
    let mut out: Vec<ServiceEntry> = Vec::new();
    let mut i: usize = 0;
    while i < services.len()
        invariant
            i <= services@.len(),
            out@.len() == i,
            first_service_error(services@.take(i as int)) is None,
            forall|j: int| 0 <= j < i ==> service_entry_matches(#[trigger] out@[j], services@[j]),
        decreases services.len() - i,
    {
        assert(services@.take(i + 1).drop_last() =~= services@.take(i as int));
        match service_entry(&services[i]) {
            Err(e) => {
                proof {
                    lemma_first_service_error_prefix(services@, i as int + 1);
                }
                return Err(e);
            },
            Ok(entry) => {
                out.push(entry);
            },
        }
        i = i + 1;
    }
    assert(services@.take(services@.len() as int) =~= services@);
    Ok(out)
}

/// The add form for a project an agent describes: a missing IP is blank.
pub fn add_project_input(input: McpProjectInput) -> (r: Result<AddProjectInput, String>)
    ensures
        match first_service_error(input.services@) {
            Some(m) => r is Err && r->Err_0@ == m,
            None => {
                &&& r is Ok
                &&& r->Ok_0.name == input.name
                &&& r->Ok_0.dir == input.dir
                &&& r->Ok_0.ip@ == text_or_empty(input.ip)
                &&& r->Ok_0.services@.len() == input.services@.len()
                &&& forall|i: int| 0 <= i < input.services@.len() ==> service_entry_matches(#[trigger] r->Ok_0.services@[i], input.services@[i])
            },
        },
{
    let services = match service_entries(&input.services) {
        Err(e) => {
            return Err(e);
        },
        Ok(s) => s,
    };
    Ok(AddProjectInput { name: input.name.clone(), dir: input.dir.clone(), ip: owned_or_empty(&input.ip), services })
}

/// The update form for a project an agent describes: a missing IP is blank.
pub fn update_project_input(input: McpProjectUpdateInput) -> (r: Result<UpdateProjectInput, String>)
    ensures
        match first_service_error(input.services@) {
            Some(m) => r is Err && r->Err_0@ == m,
            None => {
                &&& r is Ok
                &&& r->Ok_0.dir == input.dir
                &&& r->Ok_0.ip@ == text_or_empty(input.ip)
                &&& r->Ok_0.services@.len() == input.services@.len()
                &&& forall|i: int| 0 <= i < input.services@.len() ==> service_entry_matches(#[trigger] r->Ok_0.services@[i], input.services@[i])
            },
        },
{
    let services = match service_entries(&input.services) {
        Err(e) => {
            return Err(e);
        },
        Ok(s) => s,
    };
    Ok(UpdateProjectInput { dir: input.dir.clone(), ip: owned_or_empty(&input.ip), services })
}

/// A tool's record limit: the one asked for (else the default), kept
/// within 1 and `max`.
pub fn tool_limit(requested: Option<usize>, default: usize, max: usize) -> (r: usize)
    requires
        1 <= max,
    ensures
        r == ({
            let v = match requested {
                Some(n) => n,
                None => default,
            };
            if v < 1 {
                1
            } else if v > max {
                max
            } else {
                v
            }
        }),
{
    let v = match requested {
        Some(n) => n,
        None => default,
    };
    if v < 1 {
        1
    } else if v > max {
        max
    } else {
        v
    }
}

/// What the approval flag of a change decides: run it, refuse it, or ask
/// the user.
#[derive(Debug, Clone, PartialEq, Eq)]
pub enum ApprovalStep {
    Approved,
    Refused(String),
    AskUser,
}

/// An explicit flag decides at once; without one the user is asked, when
/// the client can ask at all.
pub fn approval_step(approved: Option<bool>, elicitation_supported: bool) -> (r: ApprovalStep)
    ensures
        approved == Some(true) ==> r == ApprovalStep::Approved,
        approved == Some(false) ==> r is Refused && r->Refused_0@ == "Mutation declined by explicit approval flag."@,
        approved is None && !elicitation_supported ==> r is Refused && r->Refused_0@
            == "Client does not advertise MCP elicitation support; mutation was not run."@,
        approved is None && elicitation_supported ==> r == ApprovalStep::AskUser,
{
    match approved {
        Some(true) => ApprovalStep::Approved,
        Some(false) => ApprovalStep::Refused("Mutation declined by explicit approval flag.".to_owned()),
        None => if !elicitation_supported {
            ApprovalStep::Refused("Client does not advertise MCP elicitation support; mutation was not run.".to_owned())
        } else {
            ApprovalStep::AskUser
        },
    }
}

/// How asking the user ended.
#[derive(Debug, Clone, PartialEq, Eq)]
pub enum ElicitationOutcome {
    Answered(Option<bool>),
    Declined,
    Cancelled,
    Failed(String),
}

/// The change runs only when the user answered with a confirmation.
pub fn elicitation_decision(outcome: ElicitationOutcome) -> (r: Result<(), String>)
    ensures
        match outcome {
            ElicitationOutcome::Answered(Some(true)) => r is Ok,
            ElicitationOutcome::Answered(_) => r is Err && r->Err_0@ == "Mutation was not approved."@,
            ElicitationOutcome::Declined => r is Err && r->Err_0@ == "Mutation declined by user."@,
            ElicitationOutcome::Cancelled => r is Err && r->Err_0@ == "Mutation cancelled by user."@,
            ElicitationOutcome::Failed(e) => r is Err && r->Err_0@ == "MCP elicitation failed: "@ + e@,
        },
{
    match outcome {
        ElicitationOutcome::Answered(Some(true)) => Ok(()),
        ElicitationOutcome::Answered(_) => Err("Mutation was not approved.".to_owned()),
        ElicitationOutcome::Declined => Err("Mutation declined by user.".to_owned()),
        ElicitationOutcome::Cancelled => Err("Mutation cancelled by user.".to_owned()),
        ElicitationOutcome::Failed(e) => {
            let mut m = "MCP elicitation failed: ".to_owned();
            m.append(e.as_str());
            Err(m)
        },
    }
}

/// The approval gate without a client to ask: only an explicit `true` lets
/// a change run.
pub fn explicit_approval_gate(approved: Option<bool>) -> (r: Result<(), String>)
    ensures
        approved == Some(true) ==> r is Ok,
        approved == Some(false) ==> r is Err && r->Err_0@ == "Mutation declined by explicit approval flag."@,
        approved is None ==> r is Err && r->Err_0@ == "MCP elicitation required."@,
{
    match approved {
        Some(true) => Ok(()),
        Some(false) => Err("Mutation declined by explicit approval flag.".to_owned()),
        None => Err("MCP elicitation required.".to_owned()),
    }
}

} // verus!
