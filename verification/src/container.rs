//! Running services as Docker containers: container names, the `docker run`
//! command line, and reading what the Docker CLI printed.

use vstd::prelude::*;
use crate::routes::opt_view;
use crate::text::{
    append_chars, append_str, ascii_lower, ascii_lower_chars, chars_of, contains_str, contains_sub,
    copy_range, dec_chars, is_ascii_alnum, is_char, lines, lines_chars, lower_ascii, lower_ascii_char,
    parse_i32_chars, parse_sint, split_char_chars, split_pred, str_views, string_of, trim, trim_char,
    trim_char_chars, trim_chars, u64_chars, views, is_ascii_alnum_char, parse_uint,
    parse_usize_chars, trim_start_char, trim_end_char,
};

verus! {

/// The container a service runs in.
#[derive(Debug, Clone, PartialEq, Eq)]
pub struct ContainerSpec {
    pub image: String,
    pub args: Vec<String>,
    pub env: Vec<String>,
    pub volumes: Vec<String>,
    pub auto_remove: bool,
}

/// What starting a container service needs.
#[derive(Debug, Clone, PartialEq, Eq)]
pub struct StartContainerInput {
    pub project_name: String,
    pub service_name: String,
    pub bind_ip: String,
    pub ports: Vec<u16>,
    pub container: ContainerSpec,
}

/// What `docker inspect` reported of a container.
#[derive(Debug, Clone, Copy, PartialEq, Eq, Structural)]
pub struct DockerContainerState {
    pub running: bool,
    pub exit_code: Option<i32>,
}

/// Whether Docker can be used.
#[derive(Debug, Clone, PartialEq, Eq)]
pub enum DockerRuntimeStatus {
    Ready,
    CliMissing,
    DaemonUnavailable(String),
}

/// What to do about an existing container of the same name before starting.
#[derive(Debug, Clone, Copy, PartialEq, Eq, Structural)]
pub enum ExistingContainerStartAction {
    Continue,
    RemoveBeforeStart,
    AlreadyRunning,
}

// ---------------------------------------------------------------------------
// Names
// ---------------------------------------------------------------------------

/// A name part lowercased, with each run of other characters turned into one
/// `-` (before trimming).
pub open spec fn name_chars(s: Seq<char>) -> Seq<char>
    decreases s.len(),
{
    if s.len() == 0 {
        seq![]
    } else {
        let prev = name_chars(s.drop_last());
        let n = lower_ascii(s.last());
        if is_ascii_alnum(n) {
            prev.push(n)
        } else if prev.len() > 0 && prev.last() == '-' {
            prev
        } else {
            prev.push('-')
        }
    }
}

/// A name part cleaned: lowercase letters, digits and single dashes, no dash
/// at either end.
pub open spec fn clean_name(s: Seq<char>) -> Seq<char> {
    trim_char(name_chars(s), '-')
}

/// The container name of a service: `loopbox-<project>-<service>`, cut to 63
/// characters without trailing dashes.
pub open spec fn container_name(project: Seq<char>, service: Seq<char>) -> Seq<char> {
    let name = "loopbox-"@ + clean_name(project) + "-"@ + clean_name(service);
    let cut = if name.len() > 63 {
        crate::text::trim_end_char(name.take(63), '-')
    } else {
        name
    };
    if cut.len() == 0 {
        "loopbox-container"@
    } else {
        cut
    }
}

fn clean_name_exec(s: &str) -> (r: Vec<char>)
    ensures
        r@ == clean_name(s@),
{
    let v = chars_of(s);
    let mut out: Vec<char> = Vec::new();
    let mut i: usize = 0;
    assert(v@.take(0) =~= Seq::<char>::empty());
    while i < v.len()
        invariant
            i <= v@.len(),
            out@ == name_chars(v@.take(i as int)),
        decreases v.len() - i,
    {
        assert(v@.take(i + 1).drop_last() =~= v@.take(i as int));
        assert(v@.take(i + 1).last() == v@[i as int]);
        let n = lower_ascii_char(v[i]);
        if is_ascii_alnum_char(n) {
            out.push(n);
        } else if !(out.len() > 0 && out[out.len() - 1] == '-') {
            out.push('-');
        }
        i = i + 1;
    }
    assert(v@.take(v@.len() as int) =~= v@);
    trim_char_chars(&out, '-')
}

/// The Docker container name of a service of a project.
pub fn runtime_container_name(project_name: &str, service_name: &str) -> (r: String)
    ensures
        r@ == container_name(project_name@, service_name@),
{
    let mut name = chars_of("loopbox-");
    append_chars(&mut name, &clean_name_exec(project_name));
    append_str(&mut name, "-");
    append_chars(&mut name, &clean_name_exec(service_name));
    let cut = if name.len() > 63 {
        crate::text::trim_end_char_chars(&copy_range(&name, 0, 63), '-')
    } else {
        name
    };
    if cut.len() == 0 {
        string_of(&chars_of("loopbox-container"))
    } else {
        string_of(&cut)
    }
}

/// A character allowed in container names here.
pub open spec fn name_char_ok(c: char) -> bool {
    ('a' <= c && c <= 'z') || ('0' <= c && c <= '9') || c == '-'
}

proof fn lemma_name_chars_ok(s: Seq<char>)
    ensures
        forall|i: int| 0 <= i < name_chars(s).len() ==> name_char_ok(#[trigger] name_chars(s)[i]),
    decreases s.len(),
{
    if s.len() > 0 {
        lemma_name_chars_ok(s.drop_last());
        let n = lower_ascii(s.last());
        let prev = name_chars(s.drop_last());
        assert forall|i: int| 0 <= i < name_chars(s).len() implies name_char_ok(
            #[trigger] name_chars(s)[i],
        ) by {
            if i < prev.len() {
                assert(name_chars(s)[i] == prev[i]);
            } else if is_ascii_alnum(n) {
                assert(!('A' <= n && n <= 'Z')) by {
                    if 'A' <= s.last() && s.last() <= 'Z' {
                        assert(n == ((s.last() as u32) + 32) as char);
                    }
                }
            }
        }
    }
}

proof fn lemma_trim_char_sub(s: Seq<char>, c: char)
    ensures
        forall|i: int| 0 <= i < trim_char(s, c).len() ==> exists|j: int| 0 <= j < s.len() && #[trigger] trim_char(s, c)[i] == s[j],
{
    crate::text::lemma_trim_char_is_subrange(s, c);
}

proof fn lemma_trim_start_char_head(s: Seq<char>, c: char)
    ensures
        trim_start_char(s, c).len() > 0 ==> trim_start_char(s, c)[0] != c,
    decreases s.len(),
{
    if s.len() > 0 && s[0] == c {
        lemma_trim_start_char_head(s.drop_first(), c);
    }
}

proof fn lemma_trim_char_head(s: Seq<char>, c: char)
    ensures
        trim_char(s, c).len() > 0 ==> trim_char(s, c)[0] != c,
{
    lemma_trim_start_char_head(s, c);
    let a = trim_start_char(s, c);
    crate::text::lemma_trim_end_char_is_prefix(a, c);
    if trim_char(s, c).len() > 0 {
        assert(trim_char(s, c)[0] == a[0]);
    }
}

proof fn lemma_trim_end_char_keeps(t: Seq<char>, c: char, k: int)
    requires
        0 <= k < t.len(),
        t[k] != c,
    ensures
        trim_end_char(t, c).len() > k,
    decreases t.len(),
{
    if t.last() == c {
        assert(k < t.len() - 1);
        assert(t.drop_last()[k] == t[k]);
        lemma_trim_end_char_keeps(t.drop_last(), c, k);
    }
}

/// A container name is at most 63 characters of lowercase letters, digits and
/// dashes, and starts with `loopbox-`.
pub proof fn law_container_name_valid(project: Seq<char>, service: Seq<char>)
    ensures
        container_name(project, service).len() <= 63,
        forall|i: int|
            0 <= i < container_name(project, service).len() ==> name_char_ok(
                #[trigger] container_name(project, service)[i],
            ),
        starts_with_loopbox(container_name(project, service)),
{
    reveal_strlit("loopbox-");
    reveal_strlit("-");
    reveal_strlit("loopbox-container");
    lemma_name_chars_ok(project);
    lemma_name_chars_ok(service);
    lemma_trim_char_sub(name_chars(project), '-');
    lemma_trim_char_sub(name_chars(service), '-');
    lemma_trim_char_head(name_chars(project), '-');
    lemma_trim_char_head(name_chars(service), '-');
    let cp = clean_name(project);
    let cs = clean_name(service);
    let name = "loopbox-"@ + cp + "-"@ + cs;
    assert forall|i: int| 0 <= i < name.len() implies name_char_ok(#[trigger] name[i]) by {
        if i < 8 {
        } else if i < 8 + cp.len() {
            assert(name[i] == cp[i - 8]);
            let j = choose|j: int| 0 <= j < name_chars(project).len() && cp[i - 8] == name_chars(project)[j];
        } else if i == 8 + cp.len() {
        } else {
            assert(name[i] == cs[i - 9 - cp.len()]);
            let j = choose|j: int| 0 <= j < name_chars(service).len() && cs[i - 9 - cp.len()] == name_chars(service)[j];
        }
    }
    if name.len() > 63 {
        let t = name.take(63);
        crate::text::lemma_trim_end_char_is_prefix(t, '-');
        let cut = crate::text::trim_end_char(t, '-');
        assert forall|i: int| 0 <= i < cut.len() implies name_char_ok(#[trigger] cut[i]) by {
            assert(cut[i] == t[i]);
            assert(t[i] == name[i]);
        }
        if cp.len() > 0 {
            assert(name[8] == cp[0]);
            assert(t[8] == name[8]);
            lemma_trim_end_char_keeps(t, '-', 8);
        } else {
            assert(cs.len() > 0);
            assert(name[9] == cs[0]);
            assert(t[9] == name[9]);
            lemma_trim_end_char_keeps(t, '-', 9);
        }
        assert(cut.take(8) =~= t.take(8));
        assert(t.take(8) =~= "loopbox-"@);
    } else {
        assert(name.take(8) =~= "loopbox-"@);
    }
    assert("loopbox-container"@.take(8) =~= "loopbox-"@);
}

/// The name starts with `loopbox-`.
pub open spec fn starts_with_loopbox(s: Seq<char>) -> bool {
    s.len() >= 8 && s.take(8) == "loopbox-"@
}

/// The bind address of published ports: the trimmed IP, `127.0.0.1` when blank.
pub open spec fn bind_target(ip: Seq<char>) -> Seq<char> {
    if trim(ip).len() == 0 {
        "127.0.0.1"@
    } else {
        trim(ip)
    }
}

/// The address published ports are bound to.
pub fn normalize_bind_target_ip(bind_ip: &str) -> (r: String)
    ensures
        r@ == bind_target(bind_ip@),
{
    let t = trim_chars(&chars_of(bind_ip));
    if t.len() == 0 {
        string_of(&chars_of("127.0.0.1"))
    } else {
        string_of(&t)
    }
}

// ---------------------------------------------------------------------------
// docker run
// ---------------------------------------------------------------------------

/// `flag value` for each non-blank value, trimmed.
pub open spec fn flag_pairs(flag: Seq<char>, vals: Seq<String>) -> Seq<Seq<char>>
    decreases vals.len(),
{
    if vals.len() == 0 {
        seq![]
    } else {
        flag_pairs(flag, vals.drop_last()) + if trim(vals.last()@).len() > 0 {
            seq![flag, trim(vals.last()@)]
        } else {
            seq![]
        }
    }
}

/// The non-blank values, trimmed.
pub open spec fn nonblank(vals: Seq<String>) -> Seq<Seq<char>>
    decreases vals.len(),
{
    if vals.len() == 0 {
        seq![]
    } else {
        nonblank(vals.drop_last()) + if trim(vals.last()@).len() > 0 {
            seq![trim(vals.last()@)]
        } else {
            seq![]
        }
    }
}

/// `-p ip:port:port` for each port.
pub open spec fn port_flags(ip: Seq<char>, ports: Seq<u16>) -> Seq<Seq<char>>
    decreases ports.len(),
{
    if ports.len() == 0 {
        seq![]
    } else {
        let p = dec_chars(ports.last() as nat);
        port_flags(ip, ports.drop_last()) + seq!["-p"@, ip + ":"@ + p + ":"@ + p]
    }
}

/// The message for a container service without an image.
pub open spec fn empty_image_message(service: Seq<char>) -> Seq<char> {
    "Service '"@ + service + "' uses runtime 'container' but container.image is empty."@
}

/// The `docker run` arguments of a service.
pub open spec fn run_args(input: StartContainerInput) -> Seq<Seq<char>> {
    let c = input.container;
    seq![
        "run"@,
        "-d"@,
        "--name"@,
        container_name(input.project_name@, input.service_name@),
        "--label"@,
        "loopbox.project="@ + input.project_name@,
        "--label"@,
        "loopbox.service="@ + input.service_name@,
    ] + (if c.auto_remove {
        seq!["--rm"@]
    } else {
        seq![]
    }) + flag_pairs("-e"@, c.env@) + flag_pairs("-v"@, c.volumes@) + port_flags(
        bind_target(input.bind_ip@),
        input.ports@,
    ) + seq![trim(c.image@)] + nonblank(c.args@)
}

/// The `i`-th pair of a list of flag arguments.
pub open spec fn arg_pair(s: Seq<Seq<char>>, i: int) -> (Seq<char>, Seq<char>) {
    (s[2 * i], s[2 * i + 1])
}

proof fn lemma_flag_pairs_shape(flag: Seq<char>, vals: Seq<String>)
    ensures
        flag_pairs(flag, vals).len() == 2 * nonblank(vals).len(),
        forall|i: int|
            0 <= i < nonblank(vals).len() ==> #[trigger] arg_pair(flag_pairs(flag, vals), i) == (
                flag,
                nonblank(vals)[i],
            ),
    decreases vals.len(),
{
    if vals.len() == 0 {
        assert(nonblank(vals) =~= seq![]);
        assert(flag_pairs(flag, vals) =~= seq![]);
    } else {
        let pre = vals.drop_last();
        lemma_flag_pairs_shape(flag, pre);
        let fp = flag_pairs(flag, vals);
        let nb = nonblank(vals);
        let fpp = flag_pairs(flag, pre);
        let nbp = nonblank(pre);
        assert forall|i: int| 0 <= i < nb.len() implies #[trigger] arg_pair(fp, i) == (flag, nb[i]) by {
            if i < nbp.len() {
                assert(arg_pair(fpp, i) == (flag, nbp[i]));
                assert(nb[i] == nbp[i]);
                assert(fp[2 * i] == fpp[2 * i]);
                assert(fp[2 * i + 1] == fpp[2 * i + 1]);
            } else {
                assert(trim(vals.last()@).len() > 0);
                assert(i == nbp.len());
                assert(nb[i] == trim(vals.last()@));
                assert(fp =~= fpp + seq![flag, trim(vals.last()@)]);
                assert(2 * i == fpp.len());
                assert(fp[2 * i] == flag);
                assert(fp[2 * i + 1] == nb[i]);
            }
        }
    }
}

proof fn lemma_nonblank_holds(vals: Seq<String>)
    ensures
        forall|j: int|
            0 <= j < vals.len() && trim(vals[j]@).len() > 0 ==> nonblank(vals).contains(
                trim(#[trigger] vals[j]@),
            ),
    decreases vals.len(),
{
    if vals.len() > 0 {
        let pre = vals.drop_last();
        lemma_nonblank_holds(pre);
        let nb = nonblank(vals);
        let nbp = nonblank(pre);
        assert forall|j: int| 0 <= j < vals.len() && trim(vals[j]@).len() > 0 implies nb.contains(
            trim(#[trigger] vals[j]@),
        ) by {
            if j < pre.len() {
                assert(vals[j] == pre[j]);
                let k = choose|k: int| 0 <= k < nbp.len() && nbp[k] == trim(pre[j]@);
                assert(nb[k] == nbp[k]);
            } else {
                assert(nb[nbp.len() as int] == trim(vals.last()@));
            }
        }
    }
}

/// Where the environment and the volumes of a container go on the
/// `docker run` command line: after the name and labels (and `--rm`), each
/// non-blank env entry as the pair `-e <entry>`, then each non-blank volume
/// as the pair `-v <volume>`, trimmed and in order; every non-blank entry and
/// volume is there, so no volume is passed under `-e`.
pub proof fn law_docker_run_args_env_and_volumes(input: StartContainerInput)
    ensures
        ({
            let a = run_args(input);
            let base: int = if input.container.auto_remove {
                9
            } else {
                8
            };
            let e = nonblank(input.container.env@);
            let v = nonblank(input.container.volumes@);
            &&& forall|i: int|
                0 <= i < e.len() ==> #[trigger] arg_pair(a.skip(base), i) == ("-e"@, e[i])
            &&& forall|i: int|
                0 <= i < v.len() ==> #[trigger] arg_pair(a.skip(base + 2 * e.len()), i) == ("-v"@, v[i])
            &&& forall|j: int|
                0 <= j < input.container.env@.len() && trim(input.container.env@[j]@).len() > 0
                    ==> e.contains(trim(#[trigger] input.container.env@[j]@))
            &&& forall|j: int|
                0 <= j < input.container.volumes@.len() && trim(input.container.volumes@[j]@).len() > 0
                    ==> v.contains(trim(#[trigger] input.container.volumes@[j]@))
        }),
{
    let c = input.container;
    let a = run_args(input);
    let head = seq![
        "run"@,
        "-d"@,
        "--name"@,
        container_name(input.project_name@, input.service_name@),
        "--label"@,
        "loopbox.project="@ + input.project_name@,
        "--label"@,
        "loopbox.service="@ + input.service_name@,
    ];
    let rm: Seq<Seq<char>> = if c.auto_remove {
        seq!["--rm"@]
    } else {
        seq![]
    };
    let fe = flag_pairs("-e"@, c.env@);
    let fv = flag_pairs("-v"@, c.volumes@);
    let tail = port_flags(bind_target(input.bind_ip@), input.ports@) + seq![trim(c.image@)]
        + nonblank(c.args@);
    assert(a =~= head + rm + fe + fv + tail);
    let base: int = if c.auto_remove {
        9
    } else {
        8
    };
    assert((head + rm).len() == base);
    lemma_flag_pairs_shape("-e"@, c.env@);
    lemma_flag_pairs_shape("-v"@, c.volumes@);
    lemma_nonblank_holds(c.env@);
    lemma_nonblank_holds(c.volumes@);
    let e = nonblank(c.env@);
    let v = nonblank(c.volumes@);
    assert forall|i: int| 0 <= i < e.len() implies #[trigger] arg_pair(a.skip(base), i) == ("-e"@, e[i]) by {
        let x = head + rm + fe;
        assert(a =~= x + fv + tail);
        assert(a[base + 2 * i] == x[base + 2 * i]);
        assert(a[base + 2 * i + 1] == x[base + 2 * i + 1]);
        assert(x[base + 2 * i] == fe[2 * i]);
        assert(x[base + 2 * i + 1] == fe[2 * i + 1]);
        assert(arg_pair(fe, i) == ("-e"@, e[i]));
        assert(a.skip(base)[2 * i] == a[base + 2 * i]);
        assert(a.skip(base)[2 * i + 1] == a[base + 2 * i + 1]);
    }
    assert forall|i: int| 0 <= i < v.len() implies #[trigger] arg_pair(a.skip(base + 2 * e.len()), i)
        == ("-v"@, v[i]) by {
        let y = head + rm + fe + fv;
        assert(a =~= y + tail);
        let k = base + 2 * e.len() + 2 * i;
        assert(a[k] == y[k]);
        assert(a[k + 1] == y[k + 1]);
        assert(y[k] == fv[2 * i]);
        assert(y[k + 1] == fv[2 * i + 1]);
        assert(arg_pair(fv, i) == ("-v"@, v[i]));
        assert(a.skip(base + 2 * e.len())[2 * i] == a[k]);
        assert(a.skip(base + 2 * e.len())[2 * i + 1] == a[k + 1]);
    }
}

fn push_str(v: &mut Vec<String>, s: &str)
    ensures
        str_views(final(v)@) == str_views(old(v)@).push(s@),
{
    let ghost before = str_views(v@);
    v.push(string_of(&chars_of(s)));
    assert(str_views(v@) =~= before.push(s@));
}

fn push_chars(v: &mut Vec<String>, s: &Vec<char>)
    ensures
        str_views(final(v)@) == str_views(old(v)@).push(s@),
{
    let ghost before = str_views(v@);
    v.push(string_of(s));
    assert(str_views(v@) =~= before.push(s@));
}

fn push_flag_pairs(out: &mut Vec<String>, flag: &str, vals: &Vec<String>)
    ensures
        str_views(final(out)@) == str_views(old(out)@) + flag_pairs(flag@, vals@),
{
    let ghost start = str_views(out@);
    let mut i: usize = 0;
    assert(vals@.take(0) =~= Seq::<String>::empty());
    assert(start + flag_pairs(flag@, vals@.take(0)) =~= start);
    while i < vals.len()
        invariant
            i <= vals@.len(),
            str_views(out@) == start + flag_pairs(flag@, vals@.take(i as int)),
        decreases vals.len() - i,
    {
        assert(vals@.take(i + 1).drop_last() =~= vals@.take(i as int));
        assert(vals@.take(i + 1).last() == vals@[i as int]);
        let t = trim_chars(&chars_of(vals[i].as_str()));
        let ghost before = str_views(out@);
        if t.len() > 0 {
            push_str(out, flag);
            push_chars(out, &t);
            assert(str_views(out@) =~= before + seq![flag@, t@]);
        } else {
            assert(before + seq![] =~= before);
        }
        i = i + 1;
    }
    assert(vals@.take(vals@.len() as int) =~= vals@);
}

fn push_nonblank(out: &mut Vec<String>, vals: &Vec<String>)
    ensures
        str_views(final(out)@) == str_views(old(out)@) + nonblank(vals@),
{
    let ghost start = str_views(out@);
    let mut i: usize = 0;
    assert(vals@.take(0) =~= Seq::<String>::empty());
    assert(start + nonblank(vals@.take(0)) =~= start);
    while i < vals.len()
        invariant
            i <= vals@.len(),
            str_views(out@) == start + nonblank(vals@.take(i as int)),
        decreases vals.len() - i,
    {
        assert(vals@.take(i + 1).drop_last() =~= vals@.take(i as int));
        assert(vals@.take(i + 1).last() == vals@[i as int]);
        let t = trim_chars(&chars_of(vals[i].as_str()));
        let ghost before = str_views(out@);
        if t.len() > 0 {
            push_chars(out, &t);
        } else {
            assert(before + seq![] =~= before);
        }
        i = i + 1;
    }
    assert(vals@.take(vals@.len() as int) =~= vals@);
}

/// The `docker run` command line of a container service; an error when the
/// image is blank.
pub fn docker_run_args(input: &StartContainerInput) -> (r: Result<Vec<String>, String>)
    ensures
        trim(input.container.image@).len() == 0 ==> r is Err && r->Err_0@ == empty_image_message(
            input.service_name@,
        ),
        trim(input.container.image@).len() > 0 ==> r is Ok && str_views(r->Ok_0@) == run_args(
            *input,
        ),
{
    let image = trim_chars(&chars_of(input.container.image.as_str()));
    if image.len() == 0 {
        let mut m = chars_of("Service '");
        append_str(&mut m, input.service_name.as_str());
        append_str(&mut m, "' uses runtime 'container' but container.image is empty.");
        return Err(string_of(&m));
    }
    let name = runtime_container_name(input.project_name.as_str(), input.service_name.as_str());
    let bind = chars_of(normalize_bind_target_ip(input.bind_ip.as_str()).as_str());
    let mut args: Vec<String> = Vec::new();
    push_str(&mut args, "run");
    push_str(&mut args, "-d");
    push_str(&mut args, "--name");
    push_chars(&mut args, &chars_of(name.as_str()));
    push_str(&mut args, "--label");
    let mut lp = chars_of("loopbox.project=");
    append_str(&mut lp, input.project_name.as_str());
    push_chars(&mut args, &lp);
    push_str(&mut args, "--label");
    let mut ls = chars_of("loopbox.service=");
    append_str(&mut ls, input.service_name.as_str());
    push_chars(&mut args, &ls);
    let ghost head = str_views(args@);
    if input.container.auto_remove {
        push_str(&mut args, "--rm");
    }
    let ghost after_rm = str_views(args@);
    push_flag_pairs(&mut args, "-e", &input.container.env);
    push_flag_pairs(&mut args, "-v", &input.container.volumes);
    let ghost before_ports = str_views(args@);
    let mut i: usize = 0;
    assert(input.ports@.take(0) =~= Seq::<u16>::empty());
    assert(before_ports + port_flags(bind@, input.ports@.take(0)) =~= before_ports);
    while i < input.ports.len()
        invariant
            i <= input.ports@.len(),
            str_views(args@) == before_ports + port_flags(bind@, input.ports@.take(i as int)),
        decreases input.ports.len() - i,
    {
        assert(input.ports@.take(i + 1).drop_last() =~= input.ports@.take(i as int));
        assert(input.ports@.take(i + 1).last() == input.ports@[i as int]);
        let p = u64_chars(input.ports[i] as u64);
        let mut spec = copy_range(&bind, 0, bind.len());
        assert(spec@ =~= bind@);
        append_str(&mut spec, ":");
        append_chars(&mut spec, &p);
        append_str(&mut spec, ":");
        append_chars(&mut spec, &p);
        let ghost before = str_views(args@);
        push_str(&mut args, "-p");
        push_chars(&mut args, &spec);
        assert(str_views(args@) =~= before + seq!["-p"@, spec@]);
        assert(port_flags(bind@, input.ports@.take(i + 1)) =~= port_flags(bind@, input.ports@.take(i as int)) + seq!["-p"@, spec@]);
        assert(str_views(args@) =~= before_ports + port_flags(bind@, input.ports@.take(i + 1)));
        i = i + 1;
    }
    assert(input.ports@.take(input.ports@.len() as int) =~= input.ports@);
    push_chars(&mut args, &image);
    push_nonblank(&mut args, &input.container.args);
    proof {
        assert(str_views(args@) =~= run_args(*input));
    }
    Ok(args)
}

/// A running container is refused, a stopped one is removed first, and
/// without one the start goes on.
pub fn existing_container_start_action(state: Option<DockerContainerState>) -> (r:
    ExistingContainerStartAction)
    ensures
        r == match state {
            None => ExistingContainerStartAction::Continue,
            Some(s) => if s.running {
                ExistingContainerStartAction::AlreadyRunning
            } else {
                ExistingContainerStartAction::RemoveBeforeStart
            },
        },
{
    match state {
        None => ExistingContainerStartAction::Continue,
        Some(s) => if s.running {
            ExistingContainerStartAction::AlreadyRunning
        } else {
            ExistingContainerStartAction::RemoveBeforeStart
        },
    }
}

// ---------------------------------------------------------------------------
// Docker's own reports
// ---------------------------------------------------------------------------

/// What to tell when Docker cannot be used.
pub fn docker_runtime_unavailable_message(status: &DockerRuntimeStatus) -> (r: Option<String>)
    ensures
        match status {
            DockerRuntimeStatus::Ready => r is None,
            DockerRuntimeStatus::CliMissing => r is Some && r.unwrap()@
                == "Docker CLI is not installed or is not available on PATH."@,
            DockerRuntimeStatus::DaemonUnavailable(d) => r is Some && r.unwrap()@
                == "Docker CLI is installed, but the Docker daemon is not reachable: "@ + d@,
        },
{
    match status {
        DockerRuntimeStatus::Ready => None,
        DockerRuntimeStatus::CliMissing => Some(
            string_of(&chars_of("Docker CLI is not installed or is not available on PATH.")),
        ),
        DockerRuntimeStatus::DaemonUnavailable(detail) => {
            let mut m = chars_of("Docker CLI is installed, but the Docker daemon is not reachable: ");
            append_str(&mut m, detail.as_str());
            Some(string_of(&m))
        },
    }
}

/// The status `docker version` reports: ready when it succeeded, else the
/// daemon is unavailable, with its trimmed error output (or a stock text).
pub fn docker_status_from_version_probe(success: bool, stderr: &str) -> (r: DockerRuntimeStatus)
    ensures
        success ==> r == DockerRuntimeStatus::Ready,
        !success ==> r is DaemonUnavailable && r->DaemonUnavailable_0@ == if trim(stderr@).len()
            == 0 {
            "docker version exited with a non-zero status"@
        } else {
            trim(stderr@)
        },
{
    if success {
        return DockerRuntimeStatus::Ready;
    }
    let d = trim_chars(&chars_of(stderr));
    if d.len() == 0 {
        DockerRuntimeStatus::DaemonUnavailable(
            string_of(&chars_of("docker version exited with a non-zero status")),
        )
    } else {
        DockerRuntimeStatus::DaemonUnavailable(string_of(&d))
    }
}

/// Docker said the container does not exist.
pub open spec fn missing_container(stderr: Seq<char>) -> bool {
    contains_sub(ascii_lower(stderr), "no such object"@) || contains_sub(
        ascii_lower(stderr),
        "no such container"@,
    )
}

/// What `docker inspect` printed: `running|exit code`.
pub open spec fn inspected(stdout: Seq<char>) -> DockerContainerState {
    let parts = split_pred(trim(stdout), is_char('|'));
    DockerContainerState {
        running: parts.len() > 0 && trim(parts[0]) == "true"@,
        exit_code: if parts.len() > 1 {
            match parse_sint(trim(parts[1]), i32::MIN as int, i32::MAX as int) {
                Some(v) => Some(v as i32),
                None => None,
            }
        } else {
            None
        },
    }
}

/// The state of a container from `docker inspect`: none when it does not
/// exist, an error for any other failure.
pub fn docker_inspect_state_from_output(success: bool, stderr: &str, stdout: &str) -> (r: Result<
    Option<DockerContainerState>,
    String,
>)
    ensures
        !success && missing_container(stderr@) ==> r == Ok::<Option<DockerContainerState>, String>(None),
        !success && !missing_container(stderr@) ==> r is Err && r->Err_0@ == "docker inspect failed: "@
            + trim(stderr@),
        success ==> r == Ok::<Option<DockerContainerState>, String>(Some(inspected(stdout@))),
{
    if !success {
        let lower = ascii_lower_chars(&chars_of(stderr));
        if contains_str(&lower, "no such object") || contains_str(&lower, "no such container") {
            return Ok(None);
        }
        let mut m = chars_of("docker inspect failed: ");
        append_chars(&mut m, &trim_chars(&chars_of(stderr)));
        return Err(string_of(&m));
    }
    let raw = trim_chars(&chars_of(stdout));
    let parts = split_char_chars(&raw, '|');
    assert(views(parts@)[0] == parts@[0]@);
    let running = crate::text::str_eq_chars("true", &trim_chars(&parts[0]));
    let exit_code = if parts.len() > 1 {
        assert(views(parts@)[1] == parts@[1]@);
        parse_i32_chars(&trim_chars(&parts[1]))
    } else {
        None
    };
    Ok(Some(DockerContainerState { running, exit_code }))
}

/// The raw pieces of one `docker stats` line (`CPU%|memory|PIDs`): the CPU
/// and memory fields as written (reading their decimal numbers is left to the
/// caller), and the process count.
#[derive(Debug, Clone, PartialEq, Eq)]
pub struct DockerStatsFields {
    pub cpu_field: Option<String>,
    pub memory_field: Option<String>,
    pub process_count: Option<usize>,
}

/// Field `i` of a `docker stats` line.
pub open spec fn stats_field(stdout: Seq<char>, i: int) -> Option<Seq<char>> {
    let fs = split_pred(trim(stdout), is_char('|'));
    if 0 <= i < fs.len() {
        Some(fs[i])
    } else {
        None
    }
}

/// The statistics of a container from `docker stats`: none when it does not
/// exist or nothing was printed, an error for any other failure.
pub fn docker_container_stats_from_output(success: bool, stderr: &str, stdout: &str) -> (r: Result<
    Option<DockerStatsFields>,
    String,
>)
    ensures
        !success && missing_container(stderr@) ==> r == Ok::<Option<DockerStatsFields>, String>(None),
        !success && !missing_container(stderr@) ==> r is Err && r->Err_0@ == "docker stats failed: "@
            + trim(stderr@),
        success && trim(stdout@).len() == 0 ==> r == Ok::<Option<DockerStatsFields>, String>(None),
        success && trim(stdout@).len() > 0 ==> (r matches Ok(Some(f)) && opt_view(f.cpu_field)
            == stats_field(stdout@, 0) && opt_view(f.memory_field) == stats_field(stdout@, 1)
            && f.process_count == match stats_field(stdout@, 2) {
            Some(t) => match parse_uint(trim(t), usize::MAX as nat) {
                Some(n) => Some(n as usize),
                None => None,
            },
            None => None,
        }),
{
    if !success {
        let lower = ascii_lower_chars(&chars_of(stderr));
        if contains_str(&lower, "no such object") || contains_str(&lower, "no such container") {
            return Ok(None);
        }
        let mut m = chars_of("docker stats failed: ");
        append_chars(&mut m, &trim_chars(&chars_of(stderr)));
        return Err(string_of(&m));
    }
    let raw = trim_chars(&chars_of(stdout));
    if raw.len() == 0 {
        return Ok(None);
    }
    let parts = split_char_chars(&raw, '|');
    let ghost fs = views(parts@);
    let cpu_field = if parts.len() > 0 {
        assert(fs[0] == parts@[0]@);
        Some(string_of(&parts[0]))
    } else {
        None
    };
    let memory_field = if parts.len() > 1 {
        assert(fs[1] == parts@[1]@);
        Some(string_of(&parts[1]))
    } else {
        None
    };
    let process_count = if parts.len() > 2 {
        assert(fs[2] == parts@[2]@);
        parse_usize_chars(&trim_chars(&parts[2]))
    } else {
        None
    };
    Ok(Some(DockerStatsFields { cpu_field, memory_field, process_count }))
}

/// The result of `docker rm -f`: success, or a container that was already
/// gone, is fine.
pub fn docker_remove_result_from_output(success: bool, stderr: &str) -> (r: Result<(), String>)
    ensures
        (success || contains_sub(ascii_lower(stderr@), "no such container"@)) ==> r is Ok,
        !(success || contains_sub(ascii_lower(stderr@), "no such container"@)) ==> r is Err
            && r->Err_0@ == "docker rm failed: "@ + trim(stderr@),
{
    if success {
        return Ok(());
    }
    let lower = ascii_lower_chars(&chars_of(stderr));
    if contains_str(&lower, "no such container") {
        return Ok(());
    }
    let mut m = chars_of("docker rm failed: ");
    append_chars(&mut m, &trim_chars(&chars_of(stderr)));
    Err(string_of(&m))
}

/// The log lines of `docker logs`: its standard output lines, then its error
/// output lines.
pub fn docker_logs_lines_from_output(success: bool, stderr: &str, stdout: &str) -> (r: Result<
    Vec<String>,
    String,
>)
    ensures
        !success ==> r is Err && r->Err_0@ == "docker logs failed: "@ + trim(stderr@),
        success ==> r is Ok && str_views(r->Ok_0@) == lines(stdout@) + lines(stderr@),
{
    if !success {
        let mut m = chars_of("docker logs failed: ");
        append_chars(&mut m, &trim_chars(&chars_of(stderr)));
        return Err(string_of(&m));
    }
    let mut out: Vec<String> = Vec::new();
    let a = lines_chars(&chars_of(stdout));
    let b = lines_chars(&chars_of(stderr));
    let mut i: usize = 0;
    while i < a.len()
        invariant
            i <= a@.len(),
            str_views(out@) == views(a@).take(i as int),
        decreases a.len() - i,
    {
        push_chars(&mut out, &a[i]);
        assert(views(a@).take(i + 1) =~= views(a@).take(i as int).push(a@[i as int]@));
        i = i + 1;
    }
    assert(views(a@).take(a@.len() as int) =~= views(a@));
    let mut j: usize = 0;
    while j < b.len()
        invariant
            j <= b@.len(),
            str_views(out@) == views(a@) + views(b@).take(j as int),
        decreases b.len() - j,
    {
        push_chars(&mut out, &b[j]);
        assert(views(b@).take(j + 1) =~= views(b@).take(j as int).push(b@[j as int]@));
        j = j + 1;
    }
    assert(views(b@).take(b@.len() as int) =~= views(b@));
    Ok(out)
}

/// What starting a container service should do next, given what `docker
/// inspect` found: `Ok(true)` to remove the stopped container first,
/// `Ok(false)` to run directly, or the error to report.
pub fn start_container_plan(
    input: &StartContainerInput,
    existing: Option<DockerContainerState>,
) -> (r: Result<bool, String>)
    ensures
        trim(input.container.image@).len() == 0 ==> r is Err && r->Err_0@ == empty_image_message(
            input.service_name@,
        ),
        trim(input.container.image@).len() > 0 && existing is Some && existing.unwrap().running
            ==> r is Err && r->Err_0@ == "Container service '"@ + input.service_name@
            + "' in project '"@ + input.project_name@ + "' is already running."@,
        trim(input.container.image@).len() > 0 && !(existing is Some && existing.unwrap().running)
            ==> r == Ok::<bool, String>(existing is Some),
{
    let image = trim_chars(&chars_of(input.container.image.as_str()));
    if image.len() == 0 {
        let mut m = chars_of("Service '");
        append_str(&mut m, input.service_name.as_str());
        append_str(&mut m, "' uses runtime 'container' but container.image is empty.");
        return Err(string_of(&m));
    }
    match existing_container_start_action(existing) {
        ExistingContainerStartAction::AlreadyRunning => {
            let mut m = chars_of("Container service '");
            append_str(&mut m, input.service_name.as_str());
            append_str(&mut m, "' in project '");
            append_str(&mut m, input.project_name.as_str());
            append_str(&mut m, "' is already running.");
            Err(string_of(&m))
        },
        ExistingContainerStartAction::RemoveBeforeStart => Ok(true),
        ExistingContainerStartAction::Continue => Ok(false),
    }
}

/// The error when `docker run` failed, with its trimmed error output.
pub fn docker_run_failure_message(service_name: &str, project_name: &str, stderr: &str) -> (r:
    String)
    ensures
        r@ == "Docker run failed for service '"@ + service_name@ + "' in project '"@
            + project_name@ + "': "@ + if trim(stderr@).len() == 0 {
            "unknown error"@
        } else {
            trim(stderr@)
        },
{
    let mut m = chars_of("Docker run failed for service '");
    append_str(&mut m, service_name);
    append_str(&mut m, "' in project '");
    append_str(&mut m, project_name);
    append_str(&mut m, "': ");
    let d = trim_chars(&chars_of(stderr));
    if d.len() == 0 {
        append_str(&mut m, "unknown error");
    } else {
        append_chars(&mut m, &d);
    }
    string_of(&m)
}

} // verus!
