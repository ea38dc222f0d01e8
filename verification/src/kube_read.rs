//! Reading `kubectl get -o json` output into the snapshot model: which items
//! are kept and what each field of a snapshot is taken from.

use vstd::prelude::*;
use crate::config::{key_lt, key_lt_chars, lemma_key_lt_irreflexive, lemma_key_lt_total, lemma_key_lt_transitive};
use crate::json::{
    as_bool, as_str, as_u64, at, deref_opt, items, json_at, json_bool, json_items, json_members,
    json_parsed, json_str, json_str_is, json_u64, members, parse_json_text, JsonMember, JsonValue,
};
use crate::kube::{
    KubernetesEndpointSliceSnapshot, KubernetesEventSnapshot, KubernetesIngressSnapshot,
    KubernetesNodeSnapshot, KubernetesPodSnapshot, KubernetesServiceSnapshot,
    KubernetesWorkloadSnapshot,
};
use crate::proto::{insert_sorted, sorted_strict};
use crate::routes::opt_view;
use crate::kube::{cat, dec_string};
use crate::text::{
    chars_of, copy_range, dec_chars, starts_with, starts_with_str, str_views, string_of, trim, trim_str,
};

verus! {

broadcast use vstd::seq_lib::group_seq_properties;

// ---------------------------------------------------------------------------
// Sorting lists of strings
// ---------------------------------------------------------------------------

/// Never descending.
pub open spec fn sorted_asc(v: Seq<Seq<char>>) -> bool {
    forall|i: int, j: int| 0 <= i < j < v.len() ==> !key_lt(#[trigger] v[j], #[trigger] v[i])
}

/// `Vec::sort` on strings: the same strings, as often as before, in
/// ascending order.
pub fn sort_strings(v: Vec<String>) -> (r: Vec<String>)
    ensures
        sorted_asc(str_views(r@)),
        str_views(r@).to_multiset() == str_views(v@).to_multiset(),
{
    let mut out: Vec<String> = Vec::new();
    let mut k: usize = 0;
    while k < v.len()
        invariant
            k <= v@.len(),
            sorted_asc(str_views(out@)),
            str_views(out@).to_multiset() == str_views(v@).take(k as int).to_multiset(),
        decreases v.len() - k,
    {
        let x = v[k].clone();
        let xv = chars_of(x.as_str());
        let ghost old_v = str_views(out@);
        let mut i: usize = 0;
        while i < out.len() && !key_lt_chars(&xv, &chars_of(out[i].as_str()))
            invariant
                i <= out@.len(),
                old_v == str_views(out@),
                xv@ == x@,
                sorted_asc(old_v),
                forall|j: int| 0 <= j < i ==> !key_lt(x@, #[trigger] old_v[j]),
            decreases out.len() - i,
        {
            assert(old_v[i as int] == out@[i as int]@);
            i = i + 1;
        }
        proof {
            if i < out.len() {
                assert(old_v[i as int] == out@[i as int]@);
                assert(key_lt(x@, old_v[i as int]));
            }
        }
        out.insert(i, x);
        proof {
            let nv = str_views(out@);
            assert(nv =~= old_v.insert(i as int, x@));
            assert forall|a: int, b: int| 0 <= a < b < nv.len() implies !key_lt(#[trigger] nv[b], #[trigger] nv[a]) by {
                if a < i && b == i {
                    lemma_key_lt_total(x@, old_v[a]);
                } else if a == i && b > i {
                    lemma_key_lt_total(old_v[b - 1], x@);
                    if key_lt(old_v[b - 1], x@) {
                        if b - 1 > i {
                            assert(!key_lt(old_v[b - 1], old_v[i as int]));
                            lemma_key_lt_transitive(old_v[b - 1], x@, old_v[i as int]);
                        } else {
                            lemma_key_lt_transitive(x@, old_v[i as int], x@);
                            lemma_key_lt_irreflexive(x@);
                        }
                    }
                } else if a < i && b > i {
                    assert(!key_lt(old_v[b - 1], old_v[a]));
                }
            }
            old_v.insert_ensures(i as int, x@);
            let sv = str_views(v@);
            assert(sv.take(k + 1) =~= sv.take(k as int).push(sv[k as int]));
            assert(sv[k as int] == x@);
        }
        k = k + 1;
    }
    assert(str_views(v@).take(v.len() as int) =~= str_views(v@));
    out
}

/// Strictly ascending, holding exactly the strings of `cands`.
pub open spec fn sorted_set_of(v: Seq<Seq<char>>, cands: Seq<Seq<char>>) -> bool {
    sorted_strict(v) && forall|x: Seq<char>| v.contains(x) <==> cands.contains(x)
}

/// `sort` then `dedup` on a list of strings.
pub fn sort_dedup(v: Vec<String>) -> (r: Vec<String>)
    ensures
        sorted_set_of(str_views(r@), str_views(v@)),
{
    let mut out: Vec<String> = Vec::new();
    let ghost sv = str_views(v@);
    let mut k: usize = 0;
    while k < v.len()
        invariant
            k <= v@.len(),
            sv == str_views(v@),
            sorted_set_of(str_views(out@), sv.take(k as int)),
        decreases v.len() - k,
    {
        insert_sorted(&mut out, v[k].clone());
        proof {
            assert(sv.take(k + 1) =~= sv.take(k as int).push(sv[k as int]));
        }
        k = k + 1;
    }
    assert(sv.take(v.len() as int) =~= sv);
    out
}

// ---------------------------------------------------------------------------
// Items of a list
// ---------------------------------------------------------------------------

/// `root.items`, or nothing.
pub open spec fn list_items(root: JsonValue) -> Seq<JsonValue> {
    items(at(Some(root), "items"@))
}

pub open spec fn field(item: JsonValue, a: Seq<char>, b: Seq<char>) -> Option<JsonValue> {
    at(at(Some(item), a), b)
}

pub open spec fn str_or(v: Option<Seq<char>>, d: Seq<char>) -> Seq<char> {
    match v {
        Some(s) => s,
        None => d,
    }
}

pub open spec fn metadata_name(item: JsonValue) -> Option<Seq<char>> {
    as_str(field(item, "metadata"@, "name"@))
}

pub open spec fn metadata_namespace(item: JsonValue) -> Option<Seq<char>> {
    as_str(field(item, "metadata"@, "namespace"@))
}

/// The items that have a `metadata.name`, in order.
pub open spec fn named_items(xs: Seq<JsonValue>) -> Seq<JsonValue>
    decreases xs.len(),
{
    if xs.len() == 0 {
        Seq::empty()
    } else if metadata_name(xs.last()) is Some {
        named_items(xs.drop_last()).push(xs.last())
    } else {
        named_items(xs.drop_last())
    }
}

proof fn lemma_named_items_step(xs: Seq<JsonValue>, i: int)
    requires
        0 <= i < xs.len(),
    ensures
        named_items(xs.take(i + 1)) == if metadata_name(xs[i]) is Some {
            named_items(xs.take(i)).push(xs[i])
        } else {
            named_items(xs.take(i))
        },
{
    assert(xs.take(i + 1).drop_last() =~= xs.take(i));
    assert(xs.take(i + 1).last() == xs[i]);
}

/// The error of an unreadable kubectl output.
pub open spec fn invalid_json(e: Seq<char>) -> Seq<char> {
    "Invalid kubectl JSON: "@ + e
}

fn invalid_json_error(e: String) -> (r: String)
    ensures
        r@ == invalid_json(e@),
{
    let mut r = "Invalid kubectl JSON: ".to_owned();
    r.append(e.as_str());
    r
}

fn str_or_default(v: Option<&JsonValue>, d: &str) -> (r: String)
    ensures
        r@ == str_or(as_str(deref_opt(v)), d@),
{
    match json_str(v) {
        Some(s) => s,
        None => d.to_owned(),
    }
}

fn item_field<'a>(item: &'a JsonValue, a: &str, b: &str) -> (r: Option<&'a JsonValue>)
    ensures
        deref_opt(r) == field(*item, a@, b@),
{
    json_at(json_at(Some(item), a), b)
}

fn name_of(item: &JsonValue) -> (r: Option<String>)
    ensures
        opt_view(r) == metadata_name(*item),
{
    json_str(item_field(item, "metadata", "name"))
}

fn namespace_or_default(item: &JsonValue) -> (r: String)
    ensures
        r@ == str_or(metadata_namespace(*item), "default"@),
{
    str_or_default(item_field(item, "metadata", "namespace"), "default")
}

// ---------------------------------------------------------------------------
// Namespaces
// ---------------------------------------------------------------------------

pub open spec fn namespace_names(xs: Seq<JsonValue>) -> Seq<Seq<char>>
    decreases xs.len(),
{
    if xs.len() == 0 {
        Seq::empty()
    } else {
        match metadata_name(xs.last()) {
            Some(n) => namespace_names(xs.drop_last()).push(n),
            None => namespace_names(xs.drop_last()),
        }
    }
}

/// The names of the namespaces of a `kubectl get namespaces` document.
pub fn namespace_names_from_json(root: &JsonValue) -> (r: Vec<String>)
    ensures
        str_views(r@) == namespace_names(list_items(*root)),
{
    let xs = json_items(json_at(Some(root), "items"));
    let mut out: Vec<String> = Vec::new();
    let mut i: usize = 0;
    while i < xs.len()
        invariant
            i <= xs@.len(),
            xs@ == list_items(*root),
            str_views(out@) == namespace_names(xs@.take(i as int)),
        decreases xs.len() - i,
    {
        assert(xs@.take(i + 1).drop_last() =~= xs@.take(i as int));
        match name_of(&xs[i]) {
            Some(n) => {
                out.push(n);
            },
            None => {},
        }
        i = i + 1;
    }
    assert(xs@.take(xs.len() as int) =~= xs@);
    out
}

/// `kubectl get namespaces -o json` read into namespace names.
pub fn parse_namespace_names(stdout: &str) -> (r: Result<Vec<String>, String>)
    ensures
        match json_parsed(stdout@) {
            Ok(root) => r is Ok && str_views(r->Ok_0@) == namespace_names(list_items(root)),
            Err(e) => r is Err && r->Err_0@ == invalid_json(e),
        },
{
    match parse_json_text(stdout) {
        Ok(root) => Ok(namespace_names_from_json(&root)),
        Err(e) => Err(invalid_json_error(e)),
    }
}

// ---------------------------------------------------------------------------
// Workloads
// ---------------------------------------------------------------------------

/// What a workload snapshot is read from.
pub open spec fn workload_read(w: KubernetesWorkloadSnapshot, kind: Seq<char>, item: JsonValue) -> bool {
    &&& w.kind@ == kind
    &&& Some(w.name@) == metadata_name(item)
    &&& w.namespace@ == str_or(metadata_namespace(item), "default"@)
    &&& w.desired_replicas == match as_u64(field(item, "spec"@, "replicas"@)) {
        Some(n) => Some(n),
        None => Some(1u64),
    }
    &&& w.ready_replicas == as_u64(field(item, "status"@, "readyReplicas"@))
    &&& w.available_replicas == as_u64(field(item, "status"@, "availableReplicas"@))
}

/// The workloads of a `kubectl get <kind>` document, one per named item.
pub fn workload_snapshots_from_json(kind: &str, root: &JsonValue) -> (r: Vec<KubernetesWorkloadSnapshot>)
    ensures
        r@.len() == named_items(list_items(*root)).len(),
        forall|i: int| 0 <= i < r@.len() ==> workload_read(#[trigger] r@[i], kind@, named_items(list_items(*root))[i]),
{
    let xs = json_items(json_at(Some(root), "items"));
    let mut out: Vec<KubernetesWorkloadSnapshot> = Vec::new();
    let mut i: usize = 0;
    while i < xs.len()
        invariant
            i <= xs@.len(),
            xs@ == list_items(*root),
            out@.len() == named_items(xs@.take(i as int)).len(),
            forall|j: int| 0 <= j < out@.len() ==> workload_read(#[trigger] out@[j], kind@, named_items(xs@.take(i as int))[j]),
        decreases xs.len() - i,
    {
        let item = &xs[i];
        proof {
            lemma_named_items_step(xs@, i as int);
        }
        match name_of(item) {
            Some(name) => {
                let desired = match json_u64(item_field(item, "spec", "replicas")) {
                    Some(n) => Some(n),
                    None => Some(1u64),
                };
                out.push(KubernetesWorkloadSnapshot {
                    kind: kind.to_owned(),
                    name,
                    namespace: namespace_or_default(item),
                    desired_replicas: desired,
                    ready_replicas: json_u64(item_field(item, "status", "readyReplicas")),
                    available_replicas: json_u64(item_field(item, "status", "availableReplicas")),
                });
            },
            None => {},
        }
        i = i + 1;
    }
    assert(xs@.take(xs.len() as int) =~= xs@);
    out
}

/// `kubectl get <kind> -o json` read into workload snapshots.
pub fn parse_workload_snapshots(kind: &str, stdout: &str) -> (r: Result<Vec<KubernetesWorkloadSnapshot>, String>)
    ensures
        match json_parsed(stdout@) {
            Ok(root) => r is Ok && r->Ok_0@.len() == named_items(list_items(root)).len() && forall|i: int|
                0 <= i < r->Ok_0@.len() ==> workload_read(#[trigger] r->Ok_0@[i], kind@, named_items(list_items(root))[i]),
            Err(e) => r is Err && r->Err_0@ == invalid_json(e),
        },
{
    match parse_json_text(stdout) {
        Ok(root) => Ok(workload_snapshots_from_json(kind, &root)),
        Err(e) => Err(invalid_json_error(e)),
    }
}

// ---------------------------------------------------------------------------
// Lists of strings inside an item
// ---------------------------------------------------------------------------

/// The strings among a list of values.
pub open spec fn str_items(xs: Seq<JsonValue>) -> Seq<Seq<char>>
    decreases xs.len(),
{
    if xs.len() == 0 {
        Seq::empty()
    } else {
        match as_str(Some(xs.last())) {
            Some(s) => str_items(xs.drop_last()).push(s),
            None => str_items(xs.drop_last()),
        }
    }
}

fn push_str_items(out: &mut Vec<String>, xs: &[JsonValue])
    ensures
        str_views(final(out)@) == str_views(old(out)@) + str_items(xs@),
{
    let ghost start = str_views(out@);
    let mut i: usize = 0;
    while i < xs.len()
        invariant
            i <= xs@.len(),
            str_views(out@) == start + str_items(xs@.take(i as int)),
        decreases xs.len() - i,
    {
        assert(xs@.take(i + 1).drop_last() =~= xs@.take(i as int));
        assert(xs@.take(i + 1).last() == xs@[i as int]);
        let ghost a = str_items(xs@.take(i as int));
        let got = json_str(Some(&xs[i]));
        match got {
            Some(s) => {
                out.push(s);
                assert(str_items(xs@.take(i + 1)) == a.push(s@));
                assert(str_views(out@) =~= (start + a).push(s@));
                assert((start + a).push(s@) =~= start + a.push(s@));
            },
            None => {
                assert(str_items(xs@.take(i + 1)) == a);
            },
        }
        i = i + 1;
    }
    assert(xs@.take(xs.len() as int) =~= xs@);
}

/// `key=value` of a label, with an empty value for one that is no string.
pub open spec fn label_text(m: JsonMember) -> Seq<char> {
    m.key@ + "="@ + str_or(as_str(Some(m.value)), Seq::empty())
}

pub open spec fn label_texts(ms: Seq<JsonMember>) -> Seq<Seq<char>>
    decreases ms.len(),
{
    if ms.len() == 0 {
        Seq::empty()
    } else {
        label_texts(ms.drop_last()).push(label_text(ms.last()))
    }
}

/// The `key=value` pairs of a label object, sorted.
pub open spec fn label_pairs_read(r: Seq<Seq<char>>, v: Option<JsonValue>) -> bool {
    sorted_asc(r) && r.to_multiset() == label_texts(members(v)).to_multiset()
}

fn label_pairs(v: Option<&JsonValue>) -> (r: Vec<String>)
    ensures
        label_pairs_read(str_views(r@), deref_opt(v)),
{
    let ms = json_members(v);
    let mut out: Vec<String> = Vec::new();
    let mut i: usize = 0;
    while i < ms.len()
        invariant
            i <= ms@.len(),
            ms@ == members(deref_opt(v)),
            str_views(out@) == label_texts(ms@.take(i as int)),
        decreases ms.len() - i,
    {
        assert(ms@.take(i + 1).drop_last() =~= ms@.take(i as int));
        let value = str_or_default(Some(&ms[i].value), "");
        proof {
            reveal_strlit("");
        }
        assert(""@ =~= Seq::<char>::empty());
        let text = cat(cat(ms[i].key.as_str(), "=").as_str(), value.as_str());
        out.push(text);
        i = i + 1;
    }
    assert(ms@.take(ms.len() as int) =~= ms@);
    sort_strings(out)
}

// ---------------------------------------------------------------------------
// Services
// ---------------------------------------------------------------------------

/// The target of a service port: a number as written, or a non-blank name.
pub open spec fn target_port_label(v: Option<JsonValue>) -> Option<Seq<char>> {
    match v {
        Some(JsonValue::Number(n)) => Some(n.text@),
        Some(JsonValue::Str(s)) => if trim(s@).len() > 0 {
            Some(s@)
        } else {
            None
        },
        _ => None,
    }
}

/// `[name:]port->target/protocol` of a service port with a number.
pub open spec fn port_label(p: JsonValue) -> Option<Seq<char>> {
    match as_u64(at(Some(p), "port"@)) {
        Some(n) => {
            let protocol = str_or(as_str(at(Some(p), "protocol"@)), "TCP"@);
            let name = str_or(as_str(at(Some(p), "name"@)), Seq::empty());
            let target = match target_port_label(at(Some(p), "targetPort"@)) {
                Some(t) => t,
                None => dec_chars(n as nat),
            };
            let tail = dec_chars(n as nat) + "->"@ + target + "/"@ + protocol;
            Some(
                if name.len() == 0 {
                    tail
                } else {
                    name + ":"@ + tail
                },
            )
        },
        None => None,
    }
}

pub open spec fn port_labels(ps: Seq<JsonValue>) -> Seq<Seq<char>>
    decreases ps.len(),
{
    if ps.len() == 0 {
        Seq::empty()
    } else {
        match port_label(ps.last()) {
            Some(l) => port_labels(ps.drop_last()).push(l),
            None => port_labels(ps.drop_last()),
        }
    }
}

fn target_port_text(v: Option<&JsonValue>) -> (r: Option<String>)
    ensures
        opt_view(r) == target_port_label(deref_opt(v)),
{
    match v {
        Some(JsonValue::Number(n)) => Some(n.text.clone()),
        Some(JsonValue::Str(s)) => {
            if trim_str(s.as_str()).len() > 0 {
                Some(s.clone())
            } else {
                None
            }
        },
        _ => None,
    }
}

fn port_label_of(p: &JsonValue) -> (r: Option<String>)
    ensures
        opt_view(r) == port_label(*p),
{
    match json_u64(json_at(Some(p), "port")) {
        Some(n) => {
            let protocol = str_or_default(json_at(Some(p), "protocol"), "TCP");
            let name = str_or_default(json_at(Some(p), "name"), "");
            proof {
            reveal_strlit("");
        }
        assert(""@ =~= Seq::<char>::empty());
            let number = dec_string(n);
            let target = match target_port_text(json_at(Some(p), "targetPort")) {
                Some(t) => t,
                None => dec_string(n),
            };
            let tail = cat(
                cat(cat(number.as_str(), "->").as_str(), target.as_str()).as_str(),
                cat("/", protocol.as_str()).as_str(),
            );
            proof {
                assert(tail@ =~= dec_chars(n as nat) + "->"@ + target@ + "/"@ + protocol@);
            }
            if name.as_str().is_empty() {
                Some(tail)
            } else {
                let full = cat(cat(name.as_str(), ":").as_str(), tail.as_str());
                Some(full)
            }
        },
        None => None,
    }
}

fn service_port_labels(ps: &[JsonValue]) -> (r: Vec<String>)
    ensures
        str_views(r@) == port_labels(ps@),
{
    let mut out: Vec<String> = Vec::new();
    let mut i: usize = 0;
    while i < ps.len()
        invariant
            i <= ps@.len(),
            str_views(out@) == port_labels(ps@.take(i as int)),
        decreases ps.len() - i,
    {
        assert(ps@.take(i + 1).drop_last() =~= ps@.take(i as int));
        match port_label_of(&ps[i]) {
            Some(l) => {
                out.push(l);
            },
            None => {},
        }
        i = i + 1;
    }
    assert(ps@.take(ps.len() as int) =~= ps@);
    out
}

/// The address of a load-balancer entry: its `ip`, else its `hostname`.
pub open spec fn lb_address(e: JsonValue) -> Option<Seq<char>> {
    match as_str(at(Some(e), "ip"@)) {
        Some(ip) => Some(ip),
        None => as_str(at(Some(e), "hostname"@)),
    }
}

pub open spec fn lb_addresses(xs: Seq<JsonValue>) -> Seq<Seq<char>>
    decreases xs.len(),
{
    if xs.len() == 0 {
        Seq::empty()
    } else {
        match lb_address(xs.last()) {
            Some(a) => lb_addresses(xs.drop_last()).push(a),
            None => lb_addresses(xs.drop_last()),
        }
    }
}

/// The external addresses of a service: `spec.externalIPs`, then the
/// load-balancer entries.
pub open spec fn external_ip_candidates(item: JsonValue) -> Seq<Seq<char>> {
    str_items(items(field(item, "spec"@, "externalIPs"@))) + lb_addresses(
        items(at(field(item, "status"@, "loadBalancer"@), "ingress"@)),
    )
}

fn service_external_ips(item: &JsonValue) -> (r: Vec<String>)
    ensures
        sorted_set_of(str_views(r@), external_ip_candidates(*item)),
{
    let mut out: Vec<String> = Vec::new();
    push_str_items(&mut out, json_items(item_field(item, "spec", "externalIPs")));
    let xs = json_items(json_at(item_field(item, "status", "loadBalancer"), "ingress"));
    let ghost start = str_views(out@);
    let mut i: usize = 0;
    while i < xs.len()
        invariant
            i <= xs@.len(),
            str_views(out@) == start + lb_addresses(xs@.take(i as int)),
        decreases xs.len() - i,
    {
        assert(xs@.take(i + 1).drop_last() =~= xs@.take(i as int));
        assert(xs@.take(i + 1).last() == xs@[i as int]);
        let ghost a = lb_addresses(xs@.take(i as int));
        let e = &xs[i];
        let addr = match json_str(json_at(Some(e), "ip")) {
            Some(ip) => Some(ip),
            None => json_str(json_at(Some(e), "hostname")),
        };
        match addr {
            Some(x) => {
                out.push(x);
                assert(lb_addresses(xs@.take(i + 1)) == a.push(x@));
                assert(str_views(out@) =~= (start + a).push(x@));
                assert((start + a).push(x@) =~= start + a.push(x@));
            },
            None => {
                assert(lb_addresses(xs@.take(i + 1)) == a);
            },
        }
        i = i + 1;
    }
    assert(xs@.take(xs.len() as int) =~= xs@);
    sort_dedup(out)
}

/// What a service snapshot is read from.
pub open spec fn service_read(s: KubernetesServiceSnapshot, item: JsonValue) -> bool {
    &&& Some(s.name@) == metadata_name(item)
    &&& s.namespace@ == str_or(metadata_namespace(item), "default"@)
    &&& s.service_type@ == str_or(as_str(field(item, "spec"@, "type"@)), "ClusterIP"@)
    &&& opt_view(s.cluster_ip) == match as_str(field(item, "spec"@, "clusterIP"@)) {
        Some(ip) => if ip == "None"@ {
            None
        } else {
            Some(ip)
        },
        None => None,
    }
    &&& str_views(s.ports@) == port_labels(items(field(item, "spec"@, "ports"@)))
    &&& label_pairs_read(str_views(s.selector@), field(item, "spec"@, "selector"@))
    &&& sorted_set_of(str_views(s.external_ips@), external_ip_candidates(item))
    &&& s.endpoint_count == 0
    &&& s.target_pods@.len() == 0
    &&& s.ingress_routes@.len() == 0
}

fn service_of(item: &JsonValue, name: String) -> (r: KubernetesServiceSnapshot)
    requires
        metadata_name(*item) == Some(name@),
    ensures
        service_read(r, *item),
{
    let cluster_ip = match json_str(item_field(item, "spec", "clusterIP")) {
        Some(ip) => if crate::text::str_eq(ip.as_str(), "None") {
            None
        } else {
            Some(ip)
        },
        None => None,
    };
    KubernetesServiceSnapshot {
        name,
        namespace: namespace_or_default(item),
        service_type: str_or_default(item_field(item, "spec", "type"), "ClusterIP"),
        cluster_ip,
        ports: service_port_labels(json_items(item_field(item, "spec", "ports"))),
        selector: label_pairs(item_field(item, "spec", "selector")),
        external_ips: service_external_ips(item),
        endpoint_count: 0,
        target_pods: Vec::new(),
        ingress_routes: Vec::new(),
    }
}

/// The services of a `kubectl get services` document, one per named item.
pub fn service_snapshots_from_json(root: &JsonValue) -> (r: Vec<KubernetesServiceSnapshot>)
    ensures
        r@.len() == named_items(list_items(*root)).len(),
        forall|i: int| 0 <= i < r@.len() ==> service_read(#[trigger] r@[i], named_items(list_items(*root))[i]),
{
    let xs = json_items(json_at(Some(root), "items"));
    let mut out: Vec<KubernetesServiceSnapshot> = Vec::new();
    let mut i: usize = 0;
    while i < xs.len()
        invariant
            i <= xs@.len(),
            xs@ == list_items(*root),
            out@.len() == named_items(xs@.take(i as int)).len(),
            forall|j: int| 0 <= j < out@.len() ==> service_read(#[trigger] out@[j], named_items(xs@.take(i as int))[j]),
        decreases xs.len() - i,
    {
        proof {
            lemma_named_items_step(xs@, i as int);
        }
        match name_of(&xs[i]) {
            Some(name) => {
                out.push(service_of(&xs[i], name));
            },
            None => {},
        }
        i = i + 1;
    }
    assert(xs@.take(xs.len() as int) =~= xs@);
    out
}

/// `kubectl get services -o json` read into service snapshots.
pub fn parse_service_snapshots(stdout: &str) -> (r: Result<Vec<KubernetesServiceSnapshot>, String>)
    ensures
        match json_parsed(stdout@) {
            Ok(root) => r is Ok && r->Ok_0@.len() == named_items(list_items(root)).len() && forall|i: int|
                0 <= i < r->Ok_0@.len() ==> service_read(#[trigger] r->Ok_0@[i], named_items(list_items(root))[i]),
            Err(e) => r is Err && r->Err_0@ == invalid_json(e),
        },
{
    match parse_json_text(stdout) {
        Ok(root) => Ok(service_snapshots_from_json(&root)),
        Err(e) => Err(invalid_json_error(e)),
    }
}

// ---------------------------------------------------------------------------
// Nodes
// ---------------------------------------------------------------------------

/// A node is ready when one of its conditions is `Ready` with status `True`.
pub open spec fn node_ready(item: JsonValue) -> bool {
    let cs = items(field(item, "status"@, "conditions"@));
    exists|j: int|
        0 <= j < cs.len() && as_str(at(Some(#[trigger] cs[j]), "type"@)) == Some("Ready"@) && as_str(
            at(Some(cs[j]), "status"@),
        ) == Some("True"@)
}

pub open spec fn node_role_prefix() -> Seq<char> {
    "node-role.kubernetes.io/"@
}

/// The roles named by `node-role.kubernetes.io/<role>` label keys.
pub open spec fn node_role_keys(ms: Seq<JsonMember>) -> Seq<Seq<char>>
    decreases ms.len(),
{
    if ms.len() == 0 {
        Seq::empty()
    } else {
        let k = ms.last().key@;
        let prev = node_role_keys(ms.drop_last());
        if starts_with(k, node_role_prefix()) && k.len() > node_role_prefix().len() {
            prev.push(k.skip(node_role_prefix().len() as int))
        } else {
            prev
        }
    }
}

/// The roles of a node, sorted; `worker` when it has none.
pub open spec fn node_roles_read(r: Seq<Seq<char>>, item: JsonValue) -> bool {
    let c = node_role_keys(members(field(item, "metadata"@, "labels"@)));
    if c.len() == 0 {
        r == seq!["worker"@]
    } else {
        sorted_asc(r) && r.to_multiset() == c.to_multiset()
    }
}

/// The first entry of `xs` whose `type` is `t`.
pub open spec fn first_of_type(xs: Seq<JsonValue>, t: Seq<char>) -> Option<JsonValue>
    decreases xs.len(),
{
    if xs.len() == 0 {
        None
    } else if as_str(at(Some(xs[0]), "type"@)) == Some(t) {
        Some(xs[0])
    } else {
        first_of_type(xs.drop_first(), t)
    }
}

/// The `address` of the node's first address of type `t`.
pub open spec fn node_address(item: JsonValue, t: Seq<char>) -> Option<Seq<char>> {
    as_str(at(first_of_type(items(field(item, "status"@, "addresses"@)), t), "address"@))
}

/// `key=effect` of each taint with a key; the effect is `NoSchedule` when
/// missing.
pub open spec fn taint_texts(xs: Seq<JsonValue>) -> Seq<Seq<char>>
    decreases xs.len(),
{
    if xs.len() == 0 {
        Seq::empty()
    } else {
        let t = xs.last();
        match as_str(at(Some(t), "key"@)) {
            Some(k) => taint_texts(xs.drop_last()).push(
                k + "="@ + str_or(as_str(at(Some(t), "effect"@)), "NoSchedule"@),
            ),
            None => taint_texts(xs.drop_last()),
        }
    }
}

/// What a node snapshot is read from.
pub open spec fn node_read(n: KubernetesNodeSnapshot, item: JsonValue) -> bool {
    &&& Some(n.name@) == metadata_name(item)
    &&& n.ready == node_ready(item)
    &&& node_roles_read(str_views(n.roles@), item)
    &&& opt_view(n.kubernetes_version) == as_str(at(field(item, "status"@, "nodeInfo"@), "kubeletVersion"@))
    &&& opt_view(n.internal_ip) == node_address(item, "InternalIP"@)
    &&& opt_view(n.external_ip) == node_address(item, "ExternalIP"@)
    &&& opt_view(n.allocatable_cpu) == as_str(at(field(item, "status"@, "allocatable"@), "cpu"@))
    &&& opt_view(n.allocatable_memory) == as_str(at(field(item, "status"@, "allocatable"@), "memory"@))
    &&& opt_view(n.allocatable_pods) == as_str(at(field(item, "status"@, "allocatable"@), "pods"@))
    &&& str_views(n.taints@) == taint_texts(items(field(item, "spec"@, "taints"@)))
}

fn node_ready_of(item: &JsonValue) -> (r: bool)
    ensures
        r == node_ready(*item),
{
    let cs = json_items(item_field(item, "status", "conditions"));
    let mut i: usize = 0;
    while i < cs.len()
        invariant
            i <= cs@.len(),
            cs@ == items(field(*item, "status"@, "conditions"@)),
            forall|j: int|
                0 <= j < i ==> !(as_str(at(Some(#[trigger] cs@[j]), "type"@)) == Some("Ready"@) && as_str(
                    at(Some(cs@[j]), "status"@),
                ) == Some("True"@)),
        decreases cs.len() - i,
    {
        if json_str_is(json_at(Some(&cs[i]), "type"), "Ready") && json_str_is(
            json_at(Some(&cs[i]), "status"),
            "True",
        ) {
            return true;
        }
        i = i + 1;
    }
    false
}

fn node_roles(item: &JsonValue) -> (r: Vec<String>)
    ensures
        node_roles_read(str_views(r@), *item),
{
    let ms = json_members(item_field(item, "metadata", "labels"));
    let mut roles: Vec<String> = Vec::new();
    let mut i: usize = 0;
    while i < ms.len()
        invariant
            i <= ms@.len(),
            ms@ == members(field(*item, "metadata"@, "labels"@)),
            str_views(roles@) == node_role_keys(ms@.take(i as int)),
        decreases ms.len() - i,
    {
        assert(ms@.take(i + 1).drop_last() =~= ms@.take(i as int));
        assert(ms@.take(i + 1).last() == ms@[i as int]);
        let k = chars_of(ms[i].key.as_str());
        let plen: usize = 24;
        proof {
            reveal_strlit("node-role.kubernetes.io/");
        }
        if starts_with_str(&k, "node-role.kubernetes.io/") && k.len() > plen {
            let role = copy_range(&k, plen, k.len());
            assert(role@ =~= k@.skip(plen as int));
            roles.push(string_of(&role));
        }
        i = i + 1;
    }
    assert(ms@.take(ms.len() as int) =~= ms@);
    if roles.len() == 0 {
        let mut only: Vec<String> = Vec::new();
        only.push("worker".to_owned());
        assert(str_views(only@) =~= seq!["worker"@]);
        only
    } else {
        sort_strings(roles)
    }
}

fn node_address_of(item: &JsonValue, t: &str) -> (r: Option<String>)
    ensures
        opt_view(r) == node_address(*item, t@),
{
    let xs = json_items(item_field(item, "status", "addresses"));
    let mut i: usize = 0;
    assert(xs@.skip(0) =~= xs@);
    while i < xs.len()
        invariant
            i <= xs@.len(),
            xs@ == items(field(*item, "status"@, "addresses"@)),
            first_of_type(xs@, t@) == first_of_type(xs@.skip(i as int), t@),
        decreases xs.len() - i,
    {
        assert(xs@.skip(i as int)[0] == xs@[i as int]);
        assert(xs@.skip(i as int).drop_first() =~= xs@.skip(i + 1));
        if json_str_is(json_at(Some(&xs[i]), "type"), t) {
            return json_str(json_at(Some(&xs[i]), "address"));
        }
        i = i + 1;
    }
    None
}

fn node_taints(xs: &[JsonValue]) -> (r: Vec<String>)
    ensures
        str_views(r@) == taint_texts(xs@),
{
    let mut out: Vec<String> = Vec::new();
    let mut i: usize = 0;
    while i < xs.len()
        invariant
            i <= xs@.len(),
            str_views(out@) == taint_texts(xs@.take(i as int)),
        decreases xs.len() - i,
    {
        assert(xs@.take(i + 1).drop_last() =~= xs@.take(i as int));
        assert(xs@.take(i + 1).last() == xs@[i as int]);
        match json_str(json_at(Some(&xs[i]), "key")) {
            Some(k) => {
                let effect = str_or_default(json_at(Some(&xs[i]), "effect"), "NoSchedule");
                out.push(cat(cat(k.as_str(), "=").as_str(), effect.as_str()));
            },
            None => {},
        }
        i = i + 1;
    }
    assert(xs@.take(xs.len() as int) =~= xs@);
    out
}

fn node_of(item: &JsonValue, name: String) -> (r: KubernetesNodeSnapshot)
    requires
        metadata_name(*item) == Some(name@),
    ensures
        node_read(r, *item),
{
    let allocatable = item_field(item, "status", "allocatable");
    KubernetesNodeSnapshot {
        name,
        ready: node_ready_of(item),
        roles: node_roles(item),
        kubernetes_version: json_str(json_at(item_field(item, "status", "nodeInfo"), "kubeletVersion")),
        internal_ip: node_address_of(item, "InternalIP"),
        external_ip: node_address_of(item, "ExternalIP"),
        allocatable_cpu: json_str(json_at(allocatable, "cpu")),
        allocatable_memory: json_str(json_at(allocatable, "memory")),
        allocatable_pods: json_str(json_at(allocatable, "pods")),
        taints: node_taints(json_items(item_field(item, "spec", "taints"))),
    }
}

/// The nodes of a `kubectl get nodes` document, one per named item.
pub fn node_snapshots_from_json(root: &JsonValue) -> (r: Vec<KubernetesNodeSnapshot>)
    ensures
        r@.len() == named_items(list_items(*root)).len(),
        forall|i: int| 0 <= i < r@.len() ==> node_read(#[trigger] r@[i], named_items(list_items(*root))[i]),
{
    let xs = json_items(json_at(Some(root), "items"));
    let mut out: Vec<KubernetesNodeSnapshot> = Vec::new();
    let mut i: usize = 0;
    while i < xs.len()
        invariant
            i <= xs@.len(),
            xs@ == list_items(*root),
            out@.len() == named_items(xs@.take(i as int)).len(),
            forall|j: int| 0 <= j < out@.len() ==> node_read(#[trigger] out@[j], named_items(xs@.take(i as int))[j]),
        decreases xs.len() - i,
    {
        proof {
            lemma_named_items_step(xs@, i as int);
        }
        match name_of(&xs[i]) {
            Some(name) => {
                out.push(node_of(&xs[i], name));
            },
            None => {},
        }
        i = i + 1;
    }
    assert(xs@.take(xs.len() as int) =~= xs@);
    out
}

/// `kubectl get nodes -o json` read into node snapshots.
pub fn parse_node_snapshots(stdout: &str) -> (r: Result<Vec<KubernetesNodeSnapshot>, String>)
    ensures
        match json_parsed(stdout@) {
            Ok(root) => r is Ok && r->Ok_0@.len() == named_items(list_items(root)).len() && forall|i: int|
                0 <= i < r->Ok_0@.len() ==> node_read(#[trigger] r->Ok_0@[i], named_items(list_items(root))[i]),
            Err(e) => r is Err && r->Err_0@ == invalid_json(e),
        },
{
    match parse_json_text(stdout) {
        Ok(root) => Ok(node_snapshots_from_json(&root)),
        Err(e) => Err(invalid_json_error(e)),
    }
}

// ---------------------------------------------------------------------------
// Pods
// ---------------------------------------------------------------------------

pub open spec fn container_statuses(item: JsonValue) -> Seq<JsonValue> {
    items(field(item, "status"@, "containerStatuses"@))
}

/// How many containers report `ready: true`.
pub open spec fn ready_count(xs: Seq<JsonValue>) -> nat
    decreases xs.len(),
{
    if xs.len() == 0 {
        0
    } else {
        ready_count(xs.drop_last()) + if as_bool(at(Some(xs.last()), "ready"@)) == Some(true) {
            1nat
        } else {
            0nat
        }
    }
}

/// The sum of the containers' restart counts.
pub open spec fn restart_sum(xs: Seq<JsonValue>) -> nat
    decreases xs.len(),
{
    if xs.len() == 0 {
        0
    } else {
        restart_sum(xs.drop_last()) + match as_u64(at(Some(xs.last()), "restartCount"@)) {
            Some(n) => n as nat,
            None => 0nat,
        }
    }
}

/// Why a container waits, when it says so in more than blanks.
pub open spec fn waiting_reason(x: JsonValue) -> Option<Seq<char>> {
    match as_str(at(at(at(Some(x), "state"@), "waiting"@), "reason"@)) {
        Some(r) => if trim(r).len() > 0 {
            Some(r)
        } else {
            None
        },
        None => None,
    }
}

/// The first container's waiting reason.
pub open spec fn first_waiting_reason(xs: Seq<JsonValue>) -> Option<Seq<char>>
    decreases xs.len(),
{
    if xs.len() == 0 {
        None
    } else {
        match waiting_reason(xs[0]) {
            Some(r) => Some(r),
            None => first_waiting_reason(xs.drop_first()),
        }
    }
}

/// The images of the containers that name one.
pub open spec fn image_list(xs: Seq<JsonValue>) -> Seq<Seq<char>>
    decreases xs.len(),
{
    if xs.len() == 0 {
        Seq::empty()
    } else {
        match as_str(at(Some(xs.last()), "image"@)) {
            Some(i) => image_list(xs.drop_last()).push(i),
            None => image_list(xs.drop_last()),
        }
    }
}

/// The kind and name of the first owner reference.
pub open spec fn first_owner(item: JsonValue) -> (Option<Seq<char>>, Option<Seq<char>>) {
    let owners = items(field(item, "metadata"@, "ownerReferences"@));
    if owners.len() > 0 {
        (as_str(at(Some(owners[0]), "kind"@)), as_str(at(Some(owners[0]), "name"@)))
    } else {
        (None, None)
    }
}

/// Every named pod's restart counts add up to a `u64`.
pub open spec fn restart_counts_fit(root: JsonValue) -> bool {
    forall|i: int|
        0 <= i < list_items(root).len() && metadata_name(#[trigger] list_items(root)[i]) is Some ==> restart_sum(
            container_statuses(list_items(root)[i]),
        ) <= u64::MAX
}

/// What a pod snapshot is read from.
pub open spec fn pod_read(p: KubernetesPodSnapshot, item: JsonValue) -> bool {
    &&& Some(p.name@) == metadata_name(item)
    &&& p.namespace@ == str_or(metadata_namespace(item), "default"@)
    &&& p.phase@ == str_or(as_str(field(item, "status"@, "phase"@)), "Unknown"@)
    &&& p.ready_containers == ready_count(container_statuses(item))
    &&& p.total_containers == container_statuses(item).len()
    &&& p.restart_count == restart_sum(container_statuses(item))
    &&& opt_view(p.owner_kind) == first_owner(item).0
    &&& opt_view(p.owner_name) == first_owner(item).1
    &&& opt_view(p.node_name) == as_str(field(item, "spec"@, "nodeName"@))
    &&& opt_view(p.pod_ip) == as_str(field(item, "status"@, "podIP"@))
    &&& str_views(p.images@) == image_list(items(field(item, "spec"@, "containers"@)))
    &&& label_pairs_read(str_views(p.labels@), field(item, "metadata"@, "labels"@))
    &&& opt_view(p.warning_reason) == first_waiting_reason(container_statuses(item))
}

fn ready_count_of(xs: &[JsonValue]) -> (r: u64)
    ensures
        r == ready_count(xs@),
{
    let mut n: u64 = 0;
    let mut i: usize = 0;
    while i < xs.len()
        invariant
            i <= xs@.len(),
            n == ready_count(xs@.take(i as int)),
            n <= i,
        decreases xs.len() - i,
    {
        assert(xs@.take(i + 1).drop_last() =~= xs@.take(i as int));
        assert(xs@.take(i + 1).last() == xs@[i as int]);
        if json_bool(json_at(Some(&xs[i]), "ready")) == Some(true) {
            n = n + 1;
        }
        i = i + 1;
    }
    assert(xs@.take(xs.len() as int) =~= xs@);
    n
}

proof fn lemma_restart_sum_prefix(xs: Seq<JsonValue>, i: int)
    requires
        0 <= i <= xs.len(),
    ensures
        restart_sum(xs.take(i)) <= restart_sum(xs),
    decreases xs.len() - i,
{
    if i < xs.len() {
        lemma_restart_sum_prefix(xs, i + 1);
        assert(xs.take(i + 1).drop_last() =~= xs.take(i));
    } else {
        assert(xs.take(i) =~= xs);
    }
}

/// The restart counts added up; `None` when the sum leaves `u64`.
fn restart_sum_of(xs: &[JsonValue]) -> (r: Option<u64>)
    ensures
        match r {
            Some(n) => n == restart_sum(xs@),
            None => restart_sum(xs@) > u64::MAX,
        },
{
    let mut n: u64 = 0;
    let mut i: usize = 0;
    while i < xs.len()
        invariant
            i <= xs@.len(),
            n == restart_sum(xs@.take(i as int)),
        decreases xs.len() - i,
    {
        assert(xs@.take(i + 1).drop_last() =~= xs@.take(i as int));
        assert(xs@.take(i + 1).last() == xs@[i as int]);
        let add = match json_u64(json_at(Some(&xs[i]), "restartCount")) {
            Some(c) => c,
            None => 0,
        };
        if add > u64::MAX - n {
            proof {
                lemma_restart_sum_prefix(xs@, i + 1);
            }
            return None;
        }
        n = n + add;
        i = i + 1;
    }
    assert(xs@.take(xs.len() as int) =~= xs@);
    Some(n)
}

fn container_waiting_reason(x: &JsonValue) -> (r: Option<String>)
    ensures
        opt_view(r) == waiting_reason(*x),
{
    match json_str(json_at(json_at(json_at(Some(x), "state"), "waiting"), "reason")) {
        Some(reason) => {
            if trim_str(reason.as_str()).len() > 0 {
                Some(reason)
            } else {
                None
            }
        },
        None => None,
    }
}

fn first_waiting_reason_of(xs: &[JsonValue]) -> (r: Option<String>)
    ensures
        opt_view(r) == first_waiting_reason(xs@),
{
    let mut i: usize = 0;
    assert(xs@.skip(0) =~= xs@);
    while i < xs.len()
        invariant
            i <= xs@.len(),
            first_waiting_reason(xs@) == first_waiting_reason(xs@.skip(i as int)),
        decreases xs.len() - i,
    {
        assert(xs@.skip(i as int)[0] == xs@[i as int]);
        assert(xs@.skip(i as int).drop_first() =~= xs@.skip(i + 1));
        match container_waiting_reason(&xs[i]) {
            Some(r) => {
                return Some(r);
            },
            None => {},
        }
        i = i + 1;
    }
    None
}

fn image_list_of(xs: &[JsonValue]) -> (r: Vec<String>)
    ensures
        str_views(r@) == image_list(xs@),
{
    let mut out: Vec<String> = Vec::new();
    let mut i: usize = 0;
    while i < xs.len()
        invariant
            i <= xs@.len(),
            str_views(out@) == image_list(xs@.take(i as int)),
        decreases xs.len() - i,
    {
        assert(xs@.take(i + 1).drop_last() =~= xs@.take(i as int));
        assert(xs@.take(i + 1).last() == xs@[i as int]);
        match json_str(json_at(Some(&xs[i]), "image")) {
            Some(image) => {
                out.push(image);
            },
            None => {},
        }
        i = i + 1;
    }
    assert(xs@.take(xs.len() as int) =~= xs@);
    out
}

fn pod_of(item: &JsonValue, name: String) -> (r: KubernetesPodSnapshot)
    requires
        metadata_name(*item) == Some(name@),
        restart_sum(container_statuses(*item)) <= u64::MAX,
    ensures
        pod_read(r, *item),
{
    let statuses = json_items(item_field(item, "status", "containerStatuses"));
    let restarts = match restart_sum_of(statuses) {
        Some(n) => n,
        None => 0,
    };
    let owners = json_items(item_field(item, "metadata", "ownerReferences"));
    let (owner_kind, owner_name) = if owners.len() > 0 {
        (json_str(json_at(Some(&owners[0]), "kind")), json_str(json_at(Some(&owners[0]), "name")))
    } else {
        (None, None)
    };
    KubernetesPodSnapshot {
        name,
        namespace: namespace_or_default(item),
        phase: str_or_default(item_field(item, "status", "phase"), "Unknown"),
        ready_containers: ready_count_of(statuses),
        total_containers: statuses.len() as u64,
        restart_count: restarts,
        owner_kind,
        owner_name,
        node_name: json_str(item_field(item, "spec", "nodeName")),
        pod_ip: json_str(item_field(item, "status", "podIP")),
        images: image_list_of(json_items(item_field(item, "spec", "containers"))),
        labels: label_pairs(item_field(item, "metadata", "labels")),
        warning_reason: first_waiting_reason_of(statuses),
    }
}

/// The pods of a `kubectl get pods` document, one per named item.
pub fn pod_snapshots_from_json(root: &JsonValue) -> (r: Vec<KubernetesPodSnapshot>)
    requires
        restart_counts_fit(*root),
    ensures
        r@.len() == named_items(list_items(*root)).len(),
        forall|i: int| 0 <= i < r@.len() ==> pod_read(#[trigger] r@[i], named_items(list_items(*root))[i]),
{
    let xs = json_items(json_at(Some(root), "items"));
    let mut out: Vec<KubernetesPodSnapshot> = Vec::new();
    let mut i: usize = 0;
    while i < xs.len()
        invariant
            i <= xs@.len(),
            xs@ == list_items(*root),
            restart_counts_fit(*root),
            out@.len() == named_items(xs@.take(i as int)).len(),
            forall|j: int| 0 <= j < out@.len() ==> pod_read(#[trigger] out@[j], named_items(xs@.take(i as int))[j]),
        decreases xs.len() - i,
    {
        proof {
            lemma_named_items_step(xs@, i as int);
        }
        match name_of(&xs[i]) {
            Some(name) => {
                assert(metadata_name(list_items(*root)[i as int]) is Some);
                out.push(pod_of(&xs[i], name));
            },
            None => {},
        }
        i = i + 1;
    }
    assert(xs@.take(xs.len() as int) =~= xs@);
    out
}

/// Whether every named pod's restart counts add up to a `u64`.
pub fn restart_counts_fit_in(root: &JsonValue) -> (r: bool)
    ensures
        r == restart_counts_fit(*root),
{
    let xs = json_items(json_at(Some(root), "items"));
    let mut i: usize = 0;
    while i < xs.len()
        invariant
            i <= xs@.len(),
            xs@ == list_items(*root),
            forall|j: int|
                0 <= j < i && metadata_name(#[trigger] xs@[j]) is Some ==> restart_sum(container_statuses(xs@[j]))
                    <= u64::MAX,
        decreases xs.len() - i,
    {
        if name_of(&xs[i]).is_some() {
            if restart_sum_of(json_items(item_field(&xs[i], "status", "containerStatuses"))).is_none() {
                return false;
            }
        }
        i = i + 1;
    }
    true
}

/// `kubectl get pods -o json` read into pod snapshots, for a document whose
/// restart counts add up.
pub fn parse_pod_snapshots(stdout: &str) -> (r: Result<Vec<KubernetesPodSnapshot>, String>)
    requires
        json_parsed(stdout@) matches Ok(root) ==> restart_counts_fit(root),
    ensures
        match json_parsed(stdout@) {
            Ok(root) => r is Ok && r->Ok_0@.len() == named_items(list_items(root)).len() && forall|i: int|
                0 <= i < r->Ok_0@.len() ==> pod_read(#[trigger] r->Ok_0@[i], named_items(list_items(root))[i]),
            Err(e) => r is Err && r->Err_0@ == invalid_json(e),
        },
{
    match parse_json_text(stdout) {
        Ok(root) => Ok(pod_snapshots_from_json(&root)),
        Err(e) => Err(invalid_json_error(e)),
    }
}

/// `kubectl get pods -o json` read into pod snapshots; `None` for a document
/// with a pod whose restart counts add up beyond `u64`.
pub fn parse_pod_snapshots_checked(stdout: &str) -> (r: Option<Result<Vec<KubernetesPodSnapshot>, String>>)
    ensures
        match json_parsed(stdout@) {
            Ok(root) => if restart_counts_fit(root) {
                r matches Some(Ok(pods)) && pods@.len() == named_items(list_items(root)).len() && forall|i: int|
                    0 <= i < pods@.len() ==> pod_read(#[trigger] pods@[i], named_items(list_items(root))[i])
            } else {
                r is None
            },
            Err(e) => r matches Some(Err(msg)) && msg@ == invalid_json(e),
        },
{
    match parse_json_text(stdout) {
        Ok(root) => {
            if restart_counts_fit_in(&root) {
                Some(parse_pod_snapshots(stdout))
            } else {
                None
            }
        },
        Err(_) => Some(parse_pod_snapshots(stdout)),
    }
}

// ---------------------------------------------------------------------------
// Ingresses
// ---------------------------------------------------------------------------

/// Appends the strings of `xs` to `out`.
fn append_strings(out: &mut Vec<String>, xs: Vec<String>)
    ensures
        str_views(final(out)@) == str_views(old(out)@) + str_views(xs@),
{
    let ghost start = str_views(out@);
    let mut i: usize = 0;
    while i < xs.len()
        invariant
            i <= xs@.len(),
            str_views(out@) == start + str_views(xs@).take(i as int),
        decreases xs.len() - i,
    {
        let ghost before = str_views(out@);
        let c = xs[i].clone();
        assert(c@ == str_views(xs@)[i as int]);
        out.push(c);
        assert(str_views(out@) =~= before.push(c@));
        assert(str_views(xs@).take(i + 1) =~= str_views(xs@).take(i as int).push(c@));
        assert(str_views(out@) =~= start + str_views(xs@).take(i + 1));
        i = i + 1;
    }
    assert(str_views(xs@).take(xs.len() as int) =~= str_views(xs@));
}

fn str_items_of(xs: &[JsonValue]) -> (r: Vec<String>)
    ensures
        str_views(r@) == str_items(xs@),
{
    let mut out: Vec<String> = Vec::new();
    push_str_items(&mut out, xs);
    assert(str_views(out@) =~= Seq::<Seq<char>>::empty() + str_items(xs@));
    out
}

/// The `host` of each rule that has one.
pub open spec fn rule_hosts(rules: Seq<JsonValue>) -> Seq<Seq<char>>
    decreases rules.len(),
{
    if rules.len() == 0 {
        Seq::empty()
    } else {
        match as_str(at(Some(rules.last()), "host"@)) {
            Some(h) => rule_hosts(rules.drop_last()).push(h),
            None => rule_hosts(rules.drop_last()),
        }
    }
}

/// The service a backend points at.
pub open spec fn backend_service(backend: Option<JsonValue>) -> Option<Seq<char>> {
    as_str(at(at(backend, "service"@), "name"@))
}

pub open spec fn path_backends(paths: Seq<JsonValue>) -> Seq<Seq<char>>
    decreases paths.len(),
{
    if paths.len() == 0 {
        Seq::empty()
    } else {
        match backend_service(at(Some(paths.last()), "backend"@)) {
            Some(n) => path_backends(paths.drop_last()).push(n),
            None => path_backends(paths.drop_last()),
        }
    }
}

pub open spec fn rule_paths(rule: JsonValue) -> Seq<JsonValue> {
    items(at(at(Some(rule), "http"@), "paths"@))
}

pub open spec fn rule_backends(rules: Seq<JsonValue>) -> Seq<Seq<char>>
    decreases rules.len(),
{
    if rules.len() == 0 {
        Seq::empty()
    } else {
        rule_backends(rules.drop_last()) + path_backends(rule_paths(rules.last()))
    }
}

/// The services an ingress routes to: its default backend, then the
/// backend of each path of each rule.
pub open spec fn ingress_backend_candidates(item: JsonValue) -> Seq<Seq<char>> {
    let default: Seq<Seq<char>> = match backend_service(field(item, "spec"@, "defaultBackend"@)) {
        Some(n) => seq![n],
        None => Seq::empty(),
    };
    default + rule_backends(items(field(item, "spec"@, "rules"@)))
}

/// The hosts of each TLS entry.
pub open spec fn tls_host_list(xs: Seq<JsonValue>) -> Seq<Seq<char>>
    decreases xs.len(),
{
    if xs.len() == 0 {
        Seq::empty()
    } else {
        tls_host_list(xs.drop_last()) + str_items(items(at(Some(xs.last()), "hosts"@)))
    }
}

/// What an ingress snapshot is read from.
pub open spec fn ingress_read(g: KubernetesIngressSnapshot, item: JsonValue) -> bool {
    &&& Some(g.name@) == metadata_name(item)
    &&& g.namespace@ == str_or(metadata_namespace(item), "default"@)
    &&& opt_view(g.class_name) == as_str(field(item, "spec"@, "ingressClassName"@))
    &&& sorted_set_of(str_views(g.hosts@), rule_hosts(items(field(item, "spec"@, "rules"@))))
    &&& sorted_set_of(str_views(g.service_backends@), ingress_backend_candidates(item))
    &&& sorted_set_of(str_views(g.tls_hosts@), tls_host_list(items(field(item, "spec"@, "tls"@))))
}

fn ingress_hosts(rules: &[JsonValue]) -> (r: Vec<String>)
    ensures
        str_views(r@) == rule_hosts(rules@),
{
    let mut out: Vec<String> = Vec::new();
    let mut i: usize = 0;
    while i < rules.len()
        invariant
            i <= rules@.len(),
            str_views(out@) == rule_hosts(rules@.take(i as int)),
        decreases rules.len() - i,
    {
        assert(rules@.take(i + 1).drop_last() =~= rules@.take(i as int));
        assert(rules@.take(i + 1).last() == rules@[i as int]);
        match json_str(json_at(Some(&rules[i]), "host")) {
            Some(h) => {
                out.push(h);
            },
            None => {},
        }
        i = i + 1;
    }
    assert(rules@.take(rules.len() as int) =~= rules@);
    out
}

fn path_backends_of(paths: &[JsonValue]) -> (r: Vec<String>)
    ensures
        str_views(r@) == path_backends(paths@),
{
    let mut out: Vec<String> = Vec::new();
    let mut i: usize = 0;
    while i < paths.len()
        invariant
            i <= paths@.len(),
            str_views(out@) == path_backends(paths@.take(i as int)),
        decreases paths.len() - i,
    {
        assert(paths@.take(i + 1).drop_last() =~= paths@.take(i as int));
        assert(paths@.take(i + 1).last() == paths@[i as int]);
        match json_str(json_at(json_at(json_at(Some(&paths[i]), "backend"), "service"), "name")) {
            Some(n) => {
                out.push(n);
            },
            None => {},
        }
        i = i + 1;
    }
    assert(paths@.take(paths.len() as int) =~= paths@);
    out
}

fn ingress_service_backends(item: &JsonValue) -> (r: Vec<String>)
    ensures
        sorted_set_of(str_views(r@), ingress_backend_candidates(*item)),
{
    let mut out: Vec<String> = Vec::new();
    match json_str(json_at(json_at(item_field(item, "spec", "defaultBackend"), "service"), "name")) {
        Some(n) => {
            out.push(n);
        },
        None => {},
    }
    let ghost start = str_views(out@);
    let rules = json_items(item_field(item, "spec", "rules"));
    let mut i: usize = 0;
    while i < rules.len()
        invariant
            i <= rules@.len(),
            str_views(out@) == start + rule_backends(rules@.take(i as int)),
        decreases rules.len() - i,
    {
        assert(rules@.take(i + 1).drop_last() =~= rules@.take(i as int));
        assert(rules@.take(i + 1).last() == rules@[i as int]);
        let found = path_backends_of(json_items(json_at(json_at(Some(&rules[i]), "http"), "paths")));
        append_strings(&mut out, found);
        assert(str_views(out@) =~= start + rule_backends(rules@.take(i + 1)));
        i = i + 1;
    }
    assert(rules@.take(rules.len() as int) =~= rules@);
    assert(str_views(out@) =~= ingress_backend_candidates(*item));
    sort_dedup(out)
}

fn ingress_tls_hosts(xs: &[JsonValue]) -> (r: Vec<String>)
    ensures
        sorted_set_of(str_views(r@), tls_host_list(xs@)),
{
    let mut out: Vec<String> = Vec::new();
    let mut i: usize = 0;
    while i < xs.len()
        invariant
            i <= xs@.len(),
            str_views(out@) == tls_host_list(xs@.take(i as int)),
        decreases xs.len() - i,
    {
        assert(xs@.take(i + 1).drop_last() =~= xs@.take(i as int));
        assert(xs@.take(i + 1).last() == xs@[i as int]);
        let hosts = str_items_of(json_items(json_at(Some(&xs[i]), "hosts")));
        append_strings(&mut out, hosts);
        i = i + 1;
    }
    assert(xs@.take(xs.len() as int) =~= xs@);
    sort_dedup(out)
}

fn ingress_of(item: &JsonValue, name: String) -> (r: KubernetesIngressSnapshot)
    requires
        metadata_name(*item) == Some(name@),
    ensures
        ingress_read(r, *item),
{
    let rules = json_items(item_field(item, "spec", "rules"));
    KubernetesIngressSnapshot {
        name,
        namespace: namespace_or_default(item),
        class_name: json_str(item_field(item, "spec", "ingressClassName")),
        hosts: sort_dedup(ingress_hosts(rules)),
        service_backends: ingress_service_backends(item),
        tls_hosts: ingress_tls_hosts(json_items(item_field(item, "spec", "tls"))),
    }
}

/// The ingresses of a `kubectl get ingresses` document, one per named item.
pub fn ingress_snapshots_from_json(root: &JsonValue) -> (r: Vec<KubernetesIngressSnapshot>)
    ensures
        r@.len() == named_items(list_items(*root)).len(),
        forall|i: int| 0 <= i < r@.len() ==> ingress_read(#[trigger] r@[i], named_items(list_items(*root))[i]),
{
    let xs = json_items(json_at(Some(root), "items"));
    let mut out: Vec<KubernetesIngressSnapshot> = Vec::new();
    let mut i: usize = 0;
    while i < xs.len()
        invariant
            i <= xs@.len(),
            xs@ == list_items(*root),
            out@.len() == named_items(xs@.take(i as int)).len(),
            forall|j: int| 0 <= j < out@.len() ==> ingress_read(#[trigger] out@[j], named_items(xs@.take(i as int))[j]),
        decreases xs.len() - i,
    {
        proof {
            lemma_named_items_step(xs@, i as int);
        }
        match name_of(&xs[i]) {
            Some(name) => {
                out.push(ingress_of(&xs[i], name));
            },
            None => {},
        }
        i = i + 1;
    }
    assert(xs@.take(xs.len() as int) =~= xs@);
    out
}

/// `kubectl get ingresses -o json` read into ingress snapshots.
pub fn parse_ingress_snapshots(stdout: &str) -> (r: Result<Vec<KubernetesIngressSnapshot>, String>)
    ensures
        match json_parsed(stdout@) {
            Ok(root) => r is Ok && r->Ok_0@.len() == named_items(list_items(root)).len() && forall|i: int|
                0 <= i < r->Ok_0@.len() ==> ingress_read(#[trigger] r->Ok_0@[i], named_items(list_items(root))[i]),
            Err(e) => r is Err && r->Err_0@ == invalid_json(e),
        },
{
    match parse_json_text(stdout) {
        Ok(root) => Ok(ingress_snapshots_from_json(&root)),
        Err(e) => Err(invalid_json_error(e)),
    }
}

// ---------------------------------------------------------------------------
// Endpoint slices
// ---------------------------------------------------------------------------

pub open spec fn slice_endpoints(item: JsonValue) -> Seq<JsonValue> {
    items(at(Some(item), "endpoints"@))
}

/// An endpoint counts as ready unless it says `ready: false` (or another
/// value that is not `true`).
pub open spec fn endpoint_ready(e: JsonValue) -> bool {
    match as_bool(at(at(Some(e), "conditions"@), "ready"@)) {
        Some(b) => b,
        None => true,
    }
}

pub open spec fn ready_endpoint_count(xs: Seq<JsonValue>) -> nat
    decreases xs.len(),
{
    if xs.len() == 0 {
        0
    } else {
        ready_endpoint_count(xs.drop_last()) + if endpoint_ready(xs.last()) {
            1nat
        } else {
            0nat
        }
    }
}

/// The addresses of all endpoints, in order.
pub open spec fn endpoint_addresses(xs: Seq<JsonValue>) -> Seq<Seq<char>>
    decreases xs.len(),
{
    if xs.len() == 0 {
        Seq::empty()
    } else {
        endpoint_addresses(xs.drop_last()) + str_items(items(at(Some(xs.last()), "addresses"@)))
    }
}

/// The pod an endpoint targets.
pub open spec fn endpoint_pod(e: JsonValue) -> Option<Seq<char>> {
    let t = at(Some(e), "targetRef"@);
    if as_str(at(t, "kind"@)) == Some("Pod"@) {
        as_str(at(t, "name"@))
    } else {
        None
    }
}

pub open spec fn endpoint_pods(xs: Seq<JsonValue>) -> Seq<Seq<char>>
    decreases xs.len(),
{
    if xs.len() == 0 {
        Seq::empty()
    } else {
        match endpoint_pod(xs.last()) {
            Some(p) => endpoint_pods(xs.drop_last()).push(p),
            None => endpoint_pods(xs.drop_last()),
        }
    }
}

/// What an endpoint-slice snapshot is read from.
pub open spec fn endpoint_slice_read(e: KubernetesEndpointSliceSnapshot, item: JsonValue) -> bool {
    &&& Some(e.name@) == metadata_name(item)
    &&& e.namespace@ == str_or(metadata_namespace(item), "default"@)
    &&& opt_view(e.service_name) == as_str(at(field(item, "metadata"@, "labels"@), "kubernetes.io/service-name"@))
    &&& e.ready_endpoints == ready_endpoint_count(slice_endpoints(item))
    &&& e.total_endpoints == slice_endpoints(item).len()
    &&& sorted_set_of(str_views(e.addresses@), endpoint_addresses(slice_endpoints(item)))
    &&& sorted_set_of(str_views(e.target_pods@), endpoint_pods(slice_endpoints(item)))
}

fn ready_endpoints_of(xs: &[JsonValue]) -> (r: u64)
    ensures
        r == ready_endpoint_count(xs@),
{
    let mut n: u64 = 0;
    let mut i: usize = 0;
    while i < xs.len()
        invariant
            i <= xs@.len(),
            n == ready_endpoint_count(xs@.take(i as int)),
            n <= i,
        decreases xs.len() - i,
    {
        assert(xs@.take(i + 1).drop_last() =~= xs@.take(i as int));
        assert(xs@.take(i + 1).last() == xs@[i as int]);
        let ready = match json_bool(json_at(json_at(Some(&xs[i]), "conditions"), "ready")) {
            Some(b) => b,
            None => true,
        };
        if ready {
            n = n + 1;
        }
        i = i + 1;
    }
    assert(xs@.take(xs.len() as int) =~= xs@);
    n
}

fn endpoint_slice_addresses(xs: &[JsonValue]) -> (r: Vec<String>)
    ensures
        sorted_set_of(str_views(r@), endpoint_addresses(xs@)),
{
    let mut out: Vec<String> = Vec::new();
    let mut i: usize = 0;
    while i < xs.len()
        invariant
            i <= xs@.len(),
            str_views(out@) == endpoint_addresses(xs@.take(i as int)),
        decreases xs.len() - i,
    {
        assert(xs@.take(i + 1).drop_last() =~= xs@.take(i as int));
        assert(xs@.take(i + 1).last() == xs@[i as int]);
        let found = str_items_of(json_items(json_at(Some(&xs[i]), "addresses")));
        append_strings(&mut out, found);
        i = i + 1;
    }
    assert(xs@.take(xs.len() as int) =~= xs@);
    sort_dedup(out)
}

fn endpoint_slice_target_pods(xs: &[JsonValue]) -> (r: Vec<String>)
    ensures
        sorted_set_of(str_views(r@), endpoint_pods(xs@)),
{
    let mut out: Vec<String> = Vec::new();
    let mut i: usize = 0;
    while i < xs.len()
        invariant
            i <= xs@.len(),
            str_views(out@) == endpoint_pods(xs@.take(i as int)),
        decreases xs.len() - i,
    {
        assert(xs@.take(i + 1).drop_last() =~= xs@.take(i as int));
        assert(xs@.take(i + 1).last() == xs@[i as int]);
        let t = json_at(Some(&xs[i]), "targetRef");
        if json_str_is(json_at(t, "kind"), "Pod") {
            match json_str(json_at(t, "name")) {
                Some(n) => {
                    out.push(n);
                },
                None => {},
            }
        }
        i = i + 1;
    }
    assert(xs@.take(xs.len() as int) =~= xs@);
    sort_dedup(out)
}

fn endpoint_slice_of(item: &JsonValue, name: String) -> (r: KubernetesEndpointSliceSnapshot)
    requires
        metadata_name(*item) == Some(name@),
    ensures
        endpoint_slice_read(r, *item),
{
    let endpoints = json_items(json_at(Some(item), "endpoints"));
    KubernetesEndpointSliceSnapshot {
        name,
        namespace: namespace_or_default(item),
        service_name: json_str(json_at(item_field(item, "metadata", "labels"), "kubernetes.io/service-name")),
        ready_endpoints: ready_endpoints_of(endpoints),
        total_endpoints: endpoints.len() as u64,
        addresses: endpoint_slice_addresses(endpoints),
        target_pods: endpoint_slice_target_pods(endpoints),
    }
}

/// The endpoint slices of a `kubectl get endpointslices` document, one per
/// named item.
pub fn endpoint_slice_snapshots_from_json(root: &JsonValue) -> (r: Vec<KubernetesEndpointSliceSnapshot>)
    ensures
        r@.len() == named_items(list_items(*root)).len(),
        forall|i: int| 0 <= i < r@.len() ==> endpoint_slice_read(#[trigger] r@[i], named_items(list_items(*root))[i]),
{
    let xs = json_items(json_at(Some(root), "items"));
    let mut out: Vec<KubernetesEndpointSliceSnapshot> = Vec::new();
    let mut i: usize = 0;
    while i < xs.len()
        invariant
            i <= xs@.len(),
            xs@ == list_items(*root),
            out@.len() == named_items(xs@.take(i as int)).len(),
            forall|j: int| 0 <= j < out@.len() ==> endpoint_slice_read(#[trigger] out@[j], named_items(xs@.take(i as int))[j]),
        decreases xs.len() - i,
    {
        proof {
            lemma_named_items_step(xs@, i as int);
        }
        match name_of(&xs[i]) {
            Some(name) => {
                out.push(endpoint_slice_of(&xs[i], name));
            },
            None => {},
        }
        i = i + 1;
    }
    assert(xs@.take(xs.len() as int) =~= xs@);
    out
}

/// `kubectl get endpointslices -o json` read into endpoint-slice snapshots.
pub fn parse_endpoint_slice_snapshots(stdout: &str) -> (r: Result<Vec<KubernetesEndpointSliceSnapshot>, String>)
    ensures
        match json_parsed(stdout@) {
            Ok(root) => r is Ok && r->Ok_0@.len() == named_items(list_items(root)).len() && forall|i: int|
                0 <= i < r->Ok_0@.len() ==> endpoint_slice_read(#[trigger] r->Ok_0@[i], named_items(list_items(root))[i]),
            Err(e) => r is Err && r->Err_0@ == invalid_json(e),
        },
{
    match parse_json_text(stdout) {
        Ok(root) => Ok(endpoint_slice_snapshots_from_json(&root)),
        Err(e) => Err(invalid_json_error(e)),
    }
}

// ---------------------------------------------------------------------------
// Events
// ---------------------------------------------------------------------------

pub open spec fn or_else(a: Option<Seq<char>>, b: Option<Seq<char>>) -> Option<Seq<char>> {
    match a {
        Some(x) => Some(x),
        None => b,
    }
}

/// The kind of the object an event is about (`involvedObject`, else
/// `regarding`).
pub open spec fn event_kind(item: JsonValue) -> Option<Seq<char>> {
    or_else(as_str(field(item, "involvedObject"@, "kind"@)), as_str(field(item, "regarding"@, "kind"@)))
}

pub open spec fn event_object(item: JsonValue) -> Option<Seq<char>> {
    or_else(as_str(field(item, "involvedObject"@, "name"@)), as_str(field(item, "regarding"@, "name"@)))
}

/// The events that name the kind and name of their object, in order.
pub open spec fn event_items(xs: Seq<JsonValue>) -> Seq<JsonValue>
    decreases xs.len(),
{
    if xs.len() == 0 {
        Seq::empty()
    } else if event_kind(xs.last()) is Some && event_object(xs.last()) is Some {
        event_items(xs.drop_last()).push(xs.last())
    } else {
        event_items(xs.drop_last())
    }
}

pub open spec fn top_str(item: JsonValue, key: Seq<char>) -> Option<Seq<char>> {
    as_str(at(Some(item), key))
}

/// What an event snapshot is read from.
pub open spec fn event_read(e: KubernetesEventSnapshot, item: JsonValue) -> bool {
    &&& e.namespace@ == str_or(
        or_else(metadata_namespace(item), as_str(field(item, "involvedObject"@, "namespace"@))),
        "default"@,
    )
    &&& Some(e.involved_kind@) == event_kind(item)
    &&& Some(e.involved_name@) == event_object(item)
    &&& e.event_type@ == str_or(or_else(top_str(item, "type"@), top_str(item, "eventType"@)), "Normal"@)
    &&& e.reason@ == str_or(top_str(item, "reason"@), "Unknown"@)
    &&& e.message@ == str_or(or_else(top_str(item, "message"@), top_str(item, "note"@)), Seq::empty())
    &&& e.count == match as_u64(at(Some(item), "count"@)) {
        Some(n) => n,
        None => 1u64,
    }
    &&& opt_view(e.first_timestamp) == or_else(top_str(item, "firstTimestamp"@), top_str(item, "eventTime"@))
    &&& opt_view(e.last_timestamp) == or_else(top_str(item, "lastTimestamp"@), top_str(item, "eventTime"@))
}

fn first_str(a: Option<&JsonValue>, b: Option<&JsonValue>) -> (r: Option<String>)
    ensures
        opt_view(r) == or_else(as_str(deref_opt(a)), as_str(deref_opt(b))),
{
    match json_str(a) {
        Some(x) => Some(x),
        None => json_str(b),
    }
}

fn event_of(item: &JsonValue, kind: String, object: String) -> (r: KubernetesEventSnapshot)
    requires
        event_kind(*item) == Some(kind@),
        event_object(*item) == Some(object@),
    ensures
        event_read(r, *item),
{
    let top = Some(item);
    let namespace = match first_str(
        item_field(item, "metadata", "namespace"),
        item_field(item, "involvedObject", "namespace"),
    ) {
        Some(n) => n,
        None => "default".to_owned(),
    };
    let event_type = match first_str(json_at(top, "type"), json_at(top, "eventType")) {
        Some(t) => t,
        None => "Normal".to_owned(),
    };
    let message = match first_str(json_at(top, "message"), json_at(top, "note")) {
        Some(m) => m,
        None => String::new(),
    };
    let count = match json_u64(json_at(top, "count")) {
        Some(n) => n,
        None => 1u64,
    };
    KubernetesEventSnapshot {
        namespace,
        involved_kind: kind,
        involved_name: object,
        event_type,
        reason: str_or_default(json_at(top, "reason"), "Unknown"),
        message,
        count,
        first_timestamp: first_str(json_at(top, "firstTimestamp"), json_at(top, "eventTime")),
        last_timestamp: first_str(json_at(top, "lastTimestamp"), json_at(top, "eventTime")),
    }
}

/// The events of a `kubectl get events` document, one per item that names
/// its object.
pub fn event_snapshots_from_json(root: &JsonValue) -> (r: Vec<KubernetesEventSnapshot>)
    ensures
        r@.len() == event_items(list_items(*root)).len(),
        forall|i: int| 0 <= i < r@.len() ==> event_read(#[trigger] r@[i], event_items(list_items(*root))[i]),
{
    let xs = json_items(json_at(Some(root), "items"));
    let mut out: Vec<KubernetesEventSnapshot> = Vec::new();
    let mut i: usize = 0;
    while i < xs.len()
        invariant
            i <= xs@.len(),
            xs@ == list_items(*root),
            out@.len() == event_items(xs@.take(i as int)).len(),
            forall|j: int| 0 <= j < out@.len() ==> event_read(#[trigger] out@[j], event_items(xs@.take(i as int))[j]),
        decreases xs.len() - i,
    {
        assert(xs@.take(i + 1).drop_last() =~= xs@.take(i as int));
        assert(xs@.take(i + 1).last() == xs@[i as int]);
        let item = &xs[i];
        let kind = first_str(item_field(item, "involvedObject", "kind"), item_field(item, "regarding", "kind"));
        let object = first_str(item_field(item, "involvedObject", "name"), item_field(item, "regarding", "name"));
        match (kind, object) {
            (Some(k), Some(o)) => {
                out.push(event_of(item, k, o));
            },
            _ => {},
        }
        i = i + 1;
    }
    assert(xs@.take(xs.len() as int) =~= xs@);
    out
}

/// `kubectl get events -o json` read into event snapshots.
pub fn parse_event_snapshots(stdout: &str) -> (r: Result<Vec<KubernetesEventSnapshot>, String>)
    ensures
        match json_parsed(stdout@) {
            Ok(root) => r is Ok && r->Ok_0@.len() == event_items(list_items(root)).len() && forall|i: int|
                0 <= i < r->Ok_0@.len() ==> event_read(#[trigger] r->Ok_0@[i], event_items(list_items(root))[i]),
            Err(e) => r is Err && r->Err_0@ == invalid_json(e),
        },
{
    match parse_json_text(stdout) {
        Ok(root) => Ok(event_snapshots_from_json(&root)),
        Err(e) => Err(invalid_json_error(e)),
    }
}

} // verus!
