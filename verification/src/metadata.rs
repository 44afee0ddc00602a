//! Application descriptors: the metadata derived when a deployment request
//! arrives, the discovery labels written into container images and manifest
//! blocks, and the read-back of those labels when deployed applications are
//! listed.

use vstd::prelude::*;

verus! {

use vstd::string::StringExecFns;
use crate::text::line_safe;
use crate::text::str_eq;

/// Relies on chrono's `Utc::now` and `DateTime::to_rfc3339` for the current
/// time rendered like `1996-12-19T16:39:57+00:00`. The rendered form is a
/// single line; nothing more can be promised of a clock reading.
#[verifier::external_body]
pub(crate) fn now_rfc3339() -> (r: String)
    ensures
        line_safe(r@),
{
    chrono::Utc::now().to_rfc3339()
}

/// Metadata attached to one application: the request fields plus the values
/// derived at creation time (`domain`, `created_at`).
pub struct AppMetadata {
    pub app_name: String,
    pub app_type: String,
    pub github_url: String,
    pub domain: String,
    pub created_at: String,
}

impl AppMetadata {
    /// Derives the routing domain from the name and stamps the creation time.
    pub fn new(app_name: String, app_type: String, github_url: String) -> (r: Self)
        ensures
            r.app_name@ == app_name@,
            r.app_type@ == app_type@,
            r.github_url@ == github_url@,
            r.domain@ == app_name@ + ".localhost"@,
            line_safe(r.created_at@),
    {
        let domain = app_name.clone().concat(".localhost");
        AppMetadata { app_name, app_type, github_url, domain, created_at: now_rfc3339() }
    }

    /// The discovery labels for this application, as key-value pairs in a
    /// fixed order.
    pub fn to_labels(&self) -> (r: Vec<(String, String)>)
        ensures
            r@.len() == 5,
            r@[0].0@ == "com.myapp.name"@ && r@[0].1@ == self.app_name@,
            r@[1].0@ == "com.myapp.type"@ && r@[1].1@ == self.app_type@,
            r@[2].0@ == "com.myapp.github_url"@ && r@[2].1@ == self.github_url@,
            r@[3].0@ == "com.myapp.domain"@ && r@[3].1@ == self.domain@,
            r@[4].0@ == "com.myapp.created_at"@ && r@[4].1@ == self.created_at@,
    {
        let mut v: Vec<(String, String)> = Vec::new();
        v.push((String::from_str("com.myapp.name"), self.app_name.clone()));
        v.push((String::from_str("com.myapp.type"), self.app_type.clone()));
        v.push((String::from_str("com.myapp.github_url"), self.github_url.clone()));
        v.push((String::from_str("com.myapp.domain"), self.domain.clone()));
        v.push((String::from_str("com.myapp.created_at"), self.created_at.clone()));
        v
    }

    /// A field-wise copy.
    pub fn duplicate(&self) -> (r: Self)
        ensures
            r == *self,
    {
        AppMetadata {
            app_name: self.app_name.clone(),
            app_type: self.app_type.clone(),
            github_url: self.github_url.clone(),
            domain: self.domain.clone(),
            created_at: self.created_at.clone(),
        }
    }
}

/// One deployed application as reported to observers: the discovery labels
/// read back from a running container plus its current status.
pub struct AppInfo {
    pub app_name: String,
    pub app_type: String,
    pub github_url: String,
    pub domain: String,
    pub created_at: String,
    pub status: String,
    pub swarm_task_name: Option<String>,
}

/// The value of the first pair whose key equals `key`.
pub open spec fn label_lookup(labels: Seq<(String, String)>, key: Seq<char>) -> Option<
    Seq<char>,
>
    decreases labels.len(),
{
    if labels.len() == 0 {
        None
    } else if labels[0].0@ == key {
        Some(labels[0].1@)
    } else {
        label_lookup(labels.drop_first(), key)
    }
}

/// Linear search for a label value.
pub fn lookup_label(labels: &Vec<(String, String)>, key: &str) -> (r: Option<String>)
    ensures
        match r {
            Some(v) => label_lookup(labels@, key@) == Some(v@),
            None => label_lookup(labels@, key@) is None,
        },
{
    let n = labels.len();
    let mut i: usize = 0;
    assert(labels@.skip(0) =~= labels@);
    while i < n
        invariant
            0 <= i <= n,
            n == labels@.len(),
            label_lookup(labels@, key@) == label_lookup(labels@.skip(i as int), key@),
        decreases n - i,
    {
        if str_eq(labels[i].0.as_str(), key) {
            assert(labels@.skip(i as int)[0] == labels@[i as int]);
            return Some(labels[i].1.clone());
        }
        assert(labels@.skip(i as int).drop_first() =~= labels@.skip(i as int + 1));
        assert(labels@.skip(i as int)[0] == labels@[i as int]);
        i += 1;
    }
    assert(labels@.skip(n as int) =~= Seq::<(String, String)>::empty());
    None
}

/// A container's labels identify it as one of this platform's applications:
/// it carries the platform's stack namespace and all five discovery labels.
pub open spec fn is_platform_app(labels: Seq<(String, String)>) -> bool {
    &&& label_lookup(labels, "com.docker.stack.namespace"@) == Some("nephelios"@)
    &&& label_lookup(labels, "com.myapp.name"@) is Some
    &&& label_lookup(labels, "com.myapp.type"@) is Some
    &&& label_lookup(labels, "com.myapp.github_url"@) is Some
    &&& label_lookup(labels, "com.myapp.domain"@) is Some
    &&& label_lookup(labels, "com.myapp.created_at"@) is Some
}

/// Reads one deployed application out of a container's labels, if the
/// container belongs to this platform's stack. The swarm task label names
/// the running task where present; the container id stands in otherwise.
pub fn app_info_from_labels(labels: &Vec<(String, String)>, container_id: &String, status: String) -> (r:
    Option<AppInfo>)
    ensures
        r is Some <==> is_platform_app(labels@),
        match r {
            Some(info) => {
                &&& label_lookup(labels@, "com.myapp.name"@) == Some(info.app_name@)
                &&& label_lookup(labels@, "com.myapp.type"@) == Some(info.app_type@)
                &&& label_lookup(labels@, "com.myapp.github_url"@) == Some(info.github_url@)
                &&& label_lookup(labels@, "com.myapp.domain"@) == Some(info.domain@)
                &&& label_lookup(labels@, "com.myapp.created_at"@) == Some(info.created_at@)
                &&& info.status@ == status@
                &&& match label_lookup(labels@, "com.docker.swarm.task.name"@) {
                    Some(t) => info.swarm_task_name matches Some(n) && n@ == t,
                    None => info.swarm_task_name matches Some(n) && n@ == container_id@,
                }
            },
            None => true,
        },
{
    let namespace = lookup_label(labels, "com.docker.stack.namespace");
    let ns_ok = match namespace {
        Some(ns) => str_eq(ns.as_str(), "nephelios"),
        None => false,
    };
    if !ns_ok {
        return None;
    }
    let name = lookup_label(labels, "com.myapp.name");
    let app_type = lookup_label(labels, "com.myapp.type");
    let url = lookup_label(labels, "com.myapp.github_url");
    let domain = lookup_label(labels, "com.myapp.domain");
    let created = lookup_label(labels, "com.myapp.created_at");
    match (name, app_type, url, domain, created) {
        (Some(app_name), Some(app_type), Some(github_url), Some(domain), Some(created_at)) => {
            let task = match lookup_label(labels, "com.docker.swarm.task.name") {
                Some(t) => t,
                None => container_id.clone(),
            };
            Some(
                AppInfo {
                    app_name,
                    app_type,
                    github_url,
                    domain,
                    created_at,
                    status,
                    swarm_task_name: Some(task),
                },
            )
        },
        _ => None,
    }
}

/// The swarm name shown for an application: the task label where present,
/// otherwise the service label.
pub fn swarm_name_from_labels(labels: &Vec<(String, String)>) -> (r: Option<String>)
    ensures
        match label_lookup(labels@, "com.docker.swarm.task.name"@) {
            Some(t) => r matches Some(n) && n@ == t,
            None => match label_lookup(labels@, "com.docker.swarm.service.name"@) {
                Some(s) => r matches Some(n) && n@ == s,
                None => r is None,
            },
        },
{
    match lookup_label(labels, "com.docker.swarm.task.name") {
        Some(t) => Some(t),
        None => lookup_label(labels, "com.docker.swarm.service.name"),
    }
}

/// The status string reported for an application.
pub fn status_label(running: bool) -> (r: String)
    ensures
        running ==> r@ == "running"@,
        !running ==> r@ == "unknown"@,
{
    if running {
        String::from_str("running")
    } else {
        String::from_str("unknown")
    }
}

/// Any of the listed container states is `running`.
pub fn any_running(states: &Vec<Option<String>>) -> (r: bool)
    ensures
        r == exists|i: int|
            0 <= i < states@.len() && ((#[trigger] states@[i]) matches Some(s) && s@
                == "running"@),
{
    let n = states.len();
    let mut i: usize = 0;
    while i < n
        invariant
            0 <= i <= n,
            n == states@.len(),
            forall|j: int|
                0 <= j < i ==> !((#[trigger] states@[j]) matches Some(s) && s@ == "running"@),
        decreases n - i,
    {
        let hit = match &states[i] {
            Some(s) => str_eq(s.as_str(), "running"),
            None => false,
        };
        if hit {
            return true;
        }
        i += 1;
    }
    false
}

/// Newest first: every later entry was created no later than every
/// earlier one.
pub open spec fn sorted_by_created_desc(s: Seq<AppInfo>) -> bool {
    forall|i: int, j: int|
        0 <= i < j < s.len() ==> crate::text::lex_le(s[j].created_at@, s[i].created_at@)
}

/// The index of an entry whose creation date is no earlier than any
/// other's.
fn index_of_latest(apps: &Vec<AppInfo>) -> (mi: usize)
    requires
        apps@.len() > 0,
    ensures
        mi < apps@.len(),
        forall|k: int|
            0 <= k < apps@.len() ==> crate::text::lex_le(
                apps@[k].created_at@,
                apps@[mi as int].created_at@,
            ),
{
    let n = apps.len();
    let mut mi: usize = 0;
    let mut i: usize = 1;
    proof {
        crate::text::lemma_lex_le_total(apps@[0].created_at@, apps@[0].created_at@);
    }
    while i < n
        invariant
            0 <= mi < i <= n,
            n == apps@.len(),
            forall|k: int|
                0 <= k < i ==> crate::text::lex_le(
                    apps@[k].created_at@,
                    apps@[mi as int].created_at@,
                ),
        decreases n - i,
    {
        if !crate::text::lex_le_exec(apps[i].created_at.as_str(), apps[mi].created_at.as_str()) {
            proof {
                crate::text::lemma_lex_le_total(
                    apps@[i as int].created_at@,
                    apps@[mi as int].created_at@,
                );
                assert forall|k: int|
                    0 <= k < i + 1 implies crate::text::lex_le(
                    apps@[k].created_at@,
                    apps@[i as int].created_at@,
                ) by {
                    if k < i {
                        crate::text::lemma_lex_le_trans(
                            apps@[k].created_at@,
                            apps@[mi as int].created_at@,
                            apps@[i as int].created_at@,
                        );
                    } else {
                        crate::text::lemma_lex_le_total(
                            apps@[i as int].created_at@,
                            apps@[i as int].created_at@,
                        );
                    }
                }
            }
            mi = i;
        }
        i += 1;
    }
    mi
}

/// Sorts the listed applications by creation date, newest first: the
/// result is ordered and holds exactly the same entries.
pub fn sort_apps_by_created_desc(apps: &mut Vec<AppInfo>)
    ensures
        sorted_by_created_desc(final(apps)@),
        final(apps)@.to_multiset() == old(apps)@.to_multiset(),
{
    broadcast use vstd::seq_lib::group_to_multiset_ensures;

    let mut out: Vec<AppInfo> = Vec::new();
    proof {
        assert(out@.to_multiset().add(apps@.to_multiset()) =~= old(apps)@.to_multiset());
    }
    while apps.len() > 0
        invariant
            out@.to_multiset().add(apps@.to_multiset()) == old(apps)@.to_multiset(),
            sorted_by_created_desc(out@),
            forall|k: int, l: int|
                0 <= k < out@.len() && 0 <= l < apps@.len() ==> crate::text::lex_le(
                    apps@[l].created_at@,
                    out@[k].created_at@,
                ),
        decreases apps@.len(),
    {
        let mi = index_of_latest(apps);
        let ghost before = apps@;
        let ghost out_before = out@;
        let x = apps.remove(mi);
        out.push(x);
        proof {
            broadcast use vstd::seq_lib::group_to_multiset_ensures;

            assert(apps@ == before.remove(mi as int));
            assert(out@ == out_before.push(x));
            assert(before[mi as int] == x);
            assert(before.contains(x));
            assert(before.to_multiset().count(x) > 0);
            assert(before.remove(mi as int).to_multiset() =~= before.to_multiset().remove(
                before[mi as int],
            ));
            assert(apps@.to_multiset() =~= before.to_multiset().remove(x));
            assert(out_before.push(x).to_multiset() =~= out_before.to_multiset().insert(x));
            assert(out@.to_multiset() =~= out_before.to_multiset().insert(x));
            assert(out@.to_multiset().add(apps@.to_multiset()) =~= out_before.to_multiset().add(
                before.to_multiset(),
            ));
            assert forall|k: int, l: int|
                0 <= k < out@.len() && 0 <= l < apps@.len() implies crate::text::lex_le(
                apps@[l].created_at@,
                out@[k].created_at@,
            ) by {
                assert(apps@[l] == if l < mi {
                    before[l]
                } else {
                    before[l + 1]
                });
                if k < out_before.len() {
                    assert(out@[k] == out_before[k]);
                } else {
                    assert(out@[k] == x);
                }
            }
            assert(sorted_by_created_desc(out@)) by {
                assert forall|i: int, j: int|
                    0 <= i < j < out@.len() implies crate::text::lex_le(
                    out@[j].created_at@,
                    out@[i].created_at@,
                ) by {
                    if j < out_before.len() {
                        assert(out@[i] == out_before[i] && out@[j] == out_before[j]);
                    } else {
                        assert(out@[j] == x && out@[i] == out_before[i]);
                        assert(crate::text::lex_le(before[mi as int].created_at@,
                            out_before[i].created_at@));
                    }
                }
            }
        }
    }
    proof {
        assert(out@.to_multiset().add(apps@.to_multiset()) =~= out@.to_multiset());
    }
    let sorted = out;
    *apps = sorted;
}

/// The daemon's self-description names an active swarm.
pub fn swarm_active(info: &str) -> (r: bool)
    ensures
        r == crate::text::seq_contains(info@, "Swarm: active"@),
{
    crate::text::str_contains(info, "Swarm: active")
}

/// Directories skipped when an application's build context is packed.
pub fn excluded_context_dir(name: &str) -> (r: bool)
    ensures
        r == (name@ == ".git"@ || name@ == "node_modules"@),
{
    str_eq(name, ".git") || str_eq(name, "node_modules")
}

/// The image reference under which an application is built locally.
pub fn image_ref(app_name: &str) -> (r: String)
    ensures
        r@ == app_name@ + ":latest"@,
{
    app_name.to_owned().concat(":latest")
}

/// The image reference under which an application is pushed to the local
/// registry.
pub fn remote_image_ref(app_name: &str) -> (r: String)
    ensures
        r@ == "registry:5000/"@ + app_name@,
{
    String::from_str("registry:5000/").concat(app_name)
}

/// The orchestrator-level service name of an application.
pub fn service_name(app_name: &str) -> (r: String)
    ensures
        r@ == "nephelios_"@ + app_name@,
{
    String::from_str("nephelios_").concat(app_name)
}

/// The `service=replicas` argument used to scale an application.
pub fn scale_arg(app_name: &str, replicas: u32) -> (r: String)
    ensures
        r@ == "nephelios_"@ + app_name@ + "="@ + crate::text::dec_str(replicas as nat),
{
    let num = crate::text::u32_to_string(replicas);
    service_name(app_name).concat("=").concat(num.as_str())
}

} // verus!
