//! Capability policies and the host-state templates built from them.

use vstd::prelude::*;
use vstd::string::StringExecFns;

verus! {

/// An access mode a storage permission can grant.
#[derive(Debug, Clone, Copy, PartialEq, Eq, Structural)]
pub enum AccessType {
    Read,
    Write,
}

/// Access to a storage location, named by URI (`fs://...`).
#[derive(Debug)]
pub struct StoragePermission {
    pub uri: String,
    pub access: Vec<AccessType>,
}

/// A parsed capability policy.
#[derive(Debug)]
pub struct PolicyDocument {
    /// Hosts the component may reach.
    pub network_allow: Option<Vec<String>>,
    /// Storage locations the component may open.
    pub storage_allow: Option<Vec<StoragePermission>>,
    /// Environment variables the component may read.
    pub environment_allow: Option<Vec<String>>,
    /// Configuration entries handed to the component.
    pub config: Vec<(String, String)>,
    /// Most bytes of linear memory the component may grow to.
    pub memory_limit: Option<u64>,
}

/// A directory opened for the component.
#[derive(Debug)]
pub struct Preopen {
    pub host_path: String,
    pub guest_path: String,
    pub read: bool,
    pub write: bool,
}

/// The sandbox configuration compiled from a policy, cloned for every call.
#[derive(Debug)]
pub struct HostStateTemplate {
    pub allowed_hosts: Vec<String>,
    pub preopened_dirs: Vec<Preopen>,
    pub env_vars: Vec<(String, String)>,
    pub config_vars: Vec<(String, String)>,
    pub memory_limit: Option<u64>,
}

pub struct PreopenView {
    pub host_path: Seq<char>,
    pub guest_path: Seq<char>,
    pub read: bool,
    pub write: bool,
}

impl View for Preopen {
    type V = PreopenView;

    open spec fn view(&self) -> PreopenView {
        PreopenView {
            host_path: self.host_path@,
            guest_path: self.guest_path@,
            read: self.read,
            write: self.write,
        }
    }
}

/// The mathematical form of a [`HostStateTemplate`].
pub struct TemplateView {
    pub allowed_hosts: Seq<Seq<char>>,
    pub preopened_dirs: Seq<PreopenView>,
    pub env_vars: Seq<(Seq<char>, Seq<char>)>,
    pub config_vars: Seq<(Seq<char>, Seq<char>)>,
    pub memory_limit: Option<u64>,
}

impl View for HostStateTemplate {
    type V = TemplateView;

    open spec fn view(&self) -> TemplateView {
        TemplateView {
            allowed_hosts: strings_view(self.allowed_hosts@),
            preopened_dirs: self.preopened_dirs@.map_values(|p: Preopen| p@),
            env_vars: pairs_view(self.env_vars@),
            config_vars: pairs_view(self.config_vars@),
            memory_limit: self.memory_limit,
        }
    }
}

/// The template of a component without a policy: no capabilities at all.
pub open spec fn empty_template() -> TemplateView {
    TemplateView {
        allowed_hosts: Seq::empty(),
        preopened_dirs: Seq::empty(),
        env_vars: Seq::empty(),
        config_vars: Seq::empty(),
        memory_limit: None,
    }
}

/// Whether every storage URI of `policy` is an `fs://` URI, which is what
/// building its template needs.
pub open spec fn policy_builds(policy: PolicyDocument) -> bool {
    match policy.storage_allow {
        Some(s) => forall|i: int| 0 <= i < s@.len() ==> fs_path(#[trigger] s@[i].uri@) is Some,
        None => true,
    }
}

/// Whether `t` is the template built from `policy` under `plugin_dir`, with
/// the process environment `env` and the secrets `secrets`.
pub open spec fn built_from(
    t: TemplateView,
    policy: PolicyDocument,
    plugin_dir: Seq<char>,
    env: Seq<(Seq<char>, Seq<char>)>,
    secrets: Seq<(Seq<char>, Seq<char>)>,
) -> bool {
    &&& t.allowed_hosts == dedup(
        match policy.network_allow {
            Some(h) => strings_view(h@),
            None => Seq::empty(),
        },
    )
    &&& t.preopened_dirs.len() == match policy.storage_allow {
        Some(s) => s@.len(),
        None => 0,
    }
    &&& forall|i: int|
        0 <= i < t.preopened_dirs.len() ==> preopen_for(
            plugin_dir,
            policy.storage_allow->0@[i],
            #[trigger] t.preopened_dirs[i],
        )
    &&& t.env_vars == overlay(
        allowed_env(
            match policy.environment_allow {
                Some(k) => strings_view(k@),
                None => Seq::empty(),
            },
            env,
        ),
        secrets,
    )
    &&& t.config_vars == pairs_view(policy.config@)
    &&& t.memory_limit == policy.memory_limit
}

/// Why a policy cannot be compiled.
#[derive(Debug, PartialEq, Eq)]
pub enum PolicyError {
    /// A storage URI that is not an `fs://` URI.
    UnsupportedStorageUri(String),
}

pub open spec fn strings_view(s: Seq<String>) -> Seq<Seq<char>> {
    s.map_values(|x: String| x@)
}

pub open spec fn pairs_view(s: Seq<(String, String)>) -> Seq<(Seq<char>, Seq<char>)> {
    s.map_values(|x: (String, String)| (x.0@, x.1@))
}

/// `s` without repeats, first occurrences kept in order.
pub open spec fn dedup(s: Seq<Seq<char>>) -> Seq<Seq<char>>
    decreases s.len(),
{
    if s.len() == 0 {
        s
    } else {
        let d = dedup(s.drop_last());
        if d.contains(s.last()) {
            d
        } else {
            d.push(s.last())
        }
    }
}

/// The value of the first pair whose key is `k`.
pub open spec fn pair_get(s: Seq<(Seq<char>, Seq<char>)>, k: Seq<char>) -> Option<Seq<char>>
    decreases s.len(),
{
    if s.len() == 0 {
        None
    } else if s[0].0 == k {
        Some(s[0].1)
    } else {
        pair_get(s.drop_first(), k)
    }
}

/// `s` with `k` set to `v`: the first pair with that key is replaced in place,
/// or a new pair is appended.
pub open spec fn pair_set(s: Seq<(Seq<char>, Seq<char>)>, k: Seq<char>, v: Seq<char>) -> Seq<(Seq<char>, Seq<char>)>
    decreases s.len(),
{
    if s.len() == 0 {
        seq![(k, v)]
    } else if s[0].0 == k {
        s.update(0, (k, v))
    } else {
        seq![s[0]] + pair_set(s.drop_first(), k, v)
    }
}

/// The allowed environment: each allowed key that `env` holds, in order.
pub open spec fn allowed_env(keys: Seq<Seq<char>>, env: Seq<(Seq<char>, Seq<char>)>) -> Seq<(Seq<char>, Seq<char>)>
    decreases keys.len(),
{
    if keys.len() == 0 {
        Seq::empty()
    } else {
        let prev = allowed_env(keys.drop_last(), env);
        match pair_get(env, keys.last()) {
            Some(v) => pair_set(prev, keys.last(), v),
            None => prev,
        }
    }
}

/// `base` with every pair of `extra` written over it, in order.
pub open spec fn overlay(base: Seq<(Seq<char>, Seq<char>)>, extra: Seq<(Seq<char>, Seq<char>)>) -> Seq<(Seq<char>, Seq<char>)>
    decreases extra.len(),
{
    if extra.len() == 0 {
        base
    } else {
        let prev = overlay(base, extra.drop_last());
        pair_set(prev, extra.last().0, extra.last().1)
    }
}

/// The path a storage URI names, when it is an `fs://` URI.
pub open spec fn fs_path(uri: Seq<char>) -> Option<Seq<char>> {
    if uri.len() >= 5 && uri.subrange(0, 5) == seq!['f', 's', ':', '/', '/'] {
        Some(uri.subrange(5, uri.len() as int))
    } else {
        None
    }
}

/// Where a storage path lies on the host: absolute paths as they are, other
/// paths under the plugin directory.
pub open spec fn host_path_of(plugin_dir: Seq<char>, path: Seq<char>) -> Seq<char> {
    if path.len() > 0 && path[0] == '/' {
        path
    } else {
        plugin_dir + seq!['/'] + path
    }
}

fn pair_lookup(s: &Vec<(String, String)>, k: &String) -> (r: Option<String>)
    ensures
        match r {
            Some(v) => pair_get(pairs_view(s@), k@) == Some(v@),
            None => pair_get(pairs_view(s@), k@) is None,
        },
{
    let ghost sv = pairs_view(s@);
    assert(sv.subrange(0, sv.len() as int) =~= sv);
    let mut i: usize = 0;
    while i < s.len()
        invariant
            i <= s.len(),
            sv == pairs_view(s@),
            sv.len() == s.len(),
            pair_get(sv, k@) == pair_get(sv.subrange(i as int, sv.len() as int), k@),
        decreases s.len() - i,
    {
        let ghost rest = sv.subrange(i as int, sv.len() as int);
        assert(rest[0] == (s@[i as int].0@, s@[i as int].1@));
        assert(rest.drop_first() =~= sv.subrange(i + 1, sv.len() as int));
        if s[i].0 == *k {
            return Some(s[i].1.clone());
        }
        i = i + 1;
    }
    None
}

fn pair_store(s: &mut Vec<(String, String)>, k: String, v: String)
    ensures
        pairs_view(final(s)@) == pair_set(pairs_view(old(s)@), k@, v@),
{
    let ghost sv = pairs_view(s@);
    let mut i: usize = 0;
    while i < s.len()
        invariant
            i <= s.len(),
            sv == pairs_view(old(s)@),
            s@ == old(s)@,
            sv.len() == s.len(),
            forall|j: int| 0 <= j < i ==> sv[j].0 != k@,
        decreases s.len() - i,
    {
        if s[i].0 == k {
            proof {
                lemma_pair_set_at(sv, k@, v@, i as int);
            }
            s.set(i, (k, v));
            assert(pairs_view(s@) =~= sv.update(i as int, (k@, v@)));
            return;
        }
        i = i + 1;
    }
    proof {
        lemma_pair_set_absent(sv, k@, v@);
    }
    s.push((k, v));
    assert(pairs_view(s@) =~= sv.push((k@, v@)));
}

proof fn lemma_pair_set_at(s: Seq<(Seq<char>, Seq<char>)>, k: Seq<char>, v: Seq<char>, i: int)
    requires
        0 <= i < s.len(),
        s[i].0 == k,
        forall|j: int| 0 <= j < i ==> s[j].0 != k,
    ensures
        pair_set(s, k, v) == s.update(i, (k, v)),
    decreases i,
{
    if i > 0 {
        let t = s.drop_first();
        assert forall|j: int| 0 <= j < i - 1 implies t[j].0 != k by {
            assert(t[j] == s[j + 1]);
        }
        lemma_pair_set_at(t, k, v, i - 1);
        assert(seq![s[0]] + t.update(i - 1, (k, v)) =~= s.update(i, (k, v)));
    }
}

proof fn lemma_pair_set_absent(s: Seq<(Seq<char>, Seq<char>)>, k: Seq<char>, v: Seq<char>)
    requires
        forall|j: int| 0 <= j < s.len() ==> s[j].0 != k,
    ensures
        pair_set(s, k, v) == s.push((k, v)),
    decreases s.len(),
{
    if s.len() > 0 {
        let t = s.drop_first();
        assert forall|j: int| 0 <= j < t.len() implies t[j].0 != k by {
            assert(t[j] == s[j + 1]);
        }
        lemma_pair_set_absent(t, k, v);
        assert(seq![s[0]] + t.push((k, v)) =~= s.push((k, v)));
    }
}

/// Whether one of `perms` has the URI `u`, which is not an `fs://` URI.
pub open spec fn names_unsupported_uri(perms: Seq<StoragePermission>, u: Seq<char>) -> bool {
    exists|i: int| 0 <= i < perms.len() && fs_path(#[trigger] perms[i].uri@) is None && perms[i].uri@ == u
}

/// Whether `p` is the preopen that storage permission `perm` asks for.
pub open spec fn preopen_for(plugin_dir: Seq<char>, perm: StoragePermission, p: PreopenView) -> bool {
    &&& fs_path(perm.uri@) is Some
    &&& p.guest_path == fs_path(perm.uri@)->0
    &&& p.host_path == host_path_of(plugin_dir, fs_path(perm.uri@)->0)
    &&& p.read == perm.access@.contains(AccessType::Read)
    &&& p.write == perm.access@.contains(AccessType::Write)
}

/// The path of an `fs://` URI.
fn fs_uri_path(uri: &String) -> (r: Option<String>)
    ensures
        match r {
            Some(p) => fs_path(uri@) == Some(p@),
            None => fs_path(uri@) is None,
        },
{
    let s = uri.as_str();
    let n = s.unicode_len();
    if n < 5 {
        return None;
    }
    let head = s.substring_char(0, 5);
    proof {
        reveal_strlit("fs://");
    }
    if head.to_owned() == "fs://".to_owned() {
        assert(uri@.subrange(0, 5) =~= seq!['f', 's', ':', '/', '/']);
        Some(s.substring_char(5, n).to_owned())
    } else {
        assert(uri@.subrange(0, 5) != seq!['f', 's', ':', '/', '/']) by {
            if uri@.subrange(0, 5) == seq!['f', 's', ':', '/', '/'] {
                assert(head@ =~= "fs://"@);
            }
        }
        None
    }
}

fn resolve_host_path(plugin_dir: &str, path: &String) -> (r: String)
    ensures
        r@ == host_path_of(plugin_dir@, path@),
{
    let s = path.as_str();
    if s.unicode_len() > 0 && s.get_char(0) == '/' {
        path.clone()
    } else {
        proof {
            reveal_strlit("/");
        }
        let r = String::from_str(plugin_dir).concat("/").concat(s);
        assert(r@ =~= host_path_of(plugin_dir@, path@));
        r
    }
}

fn grants(access: &Vec<AccessType>, mode: AccessType) -> (r: bool)
    ensures
        r == access@.contains(mode),
{
    let mut i: usize = 0;
    while i < access.len()
        invariant
            i <= access.len(),
            forall|j: int| 0 <= j < i ==> access@[j] != mode,
        decreases access.len() - i,
    {
        if access[i] == mode {
            return true;
        }
        i = i + 1;
    }
    false
}

/// Compiles a policy into the host-state template its component runs with:
/// allowed hosts (without repeats), one preopen per storage permission
/// (resolved under `plugin_dir`, with the read and write modes it grants),
/// the allowed environment variables that `env_vars` holds, then the
/// secrets written over them, the declared configuration, and the memory limit.
pub fn create_wasi_state_template_from_policy(
    policy: &PolicyDocument,
    plugin_dir: &str,
    env_vars: &Vec<(String, String)>,
    secrets: Option<&Vec<(String, String)>>,
) -> (r: Result<HostStateTemplate, PolicyError>)
    ensures
        r is Ok <==> policy_builds(*policy),
        match r {
            Ok(t) => built_from(
                t@,
                *policy,
                plugin_dir@,
                pairs_view(env_vars@),
                match secrets {
                    Some(s) => pairs_view(s@),
                    None => Seq::empty(),
                },
            ),
            Err(PolicyError::UnsupportedStorageUri(u)) => match policy.storage_allow {
                Some(s) => names_unsupported_uri(s@, u@),
                None => false,
            },
        },
{
    // Network.
    let mut allowed_hosts: Vec<String> = Vec::new();
    if let Some(hosts) = &policy.network_allow {
        let ghost hv = strings_view(hosts@);
        let mut i: usize = 0;
        while i < hosts.len()
            invariant
                i <= hosts.len(),
                hv == strings_view(hosts@),
                strings_view(allowed_hosts@) == dedup(hv.subrange(0, i as int)),
            decreases hosts.len() - i,
        {
            assert(hv.subrange(0, i + 1).drop_last() =~= hv.subrange(0, i as int));
            let mut seen = false;
            let mut j: usize = 0;
            while j < allowed_hosts.len()
                invariant
                    i < hosts.len(),
                    j <= allowed_hosts.len(),
                    seen == exists|x: int| 0 <= x < j && allowed_hosts@[x]@ == hosts@[i as int]@,
                decreases allowed_hosts.len() - j,
            {
                if allowed_hosts[j] == hosts[i] {
                    seen = true;
                }
                j = j + 1;
            }
            let ghost av = strings_view(allowed_hosts@);
            assert(seen == av.contains(hv[i as int])) by {
                if seen {
                    let x = choose|x: int| 0 <= x < allowed_hosts@.len() && allowed_hosts@[x]@ == hosts@[i as int]@;
                    assert(av[x] == hv[i as int]);
                }
                if av.contains(hv[i as int]) {
                    let x = choose|x: int| 0 <= x < av.len() && av[x] == hv[i as int];
                    assert(allowed_hosts@[x]@ == hosts@[i as int]@);
                }
            }
            if !seen {
                allowed_hosts.push(hosts[i].clone());
                assert(strings_view(allowed_hosts@) =~= av.push(hv[i as int]));
            }
            i = i + 1;
        }
        assert(hv.subrange(0, hosts.len() as int) =~= hv);
    } else {
        assert(strings_view(allowed_hosts@) =~= dedup(Seq::empty()));
    }
    // Storage.
    let mut preopened_dirs: Vec<Preopen> = Vec::new();
    if let Some(perms) = &policy.storage_allow {
        let mut i: usize = 0;
        while i < perms.len()
            invariant
                i <= perms.len(),
                policy.storage_allow == Some(*perms),
                preopened_dirs@.len() == i,
                forall|x: int| 0 <= x < i ==> preopen_for(plugin_dir@, perms@[x], #[trigger] preopened_dirs@[x]@),
            decreases perms.len() - i,
        {
            let perm = &perms[i];
            match fs_uri_path(&perm.uri) {
                Some(path) => {
                    let host_path = resolve_host_path(plugin_dir, &path);
                    let read = grants(&perm.access, AccessType::Read);
                    let write = grants(&perm.access, AccessType::Write);
                    let ghost pv = path@;
                    let ghost hp = host_path@;
                    preopened_dirs.push(Preopen { host_path, guest_path: path, read, write });
                    assert(preopened_dirs@[i as int].guest_path@ == pv);
                    assert(preopened_dirs@[i as int].host_path@ == hp);
                    assert(perms@[i as int] == *perm);
                    assert(preopen_for(plugin_dir@, perms@[i as int], preopened_dirs@[i as int]@));
                },
                None => {
                    assert(perms@[i as int] == *perm);
                    assert(fs_path(perms@[i as int].uri@) is None);
                    let u = perm.uri.clone();
                    assert(names_unsupported_uri(perms@, u@));
                    assert(!policy_builds(*policy));
                    return Err(PolicyError::UnsupportedStorageUri(u));
                },
            }
            i = i + 1;
        }
    }
    // Environment, then secrets over it.
    let mut env: Vec<(String, String)> = Vec::new();
    if let Some(keys) = &policy.environment_allow {
        let ghost kv = strings_view(keys@);
        let mut i: usize = 0;
        while i < keys.len()
            invariant
                i <= keys.len(),
                kv == strings_view(keys@),
                pairs_view(env@) == allowed_env(kv.subrange(0, i as int), pairs_view(env_vars@)),
            decreases keys.len() - i,
        {
            assert(kv.subrange(0, i + 1).drop_last() =~= kv.subrange(0, i as int));
            match pair_lookup(env_vars, &keys[i]) {
                Some(v) => pair_store(&mut env, keys[i].clone(), v),
                None => {},
            }
            i = i + 1;
        }
        assert(kv.subrange(0, keys.len() as int) =~= kv);
    } else {
        assert(pairs_view(env@) =~= allowed_env(Seq::empty(), pairs_view(env_vars@)));
    }
    let ghost base = pairs_view(env@);
    if let Some(extra) = secrets {
        let ghost ev = pairs_view(extra@);
        let mut i: usize = 0;
        while i < extra.len()
            invariant
                i <= extra.len(),
                ev == pairs_view(extra@),
                pairs_view(env@) == overlay(base, ev.subrange(0, i as int)),
            decreases extra.len() - i,
        {
            assert(ev.subrange(0, i + 1).drop_last() =~= ev.subrange(0, i as int));
            pair_store(&mut env, extra[i].0.clone(), extra[i].1.clone());
            i = i + 1;
        }
        assert(ev.subrange(0, extra.len() as int) =~= ev);
    } else {
        assert(pairs_view(env@) == overlay(base, Seq::empty()));
    }
    // Configuration.
    let mut config_vars: Vec<(String, String)> = Vec::new();
    let mut i: usize = 0;
    while i < policy.config.len()
        invariant
            i <= policy.config.len(),
            pairs_view(config_vars@) =~= pairs_view(policy.config@).subrange(0, i as int),
        decreases policy.config.len() - i,
    {
        let ghost before = config_vars@;
        config_vars.push((policy.config[i].0.clone(), policy.config[i].1.clone()));
        assert(pairs_view(config_vars@) =~= pairs_view(before).push(pairs_view(policy.config@)[i as int]));
        i = i + 1;
    }
    assert(pairs_view(policy.config@).subrange(0, policy.config@.len() as int) =~= pairs_view(policy.config@));
    let t = HostStateTemplate {
        allowed_hosts,
        preopened_dirs,
        env_vars: env,
        config_vars,
        memory_limit: policy.memory_limit,
    };
    assert forall|i: int| 0 <= i < t@.preopened_dirs.len() implies preopen_for(
        plugin_dir@,
        policy.storage_allow->0@[i],
        #[trigger] t@.preopened_dirs[i],
    ) by {
        assert(t@.preopened_dirs[i] == t.preopened_dirs@[i]@);
    }
    if let Some(perms) = &policy.storage_allow {
        assert forall|i: int| 0 <= i < perms@.len() implies fs_path(#[trigger] perms@[i].uri@) is Some by {
            assert(t@.preopened_dirs[i] == t.preopened_dirs@[i]@);
        }
    }
    Ok(t)
}

impl HostStateTemplate {
    /// A copy for one call.
    pub fn duplicate(&self) -> (r: HostStateTemplate)
        ensures
            r@ == self@,
    {
        let mut allowed_hosts: Vec<String> = Vec::new();
        let mut i: usize = 0;
        while i < self.allowed_hosts.len()
            invariant
                i <= self.allowed_hosts.len(),
                strings_view(allowed_hosts@) =~= strings_view(self.allowed_hosts@).subrange(0, i as int),
            decreases self.allowed_hosts.len() - i,
        {
            let ghost before = allowed_hosts@;
            allowed_hosts.push(self.allowed_hosts[i].clone());
            assert(strings_view(allowed_hosts@) =~= strings_view(before).push(strings_view(self.allowed_hosts@)[i as int]));
            i = i + 1;
        }
        let mut preopened_dirs: Vec<Preopen> = Vec::new();
        let mut i: usize = 0;
        while i < self.preopened_dirs.len()
            invariant
                i <= self.preopened_dirs.len(),
                preopened_dirs@.map_values(|p: Preopen| p@) =~= self.preopened_dirs@.map_values(|p: Preopen| p@).subrange(
                    0,
                    i as int,
                ),
            decreases self.preopened_dirs.len() - i,
        {
            let ghost before = preopened_dirs@;
            let p = &self.preopened_dirs[i];
            preopened_dirs.push(
                Preopen {
                    host_path: p.host_path.clone(),
                    guest_path: p.guest_path.clone(),
                    read: p.read,
                    write: p.write,
                },
            );
            assert(preopened_dirs@.map_values(|p: Preopen| p@) =~= before.map_values(|p: Preopen| p@).push(
                self.preopened_dirs@[i as int]@,
            ));
            i = i + 1;
        }
        assert(self.preopened_dirs@.map_values(|p: Preopen| p@).subrange(0, self.preopened_dirs.len() as int)
            =~= self.preopened_dirs@.map_values(|p: Preopen| p@));
        assert(strings_view(self.allowed_hosts@).subrange(0, self.allowed_hosts.len() as int) =~= strings_view(
            self.allowed_hosts@,
        ));
        HostStateTemplate {
            allowed_hosts,
            preopened_dirs,
            env_vars: copy_pairs(&self.env_vars),
            config_vars: copy_pairs(&self.config_vars),
            memory_limit: self.memory_limit,
        }
    }
}

fn copy_pairs(s: &Vec<(String, String)>) -> (r: Vec<(String, String)>)
    ensures
        pairs_view(r@) == pairs_view(s@),
{
    let mut out: Vec<(String, String)> = Vec::new();
    let mut i: usize = 0;
    while i < s.len()
        invariant
            i <= s.len(),
            pairs_view(out@) =~= pairs_view(s@).subrange(0, i as int),
        decreases s.len() - i,
    {
        let ghost before = out@;
        out.push((s[i].0.clone(), s[i].1.clone()));
        assert(pairs_view(out@) =~= pairs_view(before).push(pairs_view(s@)[i as int]));
        i = i + 1;
    }
    out
}

/// The template of a component without a policy: no capabilities at all.
pub fn default_template() -> (r: HostStateTemplate)
    ensures
        r@ == empty_template(),
{
    let r = HostStateTemplate {
        allowed_hosts: Vec::new(),
        preopened_dirs: Vec::new(),
        env_vars: Vec::new(),
        config_vars: Vec::new(),
        memory_limit: None,
    };
    assert(r@.allowed_hosts =~= Seq::<Seq<char>>::empty());
    assert(r@.preopened_dirs =~= Seq::<PreopenView>::empty());
    assert(r@.env_vars =~= Seq::<(Seq<char>, Seq<char>)>::empty());
    assert(r@.config_vars =~= Seq::<(Seq<char>, Seq<char>)>::empty());
    r
}

} // verus!
