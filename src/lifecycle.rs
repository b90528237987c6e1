//! The lifecycle manager's state: which components are loaded, which tools
//! they register, which policy templates are attached, and the decisions of
//! load, unload, startup and invocation. The caller performs the I/O and the
//! engine work in between and reports what came of it.

use vstd::prelude::*;
use crate::cache::{
    module_id_of, removal_ok, stamp_holds, validate_stamp, RemoveOutcome, ValidationStamp,
};
use crate::codec::{parse_json_text, parsed_json, print_json_text, printed_json};
use crate::json::{lemma_view_items, lemma_view_members, view_items, view_members, Json, JsonValue};
use crate::policy::{
    built_from, create_wasi_state_template_from_policy, dedup, default_template, empty_template,
    pairs_view, policy_builds, HostStateTemplate, PolicyDocument, StoragePermission, TemplateView,
};
use crate::registry::{
    after_register, after_unregister, all_schemas, entry_of, function_for, lookup, providers,
    schema_for, schemas_of, function_of, view_strings, ComponentRegistry, FunctionIdentifier, FunctionIdentifierView,
    RegistryView, ToolEntryView, ToolLookupError, ToolLookupErrorView, ToolMetadata,
    ToolMetadataView,
};

verus! {

/// Whether a load added a component or replaced one with the same id.
#[derive(Debug, PartialEq, Eq, Structural)]
pub enum LoadResult {
    /// A component with this id was loaded before and has been replaced.
    Replaced,
    /// No component with this id was loaded before.
    New,
}

/// Why a lifecycle operation failed.
#[derive(Debug)]
pub enum LifecycleError {
    /// No component with this id is known.
    NotFound(String),
    /// The component is not loaded.
    UnknownComponent(String),
    /// The component's tools are known but its module is still being compiled.
    NotReady(String),
    /// No tool has this name.
    UnknownTool(String),
    /// Several components provide a tool of this name.
    AmbiguousTool { tool: String, components: Vec<String> },
    /// The call arguments are not JSON.
    Marshal(String),
    /// A file could not be written or removed.
    Io(String),
    /// A permission request is malformed.
    InvalidPermission(String),
}

/// What the lifecycle state is, mathematically.
pub struct LifecycleView {
    /// Ids of the components loaded in memory, without repeats.
    pub components: Seq<Seq<char>>,
    pub registry: RegistryView,
    /// The attached policy templates, by component id.
    pub policies: Seq<(Seq<char>, TemplateView)>,
}

/// The lifecycle state of a component host.
pub struct LifecycleManager {
    components: Vec<String>,
    registry: ComponentRegistry,
    policies: Vec<(String, HostStateTemplate)>,
}

impl View for LifecycleManager {
    type V = LifecycleView;

    closed spec fn view(&self) -> LifecycleView {
        LifecycleView {
            components: view_strings(self.components@),
            registry: self.registry@,
            policies: self.policies@.map_values(|p: (String, HostStateTemplate)| (p.0@, p.1@)),
        }
    }
}

pub open spec fn tools_view(tools: Seq<ToolMetadata>) -> Seq<ToolMetadataView> {
    tools.map_values(|t: ToolMetadata| t@)
}

/// The registry change a load makes once its module compiled: whatever the
/// component registered before is dropped, then its new tools are registered.
pub open spec fn after_begin_load(v: LifecycleView, id: Seq<char>, tools: Seq<ToolMetadataView>) -> LifecycleView {
    LifecycleView { registry: after_register(after_unregister(v.registry, id), id, tools), ..v }
}

/// The registry as it was before a load began, kept to undo that load.
pub struct LoadUndo {
    previous: ComponentRegistry,
}

impl View for LoadUndo {
    type V = RegistryView;

    closed spec fn view(&self) -> RegistryView {
        self.previous@
    }
}

/// `s` with `id` added when it is not there yet.
pub open spec fn with_id(s: Seq<Seq<char>>, id: Seq<char>) -> Seq<Seq<char>> {
    if s.contains(id) {
        s
    } else {
        s.push(id)
    }
}

/// `s` without `id`.
pub open spec fn without_id(s: Seq<Seq<char>>, id: Seq<char>) -> Seq<Seq<char>> {
    s.filter(|c: Seq<char>| c != id)
}

pub type Policies = Seq<(Seq<char>, TemplateView)>;

/// Index of the first template attached for `id`, or -1.
pub open spec fn policy_index(ps: Policies, id: Seq<char>) -> int
    decreases ps.len(),
{
    if ps.len() == 0 {
        -1
    } else if ps[0].0 == id {
        0
    } else {
        let i = policy_index(ps.drop_first(), id);
        if i < 0 {
            -1
        } else {
            i + 1
        }
    }
}

/// The template attached for component `id`.
pub open spec fn template_of(ps: Policies, id: Seq<char>) -> Option<TemplateView> {
    let i = policy_index(ps, id);
    if i >= 0 {
        Some(ps[i].1)
    } else {
        None
    }
}

/// `ps` with template `t` attached for `id`, in place of any earlier one.
pub open spec fn with_policy(ps: Policies, id: Seq<char>, t: TemplateView) -> Policies {
    let i = policy_index(ps, id);
    if i >= 0 {
        ps.update(i, (id, t))
    } else {
        ps.push((id, t))
    }
}

/// `ps` without any template for `id`.
pub open spec fn without_policy(ps: Policies, id: Seq<char>) -> Policies {
    ps.filter(not_for(id))
}

/// Whether a policy entry belongs to another component than `id`.
pub open spec fn not_for(id: Seq<char>) -> spec_fn((Seq<char>, TemplateView)) -> bool {
    |p: (Seq<char>, TemplateView)| p.0 != id
}

pub proof fn lemma_policy_index(ps: Policies, id: Seq<char>)
    ensures
        -1 <= policy_index(ps, id) < ps.len(),
        policy_index(ps, id) >= 0 ==> ps[policy_index(ps, id)].0 == id,
        forall|j: int| 0 <= j < policy_index(ps, id) ==> ps[j].0 != id,
        policy_index(ps, id) < 0 ==> forall|j: int| 0 <= j < ps.len() ==> ps[j].0 != id,
    decreases ps.len(),
{
    if ps.len() > 0 && ps[0].0 != id {
        lemma_policy_index(ps.drop_first(), id);
        assert forall|j: int| 0 <= j < ps.len() && policy_index(ps, id) < 0 implies ps[j].0 != id by {
            if j > 0 {
                assert(ps[j] == ps.drop_first()[j - 1]);
            }
        }
        assert forall|j: int| 0 <= j < policy_index(ps, id) implies ps[j].0 != id by {
            if j > 0 {
                assert(ps[j] == ps.drop_first()[j - 1]);
            }
        }
    }
}

pub proof fn lemma_policy_index_at(ps: Policies, id: Seq<char>, i: int)
    requires
        0 <= i < ps.len(),
        ps[i].0 == id,
        forall|j: int| 0 <= j < i ==> ps[j].0 != id,
    ensures
        policy_index(ps, id) == i,
{
    lemma_policy_index(ps, id);
}

/// After attaching `t` for `id`, `id` has `t` and every other id keeps its template.
pub proof fn lemma_with_policy(ps: Policies, id: Seq<char>, t: TemplateView, other: Seq<char>)
    ensures
        template_of(with_policy(ps, id, t), other) == if other == id {
            Some(t)
        } else {
            template_of(ps, other)
        },
{
    let ps2 = with_policy(ps, id, t);
    lemma_policy_index(ps, id);
    lemma_policy_index(ps, other);
    lemma_policy_index(ps2, other);
    let i = policy_index(ps, id);
    if i >= 0 {
        assert forall|j: int| 0 <= j < ps.len() implies ps2[j].0 == ps[j].0 by {}
        let j2 = policy_index(ps, other);
        if j2 >= 0 {
            lemma_policy_index_at(ps2, other, j2);
        }
        if other == id {
            lemma_policy_index_at(ps2, other, i);
        }
    } else {
        let j2 = policy_index(ps, other);
        if j2 >= 0 {
            lemma_policy_index_at(ps2, other, j2);
        } else if other == id {
            lemma_policy_index_at(ps2, other, ps.len() as int);
        } else {
            assert forall|j: int| 0 <= j < ps2.len() implies ps2[j].0 != other by {}
        }
    }
}

/// No template for `id` remains once it is detached.
pub proof fn lemma_without_policy(ps: Policies, id: Seq<char>)
    ensures
        template_of(without_policy(ps, id), id) is None,
        forall|j: int| 0 <= j < without_policy(ps, id).len() ==> (#[trigger] without_policy(ps, id)[j]).0 != id,
{
    let w = without_policy(ps, id);
    let pc = not_for(id);
    assert forall|j: int| 0 <= j < w.len() implies (#[trigger] w[j]).0 != id by {
        ps.lemma_filter_pred(pc, j);
    }
    lemma_policy_index(w, id);
}

/// A load that committed its artifact: the component is in memory.
pub open spec fn after_finish_load(v: LifecycleView, id: Seq<char>) -> LifecycleView {
    LifecycleView { components: with_id(v.components, id), ..v }
}

/// A complete load of component `id` with `tools`.
pub open spec fn after_load(v: LifecycleView, id: Seq<char>, tools: Seq<ToolMetadataView>) -> LifecycleView {
    after_finish_load(after_begin_load(v, id, tools), id)
}

/// An unload whose files are all gone: nothing of component `id` remains.
pub open spec fn after_unload(v: LifecycleView, id: Seq<char>) -> LifecycleView {
    LifecycleView {
        components: without_id(v.components, id),
        registry: after_unregister(v.registry, id),
        policies: without_policy(v.policies, id),
    }
}

/// Whether the state knows component `id` at all.
pub open spec fn knows(v: LifecycleView, id: Seq<char>) -> bool {
    v.components.contains(id) || v.registry.registered.contains(id)
}

/// The tools a metadata sidecar describes: identifiers, schemas and names
/// taken pairwise, as far as all three lists reach.
pub open spec fn metadata_tools(m: ComponentMetadata) -> Seq<ToolMetadataView> {
    let n = min3(m.function_identifiers@.len(), m.tool_schemas@.len(), m.tool_names@.len());
    Seq::new(
        n,
        |i: int|
            ToolMetadataView {
                identifier: m.function_identifiers@[i]@,
                schema: m.tool_schemas@[i]@,
                name: m.tool_names@[i]@,
            },
    )
}

pub open spec fn min3(a: nat, b: nat, c: nat) -> nat {
    if a <= b && a <= c {
        a
    } else if b <= c {
        b
    } else {
        c
    }
}

/// The module ids among directory entry names, in order.
pub open spec fn module_ids(names: Seq<Seq<char>>) -> Seq<Seq<char>>
    decreases names.len(),
{
    if names.len() == 0 {
        Seq::empty()
    } else {
        let prev = module_ids(names.drop_last());
        match module_id_of(names.last()) {
            Some(id) => prev.push(id),
            None => prev,
        }
    }
}

/// What is persisted per component so that a later start can list its tools
/// without compiling it.
#[derive(Debug)]
pub struct ComponentMetadata {
    pub component_id: String,
    pub tool_schemas: Vec<JsonValue>,
    pub function_identifiers: Vec<FunctionIdentifier>,
    pub tool_names: Vec<String>,
    pub validation_stamp: ValidationStamp,
    /// Seconds since the epoch.
    pub created_at: u64,
}

/// The number of compilations to run at once: the one asked for, or the
/// number of CPUs capped at four.
pub open spec fn concurrency_for(requested: Option<usize>, cpus: usize) -> usize {
    match requested {
        Some(n) => n,
        None => if cpus < 4 {
            cpus
        } else {
            4
        },
    }
}

/// Relies on num_cpus::get: the number of logical CPUs available to this
/// process, which is never below one.
#[verifier::external_body]
fn available_cpus() -> (r: usize)
    ensures
        r >= 1,
{
    num_cpus::get()
}

/// The number of compilations to run at once (see [`concurrency_for`]).
pub fn compile_concurrency(requested: Option<usize>, cpus: usize) -> (r: usize)
    ensures
        r == concurrency_for(requested, cpus),
{
    match requested {
        Some(n) => n,
        None => if cpus < 4 {
            cpus
        } else {
            4
        },
    }
}

/// The default number of compilations to run at once: the machine's CPUs,
/// capped at four.
pub fn default_compile_concurrency() -> (r: usize)
    ensures
        1 <= r <= 4,
{
    compile_concurrency(None, available_cpus())
}

/// The text a call returns: a string result as it is, anything else as JSON text.
pub open spec fn call_text(result: Json) -> Seq<char> {
    match result {
        Json::String(s) => s,
        _ => printed_json(result),
    }
}

/// The text a call returns (see [`call_text`]).
pub fn call_result_text(result: &JsonValue) -> (r: String)
    ensures
        r@ == call_text(result@),
{
    match result {
        JsonValue::String(s) => s.clone(),
        _ => print_json_text(result),
    }
}

/// The call arguments, read from their JSON text.
pub fn parse_call_arguments(parameters: &str) -> (r: Result<JsonValue, LifecycleError>)
    ensures
        match r {
            Ok(v) => parsed_json(parameters@) == Some(v@),
            Err(e) => parsed_json(parameters@) is None && e is Marshal,
        },
{
    match parse_json_text(parameters) {
        Some(v) => Ok(v),
        None => Err(LifecycleError::Marshal(parameters.to_owned())),
    }
}

/// How to reach an exported function: through its interface first when it
/// has one, else directly.
pub open spec fn export_route(f: FunctionIdentifierView) -> Seq<Seq<char>> {
    match f.interface_name {
        Some(i) => if i.len() > 0 {
            seq![i, f.function_name]
        } else {
            seq![f.function_name]
        },
        None => seq![f.function_name],
    }
}

/// The export names to resolve, in order (see [`export_route`]).
pub fn export_path(f: &FunctionIdentifier) -> (r: Vec<String>)
    ensures
        view_strings(r@) == export_route(f@),
{
    let mut r: Vec<String> = Vec::new();
    match &f.interface_name {
        Some(i) => {
            if i.as_str().unicode_len() > 0 {
                r.push(i.clone());
            }
        },
        None => {},
    }
    r.push(f.function_name.clone());
    assert(view_strings(r@) =~= export_route(f@));
    r
}

/// Removes every storage permission for `uri`, dropping the list when it
/// ends up empty.
pub fn remove_storage_permission_by_uri_from_policy(policy: &mut PolicyDocument, uri: &str)
    ensures
        final(policy).network_allow == old(policy).network_allow,
        final(policy).environment_allow == old(policy).environment_allow,
        final(policy).memory_limit == old(policy).memory_limit,
        match old(policy).storage_allow {
            None => final(policy).storage_allow is None,
            Some(perms) => {
                let kept = perms@.filter(|p: StoragePermission| p.uri@ != uri@);
                if kept.len() == 0 {
                    final(policy).storage_allow is None
                } else {
                    final(policy).storage_allow is Some && final(policy).storage_allow->0@ == kept
                }
            },
        },
{
    let taken = policy.storage_allow.take();
    match taken {
        None => {},
        Some(perms) => {
            let ghost pv = perms@;
            let ghost f = |p: StoragePermission| p.uri@ != uri@;
            let u = uri.to_owned();
            let mut perms = perms;
            let total = perms.len();
            assert(pv.len() == total);
            let mut kept: Vec<StoragePermission> = Vec::new();
            assert(pv.subrange(0, 0).filter(f) =~= Seq::<StoragePermission>::empty()) by {
                reveal(Seq::filter);
            }
            let mut k: usize = 0;
            while perms.len() > 0
                invariant
                    k + perms.len() == pv.len(),
                    pv.len() <= usize::MAX,
                    perms@ == pv.subrange(k as int, pv.len() as int),
                    u@ == uri@,
                    f == (|p: StoragePermission| p.uri@ != uri@),
                    kept@ == pv.subrange(0, k as int).filter(f),
                decreases perms.len(),
            {
                let p = perms.remove(0);
                assert(p == pv[k as int]);
                assert(perms@ =~= pv.subrange(k + 1, pv.len() as int));
                proof {
                    reveal(Seq::filter);
                    assert(pv.subrange(0, k + 1).drop_last() =~= pv.subrange(0, k as int));
                }
                if p.uri != u {
                    kept.push(p);
                }
                k = k + 1;
            }
            assert(pv.subrange(0, pv.len() as int) =~= pv);
            if kept.len() > 0 {
                policy.storage_allow = Some(kept);
            }
        },
    }
}

impl LifecycleManager {
    /// A manager with nothing loaded.
    pub fn new_unloaded() -> (r: LifecycleManager)
        ensures
            r@.components.len() == 0,
            r@.registry.entries.len() == 0,
            r@.registry.registered.len() == 0,
            r@.policies.len() == 0,
    {
        LifecycleManager { components: Vec::new(), registry: ComponentRegistry::new(), policies: Vec::new() }
    }

    fn holds_component(&self, id: &str) -> (r: bool)
        ensures
            r == self@.components.contains(id@),
    {
        let k = id.to_owned();
        let mut i: usize = 0;
        while i < self.components.len()
            invariant
                i <= self.components.len(),
                k@ == id@,
                forall|j: int| 0 <= j < i ==> self@.components[j] != id@,
            decreases self.components.len() - i,
        {
            assert(self@.components[i as int] == self.components@[i as int]@);
            if self.components[i] == k {
                return true;
            }
            i = i + 1;
        }
        false
    }

    fn policy_position(&self, id: &str) -> (r: Option<usize>)
        ensures
            match r {
                Some(i) => i < self.policies.len() && policy_index(self@.policies, id@) == i,
                None => policy_index(self@.policies, id@) == -1,
            },
    {
        let k = id.to_owned();
        let mut i: usize = 0;
        while i < self.policies.len()
            invariant
                i <= self.policies.len(),
                k@ == id@,
                forall|j: int| 0 <= j < i ==> self@.policies[j].0 != id@,
            decreases self.policies.len() - i,
        {
            assert(self@.policies[i as int].0 == self.policies@[i as int].0@);
            if self.policies[i].0 == k {
                proof {
                    lemma_policy_index_at(self@.policies, id@, i as int);
                }
                return Some(i);
            }
            i = i + 1;
        }
        proof {
            lemma_policy_index(self@.policies, id@);
        }
        None
    }

    /// Ids of the components loaded in memory.
    pub fn list_components(&self) -> (r: Vec<String>)
        ensures
            view_strings(r@) == self@.components,
    {
        let mut out: Vec<String> = Vec::new();
        let mut i: usize = 0;
        while i < self.components.len()
            invariant
                i <= self.components.len(),
                view_strings(out@) =~= self@.components.subrange(0, i as int),
            decreases self.components.len() - i,
        {
            let ghost before = out@;
            out.push(self.components[i].clone());
            assert(view_strings(out@) =~= view_strings(before).push(self@.components[i as int]));
            i = i + 1;
        }
        out
    }

    /// Ids of the components loaded in memory or present as module files
    /// among `dir_entries`, without repeats.
    pub fn list_components_known(&self, dir_entries: &Vec<String>) -> (r: Vec<String>)
        ensures
            view_strings(r@) == dedup(self@.components + module_ids(view_strings(dir_entries@))),
    {
        let ghost all = self@.components + module_ids(view_strings(dir_entries@));
        let mut ids: Vec<String> = Vec::new();
        let mut i: usize = 0;
        while i < self.components.len()
            invariant
                i <= self.components.len(),
                all == self@.components + module_ids(view_strings(dir_entries@)),
                view_strings(ids@) == dedup(self@.components.subrange(0, i as int)),
            decreases self.components.len() - i,
        {
            assert(self@.components.subrange(0, i + 1).drop_last() =~= self@.components.subrange(0, i as int));
            push_new(&mut ids, &self.components[i]);
            i = i + 1;
        }
        assert(self@.components.subrange(0, self.components.len() as int) =~= self@.components);
        let ghost names = view_strings(dir_entries@);
        let mut j: usize = 0;
        while j < dir_entries.len()
            invariant
                j <= dir_entries.len(),
                names == view_strings(dir_entries@),
                view_strings(ids@) == dedup(self@.components + module_ids(names.subrange(0, j as int))),
            decreases dir_entries.len() - j,
        {
            assert(names.subrange(0, j + 1).drop_last() =~= names.subrange(0, j as int));
            assert(names[j as int] == dir_entries@[j as int]@);
            match crate::cache::component_id_from_file_name(dir_entries[j].as_str()) {
                Some(id) => {
                    let ghost before = self@.components + module_ids(names.subrange(0, j as int));
                    push_new(&mut ids, &id);
                    assert(self@.components + module_ids(names.subrange(0, j + 1)) =~= before.push(id@));
                    assert((before.push(id@)).drop_last() =~= before);
                },
                None => {
                    assert(self@.components + module_ids(names.subrange(0, j + 1)) =~= self@.components
                        + module_ids(names.subrange(0, j as int)));
                },
            }
            j = j + 1;
        }
        assert(names.subrange(0, dir_entries.len() as int) =~= names);
        ids
    }

    /// The schemas of all registered tools.
    pub fn list_tools(&self) -> (r: Vec<JsonValue>)
        ensures
            r@.map_values(|v: JsonValue| v@) == all_schemas(self@.registry),
    {
        self.registry.list_tools()
    }

    /// The one component providing `tool_name`.
    pub fn get_component_id_for_tool(&self, tool_name: &str) -> (r: Result<String, LifecycleError>)
        ensures
            match r {
                Ok(id) => lookup(self@.registry, tool_name@) == Ok::<Seq<char>, ToolLookupErrorView>(id@),
                Err(LifecycleError::UnknownTool(t)) => t@ == tool_name@ && lookup(self@.registry, tool_name@)
                    == Err::<Seq<char>, ToolLookupErrorView>(ToolLookupErrorView::UnknownTool(tool_name@)),
                Err(LifecycleError::AmbiguousTool { tool, components }) => tool@ == tool_name@ && lookup(
                    self@.registry,
                    tool_name@,
                ) == Err::<Seq<char>, ToolLookupErrorView>(
                    ToolLookupErrorView::AmbiguousTool { tool: tool_name@, components: view_strings(components@) },
                ),
                Err(_) => false,
            },
    {
        match self.registry.get_component_id_for_tool(tool_name) {
            Ok(id) => Ok(id),
            Err(ToolLookupError::UnknownTool(t)) => Err(LifecycleError::UnknownTool(t)),
            Err(ToolLookupError::AmbiguousTool { tool, components }) => Err(
                LifecycleError::AmbiguousTool { tool, components },
            ),
        }
    }

    /// The schema of a loaded component: `{"tools": [...]}` with the schema
    /// of each of its tools.
    pub fn get_component_schema(&self, component_id: &str) -> (r: Option<JsonValue>)
        ensures
            match r {
                Some(s) => self@.components.contains(component_id@) && s@ == Json::Object(
                    seq![("tools"@, Json::Array(schemas_of(self@.registry, component_id@)))],
                ),
                None => !self@.components.contains(component_id@),
            },
    {
        if !self.holds_component(component_id) {
            return None;
        }
        let schemas = self.registry.tool_schemas_of(component_id);
        proof {
            lemma_view_items(schemas@);
            assert(view_items(schemas@) =~= schemas@.map_values(|v: JsonValue| v@));
        }
        let mut m: Vec<(String, JsonValue)> = Vec::new();
        m.push(("tools".to_owned(), JsonValue::Array(schemas)));
        proof {
            lemma_view_members(m@);
            assert(view_members(m@) =~= seq![("tools"@, Json::Array(schemas_of(self@.registry, component_id@)))]);
        }
        Some(JsonValue::Object(m))
    }

    /// The schema of tool `tool_name` of component `component_id`.
    pub fn get_tool_schema_for_component(&self, component_id: &str, tool_name: &str) -> (r: Option<JsonValue>)
        ensures
            match r {
                Some(s) => schema_for(self@.registry, component_id@, tool_name@) == Some(s@),
                None => schema_for(self@.registry, component_id@, tool_name@) is None,
            },
    {
        self.registry.get_tool_schema_for_component(component_id, tool_name)
    }

    /// First half of a load, once the module compiled and its tools are
    /// known: replaces whatever component `id` registered before. Gives back
    /// the registry as it was, for [`Self::abort_load`].
    pub fn begin_load(&mut self, component_id: &str, tools: Vec<ToolMetadata>) -> (undo: LoadUndo)
        ensures
            final(self)@ == after_begin_load(old(self)@, component_id@, tools_view(tools@)),
            undo@ == old(self)@.registry,
    {
        let undo = LoadUndo { previous: self.registry.duplicate() };
        self.registry.unregister_component(component_id);
        self.registry.register_tools(component_id, tools);
        undo
    }

    /// Undoes [`Self::begin_load`] when the artifact could not be committed:
    /// the registry is again what it was before that load began.
    pub fn abort_load(&mut self, undo: LoadUndo)
        ensures
            final(self)@ == (LifecycleView { registry: undo@, ..old(self)@ }),
    {
        self.registry = undo.previous;
    }

    /// Second half of a load, once the artifact is on disk: the component is
    /// in memory, new or in place of the one with the same id.
    pub fn finish_load(&mut self, component_id: &str) -> (r: LoadResult)
        ensures
            final(self)@ == after_finish_load(old(self)@, component_id@),
            r == (if old(self)@.components.contains(component_id@) {
                LoadResult::Replaced
            } else {
                LoadResult::New
            }),
    {
        if self.holds_component(component_id) {
            LoadResult::Replaced
        } else {
            self.components.push(component_id.to_owned());
            assert(self@.components =~= old(self)@.components.push(component_id@));
            LoadResult::New
        }
    }

    /// Whether component `id` may be unloaded: it must be known.
    pub fn check_unload(&self, component_id: &str) -> (r: Result<(), LifecycleError>)
        ensures
            r is Ok <==> knows(self@, component_id@),
            r is Err ==> r->Err_0 is NotFound,
    {
        if self.holds_component(component_id) || self.registry.is_registered(component_id) {
            Ok(())
        } else {
            Err(LifecycleError::NotFound(component_id.to_owned()))
        }
    }

    /// Second half of an unload, once the files of
    /// [`crate::cache::unload_file_names`] were removed in order: when every
    /// removal left its file gone, the component leaves memory, the
    /// registry and the policy registry; otherwise nothing changes.
    pub fn complete_unload(&mut self, component_id: &str, outcomes: &Vec<RemoveOutcome>) -> (r: Result<(), LifecycleError>)
        ensures
            r is Ok <==> (outcomes@.len() == 4 && forall|i: int| 0 <= i < 4 ==> removal_ok(#[trigger] outcomes@[i])),
            r is Ok ==> final(self)@ == after_unload(old(self)@, component_id@),
            r is Err ==> final(self)@ == old(self)@ && r->Err_0 is Io,
    {
        let mut all_gone = outcomes.len() == 4;
        let mut i: usize = 0;
        while i < outcomes.len()
            invariant
                i <= outcomes.len(),
                all_gone == (outcomes@.len() == 4 && forall|j: int| 0 <= j < i ==> removal_ok(#[trigger] outcomes@[j])),
            decreases outcomes.len() - i,
        {
            if outcomes[i] == RemoveOutcome::Failed {
                all_gone = false;
            }
            i = i + 1;
        }
        if !all_gone {
            return Err(LifecycleError::Io(component_id.to_owned()));
        }
        let ghost pc = |c: Seq<char>| c != component_id@;
        let ghost cv = self@.components;
        let k = component_id.to_owned();
        let mut kept: Vec<String> = Vec::new();
        assert(cv.subrange(0, 0).filter(pc) =~= Seq::<Seq<char>>::empty()) by {
            reveal(Seq::filter);
        }
        let mut j: usize = 0;
        while j < self.components.len()
            invariant
                j <= self.components.len(),
                cv == view_strings(self.components@),
                k@ == component_id@,
                pc == (|c: Seq<char>| c != component_id@),
                view_strings(kept@) =~= cv.subrange(0, j as int).filter(pc),
            decreases self.components.len() - j,
        {
            proof {
                reveal(Seq::filter);
                assert(cv.subrange(0, j + 1).drop_last() =~= cv.subrange(0, j as int));
            }
            assert(cv[j as int] == self.components@[j as int]@);
            if self.components[j] != k {
                kept.push(self.components[j].clone());
            }
            j = j + 1;
        }
        assert(cv.subrange(0, cv.len() as int) =~= cv);
        self.components = kept;
        self.registry.unregister_component(component_id);
        self.detach_policy(component_id);
        Ok(())
    }

    /// Attaches a policy template to component `id`, replacing any other.
    pub fn attach_policy(&mut self, component_id: &str, template: HostStateTemplate)
        ensures
            final(self)@ == (LifecycleView {
                policies: with_policy(old(self)@.policies, component_id@, template@),
                ..old(self)@
            }),
            template_of(final(self)@.policies, component_id@) == Some(template@),
            forall|other: Seq<char>|
                other != component_id@ ==> #[trigger] template_of(final(self)@.policies, other) == template_of(
                    old(self)@.policies,
                    other,
                ),
    {
        let ghost tv = template@;
        let ghost ps = self@.policies;
        proof {
            lemma_policy_index(ps, component_id@);
        }
        match self.policy_position(component_id) {
            Some(i) => {
                self.policies.set(i, (component_id.to_owned(), template));
                assert(self@.policies =~= ps.update(i as int, (component_id@, tv)));
            },
            None => {
                self.policies.push((component_id.to_owned(), template));
                assert(self@.policies =~= ps.push((component_id@, tv)));
            },
        }
        proof {
            lemma_with_policy(ps, component_id@, tv, component_id@);
            assert forall|other: Seq<char>| other != component_id@ implies #[trigger] template_of(
                self@.policies,
                other,
            ) == template_of(ps, other) by {
                lemma_with_policy(ps, component_id@, tv, other);
            }
        }
    }

    /// Drops the policy template of component `id`, so that it runs with the
    /// default one.
    pub fn detach_policy(&mut self, component_id: &str)
        ensures
            final(self)@ == (LifecycleView { policies: without_policy(old(self)@.policies, component_id@), ..old(self)@ }),
            template_of(final(self)@.policies, component_id@) is None,
    {
        let ghost pc = not_for(component_id@);
        let ghost pv = self@.policies;
        let k = component_id.to_owned();
        let mut old_policies: Vec<(String, HostStateTemplate)> = Vec::new();
        core::mem::swap(&mut old_policies, &mut self.policies);
        let ghost ov = old_policies@;
        let total = old_policies.len();
        assert(ov.len() == total);
        assert(pv == ov.map_values(|p: (String, HostStateTemplate)| (p.0@, p.1@)));
        assert(pv.subrange(0, 0).filter(pc) =~= Seq::<(Seq<char>, TemplateView)>::empty()) by {
            reveal(Seq::filter);
        }
        let mut n: usize = 0;
        while old_policies.len() > 0
            invariant
                n + old_policies.len() == ov.len(),
                ov.len() <= usize::MAX,
                old_policies@ == ov.subrange(n as int, ov.len() as int),
                pv == ov.map_values(|p: (String, HostStateTemplate)| (p.0@, p.1@)),
                k@ == component_id@,
                pc == not_for(component_id@),
                self.components == old(self).components,
                self.registry == old(self).registry,
                self@.policies =~= pv.subrange(0, n as int).filter(pc),
            decreases old_policies.len(),
        {
            let p = old_policies.remove(0);
            assert(p == ov[n as int]);
            assert(old_policies@ =~= ov.subrange(n + 1, ov.len() as int));
            proof {
                reveal(Seq::filter);
                assert(pv.subrange(0, n + 1).drop_last() =~= pv.subrange(0, n as int));
            }
            if p.0 != k {
                self.policies.push(p);
            }
            n = n + 1;
        }
        assert(pv.subrange(0, pv.len() as int) =~= pv);
        proof {
            lemma_without_policy(pv, component_id@);
        }
    }

    /// The template the next call of component `id` runs with: the one
    /// attached for it, or the empty-capability default.
    pub fn host_state_for(&self, component_id: &str) -> (r: HostStateTemplate)
        ensures
            r@ == match template_of(self@.policies, component_id@) {
                Some(t) => t,
                None => empty_template(),
            },
    {
        match self.policy_position(component_id) {
            Some(i) => {
                assert(self@.policies[i as int] == (self.policies@[i as int].0@, self.policies@[i as int].1@));
                self.policies[i].1.duplicate()
            },
            None => default_template(),
        }
    }

    /// The last step of a load: the component's co-located policy, when its
    /// document was read (`policy` is `None` when the file is absent or does
    /// not parse) and its template builds, is attached; otherwise no template
    /// stays attached and the component runs with the default policy. Never
    /// fails the load; returns whether a template was attached.
    pub fn apply_colocated_policy(
        &mut self,
        component_id: &str,
        policy: Option<&PolicyDocument>,
        plugin_dir: &str,
        env_vars: &Vec<(String, String)>,
    ) -> (r: bool)
        ensures
            r == (policy is Some && policy_builds(*policy->0)),
            final(self)@.components == old(self)@.components,
            final(self)@.registry == old(self)@.registry,
            r ==> (template_of(final(self)@.policies, component_id@) matches Some(t) && built_from(
                t,
                *policy->0,
                plugin_dir@,
                pairs_view(env_vars@),
                Seq::empty(),
            )),
            !r ==> template_of(final(self)@.policies, component_id@) is None,
    {
        let built = match policy {
            Some(p) => create_wasi_state_template_from_policy(p, plugin_dir, env_vars, None),
            None => {
                self.detach_policy(component_id);
                return false;
            },
        };
        match built {
            Ok(template) => {
                self.attach_policy(component_id, template);
                true
            },
            Err(_) => {
                self.detach_policy(component_id);
                false
            },
        }
    }

    /// Which function a call of tool `tool_name` on component `component_id`
    /// runs. A component whose tools are listed but whose module is still
    /// compiling is reported as not ready, never as an unknown tool.
    pub fn resolve_call(&self, component_id: &str, tool_name: &str) -> (r: Result<FunctionIdentifier, LifecycleError>)
        ensures
            match r {
                Ok(f) => self@.components.contains(component_id@) && function_of(
                    self@.registry,
                    component_id@,
                    tool_name@,
                ) == Some(f@),
                Err(LifecycleError::NotReady(_)) => !self@.components.contains(component_id@)
                    && self@.registry.registered.contains(component_id@),
                Err(LifecycleError::UnknownComponent(_)) => !knows(self@, component_id@),
                Err(LifecycleError::UnknownTool(_)) => self@.components.contains(component_id@)
                    && function_of(self@.registry, component_id@, tool_name@) is None,
                Err(_) => false,
            },
    {
        if !self.holds_component(component_id) {
            if self.registry.is_registered(component_id) {
                return Err(LifecycleError::NotReady(component_id.to_owned()));
            }
            return Err(LifecycleError::UnknownComponent(component_id.to_owned()));
        }
        match self.registry.get_function_for_component(component_id, tool_name) {
            Some(f) => Ok(f),
            None => Err(LifecycleError::UnknownTool(tool_name.to_owned())),
        }
    }

    /// First startup phase, for one module file: when the sidecar's stamp
    /// still matches the file observed now, the sidecar's tools are
    /// registered without compiling; otherwise the sidecar is ignored.
    pub fn hydrate_from_metadata(
        &mut self,
        component_id: &str,
        metadata: &ComponentMetadata,
        size: Option<u64>,
        mtime: Option<u64>,
        content: Option<&[u8]>,
    ) -> (r: bool)
        ensures
            r == stamp_holds(
                metadata.validation_stamp,
                size,
                mtime,
                match content {
                    Some(c) => Some(c@),
                    None => None,
                },
            ),
            r ==> final(self)@ == (LifecycleView {
                registry: after_register(old(self)@.registry, component_id@, metadata_tools(*metadata)),
                ..old(self)@
            }),
            !r ==> final(self)@ == old(self)@,
    {
        if !validate_stamp(&metadata.validation_stamp, size, mtime, content) {
            return false;
        }
        let tools = tools_from_metadata(metadata);
        self.registry.register_tools(component_id, tools);
        true
    }

    /// Whether a storage permission may be revoked from component `id` by
    /// URI: the component must be loaded and the URI must not be empty.
    pub fn check_revoke_storage(&self, component_id: &str, uri: &str) -> (r: Result<(), LifecycleError>)
        ensures
            match r {
                Ok(()) => self@.components.contains(component_id@) && uri@.len() > 0,
                Err(LifecycleError::NotFound(_)) => !self@.components.contains(component_id@),
                Err(LifecycleError::InvalidPermission(_)) => self@.components.contains(component_id@)
                    && uri@.len() == 0,
                Err(_) => false,
            },
    {
        if !self.holds_component(component_id) {
            return Err(LifecycleError::NotFound(component_id.to_owned()));
        }
        if uri.unicode_len() == 0 {
            return Err(LifecycleError::InvalidPermission(uri.to_owned()));
        }
        Ok(())
    }

    /// Whether the second startup phase still has to compile component `id`.
    pub fn needs_compile(&self, component_id: &str) -> (r: bool)
        ensures
            r == !self@.components.contains(component_id@),
    {
        !self.holds_component(component_id)
    }

    /// Second startup phase, once component `id` compiled: its tools are
    /// registered unless the first phase already did, and it is in memory.
    pub fn finish_background_load(&mut self, component_id: &str, tools: Vec<ToolMetadata>)
        ensures
            final(self)@.components == with_id(old(self)@.components, component_id@),
            final(self)@.policies == old(self)@.policies,
            final(self)@.registry == if old(self)@.registry.registered.contains(component_id@) {
                old(self)@.registry
            } else {
                after_register(old(self)@.registry, component_id@, tools_view(tools@))
            },
    {
        if !self.registry.is_registered(component_id) {
            self.registry.register_tools(component_id, tools);
        }
        let _ = self.finish_load(component_id);
    }
}

/// After an unload of component `id` whose files are all gone, `id` is not
/// loaded, not registered, provides no tool and holds no policy, whatever
/// loads and unloads came before.
pub proof fn lemma_unload_leaves_nothing(v: LifecycleView, id: Seq<char>)
    ensures
        !after_unload(v, id).components.contains(id),
        !after_unload(v, id).registry.registered.contains(id),
        forall|i: int|
            0 <= i < after_unload(v, id).registry.entries.len() ==> (
            #[trigger] after_unload(v, id).registry.entries[i]).component != id,
        template_of(after_unload(v, id).policies, id) is None,
{
    let w = after_unload(v, id);
    let pc = |c: Seq<char>| c != id;
    let pe = |e: ToolEntryView| e.component != id;
    assert forall|i: int| 0 <= i < w.registry.entries.len() implies (#[trigger] w.registry.entries[i]).component != id by {
        v.registry.entries.lemma_filter_pred(pe, i);
    }
    if w.components.contains(id) {
        let i = choose|i: int| 0 <= i < w.components.len() && w.components[i] == id;
        v.components.lemma_filter_pred(pc, i);
    }
    if w.registry.registered.contains(id) {
        let i = choose|i: int| 0 <= i < w.registry.registered.len() && w.registry.registered[i] == id;
        v.registry.registered.lemma_filter_pred(pc, i);
    }
    lemma_without_policy(v.policies, id);
}

/// After a load of component `id` with `tools`, every one of its tools is
/// listed, and looking its name up gives `id` (or, when another component
/// offers the same name, an ambiguity that names `id`).
pub proof fn lemma_loaded_tools_discoverable(v: LifecycleView, id: Seq<char>, tools: Seq<ToolMetadataView>, i: int)
    requires
        0 <= i < tools.len(),
    ensures
        all_schemas(after_load(v, id, tools).registry).contains(tools[i].schema),
        providers(after_load(v, id, tools).registry, tools[i].name).contains(id),
        match lookup(after_load(v, id, tools).registry, tools[i].name) {
            Ok(c) => c == id,
            Err(ToolLookupErrorView::AmbiguousTool { tool, components }) => components.contains(id),
            Err(ToolLookupErrorView::UnknownTool(_)) => false,
        },
{
    let r0 = after_unregister(v.registry, id);
    let r = after_load(v, id, tools).registry;
    let mapped = tools.map_values(|t: ToolMetadataView| entry_of(id, t));
    assert(r.entries == r0.entries + mapped);
    let k = r0.entries.len() + i;
    let e = entry_of(id, tools[i]);
    assert(r.entries[k] == e);
    let sch = all_schemas(r);
    assert(sch[k] == tools[i].schema);
    let name = tools[i].name;
    let p = |x: ToolEntryView| x.name == name;
    r.entries.lemma_filter_contains(p, k);
    let f = r.entries.filter(p);
    let j = choose|j: int| 0 <= j < f.len() && f[j] == e;
    let prov = providers(r, name);
    assert(prov == f.map_values(|x: ToolEntryView| x.component));
    assert(prov[j] == id);
}

proof fn lemma_filter_none<A>(s: Seq<A>, p: spec_fn(A) -> bool)
    requires
        forall|k: int| 0 <= k < s.len() ==> !p(#[trigger] s[k]),
    ensures
        s.filter(p) =~= Seq::<A>::empty(),
    decreases s.len(),
{
    reveal(Seq::filter);
    if s.len() > 0 {
        assert forall|k: int| 0 <= k < s.drop_last().len() implies !p(#[trigger] s.drop_last()[k]) by {
            assert(s.drop_last()[k] == s[k]);
        }
        lemma_filter_none(s.drop_last(), p);
    }
}

proof fn lemma_filter_single<A>(s: Seq<A>, p: spec_fn(A) -> bool, i: int)
    requires
        0 <= i < s.len(),
        p(s[i]),
        forall|k: int| 0 <= k < s.len() && k != i ==> !p(#[trigger] s[k]),
    ensures
        s.filter(p) =~= seq![s[i]],
    decreases s.len(),
{
    reveal(Seq::filter);
    let d = s.drop_last();
    if i == s.len() - 1 {
        assert forall|k: int| 0 <= k < d.len() implies !p(#[trigger] d[k]) by {
            assert(d[k] == s[k]);
        }
        lemma_filter_none(d, p);
    } else {
        assert forall|k: int| 0 <= k < d.len() && k != i implies !p(#[trigger] d[k]) by {
            assert(d[k] == s[k]);
        }
        assert(d[i] == s[i]);
        lemma_filter_single(d, p, i);
    }
}

/// After a load of component `id` with `tools`, a tool name that only one of
/// those tools carries, and that no other registered component offers,
/// leads to `id` and to no other component.
pub proof fn lemma_loaded_tool_found(v: LifecycleView, id: Seq<char>, tools: Seq<ToolMetadataView>, i: int)
    requires
        0 <= i < tools.len(),
        forall|k: int| 0 <= k < tools.len() && k != i ==> (#[trigger] tools[k]).name != tools[i].name,
        forall|j: int|
            0 <= j < v.registry.entries.len() && (#[trigger] v.registry.entries[j]).name == tools[i].name
                ==> v.registry.entries[j].component == id,
    ensures
        lookup(after_load(v, id, tools).registry, tools[i].name) == Ok::<Seq<char>, ToolLookupErrorView>(id),
{
    let name = tools[i].name;
    let pe = |e: ToolEntryView| e.component != id;
    let p = |e: ToolEntryView| e.name == name;
    let a = v.registry.entries.filter(pe);
    let b = tools.map_values(|t: ToolMetadataView| entry_of(id, t));
    let r = after_load(v, id, tools).registry;
    assert(r.entries == a + b);
    assert forall|k: int| 0 <= k < a.len() implies !p(#[trigger] a[k]) by {
        v.registry.entries.lemma_filter_pred(pe, k);
        assert(a.contains(a[k]));
        v.registry.entries.lemma_filter_contains_rev(pe, a[k]);
        let j = choose|j: int| 0 <= j < v.registry.entries.len() && v.registry.entries[j] == a[k];
        assert(v.registry.entries[j] == a[k]);
    }
    lemma_filter_none(a, p);
    assert forall|k: int| 0 <= k < b.len() && k != i implies !p(#[trigger] b[k]) by {
        assert(b[k] == entry_of(id, tools[k]));
    }
    lemma_filter_single(b, p, i);
    Seq::filter_distributes_over_add(a, b, p);
    assert(r.entries.filter(p) =~= seq![b[i]]);
    assert(providers(r, name) =~= seq![id]);
}

/// The tools a metadata sidecar describes (see [`metadata_tools`]).
pub fn tools_from_metadata(metadata: &ComponentMetadata) -> (r: Vec<ToolMetadata>)
    ensures
        tools_view(r@) == metadata_tools(*metadata),
{
    let n = if metadata.function_identifiers.len() <= metadata.tool_schemas.len()
        && metadata.function_identifiers.len() <= metadata.tool_names.len() {
        metadata.function_identifiers.len()
    } else if metadata.tool_schemas.len() <= metadata.tool_names.len() {
        metadata.tool_schemas.len()
    } else {
        metadata.tool_names.len()
    };
    let mut out: Vec<ToolMetadata> = Vec::new();
    let mut i: usize = 0;
    while i < n
        invariant
            i <= n,
            n == min3(
                metadata.function_identifiers@.len(),
                metadata.tool_schemas@.len(),
                metadata.tool_names@.len(),
            ),
            tools_view(out@) =~= metadata_tools(*metadata).subrange(0, i as int),
        decreases n - i,
    {
        let t = ToolMetadata {
            identifier: metadata.function_identifiers[i].duplicate(),
            schema: metadata.tool_schemas[i].duplicate(),
            normalized_name: metadata.tool_names[i].clone(),
        };
        let ghost before = out@;
        out.push(t);
        assert(tools_view(out@) =~= tools_view(before).push(metadata_tools(*metadata)[i as int]));
        i = i + 1;
    }
    out
}

/// The metadata sidecar of component `id` with `tools`, stamped and dated.
pub fn build_component_metadata(
    component_id: &str,
    tools: &Vec<ToolMetadata>,
    validation_stamp: ValidationStamp,
    created_at: u64,
) -> (r: ComponentMetadata)
    ensures
        r.component_id@ == component_id@,
        r.validation_stamp == validation_stamp,
        r.created_at == created_at,
        r.tool_schemas@.len() == tools@.len(),
        r.function_identifiers@.len() == tools@.len(),
        r.tool_names@.len() == tools@.len(),
        metadata_tools(r) == tools_view(tools@),
{
    let mut tool_schemas: Vec<JsonValue> = Vec::new();
    let mut function_identifiers: Vec<FunctionIdentifier> = Vec::new();
    let mut tool_names: Vec<String> = Vec::new();
    let mut i: usize = 0;
    while i < tools.len()
        invariant
            i <= tools.len(),
            tool_schemas@.len() == i,
            function_identifiers@.len() == i,
            tool_names@.len() == i,
            forall|j: int|
                0 <= j < i ==> (ToolMetadataView {
                    identifier: (#[trigger] function_identifiers@[j])@,
                    schema: tool_schemas@[j]@,
                    name: tool_names@[j]@,
                }) == tools@[j]@,
        decreases tools.len() - i,
    {
        tool_schemas.push(tools[i].schema.duplicate());
        function_identifiers.push(tools[i].identifier.duplicate());
        tool_names.push(tools[i].normalized_name.clone());
        i = i + 1;
    }
    let r = ComponentMetadata {
        component_id: component_id.to_owned(),
        tool_schemas,
        function_identifiers,
        tool_names,
        validation_stamp,
        created_at,
    };
    assert(metadata_tools(r) =~= tools_view(tools@));
    r
}

fn push_new(ids: &mut Vec<String>, id: &String)
    ensures
        view_strings(final(ids)@) == if view_strings(old(ids)@).contains(id@) {
            view_strings(old(ids)@)
        } else {
            view_strings(old(ids)@).push(id@)
        },
{
    let ghost v = view_strings(ids@);
    let mut i: usize = 0;
    while i < ids.len()
        invariant
            i <= ids.len(),
            ids@ == old(ids)@,
            v == view_strings(ids@),
            forall|j: int| 0 <= j < i ==> v[j] != id@,
        decreases ids.len() - i,
    {
        assert(v[i as int] == ids@[i as int]@);
        if ids[i] == *id {
            return;
        }
        i = i + 1;
    }
    ids.push(id.clone());
    assert(view_strings(ids@) =~= v.push(id@));
}

} // verus!
