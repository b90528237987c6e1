//! The tool registry: which component provides which tool, under which name,
//! with which schema. Collisions between components are kept and reported.

use vstd::prelude::*;
use crate::json::{Json, JsonValue};

verus! {

/// A function a component exports: the interface it sits in (none for a
/// top-level export) and its name.
#[derive(Debug)]
pub struct FunctionIdentifier {
    pub interface_name: Option<String>,
    pub function_name: String,
}

pub struct FunctionIdentifierView {
    pub interface_name: Option<Seq<char>>,
    pub function_name: Seq<char>,
}

impl View for FunctionIdentifier {
    type V = FunctionIdentifierView;

    open spec fn view(&self) -> FunctionIdentifierView {
        FunctionIdentifierView {
            interface_name: match self.interface_name {
                Some(i) => Some(i@),
                None => None,
            },
            function_name: self.function_name@,
        }
    }
}

impl FunctionIdentifier {
    pub fn duplicate(&self) -> (r: FunctionIdentifier)
        ensures
            r@ == self@,
    {
        let interface_name = match &self.interface_name {
            Some(i) => Some(i.clone()),
            None => None,
        };
        FunctionIdentifier { interface_name, function_name: self.function_name.clone() }
    }
}

/// A tool a component offers: the function behind it, its schema, and its
/// public name.
#[derive(Debug)]
pub struct ToolMetadata {
    pub identifier: FunctionIdentifier,
    pub schema: JsonValue,
    pub normalized_name: String,
}

pub struct ToolMetadataView {
    pub identifier: FunctionIdentifierView,
    pub schema: Json,
    pub name: Seq<char>,
}

impl View for ToolMetadata {
    type V = ToolMetadataView;

    open spec fn view(&self) -> ToolMetadataView {
        ToolMetadataView {
            identifier: self.identifier@,
            schema: self.schema@,
            name: self.normalized_name@,
        }
    }
}

impl ToolMetadata {
    pub fn duplicate(&self) -> (r: ToolMetadata)
        ensures
            r@ == self@,
    {
        ToolMetadata {
            identifier: self.identifier.duplicate(),
            schema: self.schema.duplicate(),
            normalized_name: self.normalized_name.clone(),
        }
    }
}

/// One registered tool.
#[derive(Debug)]
pub struct ToolEntry {
    pub tool_name: String,
    pub component_id: String,
    pub identifier: FunctionIdentifier,
    pub schema: JsonValue,
}

pub struct ToolEntryView {
    pub name: Seq<char>,
    pub component: Seq<char>,
    pub identifier: FunctionIdentifierView,
    pub schema: Json,
}

impl View for ToolEntry {
    type V = ToolEntryView;

    open spec fn view(&self) -> ToolEntryView {
        ToolEntryView {
            name: self.tool_name@,
            component: self.component_id@,
            identifier: self.identifier@,
            schema: self.schema@,
        }
    }
}

impl ToolEntry {
    pub fn duplicate(&self) -> (r: ToolEntry)
        ensures
            r@ == self@,
    {
        ToolEntry {
            tool_name: self.tool_name.clone(),
            component_id: self.component_id.clone(),
            identifier: self.identifier.duplicate(),
            schema: self.schema.duplicate(),
        }
    }
}

/// Why a tool name does not lead to exactly one component.
#[derive(Debug)]
pub enum ToolLookupError {
    UnknownTool(String),
    AmbiguousTool { tool: String, components: Vec<String> },
}

pub enum ToolLookupErrorView {
    UnknownTool(Seq<char>),
    AmbiguousTool { tool: Seq<char>, components: Seq<Seq<char>> },
}

impl View for ToolLookupError {
    type V = ToolLookupErrorView;

    open spec fn view(&self) -> ToolLookupErrorView {
        match self {
            ToolLookupError::UnknownTool(t) => ToolLookupErrorView::UnknownTool(t@),
            ToolLookupError::AmbiguousTool { tool, components } => ToolLookupErrorView::AmbiguousTool {
                tool: tool@,
                components: components@.map_values(|c: String| c@),
            },
        }
    }
}

/// The registry: every registered tool, in registration order, and the
/// components registered (with or without tools).
#[derive(Debug)]
pub struct ComponentRegistry {
    entries: Vec<ToolEntry>,
    registered: Vec<String>,
}

pub struct RegistryView {
    pub entries: Seq<ToolEntryView>,
    pub registered: Seq<Seq<char>>,
}

pub open spec fn view_entries(s: Seq<ToolEntry>) -> Seq<ToolEntryView> {
    s.map_values(|e: ToolEntry| e@)
}

pub open spec fn view_strings(s: Seq<String>) -> Seq<Seq<char>> {
    s.map_values(|c: String| c@)
}

impl View for ComponentRegistry {
    type V = RegistryView;

    closed spec fn view(&self) -> RegistryView {
        RegistryView { entries: view_entries(self.entries@), registered: view_strings(self.registered@) }
    }
}

/// The entry a tool of component `id` becomes.
pub open spec fn entry_of(id: Seq<char>, t: ToolMetadataView) -> ToolEntryView {
    ToolEntryView { name: t.name, component: id, identifier: t.identifier, schema: t.schema }
}

/// The registry after component `id` registers `tools`.
pub open spec fn after_register(r: RegistryView, id: Seq<char>, tools: Seq<ToolMetadataView>) -> RegistryView {
    RegistryView {
        entries: r.entries + tools.map_values(|t: ToolMetadataView| entry_of(id, t)),
        registered: if r.registered.contains(id) {
            r.registered
        } else {
            r.registered.push(id)
        },
    }
}

/// The registry after everything component `id` contributed is removed.
pub open spec fn after_unregister(r: RegistryView, id: Seq<char>) -> RegistryView {
    RegistryView {
        entries: r.entries.filter(|e: ToolEntryView| e.component != id),
        registered: r.registered.filter(|c: Seq<char>| c != id),
    }
}

/// The components providing a tool named `name`, one per registered tool.
pub open spec fn providers(r: RegistryView, name: Seq<char>) -> Seq<Seq<char>> {
    r.entries.filter(|e: ToolEntryView| e.name == name).map_values(|e: ToolEntryView| e.component)
}

/// The schemas of all registered tools, in registration order.
pub open spec fn all_schemas(r: RegistryView) -> Seq<Json> {
    r.entries.map_values(|e: ToolEntryView| e.schema)
}

/// The one component providing `name`, or why there is not exactly one.
pub open spec fn lookup(r: RegistryView, name: Seq<char>) -> Result<Seq<char>, ToolLookupErrorView> {
    let p = providers(r, name);
    if p.len() == 0 {
        Err(ToolLookupErrorView::UnknownTool(name))
    } else if p.len() > 1 {
        Err(ToolLookupErrorView::AmbiguousTool { tool: name, components: p })
    } else {
        Ok(p[0])
    }
}

/// The function behind the first registered tool named `name`.
pub open spec fn function_for(r: RegistryView, name: Seq<char>) -> Option<FunctionIdentifierView> {
    let f = r.entries.filter(|e: ToolEntryView| e.name == name);
    if f.len() > 0 {
        Some(f[0].identifier)
    } else {
        None
    }
}

/// The schemas of the tools of component `id`, in registration order.
pub open spec fn schemas_of(r: RegistryView, id: Seq<char>) -> Seq<Json> {
    r.entries.filter(|e: ToolEntryView| e.component == id).map_values(|e: ToolEntryView| e.schema)
}

/// The function behind the tool `name` of component `id`.
pub open spec fn function_of(r: RegistryView, id: Seq<char>, name: Seq<char>) -> Option<FunctionIdentifierView> {
    let f = r.entries.filter(|e: ToolEntryView| e.component == id && e.name == name);
    if f.len() > 0 {
        Some(f[0].identifier)
    } else {
        None
    }
}

/// The schema of the tool `name` of component `id`, when it has one.
pub open spec fn schema_for(r: RegistryView, id: Seq<char>, name: Seq<char>) -> Option<Json> {
    let f = r.entries.filter(|e: ToolEntryView| e.component == id && e.name == name);
    if f.len() > 0 {
        Some(f[0].schema)
    } else {
        None
    }
}

proof fn lemma_filter_step<A>(s: Seq<A>, k: int, p: spec_fn(A) -> bool)
    requires
        0 <= k < s.len(),
    ensures
        s.subrange(0, k + 1).filter(p) == if p(s[k]) {
            s.subrange(0, k).filter(p).push(s[k])
        } else {
            s.subrange(0, k).filter(p)
        },
{
    reveal(Seq::filter);
    assert(s.subrange(0, k + 1).drop_last() =~= s.subrange(0, k));
}

impl ComponentRegistry {
    pub fn new() -> (r: ComponentRegistry)
        ensures
            r@.entries.len() == 0,
            r@.registered.len() == 0,
    {
        ComponentRegistry { entries: Vec::new(), registered: Vec::new() }
    }

    /// A copy of the whole registry.
    pub fn duplicate(&self) -> (r: ComponentRegistry)
        ensures
            r@ == self@,
    {
        let mut entries: Vec<ToolEntry> = Vec::new();
        let mut i: usize = 0;
        while i < self.entries.len()
            invariant
                i <= self.entries.len(),
                view_entries(entries@) =~= view_entries(self.entries@).subrange(0, i as int),
            decreases self.entries.len() - i,
        {
            let e = self.entries[i].duplicate();
            let ghost before = entries@;
            entries.push(e);
            assert(view_entries(entries@) =~= view_entries(before).push(view_entries(self.entries@)[i as int]));
            i = i + 1;
        }
        let mut registered: Vec<String> = Vec::new();
        let mut j: usize = 0;
        while j < self.registered.len()
            invariant
                j <= self.registered.len(),
                view_strings(registered@) =~= view_strings(self.registered@).subrange(0, j as int),
            decreases self.registered.len() - j,
        {
            let ghost before = registered@;
            registered.push(self.registered[j].clone());
            assert(view_strings(registered@) =~= view_strings(before).push(view_strings(self.registered@)[j as int]));
            j = j + 1;
        }
        assert(view_entries(self.entries@).subrange(0, self.entries.len() as int) =~= view_entries(self.entries@));
        assert(view_strings(self.registered@).subrange(0, self.registered.len() as int) =~= view_strings(self.registered@));
        ComponentRegistry { entries, registered }
    }

    /// Whether component `id` is registered.
    pub fn is_registered(&self, component_id: &str) -> (r: bool)
        ensures
            r == self@.registered.contains(component_id@),
    {
        let id = component_id.to_owned();
        let mut i: usize = 0;
        while i < self.registered.len()
            invariant
                i <= self.registered.len(),
                id@ == component_id@,
                forall|j: int| 0 <= j < i ==> self@.registered[j] != component_id@,
            decreases self.registered.len() - i,
        {
            if self.registered[i] == id {
                assert(self@.registered[i as int] == component_id@);
                return true;
            }
            i = i + 1;
        }
        false
    }

    /// Adds every tool of component `id` and records the component.
    pub fn register_tools(&mut self, component_id: &str, tools: Vec<ToolMetadata>)
        ensures
            final(self)@ == after_register(old(self)@, component_id@, tools@.map_values(|t: ToolMetadata| t@)),
    {
        let ghost old_entries = self@.entries;
        let ghost tv = tools@.map_values(|t: ToolMetadata| t@);
        let mut i: usize = 0;
        while i < tools.len()
            invariant
                i <= tools.len(),
                tv == tools@.map_values(|t: ToolMetadata| t@),
                self@.entries =~= old_entries + tv.subrange(0, i as int).map_values(
                    |t: ToolMetadataView| entry_of(component_id@, t),
                ),
                self.registered == old(self).registered,
            decreases tools.len() - i,
        {
            let t = &tools[i];
            assert(tv[i as int] == tools@[i as int]@);
            assert(tv.subrange(0, i + 1) =~= tv.subrange(0, i as int).push(tv[i as int]));
            let entry = ToolEntry {
                tool_name: t.normalized_name.clone(),
                component_id: component_id.to_owned(),
                identifier: t.identifier.duplicate(),
                schema: t.schema.duplicate(),
            };
            let ghost before = self.entries@;
            assert(entry@ == entry_of(component_id@, tv[i as int]));
            self.entries.push(entry);
            assert(view_entries(self.entries@) =~= view_entries(before).push(entry_of(component_id@, tv[i as int])));
            i = i + 1;
        }
        assert(tv.subrange(0, tools.len() as int) =~= tv);
        if !self.is_registered(component_id) {
            self.registered.push(component_id.to_owned());
            assert(self@.registered =~= old(self)@.registered.push(component_id@));
        }
    }

    /// Removes every tool of component `id`, and the component itself.
    pub fn unregister_component(&mut self, component_id: &str)
        ensures
            final(self)@ == after_unregister(old(self)@, component_id@),
    {
        let ghost pe = |e: ToolEntryView| e.component != component_id@;
        let ghost pr = |c: Seq<char>| c != component_id@;
        let ghost ev = self@.entries;
        let ghost rv = self@.registered;
        let id = component_id.to_owned();
        let mut kept: Vec<ToolEntry> = Vec::new();
        let mut i: usize = 0;
        assert(ev.subrange(0, 0).filter(pe) =~= Seq::<ToolEntryView>::empty()) by {
            reveal(Seq::filter);
        }
        while i < self.entries.len()
            invariant
                i <= self.entries.len(),
                ev == view_entries(self.entries@),
                id@ == component_id@,
                pe == (|e: ToolEntryView| e.component != component_id@),
                view_entries(kept@) =~= ev.subrange(0, i as int).filter(pe),
            decreases self.entries.len() - i,
        {
            proof {
                lemma_filter_step(ev, i as int, pe);
            }
            assert(ev[i as int] == self.entries@[i as int]@);
            if self.entries[i].component_id != id {
                kept.push(self.entries[i].duplicate());
            }
            i = i + 1;
        }
        assert(ev.subrange(0, ev.len() as int) =~= ev);
        let mut kept_ids: Vec<String> = Vec::new();
        let mut j: usize = 0;
        assert(rv.subrange(0, 0).filter(pr) =~= Seq::<Seq<char>>::empty()) by {
            reveal(Seq::filter);
        }
        while j < self.registered.len()
            invariant
                j <= self.registered.len(),
                rv == view_strings(self.registered@),
                id@ == component_id@,
                pr == (|c: Seq<char>| c != component_id@),
                view_strings(kept_ids@) =~= rv.subrange(0, j as int).filter(pr),
            decreases self.registered.len() - j,
        {
            proof {
                lemma_filter_step(rv, j as int, pr);
            }
            assert(rv[j as int] == self.registered@[j as int]@);
            if self.registered[j] != id {
                kept_ids.push(self.registered[j].clone());
            }
            j = j + 1;
        }
        assert(rv.subrange(0, rv.len() as int) =~= rv);
        self.entries = kept;
        self.registered = kept_ids;
    }

    /// The components providing a tool named `tool_name`.
    pub fn providers_of(&self, tool_name: &str) -> (r: Vec<String>)
        ensures
            view_strings(r@) == providers(self@, tool_name@),
    {
        let ghost p = |e: ToolEntryView| e.name == tool_name@;
        let ghost ev = self@.entries;
        let name = tool_name.to_owned();
        let mut out: Vec<String> = Vec::new();
        let mut i: usize = 0;
        assert(ev.subrange(0, 0).filter(p) =~= Seq::<ToolEntryView>::empty()) by {
            reveal(Seq::filter);
        }
        while i < self.entries.len()
            invariant
                i <= self.entries.len(),
                ev == view_entries(self.entries@),
                name@ == tool_name@,
                p == (|e: ToolEntryView| e.name == tool_name@),
                view_strings(out@) =~= ev.subrange(0, i as int).filter(p).map_values(
                    |e: ToolEntryView| e.component,
                ),
            decreases self.entries.len() - i,
        {
            proof {
                lemma_filter_step(ev, i as int, p);
            }
            assert(ev[i as int] == self.entries@[i as int]@);
            let ghost before = out@;
            if self.entries[i].tool_name == name {
                out.push(self.entries[i].component_id.clone());
                assert(view_strings(out@) =~= view_strings(before).push(ev[i as int].component));
                assert(ev.subrange(0, i + 1).filter(p).map_values(|e: ToolEntryView| e.component) =~= ev.subrange(
                    0,
                    i as int,
                ).filter(p).map_values(|e: ToolEntryView| e.component).push(ev[i as int].component));
            }
            i = i + 1;
        }
        assert(ev.subrange(0, ev.len() as int) =~= ev);
        out
    }

    /// The one component providing `tool_name`; an error naming every
    /// provider when there are several, or the tool when there is none.
    pub fn get_component_id_for_tool(&self, tool_name: &str) -> (r: Result<String, ToolLookupError>)
        ensures
            match r {
                Ok(id) => lookup(self@, tool_name@) == Ok::<Seq<char>, ToolLookupErrorView>(id@),
                Err(e) => lookup(self@, tool_name@) == Err::<Seq<char>, ToolLookupErrorView>(e@),
            },
    {
        let p = self.providers_of(tool_name);
        if p.len() == 0 {
            Err(ToolLookupError::UnknownTool(tool_name.to_owned()))
        } else if p.len() > 1 {
            let e = ToolLookupError::AmbiguousTool { tool: tool_name.to_owned(), components: p };
            Err(e)
        } else {
            Ok(p[0].clone())
        }
    }

    /// The function behind the first tool named `tool_name`.
    pub fn get_function_identifier(&self, tool_name: &str) -> (r: Option<FunctionIdentifier>)
        ensures
            match r {
                Some(f) => function_for(self@, tool_name@) == Some(f@),
                None => function_for(self@, tool_name@) is None,
            },
    {
        let ghost p = |e: ToolEntryView| e.name == tool_name@;
        let ghost ev = self@.entries;
        let name = tool_name.to_owned();
        let mut i: usize = 0;
        assert(ev.subrange(0, 0).filter(p) =~= Seq::<ToolEntryView>::empty()) by {
            reveal(Seq::filter);
        }
        while i < self.entries.len()
            invariant
                i <= self.entries.len(),
                ev == view_entries(self.entries@),
                name@ == tool_name@,
                p == (|e: ToolEntryView| e.name == tool_name@),
                ev.subrange(0, i as int).filter(p).len() == 0,
            decreases self.entries.len() - i,
        {
            proof {
                lemma_filter_step(ev, i as int, p);
            }
            assert(ev[i as int] == self.entries@[i as int]@);
            if self.entries[i].tool_name == name {
                proof {
                    lemma_filter_prefix_first(ev, i as int, p);
                }
                return Some(self.entries[i].identifier.duplicate());
            }
            i = i + 1;
        }
        assert(ev.subrange(0, ev.len() as int) =~= ev);
        None
    }

    /// The schema of the tool `tool_name` of component `component_id`.
    pub fn get_tool_schema_for_component(&self, component_id: &str, tool_name: &str) -> (r: Option<JsonValue>)
        ensures
            match r {
                Some(s) => schema_for(self@, component_id@, tool_name@) == Some(s@),
                None => schema_for(self@, component_id@, tool_name@) is None,
            },
    {
        let ghost p = |e: ToolEntryView| e.component == component_id@ && e.name == tool_name@;
        let ghost ev = self@.entries;
        let name = tool_name.to_owned();
        let id = component_id.to_owned();
        let mut i: usize = 0;
        assert(ev.subrange(0, 0).filter(p) =~= Seq::<ToolEntryView>::empty()) by {
            reveal(Seq::filter);
        }
        while i < self.entries.len()
            invariant
                i <= self.entries.len(),
                ev == view_entries(self.entries@),
                name@ == tool_name@,
                id@ == component_id@,
                p == (|e: ToolEntryView| e.component == component_id@ && e.name == tool_name@),
                ev.subrange(0, i as int).filter(p).len() == 0,
            decreases self.entries.len() - i,
        {
            proof {
                lemma_filter_step(ev, i as int, p);
            }
            assert(ev[i as int] == self.entries@[i as int]@);
            if self.entries[i].component_id == id && self.entries[i].tool_name == name {
                proof {
                    lemma_filter_prefix_first(ev, i as int, p);
                }
                return Some(self.entries[i].schema.duplicate());
            }
            i = i + 1;
        }
        assert(ev.subrange(0, ev.len() as int) =~= ev);
        None
    }

    /// The function behind tool `tool_name` of component `component_id`.
    pub fn get_function_for_component(&self, component_id: &str, tool_name: &str) -> (r: Option<FunctionIdentifier>)
        ensures
            match r {
                Some(f) => function_of(self@, component_id@, tool_name@) == Some(f@),
                None => function_of(self@, component_id@, tool_name@) is None,
            },
    {
        let ghost p = |e: ToolEntryView| e.component == component_id@ && e.name == tool_name@;
        let ghost ev = self@.entries;
        let name = tool_name.to_owned();
        let id = component_id.to_owned();
        let mut i: usize = 0;
        assert(ev.subrange(0, 0).filter(p) =~= Seq::<ToolEntryView>::empty()) by {
            reveal(Seq::filter);
        }
        while i < self.entries.len()
            invariant
                i <= self.entries.len(),
                ev == view_entries(self.entries@),
                name@ == tool_name@,
                id@ == component_id@,
                p == (|e: ToolEntryView| e.component == component_id@ && e.name == tool_name@),
                ev.subrange(0, i as int).filter(p).len() == 0,
            decreases self.entries.len() - i,
        {
            proof {
                lemma_filter_step(ev, i as int, p);
            }
            assert(ev[i as int] == self.entries@[i as int]@);
            if self.entries[i].component_id == id && self.entries[i].tool_name == name {
                proof {
                    lemma_filter_prefix_first(ev, i as int, p);
                }
                return Some(self.entries[i].identifier.duplicate());
            }
            i = i + 1;
        }
        assert(ev.subrange(0, ev.len() as int) =~= ev);
        None
    }

    /// The schemas of the tools of component `component_id`.
    pub fn tool_schemas_of(&self, component_id: &str) -> (r: Vec<JsonValue>)
        ensures
            r@.map_values(|v: JsonValue| v@) == schemas_of(self@, component_id@),
    {
        let ghost p = |e: ToolEntryView| e.component == component_id@;
        let ghost ev = self@.entries;
        let id = component_id.to_owned();
        let mut out: Vec<JsonValue> = Vec::new();
        let mut i: usize = 0;
        assert(ev.subrange(0, 0).filter(p) =~= Seq::<ToolEntryView>::empty()) by {
            reveal(Seq::filter);
        }
        while i < self.entries.len()
            invariant
                i <= self.entries.len(),
                ev == view_entries(self.entries@),
                id@ == component_id@,
                p == (|e: ToolEntryView| e.component == component_id@),
                out@.map_values(|v: JsonValue| v@) =~= ev.subrange(0, i as int).filter(p).map_values(
                    |e: ToolEntryView| e.schema,
                ),
            decreases self.entries.len() - i,
        {
            proof {
                lemma_filter_step(ev, i as int, p);
            }
            assert(ev[i as int] == self.entries@[i as int]@);
            let ghost before = out@;
            if self.entries[i].component_id == id {
                out.push(self.entries[i].schema.duplicate());
                assert(out@.map_values(|v: JsonValue| v@) =~= before.map_values(|v: JsonValue| v@).push(
                    ev[i as int].schema,
                ));
                assert(ev.subrange(0, i + 1).filter(p).map_values(|e: ToolEntryView| e.schema) =~= ev.subrange(
                    0,
                    i as int,
                ).filter(p).map_values(|e: ToolEntryView| e.schema).push(ev[i as int].schema));
            }
            i = i + 1;
        }
        assert(ev.subrange(0, ev.len() as int) =~= ev);
        out
    }

    /// The schemas of all registered tools.
    pub fn list_tools(&self) -> (r: Vec<JsonValue>)
        ensures
            r@.map_values(|v: JsonValue| v@) == all_schemas(self@),
    {
        let mut out: Vec<JsonValue> = Vec::new();
        let mut i: usize = 0;
        while i < self.entries.len()
            invariant
                i <= self.entries.len(),
                all_schemas(self@).len() == self.entries.len(),
                out@.map_values(|v: JsonValue| v@) =~= all_schemas(self@).subrange(0, i as int),
            decreases self.entries.len() - i,
        {
            assert(all_schemas(self@)[i as int] == self.entries@[i as int].schema@);
            let ghost before = out@;
            out.push(self.entries[i].schema.duplicate());
            assert(out@.map_values(|v: JsonValue| v@) =~= before.map_values(|v: JsonValue| v@).push(
                all_schemas(self@)[i as int],
            ));
            i = i + 1;
        }
        out
    }
}

/// When nothing before position `k` passes `p` and `s[k]` does, `s[k]` is
/// the first element of the filtered sequence.
proof fn lemma_filter_prefix_first<A>(s: Seq<A>, k: int, p: spec_fn(A) -> bool)
    requires
        0 <= k < s.len(),
        s.subrange(0, k).filter(p).len() == 0,
        p(s[k]),
    ensures
        s.filter(p).len() > 0,
        s.filter(p)[0] == s[k],
{
    lemma_filter_step(s, k, p);
    lemma_filter_prefix_grow(s, k + 1, p, s[k]);
}

/// Filtering a longer prefix keeps the first element of a non-empty filtered prefix.
proof fn lemma_filter_prefix_grow<A>(s: Seq<A>, n: int, p: spec_fn(A) -> bool, x: A)
    requires
        0 < n <= s.len(),
        s.subrange(0, n).filter(p).len() > 0,
        s.subrange(0, n).filter(p)[0] == x,
    ensures
        s.filter(p).len() > 0,
        s.filter(p)[0] == x,
    decreases s.len() - n,
{
    if n == s.len() {
        assert(s.subrange(0, n) =~= s);
    } else {
        lemma_filter_step(s, n, p);
        lemma_filter_prefix_grow(s, n + 1, p, x);
    }
}

} // verus!
