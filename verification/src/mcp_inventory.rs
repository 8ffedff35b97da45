//! The inventory of MCP servers.
use vstd::prelude::*;
use crate::name_map::NameMap;

verus! {

// ---------------------------------------------------------------------------
// Reading the inventory page by page
// ---------------------------------------------------------------------------

/// How many servers are asked for at once.
pub const MCP_STATUS_PAGE_LIMIT: u32 = 100;

/// The pages of an inventory that were read so far.
pub struct McpStatusPager<S> {
    /// Where the next page begins; `None` for the first one.
    pub cursor: Option<String>,
    pub statuses: Vec<S>,
}

impl<S> McpStatusPager<S> {
    /// Nothing read yet.
    pub fn new() -> (r: Self)
        ensures
            r.cursor is None,
            r.statuses@ == Seq::<S>::empty(),
    {
        McpStatusPager { cursor: None, statuses: Vec::new() }
    }

    /// Takes up a page; whether it was the last one.
    pub fn on_page(&mut self, data: Vec<S>, next_cursor: Option<String>) -> (done: bool)
        ensures
            final(self).statuses@ == old(self).statuses@ + data@,
            done == (next_cursor is None),
            !done ==> final(self).cursor == next_cursor,
            done ==> final(self).cursor == old(self).cursor,
    {
        let mut data = data;
        self.statuses.append(&mut data);
        if next_cursor.is_some() {
            self.cursor = next_cursor;
            false
        } else {
            true
        }
    }
}

// ---------------------------------------------------------------------------
// What is shown of the inventory
// ---------------------------------------------------------------------------

/// What is shown once the inventory is there.
#[derive(Clone, Debug, PartialEq, Eq)]
pub enum McpInventoryOutcome {
    /// This error.
    Error { message: String },
    /// That there are no servers.
    Empty,
    /// The servers.
    Listing,
}

/// What is shown once the inventory is there, or could not be read: that there are no servers where
/// neither the configuration nor the inventory has one.
pub fn handle_mcp_inventory_result<S>(
    result: &Result<Vec<S>, String>,
    configured_servers: usize,
) -> (r: McpInventoryOutcome)
    ensures
        match *result {
            Err(err) => r matches McpInventoryOutcome::Error { message } && message@
                == "Failed to load MCP inventory: "@ + err@,
            Ok(statuses) => if configured_servers == 0 && statuses@.len() == 0 {
                r is Empty
            } else {
                r is Listing
            },
        },
{
    match result {
        Err(err) => {
            let mut message = "Failed to load MCP inventory: ".to_owned();
            message.append(err.as_str());
            McpInventoryOutcome::Error { message }
        },
        Ok(statuses) => {
            if configured_servers == 0 && statuses.is_empty() {
                McpInventoryOutcome::Empty
            } else {
                McpInventoryOutcome::Listing
            }
        },
    }
}

/// Takes the last cell that shows that the inventory is being read out of a transcript; `loading`
/// tells of each cell whether it is one. Whether there was one.
pub fn clear_committed_mcp_inventory_loading<C>(
    cells: &mut Vec<C>,
    loading: &Vec<bool>,
) -> (removed: bool)
    requires
        old(cells)@.len() == loading@.len(),
    ensures
        removed == loading@.contains(true),
        !removed ==> final(cells)@ == old(cells)@,
        removed ==> exists|k: int|
            0 <= k < loading@.len() && loading@[k] && (forall|j: int|
                k < j < loading@.len() ==> !#[trigger] loading@[j]) && final(cells)@
                == #[trigger] old(cells)@.remove(k),
{
    let mut i: usize = loading.len();
    while i > 0
        invariant
            i <= loading@.len() == cells@.len(),
            cells@ == old(cells)@,
            forall|j: int| i <= j < loading@.len() ==> !#[trigger] loading@[j],
        decreases i,
    {
        if loading[i - 1] {
            proof {
                assert(loading@[i - 1] == true);
                assert(loading@.contains(true));
            }
            cells.remove(i - 1);
            return true;
        }
        i -= 1;
    }
    false
}

// ---------------------------------------------------------------------------
// The inventory by server
// ---------------------------------------------------------------------------

/// How a server is authenticated to.
#[derive(Clone, Copy, Debug, PartialEq, Eq, Structural)]
pub enum McpAuthStatus {
    Unsupported,
    NotLoggedIn,
    BearerToken,
    OAuth,
}

/// A server: its tools by name, its resources and templates, and how it is authenticated to.
pub struct McpServerStatus<T, R, P> {
    pub name: String,
    pub tools: Vec<(String, T)>,
    pub resources: Vec<R>,
    pub resource_templates: Vec<P>,
    pub auth_status: McpAuthStatus,
}

/// The inventory by the names of tools and servers.
pub struct McpInventoryMaps<T, R, P> {
    pub tools: NameMap<T>,
    pub resources: NameMap<Vec<R>>,
    pub resource_templates: NameMap<Vec<P>>,
    pub auth_statuses: NameMap<McpAuthStatus>,
}

/// The name of a tool among those of all servers.
pub open spec fn qualified_name(server: Seq<char>, tool: Seq<char>) -> Seq<char> {
    "mcp__"@ + server + "__"@ + tool
}

/// The tools of a server among those of all servers, put in after `before`.
pub open spec fn tools_with<T>(
    before: Map<Seq<char>, T>,
    server: Seq<char>,
    tools: Seq<(String, T)>,
) -> Map<Seq<char>, T>
    decreases tools.len(),
{
    if tools.len() == 0 {
        before
    } else {
        tools_with(before, server, tools.drop_last()).insert(
            qualified_name(server, tools.last().0@),
            tools.last().1,
        )
    }
}

/// The tools of all servers.
pub open spec fn all_tools<T, R, P>(statuses: Seq<McpServerStatus<T, R, P>>) -> Map<Seq<char>, T>
    decreases statuses.len(),
{
    if statuses.len() == 0 {
        Map::empty()
    } else {
        tools_with(
            all_tools(statuses.drop_last()),
            statuses.last().name@,
            statuses.last().tools@,
        )
    }
}

/// What each server has, by its name; of servers with one name, what the last one has.
pub open spec fn by_server<T, R, P, V>(
    statuses: Seq<McpServerStatus<T, R, P>>,
    f: spec_fn(McpServerStatus<T, R, P>) -> V,
) -> Map<Seq<char>, V>
    decreases statuses.len(),
{
    if statuses.len() == 0 {
        Map::empty()
    } else {
        by_server(statuses.drop_last(), f).insert(statuses.last().name@, f(statuses.last()))
    }
}

/// The resources of a server.
pub open spec fn resources_of<T, R, P>() -> spec_fn(McpServerStatus<T, R, P>) -> Vec<R> {
    |status: McpServerStatus<T, R, P>| status.resources
}

/// The templates of a server.
pub open spec fn templates_of<T, R, P>() -> spec_fn(McpServerStatus<T, R, P>) -> Vec<P> {
    |status: McpServerStatus<T, R, P>| status.resource_templates
}

/// How a server is authenticated to.
pub open spec fn auth_of<T, R, P>() -> spec_fn(McpServerStatus<T, R, P>) -> McpAuthStatus {
    |status: McpServerStatus<T, R, P>| status.auth_status
}

fn add_tools<T>(all: &mut NameMap<T>, server: &str, tools: Vec<(String, T)>)
    ensures
        final(all)@ == tools_with(old(all)@, server@, tools@),
{
    let ghost before = all@;
    let ghost entries = tools@;
    let mut tools = tools;
    let ghost mut seen: int = 0;
    proof {
        assert(entries.take(0) =~= Seq::<(String, T)>::empty());
        assert(entries.skip(0) =~= entries);
    }
    while tools.len() > 0
        invariant
            0 <= seen <= entries.len(),
            tools@ == entries.skip(seen),
            all@ == tools_with(before, server@, entries.take(seen)),
        decreases tools@.len(),
    {
        let (name, tool) = tools.remove(0);
        let mut full = "mcp__".to_owned();
        full.append(server);
        full.append("__");
        full.append(name.as_str());
        proof {
            assert(entries.take(seen + 1).drop_last() =~= entries.take(seen));
            assert(entries.take(seen + 1).last() == entries[seen]);
            assert(entries.skip(seen)[0] == entries[seen]);
            assert(tools@ =~= entries.skip(seen + 1));
            seen = seen + 1;
        }
        all.insert(full.as_str(), tool);
    }
    proof {
        assert(entries.take(seen) =~= entries);
    }
}

/// The inventory by the names of tools and servers.
pub fn mcp_inventory_maps_from_statuses<T, R, P>(
    statuses: Vec<McpServerStatus<T, R, P>>,
) -> (r: McpInventoryMaps<T, R, P>)
    ensures
        r.tools@ == all_tools(statuses@),
        r.resources@ == by_server(statuses@, resources_of::<T, R, P>()),
        r.resource_templates@ == by_server(statuses@, templates_of::<T, R, P>()),
        r.auth_statuses@ == by_server(statuses@, auth_of::<T, R, P>()),
{
    let ghost all = statuses@;
    let mut statuses = statuses;
    let mut tools: NameMap<T> = NameMap::new();
    let mut resources: NameMap<Vec<R>> = NameMap::new();
    let mut resource_templates: NameMap<Vec<P>> = NameMap::new();
    let mut auth_statuses: NameMap<McpAuthStatus> = NameMap::new();
    let ghost mut seen: int = 0;
    proof {
        assert(all.take(0) =~= Seq::<McpServerStatus<T, R, P>>::empty());
        assert(all.skip(0) =~= all);
    }
    while statuses.len() > 0
        invariant
            0 <= seen <= all.len(),
            statuses@ == all.skip(seen),
            tools@ == all_tools(all.take(seen)),
            resources@ == by_server(all.take(seen), resources_of::<T, R, P>()),
            resource_templates@ == by_server(all.take(seen), templates_of::<T, R, P>()),
            auth_statuses@ == by_server(all.take(seen), auth_of::<T, R, P>()),
        decreases statuses@.len(),
    {
        let status = statuses.remove(0);
        proof {
            assert(all.take(seen + 1).drop_last() =~= all.take(seen));
            assert(all.take(seen + 1).last() == all[seen]);
            assert(all.skip(seen)[0] == all[seen]);
            assert(statuses@ =~= all.skip(seen + 1));
            seen = seen + 1;
        }
        let name = status.name;
        auth_statuses.insert(name.as_str(), status.auth_status);
        resources.insert(name.as_str(), status.resources);
        resource_templates.insert(name.as_str(), status.resource_templates);
        add_tools(&mut tools, name.as_str(), status.tools);
    }
    proof {
        assert(all.take(seen) =~= all);
    }
    McpInventoryMaps { tools, resources, resource_templates, auth_statuses }
}

// ---------------------------------------------------------------------------
// Laws of the inventory
// ---------------------------------------------------------------------------

proof fn lemma_by_server<T, R, P, V>(
    statuses: Seq<McpServerStatus<T, R, P>>,
    f: spec_fn(McpServerStatus<T, R, P>) -> V,
    k: int,
)
    requires
        0 <= k < statuses.len(),
        forall|j: int|
            k < j < statuses.len() ==> #[trigger] statuses[j].name@ != statuses[k].name@,
    ensures
        by_server(statuses, f).dom().contains(statuses[k].name@),
        by_server(statuses, f)[statuses[k].name@] == f(statuses[k]),
    decreases statuses.len(),
{
    let init = statuses.drop_last();
    let n = init.len() as int;
    assert(statuses[n] == statuses.last());
    if k < n {
        assert(statuses[n].name@ != statuses[k].name@);
        assert forall|j: int| k < j < init.len() implies #[trigger] init[j].name@
            != init[k].name@ by {
            assert(statuses[j].name@ != statuses[k].name@);
        }
        lemma_by_server(init, f, k);
    }
}

proof fn lemma_no_server<T, R, P, V>(
    statuses: Seq<McpServerStatus<T, R, P>>,
    f: spec_fn(McpServerStatus<T, R, P>) -> V,
    name: Seq<char>,
)
    requires
        forall|j: int| 0 <= j < statuses.len() ==> #[trigger] statuses[j].name@ != name,
    ensures
        !by_server(statuses, f).dom().contains(name),
    decreases statuses.len(),
{
    if statuses.len() > 0 {
        let init = statuses.drop_last();
        assert forall|j: int| 0 <= j < init.len() implies #[trigger] init[j].name@ != name by {
            assert(statuses[j].name@ != name);
        }
        assert(statuses[init.len() as int].name@ != name);
        lemma_no_server(init, f, name);
    }
}

/// Under the name of a server stand its resources, its templates and how it is authenticated to,
/// those of the last server of that name; no other name is there.
pub proof fn law_servers<T, R, P>(
    statuses: Seq<McpServerStatus<T, R, P>>,
    k: int,
    name: Seq<char>,
)
    requires
        0 <= k < statuses.len(),
        forall|j: int|
            k < j < statuses.len() ==> #[trigger] statuses[j].name@ != statuses[k].name@,
        forall|j: int| 0 <= j < statuses.len() ==> #[trigger] statuses[j].name@ != name,
    ensures
        ({
            let r = by_server(statuses, resources_of::<T, R, P>());
            &&& r.dom().contains(statuses[k].name@)
            &&& r[statuses[k].name@] == statuses[k].resources
            &&& !r.dom().contains(name)
        }),
        ({
            let r = by_server(statuses, templates_of::<T, R, P>());
            &&& r.dom().contains(statuses[k].name@)
            &&& r[statuses[k].name@] == statuses[k].resource_templates
            &&& !r.dom().contains(name)
        }),
        ({
            let r = by_server(statuses, auth_of::<T, R, P>());
            &&& r.dom().contains(statuses[k].name@)
            &&& r[statuses[k].name@] == statuses[k].auth_status
            &&& !r.dom().contains(name)
        }),
{
    lemma_by_server(statuses, resources_of::<T, R, P>(), k);
    lemma_by_server(statuses, templates_of::<T, R, P>(), k);
    lemma_by_server(statuses, auth_of::<T, R, P>(), k);
    lemma_no_server(statuses, resources_of::<T, R, P>(), name);
    lemma_no_server(statuses, templates_of::<T, R, P>(), name);
    lemma_no_server(statuses, auth_of::<T, R, P>(), name);
}

/// Whether the tool with the index `t` of a server goes by the name `name` among those of all.
pub open spec fn goes_by<T, R, P>(
    status: McpServerStatus<T, R, P>,
    t: int,
    name: Seq<char>,
) -> bool {
    0 <= t < status.tools@.len() && name == "mcp__"@ + status.name@ + "__"@ + status.tools@[t].0@
}

proof fn lemma_tools_with<T>(
    before: Map<Seq<char>, T>,
    server: Seq<char>,
    tools: Seq<(String, T)>,
    name: Seq<char>,
)
    ensures
        ({
            let after = tools_with(before, server, tools);
            let q = |t: int| "mcp__"@ + server + "__"@ + tools[t].0@;
            &&& (forall|t: int| 0 <= t < tools.len() ==> #[trigger] q(t) != name) ==> (
            after.dom().contains(name) <==> before.dom().contains(name)) && (
            before.dom().contains(name) ==> after[name] == before[name])
            &&& forall|t: int|
                0 <= t < tools.len() && #[trigger] q(t) == name ==> after.dom().contains(name)
            &&& forall|t: int|
                0 <= t < tools.len() && #[trigger] q(t) == name && (forall|u: int|
                    t < u < tools.len() ==> #[trigger] q(u) != name) ==> after[name] == tools[t].1
        }),
    decreases tools.len(),
{
    let after = tools_with(before, server, tools);
    let q = |t: int| "mcp__"@ + server + "__"@ + tools[t].0@;
    if tools.len() > 0 {
        let init = tools.drop_last();
        let n = init.len() as int;
        let qi = |t: int| "mcp__"@ + server + "__"@ + init[t].0@;
        lemma_tools_with(before, server, init, name);
        assert forall|t: int| 0 <= t < n implies #[trigger] qi(t) == q(t) by {}
        assert(q(n) == qualified_name(server, tools.last().0@));
        if forall|t: int| 0 <= t < tools.len() ==> #[trigger] q(t) != name {
            assert forall|t: int| 0 <= t < n implies #[trigger] qi(t) != name by {
                assert(q(t) != name);
            }
            assert(q(n) != name);
        }
        assert forall|t: int| 0 <= t < tools.len() && #[trigger] q(t)
            == name implies after.dom().contains(name) by {
            if t < n {
                assert(qi(t) == name);
            }
        }
        assert forall|t: int|
            0 <= t < tools.len() && #[trigger] q(t) == name && (forall|u: int|
                t < u < tools.len() ==> #[trigger] q(u) != name) implies after[name]
            == tools[t].1 by {
            if t < n {
                assert(qi(t) == name);
                assert(q(n) != name);
                assert forall|u: int| t < u < n implies #[trigger] qi(u) != name by {
                    assert(q(u) != name);
                }
            }
        }
    }
}

/// Each tool is there under the name of its server and its own; of those that go by one name the
/// last one is. No other name is there.
pub proof fn law_tools<T, R, P>(
    statuses: Seq<McpServerStatus<T, R, P>>,
    name: Seq<char>,
    k: int,
    t: int,
)
    ensures
        (forall|s: int, u: int|
            0 <= s < statuses.len() ==> !#[trigger] goes_by(statuses[s], u, name)) ==> !all_tools(
            statuses,
        ).dom().contains(name),
        0 <= k < statuses.len() && goes_by(statuses[k], t, name) ==> all_tools(
            statuses,
        ).dom().contains(name),
        0 <= k < statuses.len() && goes_by(statuses[k], t, name) && (forall|s: int, u: int|
            (k < s < statuses.len() || s == k && u > t) ==> !#[trigger] goes_by(
                statuses[s],
                u,
                name,
            )) ==> all_tools(statuses)[name] == statuses[k].tools@[t].1,
    decreases statuses.len(),
{
    if statuses.len() > 0 {
        let init = statuses.drop_last();
        let n = init.len() as int;
        let last = statuses.last();
        assert(statuses[n] == last);
        law_tools(init, name, k, t);
        lemma_tools_with(all_tools(init), last.name@, last.tools@, name);
        let q = |u: int| "mcp__"@ + last.name@ + "__"@ + last.tools@[u].0@;
        assert forall|u: int| 0 <= u < last.tools@.len() implies (#[trigger] q(u) == name
            <==> goes_by(last, u, name)) by {}
        if forall|s: int, u: int|
            0 <= s < statuses.len() ==> !#[trigger] goes_by(statuses[s], u, name) {
            assert forall|s: int, u: int| 0 <= s < init.len() implies !#[trigger] goes_by(
                init[s],
                u,
                name,
            ) by {
                assert(!goes_by(statuses[s], u, name));
            }
            assert forall|u: int| 0 <= u < last.tools@.len() implies #[trigger] q(u) != name by {
                assert(!goes_by(statuses[n], u, name));
            }
        }
        if 0 <= k < statuses.len() && goes_by(statuses[k], t, name) {
            if k == n {
                assert(q(t) == name);
                if forall|s: int, u: int|
                    (k < s < statuses.len() || s == k && u > t) ==> !#[trigger] goes_by(
                        statuses[s],
                        u,
                        name,
                    ) {
                    assert forall|u: int| t < u < last.tools@.len() implies #[trigger] q(u)
                        != name by {
                        assert(!goes_by(statuses[k], u, name));
                    }
                }
            } else {
                assert(init[k] == statuses[k]);
                if exists|u: int| 0 <= u < last.tools@.len() && #[trigger] q(u) == name {
                    let u = choose|u: int| 0 <= u < last.tools@.len() && #[trigger] q(u) == name;
                    assert(goes_by(statuses[n], u, name));
                }
                if forall|s: int, u: int|
                    (k < s < statuses.len() || s == k && u > t) ==> !#[trigger] goes_by(
                        statuses[s],
                        u,
                        name,
                    ) {
                    assert forall|s: int, u: int|
                        (k < s < init.len() || s == k && u > t) implies !#[trigger] goes_by(
                        init[s],
                        u,
                        name,
                    ) by {
                        assert(!goes_by(statuses[s], u, name));
                    }
                    assert forall|u: int| 0 <= u < last.tools@.len() implies #[trigger] q(u)
                        != name by {
                        assert(!goes_by(statuses[n], u, name));
                    }
                }
            }
        }
    }
}

} // verus!
