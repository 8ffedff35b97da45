//! Plugins, their marketplaces, and hooks.
use vstd::prelude::*;
use crate::json::{json_bool, json_object, json_text, json_tree, members_of, JsonTree};
use crate::name_map::NameMap;
use crate::paths::{
    components, is_absolute_path, part_views, path_parts, paths_equal, same_path, Part, PathPart,
};
use crate::text::{
    begins_with, join, joined, last_index, lemma_last_index, lemma_take_push, lemma_texts_push,
    rsplit_once, same_text, starts_with, texts,
};

verus! {

// ---------------------------------------------------------------------------
// Switching plugins and hooks on and off
// ---------------------------------------------------------------------------

/// The writes that are under way: under the name of each plugin or hook that is being written, what
/// is to be written next, where that is known.
pub struct PendingWrites {
    pub pending_plugin_enabled_writes: NameMap<Option<bool>>,
    pub pending_hook_enabled_writes: NameMap<Option<bool>>,
}

/// The writes after a wish: where the name is being written already, the wish waits, and takes the
/// place of one that waits; else a write is begun.
pub open spec fn after_wish(
    pending: Map<Seq<char>, Option<bool>>,
    name: Seq<char>,
    enabled: bool,
) -> Map<Seq<char>, Option<bool>> {
    if pending.dom().contains(name) {
        pending.insert(name, Some(enabled))
    } else {
        pending.insert(name, None)
    }
}

fn wish(pending: &mut NameMap<Option<bool>>, name: &str, enabled: bool) -> (begin: bool)
    ensures
        final(pending)@ == after_wish(old(pending)@, name@, enabled),
        begin == !old(pending)@.dom().contains(name@),
{
    if pending.contains(name) {
        pending.insert(name, Some(enabled));
        return false;
    }
    pending.insert(name, None);
    true
}

impl PendingWrites {
    /// No write is under way.
    pub fn new() -> (r: Self)
        ensures
            r.pending_plugin_enabled_writes@ == Map::<Seq<char>, Option<bool>>::empty(),
            r.pending_hook_enabled_writes@ == Map::<Seq<char>, Option<bool>>::empty(),
    {
        PendingWrites {
            pending_plugin_enabled_writes: NameMap::new(),
            pending_hook_enabled_writes: NameMap::new(),
        }
    }

    /// Takes up the wish to switch a plugin; whether the write is to be begun now.
    pub fn set_plugin_enabled(&mut self, plugin_id: &str, enabled: bool) -> (begin: bool)
        ensures
            final(self).pending_plugin_enabled_writes@ == after_wish(
                old(self).pending_plugin_enabled_writes@,
                plugin_id@,
                enabled,
            ),
            final(self).pending_hook_enabled_writes == old(self).pending_hook_enabled_writes,
            begin == !old(self).pending_plugin_enabled_writes@.dom().contains(plugin_id@),
    {
        wish(&mut self.pending_plugin_enabled_writes, plugin_id, enabled)
    }

    /// Takes up the wish to switch a hook; whether the write is to be begun now.
    pub fn set_hook_enabled(&mut self, key: &str, enabled: bool) -> (begin: bool)
        ensures
            final(self).pending_hook_enabled_writes@ == after_wish(
                old(self).pending_hook_enabled_writes@,
                key@,
                enabled,
            ),
            final(self).pending_plugin_enabled_writes == old(self).pending_plugin_enabled_writes,
            begin == !old(self).pending_hook_enabled_writes@.dom().contains(key@),
    {
        wish(&mut self.pending_hook_enabled_writes, key, enabled)
    }
}

/// Of two wishes for one name while a write is under way, the later one waits; wishes for other
/// names are left alone.
pub proof fn law_latest_wish(
    pending: Map<Seq<char>, Option<bool>>,
    name: Seq<char>,
    first: bool,
    second: bool,
    other: Seq<char>,
)
    requires
        pending.dom().contains(name),
        other != name,
    ensures
        after_wish(after_wish(pending, name, first), name, second) == after_wish(
            pending,
            name,
            second,
        ),
        after_wish(pending, name, first).dom().contains(other) <==> pending.dom().contains(other),
        pending.dom().contains(other) ==> after_wish(pending, name, first)[other]
            == pending[other],
{
    assert(after_wish(after_wish(pending, name, first), name, second) =~= after_wish(
        pending,
        name,
        second,
    ));
}

/// An edit of the configuration: a value that is put under a path of keys, into what is there.
pub struct ConfigEdit {
    pub key_path: String,
    pub value: serde_json::Value,
}

fn object_of(key: &str, value: serde_json::Value) -> (r: serde_json::Value)
    ensures
        json_tree(r) == JsonTree::Object(map![key@ => json_tree(value)]),
{
    let mut entries: Vec<(String, serde_json::Value)> = Vec::new();
    entries.push((key.to_owned(), value));
    proof {
        assert(entries@.drop_last() =~= Seq::<(String, serde_json::Value)>::empty());
        assert(members_of(entries@.drop_last()) == Map::<Seq<char>, JsonTree>::empty());
    }
    json_object(entries)
}

/// The edit that switches a plugin.
pub fn write_plugin_enabled(plugin_id: &str, enabled: bool) -> (r: ConfigEdit)
    ensures
        r.key_path@ == "plugins."@ + plugin_id@,
        json_tree(r.value) == JsonTree::Object(map!["enabled"@ => JsonTree::Bool(enabled)]),
{
    let mut key_path = "plugins.".to_owned();
    key_path.append(plugin_id);
    ConfigEdit { key_path, value: object_of("enabled", json_bool(enabled)) }
}

/// The edit that switches a hook.
pub fn write_hook_enabled(key: &str, enabled: bool) -> (r: ConfigEdit)
    ensures
        r.key_path@ == "hooks.state"@,
        json_tree(r.value) == JsonTree::Object(
            map![key@ => JsonTree::Object(map!["enabled"@ => JsonTree::Bool(enabled)])],
        ),
{
    ConfigEdit {
        key_path: "hooks.state".to_owned(),
        value: object_of(key, object_of("enabled", json_bool(enabled))),
    }
}

/// The edit that trusts a hook as it is now.
pub fn write_hook_trust(key: &str, current_hash: &str) -> (r: ConfigEdit)
    ensures
        r.key_path@ == "hooks.state"@,
        json_tree(r.value) == JsonTree::Object(
            map![
                key@ => JsonTree::Object(map!["trusted_hash"@ => JsonTree::Text(current_hash@)]),
            ],
        ),
{
    ConfigEdit {
        key_path: "hooks.state".to_owned(),
        value: object_of(key, object_of("trusted_hash", json_text(current_hash))),
    }
}

// ---------------------------------------------------------------------------
// Hooks that need a review
// ---------------------------------------------------------------------------

/// Whether a hook is trusted.
#[derive(Clone, Copy, Debug, PartialEq, Eq, Structural)]
pub enum HookTrustStatus {
    Untrusted,
    Modified,
    /// Nothing that asks for a review.
    Other,
}

/// The hooks of a directory, by whether they are trusted.
#[derive(Clone, Debug, PartialEq, Eq)]
pub struct HooksEntry {
    pub cwd: String,
    pub hooks: Vec<HookTrustStatus>,
}

/// Whether a hook needs a review.
pub open spec fn needs_review() -> spec_fn(HookTrustStatus) -> bool {
    |status: HookTrustStatus|
        status == HookTrustStatus::Untrusted || status == HookTrustStatus::Modified
}

/// How many hooks of a directory need a review, by the first entry for it.
pub open spec fn review_count(entries: Seq<HooksEntry>, cwd: Seq<char>) -> nat
    decreases entries.len(),
{
    if entries.len() == 0 {
        0
    } else if same_path(entries[0].cwd@, cwd) {
        entries[0].hooks@.filter(needs_review()).len()
    } else {
        review_count(entries.drop_first(), cwd)
    }
}

fn count_for_review(hooks: &Vec<HookTrustStatus>) -> (n: usize)
    ensures
        n == hooks@.filter(needs_review()).len(),
{
    let mut n: usize = 0;
    let mut i: usize = 0;
    proof {
        reveal(Seq::filter);
        assert(hooks@.take(0) =~= Seq::<HookTrustStatus>::empty());
    }
    while i < hooks.len()
        invariant
            i <= hooks@.len(),
            n <= i,
            n == hooks@.take(i as int).filter(needs_review()).len(),
        decreases hooks@.len() - i,
    {
        proof {
            lemma_take_push(hooks@, i as int);
            crate::text::lemma_filter_push(
                hooks@.take(i as int),
                hooks@[i as int],
                needs_review(),
            );
        }
        match hooks[i] {
            HookTrustStatus::Untrusted | HookTrustStatus::Modified => {
                n += 1;
            },
            HookTrustStatus::Other => {},
        }
        i += 1;
    }
    proof {
        assert(hooks@.take(hooks@.len() as int) =~= hooks@);
    }
    n
}

/// How many hooks of a directory need a review.
pub fn hooks_needing_review(entries: &Vec<HooksEntry>, cwd: &str) -> (n: usize)
    ensures
        n == review_count(entries@, cwd@),
{
    let mut i: usize = 0;
    proof {
        assert(entries@.skip(0) =~= entries@);
    }
    while i < entries.len()
        invariant
            i <= entries@.len(),
            review_count(entries@.skip(i as int), cwd@) == review_count(entries@, cwd@),
        decreases entries@.len() - i,
    {
        proof {
            assert(entries@.skip(i as int)[0] == entries@[i as int]);
            assert(entries@.skip(i as int).drop_first() =~= entries@.skip(i + 1));
        }
        if paths_equal(entries[i].cwd.as_str(), cwd) {
            return count_for_review(&entries[i].hooks);
        }
        i += 1;
    }
    0
}

// ---------------------------------------------------------------------------
// Marketplaces
// ---------------------------------------------------------------------------

/// A marketplace, with what else is known of it.
#[derive(Clone, Debug, PartialEq, Eq)]
pub struct PluginMarketplaceEntry<D> {
    pub name: String,
    pub details: D,
}

/// The marketplaces that are not shown.
pub open spec fn is_hidden_marketplace(name: Seq<char>) -> bool {
    name == "openai-bundled"@
}

/// The class of marketplaces that are shown.
pub open spec fn shown_marketplace<D>() -> spec_fn(PluginMarketplaceEntry<D>) -> bool {
    |entry: PluginMarketplaceEntry<D>| !is_hidden_marketplace(entry.name@)
}

/// Takes out the marketplaces that are not shown; the others keep their order.
pub fn hide_cli_only_plugin_marketplaces<D>(marketplaces: &mut Vec<PluginMarketplaceEntry<D>>)
    ensures
        final(marketplaces)@ == old(marketplaces)@.filter(shown_marketplace::<D>()),
{
    let ghost all = marketplaces@;
    let ghost mut seen: int = 0;
    let mut i: usize = 0;
    proof {
        reveal(Seq::filter);
        assert(all.take(0) =~= Seq::<PluginMarketplaceEntry<D>>::empty());
        assert(all.skip(0) =~= all);
        assert(marketplaces@ =~= all.take(0).filter(shown_marketplace::<D>()) + all.skip(0));
    }
    while i < marketplaces.len()
        invariant
            0 <= seen <= all.len(),
            i == all.take(seen).filter(shown_marketplace::<D>()).len(),
            marketplaces@ == all.take(seen).filter(shown_marketplace::<D>()) + all.skip(seen),
        decreases all.len() - seen,
    {
        let ghost kept = all.take(seen).filter(shown_marketplace::<D>());
        proof {
            assert(marketplaces@[i as int] == all[seen]);
            lemma_take_push(all, seen);
            crate::text::lemma_filter_push(
                all.take(seen),
                all[seen],
                shown_marketplace::<D>(),
            );
        }
        if same_text(marketplaces[i].name.as_str(), "openai-bundled") {
            marketplaces.remove(i);
            proof {
                assert(marketplaces@ =~= kept + all.skip(seen + 1));
            }
        } else {
            i += 1;
            proof {
                assert(marketplaces@ =~= kept.push(all[seen]) + all.skip(seen + 1));
            }
        }
        proof {
            seen = seen + 1;
        }
    }
    proof {
        assert(seen == all.len());
        assert(all.take(seen) =~= all);
        assert(marketplaces@ =~= all.filter(shown_marketplace::<D>()));
    }
}

/// The source of a marketplace without the version after it, and that version with its mark.
pub open spec fn source_parts(source: Seq<char>) -> (Seq<char>, Seq<char>) {
    let hash = last_index(source, '#');
    let at = last_index(source, '@');
    if hash >= 0 {
        (source.take(hash), source.skip(hash))
    } else if at >= 0 {
        (source.take(at), source.skip(at))
    } else {
        (source, Seq::empty())
    }
}

/// Whether a source is a path relative to the working directory.
pub open spec fn is_relative_source(base: Seq<char>) -> bool {
    ||| base == "."@
    ||| base == ".."@
    ||| begins_with(base, "./"@)
    ||| begins_with(base, "../"@)
    ||| begins_with(base, ".\\"@)
    ||| begins_with(base, "..\\"@)
}

/// The names that lead to a place, from the parts of a path to it.
pub open spec fn resolved_names(parts: Seq<Part>) -> Seq<Seq<char>>
    decreases parts.len(),
{
    if parts.len() == 0 {
        Seq::empty()
    } else {
        let before = resolved_names(parts.drop_last());
        match parts.last() {
            Part::Name(name) => before.push(name),
            Part::Parent => if before.len() > 0 {
                before.drop_last()
            } else {
                before
            },
            _ => before,
        }
    }
}

/// The absolute path that a relative one stands for in a directory, without `.` and `..`.
pub open spec fn resolved_path(cwd: Seq<char>, path: Seq<char>) -> Seq<char> {
    "/"@ + joined(resolved_names(components(cwd) + components(path)), "/"@)
}

/// The source that is sent: a relative path is resolved, and the version stays with it.
pub open spec fn request_source(cwd: Seq<char>, source: Seq<char>) -> Seq<char> {
    let (base, version) = source_parts(source);
    if is_relative_source(base) {
        resolved_path(cwd, base) + version
    } else {
        source
    }
}

fn follow(names: &mut Vec<String>, parts: &Vec<PathPart>, Ghost(before): Ghost<Seq<Part>>)
    requires
        texts(old(names)@) == resolved_names(before),
    ensures
        texts(final(names)@) == resolved_names(before + part_views(parts@)),
{
    let ghost all = part_views(parts@);
    let mut i: usize = 0;
    proof {
        assert(before + all.take(0) =~= before);
    }
    while i < parts.len()
        invariant
            i <= parts@.len(),
            all == part_views(parts@),
            texts(names@) == resolved_names(before + all.take(i as int)),
        decreases parts@.len() - i,
    {
        broadcast use lemma_texts_push;

        let ghost so_far = texts(names@);
        proof {
            let next = before + all.take(i + 1);
            assert(next.drop_last() =~= before + all.take(i as int));
            assert(next.last() == parts@[i as int]@);
            assert(texts(names@).len() == names@.len());
        }
        match &parts[i] {
            PathPart::Name(name) => {
                names.push(name.clone());
            },
            PathPart::Parent => {
                if names.len() > 0 {
                    names.pop();
                    proof {
                        assert(texts(names@) =~= so_far.drop_last());
                    }
                }
            },
            _ => {},
        }
        i += 1;
    }
    proof {
        assert(all.take(parts@.len() as int) =~= all);
    }
}

/// The absolute path that a relative one stands for in a directory, without `.` and `..`.
pub fn resolve_path(cwd: &str, path: &str) -> (r: String)
    requires
        is_absolute_path(cwd@),
    ensures
        r@ == resolved_path(cwd@, path@),
{
    let mut names: Vec<String> = Vec::new();
    proof {
        assert(texts(names@) =~= Seq::<Seq<char>>::empty());
    }
    let cwd_parts = path_parts(cwd);
    follow(&mut names, &cwd_parts, Ghost(Seq::empty()));
    proof {
        assert(Seq::<Part>::empty() + components(cwd@) =~= components(cwd@));
    }
    let parts = path_parts(path);
    follow(&mut names, &parts, Ghost(components(cwd@)));
    let mut out = "/".to_owned();
    out.append(join(&names, "/").as_str());
    out
}

fn relative_source(base: &str) -> (r: bool)
    ensures
        r == is_relative_source(base@),
{
    same_text(base, ".") || same_text(base, "..") || starts_with(base, "./") || starts_with(
        base,
        "../",
    ) || starts_with(base, ".\\") || starts_with(base, "..\\")
}

/// The source that is sent to add a marketplace from the directory `cwd`.
pub fn marketplace_add_source_for_request(cwd: &str, source: String) -> (r: String)
    requires
        is_absolute_path(cwd@),
    ensures
        r@ == request_source(cwd@, source@),
{
    let parts = match rsplit_once(source.as_str(), '#') {
        Some((base, version)) => Some((base, "#", version)),
        None => match rsplit_once(source.as_str(), '@') {
            Some((base, version)) => Some((base, "@", version)),
            None => None,
        },
    };
    proof {
        lemma_last_index(source@, '#');
        lemma_last_index(source@, '@');
        reveal_strlit("#");
        reveal_strlit("@");
    }
    match parts {
        Some((base, mark, version)) => {
            if relative_source(base) {
                let mut out = resolve_path(cwd, base);
                out.append(mark);
                out.append(version);
                proof {
                    let k = base@.len() as int;
                    assert(mark@ + version@ =~= source@.skip(k));
                    assert(resolved_path(cwd@, base@) + mark@ + version@ =~= resolved_path(
                        cwd@,
                        base@,
                    ) + (mark@ + version@));
                }
                return out;
            }
        },
        None => {
            if relative_source(source.as_str()) {
                let out = resolve_path(cwd, source.as_str());
                proof {
                    assert(out@ + Seq::<char>::empty() =~= out@);
                }
                return out;
            }
        },
    }
    source
}

/// The path that a relative source stands for is absolute.
pub proof fn law_resolved_is_absolute(cwd: Seq<char>, path: Seq<char>)
    ensures
        is_absolute_path(resolved_path(cwd, path)),
{
    reveal_strlit("/");
}

// ---------------------------------------------------------------------------
// Laws of wishes, hooks and marketplaces
// ---------------------------------------------------------------------------

/// A first wish begins a write that nothing waits behind; while one is under way, what was wished
/// for last waits.
pub proof fn law_wishes(pending: Map<Seq<char>, Option<bool>>, name: Seq<char>, enabled: bool)
    ensures
        after_wish(pending, name, enabled).dom().contains(name),
        !pending.dom().contains(name) ==> after_wish(pending, name, enabled)[name] == None::<bool>,
        pending.dom().contains(name) ==> after_wish(pending, name, enabled)[name] == Some(enabled),
{
}

/// The hooks that need a review are counted in the first entry for the directory: without a hook
/// there is none, each one more that is untrusted or was modified counts, and every other hook does
/// not. Without an entry there is none.
pub proof fn law_review_count(
    entries: Seq<HooksEntry>,
    k: int,
    more: HooksEntry,
    status: HookTrustStatus,
    cwd: Seq<char>,
)
    requires
        0 <= k < entries.len(),
        forall|i: int| 0 <= i < k ==> !same_path(#[trigger] entries[i].cwd@, cwd),
        same_path(entries[k].cwd@, cwd),
        more.cwd@ == entries[k].cwd@,
        more.hooks@ == entries[k].hooks@.push(status),
    ensures
        entries[k].hooks@.len() == 0 ==> review_count(entries, cwd) == 0,
        status != HookTrustStatus::Other ==> review_count(entries.update(k, more), cwd)
            == review_count(entries, cwd) + 1,
        status == HookTrustStatus::Other ==> review_count(entries.update(k, more), cwd)
            == review_count(entries, cwd),
        review_count(entries.take(k), cwd) == 0,
{
    let changed = entries.update(k, more);
    lemma_review_count(entries, k, cwd);
    assert forall|i: int| 0 <= i < k implies !same_path(#[trigger] changed[i].cwd@, cwd) by {
        assert(changed[i] == entries[i]);
    }
    lemma_review_count(changed, k, cwd);
    let front = entries.take(k);
    assert forall|i: int| 0 <= i < k implies !same_path(#[trigger] front[i].cwd@, cwd) by {
        assert(front[i] == entries[i]);
    }
    lemma_review_count(front, k, cwd);
    crate::text::lemma_filter_push(entries[k].hooks@, status, needs_review());
    if entries[k].hooks@.len() == 0 {
        reveal(Seq::filter);
    }
}

proof fn lemma_review_count(entries: Seq<HooksEntry>, k: int, cwd: Seq<char>)
    requires
        0 <= k <= entries.len(),
        forall|i: int| 0 <= i < k ==> !same_path(#[trigger] entries[i].cwd@, cwd),
        k < entries.len() ==> same_path(entries[k].cwd@, cwd),
    ensures
        k < entries.len() ==> review_count(entries, cwd) == entries[k].hooks@.filter(
            needs_review(),
        ).len(),
        k == entries.len() ==> review_count(entries, cwd) == 0,
    decreases entries.len(),
{
    if k > 0 {
        let rest = entries.drop_first();
        assert(!same_path(entries[0].cwd@, cwd));
        assert forall|i: int| 0 <= i < k - 1 implies !same_path(#[trigger] rest[i].cwd@, cwd) by {
            assert(rest[i] == entries[i + 1]);
        }
        lemma_review_count(rest, k - 1, cwd);
    }
}

/// What is shown of the marketplaces: a marketplace comes last among those that are shown where it
/// comes last, unless it is the bundled one, which is not shown.
pub proof fn law_shown_marketplaces<D>(
    marketplaces: Seq<PluginMarketplaceEntry<D>>,
    entry: PluginMarketplaceEntry<D>,
)
    ensures
        Seq::<PluginMarketplaceEntry<D>>::empty().filter(shown_marketplace::<D>()).len() == 0,
        entry.name@ == "openai-bundled"@ ==> marketplaces.push(entry).filter(
            shown_marketplace::<D>(),
        ) == marketplaces.filter(shown_marketplace::<D>()),
        entry.name@ != "openai-bundled"@ ==> marketplaces.push(entry).filter(
            shown_marketplace::<D>(),
        ) == marketplaces.filter(shown_marketplace::<D>()).push(entry),
{
    reveal(Seq::filter);
    crate::text::lemma_filter_push(marketplaces, entry, shown_marketplace::<D>());
}

/// Where a path leads: a name goes down, `..` takes the last step back, and everything else stays.
pub proof fn law_resolved_names(parts: Seq<Part>, name: Seq<char>)
    ensures
        resolved_names(Seq::empty()).len() == 0,
        resolved_names(parts.push(Part::Name(name))) == resolved_names(parts).push(name),
        resolved_names(parts.push(Part::Name(name)).push(Part::Parent)) == resolved_names(parts),
        resolved_names(parts).len() == 0 ==> resolved_names(parts.push(Part::Parent)).len() == 0,
        resolved_names(parts.push(Part::Current)) == resolved_names(parts),
        resolved_names(parts.push(Part::Root)) == resolved_names(parts),
{
    let down = parts.push(Part::Name(name));
    assert(down.drop_last() =~= parts);
    assert(down.push(Part::Parent).drop_last() =~= down);
    assert(resolved_names(down).drop_last() =~= resolved_names(parts));
    assert(parts.push(Part::Parent).drop_last() =~= parts);
    assert(parts.push(Part::Current).drop_last() =~= parts);
    assert(parts.push(Part::Root).drop_last() =~= parts);
}

proof fn lemma_last_index_is(s: Seq<char>, c: char, k: int)
    requires
        -1 <= k < s.len(),
        k >= 0 ==> s[k] == c,
        forall|i: int| k < i < s.len() ==> #[trigger] s[i] != c,
    ensures
        last_index(s, c) == k,
{
    lemma_last_index(s, c);
}

/// Whether a source begins at the working directory or above it.
pub open spec fn begins_here(source: Seq<char>) -> bool {
    let rest = if source.len() > 0 && source[0] == '.' {
        if source.len() > 1 && source[1] == '.' {
            source.skip(2)
        } else {
            source.skip(1)
        }
    } else {
        source
    };
    rest.len() < source.len() && (rest.len() == 0 || rest[0] == '/' || rest[0] == '\\')
}

/// What is sent for a source: where it begins at the working directory or above it, the absolute
/// path that it stands for, and else the source itself. The version stays as it is: what follows the
/// last `#`, or, in a source without one, the last `@`.
pub proof fn law_request_source(cwd: Seq<char>, base: Seq<char>, version: Seq<char>, mark: char)
    requires
        mark == '#' || mark == '@',
        forall|i: int| 0 <= i < version.len() ==> #[trigger] version[i] != mark && version[i] != '#',
        mark == '@' ==> forall|i: int| 0 <= i < base.len() ==> #[trigger] base[i] != '#',
    ensures
        ({
            let source = base + seq![mark] + version;
            request_source(cwd, source) == if begins_here(base) {
                resolved_path(cwd, base) + seq![mark] + version
            } else {
                source
            }
        }),
{
    let source = base + seq![mark] + version;
    let k = base.len() as int;
    assert(source[k] == mark);
    assert forall|i: int| k < i < source.len() implies #[trigger] source[i] != mark && source[i]
        != '#' by {
        assert(source[i] == version[i - k - 1]);
    }
    lemma_last_index_is(source, mark, k);
    if mark == '@' {
        assert forall|i: int| -1 < i < source.len() implies #[trigger] source[i] != '#' by {
            if i < k {
                assert(source[i] == base[i]);
            }
        }
        lemma_last_index_is(source, '#', -1);
    }
    assert(source.take(k) =~= base);
    assert(source.skip(k) =~= seq![mark] + version);
    lemma_begins_here(base);
    assert(resolved_path(cwd, base) + (seq![mark] + version) =~= resolved_path(cwd, base)
        + seq![mark] + version);
}

/// A source without a version is sent as the absolute path that it stands for, where it begins at
/// the working directory or above it, and else as it is.
pub proof fn law_request_source_alone(cwd: Seq<char>, source: Seq<char>)
    requires
        forall|i: int| 0 <= i < source.len() ==> #[trigger] source[i] != '#' && source[i] != '@',
    ensures
        request_source(cwd, source) == if begins_here(source) {
            resolved_path(cwd, source)
        } else {
            source
        },
{
    lemma_last_index_is(source, '#', -1);
    lemma_last_index_is(source, '@', -1);
    lemma_begins_here(source);
    assert(resolved_path(cwd, source) + Seq::<char>::empty() =~= resolved_path(cwd, source));
}

proof fn lemma_begins_here(base: Seq<char>)
    ensures
        is_relative_source(base) == begins_here(base),
{
    reveal_strlit(".");
    reveal_strlit("..");
    reveal_strlit("./");
    reveal_strlit("../");
    reveal_strlit(".\\");
    reveal_strlit("..\\");
    assert(base == "."@ <==> base =~= "."@);
    assert(base == ".."@ <==> base =~= ".."@);
    lemma_begins_with(base, "./"@);
    lemma_begins_with(base, ".\\"@);
    lemma_begins_with(base, "../"@);
    lemma_begins_with(base, "..\\"@);
}

proof fn lemma_begins_with(s: Seq<char>, t: Seq<char>)
    ensures
        begins_with(s, t) <==> s.len() >= t.len() && forall|i: int|
            0 <= i < t.len() ==> #[trigger] s[i] == t[i],
{
    if begins_with(s, t) {
        assert forall|i: int| 0 <= i < t.len() implies #[trigger] s[i] == t[i] by {
            assert(s.take(t.len() as int)[i] == t[i]);
        }
    }
    if s.len() >= t.len() && forall|i: int| 0 <= i < t.len() ==> #[trigger] s[i] == t[i] {
        assert(s.take(t.len() as int) =~= t);
    }
}

} // verus!
