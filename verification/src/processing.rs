//! The processing pipeline of a target: filter, rename and map steps in the
//! configured order, duplicate removal, merging of same-named groups,
//! channel numbering and counters.

use vstd::prelude::*;
use vstd::string::*;
use crate::filter::{
    ConfigRename, Filter, apply_renames, filter_matches, filter_wf, regex_is_match, regex_is_valid, regex_matches,
    regex_replace, regex_replace_all, regex_valid, rename_text, renames_wf,
};
use crate::model::{ItemField, ProcessingOrder};
use crate::playlist::{
    GroupSpec, HeaderField, ItemSpec, PlaylistGroup, PlaylistItem, XtreamCluster, all_channels, field_value, header_field_value, with_header_field,
    get_field_value, groups_view, items_view, set_field_value, with_field,
};

verus! {

broadcast use vstd::std_specs::hash::group_hash_axioms;

pub struct ConfigTargetOptions {
    pub remove_duplicates: bool,
}

/// How a counter combines its number with the field's text.
#[derive(Debug, Clone, Copy, PartialEq, Eq, Structural)]
pub enum CounterModifier {
    Assign,
    Suffix,
    Prefix,
}

/// A counter of a mapping: numbers the items that match its filter.
pub struct MappingCounter {
    pub filter: Filter,
    pub field: HeaderField,
    pub concat: String,
    pub modifier: CounterModifier,
    /// The next number to hand out.
    pub value: u32,
    /// The width to which numbers are padded with zeros; 0 for none.
    pub padding: u8,
}

pub struct Mapping {
    pub id: String,
    pub t_counter: Option<Vec<MappingCounter>>,
}

pub struct ConfigTarget {
    pub id: u16,
    pub enabled: bool,
    pub name: String,
    pub options: Option<ConfigTargetOptions>,
    pub t_filter: Option<Filter>,
    pub rename: Option<Vec<ConfigRename>>,
    pub processing_order: ProcessingOrder,
    pub t_mapping: Option<Vec<Mapping>>,
    /// Patterns of the group titles whose changes are watched.
    pub t_watch: Option<Vec<String>>,
}

/// The regular expressions of the target's filter and renames compile.
pub open spec fn target_wf(target: ConfigTarget) -> bool {
    &&& match target.t_filter {
        Some(f) => filter_wf(f),
        None => true,
    }
    &&& match target.rename {
        Some(rs) => renames_wf(rs@),
        None => true,
    }
    &&& match target.t_watch {
        Some(ws) => forall|k: int| 0 <= k < ws@.len() ==> regex_valid(#[trigger] ws@[k]@),
        None => true,
    }
}

/// Whether the regular expressions of the target's filter, renames and
/// watch patterns all compile (see [`target_wf`]).
pub fn target_is_wf(t: &ConfigTarget) -> (r: bool)
    ensures
        r == target_wf(*t),
{
    let filter_ok: bool = match &t.t_filter {
        Some(f) => f.is_wf(),
        None => true,
    };
    let renames_ok: bool = match &t.rename {
        Some(rs) => crate::filter::renames_are_wf(rs),
        None => true,
    };
    let watch_ok: bool = match &t.t_watch {
        Some(ws) => {
            let n: usize = ws.len();
            let mut i: usize = 0;
            let mut ok: bool = true;
            while i < n
                invariant
                    n == ws@.len(),
                    i <= n,
                    ok == (forall|k: int| 0 <= k < i ==> regex_valid(#[trigger] ws@[k]@)),
                decreases n - i,
            {
                let v: bool = regex_is_valid(ws[i].as_str());
                ok = ok && v;
                i = i + 1;
            }
            ok
        },
        None => true,
    };
    filter_ok && renames_ok && watch_ok
}

/// Reverses a vector.
pub(crate) fn reversed<T>(v: Vec<T>) -> (r: Vec<T>)
    ensures
        r@ == v@.reverse(),
{
    let ghost orig = v@;
    let mut src: Vec<T> = v;
    let mut out: Vec<T> = Vec::new();
    while src.len() > 0
        invariant
            src@.len() <= orig.len(),
            src@ == orig.take(src@.len() as int),
            out@ == orig.skip(src@.len() as int).reverse(),
        decreases src@.len(),
    {
        let ghost k = src@.len();
        let x: T = src.pop().unwrap();
        assert(src@ =~= orig.take(k - 1));
        out.push(x);
        assert(orig.skip(k - 1).reverse() =~= orig.skip(k as int).reverse().push(orig[k - 1]));
    }
    assert(orig.skip(0) =~= orig);
    out
}

// ---------------------------------------------------------------------------
// Filter
// ---------------------------------------------------------------------------

/// Whether the target's filter keeps an item; without a filter every item
/// is kept.
pub open spec fn target_keeps(f: Option<Filter>, item: ItemSpec) -> bool {
    match f {
        Some(f) => filter_matches(f, item),
        None => true,
    }
}

pub open spec fn filter_items(items: Seq<ItemSpec>, f: Option<Filter>) -> Seq<ItemSpec>
    decreases items.len(),
{
    if items.len() == 0 {
        seq![]
    } else {
        let kept = filter_items(items.drop_last(), f);
        if target_keeps(f, items.last()) {
            kept.push(items.last())
        } else {
            kept
        }
    }
}

/// The filtered playlist: each group with the items the filter keeps,
/// groups left empty dropped.
pub open spec fn spec_filter_playlist(groups: Seq<GroupSpec>, f: Option<Filter>) -> Seq<GroupSpec>
    decreases groups.len(),
{
    if groups.len() == 0 {
        seq![]
    } else {
        let earlier = spec_filter_playlist(groups.drop_last(), f);
        let g = groups.last();
        let kept = filter_items(g.channels, f);
        if kept.len() > 0 {
            earlier.push(GroupSpec { channels: kept, ..g })
        } else {
            earlier
        }
    }
}

fn keeps(f: &Option<Filter>, item: &PlaylistItem) -> (r: bool)
    requires
        match *f {
            Some(f) => filter_wf(f),
            None => true,
        },
    ensures
        r == target_keeps(*f, item@),
{
    match f {
        Some(flt) => flt.filter(item),
        None => true,
    }
}

fn filter_channels(channels: Vec<PlaylistItem>, f: &Option<Filter>) -> (r: Vec<PlaylistItem>)
    requires
        match *f {
            Some(f) => filter_wf(f),
            None => true,
        },
    ensures
        items_view(r@) == filter_items(items_view(channels@), *f),
{
    let ghost orig = items_view(channels@);
    let n: usize = channels.len();
    let mut rest: Vec<PlaylistItem> = reversed(channels);
    let mut out: Vec<PlaylistItem> = Vec::new();
    let mut k: usize = 0;
    while k < n
        invariant
            n == orig.len(),
            k <= n,
            rest@.len() == n - k,
            forall|t: int| 0 <= t < n - k ==> (#[trigger] rest@[t])@ == orig[n - 1 - t],
            items_view(out@) == filter_items(orig.take(k as int), *f),
            match *f {
                Some(f) => filter_wf(f),
                None => true,
            },
        decreases n - k,
    {
        let item: PlaylistItem = rest.pop().unwrap();
        assert(item@ == orig[k as int]);
        assert(orig.take(k + 1).drop_last() =~= orig.take(k as int));
        if keeps(f, &item) {
            out.push(item);
            assert(items_view(out@) =~= filter_items(orig.take(k as int), *f).push(orig[k as int]));
        }
        k = k + 1;
    }
    assert(orig.take(n as int) =~= orig);
    out
}

/// Whether the target's filter keeps an item.
pub fn is_valid(pli: &PlaylistItem, target: &ConfigTarget) -> (r: bool)
    requires
        target_wf(*target),
    ensures
        r == target_keeps(target.t_filter, pli@),
{
    keeps(&target.t_filter, pli)
}

/// Keeps the items that the target's filter accepts and drops groups that
/// end up empty.
pub fn filter_playlist(playlist: Vec<PlaylistGroup>, target: &ConfigTarget) -> (r: Vec<PlaylistGroup>)
    requires
        target_wf(*target),
    ensures
        groups_view(r@) == spec_filter_playlist(groups_view(playlist@), target.t_filter),
{
    let ghost orig = groups_view(playlist@);
    let n: usize = playlist.len();
    let mut rest: Vec<PlaylistGroup> = reversed(playlist);
    let mut out: Vec<PlaylistGroup> = Vec::new();
    let mut k: usize = 0;
    while k < n
        invariant
            n == orig.len(),
            k <= n,
            rest@.len() == n - k,
            forall|t: int| 0 <= t < n - k ==> (#[trigger] rest@[t])@ == orig[n - 1 - t],
            groups_view(out@) == spec_filter_playlist(orig.take(k as int), target.t_filter),
            target_wf(*target),
        decreases n - k,
    {
        let group: PlaylistGroup = rest.pop().unwrap();
        assert(group@ == orig[k as int]);
        assert(orig.take(k + 1).drop_last() =~= orig.take(k as int));
        let PlaylistGroup { id, title, channels, xtream_cluster } = group;
        let kept: Vec<PlaylistItem> = filter_channels(channels, &target.t_filter);
        if kept.len() > 0 {
            let new_group = PlaylistGroup { id, title, channels: kept, xtream_cluster };
            out.push(new_group);
            assert(groups_view(out@) =~= spec_filter_playlist(orig.take(k as int), target.t_filter).push(
                new_group@,
            ));
        }
        k = k + 1;
    }
    assert(orig.take(n as int) =~= orig);
    out
}

// ---------------------------------------------------------------------------
// Rename
// ---------------------------------------------------------------------------

/// An item after the rename rules: each text field rewritten by the rules
/// that address it, in rule order.
pub open spec fn renamed_item(renames: Seq<ConfigRename>, item: ItemSpec) -> ItemSpec {
    ItemSpec {
        group: apply_renames(renames, ItemField::Group, item.group),
        name: apply_renames(renames, ItemField::Name, item.name),
        title: apply_renames(renames, ItemField::Title, item.title),
        url: apply_renames(renames, ItemField::Url, item.url),
        ..item
    }
}

/// Applies the rename rules, in order, to the fields of one item.
pub fn exec_rename(pli: &mut PlaylistItem, rename: Option<&Vec<ConfigRename>>)
    requires
        match rename {
            Some(rs) => renames_wf(rs@),
            None => true,
        },
    ensures
        match rename {
            Some(rs) => final(pli)@ == renamed_item(rs@, old(pli)@),
            None => final(pli)@ == old(pli)@,
        },
{
    match rename {
        Some(renames) => {
            let ghost orig = pli@;
            let n: usize = renames.len();
            let mut i: usize = 0;
            assert(renamed_item(renames@.take(0), orig) =~= orig);
            while i < n
                invariant
                    n == renames@.len(),
                    i <= n,
                    renames_wf(renames@),
                    pli@ == renamed_item(renames@.take(i as int), orig),
                decreases n - i,
            {
                let r: &ConfigRename = &renames[i];
                assert(renames@.take(i + 1).drop_last() =~= renames@.take(i as int));
                let value: &str = get_field_value(pli, r.field);
                assert(crate::filter::regex_valid(renames@[i as int].pattern@));
                let cap: String = regex_replace(r.pattern.as_str(), value, r.new_name.as_str());
                set_field_value(pli, r.field, cap);
                assert(pli@ =~= renamed_item(renames@.take(i + 1), orig));
                i = i + 1;
            }
            assert(renames@.take(n as int) =~= renames@);
        },
        None => {},
    }
}

/// The renamed playlist: group titles rewritten by the rules for the
/// `Group` field, and every item renamed.
pub open spec fn spec_rename_playlist(groups: Seq<GroupSpec>, rename: Option<Vec<ConfigRename>>) -> Seq<GroupSpec> {
    match rename {
        Some(rs) => if rs@.len() > 0 {
            groups.map_values(
                |g: GroupSpec|
                    GroupSpec {
                        title: apply_renames(rs@, ItemField::Group, g.title),
                        channels: g.channels.map_values(|c: ItemSpec| renamed_item(rs@, c)),
                        ..g
                    },
            )
        } else {
            groups
        },
        None => groups,
    }
}

/// Applies the target's rename rules to group titles and items; without
/// rules the playlist is returned unchanged.
pub fn rename_playlist(playlist: Vec<PlaylistGroup>, target: &ConfigTarget) -> (r: Vec<PlaylistGroup>)
    requires
        target_wf(*target),
    ensures
        groups_view(r@) == spec_rename_playlist(groups_view(playlist@), target.rename),
{
    match &target.rename {
        Some(renames) => {
            if renames.len() == 0 {
                return playlist;
            }
            let ghost orig = groups_view(playlist@);
            let ghost rs = renames@;
            let n: usize = playlist.len();
            let mut rest: Vec<PlaylistGroup> = reversed(playlist);
            let mut out: Vec<PlaylistGroup> = Vec::new();
            let mut k: usize = 0;
            while k < n
                invariant
                    n == orig.len(),
                    k <= n,
                    rest@.len() == n - k,
                    forall|t: int| 0 <= t < n - k ==> (#[trigger] rest@[t])@ == orig[n - 1 - t],
                    out@.len() == k,
                    forall|t: int|
                        0 <= t < k ==> (#[trigger] out@[t])@ == spec_rename_playlist(
                            orig,
                            target.rename,
                        )[t],
                    target.rename == Some(*renames),
                    rs == renames@,
                    rs.len() > 0,
                    renames_wf(rs),
                decreases n - k,
            {
                let group: PlaylistGroup = rest.pop().unwrap();
                assert(group@ == orig[k as int]);
                let PlaylistGroup { id, title, channels, xtream_cluster } = group;
                let new_title: String = rename_text(renames, ItemField::Group, title.as_str());
                let new_channels: Vec<PlaylistItem> = rename_channels(channels, renames);
                let new_group = PlaylistGroup { id, title: new_title, channels: new_channels, xtream_cluster };
                out.push(new_group);
                assert(out@[k as int]@ =~= spec_rename_playlist(orig, target.rename)[k as int]);
                k = k + 1;
            }
            assert(groups_view(out@) =~= spec_rename_playlist(orig, target.rename));
            out
        },
        None => playlist,
    }
}

fn rename_channels(channels: Vec<PlaylistItem>, renames: &Vec<ConfigRename>) -> (r: Vec<PlaylistItem>)
    requires
        renames_wf(renames@),
    ensures
        items_view(r@) == items_view(channels@).map_values(|c: ItemSpec| renamed_item(renames@, c)),
{
    let ghost orig = items_view(channels@);
    let n: usize = channels.len();
    let mut rest: Vec<PlaylistItem> = reversed(channels);
    let mut out: Vec<PlaylistItem> = Vec::new();
    let mut k: usize = 0;
    while k < n
        invariant
            n == orig.len(),
            k <= n,
            rest@.len() == n - k,
            forall|t: int| 0 <= t < n - k ==> (#[trigger] rest@[t])@ == orig[n - 1 - t],
            out@.len() == k,
            forall|t: int| 0 <= t < k ==> (#[trigger] out@[t])@ == renamed_item(renames@, orig[t]),
            renames_wf(renames@),
        decreases n - k,
    {
        let mut item: PlaylistItem = rest.pop().unwrap();
        assert(item@ == orig[k as int]);
        exec_rename(&mut item, Some(renames));
        out.push(item);
        k = k + 1;
    }
    assert(items_view(out@) =~= orig.map_values(|c: ItemSpec| renamed_item(renames@, c)));
    out
}

} // verus!

verus! {

// ---------------------------------------------------------------------------
// Regrouping by the items' group names
// ---------------------------------------------------------------------------

/// The position of the first group titled `title`.
pub open spec fn find_group(groups: Seq<GroupSpec>, title: Seq<char>) -> Option<nat>
    decreases groups.len(),
{
    if groups.len() == 0 {
        None
    } else {
        match find_group(groups.drop_last(), title) {
            Some(i) => Some(i),
            None => if groups.last().title == title {
                Some((groups.len() - 1) as nat)
            } else {
                None
            },
        }
    }
}

/// The groups that collect items by their group name, in order of first
/// appearance, numbered from 1; a group takes the cluster of its first
/// item.
pub open spec fn regroup(items: Seq<ItemSpec>) -> Seq<GroupSpec>
    decreases items.len(),
{
    if items.len() == 0 {
        seq![]
    } else {
        let gs = regroup(items.drop_last());
        let c = items.last();
        match find_group(gs, c.group) {
            Some(i) => gs.update(i as int, GroupSpec { channels: gs[i as int].channels.push(c), ..gs[i as int] }),
            None => gs.push(
                GroupSpec {
                    id: (gs.len() + 1) as u32,
                    title: c.group,
                    channels: seq![c],
                    xtream_cluster: c.xtream_cluster,
                },
            ),
        }
    }
}

proof fn lemma_find_group_prefix(groups: Seq<GroupSpec>, title: Seq<char>, k: int)
    requires
        0 <= k <= groups.len(),
        forall|t: int| 0 <= t < k ==> (#[trigger] groups[t]).title != title,
    ensures
        k < groups.len() && groups[k].title == title ==> find_group(groups, title) == Some(k as nat),
        k == groups.len() ==> find_group(groups, title) is None,
    decreases groups.len(),
{
    if groups.len() > 0 {
        if k < groups.len() {
            if groups[k].title == title {
                if k < groups.len() - 1 {
                    lemma_find_group_prefix(groups.drop_last(), title, k);
                } else {
                    lemma_find_group_prefix(groups.drop_last(), title, k);
                }
            }
        } else {
            lemma_find_group_prefix(groups.drop_last(), title, k - 1);
        }
    }
}

proof fn lemma_find_group_bound(groups: Seq<GroupSpec>, title: Seq<char>)
    ensures
        find_group(groups, title) matches Some(i) ==> i < groups.len() && groups[i as int].title == title,
    decreases groups.len(),
{
    if groups.len() > 0 {
        lemma_find_group_bound(groups.drop_last(), title);
    }
}

proof fn lemma_find_group_key_bound(groups: Seq<GroupSpec>, title: Seq<char>, cluster: XtreamCluster)
    ensures
        find_group_key(groups, title, cluster) matches Some(i) ==> i < groups.len(),
    decreases groups.len(),
{
    if groups.len() > 0 {
        lemma_find_group_key_bound(groups.drop_last(), title, cluster);
    }
}

proof fn lemma_regroup_len(items: Seq<ItemSpec>)
    ensures
        regroup(items).len() <= items.len(),
    decreases items.len(),
{
    if items.len() > 0 {
        lemma_regroup_len(items.drop_last());
        let gs = regroup(items.drop_last());
        let c = items.last();
        match find_group(gs, c.group) {
            Some(i) => {
                lemma_find_group_bound(gs, c.group);
                assert(regroup(items).len() == gs.len());
            },
            None => {
                assert(regroup(items).len() == gs.len() + 1);
            },
        }
    }
}

fn find_group_index(groups: &Vec<PlaylistGroup>, title: &str) -> (r: Option<usize>)
    ensures
        match r {
            Some(i) => find_group(groups_view(groups@), title@) == Some(i as nat),
            None => find_group(groups_view(groups@), title@) is None,
        },
{
    let ghost gv = groups_view(groups@);
    let n: usize = groups.len();
    let mut i: usize = 0;
    while i < n
        invariant
            n == gv.len(),
            gv == groups_view(groups@),
            i <= n,
            forall|t: int| 0 <= t < i ==> (#[trigger] gv[t]).title != title@,
        decreases n - i,
    {
        if crate::text::str_eq(groups[i].title.as_str(), title) {
            proof {
                lemma_find_group_prefix(gv, title@, i as int);
            }
            return Some(i);
        }
        i = i + 1;
    }
    proof {
        lemma_find_group_prefix(gv, title@, i as int);
    }
    None
}

/// Collects the items of a playlist into groups named after the items'
/// group names.
pub fn regroup_channels(playlist: Vec<PlaylistGroup>) -> (r: Vec<PlaylistGroup>)
    requires
        all_channels(groups_view(playlist@)).len() < u32::MAX,
    ensures
        groups_view(r@) == regroup(all_channels(groups_view(playlist@))),
{
    let ghost orig = groups_view(playlist@);
    let n: usize = playlist.len();
    let mut rest: Vec<PlaylistGroup> = reversed(playlist);
    let mut out: Vec<PlaylistGroup> = Vec::new();
    let mut k: usize = 0;
    while k < n
        invariant
            n == orig.len(),
            k <= n,
            rest@.len() == n - k,
            forall|t: int| 0 <= t < n - k ==> (#[trigger] rest@[t])@ == orig[n - 1 - t],
            groups_view(out@) == regroup(all_channels(orig.take(k as int))),
            all_channels(orig).len() < u32::MAX,
        decreases n - k,
    {
        let group: PlaylistGroup = rest.pop().unwrap();
        assert(group@ == orig[k as int]);
        assert(orig.take(k + 1).drop_last() =~= orig.take(k as int));
        proof {
            lemma_all_channels_prefix(orig, k + 1);
        }
        let PlaylistGroup { id, title, channels, xtream_cluster } = group;
        out = regroup_append(out, channels, Ghost(all_channels(orig.take(k as int))));
        k = k + 1;
    }
    assert(orig.take(n as int) =~= orig);
    out
}

/// The channels of the first `k` groups are no more than those of all.
pub proof fn lemma_all_channels_prefix(groups: Seq<GroupSpec>, k: int)
    requires
        0 <= k <= groups.len(),
    ensures
        all_channels(groups.take(k)).len() <= all_channels(groups).len(),
    decreases groups.len(),
{
    if k < groups.len() {
        assert(groups.drop_last().take(k) =~= groups.take(k));
        lemma_all_channels_prefix(groups.drop_last(), k);
    } else {
        assert(groups.take(k) =~= groups);
    }
}

fn regroup_append(groups: Vec<PlaylistGroup>, items: Vec<PlaylistItem>, before: Ghost<Seq<ItemSpec>>) -> (r: Vec<PlaylistGroup>)
    requires
        groups_view(groups@) == regroup(before@),
        before@.len() + items@.len() < u32::MAX,
    ensures
        groups_view(r@) == regroup(before@ + items_view(items@)),
{
    let ghost added = items_view(items@);
    let n: usize = items.len();
    let mut rest: Vec<PlaylistItem> = reversed(items);
    let mut out: Vec<PlaylistGroup> = groups;
    let mut k: usize = 0;
    assert(before@ + added.take(0) =~= before@);
    while k < n
        invariant
            n == added.len(),
            k <= n,
            rest@.len() == n - k,
            forall|t: int| 0 <= t < n - k ==> (#[trigger] rest@[t])@ == added[n - 1 - t],
            groups_view(out@) == regroup(before@ + added.take(k as int)),
            before@.len() + n < u32::MAX,
        decreases n - k,
    {
        let item: PlaylistItem = rest.pop().unwrap();
        let ghost seen = before@ + added.take(k as int);
        assert(item@ == added[k as int]);
        assert((before@ + added.take(k + 1)).drop_last() =~= seen);
        assert((before@ + added.take(k + 1)).last() == item@);
        proof {
            lemma_regroup_len(seen);
        }
        match find_group_index(&out, item.header.group.as_str()) {
            Some(i) => {
                proof {
                    lemma_find_group_bound(groups_view(out@), item@.group);
                }
                let ghost gi = out@[i as int]@;
                out[i].channels.push(item);
                assert(items_view(out@[i as int].channels@) =~= gi.channels.push(added[k as int]));
                assert(groups_view(out@) =~~= regroup(seen).update(
                    i as int,
                    GroupSpec { channels: gi.channels.push(added[k as int]), ..gi },
                ));
            },
            None => {
                let new_id: u32 = (out.len() + 1) as u32;
                let title: String = item.header.group.clone();
                let cluster: XtreamCluster = item.header.xtream_cluster;
                let mut chans: Vec<PlaylistItem> = Vec::new();
                chans.push(item);
                let g = PlaylistGroup { id: new_id, title, channels: chans, xtream_cluster: cluster };
                out.push(g);
                assert(items_view(out@.last().channels@) =~= seq![added[k as int]]);
                assert(groups_view(out@) =~= regroup(seen).push(
                    GroupSpec {
                        id: (regroup(seen).len() + 1) as u32,
                        title: added[k as int].group,
                        channels: seq![added[k as int]],
                        xtream_cluster: added[k as int].xtream_cluster,
                    },
                ));
            },
        }
        k = k + 1;
    }
    assert(added.take(n as int) =~= added);
    out
}

// ---------------------------------------------------------------------------
// Merging groups of the same name and cluster
// ---------------------------------------------------------------------------

/// The position of the first group with this title and cluster.
pub open spec fn find_group_key(groups: Seq<GroupSpec>, title: Seq<char>, cluster: XtreamCluster) -> Option<nat>
    decreases groups.len(),
{
    if groups.len() == 0 {
        None
    } else {
        match find_group_key(groups.drop_last(), title, cluster) {
            Some(i) => Some(i),
            None => if groups.last().title == title && groups.last().xtream_cluster == cluster {
                Some((groups.len() - 1) as nat)
            } else {
                None
            },
        }
    }
}

/// Groups with equal title and cluster merged into the first of them, which
/// keeps its place and id and takes the later groups' items at its end.
pub open spec fn merge_groups(groups: Seq<GroupSpec>) -> Seq<GroupSpec>
    decreases groups.len(),
{
    if groups.len() == 0 {
        seq![]
    } else {
        let merged = merge_groups(groups.drop_last());
        let g = groups.last();
        match find_group_key(merged, g.title, g.xtream_cluster) {
            Some(i) => merged.update(
                i as int,
                GroupSpec { channels: merged[i as int].channels + g.channels, ..merged[i as int] },
            ),
            None => merged.push(g),
        }
    }
}

proof fn lemma_find_group_key_prefix(groups: Seq<GroupSpec>, title: Seq<char>, cluster: XtreamCluster, k: int)
    requires
        0 <= k <= groups.len(),
        forall|t: int|
            0 <= t < k ==> !((#[trigger] groups[t]).title == title && groups[t].xtream_cluster
                == cluster),
    ensures
        k < groups.len() && groups[k].title == title && groups[k].xtream_cluster == cluster
            ==> find_group_key(groups, title, cluster) == Some(k as nat),
        k == groups.len() ==> find_group_key(groups, title, cluster) is None,
    decreases groups.len(),
{
    if groups.len() > 0 {
        if k < groups.len() {
            lemma_find_group_key_prefix(groups.drop_last(), title, cluster, k);
        } else {
            lemma_find_group_key_prefix(groups.drop_last(), title, cluster, k - 1);
        }
    }
}

fn find_group_key_index(groups: &Vec<PlaylistGroup>, title: &str, cluster: XtreamCluster) -> (r: Option<usize>)
    ensures
        match r {
            Some(i) => find_group_key(groups_view(groups@), title@, cluster) == Some(i as nat),
            None => find_group_key(groups_view(groups@), title@, cluster) is None,
        },
{
    let ghost gv = groups_view(groups@);
    let n: usize = groups.len();
    let mut i: usize = 0;
    while i < n
        invariant
            n == gv.len(),
            gv == groups_view(groups@),
            i <= n,
            forall|t: int|
                0 <= t < i ==> !((#[trigger] gv[t]).title == title@ && gv[t].xtream_cluster
                    == cluster),
        decreases n - i,
    {
        if groups[i].xtream_cluster == cluster && crate::text::str_eq(groups[i].title.as_str(), title) {
            proof {
                lemma_find_group_key_prefix(gv, title@, cluster, i as int);
            }
            return Some(i);
        }
        i = i + 1;
    }
    proof {
        lemma_find_group_key_prefix(gv, title@, cluster, i as int);
    }
    None
}

/// Merges groups of the same title and cluster, which arise when several
/// inputs deliver a group of the same name.
pub fn flatten_groups(playlistgroups: Vec<PlaylistGroup>) -> (r: Vec<PlaylistGroup>)
    ensures
        groups_view(r@) == merge_groups(groups_view(playlistgroups@)),
{
    let ghost orig = groups_view(playlistgroups@);
    let n: usize = playlistgroups.len();
    let mut rest: Vec<PlaylistGroup> = reversed(playlistgroups);
    let mut out: Vec<PlaylistGroup> = Vec::new();
    let mut k: usize = 0;
    while k < n
        invariant
            n == orig.len(),
            k <= n,
            rest@.len() == n - k,
            forall|t: int| 0 <= t < n - k ==> (#[trigger] rest@[t])@ == orig[n - 1 - t],
            groups_view(out@) == merge_groups(orig.take(k as int)),
        decreases n - k,
    {
        let group: PlaylistGroup = rest.pop().unwrap();
        let ghost g = group@;
        let ghost merged = merge_groups(orig.take(k as int));
        assert(g == orig[k as int]);
        assert(orig.take(k + 1).drop_last() =~= orig.take(k as int));
        match find_group_key_index(&out, group.title.as_str(), group.xtream_cluster) {
            Some(i) => {
                proof {
                    lemma_find_group_key_bound(groups_view(out@), g.title, g.xtream_cluster);
                }
                let PlaylistGroup { id, title, channels, xtream_cluster } = group;
                let mut moved: Vec<PlaylistItem> = channels;
                let ghost gi = out@[i as int]@;
                out[i].channels.append(&mut moved);
                assert(items_view(out@[i as int].channels@) =~= gi.channels + g.channels);
                assert(groups_view(out@) =~~= merged.update(
                    i as int,
                    GroupSpec { channels: gi.channels + g.channels, ..gi },
                ));
            },
            None => {
                out.push(group);
                assert(groups_view(out@) =~= merged.push(g));
            },
        }
        k = k + 1;
    }
    assert(orig.take(n as int) =~= orig);
    out
}

} // verus!

verus! {

// ---------------------------------------------------------------------------
// The pipe
// ---------------------------------------------------------------------------

/// The map step: with mappings configured, the items are collected into
/// groups by their group names (the mapping scripts that may rename those
/// groups are not part of this crate).
pub open spec fn spec_map_playlist(groups: Seq<GroupSpec>, target: ConfigTarget) -> Seq<GroupSpec> {
    if target.t_mapping is Some {
        regroup(all_channels(groups))
    } else {
        groups
    }
}

/// The map step of the pipe.
pub fn map_playlist(playlist: Vec<PlaylistGroup>, target: &ConfigTarget) -> (r: Vec<PlaylistGroup>)
    requires
        all_channels(groups_view(playlist@)).len() < u32::MAX,
    ensures
        groups_view(r@) == spec_map_playlist(groups_view(playlist@), *target),
{
    if target.t_mapping.is_some() {
        regroup_channels(playlist)
    } else {
        playlist
    }
}

#[derive(Debug, Clone, Copy, PartialEq, Eq, Structural)]
pub enum PipeStep {
    FilterPlaylist,
    RenamePlaylist,
    MapPlaylist,
}

/// The steps of a processing order.
pub open spec fn pipe_of(order: ProcessingOrder) -> Seq<PipeStep> {
    match order {
        ProcessingOrder::Frm => seq![PipeStep::FilterPlaylist, PipeStep::RenamePlaylist, PipeStep::MapPlaylist],
        ProcessingOrder::Fmr => seq![PipeStep::FilterPlaylist, PipeStep::MapPlaylist, PipeStep::RenamePlaylist],
        ProcessingOrder::Rfm => seq![PipeStep::RenamePlaylist, PipeStep::FilterPlaylist, PipeStep::MapPlaylist],
        ProcessingOrder::Rmf => seq![PipeStep::RenamePlaylist, PipeStep::MapPlaylist, PipeStep::FilterPlaylist],
        ProcessingOrder::Mfr => seq![PipeStep::MapPlaylist, PipeStep::FilterPlaylist, PipeStep::RenamePlaylist],
        ProcessingOrder::Mrf => seq![PipeStep::MapPlaylist, PipeStep::RenamePlaylist, PipeStep::FilterPlaylist],
    }
}

/// The steps the target's processing order runs, in order.
pub fn get_processing_pipe(target: &ConfigTarget) -> (r: Vec<PipeStep>)
    ensures
        r@ == pipe_of(target.processing_order),
{
    let (a, b, c) = match target.processing_order {
        ProcessingOrder::Frm => (PipeStep::FilterPlaylist, PipeStep::RenamePlaylist, PipeStep::MapPlaylist),
        ProcessingOrder::Fmr => (PipeStep::FilterPlaylist, PipeStep::MapPlaylist, PipeStep::RenamePlaylist),
        ProcessingOrder::Rfm => (PipeStep::RenamePlaylist, PipeStep::FilterPlaylist, PipeStep::MapPlaylist),
        ProcessingOrder::Rmf => (PipeStep::RenamePlaylist, PipeStep::MapPlaylist, PipeStep::FilterPlaylist),
        ProcessingOrder::Mfr => (PipeStep::MapPlaylist, PipeStep::FilterPlaylist, PipeStep::RenamePlaylist),
        ProcessingOrder::Mrf => (PipeStep::MapPlaylist, PipeStep::RenamePlaylist, PipeStep::FilterPlaylist),
    };
    let mut v: Vec<PipeStep> = Vec::new();
    v.push(a);
    v.push(b);
    v.push(c);
    assert(v@ =~= pipe_of(target.processing_order));
    v
}

pub open spec fn apply_stage(stage: PipeStep, groups: Seq<GroupSpec>, target: ConfigTarget) -> Seq<GroupSpec> {
    match stage {
        PipeStep::FilterPlaylist => spec_filter_playlist(groups, target.t_filter),
        PipeStep::RenamePlaylist => spec_rename_playlist(groups, target.rename),
        PipeStep::MapPlaylist => spec_map_playlist(groups, target),
    }
}

/// The playlist after running the steps in order.
pub open spec fn run_pipe(pipe: Seq<PipeStep>, groups: Seq<GroupSpec>, target: ConfigTarget) -> Seq<GroupSpec>
    decreases pipe.len(),
{
    if pipe.len() == 0 {
        groups
    } else {
        apply_stage(pipe.last(), run_pipe(pipe.drop_last(), groups, target), target)
    }
}

proof fn lemma_all_channels_update(groups: Seq<GroupSpec>, i: int, g: GroupSpec)
    requires
        0 <= i < groups.len(),
    ensures
        all_channels(groups.update(i, g)).len() == all_channels(groups).len() - groups[i].channels.len()
            + g.channels.len(),
    decreases groups.len(),
{
    if i < groups.len() - 1 {
        lemma_all_channels_update(groups.drop_last(), i, g);
        assert(groups.update(i, g).drop_last() =~= groups.drop_last().update(i, g));
    } else {
        assert(groups.update(i, g).drop_last() =~= groups.drop_last());
    }
}

proof fn lemma_regroup_count(items: Seq<ItemSpec>)
    ensures
        all_channels(regroup(items)).len() == items.len(),
    decreases items.len(),
{
    if items.len() > 0 {
        lemma_regroup_count(items.drop_last());
        let gs = regroup(items.drop_last());
        let c = items.last();
        lemma_find_group_bound(gs, c.group);
        match find_group(gs, c.group) {
            Some(i) => {
                lemma_all_channels_update(
                    gs,
                    i as int,
                    GroupSpec { channels: gs[i as int].channels.push(c), ..gs[i as int] },
                );
            },
            None => {
                let pushed = gs.push(
                    GroupSpec {
                        id: (gs.len() + 1) as u32,
                        title: c.group,
                        channels: seq![c],
                        xtream_cluster: c.xtream_cluster,
                    },
                );
                assert(pushed.drop_last() =~= gs);
            },
        }
    }
}

proof fn lemma_filter_items_len(items: Seq<ItemSpec>, f: Option<Filter>)
    ensures
        filter_items(items, f).len() <= items.len(),
    decreases items.len(),
{
    if items.len() > 0 {
        lemma_filter_items_len(items.drop_last(), f);
    }
}

proof fn lemma_filter_count(groups: Seq<GroupSpec>, f: Option<Filter>)
    ensures
        all_channels(spec_filter_playlist(groups, f)).len() <= all_channels(groups).len(),
    decreases groups.len(),
{
    if groups.len() > 0 {
        lemma_filter_count(groups.drop_last(), f);
        let g = groups.last();
        lemma_filter_items_len(g.channels, f);
        let earlier = spec_filter_playlist(groups.drop_last(), f);
        let kept = filter_items(g.channels, f);
        if kept.len() > 0 {
            let pushed = earlier.push(GroupSpec { channels: kept, ..g });
            assert(pushed.drop_last() =~= earlier);
        }
    }
}

proof fn lemma_rename_count(groups: Seq<GroupSpec>, rename: Option<Vec<ConfigRename>>)
    ensures
        all_channels(spec_rename_playlist(groups, rename)).len() == all_channels(groups).len(),
    decreases groups.len(),
{
    if groups.len() > 0 {
        lemma_rename_count(groups.drop_last(), rename);
        match rename {
            Some(rs) => {
                if rs@.len() > 0 {
                    assert(spec_rename_playlist(groups, rename).drop_last() =~= spec_rename_playlist(
                        groups.drop_last(),
                        rename,
                    ));
                }
            },
            None => {},
        }
    }
}

/// Applies one step.
pub fn execute_stage(stage: PipeStep, playlist: Vec<PlaylistGroup>, target: &ConfigTarget) -> (r: Vec<PlaylistGroup>)
    requires
        target_wf(*target),
        all_channels(groups_view(playlist@)).len() < u32::MAX,
    ensures
        groups_view(r@) == apply_stage(stage, groups_view(playlist@), *target),
        all_channels(groups_view(r@)).len() <= all_channels(groups_view(playlist@)).len(),
{
    proof {
        lemma_filter_count(groups_view(playlist@), target.t_filter);
        lemma_rename_count(groups_view(playlist@), target.rename);
        lemma_regroup_count(all_channels(groups_view(playlist@)));
    }
    match stage {
        PipeStep::FilterPlaylist => filter_playlist(playlist, target),
        PipeStep::RenamePlaylist => rename_playlist(playlist, target),
        PipeStep::MapPlaylist => map_playlist(playlist, target),
    }
}

/// Items whose duplicate key was seen before are dropped; the keys of the
/// kept items join the seen set.
pub open spec fn dedup_items(items: Seq<ItemSpec>, seen: Set<u128>) -> (Seq<ItemSpec>, Set<u128>)
    decreases items.len(),
{
    if items.len() == 0 {
        (seq![], seen)
    } else {
        let (kept, s) = dedup_items(items.drop_last(), seen);
        let c = items.last();
        if s.contains(c.uuid) {
            (kept, s)
        } else {
            (kept.push(c), s.insert(c.uuid))
        }
    }
}

/// Duplicate removal over all groups in order; groups stay even when empty.
pub open spec fn dedup_groups(groups: Seq<GroupSpec>, seen: Set<u128>) -> (Seq<GroupSpec>, Set<u128>)
    decreases groups.len(),
{
    if groups.len() == 0 {
        (seq![], seen)
    } else {
        let (done, s) = dedup_groups(groups.drop_last(), seen);
        let g = groups.last();
        let (kept, s2) = dedup_items(g.channels, s);
        (done.push(GroupSpec { channels: kept, ..g }), s2)
    }
}

/// The key under which duplicates are recognised: the item's uuid.
pub fn duplicate_hash(item: &PlaylistItem) -> (r: u128)
    ensures
        r == item@.uuid,
{
    item.get_uuid()
}

fn dedup_channels(channels: Vec<PlaylistItem>, duplicates: &mut std::collections::HashSet<u128>) -> (r: Vec<PlaylistItem>)
    ensures
        items_view(r@) == dedup_items(items_view(channels@), old(duplicates)@).0,
        final(duplicates)@ == dedup_items(items_view(channels@), old(duplicates)@).1,
{
    let ghost orig = items_view(channels@);
    let ghost seen0 = duplicates@;
    let n: usize = channels.len();
    let mut rest: Vec<PlaylistItem> = reversed(channels);
    let mut out: Vec<PlaylistItem> = Vec::new();
    let mut k: usize = 0;
    while k < n
        invariant
            n == orig.len(),
            k <= n,
            rest@.len() == n - k,
            forall|t: int| 0 <= t < n - k ==> (#[trigger] rest@[t])@ == orig[n - 1 - t],
            items_view(out@) == dedup_items(orig.take(k as int), seen0).0,
            duplicates@ == dedup_items(orig.take(k as int), seen0).1,
        decreases n - k,
    {
        let item: PlaylistItem = rest.pop().unwrap();
        assert(item@ == orig[k as int]);
        assert(orig.take(k + 1).drop_last() =~= orig.take(k as int));
        if duplicates.insert(duplicate_hash(&item)) {
            out.push(item);
            assert(items_view(out@) =~= dedup_items(orig.take(k as int), seen0).0.push(orig[k as int]));
        }
        k = k + 1;
    }
    assert(orig.take(n as int) =~= orig);
    out
}

fn dedup_playlist(playlist: Vec<PlaylistGroup>, duplicates: &mut std::collections::HashSet<u128>) -> (r: Vec<PlaylistGroup>)
    ensures
        groups_view(r@) == dedup_groups(groups_view(playlist@), old(duplicates)@).0,
        final(duplicates)@ == dedup_groups(groups_view(playlist@), old(duplicates)@).1,
{
    let ghost orig = groups_view(playlist@);
    let ghost seen0 = duplicates@;
    let n: usize = playlist.len();
    let mut rest: Vec<PlaylistGroup> = reversed(playlist);
    let mut out: Vec<PlaylistGroup> = Vec::new();
    let mut k: usize = 0;
    while k < n
        invariant
            n == orig.len(),
            k <= n,
            rest@.len() == n - k,
            forall|t: int| 0 <= t < n - k ==> (#[trigger] rest@[t])@ == orig[n - 1 - t],
            groups_view(out@) == dedup_groups(orig.take(k as int), seen0).0,
            duplicates@ == dedup_groups(orig.take(k as int), seen0).1,
        decreases n - k,
    {
        let group: PlaylistGroup = rest.pop().unwrap();
        assert(group@ == orig[k as int]);
        assert(orig.take(k + 1).drop_last() =~= orig.take(k as int));
        let PlaylistGroup { id, title, channels, xtream_cluster } = group;
        let kept: Vec<PlaylistItem> = dedup_channels(channels, duplicates);
        let g = PlaylistGroup { id, title, channels: kept, xtream_cluster };
        out.push(g);
        assert(groups_view(out@) =~= dedup_groups(orig.take(k as int), seen0).0.push(g@));
        k = k + 1;
    }
    assert(orig.take(n as int) =~= orig);
    out
}

pub open spec fn removes_duplicates(target: ConfigTarget) -> bool {
    match target.options {
        Some(opt) => opt.remove_duplicates,
        None => false,
    }
}

proof fn lemma_dedup_items_len(items: Seq<ItemSpec>, seen: Set<u128>)
    ensures
        dedup_items(items, seen).0.len() <= items.len(),
    decreases items.len(),
{
    if items.len() > 0 {
        lemma_dedup_items_len(items.drop_last(), seen);
    }
}

proof fn lemma_dedup_count(groups: Seq<GroupSpec>, seen: Set<u128>)
    ensures
        all_channels(dedup_groups(groups, seen).0).len() <= all_channels(groups).len(),
    decreases groups.len(),
{
    if groups.len() > 0 {
        lemma_dedup_count(groups.drop_last(), seen);
        let (done, s) = dedup_groups(groups.drop_last(), seen);
        lemma_dedup_items_len(groups.last().channels, s);
        assert(dedup_groups(groups, seen).0.drop_last() =~= done);
    }
}

/// Runs the pipe of a target on one input's playlist: first, when the
/// target removes duplicates, every item whose key is already in
/// `duplicates` (from this or an earlier input) is dropped; then the steps
/// run in order.
pub fn execute_pipe(
    target: &ConfigTarget,
    pipe: &Vec<PipeStep>,
    playlistgroups: Vec<PlaylistGroup>,
    duplicates: &mut std::collections::HashSet<u128>,
) -> (r: Vec<PlaylistGroup>)
    requires
        target_wf(*target),
        all_channels(groups_view(playlistgroups@)).len() < u32::MAX,
    ensures
        removes_duplicates(*target) ==> groups_view(r@) == run_pipe(
            pipe@,
            dedup_groups(groups_view(playlistgroups@), old(duplicates)@).0,
            *target,
        ) && final(duplicates)@ == dedup_groups(groups_view(playlistgroups@), old(duplicates)@).1,
        !removes_duplicates(*target) ==> groups_view(r@) == run_pipe(
            pipe@,
            groups_view(playlistgroups@),
            *target,
        ) && final(duplicates)@ == old(duplicates)@,
{
    let ghost input = groups_view(playlistgroups@);
    let remove: bool = match &target.options {
        Some(opt) => opt.remove_duplicates,
        None => false,
    };
    let mut current: Vec<PlaylistGroup> = if remove {
        proof {
            lemma_dedup_count(input, duplicates@);
        }
        dedup_playlist(playlistgroups, duplicates)
    } else {
        playlistgroups
    };
    let ghost start = groups_view(current@);
    let n: usize = pipe.len();
    let mut i: usize = 0;
    while i < n
        invariant
            n == pipe@.len(),
            i <= n,
            target_wf(*target),
            groups_view(current@) == run_pipe(pipe@.take(i as int), start, *target),
            all_channels(groups_view(current@)).len() < u32::MAX,
        decreases n - i,
    {
        assert(pipe@.take(i + 1).drop_last() =~= pipe@.take(i as int));
        let stage: PipeStep = pipe[i];
        current = execute_stage(stage, current, target);
        i = i + 1;
    }
    assert(pipe@.take(n as int) =~= pipe@);
    current
}

} // verus!

verus! {

// ---------------------------------------------------------------------------
// Channel numbers
// ---------------------------------------------------------------------------

/// The channel number an item carries, when it has a non-empty one that
/// reads as `u32`.
pub open spec fn carried_chno(item: ItemSpec) -> Option<u32> {
    if item.chno.len() > 0 {
        match crate::text::parse_unsigned(item.chno, 10, u32::MAX as nat) {
            Some(n) => Some(n as u32),
            None => None,
        }
    } else {
        None
    }
}

/// The numbers already carried by the items.
pub open spec fn taken_chnos(items: Seq<ItemSpec>) -> Set<u32>
    decreases items.len(),
{
    if items.len() == 0 {
        Set::empty()
    } else {
        match carried_chno(items.last()) {
            Some(n) => taken_chnos(items.drop_last()).insert(n),
            None => taken_chnos(items.drop_last()),
        }
    }
}

/// The smallest number from `k` on that is not taken.
pub open spec fn next_free(taken: Set<u32>, k: nat) -> nat
    decreases 0x1_0000_0000 - k,
{
    if k < 0x1_0000_0000 && taken.contains(k as u32) {
        next_free(taken, k + 1)
    } else {
        k
    }
}

/// The counter after numbering `items`: it starts at 1 and moves past each
/// number handed out.
pub open spec fn chno_counter(items: Seq<ItemSpec>, taken: Set<u32>) -> nat
    decreases items.len(),
{
    if items.len() == 0 {
        1
    } else {
        let c = chno_counter(items.drop_last(), taken);
        if items.last().chno.len() == 0 {
            next_free(taken, c) + 1
        } else {
            c
        }
    }
}

/// An item without channel number gets the next free number.
pub open spec fn numbered_item(item: ItemSpec, taken: Set<u32>, counter: nat) -> ItemSpec {
    if item.chno.len() == 0 {
        ItemSpec { chno: crate::text::dec_digits(next_free(taken, counter)), ..item }
    } else {
        item
    }
}

pub open spec fn number_items(items: Seq<ItemSpec>, before: Seq<ItemSpec>, taken: Set<u32>) -> Seq<ItemSpec> {
    Seq::new(
        items.len(),
        |j: int| numbered_item(items[j], taken, chno_counter(before + items.take(j), taken)),
    )
}

/// The playlist with channel numbers assigned: items without a number get,
/// in playlist order, the smallest number from the running counter on
/// that no item carries already.
pub open spec fn spec_assign_channel_no(groups: Seq<GroupSpec>) -> Seq<GroupSpec> {
    let taken = taken_chnos(all_channels(groups));
    Seq::new(
        groups.len(),
        |g: int|
            GroupSpec {
                channels: number_items(groups[g].channels, all_channels(groups.take(g)), taken),
                ..groups[g]
            },
    )
}

/// Every number that would be handed out stays below `u32::MAX`, so that
/// the counter does not overflow.
pub open spec fn chno_fits(items: Seq<ItemSpec>) -> bool {
    forall|k: int|
        0 <= k < items.len() && (#[trigger] items[k]).chno.len() == 0 ==> next_free(
            taken_chnos(items),
            chno_counter(items.take(k), taken_chnos(items)),
        ) < u32::MAX
}

proof fn lemma_all_channels_take(groups: Seq<GroupSpec>, g: int)
    requires
        0 <= g < groups.len(),
    ensures
        all_channels(groups.take(g + 1)) == all_channels(groups.take(g)) + groups[g].channels,
{
    assert(groups.take(g + 1).drop_last() =~= groups.take(g));
}

proof fn lemma_all_channels_full(groups: Seq<GroupSpec>)
    ensures
        all_channels(groups.take(groups.len() as int)) == all_channels(groups),
{
    assert(groups.take(groups.len() as int) =~= groups);
}

fn collect_taken(playlist: &Vec<PlaylistGroup>) -> (r: std::collections::HashSet<u32>)
    ensures
        r@ == taken_chnos(all_channels(groups_view(playlist@))),
{
    let ghost gv = groups_view(playlist@);
    let mut taken: std::collections::HashSet<u32> = std::collections::HashSet::new();
    let n: usize = playlist.len();
    let mut g: usize = 0;
    assert(taken@ =~= taken_chnos(all_channels(gv.take(0))));
    while g < n
        invariant
            n == gv.len(),
            gv == groups_view(playlist@),
            g <= n,
            taken@ == taken_chnos(all_channels(gv.take(g as int))),
        decreases n - g,
    {
        let channels: &Vec<PlaylistItem> = &playlist[g].channels;
        let ghost before = all_channels(gv.take(g as int));
        let ghost chs = gv[g as int].channels;
        assert(chs == items_view(channels@));
        let m: usize = channels.len();
        let mut j: usize = 0;
        assert(before + chs.take(0) =~= before);
        while j < m
            invariant
                m == chs.len(),
                chs == items_view(channels@),
                j <= m,
                taken@ == taken_chnos(before + chs.take(j as int)),
            decreases m - j,
        {
            let chno: &str = channels[j].header.chno.as_str();
            assert((before + chs.take(j + 1)).drop_last() =~= before + chs.take(j as int));
            assert((before + chs.take(j + 1)).last() == chs[j as int]);
            if chno.unicode_len() > 0 {
                match crate::text::parse_u32(chno) {
                    Some(v) => {
                        taken.insert(v);
                    },
                    None => {},
                }
            }
            j = j + 1;
        }
        proof {
            lemma_all_channels_take(gv, g as int);
            assert(chs.take(m as int) =~= chs);
        }
        g = g + 1;
    }
    proof {
        lemma_all_channels_full(gv);
    }
    taken
}

/// Gives every item without channel number the next number, counting from
/// 1 and skipping the numbers that items already carry.
pub fn assign_channel_no_playlist(new_playlist: &mut Vec<PlaylistGroup>)
    requires
        chno_fits(all_channels(groups_view(old(new_playlist)@))),
    ensures
        groups_view(final(new_playlist)@) == spec_assign_channel_no(groups_view(old(new_playlist)@)),
{
    let ghost gv = groups_view(new_playlist@);
    let ghost all = all_channels(gv);
    let assigned_chnos: std::collections::HashSet<u32> = collect_taken(new_playlist);
    let ghost taken = taken_chnos(all);
    let mut chno: u32 = 1;
    let n: usize = new_playlist.len();
    let mut g: usize = 0;
    while g < n
        invariant
            n == gv.len(),
            n == new_playlist@.len(),
            g <= n,
            assigned_chnos@ == taken,
            taken == taken_chnos(all),
            all == all_channels(gv),
            chno_fits(all),
            chno as nat == chno_counter(all_channels(gv.take(g as int)), taken),
            forall|t: int|
                0 <= t < g ==> (#[trigger] new_playlist@[t])@ == spec_assign_channel_no(gv)[t],
            forall|t: int| g <= t < n ==> (#[trigger] new_playlist@[t])@ == gv[t],
        decreases n - g,
    {
        let ghost before = all_channels(gv.take(g as int));
        let ghost chs = gv[g as int].channels;
        let m: usize = new_playlist[g].channels.len();
        let mut j: usize = 0;
        assert(before + chs.take(0) =~= before);
        while j < m
            invariant
                n == new_playlist@.len(),
                n == gv.len(),
                g < n,
                m == chs.len(),
                m == new_playlist@[g as int].channels@.len(),
                j <= m,
                assigned_chnos@ == taken,
                chno_fits(all),
                all == all_channels(gv),
                taken == taken_chnos(all),
                before == all_channels(gv.take(g as int)),
                chs == gv[g as int].channels,
                chno as nat == chno_counter(before + chs.take(j as int), taken),
                new_playlist@[g as int].id == gv[g as int].id,
                new_playlist@[g as int].title@ == gv[g as int].title,
                new_playlist@[g as int].xtream_cluster == gv[g as int].xtream_cluster,
                forall|t: int|
                    0 <= t < j ==> (#[trigger] new_playlist@[g as int].channels@[t])@ == number_items(
                        chs,
                        before,
                        taken,
                    )[t],
                forall|t: int|
                    j <= t < m ==> (#[trigger] new_playlist@[g as int].channels@[t])@ == chs[t],
                forall|t: int| 0 <= t < g ==> (#[trigger] new_playlist@[t])@ == spec_assign_channel_no(gv)[t],
                forall|t: int| g < t < n ==> (#[trigger] new_playlist@[t])@ == gv[t],
            decreases m - j,
        {
            assert((before + chs.take(j + 1)).drop_last() =~= before + chs.take(j as int));
            assert((before + chs.take(j + 1)).last() == chs[j as int]);
            let empty: bool = new_playlist[g].channels[j].header.chno.as_str().unicode_len() == 0;
            if empty {
                proof {
                    lemma_all_channels_take(gv, g as int);
                    lemma_all_channels_prefix_len(gv, g + 1);
                    let k = before.len() + j;
                    assert(all_channels(gv.take(g + 1)) == before + chs);
                    lemma_take_prefix_of_all(gv, g + 1);
                    let l = (before + chs).len() as int;
                    assert(before + chs =~= all.take(l));
                    assert(all.take(k) =~= (before + chs).take(k));
                    assert((before + chs).take(k) =~= before + chs.take(j as int));
                    assert(all.take(l)[k] == all[k]);
                    assert((before + chs)[k] == chs[j as int]);
                    assert(all[k] == chs[j as int]);
                }
                while assigned_chnos.contains(&chno)
                    invariant
                        next_free(taken, chno_counter(before + chs.take(j as int), taken)) == next_free(taken, chno as nat),
                        next_free(taken, chno as nat) < u32::MAX,
                        assigned_chnos@ == taken,
                    decreases u32::MAX - chno,
                {
                    proof {
                        lemma_next_free_ge(taken, chno as nat + 1);
                    }
                    chno = chno + 1;
                }
                assert(next_free(taken, chno as nat) == chno as nat);
                let text: String = crate::text::u128_to_string(chno as u128);
                new_playlist[g].channels[j].header.chno = text;
                chno = chno + 1;
            }
            j = j + 1;
        }
        proof {
            lemma_all_channels_take(gv, g as int);
            assert(chs.take(m as int) =~= chs);
            assert(items_view(new_playlist@[g as int].channels@) =~= number_items(chs, before, taken));
            assert(new_playlist@[g as int]@ =~~= spec_assign_channel_no(gv)[g as int]);
        }
        g = g + 1;
    }
    assert(groups_view(new_playlist@) =~~= spec_assign_channel_no(gv));
}

proof fn lemma_next_free_ge(taken: Set<u32>, k: nat)
    ensures
        next_free(taken, k) >= k,
    decreases 0x1_0000_0000 - k,
{
    if k < 0x1_0000_0000 && taken.contains(k as u32) {
        lemma_next_free_ge(taken, k + 1);
    }
}

proof fn lemma_all_channels_prefix_len(groups: Seq<GroupSpec>, g: int)
    requires
        0 <= g <= groups.len(),
    ensures
        all_channels(groups.take(g)).len() <= all_channels(groups).len(),
{
    lemma_all_channels_prefix(groups, g);
}

proof fn lemma_take_prefix_of_all(groups: Seq<GroupSpec>, g: int)
    requires
        0 <= g <= groups.len(),
    ensures
        all_channels(groups.take(g)) =~= all_channels(groups).take(all_channels(groups.take(g)).len() as int),
    decreases groups.len(),
{
    if g < groups.len() {
        assert(groups.drop_last().take(g) =~= groups.take(g));
        lemma_take_prefix_of_all(groups.drop_last(), g);
        lemma_all_channels_prefix(groups.drop_last(), g);
        let a = all_channels(groups.drop_last());
        let l = all_channels(groups.take(g)).len() as int;
        assert((a + groups.last().channels).take(l) =~= a.take(l));
    } else {
        assert(groups.take(g) =~= groups);
        assert(all_channels(groups).take(all_channels(groups).len() as int) =~= all_channels(groups));
    }
}

} // verus!

verus! {

// ---------------------------------------------------------------------------
// Counters
// ---------------------------------------------------------------------------

/// `digits` padded with leading zeros to `width` (`{:0width$}`).
pub open spec fn pad_zeros(digits: Seq<char>, width: nat) -> Seq<char> {
    if digits.len() < width {
        Seq::new((width - digits.len()) as nat, |i: int| '0') + digits
    } else {
        digits
    }
}

/// The number a counter writes: zero-padded to `padding` when that is set.
pub open spec fn counter_number(value: u32, padding: u8) -> Seq<char> {
    if padding > 0 {
        pad_zeros(crate::text::dec_digits(value as nat), padding as nat)
    } else {
        crate::text::dec_digits(value as nat)
    }
}

/// The new field text: the number alone, or the current text and the
/// number joined by `concat` (number last for `Suffix`, first for `Prefix`).
pub open spec fn counter_text(c: MappingCounter, value: u32, current: Seq<char>) -> Seq<char> {
    let n = counter_number(value, c.padding);
    match c.modifier {
        CounterModifier::Assign => n,
        CounterModifier::Suffix => current + c.concat@ + n,
        CounterModifier::Prefix => n + c.concat@ + current,
    }
}

pub open spec fn next_counter_value(v: u32) -> u32 {
    ((v as nat + 1) % 0x1_0000_0000) as u32
}

/// One counter over a list of items: each matching item gets the current
/// number, which then advances (wrapping).
pub open spec fn count_items(c: MappingCounter, items: Seq<ItemSpec>, value: u32) -> (Seq<ItemSpec>, u32)
    decreases items.len(),
{
    if items.len() == 0 {
        (seq![], value)
    } else {
        let (done, v) = count_items(c, items.drop_last(), value);
        let it = items.last();
        if filter_matches(c.filter, it) {
            (
                done.push(with_header_field(it, c.field, counter_text(c, v, header_field_value(it, c.field)))),
                next_counter_value(v),
            )
        } else {
            (done.push(it), v)
        }
    }
}

/// One counter over all groups in order.
pub open spec fn count_groups(c: MappingCounter, groups: Seq<GroupSpec>, value: u32) -> (Seq<GroupSpec>, u32)
    decreases groups.len(),
{
    if groups.len() == 0 {
        (seq![], value)
    } else {
        let (done, v) = count_groups(c, groups.drop_last(), value);
        let g = groups.last();
        let (items, v2) = count_items(c, g.channels, v);
        (done.push(GroupSpec { channels: items, ..g }), v2)
    }
}

proof fn lemma_count_items_len(c: MappingCounter, items: Seq<ItemSpec>, value: u32)
    ensures
        count_items(c, items, value).0.len() == items.len(),
    decreases items.len(),
{
    if items.len() > 0 {
        lemma_count_items_len(c, items.drop_last(), value);
    }
}

proof fn lemma_count_groups_len(c: MappingCounter, groups: Seq<GroupSpec>, value: u32)
    ensures
        count_groups(c, groups, value).0.len() == groups.len(),
    decreases groups.len(),
{
    if groups.len() > 0 {
        lemma_count_groups_len(c, groups.drop_last(), value);
    }
}

fn counter_number_string(value: u32, padding: u8) -> (r: String)
    ensures
        r@ == counter_number(value, padding),
{
    let digits: String = crate::text::u128_to_string(value as u128);
    let len: usize = digits.as_str().unicode_len();
    if padding > 0 && len < padding as usize {
        let mut s: String = String::new();
        let zeros: usize = padding as usize - len;
        let mut i: usize = 0;
        while i < zeros
            invariant
                i <= zeros,
                s@ == Seq::new(i as nat, |k: int| '0'),
            decreases zeros - i,
        {
            crate::text::string_push(&mut s, '0');
            assert(s@ =~= Seq::new((i + 1) as nat, |k: int| '0'));
            i = i + 1;
        }
        s.append(digits.as_str());
        s
    } else {
        digits
    }
}

fn counter_value_string(c: &MappingCounter, value: u32, current: &str) -> (r: String)
    ensures
        r@ == counter_text(*c, value, current@),
{
    let n: String = counter_number_string(value, c.padding);
    match c.modifier {
        CounterModifier::Assign => n,
        CounterModifier::Suffix => {
            let mut s: String = String::from_str(current);
            s.append(c.concat.as_str());
            s.append(n.as_str());
            s
        },
        CounterModifier::Prefix => {
            let mut s: String = n;
            s.append(c.concat.as_str());
            s.append(current);
            s
        },
    }
}

/// Runs one counter over the playlist and advances its value.
pub fn apply_counter(counter: &mut MappingCounter, playlist: &mut Vec<PlaylistGroup>)
    requires
        filter_wf(old(counter).filter),
    ensures
        groups_view(final(playlist)@) == count_groups(*old(counter), groups_view(old(playlist)@), old(counter).value).0,
        *final(counter) == (MappingCounter {
            value: count_groups(*old(counter), groups_view(old(playlist)@), old(counter).value).1,
            ..*old(counter)
        }),
{
    let ghost c0 = *counter;
    let ghost gv = groups_view(playlist@);
    let mut value: u32 = counter.value;
    let n: usize = playlist.len();
    let mut g: usize = 0;
    while g < n
        invariant
            n == gv.len(),
            n == playlist@.len(),
            g <= n,
            filter_wf(c0.filter),
            *counter == c0,
            value == count_groups(c0, gv.take(g as int), c0.value).1,
            forall|t: int|
                0 <= t < g ==> (#[trigger] playlist@[t])@ == count_groups(c0, gv.take(g as int), c0.value).0[t],
            forall|t: int| g <= t < n ==> (#[trigger] playlist@[t])@ == gv[t],
        decreases n - g,
    {
        let ghost chs = gv[g as int].channels;
        let ghost v0 = value;
        let m: usize = playlist[g].channels.len();
        let mut j: usize = 0;
        assert(chs.take(0) =~= Seq::<ItemSpec>::empty());
        while j < m
            invariant
                n == gv.len(),
                n == playlist@.len(),
                g < n,
                m == chs.len(),
                chs == gv[g as int].channels,
                m == playlist@[g as int].channels@.len(),
                j <= m,
                filter_wf(c0.filter),
                *counter == c0,
                value == count_items(c0, chs.take(j as int), v0).1,
                playlist@[g as int].id == gv[g as int].id,
                playlist@[g as int].title@ == gv[g as int].title,
                playlist@[g as int].xtream_cluster == gv[g as int].xtream_cluster,
                forall|t: int|
                    0 <= t < j ==> (#[trigger] playlist@[g as int].channels@[t])@ == count_items(
                        c0,
                        chs.take(j as int),
                        v0,
                    ).0[t],
                forall|t: int| j <= t < m ==> (#[trigger] playlist@[g as int].channels@[t])@ == chs[t],
                forall|t: int| 0 <= t < g ==> (#[trigger] playlist@[t])@ == count_groups(c0, gv.take(g as int), c0.value).0[t],
                forall|t: int| g < t < n ==> (#[trigger] playlist@[t])@ == gv[t],
            decreases m - j,
        {
            assert(chs.take(j + 1).drop_last() =~= chs.take(j as int));
            assert(chs.take(j + 1).last() == chs[j as int]);
            let ghost prev = count_items(c0, chs.take(j as int), v0).0;
            proof {
                lemma_count_items_len(c0, chs.take(j as int), v0);
                lemma_count_items_len(c0, chs.take(j + 1), v0);
            }
            let matches: bool = counter.filter.filter(&playlist[g].channels[j]);
            if matches {
                let current: &str = playlist[g].channels[j].header.get_field(counter.field);
                let text: String = counter_value_string(counter, value, current);
                playlist[g].channels[j].header.set_field(counter.field, text);
                value = value.wrapping_add(1);
            }
            assert forall|t: int| 0 <= t < j + 1 implies (#[trigger] playlist@[g as int].channels@[t])@
                == count_items(c0, chs.take(j + 1), v0).0[t] by {
                if t < j {
                    assert(count_items(c0, chs.take(j + 1), v0).0[t] == prev[t]);
                }
            }
            j = j + 1;
        }
        proof {
            assert(chs.take(m as int) =~= chs);
            assert(gv.take(g + 1).drop_last() =~= gv.take(g as int));
            lemma_count_items_len(c0, chs, v0);
            lemma_count_groups_len(c0, gv.take(g as int), c0.value);
            lemma_count_groups_len(c0, gv.take(g + 1), c0.value);
            assert(items_view(playlist@[g as int].channels@) =~= count_items(c0, chs, v0).0);
            let before = count_groups(c0, gv.take(g as int), c0.value).0;
            assert forall|t: int| 0 <= t < g + 1 implies (#[trigger] playlist@[t])@ =~~= count_groups(
                c0,
                gv.take(g + 1),
                c0.value,
            ).0[t] by {
                if t < g {
                    assert(count_groups(c0, gv.take(g + 1), c0.value).0[t] == before[t]);
                }
            }
        }
        g = g + 1;
    }
    assert(gv.take(n as int) =~= gv);
    proof {
        lemma_count_groups_len(c0, gv, c0.value);
    }
    assert(groups_view(playlist@) =~~= count_groups(c0, gv, c0.value).0);
    counter.value = value;
}

} // verus!

verus! {

pub open spec fn mapping_counters(m: Mapping) -> Seq<MappingCounter> {
    match m.t_counter {
        Some(v) => v@,
        None => seq![],
    }
}

/// The counters of all mappings, in order.
pub open spec fn all_counters(mappings: Seq<Mapping>) -> Seq<MappingCounter>
    decreases mappings.len(),
{
    if mappings.len() == 0 {
        seq![]
    } else {
        all_counters(mappings.drop_last()) + mapping_counters(mappings.last())
    }
}

pub open spec fn target_counters(target: ConfigTarget) -> Seq<MappingCounter> {
    match target.t_mapping {
        Some(ms) => all_counters(ms@),
        None => seq![],
    }
}

/// Every counter filter's regular expressions compile.
pub open spec fn counters_wf(counters: Seq<MappingCounter>) -> bool {
    forall|i: int| 0 <= i < counters.len() ==> filter_wf(#[trigger] counters[i].filter)
}

/// The counters run one after the other over the playlist: the playlist
/// they leave and the counters with their advanced values.
pub open spec fn run_counters(counters: Seq<MappingCounter>, groups: Seq<GroupSpec>) -> (Seq<GroupSpec>, Seq<MappingCounter>)
    decreases counters.len(),
{
    if counters.len() == 0 {
        (groups, seq![])
    } else {
        let (g1, done) = run_counters(counters.drop_last(), groups);
        let c = counters.last();
        let (g2, v) = count_groups(c, g1, c.value);
        (g2, done.push(MappingCounter { value: v, ..c }))
    }
}

proof fn lemma_run_counters_len(counters: Seq<MappingCounter>, groups: Seq<GroupSpec>)
    ensures
        run_counters(counters, groups).1.len() == counters.len(),
    decreases counters.len(),
{
    if counters.len() > 0 {
        lemma_run_counters_len(counters.drop_last(), groups);
    }
}

/// Everything of a target but its mappings.
pub open spec fn same_target_settings(a: ConfigTarget, b: ConfigTarget) -> bool {
    &&& a.id == b.id
    &&& a.enabled == b.enabled
    &&& a.name == b.name
    &&& a.options == b.options
    &&& a.t_filter == b.t_filter
    &&& a.rename == b.rename
    &&& a.processing_order == b.processing_order
    &&& a.t_watch == b.t_watch
}

fn run_mapping_counters(
    counters: &mut Vec<MappingCounter>,
    playlist: &mut Vec<PlaylistGroup>,
    before: Ghost<Seq<MappingCounter>>,
    start: Ghost<Seq<GroupSpec>>,
)
    requires
        counters_wf(old(counters)@),
        groups_view(old(playlist)@) == run_counters(before@, start@).0,
    ensures
        groups_view(final(playlist)@) == run_counters(before@ + old(counters)@, start@).0,
        run_counters(before@, start@).1 + final(counters)@ == run_counters(
            before@ + old(counters)@,
            start@,
        ).1,
{
    let ghost cs = counters@;
    let n: usize = counters.len();
    let mut i: usize = 0;
    proof {
        lemma_run_counters_len(before@, start@);
    }
    assert(before@ + cs.take(0) =~= before@);
    assert(run_counters(before@, start@).1 + counters@.take(0) =~= run_counters(before@, start@).1);
    while i < n
        invariant
            n == cs.len(),
            n == counters@.len(),
            i <= n,
            counters_wf(cs),
            groups_view(playlist@) == run_counters(before@ + cs.take(i as int), start@).0,
            run_counters(before@ + cs.take(i as int), start@).1 == run_counters(before@, start@).1
                + counters@.take(i as int),
            forall|t: int| i <= t < n ==> #[trigger] counters@[t] == cs[t],
        decreases n - i,
    {
        let ghost prefix = before@ + cs.take(i as int);
        assert((before@ + cs.take(i + 1)).drop_last() =~= prefix);
        assert((before@ + cs.take(i + 1)).last() == cs[i as int]);
        assert(filter_wf(cs[i as int].filter));
        apply_counter(&mut counters[i], playlist);
        proof {
            lemma_run_counters_len(prefix, start@);
            assert(run_counters(before@ + cs.take(i + 1), start@).1 =~= run_counters(before@, start@).1
                + counters@.take(i + 1));
        }
        i = i + 1;
    }
    assert(cs.take(n as int) =~= cs);
    assert(counters@.take(n as int) =~= counters@);
}

/// Runs every counter of every mapping over the playlist, in order, and
/// stores the counters' advanced values back in the target.
pub fn map_playlist_counter(target: &mut ConfigTarget, playlist: &mut Vec<PlaylistGroup>)
    requires
        counters_wf(target_counters(*old(target))),
    ensures
        groups_view(final(playlist)@) == run_counters(
            target_counters(*old(target)),
            groups_view(old(playlist)@),
        ).0,
        target_counters(*final(target)) == run_counters(
            target_counters(*old(target)),
            groups_view(old(playlist)@),
        ).1,
        same_target_settings(*final(target), *old(target)),
        final(target).t_mapping is Some == old(target).t_mapping is Some,
{
    let ghost start = groups_view(playlist@);
    let ghost all = target_counters(*target);
    match target.t_mapping.take() {
        Some(mappings) => {
            let ghost ms = mappings@;
            assert(all == all_counters(ms));
            let n: usize = mappings.len();
            let mut rest: Vec<Mapping> = reversed(mappings);
            let mut out: Vec<Mapping> = Vec::new();
            let mut k: usize = 0;
            assert(all_counters(ms.take(0)) =~= Seq::<MappingCounter>::empty());
            assert(all_counters(out@) =~= Seq::<MappingCounter>::empty());
            while k < n
                invariant
                    n == ms.len(),
                    k <= n,
                    rest@.len() == n - k,
                    forall|t: int| 0 <= t < n - k ==> #[trigger] rest@[t] == ms[n - 1 - t],
                    counters_wf(all_counters(ms)),
                    groups_view(playlist@) == run_counters(all_counters(ms.take(k as int)), start).0,
                    all_counters(out@) == run_counters(all_counters(ms.take(k as int)), start).1,
                decreases n - k,
            {
                let m: Mapping = rest.pop().unwrap();
                assert(m == ms[k as int]);
                assert(ms.take(k + 1).drop_last() =~= ms.take(k as int));
                proof {
                    lemma_all_counters_prefix(ms, k + 1);
                }
                let ghost before = all_counters(ms.take(k as int));
                let Mapping { id, t_counter } = m;
                match t_counter {
                    Some(counters) => {
                        let mut cs: Vec<MappingCounter> = counters;
                        proof {
                            assert(mapping_counters(ms[k as int]) == cs@);
                            assert(all_counters(ms.take(k + 1)) == before + cs@);
                            lemma_all_counters_len_mono(ms, k + 1);
                            let l = all_counters(ms.take(k + 1)).len() as int;
                            assert forall|t: int| 0 <= t < cs@.len() implies filter_wf(#[trigger] cs@[t].filter) by {
                                assert((before + cs@)[before.len() + t] == cs@[t]);
                                assert(all_counters(ms).take(l)[before.len() + t] == all_counters(ms)[before.len() + t]);
                                assert(filter_wf(all_counters(ms)[before.len() + t].filter));
                            }
                        }
                        let ghost old_cs = cs@;
                        run_mapping_counters(&mut cs, playlist, Ghost(before), Ghost(start));
                        let nm = Mapping { id, t_counter: Some(cs) };
                        let ghost prev_out = out@;
                        out.push(nm);
                        assert(out@.drop_last() =~= prev_out);
                        assert(all_counters(ms.take(k + 1)) == before + old_cs);
                    },
                    None => {
                        let nm = Mapping { id, t_counter: None };
                        let ghost prev_out = out@;
                        out.push(nm);
                        assert(out@.drop_last() =~= prev_out);
                        assert(all_counters(out@) =~= all_counters(prev_out));
                        assert(all_counters(ms.take(k + 1)) =~= before);
                    },
                }
                k = k + 1;
            }
            assert(ms.take(n as int) =~= ms);
            target.t_mapping = Some(out);
        },
        None => {},
    }
}

proof fn lemma_all_counters_prefix(ms: Seq<Mapping>, k: int)
    requires
        0 <= k <= ms.len(),
    ensures
        all_counters(ms.take(k)) =~= all_counters(ms).take(all_counters(ms.take(k)).len() as int),
    decreases ms.len(),
{
    if k < ms.len() {
        assert(ms.drop_last().take(k) =~= ms.take(k));
        lemma_all_counters_prefix(ms.drop_last(), k);
        lemma_all_counters_len_mono(ms.drop_last(), k);
        let a = all_counters(ms.drop_last());
        let l = all_counters(ms.take(k)).len() as int;
        assert((a + mapping_counters(ms.last())).take(l) =~= a.take(l));
    } else {
        assert(ms.take(k) =~= ms);
        assert(all_counters(ms).take(all_counters(ms).len() as int) =~= all_counters(ms));
    }
}

proof fn lemma_all_counters_len_mono(ms: Seq<Mapping>, k: int)
    requires
        0 <= k <= ms.len(),
    ensures
        all_counters(ms.take(k)).len() <= all_counters(ms).len(),
    decreases ms.len(),
{
    if k < ms.len() {
        assert(ms.drop_last().take(k) =~= ms.take(k));
        lemma_all_counters_len_mono(ms.drop_last(), k);
    } else {
        assert(ms.take(k) =~= ms);
    }
}

} // verus!

verus! {

// ---------------------------------------------------------------------------
// Laws
// ---------------------------------------------------------------------------

/// Every processing order runs each of the three steps exactly once.
pub proof fn law_pipe_runs_each_step_once(order: ProcessingOrder)
    ensures
        pipe_of(order).len() == 3,
        pipe_of(order).contains(PipeStep::FilterPlaylist),
        pipe_of(order).contains(PipeStep::RenamePlaylist),
        pipe_of(order).contains(PipeStep::MapPlaylist),
{
    let p = pipe_of(order);
    match order {
        ProcessingOrder::Frm => {
            assert(p[0] == PipeStep::FilterPlaylist && p[1] == PipeStep::RenamePlaylist && p[2] == PipeStep::MapPlaylist);
        },
        ProcessingOrder::Fmr => {
            assert(p[0] == PipeStep::FilterPlaylist && p[2] == PipeStep::RenamePlaylist && p[1] == PipeStep::MapPlaylist);
        },
        ProcessingOrder::Rfm => {
            assert(p[1] == PipeStep::FilterPlaylist && p[0] == PipeStep::RenamePlaylist && p[2] == PipeStep::MapPlaylist);
        },
        ProcessingOrder::Rmf => {
            assert(p[2] == PipeStep::FilterPlaylist && p[0] == PipeStep::RenamePlaylist && p[1] == PipeStep::MapPlaylist);
        },
        ProcessingOrder::Mfr => {
            assert(p[1] == PipeStep::FilterPlaylist && p[2] == PipeStep::RenamePlaylist && p[0] == PipeStep::MapPlaylist);
        },
        ProcessingOrder::Mrf => {
            assert(p[2] == PipeStep::FilterPlaylist && p[1] == PipeStep::RenamePlaylist && p[0] == PipeStep::MapPlaylist);
        },
    }
}

proof fn lemma_filter_items_sound(items: Seq<ItemSpec>, f: Option<Filter>)
    ensures
        forall|i: int| 0 <= i < filter_items(items, f).len() ==> target_keeps(f, #[trigger] filter_items(items, f)[i]),
        f is None ==> filter_items(items, f) == items,
    decreases items.len(),
{
    if items.len() > 0 {
        lemma_filter_items_sound(items.drop_last(), f);
        let kept = filter_items(items.drop_last(), f);
        let r = filter_items(items, f);
        assert forall|i: int| 0 <= i < r.len() implies target_keeps(f, #[trigger] r[i]) by {
            if i < kept.len() {
                assert(r[i] == kept[i]);
            }
        }
        if f is None {
            assert(items.drop_last().push(items.last()) =~= items);
        }
    }
}

/// The filter step keeps only items that the filter accepts, never leaves
/// an empty group, and without a filter keeps every item.
pub proof fn law_filter_sound(groups: Seq<GroupSpec>, f: Option<Filter>)
    ensures
        forall|g: int, i: int|
            0 <= g < spec_filter_playlist(groups, f).len() && 0 <= i < spec_filter_playlist(groups, f)[g].channels.len()
                ==> target_keeps(f, #[trigger] spec_filter_playlist(groups, f)[g].channels[i]),
        forall|g: int| 0 <= g < spec_filter_playlist(groups, f).len() ==> (#[trigger] spec_filter_playlist(groups, f)[g]).channels.len() > 0,
        f is None ==> all_channels(spec_filter_playlist(groups, f)) == all_channels(groups),
    decreases groups.len(),
{
    if groups.len() > 0 {
        law_filter_sound(groups.drop_last(), f);
        let g = groups.last();
        lemma_filter_items_sound(g.channels, f);
        let earlier = spec_filter_playlist(groups.drop_last(), f);
        let kept = filter_items(g.channels, f);
        if kept.len() > 0 {
            let r = earlier.push(GroupSpec { channels: kept, ..g });
            assert(r.drop_last() =~= earlier);
        } else if f is None {
            assert(g.channels.len() == 0);
            assert(all_channels(groups) =~= all_channels(groups.drop_last()));
        }
    }
}

/// The keys of a sequence of items.
pub open spec fn uuids_of(items: Seq<ItemSpec>) -> Set<u128> {
    Set::new(|u: u128| exists|i: int| 0 <= i < items.len() && items[i].uuid == u)
}

proof fn lemma_dedup_items_unique(items: Seq<ItemSpec>, seen: Set<u128>)
    ensures
        ({
            let (kept, s) = dedup_items(items, seen);
            &&& forall|i: int, j: int| 0 <= i < j < kept.len() ==> kept[i].uuid != kept[j].uuid
            &&& forall|i: int| 0 <= i < kept.len() ==> !seen.contains(#[trigger] kept[i].uuid)
            &&& forall|i: int| 0 <= i < kept.len() ==> s.contains(#[trigger] kept[i].uuid)
            &&& s == seen + uuids_of(kept)
        }),
    decreases items.len(),
{
    if items.len() > 0 {
        lemma_dedup_items_unique(items.drop_last(), seen);
        let (kept, s) = dedup_items(items.drop_last(), seen);
        let c = items.last();
        if !s.contains(c.uuid) {
            let k2 = kept.push(c);
            assert(seen + uuids_of(k2) =~= (seen + uuids_of(kept)).insert(c.uuid)) by {
                assert forall|u: u128| (seen + uuids_of(k2)).contains(u) implies (seen + uuids_of(kept)).insert(c.uuid).contains(u) by {
                    if uuids_of(k2).contains(u) && u != c.uuid {
                        let i = choose|i: int| 0 <= i < k2.len() && k2[i].uuid == u;
                        assert(kept[i].uuid == u);
                    }
                }
                assert forall|u: u128| (seen + uuids_of(kept)).insert(c.uuid).contains(u) implies (seen + uuids_of(k2)).contains(u) by {
                    if u == c.uuid {
                        assert(k2[k2.len() - 1].uuid == u);
                    } else if uuids_of(kept).contains(u) {
                        let i = choose|i: int| 0 <= i < kept.len() && kept[i].uuid == u;
                        assert(k2[i].uuid == u);
                    }
                }
            }
        }
    } else {
        assert(uuids_of(Seq::<ItemSpec>::empty()) =~= Set::<u128>::empty());
        assert(seen + Set::<u128>::empty() =~= seen);
    }
}

/// Duplicate removal keeps, over all groups, only items with distinct keys
/// that were not seen before, and records exactly their keys as seen.
pub proof fn law_dedup_unique(groups: Seq<GroupSpec>, seen: Set<u128>)
    ensures
        ({
            let (result, s) = dedup_groups(groups, seen);
            let items = all_channels(result);
            &&& forall|i: int, j: int| 0 <= i < j < items.len() ==> items[i].uuid != items[j].uuid
            &&& forall|i: int| 0 <= i < items.len() ==> !seen.contains(#[trigger] items[i].uuid)
            &&& s == seen + uuids_of(items)
        }),
    decreases groups.len(),
{
    if groups.len() > 0 {
        law_dedup_unique(groups.drop_last(), seen);
        let (done, s) = dedup_groups(groups.drop_last(), seen);
        let g = groups.last();
        lemma_dedup_items_unique(g.channels, s);
        let (kept, s2) = dedup_items(g.channels, s);
        let result = done.push(GroupSpec { channels: kept, ..g });
        assert(result.drop_last() =~= done);
        let a = all_channels(done);
        let items = a + kept;
        assert(all_channels(result) == items);
        assert forall|i: int, j: int| 0 <= i < j < items.len() implies items[i].uuid != items[j].uuid by {
            if j >= a.len() && i < a.len() {
                assert(s.contains(a[i].uuid)) by {
                    assert(uuids_of(a).contains(a[i].uuid));
                }
                assert(!s.contains(kept[j - a.len()].uuid));
            } else if i >= a.len() {
                assert(items[i] == kept[i - a.len()]);
                assert(items[j] == kept[j - a.len()]);
            }
        }
        assert forall|i: int| 0 <= i < items.len() implies !seen.contains(#[trigger] items[i].uuid) by {
            if i >= a.len() {
                assert(items[i] == kept[i - a.len()]);
                assert(!s.contains(kept[i - a.len()].uuid));
            }
        }
        assert(s2 =~= seen + uuids_of(items)) by {
            assert forall|u: u128| s2.contains(u) <==> (seen + uuids_of(items)).contains(u) by {
                if uuids_of(kept).contains(u) {
                    let i = choose|i: int| 0 <= i < kept.len() && kept[i].uuid == u;
                    assert(items[a.len() + i].uuid == u);
                }
                if uuids_of(a).contains(u) {
                    let i = choose|i: int| 0 <= i < a.len() && a[i].uuid == u;
                    assert(items[i].uuid == u);
                }
                if uuids_of(items).contains(u) {
                    let i = choose|i: int| 0 <= i < items.len() && items[i].uuid == u;
                    if i < a.len() {
                        assert(uuids_of(a).contains(u));
                    } else {
                        assert(kept[i - a.len()].uuid == u);
                        assert(uuids_of(kept).contains(u));
                    }
                }
            }
        }
    } else {
        assert(uuids_of(Seq::<ItemSpec>::empty()) =~= Set::<u128>::empty());
        assert(seen + Set::<u128>::empty() =~= seen);
    }
}

} // verus!

verus! {

proof fn lemma_find_group_key_none(groups: Seq<GroupSpec>, title: Seq<char>, cluster: XtreamCluster)
    ensures
        find_group_key(groups, title, cluster) is None ==> forall|t: int|
            0 <= t < groups.len() ==> !((#[trigger] groups[t]).title == title && groups[t].xtream_cluster
                == cluster),
    decreases groups.len(),
{
    if groups.len() > 0 {
        lemma_find_group_key_none(groups.drop_last(), title, cluster);
        if find_group_key(groups, title, cluster) is None {
            assert forall|t: int| 0 <= t < groups.len() implies !((#[trigger] groups[t]).title == title
                && groups[t].xtream_cluster == cluster) by {
                if t < groups.len() - 1 {
                    assert(groups[t] == groups.drop_last()[t]);
                }
            }
        }
    }
}

/// Merging leaves no two groups with the same title and cluster, and keeps
/// every item.
pub proof fn law_merge_groups_unique(groups: Seq<GroupSpec>)
    ensures
        forall|i: int, j: int|
            0 <= i < j < merge_groups(groups).len() ==> !((#[trigger] merge_groups(groups)[i]).title
                == (#[trigger] merge_groups(groups)[j]).title && merge_groups(groups)[i].xtream_cluster
                == merge_groups(groups)[j].xtream_cluster),
        all_channels(merge_groups(groups)).len() == all_channels(groups).len(),
    decreases groups.len(),
{
    if groups.len() > 0 {
        law_merge_groups_unique(groups.drop_last());
        let merged = merge_groups(groups.drop_last());
        let g = groups.last();
        lemma_find_group_key_bound(merged, g.title, g.xtream_cluster);
        lemma_find_group_key_none(merged, g.title, g.xtream_cluster);
        match find_group_key(merged, g.title, g.xtream_cluster) {
            Some(i) => {
                let ng = GroupSpec { channels: merged[i as int].channels + g.channels, ..merged[i as int] };
                lemma_all_channels_update(merged, i as int, ng);
                let r = merged.update(i as int, ng);
                assert forall|a: int, b: int| 0 <= a < b < r.len() implies !((#[trigger] r[a]).title
                    == (#[trigger] r[b]).title && r[a].xtream_cluster == r[b].xtream_cluster) by {
                    assert(r[a].title == merged[a].title && r[a].xtream_cluster == merged[a].xtream_cluster);
                    assert(r[b].title == merged[b].title && r[b].xtream_cluster == merged[b].xtream_cluster);
                }
            },
            None => {
                let r = merged.push(g);
                assert(r.drop_last() =~= merged);
                assert forall|a: int, b: int| 0 <= a < b < r.len() implies !((#[trigger] r[a]).title
                    == (#[trigger] r[b]).title && r[a].xtream_cluster == r[b].xtream_cluster) by {
                    if b == r.len() - 1 {
                        assert(r[a] == merged[a]);
                    } else {
                        assert(r[a] == merged[a] && r[b] == merged[b]);
                    }
                }
            },
        }
    }
}

proof fn lemma_find_group_none(groups: Seq<GroupSpec>, title: Seq<char>)
    ensures
        find_group(groups, title) is None ==> forall|t: int|
            0 <= t < groups.len() ==> (#[trigger] groups[t]).title != title,
    decreases groups.len(),
{
    if groups.len() > 0 {
        lemma_find_group_none(groups.drop_last(), title);
        if find_group(groups, title) is None {
            assert forall|t: int| 0 <= t < groups.len() implies (#[trigger] groups[t]).title != title by {
                if t < groups.len() - 1 {
                    assert(groups[t] == groups.drop_last()[t]);
                }
            }
        }
    }
}

/// Regrouping gives groups of distinct titles, each holding only items of
/// that group name, and keeps every item.
pub proof fn law_regroup(items: Seq<ItemSpec>)
    ensures
        forall|i: int, j: int|
            0 <= i < j < regroup(items).len() ==> (#[trigger] regroup(items)[i]).title != (
            #[trigger] regroup(items)[j]).title,
        forall|g: int, k: int|
            0 <= g < regroup(items).len() && 0 <= k < regroup(items)[g].channels.len() ==> (
            #[trigger] regroup(items)[g].channels[k]).group == regroup(items)[g].title,
        all_channels(regroup(items)).len() == items.len(),
    decreases items.len(),
{
    lemma_regroup_count(items);
    if items.len() > 0 {
        law_regroup(items.drop_last());
        let gs = regroup(items.drop_last());
        let c = items.last();
        lemma_find_group_bound(gs, c.group);
        lemma_find_group_none(gs, c.group);
        let r = regroup(items);
        match find_group(gs, c.group) {
            Some(i) => {
                assert forall|a: int, b: int| 0 <= a < b < r.len() implies (#[trigger] r[a]).title != (
                #[trigger] r[b]).title by {
                    assert(r[a].title == gs[a].title && r[b].title == gs[b].title);
                }
                assert forall|g: int, k: int| 0 <= g < r.len() && 0 <= k < r[g].channels.len() implies (
                #[trigger] r[g].channels[k]).group == r[g].title by {
                    if g == i as int && k == r[g].channels.len() - 1 {
                    } else if g == i as int {
                        assert(r[g].channels[k] == gs[g].channels[k]);
                    } else {
                        assert(r[g] == gs[g]);
                    }
                }
            },
            None => {
                assert forall|a: int, b: int| 0 <= a < b < r.len() implies (#[trigger] r[a]).title != (
                #[trigger] r[b]).title by {
                    if b == r.len() - 1 {
                        assert(r[a] == gs[a]);
                    } else {
                        assert(r[a] == gs[a] && r[b] == gs[b]);
                    }
                }
                assert forall|g: int, k: int| 0 <= g < r.len() && 0 <= k < r[g].channels.len() implies (
                #[trigger] r[g].channels[k]).group == r[g].title by {
                    if g < r.len() - 1 {
                        assert(r[g] == gs[g]);
                    }
                }
            },
        }
    }
}

proof fn lemma_next_free_not_taken(taken: Set<u32>, k: nat)
    ensures
        next_free(taken, k) < 0x1_0000_0000 ==> !taken.contains(next_free(taken, k) as u32),
    decreases 0x1_0000_0000 - k,
{
    if k < 0x1_0000_0000 && taken.contains(k as u32) {
        lemma_next_free_not_taken(taken, k + 1);
    }
}

proof fn lemma_counter_monotone(items: Seq<ItemSpec>, taken: Set<u32>, a: int, b: int)
    requires
        0 <= a <= b <= items.len(),
    ensures
        chno_counter(items.take(a), taken) <= chno_counter(items.take(b), taken),
    decreases b - a,
{
    if a < b {
        lemma_counter_monotone(items, taken, a, b - 1);
        assert(items.take(b).drop_last() =~= items.take(b - 1));
        lemma_next_free_ge(taken, chno_counter(items.take(b - 1), taken));
    }
}

/// The number handed to the `k`-th item of a playlist without one.
pub open spec fn assigned_number(items: Seq<ItemSpec>, k: int) -> nat {
    next_free(taken_chnos(items), chno_counter(items.take(k), taken_chnos(items)))
}

/// The numbers handed out are carried by no item beforehand, and they
/// increase along the playlist, so no two items get the same number.
pub proof fn law_channel_numbers_fresh(items: Seq<ItemSpec>)
    requires
        chno_fits(items),
    ensures
        forall|k: int|
            0 <= k < items.len() && (#[trigger] items[k]).chno.len() == 0 ==> !taken_chnos(items).contains(
                assigned_number(items, k) as u32,
            ),
        forall|k1: int, k2: int|
            0 <= k1 < k2 < items.len() && (#[trigger] items[k1]).chno.len() == 0 && (
            #[trigger] items[k2]).chno.len() == 0 ==> assigned_number(items, k1) < assigned_number(items, k2),
{
    let taken = taken_chnos(items);
    assert forall|k: int| 0 <= k < items.len() && (#[trigger] items[k]).chno.len() == 0 implies !taken.contains(
        assigned_number(items, k) as u32,
    ) by {
        lemma_next_free_not_taken(taken, chno_counter(items.take(k), taken));
    }
    assert forall|k1: int, k2: int|
        0 <= k1 < k2 < items.len() && (#[trigger] items[k1]).chno.len() == 0 && (#[trigger] items[k2]).chno.len()
            == 0 implies assigned_number(items, k1) < assigned_number(items, k2) by {
        assert(items.take(k1 + 1).drop_last() =~= items.take(k1));
        assert(items.take(k1 + 1).last() == items[k1]);
        lemma_counter_monotone(items, taken, k1 + 1, k2);
        lemma_next_free_ge(taken, chno_counter(items.take(k2), taken));
    }
}

/// After numbering, every item has a channel number, and an item that had
/// one keeps it.
pub proof fn law_channel_numbers_complete(groups: Seq<GroupSpec>)
    ensures
        forall|g: int, k: int|
            0 <= g < groups.len() && 0 <= k < groups[g].channels.len() ==> (
            #[trigger] spec_assign_channel_no(groups)[g].channels[k]).chno.len() > 0,
        forall|g: int, k: int|
            0 <= g < groups.len() && 0 <= k < groups[g].channels.len() && (#[trigger] groups[g].channels[k]).chno.len() > 0
                ==> spec_assign_channel_no(groups)[g].channels[k] == groups[g].channels[k],
{
    assert forall|g: int, k: int|
        0 <= g < groups.len() && 0 <= k < groups[g].channels.len() implies (
        #[trigger] spec_assign_channel_no(groups)[g].channels[k]).chno.len() > 0 by {
        let taken = taken_chnos(all_channels(groups));
        let c = chno_counter(all_channels(groups.take(g)) + groups[g].channels.take(k), taken);
        crate::text::lemma_dec_digits_nonempty(next_free(taken, c));
    }
}

} // verus!

verus! {

// ---------------------------------------------------------------------------
// Fetched playlists and watched groups
// ---------------------------------------------------------------------------

/// The groups of several fetched playlists, one playlist after the other.
pub open spec fn concat_playlists(playlists: Seq<Seq<GroupSpec>>) -> Seq<GroupSpec>
    decreases playlists.len(),
{
    if playlists.len() == 0 {
        seq![]
    } else {
        concat_playlists(playlists.drop_last()) + playlists.last()
    }
}

/// Collects the processed playlists of all inputs into one, in input order.
pub fn collect_playlist_groups(playlists: Vec<Vec<PlaylistGroup>>) -> (r: Vec<PlaylistGroup>)
    ensures
        groups_view(r@) == concat_playlists(playlists@.map_values(|p: Vec<PlaylistGroup>| groups_view(p@))),
{
    let ghost orig = playlists@.map_values(|p: Vec<PlaylistGroup>| groups_view(p@));
    let n: usize = playlists.len();
    let mut rest: Vec<Vec<PlaylistGroup>> = reversed(playlists);
    let mut out: Vec<PlaylistGroup> = Vec::new();
    let mut k: usize = 0;
    while k < n
        invariant
            n == orig.len(),
            k <= n,
            rest@.len() == n - k,
            forall|t: int| 0 <= t < n - k ==> groups_view((#[trigger] rest@[t])@) == orig[n - 1 - t],
            groups_view(out@) == concat_playlists(orig.take(k as int)),
        decreases n - k,
    {
        let mut groups: Vec<PlaylistGroup> = rest.pop().unwrap();
        assert(groups_view(groups@) == orig[k as int]);
        let ghost before = out@;
        let ghost added = groups@;
        out.append(&mut groups);
        assert(orig.take(k + 1).drop_last() =~= orig.take(k as int));
        assert(groups_view(out@) =~= groups_view(before) + groups_view(added));
        k = k + 1;
    }
    assert(orig.take(n as int) =~= orig);
    out
}

/// The name a target carries when its configuration gives it none.
pub const DEFAULT_TARGET_NAME: &'static str = "default";

/// A character's code with ASCII upper case letters lowered.
pub open spec fn ascii_lower_code(c: char) -> u32 {
    if 65 <= (c as u32) <= 90 {
        (c as u32 + 32) as u32
    } else {
        c as u32
    }
}

/// Equality of two texts when ASCII letters are compared without case
/// (`str::eq_ignore_ascii_case`).
pub open spec fn eq_ignore_ascii_case(a: Seq<char>, b: Seq<char>) -> bool {
    a.len() == b.len() && forall|i: int| 0 <= i < a.len() ==> ascii_lower_code(#[trigger] a[i]) == ascii_lower_code(b[i])
}

fn lower_code(c: char) -> (r: u32)
    ensures
        r == ascii_lower_code(c),
{
    let v: u32 = c as u32;
    if 65 <= v && v <= 90 {
        v + 32
    } else {
        v
    }
}

/// `str::eq_ignore_ascii_case`.
pub fn str_eq_ignore_ascii_case(a: &str, b: &str) -> (r: bool)
    ensures
        r == eq_ignore_ascii_case(a@, b@),
{
    let n: usize = a.unicode_len();
    if n != b.unicode_len() {
        return false;
    }
    let mut i: usize = 0;
    while i < n
        invariant
            n == a@.len(),
            n == b@.len(),
            i <= n,
            forall|t: int| 0 <= t < i ==> ascii_lower_code(#[trigger] a@[t]) == ascii_lower_code(b@[t]),
        decreases n - i,
    {
        if lower_code(a.get_char(i)) != lower_code(b.get_char(i)) {
            return false;
        }
        i = i + 1;
    }
    true
}

/// Why the groups of a target cannot be watched.
#[derive(Debug, Clone, Copy, PartialEq, Eq, Structural)]
pub enum WatchError {
    /// The target carries the default name, which does not tell it apart.
    NoUniqueName,
}

impl WatchError {
    /// The error's message.
    pub fn message(&self) -> (r: String)
        ensures
            r@ == "cant watch a target with no unique name"@,
    {
        String::from_str("cant watch a target with no unique name")
    }
}

/// Whether one of the patterns matches the title.
pub open spec fn any_pattern_matches(patterns: Seq<String>, title: Seq<char>) -> bool {
    exists|k: int| 0 <= k < patterns.len() && regex_matches((#[trigger] patterns[k])@, title)
}

/// The indices of the groups whose titles one of the patterns matches, in
/// order.
pub open spec fn watched_indices(patterns: Seq<String>, groups: Seq<GroupSpec>) -> Seq<usize>
    decreases groups.len(),
{
    if groups.len() == 0 {
        seq![]
    } else {
        let earlier = watched_indices(patterns, groups.drop_last());
        if any_pattern_matches(patterns, groups.last().title) {
            earlier.push((groups.len() - 1) as usize)
        } else {
            earlier
        }
    }
}

/// The watched groups of a target, by index: none when the target watches
/// nothing; an error when it carries the default name (compared without
/// ASCII case); otherwise each group whose title a watch pattern matches.
pub open spec fn spec_process_watch(target: ConfigTarget, groups: Seq<GroupSpec>) -> Result<
    Seq<usize>,
    WatchError,
> {
    match target.t_watch {
        None => Ok(seq![]),
        Some(ws) => if eq_ignore_ascii_case(DEFAULT_TARGET_NAME@, target.name@) {
            Err(WatchError::NoUniqueName)
        } else {
            Ok(watched_indices(ws@, groups))
        },
    }
}

fn title_watched(patterns: &Vec<String>, title: &str) -> (r: bool)
    requires
        forall|k: int| 0 <= k < patterns@.len() ==> regex_valid(#[trigger] patterns@[k]@),
    ensures
        r == any_pattern_matches(patterns@, title@),
{
    let n: usize = patterns.len();
    let mut k: usize = 0;
    while k < n
        invariant
            n == patterns@.len(),
            k <= n,
            forall|t: int| 0 <= t < n ==> regex_valid(#[trigger] patterns@[t]@),
            forall|t: int| 0 <= t < k ==> !regex_matches((#[trigger] patterns@[t])@, title@),
        decreases n - k,
    {
        if regex_is_match(patterns[k].as_str(), title) {
            return true;
        }
        k = k + 1;
    }
    false
}

/// Selects the groups whose changes are watched (see [`spec_process_watch`]).
pub fn process_watch(target: &ConfigTarget, new_playlist: &Vec<PlaylistGroup>) -> (r: Result<
    Vec<usize>,
    WatchError,
>)
    requires
        target_wf(*target),
    ensures
        match r {
            Ok(v) => spec_process_watch(*target, groups_view(new_playlist@)) == Ok::<
                Seq<usize>,
                WatchError,
            >(v@),
            Err(e) => spec_process_watch(*target, groups_view(new_playlist@)) == Err::<
                Seq<usize>,
                WatchError,
            >(e),
        },
{
    match &target.t_watch {
        None => Ok(Vec::new()),
        Some(patterns) => {
            if str_eq_ignore_ascii_case(DEFAULT_TARGET_NAME, target.name.as_str()) {
                return Err(WatchError::NoUniqueName);
            }
            let ghost gv = groups_view(new_playlist@);
            let n: usize = new_playlist.len();
            let mut out: Vec<usize> = Vec::new();
            let mut g: usize = 0;
            while g < n
                invariant
                    n == new_playlist@.len(),
                    gv == groups_view(new_playlist@),
                    g <= n,
                    forall|t: int| 0 <= t < patterns@.len() ==> regex_valid(#[trigger] patterns@[t]@),
                    out@ == watched_indices(patterns@, gv.take(g as int)),
                decreases n - g,
            {
                assert(gv.take(g + 1).drop_last() =~= gv.take(g as int));
                assert(gv.take(g + 1).last() == gv[g as int]);
                if title_watched(patterns, new_playlist[g].title.as_str()) {
                    out.push(g);
                }
                g = g + 1;
            }
            assert(gv.take(n as int) =~= gv);
            Ok(out)
        },
    }
}

} // verus!

verus! {

/// The watched groups are exactly those whose title a watch pattern
/// matches, each named once, in playlist order.
pub proof fn law_watched_groups_exact(patterns: Seq<String>, groups: Seq<GroupSpec>)
    requires
        groups.len() <= usize::MAX,
    ensures
        forall|k: int|
            0 <= k < watched_indices(patterns, groups).len() ==> {
                let i = #[trigger] watched_indices(patterns, groups)[k];
                i < groups.len() && any_pattern_matches(patterns, groups[i as int].title)
            },
        forall|a: int, b: int|
            0 <= a < b < watched_indices(patterns, groups).len() ==> #[trigger] watched_indices(
                patterns,
                groups,
            )[a] < #[trigger] watched_indices(patterns, groups)[b],
        forall|i: int|
            0 <= i < groups.len() && any_pattern_matches(patterns, (#[trigger] groups[i]).title)
                ==> watched_indices(patterns, groups).contains(i as usize),
    decreases groups.len(),
{
    if groups.len() > 0 {
        let init = groups.drop_last();
        law_watched_groups_exact(patterns, init);
        let earlier = watched_indices(patterns, init);
        let w = watched_indices(patterns, groups);
        assert forall|k: int| 0 <= k < earlier.len() implies (#[trigger] earlier[k]) < init.len() by {}
        assert forall|k: int|
            0 <= k < w.len() implies {
                let i = #[trigger] w[k];
                i < groups.len() && any_pattern_matches(patterns, groups[i as int].title)
            } by {
            if k < earlier.len() {
                assert(w[k] == earlier[k]);
                assert(init[earlier[k] as int] == groups[earlier[k] as int]);
            }
        }
        assert forall|a: int, b: int| 0 <= a < b < w.len() implies #[trigger] w[a] < #[trigger] w[b] by {
            if b < earlier.len() {
                assert(w[a] == earlier[a] && w[b] == earlier[b]);
            } else {
                assert(w[a] == earlier[a]);
                assert(earlier[a] < init.len());
            }
        }
        assert forall|i: int|
            0 <= i < groups.len() && any_pattern_matches(patterns, (#[trigger] groups[i]).title)
                implies w.contains(i as usize) by {
            if i < groups.len() - 1 {
                assert(init[i] == groups[i]);
                assert(earlier.contains(i as usize));
                let j = choose|j: int| 0 <= j < earlier.len() && earlier[j] == i as usize;
                assert(w[j] == i as usize);
            } else {
                assert(w.last() == i as usize);
            }
        }
    }
}

} // verus!

verus! {

/// How many of the items a filter matches.
pub open spec fn match_count(f: Filter, items: Seq<ItemSpec>) -> nat
    decreases items.len(),
{
    if items.len() == 0 {
        0
    } else {
        match_count(f, items.drop_last()) + if filter_matches(f, items.last()) {
            1nat
        } else {
            0nat
        }
    }
}

/// A counter leaves the items its filter does not match as they are, keeps
/// the number of items, and advances (wrapping) by the number of matches.
pub proof fn law_counter_advances_by_matches(c: MappingCounter, items: Seq<ItemSpec>, value: u32)
    ensures
        count_items(c, items, value).0.len() == items.len(),
        forall|k: int|
            0 <= k < items.len() && !filter_matches(c.filter, #[trigger] items[k]) ==> count_items(
                c,
                items,
                value,
            ).0[k] == items[k],
        count_items(c, items, value).1 as nat == (value as nat + match_count(c.filter, items)) % 0x1_0000_0000,
    decreases items.len(),
{
    if items.len() > 0 {
        let init = items.drop_last();
        law_counter_advances_by_matches(c, init, value);
        let (done, v) = count_items(c, init, value);
        let r = count_items(c, items, value).0;
        assert forall|k: int|
            0 <= k < items.len() && !filter_matches(c.filter, #[trigger] items[k]) implies r[k] == items[k] by {
            if k < items.len() - 1 {
                assert(r[k] == done[k]);
                assert(init[k] == items[k]);
            }
        }
        let m = match_count(c.filter, init);
        assert((((value as nat + m) % 0x1_0000_0000) + 1) % 0x1_0000_0000 == (value as nat + m + 1)
            % 0x1_0000_0000) by (nonlinear_arith);
    }
}

} // verus!

verus! {

/// Whether channel numbering stays within `u32` for this playlist, that is
/// whether [`assign_channel_no_playlist`] may run on it.
#[verifier::rlimit(50)]
pub fn channel_numbers_fit(playlist: &Vec<PlaylistGroup>) -> (r: bool)
    ensures
        r == chno_fits(all_channels(groups_view(playlist@))),
{
    let ghost gv = groups_view(playlist@);
    let ghost all = all_channels(gv);
    let assigned_chnos: std::collections::HashSet<u32> = collect_taken(playlist);
    let ghost taken = taken_chnos(all);
    let mut chno: u32 = 1;
    let n: usize = playlist.len();
    let mut g: usize = 0;
    while g < n
        invariant
            n == gv.len(),
            gv == groups_view(playlist@),
            g <= n,
            assigned_chnos@ == taken,
            taken == taken_chnos(all),
            all == all_channels(gv),
            chno as nat == chno_counter(all_channels(gv.take(g as int)), taken),
            all_channels(gv.take(g as int)).len() <= all.len(),
            forall|k: int|
                0 <= k < all_channels(gv.take(g as int)).len() && (#[trigger] all[k]).chno.len() == 0
                    ==> next_free(taken, chno_counter(all.take(k), taken)) < u32::MAX,
        decreases n - g,
    {
        let ghost before = all_channels(gv.take(g as int));
        let ghost chs = gv[g as int].channels;
        let channels: &Vec<PlaylistItem> = &playlist[g].channels;
        assert(chs == items_view(channels@));
        proof {
            lemma_all_channels_take(gv, g as int);
            lemma_all_channels_prefix_len(gv, g + 1);
            lemma_take_prefix_of_all(gv, g + 1);
            lemma_take_prefix_of_all(gv, g as int);
        }
        let ghost l = (before + chs).len() as int;
        assert(before + chs =~= all.take(l));
        let m: usize = channels.len();
        let mut j: usize = 0;
        assert(before + chs.take(0) =~= before);
        while j < m
            invariant
                m == chs.len(),
                chs == items_view(channels@),
                j <= m,
                assigned_chnos@ == taken,
                taken == taken_chnos(all),
                all == all_channels(gv),
                gv == groups_view(playlist@),
                l == (before + chs).len(),
                l <= all.len(),
                before + chs == all.take(l),
                chno as nat == chno_counter(before + chs.take(j as int), taken),
                forall|k: int|
                    0 <= k < before.len() + j && (#[trigger] all[k]).chno.len() == 0 ==> next_free(
                        taken,
                        chno_counter(all.take(k), taken),
                    ) < u32::MAX,
            decreases m - j,
        {
            let ghost k = before.len() + j;
            assert((before + chs.take(j + 1)).drop_last() =~= before + chs.take(j as int));
            assert((before + chs.take(j + 1)).last() == chs[j as int]);
            assert(all.take(k) =~= (before + chs).take(k));
            assert((before + chs).take(k) =~= before + chs.take(j as int));
            assert(all.take(l)[k] == all[k]);
            assert((before + chs)[k] == chs[j as int]);
            assert(all[k] == chs[j as int]);
            assert(channels@[j as int]@ == chs[j as int]);
            let empty: bool = channels[j].header.chno.as_str().unicode_len() == 0;
            if empty {
                let ghost c0 = chno as nat;
                assert(c0 == chno_counter(all.take(k), taken));
                assert(0 <= k < all.len() && all[k].chno.len() == 0);
                if chno == u32::MAX {
                    assert(next_free(taken, c0) >= c0) by {
                        lemma_next_free_ge(taken, c0);
                    }
                    assert(!chno_fits(all));
                    return false;
                }
                while assigned_chnos.contains(&chno)
                    invariant
                        next_free(taken, c0) == next_free(taken, chno as nat),
                        chno < u32::MAX,
                        assigned_chnos@ == taken,
                        taken == taken_chnos(all),
                        c0 == chno_counter(all.take(k), taken),
                        0 <= k < all.len(),
                        all[k].chno.len() == 0,
                        all == all_channels(groups_view(playlist@)),
                    decreases u32::MAX - chno,
                {
                    if chno + 1 == u32::MAX {
                        assert(next_free(taken, chno as nat) == next_free(taken, (chno + 1) as nat));
                        assert(next_free(taken, (chno + 1) as nat) >= u32::MAX) by {
                            lemma_next_free_ge(taken, (chno + 1) as nat);
                        }
                        assert(all[k].chno.len() == 0 && !(next_free(taken, chno_counter(all.take(k), taken))
                            < u32::MAX));
                        assert(!chno_fits(all));
                        return false;
                    }
                    chno = chno + 1;
                }
                assert(next_free(taken, chno as nat) == chno as nat);
                chno = chno + 1;
            }
            j = j + 1;
        }
        assert(chs.take(m as int) =~= chs);
        g = g + 1;
    }
    proof {
        lemma_all_channels_full(gv);
    }
    assert(gv.take(n as int) =~= gv);
    true
}

} // verus!

verus! {

/// Renaming with no rules leaves an item as it is, and one more rule
/// rewrites exactly the field it names: that field becomes the rule's
/// regular-expression replacement (`replace_all`) of what the earlier
/// rules left, and every other field, text or not, stays as the earlier
/// rules left it.
pub proof fn law_rename_rule_rewrites_its_field(renames: Seq<ConfigRename>, r: ConfigRename, item: ItemSpec)
    ensures
        renamed_item(seq![], item) == item,
        forall|f: ItemField| #[trigger] field_value(renamed_item(renames.push(r), item), f) == if r.field == f {
            regex_replace_all(r.pattern@, field_value(renamed_item(renames, item), f), r.new_name@)
        } else {
            field_value(renamed_item(renames, item), f)
        },
        renamed_item(renames.push(r), item).id == item.id,
        renamed_item(renames.push(r), item).uuid == item.uuid,
        renamed_item(renames.push(r), item).chno == item.chno,
        renamed_item(renames.push(r), item).xtream_cluster == item.xtream_cluster,
        renamed_item(renames.push(r), item).item_type == item.item_type,
        renamed_item(renames.push(r), item).virtual_id == item.virtual_id,
        renamed_item(renames.push(r), item).additional_properties == item.additional_properties,
{
    assert(renames.push(r).drop_last() =~= renames);
    assert(renamed_item(seq![], item) =~= item);
}

/// A group made by regrouping holds at least one item, is titled with the
/// group name of its first item and takes that item's cluster; every item
/// it holds carries its title as group name.
pub proof fn law_regroup_takes_first_item(items: Seq<ItemSpec>)
    ensures
        forall|k: int|
            0 <= k < regroup(items).len() ==> {
                let g = #[trigger] regroup(items)[k];
                &&& g.channels.len() > 0
                &&& g.title == g.channels[0].group
                &&& g.xtream_cluster == g.channels[0].xtream_cluster
                &&& forall|j: int| 0 <= j < g.channels.len() ==> (#[trigger] g.channels[j]).group == g.title
            },
    decreases items.len(),
{
    if items.len() > 0 {
        law_regroup_takes_first_item(items.drop_last());
        let gs = regroup(items.drop_last());
        let c = items.last();
        let r = regroup(items);
        match find_group(gs, c.group) {
            Some(i) => {
                lemma_find_group_bound(gs, c.group);
                assert forall|k: int| 0 <= k < r.len() implies {
                    let g = #[trigger] r[k];
                    &&& g.channels.len() > 0
                    &&& g.title == g.channels[0].group
                    &&& g.xtream_cluster == g.channels[0].xtream_cluster
                    &&& forall|j: int| 0 <= j < g.channels.len() ==> (#[trigger] g.channels[j]).group == g.title
                } by {
                    let g0 = gs[k];
                    if k == i {
                        let g = r[k];
                        assert(g.channels == g0.channels.push(c));
                        assert(g.channels[0] == g0.channels[0]);
                        assert forall|j: int| 0 <= j < g.channels.len() implies (#[trigger] g.channels[j]).group
                            == g.title by {
                            if j < g0.channels.len() {
                                assert(g.channels[j] == g0.channels[j]);
                            }
                        }
                    }
                }
            },
            None => {
                assert forall|k: int| 0 <= k < r.len() implies {
                    let g = #[trigger] r[k];
                    &&& g.channels.len() > 0
                    &&& g.title == g.channels[0].group
                    &&& g.xtream_cluster == g.channels[0].xtream_cluster
                    &&& forall|j: int| 0 <= j < g.channels.len() ==> (#[trigger] g.channels[j]).group == g.title
                } by {
                    if k < gs.len() {
                        assert(r[k] == gs[k]);
                    }
                }
            },
        }
    }
}

} // verus!

verus! {

/// The rules for a field are applied in order: with no rules a text stays
/// as it is, and one more rule for the field replaces, with its regular
/// expression, what the earlier rules left; a rule for another field leaves
/// the text alone. Renaming an item rewrites each of its text fields this
/// way.
pub proof fn law_rename_rules_apply_in_order(
    renames: Seq<ConfigRename>,
    r: ConfigRename,
    field: ItemField,
    value: Seq<char>,
    item: ItemSpec,
)
    ensures
        apply_renames(seq![], field, value) == value,
        apply_renames(renames.push(r), field, value) == if r.field == field {
            regex_replace_all(r.pattern@, apply_renames(renames, field, value), r.new_name@)
        } else {
            apply_renames(renames, field, value)
        },
        field_value(renamed_item(renames, item), field) == apply_renames(renames, field, field_value(item, field)),
{
    assert(renames.push(r).drop_last() =~= renames);
}

/// Renaming a playlist keeps its groups, in order, with their ids and
/// clusters and as many items; a group's title becomes what the rules for
/// the group field make of it, and each item is renamed in place. Without
/// rules nothing changes.
pub proof fn law_rename_playlist_in_place(groups: Seq<GroupSpec>, rename: Option<Vec<ConfigRename>>)
    ensures
        spec_rename_playlist(groups, rename).len() == groups.len(),
        forall|k: int|
            0 <= k < groups.len() ==> {
                let g = #[trigger] spec_rename_playlist(groups, rename)[k];
                &&& g.id == groups[k].id
                &&& g.xtream_cluster == groups[k].xtream_cluster
                &&& g.channels.len() == groups[k].channels.len()
                &&& match rename {
                    Some(rs) => g.title == apply_renames(rs@, ItemField::Group, groups[k].title) && forall|j: int|
                        0 <= j < g.channels.len() ==> #[trigger] g.channels[j] == renamed_item(
                            rs@,
                            groups[k].channels[j],
                        ),
                    None => g == groups[k],
                }
            },
{
    match rename {
        Some(rs) => {
            if rs@.len() == 0 {
                assert forall|k: int| 0 <= k < groups.len() implies {
                    let g = #[trigger] spec_rename_playlist(groups, rename)[k];
                    g.title == apply_renames(rs@, ItemField::Group, groups[k].title) && forall|j: int|
                        0 <= j < g.channels.len() ==> #[trigger] g.channels[j] == renamed_item(
                            rs@,
                            groups[k].channels[j],
                        )
                } by {
                    let g = spec_rename_playlist(groups, rename)[k];
                    assert(rs@ =~= Seq::<ConfigRename>::empty());
                    assert forall|j: int| 0 <= j < g.channels.len() implies #[trigger] g.channels[j] == renamed_item(
                        rs@,
                        groups[k].channels[j],
                    ) by {
                        assert(renamed_item(rs@, groups[k].channels[j]) =~= groups[k].channels[j]);
                    }
                }
            }
        },
        None => {},
    }
}

} // verus!

verus! {

proof fn lemma_filter_items_is_filter(items: Seq<ItemSpec>, f: Option<Filter>)
    ensures
        filter_items(items, f) == items.filter(|i: ItemSpec| target_keeps(f, i)),
    decreases items.len(),
{
    reveal(Seq::filter);
    if items.len() > 0 {
        lemma_filter_items_is_filter(items.drop_last(), f);
    }
}

/// The filter step keeps exactly the items the filter accepts, in their
/// playlist order: the items of the filtered playlist, group after group,
/// are the accepted items of the original playlist.
pub proof fn law_filter_keeps_exactly_accepted(groups: Seq<GroupSpec>, f: Option<Filter>)
    ensures
        all_channels(spec_filter_playlist(groups, f)) == all_channels(groups).filter(
            |i: ItemSpec| target_keeps(f, i),
        ),
    decreases groups.len(),
{
    if groups.len() > 0 {
        let init = groups.drop_last();
        law_filter_keeps_exactly_accepted(init, f);
        let g = groups.last();
        lemma_filter_items_is_filter(g.channels, f);
        Seq::filter_distributes_over_add(all_channels(init), g.channels, |i: ItemSpec| target_keeps(f, i));
        let earlier = spec_filter_playlist(init, f);
        let kept = filter_items(g.channels, f);
        if kept.len() > 0 {
            let r = earlier.push(GroupSpec { channels: kept, ..g });
            assert(r.drop_last() =~= earlier);
        } else {
            assert(all_channels(earlier) + kept =~= all_channels(earlier));
        }
    } else {
        reveal(Seq::filter);
        assert(all_channels(groups).filter(|i: ItemSpec| target_keeps(f, i)) =~= Seq::<ItemSpec>::empty());
    }
}

} // verus!

verus! {

/// The items of all groups with the given title and cluster, in order.
pub open spec fn key_channels(groups: Seq<GroupSpec>, title: Seq<char>, cluster: XtreamCluster) -> Seq<ItemSpec>
    decreases groups.len(),
{
    if groups.len() == 0 {
        seq![]
    } else {
        let g = groups.last();
        key_channels(groups.drop_last(), title, cluster) + if g.title == title && g.xtream_cluster == cluster {
            g.channels
        } else {
            seq![]
        }
    }
}

proof fn lemma_find_group_key_match(groups: Seq<GroupSpec>, title: Seq<char>, cluster: XtreamCluster)
    ensures
        find_group_key(groups, title, cluster) matches Some(i) ==> i < groups.len() && groups[i as int].title
            == title && groups[i as int].xtream_cluster == cluster,
    decreases groups.len(),
{
    if groups.len() > 0 {
        lemma_find_group_key_match(groups.drop_last(), title, cluster);
    }
}

proof fn lemma_key_channels_absent(groups: Seq<GroupSpec>, title: Seq<char>, cluster: XtreamCluster)
    requires
        forall|t: int| 0 <= t < groups.len() ==> !((#[trigger] groups[t]).title == title && groups[t].xtream_cluster
            == cluster),
    ensures
        key_channels(groups, title, cluster) == Seq::<ItemSpec>::empty(),
    decreases groups.len(),
{
    if groups.len() > 0 {
        let init = groups.drop_last();
        assert forall|t: int| 0 <= t < init.len() implies !((#[trigger] init[t]).title == title && init[t].xtream_cluster
            == cluster) by {
            assert(init[t] == groups[t]);
        }
        lemma_key_channels_absent(init, title, cluster);
        assert(groups.last() == groups[groups.len() - 1]);
        assert(key_channels(groups, title, cluster) =~= Seq::<ItemSpec>::empty());
    }
}

/// Merging puts all items of the groups with one title and cluster into
/// one group, in their playlist order, and every title and cluster of the
/// playlist keeps a group: a merged group holds exactly the items of the
/// original groups with its title and cluster.
pub proof fn law_merge_collects_same_key(groups: Seq<GroupSpec>)
    ensures
        forall|k: int|
            0 <= k < merge_groups(groups).len() ==> (#[trigger] merge_groups(groups)[k]).channels == key_channels(
                groups,
                merge_groups(groups)[k].title,
                merge_groups(groups)[k].xtream_cluster,
            ),
        forall|t: int|
            0 <= t < groups.len() ==> exists|k: int|
                0 <= k < merge_groups(groups).len() && (#[trigger] merge_groups(groups)[k]).title
                    == (#[trigger] groups[t]).title && merge_groups(groups)[k].xtream_cluster
                    == groups[t].xtream_cluster,
    decreases groups.len(),
{
    if groups.len() > 0 {
        let init = groups.drop_last();
        law_merge_collects_same_key(init);
        law_merge_groups_unique(init);
        let merged = merge_groups(init);
        let g = groups.last();
        let r = merge_groups(groups);
        lemma_find_group_key_match(merged, g.title, g.xtream_cluster);
        lemma_find_group_key_none(merged, g.title, g.xtream_cluster);
        match find_group_key(merged, g.title, g.xtream_cluster) {
            Some(i) => {
                assert forall|k: int| 0 <= k < r.len() implies (#[trigger] r[k]).channels == key_channels(
                    groups,
                    r[k].title,
                    r[k].xtream_cluster,
                ) by {
                    assert(r[k].title == merged[k].title && r[k].xtream_cluster == merged[k].xtream_cluster);
                    if k != i {
                        assert(merged[k].channels == key_channels(init, merged[k].title, merged[k].xtream_cluster));
                        if k < i {
                            assert(!(merged[k].title == merged[i as int].title && merged[k].xtream_cluster
                                == merged[i as int].xtream_cluster));
                        } else {
                            assert(!(merged[i as int].title == merged[k].title && merged[i as int].xtream_cluster
                                == merged[k].xtream_cluster));
                        }
                        assert(key_channels(groups, r[k].title, r[k].xtream_cluster) =~= key_channels(
                            init,
                            r[k].title,
                            r[k].xtream_cluster,
                        ));
                    } else {
                        assert(merged[k].channels == key_channels(init, merged[k].title, merged[k].xtream_cluster));
                    }
                }
                assert forall|t: int| 0 <= t < groups.len() implies exists|k: int|
                    0 <= k < r.len() && (#[trigger] r[k]).title == (#[trigger] groups[t]).title && r[k].xtream_cluster
                        == groups[t].xtream_cluster by {
                    if t < init.len() {
                        assert(init[t] == groups[t]);
                        let k = choose|k: int|
                            0 <= k < merged.len() && (#[trigger] merged[k]).title == (#[trigger] init[t]).title
                                && merged[k].xtream_cluster == init[t].xtream_cluster;
                        assert(r[k].title == merged[k].title && r[k].xtream_cluster == merged[k].xtream_cluster);
                    } else {
                        assert(groups[t] == g);
                        assert(r[i as int].title == merged[i as int].title);
                    }
                }
            },
            None => {
                assert(r == merged.push(g));
                assert forall|k: int| 0 <= k < r.len() implies (#[trigger] r[k]).channels == key_channels(
                    groups,
                    r[k].title,
                    r[k].xtream_cluster,
                ) by {
                    if k < merged.len() {
                        assert(r[k] == merged[k]);
                        assert(!(merged[k].title == g.title && merged[k].xtream_cluster == g.xtream_cluster));
                        assert(key_channels(groups, r[k].title, r[k].xtream_cluster) =~= key_channels(
                            init,
                            r[k].title,
                            r[k].xtream_cluster,
                        ));
                    } else {
                        assert(r[k] == g);
                        assert forall|t: int| 0 <= t < init.len() implies !((#[trigger] init[t]).title == g.title
                            && init[t].xtream_cluster == g.xtream_cluster) by {
                            if init[t].title == g.title && init[t].xtream_cluster == g.xtream_cluster {
                                let kk = choose|kk: int|
                                    0 <= kk < merged.len() && (#[trigger] merged[kk]).title == (#[trigger] init[t]).title
                                        && merged[kk].xtream_cluster == init[t].xtream_cluster;
                                assert(!(merged[kk].title == g.title && merged[kk].xtream_cluster == g.xtream_cluster));
                            }
                        }
                        lemma_key_channels_absent(init, g.title, g.xtream_cluster);
                        assert(key_channels(groups, g.title, g.xtream_cluster) =~= g.channels);
                    }
                }
                assert forall|t: int| 0 <= t < groups.len() implies exists|k: int|
                    0 <= k < r.len() && (#[trigger] r[k]).title == (#[trigger] groups[t]).title && r[k].xtream_cluster
                        == groups[t].xtream_cluster by {
                    if t < init.len() {
                        assert(init[t] == groups[t]);
                        let k = choose|k: int|
                            0 <= k < merged.len() && (#[trigger] merged[k]).title == (#[trigger] init[t]).title
                                && merged[k].xtream_cluster == init[t].xtream_cluster;
                        assert(r[k] == merged[k]);
                    } else {
                        assert(groups[t] == g);
                        assert(r[merged.len() as int] == g);
                    }
                }
            },
        }
    }
}

} // verus!
