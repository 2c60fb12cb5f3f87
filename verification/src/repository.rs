//! What a target's playlist looks like when it is stored: the item types
//! fixed before persisting, the items of the M3U database, the stream URLs
//! of a rewritten M3U playlist and the text that joins its lines.

use vstd::prelude::*;
use vstd::string::*;
use crate::config::ProxyType;
use crate::playlist::{
    GroupSpec, ItemSpec, PlaylistGroup, PlaylistItem, PlaylistItemType, all_channels, groups_view,
    items_view, provider_id,
};
use crate::text::{concat_str, dec_digits, ends_with, push_decimal, str_ends_with};

verus! {

// ---------------------------------------------------------------------------
// Item types
// ---------------------------------------------------------------------------

/// The type an item is stored with: an item without provider id (or with
/// id 0) is a live stream, HLS when its URL ends in `.m3u8`; other items
/// keep their type.
pub open spec fn persisted_item_type(item: ItemSpec) -> PlaylistItemType {
    let pid: u32 = match provider_id(item) {
        Some(v) => v,
        None => 0,
    };
    if pid == 0 {
        if ends_with(item.url, ".m3u8"@) {
            PlaylistItemType::LiveHls
        } else {
            PlaylistItemType::LiveUnknown
        }
    } else {
        item.item_type
    }
}

pub open spec fn with_persisted_type(item: ItemSpec) -> ItemSpec {
    ItemSpec { item_type: persisted_item_type(item), ..item }
}

pub open spec fn retyped_group(g: GroupSpec) -> GroupSpec {
    GroupSpec { channels: g.channels.map_values(|i: ItemSpec| with_persisted_type(i)), ..g }
}

/// The playlist with every item's stored type.
pub open spec fn retyped_groups(groups: Seq<GroupSpec>) -> Seq<GroupSpec> {
    groups.map_values(|g: GroupSpec| retyped_group(g))
}

/// Gives every item the type it is stored with (see
/// [`persisted_item_type`]); nothing else changes.
pub fn assign_persisted_item_types(playlist: &mut Vec<PlaylistGroup>)
    ensures
        groups_view(final(playlist)@) == retyped_groups(groups_view(old(playlist)@)),
{
    let ghost gv = groups_view(playlist@);
    let n: usize = playlist.len();
    let mut g: usize = 0;
    while g < n
        invariant
            n == playlist@.len(),
            n == gv.len(),
            gv == groups_view(old(playlist)@),
            g <= n,
            forall|t: int| 0 <= t < g ==> (#[trigger] playlist@[t])@ == retyped_groups(gv)[t],
            forall|t: int| g <= t < n ==> (#[trigger] playlist@[t])@ == gv[t],
        decreases n - g,
    {
        let ghost chs = gv[g as int].channels;
        let m: usize = playlist[g].channels.len();
        let mut j: usize = 0;
        while j < m
            invariant
                n == playlist@.len(),
                n == gv.len(),
                g < n,
                chs == gv[g as int].channels,
                m == chs.len(),
                m == playlist@[g as int].channels@.len(),
                j <= m,
                playlist@[g as int].id == gv[g as int].id,
                playlist@[g as int].title@ == gv[g as int].title,
                playlist@[g as int].xtream_cluster == gv[g as int].xtream_cluster,
                forall|t: int|
                    0 <= t < j ==> (#[trigger] playlist@[g as int].channels@[t])@ == with_persisted_type(chs[t]),
                forall|t: int| j <= t < m ==> (#[trigger] playlist@[g as int].channels@[t])@ == chs[t],
                forall|t: int| 0 <= t < g ==> (#[trigger] playlist@[t])@ == retyped_groups(gv)[t],
                forall|t: int| g < t < n ==> (#[trigger] playlist@[t])@ == gv[t],
            decreases m - j,
        {
            let pid: u32 = match playlist[g].channels[j].get_provider_id() {
                Some(v) => v,
                None => 0,
            };
            if pid == 0 {
                let hls: bool = str_ends_with(playlist[g].channels[j].header.url.as_str(), ".m3u8");
                if hls {
                    playlist[g].channels[j].header.item_type = PlaylistItemType::LiveHls;
                } else {
                    playlist[g].channels[j].header.item_type = PlaylistItemType::LiveUnknown;
                }
            }
            assert(playlist@[g as int].channels@[j as int]@ == with_persisted_type(chs[j as int]));
            j = j + 1;
        }
        proof {
            assert(items_view(playlist@[g as int].channels@) =~= chs.map_values(
                |i: ItemSpec| with_persisted_type(i),
            ));
            assert(playlist@[g as int]@ =~~= retyped_groups(gv)[g as int]);
        }
        g = g + 1;
    }
    assert(groups_view(playlist@) =~~= retyped_groups(gv));
}

// ---------------------------------------------------------------------------
// The M3U database
// ---------------------------------------------------------------------------

/// The items an M3U target stores: all but series infos, in order.
pub open spec fn m3u_items(items: Seq<ItemSpec>) -> Seq<ItemSpec>
    decreases items.len(),
{
    if items.len() == 0 {
        seq![]
    } else {
        let earlier = m3u_items(items.drop_last());
        if items.last().item_type == PlaylistItemType::SeriesInfo {
            earlier
        } else {
            earlier.push(items.last())
        }
    }
}

/// The items of a playlist that go into the M3U database, group after
/// group, series infos left out.
pub fn m3u_playlist_items(playlist: Vec<PlaylistGroup>) -> (r: Vec<PlaylistItem>)
    ensures
        items_view(r@) == m3u_items(all_channels(groups_view(playlist@))),
{
    let ghost orig = groups_view(playlist@);
    let n: usize = playlist.len();
    let mut rest: Vec<PlaylistGroup> = crate::processing::reversed(playlist);
    let mut out: Vec<PlaylistItem> = Vec::new();
    let mut k: usize = 0;
    while k < n
        invariant
            n == orig.len(),
            k <= n,
            rest@.len() == n - k,
            forall|t: int| 0 <= t < n - k ==> (#[trigger] rest@[t])@ == orig[n - 1 - t],
            items_view(out@) == m3u_items(all_channels(orig.take(k as int))),
        decreases n - k,
    {
        let group: PlaylistGroup = rest.pop().unwrap();
        assert(group@ == orig[k as int]);
        let ghost before = all_channels(orig.take(k as int));
        let ghost chs = orig[k as int].channels;
        assert(orig.take(k + 1).drop_last() =~= orig.take(k as int));
        assert(all_channels(orig.take(k + 1)) == before + chs);
        let m: usize = group.channels.len();
        let mut items: Vec<PlaylistItem> = crate::processing::reversed(group.channels);
        let mut j: usize = 0;
        assert(before + chs.take(0) =~= before);
        while j < m
            invariant
                m == chs.len(),
                j <= m,
                items@.len() == m - j,
                forall|t: int| 0 <= t < m - j ==> (#[trigger] items@[t])@ == chs[m - 1 - t],
                items_view(out@) == m3u_items(before + chs.take(j as int)),
            decreases m - j,
        {
            let item: PlaylistItem = items.pop().unwrap();
            assert(item@ == chs[j as int]);
            assert((before + chs.take(j + 1)).drop_last() =~= before + chs.take(j as int));
            assert((before + chs.take(j + 1)).last() == chs[j as int]);
            if item.header.item_type != PlaylistItemType::SeriesInfo {
                out.push(item);
                assert(items_view(out@) =~= m3u_items(before + chs.take(j as int)).push(chs[j as int]));
            }
            j = j + 1;
        }
        assert(chs.take(m as int) =~= chs);
        k = k + 1;
    }
    assert(orig.take(n as int) =~= orig);
    out
}

// ---------------------------------------------------------------------------
// Rewritten M3U playlists
// ---------------------------------------------------------------------------

/// The URL under which a user's reverse proxied stream is served, or none
/// when the user is redirected to the provider:
/// `{base}/m3u-stream/{username}/{password}/{virtual id}`.
pub open spec fn spec_m3u_stream_url(
    proxy: ProxyType,
    base_url: Seq<char>,
    username: Seq<char>,
    password: Seq<char>,
    virtual_id: u32,
) -> Option<Seq<char>> {
    match proxy {
        ProxyType::Reverse => Some(
            base_url + "/m3u-stream/"@ + username + "/"@ + password + "/"@ + dec_digits(
                virtual_id as nat,
            ),
        ),
        ProxyType::Redirect => None,
    }
}

/// The stream URL written into a user's M3U playlist (see
/// [`spec_m3u_stream_url`]).
pub fn m3u_stream_url(
    proxy: ProxyType,
    base_url: &str,
    username: &str,
    password: &str,
    virtual_id: u32,
) -> (r: Option<String>)
    ensures
        match r {
            Some(s) => spec_m3u_stream_url(proxy, base_url@, username@, password@, virtual_id)
                == Some(s@),
            None => spec_m3u_stream_url(proxy, base_url@, username@, password@, virtual_id) is None,
        },
{
    match proxy {
        ProxyType::Redirect => None,
        ProxyType::Reverse => {
            let mut s: String = concat_str(base_url, "/m3u-stream/");
            s.append(username);
            s.append("/");
            s.append(password);
            s.append("/");
            push_decimal(&mut s, virtual_id as u128);
            proof {
                reveal_strlit("/");
            }
            assert(s@ =~= base_url@ + "/m3u-stream/"@ + username@ + "/"@ + password@ + "/"@
                + dec_digits(virtual_id as nat));
            Some(s)
        },
    }
}

/// The text of an M3U playlist: the `#EXTM3U` header and the entries, one
/// per line, joined by line feeds.
pub open spec fn m3u_text(entries: Seq<Seq<char>>) -> Seq<char>
    decreases entries.len(),
{
    if entries.len() == 0 {
        "#EXTM3U"@
    } else {
        m3u_text(entries.drop_last()) + "\n"@ + entries.last()
    }
}

/// Joins the entries of a rewritten M3U playlist under its header.
pub fn m3u_document(entries: &Vec<String>) -> (r: String)
    ensures
        r@ == m3u_text(entries@.map_values(|e: String| e@)),
{
    let ghost ev = entries@.map_values(|e: String| e@);
    let mut s: String = String::from_str("#EXTM3U");
    let n: usize = entries.len();
    let mut i: usize = 0;
    assert(ev.take(0) =~= Seq::<Seq<char>>::empty());
    while i < n
        invariant
            n == entries@.len(),
            ev == entries@.map_values(|e: String| e@),
            i <= n,
            s@ == m3u_text(ev.take(i as int)),
        decreases n - i,
    {
        s.append("\n");
        s.append(entries[i].as_str());
        assert(ev.take(i + 1).drop_last() =~= ev.take(i as int));
        assert(ev.take(i + 1).last() == entries@[i as int]@);
        i = i + 1;
    }
    assert(ev.take(n as int) =~= ev);
    s
}

/// The text of a plain M3U playlist file: the `#EXTM3U` header line and
/// every entry on a line of its own, each line ended by a line feed.
pub open spec fn m3u_file_text(entries: Seq<Seq<char>>) -> Seq<char>
    decreases entries.len(),
{
    if entries.len() == 0 {
        "#EXTM3U\n"@
    } else {
        m3u_file_text(entries.drop_last()) + entries.last() + "\n"@
    }
}

/// The text written to a target's plain M3U playlist file.
pub fn m3u_text_file(entries: &Vec<String>) -> (r: String)
    ensures
        r@ == m3u_file_text(entries@.map_values(|e: String| e@)),
{
    let ghost ev = entries@.map_values(|e: String| e@);
    let mut s: String = String::from_str("#EXTM3U\n");
    let n: usize = entries.len();
    let mut i: usize = 0;
    assert(ev.take(0) =~= Seq::<Seq<char>>::empty());
    while i < n
        invariant
            n == entries@.len(),
            ev == entries@.map_values(|e: String| e@),
            i <= n,
            s@ == m3u_file_text(ev.take(i as int)),
        decreases n - i,
    {
        s.append(entries[i].as_str());
        s.append("\n");
        assert(ev.take(i + 1).drop_last() =~= ev.take(i as int));
        assert(ev.take(i + 1).last() == entries@[i as int]@);
        i = i + 1;
    }
    assert(ev.take(n as int) =~= ev);
    s
}

/// Why a stored item could not be looked up.
#[derive(Debug, Clone, Copy, PartialEq, Eq, Structural)]
pub enum StreamIdError {
    /// Stream ids count from 1.
    ZeroId,
}

impl StreamIdError {
    /// The error's message.
    pub fn message(&self) -> (r: String)
        ensures
            r@ == "id should start with 1"@,
    {
        String::from_str("id should start with 1")
    }
}

/// Checks a stream id before it is looked up in the M3U database: ids
/// count from 1.
pub fn check_stream_id(stream_id: u32) -> (r: Result<u32, StreamIdError>)
    ensures
        stream_id == 0 ==> r == Err::<u32, StreamIdError>(StreamIdError::ZeroId),
        stream_id >= 1 ==> r == Ok::<u32, StreamIdError>(stream_id),
{
    if stream_id < 1 {
        Err(StreamIdError::ZeroId)
    } else {
        Ok(stream_id)
    }
}

} // verus!

verus! {

/// The M3U database holds every item but series infos, and no series
/// info.
pub proof fn law_m3u_items_exact(items: Seq<ItemSpec>)
    ensures
        forall|k: int|
            0 <= k < m3u_items(items).len() ==> (#[trigger] m3u_items(items)[k]).item_type
                != PlaylistItemType::SeriesInfo,
        forall|k: int|
            0 <= k < items.len() && (#[trigger] items[k]).item_type != PlaylistItemType::SeriesInfo
                ==> m3u_items(items).contains(items[k]),
    decreases items.len(),
{
    if items.len() > 0 {
        let init = items.drop_last();
        law_m3u_items_exact(init);
        let earlier = m3u_items(init);
        assert forall|k: int|
            0 <= k < items.len() && (#[trigger] items[k]).item_type != PlaylistItemType::SeriesInfo
                implies m3u_items(items).contains(items[k]) by {
            if k < items.len() - 1 {
                assert(init[k] == items[k]);
                let j = choose|j: int| 0 <= j < earlier.len() && earlier[j] == items[k];
                if items.last().item_type != PlaylistItemType::SeriesInfo {
                    assert(m3u_items(items)[j] == items[k]);
                }
            } else {
                assert(m3u_items(items).last() == items[k]);
            }
        }
    }
}

/// Storing twice gives the types of storing once, and an item without
/// provider id is stored as a live stream.
pub proof fn law_persisted_types_settle(item: ItemSpec)
    ensures
        with_persisted_type(with_persisted_type(item)) == with_persisted_type(item),
        (provider_id(item) is None || provider_id(item) == Some(0u32)) ==> (
        persisted_item_type(item) == PlaylistItemType::LiveHls || persisted_item_type(item)
            == PlaylistItemType::LiveUnknown),
{
}

} // verus!

verus! {

/// The M3U database holds the items that are not series infos, in their
/// playlist order, each as often as it occurs.
pub proof fn law_m3u_items_are_the_non_series_infos(items: Seq<ItemSpec>)
    ensures
        m3u_items(items) == items.filter(|i: ItemSpec| i.item_type != PlaylistItemType::SeriesInfo),
    decreases items.len(),
{
    reveal(Seq::filter);
    if items.len() > 0 {
        law_m3u_items_are_the_non_series_infos(items.drop_last());
    }
}

} // verus!
