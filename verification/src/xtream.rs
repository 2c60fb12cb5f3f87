//! Resolving of Xtream video info: which items need their info fetched, the
//! record taken from a fetched info document, and the byte layout of the
//! write-ahead records.

use vstd::prelude::*;
use vstd::string::*;
use vstd::utf8::encode_utf8;
use crate::hdhomerun::u32_le;
use crate::json_utils::{
    JsonNumber, JsonValue, as_object, get_u32_from_serde_value, get_u64_from_serde_value, json_get,
    json_object_get, spec_get_u32, spec_get_u64,
};
use crate::paths::{join_path, path_join};
use crate::playlist::{ItemSpec, PlaylistItem, XtreamCluster, additional_property_u64, provider_id};
use crate::text::concat_str;

verus! {

broadcast use vstd::std_specs::hash::group_hash_axioms;

pub const TAG_VOD_INFO_INFO: &'static str = "info";
pub const TAG_VOD_INFO_MOVIE_DATA: &'static str = "movie_data";
pub const TAG_VOD_INFO_TMDB_ID: &'static str = "tmdb_id";
pub const TAG_VOD_INFO_STREAM_ID: &'static str = "stream_id";
pub const TAG_VOD_INFO_ADDED: &'static str = "added";

/// What is kept of a movie's info: its TMDB id and when it was added.
#[derive(Debug, Clone, Copy, PartialEq, Eq, Structural)]
pub struct InputVodInfoRecord {
    pub tmdb_id: u32,
    pub ts: u64,
}

/// Whether an item's info must be fetched again, with its provider id and
/// its timestamp property: items without provider id never; otherwise when
/// the id was not processed yet, the item has no timestamp, or the stored
/// timestamp differs.
pub open spec fn spec_should_update_info(
    item: crate::playlist::ItemSpec,
    processed: Map<u32, u64>,
    field: Seq<char>,
) -> (bool, u32, u64) {
    match provider_id(item) {
        None => (false, 0, 0),
        Some(id) => {
            let last_modified = additional_property_u64(item, field);
            (
                !processed.contains_key(id) || last_modified is None || processed[id]
                    != last_modified.unwrap(),
                id,
                match last_modified {
                    Some(t) => t,
                    None => 0,
                },
            )
        },
    }
}

/// Decides whether an item's info is fetched again (see
/// [`spec_should_update_info`]).
pub fn should_update_info(
    pli: &PlaylistItem,
    processed_provider_ids: &std::collections::HashMap<u32, u64>,
    field: &str,
) -> (r: (bool, u32, u64))
    ensures
        r == spec_should_update_info(pli@, processed_provider_ids@, field@),
{
    let provider_id: u32 = match pli.get_provider_id() {
        Some(id) => id,
        None => return (false, 0, 0),
    };
    let last_modified: Option<u64> = pli.get_additional_property_as_u64(field);
    let old_timestamp: Option<&u64> = processed_provider_ids.get(&provider_id);
    let update: bool = match old_timestamp {
        None => true,
        Some(old) => match last_modified {
            None => true,
            Some(t) => *old != t,
        },
    };
    let ts: u64 = match last_modified {
        Some(t) => t,
        None => 0,
    };
    (update, provider_id, ts)
}

/// [`should_update_info`] with the `added` property of movies.
pub fn should_update_vod_info(pli: &PlaylistItem, processed_provider_ids: &std::collections::HashMap<u32, u64>) -> (r: (bool, u32, u64))
    ensures
        r == spec_should_update_info(pli@, processed_provider_ids@, TAG_VOD_INFO_ADDED@),
{
    should_update_info(pli, processed_provider_ids, TAG_VOD_INFO_ADDED)
}

/// The record of a movie info document: the stream id of `movie_data`
/// (required, a `u32`), its `added` time (0 when absent or unreadable), and
/// the `tmdb_id` of `info` (`info` is required; the id is 0 when absent or
/// unreadable).
pub open spec fn spec_extract_vod_info(doc: JsonValue) -> Option<(u32, InputVodInfoRecord)> {
    match doc {
        JsonValue::Object(entries) => match json_get(entries@, TAG_VOD_INFO_MOVIE_DATA@) {
            Some(JsonValue::Object(movie_data)) => match json_get(movie_data@, TAG_VOD_INFO_STREAM_ID@) {
                Some(sid) => match spec_get_u32(sid) {
                    Some(provider_id) => {
                        let added: u64 = match json_get(movie_data@, TAG_VOD_INFO_ADDED@) {
                            Some(a) => match spec_get_u64(a) {
                                Some(v) => v,
                                None => 0,
                            },
                            None => 0,
                        };
                        match json_get(entries@, TAG_VOD_INFO_INFO@) {
                            Some(info) => {
                                let tmdb_id: u32 = match info {
                                    JsonValue::Object(info_entries) => match json_get(
                                        info_entries@,
                                        TAG_VOD_INFO_TMDB_ID@,
                                    ) {
                                        Some(t) => match spec_get_u32(t) {
                                            Some(v) => v,
                                            None => 0,
                                        },
                                        None => 0,
                                    },
                                    _ => 0,
                                };
                                Some((provider_id, InputVodInfoRecord { tmdb_id, ts: added }))
                            },
                            None => None,
                        }
                    },
                    None => None,
                },
                None => None,
            },
            _ => None,
        },
        _ => None,
    }
}

/// Takes the provider id, TMDB id and added time from a parsed movie info
/// document.
pub fn extract_info_record_from_vod_info(doc: &JsonValue) -> (r: Option<(u32, InputVodInfoRecord)>)
    ensures
        r == spec_extract_vod_info(*doc),
{
    let entries: &Vec<(String, JsonValue)> = as_object(doc)?;
    let movie_value: &JsonValue = json_object_get(entries, TAG_VOD_INFO_MOVIE_DATA)?;
    let movie_data: &Vec<(String, JsonValue)> = as_object(movie_value)?;
    let stream_id: &JsonValue = json_object_get(movie_data, TAG_VOD_INFO_STREAM_ID)?;
    let provider_id: u32 = get_u32_from_serde_value(stream_id)?;
    let added: u64 = match json_object_get(movie_data, TAG_VOD_INFO_ADDED) {
        Some(a) => match get_u64_from_serde_value(a) {
            Some(v) => v,
            None => 0,
        },
        None => 0,
    };
    let info: &JsonValue = json_object_get(entries, TAG_VOD_INFO_INFO)?;
    let tmdb_id: u32 = match as_object(info) {
        Some(info_entries) => match json_object_get(info_entries, TAG_VOD_INFO_TMDB_ID) {
            Some(t) => match get_u32_from_serde_value(t) {
                Some(v) => v,
                None => 0,
            },
            None => 0,
        },
        None => 0,
    };
    Some((provider_id, InputVodInfoRecord { tmdb_id, ts: added }))
}

pub open spec fn u64_le(v: u64) -> Seq<u8> {
    u32_le((v % 0x1_0000_0000) as u32) + u32_le((v / 0x1_0000_0000) as u32)
}

/// The write-ahead bytes of a movie info record: provider id, TMDB id and
/// time, each little-endian.
pub open spec fn vod_info_record_bytes(provider_id: u32, record: InputVodInfoRecord) -> Seq<u8> {
    u32_le(provider_id) + u32_le(record.tmdb_id) + u64_le(record.ts)
}

fn push_u32_le(buf: &mut Vec<u8>, v: u32)
    ensures
        final(buf)@ == old(buf)@ + u32_le(v),
{
    buf.push((v % 0x100) as u8);
    buf.push(((v / 0x100) % 0x100) as u8);
    buf.push(((v / 0x1_0000) % 0x100) as u8);
    buf.push((v / 0x100_0000) as u8);
    assert(buf@ =~= old(buf)@ + u32_le(v));
}

/// The bytes that record a movie's info in the write-ahead file.
pub fn vod_info_record_wal_bytes(provider_id: u32, record: &InputVodInfoRecord) -> (r: Vec<u8>)
    ensures
        r@ == vod_info_record_bytes(provider_id, *record),
{
    let mut out: Vec<u8> = Vec::new();
    push_u32_le(&mut out, provider_id);
    push_u32_le(&mut out, record.tmdb_id);
    push_u32_le(&mut out, (record.ts % 0x1_0000_0000) as u32);
    push_u32_le(&mut out, (record.ts / 0x1_0000_0000) as u32);
    assert(out@ =~= vod_info_record_bytes(provider_id, *record));
    out
}

/// The write-ahead bytes of a fetched info document: nothing for empty
/// content, otherwise provider id, byte length and the UTF-8 bytes;
/// `None` when the content is longer than a `u32` can count.
pub open spec fn info_content_bytes(provider_id: u32, content: Seq<char>) -> Option<Seq<u8>> {
    let bytes = encode_utf8(content);
    if bytes.len() > u32::MAX {
        None
    } else if bytes.len() == 0 {
        Some(seq![])
    } else {
        Some(u32_le(provider_id) + u32_le(bytes.len() as u32) + bytes)
    }
}

/// The bytes that record a fetched info document in the write-ahead file.
pub fn info_content_wal_bytes(provider_id: u32, content: &str) -> (r: Option<Vec<u8>>)
    ensures
        match r {
            Some(b) => info_content_bytes(provider_id, content@) == Some(b@),
            None => info_content_bytes(provider_id, content@) is None,
        },
{
    let bytes: &[u8] = content.as_bytes();
    let len: usize = bytes.len();
    if len > u32::MAX as usize {
        return None;
    }
    let mut out: Vec<u8> = Vec::new();
    if len > 0 {
        push_u32_le(&mut out, provider_id);
        push_u32_le(&mut out, len as u32);
        let mut i: usize = 0;
        let ghost head = out@;
        while i < len
            invariant
                len == bytes@.len(),
                i <= len,
                out@ == head + bytes@.take(i as int),
            decreases len - i,
        {
            out.push(bytes[i]);
            assert(bytes@.take(i + 1) =~= bytes@.take(i as int).push(bytes@[i as int]));
            i = i + 1;
        }
        assert(bytes@.take(len as int) =~= bytes@);
    }
    assert(len == 0 ==> out@ =~= Seq::<u8>::empty());
    Some(out)
}


// ---------------------------------------------------------------------------
// Write-ahead files
// ---------------------------------------------------------------------------

pub const FILE_SERIES_INFO: &'static str = "xtream_series_info";
pub const FILE_VOD_INFO: &'static str = "xtream_vod_info";
pub const FILE_SERIES_EPISODE_RECORD: &'static str = "series_episode_record";

/// The file name prefix of a cluster's info files; live streams have none.
pub open spec fn info_file_prefix(cluster: XtreamCluster) -> Option<Seq<char>> {
    match cluster {
        XtreamCluster::Live => None,
        XtreamCluster::Video => Some(FILE_VOD_INFO@),
        XtreamCluster::Series => Some(FILE_SERIES_INFO@),
    }
}

/// The write-ahead files that collect the fetched info of a cluster in an
/// input's storage directory, `{prefix}_content.wal` and
/// `{prefix}_record.wal`; none for live streams.
pub fn resolve_info_wal_paths(storage_path: &str, cluster: XtreamCluster) -> (r: Option<(String, String)>)
    ensures
        match info_file_prefix(cluster) {
            None => r is None,
            Some(p) => match r {
                Some((content_path, record_path)) => content_path@ == path_join(
                    storage_path@,
                    p + "_content.wal"@,
                ) && record_path@ == path_join(storage_path@, p + "_record.wal"@),
                None => false,
            },
        },
{
    let prefix: &str = match cluster {
        XtreamCluster::Live => return None,
        XtreamCluster::Video => FILE_VOD_INFO,
        XtreamCluster::Series => FILE_SERIES_INFO,
    };
    let content_name: String = concat_str(prefix, "_content.wal");
    let record_name: String = concat_str(prefix, "_record.wal");
    Some((join_path(storage_path, content_name.as_str()), join_path(storage_path, record_name.as_str())))
}

/// The write-ahead file of resolved series episodes in an input's storage
/// directory.
pub fn resolve_episode_wal_path(storage_path: &str) -> (r: String)
    ensures
        r@ == path_join(storage_path@, FILE_SERIES_EPISODE_RECORD@ + ".wal"@),
{
    let name: String = concat_str(FILE_SERIES_EPISODE_RECORD, ".wal");
    join_path(storage_path, name.as_str())
}

// ---------------------------------------------------------------------------
// Resolving movie info
// ---------------------------------------------------------------------------

/// Whether the info of an item is fetched: it is a movie whose info is not
/// recorded with its current `added` time.
pub open spec fn spec_vod_needs_resolve(item: ItemSpec, processed: Map<u32, u64>) -> bool {
    item.xtream_cluster == XtreamCluster::Video && spec_should_update_info(
        item,
        processed,
        TAG_VOD_INFO_ADDED@,
    ).0
}

/// Decides whether an item's movie info is fetched (see
/// [`spec_vod_needs_resolve`]).
pub fn vod_needs_resolve(pli: &PlaylistItem, processed: &std::collections::HashMap<u32, u64>) -> (r: bool)
    ensures
        r == spec_vod_needs_resolve(pli@, processed@),
{
    if pli.header.xtream_cluster != XtreamCluster::Video {
        return false;
    }
    should_update_vod_info(pli, processed).0
}

/// What became of a fetched movie info document.
pub enum VodRecordOutcome {
    /// The document holds no record.
    NoRecord,
    /// The document is longer than the write-ahead format can count.
    ContentTooLong,
    /// The bytes to append to the content and the record write-ahead files.
    Recorded { content: Vec<u8>, record: Vec<u8> },
}

/// Records a fetched movie info document `content`, whose parsed form is
/// `doc`: without a record nothing changes; with one, its write-ahead
/// bytes are returned and its time is stored under its provider id (not
/// when the content is too long to be written).
pub fn record_vod_info(
    processed: &mut std::collections::HashMap<u32, u64>,
    content: &str,
    doc: &JsonValue,
) -> (r: VodRecordOutcome)
    ensures
        match spec_extract_vod_info(*doc) {
            None => r is NoRecord && final(processed)@ == old(processed)@,
            Some((id, rec)) => match info_content_bytes(id, content@) {
                None => r is ContentTooLong && final(processed)@ == old(processed)@,
                Some(cb) => match r {
                    VodRecordOutcome::Recorded { content: c, record: b } => c@ == cb && b@
                        == vod_info_record_bytes(id, rec) && final(processed)@ == old(
                        processed,
                    )@.insert(id, rec.ts),
                    _ => false,
                },
            },
        },
{
    match extract_info_record_from_vod_info(doc) {
        None => VodRecordOutcome::NoRecord,
        Some((provider_id, info_record)) => match info_content_wal_bytes(provider_id, content) {
            None => VodRecordOutcome::ContentTooLong,
            Some(content_bytes) => {
                processed.insert(provider_id, info_record.ts);
                let record: Vec<u8> = vod_info_record_wal_bytes(provider_id, &info_record);
                VodRecordOutcome::Recorded { content: content_bytes, record }
            },
        },
    }
}

} // verus!

verus! {

/// Once an item's timestamp is recorded under its provider id, the item is
/// not fetched again while its timestamp stays the same.
pub proof fn law_recorded_info_not_refetched(
    item: crate::playlist::ItemSpec,
    processed: Map<u32, u64>,
    field: Seq<char>,
)
    requires
        provider_id(item) is Some,
        additional_property_u64(item, field) is Some,
    ensures
        ({
            let (_, id, ts) = spec_should_update_info(item, processed, field);
            !spec_should_update_info(item, processed.insert(id, ts), field).0
        }),
{
}

} // verus!

verus! {

/// A movie whose fetched info was recorded is not fetched again while its
/// provider id and `added` time are those of the record.
pub proof fn law_resolved_vod_not_refetched(
    item: ItemSpec,
    processed: Map<u32, u64>,
    doc: JsonValue,
    id: u32,
    rec: InputVodInfoRecord,
)
    requires
        spec_extract_vod_info(doc) == Some((id, rec)),
        provider_id(item) == Some(id),
        additional_property_u64(item, TAG_VOD_INFO_ADDED@) == Some(rec.ts),
    ensures
        !spec_vod_needs_resolve(item, processed.insert(id, rec.ts)),
{
}

} // verus!

verus! {

/// Only movies have their info fetched: an item of another cluster never
/// needs resolving, whatever was recorded. A movie with a provider id whose
/// info was never recorded always does.
pub proof fn law_only_movies_are_resolved(item: ItemSpec, processed: Map<u32, u64>)
    ensures
        spec_vod_needs_resolve(item, processed) ==> item.xtream_cluster == XtreamCluster::Video,
        item.xtream_cluster == XtreamCluster::Video && provider_id(item) is Some && !processed.contains_key(
            provider_id(item).unwrap(),
        ) ==> spec_vod_needs_resolve(item, processed),
        provider_id(item) is None ==> !spec_vod_needs_resolve(item, processed),
{
}

} // verus!

verus! {

/// What a movie info document records: the provider id is the
/// `movie_data` stream id, the time is its `added` value (0 when absent)
/// and the TMDB id is the `tmdb_id` of `info` (0 when absent). Without a
/// `movie_data` object, a stream id or an `info` member there is no record.
pub proof fn law_vod_record_fields(
    entries: Vec<(String, JsonValue)>,
    md: Vec<(String, JsonValue)>,
    info: Vec<(String, JsonValue)>,
    id: u32,
    ts: u64,
    tmdb: u32,
)
    ensures
        json_get(entries@, TAG_VOD_INFO_MOVIE_DATA@) is None ==> spec_extract_vod_info(JsonValue::Object(entries)) is None,
        json_get(entries@, TAG_VOD_INFO_MOVIE_DATA@) == Some(JsonValue::Object(md)) && json_get(md@, TAG_VOD_INFO_STREAM_ID@)
            is None ==> spec_extract_vod_info(JsonValue::Object(entries)) is None,
        json_get(entries@, TAG_VOD_INFO_MOVIE_DATA@) == Some(JsonValue::Object(md)) && json_get(md@, TAG_VOD_INFO_STREAM_ID@)
            == Some(JsonValue::Number(JsonNumber::PosInt(id as u64))) && json_get(entries@, TAG_VOD_INFO_INFO@) is None
            ==> spec_extract_vod_info(JsonValue::Object(entries)) is None,
        ({
            &&& json_get(entries@, TAG_VOD_INFO_MOVIE_DATA@) == Some(JsonValue::Object(md))
            &&& json_get(md@, TAG_VOD_INFO_STREAM_ID@) == Some(JsonValue::Number(JsonNumber::PosInt(id as u64)))
            &&& json_get(entries@, TAG_VOD_INFO_INFO@) == Some(JsonValue::Object(info))
        }) ==> {
            let rec = spec_extract_vod_info(JsonValue::Object(entries));
            &&& rec is Some
            &&& rec.unwrap().0 == id
            &&& (json_get(md@, TAG_VOD_INFO_ADDED@) == Some(JsonValue::Number(JsonNumber::PosInt(ts))) ==> rec.unwrap().1.ts
                == ts)
            &&& (json_get(md@, TAG_VOD_INFO_ADDED@) is None ==> rec.unwrap().1.ts == 0)
            &&& (json_get(info@, TAG_VOD_INFO_TMDB_ID@) == Some(JsonValue::Number(JsonNumber::PosInt(tmdb as u64)))
                ==> rec.unwrap().1.tmdb_id == tmdb)
            &&& (json_get(info@, TAG_VOD_INFO_TMDB_ID@) is None ==> rec.unwrap().1.tmdb_id == 0)
        },
{
}

} // verus!
