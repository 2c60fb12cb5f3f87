use m3u_filter::config::{
    empty_input_message, empty_source_message, healthcheck_passed, healthcheck_url, playlist_stats, PlaylistStats,
    ProxyType,
};
use m3u_filter::filter::Filter;
use m3u_filter::json_utils::{read_skipping_ws, yield_next_obj, ArrayItem, ArrayReadError, JsonNumber, JsonValue};
use m3u_filter::model::{ItemField, ProcessingOrder};
use m3u_filter::playlist::{PlaylistGroup, PlaylistItem, PlaylistItemHeader, PlaylistItemType, XtreamCluster};
use m3u_filter::processing::{
    collect_playlist_groups, duplicate_hash, is_valid, process_watch, str_eq_ignore_ascii_case, ConfigTarget,
    WatchError,
};
use m3u_filter::repository::{
    assign_persisted_item_types, check_stream_id, m3u_document, m3u_text_file, m3u_playlist_items, m3u_stream_url, StreamIdError,
};
use m3u_filter::xtream::{
    record_vod_info, resolve_episode_wal_path, resolve_info_wal_paths, vod_needs_resolve, VodRecordOutcome,
};
use std::collections::HashMap;

fn item(id: &str, name: &str, url: &str, item_type: PlaylistItemType, cluster: XtreamCluster) -> PlaylistItem {
    PlaylistItem {
        header: PlaylistItemHeader {
            id: id.to_string(),
            uuid: 7,
            name: name.to_string(),
            chno: String::new(),
            group: "G".to_string(),
            title: name.to_string(),
            url: url.to_string(),
            xtream_cluster: cluster,
            item_type,
            virtual_id: 0,
            additional_properties: None,
        },
    }
}

fn group(title: &str, channels: Vec<PlaylistItem>) -> PlaylistGroup {
    PlaylistGroup { id: 1, title: title.to_string(), channels, xtream_cluster: XtreamCluster::Live }
}

fn target(name: &str) -> ConfigTarget {
    ConfigTarget {
        id: 1,
        enabled: true,
        name: name.to_string(),
        options: None,
        t_filter: None,
        rename: None,
        processing_order: ProcessingOrder::Frm,
        t_mapping: None,
        t_watch: None,
    }
}

fn obj(entries: Vec<(&str, JsonValue)>) -> JsonValue {
    JsonValue::Object(entries.into_iter().map(|(k, v)| (k.to_string(), v)).collect())
}

#[test]
fn items_without_provider_id_become_live_streams() {
    let mut playlist = vec![group(
        "G",
        vec![
            item("", "a", "http://x/a.m3u8", PlaylistItemType::Video, XtreamCluster::Live),
            item("0", "b", "http://x/b.ts", PlaylistItemType::Video, XtreamCluster::Live),
            item("12", "c", "http://x/c.m3u8", PlaylistItemType::Video, XtreamCluster::Video),
            item("abc", "d", "http://x/d.m3u8x", PlaylistItemType::Series, XtreamCluster::Live),
        ],
    )];
    assign_persisted_item_types(&mut playlist);
    let types: Vec<PlaylistItemType> = playlist[0].channels.iter().map(|c| c.header.item_type).collect();
    assert_eq!(
        types,
        vec![
            PlaylistItemType::LiveHls,
            PlaylistItemType::LiveUnknown,
            PlaylistItemType::Video,
            PlaylistItemType::LiveUnknown
        ]
    );
    assert_eq!(playlist[0].channels[2].header.name, "c");
}

#[test]
fn m3u_database_leaves_out_series_infos() {
    let playlist = vec![
        group("A", vec![
            item("1", "a", "u", PlaylistItemType::Live, XtreamCluster::Live),
            item("2", "b", "u", PlaylistItemType::SeriesInfo, XtreamCluster::Series),
        ]),
        group("B", vec![item("3", "c", "u", PlaylistItemType::Series, XtreamCluster::Series)]),
    ];
    let items = m3u_playlist_items(playlist);
    let names: Vec<&str> = items.iter().map(|i| i.header.name.as_str()).collect();
    assert_eq!(names, vec!["a", "c"]);
}

#[test]
fn stream_urls_of_rewritten_playlists() {
    assert_eq!(
        m3u_stream_url(ProxyType::Reverse, "http://host:8901", "user", "pw", 42),
        Some("http://host:8901/m3u-stream/user/pw/42".to_string())
    );
    assert_eq!(m3u_stream_url(ProxyType::Redirect, "http://host:8901", "user", "pw", 42), None);
}

#[test]
fn m3u_document_joins_entries() {
    assert_eq!(m3u_document(&vec![]), "#EXTM3U");
    assert_eq!(m3u_document(&vec!["#EXTINF:-1,a".to_string(), "http://a".to_string()]), "#EXTM3U\n#EXTINF:-1,a\nhttp://a");
}

#[test]
fn plain_m3u_file_text() {
    assert_eq!(m3u_text_file(&vec![]), "#EXTM3U\n");
    assert_eq!(m3u_text_file(&vec!["#EXTINF:-1,a".to_string(), "http://a".to_string()]), "#EXTM3U\n#EXTINF:-1,a\nhttp://a\n");
}

#[test]
fn stream_ids_start_with_one() {
    assert_eq!(check_stream_id(0), Err(StreamIdError::ZeroId));
    assert_eq!(StreamIdError::ZeroId.message(), "id should start with 1");
    assert_eq!(check_stream_id(1), Ok(1));
    assert_eq!(check_stream_id(4711), Ok(4711));
}

#[test]
fn skipping_whitespace() {
    let data = b" \t\r\n\x0c x";
    assert_eq!(read_skipping_ws(data, 0), Some((b'x', 7)));
    assert_eq!(read_skipping_ws(data, 7), None);
    assert_eq!(read_skipping_ws(b"  ", 0), None);
    assert_eq!(read_skipping_ws(b"ab", 1), Some((b'b', 2)));
}

#[test]
fn streamed_array_steps() {
    let data = b" [ {\"a\":1} , 2 ]";
    let mut at_start = false;
    let (r, pos) = yield_next_obj(data, 0, &mut at_start);
    assert!(at_start);
    assert_eq!(r, Ok(ArrayItem::Element(3)));
    assert_eq!(pos, 3);
    // the reader of the element continues after it
    let (r, pos) = yield_next_obj(data, 10, &mut at_start);
    assert_eq!(r, Ok(ArrayItem::Element(12)));
    assert_eq!(pos, 12);
    let (r, pos) = yield_next_obj(data, 14, &mut at_start);
    assert_eq!(r, Ok(ArrayItem::End));
    assert_eq!(pos, 16);
}

#[test]
fn empty_and_broken_arrays() {
    let mut at_start = false;
    assert_eq!(yield_next_obj(b" [ \n ] ", 0, &mut at_start).0, Ok(ArrayItem::End));
    let mut at_start = false;
    assert_eq!(yield_next_obj(b"{}", 0, &mut at_start).0, Err(ArrayReadError::OpenBracketMissing));
    assert!(at_start);
    let mut at_start = false;
    assert_eq!(yield_next_obj(b"  [  ", 0, &mut at_start).0, Err(ArrayReadError::UnexpectedEof));
    let mut at_start = true;
    assert_eq!(yield_next_obj(b" ; ", 0, &mut at_start).0, Err(ArrayReadError::SeparatorMissing));
    assert_eq!(yield_next_obj(b"   ", 0, &mut at_start).0, Err(ArrayReadError::UnexpectedEof));
    assert_eq!(ArrayReadError::OpenBracketMissing.message(), "`[` not found");
    assert_eq!(ArrayReadError::SeparatorMissing.message(), "`,` or `]` not found");
}

#[test]
fn watched_groups_by_title() {
    let playlist = vec![
        group("News DE", vec![]),
        group("Sport", vec![]),
        group("News FR", vec![]),
    ];
    let mut t = target("my-target");
    assert_eq!(process_watch(&t, &playlist), Ok(vec![]));
    t.t_watch = Some(vec!["^News".to_string(), "xyz".to_string()]);
    assert_eq!(process_watch(&t, &playlist), Ok(vec![0, 2]));
    t.name = "DeFaUlT".to_string();
    assert_eq!(process_watch(&t, &playlist), Err(WatchError::NoUniqueName));
    assert_eq!(WatchError::NoUniqueName.message(), "cant watch a target with no unique name");
}

#[test]
fn ascii_case_insensitive_comparison() {
    assert!(str_eq_ignore_ascii_case("default", "DEFAULT"));
    assert!(!str_eq_ignore_ascii_case("default", "defaults"));
    assert!(!str_eq_ignore_ascii_case("Ä", "ä"));
}

#[test]
fn playlists_of_inputs_are_concatenated() {
    let a = vec![group("A", vec![]), group("B", vec![])];
    let b = vec![group("C", vec![])];
    let all = collect_playlist_groups(vec![a, vec![], b]);
    let titles: Vec<&str> = all.iter().map(|g| g.title.as_str()).collect();
    assert_eq!(titles, vec!["A", "B", "C"]);
}

#[test]
fn target_filter_decides_validity() {
    let mut t = target("t");
    let cnn = item("1", "CNN", "u", PlaylistItemType::Live, XtreamCluster::Live);
    let bbc = item("2", "BBC", "u", PlaylistItemType::Live, XtreamCluster::Live);
    assert!(is_valid(&cnn, &t));
    t.t_filter = Some(Filter::FieldComparison(ItemField::Name, "^CNN$".to_string()));
    assert!(is_valid(&cnn, &t));
    assert!(!is_valid(&bbc, &t));
    assert_eq!(duplicate_hash(&cnn), 7);
}

#[test]
fn statistics_and_messages() {
    let playlist = vec![
        group("A", vec![item("1", "a", "u", PlaylistItemType::Live, XtreamCluster::Live)]),
        group("B", vec![
            item("2", "b", "u", PlaylistItemType::Live, XtreamCluster::Live),
            item("3", "c", "u", PlaylistItemType::Live, XtreamCluster::Live),
        ]),
    ];
    assert_eq!(playlist_stats(&playlist), PlaylistStats { group_count: 2, channel_count: 3 });
    assert_eq!(playlist_stats(&vec![]), PlaylistStats { group_count: 0, channel_count: 0 });
    assert_eq!(empty_input_message("provider"), "Source is empty provider");
    assert_eq!(empty_source_message(3), "Source at 3 is empty");
}

#[test]
fn health_check() {
    assert_eq!(healthcheck_url(8901), "http://localhost:8901/healthcheck");
    assert!(healthcheck_passed("ok"));
    assert!(!healthcheck_passed("OK"));
    assert!(!healthcheck_passed(""));
}

#[test]
fn write_ahead_file_paths() {
    assert_eq!(
        resolve_info_wal_paths("/data/input", XtreamCluster::Video),
        Some(("/data/input/xtream_vod_info_content.wal".to_string(), "/data/input/xtream_vod_info_record.wal".to_string()))
    );
    assert_eq!(
        resolve_info_wal_paths("/data/input/", XtreamCluster::Series),
        Some((
            "/data/input/xtream_series_info_content.wal".to_string(),
            "/data/input/xtream_series_info_record.wal".to_string()
        ))
    );
    assert_eq!(resolve_info_wal_paths("/data/input", XtreamCluster::Live), None);
    assert_eq!(resolve_episode_wal_path("/data/input"), "/data/input/series_episode_record.wal");
}

fn vod_doc(stream_id: u64, added: &str) -> JsonValue {
    obj(vec![
        ("info", obj(vec![("tmdb_id", JsonValue::Number(JsonNumber::PosInt(99)))])),
        (
            "movie_data",
            obj(vec![
                ("stream_id", JsonValue::Number(JsonNumber::PosInt(stream_id))),
                ("added", JsonValue::String(added.to_string())),
            ]),
        ),
    ])
}

#[test]
fn recorded_movie_info_is_not_fetched_again() {
    let mut movie = item("12", "m", "u", PlaylistItemType::Video, XtreamCluster::Video);
    movie.header.additional_properties = Some(obj(vec![("added", JsonValue::String("1700".to_string()))]));
    let mut processed: HashMap<u32, u64> = HashMap::new();
    assert!(vod_needs_resolve(&movie, &processed));
    let content = "{\"info\":{}}";
    match record_vod_info(&mut processed, content, &vod_doc(12, "1700")) {
        VodRecordOutcome::Recorded { content: c, record } => {
            let mut expected = vec![12u8, 0, 0, 0, content.len() as u8, 0, 0, 0];
            expected.extend_from_slice(content.as_bytes());
            assert_eq!(c, expected);
            let mut rec = vec![12u8, 0, 0, 0, 99, 0, 0, 0];
            rec.extend_from_slice(&1700u64.to_le_bytes());
            assert_eq!(record, rec);
        }
        _ => panic!("expected a record"),
    }
    assert_eq!(processed.get(&12), Some(&1700));
    assert!(!vod_needs_resolve(&movie, &processed));
    // a live item is never resolved
    let live = item("13", "l", "u", PlaylistItemType::Live, XtreamCluster::Live);
    assert!(!vod_needs_resolve(&live, &HashMap::new()));
}

#[test]
fn documents_without_record_change_nothing() {
    let mut processed: HashMap<u32, u64> = HashMap::new();
    let outcome = record_vod_info(&mut processed, "{}", &obj(vec![]));
    assert!(matches!(outcome, VodRecordOutcome::NoRecord));
    assert!(processed.is_empty());
}

#[test]
fn storing_twice_gives_the_same_types() {
    let mut playlist = vec![group(
        "G",
        vec![
            item("", "a", "http://x/a.m3u8", PlaylistItemType::Video, XtreamCluster::Live),
            item("5", "b", "http://x/b.ts", PlaylistItemType::Series, XtreamCluster::Series),
        ],
    )];
    assign_persisted_item_types(&mut playlist);
    let once: Vec<PlaylistItemType> = playlist[0].channels.iter().map(|c| c.header.item_type).collect();
    assign_persisted_item_types(&mut playlist);
    let twice: Vec<PlaylistItemType> = playlist[0].channels.iter().map(|c| c.header.item_type).collect();
    assert_eq!(once, twice);
    assert_eq!(once, vec![PlaylistItemType::LiveHls, PlaylistItemType::Series]);
}
