use m3u_filter::filter::{ConfigRename, Filter};
use m3u_filter::model::{ItemField, ProcessingOrder};
use m3u_filter::playlist::{HeaderField, PlaylistGroup, PlaylistItem, PlaylistItemHeader, PlaylistItemType, XtreamCluster};
use m3u_filter::processing::{
    apply_counter, assign_channel_no_playlist, execute_pipe, filter_playlist, flatten_groups,
    get_processing_pipe, map_playlist, map_playlist_counter, regroup_channels, rename_playlist,
    ConfigTarget, ConfigTargetOptions, CounterModifier, Mapping, MappingCounter, PipeStep,
};
use std::collections::HashSet;

fn item(name: &str, group: &str, chno: &str, uuid: u128) -> PlaylistItem {
    PlaylistItem {
        header: PlaylistItemHeader {
            id: uuid.to_string(),
            uuid,
            name: name.to_string(),
            chno: chno.to_string(),
            group: group.to_string(),
            title: name.to_string(),
            url: format!("http://host/{name}"),
            xtream_cluster: XtreamCluster::Live,
            item_type: PlaylistItemType::Live,
            virtual_id: 0,
            additional_properties: None,
        },
    }
}

fn group(id: u32, title: &str, channels: Vec<PlaylistItem>) -> PlaylistGroup {
    PlaylistGroup { id, title: title.to_string(), channels, xtream_cluster: XtreamCluster::Live }
}

fn target(order: ProcessingOrder) -> ConfigTarget {
    ConfigTarget {
        id: 1,
        enabled: true,
        name: "t".to_string(),
        options: None,
        t_filter: None,
        rename: None,
        processing_order: order,
        t_mapping: None,
        t_watch: None,
    }
}

fn names(groups: &[PlaylistGroup]) -> Vec<Vec<String>> {
    groups.iter().map(|g| g.channels.iter().map(|c| c.header.name.clone()).collect()).collect()
}

fn sample() -> Vec<PlaylistGroup> {
    vec![
        group(1, "News", vec![item("CNN", "News", "", 1), item("BBC", "News", "", 2)]),
        group(2, "Sport", vec![item("ESPN", "Sport", "", 3)]),
    ]
}

#[test]
fn filter_keeps_matching_items_and_drops_empty_groups() {
    let mut t = target(ProcessingOrder::Frm);
    t.t_filter = Some(Filter::FieldComparison(ItemField::Name, "^C".to_string()));
    let result = filter_playlist(sample(), &t);
    assert_eq!(names(&result), vec![vec!["CNN".to_string()]]);
    assert_eq!(result[0].id, 1);
    let t = target(ProcessingOrder::Frm);
    assert_eq!(names(&filter_playlist(sample(), &t)).concat().len(), 3);
}

#[test]
fn filter_expressions() {
    let mut t = target(ProcessingOrder::Frm);
    t.t_filter = Some(Filter::And(
        Box::new(Filter::FieldComparison(ItemField::Group, "News".to_string())),
        Box::new(Filter::Not(Box::new(Filter::FieldComparison(ItemField::Name, "BBC".to_string())))),
    ));
    assert_eq!(names(&filter_playlist(sample(), &t)), vec![vec!["CNN".to_string()]]);
    t.t_filter = Some(Filter::Or(
        Box::new(Filter::Group(Box::new(Filter::FieldComparison(ItemField::Name, "BBC".to_string())))),
        Box::new(Filter::FieldComparison(ItemField::Url, "ESPN$".to_string())),
    ));
    assert_eq!(names(&filter_playlist(sample(), &t)), vec![vec!["BBC".to_string()], vec!["ESPN".to_string()]]);
}

#[test]
fn rename_rules() {
    let mut t = target(ProcessingOrder::Frm);
    assert!(ConfigRename::new(ItemField::Name, "(".to_string(), "x".to_string()).is_none());
    t.rename = Some(vec![
        ConfigRename::new(ItemField::Name, "^(.*)$".to_string(), "DE: $1".to_string()).unwrap(),
        ConfigRename::new(ItemField::Group, "News".to_string(), "Nachrichten".to_string()).unwrap(),
    ]);
    let result = rename_playlist(sample(), &t);
    assert_eq!(result[0].title, "Nachrichten");
    assert_eq!(result[1].title, "Sport");
    assert_eq!(result[0].channels[0].header.name, "DE: CNN");
    assert_eq!(result[0].channels[0].header.group, "Nachrichten");
    assert_eq!(result[0].channels[0].header.title, "CNN");
    // without rules nothing changes
    let t = target(ProcessingOrder::Frm);
    assert_eq!(names(&rename_playlist(sample(), &t)), names(&sample()));
}

#[test]
fn regrouping_by_item_group() {
    let playlist = vec![
        group(5, "A", vec![item("x", "G1", "", 1), item("y", "G2", "", 2)]),
        group(6, "B", vec![item("z", "G1", "", 3)]),
    ];
    let result = regroup_channels(playlist);
    assert_eq!(result.len(), 2);
    assert_eq!((result[0].id, result[0].title.as_str()), (1, "G1"));
    assert_eq!((result[1].id, result[1].title.as_str()), (2, "G2"));
    assert_eq!(names(&result), vec![vec!["x".to_string(), "z".to_string()], vec!["y".to_string()]]);
    // the map step regroups only when mappings are configured
    let t = target(ProcessingOrder::Frm);
    assert_eq!(map_playlist(sample(), &t).len(), 2);
}

#[test]
fn flatten_merges_same_title_and_cluster() {
    let mut vod = group(3, "News", vec![item("V", "News", "", 9)]);
    vod.xtream_cluster = XtreamCluster::Video;
    let playlist = vec![
        group(1, "News", vec![item("a", "News", "", 1)]),
        group(2, "Sport", vec![item("b", "Sport", "", 2)]),
        vod,
        group(4, "News", vec![item("c", "News", "", 3)]),
    ];
    let result = flatten_groups(playlist);
    assert_eq!(result.len(), 3);
    assert_eq!(result[0].id, 1);
    assert_eq!(names(&result), vec![
        vec!["a".to_string(), "c".to_string()],
        vec!["b".to_string()],
        vec!["V".to_string()],
    ]);
}

#[test]
fn channel_numbers_skip_taken_ones() {
    let mut playlist = vec![
        group(1, "A", vec![item("a", "A", "", 1), item("b", "A", "2", 2), item("c", "A", "", 3)]),
        group(2, "B", vec![item("d", "B", "x", 4), item("e", "B", "", 5), item("f", "B", "4", 6)]),
    ];
    assign_channel_no_playlist(&mut playlist);
    let chnos: Vec<&str> = playlist.iter().flat_map(|g| g.channels.iter().map(|c| c.header.chno.as_str())).collect();
    assert_eq!(chnos, vec!["1", "2", "3", "x", "5", "4"]);
}

#[test]
fn processing_pipes() {
    let cases = [
        (ProcessingOrder::Frm, [PipeStep::FilterPlaylist, PipeStep::RenamePlaylist, PipeStep::MapPlaylist]),
        (ProcessingOrder::Fmr, [PipeStep::FilterPlaylist, PipeStep::MapPlaylist, PipeStep::RenamePlaylist]),
        (ProcessingOrder::Rfm, [PipeStep::RenamePlaylist, PipeStep::FilterPlaylist, PipeStep::MapPlaylist]),
        (ProcessingOrder::Rmf, [PipeStep::RenamePlaylist, PipeStep::MapPlaylist, PipeStep::FilterPlaylist]),
        (ProcessingOrder::Mfr, [PipeStep::MapPlaylist, PipeStep::FilterPlaylist, PipeStep::RenamePlaylist]),
        (ProcessingOrder::Mrf, [PipeStep::MapPlaylist, PipeStep::RenamePlaylist, PipeStep::FilterPlaylist]),
    ];
    for (order, steps) in cases {
        assert_eq!(get_processing_pipe(&target(order)), steps.to_vec());
    }
}

#[test]
fn pipe_with_duplicates_removed() {
    let mut t = target(ProcessingOrder::Rfm);
    t.options = Some(ConfigTargetOptions { remove_duplicates: true });
    t.rename = Some(vec![ConfigRename::new(ItemField::Name, "CNN".to_string(), "KEEP".to_string()).unwrap()]);
    t.t_filter = Some(Filter::FieldComparison(ItemField::Name, "KEEP|ESPN".to_string()));
    let pipe = get_processing_pipe(&t);
    let mut seen: HashSet<u128> = HashSet::new();
    seen.insert(3);
    let first = vec![group(1, "News", vec![item("CNN", "News", "", 1), item("CNN", "News", "", 1)]), group(2, "Sport", vec![item("ESPN", "Sport", "", 3)])];
    let result = execute_pipe(&t, &pipe, first, &mut seen);
    assert_eq!(names(&result), vec![vec!["KEEP".to_string()]]);
    assert!(seen.contains(&1));
    // a later input sees the earlier keys
    let second = vec![group(1, "News", vec![item("CNN", "News", "", 1), item("CNN", "News", "", 7)])];
    let result = execute_pipe(&t, &pipe, second, &mut seen);
    assert_eq!(names(&result), vec![vec!["KEEP".to_string()]]);
    assert_eq!(result[0].channels[0].header.uuid, 7);
}

fn counter(modifier: CounterModifier, padding: u8, value: u32) -> MappingCounter {
    MappingCounter {
        filter: Filter::FieldComparison(ItemField::Group, "News".to_string()),
        field: HeaderField::Name,
        concat: "-".to_string(),
        modifier,
        value,
        padding,
    }
}

#[test]
fn counters_number_matching_items() {
    let mut c = counter(CounterModifier::Suffix, 3, 7);
    let mut playlist = sample();
    apply_counter(&mut c, &mut playlist);
    assert_eq!(names(&playlist), vec![
        vec!["CNN-007".to_string(), "BBC-008".to_string()],
        vec!["ESPN".to_string()],
    ]);
    assert_eq!(c.value, 9);
    let mut c = counter(CounterModifier::Prefix, 0, 10);
    let mut playlist = sample();
    apply_counter(&mut c, &mut playlist);
    assert_eq!(playlist[0].channels[1].header.name, "11-BBC");
    let mut c = counter(CounterModifier::Assign, 2, 5);
    c.field = HeaderField::Chno;
    let mut playlist = sample();
    apply_counter(&mut c, &mut playlist);
    assert_eq!(playlist[0].channels[0].header.chno, "05");
    assert_eq!(playlist[1].channels[0].header.chno, "");
}

#[test]
fn counters_of_all_mappings() {
    let mut t = target(ProcessingOrder::Frm);
    t.t_mapping = Some(vec![
        Mapping { id: "m1".to_string(), t_counter: Some(vec![counter(CounterModifier::Suffix, 0, 1)]) },
        Mapping { id: "m2".to_string(), t_counter: None },
        Mapping { id: "m3".to_string(), t_counter: Some(vec![counter(CounterModifier::Prefix, 0, 100)]) },
    ]);
    let mut playlist = sample();
    map_playlist_counter(&mut t, &mut playlist);
    assert_eq!(playlist[0].channels[0].header.name, "100-CNN-1");
    assert_eq!(playlist[0].channels[1].header.name, "101-BBC-2");
    let mappings = t.t_mapping.as_ref().unwrap();
    assert_eq!(mappings[0].t_counter.as_ref().unwrap()[0].value, 3);
    assert!(mappings[1].t_counter.is_none());
    assert_eq!(mappings[2].t_counter.as_ref().unwrap()[0].value, 102);
}

#[test]
fn counter_wraps_around() {
    let mut c = counter(CounterModifier::Assign, 0, u32::MAX);
    let mut playlist = sample();
    apply_counter(&mut c, &mut playlist);
    assert_eq!(playlist[0].channels[0].header.name, "4294967295");
    assert_eq!(playlist[0].channels[1].header.name, "0");
    assert_eq!(c.value, 1);
}
