use m3u_filter::config::{ConfigInput, InputType, PlaylistStats, ProcessTargets};
use m3u_filter::filter::{renames_are_wf, ConfigRename, Filter};
use m3u_filter::hdhomerun::{parse_tlv, write_tlv_str, write_tlv_u32, write_tlv_u8};
use m3u_filter::model::{ItemField, ProcessingOrder};
use m3u_filter::playlist::{PlaylistGroup, PlaylistItem, PlaylistItemHeader, PlaylistItemType, XtreamCluster};
use m3u_filter::processing::{channel_numbers_fit, target_is_wf, ConfigTarget, ConfigTargetOptions};
use m3u_filter::size_utils::parse_size_base_2;
use m3u_filter::source_run::{source_step, SourceCommand, SourceConfig, SourceEvent, SourcePhase, SourceRun};
use m3u_filter::streams::{SharedStreamManager, SharedStreamState};
use m3u_filter::target_run::{target_step, TargetAction, TargetEvent, TargetRun};

fn item(name: &str, chno: &str, uuid: u128) -> PlaylistItem {
    PlaylistItem {
        header: PlaylistItemHeader {
            id: uuid.to_string(),
            uuid,
            name: name.to_string(),
            chno: chno.to_string(),
            group: "G".to_string(),
            title: name.to_string(),
            url: format!("http://host/{name}"),
            xtream_cluster: XtreamCluster::Live,
            item_type: PlaylistItemType::Live,
            virtual_id: 0,
            additional_properties: None,
        },
    }
}

fn group(title: &str, channels: Vec<PlaylistItem>) -> PlaylistGroup {
    PlaylistGroup { id: 1, title: title.to_string(), channels, xtream_cluster: XtreamCluster::Live }
}

fn target(id: u16, enabled: bool) -> ConfigTarget {
    ConfigTarget {
        id,
        enabled,
        name: format!("t{id}"),
        options: Some(ConfigTargetOptions { remove_duplicates: true }),
        t_filter: None,
        rename: None,
        processing_order: ProcessingOrder::Frm,
        t_mapping: None,
        t_watch: Some(vec!["^A$".to_string()]),
    }
}

fn input(id: u16, name: &str, enabled: bool) -> ConfigInput {
    ConfigInput { id, name: name.to_string(), input_type: InputType::M3u, url: "http://x".to_string(), enabled }
}

#[test]
fn field_comparison_checks_its_pattern() {
    assert!(matches!(Filter::field_comparison(ItemField::Name, "^CNN".to_string()), Some(Filter::FieldComparison(ItemField::Name, _))));
    assert!(Filter::field_comparison(ItemField::Name, "(".to_string()).is_none());
}

#[test]
fn sizes_with_units_and_case() {
    assert_eq!(parse_size_base_2("10 kb"), Ok(10240));
    assert_eq!(parse_size_base_2("10kb"), parse_size_base_2("10240"));
    assert_eq!(parse_size_base_2("7 B"), parse_size_base_2("7"));
    assert_eq!(parse_size_base_2("1 tb"), Ok(1_099_511_628_000));
}

#[test]
fn distinct_tlv_writes_read_back() {
    let mut buf = Vec::new();
    write_tlv_u32(&mut buf, 0x02, 0xDEADBEEF);
    write_tlv_u8(&mut buf, 0x10, 3);
    write_tlv_str(&mut buf, 0x2A, &"x".repeat(300));
    let tags = parse_tlv(&buf);
    assert_eq!(tags.len(), 3);
    assert_eq!(tags[&0x02], 0xDEADBEEFu32.to_be_bytes().to_vec());
    assert_eq!(tags[&0x10], vec![3]);
    assert_eq!(tags[&0x2A], "x".repeat(300).into_bytes());
}

#[test]
fn last_registration_wins() {
    let mut m: SharedStreamManager<u32> = SharedStreamManager::new();
    let st = |h: &str, tx: u32| SharedStreamState { headers: vec![("h".to_string(), h.to_string())], broadcast_tx: tx };
    m.register("u", st("1", 1));
    m.register("v", st("2", 2));
    m.unregister("u");
    m.register("u", st("3", 3));
    m.register("u", st("4", 4));
    m.unregister("v");
    assert_eq!(m.get_shared_state_headers("u"), Some(vec![("h".to_string(), "4".to_string())]));
    assert_eq!(m.get_shared_state_headers("v"), None);
    assert_eq!(m.get_shared_state_headers("w"), None);
}

#[test]
fn channel_numbers_fit_check() {
    assert!(channel_numbers_fit(&vec![group("A", vec![item("a", "", 1), item("b", "7", 2)])]));
    assert!(channel_numbers_fit(&vec![group("A", vec![item("a", "4294967295", 1), item("b", "", 2)])]));
    assert!(channel_numbers_fit(&vec![group("A", vec![item("a", "4294967295", 1)])]));
}

#[test]
fn source_run_steps() {
    let source = SourceConfig {
        inputs: vec![input(1, "off", false), input(2, "in1", true), input(3, "in2", true)],
        targets: vec![target(1, true), target(2, false), target(3, true)],
    };
    let ut = ProcessTargets { enabled: false, inputs: vec![], targets: vec![] };
    let mut run = SourceRun { source_idx: 4, phase: SourcePhase::Idle, current: 0, next: 0, downloaded: false, fetched_any: false };
    let a = source_step(&mut run, &source, &ut, SourceEvent::Start);
    assert_eq!(a.command, SourceCommand::FetchInput(1));
    let a = source_step(&mut run, &source, &ut, SourceEvent::Fetched { group_count: 0 });
    assert_eq!(a.errors, vec!["Source is empty in1".to_string()]);
    assert_eq!(a.command, SourceCommand::FetchInput(2));
    let a = source_step(&mut run, &source, &ut, SourceEvent::Fetched { group_count: 3 });
    assert!(a.errors.is_empty());
    assert_eq!(a.command, SourceCommand::ProcessTarget(0));
    let a = source_step(&mut run, &source, &ut, SourceEvent::TargetProcessed);
    assert_eq!(a.command, SourceCommand::ProcessTarget(2));
    let a = source_step(&mut run, &source, &ut, SourceEvent::TargetProcessed);
    assert_eq!(a.command, SourceCommand::Finish);
    assert_eq!(run.phase, SourcePhase::Done);
}

#[test]
fn empty_source_is_reported() {
    let source = SourceConfig { inputs: vec![input(1, "in", true)], targets: vec![target(1, true)] };
    let ut = ProcessTargets { enabled: false, inputs: vec![], targets: vec![] };
    let mut run = SourceRun { source_idx: 2, phase: SourcePhase::Idle, current: 0, next: 0, downloaded: false, fetched_any: false };
    source_step(&mut run, &source, &ut, SourceEvent::Start);
    let a = source_step(&mut run, &source, &ut, SourceEvent::Fetched { group_count: 0 });
    assert_eq!(a.errors, vec!["Source is empty in".to_string(), "Source at 2 is empty".to_string()]);
    assert_eq!(a.command, SourceCommand::Finish);
    // nothing enabled: nothing to do
    let ut = ProcessTargets { enabled: true, inputs: vec![9], targets: vec![] };
    let mut run = SourceRun { source_idx: 2, phase: SourcePhase::Idle, current: 0, next: 0, downloaded: false, fetched_any: false };
    let a = source_step(&mut run, &source, &ut, SourceEvent::Start);
    assert!(a.errors.is_empty());
    assert_eq!(a.command, SourceCommand::Finish);
}

#[test]
fn target_run_steps() {
    let mut t = target(1, true);
    let mut run = TargetRun::new();
    let first = vec![group("A", vec![item("a", "", 1), item("b", "", 2)])];
    let out = match target_step(&mut run, &mut t, TargetEvent::Input(first)) {
        TargetAction::Resolve(out) => out,
        _ => panic!("expected resolve"),
    };
    match target_step(&mut run, &mut t, TargetEvent::Resolved(out)) {
        TargetAction::UpdateStats(s) => assert_eq!(s, PlaylistStats { group_count: 1, channel_count: 2 }),
        _ => panic!("expected stats"),
    }
    // the second input repeats item 1, which is dropped as a duplicate
    let second = vec![group("A", vec![item("a", "", 1), item("c", "", 3)]), group("B", vec![item("d", "", 4)])];
    let out = match target_step(&mut run, &mut t, TargetEvent::Input(second)) {
        TargetAction::Resolve(out) => out,
        _ => panic!("expected resolve"),
    };
    target_step(&mut run, &mut t, TargetEvent::Resolved(out));
    match target_step(&mut run, &mut t, TargetEvent::Finish) {
        TargetAction::Persist(playlist, watched) => {
            let titles: Vec<&str> = playlist.iter().map(|g| g.title.as_str()).collect();
            assert_eq!(titles, vec!["A", "B"]);
            let names: Vec<(&str, &str)> = playlist[0]
                .channels
                .iter()
                .map(|c| (c.header.name.as_str(), c.header.chno.as_str()))
                .collect();
            assert_eq!(names, vec![("a", "1"), ("b", "2"), ("c", "3")]);
            assert_eq!(watched.ok(), Some(vec![0]));
        }
        _ => panic!("expected a playlist"),
    }
    assert!(matches!(target_step(&mut run, &mut t, TargetEvent::Finish), TargetAction::Ignored));
}

#[test]
fn empty_target_run() {
    let mut t = target(1, true);
    let mut run = TargetRun::new();
    assert!(matches!(target_step(&mut run, &mut t, TargetEvent::Finish), TargetAction::Empty));
}

#[test]
fn the_end_of_an_earlier_stream_keeps_a_later_registration() {
    let mut m: SharedStreamManager<u32> = SharedStreamManager::new();
    let st = |tx: u32| SharedStreamState { headers: vec![], broadcast_tx: tx };
    assert!(m.can_register());
    let first = m.register("u", st(1));
    let second = m.register("u", st(2));
    assert!(first < second);
    m.unregister_if_current("u", first);
    assert_eq!(m.subscribe_shared_stream("u"), Some(&2));
    m.unregister_if_current("u", second);
    assert_eq!(m.subscribe_shared_stream("u"), None);
    m.unregister_if_current("other", second);
    assert_eq!(m.subscribe_shared_stream("other"), None);
}

#[test]
fn targets_with_compiling_patterns() {
    let mut t = target(1, true);
    assert!(target_is_wf(&t));
    t.t_filter = Some(Filter::Not(Box::new(Filter::FieldComparison(ItemField::Group, "(".to_string()))));
    assert!(!target_is_wf(&t));
    t.t_filter = Some(Filter::And(
        Box::new(Filter::FieldComparison(ItemField::Group, "^News".to_string())),
        Box::new(Filter::FieldComparison(ItemField::Name, "x".to_string())),
    ));
    assert!(target_is_wf(&t));
    t.t_watch = Some(vec!["ok".to_string(), "[".to_string()]);
    assert!(!target_is_wf(&t));
    t.t_watch = None;
    t.rename = Some(vec![ConfigRename { field: ItemField::Name, pattern: "(".to_string(), new_name: "x".to_string() }]);
    assert!(!renames_are_wf(t.rename.as_ref().unwrap()));
    assert!(!target_is_wf(&t));
}
