use m3u_filter::auth::Claims;
use m3u_filter::config::{
    create_input_stat, directories_to_create, is_input_enabled, is_target_enabled, ConfigApi,
    ConfigInput, InputType, PlaylistStats, ProcessTargets, ServerConfig, VideoConfig,
    VideoDownloadConfig,
};
use m3u_filter::logging::{get_log_level, parse_log_spec, LogLevel, LogSpec};
use m3u_filter::model::{ItemField, ProcessingOrder, TargetType};
use m3u_filter::paths::{
    concat_path_leading_slash_str, join_path, m3u_get_base_file_path, m3u_get_epg_file_path,
    m3u_get_file_paths, PlaylistService,
};
use m3u_filter::processing::ConfigTarget;
use m3u_filter::text::{parse_i64, parse_u32, parse_unsigned_str, split_char, trim_str};

#[test]
fn display_names() {
    assert_eq!(TargetType::M3u.to_string(), "M3u");
    assert_eq!(TargetType::Strm.to_string(), "Strm");
    assert_eq!(ProcessingOrder::Frm.to_string(), "filter, rename, map");
    assert_eq!(ProcessingOrder::Mrf.to_string(), "map, rename, filter");
    assert_eq!(ItemField::Title.to_string(), "Title");
}

#[test]
fn log_levels() {
    assert_eq!(get_log_level("TRACE"), LogLevel::Trace);
    assert_eq!(get_log_level("debug"), LogLevel::Debug);
    assert_eq!(get_log_level("Warn"), LogLevel::Warn);
    assert_eq!(get_log_level("error"), LogLevel::Error);
    assert_eq!(get_log_level("info"), LogLevel::Info);
    assert_eq!(get_log_level("nonsense"), LogLevel::Info);
    match parse_log_spec("debug") {
        LogSpec::Level(l) => assert_eq!(l, LogLevel::Debug),
        LogSpec::Modules(_) => panic!("expected a level"),
    }
    match parse_log_spec("m3u_filter=trace, hyper = warn,junk") {
        LogSpec::Modules(pairs) => assert_eq!(
            pairs,
            vec![("m3u_filter".to_string(), LogLevel::Trace), ("hyper".to_string(), LogLevel::Warn)]
        ),
        LogSpec::Level(_) => panic!("expected modules"),
    }
}

#[test]
fn text_helpers() {
    assert_eq!(trim_str("\u{3000} a b \t"), "a b");
    assert_eq!(split_char("a,,b", ','), vec!["a", "", "b"]);
    assert_eq!(split_char("", ','), vec![""]);
    assert_eq!(parse_u32("+12"), Some(12));
    assert_eq!(parse_u32("+"), None);
    assert_eq!(parse_u32("-0"), None);
    assert_eq!(parse_i64("-0"), Some(0));
    assert_eq!(parse_i64("--1"), None);
    assert_eq!(parse_unsigned_str("fF", 16, u32::MAX as u64), Some(255));
    assert_eq!(parse_unsigned_str("1g", 16, u32::MAX as u64), None);
}

#[test]
fn m3u_paths() {
    assert_eq!(m3u_get_base_file_path("/data/t1"), "/data/t1/m3u.db");
    assert_eq!(m3u_get_file_paths("/data/t1/"), ("/data/t1/m3u.db".to_string(), "/data/t1/m3u.db_idx".to_string()));
    assert_eq!(m3u_get_epg_file_path("data"), "data/epg_m3u.xml");
    assert_eq!(join_path("", "x"), "x");
}

#[test]
fn api_paths() {
    assert_eq!(concat_path_leading_slash_str("", "api/v1"), "/api/v1");
    assert_eq!(concat_path_leading_slash_str("/ui/", "/api/v1"), "/ui/api/v1");
    assert_eq!(concat_path_leading_slash_str("ui", ""), "/ui");
    let service = PlaylistService::new("/web/");
    assert_eq!(service.target_update_api_path(), "/web/api/v1/playlist/update");
    assert_eq!(service.playlist_api_path(), "/web/api/v1/playlist");
    assert_eq!(service.playlist_api_webplayer_url_path(), "/web/api/v1/playlist/webplayer");
    assert_eq!(service.playlist_api_epg_path(), "/web/api/v1/playlist/epg");
}

#[test]
fn input_and_target_selection() {
    let input = ConfigInput { id: 3, name: "in".to_string(), input_type: InputType::M3u, url: String::new(), enabled: true };
    let none = ProcessTargets { enabled: false, inputs: vec![], targets: vec![] };
    let named = ProcessTargets { enabled: true, inputs: vec![3], targets: vec![9] };
    let other = ProcessTargets { enabled: true, inputs: vec![4], targets: vec![] };
    assert!(is_input_enabled(&input, &none));
    assert!(is_input_enabled(&input, &named));
    assert!(!is_input_enabled(&input, &other));
    let disabled = ConfigInput { enabled: false, ..input };
    assert!(!is_input_enabled(&disabled, &none));
    assert!(is_input_enabled(&disabled, &named));
    let t = ConfigTarget {
        id: 9,
        enabled: false,
        name: "t".to_string(),
        options: None,
        t_filter: None,
        rename: None,
        processing_order: ProcessingOrder::Frm,
        t_mapping: None,
        t_watch: None,
    };
    assert!(!is_target_enabled(&t, &none));
    assert!(is_target_enabled(&t, &named));
    assert!(!is_target_enabled(&t, &other));
}

#[test]
fn input_stats() {
    let stat = create_input_stat(2, 10, 1, InputType::Xtream, "prov", 5);
    assert_eq!(stat.name, "prov");
    assert_eq!(stat.raw_stats, PlaylistStats { group_count: 2, channel_count: 10 });
    assert_eq!(stat.processed_stats, PlaylistStats { group_count: 0, channel_count: 0 });
    assert_eq!((stat.error_count, stat.secs_took), (1, 5));
}

#[test]
fn directories() {
    let mut cfg = ServerConfig {
        api: ConfigApi { host: "localhost".to_string(), port: 8901, web_root: String::new() },
        threads: 1,
        working_dir: "/data".to_string(),
        backup_dir: Some("/backup".to_string()),
        schedule: None,
        sources: vec![],
        messaging: None,
        video: None,
        api_proxy: None,
    };
    assert_eq!(directories_to_create(&cfg), vec!["/data", "/backup"]);
    cfg.backup_dir = None;
    cfg.video = Some(VideoConfig {
        extensions: vec![],
        download: Some(VideoDownloadConfig { headers: vec![], directory: Some("/videos".to_string()), organize_into_directories: false }),
    });
    assert_eq!(directories_to_create(&cfg), vec!["/data", "/videos"]);
}

#[test]
fn token_claims() {
    let claims = Claims::new("m3u-filter", 1_000);
    assert_eq!(claims.iss(), "m3u-filter");
    assert_eq!(claims.iat(), 1_000);
    assert_eq!(claims.exp(), 2_800);
}
