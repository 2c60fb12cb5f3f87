use m3u_filter::logging::{quiet_modules, LogLevel};
use m3u_filter::streams::{SharedStreamManager, SharedStreamState};

fn state(headers: &[(&str, &str)], tx: u32) -> SharedStreamState<u32> {
    SharedStreamState {
        headers: headers.iter().map(|(k, v)| (k.to_string(), v.to_string())).collect(),
        broadcast_tx: tx,
    }
}

#[test]
fn registered_streams_are_found_by_url() {
    let mut manager: SharedStreamManager<u32> = SharedStreamManager::new();
    assert_eq!(manager.get_shared_state_headers("http://a"), None);
    assert!(manager.subscribe_shared_stream("http://a").is_none());
    manager.register("http://a", state(&[("content-type", "video/mp2t")], 1));
    manager.register("http://b", state(&[], 2));
    assert_eq!(
        manager.get_shared_state_headers("http://a"),
        Some(vec![("content-type".to_string(), "video/mp2t".to_string())])
    );
    assert_eq!(manager.subscribe_shared_stream("http://a"), Some(&1));
    assert_eq!(manager.subscribe_shared_stream("http://b"), Some(&2));
    assert_eq!(manager.get_shared_state_headers("http://b"), Some(vec![]));
}

#[test]
fn registering_again_replaces_the_stream() {
    let mut manager: SharedStreamManager<u32> = SharedStreamManager::new();
    manager.register("http://a", state(&[("x", "1")], 1));
    manager.register("http://a", state(&[("x", "2")], 3));
    assert_eq!(manager.get_shared_state_headers("http://a"), Some(vec![("x".to_string(), "2".to_string())]));
    assert_eq!(manager.subscribe_shared_stream("http://a"), Some(&3));
}

#[test]
fn unregistered_streams_are_gone() {
    let mut manager: SharedStreamManager<u32> = SharedStreamManager::new();
    manager.register("http://a", state(&[], 1));
    manager.register("http://b", state(&[], 2));
    manager.unregister("http://a");
    assert!(manager.subscribe_shared_stream("http://a").is_none());
    assert_eq!(manager.subscribe_shared_stream("http://b"), Some(&2));
    manager.unregister("http://unknown");
    assert_eq!(manager.subscribe_shared_stream("http://b"), Some(&2));
}

#[test]
fn noisy_modules_log_errors_only() {
    let modules = quiet_modules();
    let names: Vec<&str> = modules.iter().map(|(m, _)| m.as_str()).collect();
    assert_eq!(
        names,
        vec!["actix_web::middleware::logger", "reqwest::async_impl::client", "reqwest::connect", "hyper_util::client"]
    );
    assert!(modules.iter().all(|(_, l)| *l == LogLevel::Error));
}
