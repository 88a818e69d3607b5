use std::sync::atomic::{AtomicBool, Ordering};
use std::sync::Arc;

use clipture::catalog::{Executable, Root2};
use clipture::consts::clipture_to_url;
use clipture::refresh::{
    interpret_cache, needs_forced_refresh, refresh_decision, DetectionError, RefreshDecision,
    REFRESH_INTERVAL_SECS,
};
use clipture::util::{to_internal_res, AtomicDropGuard};

#[test]
fn urls_are_rooted_at_the_base_address() {
    assert_eq!(
        clipture_to_url("/api/game/detection"),
        "http://localhost:3000/api/game/detection"
    );
    assert_eq!(clipture_to_url(""), "http://localhost:3000");
}

#[test]
fn errors_map_into_the_transport_shape() {
    let ok: Result<u32, String> = Ok(7);
    assert_eq!(to_internal_res(ok).unwrap(), 7);
    let err: Result<u32, String> = Err("boom".to_string());
    assert_eq!(to_internal_res(err).unwrap_err().message, "boom");
}

#[test]
fn drop_guard_raises_and_clears_the_flag() {
    let flag = Arc::new(AtomicBool::new(false));
    {
        let _guard = AtomicDropGuard::new(flag.clone());
        assert!(flag.load(Ordering::Acquire));
    }
    assert!(!flag.load(Ordering::Acquire));
}

#[test]
fn cache_serves_up_to_and_including_the_ttl() {
    assert_eq!(
        refresh_decision(Some(0), false),
        RefreshDecision::UseCache { sleep_secs: REFRESH_INTERVAL_SECS }
    );
    assert_eq!(
        refresh_decision(Some(REFRESH_INTERVAL_SECS), false),
        RefreshDecision::UseCache { sleep_secs: 0 }
    );
    assert_eq!(
        refresh_decision(Some(REFRESH_INTERVAL_SECS + 1), false),
        RefreshDecision::Fetch
    );
    assert_eq!(refresh_decision(Some(10), true), RefreshDecision::Fetch);
    assert_eq!(refresh_decision(None, false), RefreshDecision::Fetch);
}

#[test]
fn cache_contents_decide_startup_and_forcing() {
    assert_eq!(interpret_cache(None).map(|c| c.len()), Ok(0));
    assert_eq!(
        interpret_cache(Some(None)).map(|c| c.len()),
        Err(DetectionError::CatalogCacheCorrupt)
    );
    let catalog = vec![Root2 {
        executables: vec![Executable {
            is_launcher: false,
            name: "game.exe".to_string(),
            os: "win32".to_string(),
            arguments: None,
        }],
        hook: false,
        id: "g".to_string(),
        name: "G".to_string(),
        aliases: vec!["alias".to_string()],
        overlay: Some(true),
        overlay_compatibility_hook: None,
        overlay_methods: Some(1),
    }];
    let loaded = interpret_cache(Some(Some(catalog))).unwrap();
    assert_eq!(loaded.len(), 1);
    assert!(!needs_forced_refresh(&loaded));
    assert!(needs_forced_refresh(&Vec::new()));
}
