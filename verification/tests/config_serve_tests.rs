use pelp::config::{config_locations, find_user_config};
use pelp::serve::{fallback_port, no_cache_headers, should_reload, DEFAULT_PORT};

#[test]
fn config_places() {
    let (dir, file) = config_locations("/home/me/.config");
    assert_eq!(dir, "/home/me/.config/pelp");
    assert_eq!(file, "/home/me/.config/pelp.toml");
}

#[test]
fn config_found_only_when_all_exist() {
    let d = Some("/c".to_string());
    assert_eq!(find_user_config(&d, true, true, true), Some("/c/pelp.toml".to_string()));
    assert_eq!(find_user_config(&d, true, false, true), None);
    assert_eq!(find_user_config(&d, false, true, true), None);
    assert_eq!(find_user_config(&d, true, true, false), None);
    assert_eq!(find_user_config(&None, true, true, true), None);
}

#[test]
fn reload_only_for_written_output() {
    let out = "/p/deck.html".to_string();
    let paths = vec!["/p/deck.md".to_string(), "/p/deck.html".to_string()];
    assert!(should_reload(true, &paths, &out));
    assert!(!should_reload(false, &paths, &out));
    assert!(!should_reload(true, &vec!["/p/deck.md".to_string()], &out));
    assert!(!should_reload(true, &Vec::new(), &out));
    assert!(should_reload(true, &vec!["/d/out.html".to_string()], &"/d/./out.html".to_string()));
    assert!(should_reload(true, &vec!["/d//out.html".to_string()], &"/d/out.html".to_string()));
}

#[test]
fn headers_against_caching() {
    let h = no_cache_headers();
    assert_eq!(
        h,
        vec![
            ("cache-control".to_string(), "no-cache, no-store, must-revalidate".to_string()),
            ("pragma".to_string(), "no-cache".to_string()),
            ("expires".to_string(), "0".to_string()),
        ]
    );
}

#[test]
fn ports() {
    assert_eq!(DEFAULT_PORT, 8080);
    for _ in 0..100 {
        let p = fallback_port();
        assert!(p >= 1025);
    }
}
