use dyndns::ip_change_watcher::IPChangeWatcher;

fn fresh_watcher(text: &str) -> IPChangeWatcher {
    IPChangeWatcher::new("http://ip.invalid".to_string(), text).expect("watcher can be constructed")
}

#[test]
fn test_fresh_watcher_reports_change() {
    let watcher = fresh_watcher("1.2.3.4");
    assert!(watcher.did_public_ip_change());
}

#[test]
fn test_fresh_watcher_reports_change_whatever_the_ip() {
    let watcher = fresh_watcher("203.0.113.7\n");
    assert!(watcher.did_public_ip_change());
}

#[test]
fn test_same_ip_after_commit_reports_no_change() {
    let mut watcher = fresh_watcher("9.9.9.9");
    watcher.refresh_context("1.2.3.4\n").expect("refresh");
    watcher.persist_current_ip();
    watcher.refresh_context("1.2.3.4\n").expect("refresh");
    assert!(!watcher.did_public_ip_change());
}

#[test]
fn test_new_ip_after_commit_reports_change() {
    let mut watcher = fresh_watcher("1.2.3.4");
    watcher.persist_current_ip();
    watcher.refresh_context("4.4.4.4").expect("refresh");
    assert!(watcher.did_public_ip_change());
}

#[test]
fn test_construction_fails_on_unparsable_text() {
    let watcher = IPChangeWatcher::new("http://ip.invalid".to_string(), "not an ip");
    assert!(watcher.is_err());
}

#[test]
fn test_failed_refresh_keeps_current_ip() {
    let mut watcher = fresh_watcher("1.2.3.4");
    assert!(watcher.refresh_context("garbage").is_err());
    assert_eq!(watcher.get_public_ip().render(), "1.2.3.4");
}

#[test]
fn test_get_public_ip_tracks_last_refresh() {
    let mut watcher = fresh_watcher(" 10.1.2.3 ");
    assert_eq!(watcher.get_public_ip().render(), "10.1.2.3");
    watcher.refresh_context("172.16.0.9\r\n").expect("refresh");
    assert_eq!(watcher.get_public_ip().render(), "172.16.0.9");
}
