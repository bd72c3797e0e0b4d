use dyndns::cf_types::DnsRecord;
use dyndns::dynamic_dns::{maybe_update_dns_record, process_zone_records, DnsRecordAction};
use dyndns::ip_change_watcher::IPChangeWatcher;
use dyndns::ipv4::Ipv4;

fn mock_dns_record() -> DnsRecord {
    DnsRecord {
        content: "1.2.3.4".into(),
        name: "Mock Record".into(),
        proxied: true,
        record_type: "A".into(),
        created_on: "today".into(),
        id: "something".into(),
        locked: false,
        modified_on: "today".into(),
        proxiable: true,
        tags: vec![],
        ttl: 1,
        zone_id: "something".into(),
        zone_name: "something".into(),
    }
}

#[test]
fn test_maybe_update_skip_updating_non_type_a() {
    let mut record = mock_dns_record();
    record.record_type = "not-type-a".into();
    let action = maybe_update_dns_record(&mut record, Ipv4::new(4, 4, 4, 4));
    assert_eq!(action, DnsRecordAction::Noop);
}

#[test]
fn test_maybe_update_mutating_type_a() {
    let mut record = mock_dns_record();
    let new_ip = Ipv4::new(4, 4, 4, 4);
    let res = maybe_update_dns_record(&mut record, new_ip);
    assert_eq!(record.content, new_ip.render());
    assert_eq!(res, DnsRecordAction::Updated);
}

#[test]
fn test_maybe_update_lock_noop() {
    let mut record = mock_dns_record();
    record.locked = true;
    let new_ip = Ipv4::new(4, 4, 4, 4);
    let res = maybe_update_dns_record(&mut record, new_ip);
    assert_ne!(record.content, new_ip.render());
    assert_eq!(res, DnsRecordAction::Noop);
}

#[test]
fn test_maybe_update_err() {
    let mut record = mock_dns_record();
    record.content = "This ain't no IP I ever heard of".into();
    let new_ip = Ipv4::new(4, 4, 4, 4);
    let res = maybe_update_dns_record(&mut record, new_ip);
    assert_eq!(res, DnsRecordAction::Error);
}

#[test]
fn test_maybe_update_equal_ip_noop() {
    let mut record = mock_dns_record();
    let res = maybe_update_dns_record(&mut record, Ipv4::new(1, 2, 3, 4));
    assert_eq!(res, DnsRecordAction::Noop);
    assert_eq!(record.content, "1.2.3.4");
}

#[test]
fn test_maybe_update_error_leaves_record_unchanged() {
    let mut record = mock_dns_record();
    record.content = "not an ip".into();
    let res = maybe_update_dns_record(&mut record, Ipv4::new(9, 9, 9, 9));
    assert_eq!(res, DnsRecordAction::Error);
    assert_eq!(record.content, "not an ip");
}

#[test]
fn test_process_zone_records_reports_updated_indices() {
    let stale = mock_dns_record();
    let mut current = mock_dns_record();
    current.content = "4.4.4.4".into();
    let mut other = mock_dns_record();
    other.record_type = "TXT".into();
    let mut bad = mock_dns_record();
    bad.content = "not an ip".into();
    let mut records = vec![stale, current, other, bad];
    let (updated, errors) = process_zone_records(&mut records, Ipv4::new(4, 4, 4, 4));
    assert_eq!(updated, vec![0]);
    assert_eq!(errors, vec![3]);
    assert_eq!(records[0].content, "4.4.4.4");
    assert_eq!(records[1].content, "4.4.4.4");
    assert_eq!(records[2].content, "1.2.3.4");
}

/// One full cycle over a zone with a stale address record and a record of
/// another type: only the first is updated, then the new IP is committed.
#[test]
fn test_cycle_updates_only_stale_a_record() {
    let mut watcher =
        IPChangeWatcher::new("http://ip.invalid".to_string(), "1.2.3.4\n").expect("first fetch");
    watcher.persist_current_ip();
    watcher.refresh_context("4.4.4.4\n").expect("second fetch");
    assert!(watcher.did_public_ip_change());

    let stale = mock_dns_record();
    let mut cname = mock_dns_record();
    cname.record_type = "CNAME".into();
    cname.content = "somewhere.example".into();
    let mut records = vec![stale, cname];

    let (updated, errors) = process_zone_records(&mut records, watcher.get_public_ip());
    assert_eq!(updated, vec![0]);
    assert!(errors.is_empty());
    assert_eq!(records[0].content, "4.4.4.4");
    assert_eq!(records[1].content, "somewhere.example");

    watcher.persist_current_ip();
    assert!(!watcher.did_public_ip_change());
}
