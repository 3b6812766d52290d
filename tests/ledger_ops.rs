use nyazoom::ledger::TOKEN_LEN;
use nyazoom::record::{DEFAULT_MAX_DOWNLOADS, TTL_MILLIS};
use nyazoom::{Ledger, UploadRecord};

const DAY: i64 = 24 * 60 * 60 * 1000;
const NOW: i64 = 1_700_000_000_000;

fn record(path: &str, uploaded: i64, max_downloads: u8) -> UploadRecord {
    UploadRecord::created(path.to_string(), uploaded, max_downloads)
}

fn token(s: &str) -> String {
    s.to_string()
}

#[test]
fn insert_then_lookup() {
    let mut ledger = Ledger::new();
    assert!(ledger.insert(token("abc"), record("f/abc.zip", NOW, 5)).is_ok());
    assert_eq!(ledger.len(), 1);
    assert!(ledger.contains(&token("abc")));
    let found = ledger.get_at(&token("abc"), NOW + 10).unwrap();
    assert_eq!(found.file(), "f/abc.zip");
    assert_eq!(found.downloads(), 0);
    assert_eq!(ledger.len(), 1);
}

#[test]
fn insert_refuses_taken_token() {
    let mut ledger = Ledger::new();
    ledger.insert(token("abc"), record("first.zip", NOW, 5)).unwrap();
    let back = ledger.insert(token("abc"), record("second.zip", NOW, 5)).unwrap_err();
    assert_eq!(back.file(), "second.zip");
    assert_eq!(ledger.len(), 1);
    assert_eq!(ledger.get_at(&token("abc"), NOW).unwrap().file(), "first.zip");
}

#[test]
fn five_downloads_then_not_found() {
    let mut ledger = Ledger::new();
    ledger.insert(token("t"), record("t.zip", NOW, 5)).unwrap();
    for expected_left in [4u8, 3, 2, 1, 0] {
        assert_eq!(ledger.mark_downloaded_at(&token("t"), NOW + 1).unwrap(), expected_left);
    }
    let miss = ledger.mark_downloaded_at(&token("t"), NOW + 1).unwrap_err();
    let evicted = miss.evicted.expect("the exhausted record is evicted");
    assert_eq!(evicted.downloads(), 5);
    assert_eq!(evicted.file(), "t.zip");
    assert!(!ledger.contains(&token("t")));
    let again = ledger.mark_downloaded_at(&token("t"), NOW + 1).unwrap_err();
    assert!(again.evicted.is_none());
}

#[test]
fn expired_record_is_removed_on_access() {
    let mut ledger = Ledger::new();
    ledger.insert(token("old"), record("old.zip", NOW - 4 * DAY, 5)).unwrap();
    let miss = ledger.get_at(&token("old"), NOW).unwrap_err();
    assert_eq!(miss.evicted.unwrap().file(), "old.zip");
    assert_eq!(ledger.len(), 0);
    assert!(ledger.get_at(&token("old"), NOW).unwrap_err().evicted.is_none());
}

#[test]
fn expired_record_refuses_download() {
    let mut ledger = Ledger::new();
    ledger.insert(token("old"), record("old.zip", NOW - 4 * DAY, 5)).unwrap();
    let miss = ledger.mark_downloaded_at(&token("old"), NOW).unwrap_err();
    assert_eq!(miss.evicted.unwrap().downloads(), 0);
    assert_eq!(ledger.len(), 0);
}

#[test]
fn unknown_token_is_not_found() {
    let mut ledger = Ledger::new();
    assert!(ledger.get_at(&token("nope"), NOW).unwrap_err().evicted.is_none());
    assert!(ledger.mark_downloaded_at(&token("nope"), NOW).unwrap_err().evicted.is_none());
    assert!(ledger.remaining(&token("nope")).is_none());
}

#[test]
fn remove_twice_is_not_found() {
    let mut ledger = Ledger::new();
    ledger.insert(token("x"), record("x.zip", NOW, 5)).unwrap();
    ledger.insert(token("y"), record("y.zip", NOW, 5)).unwrap();
    let removed = ledger.remove(&token("x")).unwrap();
    assert_eq!(removed.file(), "x.zip");
    let second = ledger.remove(&token("x")).unwrap_err();
    assert!(second.evicted.is_none());
    assert_eq!(ledger.len(), 1);
    assert!(ledger.contains(&token("y")));
}

#[test]
fn remaining_does_not_expire() {
    let mut ledger = Ledger::new();
    ledger.insert(token("old"), record("old.zip", NOW - 4 * DAY, 5)).unwrap();
    ledger.insert(token("new"), record("new.zip", NOW, 5)).unwrap();
    assert_eq!(ledger.remaining(&token("old")), Some(5));
    ledger.mark_downloaded_at(&token("new"), NOW).unwrap();
    assert_eq!(ledger.remaining(&token("new")), Some(4));
    assert_eq!(ledger.len(), 2);
}

#[test]
fn downloads_stop_at_the_limit_of_three() {
    let mut ledger = Ledger::new();
    ledger.insert(token("t"), record("t.zip", NOW, 3)).unwrap();
    let mut granted = 0;
    let mut refused = 0;
    for i in 0..8 {
        match ledger.mark_downloaded_at(&token("t"), NOW + i) {
            Ok(_) => granted += 1,
            Err(_) => refused += 1,
        }
        if i == 2 {
            let rows = ledger.list();
            assert_eq!(rows[0].1.downloads(), 3);
        }
    }
    assert_eq!(granted, 3);
    assert_eq!(refused, 5);
    assert_eq!(ledger.len(), 0);
}

#[test]
fn counts_never_pass_the_limit() {
    let mut ledger = Ledger::new();
    ledger.insert(token("a"), record("a.zip", NOW, 2)).unwrap();
    ledger.insert(token("b"), record("b.zip", NOW, 0)).unwrap();
    for _ in 0..4 {
        let _ = ledger.mark_downloaded_at(&token("a"), NOW);
        let _ = ledger.mark_downloaded_at(&token("b"), NOW);
        for (_, r) in ledger.list() {
            assert!(r.downloads() <= r.max_downloads());
        }
    }
}

#[test]
fn sweep_removes_only_ineligible() {
    let mut ledger = Ledger::new();
    ledger.insert(token("live"), record("live.zip", NOW, 5)).unwrap();
    ledger.insert(token("stale"), record("stale.zip", NOW - 4 * DAY, 5)).unwrap();
    ledger.insert(token("used"), record("used.zip", NOW, 1)).unwrap();
    ledger.mark_downloaded_at(&token("used"), NOW).unwrap();
    let mut evicted: Vec<String> = ledger.sweep_at(NOW).into_iter().map(|(t, _)| t).collect();
    evicted.sort();
    assert_eq!(evicted, vec!["stale".to_string(), "used".to_string()]);
    assert_eq!(ledger.len(), 1);
    assert!(ledger.contains(&token("live")));
    assert!(ledger.sweep_at(NOW).is_empty());
}

#[test]
fn expired_stays_unreachable_on_every_path() {
    let mut ledger = Ledger::new();
    ledger.insert(token("s"), record("s.zip", NOW - 4 * DAY, 5)).unwrap();
    let swept = ledger.sweep_at(NOW);
    assert_eq!(swept.len(), 1);
    assert!(ledger.get_at(&token("s"), NOW + DAY).is_err());
    assert!(ledger.mark_downloaded_at(&token("s"), NOW + DAY).is_err());
    assert!(ledger.remove(&token("s")).is_err());
}

#[test]
fn ttl_boundary() {
    let mut ledger = Ledger::new();
    ledger.insert(token("b"), record("b.zip", 0, 5)).unwrap();
    assert!(ledger.get_at(&token("b"), TTL_MILLIS - 1).is_ok());
    assert!(ledger.get_at(&token("b"), TTL_MILLIS).is_err());
    assert_eq!(ledger.len(), 0);
}

#[test]
fn register_draws_an_alphanumeric_token() {
    let mut ledger = Ledger::new();
    let t = ledger.register(record("r.zip", NOW, DEFAULT_MAX_DOWNLOADS)).unwrap();
    assert_eq!(t.len(), TOKEN_LEN);
    assert!(t.chars().all(|c| c.is_ascii_alphanumeric()));
    assert!(ledger.contains(&t));
    let t2 = ledger.register(record("s.zip", NOW, DEFAULT_MAX_DOWNLOADS)).unwrap();
    assert_ne!(t, t2);
    assert_eq!(ledger.len(), 2);
}

#[test]
fn list_copies_every_record() {
    let mut ledger = Ledger::new();
    ledger.insert(token("a"), record("a.zip", NOW, 5)).unwrap();
    ledger.insert(token("b"), record("b.zip", NOW - DAY, 7)).unwrap();
    let mut rows: Vec<(String, String, u8)> = ledger
        .list()
        .into_iter()
        .map(|(t, r)| (t, r.file().clone(), r.max_downloads()))
        .collect();
    rows.sort();
    assert_eq!(
        rows,
        vec![
            ("a".to_string(), "a.zip".to_string(), 5),
            ("b".to_string(), "b.zip".to_string(), 7)
        ]
    );
}

#[test]
fn clock_versions_follow_the_system_time() {
    let mut ledger = Ledger::new();
    ledger.insert(token("fresh"), UploadRecord::new("fresh.zip".to_string())).unwrap();
    ledger.insert(token("stale"), record("stale.zip", 0, 5)).unwrap();
    assert_eq!(ledger.mark_downloaded(&token("fresh")).unwrap(), 4);
    assert!(ledger.get(&token("fresh")).is_ok());
    assert!(ledger.get(&token("stale")).is_err());
    assert!(ledger.sweep().is_empty());
    assert_eq!(ledger.len(), 1);
}
