use nyazoom::record::{DEFAULT_MAX_DOWNLOADS, TTL_MILLIS};
use nyazoom::UploadRecord;

#[test]
fn new_record_uses_the_clock_and_defaults() {
    let before = chrono::Utc::now().timestamp_millis();
    let r = UploadRecord::new("a.zip".to_string());
    let after = chrono::Utc::now().timestamp_millis();
    assert!(before <= r.uploaded() && r.uploaded() <= after);
    assert_eq!(r.file(), "a.zip");
    assert_eq!(r.downloads(), 0);
    assert_eq!(r.max_downloads(), 5);
    assert!(r.can_be_downloaded());
}

#[test]
fn default_record() {
    let r = UploadRecord::default();
    assert_eq!(r.file(), "");
    assert_eq!(r.downloads(), 0);
    assert_eq!(r.max_downloads(), DEFAULT_MAX_DOWNLOADS);
    assert_eq!(r.downloads_remaining(), 5);
}

#[test]
fn eligibility_by_age_and_count() {
    let r = UploadRecord::created("f".to_string(), 1000, 2);
    assert!(r.can_be_downloaded_at(1000));
    assert!(r.can_be_downloaded_at(1000 + TTL_MILLIS - 1));
    assert!(!r.can_be_downloaded_at(1000 + TTL_MILLIS));
    let used = UploadRecord::restored("f".to_string(), 1000, 2, 2);
    assert!(!used.can_be_downloaded_at(1000));
    assert_eq!(used.downloads_remaining(), 0);
}

#[test]
fn four_days_old_is_not_eligible() {
    let now = 1_700_000_000_000i64;
    let r = UploadRecord::created("f".to_string(), now - 4 * 24 * 60 * 60 * 1000, 5);
    assert!(!r.can_be_downloaded_at(now));
    assert!(!r.can_be_downloaded());
}

#[test]
fn extreme_times_do_not_overflow() {
    let r = UploadRecord::created("f".to_string(), i64::MIN, 5);
    assert!(!r.can_be_downloaded_at(i64::MAX));
    let s = UploadRecord::created("f".to_string(), i64::MAX, 5);
    assert!(s.can_be_downloaded_at(i64::MIN));
}

#[test]
fn one_more_download() {
    let r = UploadRecord::restored("f".to_string(), 7, 3, 5);
    let n = r.with_download().unwrap();
    assert_eq!(n.downloads(), 4);
    assert_eq!(n.downloads_remaining(), 1);
    assert_eq!(n.uploaded(), 7);
    let full = UploadRecord::restored("f".to_string(), 7, 5, 5);
    assert!(full.with_download().is_none());
    assert_eq!(full.duplicate().downloads(), 5);
}
