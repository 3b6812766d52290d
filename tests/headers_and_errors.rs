use nyazoom::error::io_other;
use nyazoom::ForwardedFor;

#[test]
fn forwarded_for_takes_visible_ascii() {
    let f = ForwardedFor::decode(Some(b"203.0.113.7, 10.0.0.1")).unwrap();
    assert_eq!(f.value(), "203.0.113.7, 10.0.0.1");
    let tab = ForwardedFor::decode(Some(b"a\tb")).unwrap();
    assert_eq!(tab.value(), "a\tb");
}

#[test]
fn forwarded_for_refuses_missing_or_binary() {
    assert!(ForwardedFor::decode(None).is_none());
    assert!(ForwardedFor::decode(Some(b"bad\x01")).is_none());
    assert!(ForwardedFor::decode(Some(&[0xC3, 0xA9])).is_none());
    assert!(ForwardedFor::decode(Some(b"\x7f")).is_none());
    assert_eq!(ForwardedFor::decode(Some(b"")).unwrap().value(), "");
}

#[test]
fn io_other_is_of_kind_other() {
    let e = io_other("snapshot failed");
    assert_eq!(e.kind(), std::io::ErrorKind::Other);
    assert_eq!(e.to_string(), "snapshot failed");
}
