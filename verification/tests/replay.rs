use wormhole_bridge::error::BridgeError;
use wormhole_bridge::replay::ReplayGuard;

#[test]
fn new_guard_has_seen_nothing() {
    let guard = ReplayGuard::new();
    assert_eq!(guard.count(), 0);
    assert!(!guard.has_seen(&[1, 2, 3]));
    assert!(!guard.has_seen(&[]));
    assert!(guard.body_of(&[1, 2, 3]).is_none());
    assert!(guard.entry(0).is_none());
}

#[test]
fn record_then_has_seen() {
    let mut guard = ReplayGuard::new();
    assert_eq!(guard.record(vec![1, 2, 3], "first".to_string()), Ok(()));
    assert!(guard.has_seen(&[1, 2, 3]));
    assert!(!guard.has_seen(&[1, 2]));
    assert!(!guard.has_seen(&[1, 2, 4]));
    assert_eq!(guard.count(), 1);
    assert_eq!(guard.body_of(&[1, 2, 3]), Some(&"first".to_string()));
}

#[test]
fn record_rejects_a_seen_fingerprint() {
    let mut guard = ReplayGuard::new();
    assert_eq!(guard.record(vec![7; 32], "first".to_string()), Ok(()));
    assert_eq!(
        guard.record(vec![7; 32], "second".to_string()),
        Err(BridgeError::AlreadyProcessed)
    );
    assert_eq!(guard.count(), 1);
    assert_eq!(guard.body_of(&[7; 32]), Some(&"first".to_string()));
    assert!(guard.entry(1).is_none());
}

#[test]
fn record_keeps_the_order() {
    let mut guard = ReplayGuard::new();
    assert_eq!(guard.record(vec![3], "c".to_string()), Ok(()));
    assert_eq!(guard.record(vec![1], "a".to_string()), Ok(()));
    assert_eq!(guard.record(vec![2], "b".to_string()), Ok(()));
    assert_eq!(guard.count(), 3);
    let first = guard.entry(0).unwrap();
    assert_eq!((first.fingerprint.as_slice(), first.body.as_str()), (&[3u8][..], "c"));
    let second = guard.entry(1).unwrap();
    assert_eq!((second.fingerprint.as_slice(), second.body.as_str()), (&[1u8][..], "a"));
    let third = guard.entry(2).unwrap();
    assert_eq!((third.fingerprint.as_slice(), third.body.as_str()), (&[2u8][..], "b"));
    assert!(guard.entry(3).is_none());
    assert!(guard.entry(u64::MAX).is_none());
}

#[test]
fn count_never_goes_down() {
    let mut guard = ReplayGuard::new();
    let mut last = guard.count();
    for round in 0..3u8 {
        for fingerprint in 0..5u8 {
            let _ = guard.record(vec![fingerprint], format!("{}-{}", round, fingerprint));
            assert!(guard.count() >= last);
            last = guard.count();
        }
    }
    assert_eq!(guard.count(), 5);
    for fingerprint in 0..5u8 {
        assert_eq!(guard.body_of(&[fingerprint]), Some(&format!("0-{}", fingerprint)));
    }
}

#[test]
fn same_text_under_two_fingerprints() {
    let mut guard = ReplayGuard::new();
    assert_eq!(guard.record(vec![1], "same".to_string()), Ok(()));
    assert_eq!(guard.record(vec![2], "same".to_string()), Ok(()));
    assert_eq!(guard.count(), 2);
}

#[test]
fn empty_fingerprint_is_a_fingerprint() {
    let mut guard = ReplayGuard::new();
    assert_eq!(guard.record(vec![], "x".to_string()), Ok(()));
    assert!(guard.has_seen(&[]));
    assert_eq!(guard.record(vec![], "y".to_string()), Err(BridgeError::AlreadyProcessed));
}
