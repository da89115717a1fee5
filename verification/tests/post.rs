use wormhole_bridge::post::{post_message, ErrorCode, Finality};

#[test]
fn post_rejects_an_empty_message() {
    for level in [0u8, 1, 2, 32, 255] {
        match post_message(vec![], 7, level) {
            Err(e) => assert_eq!(e, ErrorCode::EmptyMessage),
            Ok(request) => panic!("accepted an empty message: {:?}", request),
        }
    }
}

#[test]
fn post_hands_the_message_on() {
    let request = post_message(vec![1, 2, 3], 42, 0).unwrap();
    assert_eq!(request.nonce, 42);
    assert_eq!(request.payload, vec![1, 2, 3]);
    assert_eq!(request.finality, Finality::Confirmed);

    let request = post_message(vec![0], u32::MAX, 1).unwrap();
    assert_eq!(request.nonce, u32::MAX);
    assert_eq!(request.payload, vec![0]);
    assert_eq!(request.finality, Finality::Finalized);
}

#[test]
fn finality_of_each_level() {
    assert_eq!(Finality::from_level(0), Some(Finality::Confirmed));
    assert_eq!(Finality::from_level(1), Some(Finality::Finalized));
    for level in 2..=255u8 {
        assert_eq!(Finality::from_level(level), None);
    }
}
