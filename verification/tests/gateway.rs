use wormhole_bridge::codec::{encode_message, CrossChainMessage};
use wormhole_bridge::error::BridgeError;
use wormhole_bridge::gateway::{Main, PUBLISH_METHOD};
use wormhole_bridge::registry::EmitterRegistry;
use wormhole_bridge::replay::ReplayGuard;

const OWNER: &str = "owner.near";
const FEE: u128 = 10_000_000_000_000_000_000_000;
const TRANSPORT: &str = "wormhole.near";

/// SHA-256 of `[1, 2, 0, b'h', b'i']`.
const DIGEST_OF_HI: [u8; 32] = [
    171, 240, 163, 156, 230, 132, 32, 82, 80, 21, 121, 28, 241, 20, 33, 187, 84, 250, 127, 60, 148,
    35, 255, 33, 151, 121, 240, 51, 45, 226, 238, 20,
];

/// SHA-256 of `[1, 5, 0, b'h', b'e', b'l', b'l', b'o']`.
const DIGEST_OF_HELLO: [u8; 32] = [
    204, 207, 215, 165, 74, 111, 230, 235, 152, 131, 33, 172, 234, 23, 180, 62, 120, 36, 155, 72,
    201, 252, 98, 23, 91, 9, 200, 28, 52, 33, 234, 83,
];

fn bridge() -> Main {
    Main::new(false, OWNER.to_string(), TRANSPORT.to_string(), 1, 1).unwrap()
}

fn bridge_with_emitter() -> Main {
    let mut bridge = bridge();
    assert_eq!(bridge.register_emitter(OWNER, 2, vec![0xAA; 20]), Ok(()));
    bridge
}

fn hi() -> Vec<u8> {
    vec![1, 2, 0, b'h', b'i']
}

/// Receives as a host does: with the SHA-256 digest of the bytes as their
/// fingerprint.
fn receive(bridge: &mut Main, encoded: Vec<u8>, chain: u16, address: &[u8]) -> Result<(), BridgeError> {
    let fingerprint = near_sdk::env::sha256(&encoded);
    bridge.receive_message(fingerprint, &encoded, chain, address)
}

fn failure<T>(outcome: Result<T, BridgeError>) -> BridgeError {
    match outcome {
        Ok(_) => panic!("the call was accepted"),
        Err(e) => e,
    }
}

#[test]
fn new_keeps_the_configuration() {
    let bridge = Main::new(false, OWNER.to_string(), TRANSPORT.to_string(), 4, 15).unwrap();
    assert_eq!(bridge.owner(), OWNER);
    assert_eq!(bridge.wormhole(), TRANSPORT);
    assert_eq!(bridge.chain_id(), 4);
    assert_eq!(bridge.wormhole_finality(), 15);
    assert_eq!(bridge.get_number_of_received_messages(), 0);
    assert!(bridge.emitters().chains().is_empty());
    assert_eq!(bridge.emitters().local_chain_id(), 4);
    assert_eq!(bridge.processed().count(), 0);
}

#[test]
fn new_rejects_a_second_configuration() {
    let again = Main::new(true, OWNER.to_string(), TRANSPORT.to_string(), 1, 1);
    assert_eq!(failure(again), BridgeError::AlreadyInitialized);
    // The check comes before the checks of the arguments.
    let again = Main::new(true, OWNER.to_string(), TRANSPORT.to_string(), 0, 0);
    assert_eq!(failure(again), BridgeError::AlreadyInitialized);
}

#[test]
fn new_rejects_chain_zero() {
    let created = Main::new(false, OWNER.to_string(), TRANSPORT.to_string(), 0, 1);
    assert_eq!(failure(created), BridgeError::InvalidConfig);
}

#[test]
fn new_rejects_finality_zero() {
    let created = Main::new(false, OWNER.to_string(), TRANSPORT.to_string(), 1, 0);
    assert_eq!(failure(created), BridgeError::InvalidConfig);
}

#[test]
fn send_with_the_exact_fee() {
    let bridge = bridge();
    let dispatch = bridge.send_message(FEE, FEE, 300_000_000_000_000, "hello".to_string());
    let dispatch = dispatch.unwrap();
    assert_eq!(dispatch.receiver, TRANSPORT);
    assert_eq!(dispatch.method, "publish_message");
    assert_eq!(dispatch.method, PUBLISH_METHOD);
    assert_eq!(dispatch.arguments, vec![1, 5, 0, b'h', b'e', b'l', b'l', b'o']);
    assert_eq!(dispatch.deposit, FEE);
    assert_eq!(dispatch.gas, 150_000_000_000_000);
}

#[test]
fn send_follows_the_fee_that_is_asked() {
    let bridge = bridge();
    for fee in [0u128, 1, 7, FEE, u128::MAX] {
        assert_eq!(bridge.send_message(fee, fee, 10, "hello".to_string()).unwrap().deposit, fee);
        if fee < u128::MAX {
            assert_eq!(
                failure(bridge.send_message(fee, fee + 1, 10, "hello".to_string())),
                BridgeError::InsufficientDeposit
            );
        }
        if fee > 0 {
            assert_eq!(
                failure(bridge.send_message(fee, fee - 1, 10, "hello".to_string())),
                BridgeError::InsufficientDeposit
            );
        }
    }
    // What was the fee yesterday is not the fee today.
    assert_eq!(
        failure(bridge.send_message(FEE + 5, FEE, 10, "hello".to_string())),
        BridgeError::InsufficientDeposit
    );
}

#[test]
fn send_takes_the_longest_body() {
    let body = "z".repeat(65535);
    let dispatch = bridge().send_message(FEE, FEE, 10, body.clone()).unwrap();
    assert_eq!(dispatch.arguments.len(), 65538);
    assert_eq!(&dispatch.arguments[..3], &[1, 0xFF, 0xFF]);
    assert_eq!(&dispatch.arguments[3..], body.as_bytes());
}

#[test]
fn send_rejects_one_unit_more() {
    let sent = bridge().send_message(FEE, FEE + 1, 10, "hello".to_string());
    assert_eq!(failure(sent), BridgeError::InsufficientDeposit);
}

#[test]
fn send_rejects_one_unit_less() {
    let sent = bridge().send_message(FEE, FEE - 1, 10, "hello".to_string());
    assert_eq!(failure(sent), BridgeError::InsufficientDeposit);
}

#[test]
fn send_rejects_no_deposit_and_the_largest() {
    assert_eq!(
        failure(bridge().send_message(FEE, 0, 10, "hello".to_string())),
        BridgeError::InsufficientDeposit
    );
    assert_eq!(
        failure(bridge().send_message(FEE, u128::MAX, 10, "hello".to_string())),
        BridgeError::InsufficientDeposit
    );
}

#[test]
fn send_halves_the_gas_rounding_down() {
    let bridge = bridge();
    assert_eq!(bridge.send_message(FEE, FEE, 0, String::new()).unwrap().gas, 0);
    assert_eq!(bridge.send_message(FEE, FEE, 1, String::new()).unwrap().gas, 0);
    assert_eq!(bridge.send_message(FEE, FEE, 7, String::new()).unwrap().gas, 3);
    assert_eq!(
        bridge.send_message(FEE, FEE, u64::MAX, String::new()).unwrap().gas,
        u64::MAX / 2
    );
}

#[test]
fn send_encodes_as_the_codec_does() {
    let body = "gr\u{fc}\u{df}e \u{1f30d}";
    let dispatch = bridge().send_message(FEE, FEE, 2, body.to_string()).unwrap();
    let encoded = encode_message(&CrossChainMessage { payload_id: 1, message: body.to_string() });
    assert_eq!(dispatch.arguments, encoded);
}

#[test]
fn send_changes_nothing() {
    let bridge = bridge_with_emitter();
    let _ = bridge.send_message(FEE, FEE, 2, "hello".to_string()).unwrap();
    assert_eq!(bridge.get_number_of_received_messages(), 0);
    assert_eq!(bridge.emitters().lookup(2), Some(&vec![0xAA; 20]));
}

#[test]
fn register_emitter_by_the_owner() {
    let bridge = bridge_with_emitter();
    assert_eq!(bridge.emitters().lookup(2), Some(&vec![0xAA; 20]));
    assert_eq!(bridge.emitters().chains(), vec![2]);
}

#[test]
fn register_emitter_rejects_chain_zero() {
    let mut bridge = bridge();
    assert_eq!(bridge.register_emitter(OWNER, 0, vec![0xAA; 20]), Err(BridgeError::InvalidEmitter));
    assert!(bridge.emitters().chains().is_empty());
}

#[test]
fn register_emitter_rejects_the_local_chain() {
    let mut bridge = bridge();
    assert_eq!(bridge.register_emitter(OWNER, 1, vec![0xAA; 20]), Err(BridgeError::InvalidEmitter));
    assert!(bridge.emitters().chains().is_empty());
}

#[test]
fn register_emitter_rejects_an_empty_address() {
    let mut bridge = bridge();
    assert_eq!(bridge.register_emitter(OWNER, 5, vec![]), Err(BridgeError::InvalidEmitter));
    assert!(bridge.emitters().lookup(5).is_none());
}

#[test]
fn register_emitter_rejects_a_stranger() {
    let mut bridge = bridge();
    // Whether the arguments are valid or not.
    for (chain, address) in [(2u16, vec![0xAA; 20]), (0, vec![0xAA; 20]), (1, vec![1]), (5, vec![])] {
        assert_eq!(
            bridge.register_emitter("mallory.near", chain, address),
            Err(BridgeError::Unauthorized)
        );
    }
    assert_eq!(bridge.register_emitter("", 2, vec![1]), Err(BridgeError::Unauthorized));
    assert_eq!(bridge.register_emitter("owner.nea", 2, vec![1]), Err(BridgeError::Unauthorized));
    assert_eq!(bridge.register_emitter("owner.near2", 2, vec![1]), Err(BridgeError::Unauthorized));
    assert_eq!(bridge.register_emitter("Owner.near", 2, vec![1]), Err(BridgeError::Unauthorized));
    assert!(bridge.emitters().chains().is_empty());
}

#[test]
fn register_emitter_overwrites() {
    let mut bridge = bridge_with_emitter();
    assert_eq!(bridge.register_emitter(OWNER, 2, vec![0xBB; 32]), Ok(()));
    assert_eq!(bridge.emitters().lookup(2), Some(&vec![0xBB; 32]));
    assert_eq!(bridge.emitters().chains(), vec![2]);
    // The old emitter is trusted no longer.
    assert_eq!(receive(&mut bridge, hi(), 2, &[0xAA; 20]), Err(BridgeError::UnknownEmitter));
    assert_eq!(receive(&mut bridge, hi(), 2, &[0xBB; 32]), Ok(()));
}

#[test]
fn assert_owner_tells_the_owner() {
    let bridge = bridge();
    assert_eq!(bridge.assert_owner(OWNER), Ok(()));
    assert_eq!(bridge.assert_owner("mallory.near"), Err(BridgeError::Unauthorized));
    assert_eq!(bridge.assert_owner(TRANSPORT), Err(BridgeError::Unauthorized));
}

#[test]
fn receive_records_the_message() {
    let mut bridge = bridge_with_emitter();
    assert_eq!(receive(&mut bridge, hi(), 2, &[0xAA; 20]), Ok(()));
    assert_eq!(bridge.get_number_of_received_messages(), 1);
    let entry = bridge.processed().entry(0).unwrap();
    assert_eq!(entry.body, "hi");
    assert_eq!(bridge.processed().body_of(&DIGEST_OF_HI), Some(&"hi".to_string()));
}

#[test]
fn receive_records_under_the_host_fingerprint() {
    let mut bridge = bridge_with_emitter();
    assert_eq!(receive(&mut bridge, hi(), 2, &[0xAA; 20]), Ok(()));
    assert_eq!(
        receive(&mut bridge, vec![1, 5, 0, b'h', b'e', b'l', b'l', b'o'], 2, &[0xAA; 20]),
        Ok(())
    );
    assert_eq!(bridge.processed().entry(0).unwrap().fingerprint, DIGEST_OF_HI.to_vec());
    assert_eq!(bridge.processed().entry(1).unwrap().fingerprint, DIGEST_OF_HELLO.to_vec());
    assert!(bridge.processed().has_seen(&DIGEST_OF_HI));
    assert!(bridge.processed().has_seen(&DIGEST_OF_HELLO));
    assert!(!bridge.processed().has_seen(&hi()));
}

#[test]
fn receive_twice_is_accepted_once() {
    let mut bridge = bridge_with_emitter();
    assert_eq!(receive(&mut bridge, hi(), 2, &[0xAA; 20]), Ok(()));
    assert_eq!(bridge.get_number_of_received_messages(), 1);
    assert_eq!(receive(&mut bridge, hi(), 2, &[0xAA; 20]), Err(BridgeError::AlreadyProcessed));
    assert_eq!(bridge.get_number_of_received_messages(), 1);
    assert_eq!(receive(&mut bridge, hi(), 2, &[0xAA; 20]), Err(BridgeError::AlreadyProcessed));
    assert_eq!(bridge.get_number_of_received_messages(), 1);
}

#[test]
fn receive_again_is_a_replay_whoever_sends() {
    let mut bridge = bridge_with_emitter();
    assert_eq!(receive(&mut bridge, hi(), 2, &[0xAA; 20]), Ok(()));
    assert_eq!(receive(&mut bridge, hi(), 9, &[1]), Err(BridgeError::AlreadyProcessed));
}

#[test]
fn receive_rejects_two_bytes() {
    let mut bridge = bridge_with_emitter();
    assert_eq!(receive(&mut bridge, vec![1, 0], 2, &[0xAA; 20]), Err(BridgeError::MalformedMessage));
    assert_eq!(bridge.get_number_of_received_messages(), 0);
}

#[test]
fn receive_rejects_a_trailing_byte() {
    let mut bridge = bridge_with_emitter();
    assert_eq!(
        receive(&mut bridge, vec![1, 0, 0, 0xFF], 2, &[0xAA; 20]),
        Err(BridgeError::MalformedMessage)
    );
    assert_eq!(bridge.get_number_of_received_messages(), 0);
}

#[test]
fn receive_rejects_an_unknown_kind() {
    let mut bridge = bridge_with_emitter();
    assert_eq!(
        receive(&mut bridge, vec![2, 0, 0], 2, &[0xAA; 20]),
        Err(BridgeError::MalformedMessage)
    );
    assert_eq!(bridge.get_number_of_received_messages(), 0);
}

#[test]
fn receive_rejects_invalid_utf8() {
    let mut bridge = bridge_with_emitter();
    assert_eq!(
        receive(&mut bridge, vec![1, 2, 0, 0xC3, 0x28], 2, &[0xAA; 20]),
        Err(BridgeError::MalformedMessage)
    );
}

#[test]
fn receive_checks_the_format_before_the_emitter() {
    let mut bridge = bridge();
    assert_eq!(receive(&mut bridge, vec![1, 0], 2, &[0xAA; 20]), Err(BridgeError::MalformedMessage));
}

#[test]
fn receive_rejects_an_unregistered_chain() {
    let mut bridge = bridge_with_emitter();
    assert_eq!(receive(&mut bridge, hi(), 3, &[0xAA; 20]), Err(BridgeError::UnknownEmitter));
    assert_eq!(bridge.get_number_of_received_messages(), 0);
    // A rejected message can be received later from the trusted emitter.
    assert_eq!(receive(&mut bridge, hi(), 2, &[0xAA; 20]), Ok(()));
}

#[test]
fn receive_rejects_another_address() {
    let mut bridge = bridge_with_emitter();
    assert_eq!(receive(&mut bridge, hi(), 2, &[0xAB; 20]), Err(BridgeError::UnknownEmitter));
    assert_eq!(receive(&mut bridge, hi(), 2, &[0xAA; 21]), Err(BridgeError::UnknownEmitter));
    assert_eq!(receive(&mut bridge, hi(), 2, &[]), Err(BridgeError::UnknownEmitter));
    assert_eq!(bridge.get_number_of_received_messages(), 0);
}

#[test]
fn receive_takes_the_fingerprint_as_given() {
    let mut bridge = bridge_with_emitter();
    assert_eq!(bridge.receive_message(vec![9, 9], &hi(), 2, &[0xAA; 20]), Ok(()));
    assert!(bridge.processed().has_seen(&[9, 9]));
    assert!(!bridge.processed().has_seen(&DIGEST_OF_HI));
    assert_eq!(bridge.processed().body_of(&[9, 9]), Some(&"hi".to_string()));
    // Another message under the same fingerprint is a replay.
    assert_eq!(
        bridge.receive_message(vec![9, 9], &[1, 0, 0], 2, &[0xAA; 20]),
        Err(BridgeError::AlreadyProcessed)
    );
    // The replay check comes first, then the format, then the emitter.
    assert_eq!(
        bridge.receive_message(vec![9, 9], &[7], 3, &[]),
        Err(BridgeError::AlreadyProcessed)
    );
    assert_eq!(
        bridge.receive_message(vec![8], &[7], 3, &[]),
        Err(BridgeError::MalformedMessage)
    );
    assert_eq!(
        bridge.receive_message(vec![8], &hi(), 3, &[]),
        Err(BridgeError::UnknownEmitter)
    );
    assert_eq!(bridge.get_number_of_received_messages(), 1);
}

#[test]
fn scenario_send_and_receive() {
    let mut bridge = Main::new(false, OWNER.to_string(), "T".to_string(), 1, 1).unwrap();
    assert_eq!(bridge.register_emitter(OWNER, 2, vec![0xAA; 20]), Ok(()));

    let fee = FEE;
    let dispatch = bridge.send_message(fee, fee, 100, "hello".to_string()).unwrap();
    assert_eq!(dispatch.receiver, "T");
    assert_eq!(dispatch.arguments, vec![1, 5, 0, b'h', b'e', b'l', b'l', b'o']);
    assert_eq!(dispatch.deposit, fee);
    assert_eq!(dispatch.gas, 50);

    let encoded = encode_message(&CrossChainMessage { payload_id: 1, message: "hi".to_string() });
    assert_eq!(receive(&mut bridge, encoded.clone(), 2, &[0xAA; 20]), Ok(()));
    assert_eq!(bridge.get_number_of_received_messages(), 1);
    assert_eq!(
        receive(&mut bridge, encoded, 2, &[0xAA; 20]),
        Err(BridgeError::AlreadyProcessed)
    );
    assert_eq!(bridge.get_number_of_received_messages(), 1);
}

#[test]
fn restore_puts_the_parts_together() {
    let mut emitters = EmitterRegistry::new(3);
    assert_eq!(emitters.register(2, vec![0xAA; 20]), Ok(()));
    let mut received = ReplayGuard::new();
    assert_eq!(received.record(DIGEST_OF_HI.to_vec(), "hi".to_string()), Ok(()));
    let mut bridge =
        Main::restore(OWNER.to_string(), TRANSPORT.to_string(), 5, emitters, received).unwrap();
    assert_eq!(bridge.owner(), OWNER);
    assert_eq!(bridge.wormhole(), TRANSPORT);
    assert_eq!(bridge.chain_id(), 3);
    assert_eq!(bridge.wormhole_finality(), 5);
    assert_eq!(bridge.get_number_of_received_messages(), 1);
    assert_eq!(bridge.emitters().lookup(2), Some(&vec![0xAA; 20]));
    assert_eq!(receive(&mut bridge, hi(), 2, &[0xAA; 20]), Err(BridgeError::AlreadyProcessed));
}

#[test]
fn restore_rejects_a_zero_configuration() {
    let restored = Main::restore(
        OWNER.to_string(),
        TRANSPORT.to_string(),
        0,
        EmitterRegistry::new(3),
        ReplayGuard::new(),
    );
    assert_eq!(failure(restored), BridgeError::InvalidConfig);
    let restored = Main::restore(
        OWNER.to_string(),
        TRANSPORT.to_string(),
        5,
        EmitterRegistry::new(0),
        ReplayGuard::new(),
    );
    assert_eq!(failure(restored), BridgeError::InvalidConfig);
}
