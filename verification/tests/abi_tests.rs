use plasma_chamber::error::ErrorKind;
use plasma_chamber::predicate::OwnershipPredicate;
use plasma_chamber::primitives::{Address, H256};
use plasma_chamber::state_db::VerifiedStateUpdate;
use plasma_chamber::state_object::StateObject;
use plasma_chamber::state_update::StateUpdate;
use plasma_chamber::transaction::{Transaction, Witness};

#[test]
fn test_abi_encode() {
    let parameters_bytes = Vec::from(&b"parameters"[..]);
    let state_object = StateObject::new(Address::zero(), &parameters_bytes);
    let encoded = state_object.to_abi();
    let decoded: StateObject = StateObject::from_abi(&encoded).unwrap();
    assert!(decoded.get_predicate().equals(state_object.get_predicate()));
}

#[test]
fn state_update_test_abi_encode() {
    let parameters_bytes = Vec::from(&b"parameters"[..]);
    let state_object = StateObject::new(Address::zero(), &parameters_bytes);

    let state_update = StateUpdate::new(&state_object, 0, 100, 1, Address::zero());
    let encoded = state_update.to_abi();
    let decoded: StateUpdate = StateUpdate::from_abi(&encoded).unwrap();
    assert_eq!(decoded.get_start(), state_update.get_start());
}

#[test]
fn transaction_test_abi_encode() {
    let parameters_bytes = Vec::from(&b"parameters"[..]);
    let transaction = Transaction::new(
        Address::zero(),
        0,
        100,
        Transaction::create_method_id(&b"send(address)"[..]),
        &parameters_bytes,
        &Witness::new(H256::zero(), H256::zero(), 0),
    );
    let encoded = transaction.to_abi();
    let decoded: Transaction = Transaction::from_abi(&encoded).unwrap();
    assert_eq!(decoded.get_start(), transaction.get_start());
}

// The full transaction encoding carries every field through a round trip.
#[test]
fn transaction_round_trip_all_fields() {
    let addr = Address::from_slice(&[7u8; 20]);
    let v = H256::from_slice(&[1u8; 32]);
    let r = H256::from_slice(&[2u8; 32]);
    let tx = Transaction::new(addr, 10, 90, 0xab, b"payload", &Witness::new(v, r, 5));
    let decoded = Transaction::from_abi(&tx.to_abi()).unwrap();
    assert_eq!(decoded.get_start(), 10);
    assert_eq!(decoded.get_end(), 90);
    assert_eq!(decoded.get_parameters(), b"payload");
    assert!(decoded
        .get_plasma_contract_address()
        .equals(&Address::from_slice(&[7u8; 20])));
}

// A verified state update survives its encoding round trip.
#[test]
fn verified_state_update_round_trip() {
    let so = StateObject::new(Address::from_slice(&[3u8; 20]), b"owner data");
    let su = StateUpdate::new(&so, 5, 55, 9, Address::zero());
    let vsu = VerifiedStateUpdate::new(5, 55, 12, &su);
    let decoded = VerifiedStateUpdate::from_abi(&vsu.to_abi()).unwrap();
    assert_eq!(decoded.get_start(), 5);
    assert_eq!(decoded.get_end(), 55);
    assert_eq!(decoded.get_state_update().get_block_number(), 9);
    assert!(decoded
        .get_state_update()
        .get_state_object()
        .get_predicate()
        .equals(&Address::from_slice(&[3u8; 20])));
}

// Ownership parameters round trip through make and parse.
#[test]
fn ownership_parameters_round_trip() {
    let predicate = Address::from_slice(&[9u8; 20]);
    let owner = Address::from_slice(&[4u8; 20]);
    let params = OwnershipPredicate::make_parameters(predicate, owner, 7, 11);
    let (so, origin_block) = OwnershipPredicate::parse_parameters(&params).unwrap();
    assert_eq!(origin_block, 7);
    assert!(so.get_predicate().equals(&Address::from_slice(&[9u8; 20])));
}

// Malformed bytes are refused with a decode error, not accepted.
#[test]
fn malformed_encodings_are_refused() {
    assert_eq!(
        StateObject::from_abi(b"short").err().unwrap().kind(),
        ErrorKind::AbiDecode
    );
    assert_eq!(
        StateUpdate::from_abi(&[0u8; 64]).err().unwrap().kind(),
        ErrorKind::AbiDecode
    );
    assert_eq!(
        Transaction::from_abi(&[0u8; 100]).err().unwrap().kind(),
        ErrorKind::AbiDecode
    );
    assert_eq!(
        VerifiedStateUpdate::from_abi(&[1u8; 200]).err().unwrap().kind(),
        ErrorKind::AbiDecode
    );
    assert!(OwnershipPredicate::parse_parameters(b"new state update").is_none());
}

// A flipped byte inside an otherwise canonical encoding is refused.
#[test]
fn corrupted_offset_word_is_refused() {
    let so = StateObject::new(Address::zero(), b"data");
    let mut encoded = so.to_abi();
    encoded[63] ^= 0x01;
    assert!(StateObject::from_abi(&encoded).is_err());
}

// The method id is the first byte of the SHA3-256 digest of the signature.
#[test]
fn method_id_from_signature() {
    let mut hasher = tiny_keccak::Keccak::new_sha3_256();
    hasher.update(b"send(address)");
    let mut expected = [0u8; 32];
    hasher.finalize(&mut expected);
    assert_eq!(Transaction::create_method_id(b"send(address)"), expected[0]);
}
