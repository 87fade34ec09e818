use plasma_chamber::error::ErrorKind;
use plasma_chamber::predicate::OwnershipPredicate;
use plasma_chamber::primitives::{Address, H256};
use plasma_chamber::range::Range;
use plasma_chamber::state_db::{StateDb, VerifiedStateUpdate};
use plasma_chamber::state_manager::StateManager;
use plasma_chamber::state_object::StateObject;
use plasma_chamber::state_processor::StateProcessor;
use plasma_chamber::state_update::StateUpdate;
use plasma_chamber::transaction::{Transaction, Witness};

fn create_state_update(start: u64, end: u64, block_number: u64) -> StateUpdate {
    StateUpdate::new(
        &StateObject::new(Address::zero(), &b"data"[..]),
        start,
        end,
        block_number,
        Address::zero(),
    )
}

// Parameters the ownership predicate accepts: the successor state object
// and a block window admitting the deposited states.
fn ownership_parameters() -> Vec<u8> {
    OwnershipPredicate::make_parameters(Address::zero(), Address::from_slice(&[8u8; 20]), 10, 20)
}

fn create_transaction(start: u64, end: u64) -> Transaction {
    Transaction::new(
        Address::zero(),
        start,
        end,
        Transaction::create_method_id(&b"send(address)"[..]),
        &ownership_parameters(),
        &Witness::new(H256::zero(), H256::zero(), 0),
    )
}

#[test]
fn test_execute_transaction() {
    let state_update = create_state_update(0, 100, 1);
    let transaction = create_transaction(0, 100);

    let mut state_manager = StateManager::new();
    let deposit_result = state_manager.deposit(0, 100, &state_update);
    assert!(deposit_result.is_ok());
    let result = state_manager.execute_transaction(&transaction);
    assert!(result.is_ok());
}

#[test]
fn test_execute_transaction_for_partial_range() {
    let state_update = create_state_update(0, 100, 1);
    let transaction = create_transaction(0, 20);

    let mut state_manager = StateManager::new();
    let deposit_result = state_manager.deposit(0, 100, &state_update);
    assert!(deposit_result.is_ok());
    let result = state_manager.execute_transaction(&transaction);
    assert!(result.is_ok());
}

#[test]
fn test_execute_transaction_for_multiple_ranges() {
    let state_update1 = create_state_update(0, 100, 1);
    let state_update2 = create_state_update(100, 200, 2);
    let transaction = create_transaction(50, 150);

    let mut state_manager = StateManager::new();
    assert!(state_manager.deposit(0, 100, &state_update1).is_ok());
    assert!(state_manager.deposit(100, 200, &state_update2).is_ok());
    let result = state_manager.execute_transaction(&transaction);
    assert!(result.is_ok());
    // both underlying ranges were fetched and consumed
    let result = result.unwrap();
    assert_eq!(result.get_ranges().len(), 2);
    assert_eq!(result.get_ranges()[0].get_start(), 0);
    assert_eq!(result.get_ranges()[1].get_start(), 100);
    // the agreed successor covers the transaction's window
    assert_eq!(result.get_state_update().get_start(), 50);
    assert_eq!(result.get_state_update().get_end(), 150);
}

// Executing over a window with no deposited state is refused.
#[test]
fn execute_without_state_fails() {
    let transaction = create_transaction(0, 100);
    let mut state_manager = StateManager::new();
    let r = state_manager.execute_transaction(&transaction);
    assert_eq!(r.err().unwrap().kind(), ErrorKind::NoMatchingState);
}

// A prior state newer than the origin block named in the parameters is
// refused with a typed error rather than a crash.
#[test]
fn execute_with_stale_origin_fails() {
    let state_update = create_state_update(0, 100, 15);
    let transaction = Transaction::new(
        Address::zero(),
        0,
        100,
        Transaction::create_method_id(&b"send(address)"[..]),
        &OwnershipPredicate::make_parameters(
            Address::zero(),
            Address::from_slice(&[8u8; 20]),
            10,
            20,
        ),
        &Witness::new(H256::zero(), H256::zero(), 0),
    );
    let mut state_manager = StateManager::new();
    assert!(state_manager.deposit(0, 100, &state_update).is_ok());
    let r = state_manager.execute_transaction(&transaction);
    assert_eq!(r.err().unwrap().kind(), ErrorKind::InvalidStateTransition);
}

// Undecodable transaction parameters are refused with a typed error.
#[test]
fn execute_with_garbage_parameters_fails() {
    let state_update = create_state_update(0, 100, 1);
    let transaction = Transaction::new(
        Address::zero(),
        0,
        100,
        Transaction::create_method_id(&b"send(address)"[..]),
        &b"new state update"[..],
        &Witness::new(H256::zero(), H256::zero(), 0),
    );
    let mut state_manager = StateManager::new();
    assert!(state_manager.deposit(0, 100, &state_update).is_ok());
    let r = state_manager.execute_transaction(&transaction);
    assert_eq!(r.err().unwrap().kind(), ErrorKind::AbiDecode);
}

// After a put the state database hands back the stored update decoded.
#[test]
fn state_db_round_trip() {
    let mut db = StateDb::new();
    let su = create_state_update(0, 100, 3);
    let vsu = VerifiedStateUpdate::new(0, 100, 3, &su);
    assert!(db.put_verified_state_update(&vsu).is_ok());
    let got = db.get_verified_state_updates(0, 100).unwrap();
    assert_eq!(got.len(), 1);
    assert_eq!(got[0].get_start(), 0);
    assert_eq!(got[0].get_end(), 100);
    assert_eq!(got[0].get_state_update().get_block_number(), 3);
}

// The pure transition half replaces the window with the transaction's
// encoding and truncates the boundary ranges.
#[test]
fn state_processor_truncates_boundaries() {
    let transaction = create_transaction(50, 250);
    let input = [
        Range::new(0, 100, b"A"),
        Range::new(100, 200, b"B"),
        Range::new(200, 300, b"C"),
    ];
    let affected = StateProcessor::apply(&input, &transaction);
    assert_eq!(affected.len(), 3);
    assert_eq!(affected[0].get_start(), 0);
    assert_eq!(affected[0].get_end(), 50);
    assert_eq!(affected[1].get_start(), 250);
    assert_eq!(affected[1].get_end(), 300);
    assert_eq!(affected[2].get_start(), 50);
    assert_eq!(affected[2].get_end(), 250);
    assert_eq!(affected[2].get_value(), transaction.to_abi().as_slice());
}
