use chain_store::error::{InternalError, InternalErrorKind};
use chain_store::meta::TransactionMeta;
use chain_store::syscall::{LoadScriptHash, CYCLES_PER_BYTE, LOAD_SCRIPT_HASH_SYSCALL_NUMBER};

#[test]
fn error_renders_kind_alone() {
    let e = InternalError::from(InternalErrorKind::DataCorrupted);
    assert_eq!(e.render(), "DataCorrupted");
    assert_eq!(*e.kind(), InternalErrorKind::DataCorrupted);
}

#[test]
fn error_renders_kind_with_cause() {
    let e = InternalErrorKind::Database.cause("disk failure".to_string());
    assert_eq!(e.render(), "Database(disk failure)");
    let e = InternalErrorKind::CapacityOverflow.reason("sum overflows".to_string());
    assert_eq!(e.render(), "CapacityOverflow(sum overflows)");
    assert_eq!(*e.kind(), InternalErrorKind::CapacityOverflow);
}

#[test]
fn error_kind_labels() {
    assert_eq!(InternalErrorKind::TransactionPoolFull.label(), "TransactionPoolFull");
    assert_eq!(
        InternalErrorKind::PoolTransactionDuplicated.label(),
        "PoolTransactionDuplicated"
    );
    assert_eq!(InternalErrorKind::VM.label(), "VM");
    assert_eq!(InternalErrorKind::System.label(), "System");
}

#[test]
fn syscall_answers_its_number_only() {
    let handler = LoadScriptHash::new(vec![7u8; 32]);
    let resp = handler.ecall_response(LOAD_SCRIPT_HASH_SYSCALL_NUMBER).expect("served");
    assert_eq!(resp.data, vec![7u8; 32]);
    assert_eq!(resp.cycles, 32 * CYCLES_PER_BYTE);
    assert_eq!(resp.cycles, 320);
    assert!(handler.ecall_response(1).is_none());
    assert!(handler.ecall_response(0).is_none());
}

#[test]
fn transaction_meta_bit_operations() {
    let mut m = TransactionMeta::new(5, 1, vec![9u8; 32], 3, false);
    assert_eq!(m.len(), 3);
    assert!(!m.is_cellbase());
    assert_eq!(m.is_dead(0), Some(false));
    assert_eq!(m.is_dead(3), None);
    m.set_dead(1);
    assert_eq!(m.is_dead(1), Some(true));
    assert_eq!(m.is_dead(0), Some(false));
    m.unset_dead(1);
    assert_eq!(m.is_dead(1), Some(false));
    // out-of-range marks are ignored, not recorded
    m.set_dead(10);
    assert_eq!(m.is_dead(0), Some(false));
    assert_eq!(m.is_dead(1), Some(false));
    assert_eq!(m.is_dead(2), Some(false));

    let all_dead = TransactionMeta::new(5, 1, vec![9u8; 32], 2, true);
    assert_eq!(all_dead.is_dead(0), Some(true));
    assert_eq!(all_dead.is_dead(1), Some(true));

    let cb = TransactionMeta::new_cellbase(0, 0, vec![1u8; 32], 1, false);
    assert!(cb.is_cellbase());
}
