use chain_store::cell_set::CellSet;
use chain_store::transaction::{Store, StoreTransaction};
use chain_store::types::{
    cell_key, number_key, Block, CellOutPoint, CellOutput, CellStatus, Column, EpochExt, Header,
    HeaderStatus, OutPoint, Record, Tip, Transaction,
};

fn hash(n: u8) -> Vec<u8> {
    vec![n; 32]
}

fn header(hash_byte: u8, parent_byte: u8, number: u64) -> Header {
    Header {
        hash: hash(hash_byte),
        parent_hash: hash(parent_byte),
        number,
        epoch: 0,
        timestamp: 1000 + number,
    }
}

fn cellbase_tx(hash_byte: u8, outputs: usize) -> Transaction {
    Transaction {
        hash: hash(hash_byte),
        inputs: vec![],
        outputs: (0..outputs)
            .map(|i| CellOutput { capacity: 100 + i as u64, data_hash: hash(200 + i as u8) })
            .collect(),
        cellbase: true,
    }
}

fn spending_tx(hash_byte: u8, spent_tx: u8, spent_index: u32, outputs: usize) -> Transaction {
    Transaction {
        hash: hash(hash_byte),
        inputs: vec![OutPoint {
            block_hash: None,
            cell: Some(CellOutPoint { tx_hash: hash(spent_tx), index: spent_index }),
        }],
        outputs: (0..outputs)
            .map(|i| CellOutput { capacity: 50 + i as u64, data_hash: hash(220 + i as u8) })
            .collect(),
        cellbase: false,
    }
}

fn block(h: Header, txs: Vec<Transaction>) -> Block {
    Block { header: h, transactions: txs, uncles: vec![], proposals: vec![] }
}

fn cell_ref(tx_byte: u8, index: u32) -> OutPoint {
    OutPoint {
        block_hash: None,
        cell: Some(CellOutPoint { tx_hash: hash(tx_byte), index }),
    }
}

/// The concrete genesis/spend/rollback scenario: a cellbase output turns
/// live, dead after a spending block, and live again with identical cell
/// data after that block is detached.
#[test]
fn genesis_spend_and_rollback() {
    let store = Store::new();
    let mut txn = store.begin();
    let mut cell_set = CellSet::new();

    let g = block(header(1, 0, 0), vec![cellbase_tx(10, 1)]);
    txn.insert_block(&g).unwrap();
    txn.attach_block(&g).unwrap();
    txn.attach_block_cell(&g, &mut cell_set).unwrap();

    let meta = cell_set.get(&hash(10)).expect("genesis tx meta in the index");
    assert_eq!(meta.len(), 1);
    assert!(meta.is_cellbase());
    assert_eq!(meta.is_dead(0), Some(false));
    let live_before = match txn.cell(&cell_ref(10, 0)) {
        CellStatus::Live(m) => m,
        other => panic!("expected a live cell, got {:?}", status_name(&other)),
    };
    assert_eq!(live_before.capacity, 100);
    assert_eq!(live_before.data_hash, hash(200));

    let b1 = block(header(2, 1, 1), vec![spending_tx(11, 10, 0, 1)]);
    txn.insert_block(&b1).unwrap();
    txn.attach_block(&b1).unwrap();
    txn.attach_block_cell(&b1, &mut cell_set).unwrap();

    let meta = cell_set.get(&hash(10)).expect("genesis tx meta still in the index");
    assert_eq!(meta.is_dead(0), Some(true));
    assert!(matches!(txn.cell(&cell_ref(10, 0)), CellStatus::Dead));
    assert!(matches!(txn.cell(&cell_ref(11, 0)), CellStatus::Live(_)));

    txn.detach_block(&b1).unwrap();
    txn.detach_block_cell(&b1, &mut cell_set).unwrap();

    let meta = cell_set.get(&hash(10)).expect("genesis tx meta restored");
    assert_eq!(meta.is_dead(0), Some(false));
    assert!(meta.is_cellbase());
    assert!(cell_set.get(&hash(11)).is_none());
    let live_after = match txn.cell(&cell_ref(10, 0)) {
        CellStatus::Live(m) => m,
        other => panic!("expected a live cell again, got {:?}", status_name(&other)),
    };
    assert_eq!(live_after.capacity, live_before.capacity);
    assert_eq!(live_after.data_hash, live_before.data_hash);
}

fn status_name(s: &CellStatus) -> &'static str {
    match s {
        CellStatus::Live(_) => "live",
        CellStatus::Dead => "dead",
        CellStatus::Unknown => "unknown",
        CellStatus::Unspecified => "unspecified",
    }
}

/// Detaching a block removes exactly what the matching attach staged and
/// leaves everything else, so the touched columns read as before.
#[test]
fn attach_detach_restores_store() {
    let store = Store::new();
    let mut txn = store.begin();
    let mut cell_set = CellSet::new();

    let g = block(header(1, 0, 0), vec![cellbase_tx(10, 1)]);
    txn.attach_block(&g).unwrap();
    txn.attach_block_cell(&g, &mut cell_set).unwrap();

    let b1 = block(header(2, 1, 1), vec![spending_tx(11, 10, 0, 2)]);
    txn.attach_block(&b1).unwrap();
    txn.attach_block_cell(&b1, &mut cell_set).unwrap();
    assert!(txn.get_transaction_info(&hash(11)).is_some());
    assert!(txn.get_cell_meta(&hash(11), 0).is_some());
    assert!(txn.get_cell_meta(&hash(11), 1).is_some());

    txn.detach_block(&b1).unwrap();
    txn.detach_block_cell(&b1, &mut cell_set).unwrap();

    // everything the attach of b1 staged is gone again
    assert!(txn.get_transaction_info(&hash(11)).is_none());
    assert!(txn.get_cell_meta(&hash(11), 0).is_none());
    assert!(txn.get_cell_meta(&hash(11), 1).is_none());
    assert!(txn.get(Column::Index, &number_key(1)).is_none());
    assert!(txn.get(Column::Index, &hash(2)).is_none());
    assert!(txn.get_tx_meta(&hash(11)).is_none());

    // the genesis records are untouched
    assert!(txn.get_transaction_info(&hash(10)).is_some());
    let meta = txn.get_tx_meta(&hash(10)).expect("genesis meta restored in the column");
    assert_eq!(meta.is_dead(0), Some(false));
}

/// A reference naming the wrong committing block fails inclusion; the
/// right one resolves to the block's header.
#[test]
fn header_inclusion_check() {
    let store = Store::new();
    let mut txn = store.begin();

    let a = block(header(5, 4, 10), vec![cellbase_tx(30, 1)]);
    let b = block(header(6, 5, 11), vec![]);
    txn.insert_block(&a).unwrap();
    txn.attach_block(&a).unwrap();
    txn.insert_block(&b).unwrap();
    txn.attach_block(&b).unwrap();

    let named_b = OutPoint {
        block_hash: Some(hash(6)),
        cell: Some(CellOutPoint { tx_hash: hash(30), index: 0 }),
    };
    assert!(matches!(txn.header(&named_b), HeaderStatus::InclusionFailure));

    let named_a = OutPoint {
        block_hash: Some(hash(5)),
        cell: Some(CellOutPoint { tx_hash: hash(30), index: 0 }),
    };
    match txn.header(&named_a) {
        HeaderStatus::Live(h) => {
            assert_eq!(h.hash, hash(5));
            assert_eq!(h.number, 10);
        },
        _ => panic!("expected the header of block a"),
    }

    let unknown = OutPoint { block_hash: Some(hash(99)), cell: None };
    assert!(matches!(txn.header(&unknown), HeaderStatus::Unknown));
    let unspecified = OutPoint { block_hash: None, cell: None };
    assert!(matches!(txn.header(&unspecified), HeaderStatus::Unspecified));
}

/// The four cell statuses each come from their own situation and from no
/// other.
#[test]
fn cell_status_cases() {
    let store = Store::new();
    let mut txn = store.begin();
    let mut cell_set = CellSet::new();

    let g = block(header(1, 0, 0), vec![cellbase_tx(10, 1)]);
    txn.attach_block(&g).unwrap();
    txn.attach_block_cell(&g, &mut cell_set).unwrap();
    let b1 = block(header(2, 1, 1), vec![spending_tx(11, 10, 0, 1)]);
    txn.attach_block(&b1).unwrap();
    txn.attach_block_cell(&b1, &mut cell_set).unwrap();

    assert!(matches!(
        txn.cell(&OutPoint { block_hash: None, cell: None }),
        CellStatus::Unspecified
    ));
    assert!(matches!(txn.cell(&cell_ref(77, 0)), CellStatus::Unknown));
    assert!(matches!(txn.cell(&cell_ref(10, 5)), CellStatus::Unknown));
    assert!(matches!(txn.cell(&cell_ref(10, 0)), CellStatus::Dead));
    assert!(matches!(txn.cell(&cell_ref(11, 0)), CellStatus::Live(_)));
}

/// Writes staged in a transaction that is never committed are invisible to
/// snapshots and to the committed store; a commit publishes all of them.
#[test]
fn uncommitted_batch_invisible() {
    let mut store = Store::new();
    let mut txn = store.begin();
    let tip = Tip { header: header(1, 0, 0), epoch: 0 };
    txn.insert_tip(&tip).unwrap();
    txn.commit(&mut store).unwrap();

    // a second transaction stages a tip change and further writes, but
    // is dropped without committing
    let mut abandoned = store.begin();
    let tip2 = Tip { header: header(2, 1, 1), epoch: 0 };
    abandoned.insert_tip(&tip2).unwrap();
    abandoned
        .insert_raw(Column::Meta, vec![1, 2, 3], Record::NumberValue(7))
        .unwrap();
    drop(abandoned);

    let fresh = store.begin();
    let snap = fresh.get_snapshot();
    let seen = fresh.get_update_for_tip(&snap).expect("the committed tip");
    assert_eq!(seen.header.hash, hash(1));
    assert_eq!(seen.header.number, 0);
    assert!(fresh.get(Column::Meta, &vec![1, 2, 3]).is_none());

    // a snapshot taken from a transaction shows the state it began from,
    // not its own staged writes
    let mut staging = store.begin();
    staging.insert_tip(&tip2).unwrap();
    let snap = staging.get_snapshot();
    let seen = staging.get_update_for_tip(&snap).expect("still the committed tip");
    assert_eq!(seen.header.hash, hash(1));
}

/// Both epoch keys resolve to the same record: the hash key holds the
/// record, the number key holds the hash.
#[test]
fn epoch_dual_key() {
    let store = Store::new();
    let mut txn = store.begin();
    let epoch = EpochExt { number: 5, start_number: 40, length: 8, difficulty: 1000 };
    txn.insert_epoch_ext(&hash(50), &epoch).unwrap();

    let by_hash = match txn.get(Column::Epoch, &hash(50)) {
        Some(Record::Epoch(e)) => *e,
        _ => panic!("expected the epoch record under its hash"),
    };
    assert_eq!(by_hash.number, 5);
    assert_eq!(by_hash.start_number, 40);
    assert_eq!(by_hash.length, 8);
    assert_eq!(by_hash.difficulty, 1000);

    let index_hash = match txn.get(Column::Epoch, &number_key(5)) {
        Some(Record::HashValue(h)) => h.clone(),
        _ => panic!("expected the epoch hash under the number key"),
    };
    assert_eq!(index_hash, hash(50));
    let by_number = match txn.get(Column::Epoch, &index_hash) {
        Some(Record::Epoch(e)) => *e,
        _ => panic!("expected the same record through the number key"),
    };
    assert_eq!(by_number.number, by_hash.number);
    assert_eq!(by_number.difficulty, by_hash.difficulty);
}

/// A cellbase meta keeps its tag across a detach and a fresh attach.
#[test]
fn cellbase_tag_round_trip() {
    let store = Store::new();
    let mut txn = store.begin();
    let mut cell_set = CellSet::new();
    let g = block(header(1, 0, 0), vec![cellbase_tx(10, 2)]);

    txn.attach_block(&g).unwrap();
    txn.attach_block_cell(&g, &mut cell_set).unwrap();
    assert!(cell_set.get(&hash(10)).unwrap().is_cellbase());

    txn.detach_block(&g).unwrap();
    txn.detach_block_cell(&g, &mut cell_set).unwrap();
    assert!(cell_set.get(&hash(10)).is_none());

    txn.attach_block(&g).unwrap();
    txn.attach_block_cell(&g, &mut cell_set).unwrap();
    let meta = cell_set.get(&hash(10)).unwrap();
    assert!(meta.is_cellbase());
    assert_eq!(meta.len(), 2);
    assert_eq!(meta.is_dead(0), Some(false));
    assert_eq!(meta.is_dead(1), Some(false));
}

/// Fresh metas only carry dead bits for outputs some input spends.
#[test]
fn bitmap_monotone_growth() {
    let store = Store::new();
    let mut txn = store.begin();
    let mut cell_set = CellSet::new();

    let g = block(header(1, 0, 0), vec![cellbase_tx(10, 3)]);
    txn.attach_block(&g).unwrap();
    txn.attach_block_cell(&g, &mut cell_set).unwrap();
    let meta = cell_set.get(&hash(10)).unwrap();
    assert_eq!(meta.is_dead(0), Some(false));
    assert_eq!(meta.is_dead(1), Some(false));
    assert_eq!(meta.is_dead(2), Some(false));

    // a block spending only output 1 marks exactly output 1
    let b1 = block(header(2, 1, 1), vec![spending_tx(11, 10, 1, 1)]);
    txn.attach_block(&b1).unwrap();
    txn.attach_block_cell(&b1, &mut cell_set).unwrap();
    let meta = cell_set.get(&hash(10)).unwrap();
    assert_eq!(meta.is_dead(0), Some(false));
    assert_eq!(meta.is_dead(1), Some(true));
    assert_eq!(meta.is_dead(2), Some(false));
    let fresh = cell_set.get(&hash(11)).unwrap();
    assert_eq!(fresh.is_dead(0), Some(false));
}

/// The cell-set index snapshots in O(1) and shares nothing observable:
/// mutating the original leaves the snapshot at its old contents.
#[test]
fn cell_set_snapshot_isolated() {
    let store = Store::new();
    let mut txn = store.begin();
    let mut cell_set = CellSet::new();
    let g = block(header(1, 0, 0), vec![cellbase_tx(10, 1)]);
    txn.attach_block(&g).unwrap();
    txn.attach_block_cell(&g, &mut cell_set).unwrap();

    let snapshot = cell_set.snapshot();
    let b1 = block(header(2, 1, 1), vec![spending_tx(11, 10, 0, 1)]);
    txn.attach_block(&b1).unwrap();
    txn.attach_block_cell(&b1, &mut cell_set).unwrap();

    assert_eq!(cell_set.get(&hash(10)).unwrap().is_dead(0), Some(true));
    assert_eq!(snapshot.get(&hash(10)).unwrap().is_dead(0), Some(false));
    assert!(snapshot.get(&hash(11)).is_none());
}

/// Uncle markers and block records go under their own keys.
#[test]
fn block_records_and_uncles() {
    let store = Store::new();
    let mut txn = store.begin();
    let mut b = block(header(3, 2, 7), vec![cellbase_tx(12, 1)]);
    b.uncles.push(header(9, 1, 6));
    b.proposals.push(vec![1, 2, 3]);

    txn.insert_block(&b).unwrap();
    txn.attach_block(&b).unwrap();

    assert!(matches!(txn.get(Column::BlockHeader, &hash(3)), Some(Record::Header(_))));
    assert!(matches!(txn.get(Column::BlockBody, &hash(3)), Some(Record::Body(_))));
    assert!(matches!(txn.get(Column::Uncles, &hash(9)), Some(Record::Marker)));
    match txn.get(Column::Index, &number_key(7)) {
        Some(Record::HashValue(h)) => assert_eq!(h.clone(), hash(3)),
        _ => panic!("expected the number-to-hash index entry"),
    }
    match txn.get(Column::Index, &hash(3)) {
        Some(Record::NumberValue(n)) => assert_eq!(*n, 7),
        _ => panic!("expected the hash-to-number index entry"),
    }

    txn.detach_block(&b).unwrap();
    assert!(txn.get(Column::Uncles, &hash(9)).is_none());
    assert!(txn.get(Column::Index, &number_key(7)).is_none());
    // block records are not removed by a detach
    assert!(matches!(txn.get(Column::BlockHeader, &hash(3)), Some(Record::Header(_))));
}

/// Keys have their documented shapes: 8 little-endian bytes for a number,
/// hash plus 4 big-endian index bytes for a cell.
#[test]
fn key_shapes() {
    assert_eq!(
        number_key(0x0102030405060708),
        vec![0x08, 0x07, 0x06, 0x05, 0x04, 0x03, 0x02, 0x01]
    );
    let k = cell_key(&hash(10), 1);
    assert_eq!(k.len(), 36);
    assert_eq!(&k[..32], &hash(10)[..]);
    assert_eq!(&k[32..], &[0, 0, 0, 1]);
    let k2 = cell_key(&hash(10), 0x01020304);
    assert_eq!(&k2[32..], &[1, 2, 3, 4]);
}

/// Commit publishes the whole batch at once.
#[test]
fn commit_publishes_batch() {
    let mut store = Store::new();
    let mut txn = store.begin();
    let mut cell_set = CellSet::new();
    let g = block(header(1, 0, 0), vec![cellbase_tx(10, 1)]);
    txn.insert_block(&g).unwrap();
    txn.attach_block(&g).unwrap();
    txn.attach_block_cell(&g, &mut cell_set).unwrap();
    txn.insert_block_ext(
        &hash(1),
        &chain_store::types::BlockExt { total_difficulty: 10, verified: Some(true) },
    )
    .unwrap();
    txn.insert_block_epoch_index(&hash(1), &hash(50)).unwrap();
    txn.commit(&mut store).unwrap();

    let reader: StoreTransaction = store.begin();
    assert!(matches!(reader.get(Column::BlockHeader, &hash(1)), Some(Record::Header(_))));
    assert!(matches!(reader.get(Column::BlockExt, &hash(1)), Some(Record::Ext(_))));
    match reader.get(Column::BlockEpoch, &hash(1)) {
        Some(Record::HashValue(h)) => assert_eq!(h.clone(), hash(50)),
        _ => panic!("expected the block-to-epoch index entry"),
    }
    assert!(reader.get_tx_meta(&hash(10)).is_some());
}
