//! The chain store transaction and its read providers.
//!
//! A [`StoreTransaction`] wraps one atomic write batch plus one consistent
//! read snapshot over the keyed store.  Writes are staged against the
//! transaction's own view and become visible to other readers only at
//! [`StoreTransaction::commit`]; a transaction that is discarded instead
//! leaves the store untouched.

use vstd::prelude::*;
use crate::error::InternalError;
use crate::kv::KvMap;
use crate::cell_set::CellSet;
use crate::meta::{copy_bytes, MetaV, TransactionMeta};
use crate::types::{
    cell_key, cell_key_spec, current_epoch_key, current_epoch_key_spec, number_key,
    number_key_spec, tip_key, tip_key_spec, Block, BlockExt, BlockV, CellMeta, CellMetaV,
    CellStatus,
    CellStatusV, Column, EpochExt, Header, HeaderStatus, HeaderStatusV, HeaderV, OutPoint,
    OutPointV, Record, RecordV, Tip, TipV, TransactionInfo, TransactionInfoV,
};

verus! {

/// The durable keyed store an engine would hold on disk.
pub struct Store {
    pub committed: KvMap,
}

/// An immutable point-in-time read view of the store.
pub struct StoreSnapshot {
    pub map: KvMap,
}

/// One atomic write batch over the keyed store: `base` is the consistent
/// view the transaction started from, `cur` is that view with the staged
/// writes applied.
pub struct StoreTransaction {
    pub base: KvMap,
    pub cur: KvMap,
}

/// The meta stored for a transaction hash, when the cell-set column holds
/// a meta record under it.
pub open spec fn meta_record_of(m: Map<(Column, Seq<u8>), RecordV>, h: Seq<u8>) -> Option<MetaV> {
    if m.contains_key((Column::CellSet, h)) {
        match m[(Column::CellSet, h)] {
            RecordV::Meta(x) => Some(x),
            _ => None,
        }
    } else {
        None
    }
}

/// The header stored for a block hash, when one is held.
pub open spec fn header_record_of(m: Map<(Column, Seq<u8>), RecordV>, h: Seq<u8>) -> Option<
    HeaderV,
> {
    if m.contains_key((Column::BlockHeader, h)) {
        match m[(Column::BlockHeader, h)] {
            RecordV::Header(x) => Some(x),
            _ => None,
        }
    } else {
        None
    }
}

/// The transaction info stored for a transaction hash, when one is held.
pub open spec fn info_record_of(m: Map<(Column, Seq<u8>), RecordV>, h: Seq<u8>) -> Option<
    TransactionInfoV,
> {
    if m.contains_key((Column::TransactionInfo, h)) {
        match m[(Column::TransactionInfo, h)] {
            RecordV::Info(x) => Some(x),
            _ => None,
        }
    } else {
        None
    }
}

/// The cell meta stored under a cell key, when one is held.
pub open spec fn cell_record_of(m: Map<(Column, Seq<u8>), RecordV>, key: Seq<u8>) -> Option<
    CellMetaV,
> {
    if m.contains_key((Column::CellMeta, key)) {
        match m[(Column::CellMeta, key)] {
            RecordV::Cell(x) => Some(x),
            _ => None,
        }
    } else {
        None
    }
}

/// The tip stored under the fixed meta key, when one is held.
pub open spec fn tip_record_of(m: Map<(Column, Seq<u8>), RecordV>) -> Option<TipV> {
    if m.contains_key((Column::Meta, tip_key_spec())) {
        match m[(Column::Meta, tip_key_spec())] {
            RecordV::Tip(x) => Some(x),
            _ => None,
        }
    } else {
        None
    }
}

/// The epoch extension stored under a key of the epoch column, when held.
pub open spec fn epoch_record_of(m: Map<(Column, Seq<u8>), RecordV>, key: Seq<u8>) -> Option<
    EpochExt,
> {
    if m.contains_key((Column::Epoch, key)) {
        match m[(Column::Epoch, key)] {
            RecordV::Epoch(x) => Some(x),
            _ => None,
        }
    } else {
        None
    }
}

/// The hash stored under a key of the epoch column, when held.
pub open spec fn epoch_index_of(m: Map<(Column, Seq<u8>), RecordV>, key: Seq<u8>) -> Option<
    Seq<u8>,
> {
    if m.contains_key((Column::Epoch, key)) {
        match m[(Column::Epoch, key)] {
            RecordV::HashValue(x) => Some(x),
            _ => None,
        }
    } else {
        None
    }
}

/// How a cell reference resolves against a store view: exactly one of the
/// four statuses holds for any reference.
pub open spec fn cell_status_spec(m: Map<(Column, Seq<u8>), RecordV>, op: OutPointV) -> CellStatusV {
    match op.cell {
        None => CellStatusV::Unspecified,
        Some(c) => match meta_record_of(m, c.tx_hash) {
            None => CellStatusV::Unknown,
            Some(meta) => if c.index >= meta.dead_cell.len() {
                CellStatusV::Unknown
            } else if meta.dead_cell[c.index as int] {
                CellStatusV::Dead
            } else {
                match cell_record_of(m, cell_key_spec(c.tx_hash, c.index)) {
                    Some(cm) => CellStatusV::Live(cm),
                    None => CellStatusV::Unknown,
                }
            },
        },
    }
}

/// The store holds the static data of the output a reference resolves to
/// as live; established by block attach and demanded before a live lookup.
pub open spec fn cell_input_consistent(m: Map<(Column, Seq<u8>), RecordV>, op: OutPointV) -> bool {
    match op.cell {
        None => true,
        Some(c) => match meta_record_of(m, c.tx_hash) {
            None => true,
            Some(meta) => c.index < meta.dead_cell.len() && !meta.dead_cell[c.index as int]
                ==> cell_record_of(m, cell_key_spec(c.tx_hash, c.index)) is Some,
        },
    }
}

/// How a conditional block-commitment reference resolves against a store
/// view.
pub open spec fn header_status_spec(m: Map<(Column, Seq<u8>), RecordV>, op: OutPointV)
    -> HeaderStatusV {
    match op.block_hash {
        None => HeaderStatusV::Unspecified,
        Some(bh) => match header_record_of(m, bh) {
            None => HeaderStatusV::Unknown,
            Some(h) => match op.cell {
                None => HeaderStatusV::Live(h),
                Some(c) => match info_record_of(m, c.tx_hash) {
                    None => HeaderStatusV::InclusionFailure,
                    Some(info) => if info.block_hash == bh {
                        HeaderStatusV::Live(h)
                    } else {
                        HeaderStatusV::InclusionFailure
                    },
                },
            },
        },
    }
}

impl Store {
    /// An empty store.
    pub fn new() -> (r: Store)
        ensures
            r.committed.wf(),
            r.committed@ == Map::<(Column, Seq<u8>), RecordV>::empty(),
    {
        Store { committed: KvMap::new() }
    }

    /// Opens a transaction: both its views start from the committed state.
    pub fn begin(&self) -> (t: StoreTransaction)
        requires
            self.committed.wf(),
        ensures
            t.wf(),
            t.base@ == self.committed@,
            t.cur@ == self.committed@,
    {
        StoreTransaction { base: self.committed.duplicate(), cur: self.committed.duplicate() }
    }

    /// An immutable point-in-time view of the committed state; staged
    /// writes of any open transaction are invisible to it.
    pub fn snapshot(&self) -> (s: StoreSnapshot)
        requires
            self.committed.wf(),
        ensures
            s.map.wf(),
            s.map@ == self.committed@,
    {
        StoreSnapshot { map: self.committed.duplicate() }
    }
}

impl StoreTransaction {
    /// Both views hold each pair at most once.
    pub open spec fn wf(&self) -> bool {
        self.base.wf() && self.cur.wf()
    }

    /// The record this transaction sees under a pair: its own staged
    /// writes are visible to it.
    pub fn get(&self, col: Column, key: &Vec<u8>) -> (r: Option<&Record>)
        requires
            self.wf(),
        ensures
            match r {
                Some(rec) => self.cur@.contains_key((col, key@)) && rec@ == self.cur@[(col, key@)],
                None => !self.cur@.contains_key((col, key@)),
            },
    {
        self.cur.get(col, key)
    }

    /// Stages one record under a pair.
    pub fn insert_raw(&mut self, col: Column, key: Vec<u8>, value: Record) -> (r: Result<
        (),
        InternalError,
    >)
        requires
            old(self).wf(),
        ensures
            final(self).wf(),
            final(self).base == old(self).base,
            final(self).cur@ == old(self).cur@.insert((col, key@), value@),
            r is Ok,
    {
        self.cur.put(col, key, value);
        Ok(())
    }

    /// Stages the deletion of a pair.
    pub fn delete(&mut self, col: Column, key: &Vec<u8>) -> (r: Result<(), InternalError>)
        requires
            old(self).wf(),
        ensures
            final(self).wf(),
            final(self).base == old(self).base,
            final(self).cur@ == old(self).cur@.remove((col, key@)),
            r is Ok,
    {
        self.cur.delete(col, key);
        Ok(())
    }

    /// Applies the whole staged batch to the store at once: after the call
    /// the committed state is exactly this transaction's view, so readers
    /// see either none or all of the staged writes.
    pub fn commit(&self, store: &mut Store) -> (r: Result<(), InternalError>)
        requires
            self.wf(),
        ensures
            final(store).committed.wf(),
            final(store).committed@ == self.cur@,
            r is Ok,
    {
        store.committed = self.cur.duplicate();
        Ok(())
    }

    /// An immutable view of the state this transaction started from,
    /// without the staged writes.
    pub fn get_snapshot(&self) -> (s: StoreSnapshot)
        requires
            self.wf(),
        ensures
            s.map.wf(),
            s.map@ == self.base@,
    {
        StoreSnapshot { map: self.base.duplicate() }
    }

    /// Reads the tip through the given snapshot, for read-modify-write
    /// checks against concurrent tip changes.
    pub fn get_update_for_tip(&self, snapshot: &StoreSnapshot) -> (r: Option<Tip>)
        requires
            snapshot.map.wf(),
        ensures
            match r {
                Some(t) => tip_record_of(snapshot.map@) == Some(t@),
                None => tip_record_of(snapshot.map@) is None,
            },
    {
        let key = tip_key();
        match snapshot.map.get(Column::Meta, &key) {
            Some(Record::Tip(t)) => Some(t.duplicate()),
            Some(_) => None,
            None => None,
        }
    }

    /// Stages the tip singleton.
    pub fn insert_tip(&mut self, tip: &Tip) -> (r: Result<(), InternalError>)
        requires
            old(self).wf(),
        ensures
            final(self).wf(),
            final(self).base == old(self).base,
            final(self).cur@ == old(self).cur@.insert(
                (Column::Meta, tip_key_spec()),
                RecordV::Tip(tip@),
            ),
            r is Ok,
    {
        self.insert_raw(Column::Meta, tip_key(), Record::Tip(tip.duplicate()))
    }

    /// Stages the block-hash-to-epoch-hash index entry.
    pub fn insert_block_epoch_index(&mut self, block_hash: &Vec<u8>, epoch_hash: &Vec<u8>) -> (r:
        Result<(), InternalError>)
        requires
            old(self).wf(),
        ensures
            final(self).wf(),
            final(self).base == old(self).base,
            final(self).cur@ == old(self).cur@.insert(
                (Column::BlockEpoch, block_hash@),
                RecordV::HashValue(epoch_hash@),
            ),
            r is Ok,
    {
        self.insert_raw(
            Column::BlockEpoch,
            copy_bytes(block_hash),
            Record::HashValue(copy_bytes(epoch_hash)),
        )
    }

    /// Stages an epoch extension under both of its keys: the full record
    /// under the epoch hash, and the epoch hash under the epoch number.
    pub fn insert_epoch_ext(&mut self, hash: &Vec<u8>, epoch: &EpochExt) -> (r: Result<
        (),
        InternalError,
    >)
        requires
            old(self).wf(),
        ensures
            final(self).wf(),
            final(self).base == old(self).base,
            final(self).cur@ == old(self).cur@.insert(
                (Column::Epoch, hash@),
                RecordV::Epoch(*epoch),
            ).insert((Column::Epoch, number_key_spec(epoch.number)), RecordV::HashValue(hash@)),
            r is Ok,
    {
        let r1 = self.insert_raw(Column::Epoch, copy_bytes(hash), Record::Epoch(*epoch));
        match r1 {
            Ok(_) => self.insert_raw(
                Column::Epoch,
                number_key(epoch.number),
                Record::HashValue(copy_bytes(hash)),
            ),
            Err(e) => Err(e),
        }
    }

    /// Stages the current-epoch singleton.
    pub fn insert_current_epoch_ext(&mut self, epoch: &EpochExt) -> (r: Result<(), InternalError>)
        requires
            old(self).wf(),
        ensures
            final(self).wf(),
            final(self).base == old(self).base,
            final(self).cur@ == old(self).cur@.insert(
                (Column::Meta, current_epoch_key_spec()),
                RecordV::Epoch(*epoch),
            ),
            r is Ok,
    {
        self.insert_raw(Column::Meta, current_epoch_key(), Record::Epoch(*epoch))
    }

    /// Stages a transaction meta under the cell-set column.
    pub fn update_cell_set(&mut self, tx_hash: &Vec<u8>, meta: &TransactionMeta) -> (r: Result<
        (),
        InternalError,
    >)
        requires
            old(self).wf(),
        ensures
            final(self).wf(),
            final(self).base == old(self).base,
            final(self).cur@ == old(self).cur@.insert(
                (Column::CellSet, tx_hash@),
                RecordV::Meta(meta@),
            ),
            r is Ok,
    {
        self.insert_raw(Column::CellSet, copy_bytes(tx_hash), Record::Meta(meta.duplicate()))
    }

    /// Stages the deletion of a transaction meta from the cell-set column.
    pub fn delete_cell_set(&mut self, tx_hash: &Vec<u8>) -> (r: Result<(), InternalError>)
        requires
            old(self).wf(),
        ensures
            final(self).wf(),
            final(self).base == old(self).base,
            final(self).cur@ == old(self).cur@.remove((Column::CellSet, tx_hash@)),
            r is Ok,
    {
        self.delete(Column::CellSet, tx_hash)
    }

    /// The header this transaction sees for a block hash.
    pub fn get_block_header(&self, hash: &Vec<u8>) -> (r: Option<Header>)
        requires
            self.wf(),
        ensures
            match r {
                Some(h) => header_record_of(self.cur@, hash@) == Some(h@),
                None => header_record_of(self.cur@, hash@) is None,
            },
    {
        match self.cur.get(Column::BlockHeader, hash) {
            Some(Record::Header(h)) => Some(h.duplicate()),
            Some(_) => None,
            None => None,
        }
    }

    /// The transaction info this transaction sees for a transaction hash.
    pub fn get_transaction_info(&self, tx_hash: &Vec<u8>) -> (r: Option<TransactionInfo>)
        requires
            self.wf(),
        ensures
            match r {
                Some(i) => info_record_of(self.cur@, tx_hash@) == Some(i@),
                None => info_record_of(self.cur@, tx_hash@) is None,
            },
    {
        match self.cur.get(Column::TransactionInfo, tx_hash) {
            Some(Record::Info(i)) => Some(i.duplicate()),
            Some(_) => None,
            None => None,
        }
    }

    /// The spendability meta this transaction sees for a transaction hash.
    pub fn get_tx_meta(&self, tx_hash: &Vec<u8>) -> (r: Option<TransactionMeta>)
        requires
            self.wf(),
        ensures
            match r {
                Some(m) => meta_record_of(self.cur@, tx_hash@) == Some(m@),
                None => meta_record_of(self.cur@, tx_hash@) is None,
            },
    {
        match self.cur.get(Column::CellSet, tx_hash) {
            Some(Record::Meta(m)) => Some(m.duplicate()),
            Some(_) => None,
            None => None,
        }
    }

    /// The static cell data this transaction sees for one output.
    pub fn get_cell_meta(&self, tx_hash: &Vec<u8>, index: u32) -> (r: Option<CellMeta>)
        requires
            self.wf(),
        ensures
            match r {
                Some(c) => cell_record_of(self.cur@, cell_key_spec(tx_hash@, index)) == Some(c@),
                None => cell_record_of(self.cur@, cell_key_spec(tx_hash@, index)) is None,
            },
    {
        let key = cell_key(tx_hash, index);
        match self.cur.get(Column::CellMeta, &key) {
            Some(Record::Cell(c)) => Some(c.duplicate()),
            Some(_) => None,
            None => None,
        }
    }

    /// Resolves an output reference to its spendability status: exactly one
    /// of live, dead, unknown or unspecified, as [`cell_status_spec`] says.
    pub fn cell(&self, out_point: &OutPoint) -> (r: CellStatus)
        requires
            self.wf(),
            cell_input_consistent(self.cur@, out_point@),
        ensures
            r@ == cell_status_spec(self.cur@, out_point@),
    {
        match &out_point.cell {
            Some(c) => {
                match self.get_tx_meta(&c.tx_hash) {
                    Some(tx_meta) => {
                        let idx_usize = c.index as usize;
                        match tx_meta.is_dead(idx_usize) {
                            Some(false) => {
                                match self.get_cell_meta(&c.tx_hash, c.index) {
                                    Some(cell_meta) => CellStatus::Live(cell_meta),
                                    None => CellStatus::Unknown,
                                }
                            },
                            Some(true) => CellStatus::Dead,
                            None => CellStatus::Unknown,
                        }
                    },
                    None => CellStatus::Unknown,
                }
            },
            None => CellStatus::Unspecified,
        }
    }

    /// Resolves a conditional block-commitment reference: the header when
    /// the named block is stored and, if a cell is named too, commits that
    /// cell's transaction; inclusion failure on a mismatch; unknown when
    /// the block hash is not stored.
    pub fn header(&self, out_point: &OutPoint) -> (r: HeaderStatus)
        requires
            self.wf(),
        ensures
            r@ == header_status_spec(self.cur@, out_point@),
    {
        match &out_point.block_hash {
            Some(block_hash) => {
                match self.get_block_header(block_hash) {
                    Some(header) => {
                        match &out_point.cell {
                            Some(c) => {
                                match self.get_transaction_info(&c.tx_hash) {
                                    Some(info) => {
                                        if crate::types::bytes_eq(&info.block_hash, block_hash) {
                                            HeaderStatus::Live(header)
                                        } else {
                                            HeaderStatus::InclusionFailure
                                        }
                                    },
                                    None => HeaderStatus::InclusionFailure,
                                }
                            },
                            None => HeaderStatus::Live(header),
                        }
                    },
                    None => HeaderStatus::Unknown,
                }
            },
            None => HeaderStatus::Unspecified,
        }
    }
}

/// The info record a block attach stages for its transaction `i`.
pub open spec fn tx_info_v(b: BlockV, i: int) -> TransactionInfoV {
    TransactionInfoV {
        block_hash: b.header.hash,
        block_number: b.header.number,
        block_epoch: b.header.epoch,
        index: i as u64,
    }
}

/// The cell record a block attach stages for output `j` of transaction `i`.
pub open spec fn cell_output_meta_v(b: BlockV, i: int, j: int) -> CellMetaV {
    CellMetaV {
        capacity: b.transactions[i].outputs[j].capacity,
        data_hash: b.transactions[i].outputs[j].data_hash,
    }
}

/// `m` after staging the cell records of outputs `0..j` of transaction `i`.
pub open spec fn cell_records(
    m: Map<(Column, Seq<u8>), RecordV>,
    b: BlockV,
    i: int,
    j: int,
) -> Map<(Column, Seq<u8>), RecordV>
    decreases j,
{
    if j <= 0 {
        m
    } else {
        cell_records(m, b, i, j - 1).insert(
            (Column::CellMeta, cell_key_spec(b.transactions[i].hash, (j - 1) as u32)),
            RecordV::Cell(cell_output_meta_v(b, i, j - 1)),
        )
    }
}

/// `m` after staging the info and cell records of transactions `0..i`.
pub open spec fn tx_records(m: Map<(Column, Seq<u8>), RecordV>, b: BlockV, i: int) -> Map<
    (Column, Seq<u8>),
    RecordV,
>
    decreases i,
{
    if i <= 0 {
        m
    } else {
        cell_records(
            tx_records(m, b, i - 1).insert(
                (Column::TransactionInfo, b.transactions[i - 1].hash),
                RecordV::Info(tx_info_v(b, i - 1)),
            ),
            b,
            i - 1,
            b.transactions[i - 1].outputs.len() as int,
        )
    }
}

/// `m` after staging the presence markers of uncles `0..u`.
pub open spec fn uncle_records(m: Map<(Column, Seq<u8>), RecordV>, b: BlockV, u: int) -> Map<
    (Column, Seq<u8>),
    RecordV,
>
    decreases u,
{
    if u <= 0 {
        m
    } else {
        uncle_records(m, b, u - 1).insert((Column::Uncles, b.uncles[u - 1].hash), RecordV::Marker)
    }
}

/// Everything `attach_block` stages over `m`: transaction infos, cell
/// records, the two index entries and the uncle markers.
pub open spec fn attach_records(m: Map<(Column, Seq<u8>), RecordV>, b: BlockV) -> Map<
    (Column, Seq<u8>),
    RecordV,
> {
    uncle_records(
        tx_records(m, b, b.transactions.len() as int).insert(
            (Column::Index, number_key_spec(b.header.number)),
            RecordV::HashValue(b.header.hash),
        ),
        b,
        b.uncles.len() as int,
    ).insert((Column::Index, b.header.hash), RecordV::NumberValue(b.header.number))
}

/// `m` after deleting the cell records of outputs `0..j` of transaction `i`.
pub open spec fn cell_removals(
    m: Map<(Column, Seq<u8>), RecordV>,
    b: BlockV,
    i: int,
    j: int,
) -> Map<(Column, Seq<u8>), RecordV>
    decreases j,
{
    if j <= 0 {
        m
    } else {
        cell_removals(m, b, i, j - 1).remove(
            (Column::CellMeta, cell_key_spec(b.transactions[i].hash, (j - 1) as u32)),
        )
    }
}

/// `m` after deleting the info and cell records of transactions `0..i`.
pub open spec fn tx_removals(m: Map<(Column, Seq<u8>), RecordV>, b: BlockV, i: int) -> Map<
    (Column, Seq<u8>),
    RecordV,
>
    decreases i,
{
    if i <= 0 {
        m
    } else {
        cell_removals(
            tx_removals(m, b, i - 1).remove((Column::TransactionInfo, b.transactions[i - 1].hash)),
            b,
            i - 1,
            b.transactions[i - 1].outputs.len() as int,
        )
    }
}

/// `m` after deleting the presence markers of uncles `0..u`.
pub open spec fn uncle_removals(m: Map<(Column, Seq<u8>), RecordV>, b: BlockV, u: int) -> Map<
    (Column, Seq<u8>),
    RecordV,
>
    decreases u,
{
    if u <= 0 {
        m
    } else {
        uncle_removals(m, b, u - 1).remove((Column::Uncles, b.uncles[u - 1].hash))
    }
}

/// Everything `detach_block` deletes from `m`: exactly the pairs the
/// matching attach staged.
pub open spec fn detach_records(m: Map<(Column, Seq<u8>), RecordV>, b: BlockV) -> Map<
    (Column, Seq<u8>),
    RecordV,
> {
    uncle_removals(tx_removals(m, b, b.transactions.len() as int), b, b.uncles.len() as int).remove(
        (Column::Index, number_key_spec(b.header.number)),
    ).remove((Column::Index, b.header.hash))
}

impl StoreTransaction {
    /// Stages the four block records — header, uncles, proposal ids and
    /// body — under the block hash.  Idempotent: re-inserting the same
    /// block stages identical records.
    pub fn insert_block(&mut self, block: &Block) -> (r: Result<(), InternalError>)
        requires
            old(self).wf(),
        ensures
            final(self).wf(),
            final(self).base == old(self).base,
            final(self).cur@ == old(self).cur@.insert(
                (Column::BlockHeader, block@.header.hash),
                RecordV::Header(block@.header),
            ).insert(
                (Column::BlockUncle, block@.header.hash),
                RecordV::UncleHeaders(block@.uncles),
            ).insert(
                (Column::BlockProposalIds, block@.header.hash),
                RecordV::Proposals(block@.proposals),
            ).insert((Column::BlockBody, block@.header.hash), RecordV::Body(block@.transactions)),
            r is Ok,
    {
        let hash = &block.header.hash;
        let header_rec = Record::Header(block.header.duplicate());
        if let Err(e) = self.insert_raw(Column::BlockHeader, copy_bytes(hash), header_rec) {
            return Err(e);
        }
        let uncles_rec = Record::UncleHeaders(crate::types::copy_headers(&block.uncles));
        proof {
            assert(uncles_rec@ == RecordV::UncleHeaders(block@.uncles)) by {
                match uncles_rec@ {
                    RecordV::UncleHeaders(s) => {
                        assert(s =~= block@.uncles);
                    },
                    _ => {},
                }
            }
        }
        if let Err(e) = self.insert_raw(Column::BlockUncle, copy_bytes(hash), uncles_rec) {
            return Err(e);
        }
        let props_rec = Record::Proposals(crate::types::copy_byte_lists(&block.proposals));
        proof {
            assert(props_rec@ == RecordV::Proposals(block@.proposals)) by {
                match props_rec@ {
                    RecordV::Proposals(s) => {
                        assert(s =~= block@.proposals);
                    },
                    _ => {},
                }
            }
        }
        if let Err(e) = self.insert_raw(Column::BlockProposalIds, copy_bytes(hash), props_rec) {
            return Err(e);
        }
        let body_rec = Record::Body(crate::types::copy_transactions(&block.transactions));
        proof {
            assert(body_rec@ == RecordV::Body(block@.transactions)) by {
                match body_rec@ {
                    RecordV::Body(s) => {
                        assert(s =~= block@.transactions);
                    },
                    _ => {},
                }
            }
        }
        self.insert_raw(Column::BlockBody, copy_bytes(hash), body_rec)
    }

    /// Stages the block extension under the block hash.
    pub fn insert_block_ext(&mut self, block_hash: &Vec<u8>, ext: &BlockExt) -> (r: Result<
        (),
        InternalError,
    >)
        requires
            old(self).wf(),
        ensures
            final(self).wf(),
            final(self).base == old(self).base,
            final(self).cur@ == old(self).cur@.insert(
                (Column::BlockExt, block_hash@),
                RecordV::Ext(*ext),
            ),
            r is Ok,
    {
        self.insert_raw(Column::BlockExt, copy_bytes(block_hash), Record::Ext(*ext))
    }

    /// Stages, for every transaction of the block, its info record and one
    /// cell record per output, then the number and hash index entries and
    /// one presence marker per uncle.
    pub fn attach_block(&mut self, block: &Block) -> (r: Result<(), InternalError>)
        requires
            old(self).wf(),
            crate::types::outputs_bounded(block@),
        ensures
            final(self).wf(),
            final(self).base == old(self).base,
            final(self).cur@ == attach_records(old(self).cur@, block@),
            r is Ok,
    {
        let hash = &block.header.hash;
        let mut i: usize = 0;
        while i < block.transactions.len()
            invariant
                self.wf(),
                self.base == old(self).base,
                crate::types::outputs_bounded(block@),
                i <= block.transactions.len(),
                self.cur@ == tx_records(old(self).cur@, block@, i as int),
            decreases block.transactions.len() - i,
        {
            let tx = &block.transactions[i];
            let info = TransactionInfo {
                block_hash: copy_bytes(&block.header.hash),
                block_number: block.header.number,
                block_epoch: block.header.epoch,
                index: i as u64,
            };
            proof {
                assert(block@.transactions[i as int] == block.transactions[i as int]@);
                assert(tx.hash@ == block@.transactions[i as int].hash);
                assert(info@ == tx_info_v(block@, i as int));
            }
            let info_rec = Record::Info(info);
            proof {
                assert(info_rec@ == RecordV::Info(tx_info_v(block@, i as int)));
            }
            if let Err(e) = self.insert_raw(
                Column::TransactionInfo,
                copy_bytes(&tx.hash),
                info_rec,
            ) {
                return Err(e);
            }
            proof {
                assert(self.cur@ == tx_records(old(self).cur@, block@, i as int).insert(
                    (Column::TransactionInfo, block@.transactions[i as int].hash),
                    RecordV::Info(tx_info_v(block@, i as int)),
                ));
            }
            let mut j: usize = 0;
            while j < tx.outputs.len()
                invariant
                    self.wf(),
                    self.base == old(self).base,
                    j <= tx.outputs.len(),
                    i < block.transactions.len(),
                    tx == &block.transactions[i as int],
                    block@.transactions[i as int].outputs.len() <= u32::MAX,
                    self.cur@ == cell_records(
                        tx_records(old(self).cur@, block@, i as int).insert(
                            (Column::TransactionInfo, block@.transactions[i as int].hash),
                            RecordV::Info(tx_info_v(block@, i as int)),
                        ),
                        block@,
                        i as int,
                        j as int,
                    ),
                decreases tx.outputs.len() - j,
            {
                let out = &tx.outputs[j];
                let data = CellMeta { capacity: out.capacity, data_hash: copy_bytes(&out.data_hash) };
                let key = cell_key(&tx.hash, j as u32);
                if let Err(e) = self.insert_raw(Column::CellMeta, key, Record::Cell(data)) {
                    return Err(e);
                }
                j = j + 1;
            }
            i = i + 1;
            proof {
                assert(self.cur@ == tx_records(old(self).cur@, block@, i as int));
            }
        }
        if let Err(e) = self.insert_raw(
            Column::Index,
            number_key(block.header.number),
            Record::HashValue(copy_bytes(hash)),
        ) {
            return Err(e);
        }
        let mut u: usize = 0;
        while u < block.uncles.len()
            invariant
                self.wf(),
                self.base == old(self).base,
                u <= block.uncles.len(),
                self.cur@ == uncle_records(
                    tx_records(old(self).cur@, block@, block@.transactions.len() as int).insert(
                        (Column::Index, number_key_spec(block@.header.number)),
                        RecordV::HashValue(block@.header.hash),
                    ),
                    block@,
                    u as int,
                ),
            decreases block.uncles.len() - u,
        {
            if let Err(e) = self.insert_raw(
                Column::Uncles,
                copy_bytes(&block.uncles[u].hash),
                Record::Marker,
            ) {
                return Err(e);
            }
            u = u + 1;
        }
        self.insert_raw(Column::Index, copy_bytes(hash), Record::NumberValue(block.header.number))
    }

    /// Deletes every pair the matching [`StoreTransaction::attach_block`]
    /// staged: the info and cell records of every transaction, the uncle
    /// markers and the two index entries.
    pub fn detach_block(&mut self, block: &Block) -> (r: Result<(), InternalError>)
        requires
            old(self).wf(),
            crate::types::outputs_bounded(block@),
        ensures
            final(self).wf(),
            final(self).base == old(self).base,
            final(self).cur@ == detach_records(old(self).cur@, block@),
            r is Ok,
    {
        let mut i: usize = 0;
        while i < block.transactions.len()
            invariant
                self.wf(),
                self.base == old(self).base,
                crate::types::outputs_bounded(block@),
                i <= block.transactions.len(),
                self.cur@ == tx_removals(old(self).cur@, block@, i as int),
            decreases block.transactions.len() - i,
        {
            let tx = &block.transactions[i];
            if let Err(e) = self.delete(Column::TransactionInfo, &tx.hash) {
                return Err(e);
            }
            proof {
                assert(block@.transactions[i as int] == block.transactions[i as int]@);
                assert(tx.hash@ == block@.transactions[i as int].hash);
            }
            let mut j: usize = 0;
            while j < tx.outputs.len()
                invariant
                    self.wf(),
                    self.base == old(self).base,
                    j <= tx.outputs.len(),
                    i < block.transactions.len(),
                    tx == &block.transactions[i as int],
                    block@.transactions[i as int].outputs.len() <= u32::MAX,
                    self.cur@ == cell_removals(
                        tx_removals(old(self).cur@, block@, i as int).remove(
                            (Column::TransactionInfo, block@.transactions[i as int].hash),
                        ),
                        block@,
                        i as int,
                        j as int,
                    ),
                decreases tx.outputs.len() - j,
            {
                let key = cell_key(&tx.hash, j as u32);
                if let Err(e) = self.delete(Column::CellMeta, &key) {
                    return Err(e);
                }
                j = j + 1;
            }
            i = i + 1;
            proof {
                assert(self.cur@ == tx_removals(old(self).cur@, block@, i as int));
            }
        }
        let mut u: usize = 0;
        while u < block.uncles.len()
            invariant
                self.wf(),
                self.base == old(self).base,
                u <= block.uncles.len(),
                self.cur@ == uncle_removals(
                    tx_removals(old(self).cur@, block@, block@.transactions.len() as int),
                    block@,
                    u as int,
                ),
            decreases block.uncles.len() - u,
        {
            if let Err(e) = self.delete(Column::Uncles, &block.uncles[u].hash) {
                return Err(e);
            }
            u = u + 1;
        }
        let num_key = number_key(block.header.number);
        if let Err(e) = self.delete(Column::Index, &num_key) {
            return Err(e);
        }
        self.delete(Column::Index, &block.header.hash)
    }
}

/// The in-memory index and the staged store view moved together by the
/// cell-set phase of a block attach or detach.
pub ghost struct CellPhase {
    /// The metas freshly built for the block's own transactions.
    pub metas: Seq<MetaV>,
    /// The in-memory cell-set index.
    pub cs: Map<Seq<u8>, MetaV>,
    /// The transaction's staged store view.
    pub st: Map<(Column, Seq<u8>), RecordV>,
}

/// Some transaction of the block carries this hash.
pub open spec fn is_block_tx(b: BlockV, h: Seq<u8>) -> bool {
    exists|t: int| 0 <= t < b.transactions.len() && b.transactions[t].hash == h
}

/// The index of the block transaction carrying this hash; determined when
/// the block's transaction hashes are distinct.
pub open spec fn block_tx_index(b: BlockV, h: Seq<u8>) -> int {
    choose|t: int| 0 <= t < b.transactions.len() && b.transactions[t].hash == h
}

/// The meta consulted for a spend of an earlier transaction: the in-memory
/// index first, the staged store view as the read-through fallback.
pub open spec fn spend_lookup(
    cs: Map<Seq<u8>, MetaV>,
    st: Map<(Column, Seq<u8>), RecordV>,
    h: Seq<u8>,
) -> Option<MetaV> {
    if cs.contains_key(h) {
        Some(cs[h])
    } else {
        meta_record_of(st, h)
    }
}

/// One input applied during attach: a spend of a block transaction marks
/// the freshly built meta; a spend of an earlier transaction marks the
/// indexed meta and stages it; a spend that resolves to nothing, or a
/// placeholder input, changes nothing.
pub open spec fn apply_spend(ph: CellPhase, b: BlockV, op: OutPointV) -> CellPhase {
    match op.cell {
        None => ph,
        Some(c) => if is_block_tx(b, c.tx_hash) {
            let t = block_tx_index(b, c.tx_hash);
            CellPhase { metas: ph.metas.update(t, crate::meta::set_bit(ph.metas[t], c.index as int)), ..ph }
        } else {
            match spend_lookup(ph.cs, ph.st, c.tx_hash) {
                None => ph,
                Some(m) => {
                    let m2 = crate::meta::set_bit(m, c.index as int);
                    CellPhase {
                        cs: ph.cs.insert(c.tx_hash, m2),
                        st: ph.st.insert((Column::CellSet, c.tx_hash), RecordV::Meta(m2)),
                        ..ph
                    }
                },
            }
        },
    }
}

/// The phase after applying inputs `0..k` of transaction `t`.
pub open spec fn spends_tx(ph: CellPhase, b: BlockV, t: int, k: int) -> CellPhase
    decreases k,
{
    if k <= 0 {
        ph
    } else {
        apply_spend(spends_tx(ph, b, t, k - 1), b, b.transactions[t].inputs[k - 1])
    }
}

/// The phase after applying every input of transactions `0..t`.
pub open spec fn spends_block(ph: CellPhase, b: BlockV, t: int) -> CellPhase
    decreases t,
{
    if t <= 0 {
        ph
    } else {
        spends_tx(spends_block(ph, b, t - 1), b, t - 1, b.transactions[t - 1].inputs.len() as int)
    }
}

/// The fresh metas a block attach builds: one per transaction, sized to
/// its output count, every bit live, tagged cellbase where the transaction
/// is one.
pub open spec fn initial_metas(b: BlockV) -> Seq<MetaV> {
    Seq::new(
        b.transactions.len() as nat,
        |t: int| crate::meta::fresh_meta(
            b.header.number,
            b.header.epoch,
            b.header.hash,
            b.transactions[t].cellbase,
            b.transactions[t].outputs.len(),
            false,
        ),
    )
}

/// The phase after installing the fresh metas of transactions `0..t` into
/// the index and the staged store view.
pub open spec fn install_metas(ph: CellPhase, b: BlockV, t: int) -> CellPhase
    decreases t,
{
    if t <= 0 {
        ph
    } else {
        let p = install_metas(ph, b, t - 1);
        CellPhase {
            cs: p.cs.insert(b.transactions[t - 1].hash, p.metas[t - 1]),
            st: p.st.insert((Column::CellSet, b.transactions[t - 1].hash), RecordV::Meta(p.metas[t - 1])),
            ..p
        }
    }
}

/// Installing metas leaves the fresh-meta sequence itself untouched.
pub proof fn lemma_install_metas_keeps_metas(ph: CellPhase, b: BlockV, t: int)
    ensures
        install_metas(ph, b, t).metas == ph.metas,
    decreases t,
{
    if t > 0 {
        lemma_install_metas_keeps_metas(ph, b, t - 1);
    }
}

/// Everything `attach_block_cell` does to the index and the staged view.
pub open spec fn attach_cell_result(
    cs0: Map<Seq<u8>, MetaV>,
    st0: Map<(Column, Seq<u8>), RecordV>,
    b: BlockV,
) -> CellPhase {
    let n = b.transactions.len() as int;
    install_metas(
        spends_block(CellPhase { metas: initial_metas(b), cs: cs0, st: st0 }, b, n),
        b,
        n,
    )
}

/// One input applied during detach: a spend of one of the block's own
/// transactions is skipped (its meta is removed outright); a spend of an
/// earlier transaction has its dead bit cleared again.
pub open spec fn apply_unspend(ph: CellPhase, b: BlockV, op: OutPointV) -> CellPhase {
    match op.cell {
        None => ph,
        Some(c) => if is_block_tx(b, c.tx_hash) {
            ph
        } else {
            match spend_lookup(ph.cs, ph.st, c.tx_hash) {
                None => ph,
                Some(m) => {
                    let m2 = crate::meta::clear_bit(m, c.index as int);
                    CellPhase {
                        cs: ph.cs.insert(c.tx_hash, m2),
                        st: ph.st.insert((Column::CellSet, c.tx_hash), RecordV::Meta(m2)),
                        ..ph
                    }
                },
            }
        },
    }
}

/// The phase after unapplying inputs `0..k` of transaction `t`.
pub open spec fn unspends_tx(ph: CellPhase, b: BlockV, t: int, k: int) -> CellPhase
    decreases k,
{
    if k <= 0 {
        ph
    } else {
        apply_unspend(unspends_tx(ph, b, t, k - 1), b, b.transactions[t].inputs[k - 1])
    }
}

/// The phase after unapplying every input of transactions `0..t`.
pub open spec fn unspends_block(ph: CellPhase, b: BlockV, t: int) -> CellPhase
    decreases t,
{
    if t <= 0 {
        ph
    } else {
        unspends_tx(
            unspends_block(ph, b, t - 1),
            b,
            t - 1,
            b.transactions[t - 1].inputs.len() as int,
        )
    }
}

/// The phase after removing the metas of transactions `0..t` from the
/// index and the staged view.
pub open spec fn remove_metas(ph: CellPhase, b: BlockV, t: int) -> CellPhase
    decreases t,
{
    if t <= 0 {
        ph
    } else {
        let p = remove_metas(ph, b, t - 1);
        CellPhase {
            cs: p.cs.remove(b.transactions[t - 1].hash),
            st: p.st.remove((Column::CellSet, b.transactions[t - 1].hash)),
            ..p
        }
    }
}

/// Everything `detach_block_cell` does to the index and the staged view.
pub open spec fn detach_cell_result(
    cs0: Map<Seq<u8>, MetaV>,
    st0: Map<(Column, Seq<u8>), RecordV>,
    b: BlockV,
) -> CellPhase {
    let n = b.transactions.len() as int;
    remove_metas(
        unspends_block(CellPhase { metas: Seq::empty(), cs: cs0, st: st0 }, b, n),
        b,
        n,
    )
}

/// The index of the first block transaction carrying this hash, if any.
fn find_block_tx(block: &Block, h: &Vec<u8>) -> (r: Option<usize>)
    ensures
        match r {
            Some(t) => t < block@.transactions.len() && block@.transactions[t as int].hash == h@,
            None => !is_block_tx(block@, h@),
        },
{
    let mut t: usize = 0;
    while t < block.transactions.len()
        invariant
            t <= block.transactions.len(),
            forall|x: int| 0 <= x < t ==> block@.transactions[x].hash != h@,
        decreases block.transactions.len() - t,
    {
        if crate::types::bytes_eq(&block.transactions[t].hash, h) {
            return Some(t);
        }
        t = t + 1;
    }
    None
}

impl StoreTransaction {
    /// For each transaction of the block builds a fresh all-live meta, then
    /// marks every output the block's inputs spend — in the fresh metas for
    /// spends within the block, in the index (read through to the store)
    /// for spends of earlier transactions — and finally installs the fresh
    /// metas into the index and the staged view.
    pub fn attach_block_cell(&mut self, block: &Block, cell_set: &mut CellSet) -> (r: Result<
        (),
        InternalError,
    >)
        requires
            old(self).wf(),
            crate::types::tx_hashes_distinct(block@),
        ensures
            final(self).wf(),
            final(self).base == old(self).base,
            final(cell_set)@ == attach_cell_result(old(cell_set)@, old(self).cur@, block@).cs,
            final(self).cur@ == attach_cell_result(old(cell_set)@, old(self).cur@, block@).st,
            r is Ok,
    {
        let ghost b = block@;
        let ghost ph0 = CellPhase { metas: initial_metas(b), cs: old(cell_set)@, st: old(self).cur@ };
        let mut metas: Vec<TransactionMeta> = Vec::new();
        let mut t: usize = 0;
        while t < block.transactions.len()
            invariant
                t <= block.transactions.len(),
                b == block@,
                metas@.len() == t,
                forall|x: int| 0 <= x < t ==> metas@[x]@ == initial_metas(b)[x],
            decreases block.transactions.len() - t,
        {
            let tx = &block.transactions[t];
            let outputs_count = tx.outputs.len();
            let m = if tx.cellbase {
                TransactionMeta::new_cellbase(
                    block.header.number,
                    block.header.epoch,
                    copy_bytes(&block.header.hash),
                    outputs_count,
                    false,
                )
            } else {
                TransactionMeta::new(
                    block.header.number,
                    block.header.epoch,
                    copy_bytes(&block.header.hash),
                    outputs_count,
                    false,
                )
            };
            metas.push(m);
            t = t + 1;
        }
        let mut t: usize = 0;
        while t < block.transactions.len()
            invariant
                self.wf(),
                self.base == old(self).base,
                t <= block.transactions.len(),
                b == block@,
                crate::types::tx_hashes_distinct(b),
                metas@.len() == b.transactions.len(),
                Seq::new(metas@.len(), |x: int| metas@[x]@) == spends_block(ph0, b, t as int).metas,
                cell_set@ == spends_block(ph0, b, t as int).cs,
                self.cur@ == spends_block(ph0, b, t as int).st,
                ph0 == (CellPhase { metas: initial_metas(b), cs: old(cell_set)@, st: old(self).cur@ }),
            decreases block.transactions.len() - t,
        {
            let tx = &block.transactions[t];
            let mut k: usize = 0;
            while k < tx.inputs.len()
                invariant
                    self.wf(),
                    self.base == old(self).base,
                    t < block.transactions.len(),
                    k <= tx.inputs.len(),
                    b == block@,
                    crate::types::tx_hashes_distinct(b),
                    tx == &block.transactions[t as int],
                    metas@.len() == b.transactions.len(),
                    Seq::new(metas@.len(), |x: int| metas@[x]@) == spends_tx(
                        spends_block(ph0, b, t as int),
                        b,
                        t as int,
                        k as int,
                    ).metas,
                    cell_set@ == spends_tx(spends_block(ph0, b, t as int), b, t as int, k as int).cs,
                    self.cur@ == spends_tx(spends_block(ph0, b, t as int), b, t as int, k as int).st,
                decreases tx.inputs.len() - k,
            {
                let ghost ph_pre = spends_tx(spends_block(ph0, b, t as int), b, t as int, k as int);
                let ghost inp = b.transactions[t as int].inputs[k as int];
                proof {
                    assert(block@.transactions[t as int] == block.transactions[t as int]@);
                    assert(inp == tx.inputs[k as int]@);
                    assert(spends_tx(spends_block(ph0, b, t as int), b, t as int, k as int + 1)
                        == apply_spend(ph_pre, b, inp));
                }
                let input = &tx.inputs[k];
                match &input.cell {
                    Some(c) => {
                        match find_block_tx(block, &c.tx_hash) {
                            Some(idx) => {
                                proof {
                                    assert(is_block_tx(b, c.tx_hash@));
                                    let t2 = block_tx_index(b, c.tx_hash@);
                                    assert(b.transactions[t2].hash == c.tx_hash@);
                                    assert(t2 == idx as int);
                                }
                                let mut m = (&metas[idx]).duplicate();
                                m.set_dead(c.index as usize);
                                metas.set(idx, m);
                                proof {
                                    assert(Seq::new(metas@.len(), |x: int| metas@[x]@)
                                        =~= apply_spend(ph_pre, b, inp).metas);
                                }
                            },
                            None => {
                                proof {
                                    assert(!is_block_tx(b, c.tx_hash@));
                                }
                                let looked: Option<TransactionMeta> = match cell_set.get(
                                    &c.tx_hash,
                                ) {
                                    Some(m) => Some(m),
                                    None => self.get_tx_meta(&c.tx_hash),
                                };
                                match looked {
                                    Some(mut m2) => {
                                        proof {
                                            assert(spend_lookup(ph_pre.cs, ph_pre.st, c.tx_hash@)
                                                == Some(m2@));
                                        }
                                        m2.set_dead(c.index as usize);
                                        if let Err(e) = self.update_cell_set(&c.tx_hash, &m2) {
                                            return Err(e);
                                        }
                                        cell_set.insert(copy_bytes(&c.tx_hash), m2);
                                        proof {
                                            assert(Seq::new(metas@.len(), |x: int| metas@[x]@)
                                                =~= apply_spend(ph_pre, b, inp).metas);
                                        }
                                    },
                                    None => {
                                        proof {
                                            assert(spend_lookup(ph_pre.cs, ph_pre.st, c.tx_hash@)
                                                is None);
                                        }
                                    },
                                }
                            },
                        }
                    },
                    None => {
                    },
                }
                k = k + 1;
            }
            t = t + 1;
            proof {
                assert(spends_block(ph0, b, t as int) == spends_tx(
                    spends_block(ph0, b, t as int - 1),
                    b,
                    t as int - 1,
                    b.transactions[t as int - 1].inputs.len() as int,
                ));
            }
        }
        let ghost ph2 = spends_block(ph0, b, b.transactions.len() as int);
        let mut t: usize = 0;
        while t < block.transactions.len()
            invariant
                self.wf(),
                self.base == old(self).base,
                t <= block.transactions.len(),
                b == block@,
                metas@.len() == b.transactions.len(),
                Seq::new(metas@.len(), |x: int| metas@[x]@) == ph2.metas,
                cell_set@ == install_metas(ph2, b, t as int).cs,
                self.cur@ == install_metas(ph2, b, t as int).st,
                ph2 == spends_block(
                    CellPhase { metas: initial_metas(b), cs: old(cell_set)@, st: old(self).cur@ },
                    b,
                    b.transactions.len() as int,
                ),
            decreases block.transactions.len() - t,
        {
            let tx = &block.transactions[t];
            proof {
                assert(block@.transactions[t as int] == block.transactions[t as int]@);
                assert((&metas[t as int])@ == ph2.metas[t as int]);
                lemma_install_metas_keeps_metas(ph2, b, t as int);
            }
            if let Err(e) = self.update_cell_set(&tx.hash, &metas[t]) {
                return Err(e);
            }
            cell_set.insert(copy_bytes(&tx.hash), (&metas[t]).duplicate());
            proof {
                assert(cell_set@ == install_metas(ph2, b, t as int + 1).cs);
                assert(self.cur@ == install_metas(ph2, b, t as int + 1).st);
            }
            t = t + 1;
        }
        Ok(())
    }

    /// Clears the dead bits this block's inputs had set on outputs of
    /// earlier transactions — skipping spends of the block's own
    /// transactions, whose metas are removed outright — then removes every
    /// meta the block created from the index and the staged view.
    pub fn detach_block_cell(&mut self, block: &Block, cell_set: &mut CellSet) -> (r: Result<
        (),
        InternalError,
    >)
        requires
            old(self).wf(),
        ensures
            final(self).wf(),
            final(self).base == old(self).base,
            final(cell_set)@ == detach_cell_result(old(cell_set)@, old(self).cur@, block@).cs,
            final(self).cur@ == detach_cell_result(old(cell_set)@, old(self).cur@, block@).st,
            r is Ok,
    {
        let ghost b = block@;
        let ghost ph0 = CellPhase { metas: Seq::empty(), cs: old(cell_set)@, st: old(self).cur@ };
        let mut t: usize = 0;
        while t < block.transactions.len()
            invariant
                self.wf(),
                self.base == old(self).base,
                t <= block.transactions.len(),
                b == block@,
                cell_set@ == unspends_block(ph0, b, t as int).cs,
                self.cur@ == unspends_block(ph0, b, t as int).st,
                ph0 == (CellPhase { metas: Seq::empty(), cs: old(cell_set)@, st: old(self).cur@ }),
            decreases block.transactions.len() - t,
        {
            let tx = &block.transactions[t];
            let mut k: usize = 0;
            while k < tx.inputs.len()
                invariant
                    self.wf(),
                    self.base == old(self).base,
                    t < block.transactions.len(),
                    k <= tx.inputs.len(),
                    b == block@,
                    tx == &block.transactions[t as int],
                    cell_set@ == unspends_tx(unspends_block(ph0, b, t as int), b, t as int, k as int).cs,
                    self.cur@ == unspends_tx(unspends_block(ph0, b, t as int), b, t as int, k as int).st,
                decreases tx.inputs.len() - k,
            {
                let ghost ph_pre = unspends_tx(unspends_block(ph0, b, t as int), b, t as int, k as int);
                let ghost inp = b.transactions[t as int].inputs[k as int];
                proof {
                    assert(block@.transactions[t as int] == block.transactions[t as int]@);
                    assert(inp == tx.inputs[k as int]@);
                    assert(unspends_tx(unspends_block(ph0, b, t as int), b, t as int, k as int + 1)
                        == apply_unspend(ph_pre, b, inp));
                }
                let input = &tx.inputs[k];
                match &input.cell {
                    Some(c) => {
                        match find_block_tx(block, &c.tx_hash) {
                            Some(_) => {
                                proof {
                                    assert(is_block_tx(b, c.tx_hash@));
                                }
                            },
                            None => {
                                proof {
                                    assert(!is_block_tx(b, c.tx_hash@));
                                }
                                let looked: Option<TransactionMeta> = match cell_set.get(
                                    &c.tx_hash,
                                ) {
                                    Some(m) => Some(m),
                                    None => self.get_tx_meta(&c.tx_hash),
                                };
                                match looked {
                                    Some(mut m2) => {
                                        proof {
                                            assert(spend_lookup(ph_pre.cs, ph_pre.st, c.tx_hash@)
                                                == Some(m2@));
                                        }
                                        m2.unset_dead(c.index as usize);
                                        if let Err(e) = self.update_cell_set(&c.tx_hash, &m2) {
                                            return Err(e);
                                        }
                                        cell_set.insert(copy_bytes(&c.tx_hash), m2);
                                    },
                                    None => {
                                        proof {
                                            assert(spend_lookup(ph_pre.cs, ph_pre.st, c.tx_hash@)
                                                is None);
                                        }
                                    },
                                }
                            },
                        }
                    },
                    None => {
                    },
                }
                k = k + 1;
            }
            t = t + 1;
            proof {
                assert(unspends_block(ph0, b, t as int) == unspends_tx(
                    unspends_block(ph0, b, t as int - 1),
                    b,
                    t as int - 1,
                    b.transactions[t as int - 1].inputs.len() as int,
                ));
            }
        }
        let ghost ph2 = unspends_block(ph0, b, b.transactions.len() as int);
        let mut t: usize = 0;
        while t < block.transactions.len()
            invariant
                self.wf(),
                self.base == old(self).base,
                t <= block.transactions.len(),
                b == block@,
                cell_set@ == remove_metas(ph2, b, t as int).cs,
                self.cur@ == remove_metas(ph2, b, t as int).st,
                ph2 == unspends_block(
                    CellPhase { metas: Seq::empty(), cs: old(cell_set)@, st: old(self).cur@ },
                    b,
                    b.transactions.len() as int,
                ),
            decreases block.transactions.len() - t,
        {
            let tx = &block.transactions[t];
            proof {
                assert(block@.transactions[t as int] == block.transactions[t as int]@);
            }
            if let Err(e) = self.delete_cell_set(&tx.hash) {
                return Err(e);
            }
            cell_set.remove(&tx.hash);
            t = t + 1;
        }
        Ok(())
    }
}

impl StoreSnapshot {
    /// The record this snapshot holds under a pair.
    pub fn get(&self, col: Column, key: &Vec<u8>) -> (r: Option<&Record>)
        requires
            self.map.wf(),
        ensures
            match r {
                Some(rec) => self.map@.contains_key((col, key@)) && rec@ == self.map@[(
                    col,
                    key@,
                )],
                None => !self.map@.contains_key((col, key@)),
            },
    {
        self.map.get(col, key)
    }
}

} // verus!
