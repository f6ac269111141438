//! Domain records and the column-keyed layout of the store.
//!
//! Keys are byte strings; a 32-byte hash identifies a block, a transaction or
//! an uncle, an 8-byte little-endian string encodes a number, and a cell key
//! joins a transaction hash with a 4-byte big-endian output index.  Values are
//! typed records; their wire encoding is delegated to an external codec layer
//! and is treated as an opaque bijective pair, so the store holds the records
//! themselves.

use vstd::prelude::*;
use crate::meta::{copy_bytes, TransactionMeta, MetaV};

verus! {

/// The number of bytes in a block, transaction or uncle hash.
pub const HASH_LEN: usize = 32;

/// A logical namespace (column) of the keyed store.
#[derive(Debug, PartialEq, Eq, Structural, Clone, Copy)]
pub enum Column {
    /// Block header, keyed by block hash.
    BlockHeader,
    /// Ordered transaction list, keyed by block hash.
    BlockBody,
    /// Uncle headers, keyed by block hash.
    BlockUncle,
    /// Proposal short-id list, keyed by block hash.
    BlockProposalIds,
    /// Block extension, keyed by block hash.
    BlockExt,
    /// Epoch hash, keyed by block hash.
    BlockEpoch,
    /// Static per-output data, keyed by cell key.
    CellMeta,
    /// Transaction meta bitmap, keyed by transaction hash.
    CellSet,
    /// Epoch extension, dual-keyed by epoch hash and by epoch number.
    Epoch,
    /// Block number by hash and block hash by number.
    Index,
    /// Singleton entries: the tip and the current epoch.
    Meta,
    /// Transaction info, keyed by transaction hash.
    TransactionInfo,
    /// Uncle-presence markers, keyed by uncle hash.
    Uncles,
}

/// A reference to one output of a transaction.
pub struct CellOutPoint {
    /// Hash of the transaction that created the output.
    pub tx_hash: Vec<u8>,
    /// Index of the output within that transaction.
    pub index: u32,
}

/// Model of a [`CellOutPoint`].
pub ghost struct CellOutPointV {
    pub tx_hash: Seq<u8>,
    pub index: u32,
}

impl View for CellOutPoint {
    type V = CellOutPointV;

    open spec fn view(&self) -> CellOutPointV {
        CellOutPointV { tx_hash: self.tx_hash@, index: self.index }
    }
}

/// An input reference: optionally a concrete cell, optionally a block that
/// must commit the referenced transaction.
pub struct OutPoint {
    /// The block named by a conditional block-commitment reference.
    pub block_hash: Option<Vec<u8>>,
    /// The concrete output referred to; `None` marks a placeholder reference.
    pub cell: Option<CellOutPoint>,
}

/// Model of an [`OutPoint`].
pub ghost struct OutPointV {
    pub block_hash: Option<Seq<u8>>,
    pub cell: Option<CellOutPointV>,
}

impl View for OutPoint {
    type V = OutPointV;

    open spec fn view(&self) -> OutPointV {
        OutPointV {
            block_hash: match self.block_hash {
                Some(ref h) => Some(h@),
                None => None,
            },
            cell: match self.cell {
                Some(ref c) => Some(c@),
                None => None,
            },
        }
    }
}

/// One output of a transaction: its capacity and the hash of its data.
pub struct CellOutput {
    pub capacity: u64,
    pub data_hash: Vec<u8>,
}

/// Model of a [`CellOutput`].
pub ghost struct CellOutputV {
    pub capacity: u64,
    pub data_hash: Seq<u8>,
}

impl View for CellOutput {
    type V = CellOutputV;

    open spec fn view(&self) -> CellOutputV {
        CellOutputV { capacity: self.capacity, data_hash: self.data_hash@ }
    }
}

/// A transaction: its hash, inputs, outputs and cellbase tag.
pub struct Transaction {
    pub hash: Vec<u8>,
    pub inputs: Vec<OutPoint>,
    pub outputs: Vec<CellOutput>,
    pub cellbase: bool,
}

/// Model of a [`Transaction`].
pub ghost struct TransactionV {
    pub hash: Seq<u8>,
    pub inputs: Seq<OutPointV>,
    pub outputs: Seq<CellOutputV>,
    pub cellbase: bool,
}

impl View for Transaction {
    type V = TransactionV;

    open spec fn view(&self) -> TransactionV {
        TransactionV {
            hash: self.hash@,
            inputs: Seq::new(self.inputs.len() as nat, |i: int| self.inputs[i]@),
            outputs: Seq::new(self.outputs.len() as nat, |i: int| self.outputs[i]@),
            cellbase: self.cellbase,
        }
    }
}

/// A block header.
pub struct Header {
    pub hash: Vec<u8>,
    pub parent_hash: Vec<u8>,
    pub number: u64,
    pub epoch: u64,
    pub timestamp: u64,
}

/// Model of a [`Header`].
pub ghost struct HeaderV {
    pub hash: Seq<u8>,
    pub parent_hash: Seq<u8>,
    pub number: u64,
    pub epoch: u64,
    pub timestamp: u64,
}

impl View for Header {
    type V = HeaderV;

    open spec fn view(&self) -> HeaderV {
        HeaderV {
            hash: self.hash@,
            parent_hash: self.parent_hash@,
            number: self.number,
            epoch: self.epoch,
            timestamp: self.timestamp,
        }
    }
}

/// A block: header, transactions, uncle headers and proposal short ids.
pub struct Block {
    pub header: Header,
    pub transactions: Vec<Transaction>,
    pub uncles: Vec<Header>,
    pub proposals: Vec<Vec<u8>>,
}

/// Model of a [`Block`].
pub ghost struct BlockV {
    pub header: HeaderV,
    pub transactions: Seq<TransactionV>,
    pub uncles: Seq<HeaderV>,
    pub proposals: Seq<Seq<u8>>,
}

impl View for Block {
    type V = BlockV;

    open spec fn view(&self) -> BlockV {
        BlockV {
            header: self.header@,
            transactions: Seq::new(
                self.transactions.len() as nat,
                |i: int| self.transactions[i]@,
            ),
            uncles: Seq::new(self.uncles.len() as nat, |i: int| self.uncles[i]@),
            proposals: Seq::new(self.proposals.len() as nat, |i: int| self.proposals[i]@),
        }
    }
}

/// Accumulated difficulty and verification state of a stored block.
#[derive(Clone, Copy)]
pub struct BlockExt {
    pub total_difficulty: u64,
    pub verified: Option<bool>,
}

/// Consensus parameters of an epoch.
#[derive(Clone, Copy)]
pub struct EpochExt {
    pub number: u64,
    pub start_number: u64,
    pub length: u64,
    pub difficulty: u64,
}

/// Where a transaction was committed: block hash, number, epoch and the
/// transaction's index within the block.
pub struct TransactionInfo {
    pub block_hash: Vec<u8>,
    pub block_number: u64,
    pub block_epoch: u64,
    pub index: u64,
}

/// Model of a [`TransactionInfo`].
pub ghost struct TransactionInfoV {
    pub block_hash: Seq<u8>,
    pub block_number: u64,
    pub block_epoch: u64,
    pub index: u64,
}

impl View for TransactionInfo {
    type V = TransactionInfoV;

    open spec fn view(&self) -> TransactionInfoV {
        TransactionInfoV {
            block_hash: self.block_hash@,
            block_number: self.block_number,
            block_epoch: self.block_epoch,
            index: self.index,
        }
    }
}

/// The current best block reference.
pub struct Tip {
    pub header: Header,
    pub epoch: u64,
}

/// Model of a [`Tip`].
pub ghost struct TipV {
    pub header: HeaderV,
    pub epoch: u64,
}

impl View for Tip {
    type V = TipV;

    open spec fn view(&self) -> TipV {
        TipV { header: self.header@, epoch: self.epoch }
    }
}

/// Static per-output data handed to validation: capacity and data hash.
pub struct CellMeta {
    pub capacity: u64,
    pub data_hash: Vec<u8>,
}

/// Model of a [`CellMeta`].
pub ghost struct CellMetaV {
    pub capacity: u64,
    pub data_hash: Seq<u8>,
}

impl View for CellMeta {
    type V = CellMetaV;

    open spec fn view(&self) -> CellMetaV {
        CellMetaV { capacity: self.capacity, data_hash: self.data_hash@ }
    }
}

/// A typed value of the keyed store; the external codec renders each variant
/// as one byte string.
pub enum Record {
    Header(Header),
    Body(Vec<Transaction>),
    UncleHeaders(Vec<Header>),
    Proposals(Vec<Vec<u8>>),
    Ext(BlockExt),
    /// A raw hash stored as a value, as in the number-to-hash index.
    HashValue(Vec<u8>),
    /// A number stored as a value, as in the hash-to-number index.
    NumberValue(u64),
    /// An empty value whose presence alone carries information.
    Marker,
    Info(TransactionInfo),
    Cell(CellMeta),
    Meta(TransactionMeta),
    Epoch(EpochExt),
    Tip(Tip),
}

/// Model of a [`Record`].
pub ghost enum RecordV {
    Header(HeaderV),
    Body(Seq<TransactionV>),
    UncleHeaders(Seq<HeaderV>),
    Proposals(Seq<Seq<u8>>),
    Ext(BlockExt),
    HashValue(Seq<u8>),
    NumberValue(u64),
    Marker,
    Info(TransactionInfoV),
    Cell(CellMetaV),
    Meta(MetaV),
    Epoch(EpochExt),
    Tip(TipV),
}

impl View for Record {
    type V = RecordV;

    open spec fn view(&self) -> RecordV {
        match self {
            Record::Header(h) => RecordV::Header(h@),
            Record::Body(txs) => RecordV::Body(
                Seq::new(txs.len() as nat, |i: int| txs[i]@),
            ),
            Record::UncleHeaders(us) => RecordV::UncleHeaders(
                Seq::new(us.len() as nat, |i: int| us[i]@),
            ),
            Record::Proposals(ps) => RecordV::Proposals(
                Seq::new(ps.len() as nat, |i: int| ps[i]@),
            ),
            Record::Ext(e) => RecordV::Ext(*e),
            Record::HashValue(h) => RecordV::HashValue(h@),
            Record::NumberValue(n) => RecordV::NumberValue(*n),
            Record::Marker => RecordV::Marker,
            Record::Info(i) => RecordV::Info(i@),
            Record::Cell(c) => RecordV::Cell(c@),
            Record::Meta(m) => RecordV::Meta(m@),
            Record::Epoch(e) => RecordV::Epoch(*e),
            Record::Tip(t) => RecordV::Tip(t@),
        }
    }
}

/// The little-endian byte `i` of `n`.
pub open spec fn le_byte(n: u64, i: int) -> u8 {
    ((n >> (8 * i) as u64) & 0xff) as u8
}

/// The 8-byte little-endian key encoding a number.
pub open spec fn number_key_spec(n: u64) -> Seq<u8> {
    Seq::new(8, |i: int| le_byte(n, i))
}

/// Builds the 8-byte little-endian key of a number.
pub fn number_key(n: u64) -> (r: Vec<u8>)
    ensures
        r@ == number_key_spec(n),
{
    let mut r: Vec<u8> = Vec::new();
    let mut i: usize = 0;
    while i < 8
        invariant
            i <= 8,
            r@ == Seq::new(i as nat, |j: int| le_byte(n, j)),
        decreases 8 - i,
    {
        proof {
            assert((n >> (8 * i) as u64) & 0xff < 256) by (bit_vector);
        }
        r.push(((n >> (8 * i as u64)) & 0xff) as u8);
        proof {
            assert(r@ =~= Seq::new((i + 1) as nat, |j: int| le_byte(n, j)));
        }
        i = i + 1;
    }
    r
}

/// The big-endian byte `i` of a 32-bit output index.
pub open spec fn be32_byte(n: u32, i: int) -> u8 {
    ((n >> (8 * (3 - i)) as u32) & 0xff) as u8
}

/// The cell key of an output: the transaction hash followed by the 4-byte
/// big-endian output index.
pub open spec fn cell_key_spec(tx_hash: Seq<u8>, index: u32) -> Seq<u8> {
    tx_hash + Seq::new(4, |i: int| be32_byte(index, i))
}

/// Builds the cell key of an output.
pub fn cell_key(tx_hash: &Vec<u8>, index: u32) -> (r: Vec<u8>)
    ensures
        r@ == cell_key_spec(tx_hash@, index),
{
    let mut r = copy_bytes(tx_hash);
    let mut i: usize = 0;
    while i < 4
        invariant
            i <= 4,
            r@ == tx_hash@ + Seq::new(i as nat, |j: int| be32_byte(index, j)),
        decreases 4 - i,
    {
        let shift: u32 = 8 * (3 - i as u32);
        proof {
            let s = shift;
            assert((index >> s) & 0xff < 256) by (bit_vector);
        }
        r.push(((index >> shift) & 0xff) as u8);
        proof {
            assert(r@ =~= tx_hash@ + Seq::new((i + 1) as nat, |j: int| be32_byte(index, j)));
        }
        i = i + 1;
    }
    proof {
        assert(tx_hash@ + Seq::new(0, |j: int| be32_byte(index, j)) =~= tx_hash@);
    }
    r
}

/// Two cell keys over equal-length hashes agree only on the same output.
pub proof fn lemma_cell_key_injective(h1: Seq<u8>, i1: u32, h2: Seq<u8>, i2: u32)
    requires
        h1.len() == h2.len(),
        cell_key_spec(h1, i1) == cell_key_spec(h2, i2),
    ensures
        h1 == h2,
        i1 == i2,
{
    let k1 = cell_key_spec(h1, i1);
    let k2 = cell_key_spec(h2, i2);
    assert(h1 =~= k1.take(h1.len() as int));
    assert(h2 =~= k2.take(h2.len() as int));
    let n = h1.len() as int;
    let a = i1;
    let b = i2;
    assert((a >> 24) & 0xff < 256 && (a >> 16) & 0xff < 256 && (a >> 8) & 0xff < 256 && (a
        >> 0) & 0xff < 256) by (bit_vector);
    assert((b >> 24) & 0xff < 256 && (b >> 16) & 0xff < 256 && (b >> 8) & 0xff < 256 && (b
        >> 0) & 0xff < 256) by (bit_vector);
    assert(k1[n + 0] == be32_byte(i1, 0) && k2[n + 0] == be32_byte(i2, 0));
    assert(k1[n + 1] == be32_byte(i1, 1) && k2[n + 1] == be32_byte(i2, 1));
    assert(k1[n + 2] == be32_byte(i1, 2) && k2[n + 2] == be32_byte(i2, 2));
    assert(k1[n + 3] == be32_byte(i1, 3) && k2[n + 3] == be32_byte(i2, 3));
    assert((a >> 24) & 0xff == (b >> 24) & 0xff);
    assert((a >> 16) & 0xff == (b >> 16) & 0xff);
    assert((a >> 8) & 0xff == (b >> 8) & 0xff);
    assert((a >> 0) & 0xff == (b >> 0) & 0xff);
    assert(((a >> 24) & 0xff == (b >> 24) & 0xff && (a >> 16) & 0xff == (b >> 16) & 0xff && (a
        >> 8) & 0xff == (b >> 8) & 0xff && (a >> 0) & 0xff == (b >> 0) & 0xff) ==> a
        == b) by (bit_vector);
}

/// The fixed meta-column key under which the tip is stored.
pub fn tip_key() -> (r: Vec<u8>)
    ensures
        r@ == tip_key_spec(),
{
    let mut r: Vec<u8> = Vec::new();
    r.push(84);
    r.push(73);
    r.push(80);
    proof {
        assert(r@ =~= tip_key_spec());
    }
    r
}

/// The model of the tip key.
pub open spec fn tip_key_spec() -> Seq<u8> {
    seq![84u8, 73u8, 80u8]
}

/// The fixed meta-column key under which the current epoch is stored.
pub fn current_epoch_key() -> (r: Vec<u8>)
    ensures
        r@ == current_epoch_key_spec(),
{
    let mut r: Vec<u8> = Vec::new();
    r.push(69);
    r.push(80);
    r.push(79);
    r.push(67);
    r.push(72);
    proof {
        assert(r@ =~= current_epoch_key_spec());
    }
    r
}

/// The model of the current-epoch key.
pub open spec fn current_epoch_key_spec() -> Seq<u8> {
    seq![69u8, 80u8, 79u8, 67u8, 72u8]
}

impl CellOutPoint {
    /// An owned copy with the same model.
    pub fn duplicate(&self) -> (r: CellOutPoint)
        ensures
            r@ == self@,
    {
        CellOutPoint { tx_hash: copy_bytes(&self.tx_hash), index: self.index }
    }
}

impl OutPoint {
    /// An owned copy with the same model.
    pub fn duplicate(&self) -> (r: OutPoint)
        ensures
            r@ == self@,
    {
        OutPoint {
            block_hash: match &self.block_hash {
                Some(h) => Some(copy_bytes(h)),
                None => None,
            },
            cell: match &self.cell {
                Some(c) => Some(c.duplicate()),
                None => None,
            },
        }
    }
}

impl CellOutput {
    /// An owned copy with the same model.
    pub fn duplicate(&self) -> (r: CellOutput)
        ensures
            r@ == self@,
    {
        CellOutput { capacity: self.capacity, data_hash: copy_bytes(&self.data_hash) }
    }
}

impl Transaction {
    /// An owned copy with the same model.
    pub fn duplicate(&self) -> (r: Transaction)
        ensures
            r@ == self@,
    {
        let mut inputs: Vec<OutPoint> = Vec::new();
        let mut i: usize = 0;
        while i < self.inputs.len()
            invariant
                i <= self.inputs.len(),
                inputs@.len() == i,
                forall|j: int| 0 <= j < i ==> inputs@[j]@ == self.inputs@[j]@,
            decreases self.inputs.len() - i,
        {
            inputs.push(self.inputs[i].duplicate());
            i = i + 1;
        }
        let mut outputs: Vec<CellOutput> = Vec::new();
        let mut k: usize = 0;
        while k < self.outputs.len()
            invariant
                k <= self.outputs.len(),
                outputs@.len() == k,
                forall|j: int| 0 <= j < k ==> outputs@[j]@ == self.outputs@[j]@,
            decreases self.outputs.len() - k,
        {
            outputs.push(self.outputs[k].duplicate());
            k = k + 1;
        }
        let r = Transaction { hash: copy_bytes(&self.hash), inputs, outputs, cellbase: self.cellbase };
        proof {
            assert(r@.inputs =~= self@.inputs);
            assert(r@.outputs =~= self@.outputs);
        }
        r
    }
}

impl Header {
    /// An owned copy with the same model.
    pub fn duplicate(&self) -> (r: Header)
        ensures
            r@ == self@,
    {
        Header {
            hash: copy_bytes(&self.hash),
            parent_hash: copy_bytes(&self.parent_hash),
            number: self.number,
            epoch: self.epoch,
            timestamp: self.timestamp,
        }
    }
}

impl TransactionInfo {
    /// An owned copy with the same model.
    pub fn duplicate(&self) -> (r: TransactionInfo)
        ensures
            r@ == self@,
    {
        TransactionInfo {
            block_hash: copy_bytes(&self.block_hash),
            block_number: self.block_number,
            block_epoch: self.block_epoch,
            index: self.index,
        }
    }
}

impl Tip {
    /// An owned copy with the same model.
    pub fn duplicate(&self) -> (r: Tip)
        ensures
            r@ == self@,
    {
        Tip { header: self.header.duplicate(), epoch: self.epoch }
    }
}

impl CellMeta {
    /// An owned copy with the same model.
    pub fn duplicate(&self) -> (r: CellMeta)
        ensures
            r@ == self@,
    {
        CellMeta { capacity: self.capacity, data_hash: copy_bytes(&self.data_hash) }
    }
}

/// An owned copy of a transaction list, with the same models.
pub fn copy_transactions(v: &Vec<Transaction>) -> (r: Vec<Transaction>)
    ensures
        r@.len() == v@.len(),
        forall|j: int| 0 <= j < v@.len() ==> r@[j]@ == v@[j]@,
{
    let mut r: Vec<Transaction> = Vec::new();
    let mut i: usize = 0;
    while i < v.len()
        invariant
            i <= v.len(),
            r@.len() == i,
            forall|j: int| 0 <= j < i ==> r@[j]@ == v@[j]@,
        decreases v.len() - i,
    {
        r.push(v[i].duplicate());
        i = i + 1;
    }
    r
}

/// An owned copy of a header list, with the same models.
pub fn copy_headers(v: &Vec<Header>) -> (r: Vec<Header>)
    ensures
        r@.len() == v@.len(),
        forall|j: int| 0 <= j < v@.len() ==> r@[j]@ == v@[j]@,
{
    let mut r: Vec<Header> = Vec::new();
    let mut i: usize = 0;
    while i < v.len()
        invariant
            i <= v.len(),
            r@.len() == i,
            forall|j: int| 0 <= j < i ==> r@[j]@ == v@[j]@,
        decreases v.len() - i,
    {
        r.push(v[i].duplicate());
        i = i + 1;
    }
    r
}

/// An owned copy of a list of byte strings.
pub fn copy_byte_lists(v: &Vec<Vec<u8>>) -> (r: Vec<Vec<u8>>)
    ensures
        r@.len() == v@.len(),
        forall|j: int| 0 <= j < v@.len() ==> r@[j]@ == v@[j]@,
{
    let mut r: Vec<Vec<u8>> = Vec::new();
    let mut i: usize = 0;
    while i < v.len()
        invariant
            i <= v.len(),
            r@.len() == i,
            forall|j: int| 0 <= j < i ==> r@[j]@ == v@[j]@,
        decreases v.len() - i,
    {
        r.push(copy_bytes(&v[i]));
        i = i + 1;
    }
    r
}

impl Record {
    /// An owned copy with the same model.
    pub fn duplicate(&self) -> (r: Record)
        ensures
            r@ == self@,
    {
        match self {
            Record::Header(h) => Record::Header(h.duplicate()),
            Record::Body(txs) => {
                let r = Record::Body(copy_transactions(txs));
                proof {
                    assert(r@ == self@) by {
                        match (r@, self@) {
                            (RecordV::Body(a), RecordV::Body(b)) => {
                                assert(a =~= b);
                            },
                            _ => {},
                        }
                    }
                }
                r
            },
            Record::UncleHeaders(us) => {
                let r = Record::UncleHeaders(copy_headers(us));
                proof {
                    assert(r@ == self@) by {
                        match (r@, self@) {
                            (RecordV::UncleHeaders(a), RecordV::UncleHeaders(b)) => {
                                assert(a =~= b);
                            },
                            _ => {},
                        }
                    }
                }
                r
            },
            Record::Proposals(ps) => {
                let r = Record::Proposals(copy_byte_lists(ps));
                proof {
                    assert(r@ == self@) by {
                        match (r@, self@) {
                            (RecordV::Proposals(a), RecordV::Proposals(b)) => {
                                assert(a =~= b);
                            },
                            _ => {},
                        }
                    }
                }
                r
            },
            Record::Ext(e) => Record::Ext(*e),
            Record::HashValue(h) => Record::HashValue(copy_bytes(h)),
            Record::NumberValue(n) => Record::NumberValue(*n),
            Record::Marker => Record::Marker,
            Record::Info(i) => Record::Info(i.duplicate()),
            Record::Cell(c) => Record::Cell(c.duplicate()),
            Record::Meta(m) => Record::Meta(m.duplicate()),
            Record::Epoch(e) => Record::Epoch(*e),
            Record::Tip(t) => Record::Tip(t.duplicate()),
        }
    }
}

/// No two transactions of the block share a hash.
pub open spec fn tx_hashes_distinct(b: BlockV) -> bool {
    forall|i: int, j: int|
        0 <= i < j < b.transactions.len() ==> b.transactions[i].hash != b.transactions[j].hash
}

/// Every transaction's output count fits the 4-byte output index of a
/// cell key.
pub open spec fn outputs_bounded(b: BlockV) -> bool {
    forall|i: int| 0 <= i < b.transactions.len() ==> b.transactions[i].outputs.len() <= u32::MAX
}

/// The resolution of an output reference against the store.
pub enum CellStatus {
    /// The output exists and is unspent; its static data is attached.
    Live(CellMeta),
    /// The output exists but has been spent.
    Dead,
    /// No meta is recorded for the referenced transaction or output.
    Unknown,
    /// The reference names no concrete output.
    Unspecified,
}

/// Model of a [`CellStatus`].
pub ghost enum CellStatusV {
    Live(CellMetaV),
    Dead,
    Unknown,
    Unspecified,
}

impl View for CellStatus {
    type V = CellStatusV;

    open spec fn view(&self) -> CellStatusV {
        match self {
            CellStatus::Live(m) => CellStatusV::Live(m@),
            CellStatus::Dead => CellStatusV::Dead,
            CellStatus::Unknown => CellStatusV::Unknown,
            CellStatus::Unspecified => CellStatusV::Unspecified,
        }
    }
}

/// The resolution of a conditional block-commitment reference.
pub enum HeaderStatus {
    /// The named block is stored and commits the referenced transaction.
    Live(Header),
    /// The named block does not commit the referenced transaction.
    InclusionFailure,
    /// The named block hash is not stored at all.
    Unknown,
    /// The reference names no block.
    Unspecified,
}

/// Model of a [`HeaderStatus`].
pub ghost enum HeaderStatusV {
    Live(HeaderV),
    InclusionFailure,
    Unknown,
    Unspecified,
}

impl View for HeaderStatus {
    type V = HeaderStatusV;

    open spec fn view(&self) -> HeaderStatusV {
        match self {
            HeaderStatus::Live(h) => HeaderStatusV::Live(h@),
            HeaderStatus::InclusionFailure => HeaderStatusV::InclusionFailure,
            HeaderStatus::Unknown => HeaderStatusV::Unknown,
            HeaderStatus::Unspecified => HeaderStatusV::Unspecified,
        }
    }
}

/// Byte-wise equality of two vectors.
pub fn bytes_eq(a: &Vec<u8>, b: &Vec<u8>) -> (r: bool)
    ensures
        r == (a@ == b@),
{
    if a.len() != b.len() {
        proof {
            assert(a@ != b@);
        }
        return false;
    }
    let mut i: usize = 0;
    while i < a.len()
        invariant
            i <= a.len(),
            a.len() == b.len(),
            forall|j: int| 0 <= j < i ==> a@[j] == b@[j],
        decreases a.len() - i,
    {
        if a[i] != b[i] {
            return false;
        }
        i = i + 1;
    }
    proof {
        assert(a@ =~= b@);
    }
    true
}

} // verus!
