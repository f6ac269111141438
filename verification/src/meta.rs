//! Per-transaction spendability metadata.
//!
//! A [`TransactionMeta`] records, for one transaction, the block that created
//! it and a bit for each of its outputs; bit `i` set means output `i` is dead
//! (spent).  Cellbase transactions are tagged specially because they have
//! maturity constraints.

use vstd::prelude::*;

verus! {

/// Mathematical model of a [`TransactionMeta`].
pub ghost struct MetaV {
    /// Number of the block that created the transaction.
    pub block_number: u64,
    /// Epoch of the block that created the transaction.
    pub epoch_number: u64,
    /// Hash of the block that created the transaction.
    pub block_hash: Seq<u8>,
    /// Whether the transaction is a cellbase.
    pub cellbase: bool,
    /// Bit `i` is true when output `i` is dead (spent).
    pub dead_cell: Seq<bool>,
}

/// Per-transaction record of which outputs are spent, and of the block that
/// created the transaction.
#[derive(Clone)]
pub struct TransactionMeta {
    pub block_number: u64,
    pub epoch_number: u64,
    pub block_hash: Vec<u8>,
    pub cellbase: bool,
    pub dead_cell: Vec<bool>,
}

impl View for TransactionMeta {
    type V = MetaV;

    open spec fn view(&self) -> MetaV {
        MetaV {
            block_number: self.block_number,
            epoch_number: self.epoch_number,
            block_hash: self.block_hash@,
            cellbase: self.cellbase,
            dead_cell: self.dead_cell@,
        }
    }
}

/// The model of a freshly created meta: `count` bits, each set to `all_dead`.
pub open spec fn fresh_meta(
    block_number: u64,
    epoch_number: u64,
    block_hash: Seq<u8>,
    cellbase: bool,
    count: nat,
    all_dead: bool,
) -> MetaV {
    MetaV {
        block_number,
        epoch_number,
        block_hash,
        cellbase,
        dead_cell: Seq::new(count, |i: int| all_dead),
    }
}

impl TransactionMeta {
    /// A meta for an ordinary transaction with `outputs_count` outputs.
    pub fn new(
        block_number: u64,
        epoch_number: u64,
        block_hash: Vec<u8>,
        outputs_count: usize,
        all_dead: bool,
    ) -> (r: TransactionMeta)
        ensures
            r@ == fresh_meta(
                block_number,
                epoch_number,
                block_hash@,
                false,
                outputs_count as nat,
                all_dead,
            ),
    {
        TransactionMeta {
            block_number,
            epoch_number,
            block_hash,
            cellbase: false,
            dead_cell: filled_bits(outputs_count, all_dead),
        }
    }

    /// A meta for a cellbase transaction with `outputs_count` outputs.
    pub fn new_cellbase(
        block_number: u64,
        epoch_number: u64,
        block_hash: Vec<u8>,
        outputs_count: usize,
        all_dead: bool,
    ) -> (r: TransactionMeta)
        ensures
            r@ == fresh_meta(
                block_number,
                epoch_number,
                block_hash@,
                true,
                outputs_count as nat,
                all_dead,
            ),
    {
        TransactionMeta {
            block_number,
            epoch_number,
            block_hash,
            cellbase: true,
            dead_cell: filled_bits(outputs_count, all_dead),
        }
    }

    /// How many outputs the transaction has.
    pub fn len(&self) -> (r: usize)
        ensures
            r == self@.dead_cell.len(),
    {
        self.dead_cell.len()
    }

    /// Whether the transaction is a cellbase.
    pub fn is_cellbase(&self) -> (r: bool)
        ensures
            r == self@.cellbase,
    {
        self.cellbase
    }

    /// Whether output `index` is dead; `None` when `index` is out of range.
    pub fn is_dead(&self, index: usize) -> (r: Option<bool>)
        ensures
            r == (if index < self@.dead_cell.len() {
                Some(self@.dead_cell[index as int])
            } else {
                None::<bool>
            }),
    {
        if index < self.dead_cell.len() {
            Some(self.dead_cell[index])
        } else {
            None
        }
    }

    /// Marks output `index` dead; out-of-range indices are left unrecorded.
    pub fn set_dead(&mut self, index: usize)
        ensures
            final(self)@ == set_bit(old(self)@, index as int),
    {
        if index < self.dead_cell.len() {
            self.dead_cell.set(index, true);
        }
        proof {
            assert(self@.dead_cell =~= set_bit(old(self)@, index as int).dead_cell);
        }
    }

    /// Marks output `index` live again; out-of-range indices are ignored.
    pub fn unset_dead(&mut self, index: usize)
        ensures
            final(self)@ == clear_bit(old(self)@, index as int),
    {
        if index < self.dead_cell.len() {
            self.dead_cell.set(index, false);
        }
        proof {
            assert(self@.dead_cell =~= clear_bit(old(self)@, index as int).dead_cell);
        }
    }

    /// An owned copy with the same model.
    pub fn duplicate(&self) -> (r: TransactionMeta)
        ensures
            r@ == self@,
    {
        TransactionMeta {
            block_number: self.block_number,
            epoch_number: self.epoch_number,
            block_hash: copy_bytes(&self.block_hash),
            cellbase: self.cellbase,
            dead_cell: copy_bits(&self.dead_cell),
        }
    }
}

/// `m` with bit `index` set, when `index` is in range.
pub open spec fn set_bit(m: MetaV, index: int) -> MetaV {
    if 0 <= index < m.dead_cell.len() {
        MetaV { dead_cell: m.dead_cell.update(index, true), ..m }
    } else {
        m
    }
}

/// `m` with bit `index` cleared, when `index` is in range.
pub open spec fn clear_bit(m: MetaV, index: int) -> MetaV {
    if 0 <= index < m.dead_cell.len() {
        MetaV { dead_cell: m.dead_cell.update(index, false), ..m }
    } else {
        m
    }
}

/// A vector of `count` copies of `value`.
fn filled_bits(count: usize, value: bool) -> (r: Vec<bool>)
    ensures
        r@ == Seq::new(count as nat, |i: int| value),
{
    let mut r: Vec<bool> = Vec::new();
    let mut i: usize = 0;
    while i < count
        invariant
            i <= count,
            r@ == Seq::new(i as nat, |j: int| value),
        decreases count - i,
    {
        r.push(value);
        proof {
            assert(r@ =~= Seq::new((i + 1) as nat, |j: int| value));
        }
        i = i + 1;
    }
    r
}

/// An owned copy of a byte vector.
pub fn copy_bytes(v: &Vec<u8>) -> (r: Vec<u8>)
    ensures
        r@ == v@,
{
    let mut r: Vec<u8> = Vec::new();
    let mut i: usize = 0;
    while i < v.len()
        invariant
            i <= v.len(),
            r@ == v@.take(i as int),
        decreases v.len() - i,
    {
        r.push(v[i]);
        proof {
            assert(r@ =~= v@.take((i + 1) as int));
        }
        i = i + 1;
    }
    proof {
        assert(v@.take(v@.len() as int) =~= v@);
    }
    r
}

/// An owned copy of a bit vector.
fn copy_bits(v: &Vec<bool>) -> (r: Vec<bool>)
    ensures
        r@ == v@,
{
    let mut r: Vec<bool> = Vec::new();
    let mut i: usize = 0;
    while i < v.len()
        invariant
            i <= v.len(),
            r@ == v@.take(i as int),
        decreases v.len() - i,
    {
        r.push(v[i]);
        proof {
            assert(r@ =~= v@.take((i + 1) as int));
        }
        i = i + 1;
    }
    proof {
        assert(v@.take(v@.len() as int) =~= v@);
    }
    r
}

} // verus!
