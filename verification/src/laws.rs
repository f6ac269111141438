//! The crate's cross-function laws, stated and proved over the models that
//! the operations' own contracts use.

use vstd::prelude::*;
use crate::meta::MetaV;
use crate::transaction::{
    apply_spend, attach_cell_result, attach_records, cell_records, cell_removals,
    cell_status_spec, detach_cell_result, detach_records, epoch_index_of, epoch_record_of,
    initial_metas, install_metas, is_block_tx, remove_metas, spends_block, spends_tx, tx_records,
    tx_removals, uncle_records, uncle_removals, unspends_block, unspends_tx, CellPhase,
};
use crate::types::{
    cell_key_spec, number_key_spec, outputs_bounded, BlockV, Column, EpochExt, OutPointV,
    RecordV,
};

verus! {

/// A pair some info or cell record of transactions `0..t` is staged under.
pub open spec fn tx_prefix_touches(b: BlockV, t: int, p: (Column, Seq<u8>)) -> bool {
    (p.0 == Column::TransactionInfo && exists|x: int|
        0 <= x < t && (#[trigger] b.transactions[x]).hash == p.1) || (p.0 == Column::CellMeta
        && exists|x: int, y: u32|
        0 <= x < t && (y as int) < b.transactions[x].outputs.len() && p.1
            == #[trigger] cell_key_spec(b.transactions[x].hash, y))
}

/// A pair some presence marker of uncles `0..u` is staged under.
pub open spec fn uncle_prefix_touches(b: BlockV, u: int, p: (Column, Seq<u8>)) -> bool {
    p.0 == Column::Uncles && exists|x: int| 0 <= x < u && (#[trigger] b.uncles[x]).hash == p.1
}

/// A pair a block attach writes: an info record, a cell record, one of the
/// two index entries or an uncle marker.
pub open spec fn attach_touches(b: BlockV, p: (Column, Seq<u8>)) -> bool {
    tx_prefix_touches(b, b.transactions.len() as int, p) || (p.0 == Column::Index && (p.1
        == number_key_spec(b.header.number) || p.1 == b.header.hash)) || uncle_prefix_touches(
        b,
        b.uncles.len() as int,
        p,
    )
}

/// A pair holds a cell record of outputs `0..j` of transaction `t`.
pub open spec fn cell_prefix_touches(b: BlockV, t: int, j: int, p: (Column, Seq<u8>)) -> bool {
    p.0 == Column::CellMeta && exists|y: u32|
        (y as int) < j && p.1 == #[trigger] cell_key_spec(b.transactions[t].hash, y)
}

proof fn lemma_cell_records_at(
    m: Map<(Column, Seq<u8>), RecordV>,
    b: BlockV,
    t: int,
    j: int,
    p: (Column, Seq<u8>),
)
    requires
        j <= u32::MAX as int + 1,
    ensures
        cell_records(m, b, t, j).contains_key(p) <==> (m.contains_key(p) || cell_prefix_touches(
            b,
            t,
            j,
            p,
        )),
        !cell_prefix_touches(b, t, j, p) && m.contains_key(p) ==> cell_records(m, b, t, j)[p]
            == m[p],
    decreases j,
{
    if j <= 0 {
    } else {
        lemma_cell_records_at(m, b, t, j - 1, p);
        let k = (Column::CellMeta, cell_key_spec(b.transactions[t].hash, (j - 1) as u32));
        if p == k {
            assert(cell_prefix_touches(b, t, j, p)) by {
                let y0: u32 = (j - 1) as u32;
                assert(y0 as int == j - 1);
                assert(p.1 == cell_key_spec(b.transactions[t].hash, y0));
            }
        } else {
            if cell_prefix_touches(b, t, j, p) {
                let y = choose|y: u32|
                    (y as int) < j && p.1 == #[trigger] cell_key_spec(b.transactions[t].hash, y);
                if y as int == j - 1 {
                    assert(p == k);
                } else {
                    assert(cell_prefix_touches(b, t, j - 1, p));
                }
            }
            if cell_prefix_touches(b, t, j - 1, p) {
                assert(cell_prefix_touches(b, t, j, p));
            }
        }
    }
}

proof fn lemma_tx_records_at(m: Map<(Column, Seq<u8>), RecordV>, b: BlockV, t: int, p: (
    Column,
    Seq<u8>,
))
    requires
        outputs_bounded(b),
        t <= b.transactions.len(),
    ensures
        tx_records(m, b, t).contains_key(p) <==> (m.contains_key(p) || tx_prefix_touches(
            b,
            t,
            p,
        )),
        !tx_prefix_touches(b, t, p) && m.contains_key(p) ==> tx_records(m, b, t)[p] == m[p],
    decreases t,
{
    if t <= 0 {
    } else {
        lemma_tx_records_at(m, b, t - 1, p);
        let ik = (Column::TransactionInfo, b.transactions[t - 1].hash);
        let m1 = tx_records(m, b, t - 1);
        let m2 = m1.insert(ik, RecordV::Info(crate::transaction::tx_info_v(b, t - 1)));
        let lenj = b.transactions[t - 1].outputs.len() as int;
        assert(b.transactions[t - 1].outputs.len() <= u32::MAX);
        lemma_cell_records_at(m2, b, t - 1, lenj, p);
        // relate the prefix predicates at t - 1 and t
        if tx_prefix_touches(b, t, p) {
            if p.0 == Column::TransactionInfo {
                if exists|x: int| 0 <= x < t && (#[trigger] b.transactions[x]).hash == p.1 {
                    let x = choose|x: int|
                        0 <= x < t && (#[trigger] b.transactions[x]).hash == p.1;
                    if x < t - 1 {
                        assert(tx_prefix_touches(b, t - 1, p));
                    } else {
                        assert(p == ik);
                    }
                }
            }
            if p.0 == Column::CellMeta {
                if exists|x: int, y: u32|
                    0 <= x < t && (y as int) < b.transactions[x].outputs.len() && p.1
                        == #[trigger] cell_key_spec(b.transactions[x].hash, y) {
                    let (x, y) = choose|x: int, y: u32|
                        0 <= x < t && (y as int) < b.transactions[x].outputs.len() && p.1
                            == #[trigger] cell_key_spec(b.transactions[x].hash, y);
                    if x < t - 1 {
                        assert(tx_prefix_touches(b, t - 1, p));
                    } else {
                        assert(cell_prefix_touches(b, t - 1, lenj, p));
                    }
                }
            }
        }
        if tx_prefix_touches(b, t - 1, p) {
            assert(tx_prefix_touches(b, t, p));
        }
        if cell_prefix_touches(b, t - 1, lenj, p) {
            let y = choose|y: u32|
                (y as int) < lenj && p.1 == #[trigger] cell_key_spec(
                    b.transactions[t - 1].hash,
                    y,
                );
            assert(tx_prefix_touches(b, t, p));
        }
        if p == ik {
            assert(tx_prefix_touches(b, t, p)) by {
                assert(0 <= t - 1 < t && b.transactions[t - 1].hash == p.1);
            }
        }
    }
}

proof fn lemma_uncle_records_at(m: Map<(Column, Seq<u8>), RecordV>, b: BlockV, u: int, p: (
    Column,
    Seq<u8>,
))
    ensures
        uncle_records(m, b, u).contains_key(p) <==> (m.contains_key(p) || uncle_prefix_touches(
            b,
            u,
            p,
        )),
        !uncle_prefix_touches(b, u, p) && m.contains_key(p) ==> uncle_records(m, b, u)[p] == m[p],
    decreases u,
{
    if u <= 0 {
    } else {
        lemma_uncle_records_at(m, b, u - 1, p);
        let k = (Column::Uncles, b.uncles[u - 1].hash);
        if p == k {
            assert(uncle_prefix_touches(b, u, p)) by {
                assert(0 <= u - 1 < u && b.uncles[u - 1].hash == p.1);
            }
        } else {
            if uncle_prefix_touches(b, u, p) {
                let x = choose|x: int| 0 <= x < u && (#[trigger] b.uncles[x]).hash == p.1;
                if x == u - 1 {
                    assert(p == k);
                } else {
                    assert(uncle_prefix_touches(b, u - 1, p));
                }
            }
            if uncle_prefix_touches(b, u - 1, p) {
                assert(uncle_prefix_touches(b, u, p));
            }
        }
    }
}

/// What a block attach holds at one pair: every pair it touches is
/// present afterwards, and every other pair is exactly as it was.
pub proof fn lemma_attach_records_at(m: Map<(Column, Seq<u8>), RecordV>, b: BlockV, p: (
    Column,
    Seq<u8>,
))
    requires
        outputs_bounded(b),
    ensures
        attach_records(m, b).contains_key(p) <==> (m.contains_key(p) || attach_touches(b, p)),
        !attach_touches(b, p) && m.contains_key(p) ==> attach_records(m, b)[p] == m[p],
{
    let n = b.transactions.len() as int;
    let un = b.uncles.len() as int;
    lemma_tx_records_at(m, b, n, p);
    let m1 = tx_records(m, b, n);
    let nk = (Column::Index, number_key_spec(b.header.number));
    let m2 = m1.insert(nk, RecordV::HashValue(b.header.hash));
    lemma_uncle_records_at(m2, b, un, p);
    let m3 = uncle_records(m2, b, un);
    let hk = (Column::Index, b.header.hash);
}

proof fn lemma_cell_removals_at(
    m: Map<(Column, Seq<u8>), RecordV>,
    b: BlockV,
    t: int,
    j: int,
    p: (Column, Seq<u8>),
)
    requires
        j <= u32::MAX as int + 1,
    ensures
        cell_removals(m, b, t, j).contains_key(p) <==> (m.contains_key(p)
            && !cell_prefix_touches(b, t, j, p)),
        !cell_prefix_touches(b, t, j, p) && m.contains_key(p) ==> cell_removals(m, b, t, j)[p]
            == m[p],
    decreases j,
{
    if j <= 0 {
    } else {
        lemma_cell_removals_at(m, b, t, j - 1, p);
        let k = (Column::CellMeta, cell_key_spec(b.transactions[t].hash, (j - 1) as u32));
        if p == k {
            assert(cell_prefix_touches(b, t, j, p)) by {
                let y0: u32 = (j - 1) as u32;
                assert(y0 as int == j - 1);
                assert(p.1 == cell_key_spec(b.transactions[t].hash, y0));
            }
        } else {
            if cell_prefix_touches(b, t, j, p) {
                let y = choose|y: u32|
                    (y as int) < j && p.1 == #[trigger] cell_key_spec(b.transactions[t].hash, y);
                if y as int == j - 1 {
                    assert(p == k);
                } else {
                    assert(cell_prefix_touches(b, t, j - 1, p));
                }
            }
            if cell_prefix_touches(b, t, j - 1, p) {
                assert(cell_prefix_touches(b, t, j, p));
            }
        }
    }
}

proof fn lemma_tx_removals_at(m: Map<(Column, Seq<u8>), RecordV>, b: BlockV, t: int, p: (
    Column,
    Seq<u8>,
))
    requires
        outputs_bounded(b),
        t <= b.transactions.len(),
    ensures
        tx_removals(m, b, t).contains_key(p) <==> (m.contains_key(p) && !tx_prefix_touches(
            b,
            t,
            p,
        )),
        !tx_prefix_touches(b, t, p) && m.contains_key(p) ==> tx_removals(m, b, t)[p] == m[p],
    decreases t,
{
    if t <= 0 {
    } else {
        lemma_tx_removals_at(m, b, t - 1, p);
        let ik = (Column::TransactionInfo, b.transactions[t - 1].hash);
        let m1 = tx_removals(m, b, t - 1);
        let m2 = m1.remove(ik);
        let lenj = b.transactions[t - 1].outputs.len() as int;
        assert(b.transactions[t - 1].outputs.len() <= u32::MAX);
        lemma_cell_removals_at(m2, b, t - 1, lenj, p);
        if tx_prefix_touches(b, t, p) {
            if p.0 == Column::TransactionInfo {
                if exists|x: int| 0 <= x < t && (#[trigger] b.transactions[x]).hash == p.1 {
                    let x = choose|x: int|
                        0 <= x < t && (#[trigger] b.transactions[x]).hash == p.1;
                    if x < t - 1 {
                        assert(tx_prefix_touches(b, t - 1, p));
                    } else {
                        assert(p == ik);
                    }
                }
            }
            if p.0 == Column::CellMeta {
                if exists|x: int, y: u32|
                    0 <= x < t && (y as int) < b.transactions[x].outputs.len() && p.1
                        == #[trigger] cell_key_spec(b.transactions[x].hash, y) {
                    let (x, y) = choose|x: int, y: u32|
                        0 <= x < t && (y as int) < b.transactions[x].outputs.len() && p.1
                            == #[trigger] cell_key_spec(b.transactions[x].hash, y);
                    if x < t - 1 {
                        assert(tx_prefix_touches(b, t - 1, p));
                    } else {
                        assert(cell_prefix_touches(b, t - 1, lenj, p));
                    }
                }
            }
        }
        if tx_prefix_touches(b, t - 1, p) {
            assert(tx_prefix_touches(b, t, p));
        }
        if cell_prefix_touches(b, t - 1, lenj, p) {
            let y = choose|y: u32|
                (y as int) < lenj && p.1 == #[trigger] cell_key_spec(
                    b.transactions[t - 1].hash,
                    y,
                );
            assert(tx_prefix_touches(b, t, p));
        }
        if p == ik {
            assert(tx_prefix_touches(b, t, p)) by {
                assert(0 <= t - 1 < t && b.transactions[t - 1].hash == p.1);
            }
        }
    }
}

proof fn lemma_uncle_removals_at(m: Map<(Column, Seq<u8>), RecordV>, b: BlockV, u: int, p: (
    Column,
    Seq<u8>,
))
    ensures
        uncle_removals(m, b, u).contains_key(p) <==> (m.contains_key(p) && !uncle_prefix_touches(
            b,
            u,
            p,
        )),
        !uncle_prefix_touches(b, u, p) && m.contains_key(p) ==> uncle_removals(m, b, u)[p] == m[p],
    decreases u,
{
    if u <= 0 {
    } else {
        lemma_uncle_removals_at(m, b, u - 1, p);
        let k = (Column::Uncles, b.uncles[u - 1].hash);
        if p == k {
            assert(uncle_prefix_touches(b, u, p)) by {
                assert(0 <= u - 1 < u && b.uncles[u - 1].hash == p.1);
            }
        } else {
            if uncle_prefix_touches(b, u, p) {
                let x = choose|x: int| 0 <= x < u && (#[trigger] b.uncles[x]).hash == p.1;
                if x == u - 1 {
                    assert(p == k);
                } else {
                    assert(uncle_prefix_touches(b, u - 1, p));
                }
            }
            if uncle_prefix_touches(b, u - 1, p) {
                assert(uncle_prefix_touches(b, u, p));
            }
        }
    }
}

/// What a block detach holds at one pair: every pair the matching attach
/// touches is gone afterwards, and every other pair is exactly as it was.
pub proof fn lemma_detach_records_at(m: Map<(Column, Seq<u8>), RecordV>, b: BlockV, p: (
    Column,
    Seq<u8>,
))
    requires
        outputs_bounded(b),
    ensures
        detach_records(m, b).contains_key(p) <==> (m.contains_key(p) && !attach_touches(b, p)),
        !attach_touches(b, p) && m.contains_key(p) ==> detach_records(m, b)[p] == m[p],
{
    let n = b.transactions.len() as int;
    let un = b.uncles.len() as int;
    lemma_tx_removals_at(m, b, n, p);
    let m1 = tx_removals(m, b, n);
    lemma_uncle_removals_at(m1, b, un, p);
}

/// Invertibility of the record columns: detaching a block restores every
/// column the matching attach touched, byte for byte, provided the pairs
/// the attach writes were not present before.
pub proof fn lemma_detach_inverts_attach(m: Map<(Column, Seq<u8>), RecordV>, b: BlockV)
    requires
        outputs_bounded(b),
        forall|p: (Column, Seq<u8>)| attach_touches(b, p) ==> !m.contains_key(p),
    ensures
        detach_records(attach_records(m, b), b) == m,
{
    let m1 = attach_records(m, b);
    let m2 = detach_records(m1, b);
    assert forall|p: (Column, Seq<u8>)| #[trigger] m2.contains_key(p) <==> m.contains_key(p) by {
        lemma_attach_records_at(m, b, p);
        lemma_detach_records_at(m1, b, p);
    }
    assert forall|p: (Column, Seq<u8>)| m.contains_key(p) implies #[trigger] m2[p] == m[p] by {
        lemma_attach_records_at(m, b, p);
        lemma_detach_records_at(m1, b, p);
    }
    assert(m2 =~= m);
}

/// The two epoch keys resolve consistently: after staging an epoch under
/// its hash and its number, the lookup by hash yields the record, and the
/// lookup by number yields the hash under which the same record is found.
pub proof fn lemma_epoch_dual_key(
    m: Map<(Column, Seq<u8>), RecordV>,
    hash: Seq<u8>,
    epoch: EpochExt,
)
    requires
        hash.len() != 8,
    ensures
        ({
            let m2 = m.insert((Column::Epoch, hash), RecordV::Epoch(epoch)).insert(
                (Column::Epoch, number_key_spec(epoch.number)),
                RecordV::HashValue(hash),
            );
            epoch_record_of(m2, hash) == Some(epoch) && epoch_index_of(
                m2,
                number_key_spec(epoch.number),
            ) == Some(hash)
        }),
{
    assert(number_key_spec(epoch.number).len() == 8);
    assert(hash != number_key_spec(epoch.number));
}

proof fn lemma_apply_spend_fields(ph: CellPhase, b: BlockV, op: OutPointV)
    requires
        ph.metas.len() == b.transactions.len(),
    ensures
        apply_spend(ph, b, op).metas.len() == ph.metas.len(),
        forall|x: int|
            0 <= x < ph.metas.len() ==> (#[trigger] apply_spend(ph, b, op).metas[x]).cellbase
                == ph.metas[x].cellbase,
{
    match op.cell {
        None => {},
        Some(c) => {
            if is_block_tx(b, c.tx_hash) {
                let t2 = crate::transaction::block_tx_index(b, c.tx_hash);
                assert(0 <= t2 < b.transactions.len());
            }
        },
    }
}

proof fn lemma_spends_tx_fields(ph: CellPhase, b: BlockV, t: int, k: int)
    requires
        ph.metas.len() == b.transactions.len(),
    ensures
        spends_tx(ph, b, t, k).metas.len() == ph.metas.len(),
        forall|x: int|
            0 <= x < ph.metas.len() ==> (#[trigger] spends_tx(ph, b, t, k).metas[x]).cellbase
                == ph.metas[x].cellbase,
    decreases k,
{
    if k <= 0 {
    } else {
        lemma_spends_tx_fields(ph, b, t, k - 1);
        lemma_apply_spend_fields(spends_tx(ph, b, t, k - 1), b, b.transactions[t].inputs[k - 1]);
    }
}

proof fn lemma_spends_block_fields(ph: CellPhase, b: BlockV, t: int)
    requires
        ph.metas.len() == b.transactions.len(),
    ensures
        spends_block(ph, b, t).metas.len() == ph.metas.len(),
        forall|x: int|
            0 <= x < ph.metas.len() ==> (#[trigger] spends_block(ph, b, t).metas[x]).cellbase
                == ph.metas[x].cellbase,
    decreases t,
{
    if t <= 0 {
    } else {
        lemma_spends_block_fields(ph, b, t - 1);
        lemma_spends_tx_fields(
            spends_block(ph, b, t - 1),
            b,
            t - 1,
            b.transactions[t - 1].inputs.len() as int,
        );
    }
}

proof fn lemma_install_at(ph: CellPhase, b: BlockV, x: int, t: int)
    requires
        crate::types::tx_hashes_distinct(b),
        0 <= t < x <= b.transactions.len(),
    ensures
        install_metas(ph, b, x).cs.contains_key(b.transactions[t].hash),
        install_metas(ph, b, x).cs[b.transactions[t].hash] == ph.metas[t],
        install_metas(ph, b, x).st.contains_key((Column::CellSet, b.transactions[t].hash)),
        install_metas(ph, b, x).st[(Column::CellSet, b.transactions[t].hash)] == RecordV::Meta(
            ph.metas[t],
        ),
    decreases x,
{
    crate::transaction::lemma_install_metas_keeps_metas(ph, b, x - 1);
    if t == x - 1 {
    } else {
        lemma_install_at(ph, b, x - 1, t);
        assert(b.transactions[x - 1].hash != b.transactions[t].hash);
    }
}

proof fn lemma_install_frame_at(ph: CellPhase, b: BlockV, x: int, p: (Column, Seq<u8>))
    requires
        0 <= x <= b.transactions.len(),
        forall|t: int| 0 <= t < x ==> p != (Column::CellSet, (#[trigger] b.transactions[t]).hash),
    ensures
        install_metas(ph, b, x).st.contains_key(p) <==> ph.st.contains_key(p),
        ph.st.contains_key(p) ==> install_metas(ph, b, x).st[p] == ph.st[p],
        p.0 == Column::CellSet ==> (install_metas(ph, b, x).cs.contains_key(p.1)
            <==> ph.cs.contains_key(p.1)),
        p.0 == Column::CellSet && ph.cs.contains_key(p.1) ==> install_metas(ph, b, x).cs[p.1]
            == ph.cs[p.1],
    decreases x,
{
    if x <= 0 {
    } else {
        lemma_install_frame_at(ph, b, x - 1, p);
    }
}

proof fn lemma_remove_metas_at(ph: CellPhase, b: BlockV, x: int, h: Seq<u8>)
    requires
        0 <= x <= b.transactions.len(),
    ensures
        (exists|t: int| 0 <= t < x && (#[trigger] b.transactions[t]).hash == h) ==> (!remove_metas(
            ph,
            b,
            x,
        ).cs.contains_key(h) && !remove_metas(ph, b, x).st.contains_key((Column::CellSet, h))),
        !(exists|t: int| 0 <= t < x && (#[trigger] b.transactions[t]).hash == h) ==> ((
        remove_metas(ph, b, x).cs.contains_key(h) <==> ph.cs.contains_key(h)) && (
        ph.cs.contains_key(h) ==> remove_metas(ph, b, x).cs[h] == ph.cs[h]) && (remove_metas(
            ph,
            b,
            x,
        ).st.contains_key((Column::CellSet, h)) <==> ph.st.contains_key((Column::CellSet, h)))
            && (ph.st.contains_key((Column::CellSet, h)) ==> remove_metas(ph, b, x).st[(
            Column::CellSet,
            h,
        )] == ph.st[(Column::CellSet, h)])),
    decreases x,
{
    if x <= 0 {
    } else {
        lemma_remove_metas_at(ph, b, x - 1, h);
        if exists|t: int| 0 <= t < x && (#[trigger] b.transactions[t]).hash == h {
            let t = choose|t: int| 0 <= t < x && (#[trigger] b.transactions[t]).hash == h;
            if t < x - 1 {
                assert(exists|t2: int| 0 <= t2 < x - 1 && (#[trigger] b.transactions[t2]).hash
                    == h);
            }
        }
    }
}

proof fn lemma_remove_metas_keeps_other(ph: CellPhase, b: BlockV, x: int, p: (Column, Seq<u8>))
    requires
        p.0 != Column::CellSet,
    ensures
        remove_metas(ph, b, x).st.contains_key(p) <==> ph.st.contains_key(p),
        ph.st.contains_key(p) ==> remove_metas(ph, b, x).st[p] == ph.st[p],
    decreases x,
{
    if x <= 0 {
    } else {
        lemma_remove_metas_keeps_other(ph, b, x - 1, p);
    }
}

/// A cellbase transaction's meta is tagged as cellbase at creation, and an
/// ordinary transaction's is not: after a block's cell attach, the meta the
/// index holds for each of the block's transactions carries exactly the
/// transaction's own tag.  The tag depends on the transaction alone, so a
/// detach (which removes the meta outright) followed by a fresh attach
/// leaves it unchanged.
pub proof fn lemma_cellbase_tag(
    cs0: Map<Seq<u8>, MetaV>,
    st0: Map<(Column, Seq<u8>), RecordV>,
    b: BlockV,
    t: int,
)
    requires
        crate::types::tx_hashes_distinct(b),
        0 <= t < b.transactions.len(),
    ensures
        attach_cell_result(cs0, st0, b).cs.contains_key(b.transactions[t].hash),
        attach_cell_result(cs0, st0, b).cs[b.transactions[t].hash].cellbase == b.transactions[
            t
        ].cellbase,
{
    let n = b.transactions.len() as int;
    let ph0 = CellPhase { metas: initial_metas(b), cs: cs0, st: st0 };
    let ph2 = spends_block(ph0, b, n);
    lemma_spends_block_fields(ph0, b, n);
    assert(ph2.metas[t].cellbase == initial_metas(b)[t].cellbase);
    lemma_install_at(ph2, b, n, t);
}

/// Output `j` of the transaction with hash `h` is spent by some input
/// among transactions `0..t` of the block, or among inputs `0..k` of
/// transaction `t` itself.
pub open spec fn spent_before(b: BlockV, h: Seq<u8>, j: int, t: int, k: int) -> bool {
    exists|t2: int, k2: int|
        0 <= t2 < b.transactions.len() && 0 <= k2 < b.transactions[t2].inputs.len() && (t2 < t || (
        t2 == t && k2 < k)) && match (#[trigger] b.transactions[t2].inputs[k2]).cell {
            Some(c) => c.tx_hash == h && c.index as int == j,
            None => false,
        }
}

/// Some output of the transaction with hash `h` is spent within the same
/// prefix of the block's inputs.
pub open spec fn h_spent_before(b: BlockV, h: Seq<u8>, t: int, k: int) -> bool {
    exists|j: int| #[trigger] spent_before(b, h, j, t, k)
}

/// `m0` with a dead bit for every output the input prefix spends.
pub open spec fn updated_meta(m0: MetaV, b: BlockV, h: Seq<u8>, t: int, k: int) -> MetaV {
    MetaV {
        dead_cell: Seq::new(
            m0.dead_cell.len(),
            |j: int| m0.dead_cell[j] || spent_before(b, h, j, t, k),
        ),
        ..m0
    }
}

/// `m1` with the dead bit cleared for every output the input prefix spends.
pub open spec fn cleared_meta(m1: MetaV, b: BlockV, h: Seq<u8>, t: int, k: int) -> MetaV {
    MetaV {
        dead_cell: Seq::new(
            m1.dead_cell.len(),
            |j: int| m1.dead_cell[j] && !spent_before(b, h, j, t, k),
        ),
        ..m1
    }
}

proof fn lemma_spent_before_step(b: BlockV, h: Seq<u8>, j: int, t: int, k: int)
    requires
        0 <= t < b.transactions.len(),
        0 <= k < b.transactions[t].inputs.len(),
    ensures
        spent_before(b, h, j, t, k + 1) == (spent_before(b, h, j, t, k) || match b.transactions[
            t
        ].inputs[k].cell {
            Some(c) => c.tx_hash == h && c.index as int == j,
            None => false,
        }),
{
    if spent_before(b, h, j, t, k + 1) {
        let (t2, k2) = choose|t2: int, k2: int|
            0 <= t2 < b.transactions.len() && 0 <= k2 < b.transactions[t2].inputs.len() && (t2 < t
                || (t2 == t && k2 < k + 1)) && match (#[trigger] b.transactions[t2].inputs[
                k2
            ]).cell {
                Some(c) => c.tx_hash == h && c.index as int == j,
                None => false,
            };
        if t2 == t && k2 == k {
        } else {
            assert(spent_before(b, h, j, t, k));
        }
    }
    if spent_before(b, h, j, t, k) {
        let (t2, k2) = choose|t2: int, k2: int|
            0 <= t2 < b.transactions.len() && 0 <= k2 < b.transactions[t2].inputs.len() && (t2 < t
                || (t2 == t && k2 < k)) && match (#[trigger] b.transactions[t2].inputs[k2]).cell {
                Some(c) => c.tx_hash == h && c.index as int == j,
                None => false,
            };
        assert(spent_before(b, h, j, t, k + 1));
    }
    match b.transactions[t].inputs[k].cell {
        Some(c) => {
            if c.tx_hash == h && c.index as int == j {
                assert(spent_before(b, h, j, t, k + 1));
            }
        },
        None => {},
    }
}

proof fn lemma_spent_before_boundary(b: BlockV, h: Seq<u8>, j: int, t: int)
    requires
        0 <= t < b.transactions.len(),
    ensures
        spent_before(b, h, j, t + 1, 0) == spent_before(
            b,
            h,
            j,
            t,
            b.transactions[t].inputs.len() as int,
        ),
{
    let kk = b.transactions[t].inputs.len() as int;
    if spent_before(b, h, j, t + 1, 0) {
        let (t2, k2) = choose|t2: int, k2: int|
            0 <= t2 < b.transactions.len() && 0 <= k2 < b.transactions[t2].inputs.len() && (t2 < t
                + 1 || (t2 == t + 1 && k2 < 0)) && match (#[trigger] b.transactions[t2].inputs[
                k2
            ]).cell {
                Some(c) => c.tx_hash == h && c.index as int == j,
                None => false,
            };
        assert(t2 < t || (t2 == t && k2 < kk));
        assert(spent_before(b, h, j, t, kk));
    }
    if spent_before(b, h, j, t, kk) {
        let (t2, k2) = choose|t2: int, k2: int|
            0 <= t2 < b.transactions.len() && 0 <= k2 < b.transactions[t2].inputs.len() && (t2 < t
                || (t2 == t && k2 < kk)) && match (#[trigger] b.transactions[t2].inputs[k2]).cell {
                Some(c) => c.tx_hash == h && c.index as int == j,
                None => false,
            };
        assert(spent_before(b, h, j, t + 1, 0));
    }
}

/// The freshness, index-authority and liveness conditions under which a
/// block's cell attach can be undone exactly: the block's own transaction
/// hashes are new to the index and the cell-set column; every outside
/// transaction an input spends is held by the index, mirrored by the
/// column; and every spent outside output is live beforehand.
pub open spec fn cell_inversion_pre(
    cs0: Map<Seq<u8>, MetaV>,
    st0: Map<(Column, Seq<u8>), RecordV>,
    b: BlockV,
) -> bool {
    &&& crate::types::tx_hashes_distinct(b)
    &&& forall|t: int|
        0 <= t < b.transactions.len() ==> !cs0.contains_key((#[trigger] b.transactions[t]).hash)
            && !st0.contains_key((Column::CellSet, b.transactions[t].hash))
    &&& forall|t: int, k: int|
        0 <= t < b.transactions.len() && 0 <= k < b.transactions[t].inputs.len() ==> match (
        #[trigger] b.transactions[t].inputs[k]).cell {
            Some(c) => spend_target_ok(cs0, st0, b, c),
            None => true,
        }
}

/// The target of one outside spend is held by the index, mirrored by the
/// column, and live at the spent output.
pub open spec fn spend_target_ok(
    cs0: Map<Seq<u8>, MetaV>,
    st0: Map<(Column, Seq<u8>), RecordV>,
    b: BlockV,
    c: crate::types::CellOutPointV,
) -> bool {
    !is_block_tx(b, c.tx_hash) ==> (cs0.contains_key(c.tx_hash)
        && crate::transaction::meta_record_of(st0, c.tx_hash) == Some(cs0[c.tx_hash]) && ((
    c.index as int) < cs0[c.tx_hash].dead_cell.len() ==> !cs0[c.tx_hash].dead_cell[c.index as int]))
}

/// The state of the index and the staged view after the spends of a block
/// prefix have been applied, relative to the state they started from.
pub open spec fn attach_spends_inv(
    ph: CellPhase,
    cs0: Map<Seq<u8>, MetaV>,
    st0: Map<(Column, Seq<u8>), RecordV>,
    b: BlockV,
    t: int,
    k: int,
) -> bool {
    &&& forall|h: Seq<u8>|
        !is_block_tx(b, h) && cs0.contains_key(h) ==> #[trigger] ph.cs.contains_key(h) && ph.cs[h]
            == updated_meta(cs0[h], b, h, t, k)
    &&& forall|h: Seq<u8>| !cs0.contains_key(h) ==> !(#[trigger] ph.cs.contains_key(h))
    &&& forall|p: (Column, Seq<u8>)|
        p.0 != Column::CellSet ==> ((#[trigger] ph.st.contains_key(p)) <==> st0.contains_key(p))
            && (st0.contains_key(p) ==> ph.st[p] == st0[p])
    &&& forall|h: Seq<u8>|
        !is_block_tx(b, h) && #[trigger] h_spent_before(b, h, t, k) ==> ph.st.contains_key(
            (Column::CellSet, h),
        ) && ph.st[(Column::CellSet, h)] == RecordV::Meta(updated_meta(cs0[h], b, h, t, k))
    &&& forall|h: Seq<u8>|
        !is_block_tx(b, h) && !(#[trigger] h_spent_before(b, h, t, k)) ==> ((ph.st.contains_key(
            (Column::CellSet, h),
        ) <==> st0.contains_key((Column::CellSet, h))) && (st0.contains_key((Column::CellSet, h))
            ==> ph.st[(Column::CellSet, h)] == st0[(Column::CellSet, h)]))
    &&& forall|h: Seq<u8>|
        #[trigger] is_block_tx(b, h) ==> ((ph.st.contains_key((Column::CellSet, h))
            <==> st0.contains_key((Column::CellSet, h))) && (st0.contains_key((Column::CellSet, h))
            ==> ph.st[(Column::CellSet, h)] == st0[(Column::CellSet, h)]))
}

proof fn lemma_meta_step_same(m0: MetaV, b: BlockV, h: Seq<u8>, t: int, k: int)
    requires
        0 <= t < b.transactions.len(),
        0 <= k < b.transactions[t].inputs.len(),
        match b.transactions[t].inputs[k].cell {
            Some(c) => c.tx_hash != h,
            None => true,
        },
    ensures
        updated_meta(m0, b, h, t, k + 1) == updated_meta(m0, b, h, t, k),
        cleared_meta(m0, b, h, t, k + 1) == cleared_meta(m0, b, h, t, k),
        h_spent_before(b, h, t, k + 1) == h_spent_before(b, h, t, k),
{
    assert forall|j: int| #[trigger] spent_before(b, h, j, t, k + 1) == spent_before(
        b,
        h,
        j,
        t,
        k,
    ) by {
        lemma_spent_before_step(b, h, j, t, k);
    }
    assert(updated_meta(m0, b, h, t, k + 1).dead_cell =~= updated_meta(m0, b, h, t, k).dead_cell);
    assert(cleared_meta(m0, b, h, t, k + 1).dead_cell =~= cleared_meta(m0, b, h, t, k).dead_cell);
    if h_spent_before(b, h, t, k + 1) {
        let j = choose|j: int| #[trigger] spent_before(b, h, j, t, k + 1);
        assert(spent_before(b, h, j, t, k));
    }
    if h_spent_before(b, h, t, k) {
        let j = choose|j: int| #[trigger] spent_before(b, h, j, t, k);
        lemma_spent_before_step(b, h, j, t, k);
        assert(spent_before(b, h, j, t, k + 1));
    }
}

proof fn lemma_meta_step_spend(
    m0: MetaV,
    b: BlockV,
    c: crate::types::CellOutPointV,
    t: int,
    k: int,
)
    requires
        0 <= t < b.transactions.len(),
        0 <= k < b.transactions[t].inputs.len(),
        b.transactions[t].inputs[k].cell == Some(c),
    ensures
        updated_meta(m0, b, c.tx_hash, t, k + 1) == crate::meta::set_bit(
            updated_meta(m0, b, c.tx_hash, t, k),
            c.index as int,
        ),
        cleared_meta(m0, b, c.tx_hash, t, k + 1) == crate::meta::clear_bit(
            cleared_meta(m0, b, c.tx_hash, t, k),
            c.index as int,
        ),
        h_spent_before(b, c.tx_hash, t, k + 1),
{
    let h = c.tx_hash;
    assert forall|j: int| #[trigger] spent_before(b, h, j, t, k + 1) == (spent_before(b, h, j, t, k)
        || j == c.index as int) by {
        lemma_spent_before_step(b, h, j, t, k);
    }
    assert(updated_meta(m0, b, h, t, k + 1).dead_cell =~= crate::meta::set_bit(
        updated_meta(m0, b, h, t, k),
        c.index as int,
    ).dead_cell);
    assert(cleared_meta(m0, b, h, t, k + 1).dead_cell =~= crate::meta::clear_bit(
        cleared_meta(m0, b, h, t, k),
        c.index as int,
    ).dead_cell);
    assert(spent_before(b, h, c.index as int, t, k + 1));
}

proof fn lemma_meta_boundary(m0: MetaV, b: BlockV, h: Seq<u8>, t: int)
    requires
        0 <= t < b.transactions.len(),
    ensures
        updated_meta(m0, b, h, t + 1, 0) == updated_meta(
            m0,
            b,
            h,
            t,
            b.transactions[t].inputs.len() as int,
        ),
        cleared_meta(m0, b, h, t + 1, 0) == cleared_meta(
            m0,
            b,
            h,
            t,
            b.transactions[t].inputs.len() as int,
        ),
        h_spent_before(b, h, t + 1, 0) == h_spent_before(
            b,
            h,
            t,
            b.transactions[t].inputs.len() as int,
        ),
{
    let kk = b.transactions[t].inputs.len() as int;
    assert forall|j: int| #[trigger] spent_before(b, h, j, t + 1, 0) == spent_before(
        b,
        h,
        j,
        t,
        kk,
    ) by {
        lemma_spent_before_boundary(b, h, j, t);
    }
    assert(updated_meta(m0, b, h, t + 1, 0).dead_cell =~= updated_meta(m0, b, h, t, kk).dead_cell);
    assert(cleared_meta(m0, b, h, t + 1, 0).dead_cell =~= cleared_meta(m0, b, h, t, kk).dead_cell);
    if h_spent_before(b, h, t + 1, 0) {
        let j = choose|j: int| #[trigger] spent_before(b, h, j, t + 1, 0);
        assert(spent_before(b, h, j, t, kk));
    }
    if h_spent_before(b, h, t, kk) {
        let j = choose|j: int| #[trigger] spent_before(b, h, j, t, kk);
        lemma_spent_before_boundary(b, h, j, t);
        assert(spent_before(b, h, j, t + 1, 0));
    }
}

proof fn lemma_meta_base(m0: MetaV, b: BlockV, h: Seq<u8>)
    ensures
        updated_meta(m0, b, h, 0, 0) == m0,
        cleared_meta(m0, b, h, 0, 0) == m0,
        !h_spent_before(b, h, 0, 0),
{
    assert forall|j: int| !(#[trigger] spent_before(b, h, j, 0, 0)) by {
        if spent_before(b, h, j, 0, 0) {
            let (t2, k2) = choose|t2: int, k2: int|
                0 <= t2 < b.transactions.len() && 0 <= k2 < b.transactions[t2].inputs.len() && (t2
                    < 0 || (t2 == 0 && k2 < 0)) && match (#[trigger] b.transactions[t2].inputs[
                    k2
                ]).cell {
                    Some(c) => c.tx_hash == h && c.index as int == j,
                    None => false,
                };
        }
    }
    assert(updated_meta(m0, b, h, 0, 0).dead_cell =~= m0.dead_cell);
    assert(cleared_meta(m0, b, h, 0, 0).dead_cell =~= m0.dead_cell);
    if h_spent_before(b, h, 0, 0) {
        let j = choose|j: int| #[trigger] spent_before(b, h, j, 0, 0);
    }
}

proof fn lemma_attach_spends_inv_tx(
    cs0: Map<Seq<u8>, MetaV>,
    st0: Map<(Column, Seq<u8>), RecordV>,
    b: BlockV,
    t: int,
    k: int,
)
    requires
        cell_inversion_pre(cs0, st0, b),
        0 <= t < b.transactions.len(),
        0 <= k <= b.transactions[t].inputs.len(),
    ensures
        attach_spends_inv(
            spends_tx(
                spends_block(CellPhase { metas: initial_metas(b), cs: cs0, st: st0 }, b, t),
                b,
                t,
                k,
            ),
            cs0,
            st0,
            b,
            t,
            k,
        ),
    decreases t, k + 1,
{
    let ph0 = CellPhase { metas: initial_metas(b), cs: cs0, st: st0 };
    if k == 0 {
        lemma_attach_spends_inv_block(cs0, st0, b, t);
    } else {
        lemma_attach_spends_inv_tx(cs0, st0, b, t, k - 1);
        let pre = spends_tx(spends_block(ph0, b, t), b, t, k - 1);
        let post = spends_tx(spends_block(ph0, b, t), b, t, k);
        let op = b.transactions[t].inputs[k - 1];
        assert(post == apply_spend(pre, b, op));
        match op.cell {
            None => {
                assert forall|h: Seq<u8>|
                    #![trigger updated_meta(cs0[h], b, h, t, k)]
                    #![trigger h_spent_before(b, h, t, k)]
                    true implies (updated_meta(cs0[h], b, h, t, k) == updated_meta(
                    cs0[h],
                    b,
                    h,
                    t,
                    k - 1,
                ) && h_spent_before(b, h, t, k) == h_spent_before(b, h, t, k - 1)) by {
                    lemma_meta_step_same(cs0[h], b, h, t, k - 1);
                }
                assert(attach_spends_inv(post, cs0, st0, b, t, k));
            },
            Some(c) => {
                if is_block_tx(b, c.tx_hash) {
                    assert forall|h: Seq<u8>|
                        #![trigger updated_meta(cs0[h], b, h, t, k)]
                        #![trigger h_spent_before(b, h, t, k)]
                        !is_block_tx(b, h) implies (updated_meta(cs0[h], b, h, t, k)
                        == updated_meta(cs0[h], b, h, t, k - 1) && h_spent_before(b, h, t, k)
                        == h_spent_before(b, h, t, k - 1)) by {
                        assert(c.tx_hash != h);
                        lemma_meta_step_same(cs0[h], b, h, t, k - 1);
                    }
                    assert(post.st == pre.st && post.cs == pre.cs);
                    assert(attach_spends_inv(post, cs0, st0, b, t, k));
                } else {
                    assert(cs0.contains_key(c.tx_hash));
                    assert(pre.cs.contains_key(c.tx_hash));
                    let m = pre.cs[c.tx_hash];
                    assert(m == updated_meta(cs0[c.tx_hash], b, c.tx_hash, t, k - 1));
                    lemma_meta_step_spend(cs0[c.tx_hash], b, c, t, k - 1);
                    assert forall|h: Seq<u8>|
                        #![trigger updated_meta(cs0[h], b, h, t, k)]
                        #![trigger h_spent_before(b, h, t, k)]
                        h != c.tx_hash implies (updated_meta(cs0[h], b, h, t, k) == updated_meta(
                        cs0[h],
                        b,
                        h,
                        t,
                        k - 1,
                    ) && h_spent_before(b, h, t, k) == h_spent_before(b, h, t, k - 1)) by {
                        lemma_meta_step_same(cs0[h], b, h, t, k - 1);
                    }
                    let m2 = crate::meta::set_bit(m, c.index as int);
                    assert(crate::transaction::spend_lookup(pre.cs, pre.st, c.tx_hash) == Some(m));
                    assert(post.cs == pre.cs.insert(c.tx_hash, m2));
                    assert(post.st == pre.st.insert(
                        (Column::CellSet, c.tx_hash),
                        RecordV::Meta(m2),
                    ));
                    assert(m2 == updated_meta(cs0[c.tx_hash], b, c.tx_hash, t, k));
                    assert(h_spent_before(b, c.tx_hash, t, k));
                    assert forall|h: Seq<u8>|
                        !is_block_tx(b, h) && cs0.contains_key(h) implies #[trigger] post.cs.contains_key(
                        h,
                    ) && post.cs[h] == updated_meta(cs0[h], b, h, t, k) by {
                        if h != c.tx_hash {
                            assert(pre.cs.contains_key(h));
                        }
                    }
                    assert forall|h: Seq<u8>|
                        !is_block_tx(b, h) && #[trigger] h_spent_before(b, h, t, k) implies
                        post.st.contains_key((Column::CellSet, h)) && post.st[(
                        Column::CellSet,
                        h,
                    )] == RecordV::Meta(updated_meta(cs0[h], b, h, t, k)) by {
                        if h != c.tx_hash {
                            assert(h_spent_before(b, h, t, k - 1));
                        }
                    }
                    assert forall|h: Seq<u8>|
                        !is_block_tx(b, h) && !(#[trigger] h_spent_before(b, h, t, k)) implies ((
                    post.st.contains_key((Column::CellSet, h)) <==> st0.contains_key(
                        (Column::CellSet, h),
                    )) && (st0.contains_key((Column::CellSet, h)) ==> post.st[(
                        Column::CellSet,
                        h,
                    )] == st0[(Column::CellSet, h)])) by {
                        assert(h != c.tx_hash);
                        assert(!h_spent_before(b, h, t, k - 1));
                    }
                    assert(attach_spends_inv(post, cs0, st0, b, t, k));
                }
            },
        }
    }
}

proof fn lemma_attach_spends_inv_block(
    cs0: Map<Seq<u8>, MetaV>,
    st0: Map<(Column, Seq<u8>), RecordV>,
    b: BlockV,
    t: int,
)
    requires
        cell_inversion_pre(cs0, st0, b),
        0 <= t <= b.transactions.len(),
    ensures
        attach_spends_inv(
            spends_block(CellPhase { metas: initial_metas(b), cs: cs0, st: st0 }, b, t),
            cs0,
            st0,
            b,
            t,
            0,
        ),
    decreases t, 0int,
{
    let ph0 = CellPhase { metas: initial_metas(b), cs: cs0, st: st0 };
    if t == 0 {
        assert(spends_block(ph0, b, 0) == ph0);
        assert forall|h: Seq<u8>|
            #![trigger updated_meta(cs0[h], b, h, 0, 0)]
            #![trigger h_spent_before(b, h, 0, 0)]
            true implies (updated_meta(cs0[h], b, h, 0, 0) == cs0[h] && !h_spent_before(
            b,
            h,
            0,
            0,
        )) by {
            lemma_meta_base(cs0[h], b, h);
        }
    } else {
        let kk = b.transactions[t - 1].inputs.len() as int;
        lemma_attach_spends_inv_tx(cs0, st0, b, t - 1, kk);
        assert(spends_block(ph0, b, t) == spends_tx(spends_block(ph0, b, t - 1), b, t - 1, kk));
        assert forall|h: Seq<u8>|
            #![trigger updated_meta(cs0[h], b, h, t, 0)]
            #![trigger h_spent_before(b, h, t, 0)]
            true implies (updated_meta(cs0[h], b, h, t, 0) == updated_meta(
            cs0[h],
            b,
            h,
            t - 1,
            kk,
        ) && h_spent_before(b, h, t, 0) == h_spent_before(b, h, t - 1, kk)) by {
            lemma_meta_boundary(cs0[h], b, h, t - 1);
        }
    }
}

/// The two views hold the same thing at one pair.
pub open spec fn views_agree_at(
    a: Map<(Column, Seq<u8>), RecordV>,
    b: Map<(Column, Seq<u8>), RecordV>,
    p: (Column, Seq<u8>),
) -> bool {
    (a.contains_key(p) <==> b.contains_key(p)) && (b.contains_key(p) ==> a[p] == b[p])
}

/// The two views agree on every pair outside the cell-set column.
pub open spec fn other_cols_eq(
    a: Map<(Column, Seq<u8>), RecordV>,
    b: Map<(Column, Seq<u8>), RecordV>,
) -> bool {
    forall|p: (Column, Seq<u8>)|
        p.0 != Column::CellSet ==> #[trigger] views_agree_at(a, b, p)
}

proof fn lemma_other_cols_refl(a: Map<(Column, Seq<u8>), RecordV>)
    ensures
        other_cols_eq(a, a),
{
}

proof fn lemma_other_cols_at(
    a: Map<(Column, Seq<u8>), RecordV>,
    b: Map<(Column, Seq<u8>), RecordV>,
    p: (Column, Seq<u8>),
)
    requires
        other_cols_eq(a, b),
        p.0 != Column::CellSet,
    ensures
        a.contains_key(p) <==> b.contains_key(p),
        b.contains_key(p) ==> a[p] == b[p],
{
    assert(views_agree_at(a, b, p));
}

proof fn lemma_other_cols_insert(
    a: Map<(Column, Seq<u8>), RecordV>,
    b: Map<(Column, Seq<u8>), RecordV>,
    key: (Column, Seq<u8>),
    v: RecordV,
)
    requires
        other_cols_eq(a, b),
        key.0 == Column::CellSet,
    ensures
        other_cols_eq(a.insert(key, v), b),
{
    assert forall|p: (Column, Seq<u8>)|
        p.0 != Column::CellSet implies #[trigger] views_agree_at(a.insert(key, v), b, p) by {
        assert(p.0 != key.0);
        assert(p != key);
        lemma_other_cols_at(a, b, p);
    }
}

/// The state of the index and the staged view after the unspends of a
/// block prefix have been applied during detach, relative to the state
/// `(csA, stA)` the detach started from.
pub open spec fn detach_unspends_inv(
    ph: CellPhase,
    cs0: Map<Seq<u8>, MetaV>,
    csA: Map<Seq<u8>, MetaV>,
    stA: Map<(Column, Seq<u8>), RecordV>,
    b: BlockV,
    t: int,
    k: int,
) -> bool {
    &&& forall|h: Seq<u8>|
        !is_block_tx(b, h) && cs0.contains_key(h) ==> #[trigger] ph.cs.contains_key(h) && ph.cs[h]
            == cleared_meta(csA[h], b, h, t, k)
    &&& forall|h: Seq<u8>|
        !cs0.contains_key(h) && !is_block_tx(b, h) ==> ((#[trigger] ph.cs.contains_key(h))
            <==> csA.contains_key(h)) && (csA.contains_key(h) ==> ph.cs[h] == csA[h])
    &&& forall|h: Seq<u8>|
        #[trigger] is_block_tx(b, h) ==> (ph.cs.contains_key(h) <==> csA.contains_key(h)) && (
        csA.contains_key(h) ==> ph.cs[h] == csA[h])
    &&& other_cols_eq(ph.st, stA)
    &&& forall|h: Seq<u8>|
        !is_block_tx(b, h) && #[trigger] h_spent_before(b, h, t, k) ==> ph.st.contains_key(
            (Column::CellSet, h),
        ) && ph.st[(Column::CellSet, h)] == RecordV::Meta(cleared_meta(csA[h], b, h, t, k))
    &&& forall|h: Seq<u8>|
        !is_block_tx(b, h) && !(#[trigger] h_spent_before(b, h, t, k)) ==> ((ph.st.contains_key(
            (Column::CellSet, h),
        ) <==> stA.contains_key((Column::CellSet, h))) && (stA.contains_key((Column::CellSet, h))
            ==> ph.st[(Column::CellSet, h)] == stA[(Column::CellSet, h)]))
    &&& forall|h: Seq<u8>|
        #[trigger] is_block_tx(b, h) ==> ((ph.st.contains_key((Column::CellSet, h))
            <==> stA.contains_key((Column::CellSet, h))) && (stA.contains_key((Column::CellSet, h))
            ==> ph.st[(Column::CellSet, h)] == stA[(Column::CellSet, h)]))
}

#[verifier::rlimit(100)]
proof fn lemma_detach_inv_intro(
    ph: CellPhase,
    cs0: Map<Seq<u8>, MetaV>,
    csA: Map<Seq<u8>, MetaV>,
    stA: Map<(Column, Seq<u8>), RecordV>,
    b: BlockV,
    t: int,
    k: int,
)
    requires
        forall|h: Seq<u8>|
            !is_block_tx(b, h) && cs0.contains_key(h) ==> #[trigger] ph.cs.contains_key(h)
                && ph.cs[h] == cleared_meta(csA[h], b, h, t, k),
        forall|h: Seq<u8>|
            !cs0.contains_key(h) && !is_block_tx(b, h) ==> ((#[trigger] ph.cs.contains_key(h))
                <==> csA.contains_key(h)) && (csA.contains_key(h) ==> ph.cs[h] == csA[h]),
        forall|h: Seq<u8>|
            #[trigger] is_block_tx(b, h) ==> (ph.cs.contains_key(h) <==> csA.contains_key(h)) && (
            csA.contains_key(h) ==> ph.cs[h] == csA[h]),
        other_cols_eq(ph.st, stA),
        forall|h: Seq<u8>|
            !is_block_tx(b, h) && #[trigger] h_spent_before(b, h, t, k) ==> ph.st.contains_key(
                (Column::CellSet, h),
            ) && ph.st[(Column::CellSet, h)] == RecordV::Meta(cleared_meta(csA[h], b, h, t, k)),
        forall|h: Seq<u8>|
            !is_block_tx(b, h) && !(#[trigger] h_spent_before(b, h, t, k)) ==> ((
            ph.st.contains_key((Column::CellSet, h)) <==> stA.contains_key((Column::CellSet, h)))
                && (stA.contains_key((Column::CellSet, h)) ==> ph.st[(Column::CellSet, h)] == stA[(
                Column::CellSet,
                h,
            )])),
        forall|h: Seq<u8>|
            #[trigger] is_block_tx(b, h) ==> ((ph.st.contains_key((Column::CellSet, h))
                <==> stA.contains_key((Column::CellSet, h))) && (stA.contains_key(
                (Column::CellSet, h),
            ) ==> ph.st[(Column::CellSet, h)] == stA[(Column::CellSet, h)])),
    ensures
        detach_unspends_inv(ph, cs0, csA, stA, b, t, k),
{
    assert(forall|h: Seq<u8>|
        !is_block_tx(b, h) && cs0.contains_key(h) ==> #[trigger] ph.cs.contains_key(h) && ph.cs[h]
            == cleared_meta(csA[h], b, h, t, k));
    assert(forall|h: Seq<u8>|
        !cs0.contains_key(h) && !is_block_tx(b, h) ==> ((#[trigger] ph.cs.contains_key(h))
            <==> csA.contains_key(h)) && (csA.contains_key(h) ==> ph.cs[h] == csA[h]));
    assert(forall|h: Seq<u8>|
        #[trigger] is_block_tx(b, h) ==> (ph.cs.contains_key(h) <==> csA.contains_key(h)) && (
        csA.contains_key(h) ==> ph.cs[h] == csA[h]));
    assert(other_cols_eq(ph.st, stA));
    assert(forall|h: Seq<u8>|
        !is_block_tx(b, h) && #[trigger] h_spent_before(b, h, t, k) ==> ph.st.contains_key(
            (Column::CellSet, h),
        ) && ph.st[(Column::CellSet, h)] == RecordV::Meta(cleared_meta(csA[h], b, h, t, k)));
    assert(forall|h: Seq<u8>|
        !is_block_tx(b, h) && !(#[trigger] h_spent_before(b, h, t, k)) ==> ((ph.st.contains_key(
            (Column::CellSet, h),
        ) <==> stA.contains_key((Column::CellSet, h))) && (stA.contains_key((Column::CellSet, h))
            ==> ph.st[(Column::CellSet, h)] == stA[(Column::CellSet, h)])));
    assert(forall|h: Seq<u8>|
        #[trigger] is_block_tx(b, h) ==> ((ph.st.contains_key((Column::CellSet, h))
            <==> stA.contains_key((Column::CellSet, h))) && (stA.contains_key((Column::CellSet, h))
            ==> ph.st[(Column::CellSet, h)] == stA[(Column::CellSet, h)])));
}

#[verifier::rlimit(100)]
proof fn lemma_detach_unspends_inv_tx(
    cs0: Map<Seq<u8>, MetaV>,
    st0: Map<(Column, Seq<u8>), RecordV>,
    csA: Map<Seq<u8>, MetaV>,
    stA: Map<(Column, Seq<u8>), RecordV>,
    b: BlockV,
    t: int,
    k: int,
)
    requires
        cell_inversion_pre(cs0, st0, b),
        forall|h: Seq<u8>|
            !is_block_tx(b, h) && #[trigger] cs0.contains_key(h) ==> csA.contains_key(h),
        0 <= t < b.transactions.len(),
        0 <= k <= b.transactions[t].inputs.len(),
    ensures
        detach_unspends_inv(
            unspends_tx(
                unspends_block(CellPhase { metas: Seq::empty(), cs: csA, st: stA }, b, t),
                b,
                t,
                k,
            ),
            cs0,
            csA,
            stA,
            b,
            t,
            k,
        ),
    decreases t, k + 1,
{
    let phd0 = CellPhase { metas: Seq::empty(), cs: csA, st: stA };
    if k == 0 {
        lemma_detach_unspends_inv_block(cs0, st0, csA, stA, b, t);
    } else {
        lemma_detach_unspends_inv_tx(cs0, st0, csA, stA, b, t, k - 1);
        let pre = unspends_tx(unspends_block(phd0, b, t), b, t, k - 1);
        let post = unspends_tx(unspends_block(phd0, b, t), b, t, k);
        let op = b.transactions[t].inputs[k - 1];
        assert(post == crate::transaction::apply_unspend(pre, b, op));
        match op.cell {
            None => {
                assert forall|h: Seq<u8>|
                    #![trigger cleared_meta(csA[h], b, h, t, k)]
                    #![trigger h_spent_before(b, h, t, k)]
                    true implies (cleared_meta(csA[h], b, h, t, k) == cleared_meta(
                    csA[h],
                    b,
                    h,
                    t,
                    k - 1,
                ) && h_spent_before(b, h, t, k) == h_spent_before(b, h, t, k - 1)) by {
                    lemma_meta_step_same(csA[h], b, h, t, k - 1);
                }
                lemma_detach_inv_intro(post, cs0, csA, stA, b, t, k);
            },
            Some(c) => {
                if is_block_tx(b, c.tx_hash) {
                    assert forall|h: Seq<u8>|
                        #![trigger cleared_meta(csA[h], b, h, t, k)]
                        #![trigger h_spent_before(b, h, t, k)]
                        !is_block_tx(b, h) implies (cleared_meta(csA[h], b, h, t, k)
                        == cleared_meta(csA[h], b, h, t, k - 1) && h_spent_before(b, h, t, k)
                        == h_spent_before(b, h, t, k - 1)) by {
                        assert(c.tx_hash != h);
                        lemma_meta_step_same(csA[h], b, h, t, k - 1);
                    }
                    assert(post == pre);
                    assert(forall|h: Seq<u8>|
                        !is_block_tx(b, h) && cs0.contains_key(h) ==> #[trigger] post.cs.contains_key(h)
                            && post.cs[h] == cleared_meta(csA[h], b, h, t, k));
                    assert(forall|h: Seq<u8>|
                        !cs0.contains_key(h) && !is_block_tx(b, h) ==> ((
                        #[trigger] post.cs.contains_key(h)) <==> csA.contains_key(h)) && (
                        csA.contains_key(h) ==> post.cs[h] == csA[h]));
                    assert(forall|h: Seq<u8>|
                        #[trigger] is_block_tx(b, h) ==> (post.cs.contains_key(h)
                            <==> csA.contains_key(h)) && (csA.contains_key(h) ==> post.cs[h]
                            == csA[h]));
                    assert(other_cols_eq(post.st, stA));
                    assert forall|h: Seq<u8>|
                        !is_block_tx(b, h) && #[trigger] h_spent_before(b, h, t, k) implies
                        post.st.contains_key((Column::CellSet, h)) && post.st[(
                        Column::CellSet,
                        h,
                    )] == RecordV::Meta(cleared_meta(csA[h], b, h, t, k)) by {
                        assert(h_spent_before(b, h, t, k - 1));
                    }
                    assert forall|h: Seq<u8>|
                        !is_block_tx(b, h) && !(#[trigger] h_spent_before(b, h, t, k)) implies ((
                    post.st.contains_key((Column::CellSet, h)) <==> stA.contains_key(
                        (Column::CellSet, h),
                    )) && (stA.contains_key((Column::CellSet, h)) ==> post.st[(
                        Column::CellSet,
                        h,
                    )] == stA[(Column::CellSet, h)])) by {
                        assert(!h_spent_before(b, h, t, k - 1));
                    }
                    assert(forall|h: Seq<u8>|
                        #[trigger] is_block_tx(b, h) ==> ((post.st.contains_key(
                            (Column::CellSet, h),
                        ) <==> stA.contains_key((Column::CellSet, h))) && (stA.contains_key(
                            (Column::CellSet, h),
                        ) ==> post.st[(Column::CellSet, h)] == stA[(Column::CellSet, h)])));
                    assert(detach_unspends_inv(post, cs0, csA, stA, b, t, k));
                } else {
                    assert(cs0.contains_key(c.tx_hash));
                    assert(pre.cs.contains_key(c.tx_hash));
                    let m = pre.cs[c.tx_hash];
                    assert(m == cleared_meta(csA[c.tx_hash], b, c.tx_hash, t, k - 1));
                    lemma_meta_step_spend(csA[c.tx_hash], b, c, t, k - 1);
                    assert forall|h: Seq<u8>|
                        #![trigger cleared_meta(csA[h], b, h, t, k)]
                        #![trigger h_spent_before(b, h, t, k)]
                        h != c.tx_hash implies (cleared_meta(csA[h], b, h, t, k) == cleared_meta(
                        csA[h],
                        b,
                        h,
                        t,
                        k - 1,
                    ) && h_spent_before(b, h, t, k) == h_spent_before(b, h, t, k - 1)) by {
                        lemma_meta_step_same(csA[h], b, h, t, k - 1);
                    }
                    let m2 = crate::meta::clear_bit(m, c.index as int);
                    assert(crate::transaction::spend_lookup(pre.cs, pre.st, c.tx_hash) == Some(m));
                    assert(post.cs == pre.cs.insert(c.tx_hash, m2));
                    assert(post.st == pre.st.insert(
                        (Column::CellSet, c.tx_hash),
                        RecordV::Meta(m2),
                    ));
                    assert(m2 == cleared_meta(csA[c.tx_hash], b, c.tx_hash, t, k));
                    assert(h_spent_before(b, c.tx_hash, t, k));
                    assert forall|h: Seq<u8>|
                        !is_block_tx(b, h) && cs0.contains_key(h) implies #[trigger] post.cs.contains_key(
                        h,
                    ) && post.cs[h] == cleared_meta(csA[h], b, h, t, k) by {
                        if h != c.tx_hash {
                            assert(pre.cs.contains_key(h));
                        }
                    }
                    assert forall|h: Seq<u8>|
                        !is_block_tx(b, h) && #[trigger] h_spent_before(b, h, t, k) implies
                        post.st.contains_key((Column::CellSet, h)) && post.st[(
                        Column::CellSet,
                        h,
                    )] == RecordV::Meta(cleared_meta(csA[h], b, h, t, k)) by {
                        if h != c.tx_hash {
                            assert(h_spent_before(b, h, t, k - 1));
                        }
                    }
                    assert forall|h: Seq<u8>|
                        !is_block_tx(b, h) && !(#[trigger] h_spent_before(b, h, t, k)) implies ((
                    post.st.contains_key((Column::CellSet, h)) <==> stA.contains_key(
                        (Column::CellSet, h),
                    )) && (stA.contains_key((Column::CellSet, h)) ==> post.st[(
                        Column::CellSet,
                        h,
                    )] == stA[(Column::CellSet, h)])) by {
                        assert(h != c.tx_hash);
                        assert(!h_spent_before(b, h, t, k - 1));
                    }
                    lemma_other_cols_insert(
                        pre.st,
                        stA,
                        (Column::CellSet, c.tx_hash),
                        RecordV::Meta(m2),
                    );
                    lemma_detach_inv_intro(post, cs0, csA, stA, b, t, k);
                }
            },
        }
    }
}

proof fn lemma_detach_unspends_inv_block(
    cs0: Map<Seq<u8>, MetaV>,
    st0: Map<(Column, Seq<u8>), RecordV>,
    csA: Map<Seq<u8>, MetaV>,
    stA: Map<(Column, Seq<u8>), RecordV>,
    b: BlockV,
    t: int,
)
    requires
        cell_inversion_pre(cs0, st0, b),
        forall|h: Seq<u8>|
            !is_block_tx(b, h) && #[trigger] cs0.contains_key(h) ==> csA.contains_key(h),
        0 <= t <= b.transactions.len(),
    ensures
        detach_unspends_inv(
            unspends_block(CellPhase { metas: Seq::empty(), cs: csA, st: stA }, b, t),
            cs0,
            csA,
            stA,
            b,
            t,
            0,
        ),
    decreases t, 0int,
{
    let phd0 = CellPhase { metas: Seq::empty(), cs: csA, st: stA };
    if t == 0 {
        assert(unspends_block(phd0, b, 0) == phd0);
        lemma_other_cols_refl(stA);
        assert forall|h: Seq<u8>|
            #![trigger cleared_meta(csA[h], b, h, 0, 0)]
            #![trigger h_spent_before(b, h, 0, 0)]
            true implies (cleared_meta(csA[h], b, h, 0, 0) == csA[h] && !h_spent_before(
            b,
            h,
            0,
            0,
        )) by {
            lemma_meta_base(csA[h], b, h);
        }
    } else {
        let kk = b.transactions[t - 1].inputs.len() as int;
        lemma_detach_unspends_inv_tx(cs0, st0, csA, stA, b, t - 1, kk);
        assert(unspends_block(phd0, b, t) == unspends_tx(
            unspends_block(phd0, b, t - 1),
            b,
            t - 1,
            kk,
        ));
        assert forall|h: Seq<u8>|
            #![trigger cleared_meta(csA[h], b, h, t, 0)]
            #![trigger h_spent_before(b, h, t, 0)]
            true implies (cleared_meta(csA[h], b, h, t, 0) == cleared_meta(
            csA[h],
            b,
            h,
            t - 1,
            kk,
        ) && h_spent_before(b, h, t, 0) == h_spent_before(b, h, t - 1, kk)) by {
            lemma_meta_boundary(csA[h], b, h, t - 1);
        }
    }
}

proof fn lemma_spent_authority(
    cs0: Map<Seq<u8>, MetaV>,
    st0: Map<(Column, Seq<u8>), RecordV>,
    b: BlockV,
    h: Seq<u8>,
)
    requires
        cell_inversion_pre(cs0, st0, b),
        !is_block_tx(b, h),
        h_spent_before(b, h, b.transactions.len() as int, 0),
    ensures
        cs0.contains_key(h),
        crate::transaction::meta_record_of(st0, h) == Some(cs0[h]),
{
    let n = b.transactions.len() as int;
    let j = choose|j: int| #[trigger] spent_before(b, h, j, n, 0);
    let (t2, k2) = choose|t2: int, k2: int|
        0 <= t2 < b.transactions.len() && 0 <= k2 < b.transactions[t2].inputs.len() && (t2 < n || (
        t2 == n && k2 < 0)) && match (#[trigger] b.transactions[t2].inputs[k2]).cell {
            Some(c) => c.tx_hash == h && c.index as int == j,
            None => false,
        };
}

proof fn lemma_spent_live(
    cs0: Map<Seq<u8>, MetaV>,
    st0: Map<(Column, Seq<u8>), RecordV>,
    b: BlockV,
    h: Seq<u8>,
    j: int,
)
    requires
        cell_inversion_pre(cs0, st0, b),
        !is_block_tx(b, h),
        spent_before(b, h, j, b.transactions.len() as int, 0),
        cs0.contains_key(h),
    ensures
        j < cs0[h].dead_cell.len() ==> !cs0[h].dead_cell[j],
{
    let n = b.transactions.len() as int;
    let (t2, k2) = choose|t2: int, k2: int|
        0 <= t2 < b.transactions.len() && 0 <= k2 < b.transactions[t2].inputs.len() && (t2 < n || (
        t2 == n && k2 < 0)) && match (#[trigger] b.transactions[t2].inputs[k2]).cell {
            Some(c) => c.tx_hash == h && c.index as int == j,
            None => false,
        };
}

proof fn lemma_set_clear_round(
    cs0: Map<Seq<u8>, MetaV>,
    st0: Map<(Column, Seq<u8>), RecordV>,
    b: BlockV,
    h: Seq<u8>,
)
    requires
        cell_inversion_pre(cs0, st0, b),
        !is_block_tx(b, h),
        cs0.contains_key(h),
    ensures
        cleared_meta(
            updated_meta(cs0[h], b, h, b.transactions.len() as int, 0),
            b,
            h,
            b.transactions.len() as int,
            0,
        ) == cs0[h],
{
    let n = b.transactions.len() as int;
    let m0 = cs0[h];
    let m1 = updated_meta(m0, b, h, n, 0);
    let m2 = cleared_meta(m1, b, h, n, 0);
    assert forall|j: int| 0 <= j < m0.dead_cell.len() implies #[trigger] m2.dead_cell[j]
        == m0.dead_cell[j] by {
        if spent_before(b, h, j, n, 0) {
            lemma_spent_live(cs0, st0, b, h, j);
        }
    }
    assert(m2.dead_cell =~= m0.dead_cell);
}

/// Cell-set invertibility: for a block whose transaction hashes are fresh,
/// whose spends of earlier transactions target outputs the index holds
/// live and the cell-set column mirrors, detaching the block restores the
/// in-memory index and the cell-set column of the staged view exactly as
/// they were before the matching attach.
pub proof fn lemma_detach_inverts_attach_cells(
    cs0: Map<Seq<u8>, MetaV>,
    st0: Map<(Column, Seq<u8>), RecordV>,
    b: BlockV,
)
    requires
        cell_inversion_pre(cs0, st0, b),
    ensures
        detach_cell_result(
            attach_cell_result(cs0, st0, b).cs,
            attach_cell_result(cs0, st0, b).st,
            b,
        ).cs == cs0,
        detach_cell_result(
            attach_cell_result(cs0, st0, b).cs,
            attach_cell_result(cs0, st0, b).st,
            b,
        ).st == st0,
{
    let n = b.transactions.len() as int;
    let ph0 = CellPhase { metas: initial_metas(b), cs: cs0, st: st0 };
    lemma_attach_spends_inv_block(cs0, st0, b, n);
    let ph2 = spends_block(ph0, b, n);
    let a = install_metas(ph2, b, n);
    assert(attach_cell_result(cs0, st0, b) == a);
    let csa = a.cs;
    let sta = a.st;
    assert forall|h: Seq<u8>|
        !is_block_tx(b, h) && #[trigger] cs0.contains_key(h) implies csa.contains_key(h) by {
        assert(ph2.cs.contains_key(h));
        assert(forall|t: int|
            0 <= t < n ==> (Column::CellSet, h) != (
                Column::CellSet,
                (#[trigger] b.transactions[t]).hash,
            ));
        lemma_install_frame_at(ph2, b, n, (Column::CellSet, h));
    }
    lemma_detach_unspends_inv_block(cs0, st0, csa, sta, b, n);
    let phd0 = CellPhase { metas: Seq::empty(), cs: csa, st: sta };
    let phd = unspends_block(phd0, b, n);
    let d = remove_metas(phd, b, n);
    assert(detach_cell_result(csa, sta, b) == d);
    assert forall|h: Seq<u8>|
        (#[trigger] d.cs.contains_key(h) <==> cs0.contains_key(h)) && (cs0.contains_key(h)
            ==> d.cs[h] == cs0[h]) by {
        lemma_remove_metas_at(phd, b, n, h);
        if is_block_tx(b, h) {
            let t = choose|t: int|
                0 <= t < b.transactions.len() && (#[trigger] b.transactions[t]).hash == h;
            assert(exists|t2: int|
                0 <= t2 < n && (#[trigger] b.transactions[t2]).hash == h);
            assert(!d.cs.contains_key(h));
            assert(!cs0.contains_key(h));
        } else {
            assert(!(exists|t2: int|
                0 <= t2 < n && (#[trigger] b.transactions[t2]).hash == h)) by {
                if exists|t2: int| 0 <= t2 < n && (#[trigger] b.transactions[t2]).hash == h {
                    let t2 = choose|t2: int|
                        0 <= t2 < n && (#[trigger] b.transactions[t2]).hash == h;
                    assert(is_block_tx(b, h));
                }
            }
            assert(forall|t: int|
                0 <= t < n ==> (Column::CellSet, h) != (
                    Column::CellSet,
                    (#[trigger] b.transactions[t]).hash,
                ));
            lemma_install_frame_at(ph2, b, n, (Column::CellSet, h));
            if cs0.contains_key(h) {
                assert(csa.contains_key(h) && csa[h] == ph2.cs[h]);
                assert(ph2.cs[h] == updated_meta(cs0[h], b, h, n, 0));
                assert(phd.cs.contains_key(h) && phd.cs[h] == cleared_meta(csa[h], b, h, n, 0));
                lemma_set_clear_round(cs0, st0, b, h);
                assert(d.cs[h] == cs0[h]);
            } else {
                assert(!ph2.cs.contains_key(h));
                assert(!csa.contains_key(h));
                assert(!phd.cs.contains_key(h));
            }
        }
    }
    assert(d.cs =~= cs0);
    assert forall|p: (Column, Seq<u8>)|
        (#[trigger] d.st.contains_key(p) <==> st0.contains_key(p)) && (st0.contains_key(p)
            ==> d.st[p] == st0[p]) by {
        if p.0 != Column::CellSet {
            assert(forall|t: int|
                0 <= t < n ==> p != (Column::CellSet, (#[trigger] b.transactions[t]).hash));
            lemma_install_frame_at(ph2, b, n, p);
            lemma_other_cols_at(phd.st, sta, p);
            lemma_remove_metas_keeps_other(phd, b, n, p);
        } else {
            let h = p.1;
            assert(p == (Column::CellSet, h));
            lemma_remove_metas_at(phd, b, n, h);
            if is_block_tx(b, h) {
                let t = choose|t: int|
                    0 <= t < b.transactions.len() && (#[trigger] b.transactions[t]).hash == h;
                assert(exists|t2: int|
                    0 <= t2 < n && (#[trigger] b.transactions[t2]).hash == h);
                assert(!d.st.contains_key(p));
                assert(!st0.contains_key(p));
            } else {
                assert(!(exists|t2: int|
                    0 <= t2 < n && (#[trigger] b.transactions[t2]).hash == h)) by {
                    if exists|t2: int| 0 <= t2 < n && (#[trigger] b.transactions[t2]).hash == h {
                        let t2 = choose|t2: int|
                            0 <= t2 < n && (#[trigger] b.transactions[t2]).hash == h;
                        assert(is_block_tx(b, h));
                    }
                }
                assert(forall|t: int|
                    0 <= t < n ==> p != (Column::CellSet, (#[trigger] b.transactions[t]).hash));
                lemma_install_frame_at(ph2, b, n, p);
                if h_spent_before(b, h, n, 0) {
                    lemma_spent_authority(cs0, st0, b, h);
                    assert(st0.contains_key(p) && st0[p] == RecordV::Meta(cs0[h]));
                    assert(csa.contains_key(h) && csa[h] == ph2.cs[h]);
                    assert(ph2.cs[h] == updated_meta(cs0[h], b, h, n, 0));
                    assert(phd.st.contains_key(p) && phd.st[p] == RecordV::Meta(
                        cleared_meta(csa[h], b, h, n, 0),
                    ));
                    lemma_set_clear_round(cs0, st0, b, h);
                    assert(d.st[p] == st0[p]);
                } else {
                }
            }
        }
    }
    assert(d.st =~= st0);
}

/// Some input of the block spends output `j` of the transaction with
/// hash `h`.
pub open spec fn spends_output(b: BlockV, h: Seq<u8>, j: int) -> bool {
    exists|t: int, k: int|
        0 <= t < b.transactions.len() && 0 <= k < b.transactions[t].inputs.len() && match (
        #[trigger] b.transactions[t].inputs[k]).cell {
            Some(c) => c.tx_hash == h && c.index as int == j,
            None => false,
        }
}

/// Output `j` of the transaction with hash `h` was already recorded dead,
/// in the index or in the cell-set column, before the attach.
pub open spec fn pre_dead(
    cs0: Map<Seq<u8>, MetaV>,
    st0: Map<(Column, Seq<u8>), RecordV>,
    h: Seq<u8>,
    j: int,
) -> bool {
    (cs0.contains_key(h) && 0 <= j < cs0[h].dead_cell.len() && cs0[h].dead_cell[j]) || (
    match crate::transaction::meta_record_of(st0, h) {
        Some(m) => 0 <= j < m.dead_cell.len() && m.dead_cell[j],
        None => false,
    })
}

/// Every dead bit the phase records is justified: it was dead before the
/// attach began, or some input of the block spends exactly that output.
pub open spec fn mono_inv(
    ph: CellPhase,
    cs0: Map<Seq<u8>, MetaV>,
    st0: Map<(Column, Seq<u8>), RecordV>,
    b: BlockV,
) -> bool {
    &&& ph.metas.len() == b.transactions.len()
    &&& forall|x: int, j: int|
        0 <= x < ph.metas.len() && 0 <= j < ph.metas[x].dead_cell.len() && (
        #[trigger] ph.metas[x].dead_cell[j]) ==> spends_output(b, b.transactions[x].hash, j)
    &&& forall|h: Seq<u8>, j: int|
        ph.cs.contains_key(h) && 0 <= j < ph.cs[h].dead_cell.len() && (#[trigger] ph.cs[
            h
        ].dead_cell[j]) ==> pre_dead(cs0, st0, h, j) || spends_output(b, h, j)
    &&& forall|h: Seq<u8>, j: int|
        #![trigger crate::transaction::meta_record_of(ph.st, h), spends_output(b, h, j)]
        (crate::transaction::meta_record_of(ph.st, h) matches Some(m) && 0 <= j
            < m.dead_cell.len() && m.dead_cell[j]) ==> pre_dead(cs0, st0, h, j) || spends_output(
            b,
            h,
            j,
        )
}

proof fn lemma_spends_tx_mono(
    ph: CellPhase,
    cs0: Map<Seq<u8>, MetaV>,
    st0: Map<(Column, Seq<u8>), RecordV>,
    b: BlockV,
    t: int,
    k: int,
)
    requires
        mono_inv(ph, cs0, st0, b),
        0 <= t < b.transactions.len(),
        0 <= k <= b.transactions[t].inputs.len(),
    ensures
        mono_inv(spends_tx(ph, b, t, k), cs0, st0, b),
    decreases k,
{
    if k <= 0 {
    } else {
        lemma_spends_tx_mono(ph, cs0, st0, b, t, k - 1);
        let pre = spends_tx(ph, b, t, k - 1);
        let op = b.transactions[t].inputs[k - 1];
        let post = apply_spend(pre, b, op);
        match op.cell {
            None => {},
            Some(c) => {
                assert(spends_output(b, c.tx_hash, c.index as int));
                if is_block_tx(b, c.tx_hash) {
                    let t2 = crate::transaction::block_tx_index(b, c.tx_hash);
                    assert(0 <= t2 < b.transactions.len());
                    assert(b.transactions[t2].hash == c.tx_hash);
                    assert forall|x: int, j: int|
                        0 <= x < post.metas.len() && 0 <= j < post.metas[x].dead_cell.len() && (
                        #[trigger] post.metas[x].dead_cell[j]) implies spends_output(
                        b,
                        b.transactions[x].hash,
                        j,
                    ) by {
                        if x == t2 && j == c.index as int {
                        } else {
                            assert(post.metas[x].dead_cell[j] == pre.metas[x].dead_cell[j]);
                        }
                    }
                } else {
                    match crate::transaction::spend_lookup(pre.cs, pre.st, c.tx_hash) {
                        None => {},
                        Some(m) => {
                            let m2 = crate::meta::set_bit(m, c.index as int);
                            assert forall|h: Seq<u8>, j: int|
                                post.cs.contains_key(h) && 0 <= j < post.cs[h].dead_cell.len()
                                    && (#[trigger] post.cs[h].dead_cell[j]) implies pre_dead(
                                cs0,
                                st0,
                                h,
                                j,
                            ) || spends_output(b, h, j) by {
                                if h == c.tx_hash {
                                    if j != c.index as int {
                                        assert(m2.dead_cell[j] ==> m.dead_cell[j]);
                                        if !pre.cs.contains_key(h) {
                                            assert(crate::transaction::meta_record_of(pre.st, h)
                                                == Some(m));
                                        }
                                    }
                                } else {
                                    assert(post.cs[h] == pre.cs[h] && pre.cs.contains_key(h));
                                    assert(pre.cs[h].dead_cell[j]);
                                }
                            }
                            assert forall|h: Seq<u8>, j: int|
                                (crate::transaction::meta_record_of(post.st, h) matches Some(mm)
                                    && 0 <= j < mm.dead_cell.len() && mm.dead_cell[
                                    j
                                ]) implies pre_dead(cs0, st0, h, j) || spends_output(b, h, j) by {
                                assert(spends_output(b, c.tx_hash, c.index as int));
                                if h == c.tx_hash {
                                    if j != c.index as int {
                                        assert(m2.dead_cell[j] ==> m.dead_cell[j]);
                                        if pre.cs.contains_key(h) {
                                            assert(m == pre.cs[h]);
                                            assert(pre.cs[h].dead_cell[j] ==> pre_dead(
                                                cs0,
                                                st0,
                                                h,
                                                j,
                                            ) || spends_output(b, h, j));
                                        } else {
                                            assert(crate::transaction::meta_record_of(pre.st, h)
                                                == Some(m));
                                        }
                                    }
                                } else {
                                    assert(crate::transaction::meta_record_of(post.st, h)
                                        == crate::transaction::meta_record_of(pre.st, h));
                                }
                            }
                        },
                    }
                }
            },
        }
    }
}

proof fn lemma_spends_block_mono(
    ph: CellPhase,
    cs0: Map<Seq<u8>, MetaV>,
    st0: Map<(Column, Seq<u8>), RecordV>,
    b: BlockV,
    t: int,
)
    requires
        mono_inv(ph, cs0, st0, b),
        0 <= t <= b.transactions.len(),
    ensures
        mono_inv(spends_block(ph, b, t), cs0, st0, b),
    decreases t,
{
    if t <= 0 {
    } else {
        lemma_spends_block_mono(ph, cs0, st0, b, t - 1);
        lemma_spends_tx_mono(
            spends_block(ph, b, t - 1),
            cs0,
            st0,
            b,
            t - 1,
            b.transactions[t - 1].inputs.len() as int,
        );
    }
}

proof fn lemma_install_mono(
    ph: CellPhase,
    cs0: Map<Seq<u8>, MetaV>,
    st0: Map<(Column, Seq<u8>), RecordV>,
    b: BlockV,
    t: int,
)
    requires
        mono_inv(ph, cs0, st0, b),
        0 <= t <= b.transactions.len(),
    ensures
        mono_inv(install_metas(ph, b, t), cs0, st0, b),
    decreases t,
{
    if t <= 0 {
    } else {
        lemma_install_mono(ph, cs0, st0, b, t - 1);
        crate::transaction::lemma_install_metas_keeps_metas(ph, b, t - 1);
        let pre = install_metas(ph, b, t - 1);
        let post = install_metas(ph, b, t);
        let hh = b.transactions[t - 1].hash;
        assert forall|h: Seq<u8>, j: int|
            post.cs.contains_key(h) && 0 <= j < post.cs[h].dead_cell.len() && (#[trigger] post.cs[
                h
            ].dead_cell[j]) implies pre_dead(cs0, st0, h, j) || spends_output(b, h, j) by {
            if h == hh {
                assert(post.cs[h] == ph.metas[t - 1]);
            }
        }
        assert forall|h: Seq<u8>, j: int|
            #![trigger crate::transaction::meta_record_of(post.st, h), spends_output(b, h, j)]
            (crate::transaction::meta_record_of(post.st, h) matches Some(mm) && 0 <= j
                < mm.dead_cell.len() && mm.dead_cell[j]) implies pre_dead(cs0, st0, h, j)
            || spends_output(b, h, j) by {
            if h == hh {
                assert(crate::transaction::meta_record_of(post.st, h) == Some(ph.metas[t - 1]));
            } else {
                assert(crate::transaction::meta_record_of(post.st, h)
                    == crate::transaction::meta_record_of(pre.st, h));
            }
        }
    }
}

/// Bitmap monotonicity: a block's cell attach never records an output as
/// dead — in the index or in the staged cell-set column — unless it was
/// already dead before, or some input of the block spends exactly that
/// output.
pub proof fn lemma_attach_cell_monotone(
    cs0: Map<Seq<u8>, MetaV>,
    st0: Map<(Column, Seq<u8>), RecordV>,
    b: BlockV,
    h: Seq<u8>,
    j: int,
)
    requires
        pre_dead(attach_cell_result(cs0, st0, b).cs, attach_cell_result(cs0, st0, b).st, h, j),
    ensures
        pre_dead(cs0, st0, h, j) || spends_output(b, h, j),
{
    let n = b.transactions.len() as int;
    let ph0 = CellPhase { metas: initial_metas(b), cs: cs0, st: st0 };
    assert(mono_inv(ph0, cs0, st0, b));
    lemma_spends_block_mono(ph0, cs0, st0, b, n);
    lemma_install_mono(spends_block(ph0, b, n), cs0, st0, b, n);
    if spends_output(b, h, j) {
    } else {
        let x = attach_cell_result(cs0, st0, b);
        if x.cs.contains_key(h) && 0 <= j < x.cs[h].dead_cell.len() && x.cs[h].dead_cell[j] {
            assert(pre_dead(cs0, st0, h, j));
        } else {
            assert(match crate::transaction::meta_record_of(x.st, h) {
                Some(m) => 0 <= j < m.dead_cell.len() && m.dead_cell[j],
                None => false,
            });
            assert(pre_dead(cs0, st0, h, j) || spends_output(b, h, j));
        }
    }
}

/// The index and the staged view after attaching every block of a branch
/// in turn.
pub open spec fn attach_chain(
    cs: Map<Seq<u8>, MetaV>,
    st: Map<(Column, Seq<u8>), RecordV>,
    blocks: Seq<BlockV>,
) -> CellPhase
    decreases blocks.len(),
{
    if blocks.len() == 0 {
        CellPhase { metas: Seq::empty(), cs, st }
    } else {
        let p = attach_chain(cs, st, blocks.drop_last());
        attach_cell_result(p.cs, p.st, blocks.last())
    }
}

/// Bitmap monotonicity under single-branch growth: attaching a sequence
/// of blocks never creates a meta with a dead bit for an output that no
/// input of any of the blocks has referenced and that was not already
/// dead at the start.
pub proof fn lemma_chain_monotone(
    cs0: Map<Seq<u8>, MetaV>,
    st0: Map<(Column, Seq<u8>), RecordV>,
    blocks: Seq<BlockV>,
    h: Seq<u8>,
    j: int,
)
    requires
        pre_dead(attach_chain(cs0, st0, blocks).cs, attach_chain(cs0, st0, blocks).st, h, j),
    ensures
        pre_dead(cs0, st0, h, j) || exists|i: int|
            0 <= i < blocks.len() && #[trigger] spends_output(blocks[i], h, j),
    decreases blocks.len(),
{
    if blocks.len() == 0 {
    } else {
        let p = attach_chain(cs0, st0, blocks.drop_last());
        lemma_attach_cell_monotone(p.cs, p.st, blocks.last(), h, j);
        if spends_output(blocks.last(), h, j) {
            assert(spends_output(blocks[blocks.len() - 1], h, j));
        } else {
            lemma_chain_monotone(cs0, st0, blocks.drop_last(), h, j);
            if exists|i: int|
                0 <= i < blocks.drop_last().len() && #[trigger] spends_output(
                    blocks.drop_last()[i],
                    h,
                    j,
                ) {
                let i = choose|i: int|
                    0 <= i < blocks.drop_last().len() && #[trigger] spends_output(
                        blocks.drop_last()[i],
                        h,
                        j,
                    );
                assert(spends_output(blocks[i], h, j));
            }
        }
    }
}

/// Exactly one of the four cell statuses describes any reference: the
/// conditions the contract of `cell` distinguishes are mutually exclusive
/// and cover every case.
pub proof fn lemma_cell_status_exclusive(m: Map<(Column, Seq<u8>), RecordV>, op: OutPointV)
    ensures
        (cell_status_spec(m, op) is Unspecified) <==> op.cell is None,
        (cell_status_spec(m, op) is Unknown) <==> (op.cell matches Some(c) && (
        match crate::transaction::meta_record_of(m, c.tx_hash) {
            None => true,
            Some(meta) => c.index >= meta.dead_cell.len() || (!meta.dead_cell[c.index as int]
                && crate::transaction::cell_record_of(
                m,
                cell_key_spec(c.tx_hash, c.index),
            ) is None),
        })),
        (cell_status_spec(m, op) is Dead) <==> (op.cell matches Some(c)
            && crate::transaction::meta_record_of(m, c.tx_hash) matches Some(meta) && c.index
            < meta.dead_cell.len() && meta.dead_cell[c.index as int]),
        (cell_status_spec(m, op) is Live) <==> (op.cell matches Some(c)
            && crate::transaction::meta_record_of(m, c.tx_hash) matches Some(meta) && c.index
            < meta.dead_cell.len() && !meta.dead_cell[c.index as int]
            && crate::transaction::cell_record_of(m, cell_key_spec(c.tx_hash, c.index)) is Some),
{
}

} // verus!
