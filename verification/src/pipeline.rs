//! One block's end-to-end processing: extraction, composite keys, the
//! deduplicating write pass, and the projection of the pass's deltas.
//!
//! A failed extraction or an ordinal regression leaves the store untouched;
//! the caller treats either as fatal for the block and hands no partial
//! output on.

use vstd::prelude::*;

verus! {

use crate::hex::hex_encode;
use crate::hex::hex_of;
use crate::model::Block;
use crate::model::Diagnostic;
use crate::model::ExtractError;
use crate::model::NormalizedTransfer;
use crate::model::ProjectError;
use crate::model::StoreError;
use crate::model::TransferV;
use crate::model::clone_transfer;
use crate::normalize::diag_views;
use crate::normalize::spec_block_diags;
use crate::normalize::spec_block_transfers;
use crate::normalize::transfer_views;
use crate::normalize::transform_block_to_transfers;
use crate::numeric::dec_rep;
use crate::numeric::u64_to_dec;
use crate::project::RelationalChange;
use crate::project::project_deltas;
use crate::project::spec_project;
use crate::project::delta_input_ok;
use crate::store::AppendStore;
use crate::store::DeltaV;
use crate::store::Operation;
use crate::store::apply_snie;
use crate::store::delta_views;
use crate::store::has_key;
use crate::store::snie;
use crate::store::wf_delta;
use vstd::string::StringExecFns;

/// A fatal condition of one block's processing.
#[derive(Clone, Copy, PartialEq, Eq, Structural, Debug)]
pub enum PipelineError {
    Extract(ExtractError),
    Store(StoreError),
    Project(ProjectError),
}

/// The composite uniqueness key of a record: the hexadecimal renderings of
/// contract, token id, sender, receiver and transaction hash, then the
/// decimal ordinal, dash-joined.
pub open spec fn spec_unique_key(t: TransferV) -> Seq<char> {
    hex_of(t.contract_address) + "-"@ + hex_of(t.token_id) + "-"@ + hex_of(t.from_address) + "-"@
        + hex_of(t.to_address) + "-"@ + hex_of(t.tx_hash) + "-"@ + dec_rep(t.ordinal as nat)
}

/// The write list of a record sequence: each record under its composite
/// key, in order.
pub open spec fn spec_writes(recs: Seq<TransferV>) -> Seq<(Seq<char>, TransferV)> {
    Seq::new(recs.len(), |i: int| (spec_unique_key(recs[i]), recs[i]))
}

/// The ordinals of a record sequence never step down.
pub open spec fn nondecreasing_ordinals(recs: Seq<TransferV>) -> bool {
    forall|i: int, j: int|
        #![trigger recs[i], recs[j]]
        0 <= i && j == i + 1 && j < recs.len() ==> recs[i].ordinal <= recs[j].ordinal
}

/// One write pass over the entry sequence: the entries after all
/// set-if-not-exists writes, and the create deltas the pass records, in
/// write order.
pub open spec fn run_pass(es: Seq<(Seq<char>, TransferV)>, recs: Seq<TransferV>) -> (
    Seq<(Seq<char>, TransferV)>,
    Seq<DeltaV>,
)
    decreases recs.len(),
{
    if recs.len() == 0 {
        (es, Seq::empty())
    } else {
        let k = spec_unique_key(recs[0]);
        let step = run_pass(snie(es, k, recs[0]), recs.drop_first());
        let d: Seq<DeltaV> = if has_key(es, k) {
            Seq::empty()
        } else {
            seq![
                (DeltaV {
                    key: k,
                    ordinal: recs[0].ordinal,
                    operation: Operation::Create,
                    old_value: None,
                    new_value: recs[0],
                }),
            ]
        };
        (step.0, d + step.1)
    }
}

/// Extending a pass by one record applies one more set-if-not-exists write
/// and records its delta, if any.
proof fn lemma_run_pass_push(es: Seq<(Seq<char>, TransferV)>, recs: Seq<TransferV>, t: TransferV)
    ensures
        ({
            let prior = run_pass(es, recs);
            let k = spec_unique_key(t);
            run_pass(es, recs.push(t)) == (
                snie(prior.0, k, t),
                prior.1 + (if has_key(prior.0, k) {
                    Seq::<DeltaV>::empty()
                } else {
                    seq![
                        (DeltaV {
                            key: k,
                            ordinal: t.ordinal,
                            operation: Operation::Create,
                            old_value: None,
                            new_value: t,
                        }),
                    ]
                }),
            )
        }),
    decreases recs.len(),
{
    let k = spec_unique_key(t);
    if recs.len() == 0 {
        assert(recs.push(t)[0] == t);
        assert(recs.push(t).drop_first() =~= Seq::<TransferV>::empty());
        assert(run_pass(es, recs) == (es, Seq::<DeltaV>::empty()));
        assert(run_pass(snie(es, k, t), Seq::<TransferV>::empty()) == (
            snie(es, k, t),
            Seq::<DeltaV>::empty(),
        ));
        assert(run_pass(es, recs.push(t)).0 == snie(es, k, t));
        assert(run_pass(es, recs.push(t)).1 =~= run_pass(es, recs).1 + (if has_key(
            run_pass(es, recs).0,
            k,
        ) {
            Seq::<DeltaV>::empty()
        } else {
            seq![
                (DeltaV {
                    key: k,
                    ordinal: t.ordinal,
                    operation: Operation::Create,
                    old_value: None,
                    new_value: t,
                }),
            ]
        }));
    } else {
        let k0 = spec_unique_key(recs[0]);
        assert(recs.push(t)[0] == recs[0]);
        assert(recs.push(t).drop_first() =~= recs.drop_first().push(t));
        lemma_run_pass_push(snie(es, k0, recs[0]), recs.drop_first(), t);
        let prior = run_pass(es, recs);
        let d0: Seq<DeltaV> = if has_key(es, k0) {
            Seq::empty()
        } else {
            seq![
                (DeltaV {
                    key: k0,
                    ordinal: recs[0].ordinal,
                    operation: Operation::Create,
                    old_value: None,
                    new_value: recs[0],
                }),
            ]
        };
        let dt: Seq<DeltaV> = if has_key(prior.0, k) {
            Seq::empty()
        } else {
            seq![
                (DeltaV {
                    key: k,
                    ordinal: t.ordinal,
                    operation: Operation::Create,
                    old_value: None,
                    new_value: t,
                }),
            ]
        };
        assert(run_pass(es, recs.push(t)).1 =~= prior.1 + dt) by {
            let sub = run_pass(snie(es, k0, recs[0]), recs.drop_first());
            assert(run_pass(es, recs.push(t)).1 == d0 + (sub.1 + dt));
            assert(prior.1 == d0 + sub.1);
            assert(d0 + (sub.1 + dt) =~= (d0 + sub.1) + dt);
        }
    }
}

/// The entries a pass leaves behind are the set-if-not-exists fold of its
/// write list.
pub proof fn lemma_run_pass_entries(es: Seq<(Seq<char>, TransferV)>, recs: Seq<TransferV>)
    ensures
        run_pass(es, recs).0 == apply_snie(es, spec_writes(recs)),
    decreases recs.len(),
{
    if recs.len() > 0 {
        let k = spec_unique_key(recs[0]);
        assert(spec_writes(recs)[0] == (k, recs[0]));
        assert(spec_writes(recs).drop_first() =~= spec_writes(recs.drop_first()));
        lemma_run_pass_entries(snie(es, k, recs[0]), recs.drop_first());
    }
}

proof fn lemma_run_pass_noop(es: Seq<(Seq<char>, TransferV)>, recs: Seq<TransferV>)
    requires
        forall|j: int| 0 <= j < recs.len() ==> has_key(es, spec_unique_key(#[trigger] recs[j])),
    ensures
        run_pass(es, recs) == (es, Seq::<DeltaV>::empty()),
    decreases recs.len(),
{
    if recs.len() > 0 {
        let k = spec_unique_key(recs[0]);
        assert(has_key(es, k));
        assert(snie(es, k, recs[0]) == es);
        assert forall|j: int| 0 <= j < recs.drop_first().len() implies has_key(
            es,
            spec_unique_key(#[trigger] recs.drop_first()[j]),
        ) by {
            assert(recs.drop_first()[j] == recs[j + 1]);
        }
        lemma_run_pass_noop(es, recs.drop_first());
        assert(run_pass(es, recs).1 =~= Seq::<DeltaV>::empty());
    }
}

/// Law: re-running an identical write pass on the store contents it produced
/// is a no-op: the entries stay exactly as they were and the repeated pass
/// records no delta, because every key already exists.
pub proof fn lemma_pass_idempotent(es: Seq<(Seq<char>, TransferV)>, recs: Seq<TransferV>)
    ensures
        run_pass(run_pass(es, recs).0, recs).0 == run_pass(es, recs).0,
        run_pass(run_pass(es, recs).0, recs).1 == Seq::<DeltaV>::empty(),
{
    let es1 = run_pass(es, recs).0;
    lemma_run_pass_entries(es, recs);
    crate::store::lemma_apply_has_all_keys(es, spec_writes(recs));
    assert forall|j: int| 0 <= j < recs.len() implies has_key(
        es1,
        spec_unique_key(#[trigger] recs[j]),
    ) by {
        assert(spec_writes(recs)[j] == (spec_unique_key(recs[j]), recs[j]));
    }
    lemma_run_pass_noop(es1, recs);
}

/// Builds a record's composite uniqueness key.
pub fn unique_key(t: &NormalizedTransfer) -> (r: String)
    ensures
        r@ == spec_unique_key(t@),
{
    let mut s = hex_encode(&t.contract_address);
    s.append("-");
    let part_token = hex_encode(&t.token_id);
    s.append(part_token.as_str());
    s.append("-");
    let part_from = hex_encode(&t.from_address);
    s.append(part_from.as_str());
    s.append("-");
    let part_to = hex_encode(&t.to_address);
    s.append(part_to.as_str());
    s.append("-");
    let part_tx = hex_encode(&t.tx_hash);
    s.append(part_tx.as_str());
    s.append("-");
    let part_ord = u64_to_dec(t.ordinal);
    s.append(part_ord.as_str());
    s
}

/// Decides whether a record sequence's ordinals are non-decreasing.
fn check_ordinals(transfers: &Vec<NormalizedTransfer>) -> (r: bool)
    ensures
        r == nondecreasing_ordinals(transfer_views(transfers@)),
{
    let ghost recs = transfer_views(transfers@);
    let mut idx: usize = 1;
    while idx < transfers.len()
        invariant
            1 <= idx,
            recs == transfer_views(transfers@),
            recs.len() == transfers@.len(),
            forall|p: int, q: int|
                #![trigger recs[p], recs[q]]
                1 <= q < idx && q < recs.len() && p == q - 1 ==> recs[q].ordinal
                    >= recs[p].ordinal,
        decreases transfers@.len() - idx,
    {
        proof {
            assert(recs[idx as int] == transfers@[idx as int]@);
            assert(recs[idx - 1] == transfers@[idx - 1]@);
        }
        if transfers[idx].ordinal < transfers[idx - 1].ordinal {
            proof {
                assert(!nondecreasing_ordinals(recs)) by {
                    if nondecreasing_ordinals(recs) {
                        assert(recs[idx - 1].ordinal <= recs[idx as int].ordinal);
                    }
                }
            }
            return false;
        }
        idx = idx + 1;
        proof {
            assert(recs[idx - 1].ordinal >= recs[idx - 2].ordinal);
        }
    }
    proof {
        assert(nondecreasing_ordinals(recs)) by {
            assert forall|q: int, w: int|
                #![trigger recs[q], recs[w]]
                0 <= q && w == q + 1 && w < recs.len() implies recs[q].ordinal
                <= recs[w].ordinal by {
                assert(recs[w].ordinal >= recs[w - 1].ordinal);
            }
        }
    }
    true
}

/// Writes a record sequence with non-decreasing ordinals into a fresh pass,
/// each record under its composite key.
fn write_transfers(store: &mut AppendStore, transfers: &Vec<NormalizedTransfer>)
    requires
        old(store).wf(),
        !old(store).spec_written(),
        old(store).spec_deltas() == Seq::<DeltaV>::empty(),
        nondecreasing_ordinals(transfer_views(transfers@)),
    ensures
        final(store).wf(),
        final(store).entries_view() == run_pass(
            old(store).entries_view(),
            transfer_views(transfers@),
        ).0,
        final(store).spec_deltas() == run_pass(
            old(store).entries_view(),
            transfer_views(transfers@),
        ).1,
{
    let ghost recs = transfer_views(transfers@);
    let ghost es0 = old(store).entries_view();
    proof {
        assert(recs.take(0) =~= Seq::<TransferV>::empty());
        assert(store.spec_deltas() =~= run_pass(es0, recs.take(0)).1);
    }
    let mut i: usize = 0;
    while i < transfers.len()
        invariant
            i <= transfers@.len(),
            recs == transfer_views(transfers@),
            recs.len() == transfers@.len(),
            nondecreasing_ordinals(recs),
            es0 == old(store).entries_view(),
            store.wf(),
            store.entries_view() == run_pass(es0, recs.take(i as int)).0,
            store.spec_deltas() == run_pass(es0, recs.take(i as int)).1,
            i > 0 ==> store.spec_written() && store.spec_last_ordinal() == recs[i - 1].ordinal,
            i == 0 ==> !store.spec_written(),
        decreases transfers@.len() - i,
    {
        let t = &transfers[i];
        proof {
            assert(recs[i as int] == transfers@[i as int]@);
            if i > 0 {
                assert(recs[i - 1].ordinal <= recs[i as int].ordinal);
            }
            assert(store.accepts_ordinal(t.ordinal));
        }
        let key = unique_key(t);
        let value = clone_transfer(t);
        let ghost pre_entries = store.entries_view();
        let ghost pre_deltas = store.spec_deltas();
        let wrote = store.set_if_not_exists(t.ordinal, key, value);
        proof {
            assert(wrote is Ok);
        }
        i = i + 1;
        proof {
            lemma_run_pass_push(es0, recs.take(i - 1), recs[i - 1]);
            assert(recs.take(i as int) =~= recs.take(i - 1).push(recs[i - 1]));
            assert(store.entries_view() == run_pass(es0, recs.take(i as int)).0) by {
                assert(store.entries_view() == snie(
                    pre_entries,
                    spec_unique_key(recs[i - 1]),
                    recs[i - 1],
                ));
            }
            assert(store.spec_deltas() == run_pass(es0, recs.take(i as int)).1) by {
                if has_key(pre_entries, spec_unique_key(recs[i - 1])) {
                    assert(pre_deltas + Seq::<DeltaV>::empty() =~= pre_deltas);
                } else {
                    assert(pre_deltas + seq![
                        (DeltaV {
                            key: spec_unique_key(recs[i - 1]),
                            ordinal: recs[i - 1].ordinal,
                            operation: Operation::Create,
                            old_value: None,
                            new_value: recs[i - 1],
                        }),
                    ] =~= pre_deltas.push(
                        (DeltaV {
                            key: spec_unique_key(recs[i - 1]),
                            ordinal: recs[i - 1].ordinal,
                            operation: Operation::Create,
                            old_value: None,
                            new_value: recs[i - 1],
                        }),
                    ));
                }
            }
        }
    }
    proof {
        assert(recs.take(recs.len() as int) =~= recs);
    }
}

/// Processes one block: extracts its transfers, writes them into the store
/// under their composite keys in a fresh pass, and projects the pass's
/// deltas into relational changes.  Extraction failures and ordinal
/// regressions are fatal and leave the store exactly as it was.
pub fn process_block(store: &mut AppendStore, blk: &Block) -> (r: Result<
    (Vec<RelationalChange>, Vec<Diagnostic>),
    PipelineError,
>)
    requires
        old(store).wf(),
    ensures
        final(store).wf(),
        match r {
            Ok(p) => blk@.header matches Some(hd) && hd.timestamp matches Some(ts) && {
                let recs = spec_block_transfers(blk@, ts);
                let pass = run_pass(old(store).entries_view(), recs);
                &&& nondecreasing_ordinals(recs)
                &&& final(store).entries_view() == pass.0
                &&& final(store).spec_deltas() == pass.1
                &&& p.0@.len() == pass.1.len()
                &&& forall|i: int|
                    0 <= i < pass.1.len() ==> (#[trigger] p.0@[i])@ == spec_project(pass.1[i])
                &&& diag_views(p.1@) == spec_block_diags(blk@)
            },
            Err(e) => {
                &&& final(store).entries_view() == old(store).entries_view()
                &&& final(store).spec_deltas() == old(store).spec_deltas()
                &&& final(store).spec_written() == old(store).spec_written()
                &&& match e {
                    PipelineError::Extract(x) => match blk@.header {
                        None => x == ExtractError::MissingHeader,
                        Some(hd) => hd.timestamp is None && x == ExtractError::MissingTimestamp,
                    },
                    PipelineError::Store(x) => x == StoreError::OrdinalRegression && (
                    blk@.header matches Some(hd) && hd.timestamp matches Some(ts)
                        && !nondecreasing_ordinals(spec_block_transfers(blk@, ts))),
                    PipelineError::Project(_) => false,
                }
            },
        },
{
    let pair = match transform_block_to_transfers(blk) {
        Ok(p) => p,
        Err(e) => {
            return Err(PipelineError::Extract(e));
        },
    };
    let transfers = pair.0;
    let diags = pair.1;
    let ghost ts = blk@.header->Some_0.timestamp->Some_0;
    let ghost recs = spec_block_transfers(blk@, ts);
    proof {
        assert(transfer_views(transfers@) == recs);
    }
    if !check_ordinals(&transfers) {
        return Err(PipelineError::Store(StoreError::OrdinalRegression));
    }
    store.begin_pass();
    write_transfers(store, &transfers);
    let deltas = store.deltas();
    proof {
        assert forall|q: int| 0 <= q < deltas@.len() implies delta_input_ok(
            (#[trigger] deltas@[q])@,
        ) by {
            assert(delta_views(deltas@)[q] == deltas@[q]@);
            assert(wf_delta(store.spec_deltas()[q]));
        }
    }
    let changes = match project_deltas(deltas) {
        Ok(c) => c,
        Err(e) => {
            proof {
                let q = choose|q: int|
                    0 <= q < deltas@.len() && (#[trigger] deltas@[q])@.operation is Delete;
                assert(delta_views(deltas@)[q] == deltas@[q]@);
                assert(wf_delta(store.spec_deltas()[q]));
                assert(false);
            }
            return Err(PipelineError::Project(e));
        },
    };
    proof {
        assert forall|q: int| 0 <= q < store.spec_deltas().len() implies (#[trigger] changes@[q])@
            == spec_project(store.spec_deltas()[q]) by {
            assert(delta_views(deltas@)[q] == deltas@[q]@);
            assert(changes@[q]@ == spec_project(deltas@[q]@));
        }
    }
    Ok((changes, diags))
}

} // verus!
