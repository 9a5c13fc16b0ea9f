//! The transfer normalizer: turns one block's receipts and logs into the
//! ordered sequence of normalized transfer records.
//!
//! Each log is tried against the four known event shapes in a fixed priority
//! order; the first match is translated.  A semi-fungible batch whose id and
//! value sequences disagree in length is dropped whole, with a diagnostic,
//! and the rest of the block is still processed.

use vstd::prelude::*;

verus! {

use crate::decode::SEMI_BATCH_SIG;
use crate::decode::SEMI_SINGLE_SIG;
use crate::decode::TRANSFER_SIG;
use crate::decode::SemiBatchEvent;
use crate::decode::SemiSingleEvent;
use crate::decode::SingleAssetEvent;
use crate::decode::NonFungibleEvent;
use crate::decode::batch_ids;
use crate::decode::batch_n1;
use crate::decode::batch_n2;
use crate::decode::batch_values;
use crate::decode::decode_non_fungible;
use crate::decode::decode_semi_batch;
use crate::decode::decode_semi_single;
use crate::decode::decode_single_asset;
use crate::decode::non_fungible_match;
use crate::decode::semi_batch_match;
use crate::decode::semi_single_match;
use crate::decode::single_asset_match;
use crate::decode::topic_addr;
use crate::model::Block;
use crate::model::BlockV;
use crate::model::Diagnostic;
use crate::model::DiagnosticV;
use crate::model::ExtractError;
use crate::model::LogV;
use crate::model::NormalizedTransfer;
use crate::model::Receipt;
use crate::model::ReceiptV;
use crate::model::Schema;
use crate::model::Timestamp;
use crate::model::TransferV;
use crate::model::clone_bytes;
use crate::model::wf_transfer;
use crate::model::lemma_dec_rep_wf;
use crate::numeric::be_val;
use crate::numeric::dec_rep;
use crate::numeric::dec_string_of_be;
use crate::numeric::min_be;
use crate::numeric::min_be_bytes;
use crate::numeric::u64_to_dec;

/// The element views of a sequence of transfer records.
pub open spec fn transfer_views(s: Seq<NormalizedTransfer>) -> Seq<TransferV> {
    s.map_values(|t: NormalizedTransfer| t@)
}

/// The element views of a sequence of diagnostics.
pub open spec fn diag_views(s: Seq<Diagnostic>) -> Seq<DiagnosticV> {
    s.map_values(|d: Diagnostic| d@)
}

/// The record a fungible transfer event in log `l` yields.
pub open spec fn spec_single_asset_record(bn: u64, ts: Timestamp, h: Seq<u8>, l: LogV) -> TransferV {
    TransferV {
        schema: Schema::SingleAsset,
        contract_address: l.address,
        from_address: topic_addr(l, 1),
        to_address: topic_addr(l, 2),
        operator_address: Seq::empty(),
        token_id: Seq::empty(),
        quantity: dec_rep(be_val(l.data)),
        tx_hash: h,
        block_number: bn,
        ordinal: l.block_index as u64,
        timestamp: ts,
    }
}

/// The record a non-fungible transfer event in log `l` yields.
pub open spec fn spec_non_fungible_record(bn: u64, ts: Timestamp, h: Seq<u8>, l: LogV) -> TransferV {
    TransferV {
        schema: Schema::NonFungible,
        contract_address: l.address,
        from_address: topic_addr(l, 1),
        to_address: topic_addr(l, 2),
        operator_address: Seq::empty(),
        token_id: min_be(l.topics[3]),
        quantity: dec_rep(1),
        tx_hash: h,
        block_number: bn,
        ordinal: l.block_index as u64,
        timestamp: ts,
    }
}

/// The record a semi-fungible single transfer event in log `l` yields.
pub open spec fn spec_semi_single_record(bn: u64, ts: Timestamp, h: Seq<u8>, l: LogV) -> TransferV {
    TransferV {
        schema: Schema::SemiFungible,
        contract_address: l.address,
        from_address: topic_addr(l, 2),
        to_address: topic_addr(l, 3),
        operator_address: topic_addr(l, 1),
        token_id: min_be(l.data.subrange(0, 32)),
        quantity: dec_rep(be_val(l.data.subrange(32, 64))),
        tx_hash: h,
        block_number: bn,
        ordinal: l.block_index as u64,
        timestamp: ts,
    }
}

/// The record index `i` of a semi-fungible batch transfer event in log `l`
/// yields.
pub open spec fn spec_semi_batch_record(bn: u64, ts: Timestamp, h: Seq<u8>, l: LogV, i: int) -> TransferV {
    TransferV {
        schema: Schema::SemiFungible,
        contract_address: l.address,
        from_address: topic_addr(l, 2),
        to_address: topic_addr(l, 3),
        operator_address: topic_addr(l, 1),
        token_id: min_be(batch_ids(l.data)[i]),
        quantity: dec_rep(be_val(batch_values(l.data)[i])),
        tx_hash: h,
        block_number: bn,
        ordinal: l.block_index as u64,
        timestamp: ts,
    }
}

/// The records one log contributes: the first matching shape's translation,
/// in priority order; a batch contributes one record per index pair, or none
/// when its id and value counts disagree.
pub open spec fn spec_log_transfers(bn: u64, ts: Timestamp, h: Seq<u8>, l: LogV) -> Seq<TransferV> {
    if single_asset_match(l) {
        seq![spec_single_asset_record(bn, ts, h, l)]
    } else if non_fungible_match(l) {
        seq![spec_non_fungible_record(bn, ts, h, l)]
    } else if semi_single_match(l) {
        seq![spec_semi_single_record(bn, ts, h, l)]
    } else if semi_batch_match(l) {
        if batch_n1(l.data) == batch_n2(l.data) {
            Seq::new(batch_n1(l.data), |i: int| spec_semi_batch_record(bn, ts, h, l, i))
        } else {
            Seq::empty()
        }
    } else {
        Seq::empty()
    }
}

/// The diagnostics one log contributes: one exactly for a batch whose id and
/// value counts disagree.
pub open spec fn spec_log_diags(h: Seq<u8>, l: LogV) -> Seq<DiagnosticV> {
    if semi_batch_match(l) && batch_n1(l.data) != batch_n2(l.data) {
        seq![
            (DiagnosticV {
                tx_hash: h,
                ordinal: l.block_index as u64,
                ids_len: batch_n1(l.data),
                values_len: batch_n2(l.data),
            }),
        ]
    } else {
        Seq::empty()
    }
}

/// The records contributed by a sequence of logs, in log order.
pub open spec fn spec_logs_transfers(bn: u64, ts: Timestamp, h: Seq<u8>, logs: Seq<LogV>) -> Seq<
    TransferV,
>
    decreases logs.len(),
{
    if logs.len() == 0 {
        Seq::empty()
    } else {
        spec_logs_transfers(bn, ts, h, logs.drop_last()) + spec_log_transfers(
            bn,
            ts,
            h,
            logs.last(),
        )
    }
}

/// The diagnostics contributed by a sequence of logs, in log order.
pub open spec fn spec_logs_diags(h: Seq<u8>, logs: Seq<LogV>) -> Seq<DiagnosticV>
    decreases logs.len(),
{
    if logs.len() == 0 {
        Seq::empty()
    } else {
        spec_logs_diags(h, logs.drop_last()) + spec_log_diags(h, logs.last())
    }
}

/// The records contributed by a sequence of receipts, in receipt order.
pub open spec fn spec_receipts_transfers(bn: u64, ts: Timestamp, rs: Seq<ReceiptV>) -> Seq<
    TransferV,
>
    decreases rs.len(),
{
    if rs.len() == 0 {
        Seq::empty()
    } else {
        spec_receipts_transfers(bn, ts, rs.drop_last()) + spec_logs_transfers(
            bn,
            ts,
            rs.last().tx_hash,
            rs.last().logs,
        )
    }
}

/// The diagnostics contributed by a sequence of receipts, in receipt order.
pub open spec fn spec_receipts_diags(rs: Seq<ReceiptV>) -> Seq<DiagnosticV>
    decreases rs.len(),
{
    if rs.len() == 0 {
        Seq::empty()
    } else {
        spec_receipts_diags(rs.drop_last()) + spec_logs_diags(rs.last().tx_hash, rs.last().logs)
    }
}

/// All records of a block, given its timestamp.
pub open spec fn spec_block_transfers(b: BlockV, ts: Timestamp) -> Seq<TransferV> {
    spec_receipts_transfers(b.number, ts, b.receipts)
}

/// All diagnostics of a block.
pub open spec fn spec_block_diags(b: BlockV) -> Seq<DiagnosticV> {
    spec_receipts_diags(b.receipts)
}

/// Builds the record for a fungible transfer event.
pub fn new_single_asset_transfer(
    hash: &Vec<u8>,
    ordinal: u32,
    contract_address: Vec<u8>,
    block_number: u64,
    timestamp: Timestamp,
    event: SingleAssetEvent,
) -> (t: NormalizedTransfer)
    ensures
        t@ == (TransferV {
            schema: Schema::SingleAsset,
            contract_address: contract_address@,
            from_address: event.from@,
            to_address: event.to@,
            operator_address: Seq::empty(),
            token_id: Seq::empty(),
            quantity: dec_rep(be_val(event.value@)),
            tx_hash: hash@,
            block_number: block_number,
            ordinal: ordinal as u64,
            timestamp: timestamp,
        }),
        wf_transfer(t@),
{
    let quantity = dec_string_of_be(&event.value);
    proof {
        lemma_dec_rep_wf(be_val(event.value@));
    }
    NormalizedTransfer {
        schema: Schema::SingleAsset,
        contract_address,
        from_address: event.from,
        to_address: event.to,
        operator_address: Vec::new(),
        token_id: Vec::new(),
        quantity,
        tx_hash: clone_bytes(hash),
        block_number,
        ordinal: ordinal as u64,
        timestamp,
    }
}

/// Builds the record for a non-fungible transfer event; the quantity is
/// always one.
pub fn new_non_fungible_transfer(
    hash: &Vec<u8>,
    ordinal: u32,
    contract_address: Vec<u8>,
    block_number: u64,
    timestamp: Timestamp,
    event: NonFungibleEvent,
) -> (t: NormalizedTransfer)
    ensures
        t@ == (TransferV {
            schema: Schema::NonFungible,
            contract_address: contract_address@,
            from_address: event.from@,
            to_address: event.to@,
            operator_address: Seq::empty(),
            token_id: min_be(event.token_id@),
            quantity: dec_rep(1),
            tx_hash: hash@,
            block_number: block_number,
            ordinal: ordinal as u64,
            timestamp: timestamp,
        }),
        wf_transfer(t@),
        be_val(t@.token_id) == be_val(event.token_id@),
{
    let quantity = u64_to_dec(1);
    let token_id = min_be_bytes(&event.token_id);
    proof {
        lemma_dec_rep_wf(1);
        crate::numeric::lemma_min_be_len(event.token_id@);
        crate::numeric::lemma_min_be_val(event.token_id@);
    }
    NormalizedTransfer {
        schema: Schema::NonFungible,
        contract_address,
        from_address: event.from,
        to_address: event.to,
        operator_address: Vec::new(),
        token_id,
        quantity,
        tx_hash: clone_bytes(hash),
        block_number,
        ordinal: ordinal as u64,
        timestamp,
    }
}

/// Builds one semi-fungible record, shared by the single and batch shapes.
pub fn new_semi_fungible_transfer(
    hash: &Vec<u8>,
    ordinal: u32,
    from: &Vec<u8>,
    to: &Vec<u8>,
    token_id: &Vec<u8>,
    quantity: &Vec<u8>,
    operator: &Vec<u8>,
    contract_address: &Vec<u8>,
    block_number: u64,
    timestamp: Timestamp,
) -> (t: NormalizedTransfer)
    ensures
        t@ == (TransferV {
            schema: Schema::SemiFungible,
            contract_address: contract_address@,
            from_address: from@,
            to_address: to@,
            operator_address: operator@,
            token_id: min_be(token_id@),
            quantity: dec_rep(be_val(quantity@)),
            tx_hash: hash@,
            block_number: block_number,
            ordinal: ordinal as u64,
            timestamp: timestamp,
        }),
        wf_transfer(t@),
        be_val(t@.token_id) == be_val(token_id@),
{
    proof {
        lemma_dec_rep_wf(be_val(quantity@));
        crate::numeric::lemma_min_be_len(token_id@);
        crate::numeric::lemma_min_be_val(token_id@);
    }
    NormalizedTransfer {
        schema: Schema::SemiFungible,
        contract_address: clone_bytes(contract_address),
        from_address: clone_bytes(from),
        to_address: clone_bytes(to),
        operator_address: clone_bytes(operator),
        token_id: min_be_bytes(token_id),
        quantity: dec_string_of_be(quantity),
        tx_hash: clone_bytes(hash),
        block_number,
        ordinal: ordinal as u64,
        timestamp,
    }
}

/// Builds the record for a semi-fungible single transfer event.
pub fn new_semi_fungible_single_transfer(
    hash: &Vec<u8>,
    ordinal: u32,
    contract_address: Vec<u8>,
    block_number: u64,
    timestamp: Timestamp,
    event: SemiSingleEvent,
) -> (t: NormalizedTransfer)
    ensures
        t@ == (TransferV {
            schema: Schema::SemiFungible,
            contract_address: contract_address@,
            from_address: event.from@,
            to_address: event.to@,
            operator_address: event.operator@,
            token_id: min_be(event.id@),
            quantity: dec_rep(be_val(event.value@)),
            tx_hash: hash@,
            block_number: block_number,
            ordinal: ordinal as u64,
            timestamp: timestamp,
        }),
        wf_transfer(t@),
{
    new_semi_fungible_transfer(
        hash,
        ordinal,
        &event.from,
        &event.to,
        &event.id,
        &event.value,
        &event.operator,
        &contract_address,
        block_number,
        timestamp,
    )
}

/// Builds the records for a semi-fungible batch transfer event: one per
/// index pair when the id and value counts agree, none and one diagnostic
/// when they disagree.
pub fn new_semi_fungible_batch_transfers(
    hash: &Vec<u8>,
    ordinal: u32,
    contract_address: Vec<u8>,
    block_number: u64,
    timestamp: Timestamp,
    event: &SemiBatchEvent,
) -> (r: (Vec<NormalizedTransfer>, Option<Diagnostic>))
    ensures
        event.ids@.len() != event.values@.len() ==> r.0@.len() == 0 && (match r.1 {
            Some(d) => d@ == (DiagnosticV {
                tx_hash: hash@,
                ordinal: ordinal as u64,
                ids_len: event.ids@.len() as nat,
                values_len: event.values@.len() as nat,
            }),
            None => false,
        }),
        event.ids@.len() == event.values@.len() ==> r.1 is None && r.0@.len()
            == event.ids@.len() && forall|i: int|
            0 <= i < r.0@.len() ==> (#[trigger] r.0@[i])@ == (TransferV {
                schema: Schema::SemiFungible,
                contract_address: contract_address@,
                from_address: event.from@,
                to_address: event.to@,
                operator_address: event.operator@,
                token_id: min_be(event.ids@[i]@),
                quantity: dec_rep(be_val(event.values@[i]@)),
                tx_hash: hash@,
                block_number: block_number,
                ordinal: ordinal as u64,
                timestamp: timestamp,
            }),
        forall|i: int| 0 <= i < r.0@.len() ==> wf_transfer((#[trigger] r.0@[i])@),
{
    if event.ids.len() != event.values.len() {
        let diag = Diagnostic {
            tx_hash: clone_bytes(hash),
            ordinal: ordinal as u64,
            ids_len: event.ids.len(),
            values_len: event.values.len(),
        };
        return (Vec::new(), Some(diag));
    }
    let mut out: Vec<NormalizedTransfer> = Vec::new();
    let mut i: usize = 0;
    while i < event.ids.len()
        invariant
            event.ids@.len() == event.values@.len(),
            i <= event.ids@.len(),
            out@.len() == i,
            forall|j: int|
                0 <= j < i ==> (#[trigger] out@[j])@ == (TransferV {
                    schema: Schema::SemiFungible,
                    contract_address: contract_address@,
                    from_address: event.from@,
                    to_address: event.to@,
                    operator_address: event.operator@,
                    token_id: min_be(event.ids@[j]@),
                    quantity: dec_rep(be_val(event.values@[j]@)),
                    tx_hash: hash@,
                    block_number: block_number,
                    ordinal: ordinal as u64,
                    timestamp: timestamp,
                }),
            forall|j: int| 0 <= j < i ==> wf_transfer((#[trigger] out@[j])@),
        decreases event.ids@.len() - i,
    {
        let t = new_semi_fungible_transfer(
            hash,
            ordinal,
            &event.from,
            &event.to,
            &event.ids[i],
            &event.values[i],
            &event.operator,
            &contract_address,
            block_number,
            timestamp,
        );
        out.push(t);
        i = i + 1;
    }
    (out, None)
}

/// Pushing a record onto a vector pushes its view onto the element views.
proof fn lemma_transfer_views_push(s: Seq<NormalizedTransfer>, t: NormalizedTransfer)
    ensures
        transfer_views(s.push(t)) =~= transfer_views(s).push(t@),
{
    assert forall|j: int| 0 <= j < s.len() + 1 implies transfer_views(s.push(t))[j]
        == transfer_views(s).push(t@)[j] by {
        if j < s.len() {
            assert(s.push(t)[j] == s[j]);
        } else {
            assert(s.push(t)[j] == t);
        }
    }
}

/// Concatenating record vectors concatenates their element views.
proof fn lemma_transfer_views_add(a: Seq<NormalizedTransfer>, b: Seq<NormalizedTransfer>)
    ensures
        transfer_views(a + b) =~= transfer_views(a) + transfer_views(b),
{
    assert forall|j: int| 0 <= j < a.len() + b.len() implies transfer_views(a + b)[j]
        == (transfer_views(a) + transfer_views(b))[j] by {
        if j < a.len() {
            assert((a + b)[j] == a[j]);
        } else {
            assert((a + b)[j] == b[j - a.len()]);
        }
    }
}

/// Pushing a diagnostic onto a vector pushes its view onto the element
/// views.
proof fn lemma_diag_views_push(s: Seq<Diagnostic>, d: Diagnostic)
    ensures
        diag_views(s.push(d)) =~= diag_views(s).push(d@),
{
    assert forall|j: int| 0 <= j < s.len() + 1 implies diag_views(s.push(d))[j]
        == diag_views(s).push(d@)[j] by {
        if j < s.len() {
            assert(s.push(d)[j] == s[j]);
        } else {
            assert(s.push(d)[j] == d);
        }
    }
}

/// A receipt of the block's view is the view of the receipt vector's
/// element.
proof fn lemma_receipt_view(blk: &Block, i: int)
    requires
        0 <= i < blk.receipts@.len(),
    ensures
        blk@.receipts[i] == blk.receipts@[i]@,
{
}

/// A log of the receipt's view is the view of the log vector's element.
proof fn lemma_log_view(r: &Receipt, j: int)
    requires
        0 <= j < r.logs@.len(),
    ensures
        r@.logs[j] == r.logs@[j]@,
{
}

/// Produces one block's ordered transfer records and the diagnostics of its
/// dropped batches; fails exactly when the block header or its timestamp is
/// missing.
pub fn transform_block_to_transfers(blk: &Block) -> (r: Result<
    (Vec<NormalizedTransfer>, Vec<Diagnostic>),
    ExtractError,
>)
    ensures
        match r {
            Ok(p) => blk@.header matches Some(hd) && hd.timestamp matches Some(ts) && {
                &&& transfer_views(p.0@) == spec_block_transfers(blk@, ts)
                &&& diag_views(p.1@) == spec_block_diags(blk@)
                &&& forall|i: int| 0 <= i < p.0@.len() ==> wf_transfer((#[trigger] p.0@[i])@)
            },
            Err(e) => match blk@.header {
                None => e == ExtractError::MissingHeader,
                Some(hd) => hd.timestamp is None && e == ExtractError::MissingTimestamp,
            },
        },
{
    let header = match &blk.header {
        None => {
            return Err(ExtractError::MissingHeader);
        },
        Some(h) => h,
    };
    let ts = match header.timestamp {
        None => {
            return Err(ExtractError::MissingTimestamp);
        },
        Some(t) => t,
    };
    let bn = blk.number;
    let mut out: Vec<NormalizedTransfer> = Vec::new();
    let mut diags: Vec<Diagnostic> = Vec::new();
    let mut i: usize = 0;
    proof {
        assert(blk@.receipts.take(0) =~= Seq::<ReceiptV>::empty());
    }
    while i < blk.receipts.len()
        invariant
            i <= blk.receipts@.len(),
            bn == blk@.number,
            blk@.header matches Some(hd) && hd.timestamp == Some(ts),
            transfer_views(out@) == spec_receipts_transfers(bn, ts, blk@.receipts.take(i as int)),
            diag_views(diags@) == spec_receipts_diags(blk@.receipts.take(i as int)),
            forall|q: int| 0 <= q < out@.len() ==> wf_transfer((#[trigger] out@[q])@),
        decreases blk.receipts@.len() - i,
    {
        let receipt = &blk.receipts[i];
        let ghost rv = receipt@;
        let ghost hv = receipt.tx_hash@;
        let mut j: usize = 0;
        proof {
            lemma_receipt_view(blk, i as int);
            assert(rv.logs.take(0) =~= Seq::<LogV>::empty());
            assert(spec_logs_transfers(bn, ts, hv, rv.logs.take(0)) =~= Seq::<TransferV>::empty());
            assert(spec_logs_diags(hv, rv.logs.take(0)) =~= Seq::<DiagnosticV>::empty());
            assert(transfer_views(out@) + spec_logs_transfers(bn, ts, hv, rv.logs.take(0))
                =~= transfer_views(out@));
            assert(diag_views(diags@) + spec_logs_diags(hv, rv.logs.take(0)) =~= diag_views(
                diags@,
            ));
        }
        while j < receipt.logs.len()
            invariant
                j <= receipt.logs@.len(),
                i < blk.receipts@.len(),
                bn == blk@.number,
                blk@.header matches Some(hd) && hd.timestamp == Some(ts),
                rv == blk@.receipts[i as int],
                receipt == &blk.receipts[i as int],
                rv == receipt@,
                hv == receipt.tx_hash@,
                transfer_views(out@) == spec_receipts_transfers(
                    bn,
                    ts,
                    blk@.receipts.take(i as int),
                ) + spec_logs_transfers(bn, ts, hv, rv.logs.take(j as int)),
                diag_views(diags@) == spec_receipts_diags(blk@.receipts.take(i as int))
                    + spec_logs_diags(hv, rv.logs.take(j as int)),
                forall|q: int| 0 <= q < out@.len() ==> wf_transfer((#[trigger] out@[q])@),
            decreases receipt.logs@.len() - j,
        {
            let log = &receipt.logs[j];
            let ghost lv = log@;
            let ghost pre_out = out@;
            let ghost pre_diags = diags@;
            proof {
                lemma_log_view(receipt, j as int);
            }
            match decode_single_asset(log) {
                Some(e) => {
                    let t = new_single_asset_transfer(
                        &receipt.tx_hash,
                        log.block_index,
                        clone_bytes(&log.address),
                        bn,
                        ts,
                        e,
                    );
                    let ghost tsnap = t;
                    out.push(t);
                    proof {
                        lemma_transfer_views_push(pre_out, tsnap);
                        assert(tsnap@ == spec_single_asset_record(bn, ts, hv, lv));
                        assert(transfer_views(out@) =~= transfer_views(pre_out)
                            + spec_log_transfers(bn, ts, hv, lv));
                    }
                },
                None => {
                    match decode_non_fungible(log) {
                        Some(e) => {
                            let t = new_non_fungible_transfer(
                                &receipt.tx_hash,
                                log.block_index,
                                clone_bytes(&log.address),
                                bn,
                                ts,
                                e,
                            );
                            let ghost tsnap = t;
                            out.push(t);
                            proof {
                                lemma_transfer_views_push(pre_out, tsnap);
                                assert(tsnap@ == spec_non_fungible_record(bn, ts, hv, lv));
                                assert(transfer_views(out@) =~= transfer_views(pre_out)
                                    + spec_log_transfers(bn, ts, hv, lv));
                            }
                        },
                        None => {
                            match decode_semi_single(log) {
                                Some(e) => {
                                    let t = new_semi_fungible_single_transfer(
                                        &receipt.tx_hash,
                                        log.block_index,
                                        clone_bytes(&log.address),
                                        bn,
                                        ts,
                                        e,
                                    );
                                    let ghost tsnap = t;
                                    out.push(t);
                                    proof {
                                        lemma_transfer_views_push(pre_out, tsnap);
                                        assert(tsnap@ == spec_semi_single_record(bn, ts, hv, lv));
                                        assert(transfer_views(out@) =~= transfer_views(pre_out)
                                            + spec_log_transfers(bn, ts, hv, lv));
                                    }
                                },
                                None => {
                                    match decode_semi_batch(log) {
                                        Some(e) => {
                                            let pair = new_semi_fungible_batch_transfers(
                                                &receipt.tx_hash,
                                                log.block_index,
                                                clone_bytes(&log.address),
                                                bn,
                                                ts,
                                                &e,
                                            );
                                            let mut batch = pair.0;
                                            let ghost batch_snap = batch@;
                                            out.append(&mut batch);
                                            proof {
                                                lemma_transfer_views_add(pre_out, batch_snap);
                                                assert(crate::model::views_of(e.ids@).len()
                                                    == e.ids@.len());
                                                assert(crate::model::views_of(e.values@).len()
                                                    == e.values@.len());
                                                assert(batch_ids(lv.data).len() == batch_n1(
                                                    lv.data,
                                                ));
                                                assert(batch_values(lv.data).len() == batch_n2(
                                                    lv.data,
                                                ));
                                                if e.ids@.len() == e.values@.len() {
                                                    assert(batch_n1(lv.data) == batch_n2(
                                                        lv.data,
                                                    ));
                                                    assert forall|q: int|
                                                        0 <= q < batch_snap.len() implies
                                                        transfer_views(batch_snap)[q]
                                                            == spec_log_transfers(
                                                            bn,
                                                            ts,
                                                            hv,
                                                            lv,
                                                        )[q] by {
                                                        assert(batch_ids(lv.data)[q]
                                                            == crate::model::views_of(e.ids@)[q]);
                                                        assert(crate::model::views_of(e.ids@)[q]
                                                            == e.ids@[q]@);
                                                        assert(batch_values(lv.data)[q]
                                                            == crate::model::views_of(
                                                            e.values@,
                                                        )[q]);
                                                        assert(crate::model::views_of(
                                                            e.values@,
                                                        )[q] == e.values@[q]@);
                                                        assert(batch_snap[q]@
                                                            == spec_semi_batch_record(
                                                            bn,
                                                            ts,
                                                            hv,
                                                            lv,
                                                            q,
                                                        ));
                                                    }
                                                    assert(transfer_views(batch_snap)
                                                        =~= spec_log_transfers(bn, ts, hv, lv));
                                                } else {
                                                    assert(batch_n1(lv.data) != batch_n2(
                                                        lv.data,
                                                    ));
                                                    assert(transfer_views(batch_snap)
                                                        =~= spec_log_transfers(bn, ts, hv, lv));
                                                }
                                                assert(transfer_views(out@) =~= transfer_views(
                                                    pre_out,
                                                ) + spec_log_transfers(bn, ts, hv, lv));
                                            }
                                            match pair.1 {
                                                Some(d) => {
                                                    let ghost dsnap = d;
                                                    diags.push(d);
                                                    proof {
                                                        lemma_diag_views_push(pre_diags, dsnap);
                                                        assert(diag_views(diags@) =~= diag_views(
                                                            pre_diags,
                                                        ) + spec_log_diags(hv, lv));
                                                    }
                                                },
                                                None => {
                                                    proof {
                                                        assert(diag_views(diags@) =~= diag_views(
                                                            pre_diags,
                                                        ) + spec_log_diags(hv, lv));
                                                    }
                                                },
                                            }
                                        },
                                        None => {
                                            proof {
                                                assert(spec_log_transfers(bn, ts, hv, lv)
                                                    =~= Seq::<TransferV>::empty());
                                                assert(transfer_views(out@) =~= transfer_views(
                                                    pre_out,
                                                ) + spec_log_transfers(bn, ts, hv, lv));
                                                assert(diag_views(diags@) =~= diag_views(
                                                    pre_diags,
                                                ) + spec_log_diags(hv, lv));
                                            }
                                        },
                                    }
                                },
                            }
                        },
                    }
                },
            }
            j = j + 1;
            proof {
                assert(rv.logs.take(j as int).drop_last() =~= rv.logs.take(j - 1));
                assert(rv.logs.take(j as int).last() == lv);
                assert(spec_logs_transfers(bn, ts, hv, rv.logs.take(j as int))
                    =~= spec_logs_transfers(bn, ts, hv, rv.logs.take(j - 1)) + spec_log_transfers(
                    bn,
                    ts,
                    hv,
                    lv,
                ));
                assert(spec_logs_diags(hv, rv.logs.take(j as int)) =~= spec_logs_diags(
                    hv,
                    rv.logs.take(j - 1),
                ) + spec_log_diags(hv, lv));
                assert(transfer_views(out@) =~= spec_receipts_transfers(
                    bn,
                    ts,
                    blk@.receipts.take(i as int),
                ) + spec_logs_transfers(bn, ts, hv, rv.logs.take(j as int)));
                assert(diag_views(diags@) =~= spec_receipts_diags(blk@.receipts.take(i as int))
                    + spec_logs_diags(hv, rv.logs.take(j as int)));
            }
        }
        i = i + 1;
        proof {
            assert(rv.logs.take(rv.logs.len() as int) =~= rv.logs);
            assert(blk@.receipts.take(i as int).drop_last() =~= blk@.receipts.take(i - 1));
            assert(blk@.receipts.take(i as int).last() == rv);
            assert(spec_receipts_transfers(bn, ts, blk@.receipts.take(i as int))
                =~= spec_receipts_transfers(bn, ts, blk@.receipts.take(i - 1))
                + spec_logs_transfers(bn, ts, rv.tx_hash, rv.logs));
            assert(rv.tx_hash == hv);
            assert(transfer_views(out@) =~= spec_receipts_transfers(
                bn,
                ts,
                blk@.receipts.take(i as int),
            ));
            assert(spec_receipts_diags(blk@.receipts.take(i as int)) =~= spec_receipts_diags(
                blk@.receipts.take(i - 1),
            ) + spec_logs_diags(rv.tx_hash, rv.logs));
            assert(diag_views(diags@) =~= spec_receipts_diags(blk@.receipts.take(i as int)));
        }
    }
    proof {
        assert(blk@.receipts.take(blk@.receipts.len() as int) =~= blk@.receipts);
    }
    Ok((out, diags))
}

/// Law: a log matching one of the four shapes contributes exactly one record
/// whose schema names that shape, except a matching batch, which contributes
/// one record per index pair when its counts agree and none when they
/// disagree.
pub proof fn lemma_one_record_per_log(bn: u64, ts: Timestamp, h: Seq<u8>, l: LogV)
    ensures
        single_asset_match(l) ==> spec_log_transfers(bn, ts, h, l).len() == 1
            && spec_log_transfers(bn, ts, h, l)[0].schema == Schema::SingleAsset,
        non_fungible_match(l) ==> spec_log_transfers(bn, ts, h, l).len() == 1
            && spec_log_transfers(bn, ts, h, l)[0].schema == Schema::NonFungible,
        semi_single_match(l) ==> spec_log_transfers(bn, ts, h, l).len() == 1
            && spec_log_transfers(bn, ts, h, l)[0].schema == Schema::SemiFungible,
        semi_batch_match(l) && batch_n1(l.data) == batch_n2(l.data) ==> spec_log_transfers(
            bn,
            ts,
            h,
            l,
        ).len() == batch_n1(l.data) && forall|i: int|
            0 <= i < spec_log_transfers(bn, ts, h, l).len() ==> spec_log_transfers(
                bn,
                ts,
                h,
                l,
            )[i].schema == Schema::SemiFungible,
        semi_batch_match(l) && batch_n1(l.data) != batch_n2(l.data) ==> spec_log_transfers(
            bn,
            ts,
            h,
            l,
        ).len() == 0,
{
    if single_asset_match(l) {
        assert(!non_fungible_match(l));
    }
    if semi_single_match(l) {
        assert(l.topics[0] != TRANSFER_SIG@) by {
            assert(SEMI_SINGLE_SIG@[0] == 0xc3 && TRANSFER_SIG@[0] == 0xdd);
        }
    }
    if semi_batch_match(l) {
        assert(l.topics[0] != TRANSFER_SIG@) by {
            assert(SEMI_BATCH_SIG@[0] == 0x4a && TRANSFER_SIG@[0] == 0xdd);
        }
        assert(l.topics[0] != SEMI_SINGLE_SIG@) by {
            assert(SEMI_BATCH_SIG@[0] == 0x4a && SEMI_SINGLE_SIG@[0] == 0xc3);
        }
    }
}

} // verus!
