//! Event decoding: classification and parsing of raw logs into typed
//! transfer events.
//!
//! A log matches at most one of the four known event shapes; the shape is
//! selected by the log's first topic (the event signature) together with the
//! topic count, and the remaining topics and the payload carry the event's
//! fields as 32-byte big-endian words.  Batch payloads follow the canonical
//! head/tail layout: two offset words, then each array as a length word
//! followed by its elements.

use vstd::prelude::*;

verus! {

use crate::model::Log;
use crate::model::LogV;
use crate::model::clone_bytes;
use crate::model::views_of;
use crate::numeric::be_val;
use crate::numeric::copy_range;
use crate::numeric::word_at;
use crate::numeric::word_vec;
use crate::numeric::word_u64;
use vstd::arithmetic::power::pow;

/// Signature topic of the fungible and non-fungible transfer event,
/// `Transfer(address,address,uint256)`.
pub const TRANSFER_SIG: [u8; 32] = [
    0xdd, 0xf2, 0x52, 0xad, 0x1b, 0xe2, 0xc8, 0x9b, 0x69, 0xc2, 0xb0, 0x68, 0xfc, 0x37, 0x8d,
    0xaa, 0x95, 0x2b, 0xa7, 0xf1, 0x63, 0xc4, 0xa1, 0x16, 0x28, 0xf5, 0x5a, 0x4d, 0xf5, 0x23,
    0xb3, 0xef,
];

/// Signature topic of the semi-fungible single transfer event,
/// `TransferSingle(address,address,address,uint256,uint256)`.
pub const SEMI_SINGLE_SIG: [u8; 32] = [
    0xc3, 0xd5, 0x81, 0x68, 0xc5, 0xae, 0x73, 0x97, 0x73, 0x1d, 0x06, 0x3d, 0x5b, 0xbf, 0x3d,
    0x65, 0x78, 0x54, 0x42, 0x73, 0x43, 0xf4, 0xc0, 0x83, 0x24, 0x0f, 0x7a, 0xac, 0xaa, 0x2d,
    0x0f, 0x62,
];

/// Signature topic of the semi-fungible batch transfer event,
/// `TransferBatch(address,address,address,uint256[],uint256[])`.
pub const SEMI_BATCH_SIG: [u8; 32] = [
    0x4a, 0x39, 0xdc, 0x06, 0xd4, 0xc0, 0xdb, 0xc6, 0x4b, 0x70, 0xaf, 0x90, 0xfd, 0x69, 0x8a,
    0x23, 0x3a, 0x51, 0x8a, 0xa5, 0xd0, 0x7e, 0x59, 0x5d, 0x98, 0x3b, 0x8c, 0x05, 0x26, 0xc8,
    0xf7, 0xfb,
];

/// Typed fungible transfer event.
pub struct SingleAssetEvent {
    pub from: Vec<u8>,
    pub to: Vec<u8>,
    pub value: Vec<u8>,
}

/// Typed non-fungible transfer event.
pub struct NonFungibleEvent {
    pub from: Vec<u8>,
    pub to: Vec<u8>,
    pub token_id: Vec<u8>,
}

/// Typed semi-fungible single transfer event.
pub struct SemiSingleEvent {
    pub operator: Vec<u8>,
    pub from: Vec<u8>,
    pub to: Vec<u8>,
    pub id: Vec<u8>,
    pub value: Vec<u8>,
}

/// Typed semi-fungible batch transfer event with parallel id and value
/// sequences.
pub struct SemiBatchEvent {
    pub operator: Vec<u8>,
    pub from: Vec<u8>,
    pub to: Vec<u8>,
    pub ids: Vec<Vec<u8>>,
    pub values: Vec<Vec<u8>>,
}

/// The topics select the given shape: topic count, signature, and 32-byte
/// topic words.
pub open spec fn topics_shape_ok(l: LogV, n: int, sig: Seq<u8>) -> bool {
    &&& l.topics.len() == n
    &&& l.topics[0] == sig
    &&& forall|i: int| 0 <= i < n ==> (#[trigger] l.topics[i]).len() == 32
}

/// The address carried by topic `i`: its last twenty bytes.
pub open spec fn topic_addr(l: LogV, i: int) -> Seq<u8> {
    l.topics[i].skip(12)
}

/// The log matches the fungible transfer shape.
pub open spec fn single_asset_match(l: LogV) -> bool {
    &&& topics_shape_ok(l, 3, TRANSFER_SIG@)
    &&& l.data.len() == 32
}

/// The log matches the non-fungible transfer shape.
pub open spec fn non_fungible_match(l: LogV) -> bool {
    &&& topics_shape_ok(l, 4, TRANSFER_SIG@)
    &&& l.data.len() == 0
}

/// The log matches the semi-fungible single transfer shape.
pub open spec fn semi_single_match(l: LogV) -> bool {
    &&& topics_shape_ok(l, 4, SEMI_SINGLE_SIG@)
    &&& l.data.len() == 64
}

/// Number of token ids carried by a batch payload.
pub open spec fn batch_n1(d: Seq<u8>) -> nat {
    be_val(word_at(d, 64))
}

/// Number of values carried by a batch payload.
pub open spec fn batch_n2(d: Seq<u8>) -> nat {
    be_val(word_at(d, 96 + 32 * batch_n1(d) as int))
}

/// The payload is a canonical encoding of two parallel word arrays: the two
/// offset words point at the two length-prefixed arrays laid out in order,
/// and the arrays fill the payload exactly.
pub open spec fn batch_data_ok(d: Seq<u8>) -> bool {
    &&& d.len() >= 128
    &&& be_val(word_at(d, 0)) == 64
    &&& 96 + 32 * batch_n1(d) + 32 <= d.len()
    &&& be_val(word_at(d, 32)) == 96 + 32 * batch_n1(d)
    &&& d.len() == 128 + 32 * batch_n1(d) + 32 * batch_n2(d)
}

/// The log matches the semi-fungible batch transfer shape.
pub open spec fn semi_batch_match(l: LogV) -> bool {
    &&& topics_shape_ok(l, 4, SEMI_BATCH_SIG@)
    &&& batch_data_ok(l.data)
}

/// The id words of a well-formed batch payload, in index order.
pub open spec fn batch_ids(d: Seq<u8>) -> Seq<Seq<u8>> {
    Seq::new(batch_n1(d), |i: int| word_at(d, 96 + 32 * i))
}

/// The value words of a well-formed batch payload, in index order.
pub open spec fn batch_values(d: Seq<u8>) -> Seq<Seq<u8>> {
    Seq::new(batch_n2(d), |i: int| word_at(d, 128 + 32 * batch_n1(d) + 32 * i))
}

/// Compares a topic against a 32-byte signature.
fn topic_is(t: &Vec<u8>, sig: &[u8; 32]) -> (r: bool)
    ensures
        r == (t@ == sig@),
{
    if t.len() != 32 {
        proof {
            assert(sig@.len() == 32);
        }
        return false;
    }
    let mut i: usize = 0;
    while i < 32
        invariant
            t@.len() == 32,
            sig@.len() == 32,
            i <= 32,
            forall|j: int| 0 <= j < i ==> t@[j] == sig@[j],
        decreases 32 - i,
    {
        if t[i] != sig[i] {
            return false;
        }
        i = i + 1;
    }
    proof {
        assert(t@ =~= sig@);
    }
    true
}

/// A topic of the log's view is the view of the topic vector's element.
proof fn lemma_topic_view(log: &Log, i: int)
    requires
        0 <= i < log.topics@.len(),
    ensures
        log@.topics[i] == log.topics@[i]@,
{
}

/// Decodes the fungible transfer shape; `None` exactly when the log does not
/// match it.
pub fn decode_single_asset(log: &Log) -> (r: Option<SingleAssetEvent>)
    ensures
        match r {
            Some(e) => single_asset_match(log@) && e.from@ == topic_addr(log@, 1) && e.to@
                == topic_addr(log@, 2) && e.value@ == log@.data,
            None => !single_asset_match(log@),
        },
{
    if log.topics.len() != 3 {
        return None;
    }
    if !topic_is(&log.topics[0], &TRANSFER_SIG) {
        return None;
    }
    if log.topics[1].len() != 32 || log.topics[2].len() != 32 {
        proof {
            lemma_topic_view(log, 1);
            lemma_topic_view(log, 2);
        }
        return None;
    }
    if log.data.len() != 32 {
        return None;
    }
    let e = SingleAssetEvent {
        from: copy_range(&log.topics[1], 12, 32),
        to: copy_range(&log.topics[2], 12, 32),
        value: clone_bytes(&log.data),
    };
    proof {
        assert(log@.topics[1].skip(12) =~= log.topics@[1]@.subrange(12, 32));
        assert(log@.topics[2].skip(12) =~= log.topics@[2]@.subrange(12, 32));
    }
    Some(e)
}

/// Decodes the non-fungible transfer shape; `None` exactly when the log does
/// not match it.
pub fn decode_non_fungible(log: &Log) -> (r: Option<NonFungibleEvent>)
    ensures
        match r {
            Some(e) => non_fungible_match(log@) && e.from@ == topic_addr(log@, 1) && e.to@
                == topic_addr(log@, 2) && e.token_id@ == log@.topics[3],
            None => !non_fungible_match(log@),
        },
{
    if log.topics.len() != 4 {
        return None;
    }
    if !topic_is(&log.topics[0], &TRANSFER_SIG) {
        return None;
    }
    if log.topics[1].len() != 32 || log.topics[2].len() != 32 || log.topics[3].len() != 32 {
        proof {
            lemma_topic_view(log, 1);
            lemma_topic_view(log, 2);
            lemma_topic_view(log, 3);
        }
        return None;
    }
    if log.data.len() != 0 {
        return None;
    }
    let e = NonFungibleEvent {
        from: copy_range(&log.topics[1], 12, 32),
        to: copy_range(&log.topics[2], 12, 32),
        token_id: clone_bytes(&log.topics[3]),
    };
    proof {
        assert(log@.topics[1].skip(12) =~= log.topics@[1]@.subrange(12, 32));
        assert(log@.topics[2].skip(12) =~= log.topics@[2]@.subrange(12, 32));
    }
    Some(e)
}

/// Decodes the semi-fungible single transfer shape; `None` exactly when the
/// log does not match it.
pub fn decode_semi_single(log: &Log) -> (r: Option<SemiSingleEvent>)
    ensures
        match r {
            Some(e) => semi_single_match(log@) && e.operator@ == topic_addr(log@, 1) && e.from@
                == topic_addr(log@, 2) && e.to@ == topic_addr(log@, 3) && e.id@
                == log@.data.subrange(0, 32) && e.value@ == log@.data.subrange(32, 64),
            None => !semi_single_match(log@),
        },
{
    if log.topics.len() != 4 {
        return None;
    }
    if !topic_is(&log.topics[0], &SEMI_SINGLE_SIG) {
        return None;
    }
    if log.topics[1].len() != 32 || log.topics[2].len() != 32 || log.topics[3].len() != 32 {
        proof {
            lemma_topic_view(log, 1);
            lemma_topic_view(log, 2);
            lemma_topic_view(log, 3);
        }
        return None;
    }
    if log.data.len() != 64 {
        return None;
    }
    let e = SemiSingleEvent {
        operator: copy_range(&log.topics[1], 12, 32),
        from: copy_range(&log.topics[2], 12, 32),
        to: copy_range(&log.topics[3], 12, 32),
        id: copy_range(&log.data, 0, 32),
        value: copy_range(&log.data, 32, 64),
    };
    proof {
        assert(log@.topics[1].skip(12) =~= log.topics@[1]@.subrange(12, 32));
        assert(log@.topics[2].skip(12) =~= log.topics@[2]@.subrange(12, 32));
        assert(log@.topics[3].skip(12) =~= log.topics@[3]@.subrange(12, 32));
    }
    Some(e)
}

/// Decodes the semi-fungible batch transfer shape; `None` exactly when the
/// log does not match it.  The id and value sequences may disagree in
/// length; that policy decision belongs to the normalizer.
pub fn decode_semi_batch(log: &Log) -> (r: Option<SemiBatchEvent>)
    ensures
        match r {
            Some(e) => semi_batch_match(log@) && e.operator@ == topic_addr(log@, 1) && e.from@
                == topic_addr(log@, 2) && e.to@ == topic_addr(log@, 3) && views_of(e.ids@) == batch_ids(log@.data) && views_of(e.values@) == batch_values(
                log@.data,
            ),
            None => !semi_batch_match(log@),
        },
{
    if log.topics.len() != 4 {
        return None;
    }
    if !topic_is(&log.topics[0], &SEMI_BATCH_SIG) {
        return None;
    }
    if log.topics[1].len() != 32 || log.topics[2].len() != 32 || log.topics[3].len() != 32 {
        proof {
            lemma_topic_view(log, 1);
            lemma_topic_view(log, 2);
            lemma_topic_view(log, 3);
        }
        return None;
    }
    let d = &log.data;
    let ghost dv = log@.data;
    let len: usize = d.len();
    if len < 128 {
        return None;
    }
    proof {
        lemma_pow_256_8();
    }
    let w0 = word_u64(d, 0);
    match w0 {
        None => {
            return None;
        },
        Some(v) => {
            if v != 64 {
                return None;
            }
        },
    }
    let n1_u64: u64;
    match word_u64(d, 64) {
        None => {
            proof {
                assert(32 * batch_n1(dv) >= 32 * pow(256, 8)) by (nonlinear_arith)
                    requires
                        batch_n1(dv) >= pow(256, 8),
                ;
                assert(len < 32 * pow(256, 8));
            }
            return None;
        },
        Some(v) => {
            n1_u64 = v;
        },
    }
    if n1_u64 > ((len - 128) / 32) as u64 {
        proof {
            assert(!batch_data_ok(dv)) by {
                if batch_data_ok(dv) {
                    let b = batch_n1(dv) as int;
                    assert(32 * b <= len - 128);
                    vstd::arithmetic::div_mod::lemma_div_multiples_vanish(b, 32);
                    vstd::arithmetic::div_mod::lemma_div_is_ordered(32 * b, len - 128, 32);
                }
            }
        }
        return None;
    }
    let n1: usize = n1_u64 as usize;
    proof {
        let a = (len - 128) as int;
        vstd::arithmetic::div_mod::lemma_fundamental_div_mod(a, 32);
        vstd::arithmetic::mul::lemma_mul_inequality(n1 as int, a / 32, 32);
        assert(32 * n1 <= len - 128);
    }
    let o2: usize = 96 + 32 * n1;
    match word_u64(d, 32) {
        None => {
            return None;
        },
        Some(v) => {
            if v != o2 as u64 {
                return None;
            }
        },
    }
    let rem: usize = len - o2 - 32;
    if rem % 32 != 0 {
        proof {
            assert(!batch_data_ok(dv)) by {
                if batch_data_ok(dv) {
                    vstd::arithmetic::div_mod::lemma_mod_multiples_basic(batch_n2(dv) as int, 32);
                    assert(32 * batch_n2(dv) == rem);
                }
            }
        }
        return None;
    }
    let n2: usize = rem / 32;
    match word_u64(d, o2) {
        None => {
            proof {
                assert(32 * batch_n2(dv) >= 32 * pow(256, 8)) by (nonlinear_arith)
                    requires
                        batch_n2(dv) >= pow(256, 8),
                ;
                assert(len < 32 * pow(256, 8));
            }
            return None;
        },
        Some(v) => {
            if v != n2 as u64 {
                proof {
                    assert(!batch_data_ok(dv)) by {
                        if batch_data_ok(dv) {
                            assert(32 * batch_n2(dv) == rem);
                            vstd::arithmetic::div_mod::lemma_div_multiples_vanish(
                                batch_n2(dv) as int,
                                32,
                            );
                        }
                    }
                }
                return None;
            }
        },
    }
    proof {
        vstd::arithmetic::div_mod::lemma_fundamental_div_mod(rem as int, 32);
        assert(32 * n2 == rem);
        assert(batch_data_ok(dv));
    }
    let mut ids: Vec<Vec<u8>> = Vec::new();
    let mut i: usize = 0;
    while i < n1
        invariant
            i <= n1,
            dv == log@.data,
            d == &log.data,
            batch_data_ok(dv),
            n1 as nat == batch_n1(dv),
            96 + 32 * n1 + 32 <= d.len(),
            views_of(ids@) =~= batch_ids(dv).take(i as int),
        decreases n1 - i,
    {
        let w = word_vec(d, 96 + 32 * i);
        let ghost prev = ids@;
        let ghost wsnap = w;
        ids.push(w);
        i = i + 1;
        proof {
            assert(ids@ == prev.push(wsnap));
            assert(views_of(prev).len() == prev.len());
            assert(batch_ids(dv).len() == batch_n1(dv));
            assert(batch_ids(dv).take(i - 1).len() == i - 1);
            assert(prev.len() == i - 1);
            assert forall|j: int| 0 <= j < i implies views_of(ids@)[j]
                == batch_ids(dv).take(i as int)[j] by {
                if j < i - 1 {
                    assert(ids@[j] == prev[j]);
                    assert(views_of(prev)[j] == batch_ids(dv).take(i - 1)[j]);
                } else {
                    assert(ids@[j] == wsnap);
                }
            }
            assert(views_of(ids@) =~= batch_ids(dv).take(i as int));
        }
    }
    let mut values: Vec<Vec<u8>> = Vec::new();
    let mut k: usize = 0;
    while k < n2
        invariant
            k <= n2,
            dv == log@.data,
            d == &log.data,
            batch_data_ok(dv),
            n1 as nat == batch_n1(dv),
            n2 as nat == batch_n2(dv),
            128 + 32 * n1 + 32 * n2 == d.len(),
            views_of(values@) =~= batch_values(dv).take(k as int),
        decreases n2 - k,
    {
        let w = word_vec(d, 128 + 32 * n1 + 32 * k);
        let ghost prev = values@;
        let ghost wsnap = w;
        values.push(w);
        k = k + 1;
        proof {
            assert(values@ == prev.push(wsnap));
            assert(views_of(prev).len() == prev.len());
            assert(batch_values(dv).len() == batch_n2(dv));
            assert(batch_values(dv).take(k - 1).len() == k - 1);
            assert(prev.len() == k - 1);
            assert forall|j: int| 0 <= j < k implies views_of(values@)[j]
                == batch_values(dv).take(k as int)[j] by {
                if j < k - 1 {
                    assert(values@[j] == prev[j]);
                    assert(views_of(prev)[j] == batch_values(dv).take(
                        k - 1,
                    )[j]);
                } else {
                    assert(values@[j] == wsnap);
                }
            }
            assert(views_of(values@) =~= batch_values(dv).take(k as int));
        }
    }
    let e = SemiBatchEvent {
        operator: copy_range(&log.topics[1], 12, 32),
        from: copy_range(&log.topics[2], 12, 32),
        to: copy_range(&log.topics[3], 12, 32),
        ids,
        values,
    };
    proof {
        assert(log@.topics[1].skip(12) =~= log.topics@[1]@.subrange(12, 32));
        assert(log@.topics[2].skip(12) =~= log.topics@[2]@.subrange(12, 32));
        assert(log@.topics[3].skip(12) =~= log.topics@[3]@.subrange(12, 32));
        assert(batch_ids(dv).take(n1 as int) =~= batch_ids(dv));
        assert(batch_values(dv).take(n2 as int) =~= batch_values(dv));
    }
    Some(e)
}

/// The eighth power of 256 written out, for bounds on word values.
proof fn lemma_pow_256_8()
    ensures
        pow(256, 8) == 0x10000000000000000,
{
    reveal_with_fuel(vstd::arithmetic::power::pow, 9);
}

} // verus!
