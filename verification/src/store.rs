//! The deduplicating append store: a monotonic, ordinal-indexed key-value
//! store with first-write-wins semantics per composite key.
//!
//! Writes within one pass must carry non-decreasing ordinals; a write whose
//! ordinal regresses is rejected without touching the store, which the
//! caller must treat as fatal for the whole pass.  Every accepted state
//! change is recorded as a delta, later consumed by the projector.

use vstd::prelude::*;

verus! {

use crate::model::NormalizedTransfer;
use crate::model::StoreError;
use crate::model::TransferV;
use crate::model::clone_transfer;
use vstd::pervasive::VecAdditionalExecFns;

/// The kind of state transition a delta records.
#[derive(Clone, Copy, PartialEq, Eq, Structural, Debug)]
pub enum Operation {
    Create,
    Update,
    Delete,
}

/// One observed state transition for a key.
#[derive(Debug)]
pub struct StoreDelta {
    pub key: String,
    pub ordinal: u64,
    pub operation: Operation,
    pub old_value: Option<NormalizedTransfer>,
    pub new_value: NormalizedTransfer,
}

/// Mathematical image of a delta.
pub ghost struct DeltaV {
    pub key: Seq<char>,
    pub ordinal: u64,
    pub operation: Operation,
    pub old_value: Option<TransferV>,
    pub new_value: TransferV,
}

impl View for StoreDelta {
    type V = DeltaV;

    open spec fn view(&self) -> DeltaV {
        DeltaV {
            key: self.key@,
            ordinal: self.ordinal,
            operation: self.operation,
            old_value: match self.old_value {
                None => None,
                Some(t) => Some(t@),
            },
            new_value: self.new_value@,
        }
    }
}

/// A delta the store can emit: a create carries no old value, an update
/// carries one, and a delete is never produced.
pub open spec fn wf_delta(d: DeltaV) -> bool {
    match d.operation {
        Operation::Create => d.old_value is None,
        Operation::Update => d.old_value is Some,
        Operation::Delete => false,
    }
}

/// The element views of a sequence of deltas.
pub open spec fn delta_views(s: Seq<StoreDelta>) -> Seq<DeltaV> {
    s.map_values(|d: StoreDelta| d@)
}

struct StoreEntry {
    key: String,
    value: NormalizedTransfer,
}

/// There is an entry under key `k`.
pub open spec fn has_key(es: Seq<(Seq<char>, TransferV)>, k: Seq<char>) -> bool {
    exists|i: int| 0 <= i < es.len() && (#[trigger] es[i]).0 == k
}

/// The index of the entry under key `k`.
pub open spec fn key_index(es: Seq<(Seq<char>, TransferV)>, k: Seq<char>) -> int {
    choose|i: int| 0 <= i < es.len() && (#[trigger] es[i]).0 == k
}

/// The value stored under key `k`.
pub open spec fn value_of(es: Seq<(Seq<char>, TransferV)>, k: Seq<char>) -> TransferV {
    es[key_index(es, k)].1
}

/// Entry keys are pairwise distinct.
pub open spec fn keys_distinct(es: Seq<(Seq<char>, TransferV)>) -> bool {
    forall|i: int, j: int|
        0 <= i < es.len() && 0 <= j < es.len() && i != j ==> (#[trigger] es[i]).0 != (
        #[trigger] es[j]).0
}

/// Set-if-not-exists on the entry sequence: a write under a present key is a
/// no-op, any other write appends.
pub open spec fn snie(
    es: Seq<(Seq<char>, TransferV)>,
    k: Seq<char>,
    v: TransferV,
) -> Seq<(Seq<char>, TransferV)> {
    if has_key(es, k) {
        es
    } else {
        es.push((k, v))
    }
}

/// Unconditional write on the entry sequence: replaces under a present key,
/// appends otherwise.
pub open spec fn upsert(
    es: Seq<(Seq<char>, TransferV)>,
    k: Seq<char>,
    v: TransferV,
) -> Seq<(Seq<char>, TransferV)> {
    if has_key(es, k) {
        es.update(key_index(es, k), (k, v))
    } else {
        es.push((k, v))
    }
}

/// The deduplicating append store.
pub struct AppendStore {
    entries: Vec<StoreEntry>,
    deltas: Vec<StoreDelta>,
    last_ordinal: u64,
    written: bool,
}

impl AppendStore {
    /// The stored key-value pairs, in insertion order.
    pub closed spec fn entries_view(&self) -> Seq<(Seq<char>, TransferV)> {
        self.entries@.map_values(|e: StoreEntry| (e.key@, e.value@))
    }

    /// The deltas recorded by the current pass, in write order.
    pub closed spec fn spec_deltas(&self) -> Seq<DeltaV> {
        delta_views(self.deltas@)
    }

    /// The ordinal of the last accepted write of the current pass.
    pub closed spec fn spec_last_ordinal(&self) -> u64 {
        self.last_ordinal
    }

    /// Whether the current pass has accepted a write yet.
    pub closed spec fn spec_written(&self) -> bool {
        self.written
    }

    /// The monotonicity guard: a write is admissible when it is the pass's
    /// first, or its ordinal has not regressed.
    pub open spec fn accepts_ordinal(&self, ordinal: u64) -> bool {
        !self.spec_written() || ordinal >= self.spec_last_ordinal()
    }

    /// Store invariant: keys are unique and every recorded delta is one the
    /// store may emit.
    pub open spec fn wf(&self) -> bool {
        &&& keys_distinct(self.entries_view())
        &&& forall|i: int|
            0 <= i < self.spec_deltas().len() ==> wf_delta(#[trigger] self.spec_deltas()[i])
    }

    /// Creates an empty store with no pass state.
    pub fn new() -> (s: AppendStore)
        ensures
            s.wf(),
            s.entries_view() == Seq::<(Seq<char>, TransferV)>::empty(),
            s.spec_deltas() == Seq::<DeltaV>::empty(),
            !s.spec_written(),
    {
        let s = AppendStore { entries: Vec::new(), deltas: Vec::new(), last_ordinal: 0, written: false };
        proof {
            assert(s.entries_view() =~= Seq::<(Seq<char>, TransferV)>::empty());
            assert(s.spec_deltas() =~= Seq::<DeltaV>::empty());
        }
        s
    }

    /// Starts a new write pass: keeps the contents, clears the delta log and
    /// the ordinal guard.
    pub fn begin_pass(&mut self)
        requires
            old(self).wf(),
        ensures
            final(self).wf(),
            final(self).entries_view() == old(self).entries_view(),
            final(self).spec_deltas() == Seq::<DeltaV>::empty(),
            !final(self).spec_written(),
    {
        self.deltas.clear();
        self.written = false;
        self.last_ordinal = 0;
        proof {
            assert(self.spec_deltas() =~= Seq::<DeltaV>::empty());
        }
    }

    fn find_key(&self, key: &String) -> (r: Option<usize>)
        requires
            self.wf(),
        ensures
            match r {
                Some(ix) => ix < self.entries_view().len() && self.entries_view()[ix as int].0
                    == key@,
                None => !has_key(self.entries_view(), key@),
            },
    {
        let mut i: usize = 0;
        while i < self.entries.len()
            invariant
                i <= self.entries@.len(),
                forall|j: int| 0 <= j < i ==> (#[trigger] self.entries_view()[j]).0 != key@,
            decreases self.entries@.len() - i,
        {
            if self.entries[i].key.eq(key) {
                proof {
                    assert(self.entries_view()[i as int].0 == self.entries@[i as int].key@);
                }
                return Some(i);
            }
            i = i + 1;
        }
        proof {
            assert forall|j: int|
                0 <= j < self.entries_view().len() implies (#[trigger] self.entries_view()[j]).0
                != key@ by {}
        }
        None
    }

    /// Writes `value` under `key` only if no entry with that key exists;
    /// rejects, without any state change, a write whose ordinal regresses
    /// within the pass.
    pub fn set_if_not_exists(
        &mut self,
        ordinal: u64,
        key: String,
        value: NormalizedTransfer,
    ) -> (r: Result<(), StoreError>)
        requires
            old(self).wf(),
        ensures
            final(self).wf(),
            !old(self).accepts_ordinal(ordinal) ==> r == Err::<(), StoreError>(
                StoreError::OrdinalRegression,
            ) && final(self).entries_view() == old(self).entries_view() && final(self).spec_deltas() == old(self).spec_deltas() && final(self).spec_last_ordinal() == old(self).spec_last_ordinal() && final(self).spec_written() == old(self).spec_written(),
            old(self).accepts_ordinal(ordinal) ==> r == Ok::<(), StoreError>(()) && final(self).spec_written() && final(self).spec_last_ordinal() == ordinal && final(self).entries_view() == snie(old(self).entries_view(), key@, value@) && final(self).spec_deltas() == (if has_key(old(self).entries_view(), key@) {
                old(self).spec_deltas()
            } else {
                old(self).spec_deltas().push(
                    DeltaV {
                        key: key@,
                        ordinal: ordinal,
                        operation: Operation::Create,
                        old_value: None,
                        new_value: value@,
                    },
                )
            }),
    {
        if self.written && ordinal < self.last_ordinal {
            return Err(StoreError::OrdinalRegression);
        }
        self.written = true;
        self.last_ordinal = ordinal;
        proof {
            assert(self.entries@ == old(self).entries@);
            assert(self.entries_view() =~= old(self).entries_view());
            assert(self.deltas@ == old(self).deltas@);
            assert(self.spec_deltas() =~= old(self).spec_deltas());
            assert(self.wf());
        }
        let ghost pre_entries = self.entries_view();
        let ghost pre_deltas = self.spec_deltas();
        match self.find_key(&key) {
            Some(_ix) => {
                proof {
                    assert(self.entries_view() =~= snie(pre_entries, key@, value@));
                }
                Ok(())
            },
            None => {
                let ghost pre_vec = self.entries@;
                let ghost pre_dvec = self.deltas@;
                let delta = StoreDelta {
                    key: key.clone(),
                    ordinal,
                    operation: Operation::Create,
                    old_value: None,
                    new_value: clone_transfer(&value),
                };
                let ghost dsnap = delta;
                self.deltas.push(delta);
                let entry = StoreEntry { key, value };
                let ghost esnap = entry;
                self.entries.push(entry);
                proof {
                    assert(self.entries@ == pre_vec.push(esnap));
                    assert forall|j: int| 0 <= j < self.entries@.len() implies
                        #[trigger] self.entries_view()[j] == pre_entries.push(
                        (esnap.key@, esnap.value@),
                    )[j] by {
                        if j < pre_vec.len() {
                            assert(self.entries@[j] == pre_vec[j]);
                        } else {
                            assert(self.entries@[j] == esnap);
                        }
                    }
                    assert(self.entries_view() =~= snie(pre_entries, key@, value@));
                    assert(self.deltas@ == pre_dvec.push(dsnap));
                    assert forall|j: int| 0 <= j < self.deltas@.len() implies
                        #[trigger] self.spec_deltas()[j] == pre_deltas.push(dsnap@)[j] by {
                        if j < pre_dvec.len() {
                            assert(self.deltas@[j] == pre_dvec[j]);
                        } else {
                            assert(self.deltas@[j] == dsnap);
                        }
                    }
                    assert(self.spec_deltas() =~= pre_deltas.push(dsnap@));
                    assert(keys_distinct(self.entries_view())) by {
                        assert(!has_key(pre_entries, key@));
                    }
                }
                Ok(())
            },
        }
    }

    /// Writes `value` under `key` unconditionally, recording an update with
    /// the replaced value when the key exists; the same ordinal guard
    /// applies.
    pub fn put(&mut self, ordinal: u64, key: String, value: NormalizedTransfer) -> (r: Result<
        (),
        StoreError,
    >)
        requires
            old(self).wf(),
        ensures
            final(self).wf(),
            !old(self).accepts_ordinal(ordinal) ==> r == Err::<(), StoreError>(
                StoreError::OrdinalRegression,
            ) && final(self).entries_view() == old(self).entries_view() && final(self).spec_deltas() == old(self).spec_deltas() && final(self).spec_last_ordinal() == old(self).spec_last_ordinal() && final(self).spec_written() == old(self).spec_written(),
            old(self).accepts_ordinal(ordinal) ==> r == Ok::<(), StoreError>(()) && final(self).spec_written() && final(self).spec_last_ordinal() == ordinal && final(self).entries_view() == upsert(old(self).entries_view(), key@, value@) && final(self).spec_deltas() == old(self).spec_deltas().push(
                (if has_key(old(self).entries_view(), key@) {
                    DeltaV {
                        key: key@,
                        ordinal: ordinal,
                        operation: Operation::Update,
                        old_value: Some(value_of(old(self).entries_view(), key@)),
                        new_value: value@,
                    }
                } else {
                    DeltaV {
                        key: key@,
                        ordinal: ordinal,
                        operation: Operation::Create,
                        old_value: None,
                        new_value: value@,
                    }
                }),
            ),
    {
        if self.written && ordinal < self.last_ordinal {
            return Err(StoreError::OrdinalRegression);
        }
        self.written = true;
        self.last_ordinal = ordinal;
        proof {
            assert(self.entries@ == old(self).entries@);
            assert(self.entries_view() =~= old(self).entries_view());
            assert(self.deltas@ == old(self).deltas@);
            assert(self.spec_deltas() =~= old(self).spec_deltas());
            assert(self.wf());
        }
        let ghost pre_entries = self.entries_view();
        let ghost pre_deltas = self.spec_deltas();
        let ghost pre_dvec = self.deltas@;
        match self.find_key(&key) {
            Some(ix) => {
                let ghost pre_vec = self.entries@;
                let old_value = clone_transfer(&self.entries[ix].value);
                let delta = StoreDelta {
                    key: key.clone(),
                    ordinal,
                    operation: Operation::Update,
                    old_value: Some(old_value),
                    new_value: clone_transfer(&value),
                };
                let ghost dsnap = delta;
                self.deltas.push(delta);
                let entry = StoreEntry { key, value };
                let ghost esnap = entry;
                self.entries.set(ix, entry);
                proof {
                    assert(0 <= key_index(pre_entries, esnap.key@) < pre_entries.len());
                    assert(key_index(pre_entries, esnap.key@) == ix as int) by {
                        let kx = key_index(pre_entries, esnap.key@);
                        assert(pre_entries[kx].0 == esnap.key@);
                        assert(pre_entries[ix as int].0 == esnap.key@);
                    }
                    assert(dsnap@.old_value == Some(value_of(pre_entries, esnap.key@)));
                    assert(self.entries@ == pre_vec.update(ix as int, esnap));
                    assert forall|j: int| 0 <= j < self.entries@.len() implies
                        #[trigger] self.entries_view()[j] == upsert(
                        pre_entries,
                        esnap.key@,
                        esnap.value@,
                    )[j] by {
                        if j != ix as int {
                            assert(self.entries@[j] == pre_vec[j]);
                        } else {
                            assert(self.entries@[j] == esnap);
                        }
                    }
                    assert(self.entries_view() =~= upsert(pre_entries, esnap.key@, esnap.value@));
                    assert(self.deltas@ == pre_dvec.push(dsnap));
                    assert forall|j: int| 0 <= j < self.deltas@.len() implies
                        #[trigger] self.spec_deltas()[j] == pre_deltas.push(dsnap@)[j] by {
                        if j < pre_dvec.len() {
                            assert(self.deltas@[j] == pre_dvec[j]);
                        } else {
                            assert(self.deltas@[j] == dsnap);
                        }
                    }
                    assert(self.spec_deltas() =~= pre_deltas.push(dsnap@));
                }
                Ok(())
            },
            None => {
                let ghost pre_vec = self.entries@;
                let delta = StoreDelta {
                    key: key.clone(),
                    ordinal,
                    operation: Operation::Create,
                    old_value: None,
                    new_value: clone_transfer(&value),
                };
                let ghost dsnap = delta;
                self.deltas.push(delta);
                let entry = StoreEntry { key, value };
                let ghost esnap = entry;
                self.entries.push(entry);
                proof {
                    assert(self.entries@ == pre_vec.push(esnap));
                    assert forall|j: int| 0 <= j < self.entries@.len() implies
                        #[trigger] self.entries_view()[j] == pre_entries.push(
                        (esnap.key@, esnap.value@),
                    )[j] by {
                        if j < pre_vec.len() {
                            assert(self.entries@[j] == pre_vec[j]);
                        } else {
                            assert(self.entries@[j] == esnap);
                        }
                    }
                    assert(self.entries_view() =~= upsert(pre_entries, key@, value@));
                    assert(self.deltas@ == pre_dvec.push(dsnap));
                    assert forall|j: int| 0 <= j < self.deltas@.len() implies
                        #[trigger] self.spec_deltas()[j] == pre_deltas.push(dsnap@)[j] by {
                        if j < pre_dvec.len() {
                            assert(self.deltas@[j] == pre_dvec[j]);
                        } else {
                            assert(self.deltas@[j] == dsnap);
                        }
                    }
                    assert(self.spec_deltas() =~= pre_deltas.push(dsnap@));
                    assert(keys_distinct(self.entries_view())) by {
                        assert(!has_key(pre_entries, key@));
                    }
                }
                Ok(())
            },
        }
    }

    /// The deltas recorded by the current pass, in write order.
    pub fn deltas(&self) -> (r: &Vec<StoreDelta>)
        ensures
            delta_views(r@) == self.spec_deltas(),
    {
        &self.deltas
    }

    /// How many entries the store holds.
    pub fn len(&self) -> (n: usize)
        ensures
            n == self.entries_view().len(),
    {
        self.entries.len()
    }
}

/// The entry sequence after one pass of set-if-not-exists writes, applied in
/// order.
pub open spec fn apply_snie(
    es: Seq<(Seq<char>, TransferV)>,
    ws: Seq<(Seq<char>, TransferV)>,
) -> Seq<(Seq<char>, TransferV)>
    decreases ws.len(),
{
    if ws.len() == 0 {
        es
    } else {
        apply_snie(snie(es, ws[0].0, ws[0].1), ws.drop_first())
    }
}

proof fn lemma_snie_preserves_key(
    es: Seq<(Seq<char>, TransferV)>,
    k: Seq<char>,
    v: TransferV,
    k0: Seq<char>,
)
    requires
        has_key(es, k0),
    ensures
        has_key(snie(es, k, v), k0),
{
    let i = choose|i: int| 0 <= i < es.len() && (#[trigger] es[i]).0 == k0;
    if !has_key(es, k) {
        assert(es.push((k, v))[i] == es[i]);
    }
}

proof fn lemma_apply_preserves_key(
    es: Seq<(Seq<char>, TransferV)>,
    ws: Seq<(Seq<char>, TransferV)>,
    k0: Seq<char>,
)
    requires
        has_key(es, k0),
    ensures
        has_key(apply_snie(es, ws), k0),
    decreases ws.len(),
{
    if ws.len() > 0 {
        lemma_snie_preserves_key(es, ws[0].0, ws[0].1, k0);
        lemma_apply_preserves_key(snie(es, ws[0].0, ws[0].1), ws.drop_first(), k0);
    }
}

/// After a pass, every written key is present.
pub proof fn lemma_apply_has_all_keys(es: Seq<(Seq<char>, TransferV)>, ws: Seq<(Seq<char>, TransferV)>)
    ensures
        forall|j: int| 0 <= j < ws.len() ==> has_key(apply_snie(es, ws), (#[trigger] ws[j]).0),
    decreases ws.len(),
{
    if ws.len() > 0 {
        let es1 = snie(es, ws[0].0, ws[0].1);
        assert(has_key(es1, ws[0].0)) by {
            if !has_key(es, ws[0].0) {
                assert(es.push((ws[0].0, ws[0].1))[es.len() as int].0 == ws[0].0);
            } else {
                lemma_snie_preserves_key(es, ws[0].0, ws[0].1, ws[0].0);
            }
        }
        lemma_apply_preserves_key(es1, ws.drop_first(), ws[0].0);
        lemma_apply_has_all_keys(es1, ws.drop_first());
        assert forall|j: int| 0 <= j < ws.len() implies has_key(
            apply_snie(es, ws),
            (#[trigger] ws[j]).0,
        ) by {
            if j > 0 {
                assert(ws.drop_first()[j - 1] == ws[j]);
            }
        }
    }
}

proof fn lemma_apply_noop(es: Seq<(Seq<char>, TransferV)>, ws: Seq<(Seq<char>, TransferV)>)
    requires
        forall|j: int| 0 <= j < ws.len() ==> has_key(es, (#[trigger] ws[j]).0),
    ensures
        apply_snie(es, ws) == es,
    decreases ws.len(),
{
    if ws.len() > 0 {
        assert(has_key(es, ws[0].0));
        assert(snie(es, ws[0].0, ws[0].1) == es);
        assert forall|j: int| 0 <= j < ws.drop_first().len() implies has_key(
            es,
            (#[trigger] ws.drop_first()[j]).0,
        ) by {
            assert(ws.drop_first()[j] == ws[j + 1]);
        }
        lemma_apply_noop(es, ws.drop_first());
    }
}

/// Law: one write pass is idempotent.  Re-applying an identical
/// set-if-not-exists write sequence to the store contents it produced
/// changes nothing: every key already exists, so every repeated write is a
/// no-op.
pub proof fn lemma_write_pass_idempotent(
    es: Seq<(Seq<char>, TransferV)>,
    ws: Seq<(Seq<char>, TransferV)>,
)
    ensures
        apply_snie(apply_snie(es, ws), ws) == apply_snie(es, ws),
{
    lemma_apply_has_all_keys(es, ws);
    lemma_apply_noop(apply_snie(es, ws), ws);
}

/// Whether a pass whose guard starts in the given state accepts a whole
/// ordinal sequence, write by write.
pub open spec fn pass_accepts(last: u64, written: bool, ords: Seq<u64>) -> bool
    decreases ords.len(),
{
    if ords.len() == 0 {
        true
    } else if written && ords[0] < last {
        false
    } else {
        pass_accepts(ords[0], true, ords.drop_first())
    }
}

proof fn lemma_monotone_accepted_from(last: u64, written: bool, ords: Seq<u64>)
    requires
        written && ords.len() > 0 ==> ords[0] >= last,
        forall|i: int| 0 <= i < ords.len() - 1 ==> #[trigger] ords[i] <= ords[i + 1],
    ensures
        pass_accepts(last, written, ords),
    decreases ords.len(),
{
    if ords.len() > 0 {
        let rest = ords.drop_first();
        assert forall|i: int| 0 <= i < rest.len() - 1 implies #[trigger] rest[i] <= rest[i
            + 1] by {
            assert(rest[i] == ords[i + 1]);
            assert(rest[i + 1] == ords[i + 2]);
            assert(ords[i + 1] <= ords[i + 2]);
        }
        if rest.len() > 0 {
            assert(rest[0] == ords[1]);
            assert(ords[0] <= ords[1]);
        }
        lemma_monotone_accepted_from(ords[0], true, rest);
    }
}

/// Law: a fresh pass accepts every write sequence whose ordinals strictly
/// increase.
pub proof fn lemma_increasing_pass_accepted(ords: Seq<u64>)
    requires
        forall|i: int| 0 <= i < ords.len() - 1 ==> #[trigger] ords[i] < ords[i + 1],
    ensures
        pass_accepts(0, false, ords),
{
    assert forall|i: int| 0 <= i < ords.len() - 1 implies #[trigger] ords[i] <= ords[i + 1] by {
        assert(ords[i] < ords[i + 1]);
    }
    lemma_monotone_accepted_from(0, false, ords);
}

proof fn lemma_regression_rejected_from(last: u64, written: bool, ords: Seq<u64>, i: int)
    requires
        0 <= i,
        i + 1 < ords.len(),
        ords[i + 1] < ords[i],
    ensures
        !pass_accepts(last, written, ords),
    decreases i,
{
    if written && ords[0] < last {
    } else {
        let rest = ords.drop_first();
        if i == 0 {
            assert(rest[0] == ords[1]);
            assert(rest.len() > 0);
            assert(!pass_accepts(ords[0], true, rest));
            assert(pass_accepts(last, written, ords) == pass_accepts(ords[0], true, rest));
        } else {
            assert(rest[i - 1] == ords[i]);
            assert(rest[i] == ords[i + 1]);
            lemma_regression_rejected_from(ords[0], true, rest, i - 1);
        }
    }
}

/// Law: any pass containing a write whose ordinal is lower than the
/// immediately preceding write's ordinal is rejected, whatever else it
/// holds.
pub proof fn lemma_regression_pass_rejected(ords: Seq<u64>, i: int)
    requires
        0 <= i,
        i + 1 < ords.len(),
        ords[i + 1] < ords[i],
    ensures
        !pass_accepts(0, false, ords),
{
    lemma_regression_rejected_from(0, false, ords, i);
}

} // verus!
