//! The aggregate accumulator: owns the running summary and folds one read
//! record at a time into the insert-size histogram and the per-mate cycle
//! histograms.

use vstd::prelude::*;
use crate::histogram::{
    apply_ops, apply_prefix, count_at, count_of, hist_bump_insert, lemma_apply_prefix_count,
    lemma_count_le_total, lemma_hist_bump_insert_count, total_count, CycleHistogram,
    InsertSizeHistogram, KindCounts,
};
use crate::trace::{attribute_cycles, attributed, cycle_at, emitted, expanded, lemma_expanded_take_len_le, CigarOp, OpKind};

verus! {

/// One aligned read record, as the external read source delivers it:
/// plain values only, consumed once and never retained.
pub struct ReadRecord {
    /// The reported fragment length; zero or negative when absent or
    /// meaningless for this read.
    pub insert_size: i64,
    /// True when the read aligns to the reverse strand, so that its
    /// emission order is the reverse of its stored order.
    pub is_reverse: bool,
    /// True when this read is mate 1 of its pair. Reads without pairing
    /// information are treated as mate 2.
    pub is_first_in_pair: bool,
    /// The run-length-encoded alignment trace, in stored
    /// (reference-forward) order.
    pub alignment_trace: Vec<CigarOp>,
}

/// The mathematical abstraction of a read record.
pub ghost struct RecordView {
    pub insert_size: i64,
    pub is_reverse: bool,
    pub is_first_in_pair: bool,
    pub trace: Seq<CigarOp>,
}

impl View for ReadRecord {
    type V = RecordView;

    open spec fn view(&self) -> RecordView {
        RecordView {
            insert_size: self.insert_size,
            is_reverse: self.is_reverse,
            is_first_in_pair: self.is_first_in_pair,
            trace: self.alignment_trace@,
        }
    }
}

/// The insert-size inclusion policy: only strictly positive insert sizes
/// are counted; zero, negative or absent sizes are skipped without error.
pub open spec fn counts_insert(sz: i64) -> bool {
    sz > 0
}

/// The mathematical abstraction of the running summary.
#[verifier::ext_equal]
pub ghost struct QcView {
    pub insert_size: Seq<(i64, u64)>,
    pub r1_cigar: Seq<KindCounts>,
    pub r2_cigar: Seq<KindCounts>,
    pub n_insert_records: int,
    pub n_positions: int,
}

impl QcView {
    /// Internal consistency of a summary: the insert-size buckets sum to
    /// the number of counted records, and no cycle count exceeds the
    /// number of attributed positions.
    pub open spec fn wf(self) -> bool {
        &&& total_count(self.insert_size) == self.n_insert_records
        &&& 0 <= self.n_positions
        &&& forall|c: int, g: OpKind| #[trigger] count_at(self.r1_cigar, c, g) <= self.n_positions
        &&& forall|c: int, g: OpKind| #[trigger] count_at(self.r2_cigar, c, g) <= self.n_positions
    }
}

/// The view of a freshly created summary: everything empty.
pub open spec fn init_view() -> QcView {
    QcView {
        insert_size: Seq::empty(),
        r1_cigar: Seq::empty(),
        r2_cigar: Seq::empty(),
        n_insert_records: 0,
        n_positions: 0,
    }
}

/// What observing one record does to a summary: the insert-size bucket of
/// a strictly positive insert size is incremented, and every emitted
/// position of the trace is attributed to its sequencing cycle in the
/// histogram of the record's mate.
pub open spec fn spec_observe(v: QcView, r: RecordView) -> QcView {
    let ops = emitted(r.trace, r.is_reverse);
    let ins = if counts_insert(r.insert_size) {
        hist_bump_insert(v.insert_size, r.insert_size)
    } else {
        v.insert_size
    };
    let nrec = if counts_insert(r.insert_size) {
        v.n_insert_records + 1
    } else {
        v.n_insert_records
    };
    if r.is_first_in_pair {
        QcView {
            insert_size: ins,
            r1_cigar: apply_ops(v.r1_cigar, ops),
            r2_cigar: v.r2_cigar,
            n_insert_records: nrec,
            n_positions: v.n_positions + ops.len(),
        }
    } else {
        QcView {
            insert_size: ins,
            r1_cigar: v.r1_cigar,
            r2_cigar: apply_ops(v.r2_cigar, ops),
            n_insert_records: nrec,
            n_positions: v.n_positions + ops.len(),
        }
    }
}

/// The summary reached by observing a record sequence in order, starting
/// from `v`.
pub open spec fn fold_observe(v: QcView, rs: Seq<RecordView>) -> QcView
    decreases rs.len(),
{
    if rs.len() == 0 {
        v
    } else {
        spec_observe(fold_observe(v, rs.drop_last()), rs.last())
    }
}

/// How many records of a sequence satisfy the insert-size inclusion
/// policy.
pub open spec fn passing_count(rs: Seq<RecordView>) -> int
    decreases rs.len(),
{
    if rs.len() == 0 {
        0
    } else {
        passing_count(rs.drop_last()) + (if counts_insert(rs.last().insert_size) {
            1int
        } else {
            0int
        })
    }
}

/// Whether one more record can be observed without any counter leaving
/// its machine word.
pub open spec fn observe_fits(v: QcView, r: RecordView) -> bool {
    &&& v.n_insert_records < u64::MAX
    &&& v.n_positions + emitted(r.trace, r.is_reverse).len() <= u64::MAX
    &&& emitted(r.trace, r.is_reverse).len() < usize::MAX
}

/// The running quality-control summary: one insert-size histogram and one
/// cycle histogram per mate, together with the totals they are bounded by.
#[derive(PartialEq, Eq, Debug)]
pub struct BamQC {
    /// Occurrences of each strictly positive insert size.
    pub insert_size: InsertSizeHistogram,
    /// Per-cycle operation counts of mate-1 reads.
    pub r1_cigar: CycleHistogram,
    /// Per-cycle operation counts of mate-2 reads (and of reads without
    /// pairing information).
    pub r2_cigar: CycleHistogram,
    /// How many records satisfied the insert-size inclusion policy.
    pub n_insert_records: u64,
    /// How many emitted positions were attributed over both mates.
    pub n_positions: u64,
}

impl View for BamQC {
    type V = QcView;

    open spec fn view(&self) -> QcView {
        QcView {
            insert_size: self.insert_size.entries@,
            r1_cigar: self.r1_cigar.counts@,
            r2_cigar: self.r2_cigar.counts@,
            n_insert_records: self.n_insert_records as int,
            n_positions: self.n_positions as int,
        }
    }
}

impl BamQC {
    /// Returns an empty summary: no insert sizes and no cycles observed.
    pub fn new() -> (qc: BamQC)
        ensures
            qc@ == init_view(),
            qc@.wf(),
    {
        let qc = BamQC {
            insert_size: InsertSizeHistogram::new(),
            r1_cigar: CycleHistogram::new(),
            r2_cigar: CycleHistogram::new(),
            n_insert_records: 0,
            n_positions: 0,
        };
        proof {
            assert(qc@ =~= init_view());
        }
        qc
    }

    /// Folds one read record into the summary: counts its insert size if
    /// the inclusion policy admits it, and attributes every emitted
    /// position of its trace to a sequencing cycle in the histogram of its
    /// mate. The other mate's histogram is left untouched.
    pub fn observe(&mut self, r: &ReadRecord)
        requires
            old(self)@.wf(),
            observe_fits(old(self)@, r@),
        ensures
            final(self)@.wf(),
            final(self)@ == spec_observe(old(self)@, r@),
            final(self)@.n_insert_records == old(self)@.n_insert_records + (if counts_insert(
                r@.insert_size,
            ) {
                1int
            } else {
                0int
            }),
            final(self)@.n_positions == old(self)@.n_positions + emitted(
                r@.trace,
                r@.is_reverse,
            ).len(),
            forall|k: i64|
                #[trigger] count_of(final(self)@.insert_size, k) == count_of(
                    old(self)@.insert_size,
                    k,
                ) + (if counts_insert(r@.insert_size) && k == r@.insert_size {
                    1nat
                } else {
                    0nat
                }),
            r@.is_first_in_pair ==> final(self)@.r2_cigar == old(self)@.r2_cigar,
            !r@.is_first_in_pair ==> final(self)@.r1_cigar == old(self)@.r1_cigar,
            r@.is_first_in_pair ==> forall|c: int, g: OpKind|
                #[trigger] count_at(final(self)@.r1_cigar, c, g) == count_at(
                    old(self)@.r1_cigar,
                    c,
                    g,
                ) + attributed(emitted(r@.trace, r@.is_reverse), c, g),
            !r@.is_first_in_pair ==> forall|c: int, g: OpKind|
                #[trigger] count_at(final(self)@.r2_cigar, c, g) == count_at(
                    old(self)@.r2_cigar,
                    c,
                    g,
                ) + attributed(emitted(r@.trace, r@.is_reverse), c, g),
    {
        let ghost v0 = self@;
        let ghost ops = emitted(r@.trace, r@.is_reverse);
        if r.insert_size > 0 {
            proof {
                lemma_count_le_total(v0.insert_size, r.insert_size);
            }
            self.insert_size.bump(r.insert_size);
            self.n_insert_records = self.n_insert_records + 1;
        }
        let ghost mid = self@;
        proof {
            assert(mid == QcView {
                insert_size: if counts_insert(r@.insert_size) {
                    hist_bump_insert(v0.insert_size, r@.insert_size)
                } else {
                    v0.insert_size
                },
                n_insert_records: if counts_insert(r@.insert_size) {
                    v0.n_insert_records + 1
                } else {
                    v0.n_insert_records
                },
                ..v0
            });
        }
        let pairs = attribute_cycles(&r.alignment_trace, r.is_reverse);
        if r.is_first_in_pair {
            let mut i: usize = 0;
            while i < pairs.len()
                invariant
                    0 <= i <= pairs@.len(),
                    pairs@.len() == ops.len(),
                    ops == emitted(r@.trace, r@.is_reverse),
                    forall|k: int|
                        0 <= k < pairs@.len() ==> (#[trigger] pairs@[k]).0 == cycle_at(ops, k)
                            && pairs@[k].1 == ops[k],
                    self@ == (QcView { r1_cigar: apply_prefix(mid.r1_cigar, ops, i as int), ..mid }),
                    mid.r1_cigar == v0.r1_cigar,
                    mid.n_positions == v0.n_positions,
                    0 <= v0.n_positions,
                    forall|c: int, g: OpKind|
                        #[trigger] count_at(v0.r1_cigar, c, g) <= v0.n_positions,
                    v0.n_positions + ops.len() <= u64::MAX,
                decreases pairs@.len() - i,
            {
                let (cyc, kind) = pairs[i];
                proof {
                    lemma_apply_prefix_count(v0.r1_cigar, ops, i as int, v0.n_positions, cyc as int, kind);
                }
                self.r1_cigar.record_op(cyc, kind);
                i = i + 1;
            }
        } else {
            let mut i: usize = 0;
            while i < pairs.len()
                invariant
                    0 <= i <= pairs@.len(),
                    pairs@.len() == ops.len(),
                    ops == emitted(r@.trace, r@.is_reverse),
                    forall|k: int|
                        0 <= k < pairs@.len() ==> (#[trigger] pairs@[k]).0 == cycle_at(ops, k)
                            && pairs@[k].1 == ops[k],
                    self@ == (QcView { r2_cigar: apply_prefix(mid.r2_cigar, ops, i as int), ..mid }),
                    mid.r2_cigar == v0.r2_cigar,
                    mid.n_positions == v0.n_positions,
                    0 <= v0.n_positions,
                    forall|c: int, g: OpKind|
                        #[trigger] count_at(v0.r2_cigar, c, g) <= v0.n_positions,
                    v0.n_positions + ops.len() <= u64::MAX,
                decreases pairs@.len() - i,
            {
                let (cyc, kind) = pairs[i];
                proof {
                    lemma_apply_prefix_count(v0.r2_cigar, ops, i as int, v0.n_positions, cyc as int, kind);
                }
                self.r2_cigar.record_op(cyc, kind);
                i = i + 1;
            }
        }
        self.n_positions = self.n_positions + (pairs.len() as u64);
        proof {
            assert(self@ =~= spec_observe(v0, r@));
            if counts_insert(r@.insert_size) {
                lemma_count_le_total(v0.insert_size, r@.insert_size);
                assert forall|k: i64|
                    #[trigger] count_of(self@.insert_size, k) == count_of(v0.insert_size, k) + (
                    if counts_insert(r@.insert_size) && k == r@.insert_size {
                        1nat
                    } else {
                        0nat
                    }) by {
                    lemma_hist_bump_insert_count(v0.insert_size, r@.insert_size, k);
                }
                lemma_hist_bump_insert_count(v0.insert_size, r@.insert_size, r@.insert_size);
            }
            if r@.is_first_in_pair {
                lemma_apply_prefix_count(
                    v0.r1_cigar,
                    ops,
                    ops.len() as int,
                    v0.n_positions,
                    1,
                    OpKind::Match,
                );
                assert forall|c: int, g: OpKind|
                    #[trigger] count_at(self@.r1_cigar, c, g) == count_at(v0.r1_cigar, c, g)
                        + attributed(ops, c, g) by {
                    lemma_apply_prefix_count(
                        v0.r1_cigar,
                        ops,
                        ops.len() as int,
                        v0.n_positions,
                        c,
                        g,
                    );
                }
            } else {
                lemma_apply_prefix_count(
                    v0.r2_cigar,
                    ops,
                    ops.len() as int,
                    v0.n_positions,
                    1,
                    OpKind::Match,
                );
                assert forall|c: int, g: OpKind|
                    #[trigger] count_at(self@.r2_cigar, c, g) == count_at(v0.r2_cigar, c, g)
                        + attributed(ops, c, g) by {
                    lemma_apply_prefix_count(
                        v0.r2_cigar,
                        ops,
                        ops.len() as int,
                        v0.n_positions,
                        c,
                        g,
                    );
                }
            }
        }
    }

    /// Returns whether `r` can be folded into the current summary without
    /// any counter leaving its machine word; `observe` asks for exactly
    /// this.
    pub fn can_observe(&self, r: &ReadRecord) -> (ok: bool)
        ensures
            ok == observe_fits(self@, r@),
    {
        let mut total: u64 = 0;
        let mut i: usize = 0;
        let n = r.alignment_trace.len();
        while i < n
            invariant
                0 <= i <= n,
                n == r.alignment_trace@.len(),
                total as int == expanded(r.alignment_trace@.take(i as int)).len(),
            decreases n - i,
        {
            let l: u64 = r.alignment_trace[i].len as u64;
            proof {
                assert(r.alignment_trace@.take(i as int + 1).drop_last() =~= r.alignment_trace@.take(
                    i as int,
                ));
                assert(r.alignment_trace@.take(i as int + 1).last() == r.alignment_trace@[i as int]);
            }
            if total > u64::MAX - l {
                proof {
                    lemma_expanded_take_len_le(r.alignment_trace@, i as int + 1);
                }
                return false;
            }
            total = total + l;
            i = i + 1;
        }
        proof {
            assert(r.alignment_trace@.take(n as int) =~= r.alignment_trace@);
        }
        self.n_insert_records < u64::MAX && total <= u64::MAX - self.n_positions && total < (
        usize::MAX as u64)
    }

    /// Freezes the accumulator at end of stream and hands the finished
    /// summary back unchanged; no further observation is expected.
    pub fn finalize(self) -> (s: BamQC)
        ensures
            s == self,
    {
        self
    }
}

/// Folding records into a summary depends on the records alone: two
/// accumulators that start in the same state and are fed the same record
/// sequence, in the same order, end in identical states.
pub proof fn lemma_replay_is_deterministic(a: QcView, b: QcView, rs: Seq<RecordView>)
    requires
        a == b,
    ensures
        fold_observe(a, rs) == fold_observe(b, rs),
{
}

/// The number of records satisfying the inclusion policy is between zero
/// and the number of records.
pub proof fn lemma_passing_count_bounds(rs: Seq<RecordView>)
    ensures
        0 <= passing_count(rs) <= rs.len(),
    decreases rs.len(),
{
    if rs.len() > 0 {
        lemma_passing_count_bounds(rs.drop_last());
    }
}

/// The insert-size bucket sums track the inclusion policy: after folding
/// any record sequence into a consistent summary, the sum of all
/// insert-size bucket counts equals the number of records observed so far
/// that satisfied the insert-size inclusion policy. The bound on the
/// record count only keeps every bucket within its machine word.
pub proof fn lemma_insert_size_sum(v: QcView, rs: Seq<RecordView>)
    requires
        total_count(v.insert_size) == v.n_insert_records,
        v.n_insert_records + rs.len() <= u64::MAX,
    ensures
        fold_observe(v, rs).n_insert_records == v.n_insert_records + passing_count(rs),
        total_count(fold_observe(v, rs).insert_size) == fold_observe(v, rs).n_insert_records,
    decreases rs.len(),
{
    if rs.len() > 0 {
        lemma_insert_size_sum(v, rs.drop_last());
        lemma_passing_count_bounds(rs.drop_last());
        let w = fold_observe(v, rs.drop_last());
        let r = rs.last();
        if counts_insert(r.insert_size) {
            lemma_count_le_total(w.insert_size, r.insert_size);
            lemma_hist_bump_insert_count(w.insert_size, r.insert_size, r.insert_size);
        }
    }
}

/// Mate separation: a record is attributed to exactly one mate's cycle
/// histogram. Observing a first-in-pair record leaves the mate-2
/// histogram untouched, and any other record leaves the mate-1 histogram
/// untouched, whatever its trace.
pub proof fn lemma_mate_separation(v: QcView, r: RecordView)
    ensures
        r.is_first_in_pair ==> spec_observe(v, r).r2_cigar == v.r2_cigar,
        !r.is_first_in_pair ==> spec_observe(v, r).r1_cigar == v.r1_cigar,
{
}

} // verus!
