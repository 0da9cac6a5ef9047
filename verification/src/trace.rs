//! The cycle-attribution engine: expanding a run-length-encoded alignment
//! trace into per-position operation kinds in emission order, and assigning
//! each position its 1-based sequencing cycle.

use vstd::prelude::*;

verus! {

/// One kind of alignment operation, following the conventional
/// single-letter alignment alphabet (`M I D S H N P`).
#[derive(Clone, Copy, PartialEq, Eq, Structural, Debug)]
pub enum OpKind {
    /// Match or mismatch against the reference (`M`).
    Match,
    /// Insertion to the reference (`I`).
    Ins,
    /// Deletion from the reference (`D`); consumes no sequencing cycle.
    Del,
    /// Soft clip (`S`).
    SoftClip,
    /// Hard clip (`H`).
    HardClip,
    /// Reference skip (`N`).
    Skip,
    /// Padding (`P`).
    Pad,
}

impl OpKind {
    /// The single-letter code of this operation kind.
    pub open spec fn code_spec(self) -> char {
        match self {
            OpKind::Match => 'M',
            OpKind::Ins => 'I',
            OpKind::Del => 'D',
            OpKind::SoftClip => 'S',
            OpKind::HardClip => 'H',
            OpKind::Skip => 'N',
            OpKind::Pad => 'P',
        }
    }

    /// Returns the single-letter code of this operation kind.
    pub fn code(self) -> (c: char)
        ensures
            c == self.code_spec(),
    {
        match self {
            OpKind::Match => 'M',
            OpKind::Ins => 'I',
            OpKind::Del => 'D',
            OpKind::SoftClip => 'S',
            OpKind::HardClip => 'H',
            OpKind::Skip => 'N',
            OpKind::Pad => 'P',
        }
    }
}

/// One run of an alignment trace: an operation kind and its run length.
#[derive(Clone, Copy, PartialEq, Eq, Structural, Debug)]
pub struct CigarOp {
    pub kind: OpKind,
    pub len: u32,
}

/// The per-position expansion of a run-length-encoded trace, in the stored
/// (reference-forward) order: each run of length `n` contributes `n`
/// repetitions of its kind.
pub open spec fn expanded(trace: Seq<CigarOp>) -> Seq<OpKind>
    decreases trace.len(),
{
    if trace.len() == 0 {
        Seq::empty()
    } else {
        expanded(trace.drop_last()) + Seq::new(
            trace.last().len as nat,
            |i: int| trace.last().kind,
        )
    }
}

/// The per-position operation kinds in emission order: the order in which
/// the sequencer produced the bases. This is the stored order for
/// forward-strand reads and its reverse for reverse-strand reads.
pub open spec fn emitted(trace: Seq<CigarOp>, is_reverse: bool) -> Seq<OpKind> {
    if is_reverse {
        expanded(trace).reverse()
    } else {
        expanded(trace)
    }
}

/// How many operations of a per-position sequence consume a sequencing
/// cycle, i.e. are not deletions.
pub open spec fn non_del_count(ops: Seq<OpKind>) -> nat
    decreases ops.len(),
{
    if ops.len() == 0 {
        0
    } else {
        non_del_count(ops.drop_last()) + (if ops.last() == OpKind::Del {
            0nat
        } else {
            1nat
        })
    }
}

/// The 1-based sequencing cycle attributed to position `i` of a
/// per-position sequence in emission order. A cycle-consuming position is
/// assigned one more than the number of cycle-consuming positions before
/// it. A deletion consumes no cycle and introduces no new cycle number: it
/// is attributed to the cycle of the nearest preceding cycle-consuming
/// position, or to cycle 1 when only deletions precede it.
pub open spec fn cycle_at(ops: Seq<OpKind>, i: int) -> int {
    if ops[i] == OpKind::Del {
        if non_del_count(ops.take(i)) == 0 {
            1
        } else {
            non_del_count(ops.take(i)) as int
        }
    } else {
        1 + non_del_count(ops.take(i)) as int
    }
}

/// How many of the first `n` positions of `ops` are attributed to cycle
/// `c` with operation kind `g`.
pub open spec fn attributed_prefix(ops: Seq<OpKind>, c: int, g: OpKind, n: int) -> nat
    decreases n,
{
    if n <= 0 {
        0
    } else {
        attributed_prefix(ops, c, g, n - 1) + (if cycle_at(ops, n - 1) == c && ops[n - 1] == g {
            1nat
        } else {
            0nat
        })
    }
}

/// How many positions of `ops` are attributed to cycle `c` with operation
/// kind `g`.
pub open spec fn attributed(ops: Seq<OpKind>, c: int, g: OpKind) -> nat {
    attributed_prefix(ops, c, g, ops.len() as int)
}

/// Reverse-strand mirroring: on the reverse strand the per-position
/// sequence is reversed before cycle assignment, so the position that is
/// assigned a cycle first is the last position in stored order, and
/// position `i` of the emission order is position `len - 1 - i` of the
/// stored order.
pub proof fn lemma_reverse_strand_mirroring(trace: Seq<CigarOp>, i: int)
    requires
        0 <= i < expanded(trace).len(),
    ensures
        emitted(trace, true).len() == expanded(trace).len(),
        emitted(trace, true)[i] == expanded(trace)[expanded(trace).len() - 1 - i],
        emitted(trace, false) == expanded(trace),
{
}

/// At most every position consumes a cycle.
pub proof fn lemma_non_del_le_len(ops: Seq<OpKind>)
    ensures
        non_del_count(ops) <= ops.len(),
    decreases ops.len(),
{
    if ops.len() > 0 {
        lemma_non_del_le_len(ops.drop_last());
    }
}

/// A prefix of a trace expands to a prefix of its expansion; in particular
/// the expansion can only get longer.
pub proof fn lemma_expanded_take_len_le(trace: Seq<CigarOp>, i: int)
    requires
        0 <= i <= trace.len(),
    ensures
        expanded(trace.take(i)).len() <= expanded(trace).len(),
    decreases trace.len() - i,
{
    if i == trace.len() {
        assert(trace.take(i) =~= trace);
    } else {
        lemma_expanded_take_len_le(trace, i + 1);
        assert(trace.take(i + 1).drop_last() =~= trace.take(i));
    }
}

/// Expands a run-length-encoded trace into its per-position operation
/// kinds, in the stored order.
pub fn expand_trace(trace: &Vec<CigarOp>) -> (out: Vec<OpKind>)
    ensures
        out@ == expanded(trace@),
{
    let mut out: Vec<OpKind> = Vec::new();
    let mut i: usize = 0;
    while i < trace.len()
        invariant
            i <= trace.len(),
            out@ =~= expanded(trace@.take(i as int)),
        decreases trace.len() - i,
    {
        let op = trace[i];
        let mut j: u32 = 0;
        while j < op.len
            invariant
                j <= op.len,
                i < trace.len(),
                op == trace@[i as int],
                out@ =~= expanded(trace@.take(i as int)) + Seq::new(
                    j as nat,
                    |k: int| op.kind,
                ),
            decreases op.len - j,
        {
            out.push(op.kind);
            j = j + 1;
        }
        i = i + 1;
        proof {
            assert(trace@.take(i as int).drop_last() =~= trace@.take(i as int - 1));
            assert(trace@.take(i as int).last() == op);
        }
    }
    proof {
        assert(trace@.take(trace@.len() as int) =~= trace@);
    }
    out
}

/// Returns the per-position operation kinds of `trace` in emission order:
/// stored order for a forward-strand read, reversed for a reverse-strand
/// read.
pub fn emission_sequence(trace: &Vec<CigarOp>, is_reverse: bool) -> (out: Vec<OpKind>)
    ensures
        out@ == emitted(trace@, is_reverse),
{
    let fwd = expand_trace(trace);
    if is_reverse {
        let mut out: Vec<OpKind> = Vec::new();
        let mut i: usize = fwd.len();
        while i > 0
            invariant
                i <= fwd@.len(),
                fwd@ == expanded(trace@),
                out@.len() == fwd@.len() - i,
                forall|k: int|
                    0 <= k < out@.len() ==> out@[k] == fwd@[fwd@.len() - 1 - k],
            decreases i,
        {
            i = i - 1;
            let op = fwd[i];
            out.push(op);
        }
        proof {
            assert(out@ =~= fwd@.reverse());
        }
        out
    } else {
        fwd
    }
}

/// Runs the cycle-attribution engine: pairs every emitted position of the
/// trace with its 1-based sequencing cycle, in emission order. Cycle
/// numbering starts at 1 and advances after every cycle-consuming
/// position; a deletion is attributed to the cycle of the nearest
/// preceding cycle-consuming position (or cycle 1) and never advances
/// the counter.
pub fn attribute_cycles(trace: &Vec<CigarOp>, is_reverse: bool) -> (pairs: Vec<(usize, OpKind)>)
    requires
        emitted(trace@, is_reverse).len() < usize::MAX,
    ensures
        pairs@.len() == emitted(trace@, is_reverse).len(),
        forall|i: int|
            0 <= i < pairs@.len() ==> pairs@[i].0 == cycle_at(emitted(trace@, is_reverse), i)
                && pairs@[i].1 == emitted(trace@, is_reverse)[i],
{
    let ops = emission_sequence(trace, is_reverse);
    let mut pairs: Vec<(usize, OpKind)> = Vec::new();
    let mut cycle: usize = 1;
    let mut i: usize = 0;
    while i < ops.len()
        invariant
            i <= ops@.len(),
            ops@ == emitted(trace@, is_reverse),
            ops@.len() < usize::MAX,
            cycle as int == 1 + non_del_count(ops@.take(i as int)) as int,
            pairs@.len() == i,
            forall|k: int|
                0 <= k < i ==> pairs@[k].0 == cycle_at(ops@, k) && pairs@[k].1 == ops@[k],
        decreases ops.len() - i,
    {
        let op = ops[i];
        let assigned: usize = if matches!(op, OpKind::Del) && cycle > 1 {
            cycle - 1
        } else {
            cycle
        };
        proof {
            assert(ops@.take(i as int).len() == i as int);
            assert(assigned as int == cycle_at(ops@, i as int));
        }
        pairs.push((assigned, op));
        proof {
            lemma_non_del_le_len(ops@.take(i as int));
            assert(ops@.take(i as int).len() == i as int);
            assert(ops@.take(i as int + 1).drop_last() =~= ops@.take(i as int));
            assert(ops@.take(i as int + 1).last() == op);
        }
        if !matches!(op, OpKind::Del) {
            cycle = cycle + 1;
        }
        i = i + 1;
    }
    pairs
}

} // verus!
