//! The two histogram shapes of the aggregate summary: per-cycle counts of
//! operation kinds, and counts of observed insert sizes.

use vstd::prelude::*;
use crate::trace::{attributed_prefix, cycle_at, OpKind};

verus! {

/// Occurrence counts for every operation kind at one sequencing cycle.
#[derive(Clone, Copy, PartialEq, Eq, Structural, Debug)]
pub struct KindCounts {
    pub mat: u64,
    pub ins: u64,
    pub del: u64,
    pub soft: u64,
    pub hard: u64,
    pub skip: u64,
    pub pad: u64,
}

impl KindCounts {
    /// All counts zero.
    pub open spec fn zero_spec() -> KindCounts {
        KindCounts { mat: 0, ins: 0, del: 0, soft: 0, hard: 0, skip: 0, pad: 0 }
    }

    /// The count stored for operation kind `k`.
    pub open spec fn get(self, k: OpKind) -> nat {
        match k {
            OpKind::Match => self.mat as nat,
            OpKind::Ins => self.ins as nat,
            OpKind::Del => self.del as nat,
            OpKind::SoftClip => self.soft as nat,
            OpKind::HardClip => self.hard as nat,
            OpKind::Skip => self.skip as nat,
            OpKind::Pad => self.pad as nat,
        }
    }

    /// The counts after one more occurrence of kind `k`.
    pub open spec fn bump_spec(self, k: OpKind) -> KindCounts
        recommends
            self.get(k) < u64::MAX,
    {
        match k {
            OpKind::Match => KindCounts { mat: (self.mat + 1) as u64, ..self },
            OpKind::Ins => KindCounts { ins: (self.ins + 1) as u64, ..self },
            OpKind::Del => KindCounts { del: (self.del + 1) as u64, ..self },
            OpKind::SoftClip => KindCounts { soft: (self.soft + 1) as u64, ..self },
            OpKind::HardClip => KindCounts { hard: (self.hard + 1) as u64, ..self },
            OpKind::Skip => KindCounts { skip: (self.skip + 1) as u64, ..self },
            OpKind::Pad => KindCounts { pad: (self.pad + 1) as u64, ..self },
        }
    }

    /// Returns counts of zero for every kind.
    pub fn zero() -> (r: KindCounts)
        ensures
            r == KindCounts::zero_spec(),
    {
        KindCounts { mat: 0, ins: 0, del: 0, soft: 0, hard: 0, skip: 0, pad: 0 }
    }

    /// Adds one occurrence of kind `k`.
    pub fn incr(&mut self, k: OpKind)
        requires
            old(self).get(k) < u64::MAX,
        ensures
            *final(self) == old(self).bump_spec(k),
    {
        match k {
            OpKind::Match => {
                self.mat = self.mat + 1;
            },
            OpKind::Ins => {
                self.ins = self.ins + 1;
            },
            OpKind::Del => {
                self.del = self.del + 1;
            },
            OpKind::SoftClip => {
                self.soft = self.soft + 1;
            },
            OpKind::HardClip => {
                self.hard = self.hard + 1;
            },
            OpKind::Skip => {
                self.skip = self.skip + 1;
            },
            OpKind::Pad => {
                self.pad = self.pad + 1;
            },
        }
    }
}

/// Bumping one kind changes exactly that kind's count.
pub proof fn lemma_kind_bump_get(c: KindCounts, k: OpKind, k2: OpKind)
    requires
        c.get(k) < u64::MAX,
    ensures
        c.bump_spec(k).get(k2) == c.get(k2) + (if k2 == k {
            1nat
        } else {
            0nat
        }),
{
}

/// Zero counts store zero for every kind.
pub proof fn lemma_zero_get(k: OpKind)
    ensures
        KindCounts::zero_spec().get(k) == 0,
{
}

/// The count a cycle histogram holds for operation kind `kind` at 1-based
/// cycle `cycle`; zero for a cycle the histogram has never touched.
pub open spec fn count_at(h: Seq<KindCounts>, cycle: int, kind: OpKind) -> nat {
    if 1 <= cycle <= h.len() {
        h[cycle - 1].get(kind)
    } else {
        0
    }
}

/// The histogram extended with zero buckets until 1-based cycle `cycle` is
/// in range; unchanged if it already is.
pub open spec fn padded_to(h: Seq<KindCounts>, cycle: int) -> Seq<KindCounts> {
    if cycle <= h.len() {
        h
    } else {
        h + Seq::new((cycle - h.len()) as nat, |i: int| KindCounts::zero_spec())
    }
}

/// The histogram after one more occurrence of `kind` at cycle `cycle`,
/// with the cycle bucket created lazily at zero if absent.
pub open spec fn hist_bump(h: Seq<KindCounts>, cycle: int, kind: OpKind) -> Seq<KindCounts>
    recommends
        1 <= cycle,
{
    let p = padded_to(h, cycle);
    p.update(cycle - 1, p[cycle - 1].bump_spec(kind))
}

/// Bumping one (cycle, kind) cell changes exactly that cell's count and
/// grows the histogram no further than the bumped cycle.
pub proof fn lemma_hist_bump_count(h: Seq<KindCounts>, cycle: int, kind: OpKind, c2: int, g2: OpKind)
    requires
        1 <= cycle,
        count_at(h, cycle, kind) < u64::MAX,
    ensures
        count_at(hist_bump(h, cycle, kind), c2, g2) == count_at(h, c2, g2) + (if c2 == cycle
            && g2 == kind {
            1nat
        } else {
            0nat
        }),
        hist_bump(h, cycle, kind).len() == (if cycle <= h.len() {
            h.len() as int
        } else {
            cycle
        }),
{
    let p = padded_to(h, cycle);
    assert(p[cycle - 1].get(kind) == count_at(h, cycle, kind));
    lemma_kind_bump_get(p[cycle - 1], kind, g2);
    if 1 <= c2 <= h.len() {
    } else if h.len() < c2 <= p.len() {
        if c2 != cycle {
            assert(p[c2 - 1] == KindCounts::zero_spec());
        }
    }
}

/// The histogram after attributing the first `n` positions of the emission
/// sequence `ops`, each to its sequencing cycle.
pub open spec fn apply_prefix(h: Seq<KindCounts>, ops: Seq<OpKind>, n: int) -> Seq<KindCounts>
    decreases n,
{
    if n <= 0 {
        h
    } else {
        hist_bump(apply_prefix(h, ops, n - 1), cycle_at(ops, n - 1), ops[n - 1])
    }
}

/// The histogram after attributing every position of the emission sequence
/// `ops` to its sequencing cycle.
pub open spec fn apply_ops(h: Seq<KindCounts>, ops: Seq<OpKind>) -> Seq<KindCounts> {
    apply_prefix(h, ops, ops.len() as int)
}

/// Attributing `n` positions raises each (cycle, kind) count by exactly the
/// number of positions attributed there, and every count by at most `n`.
pub proof fn lemma_apply_prefix_count(
    h: Seq<KindCounts>,
    ops: Seq<OpKind>,
    n: int,
    bound: int,
    c2: int,
    g2: OpKind,
)
    requires
        0 <= n <= ops.len(),
        forall|c: int, g: OpKind| #[trigger] count_at(h, c, g) <= bound,
        bound + n <= u64::MAX,
    ensures
        count_at(apply_prefix(h, ops, n), c2, g2) == count_at(h, c2, g2) + attributed_prefix(
            ops,
            c2,
            g2,
            n,
        ),
        forall|c: int, g: OpKind| #[trigger] count_at(apply_prefix(h, ops, n), c, g) <= bound + n,
    decreases n,
{
    if n > 0 {
        let prev = apply_prefix(h, ops, n - 1);
        lemma_apply_prefix_count(h, ops, n - 1, bound, c2, g2);
        let cyc = cycle_at(ops, n - 1);
        let kind = ops[n - 1];
        assert(count_at(prev, cyc, kind) <= bound + n - 1) by {
            lemma_apply_prefix_count(h, ops, n - 1, bound, cyc, kind);
        }
        lemma_hist_bump_count(prev, cyc, kind, c2, g2);
        assert forall|c: int, g: OpKind| #[trigger] count_at(
            apply_prefix(h, ops, n),
            c,
            g,
        ) <= bound + n by {
            lemma_apply_prefix_count(h, ops, n - 1, bound, c, g);
            lemma_hist_bump_count(prev, cyc, kind, c, g);
        }
    }
}

/// A per-cycle histogram of operation kinds, the bucket of 1-based cycle
/// `c` stored at index `c - 1`; buckets are created lazily, so the length
/// is the highest cycle ever touched.
#[derive(PartialEq, Eq, Debug)]
pub struct CycleHistogram {
    pub counts: Vec<KindCounts>,
}

impl CycleHistogram {
    /// Returns an empty histogram.
    pub fn new() -> (h: CycleHistogram)
        ensures
            h.counts@ == Seq::<KindCounts>::empty(),
    {
        let h = CycleHistogram { counts: Vec::new() };
        proof {
            assert(h.counts@ =~= Seq::<KindCounts>::empty());
        }
        h
    }

    /// Records one occurrence of `kind` at 1-based cycle `cycle`, creating
    /// the cycle bucket at zero first if it does not exist yet.
    pub fn record_op(&mut self, cycle: usize, kind: OpKind)
        requires
            1 <= cycle,
            count_at(old(self).counts@, cycle as int, kind) < u64::MAX,
        ensures
            final(self).counts@ == hist_bump(old(self).counts@, cycle as int, kind),
    {
        let ghost h0 = self.counts@;
        while self.counts.len() < cycle
            invariant
                h0.len() <= self.counts@.len(),
                self.counts@ =~= h0 + Seq::new(
                    (self.counts@.len() - h0.len()) as nat,
                    |i: int| KindCounts::zero_spec(),
                ),
                self.counts@.len() <= h0.len() || self.counts@.len() <= cycle as int,
            decreases cycle - self.counts.len(),
        {
            self.counts.push(KindCounts::zero());
        }
        proof {
            assert(self.counts@ =~= padded_to(h0, cycle as int));
        }
        let idx = cycle - 1;
        let mut kc = self.counts[idx];
        proof {
            if cycle as int <= h0.len() {
                assert(kc.get(kind) == count_at(h0, cycle as int, kind));
            } else {
                assert(kc == KindCounts::zero_spec());
                lemma_zero_get(kind);
            }
        }
        kc.incr(kind);
        self.counts.set(idx, kc);
        proof {
            assert(self.counts@ =~= hist_bump(h0, cycle as int, kind));
        }
    }
}

/// The count an insert-size histogram holds for insert size `key`: the sum
/// of the stored counts of every entry carrying that key.
pub open spec fn count_of(s: Seq<(i64, u64)>, key: i64) -> nat
    decreases s.len(),
{
    if s.len() == 0 {
        0
    } else {
        count_of(s.drop_last(), key) + (if s.last().0 == key {
            s.last().1 as nat
        } else {
            0nat
        })
    }
}

/// The sum of all counts an insert-size histogram holds.
pub open spec fn total_count(s: Seq<(i64, u64)>) -> nat
    decreases s.len(),
{
    if s.len() == 0 {
        0
    } else {
        total_count(s.drop_last()) + s.last().1 as nat
    }
}

/// The index of the first entry carrying `key`, or the length if none does.
pub open spec fn find_key(s: Seq<(i64, u64)>, key: i64) -> int
    decreases s.len(),
{
    if s.len() == 0 {
        0
    } else if s[0].0 == key {
        0
    } else {
        1 + find_key(s.drop_first(), key)
    }
}

/// The histogram after one more observation of insert size `key`: the
/// first entry for `key` is incremented, or a fresh entry at count 1 is
/// appended if the key was never observed.
pub open spec fn hist_bump_insert(s: Seq<(i64, u64)>, key: i64) -> Seq<(i64, u64)> {
    if find_key(s, key) < s.len() {
        s.update(find_key(s, key), (key, (s[find_key(s, key)].1 + 1) as u64))
    } else {
        s.push((key, 1u64))
    }
}

/// `find_key` names the first entry carrying the key, and the length when
/// there is none.
pub proof fn lemma_find_key(s: Seq<(i64, u64)>, key: i64)
    ensures
        0 <= find_key(s, key) <= s.len(),
        find_key(s, key) < s.len() ==> s[find_key(s, key)].0 == key,
        forall|j: int| 0 <= j < find_key(s, key) ==> s[j].0 != key,
    decreases s.len(),
{
    if s.len() == 0 {
    } else if s[0].0 == key {
    } else {
        lemma_find_key(s.drop_first(), key);
        assert forall|j: int| 0 <= j < find_key(s, key) implies s[j].0 != key by {
            if j > 0 {
                assert(s.drop_first()[j - 1] == s[j]);
            }
        }
    }
}

/// Incrementing one entry raises exactly its key's count, and the total,
/// by one.
pub proof fn lemma_count_update(s: Seq<(i64, u64)>, idx: int, k2: i64)
    requires
        0 <= idx < s.len(),
        s[idx].1 < u64::MAX,
    ensures
        ({
            let s2 = s.update(idx, (s[idx].0, (s[idx].1 + 1) as u64));
            &&& count_of(s2, k2) == count_of(s, k2) + (if k2 == s[idx].0 {
                1nat
            } else {
                0nat
            })
            &&& total_count(s2) == total_count(s) + 1
        }),
    decreases s.len(),
{
    let s2 = s.update(idx, (s[idx].0, (s[idx].1 + 1) as u64));
    if idx == s.len() - 1 {
        assert(s2.drop_last() =~= s.drop_last());
    } else {
        lemma_count_update(s.drop_last(), idx, k2);
        assert(s2.drop_last() =~= s.drop_last().update(idx, (s[idx].0, (s[idx].1 + 1) as u64)));
        assert(s2.last() == s.last());
    }
}

/// Appending a fresh entry at count one raises exactly its key's count,
/// and the total, by one.
pub proof fn lemma_count_push(s: Seq<(i64, u64)>, key: i64, k2: i64)
    ensures
        count_of(s.push((key, 1u64)), k2) == count_of(s, k2) + (if k2 == key {
            1nat
        } else {
            0nat
        }),
        total_count(s.push((key, 1u64))) == total_count(s) + 1,
{
    assert(s.push((key, 1u64)).drop_last() =~= s);
}

/// No single key's count exceeds the sum of all counts.
pub proof fn lemma_count_le_total(s: Seq<(i64, u64)>, key: i64)
    ensures
        count_of(s, key) <= total_count(s),
    decreases s.len(),
{
    if s.len() > 0 {
        lemma_count_le_total(s.drop_last(), key);
    }
}

/// One entry's stored count never exceeds its key's count.
pub proof fn lemma_entry_le_count(s: Seq<(i64, u64)>, idx: int)
    requires
        0 <= idx < s.len(),
    ensures
        s[idx].1 <= count_of(s, s[idx].0),
    decreases s.len(),
{
    if idx == s.len() - 1 {
    } else {
        lemma_entry_le_count(s.drop_last(), idx);
    }
}

/// One observation of `key` raises exactly that key's count, and the
/// total, by one.
pub proof fn lemma_hist_bump_insert_count(s: Seq<(i64, u64)>, key: i64, k2: i64)
    requires
        count_of(s, key) < u64::MAX,
    ensures
        count_of(hist_bump_insert(s, key), k2) == count_of(s, k2) + (if k2 == key {
            1nat
        } else {
            0nat
        }),
        total_count(hist_bump_insert(s, key)) == total_count(s) + 1,
{
    lemma_find_key(s, key);
    let i = find_key(s, key);
    if i < s.len() {
        lemma_entry_le_count(s, i);
        lemma_count_update(s, i, k2);
    } else {
        lemma_count_push(s, key, k2);
    }
}

/// A histogram of observed insert sizes: one entry per distinct size, each
/// holding how often that exact size was observed.
#[derive(PartialEq, Eq, Debug)]
pub struct InsertSizeHistogram {
    pub entries: Vec<(i64, u64)>,
}

impl InsertSizeHistogram {
    /// Returns an empty histogram.
    pub fn new() -> (h: InsertSizeHistogram)
        ensures
            h.entries@ == Seq::<(i64, u64)>::empty(),
    {
        let h = InsertSizeHistogram { entries: Vec::new() };
        proof {
            assert(h.entries@ =~= Seq::<(i64, u64)>::empty());
        }
        h
    }

    /// Returns the index of the first entry carrying `key`, or the number
    /// of entries if the key was never observed.
    fn find_index(&self, key: i64) -> (r: usize)
        ensures
            r as int == find_key(self.entries@, key),
    {
        proof {
            lemma_find_key(self.entries@, key);
        }
        let n = self.entries.len();
        let mut i: usize = 0;
        while i < n
            invariant
                0 <= i <= n,
                n == self.entries@.len(),
                forall|j: int| 0 <= j < i ==> self.entries@[j].0 != key,
                0 <= find_key(self.entries@, key) <= n,
                find_key(self.entries@, key) < n ==> self.entries@[find_key(
                    self.entries@,
                    key,
                )].0 == key,
                forall|j: int| 0 <= j < find_key(self.entries@, key) ==> self.entries@[j].0 != key,
            decreases n - i,
        {
            if self.entries[i].0 == key {
                proof {
                    assert(find_key(self.entries@, key) == i as int);
                }
                return i;
            }
            i = i + 1;
        }
        proof {
            assert(find_key(self.entries@, key) == n as int);
        }
        n
    }

    /// Records one more observation of insert size `key`.
    pub fn bump(&mut self, key: i64)
        requires
            count_of(old(self).entries@, key) < u64::MAX,
        ensures
            final(self).entries@ == hist_bump_insert(old(self).entries@, key),
    {
        let ghost s0 = self.entries@;
        proof {
            lemma_find_key(s0, key);
        }
        let i = self.find_index(key);
        if i < self.entries.len() {
            proof {
                lemma_entry_le_count(s0, i as int);
            }
            let e = self.entries[i];
            self.entries.set(i, (key, e.1 + 1));
            proof {
                assert(self.entries@ =~= hist_bump_insert(s0, key));
            }
        } else {
            self.entries.push((key, 1));
            proof {
                assert(self.entries@ =~= hist_bump_insert(s0, key));
            }
        }
    }
}

} // verus!
