use bam_qc::driver::{run_stream, QcError, StreamEvent};
use bam_qc::summary::{BamQC, ReadRecord};
use bam_qc::trace::{attribute_cycles, emission_sequence, expand_trace, CigarOp, OpKind};

fn op(kind: OpKind, len: u32) -> CigarOp {
    CigarOp { kind, len }
}

fn record(insert_size: i64, is_reverse: bool, is_first_in_pair: bool, trace: Vec<CigarOp>) -> ReadRecord {
    ReadRecord { insert_size, is_reverse, is_first_in_pair, alignment_trace: trace }
}

fn five_m_two_d_three_m() -> Vec<CigarOp> {
    vec![op(OpKind::Match, 5), op(OpKind::Del, 2), op(OpKind::Match, 3)]
}

#[test]
fn empty_input_yields_empty_summary() {
    let qc = BamQC::new();
    let s = qc.finalize();
    assert!(s.insert_size.entries.is_empty());
    assert!(s.r1_cigar.counts.is_empty());
    assert!(s.r2_cigar.counts.is_empty());
    assert_eq!(s.n_insert_records, 0);
    assert_eq!(s.n_positions, 0);
}

#[test]
fn forward_trace_cycle_coverage() {
    let mut qc = BamQC::new();
    let r = record(0, false, true, five_m_two_d_three_m());
    assert!(qc.can_observe(&r));
    qc.observe(&r);
    // Eight M positions over cycles 1..=8, one each; the two D positions
    // both land on cycle 5 and introduce no new cycle number.
    assert_eq!(qc.r1_cigar.counts.len(), 8);
    for c in 0..8 {
        let kc = qc.r1_cigar.counts[c];
        assert_eq!(kc.mat, 1, "cycle {}", c + 1);
        assert_eq!(kc.del, if c == 4 { 2 } else { 0 }, "cycle {}", c + 1);
        assert_eq!(kc.ins + kc.soft + kc.hard + kc.skip + kc.pad, 0);
    }
    assert!(qc.r2_cigar.counts.is_empty());
    assert!(qc.insert_size.entries.is_empty());
    assert_eq!(qc.n_positions, 10);
    assert_eq!(qc.n_insert_records, 0);
}

#[test]
fn reverse_trace_mirrors_expansion() {
    let mut qc = BamQC::new();
    let r = record(0, true, true, five_m_two_d_three_m());
    qc.observe(&r);
    // Emission order is the reverse of the expansion: three M (cycles
    // 1..=3), two D on cycle 3, then five M (cycles 4..=8).
    assert_eq!(qc.r1_cigar.counts.len(), 8);
    for c in 0..8 {
        let kc = qc.r1_cigar.counts[c];
        assert_eq!(kc.mat, 1, "cycle {}", c + 1);
        assert_eq!(kc.del, if c == 2 { 2 } else { 0 }, "cycle {}", c + 1);
    }
    assert!(qc.r2_cigar.counts.is_empty());
}

#[test]
fn all_deletion_trace_stays_on_cycle_one() {
    let mut qc = BamQC::new();
    let r = record(0, false, false, vec![op(OpKind::Del, 3)]);
    qc.observe(&r);
    assert_eq!(qc.r2_cigar.counts.len(), 1);
    assert_eq!(qc.r2_cigar.counts[0].del, 3);
    assert_eq!(qc.r2_cigar.counts[0].mat, 0);
}

#[test]
fn mate_separation_populates_disjoint_histograms() {
    let mut qc = BamQC::new();
    let r1 = record(0, false, true, vec![op(OpKind::Match, 2)]);
    let r2 = record(0, false, false, vec![op(OpKind::Match, 2)]);
    qc.observe(&r1);
    qc.observe(&r2);
    assert_eq!(qc.r1_cigar.counts.len(), 2);
    assert_eq!(qc.r2_cigar.counts.len(), 2);
    assert_eq!(qc.r1_cigar.counts, qc.r2_cigar.counts);
    for c in 0..2 {
        assert_eq!(qc.r1_cigar.counts[c].mat, 1);
    }
    // A single mate-1 record touches only the mate-1 histogram.
    let mut only_first = BamQC::new();
    only_first.observe(&r1);
    assert!(only_first.r2_cigar.counts.is_empty());
    // And a record without first-in-pair status only the mate-2 one.
    let mut only_second = BamQC::new();
    only_second.observe(&r2);
    assert!(only_second.r1_cigar.counts.is_empty());
}

#[test]
fn replay_yields_identical_summaries() {
    let records = || {
        vec![
            record(120, false, true, five_m_two_d_three_m()),
            record(-7, true, false, vec![op(OpKind::SoftClip, 2), op(OpKind::Match, 4)]),
            record(120, false, false, vec![op(OpKind::Ins, 1), op(OpKind::Del, 1)]),
        ]
    };
    let mut a = BamQC::new();
    for r in records() {
        a.observe(&r);
    }
    let mut b = BamQC::new();
    for r in records() {
        b.observe(&r);
    }
    assert_eq!(a, b);
}

#[test]
fn insert_size_sum_matches_policy() {
    let mut qc = BamQC::new();
    for sz in [100i64, -5, 0, 100, 7] {
        qc.observe(&record(sz, false, true, vec![]));
    }
    // Only the strictly positive sizes 100, 100 and 7 are counted.
    let total: u64 = qc.insert_size.entries.iter().map(|e| e.1).sum();
    assert_eq!(total, 3);
    assert_eq!(qc.n_insert_records, 3);
    assert_eq!(qc.insert_size.entries, vec![(100, 2), (7, 1)]);
}

#[test]
fn zero_and_negative_insert_sizes_are_skipped() {
    let mut qc = BamQC::new();
    qc.observe(&record(0, false, true, vec![]));
    qc.observe(&record(-42, false, true, vec![]));
    assert!(qc.insert_size.entries.is_empty());
    assert_eq!(qc.n_insert_records, 0);
}

#[test]
fn malformed_event_aborts_without_summary() {
    let events = vec![
        StreamEvent::Record(record(10, false, true, vec![op(OpKind::Match, 3)])),
        StreamEvent::Record(record(11, false, false, vec![op(OpKind::Match, 3)])),
        StreamEvent::Malformed,
    ];
    match run_stream(events) {
        Ok(_) => panic!("a malformed record must abort the stream"),
        Err(e) => assert_eq!(e, QcError::DecodeError),
    }
}

#[test]
fn malformed_first_event_aborts() {
    match run_stream(vec![StreamEvent::Malformed]) {
        Ok(_) => panic!("a malformed record must abort the stream"),
        Err(e) => assert_eq!(e, QcError::DecodeError),
    }
}

#[test]
fn clean_stream_folds_all_records() {
    let events = vec![
        StreamEvent::Record(record(10, false, true, vec![op(OpKind::Match, 3)])),
        StreamEvent::Record(record(11, true, false, vec![op(OpKind::Match, 2), op(OpKind::Ins, 1)])),
    ];
    let qc = run_stream(events).expect("a clean stream yields a summary");
    let mut manual = BamQC::new();
    manual.observe(&record(10, false, true, vec![op(OpKind::Match, 3)]));
    manual.observe(&record(11, true, false, vec![op(OpKind::Match, 2), op(OpKind::Ins, 1)]));
    assert_eq!(qc, manual);
}

#[test]
fn empty_stream_yields_empty_summary() {
    let qc = run_stream(vec![]).expect("an empty stream is not an error");
    assert_eq!(qc, BamQC::new());
}

#[test]
fn expansion_repeats_each_run() {
    let out = expand_trace(&vec![op(OpKind::Match, 2), op(OpKind::Skip, 0), op(OpKind::Ins, 1)]);
    assert_eq!(out, vec![OpKind::Match, OpKind::Match, OpKind::Ins]);
}

#[test]
fn emission_order_reverses_for_reverse_strand() {
    let trace = vec![op(OpKind::Match, 2), op(OpKind::SoftClip, 1)];
    let fwd = emission_sequence(&trace, false);
    let rev = emission_sequence(&trace, true);
    assert_eq!(fwd, vec![OpKind::Match, OpKind::Match, OpKind::SoftClip]);
    assert_eq!(rev, vec![OpKind::SoftClip, OpKind::Match, OpKind::Match]);
}

#[test]
fn attribution_pairs_positions_with_cycles() {
    let trace = vec![op(OpKind::Match, 2), op(OpKind::Del, 1), op(OpKind::Ins, 1)];
    let pairs = attribute_cycles(&trace, false);
    assert_eq!(
        pairs,
        vec![
            (1, OpKind::Match),
            (2, OpKind::Match),
            (2, OpKind::Del),
            (3, OpKind::Ins),
        ]
    );
}

#[test]
fn leading_deletion_lands_on_cycle_one() {
    let pairs = attribute_cycles(&vec![op(OpKind::Del, 1), op(OpKind::Match, 2)], false);
    assert_eq!(pairs, vec![(1, OpKind::Del), (1, OpKind::Match), (2, OpKind::Match)]);
}

#[test]
fn operation_codes_follow_the_alignment_alphabet() {
    assert_eq!(OpKind::Match.code(), 'M');
    assert_eq!(OpKind::Ins.code(), 'I');
    assert_eq!(OpKind::Del.code(), 'D');
    assert_eq!(OpKind::SoftClip.code(), 'S');
    assert_eq!(OpKind::HardClip.code(), 'H');
    assert_eq!(OpKind::Skip.code(), 'N');
    assert_eq!(OpKind::Pad.code(), 'P');
}

#[test]
fn repeated_insert_size_shares_one_bucket() {
    let mut qc = BamQC::new();
    qc.observe(&record(7, false, true, vec![]));
    qc.observe(&record(7, false, false, vec![]));
    assert_eq!(qc.insert_size.entries, vec![(7, 2)]);
}

#[test]
fn finalize_returns_the_accumulated_summary() {
    let mut qc = BamQC::new();
    qc.observe(&record(9, false, true, vec![op(OpKind::Match, 1)]));
    let before_mat = qc.r1_cigar.counts[0].mat;
    let s = qc.finalize();
    assert_eq!(s.n_insert_records, 1);
    assert_eq!(s.r1_cigar.counts[0].mat, before_mat);
    assert_eq!(s.insert_size.entries, vec![(9, 1)]);
}
