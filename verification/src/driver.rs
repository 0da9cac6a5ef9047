//! The stream driver's decision policy: consume read-source events one at
//! a time, fold records into the summary, and abort on the first decode
//! failure without ever handing out a partial summary. The deployed driver
//! performs the actual reading and applies this policy event by event.

use vstd::prelude::*;
use crate::summary::{
    fold_observe, init_view, observe_fits, spec_observe, BamQC, QcView, ReadRecord, RecordView,
};

verus! {

/// The closed error taxonomy. Every error is fatal: nothing is retried,
/// no malformed record is skipped, and no partial summary is emitted.
#[derive(Clone, Copy, PartialEq, Eq, Structural, Debug)]
pub enum QcError {
    /// The alignment container could not be opened or configured.
    OpenError,
    /// A malformed record was met mid-stream.
    DecodeError,
    /// The finished summary could not be encoded.
    SerializationError,
}

/// One event of the read source: a decoded record, or a decode failure.
/// End of stream is the end of the event sequence.
pub enum StreamEvent {
    /// The source delivered one well-formed record.
    Record(ReadRecord),
    /// The source failed to decode a record.
    Malformed,
}

/// The mathematical abstraction of a read-source event.
pub ghost enum EventView {
    Record(RecordView),
    Malformed,
}

impl View for StreamEvent {
    type V = EventView;

    open spec fn view(&self) -> EventView {
        match self {
            StreamEvent::Record(r) => EventView::Record(r@),
            StreamEvent::Malformed => EventView::Malformed,
        }
    }
}

/// The views of a sequence of events.
pub open spec fn event_views(evs: Seq<StreamEvent>) -> Seq<EventView> {
    Seq::new(evs.len(), |i: int| evs[i]@)
}

/// Whether any event of the sequence is a decode failure.
pub open spec fn has_malformed(evs: Seq<EventView>) -> bool {
    exists|i: int| 0 <= i < evs.len() && evs[i] is Malformed
}

/// The records the sequence delivers, in order.
pub open spec fn records_of(evs: Seq<EventView>) -> Seq<RecordView>
    decreases evs.len(),
{
    if evs.len() == 0 {
        Seq::empty()
    } else {
        records_of(evs.drop_last()) + (match evs.last() {
            EventView::Record(r) => seq![r],
            EventView::Malformed => Seq::empty(),
        })
    }
}

/// Whether the whole event sequence can be folded from `v` without any
/// counter leaving its machine word.
pub open spec fn stream_fits(v: QcView, evs: Seq<EventView>) -> bool
    decreases evs.len(),
{
    evs.len() == 0 || (match evs[0] {
        EventView::Record(r) => observe_fits(v, r) && stream_fits(
            spec_observe(v, r),
            evs.drop_first(),
        ),
        EventView::Malformed => true,
    })
}

/// Runs the driver policy over a sequence of read-source events: records
/// are folded into a fresh summary in order; the first decode failure
/// aborts with a decode error and discards everything, however many
/// records were already observed; a stream with no failure, of any length
/// including zero, yields the folded summary.
pub fn run_stream(events: Vec<StreamEvent>) -> (r: Result<BamQC, QcError>)
    requires
        stream_fits(init_view(), event_views(events@)),
    ensures
        r is Err <==> has_malformed(event_views(events@)),
        match r {
            Ok(qc) => qc@ == fold_observe(init_view(), records_of(event_views(events@)))
                && qc@.wf(),
            Err(e) => e == QcError::DecodeError,
        },
{
    let ghost evs = event_views(events@);
    let mut qc = BamQC::new();
    proof {
        assert(evs.skip(0) =~= evs);
        assert(records_of(evs.take(0)) =~= Seq::<RecordView>::empty());
    }
    let mut i: usize = 0;
    while i < events.len()
        invariant
            0 <= i <= events@.len(),
            evs == event_views(events@),
            evs.len() == events@.len(),
            qc@ == fold_observe(init_view(), records_of(evs.take(i as int))),
            qc@.wf(),
            forall|k: int| 0 <= k < i ==> !((#[trigger] evs[k]) is Malformed),
            stream_fits(qc@, evs.skip(i as int)),
        decreases events@.len() - i,
    {
        match &events[i] {
            StreamEvent::Record(rec) => {
                let ghost rs_i = records_of(evs.take(i as int));
                proof {
                    assert(evs.skip(i as int)[0] == evs[i as int]);
                    assert(evs[i as int] == EventView::Record(rec@));
                }
                qc.observe(rec);
                proof {
                    assert(evs.skip(i as int).drop_first() =~= evs.skip(i as int + 1));
                    assert(evs.take(i as int + 1).last() == evs[i as int]);
                    assert(records_of(evs.take(i as int + 1)) =~= rs_i.push(rec@)) by {
                        assert(evs.take(i as int + 1).drop_last() =~= evs.take(i as int));
                    }
                    assert(fold_observe(init_view(), rs_i.push(rec@)) == spec_observe(
                        fold_observe(init_view(), rs_i),
                        rec@,
                    )) by {
                        assert(rs_i.push(rec@).drop_last() =~= rs_i);
                        assert(rs_i.push(rec@).last() == rec@);
                    }
                }
            },
            StreamEvent::Malformed => {
                proof {
                    assert(evs[i as int] is Malformed);
                }
                return Err(QcError::DecodeError);
            },
        }
        i = i + 1;
    }
    proof {
        assert(evs.take(evs.len() as int) =~= evs);
        if has_malformed(evs) {
            let k = choose|k: int| 0 <= k < evs.len() && evs[k] is Malformed;
            assert(!(evs[k] is Malformed));
        }
    }
    Ok(qc)
}

} // verus!
