//! Driving the aggregator over a whole backend stream.

use vstd::prelude::*;
use crate::aggregator::{
    closing, concat, display, lemma_push_text, sink_views, Outcome, SinkWrite, SinkWriteView,
    StreamAggregator, StreamEvent, TransportError,
};

verus! {

/// An event after which nothing more is read: a final fragment or a failure.
pub open spec fn is_terminal(event: StreamEvent) -> bool {
    match event {
        StreamEvent::Fragment(fragment) => fragment.is_final,
        StreamEvent::Failure(_) => true,
    }
}

/// The position of the first terminal event, or the length of the stream if
/// it has none.
pub open spec fn stop_index(events: Seq<StreamEvent>) -> int
    decreases events.len(),
{
    if events.len() == 0 || is_terminal(events.first()) {
        0
    } else {
        1 + stop_index(events.drop_first())
    }
}

/// The text that an event carries; a failure carries none.
pub open spec fn event_text(event: StreamEvent) -> Seq<char> {
    match event {
        StreamEvent::Fragment(fragment) => fragment.text@,
        StreamEvent::Failure(_) => Seq::empty(),
    }
}

/// The texts of the first `count` events.
pub open spec fn texts_of(events: Seq<StreamEvent>, count: int) -> Seq<Seq<char>> {
    Seq::new(count as nat, |i: int| event_text(events[i]))
}

/// The stream broke before it ended or completed.
pub open spec fn fails(events: Seq<StreamEvent>) -> bool {
    let stop = stop_index(events);
    stop < events.len() && events[stop] is Failure
}

/// The texts of the fragments that are read: all those before the first
/// terminal event, and that of the final fragment if there is one.
pub open spec fn consumed_texts(events: Seq<StreamEvent>) -> Seq<Seq<char>> {
    let stop = stop_index(events);
    if stop < events.len() && events[stop] is Fragment {
        texts_of(events, stop + 1)
    } else {
        texts_of(events, stop)
    }
}

/// How the aggregation of `events` ends.
pub open spec fn outcome_of(events: Seq<StreamEvent>) -> Outcome {
    let stop = stop_index(events);
    if stop >= events.len() {
        Outcome::Incomplete
    } else {
        match events[stop] {
            StreamEvent::Failure(error) => Outcome::Failed(error.cause@),
            StreamEvent::Fragment(_) => Outcome::Completed(concat(consumed_texts(events))),
        }
    }
}

/// What the aggregation of `events` writes to the display: the fragments read,
/// wrapped, and a closing break unless the stream broke.
pub open spec fn writes_of(events: Seq<StreamEvent>) -> Seq<SinkWriteView> {
    display(consumed_texts(events)) + closing(!fails(events))
}

/// The result of an aggregation, as a model value.
pub open spec fn aggregated(result: Result<Option<String>, TransportError>) -> Outcome {
    match result {
        Ok(Some(reply)) => Outcome::Completed(reply@),
        Ok(None) => Outcome::Incomplete,
        Err(error) => Outcome::Failed(error.cause@),
    }
}

/// `stop_index` is the one position with no terminal event before it that is
/// the end of the stream or holds a terminal event.
pub proof fn lemma_stop_index(events: Seq<StreamEvent>, stop: int)
    requires
        0 <= stop <= events.len(),
        forall|j: int| 0 <= j < stop ==> !is_terminal(#[trigger] events[j]),
        stop == events.len() || is_terminal(events[stop]),
    ensures
        stop_index(events) == stop,
    decreases stop,
{
    if stop > 0 {
        let rest = events.drop_first();
        assert(!is_terminal(events[0]));
        assert forall|j: int| 0 <= j < stop - 1 implies !is_terminal(#[trigger] rest[j]) by {
            assert(rest[j] == events[j + 1]);
        }
        lemma_stop_index(rest, stop - 1);
    }
}

/// Reads `stream` in order up to its first final fragment or failure. Each
/// fragment read is shown on `sink`; a stream that completes or just ends
/// closes the line. The reply is the texts read, joined; a stream without a
/// final fragment has none, and one that breaks gives the failure alone.
pub fn run_chat_req(stream: &Vec<StreamEvent>, sink: &mut Vec<SinkWrite>) -> (result: Result<
    Option<String>,
    TransportError,
>)
    ensures
        aggregated(result) == outcome_of(stream@),
        sink_views(final(sink)@) == sink_views(old(sink)@) + writes_of(stream@),
{
    let mut aggregator = StreamAggregator::new();
    let n: usize = stream.len();
    let mut i: usize = 0;
    assert(sink_views(sink@) =~= sink_views(old(sink)@) + display(aggregator@));
    while i < n
        invariant
            n == stream.len(),
            i <= n,
            aggregator.wf(),
            aggregator@ == texts_of(stream@, i as int),
            forall|j: int| 0 <= j < i ==> !is_terminal(#[trigger] stream@[j]),
            sink_views(sink@) == sink_views(old(sink)@) + display(aggregator@),
        decreases n - i,
    {
        let ghost before = aggregator@;
        let ghost shown = sink_views(sink@);
        match &stream[i] {
            StreamEvent::Failure(error) => {
                proof {
                    lemma_stop_index(stream@, i as int);
                    assert(sink_views(sink@) =~= sink_views(old(sink)@) + writes_of(stream@));
                }
                return Err(TransportError { cause: error.cause.clone() });
            },
            StreamEvent::Fragment(fragment) => {
                let reply = aggregator.accept(fragment, sink);
                proof {
                    lemma_push_text(before, fragment.text@);
                    assert(aggregator@ =~= texts_of(stream@, i + 1));
                }
                if let Some(text) = reply {
                    proof {
                        lemma_stop_index(stream@, i as int);
                        assert(sink_views(sink@) =~= sink_views(old(sink)@) + writes_of(stream@));
                    }
                    return Ok(Some(text));
                }
                assert(sink_views(sink@) =~= sink_views(old(sink)@) + display(aggregator@));
            },
        }
        i += 1;
    }
    proof {
        lemma_stop_index(stream@, n as int);
    }
    aggregator.close(sink);
    assert(sink_views(sink@) =~= sink_views(old(sink)@) + writes_of(stream@));
    Ok(None)
}

} // verus!
