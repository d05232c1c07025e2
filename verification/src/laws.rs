//! What holds of the library as a whole, over any inputs: the shape of the
//! transcript after many requests, in sequence or interleaved, and the
//! relation between what is displayed and what is returned.

use vstd::prelude::*;
use crate::aggregator::{
    break_count, concat, display, fragment_writes, lemma_push_text, shown_text, wraps, Outcome,
    SinkWriteView, StreamEvent, WRAP_WIDTH,
};
use crate::message::{assistant_message, user_message, MessageView};
use crate::session::{committed, recorded, transcript_after};
use crate::stream::{
    consumed_texts, event_text, fails, is_terminal, outcome_of, stop_index, writes_of,
};
use crate::store::{opens_with_system, single_system};

verus! {

/// The transcript after the given exchanges, each an input and the reply that
/// the backend completed for it, handled one after the other.
pub open spec fn after_exchanges(
    start: Seq<MessageView>,
    exchanges: Seq<(Seq<char>, Seq<char>)>,
) -> Seq<MessageView>
    decreases exchanges.len(),
{
    if exchanges.len() == 0 {
        start
    } else {
        transcript_after(
            after_exchanges(start, exchanges.drop_last()),
            exchanges.last().0,
            Outcome::Completed(exchanges.last().1),
        )
    }
}

/// After `n` successful requests the transcript is what it was, followed by
/// `n` pairs of a user message and an assistant message, in the order of the
/// requests: from the system message alone, `1 + 2n` messages.
pub proof fn lemma_order_preserved(start: Seq<MessageView>, exchanges: Seq<(Seq<char>, Seq<char>)>)
    ensures
        after_exchanges(start, exchanges).len() == start.len() + 2 * exchanges.len(),
        forall|i: int| 0 <= i < start.len() ==> after_exchanges(start, exchanges)[i] == start[i],
        forall|k: int|
            0 <= k < exchanges.len() ==> {
                &&& after_exchanges(start, exchanges)[start.len() + 2 * k] == user_message(
                    (#[trigger] exchanges[k]).0,
                )
                &&& after_exchanges(start, exchanges)[start.len() + 2 * k + 1] == assistant_message(
                    exchanges[k].1,
                )
            },
    decreases exchanges.len(),
{
    if exchanges.len() > 0 {
        let earlier = exchanges.drop_last();
        lemma_order_preserved(start, earlier);
        assert forall|k: int| 0 <= k < exchanges.len() implies {
            &&& after_exchanges(start, exchanges)[start.len() + 2 * k] == user_message(
                (#[trigger] exchanges[k]).0,
            )
            &&& after_exchanges(start, exchanges)[start.len() + 2 * k + 1] == assistant_message(
                exchanges[k].1,
            )
        } by {
            if k < earlier.len() {
                assert(earlier[k] == exchanges[k]);
            }
        }
    }
}

/// One atomic access of a request to the shared transcript.
pub ghost enum Step {
    /// The request's input is recorded.
    Begin(Seq<char>),
    /// The request is settled with the outcome of its stream.
    Settle(Outcome),
}

/// The transcript after one step.
pub open spec fn after_step(before: Seq<MessageView>, step: Step) -> Seq<MessageView> {
    match step {
        Step::Begin(input) => recorded(before, input),
        Step::Settle(outcome) => committed(before, outcome),
    }
}

/// The transcript after the steps of any number of requests, in the order in
/// which they got hold of the transcript.
pub open spec fn after_steps(start: Seq<MessageView>, steps: Seq<Step>) -> Seq<MessageView>
    decreases steps.len(),
{
    if steps.len() == 0 {
        start
    } else {
        after_step(after_steps(start, steps.drop_last()), steps.last())
    }
}

/// The number of `Begin` steps: the requests that were received.
pub open spec fn begun(steps: Seq<Step>) -> nat
    decreases steps.len(),
{
    if steps.len() == 0 {
        0
    } else {
        begun(steps.drop_last()) + if steps.last() is Begin {
            1nat
        } else {
            0nat
        }
    }
}

/// The number of `Settle` steps with a completed stream: the requests that
/// were answered.
pub open spec fn answered(steps: Seq<Step>) -> nat
    decreases steps.len(),
{
    if steps.len() == 0 {
        0
    } else {
        answered(steps.drop_last()) + if steps.last() matches Step::Settle(Outcome::Completed(_)) {
            1nat
        } else {
            0nat
        }
    }
}

/// The message is the one that the step records.
pub open spec fn recorded_by(message: MessageView, step: Step) -> bool {
    match step {
        Step::Begin(input) => message == user_message(input),
        Step::Settle(Outcome::Completed(reply)) => message == assistant_message(reply),
        Step::Settle(_) => false,
    }
}

/// However the steps of several requests interleave, the transcript grows by
/// one whole message for each request received and one for each request
/// answered: what was there stays, and each new message is the input of one
/// `Begin` or the reply of one completed `Settle`, as it was given. With `k`
/// requests that all complete, that is `2k` messages more. The system
/// message stays first, and stays the only one if it was.
pub proof fn lemma_interleaved_steps(start: Seq<MessageView>, steps: Seq<Step>)
    ensures
        after_steps(start, steps).len() == start.len() + begun(steps) + answered(steps),
        forall|i: int| 0 <= i < start.len() ==> after_steps(start, steps)[i] == start[i],
        forall|i: int|
            start.len() <= i < after_steps(start, steps).len() ==> exists|k: int|
                0 <= k < steps.len() && recorded_by(
                    #[trigger] after_steps(start, steps)[i],
                    #[trigger] steps[k],
                ),
        opens_with_system(start) ==> opens_with_system(after_steps(start, steps)),
        single_system(start) ==> single_system(after_steps(start, steps)),
    decreases steps.len(),
{
    if steps.len() > 0 {
        let earlier = steps.drop_last();
        let before = after_steps(start, earlier);
        let after = after_steps(start, steps);
        lemma_interleaved_steps(start, earlier);
        assert forall|i: int| start.len() <= i < after.len() implies exists|k: int|
            0 <= k < steps.len() && recorded_by(#[trigger] after[i], #[trigger] steps[k]) by {
            if i < before.len() {
                assert(after[i] == before[i]);
                let k = choose|k: int|
                    0 <= k < earlier.len() && recorded_by(#[trigger] before[i], #[trigger] earlier[k]);
                assert(earlier[k] == steps[k]);
                assert(recorded_by(after[i], steps[k]));
            } else {
                assert(recorded_by(after[i], steps[steps.len() - 1]));
            }
        }
    }
}

/// The shown text and the breaks of `writes` with one more write behind.
pub proof fn lemma_push_write(writes: Seq<SinkWriteView>, write: SinkWriteView)
    ensures
        shown_text(writes.push(write)) == match write {
            SinkWriteView::Text(text) => shown_text(writes) + text,
            SinkWriteView::LineBreak => shown_text(writes),
        },
        break_count(writes.push(write)) == match write {
            SinkWriteView::Text(_) => break_count(writes),
            SinkWriteView::LineBreak => break_count(writes) + 1,
        },
{
    assert(writes.push(write).drop_last() =~= writes);
}

/// The texts written to the display, joined, are the fragment texts, joined:
/// wrapping adds line breaks to the display and nothing to any text.
pub proof fn lemma_display_shows_texts(texts: Seq<Seq<char>>)
    ensures
        shown_text(display(texts)) == concat(texts),
        break_count(display(texts)) <= texts.len(),
        display(texts).len() == texts.len() + break_count(display(texts)),
    decreases texts.len(),
{
    if texts.len() > 0 {
        let earlier = texts.drop_last();
        let text = texts.last();
        lemma_display_shows_texts(earlier);
        let shown = display(earlier);
        if wraps(earlier, text) {
            let broken = shown.push(SinkWriteView::LineBreak);
            assert(display(texts) =~= broken.push(SinkWriteView::Text(text)));
            lemma_push_write(shown, SinkWriteView::LineBreak);
            lemma_push_write(broken, SinkWriteView::Text(text));
        } else {
            assert(display(texts) =~= shown.push(SinkWriteView::Text(text)));
            lemma_push_write(shown, SinkWriteView::Text(text));
        }
    }
}

/// A single fragment gets one inserted break exactly when it is longer than
/// a line; its text is written whole either way.
pub proof fn lemma_single_fragment(text: Seq<char>)
    ensures
        display(seq![text]) == if text.len() > WRAP_WIDTH {
            seq![SinkWriteView::LineBreak, SinkWriteView::Text(text)]
        } else {
            seq![SinkWriteView::Text(text)]
        },
        concat(seq![text]) == text,
{
    let none = Seq::<Seq<char>>::empty();
    lemma_push_text(none, text);
    assert(none.push(text) =~= seq![text]);
    assert(display(none) + fragment_writes(none, text) =~= fragment_writes(none, text));
    assert(concat(none) + text =~= text);
}

/// Whatever the stream, the display shows the texts of the fragments read and
/// nothing else but line breaks; where the stream completes, that text is the
/// reply.
pub proof fn lemma_wrapping_is_presentation_only(events: Seq<StreamEvent>)
    ensures
        shown_text(writes_of(events)) == concat(consumed_texts(events)),
        outcome_of(events) matches Outcome::Completed(reply) ==> shown_text(writes_of(events))
            == reply,
{
    let texts = consumed_texts(events);
    lemma_display_shows_texts(texts);
    if fails(events) {
        assert(writes_of(events) =~= display(texts));
    } else {
        assert(writes_of(events) =~= display(texts).push(SinkWriteView::LineBreak));
        lemma_push_write(display(texts), SinkWriteView::LineBreak);
    }
}

/// A failed or incomplete request leaves exactly the user's turn behind.
pub proof fn lemma_no_partial_commit(before: Seq<MessageView>, input: Seq<char>, outcome: Outcome)
    requires
        !(outcome is Completed),
    ensures
        transcript_after(before, input, outcome) == before.push(user_message(input)),
        transcript_after(before, input, outcome).len() == before.len() + 1,
{
}

/// A completed request leaves the user's turn and the reply behind, in that
/// order, and what was there before is untouched.
pub proof fn lemma_commit(before: Seq<MessageView>, input: Seq<char>, reply: Seq<char>)
    ensures
        transcript_after(before, input, Outcome::Completed(reply)) == before.push(
            user_message(input),
        ).push(assistant_message(reply)),
        transcript_after(before, input, Outcome::Completed(reply)).len() == before.len() + 2,
{
}

/// Whatever the outcome of a request, the system message stays first, and
/// stays the only one if it was.
pub proof fn lemma_system_message_stays(before: Seq<MessageView>, input: Seq<char>, outcome: Outcome)
    requires
        opens_with_system(before),
    ensures
        opens_with_system(transcript_after(before, input, outcome)),
        transcript_after(before, input, outcome)[0] == before[0],
        single_system(before) ==> single_system(transcript_after(before, input, outcome)),
{
}

/// `stop_index` is where reading stops: within the stream or at its end, with
/// no terminal event before it and, within the stream, a terminal event at it.
pub proof fn lemma_stop_is_first_terminal(events: Seq<StreamEvent>)
    ensures
        0 <= stop_index(events) <= events.len(),
        forall|j: int| 0 <= j < stop_index(events) ==> !is_terminal(#[trigger] events[j]),
        stop_index(events) < events.len() ==> is_terminal(events[stop_index(events)]),
    decreases events.len(),
{
    if events.len() > 0 && !is_terminal(events.first()) {
        let rest = events.drop_first();
        lemma_stop_is_first_terminal(rest);
        assert forall|j: int| 0 <= j < stop_index(events) implies !is_terminal(
            #[trigger] events[j],
        ) by {
            if j > 0 {
                assert(events[j] == rest[j - 1]);
            }
        }
        if stop_index(events) < events.len() {
            assert(events[stop_index(events)] == rest[stop_index(rest)]);
        }
    }
}

/// A stream is incomplete exactly when it holds no final fragment and no
/// failure; the empty stream is such a stream. Any other stream completes or
/// fails, so no reply, the empty one included, is mistaken for it.
pub proof fn lemma_incomplete_means_no_terminal(events: Seq<StreamEvent>)
    ensures
        outcome_of(events) is Incomplete <==> forall|i: int|
            0 <= i < events.len() ==> !is_terminal(#[trigger] events[i]),
        events.len() == 0 ==> outcome_of(events) is Incomplete,
{
    lemma_stop_is_first_terminal(events);
}

/// A stream that opens with a final fragment completes with that fragment's
/// text as the reply, whatever the text: an empty text gives the empty reply.
pub proof fn lemma_final_fragment_completes(events: Seq<StreamEvent>)
    requires
        events.len() >= 1,
        events[0] matches StreamEvent::Fragment(fragment) && fragment.is_final,
    ensures
        outcome_of(events) == Outcome::Completed(event_text(events[0])),
        writes_of(events) == fragment_writes(Seq::empty(), event_text(events[0])).push(
            SinkWriteView::LineBreak,
        ),
{
    let text = event_text(events[0]);
    let none = Seq::<Seq<char>>::empty();
    assert(stop_index(events) == 0);
    assert(consumed_texts(events) =~= none.push(text));
    lemma_push_text(none, text);
    assert(concat(none) + text =~= text);
    assert(display(none) + fragment_writes(none, text) =~= fragment_writes(none, text));
    assert(writes_of(events) =~= fragment_writes(none, text).push(SinkWriteView::LineBreak));
}

} // verus!
