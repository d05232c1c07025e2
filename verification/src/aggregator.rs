//! Reassembly of a streamed reply: fragments arrive one by one, each is shown
//! at once on a display sink with soft line wrapping, and the texts are joined
//! into the reply when the final fragment arrives.

use vstd::prelude::*;

verus! {

/// Width of a display line: once more characters than this were shown since
/// the last inserted break, a break is inserted.
pub const WRAP_WIDTH: usize = 80;

/// One piece of a streamed reply.
#[derive(Debug, PartialEq, Eq)]
pub struct StreamFragment {
    pub text: String,
    pub is_final: bool,
}

/// The stream broke: the cause as the transport reported it.
#[derive(Debug, PartialEq, Eq)]
pub struct TransportError {
    pub cause: String,
}

/// One element of a backend stream.
#[derive(Debug, PartialEq, Eq)]
pub enum StreamEvent {
    Fragment(StreamFragment),
    Failure(TransportError),
}

/// One write to the display sink. A `LineBreak` is never part of a fragment's
/// text: text is shown as `Text`, line breaks it holds included.
#[derive(Debug, PartialEq, Eq)]
pub enum SinkWrite {
    Text(String),
    LineBreak,
}

/// Mathematical model of a [`SinkWrite`].
pub ghost enum SinkWriteView {
    Text(Seq<char>),
    LineBreak,
}

impl View for SinkWrite {
    type V = SinkWriteView;

    open spec fn view(&self) -> SinkWriteView {
        match self {
            SinkWrite::Text(text) => SinkWriteView::Text(text@),
            SinkWrite::LineBreak => SinkWriteView::LineBreak,
        }
    }
}

/// The models of a sequence of sink writes, element by element.
pub open spec fn sink_views(writes: Seq<SinkWrite>) -> Seq<SinkWriteView> {
    Seq::new(writes.len(), |i: int| writes[i]@)
}

/// How a stream ended, as the aggregator sees it.
pub ghost enum Outcome {
    /// A final fragment arrived; the joined texts.
    Completed(Seq<char>),
    /// The stream ended with no final fragment.
    Incomplete,
    /// The transport failed; its cause.
    Failed(Seq<char>),
}

/// The texts joined in order, with nothing between them.
pub open spec fn concat(texts: Seq<Seq<char>>) -> Seq<char>
    decreases texts.len(),
{
    if texts.len() == 0 {
        Seq::empty()
    } else {
        concat(texts.drop_last()) + texts.last()
    }
}

/// Characters shown since the last inserted break, after `texts` were shown.
pub open spec fn line_len(texts: Seq<Seq<char>>) -> nat
    decreases texts.len(),
{
    if texts.len() == 0 {
        0
    } else {
        let filled = line_len(texts.drop_last()) + texts.last().len();
        if filled > WRAP_WIDTH {
            0
        } else {
            filled
        }
    }
}

/// Whether showing `text` after `before` makes the line too long.
pub open spec fn wraps(before: Seq<Seq<char>>, text: Seq<char>) -> bool {
    line_len(before) + text.len() > WRAP_WIDTH
}

/// What is written for one fragment with `text`, after `before` were shown:
/// a break if the line gets too long, then the text.
pub open spec fn fragment_writes(before: Seq<Seq<char>>, text: Seq<char>) -> Seq<SinkWriteView> {
    if wraps(before, text) {
        seq![SinkWriteView::LineBreak, SinkWriteView::Text(text)]
    } else {
        seq![SinkWriteView::Text(text)]
    }
}

/// Everything written while the fragments with `texts` are shown in order.
pub open spec fn display(texts: Seq<Seq<char>>) -> Seq<SinkWriteView>
    decreases texts.len(),
{
    if texts.len() == 0 {
        Seq::empty()
    } else {
        display(texts.drop_last()) + fragment_writes(texts.drop_last(), texts.last())
    }
}

/// The closing write of a stream that ended, with or without a final fragment.
pub open spec fn closing(ended: bool) -> Seq<SinkWriteView> {
    if ended {
        seq![SinkWriteView::LineBreak]
    } else {
        Seq::empty()
    }
}

/// The text that a sequence of writes shows once its line breaks are left out.
pub open spec fn shown_text(writes: Seq<SinkWriteView>) -> Seq<char>
    decreases writes.len(),
{
    if writes.len() == 0 {
        Seq::empty()
    } else {
        match writes.last() {
            SinkWriteView::Text(text) => shown_text(writes.drop_last()) + text,
            SinkWriteView::LineBreak => shown_text(writes.drop_last()),
        }
    }
}

/// The number of line breaks among `writes`.
pub open spec fn break_count(writes: Seq<SinkWriteView>) -> nat
    decreases writes.len(),
{
    if writes.len() == 0 {
        0
    } else {
        match writes.last() {
            SinkWriteView::Text(_) => break_count(writes.drop_last()),
            SinkWriteView::LineBreak => break_count(writes.drop_last()) + 1,
        }
    }
}

/// The line never holds more than `WRAP_WIDTH` characters after a fragment.
pub proof fn lemma_line_len_bounded(texts: Seq<Seq<char>>)
    ensures
        line_len(texts) <= WRAP_WIDTH,
{
}

/// Joining, line length and display of `texts` with one more text behind.
pub proof fn lemma_push_text(texts: Seq<Seq<char>>, text: Seq<char>)
    ensures
        concat(texts.push(text)) == concat(texts) + text,
        line_len(texts.push(text)) == if wraps(texts, text) { 0 } else { line_len(texts) + text.len() },
        display(texts.push(text)) == display(texts) + fragment_writes(texts, text),
{
    assert(texts.push(text).drop_last() =~= texts);
}

/// Aggregation state of one request: the fragment texts seen so far and the
/// number of characters shown since the last inserted break.
pub struct StreamAggregator {
    fragments: Vec<String>,
    line_len: usize,
}

impl View for StreamAggregator {
    type V = Seq<Seq<char>>;

    closed spec fn view(&self) -> Seq<Seq<char>> {
        Seq::new(self.fragments.len() as nat, |i: int| self.fragments[i]@)
    }
}

impl StreamAggregator {
    /// The counter agrees with the fragments seen.
    pub closed spec fn wf(&self) -> bool {
        self.line_len == line_len(self@)
    }

    /// The state before any fragment.
    pub fn new() -> (aggregator: StreamAggregator)
        ensures
            aggregator.wf(),
            aggregator@ == Seq::<Seq<char>>::empty(),
    {
        let aggregator = StreamAggregator { fragments: Vec::new(), line_len: 0 };
        assert(aggregator@ =~= Seq::<Seq<char>>::empty());
        aggregator
    }

    /// The texts seen so far, joined.
    pub fn joined(&self) -> (reply: String)
        ensures
            reply@ == concat(self@),
    {
        let mut reply = String::new();
        let n: usize = self.fragments.len();
        let mut i: usize = 0;
        while i < n
            invariant
                n == self.fragments.len(),
                i <= n,
                reply@ == concat(self@.take(i as int)),
            decreases n - i,
        {
            proof {
                assert(self@.take(i + 1) =~= self@.take(i as int).push(self@[i as int]));
                lemma_push_text(self@.take(i as int), self@[i as int]);
            }
            reply.append(self.fragments[i].as_str());
            i += 1;
        }
        assert(self@.take(n as int) =~= self@);
        reply
    }

    /// Takes one fragment: shows its text on `sink` at once, after a break
    /// where the line got too long, and keeps the text. With the final
    /// fragment the line is closed and the reply handed out.
    pub fn accept(&mut self, fragment: &StreamFragment, sink: &mut Vec<SinkWrite>) -> (reply: Option<String>)
        requires
            old(self).wf(),
        ensures
            final(self).wf(),
            final(self)@ == old(self)@.push(fragment.text@),
            sink_views(final(sink)@) == sink_views(old(sink)@) + fragment_writes(
                old(self)@,
                fragment.text@,
            ) + closing(fragment.is_final),
            fragment.is_final ==> (reply matches Some(text) && text@ == concat(final(self)@)),
            !fragment.is_final ==> reply is None,
    {
        let shown: usize = fragment.text.as_str().unicode_len();
        proof {
            lemma_line_len_bounded(self@);
            lemma_push_text(self@, fragment.text@);
        }
        if shown > WRAP_WIDTH - self.line_len {
            sink.push(SinkWrite::LineBreak);
            self.line_len = 0;
        } else {
            self.line_len = self.line_len + shown;
        }
        sink.push(SinkWrite::Text(fragment.text.clone()));
        self.fragments.push(fragment.text.clone());
        assert(self@ =~= old(self)@.push(fragment.text@));
        if fragment.is_final {
            sink.push(SinkWrite::LineBreak);
            assert(sink_views(sink@) =~= sink_views(old(sink)@) + fragment_writes(
                old(self)@,
                fragment.text@,
            ) + closing(true));
            Some(self.joined())
        } else {
            assert(sink_views(sink@) =~= sink_views(old(sink)@) + fragment_writes(
                old(self)@,
                fragment.text@,
            ) + closing(false));
            None
        }
    }

    /// The stream ended with no final fragment: the line is closed and there
    /// is no reply.
    pub fn close(self, sink: &mut Vec<SinkWrite>)
        ensures
            sink_views(final(sink)@) == sink_views(old(sink)@) + closing(true),
    {
        sink.push(SinkWrite::LineBreak);
        assert(sink_views(sink@) =~= sink_views(old(sink)@) + closing(true));
    }
}

} // verus!
