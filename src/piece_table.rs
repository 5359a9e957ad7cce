//! A piece table: the text of a document as a sequence of byte ranges into
//! an append-only buffer that the table does not own, with a log of the edits
//! made to the sequence.
use vstd::prelude::*;

verus! {

/// The bytes `start..end` of the buffer.
#[derive(Clone, Copy)]
pub struct Span {
    pub start: usize,
    pub end: usize,
}

/// One edit of the span sequence, as it was made.
pub enum Operation {
    InsertSpan { span: Span, index: usize },
    RemoveSpan { span: Span, index: usize },
    /// The span at `index` was split `byte_offset` bytes into it.
    SplitSpan { span: Span, index: usize, byte_offset: usize },
}

/// Every span runs forward and ends within a buffer of `len` bytes.
pub open spec fn spans_within(spans: Seq<Span>, len: int) -> bool {
    forall|i: int| 0 <= i < spans.len() ==> (#[trigger] spans[i]).start <= spans[i].end <= len
}

/// The text that the spans select from the buffer, in order.
pub open spec fn spans_text(spans: Seq<Span>, buffer: Seq<u8>) -> Seq<u8>
    decreases spans.len(),
{
    if spans.len() == 0 {
        Seq::empty()
    } else {
        spans_text(spans.drop_last(), buffer) + buffer.subrange(spans.last().start as int, spans.last().end as int)
    }
}

/// The spans that cover a document's text, and the log of edits made to them.
pub struct SpanTable {
    spans: Vec<Span>,
    commands: Vec<Operation>,
}

impl View for SpanTable {
    type V = Seq<Span>;

    closed spec fn view(&self) -> Seq<Span> {
        self.spans@
    }
}

impl Default for SpanTable {
    fn default() -> (r: SpanTable)
        ensures
            r@ == Seq::<Span>::empty(),
            r.history() == Seq::<Operation>::empty(),
    {
        SpanTable { spans: Vec::new(), commands: Vec::new() }
    }
}

impl SpanTable {
    /// The edits made so far, oldest first.
    pub closed spec fn history(&self) -> Seq<Operation> {
        self.commands@
    }

    /// The number of edits made so far.
    pub fn command_idx(&self) -> (r: usize)
        ensures
            r == self.history().len(),
    {
        self.commands.len()
    }

    /// Inserts `span` so that it stands at `index`.
    pub fn insert_span(&mut self, span: Span, index: usize)
        requires
            index <= old(self)@.len(),
        ensures
            final(self)@ == old(self)@.insert(index as int, span),
            final(self).history() == old(self).history().push(Operation::InsertSpan { span, index }),
    {
        self.spans.insert(index, span);
        self.commands.push(Operation::InsertSpan { span, index });
    }

    /// Removes the span at `index`.
    pub fn remove_span(&mut self, index: usize)
        requires
            index < old(self)@.len(),
        ensures
            final(self)@ == old(self)@.remove(index as int),
            final(self).history() == old(self).history().push(
                Operation::RemoveSpan { span: old(self)@[index as int], index },
            ),
    {
        let span = self.spans.remove(index);
        self.commands.push(Operation::RemoveSpan { span, index });
    }

    /// Splits the span at `index` into its first `byte_offset` bytes and the
    /// rest, which follows it.
    pub fn split_span(&mut self, index: usize, byte_offset: usize)
        requires
            index < old(self)@.len(),
            old(self)@[index as int].start + byte_offset <= usize::MAX,
        ensures
            final(self)@ == old(self)@.update(
                index as int,
                Span { start: old(self)@[index as int].start, end: (old(self)@[index as int].start + byte_offset) as usize },
            ).insert(
                index + 1,
                Span { start: (old(self)@[index as int].start + byte_offset) as usize, end: old(self)@[index as int].end },
            ),
            final(self).history() == old(self).history().push(
                Operation::SplitSpan { span: old(self)@[index as int], index, byte_offset },
            ),
    {
        let whole = self.spans[index];
        let n = self.spans.len();
        assert(index < n);
        let left_span = Span { start: whole.start, end: whole.start + byte_offset };
        let right_span = Span { start: whole.start + byte_offset, end: whole.end };
        self.spans.set(index, left_span);
        self.spans.insert(index + 1, right_span);
        self.commands.push(Operation::SplitSpan { span: whole, index, byte_offset });
    }

    /// The text: the bytes of the buffer that the spans select, in order.
    pub fn contents(&self, buffer: &Vec<u8>) -> (r: Vec<u8>)
        requires
            spans_within(self@, buffer@.len() as int),
        ensures
            r@ == spans_text(self@, buffer@),
    {
        let mut contents: Vec<u8> = Vec::new();
        let n = self.spans.len();
        let mut i: usize = 0;
        while i < n
            invariant
                n == self@.len(),
                i <= n,
                spans_within(self@, buffer@.len() as int),
                contents@ == spans_text(self@.subrange(0, i as int), buffer@),
            decreases n - i,
        {
            let span = self.spans[i];
            let piece = vstd::slice::slice_subrange(buffer.as_slice(), span.start, span.end);
            contents.extend_from_slice(piece);
            proof {
                assert(self@.subrange(0, i + 1).drop_last() =~= self@.subrange(0, i as int));
                assert(contents@ =~= spans_text(self@.subrange(0, i + 1), buffer@));
            }
            i = i + 1;
        }
        proof {
            assert(self@.subrange(0, n as int) =~= self@);
        }
        contents
    }

    /// The bytes of the buffer that each span selects, span by span.
    pub fn spans<'a>(&self, buffer: &'a Vec<u8>) -> (r: Vec<&'a [u8]>)
        requires
            spans_within(self@, buffer@.len() as int),
        ensures
            r@.len() == self@.len(),
            forall|i: int|
                0 <= i < r@.len() ==> (#[trigger] r@[i])@ == buffer@.subrange(self@[i].start as int, self@[i].end as int),
    {
        let mut spans: Vec<&'a [u8]> = Vec::new();
        let n = self.spans.len();
        let mut i: usize = 0;
        while i < n
            invariant
                n == self@.len(),
                i <= n,
                spans_within(self@, buffer@.len() as int),
                spans@.len() == i,
                forall|j: int|
                    0 <= j < i ==> (#[trigger] spans@[j])@ == buffer@.subrange(self@[j].start as int, self@[j].end as int),
            decreases n - i,
        {
            let span = self.spans[i];
            spans.push(vstd::slice::slice_subrange(buffer.as_slice(), span.start, span.end));
            i = i + 1;
        }
        spans
    }
}

} // verus!
