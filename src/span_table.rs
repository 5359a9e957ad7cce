//! A span table: the text of a document as a sequence of byte ranges into an
//! append-only buffer that the table does not own, with a log of the edits
//! made to the sequence.
use vstd::prelude::*;

verus! {

/// The bytes `start..end` of the buffer.
#[derive(Clone, Copy)]
pub struct Span {
    pub start: usize,
    pub end: usize,
}

impl Span {
    /// The number of bytes in the span.
    pub fn len(&self) -> (r: usize)
        requires
            self.start <= self.end,
        ensures
            r == self.end - self.start,
    {
        self.end - self.start
    }
}

/// One edit of the span sequence, as it was made.
pub enum Operation {
    InsertSpan { span: Span, index: usize },
    RemoveSpan { span: Span, index: usize },
    /// The span at `index` was split `byte_offset` bytes into it.
    SplitSpan { span: Span, index: usize, byte_offset: usize },
}

/// A position in the text: a span and a byte offset into it.
pub struct SpanPos {
    pub span_index: usize,
    pub byte_offset: usize,
}

/// The number of bytes a span covers, as an integer.
pub open spec fn span_size(s: Span) -> int {
    s.end - s.start
}

/// The number of bytes the spans cover together.
pub open spec fn total_size(spans: Seq<Span>) -> int
    decreases spans.len(),
{
    if spans.len() == 0 {
        0
    } else {
        total_size(spans.drop_last()) + span_size(spans.last())
    }
}

/// The number of bytes the first `i` spans cover.
pub open spec fn size_before(spans: Seq<Span>, i: int) -> int {
    total_size(spans.subrange(0, i))
}

/// Every span runs forward.
pub open spec fn spans_forward(spans: Seq<Span>) -> bool {
    forall|i: int| 0 <= i < spans.len() ==> (#[trigger] spans[i]).start <= spans[i].end
}

/// Every span runs forward and ends within a buffer of `len` bytes.
pub open spec fn spans_within(spans: Seq<Span>, len: int) -> bool {
    forall|i: int| 0 <= i < spans.len() ==> (#[trigger] spans[i]).start <= spans[i].end <= len
}

/// The text that the spans select from the buffer, in order.
pub open spec fn spans_text(spans: Seq<Span>, buffer: Seq<u8>) -> Seq<u8>
    decreases spans.len(),
{
    if spans.len() == 0 {
        Seq::empty()
    } else {
        spans_text(spans.drop_last(), buffer) + buffer.subrange(spans.last().start as int, spans.last().end as int)
    }
}

/// The spans that cover a document's text, and the log of edits made to them.
pub struct SpanTable {
    spans: Vec<Span>,
    commands: Vec<Operation>,
}

impl View for SpanTable {
    type V = Seq<Span>;

    closed spec fn view(&self) -> Seq<Span> {
        self.spans@
    }
}

impl Default for SpanTable {
    fn default() -> (r: SpanTable)
        ensures
            r@ == Seq::<Span>::empty(),
            r.history() == Seq::<Operation>::empty(),
    {
        SpanTable { spans: Vec::new(), commands: Vec::new() }
    }
}

proof fn lemma_size_before_step(spans: Seq<Span>, i: int)
    requires
        0 <= i < spans.len(),
    ensures
        size_before(spans, i + 1) == size_before(spans, i) + span_size(spans[i]),
{
    assert(spans.subrange(0, i + 1).drop_last() =~= spans.subrange(0, i));
}

proof fn lemma_size_before_monotone(spans: Seq<Span>, i: int, j: int)
    requires
        spans_forward(spans),
        0 <= i <= j <= spans.len(),
    ensures
        size_before(spans, i) <= size_before(spans, j),
    decreases j - i,
{
    if i < j {
        lemma_size_before_monotone(spans, i, j - 1);
        lemma_size_before_step(spans, j - 1);
    }
}

impl SpanTable {
    /// The edits made so far, oldest first.
    pub closed spec fn history(&self) -> Seq<Operation> {
        self.commands@
    }

    /// The number of edits made so far.
    pub fn command_idx(&self) -> (r: usize)
        ensures
            r == self.history().len(),
    {
        self.commands.len()
    }

    /// The number of spans.
    pub fn span_len(&self) -> (r: usize)
        ensures
            r == self@.len(),
    {
        self.spans.len()
    }

    /// The span that holds the `offset`-th byte of the text and the offset
    /// into it; an offset at the end of a span stays in that span, and
    /// offset zero is the start of the first span.
    pub fn byte_offset(&self, offset: usize) -> (r: SpanPos)
        requires
            spans_forward(self@),
            offset <= total_size(self@),
        ensures
            offset == 0 ==> r.span_index == 0 && r.byte_offset == 0,
            offset > 0 ==> {
                &&& r.span_index < self@.len()
                &&& size_before(self@, r.span_index as int) < offset <= size_before(self@, r.span_index + 1)
                &&& r.byte_offset == offset - size_before(self@, r.span_index as int)
            },
    {
        if offset == 0 {
            return SpanPos { span_index: 0, byte_offset: 0 };
        }
        let n = self.spans.len();
        let mut travelled: usize = 0;
        let mut span_index: usize = 0;
        proof {
            assert(self@.subrange(0, n as int) =~= self@);
        }
        while span_index < n
            invariant
                n == self@.len(),
                spans_forward(self@),
                0 < offset <= total_size(self@),
                offset <= size_before(self@, n as int),
                span_index <= n,
                travelled == size_before(self@, span_index as int),
                travelled < offset,
            decreases n - span_index,
        {
            let span = self.spans[span_index];
            let len = span.len();
            proof {
                lemma_size_before_step(self@, span_index as int);
            }
            if len >= offset - travelled {
                return SpanPos { span_index, byte_offset: offset - travelled };
            }
            travelled = travelled + len;
            span_index = span_index + 1;
        }
        proof {
            assert(false);
        }
        SpanPos { span_index: 0, byte_offset: 0 }
    }

    /// Inserts `span` so that it stands at `index`.
    pub fn insert_span(&mut self, span: Span, index: usize)
        requires
            index <= old(self)@.len(),
        ensures
            final(self)@ == old(self)@.insert(index as int, span),
            final(self).history() == old(self).history().push(Operation::InsertSpan { span, index }),
    {
        self.spans.insert(index, span);
        self.commands.push(Operation::InsertSpan { span, index });
    }

    /// Removes the span at `index`.
    pub fn remove_span(&mut self, index: usize)
        requires
            index < old(self)@.len(),
        ensures
            final(self)@ == old(self)@.remove(index as int),
            final(self).history() == old(self).history().push(
                Operation::RemoveSpan { span: old(self)@[index as int], index },
            ),
    {
        let span = self.spans.remove(index);
        self.commands.push(Operation::RemoveSpan { span, index });
    }

    /// Splits the span at `index` into its first `byte_offset` bytes and the
    /// rest, which follows it.
    pub fn split_span(&mut self, index: usize, byte_offset: usize)
        requires
            index < old(self)@.len(),
            old(self)@[index as int].start + byte_offset <= usize::MAX,
        ensures
            final(self)@ == old(self)@.update(
                index as int,
                Span { start: old(self)@[index as int].start, end: (old(self)@[index as int].start + byte_offset) as usize },
            ).insert(
                index + 1,
                Span { start: (old(self)@[index as int].start + byte_offset) as usize, end: old(self)@[index as int].end },
            ),
            final(self).history() == old(self).history().push(
                Operation::SplitSpan { span: old(self)@[index as int], index, byte_offset },
            ),
    {
        let whole = self.spans[index];
        let n = self.spans.len();
        assert(index < n);
        let left_span = Span { start: whole.start, end: whole.start + byte_offset };
        let right_span = Span { start: whole.start + byte_offset, end: whole.end };
        self.spans.set(index, left_span);
        self.spans.insert(index + 1, right_span);
        self.commands.push(Operation::SplitSpan { span: whole, index, byte_offset });
    }

    /// The text: the bytes of the buffer that the spans select, in order.
    pub fn contents(&self, buffer: &Vec<u8>) -> (r: Vec<u8>)
        requires
            spans_within(self@, buffer@.len() as int),
        ensures
            r@ == spans_text(self@, buffer@),
    {
        let mut contents: Vec<u8> = Vec::new();
        let n = self.spans.len();
        let mut i: usize = 0;
        while i < n
            invariant
                n == self@.len(),
                i <= n,
                spans_within(self@, buffer@.len() as int),
                contents@ == spans_text(self@.subrange(0, i as int), buffer@),
            decreases n - i,
        {
            let span = self.spans[i];
            let piece = vstd::slice::slice_subrange(buffer.as_slice(), span.start, span.end);
            contents.extend_from_slice(piece);
            proof {
                assert(self@.subrange(0, i + 1).drop_last() =~= self@.subrange(0, i as int));
                assert(contents@ =~= spans_text(self@.subrange(0, i + 1), buffer@));
            }
            i = i + 1;
        }
        proof {
            assert(self@.subrange(0, n as int) =~= self@);
        }
        contents
    }

    /// The bytes of the buffer that each span selects, span by span.
    pub fn spans<'a>(&self, buffer: &'a Vec<u8>) -> (r: Vec<&'a [u8]>)
        requires
            spans_within(self@, buffer@.len() as int),
        ensures
            r@.len() == self@.len(),
            forall|i: int|
                0 <= i < r@.len() ==> (#[trigger] r@[i])@ == buffer@.subrange(self@[i].start as int, self@[i].end as int),
    {
        let mut spans: Vec<&'a [u8]> = Vec::new();
        let n = self.spans.len();
        let mut i: usize = 0;
        while i < n
            invariant
                n == self@.len(),
                i <= n,
                spans_within(self@, buffer@.len() as int),
                spans@.len() == i,
                forall|j: int|
                    0 <= j < i ==> (#[trigger] spans@[j])@ == buffer@.subrange(self@[j].start as int, self@[j].end as int),
            decreases n - i,
        {
            let span = self.spans[i];
            spans.push(vstd::slice::slice_subrange(buffer.as_slice(), span.start, span.end));
            i = i + 1;
        }
        spans
    }
}

} // verus!
