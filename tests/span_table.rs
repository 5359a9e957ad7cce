use editor::span_table::{Span, SpanTable};

#[derive(Default)]
struct SpanTableBuffer {
    buffer: Vec<u8>,
    st: SpanTable,
}

impl SpanTableBuffer {
    fn span(&mut self, add: &str) -> Span {
        let span = Span { start: self.buffer.len(), end: self.buffer.len() + add.len() };
        self.buffer.extend(add.as_bytes());
        span
    }

    fn assert_span_table_equals(&self, expected: &str) {
        assert_eq!(expected, std::str::from_utf8(&self.st.contents(&self.buffer)).unwrap());
    }

    fn assert_spans_equal(&self, expected: &[&str]) {
        let spans = self.st.spans(&self.buffer);
        let spans: Vec<&str> = spans.into_iter().map(|x| std::str::from_utf8(x).unwrap()).collect();
        assert_eq!(spans, expected);
    }
}

#[test]
fn mod_test_insert() {
    let mut stb = SpanTableBuffer::default();

    let span = stb.span("hello");
    stb.st.insert_span(span, 0);
    stb.assert_span_table_equals("hello");

    let span = stb.span("world");
    stb.st.insert_span(span, 1);
    stb.assert_span_table_equals("helloworld");

    let span = stb.span("abc");
    stb.st.insert_span(span, 1);
    stb.assert_span_table_equals("helloabcworld");

    let span = stb.span("123");
    stb.st.insert_span(span, 0);
    stb.assert_span_table_equals("123helloabcworld");
}

#[test]
fn mod_test_remove() {
    let mut stb = SpanTableBuffer::default();

    let span = stb.span("hello");
    stb.st.insert_span(span, 0);
    let span = stb.span("world");
    stb.st.insert_span(span, 1);
    let span = stb.span("abc");
    stb.st.insert_span(span, 1);
    let span = stb.span("123");
    stb.st.insert_span(span, 0);

    stb.assert_span_table_equals("123helloabcworld");

    stb.st.remove_span(1);
    stb.assert_span_table_equals("123abcworld");

    stb.st.remove_span(0);
    stb.assert_span_table_equals("abcworld");

    stb.st.remove_span(1);
    stb.assert_span_table_equals("abc");

    stb.st.remove_span(0);
    stb.assert_span_table_equals("");
}

#[test]
fn mod_test_split() {
    let mut stb = SpanTableBuffer::default();

    let span = stb.span("123helloabcworld");
    stb.st.insert_span(span, 0);

    stb.st.split_span(0, 3);
    stb.assert_spans_equal(&["123", "helloabcworld"]);

    stb.st.split_span(1, 5);
    stb.assert_spans_equal(&["123", "hello", "abcworld"]);

    stb.st.split_span(2, 3);
    stb.assert_spans_equal(&["123", "hello", "abc", "world"]);
}

fn table_of(parts: &[&str]) -> SpanTableBuffer {
    let mut stb = SpanTableBuffer::default();
    for (i, part) in parts.iter().enumerate() {
        let span = stb.span(part);
        stb.st.insert_span(span, i);
    }
    stb
}

#[test]
fn byte_offset_zero_is_start_of_first_span() {
    let stb = table_of(&["abc", "de"]);
    let pos = stb.st.byte_offset(0);
    assert_eq!((pos.span_index, pos.byte_offset), (0, 0));
    let empty = SpanTable::default();
    let pos = empty.byte_offset(0);
    assert_eq!((pos.span_index, pos.byte_offset), (0, 0));
}

#[test]
fn byte_offset_at_span_end_stays_in_span() {
    let stb = table_of(&["abc", "de", "fghi"]);
    let pos = stb.st.byte_offset(3);
    assert_eq!((pos.span_index, pos.byte_offset), (0, 3));
    let pos = stb.st.byte_offset(4);
    assert_eq!((pos.span_index, pos.byte_offset), (1, 1));
    let pos = stb.st.byte_offset(5);
    assert_eq!((pos.span_index, pos.byte_offset), (1, 2));
    let pos = stb.st.byte_offset(9);
    assert_eq!((pos.span_index, pos.byte_offset), (2, 4));
}

#[test]
fn byte_offset_skips_empty_spans() {
    let stb = table_of(&["ab", "", "cd"]);
    let pos = stb.st.byte_offset(3);
    assert_eq!((pos.span_index, pos.byte_offset), (2, 1));
}

#[test]
fn span_len_and_command_idx_count() {
    let mut stb = table_of(&["abc", "def"]);
    assert_eq!(stb.st.span_len(), 2);
    assert_eq!(stb.st.command_idx(), 2);
    stb.st.split_span(1, 1);
    assert_eq!(stb.st.span_len(), 3);
    assert_eq!(stb.st.command_idx(), 3);
    stb.st.remove_span(0);
    assert_eq!(stb.st.span_len(), 2);
    assert_eq!(stb.st.command_idx(), 4);
    stb.assert_spans_equal(&["d", "ef"]);
}

#[test]
fn span_len_of_span() {
    let span = Span { start: 4, end: 9 };
    assert_eq!(span.len(), 5);
    assert_eq!(Span { start: 7, end: 7 }.len(), 0);
}
