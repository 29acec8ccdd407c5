use malde::parsers::source_map::{SourceMap, Span};

#[test]
fn test_lines() {
    let source_map = SourceMap::from_content("teste1\n2\n333 ttt");
    assert_eq!(source_map.get_line(1), "teste1");
    assert_eq!(source_map.get_line(2), "2");
    assert_eq!(source_map.get_line(3), "333 ttt");

    assert_eq!(
        source_map.highlight_in_line(&Span {
            start: 7,
            end: 8,
            line: 2,
            col: 1
        }),
        "2\n~"
    );
    assert_eq!(
        source_map.highlight_in_line(&Span {
            start: 8,
            end: 9,
            line: 2,
            col: 1
        }),
        "2\n ~"
    );
    assert_eq!(
        source_map.highlight_in_line(&Span {
            start: 13,
            end: 16,
            line: 3,
            col: 5
        }),
        "333 ttt\n    ~~~"
    );
}

#[test]
fn source_map_lines_out_of_range() {
    let source_map = SourceMap::from_content("a\nb");
    assert_eq!(source_map.get_line(0), "");
    assert_eq!(source_map.get_line(3), "");
    assert_eq!(
        source_map.highlight_in_line(&Span {
            start: 0,
            end: 1,
            line: 2,
            col: 1
        }),
        ""
    );
}

#[test]
fn source_map_spans_and_end() {
    let source_map = SourceMap::from_content("ab\ncd\n");
    let span = Span {
        start: 3,
        end: 5,
        line: 2,
        col: 1,
    };
    assert_eq!(source_map.get_span(&span), "cd");
    let past = Span {
        start: 4,
        end: 100,
        line: 2,
        col: 2,
    };
    assert_eq!(source_map.get_span(&past), "d\n");
    let end = source_map.end();
    assert_eq!((end.start, end.end, end.line, end.col), (6, 6, 2, 2));
}

#[test]
fn source_reader_counts_lines_and_columns() {
    let source_map = SourceMap::from_content("aé\nb");
    let mut reader = source_map.reader();
    assert_eq!(reader.next(), Some((1, 'a')));
    assert_eq!(reader.next(), Some((2, 'é')));
    assert_eq!((reader.offset(), reader.line(), reader.col()), (3, 1, 4));
    assert_eq!(reader.peek(), Some((1, '\n')));
    assert_eq!(reader.next(), Some((1, '\n')));
    assert_eq!((reader.offset(), reader.line(), reader.col()), (4, 2, 1));
    assert_eq!(reader.next(), Some((1, 'b')));
    assert_eq!(reader.next(), None);
}
