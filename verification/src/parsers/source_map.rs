use crate::parsers::text::{byte_len, char_width, len_utf8, lemma_byte_len_prefix, lemma_byte_len_push, push_char, str_chars, string_from_chars};
use vstd::prelude::*;

verus! {

/// The line number (from 1) at the end of `s`.
pub open spec fn line_of(s: Seq<char>) -> nat
    decreases s.len(),
{
    if s.len() == 0 {
        1
    } else if s.last() == '\n' {
        line_of(s.drop_last()) + 1
    } else {
        line_of(s.drop_last())
    }
}

/// The column (from 1, in bytes) at the end of `s`.
pub open spec fn col_of(s: Seq<char>) -> nat
    decreases s.len(),
{
    if s.len() == 0 {
        1
    } else if s.last() == '\n' {
        1
    } else {
        col_of(s.drop_last()) + char_width(s.last())
    }
}

/// The text after the last line feed of `s`.
pub open spec fn last_segment(s: Seq<char>) -> Seq<char>
    decreases s.len(),
{
    if s.len() == 0 {
        Seq::empty()
    } else if s.last() == '\n' {
        Seq::empty()
    } else {
        last_segment(s.drop_last()).push(s.last())
    }
}

/// The number of line feeds in `s`.
pub open spec fn newline_count(s: Seq<char>) -> nat
    decreases s.len(),
{
    if s.len() == 0 {
        0
    } else if s.last() == '\n' {
        newline_count(s.drop_last()) + 1
    } else {
        newline_count(s.drop_last())
    }
}

/// The number of lines of `s`, as `str::lines` counts them: a final line feed
/// ends the last line and starts none.
pub open spec fn lines_count(s: Seq<char>) -> nat {
    newline_count(s) + if s.len() > 0 && s.last() != '\n' {
        1nat
    } else {
        0nat
    }
}

/// The last line of `s` as `str::lines` gives it: without its line feed, and
/// without a carriage return that precedes that line feed.
pub open spec fn last_line(s: Seq<char>) -> Seq<char> {
    if s.len() > 0 && s.last() == '\n' {
        let seg = last_segment(s.drop_last());
        if seg.len() > 0 && seg.last() == '\r' {
            seg.drop_last()
        } else {
            seg
        }
    } else {
        last_segment(s)
    }
}

/// The byte offsets at which the lines of `s` start.
pub open spec fn line_starts(s: Seq<char>) -> Seq<int>
    decreases s.len(),
{
    if s.len() == 0 {
        seq![0int]
    } else if s.last() == '\n' {
        line_starts(s.drop_last()).push(byte_len(s) as int)
    } else {
        line_starts(s.drop_last())
    }
}

/// The position of the character that starts at byte offset `b` of `s` (the
/// length of `s` for its end), if a character starts there.
pub open spec fn char_pos_of(s: Seq<char>, b: int) -> Option<int> {
    if exists|i: int| 0 <= i <= s.len() && byte_len(s.take(i)) == b {
        Some(choose|i: int| 0 <= i <= s.len() && byte_len(s.take(i)) == b)
    } else {
        None
    }
}

/// The text between byte offsets `start` and `end` of `s` (`end` cut at the end
/// of `s`), or nothing when they are not character boundaries in order.
pub open spec fn span_text(s: Seq<char>, start: int, end: int) -> Seq<char> {
    let e = if end < byte_len(s) {
        end
    } else {
        byte_len(s) as int
    };
    match (char_pos_of(s, start), char_pos_of(s, e)) {
        (Some(i), Some(j)) => if i <= j {
            s.subrange(i, j)
        } else {
            Seq::empty()
        },
        _ => Seq::empty(),
    }
}

/// The empty span at the end of `s` (see `SourceMap::end`).
pub open spec fn end_span(s: Seq<char>) -> Span {
    Span {
        start: byte_len(s) as usize,
        end: byte_len(s) as usize,
        line: lines_count(s) as usize,
        col: byte_len(last_line(s)) as usize,
    }
}

/// A character starts at byte offset `byte_len(s.take(i))`, at no other.
pub proof fn lemma_char_pos_of(s: Seq<char>, i: int)
    requires
        0 <= i <= s.len(),
    ensures
        char_pos_of(s, byte_len(s.take(i)) as int) == Some(i),
{
    let b = byte_len(s.take(i)) as int;
    assert(0 <= i <= s.len() && byte_len(s.take(i)) == b);
    let k = choose|k: int| 0 <= k <= s.len() && byte_len(s.take(k)) == b;
    if k < i {
        lemma_byte_len_prefix(s, k, i);
    } else if i < k {
        lemma_byte_len_prefix(s, i, k);
    }
}

/// A region of source text: byte offsets `start..end`, and the line and column
/// (from 1, the column in bytes) where it starts.
#[derive(Debug, Clone, Copy, PartialEq, Eq, Structural)]
pub struct Span {
    pub start: usize,
    pub end: usize,
    pub line: usize,
    pub col: usize,
}

impl Default for Span {
    fn default() -> (s: Span)
        ensures
            s == (Span { start: 0, end: 0, line: 0, col: 0 }),
    {
        Span { start: 0, end: 0, line: 0, col: 0 }
    }
}

/// Something that covers a region of source text.
pub trait HasSpan {
    spec fn spec_span(&self) -> Span;

    fn span(&self) -> (r: &Span)
        ensures
            *r == self.spec_span(),
    ;
}

/// A source text with its name and the offsets of its lines.
#[derive(Debug, Clone)]
pub struct SourceMap {
    pub filepath: String,
    pub content: String,
    pub chars: Vec<char>,
    pub byte_length: usize,
    pub line_indices: Vec<usize>,
}

impl SourceMap {
    /// The characters of the text.
    pub open spec fn text(&self) -> Seq<char> {
        self.chars@
    }

    /// The content is held as characters, its length in bytes fits a `usize`,
    /// and the line offsets are those of the content.
    pub open spec fn wf(&self) -> bool {
        &&& self.chars@ == self.content@
        &&& self.byte_length == byte_len(self.chars@)
        &&& byte_len(self.chars@) < usize::MAX
        &&& self.line_indices@.len() == line_starts(self.chars@).len()
        &&& forall|k: int|
            0 <= k < self.line_indices@.len() ==> self.line_indices@[k] as int == #[trigger] line_starts(
                self.chars@,
            )[k]
    }

    /// The byte offsets at which the lines start.
    pub open spec fn line_offsets(&self) -> Seq<usize> {
        self.line_indices@
    }

    /// A source map of `content`, with no file name.
    pub fn from_content(content: &str) -> (m: SourceMap)
        requires
            byte_len(content@) < usize::MAX,
        ensures
            m.wf(),
            m.text() == content@,
            m.content@ == content@,
            m.filepath@ == Seq::<char>::empty(),
    {
        let chars = str_chars(content);
        let (line_indices, byte_length) = get_line_indices(&chars);
        SourceMap {
            filepath: String::new(),
            content: string_from_chars(&chars),
            chars,
            byte_length,
            line_indices,
        }
    }

    /// A source map of `content` read from the file `filepath`.
    pub fn from_parts(filepath: String, content: &str) -> (m: SourceMap)
        requires
            byte_len(content@) < usize::MAX,
        ensures
            m.wf(),
            m.text() == content@,
            m.content@ == content@,
            m.filepath == filepath,
    {
        let chars = str_chars(content);
        let (line_indices, byte_length) = get_line_indices(&chars);
        SourceMap { filepath, content: string_from_chars(&chars), chars, byte_length, line_indices }
    }

    /// The length of the text in bytes.
    pub fn byte_length(&self) -> (n: usize)
        requires
            self.wf(),
        ensures
            n == byte_len(self.text()),
    {
        self.byte_length
    }

    /// The characters of the text.
    pub fn chars(&self) -> (c: &[char])
        requires
            self.wf(),
        ensures
            c@ == self.text(),
    {
        self.chars.as_slice()
    }

    fn char_pos(&self, b: usize) -> (r: Option<usize>)
        requires
            self.wf(),
        ensures
            r matches Some(i) ==> char_pos_of(self.text(), b as int) == Some(i as int),
            r is None ==> char_pos_of(self.text(), b as int) is None,
    {
        let mut i: usize = 0;
        let mut off: usize = 0;
        while i < self.chars.len()
            invariant
                self.wf(),
                i <= self.chars@.len(),
                off == byte_len(self.chars@.take(i as int)),
                forall|k: int| 0 <= k < i ==> byte_len(#[trigger] self.chars@.take(k)) != b,
            decreases self.chars@.len() - i,
        {
            if off == b {
                proof {
                    lemma_char_pos_of(self.chars@, i as int);
                }
                return Some(i);
            }
            proof {
                lemma_byte_len_push(self.chars@.take(i as int), self.chars@[i as int]);
                assert(self.chars@.take(i + 1) =~= self.chars@.take(i as int).push(
                    self.chars@[i as int],
                ));
                lemma_byte_len_prefix(self.chars@, i + 1, self.chars@.len() as int);
            }
            off = off + len_utf8(self.chars[i]);
            i = i + 1;
        }
        if off == b {
            proof {
                lemma_char_pos_of(self.chars@, i as int);
            }
            return Some(i);
        }
        proof {
            assert forall|k: int| 0 <= k <= self.chars@.len() implies byte_len(
                #[trigger] self.chars@.take(k),
            ) != b by {
                if k == self.chars@.len() {
                    assert(self.chars@.take(k) =~= self.chars@.take(i as int));
                }
            }
        }
        None
    }

    /// The text of `span`; empty when its offsets are not character boundaries in
    /// order (the end is cut at the end of the text).
    pub fn get_span(&self, span: &Span) -> (r: String)
        requires
            self.wf(),
        ensures
            r@ == span_text(self.text(), span.start as int, span.end as int),
    {
        let e = if span.end < self.byte_length {
            span.end
        } else {
            self.byte_length
        };
        match (self.char_pos(span.start), self.char_pos(e)) {
            (Some(i), Some(j)) => {
                if i <= j {
                    self.substring(i, j)
                } else {
                    String::new()
                }
            },
            _ => String::new(),
        }
    }

    fn substring(&self, i: usize, j: usize) -> (r: String)
        requires
            self.wf(),
            i <= j <= self.text().len(),
        ensures
            r@ == self.text().subrange(i as int, j as int),
    {
        let mut s = String::new();
        let mut k = i;
        while k < j
            invariant
                self.wf(),
                i <= k <= j <= self.chars@.len(),
                s@ == self.chars@.subrange(i as int, k as int),
            decreases j - k,
        {
            push_char(&mut s, self.chars[k]);
            k = k + 1;
            assert(s@ =~= self.chars@.subrange(i as int, k as int));
        }
        s
    }

    /// The text covered by `token`.
    pub fn get<T: HasSpan>(&self, token: &T) -> (r: String)
        requires
            self.wf(),
        ensures
            r@ == span_text(self.text(), token.spec_span().start as int, token.spec_span().end as int),
    {
        self.get_span(token.span())
    }

    /// The byte offsets where line `lineno` (from 1) starts and ends (without its
    /// line feed).
    pub open spec fn line_bounds(&self, lineno: int) -> Option<(int, int)> {
        if lineno < 1 || lineno > self.line_offsets().len() {
            None
        } else {
            let start = self.line_offsets()[lineno - 1] as int;
            let end = if lineno < self.line_offsets().len() {
                self.line_offsets()[lineno] - 1
            } else {
                byte_len(self.text()) as int
            };
            Some((start, end))
        }
    }

    fn get_line_bounds(&self, lineno: usize) -> (r: Option<(usize, usize)>)
        requires
            self.wf(),
        ensures
            r matches Some((a, b)) ==> self.line_bounds(lineno as int) == Some((a as int, b as int)),
            r is None ==> self.line_bounds(lineno as int) is None,
    {
        if lineno < 1 || lineno > self.line_indices.len() {
            return None;
        }
        let start = self.line_indices[lineno - 1];
        let end = if lineno < self.line_indices.len() {
            proof {
                lemma_line_starts_positive(self.chars@, lineno as int);
            }
            self.line_indices[lineno] - 1
        } else {
            self.byte_length
        };
        Some((start, end))
    }

    /// The text of line `lineno` (from 1), without its line feed; empty for a line
    /// that does not exist.
    pub fn get_line(&self, lineno: usize) -> (r: String)
        requires
            self.wf(),
        ensures
            r@ == (match self.line_bounds(lineno as int) {
                Some((a, b)) => line_text(self.text(), a, b),
                None => Seq::empty(),
            }),
    {
        match self.get_line_bounds(lineno) {
            Some((start, end)) => {
                match (self.char_pos(start), self.char_pos(end)) {
                    (Some(i), Some(j)) => {
                        if i <= j {
                            self.substring(i, j)
                        } else {
                            String::new()
                        }
                    },
                    _ => String::new(),
                }
            },
            None => String::new(),
        }
    }

    /// The empty span at the end of the text, on its last line and after the last
    /// character of that line (as `str::lines` counts lines).
    pub fn end(&self) -> (s: Span)
        requires
            self.wf(),
        ensures
            s.start == byte_len(self.text()),
            s.end == byte_len(self.text()),
            s.line == lines_count(self.text()),
            s.col == byte_len(last_line(self.text())),
    {
        let mut i: usize = 0;
        let mut count: usize = 0;
        let mut cur_bytes: usize = 0;
        let mut cur_cr = false;
        let mut line_bytes: usize = 0;
        while i < self.chars.len()
            invariant
                self.wf(),
                i <= self.chars@.len(),
                count == newline_count(self.chars@.take(i as int)),
                count <= i,
                cur_bytes == byte_len(last_segment(self.chars@.take(i as int))),
                cur_cr == (last_segment(self.chars@.take(i as int)).len() > 0 && last_segment(
                    self.chars@.take(i as int),
                ).last() == '\r'),
                line_bytes == byte_len(last_line(self.chars@.take(i as int))),
                cur_bytes <= byte_len(self.chars@.take(i as int)),
            decreases self.chars@.len() - i,
        {
            let c = self.chars[i];
            let ghost pre = self.chars@.take(i as int);
            proof {
                assert(self.chars@.take(i + 1) =~= pre.push(c));
                assert(self.chars@.take(i + 1).drop_last() =~= pre);
                lemma_byte_len_push(pre, c);
                lemma_byte_len_push(last_segment(pre), c);
                lemma_byte_len_prefix(self.chars@, i + 1, self.chars@.len() as int);
                if cur_cr {
                    lemma_byte_len_push(last_segment(pre).drop_last(), '\r');
                    assert(last_segment(pre).drop_last().push('\r') =~= last_segment(pre));
                }
            }
            if c == '\n' {
                count = count + 1;
                line_bytes = if cur_cr {
                    cur_bytes - 1
                } else {
                    cur_bytes
                };
                cur_bytes = 0;
                cur_cr = false;
            } else {
                cur_bytes = cur_bytes + len_utf8(c);
                cur_cr = c == '\r';
                line_bytes = cur_bytes;
            }
            i = i + 1;
        }
        proof {
            assert(self.chars@.take(i as int) =~= self.chars@);
            lemma_byte_len_prefix(self.chars@, 0, self.chars@.len() as int);
            assert(self.chars@.take(0) =~= Seq::<char>::empty());
        }
        let lines = if self.chars.len() > 0 && self.chars[self.chars.len() - 1] != '\n' {
            count + 1
        } else {
            count
        };
        Span { start: self.byte_length, end: self.byte_length, line: lines, col: line_bytes }
    }

    /// The line of `span` followed by a line feed, spaces up to the start of the
    /// span and one `~` for each byte of the span; empty when the span does not
    /// lie on that line.
    pub open spec fn highlighted(&self, span: Span) -> Seq<char> {
        match self.line_bounds(span.line as int) {
            Some((a, b)) => if span.start < a || span.end > b + 1 {
                Seq::empty()
            } else {
                line_text(self.text(), a, b).push('\n') + Seq::new((span.start - a) as nat, |k: int| ' ')
                    + Seq::new((span.end - span.start) as nat, |k: int| '~')
            },
            None => Seq::empty(),
        }
    }

    /// The line of `span` followed by a line feed, spaces up to the start of the
    /// span and one `~` for each byte of the span; empty when the span does not lie
    /// on that line.
    pub fn highlight_in_line(&self, span: &Span) -> (r: String)
        requires
            self.wf(),
            span.start <= span.end,
        ensures
            r@ == self.highlighted(*span),
    {
        let Some((line_start, line_end)) = self.get_line_bounds(span.line) else {
            return String::new();
        };
        if span.start < line_start || span.end > line_end + 1 {
            return String::new();
        }
        let mut line = self.get_line(span.line);
        push_char(&mut line, '\n');
        let ghost head = line@;
        let mut k: usize = line_start;
        while k < span.start
            invariant
                line_start <= k <= span.start,
                line@ == head + Seq::new((k - line_start) as nat, |x: int| ' '),
            decreases span.start - k,
        {
            push_char(&mut line, ' ');
            k = k + 1;
            assert(line@ =~= head + Seq::new((k - line_start) as nat, |x: int| ' '));
        }
        let ghost head2 = line@;
        let mut k: usize = span.start;
        while k < span.end
            invariant
                span.start <= k <= span.end,
                line@ == head2 + Seq::new((k - span.start) as nat, |x: int| '~'),
            decreases span.end - k,
        {
            push_char(&mut line, '~');
            k = k + 1;
            assert(line@ =~= head2 + Seq::new((k - span.start) as nat, |x: int| '~'));
        }
        line
    }

    /// A reader over the characters of the text.
    pub fn reader(&self) -> (r: SourceReader<'_>)
        requires
            self.wf(),
        ensures
            r.wf(),
            r.source() == self.text(),
            r.pos() == 0,
    {
        SourceReader::new(self.chars.as_slice())
    }
}

/// The text between the line offsets `a` and `b` of `s`.
pub open spec fn line_text(s: Seq<char>, a: int, b: int) -> Seq<char> {
    match (char_pos_of(s, a), char_pos_of(s, b)) {
        (Some(i), Some(j)) => if i <= j {
            s.subrange(i, j)
        } else {
            Seq::empty()
        },
        _ => Seq::empty(),
    }
}

/// Line offsets after the first are at least 1 and at most the length.
pub proof fn lemma_line_starts_positive(s: Seq<char>, k: int)
    requires
        1 <= k < line_starts(s).len(),
    ensures
        1 <= line_starts(s)[k] <= byte_len(s),
    decreases s.len(),
{
    if s.len() > 0 {
        lemma_line_starts_len(s.drop_last());
        let p = line_starts(s.drop_last());
        if k < p.len() {
            lemma_line_starts_positive(s.drop_last(), k);
            lemma_byte_len_push(s.drop_last(), s.last());
            assert(s.drop_last().push(s.last()) =~= s);
        } else {
            lemma_byte_len_push(s.drop_last(), s.last());
            assert(s.drop_last().push(s.last()) =~= s);
        }
    }
}

/// There is at least one line offset.
pub proof fn lemma_line_starts_len(s: Seq<char>)
    ensures
        line_starts(s).len() >= 1,
        line_starts(s)[0] == 0,
    decreases s.len(),
{
    if s.len() > 0 {
        lemma_line_starts_len(s.drop_last());
    }
}

fn get_line_indices(chars: &Vec<char>) -> (r: (Vec<usize>, usize))
    requires
        byte_len(chars@) < usize::MAX,
    ensures
        r.1 == byte_len(chars@),
        r.0@.len() == line_starts(chars@).len(),
        forall|k: int| 0 <= k < r.0@.len() ==> r.0@[k] as int == #[trigger] line_starts(chars@)[k],
{
    let mut lines: Vec<usize> = Vec::new();
    lines.push(0);
    let mut off: usize = 0;
    let mut i: usize = 0;
    while i < chars.len()
        invariant
            i <= chars@.len(),
            byte_len(chars@) < usize::MAX,
            off == byte_len(chars@.take(i as int)),
            lines@.len() == line_starts(chars@.take(i as int)).len(),
            forall|k: int|
                0 <= k < lines@.len() ==> lines@[k] as int == #[trigger] line_starts(
                    chars@.take(i as int),
                )[k],
        decreases chars@.len() - i,
    {
        let c = chars[i];
        proof {
            assert(chars@.take(i + 1).drop_last() =~= chars@.take(i as int));
            lemma_byte_len_push(chars@.take(i as int), c);
            assert(chars@.take(i + 1) =~= chars@.take(i as int).push(c));
            lemma_byte_len_prefix(chars@, i + 1, chars@.len() as int);
        }
        off = off + len_utf8(c);
        if c == '\n' {
            lines.push(off);
        }
        i = i + 1;
    }
    proof {
        assert(chars@.take(i as int) =~= chars@);
    }
    (lines, off)
}

/// A cursor over source characters that keeps the byte offset, line and column
/// of its position.
#[derive(Clone, Copy)]
pub struct SourceReader<'a> {
    chars: &'a [char],
    pos: usize,
    offset: usize,
    line: usize,
    col: usize,
}

/// A reader has read a number of characters, within its text when it is well
/// formed.
pub broadcast proof fn lemma_reader_pos(r: SourceReader)
    ensures
        0 <= #[trigger] r.pos(),
        r.wf() ==> r.pos() <= r.source().len(),
{
}

impl<'a> SourceReader<'a> {
    /// The characters read over.
    pub closed spec fn source(&self) -> Seq<char> {
        self.chars@
    }

    /// How many characters have been read.
    pub closed spec fn pos(&self) -> int {
        self.pos as int
    }

    /// The position is within the text, and offset, line and column are those of
    /// the text read so far.
    pub closed spec fn wf(&self) -> bool {
        &&& self.pos <= self.chars@.len()
        &&& byte_len(self.chars@) < usize::MAX
        &&& self.offset == byte_len(self.chars@.take(self.pos as int))
        &&& self.line == line_of(self.chars@.take(self.pos as int))
        &&& self.col == col_of(self.chars@.take(self.pos as int))
    }

    /// A reader at the start of `content`.
    pub fn new(content: &'a [char]) -> (r: SourceReader<'a>)
        requires
            byte_len(content@) < usize::MAX,
        ensures
            r.wf(),
            r.source() == content@,
            r.pos() == 0,
    {
        assert(content@.take(0) =~= Seq::<char>::empty());
        SourceReader { chars: content, pos: 0, offset: 0, line: 1, col: 1 }
    }

    /// Reads the next character and returns it with its length in bytes.
    pub fn next(&mut self) -> (r: Option<(usize, char)>)
        requires
            old(self).wf(),
        ensures
            final(self).wf(),
            final(self).source() == old(self).source(),
            old(self).pos() < old(self).source().len() ==> {
                &&& r == Some((char_width(old(self).source()[old(self).pos()]) as usize, old(self).source()[old(self).pos()]))
                &&& final(self).pos() == old(self).pos() + 1
            },
            old(self).pos() >= old(self).source().len() ==> r is None && final(self).pos() == old(self).pos(),
    {
        if self.pos >= self.chars.len() {
            return None;
        }
        let c = self.chars[self.pos];
        let len = len_utf8(c);
        proof {
            let pre = self.chars@.take(self.pos as int);
            assert(self.chars@.take(self.pos + 1) =~= pre.push(c));
            assert(self.chars@.take(self.pos + 1).drop_last() =~= pre);
            lemma_byte_len_push(pre, c);
            lemma_byte_len_prefix(self.chars@, self.pos + 1, self.chars@.len() as int);
            lemma_line_col_bounds(self.chars@.take(self.pos + 1));
        }
        if c == '\n' {
            self.line = self.line + 1;
            self.col = 1;
        } else {
            self.col = self.col + len;
        }
        self.offset = self.offset + len;
        self.pos = self.pos + 1;
        Some((len, c))
    }

    /// The next character and its length in bytes, without reading it.
    pub fn peek(&self) -> (r: Option<(usize, char)>)
        requires
            self.wf(),
        ensures
            self.pos() < self.source().len() ==> r == Some((char_width(self.source()[self.pos()]) as usize, self.source()[self.pos()])),
            self.pos() >= self.source().len() ==> r is None,
    {
        if self.pos < self.chars.len() {
            let c = self.chars[self.pos];
            Some((len_utf8(c), c))
        } else {
            None
        }
    }

    /// The position, in characters.
    pub fn position(&self) -> (r: usize)
        requires
            self.wf(),
        ensures
            r == self.pos(),
    {
        self.pos
    }

    /// The byte offset of the position.
    pub fn offset(&self) -> (r: usize)
        requires
            self.wf(),
        ensures
            r == byte_len(self.source().take(self.pos())),
    {
        self.offset
    }

    /// The line (from 1) of the position.
    pub fn line(&self) -> (r: usize)
        requires
            self.wf(),
        ensures
            r == line_of(self.source().take(self.pos())),
    {
        self.line
    }

    /// The column (from 1, in bytes) of the position.
    pub fn col(&self) -> (r: usize)
        requires
            self.wf(),
        ensures
            r == col_of(self.source().take(self.pos())),
    {
        self.col
    }
}

/// Line and column never exceed one more than the byte length.
pub proof fn lemma_line_col_bounds(s: Seq<char>)
    ensures
        line_of(s) <= byte_len(s) + 1,
        col_of(s) <= byte_len(s) + 1,
    decreases s.len(),
{
    if s.len() > 0 {
        lemma_line_col_bounds(s.drop_last());
    }
}

} // verus!
