use crate::architecture::datapath::Register;
use crate::parsers::assembly::tokenizer::{lemma_off_next, lemma_position_bounds, off, span_between};
use crate::parsers::source_map::{
    HasSpan, SourceMap, SourceReader, Span, col_of, lemma_char_pos_of, lemma_reader_pos, line_of, span_text,
};
use crate::parsers::text::{
    byte_len, char_width, is_alphanumeric, is_alphanumeric_spec, is_whitespace, is_whitespace_spec,
    lemma_byte_len_prefix, lemma_byte_len_take_bound, str_chars,
};
use vstd::prelude::*;

verus! {

/// The kind of a token of microprogram source.
#[derive(Debug, Clone, Copy, PartialEq, Eq, Structural)]
pub enum TokenType {
    Identifier,
    Semicolon,
    Colon,
    Comma,
    LeftParen,
    RightParen,
    Shift(u8),
    AluFunc(u8),
    Register(Register),
    If,
    Then,
    Goto,
    Plus,
    Assign,
    Syscall,
    Wr,
    Rd,
    Condition(u8),
    Newline,
}

/// A token of microprogram source and the region it covers.
#[derive(Debug, Clone, Copy, PartialEq, Eq, Structural)]
pub struct Token {
    pub token_type: TokenType,
    pub span: Span,
}

impl HasSpan for Token {
    open spec fn spec_span(&self) -> Span {
        self.span
    }

    fn span(&self) -> (r: &Span) {
        &self.span
    }
}

/// A lexical error and where it was found.
#[derive(Clone, Copy, Debug, PartialEq, Eq, Structural)]
pub struct TokenizerError {
    pub span: Span,
    pub error_type: TokenizerErrorType,
}

/// The kinds of lexical error.
#[derive(Clone, Copy, Debug, PartialEq, Eq, Structural)]
pub enum TokenizerErrorType {
    UnexpectedCharacter,
    UnexpectedMinus,
}

/// What one call of the lexer gives: nothing at the end of the text, a token, or
/// an error.
pub type Lexed = Option<Result<Token, TokenizerError>>;

/// A character that may start or continue an identifier.
pub open spec fn is_identifier_body(c: char) -> bool {
    is_alphanumeric_spec(c) || c == '_' || c == '-'
}

/// The end of the run of identifier characters that starts at `p`.
pub open spec fn identifier_end(s: Seq<char>, p: int) -> int
    decreases s.len() - p,
{
    if 0 <= p < s.len() && is_identifier_body(s[p]) {
        identifier_end(s, p + 1)
    } else {
        p
    }
}

proof fn lemma_identifier_end_ge(s: Seq<char>, p: int)
    ensures
        identifier_end(s, p) >= p,
    decreases s.len() - p,
{
    if 0 <= p < s.len() && is_identifier_body(s[p]) {
        lemma_identifier_end_ge(s, p + 1);
    }
}

proof fn lemma_identifier_end_le(s: Seq<char>, p: int)
    requires
        0 <= p <= s.len(),
    ensures
        identifier_end(s, p) <= s.len(),
    decreases s.len() - p,
{
    if 0 <= p < s.len() && is_identifier_body(s[p]) {
        lemma_identifier_end_le(s, p + 1);
    }
}

/// A token of kind `t` from position `i` to `j`.
pub open spec fn tok(s: Seq<char>, t: TokenType, i: int, j: int) -> Lexed {
    Some(Ok(Token { token_type: t, span: span_between(s, i, j) }))
}

/// An error of kind `e` with span `sp`.
pub open spec fn lex_err(sp: Span, e: TokenizerErrorType) -> Lexed {
    Some(Err(TokenizerError { span: sp, error_type: e }))
}

/// Where reading stops after a `(-` that does not go on as `(-1)`: after the
/// characters that were read to find out.
pub open spec fn minus_fail_pos(s: Seq<char>, p: int) -> int {
    if p + 2 >= s.len() {
        p + 2
    } else if s[p + 2] != '1' {
        p + 3
    } else if p + 3 >= s.len() {
        p + 3
    } else {
        p + 4
    }
}

/// The microprogram lexer: the next token when reading `s` from `p` (inside a
/// comment when `comment` is set), and where reading stops. Comments run from
/// `#` to the end of the line; a backslash before a line feed joins two lines;
/// blanks are skipped; `(-1)` is the register of that name.
pub open spec fn lex_from(s: Seq<char>, p: int, comment: bool) -> (Lexed, int)
    decreases s.len() - p,
{
    if p < 0 || p >= s.len() {
        (None, p)
    } else {
        let c = s[p];
        if c == '#' {
            lex_from(s, p + 1, true)
        } else if c == '\\' {
            if p + 1 >= s.len() {
                if comment {
                    (None, p + 1)
                } else {
                    (lex_err(span_between(s, p, p + 1), TokenizerErrorType::UnexpectedCharacter), p + 1)
                }
            } else if s[p + 1] == '\n' {
                lex_from(s, p + 2, false)
            } else if !comment {
                (
                    lex_err(span_between(s, p + 1, p + 2), TokenizerErrorType::UnexpectedCharacter),
                    p + 2,
                )
            } else {
                lex_from(s, p + 2, true)
            }
        } else if c == '\n' {
            (tok(s, TokenType::Newline, p, p + 1), p + 1)
        } else if comment {
            lex_from(s, p + 1, true)
        } else if is_whitespace_spec(c) {
            lex_from(s, p + 1, false)
        } else if c == '(' {
            if p + 1 < s.len() && s[p + 1] == '-' {
                if p + 3 < s.len() && s[p + 2] == '1' && s[p + 3] == ')' {
                    (tok(s, TokenType::Register(Register::MinusOne), p, p + 4), p + 4)
                } else {
                    (
                        lex_err(
                            Span {
                                start: off(s, p + 1),
                                end: off(s, p + 2),
                                line: line_of(s.take(p)) as usize,
                                col: col_of(s.take(p)) as usize,
                            },
                            TokenizerErrorType::UnexpectedMinus,
                        ),
                        minus_fail_pos(s, p),
                    )
                }
            } else {
                (tok(s, TokenType::LeftParen, p, p + 1), p + 1)
            }
        } else if c == ')' {
            (tok(s, TokenType::RightParen, p, p + 1), p + 1)
        } else if c == '+' {
            (tok(s, TokenType::Plus, p, p + 1), p + 1)
        } else if is_identifier_body(c) {
            let q = identifier_end(s, p);
            (tok(s, TokenType::Identifier, p, q), q)
        } else if c == ';' {
            (tok(s, TokenType::Semicolon, p, p + 1), p + 1)
        } else if c == ':' {
            if p + 1 < s.len() && s[p + 1] == '=' {
                (tok(s, TokenType::Assign, p, p + 2), p + 2)
            } else {
                (tok(s, TokenType::Colon, p, p + 1), p + 1)
            }
        } else if c == ',' {
            (tok(s, TokenType::Comma, p, p + 1), p + 1)
        } else {
            (lex_err(span_between(s, p, p + 1), TokenizerErrorType::UnexpectedCharacter), p + 1)
        }
    }
}

/// The lexer never moves back, moves forward whenever it gives something, and
/// stays within the text.
pub broadcast proof fn lemma_lex_advances(s: Seq<char>, p: int, comment: bool)
    ensures
        #[trigger] lex_from(s, p, comment).1 >= p,
        lex_from(s, p, comment).0 is Some ==> lex_from(s, p, comment).1 > p,
        0 <= p <= s.len() ==> lex_from(s, p, comment).1 <= s.len(),
    decreases s.len() - p,
{
    if 0 <= p < s.len() {
        let c = s[p];
        if c == '#' {
            lemma_lex_advances(s, p + 1, true);
        } else if c == '\\' {
            if p + 1 < s.len() {
                lemma_lex_advances(s, p + 2, false);
                lemma_lex_advances(s, p + 2, true);
            }
        } else if c == '\n' {
        } else if comment {
            lemma_lex_advances(s, p + 1, true);
        } else if is_whitespace_spec(c) {
            lemma_lex_advances(s, p + 1, false);
        } else if c == '(' || c == ')' || c == '+' {
        } else if is_identifier_body(c) {
            lemma_identifier_end_ge(s, p + 1);
            lemma_identifier_end_le(s, p);
        }
    }
}

/// The next token from `p`, unmapped.
#[verifier::opaque]
pub open spec fn lexed(s: Seq<char>, p: int) -> Lexed {
    lex_from(s, p, false).0
}

/// The position after the next token from `p`.
#[verifier::opaque]
pub open spec fn after(s: Seq<char>, p: int) -> int {
    lex_from(s, p, false).1
}

/// Reading a token never moves back, moves forward whenever there is a token,
/// and stays within the text.
pub broadcast proof fn lemma_after_advances(s: Seq<char>, p: int)
    ensures
        #[trigger] after(s, p) >= p,
        lexed(s, p) is Some ==> after(s, p) > p,
        0 <= p <= s.len() ==> after(s, p) <= s.len(),
{
    reveal(lexed);
    reveal(after);
    lemma_lex_advances(s, p, false);
}

/// The token read from `p` covers the characters `i..q` of the text, where `q`
/// is where reading stops and `p <= i < q`.
proof fn lemma_token_covers(s: Seq<char>, p: int, comment: bool)
    ensures
        lex_from(s, p, comment).0 matches Some(Ok(t)) ==> exists|i: int|
            p <= i < lex_from(s, p, comment).1 && t.span == #[trigger] span_between(s, i, lex_from(s, p, comment).1),
    decreases s.len() - p,
{
    lemma_lex_advances(s, p, comment);
    if 0 <= p < s.len() {
        let c = s[p];
        let r = lex_from(s, p, comment);
        if c == '#' {
            lemma_token_covers(s, p + 1, true);
        } else if c == '\\' {
            if p + 1 < s.len() {
                lemma_token_covers(s, p + 2, false);
                lemma_token_covers(s, p + 2, true);
            }
        } else if c == '\n' {
            assert(r.0 matches Some(Ok(t)) ==> t.span == span_between(s, p, r.1));
        } else if comment {
            lemma_token_covers(s, p + 1, true);
        } else if is_whitespace_spec(c) {
            lemma_token_covers(s, p + 1, false);
        } else {
            match r.0 {
                Some(Ok(t)) => {
                    assert(t.span == span_between(s, p, r.1));
                },
                _ => {},
            }
        }
    }
}

/// The tokens of the microprogram lexer lie in the text in order and do not
/// overlap: the token read from `p` spans the bytes `start..end` with
/// `start < end`, within the text and not after the start of the token that
/// follows it; its line and column (both from 1, the column in bytes) are those
/// of its first character.
pub proof fn lemma_tokens_in_order(s: Seq<char>, p: int)
    requires
        0 <= p <= s.len(),
        byte_len(s) < usize::MAX,
    ensures
        lexed(s, p) matches Some(Ok(t1)) ==> {
            &&& exists|i: int|
                p <= i < s.len() && t1.span.start == byte_len(#[trigger] s.take(i)) && t1.span.line
                    == line_of(s.take(i)) && t1.span.col == col_of(s.take(i))
            &&& t1.span.start < t1.span.end <= byte_len(s)
            &&& (lexed(s, after(s, p)) matches Some(Ok(t2)) ==> t1.span.end <= t2.span.start)
        },
{
    reveal(lexed);
    reveal(after);
    lemma_token_covers(s, p, false);
    lemma_lex_advances(s, p, false);
    match lexed(s, p) {
        Some(Ok(t1)) => {
            let q = after(s, p);
            let i = choose|i: int| p <= i < q && t1.span == #[trigger] span_between(s, i, q);
            lemma_byte_len_prefix(s, i, q);
            lemma_byte_len_take_bound(s, i);
            crate::parsers::source_map::lemma_line_col_bounds(s.take(i));
            lemma_token_covers(s, q, false);
            lemma_lex_advances(s, q, false);
            match lexed(s, q) {
                Some(Ok(t2)) => {
                    let i2 = choose|i2: int| q <= i2 < after(s, q) && t2.span == #[trigger] span_between(
                        s,
                        i2,
                        after(s, q),
                    );
                    lemma_byte_len_prefix(s, q, i2);
                    lemma_byte_len_take_bound(s, i2);
                },
                _ => {},
            }
        },
        _ => {},
    }
}

/// The kind of the identifier `s`: a register, a keyword, or a plain identifier
/// (a label).
pub open spec fn identifier_kind(s: Seq<char>) -> TokenType {
    match Register::named(s) {
        Some(r) => TokenType::Register(r),
        None => if s == seq!['l', 's', 'h', 'i', 'f', 't'] {
            TokenType::Shift(1)
        } else if s == seq!['r', 's', 'h', 'i', 'f', 't'] {
            TokenType::Shift(2)
        } else if s == seq!['b', 'a', 'n', 'd'] {
            TokenType::AluFunc(1)
        } else if s == seq!['i', 'n', 'v'] {
            TokenType::AluFunc(3)
        } else if s == seq!['i', 'f'] {
            TokenType::If
        } else if s == seq!['t', 'h', 'e', 'n'] {
            TokenType::Then
        } else if s == seq!['g', 'o', 't', 'o'] {
            TokenType::Goto
        } else if s == seq!['s', 'y', 's', 'c', 'a', 'l', 'l'] {
            TokenType::Syscall
        } else if s == seq!['w', 'r'] {
            TokenType::Wr
        } else if s == seq!['r', 'd'] {
            TokenType::Rd
        } else if s == seq!['n'] {
            TokenType::Condition(1)
        } else if s == seq!['z'] {
            TokenType::Condition(2)
        } else {
            TokenType::Identifier
        },
    }
}

/// The token with an identifier replaced by the kind its text gives.
pub open spec fn mapped_token(t: Token, text: Seq<char>) -> Token {
    if t.token_type == TokenType::Identifier {
        Token {
            token_type: identifier_kind(span_text(text, t.span.start as int, t.span.end as int)),
            span: t.span,
        }
    } else {
        t
    }
}

fn keyword_of(s: &[char]) -> (r: TokenType)
    requires
        Register::named(s@) is None,
    ensures
        r == identifier_kind(s@),
{
    let w: &[char] = &['l', 's', 'h', 'i', 'f', 't'];
    assert(w@ =~= seq!['l', 's', 'h', 'i', 'f', 't']);
    if crate::architecture::datapath::chars_equal(s, w) {
        return TokenType::Shift(1);
    }
    let w: &[char] = &['r', 's', 'h', 'i', 'f', 't'];
    assert(w@ =~= seq!['r', 's', 'h', 'i', 'f', 't']);
    if crate::architecture::datapath::chars_equal(s, w) {
        return TokenType::Shift(2);
    }
    let w: &[char] = &['b', 'a', 'n', 'd'];
    assert(w@ =~= seq!['b', 'a', 'n', 'd']);
    if crate::architecture::datapath::chars_equal(s, w) {
        return TokenType::AluFunc(1);
    }
    let w: &[char] = &['i', 'n', 'v'];
    assert(w@ =~= seq!['i', 'n', 'v']);
    if crate::architecture::datapath::chars_equal(s, w) {
        return TokenType::AluFunc(3);
    }
    let w: &[char] = &['i', 'f'];
    assert(w@ =~= seq!['i', 'f']);
    if crate::architecture::datapath::chars_equal(s, w) {
        return TokenType::If;
    }
    let w: &[char] = &['t', 'h', 'e', 'n'];
    assert(w@ =~= seq!['t', 'h', 'e', 'n']);
    if crate::architecture::datapath::chars_equal(s, w) {
        return TokenType::Then;
    }
    let w: &[char] = &['g', 'o', 't', 'o'];
    assert(w@ =~= seq!['g', 'o', 't', 'o']);
    if crate::architecture::datapath::chars_equal(s, w) {
        return TokenType::Goto;
    }
    let w: &[char] = &['s', 'y', 's', 'c', 'a', 'l', 'l'];
    assert(w@ =~= seq!['s', 'y', 's', 'c', 'a', 'l', 'l']);
    if crate::architecture::datapath::chars_equal(s, w) {
        return TokenType::Syscall;
    }
    let w: &[char] = &['w', 'r'];
    assert(w@ =~= seq!['w', 'r']);
    if crate::architecture::datapath::chars_equal(s, w) {
        return TokenType::Wr;
    }
    let w: &[char] = &['r', 'd'];
    assert(w@ =~= seq!['r', 'd']);
    if crate::architecture::datapath::chars_equal(s, w) {
        return TokenType::Rd;
    }
    let w: &[char] = &['n'];
    assert(w@ =~= seq!['n']);
    if crate::architecture::datapath::chars_equal(s, w) {
        return TokenType::Condition(1);
    }
    let w: &[char] = &['z'];
    assert(w@ =~= seq!['z']);
    if crate::architecture::datapath::chars_equal(s, w) {
        return TokenType::Condition(2);
    }
    TokenType::Identifier
}

/// The kind of the identifier given as characters.
pub fn map_identifier_chars(s: &[char]) -> (r: TokenType)
    ensures
        r == identifier_kind(s@),
{
    match Register::from_name(s) {
        Some(reg) => TokenType::Register(reg),
        None => keyword_of(s),
    }
}

impl Token {
    /// The token with an identifier replaced by the register or keyword its
    /// text names.
    pub fn mapped(self, source_map: &SourceMap) -> (r: Token)
        requires
            source_map.wf(),
        ensures
            r == mapped_token(self, source_map.text()),
    {
        if self.token_type == TokenType::Identifier {
            let name = source_map.get_span(&self.span);
            Token { token_type: Tokenizer::map_identifier(name.as_str()), span: self.span }
        } else {
            self
        }
    }
}

/// A lexer has read a number of characters.
pub broadcast proof fn lemma_pos_nonneg(t: Tokenizer)
    ensures
        0 <= #[trigger] t.pos(),
{
    lemma_reader_pos(t.reader);
}

/// A well-formed lexer is within its text.
pub broadcast proof fn lemma_wf_bounds(t: Tokenizer)
    ensures
        #[trigger] t.wf() ==> 0 <= t.pos() <= t.source().len() && byte_len(t.source()) < usize::MAX,
{
}

/// A lexer of microprogram source.
#[derive(Clone, Copy)]
pub struct Tokenizer<'a> {
    source_map: &'a SourceMap,
    reader: SourceReader<'a>,
}

impl<'a> Tokenizer<'a> {
    /// The text being read.
    pub closed spec fn source(&self) -> Seq<char> {
        self.reader.source()
    }

    /// How many characters have been read.
    pub closed spec fn pos(&self) -> int {
        self.reader.pos()
    }

    /// The text of the source map that the lexer reads.
    pub closed spec fn map_text(&self) -> Seq<char> {
        self.source_map.text()
    }

    /// The reader and the source map agree and are well formed.
    pub closed spec fn wf(&self) -> bool {
        &&& self.reader.wf()
        &&& 0 <= self.reader.pos() <= self.reader.source().len()
        &&& self.source_map.wf()
        &&& self.reader.source() == self.source_map.text()
        &&& byte_len(self.source_map.text()) < usize::MAX
    }

    /// A lexer at the start of the text of `source_map`.
    pub fn new(source_map: &'a SourceMap) -> (t: Tokenizer<'a>)
        requires
            source_map.wf(),
        ensures
            t.wf(),
            t.source() == source_map.text(),
            t.pos() == 0,
    {
        Tokenizer { source_map, reader: source_map.reader() }
    }

    /// The source map that the lexer reads.
    pub fn source_map(&self) -> (r: &'a SourceMap)
        requires
            self.wf(),
        ensures
            r.wf(),
            r.text() == self.source(),
            byte_len(self.source()) < usize::MAX,
    {
        self.source_map
    }

    /// The kind of the identifier `s`: a register, a keyword or a label.
    pub fn map_identifier(s: &str) -> (r: TokenType)
        ensures
            r == identifier_kind(s@),
    {
        let chars = str_chars(s);
        map_identifier_chars(chars.as_slice())
    }


    fn here(&self) -> (r: (usize, usize, usize))
        requires
            self.wf(),
        ensures
            r.0 == off(self.source(), self.pos()),
            r.1 == line_of(self.source().take(self.pos())),
            r.2 == col_of(self.source().take(self.pos())),
    {
        proof {
            lemma_position_bounds(self.source(), self.pos());
        }
        (self.reader.offset(), self.reader.line(), self.reader.col())
    }

    fn span_from(&self, start: (usize, usize, usize)) -> (r: Span)
        requires
            self.wf(),
        ensures
            r == (Span { start: start.0, end: off(self.source(), self.pos()), line: start.1, col: start.2 }),
    {
        proof {
            lemma_position_bounds(self.source(), self.pos());
        }
        Span { start: start.0, end: self.reader.offset(), line: start.1, col: start.2 }
    }

    fn advance(&mut self)
        requires
            old(self).wf(),
            old(self).pos() < old(self).source().len(),
        ensures
            final(self).wf(),
            final(self).source() == old(self).source(),
            final(self).map_text() == old(self).map_text(),
            final(self).pos() == old(self).pos() + 1,
    {
        self.reader.next();
    }

    fn peek_char(&self) -> (r: Option<(usize, char)>)
        requires
            self.wf(),
        ensures
            self.pos() < self.source().len() ==> r == Some(
                (char_width(self.source()[self.pos()]) as usize, self.source()[self.pos()]),
            ),
            self.pos() >= self.source().len() ==> r is None,
    {
        self.reader.peek()
    }

    fn next_char(&mut self) -> (r: Option<(usize, char)>)
        requires
            old(self).wf(),
        ensures
            final(self).wf(),
            final(self).source() == old(self).source(),
            final(self).map_text() == old(self).map_text(),
            old(self).pos() < old(self).source().len() ==> {
                &&& r == Some(
                    (
                        char_width(old(self).source()[old(self).pos()]) as usize,
                        old(self).source()[old(self).pos()],
                    ),
                )
                &&& final(self).pos() == old(self).pos() + 1
            },
            old(self).pos() >= old(self).source().len() ==> r is None && final(self).pos()
                == old(self).pos(),
    {
        self.reader.next()
    }

    fn read_identifier(&mut self) -> (r: Option<Span>)
        requires
            old(self).wf(),
        ensures
            final(self).pos() >= old(self).pos(),
            final(self).wf(),
            final(self).source() == old(self).source(),
            final(self).map_text() == old(self).map_text(),
            final(self).pos() == identifier_end(old(self).source(), old(self).pos()),
            final(self).pos() > old(self).pos() ==> r == Some(
                span_between(old(self).source(), old(self).pos(), final(self).pos()),
            ),
            final(self).pos() == old(self).pos() ==> r is None,
    {
        let start = self.here();
        let ghost p0 = self.pos();
        loop
            invariant
                self.wf(),
                self.source() == old(self).source(),
                self.map_text() == old(self).map_text(),
                p0 <= self.pos() <= self.source().len(),
                identifier_end(self.source(), p0) == identifier_end(self.source(), self.pos()),
            ensures
                self.wf(),
                self.source() == old(self).source(),
                self.map_text() == old(self).map_text(),
                p0 <= self.pos() <= self.source().len(),
                identifier_end(self.source(), p0) == self.pos(),
            decreases self.source().len() - self.pos(),
        {
            match self.peek_char() {
                Some((_, c)) => {
                    if is_alphanumeric(c) || c == '_' || c == '-' {
                        self.advance();
                    } else {
                        break;
                    }
                },
                None => break,
            }
        }
        let now = self.here();
        proof {
            lemma_position_bounds(self.source(), p0);
            if p0 < self.pos() {
                lemma_byte_len_prefix(self.source(), p0, self.pos());
            }
        }
        if now.0 == start.0 {
            None
        } else {
            Some(self.span_from(start))
        }
    }

    /// Reads the next token: `None` at the end of the text, otherwise the token
    /// or the lexical error that `lex_from` describes. Identifiers are left
    /// unmapped.
    pub fn next(&mut self) -> (r: Option<Result<Token, TokenizerError>>)
        requires
            old(self).wf(),
        ensures
            final(self).wf(),
            final(self).source() == old(self).source(),
            final(self).map_text() == old(self).map_text(),
            r == lex_from(old(self).source(), old(self).pos(), false).0,
            final(self).pos() == lex_from(old(self).source(), old(self).pos(), false).1,
    {
        let ghost s = self.source();
        let ghost p0 = self.pos();
        let mut comment = false;
        loop
            invariant
                self.wf(),
                self.source() == s,
                s == old(self).source(),
                self.map_text() == old(self).map_text(),
                p0 == old(self).pos(),
                0 <= self.pos() <= s.len(),
                lex_from(s, p0, false) == lex_from(s, self.pos(), comment),
            decreases s.len() - self.pos(),
        {
            let ghost p = self.pos();
            let (len, c) = match self.peek_char() {
                Some(x) => x,
                None => return None,
            };
            let start = self.here();
            proof {
                lemma_off_next(s, p);
                lemma_position_bounds(s, p);
                lemma_position_bounds(s, p + 1);
            }
            if c == '#' {
                comment = true;
                self.advance();
                continue;
            }
            if c == '\\' {
                self.advance();
                let start2 = self.here();
                match self.next_char() {
                    Some((len2, c2)) => {
                        if c2 == '\n' {
                            comment = false;
                            continue;
                        }
                        if !comment {
                            proof {
                                lemma_off_next(s, p + 1);
                            }
                            return Some(
                                Err(
                                    TokenizerError {
                                        span: Span {
                                            start: start2.0,
                                            end: start2.0 + len2,
                                            line: start2.1,
                                            col: start2.2,
                                        },
                                        error_type: TokenizerErrorType::UnexpectedCharacter,
                                    },
                                ),
                            );
                        }
                        continue;
                    },
                    None => {
                        if !comment {
                            return Some(
                                Err(
                                    TokenizerError {
                                        span: Span {
                                            start: start.0,
                                            end: start.0 + len,
                                            line: start.1,
                                            col: start.2,
                                        },
                                        error_type: TokenizerErrorType::UnexpectedCharacter,
                                    },
                                ),
                            );
                        }
                        continue;
                    },
                }
            }
            if c == '\n' {
                self.advance();
                return Some(Ok(Token { token_type: TokenType::Newline, span: self.span_from(start) }));
            }
            if comment {
                self.advance();
                continue;
            }
            if is_whitespace(c) {
                self.advance();
                continue;
            }
            let ident = is_alphanumeric(c) || c == '_' || c == '-';
            if c == '(' {
                self.advance();
                match self.peek_char() {
                    Some((len2, c2)) => {
                        if c2 == '-' {
                            let start2 = self.here();
                            proof {
                                lemma_off_next(s, p + 1);
                            }
                            self.advance();
                            let mut ok = false;
                            match self.next_char() {
                                Some((_, d1)) => {
                                    if d1 == '1' {
                                        match self.next_char() {
                                            Some((_, d2)) => {
                                                ok = d2 == ')';
                                            },
                                            None => {},
                                        }
                                    }
                                },
                                None => {},
                            }
                            if ok {
                                return Some(
                                    Ok(
                                        Token {
                                            token_type: TokenType::Register(Register::MinusOne),
                                            span: self.span_from(start),
                                        },
                                    ),
                                );
                            }
                            return Some(
                                Err(
                                    TokenizerError {
                                        span: Span {
                                            start: start2.0,
                                            end: start2.0 + len2,
                                            line: start.1,
                                            col: start.2,
                                        },
                                        error_type: TokenizerErrorType::UnexpectedMinus,
                                    },
                                ),
                            );
                        }
                    },
                    None => {},
                }
                return Some(
                    Ok(
                        Token {
                            token_type: TokenType::LeftParen,
                            span: Span { start: start.0, end: start.0 + len, line: start.1, col: start.2 },
                        },
                    ),
                );
            }
            if c == ')' || c == '+' || c == ';' || c == ',' {
                self.advance();
                let token_type = if c == ')' {
                    TokenType::RightParen
                } else if c == '+' {
                    TokenType::Plus
                } else if c == ';' {
                    TokenType::Semicolon
                } else {
                    TokenType::Comma
                };
                return Some(Ok(Token { token_type, span: self.span_from(start) }));
            }
            if ident {
                proof {
                    lemma_identifier_end_ge(s, p + 1);
                }
                match self.read_identifier() {
                    Some(span) => {
                        return Some(Ok(Token { token_type: TokenType::Identifier, span }));
                    },
                    None => {
                        return None;
                    },
                }
            }
            if c == ':' {
                self.advance();
                match self.peek_char() {
                    Some((_, c2)) => {
                        if c2 == '=' {
                            proof {
                                lemma_off_next(s, p + 1);
                                lemma_position_bounds(s, p + 2);
                            }
                            self.advance();
                            return Some(
                                Ok(Token { token_type: TokenType::Assign, span: self.span_from(start) }),
                            );
                        }
                    },
                    None => {},
                }
                return Some(Ok(Token { token_type: TokenType::Colon, span: self.span_from(start) }));
            }
            self.advance();
            return Some(
                Err(
                    TokenizerError {
                        span: self.span_from(start),
                        error_type: TokenizerErrorType::UnexpectedCharacter,
                    },
                ),
            );
        }
    }

    /// Reads the next token as `next` does, with an identifier replaced by the
    /// register or keyword its text names.
    pub fn next_mapped(&mut self) -> (r: Option<Result<Token, TokenizerError>>)
        requires
            old(self).wf(),
        ensures
            final(self).wf(),
            final(self).source() == old(self).source(),
            final(self).map_text() == old(self).map_text(),
            r == (match lex_from(old(self).source(), old(self).pos(), false).0 {
                Some(Ok(t)) => Some(Ok(mapped_token(t, old(self).source()))),
                other => other,
            }),
            final(self).pos() == lex_from(old(self).source(), old(self).pos(), false).1,
    {
        match self.next() {
            Some(Ok(t)) => Some(Ok(t.mapped(self.source_map))),
            other => other,
        }
    }
}

} // verus!
