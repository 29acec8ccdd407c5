use crate::parsers::source_map::{HasSpan, SourceMap, SourceReader, Span, col_of, line_of};
use crate::parsers::text::{
    byte_len, char_width, is_alphabetic, is_alphabetic_spec, is_alphanumeric, is_alphanumeric_spec,
    is_ascii_digit, is_ascii_letter, is_whitespace, is_whitespace_spec, lemma_byte_len_prefix,
    lemma_byte_len_push, lemma_byte_len_take_bound, push_char,
};
use crate::parsers::source_map::{lemma_line_col_bounds, lemma_reader_pos};
use vstd::prelude::*;

verus! {

/// The kind of an assembly token, with the value of strings and integers.
#[derive(Debug, Clone, PartialEq, Eq)]
pub enum TokenType {
    Identifier,
    Directive,
    Semicolon,
    Colon,
    Comma,
    String(String),
    Int(isize),
    Newline,
}

/// The kind of a token as a mathematical value.
pub enum SpecTokenType {
    Identifier,
    Directive,
    Semicolon,
    Colon,
    Comma,
    String(Seq<char>),
    Int(int),
    Newline,
}

impl View for TokenType {
    type V = SpecTokenType;

    open spec fn view(&self) -> SpecTokenType {
        match self {
            TokenType::Identifier => SpecTokenType::Identifier,
            TokenType::Directive => SpecTokenType::Directive,
            TokenType::Semicolon => SpecTokenType::Semicolon,
            TokenType::Colon => SpecTokenType::Colon,
            TokenType::Comma => SpecTokenType::Comma,
            TokenType::String(s) => SpecTokenType::String(s@),
            TokenType::Int(n) => SpecTokenType::Int(*n as int),
            TokenType::Newline => SpecTokenType::Newline,
        }
    }
}

/// A token of assembly source and the region it covers.
#[derive(Debug, Clone, PartialEq, Eq)]
pub struct Token {
    pub token_type: TokenType,
    pub span: Span,
}

/// A token as a mathematical value.
pub struct SpecToken {
    pub token_type: SpecTokenType,
    pub span: Span,
}

impl View for Token {
    type V = SpecToken;

    open spec fn view(&self) -> SpecToken {
        SpecToken { token_type: self.token_type@, span: self.span }
    }
}

impl HasSpan for Token {
    open spec fn spec_span(&self) -> Span {
        self.span
    }

    fn span(&self) -> (r: &Span) {
        &self.span
    }
}

/// A lexical error and where it was found.
#[derive(Clone, Copy, Debug, PartialEq, Eq, Structural)]
pub struct TokenizerError {
    pub span: Span,
    pub error_type: TokenizerErrorType,
}

/// The kinds of lexical error.
#[derive(Clone, Copy, Debug, PartialEq, Eq, Structural)]
pub enum TokenizerErrorType {
    InvalidNumber,
    InvalidDirective,
    UnexpectedCharacter,
    UnendedString,
    UnendedChar,
}

/// What the lexer gives for one call: nothing at the end of the text, a token, or
/// an error.
pub type SpecLexed = Option<Result<SpecToken, TokenizerError>>;

/// The byte offset of position `i` of `s`.
pub open spec fn off(s: Seq<char>, i: int) -> usize {
    byte_len(s.take(i)) as usize
}

/// The span from position `i` to position `j` of `s`, starting at the line and
/// column of `i`.
pub open spec fn span_between(s: Seq<char>, i: int, j: int) -> Span {
    Span {
        start: off(s, i),
        end: off(s, j),
        line: line_of(s.take(i)) as usize,
        col: col_of(s.take(i)) as usize,
    }
}

/// A character that may continue an identifier.
pub open spec fn is_identifier_body(c: char) -> bool {
    is_alphanumeric_spec(c) || c == '_'
}

/// The end of the run of identifier characters that starts at `p`.
pub open spec fn identifier_end(s: Seq<char>, p: int) -> int
    decreases s.len() - p,
{
    if 0 <= p < s.len() && is_identifier_body(s[p]) {
        identifier_end(s, p + 1)
    } else {
        p
    }
}

/// The end of the run of ASCII letters and digits that starts at `p`.
pub open spec fn number_end(s: Seq<char>, p: int) -> int
    decreases s.len() - p,
{
    if 0 <= p < s.len() && (is_ascii_letter(s[p]) || is_ascii_digit(s[p])) {
        number_end(s, p + 1)
    } else {
        p
    }
}

/// The character that the escape `\c` stands for.
pub open spec fn escape_of(c: char) -> Option<char> {
    if c == 't' {
        Some('\t')
    } else if c == 'n' {
        Some('\n')
    } else if c == 'r' {
        Some('\r')
    } else if c == 'f' {
        Some('\x0C')
    } else if c == 'b' {
        Some('\x08')
    } else if c == 'a' {
        Some('\x07')
    } else if c == 's' {
        Some(' ')
    } else if c == '\'' {
        Some('\'')
    } else if c == '"' {
        Some('"')
    } else {
        None
    }
}

/// The value of digit `c` in base `radix`.
pub open spec fn digit_value(c: char, radix: nat) -> Option<nat> {
    let v: int = if '0' <= c && c <= '9' {
        c as int - '0' as int
    } else if 'a' <= c && c <= 'z' {
        c as int - 'a' as int + 10
    } else if 'A' <= c && c <= 'Z' {
        c as int - 'A' as int + 10
    } else {
        radix as int
    };
    if 0 <= v < radix {
        Some(v as nat)
    } else {
        None
    }
}

/// The value of the digits `d` in base `radix`; none when `d` is empty or holds a
/// character that is not a digit of that base.
pub open spec fn digits_value(d: Seq<char>, radix: nat) -> Option<nat>
    decreases d.len(),
{
    if d.len() == 0 {
        None
    } else {
        match digit_value(d.last(), radix) {
            None => None,
            Some(v) => if d.len() == 1 {
                Some(v)
            } else {
                match digits_value(d.drop_last(), radix) {
                    None => None,
                    Some(h) => Some(h * radix + v),
                }
            },
        }
    }
}

/// The value of the text `t` of a number: hexadecimal after `0x`, binary after
/// `0b`, decimal otherwise; none when it is not a number or exceeds `isize`.
pub open spec fn number_value(t: Seq<char>) -> Option<int> {
    let (d, radix) = if t.len() >= 2 && t[0] == '0' && t[1] == 'x' {
        (t.skip(2), 16nat)
    } else if t.len() >= 2 && t[0] == '0' && t[1] == 'b' {
        (t.skip(2), 2nat)
    } else {
        (t, 10nat)
    };
    match digits_value(d, radix) {
        Some(v) => if v <= isize::MAX {
            Some(v as int)
        } else {
            None
        },
        None => None,
    }
}

/// The content of a string literal whose text starts at `q` (after the opening
/// quote), and the position after it (after the closing quote, or where it
/// failed).
pub open spec fn string_lit(s: Seq<char>, q: int) -> (Option<Seq<char>>, int)
    decreases s.len() - q,
{
    if q < 0 || q >= s.len() {
        (None, q)
    } else if s[q] == '"' {
        (Some(Seq::empty()), q + 1)
    } else if s[q] == '\\' {
        if q + 1 >= s.len() {
            (None, q + 1)
        } else {
            match escape_of(s[q + 1]) {
                None => (None, q + 2),
                Some(e) => {
                    let (r, p) = string_lit(s, q + 2);
                    (
                        match r {
                            Some(t) => Some(seq![e] + t),
                            None => None,
                        },
                        p,
                    )
                },
            }
        }
    } else {
        let (r, p) = string_lit(s, q + 1);
        (
            match r {
                Some(t) => Some(seq![s[q]] + t),
                None => None,
            },
            p,
        )
    }
}

/// The value of a character literal whose text starts at `q` (after the opening
/// quote), and the position after it (after the closing quote, or where it
/// failed).
pub open spec fn char_lit(s: Seq<char>, q: int) -> (Option<int>, int) {
    if q >= s.len() {
        (None, q)
    } else if s[q] == '\n' {
        (None, q + 1)
    } else {
        let (v, p): (Option<char>, int) = if s[q] == '\\' {
            if q + 1 >= s.len() {
                (None, q + 1)
            } else {
                (escape_of(s[q + 1]), q + 2)
            }
        } else {
            (Some(s[q]), q + 1)
        };
        match v {
            None => (None, p),
            Some(c) => if p >= s.len() {
                (None, p)
            } else if s[p] != '\'' {
                (None, p + 1)
            } else {
                (Some((c as u32) as int), p + 1)
            },
        }
    }
}

/// A token of kind `t` from position `i` to `j`.
pub open spec fn tok(s: Seq<char>, t: SpecTokenType, i: int, j: int) -> SpecLexed {
    Some(Ok(SpecToken { token_type: t, span: span_between(s, i, j) }))
}

/// An error of kind `e` with span `sp`.
pub open spec fn lex_err(sp: Span, e: TokenizerErrorType) -> SpecLexed {
    Some(Err(TokenizerError { span: sp, error_type: e }))
}

/// The assembly lexer: what the next token is when reading `s` from `p` (inside
/// a comment when `comment` is set), and where reading stops. Comments run from
/// `#` to the end of the line; a backslash joins a line with the next; blanks
/// are skipped.
pub open spec fn lex_from(s: Seq<char>, p: int, comment: bool) -> (SpecLexed, int)
    decreases s.len() - p,
{
    if p < 0 || p >= s.len() {
        (None, p)
    } else {
        let c = s[p];
        if c == '#' {
            lex_from(s, p + 1, true)
        } else if c == '\\' {
            if p + 1 >= s.len() {
                (lex_err(span_between(s, p, p + 1), TokenizerErrorType::UnexpectedCharacter), p + 1)
            } else if s[p + 1] == '\n' {
                lex_from(s, p + 2, comment)
            } else {
                (
                    lex_err(span_between(s, p + 1, p + 2), TokenizerErrorType::UnexpectedCharacter),
                    p + 1,
                )
            }
        } else if c == '\n' {
            (tok(s, SpecTokenType::Newline, p, p + 1), p + 1)
        } else if comment {
            lex_from(s, p + 1, true)
        } else if is_whitespace_spec(c) {
            lex_from(s, p + 1, false)
        } else if c == '.' {
            let q = identifier_end(s, p + 1);
            if q > p + 1 {
                (tok(s, SpecTokenType::Directive, p, q), q)
            } else {
                (lex_err(span_between(s, p, p + 1), TokenizerErrorType::InvalidDirective), p + 1)
            }
        } else if c == '\'' {
            let (v, q) = char_lit(s, p + 1);
            match v {
                Some(n) => (tok(s, SpecTokenType::Int(n), p, q), q),
                None => (lex_err(span_between(s, p, q), TokenizerErrorType::UnendedChar), q),
            }
        } else if c == '"' {
            let (v, q) = string_lit(s, p + 1);
            match v {
                Some(t) => (tok(s, SpecTokenType::String(t), p, q), q),
                None => (lex_err(span_between(s, p, q), TokenizerErrorType::UnendedString), q),
            }
        } else if c == ';' {
            (tok(s, SpecTokenType::Semicolon, p, p + 1), p + 1)
        } else if c == ':' {
            (tok(s, SpecTokenType::Colon, p, p + 1), p + 1)
        } else if c == ',' {
            (tok(s, SpecTokenType::Comma, p, p + 1), p + 1)
        } else if c == '-' || is_ascii_digit(c) {
            let q0 = if c == '-' {
                p + 1
            } else {
                p
            };
            let q = number_end(s, q0);
            if q == q0 {
                (lex_err(span_between(s, p, p + 1), TokenizerErrorType::InvalidNumber), q0)
            } else {
                match number_value(s.subrange(q0, q)) {
                    Some(v) => (tok(s, SpecTokenType::Int(if c == '-' { -v } else { v }), p, q), q),
                    None => (lex_err(span_between(s, p, q), TokenizerErrorType::InvalidNumber), q),
                }
            }
        } else if is_alphabetic_spec(c) {
            let q = identifier_end(s, p);
            if q > p {
                (tok(s, SpecTokenType::Identifier, p, q), q)
            } else {
                lex_from(s, p + 1, false)
            }
        } else {
            (lex_err(span_between(s, p, p + 1), TokenizerErrorType::UnexpectedCharacter), p + 1)
        }
    }
}

proof fn lemma_identifier_end_bounds(s: Seq<char>, p: int)
    requires
        0 <= p <= s.len(),
    ensures
        p <= identifier_end(s, p) <= s.len(),
    decreases s.len() - p,
{
    if p < s.len() && is_identifier_body(s[p]) {
        lemma_identifier_end_bounds(s, p + 1);
    }
}

proof fn lemma_number_end_bounds(s: Seq<char>, p: int)
    requires
        0 <= p <= s.len(),
    ensures
        p <= number_end(s, p) <= s.len(),
    decreases s.len() - p,
{
    if p < s.len() && (is_ascii_letter(s[p]) || is_ascii_digit(s[p])) {
        lemma_number_end_bounds(s, p + 1);
    }
}

proof fn lemma_string_lit_bounds(s: Seq<char>, q: int)
    requires
        0 <= q <= s.len(),
    ensures
        q <= string_lit(s, q).1 <= s.len(),
    decreases s.len() - q,
{
    if q < s.len() && s[q] != '"' {
        if s[q] == '\\' {
            if q + 1 < s.len() && escape_of(s[q + 1]) is Some {
                lemma_string_lit_bounds(s, q + 2);
            }
        } else {
            lemma_string_lit_bounds(s, q + 1);
        }
    }
}

/// The assembly lexer never moves back, moves forward whenever it gives
/// something, and stays within the text.
pub broadcast proof fn lemma_lex_advances(s: Seq<char>, p: int, comment: bool)
    requires
        0 <= p <= s.len(),
    ensures
        p <= #[trigger] lex_from(s, p, comment).1 <= s.len(),
        lex_from(s, p, comment).0 is Some ==> lex_from(s, p, comment).1 > p,
    decreases s.len() - p,
{
    if p < s.len() {
        let c = s[p];
        if c == '#' {
            lemma_lex_advances(s, p + 1, true);
        } else if c == '\\' {
            if p + 1 < s.len() && s[p + 1] == '\n' {
                lemma_lex_advances(s, p + 2, comment);
            }
        } else if c == '\n' {
        } else if comment {
            lemma_lex_advances(s, p + 1, true);
        } else if is_whitespace_spec(c) {
            lemma_lex_advances(s, p + 1, false);
        } else if c == '.' {
            lemma_identifier_end_bounds(s, p + 1);
        } else if c == '\'' {
        } else if c == '"' {
            lemma_string_lit_bounds(s, p + 1);
        } else if c == ';' || c == ':' || c == ',' {
        } else if c == '-' || is_ascii_digit(c) {
            let q0 = if c == '-' {
                p + 1
            } else {
                p
            };
            lemma_number_end_bounds(s, q0);
            if c != '-' {
                lemma_number_end_bounds(s, p + 1);
            }
        } else if is_alphabetic_spec(c) {
            lemma_identifier_end_bounds(s, p);
            lemma_lex_advances(s, p + 1, false);
        }
    }
}

/// The token read from `p` covers the characters `i..q` of the text, where `q`
/// is where reading stops and `p <= i < q`.
proof fn lemma_token_covers(s: Seq<char>, p: int, comment: bool)
    requires
        0 <= p <= s.len(),
    ensures
        lex_from(s, p, comment).0 matches Some(Ok(t)) ==> exists|i: int|
            p <= i < lex_from(s, p, comment).1 && t.span == #[trigger] span_between(s, i, lex_from(s, p, comment).1),
    decreases s.len() - p,
{
    lemma_lex_advances(s, p, comment);
    if p < s.len() {
        let c = s[p];
        let r = lex_from(s, p, comment);
        if c == '#' {
            lemma_token_covers(s, p + 1, true);
        } else if c == '\\' {
            if p + 1 < s.len() && s[p + 1] == '\n' {
                lemma_token_covers(s, p + 2, comment);
            }
        } else if c == '\n' {
            assert(span_between(s, p, r.1) == span_between(s, p, p + 1));
        } else if comment {
            lemma_token_covers(s, p + 1, true);
        } else if is_whitespace_spec(c) {
            lemma_token_covers(s, p + 1, false);
        } else if is_alphabetic_spec(c) && !(c == '.' || c == '\'' || c == '"' || c == ';' || c == ':' || c
            == ',' || c == '-' || is_ascii_digit(c)) && identifier_end(s, p) <= p {
            lemma_token_covers(s, p + 1, false);
        } else {
            match r.0 {
                Some(Ok(t)) => {
                    assert(t.span == span_between(s, p, r.1));
                },
                _ => {},
            }
        }
    }
}

/// The tokens of the assembly lexer lie in the text in order and do not
/// overlap: the token read from `p` spans the bytes `start..end` with
/// `start < end`, within the text and not after the start of the token that
/// follows it; its line and column (both from 1, the column in bytes) are those
/// of its first character.
pub proof fn lemma_tokens_in_order(s: Seq<char>, p: int)
    requires
        0 <= p <= s.len(),
        byte_len(s) < usize::MAX,
    ensures
        alexed(s, p) matches Some(Ok(t1)) ==> {
            &&& exists|i: int|
                p <= i < s.len() && t1.span.start == byte_len(#[trigger] s.take(i)) && t1.span.line
                    == line_of(s.take(i)) && t1.span.col == col_of(s.take(i))
            &&& t1.span.start < t1.span.end <= byte_len(s)
            &&& (alexed(s, aafter(s, p)) matches Some(Ok(t2)) ==> t1.span.end <= t2.span.start)
        },
{
    reveal(alexed);
    reveal(aafter);
    lemma_token_covers(s, p, false);
    lemma_lex_advances(s, p, false);
    match alexed(s, p) {
        Some(Ok(t1)) => {
            let q = aafter(s, p);
            let i = choose|i: int| p <= i < q && t1.span == #[trigger] span_between(s, i, q);
            lemma_byte_len_prefix(s, i, q);
            lemma_byte_len_take_bound(s, i);
            crate::parsers::source_map::lemma_line_col_bounds(s.take(i));
            assert(t1.span.start == byte_len(s.take(i)));
            lemma_token_covers(s, q, false);
            lemma_lex_advances(s, q, false);
            match alexed(s, q) {
                Some(Ok(t2)) => {
                    let i2 = choose|i2: int| q <= i2 < aafter(s, q) && t2.span == #[trigger] span_between(
                        s,
                        i2,
                        aafter(s, q),
                    );
                    lemma_byte_len_prefix(s, q, i2);
                    lemma_byte_len_take_bound(s, i2);
                },
                _ => {},
            }
        },
        _ => {},
    }
}

/// The next token from `p`, unmapped.
#[verifier::opaque]
pub open spec fn alexed(s: Seq<char>, p: int) -> SpecLexed {
    lex_from(s, p, false).0
}

/// The position after the next token from `p`.
#[verifier::opaque]
pub open spec fn aafter(s: Seq<char>, p: int) -> int {
    lex_from(s, p, false).1
}

/// Reading a token never moves back, moves forward whenever there is a token,
/// and stays within the text.
pub broadcast proof fn lemma_aafter_advances(s: Seq<char>, p: int)
    requires
        0 <= p <= s.len(),
    ensures
        p <= #[trigger] aafter(s, p) <= s.len(),
        alexed(s, p) is Some ==> aafter(s, p) > p,
{
    reveal(alexed);
    reveal(aafter);
    lemma_lex_advances(s, p, false);
}

/// The view of what one call of the lexer returned.
pub open spec fn lexed_view(r: Option<Result<Token, TokenizerError>>) -> SpecLexed {
    match r {
        None => None,
        Some(Ok(t)) => Some(Ok(t@)),
        Some(Err(e)) => Some(Err(e)),
    }
}

/// Offsets, lines and columns of positions of `s` fit a `usize`.
pub proof fn lemma_position_bounds(s: Seq<char>, i: int)
    requires
        0 <= i <= s.len(),
        byte_len(s) < usize::MAX,
    ensures
        byte_len(s.take(i)) < usize::MAX,
        line_of(s.take(i)) <= usize::MAX,
        col_of(s.take(i)) <= usize::MAX,
        off(s, i) as int == byte_len(s.take(i)),
{
    lemma_byte_len_take_bound(s, i);
    lemma_line_col_bounds(s.take(i));
}

/// The byte offset of the position after `i` is that of `i` plus the width of the
/// character at `i`.
pub proof fn lemma_off_next(s: Seq<char>, i: int)
    requires
        0 <= i < s.len(),
        byte_len(s) < usize::MAX,
    ensures
        off(s, i + 1) as int == off(s, i) as int + char_width(s[i]),
{
    lemma_position_bounds(s, i);
    lemma_position_bounds(s, i + 1);
    assert(s.take(i + 1) =~= s.take(i).push(s[i]));
    lemma_byte_len_push(s.take(i), s[i]);
}


/// Digit values are below the radix.
pub proof fn lemma_digits_prefix(d: Seq<char>, radix: nat, k: int)
    requires
        1 <= k <= d.len(),
        radix >= 2,
        digits_value(d, radix) is Some,
    ensures
        digits_value(d.take(k), radix) is Some,
        digits_value(d.take(k), radix)->0 <= digits_value(d, radix)->0,
    decreases d.len(),
{
    if k == d.len() {
        assert(d.take(k) =~= d);
    } else {
        lemma_digits_prefix(d.drop_last(), radix, k);
        assert(d.drop_last().take(k) =~= d.take(k));
        let h = digits_value(d.drop_last(), radix)->0;
        let v = digit_value(d.last(), radix)->0;
        assert(h <= h * radix + v) by (nonlinear_arith)
            requires
                radix >= 2,
        ;
    }
}

/// A hexadecimal digit, in either case.
pub open spec fn is_hex_digit(c: char) -> bool {
    ('0' <= c && c <= '9') || ('a' <= c && c <= 'f') || ('A' <= c && c <= 'F')
}

/// The value 0 to 15 of the hexadecimal digit `c`: `a`-`f` and `A`-`F` both
/// stand for 10 to 15.
pub open spec fn hex_digit_value(c: char) -> int {
    if '0' <= c && c <= '9' {
        c as u32 - 48
    } else if 'a' <= c && c <= 'f' {
        c as u32 - 97 + 10
    } else {
        c as u32 - 65 + 10
    }
}

/// The number that the hexadecimal digits `d` write, most significant first.
pub open spec fn hex_value(d: Seq<char>) -> int
    decreases d.len(),
{
    if d.len() == 0 {
        0
    } else {
        16 * hex_value(d.drop_last()) + hex_digit_value(d.last())
    }
}

#[verifier::spinoff_prover]
proof fn lemma_hex_digits(d: Seq<char>)
    requires
        d.len() > 0,
        forall|i: int| 0 <= i < d.len() ==> is_hex_digit(#[trigger] d[i]),
    ensures
        digits_value(d, 16) == Some(hex_value(d) as nat),
        hex_value(d) >= 0,
    decreases d.len(),
{
    let c = d.last();
    assert(is_hex_digit(c));
    assert(digit_value(c, 16) == Some(hex_digit_value(c) as nat));
    if d.len() > 1 {
        let e = d.drop_last();
        assert forall|i: int| 0 <= i < e.len() implies is_hex_digit(#[trigger] e[i]) by {
            assert(e[i] == d[i]);
        }
        lemma_hex_digits(e);
        assert(digits_value(d, 16) == Some((digits_value(e, 16)->0 * 16 + digit_value(c, 16)->0) as nat));
    } else {
        assert(d.drop_last().len() == 0);
    }
}

proof fn lemma_number_end_run(s: Seq<char>, p: int, q: int)
    requires
        0 <= p <= q <= s.len(),
        forall|i: int| p <= i < q ==> is_ascii_letter(#[trigger] s[i]) || is_ascii_digit(s[i]),
        q == s.len() || !(is_ascii_letter(s[q]) || is_ascii_digit(s[q])),
    ensures
        number_end(s, p) == q,
    decreases q - p,
{
    if p < q {
        assert(is_ascii_letter(s[p]) || is_ascii_digit(s[p]));
        lemma_number_end_run(s, p + 1, q);
    }
}

/// A string literal without quotes or backslashes inside holds exactly the
/// characters written between its quotes, and reading ends after the closing
/// quote.
#[verifier::spinoff_prover]
pub proof fn lemma_plain_string_literal(s: Seq<char>, q: int, j: int)
    requires
        0 <= q <= j < s.len(),
        s[j] == '"',
        forall|i: int| q <= i < j ==> #[trigger] s[i] != '"' && s[i] != '\\',
    ensures
        string_lit(s, q) == (Some(s.subrange(q, j)), j + 1),
    decreases j - q,
{
    if q == j {
        assert(s.subrange(q, j) =~= Seq::<char>::empty());
    } else {
        assert(s[q] != '"' && s[q] != '\\');
        lemma_plain_string_literal(s, q + 1, j);
        assert(seq![s[q]] + s.subrange(q + 1, j) =~= s.subrange(q, j));
    }
}

/// The character codes that the escapes stand for: `\t` 9, `\n` 10, `\r` 13,
/// `\f` 12, `\b` 8, `\a` 7, `\s` 32 (space), `\'` 39 and `\"` 34.
pub open spec fn escape_code(c: char) -> Option<u32> {
    if c == 't' {
        Some(9)
    } else if c == 'n' {
        Some(10)
    } else if c == 'r' {
        Some(13)
    } else if c == 'f' {
        Some(12)
    } else if c == 'b' {
        Some(8)
    } else if c == 'a' {
        Some(7)
    } else if c == 's' {
        Some(32)
    } else if c == '\'' {
        Some(39)
    } else if c == '"' {
        Some(34)
    } else {
        None
    }
}

/// An escape `\c` inside a string literal stands for the character whose code
/// `escape_code` gives, and inside a character literal `'\c'` is that code;
/// a backslash before any other character makes the literal fail.
#[verifier::spinoff_prover]
pub proof fn lemma_escape_literals(s: Seq<char>, q: int)
    requires
        0 <= q,
        q + 3 <= s.len(),
        s[q] == '\\',
    ensures
        s[q + 2] == '"' ==> string_lit(s, q) == (match escape_code(s[q + 1]) {
            Some(k) => (Some(seq![k as char]), q + 3),
            None => (None, q + 2),
        }),
        s[q + 2] == '\'' ==> char_lit(s, q) == (match escape_code(s[q + 1]) {
            Some(k) => (Some(k as int), q + 3),
            None => (None, q + 2),
        }),
{
    let c = s[q + 1];
    assert(escape_of(c) matches Some(e) ==> escape_code(c) == Some(e as u32));
    assert(escape_of(c) is None <==> escape_code(c) is None);
    if s[q + 2] == '"' && escape_of(c) is Some {
        let e = escape_of(c)->0;
        assert(string_lit(s, q + 2) == (Some(Seq::<char>::empty()), q + 3));
        assert(seq![e] + Seq::<char>::empty() =~= seq![e]);
        assert(((e as u32) as char) == e);
    }
}

/// The text `0x` followed by hexadecimal digits is the number those digits
/// write in base 16, `A`-`F` and `a`-`f` alike standing for 10 to 15, when it
/// fits in an `isize`; otherwise it is no number.
#[verifier::spinoff_prover]
pub proof fn lemma_hex_number_value(d: Seq<char>)
    requires
        d.len() > 0,
        forall|i: int| 0 <= i < d.len() ==> is_hex_digit(#[trigger] d[i]),
    ensures
        hex_value(d) >= 0,
        number_value(seq!['0', 'x'] + d) == (if hex_value(d) <= isize::MAX {
            Some(hex_value(d))
        } else {
            None
        }),
{
    let t = seq!['0', 'x'] + d;
    lemma_hex_digits(d);
    assert(t.skip(2) =~= d);
    assert(t[0] == '0' && t[1] == 'x');
}

/// The number that the decimal digits `d` write, most significant first.
pub open spec fn decimal_value(d: Seq<char>) -> int
    decreases d.len(),
{
    if d.len() == 0 {
        0
    } else {
        10 * decimal_value(d.drop_last()) + (d.last() as u32 - 48)
    }
}

/// The number that the binary digits `d` write, most significant first.
pub open spec fn binary_value(d: Seq<char>) -> int
    decreases d.len(),
{
    if d.len() == 0 {
        0
    } else {
        2 * binary_value(d.drop_last()) + (if d.last() == '1' { 1int } else { 0int })
    }
}

#[verifier::spinoff_prover]
proof fn lemma_decimal_digits(d: Seq<char>)
    requires
        d.len() > 0,
        forall|i: int| 0 <= i < d.len() ==> is_ascii_digit(#[trigger] d[i]),
    ensures
        digits_value(d, 10) == Some(decimal_value(d) as nat),
        decimal_value(d) >= 0,
    decreases d.len(),
{
    assert(is_ascii_digit(d.last()));
    assert(digit_value(d.last(), 10) == Some((d.last() as u32 - 48) as nat));
    if d.len() > 1 {
        let e = d.drop_last();
        assert forall|i: int| 0 <= i < e.len() implies is_ascii_digit(#[trigger] e[i]) by {
            assert(e[i] == d[i]);
        }
        lemma_decimal_digits(e);
        assert(digits_value(d, 10) == Some((digits_value(e, 10)->0 * 10 + digit_value(d.last(), 10)->0) as nat));
    } else {
        assert(d.drop_last().len() == 0);
    }
}

#[verifier::spinoff_prover]
proof fn lemma_binary_digits(d: Seq<char>)
    requires
        d.len() > 0,
        forall|i: int| 0 <= i < d.len() ==> (#[trigger] d[i] == '0' || d[i] == '1'),
    ensures
        digits_value(d, 2) == Some(binary_value(d) as nat),
        binary_value(d) >= 0,
    decreases d.len(),
{
    assert(d.last() == '0' || d.last() == '1');
    assert(digit_value(d.last(), 2) == Some((if d.last() == '1' { 1int } else { 0int }) as nat));
    if d.len() > 1 {
        let e = d.drop_last();
        assert forall|i: int| 0 <= i < e.len() implies (#[trigger] e[i] == '0' || e[i] == '1') by {
            assert(e[i] == d[i]);
        }
        lemma_binary_digits(e);
        assert(e =~= d.drop_last());
        assert(digits_value(d, 2) == Some((digits_value(e, 2)->0 * 2 + digit_value(d.last(), 2)->0) as nat));
        assert(binary_value(d) == 2 * binary_value(e) + (if d.last() == '1' { 1int } else { 0int }));
    } else {
        assert(d.drop_last().len() == 0);
        assert(binary_value(d.drop_last()) == 0);
        assert(binary_value(d) == (if d.last() == '1' { 1int } else { 0int }));
    }
}

/// Decimal digits are the number they write in base 10, and `0b` followed by
/// the digits `0` and `1` is the number those write in base 2, when it fits in
/// an `isize`; a number too large for an `isize` is no number.
#[verifier::spinoff_prover]
pub proof fn lemma_decimal_binary_number_value(d: Seq<char>, b: Seq<char>)
    ensures
        d.len() > 0 && (forall|i: int| 0 <= i < d.len() ==> is_ascii_digit(#[trigger] d[i])) ==> number_value(d)
            == (if decimal_value(d) <= isize::MAX {
            Some(decimal_value(d))
        } else {
            None
        }),
        b.len() > 0 && (forall|i: int| 0 <= i < b.len() ==> (#[trigger] b[i] == '0' || b[i] == '1')) ==> number_value(
            seq!['0', 'b'] + b,
        ) == (if binary_value(b) <= isize::MAX {
            Some(binary_value(b))
        } else {
            None
        }),
{
    if d.len() > 0 && (forall|i: int| 0 <= i < d.len() ==> is_ascii_digit(#[trigger] d[i])) {
        lemma_decimal_digits(d);
        if d.len() >= 2 {
            assert(is_ascii_digit(d[1]));
        }
    }
    if b.len() > 0 && (forall|i: int| 0 <= i < b.len() ==> (#[trigger] b[i] == '0' || b[i] == '1')) {
        let t = seq!['0', 'b'] + b;
        lemma_binary_digits(b);
        assert(t.skip(2) =~= b);
        assert(t[0] == '0' && t[1] == 'b');
    }
}

/// A number written `0x` and hexadecimal digits, up to the first character that
/// is neither an ASCII letter nor a digit, is one token whose value is those
/// digits read in base 16, `A`-`F` and `a`-`f` alike standing for 10 to 15
/// (when the value fits in an `isize`). The lexer skips white space first, and
/// `0` is none (`char::is_whitespace`).
#[verifier::spinoff_prover]
pub proof fn lemma_hex_number(s: Seq<char>, p: int, q: int)
    requires
        0 <= p,
        p + 2 < q <= s.len(),
        s[p] == '0',
        s[p + 1] == 'x',
        forall|i: int| p + 2 <= i < q ==> is_hex_digit(#[trigger] s[i]),
        q == s.len() || !(is_ascii_letter(s[q]) || is_ascii_digit(s[q])),
        hex_value(s.subrange(p + 2, q)) <= isize::MAX,
    ensures
        !is_whitespace_spec(s[p]) ==> alexed(s, p) == tok(
            s,
            SpecTokenType::Int(hex_value(s.subrange(p + 2, q))),
            p,
            q,
        ) && aafter(s, p) == q,
{
    reveal(alexed);
    reveal(aafter);
    let d = s.subrange(p + 2, q);
    let t = s.subrange(p, q);
    assert forall|i: int| p <= i < q implies is_ascii_letter(#[trigger] s[i]) || is_ascii_digit(s[i]) by {
        if i >= p + 2 {
            assert(is_hex_digit(s[i]));
        }
    }
    lemma_number_end_run(s, p, q);
    assert forall|i: int| 0 <= i < d.len() implies is_hex_digit(#[trigger] d[i]) by {
        assert(d[i] == s[p + 2 + i]);
    }
    lemma_hex_number_value(d);
    assert(t =~= seq!['0', 'x'] + d);
}

fn digit_of(c: char, radix: u32) -> (r: Option<u32>)
    requires
        radix == 2 || radix == 10 || radix == 16,
    ensures
        r matches Some(v) ==> digit_value(c, radix as nat) == Some(v as nat),
        r is None ==> digit_value(c, radix as nat) is None,
{
    let u = c as u32;
    let v: u32 = if '0' <= c && c <= '9' {
        u - ('0' as u32)
    } else if 'a' <= c && c <= 'z' {
        u - ('a' as u32) + 10
    } else if 'A' <= c && c <= 'Z' {
        u - ('A' as u32) + 10
    } else {
        radix
    };
    if v < radix {
        Some(v)
    } else {
        None
    }
}

/// The value of the number text `s[q0..q]`, as `number_value` gives it.
#[verifier::spinoff_prover]
fn parse_number(s: &[char], q0: usize, q: usize) -> (r: Option<isize>)
    requires
        q0 <= q <= s@.len(),
    ensures
        r matches Some(v) ==> number_value(s@.subrange(q0 as int, q as int)) == Some(v as int),
        r is None ==> number_value(s@.subrange(q0 as int, q as int)) is None,
{
    let ghost t = s@.subrange(q0 as int, q as int);
    let (d0, radix): (usize, u32) = if q - q0 >= 2 && s[q0] == '0' && s[q0 + 1] == 'x' {
        (q0 + 2, 16)
    } else if q - q0 >= 2 && s[q0] == '0' && s[q0 + 1] == 'b' {
        (q0 + 2, 2)
    } else {
        (q0, 10)
    };
    let ghost d = s@.subrange(d0 as int, q as int);
    assert(d =~= (if t.len() >= 2 && t[0] == '0' && t[1] == 'x' {
        t.skip(2)
    } else if t.len() >= 2 && t[0] == '0' && t[1] == 'b' {
        t.skip(2)
    } else {
        t
    }));
    assert(number_value(t) == (match digits_value(d, radix as nat) {
        Some(v) => if v <= isize::MAX {
            Some(v as int)
        } else {
            None
        },
        None => None,
    }));
    if d0 == q {
        return None;
    }
    let mut v: u128 = 0;
    let mut k: usize = d0;
    while k < q
        invariant
            d0 <= k <= q <= s@.len(),
            d0 < q,
            d == s@.subrange(d0 as int, q as int),
            radix == 2 || radix == 10 || radix == 16,
            v <= isize::MAX,
            k > d0 ==> digits_value(d.take(k - d0), radix as nat) == Some(v as nat),
            k == d0 ==> v == 0,
            number_value(s@.subrange(q0 as int, q as int)) == (match digits_value(d, radix as nat) {
                Some(x) => if x <= isize::MAX {
                    Some(x as int)
                } else {
                    None
                },
                None => None,
            }),
        decreases q - k,
    {
        let dv = match digit_of(s[k], radix) {
            Some(x) => x,
            None => {
                proof {
                    if digits_value(d, radix as nat) is Some {
                        lemma_digits_prefix(d, radix as nat, k - d0 + 1);
                        assert(d.take(k - d0 + 1).last() == s@[k as int]);
                    }
                }
                return None;
            },
        };
        assert(v * (radix as u128) <= 0x7fff_ffff_ffff_ffffu128 * 16) by (nonlinear_arith)
            requires
                v <= 0x7fff_ffff_ffff_ffffu128,
                radix <= 16,
        ;
        let nv: u128 = v * (radix as u128) + (dv as u128);
        proof {
            let dk = d.take(k - d0 + 1);
            assert(dk.last() == s@[k as int]);
            assert(dk.drop_last() =~= d.take(k - d0));
            if k == d0 {
                assert(dk.len() == 1);
            }
        }
        if nv > (isize::MAX as u128) {
            proof {
                if digits_value(d, radix as nat) is Some {
                    lemma_digits_prefix(d, radix as nat, k - d0 + 1);
                }
            }
            return None;
        }
        v = nv;
        k = k + 1;
    }
    proof {
        assert(d.take(q - d0) =~= d);
    }
    Some(v as isize)
}

/// A lexer has read a number of characters.
pub broadcast proof fn lemma_pos_nonneg(t: Tokenizer)
    ensures
        0 <= #[trigger] t.pos(),
{
    lemma_reader_pos(t.reader);
}

/// A well-formed lexer is within its text.
pub broadcast proof fn lemma_wf_bounds(t: Tokenizer)
    ensures
        #[trigger] t.wf() ==> 0 <= t.pos() <= t.source().len() && byte_len(t.source()) < usize::MAX,
{
}

/// A lexer of assembly source.
#[derive(Clone, Copy)]
pub struct Tokenizer<'a> {
    source_map: &'a SourceMap,
    reader: SourceReader<'a>,
}

impl<'a> Tokenizer<'a> {
    /// The text being read.
    pub closed spec fn source(&self) -> Seq<char> {
        self.reader.source()
    }

    /// How many characters have been read.
    pub closed spec fn pos(&self) -> int {
        self.reader.pos()
    }

    /// The reader and the source map agree and are well formed.
    pub closed spec fn wf(&self) -> bool {
        &&& self.reader.wf()
        &&& 0 <= self.reader.pos() <= self.reader.source().len()
        &&& self.source_map.wf()
        &&& self.reader.source() == self.source_map.text()
        &&& byte_len(self.source_map.text()) < usize::MAX
    }

    /// A lexer at the start of the text of `source_map`.
    pub fn new(source_map: &'a SourceMap) -> (t: Tokenizer<'a>)
        requires
            source_map.wf(),
        ensures
            t.wf(),
            t.source() == source_map.text(),
            t.pos() == 0,
    {
        Tokenizer { source_map, reader: source_map.reader() }
    }

    /// The source map that the lexer reads.
    pub fn source_map(&self) -> (r: &'a SourceMap)
        requires
            self.wf(),
        ensures
            r.wf(),
            r.text() == self.source(),
    {
        self.source_map
    }

    fn here(&self) -> (r: (usize, usize, usize))
        requires
            self.wf(),
        ensures
            r.0 == off(self.source(), self.pos()),
            r.1 == line_of(self.source().take(self.pos())),
            r.2 == col_of(self.source().take(self.pos())),
    {
        proof {
            lemma_position_bounds(self.source(), self.pos());
        }
        (self.reader.offset(), self.reader.line(), self.reader.col())
    }

    fn span_from(&self, start: (usize, usize, usize)) -> (r: Span)
        requires
            self.wf(),
        ensures
            r == (Span { start: start.0, end: off(self.source(), self.pos()), line: start.1, col: start.2 }),
    {
        proof {
            lemma_position_bounds(self.source(), self.pos());
        }
        Span { start: start.0, end: self.reader.offset(), line: start.1, col: start.2 }
    }

    fn advance(&mut self)
        requires
            old(self).wf(),
            old(self).pos() < old(self).source().len(),
        ensures
            final(self).wf(),
            final(self).source() == old(self).source(),
            final(self).pos() == old(self).pos() + 1,
    {
        self.reader.next();
    }


    fn position(&self) -> (r: usize)
        requires
            self.wf(),
        ensures
            r == self.pos(),
    {
        self.reader.position()
    }

    fn peek_char(&self) -> (r: Option<(usize, char)>)
        requires
            self.wf(),
        ensures
            self.pos() < self.source().len() ==> r == Some(
                (char_width(self.source()[self.pos()]) as usize, self.source()[self.pos()]),
            ),
            self.pos() >= self.source().len() ==> r is None,
    {
        self.reader.peek()
    }

    fn next_char(&mut self) -> (r: Option<(usize, char)>)
        requires
            old(self).wf(),
        ensures
            final(self).wf(),
            final(self).source() == old(self).source(),
            old(self).pos() < old(self).source().len() ==> {
                &&& r == Some(
                    (
                        char_width(old(self).source()[old(self).pos()]) as usize,
                        old(self).source()[old(self).pos()],
                    ),
                )
                &&& final(self).pos() == old(self).pos() + 1
            },
            old(self).pos() >= old(self).source().len() ==> r is None && final(self).pos()
                == old(self).pos(),
    {
        self.reader.next()
    }

    fn read_number(&mut self) -> (r: Option<Span>)
        requires
            old(self).wf(),
        ensures
            final(self).pos() >= old(self).pos(),
            final(self).wf(),
            final(self).source() == old(self).source(),
            final(self).pos() == number_end(old(self).source(), old(self).pos()),
            final(self).pos() > old(self).pos() ==> r == Some(
                span_between(old(self).source(), old(self).pos(), final(self).pos()),
            ),
            final(self).pos() == old(self).pos() ==> r is None,
    {
        let start = self.here();
        let ghost p0 = self.pos();
        loop
            invariant
                self.wf(),
                self.source() == old(self).source(),
                p0 <= self.pos() <= self.source().len(),
                number_end(self.source(), p0) == number_end(self.source(), self.pos()),
            ensures
                self.wf(),
                self.source() == old(self).source(),
                p0 <= self.pos() <= self.source().len(),
                number_end(self.source(), p0) == self.pos(),
            decreases self.source().len() - self.pos(),
        {
            match self.peek_char() {
                Some((_, c)) => {
                    if ('a' <= c && c <= 'z') || ('A' <= c && c <= 'Z') || ('0' <= c && c <= '9') {
                        self.advance();
                    } else {
                        break;
                    }
                },
                None => break,
            }
        }
        let now = self.here();
        proof {
            lemma_position_bounds(self.source(), p0);
            if p0 < self.pos() {
                lemma_byte_len_prefix(self.source(), p0, self.pos());
            }
        }
        if now.0 == start.0 {
            None
        } else {
            Some(self.span_from(start))
        }
    }

    fn escape_char(&mut self) -> (r: Option<char>)
        requires
            old(self).wf(),
        ensures
            final(self).wf(),
            final(self).source() == old(self).source(),
            old(self).pos() < old(self).source().len() ==> {
                &&& r == escape_of(old(self).source()[old(self).pos()])
                &&& final(self).pos() == old(self).pos() + 1
            },
            old(self).pos() >= old(self).source().len() ==> r is None && final(self).pos()
                == old(self).pos(),
    {
        let (_, c) = match self.next_char() {
            Some(x) => x,
            None => return None,
        };
        match c {
            't' => Some('\t'),
            'n' => Some('\n'),
            'r' => Some('\r'),
            'f' => Some('\x0C'),
            'b' => Some('\x08'),
            'a' => Some('\x07'),
            's' => Some(' '),
            '\'' => Some('\''),
            '"' => Some('"'),
            _ => None,
        }
    }

    fn read_string(&mut self) -> (r: Option<String>)
        requires
            old(self).wf(),
        ensures
            final(self).wf(),
            final(self).source() == old(self).source(),
            final(self).pos() == string_lit(old(self).source(), old(self).pos()).1,
            r matches Some(t) ==> string_lit(old(self).source(), old(self).pos()).0 == Some(t@),
            r is None ==> string_lit(old(self).source(), old(self).pos()).0 is None,
    {
        let ghost s = self.source();
        let ghost p0 = self.pos();
        let mut content = String::new();
        loop
            invariant
                self.wf(),
                self.source() == s,
                s == old(self).source(),
                p0 == old(self).pos(),
                p0 <= self.pos() <= s.len(),
                string_lit(s, p0).1 == string_lit(s, self.pos()).1,
                string_lit(s, p0).0 == (match string_lit(s, self.pos()).0 {
                    Some(t) => Some(content@ + t),
                    None => None,
                }),
            ensures
                self.wf(),
                self.source() == s,
                string_lit(s, p0).1 == string_lit(s, self.pos()).1,
                string_lit(s, p0).0 == (match string_lit(s, self.pos()).0 {
                    Some(t) => Some(content@ + t),
                    None => None,
                }),
                self.pos() >= s.len() || s[self.pos()] == '"',
            decreases s.len() - self.pos(),
        {
            let (_, c) = match self.peek_char() {
                Some(x) => x,
                None => break,
            };
            if c == '"' {
                break;
            }
            let ghost before = content@;
            self.advance();
            if c == '\\' {
                match self.escape_char() {
                    Some(e) => {
                        push_char(&mut content, e);
                        proof {
                            let (r2, _) = string_lit(s, self.pos());
                            match r2 {
                                Some(t) => {
                                    assert(before + (seq![e] + t) =~= content@ + t);
                                },
                                None => {},
                            }
                        }
                    },
                    None => {
                        assert(self.source() == s);
                        return None;
                    },
                }
            } else {
                push_char(&mut content, c);
                proof {
                    let (r2, _) = string_lit(s, self.pos());
                    match r2 {
                        Some(t) => {
                            assert(before + (seq![c] + t) =~= content@ + t);
                        },
                        None => {},
                    }
                }
            }
        }
        match self.next_char() {
            Some(_) => {
                assert(content@ + Seq::<char>::empty() =~= content@);
                Some(content)
            },
            None => None,
        }
    }


    /// Reads the next token: `None` at the end of the text, otherwise the token
    /// or the lexical error that `lex_from` describes.
    pub fn next(&mut self) -> (r: Option<Result<Token, TokenizerError>>)
        requires
            old(self).wf(),
        ensures
            final(self).wf(),
            final(self).source() == old(self).source(),
            lexed_view(r) == lex_from(old(self).source(), old(self).pos(), false).0,
            final(self).pos() == lex_from(old(self).source(), old(self).pos(), false).1,
    {
        let ghost s = self.source();
        let ghost p0 = self.pos();
        let mut comment = false;
        loop
            invariant
                self.wf(),
                self.source() == s,
                s == old(self).source(),
                p0 == old(self).pos(),
                0 <= self.pos() <= s.len(),
                lex_from(s, p0, false) == lex_from(s, self.pos(), comment),
            decreases s.len() - self.pos(),
        {
            let ghost p = self.pos();
            let (len, c) = match self.peek_char() {
                Some(x) => x,
                None => return None,
            };
            let start = self.here();
            proof {
                lemma_off_next(s, p);
                lemma_position_bounds(s, p);
                lemma_position_bounds(s, p + 1);
            }
            if c == '#' {
                comment = true;
                self.advance();
                continue;
            }
            if c == '\\' {
                self.advance();
                match self.peek_char() {
                    Some((len2, c2)) => {
                        if c2 == '\n' {
                            self.advance();
                            continue;
                        }
                        let start2 = self.here();
                        proof {
                            lemma_off_next(s, p + 1);
                        }
                        return Some(
                            Err(
                                TokenizerError {
                                    span: Span {
                                        start: start2.0,
                                        end: start2.0 + len2,
                                        line: start2.1,
                                        col: start2.2,
                                    },
                                    error_type: TokenizerErrorType::UnexpectedCharacter,
                                },
                            ),
                        );
                    },
                    None => {
                        return Some(
                            Err(
                                TokenizerError {
                                    span: Span {
                                        start: start.0,
                                        end: start.0 + len,
                                        line: start.1,
                                        col: start.2,
                                    },
                                    error_type: TokenizerErrorType::UnexpectedCharacter,
                                },
                            ),
                        );
                    },
                }
            }
            if c == '\n' {
                self.advance();
                return Some(Ok(Token { token_type: TokenType::Newline, span: self.span_from(start) }));
            }
            if comment {
                self.advance();
                continue;
            }
            if is_whitespace(c) {
                self.advance();
                continue;
            }
            if c == '.' {
                self.advance();
                match self.read_identifier() {
                    Some(span) => {
                        assert(!comment);
                        assert(lex_from(s, p, comment) == (
                            tok(s, SpecTokenType::Directive, p, self.pos()),
                            self.pos(),
                        ));
                        return Some(
                            Ok(
                                Token {
                                    token_type: TokenType::Directive,
                                    span: Span {
                                        start: start.0,
                                        end: span.end,
                                        line: start.1,
                                        col: start.2,
                                    },
                                },
                            ),
                        );
                    },
                    None => {
                        return Some(
                            Err(
                                TokenizerError {
                                    error_type: TokenizerErrorType::InvalidDirective,
                                    span: self.span_from(start),
                                },
                            ),
                        );
                    },
                }
            }
            if c == '\'' {
                self.advance();
                let n: Option<isize> = self.read_char_literal();
                let span = self.span_from(start);
                match n {
                    Some(n) => {
                        return Some(Ok(Token { token_type: TokenType::Int(n), span }));
                    },
                    None => {
                        return Some(
                            Err(TokenizerError { error_type: TokenizerErrorType::UnendedChar, span }),
                        );
                    },
                }
            }
            if c == '"' {
                self.advance();
                let r = self.read_string();
                let span = self.span_from(start);
                match r {
                    Some(content) => {
                        return Some(Ok(Token { token_type: TokenType::String(content), span }));
                    },
                    None => {
                        return Some(
                            Err(TokenizerError { error_type: TokenizerErrorType::UnendedString, span }),
                        );
                    },
                }
            }
            if c == ';' || c == ':' || c == ',' {
                self.advance();
                let token_type = if c == ';' {
                    TokenType::Semicolon
                } else if c == ':' {
                    TokenType::Colon
                } else {
                    TokenType::Comma
                };
                return Some(Ok(Token { token_type, span: self.span_from(start) }));
            }
            if c == '-' || ('0' <= c && c <= '9') {
                let negative = c == '-';
                if negative {
                    self.advance();
                }
                let q0 = self.position();
                match self.read_number() {
                    Some(span) => {
                        let q = self.position();
                        let span = Span { start: start.0, end: span.end, line: start.1, col: start.2 };
                        match parse_number(self.source_map.chars(), q0, q) {
                            Some(n) => {
                                let v = if negative {
                                    -n
                                } else {
                                    n
                                };
                                return Some(Ok(Token { token_type: TokenType::Int(v), span }));
                            },
                            None => {
                                return Some(
                                    Err(TokenizerError { span, error_type: TokenizerErrorType::InvalidNumber }),
                                );
                            },
                        }
                    },
                    None => {
                        return Some(
                            Err(
                                TokenizerError {
                                    span: Span {
                                        start: start.0,
                                        end: start.0 + len,
                                        line: start.1,
                                        col: start.2,
                                    },
                                    error_type: TokenizerErrorType::InvalidNumber,
                                },
                            ),
                        );
                    },
                }
            }
            if is_alphabetic(c) {
                match self.read_identifier() {
                    Some(span) => {
                        return Some(Ok(Token { token_type: TokenType::Identifier, span }));
                    },
                    None => {
                        self.advance();
                        continue;
                    },
                }
            }
            self.advance();
            return Some(
                Err(
                    TokenizerError {
                        span: self.span_from(start),
                        error_type: TokenizerErrorType::UnexpectedCharacter,
                    },
                ),
            );
        }
    }

    fn read_char_literal(&mut self) -> (r: Option<isize>)
        requires
            old(self).wf(),
        ensures
            final(self).wf(),
            final(self).source() == old(self).source(),
            final(self).pos() == char_lit(old(self).source(), old(self).pos()).1,
            r matches Some(n) ==> char_lit(old(self).source(), old(self).pos()).0 == Some(n as int),
            r is None ==> char_lit(old(self).source(), old(self).pos()).0 is None,
    {
        let (_, c) = match self.next_char() {
            Some(x) => x,
            None => return None,
        };
        if c == '\n' {
            return None;
        }
        let n = if c == '\\' {
            match self.escape_char() {
                Some(e) => e,
                None => return None,
            }
        } else {
            c
        };
        let (_, c2) = match self.next_char() {
            Some(x) => x,
            None => return None,
        };
        if c2 != '\'' {
            None
        } else {
            let u = n as u32;
            proof {
                vstd::utf8::char_is_scalar(n);
                assert(u < 0x110000);
            }
            Some(u as isize)
        }
    }

    fn read_identifier(&mut self) -> (r: Option<Span>)
        requires
            old(self).wf(),
        ensures
            final(self).pos() >= old(self).pos(),
            final(self).wf(),
            final(self).source() == old(self).source(),
            final(self).pos() == identifier_end(old(self).source(), old(self).pos()),
            final(self).pos() > old(self).pos() ==> r == Some(
                span_between(old(self).source(), old(self).pos(), final(self).pos()),
            ),
            final(self).pos() == old(self).pos() ==> r is None,
    {
        let start = self.here();
        let ghost p0 = self.pos();
        loop
            invariant
                self.wf(),
                self.source() == old(self).source(),
                p0 <= self.pos() <= self.source().len(),
                identifier_end(self.source(), p0) == identifier_end(self.source(), self.pos()),
            ensures
                self.wf(),
                self.source() == old(self).source(),
                p0 <= self.pos() <= self.source().len(),
                identifier_end(self.source(), p0) == self.pos(),
            decreases self.source().len() - self.pos(),
        {
            match self.reader.peek() {
                Some((_, c)) => {
                    if is_alphanumeric(c) || c == '_' {
                        self.advance();
                    } else {
                        break;
                    }
                },
                None => break,
            }
        }
        let now = self.here();
        proof {
            lemma_position_bounds(self.source(), p0);
            if p0 < self.pos() {
                lemma_byte_len_prefix(self.source(), p0, self.pos());
            }
        }
        if now.0 == start.0 {
            None
        } else {
            Some(self.span_from(start))
        }
    }
}

} // verus!
