use crate::parsers::assembly::keyword_map::{KeywordMap, pow2};
use crate::parsers::assembly::tokenizer::{
    SpecToken, SpecTokenType, Token, TokenType, Tokenizer, TokenizerError, TokenizerErrorType, aafter,
    alexed, lexed_view,
};
use crate::parsers::lines::slice_to_vec;
use crate::parsers::text::str_chars;
use crate::parsers::source_map::{SourceMap, Span, end_span, line_text, span_text};
use vstd::prelude::*;

verus! {

broadcast use crate::parsers::assembly::tokenizer::lemma_aafter_advances, crate::parsers::assembly::tokenizer::lemma_wf_bounds;

/// The kinds of error in an assembly program.
#[derive(Debug, Clone, PartialEq, Eq)]
pub enum ParsingErrorType {
    TokenError(TokenizerErrorType),
    UnexpectedToken(Token, TokenType),
    UnrecognizedSession(String),
    UnrecognizedKeyword(String),
    UnrecognizedLabel(String),
    UnexpectedEnd,
    NumberTooLow(isize, isize),
    NumberTooHigh(isize, isize),
    UnsupportedDirective(String),
    DuplicatedLabel(String),
    NotASection(Token),
    NotAnArgument(Token),
}

/// The kind of an error as a mathematical value.
pub enum SpecErrorType {
    TokenError(TokenizerErrorType),
    UnexpectedToken(SpecToken, SpecTokenType),
    UnrecognizedSession(Seq<char>),
    UnrecognizedKeyword(Seq<char>),
    UnrecognizedLabel(Seq<char>),
    UnexpectedEnd,
    NumberTooLow(int, int),
    NumberTooHigh(int, int),
    UnsupportedDirective(Seq<char>),
    DuplicatedLabel(Seq<char>),
    NotASection(SpecToken),
    NotAnArgument(SpecToken),
}

impl View for ParsingErrorType {
    type V = SpecErrorType;

    open spec fn view(&self) -> SpecErrorType {
        match self {
            ParsingErrorType::TokenError(e) => SpecErrorType::TokenError(*e),
            ParsingErrorType::UnexpectedToken(t, k) => SpecErrorType::UnexpectedToken(t@, k@),
            ParsingErrorType::UnrecognizedSession(x) => SpecErrorType::UnrecognizedSession(x@),
            ParsingErrorType::UnrecognizedKeyword(x) => SpecErrorType::UnrecognizedKeyword(x@),
            ParsingErrorType::UnrecognizedLabel(x) => SpecErrorType::UnrecognizedLabel(x@),
            ParsingErrorType::UnexpectedEnd => SpecErrorType::UnexpectedEnd,
            ParsingErrorType::NumberTooLow(a, b) => SpecErrorType::NumberTooLow(*a as int, *b as int),
            ParsingErrorType::NumberTooHigh(a, b) => SpecErrorType::NumberTooHigh(*a as int, *b as int),
            ParsingErrorType::UnsupportedDirective(x) => SpecErrorType::UnsupportedDirective(x@),
            ParsingErrorType::DuplicatedLabel(x) => SpecErrorType::DuplicatedLabel(x@),
            ParsingErrorType::NotASection(t) => SpecErrorType::NotASection(t@),
            ParsingErrorType::NotAnArgument(t) => SpecErrorType::NotAnArgument(t@),
        }
    }
}

/// An error in an assembly program and where it was found.
#[derive(Debug, Clone, PartialEq, Eq)]
pub struct ParsingError {
    pub span: Span,
    pub error_type: ParsingErrorType,
}

/// An error as a mathematical value.
pub struct SpecError {
    pub span: Span,
    pub error_type: SpecErrorType,
}

impl View for ParsingError {
    type V = SpecError;

    open spec fn view(&self) -> SpecError {
        SpecError { span: self.span, error_type: self.error_type@ }
    }
}

/// The error that an assembly program was refused with.
#[derive(Debug, Clone, PartialEq, Eq)]
pub struct ASMParsingError {
    pub span: Span,
    pub error_type: ParsingErrorType,
}

/// An assembled instruction: the text of its line and its word in binary.
#[derive(Debug, Clone)]
pub struct Instruction {
    pub content: String,
    pub bin: String,
}

/// What an assembly program becomes: the initial data segment, the instruction
/// words, and the instructions with their source lines.
#[derive(Debug)]
pub struct ParserResult {
    pub data_mem: Vec<u16>,
    pub ins_mem: Vec<u16>,
    pub instructions: Vec<Instruction>,
}

/// The argument of an instruction as written: a label or a number.
#[derive(Debug, Clone)]
pub enum PreInstructionArg {
    Label(Vec<char>),
    Int(isize),
}

/// An argument as a mathematical value.
pub enum SpecArg {
    Label(Seq<char>),
    Int(int),
}

/// An instruction read but not yet assembled: where its keyword is, the
/// keyword's opcode, and the argument with its width in bits and its span.
#[derive(Debug, Clone)]
pub struct PreInstruction {
    pub keyword_span: Span,
    pub keyword_val: usize,
    pub argument: Option<(usize, Span, PreInstructionArg)>,
}

/// An instruction read but not yet assembled, as a mathematical value.
pub struct SpecPre {
    pub keyword_span: Span,
    pub keyword_val: usize,
    pub argument: Option<(usize, Span, SpecArg)>,
}

impl View for PreInstruction {
    type V = SpecPre;

    open spec fn view(&self) -> SpecPre {
        SpecPre {
            keyword_span: self.keyword_span,
            keyword_val: self.keyword_val,
            argument: match self.argument {
                Some((w, sp, PreInstructionArg::Label(l))) => Some((w, sp, SpecArg::Label(l@))),
                Some((w, sp, PreInstructionArg::Int(n))) => Some((w, sp, SpecArg::Int(n as int))),
                None => None,
            },
        }
    }
}

/// What has been read of a program: the data segment, the instructions, and the
/// labels of data and of instructions with their addresses.
pub struct AsmState {
    pub data: Seq<u16>,
    pub pre: Seq<SpecPre>,
    pub data_labels: Seq<(Seq<char>, usize)>,
    pub ins_labels: Seq<(Seq<char>, usize)>,
}

/// Nothing read yet.
pub open spec fn empty_state() -> AsmState {
    AsmState { data: Seq::empty(), pre: Seq::empty(), data_labels: Seq::empty(), ins_labels: Seq::empty() }
}

// ---------------------------------------------------------------------------
// The grammar and its meaning, over the source text `s` and a position `p`.
// ---------------------------------------------------------------------------

/// The text of a span of `s`.
pub open spec fn text(s: Seq<char>, sp: Span) -> Seq<char> {
    span_text(s, sp.start as int, sp.end as int)
}

/// The error a lexical error becomes.
pub open spec fn tok_error(te: TokenizerError) -> SpecError {
    SpecError { span: te.span, error_type: SpecErrorType::TokenError(te.error_type) }
}

/// Reads the next token; at the end of the text, `UnexpectedEnd`.
pub open spec fn a_next(s: Seq<char>, p: int) -> Result<(SpecToken, int), SpecError> {
    match alexed(s, p) {
        None => Err(SpecError { span: end_span(s), error_type: SpecErrorType::UnexpectedEnd }),
        Some(Err(te)) => Err(tok_error(te)),
        Some(Ok(t)) => Ok((t, aafter(s, p))),
    }
}

/// The kind of the next token, without reading it.
pub open spec fn a_peek(s: Seq<char>, p: int) -> Result<Option<SpecTokenType>, SpecError> {
    match alexed(s, p) {
        None => Ok(None),
        Some(Err(te)) => Err(tok_error(te)),
        Some(Ok(t)) => Ok(Some(t.token_type)),
    }
}

/// Two kinds of token are of the same variant, whatever they hold.
pub open spec fn same_kind(a: SpecTokenType, b: SpecTokenType) -> bool {
    match (a, b) {
        (SpecTokenType::Identifier, SpecTokenType::Identifier) => true,
        (SpecTokenType::Directive, SpecTokenType::Directive) => true,
        (SpecTokenType::Semicolon, SpecTokenType::Semicolon) => true,
        (SpecTokenType::Colon, SpecTokenType::Colon) => true,
        (SpecTokenType::Comma, SpecTokenType::Comma) => true,
        (SpecTokenType::String(_), SpecTokenType::String(_)) => true,
        (SpecTokenType::Int(_), SpecTokenType::Int(_)) => true,
        (SpecTokenType::Newline, SpecTokenType::Newline) => true,
        _ => false,
    }
}

/// Reads a token of the variant of `typ`.
pub open spec fn a_expect(s: Seq<char>, p: int, typ: SpecTokenType) -> Result<(SpecToken, int), SpecError> {
    match a_next(s, p) {
        Err(e) => Err(e),
        Ok((t, q)) => if same_kind(t.token_type, typ) {
            Ok((t, q))
        } else {
            Err(SpecError { span: t.span, error_type: SpecErrorType::UnexpectedToken(t, typ) })
        },
    }
}

/// Skips tokens of kind `typ`.
pub open spec fn a_burn(s: Seq<char>, p: int, typ: SpecTokenType) -> Result<int, SpecError>
    decreases s.len() - p,
    when 0 <= p <= s.len()
{
    match a_peek(s, p) {
        Err(e) => Err(e),
        Ok(Some(t)) => if t == typ {
            a_burn(s, aafter(s, p), typ)
        } else {
            Ok(p)
        },
        Ok(None) => Ok(p),
    }
}

/// Skipping tokens never moves back and stays within the text.
pub proof fn lemma_burn_advances(s: Seq<char>, p: int, typ: SpecTokenType)
    requires
        0 <= p <= s.len(),
    ensures
        a_burn(s, p, typ) matches Ok(q) ==> p <= q <= s.len(),
    decreases s.len() - p,
{
    match a_peek(s, p) {
        Ok(Some(t)) => if t == typ {
            lemma_burn_advances(s, aafter(s, p), typ);
        },
        _ => {},
    }
}

/// Skips line feeds and semicolons.
pub open spec fn a_burn_ends(s: Seq<char>, p: int) -> Result<int, SpecError>
    decreases s.len() - p,
    when 0 <= p <= s.len()
{
    match a_peek(s, p) {
        Err(e) => Err(e),
        Ok(Some(SpecTokenType::Newline)) => a_burn_ends(s, aafter(s, p)),
        Ok(Some(SpecTokenType::Semicolon)) => a_burn_ends(s, aafter(s, p)),
        Ok(_) => Ok(p),
    }
}

/// The end of a line: a line feed (unless the text ends), then any line feeds
/// and semicolons.
pub open spec fn a_expect_newline(s: Seq<char>, p: int) -> Result<int, SpecError> {
    if alexed(s, p) is Some {
        match a_expect(s, p, SpecTokenType::Newline) {
            Err(e) => Err(e),
            Ok((_, q)) => a_burn_ends(s, q),
        }
    } else {
        a_burn_ends(s, p)
    }
}

/// The address of a label in a list of labels.
pub open spec fn find_label(labels: Seq<(Seq<char>, usize)>, name: Seq<char>) -> Option<usize>
    decreases labels.len(),
{
    if labels.len() == 0 {
        None
    } else if labels.last().0 == name {
        Some(labels.last().1)
    } else {
        find_label(labels.drop_last(), name)
    }
}

/// Adds a label of data (`data`) or of an instruction at `addr`; a name can be
/// defined once, as data or as an instruction.
pub open spec fn add_label(st: AsmState, name: Seq<char>, addr: usize, data: bool) -> Result<AsmState, SpecErrorType> {
    if find_label(st.data_labels, name) is Some || find_label(st.ins_labels, name) is Some {
        Err(SpecErrorType::DuplicatedLabel(name))
    } else if data {
        Ok(AsmState { data_labels: st.data_labels.push((name, addr)), ..st })
    } else {
        Ok(AsmState { ins_labels: st.ins_labels.push((name, addr)), ..st })
    }
}

/// The words of the characters of a string, one each (the character's code,
/// cut to 16 bits).
pub open spec fn string_words(v: Seq<char>) -> Seq<u16> {
    Seq::new(v.len(), |i: int| (v[i] as u32) as u16)
}

/// The numbers of a `.word` or `.byte` directive, separated by commas, each
/// within `min..=max`, appended to the data segment.
pub open spec fn add_number(s: Seq<char>, p: int, st: AsmState, min: int, max: int) -> Result<(AsmState, int), SpecError>
    decreases s.len() - p,
    when 0 <= p <= s.len()
{
    match a_burn(s, p, SpecTokenType::Newline) {
        Err(e) => Err(e),
        Ok(p1) => match a_expect(s, p1, SpecTokenType::Int(0)) {
            Err(e) => Err(e),
            Ok((t, p2)) => {
                let n = t.token_type->Int_0;
                if n < min {
                    Err(SpecError { span: t.span, error_type: SpecErrorType::NumberTooLow(n, min) })
                } else if n > max {
                    Err(SpecError { span: t.span, error_type: SpecErrorType::NumberTooHigh(n, max) })
                } else {
                    let st1 = AsmState { data: st.data.push(n as u16), ..st };
                    match a_peek(s, p2) {
                        Err(e) => Err(e),
                        Ok(Some(SpecTokenType::Comma)) => match a_burn(s, p2, SpecTokenType::Newline) {
                            Err(e) => Err(e),
                            Ok(p3) => {
                                proof {
                                    lemma_burn_advances(s, p, SpecTokenType::Newline);
                                    assert(p3 == p2);
                                }
                                add_number(s, aafter(s, p3), st1, min, max)
                            },
                        },
                        Ok(_) => Ok((st1, p2)),
                    }
                }
            },
        },
    }
}

/// A string literal appended to the data segment.
pub open spec fn add_string(s: Seq<char>, p: int, st: AsmState) -> Result<(AsmState, int), SpecError> {
    match a_expect(s, p, SpecTokenType::String(Seq::empty())) {
        Err(e) => Err(e),
        Ok((t, q)) => Ok((AsmState { data: st.data + string_words(t.token_type->String_0), ..st }, q)),
    }
}

/// The value of a directive once its name `d` was read (`p` after it, line feeds
/// skipped): `.ascii`, `.asciz`/`.asciiz` (with a final 0), `.word`, `.byte`,
/// `.space n` (n bytes, as half as many words, rounded up).
pub open spec fn read_directive(s: Seq<char>, p: int, st: AsmState, dir: SpecToken) -> Result<(AsmState, int), SpecError> {
    let d = text(s, dir.span);
    if d == seq!['.', 'a', 's', 'c', 'i', 'i'] {
        add_string(s, p, st)
    } else if d == seq!['.', 'a', 's', 'c', 'i', 'z'] || d == seq!['.', 'a', 's', 'c', 'i', 'i', 'z'] {
        match a_burn(s, p, SpecTokenType::Newline) {
            Err(e) => Err(e),
            Ok(p1) => match add_string(s, p1, st) {
                Err(e) => Err(e),
                Ok((st1, q)) => Ok((AsmState { data: st1.data.push(0), ..st1 }, q)),
            },
        }
    } else if d == seq!['.', 'w', 'o', 'r', 'd'] {
        add_number(s, p, st, -32768, 65535)
    } else if d == seq!['.', 'b', 'y', 't', 'e'] {
        add_number(s, p, st, -128, 255)
    } else if d == seq!['.', 's', 'p', 'a', 'c', 'e'] {
        match a_expect(s, p, SpecTokenType::Int(0)) {
            Err(e) => Err(e),
            Ok((t, q)) => {
                let n = t.token_type->Int_0;
                if n < 0 {
                    Err(SpecError { span: t.span, error_type: SpecErrorType::NumberTooLow(n, 0) })
                } else {
                    Ok((AsmState { data: st.data + Seq::new(((n + 1) / 2) as nat, |i: int| 0u16), ..st }, q))
                }
            },
        }
    } else {
        Err(SpecError { span: dir.span, error_type: SpecErrorType::UnsupportedDirective(d) })
    }
}

/// One entry of the data section: `label: .directive values`, then the end of
/// the line.
pub open spec fn read_data_entry(s: Seq<char>, p: int, st: AsmState) -> Result<(AsmState, int), SpecError> {
    match a_burn(s, p, SpecTokenType::Newline) {
        Err(e) => Err(e),
        Ok(p0) => match a_expect(s, p0, SpecTokenType::Identifier) {
            Err(e) => Err(e),
            Ok((t, p1)) => match a_expect(s, p1, SpecTokenType::Colon) {
                Err(e) => Err(e),
                Ok((_, p2)) => match a_burn(s, p2, SpecTokenType::Newline) {
                    Err(e) => Err(e),
                    Ok(p3) => match a_expect(s, p3, SpecTokenType::Directive) {
                        Err(e) => Err(e),
                        Ok((dir, p4)) => match a_burn(s, p4, SpecTokenType::Newline) {
                            Err(e) => Err(e),
                            Ok(p5) => match read_directive(s, p5, st, dir) {
                                Err(e) => Err(e),
                                Ok((st1, q)) => match add_label(st1, text(s, t.span), st.data.len() as usize, true) {
                                    Err(et) => Err(SpecError { span: t.span, error_type: et }),
                                    Ok(st2) => match a_burn(s, q, SpecTokenType::Semicolon) {
                                        Err(e) => Err(e),
                                        Ok(q2) => match a_expect_newline(s, q2) {
                                            Err(e) => Err(e),
                                            Ok(q3) => Ok((st2, q3)),
                                        },
                                    },
                                },
                            },
                        },
                    },
                },
            },
        },
    }
}

/// Skipping line ends never moves back and stays within the text.
pub proof fn lemma_burn_ends_advances(s: Seq<char>, p: int)
    requires
        0 <= p <= s.len(),
    ensures
        a_burn_ends(s, p) matches Ok(q) ==> p <= q <= s.len(),
    decreases s.len() - p,
{
    match a_peek(s, p) {
        Ok(Some(SpecTokenType::Newline)) => lemma_burn_ends_advances(s, aafter(s, p)),
        Ok(Some(SpecTokenType::Semicolon)) => lemma_burn_ends_advances(s, aafter(s, p)),
        _ => {},
    }
}

/// The end of a line never moves back and stays within the text.
pub proof fn lemma_newline_advances(s: Seq<char>, p: int)
    requires
        0 <= p <= s.len(),
    ensures
        a_expect_newline(s, p) matches Ok(q) ==> p <= q <= s.len(),
{
    lemma_burn_ends_advances(s, p);
    if alexed(s, p) is Some {
        match a_expect(s, p, SpecTokenType::Newline) {
            Ok((_, q)) => lemma_burn_ends_advances(s, q),
            _ => {},
        }
    }
}

/// The string directives: `.ascii` stores the characters of the string literal
/// that follows it, one word each holding the character's code, and nothing
/// else, so the data segment grows by exactly the string's length; `.asciz` and
/// `.asciiz` store them and then one 0. Nothing but the data segment changes.
pub proof fn lemma_string_directives(s: Seq<char>, p: int, st: AsmState, dir: SpecToken)
    requires
        read_directive(s, p, st, dir) is Ok,
    ensures
        ({
            let (st1, q) = read_directive(s, p, st, dir)->Ok_0;
            let d = text(s, dir.span);
            let n = st.data.len() as int;
            &&& d == seq!['.', 'a', 's', 'c', 'i', 'i'] ==> (alexed(s, p) matches Some(Ok(t))
                && (t.token_type matches SpecTokenType::String(v) && {
                &&& q == aafter(s, p)
                &&& st1.data.len() == n + v.len()
                &&& st1.data.take(n) == st.data
                &&& forall|i: int| 0 <= i < v.len() ==> #[trigger] st1.data[n + i] == (v[i] as u32) as u16
            }))
            &&& (d == seq!['.', 'a', 's', 'c', 'i', 'z'] || d == seq!['.', 'a', 's', 'c', 'i', 'i', 'z'])
                ==> (a_burn(s, p, SpecTokenType::Newline) matches Ok(p1) && (alexed(s, p1) matches Some(Ok(t))
                && (t.token_type matches SpecTokenType::String(v) && {
                &&& q == aafter(s, p1)
                &&& st1.data.len() == n + v.len() + 1
                &&& st1.data.take(n) == st.data
                &&& forall|i: int| 0 <= i < v.len() ==> #[trigger] st1.data[n + i] == (v[i] as u32) as u16
                &&& st1.data[n + v.len()] == 0
            })))
            &&& (d == seq!['.', 'a', 's', 'c', 'i', 'i'] || d == seq!['.', 'a', 's', 'c', 'i', 'z'] || d == seq![
                '.',
                'a',
                's',
                'c',
                'i',
                'i',
                'z',
            ]) ==> st1.pre == st.pre && st1.data_labels == st.data_labels && st1.ins_labels == st.ins_labels
        }),
{
    let (st1, q) = read_directive(s, p, st, dir)->Ok_0;
    let d = text(s, dir.span);
    let n = st.data.len() as int;
    let ascii = seq!['.', 'a', 's', 'c', 'i', 'i'];
    let asciz = seq!['.', 'a', 's', 'c', 'i', 'z'];
    let asciiz = seq!['.', 'a', 's', 'c', 'i', 'i', 'z'];
    assert(ascii.len() == 6 && ascii[5] == 'i' && asciz.len() == 6 && asciz[5] == 'z' && asciiz.len() == 7);
    assert(ascii != asciz);
    assert(ascii != asciiz);
    if d == seq!['.', 'a', 's', 'c', 'i', 'i'] {
        let (t, q0) = a_expect(s, p, SpecTokenType::String(Seq::empty()))->Ok_0;
        let v = t.token_type->String_0;
        assert(st1.data == st.data + string_words(v));
        assert(st1.data.take(n) =~= st.data);
    } else if d == seq!['.', 'a', 's', 'c', 'i', 'z'] || d == seq!['.', 'a', 's', 'c', 'i', 'i', 'z'] {
        let p1 = a_burn(s, p, SpecTokenType::Newline)->Ok_0;
        let (t, q0) = a_expect(s, p1, SpecTokenType::String(Seq::empty()))->Ok_0;
        let v = t.token_type->String_0;
        assert(st1.data == (st.data + string_words(v)).push(0));
        assert(st1.data.take(n) =~= st.data);
        assert(st1.data[n + v.len()] == 0);
        assert(forall|i: int| 0 <= i < v.len() ==> #[trigger] st1.data[n + i] == (v[i] as u32) as u16);
    }
}

/// The numbers of a directive never end before they start.
pub proof fn lemma_number_advances(s: Seq<char>, p: int, st: AsmState, min: int, max: int)
    requires
        0 <= p <= s.len(),
    ensures
        add_number(s, p, st, min, max) matches Ok((_, q)) ==> p <= q <= s.len(),
    decreases s.len() - p,
{
    lemma_burn_advances(s, p, SpecTokenType::Newline);
    match a_burn(s, p, SpecTokenType::Newline) {
        Ok(p1) => match a_expect(s, p1, SpecTokenType::Int(0)) {
            Ok((t, p2)) => {
                lemma_burn_advances(s, p2, SpecTokenType::Newline);
                match a_burn(s, p2, SpecTokenType::Newline) {
                    Ok(p3) => {
                        if alexed(s, p3) is Some {
                            lemma_number_advances(s, aafter(s, p3), AsmState { data: st.data.push((t.token_type->Int_0) as u16), ..st }, min, max);
                        }
                    },
                    _ => {},
                }
            },
            _ => {},
        },
        _ => {},
    }
}

/// A data entry ends after its label.
pub proof fn lemma_data_entry_advances(s: Seq<char>, p: int, st: AsmState)
    requires
        0 <= p <= s.len(),
    ensures
        read_data_entry(s, p, st) matches Ok((_, q)) ==> p < q <= s.len(),
{
    lemma_burn_advances(s, p, SpecTokenType::Newline);
    match a_burn(s, p, SpecTokenType::Newline) {
        Ok(p0) => match a_expect(s, p0, SpecTokenType::Identifier) {
            Ok((t, p1)) => match a_expect(s, p1, SpecTokenType::Colon) {
                Ok((_, p2)) => {
                    lemma_burn_advances(s, p2, SpecTokenType::Newline);
                    match a_burn(s, p2, SpecTokenType::Newline) {
                        Ok(p3) => match a_expect(s, p3, SpecTokenType::Directive) {
                            Ok((dir, p4)) => {
                                lemma_burn_advances(s, p4, SpecTokenType::Newline);
                                match a_burn(s, p4, SpecTokenType::Newline) {
                                    Ok(p5) => {
                                        lemma_number_advances(s, p5, st, -32768, 65535);
                                        lemma_number_advances(s, p5, st, -128, 255);
                                        lemma_burn_advances(s, p5, SpecTokenType::Newline);
                                        match read_directive(s, p5, st, dir) {
                                            Ok((st1, q)) => {
                                                lemma_burn_advances(s, q, SpecTokenType::Semicolon);
                                                match a_burn(s, q, SpecTokenType::Semicolon) {
                                                    Ok(q2) => lemma_newline_advances(s, q2),
                                                    _ => {},
                                                }
                                            },
                                            _ => {},
                                        }
                                    },
                                    _ => {},
                                }
                            },
                            _ => {},
                        },
                        _ => {},
                    }
                },
                _ => {},
            },
            _ => {},
        },
        _ => {},
    }
}

/// The entries of the data section, while the next token is a label.
pub open spec fn data_loop(s: Seq<char>, p: int, st: AsmState) -> Result<(AsmState, int), SpecError>
    decreases s.len() - p,
    when 0 <= p <= s.len()
{
    match a_peek(s, p) {
        Err(e) => Err(e),
        Ok(Some(SpecTokenType::Identifier)) => match read_data_entry(s, p, st) {
            Err(e) => Err(e),
            Ok((st1, q)) => {
                proof {
                    lemma_data_entry_advances(s, p, st);
                }
                data_loop(s, q, st1)
            },
        },
        Ok(_) => Ok((st, p)),
    }
}

/// The data section, after its `.data`.
pub open spec fn read_data(s: Seq<char>, p: int, st: AsmState) -> Result<(AsmState, int), SpecError> {
    match a_burn(s, p, SpecTokenType::Newline) {
        Err(e) => Err(e),
        Ok(p1) => data_loop(s, p1, st),
    }
}

/// The instruction that a keyword token `t1` (with opcode `val` and argument
/// width `arg`) starts: no argument when the width is 0, otherwise a label or
/// a number.
pub open spec fn read_instruction(s: Seq<char>, p: int, st: AsmState, t1: SpecToken, val: usize, arg: usize) -> Result<
    (AsmState, int),
    SpecError,
> {
    if arg == 0 {
        Ok((AsmState { pre: st.pre.push(SpecPre { keyword_span: t1.span, keyword_val: val, argument: None }), ..st }, p))
    } else {
        match a_next(s, p) {
            Err(e) => Err(e),
            Ok((t2, q)) => match t2.token_type {
                SpecTokenType::Identifier => Ok(
                    (
                        AsmState {
                            pre: st.pre.push(
                                SpecPre {
                                    keyword_span: t1.span,
                                    keyword_val: val,
                                    argument: Some((arg, t2.span, SpecArg::Label(text(s, t2.span)))),
                                },
                            ),
                            ..st
                        },
                        q,
                    ),
                ),
                SpecTokenType::Int(n) => Ok(
                    (
                        AsmState {
                            pre: st.pre.push(
                                SpecPre { keyword_span: t1.span, keyword_val: val, argument: Some((arg, t2.span, SpecArg::Int(n))) },
                            ),
                            ..st
                        },
                        q,
                    ),
                ),
                _ => Err(SpecError { span: t2.span, error_type: SpecErrorType::NotAnArgument(t2) }),
            },
        }
    }
}

/// The lines of the text section while the next token is an identifier, `depth`
/// labels deep: a label (`name:`) names the next instruction and opens a level
/// whose end (at a token that is not an identifier) is followed by the end of
/// the line of the label; an instruction is a keyword and its argument,
/// followed by the end of its line.
pub open spec fn text_loop(s: Seq<char>, p: int, depth: nat, st: AsmState, kw: Map<Seq<char>, (usize, usize)>) -> Result<
    (AsmState, int),
    SpecError,
>
    decreases s.len() - p, depth,
    when 0 <= p <= s.len()
{
    match a_peek(s, p) {
        Err(e) => Err(e),
        Ok(Some(SpecTokenType::Identifier)) => match a_expect(s, p, SpecTokenType::Identifier) {
            Err(e) => Err(e),
            Ok((t1, p1)) => {
                let c1 = text(s, t1.span);
                match a_peek(s, p1) {
                    Err(e) => Err(e),
                    Ok(Some(SpecTokenType::Colon)) => match add_label(st, c1, st.pre.len() as usize, false) {
                        Err(et) => Err(SpecError { span: t1.span, error_type: et }),
                        Ok(st1) => match a_burn(s, aafter(s, p1), SpecTokenType::Newline) {
                            Err(e) => Err(e),
                            Ok(q) => {
                                proof {
                                    lemma_burn_advances(s, aafter(s, p1), SpecTokenType::Newline);
                                }
                                text_loop(s, q, depth + 1, st1, kw)
                            },
                        },
                    },
                    Ok(_) => if kw.contains_key(c1) {
                        match read_instruction(s, p1, st, t1, kw[c1].0, kw[c1].1) {
                            Err(e) => Err(e),
                            Ok((st1, q)) => match a_burn(s, q, SpecTokenType::Semicolon) {
                                Err(e) => Err(e),
                                Ok(q2) => match a_expect_newline(s, q2) {
                                    Err(e) => Err(e),
                                    Ok(q3) => {
                                        proof {
                                            lemma_burn_advances(s, q, SpecTokenType::Semicolon);
                                            lemma_newline_advances(s, q2);
                                        }
                                        text_loop(s, q3, depth, st1, kw)
                                    },
                                },
                            },
                        }
                    } else {
                        Err(SpecError { span: t1.span, error_type: SpecErrorType::UnrecognizedKeyword(c1) })
                    },
                }
            },
        },
        Ok(_) => if depth == 0 {
            Ok((st, p))
        } else {
            match a_burn(s, p, SpecTokenType::Semicolon) {
                Err(e) => Err(e),
                Ok(q2) => match a_expect_newline(s, q2) {
                    Err(e) => Err(e),
                    Ok(q3) => {
                        proof {
                            lemma_burn_advances(s, p, SpecTokenType::Semicolon);
                            lemma_newline_advances(s, q2);
                        }
                        text_loop(s, q3, (depth - 1) as nat, st, kw)
                    },
                },
            }
        },
    }
}

/// The text section, after its `.text`.
pub open spec fn read_text(s: Seq<char>, p: int, st: AsmState, kw: Map<Seq<char>, (usize, usize)>) -> Result<
    (AsmState, int),
    SpecError,
> {
    match a_burn(s, p, SpecTokenType::Newline) {
        Err(e) => Err(e),
        Ok(p1) => text_loop(s, p1, 0, st, kw),
    }
}

/// The text lines end after where they start.
pub proof fn lemma_text_loop_advances(s: Seq<char>, p: int, depth: nat, st: AsmState, kw: Map<Seq<char>, (usize, usize)>)
    requires
        0 <= p <= s.len(),
    ensures
        text_loop(s, p, depth, st, kw) matches Ok((_, q)) ==> p <= q <= s.len(),
    decreases s.len() - p, depth,
{
    match a_peek(s, p) {
        Ok(Some(SpecTokenType::Identifier)) => match a_expect(s, p, SpecTokenType::Identifier) {
            Ok((t1, p1)) => {
                let c1 = text(s, t1.span);
                match a_peek(s, p1) {
                    Ok(Some(SpecTokenType::Colon)) => match add_label(st, c1, st.pre.len() as usize, false) {
                        Ok(st1) => {
                            lemma_burn_advances(s, aafter(s, p1), SpecTokenType::Newline);
                            match a_burn(s, aafter(s, p1), SpecTokenType::Newline) {
                                Ok(q) => lemma_text_loop_advances(s, q, depth + 1, st1, kw),
                                _ => {},
                            }
                        },
                        _ => {},
                    },
                    Ok(_) => if kw.contains_key(c1) {
                        match read_instruction(s, p1, st, t1, kw[c1].0, kw[c1].1) {
                            Ok((st1, q)) => {
                                lemma_burn_advances(s, q, SpecTokenType::Semicolon);
                                match a_burn(s, q, SpecTokenType::Semicolon) {
                                    Ok(q2) => {
                                        lemma_newline_advances(s, q2);
                                        match a_expect_newline(s, q2) {
                                            Ok(q3) => lemma_text_loop_advances(s, q3, depth, st1, kw),
                                            _ => {},
                                        }
                                    },
                                    _ => {},
                                }
                            },
                            _ => {},
                        }
                    },
                    _ => {},
                }
            },
            _ => {},
        },
        Ok(_) => if depth > 0 {
            lemma_burn_advances(s, p, SpecTokenType::Semicolon);
            match a_burn(s, p, SpecTokenType::Semicolon) {
                Ok(q2) => {
                    lemma_newline_advances(s, q2);
                    match a_expect_newline(s, q2) {
                        Ok(q3) => lemma_text_loop_advances(s, q3, (depth - 1) as nat, st, kw),
                        _ => {},
                    }
                },
                _ => {},
            }
        },
        _ => {},
    }
}

/// The data entries end after where they start.
pub proof fn lemma_data_loop_advances(s: Seq<char>, p: int, st: AsmState)
    requires
        0 <= p <= s.len(),
    ensures
        data_loop(s, p, st) matches Ok((_, q)) ==> p <= q <= s.len(),
    decreases s.len() - p,
{
    match a_peek(s, p) {
        Ok(Some(SpecTokenType::Identifier)) => {
            lemma_data_entry_advances(s, p, st);
            match read_data_entry(s, p, st) {
                Ok((st1, q)) => lemma_data_loop_advances(s, q, st1),
                _ => {},
            }
        },
        _ => {},
    }
}

/// A section: its directive (`.data` or `.text`) and its lines.
pub open spec fn read_section(s: Seq<char>, p: int, st: AsmState, kw: Map<Seq<char>, (usize, usize)>) -> Result<
    (AsmState, int),
    SpecError,
> {
    match a_burn(s, p, SpecTokenType::Newline) {
        Err(e) => Err(e),
        Ok(p1) => match a_expect(s, p1, SpecTokenType::Directive) {
            Err(e) => Err(
                match e.error_type {
                    SpecErrorType::UnexpectedToken(t, _) => SpecError { span: e.span, error_type: SpecErrorType::NotASection(t) },
                    _ => e,
                },
            ),
            Ok((t, p2)) => {
                let sec = text(s, t.span);
                let r = if sec == seq!['.', 'd', 'a', 't', 'a'] {
                    read_data(s, p2, st)
                } else if sec == seq!['.', 't', 'e', 'x', 't'] {
                    read_text(s, p2, st, kw)
                } else {
                    Err(SpecError { span: t.span, error_type: SpecErrorType::UnrecognizedSession(sec) })
                };
                match r {
                    Err(e) => Err(e),
                    Ok((st1, q)) => match a_burn(s, q, SpecTokenType::Newline) {
                        Err(e) => Err(e),
                        Ok(q2) => Ok((st1, q2)),
                    },
                }
            },
        },
    }
}

/// A section ends after its directive.
pub proof fn lemma_section_advances(s: Seq<char>, p: int, st: AsmState, kw: Map<Seq<char>, (usize, usize)>)
    requires
        0 <= p <= s.len(),
    ensures
        read_section(s, p, st, kw) matches Ok((_, q)) ==> p < q <= s.len(),
{
    lemma_burn_advances(s, p, SpecTokenType::Newline);
    match a_burn(s, p, SpecTokenType::Newline) {
        Ok(p1) => match a_expect(s, p1, SpecTokenType::Directive) {
            Ok((t, p2)) => {
                lemma_burn_advances(s, p2, SpecTokenType::Newline);
                match a_burn(s, p2, SpecTokenType::Newline) {
                    Ok(p3) => {
                        lemma_data_loop_advances(s, p3, st);
                        lemma_text_loop_advances(s, p3, 0, st, kw);
                    },
                    _ => {},
                }
                let sec = text(s, t.span);
                let r = if sec == seq!['.', 'd', 'a', 't', 'a'] {
                    read_data(s, p2, st)
                } else if sec == seq!['.', 't', 'e', 'x', 't'] {
                    read_text(s, p2, st, kw)
                } else {
                    Err(SpecError { span: t.span, error_type: SpecErrorType::UnrecognizedSession(sec) })
                };
                match r {
                    Ok((st1, q)) => lemma_burn_advances(s, q, SpecTokenType::Newline),
                    _ => {},
                }
            },
            _ => {},
        },
        _ => {},
    }
}

/// The sections of the program from `p` on.
pub open spec fn read_sections(s: Seq<char>, p: int, st: AsmState, kw: Map<Seq<char>, (usize, usize)>) -> Result<
    AsmState,
    SpecError,
>
    decreases s.len() - p,
    when 0 <= p <= s.len()
{
    match a_peek(s, p) {
        Err(e) => Err(e),
        Ok(None) => Ok(st),
        Ok(Some(_)) => match read_section(s, p, st, kw) {
            Err(e) => Err(e),
            Ok((st1, q)) => {
                proof {
                    lemma_section_advances(s, p, st, kw);
                }
                read_sections(s, q, st1, kw)
            },
        },
    }
}

/// The address of a label: data labels count from `offset` (wrapping at the
/// width of `usize`), instruction labels from 0.
pub open spec fn label_value(st: AsmState, offset: usize, name: Seq<char>) -> Option<usize> {
    match find_label(st.data_labels, name) {
        Some(v) => Some(v.wrapping_add(offset)),
        None => find_label(st.ins_labels, name),
    }
}

/// The word of an instruction: the opcode, shifted above the argument, with the
/// argument's bits (two's complement) below it; the argument must lie between
/// `-2^(w-1)` and `2^w - 1` for a width `w`.
pub open spec fn assemble(st: AsmState, offset: usize, pre: SpecPre) -> Result<int, SpecError> {
    match pre.argument {
        None => Ok(pre.keyword_val as int),
        Some((w, sp, a)) => {
            let lo = -(pow2((w - 1) as nat) as int);
            let hi = pow2(w as nat) - 1;
            let v = match a {
                SpecArg::Label(l) => match label_value(st, offset, l) {
                    Some(x) => Ok((x as isize) as int),
                    None => Err(SpecError { span: sp, error_type: SpecErrorType::UnrecognizedLabel(l) }),
                },
                SpecArg::Int(n) => Ok(n),
            };
            match v {
                Err(e) => Err(e),
                Ok(n) => if n < lo {
                    Err(SpecError { span: sp, error_type: SpecErrorType::NumberTooLow(n, lo) })
                } else if n > hi {
                    Err(SpecError { span: sp, error_type: SpecErrorType::NumberTooHigh(n, hi) })
                } else {
                    Ok(pre.keyword_val * pow2(w as nat) + n % (pow2(w as nat) as int))
                },
            }
        },
    }
}

/// The words of the instructions, in order; or the first that cannot be
/// assembled.
pub open spec fn assemble_all(st: AsmState, offset: usize, pre: Seq<SpecPre>) -> Result<Seq<int>, SpecError>
    decreases pre.len(),
{
    if pre.len() == 0 {
        Ok(Seq::empty())
    } else {
        match assemble_all(st, offset, pre.drop_last()) {
            Err(e) => Err(e),
            Ok(v) => match assemble(st, offset, pre.last()) {
                Err(e) => Err(e),
                Ok(w) => Ok(v.push(w)),
            },
        }
    }
}

/// The program of the text `s` with the keywords `kw`: the data segment, the
/// instruction words and the instructions read; or the first error.
pub open spec fn asm_program(s: Seq<char>, kw: Map<Seq<char>, (usize, usize)>, offset: usize) -> Result<
    (AsmState, Seq<int>),
    SpecError,
> {
    match read_sections(s, 0, empty_state(), kw) {
        Err(e) => Err(e),
        Ok(st) => match assemble_all(st, offset, st.pre) {
            Err(e) => Err(e),
            Ok(words) => Ok((st, words)),
        },
    }
}

/// The sixteen binary digits of `v`, most significant first.
pub open spec fn bits16(v: u16) -> Seq<char> {
    Seq::new(16, |i: int| if (v >> ((15 - i) as u16)) & 1u16 == 1u16 { '1' } else { '0' })
}

// ---------------------------------------------------------------------------
// The parser.
// ---------------------------------------------------------------------------

/// The text of line `lineno` of `m` (see `SourceMap::get_line`).
pub open spec fn line_of_map(m: SourceMap, lineno: int) -> Seq<char> {
    match m.line_bounds(lineno) {
        Some((a, b)) => line_text(m.text(), a, b),
        None => Seq::empty(),
    }
}

/// The labels as names and addresses.
pub open spec fn labels_of(v: Seq<(Vec<char>, usize)>) -> Seq<(Seq<char>, usize)> {
    Seq::new(v.len(), |i: int| (v[i].0@, v[i].1))
}

/// The view of a token read, or of the error.
pub open spec fn token_result(r: Result<Token, ParsingError>) -> Result<SpecToken, SpecError> {
    match r {
        Ok(t) => Ok(t@),
        Err(e) => Err(e@),
    }
}

/// The view of a token kind peeked, or of the error.
pub open spec fn peek_result(r: Result<Option<TokenType>, ParsingError>) -> Result<Option<SpecTokenType>, SpecError> {
    match r {
        Ok(Some(k)) => Ok(Some(k@)),
        Ok(None) => Ok(None),
        Err(e) => Err(e@),
    }
}

fn same_kind_x(a: &TokenType, b: &TokenType) -> (r: bool)
    ensures
        r == same_kind(a@, b@),
{
    match (a, b) {
        (TokenType::Identifier, TokenType::Identifier) => true,
        (TokenType::Directive, TokenType::Directive) => true,
        (TokenType::Semicolon, TokenType::Semicolon) => true,
        (TokenType::Colon, TokenType::Colon) => true,
        (TokenType::Comma, TokenType::Comma) => true,
        (TokenType::String(_), TokenType::String(_)) => true,
        (TokenType::Int(_), TokenType::Int(_)) => true,
        (TokenType::Newline, TokenType::Newline) => true,
        _ => false,
    }
}

fn chars_is(v: &[char], w: &[char]) -> (r: bool)
    ensures
        r == (v@ == w@),
{
    crate::architecture::datapath::chars_equal(v, w)
}

fn find_label_x(labels: &Vec<(Vec<char>, usize)>, name: &[char]) -> (r: Option<usize>)
    ensures
        r == find_label(labels_of(labels@), name@),
{
    let mut i = labels.len();
    proof {
        assert(labels@.take(i as int) =~= labels@);
    }
    while i > 0
        invariant
            i <= labels@.len(),
            find_label(labels_of(labels@), name@) == find_label(labels_of(labels@.take(i as int)), name@),
        decreases i,
    {
        proof {
            assert(labels_of(labels@.take(i as int)).drop_last() =~= labels_of(labels@.take(i - 1)));
        }
        if chars_is(labels[i - 1].0.as_slice(), name) {
            return Some(labels[i - 1].1);
        }
        i = i - 1;
    }
    None
}

/// Sixteen binary digits of `v`, as `bits16` gives them.
pub fn binary16(v: u16) -> (r: String)
    ensures
        r@ == bits16(v),
{
    let mut out = String::new();
    let mut k: usize = 0;
    while k < 16
        invariant
            k <= 16,
            out@.len() == k,
            forall|i: int| 0 <= i < k ==> #[trigger] out@[i] == bits16(v)[i],
        decreases 16 - k,
    {
        let shift: u16 = (15 - k) as u16;
        let bit = (v >> shift) & 1;
        let c = if bit == 1 {
            '1'
        } else {
            '0'
        };
        crate::parsers::text::push_char(&mut out, c);
        k = k + 1;
    }
    proof {
        assert(out@ =~= bits16(v));
    }
    out
}

/// The opcode of an instruction fits above its argument: an argument of 1 to
/// 15 bits, or none and an opcode of 16 bits.
pub open spec fn pre_fits(p: SpecPre) -> bool {
    match p.argument {
        Some((w, _, _)) => 1 <= w <= 15 && (p.keyword_val as nat) < pow2((16 - w) as nat),
        None => (p.keyword_val as nat) < pow2(16),
    }
}

/// A parser of assembly programs into memory images.
pub struct ASMParser<'a> {
    source_map: &'a SourceMap,
    keywords: KeywordMap,
    data_offset: usize,
    lexer: Tokenizer<'a>,
    data_mem: Vec<u16>,
    data_mappings: Vec<(Vec<char>, usize)>,
    ins_mappings: Vec<(Vec<char>, usize)>,
    pre_ins: Vec<PreInstruction>,
}

/// A parser has read a number of characters, within its text when it is well
/// formed.
pub broadcast proof fn lemma_parser_pos(p: ASMParser)
    ensures
        0 <= #[trigger] p.pos(),
        p.wf() ==> p.pos() <= p.source().len(),
{
    crate::parsers::assembly::tokenizer::lemma_pos_nonneg(p.lexer);
}

impl<'a> ASMParser<'a> {
    /// The source map being parsed.
    pub closed spec fn map(&self) -> SourceMap {
        *self.source_map
    }

    /// The keyword table.
    pub closed spec fn kw(&self) -> Map<Seq<char>, (usize, usize)> {
        self.keywords.view()
    }

    /// Where data labels start counting.
    pub closed spec fn offset(&self) -> usize {
        self.data_offset
    }

    /// The text being read.
    pub closed spec fn source(&self) -> Seq<char> {
        self.lexer.source()
    }

    /// How far the text was read.
    pub closed spec fn pos(&self) -> int {
        self.lexer.pos()
    }

    /// What was read so far.
    pub closed spec fn state(&self) -> AsmState {
        AsmState {
            data: self.data_mem@,
            pre: Seq::new(self.pre_ins@.len(), |i: int| self.pre_ins@[i]@),
            data_labels: labels_of(self.data_mappings@),
            ins_labels: labels_of(self.ins_mappings@),
        }
    }

    /// The lexer reads the text of the source map, and every instruction read
    /// has an opcode that fits above its argument.
    pub closed spec fn wf(&self) -> bool {
        &&& self.lexer.wf()
        &&& self.source_map.wf()
        &&& self.lexer.source() == self.source_map.text()
        &&& forall|i: int| 0 <= i < self.pre_ins@.len() ==> #[trigger] pre_fits(self.pre_ins@[i]@)
    }

    /// Nothing was read yet.
    pub closed spec fn at_start(&self) -> bool {
        &&& self.lexer.pos() == 0
        &&& self.state() == empty_state()
    }

    /// The same parser, read further.
    pub open spec fn same_input(&self, other: &Self) -> bool {
        &&& self.map() == other.map()
        &&& self.kw() == other.kw()
        &&& self.offset() == other.offset()
        &&& self.source() == other.source()
        &&& self.wf()
    }

    /// A parser of the text of `source_map` with the instructions of `keywords`;
    /// data labels count from `data_offset`.
    pub fn new(source_map: &'a SourceMap, keywords: KeywordMap, data_offset: usize) -> (r: ASMParser<'a>)
        requires
            source_map.wf(),
        ensures
            r.wf(),
            r.at_start(),
            r.map() == *source_map,
            r.kw() == keywords.view(),
            r.offset() == data_offset,
            r.source() == source_map.text(),
    {
        let r = ASMParser {
            source_map,
            keywords,
            data_offset,
            lexer: Tokenizer::new(source_map),
            data_mem: Vec::new(),
            data_mappings: Vec::new(),
            ins_mappings: Vec::new(),
            pre_ins: Vec::new(),
        };
        proof {
            assert(r.state().pre =~= Seq::<SpecPre>::empty());
            assert(r.state().data_labels =~= Seq::<(Seq<char>, usize)>::empty());
            assert(r.state().ins_labels =~= Seq::<(Seq<char>, usize)>::empty());
        }
        r
    }

    fn next_x(&mut self) -> (r: Result<Token, ParsingError>)
        requires
            old(self).wf(),
        ensures
            final(self).same_input(old(self)),
            final(self).state() == old(self).state(),
            match a_next(old(self).source(), old(self).pos()) {
                Ok((t, q)) => token_result(r) == Ok::<SpecToken, SpecError>(t) && final(self).pos() == q,
                Err(e) => token_result(r) == Err::<SpecToken, SpecError>(e),
            },
    {
        reveal(alexed);
        reveal(aafter);
        let sm = self.lexer.source_map();
        match self.lexer.next() {
            None => {
                let end = sm.end();
                Err(ParsingError { span: end, error_type: ParsingErrorType::UnexpectedEnd })
            },
            Some(Err(te)) => Err(ParsingError { span: te.span, error_type: ParsingErrorType::TokenError(te.error_type) }),
            Some(Ok(t)) => Ok(t),
        }
    }

    fn skip_x(&mut self)
        requires
            old(self).wf(),
        ensures
            final(self).same_input(old(self)),
            final(self).state() == old(self).state(),
            final(self).pos() == aafter(old(self).source(), old(self).pos()),
    {
        reveal(aafter);
        let _ = self.lexer.next();
    }

    fn peek_x(&self) -> (r: Result<Option<TokenType>, ParsingError>)
        requires
            self.wf(),
        ensures
            peek_result(r) == a_peek(self.source(), self.pos()),
    {
        reveal(alexed);
        let mut probe = self.lexer;
        match probe.next() {
            None => Ok(None),
            Some(Err(te)) => Err(ParsingError { span: te.span, error_type: ParsingErrorType::TokenError(te.error_type) }),
            Some(Ok(t)) => Ok(Some(t.token_type)),
        }
    }

    fn at_end_x(&self) -> (r: bool)
        requires
            self.wf(),
        ensures
            r == (alexed(self.source(), self.pos()) is None),
    {
        reveal(alexed);
        let mut probe = self.lexer;
        probe.next().is_none()
    }

    fn expect_x(&mut self, typ: TokenType) -> (r: Result<Token, ParsingError>)
        requires
            old(self).wf(),
        ensures
            final(self).same_input(old(self)),
            final(self).state() == old(self).state(),
            match a_expect(old(self).source(), old(self).pos(), typ@) {
                Ok((t, q)) => token_result(r) == Ok::<SpecToken, SpecError>(t) && final(self).pos() == q,
                Err(e) => token_result(r) == Err::<SpecToken, SpecError>(e),
            },
    {
        let t = match self.next_x() {
            Ok(t) => t,
            Err(e) => return Err(e),
        };
        if !same_kind_x(&t.token_type, &typ) {
            let span = t.span;
            return Err(ParsingError { span, error_type: ParsingErrorType::UnexpectedToken(t, typ) });
        }
        Ok(t)
    }

    fn burn_x(&mut self, typ: TokenType) -> (r: Result<(), ParsingError>)
        requires
            old(self).wf(),
            typ is Newline || typ is Semicolon,
        ensures
            final(self).same_input(old(self)),
            final(self).state() == old(self).state(),
            match a_burn(old(self).source(), old(self).pos(), typ@) {
                Ok(q) => r is Ok && final(self).pos() == q,
                Err(e) => r is Err && r->Err_0@ == e,
            },
    {
        let ghost s = self.source();
        let ghost p0 = self.pos();
        loop
            invariant
                self.same_input(old(self)),
                self.state() == old(self).state(),
                s == old(self).source(),
                p0 == old(self).pos(),
                typ is Newline || typ is Semicolon,
                0 <= self.pos() <= s.len(),
                a_burn(s, p0, typ@) == a_burn(s, self.pos(), typ@),
            decreases s.len() - self.pos(),
        {
            let pk = self.peek_x();
            match pk {
                Err(e) => {
                    return Err(e);
                },
                Ok(Some(k)) => {
                    if same_kind_x(&k, &typ) {
                        self.skip_x();
                    } else {
                        return Ok(());
                    }
                },
                Ok(None) => {
                    return Ok(());
                },
            }
        }
    }

    fn burn_ends_x(&mut self) -> (r: Result<(), ParsingError>)
        requires
            old(self).wf(),
        ensures
            final(self).same_input(old(self)),
            final(self).state() == old(self).state(),
            match a_burn_ends(old(self).source(), old(self).pos()) {
                Ok(q) => r is Ok && final(self).pos() == q,
                Err(e) => r is Err && r->Err_0@ == e,
            },
    {
        let ghost s = self.source();
        let ghost p0 = self.pos();
        loop
            invariant
                self.same_input(old(self)),
                self.state() == old(self).state(),
                s == old(self).source(),
                p0 == old(self).pos(),
                0 <= self.pos() <= s.len(),
                a_burn_ends(s, p0) == a_burn_ends(s, self.pos()),
            decreases s.len() - self.pos(),
        {
            let pk = self.peek_x();
            match pk {
                Err(e) => {
                    return Err(e);
                },
                Ok(Some(TokenType::Newline)) => {
                    self.skip_x();
                },
                Ok(Some(TokenType::Semicolon)) => {
                    self.skip_x();
                },
                Ok(_) => {
                    return Ok(());
                },
            }
        }
    }

    fn expect_newline_x(&mut self) -> (r: Result<(), ParsingError>)
        requires
            old(self).wf(),
        ensures
            final(self).same_input(old(self)),
            final(self).state() == old(self).state(),
            match a_expect_newline(old(self).source(), old(self).pos()) {
                Ok(q) => r is Ok && final(self).pos() == q,
                Err(e) => r is Err && r->Err_0@ == e,
            },
    {
        if !self.at_end_x() {
            match self.expect_x(TokenType::Newline) {
                Ok(_) => {},
                Err(e) => {
                    return Err(e);
                },
            }
        }
        self.burn_ends_x()
    }
}

impl<'a> ASMParser<'a> {
    fn text_of(&self, sp: &Span) -> (r: Vec<char>)
        requires
            self.wf(),
        ensures
            r@ == text(self.source(), *sp),
    {
        let t = self.source_map.get_span(sp);
        str_chars(t.as_str())
    }

    fn add_label_x(&mut self, name: Vec<char>, addr: usize, data: bool) -> (r: Result<(), ParsingErrorType>)
        requires
            old(self).wf(),
        ensures
            final(self).same_input(old(self)),
            final(self).pos() == old(self).pos(),
            match add_label(old(self).state(), name@, addr, data) {
                Ok(st) => r is Ok && final(self).state() == st,
                Err(et) => r is Err && r->Err_0@ == et,
            },
    {
        if find_label_x(&self.data_mappings, name.as_slice()).is_some() || find_label_x(
            &self.ins_mappings,
            name.as_slice(),
        ).is_some() {
            return Err(ParsingErrorType::DuplicatedLabel(crate::parsers::text::string_from_chars(name.as_slice())));
        }
        let ghost before = self.state();
        if data {
            let ghost old_labels = self.data_mappings@;
            self.data_mappings.push((name, addr));
            proof {
                assert(labels_of(self.data_mappings@) =~= labels_of(old_labels).push((name@, addr)));
            }
        } else {
            let ghost old_labels = self.ins_mappings@;
            self.ins_mappings.push((name, addr));
            proof {
                assert(labels_of(self.ins_mappings@) =~= labels_of(old_labels).push((name@, addr)));
            }
        }
        Ok(())
    }

    fn add_number_x(&mut self, min: isize, max: isize) -> (r: Result<(), ParsingError>)
        requires
            old(self).wf(),
        ensures
            final(self).same_input(old(self)),
            match add_number(old(self).source(), old(self).pos(), old(self).state(), min as int, max as int) {
                Ok((st, q)) => r is Ok && final(self).state() == st && final(self).pos() == q,
                Err(e) => r is Err && r->Err_0@ == e,
            },
    {
        let ghost s = self.source();
        let ghost p0 = self.pos();
        let ghost st0 = self.state();
        loop
            invariant
                self.same_input(old(self)),
                s == old(self).source(),
                p0 == old(self).pos(),
                st0 == old(self).state(),
                0 <= self.pos() <= s.len(),
                add_number(s, p0, st0, min as int, max as int) == add_number(s, self.pos(), self.state(), min as int, max as int),
            decreases s.len() - self.pos(),
        {
            let ghost p = self.pos();
            proof {
                lemma_burn_advances(s, p, SpecTokenType::Newline);
            }
            match self.burn_x(TokenType::Newline) {
                Ok(()) => {},
                Err(e) => {
                    return Err(e);
                },
            }
            let t = match self.expect_x(TokenType::Int(0)) {
                Ok(t) => t,
                Err(e) => {
                    return Err(e);
                },
            };
            let n = match t.token_type {
                TokenType::Int(n) => n,
                _ => {
                    return Ok(());
                },
            };
            if n < min {
                return Err(ParsingError { span: t.span, error_type: ParsingErrorType::NumberTooLow(n, min) });
            }
            if n > max {
                return Err(ParsingError { span: t.span, error_type: ParsingErrorType::NumberTooHigh(n, max) });
            }
            self.data_mem.push(n as u16);
            let pk = self.peek_x();
            match pk {
                Err(e) => {
                    return Err(e);
                },
                Ok(Some(TokenType::Comma)) => {
                    match self.burn_x(TokenType::Newline) {
                        Ok(()) => {},
                        Err(e) => {
                            return Err(e);
                        },
                    }
                    self.skip_x();
                },
                Ok(_) => {
                    return Ok(());
                },
            }
        }
    }
}

impl<'a> ASMParser<'a> {
    fn add_string_x(&mut self) -> (r: Result<(), ParsingError>)
        requires
            old(self).wf(),
        ensures
            final(self).same_input(old(self)),
            match add_string(old(self).source(), old(self).pos(), old(self).state()) {
                Ok((st, q)) => r is Ok && final(self).state() == st && final(self).pos() == q,
                Err(e) => r is Err && r->Err_0@ == e,
            },
    {
        let t = match self.expect_x(TokenType::String(String::new())) {
            Ok(t) => t,
            Err(e) => {
                return Err(e);
            },
        };
        let chars = match &t.token_type {
            TokenType::String(v) => str_chars(v.as_str()),
            _ => {
                return Ok(());
            },
        };
        let ghost st1 = self.state();
        let ghost p1 = self.pos();
        proof {
            assert(string_words(chars@).take(0) =~= Seq::<u16>::empty());
            assert(st1.data + Seq::<u16>::empty() =~= st1.data);
        }
        let mut k: usize = 0;
        while k < chars.len()
            invariant
                self.same_input(old(self)),
                self.pos() == p1,
                k <= chars@.len(),
                self.state() == (AsmState { data: st1.data + string_words(chars@).take(k as int), ..st1 }),
            decreases chars.len() - k,
        {
            let c = chars[k];
            let ghost before = self.data_mem@;
            self.data_mem.push(#[verifier::truncate] ((c as u32) as u16));
            k = k + 1;
            proof {
                assert(string_words(chars@).take(k as int) =~= string_words(chars@).take(k - 1).push(
                    (c as u32) as u16,
                ));
                assert(self.data_mem@ =~= st1.data + string_words(chars@).take(k as int));
            }
        }
        proof {
            assert(string_words(chars@).take(k as int) =~= string_words(chars@));
        }
        Ok(())
    }
}

impl<'a> ASMParser<'a> {
    fn read_directive_x(&mut self, dir: &Token) -> (r: Result<(), ParsingError>)
        requires
            old(self).wf(),
        ensures
            final(self).same_input(old(self)),
            match read_directive(old(self).source(), old(self).pos(), old(self).state(), dir@) {
                Ok((st, q)) => r is Ok && final(self).state() == st && final(self).pos() == q,
                Err(e) => r is Err && r->Err_0@ == e,
            },
    {
        let d = self.text_of(&dir.span);
        let ascii: &[char] = &['.', 'a', 's', 'c', 'i', 'i'];
        let asciz: &[char] = &['.', 'a', 's', 'c', 'i', 'z'];
        let asciiz: &[char] = &['.', 'a', 's', 'c', 'i', 'i', 'z'];
        let word: &[char] = &['.', 'w', 'o', 'r', 'd'];
        let byte: &[char] = &['.', 'b', 'y', 't', 'e'];
        let space: &[char] = &['.', 's', 'p', 'a', 'c', 'e'];
        proof {
            assert(ascii@ =~= seq!['.', 'a', 's', 'c', 'i', 'i']);
            assert(asciz@ =~= seq!['.', 'a', 's', 'c', 'i', 'z']);
            assert(asciiz@ =~= seq!['.', 'a', 's', 'c', 'i', 'i', 'z']);
            assert(word@ =~= seq!['.', 'w', 'o', 'r', 'd']);
            assert(byte@ =~= seq!['.', 'b', 'y', 't', 'e']);
            assert(space@ =~= seq!['.', 's', 'p', 'a', 'c', 'e']);
        }
        if chars_is(d.as_slice(), ascii) {
            self.add_string_x()
        } else if chars_is(d.as_slice(), asciz) || chars_is(d.as_slice(), asciiz) {
            match self.burn_x(TokenType::Newline) {
                Ok(()) => {},
                Err(e) => {
                    return Err(e);
                },
            }
            match self.add_string_x() {
                Ok(()) => {},
                Err(e) => {
                    return Err(e);
                },
            }
            self.data_mem.push(0);
            Ok(())
        } else if chars_is(d.as_slice(), word) {
            self.add_number_x(-32768, 65535)
        } else if chars_is(d.as_slice(), byte) {
            self.add_number_x(-128, 255)
        } else if chars_is(d.as_slice(), space) {
            let t = match self.expect_x(TokenType::Int(0)) {
                Ok(t) => t,
                Err(e) => {
                    return Err(e);
                },
            };
            let n = match t.token_type {
                TokenType::Int(n) => n,
                _ => {
                    return Ok(());
                },
            };
            if n < 0 {
                return Err(ParsingError { span: t.span, error_type: ParsingErrorType::NumberTooLow(n, 0) });
            }
            let count: usize = ((n as usize) + 1) / 2;
            let ghost st1 = self.state();
            let ghost p1 = self.pos();
            proof {
                assert(st1.data + Seq::new(0, |i: int| 0u16) =~= st1.data);
            }
            let mut k: usize = 0;
            while k < count
                invariant
                    self.same_input(old(self)),
                    self.pos() == p1,
                    k <= count,
                    self.state() == (AsmState { data: st1.data + Seq::new(k as nat, |i: int| 0u16), ..st1 }),
                decreases count - k,
            {
                self.data_mem.push(0);
                k = k + 1;
                proof {
                    assert(self.data_mem@ =~= st1.data + Seq::new(k as nat, |i: int| 0u16));
                }
            }
            Ok(())
        } else {
            Err(
                ParsingError {
                    span: dir.span,
                    error_type: ParsingErrorType::UnsupportedDirective(
                        crate::parsers::text::string_from_chars(d.as_slice()),
                    ),
                },
            )
        }
    }

    fn read_data_entry_x(&mut self) -> (r: Result<(), ParsingError>)
        requires
            old(self).wf(),
        ensures
            final(self).same_input(old(self)),
            match read_data_entry(old(self).source(), old(self).pos(), old(self).state()) {
                Ok((st, q)) => r is Ok && final(self).state() == st && final(self).pos() == q,
                Err(e) => r is Err && r->Err_0@ == e,
            },
    {
        match self.burn_x(TokenType::Newline) {
            Ok(()) => {},
            Err(e) => {
                return Err(e);
            },
        }
        let t = match self.expect_x(TokenType::Identifier) {
            Ok(t) => t,
            Err(e) => {
                return Err(e);
            },
        };
        match self.expect_x(TokenType::Colon) {
            Ok(_) => {},
            Err(e) => {
                return Err(e);
            },
        }
        match self.burn_x(TokenType::Newline) {
            Ok(()) => {},
            Err(e) => {
                return Err(e);
            },
        }
        let dir = match self.expect_x(TokenType::Directive) {
            Ok(t) => t,
            Err(e) => {
                return Err(e);
            },
        };
        match self.burn_x(TokenType::Newline) {
            Ok(()) => {},
            Err(e) => {
                return Err(e);
            },
        }
        let data_start = self.data_mem.len();
        match self.read_directive_x(&dir) {
            Ok(()) => {},
            Err(e) => {
                return Err(e);
            },
        }
        let name = self.text_of(&t.span);
        match self.add_label_x(name, data_start, true) {
            Ok(()) => {},
            Err(et) => {
                return Err(ParsingError { span: t.span, error_type: et });
            },
        }
        match self.burn_x(TokenType::Semicolon) {
            Ok(()) => {},
            Err(e) => {
                return Err(e);
            },
        }
        self.expect_newline_x()
    }

    fn read_data_x(&mut self) -> (r: Result<(), ParsingError>)
        requires
            old(self).wf(),
        ensures
            final(self).same_input(old(self)),
            match read_data(old(self).source(), old(self).pos(), old(self).state()) {
                Ok((st, q)) => r is Ok && final(self).state() == st && final(self).pos() == q,
                Err(e) => r is Err && r->Err_0@ == e,
            },
    {
        match self.burn_x(TokenType::Newline) {
            Ok(()) => {},
            Err(e) => {
                return Err(e);
            },
        }
        let ghost s = self.source();
        let ghost p0 = self.pos();
        let ghost st0 = self.state();
        loop
            invariant
                self.same_input(old(self)),
                s == old(self).source(),
                0 <= p0 <= s.len(),
                0 <= self.pos() <= s.len(),
                read_data(s, old(self).pos(), old(self).state()) == data_loop(s, p0, st0),
                data_loop(s, p0, st0) == data_loop(s, self.pos(), self.state()),
            decreases s.len() - self.pos(),
        {
            let pk = self.peek_x();
            match pk {
                Err(e) => {
                    return Err(e);
                },
                Ok(Some(TokenType::Identifier)) => {
                    let ghost p = self.pos();
                    let ghost st = self.state();
                    proof {
                        lemma_data_entry_advances(s, p, st);
                    }
                    match self.read_data_entry_x() {
                        Ok(()) => {},
                        Err(e) => {
                            return Err(e);
                        },
                    }
                },
                Ok(_) => {
                    return Ok(());
                },
            }
        }
    }
}

impl<'a> ASMParser<'a> {
    fn push_pre(&mut self, pre: PreInstruction)
        requires
            old(self).wf(),
            pre_fits(pre@),
        ensures
            final(self).same_input(old(self)),
            final(self).pos() == old(self).pos(),
            final(self).state() == (AsmState { pre: old(self).state().pre.push(pre@), ..old(self).state() }),
    {
        let ghost before = self.pre_ins@;
        self.pre_ins.push(pre);
        proof {
            assert(self.state().pre =~= old(self).state().pre.push(pre@));
        }
    }

    fn read_instruction_x(&mut self, t1: &Token, val: usize, arg: usize) -> (r: Result<(), ParsingError>)
        requires
            old(self).wf(),
            arg <= 15,
            (val as nat) < pow2((16 - arg) as nat),
        ensures
            final(self).same_input(old(self)),
            match read_instruction(old(self).source(), old(self).pos(), old(self).state(), t1@, val, arg) {
                Ok((st, q)) => r is Ok && final(self).state() == st && final(self).pos() == q,
                Err(e) => r is Err && r->Err_0@ == e,
            },
    {
        if arg == 0 {
            self.push_pre(PreInstruction { keyword_span: t1.span, keyword_val: val, argument: None });
            return Ok(());
        }
        let t2 = match self.next_x() {
            Ok(t) => t,
            Err(e) => {
                return Err(e);
            },
        };
        match t2.token_type {
            TokenType::Identifier => {
                let label = self.text_of(&t2.span);
                self.push_pre(
                    PreInstruction {
                        keyword_span: t1.span,
                        keyword_val: val,
                        argument: Some((arg, t2.span, PreInstructionArg::Label(label))),
                    },
                );
                Ok(())
            },
            TokenType::Int(n) => {
                self.push_pre(
                    PreInstruction {
                        keyword_span: t1.span,
                        keyword_val: val,
                        argument: Some((arg, t2.span, PreInstructionArg::Int(n))),
                    },
                );
                Ok(())
            },
            _ => {
                let span = t2.span;
                Err(ParsingError { span, error_type: ParsingErrorType::NotAnArgument(t2) })
            },
        }
    }

    fn line_end_x(&mut self) -> (r: Result<(), ParsingError>)
        requires
            old(self).wf(),
        ensures
            final(self).same_input(old(self)),
            final(self).state() == old(self).state(),
            match a_burn(old(self).source(), old(self).pos(), SpecTokenType::Semicolon) {
                Ok(q2) => match a_expect_newline(old(self).source(), q2) {
                    Ok(q3) => r is Ok && final(self).pos() == q3,
                    Err(e) => r is Err && r->Err_0@ == e,
                },
                Err(e) => r is Err && r->Err_0@ == e,
            },
    {
        match self.burn_x(TokenType::Semicolon) {
            Ok(()) => {},
            Err(e) => {
                return Err(e);
            },
        }
        self.expect_newline_x()
    }

    #[verifier::rlimit(60)]
    fn read_text_x(&mut self) -> (r: Result<(), ParsingError>)
        requires
            old(self).wf(),
        ensures
            final(self).same_input(old(self)),
            match read_text(old(self).source(), old(self).pos(), old(self).state(), old(self).kw()) {
                Ok((st, q)) => r is Ok && final(self).state() == st && final(self).pos() == q,
                Err(e) => r is Err && r->Err_0@ == e,
            },
    {
        match self.burn_x(TokenType::Newline) {
            Ok(()) => {},
            Err(e) => {
                return Err(e);
            },
        }
        let ghost s = self.source();
        let ghost kw = self.kw();
        let ghost p0 = self.pos();
        let ghost st0 = self.state();
        proof {
            crate::parsers::text::lemma_byte_len_prefix(s, 0, s.len() as int);
            assert(s.take(0) =~= Seq::<char>::empty());
            assert(s.take(s.len() as int) =~= s);
        }
        let mut depth: usize = 0;
        loop
            invariant
                self.same_input(old(self)),
                s == old(self).source(),
                s.len() < usize::MAX,
                depth <= self.pos(),
                kw == old(self).kw(),
                0 <= p0 <= s.len(),
                0 <= self.pos() <= s.len(),
                read_text(s, old(self).pos(), old(self).state(), kw) == text_loop(s, p0, 0, st0, kw),
                text_loop(s, p0, 0, st0, kw) == text_loop(s, self.pos(), depth as nat, self.state(), kw),
            decreases s.len() - self.pos(), depth,
        {
            let ghost p = self.pos();
            let ghost st = self.state();
            let pk = self.peek_x();
            match pk {
                Err(e) => {
                    return Err(e);
                },
                Ok(Some(TokenType::Identifier)) => {
                    let t1 = match self.expect_x(TokenType::Identifier) {
                        Ok(t) => t,
                        Err(e) => {
                            return Err(e);
                        },
                    };
                    let c1 = self.text_of(&t1.span);
                    let ghost p1 = self.pos();
                    let pk2 = self.peek_x();
                    match pk2 {
                        Err(e) => {
                            return Err(e);
                        },
                        Ok(Some(TokenType::Colon)) => {
                            let count = self.pre_ins.len();
                            match self.add_label_x(c1, count, false) {
                                Ok(()) => {},
                                Err(et) => {
                                    return Err(ParsingError { span: t1.span, error_type: et });
                                },
                            }
                            self.skip_x();
                            proof {
                                lemma_burn_advances(s, aafter(s, p1), SpecTokenType::Newline);
                            }
                            match self.burn_x(TokenType::Newline) {
                                Ok(()) => {},
                                Err(e) => {
                                    return Err(e);
                                },
                            }
                            depth = depth + 1;
                        },
                        Ok(_) => {
                            match self.keywords.get(c1.as_slice()) {
                                Some((val, arg)) => {
                                    match self.read_instruction_x(&t1, val, arg) {
                                        Ok(()) => {},
                                        Err(e) => {
                                            return Err(e);
                                        },
                                    }
                                    let ghost q = self.pos();
                                    proof {
                                        lemma_burn_advances(s, q, SpecTokenType::Semicolon);
                                        match a_burn(s, q, SpecTokenType::Semicolon) {
                                            Ok(q2) => lemma_newline_advances(s, q2),
                                            _ => {},
                                        }
                                    }
                                    match self.line_end_x() {
                                        Ok(()) => {},
                                        Err(e) => {
                                            return Err(e);
                                        },
                                    }
                                },
                                None => {
                                    return Err(
                                        ParsingError {
                                            span: t1.span,
                                            error_type: ParsingErrorType::UnrecognizedKeyword(
                                                crate::parsers::text::string_from_chars(c1.as_slice()),
                                            ),
                                        },
                                    );
                                },
                            }
                        },
                    }
                },
                Ok(_) => {
                    if depth == 0 {
                        return Ok(());
                    }
                    proof {
                        lemma_burn_advances(s, p, SpecTokenType::Semicolon);
                        match a_burn(s, p, SpecTokenType::Semicolon) {
                            Ok(q2) => lemma_newline_advances(s, q2),
                            _ => {},
                        }
                    }
                    match self.line_end_x() {
                        Ok(()) => {},
                        Err(e) => {
                            return Err(e);
                        },
                    }
                    depth = depth - 1;
                },
            }
        }
    }
}

/// `2^(a + b)` is `2^a * 2^b`.
pub proof fn lemma_pow2_add(a: nat, b: nat)
    ensures
        pow2(a + b) == pow2(a) * pow2(b),
    decreases a,
{
    if a > 0 {
        let a1 = (a - 1) as nat;
        lemma_pow2_add(a1, b);
        let x = pow2(a1);
        let y = pow2(b);
        assert(pow2(a1 + b) == x * y);
        assert(a + b == (a1 + b) + 1);
        assert(pow2(a + b) == 2 * pow2(a1 + b));
        assert(pow2(a) == 2 * x);
        assert(2 * (x * y) == (2 * x) * y) by (nonlinear_arith);
    } else {
        assert(a + b == b);
        assert(pow2(a) == 1);
    }
}

proof fn lemma_pow2_16()
    ensures
        pow2(16) == 65536,
{
    reveal_with_fuel(pow2, 17);
}

proof fn lemma_word_fits(val: int, w: nat, low: int, m: int)
    requires
        1 <= w <= 15,
        m == pow2(w),
        0 <= val < pow2((16 - w) as nat),
        0 <= low < m,
    ensures
        val * m + low < 65536,
{
    lemma_pow2_add((16 - w) as nat, w);
    lemma_pow2_16();
    let top = pow2((16 - w) as nat) as int;
    assert(val * m + low < 65536) by (nonlinear_arith)
        requires
            0 <= val < top,
            0 <= low < m,
            top * m == 65536,
    ;
}

proof fn lemma_low_bits(n: int, m: int)
    requires
        m > 0,
        -m <= n < m,
    ensures
        n % m == if n >= 0 { n } else { n + m },
{
    if n >= 0 {
        assert(n % m == n) by (nonlinear_arith)
            requires
                0 <= n < m,
        ;
    } else {
        assert(n % m == n + m) by (nonlinear_arith)
            requires
                -m <= n < 0,
                m > 0,
        ;
    }
}

proof fn lemma_pow2_positive(a: nat)
    ensures
        pow2(a) >= 1,
    decreases a,
{
    if a > 0 {
        lemma_pow2_positive((a - 1) as nat);
    }
}

fn pow2_x(w: usize) -> (r: usize)
    requires
        w <= 16,
    ensures
        r as nat == pow2(w as nat),
        r <= 65536,
{
    let mut r: usize = 1;
    let mut k: usize = 0;
    while k < w
        invariant
            k <= w <= 16,
            r as nat == pow2(k as nat),
            r <= 65536,
        decreases w - k,
    {
        proof {
            crate::parsers::assembly::keyword_map::lemma_pow2_bound((k + 1) as nat);
        }
        r = r * 2;
        k = k + 1;
    }
    r
}

impl<'a> ASMParser<'a> {
    fn read_section_x(&mut self) -> (r: Result<(), ParsingError>)
        requires
            old(self).wf(),
        ensures
            final(self).same_input(old(self)),
            match read_section(old(self).source(), old(self).pos(), old(self).state(), old(self).kw()) {
                Ok((st, q)) => r is Ok && final(self).state() == st && final(self).pos() == q,
                Err(e) => r is Err && r->Err_0@ == e,
            },
    {
        match self.burn_x(TokenType::Newline) {
            Ok(()) => {},
            Err(e) => {
                return Err(e);
            },
        }
        let t = match self.expect_x(TokenType::Directive) {
            Ok(t) => t,
            Err(e) => {
                return Err(
                    match e.error_type {
                        ParsingErrorType::UnexpectedToken(t, _) => ParsingError {
                            span: e.span,
                            error_type: ParsingErrorType::NotASection(t),
                        },
                        other => ParsingError { span: e.span, error_type: other },
                    },
                );
            },
        };
        let sec = self.text_of(&t.span);
        let data: &[char] = &['.', 'd', 'a', 't', 'a'];
        let text: &[char] = &['.', 't', 'e', 'x', 't'];
        proof {
            assert(data@ =~= seq!['.', 'd', 'a', 't', 'a']);
            assert(text@ =~= seq!['.', 't', 'e', 'x', 't']);
        }
        let r = if chars_is(sec.as_slice(), data) {
            self.read_data_x()
        } else if chars_is(sec.as_slice(), text) {
            self.read_text_x()
        } else {
            Err(
                ParsingError {
                    span: t.span,
                    error_type: ParsingErrorType::UnrecognizedSession(
                        crate::parsers::text::string_from_chars(sec.as_slice()),
                    ),
                },
            )
        };
        match r {
            Ok(()) => {},
            Err(e) => {
                return Err(e);
            },
        }
        self.burn_x(TokenType::Newline)
    }

    fn label_value_x(&self, name: &[char]) -> (r: Option<usize>)
        ensures
            r == label_value(self.state(), self.offset(), name@),
    {
        match find_label_x(&self.data_mappings, name) {
            Some(v) => Some(v.wrapping_add(self.data_offset)),
            None => find_label_x(&self.ins_mappings, name),
        }
    }

    fn assemble_x(&self, pre: &PreInstruction) -> (r: Result<u16, ParsingError>)
        requires
            pre_fits(pre@),
        ensures
            match assemble(self.state(), self.offset(), pre@) {
                Ok(w) => r is Ok && r->Ok_0 as int == w,
                Err(e) => r is Err && r->Err_0@ == e,
            },
    {
        match &pre.argument {
            None => {
                proof {
                    lemma_pow2_16();
                }
                Ok(pre.keyword_val as u16)
            },
            Some((w, sp, a)) => {
                let w = *w;
                let m = pow2_x(w);
                proof {
                    assert(pow2(w as nat) == 2 * pow2((w - 1) as nat));
                    lemma_pow2_positive((w - 1) as nat);
                }
                let lo: isize = -((m / 2) as isize);
                let hi: isize = (m - 1) as isize;
                let n: isize = match a {
                    PreInstructionArg::Label(l) => match self.label_value_x(l.as_slice()) {
                        Some(x) => x as isize,
                        None => {
                            return Err(
                                ParsingError {
                                    span: *sp,
                                    error_type: ParsingErrorType::UnrecognizedLabel(
                                        crate::parsers::text::string_from_chars(l.as_slice()),
                                    ),
                                },
                            );
                        },
                    },
                    PreInstructionArg::Int(n) => *n,
                };
                if n < lo {
                    return Err(ParsingError { span: *sp, error_type: ParsingErrorType::NumberTooLow(n, lo) });
                }
                if n > hi {
                    return Err(ParsingError { span: *sp, error_type: ParsingErrorType::NumberTooHigh(n, hi) });
                }
                let low: usize = if n >= 0 {
                    n as usize
                } else {
                    (n + (m as isize)) as usize
                };
                let val = pre.keyword_val;
                proof {
                    lemma_low_bits(n as int, m as int);
                    lemma_word_fits(val as int, w as nat, low as int, m as int);
                }
                Ok((val * m + low) as u16)
            },
        }
    }

    fn read_sections_x(&mut self) -> (r: Result<(), ParsingError>)
        requires
            old(self).wf(),
        ensures
            final(self).same_input(old(self)),
            match read_sections(old(self).source(), old(self).pos(), old(self).state(), old(self).kw()) {
                Ok(st) => r is Ok && final(self).state() == st,
                Err(e) => r is Err && r->Err_0@ == e,
            },
    {
        let ghost s = self.source();
        let ghost kw = self.kw();
        let ghost p0 = self.pos();
        let ghost st0 = self.state();
        loop
            invariant
                self.same_input(old(self)),
                s == old(self).source(),
                kw == old(self).kw(),
                p0 == old(self).pos(),
                st0 == old(self).state(),
                0 <= self.pos() <= s.len(),
                read_sections(s, p0, st0, kw) == read_sections(s, self.pos(), self.state(), kw),
            decreases s.len() - self.pos(),
        {
            let pk = self.peek_x();
            match pk {
                Err(e) => {
                    return Err(e);
                },
                Ok(None) => {
                    return Ok(());
                },
                Ok(Some(_)) => {
                    proof {
                        lemma_section_advances(s, self.pos(), self.state(), kw);
                    }
                    match self.read_section_x() {
                        Ok(()) => {},
                        Err(e) => {
                            return Err(e);
                        },
                    }
                },
            }
        }
    }

    fn assemble_all_x(&self) -> (r: Result<(Vec<u16>, Vec<Instruction>), ParsingError>)
        requires
            self.wf(),
        ensures
            match assemble_all(self.state(), self.offset(), self.state().pre) {
                Ok(words) => r is Ok && r->Ok_0.0@.len() == words.len() && r->Ok_0.1@.len() == words.len()
                    && forall|i: int|
                    0 <= i < words.len() ==> (#[trigger] r->Ok_0.0@[i]) as int == words[i]
                        && r->Ok_0.1@[i].content@ == line_of_map(
                        self.map(),
                        self.state().pre[i].keyword_span.line as int,
                    ) && r->Ok_0.1@[i].bin@ == bits16(r->Ok_0.0@[i]),
                Err(e) => r is Err && r->Err_0@ == e,
            },
    {
        let ghost st = self.state();
        let mut ins_mem: Vec<u16> = Vec::new();
        let mut instructions: Vec<Instruction> = Vec::new();
        let mut i: usize = 0;
        proof {
            assert(st.pre.take(0) =~= Seq::<SpecPre>::empty());
            assert(Seq::new(0, |j: int| ins_mem@[j] as int) =~= Seq::<int>::empty());
        }
        while i < self.pre_ins.len()
            invariant
                self.wf(),
                st == self.state(),
                i <= st.pre.len(),
                st.pre.len() == self.pre_ins@.len(),
                assemble_all(st, self.offset(), st.pre.take(i as int)) == Ok::<Seq<int>, SpecError>(
                    Seq::new(i as nat, |j: int| ins_mem@[j] as int),
                ),
                ins_mem@.len() == i,
                instructions@.len() == i,
                forall|j: int|
                    0 <= j < i ==> (#[trigger] instructions@[j]).content@ == line_of_map(
                        self.map(),
                        st.pre[j].keyword_span.line as int,
                    ) && instructions@[j].bin@ == bits16(ins_mem@[j]),
            decreases self.pre_ins.len() - i,
        {
            proof {
                assert(st.pre.take(i + 1).drop_last() =~= st.pre.take(i as int));
                assert(st.pre.take(i + 1).last() == st.pre[i as int]);
                assert(pre_fits(self.pre_ins@[i as int]@));
            }
            let word = match self.assemble_x(&self.pre_ins[i]) {
                Ok(w) => w,
                Err(e) => {
                    proof {
                        lemma_assemble_err_extends(st, self.offset(), st.pre, i + 1);
                    }
                    return Err(e);
                },
            };
            let content = self.source_map.get_line(self.pre_ins[i].keyword_span.line);
            let bin = binary16(word);
            let ghost before = ins_mem@;
            ins_mem.push(word);
            instructions.push(Instruction { content, bin });
            i = i + 1;
            proof {
                assert(Seq::new(i as nat, |j: int| ins_mem@[j] as int) =~= Seq::new(
                    (i - 1) as nat,
                    |j: int| before[j] as int,
                ).push(word as int));
            }
        }
        proof {
            assert(st.pre.take(i as int) =~= st.pre);
        }
        Ok((ins_mem, instructions))
    }

    /// The data segment, the instruction words and the instructions of the
    /// program (`asm_program`); or the first error.
    pub fn parse(self) -> (r: Result<ParserResult, ASMParsingError>)
        requires
            self.wf(),
            self.at_start(),
        ensures
            match asm_program(self.source(), self.kw(), self.offset()) {
                Ok((st, words)) => r is Ok && r->Ok_0.data_mem@ == st.data && r->Ok_0.ins_mem@.len()
                    == words.len() && r->Ok_0.instructions@.len() == words.len() && forall|i: int|
                    0 <= i < words.len() ==> (#[trigger] r->Ok_0.ins_mem@[i]) as int == words[i]
                        && r->Ok_0.instructions@[i].content@ == line_of_map(
                        self.map(),
                        st.pre[i].keyword_span.line as int,
                    ) && r->Ok_0.instructions@[i].bin@ == bits16(r->Ok_0.ins_mem@[i]),
                Err(e) => r is Err && r->Err_0.span == e.span && r->Err_0.error_type@ == e.error_type,
            },
    {
        let mut this = self;
        match this.read_sections_x() {
            Ok(()) => {},
            Err(e) => {
                return Err(ASMParsingError { span: e.span, error_type: e.error_type });
            },
        }
        match this.assemble_all_x() {
            Ok((ins_mem, instructions)) => Ok(ParserResult { data_mem: this.data_mem, ins_mem, instructions }),
            Err(e) => Err(ASMParsingError { span: e.span, error_type: e.error_type }),
        }
    }
}

/// Once an instruction cannot be assembled, those after it change nothing.
proof fn lemma_assemble_err_extends(st: AsmState, offset: usize, pre: Seq<SpecPre>, j: int)
    requires
        0 <= j <= pre.len(),
        assemble_all(st, offset, pre.take(j)) is Err,
    ensures
        assemble_all(st, offset, pre) == assemble_all(st, offset, pre.take(j)),
    decreases pre.len() - j,
{
    if j == pre.len() {
        assert(pre.take(j) =~= pre);
    } else {
        assert(pre.drop_last().take(j) =~= pre.take(j));
        lemma_assemble_err_extends(st, offset, pre.drop_last(), j);
    }
}

} // verus!
