use crate::architecture::datapath::Register;
use crate::parsers::assembly::keyword_map::KeywordMapError;
use crate::parsers::assembly::parser as aparse;
use crate::parsers::assembly::tokenizer as alex;
use crate::parsers::mal::parser as mal;
use crate::parsers::mal::tokenizer as mal_lex;
use crate::parsers::source_map::{SourceMap, Span};
use crate::parsers::text::push_str;
use crate::virtual_machine::format::{decimal, push_decimal, signed_decimal};
use crate::virtual_machine::{VMError, VMInputError};
use vstd::prelude::*;

verus! {

/// The text of `s`.
fn text(s: &str) -> (r: String)
    ensures
        r@ == s@,
{
    let mut r = String::new();
    push_str(&mut r, s);
    r
}

/// Appends `n` in decimal, with a minus sign when it is negative.
fn push_signed(out: &mut String, n: isize)
    ensures
        final(out)@ == old(out)@ + signed_decimal(n as int),
{
    if n < 0 {
        push_str(out, "-");
        let m: u64 = if n == isize::MIN {
            (isize::MAX as u64) + 1
        } else {
            (-n) as u64
        };
        push_decimal(out, m);
        proof {
            reveal_strlit("-");
            assert(final(out)@ =~= old(out)@ + signed_decimal(n as int));
        }
    } else {
        push_decimal(out, n as u64);
    }
}

/// Where a span starts: "linha: L, coluna: C".
pub open spec fn span_words(sp: Span) -> Seq<char> {
    "linha: "@ + decimal(sp.line as nat) + ", coluna: "@ + decimal(sp.col as nat)
}

impl Span {
    /// Where the span starts, as shown to the user (`span_words`).
    pub fn describe(&self) -> (r: String)
        ensures
            r@ == span_words(*self),
    {
        let mut s = text("linha: ");
        push_decimal(&mut s, self.line as u64);
        push_str(&mut s, ", coluna: ");
        push_decimal(&mut s, self.col as u64);
        proof {
            assert(s@ =~= span_words(*self));
        }
        s
    }
}

// ---------------------------------------------------------------------------
// Assembly.
// ---------------------------------------------------------------------------

/// The name of an assembly token kind.
pub open spec fn asm_kind_words(t: alex::SpecTokenType) -> Seq<char> {
    match t {
        alex::SpecTokenType::Identifier => "identificador"@,
        alex::SpecTokenType::Directive => "diretiva"@,
        alex::SpecTokenType::Semicolon => "ponto e vírgula"@,
        alex::SpecTokenType::Colon => "dois pontos"@,
        alex::SpecTokenType::Comma => "vírgula"@,
        alex::SpecTokenType::String(_) => "string"@,
        alex::SpecTokenType::Int(n) => "inteiro "@ + signed_decimal(n),
        alex::SpecTokenType::Newline => "quebra de linha"@,
    }
}

/// An assembly token: its kind and where it starts.
pub open spec fn asm_token_words(t: alex::SpecToken) -> Seq<char> {
    asm_kind_words(t.token_type) + " ("@ + span_words(t.span) + ")"@
}

/// The message of an assembly lexical error.
pub open spec fn asm_lex_error_words(e: alex::TokenizerErrorType) -> Seq<char> {
    match e {
        alex::TokenizerErrorType::InvalidNumber => "Número inválido"@,
        alex::TokenizerErrorType::InvalidDirective => "Diretiva inválida"@,
        alex::TokenizerErrorType::UnexpectedCharacter => "Caracter inexperado"@,
        alex::TokenizerErrorType::UnendedString => "String não terminada"@,
        alex::TokenizerErrorType::UnendedChar => "Caractere não terminado"@,
    }
}

/// The message of an assembly error.
pub open spec fn asm_error_words(e: aparse::SpecErrorType) -> Seq<char> {
    match e {
        aparse::SpecErrorType::TokenError(t) => asm_lex_error_words(t),
        aparse::SpecErrorType::UnexpectedToken(found, expected) => "Esperava "@ + asm_kind_words(expected)
            + ", mas foi encontrado "@ + asm_token_words(found),
        aparse::SpecErrorType::UnrecognizedSession(x) => "Sessão "@ + x
            + " não reconhecida. Tente começar com .data ou .text"@,
        aparse::SpecErrorType::UnrecognizedKeyword(x) => "Keyword \""@ + x + "\" não reconhecida"@,
        aparse::SpecErrorType::UnrecognizedLabel(x) => "Rótulo \""@ + x + "\" não reconhecido"@,
        aparse::SpecErrorType::UnexpectedEnd => "Fim inesperado do conteúdo"@,
        aparse::SpecErrorType::NumberTooLow(n, l) => "Número "@ + signed_decimal(n) + " baixo demais para o limite "@
            + signed_decimal(l),
        aparse::SpecErrorType::NumberTooHigh(n, l) => "Número "@ + signed_decimal(n) + " alto demais para o limite "@
            + signed_decimal(l),
        aparse::SpecErrorType::UnsupportedDirective(_) => "Diretiva não reconhecida"@,
        aparse::SpecErrorType::DuplicatedLabel(x) => "Rótulo "@ + x + " já está em uso"@,
        aparse::SpecErrorType::NotASection(t) => "Esperava início de seção (.data ou .text), mas foi encontrado "@
            + asm_token_words(t) + ". Verifique a formatação..."@,
        aparse::SpecErrorType::NotAnArgument(t) => "Esperava um inteiro ou rótulo, mas foi encontrado "@
            + asm_token_words(t),
    }
}

impl alex::TokenType {
    /// The name of the token kind (`asm_kind_words`).
    pub fn describe(&self) -> (r: String)
        ensures
            r@ == asm_kind_words(self@),
    {
        match self {
            alex::TokenType::Identifier => text("identificador"),
            alex::TokenType::Directive => text("diretiva"),
            alex::TokenType::Semicolon => text("ponto e vírgula"),
            alex::TokenType::Colon => text("dois pontos"),
            alex::TokenType::Comma => text("vírgula"),
            alex::TokenType::String(_) => text("string"),
            alex::TokenType::Int(n) => {
                let mut s = text("inteiro ");
                push_signed(&mut s, *n);
                s
            },
            alex::TokenType::Newline => text("quebra de linha"),
        }
    }
}

impl alex::Token {
    /// The token kind and where it starts (`asm_token_words`).
    pub fn describe(&self) -> (r: String)
        ensures
            r@ == asm_token_words(self@),
    {
        let mut s = self.token_type.describe();
        push_str(&mut s, " (");
        let sp = self.span.describe();
        push_str(&mut s, sp.as_str());
        push_str(&mut s, ")");
        proof {
            assert(s@ =~= asm_token_words(self@));
        }
        s
    }
}

impl alex::TokenizerErrorType {
    /// The message of the error (`asm_lex_error_words`).
    pub fn message(&self) -> (r: String)
        ensures
            r@ == asm_lex_error_words(*self),
    {
        match self {
            alex::TokenizerErrorType::InvalidNumber => text("Número inválido"),
            alex::TokenizerErrorType::InvalidDirective => text("Diretiva inválida"),
            alex::TokenizerErrorType::UnexpectedCharacter => text("Caracter inexperado"),
            alex::TokenizerErrorType::UnendedString => text("String não terminada"),
            alex::TokenizerErrorType::UnendedChar => text("Caractere não terminado"),
        }
    }
}

impl aparse::ParsingErrorType {
    /// The message of the error (`asm_error_words`).
    pub fn message(&self) -> (r: String)
        ensures
            r@ == asm_error_words(self@),
    {
        let r = match self {
            aparse::ParsingErrorType::TokenError(t) => t.message(),
            aparse::ParsingErrorType::UnexpectedToken(found, expected) => {
                let mut s = text("Esperava ");
                let e = expected.describe();
                push_str(&mut s, e.as_str());
                push_str(&mut s, ", mas foi encontrado ");
                let f = found.describe();
                push_str(&mut s, f.as_str());
                s
            },
            aparse::ParsingErrorType::UnrecognizedSession(x) => {
                let mut s = text("Sessão ");
                push_str(&mut s, x.as_str());
                push_str(&mut s, " não reconhecida. Tente começar com .data ou .text");
                s
            },
            aparse::ParsingErrorType::UnrecognizedKeyword(x) => {
                let mut s = text("Keyword \"");
                push_str(&mut s, x.as_str());
                push_str(&mut s, "\" não reconhecida");
                s
            },
            aparse::ParsingErrorType::UnrecognizedLabel(x) => {
                let mut s = text("Rótulo \"");
                push_str(&mut s, x.as_str());
                push_str(&mut s, "\" não reconhecido");
                s
            },
            aparse::ParsingErrorType::UnexpectedEnd => text("Fim inesperado do conteúdo"),
            aparse::ParsingErrorType::NumberTooLow(n, l) => {
                let mut s = text("Número ");
                push_signed(&mut s, *n);
                push_str(&mut s, " baixo demais para o limite ");
                push_signed(&mut s, *l);
                s
            },
            aparse::ParsingErrorType::NumberTooHigh(n, l) => {
                let mut s = text("Número ");
                push_signed(&mut s, *n);
                push_str(&mut s, " alto demais para o limite ");
                push_signed(&mut s, *l);
                s
            },
            aparse::ParsingErrorType::UnsupportedDirective(_) => text("Diretiva não reconhecida"),
            aparse::ParsingErrorType::DuplicatedLabel(x) => {
                let mut s = text("Rótulo ");
                push_str(&mut s, x.as_str());
                push_str(&mut s, " já está em uso");
                s
            },
            aparse::ParsingErrorType::NotASection(t) => {
                let mut s = text("Esperava início de seção (.data ou .text), mas foi encontrado ");
                let d = t.describe();
                push_str(&mut s, d.as_str());
                push_str(&mut s, ". Verifique a formatação...");
                s
            },
            aparse::ParsingErrorType::NotAnArgument(t) => {
                let mut s = text("Esperava um inteiro ou rótulo, mas foi encontrado ");
                let d = t.describe();
                push_str(&mut s, d.as_str());
                s
            },
        };
        proof {
            assert(r@ =~= asm_error_words(self@));
        }
        r
    }
}

/// Where an error was found and what it is, with the line of the text that
/// shows it (`highlight`).
pub open spec fn located_words(sp: Span, highlight: Seq<char>, what: Seq<char>) -> Seq<char> {
    "Erro ao ler linha "@ + decimal(sp.line as nat) + ", coluna "@ + decimal(sp.col as nat) + ":\n"@ + highlight
        + "\n\n"@ + what
}

/// Where an error was found and what it is.
fn located(sp: &Span, highlight: &String, what: &String) -> (r: String)
    ensures
        r@ == located_words(*sp, highlight@, what@),
{
    let mut s = text("Erro ao ler linha ");
    push_decimal(&mut s, sp.line as u64);
    push_str(&mut s, ", coluna ");
    push_decimal(&mut s, sp.col as u64);
    push_str(&mut s, ":\n");
    push_str(&mut s, highlight.as_str());
    push_str(&mut s, "\n\n");
    push_str(&mut s, what.as_str());
    proof {
        assert(s@ =~= located_words(*sp, highlight@, what@));
    }
    s
}

impl aparse::ASMParsingError {
    /// The report of the error over the text it was found in: where, the line
    /// with the span marked (`SourceMap::highlight_in_line`), and the message.
    pub fn report(&self, source_map: &SourceMap) -> (r: String)
        requires
            source_map.wf(),
            self.span.start <= self.span.end,
        ensures
            r@ == located_words(self.span, source_map.highlighted(self.span), asm_error_words(self.error_type@)),
    {
        let h = source_map.highlight_in_line(&self.span);
        let m = self.error_type.message();
        located(&self.span, &h, &m)
    }
}

// ---------------------------------------------------------------------------
// Microprograms.
// ---------------------------------------------------------------------------

/// How a register is shown: its name, "(nenhum)" for the ALU output.
pub open spec fn register_words(r: Register) -> Seq<char> {
    if r == Register::Alu {
        seq!['(', 'n', 'e', 'n', 'h', 'u', 'm', ')']
    } else {
        r.spec_name()
    }
}

/// The name of a microprogram token kind.
pub open spec fn mal_kind_words(t: mal_lex::TokenType) -> Seq<char> {
    match t {
        mal_lex::TokenType::Identifier => "identificador"@,
        mal_lex::TokenType::Semicolon => "ponto e vírgula"@,
        mal_lex::TokenType::Colon => "dois pontos"@,
        mal_lex::TokenType::Comma => "vírgula"@,
        mal_lex::TokenType::Newline => "quebra de linha"@,
        mal_lex::TokenType::LeftParen => "parênseses esquedo"@,
        mal_lex::TokenType::RightParen => "parênseses direito"@,
        mal_lex::TokenType::Shift(sh) => if sh == 1 {
            "lshift"@
        } else if sh == 2 {
            "rshift"@
        } else {
            "lshift ou rshift"@
        },
        mal_lex::TokenType::AluFunc(_) => "operação da ula"@,
        mal_lex::TokenType::Register(r) => "registrador "@ + register_words(r),
        mal_lex::TokenType::If => "if"@,
        mal_lex::TokenType::Then => "then"@,
        mal_lex::TokenType::Goto => "goto"@,
        mal_lex::TokenType::Plus => "+"@,
        mal_lex::TokenType::Assign => ":="@,
        mal_lex::TokenType::Syscall => "syscall"@,
        mal_lex::TokenType::Wr => "wr"@,
        mal_lex::TokenType::Rd => "rd"@,
        mal_lex::TokenType::Condition(c) => if c == 1 {
            "n"@
        } else if c == 2 {
            "z"@
        } else {
            "condição"@
        },
    }
}

/// A microprogram token: its kind and where it starts.
pub open spec fn mal_token_words(t: mal_lex::Token) -> Seq<char> {
    mal_kind_words(t.token_type) + " ("@ + span_words(t.span) + ")"@
}

/// What the parser was looking for.
pub open spec fn expected_words(x: mal::Expected) -> Seq<char> {
    match x {
        mal::Expected::LabelOrInstruction => "rótulo ou instrução"@,
        mal::Expected::Instruction => "instrução"@,
        mal::Expected::Goto => "goto"@,
        mal::Expected::Label => "rótulo"@,
        mal::Expected::Condition => "condição (n ou z)"@,
        mal::Expected::ThenOrGoto => "then ou goto"@,
        mal::Expected::Operation => "operação"@,
        mal::Expected::AluOperation => "operação da ula"@,
        mal::Expected::Register => "registrador"@,
        mal::Expected::Plus => "+"@,
        mal::Expected::Anything => Seq::empty(),
        mal::Expected::Token(t) => mal_kind_words(t),
    }
}

/// The name of a control signal.
pub open spec fn signal_words(x: mal::Signal) -> Seq<char> {
    match x {
        mal::Signal::Amux => "amux"@,
        mal::Signal::Cond => "cond"@,
        mal::Signal::Alu => "alu"@,
        mal::Signal::Sh => "sh"@,
        mal::Signal::Mbr => "mbr"@,
        mal::Signal::Mar => "mar"@,
        mal::Signal::Rd => "rd"@,
        mal::Signal::Wr => "wr"@,
        mal::Signal::Enc => "enc"@,
        mal::Signal::C => "c"@,
        mal::Signal::B => "b"@,
        mal::Signal::A => "a"@,
        mal::Signal::AddrName => "addr_name"@,
        mal::Signal::Syscall => "syscall"@,
    }
}

/// A value given to a signal.
pub open spec fn value_words(v: mal::SignalValue) -> Seq<char> {
    match v {
        mal::SignalValue::Bool(b) => if b {
            "true"@
        } else {
            "false"@
        },
        mal::SignalValue::Int(n) => decimal(n as nat),
        mal::SignalValue::Label(sp) => span_words(sp),
    }
}

/// Two values given to one signal.
pub open spec fn conflict_words(c: mal::Conflict) -> Seq<char> {
    "registrador "@ + signal_words(c.signal) + " (antes: "@ + value_words(c.before) + ", depois: "@
        + value_words(c.after) + ")"@
}

/// The message of a microprogram lexical error.
pub open spec fn mal_lex_error_words(e: mal_lex::TokenizerErrorType) -> Seq<char> {
    match e {
        mal_lex::TokenizerErrorType::UnexpectedCharacter => "Caractere inexperado"@,
        mal_lex::TokenizerErrorType::UnexpectedMinus => "Caractere \"-\" inexperado. (Nota: o nome do registrador é (-1), com parênteses)"@,
    }
}

/// The message of a microprogram error.
pub open spec fn mal_error_words(e: mal::ParsingErrorType) -> Seq<char> {
    match e {
        mal::ParsingErrorType::TokenError(t) => mal_lex_error_words(t),
        mal::ParsingErrorType::ValueConflict(c) => "Conflito de valores: "@ + conflict_words(c),
        mal::ParsingErrorType::UnexpectedEnd(x) => "Experava "@ + expected_words(x) + ", mas não foi encontrado"@,
        mal::ParsingErrorType::UnexpectedToken(x, t) => "Esperava "@ + expected_words(x) + ", mas foi encontrado "@
            + mal_token_words(t),
        mal::ParsingErrorType::NotARealRegister => "alu não pode ser usado como registrador em operação da ula"@,
        mal::ParsingErrorType::IlegalOperation(r) => "O registrador "@ + register_words(r)
            + " não pode receber essa operação"@,
        mal::ParsingErrorType::ImplossibleRoute(a, b) => "O registrador "@ + register_words(a)
            + " não pode ser usado para atribuir valor para o registrador "@ + register_words(b) + " diretamente"@,
        mal::ParsingErrorType::WriteOnlyRegister(r) => "O registrador "@ + register_words(r)
            + " não é acessível para operações da ula"@,
        mal::ParsingErrorType::UnrecognizedRegister => "Registrador não reconhecido"@,
        mal::ParsingErrorType::UnrecognizedLabel => "Rótulo não encontrado"@,
    }
}

/// How a register is shown (`register_words`).
fn register_text(r: Register) -> (s: String)
    ensures
        s@ == register_words(r),
{
    text(r.name())
}

impl mal_lex::TokenType {
    /// The name of the token kind (`mal_kind_words`).
    pub fn describe(&self) -> (r: String)
        ensures
            r@ == mal_kind_words(*self),
    {
        let r = match self {
            mal_lex::TokenType::Identifier => text("identificador"),
            mal_lex::TokenType::Semicolon => text("ponto e vírgula"),
            mal_lex::TokenType::Colon => text("dois pontos"),
            mal_lex::TokenType::Comma => text("vírgula"),
            mal_lex::TokenType::Newline => text("quebra de linha"),
            mal_lex::TokenType::LeftParen => text("parênseses esquedo"),
            mal_lex::TokenType::RightParen => text("parênseses direito"),
            mal_lex::TokenType::Shift(sh) => if *sh == 1 {
                text("lshift")
            } else if *sh == 2 {
                text("rshift")
            } else {
                text("lshift ou rshift")
            },
            mal_lex::TokenType::AluFunc(_) => text("operação da ula"),
            mal_lex::TokenType::Register(reg) => {
                let mut s = text("registrador ");
                let n = register_text(*reg);
                push_str(&mut s, n.as_str());
                s
            },
            mal_lex::TokenType::If => text("if"),
            mal_lex::TokenType::Then => text("then"),
            mal_lex::TokenType::Goto => text("goto"),
            mal_lex::TokenType::Plus => text("+"),
            mal_lex::TokenType::Assign => text(":="),
            mal_lex::TokenType::Syscall => text("syscall"),
            mal_lex::TokenType::Wr => text("wr"),
            mal_lex::TokenType::Rd => text("rd"),
            mal_lex::TokenType::Condition(c) => if *c == 1 {
                text("n")
            } else if *c == 2 {
                text("z")
            } else {
                text("condição")
            },
        };
        proof {
            assert(r@ =~= mal_kind_words(*self));
        }
        r
    }
}

impl mal_lex::Token {
    /// The token kind and where it starts (`mal_token_words`).
    pub fn describe(&self) -> (r: String)
        ensures
            r@ == mal_token_words(*self),
    {
        let mut s = self.token_type.describe();
        push_str(&mut s, " (");
        let sp = self.span.describe();
        push_str(&mut s, sp.as_str());
        push_str(&mut s, ")");
        proof {
            assert(s@ =~= mal_token_words(*self));
        }
        s
    }
}

impl mal::Expected {
    /// What the parser was looking for (`expected_words`).
    pub fn describe(&self) -> (r: String)
        ensures
            r@ == expected_words(*self),
    {
        match self {
            mal::Expected::LabelOrInstruction => text("rótulo ou instrução"),
            mal::Expected::Instruction => text("instrução"),
            mal::Expected::Goto => text("goto"),
            mal::Expected::Label => text("rótulo"),
            mal::Expected::Condition => text("condição (n ou z)"),
            mal::Expected::ThenOrGoto => text("then ou goto"),
            mal::Expected::Operation => text("operação"),
            mal::Expected::AluOperation => text("operação da ula"),
            mal::Expected::Register => text("registrador"),
            mal::Expected::Plus => text("+"),
            mal::Expected::Anything => String::new(),
            mal::Expected::Token(t) => t.describe(),
        }
    }
}

impl mal::Conflict {
    /// The two values given to the signal (`conflict_words`).
    pub fn describe(&self) -> (r: String)
        ensures
            r@ == conflict_words(*self),
    {
        let mut s = text("registrador ");
        let name = match self.signal {
            mal::Signal::Amux => "amux",
            mal::Signal::Cond => "cond",
            mal::Signal::Alu => "alu",
            mal::Signal::Sh => "sh",
            mal::Signal::Mbr => "mbr",
            mal::Signal::Mar => "mar",
            mal::Signal::Rd => "rd",
            mal::Signal::Wr => "wr",
            mal::Signal::Enc => "enc",
            mal::Signal::C => "c",
            mal::Signal::B => "b",
            mal::Signal::A => "a",
            mal::Signal::AddrName => "addr_name",
            mal::Signal::Syscall => "syscall",
        };
        push_str(&mut s, name);
        push_str(&mut s, " (antes: ");
        push_value(&mut s, self.before);
        push_str(&mut s, ", depois: ");
        push_value(&mut s, self.after);
        push_str(&mut s, ")");
        proof {
            assert(s@ =~= conflict_words(*self));
        }
        s
    }
}

/// Appends a value given to a signal (`value_words`).
fn push_value(out: &mut String, v: mal::SignalValue)
    ensures
        final(out)@ == old(out)@ + value_words(v),
{
    match v {
        mal::SignalValue::Bool(b) => if b {
            push_str(out, "true")
        } else {
            push_str(out, "false")
        },
        mal::SignalValue::Int(n) => push_decimal(out, n as u64),
        mal::SignalValue::Label(sp) => {
            let t = sp.describe();
            push_str(out, t.as_str());
        },
    }
}

impl mal_lex::TokenizerErrorType {
    /// The message of the error (`mal_lex_error_words`).
    pub fn message(&self) -> (r: String)
        ensures
            r@ == mal_lex_error_words(*self),
    {
        match self {
            mal_lex::TokenizerErrorType::UnexpectedCharacter => text("Caractere inexperado"),
            mal_lex::TokenizerErrorType::UnexpectedMinus => text(
                "Caractere \"-\" inexperado. (Nota: o nome do registrador é (-1), com parênteses)",
            ),
        }
    }
}

impl mal::ParsingErrorType {
    /// The message of the error (`mal_error_words`).
    pub fn message(&self) -> (r: String)
        ensures
            r@ == mal_error_words(*self),
    {
        let r = match self {
            mal::ParsingErrorType::TokenError(t) => t.message(),
            mal::ParsingErrorType::ValueConflict(c) => {
                let mut s = text("Conflito de valores: ");
                let d = c.describe();
                push_str(&mut s, d.as_str());
                s
            },
            mal::ParsingErrorType::UnexpectedEnd(x) => {
                let mut s = text("Experava ");
                let d = x.describe();
                push_str(&mut s, d.as_str());
                push_str(&mut s, ", mas não foi encontrado");
                s
            },
            mal::ParsingErrorType::UnexpectedToken(x, t) => {
                let mut s = text("Esperava ");
                let d = x.describe();
                push_str(&mut s, d.as_str());
                push_str(&mut s, ", mas foi encontrado ");
                let f = t.describe();
                push_str(&mut s, f.as_str());
                s
            },
            mal::ParsingErrorType::NotARealRegister => text(
                "alu não pode ser usado como registrador em operação da ula",
            ),
            mal::ParsingErrorType::IlegalOperation(reg) => {
                let mut s = text("O registrador ");
                let n = register_text(*reg);
                push_str(&mut s, n.as_str());
                push_str(&mut s, " não pode receber essa operação");
                s
            },
            mal::ParsingErrorType::ImplossibleRoute(a, b) => {
                let mut s = text("O registrador ");
                let n = register_text(*a);
                push_str(&mut s, n.as_str());
                push_str(&mut s, " não pode ser usado para atribuir valor para o registrador ");
                let m = register_text(*b);
                push_str(&mut s, m.as_str());
                push_str(&mut s, " diretamente");
                s
            },
            mal::ParsingErrorType::WriteOnlyRegister(reg) => {
                let mut s = text("O registrador ");
                let n = register_text(*reg);
                push_str(&mut s, n.as_str());
                push_str(&mut s, " não é acessível para operações da ula");
                s
            },
            mal::ParsingErrorType::UnrecognizedRegister => text("Registrador não reconhecido"),
            mal::ParsingErrorType::UnrecognizedLabel => text("Rótulo não encontrado"),
        };
        proof {
            assert(r@ =~= mal_error_words(*self));
        }
        r
    }
}

impl mal::MALParsingError {
    /// The report of the error over the text it was found in: where, the line
    /// with the span marked (`SourceMap::highlight_in_line`), and the message.
    pub fn report(&self, source_map: &SourceMap) -> (r: String)
        requires
            source_map.wf(),
            self.span.start <= self.span.end,
        ensures
            r@ == located_words(self.span, source_map.highlighted(self.span), mal_error_words(self.error_type)),
    {
        let h = source_map.highlight_in_line(&self.span);
        let m = self.error_type.message();
        located(&self.span, &h, &m)
    }
}

// ---------------------------------------------------------------------------
// Instruction tables and the machine.
// ---------------------------------------------------------------------------

/// The message of a refused instruction definition.
pub open spec fn keyword_error_words(e: KeywordMapError) -> Seq<char> {
    match e {
        KeywordMapError::EmptyName => "Nome vazio"@,
        KeywordMapError::EmptyOpCode => "Código vazio"@,
        KeywordMapError::OpCodeTooLong => "Código muito longo"@,
        KeywordMapError::InvalidOpCode => "Código inválido"@,
        KeywordMapError::WrongFormat => "Formato inválido"@,
    }
}

impl KeywordMapError {
    /// The message of the error (`keyword_error_words`).
    pub fn message(&self) -> (r: String)
        ensures
            r@ == keyword_error_words(*self),
    {
        match self {
            KeywordMapError::EmptyName => text("Nome vazio"),
            KeywordMapError::EmptyOpCode => text("Código vazio"),
            KeywordMapError::OpCodeTooLong => text("Código muito longo"),
            KeywordMapError::InvalidOpCode => text("Código inválido"),
            KeywordMapError::WrongFormat => text("Formato inválido"),
        }
    }
}

/// The message of a refused input.
pub open spec fn input_error_words(e: VMInputError) -> Seq<char> {
    match e {
        VMInputError::InvalidNumber(n, lo, hi) => "Número "@ + signed_decimal(n as int) + " fora dos limites ("@
            + signed_decimal(lo as int) + " a "@ + signed_decimal(hi as int) + ")"@,
        VMInputError::WrongType => "Tipo de input errado"@,
        VMInputError::Unexpected => "Input inesperado"@,
    }
}

impl VMInputError {
    /// The message of the error (`input_error_words`).
    pub fn message(&self) -> (r: String)
        ensures
            r@ == input_error_words(*self),
    {
        match self {
            VMInputError::InvalidNumber(n, lo, hi) => {
                let mut s = text("Número ");
                push_signed(&mut s, *n);
                push_str(&mut s, " fora dos limites (");
                push_signed(&mut s, *lo);
                push_str(&mut s, " a ");
                push_signed(&mut s, *hi);
                push_str(&mut s, ")");
                proof {
                    assert(s@ =~= input_error_words(*self));
                }
                s
            },
            VMInputError::WrongType => text("Tipo de input errado"),
            VMInputError::Unexpected => text("Input inesperado"),
        }
    }
}

/// The message of an error of the machine; a parse error is located without
/// the line of text.
pub open spec fn vm_error_words(e: VMError) -> Seq<char> {
    match e {
        VMError::ASMParsingError(b) => located_words(b.span, Seq::empty(), asm_error_words(b.error_type@)),
        VMError::MALParsingError(b) => located_words(b.span, Seq::empty(), mal_error_words(b.error_type)),
        VMError::MarChanged => "MAR mudou durante operação da memória. Risco de corrupção de memória."@,
        VMError::MbrChanged => "MBR mudou durante operação de escrita. Risco de corrupção de memória."@,
        VMError::InstructionWrite(_) => "Tentativa de escrita no segmento de instrução, que é somente leitura durante execução."@,
        VMError::InstructionSegmentOverflow(_) => "Quantidade de instruções excede a capacidade do segmento de instruções."@,
        VMError::DataSegmentOverflow(_) => "Quantidade de instruções excede a capacidade do segmento de dados."@,
        VMError::MicroMemOverflow(_) => "Quantidade de microinstruções excede a capacidade da memória de microinstrução."@,
    }
}

impl VMError {
    /// The message of the error (`vm_error_words`).
    pub fn message(&self) -> (r: String)
        ensures
            r@ == vm_error_words(*self),
    {
        match self {
            VMError::ASMParsingError(b) => {
                let m = b.error_type.message();
                located(&b.span, &String::new(), &m)
            },
            VMError::MALParsingError(b) => {
                let m = b.error_type.message();
                located(&b.span, &String::new(), &m)
            },
            VMError::MarChanged => text("MAR mudou durante operação da memória. Risco de corrupção de memória."),
            VMError::MbrChanged => text("MBR mudou durante operação de escrita. Risco de corrupção de memória."),
            VMError::InstructionWrite(_) => text(
                "Tentativa de escrita no segmento de instrução, que é somente leitura durante execução.",
            ),
            VMError::InstructionSegmentOverflow(_) => text(
                "Quantidade de instruções excede a capacidade do segmento de instruções.",
            ),
            VMError::DataSegmentOverflow(_) => text(
                "Quantidade de instruções excede a capacidade do segmento de dados.",
            ),
            VMError::MicroMemOverflow(_) => text(
                "Quantidade de microinstruções excede a capacidade da memória de microinstrução.",
            ),
        }
    }
}

} // verus!
