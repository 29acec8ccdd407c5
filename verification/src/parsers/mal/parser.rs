use crate::architecture::datapath::{Register, alu_output, shifter_output};
use crate::architecture::signals::ControlSignals;
use crate::parsers::mal::mir_builder::{ControlSignalsBuilder, refuses};
use crate::parsers::mal::tokenizer::{
    Lexed, Token, TokenType, Tokenizer, TokenizerError, TokenizerErrorType, after, identifier_kind, lexed, mapped_token,
};
use crate::parsers::source_map::{SourceMap, Span, end_span, line_text, span_text};
use vstd::prelude::*;

verus! {

broadcast use crate::parsers::mal::tokenizer::lemma_after_advances, crate::parsers::mal::tokenizer::lemma_wf_bounds;

/// What the parser was looking for when it found something else.
#[derive(Debug, Clone, Copy, PartialEq, Eq, Structural)]
pub enum Expected {
    LabelOrInstruction,
    Instruction,
    Goto,
    Label,
    Condition,
    ThenOrGoto,
    Operation,
    AluOperation,
    Register,
    Plus,
    Anything,
    Token(TokenType),
}

/// A control signal of a microinstruction, as named in a conflict.
#[derive(Debug, Clone, Copy, PartialEq, Eq, Structural)]
pub enum Signal {
    Amux,
    Cond,
    Alu,
    Sh,
    Mbr,
    Mar,
    Rd,
    Wr,
    Enc,
    C,
    B,
    A,
    AddrName,
    Syscall,
}

/// The value given to a signal.
#[derive(Debug, Clone, Copy, PartialEq, Eq, Structural)]
pub enum SignalValue {
    Bool(bool),
    Int(u8),
    Label(Span),
}

/// Two values given to one signal in one microinstruction.
#[derive(Debug, Clone, Copy, PartialEq, Eq, Structural)]
pub struct Conflict {
    pub signal: Signal,
    pub before: SignalValue,
    pub after: SignalValue,
}

/// The kinds of error in a microprogram.
#[derive(Debug, Clone, Copy, PartialEq, Eq, Structural)]
pub enum ParsingErrorType {
    TokenError(TokenizerErrorType),
    ValueConflict(Conflict),
    UnexpectedEnd(Expected),
    UnexpectedToken(Expected, Token),
    NotARealRegister,
    IlegalOperation(Register),
    ImplossibleRoute(Register, Register),
    WriteOnlyRegister(Register),
    UnrecognizedRegister,
    UnrecognizedLabel,
}

/// An error in a microprogram and where it was found.
#[derive(Debug, Clone, Copy, PartialEq, Eq, Structural)]
pub struct ParsingError {
    pub span: Span,
    pub error_type: ParsingErrorType,
}

/// The error that a microprogram was refused with.
#[derive(Debug, Clone, Copy, PartialEq, Eq, Structural)]
pub struct MALParsingError {
    pub span: Span,
    pub error_type: ParsingErrorType,
}

/// A microinstruction: the text of its line and its control signals.
#[derive(Debug, Clone)]
pub struct Microinstruction {
    pub content: String,
    pub mir: ControlSignals,
}

/// What the right side of an assignment asks of the ALU and the shifter: the
/// shift (with where it was written), the ALU function, the register on the A
/// bus and the one on the B bus, each with where it was written.
#[derive(Debug, Clone, Copy)]
pub struct OperationInfo {
    pub shift: Option<(u8, Span)>,
    pub alu_op: (u8, Span),
    pub reg_a: (Register, Span),
    pub reg_b: Option<(Register, Span)>,
}

// ---------------------------------------------------------------------------
// The grammar and its meaning, over the source text `s` and a position `p` in it.
// ---------------------------------------------------------------------------

/// The error a lexical error becomes.
pub open spec fn token_error(te: TokenizerError) -> ParsingError {
    ParsingError { span: te.span, error_type: ParsingErrorType::TokenError(te.error_type) }
}

/// Reads the next token, unmapped; at the end of the text, an error that says
/// what was expected.
pub open spec fn take_raw(s: Seq<char>, p: int, exp: Expected) -> Result<(Token, int), ParsingError> {
    match lexed(s, p) {
        None => Err(ParsingError { span: end_span(s), error_type: ParsingErrorType::UnexpectedEnd(exp) }),
        Some(Err(te)) => Err(token_error(te)),
        Some(Ok(t)) => Ok((t, after(s, p))),
    }
}

/// Reads the next token, mapped.
pub open spec fn take(s: Seq<char>, p: int, exp: Expected) -> Result<(Token, int), ParsingError> {
    match take_raw(s, p, exp) {
        Ok((t, q)) => Ok((mapped_token(t, s), q)),
        Err(e) => Err(e),
    }
}

/// The kind of the next token, unmapped, without reading it.
pub open spec fn peek_type(s: Seq<char>, p: int) -> Result<Option<TokenType>, ParsingError> {
    match lexed(s, p) {
        None => Ok(None),
        Some(Err(te)) => Err(token_error(te)),
        Some(Ok(t)) => Ok(Some(t.token_type)),
    }
}

/// Reads the next token, which must be of kind `typ`.
pub open spec fn expect_tok(s: Seq<char>, p: int, typ: TokenType) -> Result<(Token, int), ParsingError> {
    match take(s, p, Expected::Token(typ)) {
        Ok((t, q)) => if t.token_type == typ {
            Ok((t, q))
        } else {
            Err(
                ParsingError {
                    span: t.span,
                    error_type: ParsingErrorType::UnexpectedToken(Expected::Token(typ), t),
                },
            )
        },
        Err(e) => Err(e),
    }
}

/// Reads a register.
pub open spec fn expect_reg(s: Seq<char>, p: int) -> Result<((Register, Span), int), ParsingError> {
    match take(s, p, Expected::Register) {
        Ok((t, q)) => match t.token_type {
            TokenType::Register(r) => Ok(((r, t.span), q)),
            _ => Err(
                ParsingError {
                    span: t.span,
                    error_type: ParsingErrorType::UnexpectedToken(Expected::Register, t),
                },
            ),
        },
        Err(e) => Err(e),
    }
}

/// The error for two values of one signal, reported at `sp`.
pub open spec fn conflict_error(sp: Span, signal: Signal, before: SignalValue, after: SignalValue) -> ParsingError {
    ParsingError {
        span: sp,
        error_type: ParsingErrorType::ValueConflict(Conflict { signal, before, after }),
    }
}

/// Gives `signal` the value `v` in `b`, or the conflict with the value it holds
/// (reported at `sp`). A value of the wrong kind for the signal changes nothing.
pub open spec fn set_signal(b: ControlSignalsBuilder, signal: Signal, v: SignalValue, sp: Span) -> Result<
    ControlSignalsBuilder,
    ParsingError,
> {
    match (signal, v) {
        (Signal::Amux, SignalValue::Bool(x)) => if refuses(b.amux, x) {
            Err(conflict_error(sp, signal, SignalValue::Bool(b.amux->0), v))
        } else {
            Ok(ControlSignalsBuilder { amux: Some(x), ..b })
        },
        (Signal::Mbr, SignalValue::Bool(x)) => if refuses(b.mbr, x) {
            Err(conflict_error(sp, signal, SignalValue::Bool(b.mbr->0), v))
        } else {
            Ok(ControlSignalsBuilder { mbr: Some(x), ..b })
        },
        (Signal::Mar, SignalValue::Bool(x)) => if refuses(b.mar, x) {
            Err(conflict_error(sp, signal, SignalValue::Bool(b.mar->0), v))
        } else {
            Ok(ControlSignalsBuilder { mar: Some(x), ..b })
        },
        (Signal::Rd, SignalValue::Bool(x)) => if refuses(b.rd, x) {
            Err(conflict_error(sp, signal, SignalValue::Bool(b.rd->0), v))
        } else {
            Ok(ControlSignalsBuilder { rd: Some(x), ..b })
        },
        (Signal::Wr, SignalValue::Bool(x)) => if refuses(b.wr, x) {
            Err(conflict_error(sp, signal, SignalValue::Bool(b.wr->0), v))
        } else {
            Ok(ControlSignalsBuilder { wr: Some(x), ..b })
        },
        (Signal::Enc, SignalValue::Bool(x)) => if refuses(b.enc, x) {
            Err(conflict_error(sp, signal, SignalValue::Bool(b.enc->0), v))
        } else {
            Ok(ControlSignalsBuilder { enc: Some(x), ..b })
        },
        (Signal::Syscall, SignalValue::Bool(x)) => if refuses(b.syscall, x) {
            Err(conflict_error(sp, signal, SignalValue::Bool(b.syscall->0), v))
        } else {
            Ok(ControlSignalsBuilder { syscall: Some(x), ..b })
        },
        (Signal::Cond, SignalValue::Int(x)) => if refuses(b.cond, x) {
            Err(conflict_error(sp, signal, SignalValue::Int(b.cond->0), v))
        } else {
            Ok(ControlSignalsBuilder { cond: Some(x), ..b })
        },
        (Signal::Alu, SignalValue::Int(x)) => if refuses(b.alu, x) {
            Err(conflict_error(sp, signal, SignalValue::Int(b.alu->0), v))
        } else {
            Ok(ControlSignalsBuilder { alu: Some(x), ..b })
        },
        (Signal::Sh, SignalValue::Int(x)) => if refuses(b.sh, x) {
            Err(conflict_error(sp, signal, SignalValue::Int(b.sh->0), v))
        } else {
            Ok(ControlSignalsBuilder { sh: Some(x), ..b })
        },
        (Signal::C, SignalValue::Int(x)) => if refuses(b.c, x) {
            Err(conflict_error(sp, signal, SignalValue::Int(b.c->0), v))
        } else {
            Ok(ControlSignalsBuilder { c: Some(x), ..b })
        },
        (Signal::B, SignalValue::Int(x)) => if refuses(b.b, x) {
            Err(conflict_error(sp, signal, SignalValue::Int(b.b->0), v))
        } else {
            Ok(ControlSignalsBuilder { b: Some(x), ..b })
        },
        (Signal::A, SignalValue::Int(x)) => if refuses(b.a, x) {
            Err(conflict_error(sp, signal, SignalValue::Int(b.a->0), v))
        } else {
            Ok(ControlSignalsBuilder { a: Some(x), ..b })
        },
        (Signal::AddrName, SignalValue::Label(x)) => if refuses(b.addr_name, x) {
            Err(conflict_error(sp, signal, SignalValue::Label(b.addr_name->0), v))
        } else {
            Ok(ControlSignalsBuilder { addr_name: Some(x), ..b })
        },
        _ => Ok(b),
    }
}

/// The operation of an assignment's right side that starts with `first`
/// (already read; `p` is after it): `r`, `r + r`, `band(r, r)` or `inv(r)`.
pub open spec fn read_operation(s: Seq<char>, first: Token, p: int) -> Result<(OperationInfo, int), ParsingError> {
    match first.token_type {
        TokenType::Register(ra) => match peek_type(s, p) {
            Err(e) => Err(e),
            Ok(Some(TokenType::Plus)) => match take(s, p, Expected::Plus) {
                Err(e) => Err(e),
                Ok((plus, q)) => match expect_reg(s, q) {
                    Err(e) => Err(e),
                    Ok((rb, q2)) => Ok(
                        (
                            OperationInfo {
                                shift: None,
                                alu_op: (0u8, plus.span),
                                reg_a: (ra, first.span),
                                reg_b: Some(rb),
                            },
                            q2,
                        ),
                    ),
                },
            },
            Ok(_) => Ok(
                (
                    OperationInfo {
                        shift: None,
                        alu_op: (2u8, first.span),
                        reg_a: (ra, first.span),
                        reg_b: None,
                    },
                    p,
                ),
            ),
        },
        TokenType::AluFunc(1) => match expect_tok(s, p, TokenType::LeftParen) {
            Err(e) => Err(e),
            Ok((_, q1)) => match expect_reg(s, q1) {
                Err(e) => Err(e),
                Ok((ra, q2)) => match expect_tok(s, q2, TokenType::Comma) {
                    Err(e) => Err(e),
                    Ok((_, q3)) => match expect_reg(s, q3) {
                        Err(e) => Err(e),
                        Ok((rb, q4)) => match expect_tok(s, q4, TokenType::RightParen) {
                            Err(e) => Err(e),
                            Ok((_, q5)) => Ok(
                                (
                                    OperationInfo {
                                        shift: None,
                                        alu_op: (1u8, first.span),
                                        reg_a: ra,
                                        reg_b: Some(rb),
                                    },
                                    q5,
                                ),
                            ),
                        },
                    },
                },
            },
        },
        TokenType::AluFunc(3) => match expect_tok(s, p, TokenType::LeftParen) {
            Err(e) => Err(e),
            Ok((_, q1)) => match expect_reg(s, q1) {
                Err(e) => Err(e),
                Ok((ra, q2)) => match expect_tok(s, q2, TokenType::RightParen) {
                    Err(e) => Err(e),
                    Ok((_, q3)) => Ok(
                        (
                            OperationInfo { shift: None, alu_op: (3u8, first.span), reg_a: ra, reg_b: None },
                            q3,
                        ),
                    ),
                },
            },
        },
        _ => Err(
            ParsingError {
                span: first.span,
                error_type: ParsingErrorType::UnexpectedToken(Expected::AluOperation, first),
            },
        ),
    }
}

/// A shifted operation `lshift(op)` or `rshift(op)` whose shift token `first`
/// (of shift `sh`) was read.
pub open spec fn read_shift(s: Seq<char>, first: Token, sh: u8, p: int) -> Result<(OperationInfo, int), ParsingError> {
    match expect_tok(s, p, TokenType::LeftParen) {
        Err(e) => Err(e),
        Ok((_, q1)) => match take(s, q1, Expected::AluOperation) {
            Err(e) => Err(e),
            Ok((op_first, q2)) => match read_operation(s, op_first, q2) {
                Err(e) => Err(e),
                Ok((info, q3)) => match expect_tok(s, q3, TokenType::RightParen) {
                    Err(e) => Err(e),
                    Ok((_, q4)) => Ok((OperationInfo { shift: Some((sh, first.span)), ..info }, q4)),
                },
            },
        },
    }
}

/// The register `r` on a bus, if one is given and it is `r`.
pub open spec fn uses(reg: Option<(Register, Span)>, r: Register) -> bool {
    reg matches Some(x) && x.0 == r
}

/// The first part of an assignment to `dest` (written at `fspan`): a register
/// of the bank is selected on the C bus and written; MAR accepts only a plain
/// register other than MBR; MBR is written.
pub open spec fn assign_dest(b: ControlSignalsBuilder, dest: Register, fspan: Span, info: OperationInfo) -> Result<
    ControlSignalsBuilder,
    ParsingError,
> {
    match dest.bank_index() {
        Some(d) => match set_signal(b, Signal::C, SignalValue::Int(d as u8), fspan) {
            Err(e) => Err(e),
            Ok(b1) => set_signal(b1, Signal::Enc, SignalValue::Bool(true), fspan),
        },
        None => if dest == Register::Mar {
            if info.alu_op.0 != 2 {
                Err(ParsingError { span: info.alu_op.1, error_type: ParsingErrorType::IlegalOperation(Register::Mar) })
            } else if info.shift is Some {
                Err(
                    ParsingError {
                        span: (info.shift->0).1,
                        error_type: ParsingErrorType::IlegalOperation(Register::Mar),
                    },
                )
            } else if info.reg_a.0 == Register::Mbr {
                Err(
                    ParsingError {
                        span: info.reg_a.1,
                        error_type: ParsingErrorType::ImplossibleRoute(Register::Mbr, Register::Mar),
                    },
                )
            } else {
                Ok(b)
            }
        } else if dest == Register::Mbr {
            set_signal(b, Signal::Mbr, SignalValue::Bool(true), fspan)
        } else {
            Ok(b)
        },
    }
}

/// The error for an operand that cannot be read: MAR (write only) or the ALU
/// output (no register).
pub open spec fn operand_error(info: OperationInfo) -> Option<ParsingError> {
    if uses(info.reg_b, Register::Mar) {
        Some(ParsingError { span: (info.reg_b->0).1, error_type: ParsingErrorType::WriteOnlyRegister(Register::Mar) })
    } else if info.reg_a.0 == Register::Mar {
        Some(ParsingError { span: info.reg_a.1, error_type: ParsingErrorType::WriteOnlyRegister(Register::Mar) })
    } else if uses(info.reg_b, Register::Alu) {
        Some(ParsingError { span: (info.reg_b->0).1, error_type: ParsingErrorType::NotARealRegister })
    } else if info.reg_a.0 == Register::Alu {
        Some(ParsingError { span: info.reg_a.1, error_type: ParsingErrorType::NotARealRegister })
    } else {
        None
    }
}

/// The shifter and ALU signals of an assignment to anything but MAR.
pub open spec fn assign_ops(b: ControlSignalsBuilder, dest_is_mar: bool, aspan: Span, info: OperationInfo) -> Result<
    ControlSignalsBuilder,
    ParsingError,
> {
    if dest_is_mar {
        Ok(b)
    } else {
        let shifted = match info.shift {
            Some((sh, sp)) => set_signal(b, Signal::Sh, SignalValue::Int(sh), sp),
            None => set_signal(b, Signal::Sh, SignalValue::Int(0), aspan),
        };
        match shifted {
            Err(e) => Err(e),
            Ok(b1) => set_signal(b1, Signal::Alu, SignalValue::Int(info.alu_op.0), info.alu_op.1),
        }
    }
}

/// The operands on the A and B buses: swapped when the destination is MAR
/// (which reads the B bus) or when MBR is given second (MBR reaches the ALU only
/// through the A multiplexer).
pub open spec fn bus_operands(dest_is_mar: bool, info: OperationInfo) -> (Option<(Register, Span)>, Option<(Register, Span)>) {
    if dest_is_mar || (uses(info.reg_b, Register::Mbr) && info.reg_a.0 != Register::Mbr) {
        (info.reg_b, Some(info.reg_a))
    } else {
        (Some(info.reg_a), info.reg_b)
    }
}

/// The A bus operand: MBR through the multiplexer, or a register of the bank.
/// When the register is already on the B bus and the other operand can go on
/// the A bus, the two change places. Gives the B operand that is left.
pub open spec fn assign_a(b: ControlSignalsBuilder, ra: Option<(Register, Span)>, rb: Option<(Register, Span)>) -> Result<
    (ControlSignalsBuilder, Option<(Register, Span)>),
    ParsingError,
> {
    match ra {
        None => Ok((b, rb)),
        Some((r, sp)) => if r == Register::Mbr {
            match set_signal(b, Signal::Amux, SignalValue::Bool(true), sp) {
                Err(e) => Err(e),
                Ok(b1) => Ok((b1, rb)),
            }
        } else {
            match r.bank_index() {
                None => Err(ParsingError { span: sp, error_type: ParsingErrorType::UnrecognizedRegister }),
                Some(ai) => {
                    let a = ai as u8;
                    let swap = rb is Some && (rb->0).0.bank_index() is Some && b.b is Some && a == b.b->0 && (
                    b.a is None || b.a == Some(((rb->0).0.bank_index()->0) as u8));
                    if swap {
                        let (rbr, rbsp) = rb->0;
                        match set_signal(b, Signal::A, SignalValue::Int((rbr.bank_index()->0) as u8), rbsp) {
                            Err(e) => Err(e),
                            Ok(b1) => match set_signal(b1, Signal::B, SignalValue::Int(a), sp) {
                                Err(e) => Err(e),
                                Ok(b2) => match set_signal(b2, Signal::Amux, SignalValue::Bool(false), sp) {
                                    Err(e) => Err(e),
                                    Ok(b3) => Ok((b3, Some((r, sp)))),
                                },
                            },
                        }
                    } else {
                        match set_signal(b, Signal::A, SignalValue::Int(a), sp) {
                            Err(e) => Err(e),
                            Ok(b1) => match set_signal(b1, Signal::Amux, SignalValue::Bool(false), sp) {
                                Err(e) => Err(e),
                                Ok(b2) => Ok((b2, rb)),
                            },
                        }
                    }
                },
            }
        },
    }
}

/// The B bus operand. When B already holds another register that A holds too
/// and MAR is not set yet, A and B change places and MAR is set to whether it
/// is the destination.
pub open spec fn assign_b(
    b: ControlSignalsBuilder,
    rb: Option<(Register, Span)>,
    dest_is_mar: bool,
    fspan: Span,
) -> Result<ControlSignalsBuilder, ParsingError> {
    match rb {
        None => Ok(b),
        Some((r, sp)) => match r.bank_index() {
            None => Err(ParsingError { span: sp, error_type: ParsingErrorType::UnrecognizedRegister }),
            Some(bi) => {
                let v = bi as u8;
                if !refuses(b.b, v) {
                    Ok(ControlSignalsBuilder { b: Some(v), ..b })
                } else if b.a is Some && b.a->0 == v && b.mar is None {
                    let b1 = ControlSignalsBuilder { b: Some(v), a: Some(b.b->0), ..b };
                    set_signal(b1, Signal::Mar, SignalValue::Bool(dest_is_mar), fspan)
                } else {
                    Err(conflict_error(sp, Signal::B, SignalValue::Int(b.b->0), SignalValue::Int(v)))
                }
            },
        },
    }
}

/// The signals that the assignment `dest := operation` adds to `b`: `fspan` is
/// where the destination was written, `aspan` where `:=` was.
pub open spec fn assign_effect(
    b: ControlSignalsBuilder,
    dest: Register,
    fspan: Span,
    aspan: Span,
    info: OperationInfo,
) -> Result<ControlSignalsBuilder, ParsingError> {
    let dest_is_mar = dest == Register::Mar;
    match assign_dest(b, dest, fspan, info) {
        Err(e) => Err(e),
        Ok(b1) => match operand_error(info) {
            Some(e) => Err(e),
            None => match assign_ops(b1, dest_is_mar, aspan, info) {
                Err(e) => Err(e),
                Ok(b2) => {
                    let (ra, rb) = bus_operands(dest_is_mar, info);
                    match assign_a(b2, ra, rb) {
                        Err(e) => Err(e),
                        Ok((b3, rb2)) => match assign_b(b3, rb2, dest_is_mar, fspan) {
                            Err(e) => Err(e),
                            Ok(b4) => if dest_is_mar {
                                set_signal(b4, Signal::Mar, SignalValue::Bool(true), fspan)
                            } else {
                                Ok(b4)
                            },
                        },
                    }
                },
            },
        },
    }
}

/// An assignment whose destination token `first` (a register) was read.
pub open spec fn read_assignment(s: Seq<char>, b: ControlSignalsBuilder, first: Token, p: int) -> Result<
    (ControlSignalsBuilder, int),
    ParsingError,
> {
    match expect_tok(s, p, TokenType::Assign) {
        Err(e) => Err(e),
        Ok((assign, q1)) => match take(s, q1, Expected::Operation) {
            Err(e) => Err(e),
            Ok((op_first, q2)) => {
                let info = match op_first.token_type {
                    TokenType::Shift(sh) => read_shift(s, op_first, sh, q2),
                    TokenType::Register(_) => read_operation(s, op_first, q2),
                    TokenType::AluFunc(_) => read_operation(s, op_first, q2),
                    _ => Err(
                        ParsingError {
                            span: op_first.span,
                            error_type: ParsingErrorType::UnexpectedToken(Expected::AluOperation, op_first),
                        },
                    ),
                };
                match info {
                    Err(e) => Err(e),
                    Ok((info, q3)) => match first.token_type {
                        TokenType::Register(dest) => match assign_effect(b, dest, first.span, assign.span, info) {
                            Err(e) => Err(e),
                            Ok(b1) => Ok((b1, q3)),
                        },
                        _ => Ok((b, q3)),
                    },
                }
            },
        },
    }
}

/// A jump `goto label` (or `then goto label`) whose first token was read: the
/// address is the label, and the condition is "always" unless one was set.
pub open spec fn read_goto(s: Seq<char>, b: ControlSignalsBuilder, first: Token, p: int) -> Result<
    (ControlSignalsBuilder, int),
    ParsingError,
> {
    let g = if first.token_type == TokenType::Then {
        expect_tok(s, p, TokenType::Goto)
    } else {
        Ok((first, p))
    };
    match g {
        Err(e) => Err(e),
        Ok((g, q)) => if g.token_type != TokenType::Goto {
            Err(ParsingError { span: g.span, error_type: ParsingErrorType::UnexpectedToken(Expected::Goto, g) })
        } else {
            match take_raw(s, q, Expected::Label) {
                Err(e) => Err(e),
                Ok((id, q2)) => if id.token_type != TokenType::Identifier {
                    Err(
                        ParsingError {
                            span: id.span,
                            error_type: ParsingErrorType::UnexpectedToken(Expected::Label, id),
                        },
                    )
                } else {
                    match set_signal(b, Signal::AddrName, SignalValue::Label(id.span), id.span) {
                        Err(e) => Err(e),
                        Ok(b1) => {
                            let b2 = match set_signal(b1, Signal::Cond, SignalValue::Int(3), g.span) {
                                Ok(x) => x,
                                Err(_) => b1,
                            };
                            Ok((b2, q2))
                        },
                    }
                },
            }
        },
    }
}

/// A conditional jump `if n|z (then) goto label` whose `if` token was read.
pub open spec fn read_conditional(s: Seq<char>, b: ControlSignalsBuilder, first: Token, p: int) -> Result<
    (ControlSignalsBuilder, int),
    ParsingError,
> {
    match take(s, p, Expected::Condition) {
        Err(e) => Err(e),
        Ok((c, q)) => {
            let b1 = match c.token_type {
                TokenType::Condition(cv) => set_signal(b, Signal::Cond, SignalValue::Int(cv), first.span),
                _ => Err(
                    ParsingError {
                        span: first.span,
                        error_type: ParsingErrorType::UnexpectedToken(Expected::Condition, first),
                    },
                ),
            };
            match b1 {
                Err(e) => Err(e),
                Ok(b1) => match take(s, q, Expected::ThenOrGoto) {
                    Err(e) => Err(e),
                    Ok((gf, q2)) => read_goto(s, b1, gf, q2),
                },
            }
        },
    }
}

/// One statement whose first token (mapped) was read.
#[verifier::opaque]
pub open spec fn read_statement(s: Seq<char>, b: ControlSignalsBuilder, first: Token, p: int) -> Result<
    (ControlSignalsBuilder, int),
    ParsingError,
> {
    match first.token_type {
        TokenType::Syscall => match set_signal(b, Signal::Syscall, SignalValue::Bool(true), first.span) {
            Err(e) => Err(e),
            Ok(b1) => Ok((b1, p)),
        },
        TokenType::Wr => match set_signal(b, Signal::Wr, SignalValue::Bool(true), first.span) {
            Err(e) => Err(e),
            Ok(b1) => Ok((b1, p)),
        },
        TokenType::Rd => match set_signal(b, Signal::Rd, SignalValue::Bool(true), first.span) {
            Err(e) => Err(e),
            Ok(b1) => Ok((b1, p)),
        },
        TokenType::Goto => read_goto(s, b, first, p),
        TokenType::Then => read_goto(s, b, first, p),
        TokenType::If => read_conditional(s, b, first, p),
        TokenType::Register(_) => read_assignment(s, b, first, p),
        _ => Err(
            ParsingError {
                span: first.span,
                error_type: ParsingErrorType::UnexpectedToken(Expected::Instruction, first),
            },
        ),
    }
}

/// The statements of a microinstruction, from the one whose first token (mapped)
/// was read: each ends with `;`, and the microinstruction ends at a line feed or
/// at the end of the text.
#[verifier::opaque]
pub open spec fn read_clock(s: Seq<char>, b: ControlSignalsBuilder, first: Token, p: int) -> Result<
    (ControlSignalsBuilder, int),
    ParsingError,
>
    decreases s.len() - p,
    when 0 <= p <= s.len()
{
    match read_statement(s, b, first, p) {
        Err(e) => Err(e),
        Ok((b1, q)) => match expect_tok(s, q, TokenType::Semicolon) {
            Err(e) => Err(e),
            Ok((_, q2)) => match peek_type(s, q2) {
                Err(e) => Err(e),
                Ok(None) => Ok((b1, q2)),
                Ok(Some(TokenType::Newline)) => Ok((b1, q2)),
                Ok(Some(_)) => match take(s, q2, Expected::Anything) {
                    Err(e) => Err(e),
                    Ok((f2, q3)) => {
                        proof {
                            lemma_statement_advances(s, b, first, p);
                        }
                        read_clock(s, b1, f2, q3)
                    },
                },
            },
        },
    }
}

/// Skips line feeds.
pub open spec fn burn_newlines(s: Seq<char>, p: int) -> Result<int, ParsingError>
    decreases s.len() - p,
    when 0 <= p <= s.len()
{
    match peek_type(s, p) {
        Err(e) => Err(e),
        Ok(Some(TokenType::Newline)) => burn_newlines(s, after(s, p)),
        Ok(_) => Ok(p),
    }
}

/// The end of a line: the end of the text, or line feeds.
pub open spec fn expect_newline(s: Seq<char>, p: int) -> Result<int, ParsingError> {
    if lexed(s, p) is None {
        Ok(p)
    } else {
        match expect_tok(s, p, TokenType::Newline) {
            Err(e) => Err(e),
            Ok((_, q)) => burn_newlines(s, q),
        }
    }
}

/// A line of the microprogram: labels `name:` (each naming the microinstruction
/// at index `count`, added to `labels`) and then a microinstruction. Gives the
/// labels, the signals with the line number, and the position after the line.
#[verifier::opaque]
pub open spec fn parse_clock(s: Seq<char>, p: int, labels: Seq<(Seq<char>, usize)>, count: usize) -> Result<
    (Seq<(Seq<char>, usize)>, (ControlSignalsBuilder, usize), int),
    ParsingError,
>
    decreases s.len() - p,
    when 0 <= p <= s.len()
{
    match take_raw(s, p, Expected::LabelOrInstruction) {
        Err(e) => Err(e),
        Ok((first, p1)) => if first.token_type != TokenType::Identifier {
            Err(
                ParsingError {
                    span: first.span,
                    error_type: ParsingErrorType::UnexpectedToken(Expected::LabelOrInstruction, first),
                },
            )
        } else {
            match peek_type(s, p1) {
                Err(e) => Err(e),
                Ok(Some(TokenType::Colon)) => parse_clock(
                    s,
                    after(s, p1),
                    labels.push((span_text(s, first.span.start as int, first.span.end as int), count)),
                    count,
                ),
                Ok(_) => match read_clock(s, ControlSignalsBuilder::empty(), mapped_token(first, s), p1) {
                    Err(e) => Err(e),
                    Ok((b, q)) => match expect_newline(s, q) {
                        Err(e) => Err(e),
                        Ok(q2) => Ok((labels, (b, first.span.line), q2)),
                    },
                },
            }
        },
    }
}

/// The lines of the microprogram from `p` on, after the labels `labels` and the
/// microinstructions `pre` read before.
#[verifier::opaque]
pub open spec fn parse_lines(s: Seq<char>, p: int, labels: Seq<(Seq<char>, usize)>, pre: Seq<(ControlSignalsBuilder, usize)>) -> Result<
    (Seq<(Seq<char>, usize)>, Seq<(ControlSignalsBuilder, usize)>),
    ParsingError,
>
    decreases s.len() - p,
    when 0 <= p <= s.len()
{
    if lexed(s, p) is None {
        Ok((labels, pre))
    } else {
        match parse_clock(s, p, labels, pre.len() as usize) {
            Err(e) => Err(e),
            Ok((l2, pm, q)) => {
                proof {
                    lemma_parse_clock_advances(s, p, labels, pre.len() as usize);
                }
                parse_lines(s, q, l2, pre.push(pm))
            },
        }
    }
}

/// The microinstruction that a label names: the last definition counts.
pub open spec fn label_address(labels: Seq<(Seq<char>, usize)>, name: Seq<char>) -> Option<usize>
    decreases labels.len(),
{
    if labels.len() == 0 {
        None
    } else if labels.last().0 == name {
        Some(labels.last().1)
    } else {
        label_address(labels.drop_last(), name)
    }
}

/// The signals of one microinstruction, with the address of the label it jumps
/// to (0 when it names none).
pub open spec fn resolve_one(s: Seq<char>, labels: Seq<(Seq<char>, usize)>, b: ControlSignalsBuilder) -> Result<
    ControlSignals,
    ParsingError,
> {
    match b.addr_name {
        Some(sp) => match label_address(labels, span_text(s, sp.start as int, sp.end as int)) {
            Some(a) => Ok(b.built(a as u16)),
            None => Err(ParsingError { span: sp, error_type: ParsingErrorType::UnrecognizedLabel }),
        },
        None => Ok(b.built(0)),
    }
}

/// The signals of the microinstructions, in order, with their line numbers; or
/// the first jump to a label that does not exist.
pub open spec fn resolve(s: Seq<char>, labels: Seq<(Seq<char>, usize)>, pre: Seq<(ControlSignalsBuilder, usize)>) -> Result<
    Seq<(ControlSignals, usize)>,
    ParsingError,
>
    decreases pre.len(),
{
    if pre.len() == 0 {
        Ok(Seq::empty())
    } else {
        match resolve(s, labels, pre.drop_last()) {
            Err(e) => Err(e),
            Ok(v) => match resolve_one(s, labels, pre.last().0) {
                Err(e) => Err(e),
                Ok(sig) => Ok(v.push((sig, pre.last().1))),
            },
        }
    }
}

/// The microprogram of the text `s`: the signals of each microinstruction with
/// the number of its line, or the first error.
pub open spec fn parse_program(s: Seq<char>) -> Result<Seq<(ControlSignals, usize)>, ParsingError> {
    match burn_newlines(s, 0) {
        Err(e) => Err(e),
        Ok(p) => match parse_lines(s, p, Seq::empty(), Seq::empty()) {
            Err(e) => Err(e),
            Ok((labels, pre)) => resolve(s, labels, pre),
        },
    }
}

// ---------------------------------------------------------------------------
// Reading never moves back and stays within the text.
// ---------------------------------------------------------------------------

/// What an operation of an assignment makes the ALU compute from its two
/// inputs `x` (bus A) and `y` (bus B): `band(r1, r2)` gives `x & y`,
/// `inv(r)` gives `!x`, `r1 + r2` gives `x + y` (modulo 2^16) and a lone `r`
/// gives `x`.
#[verifier::spinoff_prover]
#[verifier::rlimit(40)]
pub proof fn lemma_operation_meaning(s: Seq<char>, first: Token, p: int)
    requires
        read_operation(s, first, p) is Ok,
    ensures
        ({
            let info = read_operation(s, first, p)->Ok_0.0;
            let op = info.alu_op.0;
            &&& first.token_type == identifier_kind(seq!['b', 'a', 'n', 'd']) ==> info.reg_b is Some && forall|
                x: u16,
                y: u16,
                prev: u16,
            | #[trigger] alu_output(op, x, y, prev) == x & y
            &&& first.token_type == identifier_kind(seq!['i', 'n', 'v']) ==> info.reg_b is None && forall|
                x: u16,
                y: u16,
                prev: u16,
            | #[trigger] alu_output(op, x, y, prev) == !x
            &&& first.token_type is Register ==> (info.reg_b is Some ==> forall|x: u16, y: u16, prev: u16|
                #[trigger] alu_output(op, x, y, prev) == (x + y) % 65536) && (info.reg_b is None ==> forall|
                x: u16,
                y: u16,
                prev: u16,
            | #[trigger] alu_output(op, x, y, prev) == x)
        }),
{
    lemma_band_inv_kinds();
    let info = read_operation(s, first, p)->Ok_0.0;
    if first.token_type == TokenType::AluFunc(1) {
        assert(info.alu_op.0 == 1 && info.reg_b is Some);
    } else if first.token_type == TokenType::AluFunc(3) {
        assert(info.alu_op.0 == 3 && info.reg_b is None);
    } else if first.token_type is Register {
        assert((info.alu_op.0 == 0 && info.reg_b is Some) || (info.alu_op.0 == 2 && info.reg_b is None));
    }
}

/// A conditional jump `if n ... goto` asks for condition 1 and `if z ... goto`
/// for condition 2: the cycle then jumps exactly when the ALU output is
/// negative, or zero (see `lemma_cycle_branches`). The jump address is the
/// label written after `goto`.
#[verifier::spinoff_prover]
#[verifier::rlimit(40)]
pub proof fn lemma_conditional_meaning(s: Seq<char>, b: ControlSignalsBuilder, first: Token, p: int)
    requires
        read_conditional(s, b, first, p) is Ok,
    ensures
        ({
            let b1 = read_conditional(s, b, first, p)->Ok_0.0;
            let c = take(s, p, Expected::Condition)->Ok_0.0;
            &&& take(s, p, Expected::Condition) is Ok
            &&& c.token_type == identifier_kind(seq!['n']) ==> b1.cond == Some(1u8)
            &&& c.token_type == identifier_kind(seq!['z']) ==> b1.cond == Some(2u8)
            &&& b1.addr_name is Some
        }),
{
    let n = seq!['n'];
    let z = seq!['z'];
    assert(n.len() == 1 && n[0] == 'n');
    assert(z.len() == 1 && z[0] == 'z');
    assert(Register::named(n) is None);
    assert(Register::named(z) is None);
    assert(identifier_kind(n) == TokenType::Condition(1));
    assert(identifier_kind(z) == TokenType::Condition(2));
    let (c, q) = take(s, p, Expected::Condition)->Ok_0;
    if c.token_type is Condition {
        let cv = c.token_type->Condition_0;
        let b1 = set_signal(b, Signal::Cond, SignalValue::Int(cv), first.span)->Ok_0;
        assert(b1.cond == Some(cv));
        let (gf, q2) = take(s, q, Expected::ThenOrGoto)->Ok_0;
        let r = read_goto(s, b1, gf, q2);
        let g = if gf.token_type == TokenType::Then {
            expect_tok(s, q2, TokenType::Goto)
        } else {
            Ok((gf, q2))
        };
        let (g2, q3) = g->Ok_0;
        let (id, q4) = take_raw(s, q3, Expected::Label)->Ok_0;
        let b2 = set_signal(b1, Signal::AddrName, SignalValue::Label(id.span), id.span)->Ok_0;
        assert(b2.cond == Some(cv));
        assert(b2.addr_name is Some);
        if cv != 3 {
            assert(set_signal(b2, Signal::Cond, SignalValue::Int(3), g2.span) is Err);
        }
    }
}

/// `lshift(op)` makes the shifter double the ALU output (modulo 2^16) and
/// `rshift(op)` halve it (rounding down), on top of what `op` asks of the ALU.
#[verifier::spinoff_prover]
#[verifier::rlimit(40)]
pub proof fn lemma_shift_meaning(s: Seq<char>, first: Token, sh: u8, p: int)
    requires
        first.token_type == TokenType::Shift(sh),
        read_shift(s, first, sh, p) is Ok,
    ensures
        ({
            let info = read_shift(s, first, sh, p)->Ok_0.0;
            let op = match info.shift {
                Some((k, _)) => k,
                None => 0u8,
            };
            &&& info.shift is Some
            &&& first.token_type == identifier_kind(seq!['l', 's', 'h', 'i', 'f', 't']) ==> forall|v: u16|
                #[trigger] shifter_output(op, v) == (2 * v) % 65536
            &&& first.token_type == identifier_kind(seq!['r', 's', 'h', 'i', 'f', 't']) ==> forall|v: u16|
                #[trigger] shifter_output(op, v) == v / 2
        }),
{
    let l = seq!['l', 's', 'h', 'i', 'f', 't'];
    let r = seq!['r', 's', 'h', 'i', 'f', 't'];
    assert(l.len() == 6 && l[0] == 'l' && l[1] == 's');
    assert(r.len() == 6 && r[0] == 'r' && r[1] == 's');
    assert(Register::named(l) is None);
    assert(Register::named(r) is None);
    assert(identifier_kind(l) == TokenType::Shift(1));
    assert(identifier_kind(r) == TokenType::Shift(2));
}

proof fn lemma_set_signal_frame(b: ControlSignalsBuilder, signal: Signal, v: SignalValue, sp: Span)
    requires
        set_signal(b, signal, v, sp) is Ok,
    ensures
        ({
            let b1 = set_signal(b, signal, v, sp)->Ok_0;
            &&& signal != Signal::C ==> b1.c == b.c
            &&& signal != Signal::Enc ==> b1.enc == b.enc
            &&& signal != Signal::Alu ==> b1.alu == b.alu
            &&& signal != Signal::Sh ==> b1.sh == b.sh
            &&& signal != Signal::Mbr ==> b1.mbr == b.mbr
            &&& signal != Signal::Mar ==> b1.mar == b.mar
            &&& signal != Signal::A ==> b1.a == b.a
            &&& signal != Signal::B ==> b1.b == b.b
            &&& signal != Signal::Amux ==> b1.amux == b.amux
            &&& (signal == Signal::A && v is Int) ==> b1.a == Some(v->Int_0)
            &&& (signal == Signal::B && v is Int) ==> b1.b == Some(v->Int_0)
            &&& (signal == Signal::Amux && v is Bool) ==> b1.amux == Some(v->Bool_0)
            &&& (signal == Signal::C && v is Int) ==> b1.c == Some(v->Int_0)
            &&& (signal == Signal::Enc && v is Bool) ==> b1.enc == Some(v->Bool_0)
            &&& (signal == Signal::Alu && v is Int) ==> b1.alu == Some(v->Int_0)
            &&& (signal == Signal::Sh && v is Int) ==> b1.sh == Some(v->Int_0)
            &&& (signal == Signal::Mbr && v is Bool) ==> b1.mbr == Some(v->Bool_0)
            &&& (signal == Signal::Mar && v is Bool) ==> b1.mar == Some(v->Bool_0)
        }),
{
}

/// What an assignment `dest := operation` asks of the processor: a register of
/// the bank as destination is written from bus C (`enc`, with `c` its
/// number); MBR as destination is loaded (`mbr`); MAR as destination is loaded
/// from bus B (`mar`). For every destination but MAR the ALU computes the
/// operation's function and the shifter applies its shift (none when there is
/// no shift).
#[verifier::spinoff_prover]
#[verifier::rlimit(40)]
pub proof fn lemma_assignment_signals(
    b: ControlSignalsBuilder,
    dest: Register,
    fspan: Span,
    aspan: Span,
    info: OperationInfo,
)
    requires
        assign_effect(b, dest, fspan, aspan, info) is Ok,
    ensures
        ({
            let b4 = assign_effect(b, dest, fspan, aspan, info)->Ok_0;
            let sh: u8 = match info.shift {
                Some((k, _)) => k,
                None => 0u8,
            };
            &&& dest.bank_index() is Some ==> b4.c == Some((dest.bank_index()->0) as u8) && b4.enc == Some(true)
            &&& dest == Register::Mbr ==> b4.mbr == Some(true)
            &&& dest == Register::Mar ==> b4.mar == Some(true)
            &&& dest != Register::Mar ==> b4.alu == Some(info.alu_op.0) && b4.sh == Some(sh)
            &&& (dest == Register::Mar && info.reg_b is None) ==> info.reg_a.0.bank_index() is Some && b4.b == Some(
                (info.reg_a.0.bank_index()->0) as u8,
            )
            &&& (dest != Register::Mar && info.reg_b is None && info.reg_a.0 == Register::Mbr) ==> b4.amux == Some(
                true,
            )
            &&& (dest != Register::Mar && info.reg_b is None && info.reg_a.0.bank_index() is Some) ==> b4.a == Some(
                (info.reg_a.0.bank_index()->0) as u8,
            ) && b4.amux == Some(false)
        }),
{
    let dest_is_mar = dest == Register::Mar;
    let b1 = assign_dest(b, dest, fspan, info)->Ok_0;
    if dest.bank_index() is Some {
        let d = dest.bank_index()->0;
        let bc = set_signal(b, Signal::C, SignalValue::Int(d as u8), fspan)->Ok_0;
        lemma_set_signal_frame(b, Signal::C, SignalValue::Int(d as u8), fspan);
        lemma_set_signal_frame(bc, Signal::Enc, SignalValue::Bool(true), fspan);
        assert(b1.c == Some(d as u8) && b1.enc == Some(true));
    } else if dest == Register::Mbr {
        lemma_set_signal_frame(b, Signal::Mbr, SignalValue::Bool(true), fspan);
    }
    let b2 = assign_ops(b1, dest_is_mar, aspan, info)->Ok_0;
    if !dest_is_mar {
        let shv: u8 = match info.shift {
            Some((k, _)) => k,
            None => 0u8,
        };
        let shsp = match info.shift {
            Some((_, sp)) => sp,
            None => aspan,
        };
        let bs = set_signal(b1, Signal::Sh, SignalValue::Int(shv), shsp)->Ok_0;
        lemma_set_signal_frame(b1, Signal::Sh, SignalValue::Int(shv), shsp);
        lemma_set_signal_frame(bs, Signal::Alu, SignalValue::Int(info.alu_op.0), info.alu_op.1);
    }
    let (ra, rb) = bus_operands(dest_is_mar, info);
    lemma_assign_a_frame(b2, ra, rb);
    let (b3, rb2) = assign_a(b2, ra, rb)->Ok_0;
    if !dest_is_mar && info.reg_b is None {
        let (r, sp) = info.reg_a;
        if r == Register::Mbr {
            lemma_set_signal_frame(b2, Signal::Amux, SignalValue::Bool(true), sp);
        } else if r.bank_index() is Some {
            let a = (r.bank_index()->0) as u8;
            let b5 = set_signal(b2, Signal::A, SignalValue::Int(a), sp)->Ok_0;
            lemma_set_signal_frame(b2, Signal::A, SignalValue::Int(a), sp);
            lemma_set_signal_frame(b5, Signal::Amux, SignalValue::Bool(false), sp);
            assert(b3 == set_signal(b5, Signal::Amux, SignalValue::Bool(false), sp)->Ok_0);
        }
        assert(rb2 is None);
    }
    lemma_assign_b_frame(b3, rb2, dest_is_mar, fspan);
    let b4 = assign_b(b3, rb2, dest_is_mar, fspan)->Ok_0;
    if dest_is_mar {
        lemma_set_signal_frame(b4, Signal::Mar, SignalValue::Bool(true), fspan);
    }
}

proof fn lemma_assign_a_frame(b: ControlSignalsBuilder, ra: Option<(Register, Span)>, rb: Option<(Register, Span)>)
    requires
        assign_a(b, ra, rb) is Ok,
    ensures
        ({
            let b1 = assign_a(b, ra, rb)->Ok_0.0;
            b1.c == b.c && b1.enc == b.enc && b1.alu == b.alu && b1.sh == b.sh && b1.mbr == b.mbr && b1.mar == b.mar
        }),
{
    match ra {
        None => {},
        Some((r, sp)) => {
            if r == Register::Mbr {
                lemma_set_signal_frame(b, Signal::Amux, SignalValue::Bool(true), sp);
            } else {
                let ai = r.bank_index()->0;
                let a = ai as u8;
                let swap = rb is Some && (rb->0).0.bank_index() is Some && b.b is Some && a == b.b->0 && (b.a is None
                    || b.a == Some(((rb->0).0.bank_index()->0) as u8));
                if swap {
                    let (rbr, rbsp) = rb->0;
                    let va = SignalValue::Int((rbr.bank_index()->0) as u8);
                    let b1 = set_signal(b, Signal::A, va, rbsp)->Ok_0;
                    lemma_set_signal_frame(b, Signal::A, va, rbsp);
                    let b2 = set_signal(b1, Signal::B, SignalValue::Int(a), sp)->Ok_0;
                    lemma_set_signal_frame(b1, Signal::B, SignalValue::Int(a), sp);
                    lemma_set_signal_frame(b2, Signal::Amux, SignalValue::Bool(false), sp);
                } else {
                    let b1 = set_signal(b, Signal::A, SignalValue::Int(a), sp)->Ok_0;
                    lemma_set_signal_frame(b, Signal::A, SignalValue::Int(a), sp);
                    lemma_set_signal_frame(b1, Signal::Amux, SignalValue::Bool(false), sp);
                }
            }
        },
    }
}

proof fn lemma_assign_b_frame(b: ControlSignalsBuilder, rb: Option<(Register, Span)>, dest_is_mar: bool, fspan: Span)
    requires
        assign_b(b, rb, dest_is_mar, fspan) is Ok,
    ensures
        ({
            let b1 = assign_b(b, rb, dest_is_mar, fspan)->Ok_0;
            &&& b1.c == b.c && b1.enc == b.enc && b1.alu == b.alu && b1.sh == b.sh && b1.mbr == b.mbr
            &&& b.mar is Some ==> b1.mar == b.mar
            &&& rb is None ==> b1 == b
            &&& b1.amux == b.amux
            &&& rb matches Some(x) ==> x.0.bank_index() is Some && b1.b == Some((x.0.bank_index()->0) as u8)
        }),
{
    match rb {
        None => {},
        Some((r, sp)) => {
            let v = (r.bank_index()->0) as u8;
            if !refuses(b.b, v) {
            } else {
                let b1 = ControlSignalsBuilder { b: Some(v), a: Some(b.b->0), ..b };
                lemma_set_signal_frame(b1, Signal::Mar, SignalValue::Bool(dest_is_mar), fspan);
            }
        },
    }
}

proof fn lemma_band_inv_kinds()
    ensures
        identifier_kind(seq!['b', 'a', 'n', 'd']) == TokenType::AluFunc(1),
        identifier_kind(seq!['i', 'n', 'v']) == TokenType::AluFunc(3),
{
    let band = seq!['b', 'a', 'n', 'd'];
    let inv = seq!['i', 'n', 'v'];
    assert(band.len() == 4 && band[0] == 'b' && band[3] == 'd');
    assert(inv.len() == 3 && inv[0] == 'i');
    assert(Register::named(band) is None);
    assert(Register::named(inv) is None);
}

/// Where an operation ends.
pub proof fn lemma_operation_advances(s: Seq<char>, first: Token, p: int)
    requires
        0 <= p <= s.len(),
    ensures
        read_operation(s, first, p) matches Ok((_, q)) ==> p <= q <= s.len(),
{
}

/// Where a shifted operation ends.
pub proof fn lemma_shift_advances(s: Seq<char>, first: Token, sh: u8, p: int)
    requires
        0 <= p <= s.len(),
    ensures
        read_shift(s, first, sh, p) matches Ok((_, q)) ==> p <= q <= s.len(),
{
    match expect_tok(s, p, TokenType::LeftParen) {
        Ok((_, q1)) => match take(s, q1, Expected::AluOperation) {
            Ok((op_first, q2)) => {
                lemma_operation_advances(s, op_first, q2);
            },
            _ => {},
        },
        _ => {},
    }
}

/// Where a statement ends.
pub proof fn lemma_statement_advances(s: Seq<char>, b: ControlSignalsBuilder, first: Token, p: int)
    requires
        0 <= p <= s.len(),
    ensures
        read_statement(s, b, first, p) matches Ok((_, q)) ==> p <= q <= s.len(),
{
    reveal(read_statement);
    match expect_tok(s, p, TokenType::Assign) {
        Ok((assign, q1)) => match take(s, q1, Expected::Operation) {
            Ok((op_first, q2)) => {
                lemma_operation_advances(s, op_first, q2);
                match op_first.token_type {
                    TokenType::Shift(sh) => lemma_shift_advances(s, op_first, sh, q2),
                    _ => {},
                }
            },
            _ => {},
        },
        _ => {},
    }
}

/// Where the statements of a microinstruction end.
pub proof fn lemma_clock_advances(s: Seq<char>, b: ControlSignalsBuilder, first: Token, p: int)
    requires
        0 <= p <= s.len(),
    ensures
        read_clock(s, b, first, p) matches Ok((_, q)) ==> p <= q <= s.len(),
    decreases s.len() - p,
{
    reveal(read_clock);
    lemma_statement_advances(s, b, first, p);
    match read_statement(s, b, first, p) {
        Ok((b1, q)) => match expect_tok(s, q, TokenType::Semicolon) {
            Ok((_, q2)) => match take(s, q2, Expected::Anything) {
                Ok((f2, q3)) => {
                    lemma_clock_advances(s, b1, f2, q3);
                },
                _ => {},
            },
            _ => {},
        },
        _ => {},
    }
}

/// Where a run of line feeds ends.
pub proof fn lemma_burn_advances(s: Seq<char>, p: int)
    requires
        0 <= p <= s.len(),
    ensures
        burn_newlines(s, p) matches Ok(q) ==> p <= q <= s.len(),
    decreases s.len() - p,
{
    match peek_type(s, p) {
        Ok(Some(TokenType::Newline)) => lemma_burn_advances(s, after(s, p)),
        _ => {},
    }
}

/// Where a line ends: after its first token.
pub proof fn lemma_parse_clock_advances(s: Seq<char>, p: int, labels: Seq<(Seq<char>, usize)>, count: usize)
    requires
        0 <= p <= s.len(),
    ensures
        parse_clock(s, p, labels, count) matches Ok((_, _, q)) ==> p < q <= s.len(),
    decreases s.len() - p,
{
    reveal(parse_clock);
    match take_raw(s, p, Expected::LabelOrInstruction) {
        Ok((first, p1)) => {
            match peek_type(s, p1) {
                Ok(Some(TokenType::Colon)) => {
                    lemma_parse_clock_advances(
                        s,
                        after(s, p1),
                        labels.push((span_text(s, first.span.start as int, first.span.end as int), count)),
                        count,
                    );
                },
                _ => {
                    lemma_clock_advances(s, ControlSignalsBuilder::empty(), mapped_token(first, s), p1);
                    match read_clock(s, ControlSignalsBuilder::empty(), mapped_token(first, s), p1) {
                        Ok((b, q)) => {
                            if lexed(s, q) is Some {
                                match expect_tok(s, q, TokenType::Newline) {
                                    Ok((_, q1)) => lemma_burn_advances(s, q1),
                                    _ => {},
                                }
                            }
                        },
                        _ => {},
                    }
                },
            }
        },
        _ => {},
    }
}

// ---------------------------------------------------------------------------
// The parser.
// ---------------------------------------------------------------------------

/// The text of line `lineno` of `m` (see `SourceMap::get_line`).
pub open spec fn line_content(m: SourceMap, lineno: int) -> Seq<char> {
    match m.line_bounds(lineno) {
        Some((a, b)) => line_text(m.text(), a, b),
        None => Seq::empty(),
    }
}

/// The labels as names and indices.
pub open spec fn labels_view(v: Seq<(Vec<char>, usize)>) -> Seq<(Seq<char>, usize)> {
    Seq::new(v.len(), |i: int| (v[i].0@, v[i].1))
}

fn token_error_of(te: TokenizerError) -> (r: ParsingError)
    ensures
        r == token_error(te),
{
    ParsingError { span: te.span, error_type: ParsingErrorType::TokenError(te.error_type) }
}

fn at_end(lx: &Tokenizer) -> (r: bool)
    requires
        lx.wf(),
    ensures
        r == (lexed(lx.source(), lx.pos()) is None),
{
    reveal(lexed);
    let mut probe = *lx;
    probe.next().is_none()
}

fn peek_type_x(lx: &Tokenizer) -> (r: Result<Option<TokenType>, ParsingError>)
    requires
        lx.wf(),
    ensures
        r == peek_type(lx.source(), lx.pos()),
{
    reveal(lexed);
    let mut probe = *lx;
    match probe.next() {
        None => Ok(None),
        Some(Err(te)) => Err(token_error_of(te)),
        Some(Ok(t)) => Ok(Some(t.token_type)),
    }
}

fn take_raw_x(lx: &mut Tokenizer, exp: Expected) -> (r: Result<Token, ParsingError>)
    requires
        old(lx).wf(),
    ensures
        final(lx).wf(),
        final(lx).source() == old(lx).source(),
        match take_raw(old(lx).source(), old(lx).pos(), exp) {
            Ok((t, q)) => r == Ok::<Token, ParsingError>(t) && final(lx).pos() == q,
            Err(e) => r == Err::<Token, ParsingError>(e),
        },
{
    reveal(lexed);
    reveal(after);
    let sm = lx.source_map();
    match lx.next() {
        None => {
            let end = sm.end();
            Err(ParsingError { span: end, error_type: ParsingErrorType::UnexpectedEnd(exp) })
        },
        Some(Err(te)) => Err(token_error_of(te)),
        Some(Ok(t)) => Ok(t),
    }
}

fn take_x(lx: &mut Tokenizer, exp: Expected) -> (r: Result<Token, ParsingError>)
    requires
        old(lx).wf(),
    ensures
        final(lx).wf(),
        final(lx).source() == old(lx).source(),
        match take(old(lx).source(), old(lx).pos(), exp) {
            Ok((t, q)) => r == Ok::<Token, ParsingError>(t) && final(lx).pos() == q,
            Err(e) => r == Err::<Token, ParsingError>(e),
        },
{
    let sm = lx.source_map();
    match take_raw_x(lx, exp) {
        Ok(t) => Ok(t.mapped(sm)),
        Err(e) => Err(e),
    }
}

fn expect_x(lx: &mut Tokenizer, typ: TokenType) -> (r: Result<Token, ParsingError>)
    requires
        old(lx).wf(),
    ensures
        final(lx).wf(),
        final(lx).source() == old(lx).source(),
        match expect_tok(old(lx).source(), old(lx).pos(), typ) {
            Ok((t, q)) => r == Ok::<Token, ParsingError>(t) && final(lx).pos() == q,
            Err(e) => r == Err::<Token, ParsingError>(e),
        },
{
    let t = take_x(lx, Expected::Token(typ))?;
    if t.token_type != typ {
        return Err(
            ParsingError { span: t.span, error_type: ParsingErrorType::UnexpectedToken(Expected::Token(typ), t) },
        );
    }
    Ok(t)
}

fn expect_reg_x(lx: &mut Tokenizer) -> (r: Result<(Register, Span), ParsingError>)
    requires
        old(lx).wf(),
    ensures
        final(lx).wf(),
        final(lx).source() == old(lx).source(),
        match expect_reg(old(lx).source(), old(lx).pos()) {
            Ok((x, q)) => r == Ok::<(Register, Span), ParsingError>(x) && final(lx).pos() == q,
            Err(e) => r == Err::<(Register, Span), ParsingError>(e),
        },
{
    let t = take_x(lx, Expected::Register)?;
    match t.token_type {
        TokenType::Register(reg) => Ok((reg, t.span)),
        _ => Err(
            ParsingError { span: t.span, error_type: ParsingErrorType::UnexpectedToken(Expected::Register, t) },
        ),
    }
}

fn set_signal_x(b: &mut ControlSignalsBuilder, signal: Signal, v: SignalValue, sp: Span) -> (r: Result<
    (),
    ParsingError,
>)
    ensures
        match set_signal(*old(b), signal, v, sp) {
            Ok(b2) => r is Ok && *final(b) == b2,
            Err(e) => r == Err::<(), ParsingError>(e) && *final(b) == *old(b),
        },
{
    let conflict = |before: SignalValue| -> (e: ParsingError)
        ensures
            e == conflict_error(sp, signal, before, v),
        { ParsingError { span: sp, error_type: ParsingErrorType::ValueConflict(Conflict { signal, before, after: v }) } };
    match (signal, v) {
        (Signal::Amux, SignalValue::Bool(x)) => match b.amux(x, &sp) {
            Ok(_) => Ok(()),
            Err(c) => Err(conflict(SignalValue::Bool(c.before))),
        },
        (Signal::Mbr, SignalValue::Bool(x)) => match b.mbr(x, &sp) {
            Ok(_) => Ok(()),
            Err(c) => Err(conflict(SignalValue::Bool(c.before))),
        },
        (Signal::Mar, SignalValue::Bool(x)) => match b.mar(x, &sp) {
            Ok(_) => Ok(()),
            Err(c) => Err(conflict(SignalValue::Bool(c.before))),
        },
        (Signal::Rd, SignalValue::Bool(x)) => match b.rd(x, &sp) {
            Ok(_) => Ok(()),
            Err(c) => Err(conflict(SignalValue::Bool(c.before))),
        },
        (Signal::Wr, SignalValue::Bool(x)) => match b.wr(x, &sp) {
            Ok(_) => Ok(()),
            Err(c) => Err(conflict(SignalValue::Bool(c.before))),
        },
        (Signal::Enc, SignalValue::Bool(x)) => match b.enc(x, &sp) {
            Ok(_) => Ok(()),
            Err(c) => Err(conflict(SignalValue::Bool(c.before))),
        },
        (Signal::Syscall, SignalValue::Bool(x)) => match b.syscall(x, &sp) {
            Ok(_) => Ok(()),
            Err(c) => Err(conflict(SignalValue::Bool(c.before))),
        },
        (Signal::Cond, SignalValue::Int(x)) => match b.cond(x, &sp) {
            Ok(_) => Ok(()),
            Err(c) => Err(conflict(SignalValue::Int(c.before))),
        },
        (Signal::Alu, SignalValue::Int(x)) => match b.alu(x, &sp) {
            Ok(_) => Ok(()),
            Err(c) => Err(conflict(SignalValue::Int(c.before))),
        },
        (Signal::Sh, SignalValue::Int(x)) => match b.sh(x, &sp) {
            Ok(_) => Ok(()),
            Err(c) => Err(conflict(SignalValue::Int(c.before))),
        },
        (Signal::C, SignalValue::Int(x)) => match b.c(x, &sp) {
            Ok(_) => Ok(()),
            Err(c) => Err(conflict(SignalValue::Int(c.before))),
        },
        (Signal::B, SignalValue::Int(x)) => match b.b(x, &sp) {
            Ok(_) => Ok(()),
            Err(c) => Err(conflict(SignalValue::Int(c.before))),
        },
        (Signal::A, SignalValue::Int(x)) => match b.a(x, &sp) {
            Ok(_) => Ok(()),
            Err(c) => Err(conflict(SignalValue::Int(c.before))),
        },
        (Signal::AddrName, SignalValue::Label(x)) => match b.addr_name(x, &sp) {
            Ok(_) => Ok(()),
            Err(c) => Err(conflict(SignalValue::Label(c.before))),
        },
        _ => Ok(()),
    }
}

fn read_operation_x(lx: &mut Tokenizer, first: Token) -> (r: Result<OperationInfo, ParsingError>)
    requires
        old(lx).wf(),
    ensures
        final(lx).wf(),
        final(lx).source() == old(lx).source(),
        match read_operation(old(lx).source(), first, old(lx).pos()) {
            Ok((i, q)) => r == Ok::<OperationInfo, ParsingError>(i) && final(lx).pos() == q,
            Err(e) => r == Err::<OperationInfo, ParsingError>(e),
        },
{
    match first.token_type {
        TokenType::Register(ra) => {
            match peek_type_x(lx)? {
                Some(TokenType::Plus) => {
                    let plus = take_x(lx, Expected::Plus)?;
                    let rb = expect_reg_x(lx)?;
                    Ok(OperationInfo { shift: None, alu_op: (0, plus.span), reg_a: (ra, first.span), reg_b: Some(rb) })
                },
                _ => Ok(OperationInfo { shift: None, alu_op: (2, first.span), reg_a: (ra, first.span), reg_b: None }),
            }
        },
        TokenType::AluFunc(1) => {
            expect_x(lx, TokenType::LeftParen)?;
            let ra = expect_reg_x(lx)?;
            expect_x(lx, TokenType::Comma)?;
            let rb = expect_reg_x(lx)?;
            expect_x(lx, TokenType::RightParen)?;
            Ok(OperationInfo { shift: None, alu_op: (1, first.span), reg_a: ra, reg_b: Some(rb) })
        },
        TokenType::AluFunc(3) => {
            expect_x(lx, TokenType::LeftParen)?;
            let ra = expect_reg_x(lx)?;
            expect_x(lx, TokenType::RightParen)?;
            Ok(OperationInfo { shift: None, alu_op: (3, first.span), reg_a: ra, reg_b: None })
        },
        _ => Err(
            ParsingError {
                span: first.span,
                error_type: ParsingErrorType::UnexpectedToken(Expected::AluOperation, first),
            },
        ),
    }
}

fn read_shift_x(lx: &mut Tokenizer, first: Token, sh: u8) -> (r: Result<OperationInfo, ParsingError>)
    requires
        old(lx).wf(),
    ensures
        final(lx).wf(),
        final(lx).source() == old(lx).source(),
        match read_shift(old(lx).source(), first, sh, old(lx).pos()) {
            Ok((i, q)) => r == Ok::<OperationInfo, ParsingError>(i) && final(lx).pos() == q,
            Err(e) => r == Err::<OperationInfo, ParsingError>(e),
        },
{
    expect_x(lx, TokenType::LeftParen)?;
    let op_first = take_x(lx, Expected::AluOperation)?;
    let info = read_operation_x(lx, op_first)?;
    expect_x(lx, TokenType::RightParen)?;
    Ok(OperationInfo { shift: Some((sh, first.span)), ..info })
}

fn uses_x(reg: Option<(Register, Span)>, r: Register) -> (b: bool)
    ensures
        b == uses(reg, r),
{
    match reg {
        Some(x) => x.0 == r,
        None => false,
    }
}

fn assign_dest_x(b: &mut ControlSignalsBuilder, dest: Register, fspan: Span, info: OperationInfo) -> (r: Result<
    (),
    ParsingError,
>)
    ensures
        match assign_dest(*old(b), dest, fspan, info) {
            Ok(b2) => r is Ok && *final(b) == b2,
            Err(e) => r == Err::<(), ParsingError>(e),
        },
{
    match dest.index() {
        Some(d) => {
            set_signal_x(b, Signal::C, SignalValue::Int(d as u8), fspan)?;
            set_signal_x(b, Signal::Enc, SignalValue::Bool(true), fspan)
        },
        None => {
            if dest == Register::Mar {
                if info.alu_op.0 != 2 {
                    return Err(
                        ParsingError {
                            span: info.alu_op.1,
                            error_type: ParsingErrorType::IlegalOperation(Register::Mar),
                        },
                    );
                }
                match info.shift {
                    Some((_, sp)) => {
                        return Err(
                            ParsingError { span: sp, error_type: ParsingErrorType::IlegalOperation(Register::Mar) },
                        );
                    },
                    None => {},
                }
                if info.reg_a.0 == Register::Mbr {
                    return Err(
                        ParsingError {
                            span: info.reg_a.1,
                            error_type: ParsingErrorType::ImplossibleRoute(Register::Mbr, Register::Mar),
                        },
                    );
                }
                Ok(())
            } else if dest == Register::Mbr {
                set_signal_x(b, Signal::Mbr, SignalValue::Bool(true), fspan)
            } else {
                Ok(())
            }
        },
    }
}

fn operand_error_x(info: OperationInfo) -> (r: Option<ParsingError>)
    ensures
        r == operand_error(info),
{
    if uses_x(info.reg_b, Register::Mar) {
        let rb = info.reg_b.unwrap();
        Some(ParsingError { span: rb.1, error_type: ParsingErrorType::WriteOnlyRegister(Register::Mar) })
    } else if info.reg_a.0 == Register::Mar {
        Some(ParsingError { span: info.reg_a.1, error_type: ParsingErrorType::WriteOnlyRegister(Register::Mar) })
    } else if uses_x(info.reg_b, Register::Alu) {
        let rb = info.reg_b.unwrap();
        Some(ParsingError { span: rb.1, error_type: ParsingErrorType::NotARealRegister })
    } else if info.reg_a.0 == Register::Alu {
        Some(ParsingError { span: info.reg_a.1, error_type: ParsingErrorType::NotARealRegister })
    } else {
        None
    }
}

fn assign_ops_x(b: &mut ControlSignalsBuilder, dest_is_mar: bool, aspan: Span, info: OperationInfo) -> (r: Result<
    (),
    ParsingError,
>)
    ensures
        match assign_ops(*old(b), dest_is_mar, aspan, info) {
            Ok(b2) => r is Ok && *final(b) == b2,
            Err(e) => r == Err::<(), ParsingError>(e),
        },
{
    if dest_is_mar {
        return Ok(());
    }
    match info.shift {
        Some((sh, sp)) => set_signal_x(b, Signal::Sh, SignalValue::Int(sh), sp)?,
        None => set_signal_x(b, Signal::Sh, SignalValue::Int(0), aspan)?,
    }
    set_signal_x(b, Signal::Alu, SignalValue::Int(info.alu_op.0), info.alu_op.1)
}

fn bus_operands_x(dest_is_mar: bool, info: OperationInfo) -> (r: (Option<(Register, Span)>, Option<(Register, Span)>))
    ensures
        r == bus_operands(dest_is_mar, info),
{
    if dest_is_mar || (uses_x(info.reg_b, Register::Mbr) && info.reg_a.0 != Register::Mbr) {
        (info.reg_b, Some(info.reg_a))
    } else {
        (Some(info.reg_a), info.reg_b)
    }
}

fn assign_a_x(b: &mut ControlSignalsBuilder, ra: Option<(Register, Span)>, rb: Option<(Register, Span)>) -> (r: Result<
    Option<(Register, Span)>,
    ParsingError,
>)
    ensures
        match assign_a(*old(b), ra, rb) {
            Ok((b2, rb2)) => r == Ok::<_, ParsingError>(rb2) && *final(b) == b2,
            Err(e) => r == Err::<Option<(Register, Span)>, ParsingError>(e),
        },
{
    match ra {
        None => Ok(rb),
        Some((r, sp)) => {
            if r == Register::Mbr {
                set_signal_x(b, Signal::Amux, SignalValue::Bool(true), sp)?;
                return Ok(rb);
            }
            match r.index() {
                None => Err(ParsingError { span: sp, error_type: ParsingErrorType::UnrecognizedRegister }),
                Some(ai) => {
                    let a = ai as u8;
                    let mut swap_with: Option<(u8, Span)> = None;
                    match rb {
                        Some((rbr, rbsp)) => match rbr.index() {
                            Some(bi) => match b.b {
                                Some(mb) => {
                                    let bv = bi as u8;
                                    if a == mb && (b.a.is_none() || b.a == Some(bv)) {
                                        swap_with = Some((bv, rbsp));
                                    }
                                },
                                None => {},
                            },
                            None => {},
                        },
                        None => {},
                    }
                    match swap_with {
                        Some((bv, rbsp)) => {
                            set_signal_x(b, Signal::A, SignalValue::Int(bv), rbsp)?;
                            set_signal_x(b, Signal::B, SignalValue::Int(a), sp)?;
                            set_signal_x(b, Signal::Amux, SignalValue::Bool(false), sp)?;
                            Ok(Some((r, sp)))
                        },
                        None => {
                            set_signal_x(b, Signal::A, SignalValue::Int(a), sp)?;
                            set_signal_x(b, Signal::Amux, SignalValue::Bool(false), sp)?;
                            Ok(rb)
                        },
                    }
                },
            }
        },
    }
}

fn assign_b_x(b: &mut ControlSignalsBuilder, rb: Option<(Register, Span)>, dest_is_mar: bool, fspan: Span) -> (r:
    Result<(), ParsingError>)
    ensures
        match assign_b(*old(b), rb, dest_is_mar, fspan) {
            Ok(b2) => r is Ok && *final(b) == b2,
            Err(e) => r == Err::<(), ParsingError>(e),
        },
{
    match rb {
        None => Ok(()),
        Some((r, sp)) => match r.index() {
            None => Err(ParsingError { span: sp, error_type: ParsingErrorType::UnrecognizedRegister }),
            Some(bi) => {
                let v = bi as u8;
                match b.b(v, &sp) {
                    Ok(_) => Ok(()),
                    Err(conflict) => {
                        let before = conflict.before;
                        match b.a {
                            Some(a) => {
                                if a == v && b.mar.is_none() {
                                    b.b_force(a);
                                    b.a_force(before);
                                    return set_signal_x(b, Signal::Mar, SignalValue::Bool(dest_is_mar), fspan);
                                }
                            },
                            None => {},
                        }
                        Err(
                            ParsingError {
                                span: sp,
                                error_type: ParsingErrorType::ValueConflict(
                                    Conflict {
                                        signal: Signal::B,
                                        before: SignalValue::Int(before),
                                        after: SignalValue::Int(v),
                                    },
                                ),
                            },
                        )
                    },
                }
            },
        },
    }
}

fn assign_effect_x(b: &mut ControlSignalsBuilder, dest: Register, fspan: Span, aspan: Span, info: OperationInfo) -> (r:
    Result<(), ParsingError>)
    ensures
        match assign_effect(*old(b), dest, fspan, aspan, info) {
            Ok(b2) => r is Ok && *final(b) == b2,
            Err(e) => r == Err::<(), ParsingError>(e),
        },
{
    let dest_is_mar = dest == Register::Mar;
    assign_dest_x(b, dest, fspan, info)?;
    match operand_error_x(info) {
        Some(e) => {
            return Err(e);
        },
        None => {},
    }
    assign_ops_x(b, dest_is_mar, aspan, info)?;
    let (ra, rb) = bus_operands_x(dest_is_mar, info);
    let rb2 = assign_a_x(b, ra, rb)?;
    assign_b_x(b, rb2, dest_is_mar, fspan)?;
    if dest_is_mar {
        set_signal_x(b, Signal::Mar, SignalValue::Bool(true), fspan)
    } else {
        Ok(())
    }
}

fn read_assignment_x(lx: &mut Tokenizer, b: &mut ControlSignalsBuilder, first: Token) -> (r: Result<(), ParsingError>)
    requires
        old(lx).wf(),
    ensures
        final(lx).wf(),
        final(lx).source() == old(lx).source(),
        match read_assignment(old(lx).source(), *old(b), first, old(lx).pos()) {
            Ok((b2, q)) => r is Ok && *final(b) == b2 && final(lx).pos() == q,
            Err(e) => r == Err::<(), ParsingError>(e),
        },
{
    let assign = expect_x(lx, TokenType::Assign)?;
    let op_first = take_x(lx, Expected::Operation)?;
    let info = match op_first.token_type {
        TokenType::Shift(sh) => read_shift_x(lx, op_first, sh)?,
        TokenType::Register(_) => read_operation_x(lx, op_first)?,
        TokenType::AluFunc(_) => read_operation_x(lx, op_first)?,
        _ => {
            return Err(
                ParsingError {
                    span: op_first.span,
                    error_type: ParsingErrorType::UnexpectedToken(Expected::AluOperation, op_first),
                },
            );
        },
    };
    match first.token_type {
        TokenType::Register(dest) => assign_effect_x(b, dest, first.span, assign.span, info),
        _ => Ok(()),
    }
}

fn read_goto_x(lx: &mut Tokenizer, b: &mut ControlSignalsBuilder, first: Token) -> (r: Result<(), ParsingError>)
    requires
        old(lx).wf(),
    ensures
        final(lx).wf(),
        final(lx).source() == old(lx).source(),
        match read_goto(old(lx).source(), *old(b), first, old(lx).pos()) {
            Ok((b2, q)) => r is Ok && *final(b) == b2 && final(lx).pos() == q,
            Err(e) => r == Err::<(), ParsingError>(e),
        },
{
    let g = if first.token_type == TokenType::Then {
        expect_x(lx, TokenType::Goto)?
    } else {
        first
    };
    if g.token_type != TokenType::Goto {
        return Err(ParsingError { span: g.span, error_type: ParsingErrorType::UnexpectedToken(Expected::Goto, g) });
    }
    let id = take_raw_x(lx, Expected::Label)?;
    if id.token_type != TokenType::Identifier {
        return Err(ParsingError { span: id.span, error_type: ParsingErrorType::UnexpectedToken(Expected::Label, id) });
    }
    set_signal_x(b, Signal::AddrName, SignalValue::Label(id.span), id.span)?;
    let _ = set_signal_x(b, Signal::Cond, SignalValue::Int(3), g.span);
    Ok(())
}

fn read_conditional_x(lx: &mut Tokenizer, b: &mut ControlSignalsBuilder, first: Token) -> (r: Result<(), ParsingError>)
    requires
        old(lx).wf(),
    ensures
        final(lx).wf(),
        final(lx).source() == old(lx).source(),
        match read_conditional(old(lx).source(), *old(b), first, old(lx).pos()) {
            Ok((b2, q)) => r is Ok && *final(b) == b2 && final(lx).pos() == q,
            Err(e) => r == Err::<(), ParsingError>(e),
        },
{
    let c = take_x(lx, Expected::Condition)?;
    match c.token_type {
        TokenType::Condition(cv) => set_signal_x(b, Signal::Cond, SignalValue::Int(cv), first.span)?,
        _ => {
            return Err(
                ParsingError {
                    span: first.span,
                    error_type: ParsingErrorType::UnexpectedToken(Expected::Condition, first),
                },
            );
        },
    }
    let gf = take_x(lx, Expected::ThenOrGoto)?;
    read_goto_x(lx, b, gf)
}

fn read_statement_x(lx: &mut Tokenizer, b: &mut ControlSignalsBuilder, first: Token) -> (r: Result<(), ParsingError>)
    requires
        old(lx).wf(),
    ensures
        final(lx).wf(),
        final(lx).source() == old(lx).source(),
        match read_statement(old(lx).source(), *old(b), first, old(lx).pos()) {
            Ok((b2, q)) => r is Ok && *final(b) == b2 && final(lx).pos() == q,
            Err(e) => r == Err::<(), ParsingError>(e),
        },
{
    reveal(read_statement);
    match first.token_type {
        TokenType::Syscall => set_signal_x(b, Signal::Syscall, SignalValue::Bool(true), first.span),
        TokenType::Wr => set_signal_x(b, Signal::Wr, SignalValue::Bool(true), first.span),
        TokenType::Rd => set_signal_x(b, Signal::Rd, SignalValue::Bool(true), first.span),
        TokenType::Goto => read_goto_x(lx, b, first),
        TokenType::Then => read_goto_x(lx, b, first),
        TokenType::If => read_conditional_x(lx, b, first),
        TokenType::Register(_) => read_assignment_x(lx, b, first),
        _ => Err(
            ParsingError {
                span: first.span,
                error_type: ParsingErrorType::UnexpectedToken(Expected::Instruction, first),
            },
        ),
    }
}

fn read_clock_x(lx: &mut Tokenizer, start: Token) -> (r: Result<ControlSignalsBuilder, ParsingError>)
    requires
        old(lx).wf(),
    ensures
        final(lx).wf(),
        final(lx).source() == old(lx).source(),
        match read_clock(old(lx).source(), ControlSignalsBuilder::empty(), start, old(lx).pos()) {
            Ok((b2, q)) => r == Ok::<_, ParsingError>(b2) && final(lx).pos() == q,
            Err(e) => r == Err::<ControlSignalsBuilder, ParsingError>(e),
        },
{
    let ghost s = lx.source();
    let ghost p0 = lx.pos();
    let mut b = ControlSignalsBuilder::new();
    let mut first = start;
    loop
        invariant
            lx.wf(),
            lx.source() == s,
            s == old(lx).source(),
            p0 == old(lx).pos(),
            0 <= lx.pos() <= s.len(),
            read_clock(s, ControlSignalsBuilder::empty(), start, p0) == read_clock(s, b, first, lx.pos()),
        decreases s.len() - lx.pos(),
    {
        let ghost p = lx.pos();
        reveal(read_clock);
        proof {
            lemma_statement_advances(s, b, first, p);
        }
        read_statement_x(lx, &mut b, first)?;
        expect_x(lx, TokenType::Semicolon)?;
        match peek_type_x(lx)? {
            None => {
                return Ok(b);
            },
            Some(TokenType::Newline) => {
                return Ok(b);
            },
            Some(_) => {},
        }
        first = take_x(lx, Expected::Anything)?;
    }
}

fn burn_newlines_x(lx: &mut Tokenizer) -> (r: Result<(), ParsingError>)
    requires
        old(lx).wf(),
    ensures
        final(lx).wf(),
        final(lx).source() == old(lx).source(),
        match burn_newlines(old(lx).source(), old(lx).pos()) {
            Ok(q) => r is Ok && final(lx).pos() == q,
            Err(e) => r == Err::<(), ParsingError>(e),
        },
{
    let ghost s = lx.source();
    let ghost p0 = lx.pos();
    loop
        invariant
            lx.wf(),
            lx.source() == s,
            s == old(lx).source(),
            p0 == old(lx).pos(),
            0 <= lx.pos() <= s.len(),
            burn_newlines(s, p0) == burn_newlines(s, lx.pos()),
        decreases s.len() - lx.pos(),
    {
        let pk = peek_type_x(lx);
        match pk {
            Err(e) => {
                return Err(e);
            },
            Ok(Some(TokenType::Newline)) => {
                take_raw_x(lx, Expected::Token(TokenType::Newline))?;
            },
            Ok(_) => {
                return Ok(());
            },
        }
    }
}

fn expect_newline_x(lx: &mut Tokenizer) -> (r: Result<(), ParsingError>)
    requires
        old(lx).wf(),
    ensures
        final(lx).wf(),
        final(lx).source() == old(lx).source(),
        match expect_newline(old(lx).source(), old(lx).pos()) {
            Ok(q) => r is Ok && final(lx).pos() == q,
            Err(e) => r == Err::<(), ParsingError>(e),
        },
{
    if at_end(lx) {
        return Ok(());
    }
    expect_x(lx, TokenType::Newline)?;
    burn_newlines_x(lx)
}

fn parse_clock_x(lx: &mut Tokenizer, labels: &mut Vec<(Vec<char>, usize)>, count: usize) -> (r: Result<
    (ControlSignalsBuilder, usize),
    ParsingError,
>)
    requires
        old(lx).wf(),
    ensures
        final(lx).wf(),
        final(lx).source() == old(lx).source(),
        match parse_clock(old(lx).source(), old(lx).pos(), labels_view(old(labels)@), count) {
            Ok((l2, pm, q)) => r == Ok::<_, ParsingError>(pm) && labels_view(final(labels)@) == l2
                && final(lx).pos() == q,
            Err(e) => r == Err::<(ControlSignalsBuilder, usize), ParsingError>(e),
        },
{
    let ghost s = lx.source();
    let ghost p0 = lx.pos();
    let ghost l0 = labels_view(labels@);
    let sm = lx.source_map();
    loop
        invariant
            lx.wf(),
            lx.source() == s,
            s == old(lx).source(),
            sm.wf(),
            sm.text() == s,
            0 <= lx.pos() <= s.len(),
            p0 == old(lx).pos(),
            l0 == labels_view(old(labels)@),
            parse_clock(s, p0, l0, count) == parse_clock(s, lx.pos(), labels_view(labels@), count),
        decreases s.len() - lx.pos(),
    {
        reveal(parse_clock);
        let first = take_raw_x(lx, Expected::LabelOrInstruction)?;
        if first.token_type != TokenType::Identifier {
            return Err(
                ParsingError {
                    span: first.span,
                    error_type: ParsingErrorType::UnexpectedToken(Expected::LabelOrInstruction, first),
                },
            );
        }
        match peek_type_x(lx)? {
            Some(TokenType::Colon) => {
                take_raw_x(lx, Expected::Anything)?;
                let name = sm.get_span(&first.span);
                let chars = crate::parsers::text::str_chars(name.as_str());
                let ghost before = labels@;
                labels.push((chars, count));
                proof {
                    assert(labels_view(labels@) =~= labels_view(before).push(
                        (span_text(s, first.span.start as int, first.span.end as int), count),
                    ));
                }
            },
            _ => {
                let lineno = first.span.line;
                let b = read_clock_x(lx, first.mapped(sm))?;
                expect_newline_x(lx)?;
                return Ok((b, lineno));
            },
        }
    }
}

fn label_lookup(labels: &Vec<(Vec<char>, usize)>, name: &[char]) -> (r: Option<usize>)
    ensures
        r == label_address(labels_view(labels@), name@),
{
    let mut i = labels.len();
    proof {
        assert(labels@.take(i as int) =~= labels@);
    }
    while i > 0
        invariant
            i <= labels@.len(),
            label_address(labels_view(labels@), name@) == label_address(labels_view(labels@.take(i as int)), name@),
        decreases i,
    {
        proof {
            assert(labels_view(labels@.take(i as int)).drop_last() =~= labels_view(labels@.take(i - 1)));
        }
        if crate::architecture::datapath::chars_equal(labels[i - 1].0.as_slice(), name) {
            return Some(labels[i - 1].1);
        }
        i = i - 1;
    }
    None
}

/// Once a jump to a missing label is found, the microinstructions after it
/// change nothing.
proof fn lemma_resolve_err_extends(s: Seq<char>, labels: Seq<(Seq<char>, usize)>, pre: Seq<(ControlSignalsBuilder, usize)>, j: int)
    requires
        0 <= j <= pre.len(),
        resolve(s, labels, pre.take(j)) is Err,
    ensures
        resolve(s, labels, pre) == resolve(s, labels, pre.take(j)),
    decreases pre.len() - j,
{
    if j == pre.len() {
        assert(pre.take(j) =~= pre);
    } else {
        assert(pre.drop_last().take(j) =~= pre.take(j));
        lemma_resolve_err_extends(s, labels, pre.drop_last(), j);
    }
}

/// A parser of microprograms (MAL) into control signals.
pub struct MALParser<'a> {
    source_map: &'a SourceMap,
    lexer: Tokenizer<'a>,
}

impl<'a> MALParser<'a> {
    /// The source map being parsed.
    pub closed spec fn map(&self) -> SourceMap {
        *self.source_map
    }

    /// The parser is at the start of its well-formed source.
    pub closed spec fn wf(&self) -> bool {
        &&& self.lexer.wf()
        &&& self.lexer.pos() == 0
        &&& self.lexer.source() == self.source_map.text()
        &&& self.source_map.wf()
    }

    /// A parser of the text of `source_map`.
    pub fn new(source_map: &'a SourceMap) -> (r: MALParser<'a>)
        requires
            source_map.wf(),
        ensures
            r.wf(),
            r.map() == *source_map,
    {
        MALParser { source_map, lexer: Tokenizer::new(source_map) }
    }

    /// The microinstructions of the program, in order, each with the text of its
    /// line and its control signals (`parse_program`); or the first error.
    pub fn parse(self) -> (r: Result<Vec<Microinstruction>, Box<MALParsingError>>)
        requires
            self.wf(),
        ensures
            match parse_program(self.map().text()) {
                Ok(v) => r is Ok && r->Ok_0@.len() == v.len() && forall|i: int|
                    0 <= i < v.len() ==> (#[trigger] r->Ok_0@[i]).mir == v[i].0 && r->Ok_0@[i].content@
                        == line_content(self.map(), v[i].1 as int),
                Err(e) => r is Err && r->Err_0.span == e.span && r->Err_0.error_type == e.error_type,
            },
    {
        let sm = self.source_map;
        let mut lx = self.lexer;
        let ghost s = lx.source();
        let mut labels: Vec<(Vec<char>, usize)> = Vec::new();
        let mut pre: Vec<(ControlSignalsBuilder, usize)> = Vec::new();
        match burn_newlines_x(&mut lx) {
            Ok(()) => {},
            Err(e) => {
                return Err(Box::new(MALParsingError { span: e.span, error_type: e.error_type }));
            },
        }
        proof {
            assert(labels_view(labels@) =~= Seq::<(Seq<char>, usize)>::empty());
            assert(pre@ =~= Seq::<(ControlSignalsBuilder, usize)>::empty());
        }
        let ghost p1 = lx.pos();
        loop
            invariant_except_break
                lx.wf(),
                lx.source() == s,
                s == sm.text(),
                sm.wf(),
                *sm == self.map(),
                0 <= lx.pos() <= s.len(),
                0 <= p1 <= s.len(),
                burn_newlines(s, 0) == Ok::<int, ParsingError>(p1),
                parse_lines(s, p1, Seq::empty(), Seq::empty()) == parse_lines(s, lx.pos(), labels_view(labels@), pre@),
            ensures
                s == sm.text(),
                sm.wf(),
                *sm == self.map(),
                burn_newlines(s, 0) == Ok::<int, ParsingError>(p1),
                parse_lines(s, p1, Seq::empty(), Seq::empty()) == Ok::<_, ParsingError>((labels_view(labels@), pre@)),
            decreases s.len() - lx.pos(),
        {
            reveal(parse_lines);
            if at_end(&lx) {
                break;
            }
            let count = pre.len();
            proof {
                lemma_parse_clock_advances(s, lx.pos(), labels_view(labels@), count);
            }
            match parse_clock_x(&mut lx, &mut labels, count) {
                Ok(pm) => {
                    pre.push(pm);
                },
                Err(e) => {
                    return Err(Box::new(MALParsingError { span: e.span, error_type: e.error_type }));
                },
            }
        }
        let ghost lv = labels_view(labels@);
        let ghost pv = pre@;
        let mut mics: Vec<Microinstruction> = Vec::new();
        let ghost mut sigs: Seq<(ControlSignals, usize)> = Seq::empty();
        let mut i: usize = 0;
        proof {
            assert(pv.take(0) =~= Seq::<(ControlSignalsBuilder, usize)>::empty());
        }
        while i < pre.len()
            invariant
                i <= pre@.len(),
                pv == pre@,
                lv == labels_view(labels@),
                sm.wf(),
                s == sm.text(),
                *sm == self.map(),
                parse_program(s) == resolve(s, lv, pv),
                resolve(s, lv, pv.take(i as int)) == Ok::<_, ParsingError>(sigs),
                mics@.len() == i,
                sigs.len() == i,
                forall|j: int|
                    0 <= j < i ==> (#[trigger] mics@[j]).mir == sigs[j].0 && mics@[j].content@ == line_content(
                        self.map(),
                        sigs[j].1 as int,
                    ),
            decreases pre.len() - i,
        {
            let (b, lineno) = pre[i];
            proof {
                assert(pv.take(i + 1).drop_last() =~= pv.take(i as int));
                assert(pv.take(i + 1).last() == pv[i as int]);
            }
            let mir = match b.addr_name {
                Some(sp) => {
                    let name = sm.get_span(&sp);
                    let chars = crate::parsers::text::str_chars(name.as_str());
                    match label_lookup(&labels, chars.as_slice()) {
                        Some(addr) => b.build(#[verifier::truncate] (addr as u16)),
                        None => {
                            proof {
                                lemma_resolve_err_extends(s, lv, pv, i + 1);
                            }
                            return Err(
                                Box::new(MALParsingError { span: sp, error_type: ParsingErrorType::UnrecognizedLabel }),
                            );
                        },
                    }
                },
                None => b.build(0),
            };
            let content = sm.get_line(lineno);
            mics.push(Microinstruction { content, mir });
            proof {
                sigs = sigs.push((mir, lineno));
            }
            i = i + 1;
        }
        proof {
            assert(pv.take(i as int) =~= pv);
        }
        Ok(mics)
    }
}

} // verus!
