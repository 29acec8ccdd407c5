use crate::architecture::control::MICROMEM_MAX_SIZE;
use crate::parsers::mal::mir_builder::{ControlSignalsBuilder, refuses};
use crate::architecture::datapath::Register;
use crate::parsers::mal::parser::{
    Expected, OperationInfo, Signal, SignalValue, assign_a, assign_b, assign_dest, assign_effect, assign_ops,
    expect_tok, parse_clock, parse_lines, parse_program, read_clock,
    read_goto, read_operation, read_shift, read_statement, resolve, resolve_one,
    set_signal, take, take_raw, label_address, burn_newlines,
};
use crate::parsers::mal::tokenizer::{Token, TokenType, identifier_kind, lex_from, lexed, mapped_token};
use crate::parsers::source_map::{Span, span_text};
use vstd::prelude::*;

verus! {

broadcast use crate::parsers::mal::tokenizer::lemma_after_advances;

/// A token whose value is a shift, an ALU function or a condition holds one
/// that fits in two bits.
pub open spec fn token_fits(t: TokenType) -> bool {
    match t {
        TokenType::Shift(v) => v < 4,
        TokenType::AluFunc(v) => v < 4,
        TokenType::Condition(v) => v < 4,
        _ => true,
    }
}

/// Every signal that a builder holds fits the width of its field.
pub open spec fn builder_fits(b: ControlSignalsBuilder) -> bool {
    &&& (b.cond matches Some(v) ==> v < 4)
    &&& (b.alu matches Some(v) ==> v < 4)
    &&& (b.sh matches Some(v) ==> v < 4)
    &&& (b.c matches Some(v) ==> v < 16)
    &&& (b.b matches Some(v) ==> v < 16)
    &&& (b.a matches Some(v) ==> v < 16)
}

/// A value that fits the field of `signal`.
pub open spec fn value_fits(signal: Signal, v: SignalValue) -> bool {
    match (signal, v) {
        (Signal::Cond, SignalValue::Int(x)) => x < 4,
        (Signal::Alu, SignalValue::Int(x)) => x < 4,
        (Signal::Sh, SignalValue::Int(x)) => x < 4,
        (Signal::C, SignalValue::Int(x)) => x < 16,
        (Signal::B, SignalValue::Int(x)) => x < 16,
        (Signal::A, SignalValue::Int(x)) => x < 16,
        _ => true,
    }
}

/// The shift and the ALU function of an operation fit in two bits.
pub open spec fn info_fits(info: OperationInfo) -> bool {
    &&& (info.shift matches Some((sh, _)) ==> sh < 4)
    &&& info.alu_op.0 < 4
}

/// Every label names a microinstruction before index `n`.
pub open spec fn labels_below(labels: Seq<(Seq<char>, usize)>, n: int) -> bool {
    forall|i: int| 0 <= i < labels.len() ==> #[trigger] labels[i].1 < n
}

/// Every builder of `pre` fits.
pub open spec fn builders_fit(pre: Seq<(ControlSignalsBuilder, usize)>) -> bool {
    forall|i: int| 0 <= i < pre.len() ==> builder_fits(#[trigger] pre[i].0)
}

/// The tokens of the lexer have values that fit.
proof fn lemma_lex_fits(s: Seq<char>, p: int, comment: bool)
    ensures
        lex_from(s, p, comment).0 matches Some(Ok(t)) ==> token_fits(t.token_type),
    decreases s.len() - p,
{
    if 0 <= p < s.len() {
        let c = s[p];
        if c == '#' {
            lemma_lex_fits(s, p + 1, true);
        } else if c == '\\' {
            if p + 1 < s.len() {
                lemma_lex_fits(s, p + 2, false);
                lemma_lex_fits(s, p + 2, true);
            }
        } else if c == '\n' {
        } else if comment {
            lemma_lex_fits(s, p + 1, true);
        } else {
            lemma_lex_fits(s, p + 1, false);
        }
    }
}

/// A token read (mapped or not) has a value that fits.
proof fn lemma_take_fits(s: Seq<char>, p: int)
    ensures
        lexed(s, p) matches Some(Ok(t)) ==> token_fits(t.token_type) && token_fits(
            mapped_token(t, s).token_type,
        ),
{
    reveal(lexed);
    lemma_lex_fits(s, p, false);
    match lexed(s, p) {
        Some(Ok(t)) => {
            if t.token_type == TokenType::Identifier {
                let k = identifier_kind(span_text(s, t.span.start as int, t.span.end as int));
                assert(token_fits(k));
            }
        },
        _ => {},
    }
}

/// Setting a value that fits keeps a builder that fits.
proof fn lemma_set_signal_fits(b: ControlSignalsBuilder, signal: Signal, v: SignalValue, sp: Span)
    requires
        builder_fits(b),
        value_fits(signal, v),
    ensures
        set_signal(b, signal, v, sp) matches Ok(b2) ==> builder_fits(b2),
{
}

/// A token taken has a value that fits.
proof fn lemma_take_token_fits(s: Seq<char>, p: int, exp: Expected)
    ensures
        take(s, p, exp) matches Ok((t, _)) ==> token_fits(t.token_type),
{
    lemma_take_fits(s, p);
}

/// The ALU function of an operation fits, and it has no shift.
proof fn lemma_operation_fits(s: Seq<char>, first: Token, p: int)
    ensures
        read_operation(s, first, p) matches Ok((info, _)) ==> info_fits(info) && info.shift is None,
{
}

/// A shifted operation fits when its shift does.
proof fn lemma_shift_fits(s: Seq<char>, first: Token, sh: u8, p: int)
    requires
        sh < 4,
    ensures
        read_shift(s, first, sh, p) matches Ok((info, _)) ==> info_fits(info),
{
    match expect_tok(s, p, TokenType::LeftParen) {
        Ok((_, q1)) => match take(s, q1, Expected::AluOperation) {
            Ok((op_first, q2)) => lemma_operation_fits(s, op_first, q2),
            _ => {},
        },
        _ => {},
    }
}

/// The signals of an assignment keep a builder that fits.
proof fn lemma_assign_effect_fits(b: ControlSignalsBuilder, dest: Register, fspan: Span, aspan: Span, info: OperationInfo)
    requires
        builder_fits(b),
        info_fits(info),
    ensures
        assign_effect(b, dest, fspan, aspan, info) matches Ok(b2) ==> builder_fits(b2),
{
    let dest_is_mar = dest == Register::Mar;
    match dest.bank_index() {
        Some(d) => {
            lemma_set_signal_fits(b, Signal::C, SignalValue::Int(d as u8), fspan);
            match set_signal(b, Signal::C, SignalValue::Int(d as u8), fspan) {
                Ok(b1) => lemma_set_signal_fits(b1, Signal::Enc, SignalValue::Bool(true), fspan),
                _ => {},
            }
        },
        None => {
            lemma_set_signal_fits(b, Signal::Mbr, SignalValue::Bool(true), fspan);
        },
    }
    match assign_dest(b, dest, fspan, info) {
        Ok(b1) => {
            let shifted = match info.shift {
                Some((sh, sp)) => {
                    lemma_set_signal_fits(b1, Signal::Sh, SignalValue::Int(sh), sp);
                    set_signal(b1, Signal::Sh, SignalValue::Int(sh), sp)
                },
                None => {
                    lemma_set_signal_fits(b1, Signal::Sh, SignalValue::Int(0), aspan);
                    set_signal(b1, Signal::Sh, SignalValue::Int(0), aspan)
                },
            };
            match shifted {
                Ok(bs) => lemma_set_signal_fits(bs, Signal::Alu, SignalValue::Int(info.alu_op.0), info.alu_op.1),
                _ => {},
            }
            match assign_ops(b1, dest_is_mar, aspan, info) {
                Ok(b2) => {
                    let (ra, rb) = crate::parsers::mal::parser::bus_operands(dest_is_mar, info);
                    lemma_assign_a_fits(b2, ra, rb);
                    match assign_a(b2, ra, rb) {
                        Ok((b3, rb2)) => {
                            lemma_assign_b_fits(b3, rb2, dest_is_mar, fspan);
                            match assign_b(b3, rb2, dest_is_mar, fspan) {
                                Ok(b4) => lemma_set_signal_fits(b4, Signal::Mar, SignalValue::Bool(true), fspan),
                                _ => {},
                            }
                        },
                        _ => {},
                    }
                },
                _ => {},
            }
        },
        _ => {},
    }
}

/// The A operand keeps a builder that fits.
proof fn lemma_assign_a_fits(b: ControlSignalsBuilder, ra: Option<(Register, Span)>, rb: Option<(Register, Span)>)
    requires
        builder_fits(b),
    ensures
        assign_a(b, ra, rb) matches Ok((b2, _)) ==> builder_fits(b2),
{
    match ra {
        None => {},
        Some((r, sp)) => {
            lemma_set_signal_fits(b, Signal::Amux, SignalValue::Bool(true), sp);
            match r.bank_index() {
                None => {},
                Some(ai) => {
                    let a = ai as u8;
                    match rb {
                        Some((rbr, rbsp)) => match rbr.bank_index() {
                            Some(bi) => {
                                lemma_set_signal_fits(b, Signal::A, SignalValue::Int(bi as u8), rbsp);
                                match set_signal(b, Signal::A, SignalValue::Int(bi as u8), rbsp) {
                                    Ok(b1) => {
                                        lemma_set_signal_fits(b1, Signal::B, SignalValue::Int(a), sp);
                                        match set_signal(b1, Signal::B, SignalValue::Int(a), sp) {
                                            Ok(b2) => lemma_set_signal_fits(b2, Signal::Amux, SignalValue::Bool(false), sp),
                                            _ => {},
                                        }
                                    },
                                    _ => {},
                                }
                            },
                            None => {},
                        },
                        None => {},
                    }
                    lemma_set_signal_fits(b, Signal::A, SignalValue::Int(a), sp);
                    match set_signal(b, Signal::A, SignalValue::Int(a), sp) {
                        Ok(b1) => lemma_set_signal_fits(b1, Signal::Amux, SignalValue::Bool(false), sp),
                        _ => {},
                    }
                },
            }
        },
    }
}

/// The B operand keeps a builder that fits.
proof fn lemma_assign_b_fits(b: ControlSignalsBuilder, rb: Option<(Register, Span)>, dest_is_mar: bool, fspan: Span)
    requires
        builder_fits(b),
    ensures
        assign_b(b, rb, dest_is_mar, fspan) matches Ok(b2) ==> builder_fits(b2),
{
    match rb {
        None => {},
        Some((r, sp)) => match r.bank_index() {
            None => {},
            Some(bi) => {
                let v = bi as u8;
                if refuses(b.b, v) && b.a is Some && b.a->0 == v && b.mar is None {
                    let b1 = ControlSignalsBuilder { b: Some(v), a: Some(b.b->0), ..b };
                    lemma_set_signal_fits(b1, Signal::Mar, SignalValue::Bool(dest_is_mar), fspan);
                }
            },
        },
    }
}

/// A statement keeps a builder that fits.
proof fn lemma_statement_fits(s: Seq<char>, b: ControlSignalsBuilder, first: Token, p: int)
    requires
        builder_fits(b),
    ensures
        read_statement(s, b, first, p) matches Ok((b2, _)) ==> builder_fits(b2),
{
    reveal(read_statement);
    match first.token_type {
        TokenType::Syscall => lemma_set_signal_fits(b, Signal::Syscall, SignalValue::Bool(true), first.span),
        TokenType::Wr => lemma_set_signal_fits(b, Signal::Wr, SignalValue::Bool(true), first.span),
        TokenType::Rd => lemma_set_signal_fits(b, Signal::Rd, SignalValue::Bool(true), first.span),
        TokenType::Goto => lemma_goto_fits(s, b, first, p),
        TokenType::Then => lemma_goto_fits(s, b, first, p),
        TokenType::If => {
            match take(s, p, Expected::Condition) {
                Ok((c, q)) => {
                    lemma_take_token_fits(s, p, Expected::Condition);
                    match c.token_type {
                        TokenType::Condition(cv) => {
                            lemma_set_signal_fits(b, Signal::Cond, SignalValue::Int(cv), first.span);
                            match set_signal(b, Signal::Cond, SignalValue::Int(cv), first.span) {
                                Ok(b1) => match take(s, q, Expected::ThenOrGoto) {
                                    Ok((gf, q2)) => lemma_goto_fits(s, b1, gf, q2),
                                    _ => {},
                                },
                                _ => {},
                            }
                        },
                        _ => {},
                    }
                },
                _ => {},
            }
        },
        TokenType::Register(dest) => {
            match expect_tok(s, p, TokenType::Assign) {
                Ok((assign, q1)) => match take(s, q1, Expected::Operation) {
                    Ok((op_first, q2)) => {
                        lemma_take_token_fits(s, q1, Expected::Operation);
                        lemma_operation_fits(s, op_first, q2);
                        match op_first.token_type {
                            TokenType::Shift(sh) => lemma_shift_fits(s, op_first, sh, q2),
                            _ => {},
                        }
                        let info = match op_first.token_type {
                            TokenType::Shift(sh) => read_shift(s, op_first, sh, q2),
                            TokenType::Register(_) => read_operation(s, op_first, q2),
                            TokenType::AluFunc(_) => read_operation(s, op_first, q2),
                            _ => Err(arbitrary()),
                        };
                        match info {
                            Ok((info, q3)) => lemma_assign_effect_fits(b, dest, first.span, assign.span, info),
                            _ => {},
                        }
                    },
                    _ => {},
                },
                _ => {},
            }
        },
        _ => {},
    }
}

/// A jump keeps a builder that fits.
proof fn lemma_goto_fits(s: Seq<char>, b: ControlSignalsBuilder, first: Token, p: int)
    requires
        builder_fits(b),
    ensures
        read_goto(s, b, first, p) matches Ok((b2, _)) ==> builder_fits(b2),
{
    let g = if first.token_type == TokenType::Then {
        expect_tok(s, p, TokenType::Goto)
    } else {
        Ok((first, p))
    };
    match g {
        Ok((g, q)) => match take_raw(s, q, Expected::Label) {
            Ok((id, q2)) => {
                lemma_set_signal_fits(b, Signal::AddrName, SignalValue::Label(id.span), id.span);
                match set_signal(b, Signal::AddrName, SignalValue::Label(id.span), id.span) {
                    Ok(b1) => lemma_set_signal_fits(b1, Signal::Cond, SignalValue::Int(3), g.span),
                    _ => {},
                }
            },
            _ => {},
        },
        _ => {},
    }
}

/// The statements of a microinstruction keep a builder that fits.
proof fn lemma_clock_fits(s: Seq<char>, b: ControlSignalsBuilder, first: Token, p: int)
    requires
        builder_fits(b),
        0 <= p <= s.len(),
    ensures
        read_clock(s, b, first, p) matches Ok((b2, _)) ==> builder_fits(b2),
    decreases s.len() - p,
{
    reveal(read_clock);
    lemma_statement_fits(s, b, first, p);
    crate::parsers::mal::parser::lemma_statement_advances(s, b, first, p);
    match read_statement(s, b, first, p) {
        Ok((b1, q)) => match expect_tok(s, q, TokenType::Semicolon) {
            Ok((_, q2)) => match take(s, q2, Expected::Anything) {
                Ok((f2, q3)) => {
                    lemma_clock_fits(s, b1, f2, q3);
                },
                _ => {},
            },
            _ => {},
        },
        _ => {},
    }
}

/// A line keeps its labels before `n` (when `count` is) and gives a builder
/// that fits.
proof fn lemma_parse_clock_fits(s: Seq<char>, p: int, labels: Seq<(Seq<char>, usize)>, count: usize, n: int)
    requires
        0 <= p <= s.len(),
        labels_below(labels, n),
        count < n,
    ensures
        parse_clock(s, p, labels, count) matches Ok((l2, (b, _), _)) ==> labels_below(l2, n) && builder_fits(b),
    decreases s.len() - p,
{
    reveal(parse_clock);
    match take_raw(s, p, Expected::LabelOrInstruction) {
        Ok((first, p1)) => {
            match crate::parsers::mal::parser::peek_type(s, p1) {
                Ok(Some(TokenType::Colon)) => {
                    let l1 = labels.push((span_text(s, first.span.start as int, first.span.end as int), count));
                    assert(labels_below(l1, n)) by {
                        assert forall|i: int| 0 <= i < l1.len() implies #[trigger] l1[i].1 < n by {
                            if i < labels.len() {
                                assert(l1[i] == labels[i]);
                            }
                        }
                    }
                    lemma_parse_clock_fits(s, crate::parsers::mal::tokenizer::after(s, p1), l1, count, n);
                },
                _ => {
                    lemma_clock_fits(s, ControlSignalsBuilder::empty(), mapped_token(first, s), p1);
                },
            }
        },
        _ => {},
    }
}

/// The lines keep their labels before the number of microinstructions, and
/// every builder fits.
proof fn lemma_parse_lines_fits(
    s: Seq<char>,
    p: int,
    labels: Seq<(Seq<char>, usize)>,
    pre: Seq<(ControlSignalsBuilder, usize)>,
)
    requires
        0 <= p <= s.len(),
        labels_below(labels, pre.len() as int),
        builders_fit(pre),
    ensures
        parse_lines(s, p, labels, pre) matches Ok((l, pr)) ==> labels_below(l, pr.len() as int) && builders_fit(pr),
    decreases s.len() - p,
{
    reveal(parse_lines);
    if lexed(s, p) is Some {
        let count = pre.len() as usize;
        assert(count < pre.len() + 1) by {
            if pre.len() > usize::MAX {
                assert(count <= usize::MAX);
            }
        }
        assert(labels_below(labels, pre.len() + 1int));
        lemma_parse_clock_fits(s, p, labels, count, pre.len() + 1int);
        crate::parsers::mal::parser::lemma_parse_clock_advances(s, p, labels, count);
        match parse_clock(s, p, labels, count) {
            Ok((l2, pm, q)) => {
                let pre2 = pre.push(pm);
                assert(builders_fit(pre2)) by {
                    assert forall|i: int| 0 <= i < pre2.len() implies builder_fits(#[trigger] pre2[i].0) by {
                        if i < pre.len() {
                            assert(pre2[i] == pre[i]);
                        }
                    }
                }
                lemma_parse_lines_fits(s, q, l2, pre2);
            },
            _ => {},
        }
    }
}

/// A label names one of the addresses that the labels hold.
proof fn lemma_label_address_below(labels: Seq<(Seq<char>, usize)>, name: Seq<char>, n: int)
    requires
        labels_below(labels, n),
    ensures
        label_address(labels, name) matches Some(a) ==> a < n,
    decreases labels.len(),
{
    if labels.len() > 0 && labels.last().0 != name {
        assert(labels_below(labels.drop_last(), n)) by {
            assert forall|i: int| 0 <= i < labels.drop_last().len() implies #[trigger] labels.drop_last()[i].1 < n by {
                assert(labels.drop_last()[i] == labels[i]);
            }
        }
        lemma_label_address_below(labels.drop_last(), name, n);
    }
}

/// Resolved builders that fit, with labels inside the micro-memory, give signals
/// that fit.
proof fn lemma_resolve_fits(s: Seq<char>, labels: Seq<(Seq<char>, usize)>, pre: Seq<(ControlSignalsBuilder, usize)>, n: int)
    requires
        builders_fit(pre),
        labels_below(labels, n),
    ensures
        resolve(s, labels, pre) matches Ok(v) ==> v.len() == pre.len() && (n <= MICROMEM_MAX_SIZE ==> forall|i: int|
            0 <= i < v.len() ==> (#[trigger] v[i]).0.fits()),
    decreases pre.len(),
{
    if pre.len() > 0 {
        let init = pre.drop_last();
        assert(builders_fit(init)) by {
            assert forall|i: int| 0 <= i < init.len() implies builder_fits(#[trigger] init[i].0) by {
                assert(init[i] == pre[i]);
            }
        }
        lemma_resolve_fits(s, labels, init, n);
        let b = pre.last().0;
        assert(builder_fits(pre[pre.len() - 1].0));
        match b.addr_name {
            Some(sp) => lemma_label_address_below(labels, span_text(s, sp.start as int, sp.end as int), n),
            None => {},
        }
        match resolve(s, labels, init) {
            Ok(v) => match resolve_one(s, labels, b) {
                Ok(sig) => {
                    let v2 = v.push((sig, pre.last().1));
                    if n <= MICROMEM_MAX_SIZE {
                        assert(sig.fits());
                        assert forall|i: int| 0 <= i < v2.len() implies (#[trigger] v2[i]).0.fits() by {
                            if i < v.len() {
                                assert(v2[i] == v[i]);
                            }
                        }
                    }
                },
                _ => {},
            },
            _ => {},
        }
    }
}

/// Every field of every microinstruction of a parsed microprogram that fits the
/// micro-memory fits the width it has in the microinstruction word.
pub proof fn lemma_parsed_signals_fit(s: Seq<char>)
    ensures
        match parse_program(s) {
            Ok(v) => v.len() <= MICROMEM_MAX_SIZE ==> forall|i: int| 0 <= i < v.len() ==> (#[trigger] v[i]).0.fits(),
            Err(_) => true,
        },
{
    crate::parsers::mal::parser::lemma_burn_advances(s, 0);
    match burn_newlines(s, 0) {
        Ok(p) => {
            lemma_parse_lines_fits(s, p, Seq::empty(), Seq::empty());
            match parse_lines(s, p, Seq::empty(), Seq::empty()) {
                Ok((labels, pre)) => {
                    lemma_resolve_fits(s, labels, pre, pre.len() as int);
                },
                _ => {},
            }
        },
        _ => {},
    }
}

} // verus!
