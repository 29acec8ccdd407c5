use malde::architecture::datapath::Register;
use malde::architecture::signals::ControlSignals;
use malde::parsers::lockable::{ControlSignalsLockable, ValueAlreadySet};
use malde::parsers::mal::mir_builder::{ControlSignalsBuilder, ValueConflict};
use malde::parsers::mal::parser::{
    Conflict, Expected, MALParser, ParsingErrorType, Signal, SignalValue,
};
use malde::parsers::mal::tokenizer::{Token, TokenType, Tokenizer, TokenizerErrorType};
use malde::parsers::source_map::{SourceMap, Span};

fn parse_content(content: &str) -> Vec<ControlSignals> {
    let source_map = SourceMap::from_content(content);
    MALParser::new(&source_map)
        .parse()
        .unwrap()
        .into_iter()
        .map(|m| m.mir)
        .collect::<Vec<_>>()
}

fn assert_err(content: &str, err: ParsingErrorType) {
    let sm = SourceMap::from_content(content);
    let parser = MALParser::new(&sm);
    assert_eq!(parser.parse().unwrap_err().error_type, err);
}

fn assert_tokens(content: &str, expected: &[(TokenType, &str)]) {
    let source_map = SourceMap::from_content(content);
    let mut lexer = Tokenizer::new(&source_map);
    for (typ, text) in expected {
        let token = lexer.next_mapped().unwrap().unwrap();
        assert_eq!(token.token_type, *typ);
        assert_eq!(source_map.get_span(&token.span), *text);
    }
}

#[test]
fn tokenizer_test_tokens() {
    let content = "
        alu pc ac sp ir tir 0 1 (-1) amask smask a b c d e f
        LABEL: alu := lshift(a + b); mar := rshift(inv(mbr));
        wr; rd; syscall; if n then goto LABEL;
        LABEL2: if z goto LABEL;
        ";
    assert_tokens(
        content,
        &[
            (TokenType::Newline, "\n"),
            (TokenType::Register(Register::Alu), "alu"),
            (TokenType::Register(Register::Pc), "pc"),
            (TokenType::Register(Register::Ac), "ac"),
            (TokenType::Register(Register::Sp), "sp"),
            (TokenType::Register(Register::Ir), "ir"),
            (TokenType::Register(Register::Tir), "tir"),
            (TokenType::Register(Register::Zero), "0"),
            (TokenType::Register(Register::One), "1"),
            (TokenType::Register(Register::MinusOne), "(-1)"),
            (TokenType::Register(Register::Amask), "amask"),
            (TokenType::Register(Register::Smask), "smask"),
            (TokenType::Register(Register::A), "a"),
            (TokenType::Register(Register::B), "b"),
            (TokenType::Register(Register::C), "c"),
            (TokenType::Register(Register::D), "d"),
            (TokenType::Register(Register::E), "e"),
            (TokenType::Register(Register::F), "f"),
            (TokenType::Newline, "\n"),
            (TokenType::Identifier, "LABEL"),
            (TokenType::Colon, ":"),
            (TokenType::Register(Register::Alu), "alu"),
            (TokenType::Assign, ":="),
            (TokenType::Shift(1), "lshift"),
            (TokenType::LeftParen, "("),
            (TokenType::Register(Register::A), "a"),
            (TokenType::Plus, "+"),
            (TokenType::Register(Register::B), "b"),
            (TokenType::RightParen, ")"),
            (TokenType::Semicolon, ";"),
            (TokenType::Register(Register::Mar), "mar"),
            (TokenType::Assign, ":="),
            (TokenType::Shift(2), "rshift"),
            (TokenType::LeftParen, "("),
            (TokenType::AluFunc(3), "inv"),
            (TokenType::LeftParen, "("),
            (TokenType::Register(Register::Mbr), "mbr"),
            (TokenType::RightParen, ")"),
            (TokenType::RightParen, ")"),
            (TokenType::Semicolon, ";"),
            (TokenType::Newline, "\n"),
            (TokenType::Wr, "wr"),
            (TokenType::Semicolon, ";"),
            (TokenType::Rd, "rd"),
            (TokenType::Semicolon, ";"),
            (TokenType::Syscall, "syscall"),
            (TokenType::Semicolon, ";"),
            (TokenType::If, "if"),
            (TokenType::Condition(1), "n"),
            (TokenType::Then, "then"),
            (TokenType::Goto, "goto"),
            (TokenType::Identifier, "LABEL"),
            (TokenType::Semicolon, ";"),
            (TokenType::Newline, "\n"),
            (TokenType::Identifier, "LABEL2"),
            (TokenType::Colon, ":"),
            (TokenType::If, "if"),
            (TokenType::Condition(2), "z"),
            (TokenType::Goto, "goto"),
            (TokenType::Identifier, "LABEL"),
            (TokenType::Semicolon, ";"),
            (TokenType::Newline, "\n"),
        ],
    );
}

#[test]
fn tokenizer_minus_errors() {
    let sm = SourceMap::from_content("(-2)");
    let mut lexer = Tokenizer::new(&sm);
    let err = lexer.next().unwrap().unwrap_err();
    assert_eq!(err.error_type, TokenizerErrorType::UnexpectedMinus);
    assert_eq!(err.span, Span { start: 1, end: 2, line: 1, col: 1 });
    let sm = SourceMap::from_content("]");
    let mut lexer = Tokenizer::new(&sm);
    assert_eq!(
        lexer.next().unwrap().unwrap_err().error_type,
        TokenizerErrorType::UnexpectedCharacter
    );
    let sm = SourceMap::from_content("# comment ] \\\n pc \\x");
    let mut lexer = Tokenizer::new(&sm);
    let t = lexer.next_mapped().unwrap().unwrap();
    assert_eq!(t.token_type, TokenType::Register(Register::Pc));
    assert_eq!(
        lexer.next().unwrap().unwrap_err().error_type,
        TokenizerErrorType::UnexpectedCharacter
    );
    assert!(lexer.next().is_none());
}

#[test]
fn test_parser() {
    let source_map = SourceMap::from_content("0: pc := pc + 1; mar := pc; rd;");
    let source_map2 = SourceMap::from_content("0: mar := pc; pc := pc + 1; rd;");

    let parser = MALParser::new(&source_map);
    let mics = parser.parse().unwrap();
    assert_eq!(
        mics[0].mir,
        ControlSignals {
            amux: false,
            cond: 0,
            alu: 0,
            sh: 0,
            rd: true,
            wr: false,
            mar: true,
            mbr: false,
            enc: true,
            a: 6,
            b: 0,
            c: 0,
            addr: 0,
            syscall: false,
        }
    );
    let parser2 = MALParser::new(&source_map2);
    assert_eq!(parser2.parse().unwrap()[0].mir, mics[0].mir);

    let source_map = SourceMap::from_content("0: pc := a + b; mbr := b + a;");
    let source_map2 = SourceMap::from_content("0: mbr := b + a; pc := a + b;");

    let parser = MALParser::new(&source_map);
    let expected = ControlSignals {
        mbr: true,
        enc: true,
        a: 10,
        b: 11,
        ..Default::default()
    };
    assert_eq!(parser.parse().unwrap()[0].mir, expected);
    let parser2 = MALParser::new(&source_map2);
    assert_eq!(
        parser2.parse().unwrap()[0].mir,
        ControlSignals {
            a: 11,
            b: 10,
            ..expected
        }
    );

    assert_eq!(
        parse_content(
            "0: f := lshift(1 + (-1)); wr; rd; syscall; if n then goto 1;\n1: if z goto 2;\n2: goto 0;"
        ),
        vec![
            ControlSignals {
                sh: 1,
                a: 6,
                b: 7,
                c: 15,
                enc: true,
                wr: true,
                rd: true,
                syscall: true,
                cond: 1,
                addr: 1,
                ..Default::default()
            },
            ControlSignals {
                cond: 2,
                addr: 2,
                ..Default::default()
            },
            ControlSignals {
                cond: 3,
                addr: 0,
                ..Default::default()
            },
        ]
    )
}

#[test]
fn mal_parser_test_errors() {
    assert_err(
        "]",
        ParsingErrorType::TokenError(TokenizerErrorType::UnexpectedCharacter),
    );
    assert_err(
        "ac := 1; pc := ac;",
        ParsingErrorType::ValueConflict(Conflict {
            signal: Signal::C,
            before: SignalValue::Int(1),
            after: SignalValue::Int(0),
        }),
    );
    assert_err("0: ", ParsingErrorType::UnexpectedEnd(Expected::LabelOrInstruction));
    assert_err(
        "0: ;",
        ParsingErrorType::UnexpectedToken(
            Expected::LabelOrInstruction,
            Token {
                token_type: TokenType::Semicolon,
                span: Span {
                    start: 3,
                    end: 4,
                    line: 1,
                    col: 4,
                },
            },
        ),
    );
    assert_err("pc := alu", ParsingErrorType::NotARealRegister);
    assert_err("mar := 1 + 1", ParsingErrorType::IlegalOperation(Register::Mar));
    assert_err("mar := lshift (a)", ParsingErrorType::IlegalOperation(Register::Mar));
    assert_err("mar := inv (a)", ParsingErrorType::IlegalOperation(Register::Mar));
    assert_err(
        "mar := lshift (inv (a))",
        ParsingErrorType::IlegalOperation(Register::Mar),
    );
    assert_err(
        "mar := mbr;",
        ParsingErrorType::ImplossibleRoute(Register::Mbr, Register::Mar),
    );
    assert_err("alu := mar;", ParsingErrorType::WriteOnlyRegister(Register::Mar));
    assert_err("0: goto 1;", ParsingErrorType::UnrecognizedLabel);
}

#[test]
fn parser_line_contents_and_labels() {
    let sm = SourceMap::from_content("\n\nstart: mar := pc; rd;\n\nloop: goto start;\n");
    let mics = MALParser::new(&sm).parse().unwrap();
    assert_eq!(mics.len(), 2);
    assert_eq!(mics[0].content, "start: mar := pc; rd;");
    assert_eq!(mics[1].content, "loop: goto start;");
    assert_eq!(mics[1].mir.addr, 0);
    assert_eq!(mics[1].mir.cond, 3);
    assert_eq!(mics[0].mir.b, 0);
    assert!(mics[0].mir.mar);
    let sm = SourceMap::from_content("a: b: goto b;");
    let mics = MALParser::new(&sm).parse().unwrap();
    assert_eq!(mics[0].mir.addr, 0);
}

#[test]
fn mir_builder_lockable_errors() {
    let mut s = ControlSignalsBuilder::new();
    let span = Span::default();
    assert_eq!(s.a(1, &span), Ok(1));
    assert_eq!(s.b(2, &span), Ok(2));
    assert_ne!(s.b(3, &span), Ok(2));
    assert_eq!(s.b(2, &span), Ok(2));
    assert_eq!(
        s.b(3, &span),
        Err(ValueConflict {
            name: "b",
            before: 2,
            after: 3,
            span: &span,
        })
    );
    assert_eq!(
        s.a(2, &span),
        Err(ValueConflict {
            name: "a",
            before: 1,
            after: 2,
            span: &span,
        })
    );
    assert_eq!(s.b(2, &span), Ok(2));
}

#[test]
fn builder_defaults_and_force() {
    let mut s = ControlSignalsBuilder::new();
    let span = Span::default();
    assert_eq!(s.get_a(), None);
    s.a_force(3);
    s.a_force(4);
    assert_eq!(s.get_a(), Some(&4));
    assert_eq!(s.cond(2, &span), Ok(2));
    let built = s.build(7);
    assert_eq!(
        built,
        ControlSignals {
            a: 4,
            cond: 2,
            addr: 7,
            ..Default::default()
        }
    );
}

#[test]
fn lockable_lockable_errors() {
    let mut s = ControlSignalsLockable::default();
    assert_eq!(s.set_a(1), Ok(1));
    assert_eq!(s.set_b(2), Ok(2));
    assert_ne!(s.set_b(3), Ok(2));
    assert_eq!(s.set_b(2), Ok(2));
    assert_eq!(s.set_b(3), Err(ValueAlreadySet { name: "b", before: 2, now: 3 }));
    assert_eq!(s.set_a(2), Err(ValueAlreadySet { name: "a", before: 1, now: 2 }));
    assert_eq!(s.set_b(2), Ok(2));
}

#[test]
fn lockable_all_none() {
    let mut s = ControlSignalsLockable::default();
    assert!(s.is_all_none());
    assert_eq!(s.set_amux(true), Ok(true));
    assert!(!s.is_all_none());
    assert_eq!(
        s.set_amux(false),
        Err(ValueAlreadySet { name: "amux", before: true, now: false })
    );
}
