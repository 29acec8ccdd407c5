use malde::architecture::memory::DATA_SEGMENT_START;
use malde::parsers::assembly::keyword_map::{KeywordMap, KeywordMapError};
use malde::parsers::assembly::parser::{ASMParser, ParserResult, ParsingErrorType};
use malde::parsers::assembly::tokenizer::{Token, TokenType, Tokenizer, TokenizerErrorType};
use malde::parsers::source_map::{SourceMap, Span};

fn assert_err(content: &str, err: ParsingErrorType) {
    let def_keys = KeywordMap::default();
    let sm = SourceMap::from_content(content);
    let parser = ASMParser::new(&sm, def_keys, DATA_SEGMENT_START);
    assert_eq!(parser.parse().unwrap_err().error_type, err);
}

#[test]
fn test_empty() {
    let def_keys = KeywordMap::default();
    let source_map = SourceMap::from_content(
        ".data
            .text
            ",
    );
    let parser = ASMParser::new(&source_map, def_keys, DATA_SEGMENT_START);
    let ParserResult {
        data_mem: data,
        ins_mem: ins,
        ..
    } = parser.parse().unwrap();
    assert!(data.is_empty());
    assert!(ins.is_empty());
}

#[test]
fn parser_test_data() {
    let def_keys = KeywordMap::default();
    let source_map = SourceMap::from_content(
        ".data
                TESTE1: \n.word 1;
                TESTE2: .word 1,\n2
                ;;;
                TESTE3: .asciz\n \"St\n \\na\"
                TESTE4: .byte 1,2,3,4;;;
                TESTE5: .byte 'a', '\\n'
            .text
                    LOCO 5
            MAIN:   ADDL -1
                    SWAP
                    LODD TESTE3
                    INSP -1
            MAIN2:
                    JUMP MAIN
",
    );
    let parser = ASMParser::new(&source_map, def_keys, DATA_SEGMENT_START);
    let ParserResult {
        data_mem: data,
        ins_mem: ins,
        ..
    } = parser.parse().unwrap();
    let expected = [
        1u16,
        1,
        2,
        'S' as u16,
        't' as u16,
        '\n' as u16,
        ' ' as u16,
        '\n' as u16,
        'a' as u16,
        0,
        1,
        2,
        3,
        4,
        'a' as u16,
        '\n' as u16,
    ];
    assert_eq!(data, expected);
    let expected = [
        0b0111000000000101,
        0b1010111111111111,
        0b1111101000000000,
        0b0000000000000011 + DATA_SEGMENT_START as u16,
        0b1111110011111111,
        0b0110000000000001,
    ];
    assert_eq!(ins, expected);
}

#[test]
fn parser_test_errors() {
    assert_err(
        "5",
        ParsingErrorType::NotASection(Token {
            token_type: TokenType::Int(5),
            span: Span {
                start: 0,
                end: 1,
                line: 1,
                col: 1,
            },
        }),
    );
    assert_err(
        ".data\n TESTE1: .word 1\n,1",
        ParsingErrorType::NotASection(Token {
            token_type: TokenType::Comma,
            span: Span {
                start: 23,
                end: 24,
                line: 3,
                col: 1,
            },
        }),
    );
    assert_err(
        ".text TESTE1:\n INSP\n 1",
        ParsingErrorType::NotAnArgument(Token {
            token_type: TokenType::Newline,
            span: Span {
                start: 19,
                end: 20,
                line: 2,
                col: 6,
            },
        }),
    );
    assert_err(
        ".teste",
        ParsingErrorType::UnrecognizedSession(".teste".to_string()),
    );
    assert_err(
        ".text KEYWORD",
        ParsingErrorType::UnrecognizedKeyword("KEYWORD".to_string()),
    );
    assert_err(
        ".text LODD LABEL",
        ParsingErrorType::UnrecognizedLabel("LABEL".to_string()),
    );
    assert_err(".data TESTE", ParsingErrorType::UnexpectedEnd);
    assert_err(
        ".text INSP -99999999",
        ParsingErrorType::NumberTooLow(-99999999, 0b10000000u8 as i8 as isize),
    );
    assert_err(
        ".data VAR: .byte 256",
        ParsingErrorType::NumberTooHigh(256, 255),
    );
    assert_err(
        ".data VAR: .half 55",
        ParsingErrorType::UnsupportedDirective(".half".to_string()),
    );
    assert_err(
        ".text LABEL1: SWAP\n LABEL2: SWAP\n LABEL1: SWAP",
        ParsingErrorType::DuplicatedLabel("LABEL1".to_string()),
    );
    assert_err(
        ".text MAIN: LODD .byte",
        ParsingErrorType::NotAnArgument(Token {
            token_type: TokenType::Directive,
            span: Span {
                start: 17,
                end: 22,
                line: 1,
                col: 18,
            },
        }),
    );
}

#[test]
fn parser_space_and_instructions() {
    let sm = SourceMap::from_content(".data\n A: .space 3\n B: .word 7\n.text\n LODD B\n HALT\n");
    let r = ASMParser::new(&sm, KeywordMap::default(), 100).parse().unwrap();
    assert_eq!(r.data_mem, vec![0, 0, 7]);
    assert_eq!(r.ins_mem, vec![102, 0]);
    assert_eq!(r.instructions[0].content, " LODD B");
    assert_eq!(r.instructions[0].bin, "0000000001100110");
    assert_eq!(r.instructions[1].bin, "0000000000000000");
    assert_err(
        ".data A: .space -1",
        ParsingErrorType::NumberTooLow(-1, 0),
    );
}

fn lexer_assert(source: &SourceMap, expected: &[(TokenType, &str)]) {
    let mut lexer = Tokenizer::new(source);
    for (typ, content) in expected {
        let token = lexer.next().unwrap().unwrap();
        assert_eq!(&token.token_type, typ);
        assert_eq!(source.get_span(&token.span), *content);
    }
}

#[test]
fn assembly_tokenizer_test_tokens() {
    let source_map = SourceMap::from_content(
        "5 .data
                TESTE1: .word 1, -2\\\n, 0xff, 0b11111111
                TESTE2: .asciz \"String\n ascii com \\n caracteres de\\tcontrole\"
                TESTE3: .byte ' ', '\\n'
            .text
            MAIN: LODD TESTE1; LOCO -1",
    );
    lexer_assert(
        &source_map,
        &[
            (TokenType::Int(5), "5"),
            (TokenType::Directive, ".data"),
            (TokenType::Newline, "\n"),
            (TokenType::Identifier, "TESTE1"),
            (TokenType::Colon, ":"),
            (TokenType::Directive, ".word"),
            (TokenType::Int(1), "1"),
            (TokenType::Comma, ","),
            (TokenType::Int(-2), "-2"),
            (TokenType::Comma, ","),
            (TokenType::Int(255), "0xff"),
            (TokenType::Comma, ","),
            (TokenType::Int(255), "0b11111111"),
            (TokenType::Newline, "\n"),
            (TokenType::Identifier, "TESTE2"),
            (TokenType::Colon, ":"),
            (TokenType::Directive, ".asciz"),
            (
                TokenType::String(String::from(
                    "String\n ascii com \n caracteres de\tcontrole",
                )),
                "\"String\n ascii com \\n caracteres de\\tcontrole\"",
            ),
            (TokenType::Newline, "\n"),
            (TokenType::Identifier, "TESTE3"),
            (TokenType::Colon, ":"),
            (TokenType::Directive, ".byte"),
            (TokenType::Int(' ' as isize), "' '"),
            (TokenType::Comma, ","),
            (TokenType::Int('\n' as isize), "'\\n'"),
            (TokenType::Newline, "\n"),
            (TokenType::Directive, ".text"),
            (TokenType::Newline, "\n"),
            (TokenType::Identifier, "MAIN"),
            (TokenType::Colon, ":"),
            (TokenType::Identifier, "LODD"),
            (TokenType::Identifier, "TESTE1"),
            (TokenType::Semicolon, ";"),
            (TokenType::Identifier, "LOCO"),
            (TokenType::Int(-1), "-1"),
        ],
    );
}

fn assert_lexer_err(content: &str, typ: TokenizerErrorType, text: &str) {
    let source_map = SourceMap::from_content(content);
    let mut lexer = Tokenizer::new(&source_map);
    loop {
        match lexer.next() {
            Some(Ok(_)) => {}
            Some(Err(err)) => {
                assert_eq!(err.error_type, typ);
                assert_eq!(source_map.get_span(&err.span), text);
                return;
            }
            None => panic!("no error in {:?}", content),
        }
    }
}

#[test]
fn tokenizer_test_errors() {
    assert_lexer_err(". data", TokenizerErrorType::InvalidDirective, ".");
    assert_lexer_err("-abc", TokenizerErrorType::InvalidNumber, "-abc");
    assert_lexer_err("*.data", TokenizerErrorType::UnexpectedCharacter, "*");
    assert_lexer_err("\"*.data", TokenizerErrorType::UnendedString, "\"*.data");
    assert_lexer_err("'abcde", TokenizerErrorType::UnendedChar, "'ab");
    assert_lexer_err("'\n'", TokenizerErrorType::UnendedChar, "'\n");
    assert_lexer_err("'a '", TokenizerErrorType::UnendedChar, "'a ");
}

#[test]
fn keyword_map_default_and_pairs() {
    let map = KeywordMap::default();
    assert_eq!(map.get(&['L', 'O', 'D', 'D']), Some((0, 12)));
    assert_eq!(map.get(&['I', 'N', 'S', 'P']), Some((0b11111100, 8)));
    assert_eq!(map.get(&['H', 'A', 'L', 'T']), Some((0, 0)));
    assert_eq!(map.get(&['N', 'O', 'P', 'E']), None);
    assert_eq!(map.str_values().len(), 30);
    let pairs = vec![
        ("A".to_string(), " 01 ".to_string()),
        ("A".to_string(), "1".to_string()),
    ];
    let map = KeywordMap::from_pairs(pairs).unwrap();
    assert_eq!(map.get(&['A']), Some((1, 15)));
    assert_eq!(map.str_values()[0].1, " 01 ");
    let bad = vec![("A".to_string(), "0".to_string()), ("B".to_string(), "012".to_string())];
    assert_eq!(
        KeywordMap::from_pairs(bad).unwrap_err(),
        (1, KeywordMapError::InvalidOpCode)
    );
}

#[test]
fn keyword_map_validation_errors() {
    assert_eq!(KeywordMap::validate_pair("", "01").unwrap_err(), KeywordMapError::EmptyName);
    assert_eq!(KeywordMap::validate_pair("X", "").unwrap_err(), KeywordMapError::EmptyOpCode);
    assert_eq!(
        KeywordMap::validate_pair("X", "01010101010101010").unwrap_err(),
        KeywordMapError::OpCodeTooLong
    );
    assert_eq!(
        KeywordMap::validate_pair("X", "0a").unwrap_err(),
        KeywordMapError::InvalidOpCode
    );
    assert_eq!(
        KeywordMap::validate_pair("X", "101").unwrap(),
        ("X".to_string(), (5, 13))
    );
}

#[test]
fn keyword_map_file_content() {
    let map = KeywordMap::from_file_content("LODD, 0000\n\n  STOD ,0001,extra\r\n").unwrap();
    assert_eq!(map.get(&['S', 'T', 'O', 'D']), Some((1, 12)));
    assert_eq!(
        map.str_values(),
        vec![
            ("LODD".to_string(), "0000".to_string()),
            ("STOD".to_string(), "0001".to_string())
        ]
    );
    assert_eq!(
        KeywordMap::from_file_content("LODD 0000").unwrap_err(),
        (Some(0), KeywordMapError::WrongFormat)
    );
    assert_eq!(
        KeywordMap::from_file_content("A,0\n\nB,2").unwrap_err(),
        (Some(2), KeywordMapError::InvalidOpCode)
    );
}
