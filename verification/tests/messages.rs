use malde::parsers::assembly::keyword_map::{KeywordMap, KeywordMapError};
use malde::parsers::assembly::parser::ASMParser;
use malde::parsers::mal::parser::MALParser;
use malde::parsers::source_map::{SourceMap, Span};
use malde::virtual_machine::input::{input_from_line, InputLineError};
use malde::virtual_machine::{
    VMError, VMInputError, VMInputRequestType, VMInputResponse,
};

fn mal_error(content: &str) -> String {
    let sm = SourceMap::from_content(content);
    MALParser::new(&sm).parse().unwrap_err().error_type.message()
}

#[test]
fn span_and_simple_messages() {
    let sp = Span {
        start: 0,
        end: 1,
        line: 2,
        col: 5,
    };
    assert_eq!(sp.describe(), "linha: 2, coluna: 5");
    assert_eq!(KeywordMapError::EmptyName.message(), "Nome vazio");
    assert_eq!(
        VMInputError::InvalidNumber(70000, -32768, 65535).message(),
        "Número 70000 fora dos limites (-32768 a 65535)"
    );
    assert_eq!(
        VMError::MarChanged.message(),
        "MAR mudou durante operação da memória. Risco de corrupção de memória."
    );
}

#[test]
fn microprogram_error_messages() {
    assert_eq!(
        mal_error("pc := alu"),
        "alu não pode ser usado como registrador em operação da ula"
    );
    assert_eq!(mal_error("0: goto 1;"), "Rótulo não encontrado");
    assert_eq!(
        mal_error("ac := 1; pc := ac;"),
        "Conflito de valores: registrador c (antes: 1, depois: 0)"
    );
    assert_eq!(
        mal_error("0: ;"),
        "Esperava rótulo ou instrução, mas foi encontrado ponto e vírgula (linha: 1, coluna: 4)"
    );
    assert_eq!(
        mal_error("mar := mbr;"),
        "O registrador mbr não pode ser usado para atribuir valor para o registrador mar diretamente"
    );
    let sm = SourceMap::from_content("pc := alu");
    let err = MALParser::new(&sm).parse().unwrap_err();
    assert_eq!(
        err.report(&sm),
        "Erro ao ler linha 1, coluna 7:\npc := alu\n      ~~~\n\nalu não pode ser usado como registrador em operação da ula"
    );
}

#[test]
fn assembly_error_messages() {
    let sm = SourceMap::from_content(".text LODD LABEL");
    let err = ASMParser::new(&sm, KeywordMap::default(), 100)
        .parse()
        .unwrap_err();
    assert_eq!(err.error_type.message(), "Rótulo \"LABEL\" não reconhecido");
    let sm = SourceMap::from_content(".data VAR: .byte 256");
    let err = ASMParser::new(&sm, KeywordMap::default(), 100)
        .parse()
        .unwrap_err();
    assert_eq!(
        err.error_type.message(),
        "Número 256 alto demais para o limite 255"
    );
}

#[test]
fn input_lines() {
    assert_eq!(
        input_from_line(VMInputRequestType::Int, "42\n").ok().map(|r| match r {
            VMInputResponse::Int(n) => n,
            _ => 0,
        }),
        Some(42)
    );
    match input_from_line(VMInputRequestType::Int, "-9223372036854775808") {
        Ok(VMInputResponse::Int(n)) => assert_eq!(n, isize::MIN),
        _ => panic!("expected the smallest integer"),
    }
    match input_from_line(VMInputRequestType::Int, "+7") {
        Ok(VMInputResponse::Int(n)) => assert_eq!(n, 7),
        _ => panic!("expected 7"),
    }
    for bad in ["9223372036854775808", "4 2", "", "+", "12a"] {
        assert!(matches!(
            input_from_line(VMInputRequestType::Int, bad),
            Err(InputLineError::InvalidNumber)
        ));
    }
    match input_from_line(VMInputRequestType::Char, "a\n") {
        Ok(VMInputResponse::Char(c)) => assert_eq!(c, 'a'),
        _ => panic!("expected a character"),
    }
    for bad in ["é", "ab", ""] {
        assert!(matches!(
            input_from_line(VMInputRequestType::Char, bad),
            Err(InputLineError::NotOneAsciiChar)
        ));
    }
    match input_from_line(VMInputRequestType::String, "oi\n") {
        Ok(VMInputResponse::String(s)) => assert_eq!(s, "oi"),
        _ => panic!("expected a text"),
    }
    assert!(matches!(
        input_from_line(VMInputRequestType::String, "olá"),
        Err(InputLineError::NotAscii)
    ));
    assert_eq!(InputLineError::NotAscii.message(), "Todos os carateres precisam ser do padrão ASCII");
}
