use savelang::lexer::{parse_expr, parse_token, print_tokens, str_eq, text_fully_recognized,
    tokennize_line, tokennize_source};
use savelang::token::{CharLocationInfo, DataType, Token, TokenType};

fn loc(file: &str, line: usize, col: u32) -> CharLocationInfo {
    CharLocationInfo { file_path: file.to_string(), line_number: line, line_col: col }
}

fn check_token(tok: &Token, kind: TokenType, value: &str, line: usize, col: u32) {
    assert_eq!(tok.token_type, kind);
    assert_eq!(tok.value.as_str(), value);
    assert_eq!(tok.char_info.line_number, line);
    assert_eq!(tok.char_info.line_col, col);
}

#[test]
fn exit_statement_tokens() {
    let toks = tokennize_line("exit 5;".to_string(), 0, &"main.sv".to_string());
    assert_eq!(toks.len(), 3);
    check_token(&toks[0], TokenType::EXIT, "exit", 1, 1);
    check_token(&toks[1], TokenType::INTLIT, "5", 1, 6);
    check_token(&toks[2], TokenType::SEMICOLON, ";", 1, 7);
    assert_eq!(toks[0].char_info.file_path.as_str(), "main.sv");
}

#[test]
fn declaration_tokens() {
    let toks = tokennize_line("save abc = 17;".to_string(), 4, &"f".to_string());
    assert_eq!(toks.len(), 5);
    check_token(&toks[0], TokenType::VARIABLE, "save", 5, 1);
    check_token(&toks[1], TokenType::UNKNOWN, "abc", 5, 6);
    check_token(&toks[2], TokenType::EQUAL, "=", 5, 10);
    check_token(&toks[3], TokenType::INTLIT, "17", 5, 12);
    check_token(&toks[4], TokenType::SEMICOLON, ";", 5, 14);
}

#[test]
fn keyword_classification() {
    let f = "f".to_string();
    assert_eq!(parse_token("ret", loc(&f, 1, 1)).token_type, TokenType::RETURN);
    assert_eq!(parse_token("exit", loc(&f, 1, 1)).token_type, TokenType::EXIT);
    assert_eq!(
        parse_token("true", loc(&f, 1, 1)).token_type,
        TokenType::DATATYPE(DataType::BOOLEAN)
    );
    assert_eq!(
        parse_token("false", loc(&f, 1, 1)).token_type,
        TokenType::DATATYPE(DataType::BOOLEAN)
    );
    assert_eq!(parse_token("save", loc(&f, 1, 1)).token_type, TokenType::VARIABLE);
    let other = parse_token("exits", loc(&f, 1, 1));
    assert_eq!(other.token_type, TokenType::UNKNOWN);
    assert_eq!(other.value.as_str(), "exits");
}

#[test]
fn operator_characters() {
    let f = "f".to_string();
    assert_eq!(parse_expr('=', loc(&f, 1, 1)).unwrap().token_type, TokenType::EQUAL);
    assert_eq!(parse_expr('-', loc(&f, 1, 1)).unwrap().token_type, TokenType::REMOVE);
    assert_eq!(parse_expr('+', loc(&f, 1, 1)).unwrap().token_type, TokenType::ADD);
    assert!(parse_expr('?', loc(&f, 1, 1)).is_none());
}

#[test]
fn letters_and_digits_split_correctly() {
    // An identifier may continue with digits; a number stops at a letter.
    let f = "f".to_string();
    let toks = tokennize_line("abc123 9x".to_string(), 0, &f);
    assert_eq!(toks.len(), 3);
    check_token(&toks[0], TokenType::UNKNOWN, "abc123", 1, 1);
    check_token(&toks[1], TokenType::INTLIT, "9", 1, 8);
    check_token(&toks[2], TokenType::UNKNOWN, "x", 1, 9);
}

#[test]
fn unrecognized_character_skipped() {
    let toks = tokennize_line("exit @ 7;".to_string(), 0, &"f".to_string());
    assert_eq!(toks.len(), 3);
    check_token(&toks[0], TokenType::EXIT, "exit", 1, 1);
    check_token(&toks[1], TokenType::INTLIT, "7", 1, 8);
    check_token(&toks[2], TokenType::SEMICOLON, ";", 1, 9);
}

#[test]
fn whitespace_only_advances_columns() {
    let toks = tokennize_line("  +\t-".to_string(), 0, &"f".to_string());
    assert_eq!(toks.len(), 2);
    check_token(&toks[0], TokenType::ADD, "+", 1, 3);
    check_token(&toks[1], TokenType::REMOVE, "-", 1, 5);
}

#[test]
fn empty_line_has_no_tokens() {
    let toks = tokennize_line(String::new(), 0, &"f".to_string());
    assert_eq!(toks.len(), 0);
}

#[test]
fn source_lines_numbered_from_one() {
    let toks = tokennize_source("exit 1;\nsave a = 2;", &"prog".to_string());
    assert_eq!(toks.len(), 8);
    check_token(&toks[0], TokenType::EXIT, "exit", 1, 1);
    check_token(&toks[2], TokenType::SEMICOLON, ";", 1, 7);
    check_token(&toks[3], TokenType::VARIABLE, "save", 2, 1);
    check_token(&toks[7], TokenType::SEMICOLON, ";", 2, 11);
}

#[test]
fn source_carriage_return_belongs_to_line_ending() {
    let toks = tokennize_source("exit 3;\r\nexit 4;\n", &"prog".to_string());
    assert_eq!(toks.len(), 6);
    check_token(&toks[2], TokenType::SEMICOLON, ";", 1, 7);
    check_token(&toks[3], TokenType::EXIT, "exit", 2, 1);
    check_token(&toks[4], TokenType::INTLIT, "4", 2, 6);
}

#[test]
fn string_equality_by_characters() {
    assert!(str_eq("save", "save"));
    assert!(!str_eq("save", "saved"));
    assert!(!str_eq("save", "cave"));
    assert!(str_eq("", ""));
}

#[test]
fn strict_mode_detects_unrecognized_characters() {
    assert!(text_fully_recognized("save a = 5;\nexit a;\n"));
    assert!(text_fully_recognized(""));
    assert!(text_fully_recognized("x + y - 3 = ;"));
    assert!(!text_fully_recognized("exit @ 7;"));
    assert!(!text_fully_recognized("exit 7; #"));
    // the lexer itself continues past the character the checker flags
    let toks = tokennize_line("exit @ 7;".to_string(), 0, &"f".to_string());
    assert_eq!(toks.len(), 3);
}

#[test]
fn print_then_tokenize_is_stable() {
    let file = "f".to_string();
    let toks = tokennize_line("save a = 5 ; exit a ;".to_string(), 0, &file);
    let printed = print_tokens(&toks);
    assert_eq!(printed.as_str(), "save a = 5 ; exit a ; ");
    let again = tokennize_line(printed, 0, &file);
    assert_eq!(toks.len(), again.len());
    for (t, u) in toks.iter().zip(again.iter()) {
        assert_eq!(t.token_type, u.token_type);
        assert_eq!(t.value, u.value);
    }
}
