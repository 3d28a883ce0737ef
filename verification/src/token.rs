//! Tokens produced by the lexer: a lexical category, the literal lexeme the
//! token was recognized from, and the source location of its first character.

use vstd::prelude::*;

verus! {

/// Value-size tags a `DATATYPE` token can carry. Only `BOOLEAN` is currently
/// producible by the grammar (`true` / `false`); the others are reserved.
#[allow(non_camel_case_types)]
#[derive(Clone, Copy, Debug, PartialEq, Eq, Structural)]
pub enum DataType {
    U32,
    U16,
    U8,
    BOOLEAN,
}

/// The lexical category of a token. `UNKNOWN` is the catch-all for
/// identifiers, and is the only way a variable reference is spelled.
#[allow(non_camel_case_types)]
#[derive(Clone, Copy, Debug, PartialEq, Eq, Structural)]
pub enum TokenType {
    RETURN,
    EXIT,
    INTLIT,
    VARIABLE,
    DATATYPE(DataType),
    EQUAL,
    ADD,
    REMOVE,
    SEMICOLON,
    UNKNOWN,
}

/// Where a token's first character stands in the source: file identifier,
/// 1-based line number, 1-based column.
pub struct CharLocationInfo {
    pub file_path: String,
    pub line_number: usize,
    pub line_col: u32,
}

/// One lexed token: its category, the literal text it was recognized from,
/// and the location of its first character.
pub struct Token {
    pub token_type: TokenType,
    pub value: String,
    pub char_info: CharLocationInfo,
}

/// The mathematical model of a token: category, lexeme and location as
/// plain sequence/number values.
pub ghost struct SpecToken {
    pub kind: TokenType,
    pub lexeme: Seq<char>,
    pub file: Seq<char>,
    pub line: nat,
    pub col: nat,
}

impl View for CharLocationInfo {
    type V = (Seq<char>, nat, nat);

    open spec fn view(&self) -> (Seq<char>, nat, nat) {
        (self.file_path@, self.line_number as nat, self.line_col as nat)
    }
}

impl View for Token {
    type V = SpecToken;

    open spec fn view(&self) -> SpecToken {
        SpecToken {
            kind: self.token_type,
            lexeme: self.value@,
            file: self.char_info.file_path@,
            line: self.char_info.line_number as nat,
            col: self.char_info.line_col as nat,
        }
    }
}

impl DeepView for Token {
    type V = SpecToken;

    open spec fn deep_view(&self) -> SpecToken {
        self.view()
    }
}

} // verus!
