//! Lexical analysis: source text to tokens with source positions.
//!
//! Classification of a character follows the Unicode predicates of `char`.
//! Those predicates have no specification here, so each is taken on trust
//! behind a wrapper: on the ASCII range the wrapper's contract states the
//! exact answer, beyond it the answer is only given a name.

use vstd::prelude::*;

use crate::token::{CharLocationInfo, DataType, SpecToken, Token, TokenType};

verus! {

/// What `char::is_alphabetic` answers for characters beyond ASCII.
pub uninterp spec fn alphabetic_beyond_ascii(c: char) -> bool;

/// What `char::is_numeric` answers for characters beyond ASCII.
pub uninterp spec fn numeric_beyond_ascii(c: char) -> bool;

/// What `char::is_whitespace` answers for characters beyond ASCII.
pub uninterp spec fn whitespace_beyond_ascii(c: char) -> bool;

/// Whether a character starts an identifier: on ASCII, exactly the letters.
pub open spec fn char_alphabetic(c: char) -> bool {
    if (c as u32) < 128 {
        (65 <= c as u32 && c as u32 <= 90) || (97 <= c as u32 && c as u32 <= 122)
    } else {
        alphabetic_beyond_ascii(c)
    }
}

/// Whether a character starts or continues an integer literal: on ASCII,
/// exactly the decimal digits.
pub open spec fn char_numeric(c: char) -> bool {
    if (c as u32) < 128 {
        48 <= c as u32 && c as u32 <= 57
    } else {
        numeric_beyond_ascii(c)
    }
}

/// Whether a character is skipped as whitespace: on ASCII, space and the
/// five control characters tab through carriage return.
pub open spec fn char_whitespace(c: char) -> bool {
    if (c as u32) < 128 {
        c as u32 == 32 || (9 <= c as u32 && c as u32 <= 13)
    } else {
        whitespace_beyond_ascii(c)
    }
}

/// Whether a character continues an identifier.
pub open spec fn char_alphanumeric(c: char) -> bool {
    char_alphabetic(c) || char_numeric(c)
}

/// Relies on `char::is_alphabetic`: a pure predicate of the character; on
/// ASCII the Alphabetic property holds of exactly the letters, and beyond
/// ASCII its answer is the one named by `alphabetic_beyond_ascii`.
#[verifier::external_body]
pub fn char_is_alphabetic(c: char) -> (r: bool)
    ensures
        r == char_alphabetic(c),
        (c as u32) >= 128 ==> r == alphabetic_beyond_ascii(c),
{
    c.is_alphabetic()
}

/// Relies on `char::is_numeric`: a pure predicate of the character; on ASCII
/// the Number property holds of exactly the decimal digits, and beyond ASCII
/// its answer is the one named by `numeric_beyond_ascii`.
#[verifier::external_body]
pub fn char_is_numeric(c: char) -> (r: bool)
    ensures
        r == char_numeric(c),
        (c as u32) >= 128 ==> r == numeric_beyond_ascii(c),
{
    c.is_numeric()
}

/// Relies on `char::is_whitespace`: a pure predicate of the character; on
/// ASCII the White_Space property holds of exactly space and the control
/// characters tab through carriage return, and beyond ASCII its answer is
/// the one named by `whitespace_beyond_ascii`.
#[verifier::external_body]
pub fn char_is_whitespace(c: char) -> (r: bool)
    ensures
        r == char_whitespace(c),
        (c as u32) >= 128 ==> r == whitespace_beyond_ascii(c),
{
    c.is_whitespace()
}

/// Length of the longest all-alphanumeric prefix of `s`.
pub open spec fn munch_alnum(s: Seq<char>) -> nat
    decreases s.len(),
{
    if s.len() > 0 && char_alphanumeric(s[0]) {
        (1 + munch_alnum(s.skip(1))) as nat
    } else {
        0
    }
}

/// Length of the longest all-numeric prefix of `s`.
pub open spec fn munch_numeric(s: Seq<char>) -> nat
    decreases s.len(),
{
    if s.len() > 0 && char_numeric(s[0]) {
        (1 + munch_numeric(s.skip(1))) as nat
    } else {
        0
    }
}

pub proof fn lemma_munch_alnum_le(s: Seq<char>)
    ensures
        munch_alnum(s) <= s.len(),
    decreases s.len(),
{
    if s.len() > 0 && char_alphanumeric(s[0]) {
        lemma_munch_alnum_le(s.skip(1));
    }
}

pub proof fn lemma_munch_numeric_le(s: Seq<char>)
    ensures
        munch_numeric(s) <= s.len(),
    decreases s.len(),
{
    if s.len() > 0 && char_numeric(s[0]) {
        lemma_munch_numeric_le(s.skip(1));
    }
}

/// The munch length is `m` exactly when the first `m` characters are
/// alphanumeric and the next one, if any, is not.
pub proof fn lemma_munch_alnum_exact(s: Seq<char>, m: nat)
    requires
        m <= s.len(),
        forall|k: int| 0 <= k < m ==> char_alphanumeric(s[k]),
        m < s.len() ==> !char_alphanumeric(s[m as int]),
    ensures
        munch_alnum(s) == m,
    decreases m,
{
    if m == 0 {
    } else {
        assert(char_alphanumeric(s[0]));
        lemma_munch_alnum_exact(s.skip(1), (m - 1) as nat);
    }
}

pub proof fn lemma_munch_numeric_exact(s: Seq<char>, m: nat)
    requires
        m <= s.len(),
        forall|k: int| 0 <= k < m ==> char_numeric(s[k]),
        m < s.len() ==> !char_numeric(s[m as int]),
    ensures
        munch_numeric(s) == m,
    decreases m,
{
    if m == 0 {
    } else {
        assert(char_numeric(s[0]));
        lemma_munch_numeric_exact(s.skip(1), (m - 1) as nat);
    }
}

/// Keyword lookup for a lexed word: the category its spelling names, or
/// `UNKNOWN` for every other identifier.
pub open spec fn spec_classify_word(w: Seq<char>) -> TokenType {
    if w == "ret"@ {
        TokenType::RETURN
    } else if w == "exit"@ {
        TokenType::EXIT
    } else if w == "true"@ || w == "false"@ {
        TokenType::DATATYPE(DataType::BOOLEAN)
    } else if w == "save"@ {
        TokenType::VARIABLE
    } else {
        TokenType::UNKNOWN
    }
}

/// The tokens of one source line, read left to right from `s`.
///
/// `line` is the 1-based line number recorded on each token and `col` the
/// 1-based column of `s`'s first character. Checked in priority order: an
/// alphabetic start munches an identifier and classifies it by keyword, a
/// numeric start munches an integer literal, `;` and the single-character
/// operators stand alone, whitespace is skipped, and any other character is
/// skipped too (the lexer does not abort the line).
pub open spec fn spec_tokens_from(s: Seq<char>, file: Seq<char>, line: nat, col: nat) -> Seq<
    SpecToken,
>
    decreases s.len(),
    via spec_tokens_from_dec
{
    if s.len() == 0 {
        Seq::empty()
    } else {
        let c = s[0];
        if char_alphabetic(c) {
            let k = 1 + munch_alnum(s.skip(1));
            let w = s.take(k as int);
            seq![
                SpecToken { kind: spec_classify_word(w), lexeme: w, file, line, col },
            ] + spec_tokens_from(s.skip(k as int), file, line, (col + k) as nat)
        } else if char_numeric(c) {
            let k = 1 + munch_numeric(s.skip(1));
            let w = s.take(k as int);
            seq![
                SpecToken { kind: TokenType::INTLIT, lexeme: w, file, line, col },
            ] + spec_tokens_from(s.skip(k as int), file, line, (col + k) as nat)
        } else if c == ';' {
            seq![
                SpecToken { kind: TokenType::SEMICOLON, lexeme: ";"@, file, line, col },
            ] + spec_tokens_from(s.skip(1), file, line, (col + 1) as nat)
        } else if char_whitespace(c) {
            spec_tokens_from(s.skip(1), file, line, (col + 1) as nat)
        } else if c == '=' {
            seq![
                SpecToken { kind: TokenType::EQUAL, lexeme: "="@, file, line, col },
            ] + spec_tokens_from(s.skip(1), file, line, (col + 1) as nat)
        } else if c == '-' {
            seq![
                SpecToken { kind: TokenType::REMOVE, lexeme: "-"@, file, line, col },
            ] + spec_tokens_from(s.skip(1), file, line, (col + 1) as nat)
        } else if c == '+' {
            seq![
                SpecToken { kind: TokenType::ADD, lexeme: "+"@, file, line, col },
            ] + spec_tokens_from(s.skip(1), file, line, (col + 1) as nat)
        } else {
            spec_tokens_from(s.skip(1), file, line, (col + 1) as nat)
        }
    }
}

#[via_fn]
proof fn spec_tokens_from_dec(s: Seq<char>, file: Seq<char>, line: nat, col: nat) {
    if s.len() > 0 {
        lemma_munch_alnum_le(s.skip(1));
        lemma_munch_numeric_le(s.skip(1));
    }
}

/// Character-wise string equality.
pub fn str_eq(a: &str, b: &str) -> (r: bool)
    ensures
        r == (a@ == b@),
{
    let na = a.unicode_len();
    let nb = b.unicode_len();
    if na != nb {
        proof {
            if a@ == b@ {
                assert(a@.len() == b@.len());
            }
        }
        return false;
    }
    let mut i: usize = 0;
    while i < na
        invariant
            na == a@.len(),
            nb == b@.len(),
            na == nb,
            i <= na,
            forall|k: int| 0 <= k < i ==> a@[k] == b@[k],
        decreases na - i,
    {
        let ca = a.get_char(i);
        let cb = b.get_char(i);
        if ca != cb {
            proof {
                if a@ == b@ {
                    assert(a@[i as int] == b@[i as int]);
                }
            }
            return false;
        }
        i += 1;
    }
    proof {
        assert(a@ =~= b@);
    }
    true
}

/// Classifies a lexed word by keyword lookup; any spelling that is no
/// keyword becomes an `UNKNOWN` token carrying the word as its lexeme.
pub fn parse_token(string: &str, char_info: CharLocationInfo) -> (t: Token)
    ensures
        t.token_type == spec_classify_word(string@),
        t.value@ == string@,
        t.char_info == char_info,
{
    if str_eq(string, "ret") {
        Token { token_type: TokenType::RETURN, value: "ret".to_owned(), char_info }
    } else if str_eq(string, "exit") {
        Token { token_type: TokenType::EXIT, value: "exit".to_owned(), char_info }
    } else if str_eq(string, "true") {
        Token {
            token_type: TokenType::DATATYPE(DataType::BOOLEAN),
            value: "true".to_owned(),
            char_info,
        }
    } else if str_eq(string, "false") {
        Token {
            token_type: TokenType::DATATYPE(DataType::BOOLEAN),
            value: "false".to_owned(),
            char_info,
        }
    } else if str_eq(string, "save") {
        Token { token_type: TokenType::VARIABLE, value: "save".to_owned(), char_info }
    } else {
        Token { token_type: TokenType::UNKNOWN, value: string.to_owned(), char_info }
    }
}

/// Recognizes the single-character operators `=`, `-` and `+`; any other
/// character yields no token.
pub fn parse_expr(c: char, char_info: CharLocationInfo) -> (t: Option<Token>)
    ensures
        match t {
            Some(tok) => ((c == '=' && tok.token_type == TokenType::EQUAL && tok.value@ == "="@)
                || (c == '-' && tok.token_type == TokenType::REMOVE && tok.value@ == "-"@) || (c
                == '+' && tok.token_type == TokenType::ADD && tok.value@ == "+"@))
                && tok.char_info == char_info,
            None => !(c == '=' || c == '-' || c == '+'),
        },
{
    match c {
        '=' => Some(
            Token { token_type: TokenType::EQUAL, value: "=".to_owned(), char_info },
        ),
        '-' => Some(
            Token { token_type: TokenType::REMOVE, value: "-".to_owned(), char_info },
        ),
        '+' => Some(
            Token { token_type: TokenType::ADD, value: "+".to_owned(), char_info },
        ),
        _ => None,
    }
}

/// Tokenizes one source line. `line_number` is 0-based; the recorded line
/// number is 1-based, and columns count every consumed character from 1.
///
/// An unrecognized character is skipped and the rest of the line is still
/// tokenized; a caller that needs a hard failure on such a character screens
/// the text first with `text_fully_recognized`.
pub fn tokennize_line(string: String, line_number: usize, file: &String) -> (tokens: Vec<Token>)
    requires
        string@.len() + 1 < u32::MAX,
        line_number < usize::MAX,
    ensures
        tokens.deep_view() == spec_tokens_from(
            string@,
            file@,
            (line_number + 1) as nat,
            1,
        ),
{
    let ghost s = string@;
    let ghost lnum = (line_number + 1) as nat;
    let strslice = string.as_str();
    let n = strslice.unicode_len();
    let mut tokens: Vec<Token> = Vec::new();
    let mut i: usize = 0;
    proof {
        assert(s.skip(0) =~= s);
    }
    while i < n
        invariant
            s == string@,
            strslice@ == s,
            n == s.len(),
            s.len() + 1 < u32::MAX,
            line_number < usize::MAX,
            lnum == (line_number + 1) as nat,
            i <= n,
            spec_tokens_from(s, file@, lnum, 1) == tokens.deep_view() + spec_tokens_from(
                s.skip(i as int),
                file@,
                lnum,
                (i + 1) as nat,
            ),
        decreases n - i,
    {
        let c = strslice.get_char(i);
        let char_info = CharLocationInfo {
            file_path: file.clone(),
            line_number: line_number + 1,
            line_col: (i + 1) as u32,
        };
        let ghost toks_before = tokens.deep_view();
        if char_is_alphabetic(c) {
            let mut j = i + 1;
            loop
                invariant
                    strslice@ == s,
                    n == s.len(),
                    i + 1 <= j <= n,
                    forall|k: int| i + 1 <= k < j ==> char_alphanumeric(s[k]),
                ensures
                    i + 1 <= j <= n,
                    forall|k: int| i + 1 <= k < j ==> char_alphanumeric(s[k]),
                    j < n ==> !char_alphanumeric(s[j as int]),
                decreases n - j,
            {
                if j < n {
                    let c2 = strslice.get_char(j);
                    let a1 = char_is_alphabetic(c2);
                    let a2 = char_is_numeric(c2);
                    if a1 || a2 {
                        j += 1;
                    } else {
                        break ;
                    }
                } else {
                    break ;
                }
            }
            proof {
                let si = s.skip(i as int);
                assert(si[0] == s[i as int]);
                assert(si.skip(1) =~= s.skip(i as int + 1));
                assert forall|k: int| 0 <= k < j - i - 1 implies #[trigger] char_alphanumeric(
                    s.skip(i as int + 1)[k],
                ) by {
                    assert(s.skip(i as int + 1)[k] == s[i + 1 + k]);
                }
                lemma_munch_alnum_exact(s.skip(i as int + 1), (j - i - 1) as nat);
                assert(si.take(j - i) =~= s.subrange(i as int, j as int));
                assert(si.skip(j - i) =~= s.skip(j as int));
            }
            let lex = strslice.substring_char(i, j);
            let tok = parse_token(lex, char_info);
            tokens.push(tok);
            proof {
                assert(tokens.deep_view() =~= toks_before.push(tok@));
                assert(spec_tokens_from(s.skip(i as int), file@, lnum, (i + 1) as nat) == seq![
                    tok@,
                ] + spec_tokens_from(s.skip(j as int), file@, lnum, (j + 1) as nat));
                assert(toks_before + (seq![tok@] + spec_tokens_from(
                    s.skip(j as int),
                    file@,
                    lnum,
                    (j + 1) as nat,
                )) =~= tokens.deep_view() + spec_tokens_from(
                    s.skip(j as int),
                    file@,
                    lnum,
                    (j + 1) as nat,
                ));
            }
            i = j;
        } else if char_is_numeric(c) {
            let mut j = i + 1;
            loop
                invariant
                    strslice@ == s,
                    n == s.len(),
                    i + 1 <= j <= n,
                    forall|k: int| i + 1 <= k < j ==> char_numeric(s[k]),
                ensures
                    i + 1 <= j <= n,
                    forall|k: int| i + 1 <= k < j ==> char_numeric(s[k]),
                    j < n ==> !char_numeric(s[j as int]),
                decreases n - j,
            {
                if j < n {
                    let c2 = strslice.get_char(j);
                    if char_is_numeric(c2) {
                        j += 1;
                    } else {
                        break ;
                    }
                } else {
                    break ;
                }
            }
            proof {
                let si = s.skip(i as int);
                assert(si[0] == s[i as int]);
                assert(si.skip(1) =~= s.skip(i as int + 1));
                assert forall|k: int| 0 <= k < j - i - 1 implies #[trigger] char_numeric(
                    s.skip(i as int + 1)[k],
                ) by {
                    assert(s.skip(i as int + 1)[k] == s[i + 1 + k]);
                }
                lemma_munch_numeric_exact(s.skip(i as int + 1), (j - i - 1) as nat);
                assert(si.take(j - i) =~= s.subrange(i as int, j as int));
                assert(si.skip(j - i) =~= s.skip(j as int));
            }
            let lex = strslice.substring_char(i, j);
            let tok = Token {
                token_type: TokenType::INTLIT,
                value: lex.to_owned(),
                char_info,
            };
            tokens.push(tok);
            proof {
                assert(tokens.deep_view() =~= toks_before.push(tok@));
                assert(spec_tokens_from(s.skip(i as int), file@, lnum, (i + 1) as nat) == seq![
                    tok@,
                ] + spec_tokens_from(s.skip(j as int), file@, lnum, (j + 1) as nat));
                assert(toks_before + (seq![tok@] + spec_tokens_from(
                    s.skip(j as int),
                    file@,
                    lnum,
                    (j + 1) as nat,
                )) =~= tokens.deep_view() + spec_tokens_from(
                    s.skip(j as int),
                    file@,
                    lnum,
                    (j + 1) as nat,
                ));
            }
            i = j;
        } else if c == ';' {
            let tok = Token {
                token_type: TokenType::SEMICOLON,
                value: ";".to_owned(),
                char_info,
            };
            tokens.push(tok);
            proof {
                let si = s.skip(i as int);
                assert(si[0] == s[i as int]);
                assert(si.skip(1) =~= s.skip(i as int + 1));
                assert(tokens.deep_view() =~= toks_before.push(tok@));
                assert(spec_tokens_from(s.skip(i as int), file@, lnum, (i + 1) as nat) == seq![
                    tok@,
                ] + spec_tokens_from(s.skip(i as int + 1), file@, lnum, (i + 2) as nat));
                assert(toks_before + (seq![tok@] + spec_tokens_from(
                    s.skip(i as int + 1),
                    file@,
                    lnum,
                    (i + 2) as nat,
                )) =~= tokens.deep_view() + spec_tokens_from(
                    s.skip(i as int + 1),
                    file@,
                    lnum,
                    (i + 2) as nat,
                ));
            }
            i += 1;
        } else if char_is_whitespace(c) {
            proof {
                let si = s.skip(i as int);
                assert(si[0] == s[i as int]);
                assert(si.skip(1) =~= s.skip(i as int + 1));
            }
            i += 1;
        } else {
            match parse_expr(c, char_info) {
                Some(tok) => {
                    tokens.push(tok);
                    proof {
                        let si = s.skip(i as int);
                        assert(si[0] == s[i as int]);
                        assert(si.skip(1) =~= s.skip(i as int + 1));
                        assert(tokens.deep_view() =~= toks_before.push(tok@));
                        assert(spec_tokens_from(s.skip(i as int), file@, lnum, (i + 1) as nat)
                            == seq![tok@] + spec_tokens_from(
                            s.skip(i as int + 1),
                            file@,
                            lnum,
                            (i + 2) as nat,
                        ));
                        assert(toks_before + (seq![tok@] + spec_tokens_from(
                            s.skip(i as int + 1),
                            file@,
                            lnum,
                            (i + 2) as nat,
                        )) =~= tokens.deep_view() + spec_tokens_from(
                            s.skip(i as int + 1),
                            file@,
                            lnum,
                            (i + 2) as nat,
                        ));
                    }
                },
                None => {
                    proof {
                        let si = s.skip(i as int);
                        assert(si[0] == s[i as int]);
                        assert(si.skip(1) =~= s.skip(i as int + 1));
                    }
                },
            }
            i += 1;
        }
    }
    proof {
        assert(s.skip(n as int) =~= Seq::<char>::empty());
        assert(tokens.deep_view() + spec_tokens_from(
            s.skip(n as int),
            file@,
            lnum,
            (n + 1) as nat,
        ) =~= tokens.deep_view());
    }
    tokens
}

/// Index of the first line feed in `s`, or `s.len()` if there is none.
pub open spec fn spec_first_nl(s: Seq<char>) -> int
    decreases s.len(),
{
    if s.len() == 0 {
        0
    } else if s[0] == '\n' {
        0
    } else {
        1 + spec_first_nl(s.skip(1))
    }
}

pub proof fn lemma_first_nl_bounds(s: Seq<char>)
    ensures
        0 <= spec_first_nl(s) <= s.len(),
    decreases s.len(),
{
    if s.len() > 0 && s[0] != '\n' {
        lemma_first_nl_bounds(s.skip(1));
    }
}

/// The first line feed stands at `m` exactly when no earlier character is
/// one and the character at `m`, if any, is.
pub proof fn lemma_first_nl_exact(s: Seq<char>, m: nat)
    requires
        m <= s.len(),
        forall|k: int| 0 <= k < m ==> s[k] != '\n',
        m < s.len() ==> s[m as int] == '\n',
    ensures
        spec_first_nl(s) == m,
    decreases m,
{
    if m == 0 {
    } else {
        assert(s[0] != '\n');
        lemma_first_nl_exact(s.skip(1), (m - 1) as nat);
    }
}

/// Drops one trailing carriage return, as a line ending may be `\r\n`.
pub open spec fn strip_cr(l: Seq<char>) -> Seq<char> {
    if l.len() > 0 && l[l.len() - 1] == '\r' {
        l.take(l.len() - 1)
    } else {
        l
    }
}

/// The tokens of a whole source text, line by line: the text is split at
/// line feeds (a carriage return directly before one belongs to the line
/// ending, not to the line), and each line is tokenized with its 1-based
/// line number; `line` numbers the first line of `s`.
pub open spec fn spec_tokens_source_from(s: Seq<char>, file: Seq<char>, line: nat) -> Seq<
    SpecToken,
>
    decreases s.len(),
    via spec_tokens_source_from_dec
{
    if s.len() == 0 {
        Seq::empty()
    } else {
        let j = spec_first_nl(s);
        if j == s.len() {
            spec_tokens_from(s, file, line, 1)
        } else {
            spec_tokens_from(strip_cr(s.take(j)), file, line, 1) + spec_tokens_source_from(
                s.skip(j + 1),
                file,
                (line + 1) as nat,
            )
        }
    }
}

#[via_fn]
proof fn spec_tokens_source_from_dec(s: Seq<char>, file: Seq<char>, line: nat) {
    lemma_first_nl_bounds(s);
}

/// Whether the lexer recognizes a character: it starts or continues a
/// token, stands alone as a separator or operator, or is skipped as
/// whitespace. Any other character leaves no trace in the token sequence.
pub open spec fn char_recognized(c: char) -> bool {
    char_alphanumeric(c) || char_whitespace(c) || c == ';' || c == '=' || c == '-' || c == '+'
}

/// Whether every character of a text is one the lexer recognizes.
pub open spec fn all_recognized(s: Seq<char>) -> bool {
    forall|k: int| 0 <= k < s.len() ==> char_recognized(#[trigger] s[k])
}

/// The verified ground for a strict mode: tokenization skips an
/// unrecognized character without aborting the line, so a caller that must
/// fail hard on one checks the text first and rejects it when this returns
/// false.
pub fn text_fully_recognized(content: &str) -> (r: bool)
    ensures
        r == all_recognized(content@),
{
    let n = content.unicode_len();
    let mut i: usize = 0;
    while i < n
        invariant
            n == content@.len(),
            i <= n,
            forall|k: int| 0 <= k < i ==> char_recognized(#[trigger] content@[k]),
        decreases n - i,
    {
        let c = content.get_char(i);
        let a = char_is_alphabetic(c);
        let d = char_is_numeric(c);
        let w = char_is_whitespace(c);
        if !(a || d || w || c == ';' || c == '=' || c == '-' || c == '+') {
            proof {
                assert(!char_recognized(content@[i as int]));
            }
            return false;
        }
        i += 1;
    }
    true
}

/// The text a token sequence prints back to: each token's lexeme followed
/// by one space.
pub open spec fn spec_print_tokens(toks: Seq<SpecToken>) -> Seq<char>
    decreases toks.len(),
{
    if toks.len() == 0 {
        Seq::empty()
    } else {
        toks[0].lexeme + seq![' '] + spec_print_tokens(toks.skip(1))
    }
}

/// Prints a token sequence back to source text: each lexeme followed by one
/// space. Tokenizing the result reproduces the tokens' categories and
/// lexemes; see `lemma_print_tokens_round_trip`.
pub fn print_tokens(tokens: &Vec<Token>) -> (r: String)
    ensures
        r@ == spec_print_tokens(tokens.deep_view()),
{
    let ghost tv = tokens.deep_view();
    let mut out = String::new();
    let mut i: usize = 0;
    proof {
        assert(tv.skip(0) =~= tv);
    }
    while i < tokens.len()
        invariant
            tv == tokens.deep_view(),
            tv.len() == tokens@.len(),
            i <= tokens@.len(),
            out@ + spec_print_tokens(tv.skip(i as int)) == spec_print_tokens(tv),
        decreases tokens@.len() - i,
    {
        let ghost ob = out@;
        out.append(tokens[i].value.as_str());
        out.append(" ");
        proof {
            reveal_strlit(" ");
            assert(" "@ =~= seq![' ']);
            assert(tv.skip(i as int)[0] == tv[i as int]);
            assert(tv.skip(i as int).skip(1) =~= tv.skip(i as int + 1));
            assert(ob + spec_print_tokens(tv.skip(i as int)) =~= out@ + spec_print_tokens(
                tv.skip(i as int + 1),
            ));
        }
        i += 1;
    }
    proof {
        assert(tv.skip(tokens@.len() as int) =~= Seq::<SpecToken>::empty());
        assert(out@ + spec_print_tokens(Seq::<SpecToken>::empty()) =~= out@);
    }
    out
}

/// The shape of a lexed identifier or keyword: an alphabetic first character
/// and alphanumeric rest.
pub open spec fn word_lexeme(w: Seq<char>) -> bool {
    w.len() > 0 && char_alphabetic(w[0]) && (forall|k: int|
        1 <= k < w.len() ==> char_alphanumeric(#[trigger] w[k]))
}

/// The shape of a lexed integer literal: every character numeric, and the
/// first one no identifier start.
pub open spec fn int_lexeme(w: Seq<char>) -> bool {
    w.len() > 0 && char_numeric(w[0]) && !char_alphabetic(w[0]) && (forall|k: int|
        1 <= k < w.len() ==> char_numeric(#[trigger] w[k]))
}

/// A token the lexer itself could have produced: its lexeme has the shape
/// of its category. Every token of `spec_tokens_from` is such a token; see
/// `lemma_tokens_lexable`.
pub open spec fn lexable(t: SpecToken) -> bool {
    match t.kind {
        TokenType::RETURN => t.lexeme == "ret"@,
        TokenType::EXIT => t.lexeme == "exit"@,
        TokenType::VARIABLE => t.lexeme == "save"@,
        TokenType::DATATYPE(d) => d == DataType::BOOLEAN && (t.lexeme == "true"@ || t.lexeme
            == "false"@),
        TokenType::INTLIT => int_lexeme(t.lexeme),
        TokenType::SEMICOLON => t.lexeme == ";"@,
        TokenType::EQUAL => t.lexeme == "="@,
        TokenType::ADD => t.lexeme == "+"@,
        TokenType::REMOVE => t.lexeme == "-"@,
        TokenType::UNKNOWN => word_lexeme(t.lexeme) && spec_classify_word(t.lexeme)
            == TokenType::UNKNOWN,
    }
}

/// A token's category and lexeme, the parts of it that printing and
/// re-tokenizing preserve.
pub open spec fn kinds_lexemes(toks: Seq<SpecToken>) -> Seq<(TokenType, Seq<char>)> {
    toks.map_values(|t: SpecToken| (t.kind, t.lexeme))
}

pub proof fn lemma_munch_alnum_chars(s: Seq<char>)
    ensures
        forall|k: int| 0 <= k < munch_alnum(s) ==> char_alphanumeric(#[trigger] s[k]),
    decreases s.len(),
{
    if s.len() > 0 && char_alphanumeric(s[0]) {
        lemma_munch_alnum_chars(s.skip(1));
        lemma_munch_alnum_le(s);
        lemma_munch_alnum_le(s.skip(1));
        assert forall|k: int| 0 <= k < munch_alnum(s) implies char_alphanumeric(
            #[trigger] s[k],
        ) by {
            if k > 0 {
                assert(0 <= k - 1 < munch_alnum(s.skip(1)));
                assert(s.skip(1)[k - 1] == s[k]);
            }
        }
    }
}

pub proof fn lemma_munch_numeric_chars(s: Seq<char>)
    ensures
        forall|k: int| 0 <= k < munch_numeric(s) ==> char_numeric(#[trigger] s[k]),
    decreases s.len(),
{
    if s.len() > 0 && char_numeric(s[0]) {
        lemma_munch_numeric_chars(s.skip(1));
        lemma_munch_numeric_le(s);
        lemma_munch_numeric_le(s.skip(1));
        assert forall|k: int| 0 <= k < munch_numeric(s) implies char_numeric(#[trigger] s[k]) by {
            if k > 0 {
                assert(0 <= k - 1 < munch_numeric(s.skip(1)));
                assert(s.skip(1)[k - 1] == s[k]);
            }
        }
    }
}

/// Every token the lexer produces could have been produced from its own
/// lexeme: the lexer's output is lexable.
pub proof fn lemma_tokens_lexable(s: Seq<char>, file: Seq<char>, line: nat, col: nat)
    ensures
        forall|i: int|
            0 <= i < spec_tokens_from(s, file, line, col).len() ==> lexable(
                #[trigger] spec_tokens_from(s, file, line, col)[i],
            ),
    decreases s.len(),
{
    if s.len() == 0 {
    } else {
        let c = s[0];
        if char_alphabetic(c) {
            let k = 1 + munch_alnum(s.skip(1));
            let w = s.take(k as int);
            lemma_munch_alnum_le(s.skip(1));
            lemma_munch_alnum_chars(s.skip(1));
            assert(w[0] == c);
            assert forall|m: int| 1 <= m < w.len() implies char_alphanumeric(
                #[trigger] w[m],
            ) by {
                assert(w[m] == s.skip(1)[m - 1]);
            }
            assert(word_lexeme(w));
            lemma_tokens_lexable(s.skip(k as int), file, line, (col + k) as nat);
            let res = spec_tokens_from(s, file, line, col);
            let tail = spec_tokens_from(s.skip(k as int), file, line, (col + k) as nat);
            let head = SpecToken { kind: spec_classify_word(w), lexeme: w, file, line, col };
            assert(res == seq![head] + tail);
            assert forall|i: int| 0 <= i < res.len() implies lexable(#[trigger] res[i]) by {
                if i == 0 {
                    assert(res[i] == head);
                } else {
                    assert(res[i] == tail[i - 1]);
                }
            }
        } else if char_numeric(c) {
            let k = 1 + munch_numeric(s.skip(1));
            let w = s.take(k as int);
            lemma_munch_numeric_le(s.skip(1));
            lemma_munch_numeric_chars(s.skip(1));
            assert(w[0] == c);
            assert forall|m: int| 1 <= m < w.len() implies char_numeric(#[trigger] w[m]) by {
                assert(w[m] == s.skip(1)[m - 1]);
            }
            assert(int_lexeme(w));
            lemma_tokens_lexable(s.skip(k as int), file, line, (col + k) as nat);
            let res = spec_tokens_from(s, file, line, col);
            let tail = spec_tokens_from(s.skip(k as int), file, line, (col + k) as nat);
            let head = SpecToken { kind: TokenType::INTLIT, lexeme: w, file, line, col };
            assert(res == seq![head] + tail);
            assert forall|i: int| 0 <= i < res.len() implies lexable(#[trigger] res[i]) by {
                if i == 0 {
                    assert(res[i] == head);
                } else {
                    assert(res[i] == tail[i - 1]);
                }
            }
        } else {
            lemma_tokens_lexable(s.skip(1), file, line, (col + 1) as nat);
            let res = spec_tokens_from(s, file, line, col);
            let tail = spec_tokens_from(s.skip(1), file, line, (col + 1) as nat);
            if c == ';' || (!char_whitespace(c) && (c == '=' || c == '-' || c == '+')) {
                let head = SpecToken {
                    kind: if c == ';' {
                        TokenType::SEMICOLON
                    } else if c == '=' {
                        TokenType::EQUAL
                    } else if c == '-' {
                        TokenType::REMOVE
                    } else {
                        TokenType::ADD
                    },
                    lexeme: if c == ';' {
                        ";"@
                    } else if c == '=' {
                        "="@
                    } else if c == '-' {
                        "-"@
                    } else {
                        "+"@
                    },
                    file,
                    line,
                    col,
                };
                assert(res == seq![head] + tail);
                assert(lexable(head));
                assert forall|i: int| 0 <= i < res.len() implies lexable(#[trigger] res[i]) by {
                    if i == 0 {
                        assert(res[i] == head);
                    } else {
                        assert(res[i] == tail[i - 1]);
                    }
                }
            } else {
                assert(res == tail);
            }
        }
    }
}

/// Tokenizing one printed token consumes exactly its lexeme and the space
/// after it, reproducing its category and lexeme.
proof fn lemma_tokenize_one(t: SpecToken, rest: Seq<char>, file: Seq<char>, line: nat, col: nat)
    requires
        lexable(t),
    ensures
        spec_tokens_from(t.lexeme + seq![' '] + rest, file, line, col) == seq![
            SpecToken { kind: t.kind, lexeme: t.lexeme, file, line, col },
        ] + spec_tokens_from(rest, file, line, (col + t.lexeme.len() + 1) as nat),
{
    reveal_strlit("ret");
    reveal_strlit("exit");
    reveal_strlit("true");
    reveal_strlit("false");
    reveal_strlit("save");
    reveal_strlit(";");
    reveal_strlit("=");
    reveal_strlit("+");
    reveal_strlit("-");
    let w = t.lexeme;
    let s = w + seq![' '] + rest;
    let n = w.len() as int;
    assert(s[0] == w[0]);
    assert(s.len() == n + 1 + rest.len());
    assert(s[n] == ' ');
    let wordlike = word_lexeme(w);
    let intlike = int_lexeme(w);
    match t.kind {
        TokenType::RETURN => assert(word_lexeme(w)),
        TokenType::EXIT => assert(word_lexeme(w)),
        TokenType::VARIABLE => assert(word_lexeme(w)),
        TokenType::DATATYPE(_) => assert(word_lexeme(w)),
        TokenType::UNKNOWN => assert(word_lexeme(w)),
        TokenType::INTLIT => assert(int_lexeme(w)),
        _ => assert(w.len() == 1),
    }
    if wordlike {
        assert(char_alphabetic(s[0]));
        assert forall|k: int| 0 <= k < n - 1 implies char_alphanumeric(
            #[trigger] s.skip(1)[k],
        ) by {
            assert(s.skip(1)[k] == w[k + 1]);
        }
        assert(s.skip(1)[n - 1] == ' ');
        assert(!char_alphanumeric(' '));
        lemma_munch_alnum_exact(s.skip(1), (n - 1) as nat);
        assert(s.take(n) =~= w);
        assert(s.skip(n) =~= seq![' '] + rest);
        assert((seq![' '] + rest).skip(1) =~= rest);
        assert(spec_classify_word(w) == t.kind);
        let s2 = seq![' '] + rest;
        assert(s2[0] == ' ');
        assert(spec_tokens_from(s2, file, line, (col + n) as nat) == spec_tokens_from(
            rest,
            file,
            line,
            (col + n + 1) as nat,
        ));
        assert(spec_tokens_from(s, file, line, col) == seq![
            SpecToken { kind: t.kind, lexeme: w, file, line, col },
        ] + spec_tokens_from(rest, file, line, (col + n + 1) as nat));
    } else if intlike {
        assert(!char_alphabetic(s[0]));
        assert(char_numeric(s[0]));
        assert forall|k: int| 0 <= k < n - 1 implies char_numeric(#[trigger] s.skip(1)[k]) by {
            assert(s.skip(1)[k] == w[k + 1]);
        }
        assert(s.skip(1)[n - 1] == ' ');
        assert(!char_numeric(' '));
        lemma_munch_numeric_exact(s.skip(1), (n - 1) as nat);
        assert(s.take(n) =~= w);
        assert(s.skip(n) =~= seq![' '] + rest);
        assert((seq![' '] + rest).skip(1) =~= rest);
        let s2 = seq![' '] + rest;
        assert(s2[0] == ' ');
        assert(spec_tokens_from(s2, file, line, (col + n) as nat) == spec_tokens_from(
            rest,
            file,
            line,
            (col + n + 1) as nat,
        ));
        assert(spec_tokens_from(s, file, line, col) == seq![
            SpecToken { kind: t.kind, lexeme: w, file, line, col },
        ] + spec_tokens_from(rest, file, line, (col + n + 1) as nat));
    } else {
        assert(n == 1);
        let c = w[0];
        assert(c == ';' || c == '=' || c == '+' || c == '-');
        assert(!char_alphabetic(c));
        assert(!char_numeric(c));
        assert(!char_whitespace(c));
        assert(s.skip(1) =~= seq![' '] + rest);
        assert((seq![' '] + rest).skip(1) =~= rest);
        assert(w =~= seq![c]);
        let s2 = seq![' '] + rest;
        assert(s2[0] == ' ');
        assert(spec_tokens_from(s2, file, line, (col + 1) as nat) == spec_tokens_from(
            rest,
            file,
            line,
            (col + 2) as nat,
        ));
        assert(spec_tokens_from(s, file, line, col) == seq![
            SpecToken { kind: t.kind, lexeme: w, file, line, col },
        ] + spec_tokens_from(rest, file, line, (col + 2) as nat));
    }
}

/// Round trip: tokenizing the exact text the pretty-printer regenerates
/// from a token sequence reproduces an equivalent token sequence, category-
/// and lexeme-stable; only whitespace, never tokenized, is lost.
pub proof fn lemma_print_tokens_round_trip(
    toks: Seq<SpecToken>,
    file: Seq<char>,
    line: nat,
    col: nat,
)
    requires
        forall|i: int| 0 <= i < toks.len() ==> lexable(#[trigger] toks[i]),
    ensures
        kinds_lexemes(spec_tokens_from(spec_print_tokens(toks), file, line, col))
            == kinds_lexemes(toks),
    decreases toks.len(),
{
    if toks.len() == 0 {
        assert(kinds_lexemes(spec_tokens_from(Seq::empty(), file, line, col)) =~= kinds_lexemes(
            toks,
        ));
    } else {
        let t = toks[0];
        let rest = spec_print_tokens(toks.skip(1));
        lemma_tokenize_one(t, rest, file, line, col);
        assert forall|i: int| 0 <= i < toks.skip(1).len() implies lexable(
            #[trigger] toks.skip(1)[i],
        ) by {
            assert(toks.skip(1)[i] == toks[i + 1]);
        }
        let col2 = (col + t.lexeme.len() + 1) as nat;
        lemma_print_tokens_round_trip(toks.skip(1), file, line, col2);
        let head = SpecToken { kind: t.kind, lexeme: t.lexeme, file, line, col };
        assert(kinds_lexemes(
            seq![head] + spec_tokens_from(rest, file, line, col2),
        ) =~= seq![(t.kind, t.lexeme)] + kinds_lexemes(spec_tokens_from(rest, file, line, col2)));
        assert(kinds_lexemes(toks) =~= seq![(t.kind, t.lexeme)] + kinds_lexemes(toks.skip(1)));
    }
}

/// Tokenizes a whole source text: the compute half of reading a file, which
/// is handed the full text and a file identifier for diagnostics.
pub fn tokennize_source(content: &str, file: &String) -> (tokens: Vec<Token>)
    requires
        content@.len() + 1 < u32::MAX,
    ensures
        tokens.deep_view() == spec_tokens_source_from(content@, file@, 1),
{
    let ghost s = content@;
    let n = content.unicode_len();
    let mut tokens: Vec<Token> = Vec::new();
    let mut i: usize = 0;
    let mut line_idx: usize = 0;
    proof {
        assert(s.skip(0) =~= s);
    }
    while i < n
        invariant
            s == content@,
            n == s.len(),
            s.len() + 1 < u32::MAX,
            i <= n,
            line_idx <= i,
            spec_tokens_source_from(s, file@, 1) == tokens.deep_view()
                + spec_tokens_source_from(s.skip(i as int), file@, (line_idx + 1) as nat),
        decreases n - i,
    {
        let ghost toks_before = tokens.deep_view();
        let ghost lnum = (line_idx + 1) as nat;
        let mut j = i;
        loop
            invariant
                s == content@,
                n == s.len(),
                i <= j <= n,
                forall|k: int| i <= k < j ==> s[k] != '\n',
            ensures
                i <= j <= n,
                forall|k: int| i <= k < j ==> s[k] != '\n',
                j < n ==> s[j as int] == '\n',
            decreases n - j,
        {
            if j < n {
                let c = content.get_char(j);
                if c == '\n' {
                    break ;
                } else {
                    j += 1;
                }
            } else {
                break ;
            }
        }
        proof {
            let si = s.skip(i as int);
            assert forall|k: int| 0 <= k < j - i implies si[k] != '\n' by {
                assert(si[k] == s[i + k]);
            }
            lemma_first_nl_exact(si, (j - i) as nat);
        }
        if j < n {
            let mut end = j;
            if j > i {
                let last = content.get_char(j - 1);
                if last == '\r' {
                    end = j - 1;
                }
            }
            let line_str = content.substring_char(i, end);
            let mut toks = tokennize_line(line_str.to_owned(), line_idx, file);
            let ghost toks_dv = toks.deep_view();
            tokens.append(&mut toks);
            proof {
                let si = s.skip(i as int);
                assert(si.take(j - i) =~= s.subrange(i as int, j as int));
                assert(strip_cr(si.take(j - i)) =~= s.subrange(i as int, end as int));
                assert(si.skip(j - i + 1) =~= s.skip(j + 1));
                assert(spec_tokens_source_from(si, file@, lnum) == spec_tokens_from(
                    s.subrange(i as int, end as int),
                    file@,
                    lnum,
                    1,
                ) + spec_tokens_source_from(s.skip(j + 1), file@, (lnum + 1) as nat));
                assert(tokens.deep_view() =~= toks_before + toks_dv);
                assert(toks_before + (toks_dv + spec_tokens_source_from(
                    s.skip(j + 1),
                    file@,
                    (lnum + 1) as nat,
                )) =~= tokens.deep_view() + spec_tokens_source_from(
                    s.skip(j + 1),
                    file@,
                    (lnum + 1) as nat,
                ));
            }
            i = j + 1;
            line_idx += 1;
        } else {
            let line_str = content.substring_char(i, n);
            let mut toks = tokennize_line(line_str.to_owned(), line_idx, file);
            let ghost toks_dv = toks.deep_view();
            tokens.append(&mut toks);
            proof {
                let si = s.skip(i as int);
                assert(si =~= s.subrange(i as int, n as int));
                assert(spec_tokens_source_from(si, file@, lnum) == spec_tokens_from(
                    si,
                    file@,
                    lnum,
                    1,
                ));
                assert(tokens.deep_view() =~= toks_before + toks_dv);
                assert(s.skip(n as int) =~= Seq::<char>::empty());
                assert(tokens.deep_view() + spec_tokens_source_from(
                    s.skip(n as int),
                    file@,
                    (line_idx + 2) as nat,
                ) =~= tokens.deep_view());
            }
            i = n;
            line_idx += 1;
        }
    }
    proof {
        assert(s.skip(n as int) =~= Seq::<char>::empty());
        assert(tokens.deep_view() + spec_tokens_source_from(
            s.skip(n as int),
            file@,
            (line_idx + 1) as nat,
        ) =~= tokens.deep_view());
    }
    tokens
}

} // verus!
