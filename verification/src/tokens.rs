//! The assembly tokenizer: a character stream becomes a token stream with
//! positional metadata.

use vstd::prelude::*;
use vstd::string::{StringExecFns, StrSliceExecFns};
use crate::host::{string_push, str_chars, char_from_u32, is_char_alphanumeric,
    is_char_whitespace, is_char_numeric};
use crate::numfmt::{u64_to_dec_string, spec_dec};
use crate::host::{char_alphanumeric, char_whitespace, char_numeric};

verus! {

/// The mathematical shape of a token's kind and payload.
pub ghost enum TokKindView {
    Register(usize),
    Keyword(Seq<char>),
    Identifier(Seq<char>),
    TypeWord(Seq<char>),
    IntLit(i32),
    FloatLit(u64),
    StrLit(Seq<char>),
    BoolLit(bool),
    Comma,
}

/// The mathematical shape of a token.
#[verifier::ext_equal]
pub ghost struct TokView {
    pub kind: TokKindView,
    pub length: int,
    pub line: int,
    pub column: int,
}

impl View for Token {
    type V = TokView;

    open spec fn view(&self) -> TokView {
        TokView {
            kind: match self.token_type {
                TokenType::Register(v) => TokKindView::Register(v),
                TokenType::Keyword(ref w) => TokKindView::Keyword(w@),
                TokenType::Identifier(ref w) => TokKindView::Identifier(w@),
                TokenType::Type(ref w) => TokKindView::TypeWord(w@),
                TokenType::Int(v) => TokKindView::IntLit(v),
                TokenType::Float(v) => TokKindView::FloatLit(v),
                TokenType::String(ref w) => TokKindView::StrLit(w@),
                TokenType::Boolean(v) => TokKindView::BoolLit(v),
                TokenType::Comma => TokKindView::Comma,
            },
            length: self.length as int,
            line: self.line as int,
            column: self.column as int,
        }
    }
}

impl DeepView for Token {
    type V = TokView;

    open spec fn deep_view(&self) -> TokView {
        self.view()
    }
}

/// Why tokenization failed.
pub ghost enum TokErr {
    /// A register token names an index outside the register file.
    InvalidRegister(int),
    /// The numeric tail of a register token does not parse as a byte.
    RegisterParse(Seq<char>),
    /// A digit run does not parse as a 32-bit integer.
    IntParse,
    /// A string literal never closes.
    UnclosedString,
    /// An escape other than the supported set follows a backslash.
    UnknownEscape(char),
    /// A unicode escape lacks four hexadecimal digits.
    BadUnicodeEscape,
    /// A bare character starts no token class.
    UnrecognizedChar(char),
}

/// Where an identifier-like run started at `j` ends: at the first
/// whitespace character or the first character that is not alphanumeric,
/// an underscore or a dot.
pub open spec fn spec_ident_end(cs: Seq<char>, j: int) -> int
    decreases cs.len() - j,
{
    if j < 0 || j >= cs.len() {
        j
    } else if char_whitespace(cs[j]) {
        j
    } else if char_alphanumeric(cs[j]) || cs[j] == '_' || cs[j] == '.' {
        spec_ident_end(cs, j + 1)
    } else {
        j
    }
}

/// Where a numeric run started at `j` ends: at the first non-numeric
/// character.
pub open spec fn spec_num_end(cs: Seq<char>, j: int) -> int
    decreases cs.len() - j,
{
    if j < 0 || j >= cs.len() {
        j
    } else if char_numeric(cs[j]) {
        spec_num_end(cs, j + 1)
    } else {
        j
    }
}

/// Decimal digits accumulated left to right, refusing any non-decimal
/// character and any value beyond `max`.
pub open spec fn spec_dec_scan(s: Seq<char>, i: int, acc: int, max: int) -> Option<int>
    decreases s.len() - i,
{
    if i >= s.len() {
        Some(acc)
    } else if '0' <= s[i] && s[i] <= '9' {
        let acc2 = acc * 10 + (s[i] as u32 - 48);
        if acc2 > max {
            None
        } else {
            spec_dec_scan(s, i + 1, acc2, max)
        }
    } else {
        None
    }
}

/// A non-empty run of decimal digits as an unsigned number of at most
/// `max`.
pub open spec fn spec_parse_decimal(s: Seq<char>, from: int, max: int) -> Option<int> {
    if from >= s.len() {
        None
    } else {
        spec_dec_scan(s, from, 0, max)
    }
}

/// True when the word is one of the reserved mnemonics.
pub open spec fn spec_is_mnemonic(w: Seq<char>) -> bool {
    w == "move"@ || w == "movebetween"@ || w == "moveargument"@ || w == "moveasargument"@ || w
        == "add"@ || w == "sub"@ || w == "mul"@ || w == "div"@ || w == "rem"@ || w == "pow"@ || w
        == "or"@ || w == "xor"@ || w == "and"@ || w == "not"@ || w == "lt"@ || w == "le"@ || w
        == "gt"@ || w == "ge"@ || w == "return"@ || w == "setvariable"@ || w == "movfromvariable"@
        || w == "throwfrom"@ || w == "eq"@ || w == "ne"@ || w == "definelabel"@ || w == "jumpunc"@
        || w == "jumpc"@ || w == "call"@ || w == "definefnlabel"@ || w == "endfunction"@ || w
        == "stdoutwrite"@ || w == "stdoutwritedebugged"@ || w == "stdoutflush"@ || w
        == "stderrwrite"@ || w == "stderrwritedebugged"@ || w == "stderrflush"@ || w
        == "bufferedstdinread"@
}

/// True when the word is one of the type words.
pub open spec fn spec_is_type_word(w: Seq<char>) -> bool {
    w == "int"@ || w == "float"@ || w == "string"@ || w == "class"@ || w == "function"@ || w
        == "None"@
}

/// One escape character's meaning inside a string literal, for the simple
/// escapes.
pub open spec fn spec_simple_escape(e: char) -> Option<char> {
    if e == 'n' {
        Some('\n')
    } else if e == 'r' {
        Some('\r')
    } else if e == 't' {
        Some('\t')
    } else if e == '\\' {
        Some('\\')
    } else if e == '0' {
        Some('\0')
    } else if e == '"' {
        Some('"')
    } else {
        None
    }
}

/// The value of a hexadecimal digit character, if it is one.
pub open spec fn spec_hex_val(c: char) -> Option<int> {
    if '0' <= c && c <= '9' {
        Some(c as u32 - 48)
    } else if 'a' <= c && c <= 'f' {
        Some(c as u32 - 97 + 10)
    } else if 'A' <= c && c <= 'F' {
        Some(c as u32 - 65 + 10)
    } else {
        None
    }
}

/// True when a scalar value names a character: not a surrogate and not
/// beyond the last code point.
pub open spec fn spec_scalar_ok(v: int) -> bool {
    v < 0xD800 || (0xE000 <= v && v <= 0x10FFFF)
}

/// Scans a string literal's body from `i` (just past the opening quote):
/// the decoded text, the position after the closing quote, and the line
/// counter after any embedded newlines — or why it failed.
pub open spec fn spec_scan_string(cs: Seq<char>, i: int, line: int) -> Result<
    (Seq<char>, int, int),
    TokErr,
>
    decreases cs.len() - i,
{
    if i < 0 || i >= cs.len() {
        Err(TokErr::UnclosedString)
    } else {
        let ch = cs[i];
        if ch == '"' {
            Ok((Seq::<char>::empty(), i + 1, line))
        } else if ch == '\n' {
            match spec_scan_string(cs, i + 1, line + 1) {
                Ok(p) => Ok((seq!['\n'] + p.0, p.1, p.2)),
                Err(e) => Err(e),
            }
        } else if ch == '\r' {
            if i + 1 < cs.len() && cs[i + 1] == '\n' {
                match spec_scan_string(cs, i + 2, line + 1) {
                    Ok(p) => Ok((seq!['\r', '\n'] + p.0, p.1, p.2)),
                    Err(e) => Err(e),
                }
            } else {
                match spec_scan_string(cs, i + 1, line) {
                    Ok(p) => Ok((seq!['\r'] + p.0, p.1, p.2)),
                    Err(e) => Err(e),
                }
            }
        } else if ch == '\\' {
            if i + 1 >= cs.len() {
                Err(TokErr::UnclosedString)
            } else {
                let e = cs[i + 1];
                match spec_simple_escape(e) {
                    Some(decoded) => match spec_scan_string(cs, i + 2, line) {
                        Ok(p) => Ok((seq![decoded] + p.0, p.1, p.2)),
                        Err(e2) => Err(e2),
                    },
                    None => if e == 'u' {
                        if i + 6 > cs.len() {
                            Err(TokErr::BadUnicodeEscape)
                        } else {
                            match (
                                spec_hex_val(cs[i + 2]),
                                spec_hex_val(cs[i + 3]),
                                spec_hex_val(cs[i + 4]),
                                spec_hex_val(cs[i + 5]),
                            ) {
                                (Some(a), Some(b), Some(c2), Some(d)) => {
                                    let code = a * 4096 + b * 256 + c2 * 16 + d;
                                    if spec_scalar_ok(code) {
                                        match spec_scan_string(cs, i + 6, line) {
                                            Ok(p) => Ok(
                                                (seq![code as u32 as char] + p.0, p.1, p.2),
                                            ),
                                            Err(e2) => Err(e2),
                                        }
                                    } else {
                                        spec_scan_string(cs, i + 6, line)
                                    }
                                },
                                _ => Err(TokErr::BadUnicodeEscape),
                            }
                        }
                    } else {
                        Err(TokErr::UnknownEscape(e))
                    },
                }
            }
        } else {
            match spec_scan_string(cs, i + 1, line) {
                Ok(p) => Ok((seq![ch] + p.0, p.1, p.2)),
                Err(e) => Err(e),
            }
        }
    }
}

/// Scans a comment from `i` (just past the two dashes): the position after
/// the terminating newline or the end of input, and whether a newline was
/// reached.
pub open spec fn spec_comment_scan(cs: Seq<char>, i: int) -> (int, bool)
    decreases cs.len() - i,
{
    if i < 0 || i >= cs.len() {
        (i, false)
    } else if cs[i] == '\n' {
        (i + 1, true)
    } else {
        spec_comment_scan(cs, i + 1)
    }
}

/// The length field of a string token: the text's length plus the two
/// quotes, saturated at the machine's word.
pub open spec fn spec_str_tok_len(text_len: int) -> int {
    if text_len <= usize::MAX - 2 {
        text_len + 2
    } else {
        text_len
    }
}

/// The token stream the characters from `i` onward spell, or why they are
/// rejected. Positions and lengths reproduce the scanner's own counting.
pub open spec fn spec_tokenize(cs: Seq<char>, i: int, line: int, col: int) -> Result<
    Seq<TokView>,
    TokErr,
>
    decreases cs.len() - i,
    via spec_tokenize_dec
{
    if i < 0 {
        Err(TokErr::UnrecognizedChar(' '))
    } else if i >= cs.len() {
        Ok(Seq::<TokView>::empty())
    } else {
        let c = cs[i];
        let cv = c as u32;
        if (97 <= cv && cv <= 122) || (65 <= cv && cv <= 90) || c == '_' {
            let w_end = spec_ident_end(cs, i + 1);
            let word = cs.subrange(i, w_end);
            let wl = w_end - i;
            let col1 = col + wl;
            if spec_is_mnemonic(word) {
                match spec_tokenize(cs, w_end, line, col1) {
                    Ok(rest) => Ok(
                        seq![
                            TokView {
                                kind: TokKindView::Keyword(word),
                                length: wl,
                                line,
                                column: col1,
                            },
                        ] + rest,
                    ),
                    Err(e) => Err(e),
                }
            } else if word == "true"@ || word == "false"@ {
                match spec_tokenize(cs, w_end, line, col1) {
                    Ok(rest) => Ok(
                        seq![
                            TokView {
                                kind: TokKindView::BoolLit(word == "true"@),
                                length: wl,
                                line,
                                column: col1,
                            },
                        ] + rest,
                    ),
                    Err(e) => Err(e),
                }
            } else if spec_is_type_word(word) {
                match spec_tokenize(cs, w_end, line, col1) {
                    Ok(rest) => Ok(
                        seq![
                            TokView {
                                kind: TokKindView::TypeWord(word),
                                length: wl,
                                line,
                                column: col1,
                            },
                        ] + rest,
                    ),
                    Err(e) => Err(e),
                }
            } else if word == "plch"@ {
                spec_tokenize(cs, w_end, line, col1)
            } else if word[0] == 'r' && 2 <= wl <= 3 && char_numeric(word[wl - 1]) {
                match spec_parse_decimal(word, 1, 255) {
                    Some(v) => if v >= 16 {
                        Err(TokErr::InvalidRegister(v))
                    } else {
                        match spec_tokenize(cs, w_end, line, col1 + (wl - 1) + 1) {
                            Ok(rest) => Ok(
                                seq![
                                    TokView {
                                        kind: TokKindView::Register(v as usize),
                                        length: wl,
                                        line,
                                        column: col1,
                                    },
                                ] + rest,
                            ),
                            Err(e) => Err(e),
                        }
                    },
                    None => Err(TokErr::RegisterParse(word)),
                }
            } else {
                match spec_tokenize(cs, w_end, line, col1 + wl) {
                    Ok(rest) => Ok(
                        seq![
                            TokView {
                                kind: TokKindView::Identifier(word),
                                length: wl,
                                line,
                                column: col1,
                            },
                        ] + rest,
                    ),
                    Err(e) => Err(e),
                }
            }
        } else if c == ',' {
            match spec_tokenize(cs, i + 1, line, col + 1) {
                Ok(rest) => Ok(
                    seq![TokView { kind: TokKindView::Comma, length: 1, line, column: col }]
                        + rest,
                ),
                Err(e) => Err(e),
            }
        } else if 48 <= cv && cv <= 57 {
            let run_end = spec_num_end(cs, i + 1);
            let digits = cs.subrange(i, run_end);
            let next_i = if run_end < cs.len() {
                run_end + 1
            } else {
                run_end
            };
            match spec_parse_decimal(digits, 0, 0x7fff_ffff) {
                Some(v) => match spec_tokenize(cs, next_i, line, col + digits.len()) {
                    Ok(rest) => Ok(
                        seq![
                            TokView {
                                kind: TokKindView::IntLit(v as i32),
                                length: digits.len() as int,
                                line,
                                column: col,
                            },
                        ] + rest,
                    ),
                    Err(e) => Err(e),
                },
                None => Err(TokErr::IntParse),
            }
        } else if c == '"' {
            match spec_scan_string(cs, i + 1, line) {
                Ok(p) => match spec_tokenize(cs, p.1, p.2, col) {
                    Ok(rest) => Ok(
                        seq![
                            TokView {
                                kind: TokKindView::StrLit(p.0),
                                length: spec_str_tok_len(p.0.len() as int),
                                line: p.2,
                                column: col,
                            },
                        ] + rest,
                    ),
                    Err(e) => Err(e),
                },
                Err(e) => Err(e),
            }
        } else if c == '-' {
            if i + 1 < cs.len() && cs[i + 1] == '-' {
                let p = spec_comment_scan(cs, i + 2);
                if p.1 {
                    spec_tokenize(cs, p.0, line + 1, 0)
                } else {
                    spec_tokenize(cs, p.0, line, col)
                }
            } else {
                Err(
                    TokErr::UnrecognizedChar(
                        if i + 1 < cs.len() {
                            cs[i + 1]
                        } else {
                            '?'
                        },
                    ),
                )
            }
        } else if c == '\n' {
            spec_tokenize(cs, i + 1, line + 1, 0)
        } else if char_whitespace(c) {
            spec_tokenize(cs, i + 1, line, col)
        } else {
            Err(TokErr::UnrecognizedChar(c))
        }
    }
}

/// Identifier scanning moves forward and stays inside the input.
proof fn lemma_ident_end_ge(cs: Seq<char>, j: int)
    ensures
        spec_ident_end(cs, j) >= j,
        j <= cs.len() ==> spec_ident_end(cs, j) <= cs.len(),
    decreases cs.len() - j,
{
    if 0 <= j < cs.len() && !char_whitespace(cs[j]) && (char_alphanumeric(cs[j]) || cs[j] == '_'
        || cs[j] == '.') {
        lemma_ident_end_ge(cs, j + 1);
    }
}

/// Numeric scanning moves forward and stays inside the input.
proof fn lemma_num_end_ge(cs: Seq<char>, j: int)
    ensures
        spec_num_end(cs, j) >= j,
        j <= cs.len() ==> spec_num_end(cs, j) <= cs.len(),
    decreases cs.len() - j,
{
    if 0 <= j < cs.len() && char_numeric(cs[j]) {
        lemma_num_end_ge(cs, j + 1);
    }
}

/// String scanning moves forward past the closing quote and stays inside
/// the input.
proof fn lemma_scan_string_ge(cs: Seq<char>, i: int, line: int)
    ensures
        spec_scan_string(cs, i, line) matches Ok(p) ==> p.1 > i && p.1 <= cs.len(),
    decreases cs.len() - i,
{
    if 0 <= i < cs.len() {
        let ch = cs[i];
        if ch == '"' {
        } else if ch == '\n' {
            lemma_scan_string_ge(cs, i + 1, line + 1);
        } else if ch == '\r' {
            if i + 1 < cs.len() && cs[i + 1] == '\n' {
                lemma_scan_string_ge(cs, i + 2, line + 1);
            } else {
                lemma_scan_string_ge(cs, i + 1, line);
            }
        } else if ch == '\\' {
            if i + 1 < cs.len() {
                lemma_scan_string_ge(cs, i + 2, line);
                if i + 6 <= cs.len() {
                    lemma_scan_string_ge(cs, i + 6, line);
                }
            }
        } else {
            lemma_scan_string_ge(cs, i + 1, line);
        }
    }
}

/// Comment scanning moves forward and stays inside the input.
proof fn lemma_comment_scan_ge(cs: Seq<char>, i: int)
    ensures
        spec_comment_scan(cs, i).0 >= i,
        i <= cs.len() ==> spec_comment_scan(cs, i).0 <= cs.len(),
    decreases cs.len() - i,
{
    if 0 <= i < cs.len() && cs[i] != '\n' {
        lemma_comment_scan_ge(cs, i + 1);
    }
}

#[via_fn]
proof fn spec_tokenize_dec(cs: Seq<char>, i: int, line: int, col: int) {
    if 0 <= i < cs.len() {
        lemma_ident_end_ge(cs, i + 1);
        lemma_num_end_ge(cs, i + 1);
        lemma_scan_string_ge(cs, i + 1, line);
        lemma_comment_scan_ge(cs, i + 2);
    }
}

/// One token's kind and literal payload. A float literal carries the
/// IEEE-754 bit pattern of its value.
#[derive(Debug)]
pub enum TokenType {
    Register(usize),
    Keyword(String),
    Identifier(String),
    Type(String),
    Int(i32),
    Float(u64),
    String(String),
    Boolean(bool),
    Comma,
}

/// One token with its length and position.
#[derive(Debug)]
pub struct Token {
    pub token_type: TokenType,
    pub length: usize,
    pub line: usize,
    pub column: usize,
}

/// Positions never move backwards: a later token is on a later line, or on
/// the same line at the same or a later column.
pub open spec fn token_pos_le(a: Token, b: Token) -> bool {
    a.line < b.line || (a.line == b.line && a.column <= b.column)
}

/// Every register token the scanner emits indexes into the register file.
pub open spec fn registers_in_range(ts: Seq<Token>) -> bool {
    forall|i: int|
        0 <= i < ts.len() ==> ((#[trigger] ts[i]).token_type matches TokenType::Register(k) ==> k
            < 16)
}

/// Positions are monotone across the whole stream.
pub open spec fn positions_monotone(ts: Seq<Token>) -> bool {
    forall|i: int, j: int| 0 <= i <= j < ts.len() ==> token_pos_le(#[trigger] ts[i], #[trigger] ts[j])
}

/// The string a character vector spells.
pub fn chars_to_string(cs: &Vec<char>) -> (r: String)
    ensures
        r@ == cs@,
{
    let mut s = String::new();
    let n = cs.len();
    let mut i: usize = 0;
    while i < n
        invariant
            n == cs@.len(),
            0 <= i <= n,
            s@ =~= cs@.take(i as int),
        decreases n - i,
    {
        string_push(&mut s, cs[i]);
        proof {
            assert(s@ =~= cs@.take(i + 1));
        }
        i += 1;
    }
    proof {
        assert(cs@.take(n as int) =~= cs@);
    }
    s
}

/// The numeric value of a decimal digit character, or none.
fn digit_value(c: char) -> (r: Option<u32>)
    ensures
        r is Some <==> ('0' <= c && c <= '9'),
        r matches Some(d) ==> d == c as u32 - 48 && d < 10,
{
    let v = c as u32;
    if 48 <= v && v <= 57 {
        Some(v - 48)
    } else {
        None
    }
}

/// The numeric value of a hexadecimal digit character, or none.
fn hex_digit_value(c: char) -> (r: Option<u32>)
    ensures
        r is Some <==> spec_hex_val(c) is Some,
        r matches Some(d) ==> d < 16 && spec_hex_val(c) == Some(d as int),
{
    let v = c as u32;
    if 48 <= v && v <= 57 {
        Some(v - 48)
    } else if 97 <= v && v <= 102 {
        Some(v - 97 + 10)
    } else if 65 <= v && v <= 70 {
        Some(v - 65 + 10)
    } else {
        None
    }
}

/// Parses a run of characters as an unsigned number no larger than `max`;
/// any non-decimal-digit character or an overflow yields nothing.
fn parse_decimal(cs: &Vec<char>, from: usize, max: u64) -> (r: Option<u64>)
    requires
        from <= cs@.len(),
        max <= 0xffff_ffff,
    ensures
        match r {
            Some(v) => v <= max && spec_parse_decimal(cs@, from as int, max as int) == Some(
                v as int,
            ),
            None => spec_parse_decimal(cs@, from as int, max as int) is None,
        },
{
    if from == cs.len() {
        return None;
    }
    let mut acc: u64 = 0;
    let mut i: usize = from;
    while i < cs.len()
        invariant
            from <= i <= cs@.len(),
            from < cs@.len(),
            acc <= max,
            max <= 0xffff_ffff,
            spec_dec_scan(cs@, from as int, 0, max as int) == spec_dec_scan(
                cs@,
                i as int,
                acc as int,
                max as int,
            ),
        decreases cs@.len() - i,
    {
        let d = match digit_value(cs[i]) {
            Some(d) => d,
            None => {
                return None;
            },
        };
        acc = acc * 10 + (d as u64);
        if acc > max {
            return None;
        }
        i += 1;
    }
    Some(acc)
}

/// True when the identifier is one of the reserved mnemonics.
fn is_mnemonic(s: &String) -> (r: bool)
    ensures
        r == spec_is_mnemonic(s@),
{
    *s == String::from_str("move") || *s == String::from_str("movebetween") || *s
        == String::from_str("moveargument") || *s == String::from_str("moveasargument") || *s
        == String::from_str("add") || *s == String::from_str("sub") || *s == String::from_str(
        "mul",
    ) || *s == String::from_str("div") || *s == String::from_str("rem") || *s == String::from_str(
        "pow",
    ) || *s == String::from_str("or") || *s == String::from_str("xor") || *s == String::from_str(
        "and",
    ) || *s == String::from_str("not") || *s == String::from_str("lt") || *s == String::from_str(
        "le",
    ) || *s == String::from_str("gt") || *s == String::from_str("ge") || *s == String::from_str(
        "return",
    ) || *s == String::from_str("setvariable") || *s == String::from_str("movfromvariable") || *s
        == String::from_str("throwfrom") || *s == String::from_str("eq") || *s == String::from_str(
        "ne",
    ) || *s == String::from_str("definelabel") || *s == String::from_str("jumpunc") || *s
        == String::from_str("jumpc") || *s == String::from_str("call") || *s == String::from_str(
        "definefnlabel",
    ) || *s == String::from_str("endfunction") || *s == String::from_str("stdoutwrite") || *s
        == String::from_str("stdoutwritedebugged") || *s == String::from_str("stdoutflush") || *s
        == String::from_str("stderrwrite") || *s == String::from_str("stderrwritedebugged") || *s
        == String::from_str("stderrflush") || *s == String::from_str("bufferedstdinread")
}

/// True when the identifier is one of the type words.
fn is_type_word(s: &String) -> (r: bool)
    ensures
        r == spec_is_type_word(s@),
{
    *s == String::from_str("int") || *s == String::from_str("float") || *s == String::from_str(
        "string",
    ) || *s == String::from_str("class") || *s == String::from_str("function") || *s
        == String::from_str("None")
}

fn position_message(line: usize, column: usize, tail: &str) -> (r: String)
{
    let mut m = u64_to_dec_string(line as u64);
    m.append(":");
    m.append(u64_to_dec_string(column as u64).as_str());
    m.append(tail);
    m
}

/// Tokenizes an assembly source text: the result is exactly the token
/// stream `spec_tokenize` spells for the characters, so equal inputs give
/// equal streams; ill-formed input is rejected exactly when the spec
/// rejects it. The filename only decorates diagnostics. On success, every
/// register token indexes into the register file, and token positions are
/// monotone: lines never decrease, and the column never decreases within
/// a line.
#[verifier::rlimit(100)]
pub fn tokenize(input: &str, filename: &str) -> (r: Result<Vec<Token>, String>)
    requires
        input@.len() <= 0x1000_0000,
    ensures
        match r {
            Ok(ts) => spec_tokenize(input@, 0, 1, 0) == Ok::<Seq<TokView>, TokErr>(ts.deep_view())
                && registers_in_range(ts@) && positions_monotone(ts@),
            Err(m) => spec_tokenize(input@, 0, 1, 0) is Err && (
            match spec_tokenize(input@, 0, 1, 0) {
                Ok(_) => false,
                Err(e) => e matches TokErr::InvalidRegister(v) ==> m@ == "Invalid register index "@
                    + spec_dec(v as nat),
            }),
        },
{
    let cs = str_chars(input);
    let ghost csv = cs@;
    let mut tokens: Vec<Token> = Vec::new();
    let mut line: usize = 1;
    let mut column: usize = 0;
    let mut i: usize = 0;
    let n = cs.len();
    proof {
        match spec_tokenize(csv, 0, 1, 0) {
            Ok(rest) => {
                assert(tokens.deep_view() + rest =~= rest);
            },
            Err(_) => {},
        }
    }
    while i < n
        invariant
            n == cs@.len(),
            csv == cs@,
            csv == input@,
            n <= 0x1000_0000,
            0 <= i <= n,
            1 <= line <= i + 1,
            column <= 2 * i + 2,
            registers_in_range(tokens@),
            positions_monotone(tokens@),
            forall|t: int|
                0 <= t < tokens@.len() ==> ((#[trigger] tokens@[t]).line < line || (
                tokens@[t].line == line && tokens@[t].column <= column)),
            spec_tokenize(csv, 0, 1, 0) == (match spec_tokenize(
                csv,
                i as int,
                line as int,
                column as int,
            ) {
                Ok(rest) => Ok::<Seq<TokView>, TokErr>(tokens.deep_view() + rest),
                Err(e) => Err::<Seq<TokView>, TokErr>(e),
            }),
        decreases n - i,
    {
        let ghost i0 = i as int;
        let ghost l0 = line as int;
        let ghost c0 = column as int;
        let ghost dv0 = tokens.deep_view();
        let c = cs[i];
        let cv = c as u32;
        if (97 <= cv && cv <= 122) || (65 <= cv && cv <= 90) || c == '_' {
            // An identifier-like run: letters, digits, underscores and dots.
            let start = i;
            let mut ident: Vec<char> = Vec::new();
            ident.push(c);
            i += 1;
            proof {
                assert(ident@ =~= csv.subrange(start as int, i as int));
            }
            while i < n
                invariant
                    n == cs@.len(),
                    csv == cs@,
                    start < i <= n,
                    ident@.len() == i - start,
                    ident@ =~= csv.subrange(start as int, i as int),
                    spec_ident_end(csv, start as int + 1) == spec_ident_end(csv, i as int),
                ensures
                    start < i <= n,
                    ident@ =~= csv.subrange(start as int, i as int),
                    spec_ident_end(csv, start as int + 1) == i as int,
                decreases n - i,
            {
                let cc = cs[i];
                if is_char_whitespace(cc) {
                    break;
                }
                if is_char_alphanumeric(cc) || cc == '_' || cc == '.' {
                    ident.push(cc);
                    i += 1;
                    proof {
                        assert(ident@ =~= csv.subrange(start as int, i as int));
                    }
                } else {
                    break;
                }
            }
            let ident_len = ident.len();
            let word = chars_to_string(&ident);
            let ghost wv = csv.subrange(start as int, i as int);
            proof {
                assert(word@ == wv);
            }
            column = column + ident_len;
            if is_mnemonic(&word) {
                let tok = Token { token_type: TokenType::Keyword(word), length: ident_len, line, column };
                proof {
                    assert(tok@ =~= (TokView {
                        kind: TokKindView::Keyword(wv),
                        length: ident_len as int,
                        line: l0,
                        column: column as int,
                    }));
                    assert(spec_tokenize(csv, i0, l0, c0) == (match spec_tokenize(
                        csv,
                        i as int,
                        line as int,
                        (column) as int,
                    ) {
                        Ok(rest) => Ok::<Seq<TokView>, TokErr>(seq![tok@] + rest),
                        Err(e) => Err::<Seq<TokView>, TokErr>(e),
                    }));
                }
                tokens.push(tok);
                proof {
                    assert(tokens.deep_view() =~= dv0.push(tok@));
                    match spec_tokenize(csv, i as int, line as int, column as int) {
                        Ok(rest) => {
                            assert(dv0 + (seq![tok@] + rest) =~= tokens.deep_view() + rest);
                        },
                        Err(_) => {},
                    }
                }
            } else if word == String::from_str("true") || word == String::from_str("false") {
                let b = word == String::from_str("true");
                let tok = Token { token_type: TokenType::Boolean(b), length: ident_len, line, column };
                proof {
                    assert(tok@ =~= (TokView {
                        kind: TokKindView::BoolLit(wv == "true"@),
                        length: ident_len as int,
                        line: l0,
                        column: column as int,
                    }));
                    assert(spec_tokenize(csv, i0, l0, c0) == (match spec_tokenize(
                        csv,
                        i as int,
                        line as int,
                        (column) as int,
                    ) {
                        Ok(rest) => Ok::<Seq<TokView>, TokErr>(seq![tok@] + rest),
                        Err(e) => Err::<Seq<TokView>, TokErr>(e),
                    }));
                }
                tokens.push(tok);
                proof {
                    assert(tokens.deep_view() =~= dv0.push(tok@));
                    match spec_tokenize(csv, i as int, line as int, column as int) {
                        Ok(rest) => {
                            assert(dv0 + (seq![tok@] + rest) =~= tokens.deep_view() + rest);
                        },
                        Err(_) => {},
                    }
                }
            } else if is_type_word(&word) {
                let tok = Token { token_type: TokenType::Type(word), length: ident_len, line, column };
                proof {
                    assert(tok@ =~= (TokView {
                        kind: TokKindView::TypeWord(wv),
                        length: ident_len as int,
                        line: l0,
                        column: column as int,
                    }));
                    assert(spec_tokenize(csv, i0, l0, c0) == (match spec_tokenize(
                        csv,
                        i as int,
                        line as int,
                        (column) as int,
                    ) {
                        Ok(rest) => Ok::<Seq<TokView>, TokErr>(seq![tok@] + rest),
                        Err(e) => Err::<Seq<TokView>, TokErr>(e),
                    }));
                }
                tokens.push(tok);
                proof {
                    assert(tokens.deep_view() =~= dv0.push(tok@));
                    match spec_tokenize(csv, i as int, line as int, column as int) {
                        Ok(rest) => {
                            assert(dv0 + (seq![tok@] + rest) =~= tokens.deep_view() + rest);
                        },
                        Err(_) => {},
                    }
                }
            } else if word == String::from_str("plch") {
                // A placeholder meta-token produces nothing.
                proof {
                    assert(spec_tokenize(csv, i0, l0, c0) == spec_tokenize(
                        csv,
                        i as int,
                        line as int,
                        column as int,
                    ));
                }
            } else if ident[0] == 'r' && ident_len >= 2 && ident_len <= 3 && is_char_numeric(
                ident[ident_len - 1],
            ) {
                match parse_decimal(&ident, 1, 255) {
                    Some(regv) => {
                        if regv >= 16 {
                            let mut m = String::from_str("Invalid register index ");
                            m.append(u64_to_dec_string(regv).as_str());
                            proof {
                                assert(spec_tokenize(csv, i0, l0, c0) == Err::<
                                    Seq<TokView>,
                                    TokErr,
                                >(TokErr::InvalidRegister(regv as int)));
                                assert(m@ == "Invalid register index "@ + spec_dec(regv as nat));
                            }
                            return Err(m);
                        }
                        let tok = Token { token_type: TokenType::Register(regv as usize), length: ident_len, line, column };
                        let new_col = column + (ident_len - 1) + 1;
                        proof {
                            assert(tok@ =~= (TokView {
                                kind: TokKindView::Register(regv as usize),
                                length: ident_len as int,
                                line: l0,
                                column: column as int,
                            }));
                            assert(spec_tokenize(csv, i0, l0, c0) == (match spec_tokenize(
                        csv,
                        i as int,
                        line as int,
                        (new_col) as int,
                    ) {
                        Ok(rest) => Ok::<Seq<TokView>, TokErr>(seq![tok@] + rest),
                        Err(e) => Err::<Seq<TokView>, TokErr>(e),
                    }));
                        }
                        tokens.push(tok);
                        column = new_col;
                        proof {
                    assert(tokens.deep_view() =~= dv0.push(tok@));
                    match spec_tokenize(csv, i as int, line as int, column as int) {
                        Ok(rest) => {
                            assert(dv0 + (seq![tok@] + rest) =~= tokens.deep_view() + rest);
                        },
                        Err(_) => {},
                    }
                }
                    },
                    None => {
                        proof {
                            assert(spec_tokenize(csv, i0, l0, c0) == Err::<Seq<TokView>, TokErr>(
                                TokErr::RegisterParse(wv),
                            ));
                        }
                        let mut m = String::from_str("Unable to parse register value ");
                        m.append(word.as_str());
                        return Err(m);
                    },
                }
            } else {
                let tok = Token { token_type: TokenType::Identifier(word), length: ident_len, line, column };
                let new_col = column + ident_len;
                proof {
                    assert(tok@ =~= (TokView {
                        kind: TokKindView::Identifier(wv),
                        length: ident_len as int,
                        line: l0,
                        column: column as int,
                    }));
                    assert(spec_tokenize(csv, i0, l0, c0) == (match spec_tokenize(
                        csv,
                        i as int,
                        line as int,
                        (new_col) as int,
                    ) {
                        Ok(rest) => Ok::<Seq<TokView>, TokErr>(seq![tok@] + rest),
                        Err(e) => Err::<Seq<TokView>, TokErr>(e),
                    }));
                }
                tokens.push(tok);
                column = new_col;
                proof {
                    assert(tokens.deep_view() =~= dv0.push(tok@));
                    match spec_tokenize(csv, i as int, line as int, column as int) {
                        Ok(rest) => {
                            assert(dv0 + (seq![tok@] + rest) =~= tokens.deep_view() + rest);
                        },
                        Err(_) => {},
                    }
                }
            }
        } else if c == ',' {
            let tok = Token { token_type: TokenType::Comma, length: 1, line, column };
            i += 1;
            let new_col = column + 1;
            proof {
                assert(tok@ =~= (TokView {
                    kind: TokKindView::Comma,
                    length: 1int,
                    line: l0,
                    column: c0,
                }));
                assert(spec_tokenize(csv, i0, l0, c0) == (match spec_tokenize(
                    csv,
                    i as int,
                    line as int,
                    (new_col) as int,
                ) {
                    Ok(rest) => Ok::<Seq<TokView>, TokErr>(seq![tok@] + rest),
                    Err(e) => Err::<Seq<TokView>, TokErr>(e),
                }));
            }
            tokens.push(tok);
            column = new_col;
            proof {
                assert(tokens.deep_view() =~= dv0.push(tok@));
                match spec_tokenize(csv, i as int, line as int, column as int) {
                    Ok(rest) => {
                        assert(dv0 + (seq![tok@] + rest) =~= tokens.deep_view() + rest);
                    },
                    Err(_) => {},
                }
            }
        } else if 48 <= cv && cv <= 57 {
            // A digit run parses as an integer literal; the terminating
            // character is consumed with the run.
            let start = i;
            let mut digits: Vec<char> = Vec::new();
            digits.push(c);
            let mut j = i + 1;
            proof {
                assert(digits@ =~= csv.subrange(start as int, j as int));
            }
            while j < n
                invariant
                    n == cs@.len(),
                    csv == cs@,
                    start < j <= n,
                    digits@ =~= csv.subrange(start as int, j as int),
                    spec_num_end(csv, start as int + 1) == spec_num_end(csv, j as int),
                ensures
                    start < j <= n,
                    digits@ =~= csv.subrange(start as int, j as int),
                    spec_num_end(csv, start as int + 1) == j as int,
                decreases n - j,
            {
                let cc = cs[j];
                if is_char_numeric(cc) {
                    digits.push(cc);
                    j += 1;
                    proof {
                        assert(digits@ =~= csv.subrange(start as int, j as int));
                    }
                } else {
                    break;
                }
            }
            i = if j < n {
                j + 1
            } else {
                j
            };
            match parse_decimal(&digits, 0, 0x7fff_ffff) {
                Some(v) => {
                    let num_len = digits.len();
                    let tok = Token { token_type: TokenType::Int(v as i32), length: num_len, line, column };
                    let new_col = column + num_len;
                    proof {
                        assert(v as i32 as int == v as int);
                        assert(tok@ =~= (TokView {
                            kind: TokKindView::IntLit(v as i32),
                            length: num_len as int,
                            line: l0,
                            column: c0,
                        }));
                        assert(spec_tokenize(csv, i0, l0, c0) == (match spec_tokenize(
                    csv,
                    i as int,
                    line as int,
                    (new_col) as int,
                    ) {
                    Ok(rest) => Ok::<Seq<TokView>, TokErr>(seq![tok@] + rest),
                    Err(e) => Err::<Seq<TokView>, TokErr>(e),
                    }));
                    }
                    tokens.push(tok);
                    column = new_col;
                    proof {
                    assert(tokens.deep_view() =~= dv0.push(tok@));
                    match spec_tokenize(csv, i as int, line as int, column as int) {
                        Ok(rest) => {
                            assert(dv0 + (seq![tok@] + rest) =~= tokens.deep_view() + rest);
                        },
                        Err(_) => {},
                    }
                }
                },
                None => {
                    proof {
                        assert(spec_tokenize(csv, i0, l0, c0) == Err::<Seq<TokView>, TokErr>(
                            TokErr::IntParse,
                        ));
                    }
                    let mut m = String::from_str(filename);
                    m.append(":");
                    m.append(position_message(line, column, ": Error parsing int number").as_str());
                    return Err(m);
                },
            }
        } else if c == '"' {
            // A string literal with escapes; embedded newlines advance the
            // line counter.
            let sstart = i;
            i += 1;
            let ghost s0 = i as int;
            let mut text = String::new();
            let mut closed = false;
            proof {
                match spec_scan_string(csv, s0, l0) {
                    Ok(p) => {
                        assert(text@ + p.0 =~= p.0);
                    },
                    Err(_) => {},
                }
            }
            while i < n
                invariant_except_break
                    !closed,
                    spec_scan_string(csv, s0, l0) == (match spec_scan_string(
                        csv,
                        i as int,
                        line as int,
                    ) {
                        Ok(p) => Ok::<(Seq<char>, int, int), TokErr>((text@ + p.0, p.1, p.2)),
                        Err(e) => Err::<(Seq<char>, int, int), TokErr>(e),
                    }),
                invariant
                    n == cs@.len(),
                    csv == cs@,
                    csv == input@,
                    n <= 0x1000_0000,
                    sstart < i <= n,
                    1 <= line <= i + 1,
                    0 <= i0 < csv.len(),
                    csv[i0] == '"',
                    s0 == i0 + 1,
                    spec_tokenize(csv, 0, 1, 0) == (match spec_tokenize(csv, i0, l0, c0) {
                        Ok(rest) => Ok::<Seq<TokView>, TokErr>(dv0 + rest),
                        Err(e) => Err::<Seq<TokView>, TokErr>(e),
                    }),
                    forall|t: int|
                        0 <= t < tokens@.len() ==> ((#[trigger] tokens@[t]).line < line || (
                        tokens@[t].line == line && tokens@[t].column <= column)),
                ensures
                    closed ==> spec_scan_string(csv, s0, l0) == Ok::<(Seq<char>, int, int), TokErr>(
                        (text@, i as int, line as int),
                    ),
                    !closed ==> spec_scan_string(csv, s0, l0) == Err::<
                        (Seq<char>, int, int),
                        TokErr,
                    >(TokErr::UnclosedString),
                    sstart < i <= n,
                    1 <= line <= i + 1,
                    forall|t: int|
                        0 <= t < tokens@.len() ==> ((#[trigger] tokens@[t]).line < line || (
                        tokens@[t].line == line && tokens@[t].column <= column)),
                decreases n - i,
            {
                let ghost ti = i as int;
                let ghost tl = line as int;
                let ghost tv0 = text@;
                let ch = cs[i];
                i += 1;
                if ch == '"' {
                    closed = true;
                    proof {
                        assert(tv0 + Seq::<char>::empty() =~= tv0);
                    }
                    break;
                } else if ch == '\n' {
                    line = line + 1;
                    string_push(&mut text, '\n');
                    proof {
                        lemma_text_step(csv, s0, l0, tv0, '\n', ti, tl, i as int, line as int);
                        assert(text@ =~= tv0.push('\n'));
                    }
                } else if ch == '\r' {
                    if i < n && cs[i] == '\n' {
                        line = line + 1;
                        text.append("\r\n");
                        i += 1;
                        proof {
                            reveal_strlit("\r\n");
                            assert("\r\n"@ =~= seq!['\r', '\n']);
                            match spec_scan_string(csv, i as int, line as int) {
                                Ok(p) => {
                                    assert(tv0 + (seq!['\r', '\n'] + p.0) =~= (tv0 + "\r\n"@)
                                        + p.0);
                                },
                                Err(_) => {},
                            }
                            assert(text@ =~= tv0 + "\r\n"@);
                        }
                    } else {
                        string_push(&mut text, '\r');
                        proof {
                            lemma_text_step(csv, s0, l0, tv0, '\r', ti, tl, i as int, line as int);
                            assert(text@ =~= tv0.push('\r'));
                        }
                    }
                } else if ch == '\\' {
                    if i >= n {
                        proof {
                            assert(spec_scan_string(csv, ti, tl) == Err::<
                                (Seq<char>, int, int),
                                TokErr,
                            >(TokErr::UnclosedString));
                            assert(spec_tokenize(csv, i0, l0, c0) == Err::<Seq<TokView>, TokErr>(
                                TokErr::UnclosedString,
                            ));
                        }
                        return Err(position_message(line, column, ": Unclosed string literal"));
                    }
                    let e = cs[i];
                    i += 1;
                    if e == 'n' {
                        string_push(&mut text, '\n');
                        proof {
                            lemma_escape_step(csv, s0, l0, tv0, '\n', ti, tl, i as int);
                            assert(text@ =~= tv0.push('\n'));
                        }
                    } else if e == 'r' {
                        string_push(&mut text, '\r');
                        proof {
                            lemma_escape_step(csv, s0, l0, tv0, '\r', ti, tl, i as int);
                            assert(text@ =~= tv0.push('\r'));
                        }
                    } else if e == 't' {
                        string_push(&mut text, '\t');
                        proof {
                            lemma_escape_step(csv, s0, l0, tv0, '\t', ti, tl, i as int);
                            assert(text@ =~= tv0.push('\t'));
                        }
                    } else if e == '\\' {
                        string_push(&mut text, '\\');
                        proof {
                            lemma_escape_step(csv, s0, l0, tv0, '\\', ti, tl, i as int);
                            assert(text@ =~= tv0.push('\\'));
                        }
                    } else if e == '0' {
                        string_push(&mut text, '\0');
                        proof {
                            lemma_escape_step(csv, s0, l0, tv0, '\0', ti, tl, i as int);
                            assert(text@ =~= tv0.push('\0'));
                        }
                    } else if e == '"' {
                        string_push(&mut text, '"');
                        proof {
                            lemma_escape_step(csv, s0, l0, tv0, '"', ti, tl, i as int);
                            assert(text@ =~= tv0.push('"'));
                        }
                    } else if e == 'u' {
                        if i + 4 > n {
                            proof {
                                assert(spec_scan_string(csv, ti, tl) == Err::<
                                    (Seq<char>, int, int),
                                    TokErr,
                                >(TokErr::BadUnicodeEscape));
                                assert(spec_tokenize(csv, i0, l0, c0) == Err::<
                                    Seq<TokView>,
                                    TokErr,
                                >(TokErr::BadUnicodeEscape));
                            }
                            let m = position_message(
                                line,
                                column,
                                ": A unicode escape sequence must have 4 hexadecimal digits",
                            );
                            return Err(m);
                        }
                        let h1 = hex_digit_value(cs[i]);
                        let h2 = hex_digit_value(cs[i + 1]);
                        let h3 = hex_digit_value(cs[i + 2]);
                        let h4 = hex_digit_value(cs[i + 3]);
                        i += 4;
                        match (h1, h2, h3, h4) {
                            (Some(a), Some(b2), Some(c2), Some(d2)) => {
                                let code: u32 = a * 4096 + b2 * 256 + c2 * 16 + d2;
                                match char_from_u32(code) {
                                    Some(decoded) => {
                                        proof {
                                            vstd::utf8::char_u32_cast(decoded, code);
                                        }
                                        string_push(&mut text, decoded);
                                        proof {
                                            match spec_scan_string(csv, i as int, line as int) {
                                                Ok(p) => {
                                                    assert(tv0 + (seq![decoded] + p.0) =~= tv0.push(
                                                        decoded,
                                                    ) + p.0);
                                                },
                                                Err(_) => {},
                                            }
                                            assert(text@ =~= tv0.push(decoded));
                                        }
                                    },
                                    None => {
                                        // An unassignable scalar is skipped.
                                    },
                                }
                            },
                            _ => {
                                proof {
                                    assert(spec_scan_string(csv, ti, tl) == Err::<
                                        (Seq<char>, int, int),
                                        TokErr,
                                    >(TokErr::BadUnicodeEscape));
                                    assert(spec_tokenize(csv, i0, l0, c0) == Err::<
                                        Seq<TokView>,
                                        TokErr,
                                    >(TokErr::BadUnicodeEscape));
                                }
                                let m = position_message(
                                    line,
                                    column,
                                    ": Error during unicode escape sequence parsing",
                                );
                                return Err(m);
                            },
                        }
                    } else {
                        proof {
                            assert(spec_scan_string(csv, ti, tl) == Err::<
                                (Seq<char>, int, int),
                                TokErr,
                            >(TokErr::UnknownEscape(e)));
                            assert(spec_tokenize(csv, i0, l0, c0) == Err::<Seq<TokView>, TokErr>(
                                TokErr::UnknownEscape(e),
                            ));
                        }
                        let mut m = position_message(line, column, ": Unknown escape sequence '\\");
                        string_push(&mut m, e);
                        m.append("'");
                        return Err(m);
                    }
                } else {
                    string_push(&mut text, ch);
                    proof {
                        lemma_text_step(csv, s0, l0, tv0, ch, ti, tl, i as int, line as int);
                        assert(text@ =~= tv0.push(ch));
                    }
                }
            }
            if !closed {
                proof {
                    assert(spec_tokenize(csv, i0, l0, c0) == Err::<Seq<TokView>, TokErr>(
                        TokErr::UnclosedString,
                    ));
                }
                return Err(position_message(line, column, ": Unclosed string literal"));
            }
            let ghost tvfin = text@;
            let char_count = text.as_str().unicode_len();
            let tok_len = if char_count <= usize::MAX - 2 {
                char_count + 2
            } else {
                char_count
            };
            let tok = Token { token_type: TokenType::String(text), length: tok_len, line, column };
            proof {
                assert(tok@ =~= (TokView {
                    kind: TokKindView::StrLit(tvfin),
                    length: spec_str_tok_len(tvfin.len() as int),
                    line: line as int,
                    column: c0,
                }));
                assert(spec_tokenize(csv, i0, l0, c0) == (match spec_tokenize(
                    csv,
                    i as int,
                    line as int,
                    (column) as int,
                ) {
                    Ok(rest) => Ok::<Seq<TokView>, TokErr>(seq![tok@] + rest),
                    Err(e) => Err::<Seq<TokView>, TokErr>(e),
                }));
            }
            tokens.push(tok);
            proof {
                assert(tokens.deep_view() =~= dv0.push(tok@));
                match spec_tokenize(csv, i as int, line as int, column as int) {
                    Ok(rest) => {
                        assert(dv0 + (seq![tok@] + rest) =~= tokens.deep_view() + rest);
                    },
                    Err(_) => {},
                }
            }
        } else if c == '-' {
            if i + 1 < n && cs[i + 1] == '-' {
                // A comment runs to the end of the line.
                let mstart = i;
                i += 2;
                let mut hit_newline = false;
                while i < n
                    invariant_except_break
                        !hit_newline,
                        spec_comment_scan(csv, mstart as int + 2) == spec_comment_scan(
                            csv,
                            i as int,
                        ),
                    invariant
                        n == cs@.len(),
                        csv == cs@,
                        n <= 0x1000_0000,
                        mstart + 2 <= i <= n,
                    ensures
                        mstart + 2 <= i <= n,
                        spec_comment_scan(csv, mstart as int + 2) == (i as int, hit_newline),
                    decreases n - i,
                {
                    let cc = cs[i];
                    i += 1;
                    if cc == '\n' {
                        hit_newline = true;
                        break;
                    }
                }
                if hit_newline {
                    line = line + 1;
                    column = 0;
                }
                proof {
                    assert(spec_tokenize(csv, i0, l0, c0) == spec_tokenize(
                        csv,
                        i as int,
                        line as int,
                        column as int,
                    ));
                }
            } else {
                proof {
                    assert(spec_tokenize(csv, i0, l0, c0) == Err::<Seq<TokView>, TokErr>(
                        TokErr::UnrecognizedChar(
                            if i0 + 1 < csv.len() {
                                csv[i0 + 1]
                            } else {
                                '?'
                            },
                        ),
                    ));
                }
                let mut m = String::from_str(filename);
                m.append(":");
                let pm = position_message(line, column, ": Unrecognized token '-");
                m.append(pm.as_str());
                if i + 1 < n {
                    string_push(&mut m, cs[i + 1]);
                } else {
                    string_push(&mut m, '?');
                }
                m.append("'");
                return Err(m);
            }
        } else if c == '\n' {
            column = 0;
            line = line + 1;
            i += 1;
            proof {
                assert(spec_tokenize(csv, i0, l0, c0) == spec_tokenize(
                    csv,
                    i as int,
                    line as int,
                    column as int,
                ));
            }
        } else if is_char_whitespace(c) {
            i += 1;
            proof {
                assert(spec_tokenize(csv, i0, l0, c0) == spec_tokenize(
                    csv,
                    i as int,
                    line as int,
                    column as int,
                ));
            }
        } else {
            proof {
                assert(spec_tokenize(csv, i0, l0, c0) == Err::<Seq<TokView>, TokErr>(
                    TokErr::UnrecognizedChar(c),
                ));
            }
            let mut m = String::from_str(filename);
            m.append(":");
            let pm = position_message(line, column, ": Unrecognized token '");
            m.append(pm.as_str());
            string_push(&mut m, c);
            m.append("'");
            return Err(m);
        }
    }
    proof {
        assert(spec_tokenize(csv, i as int, line as int, column as int) == Ok::<
            Seq<TokView>,
            TokErr,
        >(Seq::<TokView>::empty()));
        assert(tokens.deep_view() + Seq::<TokView>::empty() =~= tokens.deep_view());
    }
    Ok(tokens)
}

/// One decoded character extends the composed literal text.
proof fn lemma_text_step(
    csv: Seq<char>,
    s0: int,
    l0: int,
    tv0: Seq<char>,
    ch: char,
    ti: int,
    tl: int,
    ni: int,
    nl: int,
)
    requires
        spec_scan_string(csv, s0, l0) == (match spec_scan_string(csv, ti, tl) {
            Ok(p) => Ok::<(Seq<char>, int, int), TokErr>((tv0 + p.0, p.1, p.2)),
            Err(e) => Err::<(Seq<char>, int, int), TokErr>(e),
        }),
        spec_scan_string(csv, ti, tl) == (match spec_scan_string(csv, ni, nl) {
            Ok(p) => Ok::<(Seq<char>, int, int), TokErr>((seq![ch] + p.0, p.1, p.2)),
            Err(e) => Err::<(Seq<char>, int, int), TokErr>(e),
        }),
    ensures
        spec_scan_string(csv, s0, l0) == (match spec_scan_string(csv, ni, nl) {
            Ok(p) => Ok::<(Seq<char>, int, int), TokErr>((tv0.push(ch) + p.0, p.1, p.2)),
            Err(e) => Err::<(Seq<char>, int, int), TokErr>(e),
        }),
{
    match spec_scan_string(csv, ni, nl) {
        Ok(p) => {
            assert(tv0 + (seq![ch] + p.0) =~= tv0.push(ch) + p.0);
        },
        Err(_) => {},
    }
}

/// A simple escape extends the composed literal text like a raw character.
proof fn lemma_escape_step(
    csv: Seq<char>,
    s0: int,
    l0: int,
    tv0: Seq<char>,
    decoded: char,
    ti: int,
    tl: int,
    ni: int,
)
    requires
        spec_scan_string(csv, s0, l0) == (match spec_scan_string(csv, ti, tl) {
            Ok(p) => Ok::<(Seq<char>, int, int), TokErr>((tv0 + p.0, p.1, p.2)),
            Err(e) => Err::<(Seq<char>, int, int), TokErr>(e),
        }),
        spec_scan_string(csv, ti, tl) == (match spec_scan_string(csv, ni, tl) {
            Ok(p) => Ok::<(Seq<char>, int, int), TokErr>((seq![decoded] + p.0, p.1, p.2)),
            Err(e) => Err::<(Seq<char>, int, int), TokErr>(e),
        }),
    ensures
        spec_scan_string(csv, s0, l0) == (match spec_scan_string(csv, ni, tl) {
            Ok(p) => Ok::<(Seq<char>, int, int), TokErr>((tv0.push(decoded) + p.0, p.1, p.2)),
            Err(e) => Err::<(Seq<char>, int, int), TokErr>(e),
        }),
{
    match spec_scan_string(csv, ni, tl) {
        Ok(p) => {
            assert(tv0 + (seq![decoded] + p.0) =~= tv0.push(decoded) + p.0);
        },
        Err(_) => {},
    }
}

} // verus!
