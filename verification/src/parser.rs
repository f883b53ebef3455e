//! The assembly parser: a token stream becomes an instruction sequence.
//! Only a mnemonic may stand at statement position; each mnemonic has a
//! fixed operand grammar.

use vstd::prelude::*;
use vstd::string::{StringExecFns, StrSliceExecFns};
use crate::tokens::{Token, TokenType};
use crate::instructions::{Instruction, InstructionView, instr_wf, instrs_wf};
use crate::value::{MiValue, MiType, value_wf};
use crate::numfmt::u64_to_dec_string;
use crate::value::{ValueView, spec_int_payload, spec_float_payload, spec_bool_payload,
    spec_string_payload};

verus! {

/// The register index at a cursor position, when a register token stands
/// there.
pub open spec fn spec_reg_at(tokens: Seq<Token>, pc: int) -> Option<usize> {
    if 0 <= pc < tokens.len() {
        match tokens[pc].token_type {
            TokenType::Register(v) => Some(v),
            _ => None,
        }
    } else {
        None
    }
}

/// The integer literal at a cursor position.
pub open spec fn spec_int_at(tokens: Seq<Token>, pc: int) -> Option<i32> {
    if 0 <= pc < tokens.len() {
        match tokens[pc].token_type {
            TokenType::Int(v) => Some(v),
            _ => None,
        }
    } else {
        None
    }
}

/// The float literal's bit pattern at a cursor position.
pub open spec fn spec_float_at(tokens: Seq<Token>, pc: int) -> Option<u64> {
    if 0 <= pc < tokens.len() {
        match tokens[pc].token_type {
            TokenType::Float(v) => Some(v),
            _ => None,
        }
    } else {
        None
    }
}

/// The string literal at a cursor position.
pub open spec fn spec_string_at(tokens: Seq<Token>, pc: int) -> Option<Seq<char>> {
    if 0 <= pc < tokens.len() {
        match tokens[pc].token_type {
            TokenType::String(v) => Some(v@),
            _ => None,
        }
    } else {
        None
    }
}

/// The boolean literal at a cursor position.
pub open spec fn spec_bool_at(tokens: Seq<Token>, pc: int) -> Option<bool> {
    if 0 <= pc < tokens.len() {
        match tokens[pc].token_type {
            TokenType::Boolean(v) => Some(v),
            _ => None,
        }
    } else {
        None
    }
}

/// The identifier at a cursor position.
pub open spec fn spec_ident_at(tokens: Seq<Token>, pc: int) -> Option<Seq<char>> {
    if 0 <= pc < tokens.len() {
        match tokens[pc].token_type {
            TokenType::Identifier(v) => Some(v@),
            _ => None,
        }
    } else {
        None
    }
}

/// The type a type word at a cursor position names: `None`, `int`, `float`,
/// `string` or `boolean`.
pub open spec fn spec_type_at(tokens: Seq<Token>, pc: int) -> Option<MiType> {
    if 0 <= pc < tokens.len() {
        match tokens[pc].token_type {
            TokenType::Type(w) => if w@ == "None"@ {
                Some(MiType::NoneType)
            } else if w@ == "int"@ {
                Some(MiType::Int)
            } else if w@ == "float"@ {
                Some(MiType::Float)
            } else if w@ == "string"@ {
                Some(MiType::String)
            } else if w@ == "boolean"@ {
                Some(MiType::Bool)
            } else {
                None
            },
            _ => None,
        }
    } else {
        None
    }
}

/// The canonical literal value a type word and its payload token spell,
/// with the cursor position after them: the none value takes no payload,
/// and `int`, `float`, `string` and `bool` take one literal token each.
pub open spec fn spec_value_at(tokens: Seq<Token>, pc: int) -> Option<(ValueView, int)> {
    if 0 <= pc < tokens.len() {
        match tokens[pc].token_type {
            TokenType::Type(w) => if w@ == "None"@ {
                Some((ValueView { bytes: Seq::<u8>::empty(), variant: MiType::NoneType }, pc + 1))
            } else if w@ == "int"@ {
                match spec_int_at(tokens, pc + 1) {
                    Some(n) => Some(
                        (ValueView { bytes: spec_int_payload(n), variant: MiType::Int }, pc + 2),
                    ),
                    None => None,
                }
            } else if w@ == "float"@ {
                match spec_float_at(tokens, pc + 1) {
                    Some(bits) => Some(
                        (
                            ValueView { bytes: spec_float_payload(bits), variant: MiType::Float },
                            pc + 2,
                        ),
                    ),
                    None => None,
                }
            } else if w@ == "string"@ {
                match spec_string_at(tokens, pc + 1) {
                    Some(text) => Some(
                        (
                            ValueView {
                                bytes: spec_string_payload(text),
                                variant: MiType::String,
                            },
                            pc + 2,
                        ),
                    ),
                    None => None,
                }
            } else if w@ == "bool"@ {
                match spec_bool_at(tokens, pc + 1) {
                    Some(b) => Some(
                        (ValueView { bytes: spec_bool_payload(b), variant: MiType::Bool }, pc + 2),
                    ),
                    None => None,
                }
            } else {
                None
            },
            _ => None,
        }
    } else {
        None
    }
}

/// Two registers in a row, with the cursor after them.
pub open spec fn spec_regs2_at(tokens: Seq<Token>, pc: int) -> Option<(usize, usize, int)> {
    match spec_reg_at(tokens, pc) {
        Some(a) => match spec_reg_at(tokens, pc + 1) {
            Some(b) => Some((a, b, pc + 2)),
            None => None,
        },
        None => None,
    }
}

/// Three registers in a row, with the cursor after them.
pub open spec fn spec_regs3_at(tokens: Seq<Token>, pc: int) -> Option<(usize, usize, usize, int)> {
    match spec_reg_at(tokens, pc) {
        Some(a) => match spec_reg_at(tokens, pc + 1) {
            Some(b) => match spec_reg_at(tokens, pc + 2) {
                Some(d) => Some((a, b, d, pc + 3)),
                None => None,
            },
            None => None,
        },
        None => None,
    }
}

/// True for the fifteen mnemonics that take three register operands.
pub open spec fn spec_is_three_reg_kw(k: Seq<char>) -> bool {
    k == "add"@ || k == "sub"@ || k == "mul"@ || k == "div"@ || k == "rem"@ || k == "pow"@ || k
        == "or"@ || k == "xor"@ || k == "and"@ || k == "lt"@ || k == "le"@ || k == "gt"@ || k
        == "ge"@ || k == "eq"@ || k == "ne"@
}

/// The instruction a three-register mnemonic builds.
pub open spec fn spec_three_reg_instr(k: Seq<char>, a: usize, b: usize, d: usize) -> InstructionView {
    if k == "add"@ {
        InstructionView::Add(a, b, d)
    } else if k == "sub"@ {
        InstructionView::Sub(a, b, d)
    } else if k == "mul"@ {
        InstructionView::Mul(a, b, d)
    } else if k == "div"@ {
        InstructionView::Div(a, b, d)
    } else if k == "rem"@ {
        InstructionView::Rem(a, b, d)
    } else if k == "pow"@ {
        InstructionView::Pow(a, b, d)
    } else if k == "or"@ {
        InstructionView::Or(a, b, d)
    } else if k == "xor"@ {
        InstructionView::Xor(a, b, d)
    } else if k == "and"@ {
        InstructionView::And(a, b, d)
    } else if k == "lt"@ {
        InstructionView::Lt(a, b, d)
    } else if k == "le"@ {
        InstructionView::Le(a, b, d)
    } else if k == "gt"@ {
        InstructionView::Gt(a, b, d)
    } else if k == "ge"@ {
        InstructionView::Ge(a, b, d)
    } else if k == "eq"@ {
        InstructionView::Eq(a, b, d)
    } else {
        InstructionView::Ne(a, b, d)
    }
}

/// Up to `count` identifiers in a row, with the cursor after them; a
/// non-identifier token before the count runs out reads as nothing.
pub open spec fn spec_fn_params_at(tokens: Seq<Token>, pc: int, count: int) -> Option<
    (Seq<Seq<char>>, int),
>
    decreases count,
{
    if count <= 0 {
        Some((Seq::<Seq<char>>::empty(), pc))
    } else {
        match spec_ident_at(tokens, pc) {
            Some(id) => match spec_fn_params_at(tokens, pc + 1, count - 1) {
                Some(p) => Some((seq![id] + p.0, p.1)),
                None => None,
            },
            None => None,
        }
    }
}

/// How many parameter identifiers a declared count makes the parser read:
/// one fewer than the count (the wire contract's asymmetry); zero reads
/// none, and a negative count demands more identifiers than any token
/// vector holds.
pub open spec fn spec_params_wanted(count: i32) -> int {
    if count == 0 {
        0
    } else if count >= 1 {
        count - 1
    } else {
        0xffff_ffff_ffff_ffffu64 as int
    }
}

/// Reading identifiers never moves the cursor backwards.
proof fn lemma_fn_params_pos(tokens: Seq<Token>, pc: int, count: int)
    ensures
        spec_fn_params_at(tokens, pc, count) matches Some(p) ==> p.1 >= pc,
    decreases count,
{
    if count > 0 {
        lemma_fn_params_pos(tokens, pc + 1, count - 1);
    }
}

/// The instruction sequence the tokens from `pc` onward spell, or nothing
/// where they are ill-formed: only a mnemonic may stand at statement
/// position, and each mnemonic reads its fixed operand grammar.
pub open spec fn spec_parse(tokens: Seq<Token>, pc: int) -> Option<Seq<InstructionView>>
    decreases tokens.len() - pc,
    via spec_parse_dec
{
    if pc >= tokens.len() || pc < 0 {
        if pc == tokens.len() || pc > tokens.len() {
            Some(Seq::<InstructionView>::empty())
        } else {
            None
        }
    } else {
        match tokens[pc].token_type {
            TokenType::Keyword(kw) => {
                let k = kw@;
                match spec_parse_arm(tokens, pc, k) {
                    Some(p) => match spec_parse(tokens, p.1) {
                        Some(rest) => Some(seq![p.0] + rest),
                        None => None,
                    },
                    None => None,
                }
            },
            _ => None,
        }
    }
}

/// One statement: the instruction a mnemonic and its operands spell, with
/// the cursor after them.
pub open spec fn spec_parse_arm(tokens: Seq<Token>, pc: int, k: Seq<char>) -> Option<
    (InstructionView, int),
> {
    if k == "move"@ {
        match spec_reg_at(tokens, pc + 1) {
            Some(a) => match spec_value_at(tokens, pc + 2) {
                Some(q) => Some((InstructionView::Move(a, q.0), q.1)),
                None => None,
            },
            None => None,
        }
    } else if k == "movebetween"@ {
        match spec_regs2_at(tokens, pc + 1) {
            Some(p) => Some((InstructionView::MoveBetween(p.0, p.1), p.2)),
            None => None,
        }
    } else if k == "moveargument"@ {
        match spec_string_at(tokens, pc + 1) {
            Some(name) => match spec_reg_at(tokens, pc + 2) {
                Some(a) => Some((InstructionView::MoveArgument(name, a), pc + 3)),
                None => None,
            },
            None => None,
        }
    } else if k == "moveasargument"@ {
        match spec_reg_at(tokens, pc + 1) {
            Some(a) => Some((InstructionView::MoveAsArgument(a), pc + 2)),
            None => None,
        }
    } else if spec_is_three_reg_kw(k) {
        match spec_regs3_at(tokens, pc + 1) {
            Some(p) => Some((spec_three_reg_instr(k, p.0, p.1, p.2), p.3)),
            None => None,
        }
    } else if k == "not"@ {
        match spec_regs2_at(tokens, pc + 1) {
            Some(p) => Some((InstructionView::Not(p.0, p.1), p.2)),
            None => None,
        }
    } else if k == "return"@ {
        Some((InstructionView::Return, pc + 1))
    } else if k == "setvariable"@ {
        match spec_reg_at(tokens, pc + 1) {
            Some(a) => match spec_ident_at(tokens, pc + 2) {
                Some(name) => Some((InstructionView::SetVariable(a, name), pc + 3)),
                None => None,
            },
            None => None,
        }
    } else if k == "movfromvariable"@ {
        match spec_ident_at(tokens, pc + 1) {
            Some(name) => match spec_reg_at(tokens, pc + 2) {
                Some(a) => Some((InstructionView::MovFromVariable(name, a), pc + 3)),
                None => None,
            },
            None => None,
        }
    } else if k == "throwfrom"@ {
        match spec_regs2_at(tokens, pc + 1) {
            Some(p) => Some((InstructionView::ThrowFrom(p.0, p.1), p.2)),
            None => None,
        }
    } else if k == "definelabel"@ {
        match spec_ident_at(tokens, pc + 1) {
            Some(name) => Some((InstructionView::DefineLabel(name), pc + 2)),
            None => None,
        }
    } else if k == "jumpunc"@ {
        match spec_ident_at(tokens, pc + 1) {
            Some(name) => Some((InstructionView::JumpUnconditional(name), pc + 2)),
            None => None,
        }
    } else if k == "jumpc"@ {
        match spec_reg_at(tokens, pc + 1) {
            Some(a) => match spec_ident_at(tokens, pc + 2) {
                Some(name) => Some((InstructionView::JumpConditional(a, name), pc + 3)),
                None => None,
            },
            None => None,
        }
    } else if k == "call"@ {
        match spec_ident_at(tokens, pc + 1) {
            Some(name) => Some((InstructionView::Call(name), pc + 2)),
            None => None,
        }
    } else if k == "definefnlabel"@ {
        match spec_ident_at(tokens, pc + 1) {
            Some(name) => match spec_int_at(tokens, pc + 2) {
                Some(count) => match spec_fn_params_at(
                    tokens,
                    pc + 3,
                    spec_params_wanted(count),
                ) {
                    Some(p) => match spec_type_at(tokens, p.1) {
                        Some(ret) => Some(
                            (InstructionView::DefineFnLabel(name, p.0, ret), p.1 + 1),
                        ),
                        None => None,
                    },
                    None => None,
                },
                None => None,
            },
            None => None,
        }
    } else if k == "endfunction"@ {
        Some((InstructionView::EndFunction, pc + 1))
    } else if k == "stdoutwrite"@ {
        match spec_reg_at(tokens, pc + 1) {
            Some(a) => Some((InstructionView::StdoutWrite(a), pc + 2)),
            None => None,
        }
    } else if k == "stdoutwritedebugged"@ {
        match spec_reg_at(tokens, pc + 1) {
            Some(a) => Some((InstructionView::StdoutWriteDebugged(a), pc + 2)),
            None => None,
        }
    } else if k == "stdoutflush"@ {
        Some((InstructionView::StdoutFlush, pc + 1))
    } else if k == "stderrwrite"@ {
        match spec_reg_at(tokens, pc + 1) {
            Some(a) => Some((InstructionView::StderrWrite(a), pc + 2)),
            None => None,
        }
    } else if k == "stderrwritedebugged"@ {
        match spec_reg_at(tokens, pc + 1) {
            Some(a) => Some((InstructionView::StderrWriteDebugged(a), pc + 2)),
            None => None,
        }
    } else if k == "stderrflush"@ {
        Some((InstructionView::StderrFlush, pc + 1))
    } else if k == "bufferedstdinread"@ {
        match spec_reg_at(tokens, pc + 1) {
            Some(a) => Some((InstructionView::BufferedStdinRead(a), pc + 2)),
            None => None,
        }
    } else {
        None
    }
}

/// Every statement read moves the cursor forward.
proof fn lemma_parse_arm_pos(tokens: Seq<Token>, pc: int, k: Seq<char>)
    ensures
        spec_parse_arm(tokens, pc, k) matches Some(p) ==> p.1 > pc,
{
    if k == "definefnlabel"@ {
        match spec_ident_at(tokens, pc + 1) {
            Some(_) => match spec_int_at(tokens, pc + 2) {
                Some(count) => {
                    lemma_fn_params_pos(tokens, pc + 3, spec_params_wanted(count));
                },
                None => {},
            },
            None => {},
        }
    }
}

#[via_fn]
proof fn spec_parse_dec(tokens: Seq<Token>, pc: int) {
    if 0 <= pc < tokens.len() {
        match tokens[pc as int].token_type {
            TokenType::Keyword(kw) => {
                lemma_parse_arm_pos(tokens, pc, kw@);
            },
            _ => {},
        }
    }
}

/// Two token kinds match exactly: same kind, same payload.
pub open spec fn spec_token_types_match(a: TokenType, b: TokenType) -> bool {
    match (a, b) {
        (TokenType::Register(x), TokenType::Register(y)) => x == y,
        (TokenType::Keyword(x), TokenType::Keyword(y)) => x@ == y@,
        (TokenType::Identifier(x), TokenType::Identifier(y)) => x@ == y@,
        (TokenType::Type(x), TokenType::Type(y)) => x@ == y@,
        (TokenType::Int(x), TokenType::Int(y)) => x == y,
        (TokenType::Float(x), TokenType::Float(y)) => x == y,
        (TokenType::String(x), TokenType::String(y)) => x@ == y@,
        (TokenType::Boolean(x), TokenType::Boolean(y)) => x == y,
        (TokenType::Comma, TokenType::Comma) => true,
        _ => false,
    }
}

/// The parser's cursor over its token vector.
pub struct Parser {
    tokens: Vec<Token>,
    pc: usize,
}

/// The mathematical shape of a parser: its tokens and its cursor.
#[verifier::ext_equal]
pub ghost struct ParserView {
    pub tokens: Seq<Token>,
    pub pc: int,
}

impl View for Parser {
    type V = ParserView;

    closed spec fn view(&self) -> ParserView {
        ParserView { tokens: self.tokens@, pc: self.pc as int }
    }
}

fn token_position_message(t: &Token, tail: &str) -> (r: String) {
    let mut m = u64_to_dec_string(t.line as u64);
    m.append(":");
    m.append(u64_to_dec_string(t.column as u64).as_str());
    m.append("->");
    let endcol = if t.length <= usize::MAX - t.column {
        t.column + t.length
    } else {
        t.column
    };
    m.append(u64_to_dec_string(endcol as u64).as_str());
    m.append(tail);
    m
}

impl Parser {
    /// A parser at the start of the token stream.
    pub fn new(tokens: Vec<Token>) -> (r: Parser)
        ensures
            r@.tokens == tokens@,
            r@.pc == 0,
    {
        Parser { tokens, pc: 0 }
    }

    fn out_of_tokens_message(&self) -> (r: String) {
        if self.pc >= 1 && self.pc - 1 < self.tokens.len() {
            token_position_message(&self.tokens[self.pc - 1], ": Unexpected end of tokens")
        } else {
            String::from_str("Unexpected end of tokens")
        }
    }

    /// Advances the cursor first, then checks the token now under it —
    /// never the one at the old cursor — against the expected token, kind
    /// and payload both.
    pub fn expect_kind(&mut self, kind: TokenType) -> (r: Result<(), String>)
        ensures
            final(self)@.tokens == old(self)@.tokens,
            old(self)@.pc < usize::MAX ==> final(self)@.pc == old(self)@.pc + 1,
            r is Ok <==> (old(self)@.pc + 1 < old(self)@.tokens.len() && spec_token_types_match(
                old(self)@.tokens[old(self)@.pc + 1].token_type,
                kind,
            )),
    {
        self.pc = if self.pc < usize::MAX {
            self.pc + 1
        } else {
            self.pc
        };
        if self.pc < self.tokens.len() {
            let found = &self.tokens[self.pc].token_type;
            let same = match (found, &kind) {
                (TokenType::Register(a), TokenType::Register(b)) => *a == *b,
                (TokenType::Keyword(a), TokenType::Keyword(b)) => *a == *b,
                (TokenType::Identifier(a), TokenType::Identifier(b)) => *a == *b,
                (TokenType::Type(a), TokenType::Type(b)) => *a == *b,
                (TokenType::Int(a), TokenType::Int(b)) => *a == *b,
                (TokenType::Float(a), TokenType::Float(b)) => *a == *b,
                (TokenType::String(a), TokenType::String(b)) => *a == *b,
                (TokenType::Boolean(a), TokenType::Boolean(b)) => *a == *b,
                (TokenType::Comma, TokenType::Comma) => true,
                _ => false,
            };
            if same {
                Ok(())
            } else {
                Err(String::from_str("Expected a different kind of token"))
            }
        } else {
            Err(String::from_str("Expected another token, found `EOF`"))
        }
    }

    fn parse_identifier(&mut self) -> (r: Result<String, String>)
        ensures
            final(self).tokens == old(self).tokens,
            final(self).pc >= old(self).pc,
            r is Ok ==> final(self).pc > old(self).pc && final(self).pc
                <= final(self).tokens@.len(),
            r is Ok <==> spec_ident_at(old(self).tokens@, old(self).pc as int) is Some,
            r matches Ok(v) ==> spec_ident_at(old(self).tokens@, old(self).pc as int) == Some(v@)
                && final(self).pc == old(self).pc + 1,
    {
        if self.pc < self.tokens.len() {
            let t = &self.tokens[self.pc];
            self.pc += 1;
            match &t.token_type {
                TokenType::Identifier(name) => Ok(name.clone()),
                _ => Err(token_position_message(t, ": Expected an identifier")),
            }
        } else {
            Err(self.out_of_tokens_message())
        }
    }

    fn parse_int(&mut self) -> (r: Result<i32, String>)
        ensures
            final(self).tokens == old(self).tokens,
            final(self).pc >= old(self).pc,
            r is Ok ==> final(self).pc > old(self).pc && final(self).pc
                <= final(self).tokens@.len(),
            r is Ok <==> spec_int_at(old(self).tokens@, old(self).pc as int) is Some,
            r matches Ok(v) ==> spec_int_at(old(self).tokens@, old(self).pc as int) == Some(v)
                && final(self).pc == old(self).pc + 1,
    {
        if self.pc < self.tokens.len() {
            let t = &self.tokens[self.pc];
            self.pc += 1;
            match &t.token_type {
                TokenType::Int(v) => Ok(*v),
                _ => Err(token_position_message(t, ": Unexpected token, expected token int")),
            }
        } else {
            Err(self.out_of_tokens_message())
        }
    }

    fn parse_reg(&mut self) -> (r: Result<usize, String>)
        ensures
            final(self).tokens == old(self).tokens,
            final(self).pc >= old(self).pc,
            r is Ok ==> final(self).pc > old(self).pc && final(self).pc
                <= final(self).tokens@.len(),
            r is Ok <==> spec_reg_at(old(self).tokens@, old(self).pc as int) is Some,
            r matches Ok(v) ==> spec_reg_at(old(self).tokens@, old(self).pc as int) == Some(v)
                && final(self).pc == old(self).pc + 1,
    {
        if self.pc < self.tokens.len() {
            let t = &self.tokens[self.pc];
            self.pc += 1;
            match &t.token_type {
                TokenType::Register(v) => Ok(*v),
                _ => Err(token_position_message(t, ": Unexpected token, expected token register")),
            }
        } else {
            Err(self.out_of_tokens_message())
        }
    }

    /// Reads a float literal's bit pattern.
    fn parse_float(&mut self) -> (r: Result<u64, String>)
        ensures
            final(self).tokens == old(self).tokens,
            final(self).pc >= old(self).pc,
            r is Ok ==> final(self).pc > old(self).pc && final(self).pc
                <= final(self).tokens@.len(),
            r is Ok <==> spec_float_at(old(self).tokens@, old(self).pc as int) is Some,
            r matches Ok(v) ==> spec_float_at(old(self).tokens@, old(self).pc as int) == Some(v)
                && final(self).pc == old(self).pc + 1,
    {
        if self.pc < self.tokens.len() {
            let t = &self.tokens[self.pc];
            self.pc += 1;
            match &t.token_type {
                TokenType::Float(bits) => Ok(*bits),
                _ => Err(token_position_message(t, ": Unexpected token, expected token float")),
            }
        } else {
            Err(self.out_of_tokens_message())
        }
    }

    fn parse_string(&mut self) -> (r: Result<String, String>)
        ensures
            final(self).tokens == old(self).tokens,
            final(self).pc >= old(self).pc,
            r is Ok ==> final(self).pc > old(self).pc && final(self).pc
                <= final(self).tokens@.len(),
            r is Ok <==> spec_string_at(old(self).tokens@, old(self).pc as int) is Some,
            r matches Ok(v) ==> spec_string_at(old(self).tokens@, old(self).pc as int) == Some(v@)
                && final(self).pc == old(self).pc + 1,
    {
        if self.pc < self.tokens.len() {
            let t = &self.tokens[self.pc];
            self.pc += 1;
            match &t.token_type {
                TokenType::String(v) => Ok(v.clone()),
                _ => Err(token_position_message(t, ": Unexpected token, expected token string")),
            }
        } else {
            Err(self.out_of_tokens_message())
        }
    }

    fn parse_bool(&mut self) -> (r: Result<bool, String>)
        ensures
            final(self).tokens == old(self).tokens,
            final(self).pc >= old(self).pc,
            r is Ok ==> final(self).pc > old(self).pc && final(self).pc
                <= final(self).tokens@.len(),
            r is Ok <==> spec_bool_at(old(self).tokens@, old(self).pc as int) is Some,
            r matches Ok(v) ==> spec_bool_at(old(self).tokens@, old(self).pc as int) == Some(v)
                && final(self).pc == old(self).pc + 1,
    {
        if self.pc < self.tokens.len() {
            let t = &self.tokens[self.pc];
            self.pc += 1;
            match &t.token_type {
                TokenType::Boolean(v) => Ok(*v),
                _ => Err(token_position_message(t, ": Unexpected token, expected token bool")),
            }
        } else {
            Err(self.out_of_tokens_message())
        }
    }

    /// Reads a type word: `None`, `int`, `float`, `string` or `boolean`.
    fn parse_type(&mut self) -> (r: Result<MiType, String>)
        ensures
            final(self).tokens == old(self).tokens,
            final(self).pc >= old(self).pc,
            r is Ok ==> final(self).pc > old(self).pc && final(self).pc
                <= final(self).tokens@.len(),
            r is Ok <==> spec_type_at(old(self).tokens@, old(self).pc as int) is Some,
            r matches Ok(v) ==> spec_type_at(old(self).tokens@, old(self).pc as int) == Some(v)
                && final(self).pc == old(self).pc + 1,
    {
        if self.pc < self.tokens.len() {
            let t = &self.tokens[self.pc];
            self.pc += 1;
            match &t.token_type {
                TokenType::Type(word) => {
                    if *word == String::from_str("None") {
                        Ok(MiType::NoneType)
                    } else if *word == String::from_str("int") {
                        Ok(MiType::Int)
                    } else if *word == String::from_str("float") {
                        Ok(MiType::Float)
                    } else if *word == String::from_str("string") {
                        Ok(MiType::String)
                    } else if *word == String::from_str("boolean") {
                        Ok(MiType::Bool)
                    } else {
                        Err(token_position_message(t, ": Unrecognized type"))
                    }
                },
                _ => Err(token_position_message(t, ": Expected Type token")),
            }
        } else {
            Err(self.out_of_tokens_message())
        }
    }

    /// Reads a literal value: a type word, then a matching payload token.
    /// The result always satisfies the payload-length invariant.
    fn parse_value(&mut self) -> (r: Result<MiValue, String>)
        ensures
            final(self).tokens == old(self).tokens,
            final(self).pc >= old(self).pc,
            r is Ok ==> final(self).pc > old(self).pc && final(self).pc
                <= final(self).tokens@.len(),
            r is Ok <==> spec_value_at(old(self).tokens@, old(self).pc as int) is Some,
            r matches Ok(v) ==> (spec_value_at(old(self).tokens@, old(self).pc as int) matches Some(
                q,
            ) && v@ == q.0 && final(self).pc == q.1),
            r matches Ok(v) ==> value_wf(v@),
    {
        if self.pc < self.tokens.len() {
            let t_line: usize = self.tokens[self.pc].line;
            let is_type = match &self.tokens[self.pc].token_type {
                TokenType::Type(_) => true,
                _ => false,
            };
            if !is_type {
                let t = &self.tokens[self.pc];
                self.pc += 1;
                return Err(token_position_message(t, ": Expected a value keyword"));
            }
            let word = match &self.tokens[self.pc].token_type {
                TokenType::Type(w) => w.clone(),
                _ => String::new(),
            };
            let t_msg = token_position_message(&self.tokens[self.pc], ": Invalid value keyword");
            self.pc += 1;
            if word == String::from_str("None") {
                Ok(MiValue::none_value())
            } else if word == String::from_str("int") {
                match self.parse_int() {
                    Ok(v) => Ok(MiValue::from_i32(v)),
                    Err(e) => Err(e),
                }
            } else if word == String::from_str("float") {
                match self.parse_float() {
                    Ok(bits) => Ok(MiValue::from_float_bits(bits)),
                    Err(e) => Err(e),
                }
            } else if word == String::from_str("string") {
                match self.parse_string() {
                    Ok(v) => Ok(MiValue::from_str_value(v.as_str())),
                    Err(e) => Err(e),
                }
            } else if word == String::from_str("bool") {
                match self.parse_bool() {
                    Ok(v) => Ok(MiValue::from_bool(v)),
                    Err(e) => Err(e),
                }
            } else {
                Err(t_msg)
            }
        } else {
            Err(self.out_of_tokens_message())
        }
    }

    /// Reads the parameter identifiers a declared count calls for: one
    /// fewer than the count, and none for a count of zero.
    fn parse_fn_params(&mut self, count: i32) -> (r: Result<Vec<String>, String>)
        ensures
            final(self).tokens == old(self).tokens,
            final(self).pc >= old(self).pc,
            r is Ok <==> spec_fn_params_at(
                old(self).tokens@,
                old(self).pc as int,
                spec_params_wanted(count),
            ) is Some,
            r matches Ok(v) ==> spec_fn_params_at(
                old(self).tokens@,
                old(self).pc as int,
                spec_params_wanted(count),
            ) == Some((v.deep_view(), final(self).pc as int)),
    {
        let ghost tv = self.tokens@;
        let ghost params_start = self.pc as int;
        let mut fnargs: Vec<String> = Vec::new();
        let wanted: u64 = if count == 0 {
            0
        } else if count >= 1 {
            (count - 1) as u64
        } else {
            0xffff_ffff_ffff_ffffu64
        };
        proof {
            assert(wanted as int == spec_params_wanted(count));
            assert(fnargs.deep_view() =~= Seq::<Seq<char>>::empty());
            match spec_fn_params_at(tv, params_start, wanted as int) {
                Some(p) => {
                    assert(fnargs.deep_view() + p.0 =~= p.0);
                },
                None => {},
            }
        }
        let mut got: u64 = 0;
        while got < wanted
            invariant
                got <= wanted,
                self.pc <= self.tokens@.len() || self.pc >= self.tokens@.len(),
                self.pc as int >= params_start,
                self.tokens == old(self).tokens,
                tv == self.tokens@,
                params_start == old(self).pc as int,
                wanted as int == spec_params_wanted(count),
                fnargs.deep_view().len() == got,
                spec_fn_params_at(tv, params_start, wanted as int) == (match spec_fn_params_at(
                    tv,
                    self.pc as int,
                    wanted as int - got as int,
                ) {
                    Some(p) => Some((fnargs.deep_view() + p.0, p.1)),
                    None => None,
                }),
            decreases wanted - got,
        {
            let ghost dv0 = fnargs.deep_view();
            let ghost pci = self.pc as int;
            match self.parse_identifier() {
                Ok(v) => {
                    proof {
                        match spec_fn_params_at(tv, pci + 1, wanted as int - got as int - 1) {
                            Some(p) => {
                                assert(dv0 + (seq![v@] + p.0) =~= dv0.push(v@) + p.0);
                            },
                            None => {},
                        }
                    }
                    fnargs.push(v);
                    proof {
                        assert(fnargs.deep_view() =~= dv0.push(v@));
                    }
                },
                Err(e) => {
                    proof {
                        assert(spec_fn_params_at(tv, pci, wanted as int - got as int) is None);
                    }
                    return Err(e);
                },
            }
            got = got + 1;
        }
        proof {
            assert(spec_fn_params_at(tv, self.pc as int, 0) == Some(
                (Seq::<Seq<char>>::empty(), self.pc as int),
            ));
            assert(fnargs.deep_view() + Seq::<Seq<char>>::empty() =~= fnargs.deep_view());
        }
        Ok(fnargs)
    }

    /// Parses the whole token stream into instructions: exactly the
    /// sequence `spec_parse` spells, so two parsers over equal tokens
    /// agree, every mnemonic yields one instruction in source order, and
    /// ill-formed input yields an error and no instruction vector. Every
    /// literal in the result satisfies the payload-length invariant, so
    /// the sequence can seed the interpreter directly.
    #[verifier::rlimit(100)]
    pub fn parse(&mut self) -> (r: Result<Vec<Instruction>, String>)
        ensures
            final(self)@.tokens == old(self)@.tokens,
            r matches Ok(instrs) ==> spec_parse(old(self)@.tokens, old(self)@.pc) == Some(
                instrs.deep_view(),
            ),
            r is Err ==> spec_parse(old(self)@.tokens, old(self)@.pc) is None,
            r matches Ok(instrs) ==> instrs_wf(instrs.deep_view()),
    {
        let ghost tv = self.tokens@;
        let ghost start_pc = self.pc as int;
        if self.pc > self.tokens.len() {
            self.pc = self.tokens.len();
        }
        let mut instructions: Vec<Instruction> = Vec::new();
        proof {
            if start_pc >= tv.len() {
                assert(spec_parse(tv, start_pc) == Some(Seq::<InstructionView>::empty()));
            }
            match spec_parse(tv, self.pc as int) {
                Some(rest) => {
                    assert(instructions.deep_view() + rest =~= rest);
                },
                None => {},
            }
        }
        loop
            invariant
                instrs_wf(instructions.deep_view()),
                self.pc <= self.tokens@.len(),
                self.tokens == old(self).tokens,
                tv == self.tokens@,
                start_pc == old(self)@.pc,
                spec_parse(tv, start_pc) == (match spec_parse(tv, self.pc as int) {
                    Some(rest) => Some(instructions.deep_view() + rest),
                    None => None,
                }),
            ensures
                spec_parse(tv, start_pc) == Some(instructions.deep_view()),
                instrs_wf(instructions.deep_view()),
            decreases self.tokens@.len() - self.pc,
        {
            if self.pc >= self.tokens.len() {
                proof {
                    assert(spec_parse(tv, self.pc as int) == Some(
                        Seq::<InstructionView>::empty(),
                    ));
                    assert(instructions.deep_view() + Seq::<InstructionView>::empty()
                        =~= instructions.deep_view());
                }
                break;
            }
            let ghost pc0 = self.pc as int;
            let kw = match &self.tokens[self.pc].token_type {
                TokenType::Keyword(kw) => kw.clone(),
                _ => {
                    let m = token_position_message(
                        &self.tokens[self.pc],
                        ": Invalid position for token",
                    );
                    proof {
                        assert(spec_parse(tv, pc0) is None);
                    }
                    return Err(m);
                },
            };
            let ghost kview = kw@;
            let kw_msg = token_position_message(&self.tokens[self.pc], ": Invalid keyword");
            self.pc += 1;
            let next: Instruction = if kw == String::from_str("move") {
                let a = match self.parse_reg() {
                    Ok(v) => v,
                    Err(e) => return Err(e),
                };
                let v = match self.parse_value() {
                    Ok(v) => v,
                    Err(e) => return Err(e),
                };
                Instruction::Move(a, v)
            } else if kw == String::from_str("movebetween") {
                let a = match self.parse_reg() {
                    Ok(v) => v,
                    Err(e) => return Err(e),
                };
                let b = match self.parse_reg() {
                    Ok(v) => v,
                    Err(e) => return Err(e),
                };
                Instruction::MoveBetween(a, b)
            } else if kw == String::from_str("moveargument") {
                let sarg = match self.parse_string() {
                    Ok(v) => v,
                    Err(e) => return Err(e),
                };
                let a = match self.parse_reg() {
                    Ok(v) => v,
                    Err(e) => return Err(e),
                };
                Instruction::MoveArgument(sarg, a)
            } else if kw == String::from_str("moveasargument") {
                let a = match self.parse_reg() {
                    Ok(v) => v,
                    Err(e) => return Err(e),
                };
                Instruction::MoveAsArgument(a)
            } else if kw == String::from_str("add") || kw == String::from_str("sub") || kw
                == String::from_str("mul") || kw == String::from_str("div") || kw
                == String::from_str("rem") || kw == String::from_str("pow") || kw
                == String::from_str("or") || kw == String::from_str("xor") || kw
                == String::from_str("and") || kw == String::from_str("lt") || kw
                == String::from_str("le") || kw == String::from_str("gt") || kw
                == String::from_str("ge") || kw == String::from_str("eq") || kw
                == String::from_str("ne") {
                let a = match self.parse_reg() {
                    Ok(v) => v,
                    Err(e) => return Err(e),
                };
                let b = match self.parse_reg() {
                    Ok(v) => v,
                    Err(e) => return Err(e),
                };
                let d = match self.parse_reg() {
                    Ok(v) => v,
                    Err(e) => return Err(e),
                };
                if kw == String::from_str("add") {
                    Instruction::Add(a, b, d)
                } else if kw == String::from_str("sub") {
                    Instruction::Sub(a, b, d)
                } else if kw == String::from_str("mul") {
                    Instruction::Mul(a, b, d)
                } else if kw == String::from_str("div") {
                    Instruction::Div(a, b, d)
                } else if kw == String::from_str("rem") {
                    Instruction::Rem(a, b, d)
                } else if kw == String::from_str("pow") {
                    Instruction::Pow(a, b, d)
                } else if kw == String::from_str("or") {
                    Instruction::Or(a, b, d)
                } else if kw == String::from_str("xor") {
                    Instruction::Xor(a, b, d)
                } else if kw == String::from_str("and") {
                    Instruction::And(a, b, d)
                } else if kw == String::from_str("lt") {
                    Instruction::Lt(a, b, d)
                } else if kw == String::from_str("le") {
                    Instruction::Le(a, b, d)
                } else if kw == String::from_str("gt") {
                    Instruction::Gt(a, b, d)
                } else if kw == String::from_str("ge") {
                    Instruction::Ge(a, b, d)
                } else if kw == String::from_str("eq") {
                    Instruction::Eq(a, b, d)
                } else {
                    Instruction::Ne(a, b, d)
                }
            } else if kw == String::from_str("not") {
                let a = match self.parse_reg() {
                    Ok(v) => v,
                    Err(e) => return Err(e),
                };
                let d = match self.parse_reg() {
                    Ok(v) => v,
                    Err(e) => return Err(e),
                };
                Instruction::Not(a, d)
            } else if kw == String::from_str("return") {
                Instruction::Return
            } else if kw == String::from_str("setvariable") {
                let a = match self.parse_reg() {
                    Ok(v) => v,
                    Err(e) => return Err(e),
                };
                let var = match self.parse_identifier() {
                    Ok(v) => v,
                    Err(e) => return Err(e),
                };
                Instruction::SetVariable(a, var)
            } else if kw == String::from_str("movfromvariable") {
                let var = match self.parse_identifier() {
                    Ok(v) => v,
                    Err(e) => return Err(e),
                };
                let a = match self.parse_reg() {
                    Ok(v) => v,
                    Err(e) => return Err(e),
                };
                Instruction::MovFromVariable(var, a)
            } else if kw == String::from_str("throwfrom") {
                let a = match self.parse_reg() {
                    Ok(v) => v,
                    Err(e) => return Err(e),
                };
                let b = match self.parse_reg() {
                    Ok(v) => v,
                    Err(e) => return Err(e),
                };
                Instruction::ThrowFrom(a, b)
            } else if kw == String::from_str("definelabel") {
                let label = match self.parse_identifier() {
                    Ok(v) => v,
                    Err(e) => return Err(e),
                };
                Instruction::DefineLabel(label)
            } else if kw == String::from_str("jumpunc") {
                let label = match self.parse_identifier() {
                    Ok(v) => v,
                    Err(e) => return Err(e),
                };
                Instruction::JumpUnconditional(label)
            } else if kw == String::from_str("jumpc") {
                let a = match self.parse_reg() {
                    Ok(v) => v,
                    Err(e) => return Err(e),
                };
                let label = match self.parse_identifier() {
                    Ok(v) => v,
                    Err(e) => return Err(e),
                };
                Instruction::JumpConditional(a, label)
            } else if kw == String::from_str("call") {
                let fname = match self.parse_identifier() {
                    Ok(v) => v,
                    Err(e) => return Err(e),
                };
                Instruction::Call(fname)
            } else if kw == String::from_str("definefnlabel") {
                // The count token is followed by one fewer identifiers than
                // it names: that asymmetry is part of the wire contract.
                let fname = match self.parse_identifier() {
                    Ok(v) => v,
                    Err(e) => return Err(e),
                };
                let count = match self.parse_int() {
                    Ok(v) => v,
                    Err(e) => return Err(e),
                };
                let fnargs = match self.parse_fn_params(count) {
                    Ok(v) => v,
                    Err(e) => return Err(e),
                };
                let ret = match self.parse_type() {
                    Ok(v) => v,
                    Err(e) => return Err(e),
                };
                Instruction::DefineFnLabel(fname, fnargs, ret)
            } else if kw == String::from_str("endfunction") {
                Instruction::EndFunction
            } else if kw == String::from_str("stdoutwrite") {
                let a = match self.parse_reg() {
                    Ok(v) => v,
                    Err(e) => return Err(e),
                };
                Instruction::StdoutWrite(a)
            } else if kw == String::from_str("stdoutwritedebugged") {
                let a = match self.parse_reg() {
                    Ok(v) => v,
                    Err(e) => return Err(e),
                };
                Instruction::StdoutWriteDebugged(a)
            } else if kw == String::from_str("stdoutflush") {
                Instruction::StdoutFlush
            } else if kw == String::from_str("stderrwrite") {
                let a = match self.parse_reg() {
                    Ok(v) => v,
                    Err(e) => return Err(e),
                };
                Instruction::StderrWrite(a)
            } else if kw == String::from_str("stderrwritedebugged") {
                let a = match self.parse_reg() {
                    Ok(v) => v,
                    Err(e) => return Err(e),
                };
                Instruction::StderrWriteDebugged(a)
            } else if kw == String::from_str("stderrflush") {
                Instruction::StderrFlush
            } else if kw == String::from_str("bufferedstdinread") {
                let a = match self.parse_reg() {
                    Ok(v) => v,
                    Err(e) => return Err(e),
                };
                Instruction::BufferedStdinRead(a)
            } else {
                return Err(kw_msg);
            };
            proof {
                assert(instr_wf(next@));
                assert(spec_parse_arm(tv, pc0, kview) == Some((next@, self.pc as int)));
                assert(spec_parse(tv, pc0) == (match spec_parse(tv, self.pc as int) {
                    Some(rest) => Some(seq![next@] + rest),
                    None => None,
                }));
            }
            let ghost before = instructions.deep_view();
            instructions.push(next);
            proof {
                match spec_parse(tv, self.pc as int) {
                    Some(rest) => {
                        assert(instructions.deep_view() =~= before.push(next@));
                        assert(before + (seq![next@] + rest) =~= instructions.deep_view() + rest);
                    },
                    None => {},
                }
            }
            proof {
                assert forall|j: int|
                    0 <= j < instructions.deep_view().len() implies instr_wf(
                    #[trigger] instructions.deep_view()[j],
                ) by {
                    if j < before.len() {
                        assert(instructions.deep_view()[j] == before[j]);
                    }
                }
            }
        }
        Ok(instructions)
    }
}

} // verus!
