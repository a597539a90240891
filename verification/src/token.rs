//! Lexical tokens and the classification of bare words.
//!
//! A bare word is classified against two fixed reserved-word sets — the
//! modifiers (`as`, `is`, `with`, `without`) and the logical operators
//! (`and`, `or`, `not`, `<`, `>`, `<=`, `>=`) — in that order; every other
//! word is an instruction.

use vstd::prelude::*;
use crate::chars::str_eq;

verus! {

/// The kind of a lexical token.
#[derive(Debug, PartialEq, Eq, Structural, Clone, Copy)]
pub enum TokenType {
    /// `as`, `is`, `with`, `without`
    Modifier,
    /// `@name`
    Variable,
    /// the hint text inside `@name{...}`
    Interpolation,
    /// a single-quoted string
    Literal,
    /// `and`, `or`, `not` and the comparison operators
    Logical,
    /// any other bare word
    Instruction,
    /// reserved for `#name` syntax; the lexer never produces it
    Function,
}

/// One classified lexical unit.
#[derive(Debug, Clone)]
pub struct Token {
    pub kind: TokenType,
    pub value: String,
}

/// The mathematical image of a [`Token`]: its kind and the characters of
/// its value.
pub ghost struct TokenModel {
    pub kind: TokenType,
    pub value: Seq<char>,
}

impl View for Token {
    type V = TokenModel;

    open spec fn view(&self) -> TokenModel {
        TokenModel { kind: self.kind, value: self.value@ }
    }
}

impl DeepView for Token {
    type V = TokenModel;

    open spec fn deep_view(&self) -> TokenModel {
        self@
    }
}

/// The reserved modifier words.
pub open spec fn is_modifier_word(w: Seq<char>) -> bool {
    ||| w == "as"@
    ||| w == "is"@
    ||| w == "with"@
    ||| w == "without"@
}

/// The reserved logical-operator words.
pub open spec fn is_logical_word(w: Seq<char>) -> bool {
    ||| w == "and"@
    ||| w == "or"@
    ||| w == "not"@
    ||| w == "<"@
    ||| w == ">"@
    ||| w == "<="@
    ||| w == ">="@
}

/// How the lexer classifies a bare word: modifiers take precedence over
/// logical operators; anything else is an instruction.
pub open spec fn spec_classify_word(w: Seq<char>) -> TokenType {
    if is_modifier_word(w) {
        TokenType::Modifier
    } else if is_logical_word(w) {
        TokenType::Logical
    } else {
        TokenType::Instruction
    }
}

/// Classify one bare word by membership in the two reserved-word sets.
pub fn classify_word(w: &str) -> (k: TokenType)
    ensures
        k == spec_classify_word(w@),
{
    if str_eq(w, "as") || str_eq(w, "is") || str_eq(w, "with") || str_eq(w, "without") {
        TokenType::Modifier
    } else if str_eq(w, "and") || str_eq(w, "or") || str_eq(w, "not") || str_eq(w, "<")
        || str_eq(w, ">") || str_eq(w, "<=") || str_eq(w, ">=") {
        TokenType::Logical
    } else {
        TokenType::Instruction
    }
}

} // verus!
