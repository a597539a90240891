//! The lexical analyzer: one left-to-right scan over the source text.
//!
//! [`spec_tokenize`] is the mathematical description of the scan, one
//! token per recursive step; [`tokenize`] is the executable scanner,
//! proved to return exactly that token sequence.
//!
//! The scan never fails: an unterminated literal or variable hint is
//! captured to the end of the input, and a comment simply vanishes.

use vstd::prelude::*;
use crate::chars::{
    is_space_char, is_word_char, run_len, lemma_run_len, lemma_run_len_is, word_char_p,
    not_char_p, word_char,
};
use crate::token::{Token, TokenType, TokenModel, spec_classify_word, classify_word};

verus! {

/// A character that begins or continues a bare symbol word: anything
/// that is not whitespace, not a word character, and not one of the
/// scanner's special characters (`~`, `'`, `@`).
pub open spec fn is_symbol_char(c: char) -> bool {
    !is_space_char(c) && !is_word_char(c) && c != '~' && c != '\'' && c != '@'
}

/// The symbol class as a predicate value, for [`run_len`].
pub open spec fn symbol_char_p() -> spec_fn(char) -> bool {
    |c: char| is_symbol_char(c)
}

pub fn symbol_char(c: char) -> (r: bool)
    ensures
        r == is_symbol_char(c),
{
    !(c == ' ' || c == '\t' || c == '\n') && !word_char(c) && c != '~' && c != '\'' && c != '@'
}

/// The token sequence of a source text, one scan step per recursive
/// call:
/// - whitespace is dropped one character at a time;
/// - `~` drops everything up to and including the next newline;
/// - `'` captures everything up to the next quote (or the end of the
///   input) as a `Literal`;
/// - `@` captures a run of word characters as a `Variable`; a `{` right
///   after the name additionally captures the hint up to the next `}`
///   (or the end of the input) as an `Interpolation` right after it;
/// - any other character starts a bare word — a run of word characters,
///   or a run of symbol characters — classified by the reserved-word
///   sets.
pub open spec fn spec_tokenize(s: Seq<char>) -> Seq<TokenModel>
    decreases s.len(),
        via spec_tokenize_decreases
{
    if s.len() == 0 {
        Seq::empty()
    } else {
        let c = s[0];
        if is_space_char(c) {
            spec_tokenize(s.skip(1))
        } else if c == '~' {
            let k = run_len(s.skip(1), not_char_p('\n'));
            if 1 + k == s.len() {
                Seq::empty()
            } else {
                spec_tokenize(s.skip(2 + k as int))
            }
        } else if c == '\'' {
            let k = run_len(s.skip(1), not_char_p('\''));
            let tok = TokenModel { kind: TokenType::Literal, value: s.subrange(1, 1 + k as int) };
            if 1 + k == s.len() {
                seq![tok]
            } else {
                seq![tok] + spec_tokenize(s.skip(2 + k as int))
            }
        } else if c == '@' {
            let n = run_len(s.skip(1), word_char_p());
            let name = TokenModel { kind: TokenType::Variable, value: s.subrange(1, 1 + n as int) };
            if 1 + n < s.len() && s[1 + n as int] == '{' {
                let h = run_len(s.skip(2 + n as int), not_char_p('}'));
                let hint = TokenModel {
                    kind: TokenType::Interpolation,
                    value: s.subrange(2 + n as int, 2 + n + h as int),
                };
                if 2 + n + h == s.len() {
                    seq![name, hint]
                } else {
                    seq![name, hint] + spec_tokenize(s.skip(3 + n + h as int))
                }
            } else {
                seq![name] + spec_tokenize(s.skip(1 + n as int))
            }
        } else {
            let n = if is_word_char(c) {
                run_len(s, word_char_p())
            } else {
                run_len(s, symbol_char_p())
            };
            let w = s.subrange(0, n as int);
            seq![TokenModel { kind: spec_classify_word(w), value: w }] + spec_tokenize(
                s.skip(n as int),
            )
        }
    }
}

#[via_fn]
proof fn spec_tokenize_decreases(s: Seq<char>) {
    if s.len() > 0 {
        lemma_run_len(s.skip(1), not_char_p('\n'));
        lemma_run_len(s.skip(1), not_char_p('\''));
        lemma_run_len(s.skip(1), word_char_p());
        let n = run_len(s.skip(1), word_char_p());
        if 1 + n < s.len() {
            lemma_run_len(s.skip(2 + n as int), not_char_p('}'));
        }
        lemma_run_len(s, word_char_p());
        lemma_run_len(s, symbol_char_p());
    }
}

/// Scan forward from `from` to the first occurrence of `stop` (or the
/// end of the input).
pub(crate) fn scan_until(input: &str, from: usize, stop: char) -> (j: usize)
    requires
        from <= input@.len(),
    ensures
        from <= j <= input@.len(),
        j - from == run_len(input@.skip(from as int), not_char_p(stop)),
{
    let len = input.unicode_len();
    let mut j = from;
    while j < len && input.get_char(j) != stop
        invariant
            from <= j <= len,
            len == input@.len(),
            forall|t: int| from <= t < j ==> input@[t] != stop,
        decreases len - j,
    {
        j += 1;
    }
    proof {
        let tail = input@.skip(from as int);
        assert forall|t: int| 0 <= t < j - from implies not_char_p(stop)(#[trigger] tail[t]) by {
            assert(tail[t] == input@[from + t]);
        }
        if j < len {
            assert(tail[j - from] == input@[j as int]);
        }
        lemma_run_len_is(tail, not_char_p(stop), (j - from) as nat);
    }
    j
}

/// Scan forward from `from` over word characters.
pub(crate) fn scan_word_run(input: &str, from: usize) -> (j: usize)
    requires
        from <= input@.len(),
    ensures
        from <= j <= input@.len(),
        j - from == run_len(input@.skip(from as int), word_char_p()),
{
    let len = input.unicode_len();
    let mut j = from;
    while j < len && word_char(input.get_char(j))
        invariant
            from <= j <= len,
            len == input@.len(),
            forall|t: int| from <= t < j ==> is_word_char(#[trigger] input@[t]),
        decreases len - j,
    {
        j += 1;
    }
    proof {
        let tail = input@.skip(from as int);
        assert forall|t: int| 0 <= t < j - from implies word_char_p()(#[trigger] tail[t]) by {
            assert(tail[t] == input@[from + t]);
        }
        if j < len {
            assert(tail[j - from] == input@[j as int]);
        }
        lemma_run_len_is(tail, word_char_p(), (j - from) as nat);
    }
    j
}

/// Scan forward from `from` over symbol characters.
fn scan_symbol_run(input: &str, from: usize) -> (j: usize)
    requires
        from <= input@.len(),
    ensures
        from <= j <= input@.len(),
        j - from == run_len(input@.skip(from as int), symbol_char_p()),
{
    let len = input.unicode_len();
    let mut j = from;
    while j < len && symbol_char(input.get_char(j))
        invariant
            from <= j <= len,
            len == input@.len(),
            forall|t: int| from <= t < j ==> is_symbol_char(#[trigger] input@[t]),
        decreases len - j,
    {
        j += 1;
    }
    proof {
        let tail = input@.skip(from as int);
        assert forall|t: int| 0 <= t < j - from implies symbol_char_p()(#[trigger] tail[t]) by {
            assert(tail[t] == input@[from + t]);
        }
        if j < len {
            assert(tail[j - from] == input@[j as int]);
        }
        lemma_run_len_is(tail, symbol_char_p(), (j - from) as nat);
    }
    j
}

/// Advance the scan past one character of whitespace.
pub fn skip_whitespace(i: usize) -> (j: usize)
    requires
        i < usize::MAX,
    ensures
        j == i + 1,
{
    i + 1
}

/// Advance the scan past a `~` comment: everything up to and including
/// the next newline, or to the end of the input when no newline follows.
pub fn skip_comment_until_end(input: &str, from: usize) -> (j: usize)
    requires
        from < input@.len(),
    ensures
        from < j <= input@.len(),
        ({
            let k = run_len(input@.skip(from as int + 1), not_char_p('\n'));
            j == if from + 1 + k == input@.len() {
                input@.len() as int
            } else {
                from + 2 + k
            }
        }),
{
    let len = input.unicode_len();
    let j = scan_until(input, from + 1, '\n');
    if j == len {
        len
    } else {
        j + 1
    }
}

/// Tokenize the input string into a vector of tokens: exactly the
/// sequence [`spec_tokenize`] describes, never failing.
pub fn tokenize(input: &str) -> (tokens: Vec<Token>)
    ensures
        tokens.deep_view() == spec_tokenize(input@),
{
    let len = input.unicode_len();
    let mut tokens: Vec<Token> = Vec::new();
    let mut i: usize = 0;
    proof {
        assert(input@.skip(0) =~= input@);
        assert(tokens.deep_view() =~= Seq::<TokenModel>::empty());
        assert(tokens.deep_view() + spec_tokenize(input@) =~= spec_tokenize(input@));
    }
    while i < len
        invariant
            len == input@.len(),
            i <= len,
            tokens.deep_view() + spec_tokenize(input@.skip(i as int)) == spec_tokenize(input@),
        decreases len - i,
    {
        let ghost pre = input@.skip(i as int);
        let ghost dv0 = tokens.deep_view();
        proof {
            assert(pre[0] == input@[i as int]);
        }
        let c = input.get_char(i);
        if c == ' ' || c == '\t' || c == '\n' {
            proof {
                assert(pre.skip(1) =~= input@.skip(i as int + 1));
            }
            i = skip_whitespace(i);
        } else if c == '~' {
            let j = skip_comment_until_end(input, i);
            proof {
                let k = run_len(pre.skip(1), not_char_p('\n'));
                assert(pre.skip(1) =~= input@.skip(i as int + 1));
                if i + 1 + k == len {
                    assert(1 + k == pre.len());
                    assert(input@.skip(len as int) =~= Seq::<char>::empty());
                    assert(dv0 + Seq::<TokenModel>::empty() =~= dv0);
                } else {
                    assert(pre.skip(2 + k as int) =~= input@.skip(j as int));
                }
            }
            i = j;
        } else if c == '\'' {
            let j = scan_until(input, i + 1, '\'');
            let value = String::from_str(input.substring_char(i + 1, j));
            tokens.push(Token { kind: TokenType::Literal, value });
            proof {
                let k = run_len(pre.skip(1), not_char_p('\''));
                assert(pre.skip(1) =~= input@.skip(i as int + 1));
                assert(k == j - (i + 1));
                let model = TokenModel { kind: TokenType::Literal, value: pre.subrange(1, 1 + k as int) };
                assert(pre.subrange(1, 1 + k as int) =~= input@.subrange(i as int + 1, j as int));
                assert(tokens.deep_view() =~= dv0.push(model));
                if 1 + k == pre.len() {
                    assert(j == len);
                    assert(spec_tokenize(pre) == seq![model]);
                    assert(input@.skip(len as int) =~= Seq::<char>::empty());
                    assert(dv0.push(model) + spec_tokenize(Seq::<char>::empty()) =~= dv0 + seq![model]);
                } else {
                    assert(pre.skip(2 + k as int) =~= input@.skip(j as int + 1));
                    assert(dv0.push(model) + spec_tokenize(pre.skip(2 + k as int)) =~= dv0 + (
                    seq![model] + spec_tokenize(pre.skip(2 + k as int))));
                }
            }
            if j == len {
                i = len;
            } else {
                i = j + 1;
            }
        } else if c == '@' {
            let j = scan_word_run(input, i + 1);
            let name = String::from_str(input.substring_char(i + 1, j));
            proof {
                assert(pre.skip(1) =~= input@.skip(i as int + 1));
            }
            let ghost n = run_len(pre.skip(1), word_char_p());
            let ghost name_model = TokenModel {
                kind: TokenType::Variable,
                value: pre.subrange(1, 1 + n as int),
            };
            proof {
                assert(n == j - (i + 1));
                assert(pre.subrange(1, 1 + n as int) =~= input@.subrange(i as int + 1, j as int));
                if 1 + n < pre.len() {
                    assert(pre[1 + n as int] == input@[j as int]);
                }
            }
            if j < len && input.get_char(j) == '{' {
                let h_end = scan_until(input, j + 1, '}');
                let hint = String::from_str(input.substring_char(j + 1, h_end));
                tokens.push(Token { kind: TokenType::Variable, value: name });
                tokens.push(Token { kind: TokenType::Interpolation, value: hint });
                proof {
                    let h = run_len(pre.skip(2 + n as int), not_char_p('}'));
                    assert(pre.skip(2 + n as int) =~= input@.skip(j as int + 1));
                    assert(h == h_end - (j + 1));
                    let hint_model = TokenModel {
                        kind: TokenType::Interpolation,
                        value: pre.subrange(2 + n as int, 2 + n + h as int),
                    };
                    assert(pre.subrange(2 + n as int, 2 + n + h as int) =~= input@.subrange(
                    j as int + 1, h_end as int));
                    assert(tokens.deep_view() =~= dv0.push(name_model).push(hint_model));
                    if 2 + n + h == pre.len() {
                        assert(h_end == len);
                        assert(spec_tokenize(pre) == seq![name_model, hint_model]);
                        assert(input@.skip(len as int) =~= Seq::<char>::empty());
                        assert(dv0.push(name_model).push(hint_model) + spec_tokenize(
                        Seq::<char>::empty()) =~= dv0 + seq![name_model, hint_model]);
                    } else {
                        assert(pre.skip(3 + n + h as int) =~= input@.skip(h_end as int + 1));
                        assert(dv0.push(name_model).push(hint_model) + spec_tokenize(
                        pre.skip(3 + n + h as int)) =~= dv0 + (seq![name_model, hint_model]
                            + spec_tokenize(pre.skip(3 + n + h as int))));
                    }
                }
                if h_end == len {
                    i = len;
                } else {
                    i = h_end + 1;
                }
            } else {
                tokens.push(Token { kind: TokenType::Variable, value: name });
                proof {
                    assert(!(1 + n < pre.len() && pre[1 + n as int] == '{'));
                    assert(tokens.deep_view() =~= dv0.push(name_model));
                    assert(pre.skip(1 + n as int) =~= input@.skip(j as int));
                    assert(dv0.push(name_model) + spec_tokenize(pre.skip(1 + n as int)) =~= dv0 + (
                    seq![name_model] + spec_tokenize(pre.skip(1 + n as int))));
                }
                i = j;
            }
        } else {
            let is_w = word_char(c);
            let j = if is_w {
                scan_word_run(input, i)
            } else {
                scan_symbol_run(input, i)
            };
            let word = input.substring_char(i, j);
            let kind = classify_word(word);
            tokens.push(Token { kind, value: String::from_str(word) });
            proof {
                let n = if is_word_char(pre[0]) {
                    run_len(pre, word_char_p())
                } else {
                    run_len(pre, symbol_char_p())
                };
                assert(pre =~= input@.skip(i as int));
                assert(n == j - i);
                let w = pre.subrange(0, n as int);
                assert(w =~= input@.subrange(i as int, j as int));
                let model = TokenModel { kind: spec_classify_word(w), value: w };
                assert(kind == spec_classify_word(w));
                assert(tokens.deep_view() =~= dv0.push(model));
                assert(pre.skip(n as int) =~= input@.skip(j as int));
                assert(dv0.push(model) + spec_tokenize(pre.skip(n as int)) =~= dv0 + (seq![model]
                    + spec_tokenize(pre.skip(n as int))));
                assert(j > i);
            }
            i = j;
        }
    }
    proof {
        assert(input@.skip(len as int) =~= Seq::<char>::empty());
        assert(tokens.deep_view() + Seq::<TokenModel>::empty() =~= tokens.deep_view());
    }
    tokens
}

} // verus!
