//! The grammar parser's scanner: raw grammar tokens over the source
//! text.
//!
//! The grammar works on a coarser alphabet than the lexer: bare words
//! (with `digits.digits` numbers kept in one piece), quoted text, `@`
//! references, and single punctuation marks.  Whitespace and `~`
//! comments vanish here exactly as they do in the lexer.

use vstd::prelude::*;
use crate::chars::{
    is_space_char, is_word_char, is_digit_char, run_len, lemma_run_len, word_char_p, digit_char_p,
    not_char_p, word_char, digit_char,
};
use crate::tokenizer::{scan_until, scan_word_run, skip_comment_until_end};
use crate::ast::scan_digits;

verus! {

/// One raw token of the grammar's surface.
#[derive(Debug, Clone, PartialEq)]
pub enum RawToken {
    /// a bare word: a run of word characters, or `digits.digits`
    Word(String),
    /// single-quoted text, quotes stripped
    Quoted(String),
    /// `@name`
    Ref(String),
    /// any other single character
    Punct(char),
}

/// The mathematical image of a [`RawToken`].
pub ghost enum RawModel {
    Word(Seq<char>),
    Quoted(Seq<char>),
    Ref(Seq<char>),
    Punct(char),
}

impl View for RawToken {
    type V = RawModel;

    open spec fn view(&self) -> RawModel {
        match self {
            RawToken::Word(w) => RawModel::Word(w@),
            RawToken::Quoted(q) => RawModel::Quoted(q@),
            RawToken::Ref(r) => RawModel::Ref(r@),
            RawToken::Punct(c) => RawModel::Punct(*c),
        }
    }
}

impl DeepView for RawToken {
    type V = RawModel;

    open spec fn deep_view(&self) -> RawModel {
        self@
    }
}

/// The raw-token sequence of a source text:
/// - whitespace and `~` comments vanish;
/// - `'` captures up to the next quote (or the end) as `Quoted`;
/// - `@` captures a run of word characters as `Ref`;
/// - a run of word characters is a `Word`; when the run is all digits
///   and a `.` with a digit right after follows it, the fraction
///   belongs to the same `Word`;
/// - any other character is a `Punct` of its own.
pub open spec fn spec_scan(s: Seq<char>) -> Seq<RawModel>
    decreases s.len(),
        via spec_scan_decreases
{
    if s.len() == 0 {
        Seq::empty()
    } else {
        let c = s[0];
        if is_space_char(c) {
            spec_scan(s.skip(1))
        } else if c == '~' {
            let k = run_len(s.skip(1), not_char_p('\n'));
            if 1 + k == s.len() {
                Seq::empty()
            } else {
                spec_scan(s.skip(2 + k as int))
            }
        } else if c == '\'' {
            let k = run_len(s.skip(1), not_char_p('\''));
            let tok = RawModel::Quoted(s.subrange(1, 1 + k as int));
            if 1 + k == s.len() {
                seq![tok]
            } else {
                seq![tok] + spec_scan(s.skip(2 + k as int))
            }
        } else if c == '@' {
            let n = run_len(s.skip(1), word_char_p());
            seq![RawModel::Ref(s.subrange(1, 1 + n as int))] + spec_scan(s.skip(1 + n as int))
        } else if is_word_char(c) {
            let n = run_len(s, word_char_p());
            if run_len(s, digit_char_p()) == n && n < s.len() && s[n as int] == '.' && n + 1
                < s.len() && is_digit_char(s[n as int + 1]) {
                let f = run_len(s.skip(n as int + 1), digit_char_p());
                seq![RawModel::Word(s.subrange(0, n + 1 + f as int))] + spec_scan(
                    s.skip(n + 1 + f as int),
                )
            } else {
                seq![RawModel::Word(s.subrange(0, n as int))] + spec_scan(s.skip(n as int))
            }
        } else {
            seq![RawModel::Punct(c)] + spec_scan(s.skip(1))
        }
    }
}

#[via_fn]
proof fn spec_scan_decreases(s: Seq<char>) {
    if s.len() > 0 {
        lemma_run_len(s.skip(1), not_char_p('\n'));
        lemma_run_len(s.skip(1), not_char_p('\''));
        lemma_run_len(s.skip(1), word_char_p());
        lemma_run_len(s, word_char_p());
        lemma_run_len(s, digit_char_p());
        let n = run_len(s, word_char_p());
        if n + 1 < s.len() {
            lemma_run_len(s.skip(n as int + 1), digit_char_p());
        }
    }
}

/// Scan the source text into its raw grammar tokens: exactly the
/// sequence [`spec_scan`] describes, never failing.
pub fn scan(input: &str) -> (toks: Vec<RawToken>)
    ensures
        toks.deep_view() == spec_scan(input@),
{
    let len = input.unicode_len();
    let mut toks: Vec<RawToken> = Vec::new();
    let mut i: usize = 0;
    proof {
        assert(input@.skip(0) =~= input@);
        assert(toks.deep_view() =~= Seq::<RawModel>::empty());
        assert(toks.deep_view() + spec_scan(input@) =~= spec_scan(input@));
    }
    while i < len
        invariant
            len == input@.len(),
            i <= len,
            toks.deep_view() + spec_scan(input@.skip(i as int)) == spec_scan(input@),
        decreases len - i,
    {
        let ghost pre = input@.skip(i as int);
        let ghost dv0 = toks.deep_view();
        proof {
            assert(pre[0] == input@[i as int]);
        }
        let c = input.get_char(i);
        if c == ' ' || c == '\t' || c == '\n' {
            proof {
                assert(pre.skip(1) =~= input@.skip(i as int + 1));
            }
            i += 1;
        } else if c == '~' {
            let j = skip_comment_until_end(input, i);
            proof {
                let k = run_len(pre.skip(1), not_char_p('\n'));
                assert(pre.skip(1) =~= input@.skip(i as int + 1));
                if i + 1 + k == len {
                    assert(1 + k == pre.len());
                    assert(input@.skip(len as int) =~= Seq::<char>::empty());
                    assert(dv0 + Seq::<RawModel>::empty() =~= dv0);
                } else {
                    assert(pre.skip(2 + k as int) =~= input@.skip(j as int));
                }
            }
            i = j;
        } else if c == '\'' {
            let j = scan_until(input, i + 1, '\'');
            let value = String::from_str(input.substring_char(i + 1, j));
            toks.push(RawToken::Quoted(value));
            proof {
                let k = run_len(pre.skip(1), not_char_p('\''));
                assert(pre.skip(1) =~= input@.skip(i as int + 1));
                assert(k == j - (i + 1));
                let model = RawModel::Quoted(pre.subrange(1, 1 + k as int));
                assert(pre.subrange(1, 1 + k as int) =~= input@.subrange(i as int + 1, j as int));
                assert(toks.deep_view() =~= dv0.push(model));
                if 1 + k == pre.len() {
                    assert(j == len);
                    assert(spec_scan(pre) == seq![model]);
                    assert(input@.skip(len as int) =~= Seq::<char>::empty());
                    assert(dv0.push(model) + spec_scan(Seq::<char>::empty()) =~= dv0 + seq![model]);
                } else {
                    assert(pre.skip(2 + k as int) =~= input@.skip(j as int + 1));
                    assert(dv0.push(model) + spec_scan(pre.skip(2 + k as int)) =~= dv0 + (
                    seq![model] + spec_scan(pre.skip(2 + k as int))));
                }
            }
            if j == len {
                i = len;
            } else {
                i = j + 1;
            }
        } else if c == '@' {
            let j = scan_word_run(input, i + 1);
            let name = String::from_str(input.substring_char(i + 1, j));
            toks.push(RawToken::Ref(name));
            proof {
                let n = run_len(pre.skip(1), word_char_p());
                assert(pre.skip(1) =~= input@.skip(i as int + 1));
                assert(n == j - (i + 1));
                let model = RawModel::Ref(pre.subrange(1, 1 + n as int));
                assert(pre.subrange(1, 1 + n as int) =~= input@.subrange(i as int + 1, j as int));
                assert(toks.deep_view() =~= dv0.push(model));
                assert(pre.skip(1 + n as int) =~= input@.skip(j as int));
                assert(dv0.push(model) + spec_scan(pre.skip(1 + n as int)) =~= dv0 + (seq![model]
                    + spec_scan(pre.skip(1 + n as int))));
            }
            i = j;
        } else if word_char(c) {
            let j = scan_word_run(input, i);
            let dj = scan_digits(input, i);
            proof {
                assert(run_len(pre, word_char_p()) == j - i);
                assert(run_len(pre, digit_char_p()) == dj - i);
                if j < len {
                    assert(pre[(j - i) as int] == input@[j as int]);
                }
                if j + 1 < len {
                    assert(pre[(j - i) as int + 1] == input@[j as int + 1]);
                }
            }
            if dj == j && j < len && input.get_char(j) == '.' && j + 1 < len && digit_char(
                input.get_char(j + 1),
            ) {
                let f_end = scan_digits(input, j + 1);
                let word = String::from_str(input.substring_char(i, f_end));
                toks.push(RawToken::Word(word));
                proof {
                    let n = run_len(pre, word_char_p());
                    let f = run_len(pre.skip(n as int + 1), digit_char_p());
                    assert(pre.skip(n as int + 1) =~= input@.skip(j as int + 1));
                    assert(f == f_end - (j + 1));
                    let model = RawModel::Word(pre.subrange(0, n + 1 + f as int));
                    assert(pre.subrange(0, n + 1 + f as int) =~= input@.subrange(
                    i as int, f_end as int));
                    assert(toks.deep_view() =~= dv0.push(model));
                    assert(pre.skip(n + 1 + f as int) =~= input@.skip(f_end as int));
                    assert(dv0.push(model) + spec_scan(pre.skip(n + 1 + f as int)) =~= dv0 + (
                    seq![model] + spec_scan(pre.skip(n + 1 + f as int))));
                }
                i = f_end;
            } else {
                let word = String::from_str(input.substring_char(i, j));
                toks.push(RawToken::Word(word));
                proof {
                    let n = run_len(pre, word_char_p());
                    let model = RawModel::Word(pre.subrange(0, n as int));
                    assert(pre.subrange(0, n as int) =~= input@.subrange(i as int, j as int));
                    assert(toks.deep_view() =~= dv0.push(model));
                    assert(pre.skip(n as int) =~= input@.skip(j as int));
                    assert(dv0.push(model) + spec_scan(pre.skip(n as int)) =~= dv0 + (seq![model]
                        + spec_scan(pre.skip(n as int))));
                    assert(j > i);
                }
                i = j;
            }
        } else {
            toks.push(RawToken::Punct(c));
            proof {
                let model = RawModel::Punct(pre[0]);
                assert(toks.deep_view() =~= dv0.push(model));
                assert(pre.skip(1) =~= input@.skip(i as int + 1));
                assert(dv0.push(model) + spec_scan(pre.skip(1)) =~= dv0 + (seq![model] + spec_scan(
                pre.skip(1))));
            }
            i += 1;
        }
    }
    proof {
        assert(input@.skip(len as int) =~= Seq::<char>::empty());
        assert(toks.deep_view() + Seq::<RawModel>::empty() =~= toks.deep_view());
    }
    toks
}

} // verus!
