//! Laws of the lexical scan.
//!
//! The central fact is [`lemma_tokenize_concat`]: the scan of a
//! concatenation splits at any point where the left part leaves no
//! construct open and the right part begins with a break character.
//! From it follow the two laws the lexer promises its callers:
//! comments vanish ([`lemma_comment_stripping`]) and extra whitespace
//! between tokens is immaterial ([`lemma_idempotent_whitespace`]).

use vstd::prelude::*;
use crate::chars::{
    is_space_char, is_word_char, run_len, lemma_run_len, lemma_run_len_is, lemma_run_len_concat,
    lemma_not_contains_skip, word_char_p, not_char_p,
};
use crate::token::TokenModel;
use crate::tokenizer::{spec_tokenize, is_symbol_char, symbol_char_p};

verus! {

/// A character that can never extend a word or symbol run: whitespace
/// and the scanner's special characters.
pub open spec fn is_break_char(c: char) -> bool {
    is_space_char(c) || c == '~' || c == '\'' || c == '@'
}

proof fn lemma_break_char_stops_runs(c: char)
    requires
        is_break_char(c),
    ensures
        !is_word_char(c),
        !is_symbol_char(c),
{
}

/// Every construct that the scan of `s` opens — a comment, a quoted
/// literal, a variable hint — is closed within `s`.
pub open spec fn scan_closed(s: Seq<char>) -> bool
    decreases s.len(),
        via scan_closed_decreases
{
    if s.len() == 0 {
        true
    } else {
        let c = s[0];
        if is_space_char(c) {
            scan_closed(s.skip(1))
        } else if c == '~' {
            let k = run_len(s.skip(1), not_char_p('\n'));
            1 + k < s.len() && scan_closed(s.skip(2 + k as int))
        } else if c == '\'' {
            let k = run_len(s.skip(1), not_char_p('\''));
            1 + k < s.len() && scan_closed(s.skip(2 + k as int))
        } else if c == '@' {
            let n = run_len(s.skip(1), word_char_p());
            if 1 + n < s.len() && s[1 + n as int] == '{' {
                let h = run_len(s.skip(2 + n as int), not_char_p('}'));
                2 + n + h < s.len() && scan_closed(s.skip(3 + n + h as int))
            } else {
                scan_closed(s.skip(1 + n as int))
            }
        } else {
            let n = if is_word_char(c) {
                run_len(s, word_char_p())
            } else {
                run_len(s, symbol_char_p())
            };
            scan_closed(s.skip(n as int))
        }
    }
}

#[via_fn]
proof fn scan_closed_decreases(s: Seq<char>) {
    if s.len() > 0 {
        lemma_run_len(s.skip(1), not_char_p('\n'));
        lemma_run_len(s.skip(1), not_char_p('\''));
        lemma_run_len(s.skip(1), word_char_p());
        let n = run_len(s.skip(1), word_char_p());
        if 1 + n < s.len() {
            lemma_run_len(s.skip(2 + n as int), not_char_p('}'));
        }
        lemma_run_len(s, word_char_p());
        lemma_run_len(s, symbol_char_p());
    }
}

/// Every `{` hint that a variable reference in `s` opens is closed by a
/// `}` within `s`.  Comments and literals may still run to the end.
pub open spec fn hints_closed(s: Seq<char>) -> bool
    decreases s.len(),
        via hints_closed_decreases
{
    if s.len() == 0 {
        true
    } else {
        let c = s[0];
        if is_space_char(c) {
            hints_closed(s.skip(1))
        } else if c == '~' {
            let k = run_len(s.skip(1), not_char_p('\n'));
            1 + k == s.len() || hints_closed(s.skip(2 + k as int))
        } else if c == '\'' {
            let k = run_len(s.skip(1), not_char_p('\''));
            1 + k == s.len() || hints_closed(s.skip(2 + k as int))
        } else if c == '@' {
            let n = run_len(s.skip(1), word_char_p());
            if 1 + n < s.len() && s[1 + n as int] == '{' {
                let h = run_len(s.skip(2 + n as int), not_char_p('}'));
                2 + n + h < s.len() && hints_closed(s.skip(3 + n + h as int))
            } else {
                hints_closed(s.skip(1 + n as int))
            }
        } else {
            let n = if is_word_char(c) {
                run_len(s, word_char_p())
            } else {
                run_len(s, symbol_char_p())
            };
            hints_closed(s.skip(n as int))
        }
    }
}

#[via_fn]
proof fn hints_closed_decreases(s: Seq<char>) {
    if s.len() > 0 {
        lemma_run_len(s.skip(1), not_char_p('\n'));
        lemma_run_len(s.skip(1), not_char_p('\''));
        lemma_run_len(s.skip(1), word_char_p());
        let n = run_len(s.skip(1), word_char_p());
        if 1 + n < s.len() {
            lemma_run_len(s.skip(2 + n as int), not_char_p('}'));
        }
        lemma_run_len(s, word_char_p());
        lemma_run_len(s, symbol_char_p());
    }
}

/// A lone comment yields no tokens.
proof fn lemma_tokenize_comment_only(c: Seq<char>)
    requires
        !c.contains('\n'),
    ensures
        spec_tokenize(seq!['~'] + c) == Seq::<TokenModel>::empty(),
{
    let s = seq!['~'] + c;
    assert(s[0] == '~');
    assert(s.skip(1) =~= c);
    assert forall|j: int| 0 <= j < c.len() implies not_char_p('\n')(#[trigger] c[j]) by {
        if c[j] == '\n' {
            assert(c.contains('\n'));
        }
    }
    lemma_run_len_is(c, not_char_p('\n'), c.len());
}

/// The scan of a concatenation splits where the left part leaves no
/// construct open and the right part begins with a break character.
pub proof fn lemma_tokenize_concat(a: Seq<char>, b: Seq<char>)
    requires
        scan_closed(a),
        b.len() > 0 ==> is_break_char(b[0]),
    ensures
        spec_tokenize(a + b) == spec_tokenize(a) + spec_tokenize(b),
    decreases a.len(),
{
    if b.len() == 0 {
        assert(a + b =~= a);
        assert(b =~= Seq::<char>::empty());
        assert(spec_tokenize(a) + spec_tokenize(Seq::<char>::empty()) =~= spec_tokenize(a));
        return;
    }
    lemma_break_char_stops_runs(b[0]);
    if a.len() == 0 {
        assert(a + b =~= b);
        assert(spec_tokenize(Seq::<char>::empty()) + spec_tokenize(b) =~= spec_tokenize(b));
        return;
    }
    let s = a + b;
    let c0 = a[0];
    assert(s[0] == c0);
    if is_space_char(c0) {
        assert(s.skip(1) =~= a.skip(1) + b);
        lemma_tokenize_concat(a.skip(1), b);
    } else if c0 == '~' {
        let k = run_len(a.skip(1), not_char_p('\n'));
        lemma_run_len(a.skip(1), not_char_p('\n'));
        assert(s.skip(1) =~= a.skip(1) + b);
        lemma_run_len_concat(a.skip(1), b, not_char_p('\n'));
        assert(run_len(s.skip(1), not_char_p('\n')) == k);
        assert(s.skip(2 + k as int) =~= a.skip(2 + k as int) + b);
        lemma_tokenize_concat(a.skip(2 + k as int), b);
    } else if c0 == '\'' {
        let k = run_len(a.skip(1), not_char_p('\''));
        lemma_run_len(a.skip(1), not_char_p('\''));
        assert(s.skip(1) =~= a.skip(1) + b);
        lemma_run_len_concat(a.skip(1), b, not_char_p('\''));
        assert(run_len(s.skip(1), not_char_p('\'')) == k);
        assert(s.subrange(1, 1 + k as int) =~= a.subrange(1, 1 + k as int));
        assert(s.skip(2 + k as int) =~= a.skip(2 + k as int) + b);
        lemma_tokenize_concat(a.skip(2 + k as int), b);
        let tok = TokenModel { kind: crate::token::TokenType::Literal, value: a.subrange(1, 1 + k as int) };
        assert(seq![tok] + (spec_tokenize(a.skip(2 + k as int)) + spec_tokenize(b)) =~= (seq![tok]
            + spec_tokenize(a.skip(2 + k as int))) + spec_tokenize(b));
    } else if c0 == '@' {
        let n = run_len(a.skip(1), word_char_p());
        lemma_run_len(a.skip(1), word_char_p());
        assert(s.skip(1) =~= a.skip(1) + b);
        lemma_run_len_concat(a.skip(1), b, word_char_p());
        if n < a.len() - 1 {
            assert(run_len(s.skip(1), word_char_p()) == n);
            assert(s[1 + n as int] == a[1 + n as int]);
            assert(s.subrange(1, 1 + n as int) =~= a.subrange(1, 1 + n as int));
            let name = TokenModel {
                kind: crate::token::TokenType::Variable,
                value: a.subrange(1, 1 + n as int),
            };
            if a[1 + n as int] == '{' {
                let h = run_len(a.skip(2 + n as int), not_char_p('}'));
                lemma_run_len(a.skip(2 + n as int), not_char_p('}'));
                assert(s.skip(2 + n as int) =~= a.skip(2 + n as int) + b);
                lemma_run_len_concat(a.skip(2 + n as int), b, not_char_p('}'));
                assert(run_len(s.skip(2 + n as int), not_char_p('}')) == h);
                assert(s.subrange(2 + n as int, 2 + n + h as int) =~= a.subrange(
                2 + n as int, 2 + n + h as int));
                assert(s.skip(3 + n + h as int) =~= a.skip(3 + n + h as int) + b);
                lemma_tokenize_concat(a.skip(3 + n + h as int), b);
                let hint = TokenModel {
                    kind: crate::token::TokenType::Interpolation,
                    value: a.subrange(2 + n as int, 2 + n + h as int),
                };
                assert(seq![name, hint] + (spec_tokenize(a.skip(3 + n + h as int))
                    + spec_tokenize(b)) =~= (seq![name, hint] + spec_tokenize(
                a.skip(3 + n + h as int))) + spec_tokenize(b));
            } else {
                assert(s.skip(1 + n as int) =~= a.skip(1 + n as int) + b);
                lemma_tokenize_concat(a.skip(1 + n as int), b);
                assert(seq![name] + (spec_tokenize(a.skip(1 + n as int)) + spec_tokenize(b)) =~= (
                seq![name] + spec_tokenize(a.skip(1 + n as int))) + spec_tokenize(b));
            }
        } else {
            // the name runs to the end of `a`; the break character in `b`
            // stops the run, and cannot be the `{` of a hint
            assert(n == a.len() - 1);
            assert(run_len(b, word_char_p()) == 0);
            assert(run_len(s.skip(1), word_char_p()) == n);
            assert(s[1 + n as int] == b[0]);
            assert(s[1 + n as int] != '{');
            assert(s.subrange(1, 1 + n as int) =~= a.subrange(1, 1 + n as int));
            let name = TokenModel {
                kind: crate::token::TokenType::Variable,
                value: a.subrange(1, 1 + n as int),
            };
            assert(s.skip(1 + n as int) =~= b);
            assert(a.skip(1 + n as int) =~= Seq::<char>::empty());
            assert(spec_tokenize(a) == seq![name] + spec_tokenize(Seq::<char>::empty()));
            assert(seq![name] + spec_tokenize(b) =~= (seq![name] + spec_tokenize(
            Seq::<char>::empty())) + spec_tokenize(b));
        }
    } else {
        let ghost p = if is_word_char(c0) { word_char_p() } else { symbol_char_p() };
        assert(is_word_char(c0) || is_symbol_char(c0));
        let n = run_len(a, p);
        lemma_run_len(a, p);
        lemma_run_len_concat(a, b, p);
        assert(n >= 1);
        if n < a.len() {
            assert(run_len(s, p) == n);
        } else {
            assert(run_len(b, p) == 0);
            assert(run_len(s, p) == n);
        }
        assert(s.subrange(0, n as int) =~= a.subrange(0, n as int));
        let w = a.subrange(0, n as int);
        let tok = TokenModel { kind: crate::token::spec_classify_word(w), value: w };
        assert(s.skip(n as int) =~= a.skip(n as int) + b);
        lemma_tokenize_concat(a.skip(n as int), b);
        assert(seq![tok] + (spec_tokenize(a.skip(n as int)) + spec_tokenize(b)) =~= (seq![tok]
            + spec_tokenize(a.skip(n as int))) + spec_tokenize(b));
    }
}

/// A wholly-whitespace prefix contributes nothing to the scan.
proof fn lemma_whitespace_prefix(w: Seq<char>, b: Seq<char>)
    requires
        forall|j: int| 0 <= j < w.len() ==> is_space_char(#[trigger] w[j]),
    ensures
        spec_tokenize(w + b) == spec_tokenize(b),
    decreases w.len(),
{
    if w.len() == 0 {
        assert(w + b =~= b);
    } else {
        let s = w + b;
        assert(s[0] == w[0]);
        assert(s.skip(1) =~= w.skip(1) + b);
        assert forall|j: int| 0 <= j < w.skip(1).len() implies is_space_char(
        #[trigger] w.skip(1)[j]) by {
            assert(w.skip(1)[j] == w[j + 1]);
        }
        lemma_whitespace_prefix(w.skip(1), b);
    }
}

/// Idempotent whitespace: between two tokens, one run of whitespace is
/// as good as any other — the token sequence does not change.
pub proof fn lemma_idempotent_whitespace(a: Seq<char>, w1: Seq<char>, w2: Seq<char>, b: Seq<char>)
    requires
        scan_closed(a),
        w1.len() > 0,
        w2.len() > 0,
        forall|j: int| 0 <= j < w1.len() ==> is_space_char(#[trigger] w1[j]),
        forall|j: int| 0 <= j < w2.len() ==> is_space_char(#[trigger] w2[j]),
    ensures
        spec_tokenize(a + w1 + b) == spec_tokenize(a + w2 + b),
{
    assert((w1 + b)[0] == w1[0]);
    assert((w2 + b)[0] == w2[0]);
    lemma_tokenize_concat(a, w1 + b);
    lemma_tokenize_concat(a, w2 + b);
    assert(a + w1 + b =~= a + (w1 + b));
    assert(a + w2 + b =~= a + (w2 + b));
    lemma_whitespace_prefix(w1, b);
    lemma_whitespace_prefix(w2, b);
}

/// Comment stripping: appending a `~` comment (holding no newline) to a
/// source text without quotes and with every variable hint closed does
/// not change the token sequence.
pub proof fn lemma_comment_stripping(s: Seq<char>, c: Seq<char>)
    requires
        !s.contains('\''),
        hints_closed(s),
        !c.contains('\n'),
    ensures
        spec_tokenize(s + (seq!['~'] + c)) == spec_tokenize(s),
    decreases s.len(),
{
    let t = seq!['~'] + c;
    let x = s + t;
    if s.len() == 0 {
        assert(x =~= t);
        lemma_tokenize_comment_only(c);
        return;
    }
    let c0 = s[0];
    assert(x[0] == c0);
    assert(t[0] == '~');
    if is_space_char(c0) {
        assert(x.skip(1) =~= s.skip(1) + t);
        lemma_not_contains_skip(s, 1, '\'');
        lemma_comment_stripping(s.skip(1), c);
    } else if c0 == '~' {
        let k = run_len(s.skip(1), not_char_p('\n'));
        lemma_run_len(s.skip(1), not_char_p('\n'));
        assert(x.skip(1) =~= s.skip(1) + t);
        if 1 + k == s.len() {
            // the comment in `s` runs to its end and swallows the appended
            // comment as well: no token on either side
            assert forall|j: int| 0 <= j < x.skip(1).len() implies not_char_p('\n')(
            #[trigger] x.skip(1)[j]) by {
                if j < s.len() - 1 {
                    assert(x.skip(1)[j] == s.skip(1)[j]);
                } else if j == s.len() - 1 {
                    assert(x.skip(1)[j] == '~');
                } else {
                    assert(x.skip(1)[j] == c[j - s.len()]);
                    if c[j - s.len()] == '\n' {
                        assert(c.contains('\n'));
                    }
                }
            }
            lemma_run_len_is(x.skip(1), not_char_p('\n'), x.skip(1).len());
        } else {
            lemma_run_len_concat(s.skip(1), t, not_char_p('\n'));
            assert(run_len(x.skip(1), not_char_p('\n')) == k);
            assert(x.skip(2 + k as int) =~= s.skip(2 + k as int) + t);
            lemma_not_contains_skip(s, 2 + k as int, '\'');
            lemma_comment_stripping(s.skip(2 + k as int), c);
        }
    } else if c0 == '\'' {
        assert(s.contains('\''));
    } else if c0 == '@' {
        let n = run_len(s.skip(1), word_char_p());
        lemma_run_len(s.skip(1), word_char_p());
        assert(x.skip(1) =~= s.skip(1) + t);
        lemma_run_len_concat(s.skip(1), t, word_char_p());
        if n < s.len() - 1 {
            assert(run_len(x.skip(1), word_char_p()) == n);
            assert(x[1 + n as int] == s[1 + n as int]);
            assert(x.subrange(1, 1 + n as int) =~= s.subrange(1, 1 + n as int));
            if s[1 + n as int] == '{' {
                let h = run_len(s.skip(2 + n as int), not_char_p('}'));
                lemma_run_len(s.skip(2 + n as int), not_char_p('}'));
                // hints_closed: the `}` lies inside `s`
                assert(2 + n + h < s.len());
                assert(x.skip(2 + n as int) =~= s.skip(2 + n as int) + t);
                lemma_run_len_concat(s.skip(2 + n as int), t, not_char_p('}'));
                assert(run_len(x.skip(2 + n as int), not_char_p('}')) == h);
                assert(x.subrange(2 + n as int, 2 + n + h as int) =~= s.subrange(
                2 + n as int, 2 + n + h as int));
                assert(x.skip(3 + n + h as int) =~= s.skip(3 + n + h as int) + t);
                lemma_not_contains_skip(s, 3 + n + h as int, '\'');
                lemma_comment_stripping(s.skip(3 + n + h as int), c);
                } else {
                assert(x.skip(1 + n as int) =~= s.skip(1 + n as int) + t);
                lemma_not_contains_skip(s, 1 + n as int, '\'');
                lemma_comment_stripping(s.skip(1 + n as int), c);
                }
        } else {
            assert(n == s.len() - 1);
            assert(run_len(t, word_char_p()) == 0);
            assert(run_len(x.skip(1), word_char_p()) == n);
            assert(x[1 + n as int] == '~');
            assert(x.subrange(1, 1 + n as int) =~= s.subrange(1, 1 + n as int));
            assert(x.skip(1 + n as int) =~= t);
            assert(s.skip(1 + n as int) =~= Seq::<char>::empty());
            lemma_tokenize_comment_only(c);
            assert(spec_tokenize(t) == Seq::<TokenModel>::empty());
            assert(spec_tokenize(x.skip(1 + n as int)) == Seq::<TokenModel>::empty());
            assert(spec_tokenize(s.skip(1 + n as int)) == Seq::<TokenModel>::empty());
            let namex = TokenModel { kind: crate::token::TokenType::Variable, value: x.subrange(1, 1 + n as int) };
            assert(spec_tokenize(x) == seq![namex] + spec_tokenize(x.skip(1 + n as int)));
            assert(spec_tokenize(s) == seq![namex] + spec_tokenize(s.skip(1 + n as int)));
        }
    } else {
        let ghost p = if is_word_char(c0) { word_char_p() } else { symbol_char_p() };
        assert(is_word_char(c0) || is_symbol_char(c0));
        let n = run_len(s, p);
        lemma_run_len(s, p);
        lemma_run_len_concat(s, t, p);
        assert(run_len(t, p) == 0);
        assert(run_len(x, p) == n);
        assert(x.subrange(0, n as int) =~= s.subrange(0, n as int));
        if n < s.len() {
            assert(x.skip(n as int) =~= s.skip(n as int) + t);
            lemma_not_contains_skip(s, n as int, '\'');
            lemma_comment_stripping(s.skip(n as int), c);
        } else {
            assert(x.skip(n as int) =~= t);
            assert(s.skip(n as int) =~= Seq::<char>::empty());
            lemma_tokenize_comment_only(c);
            assert(run_len(x, p) == n);
            assert(spec_tokenize(x.skip(n as int)) == Seq::<TokenModel>::empty());
            assert(spec_tokenize(s.skip(n as int)) == Seq::<TokenModel>::empty());
            let w = s.subrange(0, n as int);
            let tokx = TokenModel { kind: crate::token::spec_classify_word(w), value: w };
            assert(x.subrange(0, n as int) == w);
            assert(spec_tokenize(x) == seq![tokx] + spec_tokenize(x.skip(n as int)));
            assert(spec_tokenize(s) == seq![tokx] + spec_tokenize(s.skip(n as int)));
        }
    }
}

} // verus!
