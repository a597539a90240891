//! Character classes and small string helpers shared by the lexer and the
//! grammar parser.
//!
//! The language's word characters are the alphanumeric characters plus `_`
//! and `-`.  For characters outside the ASCII range the alphanumeric class
//! is taken from the standard library (see [`char_alphanumeric`]); inside
//! the ASCII range it is spelled out, which is what every proof in this
//! crate actually relies on.

use vstd::prelude::*;

verus! {

/// Whitespace as the lexer understands it: space, tab, newline.
pub open spec fn is_space_char(c: char) -> bool {
    c == ' ' || c == '\t' || c == '\n'
}

/// Whether a character beyond ASCII is alphanumeric; the truth of this
/// predicate is fixed by `char::is_alphanumeric` (Unicode `Alphabetic`
/// plus the numeric categories), which depends on the character alone.
pub uninterp spec fn unicode_alphanumeric(c: char) -> bool;

/// The ASCII alphanumeric characters: digits and letters.
pub open spec fn is_ascii_alphanumeric_char(c: char) -> bool {
    (48 <= c as u32 && c as u32 <= 57)  // '0' ..= '9'
    || (65 <= c as u32 && c as u32 <= 90)  // 'A' ..= 'Z'
    || (97 <= c as u32 && c as u32 <= 122)  // 'a' ..= 'z'
}

/// What `char::is_alphanumeric` returns.
pub open spec fn is_alphanumeric_char(c: char) -> bool {
    if (c as u32) < 128 {
        is_ascii_alphanumeric_char(c)
    } else {
        unicode_alphanumeric(c)
    }
}

/// Relies on `char::is_alphanumeric`: its result depends on the character
/// alone, and on ASCII characters it accepts exactly the digits and
/// letters.
#[verifier::external_body]
pub(crate) fn char_alphanumeric(c: char) -> (r: bool)
    ensures
        r == is_alphanumeric_char(c),
        c as u32 >= 128 ==> r == unicode_alphanumeric(c),
{
    c.is_alphanumeric()
}

/// A word character: alphanumeric, `_` or `-`.
pub open spec fn is_word_char(c: char) -> bool {
    is_alphanumeric_char(c) || c == '_' || c == '-'
}

pub fn word_char(c: char) -> (r: bool)
    ensures
        r == is_word_char(c),
{
    char_alphanumeric(c) || c == '_' || c == '-'
}

/// An ASCII decimal digit.
pub open spec fn is_digit_char(c: char) -> bool {
    48 <= c as u32 && c as u32 <= 57
}

pub fn digit_char(c: char) -> (r: bool)
    ensures
        r == is_digit_char(c),
{
    let u: u32 = c as u32;
    48 <= u && u <= 57
}

/// Whether a character beyond ASCII is whitespace; the truth of this
/// predicate is fixed by `char::is_whitespace`, which depends on the
/// character alone.
pub uninterp spec fn unicode_whitespace(c: char) -> bool;

/// What `char::is_whitespace` returns: on ASCII exactly the characters
/// with the `White_Space` property, tab through carriage return and space.
pub open spec fn is_whitespace_char(c: char) -> bool {
    if (c as u32) < 128 {
        9 <= c as u32 && c as u32 <= 13 || c == ' '
    } else {
        unicode_whitespace(c)
    }
}

/// Relies on `char::is_whitespace`: its result depends on the character
/// alone, and on ASCII characters it accepts exactly tab, line feed,
/// vertical tab, form feed, carriage return and space.
#[verifier::external_body]
pub(crate) fn char_whitespace(c: char) -> (r: bool)
    ensures
        r == is_whitespace_char(c),
        c as u32 >= 128 ==> r == unicode_whitespace(c),
{
    c.is_whitespace()
}

/// The lexer's whitespace class as a predicate value, for [`run_len`].
pub open spec fn space_char_p() -> spec_fn(char) -> bool {
    |c: char| is_space_char(c)
}

/// The word-character class as a predicate value, for [`run_len`].
pub open spec fn word_char_p() -> spec_fn(char) -> bool {
    |c: char| is_word_char(c)
}

/// The digit class as a predicate value, for [`run_len`].
pub open spec fn digit_char_p() -> spec_fn(char) -> bool {
    |c: char| is_digit_char(c)
}

/// "Any character but `c0`" as a predicate value, for [`run_len`]; a run
/// of it ends at the first occurrence of `c0`.
pub open spec fn not_char_p(c0: char) -> spec_fn(char) -> bool {
    |c: char| c != c0
}

/// Length of the longest prefix of `s` whose characters all satisfy `p`.
pub open spec fn run_len(s: Seq<char>, p: spec_fn(char) -> bool) -> nat
    decreases s.len(),
{
    if s.len() > 0 && p(s[0]) {
        1 + run_len(s.skip(1), p)
    } else {
        0
    }
}

/// The defining properties of [`run_len`]: it is in bounds, every
/// character before it satisfies `p`, and the character at it (if any)
/// does not.
pub proof fn lemma_run_len(s: Seq<char>, p: spec_fn(char) -> bool)
    ensures
        run_len(s, p) <= s.len(),
        forall|j: int| 0 <= j < run_len(s, p) ==> p(#[trigger] s[j]),
        run_len(s, p) < s.len() ==> !p(s[run_len(s, p) as int]),
    decreases s.len(),
{
    if s.len() > 0 && p(s[0]) {
        lemma_run_len(s.skip(1), p);
        assert forall|j: int| 0 <= j < run_len(s, p) implies p(#[trigger] s[j]) by {
            if j > 0 {
                assert(s.skip(1)[j - 1] == s[j]);
            }
        }
        if run_len(s, p) < s.len() {
            assert(s.skip(1)[run_len(s, p) - 1] == s[run_len(s, p) as int]);
        }
    }
}

/// Those properties determine [`run_len`] uniquely.
pub proof fn lemma_run_len_is(s: Seq<char>, p: spec_fn(char) -> bool, n: nat)
    requires
        n <= s.len(),
        forall|j: int| 0 <= j < n ==> p(#[trigger] s[j]),
        n < s.len() ==> !p(s[n as int]),
    ensures
        run_len(s, p) == n,
    decreases s.len(),
{
    if n == 0 {
    } else {
        assert(p(s[0]));
        assert forall|j: int| 0 <= j < n - 1 implies p(#[trigger] s.skip(1)[j]) by {
            assert(s.skip(1)[j] == s[j + 1]);
        }
        if n < s.len() {
            assert(s.skip(1)[n - 1] == s[n as int]);
        }
        lemma_run_len_is(s.skip(1), p, (n - 1) as nat);
    }
}

/// How a run behaves over a concatenation: a run that stops inside `a`
/// is unchanged; a run that covers all of `a` continues into `b`.
pub proof fn lemma_run_len_concat(a: Seq<char>, b: Seq<char>, p: spec_fn(char) -> bool)
    ensures
        run_len(a + b, p) == if run_len(a, p) < a.len() {
            run_len(a, p) as int
        } else {
            a.len() + run_len(b, p) as int
        },
{
    lemma_run_len(a, p);
    lemma_run_len(b, p);
    let n = run_len(a, p);
    if n < a.len() {
        assert forall|j: int| 0 <= j < n implies p(#[trigger] (a + b)[j]) by {
            assert((a + b)[j] == a[j]);
        }
        assert((a + b)[n as int] == a[n as int]);
        lemma_run_len_is(a + b, p, n);
    } else {
        let m = a.len() + run_len(b, p);
        assert forall|j: int| 0 <= j < m implies p(#[trigger] (a + b)[j]) by {
            if j < a.len() {
                assert((a + b)[j] == a[j]);
            } else {
                assert((a + b)[j] == b[j - a.len()]);
            }
        }
        if m < (a + b).len() {
            assert((a + b)[m as int] == b[run_len(b, p) as int]);
        }
        lemma_run_len_is(a + b, p, m as nat);
    }
}

/// `contains` transfers down to a suffix: if the suffix of `s` from `m`
/// holds `ch`, so does `s`.
pub proof fn lemma_not_contains_skip(s: Seq<char>, m: int, ch: char)
    requires
        0 <= m <= s.len(),
        !s.contains(ch),
    ensures
        !s.skip(m).contains(ch),
{
    if s.skip(m).contains(ch) {
        let i = choose|i: int| 0 <= i < s.skip(m).len() && s.skip(m)[i] == ch;
        assert(s[m + i] == ch);
        assert(s.contains(ch));
    }
}

/// The decimal digit character of a value below ten.
pub open spec fn dec_digit(d: int) -> char {
    if d == 0 {
        '0'
    } else if d == 1 {
        '1'
    } else if d == 2 {
        '2'
    } else if d == 3 {
        '3'
    } else if d == 4 {
        '4'
    } else if d == 5 {
        '5'
    } else if d == 6 {
        '6'
    } else if d == 7 {
        '7'
    } else if d == 8 {
        '8'
    } else {
        '9'
    }
}

/// The decimal rendering of a number, most significant digit first.
pub open spec fn spec_dec(n: nat) -> Seq<char>
    decreases n,
{
    if n < 10 {
        seq![dec_digit(n as int)]
    } else {
        spec_dec(n / 10).push(dec_digit((n % 10) as int))
    }
}

fn dec_digit_char(d: u64) -> (r: char)
    requires
        d < 10,
    ensures
        r == dec_digit(d as int),
{
    if d == 0 {
        '0'
    } else if d == 1 {
        '1'
    } else if d == 2 {
        '2'
    } else if d == 3 {
        '3'
    } else if d == 4 {
        '4'
    } else if d == 5 {
        '5'
    } else if d == 6 {
        '6'
    } else if d == 7 {
        '7'
    } else if d == 8 {
        '8'
    } else {
        '9'
    }
}

/// Render a number in decimal, as [`spec_dec`] describes.
pub fn u64_to_string(n: u64) -> (r: String)
    ensures
        r@ == spec_dec(n as nat),
    decreases n,
{
    if n < 10 {
        char_to_string(dec_digit_char(n))
    } else {
        let mut s = u64_to_string(n / 10);
        push_char(&mut s, dec_digit_char(n % 10));
        s
    }
}

/// The parts joined with `sep` between each pair.
pub open spec fn spec_join(parts: Seq<Seq<char>>, sep: Seq<char>) -> Seq<char>
    decreases parts.len(),
{
    if parts.len() == 0 {
        Seq::empty()
    } else if parts.len() == 1 {
        parts[0]
    } else {
        parts[0] + sep + spec_join(parts.skip(1), sep)
    }
}

/// Joining one more part appends a separator and the part.
pub proof fn lemma_join_push(parts: Seq<Seq<char>>, sep: Seq<char>, x: Seq<char>)
    ensures
        spec_join(parts.push(x), sep) == if parts.len() == 0 {
            x
        } else {
            spec_join(parts, sep) + sep + x
        },
    decreases parts.len(),
{
    if parts.len() == 0 {
        assert(parts.push(x)[0] == x);
    } else if parts.len() == 1 {
        assert(parts.push(x)[0] == parts[0]);
        assert(parts.push(x).skip(1) =~= seq![x]);
        assert(spec_join(seq![x], sep) == x);
        assert(spec_join(parts, sep) == parts[0]);
    } else {
        lemma_join_push(parts.skip(1), sep, x);
        assert(parts.push(x).skip(1) =~= parts.skip(1).push(x));
        assert(parts.push(x)[0] == parts[0]);
        assert((parts[0] + sep + (spec_join(parts.skip(1), sep) + sep + x)) =~= ((parts[0] + sep
            + spec_join(parts.skip(1), sep)) + sep + x));
    }
}

/// Relies on `String::push`: it appends the one character to the
/// string.
#[verifier::external_body]
pub(crate) fn push_char(s: &mut String, c: char)
    ensures
        final(s)@ == old(s)@.push(c),
{
    s.push(c)
}

/// The one-character string of `c`.
pub fn char_to_string(c: char) -> (r: String)
    ensures
        r@ == seq![c],
{
    let mut s = String::new();
    push_char(&mut s, c);
    proof {
        assert(Seq::<char>::empty().push(c) =~= seq![c]);
    }
    s
}

/// Character-wise string equality, hence equality of the two views.
pub fn str_eq(a: &str, b: &str) -> (r: bool)
    ensures
        r == (a@ == b@),
{
    let alen = a.unicode_len();
    let blen = b.unicode_len();
    if alen != blen {
        proof {
            if a@ == b@ {
                assert(a@.len() == b@.len());
            }
        }
        return false;
    }
    let mut i: usize = 0;
    while i < alen
        invariant
            alen == a@.len(),
            blen == b@.len(),
            alen == blen,
            i <= alen,
            forall|j: int| 0 <= j < i ==> a@[j] == b@[j],
        decreases alen - i,
    {
        if a.get_char(i) != b.get_char(i) {
            proof {
                if a@ == b@ {
                    assert(a@[i as int] == b@[i as int]);
                }
            }
            return false;
        }
        i += 1;
    }
    proof {
        assert(a@ =~= b@);
    }
    true
}

} // verus!
