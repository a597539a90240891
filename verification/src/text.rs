//! The text module of the scripting language's standard library:
//! string creation, transformation, inspection, matching and
//! formatting.
//!
//! Lengths and positions count characters, not bytes.  Case mapping
//! and regular-expression matching lean on outside code — their
//! results are named ([`lower_of`], [`regex_match`], ...) and every
//! function's contract is exact in those names; everything else is
//! spelled out and proved.

use vstd::prelude::*;
use crate::chars::{
    is_whitespace_char, char_whitespace, char_to_string, str_eq, run_len, lemma_run_len_is,
    spec_join, lemma_join_push,
};

verus! {

broadcast use vstd::std_specs::vec::group_vec_axioms;

/// Why a text operation failed.
#[derive(Debug, Clone, PartialEq)]
pub enum TextError {
    /// the pattern is not a valid regular expression
    InvalidPattern(String),
    /// a position lies outside the string
    IndexOutOfBounds,
    /// a format string cannot be applied
    InvalidFormat(String),
}

impl TextError {
    /// The message the error prints, its code first.
    pub fn message(&self) -> (r: String)
        ensures
            r@ == (match self {
                TextError::InvalidPattern(p) => "TEXT-001: Invalid regex pattern: "@ + p@,
                TextError::IndexOutOfBounds => "TEXT-002: Index out of bounds"@,
                TextError::InvalidFormat(f) => "TEXT-003: Invalid format: "@ + f@,
            }),
    {
        match self {
            TextError::InvalidPattern(p) => {
                let mut m = String::from_str("TEXT-001: Invalid regex pattern: ");
                m.append(p.as_str());
                m
            },
            TextError::IndexOutOfBounds => String::from_str("TEXT-002: Index out of bounds"),
            TextError::InvalidFormat(f) => {
                let mut m = String::from_str("TEXT-003: Invalid format: ");
                m.append(f.as_str());
                m
            },
        }
    }
}

/// The whitespace class as a predicate value, for [`run_len`].
pub open spec fn white_p() -> spec_fn(char) -> bool {
    |c: char| is_whitespace_char(c)
}

// What the case mappings of the standard library return; each depends
// on the characters of its argument alone.

pub uninterp spec fn upper_of(s: Seq<char>) -> Seq<char>;

pub uninterp spec fn lower_of(s: Seq<char>) -> Seq<char>;

/// Convert to uppercase.  Relies on `str::to_uppercase`: the result is
/// a function of the characters alone, and of the empty string it is
/// empty.
#[verifier::external_body]
pub fn upper(s: &str) -> (r: String)
    ensures
        r@ == upper_of(s@),
        s@.len() == 0 ==> r@.len() == 0,
{
    s.to_uppercase()
}

/// Convert to lowercase.  Relies on `str::to_lowercase`: the result is
/// a function of the characters alone, and of the empty string it is
/// empty.
#[verifier::external_body]
pub fn lower(s: &str) -> (r: String)
    ensures
        r@ == lower_of(s@),
        s@.len() == 0 ==> r@.len() == 0,
{
    s.to_lowercase()
}

/// Concatenate the parts, nothing between them.
pub fn concat(parts: &[&str]) -> (r: String)
    ensures
        r@ == spec_join(parts.deep_view(), Seq::<char>::empty()),
{
    let ghost pdv = parts.deep_view();
    let mut out = String::new();
    let n = parts.len();
    let mut i: usize = 0;
    proof {
        assert(pdv.len() == parts@.len());
        assert(pdv.take(0) =~= Seq::<Seq<char>>::empty());
    }
    while i < n
        invariant
            n == parts@.len(),
            pdv == parts.deep_view(),
            pdv.len() == parts@.len(),
            i <= n,
            out@ == spec_join(pdv.take(i as int), Seq::<char>::empty()),
        decreases n - i,
    {
        let ghost pref = pdv.take(i as int);
        out.append(parts[i]);
        proof {
            assert(pdv[i as int] == parts@[i as int]@);
            lemma_join_push(pref, Seq::<char>::empty(), pdv[i as int]);
            assert(pref.push(pdv[i as int]) =~= pdv.take(i as int + 1));
            if i > 0 {
                assert(out@ =~= spec_join(pdv.take(i as int + 1), Seq::<char>::empty()));
            }
        }
        i += 1;
    }
    proof {
        assert(pdv.take(n as int) =~= pdv);
    }
    out
}

/// The length of the string, in characters.
pub fn length(s: &str) -> (r: usize)
    ensures
        r == s@.len(),
{
    s.unicode_len()
}

/// Join the parts with the separator between each pair.
pub fn join(parts: &[String], separator: &str) -> (r: String)
    ensures
        r@ == spec_join(parts.deep_view(), separator@),
{
    let ghost pdv = parts.deep_view();
    let mut out = String::new();
    let n = parts.len();
    let mut i: usize = 0;
    proof {
        assert(pdv.len() == parts@.len());
        assert(pdv.take(0) =~= Seq::<Seq<char>>::empty());
    }
    while i < n
        invariant
            n == parts@.len(),
            pdv == parts.deep_view(),
            pdv.len() == parts@.len(),
            i <= n,
            out@ == spec_join(pdv.take(i as int), separator@),
        decreases n - i,
    {
        let ghost pref = pdv.take(i as int);
        if i > 0 {
            out.append(separator);
        }
        out.append(parts[i].as_str());
        proof {
            assert(pdv[i as int] == parts@[i as int]@);
            lemma_join_push(pref, separator@, pdv[i as int]);
            assert(pref.push(pdv[i as int]) =~= pdv.take(i as int + 1));
        }
        i += 1;
    }
    proof {
        assert(pdv.take(n as int) =~= pdv);
    }
    out
}

/// The position of the first occurrence of `d` in `s`, if any; the
/// empty pattern occurs at position zero.
pub open spec fn spec_find(s: Seq<char>, d: Seq<char>) -> Option<int>
    decreases s.len(),
{
    if d.len() > s.len() {
        None
    } else if s.take(d.len() as int) == d {
        Some(0)
    } else if s.len() == d.len() {
        None
    } else {
        match spec_find(s.skip(1), d) {
            Some(i) => Some(i + 1),
            None => None,
        }
    }
}

/// What [`spec_find`] returns: the first position where `d` occurs,
/// or nothing when it occurs nowhere.
pub proof fn lemma_spec_find(s: Seq<char>, d: Seq<char>)
    ensures
        ({
            match spec_find(s, d) {
                Some(i) => 0 <= i && i + d.len() <= s.len() && s.subrange(i, i + d.len()) == d
                    && forall|j: int|
                    0 <= j < i ==> #[trigger] s.subrange(j, j + d.len()) != d,
                None => forall|j: int|
                    0 <= j && j + d.len() <= s.len() ==> #[trigger] s.subrange(j, j + d.len())
                        != d,
            }
        }),
    decreases s.len(),
{
    if d.len() > s.len() {
    } else if s.take(d.len() as int) == d {
        assert(s.subrange(0, d.len() as int) =~= s.take(d.len() as int));
    } else if s.len() == d.len() {
        assert forall|j: int| 0 <= j && j + d.len() <= s.len() implies #[trigger] s.subrange(
            j,
            j + d.len(),
        ) != d by {
            assert(j == 0);
            assert(s.subrange(0, d.len() as int) =~= s.take(d.len() as int));
        }
    } else {
        lemma_spec_find(s.skip(1), d);
        assert(s.subrange(0, d.len() as int) =~= s.take(d.len() as int));
        match spec_find(s.skip(1), d) {
            Some(i) => {
                assert(s.skip(1).subrange(i, i + d.len()) =~= s.subrange(i + 1, i + 1 + d.len()));
                assert forall|j: int| 0 <= j < i + 1 implies #[trigger] s.subrange(j, j + d.len())
                    != d by {
                    if j > 0 {
                        assert(s.skip(1).subrange(j - 1, j - 1 + d.len()) =~= s.subrange(
                        j, j + d.len()));
                    }
                }
            },
            None => {
                assert forall|j: int| 0 <= j && j + d.len() <= s.len() implies #[trigger]
                    s.subrange(j, j + d.len()) != d by {
                    if j > 0 {
                        assert(s.skip(1).subrange(j - 1, j - 1 + d.len()) =~= s.subrange(
                        j, j + d.len()));
                    }
                }
            },
        }
    }
}

/// The first-occurrence description determines [`spec_find`] uniquely.
pub proof fn lemma_spec_find_is(s: Seq<char>, d: Seq<char>, r: Option<int>)
    requires
        ({
            match r {
                Some(i) => 0 <= i && i + d.len() <= s.len() && s.subrange(i, i + d.len()) == d
                    && forall|j: int|
                    0 <= j < i ==> #[trigger] s.subrange(j, j + d.len()) != d,
                None => forall|j: int|
                    0 <= j && j + d.len() <= s.len() ==> #[trigger] s.subrange(j, j + d.len())
                        != d,
            }
        }),
    ensures
        spec_find(s, d) == r,
{
    lemma_spec_find(s, d);
    match spec_find(s, d) {
        Some(i1) => {
            match r {
                Some(i2) => {
                    if i1 < i2 {
                        assert(s.subrange(i1, i1 + d.len()) == d);
                    } else if i2 < i1 {
                        assert(s.subrange(i2, i2 + d.len()) == d);
                    }
                },
                None => {
                    assert(s.subrange(i1, i1 + d.len()) == d);
                },
            }
        },
        None => {
            match r {
                Some(i2) => {
                    assert(s.subrange(i2, i2 + d.len()) == d);
                },
                None => {},
            }
        },
    }
}

/// How a string splits around a delimiter: the text before each
/// occurrence, then the text after the last one.  The empty delimiter
/// splits around every character, with an empty part at each end.
pub open spec fn spec_split(s: Seq<char>, d: Seq<char>) -> Seq<Seq<char>>
    decreases s.len(),
        via spec_split_decreases
{
    if d.len() == 0 {
        seq![Seq::<char>::empty()] + Seq::new(s.len(), |i: int| seq![s[i]]) + seq![
            Seq::<char>::empty(),
        ]
    } else {
        match spec_find(s, d) {
            None => seq![s],
            Some(i) => seq![s.take(i)] + spec_split(s.skip(i + d.len()), d),
        }
    }
}

#[via_fn]
proof fn spec_split_decreases(s: Seq<char>, d: Seq<char>) {
    if d.len() > 0 {
        lemma_spec_find(s, d);
    }
}

/// Find the first occurrence of `d` at or after `from`, by trying each
/// position in turn.
fn find_from(s: &str, d: &str, from: usize) -> (r: Option<usize>)
    requires
        from <= s@.len(),
        d@.len() >= 1,
    ensures
        ({
            match r {
                Some(j) => from <= j && j + d@.len() <= s@.len() && s@.subrange(
                    j as int,
                    j + d@.len(),
                ) == d@ && forall|t: int|
                    from <= t < j ==> #[trigger] s@.subrange(t, t + d@.len()) != d@,
                None => forall|t: int|
                    from <= t && t + d@.len() <= s@.len() ==> #[trigger] s@.subrange(
                        t,
                        t + d@.len(),
                    ) != d@,
            }
        }),
{
    let len = s.unicode_len();
    let dlen = d.unicode_len();
    if dlen > len || from > len - dlen {
        return None;
    }
    let mut t = from;
    while t <= len - dlen
        invariant
            from <= t,
            t <= len,
            dlen <= len,
            len == s@.len(),
            dlen == d@.len(),
            dlen >= 1,
            forall|u: int| from <= u < t ==> #[trigger] s@.subrange(u, u + d@.len()) != d@,
        decreases len - t,
    {
        let seg = s.substring_char(t, t + dlen);
        if str_eq(seg, d) {
            return Some(t);
        }
        t += 1;
    }
    None
}

/// Split from `pos` on, as [`spec_split`] describes of the suffix.
fn split_from(s: &str, d: &str, pos: usize) -> (r: Vec<String>)
    requires
        pos <= s@.len(),
        d@.len() >= 1,
    ensures
        r.deep_view() == spec_split(s@.skip(pos as int), d@),
    decreases s@.len() - pos,
{
    let len = s.unicode_len();
    let dlen = d.unicode_len();
    let ghost tail = s@.skip(pos as int);
    match find_from(s, d, pos) {
        None => {
            let mut v: Vec<String> = Vec::new();
            v.push(String::from_str(s.substring_char(pos, len)));
            proof {
                assert forall|j: int| 0 <= j && j + d@.len() <= tail.len() implies #[trigger]
                    tail.subrange(j, j + d@.len()) != d@ by {
                    assert(tail.subrange(j, j + d@.len()) =~= s@.subrange(
                    pos + j, pos + j + d@.len()));
                }
                lemma_spec_find_is(tail, d@, None);
                assert(s@.subrange(pos as int, len as int) =~= tail);
                assert(v.deep_view() =~= seq![tail]);
            }
            v
        },
        Some(j) => {
            let part = String::from_str(s.substring_char(pos, j));
            let ghost pm = part@;
            let mut rest = split_from(s, d, j + dlen);
            let ghost rest_dv = rest.deep_view();
            let ghost rs = rest@;
            rest.insert(0, part);
            proof {
                assert(tail.subrange(j - pos, j - pos + d@.len()) =~= s@.subrange(
                j as int, j + d@.len()));
                assert forall|u: int| 0 <= u < j - pos implies #[trigger] tail.subrange(
                    u,
                    u + d@.len(),
                ) != d@ by {
                    assert(tail.subrange(u, u + d@.len()) =~= s@.subrange(
                    pos + u, pos + u + d@.len()));
                }
                lemma_spec_find_is(tail, d@, Some(j - pos));
                assert(tail.take(j - pos) =~= s@.subrange(pos as int, j as int));
                assert(tail.skip(j - pos + d@.len()) =~= s@.skip(j + dlen));
                assert forall|t: int| 0 <= t < rest.deep_view().len() implies rest.deep_view()[t]
                    == (seq![pm] + rest_dv)[t] by {
                    if t > 0 {
                        assert(rest@[t] == rs[t - 1]);
                    }
                }
                assert(rest.deep_view() =~= seq![pm] + rest_dv);
                assert(rest.deep_view() =~= spec_split(tail, d@));
            }
            rest
        },
    }
}

/// Split the string by the delimiter, as [`spec_split`] describes.
pub fn split(s: &str, delimiter: &str) -> (r: Vec<String>)
    ensures
        r.deep_view() == spec_split(s@, delimiter@),
{
    let len = s.unicode_len();
    if delimiter.unicode_len() == 0 {
        let mut v: Vec<String> = Vec::new();
        v.push(String::new());
        let mut i: usize = 0;
        proof {
            assert(v.deep_view() =~= seq![Seq::<char>::empty()] + Seq::new(
            0, |t: int| seq![s@[t]]));
        }
        while i < len
            invariant
                len == s@.len(),
                i <= len,
                v.deep_view() == seq![Seq::<char>::empty()] + Seq::new(
                    i as nat,
                    |t: int| seq![s@[t]],
                ),
            decreases len - i,
        {
            let ghost dv0 = v.deep_view();
            v.push(char_to_string(s.get_char(i)));
            proof {
                assert(v.deep_view() =~= dv0.push(seq![s@[i as int]]));
                assert(dv0.push(seq![s@[i as int]]) =~= seq![Seq::<char>::empty()] + Seq::new(
                i as nat + 1, |t: int| seq![s@[t]]));
            }
            i += 1;
        }
        let ghost dv1 = v.deep_view();
        v.push(String::new());
        proof {
            assert(v.deep_view() =~= dv1.push(Seq::<char>::empty()));
            assert(v.deep_view() =~= seq![Seq::<char>::empty()] + Seq::new(
            len as nat, |t: int| seq![s@[t]]) + seq![Seq::<char>::empty()]);
        }
        v
    } else {
        proof {
            assert(s@.skip(0) =~= s@);
        }
        split_from(s, delimiter, 0)
    }
}

/// What replacing is: the split parts joined with the replacement.
pub open spec fn spec_replace(s: Seq<char>, from: Seq<char>, to: Seq<char>) -> Seq<char> {
    spec_join(spec_split(s, from), to)
}

/// Replace every occurrence of `from` with `to`, as [`spec_replace`]
/// describes.
pub fn replace(s: &str, from: &str, to: &str) -> (r: String)
    ensures
        r@ == spec_replace(s@, from@, to@),
{
    let parts = split(s, from);
    join(parts.as_slice(), to)
}

/// Whether `s` holds `substring` anywhere; the empty string is held
/// everywhere.
pub fn contains(s: &str, substring: &str) -> (r: bool)
    ensures
        r == (spec_find(s@, substring@) is Some),
{
    if substring.unicode_len() == 0 {
        proof {
            assert(s@.take(0) =~= Seq::<char>::empty());
            assert(substring@ =~= Seq::<char>::empty());
        }
        true
    } else {
        let found = find_from(s, substring, 0);
        proof {
            match found {
                Some(j) => {
                    lemma_spec_find_is(s@, substring@, Some(j as int));
                },
                None => {
                    lemma_spec_find_is(s@, substring@, None);
                },
            }
        }
        match found {
            Some(_) => true,
            None => false,
        }
    }
}

/// Whether `s` begins with `prefix`.
pub fn starts_with(s: &str, prefix: &str) -> (r: bool)
    ensures
        r == (s@.len() >= prefix@.len() && s@.take(prefix@.len() as int) == prefix@),
{
    let len = s.unicode_len();
    let plen = prefix.unicode_len();
    if plen > len {
        return false;
    }
    str_eq(s.substring_char(0, plen), prefix)
}

/// Whether `s` ends with `suffix`.
pub fn ends_with(s: &str, suffix: &str) -> (r: bool)
    ensures
        r == (s@.len() >= suffix@.len() && s@.skip(s@.len() - suffix@.len()) == suffix@),
{
    let len = s.unicode_len();
    let plen = suffix.unicode_len();
    if plen > len {
        return false;
    }
    str_eq(s.substring_char(len - plen, len), suffix)
}

/// The substring from `start` to `end`, both inclusive, counted in
/// characters; out of range, the `IndexOutOfBounds` error.
pub fn slice(s: &str, start: usize, end: usize) -> (r: Result<String, TextError>)
    ensures
        ({
            match r {
                Ok(t) => start < s@.len() && end < s@.len() && start <= end && t@ == s@.subrange(
                    start as int,
                    end as int + 1,
                ),
                Err(e) => (start >= s@.len() || end >= s@.len() || start > end) && e
                    is IndexOutOfBounds,
            }
        }),
{
    let len = s.unicode_len();
    if start >= len || end >= len || start > end {
        return Err(TextError::IndexOutOfBounds);
    }
    Ok(String::from_str(s.substring_char(start, end + 1)))
}

/// The string without its leading and trailing whitespace; a wholly
/// whitespace string trims to nothing.
pub open spec fn spec_trim(s: Seq<char>) -> Seq<char> {
    let p = run_len(s, white_p());
    let q = run_len(s.reverse(), white_p());
    if p + q <= s.len() {
        s.subrange(p as int, s.len() - q)
    } else {
        Seq::empty()
    }
}

/// The string without its leading whitespace.
pub open spec fn spec_trim_start(s: Seq<char>) -> Seq<char> {
    s.skip(run_len(s, white_p()) as int)
}

/// The string without its trailing whitespace.
pub open spec fn spec_trim_end(s: Seq<char>) -> Seq<char> {
    s.take(s.len() - run_len(s.reverse(), white_p()))
}

/// Scan the leading whitespace run.
fn scan_white(s: &str) -> (p: usize)
    ensures
        p <= s@.len(),
        p == run_len(s@, white_p()),
{
    let len = s.unicode_len();
    let mut p: usize = 0;
    while p < len && char_whitespace(s.get_char(p))
        invariant
            p <= len,
            len == s@.len(),
            forall|t: int| 0 <= t < p ==> is_whitespace_char(#[trigger] s@[t]),
        decreases len - p,
    {
        p += 1;
    }
    proof {
        assert forall|t: int| 0 <= t < p implies white_p()(#[trigger] s@[t]) by {}
        if p < len {
            assert(!white_p()(s@[p as int]));
        }
        lemma_run_len_is(s@, white_p(), p as nat);
    }
    p
}

/// Scan the trailing whitespace run.
fn scan_white_end(s: &str) -> (q: usize)
    ensures
        q <= s@.len(),
        q == run_len(s@.reverse(), white_p()),
{
    let len = s.unicode_len();
    let mut q: usize = 0;
    while q < len && char_whitespace(s.get_char(len - 1 - q))
        invariant
            q <= len,
            len == s@.len(),
            forall|t: int| 0 <= t < q ==> is_whitespace_char(#[trigger] s@[len - 1 - t]),
        decreases len - q,
    {
        q += 1;
    }
    proof {
        let rev = s@.reverse();
        assert forall|t: int| 0 <= t < q implies white_p()(#[trigger] rev[t]) by {
            assert(rev[t] == s@[len - 1 - t]);
        }
        if q < len {
            assert(rev[q as int] == s@[len - 1 - q]);
        }
        lemma_run_len_is(rev, white_p(), q as nat);
    }
    q
}

/// Trim whitespace from both ends, as [`spec_trim`] describes.
pub fn trim(s: &str) -> (r: String)
    ensures
        r@ == spec_trim(s@),
{
    let len = s.unicode_len();
    let p = scan_white(s);
    let q = scan_white_end(s);
    if q <= len - p {
        String::from_str(s.substring_char(p, len - q))
    } else {
        proof {
            reveal_strlit("");
        }
        String::from_str("")
    }
}

/// Trim leading whitespace, as [`spec_trim_start`] describes.
pub fn trim_start(s: &str) -> (r: String)
    ensures
        r@ == spec_trim_start(s@),
{
    let len = s.unicode_len();
    let p = scan_white(s);
    String::from_str(s.substring_char(p, len))
}

/// Trim trailing whitespace, as [`spec_trim_end`] describes.
pub fn trim_end(s: &str) -> (r: String)
    ensures
        r@ == spec_trim_end(s@),
{
    let len = s.unicode_len();
    let q = scan_white_end(s);
    proof {
        assert(s@.subrange(0, s@.len() - q) =~= s@.take(s@.len() - q));
    }
    String::from_str(s.substring_char(0, len - q))
}

/// The string repeated `n` times.
pub open spec fn spec_repeat(s: Seq<char>, n: nat) -> Seq<char>
    decreases n,
{
    if n == 0 {
        Seq::empty()
    } else {
        spec_repeat(s, (n - 1) as nat) + s
    }
}

/// Repeat the string `count` times, as [`spec_repeat`] describes.
pub fn repeat(s: &str, count: usize) -> (r: String)
    ensures
        r@ == spec_repeat(s@, count as nat),
{
    let mut out = String::new();
    let mut i: usize = 0;
    proof {
        assert(out@ =~= spec_repeat(s@, 0));
    }
    while i < count
        invariant
            i <= count,
            out@ == spec_repeat(s@, i as nat),
        decreases count - i,
    {
        out.append(s);
        i += 1;
    }
    out
}

/// Reverse the characters.
pub fn reverse(s: &str) -> (r: String)
    ensures
        r@ == s@.reverse(),
{
    let len = s.unicode_len();
    let mut out = String::new();
    let mut i: usize = 0;
    while i < len
        invariant
            i <= len,
            len == s@.len(),
            out@.len() == i,
            forall|t: int| 0 <= t < i ==> out@[t] == s@[len - 1 - t],
        decreases len - i,
    {
        let ghost o0 = out@;
        push_back(&mut out, s.get_char(len - 1 - i));
        i += 1;
    }
    proof {
        assert forall|t: int| 0 <= t < len implies out@[t] == s@.reverse()[t] by {
            assert(s@.reverse()[t] == s@[len - 1 - t]);
        }
        assert(out@ =~= s@.reverse());
    }
    out
}

/// Append one character to a string under construction.
fn push_back(out: &mut String, c: char)
    ensures
        final(out)@ == old(out)@.push(c),
{
    crate::chars::push_char(out, c);
}

/// The character repeated `n` times.
pub open spec fn spec_repeat_char(c: char, n: nat) -> Seq<char>
    decreases n,
{
    if n == 0 {
        Seq::empty()
    } else {
        spec_repeat_char(c, (n - 1) as nat).push(c)
    }
}

/// The string left-padded with `pad_char` up to `width` characters; a
/// string already that long is unchanged.
pub open spec fn spec_pad_left(s: Seq<char>, width: nat, c: char) -> Seq<char> {
    if s.len() >= width {
        s
    } else {
        spec_repeat_char(c, (width - s.len()) as nat) + s
    }
}

/// The string right-padded with `pad_char` up to `width` characters.
pub open spec fn spec_pad_right(s: Seq<char>, width: nat, c: char) -> Seq<char> {
    if s.len() >= width {
        s
    } else {
        s + spec_repeat_char(c, (width - s.len()) as nat)
    }
}

/// Build `spec_repeat_char(c, n)`.
fn repeat_char(c: char, n: usize) -> (r: String)
    ensures
        r@ == spec_repeat_char(c, n as nat),
{
    let mut out = String::new();
    let mut i: usize = 0;
    proof {
        assert(out@ =~= spec_repeat_char(c, 0));
    }
    while i < n
        invariant
            i <= n,
            out@ == spec_repeat_char(c, i as nat),
        decreases n - i,
    {
        push_back(&mut out, c);
        i += 1;
    }
    out
}

/// Left-pad to `width` characters, as [`spec_pad_left`] describes.
pub fn pad_left(s: &str, width: usize, pad_char: char) -> (r: String)
    ensures
        r@ == spec_pad_left(s@, width as nat, pad_char),
{
    let char_count = s.unicode_len();
    if char_count >= width {
        String::from_str(s)
    } else {
        let mut out = repeat_char(pad_char, width - char_count);
        out.append(s);
        out
    }
}

/// Right-pad to `width` characters, as [`spec_pad_right`] describes.
pub fn pad_right(s: &str, width: usize, pad_char: char) -> (r: String)
    ensures
        r@ == spec_pad_right(s@, width as nat, pad_char),
{
    let char_count = s.unicode_len();
    if char_count >= width {
        String::from_str(s)
    } else {
        let mut out = String::from_str(s);
        let pad = repeat_char(pad_char, width - char_count);
        out.append(pad.as_str());
        out
    }
}

/// Case-sensitive equality.
pub fn compare(a: &str, b: &str) -> (r: bool)
    ensures
        r == (a@ == b@),
{
    str_eq(a, b)
}

/// Equality after lowercasing both sides.
pub fn compare_ignore_case(a: &str, b: &str) -> (r: bool)
    ensures
        r == (lower_of(a@) == lower_of(b@)),
{
    let la = lower(a);
    let lb = lower(b);
    str_eq(la.as_str(), lb.as_str())
}

// Regular expressions.  The regex crate does the matching; whether a
// pattern compiles and what it matches are functions of the pattern
// and haystack texts alone, so they are named and every contract is
// exact in those names.

#[verifier::external_type_specification]
#[verifier::external_body]
pub struct ExRegex(regex::Regex);

/// A compiled pattern, kept beside its source text; built only by
/// [`compile`], so the text is always the one the expression was
/// compiled from.
struct Pattern {
    re: regex::Regex,
    src: String,
}

/// Whether the pattern text is a valid regular expression.
pub uninterp spec fn regex_valid(p: Seq<char>) -> bool;

/// Whether the pattern matches somewhere in the haystack.
pub uninterp spec fn regex_match(p: Seq<char>, s: Seq<char>) -> bool;

/// The haystack with every match replaced.
pub uninterp spec fn regex_replaced(p: Seq<char>, s: Seq<char>, rep: Seq<char>) -> Seq<char>;

/// The capture groups of the first match: group by group, the matched
/// text or nothing; `None` when the pattern matches nowhere.
pub uninterp spec fn regex_captures(p: Seq<char>, s: Seq<char>) -> Option<Seq<Option<Seq<char>>>>;

/// Relies on `regex::Regex::new`: whether a pattern text compiles
/// depends on that text alone; the error names the pattern.
#[verifier::external_body]
fn compile(pattern: &str) -> (r: Result<Pattern, String>)
    ensures
        r is Ok <==> regex_valid(pattern@),
        r is Ok ==> r->Ok_0.src@ == pattern@,
{
    match regex::Regex::new(pattern) {
        Ok(re) => Ok(Pattern { re, src: pattern.to_string() }),
        Err(e) => Err(format!("{}: {}", pattern, e)),
    }
}

/// Relies on `regex::Regex::is_match`: the result depends on the
/// pattern and the haystack alone.
#[verifier::external_body]
fn pattern_match(p: &Pattern, s: &str) -> (r: bool)
    ensures
        r == regex_match(p.src@, s@),
{
    p.re.is_match(s)
}

/// Relies on `regex::Regex::replace_all`: the result depends on the
/// pattern, the haystack and the replacement alone.
#[verifier::external_body]
fn pattern_replace_all(p: &Pattern, s: &str, rep: &str) -> (r: String)
    ensures
        r@ == regex_replaced(p.src@, s@, rep@),
{
    p.re.replace_all(s, rep).to_string()
}

/// Relies on `regex::Regex::captures` and `Captures::get`: the groups
/// of the first match depend on the pattern and the haystack alone.
#[verifier::external_body]
fn pattern_captures(p: &Pattern, s: &str) -> (r: Option<Vec<Option<String>>>)
    ensures
        r.deep_view() == regex_captures(p.src@, s@),
{
    p.re.captures(s).map(
        |caps|
            (0..caps.len()).map(
                |i| caps.get(i).map(|m| m.as_str().to_string()),
            ).collect(),
    )
}

/// Whether the string matches the pattern; an invalid pattern is the
/// `InvalidPattern` error (its text carries the compiler's own
/// description).
pub fn matches(s: &str, pattern: &str) -> (r: Result<bool, TextError>)
    ensures
        ({
            match r {
                Ok(b) => regex_valid(pattern@) && b == regex_match(pattern@, s@),
                Err(e) => !regex_valid(pattern@) && e is InvalidPattern,
            }
        }),
{
    match compile(pattern) {
        Ok(p) => Ok(pattern_match(&p, s)),
        Err(msg) => Err(TextError::InvalidPattern(msg)),
    }
}

/// Replace every match of the pattern; an invalid pattern is the
/// `InvalidPattern` error.
pub fn replace_regex(s: &str, pattern: &str, replacement: &str) -> (r: Result<String, TextError>)
    ensures
        ({
            match r {
                Ok(t) => regex_valid(pattern@) && t@ == regex_replaced(pattern@, s@, replacement@),
                Err(e) => !regex_valid(pattern@) && e is InvalidPattern,
            }
        }),
{
    match compile(pattern) {
        Ok(p) => Ok(pattern_replace_all(&p, s, replacement)),
        Err(msg) => Err(TextError::InvalidPattern(msg)),
    }
}

/// The groups that are present, in group order.
pub open spec fn spec_present_groups(gs: Seq<Option<Seq<char>>>) -> Seq<Seq<char>>
    decreases gs.len(),
{
    if gs.len() == 0 {
        Seq::empty()
    } else {
        (match gs[0] {
            Some(g) => seq![g],
            None => Seq::empty(),
        }) + spec_present_groups(gs.skip(1))
    }
}

/// The capture groups of the first match of the pattern, present ones
/// only, in group order — group zero (the whole match) first; an
/// empty vector when the pattern matches nowhere.
pub fn capture(s: &str, pattern: &str) -> (r: Result<Vec<String>, TextError>)
    ensures
        ({
            match r {
                Ok(v) => regex_valid(pattern@) && v.deep_view() == (match regex_captures(
                    pattern@,
                    s@,
                ) {
                    Some(gs) => spec_present_groups(gs),
                    None => Seq::<Seq<char>>::empty(),
                }),
                Err(e) => !regex_valid(pattern@) && e is InvalidPattern,
            }
        }),
{
    let p = match compile(pattern) {
        Ok(p) => p,
        Err(msg) => {
            return Err(TextError::InvalidPattern(msg));
        },
    };
    let caps = pattern_captures(&p, s);
    let ghost cm = regex_captures(pattern@, s@);
    match caps {
        None => {
            let v: Vec<String> = Vec::new();
            proof {
                assert(v.deep_view() =~= Seq::<Seq<char>>::empty());
            }
            Ok(v)
        },
        Some(groups) => {
            let ghost gs = groups.deep_view();
            let mut captures: Vec<String> = Vec::new();
            let n = groups.len();
            let mut i: usize = 0;
            proof {
                assert(gs.len() == groups@.len());
                assert(gs.skip(0) =~= gs);
                assert(captures.deep_view() + spec_present_groups(gs) =~= spec_present_groups(gs));
            }
            while i < n
                invariant
                    n == groups@.len(),
                    gs == groups.deep_view(),
                    gs.len() == groups@.len(),
                    i <= n,
                    captures.deep_view() + spec_present_groups(gs.skip(i as int))
                        == spec_present_groups(gs),
                decreases n - i,
            {
                let ghost dv0 = captures.deep_view();
                proof {
                    assert(gs[i as int] == groups@[i as int].deep_view());
                    assert(gs.skip(i as int)[0] == gs[i as int]);
                    assert(gs.skip(i as int).skip(1) =~= gs.skip(i as int + 1));
                }
                match &groups[i] {
                    Some(m) => {
                        captures.push(m.clone());
                        proof {
                            assert(captures.deep_view() =~= dv0.push(m@));
                            assert(dv0.push(m@) + spec_present_groups(gs.skip(i as int + 1)) =~=
                            dv0 + (seq![m@] + spec_present_groups(gs.skip(i as int + 1))));
                        }
                    },
                    None => {
                        proof {
                            assert(Seq::<Seq<char>>::empty() + spec_present_groups(
                            gs.skip(i as int + 1)) =~= spec_present_groups(gs.skip(i as int + 1)));
                        }
                    },
                }
                i += 1;
            }
            proof {
                assert(gs.skip(n as int) =~= Seq::<Option<Seq<char>>>::empty());
                assert(captures.deep_view() + Seq::<Seq<char>>::empty() =~= captures.deep_view());
            }
            Ok(captures)
        },
    }
}

} // verus!
