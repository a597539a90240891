//! Command-line modifier clauses: `with <key>` / `without <key>`, each
//! optionally followed by a quoted `'value'`.
//!
//! [`handler`] walks the argument words left to right; words that begin
//! no clause are skipped, and a `with`/`without` at the very end (with
//! no key after it) is dropped.

use vstd::prelude::*;
use crate::chars::{run_len, lemma_run_len_is, str_eq};

verus! {

/// Whether a modifier adds or removes its key.
#[derive(Debug, Clone, Copy, PartialEq, Eq, Structural)]
pub enum ModifierMode {
    With,
    Without,
}

/// The payload of a modifier: a bare flag, or a key with a quoted
/// value.
#[derive(Debug, Clone, PartialEq)]
pub enum ModifierKind {
    Flag(String),
    KeyValue { key: String, value: String },
}

/// One parsed modifier clause.
#[derive(Debug, Clone, PartialEq)]
pub struct Modifier {
    pub mode: ModifierMode,
    pub kind: ModifierKind,
}

/// The mathematical image of a [`ModifierKind`].
pub ghost enum ModifierKindModel {
    Flag(Seq<char>),
    KeyValue { key: Seq<char>, value: Seq<char> },
}

/// The mathematical image of a [`Modifier`].
pub ghost struct ModifierModel {
    pub mode: ModifierMode,
    pub kind: ModifierKindModel,
}

impl View for Modifier {
    type V = ModifierModel;

    open spec fn view(&self) -> ModifierModel {
        ModifierModel {
            mode: self.mode,
            kind: match &self.kind {
                ModifierKind::Flag(k) => ModifierKindModel::Flag(k@),
                ModifierKind::KeyValue { key, value } => ModifierKindModel::KeyValue {
                    key: key@,
                    value: value@,
                },
            },
        }
    }
}

impl DeepView for Modifier {
    type V = ModifierModel;

    open spec fn deep_view(&self) -> ModifierModel {
        self@
    }
}

/// The quote character as a predicate value, for [`run_len`].
pub open spec fn quote_p() -> spec_fn(char) -> bool {
    |c: char| c == '\''
}

/// A word that both starts and ends with a quote.
pub open spec fn is_quoted_word(s: Seq<char>) -> bool {
    s.len() >= 1 && s[0] == '\'' && s[s.len() - 1] == '\''
}

/// The word with every leading and trailing quote removed; a word of
/// quotes alone trims to nothing.
pub open spec fn spec_trim_quotes(s: Seq<char>) -> Seq<char> {
    let p = run_len(s, quote_p());
    let q = run_len(s.reverse(), quote_p());
    if p + q <= s.len() {
        s.subrange(p as int, s.len() - q)
    } else {
        Seq::empty()
    }
}

/// The modifier clauses found from position `i` on:
/// - `with`/`without` then a key then a quoted word is a key-value
///   clause (the value with its quotes trimmed);
/// - `with`/`without` then a key alone is a flag clause;
/// - any other word is skipped, as is a trailing `with`/`without`.
pub open spec fn spec_modifiers(args: Seq<Seq<char>>, i: int) -> Seq<ModifierModel>
    decreases args.len() - i,
{
    if i < 0 || i >= args.len() {
        Seq::empty()
    } else {
        let w = args[i];
        if w == "with"@ || w == "without"@ {
            let mode = if w == "with"@ {
                ModifierMode::With
            } else {
                ModifierMode::Without
            };
            if i + 1 < args.len() {
                let key = args[i + 1];
                if i + 2 < args.len() && is_quoted_word(args[i + 2]) {
                    seq![
                        ModifierModel {
                            mode,
                            kind: ModifierKindModel::KeyValue {
                                key,
                                value: spec_trim_quotes(args[i + 2]),
                            },
                        },
                    ] + spec_modifiers(args, i + 3)
                } else {
                    seq![ModifierModel { mode, kind: ModifierKindModel::Flag(key) }]
                        + spec_modifiers(args, i + 2)
                }
            } else {
                spec_modifiers(args, i + 1)
            }
        } else {
            spec_modifiers(args, i + 1)
        }
    }
}

fn quoted_word(s: &str) -> (r: bool)
    ensures
        r == is_quoted_word(s@),
{
    let len = s.unicode_len();
    len >= 1 && s.get_char(0) == '\'' && s.get_char(len - 1) == '\''
}

/// Remove every leading and trailing quote, as [`spec_trim_quotes`]
/// describes.
fn trim_quotes(s: &str) -> (r: String)
    ensures
        r@ == spec_trim_quotes(s@),
{
    let len = s.unicode_len();
    let mut p: usize = 0;
    while p < len && s.get_char(p) == '\''
        invariant
            p <= len,
            len == s@.len(),
            forall|t: int| 0 <= t < p ==> s@[t] == '\'',
        decreases len - p,
    {
        p += 1;
    }
    let mut q: usize = 0;
    while q < len && s.get_char(len - 1 - q) == '\''
        invariant
            q <= len,
            len == s@.len(),
            forall|t: int| 0 <= t < q ==> #[trigger] s@[len - 1 - t] == '\'',
        decreases len - q,
    {
        q += 1;
    }
    proof {
        assert forall|t: int| 0 <= t < p implies quote_p()(#[trigger] s@[t]) by {}
        if p < len {
            assert(!quote_p()(s@[p as int]));
        }
        lemma_run_len_is(s@, quote_p(), p as nat);
        let rev = s@.reverse();
        assert forall|t: int| 0 <= t < q implies quote_p()(#[trigger] rev[t]) by {
            assert(rev[t] == s@[len - 1 - t]);
        }
        if q < len {
            assert(rev[q as int] == s@[len - 1 - q]);
        }
        lemma_run_len_is(rev, quote_p(), q as nat);
    }
    if q <= len - p {
        String::from_str(s.substring_char(p, len - q))
    } else {
        proof {
            reveal_strlit("");
        }
        String::from_str("")
    }
}

/// Parse the modifier clauses out of the argument words, exactly as
/// [`spec_modifiers`] describes from position zero.
pub fn handler(args: &[String]) -> (r: Vec<Modifier>)
    ensures
        r.deep_view() == spec_modifiers(args.deep_view(), 0),
{
    let ghost adv = args.deep_view();
    let mut result: Vec<Modifier> = Vec::new();
    let mut i: usize = 0;
    proof {
        assert(result.deep_view() =~= Seq::<ModifierModel>::empty());
        assert(result.deep_view() + spec_modifiers(adv, 0) =~= spec_modifiers(adv, 0));
        assert(adv.len() == args@.len());
    }
    while i < args.len()
        invariant
            adv == args.deep_view(),
            adv.len() == args@.len(),
            i <= args@.len(),
            result.deep_view() + spec_modifiers(adv, i as int) == spec_modifiers(adv, 0),
        decreases args@.len() - i,
    {
        let ghost dv0 = result.deep_view();
        proof {
            assert(adv[i as int] == args@[i as int]@);
        }
        let w = &args[i];
        let is_with = str_eq(w.as_str(), "with");
        let is_without = str_eq(w.as_str(), "without");
        if is_with || is_without {
            let mode = if is_with {
                ModifierMode::With
            } else {
                ModifierMode::Without
            };
            if i + 1 < args.len() {
                proof {
                    assert(adv[i as int + 1] == args@[i as int + 1]@);
                }
                let key = args[i + 1].clone();
                let quoted = i + 2 < args.len() && quoted_word(args[i + 2].as_str());
                proof {
                    if i + 2 < args@.len() {
                        assert(adv[i as int + 2] == args@[i as int + 2]@);
                    }
                }
                if quoted {
                    let value = trim_quotes(args[i + 2].as_str());
                    let m = Modifier { mode, kind: ModifierKind::KeyValue { key, value } };
                    let ghost mm = m@;
                    result.push(m);
                    proof {
                        assert(result.deep_view() =~= dv0.push(mm));
                        assert(dv0.push(mm) + spec_modifiers(adv, i as int + 3) =~= dv0 + (
                        seq![mm] + spec_modifiers(adv, i as int + 3)));
                    }
                    i += 3;
                } else {
                    let m = Modifier { mode, kind: ModifierKind::Flag(key) };
                    let ghost mm = m@;
                    result.push(m);
                    proof {
                        assert(result.deep_view() =~= dv0.push(mm));
                        assert(dv0.push(mm) + spec_modifiers(adv, i as int + 2) =~= dv0 + (
                        seq![mm] + spec_modifiers(adv, i as int + 2)));
                    }
                    i += 2;
                }
            } else {
                i += 1;
            }
        } else {
            i += 1;
        }
    }
    proof {
        assert(result.deep_view() + Seq::<ModifierModel>::empty() =~= result.deep_view());
    }
    result
}

} // verus!
