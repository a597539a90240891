//! The grammar-driven parser: one `command` per call.
//!
//! The grammar, over the raw tokens of [`crate::scan`]:
//!
//! ```text
//! command     := module? signature* "."
//! module      := module_name module_args?
//! module_name := word not naming a signature clause
//! module_args := data ("," data)*
//! data        := "'" text "'" | "@" name | "[" name "]" | word
//! signature   := "trace" | "elapsed" | "silent"
//!              | "timeout" word word     ; value and unit
//!              | "on" platform-word+
//! ```
//!
//! A bare word is accepted as an argument only where an argument is
//! required (after a comma), and becomes a plain `Literal` node — the
//! fallback for a payload that matched no specific data shape.  The
//! `timeout` value is read as an exact decimal and resolves to zero
//! when the word is not a number; the unit word is kept as written.
//! Anything after the terminator is ignored: only the first command is
//! parsed.  The one fatal error is a structural mismatch
//! ([`ParseError`]); everything else degrades to a safe default.

use vstd::prelude::*;
pub use crate::ast::{
    AbstractTreeNode, ModuleNode, SignatureNode, DataNode, Number, ParseError, Expected,
};
use crate::ast::{
    NodeModel, SigModel, DataModel, ErrorModel, spec_parse_number, lemma_vec_nodes_view,
};
use crate::chars::{str_eq, char_to_string};
use crate::scan::{RawToken, RawModel, spec_scan, scan};

verus! {

broadcast use vstd::std_specs::vec::group_vec_axioms;

/// The marker type of the grammar front end.
#[derive(Debug)]
pub struct FeatherParser;

/// The words that begin a signature clause; a module cannot take one
/// of them as its name.
pub open spec fn is_signature_keyword(w: Seq<char>) -> bool {
    ||| w == "trace"@
    ||| w == "elapsed"@
    ||| w == "silent"@
    ||| w == "timeout"@
    ||| w == "on"@
}

pub fn signature_keyword(w: &str) -> (r: bool)
    ensures
        r == is_signature_keyword(w@),
{
    str_eq(w, "trace") || str_eq(w, "elapsed") || str_eq(w, "silent") || str_eq(w, "timeout")
        || str_eq(w, "on")
}

/// The characters of a raw token, as a parse error reports them.
pub open spec fn raw_lexeme(t: RawModel) -> Seq<char> {
    match t {
        RawModel::Word(w) => w,
        RawModel::Quoted(q) => q,
        RawModel::Ref(r) => r,
        RawModel::Punct(c) => seq![c],
    }
}

/// What a parse error reports at position `i`: the lexeme there, or
/// nothing at the end of the input.
pub open spec fn sp_found(toks: Seq<RawModel>, i: int) -> Option<Seq<char>> {
    if 0 <= i < toks.len() {
        Some(raw_lexeme(toks[i]))
    } else {
        None
    }
}

/// The word of a `Word` token.
pub open spec fn word_of(t: RawModel) -> Seq<char> {
    match t {
        RawModel::Word(w) => w,
        _ => Seq::empty(),
    }
}

/// Whether a token can begin a module argument list.
pub open spec fn is_data_start(t: RawModel) -> bool {
    t is Quoted || t is Ref || t == RawModel::Punct('[')
}

/// One data argument at `i`: quoted text, a record reference, a
/// container reference, or — as fallback — a bare word kept as a
/// `Literal` node.
pub open spec fn sp_data(toks: Seq<RawModel>, i: int) -> Result<(NodeModel, int), ErrorModel> {
    match toks[i] {
        RawModel::Quoted(q) => Ok((NodeModel::Data(DataModel::Text(q)), i + 1)),
        RawModel::Ref(r) => Ok((NodeModel::Data(DataModel::Record(r)), i + 1)),
        RawModel::Word(w) => Ok((NodeModel::Literal(w), i + 1)),
        RawModel::Punct(c) => if c == '[' {
            if i + 2 < toks.len() && (toks[i + 1] is Word) && toks[i + 2] == RawModel::Punct(']') {
                Ok((NodeModel::Data(DataModel::Container(word_of(toks[i + 1]))), i + 3))
            } else {
                Err(ErrorModel { expected: Expected::Argument, found: sp_found(toks, i + 1) })
            }
        } else {
            Err(ErrorModel { expected: Expected::Argument, found: sp_found(toks, i) })
        },
    }
}

proof fn lemma_sp_data_advances(toks: Seq<RawModel>, i: int)
    requires
        0 <= i < toks.len(),
    ensures
        sp_data(toks, i) is Ok ==> i < sp_data(toks, i)->Ok_0.1 <= toks.len(),
{
}

/// The comma-separated argument list starting at `i`.
pub open spec fn sp_args(toks: Seq<RawModel>, i: int) -> Result<
    (Seq<NodeModel>, int),
    ErrorModel,
>
    decreases toks.len() - i,
        via sp_args_decreases
{
    if i < 0 || i >= toks.len() {
        Err(ErrorModel { expected: Expected::Argument, found: None })
    } else {
        match sp_data(toks, i) {
            Err(e) => Err(e),
            Ok((node, j)) => {
                if j < toks.len() && toks[j] == RawModel::Punct(',') {
                    match sp_args(toks, j + 1) {
                        Ok((rest, k)) => Ok((seq![node] + rest, k)),
                        Err(e) => Err(e),
                    }
                } else {
                    Ok((seq![node], j))
                }
            },
        }
    }
}

#[via_fn]
proof fn sp_args_decreases(toks: Seq<RawModel>, i: int) {
    if 0 <= i < toks.len() {
        lemma_sp_data_advances(toks, i);
    }
}

/// The platform words after `on`: every following word that does not
/// begin a signature clause names one platform.
pub open spec fn sp_platforms(toks: Seq<RawModel>, i: int) -> (Seq<NodeModel>, int)
    decreases toks.len() - i,
{
    if 0 <= i < toks.len() && (toks[i] is Word) && !is_signature_keyword(word_of(toks[i])) {
        let r = sp_platforms(toks, i + 1);
        (seq![NodeModel::Signature(SigModel::On(word_of(toks[i])))] + r.0, r.1)
    } else {
        (Seq::empty(), i)
    }
}

proof fn lemma_sp_platforms_advances(toks: Seq<RawModel>, i: int)
    requires
        0 <= i <= toks.len(),
    ensures
        i <= sp_platforms(toks, i).1 <= toks.len(),
    decreases toks.len() - i,
{
    if 0 <= i < toks.len() && (toks[i] is Word) && !is_signature_keyword(word_of(toks[i])) {
        lemma_sp_platforms_advances(toks, i + 1);
    }
}

/// The signature clauses starting at `i`, in source order.
pub open spec fn sp_signatures(toks: Seq<RawModel>, i: int) -> Result<
    (Seq<NodeModel>, int),
    ErrorModel,
>
    decreases toks.len() - i,
        via sp_signatures_decreases
{
    if i < 0 || i >= toks.len() || !(toks[i] is Word) || !is_signature_keyword(word_of(toks[i])) {
        Ok((Seq::empty(), i))
    } else {
        let w = word_of(toks[i]);
        if w == "trace"@ || w == "elapsed"@ || w == "silent"@ {
            let sig = if w == "trace"@ {
                SigModel::Trace
            } else if w == "elapsed"@ {
                SigModel::Elapsed
            } else {
                SigModel::Silent
            };
            match sp_signatures(toks, i + 1) {
                Ok((rest, k)) => Ok((seq![NodeModel::Signature(sig)] + rest, k)),
                Err(e) => Err(e),
            }
        } else if w == "timeout"@ {
            if i + 1 < toks.len() && (toks[i + 1] is Word) {
                let value = match spec_parse_number(word_of(toks[i + 1])) {
                    Some(n) => n,
                    None => Number::spec_zero(),
                };
                if i + 2 < toks.len() && (toks[i + 2] is Word) {
                    let sig = SigModel::Timeout(value, word_of(toks[i + 2]));
                    match sp_signatures(toks, i + 3) {
                        Ok((rest, k)) => Ok((seq![NodeModel::Signature(sig)] + rest, k)),
                        Err(e) => Err(e),
                    }
                } else {
                    Err(ErrorModel { expected: Expected::TimeoutUnit, found: sp_found(toks, i + 2) })
                }
            } else {
                Err(ErrorModel { expected: Expected::TimeoutValue, found: sp_found(toks, i + 1) })
            }
        } else {
            if i + 1 < toks.len() && (toks[i + 1] is Word) && !is_signature_keyword(
                word_of(toks[i + 1]),
            ) {
                let r = sp_platforms(toks, i + 1);
                match sp_signatures(toks, r.1) {
                    Ok((rest, k)) => Ok((r.0 + rest, k)),
                    Err(e) => Err(e),
                }
            } else {
                Err(ErrorModel { expected: Expected::Platform, found: sp_found(toks, i + 1) })
            }
        }
    }
}

#[via_fn]
proof fn sp_signatures_decreases(toks: Seq<RawModel>, i: int) {
    if 0 <= i < toks.len() {
        if i + 1 < toks.len() && (toks[i + 1] is Word) && !is_signature_keyword(
            word_of(toks[i + 1]),
        ) {
            lemma_sp_platforms_advances(toks, i + 1);
        }
    }
}

/// The closing step of a command: the signatures, then the terminator.
pub open spec fn sp_finish(toks: Seq<RawModel>, mods: Seq<NodeModel>, i: int) -> Result<
    Seq<NodeModel>,
    ErrorModel,
> {
    match sp_signatures(toks, i) {
        Err(e) => Err(e),
        Ok((sigs, j)) => {
            if j < toks.len() && toks[j] == RawModel::Punct('.') {
                Ok(mods + sigs)
            } else {
                Err(ErrorModel { expected: Expected::Terminator, found: sp_found(toks, j) })
            }
        },
    }
}

/// One whole command over raw tokens: an optional module invocation,
/// its trailing signatures, and the terminator; trailing tokens are
/// ignored.
pub open spec fn sp_parse(toks: Seq<RawModel>) -> Result<Seq<NodeModel>, ErrorModel> {
    if toks.len() > 0 && (toks[0] is Word) && !is_signature_keyword(word_of(toks[0])) {
        let name = word_of(toks[0]);
        if 1 < toks.len() && is_data_start(toks[1]) {
            match sp_args(toks, 1) {
                Err(e) => Err(e),
                Ok((args, j)) => sp_finish(
                    toks,
                    seq![NodeModel::Module { name, args }],
                    j,
                ),
            }
        } else {
            sp_finish(toks, seq![NodeModel::Module { name, args: Seq::empty() }], 1)
        }
    } else {
        sp_finish(toks, Seq::empty(), 0)
    }
}

/// What parsing a source text yields: the node sequence of its first
/// command, or the structural mismatch that stopped it.
pub open spec fn spec_parse(s: Seq<char>) -> Result<Seq<NodeModel>, ErrorModel> {
    sp_parse(spec_scan(s))
}

/// The lexeme at `i`, for a parse error; `None` past the end.
fn found_at(toks: &Vec<RawToken>, i: usize) -> (r: Option<String>)
    ensures
        r.deep_view() == sp_found(toks.deep_view(), i as int),
{
    if i < toks.len() {
        let s = match &toks[i] {
            RawToken::Word(w) => w.clone(),
            RawToken::Quoted(q) => q.clone(),
            RawToken::Ref(rf) => rf.clone(),
            RawToken::Punct(c) => char_to_string(*c),
        };
        Some(s)
    } else {
        None
    }
}

/// Parse one data argument, as [`sp_data`] describes.
fn parse_data(toks: &Vec<RawToken>, i: usize) -> (r: Result<(AbstractTreeNode, usize), ParseError>)
    requires
        i < toks@.len(),
    ensures
        ({
            let sp = sp_data(toks.deep_view(), i as int);
            match r {
                Ok(p) => sp == Ok::<(NodeModel, int), ErrorModel>((p.0@, p.1 as int)) && i < p.1
                    <= toks@.len(),
                Err(e) => sp == Err::<(NodeModel, int), ErrorModel>(e@),
            }
        }),
{
    proof {
        assert(toks.len() == toks@.len());
    }
    match &toks[i] {
        RawToken::Quoted(q) => Ok((AbstractTreeNode::Data(DataNode::Text(q.clone())), i + 1)),
        RawToken::Ref(rf) => Ok((AbstractTreeNode::Data(DataNode::Record(rf.clone())), i + 1)),
        RawToken::Word(w) => Ok((AbstractTreeNode::Literal(w.clone()), i + 1)),
        RawToken::Punct(c) => {
            if *c == '[' {
                if toks.len() - i > 2 {
                    if let RawToken::Word(w) = &toks[i + 1] {
                        if let RawToken::Punct(c2) = &toks[i + 2] {
                            if *c2 == ']' {
                                return Ok(
                                    (
                                        AbstractTreeNode::Data(DataNode::Container(w.clone())),
                                        i + 3,
                                    ),
                                );
                            }
                        }
                    }
                }
                Err(ParseError { expected: Expected::Argument, found: found_at(toks, i + 1) })
            } else {
                Err(ParseError { expected: Expected::Argument, found: found_at(toks, i) })
            }
        },
    }
}

/// Parse the comma-separated argument list, as [`sp_args`] describes.
fn parse_args(toks: &Vec<RawToken>, i: usize) -> (r: Result<
    (Vec<AbstractTreeNode>, usize),
    ParseError,
>)
    ensures
        ({
            let sp = sp_args(toks.deep_view(), i as int);
            match r {
                Ok(p) => sp == Ok::<(Seq<NodeModel>, int), ErrorModel>(
                    (p.0.deep_view(), p.1 as int),
                ) && i < p.1 <= toks@.len(),
                Err(e) => sp == Err::<(Seq<NodeModel>, int), ErrorModel>(e@),
            }
        }),
    decreases toks@.len() - i,
{
    if i >= toks.len() {
        return Err(ParseError { expected: Expected::Argument, found: None });
    }
    match parse_data(toks, i) {
        Err(e) => Err(e),
        Ok((node, j)) => {
            let ghost nm = node@;
            let comma = j < toks.len() && (match &toks[j] {
                RawToken::Punct(c) => *c == ',',
                _ => false,
            });
            if comma {
                match parse_args(toks, j + 1) {
                    Ok((rest, k)) => {
                        let ghost rest_dv = rest.deep_view();
                        let ghost rs = rest@;
                        let mut v = rest;
                        v.insert(0, node);
                        proof {
                            assert forall|t: int| 0 <= t < v.deep_view().len() implies
                                v.deep_view()[t] == (seq![nm] + rest_dv)[t] by {
                                if t > 0 {
                                    assert(v@[t] == rs[t - 1]);
                                }
                            }
                            assert(v.deep_view() =~= seq![nm] + rest_dv);
                        }
                        Ok((v, k))
                    },
                    Err(e) => Err(e),
                }
            } else {
                let mut v: Vec<AbstractTreeNode> = Vec::new();
                v.push(node);
                proof {
                    assert(v.deep_view() =~= seq![nm]);
                }
                Ok((v, j))
            }
        },
    }
}

/// Parse the platform words after `on`, as [`sp_platforms`] describes.
fn parse_platforms(toks: &Vec<RawToken>, i: usize) -> (r: (Vec<AbstractTreeNode>, usize))
    requires
        i <= toks@.len(),
    ensures
        ({
            let sp = sp_platforms(toks.deep_view(), i as int);
            sp.0 == r.0.deep_view() && sp.1 == r.1 as int && i <= r.1 <= toks@.len()
        }),
    decreases toks@.len() - i,
{
    if i < toks.len() {
        if let RawToken::Word(w) = &toks[i] {
            if !signature_keyword(w.as_str()) {
                let node = AbstractTreeNode::Signature(SignatureNode::On(w.clone()));
                let ghost nm = node@;
                let (rest, j) = parse_platforms(toks, i + 1);
                let ghost rest_dv = rest.deep_view();
                let ghost rs = rest@;
                let mut v = rest;
                v.insert(0, node);
                proof {
                    assert forall|t: int| 0 <= t < v.deep_view().len() implies v.deep_view()[t] == (
                    seq![nm] + rest_dv)[t] by {
                        if t > 0 {
                            assert(v@[t] == rs[t - 1]);
                        }
                    }
                    assert(v.deep_view() =~= seq![nm] + rest_dv);
                }
                return (v, j);
            }
        }
    }
    let v: Vec<AbstractTreeNode> = Vec::new();
    proof {
        assert(v.deep_view() =~= Seq::<NodeModel>::empty());
    }
    (v, i)
}

/// Parse the signature clauses, as [`sp_signatures`] describes.
fn parse_signatures(toks: &Vec<RawToken>, i: usize) -> (r: Result<
    (Vec<AbstractTreeNode>, usize),
    ParseError,
>)
    requires
        i <= toks@.len(),
    ensures
        ({
            let sp = sp_signatures(toks.deep_view(), i as int);
            match r {
                Ok(p) => sp == Ok::<(Seq<NodeModel>, int), ErrorModel>(
                    (p.0.deep_view(), p.1 as int),
                ) && i <= p.1 <= toks@.len(),
                Err(e) => sp == Err::<(Seq<NodeModel>, int), ErrorModel>(e@),
            }
        }),
    decreases toks@.len() - i,
{
    if i >= toks.len() {
        let v: Vec<AbstractTreeNode> = Vec::new();
        proof {
            assert(v.deep_view() =~= Seq::<NodeModel>::empty());
        }
        return Ok((v, i));
    }
    let kw = match &toks[i] {
        RawToken::Word(w) => signature_keyword(w.as_str()),
        _ => false,
    };
    if !kw {
        let v: Vec<AbstractTreeNode> = Vec::new();
        proof {
            assert(v.deep_view() =~= Seq::<NodeModel>::empty());
        }
        return Ok((v, i));
    }
    if let RawToken::Word(w) = &toks[i] {
        if str_eq(w.as_str(), "trace") || str_eq(w.as_str(), "elapsed") || str_eq(
            w.as_str(),
            "silent",
        ) {
            let sig = if str_eq(w.as_str(), "trace") {
                SignatureNode::Trace
            } else if str_eq(w.as_str(), "elapsed") {
                SignatureNode::Elapsed
            } else {
                SignatureNode::Silent
            };
            let node = AbstractTreeNode::Signature(sig);
            let ghost nm = node@;
            match parse_signatures(toks, i + 1) {
                Ok((rest, k)) => {
                    let ghost rest_dv = rest.deep_view();
                    let ghost rs = rest@;
                    let mut v = rest;
                    v.insert(0, node);
                    proof {
                        assert forall|t: int| 0 <= t < v.deep_view().len() implies v.deep_view()[t]
                            == (seq![nm] + rest_dv)[t] by {
                            if t > 0 {
                                assert(v@[t] == rs[t - 1]);
                            }
                        }
                        assert(v.deep_view() =~= seq![nm] + rest_dv);
                    }
                    Ok((v, k))
                },
                Err(e) => Err(e),
            }
        } else if str_eq(w.as_str(), "timeout") {
            if i + 1 < toks.len() {
                if let RawToken::Word(vw) = &toks[i + 1] {
                    let value = match Number::parse(vw.as_str()) {
                        Some(n) => n,
                        None => Number::zero(),
                    };
                    if i + 2 < toks.len() {
                        if let RawToken::Word(uw) = &toks[i + 2] {
                            let node = AbstractTreeNode::Signature(
                                SignatureNode::Timeout(value, uw.clone()),
                            );
                            let ghost nm = node@;
                            match parse_signatures(toks, i + 3) {
                                Ok((rest, k)) => {
                                    let ghost rest_dv = rest.deep_view();
                                    let ghost rs = rest@;
                                    let mut v = rest;
                                    v.insert(0, node);
                                    proof {
                                        assert forall|t: int| 0 <= t < v.deep_view().len() implies
                                            v.deep_view()[t] == (seq![nm] + rest_dv)[t] by {
                                            if t > 0 {
                                                assert(v@[t] == rs[t - 1]);
                                            }
                                        }
                                        assert(v.deep_view() =~= seq![nm] + rest_dv);
                                    }
                                    Ok((v, k))
                                },
                                Err(e) => Err(e),
                            }
                        } else {
                            Err(
                                ParseError {
                                    expected: Expected::TimeoutUnit,
                                    found: found_at(toks, i + 2),
                                },
                            )
                        }
                    } else {
                        Err(
                            ParseError {
                                expected: Expected::TimeoutUnit,
                                found: found_at(toks, i + 2),
                            },
                        )
                    }
                } else {
                    Err(
                        ParseError {
                            expected: Expected::TimeoutValue,
                            found: found_at(toks, i + 1),
                        },
                    )
                }
            } else {
                Err(ParseError { expected: Expected::TimeoutValue, found: found_at(toks, i + 1) })
            }
        } else {
            // `on`: at least one platform word must follow
            let first_ok = i + 1 < toks.len() && (match &toks[i + 1] {
                RawToken::Word(pw) => !signature_keyword(pw.as_str()),
                _ => false,
            });
            if first_ok {
                let (plats, j) = parse_platforms(toks, i + 1);
                match parse_signatures(toks, j) {
                    Ok((rest, k)) => {
                        let ghost pdv = plats.deep_view();
                        let ghost ps = plats@;
                        let ghost rest_dv = rest.deep_view();
                        let ghost rs = rest@;
                        let mut v = plats;
                        let mut r2 = rest;
                        v.append(&mut r2);
                        proof {
                            assert forall|t: int| 0 <= t < v.deep_view().len() implies
                                v.deep_view()[t] == (pdv + rest_dv)[t] by {
                                if t < ps.len() {
                                    assert(v@[t] == ps[t]);
                                } else {
                                    assert(v@[t] == rs[t - ps.len()]);
                                }
                            }
                            assert(v.deep_view() =~= pdv + rest_dv);
                        }
                        Ok((v, k))
                    },
                    Err(e) => Err(e),
                }
            } else {
                Err(ParseError { expected: Expected::Platform, found: found_at(toks, i + 1) })
            }
        }
    } else {
        proof {
            assert(false);
        }
        Err(ParseError { expected: Expected::Terminator, found: None })
    }
}

/// Parse the signatures and the terminator after the module, as
/// [`sp_finish`] describes.
fn parse_finish(toks: &Vec<RawToken>, mods: Vec<AbstractTreeNode>, i: usize) -> (r: Result<
    Vec<AbstractTreeNode>,
    ParseError,
>)
    requires
        i <= toks@.len(),
    ensures
        ({
            let sp = sp_finish(toks.deep_view(), mods.deep_view(), i as int);
            match r {
                Ok(nodes) => sp == Ok::<Seq<NodeModel>, ErrorModel>(nodes.deep_view()),
                Err(e) => sp == Err::<Seq<NodeModel>, ErrorModel>(e@),
            }
        }),
{
    let ghost mdv = mods.deep_view();
    let ghost ms = mods@;
    match parse_signatures(toks, i) {
        Err(e) => Err(e),
        Ok((sigs, j)) => {
            let dot = j < toks.len() && (match &toks[j] {
                RawToken::Punct(c) => *c == '.',
                _ => false,
            });
            if dot {
                let ghost sdv = sigs.deep_view();
                let ghost ss = sigs@;
                let mut v = mods;
                let mut s2 = sigs;
                v.append(&mut s2);
                proof {
                    assert forall|t: int| 0 <= t < v.deep_view().len() implies v.deep_view()[t] == (
                    mdv + sdv)[t] by {
                        if t < ms.len() {
                            assert(v@[t] == ms[t]);
                        } else {
                            assert(v@[t] == ss[t - ms.len()]);
                        }
                    }
                    assert(v.deep_view() =~= mdv + sdv);
                }
                Ok(v)
            } else {
                Err(ParseError { expected: Expected::Terminator, found: found_at(toks, j) })
            }
        },
    }
}

/// Parse one command: the node sequence [`spec_parse`] describes —
/// the module invocation, then its signatures, each in source order —
/// or the structural mismatch that stopped the parse.
pub fn parse(input: &str) -> (r: Result<Vec<AbstractTreeNode>, ParseError>)
    ensures
        ({
            let sp = spec_parse(input@);
            match r {
                Ok(nodes) => sp == Ok::<Seq<NodeModel>, ErrorModel>(nodes.deep_view()),
                Err(e) => sp == Err::<Seq<NodeModel>, ErrorModel>(e@),
            }
        }),
{
    let toks = scan(input);
    let ghost tv = toks.deep_view();
    let has_module = toks.len() > 0 && (match &toks[0] {
        RawToken::Word(w) => !signature_keyword(w.as_str()),
        _ => false,
    });
    if has_module {
        if let RawToken::Word(w) = &toks[0] {
            let name = w.clone();
            let data_start = toks.len() > 1 && (match &toks[1] {
                RawToken::Quoted(_) => true,
                RawToken::Ref(_) => true,
                RawToken::Word(_) => false,
                RawToken::Punct(c) => *c == '[',
            });
            if data_start {
                match parse_args(&toks, 1) {
                    Err(e) => Err(e),
                    Ok((args, j)) => {
                        proof {
                            lemma_vec_nodes_view(&args);
                        }
                        let ghost adv = args.deep_view();
                        let node = AbstractTreeNode::Module(ModuleNode { name, args });
                        let mut mods: Vec<AbstractTreeNode> = Vec::new();
                        mods.push(node);
                        proof {
                            assert(mods.deep_view() =~= seq![
                                NodeModel::Module { name: w@, args: adv },
                            ]);
                        }
                        parse_finish(&toks, mods, j)
                    },
                }
            } else {
                let node = AbstractTreeNode::Module(ModuleNode { name, args: Vec::new() });
                let mut mods: Vec<AbstractTreeNode> = Vec::new();
                mods.push(node);
                proof {
                    assert(mods.deep_view() =~= seq![
                        NodeModel::Module { name: w@, args: Seq::empty() },
                    ]);
                }
                parse_finish(&toks, mods, 1)
            }
        } else {
            proof {
                assert(false);
            }
            Err(ParseError { expected: Expected::Terminator, found: None })
        }
    } else {
        let mods: Vec<AbstractTreeNode> = Vec::new();
        proof {
            assert(mods.deep_view() =~= Seq::<NodeModel>::empty());
        }
        parse_finish(&toks, mods, 0)
    }
}

/// Parse, with every structural mismatch degraded to an empty node
/// sequence.
pub fn parser(input: &str) -> (r: Vec<AbstractTreeNode>)
    ensures
        ({
            match spec_parse(input@) {
                Ok(ns) => r.deep_view() == ns,
                Err(_) => r.deep_view() == Seq::<NodeModel>::empty(),
            }
        }),
{
    match parse(input) {
        Ok(nodes) => nodes,
        Err(_) => {
            let v: Vec<AbstractTreeNode> = Vec::new();
            proof {
                assert(v.deep_view() =~= Seq::<NodeModel>::empty());
            }
            v
        },
    }
}

} // verus!
