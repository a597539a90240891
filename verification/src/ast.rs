//! The abstract syntax tree of a parsed command, and the parse error.
//!
//! A parsed command is a flat, ordered sequence of nodes: the module
//! invocation first, then its trailing signatures in source order.
//! Consumers reconstruct the grouping by node kind.
//!
//! A timeout duration is an exact scaled decimal ([`Number`]): the
//! grammar's numeric literals are `digits` or `digits.digits`, and the
//! parser keeps them as written rather than rounding them through a
//! floating-point type.

use vstd::prelude::*;
use crate::chars::{is_digit_char, digit_char_p, run_len, lemma_run_len, lemma_run_len_is};
use crate::chars::digit_char;

verus! {

broadcast use vstd::std_specs::vec::group_vec_axioms;

/// An exact decimal: `mantissa / 10^scale`, kept exactly as the digits
/// were written (`5` is mantissa 5 at scale 0; `2.50` is mantissa 250
/// at scale 2).
#[derive(Debug, Clone, Copy, PartialEq, Eq, Structural)]
pub struct Number {
    pub mantissa: u64,
    pub scale: u32,
}

/// One trailing signature clause of a command.
#[derive(Debug, Clone, PartialEq)]
pub enum SignatureNode {
    /// `on <platform>`, one node per platform named
    On(String),
    Trace,
    Elapsed,
    Silent,
    /// `timeout <value> <unit>`; an unparsable value resolves to zero
    Timeout(Number, String),
}

/// The three spellings of a module argument's payload.
#[derive(Debug, Clone, PartialEq)]
pub enum DataNode {
    /// quoted text
    Text(String),
    /// a named record reference, `@name`
    Record(String),
    /// a named container reference, `[name]`
    Container(String),
}

/// One node of the abstract syntax tree.
#[derive(Debug)]
pub enum AbstractTreeNode {
    Module(ModuleNode),
    Signature(SignatureNode),
    Data(DataNode),
    /// fallback for an argument that matched no specific data shape
    Literal(String),
    Variable(String),
}

/// A module invocation: its name and its arguments in source order.
#[derive(Debug)]
pub struct ModuleNode {
    pub name: String,
    pub args: Vec<AbstractTreeNode>,
}

/// The mathematical image of a [`SignatureNode`].
pub ghost enum SigModel {
    On(Seq<char>),
    Trace,
    Elapsed,
    Silent,
    Timeout(Number, Seq<char>),
}

/// The mathematical image of a [`DataNode`].
pub ghost enum DataModel {
    Text(Seq<char>),
    Record(Seq<char>),
    Container(Seq<char>),
}

/// The mathematical image of an [`AbstractTreeNode`].
pub ghost enum NodeModel {
    Module { name: Seq<char>, args: Seq<NodeModel> },
    Signature(SigModel),
    Data(DataModel),
    Literal(Seq<char>),
    Variable(Seq<char>),
}

impl View for SignatureNode {
    type V = SigModel;

    open spec fn view(&self) -> SigModel {
        match self {
            SignatureNode::On(p) => SigModel::On(p@),
            SignatureNode::Trace => SigModel::Trace,
            SignatureNode::Elapsed => SigModel::Elapsed,
            SignatureNode::Silent => SigModel::Silent,
            SignatureNode::Timeout(n, u) => SigModel::Timeout(*n, u@),
        }
    }
}

impl View for DataNode {
    type V = DataModel;

    open spec fn view(&self) -> DataModel {
        match self {
            DataNode::Text(t) => DataModel::Text(t@),
            DataNode::Record(r) => DataModel::Record(r@),
            DataNode::Container(c) => DataModel::Container(c@),
        }
    }
}

/// The model of one node; mutually recursive with [`nodes_view`]
/// through a module's argument vector.
pub open spec fn node_view(n: AbstractTreeNode) -> NodeModel
    decreases n,
{
    match n {
        AbstractTreeNode::Module(m) => NodeModel::Module {
            name: m.name@,
            args: nodes_view(m.args@),
        },
        AbstractTreeNode::Signature(s) => NodeModel::Signature(s@),
        AbstractTreeNode::Data(d) => NodeModel::Data(d@),
        AbstractTreeNode::Literal(l) => NodeModel::Literal(l@),
        AbstractTreeNode::Variable(v) => NodeModel::Variable(v@),
    }
}

/// The models of a sequence of nodes, one by one.
pub open spec fn nodes_view(s: Seq<AbstractTreeNode>) -> Seq<NodeModel>
    decreases s,
{
    if s.len() == 0 {
        Seq::empty()
    } else {
        seq![node_view(s[0])] + nodes_view(s.skip(1))
    }
}

/// Pointwise reading of [`nodes_view`].
pub proof fn lemma_nodes_view(s: Seq<AbstractTreeNode>)
    ensures
        nodes_view(s).len() == s.len(),
        forall|i: int| 0 <= i < s.len() ==> nodes_view(s)[i] == node_view(#[trigger] s[i]),
    decreases s.len(),
{
    if s.len() > 0 {
        lemma_nodes_view(s.skip(1));
        assert forall|i: int| 0 <= i < s.len() implies nodes_view(s)[i] == node_view(
        #[trigger] s[i]) by {
            if i > 0 {
                assert(s.skip(1)[i - 1] == s[i]);
            }
        }
    }
}

impl View for AbstractTreeNode {
    type V = NodeModel;

    open spec fn view(&self) -> NodeModel {
        node_view(*self)
    }
}

/// The deep view of a vector of nodes is [`nodes_view`] of its
/// sequence.
pub proof fn lemma_vec_nodes_view(v: &Vec<AbstractTreeNode>)
    ensures
        v.deep_view() == nodes_view(v@),
{
    lemma_nodes_view(v@);
    assert(v.deep_view() =~= nodes_view(v@));
}

impl DeepView for AbstractTreeNode {
    type V = NodeModel;

    open spec fn deep_view(&self) -> NodeModel {
        self@
    }
}

/// The grammar production the parser was in when the source failed to
/// match it.
#[derive(Debug, Clone, Copy, PartialEq, Eq, Structural)]
pub enum Expected {
    /// the closing `.` of a command
    Terminator,
    /// a data argument after a comma, or a well-formed container
    Argument,
    /// the value word of a `timeout` clause
    TimeoutValue,
    /// the unit word of a `timeout` clause
    TimeoutUnit,
    /// at least one platform word after `on`
    Platform,
    /// the `say` keyword that opens a minimal command
    SayCommand,
    /// a quoted string literal, closed by its quote
    StringLiteral,
}

/// A structural mismatch: the one fatal error of the grammar parser,
/// carrying the production expected and the lexeme found (`None` at the
/// end of the input).
#[derive(Debug, Clone, PartialEq)]
pub struct ParseError {
    pub expected: Expected,
    pub found: Option<String>,
}

/// The mathematical image of a [`ParseError`].
pub ghost struct ErrorModel {
    pub expected: Expected,
    pub found: Option<Seq<char>>,
}

impl View for ParseError {
    type V = ErrorModel;

    open spec fn view(&self) -> ErrorModel {
        ErrorModel { expected: self.expected, found: self.found.deep_view() }
    }
}

/// Value of an all-digit string read left to right onto `acc`; `None`
/// as soon as the value would no longer fit in a `u64`.
pub open spec fn spec_digits_value(s: Seq<char>, acc: int) -> Option<int>
    decreases s.len(),
{
    if s.len() == 0 {
        Some(acc)
    } else if !is_digit_char(s[0]) {
        None
    } else {
        let v = acc * 10 + (s[0] as u32 - 48);
        if v > u64::MAX {
            None
        } else {
            spec_digits_value(s.skip(1), v)
        }
    }
}

/// How a word is read as a number: `digits`, or `digits.digits`, whose
/// concatenated digits fit in a `u64` mantissa — anything else is not a
/// number.
pub open spec fn spec_parse_number(w: Seq<char>) -> Option<Number> {
    let dp = run_len(w, digit_char_p());
    if dp == 0 {
        None
    } else if dp == w.len() {
        match spec_digits_value(w, 0) {
            Some(v) => Some(Number { mantissa: v as u64, scale: 0 }),
            None => None,
        }
    } else if w[dp as int] == '.' && dp + 1 < w.len() {
        let f = run_len(w.skip(dp as int + 1), digit_char_p());
        if f > 0 && dp + 1 + f == w.len() && f <= u32::MAX {
            match spec_digits_value(w.subrange(0, dp as int) + w.skip(dp as int + 1), 0) {
                Some(v) => Some(Number { mantissa: v as u64, scale: f as u32 }),
                None => None,
            }
        } else {
            None
        }
    } else {
        None
    }
}

impl Number {
    /// The zero every unparsable timeout value resolves to.
    pub open spec fn spec_zero() -> Number {
        Number { mantissa: 0, scale: 0 }
    }

    pub fn zero() -> (r: Number)
        ensures
            r == Number::spec_zero(),
    {
        Number { mantissa: 0, scale: 0 }
    }

    /// Read a word as a decimal number, exactly as [`spec_parse_number`]
    /// describes.
    pub fn parse(w: &str) -> (r: Option<Number>)
        ensures
            r == spec_parse_number(w@),
    {
        let len = w.unicode_len();
        proof {
            assert(w@.skip(0) =~= w@);
        }
        let dp = scan_digits(w, 0);
        if dp == 0 {
            return None;
        }
        if dp == len {
            let v = digits_value(w, 0, dp, dp, dp);
            proof {
                assert(w@.subrange(0, dp as int) + w@.subrange(dp as int, dp as int) =~= w@);
            }
            return match v {
                Some(m) => Some(Number { mantissa: m, scale: 0 }),
                None => None,
            };
        }
        proof {
            lemma_run_len(w@, digit_char_p());
        }
        if w.get_char(dp) == '.' && dp + 1 < len {
            let f_end = scan_digits(w, dp + 1);
            let ghost f = run_len(w@.skip(dp as int + 1), digit_char_p());
            proof {
                assert(f == f_end - (dp + 1));
            }
            if f_end - (dp + 1) > 0 && f_end == len && f_end - (dp + 1) <= u32::MAX as usize {
                let v = digits_value(w, 0, dp, dp + 1, f_end);
                proof {
                    assert(w@.subrange(0, dp as int) + w@.subrange(dp as int + 1, f_end as int)
                        =~= w@.subrange(0, dp as int) + w@.skip(dp as int + 1));
                }
                match v {
                    Some(m) => Some(Number { mantissa: m, scale: (f_end - (dp + 1)) as u32 }),
                    None => None,
                }
            } else {
                None
            }
        } else {
            None
        }
    }
}

/// Scan forward from `from` over decimal digits.
pub(crate) fn scan_digits(w: &str, from: usize) -> (j: usize)
    requires
        from <= w@.len(),
    ensures
        from <= j <= w@.len(),
        j - from == run_len(w@.skip(from as int), digit_char_p()),
{
    let len = w.unicode_len();
    let mut j = from;
    while j < len && digit_char(w.get_char(j))
        invariant
            from <= j <= len,
            len == w@.len(),
            forall|t: int| from <= t < j ==> is_digit_char(#[trigger] w@[t]),
        decreases len - j,
    {
        j += 1;
    }
    proof {
        let tail = w@.skip(from as int);
        assert forall|t: int| 0 <= t < j - from implies digit_char_p()(#[trigger] tail[t]) by {
            assert(tail[t] == w@[from + t]);
        }
        if j < len {
            assert(tail[j - from] == w@[j as int]);
        }
        lemma_run_len_is(tail, digit_char_p(), (j - from) as nat);
    }
    j
}

/// The value of the digits of `w` in `[a0, a1)` followed by those in
/// `[b0, b1)`, as [`spec_digits_value`] reads them.
fn digits_value(w: &str, a0: usize, a1: usize, b0: usize, b1: usize) -> (r: Option<u64>)
    requires
        a0 <= a1 <= w@.len(),
        b0 <= b1 <= w@.len(),
        a1 - a0 + b1 - b0 <= usize::MAX,
    ensures
        ({
            let digits = w@.subrange(a0 as int, a1 as int) + w@.subrange(b0 as int, b1 as int);
            match r {
                Some(v) => spec_digits_value(digits, 0) == Some(v as int),
                None => spec_digits_value(digits, 0) is None,
            }
        }),
{
    let ghost digits = w@.subrange(a0 as int, a1 as int) + w@.subrange(b0 as int, b1 as int);
    let alen = a1 - a0;
    let total = alen + (b1 - b0);
    let mut acc: u64 = 0;
    let mut k: usize = 0;
    proof {
        assert(digits.skip(0) =~= digits);
    }
    while k < total
        invariant
            alen == a1 - a0,
            total == alen + (b1 - b0),
            a0 <= a1 <= w@.len(),
            b0 <= b1 <= w@.len(),
            k <= total,
            digits == w@.subrange(a0 as int, a1 as int) + w@.subrange(b0 as int, b1 as int),
            digits.len() == total,
            spec_digits_value(digits, 0) == spec_digits_value(digits.skip(k as int), acc as int),
        decreases total - k,
    {
        let c = if k < alen {
            w.get_char(a0 + k)
        } else {
            w.get_char(b0 + (k - alen))
        };
        proof {
            assert(digits.skip(k as int)[0] == digits[k as int]);
            assert(digits[k as int] == c);
        }
        if !digit_char(c) {
            return None;
        }
        let d: u64 = (c as u32 - 48) as u64;
        let next = match acc.checked_mul(10) {
            Some(x) => x.checked_add(d),
            None => None,
        };
        match next {
            Some(v) => {
                proof {
                    assert(digits.skip(k as int).skip(1) =~= digits.skip(k as int + 1));
                }
                acc = v;
            },
            None => {
                proof {
                    assert(acc as int * 10 + (c as u32 - 48) > u64::MAX);
                }
                return None;
            },
        }
        k += 1;
    }
    proof {
        assert(digits.skip(total as int) =~= Seq::<char>::empty());
    }
    Some(acc)
}

} // verus!
