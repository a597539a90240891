//! The list container of the scripting language's standard library:
//! an ordered collection of strings with operations at both ends, fit
//! for stack and queue use alike.

use vstd::prelude::*;
use crate::chars::{spec_join, lemma_join_push, spec_dec, u64_to_string};

verus! {

broadcast use vstd::std_specs::vec::group_vec_axioms;

/// Why a list operation failed.
#[derive(Debug, Clone, PartialEq)]
pub enum ListError {
    /// the named operation needs a non-empty list
    EmptyList(String),
    /// no element at this index
    InvalidIndex(usize),
    /// no list of this name exists
    NotFound(String),
}

/// The mathematical image of a [`ListError`].
pub ghost enum ListErrorModel {
    EmptyList(Seq<char>),
    InvalidIndex(usize),
    NotFound(Seq<char>),
}

impl View for ListError {
    type V = ListErrorModel;

    open spec fn view(&self) -> ListErrorModel {
        match self {
            ListError::EmptyList(op) => ListErrorModel::EmptyList(op@),
            ListError::InvalidIndex(i) => ListErrorModel::InvalidIndex(*i),
            ListError::NotFound(n) => ListErrorModel::NotFound(n@),
        }
    }
}

impl ListError {
    /// The message the error prints, its code first.
    pub fn message(&self) -> (r: String)
        ensures
            r@ == (match self@ {
                ListErrorModel::EmptyList(op) => "LIST-001: Cannot "@ + op
                    + " from empty list"@,
                ListErrorModel::InvalidIndex(i) => "LIST-002: Invalid index: "@ + spec_dec(
                    i as nat,
                ),
                ListErrorModel::NotFound(n) => "LIST-003: List not found: "@ + n,
            }),
    {
        match self {
            ListError::EmptyList(op) => {
                let mut m = String::from_str("LIST-001: Cannot ");
                m.append(op.as_str());
                m.append(" from empty list");
                m
            },
            ListError::InvalidIndex(i) => {
                let mut m = String::from_str("LIST-002: Invalid index: ");
                let rendered = u64_to_string(*i as u64);
                m.append(rendered.as_str());
                m
            },
            ListError::NotFound(n) => {
                let mut m = String::from_str("LIST-003: List not found: ");
                m.append(n.as_str());
                m
            },
        }
    }
}

/// An ordered list of string values.
#[derive(Debug, Clone)]
pub struct List {
    items: Vec<String>,
}

impl View for List {
    type V = Seq<Seq<char>>;

    closed spec fn view(&self) -> Seq<Seq<char>> {
        self.items.deep_view()
    }
}

impl List {
    /// Create a new empty list.
    pub fn new() -> (r: List)
        ensures
            r@ == Seq::<Seq<char>>::empty(),
    {
        let l = List { items: Vec::new() };
        proof {
            assert(l@ =~= Seq::<Seq<char>>::empty());
        }
        l
    }

    /// Create a list holding exactly the given items, in their order.
    pub fn from_vec(items: Vec<String>) -> (r: List)
        ensures
            r@ == items.deep_view(),
    {
        List { items }
    }

    /// Add an element at the end.
    pub fn append(&mut self, value: String)
        ensures
            final(self)@ == old(self)@.push(value@),
    {
        let ghost old_items = self.items@;
        self.items.push(value);
        proof {
            assert forall|t: int| 0 <= t < final(self)@.len() implies final(self)@[t] == old(
            self)@.push(value@)[t] by {
                if t < old_items.len() {
                    assert(final(self).items@[t] == old_items[t]);
                }
            }
            assert(final(self)@ =~= old(self)@.push(value@));
        }
    }

    /// Add an element at the front.
    pub fn prepend(&mut self, value: String)
        ensures
            final(self)@ == seq![value@] + old(self)@,
    {
        let ghost old_items = self.items@;
        self.items.insert(0, value);
        proof {
            assert forall|t: int| 0 <= t < final(self)@.len() implies final(self)@[t] == (
            seq![value@] + old(self)@)[t] by {
                if t > 0 {
                    assert(final(self).items@[t] == old_items[t - 1]);
                }
            }
            assert(final(self)@ =~= seq![value@] + old(self)@);
        }
    }

    /// Remove and return the last element; on an empty list, the
    /// `EmptyList` error for `pop` and no change.
    pub fn pop(&mut self) -> (r: Result<String, ListError>)
        ensures
            ({
                match r {
                    Ok(v) => old(self)@.len() > 0 && v@ == old(self)@.last() && final(self)@ == old(
                    self)@.drop_last(),
                    Err(e) => old(self)@.len() == 0 && final(self)@ == old(self)@ && e@
                        == ListErrorModel::EmptyList("pop"@),
                }
            }),
    {
        let ghost old_items = self.items@;
        match self.items.pop() {
            Some(v) => {
                proof {
                    assert(final(self)@ =~= old(self)@.drop_last());
                }
                Ok(v)
            },
            None => {
                proof {
                    assert(final(self)@ =~= old(self)@);
                }
                Err(ListError::EmptyList(String::from_str("pop")))
            },
        }
    }

    /// Remove and return the first element; on an empty list, the
    /// `EmptyList` error for `shift` and no change.
    pub fn shift(&mut self) -> (r: Result<String, ListError>)
        ensures
            ({
                match r {
                    Ok(v) => old(self)@.len() > 0 && v@ == old(self)@.first() && final(self)@
                        == old(self)@.drop_first(),
                    Err(e) => old(self)@.len() == 0 && final(self)@ == old(self)@ && e@
                        == ListErrorModel::EmptyList("shift"@),
                }
            }),
    {
        let ghost old_items = self.items@;
        if self.items.len() == 0 {
            return Err(ListError::EmptyList(String::from_str("shift")));
        }
        let v = self.items.remove(0);
        proof {
            assert forall|t: int| 0 <= t < final(self)@.len() implies final(self)@[t] == old(
            self)@.drop_first()[t] by {
                assert(final(self).items@[t] == old_items[t + 1]);
            }
            assert(final(self)@ =~= old(self)@.drop_first());
        }
        Ok(v)
    }

    /// Return the last element without removing it; on an empty list,
    /// the `EmptyList` error for `peek`.
    pub fn peek_end(&self) -> (r: Result<String, ListError>)
        ensures
            ({
                match r {
                    Ok(v) => self@.len() > 0 && v@ == self@.last(),
                    Err(e) => self@.len() == 0 && e@ == ListErrorModel::EmptyList("peek"@),
                }
            }),
    {
        if self.items.len() == 0 {
            Err(ListError::EmptyList(String::from_str("peek")))
        } else {
            Ok(self.items[self.items.len() - 1].clone())
        }
    }

    /// Return the first element without removing it; on an empty list,
    /// the `EmptyList` error for `peek`.
    pub fn peek_front(&self) -> (r: Result<String, ListError>)
        ensures
            ({
                match r {
                    Ok(v) => self@.len() > 0 && v@ == self@.first(),
                    Err(e) => self@.len() == 0 && e@ == ListErrorModel::EmptyList("peek"@),
                }
            }),
    {
        if self.items.len() == 0 {
            Err(ListError::EmptyList(String::from_str("peek")))
        } else {
            Ok(self.items[0].clone())
        }
    }

    /// The number of elements.
    pub fn length(&self) -> (r: usize)
        ensures
            r == self@.len(),
    {
        self.items.len()
    }

    /// Whether the list holds no element.
    pub fn is_empty(&self) -> (r: bool)
        ensures
            r == (self@.len() == 0),
    {
        self.items.len() == 0
    }

    /// The element at `index`; out of range, the `InvalidIndex` error
    /// carrying that index.
    pub fn get(&self, index: usize) -> (r: Result<String, ListError>)
        ensures
            ({
                match r {
                    Ok(v) => index < self@.len() && v@ == self@[index as int],
                    Err(e) => index >= self@.len() && e@ == ListErrorModel::InvalidIndex(index),
                }
            }),
    {
        if index < self.items.len() {
            Ok(self.items[index].clone())
        } else {
            Err(ListError::InvalidIndex(index))
        }
    }

    /// All items, in order.
    pub fn items(&self) -> (r: &Vec<String>)
        ensures
            r.deep_view() == self@,
    {
        &self.items
    }

    /// Remove every element.
    pub fn clear(&mut self)
        ensures
            final(self)@ == Seq::<Seq<char>>::empty(),
    {
        self.items.clear();
        proof {
            assert(final(self)@ =~= Seq::<Seq<char>>::empty());
        }
    }

    /// The `[a, b, c]` rendering: the items joined with `", "` between
    /// brackets.
    pub fn to_string(&self) -> (r: String)
        ensures
            r@ == seq!['['] + spec_join(self@, ", "@) + seq![']'],
    {
        let mut out = String::from_str("[");
        proof {
            reveal_strlit("[");
            assert("["@ =~= seq!['[']);
        }
        let n = self.items.len();
        let mut i: usize = 0;
        while i < n
            invariant
                n == self@.len(),
                self@.len() == self.items@.len(),
                i <= n,
                out@ == seq!['['] + spec_join(self@.take(i as int), ", "@),
            decreases n - i,
        {
            let ghost pref = self@.take(i as int);
            if i > 0 {
                out.append(", ");
            }
            out.append(self.items[i].as_str());
            proof {
                reveal_strlit(", ");
                assert(self@[i as int] == self.items@[i as int]@);
                lemma_join_push(pref, ", "@, self@[i as int]);
                assert(self@.take(i as int).push(self@[i as int]) =~= self@.take(i as int + 1));
                assert(out@ =~= seq!['['] + spec_join(self@.take(i as int + 1), ", "@));
            }
            i += 1;
        }
        out.append("]");
        proof {
            reveal_strlit("]");
            assert(self@.take(n as int) =~= self@);
            assert(out@ =~= seq!['['] + spec_join(self@, ", "@) + seq![']']);
        }
        out
    }
}

impl Default for List {
    fn default() -> (r: Self)
        ensures
            r@ == Seq::<Seq<char>>::empty(),
    {
        Self::new()
    }
}

/// Append an element to the list.
pub fn append(list: &mut List, value: String)
    ensures
        final(list)@ == old(list)@.push(value@),
{
    list.append(value);
}

/// Prepend an element to the list.
pub fn prepend(list: &mut List, value: String)
    ensures
        final(list)@ == seq![value@] + old(list)@,
{
    list.prepend(value);
}

/// Remove and return the last element.
pub fn pop(list: &mut List) -> (r: Result<String, ListError>)
    ensures
        ({
            match r {
                Ok(v) => old(list)@.len() > 0 && v@ == old(list)@.last() && final(list)@ == old(
                list)@.drop_last(),
                Err(e) => old(list)@.len() == 0 && final(list)@ == old(list)@ && e@
                    == ListErrorModel::EmptyList("pop"@),
            }
        }),
{
    list.pop()
}

/// Remove and return the first element.
pub fn shift(list: &mut List) -> (r: Result<String, ListError>)
    ensures
        ({
            match r {
                Ok(v) => old(list)@.len() > 0 && v@ == old(list)@.first() && final(list)@ == old(
                list)@.drop_first(),
                Err(e) => old(list)@.len() == 0 && final(list)@ == old(list)@ && e@
                    == ListErrorModel::EmptyList("shift"@),
            }
        }),
{
    list.shift()
}

/// The last element, without removal.
pub fn peek_end(list: &List) -> (r: Result<String, ListError>)
    ensures
        ({
            match r {
                Ok(v) => list@.len() > 0 && v@ == list@.last(),
                Err(e) => list@.len() == 0 && e@ == ListErrorModel::EmptyList("peek"@),
            }
        }),
{
    list.peek_end()
}

/// The first element, without removal.
pub fn peek_front(list: &List) -> (r: Result<String, ListError>)
    ensures
        ({
            match r {
                Ok(v) => list@.len() > 0 && v@ == list@.first(),
                Err(e) => list@.len() == 0 && e@ == ListErrorModel::EmptyList("peek"@),
            }
        }),
{
    list.peek_front()
}

/// The number of elements.
pub fn length(list: &List) -> (r: usize)
    ensures
        r == list@.len(),
{
    list.length()
}

} // verus!
