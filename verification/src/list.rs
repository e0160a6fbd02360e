//! A persistent sequence: an immutable, ordered collection whose "modifying" operations
//! return a new sequence and leave the receiver as it was.
//!
//! A list is a handle to shared storage. Cloning a list copies the handle, so the clone
//! *is* the list it was made from: in contracts the two are equal (`==`), storage
//! included. The executable comparison ([`List::same`], and `==` on lists) asks whether
//! two handles lead to the same storage; it never looks at the elements. Its answer
//! `true` is proof of equality; its answer `false` proves nothing, because nothing in a
//! value tells where it is stored.
//!
//! Elements are carried from one list to the next by `Clone`. What a contract can say of
//! a clone is what the element type says of its `clone`; where that is exact
//! ([`clones_exactly`]), the contracts give the new list element by element.
use crate::shared::{same_allocation, share};
use std::rc::Rc;
use vstd::prelude::*;
use vstd::std_specs::cmp::PartialEqSpec;

verus! {

/// Every element of `after` is a clone of the element of `before` at the same place.
///
/// An element that is equal to its counterpart counts as a clone of it.
pub open spec fn carried<T: Clone>(before: Seq<T>, after: Seq<T>) -> bool {
    &&& after.len() == before.len()
    &&& forall|i: int| 0 <= i < before.len() ==> cloned::<T>(before[i], #[trigger] after[i])
}

/// Cloning a `T` gives back an equal `T`.
///
/// This holds of the integers, of `bool`, of `String`, of lists and grids, and of
/// options and tuples of such types; a type with a `Clone` of its own decides for itself.
pub open spec fn clones_exactly<T: Clone>() -> bool {
    forall|a: T, b: T| #[trigger] cloned::<T>(a, b) ==> a == b
}

/// What the element type's own `==` answered when asked whether `a == b`.
///
/// Where the type states what its `==` computes (`T::obeys_eq_spec()`), the only
/// possible answer is `a.eq_spec(&b)`.
pub open spec fn eq_answer<T: PartialEq>(a: T, b: T, answer: bool) -> bool {
    call_ensures(T::eq, (&a, &b), answer)
}

/// `value` is what `T::default()` may return.
pub open spec fn is_default<T: Default>(value: T) -> bool {
    call_ensures(T::default, (), value)
}

/// Where cloning is exact, a sequence of clones is the sequence itself.
pub proof fn lemma_carried_exact<T: Clone>(before: Seq<T>, after: Seq<T>)
    requires
        clones_exactly::<T>(),
        carried(before, after),
    ensures
        after == before,
{
    assert forall|i: int| 0 <= i < before.len() implies after[i] == before[i] by {
        assert(cloned::<T>(before[i], after[i]));
    }
    assert(after =~= before);
}

/// An immutable sequence of `T` behind a shared handle.
#[derive(Debug)]
pub struct List<T> {
    items: Rc<Vec<T>>,
}

impl<T> View for List<T> {
    type V = Seq<T>;

    closed spec fn view(&self) -> Seq<T> {
        self.items@
    }
}

impl<T> List<T> {
    /// The empty list.
    pub fn new() -> (list: Self)
        ensures
            list@ == Seq::<T>::empty(),
    {
        List { items: Rc::new(Vec::new()) }
    }

    /// The number of elements.
    pub fn len(&self) -> (len: usize)
        ensures
            len == self@.len(),
    {
        self.items.len()
    }

    /// The element at `index`, or `None` where the list is shorter.
    pub fn get(&self, index: usize) -> (element: Option<&T>)
        ensures
            element == if index < self@.len() {
                Some(&self@[index as int])
            } else {
                None
            },
    {
        if index < self.items.len() {
            Some(&self.items[index])
        } else {
            None
        }
    }

    /// The elements in order, borrowed from the list.
    pub fn iter(&self) -> (elements: Vec<&T>)
        ensures
            elements@.len() == self@.len(),
            forall|i: int| 0 <= i < self@.len() ==> *(#[trigger] elements@[i]) == self@[i],
    {
        let mut elements: Vec<&T> = Vec::with_capacity(self.items.len());
        let mut i: usize = 0;
        while i < self.items.len()
            invariant
                i <= self.items@.len(),
                elements@.len() == i,
                forall|k: int| 0 <= k < i ==> *(#[trigger] elements@[k]) == self.items@[k],
            decreases self.items@.len() - i,
        {
            elements.push(&self.items[i]);
            i += 1;
        }
        elements
    }

    /// Whether the two lists are one: handles to the same storage.
    ///
    /// The elements are not compared. Two lists that this function calls the same are
    /// equal in every respect.
    pub fn same(&self, other: &Self) -> (same: bool)
        ensures
            same ==> *self == *other,
    {
        same_allocation(&self.items, &other.items)
    }
}

impl<T: Clone> List<T> {
    /// A new list: `value`, then a clone of each element of this one.
    pub fn push_front(&self, value: T) -> (list: Self)
        requires
            self@.len() < usize::MAX,
        ensures
            list@.len() == self@.len() + 1,
            list@[0] == value,
            forall|i: int| 0 <= i < self@.len() ==> cloned::<T>(#[trigger] self@[i], list@[i + 1]),
            clones_exactly::<T>() ==> list@ == seq![value] + self@,
    {
        let mut new_items: Vec<T> = Vec::with_capacity(self.items.len() + 1);
        new_items.push(value);
        new_items.extend_from_slice(self.items.as_slice());
        let list = List { items: Rc::new(new_items) };
        proof {
            if clones_exactly::<T>() {
                assert forall|i: int| 0 <= i < list@.len() implies list@[i] == (seq![value]
                    + self@)[i] by {
                    if i > 0 {
                        assert(cloned::<T>(self@[i - 1], list@[i]));
                    }
                }
                assert(list@ =~= seq![value] + self@);
            }
        }
        list
    }

    /// A new list: a clone of each element of this one, then `value`.
    pub fn push_back(&self, value: T) -> (list: Self)
        requires
            self@.len() < usize::MAX,
        ensures
            list@.len() == self@.len() + 1,
            list@[self@.len() as int] == value,
            forall|i: int| 0 <= i < self@.len() ==> cloned::<T>(self@[i], #[trigger] list@[i]),
            clones_exactly::<T>() ==> list@ == self@.push(value),
    {
        let mut new_items: Vec<T> = Vec::with_capacity(self.items.len() + 1);
        new_items.extend_from_slice(self.items.as_slice());
        new_items.push(value);
        let list = List { items: Rc::new(new_items) };
        proof {
            if clones_exactly::<T>() {
                assert forall|i: int| 0 <= i < list@.len() implies list@[i] == self@.push(
                    value,
                )[i] by {
                    if i < self@.len() {
                        assert(cloned::<T>(self@[i], list@[i]));
                    }
                }
                assert(list@ =~= self@.push(value));
            }
        }
        list
    }
}

impl<T: Clone + PartialEq> List<T> {
    /// Puts `value` at `index`, and tells whether that replaced anything.
    ///
    /// `None` where `index` is out of range. Otherwise the element at `index` is asked
    /// whether it equals `value`, by the element type's own `==`. If it does, nothing is
    /// replaced: the result is this very list, and `value` is dropped. If it does not,
    /// the result is a new list that holds `value` at `index` and a clone of every other
    /// element.
    pub fn assign(&self, index: usize, value: T) -> (outcome: Option<(Self, bool)>)
        ensures
            outcome is None <==> index >= self@.len(),
            outcome matches Some((list, replaced)) ==> {
                &&& eq_answer(self@[index as int], value, !replaced)
                &&& T::obeys_eq_spec() ==> replaced == !self@[index as int].eq_spec(&value)
                &&& !replaced ==> list == *self
                &&& replaced ==> list@[index as int] == value && carried(
                    self@.update(index as int, value),
                    list@,
                )
                &&& replaced && clones_exactly::<T>() ==> list@ == self@.update(index as int, value)
            },
    {
        let len = self.items.len();
        if index >= len {
            return None;
        }
        if self.items[index] == value {
            return Some((List { items: share(&self.items) }, false));
        }
        let mut new_items: Vec<T> = Vec::with_capacity(len);
        new_items.extend_from_slice(&self.items.as_slice()[0..index]);
        new_items.push(value);
        new_items.extend_from_slice(&self.items.as_slice()[index + 1..len]);
        let list = List { items: Rc::new(new_items) };
        proof {
            if clones_exactly::<T>() {
                lemma_carried_exact(self@.update(index as int, value), list@);
            }
        }
        Some((list, true))
    }

    /// Puts `value` at `index`.
    ///
    /// `None` where `index` is out of range. Where the element at `index` already equals
    /// `value`, by the element type's own `==`, the result is this very list. Otherwise it
    /// is a new list that holds `value` at `index` and a clone of every other element.
    pub fn set(&self, index: usize, value: T) -> (list: Option<Self>)
        ensures
            list is None <==> index >= self@.len(),
            T::obeys_eq_spec() && index < self@.len() && self@[index as int].eq_spec(&value)
                ==> list == Some(*self),
            list matches Some(l) ==> {
                ||| l == *self && eq_answer(self@[index as int], value, true)
                ||| {
                    &&& eq_answer(self@[index as int], value, false)
                    &&& l@[index as int] == value
                    &&& carried(self@.update(index as int, value), l@)
                    &&& clones_exactly::<T>() ==> l@ == self@.update(index as int, value)
                }
            },
    {
        match self.assign(index, value) {
            Some((list, _)) => Some(list),
            None => None,
        }
    }
}

impl<T: Default> List<T> {
    /// The list of `len` default elements.
    pub fn with_length(len: usize) -> (list: Self)
        ensures
            list@.len() == len,
            forall|i: int| 0 <= i < len ==> is_default(#[trigger] list@[i]),
    {
        let mut items: Vec<T> = Vec::with_capacity(len);
        let mut i: usize = 0;
        while i < len
            invariant
                i <= len,
                items@.len() == i,
                forall|k: int| 0 <= k < i ==> is_default(#[trigger] items@[k]),
            decreases len - i,
        {
            items.push(T::default());
            i += 1;
        }
        List { items: Rc::new(items) }
    }
}

impl<T> Default for List<T> {
    /// The empty list.
    fn default() -> (list: Self)
        ensures
            list@ == Seq::<T>::empty(),
    {
        List::new()
    }
}

impl<T> Clone for List<T> {
    /// This very list, through one more handle to its storage.
    fn clone(&self) -> (list: Self)
        ensures
            list == *self,
    {
        List { items: share(&self.items) }
    }
}

impl<T> PartialEq for List<T> {
    /// As [`List::same`]: whether the two lists are one.
    fn eq(&self, other: &Self) -> (same: bool)
        ensures
            same ==> *self == *other,
    {
        self.same(other)
    }
}

impl<T> vstd::std_specs::cmp::PartialEqSpecImpl for List<T> {
    /// `==` on lists compares storage, which no value shows: its answer is not a
    /// function of the two lists.
    open spec fn obeys_eq_spec() -> bool {
        false
    }

    open spec fn eq_spec(&self, other: &Self) -> bool {
        *self == *other
    }
}

impl<T> From<Vec<T>> for List<T> {
    /// The list that holds the elements of `items`, in their order.
    fn from(items: Vec<T>) -> (list: Self)
        ensures
            list@ == items@,
    {
        List { items: Rc::new(items) }
    }
}

impl<T> vstd::std_specs::convert::FromSpecImpl<Vec<T>> for List<T> {
    open spec fn obeys_from_spec() -> bool {
        true
    }

    closed spec fn from_spec(items: Vec<T>) -> Self {
        List { items: Rc::new(items) }
    }
}

} // verus!
