//! The value algebra: integers, lists, and shared cells kept in a store.

use crate::model::{contents, Cells, Term};
use vstd::prelude::*;

verus! {

/// A value: an integer leaf, a handle to a shared cell, or a list of values.
///
/// A cell lives in a [`Store`], and a handle is the cell's number there. Two
/// handles with the same number are the same cell, however they were
/// reached; copying a handle copies the number, never what the cell holds.
pub enum Value {
    /// An immutable 64-bit integer.
    Int(i64),
    /// A handle to the cell with this number in a [`Store`].
    Rc(usize),
    /// An ordered sequence of values.
    List(Vec<Value>),
}

impl View for Value {
    type V = Term;

    open spec fn view(&self) -> Term
        decreases self,
    {
        match self {
            Value::Int(x) => Term::Int(*x as int),
            Value::Rc(id) => Term::Cell(*id as nat),
            Value::List(items) => Term::List(view_all(items@)),
        }
    }
}

impl Clone for Value {
    /// Copies a value: an integer by value, a list item by item, and a
    /// handle as the same handle, so that the copy refers to the same cell.
    fn clone(&self) -> (copy: Self)
        ensures
            copy@ == self@,
        decreases self,
    {
        match self {
            Value::Int(x) => Value::Int(*x),
            Value::Rc(id) => Value::Rc(*id),
            Value::List(items) => {
                let mut copies: Vec<Value> = Vec::new();
                let mut i: usize = 0;
                while i < items.len()
                    invariant
                        i <= items.len(),
                        *items == self->List_0,
                        self is List,
                        copies@.len() == i,
                        forall|j: int| 0 <= j < i ==> (#[trigger] copies@[j])@ == items@[j]@,
                    decreases items.len() - i,
                {
                    assert(decreases_to!(*self => self->List_0));
                    assert(decreases_to!(*items => items[i as int]));
                    copies.push(items[i].clone());
                    i += 1;
                }
                proof {
                    lemma_view_all(items@);
                    lemma_view_all(copies@);
                    assert(view_all(copies@) =~= view_all(items@));
                }
                Value::List(copies)
            },
        }
    }
}

/// The terms of a sequence of values, in order.
pub open spec fn view_all(items: Seq<Value>) -> Seq<Term>
    decreases items,
{
    if items.len() == 0 {
        Seq::empty()
    } else {
        view_all(items.drop_last()).push(items.last()@)
    }
}

/// `view_all` keeps the length and maps each item to its term.
pub proof fn lemma_view_all(items: Seq<Value>)
    ensures
        view_all(items).len() == items.len(),
        forall|i: int| 0 <= i < items.len() ==> (#[trigger] view_all(items)[i]) == items[i]@,
    decreases items.len(),
{
    if items.len() > 0 {
        lemma_view_all(items.drop_last());
        assert(view_all(items) == view_all(items.drop_last()).push(items.last()@));
    } else {
        assert(view_all(items) == Seq::<Term>::empty());
    }
}

/// The term of what a slot holds.
spec fn view_slot(slot: Option<Value>) -> Option<Term> {
    match slot {
        Some(value) => Some(value@),
        None => None,
    }
}

/// The cells that handles refer to.
///
/// A store hands out cells one by one, numbered from zero. Each cell is
/// either unbound or bound to a value, which may hold handles to any cell,
/// the cell itself included: this is how a cyclic value comes about. Cells
/// are never taken back; they live as long as the store does.
pub struct Store {
    slots: Vec<Option<Value>>,
}

impl View for Store {
    type V = Cells;

    closed spec fn view(&self) -> Cells {
        Seq::new(self.slots@.len(), |i: int| view_slot(self.slots@[i]))
    }
}

/// The error for an operation on a value that does not admit it.
#[derive(Debug, Clone, Copy, PartialEq, Eq)]
pub struct InvalidOperation;

impl Store {
    /// A store without cells.
    pub fn new() -> (store: Store)
        ensures
            store@ == Seq::<Option<Term>>::empty(),
    {
        Store { slots: Vec::new() }
    }

    /// What cell `id` is bound to, if it is a cell of this store and bound.
    pub fn get(&self, id: usize) -> (bound: Option<&Value>)
        ensures
            match bound {
                Some(value) => contents(self@, id as nat) == Some(value@),
                None => contents(self@, id as nat) is None,
            },
    {
        if id < self.slots.len() {
            self.slots[id].as_ref()
        } else {
            None
        }
    }
}

/// Builds an integer leaf.
pub fn integer(x: i64) -> (v: Value)
    ensures
        v@ == Term::Int(x as int),
{
    Value::Int(x)
}

/// Hands out a fresh, unbound cell of `store` and returns the handle to it.
pub fn rc(store: &mut Store) -> (v: Value)
    ensures
        v@ == Term::Cell(old(store)@.len()),
        final(store)@ == old(store)@.push(None),
{
    let id: usize = store.slots.len();
    store.slots.push(None);
    Value::Rc(id)
}

/// Builds a list that owns `xs`, in the order given.
pub fn list(xs: Vec<Value>) -> (v: Value)
    ensures
        v@ == Term::List(view_all(xs@)),
{
    Value::List(xs)
}

impl Value {
    /// Binds the cell that `self` is a handle to, in `store`, to `value`,
    /// replacing what the cell was bound to before.
    ///
    /// Fails, and changes nothing, if `self` is not a handle to a cell of
    /// `store`: an integer, a list, or a handle that `store` did not hand
    /// out.
    pub fn resolve(&mut self, store: &mut Store, value: Value) -> (r: Result<(), InvalidOperation>)
        ensures
            *final(self) == *old(self),
            match old(self)@ {
                Term::Cell(id) if id < old(store)@.len() => {
                    &&& r is Ok
                    &&& final(store)@ == old(store)@.update(id as int, Some(value@))
                },
                _ => {
                    &&& r == Err::<(), InvalidOperation>(InvalidOperation)
                    &&& final(store)@ == old(store)@
                },
            },
    {
        match self {
            Value::Rc(id) => {
                if *id < store.slots.len() {
                    store.slots.set(*id, Some(value));
                    Ok(())
                } else {
                    Err(InvalidOperation)
                }
            },
            _ => Err(InvalidOperation),
        }
    }
}

} // verus!
