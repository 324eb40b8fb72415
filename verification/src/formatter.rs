//! The traversal that renders a value, entering each cell at most once.

use crate::decimal::decimal_string;
use crate::model::{
    lemma_render_push, lemma_render_single, lemma_unseen_enter, lemma_unseen_shrinks, render,
    render_items, unseen, Term,
};
use crate::value::{lemma_view_all, view_all, Store, Value};
use std::collections::HashSet;
use vstd::prelude::*;
use vstd::string::StringExecFns;

verus! {

/// The text that a sequence of chunks spells when read in order.
spec fn joined(chunks: Seq<String>) -> Seq<char>
    decreases chunks.len(),
{
    if chunks.len() == 0 {
        Seq::empty()
    } else {
        joined(chunks.drop_last()) + chunks.last()@
    }
}

/// The cell numbers that a set of handles stands for.
spec fn cell_numbers(handles: Set<usize>) -> Set<nat> {
    Set::new(|id: nat| id <= usize::MAX && handles.contains(id as usize))
}

/// What a formatter has done so far: the cells it has entered and the text
/// it has produced.
pub struct Progress {
    pub seen: Set<nat>,
    pub text: Seq<char>,
}

/// The working state of one rendering: the cells entered so far, and the
/// output so far as a buffer of chunks.
pub struct ValueFormatter {
    visited: HashSet<usize>,
    chunks: Vec<String>,
}

impl View for ValueFormatter {
    type V = Progress;

    closed spec fn view(&self) -> Progress {
        Progress { seen: cell_numbers(self.visited@), text: joined(self.chunks@) }
    }
}

impl Default for ValueFormatter {
    /// A formatter that has entered no cell and produced no text.
    fn default() -> (fresh: Self)
        ensures
            fresh@.seen == Set::<nat>::empty(),
            fresh@.text == Seq::<char>::empty(),
    {
        ValueFormatter { visited: HashSet::new(), chunks: Vec::new() }
    }
}

impl ValueFormatter {
    /// Appends `x` to the output.
    pub fn add(&mut self, x: &str)
        ensures
            final(self)@.text == old(self)@.text + x@,
            final(self)@.seen == old(self)@.seen,
    {
        let ghost before = self.chunks@;
        self.chunks.push(String::from_str(x));
        assert(self.chunks@.drop_last() == before);
    }

    /// The output so far, as one string.
    pub fn string(&self) -> (s: String)
        ensures
            s@ == self@.text,
    {
        let mut out = String::new();
        let mut i: usize = 0;
        while i < self.chunks.len()
            invariant
                i <= self.chunks.len(),
                out@ == joined(self.chunks@.take(i as int)),
            decreases self.chunks.len() - i,
        {
            assert(self.chunks@.take(i + 1).drop_last() == self.chunks@.take(i as int));
            out.append(self.chunks[i].as_str());
            i += 1;
        }
        assert(self.chunks@.take(i as int) == self.chunks@);
        out
    }

    /// Visits `x`: renders it into the output, entering each cell that it
    /// meets for the first time and writing `*` for each cell that was
    /// entered before, in this visit or an earlier one.
    pub fn visit(&mut self, store: &Store, x: &Value)
        ensures
            final(self)@.text == old(self)@.text + render(store@, x@, old(self)@.seen).text,
            final(self)@.seen == old(self)@.seen.union(
                render(store@, x@, old(self)@.seen).entered,
            ),
        decreases unseen(store@.len(), old(self)@.seen).len(), x,
    {
        broadcast use vstd::std_specs::hash::group_hash_axioms;

        let ghost seen = old(self)@.seen;
        let ghost text = old(self)@.text;
        match x {
            Value::Int(n) => {
                let digits = decimal_string(*n);
                self.add(digits.as_str());
                assert(self@.seen == seen.union(Set::empty()));
            },
            Value::Rc(id) => {
                if self.visited.contains(id) {
                    self.add("*");
                    assert(self@.seen == seen.union(Set::empty()));
                } else {
                    self.visited.insert(*id);
                    assert(self@.seen == seen.insert(*id as nat));
                    match store.get(*id) {
                        None => {
                            self.add("uninit");
                            assert(self@.seen == seen.union(set![*id as nat]));
                        },
                        Some(inner) => {
                            proof {
                                lemma_unseen_enter(store@.len(), seen, *id as nat);
                            }
                            self.visit(store, inner);
                            assert(self@.seen == seen.union(
                                render(store@, inner@, seen.insert(*id as nat)).entered.insert(
                                    *id as nat,
                                ),
                            ));
                        },
                    }
                }
            },
            Value::List(items) => {
                let ghost terms = view_all(items@);
                proof {
                    lemma_view_all(items@);
                }
                self.add("[");
                if items.len() > 0 {
                    self.visit(store, &items[0]);
                    proof {
                        lemma_render_single(store@, items@[0]@, seen);
                        assert(terms.take(1) == seq![items@[0]@]);
                    }
                    let mut i: usize = 1;
                    while i < items.len()
                        invariant
                            1 <= i <= items.len(),
                            *items == x->List_0,
                            x is List,
                            terms.len() == items@.len(),
                            forall|j: int|
                                0 <= j < items@.len() ==> (#[trigger] terms[j]) == items@[j]@,
                            seen == old(self)@.seen,
                            self@.text == text + "["@ + render_items(
                                store@,
                                terms.take(i as int),
                                seen,
                            ).text,
                            self@.seen == seen.union(
                                render_items(store@, terms.take(i as int), seen).entered,
                            ),
                        decreases items.len() - i,
                    {
                        proof {
                            let before = terms.take(i as int);
                            let item = items@[i as int]@;
                            let init = render_items(store@, before, seen);
                            lemma_unseen_shrinks(store@.len(), seen, init.entered);
                            lemma_render_push(store@, before, item, seen);
                            assert(terms.take(i + 1) == before.push(item));
                            assert(decreases_to!(*x => x->List_0));
                            assert(decreases_to!(*items => items[i as int]));
                        }
                        self.add(", ");
                        self.visit(store, &items[i]);
                        i += 1;
                    }
                    assert(terms.take(i as int) == terms);
                }
                let ghost inside = render_items(store@, terms, seen);
                assert(self@.text == text + "["@ + inside.text);
                assert(self@.seen == seen.union(inside.entered));
                assert(x@ == Term::List(terms));
                self.add("]");
            },
        }
    }
}

impl Value {
    /// Renders `self` as text, reading cells from `store`.
    ///
    /// Never fails and always returns, also where the value reaches itself
    /// through a cell: each cell is entered once, and met again it is `*`.
    pub fn format(&self, store: &Store) -> (s: String)
        ensures
            s@ == render(store@, self@, Set::empty()).text,
    {
        let mut formatter = ValueFormatter::default();
        formatter.visit(store, self);
        formatter.string()
    }
}

} // verus!
