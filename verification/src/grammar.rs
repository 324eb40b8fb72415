//! The grammar of rendered text, and the proof that every rendering is a
//! text of it.
//!
//! ```text
//! value := integer | "uninit" | "*" | list
//! list  := "[" [ value { ", " value } ] "]"
//! ```

use crate::decimal::decimal;
use crate::model::{
    contents, lemma_unseen_enter, lemma_unseen_shrinks, render, render_items, unseen, Cells, Term,
};
use vstd::prelude::*;

verus! {

/// A derivation in the grammar.
pub enum Shape {
    /// An integer in decimal.
    Integer(int),
    /// The token for a cell that holds nothing.
    Uninit,
    /// The back-reference marker.
    Marker,
    /// A bracketed list of derivations.
    List(Seq<Shape>),
}

/// The text that a derivation spells.
pub open spec fn spell(shape: Shape) -> Seq<char>
    decreases shape,
{
    match shape {
        Shape::Integer(x) => decimal(x),
        Shape::Uninit => "uninit"@,
        Shape::Marker => "*"@,
        Shape::List(items) => "["@ + spell_items(items) + "]"@,
    }
}

/// The text that derivations spell when separated by `, `.
pub open spec fn spell_items(items: Seq<Shape>) -> Seq<char>
    decreases items,
{
    if items.len() == 0 {
        Seq::empty()
    } else if items.len() == 1 {
        spell(items.last())
    } else {
        spell_items(items.drop_last()) + ", "@ + spell(items.last())
    }
}

/// Whether `text` is a value of the grammar.
pub open spec fn is_value_text(text: Seq<char>) -> bool {
    exists|shape: Shape| spell(shape) == text
}

/// A derivation of what a visit of `term` renders.
proof fn derive(cells: Cells, term: Term, seen: Set<nat>) -> (shape: Shape)
    ensures
        spell(shape) == render(cells, term, seen).text,
    decreases unseen(cells.len(), seen).len(), term,
{
    match term {
        Term::Int(x) => Shape::Integer(x),
        Term::Cell(id) => {
            if seen.contains(id) {
                Shape::Marker
            } else {
                match contents(cells, id) {
                    None => Shape::Uninit,
                    Some(inner) => {
                        lemma_unseen_enter(cells.len(), seen, id);
                        derive(cells, inner, seen.insert(id))
                    },
                }
            }
        },
        Term::List(items) => Shape::List(derive_items(cells, items, seen)),
    }
}

/// Derivations of what a visit of `items` renders, one for each item.
proof fn derive_items(cells: Cells, items: Seq<Term>, seen: Set<nat>) -> (shapes: Seq<Shape>)
    ensures
        shapes.len() == items.len(),
        spell_items(shapes) == render_items(cells, items, seen).text,
    decreases unseen(cells.len(), seen).len(), items,
{
    if items.len() == 0 {
        Seq::empty()
    } else {
        let init = derive_items(cells, items.drop_last(), seen);
        let entered = render_items(cells, items.drop_last(), seen).entered;
        lemma_unseen_shrinks(cells.len(), seen, entered);
        let last = derive(cells, items.last(), seen.union(entered));
        let shapes = init.push(last);
        assert(shapes.drop_last() == init);
        shapes
    }
}

/// Every rendering is a value of the grammar, whatever the store holds and
/// whichever cells were seen before.
pub proof fn lemma_render_in_grammar(cells: Cells, term: Term, seen: Set<nat>)
    ensures
        is_value_text(render(cells, term, seen).text),
{
    let shape = derive(cells, term, seen);
    assert(spell(shape) == render(cells, term, seen).text);
}

} // verus!
