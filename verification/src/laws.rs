//! Laws of rendering, each proved from the model.

use crate::model::{
    contents, lemma_render_push, lemma_render_single, lemma_unseen_enter, lemma_unseen_shrinks,
    render, render_items, unseen, Cells, Term,
};
use crate::value::{Store, Value};
use vstd::prelude::*;

verus! {

/// Rendering reads the graph and leaves it alone, and its result depends on
/// the store and the value only: whatever `format` returns for a store and a
/// value, it returns again for the same store and value.
pub proof fn lemma_format_repeats(store: Store, root: Value, first: String, second: String)
    requires
        first@ == render(store@, root@, Set::empty()).text,
        second@ == render(store@, root@, Set::empty()).text,
    ensures
        first@ == second@,
{
}

/// Sharing collapses: where a list holds the same cell twice in a row, the
/// first occurrence renders as the cell does alone and the second as the
/// back-reference marker.
pub proof fn lemma_shared_cell_collapses(cells: Cells, id: nat, seen: Set<nat>)
    ensures
        render_items(cells, seq![Term::Cell(id), Term::Cell(id)], seen).text == render(
            cells,
            Term::Cell(id),
            seen,
        ).text + ", *"@,
{
    let cell = Term::Cell(id);
    let first = render(cells, cell, seen);
    lemma_render_single(cells, cell, seen);
    lemma_render_push(cells, seq![cell], cell, seen);
    assert(seq![cell].push(cell) == seq![cell, cell]);
    assert(seen.union(first.entered).contains(id));
    reveal_strlit(", *");
    reveal_strlit(", ");
    reveal_strlit("*");
    assert(", "@ + "*"@ == ", *"@);
}

/// No cell is entered twice: a visit enters only cells that were not seen
/// before it, so the cells seen and the cells entered never overlap.
pub proof fn lemma_enters_only_unseen(cells: Cells, term: Term, seen: Set<nat>)
    ensures
        render(cells, term, seen).entered.disjoint(seen),
    decreases unseen(cells.len(), seen).len(), term,
{
    match term {
        Term::Int(_) => {},
        Term::Cell(id) => {
            if !seen.contains(id) {
                match contents(cells, id) {
                    None => {},
                    Some(inner) => {
                        lemma_unseen_enter(cells.len(), seen, id);
                        lemma_enters_only_unseen(cells, inner, seen.insert(id));
                    },
                }
            }
        },
        Term::List(items) => {
            lemma_items_enter_only_unseen(cells, items, seen);
        },
    }
}

/// The same for the items of a list: none of them enters a cell that was
/// seen before the list, or that an item before it entered.
pub proof fn lemma_items_enter_only_unseen(cells: Cells, items: Seq<Term>, seen: Set<nat>)
    ensures
        render_items(cells, items, seen).entered.disjoint(seen),
        items.len() > 0 ==> render(
            cells,
            items.last(),
            seen.union(render_items(cells, items.drop_last(), seen).entered),
        ).entered.disjoint(render_items(cells, items.drop_last(), seen).entered),
    decreases unseen(cells.len(), seen).len(), items,
{
    if items.len() > 0 {
        let init = render_items(cells, items.drop_last(), seen);
        lemma_items_enter_only_unseen(cells, items.drop_last(), seen);
        lemma_unseen_shrinks(cells.len(), seen, init.entered);
        lemma_enters_only_unseen(cells, items.last(), seen.union(init.entered));
    }
}

/// Handing out a fresh cell changes no rendering: a cell that the store
/// does not have yet renders as an unbound one does.
pub proof fn lemma_fresh_cell_changes_nothing(cells: Cells, term: Term, seen: Set<nat>)
    ensures
        render(cells.push(None), term, seen).text == render(cells, term, seen).text,
        render(cells.push(None), term, seen).entered == render(cells, term, seen).entered,
    decreases unseen(cells.len(), seen).len(), term,
{
    let more = cells.push(None);
    match term {
        Term::Int(_) => {},
        Term::Cell(id) => {
            assert(contents(more, id) == contents(cells, id));
            if !seen.contains(id) {
                match contents(cells, id) {
                    None => {},
                    Some(inner) => {
                        lemma_unseen_enter(cells.len(), seen, id);
                        lemma_fresh_cell_changes_nothing(cells, inner, seen.insert(id));
                    },
                }
            }
        },
        Term::List(items) => {
            lemma_fresh_cell_changes_no_items(cells, items, seen);
        },
    }
}

/// The same for the items of a list.
pub proof fn lemma_fresh_cell_changes_no_items(cells: Cells, items: Seq<Term>, seen: Set<nat>)
    ensures
        render_items(cells.push(None), items, seen).text == render_items(cells, items, seen).text,
        render_items(cells.push(None), items, seen).entered == render_items(
            cells,
            items,
            seen,
        ).entered,
    decreases unseen(cells.len(), seen).len(), items,
{
    if items.len() > 0 {
        let init = render_items(cells, items.drop_last(), seen);
        lemma_fresh_cell_changes_no_items(cells, items.drop_last(), seen);
        lemma_unseen_shrinks(cells.len(), seen, init.entered);
        lemma_fresh_cell_changes_nothing(cells, items.last(), seen.union(init.entered));
    }
}

} // verus!
