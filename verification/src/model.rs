//! The mathematical model: terms, cell contents, and what a traversal
//! renders.

use crate::decimal::decimal;
use vstd::prelude::*;

verus! {

/// The mathematical form of a value.
pub enum Term {
    /// An integer leaf.
    Int(int),
    /// A reference to the cell with this number.
    Cell(nat),
    /// An ordered sequence of terms.
    List(Seq<Term>),
}

/// The mathematical form of a store: for each cell handed out, in the order
/// of their numbers, what it is bound to, if anything.
pub type Cells = Seq<Option<Term>>;

/// What cell `id` holds. A cell that `cells` does not have holds nothing.
pub open spec fn contents(cells: Cells, id: nat) -> Option<Term> {
    if id < cells.len() {
        cells[id as int]
    } else {
        None
    }
}

/// The cells of a store of `n` cells that are not in `seen`.
pub open spec fn unseen(n: nat, seen: Set<nat>) -> Set<nat> {
    Set::new(|id: nat| id < n && !seen.contains(id))
}

/// The cell numbers below `n` are finitely many.
proof fn lemma_below_finite(n: nat)
    ensures
        Set::new(|id: nat| id < n).finite(),
    decreases n,
{
    if n == 0 {
        assert(Set::new(|id: nat| id < n) =~= Set::<nat>::empty());
    } else {
        let m = (n - 1) as nat;
        lemma_below_finite(m);
        assert(Set::new(|id: nat| id < n) =~= Set::new(|id: nat| id < m).insert(m));
    }
}

/// Only finitely many cells are unseen.
proof fn lemma_unseen_finite(n: nat, seen: Set<nat>)
    ensures
        unseen(n, seen).finite(),
{
    lemma_below_finite(n);
    vstd::set_lib::lemma_set_subset_finite(Set::new(|id: nat| id < n), unseen(n, seen));
}

/// Seeing more cells leaves no more cells unseen.
pub proof fn lemma_unseen_shrinks(n: nat, seen: Set<nat>, more: Set<nat>)
    ensures
        unseen(n, seen.union(more)).len() <= unseen(n, seen).len(),
{
    lemma_unseen_finite(n, seen);
    vstd::set_lib::lemma_len_subset(unseen(n, seen.union(more)), unseen(n, seen));
}

/// Entering a cell of the store that was unseen leaves fewer cells unseen.
pub proof fn lemma_unseen_enter(n: nat, seen: Set<nat>, id: nat)
    requires
        id < n,
        !seen.contains(id),
    ensures
        unseen(n, seen.insert(id)).len() < unseen(n, seen).len(),
{
    lemma_unseen_finite(n, seen);
    assert(unseen(n, seen.insert(id)) =~= unseen(n, seen).remove(id));
}

/// The outcome of visiting a term: the text it adds to the output, and the
/// cells that the visit entered for the first time.
pub struct Rendering {
    pub text: Seq<char>,
    pub entered: Set<nat>,
}

/// What a depth-first visit of `term` renders, given the cells `seen` that
/// were entered before it.
///
/// An integer is its decimal text. A cell that was entered before is the
/// back-reference marker `*`, whatever it holds. A cell met for the first
/// time is entered, and is then `uninit` if it holds nothing, and otherwise
/// the rendering of what it holds, with nothing added for the cell itself. A
/// list is its items between brackets, separated by `, `, each item visited
/// with the cells that the items before it entered counted as seen.
pub open spec fn render(cells: Cells, term: Term, seen: Set<nat>) -> Rendering
    decreases unseen(cells.len(), seen).len(), term,
{
    match term {
        Term::Int(x) => Rendering { text: decimal(x), entered: Set::empty() },
        Term::Cell(id) => if seen.contains(id) {
            Rendering { text: "*"@, entered: Set::empty() }
        } else {
            match contents(cells, id) {
                None => Rendering { text: "uninit"@, entered: set![id] },
                Some(inner) => {
                    proof {
                        lemma_unseen_enter(cells.len(), seen, id);
                    }
                    let r = render(cells, inner, seen.insert(id));
                    Rendering { text: r.text, entered: r.entered.insert(id) }
                },
            }
        },
        Term::List(items) => {
            let r = render_items(cells, items, seen);
            Rendering { text: "["@ + r.text + "]"@, entered: r.entered }
        },
    }
}

/// What visiting `items` in order renders, with `, ` between neighbours.
pub open spec fn render_items(cells: Cells, items: Seq<Term>, seen: Set<nat>) -> Rendering
    decreases unseen(cells.len(), seen).len(), items,
{
    if items.len() == 0 {
        Rendering { text: Seq::empty(), entered: Set::empty() }
    } else {
        let init = render_items(cells, items.drop_last(), seen);
        proof {
            lemma_unseen_shrinks(cells.len(), seen, init.entered);
        }
        let last = render(cells, items.last(), seen.union(init.entered));
        Rendering {
            text: if items.len() == 1 {
                last.text
            } else {
                init.text + ", "@ + last.text
            },
            entered: init.entered.union(last.entered),
        }
    }
}

/// Visiting a single item renders what the item alone renders.
pub proof fn lemma_render_single(cells: Cells, item: Term, seen: Set<nat>)
    ensures
        render_items(cells, seq![item], seen).text == render(cells, item, seen).text,
        render_items(cells, seq![item], seen).entered == render(cells, item, seen).entered,
{
    let items = seq![item];
    assert(items.drop_last() == Seq::<Term>::empty());
    assert(items.last() == item);
    let init = render_items(cells, items.drop_last(), seen);
    assert(seen.union(init.entered) == seen);
    assert(init.entered.union(render(cells, item, seen).entered) == render(
        cells,
        item,
        seen,
    ).entered);
}

/// Visiting one more item after some others adds the separator and what the
/// item renders once the cells that the others entered count as seen.
pub proof fn lemma_render_push(cells: Cells, items: Seq<Term>, item: Term, seen: Set<nat>)
    requires
        items.len() > 0,
    ensures
        ({
            let init = render_items(cells, items, seen);
            let last = render(cells, item, seen.union(init.entered));
            &&& render_items(cells, items.push(item), seen).text == init.text + ", "@ + last.text
            &&& render_items(cells, items.push(item), seen).entered == init.entered.union(
                last.entered,
            )
        }),
{
    let all = items.push(item);
    assert(all.drop_last() == items);
    assert(all.last() == item);
}

} // verus!
