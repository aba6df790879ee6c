//! Facts about the number of pieces that a player has on the grid.
use crate::model::{owned_sum, pieces, stake, Cell, Color};
use vstd::prelude::*;

verus! {

/// Replacing one cell changes a player's pieces by the difference of the two
/// cells' stakes.
pub proof fn lemma_owned_sum_update(cells: Seq<Cell>, k: int, cell: Cell, who: Color)
    requires
        0 <= k < cells.len(),
    ensures
        owned_sum(cells.update(k, cell), who) == owned_sum(cells, who) - stake(cells[k], who)
            + stake(cell, who),
    decreases cells.len(),
{
    let changed = cells.update(k, cell);
    if k == cells.len() - 1 {
        assert(changed.drop_last() =~= cells.drop_last());
    } else {
        assert(changed.drop_last() =~= cells.drop_last().update(k, cell));
        lemma_owned_sum_update(cells.drop_last(), k, cell, who);
    }
}

/// Where no count is negative, a player's pieces are at least the stake of
/// any one cell, and that stake is not negative.
pub proof fn lemma_owned_sum_covers(cells: Seq<Cell>, k: int, who: Color)
    requires
        0 <= k < cells.len(),
        forall|j: int| 0 <= j < cells.len() ==> (#[trigger] cells[j]).count >= 0,
    ensures
        0 <= stake(cells[k], who) <= owned_sum(cells, who),
    decreases cells.len(),
{
    lemma_owned_sum_nonnegative(cells.drop_last(), who);
    if k < cells.len() - 1 {
        lemma_owned_sum_covers(cells.drop_last(), k, who);
    }
}

/// Where no count is negative, no player's pieces are.
pub proof fn lemma_owned_sum_nonnegative(cells: Seq<Cell>, who: Color)
    requires
        forall|j: int| 0 <= j < cells.len() ==> (#[trigger] cells[j]).count >= 0,
    ensures
        owned_sum(cells, who) >= 0,
    decreases cells.len(),
{
    if cells.len() > 0 {
        lemma_owned_sum_nonnegative(cells.drop_last(), who);
    }
}

/// A grid without pieces gives no player any.
pub proof fn lemma_owned_sum_bare(cells: Seq<Cell>, who: Color)
    requires
        forall|j: int| 0 <= j < cells.len() ==> (#[trigger] cells[j]).count == 0,
    ensures
        owned_sum(cells, who) == 0,
    decreases cells.len(),
{
    if cells.len() > 0 {
        lemma_owned_sum_bare(cells.drop_last(), who);
    }
}

/// Where exactly the cells without a piece are empty, the pieces on the grid
/// are those of Red and those of Black together.
pub proof fn lemma_pieces_split(cells: Seq<Cell>)
    requires
        forall|j: int|
            0 <= j < cells.len() ==> ((#[trigger] cells[j]).count == 0 <==> cells[j].owner
                == Color::Empty),
    ensures
        pieces(cells) == owned_sum(cells, Color::Red) + owned_sum(cells, Color::Black),
    decreases cells.len(),
{
    if cells.len() > 0 {
        lemma_pieces_split(cells.drop_last());
    }
}

} // verus!
