//! What is proved of every move and of every game.
use crate::board::Board;
use crate::flow::{lemma_placed, lemma_settle, lemma_spread_spare};
use crate::model::{
    burst, capacity, cascade, drain, drop_piece, legal, lost, on_board, outcome, owned_sum, pieces,
    placed, play, replay, replay_lost, replay_settles, rival, settles, slot, spilled, standing,
    Color, Position,
};
use crate::tally::{lemma_owned_sum_bare, lemma_pieces_split};
use vstd::prelude::*;

verus! {

/// What holds of a position between two moves: it is sound and stable, and a
/// player is to move.
pub open spec fn in_order(p: Position) -> bool {
    p.sound() && p.stable() && p.turn != Color::Empty
}

/// The initial position is in order and balanced.
pub proof fn lemma_initial()
    ensures
        in_order(Position::initial()),
        Position::initial().balanced(),
{
    let p = Position::initial();
    lemma_owned_sum_bare(p.cells, Color::Red);
    lemma_owned_sum_bare(p.cells, Color::Black);
}

/// A corner has capacity 2, any other cell of the rim 3, and an inner cell 4.
pub proof fn lemma_capacity(at: (int, int))
    requires
        on_board(at),
    ensures
        capacity(at) == 4 - (if at.0 == 0 || at.0 == 3 { 1int } else { 0 }) - (if at.1 == 0 || at.1
            == 3 { 1int } else { 0 }),
        2 <= capacity(at) <= 4,
{
}

/// An overflow loses pieces only from a cell that holds more than twice its
/// capacity: each neighbour takes one piece and one of the bonus, and what is
/// left of the bonus after that leaves the grid.
pub proof fn lemma_burst_loss(p: Position, queue: Seq<(int, int)>, at: (int, int), mover: Color)
    requires
        p.cell(at).count >= capacity(at),
    ensures
        burst(p, queue, at, mover).spare == if p.cell(at).count > 2 * capacity(at) {
            p.cell(at).count - 2 * capacity(at)
        } else {
            0
        },
{
    lemma_spread_spare(drain(p, queue, at), at, mover, 4);
}

/// A move keeps a position in order: once its cascade has ended, every cell is
/// below its capacity again.
pub proof fn lemma_play_in_order(p: Position, at: (int, int))
    requires
        in_order(p),
        legal(p, at) ==> settles(p, at),
    ensures
        in_order(play(p, at)),
{
    if legal(p, at) {
        lemma_placed(p, at);
    }
}

/// A legal move leaves the gap of the player who did not move as it was, and
/// adds to the mover's gap the pieces that left the grid.
pub proof fn lemma_play_gaps(p: Position, at: (int, int))
    requires
        in_order(p),
        legal(p, at),
        settles(p, at),
    ensures
        lost(p, at) >= 0,
        play(p, at).gap(p.turn) == p.gap(p.turn) + lost(p, at),
        play(p, at).gap(rival(p.turn)) == p.gap(rival(p.turn)),
{
    lemma_placed(p, at);
}

/// From a balanced position a move leads to a balanced one exactly when it
/// loses no piece: each running total is then the number of pieces of its
/// player, and the two together are the pieces on the grid.
pub proof fn lemma_play_balanced(p: Position, at: (int, int))
    requires
        in_order(p),
        p.balanced(),
        legal(p, at) ==> settles(p, at),
    ensures
        play(p, at).balanced() <==> (legal(p, at) ==> lost(p, at) == 0),
        play(p, at).balanced() ==> {
            &&& play(p, at).red == owned_sum(play(p, at).cells, Color::Red)
            &&& play(p, at).black == owned_sum(play(p, at).cells, Color::Black)
            &&& play(p, at).red + play(p, at).black == pieces(play(p, at).cells)
        },
{
    if legal(p, at) {
        lemma_placed(p, at);
    }
    lemma_pieces_split(play(p, at).cells);
}

/// A move that is not legal leaves the position as it was.
pub proof fn lemma_play_refused(p: Position, at: (int, int))
    requires
        !legal(p, at),
    ensures
        play(p, at) == p,
{
}

/// A legal move onto a cell that the new piece does not fill sets off no
/// cascade: the position after it is the one with the piece placed.
pub proof fn lemma_quiet_move(p: Position, at: (int, int))
    requires
        legal(p, at),
        p.cell(at).count + 1 < capacity(at),
        p.cells.len() == 16,
    ensures
        settles(p, at),
        placed(p, at) == drop_piece(p, at),
        lost(p, at) == 0,
{
    let q = drop_piece(p, at);
    reveal_with_fuel(cascade, 2);
    reveal_with_fuel(spilled, 2);
    assert(seq![at].drop_first().len() == 0);
    assert(cascade(q, seq![at], p.turn, 1) == Some(q));
    assert(spilled(q, seq![at], p.turn, 1) == 0);
    lemma_settle(q, seq![at], p.turn, 1);
}

/// One more move continues a game from where it stood.
pub proof fn lemma_replay_next(moves: Seq<(int, int)>, at: (int, int))
    ensures
        replay(moves.push(at)) == play(replay(moves), at),
        replay_settles(moves.push(at)) == (replay_settles(moves) && (legal(replay(moves), at)
            ==> settles(replay(moves), at))),
{
    assert(moves.push(at).drop_last() =~= moves);
}

/// Every position of a game whose cascades all came to an end is in order:
/// each cell is below its capacity, and neither running total is below the
/// pieces of its player.
pub proof fn lemma_replay_in_order(moves: Seq<(int, int)>)
    requires
        replay_settles(moves),
    ensures
        in_order(replay(moves)),
    decreases moves.len(),
{
    if moves.len() == 0 {
        lemma_initial();
    } else {
        lemma_replay_in_order(moves.drop_last());
        lemma_play_in_order(replay(moves.drop_last()), moves.last());
    }
}

/// In every position of a game whose cascades all came to an end, the two
/// running totals together exceed the pieces on the grid by the pieces that
/// were lost on the way. Where none was lost, each running total is the number
/// of pieces of its player.
pub proof fn lemma_replay_totals(moves: Seq<(int, int)>)
    requires
        replay_settles(moves),
    ensures
        replay_lost(moves) >= 0,
        replay(moves).gap(Color::Red) >= 0,
        replay(moves).gap(Color::Black) >= 0,
        replay(moves).gap(Color::Red) + replay(moves).gap(Color::Black) == replay_lost(moves),
        replay(moves).red + replay(moves).black == pieces(replay(moves).cells) + replay_lost(
            moves,
        ),
        replay_lost(moves) == 0 ==> {
            &&& replay(moves).red == owned_sum(replay(moves).cells, Color::Red)
            &&& replay(moves).black == owned_sum(replay(moves).cells, Color::Black)
        },
    decreases moves.len(),
{
    lemma_replay_in_order(moves);
    lemma_pieces_split(replay(moves).cells);
    if moves.len() == 0 {
        lemma_initial();
    } else {
        let before = replay(moves.drop_last());
        lemma_replay_in_order(moves.drop_last());
        lemma_replay_totals(moves.drop_last());
        if legal(before, moves.last()) {
            lemma_play_gaps(before, moves.last());
        }
    }
}

/// Two boards with their capacities in place that show the same position are
/// the same in every field.
pub proof fn lemma_view_decides(a: Board, b: Board)
    requires
        a.capacities_set(),
        b.capacities_set(),
        a@ == b@,
    ensures
        a == b,
{
    assert forall|r: int, c: int| 0 <= r < 4 && 0 <= c < 4 implies a.camp[r][c] == b.camp[r][c]
        && a.num[r][c] == b.num[r][c] && a.maxnum[r][c] == b.maxnum[r][c] by {
        let k = slot((r, c));
        assert(k / 4 == r && k % 4 == c);
        assert(a@.cells[k].owner == a.camp[r][c]);
        assert(b@.cells[k].owner == b.camp[r][c]);
        assert(a@.cells[k].count == a.num[r][c]);
        assert(b@.cells[k].count == b.num[r][c]);
    }
    assert forall|r: int| 0 <= r < 4 implies a.camp[r] == b.camp[r] && a.num[r] == b.num[r]
        && a.maxnum[r] == b.maxnum[r] by {
        assert(a.camp[r] =~= b.camp[r]);
        assert(a.num[r] =~= b.num[r]);
        assert(a.maxnum[r] =~= b.maxnum[r]);
    }
    assert(a.camp =~= b.camp);
    assert(a.num =~= b.num);
    assert(a.maxnum =~= b.maxnum);
}

/// The moves of a game decide its board: two boards that were reached by the
/// same moves from a fresh board agree in every cell, in both totals, in the
/// number of placements, in the player to move and in how the game stands.
pub proof fn lemma_replay_decides(a: Board, b: Board, moves: Seq<(int, int)>)
    requires
        a.wf(),
        b.wf(),
        a@ == replay(moves),
        b@ == replay(moves),
    ensures
        a == b,
        outcome(a.rounds as int, a.redcount as int, a.blackcount as int) == standing(
            replay(moves),
        ),
        outcome(b.rounds as int, b.redcount as int, b.blackcount as int) == standing(
            replay(moves),
        ),
{
    lemma_view_decides(a, b);
}

} // verus!
