//! What holds while a cascade runs, and why each of its steps keeps it.
use crate::model::{
    ahead, burst, capacity, cascade, drain, drop_piece, enough, legal, lost, neighbor, on_board,
    place_of, placed, rival, settle, settles, slot, spilled, spread, step, terminates, visit,
    Cell, Color, Position, Wave,
};
use crate::tally::{lemma_owned_sum_covers, lemma_owned_sum_nonnegative, lemma_owned_sum_update};
use vstd::prelude::*;

verus! {

/// What holds of a position in the middle of a cascade of `mover`: it is tidy,
/// the mover's running total is at least `due` above the mover's pieces on the
/// grid, the rival's is not below the rival's pieces, the queue names cells of
/// the grid, and every cell at or above its capacity belongs to the mover and
/// waits in the queue.
#[verifier::opaque]
pub open spec fn unsettled(p: Position, queue: Seq<(int, int)>, mover: Color, due: int) -> bool {
    &&& p.tidy()
    &&& mover != Color::Empty
    &&& p.gap(mover) >= due
    &&& p.gap(rival(mover)) >= 0
    &&& forall|i: int| 0 <= i < queue.len() ==> on_board(#[trigger] queue[i])
    &&& forall|k: int|
        0 <= k < 16 && (#[trigger] p.cells[k]).count >= capacity(place_of(k)) ==> {
            &&& p.cells[k].owner == mover
            &&& queue.contains(place_of(k))
        }
}

/// What one step of a cascade leaves as it was: the rival's gap, the sum of
/// the two running totals, the number of placements and the player to move.
pub open spec fn carried(p: Position, q: Position, mover: Color) -> bool {
    &&& q.gap(rival(mover)) == p.gap(rival(mover))
    &&& q.red + q.black == p.red + p.black
    &&& q.rounds == p.rounds
    &&& q.turn == p.turn
}

/// In a sound position neither running total is negative.
pub proof fn lemma_totals_nonnegative(p: Position)
    requires
        p.sound(),
    ensures
        p.red >= 0,
        p.black >= 0,
{
    lemma_owned_sum_nonnegative(p.cells, Color::Red);
    lemma_owned_sum_nonnegative(p.cells, Color::Black);
}

/// While a cascade runs, the cell at the front of the queue is on the grid.
pub proof fn lemma_front_on_board(p: Position, queue: Seq<(int, int)>, mover: Color, due: int)
    requires
        queue.len() > 0,
        unsettled(p, queue, mover, due),
    ensures
        on_board(queue[0]),
{
    reveal(unsettled);
}

/// A neighbour that is about to be served holds no more than the totals allow:
/// what it receives fits below the sum of the two running totals, and the
/// pieces of a captured cell are covered by their owner's total.
pub proof fn lemma_visit_room(w: Wave, at: (int, int), d: int, mover: Color)
    requires
        on_board(at),
        0 <= d < 4,
        on_board(neighbor(at, d)),
        w.spare >= 0,
        unsettled(w.pos, w.queue, mover, ahead(at, d) + w.spare),
    ensures
        0 <= w.pos.cell(neighbor(at, d)).count,
        w.pos.cell(neighbor(at, d)).count + (if w.spare > 0 { 2int } else { 1 }) <= w.pos.red
            + w.pos.black,
        w.pos.cell(neighbor(at, d)).owner == rival(mover) ==> w.pos.cell(neighbor(at, d)).count
            <= w.pos.total(rival(mover)),
        w.pos.red >= 0,
        w.pos.black >= 0,
{
    reveal(unsettled);
    let k = slot(neighbor(at, d));
    lemma_owned_sum_covers(w.pos.cells, k, Color::Red);
    lemma_owned_sum_covers(w.pos.cells, k, Color::Black);
}

/// Serving one direction keeps what holds during a cascade, and takes from the
/// mover's gap exactly what the neighbour received.
pub proof fn lemma_visit(w: Wave, at: (int, int), d: int, mover: Color)
    requires
        on_board(at),
        0 <= d < 4,
        w.spare >= 0,
        unsettled(w.pos, w.queue, mover, ahead(at, d) + w.spare),
    ensures
        visit(w, at, d, mover).spare >= 0,
        unsettled(
            visit(w, at, d, mover).pos,
            visit(w, at, d, mover).queue,
            mover,
            ahead(at, d + 1) + visit(w, at, d, mover).spare,
        ),
        visit(w, at, d, mover).pos.gap(mover) - ahead(at, d + 1) - visit(w, at, d, mover).spare
            == w.pos.gap(mover) - ahead(at, d) - w.spare,
        carried(w.pos, visit(w, at, d, mover).pos, mover),
{
    reveal(unsettled);
    let to = neighbor(at, d);
    let v = visit(w, at, d, mover);
    if on_board(to) {
        let k = slot(to);
        let fresh = v.pos.cells[k];
        lemma_owned_sum_update(w.pos.cells, k, fresh, Color::Red);
        lemma_owned_sum_update(w.pos.cells, k, fresh, Color::Black);
        assert forall|i: int| 0 <= i < v.queue.len() implies on_board(#[trigger] v.queue[i]) by {
            if i < w.queue.len() {
                assert(v.queue[i] == w.queue[i]);
            }
        }
        assert forall|j: int|
            0 <= j < 16 && (#[trigger] v.pos.cells[j]).count >= capacity(place_of(j)) implies {
            &&& v.pos.cells[j].owner == mover
            &&& v.queue.contains(place_of(j))
        } by {
            if j == k {
                assert(place_of(k) == to);
                assert(v.queue == w.queue.push(to));
                assert(v.queue[w.queue.len() as int] == to);
            } else {
                assert(v.pos.cells[j] == w.pos.cells[j]);
                let i = choose|i: int| 0 <= i < w.queue.len() && w.queue[i] == place_of(j);
                assert(v.queue[i] == place_of(j));
            }
        }
    }
}

/// Emptying a cell that is at or above its capacity keeps what holds during a
/// cascade, with all its pieces now owed to the grid.
pub proof fn lemma_drain(p: Position, queue: Seq<(int, int)>, mover: Color)
    requires
        queue.len() > 0,
        unsettled(p, queue, mover, 0),
        p.cell(queue[0]).count >= capacity(queue[0]),
    ensures
        drain(p, queue.drop_first(), queue[0]).spare >= 0,
        unsettled(
            drain(p, queue.drop_first(), queue[0]).pos,
            queue.drop_first(),
            mover,
            ahead(queue[0], 0) + drain(p, queue.drop_first(), queue[0]).spare,
        ),
        drain(p, queue.drop_first(), queue[0]).pos.gap(mover) - ahead(queue[0], 0) - drain(
            p,
            queue.drop_first(),
            queue[0],
        ).spare == p.gap(mover),
        carried(p, drain(p, queue.drop_first(), queue[0]).pos, mover),
{
    reveal(unsettled);
    let at = queue[0];
    let rest = queue.drop_first();
    let w = drain(p, rest, at);
    let k = slot(at);
    assert(p.cells[k].count >= capacity(place_of(k)));
    lemma_owned_sum_update(p.cells, k, Cell { owner: Color::Empty, count: 0 }, Color::Red);
    lemma_owned_sum_update(p.cells, k, Cell { owner: Color::Empty, count: 0 }, Color::Black);
    assert forall|j: int|
        0 <= j < 16 && (#[trigger] w.pos.cells[j]).count >= capacity(place_of(j)) implies {
        &&& w.pos.cells[j].owner == mover
        &&& rest.contains(place_of(j))
    } by {
        assert(j != k);
        assert(w.pos.cells[j] == p.cells[j]);
        lemma_waits_behind(queue, place_of(j));
    }
    assert forall|i: int| 0 <= i < rest.len() implies on_board(#[trigger] rest[i]) by {
        assert(rest[i] == queue[i + 1]);
    }
}

/// An entry of a queue that is not its first entry is still in it when the
/// first has left.
pub proof fn lemma_waits_behind(queue: Seq<(int, int)>, at: (int, int))
    requires
        queue.contains(at),
        queue[0] != at,
    ensures
        queue.drop_first().contains(at),
{
    let i = choose|i: int| 0 <= i < queue.len() && queue[i] == at;
    assert(queue.drop_first()[i - 1] == at);
}

/// Serving the first `d` directions keeps what holds during a cascade.
pub proof fn lemma_spread(w: Wave, at: (int, int), mover: Color, d: nat)
    requires
        on_board(at),
        d <= 4,
        w.spare >= 0,
        unsettled(w.pos, w.queue, mover, ahead(at, 0) + w.spare),
    ensures
        spread(w, at, mover, d).spare >= 0,
        unsettled(
            spread(w, at, mover, d).pos,
            spread(w, at, mover, d).queue,
            mover,
            ahead(at, d as int) + spread(w, at, mover, d).spare,
        ),
        spread(w, at, mover, d).pos.gap(mover) - ahead(at, d as int) - spread(
            w,
            at,
            mover,
            d,
        ).spare == w.pos.gap(mover) - ahead(at, 0) - w.spare,
        carried(w.pos, spread(w, at, mover, d).pos, mover),
    decreases d,
{
    if d > 0 {
        lemma_spread(w, at, mover, (d - 1) as nat);
        lemma_visit(spread(w, at, mover, (d - 1) as nat), at, d - 1, mover);
    }
}

/// After the first `d` directions the bonus is what it was, less one piece for
/// each neighbour served, and never below none.
pub proof fn lemma_spread_spare(w: Wave, at: (int, int), mover: Color, d: nat)
    requires
        d <= 4,
        w.spare >= 0,
    ensures
        spread(w, at, mover, d).spare == if w.spare > ahead(at, 0) - ahead(at, d as int) {
            w.spare - (ahead(at, 0) - ahead(at, d as int))
        } else {
            0
        },
    decreases d,
{
    if d > 0 {
        lemma_spread_spare(w, at, mover, (d - 1) as nat);
    }
}

/// One overflow keeps what holds during a cascade; the mover's gap grows by the
/// pieces that left the grid.
proof fn lemma_burst(p: Position, queue: Seq<(int, int)>, mover: Color)
    requires
        queue.len() > 0,
        unsettled(p, queue, mover, 0),
        p.cell(queue[0]).count >= capacity(queue[0]),
    ensures
        burst(p, queue.drop_first(), queue[0], mover).spare >= 0,
        unsettled(
            burst(p, queue.drop_first(), queue[0], mover).pos,
            burst(p, queue.drop_first(), queue[0], mover).queue,
            mover,
            0,
        ),
        burst(p, queue.drop_first(), queue[0], mover).pos.gap(mover) == p.gap(mover) + burst(
            p,
            queue.drop_first(),
            queue[0],
            mover,
        ).spare,
        carried(p, burst(p, queue.drop_first(), queue[0], mover).pos, mover),
{
    reveal(unsettled);
    lemma_drain(p, queue, mover);
    lemma_spread(drain(p, queue.drop_first(), queue[0]), queue[0], mover, 4);
}

/// Passing over an entry that is below its capacity keeps what holds during a
/// cascade.
proof fn lemma_pass(p: Position, queue: Seq<(int, int)>, mover: Color)
    requires
        queue.len() > 0,
        unsettled(p, queue, mover, 0),
        p.cell(queue[0]).count < capacity(queue[0]),
    ensures
        unsettled(p, queue.drop_first(), mover, 0),
{
    reveal(unsettled);
    let rest = queue.drop_first();
    assert forall|j: int|
        0 <= j < 16 && (#[trigger] p.cells[j]).count >= capacity(place_of(j)) implies {
        &&& p.cells[j].owner == mover
        &&& rest.contains(place_of(j))
    } by {
        assert(slot(place_of(j)) == j);
        lemma_waits_behind(queue, place_of(j));
    }
    assert forall|i: int| 0 <= i < rest.len() implies on_board(#[trigger] rest[i]) by {
        assert(rest[i] == queue[i + 1]);
    }
}

/// One step of a cascade keeps what holds during it; the mover's gap grows by
/// the pieces that left the grid.
pub proof fn lemma_step(p: Position, queue: Seq<(int, int)>, mover: Color)
    requires
        queue.len() > 0,
        unsettled(p, queue, mover, 0),
    ensures
        step(p, queue, mover).spare >= 0,
        unsettled(step(p, queue, mover).pos, step(p, queue, mover).queue, mover, 0),
        step(p, queue, mover).pos.gap(mover) == p.gap(mover) + step(p, queue, mover).spare,
        carried(p, step(p, queue, mover).pos, mover),
{
    if p.cell(queue[0]).count < capacity(queue[0]) {
        lemma_pass(p, queue, mover);
    } else {
        lemma_burst(p, queue, mover);
    }
}

/// A cascade that has ended within `fuel` steps ends in the same position, and
/// has spilled the same, with any more fuel.
pub proof fn lemma_more_fuel(
    p: Position,
    queue: Seq<(int, int)>,
    mover: Color,
    fuel: nat,
    more: nat,
)
    requires
        cascade(p, queue, mover, fuel) is Some,
        fuel <= more,
    ensures
        cascade(p, queue, mover, more) == cascade(p, queue, mover, fuel),
        spilled(p, queue, mover, more) == spilled(p, queue, mover, fuel),
    decreases fuel,
{
    if queue.len() > 0 {
        let w = step(p, queue, mover);
        lemma_more_fuel(w.pos, w.queue, mover, (fuel - 1) as nat, (more - 1) as nat);
    }
}

/// A cascade that has ended within `fuel` steps terminates, and its end is the
/// position reached then.
pub proof fn lemma_settle(p: Position, queue: Seq<(int, int)>, mover: Color, fuel: nat)
    requires
        cascade(p, queue, mover, fuel) is Some,
    ensures
        terminates(p, queue, mover),
        settle(p, queue, mover) == cascade(p, queue, mover, fuel).unwrap(),
        spilled(p, queue, mover, enough(p, queue, mover)) == spilled(p, queue, mover, fuel),
{
    let chosen = enough(p, queue, mover);
    if chosen <= fuel {
        lemma_more_fuel(p, queue, mover, chosen, fuel);
    } else {
        lemma_more_fuel(p, queue, mover, fuel, chosen);
    }
}

/// A cascade that ends leaves every cell below its capacity and both running
/// totals at or above their players' pieces; the mover's gap has grown by the
/// pieces that were spilled, and nothing else has changed.
pub proof fn lemma_cascade(p: Position, queue: Seq<(int, int)>, mover: Color, fuel: nat)
    requires
        unsettled(p, queue, mover, 0),
        cascade(p, queue, mover, fuel) is Some,
    ensures
        cascade(p, queue, mover, fuel).unwrap().sound(),
        cascade(p, queue, mover, fuel).unwrap().stable(),
        spilled(p, queue, mover, fuel) >= 0,
        cascade(p, queue, mover, fuel).unwrap().gap(mover) == p.gap(mover) + spilled(
            p,
            queue,
            mover,
            fuel,
        ),
        carried(p, cascade(p, queue, mover, fuel).unwrap(), mover),
    decreases fuel,
{
    if queue.len() == 0 {
        reveal(unsettled);
        assert forall|k: int| 0 <= k < 16 implies (#[trigger] p.cells[k]).count < capacity(
            place_of(k),
        ) by {
            if p.cells[k].count >= capacity(place_of(k)) {
                assert(queue.contains(place_of(k)));
            }
        }
    } else {
        lemma_step(p, queue, mover);
        let w = step(p, queue, mover);
        lemma_cascade(w.pos, w.queue, mover, (fuel - 1) as nat);
    }
}

/// A piece placed by the player to move starts a cascade in good order: what
/// holds during a cascade holds with the placed cell alone in the queue. The
/// cell had room for the piece below the sum of the running totals, and
/// neither gap has changed.
pub proof fn lemma_drop_piece(p: Position, at: (int, int))
    requires
        p.sound(),
        p.stable(),
        p.turn != Color::Empty,
        legal(p, at),
    ensures
        unsettled(drop_piece(p, at), seq![at], p.turn, 0),
        drop_piece(p, at).gap(Color::Red) == p.gap(Color::Red),
        drop_piece(p, at).gap(Color::Black) == p.gap(Color::Black),
        0 <= p.cell(at).count <= p.red + p.black,
        0 <= p.red,
        0 <= p.black,
{
    reveal(unsettled);
    let k = slot(at);
    let q = drop_piece(p, at);
    lemma_owned_sum_update(p.cells, k, q.cells[k], Color::Red);
    lemma_owned_sum_update(p.cells, k, q.cells[k], Color::Black);
    lemma_owned_sum_covers(p.cells, k, Color::Red);
    lemma_owned_sum_covers(p.cells, k, Color::Black);
    assert forall|j: int|
        0 <= j < 16 && (#[trigger] q.cells[j]).count >= capacity(place_of(j)) implies {
        &&& q.cells[j].owner == p.turn
        &&& seq![at].contains(place_of(j))
    } by {
        if j != k {
            assert(q.cells[j] == p.cells[j]);
        }
        assert(seq![at][0] == at);
    }
}

/// A legal placement whose cascade ends leaves a sound and stable position
/// with the same player to move, one placement more, and one piece more in the
/// sum of the running totals. The rival's gap is as before; the mover's has
/// grown by the pieces that were lost.
pub proof fn lemma_placed(p: Position, at: (int, int))
    requires
        p.sound(),
        p.stable(),
        p.turn != Color::Empty,
        legal(p, at),
        settles(p, at),
    ensures
        placed(p, at).sound(),
        placed(p, at).stable(),
        placed(p, at).turn == p.turn,
        placed(p, at).rounds == p.rounds + 1,
        placed(p, at).red + placed(p, at).black == p.red + p.black + 1,
        lost(p, at) >= 0,
        placed(p, at).gap(p.turn) == p.gap(p.turn) + lost(p, at),
        placed(p, at).gap(rival(p.turn)) == p.gap(rival(p.turn)),
{
    lemma_drop_piece(p, at);
    lemma_cascade(drop_piece(p, at), seq![at], p.turn, enough(drop_piece(p, at), seq![at], p.turn));
}

} // verus!
