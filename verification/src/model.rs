//! The mathematical model of the game: a position, the overflow of one cell,
//! the cascade that a placement sets off, and the rule that ends a game.
//!
//! Apart from the two enums and the size of the grid, everything here is
//! ghost code. The executable board in `board` is proved to follow these
//! functions step by step.
use vstd::prelude::*;

verus! {

/// Side length of the grid.
pub const BOARD_SIZE: usize = 4;

/// Who owns the pieces of a cell.
#[derive(Clone, Copy, PartialEq, Eq, Structural, Debug)]
pub enum Color {
    Empty,
    Red,
    Black,
}

/// How a game stands after a move.
#[derive(Clone, Copy, PartialEq, Eq, Structural, Debug)]
pub enum GameState {
    Playing,
    RedWins,
    BlackWins,
    Draw,
}

/// One cell of a position: its owner and the number of pieces stacked on it.
pub struct Cell {
    pub owner: Color,
    pub count: int,
}

/// A position: the sixteen cells in row-major order, the two totals, the
/// number of placements made so far and the player to move.
pub struct Position {
    pub cells: Seq<Cell>,
    pub red: int,
    pub black: int,
    pub rounds: int,
    pub turn: Color,
}

/// The state of one overflow while its pieces are handed out: the position,
/// the bonus pieces not yet given away, and the queue of cells to look at.
pub struct Wave {
    pub pos: Position,
    pub spare: int,
    pub queue: Seq<(int, int)>,
}

/// `at` names a cell of the grid.
pub open spec fn on_board(at: (int, int)) -> bool {
    0 <= at.0 < 4 && 0 <= at.1 < 4
}

/// Index of the cell `at` in row-major order.
pub open spec fn slot(at: (int, int)) -> int {
    4 * at.0 + at.1
}

/// The cell that sits at index `k`.
pub open spec fn place_of(k: int) -> (int, int) {
    (k / 4, k % 4)
}

/// The four directions in the order in which an overflow serves them:
/// up, right, down, left.
pub open spec fn direction(d: int) -> (int, int) {
    if d == 0 {
        (-1, 0)
    } else if d == 1 {
        (0, 1)
    } else if d == 2 {
        (1, 0)
    } else {
        (0, -1)
    }
}

/// The cell next to `at` in direction `d`; it may lie off the grid.
pub open spec fn neighbor(at: (int, int), d: int) -> (int, int) {
    (at.0 + direction(d).0, at.1 + direction(d).1)
}

/// Number of neighbours of `at` on the grid among the directions `d..4`.
pub open spec fn ahead(at: (int, int), d: int) -> int {
    (if d <= 0 && on_board(neighbor(at, 0)) { 1int } else { 0 })
    + (if d <= 1 && on_board(neighbor(at, 1)) { 1int } else { 0 })
    + (if d <= 2 && on_board(neighbor(at, 2)) { 1int } else { 0 })
    + (if d <= 3 && on_board(neighbor(at, 3)) { 1int } else { 0 })
}

/// Capacity of a cell: the number of its neighbours on the grid. A cell that
/// holds this many pieces overflows.
pub open spec fn capacity(at: (int, int)) -> int {
    ahead(at, 0)
}

/// The player who moves after `who`.
pub open spec fn rival(who: Color) -> Color {
    match who {
        Color::Red => Color::Black,
        Color::Black => Color::Red,
        Color::Empty => Color::Red,
    }
}

/// An overflow of `mover` captures a cell owned by `owner`.
pub open spec fn captures(mover: Color, owner: Color) -> bool {
    (mover == Color::Red && owner == Color::Black) || (mover == Color::Black && owner
        == Color::Red)
}

/// What `cell` adds to the pieces of `who`.
pub open spec fn stake(cell: Cell, who: Color) -> int {
    if cell.owner == who {
        cell.count
    } else {
        0
    }
}

/// Number of pieces on the cells that `who` owns.
pub open spec fn owned_sum(cells: Seq<Cell>, who: Color) -> int
    decreases cells.len(),
{
    if cells.len() == 0 {
        0
    } else {
        owned_sum(cells.drop_last(), who) + stake(cells.last(), who)
    }
}

/// Number of pieces on the grid.
pub open spec fn pieces(cells: Seq<Cell>) -> int
    decreases cells.len(),
{
    if cells.len() == 0 {
        0
    } else {
        pieces(cells.drop_last()) + cells.last().count
    }
}

impl Position {
    /// The position before the first move.
    pub open spec fn initial() -> Position {
        Position {
            cells: Seq::new(16, |k: int| Cell { owner: Color::Empty, count: 0 }),
            red: 0,
            black: 0,
            rounds: 0,
            turn: Color::Red,
        }
    }

    /// The cell at `at`.
    pub open spec fn cell(self, at: (int, int)) -> Cell {
        self.cells[slot(at)]
    }

    /// The running total kept for `who`.
    pub open spec fn total(self, who: Color) -> int {
        match who {
            Color::Red => self.red,
            Color::Black => self.black,
            Color::Empty => 0,
        }
    }

    /// By how much the running total of `who` exceeds the pieces that `who`
    /// has on the grid.
    pub open spec fn gap(self, who: Color) -> int {
        self.total(who) - owned_sum(self.cells, who)
    }

    /// Sixteen cells, none with a negative count, and a cell is empty exactly
    /// when it holds no piece.
    pub open spec fn tidy(self) -> bool {
        &&& self.cells.len() == 16
        &&& forall|k: int|
            0 <= k < 16 ==> {
                &&& (#[trigger] self.cells[k]).count >= 0
                &&& (self.cells[k].count == 0 <==> self.cells[k].owner == Color::Empty)
            }
    }

    /// Tidy, and neither running total is below the pieces of its player.
    pub open spec fn sound(self) -> bool {
        &&& self.tidy()
        &&& self.gap(Color::Red) >= 0
        &&& self.gap(Color::Black) >= 0
    }

    /// Every cell is below its capacity.
    pub open spec fn stable(self) -> bool {
        forall|k: int|
            0 <= k < 16 ==> (#[trigger] self.cells[k]).count < capacity(place_of(k))
    }

    /// Each running total equals the pieces of its player on the grid.
    pub open spec fn balanced(self) -> bool {
        self.gap(Color::Red) == 0 && self.gap(Color::Black) == 0
    }

    /// The position with the cell at `at` replaced.
    pub open spec fn with_cell(self, at: (int, int), cell: Cell) -> Position {
        Position { cells: self.cells.update(slot(at), cell), ..self }
    }
}

/// The neighbour `at` receives `gain` pieces from an overflow of `mover`: a
/// cell of the other player is captured first, with all its pieces moving from
/// that player's total to the mover's.
pub open spec fn feed(p: Position, at: (int, int), mover: Color, gain: int) -> Position {
    let was = p.cell(at);
    Position {
        cells: p.cells.update(slot(at), Cell { owner: mover, count: was.count + gain }),
        red: if mover == Color::Red && was.owner == Color::Black {
            p.red + was.count
        } else if mover == Color::Black && was.owner == Color::Red {
            p.red - was.count
        } else {
            p.red
        },
        black: if mover == Color::Red && was.owner == Color::Black {
            p.black - was.count
        } else if mover == Color::Black && was.owner == Color::Red {
            p.black + was.count
        } else {
            p.black
        },
        ..p
    }
}

/// The overflow of `at` serves direction `d`. A neighbour on the grid gets two
/// pieces while bonus pieces are left and one otherwise, and joins the queue
/// if that fills it.
pub open spec fn visit(w: Wave, at: (int, int), d: int, mover: Color) -> Wave {
    let to = neighbor(at, d);
    if on_board(to) {
        let pos = feed(w.pos, to, mover, if w.spare > 0 { 2 } else { 1 });
        Wave {
            pos,
            spare: if w.spare > 0 { w.spare - 1 } else { w.spare },
            queue: if pos.cell(to).count >= capacity(to) {
                w.queue.push(to)
            } else {
                w.queue
            },
        }
    } else {
        w
    }
}

/// The overflow of `at` after it has served the first `d` directions.
pub open spec fn spread(w: Wave, at: (int, int), mover: Color, d: nat) -> Wave
    decreases d,
{
    if d == 0 {
        w
    } else {
        visit(spread(w, at, mover, (d - 1) as nat), at, d - 1, mover)
    }
}

/// The cell `at` is emptied; its bonus is what it held above its capacity.
pub open spec fn drain(p: Position, queue: Seq<(int, int)>, at: (int, int)) -> Wave {
    Wave {
        pos: p.with_cell(at, Cell { owner: Color::Empty, count: 0 }),
        spare: p.cell(at).count - capacity(at),
        queue,
    }
}

/// One full overflow of the cell `at`: it is emptied and its pieces go to its
/// neighbours. The `spare` of the result counts the pieces that found no
/// neighbour and left the grid.
pub open spec fn burst(p: Position, queue: Seq<(int, int)>, at: (int, int), mover: Color) -> Wave {
    spread(drain(p, queue, at), at, mover, 4)
}

/// One step of the cascade: the front of the queue leaves it, and its cell
/// overflows if it is at or above its capacity. The `spare` of the result
/// counts the pieces that left the grid.
pub open spec fn step(p: Position, queue: Seq<(int, int)>, mover: Color) -> Wave {
    if p.cell(queue[0]).count < capacity(queue[0]) {
        Wave { pos: p, spare: 0, queue: queue.drop_first() }
    } else {
        burst(p, queue.drop_first(), queue[0], mover)
    }
}

/// The cascade: steps are taken until the queue is empty, at most `fuel` of
/// them. `None` when `fuel` steps were not enough to empty the queue.
pub open spec fn cascade(p: Position, queue: Seq<(int, int)>, mover: Color, fuel: nat) -> Option<
    Position,
>
    decreases fuel,
{
    if queue.len() == 0 {
        Some(p)
    } else if fuel == 0 {
        None
    } else {
        let w = step(p, queue, mover);
        cascade(w.pos, w.queue, mover, (fuel - 1) as nat)
    }
}

/// Number of pieces that leave the grid during the first `fuel` steps of the
/// cascade.
pub open spec fn spilled(p: Position, queue: Seq<(int, int)>, mover: Color, fuel: nat) -> int
    decreases fuel,
{
    if queue.len() == 0 || fuel == 0 {
        0
    } else {
        let w = step(p, queue, mover);
        w.spare + spilled(w.pos, w.queue, mover, (fuel - 1) as nat)
    }
}

/// The cascade comes to an end.
pub open spec fn terminates(p: Position, queue: Seq<(int, int)>, mover: Color) -> bool {
    exists|fuel: nat| (#[trigger] cascade(p, queue, mover, fuel)) is Some
}

/// Number of steps after which the cascade has ended, if it ends.
pub open spec fn enough(p: Position, queue: Seq<(int, int)>, mover: Color) -> nat {
    choose|fuel: nat| (#[trigger] cascade(p, queue, mover, fuel)) is Some
}

/// The position in which the cascade ends, if it ends.
pub open spec fn settle(p: Position, queue: Seq<(int, int)>, mover: Color) -> Position {
    cascade(p, queue, mover, enough(p, queue, mover)).unwrap()
}

/// The player to move may place a piece at `at`: the cell is on the grid and
/// not owned by the other player.
pub open spec fn legal(p: Position, at: (int, int)) -> bool {
    on_board(at) && (p.cell(at).owner == Color::Empty || p.cell(at).owner == p.turn)
}

/// The player to move puts one piece on `at`.
pub open spec fn drop_piece(p: Position, at: (int, int)) -> Position {
    Position {
        cells: p.cells.update(slot(at), Cell { owner: p.turn, count: p.cell(at).count + 1 }),
        red: if p.turn == Color::Red { p.red + 1 } else { p.red },
        black: if p.turn == Color::Black { p.black + 1 } else { p.black },
        rounds: p.rounds + 1,
        turn: p.turn,
    }
}

/// The cascade that a piece placed at `at` sets off comes to an end.
pub open spec fn settles(p: Position, at: (int, int)) -> bool {
    terminates(drop_piece(p, at), seq![at], p.turn)
}

/// The position after a piece was placed at `at` and the cascade has ended.
pub open spec fn placed(p: Position, at: (int, int)) -> Position {
    settle(drop_piece(p, at), seq![at], p.turn)
}

/// Number of pieces that leave the grid in the cascade that a piece placed at
/// `at` sets off.
pub open spec fn lost(p: Position, at: (int, int)) -> int {
    spilled(
        drop_piece(p, at),
        seq![at],
        p.turn,
        enough(drop_piece(p, at), seq![at], p.turn),
    )
}

/// How the game stands: nobody has won during the first two placements; after
/// that a player whose rival has no piece left has won, Red being asked first;
/// and a game of more than 200 placements without a winner is drawn.
pub open spec fn outcome(rounds: int, red: int, black: int) -> GameState {
    if rounds <= 2 {
        GameState::Playing
    } else if black == 0 {
        GameState::RedWins
    } else if red == 0 {
        GameState::BlackWins
    } else if rounds > 200 {
        GameState::Draw
    } else {
        GameState::Playing
    }
}

/// How the game stands in `p`.
pub open spec fn standing(p: Position) -> GameState {
    outcome(p.rounds, p.red, p.black)
}

/// The position after the player to move has played at `at`: unchanged where
/// the move is not legal; otherwise the piece is placed, the cascade runs, and
/// the turn passes on if the game goes on.
pub open spec fn play(p: Position, at: (int, int)) -> Position {
    if legal(p, at) {
        let q = placed(p, at);
        if standing(q) == GameState::Playing {
            Position { turn: rival(q.turn), ..q }
        } else {
            q
        }
    } else {
        p
    }
}

/// The position after the moves `moves`, played one after the other from the
/// initial position.
pub open spec fn replay(moves: Seq<(int, int)>) -> Position
    decreases moves.len(),
{
    if moves.len() == 0 {
        Position::initial()
    } else {
        play(replay(moves.drop_last()), moves.last())
    }
}

/// Every legal move among `moves`, played in that way, sets off a cascade that
/// comes to an end.
pub open spec fn replay_settles(moves: Seq<(int, int)>) -> bool
    decreases moves.len(),
{
    moves.len() > 0 ==> {
        &&& replay_settles(moves.drop_last())
        &&& legal(replay(moves.drop_last()), moves.last()) ==> settles(
            replay(moves.drop_last()),
            moves.last(),
        )
    }
}

/// Number of pieces that leave the grid while `moves` are played in that way.
pub open spec fn replay_lost(moves: Seq<(int, int)>) -> int
    decreases moves.len(),
{
    if moves.len() == 0 {
        0
    } else if legal(replay(moves.drop_last()), moves.last()) {
        replay_lost(moves.drop_last()) + lost(replay(moves.drop_last()), moves.last())
    } else {
        replay_lost(moves.drop_last())
    }
}

} // verus!
