//! The executable board.
use crate::flow::{
    lemma_drain, lemma_drop_piece, lemma_front_on_board, lemma_placed, lemma_settle, lemma_step,
    lemma_totals_nonnegative, lemma_visit, lemma_visit_room, unsettled,
};
use crate::model::{
    ahead, capacity, captures, cascade, drain, drop_piece, enough, feed, legal, neighbor, on_board,
    outcome, placed, play, rival, settle, settles, spread, standing, step, terminates, visit, Cell,
    Color, GameState, Position, Wave, BOARD_SIZE,
};
use crate::tally::lemma_owned_sum_bare;
use std::collections::VecDeque;
use vstd::prelude::*;

verus! {

/// The board of one game: per cell its owner (`camp`), its pieces (`num`) and
/// its capacity (`maxnum`), the two running totals, the number of placements
/// made and the player to move.
#[derive(Clone, Copy, Debug)]
pub struct Board {
    pub camp: [[Color; BOARD_SIZE]; BOARD_SIZE],
    pub num: [[i32; BOARD_SIZE]; BOARD_SIZE],
    pub maxnum: [[i32; BOARD_SIZE]; BOARD_SIZE],
    pub redcount: i32,
    pub blackcount: i32,
    pub rounds: i32,
    pub currentplayer: Color,
}

impl View for Board {
    type V = Position;

    open spec fn view(&self) -> Position {
        Position {
            cells: Seq::new(
                16,
                |k: int| Cell { owner: self.camp[k / 4][k % 4], count: self.num[k / 4][k % 4] as int },
            ),
            red: self.redcount as int,
            black: self.blackcount as int,
            rounds: self.rounds as int,
            turn: self.currentplayer,
        }
    }
}

/// The entries of a queue as cells of the model.
pub open spec fn coords(queue: Seq<(usize, usize)>) -> Seq<(int, int)> {
    queue.map_values(|at: (usize, usize)| (at.0 as int, at.1 as int))
}

/// A board that differs from another in the cell `(x, y)` alone has that
/// board's cells with this one replaced.
proof fn lemma_one_cell(before: Board, after: Board, x: int, y: int)
    requires
        0 <= x < 4,
        0 <= y < 4,
        forall|r: int, c: int|
            0 <= r < 4 && 0 <= c < 4 && (r != x || c != y) ==> {
                &&& (#[trigger] after.camp[r][c]) == before.camp[r][c]
                &&& after.num[r][c] == before.num[r][c]
            },
    ensures
        after@.cells == before@.cells.update(
            4 * x + y,
            Cell { owner: after.camp[x][y], count: after.num[x][y] as int },
        ),
{
    let changed = before@.cells.update(
        4 * x + y,
        Cell { owner: after.camp[x][y], count: after.num[x][y] as int },
    );
    assert forall|k: int| 0 <= k < 16 implies after@.cells[k] == changed[k] by {
        let r = k / 4;
        let c = k % 4;
        if r != x || c != y {
            assert(after.camp[r][c] == before.camp[r][c]);
        }
    }
    assert(after@.cells =~= changed);
}

/// The cell that a move names. A move counts columns from the left and rows
/// from the bottom, both from 1; the grid counts rows from the top and columns
/// from the left, both from 0.
pub open spec fn target(user_x: usize, user_y: usize) -> (int, int) {
    (4 - user_y as int, user_x as int - 1)
}

/// What a move to a cell off the grid is answered with.
pub open spec fn range_message() -> Seq<char> {
    "坐标必须在1-4范围内！"@
}

/// What a move to a cell of the other player is answered with.
pub open spec fn occupied_message() -> Seq<char> {
    "无效的移动！"@
}

impl Board {
    /// Every cell carries the capacity that its place on the grid gives it.
    pub open spec fn capacities_set(&self) -> bool {
        forall|r: int, c: int|
            0 <= r < 4 && 0 <= c < 4 ==> (#[trigger] self.maxnum[r][c]) == capacity((r, c))
    }

    /// What holds of a board between two moves: the capacities are in place,
    /// the position is sound and stable, and a player is to move.
    pub open spec fn wf(&self) -> bool {
        &&& self.capacities_set()
        &&& self@.sound()
        &&& self@.stable()
        &&& self.currentplayer != Color::Empty
    }

    /// One more placement fits into the counters.
    pub open spec fn has_room(&self) -> bool {
        self.rounds < i32::MAX && self.redcount + self.blackcount < i32::MAX
    }

    /// The move `(user_x, user_y)` can be played: it is not legal, and will be
    /// refused, or the counters have room for it and the cascade that it sets
    /// off comes to an end.
    pub open spec fn playable(&self, user_x: usize, user_y: usize) -> bool {
        legal(self@, target(user_x, user_y)) ==> self.has_room() && settles(
            self@,
            target(user_x, user_y),
        )
    }

    /// The move `(user_x, user_y)` can be played, and its cascade comes to an
    /// end within `budget` steps.
    pub open spec fn playable_within(&self, user_x: usize, user_y: usize, budget: usize) -> bool {
        legal(self@, target(user_x, user_y)) ==> self.has_room() && cascade(
            drop_piece(self@, target(user_x, user_y)),
            seq![target(user_x, user_y)],
            self.currentplayer,
            budget as nat,
        ) is Some
    }

    /// A fresh board: no pieces, no placements, Red to move.
    pub fn new() -> (board: Self)
        ensures
            board.wf(),
            board@ == Position::initial(),
    {
        let mut board = Board {
            camp: [[Color::Empty; BOARD_SIZE]; BOARD_SIZE],
            num: [[0; BOARD_SIZE]; BOARD_SIZE],
            maxnum: [[0; BOARD_SIZE]; BOARD_SIZE],
            redcount: 0,
            blackcount: 0,
            rounds: 0,
            currentplayer: Color::Red,
        };
        for i in 0..BOARD_SIZE
            invariant
                forall|r: int, c: int|
                    0 <= r < 4 && 0 <= c < 4 ==> (#[trigger] board.camp[r][c]) == Color::Empty,
                forall|r: int, c: int| 0 <= r < 4 && 0 <= c < 4 ==> (#[trigger] board.num[r][c]) == 0,
                forall|r: int, c: int|
                    0 <= r < i && 0 <= c < 4 ==> (#[trigger] board.maxnum[r][c]) == capacity((r, c)),
                board.redcount == 0,
                board.blackcount == 0,
                board.rounds == 0,
                board.currentplayer == Color::Red,
        {
            for j in 0..BOARD_SIZE
                invariant
                    i < 4,
                    forall|r: int, c: int|
                        0 <= r < 4 && 0 <= c < 4 ==> (#[trigger] board.camp[r][c]) == Color::Empty,
                    forall|r: int, c: int|
                        0 <= r < 4 && 0 <= c < 4 ==> (#[trigger] board.num[r][c]) == 0,
                    forall|r: int, c: int|
                        0 <= r < i && 0 <= c < 4 ==> (#[trigger] board.maxnum[r][c]) == capacity(
                            (r, c),
                        ),
                    forall|c: int|
                        0 <= c < j ==> (#[trigger] board.maxnum[i as int][c]) == capacity(
                            (i as int, c),
                        ),
                    board.redcount == 0,
                    board.blackcount == 0,
                    board.rounds == 0,
                    board.currentplayer == Color::Red,
            {
                let mut neighbours: i32 = 0;
                if i > 0 {
                    neighbours += 1;
                }
                if j > 0 {
                    neighbours += 1;
                }
                if i < BOARD_SIZE - 1 {
                    neighbours += 1;
                }
                if j < BOARD_SIZE - 1 {
                    neighbours += 1;
                }
                board.maxnum[i][j] = neighbours;
            }
        }
        proof {
            assert(board@.cells =~= Position::initial().cells);
            lemma_owned_sum_bare(board@.cells, Color::Red);
            lemma_owned_sum_bare(board@.cells, Color::Black);
        }
        board
    }

    /// The board goes back to the state of a fresh one.
    pub fn reset(&mut self)
        ensures
            final(self).wf(),
            final(self)@ == Position::initial(),
    {
        *self = Board::new();
    }

    /// The player to move plays at column `user_x` and row `user_y`, both
    /// counted from 1, rows from the bottom. A move off the grid or onto a cell
    /// of the other player is refused and changes nothing. Any other move
    /// places a piece, runs the cascade to its end, and passes the turn on if
    /// the game goes on; the answer is how the game stands then.
    ///
    /// A legal move needs room in the counters and a cascade that comes to an
    /// end: `can_play` tests both, and `try_move` plays only after that test.
    pub fn make_move(&mut self, user_x: usize, user_y: usize) -> (result: Result<GameState, String>)
        requires
            old(self).wf(),
            old(self).playable(user_x, user_y),
        ensures
            final(self).wf(),
            final(self).maxnum == old(self).maxnum,
            final(self)@ == play(old(self)@, target(user_x, user_y)),
            match result {
                Ok(state) => {
                    &&& legal(old(self)@, target(user_x, user_y))
                    &&& state == standing(placed(old(self)@, target(user_x, user_y)))
                    &&& final(self).rounds == old(self).rounds + 1
                    &&& final(self).redcount + final(self).blackcount == old(self).redcount + old(
                        self,
                    ).blackcount + 1
                },
                Err(reason) => {
                    &&& !legal(old(self)@, target(user_x, user_y))
                    &&& *final(self) == *old(self)
                    &&& reason@ == if on_board(target(user_x, user_y)) {
                        occupied_message()
                    } else {
                        range_message()
                    }
                },
            },
    {
        if user_x < 1 || user_x > 4 || user_y < 1 || user_y > 4 {
            return Err("坐标必须在1-4范围内！".to_string());
        }
        let board_x: usize = 4 - user_y;
        let board_y: usize = user_x - 1;

        proof {
            if legal(self@, target(user_x, user_y)) {
                lemma_placed(self@, target(user_x, user_y));
            }
        }
        if !self.place_chess(board_x, board_y) {
            return Err("无效的移动！".to_string());
        }
        let state = self.get_game_state();
        if state == GameState::Playing {
            self.change_player();
        }
        Ok(state)
    }

    /// Plays the move `(user_x, user_y)` as `make_move` does, if it can be
    /// played with a cascade of at most `budget` steps. Otherwise the answer
    /// is `None` and nothing has changed.
    pub fn try_move(&mut self, user_x: usize, user_y: usize, budget: usize) -> (result: Option<
        Result<GameState, String>,
    >)
        requires
            old(self).wf(),
        ensures
            final(self).wf(),
            final(self).maxnum == old(self).maxnum,
            result is Some <==> old(self).playable_within(user_x, user_y, budget),
            match result {
                Some(Ok(state)) => {
                    &&& legal(old(self)@, target(user_x, user_y))
                    &&& final(self)@ == play(old(self)@, target(user_x, user_y))
                    &&& state == standing(placed(old(self)@, target(user_x, user_y)))
                    &&& final(self).rounds == old(self).rounds + 1
                    &&& final(self).redcount + final(self).blackcount == old(self).redcount + old(
                        self,
                    ).blackcount + 1
                },
                Some(Err(reason)) => {
                    &&& !legal(old(self)@, target(user_x, user_y))
                    &&& *final(self) == *old(self)
                    &&& reason@ == if on_board(target(user_x, user_y)) {
                        occupied_message()
                    } else {
                        range_message()
                    }
                },
                None => *final(self) == *old(self),
            },
    {
        if !self.can_play(user_x, user_y, budget) {
            return None;
        }
        Some(self.make_move(user_x, user_y))
    }

    /// Whether the move `(user_x, user_y)` can be played with a cascade of at
    /// most `budget` steps. A move that is not legal can: it is refused. A
    /// legal move can if the counters have room for one more placement and its
    /// cascade has come to an end after `budget` steps. The board is left as
    /// it is.
    pub fn can_play(&self, user_x: usize, user_y: usize, budget: usize) -> (ok: bool)
        requires
            self.wf(),
        ensures
            ok == self.playable_within(user_x, user_y, budget),
            ok ==> self.playable(user_x, user_y),
    {
        if user_x < 1 || user_x > 4 || user_y < 1 || user_y > 4 {
            return true;
        }
        let board_x: usize = 4 - user_y;
        let board_y: usize = user_x - 1;
        if !self.accepts(board_x, board_y) {
            return true;
        }
        proof {
            lemma_totals_nonnegative(self@);
        }
        if self.rounds == i32::MAX || self.redcount >= i32::MAX - self.blackcount {
            return false;
        }
        let mut trial: Board = *self;
        trial.put(board_x, board_y);
        let done = trial.split_within(board_x, board_y, self.currentplayer, budget);
        proof {
            if done {
                lemma_settle(
                    drop_piece(self@, target(user_x, user_y)),
                    seq![target(user_x, user_y)],
                    self.currentplayer,
                    budget as nat,
                );
            }
        }
        done
    }

    /// How the game stands, by the number of placements and the two totals.
    pub fn get_game_state(&self) -> (state: GameState)
        ensures
            state == outcome(self.rounds as int, self.redcount as int, self.blackcount as int),
    {
        if self.rounds > 2 {
            if self.blackcount == 0 {
                return GameState::RedWins;
            }
            if self.redcount == 0 {
                return GameState::BlackWins;
            }
            if self.rounds > 200 {
                return GameState::Draw;
            }
        }
        GameState::Playing
    }

    /// Whether the player to move may place a piece on `(x, y)`.
    fn accepts(&self, x: usize, y: usize) -> (ok: bool)
        ensures
            ok == legal(self@, (x as int, y as int)),
    {
        !(x >= BOARD_SIZE || y >= BOARD_SIZE || (self.camp[x][y] != Color::Empty
            && self.camp[x][y] != self.currentplayer))
    }

    /// The player to move puts one piece on `(x, y)`.
    fn put(&mut self, x: usize, y: usize)
        requires
            old(self).wf(),
            old(self).has_room(),
            legal(old(self)@, (x as int, y as int)),
        ensures
            final(self)@ == drop_piece(old(self)@, (x as int, y as int)),
            final(self).maxnum == old(self).maxnum,
            final(self).currentplayer == old(self).currentplayer,
            unsettled(final(self)@, seq![(x as int, y as int)], final(self).currentplayer, 0),
            final(self).redcount + final(self).blackcount <= i32::MAX,
    {
        let ghost prior = *self;
        proof {
            lemma_drop_piece(self@, (x as int, y as int));
        }
        self.num[x][y] += 1;
        self.camp[x][y] = self.currentplayer;

        match self.currentplayer {
            Color::Red => self.redcount += 1,
            Color::Black => self.blackcount += 1,
            _ => {},
        }

        self.rounds += 1;
        proof {
            lemma_one_cell(prior, *self, x as int, y as int);
        }
    }

    /// The player to move places a piece on `(x, y)` and the cascade runs to
    /// its end. Returns `false`, with nothing changed, where the move is not
    /// legal.
    fn place_chess(&mut self, x: usize, y: usize) -> (ok: bool)
        requires
            old(self).wf(),
            legal(old(self)@, (x as int, y as int)) ==> old(self).has_room() && settles(
                old(self)@,
                (x as int, y as int),
            ),
        ensures
            ok == legal(old(self)@, (x as int, y as int)),
            !ok ==> *final(self) == *old(self),
            ok ==> final(self)@ == placed(old(self)@, (x as int, y as int)),
            final(self).wf(),
            final(self).maxnum == old(self).maxnum,
    {
        if !self.accepts(x, y) {
            return false;
        }
        let ghost at = (x as int, y as int);
        let ghost dropped = drop_piece(self@, at);
        proof {
            lemma_placed(self@, at);
        }
        self.put(x, y);

        if self.num[x][y] >= self.maxnum[x][y] {
            self.split_at(x, y, self.currentplayer);
        } else {
            proof {
                reveal_with_fuel(cascade, 2);
                assert(seq![at].drop_first().len() == 0);
                assert(cascade(dropped, seq![at], self.currentplayer, 1) == Some(dropped));
                lemma_settle(dropped, seq![at], self.currentplayer, 1);
            }
        }
        true
    }

    /// The cell `(x, y)` receives `gain` pieces from an overflow of `color`.
    /// Where it belonged to the other player it is captured: its pieces move
    /// from that player's total to the total of `color`.
    fn receive(&mut self, x: usize, y: usize, color: Color, gain: i32)
        requires
            x < 4,
            y < 4,
            0 <= gain,
            0 <= old(self).num[x as int][y as int],
            old(self).num[x as int][y as int] + gain <= i32::MAX,
            0 <= old(self).redcount,
            0 <= old(self).blackcount,
            old(self).redcount + old(self).blackcount <= i32::MAX,
            captures(color, old(self).camp[x as int][y as int]) ==> old(self).num[x as int][y as int]
                <= old(self)@.total(old(self).camp[x as int][y as int]),
        ensures
            final(self)@ == feed(old(self)@, (x as int, y as int), color, gain as int),
            final(self).maxnum == old(self).maxnum,
            final(self).num[x as int][y as int] == old(self).num[x as int][y as int] + gain,
    {
        let ghost prior = *self;
        if color == Color::Red && self.camp[x][y] == Color::Black {
            self.redcount += self.num[x][y];
            self.blackcount -= self.num[x][y];
        }
        if color == Color::Black && self.camp[x][y] == Color::Red {
            self.redcount -= self.num[x][y];
            self.blackcount += self.num[x][y];
        }
        self.num[x][y] += gain;
        self.camp[x][y] = color;
        proof {
            lemma_one_cell(prior, *self, x as int, y as int);
        }
    }

    /// The overflow of `(x, y)` serves direction `d` with `spare` bonus pieces
    /// in hand, and returns the bonus pieces that are left. A neighbour on the
    /// grid gets two pieces while the bonus lasts and one after that, and
    /// joins the queue if that fills it.
    fn serve(
        &mut self,
        queue: &mut VecDeque<(usize, usize)>,
        x: usize,
        y: usize,
        d: usize,
        color: Color,
        spare: i32,
    ) -> (left: i32)
        requires
            x < 4,
            y < 4,
            d < 4,
            spare >= 0,
            old(self).capacities_set(),
            old(self).redcount + old(self).blackcount <= i32::MAX,
            unsettled(
                old(self)@,
                coords(old(queue)@),
                color,
                ahead((x as int, y as int), d as int) + spare,
            ),
        ensures
            final(self)@ == visit(
                Wave { pos: old(self)@, spare: spare as int, queue: coords(old(queue)@) },
                (x as int, y as int),
                d as int,
                color,
            ).pos,
            coords(final(queue)@) == visit(
                Wave { pos: old(self)@, spare: spare as int, queue: coords(old(queue)@) },
                (x as int, y as int),
                d as int,
                color,
            ).queue,
            left as int == visit(
                Wave { pos: old(self)@, spare: spare as int, queue: coords(old(queue)@) },
                (x as int, y as int),
                d as int,
                color,
            ).spare,
            final(self).maxnum == old(self).maxnum,
    {
        let ghost w = Wave { pos: self@, spare: spare as int, queue: coords(queue@) };
        let ghost at = (x as int, y as int);
        let dx: [i32; 4] = [-1, 0, 1, 0];
        let dy: [i32; 4] = [0, 1, 0, -1];
        let mut remaining_overflow: i32 = spare;

        if x as i32 + dx[d] >= 0 && x as i32 + dx[d] < BOARD_SIZE as i32 && y as i32 + dy[d] >= 0
            && y as i32 + dy[d] < BOARD_SIZE as i32 {
            let nx: usize = (x as i32 + dx[d]) as usize;
            let ny: usize = (y as i32 + dy[d]) as usize;
            proof {
                assert(neighbor(at, d as int) == (nx as int, ny as int));
                lemma_visit_room(w, at, d as int, color);
                assert(w.pos.cell((nx as int, ny as int)) == Cell {
                    owner: self.camp[nx as int][ny as int],
                    count: self.num[nx as int][ny as int] as int,
                });
            }

            if remaining_overflow > 0 {
                self.receive(nx, ny, color, 2);
                remaining_overflow -= 1;
            } else {
                self.receive(nx, ny, color, 1);
            }

            if self.num[nx][ny] >= self.maxnum[nx][ny] {
                queue.push_back((nx, ny));
                proof {
                    assert(coords(queue@) =~= w.queue.push((nx as int, ny as int)));
                }
            }
        } else {
            proof {
                assert(!on_board(neighbor(at, d as int)));
            }
        }
        remaining_overflow
    }

    /// One step of the cascade: the front of the queue leaves it, and its
    /// cell, if it is at or above its capacity, is emptied and hands its
    /// pieces to its neighbours.
    fn step_front(&mut self, queue: &mut VecDeque<(usize, usize)>, color: Color)
        requires
            old(queue)@.len() > 0,
            old(self).capacities_set(),
            unsettled(old(self)@, coords(old(queue)@), color, 0),
            old(self).redcount + old(self).blackcount <= i32::MAX,
        ensures
            final(self)@ == step(old(self)@, coords(old(queue)@), color).pos,
            coords(final(queue)@) == step(old(self)@, coords(old(queue)@), color).queue,
            unsettled(final(self)@, coords(final(queue)@), color, 0),
            final(self).maxnum == old(self).maxnum,
            final(self).redcount + final(self).blackcount <= i32::MAX,
    {
        let ghost waiting = coords(queue@);
        proof {
            lemma_front_on_board(self@, waiting, color, 0);
            lemma_step(self@, waiting, color);
        }
        let (x, y) = queue.pop_front().unwrap();
        let ghost at = (x as int, y as int);
        proof {
            assert(waiting[0] == at);
            assert(coords(queue@) =~= waiting.drop_first());
        }

        if self.num[x][y] < self.maxnum[x][y] {
            return ;
        }
        let ghost start = drain(self@, waiting.drop_first(), at);
        proof {
            lemma_drain(self@, waiting, color);
        }
        let overflow: i32 = self.num[x][y] - self.maxnum[x][y];
        self.num[x][y] = 0;
        self.camp[x][y] = Color::Empty;
        assert(self@.cells =~= start.pos.cells);

        let mut remaining_overflow: i32 = overflow;

        for i in 0..4usize
            invariant
                x < 4,
                y < 4,
                at == (x as int, y as int),
                self.maxnum == old(self).maxnum,
                self.capacities_set(),
                self.redcount + self.blackcount <= i32::MAX,
                remaining_overflow >= 0,
                self@ == spread(start, at, color, i as nat).pos,
                coords(queue@) == spread(start, at, color, i as nat).queue,
                remaining_overflow as int == spread(start, at, color, i as nat).spare,
                unsettled(self@, coords(queue@), color, ahead(at, i as int) + remaining_overflow),
        {
            proof {
                lemma_visit(spread(start, at, color, i as nat), at, i as int, color);
            }
            remaining_overflow = self.serve(queue, x, y, i, color, remaining_overflow);
        }
    }

    /// The cascade that starts at `(x, y)`, run until no cell is left to look
    /// at.
    fn split_at(&mut self, x: usize, y: usize, color: Color)
        requires
            x < 4,
            y < 4,
            old(self).capacities_set(),
            unsettled(old(self)@, seq![(x as int, y as int)], color, 0),
            old(self).redcount + old(self).blackcount <= i32::MAX,
            terminates(old(self)@, seq![(x as int, y as int)], color),
        ensures
            final(self)@ == settle(old(self)@, seq![(x as int, y as int)], color),
            final(self).maxnum == old(self).maxnum,
    {
        let mut positions_to_split: VecDeque<(usize, usize)> = VecDeque::new();
        positions_to_split.push_back((x, y));
        let ghost goal = settle(self@, seq![(x as int, y as int)], color);
        let ghost mut fuel: nat = enough(self@, seq![(x as int, y as int)], color);
        proof {
            assert(coords(positions_to_split@) =~= seq![(x as int, y as int)]);
        }

        while positions_to_split.len() > 0
            invariant
                self.capacities_set(),
                self.maxnum == old(self).maxnum,
                self.redcount + self.blackcount <= i32::MAX,
                unsettled(self@, coords(positions_to_split@), color, 0),
                cascade(self@, coords(positions_to_split@), color, fuel) == Some(goal),
            decreases fuel,
        {
            self.step_front(&mut positions_to_split, color);
            proof {
                fuel = (fuel - 1) as nat;
            }
        }
    }

    /// The cascade that starts at `(x, y)`, given up after `budget` steps.
    /// Returns whether it has ended.
    fn split_within(&mut self, x: usize, y: usize, color: Color, budget: usize) -> (done: bool)
        requires
            x < 4,
            y < 4,
            old(self).capacities_set(),
            unsettled(old(self)@, seq![(x as int, y as int)], color, 0),
            old(self).redcount + old(self).blackcount <= i32::MAX,
        ensures
            done == cascade(old(self)@, seq![(x as int, y as int)], color, budget as nat) is Some,
            done ==> final(self)@ == settle(old(self)@, seq![(x as int, y as int)], color),
            final(self).maxnum == old(self).maxnum,
    {
        let mut positions_to_split: VecDeque<(usize, usize)> = VecDeque::new();
        positions_to_split.push_back((x, y));
        let mut left: usize = budget;
        proof {
            assert(coords(positions_to_split@) =~= seq![(x as int, y as int)]);
        }

        while positions_to_split.len() > 0
            invariant
                self.capacities_set(),
                self.maxnum == old(self).maxnum,
                self.redcount + self.blackcount <= i32::MAX,
                unsettled(self@, coords(positions_to_split@), color, 0),
                cascade(self@, coords(positions_to_split@), color, left as nat) == cascade(
                    old(self)@,
                    seq![(x as int, y as int)],
                    color,
                    budget as nat,
                ),
            decreases left,
        {
            if left == 0 {
                return false;
            }
            left -= 1;
            self.step_front(&mut positions_to_split, color);
        }
        proof {
            lemma_settle(old(self)@, seq![(x as int, y as int)], color, budget as nat);
        }
        true
    }

    /// The turn passes to the other player.
    fn change_player(&mut self)
        ensures
            *final(self) == (Board { currentplayer: rival(old(self).currentplayer), ..*old(self) }),
    {
        self.currentplayer =
        match self.currentplayer {
            Color::Red => Color::Black,
            Color::Black => Color::Red,
            _ => Color::Red,
        };
    }
}

} // verus!
