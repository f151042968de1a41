use vstd::prelude::*;

use crate::board::{
    apply_clears, clear_one, complete_rows, complete_rows_upto, empty_board,
    lemma_apply_clears_occ, lemma_complete_rows_empty, lemma_complete_rows_props,
    lemma_fits_bounds, lemma_fits_empty, lemma_write_piece_occ,
    lemma_write_upto_end, lemma_write_upto_row_end, lemma_write_upto_step_set,
    lemma_write_upto_step_skip, lemma_write_upto_zero, occ, piece_fits, row_complete, shape_cells,
    write_piece, write_upto, BoardView,
};
use crate::piece::{
    copy_shape, lemma_canonical_shape_wf, lemma_rotate_shape_wf, piece_wf, rotate_shape,
    spec_new_piece, Piece, PieceModel,
};
use crate::tetromino::TetrominoType;

verus! {

/// Mathematical model of the whole engine state.
#[verifier::ext_equal]
pub ghost struct GameModel {
    pub board: BoardView,
    pub current: Option<PieceModel>,
    pub next: PieceModel,
    pub score: int,
    pub lines: int,
    pub level: int,
    pub game_over: bool,
    pub paused: bool,
    pub drop_timer: int,
    pub drop_interval: int,
}

/// Addition capped at the counter's maximum: the counters never wrap and
/// never decrease.
pub open spec fn sat32(x: int) -> int {
    if x > u32::MAX as int {
        u32::MAX as int
    } else {
        x
    }
}

/// Points for clearing exactly `n` rows at once, before the level multiplier:
/// 40, 100, 300 or 1200 for 1 to 4 rows, and 0 for any other count.
pub open spec fn line_points(n: int) -> int {
    if n == 1 {
        40
    } else if n == 2 {
        100
    } else if n == 3 {
        300
    } else if n == 4 {
        1200
    } else {
        0
    }
}

/// The gravity interval of a level: max(60 - 3 * level, 5) frames per row.
pub open spec fn interval_for(level: int) -> int {
    if 60 - 3 * level >= 5 {
        60 - 3 * level
    } else {
        5
    }
}

/// The piece one row further down.
pub open spec fn down_one(p: PieceModel) -> PieceModel {
    PieceModel { y: p.y + 1, ..p }
}

/// How many single-row downward steps the piece can take on board `b`
/// before the next step no longer fits.
pub open spec fn drop_dist(b: BoardView, p: PieceModel) -> nat
    decreases 24 - p.y
        when piece_wf(p) && -4 <= p.y <= 20
{
    if piece_fits(b, down_one(p)) && p.y < 20 {
        (1 + drop_dist(b, down_one(p))) as nat
    } else {
        0
    }
}

/// A well-formed game state: full-size board, well-formed pieces, the
/// current piece (if any) at a valid position, timer in range, and the
/// gravity interval exactly the one its level prescribes (so gravity can
/// never slow down as the level rises).
pub open spec fn model_wf(m: GameModel) -> bool {
    &&& m.board.len() == 200
    &&& (m.current matches Some(p) ==> piece_wf(p) && piece_fits(m.board, p))
    &&& piece_wf(m.next)
    &&& 0 <= m.score <= u32::MAX
    &&& 0 <= m.lines <= u32::MAX
    &&& 0 <= m.level <= u32::MAX
    &&& m.drop_interval == interval_for(m.level)
    &&& 5 <= m.drop_interval <= 60
    &&& 0 <= m.drop_timer < 60
}

/// A freshly constructed (or reset) state: empty board, zero counters,
/// unpaused, not over, a fresh current piece at the spawn origin and a fresh
/// queued piece.
pub open spec fn spec_fresh(m: GameModel) -> bool {
    &&& m.board == empty_board()
    &&& (m.current matches Some(p) && p == spec_new_piece(p.kind))
    &&& m.next == spec_new_piece(m.next.kind)
    &&& m.score == 0
    &&& m.lines == 0
    &&& m.level == 0
    &&& !m.game_over
    &&& !m.paused
    &&& m.drop_timer == 0
    &&& m.drop_interval == 60
}

/// The current piece's cells become board cells; the piece is consumed.
pub open spec fn spec_place(m: GameModel) -> GameModel {
    match m.current {
        Some(p) => GameModel {
            board: write_piece(m.board, p),
            current: None::<PieceModel>,
            ..m
        },
        None => m,
    }
}

/// Line clearing with scoring and leveling: every complete row is removed
/// (in ascending order, each removal acting on the already-shifted board);
/// `n > 0` cleared rows award `line_points(n) * (level + 1)` points and raise
/// the line count; the level rises to `lines / 10` whenever that exceeds it,
/// recomputing the gravity interval.
pub open spec fn spec_clear(m: GameModel) -> GameModel {
    let rows = complete_rows(m.board);
    let b2 = apply_clears(m.board, rows);
    let n = rows.len() as int;
    if n > 0 {
        let lines2 = sat32(m.lines + n);
        let score2 = sat32(m.score + line_points(n) * (m.level + 1));
        let level2 = if lines2 / 10 > m.level {
            lines2 / 10
        } else {
            m.level
        };
        let interval2 = if lines2 / 10 > m.level {
            interval_for(level2)
        } else {
            m.drop_interval
        };
        GameModel {
            board: b2,
            score: score2,
            lines: lines2,
            level: level2,
            drop_interval: interval2,
            ..m
        }
    } else {
        GameModel { board: b2, ..m }
    }
}

/// The queued piece spawns at the origin if it fits there; otherwise the
/// game is over and the current piece stays as it was. Either way a fresh
/// piece of kind `k` is queued.
pub open spec fn spec_spawn(m: GameModel, k: TetrominoType) -> GameModel {
    let cand = spec_new_piece(m.next.kind);
    if piece_fits(m.board, cand) {
        GameModel { current: Some(cand), next: spec_new_piece(k), ..m }
    } else {
        GameModel { game_over: true, next: spec_new_piece(k), ..m }
    }
}

/// A full lock: place the current piece, clear lines, spawn the next piece
/// (queueing a fresh piece of kind `k`).
pub open spec fn spec_after_lock(m: GameModel, k: TetrominoType) -> GameModel {
    spec_spawn(spec_clear(spec_place(m)), k)
}

/// The state after the current piece fell `d` rows, one awarded point per
/// row.
pub open spec fn spec_descend(m: GameModel, d: int) -> GameModel {
    match m.current {
        Some(p) => GameModel {
            current: Some(PieceModel { y: p.y + d, ..p }),
            score: sat32(m.score + d),
            ..m
        },
        None => m,
    }
}

/// The game engine: playfield, current and queued piece, counters, flags
/// and the gravity timer.
#[derive(Debug)]
pub struct TetrisGame {
    /// 200 cells, row-major: row `y`, column `x` at index `y * 10 + x`.
    pub board: Vec<Option<TetrominoType>>,
    pub current_piece: Option<Piece>,
    pub next_piece: Piece,
    pub score: u32,
    pub lines: u32,
    pub level: u32,
    pub is_game_over: bool,
    pub is_paused: bool,
    pub drop_timer: u32,
    pub drop_interval: u32,
}

impl View for TetrisGame {
    type V = GameModel;

    open spec fn view(&self) -> GameModel {
        GameModel {
            board: self.board@,
            current: match self.current_piece {
                Some(p) => Some(p@),
                None => None,
            },
            next: self.next_piece@,
            score: self.score as int,
            lines: self.lines as int,
            level: self.level as int,
            game_over: self.is_game_over,
            paused: self.is_paused,
            drop_timer: self.drop_timer as int,
            drop_interval: self.drop_interval as int,
        }
    }
}

/// `a + b`, capped at `u32::MAX` instead of overflowing.
fn add_capped(a: u32, b: u32) -> (r: u32)
    ensures
        r as int == sat32(a + b),
{
    if a <= u32::MAX - b {
        a + b
    } else {
        u32::MAX
    }
}

/// `score + pts * (level + 1)`, capped at `u32::MAX`.
fn add_points(score: u32, pts: u32, level: u32) -> (r: u32)
    requires
        pts <= 1200,
    ensures
        r as int == sat32(score + pts * (level + 1)),
{
    proof {
        assert((pts as int) * ((level as int) + 1) <= 1200 * 0x1_0000_0000) by (nonlinear_arith)
            requires
                pts <= 1200 && (level as int) + 1 <= 0x1_0000_0000,
        ;
    }
    let add: u64 = (pts as u64) * ((level as u64) + 1);
    let sum: u64 = (score as u64) + add;
    if sum > u32::MAX as u64 {
        u32::MAX
    } else {
        sum as u32
    }
}

/// A copy of the piece, shifted by (dx, dy).
fn shifted_piece(p: &Piece, dx: i32, dy: i32) -> (r: Piece)
    requires
        i32::MIN <= p@.x + dx <= i32::MAX,
        i32::MIN <= p@.y + dy <= i32::MAX,
    ensures
        r@ == (PieceModel { x: p@.x + dx, y: p@.y + dy, ..p@ }),
{
    Piece { piece_type: p.piece_type, shape: copy_shape(&p.shape), x: p.x + dx, y: p.y + dy }
}

impl TetrisGame {
    /// Well-formed engine state; every command preserves it.
    pub open spec fn wf(self) -> bool {
        model_wf(self@)
    }

    /// A fresh engine: empty board, zero counters, a spawned current piece
    /// and a queued next piece.
    pub fn new() -> (g: TetrisGame)
        ensures
            g.wf(),
            spec_fresh(g@),
    {
        let mut board: Vec<Option<TetrominoType>> = Vec::new();
        let mut i: usize = 0;
        while i < 200
            invariant
                i <= 200,
                board@.len() == i,
                forall|k: int| 0 <= k < i ==> board@[k] is None,
            decreases 200 - i,
        {
            board.push(None);
            i = i + 1;
        }
        proof {
            assert(board@ =~= empty_board());
        }
        let next_kind = TetrominoType::random();
        proof {
            lemma_canonical_shape_wf(next_kind);
        }
        let mut game = TetrisGame {
            board,
            current_piece: None,
            next_piece: Piece::new(next_kind),
            score: 0,
            lines: 0,
            level: 0,
            is_game_over: false,
            is_paused: false,
            drop_timer: 0,
            drop_interval: 60,
        };
        let ghost m0 = game@;
        game.spawn_next_piece();
        proof {
            let k = choose|k: TetrominoType| game@ == spec_spawn(m0, k);
            lemma_canonical_shape_wf(m0.next.kind);
            lemma_fits_empty(spec_new_piece(m0.next.kind));
        }
        game
    }

    /// Reinitialize to a fresh engine, as at construction.
    pub fn reset(&mut self)
        ensures
            final(self).wf(),
            spec_fresh(final(self)@),
    {
        *self = TetrisGame::new();
    }

    /// Whether every occupied cell of `piece` maps to an in-bounds, empty
    /// board cell.
    pub fn is_valid_position(&self, piece: &Piece) -> (r: bool)
        requires
            self.board@.len() == 200,
            piece_wf(piece@),
        ensures
            r == piece_fits(self.board@, piece@),
    {
        let rows = piece.shape.len();
        let mut i: usize = 0;
        while i < rows
            invariant
                i <= rows,
                rows == piece@.shape.len(),
                self.board@.len() == 200,
                piece_wf(piece@),
                forall|a: int, bj: int|
                    #![auto]
                    0 <= a < i && 0 <= bj < piece@.shape[a].len() && piece@.shape[a][bj] ==> {
                        &&& 0 <= piece@.x + bj < 10
                        &&& 0 <= piece@.y + a < 20
                        &&& self.board@[(piece@.y + a) * 10 + (piece@.x + bj)] is None
                    },
            decreases rows - i,
        {
            let row_len = piece.shape[i].len();
            proof {
                assert(piece@.shape[i as int] =~= piece.shape@[i as int]@);
            }
            let mut j: usize = 0;
            while j < row_len
                invariant
                    j <= row_len,
                    i < rows,
                    rows == piece@.shape.len(),
                    row_len == piece@.shape[i as int].len(),
                    self.board@.len() == 200,
                    piece_wf(piece@),
                    piece@.shape[i as int] =~= piece.shape@[i as int]@,
                    forall|bj: int|
                        #![auto]
                        0 <= bj < j && piece@.shape[i as int][bj] ==> {
                            &&& 0 <= piece@.x + bj < 10
                            &&& 0 <= piece@.y + i < 20
                            &&& self.board@[(piece@.y + i) * 10 + (piece@.x + bj)] is None
                        },
                decreases row_len - j,
            {
                if piece.shape[i][j] {
                    let bx: i64 = piece.x as i64 + j as i64;
                    let by: i64 = piece.y as i64 + i as i64;
                    if bx < 0 || bx >= 10 || by < 0 || by >= 20 {
                        proof {
                            assert(piece@.shape[i as int][j as int]);
                            assert(!piece_fits(self.board@, piece@));
                        }
                        return false;
                    }
                    let idx: usize = (by as usize) * 10 + (bx as usize);
                    if self.board[idx].is_some() {
                        proof {
                            assert(piece@.shape[i as int][j as int]);
                            assert(self.board@[(piece@.y + i) * 10 + (piece@.x + j)] is Some);
                            assert(!piece_fits(self.board@, piece@));
                        }
                        return false;
                    }
                }
                j = j + 1;
            }
            i = i + 1;
        }
        true
    }

    /// Spawn the queued piece at the origin if it fits, else declare the
    /// game over; draw a fresh random next piece either way.
    pub fn spawn_next_piece(&mut self)
        requires
            old(self).wf(),
        ensures
            final(self).wf(),
            exists|k: TetrominoType| final(self)@ == spec_spawn(old(self)@, k),
    {
        proof {
            lemma_canonical_shape_wf(old(self)@.next.kind);
        }
        let new_piece = Piece::new(self.next_piece.piece_type);
        let k = TetrominoType::random();
        proof {
            lemma_canonical_shape_wf(k);
        }
        self.next_piece = Piece::new(k);
        if self.is_valid_position(&new_piece) {
            self.current_piece = Some(new_piece);
        } else {
            self.is_game_over = true;
        }
        proof {
            assert(self@ =~= spec_spawn(old(self)@, k));
        }
    }

    /// Shift the current piece one column left; commit only if the result
    /// is valid. Refused while paused or after game over.
    pub fn move_left(&mut self) -> (r: bool)
        requires
            old(self).wf(),
        ensures
            final(self).wf(),
            (old(self).is_paused || old(self).is_game_over) ==> !r && final(self)@ == old(self)@,
            !(old(self).is_paused || old(self).is_game_over) ==> match old(self)@.current {
                None => !r && final(self)@ == old(self)@,
                Some(p) => {
                    let cand = (PieceModel { x: p.x - 1, ..p });
                    if piece_fits(old(self)@.board, cand) {
                        r && final(self)@ == (GameModel { current: Some(cand), ..old(self)@ })
                    } else {
                        !r && final(self)@ == old(self)@
                    }
                },
            },
    {
        if self.is_paused || self.is_game_over {
            return false;
        }
        match &self.current_piece {
            None => false,
            Some(piece) => {
                proof {
                    lemma_fits_bounds(self.board@, piece@);
                }
                let cand = shifted_piece(piece, -1, 0);
                if self.is_valid_position(&cand) {
                    self.current_piece = Some(cand);
                    proof {
                        assert(self@ =~= (GameModel {
                            current: Some(
                                PieceModel { x: old(self)@.current->Some_0.x - 1, ..old(
                                    self,
                                )@.current->Some_0 },
                            ),
                            ..old(self)@
                        }));
                    }
                    true
                } else {
                    false
                }
            },
        }
    }

    /// Shift the current piece one column right; commit only if the result
    /// is valid. Refused while paused or after game over.
    pub fn move_right(&mut self) -> (r: bool)
        requires
            old(self).wf(),
        ensures
            final(self).wf(),
            (old(self).is_paused || old(self).is_game_over) ==> !r && final(self)@ == old(self)@,
            !(old(self).is_paused || old(self).is_game_over) ==> match old(self)@.current {
                None => !r && final(self)@ == old(self)@,
                Some(p) => {
                    let cand = (PieceModel { x: p.x + 1, ..p });
                    if piece_fits(old(self)@.board, cand) {
                        r && final(self)@ == (GameModel { current: Some(cand), ..old(self)@ })
                    } else {
                        !r && final(self)@ == old(self)@
                    }
                },
            },
    {
        if self.is_paused || self.is_game_over {
            return false;
        }
        match &self.current_piece {
            None => false,
            Some(piece) => {
                proof {
                    lemma_fits_bounds(self.board@, piece@);
                }
                let cand = shifted_piece(piece, 1, 0);
                if self.is_valid_position(&cand) {
                    self.current_piece = Some(cand);
                    proof {
                        assert(self@ =~= (GameModel {
                            current: Some(
                                PieceModel { x: old(self)@.current->Some_0.x + 1, ..old(
                                    self,
                                )@.current->Some_0 },
                            ),
                            ..old(self)@
                        }));
                    }
                    true
                } else {
                    false
                }
            },
        }
    }

    /// Move the current piece one row down; on success one point is scored.
    /// The failure of this step is the engine's lock signal.
    pub fn soft_drop(&mut self) -> (r: bool)
        requires
            old(self).wf(),
        ensures
            final(self).wf(),
            (old(self).is_paused || old(self).is_game_over) ==> !r && final(self)@ == old(self)@,
            !(old(self).is_paused || old(self).is_game_over) ==> match old(self)@.current {
                None => !r && final(self)@ == old(self)@,
                Some(p) => {
                    if piece_fits(old(self)@.board, down_one(p)) {
                        r && final(self)@ == (GameModel {
                            current: Some(down_one(p)),
                            score: sat32(old(self)@.score + 1),
                            ..old(self)@
                        })
                    } else {
                        !r && final(self)@ == old(self)@
                    }
                },
            },
    {
        if self.is_paused || self.is_game_over {
            return false;
        }
        match &self.current_piece {
            None => false,
            Some(piece) => {
                proof {
                    lemma_fits_bounds(self.board@, piece@);
                }
                let cand = shifted_piece(piece, 0, 1);
                if self.is_valid_position(&cand) {
                    self.current_piece = Some(cand);
                    self.score = add_capped(self.score, 1);
                    proof {
                        assert(self@ =~= (GameModel {
                            current: Some(down_one(old(self)@.current->Some_0)),
                            score: sat32(old(self)@.score + 1),
                            ..old(self)@
                        }));
                    }
                    true
                } else {
                    false
                }
            },
        }
    }

    /// Rotate the current piece 90 degrees clockwise at its origin; commit
    /// only if the rotated piece is valid (no wall kicks). Refused while
    /// paused or after game over.
    pub fn rotate(&mut self) -> (r: bool)
        requires
            old(self).wf(),
        ensures
            final(self).wf(),
            (old(self).is_paused || old(self).is_game_over) ==> !r && final(self)@ == old(self)@,
            !(old(self).is_paused || old(self).is_game_over) ==> match old(self)@.current {
                None => !r && final(self)@ == old(self)@,
                Some(p) => {
                    let cand = (PieceModel { shape: rotate_shape(p.shape), ..p });
                    if piece_fits(old(self)@.board, cand) {
                        r && final(self)@ == (GameModel { current: Some(cand), ..old(self)@ })
                    } else {
                        !r && final(self)@ == old(self)@
                    }
                },
            },
    {
        if self.is_paused || self.is_game_over {
            return false;
        }
        match &self.current_piece {
            None => false,
            Some(piece) => {
                let cand = piece.rotate();
                proof {
                    lemma_rotate_shape_wf(piece@.shape);
                }
                if self.is_valid_position(&cand) {
                    self.current_piece = Some(cand);
                    proof {
                        assert(self@ =~= (GameModel {
                            current: Some(
                                PieceModel {
                                    shape: rotate_shape(old(self)@.current->Some_0.shape),
                                    ..old(self)@.current->Some_0
                                },
                            ),
                            ..old(self)@
                        }));
                    }
                    true
                } else {
                    false
                }
            },
        }
    }

    /// Flip the pause flag; the only command gated by neither pause nor
    /// game over.
    pub fn toggle_pause(&mut self)
        requires
            old(self).wf(),
        ensures
            final(self).wf(),
            final(self)@ == (GameModel { paused: !old(self)@.paused, ..old(self)@ }),
    {
        self.is_paused = !self.is_paused;
        proof {
            assert(self@ =~= (GameModel { paused: !old(self)@.paused, ..old(self)@ }));
        }
    }

    /// Row `y` has no empty cell.
    fn row_filled(&self, y: usize) -> (r: bool)
        requires
            self.board@.len() == 200,
            y < 20,
        ensures
            r == row_complete(self.board@, y as int),
    {
        let mut x: usize = 0;
        while x < 10
            invariant
                x <= 10,
                y < 20,
                self.board@.len() == 200,
                forall|t: int| 0 <= t < x ==> (#[trigger] self.board@[y as int * 10 + t]) is Some,
            decreases 10 - x,
        {
            if self.board[y * 10 + x].is_none() {
                proof {
                    assert(self.board@[y as int * 10 + x as int] is None);
                    assert(!row_complete(self.board@, y as int));
                }
                return false;
            }
            x = x + 1;
        }
        true
    }

    /// Remove every complete row (ascending, each shift acting on the board
    /// the previous shift produced), then award points, raise the line
    /// count, and level up when `lines / 10` passes the current level.
    pub fn clear_lines(&mut self)
        requires
            old(self).wf(),
            old(self)@.current is None,
        ensures
            final(self).wf(),
            final(self)@ == spec_clear(old(self)@),
    {
        let ghost b1 = self.board@;
        let mut rows_vec: Vec<usize> = Vec::new();
        let mut y: usize = 0;
        while y < 20
            invariant
                y <= 20,
                self == old(self),
                self.board@.len() == 200,
                b1 == self.board@,
                rows_vec@.len() <= y,
                forall|q: int| 0 <= q < rows_vec@.len() ==> (#[trigger] rows_vec@[q]) < 20,
                rows_vec@.map_values(|u: usize| u as int) == complete_rows_upto(b1, y as int),
            decreases 20 - y,
        {
            if self.row_filled(y) {
                rows_vec.push(y);
            }
            proof {
                assert(rows_vec@.map_values(|u: usize| u as int) =~= complete_rows_upto(
                    b1,
                    y + 1 as int,
                ));
            }
            y = y + 1;
        }
        let ghost rows_spec = complete_rows(b1);
        proof {
            assert(rows_spec.subrange(0, rows_spec.len() as int) =~= rows_spec);
        }
        let mut t: usize = 0;
        while t < rows_vec.len()
            invariant
                t <= rows_vec@.len(),
                rows_vec@.len() <= 20,
                forall|q: int| 0 <= q < rows_vec@.len() ==> (#[trigger] rows_vec@[q]) < 20,
                rows_vec@.map_values(|u: usize| u as int) == rows_spec,
                self.board@.len() == 200,
                apply_clears(b1, rows_spec) == apply_clears(
                    self.board@,
                    rows_spec.subrange(t as int, rows_spec.len() as int),
                ),
                self@ == (GameModel { board: self.board@, ..old(self)@ }),
            decreases rows_vec@.len() - t,
        {
            let line = rows_vec[t];
            proof {
                assert(rows_vec@.map_values(|u: usize| u as int)[t as int] == rows_spec[t as int]);
            }
            let ghost bcur = self.board@;
            let mut yy: usize = line;
            while yy >= 1
                invariant
                    yy <= line,
                    line < 20,
                    self.board@.len() == 200,
                    self@ == (GameModel { board: self.board@, ..old(self)@ }),
                    forall|idx: int|
                        0 <= idx < 200 ==> self.board@[idx] == (if (yy + 1) * 10 <= idx < (line
                            + 1) * 10 {
                            bcur[idx - 10]
                        } else {
                            bcur[idx]
                        }),
                decreases yy,
            {
                let mut x: usize = 0;
                while x < 10
                    invariant
                        x <= 10,
                        1 <= yy <= line,
                        line < 20,
                        self.board@.len() == 200,
                        self@ == (GameModel { board: self.board@, ..old(self)@ }),
                        forall|idx: int|
                            0 <= idx < 200 ==> self.board@[idx] == (if yy * 10 <= idx < yy * 10
                                + x {
                                bcur[idx - 10]
                            } else if (yy + 1) * 10 <= idx < (line + 1) * 10 {
                                bcur[idx - 10]
                            } else {
                                bcur[idx]
                            }),
                    decreases 10 - x,
                {
                    let v = self.board[(yy - 1) * 10 + x];
                    self.board[yy * 10 + x] = v;
                    x = x + 1;
                }
                yy = yy - 1;
            }
            let mut x: usize = 0;
            while x < 10
                invariant
                    x <= 10,
                    line < 20,
                    self.board@.len() == 200,
                    self@ == (GameModel { board: self.board@, ..old(self)@ }),
                    forall|idx: int|
                        0 <= idx < 200 ==> self.board@[idx] == (if 0 <= idx < x {
                            None::<TetrominoType>
                        } else if 10 <= idx < (line + 1) * 10 {
                            bcur[idx - 10]
                        } else {
                            bcur[idx]
                        }),
                decreases 10 - x,
            {
                self.board[x] = None;
                x = x + 1;
            }
            proof {
                assert(self.board@ =~= clear_one(bcur, line as int));
                let rest = rows_spec.subrange(t as int, rows_spec.len() as int);
                assert(rest[0] == rows_spec[t as int]);
                assert(rest.subrange(1, rest.len() as int) =~= rows_spec.subrange(
                    t + 1 as int,
                    rows_spec.len() as int,
                ));
            }
            t = t + 1;
        }
        proof {
            assert(rows_spec.subrange(rows_spec.len() as int, rows_spec.len() as int)
                =~= Seq::<int>::empty());
            assert(self.board@ == apply_clears(b1, rows_spec));
        }
        let n = rows_vec.len();
        if n > 0 {
            let pts: u32 = if n == 1 {
                40
            } else if n == 2 {
                100
            } else if n == 3 {
                300
            } else if n == 4 {
                1200
            } else {
                0
            };
            proof {
                assert(pts as int == line_points(n as int));
            }
            self.score = add_points(self.score, pts, self.level);
            self.lines = add_capped(self.lines, n as u32);
            let new_level = self.lines / 10;
            if new_level > self.level {
                self.level = new_level;
                self.drop_interval = if self.level <= 18 {
                    60 - self.level * 3
                } else {
                    5
                };
            }
        }
        proof {
            assert(self@ =~= spec_clear(old(self)@));
        }
    }

    /// Lock the current piece (if any) into the board, clear lines, then
    /// spawn the queued piece.
    pub fn place_current_piece(&mut self)
        requires
            old(self).wf(),
        ensures
            final(self).wf(),
            old(self)@.current is None ==> final(self)@ == old(self)@,
            old(self)@.current is Some ==> exists|k: TetrominoType|
                final(self)@ == spec_after_lock(old(self)@, k),
    {
        let piece_opt = self.current_piece.take();
        match piece_opt {
            None => {
                proof {
                    assert(self@ =~= old(self)@);
                }
            },
            Some(piece) => {
                let ghost b0 = self.board@;
                let ghost pm = piece@;
                proof {
                    lemma_write_upto_zero(b0, pm);
                }
                let rows = piece.shape.len();
                let mut i: usize = 0;
                while i < rows
                    invariant
                        i <= rows,
                        rows == pm.shape.len(),
                        pm == piece@,
                        piece_wf(pm),
                        piece_fits(b0, pm),
                        b0.len() == 200,
                        self.board@.len() == 200,
                        self.board@ == write_upto(b0, pm, i as int, 0),
                        self@ == (GameModel {
                            board: self.board@,
                            current: None::<PieceModel>,
                            ..old(self)@
                        }),
                    decreases rows - i,
                {
                    let row_len = piece.shape[i].len();
                    proof {
                        assert(pm.shape[i as int] =~= piece.shape@[i as int]@);
                    }
                    let mut j: usize = 0;
                    while j < row_len
                        invariant
                            j <= row_len,
                            i < rows,
                            rows == pm.shape.len(),
                            row_len == pm.shape[i as int].len(),
                            pm == piece@,
                            piece_wf(pm),
                            piece_fits(b0, pm),
                            b0.len() == 200,
                            self.board@.len() == 200,
                            self.board@ == write_upto(b0, pm, i as int, j as int),
                            self@ == (GameModel {
                                board: self.board@,
                                current: None::<PieceModel>,
                                ..old(self)@
                            }),
                        decreases row_len - j,
                    {
                        proof {
                            assert(pm.shape[i as int] =~= piece.shape@[i as int]@);
                        }
                        if piece.shape[i][j] {
                            proof {
                                assert(pm.shape[i as int][j as int]);
                                lemma_write_upto_step_set(b0, pm, i as int, j as int);
                            }
                            let by: usize = (piece.y as i64 + i as i64) as usize;
                            let bx: usize = (piece.x as i64 + j as i64) as usize;
                            let idx: usize = by * 10 + bx;
                            self.board[idx] = Some(piece.piece_type);
                            proof {
                                assert(self.board@ =~= write_upto(b0, pm, i as int, j + 1 as int));
                            }
                        } else {
                            proof {
                                lemma_write_upto_step_skip(b0, pm, i as int, j as int);
                            }
                        }
                        j = j + 1;
                    }
                    proof {
                        lemma_write_upto_row_end(b0, pm, i as int);
                    }
                    i = i + 1;
                }
                proof {
                    lemma_write_upto_end(b0, pm);
                    assert(self.board@ == write_piece(b0, pm));
                    assert(self@ =~= spec_place(old(self)@));
                }
                let ghost m1 = self@;
                self.clear_lines();
                let ghost m2 = self@;
                self.spawn_next_piece();
                proof {
                    let k = choose|k: TetrominoType| self@ == spec_spawn(m2, k);
                    assert(self@ == spec_after_lock(old(self)@, k));
                }
            },
        }
    }

    /// Drop the current piece straight down, one point per row fallen, and
    /// lock it if it fell at least one row; a piece already resting on its
    /// support falls zero rows and is not locked.
    pub fn hard_drop(&mut self) -> (r: u32)
        requires
            old(self).wf(),
        ensures
            final(self).wf(),
            (old(self).is_paused || old(self).is_game_over) ==> r == 0 && final(self)@ == old(
                self,
            )@,
            !(old(self).is_paused || old(self).is_game_over) ==> match old(self)@.current {
                None => r == 0 && final(self)@ == old(self)@,
                Some(p) => {
                    let d = drop_dist(old(self)@.board, p) as int;
                    &&& r as int == d
                    &&& (d == 0 ==> final(self)@ == old(self)@)
                    &&& (d > 0 ==> exists|k: TetrominoType|
                        final(self)@ == spec_after_lock(spec_descend(old(self)@, d), k))
                },
            },
    {
        if self.is_paused || self.is_game_over {
            return 0;
        }
        let ghost m0 = self@;
        proof {
            if m0.current is Some {
                let p = m0.current->Some_0;
                lemma_fits_bounds(m0.board, p);
                lemma_drop_dist_bound(m0.board, p);
                assert((PieceModel { y: p.y + 0, ..p }) =~= p);
                assert(spec_descend(m0, 0) =~= m0);
            }
        }
        let mut distance: u32 = 0;
        loop
            invariant
                self.wf(),
                !self.is_paused && !self.is_game_over,
                m0 == old(self)@,
                m0.current is None ==> distance == 0 && self@ == m0,
                m0.current is Some ==> {
                    let p = m0.current->Some_0;
                    &&& self@ == spec_descend(m0, distance as int)
                    &&& self@.current is Some
                    &&& drop_dist(m0.board, p) as int == distance as int + drop_dist(
                        self@.board,
                        self@.current->Some_0,
                    ) as int
                    &&& distance as int <= drop_dist(m0.board, p) as int <= 28
                },
            ensures
                self.wf(),
                m0.current is None ==> distance == 0 && self@ == m0,
                m0.current is Some ==> {
                    &&& distance as int == drop_dist(m0.board, m0.current->Some_0) as int
                    &&& self@ == spec_descend(m0, distance as int)
                },
            decreases (match self@.current {
                Some(pc) => drop_dist(self@.board, pc),
                None => 0,
            }),
        {
            let ghost pre = self@;
            let moved = self.soft_drop();
            if !moved {
                proof {
                    if m0.current is Some {
                        let pcur = pre.current->Some_0;
                        lemma_fits_bounds(pre.board, pcur);
                        assert(drop_dist(pre.board, pcur) == 0);
                    }
                }
                break;
            }
            proof {
                let pcur = pre.current->Some_0;
                lemma_fits_bounds(pre.board, down_one(pcur));
                assert(drop_dist(pre.board, pcur) == 1 + drop_dist(pre.board, down_one(pcur)));
                let p = m0.current->Some_0;
                assert((PieceModel { y: p.y + (distance + 1), ..p }) =~= down_one(pcur));
                assert(self@ =~= spec_descend(m0, distance + 1 as int));
            }
            distance = distance + 1;
        }
        if distance > 0 {
            let ghost md = self@;
            self.place_current_piece();
            proof {
                let k = choose|k: TetrominoType| self@ == spec_after_lock(md, k);
                assert(self@ == spec_after_lock(
                    spec_descend(m0, drop_dist(m0.board, m0.current->Some_0) as int),
                    k,
                ));
            }
        }
        distance
    }

    /// Advance game time one frame: when the timer reaches the gravity
    /// interval it resets and the piece falls one row, locking if it cannot.
    /// A no-op while paused or after game over.
    pub fn tick(&mut self)
        requires
            old(self).wf(),
        ensures
            final(self).wf(),
            (old(self).is_paused || old(self).is_game_over) ==> final(self)@ == old(self)@,
            !(old(self).is_paused || old(self).is_game_over) ==> {
                if old(self)@.drop_timer + 1 < old(self)@.drop_interval {
                    final(self)@ == (GameModel {
                        drop_timer: old(self)@.drop_timer + 1,
                        ..old(self)@
                    })
                } else {
                    let m1 = (GameModel { drop_timer: 0, ..old(self)@ });
                    match old(self)@.current {
                        None => final(self)@ == m1,
                        Some(p) => {
                            if piece_fits(old(self)@.board, down_one(p)) {
                                final(self)@ == (GameModel {
                                    current: Some(down_one(p)),
                                    score: sat32(old(self)@.score + 1),
                                    drop_timer: 0,
                                    ..old(self)@
                                })
                            } else {
                                exists|k: TetrominoType| final(self)@ == spec_after_lock(m1, k)
                            }
                        },
                    }
                }
            },
    {
        if self.is_paused || self.is_game_over {
            return ;
        }
        self.drop_timer = self.drop_timer + 1;
        if self.drop_timer >= self.drop_interval {
            self.drop_timer = 0;
            let ghost m1 = self@;
            proof {
                assert(m1 =~= (GameModel { drop_timer: 0, ..old(self)@ }));
            }
            if !self.soft_drop() {
                let ghost m2 = self@;
                self.place_current_piece();
                proof {
                    if m1.current is Some {
                        let k = choose|k: TetrominoType| self@ == spec_after_lock(m2, k);
                        assert(self@ == spec_after_lock(m1, k));
                    }
                }
            } else {
                proof {
                    assert(self@ =~= (GameModel {
                        current: Some(down_one(old(self)@.current->Some_0)),
                        score: sat32(old(self)@.score + 1),
                        drop_timer: 0,
                        ..old(self)@
                    }));
                }
            }
        } else {
            proof {
                assert(self@ =~= (GameModel { drop_timer: old(self)@.drop_timer + 1, ..old(
                    self,
                )@ }));
            }
        }
    }

    /// Where the current piece would land if dropped straight down; a pure
    /// query with no side effect. With no current piece, a fresh default
    /// piece is returned as a documented fallback.
    pub fn get_ghost_piece(&self) -> (r: Piece)
        requires
            self.wf(),
        ensures
            match self@.current {
                None => r@ == spec_new_piece(TetrominoType::I),
                Some(p) => r@ == (PieceModel {
                    y: p.y + drop_dist(self@.board, p) as int,
                    ..p
                }),
            },
    {
        match &self.current_piece {
            None => Piece::new(TetrominoType::I),
            Some(piece) => {
                let ghost p0 = piece@;
                proof {
                    lemma_fits_bounds(self.board@, p0);
                }
                let mut proj = shifted_piece(piece, 0, 0);
                proof {
                    assert(proj@ =~= p0);
                }
                loop
                    invariant
                        self.wf(),
                        piece_wf(p0),
                        piece_fits(self.board@, p0),
                        self.board@.len() == 200,
                        proj@ == (PieceModel { y: proj@.y, ..p0 }),
                        p0.y <= proj@.y,
                        piece_fits(self.board@, proj@),
                        drop_dist(self.board@, p0) as int == (proj@.y - p0.y) + drop_dist(
                            self.board@,
                            proj@,
                        ) as int,
                    ensures
                        proj@ == (PieceModel {
                            y: p0.y + drop_dist(self.board@, p0) as int,
                            ..p0
                        }),
                    decreases drop_dist(self.board@, proj@),
                {
                    proof {
                        lemma_fits_bounds(self.board@, proj@);
                    }
                    let cand = shifted_piece(&proj, 0, 1);
                    if self.is_valid_position(&cand) {
                        proof {
                            lemma_fits_bounds(self.board@, cand@);
                            assert(cand@ =~= down_one(proj@));
                            assert(drop_dist(self.board@, proj@) == 1 + drop_dist(
                                self.board@,
                                cand@,
                            ));
                        }
                        proj = cand;
                    } else {
                        proof {
                            assert(down_one(proj@) =~= (PieceModel { y: proj@.y + 1, ..proj@ }));
                            assert(drop_dist(self.board@, proj@) == 0);
                        }
                        break;
                    }
                }
                proj
            },
        }
    }
}

/// The drop distance of a well-formed piece is bounded by the board height
/// and the piece's position.
pub proof fn lemma_drop_dist_bound(b: BoardView, p: PieceModel)
    requires
        piece_wf(p),
        -4 <= p.y <= 20,
    ensures
        drop_dist(b, p) as int <= 24 - p.y,
    decreases 24 - p.y,
{
    if piece_fits(b, down_one(p)) && p.y < 20 {
        lemma_drop_dist_bound(b, down_one(p));
    }
}

/// Law: on a board with no complete row, line clearing changes nothing:
/// the board is untouched and score, lines and level keep their values.
pub proof fn lemma_clear_lines_noop(m: GameModel)
    requires
        forall|y: int| 0 <= y < 20 ==> !row_complete(m.board, y),
    ensures
        spec_clear(m) == m,
{
    lemma_complete_rows_empty(m.board, 20);
    assert(spec_clear(m) =~= m);
}

/// Law: the counters are monotone. Line clearing — the only step that
/// touches score, lines, level or the gravity interval — never decreases
/// score, lines or level, and never lengthens the interval: gravity only
/// speeds up.
pub proof fn lemma_clear_monotonic(m: GameModel)
    requires
        model_wf(m),
    ensures
        spec_clear(m).score >= m.score,
        spec_clear(m).lines >= m.lines,
        spec_clear(m).level >= m.level,
        spec_clear(m).drop_interval <= m.drop_interval,
{
    let n = complete_rows(m.board).len() as int;
    if n > 0 {
        assert(line_points(n) * (m.level + 1) >= 0) by (nonlinear_arith)
            requires
                line_points(n) >= 0 && m.level >= 0,
        ;
        let lines2 = sat32(m.lines + n);
        if lines2 / 10 > m.level {
            assert(interval_for(lines2 / 10) <= interval_for(m.level));
        }
    }
}

/// Law: a full lock (place, clear, spawn) never decreases score, lines or
/// level and never lengthens the gravity interval; with the soft-drop score
/// step, these are the only ways any command touches the counters, so they
/// are monotone across every command and every tick.
pub proof fn lemma_lock_monotonic(m: GameModel, k: TetrominoType)
    requires
        model_wf(m),
    ensures
        spec_after_lock(m, k).score >= m.score,
        spec_after_lock(m, k).lines >= m.lines,
        spec_after_lock(m, k).level >= m.level,
        spec_after_lock(m, k).drop_interval <= m.drop_interval,
{
    let mp = spec_place(m);
    assert(model_wf(mp));
    lemma_clear_monotonic(mp);
}

/// Law: a lock conserves cells. Writing the piece adds exactly its
/// occupied-cell count to the board's; the board after the whole lock is
/// the written board with its complete rows cleared; each cleared row
/// removes exactly ten occupied cells; so the occupied count after the lock
/// is the count before it, plus the piece's cells, minus ten per cleared
/// row.
pub proof fn lemma_lock_cell_conservation(m: GameModel, k: TetrominoType)
    requires
        model_wf(m),
        m.current is Some,
    ensures
        ({
            let p = m.current->Some_0;
            let placed = write_piece(m.board, p);
            let rows = complete_rows(placed);
            let after = apply_clears(placed, rows);
            &&& occ(placed) == occ(m.board) + shape_cells(p.shape)
            &&& spec_after_lock(m, k).board == after
            &&& occ(after) == occ(placed) - 10 * rows.len()
            &&& occ(after) == occ(m.board) + shape_cells(p.shape) - 10 * rows.len()
        }),
{
    let p = m.current->Some_0;
    lemma_write_piece_occ(m.board, p);
    let placed = write_piece(m.board, p);
    lemma_complete_rows_props(placed, 20);
    lemma_apply_clears_occ(placed, complete_rows(placed));
}

} // verus!
