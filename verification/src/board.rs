use vstd::prelude::*;

use crate::piece::{piece_wf, PieceModel};
use crate::tetromino::TetrominoType;

verus! {

pub const BOARD_WIDTH: usize = 10;

pub const BOARD_HEIGHT: usize = 20;

/// Cells in the playfield: `BOARD_HEIGHT` rows of `BOARD_WIDTH` columns,
/// stored row-major.
pub const BOARD_CELLS: usize = 200;

/// The mathematical board: 200 cells, row-major, row `y` and column `x`
/// at index `y * 10 + x`; a cell holds the kind that occupies it.
pub type BoardView = Seq<Option<TetrominoType>>;

/// The all-empty board.
pub open spec fn empty_board() -> BoardView {
    Seq::new(200, |idx: int| None::<TetrominoType>)
}

/// Row `y` is complete: every one of its cells is occupied.
pub open spec fn row_complete(b: BoardView, y: int) -> bool {
    forall|x: int| 0 <= x < 10 ==> (#[trigger] b[y * 10 + x]) is Some
}

/// The indices of the complete rows among rows `0 .. n`, in ascending order.
pub open spec fn complete_rows_upto(b: BoardView, n: int) -> Seq<int>
    decreases n,
{
    if n <= 0 {
        Seq::empty()
    } else if row_complete(b, n - 1) {
        complete_rows_upto(b, n - 1) + seq![n - 1]
    } else {
        complete_rows_upto(b, n - 1)
    }
}

/// The indices of all complete rows, in ascending order.
pub open spec fn complete_rows(b: BoardView) -> Seq<int> {
    complete_rows_upto(b, 20)
}

/// The board after removing row `line`: every row above it shifts down one,
/// row 0 becomes empty, rows below `line` are untouched.
pub open spec fn clear_one(b: BoardView, line: int) -> BoardView {
    Seq::new(
        b.len(),
        |idx: int|
            if idx < 10 {
                None::<TetrominoType>
            } else if idx < (line + 1) * 10 {
                b[idx - 10]
            } else {
                b[idx]
            },
    )
}

/// The board after removing the rows of `rows` one at a time, in order,
/// each removal acting on the board the previous one produced.
pub open spec fn apply_clears(b: BoardView, rows: Seq<int>) -> BoardView
    decreases rows.len(),
{
    if rows.len() == 0 {
        b
    } else {
        apply_clears(clear_one(b, rows[0]), rows.subrange(1, rows.len() as int))
    }
}

/// A board with no complete row has nothing to clear.
pub proof fn lemma_complete_rows_empty(b: BoardView, n: int)
    requires
        forall|y: int| 0 <= y < n ==> !row_complete(b, y),
    ensures
        complete_rows_upto(b, n) == Seq::<int>::empty(),
    decreases n,
{
    if n > 0 {
        lemma_complete_rows_empty(b, n - 1);
        assert(complete_rows_upto(b, n) =~= Seq::<int>::empty());
    }
}

/// The piece sits wholly on the board and only over empty cells.
pub open spec fn piece_fits(b: BoardView, p: PieceModel) -> bool {
    forall|i: int, j: int|
        #![auto]
        0 <= i < p.shape.len() && 0 <= j < p.shape[i].len() && p.shape[i][j] ==> {
            &&& 0 <= p.x + j < 10
            &&& 0 <= p.y + i < 20
            &&& b[(p.y + i) * 10 + (p.x + j)] is None
        }
}

/// A well-formed piece that fits anywhere has its origin close to the board.
pub proof fn lemma_fits_bounds(b: BoardView, p: PieceModel)
    requires
        piece_wf(p),
        piece_fits(b, p),
    ensures
        -3 <= p.x <= 9,
        -3 <= p.y <= 19,
{
    let (i0, j0) = choose|i0: int, j0: int|
        0 <= i0 < p.shape.len() && 0 <= j0 < p.shape[0].len() && p.shape[i0][j0];
    assert(0 <= p.x + j0 < 10 && 0 <= p.y + i0 < 20);
}

/// A freshly spawned piece always fits the empty board.
pub proof fn lemma_fits_empty(p: PieceModel)
    requires
        piece_wf(p),
        p.x == 3,
        p.y == 0,
    ensures
        piece_fits(empty_board(), p),
{
    assert forall|i: int, j: int|
        #![auto]
        0 <= i < p.shape.len() && 0 <= j < p.shape[i].len() && p.shape[i][j] implies {
        &&& 0 <= p.x + j < 10
        &&& 0 <= p.y + i < 20
        &&& empty_board()[(p.y + i) * 10 + (p.x + j)] is None
    } by {
        assert(0 <= (p.y + i) * 10 + (p.x + j) < 200);
    }
}

/// The piece, once locked, occupies board index `idx`.
pub open spec fn covers(p: PieceModel, idx: int) -> bool {
    exists|i: int, j: int|
        #![auto]
        0 <= i < p.shape.len() && 0 <= j < p.shape[i].len() && p.shape[i][j] && idx == (p.y + i)
            * 10 + (p.x + j)
}

/// The board after the piece locks: each cell the piece covers takes its
/// kind; every other cell is untouched.
pub open spec fn write_piece(b: BoardView, p: PieceModel) -> BoardView {
    Seq::new(
        b.len(),
        |idx: int|
            if covers(p, idx) {
                Some(p.kind)
            } else {
                b[idx]
            },
    )
}

/// The piece's shape cells before row `r`, plus those of row `r` before
/// column `c`, cover board index `idx`.
pub open spec fn covers_upto(p: PieceModel, idx: int, r: int, c: int) -> bool {
    exists|i: int, j: int|
        #![auto]
        0 <= i < p.shape.len() && 0 <= j < p.shape[i].len() && p.shape[i][j] && (i < r || (i == r
            && j < c)) && idx == (p.y + i) * 10 + (p.x + j)
}

/// The board with only the shape cells before position (r, c) written.
pub open spec fn write_upto(b: BoardView, p: PieceModel, r: int, c: int) -> BoardView {
    Seq::new(
        b.len(),
        |idx: int|
            if covers_upto(p, idx, r, c) {
                Some(p.kind)
            } else {
                b[idx]
            },
    )
}

/// Two distinct occupied shape cells of a fitting piece land on distinct
/// board indices.
pub proof fn lemma_covers_injective(
    b: BoardView,
    p: PieceModel,
    i1: int,
    j1: int,
    i2: int,
    j2: int,
)
    requires
        piece_fits(b, p),
        0 <= i1 < p.shape.len() && 0 <= j1 < p.shape[i1].len() && p.shape[i1][j1],
        0 <= i2 < p.shape.len() && 0 <= j2 < p.shape[i2].len() && p.shape[i2][j2],
        (p.y + i1) * 10 + (p.x + j1) == (p.y + i2) * 10 + (p.x + j2),
    ensures
        i1 == i2 && j1 == j2,
{
    assert(0 <= p.x + j1 < 10 && 0 <= p.x + j2 < 10);
    assert((p.y + i1) * 10 - (p.y + i2) * 10 == (p.y + i1 - (p.y + i2)) * 10) by (nonlinear_arith);
    assert(i1 == i2);
}

pub proof fn lemma_write_upto_zero(b: BoardView, p: PieceModel)
    ensures
        write_upto(b, p, 0, 0) == b,
{
    assert(write_upto(b, p, 0, 0) =~= b);
}

pub proof fn lemma_write_upto_row_end(b: BoardView, p: PieceModel, r: int)
    requires
        0 <= r < p.shape.len(),
    ensures
        write_upto(b, p, r, p.shape[r].len() as int) == write_upto(b, p, r + 1, 0),
{
    let cols = p.shape[r].len() as int;
    assert forall|idx: int| covers_upto(p, idx, r + 1, 0) implies covers_upto(p, idx, r, cols) by {
        let (i, j) = choose|i: int, j: int|
            #![auto]
            0 <= i < p.shape.len() && 0 <= j < p.shape[i].len() && p.shape[i][j] && (i < r + 1 || (
            i == r + 1 && j < 0)) && idx == (p.y + i) * 10 + (p.x + j);
        assert(i < r || (i == r && j < cols));
    }
    assert(write_upto(b, p, r, cols) =~= write_upto(b, p, r + 1, 0));
}

/// Writing one more occupied cell updates exactly one board index, which was
/// still empty.
pub proof fn lemma_write_upto_step_set(b: BoardView, p: PieceModel, r: int, c: int)
    requires
        b.len() == 200,
        piece_fits(b, p),
        0 <= r < p.shape.len(),
        0 <= c < p.shape[r].len(),
        p.shape[r][c],
    ensures
        0 <= (p.y + r) * 10 + (p.x + c) < 200,
        write_upto(b, p, r, c)[(p.y + r) * 10 + (p.x + c)] == b[(p.y + r) * 10 + (p.x + c)],
        b[(p.y + r) * 10 + (p.x + c)] is None,
        write_upto(b, p, r, c + 1) == write_upto(b, p, r, c).update(
            (p.y + r) * 10 + (p.x + c),
            Some(p.kind),
        ),
{
    let idx0 = (p.y + r) * 10 + (p.x + c);
    assert(0 <= p.y + r < 20 && 0 <= p.x + c < 10);
    assert(0 <= idx0 < 200) by (nonlinear_arith)
        requires
            0 <= p.y + r < 20 && 0 <= p.x + c < 10 && idx0 == (p.y + r) * 10 + (p.x + c),
    ;
    assert(!covers_upto(p, idx0, r, c)) by {
        if covers_upto(p, idx0, r, c) {
            let (i, j) = choose|i: int, j: int|
                #![auto]
                0 <= i < p.shape.len() && 0 <= j < p.shape[i].len() && p.shape[i][j] && (i < r || (
                i == r && j < c)) && idx0 == (p.y + i) * 10 + (p.x + j);
            lemma_covers_injective(b, p, i, j, r, c);
        }
    }
    assert forall|idx: int| 0 <= idx < 200 && idx != idx0 implies (covers_upto(p, idx, r, c + 1)
        == covers_upto(p, idx, r, c)) by {
        if covers_upto(p, idx, r, c + 1) {
            let (i, j) = choose|i: int, j: int|
                #![auto]
                0 <= i < p.shape.len() && 0 <= j < p.shape[i].len() && p.shape[i][j] && (i < r || (
                i == r && j < c + 1)) && idx == (p.y + i) * 10 + (p.x + j);
            if i == r && j == c {
                assert(idx == idx0);
            } else {
                assert(i < r || (i == r && j < c));
                assert(covers_upto(p, idx, r, c));
            }
        }
    }
    assert(covers_upto(p, idx0, r, c + 1));
    assert(write_upto(b, p, r, c + 1) =~= write_upto(b, p, r, c).update(idx0, Some(p.kind)));
}

/// Skipping an unoccupied cell writes nothing.
pub proof fn lemma_write_upto_step_skip(b: BoardView, p: PieceModel, r: int, c: int)
    requires
        0 <= r < p.shape.len(),
        0 <= c < p.shape[r].len(),
        !p.shape[r][c],
    ensures
        write_upto(b, p, r, c + 1) == write_upto(b, p, r, c),
{
    assert forall|idx: int| covers_upto(p, idx, r, c + 1) implies covers_upto(p, idx, r, c) by {
        let (i, j) = choose|i: int, j: int|
            #![auto]
            0 <= i < p.shape.len() && 0 <= j < p.shape[i].len() && p.shape[i][j] && (i < r || (i
                == r && j < c + 1)) && idx == (p.y + i) * 10 + (p.x + j);
        assert(i < r || (i == r && j < c));
    }
    assert(write_upto(b, p, r, c + 1) =~= write_upto(b, p, r, c));
}

/// Every cell the whole piece covers is covered once all rows are written.
pub proof fn lemma_write_upto_end(b: BoardView, p: PieceModel)
    requires
        p.shape.len() >= 1,
    ensures
        write_upto(b, p, p.shape.len() as int, 0) == write_piece(b, p),
{
    let rows = p.shape.len() as int;
    assert forall|idx: int| covers(p, idx) implies covers_upto(p, idx, rows, 0) by {
        let (i, j) = choose|i: int, j: int|
            #![auto]
            0 <= i < p.shape.len() && 0 <= j < p.shape[i].len() && p.shape[i][j] && idx == (p.y + i)
                * 10 + (p.x + j);
        assert(i < rows);
    }
    assert(write_upto(b, p, rows, 0) =~= write_piece(b, p));
}

/// The occupied cells among `b[0..n]`.
pub open spec fn occ_upto(b: BoardView, n: int) -> int
    decreases n,
{
    if n <= 0 {
        0
    } else {
        occ_upto(b, n - 1) + if b[n - 1] is Some {
            1int
        } else {
            0int
        }
    }
}

/// The number of occupied cells of the board.
pub open spec fn occ(b: BoardView) -> int {
    occ_upto(b, b.len() as int)
}

pub proof fn lemma_occ_upto_update(b: BoardView, k: int, t: TetrominoType, n: int)
    requires
        0 <= k < b.len(),
        b[k] is None,
        n <= b.len(),
    ensures
        occ_upto(b.update(k, Some(t)), n) == occ_upto(b, n) + if k < n {
            1int
        } else {
            0int
        },
    decreases n,
{
    if n > 0 {
        lemma_occ_upto_update(b, k, t, n - 1);
    }
}

/// Filling one empty cell raises the occupied count by one.
pub proof fn lemma_occ_update(b: BoardView, k: int, t: TetrominoType)
    requires
        0 <= k < b.len(),
        b[k] is None,
    ensures
        occ(b.update(k, Some(t))) == occ(b) + 1,
{
    lemma_occ_upto_update(b, k, t, b.len() as int);
}

/// The occupied cells among `row[0..n]` of a shape row.
pub open spec fn row_cells_upto(row: Seq<bool>, n: int) -> int
    decreases n,
{
    if n <= 0 {
        0
    } else {
        row_cells_upto(row, n - 1) + if row[n - 1] {
            1int
        } else {
            0int
        }
    }
}

/// The occupied cells of the shape's rows `0 .. n`.
pub open spec fn shape_cells_upto(s: Seq<Seq<bool>>, n: int) -> int
    decreases n,
{
    if n <= 0 {
        0
    } else {
        shape_cells_upto(s, n - 1) + row_cells_upto(s[n - 1], s[n - 1].len() as int)
    }
}

/// The occupied-cell count of a shape matrix.
pub open spec fn shape_cells(s: Seq<Seq<bool>>) -> int {
    shape_cells_upto(s, s.len() as int)
}

pub proof fn lemma_write_upto_occ(b: BoardView, p: PieceModel, r: int, c: int)
    requires
        b.len() == 200,
        piece_fits(b, p),
        0 <= r < p.shape.len(),
        0 <= c <= p.shape[r].len(),
    ensures
        occ(write_upto(b, p, r, c)) == occ(b) + shape_cells_upto(p.shape, r) + row_cells_upto(
            p.shape[r],
            c,
        ),
    decreases r, c,
{
    if c > 0 {
        lemma_write_upto_occ(b, p, r, c - 1);
        if p.shape[r][c - 1] {
            lemma_write_upto_step_set(b, p, r, c - 1);
            let idx0 = (p.y + r) * 10 + (p.x + c - 1);
            let w = write_upto(b, p, r, c - 1);
            assert(w[idx0] is None);
            lemma_occ_update(w, idx0, p.kind);
        } else {
            lemma_write_upto_step_skip(b, p, r, c - 1);
        }
    } else if r > 0 {
        lemma_write_upto_occ(b, p, r - 1, p.shape[r - 1].len() as int);
        lemma_write_upto_row_end(b, p, r - 1);
    } else {
        lemma_write_upto_zero(b, p);
    }
}

/// Where two boards agree cell for cell, they hold equally many occupied
/// cells.
pub proof fn lemma_occ_agree(b1: BoardView, b2: BoardView, m: int, n: int)
    requires
        0 <= m <= n,
        forall|idx: int| m <= idx < n ==> b1[idx] == b2[idx],
    ensures
        occ_upto(b1, n) - occ_upto(b1, m) == occ_upto(b2, n) - occ_upto(b2, m),
    decreases n - m,
{
    if n > m {
        lemma_occ_agree(b1, b2, m, n - 1);
    }
}

/// Where board `c` holds at `idx` what `b` holds at `idx - 10`, a range of
/// `c` has as many occupied cells as the range of `b` ten below it.
pub proof fn lemma_occ_shift(c: BoardView, b: BoardView, m: int, n: int)
    requires
        10 <= m <= n,
        forall|idx: int| m <= idx < n ==> c[idx] == b[idx - 10],
    ensures
        occ_upto(c, n) - occ_upto(c, m) == occ_upto(b, n - 10) - occ_upto(b, m - 10),
    decreases n - m,
{
    if n > m {
        lemma_occ_shift(c, b, m, n - 1);
    }
}

/// A prefix of empty cells holds no occupied cell.
pub proof fn lemma_occ_none_prefix(c: BoardView, n: int)
    requires
        forall|idx: int| 0 <= idx < n ==> c[idx] is None,
    ensures
        occ_upto(c, n) == 0,
    decreases n,
{
    if n > 0 {
        lemma_occ_none_prefix(c, n - 1);
    }
}

pub proof fn lemma_occ_complete_row_upto(b: BoardView, r: int, k: int)
    requires
        0 <= r,
        row_complete(b, r),
        0 <= k <= 10,
    ensures
        occ_upto(b, r * 10 + k) - occ_upto(b, r * 10) == k,
    decreases k,
{
    if k > 0 {
        lemma_occ_complete_row_upto(b, r, k - 1);
        assert(b[r * 10 + (k - 1)] is Some);
    }
}

/// Removing one complete row removes exactly its ten occupied cells: the
/// rows above it shift down unchanged, and the new top row is empty.
pub proof fn lemma_occ_clear_one(b: BoardView, r: int)
    requires
        b.len() == 200,
        0 <= r < 20,
        row_complete(b, r),
    ensures
        occ(clear_one(b, r)) == occ(b) - 10,
{
    let c = clear_one(b, r);
    lemma_occ_agree(c, b, (r + 1) * 10, 200);
    lemma_occ_shift(c, b, 10, (r + 1) * 10);
    lemma_occ_none_prefix(c, 10);
    lemma_occ_complete_row_upto(b, r, 10);
}

/// The complete rows of a board are listed in ascending order, each in
/// range and each complete.
pub proof fn lemma_complete_rows_props(b: BoardView, n: int)
    ensures
        forall|q: int|
            0 <= q < complete_rows_upto(b, n).len() ==> {
                &&& 0 <= #[trigger] complete_rows_upto(b, n)[q] < n
                &&& row_complete(b, complete_rows_upto(b, n)[q])
            },
        forall|q1: int, q2: int|
            0 <= q1 < q2 < complete_rows_upto(b, n).len() ==> #[trigger] complete_rows_upto(
                b,
                n,
            )[q1] < #[trigger] complete_rows_upto(b, n)[q2],
    decreases n,
{
    if n > 0 {
        lemma_complete_rows_props(b, n - 1);
        let prev = complete_rows_upto(b, n - 1);
        let cur = complete_rows_upto(b, n);
        assert forall|q: int| 0 <= q < cur.len() implies {
            &&& 0 <= #[trigger] cur[q] < n
            &&& row_complete(b, cur[q])
        } by {
            if q < prev.len() {
                assert(cur[q] == prev[q]);
            } else {
                assert(cur[q] == n - 1);
            }
        }
        assert forall|q1: int, q2: int| 0 <= q1 < q2 < cur.len() implies #[trigger] cur[q1]
            < #[trigger] cur[q2] by {
            if q2 < prev.len() {
                assert(cur[q1] == prev[q1] && cur[q2] == prev[q2]);
            } else {
                assert(cur[q2] == n - 1);
                assert(cur[q1] == prev[q1] && prev[q1] < n - 1);
            }
        }
    }
}

/// Clearing a batch of complete rows in ascending order removes exactly ten
/// occupied cells per row: each removal leaves every later (higher-indexed)
/// row of the batch untouched and still complete.
pub proof fn lemma_apply_clears_occ(b: BoardView, rows: Seq<int>)
    requires
        b.len() == 200,
        forall|q: int| 0 <= q < rows.len() ==> 0 <= #[trigger] rows[q] < 20,
        forall|q: int| 0 <= q < rows.len() ==> row_complete(b, #[trigger] rows[q]),
        forall|q1: int, q2: int|
            0 <= q1 < q2 < rows.len() ==> #[trigger] rows[q1] < #[trigger] rows[q2],
    ensures
        apply_clears(b, rows).len() == 200,
        occ(apply_clears(b, rows)) == occ(b) - 10 * rows.len(),
    decreases rows.len(),
{
    if rows.len() > 0 {
        let c = clear_one(b, rows[0]);
        let rest = rows.subrange(1, rows.len() as int);
        lemma_occ_clear_one(b, rows[0]);
        assert forall|q: int| 0 <= q < rest.len() implies row_complete(c, #[trigger] rest[q]) by {
            assert(rest[q] == rows[q + 1]);
            assert(rows[0] < rows[q + 1]);
            assert forall|x: int| 0 <= x < 10 implies (#[trigger] c[rest[q] * 10 + x]) is Some by {
                assert(rest[q] * 10 + x >= (rows[0] + 1) * 10);
                assert(c[rest[q] * 10 + x] == b[rest[q] * 10 + x]);
                assert(b[rest[q] * 10 + x] is Some);
            }
        }
        lemma_apply_clears_occ(c, rest);
    }
}

/// Locking a piece that fits adds exactly its occupied-cell count to the
/// board's occupied-cell count.
pub proof fn lemma_write_piece_occ(b: BoardView, p: PieceModel)
    requires
        b.len() == 200,
        piece_wf(p),
        piece_fits(b, p),
    ensures
        occ(write_piece(b, p)) == occ(b) + shape_cells(p.shape),
{
    let rows = p.shape.len() as int;
    lemma_write_upto_occ(b, p, rows - 1, p.shape[rows - 1].len() as int);
    lemma_write_upto_row_end(b, p, rows - 1);
    lemma_write_upto_end(b, p);
}

} // verus!
