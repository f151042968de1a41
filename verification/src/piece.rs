use vstd::prelude::*;

use crate::tetromino::{spec_shape, TetrominoType};

verus! {

/// Mathematical model of an active piece: its kind, its (possibly rotated)
/// occupancy matrix, and its board-relative origin.
#[verifier::ext_equal]
pub ghost struct PieceModel {
    pub kind: TetrominoType,
    pub shape: Seq<Seq<bool>>,
    pub x: int,
    pub y: int,
}

/// A well-formed shape matrix: rectangular, between 1 x 1 and 4 x 4 cells,
/// with at least one occupied cell.
pub open spec fn shape_wf(s: Seq<Seq<bool>>) -> bool {
    &&& 1 <= s.len() <= 4
    &&& 1 <= s[0].len() <= 4
    &&& (forall|i: int| 0 <= i < s.len() ==> (#[trigger] s[i]).len() == s[0].len())
    &&& (exists|i: int, j: int| 0 <= i < s.len() && 0 <= j < s[0].len() && s[i][j])
}

/// A well-formed piece: a well-formed shape.
pub open spec fn piece_wf(p: PieceModel) -> bool {
    shape_wf(p.shape)
}

/// A freshly spawned piece of kind `k`: canonical shape at origin (3, 0).
pub open spec fn spec_new_piece(k: TetrominoType) -> PieceModel {
    PieceModel { kind: k, shape: spec_shape(k), x: 3, y: 0 }
}

/// Every canonical shape is well formed.
pub proof fn lemma_canonical_shape_wf(k: TetrominoType)
    ensures
        shape_wf(spec_shape(k)),
{
    let s = spec_shape(k);
    match k {
        TetrominoType::I => {
            assert(s[1][0]);
            assert(forall|i: int| 0 <= i < s.len() ==> (#[trigger] s[i]).len() == s[0].len());
        },
        TetrominoType::O => {
            assert(s[0][0]);
            assert(forall|i: int| 0 <= i < s.len() ==> (#[trigger] s[i]).len() == s[0].len());
        },
        TetrominoType::T => {
            assert(s[0][1]);
            assert(forall|i: int| 0 <= i < s.len() ==> (#[trigger] s[i]).len() == s[0].len());
        },
        TetrominoType::S => {
            assert(s[0][1]);
            assert(forall|i: int| 0 <= i < s.len() ==> (#[trigger] s[i]).len() == s[0].len());
        },
        TetrominoType::Z => {
            assert(s[0][0]);
            assert(forall|i: int| 0 <= i < s.len() ==> (#[trigger] s[i]).len() == s[0].len());
        },
        TetrominoType::J => {
            assert(s[0][0]);
            assert(forall|i: int| 0 <= i < s.len() ==> (#[trigger] s[i]).len() == s[0].len());
        },
        TetrominoType::L => {
            assert(s[0][2]);
            assert(forall|i: int| 0 <= i < s.len() ==> (#[trigger] s[i]).len() == s[0].len());
        },
    }
}

/// One 90-degree clockwise rotation of a rectangular R x C matrix: the
/// C x R matrix with `rotated[j][R - 1 - i] == s[i][j]`.
pub open spec fn rotate_shape(s: Seq<Seq<bool>>) -> Seq<Seq<bool>> {
    Seq::new(s[0].len(), |j: int| Seq::new(s.len(), |i: int| s[s.len() - 1 - i][j]))
}

/// Rotation preserves well-formedness of a shape.
pub proof fn lemma_rotate_shape_wf(s: Seq<Seq<bool>>)
    requires
        shape_wf(s),
    ensures
        shape_wf(rotate_shape(s)),
{
    let r = rotate_shape(s);
    assert(r.len() == s[0].len());
    assert(forall|j: int| 0 <= j < r.len() ==> (#[trigger] r[j]).len() == s.len());
    let (i0, j0) = choose|i0: int, j0: int|
        0 <= i0 < s.len() && 0 <= j0 < s[0].len() && s[i0][j0];
    assert(r[j0][s.len() - 1 - i0] == s[i0][j0]);
}

/// Rotating any rectangular shape four times returns the original matrix,
/// cell for cell.
pub proof fn lemma_rotate_four(s: Seq<Seq<bool>>)
    requires
        s.len() >= 1,
        s[0].len() >= 1,
        forall|i: int| 0 <= i < s.len() ==> (#[trigger] s[i]).len() == s[0].len(),
    ensures
        rotate_shape(rotate_shape(rotate_shape(rotate_shape(s)))) == s,
{
    let rows = s.len() as int;
    let cols = s[0].len() as int;
    let r1 = rotate_shape(s);
    let r2 = rotate_shape(r1);
    let r3 = rotate_shape(r2);
    let r4 = rotate_shape(r3);
    assert(r1.len() == cols && r1[0].len() == rows);
    assert(forall|a: int, b: int| 0 <= a < cols && 0 <= b < rows ==> r1[a][b] == s[rows - 1 - b][a]);
    assert(r2.len() == rows && r2[0].len() == cols);
    assert(forall|a: int, b: int| 0 <= a < rows && 0 <= b < cols ==> r2[a][b] == r1[cols - 1 - b][a]);
    assert(r3.len() == cols && r3[0].len() == rows);
    assert(forall|a: int, b: int| 0 <= a < cols && 0 <= b < rows ==> r3[a][b] == r2[rows - 1 - b][a]);
    assert(r4.len() == rows && r4[0].len() == cols);
    assert(forall|a: int, b: int| 0 <= a < rows && 0 <= b < cols ==> r4[a][b] == r3[cols - 1 - b][a]);
    assert(forall|a: int, b: int| 0 <= a < rows && 0 <= b < cols ==> r4[a][b] == s[a][b]);
    assert(r4 =~~= s);
}

/// An active piece: its kind, its current (possibly rotated) shape matrix,
/// and its board-relative origin coordinates.
#[derive(Debug)]
pub struct Piece {
    pub piece_type: TetrominoType,
    pub shape: Vec<Vec<bool>>,
    pub x: i32,
    pub y: i32,
}

impl View for Piece {
    type V = PieceModel;

    open spec fn view(&self) -> PieceModel {
        PieceModel {
            kind: self.piece_type,
            shape: self.shape.deep_view(),
            x: self.x as int,
            y: self.y as int,
        }
    }
}

/// Cell-for-cell copy of a shape matrix.
pub fn copy_shape(s: &Vec<Vec<bool>>) -> (r: Vec<Vec<bool>>)
    ensures
        r.deep_view() == s.deep_view(),
{
    let mut r: Vec<Vec<bool>> = Vec::new();
    let mut i: usize = 0;
    while i < s.len()
        invariant
            i <= s.len(),
            r.len() == i,
            forall|k: int| 0 <= k < i ==> r.deep_view()[k] == s.deep_view()[k],
        decreases s.len() - i,
    {
        let src = &s[i];
        let mut row: Vec<bool> = Vec::new();
        let mut j: usize = 0;
        while j < src.len()
            invariant
                j <= src.len(),
                row@ == src@.subrange(0, j as int),
            decreases src.len() - j,
        {
            row.push(src[j]);
            proof {
                assert(row@ =~= src@.subrange(0, j + 1 as int));
            }
            j = j + 1;
        }
        proof {
            assert(row@ =~= src@);
        }
        r.push(row);
        i = i + 1;
    }
    proof {
        assert(r.deep_view() =~~= s.deep_view());
    }
    r
}

impl Piece {
    /// A fresh piece of kind `piece_type` with its canonical shape at the
    /// spawn origin (3, 0).
    pub fn new(piece_type: TetrominoType) -> (p: Piece)
        ensures
            p@ == spec_new_piece(piece_type),
    {
        let p = Piece { piece_type, shape: piece_type.shape(), x: 3, y: 0 };
        p
    }

    /// The piece rotated 90 degrees clockwise, at the same origin.
    pub fn rotate(&self) -> (r: Piece)
        requires
            shape_wf(self@.shape),
        ensures
            r@.kind == self@.kind,
            r@.x == self@.x,
            r@.y == self@.y,
            r@.shape == rotate_shape(self@.shape),
    {
        let rows = self.shape.len();
        let cols = self.shape[0].len();
        let mut rotated: Vec<Vec<bool>> = Vec::new();
        let mut j: usize = 0;
        while j < cols
            invariant
                j <= cols,
                rows == self.shape.len(),
                cols == self@.shape[0].len(),
                shape_wf(self@.shape),
                rotated.len() == j,
                forall|a: int| 0 <= a < j ==> rotated.deep_view()[a] == rotate_shape(self@.shape)[a],
            decreases cols - j,
        {
            let mut row: Vec<bool> = Vec::new();
            let mut k: usize = 0;
            while k < rows
                invariant
                    k <= rows,
                    j < cols,
                    rows == self.shape.len(),
                    cols == self@.shape[0].len(),
                    shape_wf(self@.shape),
                    row@.len() == k,
                    forall|b: int| 0 <= b < k ==> row@[b] == self@.shape[rows - 1 - b][j as int],
                decreases rows - k,
            {
                proof {
                    assert(self@.shape[rows - 1 - k as int].len() == cols);
                    assert(self@.shape[rows - 1 - k as int] =~= self.shape@[
                        rows - 1 - k as int
                    ]@);
                }
                row.push(self.shape[rows - 1 - k][j]);
                k = k + 1;
            }
            proof {
                assert(row@ =~= rotate_shape(self@.shape)[j as int]);
                assert(row.deep_view() =~= row@);
            }
            let ghost prev = rotated.deep_view();
            rotated.push(row);
            proof {
                assert forall|a: int| 0 <= a < j + 1 implies rotated.deep_view()[a]
                    == rotate_shape(self@.shape)[a] by {
                    if a < j {
                        assert(rotated.deep_view()[a] == prev[a]);
                    } else {
                        assert(rotated.deep_view()[a] == row.deep_view());
                    }
                }
            }
            j = j + 1;
        }
        let r = Piece { piece_type: self.piece_type, shape: rotated, x: self.x, y: self.y };
        proof {
            assert(r@.shape =~~= rotate_shape(self@.shape));
        }
        r
    }
}

} // verus!
