use vstd::prelude::*;

verus! {

/// The seven tetromino kinds.
#[derive(Clone, Copy, Debug, PartialEq, Eq, Structural)]
pub enum TetrominoType {
    I,
    O,
    T,
    S,
    Z,
    J,
    L,
}

/// The canonical occupancy matrix of each kind, before any rotation.
pub open spec fn spec_shape(t: TetrominoType) -> Seq<Seq<bool>> {
    match t {
        TetrominoType::I => seq![
            seq![false, false, false, false],
            seq![true, true, true, true],
            seq![false, false, false, false],
            seq![false, false, false, false],
        ],
        TetrominoType::O => seq![seq![true, true], seq![true, true]],
        TetrominoType::T => seq![
            seq![false, true, false],
            seq![true, true, true],
            seq![false, false, false],
        ],
        TetrominoType::S => seq![
            seq![false, true, true],
            seq![true, true, false],
            seq![false, false, false],
        ],
        TetrominoType::Z => seq![
            seq![true, true, false],
            seq![false, true, true],
            seq![false, false, false],
        ],
        TetrominoType::J => seq![
            seq![true, false, false],
            seq![true, true, true],
            seq![false, false, false],
        ],
        TetrominoType::L => seq![
            seq![false, false, true],
            seq![true, true, true],
            seq![false, false, false],
        ],
    }
}

/// The display color of each kind, as a CSS color string.
pub open spec fn spec_color(t: TetrominoType) -> Seq<char> {
    match t {
        TetrominoType::I => "#00FFFF"@,
        TetrominoType::O => "#FFFF00"@,
        TetrominoType::T => "#800080"@,
        TetrominoType::S => "#00FF00"@,
        TetrominoType::Z => "#FF0000"@,
        TetrominoType::J => "#0000FF"@,
        TetrominoType::L => "#FFA500"@,
    }
}

impl TetrominoType {
    /// The display color of this kind.
    pub fn color(&self) -> (c: &'static str)
        ensures
            c@ == spec_color(*self),
    {
        match self {
            TetrominoType::I => "#00FFFF",
            TetrominoType::O => "#FFFF00",
            TetrominoType::T => "#800080",
            TetrominoType::S => "#00FF00",
            TetrominoType::Z => "#FF0000",
            TetrominoType::J => "#0000FF",
            TetrominoType::L => "#FFA500",
        }
    }

    /// The canonical shape matrix of this kind.
    pub fn shape(&self) -> (s: Vec<Vec<bool>>)
        ensures
            s.deep_view() == spec_shape(*self),
    {
        let s: Vec<Vec<bool>> = match self {
            TetrominoType::I => vec![
                vec![false, false, false, false],
                vec![true, true, true, true],
                vec![false, false, false, false],
                vec![false, false, false, false],
            ],
            TetrominoType::O => vec![vec![true, true], vec![true, true]],
            TetrominoType::T => vec![
                vec![false, true, false],
                vec![true, true, true],
                vec![false, false, false],
            ],
            TetrominoType::S => vec![
                vec![false, true, true],
                vec![true, true, false],
                vec![false, false, false],
            ],
            TetrominoType::Z => vec![
                vec![true, true, false],
                vec![false, true, true],
                vec![false, false, false],
            ],
            TetrominoType::J => vec![
                vec![true, false, false],
                vec![true, true, true],
                vec![false, false, false],
            ],
            TetrominoType::L => vec![
                vec![false, false, true],
                vec![true, true, true],
                vec![false, false, false],
            ],
        };
        proof {
            assert(s.deep_view() =~~= spec_shape(*self));
        }
        s
    }

    /// The kind at position `i` of the fixed draw order.
    pub fn kind_of_index(i: usize) -> (k: TetrominoType)
        requires
            i < 7,
        ensures
            k == spec_kind_order()[i as int],
    {
        if i == 0 {
            TetrominoType::I
        } else if i == 1 {
            TetrominoType::O
        } else if i == 2 {
            TetrominoType::T
        } else if i == 3 {
            TetrominoType::S
        } else if i == 4 {
            TetrominoType::Z
        } else if i == 5 {
            TetrominoType::J
        } else {
            TetrominoType::L
        }
    }

    /// Draw one of the seven kinds, uniformly at random: the kind of the
    /// draw order at a uniformly sampled index.
    pub fn random() -> (t: TetrominoType)
        ensures
            exists|i: int| 0 <= i < 7 && t == spec_kind_order()[i],
    {
        let idx = random_index(7);
        TetrominoType::kind_of_index(idx)
    }
}

/// The fixed order the seven kinds are drawn in: the sampled index picks
/// from this table.
pub open spec fn spec_kind_order() -> Seq<TetrominoType> {
    seq![
        TetrominoType::I,
        TetrominoType::O,
        TetrominoType::T,
        TetrominoType::S,
        TetrominoType::Z,
        TetrominoType::J,
        TetrominoType::L,
    ]
}

/// Relies on rand::thread_rng and rand::Rng::gen_range: sampling from the
/// range `0..n` yields a value in that range (gen_range panics only when the
/// range is empty, which `n > 0` rules out).
#[verifier::external_body]
fn random_index(n: usize) -> (r: usize)
    requires
        n > 0,
    ensures
        r < n,
{
    rand::Rng::gen_range(&mut rand::thread_rng(), 0..n)
}

} // verus!
