//! The shape catalog: the seven piece kinds, their colors, bounding lengths,
//! and the four rotation occupancy tables of each kind.

use vstd::prelude::*;

verus! {

/// The color of one board cell: `Empty`, or the fixed color of the piece
/// kind that locked there.
#[derive(Clone, Copy, PartialEq, Eq, Structural, Debug)]
pub enum Color {
    Empty,
    LightBlue,
    Blue,
    Red,
    Orange,
    Yellow,
    Purple,
    Green,
}

/// One of the seven falling piece kinds.
#[derive(Clone, Copy, PartialEq, Eq, Structural, Debug)]
pub enum Tetrimino {
    L,
    J,
    O,
    T,
    Z,
    S,
    I,
}

/// A rotation index, normalized into {0, 1, 2, 3}: the mathematical
/// (euclidean) remainder modulo 4, nonnegative for negative inputs too.
pub open spec fn norm_rotation(r: int) -> int {
    r % 4
}

/// The kind at a position of the fixed order L, J, O, T, Z, S, I used by
/// the random spawn selector.
pub open spec fn spec_kind_at(i: int) -> Tetrimino {
    if i == 0 {
        Tetrimino::L
    } else if i == 1 {
        Tetrimino::J
    } else if i == 2 {
        Tetrimino::O
    } else if i == 3 {
        Tetrimino::T
    } else if i == 4 {
        Tetrimino::Z
    } else if i == 5 {
        Tetrimino::S
    } else {
        Tetrimino::I
    }
}

/// The occupancy table of a kind at a normalized rotation: a row-major
/// sequence of `spec_length(t) * spec_length(t)` entries, 1 where the
/// bounding box is filled and 0 where it is not. The tables are
/// design-authored to match the conventional piece silhouettes; row 0 is
/// the top row of the bounding box (the board mapping inverts the vertical
/// axis).
pub open spec fn spec_blocks(t: Tetrimino, rot: int) -> Seq<u8> {
    match t {
        Tetrimino::I => if rot == 1 {
            seq![0, 0, 1, 0, 0, 0, 1, 0, 0, 0, 1, 0, 0, 0, 1, 0]
        } else if rot == 2 {
            seq![0, 0, 0, 0, 0, 0, 0, 0, 1, 1, 1, 1, 0, 0, 0, 0]
        } else if rot == 3 {
            seq![0, 1, 0, 0, 0, 1, 0, 0, 0, 1, 0, 0, 0, 1, 0, 0]
        } else {
            seq![0, 0, 0, 0, 1, 1, 1, 1, 0, 0, 0, 0, 0, 0, 0, 0]
        },
        Tetrimino::J => if rot == 1 {
            seq![0, 1, 1, 0, 1, 0, 0, 1, 0]
        } else if rot == 2 {
            seq![0, 0, 0, 1, 1, 1, 0, 0, 1]
        } else if rot == 3 {
            seq![0, 1, 0, 0, 1, 0, 1, 1, 0]
        } else {
            seq![1, 0, 0, 1, 1, 1, 0, 0, 0]
        },
        Tetrimino::L => if rot == 1 {
            seq![0, 1, 0, 0, 1, 0, 0, 1, 1]
        } else if rot == 2 {
            seq![0, 0, 0, 1, 1, 1, 1, 0, 0]
        } else if rot == 3 {
            seq![1, 1, 0, 0, 1, 0, 0, 1, 0]
        } else {
            seq![0, 0, 1, 1, 1, 1, 0, 0, 0]
        },
        Tetrimino::O => seq![0, 0, 0, 0, 0, 1, 1, 0, 0, 1, 1, 0, 0, 0, 0, 0],
        Tetrimino::S => if rot == 1 {
            seq![0, 1, 0, 0, 1, 1, 0, 0, 1]
        } else if rot == 2 {
            seq![0, 0, 0, 0, 1, 1, 1, 1, 0]
        } else if rot == 3 {
            seq![1, 0, 0, 1, 1, 0, 0, 1, 0]
        } else {
            seq![0, 1, 1, 1, 1, 0, 0, 0, 0]
        },
        Tetrimino::T => if rot == 1 {
            seq![0, 1, 0, 0, 1, 1, 0, 1, 0]
        } else if rot == 2 {
            seq![0, 0, 0, 1, 1, 1, 0, 1, 0]
        } else if rot == 3 {
            seq![0, 1, 0, 1, 1, 0, 0, 1, 0]
        } else {
            seq![0, 1, 0, 1, 1, 1, 0, 0, 0]
        },
        Tetrimino::Z => if rot == 1 {
            seq![0, 0, 1, 0, 1, 1, 0, 1, 0]
        } else if rot == 2 {
            seq![0, 0, 0, 1, 1, 0, 0, 1, 1]
        } else if rot == 3 {
            seq![0, 1, 0, 1, 1, 0, 1, 0, 0]
        } else {
            seq![1, 1, 0, 0, 1, 1, 0, 0, 0]
        },
    }
}

/// Side length of a kind's square bounding box: 4 for `I` and `O`, 3 for the rest.
pub open spec fn spec_length(t: Tetrimino) -> int {
    match t {
        Tetrimino::I => 4,
        Tetrimino::O => 4,
        _ => 3,
    }
}

/// The fixed display color of each kind.
pub open spec fn spec_color(t: Tetrimino) -> Color {
    match t {
        Tetrimino::I => Color::LightBlue,
        Tetrimino::J => Color::Blue,
        Tetrimino::L => Color::Orange,
        Tetrimino::O => Color::Yellow,
        Tetrimino::S => Color::Green,
        Tetrimino::T => Color::Purple,
        Tetrimino::Z => Color::Red,
    }
}

/// How many of the first k entries of an occupancy table are filled.
pub open spec fn count_filled_prefix(tbl: Seq<u8>, k: int) -> int
    decreases k,
{
    if k <= 0 {
        0
    } else {
        count_filled_prefix(tbl, k - 1) + if tbl[k - 1] == 1 {
            1int
        } else {
            0int
        }
    }
}

/// How many cells of an occupancy table are filled.
pub open spec fn count_filled(tbl: Seq<u8>) -> int {
    count_filled_prefix(tbl, tbl.len() as int)
}

/// Every rotation table of every kind fills exactly four cells: the area
/// of a piece is invariant under rotation.
pub proof fn lemma_rotation_area(t: Tetrimino, rot: int)
    ensures
        count_filled(spec_blocks(t, norm_rotation(rot))) == 4,
{
    reveal_with_fuel(count_filled_prefix, 18);
    vstd::arithmetic::div_mod::lemma_mod_division_less_than_divisor(rot, 4);
    let r = norm_rotation(rot);
    // the case split leaves each branch with one concrete table, whose
    // count the revealed recursion computes outright
    match t {
        Tetrimino::I => {
            if r == 1 {
            } else if r == 2 {
            } else if r == 3 {
            } else {
            }
        },
        Tetrimino::J => {
            if r == 1 {
            } else if r == 2 {
            } else if r == 3 {
            } else {
            }
        },
        Tetrimino::L => {
            if r == 1 {
            } else if r == 2 {
            } else if r == 3 {
            } else {
            }
        },
        Tetrimino::O => {
        },
        Tetrimino::S => {
            if r == 1 {
            } else if r == 2 {
            } else if r == 3 {
            } else {
            }
        },
        Tetrimino::T => {
            if r == 1 {
            } else if r == 2 {
            } else if r == 3 {
            } else {
            }
        },
        Tetrimino::Z => {
            if r == 1 {
            } else if r == 2 {
            } else if r == 3 {
            } else {
            }
        },
    }
}

/// Every rotation table of every kind has at least one filled cell.
pub proof fn lemma_some_filled(t: Tetrimino, rot: int)
    ensures
        exists|k: int|
            0 <= k < spec_length(t) * spec_length(t) && spec_blocks(
                t,
                norm_rotation(rot),
            )[k] == 1,
{
    vstd::arithmetic::div_mod::lemma_mod_division_less_than_divisor(rot, 4);
    let r = norm_rotation(rot);
    let tbl = spec_blocks(t, r);
    match t {
        Tetrimino::I => {
            if r == 1 {
                assert(tbl[6] == 1);
            } else if r == 2 {
                assert(tbl[9] == 1);
            } else {
                assert(tbl[5] == 1);
            }
        },
        Tetrimino::O => {
            assert(tbl[5] == 1);
        },
        Tetrimino::J => {
            assert(tbl[4] == 1);
        },
        Tetrimino::L => {
            assert(tbl[4] == 1);
        },
        Tetrimino::S => {
            assert(tbl[4] == 1);
        },
        Tetrimino::T => {
            assert(tbl[4] == 1);
        },
        Tetrimino::Z => {
            assert(tbl[4] == 1);
        },
    }
}

/// Relies on rand::random_range: for the nonempty range `0..7` it returns
/// a value drawn uniformly from that range by the thread-local generator,
/// so the result is always below 7.
#[verifier::external_body]
fn random_kind_index() -> (r: u8)
    ensures
        r < 7,
{
    rand::random_range(0u8..7u8)
}

impl Tetrimino {
    /// The kind standing at position `idx` of the fixed spawn order
    /// L, J, O, T, Z, S, I.
    pub fn from_index(idx: u8) -> (r: Tetrimino)
        requires
            idx < 7,
        ensures
            r == spec_kind_at(idx as int),
    {
        match idx {
            0 => Tetrimino::L,
            1 => Tetrimino::J,
            2 => Tetrimino::O,
            3 => Tetrimino::T,
            4 => Tetrimino::Z,
            5 => Tetrimino::S,
            _ => Tetrimino::I,
        }
    }

    /// Draws a kind for the next spawn. The draw is uniform over the seven
    /// kinds (a property of the underlying generator, not stated here);
    /// nothing more than "some kind of the order" can be promised of any
    /// single call.
    pub fn random() -> (r: Tetrimino)
        ensures
            exists|i: int| 0 <= i < 7 && r == spec_kind_at(i),
    {
        let idx = random_kind_index();
        Tetrimino::from_index(idx)
    }

    /// Bounding length of this kind's occupancy tables.
    pub fn get_length(&self) -> (r: i32)
        ensures
            r == spec_length(*self),
    {
        match self {
            Tetrimino::I => 4,
            Tetrimino::J => 3,
            Tetrimino::L => 3,
            Tetrimino::O => 4,
            Tetrimino::S => 3,
            Tetrimino::T => 3,
            Tetrimino::Z => 3,
        }
    }

    /// The occupancy table of this kind at the given rotation, row-major.
    /// Any rotation index is accepted and normalized modulo 4.
    pub fn get_blocks(&self, rotation: i8) -> (r: Vec<u8>)
        ensures
            r@ == spec_blocks(*self, norm_rotation(rotation as int)),
            r@.len() == spec_length(*self) * spec_length(*self),
    {
        let shifted: u16 = (rotation as i16 + 512) as u16;
        let rr: u16 = shifted % 4;
        proof {
            vstd::arithmetic::div_mod::lemma_mod_multiples_vanish(
                128,
                rotation as int,
                4,
            );
            assert(rr == norm_rotation(rotation as int));
        }
        match self {
            Tetrimino::I => {
                if rr == 1 {
                    vec![0, 0, 1, 0, 0, 0, 1, 0, 0, 0, 1, 0, 0, 0, 1, 0]
                } else if rr == 2 {
                    vec![0, 0, 0, 0, 0, 0, 0, 0, 1, 1, 1, 1, 0, 0, 0, 0]
                } else if rr == 3 {
                    vec![0, 1, 0, 0, 0, 1, 0, 0, 0, 1, 0, 0, 0, 1, 0, 0]
                } else {
                    vec![0, 0, 0, 0, 1, 1, 1, 1, 0, 0, 0, 0, 0, 0, 0, 0]
                }
            },
            Tetrimino::J => {
                if rr == 1 {
                    vec![0, 1, 1, 0, 1, 0, 0, 1, 0]
                } else if rr == 2 {
                    vec![0, 0, 0, 1, 1, 1, 0, 0, 1]
                } else if rr == 3 {
                    vec![0, 1, 0, 0, 1, 0, 1, 1, 0]
                } else {
                    vec![1, 0, 0, 1, 1, 1, 0, 0, 0]
                }
            },
            Tetrimino::L => {
                if rr == 1 {
                    vec![0, 1, 0, 0, 1, 0, 0, 1, 1]
                } else if rr == 2 {
                    vec![0, 0, 0, 1, 1, 1, 1, 0, 0]
                } else if rr == 3 {
                    vec![1, 1, 0, 0, 1, 0, 0, 1, 0]
                } else {
                    vec![0, 0, 1, 1, 1, 1, 0, 0, 0]
                }
            },
            Tetrimino::O => {
                vec![0, 0, 0, 0, 0, 1, 1, 0, 0, 1, 1, 0, 0, 0, 0, 0]
            },
            Tetrimino::S => {
                if rr == 1 {
                    vec![0, 1, 0, 0, 1, 1, 0, 0, 1]
                } else if rr == 2 {
                    vec![0, 0, 0, 0, 1, 1, 1, 1, 0]
                } else if rr == 3 {
                    vec![1, 0, 0, 1, 1, 0, 0, 1, 0]
                } else {
                    vec![0, 1, 1, 1, 1, 0, 0, 0, 0]
                }
            },
            Tetrimino::T => {
                if rr == 1 {
                    vec![0, 1, 0, 0, 1, 1, 0, 1, 0]
                } else if rr == 2 {
                    vec![0, 0, 0, 1, 1, 1, 0, 1, 0]
                } else if rr == 3 {
                    vec![0, 1, 0, 1, 1, 0, 0, 1, 0]
                } else {
                    vec![0, 1, 0, 1, 1, 1, 0, 0, 0]
                }
            },
            Tetrimino::Z => {
                if rr == 1 {
                    vec![0, 0, 1, 0, 1, 1, 0, 1, 0]
                } else if rr == 2 {
                    vec![0, 0, 0, 1, 1, 0, 0, 1, 1]
                } else if rr == 3 {
                    vec![0, 1, 0, 1, 1, 0, 1, 0, 0]
                } else {
                    vec![1, 1, 0, 0, 1, 1, 0, 0, 0]
                }
            },
        }
    }

    /// The display color of this kind.
    pub fn get_color(&self) -> (r: Color)
        ensures
            r == spec_color(*self),
    {
        match self {
            Tetrimino::I => Color::LightBlue,
            Tetrimino::J => Color::Blue,
            Tetrimino::L => Color::Orange,
            Tetrimino::O => Color::Yellow,
            Tetrimino::S => Color::Green,
            Tetrimino::T => Color::Purple,
            Tetrimino::Z => Color::Red,
        }
    }
}

} // verus!
