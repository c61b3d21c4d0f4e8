//! The board: a rectangular grid of settled cells plus the currently
//! falling piece, with bounds-checked access, collision validation,
//! movement and rotation commands, locking, and full-row clearing.

use vstd::pervasive::VecAdditionalExecFns;
use vstd::prelude::*;

use crate::tetrimino::{
    norm_rotation, spec_blocks, spec_color, spec_length, Color, Tetrimino,
};

verus! {

/// One grid cell, holding its color (`Color::Empty` when nothing is settled there).
#[derive(Clone, Copy, PartialEq, Eq, Structural, Debug)]
pub struct Block {
    pub ty: Color,
}

impl Block {
    /// True iff the cell holds no settled piece material.
    pub fn is_empty(&self) -> (r: bool)
        ensures
            r == (self.ty == Color::Empty),
    {
        matches!(self.ty, Color::Empty)
    }
}

/// Anchor column where a freshly spawned piece is placed.
pub const SPAWN_X: i32 = 3;

/// Anchor row where a freshly spawned piece is placed.
pub const SPAWN_Y: i32 = 15;

/// In-bounds coordinates map into the flat row-major cell store.
proof fn lemma_index_bound(x: int, y: int, w: int, h: int)
    by (nonlinear_arith)
    requires
        0 <= x < w,
        0 <= y < h,
    ensures
        0 <= y * w + x < w * h,
{
}

/// The board: the settled cells, row-major with row 0 at the bottom, plus
/// the currently falling piece (kind, anchor, rotation) and the terminal
/// game-over flag raised by a top-out.
pub struct Board {
    width: usize,
    height: usize,
    data: Vec<Block>,

    current_tetrimino: Option<Tetrimino>,
    current_tetrimino_pos_x: i32,
    current_tetrimino_pos_y: i32,
    current_tetrimino_rotation: i8,
    game_over: bool,
}

impl Board {
    /// Shape invariant: the store holds exactly width * height cells, the
    /// dimensions fit the signed 32-bit coordinate space of the command
    /// interface, and the rotation index is kept normalized.
    pub open spec fn wf(self) -> bool {
        &&& self.cells().len() == self.spec_width() * self.spec_height()
        &&& self.spec_width() <= 0x7fff_ffff
        &&& self.spec_height() <= 0x7fff_ffff
        &&& 0 <= self.spec_rotation() < 4
    }

    /// The session's board width, in cells.
    pub closed spec fn spec_width(self) -> int {
        self.width as int
    }

    /// The session's board height, in cells.
    pub closed spec fn spec_height(self) -> int {
        self.height as int
    }

    /// The flat row-major sequence of settled cells.
    pub closed spec fn cells(self) -> Seq<Block> {
        self.data@
    }

    /// The falling piece's kind, or `None` when no piece is active.
    pub closed spec fn spec_piece(self) -> Option<Tetrimino> {
        self.current_tetrimino
    }

    /// The falling piece's anchor column.
    pub closed spec fn spec_pos_x(self) -> int {
        self.current_tetrimino_pos_x as int
    }

    /// The falling piece's anchor row.
    pub closed spec fn spec_pos_y(self) -> int {
        self.current_tetrimino_pos_y as int
    }

    /// The falling piece's rotation index.
    pub closed spec fn spec_rotation(self) -> int {
        self.current_tetrimino_rotation as int
    }

    /// Whether the session has ended in a top-out.
    pub closed spec fn spec_game_over(self) -> bool {
        self.game_over
    }

    /// Whether (x, y) lies on the board.
    pub open spec fn in_bounds(self, x: int, y: int) -> bool {
        0 <= x < self.spec_width() && 0 <= y < self.spec_height()
    }

    /// The settled cell at in-bounds (x, y).
    pub open spec fn spec_cell(self, x: int, y: int) -> Block {
        self.cells()[y * self.spec_width() + x]
    }

    /// The cell at (x, y), or `None` off the board.
    pub open spec fn spec_cell_opt(self, x: int, y: int) -> Option<Block> {
        if self.in_bounds(x, y) {
            Some(self.spec_cell(x, y))
        } else {
            None
        }
    }

    /// An in-bounds cell holding no settled material: the only place a
    /// falling piece's filled cell may stand.
    pub open spec fn cell_open(self, x: int, y: int) -> bool {
        self.in_bounds(x, y) && self.spec_cell(x, y).ty == Color::Empty
    }

    /// The settled cells and dimensions of `self` and `other` agree; the
    /// falling piece and the game-over flag may differ.
    pub open spec fn same_grid(self, other: Board) -> bool {
        &&& self.spec_width() == other.spec_width()
        &&& self.spec_height() == other.spec_height()
        &&& self.cells() == other.cells()
    }

    /// The falling-piece fields and the game-over flag of `self` and
    /// `other` agree; the settled cells may differ.
    pub open spec fn same_piece(self, other: Board) -> bool {
        &&& self.spec_piece() == other.spec_piece()
        &&& self.spec_pos_x() == other.spec_pos_x()
        &&& self.spec_pos_y() == other.spec_pos_y()
        &&& self.spec_rotation() == other.spec_rotation()
        &&& self.spec_game_over() == other.spec_game_over()
    }

    /// A fresh board: all cells empty, no falling piece yet.
    pub fn new(width: usize, height: usize) -> (r: Board)
        requires
            width <= 0x7fff_ffff,
            height <= 0x7fff_ffff,
            width * height <= usize::MAX,
        ensures
            r.wf(),
            r.spec_width() == width,
            r.spec_height() == height,
            forall|x: int, y: int|
                r.in_bounds(x, y) ==> r.spec_cell(x, y).ty == Color::Empty,
            r.spec_piece() is None,
            r.spec_pos_x() == 0,
            r.spec_pos_y() == 0,
            r.spec_rotation() == 0,
            !r.spec_game_over(),
    {
        let total: usize = width * height;
        let mut data: Vec<Block> = Vec::new();
        let mut i: usize = 0;
        while i < total
            invariant
                i <= total,
                data@.len() == i,
                forall|k: int| 0 <= k < i ==> data@[k].ty == Color::Empty,
            decreases total - i,
        {
            data.push(Block { ty: Color::Empty });
            i = i + 1;
        }
        let r = Board {
            width,
            height,
            data,
            current_tetrimino: None,
            current_tetrimino_pos_x: 0,
            current_tetrimino_pos_y: 0,
            current_tetrimino_rotation: 0,
            game_over: false,
        };
        proof {
            assert forall|x: int, y: int| r.in_bounds(x, y) implies r.spec_cell(
                x,
                y,
            ).ty == Color::Empty by {
                lemma_index_bound(x, y, r.spec_width(), r.spec_height());
            }
        }
        r
    }

    /// The board width handed to `new`.
    pub fn get_width(&self) -> (r: usize)
        ensures
            r == self.spec_width(),
    {
        self.width
    }

    /// The board height handed to `new`.
    pub fn get_height(&self) -> (r: usize)
        ensures
            r == self.spec_height(),
    {
        self.height
    }

    /// How many vertices a renderer needs for the settled cells: six per
    /// cell, two triangles each.
    pub fn num_vertices(&self) -> (r: usize)
        requires
            self.wf(),
            self.spec_width() * self.spec_height() * 6 <= usize::MAX,
        ensures
            r == self.spec_width() * self.spec_height() * 6,
    {
        let n: usize = self.data.len();
        n * 6
    }

    /// Bounds-checked read: the cell at (x, y), or `None` off the board.
    pub fn get_block_at(&self, x: usize, y: usize) -> (r: Option<&Block>)
        requires
            self.wf(),
        ensures
            match r {
                Some(b) => self.spec_cell_opt(x as int, y as int) == Some(*b),
                None => self.spec_cell_opt(x as int, y as int) is None,
            },
    {
        if x >= self.width || y >= self.height {
            return None;
        }
        let n: usize = self.data.len();
        proof {
            lemma_index_bound(x as int, y as int, self.spec_width(), self.spec_height());
            assert(y * self.spec_width() + x < n);
        }
        Some(&self.data[y * self.width + x])
    }

    /// A placement (kind, anchor, rotation) is valid when every filled
    /// cell of the kind's occupancy table, mapped to board coordinates,
    /// lands on an in-bounds empty cell. Unfilled table cells impose no
    /// constraint, so a bounding box may hang over the edge harmlessly.
    /// Table entry k sits at column k % L and table row k / L; table row 0
    /// is the top of the bounding box, so it maps to board row
    /// y + (L - 1) - k / L.
    pub open spec fn spec_valid_placement(
        self,
        t: Tetrimino,
        x: int,
        y: int,
        rot: int,
    ) -> bool {
        let l = spec_length(t);
        let tbl = spec_blocks(t, norm_rotation(rot));
        forall|k: int|
            0 <= k < l * l && tbl[k] == 1 ==> self.cell_open(
                x + k % l,
                y + (l - 1 - k / l),
            )
    }

    /// The collision validator: whether the piece may stand at anchor
    /// (x, y) with the given rotation (any rotation index is accepted and
    /// normalized modulo 4). Rejects exactly the placements where some
    /// filled shape cell falls off the board or onto a settled cell.
    pub fn tetrimino_valid(&self, tetrimino: &Tetrimino, x: i32, y: i32, rot: i8) -> (r:
        bool)
        requires
            self.wf(),
        ensures
            r == self.spec_valid_placement(*tetrimino, x as int, y as int, rot as int),
    {
        let len: i32 = tetrimino.get_length();
        let blocks: Vec<u8> = tetrimino.get_blocks(rot);
        let total: i32 = len * len;
        let mut k: i32 = 0;
        while k < total
            invariant
                self.wf(),
                0 <= k <= total,
                len == spec_length(*tetrimino),
                total == len * len,
                blocks@ == spec_blocks(*tetrimino, norm_rotation(rot as int)),
                blocks@.len() == total,
                forall|k2: int|
                    0 <= k2 < k && blocks@[k2] == 1 ==> self.cell_open(
                        x + k2 % (len as int),
                        y + (len - 1 - k2 / (len as int)),
                    ),
            decreases total - k,
        {
            if blocks[k as usize] == 1 {
                let bx: i64 = x as i64 + (k % len) as i64;
                let by: i64 = y as i64 + (len - 1 - k / len) as i64;
                let open = if 0 <= bx && bx < self.width as i64 && 0 <= by
                    && by < self.height as i64 {
                    match self.get_block_at(bx as usize, by as usize) {
                        Some(b) => b.is_empty(),
                        None => false,
                    }
                } else {
                    false
                };
                if !open {
                    proof {
                        let l = spec_length(*tetrimino);
                        let ki = k as int;
                        assert(!self.cell_open(x + ki % l, y + (l - 1 - ki / l)));
                    }
                    return false;
                }
            }
            k = k + 1;
        }
        true
    }

    /// Bounds-checked write of one settled cell; the coordinates must lie
    /// on the board. Every other cell, the dimensions, and the falling
    /// piece stay as they were.
    pub fn set_block_at(&mut self, x: usize, y: usize, b: Block)
        requires
            old(self).wf(),
            x < old(self).spec_width(),
            y < old(self).spec_height(),
        ensures
            final(self).wf(),
            final(self).spec_width() == old(self).spec_width(),
            final(self).spec_height() == old(self).spec_height(),
            final(self).same_piece(*old(self)),
            final(self).cells() == old(self).cells().update(
                y * old(self).spec_width() + x,
                b,
            ),
            final(self).spec_cell(x as int, y as int) == b,
            forall|x2: int, y2: int|
                final(self).in_bounds(x2, y2) && !(x2 == x && y2 == y)
                    ==> final(self).spec_cell(x2, y2) == old(self).spec_cell(x2, y2),
    {
        let n: usize = self.data.len();
        proof {
            lemma_index_bound(x as int, y as int, self.spec_width(), self.spec_height());
            assert(y * self.spec_width() + x < n);
        }
        let i: usize = y * self.width + x;
        self.data.set(i, b);
        proof {
            assert forall|x2: int, y2: int|
                self.in_bounds(x2, y2) && !(x2 == x && y2 == y) implies self.spec_cell(
                x2,
                y2,
            ) == old(self).spec_cell(x2, y2) by {
                lemma_index_bound(x2, y2, self.spec_width(), self.spec_height());
                lemma_distinct_cells(x2, y2, x as int, y as int, self.spec_width());
            }
        }
    }
}

/// A row is full when every one of its cells is occupied; a row with even
/// one empty cell is not full. A zero-width row is vacuously full.
pub open spec fn spec_row_full(row: Seq<Block>) -> bool {
    forall|i: int| 0 <= i < row.len() ==> row[i].ty != Color::Empty
}

/// An all-empty row of the given width.
pub open spec fn empty_row(w: int) -> Seq<Block> {
    Seq::new(w as nat, |x: int| Block { ty: Color::Empty })
}

/// The rows of a stack that are not full, in their old bottom-to-top order.
pub open spec fn kept_rows(rows: Seq<Seq<Block>>) -> Seq<Seq<Block>> {
    rows.filter(|r: Seq<Block>| !spec_row_full(r))
}

/// A stack of t all-empty rows of width w.
pub open spec fn empties(w: int, t: int) -> Seq<Seq<Block>> {
    Seq::new(t as nat, |i: int| empty_row(w))
}

/// What clearing leaves of a stack of rows: the rows that are not full,
/// in their old bottom-to-top order, topped up with empty rows back to
/// height h.
pub open spec fn spec_cleared(rows: Seq<Seq<Block>>, w: int, h: int) -> Seq<Seq<Block>> {
    kept_rows(rows) + empties(w, h - kept_rows(rows).len())
}

/// The rows left after the t highest of the listed indices have been
/// removed, one at a time from the highest down: the removal at step u
/// takes out index fr[fr.len() - u] of what remains.
spec fn removed_prefix(rows: Seq<Seq<Block>>, fr: Seq<int>, t: int) -> Seq<Seq<Block>>
    decreases t,
{
    if t <= 0 {
        rows
    } else {
        removed_prefix(rows, fr, t - 1).remove(fr[fr.len() - t])
    }
}

/// fr lists exactly the indices of the full rows of the stack, ascending.
spec fn is_full_row_list(rows: Seq<Seq<Block>>, fr: Seq<int>) -> bool {
    &&& forall|i: int, j: int| 0 <= i < j < fr.len() ==> fr[i] < fr[j]
    &&& forall|i: int|
        0 <= i < fr.len() ==> 0 <= #[trigger] fr[i] < rows.len() && spec_row_full(
            rows[fr[i]],
        )
    &&& forall|y: int|
        0 <= y < rows.len() && spec_row_full(rows[y]) ==> (exists|i: int|
            0 <= i < fr.len() && fr[i] == y)
}

/// In a strictly ascending list, entries that stand apart by k positions
/// stand apart by at least k in value.
proof fn lemma_sorted_gap(fr: Seq<int>, i: int, j: int)
    requires
        forall|a: int, b: int| 0 <= a < b < fr.len() ==> fr[a] < fr[b],
        0 <= i <= j < fr.len(),
    ensures
        fr[j] - fr[i] >= j - i,
    decreases j - i,
{
    if i < j {
        lemma_sorted_gap(fr, i, j - 1);
    }
}

/// Removing an index of the left part of a concatenation leaves the right
/// part alone.
proof fn lemma_add_remove<A>(a: Seq<A>, b: Seq<A>, i: int)
    requires
        0 <= i < a.len(),
    ensures
        (a + b).remove(i) == a.remove(i) + b,
{
    assert((a + b).remove(i) =~= a.remove(i) + b);
}

/// Removing an inner index commutes with pushing at the end.
proof fn lemma_push_remove<A>(s: Seq<A>, e: A, i: int)
    requires
        0 <= i < s.len(),
    ensures
        s.push(e).remove(i) == s.remove(i).push(e),
{
    assert(s.push(e).remove(i) =~= s.remove(i).push(e));
}

/// Removing indices that all lie inside the base of a push commutes with
/// the push.
proof fn lemma_removed_prefix_push(
    rows: Seq<Seq<Block>>,
    e: Seq<Block>,
    fr: Seq<int>,
    t: int,
)
    requires
        0 <= t <= fr.len(),
        fr.len() <= rows.len(),
        forall|i: int| 0 <= i < fr.len() ==> 0 <= #[trigger] fr[i] < rows.len(),
        forall|a: int, b: int| 0 <= a < b < fr.len() ==> fr[a] < fr[b],
    ensures
        removed_prefix(rows.push(e), fr, t) == removed_prefix(rows, fr, t).push(e),
    decreases t,
{
    if t > 0 {
        lemma_removed_prefix_len(rows, fr, t - 1);
        lemma_removed_prefix_push(rows, e, fr, t - 1);
        let d = fr[fr.len() - t];
        assert(d < rows.len() - (t - 1)) by {
            lemma_sorted_gap(fr, fr.len() - t, fr.len() - 1);
        }
        lemma_push_remove(removed_prefix(rows, fr, t - 1), e, d);
    }
}

/// Each of the t removals takes out one row.
proof fn lemma_removed_prefix_len(rows: Seq<Seq<Block>>, fr: Seq<int>, t: int)
    requires
        0 <= t <= fr.len(),
        forall|i: int| 0 <= i < fr.len() ==> 0 <= #[trigger] fr[i] < rows.len(),
        forall|a: int, b: int| 0 <= a < b < fr.len() ==> fr[a] < fr[b],
        fr.len() <= rows.len(),
    ensures
        removed_prefix(rows, fr, t).len() == rows.len() - t,
    decreases t,
{
    if t > 0 {
        lemma_removed_prefix_len(rows, fr, t - 1);
        let d = fr[fr.len() - t];
        assert(d <= rows.len() - t) by {
            lemma_sorted_gap(fr, fr.len() - t, fr.len() - 1);
        }
    }
}

/// Removing the full rows from the top down leaves exactly the rows that
/// are not full, in order.
proof fn lemma_removed_prefix_is_kept(rows: Seq<Seq<Block>>, fr: Seq<int>)
    requires
        is_full_row_list(rows, fr),
    ensures
        fr.len() <= rows.len(),
        removed_prefix(rows, fr, fr.len() as int) == kept_rows(rows),
    decreases rows.len(),
{
    reveal_with_fuel(Seq::<_>::filter, 2);
    let m = fr.len() as int;
    let n = rows.len() as int;
    assert(m <= n) by {
        if m > n {
            lemma_sorted_gap(fr, 0, m - 1);
        }
    }
    if n == 0 {
        assert(removed_prefix(rows, fr, m) == rows);
        assert(kept_rows(rows) =~= rows);
    } else {
        let rest = rows.drop_last();
        let last = rows.last();
        if spec_row_full(last) {
            let iw = choose|i: int| 0 <= i < m && fr[i] == n - 1;
            assert(iw == m - 1) by {
                if iw < m - 1 {
                    lemma_sorted_gap(fr, iw, m - 1);
                }
            }
            let fr2 = fr.drop_last();
            assert(is_full_row_list(rest, fr2)) by {
                assert forall|i: int| 0 <= i < fr2.len() implies 0 <= #[trigger] fr2[i]
                    < rest.len() && spec_row_full(rest[fr2[i]]) by {
                    lemma_sorted_gap(fr, i, m - 1);
                    assert(rest[fr2[i]] == rows[fr[i]]);
                }
                assert forall|y: int|
                    0 <= y < rest.len() && spec_row_full(rest[y]) implies (exists|i: int|
                    0 <= i < fr2.len() && fr2[i] == y) by {
                    assert(rows[y] == rest[y]);
                    let i = choose|i: int| 0 <= i < m && fr[i] == y;
                    assert(i < m - 1) by {
                        if i == m - 1 {
                            assert(fr[i] == n - 1);
                        }
                    }
                    assert(fr2[i] == y);
                }
            }
            lemma_removed_prefix_is_kept(rest, fr2);
            lemma_removed_prefix_drop_full(rows, fr, m);
            assert(kept_rows(rows) == kept_rows(rest));
        } else {
            assert forall|i: int| 0 <= i < fr.len() implies 0 <= #[trigger] fr[i]
                < rest.len() && spec_row_full(rest[fr[i]]) by {
                if fr[i] == n - 1 {
                    assert(spec_row_full(rows[fr[i]]));
                }
                assert(rest[fr[i]] == rows[fr[i]]);
            }
            assert(is_full_row_list(rest, fr)) by {
                assert forall|y: int|
                    0 <= y < rest.len() && spec_row_full(rest[y]) implies (exists|i: int|
                    0 <= i < fr.len() && fr[i] == y) by {
                    assert(rows[y] == rest[y]);
                }
            }
            lemma_removed_prefix_is_kept(rest, fr);
            assert(rest.push(last) =~= rows);
            lemma_removed_prefix_len(rest, fr, m);
            lemma_removed_prefix_push(rest, last, fr, m);
            assert(kept_rows(rows) == kept_rows(rest).push(last));
        }
    }
}

/// When the highest listed index is the top row, the first removal peels
/// that row off, and the rest of the removals act inside the shorter
/// stack.
proof fn lemma_removed_prefix_drop_full(rows: Seq<Seq<Block>>, fr: Seq<int>, t: int)
    requires
        1 <= t <= fr.len(),
        rows.len() >= 1,
        fr[fr.len() - 1] == rows.len() - 1,
        forall|i: int| 0 <= i < fr.len() ==> 0 <= #[trigger] fr[i] < rows.len(),
        forall|a: int, b: int| 0 <= a < b < fr.len() ==> fr[a] < fr[b],
    ensures
        removed_prefix(rows, fr, t) == removed_prefix(
            rows.drop_last(),
            fr.drop_last(),
            t - 1,
        ),
    decreases t,
{
    reveal_with_fuel(removed_prefix, 3);
    let rest = rows.drop_last();
    let fr2 = fr.drop_last();
    if t == 1 {
        assert(removed_prefix(rows, fr, 1) == rows.remove(fr[fr.len() - 1]));
        assert(rows.remove(rows.len() - 1) =~= rest);
    } else {
        lemma_removed_prefix_drop_full(rows, fr, t - 1);
        assert(fr[fr.len() - t] == fr2[fr2.len() - (t - 1)]);
        assert(removed_prefix(rows, fr, t) == removed_prefix(rows, fr, t - 1).remove(
            fr[fr.len() - t],
        ));
        assert(removed_prefix(rest, fr2, t - 1) == removed_prefix(rest, fr2, t - 2).remove(
            fr2[fr2.len() - (t - 1)],
        ));
    }
}

/// Multiplying both sides of an inequality by a nonnegative factor.
proof fn lemma_mul_le(a: int, b: int, c: int)
    by (nonlinear_arith)
    requires
        a <= b,
        0 <= c,
    ensures
        a * c <= b * c,
{
}

/// The flat slot range of row y sits inside the store: rows are disjoint,
/// consecutive blocks of w slots.
proof fn lemma_row_range(y: int, w: int, h: int)
    by (nonlinear_arith)
    requires
        0 <= y < h,
        0 <= w,
    ensures
        0 <= y * w,
        y * w + w <= h * w,
        (y + 1) * w == y * w + w,
{
}

impl Board {
    /// The cells of row y, left to right.
    pub open spec fn spec_row(self, y: int) -> Seq<Block> {
        self.cells().subrange(y * self.spec_width(), y * self.spec_width() + self.spec_width())
    }

    /// All rows of the board, bottom to top.
    pub open spec fn spec_rows(self) -> Seq<Seq<Block>> {
        Seq::new(self.spec_height() as nat, |y: int| self.spec_row(y))
    }

    /// The W cells of row `row`. The row index must be below the board
    /// height; an index out of range is a defect of the caller, not a
    /// runtime condition, and is excluded by precondition.
    pub fn get_row(&self, row: usize) -> (r: &[Block])
        requires
            self.wf(),
            row < self.spec_height(),
        ensures
            r@ == self.spec_row(row as int),
    {
        let n: usize = self.data.len();
        proof {
            lemma_row_range(row as int, self.spec_width(), self.spec_height());
            lemma_mul_le(0, row as int, self.spec_width());
            assert(self.spec_height() * self.spec_width() == self.spec_width()
                * self.spec_height()) by (nonlinear_arith);
            assert(row * self.spec_width() + self.spec_width() <= n);
        }
        let lo: usize = row * self.width;
        vstd::slice::slice_subrange(self.data.as_slice(), lo, lo + self.width)
    }

    /// True iff every cell of the row is occupied.
    pub fn is_row_full(row: &[Block]) -> (r: bool)
        ensures
            r == spec_row_full(row@),
    {
        let n: usize = row.len();
        let mut i: usize = 0;
        while i < n
            invariant
                i <= n,
                n == row@.len(),
                forall|j: int| 0 <= j < i ==> row@[j].ty != Color::Empty,
            decreases n - i,
        {
            if vstd::slice::slice_index_get(row, i).is_empty() {
                return false;
            }
            i = i + 1;
        }
        true
    }

    /// The indices of the full rows, in ascending order: a row index y
    /// below the height appears iff row y is full. The board itself is
    /// left untouched.
    pub fn get_full_rows(&mut self) -> (r: Vec<usize>)
        requires
            old(self).wf(),
        ensures
            *final(self) == *old(self),
            forall|i: int, j: int| 0 <= i < j < r@.len() ==> r@[i] < r@[j],
            forall|i: int|
                0 <= i < r@.len() ==> r@[i] < final(self).spec_height() && spec_row_full(
                    final(self).spec_row(r@[i] as int),
                ),
            forall|y: int|
                0 <= y < final(self).spec_height() && spec_row_full(final(self).spec_row(y))
                    ==> (exists|i: int| 0 <= i < r@.len() && r@[i] == y),
    {
        let mut full_rows: Vec<usize> = Vec::new();
        let mut y: usize = 0;
        while y < self.height
            invariant
                self.wf(),
                y <= self.spec_height(),
                forall|i: int, j: int|
                    0 <= i < j < full_rows@.len() ==> full_rows@[i] < full_rows@[j],
                forall|i: int|
                    0 <= i < full_rows@.len() ==> full_rows@[i] < y && spec_row_full(
                        self.spec_row(full_rows@[i] as int),
                    ),
                forall|y2: int|
                    0 <= y2 < y && spec_row_full(self.spec_row(y2)) ==> (exists|i: int|
                        0 <= i < full_rows@.len() && full_rows@[i] == y2),
            decreases self.spec_height() - y,
        {
            let ghost fr0 = full_rows@;
            let row = self.get_row(y);
            let full = Self::is_row_full(row);
            if full {
                full_rows.push(y);
            }
            proof {
                assert forall|y2: int|
                    0 <= y2 < y + 1 && spec_row_full(self.spec_row(y2)) implies (exists|i: int|
                    0 <= i < full_rows@.len() && full_rows@[i] == y2) by {
                    if y2 == y as int {
                        assert(full_rows@[fr0.len() as int] == y2);
                    } else {
                        let i = choose|i: int| 0 <= i < fr0.len() && fr0[i] == y2;
                        assert(full_rows@[i] == y2);
                    }
                }
            }
            y = y + 1;
        }
        full_rows
    }

    /// Removes row `row`: every row above it moves down by one, their
    /// order and contents preserved, rows below it are untouched, and a
    /// fresh all-empty row appears at the top. The falling piece and the
    /// dimensions are unchanged.
    pub fn delete_row(&mut self, row: usize)
        requires
            old(self).wf(),
            row < old(self).spec_height(),
        ensures
            final(self).wf(),
            final(self).spec_width() == old(self).spec_width(),
            final(self).spec_height() == old(self).spec_height(),
            final(self).same_piece(*old(self)),
            forall|x: int, y: int|
                0 <= x < final(self).spec_width() && 0 <= y < row ==> final(self).spec_cell(
                    x,
                    y,
                ) == old(self).spec_cell(x, y),
            forall|x: int, y: int|
                0 <= x < final(self).spec_width() && row <= y < final(self).spec_height() - 1
                    ==> final(self).spec_cell(x, y) == old(self).spec_cell(x, y + 1),
            forall|x: int|
                0 <= x < final(self).spec_width() ==> #[trigger] final(self).spec_cell(
                    x,
                    final(self).spec_height() - 1,
                ).ty == Color::Empty,
            final(self).spec_rows() == old(self).spec_rows().remove(row as int).push(
                empty_row(old(self).spec_width()),
            ),
    {
        let ghost orig = *self;
        let total: usize = self.data.len();
        let w: usize = self.width;
        proof {
            lemma_row_range(row as int, self.spec_width(), self.spec_height());
            lemma_row_range(
                self.spec_height() - 1,
                self.spec_width(),
                self.spec_height(),
            );
            lemma_mul_le(row as int, self.spec_height() - 1, self.spec_width());
            lemma_mul_le(0, row as int, self.spec_width());
        }
        let end1: usize = total - w;
        let mut i: usize = row * w;
        while i < end1
            invariant
                self.wf(),
                self.spec_width() == orig.spec_width(),
                self.spec_height() == orig.spec_height(),
                self.same_piece(orig),
                w == self.spec_width(),
                total == self.cells().len(),
                end1 + w == total,
                row * w <= i <= end1,
                forall|k: int| 0 <= k < row * w ==> self.cells()[k] == orig.cells()[k],
                forall|k: int| row * w <= k < i ==> self.cells()[k] == orig.cells()[k + w],
                forall|k: int| i <= k < total ==> self.cells()[k] == orig.cells()[k],
            decreases end1 - i,
        {
            let b: Block = self.data[i + w];
            self.data.set(i, b);
            i = i + 1;
        }
        let mut j: usize = end1;
        while j < total
            invariant
                self.wf(),
                self.spec_width() == orig.spec_width(),
                self.spec_height() == orig.spec_height(),
                self.same_piece(orig),
                w == self.spec_width(),
                total == self.cells().len(),
                end1 + w == total,
                row * w <= end1,
                end1 <= j <= total,
                forall|k: int| 0 <= k < row * w ==> self.cells()[k] == orig.cells()[k],
                forall|k: int|
                    row * w <= k < end1 ==> self.cells()[k] == orig.cells()[k + w],
                forall|k: int|
                    end1 <= k < j ==> self.cells()[k].ty == Color::Empty,
            decreases total - j,
        {
            self.data.set(j, Block { ty: Color::Empty });
            j = j + 1;
        }
        proof {
            self.lemma_delete_row_shape(orig, row as int);
        }
    }

    /// Converts the flat-store description of a row deletion into the
    /// three cell-level facts and the rows-sequence form.
    #[verifier::rlimit(100)]
    proof fn lemma_delete_row_shape(self, orig: Board, row: int)
        requires
            orig.wf(),
            self.wf(),
            0 <= row < orig.spec_height(),
            self.spec_width() == orig.spec_width(),
            self.spec_height() == orig.spec_height(),
            forall|k: int|
                0 <= k < row * orig.spec_width() ==> self.cells()[k] == orig.cells()[k],
            forall|k: int|
                row * orig.spec_width() <= k < (orig.spec_height() - 1) * orig.spec_width()
                    ==> self.cells()[k] == orig.cells()[k + orig.spec_width()],
            forall|k: int|
                (orig.spec_height() - 1) * orig.spec_width() <= k < orig.spec_height()
                    * orig.spec_width() ==> self.cells()[k].ty == Color::Empty,
        ensures
            forall|x: int, y: int|
                0 <= x < self.spec_width() && 0 <= y < row ==> self.spec_cell(x, y)
                    == orig.spec_cell(x, y),
            forall|x: int, y: int|
                0 <= x < self.spec_width() && row <= y < self.spec_height() - 1
                    ==> self.spec_cell(x, y) == orig.spec_cell(x, y + 1),
            forall|x: int|
                0 <= x < self.spec_width() ==> #[trigger] self.spec_cell(
                    x,
                    self.spec_height() - 1,
                ).ty == Color::Empty,
            self.spec_rows() == orig.spec_rows().remove(row).push(
                empty_row(orig.spec_width()),
            ),
    {
        let w = self.spec_width();
        let h = self.spec_height();
        assert forall|x: int, y: int| 0 <= x < w && 0 <= y < row implies self.spec_cell(
            x,
            y,
        ) == orig.spec_cell(x, y) by {
            lemma_index_bound(x, y, w, h);
            lemma_row_range(y, w, h);
            lemma_mul_le(y + 1, row, w);
        }
        assert forall|x: int, y: int| 0 <= x < w && row <= y < h - 1 implies self.spec_cell(
            x,
            y,
        ) == orig.spec_cell(x, y + 1) by {
            lemma_index_bound(x, y, w, h);
            lemma_row_range(y, w, h);
            lemma_mul_le(row, y, w);
            lemma_mul_le(y + 1, h - 1, w);
        }
        assert forall|x: int| 0 <= x < w implies #[trigger] self.spec_cell(x, h - 1).ty
            == Color::Empty by {
            lemma_index_bound(x, h - 1, w, h);
            lemma_row_range(h - 1, w, h);
        }
        let lhs = self.spec_rows();
        let rhs = orig.spec_rows().remove(row).push(empty_row(w));
        assert forall|y: int| 0 <= y < h implies lhs[y] == rhs[y] by {
            lemma_row_range(y, w, h);
            assert(lhs[y] == self.spec_row(y));
            if y < row {
                assert(rhs[y] == orig.spec_row(y));
                lemma_row_range(y, w, orig.spec_height());
                assert forall|x: int| 0 <= x < w implies lhs[y][x] == rhs[y][x] by {
                    assert(lhs[y][x] == self.spec_cell(x, y));
                    assert(rhs[y][x] == orig.spec_cell(x, y));
                }
                assert(lhs[y] =~= rhs[y]);
            } else if y < h - 1 {
                assert(rhs[y] == orig.spec_row(y + 1));
                lemma_row_range(y + 1, w, h);
                assert forall|x: int| 0 <= x < w implies lhs[y][x] == rhs[y][x] by {
                    assert(lhs[y][x] == self.spec_cell(x, y));
                    assert(rhs[y][x] == orig.spec_cell(x, y + 1));
                }
                assert(lhs[y] =~= rhs[y]);
            } else {
                assert(rhs[y] == empty_row(w));
                assert forall|x: int| 0 <= x < w implies lhs[y][x] == rhs[y][x] by {
                    assert(lhs[y][x] == self.spec_cell(x, y));
                    assert(rhs[y][x] == (Block { ty: Color::Empty }));
                }
                assert(lhs[y] =~= rhs[y]);
            }
        }
        assert(lhs =~= rhs);
    }
}

impl Board {
    /// Scans for full rows and clears them all, working from the highest
    /// full row down so that the indices of the lower ones stay correct
    /// as each clear shifts the rows above it. Afterwards the rows are
    /// exactly the old rows that were not full, in order, topped up with
    /// empty rows; dimensions and the falling piece are unchanged.
    pub fn check_and_delete_rows(&mut self)
        requires
            old(self).wf(),
        ensures
            final(self).wf(),
            final(self).spec_width() == old(self).spec_width(),
            final(self).spec_height() == old(self).spec_height(),
            final(self).same_piece(*old(self)),
            final(self).spec_rows() == spec_cleared(
                old(self).spec_rows(),
                old(self).spec_width(),
                old(self).spec_height(),
            ),
    {
        let ghost orig = *self;
        let ghost w = orig.spec_width();
        let ghost h = orig.spec_height();
        let full_rows: Vec<usize> = self.get_full_rows();
        let ghost fri = Seq::new(full_rows@.len(), |i: int| full_rows@[i] as int);
        proof {
            assert(is_full_row_list(orig.spec_rows(), fri)) by {
                assert forall|y: int|
                    0 <= y < orig.spec_rows().len() && spec_row_full(
                        orig.spec_rows()[y],
                    ) implies (exists|i: int| 0 <= i < fri.len() && fri[i] == y) by {
                    assert(orig.spec_rows()[y] == orig.spec_row(y));
                    let i = choose|i: int|
                        0 <= i < full_rows@.len() && full_rows@[i] == y;
                    assert(fri[i] == y);
                }
            }
            lemma_removed_prefix_is_kept(orig.spec_rows(), fri);
        }
        let m: usize = full_rows.len();
        let mut t: usize = 0;
        while t < m
            invariant
                self.wf(),
                orig.wf(),
                self.spec_width() == w,
                self.spec_height() == h,
                self.same_piece(orig),
                t <= m,
                m == fri.len(),
                m <= h,
                orig.spec_rows().len() == h,
                full_rows@.len() == m,
                fri == Seq::new(full_rows@.len(), |i: int| full_rows@[i] as int),
                is_full_row_list(orig.spec_rows(), fri),
                self.spec_rows() == removed_prefix(orig.spec_rows(), fri, t as int)
                    + empties(w, t as int),
            decreases m - t,
        {
            let d: usize = full_rows[m - 1 - t];
            proof {
                lemma_sorted_gap(fri, m - 1 - t as int, m - 1 as int);
                lemma_removed_prefix_len(orig.spec_rows(), fri, t as int);
                assert(d < h - t);
            }
            let ghost before = *self;
            self.delete_row(d);
            proof {
                let pt = removed_prefix(orig.spec_rows(), fri, t as int);
                let et = empties(w, t as int);
                assert(before.spec_rows() == pt + et);
                assert(self.spec_rows() == before.spec_rows().remove(d as int).push(
                    empty_row(w),
                ));
                lemma_add_remove(pt, et, d as int);
                assert(self.spec_rows() == (pt.remove(d as int) + et).push(
                    empty_row(w),
                ));
                assert((pt.remove(d as int) + et).push(empty_row(w)) =~= pt.remove(
                    d as int,
                ) + empties(w, t + 1 as int));
                assert(fri[fri.len() - (t + 1)] == d as int);
                assert(removed_prefix(orig.spec_rows(), fri, t + 1 as int) == pt.remove(
                    d as int,
                ));
            }
            t = t + 1;
        }
        proof {
            lemma_removed_prefix_len(orig.spec_rows(), fri, m as int);
            assert(kept_rows(orig.spec_rows()).len() == h - m);
            assert(empties(w, m as int) =~= empties(
                w,
                h - kept_rows(orig.spec_rows()).len(),
            ));
        }
    }
}

/// Whether a placement covers board cell (bx, by) with a filled cell of
/// the kind's occupancy table, counting only the first `bound` entries.
pub open spec fn spec_covers_prefix(
    t: Tetrimino,
    x: int,
    y: int,
    rot: int,
    bx: int,
    by: int,
    bound: int,
) -> bool {
    let l = spec_length(t);
    let tbl = spec_blocks(t, norm_rotation(rot));
    exists|k: int|
        0 <= k < bound && tbl[k] == 1 && bx == x + k % l && by == y + (l - 1 - k / l)
}

/// Whether a placement covers board cell (bx, by) with a filled cell of
/// the kind's occupancy table.
pub open spec fn spec_covers(
    t: Tetrimino,
    x: int,
    y: int,
    rot: int,
    bx: int,
    by: int,
) -> bool {
    spec_covers_prefix(t, x, y, rot, bx, by, spec_length(t) * spec_length(t))
}

/// The quotient of a table index by the side length stays below the side
/// length.
proof fn lemma_div_bound(k: int, l: int, q: int, r: int)
    by (nonlinear_arith)
    requires
        l > 0,
        k == l * q + r,
        0 <= r < l,
        0 <= k < l * l,
    ensures
        0 <= q < l,
{
}

/// Table index arithmetic: for 0 <= k < l * l, the column k % l and the
/// row k / l both lie in [0, l).
proof fn lemma_table_coords(k: int, l: int)
    requires
        0 < l,
        0 <= k < l * l,
    ensures
        0 <= k % l < l,
        0 <= k / l < l,
{
    vstd::arithmetic::div_mod::lemma_mod_division_less_than_divisor(k, l);
    vstd::arithmetic::div_mod::lemma_fundamental_div_mod(k, l);
    lemma_div_bound(k, l, k / l, k % l);
}

impl Board {
    /// The flat cell store after a piece of kind t locks at (x, y, rot):
    /// each covered slot takes the kind's color, every other slot keeps
    /// its old cell.
    pub open spec fn spec_place_cells(
        self,
        t: Tetrimino,
        x: int,
        y: int,
        rot: int,
    ) -> Seq<Block> {
        Seq::new(
            self.cells().len(),
            |i: int|
                if spec_covers(
                    t,
                    x,
                    y,
                    rot,
                    i % self.spec_width(),
                    i / self.spec_width(),
                ) {
                    Block { ty: spec_color(t) }
                } else {
                    self.cells()[i]
                },
        )
    }

    /// A valid placement keeps the anchor within three cells of the
    /// board: some table cell is filled, and that cell must land on the
    /// board.
    pub proof fn lemma_valid_anchor_bounds(self, t: Tetrimino, x: int, y: int, rot: int)
        requires
            self.wf(),
            self.spec_valid_placement(t, x, y, rot),
        ensures
            -3 <= x < self.spec_width(),
            -3 <= y < self.spec_height(),
    {
        crate::tetrimino::lemma_some_filled(t, rot);
        let l = spec_length(t);
        let tbl = spec_blocks(t, norm_rotation(rot));
        let k = choose|k: int| 0 <= k < l * l && tbl[k] == 1;
        lemma_table_coords(k, l);
        assert(self.cell_open(x + k % l, y + (l - 1 - k / l)));
    }

    /// Locks the piece into the grid if the placement is valid: every
    /// covered cell takes the kind's color, everything else is untouched.
    /// On an invalid placement nothing changes. Returns whether the
    /// placement was valid.
    pub fn place_tetrimino(
        &mut self,
        tetrimino: &Tetrimino,
        x: i32,
        y: i32,
        tetrimino_rotation: i8,
    ) -> (r: bool)
        requires
            old(self).wf(),
        ensures
            final(self).wf(),
            r == old(self).spec_valid_placement(
                *tetrimino,
                x as int,
                y as int,
                tetrimino_rotation as int,
            ),
            !r ==> *final(self) == *old(self),
            final(self).spec_width() == old(self).spec_width(),
            final(self).spec_height() == old(self).spec_height(),
            final(self).same_piece(*old(self)),
            r ==> final(self).cells() == old(self).spec_place_cells(
                *tetrimino,
                x as int,
                y as int,
                tetrimino_rotation as int,
            ),
    {
        let valid = self.tetrimino_valid(tetrimino, x, y, tetrimino_rotation);
        if valid {
            let ghost orig = *self;
            let ghost xi = x as int;
            let ghost yi = y as int;
            let ghost roti = tetrimino_rotation as int;
            let ghost t = *tetrimino;
            let ghost l = spec_length(t);
            let len: i32 = tetrimino.get_length();
            let blocks: Vec<u8> = tetrimino.get_blocks(tetrimino_rotation);
            let color: Color = tetrimino.get_color();
            let total: i32 = len * len;
            let mut k: i32 = 0;
            while k < total
                invariant
                    self.wf(),
                    orig.wf(),
                    self.spec_width() == orig.spec_width(),
                    self.spec_height() == orig.spec_height(),
                    self.same_piece(orig),
                    0 <= k <= total,
                    xi == x as int,
                    yi == y as int,
                    t == *tetrimino,
                    len == l,
                    3 <= len <= 4,
                    l == spec_length(t),
                    total == len * len,
                    blocks@ == spec_blocks(t, norm_rotation(roti)),
                    blocks@.len() == total,
                    color == spec_color(t),
                    orig.spec_valid_placement(t, xi, yi, roti),
                    forall|bx: int, by: int|
                        self.in_bounds(bx, by) && spec_covers_prefix(
                            t,
                            xi,
                            yi,
                            roti,
                            bx,
                            by,
                            k as int,
                        ) ==> #[trigger] self.spec_cell(bx, by) == (Block { ty: color }),
                    forall|bx: int, by: int|
                        self.in_bounds(bx, by) && !spec_covers_prefix(
                            t,
                            xi,
                            yi,
                            roti,
                            bx,
                            by,
                            k as int,
                        ) ==> #[trigger] self.spec_cell(bx, by) == orig.spec_cell(bx, by),
                decreases total - k,
            {
                let ghost prev = *self;
                if blocks[k as usize] == 1 {
                    proof {
                        lemma_table_coords(k as int, l);
                        assert(orig.cell_open(
                            xi + (k as int) % l,
                            yi + (l - 1 - (k as int) / l),
                        ));
                    }
                    let cx: usize = (k as usize) % (len as usize);
                    let cyrow: usize = (k as usize) / (len as usize);
                    proof {
                        assert(cx == (k as int) % l && cyrow == (k as int) / l);
                        assert(cx < l && cyrow < l);
                        assert(orig.in_bounds(xi + cx, yi + (l - 1 - cyrow)));
                        assert(0 <= xi + cx < orig.spec_width());
                        assert(0 <= yi + (l - 1 - cyrow) < orig.spec_height());
                    }
                    let bx: i32 = x + cx as i32;
                    let by: i32 = y + (len - 1 - cyrow as i32);
                    self.set_block_at(bx as usize, by as usize, Block { ty: color });
                }
                proof {
                    let ki = k as int;
                    assert forall|bx: int, by: int|
                        self.in_bounds(bx, by) && spec_covers_prefix(
                            t,
                            xi,
                            yi,
                            roti,
                            bx,
                            by,
                            ki + 1,
                        ) implies #[trigger] self.spec_cell(bx, by) == (Block {
                        ty: color,
                    }) by {
                        let k2 = choose|k2: int|
                            0 <= k2 < ki + 1 && spec_blocks(t, norm_rotation(roti))[k2]
                                == 1 && bx == xi + k2 % l && by == yi + (l - 1 - k2 / l);
                        if k2 < ki {
                            assert(spec_covers_prefix(t, xi, yi, roti, bx, by, ki));
                            if blocks@[ki] == 1 && bx == xi + ki % l && by == yi + (l - 1
                                - ki / l) {
                            } else {
                                assert(prev.spec_cell(bx, by) == (Block { ty: color }));
                            }
                        }
                    }
                    assert forall|bx: int, by: int|
                        self.in_bounds(bx, by) && !spec_covers_prefix(
                            t,
                            xi,
                            yi,
                            roti,
                            bx,
                            by,
                            ki + 1,
                        ) implies #[trigger] self.spec_cell(bx, by) == orig.spec_cell(
                        bx,
                        by,
                    ) by {
                        assert(!spec_covers_prefix(t, xi, yi, roti, bx, by, ki));
                        if blocks@[ki] == 1 {
                            assert(!(bx == xi + ki % l && by == yi + (l - 1 - ki / l)));
                        }
                    }
                }
                k = k + 1;
            }
            proof {
                self.lemma_place_cells_form(orig, t, xi, yi, roti, color);
            }
        }
        valid
    }

    /// Converts the coordinate-wise description of a lock into the flat
    /// sequence form.
    proof fn lemma_place_cells_form(
        self,
        orig: Board,
        t: Tetrimino,
        x: int,
        y: int,
        rot: int,
        color: Color,
    )
        requires
            orig.wf(),
            self.wf(),
            self.spec_width() == orig.spec_width(),
            self.spec_height() == orig.spec_height(),
            color == spec_color(t),
            forall|bx: int, by: int|
                self.in_bounds(bx, by) && spec_covers(t, x, y, rot, bx, by)
                    ==> #[trigger] self.spec_cell(bx, by) == (Block { ty: color }),
            forall|bx: int, by: int|
                self.in_bounds(bx, by) && !spec_covers(t, x, y, rot, bx, by)
                    ==> #[trigger] self.spec_cell(bx, by) == orig.spec_cell(bx, by),
        ensures
            self.cells() == orig.spec_place_cells(t, x, y, rot),
    {
        let w = self.spec_width();
        let h = self.spec_height();
        let rhs = orig.spec_place_cells(t, x, y, rot);
        assert forall|i: int| 0 <= i < self.cells().len() implies self.cells()[i]
            == rhs[i] by {
            assert(w * h > 0);
            assert(w > 0) by (nonlinear_arith)
                requires
                    w * h > 0,
                    w >= 0,
            ;
            vstd::arithmetic::div_mod::lemma_mod_division_less_than_divisor(i, w);
            vstd::arithmetic::div_mod::lemma_fundamental_div_mod(i, w);
            let cx = i % w;
            let cy = i / w;
            assert(0 <= cy < h) by (nonlinear_arith)
                requires
                    i == w * cy + cx,
                    0 <= cx < w,
                    0 <= i < w * h,
                    w > 0,
            ;
            assert(i == w * cy + cx);
            assert(w * cy == cy * w) by (nonlinear_arith);
            assert(i == cy * w + cx);
            assert(self.spec_cell(cx, cy) == self.cells()[i]);
            assert(orig.spec_cell(cx, cy) == orig.cells()[i]);
            assert(self.in_bounds(cx, cy));
        }
        assert(self.cells() =~= rhs);
    }
}

/// A flat cell store cut into its rows, bottom to top.
pub open spec fn rows_of(cells: Seq<Block>, w: int, h: int) -> Seq<Seq<Block>> {
    Seq::new(h as nat, |y: int| cells.subrange(y * w, y * w + w))
}

/// One gravity step: what a downward tick leaves of the board. `moved`
/// reports whether the piece simply fell one row. On a failed fall from a
/// valid position the piece locks, full rows clear, and a fresh piece
/// spawns at the fixed anchor with rotation 0; the game-over flag is then
/// raised exactly when that fresh piece's placement is invalid on the
/// cleared grid. A failed fall from an invalid position (a topped-out
/// spawn) raises the game-over flag and touches nothing else. When the
/// game is already over or no piece is falling, nothing changes.
pub open spec fn gravity_step_spec(pre: Board, post: Board, moved: bool) -> bool {
    let w = pre.spec_width();
    let h = pre.spec_height();
    let t = pre.spec_piece()->0;
    let px = pre.spec_pos_x();
    let py = pre.spec_pos_y();
    let rot = pre.spec_rotation();
    &&& post.spec_width() == w
    &&& post.spec_height() == h
    &&& moved == (!pre.spec_game_over() && pre.spec_piece_valid_at(0, -1, rot))
    &&& (pre.spec_game_over() || pre.spec_piece() is None) ==> post == pre
    &&& moved ==> {
        &&& post.same_grid(pre)
        &&& post.spec_piece() == pre.spec_piece()
        &&& post.spec_pos_x() == px
        &&& post.spec_pos_y() == py - 1
        &&& post.spec_rotation() == rot
        &&& post.spec_game_over() == pre.spec_game_over()
    }
    &&& (!pre.spec_game_over() && pre.spec_piece() is Some && !pre.spec_piece_valid_at(
        0,
        -1,
        rot,
    ) && pre.spec_piece_valid_at(0, 0, rot)) ==> {
        &&& post.spec_rows() == spec_cleared(
            rows_of(pre.spec_place_cells(t, px, py, rot), w, h),
            w,
            h,
        )
        &&& post.spec_piece() is Some
        &&& post.spec_pos_x() == SPAWN_X as int
        &&& post.spec_pos_y() == SPAWN_Y as int
        &&& post.spec_rotation() == 0
        &&& post.spec_game_over() == !post.spec_valid_placement(
            post.spec_piece()->0,
            SPAWN_X as int,
            SPAWN_Y as int,
            0,
        )
    }
    &&& (!pre.spec_game_over() && pre.spec_piece() is Some && !pre.spec_piece_valid_at(
        0,
        -1,
        rot,
    ) && !pre.spec_piece_valid_at(0, 0, rot)) ==> {
        &&& post.same_grid(pre)
        &&& post.spec_piece() == pre.spec_piece()
        &&& post.spec_pos_x() == px
        &&& post.spec_pos_y() == py
        &&& post.spec_rotation() == rot
        &&& post.spec_game_over()
    }
}

impl Board {
    /// The falling piece exists and may stand at its anchor shifted by
    /// (dx, dy) with the given rotation.
    pub open spec fn spec_piece_valid_at(self, dx: int, dy: int, rot: int) -> bool {
        &&& self.spec_piece() is Some
        &&& self.spec_valid_placement(
            self.spec_piece()->0,
            self.spec_pos_x() + dx,
            self.spec_pos_y() + dy,
            rot,
        )
    }

    /// The rows view is the flat store cut into rows.
    pub proof fn lemma_rows_of(self)
        ensures
            self.spec_rows() == rows_of(
                self.cells(),
                self.spec_width(),
                self.spec_height(),
            ),
    {
        let rhs = rows_of(self.cells(), self.spec_width(), self.spec_height());
        assert forall|y: int| 0 <= y < self.spec_height() implies self.spec_rows()[y]
            == rhs[y] by {
            assert(self.spec_rows()[y] == self.spec_row(y));
        }
        assert(self.spec_rows() =~= rhs);
    }

    /// Hands the falling piece its place: kind, anchor and rotation
    /// (normalized modulo 4). The settled cells are untouched. The
    /// placement is not checked here; a colliding placement is caught by
    /// the next command that consults the validator.
    pub fn set_current_tetrimino(
        &mut self,
        tetrimino: &Tetrimino,
        pos_x: i32,
        pos_y: i32,
        rotation: i8,
    )
        requires
            old(self).wf(),
        ensures
            final(self).wf(),
            final(self).same_grid(*old(self)),
            final(self).spec_game_over() == old(self).spec_game_over(),
            final(self).spec_piece() == Some(*tetrimino),
            final(self).spec_pos_x() == pos_x as int,
            final(self).spec_pos_y() == pos_y as int,
            final(self).spec_rotation() == norm_rotation(rotation as int),
    {
        let shifted: u16 = (rotation as i16 + 512) as u16;
        let rr: i8 = (shifted % 4) as i8;
        proof {
            vstd::arithmetic::div_mod::lemma_mod_multiples_vanish(
                128,
                rotation as int,
                4,
            );
            vstd::arithmetic::div_mod::lemma_mod_division_less_than_divisor(
                rotation as int,
                4,
            );
        }
        self.current_tetrimino = Some(*tetrimino);
        self.current_tetrimino_pos_x = pos_x;
        self.current_tetrimino_pos_y = pos_y;
        self.current_tetrimino_rotation = rr;
    }

    /// Whether the falling piece may stand at its anchor shifted by
    /// (off_x, off_y) with the given rotation; false when no piece is
    /// falling.
    pub fn current_tetrimino_valid(&self, off_x: i32, off_y: i32, rot: i8) -> (r: bool)
        requires
            self.wf(),
        ensures
            r == self.spec_piece_valid_at(off_x as int, off_y as int, rot as int),
    {
        match self.current_tetrimino {
            None => false,
            Some(t) => {
                let nx: i64 = self.current_tetrimino_pos_x as i64 + off_x as i64;
                let ny: i64 = self.current_tetrimino_pos_y as i64 + off_y as i64;
                if nx < -3 || nx > 0x7fff_ffff || ny < -3 || ny > 0x7fff_ffff {
                    proof {
                        if self.spec_valid_placement(
                            t,
                            self.spec_pos_x() + off_x,
                            self.spec_pos_y() + off_y,
                            rot as int,
                        ) {
                            self.lemma_valid_anchor_bounds(
                                t,
                                self.spec_pos_x() + off_x,
                                self.spec_pos_y() + off_y,
                                rot as int,
                            );
                        }
                    }
                    false
                } else {
                    self.tetrimino_valid(&t, nx as i32, ny as i32, rot)
                }
            },
        }
    }

    /// Moves the falling piece one cell to the left if the new placement
    /// is valid; otherwise nothing changes. Rejected when the game is
    /// over.
    pub fn move_left(&mut self) -> (r: bool)
        requires
            old(self).wf(),
        ensures
            final(self).wf(),
            r == (!old(self).spec_game_over() && old(self).spec_piece_valid_at(
                -1,
                0,
                old(self).spec_rotation(),
            )),
            r ==> final(self).same_grid(*old(self)) && final(self).spec_piece() == old(self).spec_piece() && final(self).spec_pos_x() == old(self).spec_pos_x() - 1
                && final(self).spec_pos_y() == old(self).spec_pos_y() && final(self).spec_rotation() == old(self).spec_rotation() && final(self).spec_game_over()
                == old(self).spec_game_over(),
            !r ==> *final(self) == *old(self),
    {
        if self.game_over {
            return false;
        }
        let valid = self.current_tetrimino_valid(-1, 0, self.current_tetrimino_rotation);
        if valid {
            proof {
                let t = self.spec_piece()->0;
                self.lemma_valid_anchor_bounds(
                    t,
                    self.spec_pos_x() - 1,
                    self.spec_pos_y(),
                    self.spec_rotation(),
                );
            }
            self.current_tetrimino_pos_x = self.current_tetrimino_pos_x - 1;
        }
        valid
    }

    /// Moves the falling piece one cell to the right if the new placement
    /// is valid; otherwise nothing changes. Rejected when the game is
    /// over.
    pub fn move_right(&mut self) -> (r: bool)
        requires
            old(self).wf(),
        ensures
            final(self).wf(),
            r == (!old(self).spec_game_over() && old(self).spec_piece_valid_at(
                1,
                0,
                old(self).spec_rotation(),
            )),
            r ==> final(self).same_grid(*old(self)) && final(self).spec_piece() == old(self).spec_piece() && final(self).spec_pos_x() == old(self).spec_pos_x() + 1
                && final(self).spec_pos_y() == old(self).spec_pos_y() && final(self).spec_rotation() == old(self).spec_rotation() && final(self).spec_game_over()
                == old(self).spec_game_over(),
            !r ==> *final(self) == *old(self),
    {
        if self.game_over {
            return false;
        }
        let valid = self.current_tetrimino_valid(1, 0, self.current_tetrimino_rotation);
        if valid {
            proof {
                let t = self.spec_piece()->0;
                self.lemma_valid_anchor_bounds(
                    t,
                    self.spec_pos_x() + 1,
                    self.spec_pos_y(),
                    self.spec_rotation(),
                );
            }
            self.current_tetrimino_pos_x = self.current_tetrimino_pos_x + 1;
        }
        valid
    }

    /// Rotates the falling piece one step counter-clockwise (rotation
    /// index minus one, modulo 4) if the piece may stand at its unchanged
    /// anchor in the new rotation; no wall-kick search is made, a
    /// colliding rotation is rejected outright. Rejected when the game is
    /// over.
    pub fn rotate_left(&mut self) -> (r: bool)
        requires
            old(self).wf(),
        ensures
            final(self).wf(),
            r == (!old(self).spec_game_over() && old(self).spec_piece_valid_at(
                0,
                0,
                norm_rotation(old(self).spec_rotation() - 1),
            )),
            r ==> final(self).same_grid(*old(self)) && final(self).spec_piece() == old(self).spec_piece() && final(self).spec_pos_x() == old(self).spec_pos_x() && final(self).spec_pos_y() == old(self).spec_pos_y() && final(self).spec_rotation()
                == norm_rotation(old(self).spec_rotation() - 1) && final(self).spec_game_over() == old(self).spec_game_over(),
            !r ==> *final(self) == *old(self),
    {
        if self.game_over {
            return false;
        }
        let next: i8 = if self.current_tetrimino_rotation == 0 {
            3
        } else {
            self.current_tetrimino_rotation - 1
        };
        proof {
            lemma_norm_rotation_step(self.spec_rotation());
        }
        let valid = self.current_tetrimino_valid(0, 0, next);
        if valid {
            self.current_tetrimino_rotation = next;
        }
        valid
    }

    /// Rotates the falling piece one step clockwise (rotation index plus
    /// one, modulo 4) if the piece may stand at its unchanged anchor in
    /// the new rotation; no wall-kick search is made. Rejected when the
    /// game is over.
    pub fn rotate_right(&mut self) -> (r: bool)
        requires
            old(self).wf(),
        ensures
            final(self).wf(),
            r == (!old(self).spec_game_over() && old(self).spec_piece_valid_at(
                0,
                0,
                norm_rotation(old(self).spec_rotation() + 1),
            )),
            r ==> final(self).same_grid(*old(self)) && final(self).spec_piece() == old(self).spec_piece() && final(self).spec_pos_x() == old(self).spec_pos_x() && final(self).spec_pos_y() == old(self).spec_pos_y() && final(self).spec_rotation()
                == norm_rotation(old(self).spec_rotation() + 1) && final(self).spec_game_over() == old(self).spec_game_over(),
            !r ==> *final(self) == *old(self),
    {
        if self.game_over {
            return false;
        }
        let next: i8 = if self.current_tetrimino_rotation == 3 {
            0
        } else {
            self.current_tetrimino_rotation + 1
        };
        proof {
            lemma_norm_rotation_step(self.spec_rotation());
        }
        let valid = self.current_tetrimino_valid(0, 0, next);
        if valid {
            self.current_tetrimino_rotation = next;
        }
        valid
    }

    /// Locks the falling piece into the grid at its current placement,
    /// which the caller must know to be valid (the last position a
    /// successful move reached), and spawns the next piece: a uniformly
    /// random kind at the fixed spawn anchor with rotation 0. Spawn
    /// validity is not checked here; a colliding spawn is the top-out
    /// condition that the next gravity step surfaces.
    pub fn place_current_tetrimino(&mut self) -> (r: bool)
        requires
            old(self).wf(),
            old(self).spec_piece() is Some,
            old(self).spec_piece_valid_at(0, 0, old(self).spec_rotation()),
        ensures
            final(self).wf(),
            r == true,
            final(self).spec_width() == old(self).spec_width(),
            final(self).spec_height() == old(self).spec_height(),
            final(self).cells() == old(self).spec_place_cells(
                old(self).spec_piece()->0,
                old(self).spec_pos_x(),
                old(self).spec_pos_y(),
                old(self).spec_rotation(),
            ),
            final(self).spec_piece() is Some,
            final(self).spec_pos_x() == SPAWN_X as int,
            final(self).spec_pos_y() == SPAWN_Y as int,
            final(self).spec_rotation() == 0,
            final(self).spec_game_over() == old(self).spec_game_over(),
    {
        let t = self.current_tetrimino.unwrap();
        let px = self.current_tetrimino_pos_x;
        let py = self.current_tetrimino_pos_y;
        let rot = self.current_tetrimino_rotation;
        let placed = self.place_tetrimino(&t, px, py, rot);
        let nt = Tetrimino::random();
        self.current_tetrimino = Some(nt);
        self.current_tetrimino_pos_x = SPAWN_X;
        self.current_tetrimino_pos_y = SPAWN_Y;
        self.current_tetrimino_rotation = 0;
        placed
    }

    /// One gravity step: tries to move the falling piece down one row.
    /// On failure from a valid position the piece locks, full rows are
    /// cleared, and the next piece spawns; a colliding spawn, or a fall
    /// attempted from an invalid placement, ends the game. Returns
    /// whether the piece moved down.
    pub fn move_down(&mut self) -> (r: bool)
        requires
            old(self).wf(),
        ensures
            final(self).wf(),
            gravity_step_spec(*old(self), *final(self), r),
    {
        let ghost orig = *self;
        if self.game_over {
            return false;
        }
        if self.current_tetrimino.is_none() {
            return false;
        }
        let valid = self.current_tetrimino_valid(0, -1, self.current_tetrimino_rotation);
        if valid {
            proof {
                let t = self.spec_piece()->0;
                self.lemma_valid_anchor_bounds(
                    t,
                    self.spec_pos_x(),
                    self.spec_pos_y() - 1,
                    self.spec_rotation(),
                );
            }
            self.current_tetrimino_pos_y = self.current_tetrimino_pos_y - 1;
        } else {
            if self.current_tetrimino_valid(0, 0, self.current_tetrimino_rotation) {
                self.place_current_tetrimino();
                let ghost mid = *self;
                self.check_and_delete_rows();
                proof {
                    mid.lemma_rows_of();
                }
                let ghost cleared = *self;
                let t2 = self.current_tetrimino.unwrap();
                let spawn_ok = self.tetrimino_valid(&t2, SPAWN_X, SPAWN_Y, 0);
                if !spawn_ok {
                    self.game_over = true;
                }
                proof {
                    assert forall|y2: int| 0 <= y2 < self.spec_height() implies
                        self.spec_rows()[y2] == cleared.spec_rows()[y2] by {
                        assert(self.spec_rows()[y2] == self.spec_row(y2));
                        assert(cleared.spec_rows()[y2] == cleared.spec_row(y2));
                    }
                    assert(self.spec_rows() =~= cleared.spec_rows());
                }
            } else {
                self.game_over = true;
            }
        }
        valid
    }

    /// The periodic tick: one gravity step, result discarded.
    pub fn update(&mut self)
        requires
            old(self).wf(),
        ensures
            final(self).wf(),
            gravity_step_spec(
                *old(self),
                *final(self),
                !old(self).spec_game_over() && old(self).spec_piece_valid_at(
                    0,
                    -1,
                    old(self).spec_rotation(),
                ),
            ),
    {
        self.move_down();
    }

    /// The query surface for a renderer: every settled occupied cell as
    /// (column, row, color), rows from the bottom up and columns left to
    /// right within a row. Exactly the in-bounds cells that are not empty
    /// appear, each with its settled color.
    pub fn occupied_cells(&self) -> (r: Vec<(usize, usize, Color)>)
        requires
            self.wf(),
        ensures
            forall|j: int|
                0 <= j < r@.len() ==> self.in_bounds(
                    (#[trigger] r@[j]).0 as int,
                    r@[j].1 as int,
                ) && r@[j].2 == self.spec_cell(r@[j].0 as int, r@[j].1 as int).ty
                    && r@[j].2 != Color::Empty,
            forall|x: int, y: int|
                self.in_bounds(x, y) && #[trigger] self.spec_cell(x, y).ty != Color::Empty
                    ==> (exists|j: int|
                    0 <= j < r@.len() && r@[j] == ((
                        x as usize,
                        y as usize,
                        self.spec_cell(x, y).ty,
                    ))),
    {
        let mut r: Vec<(usize, usize, Color)> = Vec::new();
        let mut y: usize = 0;
        while y < self.height
            invariant
                self.wf(),
                y <= self.spec_height(),
                forall|j: int|
                    0 <= j < r@.len() ==> self.in_bounds(
                        (#[trigger] r@[j]).0 as int,
                        r@[j].1 as int,
                    ) && r@[j].2 == self.spec_cell(r@[j].0 as int, r@[j].1 as int).ty
                        && r@[j].2 != Color::Empty,
                forall|x2: int, y2: int|
                    0 <= x2 < self.spec_width() && 0 <= y2 < y && #[trigger] self.spec_cell(
                        x2,
                        y2,
                    ).ty != Color::Empty ==> (exists|j: int|
                        0 <= j < r@.len() && r@[j] == ((
                            x2 as usize,
                            y2 as usize,
                            self.spec_cell(x2, y2).ty,
                        ))),
            decreases self.spec_height() - y,
        {
            let mut x: usize = 0;
            while x < self.width
                invariant
                    self.wf(),
                    y < self.spec_height(),
                    x <= self.spec_width(),
                    forall|j: int|
                        0 <= j < r@.len() ==> self.in_bounds(
                            (#[trigger] r@[j]).0 as int,
                            r@[j].1 as int,
                        ) && r@[j].2 == self.spec_cell(r@[j].0 as int, r@[j].1 as int).ty
                            && r@[j].2 != Color::Empty,
                    forall|x2: int, y2: int|
                        0 <= x2 < self.spec_width() && 0 <= y2 < y
                            && #[trigger] self.spec_cell(x2, y2).ty != Color::Empty ==> (
                        exists|j: int|
                            0 <= j < r@.len() && r@[j] == ((
                                x2 as usize,
                                y2 as usize,
                                self.spec_cell(x2, y2).ty,
                            ))),
                    forall|x2: int|
                        0 <= x2 < x && #[trigger] self.spec_cell(x2, y as int).ty
                            != Color::Empty ==> (exists|j: int|
                            0 <= j < r@.len() && r@[j] == ((
                                x2 as usize,
                                y as usize,
                                self.spec_cell(x2, y as int).ty,
                            ))),
                decreases self.spec_width() - x,
            {
                let ghost r0 = r@;
                let cell: Color = match self.get_block_at(x, y) {
                    Some(b) => b.ty,
                    None => Color::Empty,
                };
                if !matches!(cell, Color::Empty) {
                    r.push((x, y, cell));
                }
                proof {
                    if cell != Color::Empty {
                        assert(r@[r0.len() as int] == ((x, y, cell)));
                    }
                    assert forall|x2: int, y2: int|
                        0 <= x2 < self.spec_width() && 0 <= y2 < y
                            && #[trigger] self.spec_cell(x2, y2).ty != Color::Empty
                        implies (exists|j: int|
                        0 <= j < r@.len() && r@[j] == ((
                            x2 as usize,
                            y2 as usize,
                            self.spec_cell(x2, y2).ty,
                        ))) by {
                        let j = choose|j: int|
                            0 <= j < r0.len() && r0[j] == ((
                                x2 as usize,
                                y2 as usize,
                                self.spec_cell(x2, y2).ty,
                            ));
                        assert(r@[j] == r0[j]);
                    }
                    assert forall|x2: int|
                        0 <= x2 < x + 1 && #[trigger] self.spec_cell(x2, y as int).ty
                            != Color::Empty implies (exists|j: int|
                        0 <= j < r@.len() && r@[j] == ((
                            x2 as usize,
                            y as usize,
                            self.spec_cell(x2, y as int).ty,
                        ))) by {
                        if x2 < x {
                            let j = choose|j: int|
                                0 <= j < r0.len() && r0[j] == ((
                                    x2 as usize,
                                    y as usize,
                                    self.spec_cell(x2, y as int).ty,
                                ));
                            assert(r@[j] == r0[j]);
                        } else {
                            assert(r@[r0.len() as int] == ((
                                x2 as usize,
                                y as usize,
                                self.spec_cell(x2, y as int).ty,
                            )));
                        }
                    }
                }
                x = x + 1;
            }
            y = y + 1;
        }
        r
    }

    /// The query surface for a renderer: the falling piece's occupied
    /// cells as (column, row, color), clipped to the board. Exactly the
    /// in-bounds cells that the piece covers appear, each with the kind's
    /// color; no piece, no cells.
    pub fn current_piece_cells(&self) -> (r: Vec<(usize, usize, Color)>)
        requires
            self.wf(),
        ensures
            self.spec_piece() is None ==> r@.len() == 0,
            forall|j: int|
                0 <= j < r@.len() ==> self.spec_piece() is Some && self.in_bounds(
                    (#[trigger] r@[j]).0 as int,
                    r@[j].1 as int,
                ) && spec_covers(
                    self.spec_piece()->0,
                    self.spec_pos_x(),
                    self.spec_pos_y(),
                    self.spec_rotation(),
                    r@[j].0 as int,
                    r@[j].1 as int,
                ) && r@[j].2 == spec_color(self.spec_piece()->0),
            forall|bx: int, by: int|
                self.spec_piece() is Some && self.in_bounds(bx, by) && spec_covers(
                    self.spec_piece()->0,
                    self.spec_pos_x(),
                    self.spec_pos_y(),
                    self.spec_rotation(),
                    bx,
                    by,
                ) ==> (exists|j: int|
                    0 <= j < r@.len() && r@[j] == ((
                        bx as usize,
                        by as usize,
                        spec_color(self.spec_piece()->0),
                    ))),
    {
        let mut r: Vec<(usize, usize, Color)> = Vec::new();
        let t: Tetrimino = match self.current_tetrimino {
            None => {
                return r;
            },
            Some(t) => t,
        };
        let ghost px = self.spec_pos_x();
        let ghost py = self.spec_pos_y();
        let ghost roti = self.spec_rotation();
        let ghost l = spec_length(t);
        let len: i32 = t.get_length();
        let blocks: Vec<u8> = t.get_blocks(self.current_tetrimino_rotation);
        let color: Color = t.get_color();
        let total: i32 = len * len;
        let mut k: i32 = 0;
        while k < total
            invariant
                self.wf(),
                0 <= k <= total,
                self.spec_piece() == Some(t),
                px == self.spec_pos_x(),
                py == self.spec_pos_y(),
                roti == self.spec_rotation(),
                len == l,
                3 <= len <= 4,
                l == spec_length(t),
                total == len * len,
                blocks@ == spec_blocks(t, norm_rotation(roti)),
                blocks@.len() == total,
                color == spec_color(t),
                forall|j: int|
                    0 <= j < r@.len() ==> self.in_bounds(
                        (#[trigger] r@[j]).0 as int,
                        r@[j].1 as int,
                    ) && spec_covers(t, px, py, roti, r@[j].0 as int, r@[j].1 as int)
                        && r@[j].2 == color,
                forall|bx: int, by: int|
                    self.in_bounds(bx, by) && spec_covers_prefix(
                        t,
                        px,
                        py,
                        roti,
                        bx,
                        by,
                        k as int,
                    ) ==> (exists|j: int|
                        0 <= j < r@.len() && r@[j] == ((bx as usize, by as usize, color))),
            decreases total - k,
        {
            let ghost r0 = r@;
            let ghost ki = k as int;
            if blocks[k as usize] == 1 {
                proof {
                    lemma_table_coords(ki, l);
                }
                let cx: usize = (k as usize) % (len as usize);
                let cyrow: usize = (k as usize) / (len as usize);
                let bx: i64 = self.current_tetrimino_pos_x as i64 + cx as i64;
                let by2: i64 = self.current_tetrimino_pos_y as i64 + (len - 1) as i64
                    - cyrow as i64;
                if 0 <= bx && bx < self.width as i64 && 0 <= by2 && by2
                    < self.height as i64 {
                    r.push((bx as usize, by2 as usize, color));
                    proof {
                        assert(spec_covers(t, px, py, roti, bx as int, by2 as int));
                    }
                }
            }
            proof {
                assert forall|bx: int, by: int|
                    self.in_bounds(bx, by) && spec_covers_prefix(
                        t,
                        px,
                        py,
                        roti,
                        bx,
                        by,
                        ki + 1,
                    ) implies (exists|j: int|
                    0 <= j < r@.len() && r@[j] == ((bx as usize, by as usize, color))) by {
                    let k2 = choose|k2: int|
                        0 <= k2 < ki + 1 && spec_blocks(t, norm_rotation(roti))[k2] == 1
                            && bx == px + k2 % l && by == py + (l - 1 - k2 / l);
                    if k2 < ki {
                        assert(spec_covers_prefix(t, px, py, roti, bx, by, ki));
                        let j = choose|j: int|
                            0 <= j < r0.len() && r0[j] == ((bx as usize, by as usize, color));
                        assert(r@[j] == r0[j]);
                    } else {
                        assert(r@[r0.len() as int] == ((bx as usize, by as usize, color)));
                    }
                }
            }
            k = k + 1;
        }
        r
    }

    /// The falling piece's kind, if one is falling.
    pub fn get_current_tetrimino(&self) -> (r: Option<Tetrimino>)
        ensures
            r == self.spec_piece(),
    {
        self.current_tetrimino
    }

    /// The falling piece's anchor column.
    pub fn get_current_pos_x(&self) -> (r: i32)
        ensures
            r == self.spec_pos_x(),
    {
        self.current_tetrimino_pos_x
    }

    /// The falling piece's anchor row.
    pub fn get_current_pos_y(&self) -> (r: i32)
        ensures
            r == self.spec_pos_y(),
    {
        self.current_tetrimino_pos_y
    }

    /// The falling piece's rotation index.
    pub fn get_current_rotation(&self) -> (r: i8)
        ensures
            r == self.spec_rotation(),
    {
        self.current_tetrimino_rotation
    }

    /// Whether the session has ended in a top-out.
    pub fn is_game_over(&self) -> (r: bool)
        ensures
            r == self.spec_game_over(),
    {
        self.game_over
    }
}

/// Law: writing a cell and reading the same coordinates back yields that
/// cell, and a read off the board yields nothing. `after` stands to
/// `before` as the board after `set_block_at(x, y, c)` stands to the board
/// before it.
pub proof fn lemma_set_then_get(before: Board, after: Board, x: int, y: int, c: Block)
    requires
        before.wf(),
        before.in_bounds(x, y),
        after.spec_width() == before.spec_width(),
        after.spec_height() == before.spec_height(),
        after.cells() == before.cells().update(y * before.spec_width() + x, c),
    ensures
        after.spec_cell_opt(x, y) == Some(c),
        forall|x2: int, y2: int|
            !before.in_bounds(x2, y2) ==> before.spec_cell_opt(x2, y2) is None,
{
    lemma_index_bound(x, y, before.spec_width(), before.spec_height());
}

/// Law: a rotation one step left followed by one step right, or one step
/// right followed by one step left, returns a normalized rotation index
/// to where it started.
pub proof fn lemma_rotate_round_trip(r: int)
    requires
        0 <= r < 4,
    ensures
        norm_rotation(norm_rotation(r - 1) + 1) == r,
        norm_rotation(norm_rotation(r + 1) - 1) == r,
{
    lemma_norm_rotation_step(r);
    lemma_norm_rotation_step(norm_rotation(r - 1));
    lemma_norm_rotation_step(norm_rotation(r + 1));
}

/// Stepping a normalized rotation index down and up by one, modulo 4.
proof fn lemma_norm_rotation_step(r: int)
    requires
        0 <= r < 4,
    ensures
        norm_rotation(r - 1) == if r == 0 {
            3int
        } else {
            r - 1
        },
        norm_rotation(r + 1) == if r == 3 {
            0int
        } else {
            r + 1
        },
{
    if r == 0 {
        vstd::arithmetic::div_mod::lemma_fundamental_div_mod_converse(-1, 4, -1, 3);
    } else {
        vstd::arithmetic::div_mod::lemma_small_mod((r - 1) as nat, 4);
    }
    if r == 3 {
        vstd::arithmetic::div_mod::lemma_fundamental_div_mod_converse(4, 4, 1, 0);
    } else {
        vstd::arithmetic::div_mod::lemma_small_mod((r + 1) as nat, 4);
    }
}

/// Distinct in-bounds coordinates have distinct flat indices.
proof fn lemma_distinct_cells(x1: int, y1: int, x2: int, y2: int, w: int)
    by (nonlinear_arith)
    requires
        0 <= x1 < w,
        0 <= x2 < w,
        0 <= y1,
        0 <= y2,
        !(x1 == x2 && y1 == y2),
    ensures
        y1 * w + x1 != y2 * w + x2,
{
}

} // verus!
