//! Funge space: a total map from points to cells, with its bounding box.

use vstd::prelude::*;
use vstd::set_lib::{lemma_int_range, lemma_len_subset, lemma_map_size, set_int_range};

use crate::axis::Axis;
use crate::point::{Delta, Point};
use crate::text::chars_of;
use crate::tree::{lemma_same_path_top, same_path, Tree, SPACE, TOP_LEVEL};

verus! {

/// The occupied points of `s` in column `x`.
pub open spec fn column(s: Set<Point>, x: i32) -> Set<Point> {
    s.filter(|p: Point| p.x == x)
}

/// The occupied points of `s` in row `y`.
pub open spec fn row(s: Set<Point>, y: i32) -> Set<Point> {
    s.filter(|p: Point| p.y == y)
}

/// `m` is the least x coordinate of the points of `s`, or 0 if `s` is empty.
pub open spec fn is_least_x(s: Set<Point>, m: i32) -> bool {
    if s.is_empty() {
        m == 0
    } else {
        (exists|p: Point| s.contains(p) && p.x == m) && forall|p: Point| s.contains(p) ==> m <= p.x
    }
}

/// `m` is the greatest x coordinate of the points of `s`, or 0 if `s` is empty.
pub open spec fn is_greatest_x(s: Set<Point>, m: i32) -> bool {
    if s.is_empty() {
        m == 0
    } else {
        (exists|p: Point| s.contains(p) && p.x == m) && forall|p: Point| s.contains(p) ==> p.x <= m
    }
}

/// `m` is the least y coordinate of the points of `s`, or 0 if `s` is empty.
pub open spec fn is_least_y(s: Set<Point>, m: i32) -> bool {
    if s.is_empty() {
        m == 0
    } else {
        (exists|p: Point| s.contains(p) && p.y == m) && forall|p: Point| s.contains(p) ==> m <= p.y
    }
}

/// `m` is the greatest y coordinate of the points of `s`, or 0 if `s` is empty.
pub open spec fn is_greatest_y(s: Set<Point>, m: i32) -> bool {
    if s.is_empty() {
        m == 0
    } else {
        (exists|p: Point| s.contains(p) && p.y == m) && forall|p: Point| s.contains(p) ==> p.y <= m
    }
}

/// The space in which a Befunge-98 program resides.
///
/// Cells are kept in a sparse tree of 16x16 chunks; a region never written
/// with anything but spaces takes no memory. Beside the tree, the space counts
/// the occupied (non-space) cells of each column and each row, from which the
/// bounding box of the occupied cells is read.
pub struct Space {
    tree: Tree,
    columns: Axis,
    rows: Axis,
    occupied_cells: Ghost<Set<Point>>,
}

impl Space {
    /// The value of the cell at `p`.
    pub closed spec fn cell(&self, p: Point) -> i32 {
        self.tree.cell(TOP_LEVEL as nat, key(p.x), key(p.y))
    }

    /// The points whose cell holds something other than a space.
    pub open spec fn occupied(&self) -> Set<Point> {
        Set::new(|p: Point| self.cell(p) != SPACE)
    }

    /// The internal invariant: the tree is well formed, and the counts of
    /// each column and row are those of the occupied cells.
    pub closed spec fn wf(&self) -> bool {
        &&& self.tree.wf(TOP_LEVEL as nat)
        &&& self.columns.wf()
        &&& self.rows.wf()
        &&& self.occupied_cells@.finite()
        &&& self.occupied_cells@ == self.occupied()
        &&& forall|x: i32| #[trigger]
            self.columns.count(x) == column(self.occupied_cells@, x).len()
        &&& forall|y: i32| #[trigger] self.rows.count(y) == row(self.occupied_cells@, y).len()
    }

    /// `self` is `old` with `v` written at `p`.
    pub open spec fn is_written(&self, old: Space, p: Point, v: i32) -> bool {
        forall|q: Point| #[trigger] self.cell(q) == if q == p {
            v
        } else {
            old.cell(q)
        }
    }

    /// The bounding box `(min, max)` of the occupied cells; `((0, 0), (0, 0))`
    /// when no cell is occupied.
    pub open spec fn has_bounds(&self, min: (i32, i32), max: (i32, i32)) -> bool {
        &&& is_least_x(self.occupied(), min.0)
        &&& is_least_y(self.occupied(), min.1)
        &&& is_greatest_x(self.occupied(), max.0)
        &&& is_greatest_y(self.occupied(), max.1)
    }

    /// Creates an empty space: every cell holds a space.
    pub fn new() -> (r: Space)
        ensures
            r.wf(),
            forall|p: Point| #[trigger] r.cell(p) == SPACE,
    {
        let r = Space {
            tree: Tree::empty(TOP_LEVEL),
            columns: Axis::new(),
            rows: Axis::new(),
            occupied_cells: Ghost(Set::empty()),
        };
        proof {
            assert(r.occupied_cells@ =~= r.occupied());
            assert forall|x: i32| #[trigger] r.columns.count(x) == column(r.occupied_cells@, x).len() by {
                assert(column(r.occupied_cells@, x) =~= Set::empty());
            }
            assert forall|y: i32| #[trigger] r.rows.count(y) == row(r.occupied_cells@, y).len() by {
                assert(row(r.occupied_cells@, y) =~= Set::empty());
            }
        }
        r
    }

    /// Retrieves the value stored at `p`; 32 (a space) where nothing else was written.
    pub fn get(&self, p: Point) -> (r: i32)
        requires
            self.wf(),
        ensures
            r == self.cell(p),
    {
        self.tree.get(TOP_LEVEL, p.x as u32, p.y as u32)
    }

    /// Puts `v` at `p`, updating the bounding box.
    ///
    /// Writing a space where no chunk exists yet allocates nothing.
    pub fn set(&mut self, p: Point, v: i32)
        requires
            old(self).wf(),
        ensures
            final(self).wf(),
            final(self).is_written(*old(self), p, v),
    {
        let ghost before = *self;
        let kx = p.x as u32;
        let ky = p.y as u32;
        assert(kx == key(p.x) && ky == key(p.y));
        let previous = self.tree.set(TOP_LEVEL, kx, ky, v);
        let ghost occ = self.occupied_cells@;
        if previous == SPACE && v != SPACE {
            proof {
                lemma_line_bound(occ, p);
            }
            self.columns.increment(p.x);
            self.rows.increment(p.y);
            self.occupied_cells = Ghost(occ.insert(p));
            proof {
                self.lemma_written_tree(before, p, v);
                self.lemma_counts_after_insert(before, occ, p);
            }
        } else if previous != SPACE && v == SPACE {
            proof {
                assert(column(occ, p.x).contains(p));
                assert(row(occ, p.y).contains(p));
            }
            self.columns.decrement(p.x);
            self.rows.decrement(p.y);
            self.occupied_cells = Ghost(occ.remove(p));
            proof {
                self.lemma_written_tree(before, p, v);
                self.lemma_counts_after_remove(before, occ, p);
            }
        } else {
            proof {
                self.lemma_written_tree(before, p, v);
                assert(self.occupied_cells@ =~= self.occupied());
            }
        }
    }

    /// The cells of `self` are those of `before` with `v` written at `p`.
    proof fn lemma_written_tree(&self, before: Space, p: Point, v: i32)
        requires
            forall|a: u32, b: u32| #[trigger]
                self.tree.cell(TOP_LEVEL as nat, a, b) == if same_path(a, key(p.x), TOP_LEVEL as nat)
                    && same_path(b, key(p.y), TOP_LEVEL as nat) {
                    v
                } else {
                    before.tree.cell(TOP_LEVEL as nat, a, b)
                },
        ensures
            self.is_written(before, p, v),
    {
        assert forall|q: Point| #[trigger] self.cell(q) == if q == p {
            v
        } else {
            before.cell(q)
        } by {
            lemma_same_path_top(key(q.x), key(p.x));
            lemma_same_path_top(key(q.y), key(p.y));
            lemma_cast_injective(q.x, p.x);
            lemma_cast_injective(q.y, p.y);
        }
    }

    /// Creates a space holding the program text `code`.
    pub fn read(code: &str) -> (r: Space)
        ensures
            r.wf(),
            forall|p: Point| #[trigger] r.cell(p) == loaded_cell(code@, p),
    {
        let chars = chars_of(code);
        let mut space = Space::new();
        let mut at = Point { x: 0, y: 0 };
        let mut i: usize = 0;
        while i < chars.len()
            invariant
                chars@ == code@,
                i <= chars@.len(),
                space.wf(),
                at == cursor(chars@.take(i as int)),
                forall|p: Point| #[trigger] space.cell(p) == loaded_cell(chars@.take(i as int), p),
            decreases chars@.len() - i,
        {
            let c = chars[i];
            proof {
                assert(chars@.take(i + 1).drop_last() =~= chars@.take(i as int));
            }
            if c == '\n' {
                at = Point { x: 0, y: at.y.wrapping_add(1) };
            } else if c == '\x0C' || c == '\r' {
            } else {
                space.set(at, c as u32 as i32);
                at = Point { x: at.x.wrapping_add(1), y: at.y };
            }
            i = i + 1;
        }
        proof {
            assert(chars@.take(i as int) =~= code@);
        }
        space
    }

    /// A column has a positive count exactly when it holds an occupied cell,
    /// and so does a row.
    proof fn lemma_count_positive(&self, k: i32)
        requires
            self.wf(),
        ensures
            (self.columns.count(k) > 0) == (exists|p: Point| #[trigger]
                self.occupied().contains(p) && p.x == k),
            (self.rows.count(k) > 0) == (exists|p: Point| #[trigger]
                self.occupied().contains(p) && p.y == k),
    {
        let occ = self.occupied_cells@;
        let c = column(occ, k);
        let r = row(occ, k);
        if self.columns.count(k) > 0 {
            assert(c.len() != 0);
            assert(c.contains(c.choose()));
        }
        if exists|p: Point| #[trigger] self.occupied().contains(p) && p.x == k {
            let p = choose|p: Point| #[trigger] self.occupied().contains(p) && p.x == k;
            assert(c.contains(p));
            assert(c.remove(p).len() + 1 == c.len());
        }
        if self.rows.count(k) > 0 {
            assert(r.len() != 0);
            assert(r.contains(r.choose()));
        }
        if exists|p: Point| #[trigger] self.occupied().contains(p) && p.y == k {
            let p = choose|p: Point| #[trigger] self.occupied().contains(p) && p.y == k;
            assert(r.contains(p));
            assert(r.remove(p).len() + 1 == r.len());
        }
    }

    /// Every count is 0 exactly when no cell is occupied.
    proof fn lemma_all_zero(&self)
        requires
            self.wf(),
        ensures
            (forall|k: i32| #[trigger] self.columns.count(k) == 0) == self.occupied().is_empty(),
            (forall|k: i32| #[trigger] self.rows.count(k) == 0) == self.occupied().is_empty(),
    {
        if !self.occupied().is_empty() {
            let p = self.occupied().choose();
            assert(self.occupied().contains(p));
            self.lemma_count_positive(p.x);
            self.lemma_count_positive(p.y);
        } else {
            assert forall|k: i32| #[trigger] self.columns.count(k) == 0 by {
                self.lemma_count_positive(k);
            }
            assert forall|k: i32| #[trigger] self.rows.count(k) == 0 by {
                self.lemma_count_positive(k);
            }
        }
    }

    /// The northwest corner of the bounding box of the occupied cells,
    /// `(0, 0)` when there is none.
    pub closed spec fn low(&self) -> (i32, i32) {
        (self.columns.low(), self.rows.low())
    }

    /// The southeast corner of the bounding box of the occupied cells,
    /// `(0, 0)` when there is none.
    pub closed spec fn high(&self) -> (i32, i32) {
        (self.columns.high(), self.rows.high())
    }

    /// Where moving from `p` by `d` leads, wrapping around the bounding box.
    pub open spec fn next(&self, p: Point, d: Delta) -> Point {
        next_point(self.low(), self.high(), p, d)
    }

    /// The corners `low` and `high` bound the occupied cells exactly.
    pub proof fn lemma_bounds(&self)
        requires
            self.wf(),
        ensures
            self.has_bounds(self.low(), self.high()),
    {
        self.lemma_all_zero();
        self.columns.lemma_extremes();
        self.rows.lemma_extremes();
        if !self.occupied().is_empty() {
            self.lemma_count_positive(self.low().0);
            self.lemma_count_positive(self.low().1);
            self.lemma_count_positive(self.high().0);
            self.lemma_count_positive(self.high().1);
            assert forall|p: Point| self.occupied().contains(p) implies self.low().0 <= p.x
                <= self.high().0 && self.low().1 <= p.y <= self.high().1 by {
                self.lemma_count_positive(p.x);
                self.lemma_count_positive(p.y);
            }
        }
    }

    /// Returns the northwest corner `(x, y)` of the bounding box of the
    /// occupied cells, `(0, 0)` when there is none.
    pub fn min(&self) -> (r: (i32, i32))
        requires
            self.wf(),
        ensures
            r == self.low(),
            is_least_x(self.occupied(), r.0),
            is_least_y(self.occupied(), r.1),
    {
        proof {
            self.lemma_bounds();
        }
        (self.columns.least(), self.rows.least())
    }

    /// Returns the southeast corner `(x, y)` of the bounding box of the
    /// occupied cells, `(0, 0)` when there is none.
    pub fn max(&self) -> (r: (i32, i32))
        requires
            self.wf(),
        ensures
            r == self.high(),
            is_greatest_x(self.occupied(), r.0),
            is_greatest_y(self.occupied(), r.1),
    {
        proof {
            self.lemma_bounds();
        }
        (self.columns.greatest(), self.rows.greatest())
    }

    /// The number of occupied cells in column `x`.
    pub fn column_count(&self, x: i32) -> (r: u64)
        requires
            self.wf(),
        ensures
            r == column(self.occupied(), x).len(),
    {
        self.columns.get(x)
    }

    /// The number of occupied cells in row `y`.
    pub fn row_count(&self, y: i32) -> (r: u64)
        requires
            self.wf(),
        ensures
            r == row(self.occupied(), y).len(),
    {
        self.rows.get(y)
    }

    /// Checks whether moving from `p` by `d` would leave the bounding box in
    /// the direction of travel, so that the move wraps around.
    pub fn is_last(&self, p: Point, d: Delta) -> (r: bool)
        requires
            self.wf(),
        ensures
            r == leaves(self.low(), self.high(), p, d),
    {
        exits(self.min(), self.max(), p, d)
    }

    /// Advances `p` by `d`, wrapping to the other side of the bounding box
    /// when `p + d` would leave it.
    ///
    /// The wrap is a single jump: back from `p` against `d` as many whole
    /// steps as stay inside the box.
    pub fn new_position(&self, p: Point, d: Delta) -> (r: Point)
        requires
            self.wf(),
        ensures
            r == self.next(p, d),
    {
        let min = self.min();
        let max = self.max();
        if exits(min, max, p, d) {
            let nx = if d.dx == 0 {
                i32::MAX as i64
            } else if d.dx > 0 {
                trunc_div(p.x as i64 - min.0 as i64, d.dx as i64)
            } else {
                trunc_div(p.x as i64 - max.0 as i64, d.dx as i64)
            };
            let ny = if d.dy == 0 {
                i32::MAX as i64
            } else if d.dy > 0 {
                trunc_div(p.y as i64 - min.1 as i64, d.dy as i64)
            } else {
                trunc_div(p.y as i64 - max.1 as i64, d.dy as i64)
            };
            let n = if nx < ny {
                nx
            } else {
                ny
            };
            proof {
                lemma_steps_bound(n, d.dx as int);
                lemma_steps_bound(n, d.dy as int);
            }
            let x = p.x as i128 - n as i128 * d.dx as i128;
            let y = p.y as i128 - n as i128 * d.dy as i128;
            Point { x: #[verifier::truncate] (x as i32), y: #[verifier::truncate] (y as i32) }
        } else {
            p.add(d)
        }
    }

    proof fn lemma_counts_after_insert(&self, before: Space, occ: Set<Point>, p: Point)
        requires
            before.wf(),
            occ == before.occupied_cells@,
            !occ.contains(p),
            self.is_written(before, p, self.cell(p)),
            self.cell(p) != SPACE,
            self.occupied_cells@ == occ.insert(p),
            forall|x: i32| #[trigger]
                self.columns.count(x) == before.columns.count(x) + if x == p.x {
                    1nat
                } else {
                    0nat
                },
            forall|y: i32| #[trigger]
                self.rows.count(y) == before.rows.count(y) + if y == p.y {
                    1nat
                } else {
                    0nat
                },
        ensures
            self.occupied_cells@ == self.occupied(),
            forall|x: i32| #[trigger]
                self.columns.count(x) == column(self.occupied_cells@, x).len(),
            forall|y: i32| #[trigger] self.rows.count(y) == row(self.occupied_cells@, y).len(),
    {
        assert(self.occupied_cells@ =~= self.occupied());
        assert forall|x: i32| #[trigger]
            self.columns.count(x) == column(self.occupied_cells@, x).len() by {
            if x == p.x {
                assert(column(occ.insert(p), x) =~= column(occ, x).insert(p));
            } else {
                assert(column(occ.insert(p), x) =~= column(occ, x));
            }
        }
        assert forall|y: i32| #[trigger] self.rows.count(y) == row(self.occupied_cells@, y).len() by {
            if y == p.y {
                assert(row(occ.insert(p), y) =~= row(occ, y).insert(p));
            } else {
                assert(row(occ.insert(p), y) =~= row(occ, y));
            }
        }
    }

    proof fn lemma_counts_after_remove(&self, before: Space, occ: Set<Point>, p: Point)
        requires
            before.wf(),
            occ == before.occupied_cells@,
            occ.contains(p),
            self.is_written(before, p, SPACE),
            self.occupied_cells@ == occ.remove(p),
            forall|x: i32| #[trigger]
                self.columns.count(x) == if x == p.x {
                    (before.columns.count(x) - 1) as nat
                } else {
                    before.columns.count(x)
                },
            forall|y: i32| #[trigger]
                self.rows.count(y) == if y == p.y {
                    (before.rows.count(y) - 1) as nat
                } else {
                    before.rows.count(y)
                },
        ensures
            self.occupied_cells@ == self.occupied(),
            forall|x: i32| #[trigger]
                self.columns.count(x) == column(self.occupied_cells@, x).len(),
            forall|y: i32| #[trigger] self.rows.count(y) == row(self.occupied_cells@, y).len(),
    {
        assert(self.occupied_cells@ =~= self.occupied());
        assert forall|x: i32| #[trigger]
            self.columns.count(x) == column(self.occupied_cells@, x).len() by {
            if x == p.x {
                assert(column(occ.remove(p), x) =~= column(occ, x).remove(p));
            } else {
                assert(column(occ.remove(p), x) =~= column(occ, x));
            }
        }
        assert forall|y: i32| #[trigger] self.rows.count(y) == row(self.occupied_cells@, y).len() by {
            if y == p.y {
                assert(row(occ.remove(p), y) =~= row(occ, y).remove(p));
            } else {
                assert(row(occ.remove(p), y) =~= row(occ, y));
            }
        }
    }
}

/// The key in the tree of an `i32` coordinate: its two's complement bits.
pub open spec fn key(a: i32) -> u32 {
    #[verifier::truncate]
    (a as u32)
}

/// Distinct coordinates have distinct keys.
proof fn lemma_cast_injective(a: i32, b: i32)
    ensures
        (key(a) == key(b)) == (a == b),
{
    assert((#[verifier::truncate] (a as u32) == #[verifier::truncate] (b as u32)) == (a == b))
        by (bit_vector);
}

/// A column or a row of a finite set of points holds at most 2^32 of them.
proof fn lemma_line_bound(s: Set<Point>, p: Point)
    requires
        s.finite(),
    ensures
        column(s, p.x).len() <= 0x1_0000_0000,
        row(s, p.y).len() <= 0x1_0000_0000,
{
    lemma_int_range(i32::MIN as int, i32::MAX as int + 1);
    let range = set_int_range(i32::MIN as int, i32::MAX as int + 1);
    let c = column(s, p.x);
    let fy = |q: Point| q.y as int;
    assert(c.map(fy).subset_of(range));
    lemma_map_size(c, c.map(fy), fy);
    lemma_len_subset(c.map(fy), range);
    let r = row(s, p.y);
    let fx = |q: Point| q.x as int;
    assert(r.map(fx).subset_of(range));
    lemma_map_size(r, r.map(fx), fx);
    lemma_len_subset(r.map(fx), range);
}

/// Characters that a loaded program skips without moving: form feed and
/// carriage return.
pub open spec fn is_skipped(c: char) -> bool {
    c == '\x0C' || c == '\r'
}

/// Where the next character of a program goes after reading `s`.
pub open spec fn cursor(s: Seq<char>) -> Point
    decreases s.len(),
{
    if s.len() == 0 {
        Point { x: 0, y: 0 }
    } else {
        let at = cursor(s.drop_last());
        let c = s.last();
        if c == '\n' {
            Point { x: 0, y: at.y.wrapping_add(1) }
        } else if is_skipped(c) {
            at
        } else {
            Point { x: at.x.wrapping_add(1), y: at.y }
        }
    }
}

/// The cell at `p` once the program text `s` is loaded into an empty space:
/// each line goes to a row, from `y = 0` down, and each character that is
/// neither a line break nor skipped to a column, from `x = 0` right.
pub open spec fn loaded_cell(s: Seq<char>, p: Point) -> i32
    decreases s.len(),
{
    if s.len() == 0 {
        SPACE
    } else {
        let c = s.last();
        if c != '\n' && !is_skipped(c) && cursor(s.drop_last()) == p {
            c as u32 as i32
        } else {
            loaded_cell(s.drop_last(), p)
        }
    }
}

/// A write leaves every other cell as it was; with `Space::new`, which holds
/// only spaces, a cell never written reads as a space.
pub proof fn lemma_write_elsewhere(before: Space, after: Space, q: Point, v: i32, p: Point)
    requires
        after.is_written(before, q, v),
        p != q,
    ensures
        after.cell(p) == before.cell(p),
{
}

/// After writing `v` at `p`, reading `p` gives `v`.
pub proof fn lemma_set_get(before: Space, after: Space, p: Point, v: i32)
    requires
        after.is_written(before, p, v),
    ensures
        after.cell(p) == v,
{
}

/// After writing something other than a space at `p`, the bounding box
/// contains `p`.
pub proof fn lemma_set_in_bounds(
    before: Space,
    after: Space,
    p: Point,
    v: i32,
    min: (i32, i32),
    max: (i32, i32),
)
    requires
        after.is_written(before, p, v),
        v != SPACE,
        after.has_bounds(min, max),
    ensures
        min.0 <= p.x <= max.0,
        min.1 <= p.y <= max.1,
{
    assert(after.occupied().contains(p));
}

/// Writing a space to a cell that holds a space changes neither the cells
/// nor the bounding box.
pub proof fn lemma_space_write_keeps_bounds(
    before: Space,
    after: Space,
    p: Point,
    min: (i32, i32),
    max: (i32, i32),
)
    requires
        after.is_written(before, p, SPACE),
        before.cell(p) == SPACE,
        before.has_bounds(min, max),
    ensures
        forall|q: Point| #[trigger] after.cell(q) == before.cell(q),
        after.has_bounds(min, max),
{
    assert(after.occupied() =~= before.occupied());
}

/// From a point inside the bounding box, the next position is `p + d` when
/// that stays inside; otherwise the wrapped position lies inside the box too.
pub proof fn lemma_next_point_in_box(min: (i32, i32), max: (i32, i32), p: Point, d: Delta)
    requires
        min.0 <= p.x <= max.0,
        min.1 <= p.y <= max.1,
    ensures
        !leaves(min, max, p, d) ==> next_point(min, max, p, d) == p.plus(d),
        min.0 <= p.x + d.dx <= max.0 && min.1 <= p.y + d.dy <= max.1 ==> next_point(
            min,
            max,
            p,
            d,
        ) == p.plus(d),
        leaves(min, max, p, d) ==> min.0 <= next_point(min, max, p, d).x <= max.0 && min.1
            <= next_point(min, max, p, d).y <= max.1,
{
    if leaves(min, max, p, d) {
        let nx = steps_back(p.x, min.0, max.0, d.dx);
        let ny = steps_back(p.y, min.1, max.1, d.dy);
        let n = if nx < ny {
            nx
        } else {
            ny
        };
        lemma_steps_back_in_box(p.x, min.0, max.0, d.dx, n);
        lemma_steps_back_in_box(p.y, min.1, max.1, d.dy, n);
    }
}

/// Going back `n` steps of `d` from `a` stays inside `[lo, hi]` when `n` is
/// between 0 and the number of steps that lead to the edge.
proof fn lemma_steps_back_in_box(a: i32, lo: i32, hi: i32, d: i32, n: int)
    requires
        lo <= a <= hi,
        0 <= n,
        d != 0 ==> n <= steps_back(a, lo, hi, d),
        0 <= steps_back(a, lo, hi, d),
    ensures
        lo <= a - n * d <= hi,
{
    if d > 0 {
        let m = a - lo;
        let d = d as int;
        assert(n * d <= m) by (nonlinear_arith)
            requires
                m >= 0,
                d >= 1,
                0 <= n <= m / d,
        ;
        assert(n * d >= 0) by (nonlinear_arith)
            requires
                d >= 1,
                0 <= n,
        ;
    } else if d < 0 {
        let m = hi - a;
        let k = -d;
        assert(n * k <= m) by (nonlinear_arith)
            requires
                m >= 0,
                k >= 1,
                0 <= n <= m / k,
        ;
        assert(n * d == -(n * k)) by (nonlinear_arith)
            requires
                k == -d,
        ;
        assert(n * k >= 0) by (nonlinear_arith)
            requires
                k >= 1,
                0 <= n,
        ;
    }
}

/// Truncating division, as Rust's `/` on integers rounds.
pub open spec fn tdiv(a: int, b: int) -> int {
    if b > 0 {
        if a >= 0 {
            a / b
        } else {
            -((-a) / b)
        }
    } else {
        if a >= 0 {
            -(a / (-b))
        } else {
            (-a) / (-b)
        }
    }
}

/// Moving from `p` by `d` leaves the box `[min, max]` in the direction of travel.
pub open spec fn leaves(min: (i32, i32), max: (i32, i32), p: Point, d: Delta) -> bool {
    ||| (d.dx >= 0 && p.x + d.dx > max.0)
    ||| (d.dx < 0 && p.x + d.dx < min.0)
    ||| (d.dy >= 0 && p.y + d.dy > max.1)
    ||| (d.dy < 0 && p.y + d.dy < min.1)
}

/// How many steps of `d` lead back from coordinate `a` to the far edge
/// `[lo, hi]` behind it; `i32::MAX` for a zero component.
pub open spec fn steps_back(a: i32, lo: i32, hi: i32, d: i32) -> int {
    if d == 0 {
        i32::MAX as int
    } else if d > 0 {
        tdiv(a - lo, d as int)
    } else {
        tdiv(a - hi, d as int)
    }
}

/// Where an instruction pointer at `p` moving by `d` goes next in a space
/// with bounding box `[min, max]`.
pub open spec fn next_point(min: (i32, i32), max: (i32, i32), p: Point, d: Delta) -> Point {
    if leaves(min, max, p, d) {
        let nx = steps_back(p.x, min.0, max.0, d.dx);
        let ny = steps_back(p.y, min.1, max.1, d.dy);
        let n = if nx < ny {
            nx
        } else {
            ny
        };
        Point {
            x: #[verifier::truncate] ((p.x - n * d.dx) as i32),
            y: #[verifier::truncate] ((p.y - n * d.dy) as i32),
        }
    } else {
        p.plus(d)
    }
}

/// Whether moving from `p` by `d` leaves the box `[min, max]`.
fn exits(min: (i32, i32), max: (i32, i32), p: Point, d: Delta) -> (r: bool)
    ensures
        r == leaves(min, max, p, d),
{
    let x = p.x as i64 + d.dx as i64;
    let y = p.y as i64 + d.dy as i64;
    (d.dx >= 0 && x > max.0 as i64) || (d.dx < 0 && x < min.0 as i64) || (d.dy >= 0 && y
        > max.1 as i64) || (d.dy < 0 && y < min.1 as i64)
}

/// Truncating division of `a` by `b`.
fn trunc_div(a: i64, b: i64) -> (r: i64)
    requires
        b != 0,
        -0x1_0000_0000 <= a <= 0x1_0000_0000,
        i32::MIN <= b <= i32::MAX,
    ensures
        r == tdiv(a as int, b as int),
        -0x1_0000_0000 <= r <= 0x1_0000_0000,
{
    proof {
        lemma_div_bound(a as int, b as int);
    }
    if b > 0 {
        if a >= 0 {
            a / b
        } else {
            -((-a) / b)
        }
    } else {
        if a >= 0 {
            -(a / (-b))
        } else {
            (-a) / (-b)
        }
    }
}

proof fn lemma_div_bound(a: int, b: int)
    requires
        b != 0,
        -0x1_0000_0000 <= a <= 0x1_0000_0000,
    ensures
        -0x1_0000_0000 <= tdiv(a, b) <= 0x1_0000_0000,
{
    let m = if a >= 0 { a } else { -a };
    let k = if b >= 0 { b } else { -b };
    assert(0 <= m / k <= m) by (nonlinear_arith)
        requires
            m >= 0,
            k >= 1,
    ;
}

proof fn lemma_steps_bound(n: i64, d: int)
    requires
        -0x1_0000_0000 <= n <= 0x1_0000_0000,
        i32::MIN <= d <= i32::MAX,
    ensures
        -0x1_0000_0000_0000_0000 < n * d < 0x1_0000_0000_0000_0000,
{
    assert(-0x1_0000_0000_0000_0000 < n * d < 0x1_0000_0000_0000_0000) by (nonlinear_arith)
        requires
            -0x1_0000_0000 <= n <= 0x1_0000_0000,
            -0x8000_0000 <= d <= 0x7fff_ffff,
    ;
}

} // verus!
