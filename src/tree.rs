//! The sparse tree backing funge space.
//!
//! A tree of level 0 is a 16x16 chunk of cells; a tree of level `l > 0` is a
//! 16x16 grid of optional subtrees of level `l - 1`. A missing subtree stands
//! for a region holding only spaces. A tree of level 7 covers the whole `u32 x
//! u32` plane, onto which the `i32` coordinates of funge space are mapped.

use vstd::prelude::*;

verus! {

/// The value of an empty cell: the space character.
pub const SPACE: i32 = 32;

/// The number of cells of a chunk, and of subtrees of a node.
pub const CHUNK_CELLS: usize = 256;

/// The level of the root of a full tree.
pub const TOP_LEVEL: u32 = 7;

/// The index, in `0..16`, that coordinate `a` selects on level `level`.
pub open spec fn nibble(a: u32, level: nat) -> int {
    ((a >> ((4 * level) as u32)) & 15u32) as int
}

/// The slot, in `0..256`, that the point `(x, y)` selects on level `level`.
pub open spec fn slot(x: u32, y: u32, level: nat) -> int {
    nibble(y, level) * 16 + nibble(x, level)
}

/// Whether `a` and `b` select the same indices on levels `0..=level`.
pub open spec fn same_path(a: u32, b: u32, level: nat) -> bool
    decreases level,
{
    nibble(a, level) == nibble(b, level) && (level == 0 || same_path(a, b, (level - 1) as nat))
}

/// A node of the tree: a chunk of cells, or a grid of subtrees.
pub enum Tree {
    /// A 16x16 chunk of cells, row by row.
    Leaf(Vec<i32>),
    /// A 16x16 grid of subtrees, row by row.
    Branch(Vec<Option<Box<Tree>>>),
}

impl Tree {
    /// The tree is well formed for the given level: chunks sit at level 0,
    /// and every grid holds 256 slots.
    pub open spec fn wf(self, level: nat) -> bool
        decreases level,
    {
        match self {
            Tree::Leaf(c) => level == 0 && c@.len() == CHUNK_CELLS,
            Tree::Branch(ch) => {
                &&& level > 0
                &&& ch@.len() == CHUNK_CELLS
                &&& forall|i: int|
                    0 <= i < CHUNK_CELLS && (#[trigger] ch@[i]) is Some ==> (*ch@[i].unwrap()).wf(
                        (level - 1) as nat,
                    )
            },
        }
    }

    /// The value of the cell at `(x, y)` in a tree of the given level.
    pub open spec fn cell(self, level: nat, x: u32, y: u32) -> i32
        decreases level,
    {
        match self {
            Tree::Leaf(c) => c@[slot(x, y, 0)],
            Tree::Branch(ch) => {
                if level == 0 {
                    SPACE
                } else {
                    match ch@[slot(x, y, level)] {
                        Some(b) => (*b).cell((level - 1) as nat, x, y),
                        None => SPACE,
                    }
                }
            },
        }
    }

    /// Creates a tree of the given level that holds only spaces.
    pub fn empty(level: u32) -> (t: Tree)
        ensures
            t.wf(level as nat),
            forall|a: u32, b: u32| #[trigger] t.cell(level as nat, a, b) == SPACE,
    {
        if level == 0 {
            let mut c: Vec<i32> = Vec::new();
            let mut i: usize = 0;
            while i < CHUNK_CELLS
                invariant
                    i <= CHUNK_CELLS,
                    c@.len() == i,
                    forall|j: int| 0 <= j < i ==> c@[j] == SPACE,
                decreases CHUNK_CELLS - i,
            {
                c.push(SPACE);
                i = i + 1;
            }
            proof {
                assert forall|a: u32, b: u32| 0 <= #[trigger] slot(a, b, 0) < 256 by {
                    lemma_nibble_bound(a, 0);
                    lemma_nibble_bound(b, 0);
                }
            }
            Tree::Leaf(c)
        } else {
            let mut ch: Vec<Option<Box<Tree>>> = Vec::new();
            let mut i: usize = 0;
            while i < CHUNK_CELLS
                invariant
                    i <= CHUNK_CELLS,
                    ch@.len() == i,
                    forall|j: int| 0 <= j < i ==> ch@[j] is None,
                decreases CHUNK_CELLS - i,
            {
                ch.push(None);
                i = i + 1;
            }
            proof {
                assert forall|a: u32, b: u32| 0 <= #[trigger] slot(a, b, level as nat) < 256 by {
                    lemma_nibble_bound(a, level as nat);
                    lemma_nibble_bound(b, level as nat);
                }
            }
            Tree::Branch(ch)
        }
    }

    /// Reads the cell at `(x, y)`.
    pub fn get(&self, level: u32, x: u32, y: u32) -> (r: i32)
        requires
            self.wf(level as nat),
            level <= TOP_LEVEL,
        ensures
            r == self.cell(level as nat, x, y),
        decreases level,
    {
        let i = index(x, y, level);
        match self {
            Tree::Leaf(c) => c[i],
            Tree::Branch(ch) => match &ch[i] {
                Some(b) => b.get(level - 1, x, y),
                None => SPACE,
            },
        }
    }

    /// Writes `v` to the cell at `(x, y)` and returns the value it held.
    ///
    /// Writing a space into a missing subtree allocates nothing.
    pub fn set(&mut self, level: u32, x: u32, y: u32, v: i32) -> (r: i32)
        requires
            old(self).wf(level as nat),
            level <= TOP_LEVEL,
        ensures
            final(self).wf(level as nat),
            r == old(self).cell(level as nat, x, y),
            forall|a: u32, b: u32| #[trigger]
                final(self).cell(level as nat, a, b) == if same_path(a, x, level as nat)
                    && same_path(b, y, level as nat) {
                    v
                } else {
                    old(self).cell(level as nat, a, b)
                },
        decreases level,
    {
        let i = index(x, y, level);
        proof {
            lemma_same_path_refl(x, level as nat);
            lemma_same_path_refl(y, level as nat);
            if level > 0 {
                lemma_same_path_refl(x, (level - 1) as nat);
                lemma_same_path_refl(y, (level - 1) as nat);
            }
            assert forall|a: u32, b: u32|
                (slot(a, b, level as nat) == slot(x, y, level as nat)) == (nibble(a, level as nat)
                    == nibble(x, level as nat) && nibble(b, level as nat) == nibble(
                    y,
                    level as nat,
                )) by {
                lemma_nibble_bound(a, level as nat);
                lemma_nibble_bound(b, level as nat);
                lemma_nibble_bound(x, level as nat);
                lemma_nibble_bound(y, level as nat);
            }
        }
        let mut node = Tree::Leaf(Vec::new());
        std::mem::swap(self, &mut node);
        let r = match node {
            Tree::Leaf(mut c) => {
                let r = c[i];
                let ghost old_c = c@;
                c.set(i, v);
                assert(c@[slot(x, y, 0)] == v);
                assert forall|a: u32, b: u32| #[trigger]
                    c@[slot(a, b, 0)] == if same_path(a, x, 0) && same_path(b, y, 0) {
                        v
                    } else {
                        old_c[slot(a, b, 0)]
                    } by {
                    lemma_nibble_bound(a, 0);
                    lemma_nibble_bound(b, 0);
                }
                *self = Tree::Leaf(c);
                r
            },
            Tree::Branch(mut ch) => {
                let ghost old_ch = ch@;
                proof {
                    lemma_cell_grid(ch, level as nat);
                }
                let mut child: Option<Box<Tree>> = None;
                ch.set_and_swap(i, &mut child);
                let r = match child {
                    Some(b) => {
                        let mut t = *b;
                        let r = t.set(level - 1, x, y, v);
                        ch.set(i, Some(Box::new(t)));
                        proof {
                            lemma_branch_set(old_ch, ch@, level as nat, x, y, v);
                        }
                        assert(ch@ =~= old_ch.update(i as int, Some(Box::new(t))));
                        r
                    },
                    None => {
                        if v == SPACE {
                            ch.set(i, None);
                            assert(ch@ =~= old_ch);
                            SPACE
                        } else {
                            let mut t = Tree::empty(level - 1);
                            let r = t.set(level - 1, x, y, v);
                        ch.set(i, Some(Box::new(t)));
                            proof {
                                lemma_branch_set(old_ch, ch@, level as nat, x, y, v);
                            }
                            assert(ch@ =~= old_ch.update(i as int, Some(Box::new(t))));
                            r
                        }
                    },
                };
                proof {
                    lemma_cell_grid(ch, level as nat);
                }
                *self = Tree::Branch(ch);
                r
            },
        };
        r
    }
}

/// The value of the cell at `(a, b)` in a grid of subtrees of the given level.
pub open spec fn grid_cell(ch: Seq<Option<Box<Tree>>>, level: nat, a: u32, b: u32) -> i32 {
    match ch[slot(a, b, level)] {
        Some(o) => (*o).cell((level - 1) as nat, a, b),
        None => SPACE,
    }
}

/// A cell of a node of a positive level is the cell of its grid.
pub proof fn lemma_cell_grid(ch: Vec<Option<Box<Tree>>>, level: nat)
    requires
        level > 0,
    ensures
        forall|a: u32, b: u32| #[trigger]
            Tree::Branch(ch).cell(level, a, b) == grid_cell(ch@, level, a, b),
{
}

/// Replacing the subtree on the path of `(x, y)` by one in which only the
/// cells on that path changed, to `v`, changes only those cells of the node.
proof fn lemma_branch_set(
    old_ch: Seq<Option<Box<Tree>>>,
    new_ch: Seq<Option<Box<Tree>>>,
    level: nat,
    x: u32,
    y: u32,
    v: i32,
)
    requires
        level > 0,
        old_ch.len() == CHUNK_CELLS,
        new_ch.len() == CHUNK_CELLS,
        forall|j: int| 0 <= j < CHUNK_CELLS && j != slot(x, y, level) ==> new_ch[j] == old_ch[j],
        new_ch[slot(x, y, level)] is Some,
        forall|a: u32, b: u32| #[trigger]
            (*new_ch[slot(x, y, level)].unwrap()).cell((level - 1) as nat, a, b) == if same_path(
                a,
                x,
                (level - 1) as nat,
            ) && same_path(b, y, (level - 1) as nat) {
                v
            } else {
                match old_ch[slot(x, y, level)] {
                    Some(o) => (*o).cell((level - 1) as nat, a, b),
                    None => SPACE,
                }
            },
    ensures
        forall|a: u32, b: u32| #[trigger]
            grid_cell(new_ch, level, a, b) == if same_path(a, x, level) && same_path(
                b,
                y,
                level,
            ) {
                v
            } else {
                grid_cell(old_ch, level, a, b)
            },
{
    assert forall|a: u32, b: u32| #[trigger]
        grid_cell(new_ch, level, a, b) == if same_path(a, x, level) && same_path(
            b,
            y,
            level,
        ) {
            v
        } else {
            grid_cell(old_ch, level, a, b)
        } by {
        lemma_nibble_bound(a, level);
        lemma_nibble_bound(b, level);
        lemma_nibble_bound(x, level);
        lemma_nibble_bound(y, level);
    }
}

/// Every coordinate selects its own path.
pub proof fn lemma_same_path_refl(a: u32, level: nat)
    ensures
        same_path(a, a, level),
    decreases level,
{
    if level > 0 {
        lemma_same_path_refl(a, (level - 1) as nat);
    }
}

/// Every index that a coordinate selects lies in `0..16`.
pub proof fn lemma_nibble_bound(a: u32, level: nat)
    ensures
        0 <= nibble(a, level) < 16,
{
    let s = (4 * level) as u32;
    assert((a >> s) & 15u32 <= 15u32) by (bit_vector);
}

/// Two coordinates select the same path through a full tree exactly when
/// they are equal.
pub proof fn lemma_same_path_top(a: u32, b: u32)
    ensures
        same_path(a, b, TOP_LEVEL as nat) == (a == b),
{
    reveal_with_fuel(same_path, 8);
    assert(nibble(a, 0) == ((a >> 0u32) & 15u32) as int);
    assert(nibble(a, 1) == ((a >> 4u32) & 15u32) as int);
    assert(nibble(a, 2) == ((a >> 8u32) & 15u32) as int);
    assert(nibble(a, 3) == ((a >> 12u32) & 15u32) as int);
    assert(nibble(a, 4) == ((a >> 16u32) & 15u32) as int);
    assert(nibble(a, 5) == ((a >> 20u32) & 15u32) as int);
    assert(nibble(a, 6) == ((a >> 24u32) & 15u32) as int);
    assert(nibble(a, 7) == ((a >> 28u32) & 15u32) as int);
    assert(nibble(b, 0) == ((b >> 0u32) & 15u32) as int);
    assert(nibble(b, 1) == ((b >> 4u32) & 15u32) as int);
    assert(nibble(b, 2) == ((b >> 8u32) & 15u32) as int);
    assert(nibble(b, 3) == ((b >> 12u32) & 15u32) as int);
    assert(nibble(b, 4) == ((b >> 16u32) & 15u32) as int);
    assert(nibble(b, 5) == ((b >> 20u32) & 15u32) as int);
    assert(nibble(b, 6) == ((b >> 24u32) & 15u32) as int);
    assert(nibble(b, 7) == ((b >> 28u32) & 15u32) as int);
    assert((((a >> 0u32) & 15u32) == ((b >> 0u32) & 15u32) && ((a >> 4u32) & 15u32) == ((b
        >> 4u32) & 15u32) && ((a >> 8u32) & 15u32) == ((b >> 8u32) & 15u32) && ((a >> 12u32)
        & 15u32) == ((b >> 12u32) & 15u32) && ((a >> 16u32) & 15u32) == ((b >> 16u32) & 15u32)
        && ((a >> 20u32) & 15u32) == ((b >> 20u32) & 15u32) && ((a >> 24u32) & 15u32) == ((b
        >> 24u32) & 15u32) && ((a >> 28u32) & 15u32) == ((b >> 28u32) & 15u32)) == (a == b))
        by (bit_vector);
}

/// The slot that `(x, y)` selects on the given level.
fn index(x: u32, y: u32, level: u32) -> (i: usize)
    requires
        level <= TOP_LEVEL,
    ensures
        i == slot(x, y, level as nat),
        i < CHUNK_CELLS,
{
    let s = 4 * level;
    let nx = (x >> s) & 15;
    let ny = (y >> s) & 15;
    proof {
        lemma_nibble_bound(x, level as nat);
        lemma_nibble_bound(y, level as nat);
    }
    (ny as usize) * 16 + (nx as usize)
}

} // verus!
