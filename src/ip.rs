//! A single instruction pointer of a running program.

use vstd::prelude::*;

use crate::point::{Delta, Point};
use crate::space::Space;
use crate::stack::{codes, popped, popped_string, pushed_string, StackStack};
use crate::tree::SPACE;

verus! {

/// The cell value of `;`, which brackets skipped stretches.
pub const SEMICOLON: i32 = 59;

/// The cell value of `"`, which toggles string mode.
pub const QUOTE: i32 = 34;

/// The most cells that one scan for a command visits.
pub const SCAN_LIMIT: u64 = u64::MAX;

/// Where a scan for the next command from `p` stops: spaces are passed, and
/// so is everything between a pair of semicolons; at most `fuel` cells are
/// passed.
pub open spec fn scan(space: Space, p: Point, d: Delta, skip: bool, fuel: nat) -> Point
    decreases fuel,
{
    if fuel == 0 {
        p
    } else {
        let v = space.cell(p);
        if v == SPACE {
            scan(space, space.next(p, d), d, skip, (fuel - 1) as nat)
        } else if v == SEMICOLON {
            scan(space, space.next(p, d), d, !skip, (fuel - 1) as nat)
        } else if skip {
            scan(space, space.next(p, d), d, skip, (fuel - 1) as nat)
        } else {
            p
        }
    }
}

/// Where passing the spaces from `p` on stops, after at most `fuel` cells.
pub open spec fn pass_spaces(space: Space, p: Point, d: Delta, fuel: nat) -> Point
    decreases fuel,
{
    if fuel == 0 || space.cell(p) != SPACE {
        p
    } else {
        pass_spaces(space, space.next(p, d), d, (fuel - 1) as nat)
    }
}

/// `ss` with its top stack replaced by `t`.
pub open spec fn replace_top(ss: Seq<Seq<i32>>, t: Seq<i32>) -> Seq<Seq<i32>> {
    ss.update(ss.len() - 1, t)
}

/// Replacing the top stack twice keeps the second replacement.
pub broadcast proof fn lemma_replace_top_twice(ss: Seq<Seq<i32>>, t1: Seq<i32>, t2: Seq<i32>)
    requires
        ss.len() >= 1,
    ensures
        #[trigger] replace_top(replace_top(ss, t1), t2) == replace_top(ss, t2),
{
    assert(replace_top(replace_top(ss, t1), t2) =~= replace_top(ss, t2));
}

/// After replacing the top stack by `t`, the top stack is `t`.
pub broadcast proof fn lemma_replace_top_last(ss: Seq<Seq<i32>>, t: Seq<i32>)
    requires
        ss.len() >= 1,
    ensures
        (#[trigger] replace_top(ss, t)).last() == t,
        replace_top(ss, t).len() == ss.len(),
{
}

/// Replacing the top stack by itself changes nothing.
pub broadcast proof fn lemma_replace_top_same(ss: Seq<Seq<i32>>)
    requires
        ss.len() >= 1,
    ensures
        #[trigger] replace_top(ss, ss.last()) == ss,
{
    assert(replace_top(ss, ss.last()) =~= ss);
}

/// The facts about replacing the top stack.
pub broadcast group group_replace_top {
    lemma_replace_top_twice,
    lemma_replace_top_last,
    lemma_replace_top_same,
}

/// An instruction pointer: a position and a direction of travel in funge
/// space, a storage offset, a stack stack, and the string mode flags.
#[derive(Debug)]
pub struct Ip {
    /// The identifier, unique within a run.
    pub id: i32,
    /// The position of the current command.
    pub position: Point,
    /// The direction of travel.
    pub delta: Delta,
    /// The storage offset used by `g`, `p` and the block instructions.
    pub storage: Point,
    /// The stack stack.
    pub stacks: StackStack,
    /// Whether the pointer is in string mode.
    pub string: bool,
    /// Whether the last cell read in string mode was a space.
    pub saw_space: bool,
}

impl Ip {
    /// The stack stack holds a stack.
    pub open spec fn wf(&self) -> bool {
        self.stacks.wf()
    }

    /// The top stack.
    pub open spec fn top(&self) -> Seq<i32> {
        self.stacks.top()
    }

    /// `self` is `old` with the given stacks, position, delta and storage
    /// offset, and the same identifier and string mode flags.
    pub open spec fn is(
        &self,
        old: Ip,
        stacks: Seq<Seq<i32>>,
        position: Point,
        delta: Delta,
        storage: Point,
    ) -> bool {
        &&& self.stacks@ == stacks
        &&& self.position == position
        &&& self.delta == delta
        &&& self.storage == storage
        &&& self.id == old.id
        &&& self.string == old.string
        &&& self.saw_space == old.saw_space
    }

    /// `self` is `old` with the top stack replaced by `t`.
    pub open spec fn with_top(&self, old: Ip, t: Seq<i32>) -> bool {
        self.is(old, replace_top(old.stacks@, t), old.position, old.delta, old.storage)
    }

    /// `self` is `old` with the delta replaced by `d`.
    pub open spec fn with_delta(&self, old: Ip, d: Delta) -> bool {
        self.is(old, old.stacks@, old.position, d, old.storage)
    }

    /// Creates an instruction pointer in the configuration it has at program
    /// start: just west of the origin, facing east, with a single empty stack,
    /// so that its first step enters the program at the origin.
    pub fn new() -> (r: Ip)
        ensures
            r.wf(),
            r.id == 0,
            r.position == (Point { x: -1i32, y: 0 }),
            r.delta == (Delta { dx: 1, dy: 0 }),
            r.storage == (Point { x: 0, y: 0 }),
            r.stacks@ == seq![Seq::<i32>::empty()],
            !r.string,
            !r.saw_space,
    {
        Ip {
            id: 0,
            position: Point { x: -1, y: 0 },
            delta: Delta { dx: 1, dy: 0 },
            storage: Point { x: 0, y: 0 },
            stacks: StackStack::new(),
            string: false,
            saw_space: false,
        }
    }

    /// Returns the value at the pointer's position.
    pub fn get_current(&self, space: &Space) -> (r: i32)
        requires
            space.wf(),
        ensures
            r == space.cell(self.position),
    {
        space.get(self.position)
    }

    /// Sets the identifier.
    pub fn set_id(&mut self, id: i32)
        ensures
            *final(self) == (Ip { id, ..*old(self) }),
    {
        self.id = id;
    }

    /// Sets the delta.
    pub fn set_delta(&mut self, delta: Delta)
        ensures
            final(self).with_delta(*old(self), delta),
    {
        self.delta = delta;
    }

    /// Reverses the delta: the pointer's answer to every failure.
    pub fn reflect(&mut self)
        ensures
            final(self).with_delta(*old(self), old(self).delta.reversed()),
    {
        self.delta = self.delta.reverse();
    }

    /// Pushes a value on the top stack.
    pub fn push(&mut self, value: i32)
        requires
            old(self).wf(),
        ensures
            final(self).wf(),
            final(self).with_top(*old(self), old(self).top().push(value)),
    {
        self.stacks.push(value);
    }

    /// Pops a value off the top stack; an empty stack gives 0.
    pub fn pop(&mut self) -> (r: i32)
        requires
            old(self).wf(),
        ensures
            final(self).wf(),
            r == popped(old(self).top()).0,
            final(self).with_top(*old(self), popped(old(self).top()).1),
    {
        let r = self.stacks.pop();
        proof {
            if old(self).top().len() == 0 {
                assert(old(self).stacks@ =~= replace_top(old(self).stacks@, old(self).top()));
            }
        }
        r
    }

    /// Pushes a string: a 0, then its characters from last to first. Returns
    /// the number of cells pushed.
    pub fn push_string(&mut self, s: &str) -> (r: usize)
        requires
            old(self).wf(),
            s@.len() < usize::MAX,
        ensures
            final(self).wf(),
            r == s@.len() + 1,
            final(self).with_top(*old(self), pushed_string(old(self).top(), s@)),
    {
        self.stacks.push_string(s)
    }

    /// Pops a string: values down to the first 0. `None` if one of them is no
    /// Unicode scalar value.
    pub fn pop_string(&mut self) -> (r: Option<String>)
        requires
            old(self).wf(),
        ensures
            final(self).wf(),
            final(self).with_top(*old(self), popped_string(old(self).top()).1),
            popped_string(old(self).top()).0 is None ==> r is None,
            popped_string(old(self).top()).0 is Some ==> r is Some && codes(r->0@)
                == popped_string(old(self).top()).0->0,
    {
        self.stacks.pop_string()
    }

    /// Advances the position by one step of the delta, wrapping around the
    /// bounding box.
    pub fn step(&mut self, space: &Space)
        requires
            space.wf(),
        ensures
            final(self).is(*old(self), old(self).stacks@, space.next(old(self).position, old(self).delta), old(self).delta, old(self).storage),
            *final(self) == (Ip { position: space.next(old(self).position, old(self).delta), ..*old(self) }),
    {
        self.position = space.new_position(self.position, self.delta);
    }

    /// Advances the position to the next command on the path: spaces are
    /// passed, and so is everything between a pair of semicolons.
    pub fn find_command(&mut self, space: &Space)
        requires
            space.wf(),
        ensures
            final(self).is(*old(self), old(self).stacks@, scan(*space, old(self).position, old(self).delta, false, SCAN_LIMIT as nat), old(self).delta, old(self).storage),
            *final(self) == (Ip { position: final(self).position, ..*old(self) }),
    {
        let mut skip = false;
        let mut fuel: u64 = SCAN_LIMIT;
        while fuel > 0
            invariant
                space.wf(),
                self.is(*old(self), old(self).stacks@, self.position, old(self).delta, old(self).storage),
                *self == (Ip { position: self.position, ..*old(self) }),
                scan(*space, self.position, self.delta, skip, fuel as nat) == scan(*space, old(self).position, old(self).delta, false, SCAN_LIMIT as nat),
            decreases fuel,
        {
            let v = self.get_current(space);
            if v == SEMICOLON {
                skip = !skip;
            } else if v != SPACE && !skip {
                return;
            }
            self.step(space);
            fuel = fuel - 1;
        }
    }

    /// Returns the next command on the path, without moving.
    pub fn peek_command(&mut self, space: &Space) -> (r: i32)
        requires
            space.wf(),
        ensures
            final(self).is(*old(self), old(self).stacks@, old(self).position, old(self).delta, old(self).storage),
            r == space.cell(scan(*space, space.next(old(self).position, old(self).delta), old(self).delta, false, SCAN_LIMIT as nat)),
    {
        let orig = self.position;
        self.step(space);
        self.find_command(space);
        let r = self.get_current(space);
        self.position = orig;
        r
    }

    /// Passes the spaces on the path: in string mode a run of spaces counts
    /// as one.
    pub fn skip_space(&mut self, space: &Space)
        requires
            space.wf(),
        ensures
            final(self).is(*old(self), old(self).stacks@, pass_spaces(*space, old(self).position, old(self).delta, SCAN_LIMIT as nat), old(self).delta, old(self).storage),
    {
        let mut fuel: u64 = SCAN_LIMIT;
        while fuel > 0 && self.get_current(space) == SPACE
            invariant
                space.wf(),
                self.is(*old(self), old(self).stacks@, self.position, old(self).delta, old(self).storage),
                pass_spaces(*space, self.position, self.delta, fuel as nat) == pass_spaces(*space, old(self).position, old(self).delta, SCAN_LIMIT as nat),
            decreases fuel,
        {
            self.step(space);
            fuel = fuel - 1;
        }
    }
}

} // verus!
