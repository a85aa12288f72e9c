//! The stack stack of an instruction pointer.

use vstd::prelude::*;

use crate::point::Point;
use crate::text::{char_from, chars_of, decimal, decimal_chars, is_scalar, string_from};

verus! {

/// A sequence of `n` zeros.
pub open spec fn zeros(n: nat) -> Seq<i32> {
    Seq::new(n, |i: int| 0i32)
}

/// The cell value of a character: its code point.
pub open spec fn code(c: char) -> i32 {
    c as u32 as i32
}

/// The cell values of a string.
pub open spec fn codes(s: Seq<char>) -> Seq<i32> {
    s.map_values(|c: char| code(c))
}

/// A cell value read as a code point, two's complement bits and all.
pub open spec fn code_point(v: i32) -> u32 {
    #[verifier::truncate]
    (v as u32)
}

/// A stack after a string was pushed on it: a 0, then the characters from
/// last to first, so that the first character ends on top.
pub open spec fn pushed_string(t: Seq<i32>, s: Seq<char>) -> Seq<i32> {
    t.push(0).add(codes(s).reverse())
}

/// Popping a string off the stack `t`: the values down to the first 0 (or
/// the bottom), and the stack that remains. The values are `None` when one of
/// them is no Unicode scalar value; the popping stops right after that one.
pub open spec fn popped_string(t: Seq<i32>) -> (Option<Seq<i32>>, Seq<i32>)
    decreases t.len(),
{
    if t.len() == 0 {
        (Some(Seq::empty()), t)
    } else {
        let v = t.last();
        if v == 0 {
            (Some(Seq::empty()), t.drop_last())
        } else if !is_scalar(code_point(v)) {
            (None, t.drop_last())
        } else {
            let rest = popped_string(t.drop_last());
            match rest.0 {
                Some(cs) => (Some(seq![v].add(cs)), rest.1),
                None => (None, rest.1),
            }
        }
    }
}

/// The last `k` values of `s`, in order.
pub open spec fn top_part(s: Seq<i32>, k: nat) -> Seq<i32> {
    s.subrange(s.len() - k, s.len() as int)
}

/// `s` without its last `k` values.
pub open spec fn bottom_part(s: Seq<i32>, k: nat) -> Seq<i32> {
    s.subrange(0, s.len() - k)
}

/// The smaller of two naturals.
pub open spec fn min_nat(a: nat, b: nat) -> nat {
    if a < b {
        a
    } else {
        b
    }
}

/// `n` values carried over from `from` onto `to` as a block, order kept:
/// the top `n` values of `from`, under zeros where `from` holds fewer.
pub open spec fn block(from: Seq<i32>, n: nat) -> Seq<i32> {
    let k = min_nat(n, from.len());
    zeros((n - k) as nat).add(top_part(from, k))
}

/// `n` values moved one by one from the top of `from` onto `to`, each pop of
/// an empty `from` giving a 0: the order is reversed.
pub open spec fn moved(from: Seq<i32>, n: nat) -> Seq<i32> {
    let k = min_nat(n, from.len());
    top_part(from, k).reverse().add(zeros((n - k) as nat))
}

/// The absolute value of `n`.
pub open spec fn magnitude(n: i32) -> nat {
    if n < 0 {
        (-(n as int)) as nat
    } else {
        n as nat
    }
}

/// A value that reads as a Unicode scalar value is that code point.
pub proof fn lemma_code_point(v: i32)
    ensures
        is_scalar(code_point(v)) ==> code_point(v) as i32 == v,
{
    assert(#[verifier::truncate] (v as u32) <= 0x10FFFFu32 ==> #[verifier::truncate] (
    #[verifier::truncate] (v as u32) as i32) == v) by (bit_vector);
}

/// Taking the last stack out and pushing `t` replaces the last stack by `t`.
proof fn lemma_replace_last(a: Seq<Seq<i32>>, t: Seq<i32>)
    requires
        a.len() >= 1,
    ensures
        a.drop_last().push(t) == a.update(a.len() - 1, t),
{
    assert(a.drop_last().push(t) =~= a.update(a.len() - 1, t));
}

/// The value popped off `s` and the stack that remains; 0 and `s` itself
/// when `s` is empty.
pub open spec fn popped(s: Seq<i32>) -> (i32, Seq<i32>) {
    if s.len() == 0 {
        (0, s)
    } else {
        (s.last(), s.drop_last())
    }
}

/// The stacks after `{` with argument `n` and storage offset `p`: a new
/// stack on top; `n > 0` moves the top `n` values (as a block, zeros below
/// where too few) onto it, `n < 0` pushes `-n` zeros onto the old top; then
/// `p.x` and `p.y` are pushed onto the old top.
pub open spec fn created(ss: Seq<Seq<i32>>, n: i32, p: Point) -> Seq<Seq<i32>> {
    let t = ss.last();
    let k = min_nat(magnitude(n), t.len());
    let kept = if n > 0 {
        bottom_part(t, k)
    } else {
        t.add(zeros(magnitude(n)))
    };
    let new = if n > 0 {
        block(t, magnitude(n))
    } else {
        Seq::empty()
    };
    ss.drop_last().push(kept.push(p.x).push(p.y)).push(new)
}

/// The stacks after `}` with argument `n`: the top stack goes; the storage
/// offset is popped (y, then x) off the stack below; `n > 0` moves the top
/// `n` values of the removed stack (as a block, zeros below where too few)
/// onto it, `n < 0` pops `-n` values off it.
pub open spec fn deleted(ss: Seq<Seq<i32>>, n: i32) -> Seq<Seq<i32>> {
    let t = ss.last();
    let rest = ss.drop_last();
    let s = popped(popped(rest.last()).1).1;
    let s2 = if n > 0 {
        s.add(block(t, magnitude(n)))
    } else {
        bottom_part(s, min_nat(magnitude(n), s.len()))
    };
    rest.drop_last().push(s2)
}

/// The storage offset that `}` restores: y, then x, popped off the second stack.
pub open spec fn restored(ss: Seq<Seq<i32>>) -> Point {
    let s = ss[ss.len() - 2];
    Point { x: popped(popped(s).1).0, y: popped(s).0 }
}

/// The stacks after `u` with argument `n`: `n > 0` moves `n` values one by
/// one from the second stack to the top one, `n < 0` moves `-n` values the
/// other way; an empty stack gives zeros.
pub open spec fn transferred(ss: Seq<Seq<i32>>, n: i32) -> Seq<Seq<i32>> {
    let t = ss.last();
    let s = ss[ss.len() - 2];
    let m = magnitude(n);
    let base = ss.drop_last().drop_last();
    if n > 0 {
        base.push(bottom_part(s, min_nat(m, s.len()))).push(t.add(moved(s, m)))
    } else {
        base.push(s.add(moved(t, m))).push(bottom_part(t, min_nat(m, t.len())))
    }
}

/// Pushes `n` zeros.
fn push_zeros(v: &mut Vec<i32>, n: usize)
    ensures
        final(v)@ == old(v)@.add(zeros(n as nat)),
{
    let mut i: usize = 0;
    while i < n
        invariant
            i <= n,
            v@ == old(v)@.add(zeros(i as nat)),
        decreases n - i,
    {
        v.push(0);
        i = i + 1;
        assert(v@ =~= old(v)@.add(zeros(i as nat)));
    }
}

/// Moves the top `n` values of `from` onto `to` as a block, order kept, with
/// zeros below them where `from` holds fewer.
fn move_block(from: &mut Vec<i32>, to: &mut Vec<i32>, n: usize)
    ensures
        final(to)@ == old(to)@.add(block(old(from)@, n as nat)),
        final(from)@ == bottom_part(old(from)@, min_nat(n as nat, old(from)@.len())),
{
    let len = from.len();
    let k = if n < len {
        n
    } else {
        len
    };
    push_zeros(to, n - k);
    let mut tail = from.split_off(len - k);
    to.append(&mut tail);
    assert(to@ =~= old(to)@.add(block(old(from)@, n as nat)));
    assert(from@ =~= bottom_part(old(from)@, min_nat(n as nat, old(from)@.len())));
}

/// Moves `n` values one by one from the top of `from` to the top of `to`;
/// an empty `from` gives zeros.
fn move_values(from: &mut Vec<i32>, to: &mut Vec<i32>, n: usize)
    ensures
        final(to)@ == old(to)@.add(moved(old(from)@, n as nat)),
        final(from)@ == bottom_part(old(from)@, min_nat(n as nat, old(from)@.len())),
{
    let ghost f0 = from@;
    let mut i: usize = 0;
    while i < n
        invariant
            i <= n,
            to@ == old(to)@.add(moved(f0, i as nat)),
            from@ == bottom_part(f0, min_nat(i as nat, f0.len())),
        decreases n - i,
    {
        let ghost k = min_nat(i as nat, f0.len());
        let v = match from.pop() {
            Some(v) => v,
            None => 0,
        };
        to.push(v);
        proof {
            let k2 = min_nat((i + 1) as nat, f0.len());
            if i < f0.len() {
                assert(top_part(f0, k2) =~= seq![f0[f0.len() - k2]].add(top_part(f0, k)));
                assert(top_part(f0, k2).reverse() =~= top_part(f0, k).reverse().push(
                    f0[f0.len() - k2],
                ));
                assert(zeros((i + 1 - k2) as nat) =~= Seq::<i32>::empty());
                assert(zeros((i - k) as nat) =~= Seq::<i32>::empty());
            } else {
                assert(zeros((i + 1 - k2) as nat) =~= zeros((i - k) as nat).push(0));
            }
            assert(to@ =~= old(to)@.add(moved(f0, (i + 1) as nat)));
            assert(from@ =~= bottom_part(f0, k2));
        }
        i = i + 1;
    }
}

/// Values written in decimal and separated by spaces.
pub open spec fn values_text(s: Seq<i32>) -> Seq<char>
    decreases s.len(),
{
    if s.len() == 0 {
        Seq::empty()
    } else if s.len() == 1 {
        decimal(s[0] as int)
    } else {
        values_text(s.drop_last()).push(' ').add(decimal(s.last() as int))
    }
}

/// Stacks written out, each in brackets, separated by spaces.
pub open spec fn described(ss: Seq<Seq<i32>>) -> Seq<char>
    decreases ss.len(),
{
    if ss.len() == 0 {
        Seq::empty()
    } else {
        let head = described(ss.drop_last());
        let sep = if ss.len() > 1 { seq![' '] } else { Seq::<char>::empty() };
        head.add(sep).push('[').add(values_text(ss.last())).push(']')
    }
}

/// A stack of stacks of values. It always holds at least one stack.
#[derive(Debug)]
pub struct StackStack {
    stacks: Vec<Vec<i32>>,
}

impl View for StackStack {
    type V = Seq<Seq<i32>>;

    /// The stacks, bottommost first, each listed from bottom to top.
    closed spec fn view(&self) -> Seq<Seq<i32>> {
        self.stacks@.map_values(|s: Vec<i32>| s@)
    }
}

impl StackStack {
    /// The stack stack holds at least one stack.
    pub open spec fn wf(&self) -> bool {
        self@.len() >= 1
    }

    /// The top stack.
    pub open spec fn top(&self) -> Seq<i32> {
        self@.last()
    }

    /// The stack below the top one.
    pub open spec fn second(&self) -> Seq<i32> {
        self@[self@.len() - 2]
    }

    /// `self` is `old` with its top stack replaced by `t`.
    pub open spec fn top_is(&self, old: Seq<Seq<i32>>, t: Seq<i32>) -> bool {
        self@ == old.update(old.len() - 1, t)
    }

    /// Creates a stack stack holding a single empty stack.
    pub fn new() -> (r: StackStack)
        ensures
            r@ == seq![Seq::<i32>::empty()],
    {
        let r = StackStack { stacks: vec![Vec::new()] };
        assert(r@ =~= seq![Seq::<i32>::empty()]);
        r
    }

    /// Takes the top stack out.
    fn take_top(&mut self) -> (t: Vec<i32>)
        requires
            old(self).wf(),
        ensures
            t@ == old(self).top(),
            final(self)@ == old(self)@.drop_last(),
    {
        let t = self.stacks.pop().unwrap();
        assert(self@ =~= old(self)@.drop_last());
        t
    }

    /// Puts a stack back on top.
    fn put_top(&mut self, t: Vec<i32>)
        ensures
            final(self)@ == old(self)@.push(t@),
    {
        self.stacks.push(t);
        assert(self@ =~= old(self)@.push(t@));
    }

    /// Checks whether the stack stack holds a single stack.
    pub fn single(&self) -> (r: bool)
        requires
            self.wf(),
        ensures
            r == (self@.len() == 1),
    {
        self.stacks.len() == 1
    }

    /// Pushes a value on the top stack.
    pub fn push(&mut self, value: i32)
        requires
            old(self).wf(),
        ensures
            final(self).top_is(old(self)@, old(self).top().push(value)),
    {
        let mut t = self.take_top();
        t.push(value);
        proof {
            lemma_replace_last(old(self)@, t@);
        }
        self.put_top(t);
    }

    /// Pops a value off the top stack; an empty stack gives 0.
    pub fn pop(&mut self) -> (r: i32)
        requires
            old(self).wf(),
        ensures
            old(self).top().len() == 0 ==> r == 0 && final(self)@ == old(self)@,
            old(self).top().len() > 0 ==> r == old(self).top().last() && final(self).top_is(
                old(self)@,
                old(self).top().drop_last(),
            ),
    {
        let mut t = self.take_top();
        let r = match t.pop() {
            Some(v) => v,
            None => 0,
        };
        proof {
            lemma_replace_last(old(self)@, t@);
        }
        self.put_top(t);
        proof {
            if old(self).top().len() == 0 {
                assert(self@ =~= old(self)@);
            }
        }
        r
    }

    /// Returns the `n`th value of the top stack counted from the top, `n = 1`
    /// being the top; 0 where there is no such value.
    pub fn nth(&self, n: usize) -> (r: i32)
        requires
            self.wf(),
        ensures
            r == if 1 <= n <= self.top().len() {
                self.top()[self.top().len() - n]
            } else {
                0
            },
    {
        let t = &self.stacks[self.stacks.len() - 1];
        let len = t.len();
        if 1 <= n && n <= len {
            t[len - n]
        } else {
            0
        }
    }

    /// Pushes a string: a 0, then its characters from last to first, so that
    /// the first character ends on top. Returns the number of cells pushed.
    pub fn push_string(&mut self, s: &str) -> (r: usize)
        requires
            old(self).wf(),
            s@.len() < usize::MAX,
        ensures
            r == s@.len() + 1,
            final(self).top_is(old(self)@, pushed_string(old(self).top(), s@)),
    {
        let chars = chars_of(s);
        let mut t = self.take_top();
        let ghost t0 = t@;
        t.push(0);
        let mut i: usize = chars.len();
        while i > 0
            invariant
                i <= chars@.len(),
                chars@ == s@,
                t@ == t0.push(0).add(codes(s@.subrange(i as int, s@.len() as int)).reverse()),
            decreases i,
        {
            i = i - 1;
            t.push(chars[i] as u32 as i32);
            proof {
                assert(codes(s@.subrange(i as int, s@.len() as int)) =~= seq![code(s@[i as int])].add(
                    codes(s@.subrange(i + 1, s@.len() as int)),
                ));
                assert(codes(s@.subrange(i as int, s@.len() as int)).reverse() =~= codes(
                    s@.subrange(i + 1, s@.len() as int),
                ).reverse().push(code(s@[i as int])));
            }
        }
        assert(s@.subrange(0, s@.len() as int) =~= s@);
        proof {
            lemma_replace_last(old(self)@, t@);
        }
        self.put_top(t);
        chars.len() + 1
    }

    /// Pops a string: values down to the first 0, or to the bottom of the
    /// top stack. `None` if one of them is no Unicode scalar value.
    pub fn pop_string(&mut self) -> (r: Option<String>)
        requires
            old(self).wf(),
        ensures
            final(self).top_is(old(self)@, popped_string(old(self).top()).1),
            popped_string(old(self).top()).0 is None ==> r is None,
            popped_string(old(self).top()).0 is Some ==> r is Some && codes(r->0@)
                == popped_string(old(self).top()).0->0,
    {
        let mut t = self.take_top();
        let ghost t0 = t@;
        let mut out: Vec<char> = Vec::new();
        let mut failed = false;
        let mut done = false;
        while !done
            invariant
                !done ==> !failed,
                !done ==> popped_string(t0) == match popped_string(t@).0 {
                    Some(cs) => (Some(codes(out@).add(cs)), popped_string(t@).1),
                    None => (None, popped_string(t@).1),
                },
                done && !failed ==> popped_string(t0) == (Some(codes(out@)), t@),
                done && failed ==> popped_string(t0) == (None::<Seq<i32>>, t@),
            decreases t@.len() + if done {
                0int
            } else {
                1int
            },
        {
            let ghost before = t@;
            match t.pop() {
                None => {
                    assert(codes(out@).add(Seq::empty()) =~= codes(out@));
                    done = true;
                },
                Some(v) => {
                    assert(t@ == before.drop_last());
                    if v == 0 {
                        assert(codes(out@).add(Seq::empty()) =~= codes(out@));
                        done = true;
                    } else {
                        let cp = #[verifier::truncate] (v as u32);
                        proof {
                            lemma_code_point(v);
                        }
                        match char_from(cp) {
                            Some(c) => {
                                proof {
                                    assert(codes(out@.push(c)) =~= codes(out@).push(v));
                                    let rest = popped_string(t@);
                                    if rest.0 is Some {
                                        assert(codes(out@).add(seq![v].add(rest.0->0))
                                            =~= codes(out@).push(v).add(rest.0->0));
                                    }
                                }
                                out.push(c);
                            },
                            None => {
                                failed = true;
                                done = true;
                            },
                        }
                    }
                },
            }
        }
        proof {
            lemma_replace_last(old(self)@, t@);
        }
        self.put_top(t);
        if failed {
            None
        } else {
            Some(string_from(&out))
        }
    }

    /// Begins a block (`{`): pushes a new stack, carrying `n` values over to
    /// it (or pushing `-n` zeros on the old top for negative `n`), and saves
    /// the storage offset on the old top.
    pub fn create_stack(&mut self, n: i32, storage: Point)
        requires
            old(self).wf(),
        ensures
            final(self)@ == created(old(self)@, n, storage),
    {
        let mut t = self.take_top();
        let mut new: Vec<i32> = Vec::new();
        if n > 0 {
            move_block(&mut t, &mut new, n as usize);
            assert(new@ =~= block(old(self).top(), magnitude(n)));
        } else if n < 0 {
            push_zeros(&mut t, (-(n as i64)) as usize);
        } else {
            assert(t@ =~= old(self).top().add(zeros(0)));
        }
        t.push(storage.x);
        t.push(storage.y);
        self.put_top(t);
        self.put_top(new);
    }

    /// Ends a block (`}`): removes the top stack, restores the storage
    /// offset from the stack below and carries `n` values over to it (or pops
    /// `-n` values off it for negative `n`). Returns the storage offset.
    pub fn delete_stack(&mut self, n: i32) -> (r: Point)
        requires
            old(self)@.len() >= 2,
        ensures
            final(self)@ == deleted(old(self)@, n),
            r == restored(old(self)@),
    {
        let mut t = self.take_top();
        let mut s = self.take_top();
        let y = match s.pop() {
            Some(v) => v,
            None => 0,
        };
        let x = match s.pop() {
            Some(v) => v,
            None => 0,
        };
        if n > 0 {
            move_block(&mut t, &mut s, n as usize);
        } else {
            let m = (-(n as i64)) as usize;
            let len = s.len();
            let k = if m < len {
                m
            } else {
                len
            };
            s.truncate(len - k);
            assert(s@ =~= bottom_part(popped(popped(old(self)@[old(self)@.len() - 2]).1).1, k as nat));
        }
        self.put_top(s);
        assert(self@ =~= deleted(old(self)@, n));
        Point { x, y }
    }

    /// Transfers `n` values one by one from the second stack to the top
    /// stack (`u`), or `-n` values the other way for negative `n`.
    pub fn transfer_elements(&mut self, n: i32)
        requires
            old(self)@.len() >= 2,
        ensures
            final(self)@ == transferred(old(self)@, n),
    {
        let mut t = self.take_top();
        let mut s = self.take_top();
        if n > 0 {
            move_values(&mut s, &mut t, n as usize);
        } else {
            move_values(&mut t, &mut s, (-(n as i64)) as usize);
        }
        self.put_top(s);
        self.put_top(t);
        assert(self@ =~= transferred(old(self)@, n));
    }

    /// Returns a copy of the stack stack.
    pub fn duplicate(&self) -> (r: StackStack)
        ensures
            r@ == self@,
    {
        let mut stacks: Vec<Vec<i32>> = Vec::new();
        let mut i: usize = 0;
        while i < self.stacks.len()
            invariant
                i <= self.stacks@.len(),
                stacks@.len() == i,
                forall|j: int| 0 <= j < i ==> (#[trigger] stacks@[j])@ == self@[j],
            decreases self.stacks@.len() - i,
        {
            let c = self.stacks[i].clone();
            assert(c@ =~= self.stacks@[i as int]@);
            stacks.push(c);
            i = i + 1;
        }
        let r = StackStack { stacks };
        assert(r@ =~= self@);
        r
    }

    /// The stacks written out, bottommost first, each in brackets with its
    /// values from bottom to top separated by spaces: `[1 2] [3]`.
    pub fn describe(&self) -> (r: Vec<char>)
        ensures
            r@ == described(self@),
    {
        let mut r: Vec<char> = Vec::new();
        let mut i: usize = 0;
        while i < self.stacks.len()
            invariant
                i <= self.stacks@.len(),
                r@ == described(self@.take(i as int)),
            decreases self.stacks@.len() - i,
        {
            let ghost before = r@;
            if i > 0 {
                r.push(' ');
            }
            r.push('[');
            let s = &self.stacks[i];
            let mut j: usize = 0;
            while j < s.len()
                invariant
                    j <= s@.len(),
                    r@ == before.add(if i > 0 { seq![' '] } else { Seq::empty() }).push('[').add(values_text(s@.take(j as int))),
                decreases s@.len() - j,
            {
                let ghost mid = r@;
                if j > 0 {
                    r.push(' ');
                }
                let mut d = decimal_chars(s[j]);
                r.append(&mut d);
                proof {
                    assert(s@.take(j + 1).drop_last() =~= s@.take(j as int));
                    assert(r@ =~= before.add(if i > 0 { seq![' '] } else { Seq::empty() }).push('[').add(values_text(s@.take(j + 1))));
                }
                j = j + 1;
            }
            r.push(']');
            proof {
                assert(s@.take(j as int) =~= s@);
                assert(self@.take(i + 1).drop_last() =~= self@.take(i as int));
                assert(self@.take(i + 1).last() == s@);
                assert(r@ =~= described(self@.take(i + 1)));
            }
            i = i + 1;
        }
        assert(self@.take(i as int) =~= self@);
        r
    }

    /// Empties the top stack.
    pub fn clear(&mut self)
        requires
            old(self).wf(),
        ensures
            final(self).top_is(old(self)@, Seq::empty()),
    {
        let _ = self.take_top();
        let t: Vec<i32> = Vec::new();
        proof {
            lemma_replace_last(old(self)@, t@);
        }
        self.put_top(t);
    }

    /// Returns the size of each stack, the bottommost first.
    pub fn stack_sizes(&self) -> (r: Vec<usize>)
        ensures
            r@.len() == self@.len(),
            forall|i: int| 0 <= i < r@.len() ==> r@[i] == self@[i].len(),
    {
        let mut r: Vec<usize> = Vec::new();
        let mut i: usize = 0;
        while i < self.stacks.len()
            invariant
                i <= self.stacks@.len(),
                r@.len() == i,
                forall|j: int| 0 <= j < i ==> r@[j] == self@[j].len(),
            decreases self.stacks@.len() - i,
        {
            r.push(self.stacks[i].len());
            i = i + 1;
        }
        r
    }

    /// Deletes the top `n` values of the top stack.
    pub fn delete_cells(&mut self, n: usize)
        requires
            old(self).wf(),
            n <= old(self).top().len(),
        ensures
            final(self).top_is(old(self)@, bottom_part(old(self).top(), n as nat)),
    {
        let mut t = self.take_top();
        let len = t.len();
        t.truncate(len - n);
        assert(t@ =~= bottom_part(old(self).top(), n as nat));
        proof {
            lemma_replace_last(old(self)@, t@);
        }
        self.put_top(t);
    }
}

/// Pushing a string and popping one gives the string back and leaves the
/// stack as it was, for every string without a NUL character.
pub proof fn lemma_string_round_trip(t: Seq<i32>, s: Seq<char>)
    requires
        forall|i: int| 0 <= i < s.len() ==> s[i] != '\0',
    ensures
        popped_string(pushed_string(t, s)) == (Some(codes(s)), t),
    decreases s.len(),
{
    let u = pushed_string(t, s);
    if s.len() == 0 {
        assert(u =~= t.push(0));
        assert(u.drop_last() =~= t);
        assert(codes(s) =~= Seq::<i32>::empty());
    } else {
        let rest = s.drop_first();
        lemma_string_round_trip(t, rest);
        assert(u.drop_last() =~= pushed_string(t, rest));
        assert(u.last() == code(s[0]));
        crate::text::lemma_char_scalar(s[0]);
        assert(code_point(code(s[0])) == s[0] as u32) by {
            let c = s[0] as u32;
            assert(c <= 0x10FFFFu32 ==> #[verifier::truncate] ((c as i32) as u32) == c)
                by (bit_vector);
        }
        assert(code(s[0]) != 0) by {
            if code(s[0]) == 0 {
                assert(s[0] as u32 == 0);
                crate::text::lemma_char_injective(s[0], '\0');
            }
        }
        assert(codes(s) =~= seq![code(s[0])].add(codes(rest)));
    }
}

} // verus!
