//! Text files and funge space: loading a file into a region (`i`) and
//! rendering a region as text (`o`).

use vstd::prelude::*;

use crate::point::Point;
use crate::space::{cursor, is_skipped, loaded_cell, Space};
use crate::stack::{code, code_point, codes};
use crate::text::{char_from, is_scalar};
use crate::tree::SPACE;

verus! {

/// The cell value of a line break.
pub const NEWLINE: i32 = 10;

/// The point `(base.x + i, base.y + j)`, wrapping.
pub open spec fn offset(base: Point, i: int, j: int) -> Point {
    Point { x: base.x.wrapping_add(i as i32), y: base.y.wrapping_add(j as i32) }
}

/// Row `j` of the `w`-wide region of `space` at `origin`.
pub open spec fn region_row(space: Space, origin: Point, w: nat, j: int) -> Seq<i32> {
    Seq::new(w, |i: int| space.cell(offset(origin, i, j)))
}

/// The rows of the `w` by `h` region of `space` at `origin`.
pub open spec fn region(space: Space, origin: Point, w: nat, h: nat) -> Seq<Seq<i32>> {
    Seq::new(h, |j: int| region_row(space, origin, w, j))
}

/// `s` without its trailing spaces.
pub open spec fn strip_spaces(s: Seq<i32>) -> Seq<i32>
    decreases s.len(),
{
    if s.len() > 0 && s.last() == SPACE {
        strip_spaces(s.drop_last())
    } else {
        s
    }
}

/// `ls` without its trailing empty lines.
pub open spec fn strip_lines(ls: Seq<Seq<i32>>) -> Seq<Seq<i32>>
    decreases ls.len(),
{
    if ls.len() > 0 && ls.last().len() == 0 {
        strip_lines(ls.drop_last())
    } else {
        ls
    }
}

/// The lines `ls` joined by line breaks.
pub open spec fn joined(ls: Seq<Seq<i32>>) -> Seq<i32>
    decreases ls.len(),
{
    if ls.len() == 0 {
        Seq::empty()
    } else if ls.len() == 1 {
        ls[0]
    } else {
        joined(ls.drop_last()).push(NEWLINE).add(ls.last())
    }
}

/// The text of the rows `rows`, as `o` writes it: the lines joined by line
/// breaks and ended by one; with `trim`, each line loses its trailing spaces
/// and the text its trailing empty lines.
pub open spec fn rendered(rows: Seq<Seq<i32>>, trim: bool) -> Seq<i32> {
    let lines = if trim {
        strip_lines(rows.map_values(|r: Seq<i32>| strip_spaces(r)))
    } else {
        rows
    };
    joined(lines).push(NEWLINE)
}

/// The cursor `(i, j, w)` after loading the text `s` from column `x0` and
/// row `y0`: the next column, the current row, and the widest extent so far.
/// Line breaks start a new row unless the load is `linear`; a carriage return
/// is passed over unless it is.
pub open spec fn file_cursor(s: Seq<char>, linear: bool, x0: i32, y0: i32) -> (i32, i32, i32)
    decreases s.len(),
{
    if s.len() == 0 {
        (x0, y0, 0)
    } else {
        let at = file_cursor(s.drop_last(), linear, x0, y0);
        let c = s.last();
        if c == '\n' && !linear {
            (x0, at.1.wrapping_add(1), at.2)
        } else if linear || c != '\r' {
            let i = at.0.wrapping_add(1);
            let d = i.wrapping_sub(x0);
            (i, at.1, if d > at.2 {
                d
            } else {
                at.2
            })
        } else {
            at
        }
    }
}

/// Whether loading stores the character `c` (spaces and NULs are passed
/// over, keeping what the cell held).
pub open spec fn stores(c: char, linear: bool) -> bool {
    &&& !(c == '\n' && !linear)
    &&& (linear || c != '\r')
    &&& c != ' '
    &&& c != '\0'
}

/// The cell at `p` after loading the text `s` at column `x0`, row `y0`
/// relative to the storage offset `storage`, into `space`.
pub open spec fn file_cell(
    space: Space,
    s: Seq<char>,
    linear: bool,
    x0: i32,
    y0: i32,
    storage: Point,
    p: Point,
) -> i32
    decreases s.len(),
{
    if s.len() == 0 {
        space.cell(p)
    } else {
        let c = s.last();
        let at = file_cursor(s.drop_last(), linear, x0, y0);
        if stores(c, linear) && (Point {
            x: at.0.wrapping_add(storage.x),
            y: at.1.wrapping_add(storage.y),
        }) == p {
            code(c)
        } else {
            file_cell(space, s.drop_last(), linear, x0, y0, storage, p)
        }
    }
}

/// Loads the text `text` into `space` at column `x0`, row `y0` relative to
/// `storage`. Returns the width and the height of the loaded region.
pub fn load_text(space: &mut Space, text: &str, linear: bool, x0: i32, y0: i32, storage: Point) -> (r: (i32, i32))
    requires
        old(space).wf(),
    ensures
        final(space).wf(),
        forall|p: Point| #[trigger] final(space).cell(p) == file_cell(*old(space), text@, linear, x0, y0, storage, p),
        r == (file_cursor(text@, linear, x0, y0).2, file_cursor(text@, linear, x0, y0).1.wrapping_sub(y0)),
{
    let chars = crate::text::chars_of(text);
    let mut i = x0;
    let mut j = y0;
    let mut w: i32 = 0;
    let mut k: usize = 0;
    while k < chars.len()
        invariant
            chars@ == text@,
            k <= chars@.len(),
            space.wf(),
            (i, j, w) == file_cursor(chars@.take(k as int), linear, x0, y0),
            forall|p: Point| #[trigger] space.cell(p) == file_cell(*old(space), chars@.take(k as int), linear, x0, y0, storage, p),
        decreases chars@.len() - k,
    {
        let c = chars[k];
        proof {
            assert(chars@.take(k + 1).drop_last() =~= chars@.take(k as int));
        }
        if c == '\n' && !linear {
            i = x0;
            j = j.wrapping_add(1);
        } else if linear || c != '\r' {
            if c != ' ' && c != '\0' {
                space.set(Point { x: i.wrapping_add(storage.x), y: j.wrapping_add(storage.y) }, c as u32 as i32);
            }
            i = i.wrapping_add(1);
            let d = i.wrapping_sub(x0);
            if d > w {
                w = d;
            }
        }
        k = k + 1;
    }
    assert(chars@.take(k as int) =~= text@);
    (w, j.wrapping_sub(y0))
}

/// Reads the `w` by `h` region of `space` at `origin`, row by row.
pub fn read_region(space: &Space, origin: Point, w: i32, h: i32) -> (r: Vec<Vec<i32>>)
    requires
        space.wf(),
        w >= 0,
        h >= 0,
    ensures
        r@.len() == h,
        forall|j: int| 0 <= j < h ==> (#[trigger] r@[j])@ == region_row(*space, origin, w as nat, j),
{
    let mut rows: Vec<Vec<i32>> = Vec::new();
    let mut j: i32 = 0;
    while j < h
        invariant
            space.wf(),
            0 <= j <= h,
            w >= 0,
            rows@.len() == j,
            forall|k: int| 0 <= k < j ==> (#[trigger] rows@[k])@ == region_row(*space, origin, w as nat, k),
        decreases h - j,
    {
        let mut row: Vec<i32> = Vec::new();
        let mut i: i32 = 0;
        while i < w
            invariant
                space.wf(),
                0 <= i <= w,
                w >= 0,
                0 <= j < h,
                row@ == region_row(*space, origin, w as nat, j as int).take(i as int),
            decreases w - i,
        {
            let p = Point { x: origin.x.wrapping_add(i), y: origin.y.wrapping_add(j) };
            assert(p == offset(origin, i as int, j as int));
            row.push(space.get(p));
            i = i + 1;
            assert(row@ =~= region_row(*space, origin, w as nat, j as int).take(i as int));
        }
        assert(row@ =~= region_row(*space, origin, w as nat, j as int));
        rows.push(row);
        j = j + 1;
    }
    rows
}

/// Removes the trailing spaces of a line.
fn strip_row(row: &mut Vec<i32>)
    ensures
        final(row)@ == strip_spaces(old(row)@),
{
    while row.len() > 0 && row[row.len() - 1] == SPACE
        invariant
            strip_spaces(row@) == strip_spaces(old(row)@),
        decreases row@.len(),
    {
        row.pop();
    }
}

/// The text of `rows` as `o` writes it, as cell values.
pub fn render(rows: &Vec<Vec<i32>>, trim: bool) -> (r: Vec<i32>)
    ensures
        r@ == rendered(rows@.map_values(|v: Vec<i32>| v@), trim),
{
    let ghost all = rows@.map_values(|v: Vec<i32>| v@);
    let mut lines: Vec<Vec<i32>> = Vec::new();
    let mut q: usize = 0;
    while q < rows.len()
        invariant
            q <= rows@.len(),
            all == rows@.map_values(|v: Vec<i32>| v@),
            lines@.len() == q,
            forall|k: int| 0 <= k < q ==> (#[trigger] lines@[k])@ == if trim {
                strip_spaces(all[k])
            } else {
                all[k]
            },
        decreases rows@.len() - q,
    {
        let mut row = rows[q].clone();
        assert(row@ =~= all[q as int]);
        if trim {
            strip_row(&mut row);
        }
        lines.push(row);
        q = q + 1;
    }
    let ghost mapped = if trim {
        all.map_values(|r: Seq<i32>| strip_spaces(r))
    } else {
        all
    };
    assert(lines@.map_values(|v: Vec<i32>| v@) =~= mapped);
    if trim {
        while lines.len() > 0 && lines[lines.len() - 1].len() == 0
            invariant
                strip_lines(lines@.map_values(|v: Vec<i32>| v@)) == strip_lines(mapped),
            decreases lines@.len(),
        {
            let ghost before = lines@.map_values(|v: Vec<i32>| v@);
            lines.pop();
            assert(lines@.map_values(|v: Vec<i32>| v@) =~= before.drop_last());
        }
        assert(strip_lines(lines@.map_values(|v: Vec<i32>| v@)) == lines@.map_values(
            |v: Vec<i32>| v@,
        ));
    }
    let ghost ls = lines@.map_values(|v: Vec<i32>| v@);
    let mut out: Vec<i32> = Vec::new();
    let mut j: usize = 0;
    while j < lines.len()
        invariant
            j <= lines@.len(),
            ls == lines@.map_values(|v: Vec<i32>| v@),
            out@ == joined(ls.take(j as int)),
        decreases lines@.len() - j,
    {
        let ghost before = out@;
        if j > 0 {
            out.push(NEWLINE);
        }
        let mut row = lines[j].clone();
        assert(row@ =~= ls[j as int]);
        out.append(&mut row);
        proof {
            assert(ls.take(j + 1).drop_last() =~= ls.take(j as int));
            if j == 0 {
                assert(out@ =~= ls[0]);
            } else {
                assert(out@ =~= before.push(NEWLINE).add(ls[j as int]));
            }
        }
        j = j + 1;
    }
    assert(ls.take(j as int) =~= ls);
    out.push(NEWLINE);
    out
}

/// Every value of `v` is a Unicode scalar value.
pub open spec fn is_text(v: Seq<i32>) -> bool {
    forall|i: int| 0 <= i < v.len() ==> is_scalar(code_point(#[trigger] v[i]))
}

/// The characters with the code points `v`; `None` if one of them is no
/// Unicode scalar value.
pub fn characters(v: &Vec<i32>) -> (r: Option<Vec<char>>)
    ensures
        is_text(v@) ==> r is Some && r->0@.map_values(|c: char| code(c)) == v@,
        !is_text(v@) ==> r is None,
{
    let mut out: Vec<char> = Vec::new();
    let mut i: usize = 0;
    while i < v.len()
        invariant
            i <= v@.len(),
            out@.map_values(|c: char| code(c)) == v@.take(i as int),
            forall|k: int| 0 <= k < i ==> is_scalar(code_point(#[trigger] v@[k])),
        decreases v@.len() - i,
    {
        let x = v[i];
        match char_from(#[verifier::truncate] (x as u32)) {
            Some(c) => {
                proof {
                    crate::stack::lemma_code_point(x);
                    assert(code(c) == x);
                }
                let ghost before = out@;
                out.push(c);
                assert(out@ == before.push(c));
                assert(v@.take(i + 1) =~= v@.take(i as int).push(x));
                assert(out@.map_values(|c: char| code(c)) =~= before.map_values(|c: char| code(c)).push(
                    code(c),
                ));
            },
            None => {
                return None;
            },
        }
        i = i + 1;
    }
    assert(v@.take(i as int) =~= v@);
    Some(out)
}

/// The program text made of `lines`: the lines joined by line breaks.
pub open spec fn program_text(lines: Seq<Seq<char>>) -> Seq<char>
    decreases lines.len(),
{
    if lines.len() == 0 {
        Seq::empty()
    } else if lines.len() == 1 {
        lines[0]
    } else {
        program_text(lines.drop_last()).push('\n').add(lines.last())
    }
}

/// A line holds no line break and nothing that loading skips.
pub open spec fn plain_line(l: Seq<char>) -> bool {
    forall|i: int| 0 <= i < l.len() ==> (#[trigger] l[i]) != '\n' && !is_skipped(l[i])
}

/// Loading a plain line after `s` fills the cells right of the cursor on
/// its row, in order, and moves the cursor past them.
proof fn lemma_load_line(s: Seq<char>, l: Seq<char>)
    requires
        plain_line(l),
        0 <= cursor(s).x,
        cursor(s).x + l.len() <= i32::MAX,
    ensures
        cursor(s.add(l)) == (Point { x: (cursor(s).x + l.len()) as i32, y: cursor(s).y }),
        forall|p: Point| #[trigger]
            loaded_cell(s.add(l), p) == if p.y == cursor(s).y && cursor(s).x <= p.x < cursor(s).x
                + l.len() {
                code(l[p.x - cursor(s).x])
            } else {
                loaded_cell(s, p)
            },
    decreases l.len(),
{
    if l.len() == 0 {
        assert(s.add(l) =~= s);
    } else {
        let m = l.drop_last();
        assert(plain_line(m)) by {
            assert forall|i: int| 0 <= i < m.len() implies (#[trigger] m[i]) != '\n' && !is_skipped(m[i]) by {
                assert(m[i] == l[i]);
            }
        }
        lemma_load_line(s, m);
        assert(s.add(l).drop_last() =~= s.add(m));
        assert(s.add(l).last() == l.last());
        assert(l.last() == l[l.len() - 1]);
        assert forall|p: Point| #[trigger]
            loaded_cell(s.add(l), p) == if p.y == cursor(s).y && cursor(s).x <= p.x < cursor(s).x
                + l.len() {
                code(l[p.x - cursor(s).x])
            } else {
                loaded_cell(s, p)
            } by {
            let at = cursor(s.add(m));
            assert(l[l.len() - 1] != '\n' && !is_skipped(l[l.len() - 1]));
            assert(loaded_cell(s.add(l), p) == if at == p {
                code(l.last())
            } else {
                loaded_cell(s.add(m), p)
            });
            if p.y == cursor(s).y && cursor(s).x <= p.x < cursor(s).x + m.len() {
                assert(m[p.x - cursor(s).x] == l[p.x - cursor(s).x]);
            }
        }
    }
}

/// Loading the text of `lines`, all plain and `w` long, puts character `i`
/// of line `j` at `(i, j)`, and leaves the cursor after the last line.
proof fn lemma_load_lines(lines: Seq<Seq<char>>, w: nat)
    requires
        lines.len() > 0,
        lines.len() <= i32::MAX,
        w <= i32::MAX,
        forall|j: int| 0 <= j < lines.len() ==> (#[trigger] lines[j]).len() == w && plain_line(lines[j]),
    ensures
        cursor(program_text(lines)) == (Point { x: w as i32, y: (lines.len() - 1) as i32 }),
        forall|i: int, j: int|
            0 <= i < w && 0 <= j < lines.len() ==> loaded_cell(
                program_text(lines),
                Point { x: i as i32, y: j as i32 },
            ) == code(#[trigger] lines[j][i]),
    decreases lines.len(),
{
    if lines.len() == 1 {
        let l = lines[0];
        assert(Seq::<char>::empty().add(l) =~= l);
        lemma_load_line(Seq::empty(), l);
    } else {
        let first = lines.drop_last();
        assert forall|j: int| 0 <= j < first.len() implies (#[trigger] first[j]).len() == w && plain_line(first[j]) by {
            assert(first[j] == lines[j]);
        }
        lemma_load_lines(first, w);
        let t = program_text(first);
        let tn = t.push('\n');
        assert(tn.drop_last() =~= t);
        assert(cursor(tn) == (Point { x: 0, y: (lines.len() - 1) as i32 }));
        let l = lines.last();
        assert(l == lines[lines.len() - 1]);
        lemma_load_line(tn, l);
        assert forall|i: int, j: int|
            0 <= i < w && 0 <= j < lines.len() implies loaded_cell(
                program_text(lines),
                Point { x: i as i32, y: j as i32 },
            ) == code(#[trigger] lines[j][i]) by {
            let p = Point { x: i as i32, y: j as i32 };
            if j < lines.len() - 1 {
                assert(first[j] == lines[j]);
                assert(loaded_cell(tn, p) == loaded_cell(t, p));
            }
        }
    }
}

/// The rows of cell values are the code points of the lines, joined.
proof fn lemma_joined_codes(rows: Seq<Seq<i32>>, lines: Seq<Seq<char>>)
    requires
        rows.len() == lines.len(),
        forall|j: int| 0 <= j < rows.len() ==> (#[trigger] rows[j]) == codes(lines[j]),
    ensures
        joined(rows) == codes(program_text(lines)),
    decreases rows.len(),
{
    if rows.len() == 0 {
        assert(codes(Seq::<char>::empty()) =~= Seq::<i32>::empty());
    } else if rows.len() > 1 {
        let r0 = rows.drop_last();
        let l0 = lines.drop_last();
        assert forall|j: int| 0 <= j < r0.len() implies (#[trigger] r0[j]) == codes(l0[j]) by {
            assert(r0[j] == rows[j]);
            assert(l0[j] == lines[j]);
        }
        lemma_joined_codes(r0, l0);
        assert(rows.last() == rows[rows.len() - 1]);
        assert(codes(program_text(l0).push('\n').add(lines.last())) =~= codes(program_text(l0)).push(
            NEWLINE,
        ).add(codes(lines.last())));
    }
}

/// Loading a rectangular program and rendering its rectangle with `o`,
/// untrimmed, gives the program text back, with a line break at the end.
pub proof fn lemma_load_then_render(lines: Seq<Seq<char>>, w: nat, space: Space)
    requires
        lines.len() > 0,
        lines.len() <= i32::MAX,
        w <= i32::MAX,
        forall|j: int| 0 <= j < lines.len() ==> (#[trigger] lines[j]).len() == w && plain_line(lines[j]),
        forall|p: Point| #[trigger] space.cell(p) == loaded_cell(program_text(lines), p),
    ensures
        rendered(region(space, Point { x: 0, y: 0 }, w, lines.len()), false) == codes(
            program_text(lines),
        ).push(NEWLINE),
{
    lemma_load_lines(lines, w);
    let rows = region(space, Point { x: 0, y: 0 }, w, lines.len());
    assert forall|j: int| 0 <= j < rows.len() implies (#[trigger] rows[j]) == codes(lines[j]) by {
        assert forall|i: int| 0 <= i < w implies rows[j][i] == codes(lines[j])[i] by {
            assert(offset(Point { x: 0, y: 0 }, i, j) == (Point { x: i as i32, y: j as i32 }));
            assert(code(lines[j][i]) == codes(lines[j])[i]);
        }
        assert(rows[j] =~= codes(lines[j]));
    }
    lemma_joined_codes(rows, lines);
}

} // verus!
