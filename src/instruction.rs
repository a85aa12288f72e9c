//! The Befunge-98 instruction set, as methods of an instruction pointer.

use chrono::{Datelike, Timelike};
use vstd::prelude::*;

use crate::config::{Config, ExecAction, FileView, Input, Trace};
use crate::files::{characters, is_text, load_text, read_region, region, rendered, file_cell, file_cursor};
use crate::ip::{pass_spaces, replace_top, scan, Ip, QUOTE, SCAN_LIMIT};
use crate::point::{Delta, Point};
use crate::program::{input_wait_ok, Context, ExecResult, Request};
use crate::space::{leaves, Space};
use crate::stack::{StackStack, code, code_point, codes, created, deleted, popped, popped_string, restored, transferred};
use crate::text::{char_from, chars_of, is_scalar, string_from};
use crate::tree::SPACE;

verus! {

broadcast use crate::ip::group_replace_top;

/// The operands `(a, b)` of a binary instruction, `b` popped first, and the
/// stack after both pops.
pub open spec fn operands(t: Seq<i32>) -> (i32, i32, Seq<i32>) {
    let b = popped(t);
    let a = popped(b.1);
    (a.0, b.0, a.1)
}

/// `a / b` rounded toward zero and wrapping; 0 when `b` is 0.
pub open spec fn quotient(a: i32, b: i32) -> i32 {
    if b == 0 {
        0
    } else {
        a.checked_div(b).unwrap_or(i32::MIN)
    }
}

/// The remainder of `a / b` rounded toward zero; 0 when `b` is 0.
pub open spec fn remainder(a: i32, b: i32) -> i32 {
    if b == 0 {
        0
    } else {
        a.checked_rem(b).unwrap_or(0)
    }
}

/// The unit vector east.
pub open spec fn east() -> Delta {
    Delta { dx: 1, dy: 0 }
}

/// The unit vector south.
pub open spec fn south() -> Delta {
    Delta { dx: 0, dy: 1 }
}

/// The unit vector west.
pub open spec fn west() -> Delta {
    Delta { dx: -1i32, dy: 0 }
}

/// The unit vector north.
pub open spec fn north() -> Delta {
    Delta { dx: 0, dy: -1i32 }
}

/// The fingerprint of this interpreter that `y` reports: "JGMY".
pub const HANDPRINT: i32 = 0x4a47_4d59;

/// The version of this interpreter that `y` reports, one byte per part of
/// the dotted version number.
pub const VERSION: i32 = 0x0001_00;

/// The cell value of `/`, the path separator that `y` reports.
pub const PATH_SEPARATOR: i32 = 47;

/// The value popped at the `k`th pop (from 0) off `t`.
pub open spec fn nth_popped(t: Seq<i32>, k: nat) -> i32 {
    popped(popped_n(t, k)).0
}

/// Strings pushed one after another as `push_string` pushes them.
pub open spec fn strings_cells(ss: Seq<Seq<char>>) -> Seq<i32>
    decreases ss.len(),
{
    if ss.len() == 0 {
        Seq::empty()
    } else {
        strings_cells(ss.drop_last()).push(0).add(codes(ss.last()).reverse())
    }
}

/// The views of strings.
pub open spec fn views(ss: Seq<String>) -> Seq<Seq<char>> {
    ss.map_values(|s: String| s@)
}


/// The string part of the system information.
pub open spec fn strings_part(config: Config) -> Seq<i32> {
    seq![0i32].add(strings_cells(views(config.variables()))).add(seq![0i32, 0i32]).add(
        strings_cells(views(config.arguments()).reverse()),
    )
}

/// The stack sizes, each as a cell, followed by their number.
pub open spec fn sizes_part(sizes: Seq<usize>) -> Seq<i32> {
    sizes.map_values(|n: usize| #[verifier::truncate] (n as i32)).push(
        #[verifier::truncate] (sizes.len() as i32),
    )
}

/// The sizes of the stacks of `ss`, as `stack_sizes` lists them.
pub open spec fn sizes_of(ss: Seq<Seq<i32>>) -> Seq<i32> {
    sizes_part(ss.map_values(|s: Seq<i32>| s.len() as usize))
}

/// The fixed part of the system information about `ip`.
pub open spec fn state_part(ip: Ip, space: Space, config: Config, date: i32, time: i32) -> Seq<i32> {
    seq![
        time,
        date,
        space.high().0.wrapping_sub(space.low().0),
        space.high().1.wrapping_sub(space.low().1),
        space.low().0,
        space.low().1,
        ip.storage.x,
        ip.storage.y,
        ip.delta.dx,
        ip.delta.dy,
        ip.position.x,
        ip.position.y,
        0i32,
        ip.id,
        2i32,
        PATH_SEPARATOR,
        if config.commands() != ExecAction::Deny { 1i32 } else { 0i32 },
        VERSION,
        HANDPRINT,
        4i32,
        config_flags(config),
    ]
}

/// The cells that `y` pushes, bottom to top, for pointer `ip` with the
/// stacks `ss` (after the argument was popped), at date `date` and time
/// `time`.
pub open spec fn sysinfo_cells(ss: Seq<Seq<i32>>, ip: Ip, space: Space, config: Config, date: i32, time: i32) -> Seq<i32> {
    strings_part(config).add(sizes_of(ss)).add(state_part(ip, space, config, date, time))
}

/// The top stack after `y` with argument `n` on the stacks `ss` of `ip`.
pub open spec fn sysinfo_top(ss: Seq<Seq<i32>>, ip: Ip, space: Space, config: Config, n: i32, date: i32, time: i32) -> Seq<i32> {
    let all = ss.last().add(sysinfo_cells(ss, ip, space, config, date, time));
    if n > 0 {
        ss.last().push(if n <= all.len() { all[all.len() - n] } else { 0 })
    } else {
        all
    }
}

/// `new` is `old` after `y` at the given date and time.
pub open spec fn sysinfo_at(
    old: Ip,
    new: Ip,
    space: Space,
    config: Config,
    year: i32,
    month: u32,
    day: u32,
    hour: u32,
    minute: u32,
    second: u32,
) -> bool {
    let (n, below) = popped(old.top());
    let ss = replace_top(old.stacks@, below);
    &&& 1 <= month <= 12
    &&& 1 <= day <= 31
    &&& hour <= 23
    &&& minute <= 59
    &&& second <= 59
    &&& new.with_top(
        old,
        sysinfo_top(ss, old, space, config, n, date_cell(year, month, day), time_cell(hour, minute, second)),
    )
}

/// The flags that `y` reports for `config`.
pub open spec fn config_flags(config: Config) -> i32 {
    (1 + (if config.files() != FileView::Deny { 6int } else { 0int }) + (if config.commands()
        != ExecAction::Deny {
        8int
    } else {
        0int
    })) as i32
}

/// The date as `y` reports it: `(year - 1900) * 65536 + month * 256 + day`.
pub open spec fn date_cell(year: i32, month: u32, day: u32) -> i32 {
    #[verifier::truncate] (((year - 1900) * 65536 + month * 256 + day) as i32)
}

/// The time as `y` reports it: `hour * 65536 + minute * 256 + second`.
pub open spec fn time_cell(hour: u32, minute: u32, second: u32) -> i32 {
    (hour * 65536 + minute * 256 + second) as i32
}

/// The characters that the instruction set gives a meaning to (`h`, `l`,
/// `m` and the capitals are reserved and reflect like unknown ones).
pub open spec fn is_command(c: char) -> bool {
    ||| ('!' <= c && c <= '9')
    ||| c == ':' || c == '<' || c == '=' || c == '>' || c == '?' || c == '@'
    ||| c == '[' || c == '\\' || c == ']' || c == '^' || c == '_' || c == '`'
    ||| ('a' <= c && c <= 'g') || c == 'i' || c == 'j' || c == 'k'
    ||| ('n' <= c && c <= 'z') && c != 'r' || c == 'r'
    ||| c == '{' || c == '|' || c == '}' || c == '~'
}

/// The commands whose effect involves the pointer alone.
pub open spec fn is_local(c: char) -> bool {
    ||| c == '!' || c == '"' || c == '$' || c == '%' || c == '*' || c == '+' || c == '-'
    ||| c == '/' || ('0' <= c && c <= '9') || c == ':' || c == '<' || c == '>' || c == '['
    ||| c == '\\' || c == ']' || c == '^' || c == '_' || c == '`' || ('a' <= c && c <= 'f')
    ||| c == 'n' || c == 'r' || c == 'u' || c == 'v' || c == 'w' || c == 'x' || c == 'z'
    ||| c == '{' || c == '|' || c == '}' || c == '(' || c == ')'
}

/// What executing the command `c`, one of `is_local`, makes of the pointer
/// `old`: `new` is the result.
pub open spec fn local_effect(old: Ip, new: Ip, c: char) -> bool {
    let t = old.top();
    let (a, b, rest) = operands(t);
    let (v, below) = popped(t);
    if c == '!' {
        new.with_top(old, below.push(if v == 0 { 1i32 } else { 0i32 }))
    } else if c == '"' {
        new.string && !new.saw_space && new.stacks@ == old.stacks@ && new.position == old.position
            && new.delta == old.delta && new.storage == old.storage
    } else if c == '$' {
        new.with_top(old, below)
    } else if c == '%' {
        new.binary_result(old, remainder(a, b))
    } else if c == '*' {
        new.binary_result(old, a.wrapping_mul(b))
    } else if c == '+' {
        new.binary_result(old, a.wrapping_add(b))
    } else if c == '-' {
        new.binary_result(old, a.wrapping_sub(b))
    } else if c == '/' {
        new.binary_result(old, quotient(a, b))
    } else if '0' <= c && c <= '9' {
        new.with_top(old, t.push((c as u32 - '0' as u32) as i32))
    } else if 'a' <= c && c <= 'f' {
        new.with_top(old, t.push((c as u32 - 'a' as u32 + 10) as i32))
    } else if c == ':' {
        new.with_top(old, below.push(v).push(v))
    } else if c == '\\' {
        new.with_top(old, rest.push(b).push(a))
    } else if c == '`' {
        new.binary_result(old, if a > b { 1i32 } else { 0i32 })
    } else if c == '<' {
        new.with_delta(old, west())
    } else if c == '>' {
        new.with_delta(old, east())
    } else if c == '^' {
        new.with_delta(old, north())
    } else if c == 'v' {
        new.with_delta(old, south())
    } else if c == '[' {
        new.with_delta(old, old.delta.left())
    } else if c == ']' {
        new.with_delta(old, old.delta.right())
    } else if c == 'r' {
        new.with_delta(old, old.delta.reversed())
    } else if c == '_' {
        new.is(old, replace_top(old.stacks@, below), old.position, if v == 0 { east() } else { west() }, old.storage)
    } else if c == '|' {
        new.is(old, replace_top(old.stacks@, below), old.position, if v == 0 { south() } else { north() }, old.storage)
    } else if c == 'w' {
        new.is(
            old,
            replace_top(old.stacks@, rest),
            old.position,
            if a < b { old.delta.left() } else if a > b { old.delta.right() } else { old.delta },
            old.storage,
        )
    } else if c == 'x' {
        new.is(old, replace_top(old.stacks@, rest), old.position, Delta { dx: a, dy: b }, old.storage)
    } else if c == 'n' {
        new.with_top(old, Seq::empty())
    } else if c == 'z' {
        new.with_top(old, t)
    } else if c == '{' {
        new.is(old, created(replace_top(old.stacks@, below), v, old.storage), old.position, old.delta, old.position.plus(old.delta))
    } else if c == '}' {
        if old.stacks@.len() == 1 {
            new.with_delta(old, old.delta.reversed())
        } else {
            let s1 = replace_top(old.stacks@, below);
            new.is(old, deleted(s1, v), old.position, old.delta, restored(s1))
        }
    } else if c == '(' || c == ')' {
        new.is(
            old,
            replace_top(old.stacks@, if v <= 0 { below } else { popped_n(below, v as nat) }),
            old.position,
            old.delta.reversed(),
            old.storage,
        )
    } else if c == 'u' {
        if old.stacks@.len() == 1 {
            new.with_delta(old, old.delta.reversed())
        } else {
            new.is(old, transferred(replace_top(old.stacks@, below), v), old.position, old.delta, old.storage)
        }
    } else {
        false
    }
}

/// The commands that change the set of pointers or end the program.
pub open spec fn is_control(c: char) -> bool {
    c == '@' || c == 'q' || c == 't'
}

/// What executing `c`, one of `is_control`, makes of the pointer `old` and
/// the context `oc`: `new` and `nc` are the results.
pub open spec fn control_effect(old: Ip, new: Ip, oc: Context, nc: Context, c: char) -> bool {
    &&& nc.space == oc.space
    &&& nc.config == oc.config
    &&& nc.request == oc.request
    &&& c == '@' ==> new.is(old, old.stacks@, old.position, old.delta, old.storage) && nc.control@ == oc.control@.push(ExecResult::DeleteIp)
    &&& c == 'q' ==> new.with_top(old, popped(old.top()).1) && nc.control@ == oc.control@.push(
        ExecResult::Terminate(popped(old.top()).0),
    )
    &&& c == 't' ==> {
        &&& new.is(old, old.stacks@, old.position, old.delta, old.storage)
        &&& nc.control@.len() == oc.control@.len() + 1
        &&& nc.control@.drop_last() == oc.control@
        &&& nc.control@.last() is AddIp
        &&& nc.control@.last()->AddIp_0.is(old, old.stacks@, old.position, old.delta.reversed(), old.storage)
    }
}

/// What a tick makes of the pointer `old` and the context `oc`: `new` and
/// `nc` are the results. In string mode the next cell (after a run of
/// spaces, if a space came last) is pushed, or ends string mode; otherwise
/// the pointer moves to the next command, and its effect is stated for the
/// commands that act on the pointer alone, for those that change the set of
/// pointers, and for values that are no character.
pub open spec fn ticked(old: Ip, oc: Context, new: Ip, nc: Context) -> bool {
    &&& new.wf()
    &&& nc.wf()
    &&& new.id == old.id
    &&& old.string ==> {
        let p1 = oc.space.next(old.position, old.delta);
        let p2 = if old.saw_space {
            pass_spaces(oc.space, p1, old.delta, SCAN_LIMIT as nat)
        } else {
            p1
        };
        let v = oc.space.cell(p2);
        &&& nc == oc
        &&& new.position == p2
        &&& new.delta == old.delta
        &&& new.storage == old.storage
        &&& new.saw_space == (v == SPACE)
        &&& new.string == (v != QUOTE)
        &&& new.stacks@ == if v == QUOTE {
            old.stacks@
        } else {
            replace_top(old.stacks@, old.top().push(v))
        }
    }
    &&& !old.string ==> {
        let p = scan(oc.space, oc.space.next(old.position, old.delta), old.delta, false, SCAN_LIMIT as nat);
        let v = oc.space.cell(p);
        let at = Ip { position: p, ..old };
        &&& !is_scalar(code_point(v)) ==> new.is(old, old.stacks@, p, old.delta.reversed(), old.storage) && nc == oc
        &&& forall|c: char| code(c) == v && is_local(c) ==> local_effect(at, new, c) && nc.space == oc.space
            && nc.control == oc.control && nc.request == oc.request && nc.config == oc.config
        &&& forall|c: char| code(c) == v && is_control(c) ==> control_effect(at, new, oc, nc, c)
        &&& forall|c: char| code(c) == v && is_shared(c) ==> shared_effect(at, new, oc, nc, c)
        &&& v == 'k' as u32 as i32 ==> iterated(at, new, oc, nc)
        &&& v == '&' as u32 as i32 ==> read_number(at, new, oc, nc)
        &&& v == '~' as u32 as i32 ==> read_character(at, new, oc, nc)
        &&& v == 'o' as u32 as i32 ==> wrote_file(at, new, oc, nc)
        &&& v == 'i' as u32 as i32 ==> asked_file(at, new, oc, nc)
        &&& v == '=' as u32 as i32 ==> asked_command(at, new, oc, nc)
        &&& v == 'y' as u32 as i32 ==> nc.space == oc.space && nc.config == oc.config && nc.control == oc.control
            && nc.request == oc.request && exists|year: i32, month: u32, day: u32, hour: u32, minute: u32, second: u32|
            #[trigger] sysinfo_at(at, new, oc.space, oc.config, year, month, day, hour, minute, second)
    }
}

/// What `k` leaves to run after the host answers: nothing, or fewer than
/// `m` more executions of `c`.
pub open spec fn rest_of(r: Option<(char, i32)>, c: char, m: i32) -> bool {
    match r {
        None => true,
        Some((d, k)) => d == c && 0 < k < m,
    }
}

/// The commands whose effect involves the pointer and the space or the
/// output.
pub open spec fn is_shared(c: char) -> bool {
    c == '#' || c == 'j' || c == '\'' || c == 's' || c == 'g' || c == 'p' || c == '.' || c == ','
        || c == '?'
}

/// What executing `c`, one of `is_shared`, makes of the pointer `old` and
/// the context `oc`: `new` and `nc` are the results.
pub open spec fn shared_effect(old: Ip, new: Ip, oc: Context, nc: Context, c: char) -> bool {
    &&& nc.control == oc.control
    &&& nc.request == oc.request
    &&& shared_core(old, new, oc.space, oc.config, nc.space, nc.config, c)
}

/// The effect of `c`, one of `is_shared`, on the pointer, the space and the
/// configuration.
#[verifier::opaque]
pub open spec fn shared_core(old: Ip, new: Ip, sp: Space, cfg: Config, nsp: Space, ncfg: Config, c: char) -> bool {
    let t = old.top();
    let (a, b, rest) = operands(t);
    let (v, below) = popped(t);
    &&& c != '.' && c != ',' ==> ncfg == cfg
    &&& c != 's' && c != 'p' ==> nsp == sp
    &&& c == '#' ==> new.is(
        old,
        old.stacks@,
        if leaves(sp.low(), sp.high(), old.position, old.delta) { old.position } else { sp.next(old.position, old.delta) },
        old.delta,
        old.storage,
    )
    &&& c == 'j' ==> new.is(old, replace_top(old.stacks@, below), sp.next(old.position, old.delta.scaled(v)), old.delta, old.storage)
    &&& c == '\'' ==> new.is(
        old,
        replace_top(
            old.stacks@,
            t.push(if leaves(sp.low(), sp.high(), old.position, old.delta) { SPACE } else { sp.cell(old.position.plus(old.delta)) }),
        ),
        sp.next(old.position, old.delta),
        old.delta,
        old.storage,
    )
    &&& c == 's' ==> nsp.wf() && nsp.is_written(sp, old.position.plus(old.delta), v) && new.is(
        old,
        replace_top(old.stacks@, below),
        nsp.next(old.position, old.delta),
        old.delta,
        old.storage,
    )
    &&& c == 'g' ==> new.with_top(old, rest.push(sp.cell(old.storage.plus(Delta { dx: a, dy: b }))))
    &&& c == 'p' ==> nsp.wf() && new.with_top(old, popped(rest).1) && nsp.is_written(
        sp,
        old.storage.plus(Delta { dx: a, dy: b }),
        popped(rest).0,
    )
    &&& c == '.' ==> new.with_top(old, below) && ncfg.same_but_output(cfg)
        && ncfg.written() == cfg.written().add(crate::text::decimal(v as int)).push(' ')
    &&& c == ',' ==> ncfg.same_but_output(cfg) && if is_scalar(code_point(v)) {
        &&& new.with_top(old, below)
        &&& ncfg.written().len() == cfg.written().len() + 1
        &&& ncfg.written().drop_last() == cfg.written()
        &&& code(ncfg.written().last()) == v
    } else {
        new.is(old, replace_top(old.stacks@, below), old.position, old.delta.reversed(), old.storage)
            && ncfg.written() == cfg.written()
    }
    &&& c == '?' ==> new.is(old, old.stacks@, old.position, new.delta, old.storage) && (new.delta == east()
        || new.delta == south() || new.delta == west() || new.delta == north())
}

/// `new` is `old` after `n` executions of the local command `c`.
pub open spec fn repeated_local(old: Ip, new: Ip, c: char, n: nat) -> bool {
    exists|t: Seq<Ip>| #[trigger] local_chain(t, c) && t.len() == n + 1 && t[0] == old && t.last() == new
}

/// Each pointer of `t` is one execution of `c` after the one before.
pub open spec fn local_chain(t: Seq<Ip>, c: char) -> bool {
    forall|i: int| 0 <= i < t.len() - 1 ==> #[trigger] local_effect(t[i], t[i + 1], c)
}

/// One more execution of a local command extends a repetition.
proof fn lemma_repeated_step(old: Ip, mid: Ip, new: Ip, c: char, n: nat)
    requires
        repeated_local(old, mid, c, n),
        local_effect(mid, new, c),
    ensures
        repeated_local(old, new, c, n + 1),
{
    let t = choose|t: Seq<Ip>| #[trigger] local_chain(t, c) && t.len() == n + 1 && t[0] == old && t.last() == mid;
    let u = t.push(new);
    assert forall|i: int| 0 <= i < u.len() - 1 implies #[trigger] local_effect(u[i], u[i + 1], c) by {
        if i < t.len() - 1 {
            assert(local_effect(t[i], t[i + 1], c));
        }
    }
    assert(local_chain(u, c) && u.len() == n + 2 && u[0] == old && u.last() == new);
}

/// No execution is no change.
proof fn lemma_repeated_none(old: Ip, c: char)
    ensures
        repeated_local(old, old, c, 0),
{
    assert(local_chain(seq![old], c));
}

/// What `&` makes of the pointer `old` and the context `oc`: `new` and
/// `nc` are the results.
pub open spec fn read_number(old: Ip, new: Ip, oc: Context, nc: Context) -> bool {
    &&& nc.space == oc.space
    &&& nc.control == oc.control
    &&& nc.config.same_but_input(oc.config)
    &&& oc.config.waits() ==> nc.request == Some(Request::Input { decimal: true })
        && new.with_top(old, old.top())
    &&& !oc.config.waits() ==> nc.request == oc.request && new.with_top(
        old,
        old.top().push(crate::config::scan_decimal(oc.config.next_line().0).0)
    )
}

/// What `~` makes of the pointer `old` and the context `oc`: `new` and
/// `nc` are the results.
pub open spec fn read_character(old: Ip, new: Ip, oc: Context, nc: Context) -> bool {
    &&& nc.space == oc.space
    &&& nc.control == oc.control
    &&& nc.config.same_but_input(oc.config)
    &&& oc.config.waits() ==> nc.request == Some(Request::Input { decimal: false })
        && new.with_top(old, old.top())
    &&& !oc.config.waits() && oc.config.next_line().0.len() > 0 ==> nc.request
        == oc.request && new.with_top(
        old,
        old.top().push(oc.config.next_line().0[0] as u32 as i32)
    )
    &&& !oc.config.waits() && oc.config.next_line().0.len() == 0 ==> nc.request
        == oc.request && new.with_delta(old, old.delta.reversed())
}

/// What `o` makes of the pointer `old` and the context `oc`: `new` and
/// `nc` are the results.
pub open spec fn wrote_file(old: Ip, new: Ip, oc: Context, nc: Context) -> bool {
    &&& nc.space == oc.space
    &&& nc.control == oc.control
    &&& nc.config == oc.config
    &&& popped_string(old.top()).0 is None ==> nc.request == oc.request
        && new.is(
        old,
        replace_top(old.stacks@, popped_string(old.top()).1),
        old.position,
        old.delta.reversed(),
        old.storage
    )
    &&& popped_string(old.top()).0 is Some ==> {
        let t = popped_string(old.top()).1;
        let v = nth_popped(t, 0);
        let y = nth_popped(t, 1);
        let x = nth_popped(t, 2);
        let h = nth_popped(t, 3);
        let w = nth_popped(t, 4);
        let origin = old.storage.plus(Delta { dx: x, dy: y });
        let rows = region(
            oc.space,
            origin,
            if w > 0 { w as nat } else { 0 },
            if h > 0 { h as nat } else { 0 },
        );
        let text = rendered(rows, v & 1 == 1);
        let ok = is_text(text) && oc.config.files() != FileView::Deny;
        &&& new.stacks@ == replace_top(old.stacks@, popped_n(t, 5))
        &&& ok ==> new.with_top(old, popped_n(t, 5)) && nc.request is Some
            && nc.request->0 is WriteFile
            && codes(nc.request->0->WriteFile_path@) == popped_string(old.top()).0->0
            && codes(nc.request->0->WriteFile_data@) == text
        &&& !ok ==> nc.request == oc.request && new.is(
            old,
            replace_top(old.stacks@, popped_n(t, 5)),
            old.position,
            old.delta.reversed(),
            old.storage,
        )
    }
}

/// What `i` makes of the pointer `old` and the context `oc`: `new` and
/// `nc` are the results.
pub open spec fn asked_file(old: Ip, new: Ip, oc: Context, nc: Context) -> bool {
    &&& nc.space == oc.space
    &&& nc.control == oc.control
    &&& nc.config == oc.config
    &&& popped_string(old.top()).0 is None ==> nc.request == oc.request
        && new.is(
        old,
        replace_top(old.stacks@, popped_string(old.top()).1),
        old.position,
        old.delta.reversed(),
        old.storage
    )
    &&& popped_string(old.top()).0 is Some ==> {
        let t = popped_string(old.top()).1;
        let ok = oc.config.files() != FileView::Deny;
        &&& new.stacks@ == replace_top(old.stacks@, popped_n(t, 3))
        &&& ok ==> new.with_top(old, popped_n(t, 3)) && nc.request
            == Some(Request::ReadFile {
                path: nc.request->0->ReadFile_path,
                linear: nth_popped(t, 0) & 1 == 1,
                origin: Point { x: nth_popped(t, 2), y: nth_popped(t, 1) },
            })
            && codes(nc.request->0->ReadFile_path@) == popped_string(old.top()).0->0
        &&& !ok ==> nc.request == oc.request && new.is(
            old,
            replace_top(old.stacks@, popped_n(t, 3)),
            old.position,
            old.delta.reversed(),
            old.storage,
        )
    }
}

/// What `=` makes of the pointer `old` and the context `oc`: `new` and
/// `nc` are the results.
pub open spec fn asked_command(old: Ip, new: Ip, oc: Context, nc: Context) -> bool {
    &&& nc.space == oc.space
    &&& nc.control == oc.control
    &&& nc.config == oc.config
    &&& ({
        let ok = popped_string(old.top()).0 is Some && oc.config.commands()
            != ExecAction::Deny;
        &&& !ok ==> nc.request == oc.request && new.is(
            old,
            replace_top(old.stacks@, popped_string(old.top()).1),
            old.position,
            old.delta.reversed(),
            old.storage,
        )
        &&& ok ==> new.with_top(old, popped_string(old.top()).1)
            && nc.request is Some && nc.request->0 is Execute && codes(
            nc.request->0->Execute_command@,
        ) == popped_string(old.top()).0->0
    })
}

/// Both contexts agree on the space, the configuration, the changes asked
/// for and the request.
pub open spec fn same_state(oc: Context, nc: Context) -> bool {
    &&& nc.space == oc.space
    &&& nc.config == oc.config
    &&& nc.control == oc.control
    &&& nc.request == oc.request
}

/// What `k` makes of the pointer `old` and the context `oc`: `new` and `nc`
/// are the results.
pub open spec fn iterated(old: Ip, new: Ip, oc: Context, nc: Context) -> bool {
    &&& popped(old.top()).0 == 0 ==> new.is(
        old,
        replace_top(old.stacks@, popped(old.top()).1),
        oc.space.next(old.position, old.delta),
        old.delta,
        old.storage,
    ) && same_state(oc, nc)
    &&& popped(old.top()).0 < 0 ==> new.with_top(old, popped(old.top()).1)
        && same_state(oc, nc)
    &&& popped(old.top()).0 > 0 ==> {
        let v = oc.space.cell(
            scan(oc.space, oc.space.next(old.position, old.delta), old.delta, false, SCAN_LIMIT as nat),
        );
        &&& (!is_scalar(code_point(v)) || v == 'k' as u32 as i32) ==> same_state(oc, nc) && new.is(
            old,
            replace_top(old.stacks@, popped(old.top()).1),
            old.position,
            old.delta.reversed(),
            old.storage,
        )
        &&& forall|c: char| code(c) == v && is_idempotent(c) && is_local(c) ==> exists|p: Ip|
            p.with_top(old, popped(old.top()).1) && #[trigger] local_effect(p, new, c)
        &&& forall|c: char| code(c) == v && !is_idempotent(c) && is_local(c) && c != 'k' ==> exists|p: Ip|
            p.with_top(old, popped(old.top()).1) && #[trigger] repeated_local(
                p,
                new,
                c,
                popped(old.top()).0 as nat,
            )
    }
}

/// Commands that `k` executes once whatever its count.
pub open spec fn is_idempotent(c: char) -> bool {
    c == '<' || c == '>' || c == '?' || c == '@' || c == '^' || c == 'n' || c == 'q' || c == 'v'
        || c == 'z'
}

/// Whether `k` executes `c` once whatever its count.
fn idempotent(c: char) -> (r: bool)
    ensures
        r == is_idempotent(c),
{
    c == '<' || c == '>' || c == '?' || c == '@' || c == '^' || c == 'n' || c == 'q' || c == 'v'
        || c == 'z'
}

/// Relies on chrono's `Utc::now` and the `Datelike` and `Timelike` accessors:
/// the current UTC date and time as year, month (1 to 12), day (1 to 31),
/// hour (0 to 23), minute (0 to 59) and second (0 to 59).
#[verifier::external_body]
fn utc_now() -> (r: (i32, u32, u32, u32, u32, u32))
    ensures
        1 <= r.1 <= 12,
        1 <= r.2 <= 31,
        r.3 <= 23,
        r.4 <= 59,
        r.5 <= 59,
{
    let now = chrono::Utc::now();
    (now.year(), now.month(), now.day(), now.hour(), now.minute(), now.second())
}

/// Relies on `rand::random` for a `u8`: any value may come.
#[verifier::external_body]
fn random_byte() -> (r: u8) {
    rand::random::<u8>()
}

impl Ip {
    /// `self` is `old` with the top stack replaced by the result `r` of a
    /// binary instruction on the two top values.
    pub open spec fn binary_result(&self, old: Ip, r: i32) -> bool {
        self.with_top(old, operands(old.top()).2.push(r))
    }

    // Control flow

    /// `>`: sets the delta to east.
    pub fn go_east(&mut self)
        ensures
            final(self).with_delta(*old(self), east()),
    {
        self.set_delta(Delta { dx: 1, dy: 0 });
    }

    /// `v`: sets the delta to south.
    pub fn go_south(&mut self)
        ensures
            final(self).with_delta(*old(self), south()),
    {
        self.set_delta(Delta { dx: 0, dy: 1 });
    }

    /// `<`: sets the delta to west.
    pub fn go_west(&mut self)
        ensures
            final(self).with_delta(*old(self), west()),
    {
        self.set_delta(Delta { dx: -1, dy: 0 });
    }

    /// `^`: sets the delta to north.
    pub fn go_north(&mut self)
        ensures
            final(self).with_delta(*old(self), north()),
    {
        self.set_delta(Delta { dx: 0, dy: -1 });
    }

    /// `#`: steps over the next cell, unless the step would wrap.
    pub fn trampoline(&mut self, space: &Space)
        requires
            space.wf(),
        ensures
            final(self).is(
                *old(self),
                old(self).stacks@,
                if leaves(space.low(), space.high(), old(self).position, old(self).delta) {
                    old(self).position
                } else {
                    space.next(old(self).position, old(self).delta)
                },
                old(self).delta,
                old(self).storage,
            ),
    {
        if !space.is_last(self.position, self.delta) {
            self.step(space);
        }
    }

    /// `[`: turns 90 degrees to the left.
    pub fn turn_left(&mut self)
        ensures
            final(self).with_delta(*old(self), old(self).delta.left()),
    {
        self.delta = self.delta.rotate_left();
    }

    /// `]`: turns 90 degrees to the right.
    pub fn turn_right(&mut self)
        ensures
            final(self).with_delta(*old(self), old(self).delta.right()),
    {
        self.delta = self.delta.rotate_right();
    }

    /// `?`: sets the delta to one of the four directions, chosen by `r % 4`:
    /// east, south, west, north.
    pub fn set_direction(&mut self, r: u8)
        ensures
            final(self).with_delta(
                *old(self),
                if r % 4 == 0 {
                    east()
                } else if r % 4 == 1 {
                    south()
                } else if r % 4 == 2 {
                    west()
                } else {
                    north()
                },
            ),
    {
        let k = r % 4;
        if k == 0 {
            self.go_east();
        } else if k == 1 {
            self.go_south();
        } else if k == 2 {
            self.go_west();
        } else {
            self.go_north();
        }
    }

    /// `x`: pops `dy`, then `dx`, and sets the delta to `(dx, dy)`.
    pub fn absolute_delta(&mut self)
        requires
            old(self).wf(),
        ensures
            final(self).wf(),
            final(self).is(
                *old(self),
                replace_top(old(self).stacks@, operands(old(self).top()).2),
                old(self).position,
                Delta { dx: operands(old(self).top()).0, dy: operands(old(self).top()).1 },
                old(self).storage,
            ),
    {
        let dy = self.pop();
        let dx = self.pop();
        self.set_delta(Delta { dx, dy });
    }

    /// `j`: pops `n` and moves by `n` times the delta, wrapping.
    pub fn jump(&mut self, space: &Space)
        requires
            old(self).wf(),
            space.wf(),
        ensures
            final(self).wf(),
            final(self).is(
                *old(self),
                replace_top(old(self).stacks@, popped(old(self).top()).1),
                space.next(old(self).position, old(self).delta.scaled(popped(old(self).top()).0)),
                old(self).delta,
                old(self).storage,
            ),
    {
        let n = self.pop();
        let delta = self.delta;
        self.delta = delta.mul(n);
        self.step(space);
        self.delta = delta;
    }

    /// `@`: asks for the deletion of this pointer.
    pub fn stop(&self, control: &mut Vec<ExecResult>)
        ensures
            final(control)@ == old(control)@.push(ExecResult::DeleteIp),
    {
        control.push(ExecResult::DeleteIp);
    }

    /// `q`: pops a value and asks for the end of the program with it as the
    /// exit status.
    pub fn terminate(&mut self, control: &mut Vec<ExecResult>)
        requires
            old(self).wf(),
        ensures
            final(self).wf(),
            final(self).with_top(*old(self), popped(old(self).top()).1),
            final(control)@ == old(control)@.push(ExecResult::Terminate(popped(old(self).top()).0)),
    {
        let v = self.pop();
        control.push(ExecResult::Terminate(v));
    }

    // Logic

    /// `!`: pops a value, pushes 1 if it was 0 and 0 otherwise.
    pub fn negate(&mut self)
        requires
            old(self).wf(),
        ensures
            final(self).wf(),
            final(self).with_top(
                *old(self),
                popped(old(self).top()).1.push(if popped(old(self).top()).0 == 0 { 1i32 } else { 0i32 }),
            ),
    {
        let v = self.pop();
        if v == 0 {
            self.push(1);
        } else {
            self.push(0);
        }
    }

    /// `` ` ``: pops `b`, then `a`, pushes 1 if `a > b` and 0 otherwise.
    pub fn greater_than(&mut self)
        requires
            old(self).wf(),
        ensures
            final(self).wf(),
            final(self).binary_result(
                *old(self),
                if operands(old(self).top()).0 > operands(old(self).top()).1 { 1i32 } else { 0i32 },
            ),
    {
        let b = self.pop();
        let a = self.pop();
        if a > b {
            self.push(1);
        } else {
            self.push(0);
        }
    }

    /// `_`: pops a value, goes east if it was 0 and west otherwise.
    pub fn if_east_west(&mut self)
        requires
            old(self).wf(),
        ensures
            final(self).wf(),
            final(self).is(
                *old(self),
                replace_top(old(self).stacks@, popped(old(self).top()).1),
                old(self).position,
                if popped(old(self).top()).0 == 0 { east() } else { west() },
                old(self).storage,
            ),
    {
        let v = self.pop();
        if v == 0 {
            self.go_east();
        } else {
            self.go_west();
        }
    }

    /// `|`: pops a value, goes south if it was 0 and north otherwise.
    pub fn if_north_south(&mut self)
        requires
            old(self).wf(),
        ensures
            final(self).wf(),
            final(self).is(
                *old(self),
                replace_top(old(self).stacks@, popped(old(self).top()).1),
                old(self).position,
                if popped(old(self).top()).0 == 0 { south() } else { north() },
                old(self).storage,
            ),
    {
        let v = self.pop();
        if v == 0 {
            self.go_south();
        } else {
            self.go_north();
        }
    }

    /// `w`: pops `b`, then `a`; turns left if `a < b`, right if `a > b`.
    pub fn compare(&mut self)
        requires
            old(self).wf(),
        ensures
            final(self).wf(),
            final(self).is(
                *old(self),
                replace_top(old(self).stacks@, operands(old(self).top()).2),
                old(self).position,
                if operands(old(self).top()).0 < operands(old(self).top()).1 {
                    old(self).delta.left()
                } else if operands(old(self).top()).0 > operands(old(self).top()).1 {
                    old(self).delta.right()
                } else {
                    old(self).delta
                },
                old(self).storage,
            ),
    {
        let b = self.pop();
        let a = self.pop();
        if a < b {
            self.turn_left();
        } else if a > b {
            self.turn_right();
        }
    }

    // Stack manipulation

    /// `$`: pops a value and discards it.
    pub fn discard(&mut self)
        requires
            old(self).wf(),
        ensures
            final(self).wf(),
            final(self).with_top(*old(self), popped(old(self).top()).1),
    {
        self.pop();
    }

    /// `:`: duplicates the top value (an empty stack gives two zeros).
    pub fn duplicate(&mut self)
        requires
            old(self).wf(),
        ensures
            final(self).wf(),
            final(self).with_top(
                *old(self),
                popped(old(self).top()).1.push(popped(old(self).top()).0).push(popped(old(self).top()).0),
            ),
    {
        let v = self.pop();
        self.push(v);
        self.push(v);
    }

    /// `\`: swaps the two top values.
    pub fn swap(&mut self)
        requires
            old(self).wf(),
        ensures
            final(self).wf(),
            final(self).with_top(
                *old(self),
                operands(old(self).top()).2.push(operands(old(self).top()).1).push(operands(old(self).top()).0),
            ),
    {
        let v = self.pop();
        let w = self.pop();
        self.push(v);
        self.push(w);
    }

    /// `n`: empties the top stack.
    pub fn clear(&mut self)
        requires
            old(self).wf(),
        ensures
            final(self).wf(),
            final(self).with_top(*old(self), Seq::empty()),
    {
        self.stacks.clear();
    }

    // Stack stack manipulation

    /// `{`: pops `n`, begins a block of `n` values, saves the storage offset
    /// and sets it to the cell after this one.
    pub fn begin_block(&mut self)
        requires
            old(self).wf(),
        ensures
            final(self).wf(),
            final(self).is(
                *old(self),
                created(replace_top(old(self).stacks@, popped(old(self).top()).1), popped(old(self).top()).0, old(self).storage),
                old(self).position,
                old(self).delta,
                old(self).position.plus(old(self).delta),
            ),
    {
        let n = self.pop();
        self.stacks.create_stack(n, self.storage);
        self.storage = self.position.add(self.delta);
    }

    /// `}`: reflects if there is a single stack; otherwise pops `n`, ends the
    /// block carrying `n` values over, and restores the storage offset.
    pub fn end_block(&mut self)
        requires
            old(self).wf(),
        ensures
            final(self).wf(),
            old(self).stacks@.len() == 1 ==> final(self).with_delta(*old(self), old(self).delta.reversed()),
            old(self).stacks@.len() > 1 ==> {
                let s1 = replace_top(old(self).stacks@, popped(old(self).top()).1);
                final(self).is(
                    *old(self),
                    deleted(s1, popped(old(self).top()).0),
                    old(self).position,
                    old(self).delta,
                    restored(s1),
                )
            },
    {
        if self.stacks.single() {
            self.reflect();
            return;
        }
        let n = self.pop();
        let storage = self.stacks.delete_stack(n);
        self.storage = storage;
    }

    /// `u`: reflects if there is a single stack; otherwise pops `n` and moves
    /// `n` values between the second stack and the top one.
    pub fn dig(&mut self)
        requires
            old(self).wf(),
        ensures
            final(self).wf(),
            old(self).stacks@.len() == 1 ==> final(self).with_delta(*old(self), old(self).delta.reversed()),
            old(self).stacks@.len() > 1 ==> final(self).is(
                *old(self),
                transferred(replace_top(old(self).stacks@, popped(old(self).top()).1), popped(old(self).top()).0),
                old(self).position,
                old(self).delta,
                old(self).storage,
            ),
    {
        if self.stacks.single() {
            self.reflect();
            return;
        }
        let n = self.pop();
        self.stacks.transfer_elements(n);
    }

    // Arithmetic

    /// `+`: pops `b`, then `a`, pushes `a + b`, wrapping.
    pub fn add(&mut self)
        requires
            old(self).wf(),
        ensures
            final(self).wf(),
            final(self).binary_result(*old(self), operands(old(self).top()).0.wrapping_add(operands(old(self).top()).1)),
    {
        let b = self.pop();
        let a = self.pop();
        self.push(a.wrapping_add(b));
    }

    /// `-`: pops `b`, then `a`, pushes `a - b`, wrapping.
    pub fn sub(&mut self)
        requires
            old(self).wf(),
        ensures
            final(self).wf(),
            final(self).binary_result(*old(self), operands(old(self).top()).0.wrapping_sub(operands(old(self).top()).1)),
    {
        let b = self.pop();
        let a = self.pop();
        self.push(a.wrapping_sub(b));
    }

    /// `*`: pops `b`, then `a`, pushes `a * b`, wrapping.
    pub fn mul(&mut self)
        requires
            old(self).wf(),
        ensures
            final(self).wf(),
            final(self).binary_result(*old(self), operands(old(self).top()).0.wrapping_mul(operands(old(self).top()).1)),
    {
        let b = self.pop();
        let a = self.pop();
        self.push(a.wrapping_mul(b));
    }

    /// `/`: pops `b`, then `a`, pushes `a / b` rounded toward zero; 0 when
    /// `b` is 0.
    pub fn div(&mut self)
        requires
            old(self).wf(),
        ensures
            final(self).wf(),
            final(self).binary_result(*old(self), quotient(operands(old(self).top()).0, operands(old(self).top()).1)),
    {
        let b = self.pop();
        let a = self.pop();
        let r = if b == 0 {
            0
        } else {
            match a.checked_div(b) {
                Some(q) => q,
                None => i32::MIN,
            }
        };
        self.push(r);
    }

    /// `%`: pops `b`, then `a`, pushes the remainder of `a / b`; 0 when `b`
    /// is 0.
    pub fn rem(&mut self)
        requires
            old(self).wf(),
        ensures
            final(self).wf(),
            final(self).binary_result(*old(self), remainder(operands(old(self).top()).0, operands(old(self).top()).1)),
    {
        let b = self.pop();
        let a = self.pop();
        let r = if b == 0 {
            0
        } else {
            match a.checked_rem(b) {
                Some(q) => q,
                None => 0,
            }
        };
        self.push(r);
    }

    // Strings

    /// `"`: enters string mode.
    pub fn string_mode(&mut self)
        ensures
            final(self).string,
            !final(self).saw_space,
            final(self).stacks@ == old(self).stacks@,
            final(self).position == old(self).position,
            final(self).delta == old(self).delta,
            final(self).storage == old(self).storage,
            final(self).id == old(self).id,
    {
        self.string = true;
        self.saw_space = false;
    }

    /// `'`: pushes the next cell (a space if the step would wrap) and steps
    /// over it.
    pub fn fetch_char(&mut self, space: &Space)
        requires
            old(self).wf(),
            space.wf(),
        ensures
            final(self).wf(),
            final(self).is(
                *old(self),
                replace_top(
                    old(self).stacks@,
                    old(self).top().push(
                        if leaves(space.low(), space.high(), old(self).position, old(self).delta) {
                            SPACE
                        } else {
                            space.cell(old(self).position.plus(old(self).delta))
                        },
                    ),
                ),
                space.next(old(self).position, old(self).delta),
                old(self).delta,
                old(self).storage,
            ),
    {
        let v = if space.is_last(self.position, self.delta) {
            SPACE
        } else {
            space.get(self.position.add(self.delta))
        };
        self.push(v);
        self.step(space);
    }

    /// `s`: pops a value, writes it to the next cell and steps over it.
    pub fn store_char(&mut self, space: &mut Space)
        requires
            old(self).wf(),
            old(space).wf(),
        ensures
            final(self).wf(),
            final(space).wf(),
            final(space).is_written(*old(space), old(self).position.plus(old(self).delta), popped(old(self).top()).0),
            final(self).is(
                *old(self),
                replace_top(old(self).stacks@, popped(old(self).top()).1),
                final(space).next(old(self).position, old(self).delta),
                old(self).delta,
                old(self).storage,
            ),
    {
        let v = self.pop();
        space.set(self.position.add(self.delta), v);
        self.step(space);
    }

    // Reflection

    /// `g`: pops `dy`, then `dx`, and pushes the cell at the storage offset
    /// plus `(dx, dy)`.
    pub fn get(&mut self, space: &Space)
        requires
            old(self).wf(),
            space.wf(),
        ensures
            final(self).wf(),
            final(self).with_top(
                *old(self),
                operands(old(self).top()).2.push(
                    space.cell(old(self).storage.plus(Delta { dx: operands(old(self).top()).0, dy: operands(old(self).top()).1 })),
                ),
            ),
    {
        let dy = self.pop();
        let dx = self.pop();
        let v = space.get(self.storage.add(Delta { dx, dy }));
        self.push(v);
    }

    /// `p`: pops `dy`, `dx` and `v`, and writes `v` at the storage offset
    /// plus `(dx, dy)`.
    pub fn put(&mut self, space: &mut Space)
        requires
            old(self).wf(),
            old(space).wf(),
        ensures
            final(self).wf(),
            final(space).wf(),
            final(self).with_top(*old(self), popped(operands(old(self).top()).2).1),
            final(space).is_written(
                *old(space),
                old(self).storage.plus(Delta { dx: operands(old(self).top()).0, dy: operands(old(self).top()).1 }),
                popped(operands(old(self).top()).2).0,
            ),
    {
        let dy = self.pop();
        let dx = self.pop();
        let v = self.pop();
        space.set(self.storage.add(Delta { dx, dy }), v);
    }

    // Concurrency

    /// `t`: asks for a copy of this pointer, facing the other way, to be
    /// added before it.
    pub fn split(&mut self, control: &mut Vec<ExecResult>)
        requires
            old(self).wf(),
        ensures
            *final(self) == *old(self),
            final(control)@.len() == old(control)@.len() + 1,
            final(control)@.drop_last() == old(control)@,
            final(control)@.last() is AddIp,
            ({
                let c = final(control)@.last()->AddIp_0;
                c.wf() && c.is(*old(self), old(self).stacks@, old(self).position, old(self).delta.reversed(), old(self).storage)
            }),
    {
        let mut ip = Ip {
            id: self.id,
            position: self.position,
            delta: self.delta,
            storage: self.storage,
            stacks: self.stacks.duplicate(),
            string: self.string,
            saw_space: self.saw_space,
        };
        ip.reflect();
        control.push(ExecResult::AddIp(ip));
        assert(control@.drop_last() =~= old(control)@);
    }

    /// `?`: sets the delta to a direction chosen at random.
    pub fn randomize_delta(&mut self)
        ensures
            final(self).is(*old(self), old(self).stacks@, old(self).position, final(self).delta, old(self).storage),
            final(self).delta == east() || final(self).delta == south() || final(self).delta == west()
                || final(self).delta == north(),
    {
        let r = random_byte();
        self.set_direction(r);
    }

    // Input and output

    /// `.`: pops a value and writes it in decimal, followed by a space.
    pub fn output_decimal(&mut self, config: &mut Config)
        requires
            old(self).wf(),
            old(config).wf(),
        ensures
            final(self).wf(),
            final(self).with_top(*old(self), popped(old(self).top()).1),
            final(config).written() == old(config).written().add(
                crate::text::decimal(popped(old(self).top()).0 as int),
            ).push(' '),
            final(config).same_but_output(*old(config)),
    {
        let v = self.pop();
        config.write_decimal(v);
    }

    /// `,`: pops a value and writes it as a character; reflects if it is no
    /// Unicode scalar value.
    pub fn output_char(&mut self, config: &mut Config)
        requires
            old(self).wf(),
            old(config).wf(),
        ensures
            final(self).wf(),
            final(config).same_but_output(*old(config)),
            is_scalar(code_point(popped(old(self).top()).0)) ==> {
                &&& final(self).with_top(*old(self), popped(old(self).top()).1)
                &&& final(config).written().len() == old(config).written().len() + 1
                &&& final(config).written().drop_last() == old(config).written()
                &&& code(final(config).written().last()) == popped(old(self).top()).0
            },
            !is_scalar(code_point(popped(old(self).top()).0)) ==> {
                &&& final(self).is(
                    *old(self),
                    replace_top(old(self).stacks@, popped(old(self).top()).1),
                    old(self).position,
                    old(self).delta.reversed(),
                    old(self).storage,
                )
                &&& final(config).written() == old(config).written()
            },
    {
        let v = self.pop();
        proof {
            crate::stack::lemma_code_point(v);
        }
        match char_from(#[verifier::truncate] (v as u32)) {
            Some(c) => {
                config.write_char(c);
                assert(config.written().drop_last() =~= old(config).written());
            },
            None => self.reflect(),
        }
    }

    /// `&`: reads a decimal number and pushes it; when no input is at hand,
    /// asks the host for a line and changes nothing else.
    pub fn input_decimal(&mut self, ctx: &mut Context)
        requires
            old(self).wf(),
            old(ctx).wf(),
        ensures
            final(self).wf(),
            final(ctx).wf(),
            input_wait_ok(*old(ctx), *final(ctx)),
            final(ctx).repeat == old(ctx).repeat,
            final(ctx).traces == old(ctx).traces,

            read_number(*old(self), *final(self), *old(ctx), *final(ctx)),
    {
        match ctx.config.read_decimal() {
            Input::Value(v) => self.push(v),
            _ => {
                ctx.request = Some(Request::Input { decimal: true });
            },
        }
    }

    /// `~`: reads a character and pushes it; reflects at the end of the
    /// input; when no input is at hand, asks the host for a line.
    pub fn input_char(&mut self, ctx: &mut Context)
        requires
            old(self).wf(),
            old(ctx).wf(),
        ensures
            final(self).wf(),
            final(ctx).wf(),
            input_wait_ok(*old(ctx), *final(ctx)),
            final(ctx).repeat == old(ctx).repeat,
            final(ctx).traces == old(ctx).traces,

            read_character(*old(self), *final(self), *old(ctx), *final(ctx)),
    {
        match ctx.config.read_char() {
            Input::Value(v) => self.push(v),
            Input::End => self.reflect(),
            Input::Pending => {
                ctx.request = Some(Request::Input { decimal: false });
            },
        }
    }

    // Files and commands

    /// `o`: pops a path, a flag `v`, the corner `(x, y)` and the size `(w,
    /// h)`, and asks the host to write the region at the storage offset plus
    /// `(x, y)` to the path, trimmed if `v` is odd. Reflects if the path is no
    /// string, a cell is no character, or files are denied.
    pub fn write_file(&mut self, ctx: &mut Context)
        requires
            old(self).wf(),
            old(ctx).wf(),
        ensures
            final(self).wf(),
            final(ctx).wf(),
            input_wait_ok(*old(ctx), *final(ctx)),

            wrote_file(*old(self), *final(self), *old(ctx), *final(ctx)),
    {
        match self.pop_string() {
            None => self.reflect(),
            Some(path) => {
                let ghost t = self.top();
                proof {
                    reveal_with_fuel(popped_n, 6);
                }
                let v = self.pop();
                assert(v == nth_popped(t, 0) && self.top() == popped_n(t, 1));
                let y = self.pop();
                assert(y == nth_popped(t, 1) && self.top() == popped_n(t, 2));
                let x = self.pop();
                assert(x == nth_popped(t, 2) && self.top() == popped_n(t, 3));
                let h = self.pop();
                assert(h == nth_popped(t, 3) && self.top() == popped_n(t, 4));
                let w = self.pop();
                assert(w == nth_popped(t, 4) && self.top() == popped_n(t, 5));
                let origin = self.storage.add(Delta { dx: x, dy: y });
                let rows = read_region(&ctx.space, origin, if w > 0 { w } else { 0 }, if h > 0 { h } else { 0 });
                proof {
                    assert(rows@.map_values(|r: Vec<i32>| r@) =~= region(
                        ctx.space,
                        origin,
                        if w > 0 { w as nat } else { 0 },
                        if h > 0 { h as nat } else { 0 },
                    ));
                }
                let text = crate::files::render(&rows, v & 1 == 1);
                assert(text@ == rendered(
                    region(ctx.space, origin, if w > 0 { w as nat } else { 0 }, if h > 0 { h as nat } else { 0 }),
                    v & 1 == 1,
                ));
                match characters(&text) {
                    None => self.reflect(),
                    Some(cs) => {
                        if ctx.config.get_file_view() == FileView::Deny {
                            self.reflect();
                        } else {
                            let data = string_from(&cs);
                            assert(codes(data@) == text@);
                            ctx.request = Some(Request::WriteFile { path, data });
                        }
                    },
                }
            },
        }
    }

    /// `i`: pops a path, a flag `v` and the corner `(x, y)`, and asks the host
    /// for the file, to be loaded at the storage offset plus `(x, y)`, as one
    /// line if `v` is odd. Reflects if the path is no string or files are
    /// denied.
    pub fn read_file(&mut self, ctx: &mut Context)
        requires
            old(self).wf(),
            old(ctx).wf(),
        ensures
            final(self).wf(),
            final(ctx).wf(),
            input_wait_ok(*old(ctx), *final(ctx)),

            asked_file(*old(self), *final(self), *old(ctx), *final(ctx)),
    {
        match self.pop_string() {
            None => self.reflect(),
            Some(path) => {
                let ghost t = self.top();
                proof {
                    reveal_with_fuel(popped_n, 4);
                }
                let v = self.pop();
                assert(v == nth_popped(t, 0) && self.top() == popped_n(t, 1));
                let y = self.pop();
                assert(y == nth_popped(t, 1) && self.top() == popped_n(t, 2));
                let x = self.pop();
                assert(x == nth_popped(t, 2) && self.top() == popped_n(t, 3));
                if ctx.config.get_file_view() == FileView::Deny {
                    self.reflect();
                } else {
                    ctx.request = Some(Request::ReadFile { path, linear: v & 1 == 1, origin: Point { x, y } });
                }
            },
        }
    }

    /// Finishes `i` with the contents of the file, `None` if it could not be
    /// read: loads the text at the storage offset plus `origin` (line breaks
    /// start new rows unless `linear`; spaces leave cells as they were) and
    /// pushes the width, the height, `origin.x` and `origin.y`.
    pub fn load_file(&mut self, space: &mut Space, text: Option<&str>, linear: bool, origin: Point)
        requires
            old(self).wf(),
            old(space).wf(),
        ensures
            final(self).wf(),
            final(space).wf(),
            text is None ==> *final(space) == *old(space) && final(self).with_delta(*old(self), old(self).delta.reversed()),
            text is Some ==> {
                let s = text->0@;
                let at = file_cursor(s, linear, origin.x, origin.y);
                &&& forall|p: Point| #[trigger] final(space).cell(p) == file_cell(
                    *old(space),
                    s,
                    linear,
                    origin.x,
                    origin.y,
                    old(self).storage,
                    p,
                )
                &&& final(self).with_top(
                    *old(self),
                    old(self).top().push(at.2).push(at.1.wrapping_sub(origin.y)).push(origin.x).push(origin.y),
                )
            },
    {
        match text {
            None => self.reflect(),
            Some(s) => {
                let (w, h) = load_text(space, s, linear, origin.x, origin.y, self.storage);
                self.push(w);
                self.push(h);
                self.push(origin.x);
                self.push(origin.y);
            },
        }
    }

    /// `=`: pops a command string and asks the host to run it with the system
    /// shell. Reflects if it is no string or commands are denied.
    pub fn system_execute(&mut self, ctx: &mut Context)
        requires
            old(self).wf(),
            old(ctx).wf(),
        ensures
            final(self).wf(),
            final(ctx).wf(),
            input_wait_ok(*old(ctx), *final(ctx)),

            asked_command(*old(self), *final(self), *old(ctx), *final(ctx)),
    {
        match self.pop_string() {
            None => self.reflect(),
            Some(command) => {
                if ctx.config.get_exec_action() == ExecAction::Deny {
                    self.reflect();
                } else {
                    ctx.request = Some(Request::Execute { command });
                }
            },
        }
    }

    /// Finishes `=` with the exit status of the command, `None` if there is
    /// none: pushes it, or reflects.
    pub fn finish_execute(&mut self, status: Option<i32>)
        requires
            old(self).wf(),
        ensures
            final(self).wf(),
            status is Some ==> final(self).with_top(*old(self), old(self).top().push(status->0)),
            status is None ==> final(self).with_delta(*old(self), old(self).delta.reversed()),
    {
        match status {
            Some(v) => self.push(v),
            None => self.reflect(),
        }
    }

    // System information

    /// Pushes a string as `push_string` does, without counting the cells.
    fn push_chars(&mut self, s: &String)
        requires
            old(self).wf(),
        ensures
            final(self).wf(),
            final(self).with_top(*old(self), old(self).top().push(0).add(codes(s@).reverse())),
    {
        let chars = chars_of(s.as_str());
        self.push(0);
        let ghost t0 = self.top();
        let mut i: usize = chars.len();
        assert(t0.add(codes(s@.subrange(i as int, s@.len() as int)).reverse()) =~= t0);
        while i > 0
            invariant
                old(self).wf(),
                self.wf(),
                i <= chars@.len(),
                chars@ == s@,
                t0 == old(self).top().push(0),
                self.with_top(*old(self), t0.add(codes(s@.subrange(i as int, s@.len() as int)).reverse())),
            decreases i,
        {
            i = i - 1;
            let c = chars[i];
            self.push(c as u32 as i32);
            proof {
                assert(t0.add(codes(s@.subrange(i as int, s@.len() as int)).reverse()) =~= t0.add(
                    codes(s@.subrange(i + 1, s@.len() as int)).reverse(),
                ).push(code(s@[i as int])));
            }
        }
        assert(s@.subrange(0, s@.len() as int) =~= s@);
    }

    /// Pushes strings one after another.
    fn push_all(&mut self, ss: &Vec<String>, reversed: bool)
        requires
            old(self).wf(),
        ensures
            final(self).wf(),
            final(self).with_top(
                *old(self),
                old(self).top().add(strings_cells(if reversed { views(ss@).reverse() } else { views(ss@) })),
            ),
    {
        let ghost order = if reversed { views(ss@).reverse() } else { views(ss@) };
        let mut k: usize = 0;
        assert(old(self).top().add(strings_cells(order.take(0))) =~= old(self).top());
        while k < ss.len()
            invariant
                old(self).wf(),
                self.wf(),
                k <= ss@.len(),
                order == if reversed { views(ss@).reverse() } else { views(ss@) },
                self.with_top(*old(self), old(self).top().add(strings_cells(order.take(k as int)))),
            decreases ss@.len() - k,
        {
            let i = if reversed { ss.len() - 1 - k } else { k };
            self.push_chars(&ss[i]);
            proof {
                assert(order.take(k + 1).drop_last() =~= order.take(k as int));
                assert(order[k as int] == ss@[i as int]@);
                assert(old(self).top().add(strings_cells(order.take(k + 1))) =~= old(self).top().add(
                    strings_cells(order.take(k as int)),
                ).push(0).add(codes(ss@[i as int]@).reverse()));
            }
            k = k + 1;
        }
        assert(order.take(k as int) =~= order);
    }

    /// Pushes the string part of the system information: a 0, the
    /// environment variables, two zeros, and the arguments, last first.
    fn push_strings(&mut self, config: &Config)
        requires
            old(self).wf(),
        ensures
            final(self).wf(),
            final(self).with_top(
                *old(self),
                old(self).top().add(strings_part(*config)),
            ),
    {
        self.push(0);
        self.push_all(config.get_vars(), false);
        self.push(0);
        self.push(0);
        self.push_all(config.get_args(), true);
        assert(self.top() =~= old(self).top().add(strings_part(*config)));
    }

    /// Pushes the size of each stack in `sizes`, bottommost first, and
    /// their number.
    fn push_sizes(&mut self, sizes: &Vec<usize>)
        requires
            old(self).wf(),
        ensures
            final(self).wf(),
            final(self).with_top(
                *old(self),
                old(self).top().add(sizes_part(sizes@)),
            ),
    {
        let mut k: usize = 0;
        assert(old(self).top().add(sizes_part(sizes@).take(0)) =~= old(self).top());
        while k < sizes.len()
            invariant
                old(self).wf(),
                self.wf(),
                k <= sizes@.len(),
                self.with_top(*old(self), old(self).top().add(sizes_part(sizes@).take(k as int))),
            decreases sizes@.len() - k,
        {
            self.push(sizes[k] as i32);
            proof {
                assert(old(self).top().add(sizes_part(sizes@).take(k + 1)) =~= old(self).top().add(
                    sizes_part(sizes@).take(k as int),
                ).push(#[verifier::truncate] (sizes@[k as int] as i32)));
            }
            k = k + 1;
        }
        self.push(sizes.len() as i32);
        assert(self.top() =~= old(self).top().add(sizes_part(sizes@)));
    }

    /// Pushes the fixed part of the system information about `ip`.
    fn push_state(&mut self, ip: &Ip, space: &Space, config: &Config, date: i32, time: i32)
        requires
            old(self).wf(),
            space.wf(),
        ensures
            final(self).wf(),
            final(self).with_top(*old(self), old(self).top().add(state_part(*ip, *space, *config, date, time))),
    {
        let (x0, y0) = space.min();
        let (x1, y1) = space.max();
        self.push(time);
        self.push(date);
        self.push(x1.wrapping_sub(x0));
        self.push(y1.wrapping_sub(y0));
        self.push(x0);
        self.push(y0);
        self.push(ip.storage.x);
        self.push(ip.storage.y);
        self.push(ip.delta.dx);
        self.push(ip.delta.dy);
        self.push(ip.position.x);
        self.push(ip.position.y);
        self.push(0);
        self.push(ip.id);
        self.push(2);
        self.push(PATH_SEPARATOR);
        self.push(config.operating_paradigm());
        self.push(VERSION);
        self.push(HANDPRINT);
        self.push(4);
        self.push(config.flags());
        assert(self.top() =~= old(self).top().add(state_part(*ip, *space, *config, date, time)));
    }

    /// Pushes the system information block that `y` reports, for the date
    /// `date` and the time `time`; for `n > 0` the block is then replaced by
    /// the `n`th cell counted from the top.
    pub fn push_sysinfo(&mut self, space: &Space, config: &Config, n: i32, date: i32, time: i32)
        requires
            old(self).wf(),
            space.wf(),
        ensures
            final(self).wf(),
            final(self).with_top(*old(self), sysinfo_top(old(self).stacks@, *old(self), *space, *config, n, date, time)),
    {
        let sizes = self.stacks.stack_sizes();
        let ghost t0 = self.top();
        let t_len = sizes[sizes.len() - 1];
        let me = Ip {
            id: self.id,
            position: self.position,
            delta: self.delta,
            storage: self.storage,
            stacks: StackStack::new(),
            string: false,
            saw_space: false,
        };
        self.push_strings(config);
        self.push_sizes(&sizes);
        self.push_state(&me, space, config, date, time);
        proof {
            assert(sizes@ =~= old(self).stacks@.map_values(|s: Seq<i32>| s.len() as usize));
            assert(sizes_part(sizes@) =~= sizes_of(old(self).stacks@));
            assert(self.top() =~= t0.add(sysinfo_cells(old(self).stacks@, *old(self), *space, *config, date, time)));
        }
        if n > 0 {
            let ghost all = self.top();
            let v = self.stacks.nth(n as usize);
            assert(v == if n <= all.len() { all[all.len() - n] } else { 0 });
            let now = self.stacks.stack_sizes();
            let len = now[now.len() - 1];
            self.stacks.delete_cells(len - t_len);
            assert(self.top() =~= t0);
            assert(self.stacks@ =~= replace_top(old(self).stacks@, t0));
            self.push(v);
        } else {
            assert(self.with_top(*old(self), old(self).top().add(sysinfo_cells(old(self).stacks@, *old(self), *space, *config, date, time))));
        }
    }

    /// `y`: pops `n` and pushes the system information block (or, for `n >
    /// 0`, its `n`th cell from the top) for the current date and time.
    pub fn get_sysinfo(&mut self, space: &Space, config: &Config)
        requires
            old(self).wf(),
            space.wf(),
        ensures
            final(self).wf(),
            exists|year: i32, month: u32, day: u32, hour: u32, minute: u32, second: u32|
                #[trigger] sysinfo_at(*old(self), *final(self), *space, *config, year, month, day, hour, minute, second),
    {
        let n = self.pop();
        let (year, month, day, hour, minute, second) = utc_now();
        let date = #[verifier::truncate] (((year as i64 - 1900) * 65536 + month as i64 * 256 + day as i64) as i32);
        let time = (hour * 65536 + minute * 256 + second) as i32;
        assert(date == date_cell(year, month, day));
        assert(time == time_cell(hour, minute, second));
        self.push_sysinfo(space, config, n, date, time);
        assert(sysinfo_at(*old(self), *self, *space, *config, year, month, day, hour, minute, second));
    }

    // Iteration

    /// `k`: pops `n`. For `n = 0` it steps over the next command; for `n < 0`
    /// it does nothing more. For `n > 0` it executes the next command `n`
    /// times, or once if the command is idempotent; the iteration stops early
    /// when the command asks the host for work. Iterating `k` itself, which
    /// the language leaves undefined, reflects.
    pub fn iterate(&mut self, ctx: &mut Context)
        requires
            old(ctx).request is None,
            old(self).wf(),
            old(ctx).wf(),
        ensures
            final(self).wf(),
            final(ctx).wf(),
            final(self).id == old(self).id,
            iterated(*old(self), *final(self), *old(ctx), *final(ctx)),
            input_wait_ok(*old(ctx), *final(ctx)),
    {
        let n = self.pop();
        let ghost popped_ip = *self;
        if n <= 0 {
            if n == 0 {
                self.step(&ctx.space);
            }
            return;
        }
        let v = self.peek_command(&ctx.space);
        proof {
            crate::stack::lemma_code_point(v);
        }
        match char_from(#[verifier::truncate] (v as u32)) {
            None => self.reflect(),
            Some(c) => {
                proof {
                    assert forall|d: char| code(d) == v implies d == c by {
                        crate::text::lemma_char_scalar(c);
                        crate::text::lemma_char_scalar(d);
                        assert(code(c) == v);
                        assert(d as u32 == c as u32);
                        crate::text::lemma_char_injective(c, d);
                    }
                }
                assert(v == 'k' as u32 as i32 ==> c == 'k') by {
                    if v == 'k' as u32 as i32 {
                        assert(code('k') == v);
                    }
                }
                assert(v == '&' as u32 as i32 ==> c == '&') by {
                    if v == '&' as u32 as i32 {
                        assert(code('&') == v);
                    }
                }
                assert(v == '~' as u32 as i32 ==> c == '~') by {
                    if v == '~' as u32 as i32 {
                        assert(code('~') == v);
                    }
                }
                assert(v == 'o' as u32 as i32 ==> c == 'o') by {
                    if v == 'o' as u32 as i32 {
                        assert(code('o') == v);
                    }
                }
                assert(v == 'i' as u32 as i32 ==> c == 'i') by {
                    if v == 'i' as u32 as i32 {
                        assert(code('i') == v);
                    }
                }
                assert(v == '=' as u32 as i32 ==> c == '=') by {
                    if v == '=' as u32 as i32 {
                        assert(code('=') == v);
                    }
                }
                if c == 'k' {
                    self.reflect();
                } else if idempotent(c) {
                    let ghost before_run = *self;
                    self.run_command(ctx, c);
                    assert(is_local(c) ==> local_effect(before_run, *self, c));
                } else if ctx.request.is_none() {
                    let ghost before_run = *self;
                    self.repeat(ctx, c, n);
                    assert(is_local(c) ==> repeated_local(before_run, *self, c, n as nat));
                }
            },
        }
    }

    /// Executes the command `c` (other than `k`) `m` times. Should an
    /// execution ask the host for work, the rest waits in `ctx.repeat`, to run
    /// once the host has answered.
    pub fn repeat(&mut self, ctx: &mut Context, c: char, m: i32)
        requires
            old(self).wf(),
            old(ctx).wf(),
            old(ctx).request is None,
        ensures
            final(self).wf(),
            final(ctx).wf(),
            final(self).id == old(self).id,
            input_wait_ok(*old(ctx), *final(ctx)),
            m <= 0 ==> *final(self) == *old(self) && *final(ctx) == *old(ctx),
            m > 0 && is_local(c) ==> repeated_local(*old(self), *final(self), c, m as nat) && *final(ctx) == *old(ctx),
            final(ctx).request is None ==> final(ctx).repeat == old(ctx).repeat,
            final(ctx).request is Some ==> rest_of(final(ctx).repeat, c, m),
    {
        let keep = ctx.repeat;
        let mut i: i32 = 0;
        proof {
            lemma_repeated_none(*old(self), c);
        }
        while i < m
            invariant
                keep == old(ctx).repeat,
                0 <= i,
                m > 0 ==> i <= m,
                self.wf(),
                ctx.wf(),
                self.id == old(self).id,
                ctx.request is None,
                ctx.repeat == old(ctx).repeat,
                input_wait_ok(*old(ctx), *ctx) || ctx.request is None,
                m <= 0 ==> *self == *old(self) && *ctx == *old(ctx),
                is_local(c) ==> repeated_local(*old(self), *self, c, i as nat) && *ctx == *old(ctx),
            decreases m - i,
        {
            let ghost before = *self;
            self.run_command(ctx, c);
            proof {
                if is_local(c) {
                    assert(repeated_local(*old(self), before, c, i as nat) && local_effect(before, *self, c));
                    lemma_repeated_step(*old(self), before, *self, c, i as nat);
                }
            }
            ctx.repeat = keep;
            i = i + 1;
            if ctx.request.is_some() {
                if i < m {
                    ctx.repeat = Some((c, m - i));
                } else {
                    ctx.repeat = None;
                }
                return;
            }
        }
    }

    /// Executes one command other than `k`; a command that is not part of
    /// the instruction set reflects.
    pub fn run_command(&mut self, ctx: &mut Context, c: char)
        requires
            old(self).wf(),
            old(ctx).wf(),
        ensures
            final(self).wf(),
            final(ctx).wf(),
            final(self).id == old(self).id,
            !is_command(c) ==> final(self).with_delta(*old(self), old(self).delta.reversed()) && *final(ctx) == *old(ctx),
            is_local(c) ==> local_effect(*old(self), *final(self), c) && *final(ctx) == *old(ctx),
            is_control(c) ==> control_effect(*old(self), *final(self), *old(ctx), *final(ctx), c),
            input_wait_ok(*old(ctx), *final(ctx)),
            is_shared(c) ==> shared_effect(*old(self), *final(self), *old(ctx), *final(ctx), c),
            c == 'y' ==> *final(ctx) == *old(ctx) && exists|year: i32, month: u32, day: u32, hour: u32, minute: u32, second: u32|
                #[trigger] sysinfo_at(*old(self), *final(self), old(ctx).space, old(ctx).config, year, month, day, hour, minute, second),
            c == '&' ==> read_number(*old(self), *final(self), *old(ctx), *final(ctx)),
            c == '~' ==> read_character(*old(self), *final(self), *old(ctx), *final(ctx)),
            c == 'o' ==> wrote_file(*old(self), *final(self), *old(ctx), *final(ctx)),
            c == 'i' ==> asked_file(*old(self), *final(self), *old(ctx), *final(ctx)),
            c == '=' ==> asked_command(*old(self), *final(self), *old(ctx), *final(ctx)),
    {
        reveal(shared_core);
        if c == '!' {
            self.negate();
        } else if c == '"' {
            self.string_mode();
        } else if c == '#' {
            self.trampoline(&ctx.space);
        } else if c == '$' {
            self.discard();
        } else if c == '%' {
            self.rem();
        } else if c == '&' {
            self.input_decimal(ctx);
        } else if c == '\'' {
            self.fetch_char(&ctx.space);
        } else if c == '(' || c == ')' {
            self.fingerprint();
        } else if c == '*' {
            self.mul();
        } else if c == '+' {
            self.add();
        } else if c == ',' {
            self.output_char(&mut ctx.config);
        } else if c == '-' {
            self.sub();
        } else if c == '.' {
            self.output_decimal(&mut ctx.config);
        } else if c == '/' {
            self.div();
        } else if '0' <= c && c <= '9' {
            self.push((c as u32 - '0' as u32) as i32);
        } else if c == ':' {
            self.duplicate();
        } else if c == '<' {
            self.go_west();
        } else if c == '=' {
            self.system_execute(ctx);
        } else if c == '>' {
            self.go_east();
        } else if c == '?' {
            self.randomize_delta();
        } else if c == '@' {
            self.stop(&mut ctx.control);
            proof {
                assert(ctx.control@.drop_last() =~= old(ctx).control@);
                crate::program::lemma_adds_wf_push(old(ctx).control@, ctx.control@);
            }
        } else if c == '[' {
            self.turn_left();
        } else if c == '\\' {
            self.swap();
        } else if c == ']' {
            self.turn_right();
        } else if c == '^' {
            self.go_north();
        } else if c == '_' {
            self.if_east_west();
        } else if c == '`' {
            self.greater_than();
        } else if 'a' <= c && c <= 'f' {
            self.push((c as u32 - 'a' as u32 + 10) as i32);
        } else if c == 'g' {
            self.get(&ctx.space);
        } else if c == 'i' {
            self.read_file(ctx);
        } else if c == 'j' {
            self.jump(&ctx.space);
        } else if c == 'n' {
            self.clear();
        } else if c == 'o' {
            self.write_file(ctx);
        } else if c == 'p' {
            self.put(&mut ctx.space);
        } else if c == 'q' {
            self.terminate(&mut ctx.control);
            proof {
                assert(ctx.control@.drop_last() =~= old(ctx).control@);
                crate::program::lemma_adds_wf_push(old(ctx).control@, ctx.control@);
            }
        } else if c == 'r' {
            self.reflect();
        } else if c == 's' {
            self.store_char(&mut ctx.space);
        } else if c == 't' {
            self.split(&mut ctx.control);
            proof {
                crate::program::lemma_adds_wf_push(old(ctx).control@, ctx.control@);
            }
        } else if c == 'u' {
            self.dig();
        } else if c == 'v' {
            self.go_south();
        } else if c == 'w' {
            self.compare();
        } else if c == 'x' {
            self.absolute_delta();
        } else if c == 'y' {
            self.get_sysinfo(&ctx.space, &ctx.config);
        } else if c == 'z' {
        } else if c == '{' {
            self.begin_block();
        } else if c == '|' {
            self.if_north_south();
        } else if c == '}' {
            self.end_block();
        } else if c == '~' {
            self.input_char(ctx);
        } else {
            self.reflect();
        }
    }

    /// Executes one command, then records a trace of it when tracing is on.
    pub fn execute(&mut self, ctx: &mut Context, c: char)
        requires
            old(ctx).request is None,
            old(self).wf(),
            old(ctx).wf(),
        ensures
            final(self).wf(),
            final(ctx).wf(),
            final(self).id == old(self).id,
            is_local(c) ==> {
                &&& local_effect(*old(self), *final(self), c)
                &&& final(ctx).space == old(ctx).space
                &&& final(ctx).config == old(ctx).config
                &&& final(ctx).control == old(ctx).control
                &&& final(ctx).request == old(ctx).request
            },
            !is_command(c) ==> {
                &&& final(self).with_delta(*old(self), old(self).delta.reversed())
                &&& final(ctx).space == old(ctx).space
                &&& final(ctx).config == old(ctx).config
                &&& final(ctx).control == old(ctx).control
                &&& final(ctx).request == old(ctx).request
            },
            is_control(c) ==> control_effect(*old(self), *final(self), *old(ctx), *final(ctx), c),
            is_control(c) ==> control_effect(*old(self), *final(self), *old(ctx), *final(ctx), c),
            input_wait_ok(*old(ctx), *final(ctx)),
            is_shared(c) ==> shared_effect(*old(self), *final(self), *old(ctx), *final(ctx), c),
            c == 'y' ==> final(ctx).space == old(ctx).space && final(ctx).config == old(ctx).config
                && final(ctx).control == old(ctx).control && final(ctx).request == old(ctx).request
                && exists|year: i32, month: u32, day: u32, hour: u32, minute: u32, second: u32|
                #[trigger] sysinfo_at(*old(self), *final(self), old(ctx).space, old(ctx).config, year, month, day, hour, minute, second),
            c == 'k' ==> iterated(*old(self), *final(self), *old(ctx), *final(ctx)),
            c == '&' ==> read_number(*old(self), *final(self), *old(ctx), *final(ctx)),
            c == '~' ==> read_character(*old(self), *final(self), *old(ctx), *final(ctx)),
            c == 'o' ==> wrote_file(*old(self), *final(self), *old(ctx), *final(ctx)),
            c == 'i' ==> asked_file(*old(self), *final(self), *old(ctx), *final(ctx)),
            c == '=' ==> asked_command(*old(self), *final(self), *old(ctx), *final(ctx)),
    {
        if c == 'k' {
            self.iterate(ctx);
        } else {
            self.run_command(ctx, c);
        }
        let ghost done = *ctx;
        if ctx.config.is_traced() {
            let stacks = self.stacks.describe();
            ctx.traces.push(Trace::new(self.id, c, self.position, stacks));
        }
        assert(ctx.space == done.space && ctx.config == done.config && ctx.control == done.control
            && ctx.request == done.request);
    }

    /// Executes a tick: steps, passes spaces and skipped stretches (in
    /// string mode: runs of spaces after a space), then pushes the cell in
    /// string mode, or executes it as a command; a value that is no
    /// character reflects.
    pub fn tick(&mut self, ctx: &mut Context)
        requires
            old(ctx).request is None,
            old(self).wf(),
            old(ctx).wf(),
        ensures
            final(self).wf(),
            final(ctx).wf(),
            ticked(*old(self), *old(ctx), *final(self), *final(ctx)),
            input_wait_ok(*old(ctx), *final(ctx)),
    {
        self.step(&ctx.space);
        if !self.string {
            self.find_command(&ctx.space);
        } else if self.saw_space {
            self.skip_space(&ctx.space);
        }
        let v = self.get_current(&ctx.space);
        if self.string {
            if v == QUOTE {
                self.string = false;
            } else {
                self.push(v);
            }
            self.saw_space = v == SPACE;
            return;
        }
        proof {
            crate::stack::lemma_code_point(v);
        }
        match char_from(#[verifier::truncate] (v as u32)) {
            Some(c) => {
                proof {
                    assert forall|d: char| code(d) == v implies d == c by {
                        crate::text::lemma_char_scalar(c);
                        crate::text::lemma_char_scalar(d);
                        assert(code(c) == v);
                        assert(d as u32 == c as u32);
                        crate::text::lemma_char_injective(c, d);
                    }
                }
                assert(v == 'y' as u32 as i32 ==> c == 'y') by {
                    if v == 'y' as u32 as i32 {
                        assert(code('y') == v);
                    }
                }
                assert(v == 'k' as u32 as i32 ==> c == 'k') by {
                    if v == 'k' as u32 as i32 {
                        assert(code('k') == v);
                    }
                }
                assert(v == '&' as u32 as i32 ==> c == '&') by {
                    if v == '&' as u32 as i32 {
                        assert(code('&') == v);
                    }
                }
                assert(v == '~' as u32 as i32 ==> c == '~') by {
                    if v == '~' as u32 as i32 {
                        assert(code('~') == v);
                    }
                }
                assert(v == 'o' as u32 as i32 ==> c == 'o') by {
                    if v == 'o' as u32 as i32 {
                        assert(code('o') == v);
                    }
                }
                assert(v == 'i' as u32 as i32 ==> c == 'i') by {
                    if v == 'i' as u32 as i32 {
                        assert(code('i') == v);
                    }
                }
                assert(v == '=' as u32 as i32 ==> c == '=') by {
                    if v == '=' as u32 as i32 {
                        assert(code('=') == v);
                    }
                }
                self.execute(ctx, c);
            },
            None => self.reflect(),
        }
    }

    // Fingerprints

    /// `(` and `)`: pops a count and that many values (the fingerprint), then
    /// reflects: no fingerprint is supported.
    pub fn fingerprint(&mut self)
        requires
            old(self).wf(),
        ensures
            final(self).wf(),
            final(self).is(
                *old(self),
                replace_top(
                    old(self).stacks@,
                    if popped(old(self).top()).0 <= 0 {
                        popped(old(self).top()).1
                    } else {
                        popped_n(popped(old(self).top()).1, popped(old(self).top()).0 as nat)
                    },
                ),
                old(self).position,
                old(self).delta.reversed(),
                old(self).storage,
            ),
    {
        let n = self.pop();
        let mut i: i32 = 0;
        if n > 0 {
            while i < n
                invariant
                    0 <= i <= n,
                    old(self).wf(),
                    self.wf(),
                    self.with_top(*old(self), popped_n(popped(old(self).top()).1, i as nat)),
                decreases n - i,
            {
                self.pop();
                assert(popped_n(popped(old(self).top()).1, (i + 1) as nat) == popped(
                    popped_n(popped(old(self).top()).1, i as nat),
                ).1);
                i = i + 1;
            }
        }
        self.reflect();
    }
}

/// Duplicating the top value and discarding it again (`:$`) leaves a
/// non-empty stack as it was.
pub proof fn lemma_duplicate_discard(t: Seq<i32>)
    requires
        t.len() > 0,
    ensures
        ({
            let d = popped(t).1.push(popped(t).0).push(popped(t).0);
            popped(d).1 == t
        }),
{
    assert(t.drop_last().push(t.last()) =~= t);
}

/// A zero count makes `k` step over the next command: pushing 0 and popping
/// it as the count leaves the stack as it was, and a count of 0 moves the
/// pointer by one step (see `Ip::iterate`).
pub proof fn lemma_zero_count(t: Seq<i32>)
    ensures
        popped(t.push(0)) == (0i32, t),
{
    assert(t.push(0).drop_last() =~= t);
}

/// The stack `t` after `n` pops.
pub open spec fn popped_n(t: Seq<i32>, n: nat) -> Seq<i32>
    decreases n,
{
    if n == 0 {
        t
    } else {
        popped(popped_n(t, (n - 1) as nat)).1
    }
}

} // verus!
