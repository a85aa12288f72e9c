//! A running Befunge-98 program: its instruction pointers, its space, and
//! the scheduling of the pointers.

use vstd::prelude::*;

use crate::config::{line_end, scan_decimal, Config, Trace};
use crate::files::{file_cell, file_cursor};
use crate::instruction::{is_local, local_effect, ticked};
use crate::ip::{scan, Ip, SCAN_LIMIT};
use crate::stack::{code, popped};
use crate::point::Point;
use crate::space::Space;
use crate::text::string_from;

verus! {

broadcast use crate::ip::group_replace_top;

/// A change to the set of instruction pointers, or the end of the program,
/// that an instruction asks for; the program commits it after the tick.
pub enum ExecResult {
    /// Adds a pointer just before the current one.
    AddIp(Ip),
    /// Deletes the current pointer.
    DeleteIp,
    /// Ends the program with the given exit status.
    Terminate(i32),
}

/// Work that an instruction needs from the host before it can finish.
#[derive(Debug)]
pub enum Request {
    /// `&` (`decimal`) or `~` wants another line of input.
    Input {
        /// Whether a number is read (`&`) rather than a character (`~`).
        decimal: bool,
    },
    /// `i` wants the contents of a file.
    ReadFile {
        /// The path of the file.
        path: String,
        /// Whether the file is loaded as one line, line breaks included.
        linear: bool,
        /// Where, relative to the storage offset, the file is loaded.
        origin: Point,
    },
    /// `o` wants a file written.
    WriteFile {
        /// The path of the file.
        path: String,
        /// The text to write.
        data: String,
    },
    /// `=` wants a command run by the system shell.
    Execute {
        /// The command.
        command: String,
    },
}

/// The state of a program that instructions can act on.
pub struct Context {
    /// The funge space, shared by all pointers.
    pub space: Space,
    /// The configuration, with the program's input and output.
    pub config: Config,
    /// The changes asked for by the current tick.
    pub control: Vec<ExecResult>,
    /// The host work asked for by the current tick, if any.
    pub request: Option<Request>,
    /// The traces of the executed commands, when tracing is on.
    pub traces: Vec<Trace>,
    /// A command that `k` still has to execute, and how many more times,
    /// when one of its executions asked the host for work.
    pub repeat: Option<(char, i32)>,
}

/// A request for input appears only while the input waits for a line.
pub open spec fn input_wait_ok(oc: Context, nc: Context) -> bool {
    (nc.request matches Some(Request::Input { .. })) && oc.request is None ==> nc.config.waits()
}

/// Every pointer that `rs` adds is well formed.
pub open spec fn adds_wf(rs: Seq<ExecResult>) -> bool {
    forall|i: int| 0 <= i < rs.len() ==> match #[trigger] rs[i] {
        ExecResult::AddIp(ip) => ip.wf(),
        _ => true,
    }
}

/// Appending a result that adds no ill-formed pointer keeps `adds_wf`.
pub proof fn lemma_adds_wf_push(before: Seq<ExecResult>, after: Seq<ExecResult>)
    requires
        adds_wf(before),
        after.len() == before.len() + 1,
        after.drop_last() == before,
        after.last() is AddIp ==> after.last()->AddIp_0.wf(),
    ensures
        adds_wf(after),
{
    assert forall|i: int| 0 <= i < after.len() implies match #[trigger] after[i] {
        ExecResult::AddIp(ip) => ip.wf(),
        _ => true,
    } by {
        if i < before.len() {
            assert(after[i] == after.drop_last()[i]);
        }
    }
}

impl Context {
    /// The space and the configuration keep their invariants.
    pub open spec fn wf(&self) -> bool {
        &&& self.space.wf()
        &&& self.config.wf()
        &&& adds_wf(self.control@)
    }
}

/// The most rounds that one call of `run` executes.
pub const ROUND_LIMIT: u64 = u64::MAX;

/// The most ticks that one call of `step_all` executes.
pub const TICK_LIMIT: u64 = u64::MAX;

/// The scheduling state that committing works on: the pointers, the
/// cursor, the next identifier, the exit status, and how far the cursor
/// moves on.
pub type CommitState = (Seq<Ip>, int, i32, Option<i32>, int);

/// Committing one result: a new pointer gets the next identifier and goes
/// at the cursor, before the current pointer; `DeleteIp` removes the
/// current pointer; `Terminate` sets the exit status.
pub open spec fn commit_one(st: CommitState, r: ExecResult) -> CommitState {
    let (ips, cur, id, exit, offset) = st;
    match r {
        ExecResult::AddIp(ip) => (
            ips.insert(if cur <= ips.len() { cur } else { ips.len() as int }, Ip { id, ..ip }),
            cur,
            id.wrapping_add(1),
            exit,
            offset + 1,
        ),
        ExecResult::DeleteIp => (
            if cur < ips.len() { ips.remove(cur) } else { ips },
            cur,
            id,
            exit,
            offset - 1,
        ),
        ExecResult::Terminate(v) => (ips, cur, id, Some(v), offset),
    }
}

/// Committing the results `rs` in order.
pub open spec fn commit_all(st: CommitState, rs: Seq<ExecResult>) -> CommitState
    decreases rs.len(),
{
    if rs.len() == 0 {
        st
    } else {
        commit_one(commit_all(st, rs.drop_last()), rs.last())
    }
}

/// `b` is what committing `rs` makes of the pointers `ips` with cursor
/// `cur`, next identifier `id` and exit status `exit`: the cursor moves on by
/// one plus the pointers added minus the ones removed, modulo the number of
/// pointers; with none left the exit status is the one set, or 0.
pub open spec fn commits(ips: Seq<Ip>, cur: int, id: i32, exit: Option<i32>, rs: Seq<ExecResult>, b: Program) -> bool {
    let st = commit_all((ips, cur, id, exit, 1), rs);
    &&& b.pointers() == st.0
    &&& b.next_id() == st.2
    &&& b.context().control@.len() == 0
    &&& st.0.len() == 0 ==> b.exit() == (if st.3 is Some { st.3 } else { Some(0i32) })
    &&& st.0.len() > 0 ==> b.exit() == st.3 && b.cursor() == (cur + st.0.len() + st.4) % (st.0.len() as int)
}

/// Every result of `rs` adds a pointer.
pub open spec fn all_adds(rs: Seq<ExecResult>) -> bool {
    forall|i: int| 0 <= i < rs.len() ==> (#[trigger] rs[i]) is AddIp
}

/// The exit status that the last `Terminate` of `rs` carries, if any.
pub open spec fn last_exit(rs: Seq<ExecResult>) -> Option<i32>
    decreases rs.len(),
{
    if rs.len() == 0 {
        None
    } else {
        match rs.last() {
            ExecResult::Terminate(v) => Some(v),
            _ => last_exit(rs.drop_last()),
        }
    }
}

/// `b` is `a` after its current pointer became `ip` and the context `ctx`:
/// while the host is asked for work nothing more happens; otherwise the
/// changes commit.
pub open spec fn finished_with(a: Program, ip: Ip, ctx: Context, b: Program) -> bool {
    let cur = a.cursor() as int;
    let ips = a.pointers().update(cur, ip);
    &&& b.context().space == ctx.space
    &&& b.context().config == ctx.config
    &&& b.context().request == ctx.request
    &&& ctx.request is Some ==> b.pointers() == ips && b.cursor() == a.cursor() && b.exit() == a.exit()
        && b.next_id() == a.next_id() && b.context().control == ctx.control
    &&& ctx.request is None ==> commits(ips, cur, a.next_id(), a.exit(), ctx.control@, b)
}

/// `b` is `a` after one `step_single`: nothing changes once the program has
/// ended or while it waits; otherwise the current pointer ticks and the
/// changes commit.
pub open spec fn stepped(a: Program, b: Program) -> bool {
    if a.exit() is Some || a.pending() is Some {
        b == a
    } else {
        exists|ip: Ip, ctx: Context|
            #[trigger] ticked(a.pointers()[a.cursor() as int], a.context(), ip, ctx) && finished_with(
                a,
                ip,
                ctx,
                b,
            )
    }
}

/// Each program of `t` is one `step_single` after the one before.
pub open spec fn chain(t: Seq<Program>) -> bool {
    forall|i: int| 0 <= i < t.len() - 1 ==> #[trigger] stepped(t[i], t[i + 1])
}

/// `b` is `a` after one round: as many steps as `a` has pointers, fewer
/// only when the program ends or waits for the host.
pub open spec fn round(a: Program, b: Program) -> bool {
    exists|t: Seq<Program>|
        #[trigger] chain(t) && t.len() >= 1 && t[0] == a && t.last() == b && (t.len() - 1
            == a.pointers().len() || (t.len() - 1 < a.pointers().len() && (b.exit() is Some
            || b.pending() is Some)))
}

/// `ip` is in the state `Ip::new` gives: identifier 0, just west of the
/// origin, facing east, storage offset at the origin, one empty stack, not
/// in string mode.
pub open spec fn starts(ip: Ip) -> bool {
    &&& ip.wf()
    &&& ip.id == 0
    &&& ip.position == (Point { x: -1i32, y: 0 })
    &&& ip.delta == (crate::point::Delta { dx: 1, dy: 0 })
    &&& ip.storage == (Point { x: 0, y: 0 })
    &&& ip.stacks@ == seq![Seq::<i32>::empty()]
    &&& !ip.string
    &&& !ip.saw_space
}

/// A program that has not ended and has no changes or repetitions left
/// over from the tick that asked the host for work.
pub open spec fn quiet(a: Program) -> bool {
    &&& a.exit() is None
    &&& !a.uncommitted()
    &&& a.context().repeat is None
}

/// `b` is `a` after the waiting instruction finished: only the current
/// pointer changed, the request is gone, and the cursor moved on.
pub open spec fn resumed(a: Program, b: Program) -> bool {
    let cur = a.cursor() as int;
    let n = a.pointers().len();
    &&& b.pending() is None
    &&& b.exit() is None
    &&& b.pointers() == a.pointers().update(cur, b.pointers()[cur])
    &&& b.cursor() == (cur + n + 1) % (n as int)
}

/// `b` is `a` after the answer `line` to a request for input (`None`: the
/// input ended): `&` pushes the number read from the line, `~` its first
/// character, or reflects at the end of the input.
pub open spec fn answered_input(a: Program, line: Option<Seq<char>>, b: Program) -> bool {
    let cur = a.cursor() as int;
    let before = a.pointers()[cur];
    let after = b.pointers()[cur];
    match a.pending() {
        Some(Request::Input { decimal }) => quiet(a) ==> match line {
            Some(text) => text.len() > 0 ==> resumed(a, b) && if decimal {
                after.with_top(before, before.top().push(scan_decimal(text.subrange(0, line_end(text, 0) as int)).0))
            } else {
                after.with_top(before, before.top().push(text[0] as u32 as i32))
            },
            None => resumed(a, b) && if decimal {
                after.with_top(before, before.top().push(scan_decimal(Seq::empty()).0))
            } else {
                after.with_delta(before, before.delta.reversed())
            },
        },
        _ => b == a,
    }
}

/// `b` is `a` after its request was refused: the input ends for `&` and
/// `~`, every other request fails and the pointer reflects.
pub open spec fn refused(a: Program, b: Program) -> bool {
    let cur = a.cursor() as int;
    let before = a.pointers()[cur];
    let after = b.pointers()[cur];
    match a.pending() {
        None => b == a,
        Some(Request::Input { .. }) => answered_input(a, None, b),
        Some(_) => quiet(a) ==> resumed(a, b) && after.with_delta(before, before.delta.reversed()),
    }
}

/// Each program of `t` is one round, then a refusal, after the one before.
pub open spec fn rounds(t: Seq<Program>) -> bool {
    forall|i: int| 0 <= i < t.len() - 1 ==> #[trigger] round_refused(t[i], t[i + 1])
}

/// `c` is `a` after one round and a refusal.
pub open spec fn round_refused(a: Program, c: Program) -> bool {
    exists|m: Program| #[trigger] round(a, m) && refused(m, c)
}

/// A step whose pointer meets `q` ends the program with the value popped
/// as the exit status.
pub proof fn lemma_step_quits(a: Program, b: Program)
    requires
        stepped(a, b),
        a.exit() is None,
        a.pending() is None,
        !a.uncommitted(),
        0 <= a.cursor() < a.pointers().len(),
        !a.pointers()[a.cursor() as int].string,
        ({
            let ip = a.pointers()[a.cursor() as int];
            let space = a.space();
            space.cell(scan(space, space.next(ip.position, ip.delta), ip.delta, false, SCAN_LIMIT as nat))
                == 'q' as u32 as i32
        }),
    ensures
        b.exit() == Some(popped(a.pointers()[a.cursor() as int].top()).0),
{
    let cur = a.cursor() as int;
    let ip0 = a.pointers()[cur];
    let (ip, ctx) = choose|ip: Ip, ctx: Context| #[trigger] ticked(ip0, a.context(), ip, ctx) && finished_with(a, ip, ctx, b);
    assert(code('q') == 'q' as u32 as i32);
    let v = popped(ip0.top()).0;
    assert(ctx.control@ == a.context().control@.push(ExecResult::Terminate(v)));
    assert(a.context().control@ =~= Seq::<ExecResult>::empty());
    let rs = ctx.control@;
    assert(rs.drop_last() =~= Seq::<ExecResult>::empty());
    let ips = a.pointers().update(cur, ip);
    assert(commit_all((ips, cur, a.next_id(), a.exit(), 1), rs.drop_last()) == (ips, cur, a.next_id(), a.exit(), 1int));
}

/// A step whose pointer meets `t` adds a pointer before it, facing the other
/// way, with the next identifier.
pub proof fn lemma_step_splits(a: Program, b: Program)
    requires
        stepped(a, b),
        a.exit() is None,
        a.pending() is None,
        !a.uncommitted(),
        0 <= a.cursor() < a.pointers().len(),
        !a.pointers()[a.cursor() as int].string,
        ({
            let ip = a.pointers()[a.cursor() as int];
            let space = a.space();
            space.cell(scan(space, space.next(ip.position, ip.delta), ip.delta, false, SCAN_LIMIT as nat))
                == 't' as u32 as i32
        }),
    ensures
        b.pointers().len() == a.pointers().len() + 1,
        b.pointers()[a.cursor() as int].id == a.next_id(),
        b.pointers()[a.cursor() as int].delta == a.pointers()[a.cursor() as int].delta.reversed(),
        b.next_id() == a.next_id().wrapping_add(1),
        b.exit() is None,
{
    let cur = a.cursor() as int;
    let ip0 = a.pointers()[cur];
    let (ip, ctx) = choose|ip: Ip, ctx: Context| #[trigger] ticked(ip0, a.context(), ip, ctx) && finished_with(a, ip, ctx, b);
    assert(code('t') == 't' as u32 as i32);
    assert(a.context().control@ =~= Seq::<ExecResult>::empty());
    let rs = ctx.control@;
    assert(rs.drop_last() =~= Seq::<ExecResult>::empty());
    let ips = a.pointers().update(cur, ip);
    assert(commit_all((ips, cur, a.next_id(), a.exit(), 1), rs.drop_last()) == (ips, cur, a.next_id(), a.exit(), 1int));
}

/// A chain grows by a step.
proof fn lemma_chain_push(t: Seq<Program>, b: Program)
    requires
        chain(t),
        t.len() >= 1,
        stepped(t.last(), b),
    ensures
        chain(t.push(b)),
{
    assert forall|i: int| 0 <= i < t.push(b).len() - 1 implies #[trigger] stepped(t.push(b)[i], t.push(b)[i + 1]) by {
        if i < t.len() - 1 {
            assert(stepped(t[i], t[i + 1]));
        }
    }
}

/// A run grows by a round and a refusal.
proof fn lemma_rounds_push(t: Seq<Program>, b: Program, m: Program)
    requires
        rounds(t),
        t.len() >= 1,
        round(t.last(), m),
        refused(m, b),
    ensures
        rounds(t.push(b)),
{
    assert forall|i: int| 0 <= i < t.push(b).len() - 1 implies #[trigger] round_refused(t.push(b)[i], t.push(b)[i + 1]) by {
        if i < t.len() - 1 {
            assert(t.push(b)[i] == t[i] && t.push(b)[i + 1] == t[i + 1]);
            assert(round_refused(t[i], t[i + 1]));
        } else {
            assert(round(t.push(b)[i], m) && refused(m, t.push(b)[i + 1]));
        }
    }
}

/// An instance of a Befunge-98 program: the funge space, the configuration,
/// the active instruction pointers and the scheduling state.
pub struct Program {
    context: Context,
    ips: Vec<Ip>,
    current: usize,
    exit: Option<i32>,
    new_id: i32,
}

impl Program {
    /// The internal invariant: the space and configuration are well formed,
    /// so is every pointer, and while the program runs the cursor points at
    /// one of them.
    pub closed spec fn wf(&self) -> bool {
        &&& self.context.wf()
        &&& forall|i: int| 0 <= i < self.ips@.len() ==> (#[trigger] self.ips@[i]).wf()
        &&& self.exit is None ==> self.current < self.ips@.len()
        &&& self.context.request is None ==> self.context.control@.len() == 0
        &&& self.context.request is Some ==> self.exit is None
        &&& (self.context.request matches Some(Request::Input { .. })) ==> self.context.config.waits()
    }

    /// The exit status, once the program has finished.
    pub closed spec fn exit(&self) -> Option<i32> {
        self.exit
    }

    /// The host work that the program waits for, if any.
    pub closed spec fn pending(&self) -> Option<Request> {
        self.context.request
    }

    /// The active instruction pointers, in scheduling order.
    pub closed spec fn pointers(&self) -> Seq<Ip> {
        self.ips@
    }

    /// The identifier that the next added pointer gets.
    pub closed spec fn next_id(&self) -> i32 {
        self.new_id
    }

    /// The state that instructions act on.
    pub closed spec fn context(&self) -> Context {
        self.context
    }

    /// The index of the pointer that runs next.
    pub closed spec fn cursor(&self) -> usize {
        self.current
    }

    /// Whether changes of the current tick wait to be committed.
    pub closed spec fn uncommitted(&self) -> bool {
        self.context.control@.len() > 0
    }

    /// The funge space.
    pub closed spec fn space(&self) -> Space {
        self.context.space
    }

    /// The configuration.
    pub closed spec fn settings(&self) -> Config {
        self.context.config
    }

    fn init(space: Space, config: Config) -> (r: Program)
        requires
            space.wf(),
            config.wf(),
        ensures
            r.wf(),
            r.exit() is None,
            r.pending() is None,
            r.cursor() == 0,
            r.pointers().len() == 1,
            starts(r.pointers()[0]),
            r.next_id() == 1,
            !r.uncommitted(),
            r.context().repeat is None,
            r.space() == space,
            r.settings() == config,
    {
        let ip = Ip::new();
        let mut ips: Vec<Ip> = Vec::new();
        ips.push(ip);
        Program {
            context: Context {
                space,
                config,
                control: Vec::new(),
                request: None,
                traces: Vec::new(),
                repeat: None,
            },
            ips,
            current: 0,
            exit: None,
            new_id: 1,
        }
    }

    /// Creates a program with an empty space and the default configuration.
    pub fn new() -> (r: Program)
        ensures
            r.wf(),
            r.exit() is None,
            r.pending() is None,
            r.pointers().len() == 1,
            r.cursor() == 0,
            r.next_id() == 1,
            starts(r.pointers()[0]),
            forall|p: Point| #[trigger] r.space().cell(p) == crate::tree::SPACE,
    {
        Program::init(Space::new(), Config::new())
    }

    /// Creates a program holding the source code `code`, with the default
    /// configuration.
    pub fn read(code: &str) -> (r: Program)
        ensures
            r.wf(),
            r.exit() is None,
            r.pending() is None,
            r.pointers().len() == 1,
            r.cursor() == 0,
            r.next_id() == 1,
            starts(r.pointers()[0]),
            !r.uncommitted(),
            r.context().repeat is None,
            forall|p: Point| #[trigger] r.space().cell(p) == crate::space::loaded_cell(code@, p),
    {
        Program::init(Space::read(code), Config::new())
    }

    /// Sets the configuration.
    pub fn config(self, config: Config) -> (r: Program)
        requires
            self.wf(),
            self.pending() is None,
            config.wf(),
        ensures
            r.wf(),
            r.settings() == config,
            r.exit() == self.exit(),
            r.pending() == self.pending(),
            r.space() == self.space(),
            r.cursor() == self.cursor(),
            r.pointers() == self.pointers(),
    {
        let Program { context, ips, current, exit, new_id } = self;
        let Context { space, config: _, control, request, traces, repeat } = context;
        Program { context: Context { space, config, control, request, traces, repeat }, ips, current, exit, new_id }
    }

    /// Returns the exit status if the program has finished, `None` otherwise.
    pub fn exit_status(&self) -> (r: Option<i32>)
        ensures
            r == self.exit(),
    {
        self.exit
    }

    /// Returns the host work that the program waits for, if any.
    pub fn request(&self) -> (r: &Option<Request>)
        ensures
            *r == self.pending(),
    {
        &self.context.request
    }

    /// Takes everything the program has written so far.
    pub fn take_output(&mut self) -> (r: String)
        requires
            old(self).wf(),
        ensures
            final(self).wf(),
            r@ == old(self).settings().written(),
            final(self).settings().written().len() == 0,
            final(self).exit() == old(self).exit(),
            final(self).pending() == old(self).pending(),
            final(self).cursor() == old(self).cursor(),
            final(self).pointers() == old(self).pointers(),
    {
        let out = self.context.config.take_output();
        string_from(&out)
    }

    /// Takes the traces recorded so far.
    pub fn take_traces(&mut self) -> (r: Vec<Trace>)
        requires
            old(self).wf(),
        ensures
            final(self).wf(),
            final(self).exit() == old(self).exit(),
            final(self).pending() == old(self).pending(),
            final(self).cursor() == old(self).cursor(),
            final(self).pointers() == old(self).pointers(),
            final(self).settings() == old(self).settings(),
    {
        let mut r: Vec<Trace> = Vec::new();
        std::mem::swap(&mut r, &mut self.context.traces);
        r
    }

    /// Takes the current pointer out, leaving a fresh one in its place.
    fn current_ip(&mut self) -> (r: Ip)
        requires
            old(self).context.wf(),
            forall|i: int| 0 <= i < old(self).ips@.len() ==> (#[trigger] old(self).ips@[i]).wf(),
            old(self).exit is None,
            old(self).current < old(self).ips@.len(),
        ensures
            r == old(self).ips@[old(self).current as int],
            final(self).ips@.len() == old(self).ips@.len(),
            final(self).current == old(self).current,
            final(self).exit == old(self).exit,
            final(self).context == old(self).context,
            final(self).new_id == old(self).new_id,
            forall|i: int| 0 <= i < final(self).ips@.len() && i != old(self).current ==> final(self).ips@[i] == old(self).ips@[i],
            final(self).ips@ == old(self).ips@.update(old(self).current as int, final(self).ips@[old(self).current as int]),
            final(self).ips@[old(self).current as int].wf(),
    {
        let mut ip = Ip::new();
        self.ips.set_and_swap(self.current, &mut ip);
        assert(self.ips@ =~= old(self).ips@.update(old(self).current as int, self.ips@[old(self).current as int]));
        ip
    }

    /// Executes a tick of the current pointer and commits its changes, unless
    /// the tick asked the host for work: then the program waits for the answer.
    ///
    /// Does nothing once the program has finished or while it waits.
    pub fn step_single(&mut self)
        requires
            old(self).wf(),
        ensures
            final(self).wf(),
            stepped(*old(self), *final(self)),
            old(self).exit() is None && old(self).pending() is None && !old(self).pointers()[old(self).cursor() as int].string ==> {
                let cur = old(self).cursor() as int;
                let ip = old(self).pointers()[cur];
                let space = old(self).space();
                let p = scan(space, space.next(ip.position, ip.delta), ip.delta, false, SCAN_LIMIT as nat);
                let at = Ip { position: p, ..ip };
                forall|c: char| code(c) == space.cell(p) && is_local(c) ==> {
                    &&& local_effect(at, final(self).pointers()[cur], c)
                    &&& final(self).pointers().len() == old(self).pointers().len()
                    &&& forall|i: int| 0 <= i < old(self).pointers().len() && i != cur ==> final(self).pointers()[i] == old(self).pointers()[i]
                    &&& final(self).cursor() == (cur + old(self).pointers().len() + 1) % (old(self).pointers().len() as int)
                    &&& final(self).exit() is None
                    &&& final(self).space() == space
                }
            },
    {
        if self.exit.is_some() || self.context.request.is_some() {
            return;
        }
        let cur = self.current;
        let mut ip = self.current_ip();
        ip.tick(&mut self.context);
        let ghost ip1 = ip;
        let ghost ctx1 = self.context;
        if self.context.request.is_none() {
            self.context.repeat = None;
        }
        self.ips.set(cur, ip);
        assert(self.ips@ =~= old(self).ips@.update(cur as int, ip1));
        if self.context.request.is_none() {
            self.commit_changes();
        } else {
            assert(forall|i: int| 0 <= i < self.ips@.len() ==> (#[trigger] self.ips@[i]).wf());
        }
        proof {
            assert(ticked(old(self).pointers()[old(self).cursor() as int], old(self).context(), ip1, ctx1));
            assert(finished_with(*old(self), ip1, ctx1, *self));
        }
    }

    /// Answers a request for input with a line, or with `None` at the end of
    /// the input, and finishes the waiting `&` or `~` (and the rest of a `k`
    /// that repeats it).
    pub fn answer_input(&mut self, line: Option<&str>)
        requires
            old(self).wf(),
        ensures
            final(self).wf(),
            answered_input(*old(self), if line is Some { Some(line->0@) } else { None }, *final(self)),
    {
        let decimal = match &self.context.request {
            Some(Request::Input { decimal }) => *decimal,
            _ => {
                return;
            },
        };
        self.context.request = None;
        match line {
            Some(text) => {
                self.context.config.provide_input(text);
                proof {
                    assert(self.context.config.pending_input() =~= text@);
                    if text@.len() > 0 {
                        crate::config::lemma_line_end_bounds(text@, 0);
                    }
                }
            },
            None => {
                self.context.config.close_input();
                assert(self.context.config.pending_input().subrange(0, 0) =~= Seq::<char>::empty());
            },
        }
        let cur = self.current;
        let mut ip = self.current_ip();
        if decimal {
            ip.input_decimal(&mut self.context);
        } else {
            ip.input_char(&mut self.context);
        }
        let ghost done = ip;
        let ghost waiting = self.context.request is Some;
        self.resume(ip, cur);
        proof {
            if !waiting && quiet(*old(self)) {
                assert(self.ips@ =~= old(self).ips@.update(cur as int, done));
            }
        }
    }

    /// Answers a request for a file with its contents, or with `None` if it
    /// could not be read, and finishes the waiting `i`.
    pub fn answer_read_file(&mut self, contents: Option<&str>)
        requires
            old(self).wf(),
        ensures
            final(self).wf(),
            !(old(self).pending() matches Some(Request::ReadFile { .. })) ==> *final(self) == *old(self),
            (old(self).pending() matches Some(Request::ReadFile { .. })) && quiet(*old(self)) ==> {
                let before = old(self).pointers()[old(self).cursor() as int];
                let after = final(self).pointers()[old(self).cursor() as int];
                let linear = old(self).pending()->0->ReadFile_linear;
                let origin = old(self).pending()->0->ReadFile_origin;
                &&& resumed(*old(self), *final(self))
                &&& contents is None ==> final(self).space() == old(self).space()
                    && after.with_delta(before, before.delta.reversed())
                &&& contents is Some ==> {
                    let at = file_cursor(contents->0@, linear, origin.x, origin.y);
                    &&& forall|p: Point| #[trigger] final(self).space().cell(p) == file_cell(
                        old(self).space(),
                        contents->0@,
                        linear,
                        origin.x,
                        origin.y,
                        before.storage,
                        p,
                    )
                    &&& after.with_top(
                        before,
                        before.top().push(at.2).push(at.1.wrapping_sub(origin.y)).push(origin.x).push(origin.y),
                    )
                }
            },
    {
        let (linear, origin) = match &self.context.request {
            Some(Request::ReadFile { path: _, linear, origin }) => (*linear, *origin),
            _ => {
                return;
            },
        };
        self.context.request = None;
        let cur = self.current;
        let mut ip = self.current_ip();
        ip.load_file(&mut self.context.space, contents, linear, origin);
        let ghost done = ip;
        let ghost waiting = self.context.request is Some;
        self.resume(ip, cur);
        proof {
            if !waiting && quiet(*old(self)) {
                assert(self.ips@ =~= old(self).ips@.update(cur as int, done));
            }
        }
    }

    /// Answers a request to write a file with whether it was written, and
    /// finishes the waiting `o`: a failure reflects.
    pub fn answer_write_file(&mut self, written: bool)
        requires
            old(self).wf(),
        ensures
            final(self).wf(),
            !(old(self).pending() matches Some(Request::WriteFile { .. })) ==> *final(self) == *old(self),
            (old(self).pending() matches Some(Request::WriteFile { .. })) && quiet(*old(self)) ==> {
                let before = old(self).pointers()[old(self).cursor() as int];
                let after = final(self).pointers()[old(self).cursor() as int];
                &&& resumed(*old(self), *final(self))
                &&& written ==> after.with_top(before, before.top())
                &&& !written ==> after.with_delta(before, before.delta.reversed())
            },
    {
        match &self.context.request {
            Some(Request::WriteFile { .. }) => {},
            _ => {
                return;
            },
        }
        self.context.request = None;
        let cur = self.current;
        let mut ip = self.current_ip();
        if !written {
            ip.reflect();
        }
        let ghost done = ip;
        let ghost waiting = self.context.request is Some;
        self.resume(ip, cur);
        proof {
            if !waiting && quiet(*old(self)) {
                assert(self.ips@ =~= old(self).ips@.update(cur as int, done));
            }
        }
    }

    /// Answers a request to run a command with its exit status, or with
    /// `None` if there is none, and finishes the waiting `=`.
    pub fn answer_execute(&mut self, status: Option<i32>)
        requires
            old(self).wf(),
        ensures
            final(self).wf(),
            !(old(self).pending() matches Some(Request::Execute { .. })) ==> *final(self) == *old(self),
            (old(self).pending() matches Some(Request::Execute { .. })) && quiet(*old(self)) ==> {
                let before = old(self).pointers()[old(self).cursor() as int];
                let after = final(self).pointers()[old(self).cursor() as int];
                &&& resumed(*old(self), *final(self))
                &&& status is Some ==> after.with_top(before, before.top().push(status->0))
                &&& status is None ==> after.with_delta(before, before.delta.reversed())
            },
    {
        match &self.context.request {
            Some(Request::Execute { .. }) => {},
            _ => {
                return;
            },
        }
        self.context.request = None;
        let cur = self.current;
        let mut ip = self.current_ip();
        ip.finish_execute(status);
        let ghost done = ip;
        let ghost waiting = self.context.request is Some;
        self.resume(ip, cur);
        proof {
            if !waiting && quiet(*old(self)) {
                assert(self.ips@ =~= old(self).ips@.update(cur as int, done));
            }
        }
    }

    /// Answers the pending request as a host without files, commands or more
    /// input would: the input ends, and the rest fails.
    pub fn refuse_request(&mut self)
        requires
            old(self).wf(),
        ensures
            final(self).wf(),
            refused(*old(self), *final(self)),
    {
        let kind: u8 = match &self.context.request {
            None => 0,
            Some(Request::Input { .. }) => 1,
            Some(Request::ReadFile { .. }) => 2,
            Some(Request::WriteFile { .. }) => 3,
            Some(Request::Execute { .. }) => 4,
        };
        if kind == 1 {
            self.answer_input(None);
        } else if kind == 2 {
            self.answer_read_file(None);
        } else if kind == 3 {
            self.answer_write_file(false);
        } else if kind == 4 {
            self.answer_execute(None);
        }
    }

    /// Executes one round: a tick of each pointer present at the start, in
    /// list order from the cursor. Pointers that `t` adds during the round go
    /// before the current one and are passed over, so they do not tick in it.
    /// The round ends early when the program ends or asks the host for work.
    pub fn step_all(&mut self)
        requires
            old(self).wf(),
        ensures
            final(self).wf(),
            round(*old(self), *final(self)),
    {
        let n = self.ips.len();
        let ghost mut trace: Seq<Program> = seq![*self];
        let mut k: usize = 0;
        while k < n && self.exit.is_none() && self.context.request.is_none()
            invariant
                self.wf(),
                k <= n,
                n == old(self).pointers().len(),
                trace.len() == k + 1,
                trace[0] == *old(self),
                trace.last() == *self,
                chain(trace),
            decreases n - k,
        {
            self.step_single();
            proof {
                lemma_chain_push(trace, *self);
                trace = trace.push(*self);
            }
            k = k + 1;
        }
        assert(chain(trace));
    }

    /// Runs the program to completion: round after round, each followed by
    /// refusing any request as `refuse_request` does, until a pointer executes
    /// `q` or no pointer is left, or `ROUND_LIMIT` rounds have passed. Returns
    /// the exit status; 0 should the rounds run out first.
    pub fn run(&mut self) -> (r: i32)
        requires
            old(self).wf(),
        ensures
            final(self).wf(),
            old(self).exit() is Some ==> r == old(self).exit()->0 && *final(self) == *old(self),
            exists|t: Seq<Program>| #[trigger] rounds(t) && t.len() >= 1 && t[0] == *old(self) && t.last() == *final(self)
                && (final(self).exit() == Some(r) || (final(self).exit() is None && r == 0 && t.len() - 1 == ROUND_LIMIT)),
    {
        let ghost mut trace: Seq<Program> = seq![*self];
        let mut left: u64 = ROUND_LIMIT;
        while self.exit.is_none() && left > 0
            invariant
                self.wf(),
                old(self).exit() is Some ==> *self == *old(self),
                trace.len() == ROUND_LIMIT - left + 1,
                trace[0] == *old(self),
                trace.last() == *self,
                rounds(trace),
            decreases left,
        {
            let ghost a = *self;
            self.step_all();
            let ghost m = *self;
            self.refuse_request();
            proof {
                assert(round(a, m) && refused(m, *self));
                lemma_rounds_push(trace, *self, m);
                trace = trace.push(*self);
            }
            left = left - 1;
        }
        match self.exit {
            Some(v) => v,
            None => 0,
        }
    }

    /// Finishes a wait: continues a `k` that repeats the finished command,
    /// puts the pointer back, and commits unless it asked the host for work
    /// again.
    fn resume(&mut self, ip: Ip, cur: usize)
        requires
            old(self).context.wf(),
            old(self).exit is None,
            cur == old(self).current,
            cur < old(self).ips@.len(),
            ip.wf(),
            forall|i: int| 0 <= i < old(self).ips@.len() && i != cur ==> (#[trigger] old(self).ips@[i]).wf(),
            (old(self).context.request matches Some(Request::Input { .. })) ==> old(self).context.config.waits(),
        ensures
            final(self).wf(),
            old(self).context.request is None && old(self).context.repeat is None && old(self).context.control@.len() == 0 ==> {
                &&& final(self).ips@ == old(self).ips@.update(cur as int, ip)
                &&& final(self).exit is None
                &&& final(self).context.request is None
                &&& final(self).context.space == old(self).context.space
                &&& final(self).current == (cur + old(self).ips@.len() + 1) % (old(self).ips@.len() as int)
            },
    {
        let mut ip = ip;
        if self.context.request.is_none() {
            match self.context.repeat {
                Some((c, m)) => {
                    self.context.repeat = None;
                    ip.repeat(&mut self.context, c, m);
                },
                None => {},
            }
        }
        if self.context.request.is_none() {
            self.context.repeat = None;
        }
        self.ips.set(cur, ip);
        if self.context.request.is_none() {
            self.commit_changes();
        } else {
            assert(forall|i: int| 0 <= i < self.ips@.len() ==> (#[trigger] self.ips@[i]).wf());
        }
    }

    /// Commits the changes that the current tick asked for, in order: a new
    /// pointer gets the next identifier and goes before the current one, `@`
    /// removes the current one, `q` sets the exit status. The cursor then
    /// moves on past the current pointer and the ones added before it. With no
    /// pointer left and no exit status, the exit status is 0.
    fn commit_changes(&mut self)
        requires
            old(self).context.wf(),
            old(self).context.request is None,
            forall|i: int| 0 <= i < old(self).ips@.len() ==> (#[trigger] old(self).ips@[i]).wf(),
            old(self).exit is None ==> old(self).current < old(self).ips@.len(),
        ensures
            final(self).wf(),
            final(self).context.space == old(self).context.space,
            final(self).context.config == old(self).context.config,
            final(self).context.request == old(self).context.request,
            final(self).context.traces == old(self).context.traces,
            commits(
                old(self).ips@,
                old(self).current as int,
                old(self).new_id,
                old(self).exit,
                old(self).context.control@,
                *final(self),
            ),
    {
        let mut results: Vec<ExecResult> = Vec::new();
        std::mem::swap(&mut results, &mut self.context.control);
        let ghost all = results@;
        let ghost start = (old(self).ips@, old(self).current as int, old(self).new_id, old(self).exit, 1int);
        let total = results.len();
        // `results` is consumed from its end: reverse it first.
        let mut pending: Vec<ExecResult> = Vec::new();
        while results.len() > 0
            invariant
                all.len() == results@.len() + pending@.len(),
                forall|i: int| 0 <= i < results@.len() ==> results@[i] == all[i],
                forall|i: int| 0 <= i < pending@.len() ==> pending@[i] == all[all.len() - 1 - i],
            decreases results@.len(),
        {
            let r = results.pop().unwrap();
            pending.push(r);
        }
        let mut offset: i128 = 1;
        let mut done: usize = 0;
        while pending.len() > 0
            invariant
                all.len() == pending@.len() + done,
                total == all.len(),
                forall|i: int| 0 <= i < pending@.len() ==> pending@[i] == all[all.len() - 1 - i],
                adds_wf(all),
                self.context.wf(),
                self.context.space == old(self).context.space,
                self.context.config == old(self).context.config,
                self.context.request == old(self).context.request,
                self.context.traces == old(self).context.traces,
                self.context.control@.len() == 0,
                forall|i: int| 0 <= i < self.ips@.len() ==> (#[trigger] self.ips@[i]).wf(),
                -(done as int) <= offset <= done as int + 1,
                self.current == old(self).current,
                (self.ips@, self.current as int, self.new_id, self.exit, offset as int) == commit_all(start, all.take(done as int)),
            decreases pending@.len(),
        {
            assert(done < all.len());
            let r = pending.pop().unwrap();
            proof {
                assert(all.take(done + 1).drop_last() =~= all.take(done as int));
                assert(all[done as int] == r);
            }
            match r {
                ExecResult::AddIp(ip) => {
                    let mut ip = ip;
                    ip.set_id(self.new_id);
                    self.new_id = self.new_id.wrapping_add(1);
                    let at = if self.current <= self.ips.len() { self.current } else { self.ips.len() };
                    self.ips.insert(at, ip);
                    offset = offset + 1;
                },
                ExecResult::DeleteIp => {
                    if self.current < self.ips.len() {
                        self.ips.remove(self.current);
                    }
                    assert(forall|i: int| 0 <= i < self.ips@.len() ==> (#[trigger] self.ips@[i]).wf());
                    offset = offset - 1;
                },
                ExecResult::Terminate(v) => {
                    self.exit = Some(v);
                },
            }
            done = done + 1;
        }
        assert(all.take(done as int) =~= all);
        if self.ips.len() == 0 {
            if self.exit.is_none() {
                self.exit = Some(0);
            }
            return;
        }
        let len = self.ips.len() as i128;
        let t = self.current as i128 + len + offset;
        self.current = match t.checked_rem_euclid(len) {
            Some(m) => m as usize,
            None => 0,
        };
    }
}

} // verus!
