//! Program configuration: the program's input and output, and what it may
//! ask of its host.

use vstd::prelude::*;

use crate::point::Point;
use crate::text::{chars_of, decimal, decimal_chars, digit_value, string_from};

verus! {

/// Specifies how to react when the program tries to access a file.
#[derive(Clone, Copy, Debug, PartialEq, Eq, Structural)]
pub enum FileView {
    /// Gives complete access to the real filesystem.
    Real,
    /// Denies any file access: the `i` and `o` instructions fail and the
    /// interpreter reports that they are unsupported.
    Deny,
}

/// Specifies what to do when the program attempts to execute a shell command.
#[derive(Clone, Copy, Debug, PartialEq, Eq, Structural)]
pub enum ExecAction {
    /// Lets the system shell execute commands issued by the program.
    Real,
    /// Denies the execution of commands: the `=` instruction fails and the
    /// interpreter reports that it is unsupported.
    Deny,
}

/// What a read from the program's input gives.
#[derive(Clone, Copy, Debug, PartialEq, Eq, Structural)]
pub enum Input {
    /// A value was read.
    Value(i32),
    /// The input is exhausted.
    End,
    /// No input is at hand yet: the host has to provide a line first.
    Pending,
}

/// The index of the first decimal digit of `s` at or after `i`, or `s.len()`.
pub open spec fn digit_start(s: Seq<char>, i: nat) -> nat
    decreases s.len() - i,
{
    if i >= s.len() {
        s.len()
    } else if digit_value(s[i as int]) is Some {
        i
    } else {
        digit_start(s, i + 1)
    }
}

/// The index of the first character of `s` at or after `i` that is no
/// decimal digit, or `s.len()`.
pub open spec fn digit_end(s: Seq<char>, i: nat) -> nat
    decreases s.len() - i,
{
    if i >= s.len() {
        s.len()
    } else if digit_value(s[i as int]) is None {
        i
    } else {
        digit_end(s, i + 1)
    }
}

/// The number that the digits `s` spell, wrapping around the `i32` range.
pub open spec fn number(s: Seq<char>) -> i32
    decreases s.len(),
{
    if s.len() == 0 {
        0
    } else {
        number(s.drop_last()).wrapping_mul(10).wrapping_add(
            digit_value(s.last()).unwrap_or(0),
        )
    }
}

/// Reading a decimal number from the line `s`: the first run of digits
/// gives the number (0 if there is none), and the line is consumed through
/// the character that ends the run (through its end if there is none).
pub open spec fn scan_decimal(s: Seq<char>) -> (i32, nat) {
    let start = digit_start(s, 0);
    let end = digit_end(s, start);
    let used = if start < s.len() && end < s.len() {
        end + 1
    } else {
        s.len()
    };
    (number(s.subrange(start as int, end as int)), used)
}

/// The index just past the first line break of `s`, or `s.len()`.
pub open spec fn line_end(s: Seq<char>, i: nat) -> nat
    decreases s.len() - i,
{
    if i >= s.len() {
        s.len()
    } else if s[i as int] == '\n' {
        i + 1
    } else {
        line_end(s, i + 1)
    }
}

/// The end of the first line of `s` from `i` lies past `i`, within `s`.
pub proof fn lemma_line_end_bounds(s: Seq<char>, i: nat)
    requires
        i < s.len(),
    ensures
        i < line_end(s, i) <= s.len(),
    decreases s.len() - i,
{
    reveal_with_fuel(line_end, 2);
    if s[i as int] != '\n' && i + 1 < s.len() {
        lemma_line_end_bounds(s, i + 1);
    }
}

/// A container for program configuration: the program's input and output,
/// whether commands are traced, and what the program may ask of its host.
pub struct Config {
    trace: bool,
    buffer: Vec<char>,
    pending: Vec<char>,
    pending_at: usize,
    closed: bool,
    output: Vec<char>,
    file_view: FileView,
    exec_action: ExecAction,
    args: Vec<String>,
    vars: Vec<String>,
}

impl Config {
    /// The internal invariant.
    pub closed spec fn wf(&self) -> bool {
        self.pending_at <= self.pending@.len()
    }

    /// Whether executed commands are traced.
    pub closed spec fn traced(&self) -> bool {
        self.trace
    }

    /// The rest of the input line that reads take from.
    pub closed spec fn line(&self) -> Seq<char> {
        self.buffer@
    }

    /// The input after the current line.
    pub closed spec fn pending_input(&self) -> Seq<char> {
        self.pending@.subrange(self.pending_at as int, self.pending@.len() as int)
    }

    /// No input will come beyond what is pending.
    pub closed spec fn input_closed(&self) -> bool {
        self.closed
    }

    /// Everything the program has written.
    pub closed spec fn written(&self) -> Seq<char> {
        self.output@
    }

    /// The file access policy.
    pub closed spec fn files(&self) -> FileView {
        self.file_view
    }

    /// The shell command policy.
    pub closed spec fn commands(&self) -> ExecAction {
        self.exec_action
    }

    /// The command-line arguments handed to the program.
    pub closed spec fn arguments(&self) -> Seq<String> {
        self.args@
    }

    /// The environment variables handed to the program, each `KEY=VALUE`.
    pub closed spec fn variables(&self) -> Seq<String> {
        self.vars@
    }

    /// `self` equals `old` but for the input.
    pub open spec fn same_but_input(&self, old: Config) -> bool {
        &&& self.wf()
        &&& self.traced() == old.traced()
        &&& self.written() == old.written()
        &&& self.files() == old.files()
        &&& self.commands() == old.commands()
        &&& self.arguments() == old.arguments()
        &&& self.variables() == old.variables()
        &&& self.input_closed() == old.input_closed()
    }

    /// `self` equals `old` but for the output.
    pub open spec fn same_but_output(&self, old: Config) -> bool {
        &&& self.wf()
        &&& self.traced() == old.traced()
        &&& self.line() == old.line()
        &&& self.pending_input() == old.pending_input()
        &&& self.input_closed() == old.input_closed()
        &&& self.files() == old.files()
        &&& self.commands() == old.commands()
        &&& self.arguments() == old.arguments()
        &&& self.variables() == old.variables()
    }

    /// The line that the next read takes from, and the input left after it.
    pub open spec fn next_line(&self) -> (Seq<char>, Seq<char>) {
        if self.line().len() > 0 {
            (self.line(), self.pending_input())
        } else {
            let p = self.pending_input();
            let e = line_end(p, 0);
            (p.subrange(0, e as int), p.subrange(e as int, p.len() as int))
        }
    }

    /// No input is at hand and more may come.
    pub open spec fn waits(&self) -> bool {
        self.line().len() == 0 && self.pending_input().len() == 0 && !self.input_closed()
    }

    /// Creates a configuration with default settings: no tracing, no input at
    /// hand, nothing written, files and shell commands allowed, no arguments
    /// and no environment variables.
    pub fn new() -> (r: Config)
        ensures
            r.wf(),
            !r.traced(),
            r.line().len() == 0,
            r.pending_input().len() == 0,
            !r.input_closed(),
            r.written().len() == 0,
            r.files() == FileView::Real,
            r.commands() == ExecAction::Real,
            r.arguments().len() == 0,
            r.variables().len() == 0,
    {
        let r = Config {
            trace: false,
            buffer: Vec::new(),
            pending: Vec::new(),
            pending_at: 0,
            closed: false,
            output: Vec::new(),
            file_view: FileView::Real,
            exec_action: ExecAction::Real,
            args: Vec::new(),
            vars: Vec::new(),
        };
        assert(r.pending_input() =~= Seq::<char>::empty());
        r
    }

    /// Sets whether executed commands are traced.
    pub fn trace(self, trace: bool) -> (r: Config)
        requires
            self.wf(),
        ensures
            r.traced() == trace,
            r.wf(),
            r.written() == self.written(),
            r.files() == self.files(),
            r.commands() == self.commands(),
            r.arguments() == self.arguments(),
            r.variables() == self.variables(),
            r.line() == self.line(),
            r.pending_input() == self.pending_input(),
            r.input_closed() == self.input_closed(),
    {
        Config { trace, ..self }
    }

    /// Sets the whole input of the program: `input` is all it will read.
    pub fn input(self, input: &str) -> (r: Config)
        requires
            self.wf(),
        ensures
            r.wf(),
            r.traced() == self.traced(),
            r.written() == self.written(),
            r.files() == self.files(),
            r.commands() == self.commands(),
            r.arguments() == self.arguments(),
            r.variables() == self.variables(),
            r.line().len() == 0,
            r.pending_input() == input@,
            r.input_closed(),
    {
        let r = Config { buffer: Vec::new(), pending: chars_of(input), pending_at: 0, closed: true, ..self };
        assert(r.pending_input() =~= input@);
        r
    }

    /// Hands the program more input, typically a line the host has read.
    pub fn provide_input(&mut self, text: &str)
        requires
            old(self).wf(),
        ensures
            final(self).same_but_input(*old(self)),
            final(self).line() == old(self).line(),
            final(self).pending_input() == old(self).pending_input().add(text@),
    {
        let more = chars_of(text);
        let mut i: usize = 0;
        let ghost p0 = self.pending_input();
        let ghost at0 = self.pending_at;
        while i < more.len()
            invariant
                self.wf(),
                self.pending_at == at0,
                self.same_but_input(*old(self)),
                self.line() == old(self).line(),
                i <= more@.len(),
                more@ == text@,
                self.pending_input() == p0.add(more@.subrange(0, i as int)),
            decreases more@.len() - i,
        {
            let ghost before = self.pending@;
            self.pending.push(more[i]);
            assert(self.pending@ == before.push(more@[i as int]));
            assert(self.pending_input() =~= before.subrange(at0 as int, before.len() as int).push(more@[i as int]));
            i = i + 1;
            assert(self.pending_input() =~= p0.add(more@.subrange(0, i as int)));
        }
        assert(more@.subrange(0, i as int) =~= text@);
    }

    /// Marks the input as exhausted: nothing beyond what is pending will come.
    pub fn close_input(&mut self)
        requires
            old(self).wf(),
        ensures
            final(self).wf(),
            final(self).input_closed(),
            final(self).traced() == old(self).traced(),
            final(self).written() == old(self).written(),
            final(self).files() == old(self).files(),
            final(self).commands() == old(self).commands(),
            final(self).arguments() == old(self).arguments(),
            final(self).variables() == old(self).variables(),
            final(self).line() == old(self).line(),
            final(self).pending_input() == old(self).pending_input(),
    {
        self.closed = true;
    }

    /// Sets the [`FileView`] of the configuration.
    pub fn file_view(self, file_view: FileView) -> (r: Config)
        requires
            self.wf(),
        ensures
            r.files() == file_view,
            r.wf(),
            r.traced() == self.traced(),
            r.written() == self.written(),
            r.commands() == self.commands(),
            r.arguments() == self.arguments(),
            r.variables() == self.variables(),
            r.line() == self.line(),
            r.pending_input() == self.pending_input(),
            r.input_closed() == self.input_closed(),
    {
        Config { file_view, ..self }
    }

    /// Sets the [`ExecAction`] of the configuration.
    pub fn exec_action(self, exec_action: ExecAction) -> (r: Config)
        requires
            self.wf(),
        ensures
            r.commands() == exec_action,
            r.wf(),
            r.traced() == self.traced(),
            r.written() == self.written(),
            r.files() == self.files(),
            r.arguments() == self.arguments(),
            r.variables() == self.variables(),
            r.line() == self.line(),
            r.pending_input() == self.pending_input(),
            r.input_closed() == self.input_closed(),
    {
        Config { exec_action, ..self }
    }

    /// Sets the command-line arguments that the `y` instruction reports.
    pub fn args(self, args: Vec<String>) -> (r: Config)
        requires
            self.wf(),
        ensures
            r.arguments() == args@,
            r.wf(),
            r.traced() == self.traced(),
            r.written() == self.written(),
            r.files() == self.files(),
            r.commands() == self.commands(),
            r.variables() == self.variables(),
            r.line() == self.line(),
            r.pending_input() == self.pending_input(),
            r.input_closed() == self.input_closed(),
    {
        Config { args, ..self }
    }

    /// Sets the environment variables, each `KEY=VALUE`, that the `y`
    /// instruction reports.
    pub fn vars(self, vars: Vec<String>) -> (r: Config)
        requires
            self.wf(),
        ensures
            r.variables() == vars@,
            r.wf(),
            r.traced() == self.traced(),
            r.written() == self.written(),
            r.files() == self.files(),
            r.commands() == self.commands(),
            r.arguments() == self.arguments(),
            r.line() == self.line(),
            r.pending_input() == self.pending_input(),
            r.input_closed() == self.input_closed(),
    {
        Config { vars, ..self }
    }

    /// Whether executed commands are traced.
    pub fn is_traced(&self) -> (r: bool)
        ensures
            r == self.traced(),
    {
        self.trace
    }

    /// The file access policy.
    pub fn get_file_view(&self) -> (r: FileView)
        ensures
            r == self.files(),
    {
        self.file_view
    }

    /// The shell command policy.
    pub fn get_exec_action(&self) -> (r: ExecAction)
        ensures
            r == self.commands(),
    {
        self.exec_action
    }

    /// The command-line arguments.
    pub fn get_args(&self) -> (r: &Vec<String>)
        ensures
            r@ == self.arguments(),
    {
        &self.args
    }

    /// The environment variables.
    pub fn get_vars(&self) -> (r: &Vec<String>)
        ensures
            r@ == self.variables(),
    {
        &self.vars
    }

    /// Takes everything written so far out of the configuration.
    pub fn take_output(&mut self) -> (r: Vec<char>)
        requires
            old(self).wf(),
        ensures
            r@ == old(self).written(),
            final(self).written().len() == 0,
            final(self).same_but_output(*old(self)),
    {
        let mut r: Vec<char> = Vec::new();
        std::mem::swap(&mut r, &mut self.output);
        r
    }

    /// Writes a number followed by a space.
    pub fn write_decimal(&mut self, n: i32)
        requires
            old(self).wf(),
        ensures
            final(self).written() == old(self).written().add(decimal(n as int)).push(' '),
            final(self).same_but_output(*old(self)),
    {
        let mut d = decimal_chars(n);
        self.output.append(&mut d);
        self.output.push(' ');
    }

    /// Writes a character.
    pub fn write_char(&mut self, c: char)
        requires
            old(self).wf(),
        ensures
            final(self).written() == old(self).written().push(c),
            final(self).same_but_output(*old(self)),
    {
        self.output.push(c);
    }

    /// Makes sure the current line holds the rest of the next line, taking
    /// it from the pending input if the current line is used up.
    fn fill_line(&mut self)
        requires
            old(self).wf(),
        ensures
            final(self).same_but_input(*old(self)),
            (final(self).line(), final(self).pending_input()) == old(self).next_line(),
    {
        if self.buffer.len() == 0 {
            let ghost p = self.pending_input();
            let start = self.pending_at;
            let mut i = self.pending_at;
            let mut found = false;
            while i < self.pending.len() && !found
                invariant
                    self.wf(),
                    self.same_but_input(*old(self)),
                    start == self.pending_at,
                    p == self.pending_input(),
                    start <= i <= self.pending@.len(),
                    self.buffer@ == p.subrange(0, i - start),
                    !found ==> line_end(p, (i - start) as nat) == line_end(p, 0),
                    found ==> line_end(p, 0) == i - start,
                    found ==> i > start,
                decreases self.pending@.len() - i, if found { 0int } else { 1int },
            {
                let c = self.pending[i];
                self.buffer.push(c);
                i = i + 1;
                assert(self.buffer@ =~= p.subrange(0, i - start));
                if c == '\n' {
                    found = true;
                }
            }
            self.pending_at = i;
            assert(self.pending_input() =~= p.subrange(i - start, p.len() as int));
        }
    }

    /// Reads a decimal number from the current line (filled first if it is
    /// used up): the first run of digits gives the number, 0 if there is
    /// none; the line is consumed through the character after the run.
    pub fn read_decimal(&mut self) -> (r: Input)
        requires
            old(self).wf(),
        ensures
            final(self).same_but_input(*old(self)),
            old(self).waits() ==> r == Input::Pending && final(self).line() == old(self).line()
                && final(self).pending_input() == old(self).pending_input(),
            !old(self).waits() ==> {
                let (line, rest) = old(self).next_line();
                let (v, used) = scan_decimal(line);
                &&& r == Input::Value(v)
                &&& final(self).line() == line.subrange(used as int, line.len() as int)
                &&& final(self).pending_input() == rest
            },
    {
        if self.buffer.len() == 0 && self.pending_at == self.pending.len() && !self.closed {
            return Input::Pending;
        }
        self.fill_line();
        let ghost line = self.buffer@;
        let len = self.buffer.len();
        let mut i: usize = 0;
        while i < len && digit_of(self.buffer[i]).is_none()
            invariant
                self.buffer@ == line,
                len == line.len(),
                i <= len,
                digit_start(line, i as nat) == digit_start(line, 0),
            decreases len - i,
        {
            i = i + 1;
        }
        let start = i;
        let mut v: i32 = 0;
        while i < len && digit_of(self.buffer[i]).is_some()
            invariant
                self.buffer@ == line,
                len == line.len(),
                start <= i <= len,
                start == digit_start(line, 0),
                digit_end(line, i as nat) == digit_end(line, start as nat),
                v == number(line.subrange(start as int, i as int)),
            decreases len - i,
        {
            let d = digit_of(self.buffer[i]).unwrap();
            assert(line.subrange(start as int, i + 1).drop_last() =~= line.subrange(start as int, i as int));
            v = v.wrapping_mul(10).wrapping_add(d);
            i = i + 1;
        }
        let used = if start < len && i < len {
            i + 1
        } else {
            len
        };
        let rest = self.buffer.split_off(used);
        self.buffer = rest;
        Input::Value(v)
    }

    /// Reads one character from the current line (filled first if it is used
    /// up). At the end of the input it gives [`Input::End`].
    pub fn read_char(&mut self) -> (r: Input)
        requires
            old(self).wf(),
        ensures
            final(self).same_but_input(*old(self)),
            old(self).waits() ==> r == Input::Pending && final(self).line() == old(self).line()
                && final(self).pending_input() == old(self).pending_input(),
            !old(self).waits() ==> {
                let (line, rest) = old(self).next_line();
                &&& line.len() == 0 ==> r == Input::End && final(self).line() == line
                &&& line.len() > 0 ==> r == Input::Value(line[0] as u32 as i32)
                    && final(self).line() == line.drop_first()
                &&& final(self).pending_input() == rest
            },
    {
        if self.buffer.len() == 0 && self.pending_at == self.pending.len() && !self.closed {
            return Input::Pending;
        }
        self.fill_line();
        if self.buffer.len() == 0 {
            Input::End
        } else {
            let c = self.buffer.remove(0);
            Input::Value(c as u32 as i32)
        }
    }

    /// Returns the flags that the `y` instruction reports: `t` is always
    /// supported, `i` and `o` unless files are denied, `=` unless commands are.
    pub fn flags(&self) -> (r: i32)
        ensures
            r == 1 + (if self.files() != FileView::Deny {
                6int
            } else {
                0int
            }) + (if self.commands() != ExecAction::Deny {
                8int
            } else {
                0int
            }),
    {
        let mut flags: i32 = 1;
        if self.file_view != FileView::Deny {
            flags = flags + 6;
        }
        if self.exec_action != ExecAction::Deny {
            flags = flags + 8;
        }
        flags
    }

    /// Returns the behaviour of the `=` instruction as the `y` instruction
    /// reports it: 1 (through the system shell) when commands are allowed,
    /// 0 (unavailable) otherwise.
    pub fn operating_paradigm(&self) -> (r: i32)
        ensures
            r == if self.commands() != ExecAction::Deny {
                1i32
            } else {
                0i32
            },
    {
        if self.exec_action != ExecAction::Deny {
            1
        } else {
            0
        }
    }
}

/// What a trace reports of one executed command.
pub struct Trace {
    id: i32,
    command: char,
    position: Point,
    stacks: Vec<char>,
}

/// A point written as `(x, y)`.
pub open spec fn point_text(p: Point) -> Seq<char> {
    seq!['('].add(decimal(p.x as int)).add(seq![',', ' ']).add(decimal(p.y as int)).push(')')
}

impl Trace {
    /// The identifier of the pointer that executed the command.
    pub closed spec fn spec_id(&self) -> i32 {
        self.id
    }

    /// The executed command.
    pub closed spec fn spec_command(&self) -> char {
        self.command
    }

    /// The position at which the command was found.
    pub closed spec fn spec_position(&self) -> Point {
        self.position
    }

    /// The stacks after the command, written out.
    pub closed spec fn spec_stacks(&self) -> Seq<char> {
        self.stacks@
    }

    /// Records one executed command.
    pub fn new(id: i32, command: char, position: Point, stacks: Vec<char>) -> (r: Trace)
        ensures
            r.spec_id() == id,
            r.spec_command() == command,
            r.spec_position() == position,
            r.spec_stacks() == stacks@,
    {
        Trace { id, command, position, stacks }
    }

    /// Returns the ID of the pointer that executed the command.
    pub fn id(&self) -> (r: String)
        ensures
            r@ == decimal(self.spec_id() as int),
    {
        string_from(&decimal_chars(self.id))
    }

    /// Returns the command that was executed.
    pub fn command(&self) -> (r: String)
        ensures
            r@ == seq![self.spec_command()],
    {
        let mut v: Vec<char> = Vec::new();
        v.push(self.command);
        proof {
            assert(v@ =~= seq![self.spec_command()]);
        }
        string_from(&v)
    }

    /// Returns the position at which the command was found, as `(x, y)`.
    pub fn position(&self) -> (r: String)
        ensures
            r@ == point_text(self.spec_position()),
    {
        let mut v: Vec<char> = Vec::new();
        v.push('(');
        let mut x = decimal_chars(self.position.x);
        v.append(&mut x);
        v.push(',');
        v.push(' ');
        let mut y = decimal_chars(self.position.y);
        v.append(&mut y);
        v.push(')');
        proof {
            assert(v@ =~= point_text(self.spec_position()));
        }
        string_from(&v)
    }

    /// Returns the stacks of the pointer after the command was executed.
    pub fn stacks(&self) -> (r: String)
        ensures
            r@ == self.spec_stacks(),
    {
        string_from(&self.stacks)
    }
}

/// The value of a decimal digit character.
fn digit_of(c: char) -> (r: Option<i32>)
    ensures
        r == digit_value(c),
{
    if '0' <= c && c <= '9' {
        Some((c as u32 - '0' as u32) as i32)
    } else {
        None
    }
}

} // verus!
