//! The parser: a cursor over an assembly source that stops at each command
//! and takes it apart.

use crate::text::{
    chars_of, cut, find, find_back, find_back_in, find_in, lemma_find, line_end, next_line,
    string_of, trim, trimmed, CharSet,
};
use vstd::prelude::*;

verus! {

/// The kinds of command: `@value`, `dest=comp;jump` and `(LABEL)`.
#[derive(Clone, Copy, Debug, PartialEq, Eq, Structural)]
pub enum Command {
    /// An A-instruction, which loads an address.
    A,
    /// A C-instruction, which computes.
    C,
    /// A label, which names the next instruction.
    L,
}

/// The position of the first `//` in `line` at or after `from`, or the length
/// of `line` if there is none.
pub open spec fn comment_start(line: Seq<char>, from: int) -> int
    decreases line.len() - from,
{
    if from >= line.len() {
        line.len() as int
    } else if line[from] == '/' && from + 1 < line.len() && line[from + 1] == '/' {
        from
    } else {
        comment_start(line, from + 1)
    }
}

/// The command on a line: the line without its comment and without the
/// whitespace around what is left. Empty if the line holds no command.
pub open spec fn command_text(line: Seq<char>) -> Seq<char> {
    trim(line.take(comment_start(line, 0)), CharSet::Whitespace)
}

/// The command on the line of `s` that starts at `from`.
pub open spec fn command_at(s: Seq<char>, from: int) -> Seq<char> {
    command_text(s.subrange(from, line_end(s, from)))
}

/// The commands of `s` from the line that starts at `from` on, in order.
pub open spec fn commands(s: Seq<char>, from: int) -> Seq<Seq<char>>
    decreases s.len() - from,
    when 0 <= from
    via commands_decreases
{
    if from >= s.len() {
        Seq::empty()
    } else if command_at(s, from).len() > 0 {
        seq![command_at(s, from)] + commands(s, next_line(s, from))
    } else {
        commands(s, next_line(s, from))
    }
}

#[via_fn]
proof fn commands_decreases(s: Seq<char>, from: int) {
    if from < s.len() {
        lemma_find(s, CharSet::One('\n'), from);
    }
}

/// Whether a command stands at or after the line of `s` that starts at
/// `from`.
pub open spec fn has_more(s: Seq<char>, from: int) -> bool {
    commands(s, from).len() > 0
}

/// The position at which the line after the next command starts: where a
/// cursor at `from` stands once it has advanced.
pub open spec fn after_command(s: Seq<char>, from: int) -> int
    decreases s.len() - from,
    when 0 <= from
    via after_command_decreases
{
    if from >= s.len() {
        s.len() as int
    } else if command_at(s, from).len() > 0 {
        next_line(s, from)
    } else {
        after_command(s, next_line(s, from))
    }
}

#[via_fn]
proof fn after_command_decreases(s: Seq<char>, from: int) {
    if from < s.len() {
        lemma_find(s, CharSet::One('\n'), from);
    }
}

/// The commands from `from` on are the next command, then the commands from
/// the line after it on; and that line starts later, within `s`.
pub proof fn lemma_commands(s: Seq<char>, from: int)
    requires
        0 <= from <= s.len(),
        has_more(s, from),
    ensures
        commands(s, from) == seq![commands(s, from)[0]] + commands(s, after_command(s, from)),
        commands(s, from)[0].len() > 0,
        from < after_command(s, from) <= s.len(),
    decreases s.len() - from,
{
    lemma_find(s, CharSet::One('\n'), from);
    if command_at(s, from).len() == 0 {
        lemma_commands(s, next_line(s, from));
    }
}

/// The kind of a command, by its first character.
pub open spec fn kind_of(command: Seq<char>) -> Command {
    if command.len() > 0 && command[0] == '@' {
        Command::A
    } else if command.len() > 0 && command[0] == '(' {
        Command::L
    } else {
        Command::C
    }
}

/// The symbol of an A-command, which is what follows `@`, or of a label,
/// which is what its parentheses hold.
pub open spec fn symbol_of(command: Seq<char>) -> Seq<char> {
    if kind_of(command) == Command::A {
        command.skip(1)
    } else {
        trim(command, CharSet::Two('(', ')'))
    }
}

/// The destination of a C-command: what stands before the first `=`, or
/// nothing if there is no `=`.
pub open spec fn dest_of(command: Seq<char>) -> Seq<char> {
    let eq = find(command, CharSet::One('='), 0);
    if eq < command.len() {
        command.take(eq)
    } else {
        Seq::empty()
    }
}

/// The computation of a C-command: what stands before the first `;`, or the
/// whole command if there is none, and of that what follows the last `=`.
pub open spec fn comp_of(command: Seq<char>) -> Seq<char> {
    let end = find(command, CharSet::One(';'), 0);
    command.subrange(find_back(command, CharSet::One('='), end), end)
}

/// The jump of a C-command: what follows the first `;`, or nothing if there
/// is no `;`.
pub open spec fn jump_of(command: Seq<char>) -> Seq<char> {
    let semi = find(command, CharSet::One(';'), 0);
    if semi < command.len() {
        command.skip(semi + 1)
    } else {
        Seq::empty()
    }
}

/// A cursor over an assembly source. It holds the source, the position of
/// the line it will read next and the command it stopped at last.
pub struct Parser {
    source: Vec<char>,
    position: usize,
    current: Vec<char>,
}

/// Finds the first `//` in `line`.
fn find_comment(line: &[char]) -> (at: usize)
    ensures
        at == comment_start(line@, 0),
        at <= line.len(),
{
    let mut i: usize = 0;
    while i < line.len() && !(line[i] == '/' && i + 1 < line.len() && line[i + 1] == '/')
        invariant
            i <= line.len(),
            comment_start(line@, i as int) == comment_start(line@, 0),
        decreases line.len() - i,
    {
        i += 1;
    }
    i
}

impl Parser {
    /// The cursor always stands within its source.
    #[verifier::type_invariant]
    spec fn inside(&self) -> bool {
        self.position <= self.source@.len()
    }

    /// The whole source.
    pub closed spec fn source(&self) -> Seq<char> {
        self.source@
    }

    /// The position in the source at which the next line to read starts.
    pub closed spec fn position(&self) -> int {
        self.position as int
    }

    /// The command that the cursor stopped at last; empty before the first
    /// advance.
    pub closed spec fn current(&self) -> Seq<char> {
        self.current@
    }

    /// A cursor at the start of `input`, with no current command.
    pub fn new(input: &str) -> (parser: Parser)
        ensures
            parser.source() == input@,
            parser.position() == 0,
            parser.current() == Seq::<char>::empty(),
    {
        Parser { source: chars_of(input), position: 0, current: Vec::new() }
    }

    /// Reads the command on the line that starts at `from`, and finds where
    /// the next line starts.
    fn read_line(&self, from: usize) -> (r: (Vec<char>, usize))
        requires
            from < self.source().len(),
        ensures
            r.0@ == command_at(self.source(), from as int),
            r.1 == next_line(self.source(), from as int),
            from < r.1 <= self.source().len(),
    {
        let end = find_in(self.source.as_slice(), CharSet::One('\n'), from);
        let line = cut(self.source.as_slice(), from, end);
        let stop = find_comment(line.as_slice());
        let code = cut(line.as_slice(), 0, stop);
        let command = trimmed(code.as_slice(), CharSet::Whitespace);
        let next = if end < self.source.len() {
            end + 1
        } else {
            end
        };
        (command, next)
    }

    /// Whether the cursor has a command left to stop at.
    pub fn has_more_commands(&self) -> (more: bool)
        ensures
            more == has_more(self.source(), self.position()),
            0 <= self.position() <= self.source().len(),
    {
        proof {
            use_type_invariant(self);
        }
        let mut at: usize = self.position;
        while at < self.source.len()
            invariant
                at <= self.source@.len(),
                has_more(self.source(), at as int) == has_more(self.source(), self.position()),
            decreases self.source@.len() - at,
        {
            let (command, next) = self.read_line(at);
            if command.len() > 0 {
                return true;
            }
            at = next;
        }
        false
    }

    /// Moves the cursor to the next command and makes it the current one.
    pub fn advance(&mut self)
        requires
            has_more(old(self).source(), old(self).position()),
        ensures
            final(self).source() == old(self).source(),
            final(self).current() == commands(old(self).source(), old(self).position())[0],
            final(self).position() == after_command(old(self).source(), old(self).position()),
    {
        proof {
            use_type_invariant(&*self);
        }
        let mut at: usize = self.position;
        loop
            invariant
                at <= self.source@.len(),
                self.position <= self.source@.len(),
                self.source@ == old(self).source@,
                has_more(self.source(), at as int),
                commands(self.source(), at as int) == commands(
                    old(self).source(),
                    old(self).position(),
                ),
                after_command(self.source(), at as int) == after_command(
                    old(self).source(),
                    old(self).position(),
                ),
            decreases self.source@.len() - at,
        {
            let (command, next) = self.read_line(at);
            if command.len() > 0 {
                self.current = command;
                self.position = next;
                return ;
            }
            at = next;
        }
    }

    /// The kind of the current command.
    pub fn command_type(&self) -> (kind: Command)
        ensures
            kind == kind_of(self.current()),
    {
        if self.current.len() == 0 {
            Command::C
        } else if self.current[0] == '@' {
            Command::A
        } else if self.current[0] == '(' {
            Command::L
        } else {
            Command::C
        }
    }

    /// The symbol of the current command, which is an A-command or a label.
    pub fn symbol(&self) -> (symbol: String)
        requires
            kind_of(self.current()) != Command::C,
        ensures
            symbol@ == symbol_of(self.current()),
    {
        let current = self.current.as_slice();
        match self.command_type() {
            Command::A => string_of(cut(current, 1, current.len()).as_slice()),
            _ => string_of(trimmed(current, CharSet::Two('(', ')')).as_slice()),
        }
    }

    /// The destination of the current command, which is a C-command.
    pub fn dest(&self) -> (dest: String)
        requires
            kind_of(self.current()) == Command::C,
        ensures
            dest@ == dest_of(self.current()),
    {
        let current = self.current.as_slice();
        let eq = find_in(current, CharSet::One('='), 0);
        if eq < current.len() {
            string_of(cut(current, 0, eq).as_slice())
        } else {
            String::new()
        }
    }

    /// The computation of the current command, which is a C-command.
    pub fn comp(&self) -> (comp: String)
        requires
            kind_of(self.current()) == Command::C,
        ensures
            comp@ == comp_of(self.current()),
    {
        let current = self.current.as_slice();
        let end = find_in(current, CharSet::One(';'), 0);
        let start = find_back_in(current, CharSet::One('='), end);
        string_of(cut(current, start, end).as_slice())
    }

    /// The jump of the current command, which is a C-command.
    pub fn jump(&self) -> (jump: String)
        requires
            kind_of(self.current()) == Command::C,
        ensures
            jump@ == jump_of(self.current()),
    {
        let current = self.current.as_slice();
        let semi = find_in(current, CharSet::One(';'), 0);
        if semi < current.len() {
            string_of(cut(current, semi + 1, current.len()).as_slice())
        } else {
            String::new()
        }
    }

    /// Whether `f` was called on a cursor that had stopped at `command` in
    /// the source `source`, and returned `outcome`.
    pub open spec fn called<F: Fn(&Parser) -> Option<E>, E>(
        f: F,
        source: Seq<char>,
        command: Seq<char>,
        outcome: Option<E>,
    ) -> bool {
        exists|p: Parser|
            p.source() == source && p.current() == command && #[trigger] f.ensures((&p,), outcome)
    }

    /// Advances from command to command and calls `f` on the cursor at
    /// each, until `f` returns an error or no command is left. Returns the
    /// error, with the cursor at the command that gave it; or `Ok` with the
    /// cursor at the end, when `f` returned `None` for every command.
    pub fn each_advance<F: Fn(&Parser) -> Option<E>, E>(&mut self, f: F) -> (r: Result<(), E>)
        requires
            forall|p: &Parser| #[trigger] f.requires((p,)),
        ensures
            final(self).source() == old(self).source(),
            ({
                let source = old(self).source();
                let all = commands(source, old(self).position());
                let left = commands(source, final(self).position());
                let visited = all.len() - left.len();
                &&& 0 <= visited <= all.len()
                &&& all.skip(visited) == left
                &&& forall|k: int|
                    0 <= k < visited - 1 ==> Parser::called(f, source, #[trigger] all[k], None)
                &&& match r {
                    Ok(_) => {
                        &&& left.len() == 0
                        &&& visited > 0 ==> Parser::called(f, source, all[visited - 1], None)
                    },
                    Err(e) => {
                        &&& visited > 0
                        &&& final(self).current() == all[visited - 1]
                        &&& Parser::called(f, source, all[visited - 1], Some(e))
                    },
                }
            }),
    {
        let ghost source = self.source();
        let ghost all = commands(source, self.position());
        let ghost mut visited: int = 0;
        proof {
            assert(all.skip(0) =~= all);
        }
        loop
            invariant
                self.source() == source,
                source == old(self).source(),
                all == commands(source, old(self).position()),
                forall|p: &Parser| #[trigger] f.requires((p,)),
                0 <= visited <= all.len(),
                all.skip(visited) == commands(source, self.position()),
                visited == all.len() - commands(source, self.position()).len(),
                forall|k: int|
                    0 <= k < visited ==> Parser::called(f, source, #[trigger] all[k], None),
            decreases all.len() - visited,
        {
            if !self.has_more_commands() {
                return Ok(());
            }
            proof {
                lemma_commands(source, self.position());
                let left = commands(source, self.position());
                assert(left[0] == all[visited]);
                assert(all.skip(visited + 1) =~= left.skip(1));
                assert(left.skip(1) =~= commands(source, after_command(source, self.position())));
            }
            self.advance();
            let outcome = f(&*self);
            proof {
                visited = visited + 1;
                assert(Parser::called(f, source, all[visited - 1], outcome));
            }
            if let Some(error) = outcome {
                return Err(error);
            }
        }
    }
}

} // verus!
