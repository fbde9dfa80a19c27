//! The runner of test scripts: it executes the commands of a script on a
//! CPU, gathers the lines of output and checks them against the expected
//! ones.
//!
//! The runner reads no file and writes none. The files that a script names
//! are handed to it with their contents, and it reports what is to be
//! written where.

pub mod commands;
pub mod format;

pub use commands::{Command, Commands};

use crate::assembler::{assemble, assembled};
use crate::cpu::{Cpu, Machine};
use crate::memory::rom::{program, too_large};
use crate::memory::{Rom, Word, ROM_SIZE};
use crate::numeral::{numeral, write_numeral};
use crate::text::{
    all_lines, chars_of, ends_with, equal, has_suffix, join, lines, pieces, put, put_chars, split,
    string_of, tell, trim, trimmed, views, CharSet,
};
use commands::{actions, found, lemma_found_advances, Action, Found};
use format::{cell, cells, locate, location, row, shown, write_cell, Location};
use vstd::prelude::*;

verus! {

/// A file that a script may name, with what reading it gave: its contents,
/// or the message of the error.
pub struct SourceFile {
    pub name: String,
    pub contents: Result<String, String>,
}

/// The state of a run.
pub struct Runner {
    /// The CPU that the script drives.
    pub cpu: Cpu,
    /// The name of the file that the output goes to, once the script has
    /// named it.
    pub output_path: Option<String>,
    /// The expected output.
    pub comparison: Vec<char>,
    /// The formats of the columns of the output.
    pub formats: Vec<Vec<char>>,
    /// The lines of output so far.
    pub output: Vec<char>,
}

/// What a run holds.
pub struct State {
    pub cpu: Machine,
    pub output_path: Option<Seq<char>>,
    pub comparison: Seq<char>,
    pub formats: Seq<Seq<char>>,
    pub output: Seq<char>,
}

/// A state after a command, and the error that the command ended with, if
/// any.
pub struct Done {
    pub state: State,
    pub failure: Option<Seq<char>>,
}

impl View for Runner {
    type V = State;

    open spec fn view(&self) -> State {
        State {
            cpu: self.cpu@,
            output_path: match self.output_path {
                Some(path) => Some(path@),
                None => None,
            },
            comparison: self.comparison@,
            formats: views(self.formats@),
            output: self.output@,
        }
    }
}

impl State {
    /// The state before the first command: a CPU around an empty program,
    /// and nothing else.
    pub open spec fn start() -> State {
        State {
            cpu: Machine::around(Seq::empty()),
            output_path: None,
            comparison: Seq::empty(),
            formats: Seq::empty(),
            output: Seq::empty(),
        }
    }

    /// This state with another CPU.
    pub open spec fn with_cpu(self, cpu: Machine) -> State {
        State {
            cpu,
            output_path: self.output_path,
            comparison: self.comparison,
            formats: self.formats,
            output: self.output,
        }
    }

    /// This state with other output.
    pub open spec fn with_output(self, output: Seq<char>) -> State {
        State {
            cpu: self.cpu,
            output_path: self.output_path,
            comparison: self.comparison,
            formats: self.formats,
            output,
        }
    }

    /// This state with other formats.
    pub open spec fn with_formats(self, formats: Seq<Seq<char>>) -> State {
        State {
            cpu: self.cpu,
            output_path: self.output_path,
            comparison: self.comparison,
            formats,
            output: self.output,
        }
    }

    /// This state with other expected output.
    pub open spec fn with_comparison(self, comparison: Seq<char>) -> State {
        State {
            cpu: self.cpu,
            output_path: self.output_path,
            comparison,
            formats: self.formats,
            output: self.output,
        }
    }

    /// This state with a file for the output.
    pub open spec fn with_path(self, path: Seq<char>) -> State {
        State {
            cpu: self.cpu,
            output_path: Some(path),
            comparison: self.comparison,
            formats: self.formats,
            output: self.output,
        }
    }

    /// This state as the end of a command without error.
    pub open spec fn fine(self) -> Done {
        Done { state: self, failure: None }
    }

    /// This state as the end of a command with an error.
    pub open spec fn failed(self, message: Seq<char>) -> Done {
        Done { state: self, failure: Some(message) }
    }
}

/// What reading the file `name` gave: the entry of the first file of that
/// name from `from` on, or `None` if there is no such file.
pub open spec fn lookup(files: Seq<SourceFile>, name: Seq<char>, from: int) -> Option<
    Result<Seq<char>, Seq<char>>,
>
    decreases files.len() - from,
{
    if from < 0 || from >= files.len() {
        None
    } else if files[from].name@ == name {
        Some(
            match files[from].contents {
                Ok(text) => Ok(text@),
                Err(e) => Err(e@),
            },
        )
    } else {
        lookup(files, name, from + 1)
    }
}

/// The message for a file that was not handed to the run.
pub open spec fn not_found(name: Seq<char>) -> Seq<char> {
    "'"@ + name + "' does not exist."@
}

/// The contents of the file `name`, or the message of the error.
pub open spec fn contents_of(files: Seq<SourceFile>, name: Seq<char>) -> Result<
    Seq<char>,
    Seq<char>,
> {
    match lookup(files, name, 0) {
        None => Err(not_found(name)),
        Some(r) => r,
    }
}

/// The message for a program file that is neither assembly nor machine
/// code.
pub open spec fn unsupported(name: Seq<char>) -> Seq<char> {
    "Unsupported file type: "@ + name
}

/// The message for a step that the CPU cannot make.
pub open spec fn fault() -> Seq<char> {
    "CPU fault: the program counter or the address in A is out of bounds"@
}

/// The message for an end of a script that has named no output file.
pub open spec fn no_output_file() -> Seq<char> {
    "No output file specified"@
}

/// The machine code that the file `name` holds: its contents if it ends in
/// `.hack`, its contents assembled if it ends in `.asm`.
pub open spec fn machine_code(files: Seq<SourceFile>, name: Seq<char>) -> Result<
    Seq<char>,
    Seq<char>,
> {
    if ends_with(name, ".asm"@) {
        match contents_of(files, name) {
            Err(e) => Err(e),
            Ok(source) => assembled(source),
        }
    } else if ends_with(name, ".hack"@) {
        contents_of(files, name)
    } else {
        Err(unsupported(name))
    }
}

/// `load`: a new CPU around the program of the named file.
pub open spec fn loaded_program(state: State, files: Seq<SourceFile>, name: Seq<char>) -> Done {
    match machine_code(files, name) {
        Err(e) => state.failed(e),
        Ok(code) => if program(code).len() > ROM_SIZE {
            state.failed(too_large())
        } else {
            state.with_cpu(Machine::around(program(code))).fine()
        },
    }
}

/// `compare-to`: the contents of the named file become the expected output.
pub open spec fn compared_with(state: State, files: Seq<SourceFile>, name: Seq<char>) -> Done {
    match contents_of(files, name) {
        Err(e) => state.failed(e),
        Ok(text) => state.with_comparison(text).fine(),
    }
}

/// A signed value as the word that holds it in two's complement.
pub open spec fn word_of(value: i16) -> Word {
    if value < 0 {
        (value + 0x10000) as Word
    } else {
        value as Word
    }
}

/// The characters that part a location in a `set` command.
pub open spec fn bracket() -> CharSet {
    CharSet::Three(' ', '[', ']')
}

/// `set`: the value goes to the program counter or to a word of the RAM.
pub open spec fn assigned(state: State, place: Seq<char>, value: i16) -> Done {
    match location(pieces(place, bracket(), 0)) {
        Err(e) => state.failed(e),
        Ok(Location::Pc) => state.with_cpu(
            Machine {
                ram: state.cpu.ram,
                rom: state.cpu.rom,
                pc: word_of(value),
                ra: state.cpu.ra,
                rd: state.cpu.rd,
            },
        ).fine(),
        Ok(Location::Ram(index)) => state.with_cpu(
            Machine {
                ram: state.cpu.ram.update(index as int, word_of(value)),
                rom: state.cpu.rom,
                pc: state.cpu.pc,
                ra: state.cpu.ra,
                rd: state.cpu.rd,
            },
        ).fine(),
    }
}

/// A line of output is appended, a header or values; on an error the output
/// stays as it is.
pub open spec fn line_written(state: State, header: bool) -> Done {
    match row(state.cpu, state.formats, header) {
        Err(e) => state.failed(e),
        Ok(text) => state.with_output(state.output + text).fine(),
    }
}

/// Whether two lines agree: cut at each `|`, the cells that both lines have
/// are equal but for whitespace around them.
pub open spec fn agree(got: Seq<char>, expected: Seq<char>) -> bool {
    let a = pieces(got, CharSet::One('|'), 0);
    let b = pieces(expected, CharSet::One('|'), 0);
    forall|i: int|
        0 <= i < a.len() && i < b.len() ==> trim(#[trigger] a[i], CharSet::Whitespace) == trim(
            b[i],
            CharSet::Whitespace,
        )
}

/// The number of the first line from `from` on that both texts have and
/// that does not agree, if there is one.
pub open spec fn first_difference(got: Seq<Seq<char>>, expected: Seq<Seq<char>>, from: int)
    -> Option<int>
    decreases got.len() - from,
{
    if from < 0 || from >= got.len() || from >= expected.len() {
        None
    } else if !agree(got[from], expected[from]) {
        Some(from)
    } else {
        first_difference(got, expected, from + 1)
    }
}

/// The message for a line of output that is not the expected one.
pub open spec fn mismatch(number: nat, got: Seq<char>, expected: Seq<char>) -> Seq<char> {
    "Comparison failed at line: "@ + numeral(number, 10) + "\nGot: '"@ + got + "'\nExpected: '"@
        + expected + "'"@
}

/// The output so far is held against the expected output, line by line as
/// far as both go.
pub open spec fn checked(state: State) -> Done {
    let got = lines(state.output, 0);
    let expected = lines(state.comparison, 0);
    match first_difference(got, expected, 0) {
        Some(k) => state.failed(mismatch(k as nat, got[k], expected[k])),
        None => state.fine(),
    }
}

/// `output`: a line of values is appended, and the output is checked.
pub open spec fn output_checked(state: State) -> Done {
    let written = line_written(state, false);
    if written.failure is Some {
        written
    } else {
        checked(written.state)
    }
}

/// `ticktock`: the CPU makes one step, if it can.
pub open spec fn ticked(state: State) -> Done {
    if state.cpu.faulted() {
        state.failed(fault())
    } else {
        state.with_cpu(state.cpu.stepped()).fine()
    }
}

/// The state after one command.
pub open spec fn stepped(state: State, action: Action, files: Seq<SourceFile>) -> Done
    decreases action, 0nat, 0nat,
{
    match action {
        Action::Repeat(times, body) => repeated(state, body, times as nat, files),
        Action::OutputFile(name) => state.with_path(name).fine(),
        Action::OutputList(formats) => line_written(state.with_formats(formats), true),
        Action::TickTock => ticked(state),
        Action::Output => output_checked(state),
        Action::Load(name) => loaded_program(state, files, name),
        Action::CompareTo(name) => compared_with(state, files, name),
        Action::SetValue(place, value) => assigned(state, place, value),
    }
}

/// The state after the commands of `body` from the one at `from` on, up to
/// the first error.
pub open spec fn ran(state: State, body: Seq<Action>, from: int, files: Seq<SourceFile>) -> Done
    decreases body, 1nat, body.len() - from,
{
    if from < 0 || from >= body.len() {
        state.fine()
    } else {
        let done = stepped(state, body[from], files);
        if done.failure is Some {
            done
        } else {
            ran(done.state, body, from + 1, files)
        }
    }
}

/// The state after `times` rounds of the commands of `body`, up to the first
/// error.
pub open spec fn repeated(state: State, body: Seq<Action>, times: nat, files: Seq<SourceFile>)
    -> Done
    decreases body, 2nat, times,
{
    if times == 0 {
        state.fine()
    } else {
        let done = ran(state, body, 0, files);
        if done.failure is Some {
            done
        } else {
            repeated(done.state, body, (times - 1) as nat, files)
        }
    }
}

/// What a result without a value says.
pub open spec fn failure_of(r: Result<(), String>) -> Option<Seq<char>> {
    match r {
        Ok(_) => None,
        Err(e) => Some(e@),
    }
}

/// What a run reports: how it ended, and the file to write with its
/// contents, if there is one.
pub struct Report {
    pub result: Result<(), String>,
    pub written: Option<(String, String)>,
}

/// What a report says.
pub struct Outcome {
    pub failure: Option<Seq<char>>,
    pub written: Option<(Seq<char>, Seq<char>)>,
}

impl View for Report {
    type V = Outcome;

    open spec fn view(&self) -> Outcome {
        Outcome {
            failure: failure_of(self.result),
            written: match self.written {
                Some((path, text)) => Some((path@, text@)),
                None => None,
            },
        }
    }
}

/// The file to write for a state: the output under the name that the script
/// gave, if it gave one.
pub open spec fn flushed(state: State) -> Option<(Seq<char>, Seq<char>)> {
    match state.output_path {
        Some(path) => Some((path, state.output)),
        None => None,
    }
}

/// The message for a command that failed in the script `base`.
pub open spec fn failure_in(base: Seq<char>, message: Seq<char>) -> Seq<char> {
    "Failure running '"@ + base + "':\n"@ + message
}

/// The end of a script that ran through: the output is written, and a
/// script that named no file for it has failed.
pub open spec fn finished(state: State) -> Outcome {
    match flushed(state) {
        Some(file) => Outcome { failure: None, written: Some(file) },
        None => Outcome { failure: Some(no_output_file()), written: None },
    }
}

/// What running the script `s` from `from` on reports, from the state
/// `state`. A command that cannot be read ends the run with its error, and a
/// command that fails ends it with its error under the name of the script;
/// either way the output so far is written, if the script has named a file
/// for it.
pub open spec fn run(
    base: Seq<char>,
    s: Seq<char>,
    from: int,
    state: State,
    files: Seq<SourceFile>,
) -> Outcome
    decreases s.len() - from,
{
    match found(s, from) {
        Found::End => finished(state),
        Found::Item(Err(e), _) => Outcome { failure: Some(e), written: flushed(state) },
        Found::Item(Ok(action), next) => {
            let done = stepped(state, action, files);
            match done.failure {
                Some(e) => Outcome {
                    failure: Some(failure_in(base, e)),
                    written: flushed(done.state),
                },
                None => if from < next <= s.len() {
                    run(base, s, next, done.state, files)
                } else {
                    finished(done.state)
                },
            }
        },
    }
}

/// Looks up what reading the file `name` gave.
fn contents(files: &Vec<SourceFile>, name: &[char]) -> (r: Result<Vec<char>, String>)
    ensures
        shown(r) == contents_of(files@, name@),
{
    let mut i: usize = 0;
    while i < files.len()
        invariant
            i <= files.len(),
            lookup(files@, name@, i as int) == lookup(files@, name@, 0),
        decreases files.len() - i,
    {
        let entry = chars_of(files[i].name.as_str());
        if equal(entry.as_slice(), name) {
            return match &files[i].contents {
                Ok(text) => Ok(chars_of(text.as_str())),
                Err(e) => Err(e.clone()),
            };
        }
        i += 1;
    }
    Err(join("'", name, "' does not exist."))
}

/// Tests whether two lines agree cell by cell.
fn lines_agree(got: &[char], expected: &[char]) -> (r: bool)
    ensures
        r == agree(got@, expected@),
{
    let a = split(got, CharSet::One('|'));
    let b = split(expected, CharSet::One('|'));
    assert(forall|i: int| 0 <= i < a@.len() ==> a@[i]@ == #[trigger] views(a@)[i]);
    assert(forall|i: int| 0 <= i < b@.len() ==> b@[i]@ == #[trigger] views(b@)[i]);
    let ghost pa = pieces(got@, CharSet::One('|'), 0);
    let ghost pb = pieces(expected@, CharSet::One('|'), 0);
    let mut i: usize = 0;
    while i < a.len() && i < b.len()
        invariant
            pa == pieces(got@, CharSet::One('|'), 0),
            pb == pieces(expected@, CharSet::One('|'), 0),
            views(a@) == pa,
            views(b@) == pb,
            forall|j: int| 0 <= j < a@.len() ==> a@[j]@ == #[trigger] pa[j],
            forall|j: int| 0 <= j < b@.len() ==> b@[j]@ == #[trigger] pb[j],
            forall|j: int|
                0 <= j < i ==> trim(#[trigger] pa[j], CharSet::Whitespace) == trim(
                    pb[j],
                    CharSet::Whitespace,
                ),
        decreases a.len() - i,
    {
        let x = trimmed(a[i].as_slice(), CharSet::Whitespace);
        let y = trimmed(b[i].as_slice(), CharSet::Whitespace);
        if !equal(x.as_slice(), y.as_slice()) {
            proof {
                assert(pa.len() == a@.len() && pb.len() == b@.len());
                assert(a@[i as int]@ == pa[i as int]);
                assert(b@[i as int]@ == pb[i as int]);
                assert(trim(pa[i as int], CharSet::Whitespace) != trim(
                    pb[i as int],
                    CharSet::Whitespace,
                ));
            }
            return false;
        }
        i += 1;
    }
    proof {
        assert(pa.len() == a@.len() && pb.len() == b@.len());
    }
    true
}

impl Runner {
    /// A run before its first command.
    pub fn new() -> (runner: Runner)
        ensures
            runner@ == State::start(),
    {
        let runner = Runner {
            cpu: Cpu::new(Rom::zeroed()),
            output_path: None,
            comparison: Vec::new(),
            formats: Vec::new(),
            output: Vec::new(),
        };
        proof {
            assert(runner@.formats =~= Seq::<Seq<char>>::empty());
            assert(runner@.cpu.rom =~= crate::memory::rom::loaded(Seq::<Word>::empty()));
        }
        runner
    }

    /// Executes one command.
    pub fn step(&mut self, cmd: &Command, files: &Vec<SourceFile>) -> (r: Result<(), String>)
        ensures
            (Done { state: final(self)@, failure: failure_of(r) }) == stepped(
                old(self)@,
                cmd@,
                files@,
            ),
        decreases cmd,
    {
        match cmd {
            Command::Repeat(times, commands) => {
                let ghost body = actions(commands@);
                proof {
                    reveal_with_fuel(Command::action, 2);
                    assert(cmd@ == Action::Repeat(*times, body)) by {
                        assert(cmd@->Repeat_1 =~= body);
                    }
                }
                let mut round: u16 = 0;
                while round < *times
                    invariant
                        round <= *times,
                        body == actions(commands@),
                        *cmd == Command::Repeat(*times, *commands),
                        cmd@ == Action::Repeat(*times, body),
                        repeated(self@, body, (*times - round) as nat, files@) == repeated(
                            old(self)@,
                            body,
                            *times as nat,
                            files@,
                        ),
                    decreases *times - round,
                {
                    let ghost before = self@;
                    match self.run_list(commands, files) {
                        Ok(_) => {},
                        Err(e) => {
                            proof {
                                let done = ran(before, body, 0, files@);
                                assert(done.failure is Some);
                                assert(repeated(before, body, (*times - round) as nat, files@)
                                    == done);
                            }
                            return Err(e);
                        },
                    }
                    round += 1;
                }
                Ok(())
            },
            Command::OutputFile(filename) => {
                self.output_path = Some(filename.clone());
                Ok(())
            },
            Command::OutputList(formats) => self.set_formatting(formats),
            Command::TickTock => {
                if self.cpu.faults() {
                    Err(
                        String::from_str(
                            "CPU fault: the program counter or the address in A is out of bounds",
                        ),
                    )
                } else {
                    self.cpu.step();
                    Ok(())
                }
            },
            Command::Output => self.check_output_line(),
            Command::Load(filename) => self.load_program(filename.as_str(), files),
            Command::CompareTo(filename) => self.compare_with(filename.as_str(), files),
            Command::SetValue(dest, val) => self.set(dest.as_str(), *val),
        }
    }

    /// Executes the commands of a block, up to the first error.
    fn run_list(&mut self, commands: &Vec<Command>, files: &Vec<SourceFile>) -> (r: Result<
        (),
        String,
    >)
        ensures
            (Done { state: final(self)@, failure: failure_of(r) }) == ran(
                old(self)@,
                actions(commands@),
                0,
                files@,
            ),
        decreases commands,
    {
        let ghost body = actions(commands@);
        let mut i: usize = 0;
        while i < commands.len()
            invariant
                i <= commands.len(),
                body == actions(commands@),
                ran(self@, body, i as int, files@) == ran(old(self)@, body, 0, files@),
            decreases commands.len() - i,
        {
            proof {
                assert(body[i as int] == commands@[i as int]@);
            }
            match self.step(&commands[i], files) {
                Ok(_) => {},
                Err(e) => {
                    return Err(e);
                },
            }
            i += 1;
        }
        Ok(())
    }

    /// Takes the expected output from the file `filename`.
    pub fn compare_with(&mut self, filename: &str, files: &Vec<SourceFile>) -> (r: Result<
        (),
        String,
    >)
        ensures
            (Done { state: final(self)@, failure: failure_of(r) }) == compared_with(
                old(self)@,
                files@,
                filename@,
            ),
    {
        let name = chars_of(filename);
        match contents(files, name.as_slice()) {
            Err(e) => Err(e),
            Ok(text) => {
                self.comparison = text;
                Ok(())
            },
        }
    }

    /// Loads the program in the file `filename` into a new CPU: machine code
    /// from a `.hack` file, assembly from an `.asm` file.
    pub fn load_program(&mut self, filename: &str, files: &Vec<SourceFile>) -> (r: Result<
        (),
        String,
    >)
        ensures
            (Done { state: final(self)@, failure: failure_of(r) }) == loaded_program(
                old(self)@,
                files@,
                filename@,
            ),
    {
        let name = chars_of(filename);
        let code: String = if has_suffix(name.as_slice(), ".asm") {
            match contents(files, name.as_slice()) {
                Err(e) => {
                    return Err(e);
                },
                Ok(source) => match assemble(string_of(source.as_slice()).as_str()) {
                    Err(e) => {
                        return Err(e);
                    },
                    Ok(code) => code,
                },
            }
        } else if has_suffix(name.as_slice(), ".hack") {
            match contents(files, name.as_slice()) {
                Err(e) => {
                    return Err(e);
                },
                Ok(code) => string_of(code.as_slice()),
            }
        } else {
            return Err(tell("Unsupported file type: ", name.as_slice()));
        };
        match Rom::from_str(code.as_str()) {
            Err(e) => Err(e),
            Ok(rom) => {
                self.cpu = Cpu::new(rom);
                Ok(())
            },
        }
    }

    /// Gives the location `dest` the value `val`.
    pub fn set(&mut self, dest: &str, val: i16) -> (r: Result<(), String>)
        ensures
            (Done { state: final(self)@, failure: failure_of(r) }) == assigned(
                old(self)@,
                dest@,
                val,
            ),
    {
        let place = chars_of(dest);
        let parts = split(place.as_slice(), CharSet::Three(' ', '[', ']'));
        let word: Word = if val < 0 {
            (val as i32 + 0x10000) as u16
        } else {
            val as u16
        };
        match locate(&parts) {
            Err(e) => Err(e),
            Ok(Location::Pc) => {
                self.cpu.pc = word;
                Ok(())
            },
            Ok(Location::Ram(index)) => {
                self.cpu.ram.set(index, word);
                Ok(())
            },
        }
    }

    /// The file to write at the end of a run, with its contents; an error if
    /// the script has named none.
    pub fn flush_output(&self) -> (r: Result<(String, String), String>)
        ensures
            match r {
                Ok((path, text)) => flushed(self@) == Some((path@, text@)),
                Err(e) => flushed(self@) is None && e@ == no_output_file(),
            },
    {
        match &self.output_path {
            Some(path) => Ok((path.clone(), string_of(self.output.as_slice()))),
            None => Err(String::from_str("No output file specified")),
        }
    }

    /// Appends a line of values to the output and checks the output against
    /// the expected one.
    pub fn check_output_line(&mut self) -> (r: Result<(), String>)
        ensures
            (Done { state: final(self)@, failure: failure_of(r) }) == output_checked(old(self)@),
    {
        match self.write_output_line(false) {
            Err(e) => {
                return Err(e);
            },
            Ok(_) => {},
        }
        let got = all_lines(self.output.as_slice());
        let expected = all_lines(self.comparison.as_slice());
        assert(forall|i: int| 0 <= i < got@.len() ==> got@[i]@ == #[trigger] views(got@)[i]);
        assert(forall|i: int|
            0 <= i < expected@.len() ==> expected@[i]@ == #[trigger] views(expected@)[i]);
        let ghost a = lines(self.output@, 0);
        let ghost b = lines(self.comparison@, 0);
        let mut i: usize = 0;
        while i < got.len() && i < expected.len()
            invariant
                a == lines(self.output@, 0),
                b == lines(self.comparison@, 0),
                self@ == line_written(old(self)@, false).state,
                line_written(old(self)@, false).failure is None,
                views(got@) == a,
                views(expected@) == b,
                forall|j: int| 0 <= j < got@.len() ==> got@[j]@ == #[trigger] a[j],
                forall|j: int| 0 <= j < expected@.len() ==> expected@[j]@ == #[trigger] b[j],
                first_difference(a, b, i as int) == first_difference(a, b, 0),
            decreases got.len() - i,
        {
            if !lines_agree(got[i].as_slice(), expected[i].as_slice()) {
                let mut message = chars_of("Comparison failed at line: ");
                let number = write_numeral(i as u64, 10);
                put_chars(&mut message, number.as_slice());
                put(&mut message, "\nGot: '");
                put_chars(&mut message, got[i].as_slice());
                put(&mut message, "'\nExpected: '");
                put_chars(&mut message, expected[i].as_slice());
                put(&mut message, "'");
                proof {
                    assert(a.len() == got@.len() && b.len() == expected@.len());
                    assert(got@[i as int]@ == a[i as int]);
                    assert(expected@[i as int]@ == b[i as int]);
                    assert(first_difference(a, b, 0) == Some(i as int));
                    assert(message@ =~= mismatch(i as nat, a[i as int], b[i as int]));
                }
                return Err(string_of(message.as_slice()));
            }
            i += 1;
        }
        proof {
            assert(a.len() == got@.len() && b.len() == expected@.len());
        }
        Ok(())
    }

    /// Takes `formats` as the columns of the output and appends the header
    /// line.
    pub fn set_formatting(&mut self, formats: &Vec<String>) -> (r: Result<(), String>)
        ensures
            (Done { state: final(self)@, failure: failure_of(r) }) == line_written(
                old(self)@.with_formats(views(formats@)),
                true,
            ),
    {
        let mut list: Vec<Vec<char>> = Vec::new();
        let mut i: usize = 0;
        while i < formats.len()
            invariant
                i <= formats.len(),
                views(list@) == views(formats@).take(i as int),
            decreases formats.len() - i,
        {
            let format = chars_of(formats[i].as_str());
            proof {
                assert(views(list@.push(format)) =~= views(list@).push(format@));
                assert(views(formats@).take(i + 1) =~= views(formats@).take(i as int).push(
                    formats@[i as int]@,
                ));
            }
            list.push(format);
            i += 1;
        }
        proof {
            assert(views(formats@).take(formats.len() as int) =~= views(formats@));
        }
        self.formats = list;
        self.write_output_line(true)
    }

    /// Appends a line to the output: the header if `is_header`, else the
    /// values. On an error the output stays as it is.
    pub fn write_output_line(&mut self, is_header: bool) -> (r: Result<(), String>)
        ensures
            (Done { state: final(self)@, failure: failure_of(r) }) == line_written(
                old(self)@,
                is_header,
            ),
    {
        let mut text: Vec<char> = Vec::new();
        let mut i: usize = 0;
        assert(views(self.formats@).take(0) =~= Seq::<Seq<char>>::empty());
        while i < self.formats.len()
            invariant
                i <= self.formats.len(),
                self@ == old(self)@,
                cells(self.cpu@, views(self.formats@).take(i as int), is_header) == Ok::<
                    Seq<char>,
                    Seq<char>,
                >(text@),
            decreases self.formats.len() - i,
        {
            let ghost all = views(self.formats@);
            proof {
                assert(all.take(i + 1).drop_last() =~= all.take(i as int));
                assert(all.take(i + 1).last() == self.formats@[i as int]@);
            }
            match write_cell(&self.cpu, self.formats[i].as_slice(), is_header) {
                Err(e) => {
                    proof {
                        lemma_cells_fail(self.cpu@, all, i + 1, is_header);
                    }
                    return Err(e);
                },
                Ok(cell) => {
                    put_chars(&mut text, cell.as_slice());
                },
            }
            i += 1;
        }
        proof {
            assert(views(self.formats@).take(self.formats.len() as int) =~= views(self.formats@));
        }
        text.push('|');
        text.push('\n');
        proof {
            let before = cells(self.cpu@, views(self.formats@), is_header)->Ok_0;
            assert(text@ =~= before + seq!['|', '\n']);
        }
        put_chars(&mut self.output, text.as_slice());
        Ok(())
    }
}

/// Once a cell has failed, the cells of a longer list fail in the same way.
pub proof fn lemma_cells_fail(machine: Machine, formats: Seq<Seq<char>>, n: int, header: bool)
    requires
        0 <= n <= formats.len(),
        cells(machine, formats.take(n), header) is Err,
    ensures
        cells(machine, formats, header) == cells(machine, formats.take(n), header),
    decreases formats.len() - n,
{
    if n < formats.len() {
        assert(formats.take(n + 1).drop_last() =~= formats.take(n));
        lemma_cells_fail(machine, formats, n + 1, header);
    } else {
        assert(formats.take(n) =~= formats);
    }
}

/// Runs the script `script`, which is called `base`, with the files `files`
/// to read from, and reports how the run ended and what is to be written.
pub fn runner(base: &str, script: &str, files: &Vec<SourceFile>) -> (report: Report)
    ensures
        report@ == run(base@, script@, 0, State::start(), files@),
{
    let mut commands = Commands::new(script);
    let mut runner = Runner::new();
    loop
        invariant
            commands.source() == script@,
            0 <= commands.position() <= script@.len(),
            run(base@, script@, commands.position(), runner@, files@) == run(
                base@,
                script@,
                0,
                State::start(),
                files@,
            ),
        decreases script@.len() - commands.position(),
    {
        proof {
            lemma_found_advances(script@, commands.position());
        }
        let cmd = match commands.next() {
            None => {
                return match runner.flush_output() {
                    Ok(file) => Report { result: Ok(()), written: Some(file) },
                    Err(e) => Report { result: Err(e), written: None },
                };
            },
            Some(Err(e)) => {
                let written = match runner.flush_output() {
                    Ok(file) => Some(file),
                    Err(_) => None,
                };
                return Report { result: Err(e), written };
            },
            Some(Ok(cmd)) => cmd,
        };
        match runner.step(&cmd, files) {
            Ok(_) => {},
            Err(e) => {
                let written = match runner.flush_output() {
                    Ok(file) => Some(file),
                    Err(_) => None,
                };
                let mut message = chars_of("Failure running '");
                put(&mut message, base);
                put(&mut message, "':\n");
                put(&mut message, e.as_str());
                return Report { result: Err(string_of(message.as_slice())), written };
            },
        }
    }
}

/// A block that is repeated no times changes nothing, whatever it holds.
pub proof fn lemma_repeat_none(state: State, body: Seq<Action>, files: Seq<SourceFile>)
    ensures
        stepped(state, Action::Repeat(0, body), files) == state.fine(),
{
}

/// A block that is repeated once more runs once, and then as often as
/// before, unless it fails.
pub proof fn lemma_repeat_more(state: State, body: Seq<Action>, times: u16, files: Seq<SourceFile>)
    requires
        times > 0,
    ensures
        stepped(state, Action::Repeat(times, body), files) == if ran(state, body, 0, files).failure
            is Some {
            ran(state, body, 0, files)
        } else {
            stepped(
                ran(state, body, 0, files).state,
                Action::Repeat((times - 1) as u16, body),
                files,
            )
        },
{
}

/// The names of the files that a command reads: the file of a `load` or of a
/// `compare-to`, and for a block those of its commands.
pub open spec fn read_by(action: Action) -> Seq<Seq<char>>
    decreases action, 0nat, 0nat,
{
    match action {
        Action::Load(name) => seq![name],
        Action::CompareTo(name) => seq![name],
        Action::Repeat(_, body) => read_by_all(body, body.len() as int),
        _ => Seq::empty(),
    }
}

/// The names of the files that the first `n` commands of `body` read, in
/// order.
pub open spec fn read_by_all(body: Seq<Action>, n: int) -> Seq<Seq<char>>
    decreases body, 1nat, n,
{
    if n <= 0 || n > body.len() {
        Seq::empty()
    } else {
        read_by_all(body, n - 1) + read_by(body[n - 1])
    }
}

/// The names of the files that the commands of the script `s` from `from` on
/// read, in order, up to the first command that cannot be read.
pub open spec fn inputs_from(s: Seq<char>, from: int) -> Seq<Seq<char>>
    decreases s.len() - from,
{
    match found(s, from) {
        Found::End => Seq::empty(),
        Found::Item(Err(_), _) => Seq::empty(),
        Found::Item(Ok(action), next) => if from < next <= s.len() {
            read_by(action) + inputs_from(s, next)
        } else {
            read_by(action)
        },
    }
}

/// Appends the names of the files that the commands of a block read to
/// `out`.
fn collect_all(commands: &Vec<Command>, out: &mut Vec<String>)
    ensures
        views(final(out)@) == views(old(out)@) + read_by_all(
            actions(commands@),
            commands@.len() as int,
        ),
    decreases commands,
{
    let ghost body = actions(commands@);
    let mut i: usize = 0;
    proof {
        assert(views(out@) + read_by_all(body, 0) =~= views(out@));
    }
    while i < commands.len()
        invariant
            i <= commands.len(),
            body == actions(commands@),
            views(out@) == views(old(out)@) + read_by_all(body, i as int),
        decreases commands.len() - i,
    {
        let ghost before = views(out@);
        proof {
            assert(body[i as int] == commands@[i as int]@);
        }
        collect(&commands[i], out);
        proof {
            assert(views(old(out)@) + (read_by_all(body, i as int) + read_by(body[i as int]))
                =~= before + read_by(body[i as int]));
        }
        i += 1;
    }
}

/// Appends the names of the files that `cmd` reads to `out`.
fn collect(cmd: &Command, out: &mut Vec<String>)
    ensures
        views(final(out)@) == views(old(out)@) + read_by(cmd@),
    decreases cmd,
{
    match cmd {
        Command::Load(name) => {
            proof {
                assert(views(out@.push(*name)) =~= views(out@) + seq![name@]);
            }
            out.push(name.clone());
        },
        Command::CompareTo(name) => {
            proof {
                assert(views(out@.push(*name)) =~= views(out@) + seq![name@]);
            }
            out.push(name.clone());
        },
        Command::Repeat(times, commands) => {
            proof {
                reveal_with_fuel(Command::action, 2);
                assert(cmd@ == Action::Repeat(*times, actions(commands@))) by {
                    assert(cmd@->Repeat_1 =~= actions(commands@));
                }
            }
            collect_all(commands, out);
        },
        _ => {
            proof {
                assert(views(out@) + Seq::<Seq<char>>::empty() =~= views(out@));
            }
        },
    }
}

/// The names of the files that the commands of `script` read, in order, up
/// to the first command that cannot be read: the files that a run of the
/// script may ask for.
pub fn inputs(script: &str) -> (names: Vec<String>)
    ensures
        views(names@) == inputs_from(script@, 0),
{
    let mut commands = Commands::new(script);
    let mut names: Vec<String> = Vec::new();
    proof {
        assert(views(names@) =~= Seq::<Seq<char>>::empty());
    }
    loop
        invariant
            commands.source() == script@,
            0 <= commands.position() <= script@.len(),
            views(names@) + inputs_from(script@, commands.position()) == inputs_from(script@, 0),
        decreases script@.len() - commands.position(),
    {
        proof {
            lemma_found_advances(script@, commands.position());
        }
        let ghost before = views(names@);
        let ghost at = commands.position();
        match commands.next() {
            Some(Ok(cmd)) => {
                collect(&cmd, &mut names);
                proof {
                    assert(before + (read_by(cmd@) + inputs_from(script@, commands.position()))
                        =~= views(names@) + inputs_from(script@, commands.position()));
                }
            },
            _ => {
                proof {
                    assert(before + inputs_from(script@, at) =~= before);
                }
                return names;
            },
        }
    }
}

/// Whether reading any of the files `names` gives the same with the files
/// `a` as with the files `b`.
pub open spec fn same_files(a: Seq<SourceFile>, b: Seq<SourceFile>, names: Seq<Seq<char>>) -> bool {
    forall|i: int| 0 <= i < names.len() ==> lookup(a, #[trigger] names[i], 0) == lookup(b, names[i], 0)
}

/// Files that give the same for all of some names give the same for the
/// first and for the last of them.
proof fn lemma_same_files_parts(
    a: Seq<SourceFile>,
    b: Seq<SourceFile>,
    first: Seq<Seq<char>>,
    last: Seq<Seq<char>>,
)
    requires
        same_files(a, b, first + last),
    ensures
        same_files(a, b, first),
        same_files(a, b, last),
{
    let all = first + last;
    assert forall|i: int| 0 <= i < first.len() implies lookup(a, #[trigger] first[i], 0) == lookup(
        b,
        first[i],
        0,
    ) by {
        assert(all[i] == first[i]);
    }
    assert forall|i: int| 0 <= i < last.len() implies lookup(a, #[trigger] last[i], 0) == lookup(
        b,
        last[i],
        0,
    ) by {
        assert(all[first.len() + i] == last[i]);
    }
}

/// A command does the same with any files that give the same for the names
/// that it reads.
pub proof fn lemma_step_reads(state: State, action: Action, a: Seq<SourceFile>, b: Seq<SourceFile>)
    requires
        same_files(a, b, read_by(action)),
    ensures
        stepped(state, action, a) == stepped(state, action, b),
    decreases action, 0nat, 0nat,
{
    match action {
        Action::Load(name) => {
            assert(read_by(action)[0] == name);
        },
        Action::CompareTo(name) => {
            assert(read_by(action)[0] == name);
        },
        Action::Repeat(times, body) => {
            lemma_repeat_reads(state, body, times as nat, a, b);
        },
        _ => {},
    }
}

/// The commands of a block from `from` on do the same with any files that
/// give the same for the names that the block reads.
proof fn lemma_block_reads(
    state: State,
    body: Seq<Action>,
    from: int,
    a: Seq<SourceFile>,
    b: Seq<SourceFile>,
)
    requires
        same_files(a, b, read_by_all(body, body.len() as int)),
    ensures
        ran(state, body, from, a) == ran(state, body, from, b),
    decreases body, 1nat, body.len() - from,
{
    if 0 <= from < body.len() {
        lemma_read_by_one(body, body.len() as int, from, a, b);
        lemma_step_reads(state, body[from], a, b);
        let done = stepped(state, body[from], a);
        if done.failure is None {
            lemma_block_reads(done.state, body, from + 1, a, b);
        }
    }
}

/// Files that give the same for the names that the first `n` commands of a
/// block read give the same for those that the command `k` among them
/// reads.
proof fn lemma_read_by_one(
    body: Seq<Action>,
    n: int,
    k: int,
    a: Seq<SourceFile>,
    b: Seq<SourceFile>,
)
    requires
        0 <= k < n <= body.len(),
        same_files(a, b, read_by_all(body, n)),
    ensures
        same_files(a, b, read_by(body[k])),
    decreases n,
{
    lemma_same_files_parts(a, b, read_by_all(body, n - 1), read_by(body[n - 1]));
    if k < n - 1 {
        lemma_read_by_one(body, n - 1, k, a, b);
    }
}

/// A block that is repeated does the same with any files that give the same
/// for the names that the block reads.
proof fn lemma_repeat_reads(
    state: State,
    body: Seq<Action>,
    times: nat,
    a: Seq<SourceFile>,
    b: Seq<SourceFile>,
)
    requires
        same_files(a, b, read_by_all(body, body.len() as int)),
    ensures
        repeated(state, body, times, a) == repeated(state, body, times, b),
    decreases body, 2nat, times,
{
    if times > 0 {
        lemma_block_reads(state, body, 0, a, b);
        let done = ran(state, body, 0, a);
        if done.failure is None {
            lemma_repeat_reads(done.state, body, (times - 1) as nat, a, b);
        }
    }
}

/// A run asks for no other files than those that `inputs` names: with any
/// files that give the same for these names, the run reports the same.
pub proof fn lemma_inputs_suffice(
    base: Seq<char>,
    s: Seq<char>,
    from: int,
    state: State,
    a: Seq<SourceFile>,
    b: Seq<SourceFile>,
)
    requires
        0 <= from <= s.len(),
        same_files(a, b, inputs_from(s, from)),
    ensures
        run(base, s, from, state, a) == run(base, s, from, state, b),
    decreases s.len() - from,
{
    match found(s, from) {
        Found::Item(Ok(action), next) => {
            if from < next <= s.len() {
                lemma_same_files_parts(a, b, read_by(action), inputs_from(s, next));
                lemma_step_reads(state, action, a, b);
                let done = stepped(state, action, a);
                if done.failure is None {
                    lemma_inputs_suffice(base, s, next, done.state, a, b);
                }
            } else {
                lemma_step_reads(state, action, a, b);
            }
        },
        _ => {},
    }
}

} // verus!
