//! The commands of a test script and the parser that reads them one at a
//! time.
//!
//! A script is a run of commands, each ended by `,` or `;`. A `repeat`
//! command ends with the brace that closes its block. A line comment starts
//! with `//` where a command could start.

use crate::numeral::{parse_signed, parse_unsigned, read_i16, read_unsigned, NumberError};
use crate::text::{
    chars_of, cut, find, find_in, has_at, is_text, join, lemma_find, lemma_skip, put, put_chars,
    skip, skip_in, split_tokens, starts_at, string_of, tokens, trim, trimmed, views, CharSet,
};
use vstd::prelude::*;

verus! {

/// A command of a test script.
#[derive(Debug)]
pub enum Command {
    /// Load the program in the named file.
    Load(String),
    /// Name the file that the output goes to.
    OutputFile(String),
    /// Take the expected output from the named file.
    CompareTo(String),
    /// Fix the columns of the output, each by its format.
    OutputList(Vec<String>),
    /// Give the named location the value.
    SetValue(String, i16),
    /// Run the commands of the block the given number of times.
    Repeat(u16, Vec<Command>),
    /// Let the CPU make one step.
    TickTock,
    /// Write a line of output and check it.
    Output,
}

/// What a command says: a command with its texts as sequences of
/// characters.
pub enum Action {
    Load(Seq<char>),
    OutputFile(Seq<char>),
    CompareTo(Seq<char>),
    OutputList(Seq<Seq<char>>),
    SetValue(Seq<char>, i16),
    Repeat(u16, Seq<Action>),
    TickTock,
    Output,
}

impl Command {
    /// What the command says.
    pub open spec fn action(&self) -> Action
        decreases self,
    {
        match self {
            Command::Load(name) => Action::Load(name@),
            Command::OutputFile(name) => Action::OutputFile(name@),
            Command::CompareTo(name) => Action::CompareTo(name@),
            Command::OutputList(formats) => Action::OutputList(views(formats@)),
            Command::SetValue(location, value) => Action::SetValue(location@, *value),
            Command::Repeat(times, body) => Action::Repeat(
                *times,
                Seq::new(
                    body@.len(),
                    |i: int|
                        if 0 <= i < body@.len() {
                            body@[i].action()
                        } else {
                            Action::Output
                        },
                ),
            ),
            Command::TickTock => Action::TickTock,
            Command::Output => Action::Output,
        }
    }
}

impl View for Command {
    type V = Action;

    open spec fn view(&self) -> Action {
        self.action()
    }
}

/// The characters that part the words of a command: space, tab, line feed
/// and carriage return.
pub open spec fn blank() -> CharSet {
    CharSet::Four(' ', '\t', '\n', '\r')
}

/// The characters that end a command: `,` and `;`.
pub open spec fn separator() -> CharSet {
    CharSet::Two(',', ';')
}

/// The message for a command that lacks a word.
pub open spec fn missing(what: Seq<char>) -> Seq<char> {
    "Failed to parse "@ + what
}

/// The message for a command that starts with an unknown word.
pub open spec fn unexpected(word: Seq<char>) -> Seq<char> {
    "Unexpected command: '"@ + word + "'"@
}

/// What one command other than `repeat` says. Its words are parted by blank
/// characters; the first names the command, and words beyond those that the
/// command takes are passed over.
pub open spec fn parsed(text: Seq<char>) -> Result<Action, Seq<char>> {
    let words = tokens(text, blank(), 0);
    if words.len() == 0 {
        Err(unexpected(Seq::empty()))
    } else if words[0] == "load"@ {
        if words.len() < 2 {
            Err(missing("filename for load"@))
        } else {
            Ok(Action::Load(words[1]))
        }
    } else if words[0] == "output-file"@ {
        if words.len() < 2 {
            Err(missing("filename for output-file"@))
        } else {
            Ok(Action::OutputFile(words[1]))
        }
    } else if words[0] == "compare-to"@ {
        if words.len() < 2 {
            Err(missing("filename for compare-to"@))
        } else {
            Ok(Action::CompareTo(words[1]))
        }
    } else if words[0] == "output-list"@ {
        Ok(Action::OutputList(words.skip(1)))
    } else if words[0] == "set"@ {
        if words.len() < 2 {
            Err(missing("location for set"@))
        } else if words.len() < 3 {
            Err(missing("value for set"@))
        } else {
            match parse_signed(words[2], 32767) {
                Ok(value) => Ok(Action::SetValue(words[1], value as i16)),
                Err(e) => Err(e.text()),
            }
        }
    } else if words[0] == "ticktock"@ {
        Ok(Action::TickTock)
    } else if words[0] == "output"@ {
        Ok(Action::Output)
    } else {
        Err(unexpected(words[0]))
    }
}

/// What a cursor finds at a position of a script.
pub enum Found {
    /// No command is left.
    End,
    /// A command, or the error in it, and the position after it.
    Item(Result<Action, Seq<char>>, int),
}

/// The message for a `repeat` without a block.
pub open spec fn no_open() -> Seq<char> {
    "Missing '{' after 'repeat'"@
}

/// The message for a `repeat` whose block does not end.
pub open spec fn no_close() -> Seq<char> {
    "Missing '}' after 'repeat'"@
}

/// The message for a `repeat` whose count is no number of 16 bits.
pub open spec fn bad_count(e: NumberError, count: Seq<char>) -> Seq<char> {
    "Failed to parse iteration count for 'repeat': "@ + e.sentence() + " - '"@ + count + "'"@
}

/// The position after a `repeat` command whose block closes at `close`:
/// after the brace, and after a separator if nothing but whitespace stands
/// between the brace and it.
pub open spec fn after_block(s: Seq<char>, close: int) -> int {
    let at = skip(s, CharSet::Whitespace, close + 1);
    if at < s.len() && separator().has(s[at]) {
        at + 1
    } else {
        close + 1
    }
}

/// What a cursor at `from` in the script `s` finds next. Whitespace and
/// comment lines are passed over. A command that no separator ends is not
/// found, nor anything after a comment that no line break ends.
pub open spec fn found(s: Seq<char>, from: int) -> Found
    decreases s.len(), s.len() - from, 1nat,
    when 0 <= from <= s.len()
    via found_decreases
{
    let at = skip(s, CharSet::Whitespace, from);
    if at >= s.len() {
        Found::End
    } else if has_at(s, at, "//"@) {
        let end = find(s, CharSet::One('\n'), at);
        if end < s.len() {
            found(s, end + 1)
        } else {
            Found::End
        }
    } else if has_at(s, at, "repeat"@) {
        found_repeat(s, at)
    } else {
        let end = find(s, separator(), at);
        if end < s.len() {
            Found::Item(parsed(s.subrange(at, end)), end + 1)
        } else {
            Found::End
        }
    }
}

#[via_fn]
proof fn found_decreases(s: Seq<char>, from: int) {
    lemma_skip(s, CharSet::Whitespace, from);
    let at = skip(s, CharSet::Whitespace, from);
    if at < s.len() {
        lemma_find(s, CharSet::One('\n'), at);
    }
}

/// What a cursor finds at `at`, where a `repeat` command starts: the count
/// stands between the word and the first `{`, and the block runs from there
/// to the next `}`, so that a block cannot hold another `repeat`. A faulty
/// `repeat` leaves the cursor where it starts.
pub open spec fn found_repeat(s: Seq<char>, at: int) -> Found
    decreases s.len(), s.len() - at, 0nat,
    when 0 <= at && at + 6 <= s.len()
    via found_repeat_decreases
{
    let open = find(s, CharSet::One('{'), at + 6);
    let count = trim(s.subrange(at + 6, open), CharSet::Whitespace);
    let close = find(s, CharSet::One('}'), open);
    if open >= s.len() {
        Found::Item(Err(no_open()), at)
    } else {
        match parse_unsigned(count, 0xFFFF) {
            Err(e) => Found::Item(Err(bad_count(e, count)), at),
            Ok(times) => if close >= s.len() {
                Found::Item(Err(no_close()), at)
            } else {
                match script(s.subrange(open + 1, close), 0) {
                    Err(e) => Found::Item(Err(e), at),
                    Ok(body) => Found::Item(
                        Ok(Action::Repeat(times as u16, body)),
                        after_block(s, close),
                    ),
                }
            },
        }
    }
}

#[via_fn]
proof fn found_repeat_decreases(s: Seq<char>, at: int) {
    lemma_find(s, CharSet::One('{'), at + 6);
    let open = find(s, CharSet::One('{'), at + 6);
    if open < s.len() {
        lemma_find(s, CharSet::One('}'), open);
    }
}

/// The commands of the script `s` from `from` on, or the first error.
pub open spec fn script(s: Seq<char>, from: int) -> Result<Seq<Action>, Seq<char>>
    decreases s.len(), s.len() - from, 2nat,
    when 0 <= from <= s.len()
{
    match found(s, from) {
        Found::End => Ok(Seq::empty()),
        Found::Item(Err(e), _) => Err(e),
        Found::Item(Ok(action), next) => if from < next <= s.len() {
            match script(s, next) {
                Ok(rest) => Ok(seq![action] + rest),
                Err(e) => Err(e),
            }
        } else {
            Ok(seq![action])
        },
    }
}

/// What a list of commands says.
pub open spec fn actions(v: Seq<Command>) -> Seq<Action> {
    Seq::new(v.len(), |i: int| v[i]@)
}

/// What the result of reading a command says.
pub open spec fn said(r: Result<Command, String>) -> Result<Action, Seq<char>> {
    match r {
        Ok(command) => Ok(command@),
        Err(e) => Err(e@),
    }
}

/// A command that is found stands before the position that follows it, and
/// that position is within the script.
pub proof fn lemma_found_advances(s: Seq<char>, from: int)
    requires
        0 <= from <= s.len(),
    ensures
        found(s, from) matches Found::Item(Ok(_), next) ==> from < next <= s.len(),
    decreases s.len() - from,
{
    reveal_strlit("repeat");
    reveal_with_fuel(found, 2);
    reveal_with_fuel(found_repeat, 2);
    lemma_skip(s, CharSet::Whitespace, from);
    let at = skip(s, CharSet::Whitespace, from);
    if at < s.len() {
        if has_at(s, at, "//"@) {
            lemma_find(s, CharSet::One('\n'), at);
            let end = find(s, CharSet::One('\n'), at);
            if end < s.len() {
                lemma_found_advances(s, end + 1);
            }
        } else if has_at(s, at, "repeat"@) {
            lemma_find(s, CharSet::One('{'), at + 6);
            let open = find(s, CharSet::One('{'), at + 6);
            if open < s.len() {
                lemma_find(s, CharSet::One('}'), open);
                let close = find(s, CharSet::One('}'), open);
                if close < s.len() {
                    lemma_skip(s, CharSet::Whitespace, close + 1);
                }
            }
        } else {
            lemma_find(s, separator(), at);
        }
    }
}

/// Copies a list of texts into a list of strings, from the one at `from` on.
fn strings_from(words: &Vec<Vec<char>>, from: usize) -> (out: Vec<String>)
    requires
        from <= words.len(),
    ensures
        views(out@) == views(words@).skip(from as int),
{
    let mut out: Vec<String> = Vec::new();
    let mut i: usize = from;
    while i < words.len()
        invariant
            from <= i <= words.len(),
            views(out@) == views(words@).subrange(from as int, i as int),
        decreases words.len() - i,
    {
        let word = string_of(words[i].as_slice());
        proof {
            assert(views(out@.push(word)) =~= views(out@).push(word@));
            assert(views(words@).subrange(from as int, i + 1) =~= views(words@).subrange(
                from as int,
                i as int,
            ).push(words@[i as int]@));
        }
        out.push(word);
        i += 1;
    }
    proof {
        assert(views(words@).subrange(from as int, words.len() as int) =~= views(words@).skip(
            from as int,
        ));
    }
    out
}

impl Command {
    /// Reads one command other than `repeat` from its text.
    pub fn parse(s: &str) -> (r: Result<Command, String>)
        ensures
            said(r) == parsed(s@),
    {
        let text = chars_of(s);
        Command::parse_chars(text.as_slice())
    }

    /// Reads one command other than `repeat` from its characters.
    pub fn parse_chars(text: &[char]) -> (r: Result<Command, String>)
        ensures
            said(r) == parsed(text@),
    {
        let words = split_tokens(text, CharSet::Four(' ', '\t', '\n', '\r'));
        assert(forall|i: int| 0 <= i < words@.len() ==> words@[i]@ == #[trigger] views(words@)[i]);
        if words.len() == 0 {
            let none: Vec<char> = Vec::new();
            assert(none@ =~= Seq::<char>::empty());
            return Err(join("Unexpected command: '", none.as_slice(), "'"));
        }
        let name = words[0].as_slice();
        if is_text(name, "load") {
            if words.len() < 2 {
                Err(String::from_str("Failed to parse ").concat("filename for load"))
            } else {
                Ok(Command::Load(string_of(words[1].as_slice())))
            }
        } else if is_text(name, "output-file") {
            if words.len() < 2 {
                Err(String::from_str("Failed to parse ").concat("filename for output-file"))
            } else {
                Ok(Command::OutputFile(string_of(words[1].as_slice())))
            }
        } else if is_text(name, "compare-to") {
            if words.len() < 2 {
                Err(String::from_str("Failed to parse ").concat("filename for compare-to"))
            } else {
                Ok(Command::CompareTo(string_of(words[1].as_slice())))
            }
        } else if is_text(name, "output-list") {
            Ok(Command::OutputList(strings_from(&words, 1)))
        } else if is_text(name, "set") {
            if words.len() < 2 {
                Err(String::from_str("Failed to parse ").concat("location for set"))
            } else if words.len() < 3 {
                Err(String::from_str("Failed to parse ").concat("value for set"))
            } else {
                match read_i16(words[2].as_slice()) {
                    Ok(value) => Ok(Command::SetValue(string_of(words[1].as_slice()), value)),
                    Err(e) => Err(String::from_str(e.message())),
                }
            }
        } else if is_text(name, "ticktock") {
            Ok(Command::TickTock)
        } else if is_text(name, "output") {
            Ok(Command::Output)
        } else {
            Err(join("Unexpected command: '", name, "'"))
        }
    }
}

/// A cursor over a test script. It holds the script and the position from
/// which it reads the next command.
pub struct Commands {
    source: Vec<char>,
    position: usize,
}

/// Reads all the commands of `body`, up to the first error.
fn parse_all(body: Vec<char>) -> (r: Result<Vec<Command>, String>)
    ensures
        match r {
            Ok(list) => script(body@, 0) == Ok::<Seq<Action>, Seq<char>>(actions(list@)),
            Err(e) => script(body@, 0) == Err::<Seq<Action>, Seq<char>>(e@),
        },
    decreases body@.len(), 2nat,
{
    let ghost text = body@;
    let mut cursor = Commands { source: body, position: 0 };
    let mut list: Vec<Command> = Vec::new();
    loop
        invariant
            text == body@,
            cursor.source@ == text,
            cursor.position <= text.len(),
            match script(text, cursor.position as int) {
                Ok(rest) => script(text, 0) == Ok::<Seq<Action>, Seq<char>>(actions(list@) + rest),
                Err(e) => script(text, 0) == Err::<Seq<Action>, Seq<char>>(e),
            },
        decreases text.len() - cursor.position,
    {
        proof {
            lemma_found_advances(text, cursor.position as int);
        }
        let ghost before = cursor.position as int;
        match cursor.next() {
            None => {
                proof {
                    assert(actions(list@) + Seq::<Action>::empty() =~= actions(list@));
                }
                return Ok(list);
            },
            Some(Err(e)) => {
                return Err(e);
            },
            Some(Ok(command)) => {
                proof {
                    let action = command@;
                    assert(actions(list@.push(command)) =~= actions(list@).push(action));
                    match script(text, cursor.position as int) {
                        Ok(rest) => {
                            assert(actions(list@) + (seq![action] + rest) =~= actions(list@).push(
                                action,
                            ) + rest);
                        },
                        Err(e) => {},
                    }
                }
                list.push(command);
            },
        }
    }
}

impl Commands {
    /// The cursor always stands within its script.
    #[verifier::type_invariant]
    spec fn inside(&self) -> bool {
        self.position <= self.source@.len()
    }

    /// The whole script.
    pub closed spec fn source(&self) -> Seq<char> {
        self.source@
    }

    /// The position in the script from which the next command is read.
    pub closed spec fn position(&self) -> int {
        self.position as int
    }

    /// A cursor at the start of the script `s`.
    pub fn new(s: &str) -> (cursor: Commands)
        ensures
            cursor.source() == s@,
            cursor.position() == 0,
    {
        Commands { source: chars_of(s), position: 0 }
    }

    /// Reads the next command. Returns `None` when no command is left, and
    /// then stays where it is; else returns the command, or the error in it,
    /// and moves to the position after it.
    pub fn next(&mut self) -> (item: Option<Result<Command, String>>)
        ensures
            final(self).source() == old(self).source(),
            0 <= old(self).position() <= old(self).source().len(),
            match found(old(self).source(), old(self).position()) {
                Found::End => item is None && final(self).position() == old(self).position(),
                Found::Item(r, next) => {
                    &&& item matches Some(got) && said(got) == r
                    &&& final(self).position() == next
                },
            },
        decreases old(self).source().len(), 1nat,
    {
        proof {
            use_type_invariant(&*self);
        }
        let mut from: usize = self.position;
        loop
            invariant
                from <= self.source@.len(),
                self.position <= self.source@.len(),
                self.position == old(self).position,
                self.source@ == old(self).source@,
                found(self.source@, from as int) == found(self.source@, self.position as int),
            decreases self.source@.len() - from,
        {
            let at = skip_in(self.source.as_slice(), CharSet::Whitespace, from);
            if at >= self.source.len() {
                return None;
            }
            if starts_at(self.source.as_slice(), at, "//") {
                let end = find_in(self.source.as_slice(), CharSet::One('\n'), at);
                if end >= self.source.len() {
                    return None;
                }
                from = end + 1;
            } else if starts_at(self.source.as_slice(), at, "repeat") {
                proof {
                    reveal_strlit("repeat");
                }
                let (r, next) = self.parse_repeat(at);
                self.position = next;
                return Some(r);
            } else {
                let end = find_in(self.source.as_slice(), CharSet::Two(',', ';'), at);
                if end >= self.source.len() {
                    return None;
                }
                let text = cut(self.source.as_slice(), at, end);
                let r = Command::parse_chars(text.as_slice());
                self.position = end + 1;
                return Some(r);
            }
        }
    }

    /// Reads the `repeat` command that starts at `at`.
    fn parse_repeat(&self, at: usize) -> (r: (Result<Command, String>, usize))
        requires
            at + 6 <= self.source@.len(),
        ensures
            found_repeat(self.source@, at as int) == Found::Item(said(r.0), r.1 as int),
            r.1 <= self.source@.len(),
        decreases self.source@.len(), 0nat,
    {
        let source = self.source.as_slice();
        let open = find_in(source, CharSet::One('{'), at + 6);
        if open >= source.len() {
            return (Err(String::from_str("Missing '{' after 'repeat'")), at);
        }
        let between = cut(source, at + 6, open);
        let count = trimmed(between.as_slice(), CharSet::Whitespace);
        let times = match read_unsigned(count.as_slice(), 0xFFFF) {
            Ok(times) => times as u16,
            Err(e) => {
                let mut message = chars_of("Failed to parse iteration count for 'repeat': ");
                put(&mut message, e.describe());
                put(&mut message, " - '");
                put_chars(&mut message, count.as_slice());
                put(&mut message, "'");
                return (Err(string_of(message.as_slice())), at);
            },
        };
        let close = find_in(source, CharSet::One('}'), open);
        if close >= source.len() {
            return (Err(String::from_str("Missing '}' after 'repeat'")), at);
        }
        proof {
            lemma_find(source@, CharSet::One('{'), at + 6);
            lemma_find(source@, CharSet::One('}'), open as int);
        }
        let body = cut(source, open + 1, close);
        match parse_all(body) {
            Err(e) => (Err(e), at),
            Ok(list) => {
                let after = skip_in(source, CharSet::Whitespace, close + 1);
                let next = if after < source.len() && CharSet::Two(',', ';').contains(
                    source[after],
                ) {
                    after + 1
                } else {
                    close + 1
                };
                let command = Command::Repeat(times, list);
                proof {
                    assert(command@ == Action::Repeat(times, actions(list@))) by {
                        reveal_with_fuel(Command::action, 2);
                        assert(command@->Repeat_1 =~= actions(list@));
                    }
                }
                (Ok(command), next)
            },
        }
    }
}

} // verus!
