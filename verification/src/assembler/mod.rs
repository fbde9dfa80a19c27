//! The assembler: from symbolic Hack assembly to machine words as binary
//! text.
//!
//! The source is read twice. The first pass gives each label the number of
//! the instruction that follows it. The second pass writes one line of 16
//! binary digits for each instruction, and gives each symbol that is still
//! unknown the next free address from 16 on.

pub mod code;
pub mod laws;
pub mod parser;
pub mod symbol_table;

pub use code::Code;
pub use parser::{Command, Parser};
pub use symbol_table::SymbolTable;

use crate::numeral::{bits, parse_unsigned, read_unsigned, write_bits};
use crate::text::{chars_of, put, put_chars, skip, skip_in, string_of, CharSet};
use code::{comp_bits, dest_bits, jump_bits, unknown_mnemonic};
use parser::{commands, comp_of, dest_of, jump_of, kind_of, lemma_commands, symbol_of};
use vstd::prelude::*;

verus! {

/// The number of addresses that an A-instruction can hold: its value has 15
/// bits.
pub const ADDRESS_LIMIT: u16 = 32768;

/// The address of the first variable.
pub const FIRST_VARIABLE: u16 = 16;

/// The symbols that every program knows, with their addresses.
pub open spec fn predefined() -> Map<Seq<char>, u16> {
    Map::<Seq<char>, u16>::empty().insert("SP"@, 0).insert("LCL"@, 1).insert("ARG"@, 2).insert(
        "THIS"@,
        3,
    ).insert("THAT"@, 4).insert("R0"@, 0).insert("R1"@, 1).insert("R2"@, 2).insert(
        "R3"@,
        3,
    ).insert("R4"@, 4).insert("R5"@, 5).insert("R6"@, 6).insert("R7"@, 7).insert(
        "R8"@,
        8,
    ).insert("R9"@, 9).insert("R10"@, 10).insert("R11"@, 11).insert("R12"@, 12).insert(
        "R13"@,
        13,
    ).insert("R14"@, 14).insert("R15"@, 15).insert("SCREEN"@, 0x4000).insert("KBD"@, 0x6000)
}

/// The state of the first pass: the table so far and the number of
/// instructions seen.
pub struct Labels {
    pub table: Map<Seq<char>, u16>,
    pub count: nat,
}

/// An instruction's number as a table entry: the number itself while 16 bits
/// hold it, else the greatest 16-bit number.
pub open spec fn clip(n: nat) -> u16 {
    if n < 0xFFFF {
        n as u16
    } else {
        0xFFFF
    }
}

/// The first pass on one command: a label gets the number of the next
/// instruction, in place of an earlier entry of the same name; any other
/// command is counted as an instruction.
pub open spec fn label_step(state: Labels, command: Seq<char>) -> Labels {
    if kind_of(command) == Command::L {
        Labels { table: state.table.insert(symbol_of(command), clip(state.count)), count: state.count }
    } else {
        Labels { table: state.table, count: state.count + 1 }
    }
}

/// The first pass on the commands `cmds`, from the predefined symbols.
pub open spec fn labels(cmds: Seq<Seq<char>>) -> Labels
    decreases cmds.len(),
{
    if cmds.len() == 0 {
        Labels { table: predefined(), count: 0 }
    } else {
        label_step(labels(cmds.drop_last()), cmds.last())
    }
}

/// The state of the second pass: the table so far, the address for the next
/// variable, the lines written, and the error that stopped the pass, if any.
pub struct Emitted {
    pub table: Map<Seq<char>, u16>,
    pub next: nat,
    pub output: Seq<char>,
    pub failure: Option<Seq<char>>,
}

/// Whether a symbol is a number: it holds decimal digits only.
pub open spec fn is_number(symbol: Seq<char>) -> bool {
    skip(symbol, CharSet::Digit, 0) == symbol.len()
}

/// Whether the second pass makes `symbol` a new variable: it is no number
/// and the table does not hold it.
pub open spec fn is_new(table: Map<Seq<char>, u16>, symbol: Seq<char>) -> bool {
    !is_number(symbol) && !table.contains_key(symbol)
}

/// The address that the symbol of an A-command stands for: the number that
/// it is, the table's entry for it, or else the address for the next
/// variable. `None` if that address does not fit in 15 bits, or the symbol is
/// empty.
pub open spec fn address_of(table: Map<Seq<char>, u16>, next: nat, symbol: Seq<char>) -> Option<
    u16,
> {
    if is_number(symbol) {
        match parse_unsigned(symbol, (ADDRESS_LIMIT - 1) as nat) {
            Ok(n) => Some(n as u16),
            Err(_) => None,
        }
    } else if table.contains_key(symbol) {
        if table[symbol] < ADDRESS_LIMIT {
            Some(table[symbol])
        } else {
            None
        }
    } else if next < ADDRESS_LIMIT {
        Some(next as u16)
    } else {
        None
    }
}

/// The message for an A-command whose address does not fit in 15 bits.
pub open spec fn invalid_address(symbol: Seq<char>) -> Seq<char> {
    "Invalid address: "@ + symbol
}

/// The line for an A-instruction: `0`, then the 15 bits of the address.
pub open spec fn a_line(address: u16) -> Seq<char> {
    seq!['0'] + bits(address as nat, 15) + seq!['\n']
}

/// The line for a C-instruction: `111`, then the bits of the computation, of
/// the destination and of the jump.
pub open spec fn c_line(comp: Seq<char>, dest: Seq<char>, jump: Seq<char>) -> Seq<char> {
    "111"@ + comp + dest + jump + seq!['\n']
}

/// The second pass on one command. After an error nothing changes any more.
/// A label writes nothing. An A-command writes its line, and a new variable
/// takes the next address. A C-command writes its line, unless its
/// computation is unknown.
pub open spec fn emit_step(state: Emitted, command: Seq<char>) -> Emitted {
    if state.failure is Some {
        state
    } else if kind_of(command) == Command::L {
        state
    } else if kind_of(command) == Command::A {
        let symbol = symbol_of(command);
        match address_of(state.table, state.next, symbol) {
            None => Emitted {
                table: state.table,
                next: state.next,
                output: state.output,
                failure: Some(invalid_address(symbol)),
            },
            Some(address) => if is_new(state.table, symbol) {
                Emitted {
                    table: state.table.insert(symbol, address),
                    next: state.next + 1,
                    output: state.output + a_line(address),
                    failure: None,
                }
            } else {
                Emitted {
                    table: state.table,
                    next: state.next,
                    output: state.output + a_line(address),
                    failure: None,
                }
            },
        }
    } else {
        match comp_bits(comp_of(command)) {
            None => Emitted {
                table: state.table,
                next: state.next,
                output: state.output,
                failure: Some(unknown_mnemonic(comp_of(command))),
            },
            Some(comp) => Emitted {
                table: state.table,
                next: state.next,
                output: state.output + c_line(
                    comp,
                    dest_bits(dest_of(command)),
                    jump_bits(jump_of(command)),
                ),
                failure: None,
            },
        }
    }
}

/// The second pass on the commands `cmds`, from the table `table`.
pub open spec fn emit(cmds: Seq<Seq<char>>, table: Map<Seq<char>, u16>) -> Emitted
    decreases cmds.len(),
{
    if cmds.len() == 0 {
        Emitted { table, next: FIRST_VARIABLE as nat, output: Seq::empty(), failure: None }
    } else {
        emit_step(emit(cmds.drop_last(), table), cmds.last())
    }
}

/// What a pass that is in the state `state` returns.
pub open spec fn outcome(state: Emitted) -> Result<Seq<char>, Seq<char>> {
    match state.failure {
        Some(message) => Err(message),
        None => Ok(state.output),
    }
}

/// What assembling `source` gives: the lines of both passes over its
/// commands, or the message of the first error.
pub open spec fn assembled(source: Seq<char>) -> Result<Seq<char>, Seq<char>> {
    let cmds = commands(source, 0);
    outcome(emit(cmds, labels(cmds).table))
}

/// Once the second pass has failed, more commands change nothing.
pub proof fn lemma_failure_stays(done: Seq<Seq<char>>, rest: Seq<Seq<char>>, table: Map<Seq<char>, u16>)
    requires
        emit(done, table).failure is Some,
    ensures
        emit(done + rest, table) == emit(done, table),
    decreases rest.len(),
{
    if rest.len() == 0 {
        assert(done + rest =~= done);
    } else {
        lemma_failure_stays(done, rest.drop_last(), table);
        assert((done + rest).drop_last() =~= done + rest.drop_last());
    }
}

/// Assembles `input`: returns one line of 16 binary digits for each
/// instruction, or the message of the first error.
pub fn assemble(input: &str) -> (r: Result<String, String>)
    ensures
        match r {
            Ok(out) => assembled(input@) == Ok::<Seq<char>, Seq<char>>(out@),
            Err(e) => assembled(input@) == Err::<Seq<char>, Seq<char>>(e@),
        },
{
    match parse_labels(input) {
        Ok(table) => generate_code(input, table),
        Err(e) => Err(e),
    }
}

/// Fills a table with the predefined symbols.
fn predefined_table() -> (table: SymbolTable)
    ensures
        table@ == predefined(),
{
    let mut table = SymbolTable::new();
    table.add_entry("SP", 0);
    table.add_entry("LCL", 1);
    table.add_entry("ARG", 2);
    table.add_entry("THIS", 3);
    table.add_entry("THAT", 4);
    table.add_entry("R0", 0);
    table.add_entry("R1", 1);
    table.add_entry("R2", 2);
    table.add_entry("R3", 3);
    table.add_entry("R4", 4);
    table.add_entry("R5", 5);
    table.add_entry("R6", 6);
    table.add_entry("R7", 7);
    table.add_entry("R8", 8);
    table.add_entry("R9", 9);
    table.add_entry("R10", 10);
    table.add_entry("R11", 11);
    table.add_entry("R12", 12);
    table.add_entry("R13", 13);
    table.add_entry("R14", 14);
    table.add_entry("R15", 15);
    table.add_entry("SCREEN", 0x4000);
    table.add_entry("KBD", 0x6000);
    table
}

/// The first pass: the table of the predefined symbols and of the labels of
/// `input`. It never fails.
pub fn parse_labels(input: &str) -> (r: Result<SymbolTable, String>)
    ensures
        r matches Ok(table) && table@ == labels(commands(input@, 0)).table,
{
    let mut parser = Parser::new(input);
    let mut table = predefined_table();
    let mut icount: u16 = 0;
    let ghost mut done: Seq<Seq<char>> = Seq::empty();
    loop
        invariant
            parser.source() == input@,
            0 <= parser.position() <= input@.len(),
            commands(input@, 0) == done + commands(input@, parser.position()),
            table@ == labels(done).table,
            icount == clip(labels(done).count),
        decreases input@.len() - parser.position(),
    {
        if !parser.has_more_commands() {
            proof {
                assert(done + commands(input@, parser.position()) =~= done);
            }
            return Ok(table);
        }
        proof {
            lemma_commands(input@, parser.position());
        }
        let ghost before = parser.position();
        parser.advance();
        proof {
            let command = parser.current();
            assert(done.push(command).drop_last() =~= done);
            assert(done + (seq![command] + commands(input@, parser.position())) =~= done.push(
                command,
            ) + commands(input@, parser.position()));
            done = done.push(command);
        }
        if parser.command_type() == Command::L {
            let symbol = parser.symbol();
            table.add_entry(symbol.as_str(), icount);
        } else if icount < 0xFFFF {
            icount += 1;
        }
    }
}

/// The second pass: the lines for the instructions of `input`, with the
/// symbols resolved through `table` and unknown ones added to it as
/// variables; or the message of the first error.
pub fn generate_code(input: &str, table: SymbolTable) -> (r: Result<String, String>)
    ensures
        match r {
            Ok(out) => outcome(emit(commands(input@, 0), table@)) == Ok::<Seq<char>, Seq<char>>(
                out@,
            ),
            Err(e) => outcome(emit(commands(input@, 0), table@)) == Err::<Seq<char>, Seq<char>>(
                e@,
            ),
        },
{
    let mut symbols = table;
    let mut parser = Parser::new(input);
    let mut output: Vec<char> = Vec::new();
    let mut next_address: u16 = FIRST_VARIABLE;
    let ghost mut done: Seq<Seq<char>> = Seq::empty();
    loop
        invariant
            parser.source() == input@,
            0 <= parser.position() <= input@.len(),
            commands(input@, 0) == done + commands(input@, parser.position()),
            emit(done, table@).failure is None,
            emit(done, table@).table == symbols@,
            emit(done, table@).next == next_address,
            emit(done, table@).output == output@,
            next_address <= ADDRESS_LIMIT,
        decreases input@.len() - parser.position(),
    {
        if !parser.has_more_commands() {
            proof {
                assert(done + commands(input@, parser.position()) =~= done);
            }
            return Ok(string_of(output.as_slice()));
        }
        proof {
            lemma_commands(input@, parser.position());
        }
        parser.advance();
        let ghost command = parser.current();
        let ghost state = emit(done, table@);
        proof {
            assert(done.push(command).drop_last() =~= done);
            assert(done + (seq![command] + commands(input@, parser.position())) =~= done.push(
                command,
            ) + commands(input@, parser.position()));
            done = done.push(command);
            assert(emit(done, table@) == emit_step(state, command));
        }
        match parser.command_type() {
            Command::A => {
                let symbol = parser.symbol();
                let name = chars_of(symbol.as_str());
                let address: Option<u16> = if skip_in(name.as_slice(), CharSet::Digit, 0)
                    == name.len() {
                    match read_unsigned(name.as_slice(), 32767) {
                        Ok(n) => Some(n as u16),
                        Err(_) => None,
                    }
                } else if symbols.contains(symbol.as_str()) {
                    let known = symbols.get_address(symbol.as_str());
                    if known < ADDRESS_LIMIT {
                        Some(known)
                    } else {
                        None
                    }
                } else if next_address < ADDRESS_LIMIT {
                    symbols.add_entry(symbol.as_str(), next_address);
                    next_address += 1;
                    Some((next_address - 1) as u16)
                } else {
                    None
                };
                match address {
                    Some(address) => {
                        output.push('0');
                        let digits = write_bits(address, 15);
                        put_chars(&mut output, digits.as_slice());
                        output.push('\n');
                        proof {
                            assert(output@ =~= state.output + a_line(address));
                        }
                    },
                    None => {
                        proof {
                            lemma_failure_stays(done, commands(input@, parser.position()), table@);
                        }
                        return Err(String::from_str("Invalid address: ").concat(symbol.as_str()));
                    },
                }
            },
            Command::C => {
                let comp = parser.comp();
                let dest = parser.dest();
                let jump = parser.jump();
                match Code::comp(comp.as_str()) {
                    Ok(bits) => {
                        put(&mut output, "111");
                        put(&mut output, bits);
                        put(&mut output, Code::dest(dest.as_str()));
                        put(&mut output, Code::jump(jump.as_str()));
                        output.push('\n');
                        proof {
                            assert(output@ =~= state.output + c_line(
                                bits@,
                                dest_bits(dest@),
                                jump_bits(jump@),
                            ));
                        }
                    },
                    Err(e) => {
                        proof {
                            lemma_failure_stays(done, commands(input@, parser.position()), table@);
                        }
                        return Err(e);
                    },
                }
            },
            Command::L => {},
        }
    }
}

} // verus!
