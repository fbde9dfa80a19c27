//! What holds of every assembly: the shape of the output, the agreement of
//! the encoding with the CPU's decoding, and the addresses of symbols.

use super::code::{comp_bits, dest_bits, jump_bits, lemma_comp_shape, lemma_tribit, tribit};
use super::parser::{
    command_at, commands, comment_start, comp_of, dest_of, jump_of, kind_of, symbol_of, Command,
};
use super::{
    a_line, address_of, assembled, c_line, emit, emit_step, is_new, is_number, labels, predefined,
    ADDRESS_LIMIT, FIRST_VARIABLE,
};
use crate::instructions::c::{
    control, jumps_if_negative, jumps_if_positive, jumps_if_zero, reads_memory, writes_a,
    writes_d, writes_memory,
};
use crate::cpu::{lemma_a_instruction, lemma_plain_computation, Machine};
use crate::instructions::is_c;
use crate::memory::rom::{is_instruction, lemma_words_of_concat, program, words_of};
use crate::memory::{Word, ROM_SIZE};
use crate::numeral::{
    binary, bits, is_binary, lemma_binary_bound, lemma_binary_concat, lemma_bits,
    lemma_decimal_of_numeral, lemma_numeral_digits, lemma_parse_unsigned, numeral, pow2,
};
use crate::text::{
    is_digit, is_whitespace, lemma_find, lemma_find_passes, lemma_skip, line_at, line_end, lines,
    next_line, skip_back, trim, trim_end, CharSet,
};
use vstd::prelude::*;

verus! {

/// The number of instructions among the commands `cmds`: those that are no
/// labels.
pub open spec fn instruction_count(cmds: Seq<Seq<char>>) -> nat
    decreases cmds.len(),
{
    if cmds.len() == 0 {
        0
    } else if kind_of(cmds.last()) == Command::L {
        instruction_count(cmds.drop_last())
    } else {
        instruction_count(cmds.drop_last()) + 1
    }
}

/// Whether `line` is the line of one instruction: 16 binary digits and a
/// line break.
pub open spec fn is_line(line: Seq<char>) -> bool {
    line.len() == 17 && is_instruction(line.take(16)) && line[16] == '\n'
}

/// Whether `text` is `n` lines of 16 binary digits, each ended by a line
/// break.
pub open spec fn is_code(text: Seq<char>, n: nat) -> bool {
    &&& text.len() == 17 * n
    &&& forall|i: int|
        0 <= i < text.len() ==> if i % 17 == 16 {
            #[trigger] text[i] == '\n'
        } else {
            text[i] == '0' || text[i] == '1'
        }
}

/// The line of an A-instruction is the line of one instruction, and the
/// word that its digits stand for is the address.
pub proof fn lemma_a_line(address: u16)
    requires
        address < ADDRESS_LIMIT,
    ensures
        is_line(a_line(address)),
        binary(a_line(address).take(16)) == address,
        !is_c(address),
{
    let digits = bits(address as nat, 15);
    lemma_bits(address as nat, 15);
    let line = a_line(address);
    assert(line.take(16) =~= seq!['0'] + digits);
    lemma_binary_concat(seq!['0'], digits);
    assert(seq!['0'].drop_last() =~= Seq::<char>::empty());
    assert(binary(seq!['0']) == 0) by {
        reveal_with_fuel(binary, 2);
    }
    assert(pow2(15) == 32768) by {
        reveal_with_fuel(pow2, 16);
    }
    assert(0 * pow2(15) == 0);
}

/// The word that the line of a C-instruction stands for, from the numbers
/// of its fields.
pub proof fn lemma_c_line_word(comp: Seq<char>, dest: Seq<char>, jump: Seq<char>)
    requires
        comp.len() == 7,
        dest.len() == 3,
        jump.len() == 3,
        is_binary(comp),
        is_binary(dest),
        is_binary(jump),
    ensures
        is_line(c_line(comp, dest, jump)),
        binary(c_line(comp, dest, jump).take(16)) == 0xE000 + binary(comp) * 64 + binary(dest) * 8
            + binary(jump),
        binary(comp) < 128,
        binary(dest) < 8,
        binary(jump) < 8,
{
    reveal_strlit("111");
    let head = "111"@;
    let line = c_line(comp, dest, jump);
    assert(line.take(16) =~= head + comp + dest + jump);
    assert(head =~= tribit(true, true, true));
    lemma_tribit(true, true, true);
    lemma_binary_concat(head + comp + dest, jump);
    lemma_binary_concat(head + comp, dest);
    lemma_binary_concat(head, comp);
    lemma_binary_bound(comp);
    lemma_binary_bound(dest);
    lemma_binary_bound(jump);
    assert(pow2(3) == 8 && pow2(7) == 128) by {
        reveal_with_fuel(pow2, 8);
    }
}

/// The first of some binary digits is the highest bit of their number, and
/// the others stand for the rest.
pub proof fn lemma_binary_first(s: Seq<char>)
    requires
        s.len() >= 1,
    ensures
        binary(s) == (if s[0] == '1' {
            pow2((s.len() - 1) as nat)
        } else {
            0
        }) + binary(s.skip(1)),
{
    assert(s =~= seq![s[0]] + s.skip(1));
    lemma_binary_concat(seq![s[0]], s.skip(1));
    assert(seq![s[0]].drop_last() =~= Seq::<char>::empty());
    assert(binary(seq![s[0]]) == if s[0] == '1' {
        1nat
    } else {
        0nat
    }) by {
        reveal_with_fuel(binary, 2);
    }
    let p = pow2(s.skip(1).len());
    assert(1 * p == p && 0 * p == 0);
}

/// Three binary digits stand for four times the first, twice the second
/// and once the third.
pub proof fn lemma_three_digits(s: Seq<char>)
    requires
        s.len() == 3,
    ensures
        binary(s) == (if s[0] == '1' {
            4nat
        } else {
            0nat
        }) + (if s[1] == '1' {
            2nat
        } else {
            0nat
        }) + (if s[2] == '1' {
            1nat
        } else {
            0nat
        }),
{
    assert(s.drop_last().drop_last().drop_last() =~= Seq::<char>::empty());
    reveal_with_fuel(binary, 4);
}

/// The fields of the word of a C-instruction, from the numbers that the
/// assembler wrote for them.
pub proof fn lemma_fields(comp: u16, dest: u16, jump: u16)
    by (bit_vector)
    requires
        comp < 128,
        dest < 8,
        jump < 8,
    ensures
        ({
            let word: u16 = (0xE000u16 + comp * 64u16 + dest * 8u16 + jump) as u16;
            &&& word >= 0x8000
            &&& (word / 4096u16) % 2u16 == comp / 64u16
            &&& (word / 64u16) % 64u16 == comp % 64u16
            &&& (word / 32u16) % 2u16 == dest / 4u16
            &&& (word / 16u16) % 2u16 == (dest / 2u16) % 2u16
            &&& (word / 8u16) % 2u16 == dest % 2u16
            &&& (word / 4u16) % 2u16 == jump / 4u16
            &&& (word / 2u16) % 2u16 == (jump / 2u16) % 2u16
            &&& word % 2u16 == jump % 2u16
        }),
{
}

/// What the assembler writes for a C-instruction, the CPU decodes as that
/// instruction. The line is one that the loader of programs accepts, and in
/// the word that its digits stand for the highest bit is set; the bit `a`
/// and the control bits of the ALU are those of the computation's entry in
/// the table; the destination bits say which of A, D and M the destination
/// names; and the jump bits are those of the jump.
pub proof fn lemma_c_instruction_decodes(comp: Seq<char>, dest: Seq<char>, jump: Seq<char>)
    requires
        comp_bits(comp) is Some,
    ensures
        ({
            let line = c_line(comp_bits(comp)->Some_0, dest_bits(dest), jump_bits(jump));
            let word = binary(line.take(16)) as Word;
            &&& is_line(line)
            &&& binary(line.take(16)) < 0x10000
            &&& is_c(word)
            &&& reads_memory(word) == (comp_bits(comp)->Some_0[0] == '1')
            &&& control(word) == binary(comp_bits(comp)->Some_0.skip(1))
            &&& writes_a(word) == dest.contains('A')
            &&& writes_d(word) == dest.contains('D')
            &&& writes_memory(word) == dest.contains('M')
            &&& jumps_if_negative(word) == (jump_bits(jump)[0] == '1')
            &&& jumps_if_zero(word) == (jump_bits(jump)[1] == '1')
            &&& jumps_if_positive(word) == (jump_bits(jump)[2] == '1')
        }),
{
    let c = comp_bits(comp)->Some_0;
    let d = dest_bits(dest);
    let j = jump_bits(jump);
    lemma_comp_shape(comp);
    lemma_tribit(dest.contains('A'), dest.contains('D'), dest.contains('M'));
    lemma_tribit(true, true, true);
    lemma_tribit(true, false, true);
    lemma_tribit(jump.contains('L'), jump.contains('E'), jump.contains('G'));
    lemma_c_line_word(c, d, j);
    lemma_binary_first(c);
    lemma_binary_bound(c.skip(1));
    assert(pow2(6) == 64) by {
        reveal_with_fuel(pow2, 7);
    }
    lemma_three_digits(j);
    lemma_three_digits(d);
    let cn = binary(c) as u16;
    let dn = binary(d) as u16;
    let jn = binary(j) as u16;
    lemma_fields(cn, dn, jn);
    let word = (0xE000 + cn * 64 + dn * 8 + jn) as u16;
    assert(binary(c_line(c, d, j).take(16)) == word);
    assert(cn / 64 == if c[0] == '1' {
        1int
    } else {
        0int
    });
    assert(cn % 64 == binary(c.skip(1)));
}

/// A line more makes code of one instruction more.
pub proof fn lemma_append_line(text: Seq<char>, n: nat, line: Seq<char>)
    requires
        is_code(text, n),
        is_line(line),
    ensures
        is_code(text + line, n + 1),
{
    let all = text + line;
    assert forall|i: int| 0 <= i < all.len() implies if i % 17 == 16 {
        #[trigger] all[i] == '\n'
    } else {
        all[i] == '0' || all[i] == '1'
    } by {
        if i >= text.len() {
            let j = i - 17 * n;
            assert(all[i] == line[j]);
            assert(i % 17 == j);
            if j < 16 {
                assert(line.take(16)[j] == line[j]);
            }
        } else {
            assert(all[i] == text[i]);
        }
    }
}

/// The second pass writes one line of 16 binary digits for each
/// instruction, in as far as it does not fail.
pub proof fn lemma_emit_lines(cmds: Seq<Seq<char>>, table: Map<Seq<char>, u16>)
    requires
        emit(cmds, table).failure is None,
    ensures
        is_code(emit(cmds, table).output, instruction_count(cmds)),
    decreases cmds.len(),
{
    if cmds.len() > 0 {
        let before = emit(cmds.drop_last(), table);
        let command = cmds.last();
        lemma_emit_lines(cmds.drop_last(), table);
        let n = instruction_count(cmds.drop_last());
        if kind_of(command) == Command::A {
            let symbol = symbol_of(command);
            let address = address_of(before.table, before.next, symbol)->Some_0;
            lemma_parse_unsigned(symbol, (ADDRESS_LIMIT - 1) as nat);
            lemma_a_line(address);
            lemma_append_line(before.output, n, a_line(address));
        } else if kind_of(command) == Command::C {
            let comp = comp_of(command);
            let dest = dest_of(command);
            let jump = jump_of(command);
            lemma_c_instruction_decodes(comp, dest, jump);
            lemma_append_line(
                before.output,
                n,
                c_line(comp_bits(comp)->Some_0, dest_bits(dest), jump_bits(jump)),
            );
        }
    }
}

/// An assembly that does not fail gives as many lines as the source has
/// instructions: commands that are no labels. Each line is 16 binary digits
/// and a line break.
pub proof fn lemma_one_line_per_instruction(source: Seq<char>)
    ensures
        assembled(source) matches Ok(text) ==> is_code(
            text,
            instruction_count(commands(source, 0)),
        ),
        labels(commands(source, 0)).count == instruction_count(commands(source, 0)),
{
    let cmds = commands(source, 0);
    if assembled(source) is Ok {
        lemma_emit_lines(cmds, labels(cmds).table);
    }
    lemma_label_count(cmds);
}

/// The first pass counts the instructions.
pub proof fn lemma_label_count(cmds: Seq<Seq<char>>)
    ensures
        labels(cmds).count == instruction_count(cmds),
    decreases cmds.len(),
{
    if cmds.len() > 0 {
        lemma_label_count(cmds.drop_last());
    }
}

/// A source without commands assembles to nothing.
pub proof fn lemma_nothing_from_nothing(source: Seq<char>)
    requires
        commands(source, 0).len() == 0,
    ensures
        assembled(source) == Ok::<Seq<char>, Seq<char>>(Seq::empty()),
        assembled(Seq::empty()) == Ok::<Seq<char>, Seq<char>>(Seq::empty()),
{
}

/// A line without `/` has no comment.
pub proof fn lemma_no_comment(line: Seq<char>, from: int)
    requires
        0 <= from <= line.len(),
        forall|i: int| from <= i < line.len() ==> line[i] != '/',
    ensures
        comment_start(line, from) == line.len(),
    decreases line.len() - from,
{
    if from < line.len() {
        lemma_no_comment(line, from + 1);
    }
}

/// For any address `n` of 15 bits, `@n` assembles to the line of `0` and the
/// 15 binary digits of `n`.
pub proof fn lemma_number_assembles(n: nat)
    requires
        n < ADDRESS_LIMIT,
    ensures
        assembled(seq!['@'] + numeral(n, 10)) == Ok::<Seq<char>, Seq<char>>(
            seq!['0'] + bits(n, 15) + seq!['\n'],
        ),
{
    let digits = numeral(n, 10);
    let source = seq!['@'] + digits;
    let size = source.len() as int;
    lemma_numeral_digits(n, 10);
    lemma_decimal_of_numeral(n);
    assert forall|i: int| 0 <= i < size implies source[i] == '@' || is_digit(
        #[trigger] source[i],
    ) by {
        if i > 0 {
            assert(source[i] == digits[i - 1]);
        }
    }
    // The source is one line, all of it the command.
    lemma_find(source, CharSet::One('\n'), 0);
    assert(line_end(source, 0) == size);
    assert(source.subrange(0, size) =~= source);
    lemma_no_comment(source, 0);
    assert(source.take(size) =~= source);
    assert(is_digit(source[size - 1]));
    assert(trim(source, CharSet::Whitespace) =~= source);
    assert(command_at(source, 0) == source);
    assert(commands(source, size) =~= Seq::<Seq<char>>::empty());
    let cmds = commands(source, 0);
    assert(cmds =~= seq![source]);
    assert(cmds.drop_last() =~= Seq::<Seq<char>>::empty());
    // The command is an A-command whose symbol is the number.
    assert(source.skip(1) =~= digits);
    lemma_skip(digits, CharSet::Digit, 0);
    assert(is_number(digits));
    assert(digits.take(digits.len() as int) =~= digits);
    assert(cmds.last() == source);
    assert(source[0] == '@');
    assert(kind_of(source) == Command::A);
    assert(labels(cmds.drop_last()).table == predefined());
    assert(labels(cmds).table == predefined());
    let start = emit(cmds.drop_last(), predefined());
    assert(emit(cmds, predefined()) == emit_step(start, source));
    assert(Seq::<char>::empty() + a_line(n as u16) =~= a_line(n as u16));
}

/// A symbol that the table holds keeps its address through the second
/// pass.
pub proof fn lemma_known_stays(cmds: Seq<Seq<char>>, table: Map<Seq<char>, u16>, name: Seq<char>)
    requires
        table.contains_key(name),
    ensures
        emit(cmds, table).table.contains_key(name),
        emit(cmds, table).table[name] == table[name],
    decreases cmds.len(),
{
    if cmds.len() > 0 {
        lemma_known_stays(cmds.drop_last(), table, name);
    }
}

/// A predefined symbol that no label of the program redefines has its
/// predefined address after the first pass.
pub proof fn lemma_labels_keep_predefined(cmds: Seq<Seq<char>>, name: Seq<char>)
    requires
        predefined().contains_key(name),
        forall|i: int|
            0 <= i < cmds.len() && kind_of(#[trigger] cmds[i]) == Command::L ==> symbol_of(cmds[i])
                != name,
    ensures
        labels(cmds).table.contains_key(name),
        labels(cmds).table[name] == predefined()[name],
    decreases cmds.len(),
{
    if cmds.len() > 0 {
        assert(cmds.last() == cmds[cmds.len() - 1]);
        assert forall|i: int|
            0 <= i < cmds.drop_last().len() && kind_of(#[trigger] cmds.drop_last()[i])
                == Command::L implies symbol_of(cmds.drop_last()[i]) != name by {
            assert(cmds.drop_last()[i] == cmds[i]);
        }
        lemma_labels_keep_predefined(cmds.drop_last(), name);
    }
}

/// The predefined symbols: none is a number, and each address has 15 bits.
pub proof fn lemma_predefined(name: Seq<char>)
    requires
        predefined().contains_key(name),
    ensures
        !is_number(name),
        predefined()[name] < ADDRESS_LIMIT,
{
    reveal_strlit("SP");
    reveal_strlit("LCL");
    reveal_strlit("ARG");
    reveal_strlit("THIS");
    reveal_strlit("THAT");
    reveal_strlit("R0");
    reveal_strlit("R1");
    reveal_strlit("R2");
    reveal_strlit("R3");
    reveal_strlit("R4");
    reveal_strlit("R5");
    reveal_strlit("R6");
    reveal_strlit("R7");
    reveal_strlit("R8");
    reveal_strlit("R9");
    reveal_strlit("R10");
    reveal_strlit("R11");
    reveal_strlit("R12");
    reveal_strlit("R13");
    reveal_strlit("R14");
    reveal_strlit("R15");
    reveal_strlit("SCREEN");
    reveal_strlit("KBD");
    assert(name.len() >= 2 && !is_digit(name[0]));
}

/// A predefined symbol needs no declaration: wherever the second pass meets
/// it, after any commands `done` of the program `cmds`, it stands for its
/// predefined address, unless a label of the program has its name.
pub proof fn lemma_predefined_resolves(
    cmds: Seq<Seq<char>>,
    done: Seq<Seq<char>>,
    name: Seq<char>,
)
    requires
        predefined().contains_key(name),
        forall|i: int|
            0 <= i < cmds.len() && kind_of(#[trigger] cmds[i]) == Command::L ==> symbol_of(cmds[i])
                != name,
    ensures
        ({
            let state = emit(done, labels(cmds).table);
            address_of(state.table, state.next, name) == Some(predefined()[name])
        }),
{
    lemma_labels_keep_predefined(cmds, name);
    lemma_known_stays(done, labels(cmds).table, name);
    lemma_predefined(name);
}

/// The symbols that the second pass makes variables, in the order in which
/// it meets them.
pub open spec fn variables(cmds: Seq<Seq<char>>, table: Map<Seq<char>, u16>) -> Seq<Seq<char>>
    decreases cmds.len(),
{
    if cmds.len() == 0 {
        Seq::empty()
    } else {
        let before = emit(cmds.drop_last(), table);
        let symbol = symbol_of(cmds.last());
        if before.failure is None && kind_of(cmds.last()) == Command::A && is_new(
            before.table,
            symbol,
        ) && before.next < ADDRESS_LIMIT {
            variables(cmds.drop_last(), table).push(symbol)
        } else {
            variables(cmds.drop_last(), table)
        }
    }
}

/// Variables get the addresses from 16 on in the order of their first use:
/// after the second pass the table holds the variable number `k` at
/// address `16 + k`, the next free address follows the last variable, and
/// no variable was in the table before.
pub proof fn lemma_variables_in_order(cmds: Seq<Seq<char>>, table: Map<Seq<char>, u16>)
    ensures
        emit(cmds, table).next == FIRST_VARIABLE + variables(cmds, table).len(),
        emit(cmds, table).next <= ADDRESS_LIMIT,
        forall|k: int|
            0 <= k < variables(cmds, table).len() ==> {
                let name = #[trigger] variables(cmds, table)[k];
                &&& !table.contains_key(name)
                &&& emit(cmds, table).table.contains_key(name)
                &&& emit(cmds, table).table[name] == FIRST_VARIABLE + k
            },
    decreases cmds.len(),
{
    if cmds.len() > 0 {
        lemma_variables_in_order(cmds.drop_last(), table);
        let before = emit(cmds.drop_last(), table);
        let names = variables(cmds.drop_last(), table);
        let symbol = symbol_of(cmds.last());
        assert forall|k: int| 0 <= k < variables(cmds, table).len() implies {
            let name = #[trigger] variables(cmds, table)[k];
            &&& !table.contains_key(name)
            &&& emit(cmds, table).table.contains_key(name)
            &&& emit(cmds, table).table[name] == FIRST_VARIABLE + k
        } by {
            if k < names.len() {
                assert(variables(cmds, table)[k] == names[k]);
            } else {
                lemma_table_grows(cmds.drop_last(), table, symbol);
            }
        }
    }
}

/// The second pass takes no symbol out of the table.
pub proof fn lemma_table_grows(cmds: Seq<Seq<char>>, table: Map<Seq<char>, u16>, name: Seq<char>)
    ensures
        table.contains_key(name) ==> emit(cmds, table).table.contains_key(name),
{
    if table.contains_key(name) {
        lemma_known_stays(cmds, table, name);
    }
}

/// The word that the loader of programs reads from the line of an
/// instruction.
pub open spec fn word_of_line(line: Seq<char>) -> Word {
    binary(line.take(16)) as Word
}

/// A C-instruction that the assembler wrote for a computation alone,
/// without destination and without jump, makes the CPU go on with the next
/// instruction and change nothing else.
pub proof fn lemma_computation_alone(machine: Machine, comp: Seq<char>)
    requires
        comp_bits(comp) is Some,
        machine.pc < ROM_SIZE,
        machine.fetched() == word_of_line(
            c_line(comp_bits(comp)->Some_0, dest_bits(Seq::empty()), jump_bits(Seq::empty())),
        ),
    ensures
        machine.stepped() == (Machine {
            ram: machine.ram,
            rom: machine.rom,
            pc: (machine.pc + 1) as Word,
            ra: machine.ra,
            rd: machine.rd,
        }),
{
    reveal_strlit("JMP");
    reveal_strlit("JNE");
    let none = Seq::<char>::empty();
    lemma_c_instruction_decodes(comp, none, none);
    assert(jump_bits(none) == tribit(false, false, false));
    lemma_plain_computation(machine);
}

/// An A-instruction that the assembler wrote for an address makes the CPU
/// load that address into A and go on with the next instruction; D and the
/// RAM stay as they are.
pub proof fn lemma_address_loads(machine: Machine, address: u16)
    requires
        address < ADDRESS_LIMIT,
        machine.pc < ROM_SIZE,
        machine.fetched() == word_of_line(a_line(address)),
    ensures
        machine.stepped() == (Machine {
            ram: machine.ram,
            rom: machine.rom,
            pc: (machine.pc + 1) as Word,
            ra: address,
            rd: machine.rd,
        }),
{
    lemma_a_line(address);
    lemma_a_instruction(machine);
}

/// The words of the lines of `text`, which is `n` lines of code without the
/// last line break, from line `k` on: one word for each line, which its 16
/// digits stand for.
proof fn lemma_lines_of_code(text: Seq<char>, n: int, k: int)
    requires
        n > 0,
        0 <= k <= n,
        text.len() == 17 * n - 1,
        forall|i: int|
            0 <= i < text.len() ==> if i % 17 == 16 {
                #[trigger] text[i] == '\n'
            } else {
                text[i] == '0' || text[i] == '1'
            },
    ensures
        words_of(lines(text, 17 * k)).len() == n - k,
        forall|j: int|
            0 <= j < n - k ==> #[trigger] words_of(lines(text, 17 * k))[j] == binary(
                text.subrange(17 * (k + j), 17 * (k + j) + 16),
            ) as Word,
    decreases n - k,
{
    let from = 17 * k;
    if k < n {
        let end = from + 16;
        let line = text.subrange(from, end);
        assert forall|i: int| from <= i < end implies !CharSet::One('\n').has(
            #[trigger] text[i],
        ) by {
            assert(i % 17 != 16);
        }
        lemma_find_passes(text, CharSet::One('\n'), from, end);
        assert(line_end(text, from) == end) by {
            if end < text.len() {
                assert(end % 17 == 16);
                assert(text[end] == '\n');
            }
        }
        assert((end - 1) % 17 != 16);
        assert(line_at(text, from) == line);
        assert(is_instruction(line)) by {
            assert forall|i: int| 0 <= i < line.len() implies line[i] == '0' || line[i]
                == '1' by {
                assert(line[i] == text[from + i]);
                assert((from + i) % 17 != 16);
            }
        }
        let next = next_line(text, from);
        let rest = lines(text, next);
        if k + 1 < n {
            assert(next == 17 * (k + 1));
        } else {
            assert(next == text.len());
            assert(rest =~= Seq::<Seq<char>>::empty());
            assert(lines(text, 17 * (k + 1)) =~= Seq::<Seq<char>>::empty());
        }
        assert(rest == lines(text, 17 * (k + 1)));
        lemma_lines_of_code(text, n, k + 1);
        lemma_words_of_concat(seq![line], rest);
        assert(seq![line].drop_last() =~= Seq::<Seq<char>>::empty());
        assert(words_of(seq![line]) =~= seq![binary(line) as Word]) by {
            reveal_with_fuel(words_of, 2);
        }
        let all = words_of(lines(text, from));
        assert(all == seq![binary(line) as Word] + words_of(rest));
        assert forall|j: int| 0 <= j < n - k implies #[trigger] all[j] == binary(
            text.subrange(17 * (k + j), 17 * (k + j) + 16),
        ) as Word by {
            if j > 0 {
                assert(all[j] == words_of(rest)[j - 1]);
                assert(17 * ((k + 1) + (j - 1)) == 17 * (k + j));
            }
        }
    } else {
        assert(lines(text, from) =~= Seq::<Seq<char>>::empty());
    }
}

/// The loader of programs reads code back line by line: a text of `n`
/// lines of code holds a program of `n` words, each the number that the 16
/// digits of its line stand for.
pub proof fn lemma_code_loads(text: Seq<char>, n: nat)
    requires
        is_code(text, n),
    ensures
        program(text).len() == n,
        forall|k: int|
            0 <= k < n ==> #[trigger] program(text)[k] == binary(
                text.subrange(17 * k, 17 * k + 16),
            ) as Word,
{
    let size = text.len() as int;
    if n == 0 {
        assert(trim_end(text, CharSet::Whitespace) =~= Seq::<char>::empty());
    } else {
        assert((size - 1) % 17 == 16);
        assert((size - 2) % 17 != 16);
        assert(text[size - 1] == '\n');
        assert(!is_whitespace(text[size - 2]));
        assert(skip_back(text, CharSet::Whitespace, size - 1) == size - 1);
        assert(skip_back(text, CharSet::Whitespace, size) == size - 1);
        let kept = trim_end(text, CharSet::Whitespace);
        assert(kept == text.subrange(0, size - 1));
        assert forall|i: int| 0 <= i < kept.len() implies if i % 17 == 16 {
            #[trigger] kept[i] == '\n'
        } else {
            kept[i] == '0' || kept[i] == '1'
        } by {
            assert(kept[i] == text[i]);
        }
        lemma_lines_of_code(kept, n as int, 0);
        assert forall|k: int| 0 <= k < n implies #[trigger] program(text)[k] == binary(
            text.subrange(17 * k, 17 * k + 16),
        ) as Word by {
            assert(kept.subrange(17 * k, 17 * k + 16) =~= text.subrange(17 * k, 17 * k + 16));
            assert(17 * (0 + k) == 17 * k);
        }
    }
}

/// What the assembler writes, the loader of programs reads back: a program
/// of as many words as the source has instructions.
pub proof fn lemma_assembled_loads(source: Seq<char>)
    ensures
        assembled(source) matches Ok(text) ==> program(text).len() == instruction_count(
            commands(source, 0),
        ),
{
    if assembled(source) is Ok {
        lemma_one_line_per_instruction(source);
        lemma_code_loads(assembled(source)->Ok_0, instruction_count(commands(source, 0)));
    }
}

} // verus!
