//! The output formatter: one cell of a line for each format, and the
//! locations that formats and `set` commands name.
//!
//! A format is `<location>%<type><left>.<length>.<right>`: the location is
//! `PC` or `RAM[i]`, the type is `B` for binary, `X` for hexadecimal or `D`
//! for signed decimal, and the three numbers are the padding on the left,
//! the length of the value and the padding on the right.

use crate::cpu::{Cpu, Machine};
use crate::memory::{Word, RAM_SIZE};
use crate::numeral::{
    numeral, parse_unsigned, read_unsigned, signed_decimal, write_numeral, write_signed,
    NumberError,
};
use crate::runner::commands::missing;
use crate::text::{
    chars_of, cut, find, find_in, is_text, pieces, put, put_chars, split, string_of, tell, views,
    CharSet,
};
use vstd::prelude::*;

verus! {

/// A place that a script can name.
#[derive(Clone, Copy, Debug)]
pub enum Location {
    /// The program counter.
    Pc,
    /// The word of the RAM at an address below `RAM_SIZE`.
    Ram(usize),
}

/// The characters that part the fields of a format.
pub open spec fn delimiter() -> CharSet {
    CharSet::Four('%', '.', '[', ']')
}

/// The greatest padding or length that a format can ask for.
pub const FIELD_MAX: u32 = 0xFFFF_FFFF;

/// The message for a location that is neither `PC` nor `RAM`.
pub open spec fn unhandled(name: Seq<char>) -> Seq<char> {
    "Unhandled set destination: "@ + name
}

/// The message for an address beyond the RAM.
pub open spec fn beyond_ram(index: Seq<char>) -> Seq<char> {
    "RAM index out of range: "@ + index
}

/// The place that the parts of a location name: `PC` or `pc` alone, or `RAM`
/// or `ram` and then an address within the RAM.
pub open spec fn location(parts: Seq<Seq<char>>) -> Result<Location, Seq<char>> {
    if parts.len() == 0 {
        Err(missing("destination"@))
    } else if parts[0] == "PC"@ || parts[0] == "pc"@ {
        Ok(Location::Pc)
    } else if parts[0] == "RAM"@ || parts[0] == "ram"@ {
        if parts.len() < 2 {
            Err(missing("index for set RAM[?]"@))
        } else {
            match parse_unsigned(parts[1], FIELD_MAX as nat) {
                Err(e) => Err(e.text()),
                Ok(index) => if index < RAM_SIZE {
                    Ok(Location::Ram(index as usize))
                } else {
                    Err(beyond_ram(parts[1]))
                },
            }
        }
    } else {
        Err(unhandled(parts[0]))
    }
}

/// The word that a place holds.
pub open spec fn value_at(machine: Machine, place: Location) -> Word {
    match place {
        Location::Pc => machine.pc,
        Location::Ram(index) => machine.ram[index as int],
    }
}

/// A word as a two's-complement number.
pub open spec fn signed(word: Word) -> int {
    if word >= 0x8000 {
        word - 0x10000
    } else {
        word as int
    }
}

/// The message for a type that is none of `B`, `X` and `D`.
pub open spec fn unknown_format(kind: Seq<char>) -> Seq<char> {
    "Unknown format: "@ + kind
}

/// A word written as the type of a format asks: in binary or in
/// hexadecimal without leading zeros, or as a signed decimal number.
pub open spec fn written(kind: char, word: Word) -> Result<Seq<char>, Seq<char>> {
    if kind == 'B' {
        Ok(numeral(word as nat, 2))
    } else if kind == 'X' {
        Ok(numeral(word as nat, 16))
    } else if kind == 'D' {
        Ok(signed_decimal(signed(word)))
    } else {
        Err(unknown_format(seq![kind]))
    }
}

/// The name that a format's column has in the header: what stands before
/// the first `%`.
pub open spec fn header_name(format: Seq<char>) -> Seq<char> {
    format.take(find(format, CharSet::One('%'), 0))
}

/// `n` spaces.
pub open spec fn spaces(n: nat) -> Seq<char> {
    Seq::new(n, |i: int| ' ')
}

/// The message for a value that is too long for its column.
pub open spec fn no_fit(text: Seq<char>, format: Seq<char>) -> Seq<char> {
    "value '"@ + text + "' could not fit in the specified formatting: '"@ + format + "'"@
}

/// The message for a format with something between `RAM[i]` and `%`.
pub open spec fn not_blank(text: Seq<char>) -> Seq<char> {
    "Unexpected text after the location: "@ + text
}

/// A cell: `|`, then `text` in a column of `left + length + right`
/// characters. The text stands after `left + length` minus its own length in
/// spaces, and `right` spaces follow it; a text longer than `left + length`
/// starts at once and takes from the spaces that follow it. A value longer
/// than `length + right` is an error; a header's name is cut to the width of
/// the column.
pub open spec fn padded(
    text: Seq<char>,
    left: nat,
    length: nat,
    right: nat,
    header: bool,
    format: Seq<char>,
) -> Result<Seq<char>, Seq<char>> {
    let width = left + length + right;
    if !header && text.len() > length + right {
        Err(no_fit(text, format))
    } else if text.len() > width {
        Ok(seq!['|'] + text.take(width as int))
    } else if text.len() > left + length {
        Ok(seq!['|'] + text + spaces((width - text.len()) as nat))
    } else {
        Ok(seq!['|'] + spaces((left + length - text.len()) as nat) + text + spaces(right))
    }
}

/// The cell for one format: for a header line the name of its column, else
/// the value at its location. The fields of the format are read from the
/// left, and the first fault among them is the error.
pub open spec fn cell(machine: Machine, format: Seq<char>, header: bool) -> Result<
    Seq<char>,
    Seq<char>,
> {
    let parts = pieces(format, delimiter(), 0);
    match location(parts) {
        Err(e) => Err(e),
        Ok(place) => {
            let k: int = if place is Ram {
                3
            } else {
                1
            };
            if place is Ram && parts.len() < 3 {
                Err(missing("skipping blank space"@))
            } else if place is Ram && parts[2].len() > 0 {
                Err(not_blank(parts[2]))
            } else if parts.len() <= k {
                Err(missing("type for format"@))
            } else if parts[k].len() == 0 {
                Err(unknown_format(Seq::empty()))
            } else {
                let text = if header {
                    Ok(header_name(format))
                } else {
                    written(parts[k][0], value_at(machine, place))
                };
                match text {
                    Err(e) => Err(e),
                    Ok(text) => match parse_unsigned(parts[k].skip(1), FIELD_MAX as nat) {
                        Err(e) => Err(e.text()),
                        Ok(left) => if parts.len() <= k + 1 {
                            Err(missing("length for format"@))
                        } else {
                            match parse_unsigned(parts[k + 1], FIELD_MAX as nat) {
                                Err(e) => Err(e.text()),
                                Ok(length) => if parts.len() <= k + 2 {
                                    Err(missing("right padding for format"@))
                                } else {
                                    match parse_unsigned(parts[k + 2], FIELD_MAX as nat) {
                                        Err(e) => Err(e.text()),
                                        Ok(right) => padded(
                                            text,
                                            left,
                                            length,
                                            right,
                                            header,
                                            format,
                                        ),
                                    }
                                },
                            }
                        },
                    },
                }
            }
        },
    }
}

/// The cells for the formats `formats`, one after the other, or the first
/// error among them.
pub open spec fn cells(machine: Machine, formats: Seq<Seq<char>>, header: bool) -> Result<
    Seq<char>,
    Seq<char>,
>
    decreases formats.len(),
{
    if formats.len() == 0 {
        Ok(Seq::empty())
    } else {
        match cells(machine, formats.drop_last(), header) {
            Err(e) => Err(e),
            Ok(before) => match cell(machine, formats.last(), header) {
                Err(e) => Err(e),
                Ok(last) => Ok(before + last),
            },
        }
    }
}

/// A line of output: the cells, then `|` and a line break.
pub open spec fn row(machine: Machine, formats: Seq<Seq<char>>, header: bool) -> Result<
    Seq<char>,
    Seq<char>,
> {
    match cells(machine, formats, header) {
        Err(e) => Err(e),
        Ok(text) => Ok(text + seq!['|', '\n']),
    }
}

/// What a result that holds characters says.
pub open spec fn shown(r: Result<Vec<char>, String>) -> Result<Seq<char>, Seq<char>> {
    match r {
        Ok(text) => Ok(text@),
        Err(e) => Err(e@),
    }
}

/// What the result of reading a field says.
pub open spec fn field(r: Result<u32, String>) -> Result<nat, Seq<char>> {
    match r {
        Ok(n) => Ok(n as nat),
        Err(e) => Err(e@),
    }
}

/// Finds the place that the parts of a location name.
pub fn locate(parts: &Vec<Vec<char>>) -> (r: Result<Location, String>)
    ensures
        match r {
            Ok(place) => location(views(parts@)) == Ok::<Location, Seq<char>>(place),
            Err(e) => location(views(parts@)) == Err::<Location, Seq<char>>(e@),
        },
        r matches Ok(Location::Ram(index)) ==> index < RAM_SIZE,
{
    assert(forall|i: int| 0 <= i < parts@.len() ==> parts@[i]@ == #[trigger] views(parts@)[i]);
    if parts.len() == 0 {
        return Err(String::from_str("Failed to parse ").concat("destination"));
    }
    let name = parts[0].as_slice();
    if is_text(name, "PC") || is_text(name, "pc") {
        Ok(Location::Pc)
    } else if is_text(name, "RAM") || is_text(name, "ram") {
        if parts.len() < 2 {
            return Err(String::from_str("Failed to parse ").concat("index for set RAM[?]"));
        }
        match read_unsigned(parts[1].as_slice(), FIELD_MAX) {
            Err(e) => Err(String::from_str(e.message())),
            Ok(index) => if (index as u64) < RAM_SIZE as u64 {
                Ok(Location::Ram(index as usize))
            } else {
                Err(tell("RAM index out of range: ", parts[1].as_slice()))
            },
        }
    } else {
        Err(tell("Unhandled set destination: ", name))
    }
}

/// Reads one of the three numbers of a format.
fn read_field(text: &[char]) -> (r: Result<u32, String>)
    ensures
        match r {
            Ok(n) => parse_unsigned(text@, FIELD_MAX as nat) == Ok::<nat, NumberError>(n as nat),
            Err(e) => parse_unsigned(text@, FIELD_MAX as nat) matches Err(fault) && e@
                == fault.text(),
        },
{
    match read_unsigned(text, FIELD_MAX) {
        Ok(n) => Ok(n),
        Err(e) => Err(String::from_str(e.message())),
    }
}

/// Appends `n` spaces to `out`.
fn put_spaces(out: &mut Vec<char>, n: u64)
    ensures
        final(out)@ == old(out)@ + spaces(n as nat),
{
    let mut i: u64 = 0;
    while i < n
        invariant
            i <= n,
            out@ == old(out)@ + spaces(i as nat),
        decreases n - i,
    {
        out.push(' ');
        proof {
            assert(old(out)@ + spaces((i + 1) as nat) =~= (old(out)@ + spaces(i as nat)).push(' '));
        }
        i += 1;
    }
}

/// The word that a place holds.
pub fn get_val(cpu: &Cpu, place: Location) -> (word: Word)
    requires
        place matches Location::Ram(index) ==> index < RAM_SIZE,
    ensures
        word == value_at(cpu@, place),
{
    match place {
        Location::Pc => cpu.pc,
        Location::Ram(index) => cpu.ram.get(index),
    }
}

/// Writes a word as the type of a format asks.
pub fn format_val(kind: char, word: Word) -> (r: Result<Vec<char>, String>)
    ensures
        shown(r) == written(kind, word),
{
    if kind == 'B' {
        Ok(write_numeral(word as u64, 2))
    } else if kind == 'X' {
        Ok(write_numeral(word as u64, 16))
    } else if kind == 'D' {
        let value: i16 = if word >= 0x8000 {
            (word as i32 - 0x10000) as i16
        } else {
            word as i16
        };
        Ok(write_signed(value))
    } else {
        let mut name: Vec<char> = Vec::new();
        name.push(kind);
        assert(name@ =~= seq![kind]);
        Err(tell("Unknown format: ", name.as_slice()))
    }
}

/// Writes `text` into a column, after `|`.
fn pad(text: &[char], left: u32, length: u32, right: u32, header: bool, format: &[char]) -> (r:
    Result<Vec<char>, String>)
    ensures
        shown(r) == padded(text@, left as nat, length as nat, right as nat, header, format@),
{
    let size: u64 = text.len() as u64;
    let width: u64 = left as u64 + length as u64 + right as u64;
    if !header && size > length as u64 + right as u64 {
        let mut message = chars_of("value '");
        put_chars(&mut message, text);
        put(&mut message, "' could not fit in the specified formatting: '");
        put_chars(&mut message, format);
        put(&mut message, "'");
        return Err(string_of(message.as_slice()));
    }
    let mut out: Vec<char> = Vec::new();
    out.push('|');
    assert(out@ =~= seq!['|']);
    if size > width {
        let kept = cut(text, 0, width as usize);
        put_chars(&mut out, kept.as_slice());
        assert(text@.subrange(0, width as int) =~= text@.take(width as int));
    } else if size > left as u64 + length as u64 {
        put_chars(&mut out, text);
        put_spaces(&mut out, width - size);
    } else {
        put_spaces(&mut out, left as u64 + length as u64 - size);
        put_chars(&mut out, text);
        put_spaces(&mut out, right as u64);
    }
    Ok(out)
}

/// Writes the cell for one format.
pub fn write_cell(cpu: &Cpu, format: &[char], header: bool) -> (r: Result<Vec<char>, String>)
    ensures
        shown(r) == cell(cpu@, format@, header),
{
    let parts = split(format, CharSet::Four('%', '.', '[', ']'));
    assert(forall|i: int| 0 <= i < parts@.len() ==> parts@[i]@ == #[trigger] views(parts@)[i]);
    let place = match locate(&parts) {
        Err(e) => {
            return Err(e);
        },
        Ok(place) => place,
    };
    let k: usize = match place {
        Location::Ram(_) => {
            if parts.len() < 3 {
                return Err(String::from_str("Failed to parse ").concat("skipping blank space"));
            }
            if parts[2].len() > 0 {
                return Err(tell("Unexpected text after the location: ", parts[2].as_slice()));
            }
            3
        },
        Location::Pc => 1,
    };
    if parts.len() <= k {
        return Err(String::from_str("Failed to parse ").concat("type for format"));
    }
    let kind = parts[k].as_slice();
    if kind.len() == 0 {
        let none: Vec<char> = Vec::new();
        assert(none@ =~= Seq::<char>::empty());
        return Err(tell("Unknown format: ", none.as_slice()));
    }
    let text = if header {
        let end = find_in(format, CharSet::One('%'), 0);
        let name = cut(format, 0, end);
        assert(format@.subrange(0, end as int) =~= format@.take(end as int));
        name
    } else {
        match format_val(kind[0], get_val(cpu, place)) {
            Err(e) => {
                return Err(e);
            },
            Ok(text) => text,
        }
    };
    let rest = cut(kind, 1, kind.len());
    assert(rest@ =~= kind@.skip(1));
    let left = match read_field(rest.as_slice()) {
        Err(e) => {
            return Err(e);
        },
        Ok(n) => n,
    };
    if parts.len() <= k + 1 {
        return Err(String::from_str("Failed to parse ").concat("length for format"));
    }
    let length = match read_field(parts[k + 1].as_slice()) {
        Err(e) => {
            return Err(e);
        },
        Ok(n) => n,
    };
    if parts.len() <= k + 2 {
        return Err(String::from_str("Failed to parse ").concat("right padding for format"));
    }
    let right = match read_field(parts[k + 2].as_slice()) {
        Err(e) => {
            return Err(e);
        },
        Ok(n) => n,
    };
    pad(text.as_slice(), left, length, right, header, format)
}

} // verus!
