//! The encoding tables: from the mnemonics of a C-instruction's three fields
//! to their bits.

use crate::numeral::{binary, is_binary};
use crate::text::{chars_of, holds, is_text};
use vstd::prelude::*;

verus! {

/// The encoding tables of the Hack machine language.
pub struct Code;

/// The binary digit for a flag.
pub open spec fn flag(b: bool) -> char {
    if b {
        '1'
    } else {
        '0'
    }
}

/// Three flags as three binary digits.
pub open spec fn tribit(b1: bool, b2: bool, b3: bool) -> Seq<char> {
    seq![flag(b1), flag(b2), flag(b3)]
}

/// The bits `d1 d2 d3` of a destination: whether A, D and M are written.
pub open spec fn dest_bits(mnemonic: Seq<char>) -> Seq<char> {
    tribit(mnemonic.contains('A'), mnemonic.contains('D'), mnemonic.contains('M'))
}

/// The bits `j1 j2 j3` of a jump: whether to jump on a negative, a zero and a
/// positive result.
pub open spec fn jump_bits(mnemonic: Seq<char>) -> Seq<char> {
    if mnemonic == "JMP"@ {
        tribit(true, true, true)
    } else if mnemonic == "JNE"@ {
        tribit(true, false, true)
    } else {
        tribit(mnemonic.contains('L'), mnemonic.contains('E'), mnemonic.contains('G'))
    }
}

/// A computation's mnemonic with the operands of `+`, `&` and `|` in the
/// order of the table.
pub open spec fn canonical(mnemonic: Seq<char>) -> Seq<char> {
    if mnemonic == "A+D"@ {
        "D+A"@
    } else if mnemonic == "A&D"@ {
        "D&A"@
    } else if mnemonic == "A|D"@ {
        "D|A"@
    } else if mnemonic == "M+D"@ {
        "D+M"@
    } else if mnemonic == "M&D"@ {
        "D&M"@
    } else if mnemonic == "M|D"@ {
        "D|M"@
    } else {
        mnemonic
    }
}

/// The table of computations: the bits `a c1 c2 c3 c4 c5 c6` of each
/// mnemonic that the machine language has.
pub open spec fn comp_table(mnemonic: Seq<char>) -> Option<Seq<char>> {
    if mnemonic == "0"@ {
        Some("0101010"@)
    } else if mnemonic == "1"@ {
        Some("0111111"@)
    } else if mnemonic == "-1"@ {
        Some("0111010"@)
    } else if mnemonic == "D"@ {
        Some("0001100"@)
    } else if mnemonic == "A"@ {
        Some("0110000"@)
    } else if mnemonic == "!D"@ {
        Some("0001101"@)
    } else if mnemonic == "!A"@ {
        Some("0110001"@)
    } else if mnemonic == "-D"@ {
        Some("0001111"@)
    } else if mnemonic == "-A"@ {
        Some("0110011"@)
    } else if mnemonic == "D+1"@ {
        Some("0011111"@)
    } else if mnemonic == "A+1"@ {
        Some("0110111"@)
    } else if mnemonic == "D-1"@ {
        Some("0001110"@)
    } else if mnemonic == "A-1"@ {
        Some("0110010"@)
    } else if mnemonic == "D+A"@ {
        Some("0000010"@)
    } else if mnemonic == "D-A"@ {
        Some("0010011"@)
    } else if mnemonic == "A-D"@ {
        Some("0000111"@)
    } else if mnemonic == "D&A"@ {
        Some("0000000"@)
    } else if mnemonic == "D|A"@ {
        Some("0010101"@)
    } else if mnemonic == "M"@ {
        Some("1110000"@)
    } else if mnemonic == "!M"@ {
        Some("1110001"@)
    } else if mnemonic == "-M"@ {
        Some("1110011"@)
    } else if mnemonic == "M+1"@ {
        Some("1110111"@)
    } else if mnemonic == "M-1"@ {
        Some("1110010"@)
    } else if mnemonic == "D+M"@ {
        Some("1000010"@)
    } else if mnemonic == "D-M"@ {
        Some("1010011"@)
    } else if mnemonic == "M-D"@ {
        Some("1000111"@)
    } else if mnemonic == "D&M"@ {
        Some("1000000"@)
    } else if mnemonic == "D|M"@ {
        Some("1010101"@)
    } else {
        None
    }
}

/// The bits of a computation, or `None` if the machine language has no such
/// mnemonic.
pub open spec fn comp_bits(mnemonic: Seq<char>) -> Option<Seq<char>> {
    comp_table(canonical(mnemonic))
}

/// The message for a mnemonic that the table of computations lacks.
pub open spec fn unknown_mnemonic(mnemonic: Seq<char>) -> Seq<char> {
    "Unknown mnemonic: "@ + mnemonic
}

/// Writes three flags as three binary digits.
pub fn tribit_str(b1: bool, b2: bool, b3: bool) -> (bits: &'static str)
    ensures
        bits@ == tribit(b1, b2, b3),
{
    proof {
        reveal_strlit("000");
        reveal_strlit("001");
        reveal_strlit("010");
        reveal_strlit("011");
        reveal_strlit("100");
        reveal_strlit("101");
        reveal_strlit("110");
        reveal_strlit("111");
    }
    let bits = match (b1, b2, b3) {
        (false, false, false) => "000",
        (false, false, true) => "001",
        (false, true, false) => "010",
        (false, true, true) => "011",
        (true, false, false) => "100",
        (true, false, true) => "101",
        (true, true, false) => "110",
        (true, true, true) => "111",
    };
    assert(bits@ =~= tribit(b1, b2, b3));
    bits
}

/// Puts the operands of `+`, `&` and `|` in the order of the table.
fn canonical_of(mnemonic: &[char]) -> (out: Vec<char>)
    ensures
        out@ == canonical(mnemonic@),
{
    if is_text(mnemonic, "A+D") {
        chars_of("D+A")
    } else if is_text(mnemonic, "A&D") {
        chars_of("D&A")
    } else if is_text(mnemonic, "A|D") {
        chars_of("D|A")
    } else if is_text(mnemonic, "M+D") {
        chars_of("D+M")
    } else if is_text(mnemonic, "M&D") {
        chars_of("D&M")
    } else if is_text(mnemonic, "M|D") {
        chars_of("D|M")
    } else {
        crate::text::cut(mnemonic, 0, mnemonic.len())
    }
}

/// Looks a mnemonic up in the table of computations.
fn lookup(mnemonic: &[char]) -> (bits: Option<&'static str>)
    ensures
        match bits {
            Some(b) => comp_table(mnemonic@) == Some(b@),
            None => comp_table(mnemonic@) is None,
        },
{
    if is_text(mnemonic, "0") {
        Some("0101010")
    } else if is_text(mnemonic, "1") {
        Some("0111111")
    } else if is_text(mnemonic, "-1") {
        Some("0111010")
    } else if is_text(mnemonic, "D") {
        Some("0001100")
    } else if is_text(mnemonic, "A") {
        Some("0110000")
    } else if is_text(mnemonic, "!D") {
        Some("0001101")
    } else if is_text(mnemonic, "!A") {
        Some("0110001")
    } else if is_text(mnemonic, "-D") {
        Some("0001111")
    } else if is_text(mnemonic, "-A") {
        Some("0110011")
    } else if is_text(mnemonic, "D+1") {
        Some("0011111")
    } else if is_text(mnemonic, "A+1") {
        Some("0110111")
    } else if is_text(mnemonic, "D-1") {
        Some("0001110")
    } else if is_text(mnemonic, "A-1") {
        Some("0110010")
    } else if is_text(mnemonic, "D+A") {
        Some("0000010")
    } else if is_text(mnemonic, "D-A") {
        Some("0010011")
    } else if is_text(mnemonic, "A-D") {
        Some("0000111")
    } else if is_text(mnemonic, "D&A") {
        Some("0000000")
    } else if is_text(mnemonic, "D|A") {
        Some("0010101")
    } else if is_text(mnemonic, "M") {
        Some("1110000")
    } else if is_text(mnemonic, "!M") {
        Some("1110001")
    } else if is_text(mnemonic, "-M") {
        Some("1110011")
    } else if is_text(mnemonic, "M+1") {
        Some("1110111")
    } else if is_text(mnemonic, "M-1") {
        Some("1110010")
    } else if is_text(mnemonic, "D+M") {
        Some("1000010")
    } else if is_text(mnemonic, "D-M") {
        Some("1010011")
    } else if is_text(mnemonic, "M-D") {
        Some("1000111")
    } else if is_text(mnemonic, "D&M") {
        Some("1000000")
    } else if is_text(mnemonic, "D|M") {
        Some("1010101")
    } else {
        None
    }
}

impl Code {
    /// The three bits of a destination mnemonic: which of A, D and M it
    /// names.
    pub fn dest(mnemonic: &str) -> (bits: &'static str)
        ensures
            bits@ == dest_bits(mnemonic@),
    {
        let m = chars_of(mnemonic);
        let d1 = holds(m.as_slice(), 'A');
        let d2 = holds(m.as_slice(), 'D');
        let d3 = holds(m.as_slice(), 'M');
        tribit_str(d1, d2, d3)
    }

    /// The seven bits of a computation mnemonic, or an error that names the
    /// mnemonic if the table has none for it.
    pub fn comp(mnemonic: &str) -> (r: Result<&'static str, String>)
        ensures
            match r {
                Ok(bits) => comp_bits(mnemonic@) == Some(bits@),
                Err(e) => comp_bits(mnemonic@) is None && e@ == unknown_mnemonic(mnemonic@),
            },
    {
        let m = chars_of(mnemonic);
        let c = canonical_of(m.as_slice());
        match lookup(c.as_slice()) {
            Some(bits) => Ok(bits),
            None => {
                proof {
                    lemma_canonical_is_known(mnemonic@);
                }
                Err(String::from_str("Unknown mnemonic: ").concat(mnemonic))
            },
        }
    }

    /// The three bits of a jump mnemonic.
    pub fn jump(mnemonic: &str) -> (bits: &'static str)
        ensures
            bits@ == jump_bits(mnemonic@),
    {
        let m = chars_of(mnemonic);
        if is_text(m.as_slice(), "JMP") {
            return tribit_str(true, true, true);
        }
        if is_text(m.as_slice(), "JNE") {
            return tribit_str(true, false, true);
        }
        let j1 = holds(m.as_slice(), 'L');
        let j2 = holds(m.as_slice(), 'E');
        let j3 = holds(m.as_slice(), 'G');
        tribit_str(j1, j2, j3)
    }
}

/// A mnemonic that the canonical order changes is in the table afterwards.
pub proof fn lemma_canonical_is_known(mnemonic: Seq<char>)
    ensures
        canonical(mnemonic) != mnemonic ==> comp_table(canonical(mnemonic)) is Some,
{
    reveal_strlit("A+D");
    reveal_strlit("A&D");
    reveal_strlit("A|D");
    reveal_strlit("M+D");
    reveal_strlit("M&D");
    reveal_strlit("M|D");
    reveal_strlit("D+A");
    reveal_strlit("D&A");
    reveal_strlit("D|A");
    reveal_strlit("D+M");
    reveal_strlit("D&M");
    reveal_strlit("D|M");
}

/// Every entry of the table of computations is seven binary digits.
pub proof fn lemma_comp_shape(mnemonic: Seq<char>)
    ensures
        comp_bits(mnemonic) matches Some(bits) ==> bits.len() == 7 && is_binary(bits),
{
    reveal_strlit("0101010");
    reveal_strlit("0111111");
    reveal_strlit("0111010");
    reveal_strlit("0001100");
    reveal_strlit("0110000");
    reveal_strlit("0001101");
    reveal_strlit("0110001");
    reveal_strlit("0001111");
    reveal_strlit("0110011");
    reveal_strlit("0011111");
    reveal_strlit("0110111");
    reveal_strlit("0001110");
    reveal_strlit("0110010");
    reveal_strlit("0000010");
    reveal_strlit("0010011");
    reveal_strlit("0000111");
    reveal_strlit("0000000");
    reveal_strlit("0010101");
    reveal_strlit("1110000");
    reveal_strlit("1110001");
    reveal_strlit("1110011");
    reveal_strlit("1110111");
    reveal_strlit("1110010");
    reveal_strlit("1000010");
    reveal_strlit("1010011");
    reveal_strlit("1000111");
    reveal_strlit("1000000");
    reveal_strlit("1010101");
}

/// Three flags are three binary digits, and stand for the number whose bits
/// they are.
pub proof fn lemma_tribit(b1: bool, b2: bool, b3: bool)
    ensures
        tribit(b1, b2, b3).len() == 3,
        is_binary(tribit(b1, b2, b3)),
        binary(tribit(b1, b2, b3)) == (if b1 {
            4nat
        } else {
            0nat
        }) + (if b2 {
            2nat
        } else {
            0nat
        }) + (if b3 {
            1nat
        } else {
            0nat
        }),
{
    let t = tribit(b1, b2, b3);
    assert(t.drop_last() =~= seq![flag(b1), flag(b2)]);
    assert(t.drop_last().drop_last() =~= seq![flag(b1)]);
    assert(t.drop_last().drop_last().drop_last() =~= Seq::<char>::empty());
    reveal_with_fuel(binary, 4);
}

/// A jump mnemonic that is neither `JMP` nor `JNE` and holds none of `L`,
/// `E` and `G` stands for no jump.
pub proof fn lemma_no_jump(mnemonic: Seq<char>)
    requires
        mnemonic != "JMP"@,
        mnemonic != "JNE"@,
        !mnemonic.contains('L'),
        !mnemonic.contains('E'),
        !mnemonic.contains('G'),
    ensures
        jump_bits(mnemonic) == seq!['0', '0', '0'],
{
}

} // verus!
