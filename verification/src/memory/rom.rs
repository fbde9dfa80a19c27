//! The program memory and its loader.

use super::{Word, ROM_SIZE};
use crate::numeral::{all_binary, binary, is_binary, read_bits};
use crate::text::{chars_of, cut, lines, read_line, skip_back_in, trim_end, CharSet};
use vstd::prelude::*;

verus! {

/// The program memory: `ROM_SIZE` words, fixed once a program is loaded.
pub struct Rom([Word; ROM_SIZE]);

impl View for Rom {
    type V = Seq<Word>;

    closed spec fn view(&self) -> Seq<Word> {
        self.0@
    }
}

/// Whether a line of a program text is an instruction: 16 binary digits.
pub open spec fn is_instruction(line: Seq<char>) -> bool {
    line.len() == 16 && is_binary(line)
}

/// The words of those of the lines `text` that are instructions, in order.
pub open spec fn words_of(text: Seq<Seq<char>>) -> Seq<Word>
    decreases text.len(),
{
    if text.len() == 0 {
        Seq::empty()
    } else if is_instruction(text.last()) {
        words_of(text.drop_last()).push(binary(text.last()) as Word)
    } else {
        words_of(text.drop_last())
    }
}

/// The program that a text holds: the words of its lines of 16 binary
/// digits. Whitespace at the end of the text does not count, and any other
/// line is passed over.
pub open spec fn program(s: Seq<char>) -> Seq<Word> {
    words_of(lines(trim_end(s, CharSet::Whitespace), 0))
}

/// The message for a program of more than `ROM_SIZE` instructions.
pub open spec fn too_large() -> Seq<char> {
    "ROM cannot fit program: 32768 is the maximum instruction count"@
}

/// A program in memory: its words, then zeros up to `ROM_SIZE`.
pub open spec fn loaded(words: Seq<Word>) -> Seq<Word> {
    Seq::new(
        ROM_SIZE as nat,
        |i: int|
            if i < words.len() {
                words[i]
            } else {
                0u16
            },
    )
}

/// There are no more words than lines.
pub proof fn lemma_words_of_len(text: Seq<Seq<char>>)
    ensures
        words_of(text).len() <= text.len(),
    decreases text.len(),
{
    if text.len() > 0 {
        lemma_words_of_len(text.drop_last());
    }
}

/// The words of two runs of lines are the words of the first, then those
/// of the second.
pub proof fn lemma_words_of_concat(a: Seq<Seq<char>>, b: Seq<Seq<char>>)
    ensures
        words_of(a + b) == words_of(a) + words_of(b),
    decreases b.len(),
{
    if b.len() == 0 {
        assert(a + b =~= a);
        assert(words_of(a) + words_of(b) =~= words_of(a));
    } else {
        lemma_words_of_concat(a, b.drop_last());
        assert((a + b).drop_last() =~= a + b.drop_last());
        assert((a + b).last() == b.last());
        if is_instruction(b.last()) {
            let word = binary(b.last()) as Word;
            assert(words_of(a) + words_of(b.drop_last()).push(word) =~= (words_of(a) + words_of(
                b.drop_last(),
            )).push(word));
        }
    }
}

impl Rom {
    /// A memory without a program: zeros.
    pub fn zeroed() -> (rom: Rom)
        ensures
            rom@ == loaded(Seq::empty()),
    {
        let rom = Rom([0u16;ROM_SIZE]);
        assert(rom@ =~= loaded(Seq::empty()));
        rom
    }

    /// Loads the program that the text `s` holds. Fails if it has more than
    /// `ROM_SIZE` instructions.
    pub fn from_str(s: &str) -> (r: Result<Rom, String>)
        ensures
            match r {
                Ok(rom) => program(s@).len() <= ROM_SIZE && rom@ == loaded(program(s@)),
                Err(e) => program(s@).len() > ROM_SIZE && e@ == too_large(),
            },
    {
        let all = chars_of(s);
        let end = skip_back_in(all.as_slice(), CharSet::Whitespace, all.len());
        let text = cut(all.as_slice(), 0, end);
        let mut words = [0u16;ROM_SIZE];
        let mut count: usize = 0;
        let mut at: usize = 0;
        let ghost mut done: Seq<Seq<char>> = Seq::empty();
        while at < text.len()
            invariant
                at <= text.len(),
                text@ == trim_end(s@, CharSet::Whitespace),
                lines(text@, 0) == done + lines(text@, at as int),
                count == words_of(done).len(),
                done.len() <= at,
                forall|i: int|
                    0 <= i < ROM_SIZE ==> words@[i] == if i < count {
                        words_of(done)[i]
                    } else {
                        0u16
                    },
            decreases text.len() - at,
        {
            let (line, next) = read_line(text.as_slice(), at);
            proof {
                assert(done.push(line@).drop_last() =~= done);
                assert(done + (seq![line@] + lines(text@, next as int)) =~= done.push(line@)
                    + lines(text@, next as int));
                lemma_words_of_len(done);
                done = done.push(line@);
            }
            if line.len() == 16 && all_binary(line.as_slice()) {
                let word = read_bits(line.as_slice());
                if count < ROM_SIZE {
                    words[count] = word;
                }
                count += 1;
            }
            at = next;
        }
        proof {
            assert(done + lines(text@, at as int) =~= done);
        }
        if count > ROM_SIZE {
            Err(String::from_str("ROM cannot fit program: 32768 is the maximum instruction count"))
        } else {
            let rom = Rom(words);
            assert(rom@ =~= loaded(program(s@)));
            Ok(rom)
        }
    }

    /// The memory always has `ROM_SIZE` words.
    pub proof fn lemma_len(&self)
        ensures
            self@.len() == ROM_SIZE,
    {
    }

    /// The word at `address`.
    pub fn get(&self, address: usize) -> (word: Word)
        requires
            address < ROM_SIZE,
        ensures
            word == self@[address as int],
    {
        self.0[address]
    }
}

impl std::ops::Deref for Rom {
    type Target = [Word];

    /// The memory as a slice of its words.
    fn deref(&self) -> (words: &[Word])
        ensures
            words@ == self@,
    {
        self.0.as_slice()
    }
}

} // verus!
