//! Character sequences: searching, trimming and cutting text.
//!
//! Every function here works on a slice of characters and is specified over
//! `Seq<char>`, the view that `str` and `String` have as well. Positions are
//! indices into the whole sequence, so that a search can resume where the
//! previous one stopped without copying the rest.

use vstd::prelude::*;

verus! {

/// The contract of std's `String::push`, which is taken on trust: the call
/// appends the character `c` to the string and leaves what the string held
/// before in place.
pub assume_specification[ String::push ](s: &mut String, c: char)
    ensures
        final(s)@ == old(s)@.push(c),
;

/// A set of characters, small enough to test membership by comparison.
#[derive(Clone, Copy, Debug)]
pub enum CharSet {
    /// The characters with Unicode's `White_Space` property.
    Whitespace,
    /// The decimal digits `0` to `9`.
    Digit,
    /// A single character.
    One(char),
    /// Either of two characters.
    Two(char, char),
    /// Any of three characters.
    Three(char, char, char),
    /// Any of four characters.
    Four(char, char, char, char),
}

/// Whether `c` has Unicode's `White_Space` property.
pub open spec fn is_whitespace(c: char) -> bool {
    let n = c as u32;
    ||| 0x09 <= n <= 0x0D
    ||| n == 0x20
    ||| n == 0x85
    ||| n == 0xA0
    ||| n == 0x1680
    ||| 0x2000 <= n <= 0x200A
    ||| n == 0x2028
    ||| n == 0x2029
    ||| n == 0x202F
    ||| n == 0x205F
    ||| n == 0x3000
}

/// Whether `c` is one of the decimal digits.
pub open spec fn is_digit(c: char) -> bool {
    '0' <= c <= '9'
}

impl CharSet {
    /// Whether `c` belongs to the set.
    pub open spec fn has(self, c: char) -> bool {
        match self {
            CharSet::Whitespace => is_whitespace(c),
            CharSet::Digit => is_digit(c),
            CharSet::One(a) => c == a,
            CharSet::Two(a, b) => c == a || c == b,
            CharSet::Three(a, b, d) => c == a || c == b || c == d,
            CharSet::Four(a, b, d, e) => c == a || c == b || c == d || c == e,
        }
    }

    /// Tests whether `c` belongs to the set.
    pub fn contains(self, c: char) -> (r: bool)
        ensures
            r == self.has(c),
    {
        match self {
            CharSet::Whitespace => {
                let n: u32 = c as u32;
                (0x09 <= n && n <= 0x0D) || n == 0x20 || n == 0x85 || n == 0xA0 || n == 0x1680 || (
                0x2000 <= n && n <= 0x200A) || n == 0x2028 || n == 0x2029 || n == 0x202F || n
                    == 0x205F || n == 0x3000
            },
            CharSet::Digit => '0' <= c && c <= '9',
            CharSet::One(a) => c == a,
            CharSet::Two(a, b) => c == a || c == b,
            CharSet::Three(a, b, d) => c == a || c == b || c == d,
            CharSet::Four(a, b, d, e) => c == a || c == b || c == d || c == e,
        }
    }
}

/// The position of the first character of `s` at or after `from` that belongs
/// to `set`, or the length of `s` if there is none.
pub open spec fn find(s: Seq<char>, set: CharSet, from: int) -> int
    decreases s.len() - from,
{
    if from >= s.len() {
        s.len() as int
    } else if set.has(s[from]) {
        from
    } else {
        find(s, set, from + 1)
    }
}

/// The position of the first character of `s` at or after `from` that does
/// not belong to `set`, or the length of `s` if there is none.
pub open spec fn skip(s: Seq<char>, set: CharSet, from: int) -> int
    decreases s.len() - from,
{
    if from >= s.len() {
        s.len() as int
    } else if !set.has(s[from]) {
        from
    } else {
        skip(s, set, from + 1)
    }
}

/// The position after the last character of `s` before `end` that does not
/// belong to `set`, or 0 if there is none: what is left of the first `end`
/// characters once the members of `set` are taken off their tail.
pub open spec fn skip_back(s: Seq<char>, set: CharSet, end: int) -> int
    decreases end,
{
    if end <= 0 {
        0
    } else if !set.has(s[end - 1]) {
        end
    } else {
        skip_back(s, set, end - 1)
    }
}

/// `find` returns the least position at or after `from` that holds a member
/// of `set`.
pub proof fn lemma_find(s: Seq<char>, set: CharSet, from: int)
    requires
        0 <= from <= s.len(),
    ensures
        from <= find(s, set, from) <= s.len(),
        forall|i: int| from <= i < find(s, set, from) ==> !set.has(#[trigger] s[i]),
        find(s, set, from) < s.len() ==> set.has(s[find(s, set, from)]),
    decreases s.len() - from,
{
    if from < s.len() && !set.has(s[from]) {
        lemma_find(s, set, from + 1);
    }
}

/// `skip` returns the least position at or after `from` that holds no member
/// of `set`.
pub proof fn lemma_skip(s: Seq<char>, set: CharSet, from: int)
    requires
        0 <= from <= s.len(),
    ensures
        from <= skip(s, set, from) <= s.len(),
        forall|i: int| from <= i < skip(s, set, from) ==> set.has(#[trigger] s[i]),
        skip(s, set, from) < s.len() ==> !set.has(s[skip(s, set, from)]),
    decreases s.len() - from,
{
    if from < s.len() && set.has(s[from]) {
        lemma_skip(s, set, from + 1);
    }
}

/// `skip_back` returns the greatest position up to `end` that no non-member
/// of `set` follows before `end`.
pub proof fn lemma_skip_back(s: Seq<char>, set: CharSet, end: int)
    requires
        0 <= end <= s.len(),
    ensures
        0 <= skip_back(s, set, end) <= end,
        forall|i: int| skip_back(s, set, end) <= i < end ==> set.has(#[trigger] s[i]),
        skip_back(s, set, end) > 0 ==> !set.has(s[skip_back(s, set, end) - 1]),
    decreases end,
{
    if end > 0 && set.has(s[end - 1]) {
        lemma_skip_back(s, set, end - 1);
    }
}

/// `s` without the members of `set` at its start.
pub open spec fn trim_start(s: Seq<char>, set: CharSet) -> Seq<char> {
    s.subrange(skip(s, set, 0), s.len() as int)
}

/// `s` without the members of `set` at its end.
pub open spec fn trim_end(s: Seq<char>, set: CharSet) -> Seq<char> {
    s.subrange(0, skip_back(s, set, s.len() as int))
}

/// `s` without the members of `set` at its start and at its end.
pub open spec fn trim(s: Seq<char>, set: CharSet) -> Seq<char> {
    let a = skip(s, set, 0);
    let b = skip_back(s, set, s.len() as int);
    if a < b {
        s.subrange(a, b)
    } else {
        Seq::empty()
    }
}

/// Whether the characters of `p` stand in `s` from position `at` on.
pub open spec fn has_at(s: Seq<char>, at: int, p: Seq<char>) -> bool {
    0 <= at && at + p.len() <= s.len() && s.subrange(at, at + p.len()) == p
}

/// The characters of a text.
pub fn chars_of(s: &str) -> (out: Vec<char>)
    ensures
        out@ == s@,
{
    let mut out: Vec<char> = Vec::new();
    for c in it: s.chars()
        invariant
            out@ == it.history(),
    {
        out.push(c);
    }
    out
}

/// The text made of the characters of `s`.
pub fn string_of(s: &[char]) -> (out: String)
    ensures
        out@ == s@,
{
    let mut out = String::new();
    let mut i: usize = 0;
    while i < s.len()
        invariant
            i <= s.len(),
            out@ == s@.take(i as int),
        decreases s.len() - i,
    {
        out.push(s[i]);
        proof {
            assert(s@.take(i + 1) =~= s@.take(i as int).push(s@[i as int]));
        }
        i += 1;
    }
    proof {
        assert(s@.take(s.len() as int) =~= s@);
    }
    out
}

/// Finds the first member of `set` in `s` at or after `from`.
pub fn find_in(s: &[char], set: CharSet, from: usize) -> (at: usize)
    requires
        from <= s.len(),
    ensures
        at == find(s@, set, from as int),
        from <= at <= s.len(),
        forall|i: int| from <= i < at ==> !set.has(#[trigger] s@[i]),
        at < s.len() ==> set.has(s@[at as int]),
{
    let mut i: usize = from;
    while i < s.len() && !set.contains(s[i])
        invariant
            from <= i <= s.len(),
            find(s@, set, i as int) == find(s@, set, from as int),
        decreases s.len() - i,
    {
        i += 1;
    }
    proof {
        lemma_find(s@, set, from as int);
    }
    i
}

/// Finds the first character of `s` at or after `from` that is no member of
/// `set`.
pub fn skip_in(s: &[char], set: CharSet, from: usize) -> (at: usize)
    requires
        from <= s.len(),
    ensures
        at == skip(s@, set, from as int),
        from <= at <= s.len(),
        forall|i: int| from <= i < at ==> set.has(#[trigger] s@[i]),
        at < s.len() ==> !set.has(s@[at as int]),
{
    let mut i: usize = from;
    while i < s.len() && set.contains(s[i])
        invariant
            from <= i <= s.len(),
            skip(s@, set, i as int) == skip(s@, set, from as int),
        decreases s.len() - i,
    {
        i += 1;
    }
    proof {
        lemma_skip(s@, set, from as int);
    }
    i
}

/// Finds the end of what is left of the first `end` characters of `s` once the
/// members of `set` are taken off their tail.
pub fn skip_back_in(s: &[char], set: CharSet, end: usize) -> (at: usize)
    requires
        end <= s.len(),
    ensures
        at == skip_back(s@, set, end as int),
        at <= end,
        forall|i: int| at <= i < end ==> set.has(#[trigger] s@[i]),
        at > 0 ==> !set.has(s@[at - 1]),
{
    let mut i: usize = end;
    while i > 0 && set.contains(s[i - 1])
        invariant
            i <= end <= s.len(),
            skip_back(s@, set, i as int) == skip_back(s@, set, end as int),
        decreases i,
    {
        i -= 1;
    }
    proof {
        lemma_skip_back(s@, set, end as int);
    }
    i
}

/// Copies the characters of `s` from position `from` up to `to`.
pub fn cut(s: &[char], from: usize, to: usize) -> (out: Vec<char>)
    requires
        from <= to <= s.len(),
    ensures
        out@ == s@.subrange(from as int, to as int),
{
    let mut out: Vec<char> = Vec::new();
    let mut i: usize = from;
    while i < to
        invariant
            from <= i <= to <= s.len(),
            out@ == s@.subrange(from as int, i as int),
        decreases to - i,
    {
        out.push(s[i]);
        proof {
            assert(s@.subrange(from as int, i + 1) =~= s@.subrange(from as int, i as int).push(
                s@[i as int],
            ));
        }
        i += 1;
    }
    out
}

/// Copies `s` without the members of `set` at its start and at its end.
pub fn trimmed(s: &[char], set: CharSet) -> (out: Vec<char>)
    ensures
        out@ == trim(s@, set),
{
    let a = skip_in(s, set, 0);
    let b = skip_back_in(s, set, s.len());
    if a < b {
        cut(s, a, b)
    } else {
        Vec::new()
    }
}

/// Tests whether the characters of `p` stand in `s` from position `at` on.
pub fn starts_at(s: &[char], at: usize, p: &str) -> (r: bool)
    requires
        at <= s.len(),
    ensures
        r == has_at(s@, at as int, p@),
{
    let want = chars_of(p);
    if want.len() > s.len() - at {
        return false;
    }
    let mut i: usize = 0;
    while i < want.len()
        invariant
            want@ == p@,
            at + want.len() <= s.len(),
            i <= want.len(),
            s@.subrange(at as int, at + i) == p@.take(i as int),
        decreases want.len() - i,
    {
        if s[at + i] != want[i] {
            proof {
                assert(s@.subrange(at as int, at + p@.len())[i as int] == s@[at + i]);
            }
            return false;
        }
        proof {
            assert(s@.subrange(at as int, at + i + 1) =~= s@.subrange(at as int, at + i).push(
                s@[at + i],
            ));
            assert(p@.take(i + 1) =~= p@.take(i as int).push(p@[i as int]));
        }
        i += 1;
    }
    proof {
        assert(p@.take(want.len() as int) =~= p@);
    }
    true
}

/// Tests whether `s` is the text `p`.
pub fn is_text(s: &[char], p: &str) -> (r: bool)
    ensures
        r == (s@ == p@),
{
    let want = chars_of(p);
    if want.len() != s.len() {
        return false;
    }
    let mut i: usize = 0;
    while i < want.len()
        invariant
            want@ == p@,
            want.len() == s.len(),
            i <= want.len(),
            s@.take(i as int) == p@.take(i as int),
        decreases want.len() - i,
    {
        if s[i] != want[i] {
            return false;
        }
        proof {
            assert(s@.take(i + 1) =~= s@.take(i as int).push(s@[i as int]));
            assert(p@.take(i + 1) =~= p@.take(i as int).push(p@[i as int]));
        }
        i += 1;
    }
    proof {
        assert(p@.take(want.len() as int) =~= p@);
        assert(s@.take(s.len() as int) =~= s@);
    }
    true
}

/// The position after the last character of `s` before `end` that belongs to
/// `set`, or 0 if there is none.
pub open spec fn find_back(s: Seq<char>, set: CharSet, end: int) -> int
    decreases end,
{
    if end <= 0 {
        0
    } else if set.has(s[end - 1]) {
        end
    } else {
        find_back(s, set, end - 1)
    }
}

/// `find_back` returns the greatest position up to `end` that a member of
/// `set` stands before, and no member stands between it and `end`.
pub proof fn lemma_find_back(s: Seq<char>, set: CharSet, end: int)
    requires
        0 <= end <= s.len(),
    ensures
        0 <= find_back(s, set, end) <= end,
        forall|i: int| find_back(s, set, end) <= i < end ==> !set.has(#[trigger] s[i]),
        find_back(s, set, end) > 0 ==> set.has(s[find_back(s, set, end) - 1]),
    decreases end,
{
    if end > 0 && !set.has(s[end - 1]) {
        lemma_find_back(s, set, end - 1);
    }
}

/// Finds the position after the last member of `set` in the first `end`
/// characters of `s`.
pub fn find_back_in(s: &[char], set: CharSet, end: usize) -> (at: usize)
    requires
        end <= s.len(),
    ensures
        at == find_back(s@, set, end as int),
        at <= end,
        forall|i: int| at <= i < end ==> !set.has(#[trigger] s@[i]),
        at > 0 ==> set.has(s@[at - 1]),
{
    let mut i: usize = end;
    while i > 0 && !set.contains(s[i - 1])
        invariant
            i <= end <= s.len(),
            find_back(s@, set, i as int) == find_back(s@, set, end as int),
        decreases i,
    {
        i -= 1;
    }
    proof {
        lemma_find_back(s@, set, end as int);
    }
    i
}

/// Tests whether `c` occurs in `s`.
pub fn holds(s: &[char], c: char) -> (r: bool)
    ensures
        r == s@.contains(c),
{
    let at = find_in(s, CharSet::One(c), 0);
    proof {
        lemma_find(s@, CharSet::One(c), 0);
    }
    at < s.len()
}

/// Appends the characters of `p` to `out`.
pub fn put(out: &mut Vec<char>, p: &str)
    ensures
        final(out)@ == old(out)@ + p@,
{
    let mut more = chars_of(p);
    out.append(&mut more);
}

/// Appends a copy of the characters of `p` to `out`.
pub fn put_chars(out: &mut Vec<char>, p: &[char])
    ensures
        final(out)@ == old(out)@ + p@,
{
    let mut i: usize = 0;
    while i < p.len()
        invariant
            i <= p.len(),
            out@ == old(out)@ + p@.take(i as int),
        decreases p.len() - i,
    {
        out.push(p[i]);
        proof {
            assert(p@.take(i + 1) =~= p@.take(i as int).push(p@[i as int]));
            assert(old(out)@ + p@.take(i + 1) =~= (old(out)@ + p@.take(i as int)).push(
                p@[i as int],
            ));
        }
        i += 1;
    }
    proof {
        assert(p@.take(p.len() as int) =~= p@);
    }
}

/// The position of the line break that ends the line that holds `from`, or
/// the length of `s` for the last line.
pub open spec fn line_end(s: Seq<char>, from: int) -> int {
    find(s, CharSet::One('\n'), from)
}

/// The position at which the line after the one that holds `from` starts.
pub open spec fn next_line(s: Seq<char>, from: int) -> int {
    if line_end(s, from) < s.len() {
        line_end(s, from) + 1
    } else {
        s.len() as int
    }
}

/// The line of `s` that starts at `from`, without the line break that ends
/// it and without a carriage return before that line break.
pub open spec fn line_at(s: Seq<char>, from: int) -> Seq<char> {
    let end = line_end(s, from);
    if from < end < s.len() && s[end - 1] == '\r' {
        s.subrange(from, end - 1)
    } else {
        s.subrange(from, end)
    }
}

/// The lines of `s` from the one that starts at `from` on. The last line
/// needs no line break, and an empty rest is no line.
pub open spec fn lines(s: Seq<char>, from: int) -> Seq<Seq<char>>
    decreases s.len() - from,
    when 0 <= from
    via lines_decreases
{
    if from >= s.len() {
        Seq::empty()
    } else {
        seq![line_at(s, from)] + lines(s, next_line(s, from))
    }
}

#[via_fn]
proof fn lines_decreases(s: Seq<char>, from: int) {
    if from < s.len() {
        lemma_find(s, CharSet::One('\n'), from);
    }
}

/// Reads the line of `s` that starts at `from`, and finds where the next
/// line starts.
pub fn read_line(s: &[char], from: usize) -> (r: (Vec<char>, usize))
    requires
        from < s.len(),
    ensures
        r.0@ == line_at(s@, from as int),
        r.1 == next_line(s@, from as int),
        from < r.1 <= s.len(),
{
    let end = find_in(s, CharSet::One('\n'), from);
    if end < s.len() {
        if from < end && s[end - 1] == '\r' {
            (cut(s, from, end - 1), end + 1)
        } else {
            (cut(s, from, end), end + 1)
        }
    } else {
        (cut(s, from, end), end)
    }
}

/// The views of the elements of `v`, in order.
pub open spec fn views<T: View>(v: Seq<T>) -> Seq<T::V> {
    v.map_values(|x: T| x@)
}

/// The pieces of `s` from `from` on that the members of `set` part. There
/// is one piece more than there are members, and a piece may be empty.
pub open spec fn pieces(s: Seq<char>, set: CharSet, from: int) -> Seq<Seq<char>>
    decreases s.len() - from,
    when 0 <= from <= s.len()
    via pieces_decreases
{
    let end = find(s, set, from);
    if end >= s.len() {
        seq![s.subrange(from, s.len() as int)]
    } else {
        seq![s.subrange(from, end)] + pieces(s, set, end + 1)
    }
}

#[via_fn]
proof fn pieces_decreases(s: Seq<char>, set: CharSet, from: int) {
    lemma_find(s, set, from);
}

/// The tokens of `s` from `from` on: the longest runs of characters that are
/// no members of `set`.
pub open spec fn tokens(s: Seq<char>, set: CharSet, from: int) -> Seq<Seq<char>>
    decreases s.len() - from,
    when 0 <= from <= s.len()
    via tokens_decreases
{
    let start = skip(s, set, from);
    if start >= s.len() {
        Seq::empty()
    } else {
        seq![s.subrange(start, find(s, set, start))] + tokens(s, set, find(s, set, start))
    }
}

#[via_fn]
proof fn tokens_decreases(s: Seq<char>, set: CharSet, from: int) {
    lemma_skip(s, set, from);
    let start = skip(s, set, from);
    if start < s.len() {
        lemma_find(s, set, start + 1);
    }
}

/// Cuts `s` into the pieces that the members of `set` part.
pub fn split(s: &[char], set: CharSet) -> (out: Vec<Vec<char>>)
    ensures
        views(out@) == pieces(s@, set, 0),
        out@.len() >= 1,
{
    let mut out: Vec<Vec<char>> = Vec::new();
    let mut from: usize = 0;
    loop
        invariant
            from <= s.len(),
            pieces(s@, set, 0) == views(out@) + pieces(s@, set, from as int),
        decreases s.len() - from,
    {
        let end = find_in(s, set, from);
        let piece = cut(s, from, end);
        proof {
            assert(views(out@.push(piece)) =~= views(out@).push(piece@));
            assert(views(out@) + (seq![piece@] + pieces(s@, set, end + 1)) =~= views(out@).push(
                piece@,
            ) + pieces(s@, set, end + 1));
            assert(views(out@) + seq![piece@] =~= views(out@).push(piece@));
        }
        out.push(piece);
        if end >= s.len() {
            return out;
        }
        from = end + 1;
    }
}

/// Cuts `s` into its tokens: the longest runs of characters that are no
/// members of `set`.
pub fn split_tokens(s: &[char], set: CharSet) -> (out: Vec<Vec<char>>)
    ensures
        views(out@) == tokens(s@, set, 0),
{
    let mut out: Vec<Vec<char>> = Vec::new();
    let mut from: usize = 0;
    loop
        invariant
            from <= s.len(),
            tokens(s@, set, 0) == views(out@) + tokens(s@, set, from as int),
        decreases s.len() - from,
    {
        let start = skip_in(s, set, from);
        if start >= s.len() {
            proof {
                assert(views(out@) + tokens(s@, set, from as int) =~= views(out@));
            }
            return out;
        }
        let end = find_in(s, set, start);
        proof {
            lemma_skip(s@, set, from as int);
            lemma_find(s@, set, start + 1);
        }
        let piece = cut(s, start, end);
        proof {
            assert(views(out@.push(piece)) =~= views(out@).push(piece@));
            assert(views(out@) + (seq![piece@] + tokens(s@, set, end as int)) =~= views(out@).push(
                piece@,
            ) + tokens(s@, set, end as int));
        }
        out.push(piece);
        from = end;
    }
}

/// Cuts `s` into its lines.
pub fn all_lines(s: &[char]) -> (out: Vec<Vec<char>>)
    ensures
        views(out@) == lines(s@, 0),
{
    let mut out: Vec<Vec<char>> = Vec::new();
    let mut from: usize = 0;
    while from < s.len()
        invariant
            from <= s.len(),
            lines(s@, 0) == views(out@) + lines(s@, from as int),
        decreases s.len() - from,
    {
        let (line, next) = read_line(s, from);
        proof {
            assert(views(out@.push(line)) =~= views(out@).push(line@));
            assert(views(out@) + (seq![line@] + lines(s@, next as int)) =~= views(out@).push(
                line@,
            ) + lines(s@, next as int));
        }
        out.push(line);
        from = next;
    }
    proof {
        assert(views(out@) + lines(s@, from as int) =~= views(out@));
    }
    out
}

/// Tests whether two runs of characters are the same.
pub fn equal(a: &[char], b: &[char]) -> (r: bool)
    ensures
        r == (a@ == b@),
{
    if a.len() != b.len() {
        return false;
    }
    let mut i: usize = 0;
    while i < a.len()
        invariant
            a.len() == b.len(),
            i <= a.len(),
            forall|j: int| 0 <= j < i ==> a@[j] == b@[j],
        decreases a.len() - i,
    {
        if a[i] != b[i] {
            return false;
        }
        i += 1;
    }
    proof {
        assert(a@ =~= b@);
    }
    true
}

/// Whether `s` ends with the characters of `p`.
pub open spec fn ends_with(s: Seq<char>, p: Seq<char>) -> bool {
    s.len() >= p.len() && s.subrange(s.len() - p.len(), s.len() as int) == p
}

/// Tests whether `s` ends with the characters of `p`.
pub fn has_suffix(s: &[char], p: &str) -> (r: bool)
    ensures
        r == ends_with(s@, p@),
{
    let size = p.unicode_len();
    if size > s.len() {
        return false;
    }
    starts_at(s, s.len() - size, p)
}

/// A search passes over characters that are no members of the set.
pub proof fn lemma_find_passes(s: Seq<char>, set: CharSet, from: int, to: int)
    requires
        0 <= from <= to <= s.len(),
        forall|i: int| from <= i < to ==> !set.has(#[trigger] s[i]),
    ensures
        find(s, set, from) == find(s, set, to),
    decreases to - from,
{
    if from < to {
        lemma_find_passes(s, set, from + 1, to);
    }
}

/// Joins a text, a run of characters and another text.
pub fn join(before: &str, middle: &[char], after: &str) -> (out: String)
    ensures
        out@ == before@ + middle@ + after@,
{
    let mut out = chars_of(before);
    put_chars(&mut out, middle);
    put(&mut out, after);
    string_of(out.as_slice())
}

/// Joins a text and a run of characters.
pub fn tell(before: &str, rest: &[char]) -> (out: String)
    ensures
        out@ == before@ + rest@,
{
    let mut out = chars_of(before);
    put_chars(&mut out, rest);
    string_of(out.as_slice())
}

} // verus!
