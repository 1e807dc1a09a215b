//! Text as sequences of Unicode scalar values: UTF-16 widths, lines, and the
//! few string operations that the rest of the library is built from.

use vstd::prelude::*;
use vstd::string::StringSliceAdditionalSpecFns;
use vstd::utf8::encode_utf8_decode_utf8;

verus! {

// ---------------------------------------------------------------------------
// Trusted facts about the standard library
// ---------------------------------------------------------------------------

/// `String::push` appends one character.
pub assume_specification[ String::push ](s: &mut String, c: char)
    ensures
        final(s)@ == old(s)@.push(c),
;

/// `Vec::len` of a vector of characters.
///
/// Besides the length itself this states the allocation limit that the
/// standard library documents: a vector never holds more than `isize::MAX`
/// bytes (growing past that panics), and a `char` takes four of them.
#[verifier::external_body]
pub(crate) fn char_count(chars: &Vec<char>) -> (n: usize)
    ensures
        n == chars@.len(),
        n <= max_chars(),
{
    chars.len()
}

/// The largest number of characters that one allocation can hold.
pub open spec fn max_chars() -> int {
    isize::MAX as int / 4
}

// ---------------------------------------------------------------------------
// UTF-16 lengths
// ---------------------------------------------------------------------------

/// How many UTF-16 code units encode `c`.
pub open spec fn utf16_width(c: char) -> nat {
    if (c as u32) < 0x10000 {
        1
    } else {
        2
    }
}

/// How many UTF-16 code units encode `s`.
pub open spec fn utf16_len(s: Seq<char>) -> nat
    decreases s.len(),
{
    if s.len() == 0 {
        0
    } else {
        utf16_len(s.drop_last()) + utf16_width(s.last())
    }
}

pub fn char_utf16_width(c: char) -> (w: usize)
    ensures
        w == utf16_width(c),
{
    if (c as u32) < 0x10000 {
        1
    } else {
        2
    }
}

pub proof fn lemma_utf16_len_bounds(s: Seq<char>)
    ensures
        s.len() <= utf16_len(s) <= 2 * s.len(),
    decreases s.len(),
{
    if s.len() > 0 {
        lemma_utf16_len_bounds(s.drop_last());
    }
}

/// The offset reached from `from` by walking right until at least `units`
/// UTF-16 code units are passed, but not beyond `end`.
pub open spec fn walk_units(s: Seq<char>, from: int, end: int, units: int) -> int
    decreases end - from,
{
    if from >= end || units <= 0 {
        from
    } else {
        walk_units(s, from + 1, end, units - utf16_width(s[from]))
    }
}

/// Walking over exactly the width of a stretch ends at the end of the stretch.
pub proof fn lemma_walk_units_exact(s: Seq<char>, from: int, to: int, end: int)
    requires
        0 <= from <= to <= end <= s.len(),
    ensures
        walk_units(s, from, end, utf16_len(s.subrange(from, to)) as int) == to,
    decreases to - from,
{
    let part = s.subrange(from, to);
    if from < to {
        lemma_utf16_len_first(part);
        assert(part.drop_first() =~= s.subrange(from + 1, to));
        lemma_utf16_len_bounds(part.drop_first());
        lemma_walk_units_exact(s, from + 1, to, end);
    } else {
        assert(part.len() == 0);
    }
}

pub proof fn lemma_utf16_len_first(s: Seq<char>)
    requires
        s.len() > 0,
    ensures
        utf16_len(s) == utf16_width(s[0]) + utf16_len(s.drop_first()),
    decreases s.len(),
{
    if s.len() == 1 {
        assert(utf16_len(s.drop_first()) == 0);
        assert(utf16_len(s.drop_last()) == 0);
    } else {
        lemma_utf16_len_first(s.drop_last());
        assert(s.drop_last().drop_first() =~= s.drop_first().drop_last());
        assert(s.drop_first().last() == s.last());
        assert(s.drop_last()[0] == s[0]);
    }
}

/// Walks right from `from`, as `walk_units` describes.
pub fn walk(chars: &[char], from: usize, end: usize, units: usize) -> (r: usize)
    requires
        from <= end <= chars@.len(),
    ensures
        r == walk_units(chars@, from as int, end as int, units as int),
        from <= r <= end,
{
    let mut at: usize = from;
    let mut left: usize = units;
    while at < end && left > 0
        invariant
            from <= at <= end <= chars@.len(),
            walk_units(chars@, at as int, end as int, left as int) == walk_units(
                chars@,
                from as int,
                end as int,
                units as int,
            ),
        decreases end - at,
    {
        let w = char_utf16_width(chars[at]);
        let ghost before = left as int;
        if w < left {
            left = left - w;
        } else {
            left = 0;
        }
        proof {
            reveal_with_fuel(walk_units, 2);
            // Both a zero and a negative rest end the walk.
            if before - utf16_width(chars@[at as int]) <= 0 {
                assert(walk_units(
                    chars@,
                    at + 1,
                    end as int,
                    before - utf16_width(chars@[at as int]),
                ) == at + 1);
            }
        }
        at = at + 1;
    }
    at
}

/// Number of UTF-16 units in `chars[from..to]`.
pub fn units_between(chars: &Vec<char>, from: usize, to: usize) -> (r: usize)
    requires
        from <= to <= chars@.len(),
    ensures
        r == utf16_len(chars@.subrange(from as int, to as int)),
{
    let n = char_count(chars);
    let mut at: usize = from;
    let mut sum: usize = 0;
    while at < to
        invariant
            from <= at <= to <= chars@.len(),
            chars@.len() <= max_chars(),
            sum == utf16_len(chars@.subrange(from as int, at as int)),
            sum <= 2 * (at - from),
        decreases to - at,
    {
        sum = sum + char_utf16_width(chars[at]);
        proof {
            let next = chars@.subrange(from as int, at + 1);
            assert(next.drop_last() =~= chars@.subrange(from as int, at as int));
        }
        at = at + 1;
    }
    sum
}

// ---------------------------------------------------------------------------
// Lines
// ---------------------------------------------------------------------------

/// `s` cut at every `'\n'`; the line breaks themselves are dropped.
pub open spec fn split_lines(s: Seq<char>) -> Seq<Seq<char>>
    decreases s.len(),
{
    if s.len() == 0 {
        seq![Seq::<char>::empty()]
    } else {
        let before = split_lines(s.drop_last());
        if s.last() == '\n' {
            before.push(Seq::empty())
        } else {
            before.drop_last().push(before.last().push(s.last()))
        }
    }
}

/// Lines put back together with a `'\n'` between each two of them.
pub open spec fn join_lines(lines: Seq<Seq<char>>) -> Seq<char>
    decreases lines.len(),
{
    if lines.len() == 0 {
        Seq::empty()
    } else if lines.len() == 1 {
        lines[0]
    } else {
        join_lines(lines.drop_last()).push('\n') + lines.last()
    }
}

pub open spec fn newlines(s: Seq<char>) -> nat
    decreases s.len(),
{
    if s.len() == 0 {
        0
    } else if s.last() == '\n' {
        newlines(s.drop_last()) + 1
    } else {
        newlines(s.drop_last())
    }
}

/// Offset of the first character of every line of `s`.
pub open spec fn line_starts(s: Seq<char>) -> Seq<int>
    decreases s.len(),
{
    if s.len() == 0 {
        seq![0int]
    } else if s.last() == '\n' {
        line_starts(s.drop_last()).push(s.len() as int)
    } else {
        line_starts(s.drop_last())
    }
}

/// Offset of the first `'\n'` at or after `from`, or the end of the text.
pub open spec fn line_end(s: Seq<char>, from: int) -> int
    decreases s.len() - from,
{
    if from >= s.len() || s[from] == '\n' {
        from
    } else {
        line_end(s, from + 1)
    }
}

pub proof fn lemma_split_lines(s: Seq<char>)
    ensures
        split_lines(s).len() == newlines(s) + 1,
        join_lines(split_lines(s)) == s,
        forall|i: int| 0 <= i < split_lines(s).len() ==> (#[trigger] split_lines(s)[i]).len()
            <= s.len(),
        forall|i: int, j: int|
            0 <= i < split_lines(s).len() && 0 <= j < split_lines(s)[i].len()
                ==> #[trigger] split_lines(s)[i][j] != '\n',
    decreases s.len(),
{
    if s.len() > 0 {
        let init = s.drop_last();
        lemma_split_lines(init);
        let before = split_lines(init);
        if s.last() == '\n' {
            assert(split_lines(s).drop_last() =~= before);
            assert(join_lines(split_lines(s)) =~= s);
        } else {
            let lines = split_lines(s);
            assert(lines.drop_last() =~= before.drop_last());
            if lines.len() == 1 {
                assert(join_lines(lines) =~= s);
            } else {
                let head = join_lines(before.drop_last()).push('\n');
                assert(head + before.last() == init);
                assert(join_lines(lines) == head + lines.last());
                assert(head + before.last().push(s.last()) =~= (head + before.last()).push(
                    s.last(),
                ));
                assert(init.push(s.last()) =~= s);
            }
        }
    }
}

pub proof fn lemma_line_starts(s: Seq<char>)
    ensures
        line_starts(s).len() == newlines(s) + 1,
        line_starts(s)[0] == 0,
        forall|i: int| 0 <= i < line_starts(s).len() ==> 0 <= #[trigger] line_starts(s)[i]
            <= s.len(),
        forall|i: int, j: int|
            0 <= i < j < line_starts(s).len() ==> line_starts(s)[i] < line_starts(s)[j],
    decreases s.len(),
{
    if s.len() > 0 {
        lemma_line_starts(s.drop_last());
    }
}

/// The line starts of a prefix are the first line starts of the whole.
pub proof fn lemma_line_starts_prefix(s: Seq<char>, o: int)
    requires
        0 <= o <= s.len(),
    ensures
        newlines(s.take(o)) < line_starts(s).len(),
        line_starts(s).take(newlines(s.take(o)) as int + 1) == line_starts(s.take(o)),
        forall|i: int|
            newlines(s.take(o)) < i < line_starts(s).len() ==> o < #[trigger] line_starts(s)[i],
    decreases s.len() - o,
{
    lemma_line_starts(s);
    lemma_line_starts(s.take(o));
    if o == s.len() {
        assert(s.take(o) =~= s);
        assert(line_starts(s).take(newlines(s.take(o)) as int + 1) =~= line_starts(s));
    } else {
        lemma_line_starts_prefix(s, o + 1);
        let more = s.take(o + 1);
        assert(more.drop_last() =~= s.take(o));
        lemma_line_starts(more);
        let n = newlines(s.take(o)) as int;
        if more.last() == '\n' {
            assert(line_starts(more) == line_starts(s.take(o)).push(o + 1));
            assert(line_starts(s).take(n + 1) =~= line_starts(s.take(o))) by {
                assert forall|i: int| 0 <= i < n + 1 implies line_starts(s)[i] == line_starts(
                    s.take(o),
                )[i] by {
                    assert(line_starts(s).take(n + 2)[i] == line_starts(more)[i]);
                }
            }
            assert(line_starts(s)[n + 1] == line_starts(s).take(n + 2)[n + 1]);
        }
    }
}

/// Between the start of the line that holds `o` and `o` there is no line break.
pub proof fn lemma_line_end_after(s: Seq<char>, o: int)
    requires
        0 <= o <= s.len(),
    ensures
        0 <= line_starts(s.take(o)).last() <= o,
        o <= line_end(s, line_starts(s.take(o)).last()) <= s.len(),
    decreases o,
{
    lemma_line_starts(s.take(o));
    if o == 0 {
        lemma_line_end_range(s, 0);
    } else {
        let init = s.take(o - 1);
        assert(s.take(o).drop_last() =~= init);
        lemma_line_end_after(s, o - 1);
        if s[o - 1] == '\n' {
            lemma_line_end_range(s, o);
        } else {
            lemma_line_end_step(s, line_starts(init).last(), o - 1);
        }
    }
}

proof fn lemma_line_end_step(s: Seq<char>, from: int, at: int)
    requires
        0 <= from <= at < s.len(),
        at <= line_end(s, from),
        s[at] != '\n',
    ensures
        at < line_end(s, from) <= s.len(),
    decreases at - from,
{
    lemma_line_end_range(s, from);
    if from < at {
        lemma_line_end_step(s, from + 1, at);
    } else {
        lemma_line_end_range(s, from + 1);
    }
}

pub proof fn lemma_line_end_range(s: Seq<char>, from: int)
    requires
        0 <= from <= s.len(),
    ensures
        from <= line_end(s, from) <= s.len(),
    decreases s.len() - from,
{
    if from < s.len() && s[from] != '\n' {
        lemma_line_end_range(s, from + 1);
    }
}

/// The lines of a vector of vectors, as sequences.
pub open spec fn lines_view(lines: Seq<Vec<char>>) -> Seq<Seq<char>> {
    lines.map_values(|line: Vec<char>| line@)
}

// ---------------------------------------------------------------------------
// Strings
// ---------------------------------------------------------------------------

/// The characters of a string.
pub fn chars_of(s: &str) -> (r: Vec<char>)
    ensures
        r@ == s@,
{
    let mut out: Vec<char> = Vec::new();
    for c in it: s.chars()
        invariant
            it.seq() == s@,
            out@ == it.seq().take(it.index()),
    {
        out.push(c);
    }
    assert(out@ =~= s@);
    out
}

/// The string with the given characters.
pub fn string_of(chars: &[char]) -> (r: String)
    ensures
        r@ == chars@,
{
    let mut out = String::new();
    let mut i: usize = 0;
    while i < chars.len()
        invariant
            i <= chars@.len(),
            out@ == chars@.take(i as int),
        decreases chars@.len() - i,
    {
        out.push(chars[i]);
        proof {
            assert(chars@.take(i + 1) =~= chars@.take(i as int).push(chars@[i as int]));
        }
        i = i + 1;
    }
    assert(chars@.take(i as int) =~= chars@);
    out
}

/// Cuts a text at every `'\n'`.
pub fn split(text: &str) -> (r: Vec<Vec<char>>)
    ensures
        lines_view(r@) == split_lines(text@),
        text@.len() <= max_chars(),
        forall|k: int| 0 <= k < r@.len() ==> (#[trigger] r@[k])@.len() <= max_chars(),
{
    let chars = chars_of(text);
    let count = char_count(&chars);
    let mut lines: Vec<Vec<char>> = Vec::new();
    let mut line: Vec<char> = Vec::new();
    let mut i: usize = 0;
    assert(lines_view(lines@).push(line@) =~= split_lines(chars@.take(0)));
    while i < count
        invariant
            i <= count == chars@.len(),
            lines_view(lines@).push(line@) == split_lines(chars@.take(i as int)),
        decreases count - i,
    {
        let ghost before = lines_view(lines@);
        let ghost started = line@;
        proof {
            assert(chars@.take(i + 1).drop_last() =~= chars@.take(i as int));
            assert(before.push(started).drop_last() =~= before);
        }
        if chars[i] == '\n' {
            lines.push(line);
            line = Vec::new();
            assert(lines_view(lines@) =~= before.push(started));
        } else {
            line.push(chars[i]);
        }
        i = i + 1;
    }
    let ghost before = lines_view(lines@);
    let ghost started = line@;
    lines.push(line);
    proof {
        assert(chars@.take(i as int) =~= chars@);
        assert(lines_view(lines@) =~= before.push(started));
        lemma_split_lines(chars@);
        assert forall|k: int| 0 <= k < lines@.len() implies (#[trigger] lines@[k])@.len()
            <= max_chars() by {
            assert(split_lines(chars@)[k] == lines@[k]@);
        }
    }
    lines
}

/// The lines from `from` to `to`, put back together.
pub fn join(lines: &Vec<Vec<char>>, from: usize, to: usize) -> (r: String)
    requires
        from <= to <= lines@.len(),
    ensures
        r@ == join_lines(lines_view(lines@).subrange(from as int, to as int)),
{
    let ghost all = lines_view(lines@);
    let mut out = String::new();
    let mut i: usize = from;
    while i < to
        invariant
            from <= i <= to <= lines@.len(),
            all == lines_view(lines@),
            out@ == join_lines(all.subrange(from as int, i as int)),
        decreases to - i,
    {
        proof {
            assert(all.subrange(from as int, i + 1).drop_last() =~= all.subrange(
                from as int,
                i as int,
            ));
        }
        if i > from {
            out.push('\n');
        }
        let line = string_of(lines[i].as_slice());
        out.append(line.as_str());
        i = i + 1;
    }
    out
}

/// Whether two strings have the same characters.
pub fn same_text(a: &str, b: &str) -> (r: bool)
    ensures
        r == (a@ == b@),
{
    let x = a.as_bytes();
    let y = b.as_bytes();
    if x.len() != y.len() {
        return false;
    }
    let mut i: usize = 0;
    while i < x.len()
        invariant
            i <= x@.len() == y@.len(),
            x@ == a.spec_bytes(),
            y@ == b.spec_bytes(),
            forall|k: int| 0 <= k < i ==> x@[k] == y@[k],
        decreases x@.len() - i,
    {
        if x[i] != y[i] {
            return false;
        }
        i = i + 1;
    }
    proof {
        assert(x@ =~= y@);
        encode_utf8_decode_utf8(a@);
        encode_utf8_decode_utf8(b@);
    }
    true
}

/// Whether `s` starts with `prefix`.
pub fn has_prefix(s: &str, prefix: &str) -> (r: bool)
    ensures
        r == prefix@.is_prefix_of(s@),
{
    let chars = chars_of(s);
    let wanted = chars_of(prefix);
    if wanted.len() > chars.len() {
        return false;
    }
    let mut i: usize = 0;
    while i < wanted.len()
        invariant
            i <= wanted@.len() <= chars@.len(),
            wanted@ == prefix@,
            chars@ == s@,
            forall|k: int| 0 <= k < i ==> wanted@[k] == chars@[k],
        decreases wanted@.len() - i,
    {
        if wanted[i] != chars[i] {
            assert(chars@.subrange(0, wanted@.len() as int)[i as int] == chars@[i as int]);
            return false;
        }
        i = i + 1;
    }
    assert(wanted@ =~= chars@.subrange(0, wanted@.len() as int));
    true
}

// ---------------------------------------------------------------------------
// White space
// ---------------------------------------------------------------------------

/// The characters with the Unicode property `White_Space`.
pub open spec fn white_space(c: char) -> bool {
    ||| '\u{9}' <= c <= '\u{d}'
    ||| c == ' '
    ||| c == '\u{85}'
    ||| c == '\u{a0}'
    ||| c == '\u{1680}'
    ||| '\u{2000}' <= c <= '\u{200a}'
    ||| c == '\u{2028}'
    ||| c == '\u{2029}'
    ||| c == '\u{202f}'
    ||| c == '\u{205f}'
    ||| c == '\u{3000}'
}

pub fn is_white_space(c: char) -> (r: bool)
    ensures
        r == white_space(c),
{
    ('\u{9}' <= c && c <= '\u{d}') || c == ' ' || c == '\u{85}' || c == '\u{a0}' || c
        == '\u{1680}' || ('\u{2000}' <= c && c <= '\u{200a}') || c == '\u{2028}' || c
        == '\u{2029}' || c == '\u{202f}' || c == '\u{205f}' || c == '\u{3000}'
}

/// The text without the white space in front of it.
pub open spec fn trim_start(s: Seq<char>) -> Seq<char>
    decreases s.len(),
{
    if s.len() > 0 && white_space(s[0]) {
        trim_start(s.skip(1))
    } else {
        s
    }
}

/// The text without the white space behind it.
pub open spec fn trim_end(s: Seq<char>) -> Seq<char>
    decreases s.len(),
{
    if s.len() > 0 && white_space(s.last()) {
        trim_end(s.drop_last())
    } else {
        s
    }
}

/// The text without the white space around it.
pub open spec fn trimmed(s: Seq<char>) -> Seq<char> {
    trim_end(trim_start(s))
}

pub proof fn lemma_trimmed(s: Seq<char>)
    ensures
        trimmed(s).len() > 0 ==> !white_space(trimmed(s)[0]) && !white_space(trimmed(s).last()),
{
    lemma_trim_start(s);
    lemma_trim_end(trim_start(s));
}

proof fn lemma_trim_start(s: Seq<char>)
    ensures
        trim_start(s).len() > 0 ==> !white_space(trim_start(s)[0]),
    decreases s.len(),
{
    if s.len() > 0 && white_space(s[0]) {
        lemma_trim_start(s.skip(1));
    }
}

proof fn lemma_trim_end(s: Seq<char>)
    ensures
        trim_end(s).is_prefix_of(s),
        trim_end(s).len() > 0 ==> !white_space(trim_end(s).last()),
    decreases s.len(),
{
    if s.len() > 0 && white_space(s.last()) {
        lemma_trim_end(s.drop_last());
    }
}

/// Where the text starts behind the white space in front of it.
pub fn start_of(chars: &[char]) -> (r: usize)
    ensures
        r <= chars@.len(),
        trim_start(chars@) == chars@.skip(r as int),
{
    let mut i: usize = 0;
    assert(chars@.skip(0) =~= chars@);
    while i < chars.len() && is_white_space(chars[i])
        invariant
            i <= chars@.len(),
            trim_start(chars@) == trim_start(chars@.skip(i as int)),
        decreases chars@.len() - i,
    {
        assert(chars@.skip(i as int).skip(1) =~= chars@.skip(i + 1));
        i = i + 1;
    }
    i
}

/// Where the text from `from` on ends before the white space behind it.
pub fn end_of(chars: &[char], from: usize) -> (r: usize)
    requires
        from <= chars@.len(),
    ensures
        from <= r <= chars@.len(),
        trim_end(chars@.skip(from as int)) == chars@.subrange(from as int, r as int),
{
    let mut i: usize = chars.len();
    assert(chars@.subrange(from as int, i as int) =~= chars@.skip(from as int));
    while i > from && is_white_space(chars[i - 1])
        invariant
            from <= i <= chars@.len(),
            trim_end(chars@.skip(from as int)) == trim_end(
                chars@.subrange(from as int, i as int),
            ),
        decreases i,
    {
        assert(chars@.subrange(from as int, i as int).drop_last() =~= chars@.subrange(
            from as int,
            i - 1,
        ));
        i = i - 1;
    }
    i
}

/// The text without the white space around it.
pub fn trim(s: &str) -> (r: String)
    ensures
        r@ == trimmed(s@),
{
    let chars = chars_of(s);
    let from = start_of(chars.as_slice());
    let to = end_of(chars.as_slice(), from);
    let mut out = String::new();
    let mut i: usize = from;
    while i < to
        invariant
            from <= i <= to <= chars@.len(),
            out@ == chars@.subrange(from as int, i as int),
        decreases to - i,
    {
        out.push(chars[i]);
        assert(out@ =~= chars@.subrange(from as int, i + 1));
        i = i + 1;
    }
    out
}

/// Walking stops at the first offset that is at least as many units away, or
/// at the end.
pub proof fn lemma_walk_units_least(s: Seq<char>, from: int, end: int, units: int)
    requires
        0 <= from <= end <= s.len(),
    ensures
        ({
            let at = walk_units(s, from, end, units);
            &&& from <= at <= end
            &&& at < end ==> utf16_len(s.subrange(from, at)) >= units
            &&& from < at ==> utf16_len(s.subrange(from, at - 1)) < units
        }),
    decreases end - from,
{
    if from < end && units > 0 {
        let at = walk_units(s, from, end, units);
        lemma_walk_units_least(s, from + 1, end, units - utf16_width(s[from]));
        lemma_utf16_len_first(s.subrange(from, at));
        assert(s.subrange(from, at).drop_first() =~= s.subrange(from + 1, at));
        if from + 1 < at {
            lemma_utf16_len_first(s.subrange(from, at - 1));
            assert(s.subrange(from, at - 1).drop_first() =~= s.subrange(from + 1, at - 1));
        } else {
            assert(s.subrange(from, at - 1).len() == 0);
        }
    } else {
        assert(s.subrange(from, from).len() == 0);
    }
}

/// A character takes one UTF-16 unit, or two beyond the basic plane.
pub proof fn law_utf16_widths(s: Seq<char>, c: char)
    ensures
        utf16_len(Seq::empty()) == 0,
        utf16_len(s.push(c)) == utf16_len(s) + (if c as u32 >= 0x10000 {
            2nat
        } else {
            1nat
        }),
{
    assert(s.push(c).drop_last() =~= s);
}

/// A text is cut at its line breaks, all of them and nowhere else: put back
/// together the lines are the text, and no line holds a line break.
pub proof fn law_lines_make_up_the_text(s: Seq<char>)
    ensures
        join_lines(split_lines(s)) == s,
        split_lines(s).len() > 0,
        forall|i: int, j: int|
            0 <= i < split_lines(s).len() && 0 <= j < split_lines(s)[i].len()
                ==> #[trigger] split_lines(s)[i][j] != '\n',
{
    lemma_split_lines(s);
}

/// Joined lines are the lines with one line break between each two of them.
pub proof fn law_joined_lines(lines: Seq<Seq<char>>, line: Seq<char>)
    ensures
        join_lines(seq![line]) == line,
        lines.len() > 0 ==> join_lines(lines.push(line)) == join_lines(lines) + seq!['\n'] + line,
{
    if lines.len() > 0 {
        assert(lines.push(line).drop_last() =~= lines);
        assert(join_lines(lines).push('\n') =~= join_lines(lines) + seq!['\n']);
    }
}

proof fn lemma_trim_start_splits(s: Seq<char>, before: Seq<char>, rest: Seq<char>)
    requires
        s == before + rest,
        forall|i: int| 0 <= i < before.len() ==> white_space(#[trigger] before[i]),
        rest.len() > 0 ==> !white_space(rest[0]),
    ensures
        trim_start(s) == rest,
    decreases before.len(),
{
    if before.len() > 0 {
        assert(s[0] == before[0]);
        assert(s.skip(1) =~= before.skip(1) + rest);
        lemma_trim_start_splits(s.skip(1), before.skip(1), rest);
    } else {
        assert(s =~= rest);
    }
}

proof fn lemma_trim_end_splits(s: Seq<char>, rest: Seq<char>, behind: Seq<char>)
    requires
        s == rest + behind,
        forall|i: int| 0 <= i < behind.len() ==> white_space(#[trigger] behind[i]),
        rest.len() > 0 ==> !white_space(rest.last()),
    ensures
        trim_end(s) == rest,
    decreases behind.len(),
{
    if behind.len() > 0 {
        assert(s.last() == behind.last());
        assert(s.drop_last() =~= rest + behind.drop_last());
        lemma_trim_end_splits(s.drop_last(), rest, behind.drop_last());
    } else {
        assert(s =~= rest);
    }
}

/// White space around a text is cut off, and nothing else: what is left starts
/// and ends with other characters, or is empty.
pub proof fn law_white_space_around_is_cut_off(
    before: Seq<char>,
    text: Seq<char>,
    behind: Seq<char>,
)
    requires
        forall|i: int| 0 <= i < before.len() ==> white_space(#[trigger] before[i]),
        forall|i: int| 0 <= i < behind.len() ==> white_space(#[trigger] behind[i]),
        text.len() > 0 ==> !white_space(text[0]) && !white_space(text.last()),
    ensures
        trimmed(before + text + behind) == text,
        trim_end(text + behind) == text,
{
    lemma_trim_end_splits(text + behind, text, behind);
    let s = before + text + behind;
    if text.len() > 0 {
        assert(s =~= before + (text + behind));
        lemma_trim_start_splits(s, before, text + behind);
    } else {
        let all = before + behind;
        assert(s =~= all + Seq::empty());
        assert forall|i: int| 0 <= i < all.len() implies white_space(#[trigger] all[i]) by {
            if i < before.len() {
                assert(all[i] == before[i]);
            } else {
                assert(all[i] == behind[i - before.len()]);
            }
        }
        lemma_trim_start_splits(s, all, Seq::empty());
        assert(trim_end(Seq::<char>::empty()) =~= text);
    }
}

/// Blanks, tabs and line breaks are white space; letters, digits and the signs
/// of ASCII are not.
pub proof fn law_white_space(c: char)
    ensures
        c as u32 <= 0x7f ==> (white_space(c) <==> c == ' ' || c == '\t' || c == '\n' || c == '\r'
            || c == '\u{b}' || c == '\u{c}'),
        c as u32 > 0x7f ==> (white_space(c) <==> c == '\u{85}' || c == '\u{a0}' || c
            == '\u{1680}' || (0x2000 <= c as u32 <= 0x200a) || c == '\u{2028}' || c == '\u{2029}'
            || c == '\u{202f}' || c == '\u{205f}' || c == '\u{3000}'),
{
}

} // verus!
