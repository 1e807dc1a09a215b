//! The lines of a YAML file, and positions in it.

use vstd::prelude::*;

use crate::text::{
    char_utf16_width, lemma_split_lines, lemma_walk_units_exact, lemma_walk_units_least, lines_view, max_chars, split, split_lines, utf16_len,
    walk, walk_units,
};

verus! {

/// Zero-based position in the YAML file; `col` counts Unicode scalar values.
#[derive(Clone, Copy, Debug, PartialEq, Eq, PartialOrd, Ord, Structural)]
pub struct Pos {
    pub line: usize,
    pub col: usize,
}

impl Pos {
    /// The position one column to the right.
    pub fn next(self) -> (r: Self)
        requires
            self.col < usize::MAX,
        ensures
            r.line == self.line,
            r.col == self.col + 1,
    {
        Pos { line: self.line, col: self.col + 1 }
    }

    /// Whether `self` comes before `other` in the file.
    pub open spec fn before(self, other: Pos) -> bool {
        self.line < other.line || (self.line == other.line && self.col < other.col)
    }

    /// Whether `self` comes before `other` in the file.
    pub fn is_before(self, other: Pos) -> (r: bool)
        ensures
            r == self.before(other),
    {
        self.line < other.line || (self.line == other.line && self.col < other.col)
    }
}

/// A line without the `'\r'` of a Windows line ending.
pub open spec fn strip_cr(line: Seq<char>) -> Seq<char> {
    if line.len() > 0 && line.last() == '\r' {
        line.drop_last()
    } else {
        line
    }
}

/// The lines of a file, without their line endings.
pub open spec fn source_lines(text: Seq<char>) -> Seq<Seq<char>> {
    split_lines(text).map_values(|line: Seq<char>| strip_cr(line))
}

/// Line number `line`; empty when the file has no such line.
pub open spec fn line_at(lines: Seq<Seq<char>>, line: int) -> Seq<char> {
    if 0 <= line < lines.len() {
        lines[line]
    } else {
        Seq::empty()
    }
}

/// The UTF-16 column of column `col`. Columns past the end of the line count
/// one unit each.
pub open spec fn units_at(line: Seq<char>, col: int) -> int {
    if col <= line.len() {
        utf16_len(line.take(col)) as int
    } else {
        utf16_len(line) + (col - line.len())
    }
}

/// The first column at or past the UTF-16 column `units`, or the end of the line.
pub open spec fn column_at(line: Seq<char>, units: int) -> int {
    walk_units(line, 0, line.len() as int, units)
}

/// The YAML text split into lines of chars, used to convert between LSP
/// UTF-16 columns and char columns.
pub struct Source {
    lines: Vec<Vec<char>>,
}

impl Source {
    /// The lines, without their line endings.
    pub closed spec fn view(&self) -> Seq<Seq<char>> {
        lines_view(self.lines@)
    }

    #[verifier::type_invariant]
    spec fn lines_fit(self) -> bool {
        forall|i: int|
            0 <= i < self.lines@.len() ==> (#[trigger] self.lines@[i])@.len() <= max_chars()
    }

    pub fn new(text: &str) -> (r: Self)
        ensures
            r@ == source_lines(text@),
            text@.len() <= max_chars(),
    {
        let raw = split(text);
        let ghost all = split_lines(text@);
        let mut lines: Vec<Vec<char>> = Vec::new();
        for line in it: raw
            invariant
                it.seq() == raw@,
                lines_view(raw@) == all,
                forall|k: int| 0 <= k < raw@.len() ==> (#[trigger] raw@[k])@.len() <= max_chars(),
                lines_view(lines@) == source_lines(text@).take(it.index() as int),
                source_lines(text@) == all.map_values(|line: Seq<char>| strip_cr(line)),
                forall|k: int|
                    0 <= k < lines@.len() ==> (#[trigger] lines@[k])@.len() <= max_chars(),
        {
            let ghost done = lines_view(lines@);
            let ghost whole = line@;
            proof {
                assert(whole == lines_view(raw@)[it.index() as int]);
            }
            let mut line = line;
            if line.len() > 0 && line[line.len() - 1] == '\r' {
                line.pop();
            }
            assert(line@ == strip_cr(whole));
            lines.push(line);
            proof {
                assert(lines_view(lines@) =~= done.push(strip_cr(whole)));
                assert(done.push(strip_cr(whole)) =~= source_lines(text@).take(it.index() + 1));
            }
        }
        assert(source_lines(text@).take(all.len() as int) =~= source_lines(text@));
        Source { lines }
    }

    /// How many lines the file has.
    pub fn line_count(&self) -> (n: usize)
        ensures
            n == self@.len(),
    {
        self.lines.len()
    }

    /// The characters of a line; none when the file has no such line.
    pub fn line(&self, line: usize) -> (r: &[char])
        ensures
            r@ == line_at(self@, line as int),
            r@.len() <= max_chars(),
    {
        proof {
            use_type_invariant(self);
        }
        if line < self.lines.len() {
            let r = self.lines[line].as_slice();
            assert(r@ == self.lines@[line as int]@);
            r
        } else {
            let none: &[char] = &[];
            assert(none@ =~= Seq::<char>::empty());
            none
        }
    }

    /// Returns the UTF-16 column of `pos`, as used by LSP positions.
    pub fn utf16_col(&self, pos: Pos) -> (r: usize)
        requires
            units_at(line_at(self@, pos.line as int), pos.col as int) <= usize::MAX,
        ensures
            r == units_at(line_at(self@, pos.line as int), pos.col as int),
    {
        let line = self.line(pos.line);
        let inside: usize = if pos.col < line.len() {
            pos.col
        } else {
            line.len()
        };
        let mut sum: usize = 0;
        let mut i: usize = 0;
        while i < inside
            invariant
                i <= inside <= line@.len() <= max_chars(),
                sum == utf16_len(line@.take(i as int)),
                sum <= 2 * i,
            decreases inside - i,
        {
            sum = sum + char_utf16_width(line[i]);
            proof {
                assert(line@.take(i + 1).drop_last() =~= line@.take(i as int));
            }
            i = i + 1;
        }
        if pos.col > line.len() {
            proof {
                assert(line@.take(line@.len() as int) =~= line@);
            }
            sum + (pos.col - line.len())
        } else {
            sum
        }
    }

    /// Converts an LSP position (UTF-16 column) to a char-based position.
    pub fn pos(&self, line: usize, utf16_col: usize) -> (r: Pos)
        ensures
            r.line == line,
            r.col == column_at(line_at(self@, line as int), utf16_col as int),
            r.col <= line_at(self@, line as int).len(),
    {
        let chars = self.line(line);
        Pos { line, col: walk(chars, 0, chars.len(), utf16_col) }
    }
}

// ---------------------------------------------------------------------------
// Laws
// ---------------------------------------------------------------------------

/// Converting a column inside its line to UTF-16 and back gives the column.
pub proof fn law_column_round_trip(line: Seq<char>, col: int)
    requires
        0 <= col <= line.len(),
    ensures
        column_at(line, units_at(line, col)) == col,
{
    assert(line.subrange(0, col) =~= line.take(col));
    lemma_walk_units_exact(line, 0, col, line.len() as int);
}

/// A UTF-16 column at which a character of the line starts, or its end, is
/// reached again from the column that it is converted to.
pub proof fn law_units_round_trip(line: Seq<char>, units: int, col: int)
    requires
        0 <= col <= line.len(),
        units == units_at(line, col),
    ensures
        units_at(line, column_at(line, units)) == units,
{
    law_column_round_trip(line, col);
}

/// UTF-16 columns grow with the columns they stand for.
pub proof fn law_units_are_monotone(line: Seq<char>, a: int, b: int)
    requires
        0 <= a < b,
    ensures
        units_at(line, a) < units_at(line, b),
    decreases b - a,
{
    if b <= line.len() {
        assert(line.take(b).drop_last() =~= line.take(b - 1));
    } else if b - 1 == line.len() {
        assert(line.take(b - 1) =~= line);
    }
    if a < b - 1 {
        law_units_are_monotone(line, a, b - 1);
    }
}

/// The lines of a file are its text without the line breaks: Windows line
/// endings lose their `'\r'`, and nothing else is lost.
pub proof fn law_lines_of_a_file(text: Seq<char>, i: int)
    requires
        0 <= i < source_lines(text).len(),
    ensures
        source_lines(text).len() == split_lines(text).len(),
        split_lines(text)[i] == source_lines(text)[i] || split_lines(text)[i]
            == source_lines(text)[i].push('\r'),
        split_lines(text)[i] == source_lines(text)[i] ==> split_lines(text)[i].len() == 0
            || split_lines(text)[i].last() != '\r',
        forall|k: int| 0 <= k < source_lines(text)[i].len() ==> #[trigger] source_lines(text)[i][k] != '\n',
{
    lemma_split_lines(text);
    let raw = split_lines(text)[i];
    if raw.len() > 0 && raw.last() == '\r' {
        assert(raw.drop_last().push('\r') =~= raw);
    }
    assert forall|k: int| 0 <= k < source_lines(text)[i].len() implies #[trigger] source_lines(text)[i][k]
        != '\n' by {
        assert(split_lines(text)[i][k] != '\n');
    }
}

/// UTF-16 columns count the units of the characters in front of a column, and
/// one for each column past the end of the line.
pub proof fn law_units_count_characters(line: Seq<char>, col: int)
    requires
        0 <= col,
    ensures
        units_at(line, 0) == 0,
        units_at(line, col + 1) == units_at(line, col) + (if col < line.len() && line[col] as u32
            >= 0x10000 {
            2int
        } else {
            1int
        }),
{
    assert(line.take(0).len() == 0);
    if col < line.len() {
        assert(line.take(col + 1).drop_last() =~= line.take(col));
    } else {
        assert(line.take(line.len() as int) =~= line);
    }
}

/// A UTF-16 column stands for the first column that is at least as far, or for
/// the end of the line.
pub proof fn law_columns_are_the_first_to_reach(line: Seq<char>, units: int)
    ensures
        0 <= column_at(line, units) <= line.len(),
        column_at(line, units) < line.len() ==> units_at(line, column_at(line, units)) >= units,
        forall|c: int| 0 <= c < column_at(line, units) ==> #[trigger] units_at(line, c) < units,
{
    lemma_walk_units_least(line, 0, line.len() as int, units);
    let at = column_at(line, units);
    assert(line.subrange(0, at) =~= line.take(at));
    if at > 0 {
        assert(line.subrange(0, at - 1) =~= line.take(at - 1));
    }
    assert forall|c: int| 0 <= c < at implies #[trigger] units_at(line, c) < units by {
        if c < at - 1 {
            law_units_are_monotone(line, c, at - 1);
        }
    }
}

/// Places are ordered by their lines, and within a line by their columns: of
/// two places one comes before the other unless they are the same.
pub proof fn law_places_are_ordered(a: Pos, b: Pos, c: Pos)
    ensures
        a.line < b.line ==> a.before(b) && !b.before(a),
        a.line == b.line && a.col < b.col ==> a.before(b) && !b.before(a),
        !a.before(a),
        a.before(b) || b.before(a) || a == b,
        a.before(b) && b.before(c) ==> a.before(c),
{
}

} // verus!
