//! Aligns decoded YAML scalars with the source text they were written as.

use vstd::prelude::*;

use crate::script::SourceSpan;
use crate::source::{line_at, Pos, Source};

use crate::yaml::ScalarStyle;

verus! {

// ---------------------------------------------------------------------------
// Model
// ---------------------------------------------------------------------------

/// A place in the source: a column of a line, or the line's end.
pub struct Place {
    pub line: int,
    pub col: int,
}

pub open spec fn is_blank(c: char) -> bool {
    c == ' ' || c == '\t'
}

/// How many characters at the start of a line are blanks.
pub open spec fn leading_blanks(line: Seq<char>) -> int
    decreases line.len(),
{
    if line.len() == 0 || !is_blank(line[0]) {
        0
    } else {
        1 + leading_blanks(line.drop_first())
    }
}

/// Whether nothing but blanks follows from `col` on.
pub open spec fn blank_from(line: Seq<char>, col: int) -> bool {
    forall|i: int| col <= i < line.len() ==> is_blank(#[trigger] line[i])
}

/// The character at a place, `'\n'` at a line end, nothing at the end of the file.
pub open spec fn char_at(lines: Seq<Seq<char>>, at: Place) -> Option<char> {
    let line = line_at(lines, at.line);
    if at.col < line.len() {
        Some(line[at.col])
    } else if at.line + 1 < lines.len() {
        Some('\n')
    } else {
        None
    }
}

/// The place after the one given. A line end is followed by the content of the
/// next line: behind its indentation in a block scalar, behind all its leading
/// blanks otherwise.
pub open spec fn place_after(lines: Seq<Seq<char>>, indent: Option<int>, at: Place) -> Place {
    if at.col < line_at(lines, at.line).len() {
        Place { line: at.line, col: at.col + 1 }
    } else if at.line + 1 < lines.len() {
        let line = line_at(lines, at.line + 1);
        Place {
            line: at.line + 1,
            col: match indent {
                Some(n) => if n < line.len() {
                    n
                } else {
                    line.len() as int
                },
                None => leading_blanks(line),
            },
        }
    } else {
        at
    }
}

/// The width of an escape in a double-quoted scalar, by the character after
/// the backslash.
pub open spec fn escape_width(c: char) -> int {
    if c == 'x' {
        4
    } else if c == 'u' {
        6
    } else if c == 'U' {
        10
    } else {
        2
    }
}

/// A decoded character found in the source: its span, where the search goes
/// on, and whether a flow line break has just been folded.
pub struct Aligned {
    pub start: Place,
    pub end: Place,
    pub next: Place,
    pub in_break: bool,
}

/// Finds the decoded character `c` in the source from `at` on. Blanks and line
/// breaks that decoding removes are passed over; anything else that does not
/// decode to `c` ends the search.
pub open spec fn align_char(
    lines: Seq<Seq<char>>,
    style: ScalarStyle,
    indent: Option<int>,
    c: char,
    at: Place,
    in_break: bool,
) -> Option<Aligned>
    decreases lines.len() - at.line, line_at(lines, at.line).len() - at.col,
{
    let line = line_at(lines, at.line);
    let after = place_after(lines, indent, at);
    match char_at(lines, at) {
        None => None,
        Some(s) => {
            if indent is None && is_blank(s) && blank_from(line, at.col) {
                // Trailing blanks of a flow line.
                align_char(
                    lines,
                    style,
                    indent,
                    c,
                    Place { line: at.line, col: line.len() as int },
                    in_break,
                )
            } else if indent is None && s == '\n' && c == '\n' && !in_break {
                // Of several flow line breaks the first one leaves nothing behind.
                align_char(lines, style, indent, c, after, true)
            } else if style == ScalarStyle::DoubleQuoted && s == '\\' {
                if at.col + 1 < line.len() {
                    let width = escape_width(line[at.col + 1]);
                    let end = Place {
                        line: at.line,
                        col: if at.col + width < line.len() {
                            at.col + width
                        } else {
                            line.len() as int
                        },
                    };
                    Some(Aligned { start: at, end, next: end, in_break: false })
                } else {
                    // An escaped line break leaves nothing behind.
                    align_char(lines, style, indent, c, place_after(lines, indent, after), true)
                }
            } else if s == c {
                let doubled = style == ScalarStyle::SingleQuoted && c == '\'' && char_at(
                    lines,
                    after,
                ) == Some('\'');
                if doubled {
                    let end = place_after(lines, indent, after);
                    Some(Aligned { start: at, end, next: end, in_break: false })
                } else {
                    Some(
                        Aligned {
                            start: at,
                            end: Place { line: at.line, col: at.col + 1 },
                            next: after,
                            in_break: s == '\n',
                        },
                    )
                }
            } else if s == '\n' && c == ' ' {
                // A folded line break.
                Some(
                    Aligned {
                        start: at,
                        end: Place { line: at.line, col: at.col + 1 },
                        next: after,
                        in_break: true,
                    },
                )
            } else if is_blank(s) || s == '\n' {
                align_char(lines, style, indent, c, after, in_break)
            } else {
                None
            }
        },
    }
}

/// The spans of the characters of `value`, up to the first one that is not found.
pub open spec fn align_all(
    lines: Seq<Seq<char>>,
    style: ScalarStyle,
    indent: Option<int>,
    value: Seq<char>,
    at: Place,
    in_break: bool,
) -> Seq<(Place, Place)>
    decreases value.len(),
{
    if value.len() == 0 {
        Seq::empty()
    } else {
        match align_char(lines, style, indent, value[0], at, in_break) {
            None => Seq::empty(),
            Some(found) => seq![(found.start, found.end)] + align_all(
                lines,
                style,
                indent,
                value.drop_first(),
                found.next,
                found.in_break,
            ),
        }
    }
}

/// How many line breaks a value starts with.
pub open spec fn leading_breaks(value: Seq<char>) -> int
    decreases value.len(),
{
    if value.len() == 0 || value[0] != '\n' {
        0
    } else {
        1 + leading_breaks(value.drop_first())
    }
}

/// The zero-based line of a parser mark, whose lines count from one.
pub open spec fn mark_line(line: int) -> int {
    if line > 0 {
        line - 1
    } else {
        0
    }
}

/// Whether a scalar is a block scalar.
pub open spec fn is_block(style: ScalarStyle) -> bool {
    style == ScalarStyle::Literal || style == ScalarStyle::Folded
}

/// The content indentation that a scalar's lines have in common. The mark of a
/// block scalar points at its first content line.
pub open spec fn content_indent(style: ScalarStyle, col: int) -> Option<int> {
    if is_block(style) {
        Some(col)
    } else {
        None
    }
}

/// Where the content of a scalar starts: behind an opening quote, and for a
/// block scalar at the blank lines before the marked line.
pub open spec fn content_start(
    lines: Seq<Seq<char>>,
    value: Seq<char>,
    style: ScalarStyle,
    line: int,
    col: int,
) -> Place {
    if style == ScalarStyle::Plain {
        Place { line: mark_line(line), col }
    } else if !is_block(style) {
        Place { line: mark_line(line), col: col + 1 }
    } else {
        let breaks = leading_breaks(value);
        let first = if mark_line(line) > breaks {
            mark_line(line) - breaks
        } else {
            0
        };
        let len = line_at(lines, first).len() as int;
        Place {
            line: first,
            col: if col < len {
                col
            } else {
                len
            },
        }
    }
}

/// The spans of all characters of a decoded scalar. Once a character is not
/// found, it and all later ones share the last span that was; if there is none,
/// the place that the parser marked.
pub open spec fn scalar_spans(
    lines: Seq<Seq<char>>,
    value: Seq<char>,
    style: ScalarStyle,
    line: int,
    col: int,
) -> Seq<(Place, Place)> {
    let found = align_all(
        lines,
        style,
        content_indent(style, col),
        value,
        content_start(lines, value, style, line, col),
        false,
    );
    Seq::new(
        value.len(),
        |i: int|
            if i < found.len() {
                found[i]
            } else if found.len() > 0 {
                found.last()
            } else {
                (Place { line: mark_line(line), col }, Place { line: mark_line(line), col: col + 1 })
            },
    )
}

pub open spec fn place_of(pos: Pos) -> Place {
    Place { line: pos.line as int, col: pos.col as int }
}

pub open spec fn span_places(span: SourceSpan) -> (Place, Place) {
    (place_of(span.start), place_of(span.end))
}

pub open spec fn spans_places(spans: Seq<SourceSpan>) -> Seq<(Place, Place)> {
    spans.map_values(|span: SourceSpan| span_places(span))
}

// ---------------------------------------------------------------------------
// Cursor
// ---------------------------------------------------------------------------

/// A place in the source that moves over the content of a scalar.
pub struct Cursor<'a> {
    pub source: &'a Source,
    pub line: usize,
    pub col: usize,
    /// Block content indentation; `None` trims all flow-scalar continuation indentation.
    pub indent: Option<usize>,
}

impl<'a> Cursor<'a> {
    pub open spec fn place(&self) -> Place {
        Place { line: self.line as int, col: self.col as int }
    }

    pub open spec fn spec_indent(&self) -> Option<int> {
        match self.indent {
            Some(n) => Some(n as int),
            None => None,
        }
    }

    /// The cursor is at a column that leaves room for the next one, and on a
    /// line whose successor can be counted.
    pub open spec fn wf(&self) -> bool {
        self.line < usize::MAX && self.col < isize::MAX
    }

    pub fn new(source: &'a Source, line: usize, col: usize, indent: Option<usize>) -> (r: Self)
        ensures
            r.source == source,
            r.line == line,
            r.col == col,
            r.indent == indent,
    {
        Cursor { source, line, col, indent }
    }

    pub fn pos(&self) -> (r: Pos)
        ensures
            place_of(r) == self.place(),
    {
        Pos { line: self.line, col: self.col }
    }

    /// The char at the cursor, `'\n'` at a line end, or `None` at the end of the file.
    pub fn peek(&self) -> (r: Option<char>)
        requires
            self.wf(),
        ensures
            r == char_at(self.source@, self.place()),
    {
        let line = self.source.line(self.line);
        if self.col < line.len() {
            Some(line[self.col])
        } else if self.line + 1 < self.source.line_count() {
            Some('\n')
        } else {
            None
        }
    }

    /// The char `n` columns to the right, if the line reaches that far.
    pub fn peek_ahead(&self, n: usize) -> (r: Option<char>)
        requires
            self.wf(),
            n <= isize::MAX,
        ensures
            r == ({
                let line = line_at(self.source@, self.line as int);
                if self.col + n < line.len() {
                    Some(line[self.col + n])
                } else {
                    None
                }
            }),
    {
        let line = self.source.line(self.line);
        if self.col + n < line.len() {
            Some(line[self.col + n])
        } else {
            None
        }
    }

    /// Moves one column to the right, but not past the end of the line.
    pub fn advance_in_line(&mut self)
        requires
            old(self).wf(),
        ensures
            final(self).wf(),
            final(self).source == old(self).source,
            final(self).line == old(self).line,
            final(self).indent == old(self).indent,
            final(self).col == (if old(self).col < line_at(
                old(self).source@,
                old(self).line as int,
            ).len() {
                old(self).col + 1
            } else {
                old(self).col as int
            }),
    {
        let len = self.source.line(self.line).len();
        if self.col < len {
            self.col = self.col + 1;
        }
    }

    /// Moves to the next place of the content.
    pub fn advance(&mut self)
        requires
            old(self).wf(),
        ensures
            final(self).wf(),
            final(self).source == old(self).source,
            final(self).indent == old(self).indent,
            final(self).place() == place_after(
                old(self).source@,
                old(self).spec_indent(),
                old(self).place(),
            ),
    {
        let len = self.source.line(self.line).len();
        if self.col < len {
            self.col = self.col + 1;
        } else if self.line + 1 < self.source.line_count() {
            self.line = self.line + 1;
            let line = self.source.line(self.line);
            let col: usize = match self.indent {
                Some(indent) => if indent < line.len() {
                    indent
                } else {
                    line.len()
                },
                None => count_blanks(line),
            };
            self.col = col;
        }
    }
}

/// How many characters at the start of a line are blanks.
fn count_blanks(line: &[char]) -> (r: usize)
    ensures
        r == leading_blanks(line@),
        r <= line@.len(),
{
    let mut n: usize = 0;
    assert(line@.skip(0) =~= line@);
    while n < line.len() && (line[n] == ' ' || line[n] == '\t')
        invariant
            n <= line@.len(),
            leading_blanks(line@) == n + leading_blanks(line@.skip(n as int)),
        decreases line@.len() - n,
    {
        assert(line@.skip(n as int).drop_first() =~= line@.skip(n + 1));
        n = n + 1;
    }
    n
}

/// Whether nothing but blanks follows from `col` on.
fn only_blanks(line: &[char], col: usize) -> (r: bool)
    ensures
        r == blank_from(line@, col as int),
{
    let mut i: usize = col;
    while i < line.len()
        invariant
            col <= i,
            forall|k: int| col <= k < i && k < line@.len() ==> is_blank(#[trigger] line@[k]),
        decreases line@.len() - i,
    {
        if line[i] != ' ' && line[i] != '\t' {
            assert(!is_blank(line@[i as int]));
            return false;
        }
        i = i + 1;
    }
    true
}

/// Moves the cursor over the source of the decoded character `c` and returns
/// its span, and whether a flow line break has just been folded.
fn align(cursor: &mut Cursor, style: ScalarStyle, c: char, in_flow_break: bool) -> (r: Option<
    (SourceSpan, bool),
>)
    requires
        old(cursor).wf(),
    ensures
        final(cursor).source == old(cursor).source,
        final(cursor).indent == old(cursor).indent,
        match align_char(
            old(cursor).source@,
            style,
            old(cursor).spec_indent(),
            c,
            old(cursor).place(),
            in_flow_break,
        ) {
            Some(found) => {
                &&& r matches Some((span, folded))
                &&& span_places(span) == (found.start, found.end)
                &&& span.fits()
                &&& folded == found.in_break
                &&& final(cursor).place() == found.next
                &&& final(cursor).wf()
            },
            None => r is None,
        },
{
    let ghost lines = cursor.source@;
    let ghost indent = cursor.spec_indent();
    let ghost goal = align_char(lines, style, indent, c, cursor.place(), in_flow_break);
    let mut in_break: bool = in_flow_break;
    loop
        invariant
            cursor.wf(),
            cursor.source@ == lines,
            cursor.source == old(cursor).source,
            cursor.indent == old(cursor).indent,
            cursor.spec_indent() == indent,
            align_char(lines, style, indent, c, cursor.place(), in_break) == goal,
            goal == align_char(
                old(cursor).source@,
                style,
                old(cursor).spec_indent(),
                c,
                old(cursor).place(),
                in_flow_break,
            ),
        decreases
                lines.len() - cursor.line,
                line_at(lines, cursor.line as int).len() - cursor.col,
    {
        let s = match cursor.peek() {
            Some(s) => s,
            None => return None,
        };
        let ghost at = cursor.place();
        let source_line = cursor.source.line(cursor.line);
        if cursor.indent.is_none() {
            if (s == ' ' || s == '\t') && only_blanks(source_line, cursor.col) {
                // Flow folding discards trailing whitespace as well as continuation indentation.
                cursor.col = source_line.len();
                continue ;
            }
            if s == '\n' && c == '\n' && !in_break {
                // N flow line breaks decode to N-1 newlines (or a space for N=1).
                cursor.advance();
                in_break = true;
                continue ;
            }
        }
        if style == ScalarStyle::DoubleQuoted && s == '\\' {
            match cursor.peek_ahead(1) {
                // Escaped line break: contributes nothing to the value.
                None => {
                    cursor.advance();
                    cursor.advance();
                    in_break = true;
                    continue ;
                },
                Some(escape) => {
                    let start = cursor.pos();
                    let width: usize = match escape {
                        'x' => 4,
                        'u' => 6,
                        'U' => 10,
                        _ => 2,
                    };
                    let mut step: usize = 0;
                    while step < width
                        invariant
                            step <= width <= 10,
                            cursor.wf(),
                            cursor.source@ == lines,
                            cursor.source == old(cursor).source,
                            cursor.indent == old(cursor).indent,
                            cursor.line == at.line,
                            at.col < line_at(lines, at.line).len(),
                            cursor.col == (if at.col + step < line_at(lines, at.line).len() {
                                at.col + step
                            } else {
                                line_at(lines, at.line).len() as int
                            }),
                        decreases width - step,
                    {
                        cursor.advance_in_line();
                        step = step + 1;
                    }
                    return Some((SourceSpan { start, end: cursor.pos() }, false));
                },
            }
        }
        if s == c {
            in_break = s == '\n';
            let mut span = SourceSpan::single(cursor.pos());
            cursor.advance();
            if style == ScalarStyle::SingleQuoted && c == '\'' && cursor.peek() == Some('\'') {
                cursor.advance();
                span.end = cursor.pos();
            }
            return Some((span, in_break));
        }
        if s == '\n' && c == ' ' {
            // A folded line break.
            let span = SourceSpan::single(cursor.pos());
            cursor.advance();
            return Some((span, true));
        }
        if s == ' ' || s == '\t' || s == '\n' {
            // Indentation or whitespace removed by folding.
            cursor.advance();
            continue ;
        }
        return None;
    }
}

/// How many line breaks a value starts with.
fn count_breaks(value: &[char]) -> (r: usize)
    ensures
        r == leading_breaks(value@),
        r <= value@.len(),
{
    let mut n: usize = 0;
    assert(value@.skip(0) =~= value@);
    while n < value.len() && value[n] == '\n'
        invariant
            n <= value@.len(),
            leading_breaks(value@) == n + leading_breaks(value@.skip(n as int)),
        decreases value@.len() - n,
    {
        assert(value@.skip(n as int).drop_first() =~= value@.skip(n + 1));
        n = n + 1;
    }
    n
}

/// Returns the source span of every char of a decoded scalar, whose mark is at
/// line `line`, counted from one, and column `col`.
///
/// The scalar is aligned with its source text char by char, accounting for
/// quotes, escapes, block indentation and line folding. If the alignment
/// breaks down, the remaining chars map to the last matched span.
pub fn scalar_positions(
    source: &Source,
    value: &[char],
    style: ScalarStyle,
    line: usize,
    col: usize,
) -> (r: Vec<SourceSpan>)
    requires
        col < isize::MAX - 1,
    ensures
        spans_places(r@) == scalar_spans(source@, value@, style, line as int, col as int),
        forall|i: int| 0 <= i < r@.len() ==> (#[trigger] r@[i]).fits(),
{
    let marked: usize = if line > 0 {
        line - 1
    } else {
        0
    };
    let mut cursor = match style {
        ScalarStyle::Plain => Cursor::new(source, marked, col, None),
        ScalarStyle::SingleQuoted | ScalarStyle::DoubleQuoted => Cursor::new(
            source,
            marked,
            col + 1,
            None,
        ),
        ScalarStyle::Literal | ScalarStyle::Folded => {
            // The marker points at the first content line; leading blank
            // lines are part of the value but come before the marker.
            let breaks = count_breaks(value);
            let first: usize = if marked > breaks {
                marked - breaks
            } else {
                0
            };
            let len = source.line(first).len();
            let start: usize = if col < len {
                col
            } else {
                len
            };
            Cursor::new(source, first, start, Some(col))
        },
    };
    let ghost lines = source@;
    let ghost indent = content_indent(style, col as int);
    let ghost all = align_all(lines, style, indent, value@, cursor.place(), false);
    let mut positions: Vec<SourceSpan> = Vec::new();
    let mut in_flow_break = false;
    let mut i: usize = 0;
    proof {
        assert(value@.skip(0) =~= value@);
        assert(spans_places(positions@) + all =~= all);
    }
    while i < value.len()
        invariant_except_break
            positions@.len() == i,
            cursor.wf(),
            cursor.source == source,
            cursor.spec_indent() == indent,
            spans_places(positions@) + align_all(
                lines,
                style,
                indent,
                value@.skip(i as int),
                cursor.place(),
                in_flow_break,
            ) == all,
        invariant
            i <= value@.len(),
            positions@.len() <= value@.len(),
            lines == source@,
            forall|k: int| 0 <= k < positions@.len() ==> (#[trigger] positions@[k]).fits(),
        ensures
            spans_places(positions@) == all,
        decreases value@.len() - i,
    {
        assert(value@.skip(i as int)[0] == value@[i as int]);
        match align(&mut cursor, style, value[i], in_flow_break) {
            Some((span, in_break)) => {
                let ghost before = positions@;
                positions.push(span);
                in_flow_break = in_break;
                proof {
                    assert(value@.skip(i as int).drop_first() =~= value@.skip(i + 1));
                    assert(spans_places(positions@) =~= spans_places(before).push(
                        span_places(span),
                    ));
                    let rest = align_all(
                        lines,
                        style,
                        indent,
                        value@.skip(i + 1),
                        cursor.place(),
                        in_flow_break,
                    );
                    assert(spans_places(before) + (seq![span_places(span)] + rest)
                        =~= spans_places(positions@) + rest);
                }
                i = i + 1;
            },
            None => {
                proof {
                    assert(spans_places(positions@) + Seq::<(Place, Place)>::empty()
                        =~= spans_places(positions@));
                }
                break ;
            },
        }
    }
    let found = positions.len();
    let fallback = if found > 0 {
        positions[found - 1]
    } else {
        SourceSpan::single(Pos { line: marked, col })
    };
    let ghost matched = positions@;
    while positions.len() < value.len()
        invariant
            matched.len() == found,
            found <= positions@.len() <= value@.len(),
            forall|k: int| 0 <= k < found ==> positions@[k] == matched[k],
            forall|k: int| found <= k < positions@.len() ==> positions@[k] == fallback,
            forall|k: int| 0 <= k < positions@.len() ==> (#[trigger] positions@[k]).fits(),
            fallback.fits(),
        decreases value@.len() - positions@.len(),
    {
        positions.push(fallback);
    }
    proof {
        assert(spans_places(matched) == all);
        assert(spans_places(positions@) =~= scalar_spans(
            source@,
            value@,
            style,
            line as int,
            col as int,
        ));
    }
    positions
}

// ---------------------------------------------------------------------------
// Laws
// ---------------------------------------------------------------------------

pub open spec fn place_le(a: Place, b: Place) -> bool {
    a.line < b.line || (a.line == b.line && a.col <= b.col)
}

/// A character is found where the source has that character, at a line break
/// that folds to it when it is a space, or at an escape of a double-quoted
/// scalar; never before the place at which the search starts. Its span ends at
/// or behind its start, and the search goes on at or behind its end.
pub proof fn law_found_characters_match(
    lines: Seq<Seq<char>>,
    style: ScalarStyle,
    indent: Option<int>,
    c: char,
    at: Place,
    in_break: bool,
)
    requires
        0 <= at.line,
        0 <= at.col,
        indent matches Some(n) ==> 0 <= n,
    ensures
        align_char(lines, style, indent, c, at, in_break) matches Some(found) ==> {
            &&& char_at(lines, found.start) matches Some(s)
            &&& s == c || (s == '\n' && c == ' ') || (style == ScalarStyle::DoubleQuoted && s
                == '\\')
            &&& place_le(at, found.start)
            &&& place_le(found.start, found.end)
            &&& place_le(found.end, found.next)
            &&& 0 <= found.next.line && 0 <= found.next.col
        },
    decreases lines.len() - at.line, line_at(lines, at.line).len() - at.col,
{
    let line = line_at(lines, at.line);
    let after = place_after(lines, indent, at);
    lemma_place_after(lines, indent, at);
    if let Some(s) = char_at(lines, at) {
        if indent is None && is_blank(s) && blank_from(line, at.col) {
            law_found_characters_match(
                lines,
                style,
                indent,
                c,
                Place { line: at.line, col: line.len() as int },
                in_break,
            );
        } else if indent is None && s == '\n' && c == '\n' && !in_break {
            law_found_characters_match(lines, style, indent, c, after, true);
        } else if style == ScalarStyle::DoubleQuoted && s == '\\' {
            if at.col + 1 >= line.len() {
                lemma_place_after(lines, indent, after);
                law_found_characters_match(
                    lines,
                    style,
                    indent,
                    c,
                    place_after(lines, indent, after),
                    true,
                );
            }
        } else if s == c {
            lemma_place_after(lines, indent, after);
        } else if s == '\n' && c == ' ' {
        } else if is_blank(s) || s == '\n' {
            law_found_characters_match(lines, style, indent, c, after, in_break);
        }
    }
}

proof fn lemma_place_after(lines: Seq<Seq<char>>, indent: Option<int>, at: Place)
    requires
        0 <= at.line,
        0 <= at.col,
        indent matches Some(n) ==> 0 <= n,
    ensures
        place_le(at, place_after(lines, indent, at)),
        0 <= place_after(lines, indent, at).line,
        0 <= place_after(lines, indent, at).col,
{
    if at.line + 1 < lines.len() {
        lemma_leading_blanks(line_at(lines, at.line + 1));
    }
}

proof fn lemma_leading_blanks(line: Seq<char>)
    ensures
        0 <= leading_blanks(line) <= line.len(),
    decreases line.len(),
{
    if line.len() > 0 {
        lemma_leading_blanks(line.drop_first());
    }
}

/// Characters are found in the order in which the source has them, none before
/// the place at which the search starts.
pub proof fn law_alignment_is_ordered(
    lines: Seq<Seq<char>>,
    style: ScalarStyle,
    indent: Option<int>,
    value: Seq<char>,
    at: Place,
    in_break: bool,
    i: int,
    j: int,
)
    requires
        0 <= at.line,
        0 <= at.col,
        indent matches Some(n) ==> 0 <= n,
        0 <= i <= j < align_all(lines, style, indent, value, at, in_break).len(),
    ensures
        ({
            let spans = align_all(lines, style, indent, value, at, in_break);
            &&& place_le(at, spans[i].0)
            &&& place_le(spans[i].0, spans[i].1)
            &&& i < j ==> place_le(spans[i].1, spans[j].0)
        }),
    decreases value.len(),
{
    law_found_characters_match(lines, style, indent, value[0], at, in_break);
    let found = align_char(lines, style, indent, value[0], at, in_break)->0;
    let rest = align_all(
        lines,
        style,
        indent,
        value.drop_first(),
        found.next,
        found.in_break,
    );
    if i > 0 {
        law_alignment_is_ordered(
            lines,
            style,
            indent,
            value.drop_first(),
            found.next,
            found.in_break,
            i - 1,
            j - 1,
        );
    } else if j > 0 {
        law_alignment_is_ordered(
            lines,
            style,
            indent,
            value.drop_first(),
            found.next,
            found.in_break,
            j - 1,
            j - 1,
        );
    }
}

/// Every character of a scalar has a span, whatever its source looks like.
pub proof fn law_every_character_has_a_span(
    lines: Seq<Seq<char>>,
    value: Seq<char>,
    style: ScalarStyle,
    line: int,
    col: int,
)
    ensures
        scalar_spans(lines, value, style, line, col).len() == value.len(),
{
}

/// An escape that ends before the end of its line is mapped as a whole, from
/// its backslash to its last digit.
pub proof fn law_escapes_are_mapped_whole(
    lines: Seq<Seq<char>>,
    c: char,
    at: Place,
    in_break: bool,
)
    requires
        0 <= at.line < lines.len(),
        0 <= at.col,
        at.col + 1 < lines[at.line].len(),
        lines[at.line][at.col] == '\\',
        at.col + escape_width(lines[at.line][at.col + 1]) <= lines[at.line].len(),
    ensures
        align_char(lines, ScalarStyle::DoubleQuoted, None, c, at, in_break) == Some(
            ({
                let end = Place {
                    line: at.line,
                    col: at.col + escape_width(lines[at.line][at.col + 1]),
                };
                Aligned { start: at, end, next: end, in_break: false }
            }),
        ),
{
}

// ---------------------------------------------------------------------------
// Block scalars
// ---------------------------------------------------------------------------

/// A line of a block scalar without the indentation of the block.
pub open spec fn content(lines: Seq<Seq<char>>, indent: int, line: int) -> Seq<char> {
    if indent < lines[line].len() {
        lines[line].skip(indent)
    } else {
        Seq::empty()
    }
}

/// The column at which the content of a line starts.
pub open spec fn content_col(lines: Seq<Seq<char>>, indent: int, line: int) -> int {
    if indent < lines[line].len() {
        indent
    } else {
        lines[line].len() as int
    }
}

/// The content of `count` lines, a line break behind each of them.
pub open spec fn literal_text(
    lines: Seq<Seq<char>>,
    first: int,
    indent: int,
    count: int,
) -> Seq<char>
    decreases count,
{
    if count <= 0 {
        Seq::empty()
    } else {
        content(lines, indent, first).push('\n') + literal_text(lines, first + 1, indent, count - 1)
    }
}

/// How many characters of a literal block come before content line `j`.
pub open spec fn literal_offset(lines: Seq<Seq<char>>, first: int, indent: int, j: int) -> int
    decreases j,
{
    if j <= 0 {
        0
    } else {
        content(lines, indent, first).len() + 1 + literal_offset(lines, first + 1, indent, j - 1)
    }
}

/// Whether a value starts with exactly `breaks` line breaks.
pub open spec fn starts_with_breaks(value: Seq<char>, breaks: int) -> bool {
    &&& 0 <= breaks <= value.len()
    &&& forall|i: int| 0 <= i < breaks ==> #[trigger] value[i] == '\n'
    &&& breaks < value.len() ==> value[breaks] != '\n'
}

proof fn lemma_leading_breaks(value: Seq<char>, breaks: int)
    requires
        starts_with_breaks(value, breaks),
    ensures
        leading_breaks(value) == breaks,
    decreases value.len(),
{
    if breaks > 0 {
        assert(value[0] == '\n');
        let rest = value.drop_first();
        assert forall|i: int| 0 <= i < breaks - 1 implies #[trigger] rest[i] == '\n' by {
            assert(value[i + 1] == '\n');
        }
        lemma_leading_breaks(rest, breaks - 1);
    }
}

/// The place of character `i` of a literal block.
spec fn literal_place(lines: Seq<Seq<char>>, first: int, indent: int, count: int, i: int) -> Place
    decreases count,
{
    if count <= 0 || i <= content(lines, indent, first).len() {
        Place { line: first, col: content_col(lines, indent, first) + i }
    } else {
        literal_place(
            lines,
            first + 1,
            indent,
            count - 1,
            i - content(lines, indent, first).len() - 1,
        )
    }
}

proof fn lemma_literal_place(
    lines: Seq<Seq<char>>,
    first: int,
    indent: int,
    count: int,
    i: int,
)
    requires
        0 <= first,
        0 <= indent,
        first + count <= lines.len(),
        0 <= i < literal_text(lines, first, indent, count).len(),
    ensures
        ({
            let text = literal_text(lines, first, indent, count);
            let at = literal_place(lines, first, indent, count, i);
            &&& i + 1 < text.len() || first + count < lines.len() ==> char_at(lines, at) == Some(
                text[i],
            )
            &&& i + 1 < text.len() ==> place_after(lines, Some(indent), at) == literal_place(
                lines,
                first,
                indent,
                count,
                i + 1,
            )
        }),
    decreases count,
{
    let own = content(lines, indent, first);
    let rest = literal_text(lines, first + 1, indent, count - 1);
    let text = literal_text(lines, first, indent, count);
    assert(text == own.push('\n') + rest);
    if i < own.len() {
        assert(text[i] == own[i]);
    } else if i == own.len() {
        assert(text[i] == '\n');
        if i + 1 < text.len() {
            assert(count > 1);
            assert(rest.len() > 0);
            assert(literal_place(lines, first, indent, count, i + 1) == literal_place(
                lines,
                first + 1,
                indent,
                count - 1,
                0,
            ));
        }
    } else {
        lemma_literal_place(lines, first + 1, indent, count - 1, i - own.len() - 1);
        assert(text[i] == rest[i - own.len() - 1]);
    }
}

proof fn lemma_literal_aligned(
    lines: Seq<Seq<char>>,
    value: Seq<char>,
    first: int,
    count: int,
    indent: int,
    i: int,
    in_break: bool,
)
    requires
        0 <= first,
        0 <= indent,
        first + count <= lines.len(),
        value.is_prefix_of(literal_text(lines, first, indent, count)),
        value.len() == literal_text(lines, first, indent, count).len() ==> first + count
            < lines.len(),
        0 <= i <= value.len(),
    ensures
        ({
            let found = align_all(
                lines,
                ScalarStyle::Literal,
                Some(indent),
                value.skip(i),
                literal_place(lines, first, indent, count, i),
                in_break,
            );
            &&& found.len() == value.len() - i
            &&& forall|m: int|
                0 <= m < found.len() ==> (#[trigger] found[m]).0 == literal_place(
                    lines,
                    first,
                    indent,
                    count,
                    i + m,
                ) && found[m].1 == (Place { line: found[m].0.line, col: found[m].0.col + 1 })
        }),
    decreases value.len() - i,
{
    if i < value.len() {
        let text = literal_text(lines, first, indent, count);
        let at = literal_place(lines, first, indent, count, i);
        lemma_literal_place(lines, first, indent, count, i);
        let tail = value.skip(i);
        assert(tail[0] == value[i] && value[i] == text[i]);
        assert(tail.drop_first() =~= value.skip(i + 1));
        let next_break = value[i] == '\n';
        let after = place_after(lines, Some(indent), at);
        let end = Place { line: at.line, col: at.col + 1 };
        assert(align_char(lines, ScalarStyle::Literal, Some(indent), value[i], at, in_break)
            == Some(Aligned { start: at, end, next: after, in_break: next_break }));
        let rest = align_all(
            lines,
            ScalarStyle::Literal,
            Some(indent),
            value.skip(i + 1),
            after,
            next_break,
        );
        if i + 1 < value.len() {
            lemma_literal_aligned(lines, value, first, count, indent, i + 1, next_break);
        } else {
            assert(value.skip(i + 1) =~= Seq::<char>::empty());
        }
        let found = seq![(at, end)] + rest;
        assert forall|m: int| 0 <= m < found.len() implies (#[trigger] found[m]).0
            == literal_place(lines, first, indent, count, i + m) && found[m].1 == (Place {
            line: found[m].0.line,
            col: found[m].0.col + 1,
        }) by {
            if m > 0 {
                assert(found[m] == rest[m - 1]);
            }
        }
    }
}

proof fn lemma_literal_offset(
    lines: Seq<Seq<char>>,
    first: int,
    indent: int,
    count: int,
    j: int,
    k: int,
)
    requires
        0 <= j < count,
        0 <= k <= content(lines, indent, first + j).len(),
    ensures
        literal_place(
            lines,
            first,
            indent,
            count,
            literal_offset(lines, first, indent, j) + k,
        ) == (Place { line: first + j, col: content_col(lines, indent, first + j) + k }),
        literal_offset(lines, first, indent, j) >= 0,
    decreases j,
{
    if j > 0 {
        lemma_literal_offset(lines, first + 1, indent, count - 1, j - 1, k);
    }
}

/// Literal blocks are mapped completely. When a value is the lines of a block
/// without their indentation, blank lines included, each character is where
/// the file has it: column `k` of content line `j` is that far behind the
/// indentation of line `first + j`, and a line break is at the end of its line.
pub proof fn law_literal_blocks_are_mapped(
    lines: Seq<Seq<char>>,
    value: Seq<char>,
    first: int,
    count: int,
    indent: int,
    breaks: int,
    j: int,
    k: int,
)
    requires
        0 <= first,
        0 <= indent,
        first + count <= lines.len(),
        value.is_prefix_of(literal_text(lines, first, indent, count)),
        value.len() == literal_text(lines, first, indent, count).len() ==> first + count
            < lines.len(),
        starts_with_breaks(value, breaks),
        0 <= j < count,
        0 <= k <= content(lines, indent, first + j).len(),
        literal_offset(lines, first, indent, j) + k < value.len(),
    ensures
        ({
            // The parser marks the first line that is not blank, counted from one.
            let spans = scalar_spans(
                lines,
                value,
                ScalarStyle::Literal,
                first + breaks + 1,
                indent,
            );
            let col = content_col(lines, indent, first + j) + k;
            spans[literal_offset(lines, first, indent, j) + k] == (
                Place { line: first + j, col },
                Place { line: first + j, col: col + 1 },
            )
        }),
{
    lemma_leading_breaks(value, breaks);
    lemma_literal_offset(lines, first, indent, count, j, k);
    lemma_literal_aligned(lines, value, first, count, indent, 0, false);
    assert(value.skip(0) =~= value);
    assert(lines[first] == line_at(lines, first));
    assert(literal_place(lines, first, indent, count, 0) == content_start(
        lines,
        value,
        ScalarStyle::Literal,
        first + breaks + 1,
        indent,
    ));
}

/// The spans of characters that take one column each.
pub open spec fn single_spans(places: Seq<Place>) -> Seq<(Place, Place)> {
    places.map_values(|at: Place| (at, Place { line: at.line, col: at.col + 1 }))
}

/// The ends of `count` lines.
pub open spec fn line_ends(lines: Seq<Seq<char>>, first: int, count: int) -> Seq<Place> {
    Seq::new(
        count as nat,
        |i: int| Place { line: first + i, col: lines[first + i].len() as int },
    )
}

pub open spec fn breaks(count: int) -> Seq<char> {
    Seq::new(count as nat, |i: int| '\n')
}

/// How many characters stand for the way from one text line of a folded block
/// to the next: a space, or one line break for each blank line between them.
pub open spec fn gap(from: int, to: int) -> int {
    if to == from + 1 {
        1
    } else {
        to - from - 1
    }
}

pub open spec fn gap_text(from: int, to: int) -> Seq<char> {
    if to == from + 1 {
        seq![' ']
    } else {
        breaks(to - from - 1)
    }
}

/// The text of a folded block whose text lines have the given numbers.
pub open spec fn folded_text(lines: Seq<Seq<char>>, indent: int, text: Seq<int>) -> Seq<char>
    decreases text.len(),
{
    if text.len() == 0 {
        Seq::empty()
    } else if text.len() == 1 {
        content(lines, indent, text[0]).push('\n')
    } else {
        content(lines, indent, text[0]) + gap_text(text[0], text[1]) + folded_text(
            lines,
            indent,
            text.drop_first(),
        )
    }
}

/// Where the characters of the content of a line are.
pub open spec fn content_places(lines: Seq<Seq<char>>, indent: int, line: int) -> Seq<Place> {
    Seq::new(content(lines, indent, line).len(), |k: int| Place { line, col: indent + k })
}

/// Where the characters of a folded block are: those of the text lines in
/// their lines, and those that stand for line breaks at line ends.
pub open spec fn folded_places(lines: Seq<Seq<char>>, indent: int, text: Seq<int>) -> Seq<Place>
    decreases text.len(),
{
    if text.len() == 0 {
        Seq::empty()
    } else if text.len() == 1 {
        content_places(lines, indent, text[0]) + line_ends(lines, text[0], 1)
    } else {
        content_places(lines, indent, text[0]) + line_ends(
            lines,
            text[0],
            gap(text[0], text[1]),
        ) + folded_places(lines, indent, text.drop_first())
    }
}

/// Whether no line holds a line break.
pub open spec fn are_lines(lines: Seq<Seq<char>>) -> bool {
    forall|l: int, i: int|
        0 <= l < lines.len() && 0 <= i < lines[l].len() ==> #[trigger] lines[l][i] != '\n'
}

/// Whether the text lines of a folded block are those numbered: they do not
/// start with a blank, and the lines between them hold no content.
pub open spec fn is_folded(lines: Seq<Seq<char>>, indent: int, text: Seq<int>) -> bool {
    &&& forall|j: int|
        0 <= j < text.len() ==> {
            &&& 0 <= #[trigger] text[j] < lines.len()
            &&& indent < lines[text[j]].len()
            &&& lines[text[j]][indent] != ' '
            &&& lines[text[j]][indent] != '\t'
        }
    &&& forall|j: int, l: int|
        0 <= j < text.len() - 1 && text[j] < l < text[j + 1] ==> (#[trigger] lines[l]).len()
            <= indent && #[trigger] text[j] == text[j]
    &&& forall|j: int| 0 <= j < text.len() - 1 ==> #[trigger] text[j] < text[j + 1]
}

proof fn lemma_run(
    lines: Seq<Seq<char>>,
    indent: int,
    line: int,
    k: int,
    rest: Seq<char>,
    in_break: bool,
)
    requires
        are_lines(lines),
        0 <= line < lines.len(),
        0 <= indent < lines[line].len(),
        0 <= k < content(lines, indent, line).len(),
    ensures
        align_all(
            lines,
            ScalarStyle::Folded,
            Some(indent),
            content(lines, indent, line).skip(k) + rest,
            Place { line, col: indent + k },
            in_break,
        ) == single_spans(content_places(lines, indent, line).skip(k)) + align_all(
            lines,
            ScalarStyle::Folded,
            Some(indent),
            rest,
            Place { line, col: lines[line].len() as int },
            false,
        ),
    decreases content(lines, indent, line).len() - k,
{
    let own = content(lines, indent, line);
    let at = Place { line, col: indent + k };
    let text = own.skip(k) + rest;
    let after = place_after(lines, Some(indent), at);
    assert(text[0] == own[k] && own[k] == lines[line][indent + k]);
    assert(lines[line][indent + k] != '\n');
    let end = Place { line, col: indent + k + 1 };
    assert(align_char(lines, ScalarStyle::Folded, Some(indent), text[0], at, in_break) == Some(
        Aligned { start: at, end, next: after, in_break: false },
    ));
    assert(text.drop_first() =~= own.skip(k + 1) + rest);
    let places = content_places(lines, indent, line);
    assert(single_spans(places.skip(k)) =~= seq![(at, end)] + single_spans(places.skip(k + 1)));
    let tail = align_all(
        lines,
        ScalarStyle::Folded,
        Some(indent),
        rest,
        Place { line, col: lines[line].len() as int },
        false,
    );
    if k + 1 < own.len() {
        lemma_run(lines, indent, line, k + 1, rest, false);
    } else {
        assert(own.skip(k + 1) + rest =~= rest);
        assert(single_spans(places.skip(k + 1)) =~= Seq::<(Place, Place)>::empty());
        assert(single_spans(places.skip(k + 1)) + tail =~= tail);
    }
    assert(seq![(at, end)] + (single_spans(places.skip(k + 1)) + tail) =~= single_spans(
        places.skip(k),
    ) + tail);
}

proof fn lemma_breaks(
    lines: Seq<Seq<char>>,
    indent: int,
    line: int,
    count: int,
    rest: Seq<char>,
    in_break: bool,
)
    requires
        0 <= line,
        0 <= indent,
        0 < count,
        line + count < lines.len(),
        forall|l: int| line < l < line + count ==> (#[trigger] lines[l]).len() <= indent,
    ensures
        align_all(
            lines,
            ScalarStyle::Folded,
            Some(indent),
            breaks(count) + rest,
            Place { line, col: lines[line].len() as int },
            in_break,
        ) == single_spans(line_ends(lines, line, count)) + align_all(
            lines,
            ScalarStyle::Folded,
            Some(indent),
            rest,
            Place { line: line + count, col: content_col(lines, indent, line + count) },
            true,
        ),
    decreases count,
{
    let at = Place { line, col: lines[line].len() as int };
    let text = breaks(count) + rest;
    let after = place_after(lines, Some(indent), at);
    let end = Place { line, col: at.col + 1 };
    assert(text[0] == '\n');
    assert(align_char(lines, ScalarStyle::Folded, Some(indent), '\n', at, in_break) == Some(
        Aligned { start: at, end, next: after, in_break: true },
    ));
    assert(text.drop_first() =~= breaks(count - 1) + rest);
    let spans = single_spans(line_ends(lines, line, count));
    let more = single_spans(line_ends(lines, line + 1, count - 1));
    assert(spans =~= seq![(at, end)] + more);
    let tail = align_all(
        lines,
        ScalarStyle::Folded,
        Some(indent),
        rest,
        Place { line: line + count, col: content_col(lines, indent, line + count) },
        true,
    );
    if count > 1 {
        assert(lines[line + 1].len() <= indent);
        lemma_breaks(lines, indent, line + 1, count - 1, rest, true);
    } else {
        assert(breaks(0) + rest =~= rest);
        assert(more + tail =~= tail);
    }
    assert(seq![(at, end)] + (more + tail) =~= spans + tail);
}

proof fn lemma_later_folded(lines: Seq<Seq<char>>, indent: int, text: Seq<int>)
    requires
        is_folded(lines, indent, text),
        text.len() > 0,
    ensures
        is_folded(lines, indent, text.drop_first()),
{
    let later = text.drop_first();
    assert forall|j: int| 0 <= j < later.len() - 1 implies #[trigger] later[j] < later[j + 1] by {
        assert(text[j + 1] < text[j + 2]);
    }
    assert forall|j: int, l: int|
        0 <= j < later.len() - 1 && later[j] < l < later[j + 1] implies (#[trigger] lines[l]).len()
        <= indent && #[trigger] later[j] == later[j] by {
        assert(text[j + 1] == text[j + 1]);
    }
}

proof fn lemma_gap(
    lines: Seq<Seq<char>>,
    indent: int,
    line: int,
    next: int,
    more: Seq<char>,
)
    requires
        are_lines(lines),
        0 <= line < next < lines.len(),
        0 <= indent < lines[next].len(),
        forall|l: int| line < l < next ==> (#[trigger] lines[l]).len() <= indent,
        more.len() > 0,
        more[0] == lines[next][indent],
        more[0] != ' ',
        more[0] != '\t',
    ensures
        align_all(
            lines,
            ScalarStyle::Folded,
            Some(indent),
            gap_text(line, next) + more,
            Place { line, col: lines[line].len() as int },
            false,
        ) == single_spans(line_ends(lines, line, gap(line, next))) + align_all(
            lines,
            ScalarStyle::Folded,
            Some(indent),
            more,
            Place { line: next, col: indent },
            true,
        ),
{
    let end = Place { line, col: lines[line].len() as int };
    let gapped = gap_text(line, next);
    let ends = single_spans(line_ends(lines, line, gap(line, next)));
    if next == line + 1 {
        let stop = Place { line, col: end.col + 1 };
        assert((gapped + more)[0] == ' ');
        assert((gapped + more).drop_first() =~= more);
        assert(align_char(lines, ScalarStyle::Folded, Some(indent), ' ', end, false) == Some(
            Aligned {
                start: end,
                end: stop,
                next: Place { line: next, col: indent },
                in_break: true,
            },
        ));
        assert(ends =~= seq![(end, stop)]);
    } else {
        lemma_breaks(lines, indent, line, next - line - 1, more, false);
        // The line break in front of the next text line leaves nothing behind.
        assert(lines[next - 1].len() <= indent);
        let blank = Place { line: next - 1, col: lines[next - 1].len() as int };
        assert(align_char(lines, ScalarStyle::Folded, Some(indent), more[0], blank, true)
            == align_char(
            lines,
            ScalarStyle::Folded,
            Some(indent),
            more[0],
            Place { line: next, col: indent },
            true,
        ));
    }
}

proof fn lemma_folded(
    lines: Seq<Seq<char>>,
    indent: int,
    text: Seq<int>,
    in_break: bool,
)
    requires
        are_lines(lines),
        0 <= indent,
        is_folded(lines, indent, text),
        text.len() > 0,
    ensures
        ({
            let value = folded_text(lines, indent, text);
            let spans = single_spans(folded_places(lines, indent, text));
            let found = align_all(
                lines,
                ScalarStyle::Folded,
                Some(indent),
                value,
                Place { line: text[0], col: indent },
                in_break,
            );
            &&& spans.len() == value.len()
            &&& text.last() + 1 < lines.len() ==> found == spans
            &&& text.last() + 1 == lines.len() ==> found == spans.drop_last()
        }),
    decreases text.len(),
{
    let line = text[0];
    let own = content(lines, indent, line);
    let value = folded_text(lines, indent, text);
    let here = single_spans(content_places(lines, indent, line));
    assert(own.skip(0) =~= own);
    assert(content_places(lines, indent, line).skip(0) =~= content_places(lines, indent, line));
    let end = Place { line, col: lines[line].len() as int };
    if text.len() == 1 {
        assert(value =~= own + seq!['\n']);
        lemma_run(lines, indent, line, 0, seq!['\n'], in_break);
        assert(single_spans(folded_places(lines, indent, text)) =~= here.push(
            (end, Place { line, col: end.col + 1 }),
        ));
        let rest = align_all(
            lines,
            ScalarStyle::Folded,
            Some(indent),
            seq!['\n'],
            end,
            false,
        );
        assert(seq!['\n'].drop_first() =~= Seq::<char>::empty());
        reveal_with_fuel(align_all, 2);
        if line + 1 < lines.len() {
            assert(rest =~= seq![(end, Place { line, col: end.col + 1 })]);
        } else {
            assert(rest =~= Seq::<(Place, Place)>::empty());
        }
    } else {
        let next = text[1];
        let later = text.drop_first();
        assert(text[0] < text[1]);
        lemma_later_folded(lines, indent, text);
        let more = folded_text(lines, indent, later);
        lemma_folded(lines, indent, later, true);
        let gapped = gap_text(line, next);
        assert(value =~= own + (gapped + more));
        lemma_run(lines, indent, line, 0, gapped + more, in_break);
        let ends = single_spans(line_ends(lines, line, gap(line, next)));
        let found_more = align_all(
            lines,
            ScalarStyle::Folded,
            Some(indent),
            more,
            Place { line: next, col: indent },
            true,
        );
        assert(more.len() > 0 && more[0] == lines[next][indent]) by {
            assert(later[0] == next);
            assert(content(lines, indent, next)[0] == lines[next][indent]);
        }
        assert forall|l: int| line < l < next implies (#[trigger] lines[l]).len() <= indent by {
            assert(text[0] == text[0]);
        }
        lemma_gap(lines, indent, line, next, more);
        let between = align_all(
            lines,
            ScalarStyle::Folded,
            Some(indent),
            gapped + more,
            end,
            false,
        );
        assert(between == ends + found_more);
        let places = single_spans(folded_places(lines, indent, text));
        let later_places = single_spans(folded_places(lines, indent, later));
        assert(places =~= here + ends + later_places);
        assert(here + (ends + found_more) =~= here + ends + found_more);
        if text.last() + 1 == lines.len() {
            assert((here + ends + later_places).drop_last() =~= here + ends
                + later_places.drop_last());
        }
    }
}

proof fn lemma_align_prefix(
    lines: Seq<Seq<char>>,
    style: ScalarStyle,
    indent: Option<int>,
    value: Seq<char>,
    whole: Seq<char>,
    at: Place,
    in_break: bool,
)
    requires
        value.is_prefix_of(whole),
        value.len() <= align_all(lines, style, indent, whole, at, in_break).len(),
    ensures
        align_all(lines, style, indent, value, at, in_break) == align_all(
            lines,
            style,
            indent,
            whole,
            at,
            in_break,
        ).take(value.len() as int),
    decreases value.len(),
{
    let all = align_all(lines, style, indent, whole, at, in_break);
    if value.len() == 0 {
        assert(all.take(0) =~= Seq::<(Place, Place)>::empty());
    } else {
        assert(value[0] == whole[0]);
        let found = align_char(lines, style, indent, whole[0], at, in_break)->Some_0;
        assert(value.drop_first().is_prefix_of(whole.drop_first())) by {
            assert(value.drop_first() =~= whole.drop_first().take(value.len() - 1));
        }
        lemma_align_prefix(
            lines,
            style,
            indent,
            value.drop_first(),
            whole.drop_first(),
            found.next,
            found.in_break,
        );
        let rest = align_all(
            lines,
            style,
            indent,
            whole.drop_first(),
            found.next,
            found.in_break,
        );
        assert(all =~= seq![(found.start, found.end)] + rest);
        assert(all.take(value.len() as int) =~= seq![(found.start, found.end)] + rest.take(
            value.len() - 1,
        ));
    }
}

/// Folded blocks are mapped completely. The characters of the text lines are
/// where the file has them, the space that two neighbouring text lines are
/// joined by is at the end of the first one, and so is the first of the line
/// breaks that stand for blank lines between them; the others are at the ends
/// of the blank lines. Blank lines in front of the text are line breaks, too.
pub proof fn law_folded_blocks_are_mapped(
    lines: Seq<Seq<char>>,
    indent: int,
    text: Seq<int>,
    leading: int,
    value: Seq<char>,
    i: int,
)
    requires
        are_lines(lines),
        0 <= indent,
        is_folded(lines, indent, text),
        text.len() > 0,
        0 <= leading <= text[0],
        forall|l: int| text[0] - leading <= l < text[0] ==> (#[trigger] lines[l]).len() <= indent,
        value.is_prefix_of(breaks(leading) + folded_text(lines, indent, text)),
        value.len() > leading,
        value.len() == leading + folded_text(lines, indent, text).len() ==> text.last() + 1
            < lines.len(),
        0 <= i < value.len(),
    ensures
        ({
            let places = line_ends(lines, text[0] - leading, leading) + folded_places(
                lines,
                indent,
                text,
            );
            scalar_spans(lines, value, ScalarStyle::Folded, text[0] + 1, indent)[i] == (
                places[i],
                Place { line: places[i].line, col: places[i].col + 1 },
            )
        }),
{
    let whole = breaks(leading) + folded_text(lines, indent, text);
    let first = text[0] - leading;
    let own = content(lines, indent, text[0]);
    assert(folded_text(lines, indent, text)[0] == own[0]);
    assert(own[0] == lines[text[0]][indent] && own[0] != '\n');
    assert(value =~= whole.take(value.len() as int));
    assert(starts_with_breaks(value, leading)) by {
        assert(value[leading] == whole[leading]);
    }
    lemma_leading_breaks(value, leading);
    let at = content_start(lines, value, ScalarStyle::Folded, text[0] + 1, indent);
    let found = align_all(lines, ScalarStyle::Folded, Some(indent), whole, at, false);
    let tail_break = leading > 0;
    let tail = align_all(
        lines,
        ScalarStyle::Folded,
        Some(indent),
        folded_text(lines, indent, text),
        Place { line: text[0], col: indent },
        tail_break,
    );
    lemma_folded(lines, indent, text, tail_break);
    let ends = single_spans(line_ends(lines, first, leading));
    if leading > 0 {
        assert(lines[first].len() <= indent);
        lemma_breaks(lines, indent, first, leading, folded_text(lines, indent, text), false);
    } else {
        assert(whole =~= folded_text(lines, indent, text));
        assert(ends + tail =~= tail);
    }
    assert(found == ends + tail);
    lemma_align_prefix(
        lines,
        ScalarStyle::Folded,
        Some(indent),
        value,
        whole,
        at,
        false,
    );
    let spans = single_spans(folded_places(lines, indent, text));
    if i < leading {
        assert(found[i] == ends[i]);
    } else {
        assert(found[i] == tail[i - leading]);
        assert(tail[i - leading] == spans[i - leading]);
    }
}

// ---------------------------------------------------------------------------
// Plain and quoted scalars
// ---------------------------------------------------------------------------

/// A character of a scalar as it is written: what it decodes to, and how many
/// columns it takes.
pub struct Piece {
    pub c: char,
    pub width: int,
}

/// The part of a plain or quoted scalar that is on one line.
pub struct Segment {
    pub line: int,
    pub col: int,
    pub pieces: Seq<Piece>,
}

/// Whether a piece is written at a column of a line: as itself, as a doubled
/// quote in a single-quoted scalar, or as an escape in a double-quoted one.
pub open spec fn is_written(style: ScalarStyle, line: Seq<char>, col: int, piece: Piece) -> bool {
    &&& 0 <= col < line.len()
    &&& line[col] != '\n'
    &&& match style {
        ScalarStyle::Plain => line[col] == piece.c && piece.width == 1,
        ScalarStyle::SingleQuoted => if piece.c == '\'' {
            &&& piece.width == 2
            &&& col + 1 < line.len()
            &&& line[col] == '\''
            &&& line[col + 1] == '\''
        } else {
            line[col] == piece.c && piece.width == 1
        },
        ScalarStyle::DoubleQuoted => if line[col] == '\\' {
            &&& col + 1 < line.len()
            &&& col + piece.width <= line.len()
            &&& piece.width == (if line[col + 1] == 'x' {
                4
            } else if line[col + 1] == 'u' {
                6
            } else if line[col + 1] == 'U' {
                10
            } else {
                2int
            })
        } else {
            line[col] == piece.c && piece.width == 1
        },
        _ => false,
    }
}

/// Whether pieces are written one after the other from a column on.
pub open spec fn are_written(
    style: ScalarStyle,
    line: Seq<char>,
    col: int,
    pieces: Seq<Piece>,
) -> bool
    decreases pieces.len(),
{
    pieces.len() > 0 ==> {
        &&& is_written(style, line, col, pieces[0])
        &&& are_written(style, line, col + pieces[0].width, pieces.drop_first())
    }
}

/// The column behind some pieces.
pub open spec fn column_behind(col: int, pieces: Seq<Piece>) -> int
    decreases pieces.len(),
{
    if pieces.len() == 0 {
        col
    } else {
        column_behind(col + pieces[0].width, pieces.drop_first())
    }
}

pub open spec fn piece_text(pieces: Seq<Piece>) -> Seq<char> {
    pieces.map_values(|piece: Piece| piece.c)
}

/// The spans of pieces: each one is mapped as a whole.
pub open spec fn piece_spans(line: int, col: int, pieces: Seq<Piece>) -> Seq<(Place, Place)>
    decreases pieces.len(),
{
    if pieces.len() == 0 {
        Seq::empty()
    } else {
        let next = col + pieces[0].width;
        seq![(Place { line, col }, Place { line, col: next })] + piece_spans(
            line,
            next,
            pieces.drop_first(),
        )
    }
}

/// Whether the line break behind a segment is escaped.
pub open spec fn break_escaped(
    lines: Seq<Seq<char>>,
    style: ScalarStyle,
    segment: Segment,
) -> bool {
    let col = column_behind(segment.col, segment.pieces);
    &&& style == ScalarStyle::DoubleQuoted
    &&& col + 1 == lines[segment.line].len()
    &&& lines[segment.line][col] == '\\'
}

/// How the way from one segment to the next decodes: to nothing when the line
/// break is escaped, to a space from line to line, and otherwise to one line
/// break for each blank line between them.
pub open spec fn fold_text(
    lines: Seq<Seq<char>>,
    style: ScalarStyle,
    from: Segment,
    to: Segment,
) -> Seq<char> {
    if break_escaped(lines, style, from) {
        Seq::empty()
    } else if to.line == from.line + 1 {
        seq![' ']
    } else {
        breaks(to.line - from.line - 1)
    }
}

/// The space is at the end of its line, and the line breaks are at the ends of
/// the blank lines.
pub open spec fn fold_places(
    lines: Seq<Seq<char>>,
    style: ScalarStyle,
    from: Segment,
    to: Segment,
) -> Seq<Place> {
    if break_escaped(lines, style, from) {
        Seq::empty()
    } else if to.line == from.line + 1 {
        line_ends(lines, from.line, 1)
    } else {
        line_ends(lines, from.line + 1, to.line - from.line - 1)
    }
}

pub open spec fn flow_text(
    lines: Seq<Seq<char>>,
    style: ScalarStyle,
    segments: Seq<Segment>,
) -> Seq<char>
    decreases segments.len(),
{
    if segments.len() == 0 {
        Seq::empty()
    } else if segments.len() == 1 {
        piece_text(segments[0].pieces)
    } else {
        piece_text(segments[0].pieces) + fold_text(lines, style, segments[0], segments[1])
            + flow_text(lines, style, segments.drop_first())
    }
}

pub open spec fn flow_spans(
    lines: Seq<Seq<char>>,
    style: ScalarStyle,
    segments: Seq<Segment>,
) -> Seq<(Place, Place)>
    decreases segments.len(),
{
    if segments.len() == 0 {
        Seq::empty()
    } else {
        let here = piece_spans(segments[0].line, segments[0].col, segments[0].pieces);
        if segments.len() == 1 {
            here
        } else {
            here + single_spans(fold_places(lines, style, segments[0], segments[1]))
                + flow_spans(lines, style, segments.drop_first())
        }
    }
}

pub open spec fn is_space(c: char) -> bool {
    c == ' ' || c == '\t'
}

pub open spec fn all_spaces(line: Seq<char>, from: int) -> bool {
    forall|i: int| from <= i < line.len() ==> is_space(#[trigger] line[i])
}

/// Whether a segment is written in its line. Something that is no blank is at
/// its end or behind it, so that its blanks are not trailing ones.
pub open spec fn is_segment(lines: Seq<Seq<char>>, style: ScalarStyle, segment: Segment) -> bool {
    let line = lines[segment.line];
    &&& 0 <= segment.line < lines.len()
    &&& 0 <= segment.col
    &&& segment.pieces.len() > 0
    &&& are_written(style, line, segment.col, segment.pieces)
    &&& !all_spaces(line, column_behind(segment.col, segment.pieces) - 1)
}

/// Whether a segment continues the one before it: it starts with the first
/// character of its line that is no blank, nothing but blanks follows the one
/// before it, and only blank lines come between them.
pub open spec fn continues(
    lines: Seq<Seq<char>>,
    style: ScalarStyle,
    from: Segment,
    to: Segment,
) -> bool {
    let line = lines[to.line];
    &&& from.line < to.line < lines.len()
    &&& forall|i: int| 0 <= i < to.col ==> is_space(#[trigger] line[i])
    &&& !is_space(line[to.col])
    &&& if break_escaped(lines, style, from) {
        to.line == from.line + 1
    } else {
        all_spaces(lines[from.line], column_behind(from.col, from.pieces))
    }
    &&& forall|l: int| from.line < l < to.line ==> all_spaces(#[trigger] lines[l], 0)
}

pub open spec fn are_segments(
    lines: Seq<Seq<char>>,
    style: ScalarStyle,
    segments: Seq<Segment>,
) -> bool {
    &&& forall|j: int|
        0 <= j < segments.len() ==> is_segment(lines, style, #[trigger] segments[j])
    &&& forall|j: int|
        0 <= j < segments.len() - 1 ==> continues(
            lines,
            style,
            #[trigger] segments[j],
            segments[j + 1],
        )
}

proof fn lemma_leading_blanks_is(line: Seq<char>, n: int)
    requires
        0 <= n <= line.len(),
        forall|i: int| 0 <= i < n ==> is_space(#[trigger] line[i]),
        n < line.len() ==> !is_space(line[n]),
    ensures
        leading_blanks(line) == n,
    decreases line.len(),
{
    if n > 0 {
        assert(is_space(line[0]));
        let rest = line.drop_first();
        assert forall|i: int| 0 <= i < n - 1 implies is_space(#[trigger] rest[i]) by {
            assert(is_space(line[i + 1]));
        }
        lemma_leading_blanks_is(rest, n - 1);
    }
}

proof fn lemma_column_behind(
    style: ScalarStyle,
    line: Seq<char>,
    col: int,
    pieces: Seq<Piece>,
)
    requires
        are_written(style, line, col, pieces),
        pieces.len() > 0,
    ensures
        col < column_behind(col, pieces) <= line.len(),
    decreases pieces.len(),
{
    reveal_with_fuel(column_behind, 2);
    let rest = pieces.drop_first();
    let next = col + pieces[0].width;
    if rest.len() > 0 {
        lemma_column_behind(style, line, next, rest);
    }
}

proof fn lemma_pieces(
    lines: Seq<Seq<char>>,
    style: ScalarStyle,
    line: int,
    col: int,
    pieces: Seq<Piece>,
    rest: Seq<char>,
    in_break: bool,
)
    requires
        0 <= line < lines.len(),
        0 <= col,
        pieces.len() > 0,
        are_written(style, lines[line], col, pieces),
        !all_spaces(lines[line], column_behind(col, pieces) - 1),
    ensures
        align_all(lines, style, None, piece_text(pieces) + rest, Place { line, col }, in_break)
            == piece_spans(line, col, pieces) + align_all(
            lines,
            style,
            None,
            rest,
            Place { line, col: column_behind(col, pieces) },
            false,
        ),
    decreases pieces.len(),
{
    let own = lines[line];
    let at = Place { line, col };
    let piece = pieces[0];
    let next = Place { line, col: col + piece.width };
    let later = pieces.drop_first();
    let text = piece_text(pieces) + rest;
    assert(text[0] == piece.c);
    assert(text.drop_first() =~= piece_text(later) + rest);
    lemma_column_behind(style, own, col, pieces);
    if is_blank(own[col]) {
        let q = choose|q: int|
            column_behind(col, pieces) - 1 <= q < own.len() && !is_space(#[trigger] own[q]);
        assert(!is_blank(own[q]));
        assert(!blank_from(own, col));
    }
    assert(align_char(lines, style, None, piece.c, at, in_break) == Some(
        Aligned { start: at, end: next, next, in_break: false },
    ));
    let tail = align_all(
        lines,
        style,
        None,
        rest,
        Place { line, col: column_behind(col, pieces) },
        false,
    );
    if later.len() > 0 {
        lemma_pieces(lines, style, line, next.col, later, rest, false);
    } else {
        assert(piece_text(later) + rest =~= rest);
        assert(piece_spans(line, next.col, later) + tail =~= tail);
    }
    assert(seq![(at, next)] + (piece_spans(line, next.col, later) + tail) =~= piece_spans(
        line,
        col,
        pieces,
    ) + tail);
}

/// Where the search goes on at the end of a line.
proof fn lemma_line_end(
    lines: Seq<Seq<char>>,
    style: ScalarStyle,
    c: char,
    line: int,
    col: int,
    in_break: bool,
)
    requires
        0 <= line < lines.len(),
        0 <= col <= lines[line].len(),
        all_spaces(lines[line], col),
    ensures
        align_char(lines, style, None, c, Place { line, col }, in_break) == align_char(
            lines,
            style,
            None,
            c,
            Place { line, col: lines[line].len() as int },
            in_break,
        ),
{
    if col < lines[line].len() {
        assert(is_space(lines[line][col]));
        assert forall|i: int| col <= i < lines[line].len() implies is_blank(
            #[trigger] lines[line][i],
        ) by {
            assert(is_space(lines[line][i]));
        }
    }
}

proof fn lemma_flow_breaks(
    lines: Seq<Seq<char>>,
    style: ScalarStyle,
    line: int,
    count: int,
    next_col: int,
    rest: Seq<char>,
)
    requires
        0 <= line,
        0 < count,
        line + count < lines.len(),
        forall|l: int| line <= l < line + count ==> all_spaces(#[trigger] lines[l], 0),
        0 <= next_col < lines[line + count].len(),
        forall|i: int| 0 <= i < next_col ==> is_space(#[trigger] lines[line + count][i]),
        !is_space(lines[line + count][next_col]),
    ensures
        align_all(
            lines,
            style,
            None,
            breaks(count) + rest,
            Place { line, col: lines[line].len() as int },
            true,
        ) == single_spans(line_ends(lines, line, count)) + align_all(
            lines,
            style,
            None,
            rest,
            Place { line: line + count, col: next_col },
            true,
        ),
    decreases count,
{
    let at = Place { line, col: lines[line].len() as int };
    let text = breaks(count) + rest;
    let after = place_after(lines, None, at);
    let end = Place { line, col: at.col + 1 };
    assert(text[0] == '\n');
    assert(align_char(lines, style, None, '\n', at, true) == Some(
        Aligned { start: at, end, next: after, in_break: true },
    ));
    assert(text.drop_first() =~= breaks(count - 1) + rest);
    let spans = single_spans(line_ends(lines, line, count));
    let more = single_spans(line_ends(lines, line + 1, count - 1));
    assert(spans =~= seq![(at, end)] + more);
    let tail = align_all(
        lines,
        style,
        None,
        rest,
        Place { line: line + count, col: next_col },
        true,
    );
    if count > 1 {
        assert(all_spaces(lines[line + 1], 0));
        lemma_leading_blanks_is(lines[line + 1], lines[line + 1].len() as int);
        lemma_flow_breaks(lines, style, line + 1, count - 1, next_col, rest);
    } else {
        lemma_leading_blanks_is(lines[line + 1], next_col);
        assert(breaks(0) + rest =~= rest);
        assert(more + tail =~= tail);
    }
    assert(seq![(at, end)] + (more + tail) =~= spans + tail);
}

proof fn lemma_fold(
    lines: Seq<Seq<char>>,
    style: ScalarStyle,
    from: Segment,
    to: Segment,
    rest: Seq<char>,
)
    requires
        !is_block(style),
        is_segment(lines, style, from),
        is_segment(lines, style, to),
        continues(lines, style, from, to),
        rest.len() > 0,
    ensures
        align_all(
            lines,
            style,
            None,
            fold_text(lines, style, from, to) + rest,
            Place { line: from.line, col: column_behind(from.col, from.pieces) },
            false,
        ) == single_spans(fold_places(lines, style, from, to)) + align_all(
            lines,
            style,
            None,
            rest,
            Place { line: to.line, col: to.col },
            true,
        ),
{
    let line = lines[from.line];
    let col = column_behind(from.col, from.pieces);
    lemma_column_behind(style, line, from.col, from.pieces);
    lemma_column_behind(style, lines[to.line], to.col, to.pieces);
    let at = Place { line: from.line, col };
    let end = Place { line: from.line, col: line.len() as int };
    let goal = Place { line: to.line, col: to.col };
    let text = fold_text(lines, style, from, to) + rest;
    let ends = single_spans(fold_places(lines, style, from, to));
    let tail = align_all(lines, style, None, rest, goal, true);
    if break_escaped(lines, style, from) {
        lemma_leading_blanks_is(lines[to.line], to.col);
        assert(text =~= rest);
        assert(place_after(lines, None, at) == end);
        assert(place_after(lines, None, end) == goal);
        assert(align_char(lines, style, None, rest[0], at, false) == align_char(
            lines,
            style,
            None,
            rest[0],
            goal,
            true,
        ));
        assert(ends + tail =~= tail);
    } else if to.line == from.line + 1 {
        lemma_line_end(lines, style, ' ', from.line, col, false);
        lemma_leading_blanks_is(lines[to.line], to.col);
        let stop = Place { line: from.line, col: end.col + 1 };
        assert(text[0] == ' ');
        assert(text.drop_first() =~= rest);
        assert(align_char(lines, style, None, ' ', end, false) == Some(
            Aligned { start: end, end: stop, next: goal, in_break: true },
        ));
        assert(ends =~= seq![(end, stop)]);
    } else {
        let count = to.line - from.line - 1;
        let blank = from.line + 1;
        assert(all_spaces(lines[blank], 0));
        lemma_leading_blanks_is(lines[blank], lines[blank].len() as int);
        let start = Place { line: blank, col: lines[blank].len() as int };
        assert(text[0] == '\n');
        lemma_line_end(lines, style, '\n', from.line, col, false);
        assert(align_char(lines, style, None, '\n', end, false) == align_char(
            lines,
            style,
            None,
            '\n',
            start,
            true,
        ));
        lemma_flow_breaks(lines, style, blank, count, to.col, rest);
    }
}

proof fn lemma_flow(
    lines: Seq<Seq<char>>,
    style: ScalarStyle,
    segments: Seq<Segment>,
    in_break: bool,
)
    requires
        !is_block(style),
        segments.len() > 0,
        are_segments(lines, style, segments),
    ensures
        align_all(
            lines,
            style,
            None,
            flow_text(lines, style, segments),
            Place { line: segments[0].line, col: segments[0].col },
            in_break,
        ) == flow_spans(lines, style, segments),
        flow_text(lines, style, segments).len() > 0,
    decreases segments.len(),
{
    let first = segments[0];
    assert(is_segment(lines, style, first));
    let text = flow_text(lines, style, segments);
    let here = piece_spans(first.line, first.col, first.pieces);
    if segments.len() == 1 {
        let none = Seq::<char>::empty();
        assert(text + none =~= text);
        lemma_pieces(lines, style, first.line, first.col, first.pieces, none, in_break);
        assert(here + Seq::<(Place, Place)>::empty() =~= here);
    } else {
        let next = segments[1];
        let later = segments.drop_first();
        assert(continues(lines, style, segments[0], segments[1]));
        assert forall|j: int| 0 <= j < later.len() implies is_segment(
            lines,
            style,
            #[trigger] later[j],
        ) by {
            assert(is_segment(lines, style, segments[j + 1]));
        }
        assert forall|j: int| 0 <= j < later.len() - 1 implies continues(
            lines,
            style,
            #[trigger] later[j],
            later[j + 1],
        ) by {
            assert(continues(lines, style, segments[j + 1], segments[j + 2]));
        }
        let more = flow_text(lines, style, later);
        lemma_flow(lines, style, later, true);
        let fold = fold_text(lines, style, first, next);
        assert(text =~= piece_text(first.pieces) + (fold + more));
        lemma_pieces(lines, style, first.line, first.col, first.pieces, fold + more, in_break);
        assert(is_segment(lines, style, next));
        lemma_fold(lines, style, first, next, more);
        let ends = single_spans(fold_places(lines, style, first, next));
        let tail = flow_spans(lines, style, later);
        assert(here + (ends + tail) =~= here + ends + tail);
    }
}

/// Plain and quoted scalars are mapped completely. Every character has the
/// whole of what is written for it, doubled quotes and escapes included; a
/// space that a line break folds to is at the end of its line, and the line
/// breaks that blank lines stand for are at the ends of these lines. The parser
/// marks the first character, or the quote in front of it.
pub proof fn law_flow_scalars_are_mapped(
    lines: Seq<Seq<char>>,
    style: ScalarStyle,
    segments: Seq<Segment>,
)
    requires
        style != ScalarStyle::Literal,
        style != ScalarStyle::Folded,
        segments.len() > 0,
        are_segments(lines, style, segments),
        style == ScalarStyle::Plain || segments[0].col > 0,
    ensures
        ({
            let col = if style == ScalarStyle::Plain {
                segments[0].col
            } else {
                segments[0].col - 1
            };
            scalar_spans(
                lines,
                flow_text(lines, style, segments),
                style,
                segments[0].line + 1,
                col,
            ) == flow_spans(lines, style, segments)
        }),
{
    assert(is_segment(lines, style, segments[0]));
    lemma_flow(lines, style, segments, false);
    lemma_flow_lengths(lines, style, segments);
    let value = flow_text(lines, style, segments);
    let col = if style == ScalarStyle::Plain {
        segments[0].col
    } else {
        segments[0].col - 1
    };
    assert(scalar_spans(lines, value, style, segments[0].line + 1, col) =~= flow_spans(
        lines,
        style,
        segments,
    ));
}

proof fn lemma_piece_lengths(line: int, col: int, pieces: Seq<Piece>)
    ensures
        piece_spans(line, col, pieces).len() == pieces.len(),
    decreases pieces.len(),
{
    if pieces.len() > 0 {
        lemma_piece_lengths(line, col + pieces[0].width, pieces.drop_first());
    }
}

proof fn lemma_flow_lengths(lines: Seq<Seq<char>>, style: ScalarStyle, segments: Seq<Segment>)
    ensures
        flow_spans(lines, style, segments).len() == flow_text(lines, style, segments).len(),
    decreases segments.len(),
{
    if segments.len() > 0 {
        lemma_piece_lengths(segments[0].line, segments[0].col, segments[0].pieces);
        lemma_flow_lengths(lines, style, segments.drop_first());
    }
}

/// From the first character on that is not found, all characters have the span
/// of the last one that was; if there is none, they have the one column that
/// the parser marked.
pub proof fn law_lost_characters_have_the_last_span(
    lines: Seq<Seq<char>>,
    value: Seq<char>,
    style: ScalarStyle,
    line: int,
    col: int,
    i: int,
)
    requires
        0 <= i < value.len(),
        1 <= line,
    ensures
        ({
            let spans = scalar_spans(lines, value, style, line, col);
            let found = align_all(
                lines,
                style,
                content_indent(style, col),
                value,
                content_start(lines, value, style, line, col),
                false,
            );
            &&& i < found.len() ==> spans[i] == found[i]
            &&& 0 < found.len() <= i ==> spans[i] == spans[found.len() - 1]
            &&& found.len() == 0 ==> spans[i] == (
                Place { line: line - 1, col },
                Place { line: line - 1, col: col + 1 },
            )
        }),
{
    let found = align_all(
        lines,
        style,
        content_indent(style, col),
        value,
        content_start(lines, value, style, line, col),
        false,
    );
    lemma_found_length(
        lines,
        style,
        content_indent(style, col),
        value,
        content_start(lines, value, style, line, col),
        false,
    );
}

proof fn lemma_found_length(
    lines: Seq<Seq<char>>,
    style: ScalarStyle,
    indent: Option<int>,
    value: Seq<char>,
    at: Place,
    in_break: bool,
)
    ensures
        align_all(lines, style, indent, value, at, in_break).len() <= value.len(),
    decreases value.len(),
{
    if value.len() > 0 {
        if let Some(found) = align_char(lines, style, indent, value[0], at, in_break) {
            lemma_found_length(
                lines,
                style,
                indent,
                value.drop_first(),
                found.next,
                found.in_break,
            );
        }
    }
}

/// A plain scalar that the file does not hold at its mark has the marked column
/// as the span of all its characters.
pub proof fn law_scalars_that_are_not_there_are_at_their_mark(
    lines: Seq<Seq<char>>,
    value: Seq<char>,
    line: int,
    col: int,
    i: int,
)
    requires
        0 <= i < value.len(),
        1 <= line <= lines.len(),
        0 <= col < lines[line - 1].len(),
        lines[line - 1][col] != value[0],
        !is_blank(lines[line - 1][col]),
        lines[line - 1][col] != '\n',
    ensures
        scalar_spans(lines, value, ScalarStyle::Plain, line, col)[i] == (
            Place { line: line - 1, col },
            Place { line: line - 1, col: col + 1 },
        ),
{
    law_lost_characters_have_the_last_span(lines, value, ScalarStyle::Plain, line, col, i);
    let at = Place { line: line - 1, col };
    assert(align_char(lines, ScalarStyle::Plain, None, value[0], at, false) is None);
}

} // verus!
