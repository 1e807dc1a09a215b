//! Virtual shell documents and the map from their characters to the YAML file.

use vstd::prelude::*;

use crate::seqs::{first_from, first_index, lemma_first_from, lemma_first_from_is};
use crate::source::Pos;
use crate::text::{
    char_count, chars_of, lemma_line_end_after, lemma_line_end_range, lemma_line_starts,
    lemma_line_starts_prefix, lemma_utf16_len_bounds, lemma_walk_units_exact,
    lemma_walk_units_least, line_end, line_starts, newlines, string_of,
    units_between, utf16_len, walk, walk_units,
};

verus! {

/// The full, half-open source span of a decoded character (including escape syntax).
#[derive(Clone, Copy, Debug, PartialEq, Eq, Structural)]
pub struct SourceSpan {
    pub start: Pos,
    pub end: Pos,
}

impl SourceSpan {
    /// The span of one source character.
    pub fn single(start: Pos) -> (r: Self)
        requires
            start.col < usize::MAX,
        ensures
            r.start == start,
            r.end.line == start.line,
            r.end.col == start.col + 1,
    {
        SourceSpan { start, end: start.next() }
    }

    /// Whether the columns stay within what one line can hold.
    pub open spec fn fits(self) -> bool {
        self.start.col <= isize::MAX && self.end.col <= isize::MAX
    }
}

/// A virtual shell document: its text, and where each character came from.
pub struct ScriptModel {
    pub name: Seq<char>,
    pub text: Seq<char>,
    /// Source span of every character; `None` for synthetic text.
    pub map: Seq<Option<SourceSpan>>,
}

/// The offset of an LSP position in a text: the first character at or past the
/// UTF-16 column, the end of the line when it is shorter, and the end of the
/// text when there is no such line.
pub open spec fn offset_at(text: Seq<char>, line: int, units: int) -> int {
    if 0 <= line < line_starts(text).len() {
        let start = line_starts(text)[line];
        walk_units(text, start, line_end(text, start), units)
    } else {
        text.len() as int
    }
}

/// The line that holds an offset: as many line breaks come before it.
pub open spec fn line_of(text: Seq<char>, offset: int) -> int {
    newlines(text.take(offset)) as int
}

/// The UTF-16 column of an offset in its line.
pub open spec fn units_of(text: Seq<char>, offset: int) -> int {
    utf16_len(text.subrange(line_starts(text.take(offset)).last(), offset)) as int
}

/// The LSP position (line, UTF-16 column) of an offset; offsets past the end
/// stand for the end.
pub open spec fn position_at(text: Seq<char>, offset: int) -> (int, int) {
    let o = if offset < text.len() {
        offset
    } else {
        text.len() as int
    };
    (line_of(text, o), units_of(text, o))
}

/// The end of the last character that has a source.
pub open spec fn last_end(map: Seq<Option<SourceSpan>>) -> Option<Pos>
    decreases map.len(),
{
    if map.len() == 0 {
        None
    } else {
        match map.last() {
            Some(span) => Some(span.end),
            None => last_end(map.drop_last()),
        }
    }
}

/// Where the character at `offset` starts in the YAML file. The end of the
/// script is the end of its last mapped character.
pub open spec fn source_of(map: Seq<Option<SourceSpan>>, offset: int) -> Option<Pos> {
    if offset < map.len() {
        match map[offset] {
            Some(span) => Some(span.start),
            None => None,
        }
    } else {
        last_end(map)
    }
}

/// The YAML range of the virtual range `start..end`.
pub open spec fn range_of(map: Seq<Option<SourceSpan>>, start: int, end: int) -> Option<
    (Pos, Pos),
> {
    match source_of(map, start) {
        None => None,
        Some(from) => {
            let to = if end > start && end - 1 < map.len() && map[end - 1] is Some {
                map[end - 1]->0.end
            } else {
                from
            };
            Some((from, if to.before(from) { from } else { to }))
        },
    }
}

pub open spec fn starts_at(pos: Pos) -> spec_fn(Option<SourceSpan>) -> bool {
    |span: Option<SourceSpan>| span is Some && span->0.start == pos
}

pub open spec fn ends_at(pos: Pos) -> spec_fn(Option<SourceSpan>) -> bool {
    |span: Option<SourceSpan>| span is Some && span->0.end == pos
}

/// The offset of the first character that starts at `pos` or, if none does,
/// the offset after the first one that ends there.
pub open spec fn offset_of(map: Seq<Option<SourceSpan>>, pos: Pos) -> Option<int> {
    match first_index(map, starts_at(pos)) {
        Some(i) => Some(i),
        None => match first_index(map, ends_at(pos)) {
            Some(i) => Some(i + 1),
            None => None,
        },
    }
}

/// A virtual shell document assembled from one or more YAML script entries.
#[derive(Debug)]
pub struct Script {
    name: String,
    text: String,
    chars: Vec<char>,
    /// Source span of every char in `chars`; `None` for synthetic text.
    map: Vec<Option<SourceSpan>>,
    line_starts: Vec<usize>,
}

impl Script {
    pub closed spec fn view(&self) -> ScriptModel {
        ScriptModel { name: self.name@, text: self.chars@, map: self.map@ }
    }

    /// The text is what the map describes, and the mapped columns are columns
    /// that a line can have.
    #[verifier::type_invariant]
    spec fn wf(self) -> bool {
        &&& self.text@ == self.chars@
        &&& self.map@.len() == self.chars@.len()
        &&& self.line_starts@.len() == line_starts(self.chars@).len()
        &&& forall|i: int|
            0 <= i < self.line_starts@.len() ==> #[trigger] self.line_starts@[i] == line_starts(
                self.chars@,
            )[i]
        &&& map_fits(self.map@)
    }

    /// The name of the script, e.g. `job/script`.
    pub fn name(&self) -> (r: &str)
        ensures
            r@ == self@.name,
    {
        self.name.as_str()
    }

    /// The text of the document.
    pub fn text(&self) -> (r: &str)
        ensures
            r@ == self@.text,
            self@.text.len() == self@.map.len(),
    {
        proof {
            use_type_invariant(self);
        }
        self.text.as_str()
    }

    pub fn new(name: String, chars: Vec<char>, map: Vec<Option<SourceSpan>>) -> (r: Self)
        requires
            map@.len() == chars@.len(),
            map_fits(map@),
        ensures
            r@ == (ScriptModel { name: name@, text: chars@, map: map@ }),
    {
        let mut starts: Vec<usize> = Vec::new();
        starts.push(0);
        let n = char_count(&chars);
        let mut i: usize = 0;
        while i < n
            invariant
                i <= n == chars@.len(),
                starts@.len() == line_starts(chars@.take(i as int)).len(),
                forall|k: int|
                    0 <= k < starts@.len() ==> #[trigger] starts@[k] == line_starts(
                        chars@.take(i as int),
                    )[k],
            decreases n - i,
        {
            proof {
                assert(chars@.take(i + 1).drop_last() =~= chars@.take(i as int));
            }
            if chars[i] == '\n' {
                starts.push(i + 1);
            }
            i = i + 1;
        }
        assert(chars@.take(i as int) =~= chars@);
        let text = string_of(chars.as_slice());
        Script { name, text, chars, map, line_starts: starts }
    }

    /// A copy of the script.
    pub fn duplicate(&self) -> (r: Self)
        ensures
            r@ == self@,
    {
        proof {
            use_type_invariant(self);
        }
        let mut chars: Vec<char> = Vec::new();
        let mut map: Vec<Option<SourceSpan>> = Vec::new();
        let mut i: usize = 0;
        while i < self.chars.len()
            invariant
                self.wf(),
                i <= self.chars@.len(),
                chars@ == self.chars@.take(i as int),
                map@ == self.map@.take(i as int),
            decreases self.chars@.len() - i,
        {
            chars.push(self.chars[i]);
            map.push(self.map[i]);
            proof {
                assert(chars@ =~= self.chars@.take(i + 1));
                assert(map@ =~= self.map@.take(i + 1));
            }
            i = i + 1;
        }
        proof {
            assert(chars@ =~= self.chars@);
            assert(map@ =~= self.map@);
        }
        Script::new(self.name.clone(), chars, map)
    }

    /// Inserts a synthetic first line, e.g. a ShellCheck directive. Positions
    /// inside it do not map back to the YAML file.
    pub fn prepend_line(self, line: &str) -> (r: Self)
        ensures
            r@ == prepended(self@, line@),
    {
        proof {
            use_type_invariant(&self);
        }
        let mut chars: Vec<char> = chars_of(line);
        chars.push('\n');
        let mut map: Vec<Option<SourceSpan>> = Vec::new();
        let mut i: usize = 0;
        while i < chars.len()
            invariant
                i <= chars@.len(),
                map@ == Seq::new(i as nat, |k: int| None::<SourceSpan>),
            decreases chars@.len() - i,
        {
            map.push(None);
            i = i + 1;
            assert(map@ =~= Seq::new(i as nat, |k: int| None::<SourceSpan>));
        }
        let mut own_chars = self.chars;
        let mut own_map = self.map;
        let ghost head = chars@;
        chars.append(&mut own_chars);
        map.append(&mut own_map);
        proof {
            assert(chars@ =~= prepended(self@, line@).text);
            assert(map@ =~= prepended(self@, line@).map);
        }
        Script::new(self.name, chars, map)
    }

    /// Converts an LSP position in the virtual document to a char offset.
    pub fn offset(&self, line: usize, utf16_col: usize) -> (r: usize)
        ensures
            r == offset_at(self@.text, line as int, utf16_col as int),
            r <= self@.text.len(),
    {
        proof {
            use_type_invariant(self);
        }
        if line < self.line_starts.len() {
            let start = self.line_starts[line];
            proof {
                lemma_line_starts(self.chars@);
            }
            let mut end: usize = start;
            while end < self.chars.len() && self.chars[end] != '\n'
                invariant
                    start <= end <= self.chars@.len(),
                    line_end(self.chars@, end as int) == line_end(self.chars@, start as int),
                decreases self.chars@.len() - end,
            {
                end = end + 1;
            }
            walk(self.chars.as_slice(), start, end, utf16_col)
        } else {
            self.chars.len()
        }
    }

    /// Converts a char offset to an LSP position (line, UTF-16 column) in the virtual document.
    pub fn position(&self, offset: usize) -> (r: (usize, usize))
        ensures
            (r.0 as int, r.1 as int) == position_at(self@.text, offset as int),
    {
        proof {
            use_type_invariant(self);
        }
        let o: usize = if offset < self.chars.len() {
            offset
        } else {
            self.chars.len()
        };
        let ghost text = self.chars@;
        let ghost line = newlines(text.take(o as int)) as int;
        proof {
            lemma_line_starts(text);
            lemma_line_starts(text.take(o as int));
            lemma_line_starts_prefix(text, o as int);
            lemma_line_end_after(text, o as int);
            assert(line_starts(text)[line] == line_starts(text).take(line + 1)[line]);
        }
        let mut found: usize = 0;
        while found < self.line_starts.len() - 1 && self.line_starts[found + 1] <= o
            invariant
                self.wf(),
                text == self.chars@,
                o <= text.len(),
                line == newlines(text.take(o as int)),
                0 <= found <= line < self.line_starts@.len(),
                line_starts(text).take(line + 1) == line_starts(text.take(o as int)),
                forall|i: int|
                    line < i < line_starts(text).len() ==> o < #[trigger] line_starts(text)[i],
            decreases self.line_starts@.len() - found,
        {
            proof {
                if found == line {
                    assert(o < line_starts(text)[line + 1]);
                }
            }
            found = found + 1;
        }
        proof {
            lemma_line_starts(text.take(o as int));
            if found < line {
                let next = found + 1;
                assert(line_starts(text)[next] == line_starts(text).take(line + 1)[next]);
            }
        }
        let start = self.line_starts[found];
        (found, units_between(&self.chars, start, o))
    }

    /// Where the character at `offset` starts in the YAML file.
    pub fn to_source(&self, offset: usize) -> (r: Option<Pos>)
        ensures
            r == source_of(self@.map, offset as int),
            r matches Some(pos) ==> pos.col <= isize::MAX,
    {
        proof {
            use_type_invariant(self);
        }
        if offset < self.map.len() {
            match self.map[offset] {
                Some(span) => Some(span.start),
                None => None,
            }
        } else {
            let mut i: usize = self.map.len();
            assert(self.map@.take(i as int) =~= self.map@);
            while i > 0
                invariant
                    i <= self.map@.len(),
                    offset >= self.map@.len(),
                    self@.map == self.map@,
                    map_fits(self.map@),
                    last_end(self.map@.take(i as int)) == last_end(self.map@),
                decreases i,
            {
                proof {
                    assert(self.map@.take(i as int).drop_last() =~= self.map@.take(i - 1));
                }
                if let Some(span) = self.map[i - 1] {
                    return Some(span.end);
                }
                i = i - 1;
            }
            None
        }
    }

    /// Maps the virtual char range `start..end` to a YAML range.
    pub fn source_range(&self, start: usize, end: usize) -> (r: Option<(Pos, Pos)>)
        ensures
            r == range_of(self@.map, start as int, end as int),
            r matches Some((from, to)) ==> from.col <= isize::MAX && to.col <= isize::MAX,
    {
        proof {
            use_type_invariant(self);
        }
        let from = match self.to_source(start) {
            Some(from) => from,
            None => return None,
        };
        let mut to = from;
        if end > start && end - 1 < self.map.len() {
            if let Some(span) = self.map[end - 1] {
                to = span.end;
            }
        }
        if to.is_before(from) {
            to = from;
        }
        Some((from, to))
    }

    /// Returns the virtual char offset for a YAML position inside this script.
    /// A position just after the last char of a line also matches, so that
    /// completion at the end of a command works. Positions inside a YAML escape
    /// are not decoded character boundaries and deliberately do not match.
    pub fn offset_of_source(&self, pos: Pos) -> (r: Option<usize>)
        ensures
            match r {
                Some(i) => offset_of(self@.map, pos) == Some(i as int),
                None => offset_of(self@.map, pos) is None,
            },
            r matches Some(i) ==> i <= self@.text.len(),
    {
        proof {
            use_type_invariant(self);
        }
        let mut i: usize = 0;
        while i < self.map.len()
            invariant
                i <= self.map@.len(),
                self.map@.len() == self@.text.len(),
                self@.map == self.map@,
                first_from(self.map@, starts_at(pos), i as int) == first_index(
                    self.map@,
                    starts_at(pos),
                ),
            decreases self.map@.len() - i,
        {
            if let Some(span) = self.map[i] {
                if span.start == pos {
                    return Some(i);
                }
            }
            i = i + 1;
        }
        let mut i: usize = 0;
        while i < self.map.len()
            invariant
                i <= self.map@.len(),
                first_index(self.map@, starts_at(pos)) is None,
                first_from(self.map@, ends_at(pos), i as int) == first_index(
                    self.map@,
                    ends_at(pos),
                ),
                self.map@.len() == self@.text.len(),
                self@.map == self.map@,
            decreases self.map@.len() - i,
        {
            if let Some(span) = self.map[i] {
                if span.end == pos {
                    return Some(i + 1);
                }
            }
            i = i + 1;
        }
        None
    }
}

/// Every mapped column is one that a line can have.
pub open spec fn map_fits(map: Seq<Option<SourceSpan>>) -> bool {
    forall|i: int| 0 <= i < map.len() ==> (#[trigger] map[i] matches Some(span) ==> span.fits())
}

/// A script with a synthetic line put before it.
pub open spec fn prepended(script: ScriptModel, line: Seq<char>) -> ScriptModel {
    ScriptModel {
        name: script.name,
        text: line.push('\n') + script.text,
        map: Seq::new(line.len() + 1, |i: int| None::<SourceSpan>) + script.map,
    }
}

// ---------------------------------------------------------------------------
// Laws
// ---------------------------------------------------------------------------

/// The LSP position of an offset leads back to that offset.
pub proof fn law_position_round_trip(text: Seq<char>, offset: int)
    requires
        0 <= offset <= text.len(),
    ensures
        ({
            let (line, units) = position_at(text, offset);
            offset_at(text, line, units) == offset
        }),
{
    lemma_line_starts(text);
    lemma_line_starts(text.take(offset));
    lemma_line_starts_prefix(text, offset);
    lemma_line_end_after(text, offset);
    let line = line_of(text, offset);
    assert(line_starts(text)[line] == line_starts(text).take(line + 1)[line]);
    let start = line_starts(text)[line];
    lemma_walk_units_exact(text, start, offset, line_end(text, start));
}

/// Positions stay within what the text can hold.
pub proof fn lemma_position_bounds(text: Seq<char>, offset: int)
    requires
        0 <= offset <= text.len(),
    ensures
        0 <= position_at(text, offset).0 <= text.len(),
        0 <= position_at(text, offset).1 <= 2 * text.len(),
{
    let part = text.take(offset);
    lemma_line_starts(part);
    lemma_newlines_bound(part);
    let start = line_starts(part).last();
    lemma_utf16_len_bounds(text.subrange(start, offset));
}

proof fn lemma_newlines_bound(s: Seq<char>)
    ensures
        newlines(s) <= s.len(),
    decreases s.len(),
{
    if s.len() > 0 {
        lemma_newlines_bound(s.drop_last());
    }
}

/// A YAML position is inside a script exactly when a mapped character starts
/// or ends there. In particular no position inside an escape is.
pub proof fn law_only_boundaries_match(map: Seq<Option<SourceSpan>>, pos: Pos)
    ensures
        offset_of(map, pos) is Some <==> exists|i: int|
            0 <= i < map.len() && (#[trigger] map[i]) is Some && (map[i]->0.start == pos
                || map[i]->0.end == pos),
        offset_of(map, pos) matches Some(o) ==> 0 <= o <= map.len(),
{
    lemma_first_from(map, starts_at(pos), 0);
    lemma_first_from(map, ends_at(pos), 0);
    if let Some(i) = first_index(map, starts_at(pos)) {
        assert(map[i] is Some && map[i]->0.start == pos);
    } else if let Some(i) = first_index(map, ends_at(pos)) {
        assert(map[i] is Some && map[i]->0.end == pos);
    } else {
        assert forall|i: int| 0 <= i < map.len() && (#[trigger] map[i]) is Some implies map[i]->0.start
            != pos && map[i]->0.end != pos by {
            assert(!starts_at(pos)(map[i]));
            assert(!ends_at(pos)(map[i]));
        }
    }
}

/// The start of a mapped character leads back to the first character that
/// starts there: to the character itself, when starts are distinct.
pub proof fn law_source_round_trip(map: Seq<Option<SourceSpan>>, i: int)
    requires
        0 <= i < map.len(),
        map[i] is Some,
        forall|k: int|
            0 <= k < i && (#[trigger] map[k]) is Some ==> map[k]->0.start != map[i]->0.start,
    ensures
        source_of(map, i) == Some(map[i]->0.start),
        offset_of(map, map[i]->0.start) == Some(i),
{
    let p = starts_at(map[i]->0.start);
    assert(p(map[i]));
    assert forall|k: int| 0 <= k < i implies !p(#[trigger] map[k]) by {}
    lemma_first_from_is(map, p, 0, i);
}

/// The range of one mapped character is its whole span, escapes included.
pub proof fn law_range_covers_whole_span(map: Seq<Option<SourceSpan>>, i: int)
    requires
        0 <= i < map.len(),
        map[i] is Some,
        !map[i]->0.end.before(map[i]->0.start),
    ensures
        range_of(map, i, i + 1) == Some((map[i]->0.start, map[i]->0.end)),
{
}

/// A mapped range never ends before it starts.
pub proof fn law_ranges_are_ordered(map: Seq<Option<SourceSpan>>, start: int, end: int)
    ensures
        range_of(map, start, end) matches Some((from, to)) ==> !to.before(from),
{
}

/// The synthetic line has no source, and behind it the script is mapped as before.
pub proof fn law_prepended_source(script: ScriptModel, line: Seq<char>, offset: int)
    requires
        0 <= offset,
        script.map.len() == script.text.len(),
    ensures
        offset <= line.len() ==> source_of(prepended(script, line).map, offset) is None,
        source_of(prepended(script, line).map, line.len() + 1 + offset) == source_of(
            script.map,
            offset,
        ),
{
    let n = line.len() + 1;
    let head = Seq::new(n, |i: int| None::<SourceSpan>);
    lemma_last_end_behind(head, script.map);
}

proof fn lemma_last_end_behind(head: Seq<Option<SourceSpan>>, map: Seq<Option<SourceSpan>>)
    requires
        forall|i: int| 0 <= i < head.len() ==> (#[trigger] head[i]) is None,
    ensures
        last_end(head + map) == last_end(map),
    decreases head.len() + map.len(),
{
    let all = head + map;
    if map.len() > 0 {
        assert(all.last() == map.last());
        assert(all.drop_last() =~= head + map.drop_last());
        lemma_last_end_behind(head, map.drop_last());
    } else if head.len() > 0 {
        assert(all =~= head);
        assert(head.drop_last() + map =~= head.drop_last());
        lemma_last_end_behind(head.drop_last(), map);
    } else {
        assert(all =~= map);
    }
}

/// A YAML position is found behind the synthetic line, that much further on.
pub proof fn law_prepended_offset(script: ScriptModel, line: Seq<char>, pos: Pos)
    ensures
        offset_of(prepended(script, line).map, pos) == (match offset_of(script.map, pos) {
            Some(o) => Some(o + line.len() + 1),
            None => None,
        }),
{
    let head = Seq::new(line.len() + 1, |i: int| None::<SourceSpan>);
    lemma_first_behind(head, script.map, starts_at(pos));
    lemma_first_behind(head, script.map, ends_at(pos));
}

proof fn lemma_first_behind(
    head: Seq<Option<SourceSpan>>,
    map: Seq<Option<SourceSpan>>,
    p: spec_fn(Option<SourceSpan>) -> bool,
)
    requires
        forall|i: int| 0 <= i < head.len() ==> !p(#[trigger] head[i]),
    ensures
        first_index(head + map, p) == (match first_index(map, p) {
            Some(i) => Some(i + head.len()),
            None => None,
        }),
{
    let all = head + map;
    lemma_first_from(map, p, 0);
    lemma_first_from(all, p, 0);
    match first_index(map, p) {
        Some(i) => {
            assert(all[i + head.len()] == map[i]);
            assert forall|k: int| 0 <= k < i + head.len() implies !p(#[trigger] all[k]) by {
                if k < head.len() {
                    assert(all[k] == head[k]);
                } else {
                    assert(all[k] == map[k - head.len()]);
                }
            }
            lemma_first_from_is(all, p, 0, i + head.len() as int);
        },
        None => {
            if let Some(j) = first_index(all, p) {
                if j < head.len() {
                    assert(all[j] == head[j]);
                } else {
                    assert(all[j] == map[j - head.len()]);
                }
            }
        },
    }
}

/// Behind a synthetic line every position moves down by one line and keeps
/// its column.
pub proof fn law_prepended_position(script: ScriptModel, line: Seq<char>, offset: int)
    requires
        0 <= offset <= script.text.len(),
        newlines(line) == 0,
    ensures
        ({
            let (l, units) = position_at(script.text, offset);
            position_at(prepended(script, line).text, line.len() + 1 + offset) == (l + 1, units)
        }),
{
    let text = prepended(script, line).text;
    let n = line.len() + 1;
    lemma_prefixed_lines(line, script.text, offset);
    let part = script.text.take(offset);
    lemma_line_starts(part);
    assert(text.take(n + offset) =~= line.push('\n') + part);
    assert(text.subrange(n + line_starts(part).last(), n + offset) =~= script.text.subrange(
        line_starts(part).last(),
        offset,
    ));
}

proof fn lemma_prefixed_lines(line: Seq<char>, text: Seq<char>, offset: int)
    requires
        0 <= offset <= text.len(),
        newlines(line) == 0,
    ensures
        newlines(line.push('\n') + text.take(offset)) == newlines(text.take(offset)) + 1,
        line_starts(line.push('\n') + text.take(offset)).last() == line.len() + 1 + line_starts(
            text.take(offset),
        ).last(),
    decreases offset,
{
    let head = line.push('\n');
    let all = head + text.take(offset);
    if offset == 0 {
        assert(all =~= head);
        assert(head.drop_last() =~= line);
        assert(text.take(0).len() == 0);
    } else {
        assert(all.drop_last() =~= head + text.take(offset - 1));
        assert(text.take(offset).drop_last() =~= text.take(offset - 1));
        lemma_prefixed_lines(line, text, offset - 1);
        lemma_line_starts(all.drop_last());
        lemma_line_starts(text.take(offset - 1));
    }
}

/// A range that starts and ends with mapped characters is exactly what they
/// span in the file, from the start of the first to the end of the last, on
/// whatever lines they are.
pub proof fn law_ranges_reach_from_first_to_last(
    map: Seq<Option<SourceSpan>>,
    start: int,
    end: int,
)
    requires
        0 <= start < end <= map.len(),
        map[start] is Some,
        map[end - 1] is Some,
        !map[end - 1]->0.end.before(map[start]->0.start),
    ensures
        range_of(map, start, end) == Some((map[start]->0.start, map[end - 1]->0.end)),
{
}

/// An empty range is the start of its character, or the end of the last mapped
/// character at the end of the script. So is a range whose last character is
/// not mapped, is past the end, or ends before the range starts.
pub proof fn law_empty_ranges(map: Seq<Option<SourceSpan>>, start: int, end: int, last: int)
    requires
        0 <= start,
    ensures
        start < map.len() && map[start] is None ==> range_of(map, start, end) is None,
        start < map.len() && map[start] is Some && (end <= start || end > map.len() || map[end
            - 1] is None || map[end - 1]->0.end.before(map[start]->0.start)) ==> range_of(
            map,
            start,
            end,
        ) == Some((map[start]->0.start, map[start]->0.start)),
        start >= map.len() && 0 <= last < map.len() && map[last] is Some && (forall|k: int|
            last < k < map.len() ==> (#[trigger] map[k]) is None) ==> range_of(map, start, end)
            == Some((map[last]->0.end, map[last]->0.end)),
        start >= map.len() && (forall|k: int| 0 <= k < map.len() ==> (#[trigger] map[k]) is None)
            ==> range_of(map, start, end) is None,
{
    if start >= map.len() {
        if 0 <= last < map.len() && map[last] is Some && (forall|k: int|
            last < k < map.len() ==> (#[trigger] map[k]) is None) {
            lemma_last_end_is(map, last);
        }
        if forall|k: int| 0 <= k < map.len() ==> (#[trigger] map[k]) is None {
            lemma_last_end_none(map);
        }
    }
}

proof fn lemma_last_end_is(map: Seq<Option<SourceSpan>>, last: int)
    requires
        0 <= last < map.len(),
        map[last] is Some,
        forall|k: int| last < k < map.len() ==> (#[trigger] map[k]) is None,
    ensures
        last_end(map) == Some(map[last]->0.end),
    decreases map.len(),
{
    if last < map.len() - 1 {
        assert(map[map.len() - 1] is None);
        lemma_last_end_is(map.drop_last(), last);
    }
}

proof fn lemma_last_end_none(map: Seq<Option<SourceSpan>>)
    requires
        forall|k: int| 0 <= k < map.len() ==> (#[trigger] map[k]) is None,
    ensures
        last_end(map) is None,
    decreases map.len(),
{
    if map.len() > 0 {
        assert(map[map.len() - 1] is None);
        lemma_last_end_none(map.drop_last());
    }
}

/// A position at which no character starts is behind the first character that
/// ends there, so that completion at the end of a command works.
pub proof fn law_ends_lead_behind_their_character(map: Seq<Option<SourceSpan>>, i: int)
    requires
        0 <= i < map.len(),
        map[i] is Some,
        forall|k: int|
            0 <= k < map.len() && (#[trigger] map[k]) is Some ==> map[k]->0.start
                != map[i]->0.end,
        forall|k: int|
            0 <= k < i && (#[trigger] map[k]) is Some ==> map[k]->0.end != map[i]->0.end,
    ensures
        offset_of(map, map[i]->0.end) == Some(i + 1),
{
    let pos = map[i]->0.end;
    lemma_first_from(map, starts_at(pos), 0);
    if let Some(k) = first_index(map, starts_at(pos)) {
        assert(starts_at(pos)(map[k]));
    }
    assert(ends_at(pos)(map[i]));
    assert forall|k: int| 0 <= k < i implies !ends_at(pos)(#[trigger] map[k]) by {}
    lemma_first_from_is(map, ends_at(pos), 0, i);
}

/// Positions count line breaks, and UTF-16 units behind the last of them.
pub proof fn law_positions_count_lines_and_units(text: Seq<char>, offset: int)
    requires
        0 <= offset,
    ensures
        position_at(text, 0) == (0int, 0int),
        offset < text.len() ==> position_at(text, offset + 1) == (if text[offset] == '\n' {
            (position_at(text, offset).0 + 1, 0int)
        } else {
            (
                position_at(text, offset).0,
                position_at(text, offset).1 + (if text[offset] as u32 >= 0x10000 {
                    2int
                } else {
                    1int
                }),
            )
        }),
        offset >= text.len() ==> position_at(text, offset) == position_at(text, text.len() as int),
{
    assert(text.take(0).len() == 0);
    assert(text.subrange(0, 0).len() == 0);
    if offset < text.len() {
        let next = text.take(offset + 1);
        let part = text.take(offset);
        assert(next.drop_last() =~= part);
        lemma_line_starts(part);
        let start = line_starts(part).last();
        if text[offset] == '\n' {
            assert(text.subrange(offset + 1, offset + 1).len() == 0);
        } else {
            assert(text.subrange(start, offset + 1).drop_last() =~= text.subrange(start, offset));
        }
    }
}

/// A position stands for the first offset of its line that is at least as far,
/// or for the end of the line; past the last line for the end of the text.
pub proof fn law_offsets_are_the_first_to_reach(text: Seq<char>, line: int, units: int)
    requires
        0 <= line,
    ensures
        ({
            let at = offset_at(text, line, units);
            &&& 0 <= at <= text.len()
            &&& line > position_at(text, text.len() as int).0 ==> at == text.len()
            &&& line <= position_at(text, text.len() as int).0 ==> {
                &&& position_at(text, at).0 == line
                &&& at < text.len() && text[at] != '\n' ==> position_at(text, at).1 >= units
                &&& at > 0 && text[at - 1] != '\n' ==> position_at(text, at - 1).1 < units
            }
        }),
{
    lemma_line_starts(text);
    assert(text.take(text.len() as int) =~= text);
    if line < line_starts(text).len() {
        let start = line_starts(text)[line];
        lemma_line_at_start(text, line);
        lemma_line_end_range(text, start);
        let end = line_end(text, start);
        lemma_walk_units_least(text, start, end, units);
        let at = offset_at(text, line, units);
        lemma_in_line(text, line, at);
        if at > start {
            lemma_in_line(text, line, at - 1);
        }
        if at > 0 && text[at - 1] != '\n' && at == start {
            lemma_start_behind_break(text, line);
        }
        if at < text.len() && text[at] != '\n' && at == end {
            lemma_line_end_stops(text, start);
        }
    }
}

proof fn lemma_line_end_stops(text: Seq<char>, from: int)
    requires
        0 <= from <= text.len(),
    ensures
        line_end(text, from) < text.len() ==> text[line_end(text, from)] == '\n',
        forall|k: int| from <= k < line_end(text, from) ==> #[trigger] text[k] != '\n',
    decreases text.len() - from,
{
    if from < text.len() && text[from] != '\n' {
        lemma_line_end_stops(text, from + 1);
    }
}

proof fn lemma_start_behind_break(text: Seq<char>, line: int)
    requires
        0 <= line < line_starts(text).len(),
        line_starts(text)[line] > 0,
    ensures
        text[line_starts(text)[line] - 1] == '\n',
    decreases text.len(),
{
    if text.len() > 0 {
        lemma_line_starts(text.drop_last());
        if !(text.last() == '\n' && line == line_starts(text).len() - 1) {
            lemma_start_behind_break(text.drop_last(), line);
        }
    }
}

proof fn lemma_line_at_start(text: Seq<char>, line: int)
    requires
        0 <= line < line_starts(text).len(),
    ensures
        ({
            let start = line_starts(text)[line];
            &&& 0 <= start <= text.len()
            &&& newlines(text.take(start)) == line
            &&& line_starts(text.take(start)).last() == start
        }),
{
    lemma_line_starts(text);
    let start = line_starts(text)[line];
    lemma_line_starts_prefix(text, start);
    lemma_line_starts(text.take(start));
    let n = newlines(text.take(start)) as int;
    assert(line_starts(text)[n] == line_starts(text).take(n + 1)[n]);
    if n < line {
        assert(start < line_starts(text)[line]);
    } else if line < n {
        assert(line_starts(text)[line] < line_starts(text)[n]);
    }
}

proof fn lemma_in_line(text: Seq<char>, line: int, at: int)
    requires
        0 <= line < line_starts(text).len(),
        line_starts(text)[line] <= at <= line_end(text, line_starts(text)[line]),
    ensures
        position_at(text, at) == (
            line,
            utf16_len(text.subrange(line_starts(text)[line], at)) as int,
        ),
    decreases at - line_starts(text)[line],
{
    let start = line_starts(text)[line];
    lemma_line_starts(text);
    lemma_line_at_start(text, line);
    lemma_line_end_range(text, start);
    if at == start {
        assert(text.subrange(start, start).len() == 0);
    } else {
        lemma_in_line(text, line, at - 1);
        lemma_line_end_stops(text, start);
        law_positions_count_lines_and_units(text, at - 1);
        assert(text.subrange(start, at).drop_last() =~= text.subrange(start, at - 1));
    }
}

} // verus!
