//! Script-key scaffolds with explicit YAML indentation, independent of the
//! editor's choice of Enter or Tab to confirm a completion.

use vstd::prelude::*;

use crate::extract::{is_reserved, is_reserved_key};
use crate::json::{
    field, field_or_null, index_of, items_or_none, items_view, same_json, with_field, Json, JsonModel,
};
use crate::seqs::{first_from, lemma_first_from, lemma_first_from_is};
use crate::text::{
    char_count, chars_of, has_prefix, join, join_lines, lines_view, max_chars, same_text, split, split_lines,
    start_of, string_of, trim_start, white_space,
};
use crate::yaml::{
    docs_view, load_documents, nodes_view, yaml_at, yaml_documents, YamlModel, YamlNode,
};

verus! {

/// Marks completion items that came from yaml-language-server, which does not resolve items.
pub const YAML_ITEM_MARKER: &'static str = "gitlabCiYaml";

// ---------------------------------------------------------------------------
// Lines
// ---------------------------------------------------------------------------

/// A line without any `'\r'` at its end.
pub open spec fn strip_crs(line: Seq<char>) -> Seq<char>
    decreases line.len(),
{
    if line.len() > 0 && line.last() == '\r' {
        strip_crs(line.drop_last())
    } else {
        line
    }
}

/// How many spaces a line starts with.
pub open spec fn leading_spaces(line: Seq<char>) -> int
    decreases line.len(),
{
    if line.len() > 0 && line[0] == ' ' {
        1 + leading_spaces(line.skip(1))
    } else {
        0
    }
}

/// A line without the spaces behind it.
pub open spec fn strip_spaces(line: Seq<char>) -> Seq<char>
    decreases line.len(),
{
    if line.len() > 0 && line.last() == ' ' {
        strip_spaces(line.drop_last())
    } else {
        line
    }
}

/// A letter or an underscore.
pub open spec fn is_word_char(c: char) -> bool {
    ('a' <= c <= 'z') || ('A' <= c <= 'Z') || c == '_'
}

/// Whether a line holds one word of letters and underscores, or nothing, with
/// nothing but spaces around it.
pub open spec fn is_bare_word(line: Seq<char>) -> bool {
    let word = strip_spaces(line.skip(leading_spaces(line)));
    forall|i: int| 0 <= i < word.len() ==> is_word_char(#[trigger] word[i])
}

pub open spec fn is_ascii_line(line: Seq<char>) -> bool {
    forall|i: int| 0 <= i < line.len() ==> (#[trigger] line[i] as u32) < 128
}

/// Whether an entry of the root mapping may start on a line: it is not empty,
/// not indented and no comment.
pub open spec fn starts_entry(line: Seq<char>) -> bool {
    line.len() > 0 && line[0] != ' ' && line[0] != '\t' && line[0] != '\r' && line[0] != '#'
}

pub open spec fn entry_start() -> spec_fn(Seq<char>) -> bool {
    |line: Seq<char>| starts_entry(line)
}

/// The last line before `end` on which an entry may start.
pub open spec fn entry_above(lines: Seq<Seq<char>>, end: int) -> Option<int>
    decreases end,
{
    if end <= 0 {
        None
    } else if starts_entry(lines[end - 1]) {
        Some(end - 1)
    } else {
        entry_above(lines, end - 1)
    }
}

/// The first line at or after `from` on which an entry may start, or the end.
pub open spec fn entry_below(lines: Seq<Seq<char>>, from: int) -> int {
    match first_from(lines, entry_start(), from) {
        Some(i) => i,
        None => lines.len() as int,
    }
}

/// The indentation of a line that is neither blank nor a comment, if it has one.
pub open spec fn line_indent(line: Seq<char>) -> Option<int> {
    if trim_start(line).len() > 0 && trim_start(line)[0] != '#' && leading_spaces(line) > 0 {
        Some(leading_spaces(line))
    } else {
        None
    }
}

/// The smallest indentation that one of the lines has.
pub open spec fn least_indent(lines: Seq<Seq<char>>) -> Option<int>
    decreases lines.len(),
{
    if lines.len() == 0 {
        None
    } else {
        match (least_indent(lines.drop_last()), line_indent(lines.last())) {
            (Some(a), Some(b)) => Some(
                if b < a {
                    b
                } else {
                    a
                },
            ),
            (Some(a), None) => Some(a),
            (None, b) => b,
        }
    }
}

pub open spec fn has_crlf(text: Seq<char>) -> bool {
    exists|i: int| 0 <= i < text.len() - 1 && #[trigger] text[i] == '\r' && text[i + 1] == '\n'
}

fn end_without_crs(line: &Vec<char>) -> (r: usize)
    ensures
        r <= line@.len(),
        strip_crs(line@) == line@.take(r as int),
{
    let mut end: usize = line.len();
    assert(line@.take(end as int) =~= line@);
    while end > 0 && line[end - 1] == '\r'
        invariant
            end <= line@.len(),
            strip_crs(line@) == strip_crs(line@.take(end as int)),
        decreases end,
    {
        assert(line@.take(end as int).drop_last() =~= line@.take(end - 1));
        end = end - 1;
    }
    end
}

fn count_spaces(line: &[char]) -> (r: usize)
    ensures
        r == leading_spaces(line@),
        r <= line@.len(),
{
    let mut i: usize = 0;
    assert(line@.skip(0) =~= line@);
    while i < line.len() && line[i] == ' '
        invariant
            i <= line@.len(),
            leading_spaces(line@) == i + leading_spaces(line@.skip(i as int)),
        decreases line@.len() - i,
    {
        assert(line@.skip(i as int).skip(1) =~= line@.skip(i + 1));
        i = i + 1;
    }
    i
}

fn word_char(c: char) -> (r: bool)
    ensures
        r == is_word_char(c),
{
    ('a' <= c && c <= 'z') || ('A' <= c && c <= 'Z') || c == '_'
}

fn bare_word(line: &[char], indent: usize) -> (r: bool)
    requires
        indent == leading_spaces(line@),
        indent <= line@.len(),
    ensures
        r == is_bare_word(line@),
{
    let ghost rest = line@.skip(indent as int);
    let mut end: usize = line.len();
    assert(line@.subrange(indent as int, end as int) =~= rest);
    while end > indent && line[end - 1] == ' '
        invariant
            indent <= end <= line@.len(),
            strip_spaces(rest) == strip_spaces(line@.subrange(indent as int, end as int)),
        decreases end,
    {
        assert(line@.subrange(indent as int, end as int).drop_last() =~= line@.subrange(
            indent as int,
            end - 1,
        ));
        end = end - 1;
    }
    let ghost word = strip_spaces(rest);
    assert(word == line@.subrange(indent as int, end as int));
    let mut i: usize = indent;
    while i < end
        invariant
            indent <= i <= end <= line@.len(),
            word == line@.subrange(indent as int, end as int),
            word == strip_spaces(line@.skip(leading_spaces(line@))),
            forall|k: int| indent <= k < i ==> is_word_char(#[trigger] line@[k]),
        decreases end - i,
    {
        if !word_char(line[i]) {
            assert(word[i - indent] == line@[i as int]);
            return false;
        }
        i = i + 1;
    }
    true
}

fn ascii_line(line: &[char]) -> (r: bool)
    ensures
        r == is_ascii_line(line@),
{
    let mut i: usize = 0;
    while i < line.len()
        invariant
            i <= line@.len(),
            forall|k: int| 0 <= k < i ==> (#[trigger] line@[k] as u32) < 128,
        decreases line@.len() - i,
    {
        if line[i] as u32 >= 128 {
            return false;
        }
        i = i + 1;
    }
    true
}

fn entry_line(line: &Vec<char>) -> (r: bool)
    ensures
        r == starts_entry(line@),
{
    line.len() > 0 && line[0] != ' ' && line[0] != '\t' && line[0] != '\r' && line[0] != '#'
}

fn find_entry_above(lines: &Vec<Vec<char>>, end: usize) -> (r: Option<usize>)
    requires
        end <= lines@.len(),
    ensures
        match r {
            Some(i) => i < end && entry_above(lines_view(lines@), end as int) == Some(i as int),
            None => entry_above(lines_view(lines@), end as int) is None,
        },
{
    let mut i: usize = end;
    while i > 0
        invariant
            i <= end <= lines@.len(),
            entry_above(lines_view(lines@), end as int) == entry_above(
                lines_view(lines@),
                i as int,
            ),
        decreases i,
    {
        if entry_line(&lines[i - 1]) {
            return Some(i - 1);
        }
        i = i - 1;
    }
    None
}

fn find_entry_below(lines: &Vec<Vec<char>>, from: usize) -> (r: usize)
    requires
        from <= lines@.len(),
    ensures
        from <= r <= lines@.len(),
        r == entry_below(lines_view(lines@), from as int),
{
    let ghost all = lines_view(lines@);
    let mut i: usize = from;
    while i < lines.len()
        invariant
            from <= i <= lines@.len(),
            all == lines_view(lines@),
            forall|k: int| from <= k < i ==> !entry_start()(#[trigger] all[k]),
        decreases lines@.len() - i,
    {
        if entry_line(&lines[i]) {
            proof {
                lemma_first_from_is(all, entry_start(), from as int, i as int);
            }
            return i;
        }
        i = i + 1;
    }
    proof {
        lemma_first_from(all, entry_start(), from as int);
    }
    i
}

fn infer_indent(lines: &Vec<Vec<char>>) -> (r: Option<usize>)
    requires
        forall|k: int| 0 <= k < lines@.len() ==> (#[trigger] lines@[k])@.len() <= max_chars(),
    ensures
        match r {
            Some(n) => n <= max_chars() && least_indent(lines_view(lines@)) == Some(n as int),
            None => least_indent(lines_view(lines@)) is None,
        },
{
    let ghost all = lines_view(lines@);
    let mut least: Option<usize> = None;
    let mut i: usize = 0;
    assert(all.take(0) =~= Seq::<Seq<char>>::empty());
    while i < lines.len()
        invariant
            i <= lines@.len(),
            all == lines_view(lines@),
            forall|k: int| 0 <= k < lines@.len() ==> (#[trigger] lines@[k])@.len() <= max_chars(),
            match least {
                Some(n) => n <= max_chars() && least_indent(all.take(i as int)) == Some(n as int),
                None => least_indent(all.take(i as int)) is None,
            },
        decreases lines@.len() - i,
    {
        let line = lines[i].as_slice();
        proof {
            assert(all.take(i + 1).drop_last() =~= all.take(i as int));
            assert(all.take(i + 1).last() == line@);
            assert(lines@[i as int]@.len() <= max_chars());
        }
        let start = start_of(line);
        let spaces = count_spaces(line);
        if start < line.len() && line[start] != '#' && spaces > 0 {
            least = match least {
                Some(n) => if spaces < n {
                    Some(spaces)
                } else {
                    Some(n)
                },
                None => Some(spaces),
            };
        }
        i = i + 1;
    }
    assert(all.take(i as int) =~= all);
    least
}

fn contains_crlf(text: &str) -> (r: bool)
    ensures
        r == has_crlf(text@),
{
    let chars = chars_of(text);
    let mut i: usize = 0;
    while i < chars.len()
        invariant
            i <= chars@.len(),
            chars@ == text@,
            forall|k: int|
                0 <= k < i && k < chars@.len() - 1 ==> !(#[trigger] chars@[k] == '\r' && chars@[k
                    + 1] == '\n'),
        decreases chars@.len() - i,
    {
        if chars[i] == '\r' && i < chars.len() - 1 && chars[i + 1] == '\n' {
            return true;
        }
        i = i + 1;
    }
    false
}

/// `count` spaces.
pub open spec fn spaces(count: int) -> Seq<char> {
    Seq::new(count as nat, |i: int| ' ')
}

fn push_spaces(out: &mut String, count: usize)
    ensures
        final(out)@ == old(out)@ + spaces(count as int),
{
    let ghost before = out@;
    let mut i: usize = 0;
    assert(before + spaces(0) =~= before);
    while i < count
        invariant
            i <= count,
            out@ == before + spaces(i as int),
        decreases count - i,
    {
        out.push(' ');
        assert(out@ =~= before + spaces(i + 1));
        i = i + 1;
    }
}

// ---------------------------------------------------------------------------
// Where a script key can be completed
// ---------------------------------------------------------------------------

/// The line of the cursor, when a word stands alone on it, and the last line
/// above it that may be a job header.
pub struct Site {
    pub line: int,
    pub character: int,
    pub current: Seq<char>,
    pub indent: int,
    pub header: int,
}

/// Values, comments, quoted strings and shell commands are never replaced:
/// only a bare word may stand on the line.
pub open spec fn site_of(text: Seq<char>, position: JsonModel) -> Option<Site> {
    let lines = split_lines(text);
    match (
        index_of(field_or_null(position, "line"@)),
        index_of(field_or_null(position, "character"@)),
    ) {
        (Some(line), Some(character)) => if line < lines.len() {
            let current = strip_crs(lines[line]);
            let indent = leading_spaces(current);
            if is_bare_word(current) && is_ascii_line(current) && indent <= character
                <= current.len() {
                match entry_above(lines, line) {
                    Some(header) => Some(Site { line, character, current, indent, header }),
                    None => None,
                }
            } else {
                None
            }
        } else {
            None
        },
        _ => None,
    }
}

/// The job that a header opens: its only key, with no value yet, which is not
/// one that configures the pipeline.
pub open spec fn header_job(docs: Option<Seq<YamlModel>>) -> Option<Seq<char>> {
    match docs {
        Some(docs) => if docs.len() > 0 {
            match docs[0] {
                YamlModel::Mapping(entries) => if entries.len() == 1 {
                    match entries[0] {
                        (YamlModel::Text(job), YamlModel::Null) => if is_reserved_key(job) {
                            None
                        } else {
                            Some(job)
                        },
                        _ => None,
                    }
                } else {
                    None
                },
                _ => None,
            }
        } else {
            None
        },
        None => None,
    }
}

/// The properties of a job, when they are a mapping or there are none yet.
pub open spec fn job_properties(document: YamlModel, job: Seq<char>) -> Option<YamlModel> {
    let properties = yaml_at(document, job);
    if properties is Mapping || properties is Null {
        Some(properties)
    } else {
        None
    }
}

pub open spec fn first_properties(docs: Option<Seq<YamlModel>>, job: Seq<char>) -> Option<
    YamlModel,
> {
    match docs {
        Some(docs) => if docs.len() > 0 {
            job_properties(docs[0], job)
        } else {
            None
        },
        None => None,
    }
}

pub open spec fn last_properties(docs: Option<Seq<YamlModel>>, job: Seq<char>) -> Option<
    YamlModel,
> {
    match docs {
        Some(docs) => if docs.len() > 0 {
            job_properties(docs.last(), job)
        } else {
            None
        },
        None => None,
    }
}

/// The text above the line of the cursor.
pub open spec fn text_above(text: Seq<char>, site: Site) -> Seq<char> {
    join_lines(split_lines(text).subrange(0, site.line))
}

/// The lines of the job, from its header on, without the line of the cursor.
pub open spec fn job_lines(text: Seq<char>, site: Site) -> Seq<Seq<char>> {
    let lines = split_lines(text);
    lines.subrange(site.header, entry_below(lines, site.line + 1)).update(
        site.line - site.header,
        Seq::empty(),
    )
}

/// The indentation that the settings ask for.
pub open spec fn configured_indent(yaml: JsonModel) -> Option<int> {
    match field_or_null(yaml, "indentation"@) {
        JsonModel::Text(s) => if s.len() > 0 && (forall|i: int|
            0 <= i < s.len() ==> #[trigger] s[i] == ' ') {
            Some(s.len() as int)
        } else {
            None
        },
        _ => None,
    }
}

/// The indentation of job properties. Existing job structure wins over
/// settings, and settings over the rest of the file.
pub open spec fn indent_for(text: Seq<char>, site: Site, yaml: JsonModel) -> int {
    match least_indent(job_lines(text, site)) {
        Some(n) => n,
        None => match configured_indent(yaml) {
            Some(n) => n,
            None => match least_indent(split_lines(text)) {
                Some(n) => n,
                None => 2,
            },
        },
    }
}

pub struct ContextModel {
    pub line: int,
    pub end: int,
    pub prefix: Seq<char>,
    pub job: Seq<char>,
    pub properties: YamlModel,
    pub indent: int,
    pub newline: Seq<char>,
}

/// What can be completed at a site, once the header line, the text above the
/// cursor and the job itself are loaded as YAML.
///
/// Loading the text above also guards against a job-looking line inside a
/// multiline string. The whole job is looked at for keys that it has already,
/// below the cursor too. A word without indentation is only taken into the job
/// directly below an empty header.
pub open spec fn context_of(
    text: Seq<char>,
    site: Site,
    yaml: JsonModel,
    header_docs: Option<Seq<YamlModel>>,
    above_docs: Option<Seq<YamlModel>>,
    job_docs: Option<Seq<YamlModel>>,
) -> Option<ContextModel> {
    match header_job(header_docs) {
        Some(job) => match (last_properties(above_docs, job), first_properties(job_docs, job)) {
            (Some(above), Some(properties)) => {
                let indent = indent_for(text, site, yaml);
                let fits = if site.indent == 0 {
                    site.header + 1 == site.line && above is Null
                } else {
                    site.indent == indent
                };
                if fits {
                    Some(
                        ContextModel {
                            line: site.line,
                            end: site.current.len() as int,
                            prefix: site.current.subrange(site.indent, site.character),
                            job,
                            properties,
                            indent,
                            newline: if has_crlf(text) {
                                "\r\n"@
                            } else {
                                "\n"@
                            },
                        },
                    )
                } else {
                    None
                }
            },
            _ => None,
        },
        None => None,
    }
}

/// What can be completed at a position of a text.
pub open spec fn context_at(text: Seq<char>, position: JsonModel, yaml: JsonModel) -> Option<
    ContextModel,
> {
    match site_of(text, position) {
        Some(site) => context_of(
            text,
            site,
            yaml,
            yaml_documents(split_lines(text)[site.header]),
            yaml_documents(text_above(text, site)),
            yaml_documents(join_lines(job_lines(text, site))),
        ),
        None => None,
    }
}

/// Where a script key is completed.
pub struct Context {
    pub line: usize,
    pub end: usize,
    pub prefix: String,
    pub job: String,
    pub properties: YamlNode,
    pub indent: usize,
    pub newline: &'static str,
}

impl Context {
    pub open spec fn view(&self) -> ContextModel {
        ContextModel {
            line: self.line as int,
            end: self.end as int,
            prefix: self.prefix@,
            job: self.job@,
            properties: self.properties@,
            indent: self.indent as int,
            newline: self.newline@,
        }
    }
}

pub open spec fn context_view(context: Option<Context>) -> Option<ContextModel> {
    match context {
        Some(context) => Some(context@),
        None => None,
    }
}

/// A site in lines that are at hand.
struct Spot {
    line: usize,
    character: usize,
    /// Where the line ends, without its line ending.
    end: usize,
    indent: usize,
    header: usize,
}

impl Spot {
    spec fn site(self, lines: Seq<Seq<char>>) -> Site {
        Site {
            line: self.line as int,
            character: self.character as int,
            current: lines[self.line as int].take(self.end as int),
            indent: self.indent as int,
            header: self.header as int,
        }
    }

    spec fn fits(self, lines: Seq<Seq<char>>) -> bool {
        &&& self.header < self.line < lines.len()
        &&& self.indent <= self.character <= self.end <= lines[self.line as int].len()
    }
}

fn locate(lines: &Vec<Vec<char>>, position: &Json, Ghost(text): Ghost<Seq<char>>) -> (r: Option<
    Spot,
>)
    requires
        lines_view(lines@) == split_lines(text),
    ensures
        match r {
            Some(spot) => spot.fits(split_lines(text)) && site_of(text, position@) == Some(
                spot.site(split_lines(text)),
            ),
            None => site_of(text, position@) is None,
        },
{
    let ghost all = split_lines(text);
    let line = match position.at("line").as_index() {
        Some(line) => line,
        None => return None,
    };
    let character = match position.at("character").as_index() {
        Some(character) => character,
        None => return None,
    };
    if line >= lines.len() {
        return None;
    }
    assert(all[line as int] == lines@[line as int]@);
    let end = end_without_crs(&lines[line]);
    let current = vstd::slice::slice_subrange(lines[line].as_slice(), 0, end);
    assert(current@ =~= strip_crs(all[line as int]));
    let indent = count_spaces(current);
    if !bare_word(current, indent) || !ascii_line(current) || character < indent || character
        > end {
        return None;
    }
    match find_entry_above(lines, line) {
        Some(header) => Some(Spot { line, character, end, indent, header }),
        None => None,
    }
}

fn collect_job_lines(lines: &Vec<Vec<char>>, spot: &Spot, Ghost(text): Ghost<Seq<char>>) -> (r: Vec<
    Vec<char>,
>)
    requires
        lines_view(lines@) == split_lines(text),
        spot.fits(split_lines(text)),
        forall|k: int| 0 <= k < lines@.len() ==> (#[trigger] lines@[k])@.len() <= max_chars(),
    ensures
        lines_view(r@) == job_lines(text, spot.site(split_lines(text))),
        forall|k: int| 0 <= k < r@.len() ==> (#[trigger] r@[k])@.len() <= max_chars(),
{
    let ghost all = split_lines(text);
    assert(spot.line < lines.len());
    let end = find_entry_below(lines, spot.line + 1);
    let ghost wanted = job_lines(text, spot.site(all));
    let mut out: Vec<Vec<char>> = Vec::new();
    let mut i: usize = spot.header;
    while i < end
        invariant
            spot.header <= i <= end <= lines@.len(),
            spot.header < spot.line < end,
            all == lines_view(lines@),
            wanted == all.subrange(spot.header as int, end as int).update(
                spot.line - spot.header,
                Seq::empty(),
            ),
            lines_view(out@) == wanted.take(i - spot.header),
            forall|k: int| 0 <= k < lines@.len() ==> (#[trigger] lines@[k])@.len() <= max_chars(),
            forall|k: int| 0 <= k < out@.len() ==> (#[trigger] out@[k])@.len() <= max_chars(),
        decreases end - i,
    {
        let ghost done = lines_view(out@);
        let next = if i == spot.line {
            Vec::new()
        } else {
            copy_line(&lines[i])
        };
        assert(lines@[i as int]@ == all[i as int]);
        assert(next@ =~= wanted[i - spot.header]);
        out.push(next);
        proof {
            assert(lines_view(out@) =~= done.push(next@));
            assert(done.push(next@) =~= wanted.take(i + 1 - spot.header));
        }
        i = i + 1;
    }
    assert(wanted.take(end - spot.header) =~= wanted);
    out
}

fn copy_line(line: &Vec<char>) -> (r: Vec<char>)
    ensures
        r@ == line@,
{
    let mut out: Vec<char> = Vec::new();
    let mut i: usize = 0;
    while i < line.len()
        invariant
            i <= line@.len(),
            out@ == line@.take(i as int),
        decreases line@.len() - i,
    {
        out.push(line[i]);
        assert(out@ =~= line@.take(i + 1));
        i = i + 1;
    }
    assert(line@.take(i as int) =~= line@);
    out
}

fn header_job_of(docs: &Option<Vec<YamlNode>>) -> (r: Option<String>)
    ensures
        match r {
            Some(job) => header_job(docs_view(*docs)) == Some(job@),
            None => header_job(docs_view(*docs)) is None,
        },
{
    match docs {
        Some(docs) => {
            if docs.len() == 0 {
                return None;
            }
            assert(nodes_view(docs@)[0] == docs@[0]@);
            match &docs[0] {
                YamlNode::Mapping(entries) => {
                    if entries.len() != 1 {
                        return None;
                    }
                    assert(docs@[0]@->Mapping_0[0] == (entries@[0].0@, entries@[0].1@));
                    match (&entries[0].0, &entries[0].1) {
                        (YamlNode::Text(job), YamlNode::Null) => if is_reserved(job.as_str()) {
                            None
                        } else {
                            Some(job.clone())
                        },
                        _ => None,
                    }
                },
                _ => None,
            }
        },
        None => None,
    }
}

pub open spec fn node_view(node: Option<&YamlNode>) -> Option<YamlModel> {
    match node {
        Some(node) => Some(node@),
        None => None,
    }
}

fn properties_in<'a>(docs: &'a Option<Vec<YamlNode>>, last: bool, job: &str) -> (r: Option<
    &'a YamlNode,
>)
    ensures
        last ==> node_view(r) == last_properties(docs_view(*docs), job@),
        !last ==> node_view(r) == first_properties(docs_view(*docs), job@),
{
    match docs {
        Some(docs) => {
            if docs.len() == 0 {
                return None;
            }
            let i: usize = if last {
                docs.len() - 1
            } else {
                0
            };
            assert(nodes_view(docs@)[i as int] == docs@[i as int]@);
            let properties = docs[i].at(job);
            if properties.is_mapping() || properties.is_null() {
                Some(properties)
            } else {
                None
            }
        },
        None => None,
    }
}

fn indent_setting(yaml: &Json) -> (r: Option<usize>)
    ensures
        match r {
            Some(n) => n <= max_chars() && configured_indent(yaml@) == Some(n as int),
            None => configured_indent(yaml@) is None,
        },
{
    match yaml.at("indentation").as_str() {
        Some(indent) => {
            let chars = chars_of(indent);
            let count = char_count(&chars);
            if count == 0 {
                return None;
            }
            let mut i: usize = 0;
            while i < count
                invariant
                    i <= count == chars@.len(),
                    chars@ == indent@,
                    field_or_null(yaml@, "indentation"@) == JsonModel::Text(indent@),
                    forall|k: int| 0 <= k < i ==> #[trigger] chars@[k] == ' ',
                decreases count - i,
            {
                if chars[i] != ' ' {
                    return None;
                }
                i = i + 1;
            }
            Some(count)
        },
        None => None,
    }
}

impl Context {
    /// What can be completed at a position, when the header line above it, the
    /// text above it and its job have been loaded as YAML.
    pub fn from_loaded(
        text: &str,
        position: &Json,
        yaml: &Json,
        header_docs: &Option<Vec<YamlNode>>,
        above_docs: &Option<Vec<YamlNode>>,
        job_docs: &Option<Vec<YamlNode>>,
    ) -> (r: Option<Context>)
        ensures
            context_view(r) == (match site_of(text@, position@) {
                Some(site) => context_of(
                    text@,
                    site,
                    yaml@,
                    docs_view(*header_docs),
                    docs_view(*above_docs),
                    docs_view(*job_docs),
                ),
                None => None,
            }),
            r matches Some(context) ==> context.indent <= max_chars(),
    {
        let lines = split(text);
        let ghost all = split_lines(text@);
        let spot = match locate(&lines, position, Ghost(text@)) {
            Some(spot) => spot,
            None => return None,
        };
        let ghost site = spot.site(all);
        let job = match header_job_of(header_docs) {
            Some(job) => job,
            None => return None,
        };
        let above = match properties_in(above_docs, true, job.as_str()) {
            Some(above) => above,
            None => return None,
        };
        // Check the whole current job, including properties below the cursor.
        // An unrelated unfinished later job must not hide duplicate keys.
        let properties = match properties_in(job_docs, false, job.as_str()) {
            Some(properties) => properties,
            None => return None,
        };
        // Existing job structure wins over settings: a configured four-space
        // unit must not turn a nested variable into a supposed job property.
        let job_lines = collect_job_lines(&lines, &spot, Ghost(text@));
        let indent: usize = match infer_indent(&job_lines) {
            Some(n) => n,
            None => match indent_setting(yaml) {
                Some(n) => n,
                None => match infer_indent(&lines) {
                    Some(n) => n,
                    None => 2,
                },
            },
        };
        if spot.indent == 0 {
            // Reparent only directly below an empty job header, never after a
            // completed job, comment, or blank separator (intentional globals).
            if spot.header != spot.line - 1 || !above.is_null() {
                return None;
            }
        } else if spot.indent != indent {
            return None;
        }
        let prefix = string_of(
            vstd::slice::slice_subrange(lines[spot.line].as_slice(), spot.indent, spot.character),
        );
        assert(prefix@ =~= site.current.subrange(site.indent, site.character));
        Some(
            Context {
                line: spot.line,
                end: spot.end,
                prefix,
                job,
                properties: properties.duplicate(),
                indent,
                newline: if contains_crlf(text) {
                    "\r\n"
                } else {
                    "\n"
                },
            },
        )
    }

    /// What can be completed at a position of a text.
    pub fn new(text: &str, position: &Json, yaml: &Json) -> (r: Option<Context>)
        ensures
            context_view(r) == context_at(text@, position@, yaml@),
            r matches Some(context) ==> context.indent <= max_chars(),
    {
        let lines = split(text);
        let ghost all = split_lines(text@);
        let spot = match locate(&lines, position, Ghost(text@)) {
            Some(spot) => spot,
            None => return None,
        };
        assert(all[spot.header as int] == lines@[spot.header as int]@);
        let header = string_of(lines[spot.header].as_slice());
        let header_docs = load_documents(header.as_str());
        // Parsing the prefix also guards against a job-looking line inside a
        // multiline YAML string. Incomplete earlier YAML is left to the backend.
        let above = join(&lines, 0, spot.line);
        let above_docs = load_documents(above.as_str());
        let job_lines = collect_job_lines(&lines, &spot, Ghost(text@));
        let job = join(&job_lines, 0, job_lines.len());
        assert(lines_view(job_lines@).subrange(0, job_lines@.len() as int) =~= lines_view(
            job_lines@,
        ));
        let job_docs = load_documents(job.as_str());
        Context::from_loaded(text, position, yaml, &header_docs, &above_docs, &job_docs)
    }
}


// ---------------------------------------------------------------------------
// Completion items
// ---------------------------------------------------------------------------

/// The keys for which there is a scaffold.
pub const SCRIPT_KEYS: [&'static str; 3] = ["script", "before_script", "after_script"];

/// Whether a script key can be completed: it starts with what is typed, the
/// job does not have it yet, and `default` has no `script`.
pub open spec fn is_offered(context: ContextModel, key: Seq<char>) -> bool {
    &&& context.prefix.is_prefix_of(key)
    &&& context.job != "default"@ || key != "script"@
    &&& yaml_at(context.properties, key) is Bad
}

/// The text of a scaffold: the key, and a first list item below it.
pub open spec fn scaffold(context: ContextModel, key: Seq<char>, snippets: bool) -> Seq<char> {
    spaces(context.indent) + key + ":"@ + context.newline + spaces(context.indent * 2) + "- "@ + (
    if snippets {
        "$0"@
    } else {
        ""@
    })
}

pub open spec fn position_model(line: int, character: int) -> JsonModel {
    JsonModel::Object(
        map![
            "line"@ => JsonModel::Integer(line),
            "character"@ => JsonModel::Integer(character),
        ],
    )
}

pub open spec fn range_model(start: JsonModel, end: JsonModel) -> JsonModel {
    JsonModel::Object(map!["start"@ => start, "end"@ => end])
}

/// The completion item for a script key. Its edit replaces the line.
pub open spec fn script_item(context: ContextModel, key: Seq<char>, snippets: bool) -> JsonModel {
    JsonModel::Object(
        map![
            "label"@ => JsonModel::Text(key),
            "kind"@ => JsonModel::Integer(10),
            "detail"@ => JsonModel::Text("Script block in "@ + context.job),
            "filterText"@ => JsonModel::Text(key),
            "insertTextFormat"@ => JsonModel::Integer(
                if snippets {
                    2
                } else {
                    1
                },
            ),
            "insertTextMode"@ => JsonModel::Integer(1),
            "textEdit"@ => JsonModel::Object(
                map![
                    "range"@ => range_model(
                        position_model(context.line, 0),
                        position_model(context.line, context.end),
                    ),
                    "newText"@ => JsonModel::Text(scaffold(context, key, snippets)),
                ],
            ),
            "data"@ => JsonModel::Object(map![YAML_ITEM_MARKER@ => JsonModel::Bool(true)]),
        ],
    )
}

/// The items for the first `count` script keys.
pub open spec fn offered_items(context: ContextModel, snippets: bool, count: int) -> Seq<JsonModel>
    decreases count,
{
    if count <= 0 {
        Seq::empty()
    } else {
        let before = offered_items(context, snippets, count - 1);
        let key = SCRIPT_KEYS@[count - 1]@;
        if is_offered(context, key) {
            before.push(script_item(context, key, snippets))
        } else {
            before
        }
    }
}

/// The completion items of a context.
pub open spec fn context_items(context: Option<ContextModel>, snippets: bool) -> Seq<JsonModel> {
    match context {
        Some(context) => offered_items(context, snippets, 3),
        None => Seq::empty(),
    }
}

/// The script-key completion items at a position of a text.
pub open spec fn script_items_of(
    text: Seq<char>,
    position: JsonModel,
    yaml: JsonModel,
    snippets: bool,
) -> Seq<JsonModel> {
    if field(yaml, "completion"@) == Some(JsonModel::Bool(false)) {
        Seq::empty()
    } else {
        context_items(context_at(text, position, yaml), snippets)
    }
}

pub fn position_json(line: usize, character: usize) -> (r: Json)
    ensures
        r@ == position_model(line as int, character as int),
{
    Json::object().with("line", Json::Uint(line as u64)).with(
        "character",
        Json::Uint(character as u64),
    )
}

pub fn range_json(start: Json, end: Json) -> (r: Json)
    ensures
        r@ == range_model(start@, end@),
{
    Json::object().with("start", start).with("end", end)
}

impl Context {
    fn item(&self, key: &str, snippets: bool) -> (r: Json)
        requires
            self.indent <= max_chars(),
        ensures
            r@ == script_item(self@, key@, snippets),
    {
        let mut new_text = String::new();
        push_spaces(&mut new_text, self.indent);
        new_text.append(key);
        new_text.append(":");
        new_text.append(self.newline);
        push_spaces(&mut new_text, self.indent * 2);
        new_text.append("- ");
        new_text.append(
            if snippets {
                "$0"
            } else {
                ""
            },
        );
        assert(Seq::<char>::empty() + spaces(self.indent as int) =~= spaces(self.indent as int));
        let mut detail = "Script block in ".to_owned();
        detail.append(self.job.as_str());
        let format: u64 = if snippets {
            2
        } else {
            1
        };
        let range = range_json(
            position_json(self.line, 0),
            position_json(self.line, self.end),
        );
        let edit = Json::object().with("range", range).with("newText", Json::Text(new_text));
        Json::object().with("label", Json::string(key)).with("kind", Json::Uint(10)).with(
            "detail",
            Json::Text(detail),
        ).with("filterText", Json::string(key)).with("insertTextFormat", Json::Uint(format)).with(
            "insertTextMode",
            Json::Uint(1),
        ).with("textEdit", edit).with(
            "data",
            Json::object().with(YAML_ITEM_MARKER, Json::Bool(true)),
        )
    }

    /// The completion items.
    pub fn items(&self, snippets: bool) -> (r: Vec<Json>)
        requires
            self.indent <= max_chars(),
        ensures
            items_view(r@) == context_items(Some(self@), snippets),
    {
        let keys = SCRIPT_KEYS;
        let mut out: Vec<Json> = Vec::new();
        let mut i: usize = 0;
        assert(items_view(out@) =~= Seq::<JsonModel>::empty());
        while i < 3
            invariant
                i <= 3,
                keys == SCRIPT_KEYS,
                self.indent <= max_chars(),
                items_view(out@) == offered_items(self@, snippets, i as int),
            decreases 3 - i,
        {
            let key = keys[i];
            let ghost done = items_view(out@);
            if has_prefix(key, self.prefix.as_str()) && (!same_text(self.job.as_str(), "default")
                || !same_text(key, "script")) && self.properties.at(key).is_bad() {
                let item = self.item(key, snippets);
                out.push(item);
                assert(items_view(out@) =~= done.push(item@));
            }
            i = i + 1;
        }
        out
    }
}

/// The script-key completion items at a position of a text.
pub fn script_items(text: &str, position: &Json, yaml: &Json, snippets: bool) -> (r: Vec<Json>)
    ensures
        items_view(r@) == script_items_of(text@, position@, yaml@, snippets),
{
    let none: Vec<Json> = Vec::new();
    assert(items_view(none@) =~= Seq::<JsonModel>::empty());
    if is_turned_off(yaml) {
        return none;
    }
    match Context::new(text, position, yaml) {
        Some(context) => context.items(snippets),
        None => none,
    }
}

/// Whether the settings turn YAML completion off.
pub fn is_turned_off(yaml: &Json) -> (r: bool)
    ensures
        r == (field(yaml@, "completion"@) == Some(JsonModel::Bool(false))),
{
    match yaml.get("completion") {
        Some(Json::Bool(on)) => !*on,
        _ => false,
    }
}

// ---------------------------------------------------------------------------
// Merging
// ---------------------------------------------------------------------------

pub open spec fn label(item: JsonModel) -> JsonModel {
    field_or_null(item, "label"@)
}

/// Whether an item of `extra` has the same label.
pub open spec fn is_replaced(item: JsonModel, extra: Seq<JsonModel>) -> bool {
    exists|i: int| 0 <= i < extra.len() && same_json(label(#[trigger] extra[i]), label(item))
}

/// The items that no item of `extra` replaces.
pub open spec fn kept_items(items: Seq<JsonModel>, extra: Seq<JsonModel>) -> Seq<JsonModel> {
    items.filter(|item: JsonModel| !is_replaced(item, extra))
}

/// A completion result as a list, when it is an array of items or null.
pub open spec fn as_list(result: JsonModel) -> JsonModel {
    match result {
        JsonModel::Array(_) => JsonModel::Object(
            map!["items"@ => result, "isIncomplete"@ => JsonModel::Bool(true)],
        ),
        JsonModel::Null => JsonModel::Object(
            map![
                "items"@ => JsonModel::Array(Seq::empty()),
                "isIncomplete"@ => JsonModel::Bool(true),
            ],
        ),
        _ => result,
    }
}

/// The completion result of the backend with items of the proxy, which replace
/// those with the same labels. The list is incomplete then: the context and
/// the edit range must be recomputed as the user keeps typing.
pub open spec fn merged_items(result: JsonModel, extra: Seq<JsonModel>) -> JsonModel {
    if extra.len() == 0 {
        result
    } else {
        let list = as_list(result);
        match field(list, "items"@) {
            Some(JsonModel::Array(items)) => with_field(
                with_field(list, "items"@, JsonModel::Array(kept_items(items, extra) + extra)),
                "isIncomplete"@,
                JsonModel::Bool(true),
            ),
            _ => list,
        }
    }
}

fn replaced(item: &Json, extra: &Vec<Json>) -> (r: bool)
    ensures
        r == is_replaced(item@, items_view(extra@)),
{
    let ghost models = items_view(extra@);
    let mut i: usize = 0;
    while i < extra.len()
        invariant
            i <= extra@.len(),
            models == items_view(extra@),
            forall|k: int|
                0 <= k < i ==> !same_json(label(#[trigger] models[k]), label(item@)),
        decreases extra@.len() - i,
    {
        if extra[i].at("label").same(item.at("label")) {
            assert(same_json(label(models[i as int]), label(item@)));
            return true;
        }
        i = i + 1;
    }
    false
}

/// Adds completion items of the proxy to the result of the backend.
pub fn merge(result: Json, extra: Vec<Json>) -> (r: Json)
    ensures
        r@ == merged_items(result@, items_view(extra@)),
{
    if extra.len() == 0 {
        return result;
    }
    let list = if result.as_array().is_some() {
        Json::object().with("items", result).with("isIncomplete", Json::Bool(true))
    } else if result.is_null() {
        let none: Vec<Json> = Vec::new();
        assert(items_view(none@) =~= Seq::<JsonModel>::empty());
        Json::object().with("items", Json::array(none)).with("isIncomplete", Json::Bool(true))
    } else {
        result
    };
    assert(list@ == as_list(result@));
    let ghost more = items_view(extra@);
    let mut items: Vec<Json> = Vec::new();
    match list.get("items") {
        Some(found) => match found.as_array() {
            Some(existing) => {
                let ghost all = items_view(existing@);
                let ghost keep = |item: JsonModel| !is_replaced(item, more);
                let mut i: usize = 0;
                assert(items_view(items@) =~= all.take(0).filter(keep)) by {
                    reveal(Seq::filter);
                }
                while i < existing.len()
                    invariant
                        i <= existing@.len(),
                        all == items_view(existing@),
                        more == items_view(extra@),
                        keep == (|item: JsonModel| !is_replaced(item, more)),
                        items_view(items@) == all.take(i as int).filter(keep),
                    decreases existing@.len() - i,
                {
                    let ghost done = items_view(items@);
                    proof {
                        reveal(Seq::filter);
                        assert(all.take(i + 1).drop_last() =~= all.take(i as int));
                        assert(all.take(i + 1).last() == existing@[i as int]@);
                    }
                    if !replaced(&existing[i], &extra) {
                        let item = existing[i].duplicate();
                        items.push(item);
                        assert(items_view(items@) =~= done.push(item@));
                    }
                    i = i + 1;
                }
                assert(all.take(i as int) =~= all);
            },
            None => return list,
        },
        None => return list,
    }
    let ghost kept = items_view(items@);
    let mut extra = extra;
    items.append(&mut extra);
    assert(items_view(items@) =~= kept + more);
    list.with("items", Json::array(items)).with("isIncomplete", Json::Bool(true))
}


// ---------------------------------------------------------------------------
// Laws
// ---------------------------------------------------------------------------

/// Nothing is offered when the settings turn YAML completion off.
pub proof fn law_completion_can_be_turned_off(
    text: Seq<char>,
    position: JsonModel,
    yaml: JsonModel,
    snippets: bool,
)
    requires
        field(yaml, "completion"@) == Some(JsonModel::Bool(false)),
    ensures
        script_items_of(text, position, yaml, snippets) == Seq::<JsonModel>::empty(),
{
}

/// Every item that is offered is the scaffold of a script key that the job does
/// not have yet and that starts with what is typed. `default` is not offered
/// `script`.
pub proof fn law_offers_fit_the_job(context: ContextModel, snippets: bool, i: int)
    requires
        0 <= i < context_items(Some(context), snippets).len(),
    ensures
        exists|k: int|
            0 <= k < 3 && is_offered(context, (#[trigger] SCRIPT_KEYS@[k])@) && context_items(
                Some(context),
                snippets,
            )[i] == script_item(context, SCRIPT_KEYS@[k]@, snippets),
{
    lemma_offers(context, snippets, 3, i);
}

proof fn lemma_offers(context: ContextModel, snippets: bool, count: int, i: int)
    requires
        0 <= i < offered_items(context, snippets, count).len(),
    ensures
        exists|k: int|
            0 <= k < count && is_offered(context, (#[trigger] SCRIPT_KEYS@[k])@) && offered_items(
                context,
                snippets,
                count,
            )[i] == script_item(context, SCRIPT_KEYS@[k]@, snippets),
    decreases count,
{
    if count > 0 {
        let before = offered_items(context, snippets, count - 1);
        if i < before.len() {
            lemma_offers(context, snippets, count - 1, i);
        } else {
            assert(is_offered(context, SCRIPT_KEYS@[count - 1]@));
        }
    }
}

/// Every script key that fits the job is offered.
pub proof fn law_fitting_keys_are_offered(context: ContextModel, snippets: bool, k: int)
    requires
        0 <= k < 3,
        is_offered(context, SCRIPT_KEYS@[k]@),
    ensures
        context_items(Some(context), snippets).contains(
            script_item(context, SCRIPT_KEYS@[k]@, snippets),
        ),
{
    lemma_is_offered(context, snippets, 3, k);
}

proof fn lemma_is_offered(context: ContextModel, snippets: bool, count: int, k: int)
    requires
        0 <= k < count,
        is_offered(context, SCRIPT_KEYS@[k]@),
    ensures
        offered_items(context, snippets, count).contains(
            script_item(context, SCRIPT_KEYS@[k]@, snippets),
        ),
    decreases count,
{
    let item = script_item(context, SCRIPT_KEYS@[k]@, snippets);
    let all = offered_items(context, snippets, count);
    if k == count - 1 {
        assert(all[all.len() - 1] == item);
    } else {
        lemma_is_offered(context, snippets, count - 1, k);
        let before = offered_items(context, snippets, count - 1);
        let at = choose|at: int| 0 <= at < before.len() && before[at] == item;
        assert(all[at] == item);
    }
}

/// A word without indentation is only taken into a job directly below the
/// header of a job without properties: global hooks stay where they are.
pub proof fn law_global_hooks_are_not_reparented(
    text: Seq<char>,
    position: JsonModel,
    yaml: JsonModel,
)
    requires
        site_of(text, position) matches Some(site) && site.indent == 0,
        context_at(text, position, yaml) is Some,
    ensures
        site_of(text, position) matches Some(site) && site.header == site.line - 1 && (
        context_at(text, position, yaml) matches Some(context) && last_properties(
            yaml_documents(text_above(text, site)),
            context.job,
        ) == Some(YamlModel::Null)),
{
}

/// Existing job indentation wins; for an empty job the settings decide, then
/// the rest of the file, then two spaces.
pub proof fn law_job_indentation_wins(text: Seq<char>, position: JsonModel, yaml: JsonModel)
    requires
        context_at(text, position, yaml) is Some,
    ensures
        ({
            let site = site_of(text, position)->Some_0;
            let indent = context_at(text, position, yaml)->Some_0.indent;
            match (
                least_indent(job_lines(text, site)),
                configured_indent(yaml),
                least_indent(split_lines(text)),
            ) {
                (Some(own), _, _) => indent == own,
                (None, Some(configured), _) => indent == configured,
                (None, None, Some(elsewhere)) => indent == elsewhere,
                (None, None, None) => indent == 2,
            }
        }),
{
}

/// An indented word is only completed where the properties of its job are.
pub proof fn law_indented_words_stand_with_the_properties(
    text: Seq<char>,
    position: JsonModel,
    yaml: JsonModel,
)
    requires
        site_of(text, position) matches Some(site) && site.indent != 0,
        context_at(text, position, yaml) is Some,
    ensures
        context_at(text, position, yaml)->Some_0.indent == site_of(text, position)->Some_0.indent,
{
}

/// What is merged in replaces the items with the same labels and no others.
pub proof fn law_merged_labels_do_not_collide(items: Seq<JsonModel>, extra: Seq<JsonModel>)
    ensures
        forall|i: int|
            0 <= i < kept_items(items, extra).len() ==> !is_replaced(
                #[trigger] kept_items(items, extra)[i],
                extra,
            ),
        forall|i: int|
            0 <= i < items.len() && !is_replaced(#[trigger] items[i], extra) ==> kept_items(
                items,
                extra,
            ).contains(items[i]),
{
    let keep = |item: JsonModel| !is_replaced(item, extra);
    assert forall|i: int| 0 <= i < kept_items(items, extra).len() implies !is_replaced(
        #[trigger] kept_items(items, extra)[i],
        extra,
    ) by {
        items.lemma_filter_pred(keep, i);
    }
    assert forall|i: int|
        0 <= i < items.len() && !is_replaced(#[trigger] items[i], extra) implies kept_items(
        items,
        extra,
    ).contains(items[i]) by {
        items.lemma_filter_contains(keep, i);
    }
}

/// Merging keeps all that the backend says besides its items, marks the list
/// as incomplete, and puts the items of the proxy behind those of the backend.
pub proof fn law_merging_keeps_backend_metadata(
    result: JsonModel,
    extra: Seq<JsonModel>,
    key: Seq<char>,
)
    requires
        extra.len() > 0,
        field(result, "items"@) matches Some(JsonModel::Array(_)),
        key != "items"@,
        key != "isIncomplete"@,
    ensures
        field(merged_items(result, extra), key) == field(result, key),
        field(merged_items(result, extra), "isIncomplete"@) == Some(JsonModel::Bool(true)),
        field(merged_items(result, extra), "items"@) == Some(
            JsonModel::Array(
                kept_items(items_or_none(field(result, "items"@)->Some_0), extra) + extra,
            ),
        ),
{
    reveal_strlit("items");
    reveal_strlit("isIncomplete");
    assert("items"@.len() != "isIncomplete"@.len());
}

/// Without items of the proxy the result of the backend stays as it is.
pub proof fn law_merging_nothing_changes_nothing(result: JsonModel)
    ensures
        merged_items(result, Seq::empty()) == result,
{
}

// ---------------------------------------------------------------------------
// When there is something to complete
// ---------------------------------------------------------------------------

pub open spec fn only_spaces(s: Seq<char>) -> bool {
    forall|i: int| 0 <= i < s.len() ==> #[trigger] s[i] == ' '
}

pub open spec fn only_letters(s: Seq<char>) -> bool {
    forall|i: int|
        0 <= i < s.len() ==> ('a' <= #[trigger] s[i] <= 'z' || 'A' <= s[i] <= 'Z' || s[i] == '_')
}

pub open spec fn only_returns(s: Seq<char>) -> bool {
    forall|i: int| 0 <= i < s.len() ==> #[trigger] s[i] == '\r'
}

/// Whether a line can be the header of a root entry: it is not empty, not
/// indented and no comment.
pub open spec fn may_be_header(line: Seq<char>) -> bool {
    line.len() > 0 && line[0] != ' ' && line[0] != '\t' && line[0] != '\r' && line[0] != '#'
}

/// Where a word stands alone in a file, and the root entry that it stands in.
pub struct Spotted {
    pub line: int,
    pub character: int,
    /// How many spaces come before the word.
    pub indent: int,
    pub word: Seq<char>,
    /// What follows the word: spaces, and then the `'\r'` of a line ending.
    pub pad: Seq<char>,
    pub ending: Seq<char>,
    /// The lines of the header and of the next entry.
    pub header: int,
    pub next: int,
}

/// The line of a word, without its line ending.
pub open spec fn spotted_line(at: Spotted) -> Seq<char> {
    Seq::new(at.indent as nat, |i: int| ' ') + at.word + at.pad
}

pub open spec fn is_spotted(text: Seq<char>, position: JsonModel, at: Spotted) -> bool {
    let lines = split_lines(text);
    &&& field(position, "line"@) == Some(JsonModel::Integer(at.line))
    &&& field(position, "character"@) == Some(JsonModel::Integer(at.character))
    &&& 0 <= at.header < at.line < at.next <= lines.len() <= u32::MAX
    &&& 0 <= at.indent <= at.character <= spotted_line(at).len() <= u32::MAX
    &&& lines[at.line] == spotted_line(at) + at.ending
    &&& only_letters(at.word)
    &&& only_spaces(at.pad)
    &&& at.word.len() == 0 ==> at.pad.len() == 0
    &&& only_returns(at.ending)
    &&& may_be_header(lines[at.header])
    &&& forall|l: int| at.header < l < at.line ==> !may_be_header(#[trigger] lines[l])
    &&& at.next < lines.len() ==> may_be_header(lines[at.next])
    &&& forall|l: int| at.line < l < at.next ==> !may_be_header(#[trigger] lines[l])
}

proof fn lemma_strip_crs(line: Seq<char>, ending: Seq<char>)
    requires
        only_returns(ending),
        line.len() == 0 || line.last() != '\r',
    ensures
        strip_crs(line + ending) == line,
    decreases ending.len(),
{
    let all = line + ending;
    if ending.len() == 0 {
        assert(all =~= line);
    } else {
        assert(ending[ending.len() - 1] == '\r');
        assert(all.drop_last() =~= line + ending.drop_last());
        lemma_strip_crs(line, ending.drop_last());
    }
}

proof fn lemma_leading_spaces(indent: int, rest: Seq<char>)
    requires
        0 <= indent,
        rest.len() == 0 || rest[0] != ' ',
    ensures
        leading_spaces(Seq::new(indent as nat, |i: int| ' ') + rest) == indent,
    decreases indent,
{
    let all = Seq::new(indent as nat, |i: int| ' ') + rest;
    if indent == 0 {
        assert(all =~= rest);
    } else {
        assert(all.skip(1) =~= Seq::new((indent - 1) as nat, |i: int| ' ') + rest);
        lemma_leading_spaces(indent - 1, rest);
    }
}

proof fn lemma_strip_spaces(word: Seq<char>, pad: Seq<char>)
    requires
        only_spaces(pad),
        word.len() == 0 || word.last() != ' ',
    ensures
        strip_spaces(word + pad) == word,
    decreases pad.len(),
{
    let all = word + pad;
    if pad.len() == 0 {
        assert(all =~= word);
    } else {
        assert(pad[pad.len() - 1] == ' ');
        assert(all.drop_last() =~= word + pad.drop_last());
        lemma_strip_spaces(word, pad.drop_last());
    }
}

proof fn lemma_entry_above_is(lines: Seq<Seq<char>>, end: int, header: int)
    requires
        0 <= header < end <= lines.len(),
        may_be_header(lines[header]),
        forall|l: int| header < l < end ==> !may_be_header(#[trigger] lines[l]),
    ensures
        entry_above(lines, end) == Some(header),
    decreases end,
{
    if header < end - 1 {
        assert(!may_be_header(lines[end - 1]));
        lemma_entry_above_is(lines, end - 1, header);
    }
}

proof fn lemma_entry_below_is(lines: Seq<Seq<char>>, from: int, next: int)
    requires
        0 <= from <= next <= lines.len(),
        next < lines.len() ==> may_be_header(lines[next]),
        forall|l: int| from <= l < next ==> !may_be_header(#[trigger] lines[l]),
    ensures
        entry_below(lines, from) == next,
{
    assert forall|l: int| from <= l < next implies !entry_start()(#[trigger] lines[l]) by {
        assert(!may_be_header(lines[l]));
    }
    if next < lines.len() {
        assert(entry_start()(lines[next]));
        lemma_first_from_is(lines, entry_start(), from, next);
    } else {
        lemma_first_from(lines, entry_start(), from);
        if let Some(i) = first_from(lines, entry_start(), from) {
            assert(!may_be_header(lines[i]));
        }
    }
}

/// A word that stands alone on its line below a root entry can be completed,
/// with any of the letters in front of the cursor typed.
pub proof fn law_bare_words_are_found(text: Seq<char>, position: JsonModel, at: Spotted)
    requires
        is_spotted(text, position, at),
    ensures
        site_of(text, position) == Some(
            Site {
                line: at.line,
                character: at.character,
                current: spotted_line(at),
                indent: at.indent,
                header: at.header,
            },
        ),
{
    let lines = split_lines(text);
    let line = spotted_line(at);
    let rest = at.word + at.pad;
    let front = Seq::new(at.indent as nat, |i: int| ' ');
    assert(line =~= front + rest);
    if line.len() > 0 {
        if at.pad.len() > 0 {
            assert(line.last() == at.pad[at.pad.len() - 1]);
        } else if at.word.len() > 0 {
            assert(line.last() == at.word[at.word.len() - 1]);
        } else {
            assert(line.last() == front[at.indent - 1]);
        }
    }
    lemma_strip_crs(line, at.ending);
    if at.word.len() > 0 {
        assert(rest[0] == at.word[0]);
        assert(at.word[at.word.len() - 1] != ' ');
    }
    lemma_leading_spaces(at.indent, rest);
    assert(line.skip(at.indent) =~= rest);
    lemma_strip_spaces(at.word, at.pad);
    assert(is_bare_word(line)) by {
        assert forall|i: int| 0 <= i < at.word.len() implies is_word_char(
            #[trigger] at.word[i],
        ) by {}
    }
    assert(is_ascii_line(line)) by {
        assert forall|i: int| 0 <= i < line.len() implies (#[trigger] line[i] as u32) < 128 by {
            if i < at.indent {
                assert(line[i] == front[i]);
            } else if i < at.indent + at.word.len() {
                assert(line[i] == at.word[i - at.indent]);
            } else {
                assert(line[i] == at.pad[i - at.indent - at.word.len()]);
            }
        }
    }
    lemma_entry_above_is(lines, at.line, at.header);
    assert(((at.line as u64) as usize) as int == at.line);
    assert(((at.character as u64) as usize) as int == at.character);
}

/// The job that a word stands in, as the YAML parser sees it: the header alone
/// holds one key without a value, and in the text above the word and in the
/// whole entry without it this key has a mapping or nothing.
pub open spec fn is_job(
    text: Seq<char>,
    at: Spotted,
    job: Seq<char>,
    above: YamlModel,
    properties: YamlModel,
) -> bool {
    let lines = split_lines(text);
    let entry = lines.subrange(at.header, at.next).update(at.line - at.header, Seq::empty());
    &&& yaml_documents(lines[at.header]) matches Some(docs) && docs.len() > 0 && docs[0]
        == YamlModel::Mapping(seq![(YamlModel::Text(job), YamlModel::Null)])
    &&& yaml_documents(join_lines(lines.take(at.line))) matches Some(docs) && docs.len() > 0
        && yaml_at(docs.last(), job) == above
    &&& yaml_documents(join_lines(entry)) matches Some(docs) && docs.len() > 0 && yaml_at(
        docs[0],
        job,
    ) == properties
    &&& above is Mapping || above is Null
    &&& properties is Mapping || properties is Null
}

/// How far the properties of the job are indented: as its lines are, else as
/// the settings say, else as the file is, else by two spaces.
pub open spec fn property_indent(text: Seq<char>, at: Spotted, yaml: JsonModel) -> int {
    let lines = split_lines(text);
    let entry = lines.subrange(at.header, at.next).update(at.line - at.header, Seq::empty());
    match (least_indent(entry), configured_indent(yaml), least_indent(lines)) {
        (Some(own), _, _) => own,
        (None, Some(configured), _) => configured,
        (None, None, Some(elsewhere)) => elsewhere,
        (None, None, None) => 2,
    }
}

/// A word is completed in every job whose key is not reserved, hidden jobs and
/// `default` included, where it has the indentation of the job's properties, or
/// has none and stands directly below the header of an empty job.
pub proof fn law_words_are_completed_in_jobs(
    text: Seq<char>,
    position: JsonModel,
    yaml: JsonModel,
    at: Spotted,
    job: Seq<char>,
    above: YamlModel,
    properties: YamlModel,
)
    requires
        is_spotted(text, position, at),
        is_job(text, at, job, above, properties),
        !is_reserved_key(job),
        if at.indent == 0 {
            at.header + 1 == at.line && above is Null
        } else {
            at.indent == property_indent(text, at, yaml)
        },
    ensures
        context_at(text, position, yaml) == Some(
            ContextModel {
                line: at.line,
                end: spotted_line(at).len() as int,
                prefix: spotted_line(at).subrange(at.indent, at.character),
                job,
                properties,
                indent: property_indent(text, at, yaml),
                newline: if exists|i: int|
                    0 <= i < text.len() - 1 && #[trigger] text[i] == '\r' && text[i + 1] == '\n' {
                    "\r\n"@
                } else {
                    "\n"@
                },
            },
        ),
{
    let lines = split_lines(text);
    law_bare_words_are_found(text, position, at);
    lemma_entry_below_is(lines, at.line + 1, at.next);
    let site = site_of(text, position)->Some_0;
    assert(lines.subrange(0, at.line) =~= lines.take(at.line));
    let entries = seq![(YamlModel::Text(job), YamlModel::Null)];
    assert(entries.len() == 1 && entries[0] == (YamlModel::Text(job), YamlModel::Null));
}

/// Nothing is completed in a reserved root key, below a header that is more
/// than one key without a value, or where the job's value is no mapping.
pub proof fn law_only_jobs_are_completed(
    text: Seq<char>,
    position: JsonModel,
    yaml: JsonModel,
)
    requires
        context_at(text, position, yaml) is Some,
    ensures
        ({
            let context = context_at(text, position, yaml)->Some_0;
            let site = site_of(text, position)->Some_0;
            let lines = split_lines(text);
            &&& site_of(text, position) is Some
            &&& !is_reserved_key(context.job)
            &&& yaml_documents(lines[site.header]) matches Some(docs) && docs.len() > 0 && (docs[0]
                matches YamlModel::Mapping(entries) && entries.len() == 1 && entries[0] == (
                YamlModel::Text(context.job),
                YamlModel::Null,
            ))
            &&& context.properties is Mapping || context.properties is Null
        }),
{
}

/// Values, comments, quoted strings and shell commands are never replaced: the
/// line holds letters and underscores, nothing but spaces around them, and the
/// line ending.
pub proof fn law_only_bare_words_are_replaced(text: Seq<char>, position: JsonModel, i: int)
    requires
        site_of(text, position) is Some,
    ensures
        ({
            let site = site_of(text, position)->Some_0;
            let line = split_lines(text)[site.line];
            &&& 0 <= site.header < site.line < split_lines(text).len()
            &&& 0 <= site.indent <= site.character <= site.current.len() <= line.len()
            &&& site.current == line.take(site.current.len() as int)
            &&& only_returns(line.skip(site.current.len() as int))
            &&& only_spaces(site.current.take(site.indent))
            &&& site.indent <= i < site.current.len() ==> (('a' <= site.current[i] <= 'z' || 'A'
                <= site.current[i] <= 'Z' || site.current[i] == '_') || only_spaces(
                site.current.skip(i),
            ))
            &&& may_be_header(split_lines(text)[site.header])
            &&& forall|l: int|
                site.header < l < site.line ==> !may_be_header(#[trigger] split_lines(text)[l])
        }),
{
    let site = site_of(text, position)->Some_0;
    let lines = split_lines(text);
    let line = lines[site.line];
    lemma_stripped(line);
    lemma_spaces_in_front(site.current);
    let rest = site.current.skip(site.indent);
    lemma_word_end(rest);
    lemma_entry_above_range(lines, site.line);
    let word = strip_spaces(rest);
    if site.indent <= i < site.current.len() {
        let k = i - site.indent;
        if k < word.len() {
            assert(is_word_char(word[k]));
            assert(word[k] == rest[k]);
        } else {
            assert forall|m: int| 0 <= m < site.current.skip(i).len() implies #[trigger] site.current.skip(
                i,
            )[m] == ' ' by {
                assert(rest.skip(word.len() as int)[k - word.len() + m] == ' ');
            }
        }
    }
}

proof fn lemma_stripped(line: Seq<char>)
    ensures
        strip_crs(line).len() <= line.len(),
        strip_crs(line) == line.take(strip_crs(line).len() as int),
        only_returns(line.skip(strip_crs(line).len() as int)),
    decreases line.len(),
{
    if line.len() > 0 && line.last() == '\r' {
        lemma_stripped(line.drop_last());
        let n = strip_crs(line).len() as int;
        assert(line.drop_last().take(n) =~= line.take(n));
        assert forall|i: int| 0 <= i < line.skip(n).len() implies #[trigger] line.skip(n)[i]
            == '\r' by {
            if i < line.len() - 1 - n {
                assert(line.drop_last().skip(n)[i] == '\r');
            }
        }
    } else {
        assert(line.take(line.len() as int) =~= line);
    }
}

proof fn lemma_spaces_in_front(line: Seq<char>)
    ensures
        0 <= leading_spaces(line) <= line.len(),
        only_spaces(line.take(leading_spaces(line))),
        leading_spaces(line) < line.len() ==> line[leading_spaces(line)] != ' ',
    decreases line.len(),
{
    if line.len() > 0 && line[0] == ' ' {
        lemma_spaces_in_front(line.skip(1));
        let n = leading_spaces(line);
        assert forall|i: int| 0 <= i < n implies #[trigger] line.take(n)[i] == ' ' by {
            if i > 0 {
                assert(line.skip(1).take(n - 1)[i - 1] == ' ');
            }
        }
    }
}

proof fn lemma_word_end(rest: Seq<char>)
    ensures
        strip_spaces(rest).len() <= rest.len(),
        strip_spaces(rest) == rest.take(strip_spaces(rest).len() as int),
        only_spaces(rest.skip(strip_spaces(rest).len() as int)),
    decreases rest.len(),
{
    if rest.len() > 0 && rest.last() == ' ' {
        lemma_word_end(rest.drop_last());
        let n = strip_spaces(rest).len() as int;
        assert(rest.drop_last().take(n) =~= rest.take(n));
        assert forall|i: int| 0 <= i < rest.skip(n).len() implies #[trigger] rest.skip(n)[i]
            == ' ' by {
            if i < rest.len() - 1 - n {
                assert(rest.drop_last().skip(n)[i] == ' ');
            }
        }
    } else {
        assert(rest.take(rest.len() as int) =~= rest);
    }
}

proof fn lemma_entry_above_range(lines: Seq<Seq<char>>, end: int)
    requires
        end <= lines.len(),
    ensures
        entry_above(lines, end) matches Some(i) ==> 0 <= i < end && may_be_header(lines[i])
            && forall|l: int| i < l < end ==> !may_be_header(#[trigger] lines[l]),
    decreases end,
{
    if end > 0 && !starts_entry(lines[end - 1]) {
        lemma_entry_above_range(lines, end - 1);
    }
}

/// How a line is indented counts unless it is blank or a comment: the spaces in
/// front of it, if there are any.
pub open spec fn is_indented_by(line: Seq<char>, n: int) -> bool {
    &&& 0 < n < line.len()
    &&& only_spaces(line.take(n))
    &&& line[n] != ' '
    &&& exists|i: int|
        n <= i < line.len() && !white_space(#[trigger] line[i]) && line[i] != '#' && (forall|k: int|
            0 <= k < i ==> white_space(#[trigger] line[k]))
}

/// The indentation of some lines is the smallest that one of them has.
pub proof fn law_indentation_is_the_smallest(lines: Seq<Seq<char>>)
    ensures
        match least_indent(lines) {
            Some(n) => {
                &&& exists|i: int| 0 <= i < lines.len() && is_indented_by(#[trigger] lines[i], n)
                &&& forall|i: int, m: int|
                    0 <= i < lines.len() && #[trigger] is_indented_by(lines[i], m) ==> n <= m
            },
            None => forall|i: int, m: int|
                0 <= i < lines.len() ==> !#[trigger] is_indented_by(lines[i], m),
        },
    decreases lines.len(),
{
    if lines.len() > 0 {
        let before = lines.drop_last();
        law_indentation_is_the_smallest(before);
        lemma_line_indent(lines.last());
        let last = lines.len() - 1;
        match least_indent(lines) {
            Some(n) => {
                if line_indent(lines.last()) == Some(n) {
                    assert(is_indented_by(lines[last], n));
                } else {
                    let i = choose|i: int|
                        0 <= i < before.len() && is_indented_by(#[trigger] before[i], n);
                    assert(is_indented_by(lines[i], n));
                }
                assert forall|i: int, m: int|
                    0 <= i < lines.len() && #[trigger] is_indented_by(lines[i], m) implies n
                    <= m by {
                    if i < last {
                        assert(is_indented_by(before[i], m));
                    }
                }
            },
            None => {
                assert forall|i: int, m: int| 0 <= i < lines.len() implies !#[trigger] is_indented_by(
                    lines[i],
                    m,
                ) by {
                    if i < last {
                        assert(!is_indented_by(before[i], m));
                    }
                }
            },
        }
    }
}

proof fn lemma_trim_start_at(line: Seq<char>)
    ensures
        trim_start(line).len() <= line.len(),
        trim_start(line) == line.skip(line.len() - trim_start(line).len()),
        forall|k: int|
            0 <= k < line.len() - trim_start(line).len() ==> white_space(#[trigger] line[k]),
        trim_start(line).len() > 0 ==> !white_space(trim_start(line)[0]),
    decreases line.len(),
{
    if line.len() > 0 && white_space(line[0]) {
        let rest = line.skip(1);
        lemma_trim_start_at(rest);
        let n = line.len() - trim_start(line).len();
        assert(rest.skip(n - 1) =~= line.skip(n));
        assert forall|k: int| 0 <= k < n implies white_space(#[trigger] line[k]) by {
            if k > 0 {
                assert(white_space(rest[k - 1]));
            }
        }
    } else {
        assert(line.skip(0) =~= line);
    }
}

proof fn lemma_line_indent(line: Seq<char>)
    ensures
        forall|m: int| #[trigger] is_indented_by(line, m) <==> line_indent(line) == Some(m),
{
    lemma_trim_start_at(line);
    lemma_spaces_in_front(line);
    let n = leading_spaces(line);
    let first = line.len() - trim_start(line).len();
    if line_indent(line) is Some {
        assert(trim_start(line)[0] == line[first]);
        if first < n {
            assert(line.take(n)[first] == ' ');
        }
        assert(line[first] != ' ');
        assert(is_indented_by(line, n)) by {
            assert(!white_space(line[first]) && line[first] != '#');
        }
    }
    assert forall|m: int| #[trigger] is_indented_by(line, m) implies line_indent(line) == Some(m) by {
        if m < n {
            assert(line.take(n)[m] == ' ');
        } else if n < m {
            assert(line.take(m)[n] == ' ');
        }
        let i = choose|i: int|
            m <= i < line.len() && !white_space(#[trigger] line[i]) && line[i] != '#' && (forall|
                k: int,
            |
                0 <= k < i ==> white_space(#[trigger] line[k]));
        if first < i {
            assert(white_space(line[first]));
            assert(trim_start(line)[0] == line[first]);
        } else if i < first {
            assert(white_space(line[i]));
        }
        assert(trim_start(line)[0] == line[i]);
    }
}

/// The settings ask for an indentation by a text of spaces, and by nothing else.
pub proof fn law_configured_indentation(yaml: JsonModel)
    ensures
        configured_indent(yaml) == (match field(yaml, "indentation"@) {
            Some(JsonModel::Text(s)) => if s.len() > 0 && only_spaces(s) {
                Some(s.len() as int)
            } else {
                None
            },
            _ => None,
        }),
{
}

// ---------------------------------------------------------------------------
// What is offered
// ---------------------------------------------------------------------------

/// The item for a key inserts the key at the job's indentation and a first list
/// item below it, indented twice as far, in place of the whole line. With
/// snippets the cursor ends up in the list item. Choosing it resolves to itself.
pub proof fn law_items_are_scaffolds(context: ContextModel, key: Seq<char>, snippets: bool)
    ensures
        ({
            let item = script_item(context, key, snippets);
            let edit = field_or_null(item, "textEdit"@);
            let range = field_or_null(edit, "range"@);
            let start = field_or_null(range, "start"@);
            let end = field_or_null(range, "end"@);
            let indent = Seq::new(context.indent as nat, |i: int| ' ');
            let deeper = Seq::new((context.indent * 2) as nat, |i: int| ' ');
            let format: int = if snippets {
                2
            } else {
                1
            };
            &&& field(item, "label"@) == Some(JsonModel::Text(key))
            &&& field(item, "kind"@) == Some(JsonModel::Integer(10))
            &&& field(item, "detail"@) == Some(
                JsonModel::Text("Script block in "@ + context.job),
            )
            &&& field(item, "filterText"@) == Some(JsonModel::Text(key))
            &&& field(item, "insertTextFormat"@) == Some(JsonModel::Integer(format))
            &&& field(item, "insertTextMode"@) == Some(JsonModel::Integer(1))
            &&& field(edit, "newText"@) == Some(
                JsonModel::Text(
                    indent + key + ":"@ + context.newline + deeper + "- "@ + (if snippets {
                        "$0"@
                    } else {
                        ""@
                    }),
                ),
            )
            &&& field(start, "line"@) == Some(JsonModel::Integer(context.line))
            &&& field(start, "character"@) == Some(JsonModel::Integer(0))
            &&& field(end, "line"@) == Some(JsonModel::Integer(context.line))
            &&& field(end, "character"@) == Some(JsonModel::Integer(context.end))
            &&& field(field_or_null(item, "data"@), "gitlabCiYaml"@) == Some(JsonModel::Bool(true))
        }),
{
    reveal_strlit("label");
    reveal_strlit("kind");
    reveal_strlit("detail");
    reveal_strlit("filterText");
    reveal_strlit("insertTextFormat");
    reveal_strlit("insertTextMode");
    reveal_strlit("textEdit");
    reveal_strlit("data");
    reveal_strlit("range");
    reveal_strlit("newText");
    reveal_strlit("start");
    reveal_strlit("end");
    reveal_strlit("line");
    reveal_strlit("character");
    assert("label"@.len() == 5 && "kind"@.len() == 4 && "detail"@.len() == 6);
    assert("filterText"@.len() == 10 && "insertTextFormat"@.len() == 16);
    assert("insertTextMode"@.len() == 14 && "textEdit"@.len() == 8 && "data"@.len() == 4);
    assert("kind"@[0] != "data"@[0]);
    assert("range"@.len() == 5 && "newText"@.len() == 7);
    assert("start"@.len() == 5 && "end"@.len() == 3);
    assert("line"@.len() == 4 && "character"@.len() == 9);
}

/// A script key is offered exactly when it starts with what is typed and the
/// job does not have it yet; `default` has no `script`. The offers come in a
/// fixed order.
pub proof fn law_offers(
    text: Seq<char>,
    position: JsonModel,
    yaml: JsonModel,
    snippets: bool,
    context: ContextModel,
)
    requires
        context_at(text, position, yaml) == Some(context),
        field(yaml, "completion"@) != Some(JsonModel::Bool(false)),
    ensures
        ({
            let offer = |key: Seq<char>|
                if context.prefix.is_prefix_of(key) && yaml_at(context.properties, key) is Bad && !(
                context.job == "default"@ && key == "script"@) {
                    seq![script_item(context, key, snippets)]
                } else {
                    Seq::empty()
                };
            script_items_of(text, position, yaml, snippets) == offer("script"@) + offer(
                "before_script"@,
            ) + offer("after_script"@)
        }),
{
    assert(SCRIPT_KEYS@[0]@ == "script"@);
    assert(SCRIPT_KEYS@[1]@ == "before_script"@);
    assert(SCRIPT_KEYS@[2]@ == "after_script"@);
    reveal_with_fuel(offered_items, 4);
    let offer = |key: Seq<char>|
        if context.prefix.is_prefix_of(key) && yaml_at(context.properties, key) is Bad && !(
        context.job == "default"@ && key == "script"@) {
            seq![script_item(context, key, snippets)]
        } else {
            Seq::empty()
        };
    assert(offered_items(context, snippets, 3) =~= offer("script"@) + offer("before_script"@)
        + offer("after_script"@));
}

/// Nothing is offered where there is nothing to complete.
pub proof fn law_no_context_no_offers(
    text: Seq<char>,
    position: JsonModel,
    yaml: JsonModel,
    snippets: bool,
)
    requires
        context_at(text, position, yaml) is None,
    ensures
        script_items_of(text, position, yaml, snippets).len() == 0,
{
}

/// Merging goes item by item: an item stays, in its place, exactly when no item
/// of the proxy has the same label.
pub proof fn law_items_stay_in_order(
    items: Seq<JsonModel>,
    item: JsonModel,
    extra: Seq<JsonModel>,
)
    ensures
        kept_items(Seq::empty(), extra).len() == 0,
        kept_items(items.push(item), extra) == (if exists|i: int|
            0 <= i < extra.len() && same_json(
                field_or_null(#[trigger] extra[i], "label"@),
                field_or_null(item, "label"@),
            ) {
            kept_items(items, extra)
        } else {
            kept_items(items, extra).push(item)
        }),
{
    reveal(Seq::filter);
    assert(items.push(item).drop_last() =~= items);
    if is_replaced(item, extra) {
        let i = choose|i: int|
            0 <= i < extra.len() && same_json(label(#[trigger] extra[i]), label(item));
        assert(same_json(
            field_or_null(extra[i], "label"@),
            field_or_null(item, "label"@),
        ));
    } else if exists|i: int|
        0 <= i < extra.len() && same_json(
            field_or_null(#[trigger] extra[i], "label"@),
            field_or_null(item, "label"@),
        ) {
        let i = choose|i: int|
            0 <= i < extra.len() && same_json(
                field_or_null(#[trigger] extra[i], "label"@),
                field_or_null(item, "label"@),
            );
        assert(same_json(label(extra[i]), label(item)));
    }
}

/// A list of items and an answer without a result are merged like a result
/// that holds the items.
pub proof fn law_lists_and_nothing_are_merged(items: Seq<JsonModel>, extra: Seq<JsonModel>)
    requires
        extra.len() > 0,
    ensures
        ({
            let list = merged_items(JsonModel::Array(items), extra);
            let none = merged_items(JsonModel::Null, extra);
            &&& field(list, "items"@) == Some(
                JsonModel::Array(kept_items(items, extra) + extra),
            )
            &&& field(list, "isIncomplete"@) == Some(JsonModel::Bool(true))
            &&& field(none, "items"@) == Some(JsonModel::Array(extra))
            &&& field(none, "isIncomplete"@) == Some(JsonModel::Bool(true))
        }),
{
    reveal(Seq::filter);
    reveal_strlit("items");
    reveal_strlit("isIncomplete");
    assert("items"@.len() != "isIncomplete"@.len());
    assert(kept_items(Seq::empty(), extra) + extra =~= extra);
}

} // verus!
