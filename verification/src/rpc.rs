//! Minimal LSP base-protocol framing (`Content-Length` headers + JSON body).

use vstd::prelude::*;
use vstd::string::StringSliceAdditionalSpecFns;
use vstd::utf8::{
    decode_utf8, encode_utf8, encode_utf8_decode_utf8, encode_utf8_valid_utf8, is_ascii_chars,
    is_ascii_chars_encode_utf8, valid_utf8,
};

use crate::backend::NAME;
use crate::json::{Json, JsonModel};
use crate::text::{
    chars_of, end_of, law_white_space_around_is_cut_off, start_of, trim_end, trim_start, trimmed,
    white_space,
};
use crate::uri::{decimal, digit, push_decimal};
use crate::value::{
    integral_within, json_bytes, json_in, read_json, reads_back, write_json,
    MAX_NESTING,
};

verus! {

// ---------------------------------------------------------------------------
// Trusted facts about the standard library
// ---------------------------------------------------------------------------

/// Calls `std::str::from_utf8`. It gives the text that the bytes encode, and
/// fails exactly when they are not valid UTF-8.
#[verifier::external_body]
fn text_in(bytes: &[u8]) -> (r: Option<&str>)
    ensures
        match r {
            Some(text) => text.spec_bytes() == bytes@,
            None => !valid_utf8(bytes@),
        },
{
    std::str::from_utf8(bytes).ok()
}

// ---------------------------------------------------------------------------
// Headers
// ---------------------------------------------------------------------------

pub open spec fn is_digit(c: char) -> bool {
    '0' <= c <= '9'
}

/// The number that decimal digits stand for.
pub open spec fn digits_value(s: Seq<char>) -> int
    decreases s.len(),
{
    if s.len() == 0 {
        0
    } else {
        digits_value(s.drop_last()) * 10 + (s.last() as int - '0' as int)
    }
}

pub open spec fn all_digits(s: Seq<char>) -> bool {
    forall|i: int| 0 <= i < s.len() ==> is_digit(#[trigger] s[i])
}

/// A number without its plus sign.
pub open spec fn without_plus(s: Seq<char>) -> Seq<char> {
    if s.len() > 0 && s[0] == '+' {
        s.skip(1)
    } else {
        s
    }
}

/// A length in decimal notation, with an optional plus sign, that the machine
/// can hold.
pub open spec fn parsed_length(s: Seq<char>) -> Option<int> {
    let digits = without_plus(s);
    if digits.len() > 0 && all_digits(digits) && digits_value(digits) <= usize::MAX {
        Some(digits_value(digits))
    } else {
        None
    }
}

pub open spec fn lower(c: char) -> char {
    if 'A' <= c <= 'Z' {
        ((c as u32 + 32) as u32) as char
    } else {
        c
    }
}

/// Whether two texts are the same but for the case of ASCII letters.
pub open spec fn same_ignoring_case(a: Seq<char>, b: Seq<char>) -> bool {
    a.len() == b.len() && forall|i: int| 0 <= i < a.len() ==> lower(#[trigger] a[i]) == lower(b[i])
}

/// Where the first colon is, from `from` on.
pub open spec fn colon_from(s: Seq<char>, from: int) -> Option<int>
    decreases s.len() - from,
{
    if from >= s.len() {
        None
    } else if s[from] == ':' {
        Some(from)
    } else {
        colon_from(s, from + 1)
    }
}

/// The content length after a header. A `Content-Length` header sets it, to
/// nothing when it is no number; all other headers are ignored.
pub open spec fn length_after(header: Seq<char>, length: Option<int>) -> Option<int> {
    match colon_from(header, 0) {
        Some(i) => if same_ignoring_case(trimmed(header.take(i)), "content-length"@) {
            parsed_length(trimmed(header.skip(i + 1)))
        } else {
            length
        },
        None => length,
    }
}

// ---------------------------------------------------------------------------
// Frames
// ---------------------------------------------------------------------------

/// What the start of a stream holds.
#[derive(Clone, Copy, Debug, PartialEq, Eq, Structural)]
pub enum Frame {
    /// The body of a message, from `start` to `end`. The next message starts
    /// where it ends.
    Body { start: usize, end: usize },
    /// The message is not complete yet.
    Partial,
    /// The stream ended before a message.
    End,
    /// A header is not text.
    Invalid,
    /// The stream ended inside a body.
    Cut,
}

/// The end of the line that starts at `from`, behind its line feed; nothing
/// when the line is not complete.
pub open spec fn line_break(input: Seq<u8>, from: int) -> Option<int>
    decreases input.len() - from,
{
    if from >= input.len() {
        None
    } else if input[from] == 0x0a {
        Some(from + 1)
    } else {
        line_break(input, from + 1)
    }
}

/// A body of `length` bytes from `start` on.
pub open spec fn body_at(input: Seq<u8>, ended: bool, start: int, length: int) -> Frame {
    if start + length <= input.len() {
        Frame::Body { start: start as usize, end: (start + length) as usize }
    } else if ended {
        Frame::Cut
    } else {
        Frame::Partial
    }
}

/// The first message of a stream, reading headers from `at` on. Blank lines
/// before a content length is known are skipped. `ended` tells that no more
/// input follows; a last line without a line feed counts then.
pub open spec fn frame_from(
    input: Seq<u8>,
    ended: bool,
    at: int,
    length: Option<int>,
) -> Frame
    decreases input.len() - at,
    via frame_from_decreases
{
    match line_break(input, at) {
        Some(end) => {
            let line = input.subrange(at, end);
            if !valid_utf8(line) {
                Frame::Invalid
            } else {
                let header = trim_end(decode_utf8(line));
                if header.len() > 0 {
                    frame_from(input, ended, end, length_after(header, length))
                } else {
                    match length {
                        Some(n) => body_at(input, ended, end, n),
                        None => frame_from(input, ended, end, None),
                    }
                }
            }
        },
        None => if !ended {
            Frame::Partial
        } else if at >= input.len() {
            Frame::End
        } else {
            let line = input.subrange(at, input.len() as int);
            if !valid_utf8(line) {
                Frame::Invalid
            } else {
                let header = trim_end(decode_utf8(line));
                match length {
                    Some(n) => if header.len() == 0 {
                        body_at(input, ended, input.len() as int, n)
                    } else {
                        Frame::End
                    },
                    None => Frame::End,
                }
            }
        },
    }
}

#[via_fn]
proof fn frame_from_decreases(input: Seq<u8>, ended: bool, at: int, length: Option<int>) {
    lemma_line_break(input, at);
}

proof fn lemma_line_break(input: Seq<u8>, from: int)
    ensures
        line_break(input, from) matches Some(end) ==> from < end <= input.len() && input[end - 1]
            == 0x0a,
        line_break(input, from) matches Some(end) ==> forall|k: int|
            from <= k < end - 1 ==> #[trigger] input[k] != 0x0a,
    decreases input.len() - from,
{
    if from < input.len() && input[from] != 0x0a {
        lemma_line_break(input, from + 1);
    }
}

/// The first message of a stream.
pub open spec fn first_frame(input: Seq<u8>, ended: bool) -> Frame {
    frame_from(input, ended, 0, None)
}

fn find_line_break(input: &[u8], from: usize) -> (r: Option<usize>)
    requires
        from <= input@.len(),
    ensures
        match r {
            Some(end) => from < end <= input@.len() && line_break(input@, from as int) == Some(
                end as int,
            ),
            None => line_break(input@, from as int) is None,
        },
{
    let mut i: usize = from;
    while i < input.len()
        invariant
            from <= i <= input@.len(),
            line_break(input@, from as int) == line_break(input@, i as int),
        decreases input@.len() - i,
    {
        if input[i] == 0x0a {
            return Some(i + 1);
        }
        i = i + 1;
    }
    None
}

fn lower_char(c: char) -> (r: char)
    ensures
        r == lower(c),
{
    if 'A' <= c && c <= 'Z' {
        ((c as u8) + 32u8) as char
    } else {
        c
    }
}

fn find_colon(chars: &[char]) -> (r: Option<usize>)
    ensures
        match r {
            Some(i) => i < chars@.len() && colon_from(chars@, 0) == Some(i as int),
            None => colon_from(chars@, 0) is None,
        },
{
    let mut i: usize = 0;
    while i < chars.len()
        invariant
            i <= chars@.len(),
            colon_from(chars@, 0) == colon_from(chars@, i as int),
        decreases chars@.len() - i,
    {
        if chars[i] == ':' {
            return Some(i);
        }
        i = i + 1;
    }
    None
}

fn equal_ignoring_case(a: &[char], b: &[char]) -> (r: bool)
    ensures
        r == same_ignoring_case(a@, b@),
{
    if a.len() != b.len() {
        return false;
    }
    let mut i: usize = 0;
    while i < a.len()
        invariant
            i <= a@.len() == b@.len(),
            forall|k: int| 0 <= k < i ==> lower(#[trigger] a@[k]) == lower(b@[k]),
        decreases a@.len() - i,
    {
        if lower_char(a[i]) != lower_char(b[i]) {
            return false;
        }
        i = i + 1;
    }
    true
}

proof fn lemma_digits_value_positive(s: Seq<char>)
    requires
        all_digits(s),
    ensures
        0 <= digits_value(s),
    decreases s.len(),
{
    if s.len() > 0 {
        assert(is_digit(s[s.len() - 1]));
        lemma_digits_value_positive(s.drop_last());
    }
}

fn parse_length(chars: &[char]) -> (r: Option<usize>)
    ensures
        match r {
            Some(n) => parsed_length(chars@) == Some(n as int),
            None => parsed_length(chars@) is None,
        },
{
    let from: usize = if chars.len() > 0 && chars[0] == '+' {
        1
    } else {
        0
    };
    let ghost digits = without_plus(chars@);
    assert(digits =~= chars@.skip(from as int));
    if from == chars.len() {
        return None;
    }
    let mut value: usize = 0;
    let mut fits = true;
    let mut i: usize = from;
    while i < chars.len()
        invariant
            from <= i <= chars@.len(),
            digits == chars@.skip(from as int),
            digits == without_plus(chars@),
            digits.len() > 0,
            forall|k: int| 0 <= k < i - from ==> is_digit(#[trigger] digits[k]),
            fits ==> value == digits_value(digits.take(i - from)),
            !fits ==> digits_value(digits.take(i - from)) > usize::MAX,
        decreases chars@.len() - i,
    {
        let c = chars[i];
        assert(digits[i - from] == c);
        if !('0' <= c && c <= '9') {
            assert(!is_digit(digits[i - from]));
            return None;
        }
        let digit: usize = (c as u32 - '0' as u32) as usize;
        proof {
            let now = digits.take(i - from);
            let next = digits.take(i + 1 - from);
            assert(next.drop_last() =~= now);
            assert(next.last() == c);
            assert forall|k: int| 0 <= k < now.len() implies is_digit(#[trigger] now[k]) by {
                assert(is_digit(digits[k]));
            }
            lemma_digits_value_positive(now);
        }
        if fits {
            if value > usize::MAX / 10 {
                fits = false;
            } else if value * 10 > usize::MAX - digit {
                fits = false;
            } else {
                value = value * 10 + digit;
            }
        }
        i = i + 1;
    }
    assert(digits.take(i - from) =~= digits);
    if fits {
        Some(value)
    } else {
        None
    }
}

pub open spec fn length_view(length: Option<usize>) -> Option<int> {
    match length {
        Some(n) => Some(n as int),
        None => None,
    }
}

fn trimmed_part(chars: &[char], from: usize, to: usize) -> (r: &[char])
    requires
        from <= to <= chars@.len(),
    ensures
        r@ == trimmed(chars@.subrange(from as int, to as int)),
{
    let part = vstd::slice::slice_subrange(chars, from, to);
    let start = start_of(part);
    let end = end_of(part, start);
    vstd::slice::slice_subrange(part, start, end)
}

fn read_header(header: &[char], length: Option<usize>) -> (r: Option<usize>)
    ensures
        length_view(r) == length_after(header@, length_view(length)),
{
    match find_colon(header) {
        Some(i) => {
            assert(i < header.len());
            let name = trimmed_part(header, 0, i);
            assert(header@.subrange(0, i as int) =~= header@.take(i as int));
            let wanted = chars_of("content-length");
            if equal_ignoring_case(name, wanted.as_slice()) {
                let value = trimmed_part(header, i + 1, header.len());
                assert(header@.subrange(i + 1, header@.len() as int) =~= header@.skip(i + 1));
                parse_length(value)
            } else {
                length
            }
        },
        None => length,
    }
}

fn body(input: &[u8], ended: bool, start: usize, length: usize) -> (r: Frame)
    requires
        start <= input@.len(),
    ensures
        r == body_at(input@, ended, start as int, length as int),
{
    if length <= input.len() - start {
        Frame::Body { start, end: start + length }
    } else if ended {
        Frame::Cut
    } else {
        Frame::Partial
    }
}

/// Finds the body of the first message in what has been read of a stream.
/// `ended` tells that no more input follows.
pub fn read_frame(input: &[u8], ended: bool) -> (r: Frame)
    ensures
        r == first_frame(input@, ended),
{
    let mut at: usize = 0;
    let mut length: Option<usize> = None;
    loop
        invariant
            at <= input@.len(),
            first_frame(input@, ended) == frame_from(
                input@,
                ended,
                at as int,
                length_view(length),
            ),
        decreases input@.len() - at,
    {
        let (end, last) = match find_line_break(input, at) {
            Some(end) => (end, false),
            None => {
                if !ended {
                    return Frame::Partial;
                }
                if at >= input.len() {
                    return Frame::End;
                }
                (input.len(), true)
            },
        };
        let line = vstd::slice::slice_subrange(input, at, end);
        let text = match text_in(line) {
            Some(text) => text,
            None => return Frame::Invalid,
        };
        proof {
            encode_utf8_valid_utf8(text@);
            encode_utf8_decode_utf8(text@);
        }
        let chars = chars_of(text);
        let stop = end_of(chars.as_slice(), 0);
        assert(chars@.skip(0) =~= chars@);
        let header = vstd::slice::slice_subrange(chars.as_slice(), 0, stop);
        if header.len() == 0 {
            if let Some(n) = length {
                return body(input, ended, end, n);
            }
        } else {
            length = read_header(header, length);
        }
        if last {
            return Frame::End;
        }
        at = end;
    }
}

/// The bytes of a message with the given body.
pub open spec fn framed(body: Seq<u8>) -> Seq<u8> {
    encode_utf8("Content-Length: "@ + decimal(body.len()) + "\r\n\r\n"@) + body
}

/// Frames the body of a message.
pub fn frame(body: &[u8]) -> (r: Vec<u8>)
    ensures
        r@ == framed(body@),
{
    let mut header = "Content-Length: ".to_owned();
    push_decimal(&mut header, body.len());
    header.append("\r\n\r\n");
    let bytes = header.as_str().as_bytes();
    let mut out: Vec<u8> = Vec::new();
    let mut i: usize = 0;
    while i < bytes.len()
        invariant
            i <= bytes@.len(),
            out@ == bytes@.take(i as int),
        decreases bytes@.len() - i,
    {
        out.push(bytes[i]);
        assert(out@ =~= bytes@.take(i + 1));
        i = i + 1;
    }
    assert(bytes@.take(i as int) =~= bytes@);
    let mut k: usize = 0;
    assert(bytes@ + body@.take(0) =~= bytes@);
    while k < body.len()
        invariant
            k <= body@.len(),
            out@ == bytes@ + body@.take(k as int),
        decreases body@.len() - k,
    {
        out.push(body[k]);
        assert(out@ =~= bytes@ + body@.take(k + 1));
        k = k + 1;
    }
    assert(body@.take(k as int) =~= body@);
    out
}

// ---------------------------------------------------------------------------
// Messages
// ---------------------------------------------------------------------------

/// What comes next in a stream.
#[derive(Debug)]
pub enum Found {
    Message(Json),
    /// The next message is not complete yet.
    Partial,
    /// The stream ended before a message.
    End,
    /// A header is not text.
    Invalid,
    /// The stream ended inside a body.
    Cut,
}

pub enum FoundModel {
    Message(JsonModel),
    Partial,
    End,
    Invalid,
    Cut,
}

/// What comes next in a stream, how many bytes of it are done with, and a line
/// to log for each malformed message on the way.
#[derive(Debug)]
pub struct Next {
    pub found: Found,
    pub used: usize,
    pub ignored: Vec<String>,
}

pub struct NextModel {
    pub found: FoundModel,
    pub used: int,
    pub ignored: Seq<Seq<char>>,
}

pub open spec fn lines_of(lines: Seq<String>) -> Seq<Seq<char>> {
    lines.map_values(|line: String| line@)
}

impl Found {
    pub open spec fn view(&self) -> FoundModel {
        match *self {
            Found::Message(message) => FoundModel::Message(message@),
            Found::Partial => FoundModel::Partial,
            Found::End => FoundModel::End,
            Found::Invalid => FoundModel::Invalid,
            Found::Cut => FoundModel::Cut,
        }
    }
}

impl Next {
    pub open spec fn view(&self) -> NextModel {
        NextModel {
            found: self.found@,
            used: self.used as int,
            ignored: lines_of(self.ignored@),
        }
    }
}

/// What is logged about a body that is no JSON.
pub open spec fn malformed(error: Seq<char>) -> Seq<char> {
    NAME@ + ": ignoring malformed message: "@ + error
}

/// What is done about a body: it is a message, or a line is logged.
#[derive(Debug)]
pub enum Received {
    Message(Json),
    Ignored(String),
}

/// Decides about a body from what it was parsed as.
pub fn received(parsed: Result<Json, String>) -> (r: Received)
    ensures
        match (parsed, r) {
            (Ok(json), Received::Message(message)) => message@ == json@,
            (Err(error), Received::Ignored(line)) => line@ == malformed(error@),
            _ => false,
        },
{
    match parsed {
        Ok(message) => Received::Message(message),
        Err(error) => {
            let mut line = NAME.to_owned();
            line.append(": ignoring malformed message: ");
            line.append(error.as_str());
            Received::Ignored(line)
        },
    }
}

/// What comes next, behind malformed messages of `used` bytes.
pub open spec fn behind(ignored: Seq<Seq<char>>, used: int, next: NextModel) -> NextModel {
    NextModel { found: next.found, used: used + next.used, ignored: ignored + next.ignored }
}

/// Nothing more can be told of the stream.
pub open spec fn stopped(found: FoundModel) -> NextModel {
    NextModel { found, used: 0, ignored: Seq::empty() }
}

/// The next message of a stream. Messages with an invalid JSON body are logged
/// and skipped. `ended` tells that no more input follows.
pub open spec fn next_message(input: Seq<u8>, ended: bool) -> NextModel
    decreases input.len(),
    when input.len() <= usize::MAX
    via next_message_decreases
{
    match first_frame(input, ended) {
        Frame::Body { start, end } => match json_in(input.subrange(start as int, end as int)) {
            Ok(message) => NextModel {
                found: FoundModel::Message(message),
                used: end as int,
                ignored: Seq::empty(),
            },
            Err(error) => behind(
                seq![malformed(error)],
                end as int,
                next_message(input.skip(end as int), ended),
            ),
        },
        Frame::Partial => stopped(FoundModel::Partial),
        Frame::End => stopped(FoundModel::End),
        Frame::Invalid => stopped(FoundModel::Invalid),
        Frame::Cut => stopped(FoundModel::Cut),
    }
}

#[via_fn]
proof fn next_message_decreases(input: Seq<u8>, ended: bool) {
    lemma_frame_range(input, ended, 0, None);
}

proof fn lemma_length_positive(header: Seq<char>, length: Option<int>)
    requires
        length matches Some(n) ==> n >= 0,
    ensures
        length_after(header, length) matches Some(n) ==> n >= 0,
{
    if let Some(i) = colon_from(header, 0) {
        let digits = without_plus(trimmed(header.skip(i + 1)));
        if all_digits(digits) {
            lemma_digits_value_positive(digits);
        }
    }
}

/// A body lies inside the stream, behind its headers.
proof fn lemma_frame_range(input: Seq<u8>, ended: bool, at: int, length: Option<int>)
    requires
        0 <= at <= input.len() <= usize::MAX,
        length matches Some(n) ==> n >= 0,
    ensures
        frame_from(input, ended, at, length) matches Frame::Body { start, end } ==> at < start
            <= end <= input.len(),
    decreases input.len() - at,
{
    lemma_line_break(input, at);
    if let Some(end) = line_break(input, at) {
        let line = input.subrange(at, end);
        if valid_utf8(line) {
            let header = trim_end(decode_utf8(line));
            if header.len() > 0 {
                lemma_length_positive(header, length);
                lemma_frame_range(input, ended, end, length_after(header, length));
            } else if length is None {
                lemma_frame_range(input, ended, end, None);
            }
        }
    }
}

/// Reads the next message from what has been read of a stream. Messages with
/// an invalid JSON body are skipped, with a line to log. `ended` tells that no
/// more input follows.
pub fn read(input: &[u8], ended: bool) -> (r: Next)
    ensures
        r@ == next_message(input@, ended),
        r.used <= input@.len(),
{
    let mut used: usize = 0;
    let mut ignored: Vec<String> = Vec::new();
    proof {
        assert(input@.skip(0) =~= input@);
        assert(lines_of(ignored@) =~= Seq::<Seq<char>>::empty());
        let next = next_message(input@, ended);
        assert(behind(Seq::empty(), 0, next).ignored =~= next.ignored);
    }
    loop
        invariant
            used <= input@.len(),
            next_message(input@, ended) == behind(
                lines_of(ignored@),
                used as int,
                next_message(input@.skip(used as int), ended),
            ),
        decreases input@.len() - used,
    {
        let rest = vstd::slice::slice_subrange(input, used, input.len());
        assert(rest@ =~= input@.skip(used as int));
        proof {
            lemma_frame_range(rest@, ended, 0, None);
            assert(lines_of(ignored@) + Seq::<Seq<char>>::empty() =~= lines_of(ignored@));
        }
        let found = match read_frame(rest, ended) {
            Frame::Body { start, end } => {
                let body = vstd::slice::slice_subrange(rest, start, end);
                match received(read_json(body)) {
                    Received::Message(message) => {
                        used = used + end;
                        Found::Message(message)
                    },
                    Received::Ignored(line) => {
                        let ghost before = lines_of(ignored@);
                        let ghost logged = line@;
                        ignored.push(line);
                        proof {
                            let next = next_message(rest@.skip(end as int), ended);
                            assert(lines_of(ignored@) =~= before + seq![logged]);
                            assert(before + (seq![logged] + next.ignored) =~= lines_of(ignored@)
                                + next.ignored);
                            assert(rest@.skip(end as int) =~= input@.skip(used + end));
                        }
                        used = used + end;
                        continue ;
                    },
                }
            },
            Frame::Partial => Found::Partial,
            Frame::End => Found::End,
            Frame::Invalid => Found::Invalid,
            Frame::Cut => Found::Cut,
        };
        return Next { found, used, ignored };
    }
}

/// The bytes of a message.
pub open spec fn written(message: JsonModel) -> Seq<u8> {
    framed(json_bytes(message))
}

/// Writes a message. A message of integers that nests no deeper than a reader
/// allows is read back, whatever follows it.
pub fn write(message: &Json) -> (r: Vec<u8>)
    ensures
        r@ == written(message@),
        integral_within(message@, MAX_NESTING as int) ==> reads_back(message@),
        integral_within(message@, MAX_NESTING as int) ==> forall|rest: Seq<u8>, ended: bool|
            (r@ + rest).len() <= usize::MAX ==> #[trigger] next_message(r@ + rest, ended)
                == message_of(message@, r@.len() as int),
{
    let body = write_json(message);
    let r = frame(body.as_slice());
    proof {
        if integral_within(message@, MAX_NESTING as int) {
            assert forall|rest: Seq<u8>, ended: bool| (r@ + rest).len()
                <= usize::MAX implies #[trigger] next_message(r@ + rest, ended) == message_of(
                message@,
                r@.len() as int,
            ) by {
                law_read_gives_back_what_was_written(message@, rest, ended);
            }
        }
    }
    r
}

/// A message comes next, and takes `used` bytes.
pub open spec fn message_of(message: JsonModel, used: int) -> NextModel {
    NextModel { found: FoundModel::Message(message), used, ignored: Seq::empty() }
}

/// The bytes of some messages, one after the other.
pub open spec fn all_written(messages: Seq<JsonModel>) -> Seq<u8>
    decreases messages.len(),
{
    if messages.len() == 0 {
        Seq::empty()
    } else {
        written(messages[0]) + all_written(messages.skip(1))
    }
}

// ---------------------------------------------------------------------------
// Laws
// ---------------------------------------------------------------------------

proof fn lemma_line_break_is(input: Seq<u8>, from: int, end: int)
    requires
        0 <= from < end <= input.len(),
        input[end - 1] == 0x0a,
        forall|k: int| from <= k < end - 1 ==> #[trigger] input[k] != 0x0a,
    ensures
        line_break(input, from) == Some(end),
    decreases end - from,
{
    if from < end - 1 {
        assert(input[from] != 0x0a);
        lemma_line_break_is(input, from + 1, end);
    }
}

proof fn lemma_colon_is(s: Seq<char>, from: int, i: int)
    requires
        0 <= from <= i < s.len(),
        s[i] == ':',
        forall|k: int| from <= k < i ==> #[trigger] s[k] != ':',
    ensures
        colon_from(s, from) == Some(i),
    decreases i - from,
{
    if from < i {
        assert(s[from] != ':');
        lemma_colon_is(s, from + 1, i);
    }
}

proof fn lemma_decimal(n: nat)
    ensures
        decimal(n).len() > 0,
        all_digits(decimal(n)),
        digits_value(decimal(n)) == n,
    decreases n,
{
    if n < 10 {
        let s = seq![digit(n)];
        assert(s.drop_last() =~= Seq::<char>::empty());
        assert(digits_value(Seq::<char>::empty()) == 0);
        assert(decimal(n) == s);
    } else {
        lemma_decimal(n / 10);
        let init = decimal(n / 10);
        assert(init.push(digit(n % 10)).drop_last() =~= init);
    }
}

proof fn lemma_no_space_around(s: Seq<char>)
    requires
        s.len() > 0,
        !white_space(s[0]),
        !white_space(s.last()),
    ensures
        trimmed(s) == s,
{
}

/// The value of a `Content-Length` header, whose name may be written in any case.
proof fn lemma_length_header(n: nat, length: Option<int>)
    requires
        n <= usize::MAX,
    ensures
        length_after("Content-Length: "@ + decimal(n), length) == Some(n as int),
{
    let name = "Content-Length: "@;
    let header = name + decimal(n);
    reveal_strlit("Content-Length: ");
    reveal_strlit("content-length");
    lemma_decimal(n);
    lemma_colon_is(header, 0, 14);
    let key = header.take(14);
    assert(key[0] == 'C' && key.last() == 'h');
    lemma_no_space_around(key);
    let wanted = "content-length"@;
    assert forall|i: int| 0 <= i < key.len() implies lower(#[trigger] key[i]) == lower(
        wanted[i],
    ) by {
        assert(key[i] == name[i]);
    }
    assert(same_ignoring_case(trimmed(key), wanted));
    let value = header.skip(15);
    let number = decimal(n);
    assert(value[0] == ' ');
    assert(value.skip(1) =~= number);
    assert(is_digit(number[0]) && is_digit(number[number.len() - 1]));
    assert(trim_start(number) == number);
    assert(trim_start(value) == number);
    assert(trim_end(number) == number);
    assert(without_plus(number) == number);
}

/// A framed body is found again, and the stream goes on where it ends, whatever
/// follows.
pub proof fn law_frames_are_read_back(body: Seq<u8>, rest: Seq<u8>, ended: bool)
    requires
        framed(body).len() <= usize::MAX,
    ensures
        first_frame(framed(body) + rest, ended) matches Frame::Body { start, end } && (framed(body)
            + rest).subrange(start as int, end as int) == body && (framed(body) + rest).skip(
            end as int,
        ) == rest,
{
    let n = body.len();
    let number = decimal(n);
    let header = "Content-Length: "@ + number;
    let blank = "\r\n"@;
    let first = header + blank;
    let head = "Content-Length: "@ + number + "\r\n\r\n"@;
    reveal_strlit("Content-Length: ");
    reveal_strlit("\r\n");
    reveal_strlit("\r\n\r\n");
    assert(head =~= first + blank);
    lemma_decimal(n);
    assert forall|i: int| 0 <= i < head.len() implies '\0' <= #[trigger] head[i] <= '\u{7f}' by {
        if header.len() > i >= 16 {
            assert(head[i] == number[i - 16]);
            assert(is_digit(number[i - 16]));
        }
    }
    assert(is_ascii_chars(head));
    is_ascii_chars_encode_utf8(head);
    let bytes = encode_utf8(head);
    let input = framed(body) + rest;
    assert forall|i: int| 0 <= i < head.len() implies #[trigger] input[i] == head[i] as u8 by {
        assert(head[i] as u8 == bytes[i]);
    }
    let h1 = first.len() as int;
    let h = head.len() as int;
    // The line with the length.
    assert forall|i: int| 0 <= i < h1 - 1 implies #[trigger] input[i] != 0x0a by {
        assert(input[i] == head[i] as u8);
        if 16 <= i < header.len() {
            assert(head[i] == number[i - 16]);
            assert(is_digit(number[i - 16]));
        }
    }
    assert(input[h1 - 1] == head[h1 - 1] as u8);
    lemma_line_break_is(input, 0, h1);
    assert forall|i: int| 0 <= i < first.len() implies '\0' <= #[trigger] first[i] <= '\u{7f}' by {
        assert(first[i] == head[i]);
    }
    is_ascii_chars_encode_utf8(first);
    let line = input.subrange(0, h1);
    assert forall|i: int| 0 <= i < h1 implies #[trigger] line[i] == encode_utf8(first)[i] by {
        assert(first[i] as u8 == encode_utf8(first)[i]);
        assert(input[i] == head[i] as u8);
        assert(first[i] == head[i]);
    }
    assert(line =~= encode_utf8(first));
    encode_utf8_valid_utf8(first);
    encode_utf8_decode_utf8(first);
    assert(is_digit(number[number.len() - 1]));
    assert(first.drop_last().drop_last() =~= header);
    assert(header.last() == number.last());
    assert(trim_end(header) == header);
    assert(trim_end(first.drop_last()) == header);
    assert(trim_end(first) == header);
    assert(n <= usize::MAX);
    lemma_length_header(n, None);
    assert(frame_from(input, ended, 0, None) == frame_from(input, ended, h1, Some(n as int)));
    // The blank line behind it.
    assert(input[h1] == head[h1] as u8 && head[h1] == '\r');
    assert(input[h1 + 1] == head[h1 + 1] as u8 && head[h1 + 1] == '\n');
    lemma_line_break_is(input, h1, h);
    assert(is_ascii_chars(blank));
    is_ascii_chars_encode_utf8(blank);
    let second = input.subrange(h1, h);
    assert forall|i: int| 0 <= i < 2 implies #[trigger] second[i] == encode_utf8(blank)[i] by {
        assert(blank[i] as u8 == encode_utf8(blank)[i]);
        assert(head[h1 + i] == blank[i]);
        assert(input[h1 + i] == head[h1 + i] as u8);
    }
    assert(second =~= encode_utf8(blank));
    encode_utf8_valid_utf8(blank);
    encode_utf8_decode_utf8(blank);
    assert(blank.drop_last().drop_last() =~= Seq::<char>::empty());
    assert(trim_end(blank.drop_last().drop_last()) == Seq::<char>::empty());
    assert(trim_end(blank.drop_last()) == Seq::<char>::empty());
    assert(trim_end(blank) == Seq::<char>::empty());
    assert(frame_from(input, ended, h1, Some(n as int)) == body_at(input, ended, h, n as int));
    assert(input.subrange(h, h + n) =~= body);
    assert(input.skip(h + n) =~= rest);
}

proof fn lemma_line_break_extended(input: Seq<u8>, more: Seq<u8>, from: int)
    requires
        0 <= from,
        line_break(input, from) is Some,
    ensures
        line_break(input + more, from) == line_break(input, from),
    decreases input.len() - from,
{
    let whole = input + more;
    assert(whole[from] == input[from]);
    if input[from] != 0x0a {
        lemma_line_break_extended(input, more, from + 1);
    }
}

/// What is decided about the start of a stream stays decided when more of it
/// is read.
pub proof fn law_more_input_changes_no_frame(input: Seq<u8>, more: Seq<u8>, ended: bool)
    requires
        first_frame(input, false) != Frame::Partial,
    ensures
        first_frame(input + more, ended) == first_frame(input, false),
{
    lemma_frame_extended(input, more, ended, 0, None);
}

proof fn lemma_frame_extended(
    input: Seq<u8>,
    more: Seq<u8>,
    ended: bool,
    at: int,
    length: Option<int>,
)
    requires
        0 <= at <= input.len(),
        frame_from(input, false, at, length) != Frame::Partial,
    ensures
        frame_from(input + more, ended, at, length) == frame_from(input, false, at, length),
    decreases input.len() - at,
{
    let whole = input + more;
    lemma_line_break(input, at);
    if let Some(end) = line_break(input, at) {
        lemma_line_break_extended(input, more, at);
        let line = input.subrange(at, end);
        assert(whole.subrange(at, end) =~= line);
        if valid_utf8(line) {
            let header = trim_end(decode_utf8(line));
            if header.len() > 0 {
                lemma_frame_extended(input, more, ended, end, length_after(header, length));
            } else if length is None {
                lemma_frame_extended(input, more, ended, end, None);
            }
        }
    }
}

proof fn lemma_frame_end(body: Seq<u8>, rest: Seq<u8>, ended: bool)
    requires
        (framed(body) + rest).len() <= usize::MAX,
    ensures
        first_frame(framed(body) + rest, ended) matches Frame::Body { start, end } && end == framed(
            body,
        ).len() && (framed(body) + rest).subrange(start as int, end as int) == body && (framed(body)
            + rest).skip(end as int) == rest,
{
    law_frames_are_read_back(body, rest, ended);
    let input = framed(body) + rest;
    lemma_frame_range(input, ended, 0, None);
    if let Frame::Body { end, .. } = first_frame(input, ended) {
        assert(input.skip(end as int).len() == input.len() - end);
    }
}

/// A message that was written is read back, and the stream goes on where it
/// ends, whatever follows.
pub proof fn law_read_gives_back_what_was_written(
    message: JsonModel,
    rest: Seq<u8>,
    ended: bool,
)
    requires
        reads_back(message),
        (written(message) + rest).len() <= usize::MAX,
    ensures
        next_message(written(message) + rest, ended) == message_of(
            message,
            written(message).len() as int,
        ),
        (written(message) + rest).skip(written(message).len() as int) == rest,
{
    lemma_frame_end(json_bytes(message), rest, ended);
}

/// A body that is no JSON is logged and skipped: what comes next is what comes
/// behind it.
pub proof fn law_malformed_bodies_are_skipped(body: Seq<u8>, rest: Seq<u8>, ended: bool)
    requires
        json_in(body) is Err,
        (framed(body) + rest).len() <= usize::MAX,
    ensures
        next_message(framed(body) + rest, ended) == behind(
            seq![malformed(json_in(body)->Err_0)],
            framed(body).len() as int,
            next_message(rest, ended),
        ),
{
    lemma_frame_end(body, rest, ended);
}

proof fn lemma_all_written_split(messages: Seq<JsonModel>, i: int)
    requires
        0 <= i <= messages.len(),
    ensures
        all_written(messages) == all_written(messages.take(i)) + all_written(messages.skip(i)),
    decreases i,
{
    if i == 0 {
        assert(messages.skip(0) =~= messages);
        assert(all_written(messages.take(0)) + all_written(messages) =~= all_written(messages));
    } else {
        lemma_all_written_split(messages.skip(1), i - 1);
        assert(messages.take(i).skip(1) =~= messages.skip(1).take(i - 1));
        assert(messages.skip(1).skip(i - 1) =~= messages.skip(i));
        assert(messages.take(i)[0] == messages[0]);
        assert(all_written(messages) =~= all_written(messages.take(i)) + all_written(
            messages.skip(i),
        ));
    }
}

/// Messages that were written one after the other are read back in turn: when
/// the first `i` have been read, the next one comes next and takes exactly its
/// own bytes, and behind the last one the stream ends.
pub proof fn law_messages_are_read_in_turn(messages: Seq<JsonModel>, i: int, ended: bool)
    requires
        forall|k: int| 0 <= k < messages.len() ==> reads_back(#[trigger] messages[k]),
        all_written(messages).len() <= usize::MAX,
        0 <= i <= messages.len(),
    ensures
        ({
            let done = all_written(messages.take(i)).len() as int;
            let rest = all_written(messages).skip(done);
            if i < messages.len() {
                &&& next_message(rest, ended) == message_of(
                    messages[i],
                    written(messages[i]).len() as int,
                )
                &&& done + written(messages[i]).len() == all_written(messages.take(i + 1)).len()
            } else {
                next_message(rest, true) == stopped(FoundModel::End)
            }
        }),
{
    let done = all_written(messages.take(i)).len() as int;
    let rest = all_written(messages).skip(done);
    lemma_all_written_split(messages, i);
    assert(rest =~= all_written(messages.skip(i)));
    if i < messages.len() {
        let more = all_written(messages.skip(i).skip(1));
        assert(messages.skip(i)[0] == messages[i]);
        assert(rest == written(messages[i]) + more);
        law_read_gives_back_what_was_written(messages[i], more, ended);
        let next = messages.take(i + 1);
        lemma_all_written_split(next, i);
        assert(next.take(i) =~= messages.take(i));
        let last = next.skip(i);
        assert(last[0] == messages[i]);
        assert(last.skip(1) =~= Seq::<JsonModel>::empty());
        assert(all_written(last.skip(1)) == Seq::<u8>::empty());
        assert(all_written(last) == written(messages[i]) + all_written(last.skip(1)));
    } else {
        assert(messages.skip(i) =~= Seq::<JsonModel>::empty());
        assert(rest == Seq::<u8>::empty());
    }
}

/// What comes next in a stream stays the same when more of it is read.
pub proof fn law_more_input_changes_no_decision(input: Seq<u8>, more: Seq<u8>, ended: bool)
    requires
        (input + more).len() <= usize::MAX,
        next_message(input, false).found != FoundModel::Partial,
    ensures
        next_message(input + more, ended) == next_message(input, false),
    decreases input.len(),
{
    law_more_input_changes_no_frame(input, more, ended);
    lemma_frame_range(input, false, 0, None);
    if let Frame::Body { start, end } = first_frame(input, false) {
        let whole = input + more;
        assert(whole.subrange(start as int, end as int) =~= input.subrange(
            start as int,
            end as int,
        ));
        assert(whole.skip(end as int) =~= input.skip(end as int) + more);
        if json_in(input.subrange(start as int, end as int)) is Err {
            law_more_input_changes_no_decision(input.skip(end as int), more, ended);
        }
    }
}

/// The head of a message is read line by line. A line that is not text is an
/// error. A line that is not blank can set the length. A blank line ends the
/// head once there is a length, and is skipped before: the body is the bytes
/// behind it, if they are there.
pub proof fn law_heads_are_read_line_by_line(
    input: Seq<u8>,
    ended: bool,
    at: int,
    end: int,
    length: Option<int>,
    n: int,
)
    requires
        0 <= at < end <= input.len() <= usize::MAX,
        input[end - 1] == 0x0a,
        forall|k: int| at <= k < end - 1 ==> #[trigger] input[k] != 0x0a,
        0 <= n,
    ensures
        ({
            let line = input.subrange(at, end);
            let header = trim_end(decode_utf8(line));
            let there = end + n <= input.len();
            &&& !valid_utf8(line) ==> frame_from(input, ended, at, length) == Frame::Invalid
            &&& valid_utf8(line) && header.len() > 0 ==> frame_from(input, ended, at, length)
                == frame_from(input, ended, end, length_after(header, length))
            &&& valid_utf8(line) && header.len() == 0 ==> frame_from(input, ended, at, None)
                == frame_from(input, ended, end, None)
            &&& valid_utf8(line) && header.len() == 0 && there ==> (frame_from(
                input,
                ended,
                at,
                Some(n),
            ) matches Frame::Body { start, end: last } && start == end && last == end + n)
            &&& valid_utf8(line) && header.len() == 0 && !there ==> frame_from(
                input,
                ended,
                at,
                Some(n),
            ) == (if ended {
                Frame::Cut
            } else {
                Frame::Partial
            })
        }),
{
    lemma_line_break_is(input, at, end);
}

proof fn lemma_no_line_break(input: Seq<u8>, from: int)
    requires
        0 <= from,
        forall|k: int| from <= k < input.len() ==> #[trigger] input[k] != 0x0a,
    ensures
        line_break(input, from) is None,
    decreases input.len() - from,
{
    if from < input.len() {
        assert(input[from] != 0x0a);
        lemma_no_line_break(input, from + 1);
    }
}

/// A line that is not complete may still become so while the stream goes on.
/// When the stream has ended there is no message any more, but for an empty one
/// whose head is complete.
pub proof fn law_last_lines(input: Seq<u8>, ended: bool, at: int, length: Option<int>)
    requires
        0 <= at <= input.len(),
        forall|k: int| at <= k < input.len() ==> #[trigger] input[k] != 0x0a,
    ensures
        ({
            let line = input.subrange(at, input.len() as int);
            let frame = frame_from(input, ended, at, length);
            &&& !ended ==> frame == Frame::Partial
            &&& ended && at == input.len() ==> frame == Frame::End
            &&& ended && at < input.len() && !valid_utf8(line) ==> frame == Frame::Invalid
            &&& ended && at < input.len() && valid_utf8(line) && (length is None || trim_end(
                decode_utf8(line),
            ).len() > 0) ==> frame == Frame::End
            &&& ended && at < input.len() && valid_utf8(line) && trim_end(decode_utf8(line)).len()
                == 0 && length is Some && length->Some_0 > 0 ==> frame == Frame::Cut
            &&& ended && at < input.len() <= usize::MAX && valid_utf8(line) && trim_end(
                decode_utf8(line),
            ).len() == 0 && length == Some(0int) ==> (frame matches Frame::Body { start, end }
                && start == input.len() && end == input.len())
        }),
{
    lemma_no_line_break(input, at);
}

/// Letters of ASCII are compared without their case, and all other characters
/// as they are.
pub proof fn law_case_is_ignored_in_ascii(c: char)
    ensures
        'A' <= c <= 'Z' ==> lower(c) as int == c as int + 32,
        !('A' <= c <= 'Z') ==> lower(c) == c,
{
}

/// A header named `Content-Length`, in any case and with white space around its
/// name and value, sets the length to its value: a number with or without a
/// plus sign, or nothing if it is none or too large.
pub proof fn law_length_headers(
    name: Seq<char>,
    before: Seq<char>,
    value: Seq<char>,
    behind: Seq<char>,
    length: Option<int>,
    n: nat,
)
    requires
        same_ignoring_case(trimmed(name), "content-length"@),
        forall|i: int| 0 <= i < name.len() ==> #[trigger] name[i] != ':',
        forall|i: int| 0 <= i < before.len() ==> white_space(#[trigger] before[i]),
        forall|i: int| 0 <= i < behind.len() ==> white_space(#[trigger] behind[i]),
        value.len() > 0 ==> !white_space(value[0]) && !white_space(value.last()),
    ensures
        ({
            let header = name.push(':') + (before + value + behind);
            let made = length_after(header, length);
            let digits = if value.len() > 0 && value[0] == '+' {
                value.skip(1)
            } else {
                value
            };
            &&& value == decimal(n) && n <= usize::MAX ==> made == Some(n as int)
            &&& value == seq!['+'] + decimal(n) && n <= usize::MAX ==> made == Some(n as int)
            &&& value == decimal(n) && n > usize::MAX ==> made is None
            &&& digits.len() == 0 ==> made is None
            &&& (exists|i: int|
                0 <= i < digits.len() && !('0' <= #[trigger] digits[i] <= '9')) ==> made is None
        }),
{
    let rest = before + value + behind;
    let header = name.push(':') + rest;
    let at = name.len() as int;
    assert(header[at] == ':');
    assert forall|k: int| 0 <= k < at implies #[trigger] header[k] != ':' by {
        assert(header[k] == name[k]);
    }
    lemma_colon_is(header, 0, at);
    assert(header.take(at) =~= name);
    assert(header.skip(at + 1) =~= rest);
    law_white_space_around_is_cut_off(before, value, behind);
    let digits = without_plus(value);
    lemma_decimal(n);
    if value == decimal(n) {
        assert(is_digit(value[0]));
        assert(digits == value);
    }
    if value == seq!['+'] + decimal(n) {
        assert(value[0] == '+');
        assert(digits =~= decimal(n));
    }
    if exists|i: int| 0 <= i < digits.len() && !('0' <= #[trigger] digits[i] <= '9') {
        let i = choose|i: int| 0 <= i < digits.len() && !('0' <= #[trigger] digits[i] <= '9');
        assert(!is_digit(digits[i]));
        assert(!all_digits(digits));
    }
}

proof fn lemma_no_colon(s: Seq<char>, from: int)
    requires
        0 <= from,
        forall|i: int| from <= i < s.len() ==> #[trigger] s[i] != ':',
    ensures
        colon_from(s, from) is None,
    decreases s.len() - from,
{
    if from < s.len() {
        assert(s[from] != ':');
        lemma_no_colon(s, from + 1);
    }
}

/// All other headers, and lines that are none, leave the length alone.
pub proof fn law_other_headers(name: Seq<char>, rest: Seq<char>, length: Option<int>)
    requires
        forall|i: int| 0 <= i < name.len() ==> #[trigger] name[i] != ':',
    ensures
        length_after(name, length) == length,
        !same_ignoring_case(trimmed(name), "content-length"@) ==> length_after(
            name.push(':') + rest,
            length,
        ) == length,
{
    lemma_no_colon(name, 0);
    let header = name.push(':') + rest;
    let at = name.len() as int;
    assert(header[at] == ':');
    assert forall|k: int| 0 <= k < at implies #[trigger] header[k] != ':' by {
        assert(header[k] == name[k]);
    }
    lemma_colon_is(header, 0, at);
    assert(header.take(at) =~= name);
}

/// A message is written as its length in bytes, a blank line, and its bytes.
pub proof fn law_frames_tell_their_length(body: Seq<u8>)
    ensures
        ({
            let head = encode_utf8("Content-Length: "@ + decimal(body.len()) + "\r\n\r\n"@);
            &&& framed(body).len() == head.len() + body.len()
            &&& framed(body).take(head.len() as int) == head
            &&& framed(body).skip(head.len() as int) == body
        }),
{
    let head = encode_utf8("Content-Length: "@ + decimal(body.len()) + "\r\n\r\n"@);
    assert(framed(body).take(head.len() as int) =~= head);
    assert(framed(body).skip(head.len() as int) =~= body);
}

/// A stream without a complete message says why, uses nothing and ignores
/// nothing. A message that is JSON is the next one, and the stream goes on
/// behind it; one that is not is logged.
pub proof fn law_streams_are_read_message_by_message(
    input: Seq<u8>,
    ended: bool,
    start: usize,
    end: usize,
    error: Seq<char>,
)
    requires
        input.len() <= usize::MAX,
    ensures
        ({
            let next = next_message(input, ended);
            let nothing = Seq::<Seq<char>>::empty();
            let body = input.subrange(start as int, end as int);
            &&& first_frame(input, ended) == Frame::Partial ==> next == (NextModel {
                found: FoundModel::Partial,
                used: 0,
                ignored: nothing,
            })
            &&& first_frame(input, ended) == Frame::End ==> next == (NextModel {
                found: FoundModel::End,
                used: 0,
                ignored: nothing,
            })
            &&& first_frame(input, ended) == Frame::Invalid ==> next == (NextModel {
                found: FoundModel::Invalid,
                used: 0,
                ignored: nothing,
            })
            &&& first_frame(input, ended) == Frame::Cut ==> next == (NextModel {
                found: FoundModel::Cut,
                used: 0,
                ignored: nothing,
            })
            &&& first_frame(input, ended) == (Frame::Body { start, end }) && json_in(body) is Ok
                ==> next == (NextModel {
                found: FoundModel::Message(json_in(body)->Ok_0),
                used: end as int,
                ignored: nothing,
            })
            &&& first_frame(input, ended) == (Frame::Body { start, end }) && json_in(body)
                == Err::<JsonModel, Seq<char>>(error) ==> {
                let later = next_message(input.skip(end as int), ended);
                &&& next.found == later.found
                &&& next.used == end + later.used
                &&& next.ignored == seq![
                    "gitlab-ci-bash-ls"@ + ": ignoring malformed message: "@ + error,
                ] + later.ignored
            }
        }),
{
    lemma_frame_range(input, ended, 0, None);
    if first_frame(input, ended) == (Frame::Body { start, end }) {
        let later = next_message(input.skip(end as int), ended);
        if let Err(error) = json_in(input.subrange(start as int, end as int)) {
            assert(next_message(input, ended) == behind(
                seq![malformed(error)],
                end as int,
                later,
            ));
        }
    }
}

} // verus!
