//! The line grammar of the diagram notation.
//!
//! A source text is read line by line. Every parser here works on the characters of the whole
//! text and a position in it, and hands back what it read together with the position after it.
//! Positions count characters, not bytes. Participant names are trimmed of white space on both
//! sides wherever they occur; the text of a message or a note loses only its leading spaces.

use crate::diagram::Arrow;
use crate::text::{to_chars, to_string};
use vstd::prelude::*;

verus! {

/// A `+` or `-` behind the arrow of a message line.
#[derive(PartialEq, Eq, Structural, Debug, Clone, Copy)]
pub enum ActivationChange {
    Activate,
    Deactivate,
}

/// A message as written: the two names still as text.
#[derive(PartialEq, Debug)]
pub struct MessageLine {
    pub from: String,
    pub arrow: Arrow,
    pub to: String,
    pub msg: String,
    pub activation: Option<ActivationChange>,
}

pub struct MessageLineView {
    pub from: Seq<char>,
    pub arrow: Arrow,
    pub to: Seq<char>,
    pub msg: Seq<char>,
    pub activation: Option<ActivationChange>,
}

impl View for MessageLine {
    type V = MessageLineView;

    open spec fn view(&self) -> MessageLineView {
        MessageLineView {
            from: self.from@,
            arrow: self.arrow,
            to: self.to@,
            msg: self.msg@,
            activation: self.activation,
        }
    }
}

/// Where a note is placed, as written.
#[derive(PartialEq, Debug)]
pub enum NotePosition {
    LeftOf(String),
    Over(Vec<String>),
    RightOf(String),
}

pub enum NotePositionView {
    LeftOf(Seq<char>),
    Over(Seq<Seq<char>>),
    RightOf(Seq<char>),
}

/// The texts of `names`, as sequences of characters.
pub open spec fn names_view(names: Seq<String>) -> Seq<Seq<char>> {
    Seq::new(names.len(), |i: int| names[i]@)
}

impl View for NotePosition {
    type V = NotePositionView;

    open spec fn view(&self) -> NotePositionView {
        match self {
            NotePosition::LeftOf(name) => NotePositionView::LeftOf(name@),
            NotePosition::Over(names) => NotePositionView::Over(names_view(names@)),
            NotePosition::RightOf(name) => NotePositionView::RightOf(name@),
        }
    }
}

/// One line of the source.
#[derive(PartialEq, Debug)]
pub enum Line {
    Empty,
    Message(MessageLine),
    Participant(String),
    Actor(String),
    Note(NotePosition, String),
}

pub enum LineView {
    Empty,
    Message(MessageLineView),
    Participant(Seq<char>),
    Actor(Seq<char>),
    Note(NotePositionView, Seq<char>),
}

impl View for Line {
    type V = LineView;

    open spec fn view(&self) -> LineView {
        match self {
            Line::Empty => LineView::Empty,
            Line::Message(m) => LineView::Message(m@),
            Line::Participant(name) => LineView::Participant(name@),
            Line::Actor(name) => LineView::Actor(name@),
            Line::Note(position, text) => LineView::Note(position@, text@),
        }
    }
}

/// What a message line lacked where it could not be read.
#[derive(PartialEq, Eq, Structural, Debug, Clone, Copy)]
pub enum Expected {
    /// `->` or `-->` behind the sender.
    Arrow,
    /// The `:` behind the receiver.
    Colon,
    /// The line break that ends the line.
    EndOfLine,
}

/// A line that is none of the forms of the grammar: `offset` is the position, counted in
/// characters, at which `expected` was missing.
#[derive(PartialEq, Eq, Structural, Debug, Clone, Copy)]
pub struct ParseError {
    pub offset: usize,
    pub expected: Expected,
}

// ---------------------------------------------------------------------------------------------
// Scanning
// ---------------------------------------------------------------------------------------------
/// Blanks are what trimming removes: the characters that Unicode counts as white space. These
/// are tab to carriage return, space, next line, no-break space, the Ogham space mark, en quad
/// to hair space, line and paragraph separator, narrow no-break space, medium mathematical
/// space and ideographic space.
pub open spec fn is_blank(c: char) -> bool {
    let code = c as u32;
    ||| 0x9 <= code <= 0xD
    ||| code == 0x20
    ||| code == 0x85
    ||| code == 0xA0
    ||| code == 0x1680
    ||| 0x2000 <= code <= 0x200A
    ||| code == 0x2028
    ||| code == 0x2029
    ||| code == 0x202F
    ||| code == 0x205F
    ||| code == 0x3000
}

/// The first position at or after `pos` that holds no space.
pub open spec fn skip_spaces(s: Seq<char>, pos: int) -> int
    decreases s.len() - pos,
{
    if 0 <= pos < s.len() && s[pos] == ' ' {
        skip_spaces(s, pos + 1)
    } else {
        pos
    }
}

/// The first position at or after `pos` that holds `a`, `b` or a line break; the length of `s`
/// if there is none.
pub open spec fn scan_to(s: Seq<char>, pos: int, a: char, b: char) -> int
    decreases s.len() - pos,
{
    if 0 <= pos < s.len() && s[pos] != a && s[pos] != b && s[pos] != '\n' {
        scan_to(s, pos + 1, a, b)
    } else {
        pos
    }
}

/// Where the line that holds `pos` ends: the position of its line break.
pub open spec fn line_end(s: Seq<char>, pos: int) -> int {
    scan_to(s, pos, '\n', '\n')
}

/// `s` holds `c` at `pos`.
pub open spec fn has_char(s: Seq<char>, pos: int, c: char) -> bool {
    0 <= pos < s.len() && s[pos] == c
}

/// `s` continues with `word` at `pos`.
pub open spec fn has_prefix(s: Seq<char>, pos: int, word: Seq<char>) -> bool {
    0 <= pos && pos + word.len() <= s.len() && s.subrange(pos, pos + word.len()) == word
}

/// The first position in `from..to` that holds no blank; `to` if all are blanks.
pub open spec fn trim_left(s: Seq<char>, from: int, to: int) -> int
    decreases to - from,
{
    if 0 <= from < to <= s.len() && is_blank(s[from]) {
        trim_left(s, from + 1, to)
    } else {
        from
    }
}

/// The end of `from..to` once the blanks at its end are cut off.
pub open spec fn trim_right(s: Seq<char>, from: int, to: int) -> int
    decreases to - from,
{
    if 0 <= from < to <= s.len() && is_blank(s[to - 1]) {
        trim_right(s, from, to - 1)
    } else {
        to
    }
}

/// The characters of `from..to` without the blanks at both ends.
pub open spec fn trimmed(s: Seq<char>, from: int, to: int) -> Seq<char> {
    let start = trim_left(s, from, to);
    s.subrange(start, trim_right(s, start, to))
}

proof fn lemma_skip_spaces_bounds(s: Seq<char>, pos: int)
    requires
        0 <= pos <= s.len(),
    ensures
        pos <= skip_spaces(s, pos) <= s.len(),
    decreases s.len() - pos,
{
    if pos < s.len() && s[pos] == ' ' {
        lemma_skip_spaces_bounds(s, pos + 1);
    }
}

proof fn lemma_scan_to_bounds(s: Seq<char>, pos: int, a: char, b: char)
    requires
        0 <= pos <= s.len(),
    ensures
        pos <= scan_to(s, pos, a, b) <= s.len(),
    decreases s.len() - pos,
{
    if pos < s.len() && s[pos] != a && s[pos] != b && s[pos] != '\n' {
        lemma_scan_to_bounds(s, pos + 1, a, b);
    }
}

proof fn lemma_trim_bounds(s: Seq<char>, from: int, to: int)
    requires
        0 <= from <= to <= s.len(),
    ensures
        from <= trim_left(s, from, to) <= to,
        from <= trim_right(s, from, to) <= to,
    decreases to - from,
{
    if from < to && is_blank(s[from]) {
        lemma_trim_bounds(s, from + 1, to);
    }
    if from < to && is_blank(s[to - 1]) {
        lemma_trim_bounds(s, from, to - 1);
    }
}

/// Skips the spaces at `pos`.
pub fn skip_spaces_at(chars: &Vec<char>, pos: usize) -> (next: usize)
    requires
        pos <= chars.len(),
    ensures
        next == skip_spaces(chars@, pos as int),
        pos <= next <= chars.len(),
{
    let mut i: usize = pos;
    while i < chars.len() && chars[i] == ' '
        invariant
            pos <= i <= chars.len(),
            skip_spaces(chars@, pos as int) == skip_spaces(chars@, i as int),
        decreases chars.len() - i,
    {
        i += 1;
    }
    i
}

/// Runs forward from `pos` to the first `a`, `b` or line break.
pub fn scan_to_at(chars: &Vec<char>, pos: usize, a: char, b: char) -> (next: usize)
    requires
        pos <= chars.len(),
    ensures
        next == scan_to(chars@, pos as int, a, b),
        pos <= next <= chars.len(),
{
    let mut i: usize = pos;
    while i < chars.len() && chars[i] != a && chars[i] != b && chars[i] != '\n'
        invariant
            pos <= i <= chars.len(),
            scan_to(chars@, pos as int, a, b) == scan_to(chars@, i as int, a, b),
        decreases chars.len() - i,
    {
        i += 1;
    }
    i
}

/// Tells whether `word` stands at `pos`.
pub fn starts_with(chars: &Vec<char>, pos: usize, word: &str) -> (found: bool)
    requires
        pos <= chars.len(),
    ensures
        found == has_prefix(chars@, pos as int, word@),
{
    let word_chars = to_chars(word);
    let n = word_chars.len();
    if n > chars.len() - pos {
        return false;
    }
    let mut i: usize = 0;
    while i < n
        invariant
            i <= n,
            n == word_chars@.len(),
            word_chars@ == word@,
            pos + n <= chars.len(),
            chars@.subrange(pos as int, pos + i) == word@.subrange(0, i as int),
        decreases n - i,
    {
        if chars[pos + i] != word_chars[i] {
            assert(chars@.subrange(pos as int, pos + n)[i as int] != word@[i as int]);
            return false;
        }
        assert(chars@.subrange(pos as int, pos + (i + 1)) == chars@.subrange(
            pos as int,
            pos + i,
        ).push(chars@[pos + i]));
        assert(word@.subrange(0, i + 1) == word@.subrange(0, i as int).push(word@[i as int]));
        i += 1;
    }
    assert(word@.subrange(0, n as int) == word@);
    true
}

fn is_blank_char(c: char) -> (blank: bool)
    ensures
        blank == is_blank(c),
{
    let code: u32 = c as u32;
    (0x9 <= code && code <= 0xD) || code == 0x20 || code == 0x85 || code == 0xA0 || code == 0x1680
        || (0x2000 <= code && code <= 0x200A) || code == 0x2028 || code == 0x2029 || code
        == 0x202F || code == 0x205F || code == 0x3000
}

/// The text of `from..to` without the blanks at both ends.
pub fn trimmed_text(chars: &Vec<char>, from: usize, to: usize) -> (name: String)
    requires
        from <= to <= chars.len(),
    ensures
        name@ == trimmed(chars@, from as int, to as int),
{
    let mut start: usize = from;
    while start < to && is_blank_char(chars[start])
        invariant
            from <= start <= to <= chars.len(),
            trim_left(chars@, from as int, to as int) == trim_left(
                chars@,
                start as int,
                to as int,
            ),
        decreases to - start,
    {
        start += 1;
    }
    let mut end: usize = to;
    while start < end && is_blank_char(chars[end - 1])
        invariant
            start <= end <= to <= chars.len(),
            trim_right(chars@, start as int, to as int) == trim_right(
                chars@,
                start as int,
                end as int,
            ),
        decreases end - start,
    {
        end -= 1;
    }
    to_string(chars, start, end)
}

// ---------------------------------------------------------------------------------------------
// The parts of a message line
// ---------------------------------------------------------------------------------------------
/// An arrow at `pos`, `->` or `-->`, with the position behind it.
pub open spec fn arrow(s: Seq<char>, pos: int) -> Option<(Arrow, int)> {
    if has_char(s, pos, '-') && has_char(s, pos + 1, '>') {
        Some((Arrow::SolidNoArrow, pos + 2))
    } else if has_char(s, pos, '-') && has_char(s, pos + 1, '-') && has_char(s, pos + 2, '>') {
        Some((Arrow::DottedNoArrow, pos + 3))
    } else {
        None
    }
}

/// The optional `+` or `-` at `pos`, with the position behind it.
pub open spec fn activation(s: Seq<char>, pos: int) -> (Option<ActivationChange>, int) {
    if has_char(s, pos, '-') {
        (Some(ActivationChange::Deactivate), pos + 1)
    } else if has_char(s, pos, '+') {
        (Some(ActivationChange::Activate), pos + 1)
    } else {
        (None, pos)
    }
}

/// The name that runs from `pos` to the first `mark` of the line, and where that mark stands.
pub open spec fn name_before(s: Seq<char>, pos: int, mark: char) -> Option<(Seq<char>, int)> {
    let end = scan_to(s, pos, mark, mark);
    if has_char(s, end, mark) {
        Some((trimmed(s, pos, end), end))
    } else {
        None
    }
}

/// The sender of a message line: the text up to the first `-`.
pub open spec fn sender_name(s: Seq<char>, pos: int) -> Option<(Seq<char>, int)> {
    name_before(s, pos, '-')
}

/// The receiver of a message line: the text up to the first `:`.
pub open spec fn receiver_name(s: Seq<char>, pos: int) -> Option<(Seq<char>, int)> {
    name_before(s, pos, ':')
}

/// The text from `pos`, its leading spaces skipped, to the end of the line, which has to end
/// in a line break; with the position of that line break.
pub open spec fn rest_of_line(s: Seq<char>, pos: int) -> Option<(Seq<char>, int)> {
    let start = skip_spaces(s, pos);
    let end = line_end(s, start);
    if has_char(s, end, '\n') {
        Some((s.subrange(start, end), end))
    } else {
        None
    }
}

/// A message line at `pos`: sender, arrow, optional activation mark, receiver, `:` and label.
/// The line break is part of it.
pub open spec fn message_line(s: Seq<char>, pos: int) -> Result<(LineView, int), ParseError> {
    match sender_name(s, pos) {
        None => Err(
            ParseError { offset: scan_to(s, pos, '-', '-') as usize, expected: Expected::Arrow },
        ),
        Some((from, dash)) => match arrow(s, dash) {
            None => Err(ParseError { offset: dash as usize, expected: Expected::Arrow }),
            Some((style, behind)) => {
                let (change, start) = activation(s, behind);
                match receiver_name(s, start) {
                    None => Err(
                        ParseError {
                            offset: scan_to(s, start, ':', ':') as usize,
                            expected: Expected::Colon,
                        },
                    ),
                    Some((to, colon)) => match rest_of_line(s, colon + 1) {
                        None => Err(
                            ParseError {
                                offset: line_end(s, skip_spaces(s, colon + 1)) as usize,
                                expected: Expected::EndOfLine,
                            },
                        ),
                        Some((msg, end)) => Ok(
                            (
                                LineView::Message(
                                    MessageLineView {
                                        from,
                                        arrow: style,
                                        to,
                                        msg,
                                        activation: change,
                                    },
                                ),
                                end + 1,
                            ),
                        ),
                    },
                }
            },
        },
    }
}

// ---------------------------------------------------------------------------------------------
// Declarations and notes
// ---------------------------------------------------------------------------------------------
/// A declaration at `pos`: `keyword`, then the name up to the end of the line. The line break
/// is left behind.
pub open spec fn declaration(s: Seq<char>, pos: int, keyword: Seq<char>) -> Option<
    (Seq<char>, int),
> {
    if has_prefix(s, pos, keyword) {
        let start = skip_spaces(s, pos + keyword.len());
        let end = line_end(s, start);
        if has_char(s, end, '\n') {
            Some((trimmed(s, start, end), end))
        } else {
            None
        }
    } else {
        None
    }
}

/// `keyword`, at least one space, and a name up to the `:` of the line, which is left behind.
pub open spec fn beside(s: Seq<char>, pos: int, keyword: Seq<char>) -> Option<(Seq<char>, int)> {
    let start = skip_spaces(s, pos + keyword.len());
    if has_prefix(s, pos, keyword) && start > pos + keyword.len() {
        name_before(s, start, ':')
    } else {
        None
    }
}

/// The names of a list separated by `,`, from `pos` on, added to `seen`; each name has at
/// least one character and ends at `,`, `:` or the end of the line.
pub open spec fn names_from(s: Seq<char>, pos: int, seen: Seq<Seq<char>>) -> Option<
    (Seq<Seq<char>>, int),
>
    decreases s.len() - pos,
{
    let end = scan_to(s, pos, ':', ',');
    if pos < 0 || end <= pos {
        None
    } else if has_char(s, end, ',') {
        names_from(s, end + 1, seen.push(trimmed(s, pos, end)))
    } else {
        Some((seen.push(trimmed(s, pos, end)), end))
    }
}

/// `over`, at least one space, and a list of names.
pub open spec fn over(s: Seq<char>, pos: int) -> Option<(NotePositionView, int)> {
    let start = skip_spaces(s, pos + "over"@.len());
    if has_prefix(s, pos, "over"@) && start > pos + "over"@.len() {
        match names_from(s, start, Seq::empty()) {
            Some((names, end)) => Some((NotePositionView::Over(names), end)),
            None => None,
        }
    } else {
        None
    }
}

/// The position of a note: `left of`, `right of` or `over`, tried in this order.
pub open spec fn note_position(s: Seq<char>, pos: int) -> Option<(NotePositionView, int)> {
    match beside(s, pos, "left of"@) {
        Some((name, end)) => Some((NotePositionView::LeftOf(name), end)),
        None => match beside(s, pos, "right of"@) {
            Some((name, end)) => Some((NotePositionView::RightOf(name), end)),
            None => over(s, pos),
        },
    }
}

/// A note line at `pos`: `Note`, at least one space, a position, `:` and the text. The line
/// break is left behind.
pub open spec fn note_line(s: Seq<char>, pos: int) -> Option<(LineView, int)> {
    let start = skip_spaces(s, pos + "Note"@.len());
    if has_prefix(s, pos, "Note"@) && start > pos + "Note"@.len() {
        match note_position(s, start) {
            Some((position, colon)) => if has_char(s, colon, ':') {
                match rest_of_line(s, colon + 1) {
                    Some((text, end)) => Some((LineView::Note(position, text), end)),
                    None => None,
                }
            } else {
                None
            },
            None => None,
        }
    } else {
        None
    }
}

/// One line at `pos`. Leading spaces are skipped; then the forms are tried in this order:
/// empty line, note, `participant`, `actor`, message. What the message form lacked is the
/// error of a line that is none of them.
pub open spec fn line(s: Seq<char>, pos: int) -> Result<(LineView, int), ParseError> {
    let start = skip_spaces(s, pos);
    if has_char(s, start, '\n') {
        Ok((LineView::Empty, start + 1))
    } else {
        match note_line(s, start) {
            Some(found) => Ok(found),
            None => match declaration(s, start, "participant"@) {
                Some((name, end)) => Ok((LineView::Participant(name), end)),
                None => match declaration(s, start, "actor"@) {
                    Some((name, end)) => Ok((LineView::Actor(name), end)),
                    None => message_line(s, start),
                },
            },
        }
    }
}

proof fn lemma_names_from_bounds(s: Seq<char>, pos: int, seen: Seq<Seq<char>>)
    requires
        0 <= pos <= s.len(),
    ensures
        names_from(s, pos, seen) matches Some((names, end)) ==> pos < end <= s.len()
            && names.len() > seen.len(),
    decreases s.len() - pos,
{
    let end = scan_to(s, pos, ':', ',');
    lemma_scan_to_bounds(s, pos, ':', ',');
    if end > pos && has_char(s, end, ',') {
        lemma_names_from_bounds(s, end + 1, seen.push(trimmed(s, pos, end)));
    }
}

proof fn lemma_note_position_bounds(s: Seq<char>, pos: int)
    requires
        0 <= pos <= s.len(),
    ensures
        note_position(s, pos) matches Some((_, end)) ==> pos < end <= s.len(),
{
    reveal_strlit("left of");
    reveal_strlit("right of");
    reveal_strlit("over");
    if has_prefix(s, pos, "left of"@) {
        lemma_skip_spaces_bounds(s, pos + 7);
        lemma_scan_to_bounds(s, skip_spaces(s, pos + 7), ':', ':');
    }
    if has_prefix(s, pos, "right of"@) {
        lemma_skip_spaces_bounds(s, pos + 8);
        lemma_scan_to_bounds(s, skip_spaces(s, pos + 8), ':', ':');
    }
    if has_prefix(s, pos, "over"@) {
        lemma_skip_spaces_bounds(s, pos + 4);
        lemma_names_from_bounds(s, skip_spaces(s, pos + 4), Seq::empty());
    }
}

/// Every line that `line` reads moves forward and stays inside the text.
pub proof fn lemma_line_advances(s: Seq<char>, pos: int)
    requires
        0 <= pos <= s.len(),
    ensures
        line(s, pos) matches Ok((_, next)) ==> pos < next <= s.len(),
{
    let start = skip_spaces(s, pos);
    lemma_skip_spaces_bounds(s, pos);
    if has_char(s, start, '\n') {
    } else {
        reveal_strlit("Note");
        reveal_strlit("participant");
        reveal_strlit("actor");
        if has_prefix(s, start, "Note"@) {
            lemma_skip_spaces_bounds(s, start + 4);
            let at = skip_spaces(s, start + 4);
            lemma_note_position_bounds(s, at);
            if let Some((_, colon)) = note_position(s, at) {
                if has_char(s, colon, ':') {
                    lemma_skip_spaces_bounds(s, colon + 1);
                    lemma_scan_to_bounds(s, skip_spaces(s, colon + 1), '\n', '\n');
                }
            }
        }
        if has_prefix(s, start, "participant"@) {
            lemma_skip_spaces_bounds(s, start + 11);
            lemma_scan_to_bounds(s, skip_spaces(s, start + 11), '\n', '\n');
        }
        if has_prefix(s, start, "actor"@) {
            lemma_skip_spaces_bounds(s, start + 5);
            lemma_scan_to_bounds(s, skip_spaces(s, start + 5), '\n', '\n');
        }
        lemma_scan_to_bounds(s, start, '-', '-');
        if let Some((_, dash)) = sender_name(s, start) {
            if let Some((_, behind)) = arrow(s, dash) {
                let (_, from) = activation(s, behind);
                lemma_scan_to_bounds(s, from, ':', ':');
                if let Some((_, colon)) = receiver_name(s, from) {
                    lemma_skip_spaces_bounds(s, colon + 1);
                    lemma_scan_to_bounds(s, skip_spaces(s, colon + 1), '\n', '\n');
                }
            }
        }
    }
}

/// The lines from `pos` to the end of the text, added to `seen`; the error of the first line
/// that cannot be read.
pub open spec fn lines_from(s: Seq<char>, pos: int, seen: Seq<LineView>) -> Result<
    Seq<LineView>,
    ParseError,
>
    decreases s.len() - pos,
{
    if pos < 0 || pos >= s.len() {
        Ok(seen)
    } else {
        match line(s, pos) {
            Err(e) => Err(e),
            Ok((found, next)) => {
                proof {
                    lemma_line_advances(s, pos);
                }
                lines_from(s, next, seen.push(found))
            },
        }
    }
}

/// All lines of `s`.
pub open spec fn lines(s: Seq<char>) -> Result<Seq<LineView>, ParseError> {
    lines_from(s, 0, Seq::empty())
}

} // verus!
