//! Reading a source text: the parsers of the line grammar, one per form.
//!
//! Each parser takes the characters of the text and a position, and returns what it read with
//! the position behind it. What each one accepts is defined in `grammar`.

use crate::diagram::Arrow;
use crate::grammar::{
    activation, arrow, beside, declaration, has_char, has_prefix, line, lines, lines_from,
    message_line, name_before, names_from, names_view, note_line, note_position, over,
    receiver_name, rest_of_line, scan_to_at, sender_name, skip_spaces, skip_spaces_at,
    starts_with, trimmed, trimmed_text, ActivationChange, Expected, Line, LineView, MessageLine,
    NotePosition, NotePositionView, ParseError,
};
use crate::text::to_string;
use vstd::prelude::*;

verus! {

fn has_char_at(chars: &Vec<char>, pos: usize, c: char) -> (found: bool)
    ensures
        found == has_char(chars@, pos as int, c),
{
    pos < chars.len() && chars[pos] == c
}

/// Reads `->` or `-->`.
pub fn arrow_parser(chars: &Vec<char>, pos: usize) -> (found: Option<(Arrow, usize)>)
    requires
        pos <= chars.len(),
    ensures
        match found {
            Some((style, next)) => arrow(chars@, pos as int) == Some((style, next as int))
                && next <= chars.len(),
            None => arrow(chars@, pos as int) is None,
        },
{
    if !has_char_at(chars, pos, '-') {
        return None;
    }
    if has_char_at(chars, pos + 1, '>') {
        Some((Arrow::SolidNoArrow, pos + 2))
    } else if has_char_at(chars, pos + 1, '-') && has_char_at(chars, pos + 2, '>') {
        Some((Arrow::DottedNoArrow, pos + 3))
    } else {
        None
    }
}

/// Reads the optional `+` or `-` behind an arrow.
pub fn activation_parser(chars: &Vec<char>, pos: usize) -> (found: (
    Option<ActivationChange>,
    usize,
))
    requires
        pos <= chars.len(),
    ensures
        activation(chars@, pos as int) == (found.0, found.1 as int),
        pos <= found.1 <= chars.len(),
{
    if has_char_at(chars, pos, '-') {
        (Some(ActivationChange::Deactivate), pos + 1)
    } else if has_char_at(chars, pos, '+') {
        (Some(ActivationChange::Activate), pos + 1)
    } else {
        (None, pos)
    }
}

fn name_before_mark(chars: &Vec<char>, pos: usize, mark: char) -> (found: Option<(String, usize)>)
    requires
        pos <= chars.len(),
    ensures
        match found {
            Some((name, next)) => name_before(chars@, pos as int, mark) == Some(
                (name@, next as int),
            ) && pos <= next < chars.len() && chars@[next as int] == mark,
            None => name_before(chars@, pos as int, mark) is None,
        },
{
    let end = scan_to_at(chars, pos, mark, mark);
    if has_char_at(chars, end, mark) {
        Some((trimmed_text(chars, pos, end), end))
    } else {
        None
    }
}

/// Reads the sender of a message line and stops at the `-` behind it.
pub fn sender_name_parser(chars: &Vec<char>, pos: usize) -> (found: Option<(String, usize)>)
    requires
        pos <= chars.len(),
    ensures
        match found {
            Some((name, next)) => sender_name(chars@, pos as int) == Some((name@, next as int))
                && pos <= next < chars.len(),
            None => sender_name(chars@, pos as int) is None,
        },
{
    name_before_mark(chars, pos, '-')
}

/// Reads the receiver of a message line and stops at the `:` behind it.
pub fn receiver_name_parser(chars: &Vec<char>, pos: usize) -> (found: Option<(String, usize)>)
    requires
        pos <= chars.len(),
    ensures
        match found {
            Some((name, next)) => receiver_name(chars@, pos as int) == Some((name@, next as int))
                && pos <= next < chars.len(),
            None => receiver_name(chars@, pos as int) is None,
        },
{
    name_before_mark(chars, pos, ':')
}

fn rest_of_line_at(chars: &Vec<char>, pos: usize) -> (found: Option<(String, usize)>)
    requires
        pos <= chars.len(),
    ensures
        match found {
            Some((text, end)) => rest_of_line(chars@, pos as int) == Some((text@, end as int))
                && pos <= end < chars.len(),
            None => rest_of_line(chars@, pos as int) is None,
        },
{
    let start = skip_spaces_at(chars, pos);
    let end = scan_to_at(chars, start, '\n', '\n');
    if has_char_at(chars, end, '\n') {
        Some((to_string(chars, start, end), end))
    } else {
        None
    }
}

/// Reads a message line, its line break included.
pub fn msg_line_parser(chars: &Vec<char>, pos: usize) -> (found: Result<(Line, usize), ParseError>)
    requires
        pos <= chars.len(),
    ensures
        match found {
            Ok((read, next)) => message_line(chars@, pos as int) == Ok::<_, ParseError>(
                (read@, next as int),
            ) && pos < next <= chars.len(),
            Err(e) => message_line(chars@, pos as int) == Err::<(LineView, int), _>(e),
        },
{
    let (from, dash) = match sender_name_parser(chars, pos) {
        Some(found) => found,
        None => {
            let offset = scan_to_at(chars, pos, '-', '-');
            return Err(ParseError { offset, expected: Expected::Arrow });
        },
    };
    let (style, behind) = match arrow_parser(chars, dash) {
        Some(found) => found,
        None => {
            return Err(ParseError { offset: dash, expected: Expected::Arrow });
        },
    };
    let (change, start) = activation_parser(chars, behind);
    let (to, colon) = match receiver_name_parser(chars, start) {
        Some(found) => found,
        None => {
            let offset = scan_to_at(chars, start, ':', ':');
            return Err(ParseError { offset, expected: Expected::Colon });
        },
    };
    match rest_of_line_at(chars, colon + 1) {
        Some((msg, end)) => Ok(
            (Line::Message(MessageLine { from, arrow: style, to, msg, activation: change }), end + 1),
        ),
        None => {
            let offset = scan_to_at(chars, skip_spaces_at(chars, colon + 1), '\n', '\n');
            Err(ParseError { offset, expected: Expected::EndOfLine })
        },
    }
}

/// Reads an empty line: a line break.
pub fn empty_line_parser(chars: &Vec<char>, pos: usize) -> (found: Option<(Line, usize)>)
    requires
        pos <= chars.len(),
    ensures
        match found {
            Some((read, next)) => has_char(chars@, pos as int, '\n') && read@ == LineView::Empty
                && next == pos + 1,
            None => !has_char(chars@, pos as int, '\n'),
        },
{
    if has_char_at(chars, pos, '\n') {
        Some((Line::Empty, pos + 1))
    } else {
        None
    }
}

fn declaration_at(chars: &Vec<char>, pos: usize, keyword: &str) -> (found: Option<(String, usize)>)
    requires
        pos <= chars.len(),
    ensures
        match found {
            Some((name, end)) => declaration(chars@, pos as int, keyword@) == Some(
                (name@, end as int),
            ) && pos + keyword@.len() <= end < chars.len(),
            None => declaration(chars@, pos as int, keyword@) is None,
        },
{
    if !starts_with(chars, pos, keyword) {
        return None;
    }
    let start = skip_spaces_at(chars, pos + keyword.unicode_len());
    let end = scan_to_at(chars, start, '\n', '\n');
    if has_char_at(chars, end, '\n') {
        Some((trimmed_text(chars, start, end), end))
    } else {
        None
    }
}

/// Reads `participant` and a name; stops at the line break.
pub fn participant_line_parser(chars: &Vec<char>, pos: usize) -> (found: Option<(Line, usize)>)
    requires
        pos <= chars.len(),
    ensures
        match found {
            Some((read, next)) => declaration(chars@, pos as int, "participant"@) matches Some(
                (name, end),
            ) && read@ == LineView::Participant(name) && end == next && pos < next
                < chars.len(),
            None => declaration(chars@, pos as int, "participant"@) is None,
        },
{
    proof {
        reveal_strlit("participant");
    }
    match declaration_at(chars, pos, "participant") {
        Some((name, end)) => Some((Line::Participant(name), end)),
        None => None,
    }
}

/// Reads `actor` and a name; stops at the line break.
pub fn actor_line_parser(chars: &Vec<char>, pos: usize) -> (found: Option<(Line, usize)>)
    requires
        pos <= chars.len(),
    ensures
        match found {
            Some((read, next)) => declaration(chars@, pos as int, "actor"@) matches Some(
                (name, end),
            ) && read@ == LineView::Actor(name) && end == next && pos < next < chars.len(),
            None => declaration(chars@, pos as int, "actor"@) is None,
        },
{
    proof {
        reveal_strlit("actor");
    }
    match declaration_at(chars, pos, "actor") {
        Some((name, end)) => Some((Line::Actor(name), end)),
        None => None,
    }
}

fn beside_at(chars: &Vec<char>, pos: usize, keyword: &str) -> (found: Option<(String, usize)>)
    requires
        pos <= chars.len(),
    ensures
        match found {
            Some((name, end)) => beside(chars@, pos as int, keyword@) == Some((name@, end as int))
                && pos + keyword@.len() < end < chars.len() && chars@[end as int] == ':',
            None => beside(chars@, pos as int, keyword@) is None,
        },
{
    if !starts_with(chars, pos, keyword) {
        return None;
    }
    let behind = pos + keyword.unicode_len();
    let start = skip_spaces_at(chars, behind);
    if start > behind {
        name_before_mark(chars, start, ':')
    } else {
        None
    }
}

/// Reads `left of` and a name; stops at the `:`.
pub fn left_of_parser(chars: &Vec<char>, pos: usize) -> (found: Option<(NotePosition, usize)>)
    requires
        pos <= chars.len(),
    ensures
        match found {
            Some((position, next)) => beside(chars@, pos as int, "left of"@) matches Some(
                (name, end),
            ) && position@ == NotePositionView::LeftOf(name) && end == next && pos < next
                < chars.len(),
            None => beside(chars@, pos as int, "left of"@) is None,
        },
{
    match beside_at(chars, pos, "left of") {
        Some((name, end)) => Some((NotePosition::LeftOf(name), end)),
        None => None,
    }
}

/// Reads `right of` and a name; stops at the `:`.
pub fn right_of_parser(chars: &Vec<char>, pos: usize) -> (found: Option<(NotePosition, usize)>)
    requires
        pos <= chars.len(),
    ensures
        match found {
            Some((position, next)) => beside(chars@, pos as int, "right of"@) matches Some(
                (name, end),
            ) && position@ == NotePositionView::RightOf(name) && end == next && pos < next
                < chars.len(),
            None => beside(chars@, pos as int, "right of"@) is None,
        },
{
    match beside_at(chars, pos, "right of") {
        Some((name, end)) => Some((NotePosition::RightOf(name), end)),
        None => None,
    }
}

/// Reads `over` and a list of names separated by `,`; stops behind the last name.
pub fn over_parser(chars: &Vec<char>, pos: usize) -> (found: Option<(NotePosition, usize)>)
    requires
        pos <= chars.len(),
    ensures
        match found {
            Some((position, next)) => over(chars@, pos as int) == Some((position@, next as int))
                && pos < next <= chars.len(),
            None => over(chars@, pos as int) is None,
        },
{
    if !starts_with(chars, pos, "over") {
        return None;
    }
    let behind = pos + "over".unicode_len();
    let first = skip_spaces_at(chars, behind);
    if first <= behind {
        return None;
    }
    let mut names: Vec<String> = Vec::new();
    let mut at: usize = first;
    assert(names_view(names@) == Seq::<Seq<char>>::empty());
    loop
        invariant
            has_prefix(chars@, pos as int, "over"@),
            first == skip_spaces(chars@, pos + "over"@.len()),
            pos + "over"@.len() < first <= at <= chars.len(),
            names_from(chars@, first as int, Seq::empty()) == names_from(
                chars@,
                at as int,
                names_view(names@),
            ),
        decreases chars.len() - at,
    {
        let end = scan_to_at(chars, at, ':', ',');
        if end <= at {
            return None;
        }
        let name = trimmed_text(chars, at, end);
        let ghost before = names_view(names@);
        names.push(name);
        assert(names_view(names@) == before.push(trimmed(chars@, at as int, end as int)));
        if has_char_at(chars, end, ',') {
            at = end + 1;
        } else {
            return Some((NotePosition::Over(names), end));
        }
    }
}

/// Reads the position of a note: `left of`, `right of` or `over`.
pub fn note_position_parser(chars: &Vec<char>, pos: usize) -> (found: Option<
    (NotePosition, usize),
>)
    requires
        pos <= chars.len(),
    ensures
        match found {
            Some((position, next)) => note_position(chars@, pos as int) == Some(
                (position@, next as int),
            ) && pos < next <= chars.len(),
            None => note_position(chars@, pos as int) is None,
        },
{
    if let Some(found) = left_of_parser(chars, pos) {
        return Some(found);
    }
    if let Some(found) = right_of_parser(chars, pos) {
        return Some(found);
    }
    over_parser(chars, pos)
}

/// Reads a note line; stops at the line break.
pub fn note_line_parser(chars: &Vec<char>, pos: usize) -> (found: Option<(Line, usize)>)
    requires
        pos <= chars.len(),
    ensures
        match found {
            Some((read, next)) => note_line(chars@, pos as int) == Some((read@, next as int))
                && pos < next < chars.len(),
            None => note_line(chars@, pos as int) is None,
        },
{
    if !starts_with(chars, pos, "Note") {
        return None;
    }
    let behind = pos + "Note".unicode_len();
    let start = skip_spaces_at(chars, behind);
    if start <= behind {
        return None;
    }
    let (position, colon) = match note_position_parser(chars, start) {
        Some(found) => found,
        None => {
            return None;
        },
    };
    if !has_char_at(chars, colon, ':') {
        return None;
    }
    match rest_of_line_at(chars, colon + 1) {
        Some((text, end)) => Some((Line::Note(position, text), end)),
        None => None,
    }
}

/// Reads one line of any form.
pub fn line_parser(chars: &Vec<char>, pos: usize) -> (found: Result<(Line, usize), ParseError>)
    requires
        pos <= chars.len(),
    ensures
        match found {
            Ok((read, next)) => line(chars@, pos as int) == Ok::<_, ParseError>(
                (read@, next as int),
            ) && pos < next <= chars.len(),
            Err(e) => line(chars@, pos as int) == Err::<(LineView, int), _>(e),
        },
{
    let start = skip_spaces_at(chars, pos);
    if let Some(found) = empty_line_parser(chars, start) {
        return Ok(found);
    }
    if let Some(found) = note_line_parser(chars, start) {
        return Ok(found);
    }
    if let Some(found) = participant_line_parser(chars, start) {
        return Ok(found);
    }
    if let Some(found) = actor_line_parser(chars, start) {
        return Ok(found);
    }
    msg_line_parser(chars, start)
}

/// The views of `read`, line by line.
pub open spec fn lines_view(read: Seq<Line>) -> Seq<LineView> {
    Seq::new(read.len(), |i: int| read[i]@)
}

/// Reads all lines from `pos` to the end of the text.
pub fn lines_parser(chars: &Vec<char>, pos: usize) -> (found: Result<Vec<Line>, ParseError>)
    requires
        pos <= chars.len(),
    ensures
        match found {
            Ok(read) => lines_from(chars@, pos as int, Seq::empty()) == Ok::<_, ParseError>(
                lines_view(read@),
            ),
            Err(e) => lines_from(chars@, pos as int, Seq::empty()) == Err::<Seq<LineView>, _>(e),
        },
{
    let mut read: Vec<Line> = Vec::new();
    let mut at: usize = pos;
    assert(lines_view(read@) == Seq::<LineView>::empty());
    while at < chars.len()
        invariant
            pos <= at <= chars.len(),
            lines_from(chars@, pos as int, Seq::empty()) == lines_from(
                chars@,
                at as int,
                lines_view(read@),
            ),
        decreases chars.len() - at,
    {
        let (found, next) = match line_parser(chars, at) {
            Ok(found) => found,
            Err(e) => {
                return Err(e);
            },
        };
        let ghost before = lines_view(read@);
        read.push(found);
        assert(lines_view(read@) == before.push(found@));
        at = next;
    }
    Ok(read)
}

} // verus!
