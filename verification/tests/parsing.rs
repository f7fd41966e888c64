use seqdiagram::builder::{build_participants, parse, DiagramError};
use seqdiagram::diagram::{
    Activation, Arrow, ArrowDirection, HorizontalNotePosition, Message, Note, Participant,
    SequenceDiagram, VerticalNotePosition,
};
use seqdiagram::grammar::{
    ActivationChange, Expected, Line, MessageLine, NotePosition, ParseError,
};
use seqdiagram::parser::{
    activation_parser, actor_line_parser, arrow_parser, empty_line_parser, left_of_parser,
    line_parser, lines_parser, msg_line_parser, note_line_parser, note_position_parser,
    over_parser, participant_line_parser, receiver_name_parser, right_of_parser,
    sender_name_parser,
};

fn chars(text: &str) -> Vec<char> {
    text.chars().collect()
}

fn rest(input: &[char], from: usize) -> String {
    input[from..].iter().collect()
}

fn participant(id: usize, name: &str) -> Participant {
    Participant { id, name: name.to_string() }
}

fn hello_line() -> Line {
    Line::Message(MessageLine {
        from: "Alice".to_string(),
        arrow: Arrow::SolidNoArrow,
        to: "Bob".to_string(),
        msg: "hello".to_string(),
        activation: None,
    })
}

#[test]
fn test_single_message() {
    let expected = SequenceDiagram {
        participants: vec![
            Participant {
                id: 0,
                name: "Alice".to_string(),
            },
            Participant {
                id: 1,
                name: "Bob".to_string(),
            },
        ],
        messages: vec![Message {
            id: 0,
            left: 0,
            right: 1,
            msg: "hello".to_string(),
            arrow: Arrow::SolidNoArrow,
            direction: ArrowDirection::ToRight,
        }],
        activations: vec![],
        notes: vec![],
    };
    let input = "Alice->Bob: hello\n";
    assert_eq!(parse(input.to_string()), Ok(expected));
}

#[test]
fn test_sender_name_parser() {
    let input = chars("Alice-");
    let (name, next) = sender_name_parser(&input, 0).unwrap();
    assert_eq!(("Alice".to_string(), "-".to_string()), (name, rest(&input, next)));
}

#[test]
fn test_participant_line_parser() {
    let expected = |n: &str| -> Result<(Line, String), ParseError> {
        Ok((Line::Participant(n.to_string()), "\n".to_string()))
    };
    let parse_line = |text: &str| -> Result<(Line, String), ParseError> {
        let input = chars(text);
        line_parser(&input, 0).map(|(line, next)| (line, rest(&input, next)))
    };
    assert_eq!(expected("Alice"), parse_line("participant Alice\n"));

    assert_eq!(expected("Alice"), parse_line("participant  Alice\n"));

    assert_eq!(expected("Alice"), parse_line(" participant Alice\n"));

    assert_eq!(expected("Alice"), parse_line("participant Alice \n"));

    assert_eq!(expected("part"), parse_line("participant part\n"));
}

#[test]
fn test_message_line_parser() {
    let input = chars(" Alice->Bob:hello\n");
    let (line, next) = line_parser(&input, 0).unwrap();
    assert_eq!((hello_line(), "".to_string()), (line, rest(&input, next)));
}

#[test]
fn test_message_line_parser_with_space() {
    let input = chars("Alice->Bob: hello\n");
    let (line, next) = line_parser(&input, 0).unwrap();
    assert_eq!((hello_line(), "".to_string()), (line, rest(&input, next)));
}

#[test]
fn test_line_parser() {
    let input = chars(" Alice->Bob:hello\n");
    assert_eq!(Ok((hello_line(), input.len())), line_parser(&input, 0));
}

#[test]
fn test_note_over() {
    let expected = Line::Note(
        NotePosition::Over(vec!["Alice".to_string(), "Bob".to_string()]),
        "Foo".to_string(),
    );
    let input = chars("Note over Alice , Bob:Foo\n");
    let (line, next) = line_parser(&input, 0).unwrap();
    assert_eq!((expected, "\n".to_string()), (line, rest(&input, next)));
}

#[test]
fn test_over_parser() {
    let expected = NotePosition::Over(vec!["Alice".to_string(), "Bob".to_string()]);
    let input = chars("over Alice,Bob:");
    let (position, next) = over_parser(&input, 0).unwrap();
    assert_eq!((expected, ":".to_string()), (position, rest(&input, next)));
}

#[test]
fn test_note_left_of_parser() {
    let expected = Line::Note(NotePosition::LeftOf("Alice".to_string()), "Foo".to_string());
    let input = chars("Note left of Alice: Foo\n");
    let (line, next) = note_line_parser(&input, 0).unwrap();
    assert_eq!((expected, "\n".to_string()), (line, rest(&input, next)));
}

#[test]
fn test_note_pos_parser() {
    let expected = NotePosition::LeftOf("Alice".to_string());
    let input = chars("left of Alice:");
    let (position, next) = note_position_parser(&input, 0).unwrap();
    assert_eq!((expected, ":".to_string()), (position, rest(&input, next)));
}

#[test]
fn test_line_parser_with_empty_line() {
    let expected = Line::Empty;
    let input = chars(" \n");
    let (line, next) = line_parser(&input, 0).unwrap();
    assert_eq!((expected, "".to_string()), (line, rest(&input, next)));
}

#[test]
fn test_whitspace_single_message() {
    let expected = SequenceDiagram {
        participants: vec![
            Participant {
                id: 0,
                name: "Alice".to_string(),
            },
            Participant {
                id: 1,
                name: "Bob".to_string(),
            },
        ],
        messages: vec![Message {
            id: 0,
            left: 0,
            right: 1,
            msg: "hello".to_string(),
            arrow: Arrow::SolidNoArrow,
            direction: ArrowDirection::ToRight,
        }],
        activations: vec![],
        notes: vec![],
    };
    let input = " Alice->Bob:hello\n";
    assert_eq!(parse(input.to_string()), Ok(expected));
}

#[test]
fn test_roundtrip() {
    let input = r#"
            Alice->Bob:How are you?
            Bob->Alice:I'm fine!
        "#;

    let expected = SequenceDiagram {
        participants: vec![
            Participant {
                id: 0,
                name: "Alice".to_string(),
            },
            Participant {
                id: 1,
                name: "Bob".to_string(),
            },
        ],
        messages: vec![
            Message {
                id: 0,
                left: 0,
                right: 1,
                msg: "How are you?".to_string(),
                arrow: Arrow::SolidNoArrow,
                direction: ArrowDirection::ToRight,
            },
            Message {
                id: 1,
                left: 0,
                right: 1,
                msg: "I'm fine!".to_string(),
                arrow: Arrow::SolidNoArrow,
                direction: ArrowDirection::ToLeft,
            },
        ],
        activations: vec![],
        notes: vec![],
    };
    assert_eq!(parse(input.to_string()), Ok(expected));
}

#[test]
fn reverse_direction_message() {
    let diagram = parse("Bob->Alice: hi\n".to_string()).unwrap();
    assert_eq!(diagram.participants, vec![participant(0, "Bob"), participant(1, "Alice")]);
    assert_eq!(
        diagram.messages,
        vec![Message {
            id: 0,
            left: 0,
            right: 1,
            msg: "hi".to_string(),
            arrow: Arrow::SolidNoArrow,
            direction: ArrowDirection::ToRight,
        }]
    );
    let diagram = parse("participant Alice\nBob->Alice: hi\n".to_string()).unwrap();
    assert_eq!(diagram.messages[0].direction, ArrowDirection::ToLeft);
    assert_eq!((diagram.messages[0].left, diagram.messages[0].right), (0, 1));
}

#[test]
fn nested_activations_come_innermost_first() {
    let input = "Alice->+John: q1\nAlice->+John: q2\nJohn->-Alice: a2\nJohn->-Alice: a1\n";
    let diagram = parse(input.to_string()).unwrap();
    assert_eq!(diagram.messages.len(), 4);
    for (k, message) in diagram.messages.iter().enumerate() {
        assert_eq!(message.id, k);
    }
    assert_eq!(
        diagram.activations,
        vec![
            Activation { participant_id: 1, from: 1, to: 2, level: 2 },
            Activation { participant_id: 1, from: 0, to: 3, level: 1 },
        ]
    );
}

#[test]
fn activations_are_ordered_by_falling_level() {
    let input = "A->+B: a\nB->-A: b\nA->+B: c\nA->+B: d\nB->-A: e\nB->-A: f\n";
    let diagram = parse(input.to_string()).unwrap();
    assert_eq!(
        diagram.activations,
        vec![
            Activation { participant_id: 1, from: 3, to: 4, level: 2 },
            Activation { participant_id: 1, from: 2, to: 5, level: 1 },
            Activation { participant_id: 1, from: 0, to: 1, level: 1 },
        ]
    );
    for pair in diagram.activations.windows(2) {
        assert!(pair[0].level >= pair[1].level);
    }
}

#[test]
fn of_two_activations_in_a_row_the_later_comes_first() {
    let input = "A->+J: 1\nJ->-A: 2\nA->+J: 3\nJ->-A: 4\n";
    let diagram = parse(input.to_string()).unwrap();
    assert_eq!(
        diagram.activations,
        vec![
            Activation { participant_id: 1, from: 2, to: 3, level: 1 },
            Activation { participant_id: 1, from: 0, to: 1, level: 1 },
        ]
    );
}

#[test]
fn declared_participant_comes_first() {
    let diagram = parse("participant John\nAlice->John: hi\n".to_string()).unwrap();
    assert_eq!(diagram.participants, vec![participant(0, "John"), participant(1, "Alice")]);
    assert_eq!(diagram.messages[0].direction, ArrowDirection::ToLeft);
}

#[test]
fn note_left_of_follows_the_message() {
    let diagram = parse("Alice->John: hi\nNote left of John: yeah\n".to_string()).unwrap();
    assert_eq!(
        diagram.notes,
        vec![Note {
            id: 0,
            content: "yeah".to_string(),
            horizontal_position: HorizontalNotePosition::LeftOf(1),
            vertical_position: VerticalNotePosition::AfterMessage(0),
        }]
    );
}

#[test]
fn notes_follow_what_stands_before_them() {
    let input = "participant A\nNote right of A: one\nNote over A, B: two\nA->B: x\n\nNote over B: three\n";
    let diagram = parse(input.to_string()).unwrap();
    assert_eq!(diagram.notes.len(), 3);
    assert_eq!(diagram.notes[0].vertical_position, VerticalNotePosition::First);
    assert_eq!(diagram.notes[0].horizontal_position, HorizontalNotePosition::RightOf(0));
    assert_eq!(diagram.notes[1].vertical_position, VerticalNotePosition::AfterNote(0));
    assert_eq!(diagram.notes[1].horizontal_position, HorizontalNotePosition::Over(vec![0, 1]));
    assert_eq!(diagram.notes[2].vertical_position, VerticalNotePosition::AfterMessage(0));
    assert_eq!(diagram.notes[2].id, 2);
}

#[test]
fn empty_source_is_an_empty_diagram() {
    let expected = SequenceDiagram {
        participants: vec![],
        messages: vec![],
        activations: vec![],
        notes: vec![],
    };
    assert_eq!(parse("".to_string()), Ok(expected));
}

#[test]
fn message_to_oneself_points_right() {
    let diagram = parse("Alice->Alice: hm\n".to_string()).unwrap();
    assert_eq!(diagram.participants.len(), 1);
    let message = &diagram.messages[0];
    assert_eq!((message.left, message.right), (0, 0));
    assert_eq!(message.direction, ArrowDirection::ToRight);
}

#[test]
fn dotted_arrow_and_trimmed_names() {
    let diagram = parse("Alice -->  Bob Long : hi there \n".to_string()).unwrap();
    assert_eq!(diagram.participants, vec![participant(0, "Alice"), participant(1, "Bob Long")]);
    assert_eq!(diagram.messages[0].arrow, Arrow::DottedNoArrow);
    assert_eq!(diagram.messages[0].msg, "hi there ");
}

#[test]
fn actor_declares_a_participant() {
    let diagram = parse("actor Bob\nparticipant Alice\nAlice->Bob: x".to_string()).unwrap();
    assert_eq!(diagram.participants, vec![participant(0, "Bob"), participant(1, "Alice")]);
    let input = chars("actor  Bob \n");
    assert_eq!(actor_line_parser(&input, 0), Some((Line::Actor("Bob".to_string()), 11)));
    assert_eq!(participant_line_parser(&input, 0), None);
}

#[test]
fn names_that_begin_like_a_keyword() {
    let diagram = parse("Nora->alice: x\n".to_string()).unwrap();
    assert_eq!(diagram.participants, vec![participant(0, "Nora"), participant(1, "alice")]);
}

#[test]
fn line_without_arrow_is_an_error() {
    assert_eq!(
        parse("Alice Bob: hi\n".to_string()),
        Err(DiagramError::Parse(ParseError { offset: 13, expected: Expected::Arrow }))
    );
    assert_eq!(
        parse("\n  Alice-Bob: hi\n".to_string()),
        Err(DiagramError::Parse(ParseError { offset: 8, expected: Expected::Arrow }))
    );
}

#[test]
fn line_without_colon_is_an_error() {
    assert_eq!(
        parse("Alice->Bob hi".to_string()),
        Err(DiagramError::Parse(ParseError { offset: 13, expected: Expected::Colon }))
    );
}

#[test]
fn line_without_line_break_is_an_error() {
    let input = chars("Alice->Bob: hi");
    assert_eq!(
        msg_line_parser(&input, 0),
        Err(ParseError { offset: 14, expected: Expected::EndOfLine })
    );
    assert_eq!(lines_parser(&input, 0), Err(ParseError { offset: 14, expected: Expected::EndOfLine }));
}

#[test]
fn unknown_participant_in_a_note() {
    assert_eq!(
        parse("Alice->Bob: hi\nNote over Alice, Carol: x\n".to_string()),
        Err(DiagramError::UnknownParticipant { name: "Carol".to_string() })
    );
    assert_eq!(
        parse("Note right of Dave: x\nAlice->Bob: hi\n".to_string()),
        Err(DiagramError::UnknownParticipant { name: "Dave".to_string() })
    );
}

#[test]
fn note_may_name_a_participant_that_comes_later() {
    let diagram = parse("Note left of Bob: x\nAlice->Bob: hi\n".to_string()).unwrap();
    assert_eq!(diagram.notes[0].horizontal_position, HorizontalNotePosition::LeftOf(1));
    assert_eq!(diagram.notes[0].vertical_position, VerticalNotePosition::First);
}

#[test]
fn deactivation_without_activation_is_an_error() {
    assert_eq!(
        parse("Alice->-Bob: hi\n".to_string()),
        Err(DiagramError::UnmatchedDeactivation { participant: "Alice".to_string() })
    );
    assert_eq!(
        parse("Alice->+Bob: hi\nAlice->-Bob: no\n".to_string()),
        Err(DiagramError::UnmatchedDeactivation { participant: "Alice".to_string() })
    );
}

#[test]
fn activation_open_at_the_end_is_dropped() {
    let diagram = parse("Alice->+Bob: hi\n".to_string()).unwrap();
    assert_eq!(diagram.activations, vec![]);
    assert_eq!(diagram.messages.len(), 1);
}

#[test]
fn parts_of_a_message_line() {
    let input = chars("-->+ Bob :x");
    assert_eq!(arrow_parser(&input, 0), Some((Arrow::DottedNoArrow, 3)));
    assert_eq!(arrow_parser(&input, 1), Some((Arrow::SolidNoArrow, 3)));
    assert_eq!(arrow_parser(&input, 2), None);
    assert_eq!(activation_parser(&input, 3), (Some(ActivationChange::Activate), 4));
    assert_eq!(activation_parser(&input, 0), (Some(ActivationChange::Deactivate), 1));
    assert_eq!(activation_parser(&input, 4), (None, 4));
    assert_eq!(receiver_name_parser(&input, 4), Some(("Bob".to_string(), 9)));
    assert_eq!(receiver_name_parser(&chars("Bob\n:"), 0), None);
    assert_eq!(empty_line_parser(&chars("\nx"), 0), Some((Line::Empty, 1)));
    assert_eq!(empty_line_parser(&chars("x\n"), 0), None);
}

#[test]
fn positions_of_a_note() {
    assert_eq!(
        right_of_parser(&chars("right of  Bob :"), 0),
        Some((NotePosition::RightOf("Bob".to_string()), 14))
    );
    assert_eq!(left_of_parser(&chars("left ofBob:"), 0), None);
    assert_eq!(left_of_parser(&chars("right of Bob:"), 0), None);
    assert_eq!(over_parser(&chars("over ,Bob:"), 0), None);
    assert_eq!(over_parser(&chars("over Bob,:"), 0), None);
    assert_eq!(
        note_position_parser(&chars("over A: x"), 0),
        Some((NotePosition::Over(vec!["A".to_string()]), 6))
    );
}

#[test]
fn participants_in_order_of_first_mention() {
    let lines = vec![
        Line::Message(MessageLine {
            from: "B".to_string(),
            arrow: Arrow::SolidNoArrow,
            to: "A".to_string(),
            msg: "".to_string(),
            activation: None,
        }),
        Line::Note(NotePosition::LeftOf("Z".to_string()), "n".to_string()),
        Line::Actor("C".to_string()),
        Line::Empty,
        Line::Participant("A".to_string()),
        Line::Participant("D".to_string()),
    ];
    assert_eq!(
        build_participants(&lines),
        vec![participant(0, "B"), participant(1, "A"), participant(2, "C"), participant(3, "D")]
    );
}

#[test]
fn parsed_diagrams_are_well_formed() {
    let inputs = [
        "",
        "Alice->Bob: hi\n",
        "participant John\nAlice->+John: a\nAlice->+John: b\nJohn->-Alice: c\nJohn->-Alice: d\nNote over Alice, John: n\n",
        "A->+B: a\nB->-A: b\nA->+B: c\nA->+B: d\nB->-A: e\nB->-A: f\nNote left of A: x\nNote right of B: y\n",
    ];
    for input in inputs {
        assert!(parse(input.to_string()).unwrap().is_well_formed());
    }
}

#[test]
fn diagrams_that_are_not_well_formed() {
    let good = || parse("A->+B: a\nB->-A: b\nNote over A, B: n\nNote left of B: m\n".to_string()).unwrap();
    assert!(good().is_well_formed());
    let mut diagram = good();
    diagram.participants[1].id = 5;
    assert!(!diagram.is_well_formed());
    let mut diagram = good();
    diagram.participants[1].name = "A".to_string();
    assert!(!diagram.is_well_formed());
    let mut diagram = good();
    diagram.messages[1].right = 2;
    assert!(!diagram.is_well_formed());
    let mut diagram = good();
    diagram.messages[0].left = 1;
    diagram.messages[0].right = 0;
    assert!(!diagram.is_well_formed());
    let mut diagram = good();
    diagram.messages[0].right = 0;
    diagram.messages[0].direction = ArrowDirection::ToLeft;
    assert!(!diagram.is_well_formed());
    let mut diagram = good();
    diagram.messages[0].id = 1;
    assert!(!diagram.is_well_formed());
    let mut diagram = good();
    diagram.activations[0].to = 0;
    assert!(!diagram.is_well_formed());
    let mut diagram = good();
    diagram.activations[0].level = 0;
    assert!(!diagram.is_well_formed());
    let mut diagram = good();
    diagram.activations.push(Activation { participant_id: 0, from: 0, to: 1, level: 2 });
    assert!(!diagram.is_well_formed());
    let mut diagram = good();
    diagram.activations.push(Activation { participant_id: 0, from: 0, to: 1, level: 1 });
    assert!(diagram.is_well_formed());
    let mut diagram = good();
    diagram.notes[0].horizontal_position = HorizontalNotePosition::Over(vec![0, 2]);
    assert!(!diagram.is_well_formed());
    assert!(!HorizontalNotePosition::LeftOf(2).is_among(2));
    assert!(HorizontalNotePosition::RightOf(1).is_among(2));
    assert!(HorizontalNotePosition::Over(vec![]).is_among(0));
    let mut diagram = good();
    diagram.notes[1].vertical_position = VerticalNotePosition::AfterNote(1);
    assert!(!diagram.is_well_formed());
    let mut diagram = good();
    diagram.notes[1].vertical_position = VerticalNotePosition::AfterMessage(2);
    assert!(!diagram.is_well_formed());
    let mut diagram = good();
    diagram.notes[1].id = 0;
    assert!(!diagram.is_well_formed());
}

#[test]
fn names_lose_all_white_space_around_them() {
    let input = "participant \u{a0}\u{2003}Alice\u{3000}\t\r\n\u{2028}Alice\u{85}->\u{1680}Bob\u{202f}\u{205f}: hi\n";
    let diagram = parse(input.to_string()).unwrap();
    assert_eq!(diagram.participants, vec![participant(0, "Alice"), participant(1, "Bob")]);
    let inner = parse("A\u{a0}B->C: x\n".to_string()).unwrap();
    assert_eq!(inner.participants[0].name, "A\u{a0}B");
    let other = parse("\u{200b}A->C: x\n".to_string()).unwrap();
    assert_eq!(other.participants[0].name, "\u{200b}A");
}
