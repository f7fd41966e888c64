//! From lines to a diagram: participants are numbered in the order of their first mention,
//! messages get their two ends, activation marks are paired, and notes are tied to the
//! columns and to what they follow.

use crate::diagram::{
    levels_descend, messages_view, notes_view, participants_view, Activation, ArrowDirection,
    HorizontalNotePosition, HorizontalNotePositionView, Message, MessageId, MessageView, Note,
    NoteView, Participant, ParticipantId, ParticipantView, SequenceDiagram, SequenceDiagramView,
    VerticalNotePosition,
};
use crate::grammar::{
    lines, names_view, ActivationChange, Line, LineView, MessageLine, NotePosition,
    NotePositionView, ParseError,
};
use crate::parser::{lines_parser, lines_view};
use crate::text::to_chars;
use std::collections::HashMap;
use vstd::prelude::*;

verus! {

broadcast use vstd::std_specs::hash::group_hash_axioms;

/// Why a source text is no diagram.
#[derive(PartialEq, Debug)]
pub enum DiagramError {
    /// A line is none of the forms of the grammar.
    Parse(ParseError),
    /// A name is used that no declaration and no message introduces.
    UnknownParticipant { name: String },
    /// A message ends an activation of its sender, and none is running.
    UnmatchedDeactivation { participant: String },
}

pub enum DiagramErrorView {
    Parse(ParseError),
    UnknownParticipant { name: Seq<char> },
    UnmatchedDeactivation { participant: Seq<char> },
}

impl View for DiagramError {
    type V = DiagramErrorView;

    open spec fn view(&self) -> DiagramErrorView {
        match self {
            DiagramError::Parse(e) => DiagramErrorView::Parse(*e),
            DiagramError::UnknownParticipant { name } => DiagramErrorView::UnknownParticipant {
                name: name@,
            },
            DiagramError::UnmatchedDeactivation {
                participant,
            } => DiagramErrorView::UnmatchedDeactivation { participant: participant@ },
        }
    }
}

// ---------------------------------------------------------------------------------------------
// Participants
// ---------------------------------------------------------------------------------------------
/// `names`, with `name` added at the end unless it is among them.
pub open spec fn with_name(names: Seq<Seq<char>>, name: Seq<char>) -> Seq<Seq<char>> {
    if names.contains(name) {
        names
    } else {
        names.push(name)
    }
}

/// `names`, with the names added that `read` mentions: the sender and then the receiver of a
/// message, the name of a declaration. A note introduces no name.
pub open spec fn names_after(names: Seq<Seq<char>>, read: LineView) -> Seq<Seq<char>> {
    match read {
        LineView::Message(m) => with_name(with_name(names, m.from), m.to),
        LineView::Participant(name) => with_name(names, name),
        LineView::Actor(name) => with_name(names, name),
        _ => names,
    }
}

/// The names of the participants of `read`, each once, in the order of their first mention.
pub open spec fn participant_names(read: Seq<LineView>) -> Seq<Seq<char>>
    decreases read.len(),
{
    if read.len() == 0 {
        Seq::empty()
    } else {
        names_after(participant_names(read.drop_last()), read.last())
    }
}

/// The participants with these names: each has its position as its id.
pub open spec fn numbered(names: Seq<Seq<char>>) -> Seq<ParticipantView> {
    Seq::new(names.len(), |i: int| ParticipantView { id: i as usize, name: names[i] })
}

/// The id of the participant called `name`: the first position in `names` that holds it.
pub open spec fn id_of(names: Seq<Seq<char>>, name: Seq<char>) -> Option<ParticipantId>
    decreases names.len(),
{
    if names.len() == 0 {
        None
    } else if id_of(names.drop_last(), name) is Some {
        id_of(names.drop_last(), name)
    } else if names.last() == name {
        Some((names.len() - 1) as usize)
    } else {
        None
    }
}

/// No name occurs twice.
pub open spec fn distinct(names: Seq<Seq<char>>) -> bool {
    forall|i: int, j: int| 0 <= i < j < names.len() ==> names[i] != names[j]
}

proof fn lemma_id_of(names: Seq<Seq<char>>, name: Seq<char>)
    requires
        names.len() <= usize::MAX,
    ensures
        match id_of(names, name) {
            Some(id) => id < names.len() && names[id as int] == name && forall|j: int|
                0 <= j < id ==> names[j] != name,
            None => forall|j: int| 0 <= j < names.len() ==> names[j] != name,
        },
    decreases names.len(),
{
    if names.len() > 0 {
        let front = names.drop_last();
        lemma_id_of(front, name);
        match id_of(front, name) {
            Some(id) => {
                assert(names[id as int] == front[id as int]);
                assert forall|j: int| 0 <= j < id implies names[j] != name by {
                    assert(names[j] == front[j]);
                }
            },
            None => {
                assert forall|j: int| 0 <= j < names.len() - 1 implies names[j] != name by {
                    assert(names[j] == front[j]);
                }
            },
        }
    }
}

proof fn lemma_participant_names_distinct(read: Seq<LineView>)
    ensures
        distinct(participant_names(read)),
    decreases read.len(),
{
    if read.len() > 0 {
        lemma_participant_names_distinct(read.drop_last());
    }
}

proof fn lemma_names_after_keep(names: Seq<Seq<char>>, read: LineView, name: Seq<char>)
    requires
        names.contains(name),
    ensures
        names_after(names, read).contains(name),
{
    let k = choose|k: int| 0 <= k < names.len() && names[k] == name;
    match read {
        LineView::Message(m) => {
            assert(with_name(names, m.from)[k] == name);
            assert(with_name(with_name(names, m.from), m.to)[k] == name);
        },
        LineView::Participant(other) => {
            assert(with_name(names, other)[k] == name);
        },
        LineView::Actor(other) => {
            assert(with_name(names, other)[k] == name);
        },
        _ => {},
    }
}

proof fn lemma_with_name_has(names: Seq<Seq<char>>, name: Seq<char>)
    ensures
        with_name(names, name).contains(name),
{
    if !names.contains(name) {
        assert(names.push(name)[names.len() as int] == name);
    }
}

/// Every name that a message mentions is the name of a participant, so that no message fails
/// for an unknown name: only a note can name a participant that does not exist.
pub proof fn law_message_names_known(read: Seq<LineView>, k: int)
    requires
        0 <= k < read.len(),
        read[k] is Message,
        participant_names(read).len() <= usize::MAX,
    ensures
        id_of(participant_names(read), read[k]->Message_0.from) is Some,
        id_of(participant_names(read), read[k]->Message_0.to) is Some,
    decreases read.len(),
{
    let m = read[k]->Message_0;
    let before = participant_names(read.drop_last());
    let names = participant_names(read);
    if k == read.len() - 1 {
        lemma_with_name_has(before, m.from);
        lemma_with_name_has(with_name(before, m.from), m.to);
        let sender = choose|i: int|
            0 <= i < with_name(before, m.from).len() && with_name(before, m.from)[i] == m.from;
        assert(with_name(with_name(before, m.from), m.to)[sender] == m.from);
    } else {
        assert(read.drop_last()[k] == read[k]);
        assert(before.len() <= names.len());
        law_message_names_known(read.drop_last(), k);
        lemma_id_of(before, m.from);
        lemma_id_of(before, m.to);
        assert(before.contains(m.from));
        assert(before.contains(m.to));
        lemma_names_after_keep(before, read.last(), m.from);
        lemma_names_after_keep(before, read.last(), m.to);
    }
    lemma_id_of(names, m.from);
    lemma_id_of(names, m.to);
    let i = choose|i: int| 0 <= i < names.len() && names[i] == m.from;
    let j = choose|j: int| 0 <= j < names.len() && names[j] == m.to;
    assert(names[i] == m.from && names[j] == m.to);
}

/// The names of `participants`, in order.
pub open spec fn names_of(participants: Seq<Participant>) -> Seq<Seq<char>> {
    Seq::new(participants.len(), |i: int| participants[i].name@)
}

/// Looks `name` up among `participants`.
pub fn find_participant(participants: &Vec<Participant>, name: &String) -> (found: Option<
    ParticipantId,
>)
    ensures
        found == id_of(names_of(participants@), name@),
{
    let mut i: usize = 0;
    while i < participants.len()
        invariant
            i <= participants.len(),
            forall|j: int| 0 <= j < i ==> names_of(participants@)[j] != name@,
        decreases participants.len() - i,
    {
        if participants[i].name == *name {
            proof {
                lemma_id_of(names_of(participants@), name@);
                assert(names_of(participants@)[i as int] == name@);
            }
            return Some(i);
        }
        i += 1;
    }
    proof {
        lemma_id_of(names_of(participants@), name@);
    }
    None
}

fn add_participant(participants: &mut Vec<Participant>, name: &String)
    requires
        participants_view(old(participants)@) == numbered(names_of(old(participants)@)),
    ensures
        names_of(final(participants)@) == with_name(names_of(old(participants)@), name@),
        participants_view(final(participants)@) == numbered(names_of(final(participants)@)),
{
    let ghost names = names_of(participants@);
    let id = participants.len();
    if find_participant(participants, name).is_none() {
        proof {
            lemma_id_of(names, name@);
        }
        participants.push(Participant { id, name: name.clone() });
        assert(names_of(participants@) == names.push(name@));
        assert forall|i: int| 0 <= i < participants@.len() implies participants_view(
            participants@,
        )[i] == numbered(names_of(participants@))[i] by {
            if i < id {
                assert(participants_view(old(participants)@)[i] == numbered(names)[i]);
            }
        }
    } else {
        proof {
            lemma_id_of(names, name@);
        }
    }
}

/// The participants of `read`: every name that a message or a declaration mentions, once, in
/// the order of first mention, numbered from 0.
pub fn build_participants(read: &Vec<Line>) -> (participants: Vec<Participant>)
    ensures
        participants_view(participants@) == numbered(participant_names(lines_view(read@))),
        names_of(participants@) == participant_names(lines_view(read@)),
{
    let mut participants: Vec<Participant> = Vec::new();
    let mut i: usize = 0;
    assert(names_of(participants@) == participant_names(lines_view(read@).take(0)));
    while i < read.len()
        invariant
            i <= read.len(),
            names_of(participants@) == participant_names(lines_view(read@).take(i as int)),
            participants_view(participants@) == numbered(names_of(participants@)),
        decreases read.len() - i,
    {
        proof {
            let next = lines_view(read@).take(i + 1);
            assert(next.drop_last() == lines_view(read@).take(i as int));
            assert(next.last() == read@[i as int]@);
        }
        match &read[i] {
            Line::Message(MessageLine { from, to, .. }) => {
                add_participant(&mut participants, from);
                add_participant(&mut participants, to);
            },
            Line::Participant(name) => {
                add_participant(&mut participants, name);
            },
            Line::Actor(name) => {
                add_participant(&mut participants, name);
            },
            _ => {},
        }
        i += 1;
    }
    assert(lines_view(read@).take(read@.len() as int) == lines_view(read@));
    participants
}

// ---------------------------------------------------------------------------------------------
// Messages, activations and notes
// ---------------------------------------------------------------------------------------------
/// What has been built from the lines read so far.
pub struct Progress {
    pub messages: Seq<MessageView>,
    /// For each participant, the messages that began its activations still running, the
    /// outermost first.
    pub open: Seq<Seq<MessageId>>,
    pub activations: Seq<Activation>,
    pub notes: Seq<NoteView>,
    /// What the next note will follow.
    pub last: VerticalNotePosition,
}

/// Message number `id`, sent by `from` to `to`: the smaller id is its left end, and it points
/// to the right unless the sender has the larger id.
pub open spec fn message_between(
    id: MessageId,
    from: ParticipantId,
    to: ParticipantId,
    written: crate::grammar::MessageLineView,
) -> MessageView {
    if from > to {
        MessageView {
            id,
            left: to,
            right: from,
            msg: written.msg,
            arrow: written.arrow,
            direction: ArrowDirection::ToLeft,
        }
    } else {
        MessageView {
            id,
            left: from,
            right: to,
            msg: written.msg,
            arrow: written.arrow,
            direction: ArrowDirection::ToRight,
        }
    }
}

/// The first position at or after `at` whose activation has a level that is not above `level`.
pub open spec fn slot_from(activations: Seq<Activation>, level: usize, at: int) -> int
    decreases activations.len() - at,
{
    if 0 <= at < activations.len() && activations[at].level > level {
        slot_from(activations, level, at + 1)
    } else {
        at
    }
}

/// `activations` with `done` put in front of the first one whose level is not above its own:
/// deeper activations stay in front, and of two activations of one level the one that ended
/// later comes first.
pub open spec fn insert_by_level(activations: Seq<Activation>, done: Activation) -> Seq<
    Activation,
> {
    activations.insert(slot_from(activations, done.level, 0), done)
}

/// The ids of `names`, or the first of them that no participant has.
pub open spec fn resolve_all(known: Seq<Seq<char>>, names: Seq<Seq<char>>) -> Result<
    Seq<ParticipantId>,
    Seq<char>,
>
    decreases names.len(),
{
    if names.len() == 0 {
        Ok(Seq::empty())
    } else {
        match resolve_all(known, names.drop_last()) {
            Err(name) => Err(name),
            Ok(ids) => match id_of(known, names.last()) {
                Some(id) => Ok(ids.push(id)),
                None => Err(names.last()),
            },
        }
    }
}

/// The position of a note with ids in place of names, or the first name that no participant
/// has.
pub open spec fn resolve(known: Seq<Seq<char>>, position: NotePositionView) -> Result<
    HorizontalNotePositionView,
    Seq<char>,
> {
    match position {
        NotePositionView::LeftOf(name) => match id_of(known, name) {
            Some(id) => Ok(HorizontalNotePositionView::LeftOf(id)),
            None => Err(name),
        },
        NotePositionView::RightOf(name) => match id_of(known, name) {
            Some(id) => Ok(HorizontalNotePositionView::RightOf(id)),
            None => Err(name),
        },
        NotePositionView::Over(names) => match resolve_all(known, names) {
            Ok(ids) => Ok(HorizontalNotePositionView::Over(ids)),
            Err(name) => Err(name),
        },
    }
}

/// What one more line adds.
///
/// A message is numbered and gets its ends. `+` begins an activation of the receiver, one
/// level deeper than the one running there. `-` ends the innermost running activation of the
/// sender, which is an error if none is running. A note is numbered, tied to its columns, and
/// follows the last message or note before it. Declarations and empty lines add nothing.
pub open spec fn step(known: Seq<Seq<char>>, so_far: Progress, read: LineView) -> Result<
    Progress,
    DiagramErrorView,
> {
    match read {
        LineView::Message(written) => match (id_of(known, written.from), id_of(known, written.to)) {
            (None, _) => Err(DiagramErrorView::UnknownParticipant { name: written.from }),
            (Some(_), None) => Err(DiagramErrorView::UnknownParticipant { name: written.to }),
            (Some(from), Some(to)) => {
                let id = so_far.messages.len() as usize;
                let placed = Progress {
                    messages: so_far.messages.push(message_between(id, from, to, written)),
                    last: VerticalNotePosition::AfterMessage(id),
                    ..so_far
                };
                match written.activation {
                    None => Ok(placed),
                    Some(ActivationChange::Activate) => Ok(
                        Progress {
                            open: so_far.open.update(to as int, so_far.open[to as int].push(id)),
                            ..placed
                        },
                    ),
                    Some(ActivationChange::Deactivate) => {
                        let running = so_far.open[from as int];
                        if running.len() == 0 {
                            Err(
                                DiagramErrorView::UnmatchedDeactivation {
                                    participant: written.from,
                                },
                            )
                        } else {
                            Ok(
                                Progress {
                                    open: so_far.open.update(from as int, running.drop_last()),
                                    activations: insert_by_level(
                                        so_far.activations,
                                        Activation {
                                            participant_id: from,
                                            from: running.last(),
                                            to: id,
                                            level: running.len() as usize,
                                        },
                                    ),
                                    ..placed
                                },
                            )
                        }
                    },
                }
            },
        },
        LineView::Note(position, text) => match resolve(known, position) {
            Err(name) => Err(DiagramErrorView::UnknownParticipant { name }),
            Ok(horizontal_position) => {
                let id = so_far.notes.len() as usize;
                Ok(
                    Progress {
                        notes: so_far.notes.push(
                            NoteView {
                                id,
                                content: text,
                                horizontal_position,
                                vertical_position: so_far.last,
                            },
                        ),
                        last: VerticalNotePosition::AfterNote(id),
                        ..so_far
                    },
                )
            },
        },
        _ => Ok(so_far),
    }
}

/// Nothing read yet: no activation runs for any of `n` participants, and a note would be the
/// first thing of the diagram.
pub open spec fn nothing_read(n: nat) -> Progress {
    Progress {
        messages: Seq::empty(),
        open: Seq::new(n, |i: int| Seq::empty()),
        activations: Seq::empty(),
        notes: Seq::empty(),
        last: VerticalNotePosition::First,
    }
}

/// What the lines `read` build, taken one after the other, or the error of the first line that
/// fails.
pub open spec fn build(known: Seq<Seq<char>>, read: Seq<LineView>) -> Result<
    Progress,
    DiagramErrorView,
>
    decreases read.len(),
{
    if read.len() == 0 {
        Ok(nothing_read(known.len()))
    } else {
        match build(known, read.drop_last()) {
            Err(e) => Err(e),
            Ok(so_far) => step(known, so_far, read.last()),
        }
    }
}

/// The diagram of the lines `read`. Activations still running at the end are dropped.
pub open spec fn diagram_of(read: Seq<LineView>) -> Result<SequenceDiagramView, DiagramErrorView> {
    let known = participant_names(read);
    match build(known, read) {
        Err(e) => Err(e),
        Ok(built) => Ok(
            SequenceDiagramView {
                participants: numbered(known),
                messages: built.messages,
                activations: built.activations,
                notes: built.notes,
            },
        ),
    }
}

/// The diagram that the text `src` describes. A line break is added at its end before it is
/// read.
pub open spec fn parsed(src: Seq<char>) -> Result<SequenceDiagramView, DiagramErrorView> {
    match lines(src.push('\n')) {
        Err(e) => Err(DiagramErrorView::Parse(e)),
        Ok(read) => diagram_of(read),
    }
}

// ---------------------------------------------------------------------------------------------
// What every diagram built here satisfies
// ---------------------------------------------------------------------------------------------
impl Progress {
    /// All that has been built refers to what exists among `n` participants and the messages
    /// and notes built so far.
    pub open spec fn wf(self, n: int) -> bool {
        &&& self.open.len() == n
        &&& forall|k: int|
            0 <= k < self.messages.len() ==> (#[trigger] self.messages[k]).wf(k, n)
        &&& forall|p: int|
            0 <= p < n ==> (#[trigger] self.open[p]).len() <= self.messages.len()
        &&& forall|p: int, j: int|
            0 <= p < n && 0 <= j < self.open[p].len() ==> (#[trigger] self.open[p][j])
                < self.messages.len()
        &&& forall|k: int|
            0 <= k < self.activations.len() ==> (#[trigger] self.activations[k]).wf(
                n,
                self.messages.len() as int,
            )
        &&& levels_descend(self.activations)
        &&& forall|k: int|
            0 <= k < self.notes.len() ==> (#[trigger] self.notes[k]).wf(
                k,
                n,
                self.messages.len() as int,
            )
        &&& match self.last {
            VerticalNotePosition::First => true,
            VerticalNotePosition::AfterMessage(message) => message < self.messages.len(),
            VerticalNotePosition::AfterNote(note) => note < self.notes.len(),
        }
    }
}

proof fn lemma_slot_from(activations: Seq<Activation>, level: usize, at: int)
    requires
        0 <= at <= activations.len(),
    ensures
        at <= slot_from(activations, level, at) <= activations.len(),
        forall|j: int|
            at <= j < slot_from(activations, level, at) ==> activations[j].level > level,
        slot_from(activations, level, at) < activations.len() ==> activations[slot_from(
            activations,
            level,
            at,
        )].level <= level,
    decreases activations.len() - at,
{
    if at < activations.len() && activations[at].level > level {
        lemma_slot_from(activations, level, at + 1);
    }
}

proof fn lemma_insert_by_level(activations: Seq<Activation>, done: Activation, n: int, m: int)
    requires
        levels_descend(activations),
        forall|k: int| 0 <= k < activations.len() ==> (#[trigger] activations[k]).wf(n, m),
        done.wf(n, m),
    ensures
        levels_descend(insert_by_level(activations, done)),
        forall|k: int|
            0 <= k < insert_by_level(activations, done).len() ==> (#[trigger] insert_by_level(
                activations,
                done,
            )[k]).wf(n, m),
{
    let at = slot_from(activations, done.level, 0);
    lemma_slot_from(activations, done.level, 0);
    let after = insert_by_level(activations, done);
    assert forall|i: int, j: int| 0 <= i < j < after.len() implies after[i].level
        >= after[j].level by {
        if j < at {
        } else if j == at {
        } else if i < at {
            assert(activations[j - 1].level <= activations[at].level);
        } else if i == at {
            assert(activations[j - 1].level <= activations[at].level);
        } else {
        }
    }
    assert forall|k: int| 0 <= k < after.len() implies (#[trigger] after[k]).wf(n, m) by {
        if k < at {
            assert(after[k] == activations[k]);
        } else if k > at {
            assert(after[k] == activations[k - 1]);
        }
    }
}

proof fn lemma_resolve_all_known(known: Seq<Seq<char>>, names: Seq<Seq<char>>)
    requires
        known.len() <= usize::MAX,
    ensures
        resolve_all(known, names) matches Ok(ids) ==> ids.len() == names.len() && forall|i: int|
            0 <= i < ids.len() ==> ids[i] < known.len(),
    decreases names.len(),
{
    if names.len() > 0 {
        lemma_resolve_all_known(known, names.drop_last());
        lemma_id_of(known, names.last());
    }
}

proof fn lemma_step_wf(known: Seq<Seq<char>>, so_far: Progress, read: LineView)
    requires
        known.len() <= usize::MAX,
        so_far.messages.len() < usize::MAX,
        so_far.notes.len() < usize::MAX,
        so_far.wf(known.len() as int),
    ensures
        step(known, so_far, read) matches Ok(next) ==> next.wf(known.len() as int)
            && next.messages.len() + next.notes.len() <= so_far.messages.len()
            + so_far.notes.len() + 1,
{
    let n = known.len() as int;
    match read {
        LineView::Message(written) => {
            lemma_id_of(known, written.from);
            lemma_id_of(known, written.to);
            if let Ok(next) = step(known, so_far, read) {
                let from = id_of(known, written.from).unwrap();
                let to = id_of(known, written.to).unwrap();
                let id = so_far.messages.len() as usize;
                let m = next.messages.len() as int;
                assert forall|k: int| 0 <= k < next.messages.len() implies (
                #[trigger] next.messages[k]).wf(k, n) by {
                    if k < id {
                        assert(next.messages[k] == so_far.messages[k]);
                    }
                }
                assert forall|k: int| 0 <= k < so_far.activations.len() implies (
                #[trigger] so_far.activations[k]).wf(n, m) by {
                    assert(so_far.activations[k].wf(n, so_far.messages.len() as int));
                }
                assert forall|k: int| 0 <= k < next.notes.len() implies (
                #[trigger] next.notes[k]).wf(k, n, m) by {
                    assert(so_far.notes[k].wf(k, n, so_far.messages.len() as int));
                }
                match written.activation {
                    None => {},
                    Some(ActivationChange::Activate) => {
                        assert forall|p: int| 0 <= p < n implies (#[trigger] next.open[p]).len()
                            <= next.messages.len() by {
                            assert(so_far.open[p].len() <= so_far.messages.len());
                        }
                        assert forall|p: int, j: int|
                            0 <= p < n && 0 <= j < next.open[p].len() implies (
                        #[trigger] next.open[p][j]) < next.messages.len() by {
                            if p == to && j == so_far.open[p].len() {
                            } else {
                                assert(so_far.open[p][j] < so_far.messages.len());
                            }
                        }
                    },
                    Some(ActivationChange::Deactivate) => {
                        let running = so_far.open[from as int];
                        assert(running.len() <= so_far.messages.len());
                        assert(so_far.open[from as int][running.len() - 1]
                            < so_far.messages.len());
                        let done = Activation {
                            participant_id: from,
                            from: running.last(),
                            to: id,
                            level: running.len() as usize,
                        };
                        lemma_insert_by_level(so_far.activations, done, n, m);
                        assert forall|p: int| 0 <= p < n implies (#[trigger] next.open[p]).len()
                            <= next.messages.len() by {
                            assert(so_far.open[p].len() <= so_far.messages.len());
                        }
                        assert forall|p: int, j: int|
                            0 <= p < n && 0 <= j < next.open[p].len() implies (
                        #[trigger] next.open[p][j]) < next.messages.len() by {
                            assert(so_far.open[p][j] < so_far.messages.len());
                        }
                    },
                }
            }
        },
        LineView::Note(position, text) => {
            if let Ok(next) = step(known, so_far, read) {
                let id = so_far.notes.len() as usize;
                match position {
                    NotePositionView::LeftOf(name) => {
                        lemma_id_of(known, name);
                    },
                    NotePositionView::RightOf(name) => {
                        lemma_id_of(known, name);
                    },
                    NotePositionView::Over(names) => {
                        lemma_resolve_all_known(known, names);
                    },
                }
                assert forall|k: int| 0 <= k < next.notes.len() implies (
                #[trigger] next.notes[k]).wf(k, n, next.messages.len() as int) by {
                    if k < id {
                        assert(next.notes[k] == so_far.notes[k]);
                    }
                }
            }
        },
        _ => {},
    }
}

proof fn lemma_build_wf(known: Seq<Seq<char>>, read: Seq<LineView>)
    requires
        known.len() <= usize::MAX,
        read.len() <= usize::MAX,
    ensures
        build(known, read) matches Ok(built) ==> built.wf(known.len() as int)
            && built.messages.len() + built.notes.len() <= read.len(),
    decreases read.len(),
{
    if read.len() > 0 {
        lemma_build_wf(known, read.drop_last());
        if let Ok(so_far) = build(known, read.drop_last()) {
            lemma_step_wf(known, so_far, read.last());
        }
    }
}

/// Every diagram that is built from lines is well formed: each participant has its position
/// as its id and a name of its own; every participant that a message, an activation or a note
/// refers to exists; a message has its smaller end on the left, and points to the right where
/// both ends are one participant; and the activations are ordered by falling level, so that
/// the innermost come first.
pub proof fn law_diagram_well_formed(read: Seq<LineView>)
    requires
        read.len() <= usize::MAX,
        participant_names(read).len() <= usize::MAX,
    ensures
        diagram_of(read) matches Ok(diagram) ==> diagram.wf(),
{
    lemma_participant_names_distinct(read);
    lemma_build_wf(participant_names(read), read);
}

/// The messages that began the activations of participant `p` still running, the outermost
/// first: what the map holds for `p`, and nothing where it holds nothing.
pub open spec fn running(open: Map<ParticipantId, Vec<MessageId>>, p: ParticipantId) -> Seq<
    MessageId,
> {
    if open.contains_key(p) {
        open[p]@
    } else {
        Seq::empty()
    }
}

/// The running activations of the first `n` participants.
pub open spec fn stacks(open: Map<ParticipantId, Vec<MessageId>>, n: nat) -> Seq<Seq<MessageId>> {
    Seq::new(n, |p: int| running(open, p as usize))
}

/// Begins an activation of participant `p` with message `k`.
fn begin(
    open: &mut HashMap<ParticipantId, Vec<MessageId>>,
    p: ParticipantId,
    k: MessageId,
    Ghost(n): Ghost<nat>,
)
    requires
        p < n <= usize::MAX,
    ensures
        stacks(final(open)@, n) == stacks(old(open)@, n).update(
            p as int,
            stacks(old(open)@, n)[p as int].push(k),
        ),
{
    let mut stack = match open.remove(&p) {
        Some(stack) => stack,
        None => Vec::new(),
    };
    stack.push(k);
    open.insert(p, stack);
    assert(stacks(open@, n) =~= stacks(old(open)@, n).update(
        p as int,
        stacks(old(open)@, n)[p as int].push(k),
    ));
}

/// Ends the innermost running activation of participant `p`, if there is one: the message that
/// began it and its level are returned.
fn end(open: &mut HashMap<ParticipantId, Vec<MessageId>>, p: ParticipantId, Ghost(n): Ghost<nat>) -> (began:
    Option<(MessageId, usize)>)
    requires
        p < n <= usize::MAX,
    ensures
        match began {
            Some((k, level)) => {
                let stack = stacks(old(open)@, n)[p as int];
                &&& stack.len() > 0
                &&& k == stack.last()
                &&& level == stack.len()
                &&& stacks(final(open)@, n) == stacks(old(open)@, n).update(
                    p as int,
                    stack.drop_last(),
                )
            },
            None => stacks(old(open)@, n)[p as int].len() == 0,
        },
{
    let mut stack = match open.remove(&p) {
        Some(stack) => stack,
        None => Vec::new(),
    };
    let level = stack.len();
    match stack.pop() {
        None => None,
        Some(k) => {
            open.insert(p, stack);
            assert(stacks(open@, n) =~= stacks(old(open)@, n).update(
                p as int,
                stacks(old(open)@, n)[p as int].drop_last(),
            ));
            Some((k, level))
        },
    }
}

fn insert_activation(activations: &mut Vec<Activation>, done: Activation)
    ensures
        final(activations)@ == insert_by_level(old(activations)@, done),
{
    let mut at: usize = 0;
    while at < activations.len() && activations[at].level > done.level
        invariant
            at <= activations.len(),
            slot_from(activations@, done.level, 0) == slot_from(activations@, done.level, at as int),
        decreases activations.len() - at,
    {
        at += 1;
    }
    activations.insert(at, done);
}

fn resolve_names(participants: &Vec<Participant>, names: &Vec<String>) -> (found: Result<
    Vec<ParticipantId>,
    String,
>)
    ensures
        match found {
            Ok(ids) => resolve_all(names_of(participants@), names_view(names@)) == Ok::<
                _,
                Seq<char>,
            >(ids@),
            Err(name) => resolve_all(names_of(participants@), names_view(names@)) == Err::<
                Seq<ParticipantId>,
                _,
            >(name@),
        },
{
    let mut ids: Vec<ParticipantId> = Vec::new();
    let mut i: usize = 0;
    assert(names_view(names@).take(0) == Seq::<Seq<char>>::empty());
    while i < names.len()
        invariant
            i <= names.len(),
            resolve_all(names_of(participants@), names_view(names@).take(i as int)) == Ok::<
                _,
                Seq<char>,
            >(ids@),
        decreases names.len() - i,
    {
        proof {
            let next = names_view(names@).take(i + 1);
            assert(next.drop_last() == names_view(names@).take(i as int));
            assert(next.last() == names@[i as int]@);
        }
        match find_participant(participants, &names[i]) {
            Some(id) => {
                ids.push(id);
            },
            None => {
                proof {
                    lemma_resolve_all_fails(
                        names_of(participants@),
                        names_view(names@),
                        i + 1,
                    );
                }
                return Err(names[i].clone());
            },
        }
        i += 1;
    }
    assert(names_view(names@).take(names@.len() as int) == names_view(names@));
    Ok(ids)
}

/// Once a name of the list is unknown, all longer lists fail with the same name.
proof fn lemma_resolve_all_fails(known: Seq<Seq<char>>, names: Seq<Seq<char>>, n: int)
    requires
        0 <= n <= names.len(),
        resolve_all(known, names.take(n)) is Err,
    ensures
        resolve_all(known, names) == resolve_all(known, names.take(n)),
    decreases names.len() - n,
{
    if n < names.len() {
        assert(names.take(n + 1).drop_last() == names.take(n));
        lemma_resolve_all_fails(known, names, n + 1);
    } else {
        assert(names.take(n) == names);
    }
}

fn resolve_position(participants: &Vec<Participant>, position: &NotePosition) -> (found: Result<
    HorizontalNotePosition,
    String,
>)
    ensures
        match found {
            Ok(resolved) => resolve(names_of(participants@), position@) == Ok::<_, Seq<char>>(
                resolved@,
            ),
            Err(name) => resolve(names_of(participants@), position@) == Err::<
                HorizontalNotePositionView,
                _,
            >(name@),
        },
{
    match position {
        NotePosition::LeftOf(name) => match find_participant(participants, name) {
            Some(id) => Ok(HorizontalNotePosition::LeftOf(id)),
            None => Err(name.clone()),
        },
        NotePosition::RightOf(name) => match find_participant(participants, name) {
            Some(id) => Ok(HorizontalNotePosition::RightOf(id)),
            None => Err(name.clone()),
        },
        NotePosition::Over(names) => match resolve_names(participants, names) {
            Ok(ids) => Ok(HorizontalNotePosition::Over(ids)),
            Err(name) => Err(name),
        },
    }
}

fn message_from(id: MessageId, from: ParticipantId, to: ParticipantId, written: &MessageLine) -> (message:
    Message)
    ensures
        message@ == message_between(id, from, to, written@),
{
    if from > to {
        Message {
            id,
            left: to,
            right: from,
            msg: written.msg.clone(),
            arrow: written.arrow,
            direction: ArrowDirection::ToLeft,
        }
    } else {
        Message {
            id,
            left: from,
            right: to,
            msg: written.msg.clone(),
            arrow: written.arrow,
            direction: ArrowDirection::ToRight,
        }
    }
}

/// Builds the diagram of the lines `read`.
///
/// It fails on the first line that ends an activation where none is running, or that names a
/// participant which no message and no declaration mentions. Activations still running at the
/// end are dropped.
pub fn build_diagram(read: Vec<Line>) -> (built: Result<SequenceDiagram, DiagramError>)
    ensures
        match built {
            Ok(diagram) => diagram_of(lines_view(read@)) == Ok::<_, DiagramErrorView>(diagram@)
                && diagram@.wf(),
            Err(e) => diagram_of(lines_view(read@)) == Err::<SequenceDiagramView, _>(e@),
        },
{
    let participants = build_participants(&read);
    let ghost known = names_of(participants@);
    let ghost all = lines_view(read@);
    let mut messages: Vec<Message> = Vec::new();
    let mut open: HashMap<ParticipantId, Vec<MessageId>> = HashMap::new();
    let mut activations: Vec<Activation> = Vec::new();
    let mut notes: Vec<Note> = Vec::new();
    let mut last = VerticalNotePosition::First;
    let mut i: usize = 0;
    assert(known.len() == participants.len());
    assert(all.take(0) == Seq::<LineView>::empty());
    assert(stacks(open@, known.len()) == nothing_read(known.len()).open);
    assert(messages_view(messages@) == Seq::<MessageView>::empty());
    assert(notes_view(notes@) == Seq::<NoteView>::empty());
    while i < read.len()
        invariant
            i <= read.len(),
            all == lines_view(read@),
            known == names_of(participants@),
            known == participant_names(all),
            known.len() <= usize::MAX,
            build(known, all.take(i as int)) == Ok::<_, DiagramErrorView>(
                Progress {
                    messages: messages_view(messages@),
                    open: stacks(open@, known.len()),
                    activations: activations@,
                    notes: notes_view(notes@),
                    last,
                },
            ),
        decreases read.len() - i,
    {
        let ghost so_far = Progress {
            messages: messages_view(messages@),
            open: stacks(open@, known.len()),
            activations: activations@,
            notes: notes_view(notes@),
            last,
        };
        proof {
            let next = all.take(i + 1);
            assert(next.drop_last() == all.take(i as int));
            assert(next.last() == read@[i as int]@);
            assert(build(known, next) == step(known, so_far, read@[i as int]@));
            lemma_build_fails(known, all, i + 1);
        }
        match &read[i] {
            Line::Message(written) => {
                let from = match find_participant(&participants, &written.from) {
                    Some(id) => id,
                    None => {
                        return Err(DiagramError::UnknownParticipant { name: written.from.clone() });
                    },
                };
                let to = match find_participant(&participants, &written.to) {
                    Some(id) => id,
                    None => {
                        return Err(DiagramError::UnknownParticipant { name: written.to.clone() });
                    },
                };
                proof {
                    lemma_id_of(known, written.from@);
                    lemma_id_of(known, written.to@);
                }
                let id = messages.len();
                match written.activation {
                    None => {},
                    Some(ActivationChange::Activate) => {
                        begin(&mut open, to, id, Ghost(known.len()));
                    },
                    Some(ActivationChange::Deactivate) => {
                        match end(&mut open, from, Ghost(known.len())) {
                            None => {
                                return Err(
                                    DiagramError::UnmatchedDeactivation {
                                        participant: written.from.clone(),
                                    },
                                );
                            },
                            Some((began, level)) => {
                                insert_activation(
                                    &mut activations,
                                    Activation { participant_id: from, from: began, to: id, level },
                                );
                            },
                        }
                    },
                }
                let ghost before = messages_view(messages@);
                let message = message_from(id, from, to, written);
                messages.push(message);
                assert(messages_view(messages@) == before.push(message@));
                last = VerticalNotePosition::AfterMessage(id);
            },
            Line::Note(position, text) => {
                let horizontal_position = match resolve_position(&participants, position) {
                    Ok(resolved) => resolved,
                    Err(name) => {
                        return Err(DiagramError::UnknownParticipant { name });
                    },
                };
                let id = notes.len();
                let ghost before = notes_view(notes@);
                let note = Note {
                    id,
                    content: text.clone(),
                    horizontal_position,
                    vertical_position: last,
                };
                notes.push(note);
                assert(notes_view(notes@) == before.push(note@));
                last = VerticalNotePosition::AfterNote(id);
            },
            _ => {},
        }
        i += 1;
    }
    assert(all.take(read@.len() as int) == all);
    let diagram = SequenceDiagram { participants, messages, activations, notes };
    proof {
        law_diagram_well_formed(all);
    }
    Ok(diagram)
}

/// Once a line has failed, the lines behind it change nothing.
proof fn lemma_build_fails(known: Seq<Seq<char>>, read: Seq<LineView>, n: int)
    requires
        0 <= n <= read.len(),
    ensures
        build(known, read.take(n)) is Err ==> build(known, read) == build(known, read.take(n)),
    decreases read.len() - n,
{
    if n < read.len() {
        assert(read.take(n + 1).drop_last() == read.take(n));
        lemma_build_fails(known, read, n + 1);
    } else {
        assert(read.take(n) == read);
    }
}

/// Reads a diagram from its source text.
///
/// The text is read line by line, a line break being added at its end. The result is the
/// diagram that `parsed` defines, which is well formed; or the error of the first line that
/// cannot be read as a line of the grammar, or, if all can, of the first line that names an
/// unknown participant or ends an activation that is not running. An empty text is a diagram
/// with nothing in it.
pub fn parse(src: String) -> (read: Result<SequenceDiagram, DiagramError>)
    ensures
        match read {
            Ok(diagram) => parsed(src@) == Ok::<_, DiagramErrorView>(diagram@) && diagram@.wf(),
            Err(e) => parsed(src@) == Err::<SequenceDiagramView, _>(e@),
        },
{
    let mut chars = to_chars(src.as_str());
    chars.push('\n');
    match lines_parser(&chars, 0) {
        Ok(read) => build_diagram(read),
        Err(e) => Err(DiagramError::Parse(e)),
    }
}

} // verus!
