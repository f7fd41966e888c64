//! The data model of a sequence diagram and its well-formedness.

use vstd::prelude::*;

verus! {

pub type ParticipantId = usize;

pub type MessageId = usize;

pub type NoteId = usize;

/// How the line of a message is drawn.
#[derive(PartialEq, Eq, Structural, Debug, Clone, Copy)]
pub enum Arrow {
    DottedNoArrow,
    SolidNoArrow,
}

/// Which way a message points between its two columns.
#[derive(PartialEq, Eq, Structural, Debug, Clone, Copy)]
pub enum ArrowDirection {
    ToRight,
    ToLeft,
}

/// A column of the diagram.
#[derive(PartialEq, Debug)]
pub struct Participant {
    pub id: ParticipantId,
    pub name: String,
}

pub struct ParticipantView {
    pub id: ParticipantId,
    pub name: Seq<char>,
}

impl View for Participant {
    type V = ParticipantView;

    open spec fn view(&self) -> ParticipantView {
        ParticipantView { id: self.id, name: self.name@ }
    }
}

/// A highlighted stretch of a participant's lifeline: it begins right after message `from` and
/// ends at message `to`; `level` is its nesting depth, 1 for an outermost one.
#[derive(PartialEq, Eq, Structural, Debug, Clone, Copy)]
pub struct Activation {
    pub participant_id: ParticipantId,
    pub from: MessageId,
    pub to: MessageId,
    pub level: usize,
}

/// A message between two columns. `left` is the smaller of the two participant ids, and
/// `direction` tells which end sent it.
#[derive(PartialEq, Debug)]
pub struct Message {
    pub id: MessageId,
    pub left: ParticipantId,
    pub right: ParticipantId,
    pub msg: String,
    pub arrow: Arrow,
    pub direction: ArrowDirection,
}

pub struct MessageView {
    pub id: MessageId,
    pub left: ParticipantId,
    pub right: ParticipantId,
    pub msg: Seq<char>,
    pub arrow: Arrow,
    pub direction: ArrowDirection,
}

impl View for Message {
    type V = MessageView;

    open spec fn view(&self) -> MessageView {
        MessageView {
            id: self.id,
            left: self.left,
            right: self.right,
            msg: self.msg@,
            arrow: self.arrow,
            direction: self.direction,
        }
    }
}

/// Where a note sits relative to the columns.
#[derive(PartialEq, Debug)]
pub enum HorizontalNotePosition {
    LeftOf(ParticipantId),
    RightOf(ParticipantId),
    Over(Vec<ParticipantId>),
}

pub enum HorizontalNotePositionView {
    LeftOf(ParticipantId),
    RightOf(ParticipantId),
    Over(Seq<ParticipantId>),
}

impl View for HorizontalNotePosition {
    type V = HorizontalNotePositionView;

    open spec fn view(&self) -> HorizontalNotePositionView {
        match self {
            HorizontalNotePosition::LeftOf(p) => HorizontalNotePositionView::LeftOf(*p),
            HorizontalNotePosition::RightOf(p) => HorizontalNotePositionView::RightOf(*p),
            HorizontalNotePosition::Over(ps) => HorizontalNotePositionView::Over(ps@),
        }
    }
}

/// What a note follows, from top to bottom.
#[derive(PartialEq, Eq, Structural, Debug, Clone, Copy)]
pub enum VerticalNotePosition {
    First,
    AfterMessage(MessageId),
    AfterNote(NoteId),
}

/// An annotation placed beside or over the columns.
#[derive(PartialEq, Debug)]
pub struct Note {
    pub id: NoteId,
    pub content: String,
    pub horizontal_position: HorizontalNotePosition,
    pub vertical_position: VerticalNotePosition,
}

pub struct NoteView {
    pub id: NoteId,
    pub content: Seq<char>,
    pub horizontal_position: HorizontalNotePositionView,
    pub vertical_position: VerticalNotePosition,
}

impl View for Note {
    type V = NoteView;

    open spec fn view(&self) -> NoteView {
        NoteView {
            id: self.id,
            content: self.content@,
            horizontal_position: self.horizontal_position@,
            vertical_position: self.vertical_position,
        }
    }
}

/// A whole diagram: columns, messages, activations and notes, each in the order fixed by the
/// source text.
#[derive(PartialEq, Debug)]
pub struct SequenceDiagram {
    pub participants: Vec<Participant>,
    pub messages: Vec<Message>,
    pub activations: Vec<Activation>,
    pub notes: Vec<Note>,
}

/// The views of `participants`, one by one.
pub open spec fn participants_view(participants: Seq<Participant>) -> Seq<ParticipantView> {
    Seq::new(participants.len(), |i: int| participants[i]@)
}

/// The views of `messages`, one by one.
pub open spec fn messages_view(messages: Seq<Message>) -> Seq<MessageView> {
    Seq::new(messages.len(), |i: int| messages[i]@)
}

/// The views of `notes`, one by one.
pub open spec fn notes_view(notes: Seq<Note>) -> Seq<NoteView> {
    Seq::new(notes.len(), |i: int| notes[i]@)
}

pub struct SequenceDiagramView {
    pub participants: Seq<ParticipantView>,
    pub messages: Seq<MessageView>,
    pub activations: Seq<Activation>,
    pub notes: Seq<NoteView>,
}

impl View for SequenceDiagram {
    type V = SequenceDiagramView;

    open spec fn view(&self) -> SequenceDiagramView {
        SequenceDiagramView {
            participants: participants_view(self.participants@),
            messages: messages_view(self.messages@),
            activations: self.activations@,
            notes: notes_view(self.notes@),
        }
    }
}

/// The levels of `activations` never increase from one entry to the next.
pub open spec fn levels_descend(activations: Seq<Activation>) -> bool {
    forall|i: int, j: int|
        0 <= i < j < activations.len() ==> activations[i].level >= activations[j].level
}

impl MessageView {
    /// The message is message number `k` of a diagram with `n` participants.
    pub open spec fn wf(self, k: int, n: int) -> bool {
        &&& self.id == k
        &&& self.left <= self.right
        &&& self.right < n
        &&& self.left == self.right ==> self.direction == ArrowDirection::ToRight
    }
}

impl Activation {
    /// The activation refers to one of `n` participants and runs between two of `m` messages.
    pub open spec fn wf(self, n: int, m: int) -> bool {
        &&& self.participant_id < n
        &&& self.from < self.to
        &&& self.to < m
        &&& self.level >= 1
    }
}

/// Each of `ids` is one of `n` participants.
pub open spec fn all_among(ids: Seq<ParticipantId>, n: int) -> bool {
    forall|i: int| 0 <= i < ids.len() ==> (#[trigger] ids[i]) < n
}

impl HorizontalNotePositionView {
    /// Every participant that the position names is one of `n`.
    pub open spec fn among(self, n: int) -> bool {
        match self {
            HorizontalNotePositionView::LeftOf(p) => p < n,
            HorizontalNotePositionView::RightOf(p) => p < n,
            HorizontalNotePositionView::Over(ps) => all_among(ps, n),
        }
    }
}

impl NoteView {
    /// The note is note number `k`, and all it refers to exists among `n` participants,
    /// `m` messages and the notes before it.
    pub open spec fn wf(self, k: int, n: int, m: int) -> bool {
        &&& self.id == k
        &&& self.horizontal_position.among(n)
        &&& match self.vertical_position {
            VerticalNotePosition::First => true,
            VerticalNotePosition::AfterMessage(msg) => msg < m,
            VerticalNotePosition::AfterNote(note) => note < k,
        }
    }
}

/// No two of the participants have the same name.
pub open spec fn names_differ(participants: Seq<ParticipantView>) -> bool {
    forall|i: int, j: int|
        0 <= i < j < participants.len() ==> participants[i].name != participants[j].name
}

impl SequenceDiagramView {
    /// Each participant has its position as its id.
    pub open spec fn participants_numbered(self) -> bool {
        forall|i: int| 0 <= i < self.participants.len() ==> self.participants[i].id == i
    }

    /// Each message has its position as its id and its ends among the participants, the
    /// smaller on the left.
    pub open spec fn messages_wf(self) -> bool {
        forall|k: int|
            0 <= k < self.messages.len() ==> (#[trigger] self.messages[k]).wf(
                k,
                self.participants.len() as int,
            )
    }

    /// Each activation refers to a participant and to two messages that exist.
    pub open spec fn activations_wf(self) -> bool {
        forall|k: int|
            0 <= k < self.activations.len() ==> (#[trigger] self.activations[k]).wf(
                self.participants.len() as int,
                self.messages.len() as int,
            )
    }

    /// Each note has its position as its id and refers to what exists.
    pub open spec fn notes_wf(self) -> bool {
        forall|k: int|
            0 <= k < self.notes.len() ==> (#[trigger] self.notes[k]).wf(
                k,
                self.participants.len() as int,
                self.messages.len() as int,
            )
    }

    /// Ids are positions, names are distinct, every reference points at something that exists,
    /// messages have their smaller end on the left, and activations come innermost first.
    pub open spec fn wf(self) -> bool {
        &&& self.participants_numbered()
        &&& names_differ(self.participants)
        &&& self.messages_wf()
        &&& self.activations_wf()
        &&& levels_descend(self.activations)
        &&& self.notes_wf()
    }
}

/// Where each level is at least the next, the levels never increase.
proof fn lemma_levels_descend(activations: Seq<Activation>, i: int, j: int)
    requires
        forall|k: int|
            0 <= k && k + 1 < activations.len() ==> (#[trigger] activations[k]).level
                >= activations[k + 1].level,
        0 <= i <= j < activations.len(),
    ensures
        activations[i].level >= activations[j].level,
    decreases j - i,
{
    if i < j {
        lemma_levels_descend(activations, i + 1, j);
        assert(activations[i].level >= activations[i + 1].level);
    }
}

impl HorizontalNotePosition {
    /// Tells whether every participant that the position names is one of `n`.
    pub fn is_among(&self, n: usize) -> (yes: bool)
        ensures
            yes == self@.among(n as int),
    {
        match self {
            HorizontalNotePosition::LeftOf(p) => *p < n,
            HorizontalNotePosition::RightOf(p) => *p < n,
            HorizontalNotePosition::Over(ps) => {
                let mut i: usize = 0;
                while i < ps.len()
                    invariant
                        i <= ps.len(),
                        self@ == HorizontalNotePositionView::Over(ps@),
                        forall|k: int| 0 <= k < i ==> (#[trigger] ps@[k]) < n,
                    decreases ps.len() - i,
                {
                    if ps[i] >= n {
                        assert(!(ps@[i as int] < n));
                        return false;
                    }
                    i += 1;
                }
                true
            },
        }
    }
}

impl SequenceDiagram {
    fn has_numbered_participants(&self) -> (yes: bool)
        ensures
            yes == self@.participants_numbered(),
    {
        let mut i: usize = 0;
        while i < self.participants.len()
            invariant
                i <= self.participants.len(),
                forall|k: int| 0 <= k < i ==> self@.participants[k].id == k,
            decreases self.participants.len() - i,
        {
            if self.participants[i].id != i {
                assert(self@.participants[i as int].id != i);
                return false;
            }
            i += 1;
        }
        true
    }

    fn has_different_names(&self) -> (yes: bool)
        ensures
            yes == names_differ(self@.participants),
    {
        let mut j: usize = 0;
        while j < self.participants.len()
            invariant
                j <= self.participants.len(),
                forall|a: int, b: int|
                    0 <= a < b < j ==> self@.participants[a].name != self@.participants[b].name,
            decreases self.participants.len() - j,
        {
            let mut i: usize = 0;
            while i < j
                invariant
                    i <= j < self.participants.len(),
                    forall|a: int|
                        0 <= a < i ==> self@.participants[a].name != self@.participants[j as int].name,
                decreases j - i,
            {
                if self.participants[i].name == self.participants[j].name {
                    assert(self@.participants[i as int].name == self@.participants[j as int].name);
                    return false;
                }
                i += 1;
            }
            j += 1;
        }
        true
    }

    fn has_valid_messages(&self) -> (yes: bool)
        ensures
            yes == self@.messages_wf(),
    {
        let n = self.participants.len();
        let mut k: usize = 0;
        while k < self.messages.len()
            invariant
                k <= self.messages.len(),
                n == self@.participants.len(),
                forall|i: int| 0 <= i < k ==> (#[trigger] self@.messages[i]).wf(i, n as int),
            decreases self.messages.len() - k,
        {
            let message = &self.messages[k];
            assert(self@.messages[k as int] == message@);
            let ok = message.id == k && message.left <= message.right && message.right < n && (
            message.left != message.right || message.direction == ArrowDirection::ToRight);
            if !ok {
                assert(!self@.messages[k as int].wf(k as int, n as int));
                return false;
            }
            k += 1;
        }
        true
    }

    fn has_valid_activations(&self) -> (yes: bool)
        ensures
            yes == (self@.activations_wf() && levels_descend(self@.activations)),
    {
        let n = self.participants.len();
        let m = self.messages.len();
        let mut k: usize = 0;
        while k < self.activations.len()
            invariant
                k <= self.activations.len(),
                n == self@.participants.len(),
                m == self@.messages.len(),
                forall|i: int|
                    0 <= i < k ==> (#[trigger] self@.activations[i]).wf(n as int, m as int),
                forall|i: int|
                    0 <= i && i + 1 < k ==> (#[trigger] self@.activations[i]).level
                        >= self@.activations[i + 1].level,
            decreases self.activations.len() - k,
        {
            let a = self.activations[k];
            let ok = a.participant_id < n && a.from < a.to && a.to < m && a.level >= 1;
            if !ok {
                assert(!self@.activations[k as int].wf(n as int, m as int));
                return false;
            }
            if k > 0 && self.activations[k - 1].level < a.level {
                assert(self@.activations[k - 1].level < self@.activations[k as int].level);
                return false;
            }
            k += 1;
        }
        proof {
            assert forall|i: int, j: int| 0 <= i < j < self@.activations.len() implies self@.activations[i].level
                >= self@.activations[j].level by {
                lemma_levels_descend(self@.activations, i, j);
            }
        }
        true
    }

    fn has_valid_notes(&self) -> (yes: bool)
        ensures
            yes == self@.notes_wf(),
    {
        let n = self.participants.len();
        let m = self.messages.len();
        let mut k: usize = 0;
        while k < self.notes.len()
            invariant
                k <= self.notes.len(),
                n == self@.participants.len(),
                m == self@.messages.len(),
                forall|i: int| 0 <= i < k ==> (#[trigger] self@.notes[i]).wf(i, n as int, m as int),
            decreases self.notes.len() - k,
        {
            let note = &self.notes[k];
            assert(self@.notes[k as int] == note@);
            let placed = match note.vertical_position {
                VerticalNotePosition::First => true,
                VerticalNotePosition::AfterMessage(message) => message < m,
                VerticalNotePosition::AfterNote(earlier) => earlier < k,
            };
            let ok = note.id == k && placed && note.horizontal_position.is_among(n);
            if !ok {
                assert(!self@.notes[k as int].wf(k as int, n as int, m as int));
                return false;
            }
            k += 1;
        }
        true
    }

    /// Tells whether the diagram is well formed.
    pub fn is_well_formed(&self) -> (yes: bool)
        ensures
            yes == self@.wf(),
    {
        self.has_numbered_participants() && self.has_different_names()
            && self.has_valid_messages() && self.has_valid_activations() && self.has_valid_notes()
    }
}

} // verus!
