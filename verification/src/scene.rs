//! From a diagram to a scene: a block for every element that is drawn, and the constraints that
//! put each block in its place.
//!
//! Messages run downwards, one below the other. Each participant has a lifeline, a vertical
//! line; all lifelines begin and end at the same height. The block of a message lies between
//! the lifelines of its two ends. Activations sit on the lifeline of their participant, heads
//! and footers above and below it, and notes beside the lifelines or across them.

use crate::constraint::{
    lemma_value_of_fixed, lemma_value_of_one, lemma_value_of_two, satisfies, Constraint, ConstraintView, Expression,
    ExpressionView, Relation, Variable,
};
use crate::diagram::{
    all_among, Activation, ArrowDirection, HorizontalNotePosition, HorizontalNotePositionView, Message,
    MessageId, MessageView, NoteId, NoteView, Participant, ParticipantId,
    SequenceDiagram, SequenceDiagramView, VerticalNotePosition,
};
use crate::layout::{
    lemma_grows_on, lemma_reading, lemma_required_holds, same_variables,
    spacing, Block, BlockId, Change, Layout, LayoutView, Orientation,
};
use crate::metrics::{lines_text, wrapped, FontMetrics, FontMetricsView, Length};
use vstd::prelude::*;

verus! {

/// What a drawing is made with: where texts are broken, how large they are set, and the spaces
/// between and around things. Lengths are in layout units.
#[derive(PartialEq, Eq, Structural, Debug, Clone, Copy)]
pub struct SvgConfig {
    /// The column at which the text of a head, a footer or a note is broken.
    pub max_participant_head_length: usize,
    /// The column at which the label of a message is broken.
    pub max_msg_label_length: usize,
    /// The space between one message and the next, and between a note and a lifeline.
    pub msg_gutter: u32,
    /// The size of the font in which texts are drawn.
    pub font_size: u16,
    /// The space between the text of a block and its edge.
    pub padding: u32,
    /// By how much the font size is multiplied where texts are measured, in hundredths.
    pub font_scale_factor: u16,
    /// The radius of the corners of heads, footers and notes.
    pub corner_radius: u32,
}

impl SvgConfig {
    /// The usual configuration: heads, footers and notes are broken at column 5 and labels at
    /// column 60; the font has size 10 and is measured 1.2 times as large; the gutter is 20,
    /// the padding 5, and the corners have the radius 2.
    pub open spec fn usual() -> SvgConfig {
        SvgConfig {
            max_participant_head_length: 5,
            max_msg_label_length: 60,
            msg_gutter: 20,
            font_size: 10,
            padding: 5,
            font_scale_factor: 120,
            corner_radius: 2,
        }
    }

    /// The pixel size at which texts are measured: the font size times the scale factor,
    /// rounded down, and 65535 at most.
    pub open spec fn measured_size(self) -> u16 {
        let scaled = self.font_size * self.font_scale_factor / 100;
        if scaled > 65535 {
            65535
        } else {
            scaled as u16
        }
    }

    /// The pixel size at which texts are measured.
    pub fn pixel_size(&self) -> (size: u16)
        ensures
            size == self.measured_size(),
    {
        assert(self.font_size * self.font_scale_factor <= 65535 * 65535) by (nonlinear_arith)
            requires
                0 <= self.font_size <= 65535,
                0 <= self.font_scale_factor <= 65535,
        ;
        let scaled: u64 = (self.font_size as u64) * (self.font_scale_factor as u64) / 100;
        if scaled > 65535 {
            65535
        } else {
            scaled as u16
        }
    }
}

impl Default for SvgConfig {
    /// The usual configuration.
    fn default() -> (config: SvgConfig)
        ensures
            config == SvgConfig::usual(),
    {
        SvgConfig {
            max_participant_head_length: 5,
            max_msg_label_length: 60,
            msg_gutter: 20,
            font_size: 10,
            padding: 5,
            font_scale_factor: 120,
            corner_radius: 2,
        }
    }
}

/// The head or the footer of a participant: its text, line by line, and its block.
#[derive(PartialEq, Debug)]
pub struct ParticipantMarker {
    pub lines: Vec<String>,
    pub block_id: BlockId,
}

/// The lifeline of a participant.
#[derive(PartialEq, Eq, Structural, Debug, Clone, Copy)]
pub struct ParticipantLine {
    pub block: BlockId,
    pub participant_id: ParticipantId,
}

/// The arrow of a message with its label, line by line.
#[derive(PartialEq, Debug)]
pub struct MsgArrow {
    pub msg_id: MessageId,
    pub label: Vec<String>,
    pub direction: ArrowDirection,
    pub left: ParticipantId,
    pub right: ParticipantId,
    pub block: BlockId,
}

/// The rectangle of an activation.
#[derive(PartialEq, Eq, Structural, Debug, Clone, Copy)]
pub struct ActivationMarker {
    pub block: BlockId,
}

/// The box of a note with its text, line by line.
#[derive(PartialEq, Debug)]
pub struct NoteMarker {
    pub id: NoteId,
    pub block_id: BlockId,
    pub lines: Vec<String>,
}

// ---------------------------------------------------------------------------------------------
// What the constraints of a scene say
// ---------------------------------------------------------------------------------------------
/// `a` and `b` have to be equal.
pub open spec fn equal(a: ExpressionView, b: ExpressionView) -> ConstraintView {
    ConstraintView::required(a, Relation::Equal, b)
}

/// Arrow `k + 1` begins at least `gutter` below the end of arrow `k`.
pub open spec fn below(l: LayoutView, arrows: Seq<Block>, gutter: u32, k: int) -> bool {
    l.has(spacing(Orientation::Vertical, gutter, arrows[k], arrows[k + 1]))
}

/// Each arrow begins at least `gutter` below the end of the one before it.
pub open spec fn stacked(l: LayoutView, arrows: Seq<Block>, gutter: u32) -> bool {
    forall|k: int| 0 <= k && k + 1 < arrows.len() ==> #[trigger] below(l, arrows, gutter, k)
}

/// Participant `p` is an end of the message.
pub open spec fn touches(message: MessageView, p: ParticipantId) -> bool {
    message.left == p || message.right == p
}

/// The first message at or after `from` that has `p` as an end; the number of messages if
/// there is none.
pub open spec fn first_touch(messages: Seq<MessageView>, p: ParticipantId, from: int) -> int
    decreases messages.len() - from,
{
    if 0 <= from < messages.len() && !touches(messages[from], p) {
        first_touch(messages, p, from + 1)
    } else {
        from
    }
}

/// The edge of the block of a message on the side of its end `p`: the left edge where `p` is
/// the left end, the right edge else.
pub open spec fn edge(message: MessageView, block: Block, p: ParticipantId) -> ExpressionView {
    if message.left == p {
        ExpressionView::of(block.x)
    } else {
        block.right_view()
    }
}

/// Every arrow that has `p` as an end, but the first, has its edge on the side of `p` where
/// the first has it.
pub open spec fn gridded(
    l: LayoutView,
    messages: Seq<MessageView>,
    arrows: Seq<Block>,
    p: ParticipantId,
) -> bool {
    let first = first_touch(messages, p, 0);
    forall|k: int|
        first < k < messages.len() && touches(#[trigger] messages[k], p) ==> l.has(
            equal(edge(messages[k], arrows[k], p), edge(messages[first], arrows[first], p)),
        )
}

/// The first arrow that has `p` as an end has its edge on the side of `p` on the lifeline of
/// `p`.
pub open spec fn anchored(
    l: LayoutView,
    messages: Seq<MessageView>,
    arrows: Seq<Block>,
    lifeline: Block,
    p: ParticipantId,
) -> bool {
    let first = first_touch(messages, p, 0);
    first < messages.len() ==> l.has(
        equal(edge(messages[first], arrows[first], p), ExpressionView::of(lifeline.x)),
    )
}

/// `lower` begins at the height at which `upper` begins.
pub open spec fn same_top(lower: Block, upper: Block) -> ConstraintView {
    equal(ExpressionView::of(lower.y), ExpressionView::of(upper.y))
}

/// `lower` ends at the height at which `upper` ends.
pub open spec fn same_bottom(lower: Block, upper: Block) -> ConstraintView {
    equal(lower.bottom_view(), upper.bottom_view())
}

/// Lifeline `p` begins and ends at the height at which the one before it does.
pub open spec fn level_with_previous(l: LayoutView, lifelines: Seq<Block>, p: int) -> bool {
    l.has(same_top(lifelines[p], lifelines[p - 1])) && l.has(
        same_bottom(lifelines[p], lifelines[p - 1]),
    )
}

/// Every lifeline but the first begins and ends at the height at which the one before it does.
pub open spec fn levelled(l: LayoutView, lifelines: Seq<Block>) -> bool {
    forall|p: int| 1 <= p < lifelines.len() ==> #[trigger] level_with_previous(l, lifelines, p)
}

/// The lifeline begins `gutter` above the first arrow.
pub open spec fn hangs_top(lifeline: Block, arrows: Seq<Block>, gutter: u32) -> ConstraintView {
    equal(
        ExpressionView::of(lifeline.y),
        ExpressionView::of_one(1, arrows[0].y, (-(gutter as Length)) as Length),
    )
}

/// The lifeline ends `gutter` below the last arrow or lower.
pub open spec fn hangs_bottom(lifeline: Block, arrows: Seq<Block>, gutter: u32) -> ConstraintView {
    ConstraintView::required(
        lifeline.bottom_view(),
        Relation::GreaterOrEqual,
        ExpressionView::of_two(1, arrows.last().y, 1, arrows.last().height, gutter as Length),
    )
}

/// The lifeline has no extent downwards.
pub open spec fn flat(lifeline: Block) -> ConstraintView {
    equal(ExpressionView::of(lifeline.height), ExpressionView::fixed(0))
}

/// Where there are arrows, every lifeline begins `gutter` above the first arrow and ends
/// `gutter` below the last one or lower; where there is none, every lifeline has no extent.
pub open spec fn hung(l: LayoutView, lifelines: Seq<Block>, arrows: Seq<Block>, gutter: u32) -> bool {
    if arrows.len() > 0 {
        forall|p: int|
            0 <= p < lifelines.len() ==> l.has(hangs_top(#[trigger] lifelines[p], arrows, gutter))
                && l.has(hangs_bottom(lifelines[p], arrows, gutter))
    } else {
        forall|p: int| 0 <= p < lifelines.len() ==> l.has(flat(#[trigger] lifelines[p]))
    }
}

proof fn lemma_levelled_on(before: LayoutView, after: LayoutView, lifelines: Seq<Block>)
    requires
        before.keeps(after),
        levelled(before, lifelines),
    ensures
        levelled(after, lifelines),
{
    assert forall|p: int| 1 <= p < lifelines.len() implies #[trigger] level_with_previous(
        after,
        lifelines,
        p,
    ) by {
        assert(level_with_previous(before, lifelines, p));
    }
}

proof fn lemma_levelled_push(l: LayoutView, lifelines: Seq<Block>, next: Block)
    requires
        levelled(l, lifelines),
        lifelines.len() > 0 ==> l.has(same_top(next, lifelines.last())) && l.has(
            same_bottom(next, lifelines.last()),
        ),
    ensures
        levelled(l, lifelines.push(next)),
{
    let more = lifelines.push(next);
    assert forall|p: int| 1 <= p < more.len() implies #[trigger] level_with_previous(
        l,
        more,
        p,
    ) by {
        if p < lifelines.len() {
            assert(level_with_previous(l, lifelines, p));
        }
    }
}

proof fn lemma_hung_on(
    before: LayoutView,
    after: LayoutView,
    lifelines: Seq<Block>,
    arrows: Seq<Block>,
    gutter: u32,
)
    requires
        before.keeps(after),
        hung(before, lifelines, arrows, gutter),
    ensures
        hung(after, lifelines, arrows, gutter),
{
    if arrows.len() > 0 {
        assert forall|p: int| 0 <= p < lifelines.len() implies after.has(
            hangs_top(#[trigger] lifelines[p], arrows, gutter),
        ) && after.has(hangs_bottom(lifelines[p], arrows, gutter)) by {
            assert(before.has(hangs_top(lifelines[p], arrows, gutter)));
            assert(before.has(hangs_bottom(lifelines[p], arrows, gutter)));
        }
    } else {
        assert forall|p: int| 0 <= p < lifelines.len() implies after.has(
            flat(#[trigger] lifelines[p]),
        ) by {
            assert(before.has(flat(lifelines[p])));
        }
    }
}

proof fn lemma_hung_push(
    l: LayoutView,
    lifelines: Seq<Block>,
    next: Block,
    arrows: Seq<Block>,
    gutter: u32,
)
    requires
        hung(l, lifelines, arrows, gutter),
        arrows.len() > 0 ==> l.has(hangs_top(next, arrows, gutter)) && l.has(
            hangs_bottom(next, arrows, gutter),
        ),
        arrows.len() == 0 ==> l.has(flat(next)),
    ensures
        hung(l, lifelines.push(next), arrows, gutter),
{
    let more = lifelines.push(next);
    if arrows.len() > 0 {
        assert forall|p: int| 0 <= p < more.len() implies l.has(
            hangs_top(#[trigger] more[p], arrows, gutter),
        ) && l.has(hangs_bottom(more[p], arrows, gutter)) by {
            if p < lifelines.len() {
                assert(l.has(hangs_top(lifelines[p], arrows, gutter)));
                assert(l.has(hangs_bottom(lifelines[p], arrows, gutter)));
            }
        }
    } else {
        assert forall|p: int| 0 <= p < more.len() implies l.has(flat(#[trigger] more[p])) by {
            if p < lifelines.len() {
                assert(l.has(flat(lifelines[p])));
            }
        }
    }
}

proof fn lemma_first_touch(messages: Seq<MessageView>, p: ParticipantId, from: int)
    requires
        0 <= from <= messages.len(),
    ensures
        from <= first_touch(messages, p, from) <= messages.len(),
        first_touch(messages, p, from) < messages.len() ==> touches(
            messages[first_touch(messages, p, from)],
            p,
        ),
        forall|k: int| from <= k < first_touch(messages, p, from) ==> !touches(messages[k], p),
    decreases messages.len() - from,
{
    if from < messages.len() && !touches(messages[from], p) {
        lemma_first_touch(messages, p, from + 1);
    }
}

// ---------------------------------------------------------------------------------------------
// Arrows
// ---------------------------------------------------------------------------------------------
/// The arrow is that of message `message`, its label broken at column `max_length`.
pub open spec fn arrow_of(arrow: MsgArrow, message: MessageView, max_length: usize) -> bool {
    &&& arrow.msg_id == message.id
    &&& arrow.left == message.left
    &&& arrow.right == message.right
    &&& arrow.direction == message.direction
    &&& lines_text(arrow.label@) == wrapped(message.msg, max_length)
}

/// The blocks that `l` holds under the ids `ids`.
pub open spec fn held(l: LayoutView, ids: Seq<BlockId>, blocks: Seq<Block>) -> bool {
    &&& ids.len() == blocks.len()
    &&& forall|k: int| 0 <= k < ids.len() ==> l.holds(#[trigger] ids[k], blocks[k])
}

/// The ids of the blocks of `arrows`.
pub open spec fn arrow_ids(arrows: Seq<MsgArrow>) -> Seq<BlockId> {
    Seq::new(arrows.len(), |k: int| arrows[k].block)
}

/// Every block of `blocks` is a block for the text of the same position in `texts`, broken at
/// column `max_length`.
pub open spec fn texts_held(
    l: LayoutView,
    ids: Seq<BlockId>,
    blocks: Seq<Block>,
    texts: Seq<Seq<char>>,
    max_length: usize,
    config: SvgConfig,
) -> bool {
    &&& ids.len() == blocks.len()
    &&& ids.len() == texts.len()
    &&& forall|k: int|
        0 <= k < ids.len() ==> l.holds_text(
            #[trigger] ids[k],
            blocks[k],
            wrapped(texts[k], max_length),
            config.padding,
            config.measured_size(),
        )
}

/// The labels of the messages.
pub open spec fn labels(messages: Seq<MessageView>) -> Seq<Seq<char>> {
    Seq::new(messages.len(), |k: int| messages[k].msg)
}

/// Where only constraints, variables and blocks were added, text blocks stay text blocks.
proof fn lemma_texts_held_on(
    before: LayoutView,
    after: LayoutView,
    ids: Seq<BlockId>,
    blocks: Seq<Block>,
    texts: Seq<Seq<char>>,
    max_length: usize,
    config: SvgConfig,
)
    requires
        before.grows_to(after),
        texts_held(before, ids, blocks, texts, max_length, config),
    ensures
        texts_held(after, ids, blocks, texts, max_length, config),
        held(after, ids, blocks),
{
    assert forall|k: int| 0 <= k < ids.len() implies after.holds_text(
        #[trigger] ids[k],
        blocks[k],
        wrapped(texts[k], max_length),
        config.padding,
        config.measured_size(),
    ) by {
        assert(before.holds_text(
            ids[k],
            blocks[k],
            wrapped(texts[k], max_length),
            config.padding,
            config.measured_size(),
        ));
        assert(after.blocks[ids[k] as int] == before.blocks[ids[k] as int]);
    }
}

/// One more text block.
proof fn lemma_texts_held_push(
    l: LayoutView,
    ids: Seq<BlockId>,
    blocks: Seq<Block>,
    texts: Seq<Seq<char>>,
    id: BlockId,
    block: Block,
    text: Seq<char>,
    max_length: usize,
    config: SvgConfig,
)
    requires
        texts_held(l, ids, blocks, texts, max_length, config),
        l.holds_text(
            id,
            block,
            wrapped(text, max_length),
            config.padding,
            config.measured_size(),
        ),
    ensures
        texts_held(l, ids.push(id), blocks.push(block), texts.push(text), max_length, config),
{
    let more = ids.push(id);
    assert forall|k: int| 0 <= k < more.len() implies l.holds_text(
        #[trigger] more[k],
        blocks.push(block)[k],
        wrapped(texts.push(text)[k], max_length),
        config.padding,
        config.measured_size(),
    ) by {
        if k < ids.len() {
            assert(l.holds_text(
                ids[k],
                blocks[k],
                wrapped(texts[k], max_length),
                config.padding,
                config.measured_size(),
            ));
        }
    }
}

/// A text block stays one where only constraints, variables and blocks were added.
proof fn lemma_holds_text_on(
    before: LayoutView,
    after: LayoutView,
    id: BlockId,
    block: Block,
    lines: Seq<Seq<char>>,
    padding: u32,
    pixel_size: u16,
)
    requires
        before.grows_to(after),
        before.holds_text(id, block, lines, padding, pixel_size),
    ensures
        after.holds_text(id, block, lines, padding, pixel_size),
{
    assert(after.blocks[id as int] == before.blocks[id as int]);
}

/// One more pair of head and footer.
proof fn lemma_crowned_push(
    l: LayoutView,
    heads: Seq<Block>,
    footers: Seq<Block>,
    lifelines: Seq<Block>,
    head: Block,
    footer: Block,
    lifeline: Block,
)
    requires
        crowned(l, heads, footers, lifelines),
        crowns(l, head, footer, lifeline),
    ensures
        crowned(l, heads.push(head), footers.push(footer), lifelines.push(lifeline)),
{
    let more = lifelines.push(lifeline);
    assert forall|p: int| 0 <= p < more.len() implies #[trigger] crowns(
        l,
        heads.push(head)[p],
        footers.push(footer)[p],
        more[p],
    ) by {
        if p < lifelines.len() {
            assert(crowns(l, heads[p], footers[p], lifelines[p]));
        }
    }
}

/// Where only constraints, variables and blocks were added, the blocks held stay held.
proof fn lemma_held_on(before: LayoutView, after: LayoutView, ids: Seq<BlockId>, blocks: Seq<Block>)
    requires
        before.grows_to(after),
        held(before, ids, blocks),
    ensures
        held(after, ids, blocks),
{
    assert forall|k: int| 0 <= k < ids.len() implies after.holds(#[trigger] ids[k], blocks[k]) by {
        assert(before.holds(ids[k], blocks[k]));
        assert(after.blocks[ids[k] as int] == before.blocks[ids[k] as int]);
    }
}

/// The layout with a text block for the label of each of the first `k` messages.
pub open spec fn with_arrows(l: LayoutView, messages: Seq<MessageView>, c: SvgConfig, k: int) -> LayoutView
    decreases k,
{
    if k <= 0 {
        l
    } else {
        with_arrows(l, messages, c, k - 1).with_text_block(
            wrapped(messages[k - 1].msg, c.max_msg_label_length),
            c.padding,
            c.measured_size(),
        )
    }
}

/// The ids are `first` and the numbers behind it, in order.
pub open spec fn counted(ids: Seq<BlockId>, first: int) -> bool {
    forall|k: int| 0 <= k < ids.len() ==> (#[trigger] ids[k]) == first + k
}

/// Adds a text block for the label of every message.
fn add_arrows(layout: &mut Layout, diagram: &SequenceDiagram, config: &SvgConfig) -> (added: (
    Vec<MsgArrow>,
    Vec<Block>,
))
    requires
        old(layout)@.wf(),
    ensures
        final(layout)@.wf(),
        old(layout)@.confines_all() ==> final(layout)@.confines_all(),
        old(layout)@.grows_to(final(layout)@),
        final(layout)@ == with_arrows(
            old(layout)@,
            diagram@.messages,
            *config,
            diagram@.messages.len() as int,
        ),
        counted(arrow_ids(added.0@), old(layout)@.blocks.len() as int),
        added.0@.len() == diagram@.messages.len(),
        final(layout)@.blocks.len() == old(layout)@.blocks.len() + diagram@.messages.len(),
        forall|k: int|
            0 <= k < added.0@.len() ==> arrow_of(
                #[trigger] added.0@[k],
                diagram@.messages[k],
                config.max_msg_label_length,
            ),
        texts_held(
            final(layout)@,
            arrow_ids(added.0@),
            added.1@,
            labels(diagram@.messages),
            config.max_msg_label_length,
            *config,
        ),
{
    let mut arrows: Vec<MsgArrow> = Vec::new();
    let mut blocks: Vec<Block> = Vec::new();
    let pixel_size = config.pixel_size();
    let mut k: usize = 0;
    proof {
        lemma_grows_on(old(layout)@, layout@, layout@);
    }
    while k < diagram.messages.len()
        invariant
            k <= diagram.messages.len(),
            pixel_size == config.measured_size(),
            layout@.wf(),
            old(layout)@.confines_all() ==> layout@.confines_all(),
            old(layout)@.grows_to(layout@),
            layout@ == with_arrows(old(layout)@, diagram@.messages, *config, k as int),
            layout@.blocks.len() == old(layout)@.blocks.len() + k,
            counted(arrow_ids(arrows@), old(layout)@.blocks.len() as int),
            arrows@.len() == k,
            forall|j: int|
                0 <= j < k ==> arrow_of(
                    #[trigger] arrows@[j],
                    diagram@.messages[j],
                    config.max_msg_label_length,
                ),
            texts_held(
                layout@,
                arrow_ids(arrows@),
                blocks@,
                labels(diagram@.messages).take(k as int),
                config.max_msg_label_length,
                *config,
            ),
        decreases diagram.messages.len() - k,
    {
        let ghost before = layout@;
        let ghost ids = arrow_ids(arrows@);
        let ghost frames = blocks@;
        let message = &diagram.messages[k];
        assert(diagram@.messages[k as int] == message@);
        let (block, lines) = layout.add_text_block(
            &message.msg,
            config.max_msg_label_length,
            config.padding,
            pixel_size,
        );
        let frame = *layout.b(block);
        arrows.push(
            MsgArrow {
                msg_id: message.id,
                block,
                label: lines,
                direction: message.direction,
                left: message.left,
                right: message.right,
            },
        );
        blocks.push(frame);
        proof {
            lemma_grows_on(old(layout)@, before, layout@);
            lemma_texts_held_on(
                before,
                layout@,
                ids,
                frames,
                labels(diagram@.messages).take(k as int),
                config.max_msg_label_length,
                *config,
            );
            assert(arrow_ids(arrows@) == ids.push(block));
            assert(labels(diagram@.messages).take(k + 1) == labels(diagram@.messages).take(
                k as int,
            ).push(message@.msg));
        }
        k += 1;
    }
    assert(labels(diagram@.messages).take(k as int) == labels(diagram@.messages));
    (arrows, blocks)
}

/// For every arrow but the last, that the next begins at least `gutter` below its end.
pub open spec fn stacking(arrows: Seq<Block>, gutter: u32) -> Seq<ConstraintView> {
    Seq::new(
        crate::layout::neighbours(arrows.len()),
        |k: int| spacing(Orientation::Vertical, gutter, arrows[k], arrows[k + 1]),
    )
}

/// Puts the arrows one below the other.
fn stack_arrows(
    layout: &mut Layout,
    arrows: &Vec<MsgArrow>,
    Ghost(frames): Ghost<Seq<Block>>,
    gutter: u32,
)
    requires
        old(layout)@.wf(),
        held(old(layout)@, arrow_ids(arrows@), frames),
    ensures
        final(layout)@.wf(),
        old(layout)@.confines_all() ==> final(layout)@.confines_all(),
        old(layout)@.grows_to(final(layout)@),
        final(layout)@ == old(layout)@.with_constraints(stacking(frames, gutter)),
        final(layout)@.blocks == old(layout)@.blocks,
        stacked(final(layout)@, frames, gutter),
{
    let mut ids: Vec<BlockId> = Vec::new();
    let mut k: usize = 0;
    while k < arrows.len()
        invariant
            k <= arrows.len(),
            ids@ == arrow_ids(arrows@).take(k as int),
        decreases arrows.len() - k,
    {
        ids.push(arrows[k].block);
        assert(arrow_ids(arrows@).take(k + 1) == arrow_ids(arrows@).take(k as int).push(
            arrows@[k as int].block,
        ));
        k += 1;
    }
    assert(arrow_ids(arrows@).take(k as int) == arrow_ids(arrows@));
    assert forall|j: int| 0 <= j < ids@.len() implies ids@[j] < layout@.blocks.len() by {
        assert(layout@.holds(arrow_ids(arrows@)[j], frames[j]));
    }
    layout.distribute(Orientation::Vertical, gutter, &ids);
    proof {
        let all = crate::layout::distribution(
            old(layout)@.blocks,
            ids@,
            Orientation::Vertical,
            gutter,
        );
        let before = old(layout)@.constraints.len() as int;
        assert(all =~= stacking(frames, gutter)) by {
            assert forall|j: int| 0 <= j < all.len() implies all[j] == stacking(frames, gutter)[j] by {
                assert(old(layout)@.holds(arrow_ids(arrows@)[j], frames[j]));
                assert(old(layout)@.holds(arrow_ids(arrows@)[j + 1], frames[j + 1]));
            }
        }
        assert forall|j: int| 0 <= j && j + 1 < frames.len() implies #[trigger] below(
            layout@,
            frames,
            gutter,
            j,
        ) by {
            assert(old(layout)@.holds(arrow_ids(arrows@)[j], frames[j]));
            assert(old(layout)@.holds(arrow_ids(arrows@)[j + 1], frames[j + 1]));
            assert(layout@.constraints[before + j] == all[j]);
        }
    }
}

/// The edge of the block of `message` on the side of its end `p`.
fn edge_of(message: &Message, block: &Block, p: ParticipantId) -> (e: Expression)
    ensures
        e@ == edge(message@, *block, p),
{
    if message.left == p {
        Expression::variable(block.x)
    } else {
        block.right()
    }
}

/// The layout once message `k` has been looked at for participant `p`: if `p` is an end of
/// it, and of an earlier message, its arrow is lined up with the first arrow of `p`.
pub open spec fn grid_step(
    l: LayoutView,
    messages: Seq<MessageView>,
    arrows: Seq<Block>,
    p: ParticipantId,
    k: int,
) -> LayoutView {
    let first = first_touch(messages, p, 0);
    if touches(messages[k], p) && first < k {
        l.with_constraint(
            equal(edge(messages[k], arrows[k], p), edge(messages[first], arrows[first], p)),
        )
    } else {
        l
    }
}

/// The layout once the first `k` messages have been looked at for participant `p`.
pub open spec fn gridded_for_upto(
    l: LayoutView,
    messages: Seq<MessageView>,
    arrows: Seq<Block>,
    p: ParticipantId,
    k: int,
) -> LayoutView
    decreases k,
{
    if k <= 0 {
        l
    } else {
        grid_step(gridded_for_upto(l, messages, arrows, p, k - 1), messages, arrows, p, k - 1)
    }
}

/// The layout once the arrows of the first `n` participants are lined up.
pub open spec fn gridded_upto(
    l: LayoutView,
    messages: Seq<MessageView>,
    arrows: Seq<Block>,
    n: int,
) -> LayoutView
    decreases n,
{
    if n <= 0 {
        l
    } else {
        gridded_for_upto(
            gridded_upto(l, messages, arrows, n - 1),
            messages,
            arrows,
            (n - 1) as usize,
            messages.len() as int,
        )
    }
}

/// Lines up the arrows of each participant: all have their edge on its side where the first of
/// them has it.
fn grid_arrows(layout: &mut Layout, diagram: &SequenceDiagram, frames: &Vec<Block>)
    requires
        old(layout)@.wf(),
        frames@.len() == diagram@.messages.len(),
    ensures
        final(layout)@.wf(),
        old(layout)@.confines_all() ==> final(layout)@.confines_all(),
        old(layout)@.grows_to(final(layout)@),
        final(layout)@ == gridded_upto(
            old(layout)@,
            diagram@.messages,
            frames@,
            diagram@.participants.len() as int,
        ),
        final(layout)@.blocks == old(layout)@.blocks,
        forall|p: ParticipantId|
            p < diagram@.participants.len() ==> #[trigger] gridded(
                final(layout)@,
                diagram@.messages,
                frames@,
                p,
            ),
{
    let ghost messages = diagram@.messages;
    let mut p: usize = 0;
    proof {
        lemma_grows_on(old(layout)@, layout@, layout@);
    }
    while p < diagram.participants.len()
        invariant
            p <= diagram.participants.len(),
            messages == diagram@.messages,
            frames@.len() == messages.len(),
            layout@.wf(),
            old(layout)@.confines_all() ==> layout@.confines_all(),
            old(layout)@.grows_to(layout@),
            layout@ == gridded_upto(old(layout)@, messages, frames@, p as int),
            layout@.blocks == old(layout)@.blocks,
            forall|q: ParticipantId| q < p ==> #[trigger] gridded(layout@, messages, frames@, q),
        decreases diagram.participants.len() - p,
    {
        let ghost entered = layout@;
        let mut first: Option<usize> = None;
        let mut k: usize = 0;
        proof {
            lemma_grows_on(entered, layout@, layout@);
            lemma_first_touch(messages, p, 0);
        }
        while k < diagram.messages.len()
            invariant
                k <= diagram.messages.len(),
                messages == diagram@.messages,
                frames@.len() == messages.len(),
                layout@.wf(),
                entered.confines_all() ==> layout@.confines_all(),
                entered.grows_to(layout@),
                layout@ == gridded_for_upto(entered, messages, frames@, p, k as int),
                layout@.blocks == entered.blocks,
                match first {
                    None => first_touch(messages, p, 0) == first_touch(messages, p, k as int),
                    Some(anchor) => anchor < k && anchor == first_touch(messages, p, 0),
                },
                forall|j: int|
                    0 <= j < k && first_touch(messages, p, 0) < j && touches(
                        #[trigger] messages[j],
                        p,
                    ) ==> layout@.has(
                        equal(
                            edge(messages[j], frames@[j], p),
                            edge(
                                messages[first_touch(messages, p, 0)],
                                frames@[first_touch(messages, p, 0)],
                                p,
                            ),
                        ),
                    ),
            decreases diagram.messages.len() - k,
        {
            let ghost before = layout@;
            let message = &diagram.messages[k];
            assert(messages[k as int] == message@);
            if message.left == p || message.right == p {
                match first {
                    None => {
                        first = Some(k);
                    },
                    Some(anchor) => {
                        assert(messages[anchor as int] == diagram.messages@[anchor as int]@);
                        layout.add_constraint(
                            Constraint::required(
                                edge_of(message, &frames[k], p),
                                Relation::Equal,
                                edge_of(&diagram.messages[anchor], &frames[anchor], p),
                            ),
                        );
                        proof {
                            lemma_grows_on(entered, before, layout@);
                        }
                    },
                }
            }
            k += 1;
        }
        proof {
            lemma_grows_on(old(layout)@, entered, layout@);
            assert forall|q: ParticipantId| q < p + 1 implies #[trigger] gridded(
                layout@,
                messages,
                frames@,
                q,
            ) by {
                if q < p {
                    assert(gridded(entered, messages, frames@, q));
                }
            }
        }
        p += 1;
    }
}

/// The ids of the blocks of `lifelines`.
pub open spec fn lifeline_ids(lifelines: Seq<ParticipantLine>) -> Seq<BlockId> {
    Seq::new(lifelines.len(), |p: int| lifelines[p].block)
}

/// The layout with one more lifeline, the one of participant `p`: a free block, hung between
/// the first and the last arrow where there are arrows and without extent where there is none,
/// and level with the lifeline before it, which is the last block so far, where it is not the
/// first.
pub open spec fn with_lifeline(l: LayoutView, arrows: Seq<Block>, gutter: u32, p: int) -> LayoutView {
    let lifeline = crate::layout::fresh_block(l.vars.len() as int, 0);
    let added = l.with_block(0);
    let hanging = if arrows.len() > 0 {
        added.with_constraint(hangs_top(lifeline, arrows, gutter)).with_constraint(
            hangs_bottom(lifeline, arrows, gutter),
        )
    } else {
        added.with_constraint(flat(lifeline))
    };
    if p > 0 {
        hanging.with_constraint(same_top(lifeline, l.blocks.last())).with_constraint(
            same_bottom(lifeline, l.blocks.last()),
        )
    } else {
        hanging
    }
}

/// The layout with the lifelines of the first `n` participants.
pub open spec fn with_lifelines(l: LayoutView, arrows: Seq<Block>, gutter: u32, n: int) -> LayoutView
    decreases n,
{
    if n <= 0 {
        l
    } else {
        with_lifeline(with_lifelines(l, arrows, gutter, n - 1), arrows, gutter, n - 1)
    }
}

/// The lifelines are those of `n` participants, and they are in place.
#[verifier::opaque]
spec fn lifelines_placed(
    l: LayoutView,
    n: nat,
    lifelines: Seq<ParticipantLine>,
    frames: Seq<Block>,
    arrows: Seq<Block>,
    gutter: u32,
) -> bool {
    &&& lifelines_of(lifelines, n)
    &&& held(l, lifeline_ids(lifelines), frames)
    &&& levelled(l, frames)
    &&& hung(l, frames, arrows, gutter)
}

proof fn lemma_lifelines_placed_on(
    before: LayoutView,
    after: LayoutView,
    n: nat,
    lifelines: Seq<ParticipantLine>,
    frames: Seq<Block>,
    arrows: Seq<Block>,
    gutter: u32,
)
    requires
        before.grows_to(after),
        lifelines_placed(before, n, lifelines, frames, arrows, gutter),
    ensures
        lifelines_placed(after, n, lifelines, frames, arrows, gutter),
{
    reveal(lifelines_placed);
    lemma_held_on(before, after, lifeline_ids(lifelines), frames);
    lemma_levelled_on(before, after, frames);
    lemma_hung_on(before, after, frames, arrows, gutter);
}

/// Adds a lifeline for each of `n` participants: a free block, hung between the first and the
/// last of the arrows `arrows` where there are any and without extent where there is none, and
/// level with the lifeline before it.
fn add_lifelines(layout: &mut Layout, n: usize, arrows: &Vec<Block>, gutter: u32) -> (added: (
    Vec<ParticipantLine>,
    Vec<Block>,
))
    requires
        old(layout)@.wf(),
    ensures
        final(layout)@.wf(),
        old(layout)@.confines_all() ==> final(layout)@.confines_all(),
        old(layout)@.grows_to(final(layout)@),
        final(layout)@ == with_lifelines(old(layout)@, arrows@, gutter, n as int),
        counted(lifeline_ids(added.0@), old(layout)@.blocks.len() as int),
        added.0@.len() == n,
        added.1@.len() == n,
        final(layout)@.blocks.len() == old(layout)@.blocks.len() + n,
        added.1@ == final(layout)@.blocks.subrange(
            old(layout)@.blocks.len() as int,
            (old(layout)@.blocks.len() + n) as int,
        ),
        lifelines_placed(final(layout)@, n as nat, added.0@, added.1@, arrows@, gutter),
{
    let mut lifelines: Vec<ParticipantLine> = Vec::new();
    let mut frames: Vec<Block> = Vec::new();
    let mut p: usize = 0;
    proof {
        lemma_grows_on(old(layout)@, layout@, layout@);
    }
    while p < n
        invariant
            p <= n,
            layout@.wf(),
            old(layout)@.confines_all() ==> layout@.confines_all(),
            old(layout)@.grows_to(layout@),
            layout@ == with_lifelines(old(layout)@, arrows@, gutter, p as int),
            layout@.blocks.len() == old(layout)@.blocks.len() + p,
            counted(lifeline_ids(lifelines@), old(layout)@.blocks.len() as int),
            frames@.len() == p,
            p > 0 ==> frames@.last() == layout@.blocks.last(),
            lifelines@.len() == p,
            forall|q: int| 0 <= q < p ==> (#[trigger] lifelines@[q]).participant_id == q,
            held(layout@, lifeline_ids(lifelines@), frames@),
            levelled(layout@, frames@),
            hung(layout@, frames@, arrows@, gutter),
        decreases n - p,
    {
        let ghost entered = layout@;
        let ghost ids = lifeline_ids(lifelines@);
        let ghost so_far = frames@;
        let id = layout.add_block();
        let frame = *layout.b(id);
        let ghost added = layout@;
        if arrows.len() > 0 {
            let first = arrows[0];
            let last = arrows[arrows.len() - 1];
            layout.add_constraint(
                Constraint::required(
                    Expression::variable(frame.y),
                    Relation::Equal,
                    Expression::one(1, first.y, -(gutter as i128)),
                ),
            );
            layout.add_constraint(
                Constraint::required(
                    frame.bottom(),
                    Relation::GreaterOrEqual,
                    Expression::two(1, last.y, 1, last.height, gutter as i128),
                ),
            );
        } else {
            layout.add_constraint(
                Constraint::required(
                    Expression::variable(frame.height),
                    Relation::Equal,
                    Expression::constant(0),
                ),
            );
        }
        let ghost hanging = layout@;
        if p > 0 {
            let prev = frames[p - 1];
            layout.add_constraint(
                Constraint::required(
                    Expression::variable(frame.y),
                    Relation::Equal,
                    Expression::variable(prev.y),
                ),
            );
            layout.add_constraint(
                Constraint::required(frame.bottom(), Relation::Equal, prev.bottom()),
            );
        }
        lifelines.push(ParticipantLine { block: id, participant_id: p });
        frames.push(frame);
        proof {
            lemma_grows_on(entered, added, hanging);
            lemma_grows_on(entered, hanging, layout@);
            lemma_grows_on(old(layout)@, entered, layout@);
            lemma_held_on(entered, layout@, ids, so_far);
            assert(lifeline_ids(lifelines@) == ids.push(id));
            assert(layout@.blocks[id as int] == added.blocks[id as int]);
            lemma_levelled_on(entered, layout@, so_far);
            lemma_levelled_push(layout@, so_far, frame);
            lemma_hung_on(entered, layout@, so_far, arrows@, gutter);
            if arrows@.len() > 0 {
                assert(hanging.has(hangs_top(frame, arrows@, gutter)));
                assert(hanging.has(hangs_bottom(frame, arrows@, gutter)));
            } else {
                assert(hanging.has(flat(frame)));
            }
            lemma_hung_push(layout@, so_far, frame, arrows@, gutter);
        }
        p += 1;
    }
    proof {
        reveal(lifelines_placed);
        lemma_counted_frames(
            layout@,
            lifeline_ids(lifelines@),
            frames@,
            old(layout)@.blocks.len() as int,
        );
    }
    (lifelines, frames)
}

/// The layout with the first arrow of participant `p`, if it has one, tied to its lifeline.
pub open spec fn with_anchor(
    l: LayoutView,
    messages: Seq<MessageView>,
    arrows: Seq<Block>,
    lifeline: Block,
    p: ParticipantId,
) -> LayoutView {
    let first = first_touch(messages, p, 0);
    if first < messages.len() {
        l.with_constraint(
            equal(edge(messages[first], arrows[first], p), ExpressionView::of(lifeline.x)),
        )
    } else {
        l
    }
}

/// The layout with the first arrows of the first `n` participants tied to their lifelines.
pub open spec fn with_anchors(
    l: LayoutView,
    messages: Seq<MessageView>,
    arrows: Seq<Block>,
    lifelines: Seq<Block>,
    n: int,
) -> LayoutView
    decreases n,
{
    if n <= 0 {
        l
    } else {
        with_anchor(
            with_anchors(l, messages, arrows, lifelines, n - 1),
            messages,
            arrows,
            lifelines[n - 1],
            (n - 1) as usize,
        )
    }
}

/// The first arrow of every participant is tied to its lifeline.
#[verifier::opaque]
spec fn anchors_placed(
    l: LayoutView,
    messages: Seq<MessageView>,
    arrows: Seq<Block>,
    lifelines: Seq<Block>,
) -> bool {
    forall|p: ParticipantId|
        p < lifelines.len() ==> #[trigger] anchored(l, messages, arrows, lifelines[p as int], p)
}

proof fn lemma_anchors_placed_on(
    before: LayoutView,
    after: LayoutView,
    messages: Seq<MessageView>,
    arrows: Seq<Block>,
    lifelines: Seq<Block>,
)
    requires
        before.grows_to(after),
        anchors_placed(before, messages, arrows, lifelines),
    ensures
        anchors_placed(after, messages, arrows, lifelines),
{
    reveal(anchors_placed);
    assert forall|p: ParticipantId| p < lifelines.len() implies #[trigger] anchored(
        after,
        messages,
        arrows,
        lifelines[p as int],
        p,
    ) by {
        assert(anchored(before, messages, arrows, lifelines[p as int], p));
    }
}

/// Ties the arrows to the lifelines: the first arrow of each participant has its edge on the
/// side of the participant on its lifeline.
fn anchor_arrows(
    layout: &mut Layout,
    diagram: &SequenceDiagram,
    arrows: &Vec<Block>,
    lifelines: &Vec<Block>,
)
    requires
        old(layout)@.wf(),
        arrows@.len() == diagram@.messages.len(),
        lifelines@.len() == diagram@.participants.len(),
    ensures
        final(layout)@.wf(),
        old(layout)@.confines_all() ==> final(layout)@.confines_all(),
        old(layout)@.grows_to(final(layout)@),
        final(layout)@ == with_anchors(
            old(layout)@,
            diagram@.messages,
            arrows@,
            lifelines@,
            lifelines@.len() as int,
        ),
        final(layout)@.blocks == old(layout)@.blocks,
        anchors_placed(final(layout)@, diagram@.messages, arrows@, lifelines@),
{
    let ghost messages = diagram@.messages;
    let mut p: usize = 0;
    proof {
        lemma_grows_on(old(layout)@, layout@, layout@);
    }
    while p < lifelines.len()
        invariant
            p <= lifelines.len(),
            messages == diagram@.messages,
            arrows@.len() == messages.len(),
            lifelines@.len() == diagram@.participants.len(),
            layout@.wf(),
            old(layout)@.confines_all() ==> layout@.confines_all(),
            old(layout)@.grows_to(layout@),
            layout@ == with_anchors(old(layout)@, messages, arrows@, lifelines@, p as int),
            layout@.blocks == old(layout)@.blocks,
            forall|q: ParticipantId|
                q < p ==> #[trigger] anchored(layout@, messages, arrows@, lifelines@[q as int], q),
        decreases lifelines.len() - p,
    {
        let ghost entered = layout@;
        let mut k: usize = 0;
        while k < diagram.messages.len() && !(diagram.messages[k].left == p
            || diagram.messages[k].right == p)
            invariant
                k <= diagram.messages.len(),
                messages == diagram@.messages,
                first_touch(messages, p, 0) == first_touch(messages, p, k as int),
            decreases diagram.messages.len() - k,
        {
            assert(messages[k as int] == diagram.messages@[k as int]@);
            k += 1;
        }
        if k < diagram.messages.len() {
            assert(messages[k as int] == diagram.messages@[k as int]@);
            layout.add_constraint(
                Constraint::required(
                    edge_of(&diagram.messages[k], &arrows[k], p),
                    Relation::Equal,
                    Expression::variable(lifelines[p].x),
                ),
            );
        }
        proof {
            lemma_grows_on(old(layout)@, entered, layout@);
            assert forall|q: ParticipantId| q < p + 1 implies #[trigger] anchored(
                layout@,
                messages,
                arrows@,
                lifelines@[q as int],
                q,
            ) by {
                if q < p {
                    assert(anchored(entered, messages, arrows@, lifelines@[q as int], q));
                }
            }
        }
        p += 1;
    }
    proof {
        reveal(anchors_placed);
    }
}

// ---------------------------------------------------------------------------------------------
// Activations
// ---------------------------------------------------------------------------------------------
/// By how much twice the left edge of an activation of depth `level` lies before twice the
/// lifeline: 3 glyph heights less one for each level, so that the rectangle ends on the
/// lifeline at level 1 and moves half a glyph height to the right with each level.
pub open spec fn activation_shift(level: usize, glyphs_height: u32) -> Length {
    ((3 - level) * glyphs_height) as Length
}

/// The rectangle `b` of the activation `a` runs from the end of the arrow at which `a` begins
/// to the end of the arrow at which it ends, is one glyph height wide, and sits on the lifeline
/// of its participant, shifted by its level.
pub open spec fn covers_activation(
    l: LayoutView,
    a: Activation,
    b: Block,
    arrows: Seq<Block>,
    lifelines: Seq<Block>,
) -> bool {
    &&& l.has(equal(ExpressionView::of(b.y), arrows[a.from as int].bottom_view()))
    &&& l.has(equal(b.bottom_view(), arrows[a.to as int].bottom_view()))
    &&& l.has(
        equal(ExpressionView::of(b.width), ExpressionView::fixed(l.glyphs_height as Length)),
    )
    &&& l.has(
        equal(
            ExpressionView::of_one(2, b.x, activation_shift(a.level, l.glyphs_height)),
            ExpressionView::of_one(2, lifelines[a.participant_id as int].x, 0),
        ),
    )
}

/// Every activation has its rectangle in place.
pub open spec fn activated(
    l: LayoutView,
    activations: Seq<Activation>,
    blocks: Seq<Block>,
    arrows: Seq<Block>,
    lifelines: Seq<Block>,
) -> bool {
    &&& blocks.len() == activations.len()
    &&& forall|j: int|
        0 <= j < activations.len() ==> #[trigger] covers_activation(
            l,
            activations[j],
            blocks[j],
            arrows,
            lifelines,
        )
}

proof fn lemma_activated_on(
    before: LayoutView,
    after: LayoutView,
    activations: Seq<Activation>,
    blocks: Seq<Block>,
    arrows: Seq<Block>,
    lifelines: Seq<Block>,
)
    requires
        before.grows_to(after),
        activated(before, activations, blocks, arrows, lifelines),
    ensures
        activated(after, activations, blocks, arrows, lifelines),
{
    assert forall|j: int| 0 <= j < activations.len() implies #[trigger] covers_activation(
        after,
        activations[j],
        blocks[j],
        arrows,
        lifelines,
    ) by {
        assert(covers_activation(before, activations[j], blocks[j], arrows, lifelines));
    }
}

/// The ids of the blocks of `markers`.
pub open spec fn activation_ids(markers: Seq<ActivationMarker>) -> Seq<BlockId> {
    Seq::new(markers.len(), |j: int| markers[j].block)
}

/// The layout with one more rectangle, that of the activation `a`.
pub open spec fn with_activation(
    l: LayoutView,
    a: Activation,
    arrows: Seq<Block>,
    lifelines: Seq<Block>,
) -> LayoutView {
    let b = crate::layout::fresh_block(l.vars.len() as int, 0);
    l.with_block(0).with_constraint(
        equal(ExpressionView::of(b.y), arrows[a.from as int].bottom_view()),
    ).with_constraint(equal(b.bottom_view(), arrows[a.to as int].bottom_view())).with_constraint(
        equal(ExpressionView::of(b.width), ExpressionView::fixed(l.glyphs_height as Length)),
    ).with_constraint(
        equal(
            ExpressionView::of_one(2, b.x, activation_shift(a.level, l.glyphs_height)),
            ExpressionView::of_one(2, lifelines[a.participant_id as int].x, 0),
        ),
    )
}

/// The layout with the rectangles of the first `n` activations.
pub open spec fn with_activations(
    l: LayoutView,
    activations: Seq<Activation>,
    arrows: Seq<Block>,
    lifelines: Seq<Block>,
    n: int,
) -> LayoutView
    decreases n,
{
    if n <= 0 {
        l
    } else {
        with_activation(
            with_activations(l, activations, arrows, lifelines, n - 1),
            activations[n - 1],
            arrows,
            lifelines,
        )
    }
}

/// The rectangles are those of the activations, and they are in place.
#[verifier::opaque]
spec fn activations_placed(
    l: LayoutView,
    activations: Seq<Activation>,
    markers: Seq<ActivationMarker>,
    frames: Seq<Block>,
    arrows: Seq<Block>,
    lifelines: Seq<Block>,
) -> bool {
    &&& markers.len() == activations.len()
    &&& held(l, activation_ids(markers), frames)
    &&& activated(l, activations, frames, arrows, lifelines)
}

proof fn lemma_activations_placed_on(
    before: LayoutView,
    after: LayoutView,
    activations: Seq<Activation>,
    markers: Seq<ActivationMarker>,
    frames: Seq<Block>,
    arrows: Seq<Block>,
    lifelines: Seq<Block>,
)
    requires
        before.grows_to(after),
        activations_placed(before, activations, markers, frames, arrows, lifelines),
    ensures
        activations_placed(after, activations, markers, frames, arrows, lifelines),
{
    reveal(activations_placed);
    lemma_held_on(before, after, activation_ids(markers), frames);
    lemma_activated_on(before, after, activations, frames, arrows, lifelines);
}

/// Adds a rectangle for every activation.
fn add_activations(
    layout: &mut Layout,
    diagram: &SequenceDiagram,
    arrows: &Vec<Block>,
    lifelines: &Vec<Block>,
) -> (added: (Vec<ActivationMarker>, Vec<Block>))
    requires
        old(layout)@.wf(),
        diagram@.wf(),
        arrows@.len() == diagram@.messages.len(),
        lifelines@.len() == diagram@.participants.len(),
    ensures
        final(layout)@.wf(),
        old(layout)@.confines_all() ==> final(layout)@.confines_all(),
        old(layout)@.grows_to(final(layout)@),
        final(layout)@ == with_activations(
            old(layout)@,
            diagram@.activations,
            arrows@,
            lifelines@,
            diagram@.activations.len() as int,
        ),
        counted(activation_ids(added.0@), old(layout)@.blocks.len() as int),
        added.0@.len() == diagram@.activations.len(),
        final(layout)@.blocks.len() == old(layout)@.blocks.len() + diagram@.activations.len(),
        activations_placed(
            final(layout)@,
            diagram@.activations,
            added.0@,
            added.1@,
            arrows@,
            lifelines@,
        ),
{
    let mut markers: Vec<ActivationMarker> = Vec::new();
    let mut frames: Vec<Block> = Vec::new();
    let glyphs_height = layout.glyphs_height();
    let mut j: usize = 0;
    proof {
        lemma_grows_on(old(layout)@, layout@, layout@);
    }
    while j < diagram.activations.len()
        invariant
            j <= diagram.activations.len(),
            diagram@.wf(),
            arrows@.len() == diagram@.messages.len(),
            lifelines@.len() == diagram@.participants.len(),
            glyphs_height == layout@.glyphs_height,
            layout@.wf(),
            old(layout)@.confines_all() ==> layout@.confines_all(),
            old(layout)@.grows_to(layout@),
            layout@ == with_activations(
                old(layout)@,
                diagram@.activations,
                arrows@,
                lifelines@,
                j as int,
            ),
            layout@.blocks.len() == old(layout)@.blocks.len() + j,
            counted(activation_ids(markers@), old(layout)@.blocks.len() as int),
            markers@.len() == j,
            held(layout@, activation_ids(markers@), frames@),
            activated(layout@, diagram@.activations.take(j as int), frames@, arrows@, lifelines@),
        decreases diagram.activations.len() - j,
    {
        let ghost entered = layout@;
        let ghost ids = activation_ids(markers@);
        let ghost so_far = frames@;
        let activation = diagram.activations[j];
        assert(diagram@.activations[j as int].wf(
            diagram@.participants.len() as int,
            diagram@.messages.len() as int,
        ));
        let id = layout.add_block();
        let frame = *layout.b(id);
        let ghost added = layout@;
        let from = arrows[activation.from];
        let to = arrows[activation.to];
        let lifeline = lifelines[activation.participant_id];
        layout.add_constraint(
            Constraint::required(Expression::variable(frame.y), Relation::Equal, from.bottom()),
        );
        layout.add_constraint(Constraint::required(frame.bottom(), Relation::Equal, to.bottom()));
        layout.add_constraint(
            Constraint::required(
                Expression::variable(frame.width),
                Relation::Equal,
                Expression::constant(glyphs_height as i128),
            ),
        );
        assert((3 - activation.level) * glyphs_height >= -0x1_0000_0000_0000_0000
            * 0x1_0000_0000 && (3 - activation.level) * glyphs_height <= 3 * 0x1_0000_0000)
            by (nonlinear_arith)
            requires
                0 <= activation.level <= 0x1_0000_0000_0000_0000,
                0 <= glyphs_height <= 0x1_0000_0000,
        ;
        let shift: Length = (3 - activation.level as i128) * (glyphs_height as i128);
        layout.add_constraint(
            Constraint::required(
                Expression::one(2, frame.x, shift),
                Relation::Equal,
                Expression::one(2, lifeline.x, 0),
            ),
        );
        markers.push(ActivationMarker { block: id });
        frames.push(frame);
        proof {
            lemma_grows_on(entered, added, layout@);
            lemma_grows_on(old(layout)@, entered, layout@);
            lemma_held_on(entered, layout@, ids, so_far);
            assert(activation_ids(markers@) == ids.push(id));
            assert(layout@.blocks[id as int] == added.blocks[id as int]);
            lemma_activated_on(
                entered,
                layout@,
                diagram@.activations.take(j as int),
                so_far,
                arrows@,
                lifelines@,
            );
            let done = diagram@.activations.take(j + 1);
            assert(covers_activation(layout@, activation, frame, arrows@, lifelines@));
            assert forall|i: int| 0 <= i < done.len() implies #[trigger] covers_activation(
                layout@,
                done[i],
                frames@[i],
                arrows@,
                lifelines@,
            ) by {
                if i < j {
                    assert(covers_activation(
                        layout@,
                        diagram@.activations.take(j as int)[i],
                        so_far[i],
                        arrows@,
                        lifelines@,
                    ));
                }
            }
        }
        j += 1;
    }
    assert(diagram@.activations.take(j as int) == diagram@.activations);
    proof {
        reveal(activations_placed);
    }
    (markers, frames)
}

// ---------------------------------------------------------------------------------------------
// Heads and footers
// ---------------------------------------------------------------------------------------------
/// Twice the middle of `b` across: twice its left edge plus its width.
pub open spec fn twice_middle(b: Block) -> ExpressionView {
    ExpressionView::of_two(2, b.x, 1, b.width, 0)
}

/// Twice the left edge of `b`.
pub open spec fn twice_left(b: Block) -> ExpressionView {
    ExpressionView::of_one(2, b.x, 0)
}

/// The head ends where the lifeline begins and has its middle on it.
pub open spec fn heads_lifeline(l: LayoutView, head: Block, lifeline: Block) -> bool {
    &&& l.has(equal(head.bottom_view(), ExpressionView::of(lifeline.y)))
    &&& l.has(equal(twice_middle(head), twice_left(lifeline)))
}

/// The footer begins where the lifeline ends and has its middle on it.
pub open spec fn foots_lifeline(l: LayoutView, footer: Block, lifeline: Block) -> bool {
    &&& l.has(equal(ExpressionView::of(footer.y), lifeline.bottom_view()))
    &&& l.has(equal(twice_middle(footer), twice_left(lifeline)))
}

/// The head ends where the lifeline begins, the footer begins where it ends, and both have
/// their middle on it.
pub open spec fn crowns(l: LayoutView, head: Block, footer: Block, lifeline: Block) -> bool {
    heads_lifeline(l, head, lifeline) && foots_lifeline(l, footer, lifeline)
}

/// Every lifeline has its head and its footer.
pub open spec fn crowned(
    l: LayoutView,
    heads: Seq<Block>,
    footers: Seq<Block>,
    lifelines: Seq<Block>,
) -> bool {
    &&& heads.len() == lifelines.len()
    &&& footers.len() == lifelines.len()
    &&& forall|p: int|
        0 <= p < lifelines.len() ==> #[trigger] crowns(l, heads[p], footers[p], lifelines[p])
}

proof fn lemma_crowned_on(
    before: LayoutView,
    after: LayoutView,
    heads: Seq<Block>,
    footers: Seq<Block>,
    lifelines: Seq<Block>,
)
    requires
        before.grows_to(after),
        crowned(before, heads, footers, lifelines),
    ensures
        crowned(after, heads, footers, lifelines),
{
    assert forall|p: int| 0 <= p < lifelines.len() implies #[trigger] crowns(
        after,
        heads[p],
        footers[p],
        lifelines[p],
    ) by {
        assert(crowns(before, heads[p], footers[p], lifelines[p]));
    }
}

/// The ids of the blocks of `markers`.
pub open spec fn marker_ids(markers: Seq<ParticipantMarker>) -> Seq<BlockId> {
    Seq::new(markers.len(), |p: int| markers[p].block_id)
}

/// The names of the participants.
pub open spec fn names(participants: Seq<crate::diagram::ParticipantView>) -> Seq<Seq<char>> {
    Seq::new(participants.len(), |p: int| participants[p].name)
}

/// The text of each marker is the name of the participant of its position, broken at column
/// `max_length`.
pub open spec fn markers_of(
    markers: Seq<ParticipantMarker>,
    participants: Seq<crate::diagram::ParticipantView>,
    max_length: usize,
) -> bool {
    &&& markers.len() == participants.len()
    &&& forall|p: int|
        0 <= p < markers.len() ==> lines_text((#[trigger] markers[p]).lines@) == wrapped(
            participants[p].name,
            max_length,
        )
}

/// The heads and the footers, each with their blocks.
struct Markers {
    heads: Vec<ParticipantMarker>,
    head_frames: Vec<Block>,
    footers: Vec<ParticipantMarker>,
    footer_frames: Vec<Block>,
}

/// The layout with the head of a lifeline, or its footer: a text block with the name of the
/// participant, tied to the top of the lifeline or to its bottom, with its middle on it.
pub open spec fn with_marker(
    l: LayoutView,
    name: Seq<char>,
    c: SvgConfig,
    lifeline: Block,
    above: bool,
) -> LayoutView {
    let lines = wrapped(name, c.max_participant_head_length);
    let marker = crate::layout::fresh_block(
        l.vars.len() as int,
        l.font.line_height(c.measured_size()) as u32,
    );
    l.with_text_block(lines, c.padding, c.measured_size()).with_constraint(
        if above {
            equal(marker.bottom_view(), ExpressionView::of(lifeline.y))
        } else {
            equal(ExpressionView::of(marker.y), lifeline.bottom_view())
        },
    ).with_constraint(equal(twice_middle(marker), twice_left(lifeline)))
}

/// The layout with the heads and footers of the first `n` participants: for each the head and
/// then the footer.
pub open spec fn with_markers(
    l: LayoutView,
    participants: Seq<crate::diagram::ParticipantView>,
    c: SvgConfig,
    lifelines: Seq<Block>,
    n: int,
) -> LayoutView
    decreases n,
{
    if n <= 0 {
        l
    } else {
        with_marker(
            with_marker(
                with_markers(l, participants, c, lifelines, n - 1),
                participants[n - 1].name,
                c,
                lifelines[n - 1],
                true,
            ),
            participants[n - 1].name,
            c,
            lifelines[n - 1],
            false,
        )
    }
}

/// The ids are `first` and every second number behind it, in order.
pub open spec fn counted_by_two(ids: Seq<BlockId>, first: int) -> bool {
    forall|k: int| 0 <= k < ids.len() ==> (#[trigger] ids[k]) == first + 2 * k
}

/// Adds the head of a lifeline, or its footer: a text block with the name of the participant.
fn add_marker(
    layout: &mut Layout,
    name: &String,
    config: &SvgConfig,
    lifeline: Block,
    above: bool,
) -> (added: (ParticipantMarker, Block))
    requires
        old(layout)@.wf(),
    ensures
        final(layout)@.wf(),
        old(layout)@.confines_all() ==> final(layout)@.confines_all(),
        old(layout)@.grows_to(final(layout)@),
        final(layout)@ == with_marker(old(layout)@, name@, *config, lifeline, above),
        final(layout)@.blocks.len() == old(layout)@.blocks.len() + 1,
        added.0.block_id == old(layout)@.blocks.len(),
        lines_text(added.0.lines@) == wrapped(name@, config.max_participant_head_length),
        final(layout)@.holds_text(
            added.0.block_id,
            added.1,
            wrapped(name@, config.max_participant_head_length),
            config.padding,
            config.measured_size(),
        ),
        above ==> heads_lifeline(final(layout)@, added.1, lifeline),
        !above ==> foots_lifeline(final(layout)@, added.1, lifeline),
{
    let (id, lines) = layout.add_text_block(
        name,
        config.max_participant_head_length,
        config.padding,
        config.pixel_size(),
    );
    let frame = *layout.b(id);
    let ghost with_block = layout@;
    if above {
        layout.add_constraint(
            Constraint::required(
                frame.bottom(),
                Relation::Equal,
                Expression::variable(lifeline.y),
            ),
        );
    } else {
        layout.add_constraint(
            Constraint::required(
                Expression::variable(frame.y),
                Relation::Equal,
                lifeline.bottom(),
            ),
        );
    }
    let ghost tied = layout@;
    layout.add_constraint(
        Constraint::required(
            Expression::two(2, frame.x, 1, frame.width, 0),
            Relation::Equal,
            Expression::one(2, lifeline.x, 0),
        ),
    );
    proof {
        lemma_grows_on(with_block, tied, layout@);
        lemma_grows_on(old(layout)@, with_block, layout@);
        lemma_holds_text_on(
            with_block,
            layout@,
            id,
            frame,
            wrapped(name@, config.max_participant_head_length),
            config.padding,
            config.measured_size(),
        );
        if above {
            assert(tied.has(equal(frame.bottom_view(), ExpressionView::of(lifeline.y))));
        } else {
            assert(tied.has(equal(ExpressionView::of(frame.y), lifeline.bottom_view())));
        }
    }
    (ParticipantMarker { block_id: id, lines }, frame)
}

/// Heads and footers are those of the participants, and they are in place.
#[verifier::opaque]
spec fn markers_placed(
    l: LayoutView,
    participants: Seq<crate::diagram::ParticipantView>,
    c: SvgConfig,
    heads: Seq<ParticipantMarker>,
    head_frames: Seq<Block>,
    footers: Seq<ParticipantMarker>,
    footer_frames: Seq<Block>,
    lifelines: Seq<Block>,
) -> bool {
    &&& markers_of(heads, participants, c.max_participant_head_length)
    &&& markers_of(footers, participants, c.max_participant_head_length)
    &&& texts_held(
        l,
        marker_ids(heads),
        head_frames,
        names(participants),
        c.max_participant_head_length,
        c,
    )
    &&& texts_held(
        l,
        marker_ids(footers),
        footer_frames,
        names(participants),
        c.max_participant_head_length,
        c,
    )
    &&& crowned(l, head_frames, footer_frames, lifelines)
}

proof fn lemma_markers_placed_on(
    before: LayoutView,
    after: LayoutView,
    participants: Seq<crate::diagram::ParticipantView>,
    c: SvgConfig,
    heads: Seq<ParticipantMarker>,
    head_frames: Seq<Block>,
    footers: Seq<ParticipantMarker>,
    footer_frames: Seq<Block>,
    lifelines: Seq<Block>,
)
    requires
        before.grows_to(after),
        markers_placed(
            before,
            participants,
            c,
            heads,
            head_frames,
            footers,
            footer_frames,
            lifelines,
        ),
    ensures
        markers_placed(after, participants, c, heads, head_frames, footers, footer_frames, lifelines),
{
    reveal(markers_placed);
    lemma_texts_held_on(
        before,
        after,
        marker_ids(heads),
        head_frames,
        names(participants),
        c.max_participant_head_length,
        c,
    );
    lemma_texts_held_on(
        before,
        after,
        marker_ids(footers),
        footer_frames,
        names(participants),
        c.max_participant_head_length,
        c,
    );
    lemma_crowned_on(before, after, head_frames, footer_frames, lifelines);
}

/// Adds a head and a footer for every participant: two text blocks with its name.
fn add_markers(
    layout: &mut Layout,
    diagram: &SequenceDiagram,
    config: &SvgConfig,
    lifelines: &Vec<Block>,
) -> (added: Markers)
    requires
        old(layout)@.wf(),
        lifelines@.len() == diagram@.participants.len(),
    ensures
        final(layout)@.wf(),
        old(layout)@.confines_all() ==> final(layout)@.confines_all(),
        old(layout)@.grows_to(final(layout)@),
        final(layout)@ == with_markers(
            old(layout)@,
            diagram@.participants,
            *config,
            lifelines@,
            diagram@.participants.len() as int,
        ),
        counted_by_two(marker_ids(added.heads@), old(layout)@.blocks.len() as int),
        counted_by_two(marker_ids(added.footers@), old(layout)@.blocks.len() as int + 1),
        final(layout)@.blocks.len() == old(layout)@.blocks.len() + 2 * diagram@.participants.len(),
        added.head_frames@ == every_second(
            final(layout)@.blocks,
            old(layout)@.blocks.len() as int,
            diagram@.participants.len(),
        ),
        markers_placed(
            final(layout)@,
            diagram@.participants,
            *config,
            added.heads@,
            added.head_frames@,
            added.footers@,
            added.footer_frames@,
            lifelines@,
        ),
{
    let mut heads: Vec<ParticipantMarker> = Vec::new();
    let mut head_frames: Vec<Block> = Vec::new();
    let mut footers: Vec<ParticipantMarker> = Vec::new();
    let mut footer_frames: Vec<Block> = Vec::new();
    let max_length = config.max_participant_head_length;
    let ghost all = names(diagram@.participants);
    let mut p: usize = 0;
    proof {
        lemma_grows_on(old(layout)@, layout@, layout@);
    }
    while p < diagram.participants.len()
        invariant
            p <= diagram.participants.len(),
            lifelines@.len() == diagram@.participants.len(),
            max_length == config.max_participant_head_length,
            all == names(diagram@.participants),
            layout@.wf(),
            old(layout)@.confines_all() ==> layout@.confines_all(),
            old(layout)@.grows_to(layout@),
            layout@ == with_markers(
                old(layout)@,
                diagram@.participants,
                *config,
                lifelines@,
                p as int,
            ),
            layout@.blocks.len() == old(layout)@.blocks.len() + 2 * p,
            counted_by_two(marker_ids(heads@), old(layout)@.blocks.len() as int),
            counted_by_two(marker_ids(footers@), old(layout)@.blocks.len() as int + 1),
            markers_of(heads@, diagram@.participants.take(p as int), max_length),
            markers_of(footers@, diagram@.participants.take(p as int), max_length),
            texts_held(
                layout@,
                marker_ids(heads@),
                head_frames@,
                all.take(p as int),
                max_length,
                *config,
            ),
            texts_held(
                layout@,
                marker_ids(footers@),
                footer_frames@,
                all.take(p as int),
                max_length,
                *config,
            ),
            crowned(layout@, head_frames@, footer_frames@, lifelines@.take(p as int)),
        decreases diagram.participants.len() - p,
    {
        let ghost entered = layout@;
        let ghost head_ids = marker_ids(heads@);
        let ghost heads_so_far = head_frames@;
        let ghost footer_ids = marker_ids(footers@);
        let ghost footers_so_far = footer_frames@;
        let participant = &diagram.participants[p];
        assert(diagram@.participants[p as int] == participant@);
        let lifeline = lifelines[p];
        let (head_marker, head) = add_marker(layout, &participant.name, config, lifeline, true);
        let ghost head_id = head_marker.block_id;
        let ghost with_head = layout@;
        let (footer_marker, footer) = add_marker(
            layout,
            &participant.name,
            config,
            lifeline,
            false,
        );
        let ghost footer_id = footer_marker.block_id;
        heads.push(head_marker);
        head_frames.push(head);
        footers.push(footer_marker);
        footer_frames.push(footer);
        proof {
            lemma_grows_on(entered, with_head, layout@);
            lemma_grows_on(old(layout)@, entered, layout@);
            let texts = all.take(p as int);
            assert(all.take(p + 1) == texts.push(participant@.name));
            assert(lifelines@.take(p + 1) == lifelines@.take(p as int).push(lifeline));
            assert(diagram@.participants.take(p + 1) == diagram@.participants.take(
                p as int,
            ).push(participant@));
            assert(marker_ids(heads@) == head_ids.push(head_id));
            assert(marker_ids(footers@) == footer_ids.push(footer_id));
            lemma_texts_held_on(entered, layout@, head_ids, heads_so_far, texts, max_length, *config);
            lemma_texts_held_on(
                entered,
                layout@,
                footer_ids,
                footers_so_far,
                texts,
                max_length,
                *config,
            );
            lemma_holds_text_on(
                with_head,
                layout@,
                head_id,
                head,
                wrapped(participant@.name, max_length),
                config.padding,
                config.measured_size(),
            );
            lemma_texts_held_push(
                layout@,
                head_ids,
                heads_so_far,
                texts,
                head_id,
                head,
                participant@.name,
                max_length,
                *config,
            );
            lemma_texts_held_push(
                layout@,
                footer_ids,
                footers_so_far,
                texts,
                footer_id,
                footer,
                participant@.name,
                max_length,
                *config,
            );
            lemma_crowned_on(
                entered,
                layout@,
                heads_so_far,
                footers_so_far,
                lifelines@.take(p as int),
            );
            assert(heads_lifeline(with_head, head, lifeline));
            assert(heads_lifeline(layout@, head, lifeline));
            lemma_crowned_push(
                layout@,
                heads_so_far,
                footers_so_far,
                lifelines@.take(p as int),
                head,
                footer,
                lifeline,
            );
        }
        p += 1;
    }
    assert(all.take(p as int) == all);
    assert(lifelines@.take(p as int) == lifelines@);
    assert(diagram@.participants.take(p as int) == diagram@.participants);
    proof {
        reveal(markers_placed);
        lemma_grows_on(layout@, layout@, layout@);
        lemma_texts_held_on(
            layout@,
            layout@,
            marker_ids(heads@),
            head_frames@,
            all,
            max_length,
            *config,
        );
        lemma_every_second(
            layout@,
            marker_ids(heads@),
            head_frames@,
            old(layout)@.blocks.len() as int,
        );
    }
    Markers { heads, head_frames, footers, footer_frames }
}

// ---------------------------------------------------------------------------------------------
// Notes
// ---------------------------------------------------------------------------------------------
/// The least of `ids`; 0 if there is none.
pub open spec fn least(ids: Seq<ParticipantId>) -> ParticipantId
    decreases ids.len(),
{
    if ids.len() == 0 {
        0
    } else if ids.len() == 1 {
        ids[0]
    } else if ids.last() < least(ids.drop_last()) {
        ids.last()
    } else {
        least(ids.drop_last())
    }
}

/// The greatest of `ids`; 0 if there is none.
pub open spec fn greatest(ids: Seq<ParticipantId>) -> ParticipantId
    decreases ids.len(),
{
    if ids.len() == 0 {
        0
    } else if ids.len() == 1 {
        ids[0]
    } else if ids.last() > greatest(ids.drop_last()) {
        ids.last()
    } else {
        greatest(ids.drop_last())
    }
}

/// `b` ends `gutter` before the lifeline or earlier.
pub open spec fn ends_before(b: Block, lifeline: Block, gutter: u32) -> ConstraintView {
    ConstraintView::required(
        b.right_view(),
        Relation::LessOrEqual,
        ExpressionView::of_one(1, lifeline.x, (-(gutter as Length)) as Length),
    )
}

/// `b` begins `gutter` behind the right edge of the lifeline or later.
pub open spec fn begins_behind(b: Block, lifeline: Block, gutter: u32) -> ConstraintView {
    ConstraintView::required(
        ExpressionView::of(b.x),
        Relation::GreaterOrEqual,
        ExpressionView::of_two(1, lifeline.x, 1, lifeline.width, gutter as Length),
    )
}

/// `b` begins `gutter` before the lifeline or earlier.
pub open spec fn begins_before(b: Block, lifeline: Block, gutter: u32) -> ConstraintView {
    ConstraintView::required(
        ExpressionView::of(b.x),
        Relation::LessOrEqual,
        ExpressionView::of_one(1, lifeline.x, (-(gutter as Length)) as Length),
    )
}

/// `b` ends `gutter` behind the lifeline or later.
pub open spec fn ends_behind(b: Block, lifeline: Block, gutter: u32) -> ConstraintView {
    ConstraintView::required(
        b.right_view(),
        Relation::GreaterOrEqual,
        ExpressionView::of_one(1, lifeline.x, gutter as Length),
    )
}

/// The box `b` of a note lies where the note says, across: left of a lifeline, and right of
/// the one before it if there is one; right of a lifeline; or over lifelines, from before the
/// leftmost to behind the rightmost of them.
pub open spec fn note_across(
    l: LayoutView,
    position: HorizontalNotePositionView,
    b: Block,
    lifelines: Seq<Block>,
    gutter: u32,
) -> bool {
    match position {
        HorizontalNotePositionView::LeftOf(p) => {
            &&& l.has(ends_before(b, lifelines[p as int], gutter))
            &&& p > 0 ==> l.has(begins_behind(b, lifelines[p - 1], gutter))
        },
        HorizontalNotePositionView::RightOf(p) => l.has(
            begins_behind(b, lifelines[p as int], gutter),
        ),
        HorizontalNotePositionView::Over(ps) => ps.len() > 0 ==> {
            &&& l.has(begins_before(b, lifelines[least(ps) as int], gutter))
            &&& l.has(ends_behind(b, lifelines[greatest(ps) as int], gutter))
        },
    }
}

/// `b` begins `gutter` below the end of `above`, as far as a strong wish goes.
pub open spec fn follows(b: Block, above: Block, gutter: u32) -> ConstraintView {
    ConstraintView::strong(
        ExpressionView::of(b.y),
        ExpressionView::of_two(1, above.y, 1, above.height, gutter as Length),
    )
}

/// The box `b` of a note lies where the note says, downwards: below the first head, below the
/// arrow of a message, or below the box of an earlier note.
pub open spec fn note_down(
    l: LayoutView,
    position: VerticalNotePosition,
    b: Block,
    heads: Seq<Block>,
    arrows: Seq<Block>,
    boxes: Seq<Block>,
    gutter: u32,
) -> bool {
    match position {
        VerticalNotePosition::First => heads.len() > 0 ==> l.has(follows(b, heads[0], gutter)),
        VerticalNotePosition::AfterMessage(message) => l.has(
            follows(b, arrows[message as int], gutter),
        ),
        VerticalNotePosition::AfterNote(note) => l.has(follows(b, boxes[note as int], gutter)),
    }
}

/// `lifeline` ends `gutter` below the end of `above` or lower.
pub open spec fn passes(lifeline: Block, above: Block, gutter: u32) -> ConstraintView {
    ConstraintView::required(
        lifeline.bottom_view(),
        Relation::GreaterOrEqual,
        ExpressionView::of_two(1, above.y, 1, above.height, gutter as Length),
    )
}

/// Every note has its box in place across.
pub open spec fn noted_across(
    l: LayoutView,
    notes: Seq<NoteView>,
    boxes: Seq<Block>,
    lifelines: Seq<Block>,
    gutter: u32,
) -> bool {
    &&& boxes.len() == notes.len()
    &&& forall|j: int|
        0 <= j < notes.len() ==> #[trigger] note_across(
            l,
            notes[j].horizontal_position,
            boxes[j],
            lifelines,
            gutter,
        )
}

/// Every note has its box in place downwards.
pub open spec fn noted_down(
    l: LayoutView,
    notes: Seq<NoteView>,
    count: int,
    boxes: Seq<Block>,
    heads: Seq<Block>,
    arrows: Seq<Block>,
    gutter: u32,
) -> bool {
    forall|j: int|
        0 <= j < count ==> #[trigger] note_down(
            l,
            notes[j].vertical_position,
            boxes[j],
            heads,
            arrows,
            boxes,
            gutter,
        )
}

/// Where there are notes, every lifeline ends below the last of them.
pub open spec fn passed(l: LayoutView, lifelines: Seq<Block>, count: int, boxes: Seq<Block>, gutter: u32) -> bool {
    boxes.len() > 0 ==> forall|p: int|
        0 <= p < count ==> l.has(passes(#[trigger] lifelines[p], boxes.last(), gutter))
}

proof fn lemma_noted_across_on(
    before: LayoutView,
    after: LayoutView,
    notes: Seq<NoteView>,
    boxes: Seq<Block>,
    lifelines: Seq<Block>,
    gutter: u32,
)
    requires
        before.grows_to(after),
        noted_across(before, notes, boxes, lifelines, gutter),
    ensures
        noted_across(after, notes, boxes, lifelines, gutter),
{
    assert forall|j: int| 0 <= j < notes.len() implies #[trigger] note_across(
        after,
        notes[j].horizontal_position,
        boxes[j],
        lifelines,
        gutter,
    ) by {
        assert(note_across(before, notes[j].horizontal_position, boxes[j], lifelines, gutter));
    }
}

proof fn lemma_noted_down_on(
    before: LayoutView,
    after: LayoutView,
    notes: Seq<NoteView>,
    count: int,
    boxes: Seq<Block>,
    heads: Seq<Block>,
    arrows: Seq<Block>,
    gutter: u32,
)
    requires
        before.grows_to(after),
        noted_down(before, notes, count, boxes, heads, arrows, gutter),
    ensures
        noted_down(after, notes, count, boxes, heads, arrows, gutter),
{
    assert forall|j: int| 0 <= j < count implies #[trigger] note_down(
        after,
        notes[j].vertical_position,
        boxes[j],
        heads,
        arrows,
        boxes,
        gutter,
    ) by {
        assert(note_down(before, notes[j].vertical_position, boxes[j], heads, arrows, boxes, gutter));
    }
}

proof fn lemma_passed_on(
    before: LayoutView,
    after: LayoutView,
    lifelines: Seq<Block>,
    count: int,
    boxes: Seq<Block>,
    gutter: u32,
)
    requires
        before.grows_to(after),
        passed(before, lifelines, count, boxes, gutter),
    ensures
        passed(after, lifelines, count, boxes, gutter),
{
    if boxes.len() > 0 {
        assert forall|p: int| 0 <= p < count implies after.has(
            passes(#[trigger] lifelines[p], boxes.last(), gutter),
        ) by {
            assert(before.has(passes(lifelines[p], boxes.last(), gutter)));
        }
    }
}

pub proof fn lemma_least_greatest(ids: Seq<ParticipantId>)
    requires
        ids.len() > 0,
    ensures
        ids.contains(least(ids)),
        ids.contains(greatest(ids)),
        forall|i: int|
            0 <= i < ids.len() ==> least(ids) <= #[trigger] ids[i] && ids[i] <= greatest(ids),
    decreases ids.len(),
{
    if ids.len() > 1 {
        let front = ids.drop_last();
        lemma_least_greatest(front);
        let a = choose|i: int| 0 <= i < front.len() && front[i] == least(front);
        assert(ids[a] == least(front));
        let b = choose|i: int| 0 <= i < front.len() && front[i] == greatest(front);
        assert(ids[b] == greatest(front));
        assert(ids[ids.len() - 1] == ids.last());
        assert forall|i: int| 0 <= i < ids.len() implies least(ids) <= #[trigger] ids[i]
            && ids[i] <= greatest(ids) by {
            if i < front.len() {
                assert(front[i] == ids[i]);
            }
        }
    } else {
        assert(ids[0] == least(ids));
    }
}

pub proof fn lemma_ends_among(ids: Seq<ParticipantId>, n: int)
    requires
        ids.len() > 0,
        all_among(ids, n),
    ensures
        least(ids) < n,
        greatest(ids) < n,
{
    lemma_least_greatest(ids);
    let a = choose|i: int| 0 <= i < ids.len() && ids[i] == least(ids);
    let b = choose|i: int| 0 <= i < ids.len() && ids[i] == greatest(ids);
    assert(ids[a] < n);
    assert(ids[b] < n);
}

/// The least and the greatest of `ids`.
fn ends_of(ids: &Vec<ParticipantId>) -> (ends: (ParticipantId, ParticipantId))
    requires
        ids@.len() > 0,
    ensures
        ends.0 == least(ids@),
        ends.1 == greatest(ids@),
{
    let mut low = ids[0];
    let mut high = ids[0];
    let mut i: usize = 1;
    assert(ids@.take(1).len() == 1 && ids@.take(1)[0] == ids@[0]);
    while i < ids.len()
        invariant
            1 <= i <= ids.len(),
            low == least(ids@.take(i as int)),
            high == greatest(ids@.take(i as int)),
        decreases ids.len() - i,
    {
        assert(ids@.take(i + 1).drop_last() == ids@.take(i as int));
        if ids[i] < low {
            low = ids[i];
        }
        if ids[i] > high {
            high = ids[i];
        }
        i += 1;
    }
    assert(ids@.take(i as int) == ids@);
    (low, high)
}

/// The ids of the blocks of `markers`.
pub open spec fn note_ids(markers: Seq<NoteMarker>) -> Seq<BlockId> {
    Seq::new(markers.len(), |j: int| markers[j].block_id)
}

/// The texts of the notes.
pub open spec fn contents(notes: Seq<NoteView>) -> Seq<Seq<char>> {
    Seq::new(notes.len(), |j: int| notes[j].content)
}

/// Each marker is that of the note of its position, its text broken at column `max_length`.
pub open spec fn notes_of(markers: Seq<NoteMarker>, notes: Seq<NoteView>, max_length: usize) -> bool {
    &&& markers.len() == notes.len()
    &&& forall|j: int|
        0 <= j < markers.len() ==> (#[trigger] markers[j]).id == notes[j].id && lines_text(
            markers[j].lines@,
        ) == wrapped(notes[j].content, max_length)
}

/// The layout with the box `b` of a note put where `position` says, across.
pub open spec fn with_note_across(
    l: LayoutView,
    position: HorizontalNotePositionView,
    b: Block,
    lifelines: Seq<Block>,
    gutter: u32,
) -> LayoutView {
    match position {
        HorizontalNotePositionView::LeftOf(p) => {
            let first = l.with_constraint(ends_before(b, lifelines[p as int], gutter));
            if p > 0 {
                first.with_constraint(begins_behind(b, lifelines[p - 1], gutter))
            } else {
                first
            }
        },
        HorizontalNotePositionView::RightOf(p) => l.with_constraint(
            begins_behind(b, lifelines[p as int], gutter),
        ),
        HorizontalNotePositionView::Over(ps) => if ps.len() > 0 {
            l.with_constraint(
                begins_before(b, lifelines[least(ps) as int], gutter),
            ).with_constraint(ends_behind(b, lifelines[greatest(ps) as int], gutter))
        } else {
            l
        },
    }
}

/// The layout with one more note: a text block, put in its place across.
pub open spec fn with_note(l: LayoutView, note: NoteView, c: SvgConfig, lifelines: Seq<Block>) -> LayoutView {
    let b = crate::layout::fresh_block(
        l.vars.len() as int,
        l.font.line_height(c.measured_size()) as u32,
    );
    with_note_across(
        l.with_text_block(
            wrapped(note.content, c.max_participant_head_length),
            c.padding,
            c.measured_size(),
        ),
        note.horizontal_position,
        b,
        lifelines,
        c.msg_gutter,
    )
}

/// The layout with the first `n` notes.
pub open spec fn with_notes(
    l: LayoutView,
    notes: Seq<NoteView>,
    c: SvgConfig,
    lifelines: Seq<Block>,
    n: int,
) -> LayoutView
    decreases n,
{
    if n <= 0 {
        l
    } else {
        with_note(with_notes(l, notes, c, lifelines, n - 1), notes[n - 1], c, lifelines)
    }
}

/// Puts the box `frame` of a note where `position` says, across.
fn put_across(
    layout: &mut Layout,
    position: &HorizontalNotePosition,
    frame: Block,
    lifelines: &Vec<Block>,
    gutter: u32,
)
    requires
        old(layout)@.wf(),
        position@.among(lifelines@.len() as int),
    ensures
        final(layout)@.wf(),
        old(layout)@.confines_all() ==> final(layout)@.confines_all(),
        old(layout)@.grows_to(final(layout)@),
        final(layout)@ == with_note_across(old(layout)@, position@, frame, lifelines@, gutter),
        final(layout)@.blocks == old(layout)@.blocks,
        note_across(final(layout)@, position@, frame, lifelines@, gutter),
{
    let ghost entered = layout@;
    let away: Length = -(gutter as i128);
    proof {
        lemma_grows_on(entered, layout@, layout@);
    }
    match position {
        HorizontalNotePosition::LeftOf(p) => {
            let lifeline = lifelines[*p];
            layout.add_constraint(
                Constraint::required(
                    frame.right(),
                    Relation::LessOrEqual,
                    Expression::one(1, lifeline.x, away),
                ),
            );
            if *p > 0 {
                let ghost first = layout@;
                let prev = lifelines[*p - 1];
                layout.add_constraint(
                    Constraint::required(
                        Expression::variable(frame.x),
                        Relation::GreaterOrEqual,
                        Expression::two(1, prev.x, 1, prev.width, gutter as i128),
                    ),
                );
                proof {
                    lemma_grows_on(entered, first, layout@);
                }
            }
        },
        HorizontalNotePosition::RightOf(p) => {
            let lifeline = lifelines[*p];
            layout.add_constraint(
                Constraint::required(
                    Expression::variable(frame.x),
                    Relation::GreaterOrEqual,
                    Expression::two(1, lifeline.x, 1, lifeline.width, gutter as i128),
                ),
            );
        },
        HorizontalNotePosition::Over(ps) => {
            if ps.len() > 0 {
                let (low, high) = ends_of(ps);
                proof {
                    lemma_ends_among(ps@, lifelines@.len() as int);
                }
                let leftmost = lifelines[low];
                let rightmost = lifelines[high];
                layout.add_constraint(
                    Constraint::required(
                        Expression::variable(frame.x),
                        Relation::LessOrEqual,
                        Expression::one(1, leftmost.x, away),
                    ),
                );
                let ghost first = layout@;
                layout.add_constraint(
                    Constraint::required(
                        frame.right(),
                        Relation::GreaterOrEqual,
                        Expression::one(1, rightmost.x, gutter as i128),
                    ),
                );
                proof {
                    lemma_grows_on(entered, first, layout@);
                }
            }
        },
    }
}

/// Adds a text block for every note and puts it in its place across.
fn add_notes(
    layout: &mut Layout,
    diagram: &SequenceDiagram,
    config: &SvgConfig,
    lifelines: &Vec<Block>,
) -> (added: (Vec<NoteMarker>, Vec<Block>))
    requires
        old(layout)@.wf(),
        diagram@.wf(),
        lifelines@.len() == diagram@.participants.len(),
    ensures
        final(layout)@.wf(),
        old(layout)@.confines_all() ==> final(layout)@.confines_all(),
        old(layout)@.grows_to(final(layout)@),
        final(layout)@ == with_notes(
            old(layout)@,
            diagram@.notes,
            *config,
            lifelines@,
            diagram@.notes.len() as int,
        ),
        counted(note_ids(added.0@), old(layout)@.blocks.len() as int),
        notes_of(added.0@, diagram@.notes, config.max_participant_head_length),
        final(layout)@.blocks.len() == old(layout)@.blocks.len() + diagram@.notes.len(),
        texts_held(
            final(layout)@,
            note_ids(added.0@),
            added.1@,
            contents(diagram@.notes),
            config.max_participant_head_length,
            *config,
        ),
        noted_across(final(layout)@, diagram@.notes, added.1@, lifelines@, config.msg_gutter),
{
    let mut markers: Vec<NoteMarker> = Vec::new();
    let mut frames: Vec<Block> = Vec::new();
    let pixel_size = config.pixel_size();
    let max_length = config.max_participant_head_length;
    let gutter = config.msg_gutter;
    let ghost all = contents(diagram@.notes);
    let mut j: usize = 0;
    proof {
        lemma_grows_on(old(layout)@, layout@, layout@);
    }
    while j < diagram.notes.len()
        invariant
            j <= diagram.notes.len(),
            diagram@.wf(),
            lifelines@.len() == diagram@.participants.len(),
            pixel_size == config.measured_size(),
            max_length == config.max_participant_head_length,
            gutter == config.msg_gutter,
            all == contents(diagram@.notes),
            layout@.wf(),
            old(layout)@.confines_all() ==> layout@.confines_all(),
            old(layout)@.grows_to(layout@),
            layout@ == with_notes(old(layout)@, diagram@.notes, *config, lifelines@, j as int),
            layout@.blocks.len() == old(layout)@.blocks.len() + j,
            counted(note_ids(markers@), old(layout)@.blocks.len() as int),
            notes_of(markers@, diagram@.notes.take(j as int), max_length),
            texts_held(layout@, note_ids(markers@), frames@, all.take(j as int), max_length, *config),
            noted_across(layout@, diagram@.notes.take(j as int), frames@, lifelines@, gutter),
        decreases diagram.notes.len() - j,
    {
        let ghost entered = layout@;
        let ghost ids = note_ids(markers@);
        let ghost so_far = frames@;
        let note = &diagram.notes[j];
        assert(diagram@.notes[j as int] == note@);
        assert(diagram@.notes[j as int].wf(
            j as int,
            diagram@.participants.len() as int,
            diagram@.messages.len() as int,
        ));
        let (id, lines) = layout.add_text_block(
            &note.content,
            max_length,
            config.padding,
            pixel_size,
        );
        let frame = *layout.b(id);
        let ghost with_block = layout@;
        put_across(layout, &note.horizontal_position, frame, lifelines, gutter);
        markers.push(NoteMarker { id: note.id, block_id: id, lines });
        frames.push(frame);
        proof {
            lemma_grows_on(entered, with_block, layout@);
            lemma_grows_on(old(layout)@, entered, layout@);
            let texts = all.take(j as int);
            let more = all.take(j + 1);
            assert(more == texts.push(note@.content));
            lemma_texts_held_on(entered, layout@, ids, so_far, texts, max_length, *config);
            lemma_holds_text_on(
                with_block,
                layout@,
                id,
                frame,
                wrapped(note@.content, max_length),
                config.padding,
                config.measured_size(),
            );
            assert(note_ids(markers@) == ids.push(id));
            lemma_texts_held_push(
                layout@,
                ids,
                so_far,
                texts,
                id,
                frame,
                note@.content,
                max_length,
                *config,
            );
            lemma_noted_across_on(
                entered,
                layout@,
                diagram@.notes.take(j as int),
                so_far,
                lifelines@,
                gutter,
            );
            let done = diagram@.notes.take(j + 1);
            assert(done == diagram@.notes.take(j as int).push(note@));
            assert forall|q: int| 0 <= q < done.len() implies #[trigger] note_across(
                layout@,
                done[q].horizontal_position,
                frames@[q],
                lifelines@,
                gutter,
            ) by {
                if q < j {
                    assert(note_across(
                        layout@,
                        diagram@.notes.take(j as int)[q].horizontal_position,
                        so_far[q],
                        lifelines@,
                        gutter,
                    ));
                }
            }
        }
        j += 1;
    }
    assert(all.take(j as int) == all);
    assert(diagram@.notes.take(j as int) == diagram@.notes);
    (markers, frames)
}

/// The layout with the first `n` lifelines ending below the last of the boxes `boxes`, if
/// there is one.
pub open spec fn with_passing(
    l: LayoutView,
    lifelines: Seq<Block>,
    boxes: Seq<Block>,
    gutter: u32,
    n: int,
) -> LayoutView
    decreases n,
{
    if n <= 0 || boxes.len() == 0 {
        l
    } else {
        with_passing(l, lifelines, boxes, gutter, n - 1).with_constraint(
            passes(lifelines[n - 1], boxes.last(), gutter),
        )
    }
}

/// Lets every lifeline end below the last of the boxes `boxes`, if there is one.
fn pass_notes(layout: &mut Layout, lifelines: &Vec<Block>, boxes: &Vec<Block>, gutter: u32)
    requires
        old(layout)@.wf(),
    ensures
        final(layout)@.wf(),
        old(layout)@.confines_all() ==> final(layout)@.confines_all(),
        old(layout)@.grows_to(final(layout)@),
        final(layout)@ == with_passing(
            old(layout)@,
            lifelines@,
            boxes@,
            gutter,
            lifelines@.len() as int,
        ),
        final(layout)@.blocks == old(layout)@.blocks,
        passed(final(layout)@, lifelines@, lifelines@.len() as int, boxes@, gutter),
{
    proof {
        lemma_grows_on(old(layout)@, layout@, layout@);
    }
    if boxes.len() == 0 {
        return ;
    }
    let last = boxes[boxes.len() - 1];
    let mut p: usize = 0;
    while p < lifelines.len()
        invariant
            p <= lifelines.len(),
            boxes@.len() > 0,
            last == boxes@.last(),
            layout@.wf(),
            old(layout)@.confines_all() ==> layout@.confines_all(),
            old(layout)@.grows_to(layout@),
            layout@ == with_passing(old(layout)@, lifelines@, boxes@, gutter, p as int),
            layout@.blocks == old(layout)@.blocks,
            passed(layout@, lifelines@, p as int, boxes@, gutter),
        decreases lifelines.len() - p,
    {
        let ghost entered = layout@;
        let lifeline = lifelines[p];
        layout.add_constraint(
            Constraint::required(
                lifeline.bottom(),
                Relation::GreaterOrEqual,
                Expression::two(1, last.y, 1, last.height, gutter as i128),
            ),
        );
        proof {
            lemma_grows_on(old(layout)@, entered, layout@);
            lemma_passed_on(entered, layout@, lifelines@, p as int, boxes@, gutter);
        }
        p += 1;
    }
}

/// The layout with the box `b` of a note put where `position` says, downwards.
pub open spec fn with_note_down(
    l: LayoutView,
    position: VerticalNotePosition,
    b: Block,
    heads: Seq<Block>,
    arrows: Seq<Block>,
    boxes: Seq<Block>,
    gutter: u32,
) -> LayoutView {
    match position {
        VerticalNotePosition::First => if heads.len() > 0 {
            l.with_constraint(follows(b, heads[0], gutter))
        } else {
            l
        },
        VerticalNotePosition::AfterMessage(message) => l.with_constraint(
            follows(b, arrows[message as int], gutter),
        ),
        VerticalNotePosition::AfterNote(note) => l.with_constraint(
            follows(b, boxes[note as int], gutter),
        ),
    }
}

/// The layout with the boxes of the first `n` notes put in their places downwards.
pub open spec fn with_notes_down(
    l: LayoutView,
    notes: Seq<NoteView>,
    boxes: Seq<Block>,
    heads: Seq<Block>,
    arrows: Seq<Block>,
    gutter: u32,
    n: int,
) -> LayoutView
    decreases n,
{
    if n <= 0 {
        l
    } else {
        with_note_down(
            with_notes_down(l, notes, boxes, heads, arrows, gutter, n - 1),
            notes[n - 1].vertical_position,
            boxes[n - 1],
            heads,
            arrows,
            boxes,
            gutter,
        )
    }
}

/// Puts the box of every note in its place downwards.
fn place_notes(
    layout: &mut Layout,
    diagram: &SequenceDiagram,
    boxes: &Vec<Block>,
    heads: &Vec<Block>,
    arrows: &Vec<Block>,
    gutter: u32,
)
    requires
        old(layout)@.wf(),
        diagram@.wf(),
        boxes@.len() == diagram@.notes.len(),
        arrows@.len() == diagram@.messages.len(),
    ensures
        final(layout)@.wf(),
        old(layout)@.confines_all() ==> final(layout)@.confines_all(),
        old(layout)@.grows_to(final(layout)@),
        final(layout)@ == with_notes_down(
            old(layout)@,
            diagram@.notes,
            boxes@,
            heads@,
            arrows@,
            gutter,
            diagram@.notes.len() as int,
        ),
        final(layout)@.blocks == old(layout)@.blocks,
        noted_down(
            final(layout)@,
            diagram@.notes,
            diagram@.notes.len() as int,
            boxes@,
            heads@,
            arrows@,
            gutter,
        ),
{
    let mut j: usize = 0;
    proof {
        lemma_grows_on(old(layout)@, layout@, layout@);
    }
    while j < diagram.notes.len()
        invariant
            j <= diagram.notes.len(),
            diagram@.wf(),
            boxes@.len() == diagram@.notes.len(),
            arrows@.len() == diagram@.messages.len(),
            layout@.wf(),
            old(layout)@.confines_all() ==> layout@.confines_all(),
            old(layout)@.grows_to(layout@),
            layout@ == with_notes_down(
                old(layout)@,
                diagram@.notes,
                boxes@,
                heads@,
                arrows@,
                gutter,
                j as int,
            ),
            layout@.blocks == old(layout)@.blocks,
            noted_down(layout@, diagram@.notes, j as int, boxes@, heads@, arrows@, gutter),
        decreases diagram.notes.len() - j,
    {
        let ghost entered = layout@;
        let note = &diagram.notes[j];
        assert(diagram@.notes[j as int] == note@);
        assert(diagram@.notes[j as int].wf(
            j as int,
            diagram@.participants.len() as int,
            diagram@.messages.len() as int,
        ));
        let frame = boxes[j];
        match note.vertical_position {
            VerticalNotePosition::First => {
                if heads.len() > 0 {
                    let above = heads[0];
                    layout.add_constraint(
                        Constraint::strong(
                            Expression::variable(frame.y),
                            Expression::two(1, above.y, 1, above.height, gutter as i128),
                        ),
                    );
                }
            },
            VerticalNotePosition::AfterMessage(message) => {
                let above = arrows[message];
                layout.add_constraint(
                    Constraint::strong(
                        Expression::variable(frame.y),
                        Expression::two(1, above.y, 1, above.height, gutter as i128),
                    ),
                );
            },
            VerticalNotePosition::AfterNote(earlier) => {
                let above = boxes[earlier];
                layout.add_constraint(
                    Constraint::strong(
                        Expression::variable(frame.y),
                        Expression::two(1, above.y, 1, above.height, gutter as i128),
                    ),
                );
            },
        }
        proof {
            lemma_grows_on(entered, layout@, layout@);
            lemma_grows_on(old(layout)@, entered, layout@);
            lemma_noted_down_on(
                entered,
                layout@,
                diagram@.notes,
                j as int,
                boxes@,
                heads@,
                arrows@,
                gutter,
            );
        }
        j += 1;
    }
}

// ---------------------------------------------------------------------------------------------
// The scene
// ---------------------------------------------------------------------------------------------
/// A diagram laid out: the layout with its blocks and constraints, and for every element that
/// is drawn the block that it has there.
pub struct Scene {
    pub layout: Layout,
    pub heads: Vec<ParticipantMarker>,
    pub footers: Vec<ParticipantMarker>,
    pub lifelines: Vec<ParticipantLine>,
    pub activations: Vec<ActivationMarker>,
    pub arrows: Vec<MsgArrow>,
    pub notes: Vec<NoteMarker>,
}

/// The blocks that `l` has under `ids`.
pub open spec fn frames(l: LayoutView, ids: Seq<BlockId>) -> Seq<Block> {
    Seq::new(ids.len(), |k: int| l.blocks[ids[k] as int])
}

/// Every one of `ids` is a block of `l`.
pub open spec fn all_blocks(l: LayoutView, ids: Seq<BlockId>) -> bool {
    forall|k: int| 0 <= k < ids.len() ==> (#[trigger] ids[k]) < l.blocks.len()
}

/// Each lifeline is that of the participant of its position.
pub open spec fn lifelines_of(lifelines: Seq<ParticipantLine>, n: nat) -> bool {
    &&& lifelines.len() == n
    &&& forall|p: int| 0 <= p < n ==> (#[trigger] lifelines[p]).participant_id == p
}

/// Each arrow is that of the message of its position.
pub open spec fn arrows_of(arrows: Seq<MsgArrow>, messages: Seq<MessageView>, max_length: usize) -> bool {
    &&& arrows.len() == messages.len()
    &&& forall|k: int|
        0 <= k < arrows.len() ==> arrow_of(#[trigger] arrows[k], messages[k], max_length)
}

/// The arrows of participant `p` are lined up and tied to its lifeline.
pub open spec fn tied_for(
    l: LayoutView,
    messages: Seq<MessageView>,
    arrows: Seq<Block>,
    lifelines: Seq<Block>,
    p: ParticipantId,
) -> bool {
    gridded(l, messages, arrows, p) && anchored(l, messages, arrows, lifelines[p as int], p)
}

/// The arrows of every participant are lined up and tied to its lifeline.
pub open spec fn tied(
    l: LayoutView,
    messages: Seq<MessageView>,
    arrows: Seq<Block>,
    lifelines: Seq<Block>,
) -> bool {
    forall|p: ParticipantId|
        p < lifelines.len() ==> #[trigger] tied_for(l, messages, arrows, lifelines, p)
}

impl Scene {
    /// The blocks of the arrows.
    pub open spec fn arrow_frames(self) -> Seq<Block> {
        frames(self.layout@, arrow_ids(self.arrows@))
    }

    /// The blocks of the lifelines.
    pub open spec fn lifeline_frames(self) -> Seq<Block> {
        frames(self.layout@, lifeline_ids(self.lifelines@))
    }

    /// The blocks of the activations.
    pub open spec fn activation_frames(self) -> Seq<Block> {
        frames(self.layout@, activation_ids(self.activations@))
    }

    /// The blocks of the heads.
    pub open spec fn head_frames(self) -> Seq<Block> {
        frames(self.layout@, marker_ids(self.heads@))
    }

    /// The blocks of the footers.
    pub open spec fn footer_frames(self) -> Seq<Block> {
        frames(self.layout@, marker_ids(self.footers@))
    }

    /// The blocks of the notes.
    pub open spec fn note_frames(self) -> Seq<Block> {
        frames(self.layout@, note_ids(self.notes@))
    }

    /// Every element of the scene has a block of the layout.
    pub open spec fn wf(self) -> bool {
        &&& self.layout@.wf()
        &&& all_blocks(self.layout@, arrow_ids(self.arrows@))
        &&& all_blocks(self.layout@, lifeline_ids(self.lifelines@))
        &&& all_blocks(self.layout@, activation_ids(self.activations@))
        &&& all_blocks(self.layout@, marker_ids(self.heads@))
        &&& all_blocks(self.layout@, marker_ids(self.footers@))
        &&& all_blocks(self.layout@, note_ids(self.notes@))
    }

    /// The scene shows the diagram `d`, drawn with `c`: it has an arrow for every message, a
    /// lifeline, a head and a footer for every participant, a rectangle for every activation
    /// and a box for every note; the texts are broken into lines and their blocks sized for
    /// them; and the pending constraints of the layout confine every block and put every
    /// element in its place.
    pub open spec fn shows(self, d: SequenceDiagramView, c: SvgConfig) -> bool {
        let l = self.layout@;
        &&& self.wf()
        &&& l.confines_all()
        &&& arrows_of(self.arrows@, d.messages, c.max_msg_label_length)
        &&& lifelines_of(self.lifelines@, d.participants.len())
        &&& self.activations@.len() == d.activations.len()
        &&& markers_of(self.heads@, d.participants, c.max_participant_head_length)
        &&& markers_of(self.footers@, d.participants, c.max_participant_head_length)
        &&& notes_of(self.notes@, d.notes, c.max_participant_head_length)
        &&& texts_held(
            l,
            arrow_ids(self.arrows@),
            self.arrow_frames(),
            labels(d.messages),
            c.max_msg_label_length,
            c,
        )
        &&& texts_held(
            l,
            marker_ids(self.heads@),
            self.head_frames(),
            names(d.participants),
            c.max_participant_head_length,
            c,
        )
        &&& texts_held(
            l,
            marker_ids(self.footers@),
            self.footer_frames(),
            names(d.participants),
            c.max_participant_head_length,
            c,
        )
        &&& texts_held(
            l,
            note_ids(self.notes@),
            self.note_frames(),
            contents(d.notes),
            c.max_participant_head_length,
            c,
        )
        &&& stacked(l, self.arrow_frames(), c.msg_gutter)
        &&& tied(l, d.messages, self.arrow_frames(), self.lifeline_frames())
        &&& levelled(l, self.lifeline_frames())
        &&& hung(l, self.lifeline_frames(), self.arrow_frames(), c.msg_gutter)
        &&& activated(
            l,
            d.activations,
            self.activation_frames(),
            self.arrow_frames(),
            self.lifeline_frames(),
        )
        &&& crowned(l, self.head_frames(), self.footer_frames(), self.lifeline_frames())
        &&& noted_across(l, d.notes, self.note_frames(), self.lifeline_frames(), c.msg_gutter)
        &&& passed(
            l,
            self.lifeline_frames(),
            self.lifeline_frames().len() as int,
            self.note_frames(),
            c.msg_gutter,
        )
        &&& noted_down(
            l,
            d.notes,
            d.notes.len() as int,
            self.note_frames(),
            self.head_frames(),
            self.arrow_frames(),
            c.msg_gutter,
        )
    }
}

proof fn lemma_stacked_on(before: LayoutView, after: LayoutView, arrows: Seq<Block>, gutter: u32)
    requires
        before.keeps(after),
        stacked(before, arrows, gutter),
    ensures
        stacked(after, arrows, gutter),
{
    assert forall|k: int| 0 <= k && k + 1 < arrows.len() implies #[trigger] below(
        after,
        arrows,
        gutter,
        k,
    ) by {
        assert(below(before, arrows, gutter, k));
    }
}

proof fn lemma_gridded_on(
    before: LayoutView,
    after: LayoutView,
    messages: Seq<MessageView>,
    arrows: Seq<Block>,
    p: ParticipantId,
)
    requires
        before.keeps(after),
        gridded(before, messages, arrows, p),
    ensures
        gridded(after, messages, arrows, p),
{
    let first = first_touch(messages, p, 0);
    assert forall|k: int|
        first < k < messages.len() && touches(#[trigger] messages[k], p) implies after.has(
        equal(edge(messages[k], arrows[k], p), edge(messages[first], arrows[first], p)),
    ) by {
        assert(before.has(
            equal(edge(messages[k], arrows[k], p), edge(messages[first], arrows[first], p)),
        ));
    }
}

/// The blocks held under `ids` are the blocks that the layout has there.
proof fn lemma_frames(l: LayoutView, ids: Seq<BlockId>, blocks: Seq<Block>)
    requires
        held(l, ids, blocks),
    ensures
        frames(l, ids) == blocks,
        all_blocks(l, ids),
{
    assert forall|k: int| 0 <= k < ids.len() implies frames(l, ids)[k] == blocks[k] && (
    #[trigger] ids[k]) < l.blocks.len() by {
        assert(l.holds(ids[k], blocks[k]));
    }
    assert(frames(l, ids) =~= blocks);
}

fn all_below(ids: &Vec<BlockId>, n: usize) -> (yes: bool)
    ensures
        yes == (forall|k: int| 0 <= k < ids@.len() ==> (#[trigger] ids@[k]) < n),
{
    let mut k: usize = 0;
    while k < ids.len()
        invariant
            k <= ids.len(),
            forall|j: int| 0 <= j < k ==> (#[trigger] ids@[j]) < n,
        decreases ids.len() - k,
    {
        if ids[k] >= n {
            assert(!(ids@[k as int] < n));
            return false;
        }
        k += 1;
    }
    true
}

impl Scene {
    fn block_ids(&self) -> (ids: Vec<BlockId>)
        ensures
            ids@ == arrow_ids(self.arrows@) + lifeline_ids(self.lifelines@) + activation_ids(
                self.activations@,
            ) + marker_ids(self.heads@) + marker_ids(self.footers@) + note_ids(self.notes@),
    {
        let mut ids: Vec<BlockId> = Vec::new();
        let mut k: usize = 0;
        while k < self.arrows.len()
            invariant
                k <= self.arrows.len(),
                ids@ == arrow_ids(self.arrows@).take(k as int),
            decreases self.arrows.len() - k,
        {
            ids.push(self.arrows[k].block);
            assert(arrow_ids(self.arrows@).take(k + 1) == arrow_ids(self.arrows@).take(
                k as int,
            ).push(self.arrows@[k as int].block));
            k += 1;
        }
        assert(arrow_ids(self.arrows@).take(k as int) == arrow_ids(self.arrows@));
        let ghost done = ids@;
        k = 0;
        assert(lifeline_ids(self.lifelines@).take(0) == Seq::<BlockId>::empty());
        while k < self.lifelines.len()
            invariant
                k <= self.lifelines.len(),
                ids@ == done + lifeline_ids(self.lifelines@).take(k as int),
            decreases self.lifelines.len() - k,
        {
            ids.push(self.lifelines[k].block);
            assert(lifeline_ids(self.lifelines@).take(k + 1) == lifeline_ids(
                self.lifelines@,
            ).take(k as int).push(self.lifelines@[k as int].block));
            k += 1;
        }
        assert(lifeline_ids(self.lifelines@).take(k as int) == lifeline_ids(self.lifelines@));
        let ghost done = ids@;
        k = 0;
        assert(activation_ids(self.activations@).take(0) == Seq::<BlockId>::empty());
        while k < self.activations.len()
            invariant
                k <= self.activations.len(),
                ids@ == done + activation_ids(self.activations@).take(k as int),
            decreases self.activations.len() - k,
        {
            ids.push(self.activations[k].block);
            assert(activation_ids(self.activations@).take(k + 1) == activation_ids(
                self.activations@,
            ).take(k as int).push(self.activations@[k as int].block));
            k += 1;
        }
        assert(activation_ids(self.activations@).take(k as int) == activation_ids(
            self.activations@,
        ));
        let ghost done = ids@;
        k = 0;
        assert(marker_ids(self.heads@).take(0) == Seq::<BlockId>::empty());
        while k < self.heads.len()
            invariant
                k <= self.heads.len(),
                ids@ == done + marker_ids(self.heads@).take(k as int),
            decreases self.heads.len() - k,
        {
            ids.push(self.heads[k].block_id);
            assert(marker_ids(self.heads@).take(k + 1) == marker_ids(self.heads@).take(
                k as int,
            ).push(self.heads@[k as int].block_id));
            k += 1;
        }
        assert(marker_ids(self.heads@).take(k as int) == marker_ids(self.heads@));
        let ghost done = ids@;
        k = 0;
        assert(marker_ids(self.footers@).take(0) == Seq::<BlockId>::empty());
        while k < self.footers.len()
            invariant
                k <= self.footers.len(),
                ids@ == done + marker_ids(self.footers@).take(k as int),
            decreases self.footers.len() - k,
        {
            ids.push(self.footers[k].block_id);
            assert(marker_ids(self.footers@).take(k + 1) == marker_ids(self.footers@).take(
                k as int,
            ).push(self.footers@[k as int].block_id));
            k += 1;
        }
        assert(marker_ids(self.footers@).take(k as int) == marker_ids(self.footers@));
        let ghost done = ids@;
        k = 0;
        assert(note_ids(self.notes@).take(0) == Seq::<BlockId>::empty());
        while k < self.notes.len()
            invariant
                k <= self.notes.len(),
                ids@ == done + note_ids(self.notes@).take(k as int),
            decreases self.notes.len() - k,
        {
            ids.push(self.notes[k].block_id);
            assert(note_ids(self.notes@).take(k + 1) == note_ids(self.notes@).take(
                k as int,
            ).push(self.notes@[k as int].block_id));
            k += 1;
        }
        assert(note_ids(self.notes@).take(k as int) == note_ids(self.notes@));
        ids
    }

    /// Tells whether the scene is well formed. A scene that `arrange` made always is, also once
    /// its layout is solved.
    pub fn is_well_formed(&self) -> (yes: bool)
        ensures
            yes == self.wf(),
    {
        if !self.layout.is_well_formed() {
            return false;
        }
        let ids = self.block_ids();
        let n = self.layout.block_count();
        let yes = all_below(&ids, n);
        proof {
            let a = arrow_ids(self.arrows@);
            let b = lifeline_ids(self.lifelines@);
            let c = activation_ids(self.activations@);
            let d = marker_ids(self.heads@);
            let e = marker_ids(self.footers@);
            let f = note_ids(self.notes@);
            let l = self.layout@;
            if yes {
                assert forall|k: int| 0 <= k < a.len() implies (#[trigger] a[k]) < n by {
                    assert(ids@[k] == a[k]);
                }
                assert forall|k: int| 0 <= k < b.len() implies (#[trigger] b[k]) < n by {
                    assert(ids@[a.len() + k] == b[k]);
                }
                assert forall|k: int| 0 <= k < c.len() implies (#[trigger] c[k]) < n by {
                    assert(ids@[a.len() + b.len() + k] == c[k]);
                }
                assert forall|k: int| 0 <= k < d.len() implies (#[trigger] d[k]) < n by {
                    assert(ids@[a.len() + b.len() + c.len() + k] == d[k]);
                }
                assert forall|k: int| 0 <= k < e.len() implies (#[trigger] e[k]) < n by {
                    assert(ids@[a.len() + b.len() + c.len() + d.len() + k] == e[k]);
                }
                assert forall|k: int| 0 <= k < f.len() implies (#[trigger] f[k]) < n by {
                    assert(ids@[a.len() + b.len() + c.len() + d.len() + e.len() + k] == f[k]);
                }
            } else {
                let k = choose|k: int| 0 <= k < ids@.len() && !((#[trigger] ids@[k]) < n);
                if k < a.len() {
                    assert(a[k] == ids@[k]);
                } else if k < a.len() + b.len() {
                    assert(b[k - a.len()] == ids@[k]);
                } else if k < a.len() + b.len() + c.len() {
                    assert(c[k - a.len() - b.len()] == ids@[k]);
                } else if k < a.len() + b.len() + c.len() + d.len() {
                    assert(d[k - a.len() - b.len() - c.len()] == ids@[k]);
                } else if k < a.len() + b.len() + c.len() + d.len() + e.len() {
                    assert(e[k - a.len() - b.len() - c.len() - d.len()] == ids@[k]);
                } else {
                    assert(f[k - a.len() - b.len() - c.len() - d.len() - e.len()] == ids@[k]);
                }
            }
        }
        yes
    }
}

/// Every second of `blocks`, `n` of them, from `first` on.
pub open spec fn every_second(blocks: Seq<Block>, first: int, n: nat) -> Seq<Block> {
    Seq::new(n, |p: int| blocks[first + 2 * p])
}

/// The layout with the arrows of the diagram: a text block for the label of every message; the
/// spacing of the arrows; the lining up of the arrows of each participant.
pub open spec fn arranged_messages(l: LayoutView, d: SequenceDiagramView, c: SvgConfig) -> LayoutView {
    let m = d.messages.len() as int;
    let with_texts = with_arrows(l, d.messages, c, m);
    let arrows = with_texts.blocks.subrange(l.blocks.len() as int, l.blocks.len() + m);
    gridded_upto(
        with_texts.with_constraints(stacking(arrows, c.msg_gutter)),
        d.messages,
        arrows,
        d.participants.len() as int,
    )
}

/// The layout with what stands for the participants, the blocks of the arrows being `arrows`:
/// a lifeline for every participant; a rectangle for every activation; the tying of the first
/// arrow of each participant to its lifeline; a head and a footer for every participant.
pub open spec fn arranged_participants(
    l: LayoutView,
    d: SequenceDiagramView,
    c: SvgConfig,
    arrows: Seq<Block>,
) -> LayoutView {
    let n = d.participants.len() as int;
    let with_lines = with_lifelines(l, arrows, c.msg_gutter, n);
    let lifelines = with_lines.blocks.subrange(l.blocks.len() as int, l.blocks.len() + n);
    with_markers(
        with_anchors(
            with_activations(
                with_lines,
                d.activations,
                arrows,
                lifelines,
                d.activations.len() as int,
            ),
            d.messages,
            arrows,
            lifelines,
            n,
        ),
        d.participants,
        c,
        lifelines,
        n,
    )
}

/// The layout with the notes of the diagram, the blocks of the arrows, the lifelines and the
/// heads being `arrows`, `lifelines` and `heads`: a box for every note, put in its place
/// across; the passing of the last note by the lifelines; the placing of the notes downwards.
pub open spec fn arranged_notes(
    l: LayoutView,
    d: SequenceDiagramView,
    c: SvgConfig,
    arrows: Seq<Block>,
    lifelines: Seq<Block>,
    heads: Seq<Block>,
) -> LayoutView {
    let t = d.notes.len() as int;
    let with_boxes = with_notes(l, d.notes, c, lifelines, t);
    let boxes = with_boxes.blocks.subrange(l.blocks.len() as int, l.blocks.len() + t);
    with_notes_down(
        with_passing(with_boxes, lifelines, boxes, c.msg_gutter, lifelines.len() as int),
        d.notes,
        boxes,
        heads,
        arrows,
        c.msg_gutter,
        t,
    )
}

/// The layout of the diagram `d`, drawn with `c` in `font`, before it is solved: first the
/// arrows, then what stands for the participants, then the notes. The blocks are numbered in
/// the order in which they are added: arrows, lifelines, activations, head and footer of each
/// participant in turn, notes.
pub open spec fn arranged(d: SequenceDiagramView, c: SvgConfig, font: FontMetricsView) -> LayoutView {
    let m = d.messages.len() as int;
    let n = d.participants.len() as int;
    let a = d.activations.len() as int;
    let with_messages = arranged_messages(LayoutView::empty(font), d, c);
    let arrows = with_messages.blocks.subrange(0, m);
    let with_participants = arranged_participants(with_messages, d, c, arrows);
    let lifelines = with_participants.blocks.subrange(m, m + n);
    let heads = every_second(with_participants.blocks, m + n + a, n as nat);
    arranged_notes(with_participants, d, c, arrows, lifelines, heads)
}

impl Scene {
    /// The blocks of the scene are numbered in the order in which they were added: arrows,
    /// lifelines, activations, head and footer of each participant in turn, notes.
    pub open spec fn numbered(self, d: SequenceDiagramView) -> bool {
        let m = d.messages.len() as int;
        let n = d.participants.len() as int;
        let a = d.activations.len() as int;
        &&& counted(arrow_ids(self.arrows@), 0)
        &&& counted(lifeline_ids(self.lifelines@), m)
        &&& counted(activation_ids(self.activations@), m + n)
        &&& counted_by_two(marker_ids(self.heads@), m + n + a)
        &&& counted_by_two(marker_ids(self.footers@), m + n + a + 1)
        &&& counted(note_ids(self.notes@), m + n + a + 2 * n)
    }
}

impl Scene {
    /// The scene is what `arrange` makes of the diagram `d`, drawn with `c` in `font`.
    pub open spec fn arranges(self, d: SequenceDiagramView, c: SvgConfig, font: FontMetricsView) -> bool {
        &&& self.layout@ == arranged(d, c, font)
        &&& self.numbered(d)
        &&& self.shows(d, c)
    }
}

/// A stretch of the blocks of a layout is the same stretch of the blocks of a layout that has
/// grown from it.
proof fn lemma_stretch_kept(before: LayoutView, after: LayoutView, from: int, to: int)
    requires
        before.grows_to(after),
        0 <= from <= to <= before.blocks.len(),
    ensures
        after.blocks.subrange(from, to) == before.blocks.subrange(from, to),
{
    assert(after.blocks.subrange(from, to) =~= before.blocks.subrange(from, to));
}

/// The blocks held under every second id from `first` on are every second block of the layout.
proof fn lemma_every_second(l: LayoutView, ids: Seq<BlockId>, blocks: Seq<Block>, first: int)
    requires
        held(l, ids, blocks),
        counted_by_two(ids, first),
    ensures
        blocks == every_second(l.blocks, first, ids.len()),
{
    assert forall|p: int| 0 <= p < ids.len() implies blocks[p] == l.blocks[first + 2 * p] by {
        assert(l.holds(ids[p], blocks[p]));
        assert(ids[p] == first + 2 * p);
    }
    assert(blocks =~= every_second(l.blocks, first, ids.len()));
}

/// The blocks held under ids that count up from `first` are a stretch of the blocks of the
/// layout.
proof fn lemma_counted_frames(l: LayoutView, ids: Seq<BlockId>, blocks: Seq<Block>, first: int)
    requires
        held(l, ids, blocks),
        counted(ids, first),
        0 <= first <= l.blocks.len(),
    ensures
        blocks == l.blocks.subrange(first, first + ids.len()),
{
    if ids.len() > 0 {
        assert(l.holds(ids[ids.len() - 1], blocks[ids.len() - 1]));
        assert(ids[ids.len() - 1] == first + ids.len() - 1);
    }
    assert forall|k: int| 0 <= k < ids.len() implies blocks[k] == l.blocks.subrange(
        first,
        first + ids.len(),
    )[k] by {
        assert(l.holds(ids[k], blocks[k]));
        assert(ids[k] == first + k);
    }
    assert(blocks =~= l.blocks.subrange(first, first + ids.len()));
}

/// The arrows are those of the messages, and they are in place.
#[verifier::opaque]
spec fn arrows_placed(
    l: LayoutView,
    d: SequenceDiagramView,
    c: SvgConfig,
    arrows: Seq<MsgArrow>,
    frames: Seq<Block>,
) -> bool {
    &&& arrows_of(arrows, d.messages, c.max_msg_label_length)
    &&& texts_held(l, arrow_ids(arrows), frames, labels(d.messages), c.max_msg_label_length, c)
    &&& stacked(l, frames, c.msg_gutter)
    &&& forall|p: ParticipantId|
        p < d.participants.len() ==> #[trigger] gridded(l, d.messages, frames, p)
}

/// What stands for the participants: lifelines, activations, heads and footers, with their
/// blocks.
struct Columns {
    lifelines: Vec<ParticipantLine>,
    lifeline_frames: Vec<Block>,
    activations: Vec<ActivationMarker>,
    activation_frames: Vec<Block>,
    heads: Vec<ParticipantMarker>,
    head_frames: Vec<Block>,
    footers: Vec<ParticipantMarker>,
    footer_frames: Vec<Block>,
}

/// Lifelines, activations, heads and footers are those of the diagram, and they are in place.
#[verifier::opaque]
spec fn columns_placed(
    l: LayoutView,
    d: SequenceDiagramView,
    c: SvgConfig,
    arrows: Seq<Block>,
    columns: Columns,
) -> bool {
    &&& lifelines_placed(
        l,
        d.participants.len(),
        columns.lifelines@,
        columns.lifeline_frames@,
        arrows,
        c.msg_gutter,
    )
    &&& activations_placed(
        l,
        d.activations,
        columns.activations@,
        columns.activation_frames@,
        arrows,
        columns.lifeline_frames@,
    )
    &&& anchors_placed(l, d.messages, arrows, columns.lifeline_frames@)
    &&& markers_placed(
        l,
        d.participants,
        c,
        columns.heads@,
        columns.head_frames@,
        columns.footers@,
        columns.footer_frames@,
        columns.lifeline_frames@,
    )
}

/// The boxes are those of the notes, and they are in place.
#[verifier::opaque]
spec fn notes_placed(
    l: LayoutView,
    d: SequenceDiagramView,
    c: SvgConfig,
    arrows: Seq<Block>,
    lifelines: Seq<Block>,
    heads: Seq<Block>,
    notes: Seq<NoteMarker>,
    boxes: Seq<Block>,
) -> bool {
    &&& notes_of(notes, d.notes, c.max_participant_head_length)
    &&& texts_held(l, note_ids(notes), boxes, contents(d.notes), c.max_participant_head_length, c)
    &&& noted_across(l, d.notes, boxes, lifelines, c.msg_gutter)
    &&& passed(l, lifelines, lifelines.len() as int, boxes, c.msg_gutter)
    &&& noted_down(l, d.notes, d.notes.len() as int, boxes, heads, arrows, c.msg_gutter)
}

proof fn lemma_arrows_placed_on(
    before: LayoutView,
    after: LayoutView,
    d: SequenceDiagramView,
    c: SvgConfig,
    arrows: Seq<MsgArrow>,
    frames: Seq<Block>,
)
    requires
        before.grows_to(after),
        arrows_placed(before, d, c, arrows, frames),
    ensures
        arrows_placed(after, d, c, arrows, frames),
{
    reveal(arrows_placed);
    lemma_texts_held_on(
        before,
        after,
        arrow_ids(arrows),
        frames,
        labels(d.messages),
        c.max_msg_label_length,
        c,
    );
    lemma_stacked_on(before, after, frames, c.msg_gutter);
    assert forall|p: ParticipantId| p < d.participants.len() implies #[trigger] gridded(
        after,
        d.messages,
        frames,
        p,
    ) by {
        assert(gridded(before, d.messages, frames, p));
        lemma_gridded_on(before, after, d.messages, frames, p);
    }
}

proof fn lemma_columns_placed_on(
    before: LayoutView,
    after: LayoutView,
    d: SequenceDiagramView,
    c: SvgConfig,
    arrows: Seq<Block>,
    columns: Columns,
)
    requires
        before.grows_to(after),
        columns_placed(before, d, c, arrows, columns),
    ensures
        columns_placed(after, d, c, arrows, columns),
{
    reveal(columns_placed);
    lemma_lifelines_placed_on(
        before,
        after,
        d.participants.len(),
        columns.lifelines@,
        columns.lifeline_frames@,
        arrows,
        c.msg_gutter,
    );
    lemma_activations_placed_on(
        before,
        after,
        d.activations,
        columns.activations@,
        columns.activation_frames@,
        arrows,
        columns.lifeline_frames@,
    );
    lemma_anchors_placed_on(before, after, d.messages, arrows, columns.lifeline_frames@);
    lemma_markers_placed_on(
        before,
        after,
        d.participants,
        c,
        columns.heads@,
        columns.head_frames@,
        columns.footers@,
        columns.footer_frames@,
        columns.lifeline_frames@,
    );
}

/// Adds the arrows: a text block for the label of every message, one below the other, those of
/// each participant lined up.
fn arrange_messages(layout: &mut Layout, diagram: &SequenceDiagram, config: &SvgConfig) -> (added: (
    Vec<MsgArrow>,
    Vec<Block>,
))
    requires
        old(layout)@.wf(),
    ensures
        final(layout)@.wf(),
        old(layout)@.confines_all() ==> final(layout)@.confines_all(),
        old(layout)@.grows_to(final(layout)@),
        final(layout)@ == arranged_messages(old(layout)@, diagram@, *config),
        final(layout)@.blocks.len() == old(layout)@.blocks.len() + diagram@.messages.len(),
        counted(arrow_ids(added.0@), old(layout)@.blocks.len() as int),
        added.0@.len() == diagram@.messages.len(),
        added.1@ == final(layout)@.blocks.subrange(
            old(layout)@.blocks.len() as int,
            (old(layout)@.blocks.len() + diagram@.messages.len()) as int,
        ),
        arrows_placed(final(layout)@, diagram@, *config, added.0@, added.1@),
{
    let ghost d = diagram@;
    let (arrows, frames) = add_arrows(layout, diagram, config);
    let ghost l1 = layout@;
    proof {
        lemma_grows_on(l1, l1, l1);
        lemma_texts_held_on(
            l1,
            l1,
            arrow_ids(arrows@),
            frames@,
            labels(d.messages),
            config.max_msg_label_length,
            *config,
        );
        lemma_counted_frames(l1, arrow_ids(arrows@), frames@, old(layout)@.blocks.len() as int);
    }
    stack_arrows(layout, &arrows, Ghost(frames@), config.msg_gutter);
    let ghost l2 = layout@;
    grid_arrows(layout, diagram, &frames);
    proof {
        let l = layout@;
        lemma_grows_on(l1, l2, l);
        lemma_grows_on(old(layout)@, l1, l);
        lemma_texts_held_on(
            l1,
            l,
            arrow_ids(arrows@),
            frames@,
            labels(d.messages),
            config.max_msg_label_length,
            *config,
        );
        lemma_stacked_on(l2, l, frames@, config.msg_gutter);
        reveal(arrows_placed);
    }
    (arrows, frames)
}

/// Adds what stands for the participants: lifelines, the rectangles of the activations, the
/// tying of arrows to lifelines, heads and footers.
fn arrange_participants(
    layout: &mut Layout,
    diagram: &SequenceDiagram,
    config: &SvgConfig,
    arrows: &Vec<Block>,
) -> (columns: Columns)
    requires
        old(layout)@.wf(),
        diagram@.wf(),
        arrows@.len() == diagram@.messages.len(),
    ensures
        final(layout)@.wf(),
        old(layout)@.confines_all() ==> final(layout)@.confines_all(),
        old(layout)@.grows_to(final(layout)@),
        final(layout)@ == arranged_participants(old(layout)@, diagram@, *config, arrows@),
        final(layout)@.blocks.len() == old(layout)@.blocks.len() + 3
            * diagram@.participants.len() + diagram@.activations.len(),
        counted(lifeline_ids(columns.lifelines@), old(layout)@.blocks.len() as int),
        counted(
            activation_ids(columns.activations@),
            (old(layout)@.blocks.len() + diagram@.participants.len()) as int,
        ),
        counted_by_two(
            marker_ids(columns.heads@),
            (old(layout)@.blocks.len() + diagram@.participants.len()
                + diagram@.activations.len()) as int,
        ),
        counted_by_two(
            marker_ids(columns.footers@),
            (old(layout)@.blocks.len() + diagram@.participants.len()
                + diagram@.activations.len() + 1) as int,
        ),
        columns.lifeline_frames@ == final(layout)@.blocks.subrange(
            old(layout)@.blocks.len() as int,
            (old(layout)@.blocks.len() + diagram@.participants.len()) as int,
        ),
        columns.head_frames@ == every_second(
            final(layout)@.blocks,
            (old(layout)@.blocks.len() + diagram@.participants.len()
                + diagram@.activations.len()) as int,
            diagram@.participants.len(),
        ),
        columns_placed(final(layout)@, diagram@, *config, arrows@, columns),
{
    let ghost d = diagram@;
    let gutter = config.msg_gutter;
    let (lifelines, lifeline_frames) = add_lifelines(
        layout,
        diagram.participants.len(),
        arrows,
        gutter,
    );
    let ghost l1 = layout@;
    let (activations, activation_frames) = add_activations(
        layout,
        diagram,
        arrows,
        &lifeline_frames,
    );
    let ghost l2 = layout@;
    anchor_arrows(layout, diagram, arrows, &lifeline_frames);
    let ghost l3 = layout@;
    let markers = add_markers(layout, diagram, config, &lifeline_frames);
    let ghost l = layout@;
    let Markers { heads, head_frames, footers, footer_frames } = markers;
    let columns = Columns {
        lifelines,
        lifeline_frames,
        activations,
        activation_frames,
        heads,
        head_frames,
        footers,
        footer_frames,
    };
    proof {
        lemma_grows_on(l2, l3, l);
        lemma_grows_on(l1, l2, l);
        lemma_grows_on(old(layout)@, l1, l);
        lemma_lifelines_placed_on(
            l1,
            l,
            d.participants.len(),
            columns.lifelines@,
            columns.lifeline_frames@,
            arrows@,
            gutter,
        );
        lemma_activations_placed_on(
            l2,
            l,
            d.activations,
            columns.activations@,
            columns.activation_frames@,
            arrows@,
            columns.lifeline_frames@,
        );
        lemma_anchors_placed_on(l3, l, d.messages, arrows@, columns.lifeline_frames@);
        lemma_stretch_kept(
            l1,
            l,
            old(layout)@.blocks.len() as int,
            (old(layout)@.blocks.len() + d.participants.len()) as int,
        );
        reveal(columns_placed);
    }
    columns
}

/// Adds the notes: a box for every note, put in its place across and downwards, and passed by
/// the lifelines.
fn arrange_notes(
    layout: &mut Layout,
    diagram: &SequenceDiagram,
    config: &SvgConfig,
    arrows: &Vec<Block>,
    lifelines: &Vec<Block>,
    heads: &Vec<Block>,
) -> (added: (Vec<NoteMarker>, Vec<Block>))
    requires
        old(layout)@.wf(),
        diagram@.wf(),
        arrows@.len() == diagram@.messages.len(),
        lifelines@.len() == diagram@.participants.len(),
    ensures
        final(layout)@.wf(),
        old(layout)@.confines_all() ==> final(layout)@.confines_all(),
        old(layout)@.grows_to(final(layout)@),
        final(layout)@ == arranged_notes(
            old(layout)@,
            diagram@,
            *config,
            arrows@,
            lifelines@,
            heads@,
        ),
        final(layout)@.blocks.len() == old(layout)@.blocks.len() + diagram@.notes.len(),
        counted(note_ids(added.0@), old(layout)@.blocks.len() as int),
        notes_placed(
            final(layout)@,
            diagram@,
            *config,
            arrows@,
            lifelines@,
            heads@,
            added.0@,
            added.1@,
        ),
{
    let ghost d = diagram@;
    let gutter = config.msg_gutter;
    let (notes, boxes) = add_notes(layout, diagram, config, lifelines);
    let ghost l1 = layout@;
    proof {
        lemma_grows_on(l1, l1, l1);
        lemma_texts_held_on(
            l1,
            l1,
            note_ids(notes@),
            boxes@,
            contents(d.notes),
            config.max_participant_head_length,
            *config,
        );
        lemma_counted_frames(l1, note_ids(notes@), boxes@, old(layout)@.blocks.len() as int);
    }
    pass_notes(layout, lifelines, &boxes, gutter);
    let ghost l2 = layout@;
    place_notes(layout, diagram, &boxes, heads, arrows, gutter);
    proof {
        let l = layout@;
        lemma_grows_on(l1, l2, l);
        lemma_grows_on(old(layout)@, l1, l);
        lemma_texts_held_on(
            l1,
            l,
            note_ids(notes@),
            boxes@,
            contents(d.notes),
            config.max_participant_head_length,
            *config,
        );
        lemma_noted_across_on(l1, l, d.notes, boxes@, lifelines@, gutter);
        lemma_passed_on(l2, l, lifelines@, lifelines@.len() as int, boxes@, gutter);
        reveal(notes_placed);
    }
    (notes, boxes)
}

/// A scene whose parts are in place in its layout shows the diagram.
proof fn lemma_shows(
    scene: Scene,
    d: SequenceDiagramView,
    c: SvgConfig,
    arrow_frames: Seq<Block>,
    columns: Columns,
    boxes: Seq<Block>,
)
    requires
        scene.layout@.wf(),
        scene.layout@.confines_all(),
        scene.lifelines == columns.lifelines,
        scene.activations == columns.activations,
        scene.heads == columns.heads,
        scene.footers == columns.footers,
        arrows_placed(scene.layout@, d, c, scene.arrows@, arrow_frames),
        columns_placed(scene.layout@, d, c, arrow_frames, columns),
        notes_placed(
            scene.layout@,
            d,
            c,
            arrow_frames,
            columns.lifeline_frames@,
            columns.head_frames@,
            scene.notes@,
            boxes,
        ),
    ensures
        scene.shows(d, c),
{
    reveal(arrows_placed);
    reveal(columns_placed);
    reveal(lifelines_placed);
    reveal(activations_placed);
    reveal(anchors_placed);
    reveal(markers_placed);
    reveal(notes_placed);
    let l = scene.layout@;
    lemma_grows_on(l, l, l);
    lemma_texts_held_on(
        l,
        l,
        arrow_ids(scene.arrows@),
        arrow_frames,
        labels(d.messages),
        c.max_msg_label_length,
        c,
    );
    lemma_texts_held_on(
        l,
        l,
        marker_ids(scene.heads@),
        columns.head_frames@,
        names(d.participants),
        c.max_participant_head_length,
        c,
    );
    lemma_texts_held_on(
        l,
        l,
        marker_ids(scene.footers@),
        columns.footer_frames@,
        names(d.participants),
        c.max_participant_head_length,
        c,
    );
    lemma_texts_held_on(
        l,
        l,
        note_ids(scene.notes@),
        boxes,
        contents(d.notes),
        c.max_participant_head_length,
        c,
    );
    lemma_frames(l, arrow_ids(scene.arrows@), arrow_frames);
    lemma_frames(l, lifeline_ids(scene.lifelines@), columns.lifeline_frames@);
    lemma_frames(l, activation_ids(scene.activations@), columns.activation_frames@);
    lemma_frames(l, marker_ids(scene.heads@), columns.head_frames@);
    lemma_frames(l, marker_ids(scene.footers@), columns.footer_frames@);
    lemma_frames(l, note_ids(scene.notes@), boxes);
    assert forall|p: ParticipantId| p < columns.lifeline_frames@.len() implies #[trigger] tied_for(
        l,
        d.messages,
        arrow_frames,
        columns.lifeline_frames@,
        p,
    ) by {
        assert(gridded(l, d.messages, arrow_frames, p));
        assert(anchored(l, d.messages, arrow_frames, columns.lifeline_frames@[p as int], p));
    }
}

/// Lays out the diagram: a block for every element, and the constraints that the blocks have
/// to meet. Nothing is solved yet.
///
/// There is a lifeline for every participant also where the diagram has no message; it then
/// has no extent, and head and footer meet on it.
pub fn arrange(diagram: &SequenceDiagram, config: &SvgConfig, font: FontMetrics) -> (scene: Scene)
    requires
        diagram@.wf(),
        font@.wf(),
    ensures
        scene.arranges(diagram@, *config, font@),
{
    let ghost d = diagram@;
    let mut layout = Layout::new(font);
    let (arrows, arrow_frames) = arrange_messages(&mut layout, diagram, config);
    let ghost l1 = layout@;
    let columns = arrange_participants(&mut layout, diagram, config, &arrow_frames);
    let ghost l2 = layout@;
    let (notes, boxes) = arrange_notes(
        &mut layout,
        diagram,
        config,
        &arrow_frames,
        &columns.lifeline_frames,
        &columns.head_frames,
    );
    let ghost l = layout@;
    proof {
        lemma_grows_on(l1, l2, l);
        lemma_arrows_placed_on(l1, l, d, *config, arrows@, arrow_frames@);
        lemma_columns_placed_on(l2, l, d, *config, arrow_frames@, columns);
    }
    let scene = Scene {
        layout,
        heads: columns.heads,
        footers: columns.footers,
        lifelines: columns.lifelines,
        activations: columns.activations,
        arrows,
        notes,
    };
    proof {
        lemma_shows(scene, d, *config, arrow_frames@, columns, boxes@);
    }
    scene
}

// ---------------------------------------------------------------------------------------------
// What holds of every solution
// ---------------------------------------------------------------------------------------------
/// The two constraints that keep lifeline `p` level with the one before it hold under
/// `values`.
pub open spec fn level_step_under(
    lifelines: Seq<Block>,
    values: spec_fn(Variable) -> real,
    p: int,
) -> bool {
    same_top(lifelines[p], lifelines[p - 1]).holds(values) && same_bottom(
        lifelines[p],
        lifelines[p - 1],
    ).holds(values)
}

/// The constraints that keep each lifeline level with the one before it hold under `values`.
pub open spec fn level_under(lifelines: Seq<Block>, values: spec_fn(Variable) -> real) -> bool {
    forall|p: int| 1 <= p < lifelines.len() ==> #[trigger] level_step_under(lifelines, values, p)
}

/// The constraints that put the arrow of message `k` on the lifeline of its end `p` hold under
/// `values`: the one that ties the first arrow of `p` to the lifeline, and, where message `k`
/// is not that first one, the one that lines its arrow up with the first.
pub open spec fn tied_under(
    messages: Seq<MessageView>,
    arrows: Seq<Block>,
    lifelines: Seq<Block>,
    values: spec_fn(Variable) -> real,
    k: int,
    p: ParticipantId,
) -> bool {
    let first = first_touch(messages, p, 0);
    &&& equal(
        edge(messages[first], arrows[first], p),
        ExpressionView::of(lifelines[p as int].x),
    ).holds(values)
    &&& first < k ==> equal(
        edge(messages[k], arrows[k], p),
        edge(messages[first], arrows[first], p),
    ).holds(values)
}

/// The constraints that give every lifeline no extent hold under `values`.
pub open spec fn flat_under(lifelines: Seq<Block>, values: spec_fn(Variable) -> real) -> bool {
    forall|p: int| 0 <= p < lifelines.len() ==> flat(#[trigger] lifelines[p]).holds(values)
}

/// The constraints that put the head at the top of the lifeline and the footer at its bottom
/// hold under `values`.
pub open spec fn crowned_under(
    head: Block,
    footer: Block,
    lifeline: Block,
    values: spec_fn(Variable) -> real,
) -> bool {
    &&& equal(head.bottom_view(), ExpressionView::of(lifeline.y)).holds(values)
    &&& equal(ExpressionView::of(footer.y), lifeline.bottom_view()).holds(values)
}

proof fn lemma_level_with_first(lifelines: Seq<Block>, values: spec_fn(Variable) -> real, p: int)
    requires
        level_under(lifelines, values),
        0 <= p < lifelines.len(),
    ensures
        values(lifelines[p].y) == values(lifelines[0].y),
        values(lifelines[p].y) + values(lifelines[p].height) == values(lifelines[0].y) + values(
            lifelines[0].height,
        ),
    decreases p,
{
    if p > 0 {
        lemma_level_with_first(lifelines, values, p - 1);
        let lower = lifelines[p];
        let upper = lifelines[p - 1];
        assert(level_step_under(lifelines, values, p));
        lemma_value_of_one(1, lower.y, 0, values);
        lemma_value_of_one(1, upper.y, 0, values);
        lemma_value_of_two(1, lower.y, 1, lower.height, 0, values);
        lemma_value_of_two(1, upper.y, 1, upper.height, 0, values);
    }
}

/// Under every assignment that meets the constraints that keep each lifeline level with the
/// one before it, any two lifelines begin at the same height and end at the same height.
/// Nothing is asked of any other constraint.
pub proof fn law_lifelines_level(
    lifelines: Seq<Block>,
    values: spec_fn(Variable) -> real,
    p: int,
    q: int,
)
    requires
        level_under(lifelines, values),
        0 <= p < lifelines.len(),
        0 <= q < lifelines.len(),
    ensures
        values(lifelines[p].y) == values(lifelines[q].y),
        values(lifelines[p].y) + values(lifelines[p].height) == values(lifelines[q].y) + values(
            lifelines[q].height,
        ),
{
    lemma_level_with_first(lifelines, values, p);
    lemma_level_with_first(lifelines, values, q);
}

/// Under every assignment that meets the constraints that put the arrow of message `k` on the
/// lifelines of its ends, the block of the message begins on the lifeline of its left end, and
/// ends on the lifeline of its right end where that is another participant. Nothing is asked of
/// any other constraint.
pub proof fn law_arrows_meet_lifelines(
    d: SequenceDiagramView,
    arrows: Seq<Block>,
    lifelines: Seq<Block>,
    values: spec_fn(Variable) -> real,
    k: int,
)
    requires
        0 <= k < d.messages.len(),
        tied_under(d.messages, arrows, lifelines, values, k, d.messages[k].left),
        d.messages[k].left != d.messages[k].right ==> tied_under(
            d.messages,
            arrows,
            lifelines,
            values,
            k,
            d.messages[k].right,
        ),
    ensures
        values(arrows[k].x) == values(lifelines[d.messages[k].left as int].x),
        d.messages[k].left != d.messages[k].right ==> values(arrows[k].x) + values(
            arrows[k].width,
        ) == values(lifelines[d.messages[k].right as int].x),
{
    let message = d.messages[k];
    let arrow = arrows[k];
    lemma_first_touch(d.messages, message.left, 0);
    lemma_value_of_one(1, lifelines[message.left as int].x, 0, values);
    lemma_value_of_one(1, arrow.x, 0, values);
    if message.left != message.right {
        lemma_first_touch(d.messages, message.right, 0);
        lemma_value_of_one(1, lifelines[message.right as int].x, 0, values);
        lemma_value_of_two(1, arrow.x, 1, arrow.width, 0, values);
    }
}

/// Under every assignment that meets the constraints that give the lifelines no extent and put
/// head and footer at the ends of a lifeline, the lifeline has no extent and its head ends
/// where its footer begins. Nothing is asked of any other constraint.
pub proof fn law_lifeline_without_extent(
    lifelines: Seq<Block>,
    heads: Seq<Block>,
    footers: Seq<Block>,
    values: spec_fn(Variable) -> real,
    p: int,
)
    requires
        0 <= p < lifelines.len(),
        flat_under(lifelines, values),
        crowned_under(heads[p], footers[p], lifelines[p], values),
    ensures
        values(lifelines[p].height) == 0real,
        values(heads[p].y) + values(heads[p].height) == values(footers[p].y),
{
    let lifeline = lifelines[p];
    assert(flat(lifelines[p]).holds(values));
    lemma_value_of_one(1, lifeline.height, 0, values);
    lemma_value_of_fixed(0, values);
    lemma_value_of_one(1, lifeline.y, 0, values);
    lemma_value_of_one(1, footers[p].y, 0, values);
    lemma_value_of_two(1, lifeline.y, 1, lifeline.height, 0, values);
    lemma_value_of_two(1, heads[p].y, 1, heads[p].height, 0, values);
}

/// An assignment that meets all required constraints of a scene meets the six constraints of
/// every block.
pub proof fn law_solution_confines(
    scene: Scene,
    d: SequenceDiagramView,
    c: SvgConfig,
    values: spec_fn(Variable) -> real,
    i: int,
)
    requires
        scene.shows(d, c),
        satisfies(scene.layout@.constraints, values),
        0 <= i < scene.layout@.blocks.len(),
    ensures
        crate::layout::floored_under(scene.layout@.blocks[i], values),
        crate::layout::bounded_under(
            scene.layout@.blocks[i],
            scene.layout@.right_var,
            scene.layout@.bottom_var,
            values,
        ),
{
    assert(scene.layout@.confines(i));
    crate::layout::lemma_confined_when_met(scene.layout@, values, i);
}

/// An assignment that meets all required constraints of a scene meets those that keep the
/// lifelines level, and, where the diagram has no message, those that give them no extent.
pub proof fn law_solution_levels(
    scene: Scene,
    d: SequenceDiagramView,
    c: SvgConfig,
    values: spec_fn(Variable) -> real,
)
    requires
        scene.shows(d, c),
        satisfies(scene.layout@.constraints, values),
    ensures
        level_under(scene.lifeline_frames(), values),
        d.messages.len() == 0 ==> flat_under(scene.lifeline_frames(), values),
{
    let l = scene.layout@;
    let lifelines = scene.lifeline_frames();
    assert(levelled(l, lifelines));
    assert(hung(l, lifelines, scene.arrow_frames(), c.msg_gutter));
    assert(scene.arrow_frames().len() == d.messages.len()) by {
        assert(arrows_of(scene.arrows@, d.messages, c.max_msg_label_length));
    }
    lemma_levels_met(l, lifelines, scene.arrow_frames(), c.msg_gutter, values);
}

proof fn lemma_levels_met(
    l: LayoutView,
    lifelines: Seq<Block>,
    arrows: Seq<Block>,
    gutter: u32,
    values: spec_fn(Variable) -> real,
)
    requires
        levelled(l, lifelines),
        hung(l, lifelines, arrows, gutter),
        satisfies(l.constraints, values),
    ensures
        level_under(lifelines, values),
        arrows.len() == 0 ==> flat_under(lifelines, values),
{
    assert forall|p: int| 1 <= p < lifelines.len() implies #[trigger] level_step_under(
        lifelines,
        values,
        p,
    ) by {
        assert(level_with_previous(l, lifelines, p));
        lemma_required_holds(l, values, same_top(lifelines[p], lifelines[p - 1]));
        lemma_required_holds(l, values, same_bottom(lifelines[p], lifelines[p - 1]));
    }
    if arrows.len() == 0 {
        assert forall|p: int| 0 <= p < lifelines.len() implies flat(
            #[trigger] lifelines[p],
        ).holds(values) by {
            lemma_required_holds(l, values, flat(lifelines[p]));
        }
    }
}

/// An assignment that meets all required constraints of a scene meets those that put the arrow
/// of message `k` on the lifelines of its two ends.
pub proof fn law_solution_ties(
    scene: Scene,
    d: SequenceDiagramView,
    c: SvgConfig,
    values: spec_fn(Variable) -> real,
    k: int,
)
    requires
        d.wf(),
        scene.shows(d, c),
        satisfies(scene.layout@.constraints, values),
        0 <= k < d.messages.len(),
    ensures
        tied_under(
            d.messages,
            scene.arrow_frames(),
            scene.lifeline_frames(),
            values,
            k,
            d.messages[k].left,
        ),
        tied_under(
            d.messages,
            scene.arrow_frames(),
            scene.lifeline_frames(),
            values,
            k,
            d.messages[k].right,
        ),
{
    let l = scene.layout@;
    assert(d.messages[k].wf(k, d.participants.len() as int));
    assert(tied(l, d.messages, scene.arrow_frames(), scene.lifeline_frames()));
    assert(scene.lifeline_frames().len() == d.participants.len()) by {
        assert(lifelines_of(scene.lifelines@, d.participants.len()));
    }
    lemma_tied_under(
        l,
        d.messages,
        scene.arrow_frames(),
        scene.lifeline_frames(),
        values,
        k,
        d.messages[k].left,
    );
    lemma_tied_under(
        l,
        d.messages,
        scene.arrow_frames(),
        scene.lifeline_frames(),
        values,
        k,
        d.messages[k].right,
    );
}

/// An assignment that meets all required constraints of a scene meets those that put head and
/// footer of participant `p` at the ends of its lifeline.
pub proof fn law_solution_crowns(
    scene: Scene,
    d: SequenceDiagramView,
    c: SvgConfig,
    values: spec_fn(Variable) -> real,
    p: int,
)
    requires
        scene.shows(d, c),
        satisfies(scene.layout@.constraints, values),
        0 <= p < d.participants.len(),
    ensures
        crowned_under(
            scene.head_frames()[p],
            scene.footer_frames()[p],
            scene.lifeline_frames()[p],
            values,
        ),
{
    let l = scene.layout@;
    assert(crowned(l, scene.head_frames(), scene.footer_frames(), scene.lifeline_frames()));
    assert(scene.lifeline_frames().len() == d.participants.len()) by {
        assert(lifelines_of(scene.lifelines@, d.participants.len()));
    }
    lemma_crowns_met(
        l,
        scene.head_frames()[p],
        scene.footer_frames()[p],
        scene.lifeline_frames()[p],
        values,
    );
}

proof fn lemma_crowns_met(
    l: LayoutView,
    head: Block,
    footer: Block,
    lifeline: Block,
    values: spec_fn(Variable) -> real,
)
    requires
        crowns(l, head, footer, lifeline),
        satisfies(l.constraints, values),
    ensures
        crowned_under(head, footer, lifeline, values),
{
    lemma_required_holds(l, values, equal(head.bottom_view(), ExpressionView::of(lifeline.y)));
    lemma_required_holds(l, values, equal(ExpressionView::of(footer.y), lifeline.bottom_view()));
}

proof fn lemma_tied_under(
    l: LayoutView,
    messages: Seq<MessageView>,
    arrows: Seq<Block>,
    lifelines: Seq<Block>,
    values: spec_fn(Variable) -> real,
    k: int,
    p: ParticipantId,
)
    requires
        tied(l, messages, arrows, lifelines),
        p < lifelines.len(),
        satisfies(l.constraints, values),
        0 <= k < messages.len(),
        touches(messages[k], p),
    ensures
        tied_under(messages, arrows, lifelines, values, k, p),
{
    let first = first_touch(messages, p, 0);
    lemma_first_touch(messages, p, 0);
    assert(tied_for(l, messages, arrows, lifelines, p));
    let anchor = edge(messages[first], arrows[first], p);
    lemma_required_holds(l, values, equal(anchor, ExpressionView::of(lifelines[p as int].x)));
    if first < k {
        lemma_required_holds(l, values, equal(edge(messages[k], arrows[k], p), anchor));
    }
}

/// After solving, whatever the solver found: if the solved values meet the constraints that
/// keep the lifelines level, any two lifelines have the same solved top and the same solved
/// bottom. Nothing is asked of any other constraint.
pub proof fn law_solved_lifelines_level(scene: Scene, changes: Seq<Change>, p: int, q: int)
    requires
        scene.wf(),
        0 <= p < scene.lifelines@.len(),
        0 <= q < scene.lifelines@.len(),
        level_under(scene.lifeline_frames(), scene.layout@.solved(changes).reading()),
    ensures
        ({
            let solved = scene.layout@.solved(changes);
            let first = solved.blocks[scene.lifelines@[p].block as int];
            let second = solved.blocks[scene.lifelines@[q].block as int];
            first.y_ == second.y_ && first.y_ + first.height_ == second.y_ + second.height_
        }),
{
    let before = scene.layout@;
    let solved = before.solved(changes);
    crate::layout::lemma_solved_wf(before, changes);
    let first = lifeline_ids(scene.lifelines@)[p] as int;
    let second = lifeline_ids(scene.lifelines@)[q] as int;
    assert(same_variables(solved.blocks[first], before.blocks[first]));
    assert(same_variables(solved.blocks[second], before.blocks[second]));
    lemma_reading(solved, first);
    lemma_reading(solved, second);
    law_lifelines_level(scene.lifeline_frames(), solved.reading(), p, q);
}

/// After solving, whatever the solver found: if the solved values meet the constraints that
/// put the arrow of message `k` on the lifelines of its ends, the block of the message has its
/// solved left edge on the lifeline of its left end, and its solved right edge on the lifeline
/// of its right end where that is another participant. Nothing is asked of any other
/// constraint.
pub proof fn law_solved_arrows_meet_lifelines(
    scene: Scene,
    d: SequenceDiagramView,
    changes: Seq<Change>,
    k: int,
)
    requires
        d.wf(),
        scene.wf(),
        scene.arrows@.len() == d.messages.len(),
        scene.lifelines@.len() == d.participants.len(),
        0 <= k < d.messages.len(),
        tied_under(
            d.messages,
            scene.arrow_frames(),
            scene.lifeline_frames(),
            scene.layout@.solved(changes).reading(),
            k,
            d.messages[k].left,
        ),
        d.messages[k].left != d.messages[k].right ==> tied_under(
            d.messages,
            scene.arrow_frames(),
            scene.lifeline_frames(),
            scene.layout@.solved(changes).reading(),
            k,
            d.messages[k].right,
        ),
    ensures
        ({
            let solved = scene.layout@.solved(changes);
            let arrow = solved.blocks[scene.arrows@[k].block as int];
            let left = solved.blocks[scene.lifelines@[d.messages[k].left as int].block as int];
            let right = solved.blocks[scene.lifelines@[d.messages[k].right as int].block as int];
            &&& arrow.x_ == left.x_
            &&& d.messages[k].left != d.messages[k].right ==> arrow.x_ + arrow.width_ == right.x_
        }),
{
    let before = scene.layout@;
    let solved = before.solved(changes);
    let message = d.messages[k];
    assert(message.wf(k, d.participants.len() as int));
    crate::layout::lemma_solved_wf(before, changes);
    let arrow = arrow_ids(scene.arrows@)[k] as int;
    let left = lifeline_ids(scene.lifelines@)[message.left as int] as int;
    let right = lifeline_ids(scene.lifelines@)[message.right as int] as int;
    assert(same_variables(solved.blocks[arrow], before.blocks[arrow]));
    assert(same_variables(solved.blocks[left], before.blocks[left]));
    assert(same_variables(solved.blocks[right], before.blocks[right]));
    lemma_reading(solved, arrow);
    lemma_reading(solved, left);
    lemma_reading(solved, right);
    law_arrows_meet_lifelines(
        d,
        scene.arrow_frames(),
        scene.lifeline_frames(),
        solved.reading(),
        k,
    );
}

/// After solving, whatever the solver found: where the diagram has no message, and the solved
/// values meet the constraints that give the lifelines no extent and put head and footer at
/// the ends of the lifeline of participant `p`, that lifeline has the solved height 0 and its
/// head ends where its footer begins.
pub proof fn law_solved_lifeline_without_extent(scene: Scene, changes: Seq<Change>, p: int)
    requires
        scene.wf(),
        scene.heads@.len() == scene.lifelines@.len(),
        scene.footers@.len() == scene.lifelines@.len(),
        0 <= p < scene.lifelines@.len(),
        flat_under(scene.lifeline_frames(), scene.layout@.solved(changes).reading()),
        crowned_under(
            scene.head_frames()[p],
            scene.footer_frames()[p],
            scene.lifeline_frames()[p],
            scene.layout@.solved(changes).reading(),
        ),
    ensures
        ({
            let solved = scene.layout@.solved(changes);
            let lifeline = solved.blocks[scene.lifelines@[p].block as int];
            let head = solved.blocks[scene.heads@[p].block_id as int];
            let footer = solved.blocks[scene.footers@[p].block_id as int];
            lifeline.height_ == 0 && head.y_ + head.height_ == footer.y_
        }),
{
    let before = scene.layout@;
    let solved = before.solved(changes);
    let values = solved.reading();
    crate::layout::lemma_solved_wf(before, changes);
    let lifeline = lifeline_ids(scene.lifelines@)[p] as int;
    let head = marker_ids(scene.heads@)[p] as int;
    let footer = marker_ids(scene.footers@)[p] as int;
    assert(same_variables(solved.blocks[lifeline], before.blocks[lifeline]));
    assert(same_variables(solved.blocks[head], before.blocks[head]));
    assert(same_variables(solved.blocks[footer], before.blocks[footer]));
    lemma_reading(solved, lifeline);
    lemma_reading(solved, head);
    lemma_reading(solved, footer);
    law_lifeline_without_extent(
        scene.lifeline_frames(),
        scene.head_frames(),
        scene.footer_frames(),
        values,
        p,
    );
}

} // verus!
