//! The constraints of a scene can be met: for every well-formed diagram there are values of
//! the variables that meet every required constraint of its layout.
//!
//! The values are those of a plain arrangement: the lifelines stand in columns that lie two
//! gutters apart, the arrows in rows one gutter apart, no text takes any room, and the right
//! and the bottom edge of the layout lie behind everything.

use crate::constraint::{
    lemma_value_of_fixed, lemma_value_of_one, lemma_value_of_two, satisfies, ConstraintView,
    ExpressionView, Strength, Variable,
};
use crate::diagram::{
    Activation, HorizontalNotePositionView, MessageView, NoteView, ParticipantId, ParticipantView,
    SequenceDiagramView, VerticalNotePosition,
};
use crate::layout::{fresh_block, not_negative, pins, Block, LayoutView, GLYPH_SIZE};
use crate::metrics::{lemma_line_height_bound, wrapped, FontMetricsView, Length};
use crate::scene::{
    activation_shift, arranged, arranged_messages, arranged_notes, arranged_participants,
    begins_before, begins_behind, edge, ends_before, ends_behind, equal, every_second,
    first_touch, flat, follows, greatest, gridded_for_upto, gridded_upto, hangs_bottom, hangs_top,
    least, lemma_ends_among, lemma_least_greatest, passes, same_bottom, same_top, stacking,
    touches, twice_left, twice_middle, with_activation, with_activations, with_anchors,
    with_arrows, with_lifeline, with_lifelines, with_marker, with_markers, with_note, with_notes,
    with_notes_down, with_passing, Scene, SvgConfig,
};
use vstd::prelude::*;

verus! {

/// Where a block lies and how large it is.
pub struct Place {
    pub x: real,
    pub y: real,
    pub width: real,
    pub height: real,
}

/// What the arrangement is made from: the diagram, the gutter, and the glyph height.
pub struct Plan {
    pub d: SequenceDiagramView,
    pub gutter: int,
    pub glyph: int,
}

impl Plan {
    /// The plan for the diagram `d`, drawn with `c` in a font of glyph height `glyph`.
    pub open spec fn of(d: SequenceDiagramView, c: SvgConfig, glyph: u32) -> Plan {
        Plan { d, gutter: c.msg_gutter as int, glyph: glyph as int }
    }

    /// Gutter and glyph height are not negative, and the diagram is well formed.
    pub open spec fn wf(self) -> bool {
        self.gutter >= 0 && self.glyph >= 0 && self.d.wf()
    }

    /// The number of messages.
    pub open spec fn m(self) -> int {
        self.d.messages.len() as int
    }

    /// The number of participants.
    pub open spec fn n(self) -> int {
        self.d.participants.len() as int
    }

    /// The number of activations.
    pub open spec fn a(self) -> int {
        self.d.activations.len() as int
    }

    /// The number of notes.
    pub open spec fn t(self) -> int {
        self.d.notes.len() as int
    }

    /// The number of blocks.
    pub open spec fn blocks(self) -> int {
        self.m() + 3 * self.n() + self.a() + self.t()
    }

    /// Where the lifeline of participant `p` stands.
    pub open spec fn column(self, p: int) -> int {
        self.gutter + self.glyph + p * (2 * self.gutter)
    }

    /// Where the arrow of message `k` lies.
    pub open spec fn row(self, k: int) -> int {
        (k + 1) * self.gutter
    }

    /// How far down the lifelines reach.
    pub open spec fn depth(self) -> int {
        (self.m() + 1) * self.gutter
    }

    /// Where the lifelines begin: at the top where there are messages, and where they end
    /// where there is none.
    pub open spec fn top(self) -> int {
        if self.m() > 0 {
            0
        } else {
            self.depth()
        }
    }

    /// The place of the arrow of message `k`: between the lifelines of its ends, in its row.
    pub open spec fn arrow(self, k: int) -> Place {
        let message = self.d.messages[k];
        Place {
            x: self.column(message.left as int) as real,
            y: self.row(k) as real,
            width: (self.column(message.right as int) - self.column(message.left as int)) as real,
            height: 0real,
        }
    }

    /// The place of the lifeline of participant `p`.
    pub open spec fn lifeline(self, p: int) -> Place {
        Place {
            x: self.column(p) as real,
            y: self.top() as real,
            width: 0real,
            height: (self.depth() - self.top()) as real,
        }
    }

    /// The place of the rectangle of activation `j`.
    pub open spec fn activation(self, j: int) -> Place {
        let a = self.d.activations[j];
        Place {
            x: self.column(a.participant_id as int) as real - (((3 - a.level) * self.glyph) as real)
                / 2real,
            y: self.row(a.from as int) as real,
            width: self.glyph as real,
            height: (self.row(a.to as int) - self.row(a.from as int)) as real,
        }
    }

    /// The place of the head of participant `p`.
    pub open spec fn head(self, p: int) -> Place {
        Place { x: self.column(p) as real, y: self.top() as real, width: 0real, height: 0real }
    }

    /// The place of the footer of participant `p`.
    pub open spec fn footer(self, p: int) -> Place {
        Place { x: self.column(p) as real, y: self.depth() as real, width: 0real, height: 0real }
    }

    /// The place of the box of note `j`.
    pub open spec fn note(self, j: int) -> Place {
        match self.d.notes[j].horizontal_position {
            HorizontalNotePositionView::LeftOf(p) => Place {
                x: (self.column(p as int) - self.gutter) as real,
                y: 0real,
                width: 0real,
                height: 0real,
            },
            HorizontalNotePositionView::RightOf(p) => Place {
                x: (self.column(p as int) + self.gutter) as real,
                y: 0real,
                width: 0real,
                height: 0real,
            },
            HorizontalNotePositionView::Over(ps) => if ps.len() > 0 {
                Place {
                    x: (self.column(least(ps) as int) - self.gutter) as real,
                    y: 0real,
                    width: (self.column(greatest(ps) as int) - self.column(least(ps) as int) + 2
                        * self.gutter) as real,
                    height: 0real,
                }
            } else {
                Place { x: 0real, y: 0real, width: 0real, height: 0real }
            },
        }
    }

    /// The place of block `i`: the blocks are the arrows, the lifelines, the activations, head
    /// and footer of each participant in turn, and the notes.
    pub open spec fn place(self, i: int) -> Place {
        if i < self.m() {
            self.arrow(i)
        } else if i < self.m() + self.n() {
            self.lifeline(i - self.m())
        } else if i < self.m() + self.n() + self.a() {
            self.activation(i - self.m() - self.n())
        } else if i < self.m() + 3 * self.n() + self.a() {
            let q = i - self.m() - self.n() - self.a();
            if q % 2 == 0 {
                self.head(q / 2)
            } else {
                self.footer(q / 2)
            }
        } else {
            self.note(i - self.m() - 3 * self.n() - self.a())
        }
    }

    /// How far to the right the first `i` blocks reach.
    pub open spec fn reach(self, i: int) -> real
        decreases i,
    {
        if i <= 0 {
            0real
        } else {
            let before = self.reach(i - 1);
            let here = self.place(i - 1).x + self.place(i - 1).width;
            if here > before {
                here
            } else {
                before
            }
        }
    }

    /// How far down the first `i` blocks reach.
    pub open spec fn drop(self, i: int) -> real
        decreases i,
    {
        if i <= 0 {
            0real
        } else {
            let before = self.drop(i - 1);
            let here = self.place(i - 1).y + self.place(i - 1).height;
            if here > before {
                here
            } else {
                before
            }
        }
    }

    /// The value of variable `v`: variables 0 and 1 are the right and the bottom edge of the
    /// layout, and block `i` has the four variables from `2 + 4 * i` on.
    pub open spec fn value(self, v: Variable) -> real {
        if v == 0 {
            self.reach(self.blocks())
        } else if v == 1 {
            self.drop(self.blocks())
        } else {
            let place = self.place((v - 2) / 4);
            let field = (v - 2) % 4;
            if field == 0 {
                place.x
            } else if field == 1 {
                place.y
            } else if field == 2 {
                place.width
            } else {
                place.height
            }
        }
    }

    /// The values of all variables.
    pub open spec fn values(self) -> spec_fn(Variable) -> real {
        |v: Variable| self.value(v)
    }
}

/// Block `i` of a layout whose blocks have their variables in order.
pub open spec fn in_order(block: Block, i: int) -> bool {
    &&& block.x == 2 + 4 * i
    &&& block.y == 3 + 4 * i
    &&& block.width == 4 + 4 * i
    &&& block.height == 5 + 4 * i
}

/// The blocks are blocks number `first` and following of a layout whose blocks have their
/// variables in order.
pub open spec fn framed(blocks: Seq<Block>, first: int) -> bool {
    forall|k: int| 0 <= k < blocks.len() ==> in_order(#[trigger] blocks[k], first + k)
}

/// The layout has the two edge variables first, and every block has the next four variables.
pub open spec fn regular(l: LayoutView) -> bool {
    &&& l.right_var == 0
    &&& l.bottom_var == 1
    &&& l.vars.len() == 2 + 4 * l.blocks.len()
    &&& l.vars.len() <= usize::MAX
    &&& framed(l.blocks, 0)
}

/// The values of the four variables of block `i` are those of its place.
proof fn lemma_values_of_block(plan: Plan, block: Block, i: int)
    requires
        in_order(block, i),
        0 <= i,
    ensures
        plan.values()(block.x) == plan.place(i).x,
        plan.values()(block.y) == plan.place(i).y,
        plan.values()(block.width) == plan.place(i).width,
        plan.values()(block.height) == plan.place(i).height,
{
}

proof fn lemma_reach(plan: Plan, i: int, n: int)
    requires
        0 <= i < n,
    ensures
        plan.place(i).x + plan.place(i).width <= plan.reach(n),
        plan.place(i).y + plan.place(i).height <= plan.drop(n),
    decreases n,
{
    if i < n - 1 {
        lemma_reach(plan, i, n - 1);
    }
}

/// The layout is regular, its glyph height is that of the plan, and the values of the plan meet
/// its required constraints.
pub open spec fn met(l: LayoutView, plan: Plan) -> bool {
    &&& regular(l)
    &&& l.glyphs_height == plan.glyph
    &&& satisfies(l.constraints, plan.values())
}

/// The two layouts differ in their constraints at most.
pub open spec fn same_blocks(before: LayoutView, after: LayoutView) -> bool {
    after == (LayoutView { constraints: after.constraints, ..before })
}

/// One more constraint that holds, or that is not required, leaves the constraints met.
proof fn lemma_met_with(l: LayoutView, c: ConstraintView, plan: Plan)
    requires
        met(l, plan),
        c.strength == Strength::Required ==> c.holds(plan.values()),
    ensures
        met(l.with_constraint(c), plan),
        same_blocks(l, l.with_constraint(c)),
{
    let values = plan.values();
    let more = l.with_constraint(c).constraints;
    assert forall|i: int|
        0 <= i < more.len() && (#[trigger] more[i]).strength
            == Strength::Required implies more[i].holds(values) by {
        if i < l.constraints.len() {
            assert(more[i] == l.constraints[i]);
        }
    }
}

/// More constraints that hold, or that are not required, leave the constraints met.
proof fn lemma_met_with_all(l: LayoutView, more: Seq<ConstraintView>, plan: Plan)
    requires
        met(l, plan),
        forall|k: int|
            0 <= k < more.len() && (#[trigger] more[k]).strength == Strength::Required
                ==> more[k].holds(plan.values()),
    ensures
        met(l.with_constraints(more), plan),
        same_blocks(l, l.with_constraints(more)),
{
    let values = plan.values();
    let all = l.with_constraints(more).constraints;
    assert forall|i: int|
        0 <= i < all.len() && (#[trigger] all[i]).strength
            == Strength::Required implies all[i].holds(values) by {
        if i < l.constraints.len() {
            assert(all[i] == l.constraints[i]);
        } else {
            assert(all[i] == more[i - l.constraints.len()]);
        }
    }
}

/// A variable that is not negative meets the constraint that says so.
proof fn lemma_not_negative(v: Variable, values: spec_fn(Variable) -> real)
    requires
        values(v) >= 0real,
    ensures
        not_negative(v).holds(values),
{
    lemma_value_of_one(1, v, 0, values);
    lemma_value_of_fixed(0, values);
}

/// The place of block `i` is not negative.
pub open spec fn placed(plan: Plan, i: int) -> bool {
    &&& plan.place(i).x >= 0real
    &&& plan.place(i).y >= 0real
    &&& plan.place(i).width >= 0real
    &&& plan.place(i).height >= 0real
}

/// One more block leaves the constraints met, if its place is not negative.
proof fn lemma_met_with_block(l: LayoutView, line_height: u32, plan: Plan)
    requires
        met(l, plan),
        l.blocks.len() < plan.blocks(),
        2 + 4 * plan.blocks() <= usize::MAX,
        placed(plan, l.blocks.len() as int),
    ensures
        met(l.with_block(line_height), plan),
        l.with_block(line_height).blocks == l.blocks.push(
            fresh_block(l.vars.len() as int, line_height),
        ),
        l.with_block(line_height).font == l.font,
        in_order(fresh_block(l.vars.len() as int, line_height), l.blocks.len() as int),
{
    let i = l.blocks.len() as int;
    let values = plan.values();
    let block = fresh_block(l.vars.len() as int, line_height);
    let after = l.with_block(line_height);
    assert(in_order(block, i));
    lemma_values_of_block(plan, block, i);
    lemma_reach(plan, i, plan.blocks());
    lemma_not_negative(block.x, values);
    lemma_not_negative(block.y, values);
    lemma_not_negative(block.width, values);
    lemma_not_negative(block.height, values);
    lemma_value_of_one(1, 0, 0, values);
    lemma_value_of_one(1, 1, 0, values);
    lemma_value_of_two(1, block.x, 1, block.width, 0, values);
    lemma_value_of_two(1, block.y, 1, block.height, 0, values);
    let floor = block.floor();
    let bounds = block.bounds(l.right_var, l.bottom_var);
    assert(bounds[0].holds(values));
    assert(bounds[1].holds(values));
    let n = l.constraints.len() as int;
    assert forall|k: int|
        0 <= k < after.constraints.len() && (#[trigger] after.constraints[k]).strength
            == Strength::Required implies after.constraints[k].holds(values) by {
        if k < n {
            assert(after.constraints[k] == l.constraints[k]);
        } else if k < n + 4 {
            assert(after.constraints[k] == floor[k - n]);
        } else {
            assert(after.constraints[k] == bounds[k - n - 4]);
        }
    }
    assert forall|k: int| 0 <= k < after.blocks.len() implies in_order(
        #[trigger] after.blocks[k],
        k,
    ) by {
        if k < i {
            assert(after.blocks[k] == l.blocks[k]);
        }
    }
}

/// One more text block leaves the constraints met, if its place is not negative: the size of
/// the text is wished, not required.
proof fn lemma_met_with_text_block(
    l: LayoutView,
    lines: Seq<Seq<char>>,
    padding: u32,
    pixel_size: u16,
    plan: Plan,
)
    requires
        met(l, plan),
        l.blocks.len() < plan.blocks(),
        2 + 4 * plan.blocks() <= usize::MAX,
        placed(plan, l.blocks.len() as int),
    ensures
        met(l.with_text_block(lines, padding, pixel_size), plan),
        l.with_text_block(lines, padding, pixel_size).blocks == l.blocks.push(
            fresh_block(l.vars.len() as int, l.font.line_height(pixel_size) as u32),
        ),
        l.with_text_block(lines, padding, pixel_size).font == l.font,
        in_order(
            fresh_block(l.vars.len() as int, l.font.line_height(pixel_size) as u32),
            l.blocks.len() as int,
        ),
{
    let line_height = l.font.line_height(pixel_size) as u32;
    lemma_met_with_block(l, line_height, plan);
    let block = fresh_block(l.vars.len() as int, line_height);
    let size = l.text_size(lines, padding, pixel_size);
    lemma_met_with_all(l.with_block(line_height), pins(block, size.0, size.1), plan);
}

/// The columns lie two gutters apart, each behind the one before it.
proof fn lemma_columns(plan: Plan, p: int, q: int)
    requires
        plan.gutter >= 0,
        plan.glyph >= 0,
        0 <= p <= q,
    ensures
        plan.column(p) <= plan.column(q),
        plan.column(p) >= plan.gutter + plan.glyph,
        p < q ==> plan.column(p) + 2 * plan.gutter <= plan.column(q),
{
    assert(p * (2 * plan.gutter) <= q * (2 * plan.gutter)) by (nonlinear_arith)
        requires
            0 <= p <= q,
            plan.gutter >= 0,
    ;
    assert(p * (2 * plan.gutter) >= 0) by (nonlinear_arith)
        requires
            0 <= p,
            plan.gutter >= 0,
    ;
    if p < q {
        assert((p + 1) * (2 * plan.gutter) <= q * (2 * plan.gutter)) by (nonlinear_arith)
            requires
                0 <= p + 1 <= q,
                plan.gutter >= 0,
        ;
        assert((p + 1) * (2 * plan.gutter) == p * (2 * plan.gutter) + 2 * plan.gutter)
            by (nonlinear_arith);
    }
}

/// The rows lie one gutter apart, each below the one before it, and above the depth of the
/// lifelines.
proof fn lemma_rows(plan: Plan, j: int, k: int)
    requires
        plan.gutter >= 0,
        0 <= j <= k,
    ensures
        plan.row(j) <= plan.row(k),
        plan.row(j) >= plan.gutter,
        plan.row(k + 1) == plan.row(k) + plan.gutter,
        k < plan.m() ==> plan.row(k) + plan.gutter <= plan.depth(),
        plan.depth() >= plan.gutter,
        plan.row(plan.m() - 1) + plan.gutter == plan.depth(),
{
    assert((j + 1) * plan.gutter <= (k + 1) * plan.gutter) by (nonlinear_arith)
        requires
            0 <= j <= k,
            plan.gutter >= 0,
    ;
    assert((j + 1) * plan.gutter >= plan.gutter) by (nonlinear_arith)
        requires
            0 <= j,
            plan.gutter >= 0,
    ;
    assert((k + 2) * plan.gutter == (k + 1) * plan.gutter + plan.gutter) by (nonlinear_arith);
    let m = plan.m();
    if k < m {
        assert((k + 1) * plan.gutter + plan.gutter <= (m + 1) * plan.gutter)
            by (nonlinear_arith)
            requires
                0 <= k < m,
                plan.gutter >= 0,
        ;
    }
    assert((m + 1) * plan.gutter >= plan.gutter) by (nonlinear_arith)
        requires
            0 <= m,
            plan.gutter >= 0,
    ;
    assert((m - 1 + 1) * plan.gutter + plan.gutter == (m + 1) * plan.gutter)
        by (nonlinear_arith);
}

// ---------------------------------------------------------------------------------------------
// Arrows
// ---------------------------------------------------------------------------------------------
proof fn lemma_arrow_place(plan: Plan, k: int)
    requires
        plan.wf(),
        0 <= k < plan.m(),
    ensures
        placed(plan, k),
{
    let message = plan.d.messages[k];
    assert(message.wf(k, plan.n()));
    lemma_columns(plan, message.left as int, message.right as int);
    lemma_rows(plan, k, k);
}

/// The text blocks of the first `k` messages leave the constraints met.
proof fn lemma_met_with_arrows(l: LayoutView, plan: Plan, c: SvgConfig, k: int)
    requires
        plan.wf(),
        met(l, plan),
        l.blocks.len() == 0,
        0 <= k <= plan.m(),
        2 + 4 * plan.blocks() <= usize::MAX,
    ensures
        met(with_arrows(l, plan.d.messages, c, k), plan),
        with_arrows(l, plan.d.messages, c, k).blocks.len() == k,
        with_arrows(l, plan.d.messages, c, k).font == l.font,
    decreases k,
{
    if k > 0 {
        lemma_met_with_arrows(l, plan, c, k - 1);
        let before = with_arrows(l, plan.d.messages, c, k - 1);
        lemma_arrow_place(plan, k - 1);
        lemma_met_with_text_block(
            before,
            wrapped(plan.d.messages[k - 1].msg, c.max_msg_label_length),
            c.padding,
            c.measured_size(),
            plan,
        );
    }
}

/// The spacing of the arrows leaves the constraints met.
proof fn lemma_met_with_stacking(l: LayoutView, plan: Plan, c: SvgConfig, arrows: Seq<Block>)
    requires
        plan.wf(),
        plan.gutter == c.msg_gutter,
        met(l, plan),
        arrows.len() == plan.m(),
        framed(arrows, 0),
    ensures
        met(l.with_constraints(stacking(arrows, c.msg_gutter)), plan),
        same_blocks(l, l.with_constraints(stacking(arrows, c.msg_gutter))),
{
    let values = plan.values();
    let more = stacking(arrows, c.msg_gutter);
    assert forall|k: int|
        0 <= k < more.len() && (#[trigger] more[k]).strength
            == Strength::Required implies more[k].holds(values) by {
        let prev = arrows[k];
        let next = arrows[k + 1];
        assert(in_order(arrows[k], k));
        assert(in_order(arrows[k + 1], k + 1));
        lemma_values_of_block(plan, prev, k);
        lemma_values_of_block(plan, next, k + 1);
        lemma_rows(plan, k, k);
        lemma_value_of_two(1, prev.y, 1, prev.height, c.msg_gutter as i128, values);
        lemma_value_of_one(1, next.y, 0, values);
    }
    lemma_met_with_all(l, more, plan);
}

/// The edge of an arrow on the side of an end lies in the column of that end.
proof fn lemma_edge_in_column(plan: Plan, arrows: Seq<Block>, k: int, p: ParticipantId)
    requires
        plan.wf(),
        arrows.len() == plan.m(),
        framed(arrows, 0),
        0 <= k < plan.m(),
        touches(plan.d.messages[k], p),
    ensures
        edge(plan.d.messages[k], arrows[k], p).value(plan.values()) == plan.column(p as int) as real,
{
    let values = plan.values();
    let block = arrows[k];
    assert(in_order(arrows[k], k));
    lemma_values_of_block(plan, block, k);
    lemma_value_of_one(1, block.x, 0, values);
    lemma_value_of_two(1, block.x, 1, block.width, 0, values);
}

proof fn lemma_first_touch_bounds(messages: Seq<MessageView>, p: ParticipantId, from: int)
    requires
        0 <= from <= messages.len(),
    ensures
        from <= first_touch(messages, p, from) <= messages.len(),
        first_touch(messages, p, from) < messages.len() ==> touches(
            messages[first_touch(messages, p, from)],
            p,
        ),
    decreases messages.len() - from,
{
    if from < messages.len() && !touches(messages[from], p) {
        lemma_first_touch_bounds(messages, p, from + 1);
    }
}

/// The lining up of the first `k` arrows of participant `p` leaves the constraints met.
proof fn lemma_met_gridded_for(
    l: LayoutView,
    plan: Plan,
    arrows: Seq<Block>,
    p: ParticipantId,
    k: int,
)
    requires
        plan.wf(),
        met(l, plan),
        arrows.len() == plan.m(),
        framed(arrows, 0),
        0 <= k <= plan.m(),
    ensures
        met(gridded_for_upto(l, plan.d.messages, arrows, p, k), plan),
        same_blocks(l, gridded_for_upto(l, plan.d.messages, arrows, p, k)),
    decreases k,
{
    if k > 0 {
        lemma_met_gridded_for(l, plan, arrows, p, k - 1);
        let before = gridded_for_upto(l, plan.d.messages, arrows, p, k - 1);
        let messages = plan.d.messages;
        let first = first_touch(messages, p, 0);
        lemma_first_touch_bounds(messages, p, 0);
        if touches(messages[k - 1], p) && first < k - 1 {
            lemma_edge_in_column(plan, arrows, k - 1, p);
            lemma_edge_in_column(plan, arrows, first, p);
            lemma_met_with(
                before,
                equal(
                    edge(messages[k - 1], arrows[k - 1], p),
                    edge(messages[first], arrows[first], p),
                ),
                plan,
            );
        }
    }
}

/// The lining up of the arrows of the first `n` participants leaves the constraints met.
proof fn lemma_met_gridded(l: LayoutView, plan: Plan, arrows: Seq<Block>, n: int)
    requires
        plan.wf(),
        met(l, plan),
        arrows.len() == plan.m(),
        framed(arrows, 0),
        0 <= n,
    ensures
        met(gridded_upto(l, plan.d.messages, arrows, n), plan),
        same_blocks(l, gridded_upto(l, plan.d.messages, arrows, n)),
    decreases n,
{
    if n > 0 {
        lemma_met_gridded(l, plan, arrows, n - 1);
        lemma_met_gridded_for(
            gridded_upto(l, plan.d.messages, arrows, n - 1),
            plan,
            arrows,
            (n - 1) as usize,
            plan.m(),
        );
    }
}

/// A stretch of the blocks of a regular layout is framed.
proof fn lemma_stretch_framed(l: LayoutView, from: int, to: int)
    requires
        regular(l),
        0 <= from <= to <= l.blocks.len(),
    ensures
        framed(l.blocks.subrange(from, to), from),
        l.blocks.subrange(from, to).len() == to - from,
{
    assert forall|k: int| 0 <= k < to - from implies in_order(
        #[trigger] l.blocks.subrange(from, to)[k],
        from + k,
    ) by {
        assert(in_order(l.blocks[from + k], from + k));
    }
}

/// The arrows leave the constraints met.
proof fn lemma_met_messages(l: LayoutView, plan: Plan, c: SvgConfig)
    requires
        plan.wf(),
        plan.gutter == c.msg_gutter,
        met(l, plan),
        l.blocks.len() == 0,
        2 + 4 * plan.blocks() <= usize::MAX,
    ensures
        met(arranged_messages(l, plan.d, c), plan),
        arranged_messages(l, plan.d, c).blocks.len() == plan.m(),
        arranged_messages(l, plan.d, c).font == l.font,
{
    let m = plan.m();
    lemma_met_with_arrows(l, plan, c, m);
    let with_texts = with_arrows(l, plan.d.messages, c, m);
    let arrows = with_texts.blocks.subrange(0, m);
    lemma_stretch_framed(with_texts, 0, m);
    lemma_met_with_stacking(with_texts, plan, c, arrows);
    lemma_met_gridded(
        with_texts.with_constraints(stacking(arrows, c.msg_gutter)),
        plan,
        arrows,
        plan.n(),
    );
}

// ---------------------------------------------------------------------------------------------
// Lifelines, activations, heads and footers
// ---------------------------------------------------------------------------------------------
/// The place of a lifeline is not negative.
proof fn lemma_lifeline_place(plan: Plan, p: int)
    requires
        plan.wf(),
        0 <= p < plan.n(),
    ensures
        placed(plan, plan.m() + p),
        plan.place(plan.m() + p) == plan.lifeline(p),
{
    lemma_columns(plan, p, p);
    lemma_rows(plan, 0, 0);
}

/// One more lifeline leaves the constraints met.
proof fn lemma_met_with_lifeline(
    l: LayoutView,
    plan: Plan,
    c: SvgConfig,
    arrows: Seq<Block>,
    p: int,
)
    requires
        plan.wf(),
        plan.gutter == c.msg_gutter,
        met(l, plan),
        arrows.len() == plan.m(),
        framed(arrows, 0),
        0 <= p < plan.n(),
        l.blocks.len() == plan.m() + p,
        2 + 4 * plan.blocks() <= usize::MAX,
    ensures
        met(with_lifeline(l, arrows, c.msg_gutter, p), plan),
        with_lifeline(l, arrows, c.msg_gutter, p).blocks.len() == plan.m() + p + 1,
        with_lifeline(l, arrows, c.msg_gutter, p).font == l.font,
{
    let values = plan.values();
    let gutter = c.msg_gutter;
    let m = plan.m();
    let lifeline = fresh_block(l.vars.len() as int, 0);
    lemma_lifeline_place(plan, p);
    lemma_met_with_block(l, 0, plan);
    lemma_values_of_block(plan, lifeline, m + p);
    lemma_value_of_one(1, lifeline.y, 0, values);
    lemma_value_of_two(1, lifeline.y, 1, lifeline.height, 0, values);
    let added = l.with_block(0);
    let hanging = if arrows.len() > 0 {
        added.with_constraint(hangs_top(lifeline, arrows, gutter)).with_constraint(
            hangs_bottom(lifeline, arrows, gutter),
        )
    } else {
        added.with_constraint(flat(lifeline))
    };
    if arrows.len() > 0 {
        let first = arrows[0];
        let last = arrows.last();
        assert(in_order(arrows[0], 0));
        assert(in_order(arrows[m - 1], m - 1));
        lemma_values_of_block(plan, first, 0);
        lemma_values_of_block(plan, last, m - 1);
        lemma_rows(plan, 0, m - 1);
        lemma_value_of_one(1, first.y, (-(gutter as Length)) as Length, values);
        lemma_value_of_two(1, last.y, 1, last.height, gutter as Length, values);
        lemma_met_with(added, hangs_top(lifeline, arrows, gutter), plan);
        lemma_met_with(
            added.with_constraint(hangs_top(lifeline, arrows, gutter)),
            hangs_bottom(lifeline, arrows, gutter),
            plan,
        );
    } else {
        lemma_value_of_one(1, lifeline.height, 0, values);
        lemma_value_of_fixed(0, values);
        lemma_met_with(added, flat(lifeline), plan);
    }
    if p > 0 {
        let prev = l.blocks.last();
        assert(in_order(l.blocks[m + p - 1], m + p - 1));
        lemma_lifeline_place(plan, p - 1);
        lemma_values_of_block(plan, prev, m + p - 1);
        lemma_value_of_one(1, prev.y, 0, values);
        lemma_value_of_two(1, prev.y, 1, prev.height, 0, values);
        lemma_met_with(hanging, same_top(lifeline, prev), plan);
        lemma_met_with(
            hanging.with_constraint(same_top(lifeline, prev)),
            same_bottom(lifeline, prev),
            plan,
        );
    }
}

/// The lifelines of the first `n` participants leave the constraints met.
proof fn lemma_met_with_lifelines(
    l: LayoutView,
    plan: Plan,
    c: SvgConfig,
    arrows: Seq<Block>,
    n: int,
)
    requires
        plan.wf(),
        plan.gutter == c.msg_gutter,
        met(l, plan),
        arrows.len() == plan.m(),
        framed(arrows, 0),
        0 <= n <= plan.n(),
        l.blocks.len() == plan.m(),
        2 + 4 * plan.blocks() <= usize::MAX,
    ensures
        met(with_lifelines(l, arrows, c.msg_gutter, n), plan),
        with_lifelines(l, arrows, c.msg_gutter, n).blocks.len() == plan.m() + n,
        with_lifelines(l, arrows, c.msg_gutter, n).font == l.font,
    decreases n,
{
    if n > 0 {
        lemma_met_with_lifelines(l, plan, c, arrows, n - 1);
        lemma_met_with_lifeline(
            with_lifelines(l, arrows, c.msg_gutter, n - 1),
            plan,
            c,
            arrows,
            n - 1,
        );
    }
}

/// The shift of an activation is the product that it is written as.
proof fn lemma_shift(level: usize, glyph: u32)
    ensures
        activation_shift(level, glyph) == (3 - level) * glyph,
        level >= 1 ==> (3 - level) * glyph <= 2 * glyph,
{
    assert(-0x1_0000_0000_0000_0000 * 0x1_0000_0000 <= (3 - level) * glyph <= 3
        * 0x1_0000_0000) by (nonlinear_arith)
        requires
            0 <= level <= 0x1_0000_0000_0000_0000,
            0 <= glyph <= 0x1_0000_0000,
    ;
    if level >= 1 {
        assert((3 - level) * glyph <= 2 * glyph) by (nonlinear_arith)
            requires
                level >= 1,
                glyph >= 0,
        ;
    }
}

proof fn lemma_activation_place(plan: Plan, j: int)
    requires
        plan.wf(),
        plan.glyph <= u32::MAX,
        0 <= j < plan.a(),
    ensures
        placed(plan, plan.m() + plan.n() + j),
        plan.place(plan.m() + plan.n() + j) == plan.activation(j),
{
    let a = plan.d.activations[j];
    assert(a.wf(plan.n(), plan.m()));
    lemma_columns(plan, a.participant_id as int, a.participant_id as int);
    lemma_rows(plan, a.from as int, a.to as int);
    lemma_shift(a.level, plan.glyph as u32);
}

/// One more activation leaves the constraints met.
proof fn lemma_met_with_activation(
    l: LayoutView,
    plan: Plan,
    arrows: Seq<Block>,
    lifelines: Seq<Block>,
    j: int,
)
    requires
        plan.wf(),
        met(l, plan),
        arrows.len() == plan.m(),
        framed(arrows, 0),
        lifelines.len() == plan.n(),
        framed(lifelines, plan.m()),
        0 <= j < plan.a(),
        l.blocks.len() == plan.m() + plan.n() + j,
        2 + 4 * plan.blocks() <= usize::MAX,
    ensures
        met(with_activation(l, plan.d.activations[j], arrows, lifelines), plan),
        with_activation(l, plan.d.activations[j], arrows, lifelines).blocks.len() == plan.m()
            + plan.n() + j + 1,
        with_activation(l, plan.d.activations[j], arrows, lifelines).font == l.font,
{
    let values = plan.values();
    let a = plan.d.activations[j];
    assert(a.wf(plan.n(), plan.m()));
    let i = plan.m() + plan.n() + j;
    let b = fresh_block(l.vars.len() as int, 0);
    lemma_activation_place(plan, j);
    lemma_met_with_block(l, 0, plan);
    lemma_values_of_block(plan, b, i);
    let from = arrows[a.from as int];
    let to = arrows[a.to as int];
    let lifeline = lifelines[a.participant_id as int];
    assert(in_order(arrows[a.from as int], a.from as int));
    assert(in_order(arrows[a.to as int], a.to as int));
    assert(in_order(lifelines[a.participant_id as int], plan.m() + a.participant_id));
    lemma_values_of_block(plan, from, a.from as int);
    lemma_values_of_block(plan, to, a.to as int);
    lemma_lifeline_place(plan, a.participant_id as int);
    lemma_values_of_block(plan, lifeline, plan.m() + a.participant_id);
    lemma_shift(a.level, l.glyphs_height);
    lemma_value_of_one(1, b.y, 0, values);
    lemma_value_of_one(1, b.width, 0, values);
    lemma_value_of_two(1, b.y, 1, b.height, 0, values);
    lemma_value_of_two(1, from.y, 1, from.height, 0, values);
    lemma_value_of_two(1, to.y, 1, to.height, 0, values);
    lemma_value_of_fixed(l.glyphs_height as Length, values);
    lemma_value_of_one(2, b.x, activation_shift(a.level, l.glyphs_height), values);
    lemma_value_of_one(2, lifeline.x, 0, values);
    let first = l.with_block(0);
    let c1 = equal(ExpressionView::of(b.y), from.bottom_view());
    let c2 = equal(b.bottom_view(), to.bottom_view());
    let c3 = equal(
        ExpressionView::of(b.width),
        ExpressionView::fixed(l.glyphs_height as Length),
    );
    let c4 = equal(
        ExpressionView::of_one(
            2,
            b.x,
            activation_shift(a.level, l.glyphs_height),
        ),
        ExpressionView::of_one(2, lifeline.x, 0),
    );
    lemma_met_with(first, c1, plan);
    lemma_met_with(first.with_constraint(c1), c2, plan);
    lemma_met_with(first.with_constraint(c1).with_constraint(c2), c3, plan);
    lemma_met_with(first.with_constraint(c1).with_constraint(c2).with_constraint(c3), c4, plan);
}

/// The rectangles of the first `n` activations leave the constraints met.
proof fn lemma_met_with_activations(
    l: LayoutView,
    plan: Plan,
    arrows: Seq<Block>,
    lifelines: Seq<Block>,
    n: int,
)
    requires
        plan.wf(),
        met(l, plan),
        arrows.len() == plan.m(),
        framed(arrows, 0),
        lifelines.len() == plan.n(),
        framed(lifelines, plan.m()),
        0 <= n <= plan.a(),
        l.blocks.len() == plan.m() + plan.n(),
        2 + 4 * plan.blocks() <= usize::MAX,
    ensures
        met(with_activations(l, plan.d.activations, arrows, lifelines, n), plan),
        with_activations(l, plan.d.activations, arrows, lifelines, n).blocks.len() == plan.m()
            + plan.n() + n,
        with_activations(l, plan.d.activations, arrows, lifelines, n).font == l.font,
    decreases n,
{
    if n > 0 {
        lemma_met_with_activations(l, plan, arrows, lifelines, n - 1);
        lemma_met_with_activation(
            with_activations(l, plan.d.activations, arrows, lifelines, n - 1),
            plan,
            arrows,
            lifelines,
            n - 1,
        );
    }
}

/// The tying of the first arrows of the first `n` participants to their lifelines leaves the
/// constraints met.
proof fn lemma_met_with_anchors(
    l: LayoutView,
    plan: Plan,
    arrows: Seq<Block>,
    lifelines: Seq<Block>,
    n: int,
)
    requires
        plan.wf(),
        met(l, plan),
        arrows.len() == plan.m(),
        framed(arrows, 0),
        lifelines.len() == plan.n(),
        framed(lifelines, plan.m()),
        0 <= n <= plan.n(),
    ensures
        met(with_anchors(l, plan.d.messages, arrows, lifelines, n), plan),
        same_blocks(l, with_anchors(l, plan.d.messages, arrows, lifelines, n)),
    decreases n,
{
    if n > 0 {
        lemma_met_with_anchors(l, plan, arrows, lifelines, n - 1);
        let before = with_anchors(l, plan.d.messages, arrows, lifelines, n - 1);
        let p = (n - 1) as usize;
        let messages = plan.d.messages;
        let first = first_touch(messages, p, 0);
        lemma_first_touch_bounds(messages, p, 0);
        if first < messages.len() {
            let lifeline = lifelines[n - 1];
            assert(in_order(lifelines[n - 1], plan.m() + n - 1));
            lemma_lifeline_place(plan, n - 1);
            lemma_values_of_block(plan, lifeline, plan.m() + n - 1);
            lemma_value_of_one(1, lifeline.x, 0, plan.values());
            lemma_edge_in_column(plan, arrows, first, p);
            lemma_met_with(
                before,
                equal(
                    edge(messages[first], arrows[first], p),
                    ExpressionView::of(lifeline.x),
                ),
                plan,
            );
        }
    }
}

proof fn lemma_marker_place(plan: Plan, p: int)
    requires
        plan.wf(),
        0 <= p < plan.n(),
    ensures
        placed(plan, plan.m() + plan.n() + plan.a() + 2 * p),
        placed(plan, plan.m() + plan.n() + plan.a() + 2 * p + 1),
        plan.place(plan.m() + plan.n() + plan.a() + 2 * p) == plan.head(p),
        plan.place(plan.m() + plan.n() + plan.a() + 2 * p + 1) == plan.footer(p),
{
    lemma_columns(plan, p, p);
    lemma_rows(plan, 0, 0);
}

/// The head of a lifeline, or its footer, leaves the constraints met.
proof fn lemma_met_with_marker(
    l: LayoutView,
    plan: Plan,
    c: SvgConfig,
    lifelines: Seq<Block>,
    p: int,
    above: bool,
)
    requires
        plan.wf(),
        met(l, plan),
        lifelines.len() == plan.n(),
        framed(lifelines, plan.m()),
        0 <= p < plan.n(),
        l.blocks.len() == plan.m() + plan.n() + plan.a() + 2 * p + if above {
            0int
        } else {
            1int
        },
        2 + 4 * plan.blocks() <= usize::MAX,
    ensures
        met(with_marker(l, plan.d.participants[p].name, c, lifelines[p], above), plan),
        with_marker(l, plan.d.participants[p].name, c, lifelines[p], above).blocks.len()
            == l.blocks.len() + 1,
        with_marker(l, plan.d.participants[p].name, c, lifelines[p], above).font == l.font,
{
    let values = plan.values();
    let name = plan.d.participants[p].name;
    let lifeline = lifelines[p];
    let i = l.blocks.len() as int;
    let lines = wrapped(name, c.max_participant_head_length);
    let marker = fresh_block(l.vars.len() as int, l.font.line_height(c.measured_size()) as u32);
    lemma_marker_place(plan, p);
    lemma_met_with_text_block(l, lines, c.padding, c.measured_size(), plan);
    lemma_values_of_block(plan, marker, i);
    assert(in_order(lifelines[p], plan.m() + p));
    lemma_lifeline_place(plan, p);
    lemma_values_of_block(plan, lifeline, plan.m() + p);
    lemma_value_of_one(1, lifeline.y, 0, values);
    lemma_value_of_one(1, marker.y, 0, values);
    lemma_value_of_two(1, lifeline.y, 1, lifeline.height, 0, values);
    lemma_value_of_two(1, marker.y, 1, marker.height, 0, values);
    lemma_value_of_two(2, marker.x, 1, marker.width, 0, values);
    lemma_value_of_one(2, lifeline.x, 0, values);
    let with_text = l.with_text_block(lines, c.padding, c.measured_size());
    let tie = if above {
        equal(marker.bottom_view(), ExpressionView::of(lifeline.y))
    } else {
        equal(ExpressionView::of(marker.y), lifeline.bottom_view())
    };
    lemma_met_with(with_text, tie, plan);
    lemma_met_with(
        with_text.with_constraint(tie),
        equal(twice_middle(marker), twice_left(lifeline)),
        plan,
    );
}

/// The heads and footers of the first `n` participants leave the constraints met.
proof fn lemma_met_with_markers(
    l: LayoutView,
    plan: Plan,
    c: SvgConfig,
    lifelines: Seq<Block>,
    n: int,
)
    requires
        plan.wf(),
        met(l, plan),
        lifelines.len() == plan.n(),
        framed(lifelines, plan.m()),
        0 <= n <= plan.n(),
        l.blocks.len() == plan.m() + plan.n() + plan.a(),
        2 + 4 * plan.blocks() <= usize::MAX,
    ensures
        met(with_markers(l, plan.d.participants, c, lifelines, n), plan),
        with_markers(l, plan.d.participants, c, lifelines, n).blocks.len() == plan.m() + plan.n()
            + plan.a() + 2 * n,
        with_markers(l, plan.d.participants, c, lifelines, n).font == l.font,
    decreases n,
{
    if n > 0 {
        lemma_met_with_markers(l, plan, c, lifelines, n - 1);
        let before = with_markers(l, plan.d.participants, c, lifelines, n - 1);
        lemma_met_with_marker(before, plan, c, lifelines, n - 1, true);
        lemma_met_with_marker(
            with_marker(before, plan.d.participants[n - 1].name, c, lifelines[n - 1], true),
            plan,
            c,
            lifelines,
            n - 1,
            false,
        );
    }
}

/// What stands for the participants leaves the constraints met.
proof fn lemma_met_participants(l: LayoutView, plan: Plan, c: SvgConfig, arrows: Seq<Block>)
    requires
        plan.wf(),
        plan.gutter == c.msg_gutter,
        met(l, plan),
        arrows.len() == plan.m(),
        framed(arrows, 0),
        l.blocks.len() == plan.m(),
        2 + 4 * plan.blocks() <= usize::MAX,
    ensures
        met(arranged_participants(l, plan.d, c, arrows), plan),
        arranged_participants(l, plan.d, c, arrows).blocks.len() == plan.m() + 3 * plan.n()
            + plan.a(),
        arranged_participants(l, plan.d, c, arrows).font == l.font,
{
    let n = plan.n();
    let m = plan.m();
    lemma_met_with_lifelines(l, plan, c, arrows, n);
    let with_lines = with_lifelines(l, arrows, c.msg_gutter, n);
    let lifelines = with_lines.blocks.subrange(m, m + n);
    lemma_stretch_framed(with_lines, m, m + n);
    lemma_met_with_activations(with_lines, plan, arrows, lifelines, plan.a());
    let with_rectangles = with_activations(
        with_lines,
        plan.d.activations,
        arrows,
        lifelines,
        plan.a(),
    );
    lemma_met_with_anchors(with_rectangles, plan, arrows, lifelines, n);
    let tied = with_anchors(with_rectangles, plan.d.messages, arrows, lifelines, n);
    lemma_met_with_markers(tied, plan, c, lifelines, n);
}

// ---------------------------------------------------------------------------------------------
// Notes
// ---------------------------------------------------------------------------------------------
proof fn lemma_note_place(plan: Plan, j: int)
    requires
        plan.wf(),
        0 <= j < plan.t(),
    ensures
        placed(plan, plan.m() + 3 * plan.n() + plan.a() + j),
        plan.place(plan.m() + 3 * plan.n() + plan.a() + j) == plan.note(j),
        plan.note(j).y == 0real,
        plan.note(j).height == 0real,
{
    let note = plan.d.notes[j];
    assert(note.wf(j, plan.n(), plan.m()));
    match note.horizontal_position {
        HorizontalNotePositionView::LeftOf(p) => {
            lemma_columns(plan, p as int, p as int);
        },
        HorizontalNotePositionView::RightOf(p) => {
            lemma_columns(plan, p as int, p as int);
        },
        HorizontalNotePositionView::Over(ps) => {
            if ps.len() > 0 {
                lemma_least_greatest(ps);
                lemma_ends_among(ps, plan.n());
                let a = choose|i: int| 0 <= i < ps.len() && ps[i] == least(ps);
                assert(least(ps) <= ps[a] && ps[a] <= greatest(ps));
                lemma_columns(plan, least(ps) as int, greatest(ps) as int);
            }
        },
    }
}

/// One more note leaves the constraints met.
proof fn lemma_met_with_note(
    l: LayoutView,
    plan: Plan,
    c: SvgConfig,
    lifelines: Seq<Block>,
    j: int,
)
    requires
        plan.wf(),
        plan.gutter == c.msg_gutter,
        met(l, plan),
        lifelines.len() == plan.n(),
        framed(lifelines, plan.m()),
        0 <= j < plan.t(),
        l.blocks.len() == plan.m() + 3 * plan.n() + plan.a() + j,
        2 + 4 * plan.blocks() <= usize::MAX,
    ensures
        met(with_note(l, plan.d.notes[j], c, lifelines), plan),
        with_note(l, plan.d.notes[j], c, lifelines).blocks.len() == l.blocks.len() + 1,
        with_note(l, plan.d.notes[j], c, lifelines).font == l.font,
{
    let values = plan.values();
    let gutter = c.msg_gutter;
    let note = plan.d.notes[j];
    assert(note.wf(j, plan.n(), plan.m()));
    let i = l.blocks.len() as int;
    let b = fresh_block(l.vars.len() as int, l.font.line_height(c.measured_size()) as u32);
    lemma_note_place(plan, j);
    lemma_met_with_text_block(
        l,
        wrapped(note.content, c.max_participant_head_length),
        c.padding,
        c.measured_size(),
        plan,
    );
    let with_text = l.with_text_block(
        wrapped(note.content, c.max_participant_head_length),
        c.padding,
        c.measured_size(),
    );
    lemma_values_of_block(plan, b, i);
    lemma_value_of_one(1, b.x, 0, values);
    lemma_value_of_two(1, b.x, 1, b.width, 0, values);
    match note.horizontal_position {
        HorizontalNotePositionView::LeftOf(p) => {
            let lifeline = lifelines[p as int];
            assert(in_order(lifelines[p as int], plan.m() + p));
            lemma_lifeline_place(plan, p as int);
            lemma_values_of_block(plan, lifeline, plan.m() + p);
            lemma_value_of_one(1, lifeline.x, (-(gutter as Length)) as Length, values);
            lemma_met_with(with_text, ends_before(b, lifeline, gutter), plan);
            if p > 0 {
                let prev = lifelines[p - 1];
                assert(in_order(lifelines[p - 1], plan.m() + p - 1));
                lemma_lifeline_place(plan, p - 1);
                lemma_values_of_block(plan, prev, plan.m() + p - 1);
                lemma_value_of_two(1, prev.x, 1, prev.width, gutter as Length, values);
                lemma_columns(plan, p - 1, p as int);
                lemma_met_with(
                    with_text.with_constraint(ends_before(b, lifeline, gutter)),
                    begins_behind(b, prev, gutter),
                    plan,
                );
            }
        },
        HorizontalNotePositionView::RightOf(p) => {
            let lifeline = lifelines[p as int];
            assert(in_order(lifelines[p as int], plan.m() + p));
            lemma_lifeline_place(plan, p as int);
            lemma_values_of_block(plan, lifeline, plan.m() + p);
            lemma_value_of_two(1, lifeline.x, 1, lifeline.width, gutter as Length, values);
            lemma_met_with(with_text, begins_behind(b, lifeline, gutter), plan);
        },
        HorizontalNotePositionView::Over(ps) => {
            if ps.len() > 0 {
                lemma_ends_among(ps, plan.n());
                let low = least(ps) as int;
                let high = greatest(ps) as int;
                let leftmost = lifelines[low];
                let rightmost = lifelines[high];
                assert(in_order(lifelines[low], plan.m() + low));
                assert(in_order(lifelines[high], plan.m() + high));
                lemma_lifeline_place(plan, low);
                lemma_lifeline_place(plan, high);
                lemma_values_of_block(plan, leftmost, plan.m() + low);
                lemma_values_of_block(plan, rightmost, plan.m() + high);
                lemma_value_of_one(1, leftmost.x, (-(gutter as Length)) as Length, values);
                lemma_value_of_one(1, rightmost.x, gutter as Length, values);
                lemma_met_with(with_text, begins_before(b, leftmost, gutter), plan);
                lemma_met_with(
                    with_text.with_constraint(begins_before(b, leftmost, gutter)),
                    ends_behind(b, rightmost, gutter),
                    plan,
                );
            }
        },
    }
}

/// The first `n` notes leave the constraints met.
proof fn lemma_met_with_notes(
    l: LayoutView,
    plan: Plan,
    c: SvgConfig,
    lifelines: Seq<Block>,
    n: int,
)
    requires
        plan.wf(),
        plan.gutter == c.msg_gutter,
        met(l, plan),
        lifelines.len() == plan.n(),
        framed(lifelines, plan.m()),
        0 <= n <= plan.t(),
        l.blocks.len() == plan.m() + 3 * plan.n() + plan.a(),
        2 + 4 * plan.blocks() <= usize::MAX,
    ensures
        met(with_notes(l, plan.d.notes, c, lifelines, n), plan),
        with_notes(l, plan.d.notes, c, lifelines, n).blocks.len() == plan.m() + 3 * plan.n()
            + plan.a() + n,
        with_notes(l, plan.d.notes, c, lifelines, n).font == l.font,
    decreases n,
{
    if n > 0 {
        lemma_met_with_notes(l, plan, c, lifelines, n - 1);
        lemma_met_with_note(
            with_notes(l, plan.d.notes, c, lifelines, n - 1),
            plan,
            c,
            lifelines,
            n - 1,
        );
    }
}

/// The passing of the last note by the first `n` lifelines leaves the constraints met.
proof fn lemma_met_with_passing(
    l: LayoutView,
    plan: Plan,
    c: SvgConfig,
    lifelines: Seq<Block>,
    boxes: Seq<Block>,
    n: int,
)
    requires
        plan.wf(),
        plan.gutter == c.msg_gutter,
        met(l, plan),
        lifelines.len() == plan.n(),
        framed(lifelines, plan.m()),
        boxes.len() == plan.t(),
        framed(boxes, plan.m() + 3 * plan.n() + plan.a()),
        0 <= n <= plan.n(),
    ensures
        met(with_passing(l, lifelines, boxes, c.msg_gutter, n), plan),
        same_blocks(l, with_passing(l, lifelines, boxes, c.msg_gutter, n)),
    decreases n,
{
    if n > 0 && boxes.len() > 0 {
        lemma_met_with_passing(l, plan, c, lifelines, boxes, n - 1);
        let values = plan.values();
        let lifeline = lifelines[n - 1];
        let last = boxes.last();
        let t = plan.t();
        assert(in_order(lifelines[n - 1], plan.m() + n - 1));
        assert(in_order(boxes[t - 1], plan.m() + 3 * plan.n() + plan.a() + t - 1));
        lemma_lifeline_place(plan, n - 1);
        lemma_note_place(plan, t - 1);
        lemma_values_of_block(plan, lifeline, plan.m() + n - 1);
        lemma_values_of_block(plan, last, plan.m() + 3 * plan.n() + plan.a() + t - 1);
        lemma_rows(plan, 0, 0);
        lemma_value_of_two(1, lifeline.y, 1, lifeline.height, 0, values);
        lemma_value_of_two(1, last.y, 1, last.height, c.msg_gutter as Length, values);
        lemma_met_with(
            with_passing(l, lifelines, boxes, c.msg_gutter, n - 1),
            passes(lifeline, last, c.msg_gutter),
            plan,
        );
    }
}

/// The placing of the first `n` notes downwards leaves the constraints met: it is wished, not
/// required.
proof fn lemma_met_with_notes_down(
    l: LayoutView,
    plan: Plan,
    c: SvgConfig,
    boxes: Seq<Block>,
    heads: Seq<Block>,
    arrows: Seq<Block>,
    n: int,
)
    requires
        met(l, plan),
        0 <= n,
    ensures
        met(with_notes_down(l, plan.d.notes, boxes, heads, arrows, c.msg_gutter, n), plan),
        same_blocks(l, with_notes_down(l, plan.d.notes, boxes, heads, arrows, c.msg_gutter, n)),
    decreases n,
{
    if n > 0 {
        lemma_met_with_notes_down(l, plan, c, boxes, heads, arrows, n - 1);
        let before = with_notes_down(l, plan.d.notes, boxes, heads, arrows, c.msg_gutter, n - 1);
        let b = boxes[n - 1];
        match plan.d.notes[n - 1].vertical_position {
            VerticalNotePosition::First => {
                if heads.len() > 0 {
                    lemma_met_with(before, follows(b, heads[0], c.msg_gutter), plan);
                }
            },
            VerticalNotePosition::AfterMessage(message) => {
                lemma_met_with(before, follows(b, arrows[message as int], c.msg_gutter), plan);
            },
            VerticalNotePosition::AfterNote(note) => {
                lemma_met_with(before, follows(b, boxes[note as int], c.msg_gutter), plan);
            },
        }
    }
}

/// The notes leave the constraints met.
proof fn lemma_met_notes(
    l: LayoutView,
    plan: Plan,
    c: SvgConfig,
    arrows: Seq<Block>,
    lifelines: Seq<Block>,
    heads: Seq<Block>,
)
    requires
        plan.wf(),
        plan.gutter == c.msg_gutter,
        met(l, plan),
        lifelines.len() == plan.n(),
        framed(lifelines, plan.m()),
        l.blocks.len() == plan.m() + 3 * plan.n() + plan.a(),
        2 + 4 * plan.blocks() <= usize::MAX,
    ensures
        met(arranged_notes(l, plan.d, c, arrows, lifelines, heads), plan),
{
    let t = plan.t();
    let first = plan.m() + 3 * plan.n() + plan.a();
    lemma_met_with_notes(l, plan, c, lifelines, t);
    let with_boxes = with_notes(l, plan.d.notes, c, lifelines, t);
    let boxes = with_boxes.blocks.subrange(first, first + t);
    lemma_stretch_framed(with_boxes, first, first + t);
    lemma_met_with_passing(with_boxes, plan, c, lifelines, boxes, plan.n());
    lemma_met_with_notes_down(
        with_passing(with_boxes, lifelines, boxes, c.msg_gutter, plan.n()),
        plan,
        c,
        boxes,
        heads,
        arrows,
        t,
    );
}

// ---------------------------------------------------------------------------------------------
// The whole
// ---------------------------------------------------------------------------------------------
/// The required constraints of the layout of a well-formed diagram can be met: there are
/// values of the variables under which every one of them holds. A solver that is given these
/// constraints therefore never finds them in conflict.
pub proof fn law_constraints_can_be_met(d: SequenceDiagramView, c: SvgConfig, font: FontMetricsView)
    requires
        d.wf(),
        font.wf(),
        2 + 4 * (d.messages.len() + 3 * d.participants.len() + d.activations.len()
            + d.notes.len()) <= usize::MAX,
    ensures
        exists|values: spec_fn(Variable) -> real| satisfies(arranged(d, c, font).constraints, values),
{
    lemma_line_height_bound(font, GLYPH_SIZE);
    let empty = LayoutView::empty(font);
    let plan = Plan::of(d, c, empty.glyphs_height);
    let m = plan.m();
    let n = plan.n();
    let a = plan.a();
    assert(met(empty, plan));
    lemma_met_messages(empty, plan, c);
    let with_messages = arranged_messages(empty, d, c);
    let arrows = with_messages.blocks.subrange(0, m);
    lemma_stretch_framed(with_messages, 0, m);
    lemma_met_participants(with_messages, plan, c, arrows);
    let with_participants = arranged_participants(with_messages, d, c, arrows);
    let lifelines = with_participants.blocks.subrange(m, m + n);
    lemma_stretch_framed(with_participants, m, m + n);
    let heads = every_second(with_participants.blocks, m + n + a, n as nat);
    lemma_met_notes(with_participants, plan, c, arrows, lifelines, heads);
    assert(satisfies(arranged(d, c, font).constraints, plan.values()));
}

// ---------------------------------------------------------------------------------------------
// How many variables a layout has
// ---------------------------------------------------------------------------------------------
/// The layout has four variables for every block, and the two of its edges.
pub open spec fn counted_out(l: LayoutView, blocks: int) -> bool {
    l.blocks.len() == blocks && l.vars.len() == 2 + 4 * blocks
}

proof fn lemma_count_arrows(l: LayoutView, messages: Seq<MessageView>, c: SvgConfig, k: int, n: int)
    requires
        counted_out(l, n),
        0 <= k,
    ensures
        counted_out(with_arrows(l, messages, c, k), n + k),
    decreases k,
{
    if k > 0 {
        lemma_count_arrows(l, messages, c, k - 1, n);
    }
}

proof fn lemma_count_gridded_for(
    l: LayoutView,
    messages: Seq<MessageView>,
    arrows: Seq<Block>,
    p: ParticipantId,
    k: int,
    n: int,
)
    requires
        counted_out(l, n),
        0 <= k,
    ensures
        counted_out(gridded_for_upto(l, messages, arrows, p, k), n),
    decreases k,
{
    if k > 0 {
        lemma_count_gridded_for(l, messages, arrows, p, k - 1, n);
    }
}

proof fn lemma_count_gridded(
    l: LayoutView,
    messages: Seq<MessageView>,
    arrows: Seq<Block>,
    k: int,
    n: int,
)
    requires
        counted_out(l, n),
        0 <= k,
    ensures
        counted_out(gridded_upto(l, messages, arrows, k), n),
    decreases k,
{
    if k > 0 {
        lemma_count_gridded(l, messages, arrows, k - 1, n);
        lemma_count_gridded_for(
            gridded_upto(l, messages, arrows, k - 1),
            messages,
            arrows,
            (k - 1) as usize,
            messages.len() as int,
            n,
        );
    }
}

proof fn lemma_count_lifelines(l: LayoutView, arrows: Seq<Block>, gutter: u32, k: int, n: int)
    requires
        counted_out(l, n),
        0 <= k,
    ensures
        counted_out(with_lifelines(l, arrows, gutter, k), n + k),
    decreases k,
{
    if k > 0 {
        lemma_count_lifelines(l, arrows, gutter, k - 1, n);
    }
}

proof fn lemma_count_activations(
    l: LayoutView,
    activations: Seq<Activation>,
    arrows: Seq<Block>,
    lifelines: Seq<Block>,
    k: int,
    n: int,
)
    requires
        counted_out(l, n),
        0 <= k,
    ensures
        counted_out(with_activations(l, activations, arrows, lifelines, k), n + k),
    decreases k,
{
    if k > 0 {
        lemma_count_activations(l, activations, arrows, lifelines, k - 1, n);
    }
}

proof fn lemma_count_anchors(
    l: LayoutView,
    messages: Seq<MessageView>,
    arrows: Seq<Block>,
    lifelines: Seq<Block>,
    k: int,
    n: int,
)
    requires
        counted_out(l, n),
        0 <= k,
    ensures
        counted_out(with_anchors(l, messages, arrows, lifelines, k), n),
    decreases k,
{
    if k > 0 {
        lemma_count_anchors(l, messages, arrows, lifelines, k - 1, n);
    }
}

proof fn lemma_count_markers(
    l: LayoutView,
    participants: Seq<ParticipantView>,
    c: SvgConfig,
    lifelines: Seq<Block>,
    k: int,
    n: int,
)
    requires
        counted_out(l, n),
        0 <= k,
    ensures
        counted_out(with_markers(l, participants, c, lifelines, k), n + 2 * k),
    decreases k,
{
    if k > 0 {
        lemma_count_markers(l, participants, c, lifelines, k - 1, n);
    }
}

proof fn lemma_count_notes(
    l: LayoutView,
    notes: Seq<NoteView>,
    c: SvgConfig,
    lifelines: Seq<Block>,
    k: int,
    n: int,
)
    requires
        counted_out(l, n),
        0 <= k,
    ensures
        counted_out(with_notes(l, notes, c, lifelines, k), n + k),
    decreases k,
{
    if k > 0 {
        lemma_count_notes(l, notes, c, lifelines, k - 1, n);
    }
}

proof fn lemma_count_passing(
    l: LayoutView,
    lifelines: Seq<Block>,
    boxes: Seq<Block>,
    gutter: u32,
    k: int,
    n: int,
)
    requires
        counted_out(l, n),
        0 <= k,
    ensures
        counted_out(with_passing(l, lifelines, boxes, gutter, k), n),
    decreases k,
{
    if k > 0 && boxes.len() > 0 {
        lemma_count_passing(l, lifelines, boxes, gutter, k - 1, n);
    }
}

proof fn lemma_count_notes_down(
    l: LayoutView,
    notes: Seq<NoteView>,
    boxes: Seq<Block>,
    heads: Seq<Block>,
    arrows: Seq<Block>,
    gutter: u32,
    k: int,
    n: int,
)
    requires
        counted_out(l, n),
        0 <= k,
    ensures
        counted_out(with_notes_down(l, notes, boxes, heads, arrows, gutter, k), n),
    decreases k,
{
    if k > 0 {
        lemma_count_notes_down(l, notes, boxes, heads, arrows, gutter, k - 1, n);
    }
}

proof fn lemma_count_messages(l: LayoutView, d: SequenceDiagramView, c: SvgConfig, n: int)
    requires
        counted_out(l, n),
    ensures
        counted_out(arranged_messages(l, d, c), n + d.messages.len()),
{
    let m = d.messages.len() as int;
    lemma_count_arrows(l, d.messages, c, m, n);
    let with_texts = with_arrows(l, d.messages, c, m);
    let arrows = with_texts.blocks.subrange(l.blocks.len() as int, l.blocks.len() + m);
    lemma_count_gridded(
        with_texts.with_constraints(stacking(arrows, c.msg_gutter)),
        d.messages,
        arrows,
        d.participants.len() as int,
        n + m,
    );
}

proof fn lemma_count_participants(
    l: LayoutView,
    d: SequenceDiagramView,
    c: SvgConfig,
    arrows: Seq<Block>,
    n: int,
)
    requires
        counted_out(l, n),
    ensures
        counted_out(
            arranged_participants(l, d, c, arrows),
            n + 3 * d.participants.len() + d.activations.len(),
        ),
{
    let k = d.participants.len() as int;
    let a = d.activations.len() as int;
    lemma_count_lifelines(l, arrows, c.msg_gutter, k, n);
    let with_lines = with_lifelines(l, arrows, c.msg_gutter, k);
    let lifelines = with_lines.blocks.subrange(l.blocks.len() as int, l.blocks.len() + k);
    lemma_count_activations(with_lines, d.activations, arrows, lifelines, a, n + k);
    let with_rectangles = with_activations(with_lines, d.activations, arrows, lifelines, a);
    lemma_count_anchors(with_rectangles, d.messages, arrows, lifelines, k, n + k + a);
    let tied = with_anchors(with_rectangles, d.messages, arrows, lifelines, k);
    lemma_count_markers(tied, d.participants, c, lifelines, k, n + k + a);
}

proof fn lemma_count_all_notes(
    l: LayoutView,
    d: SequenceDiagramView,
    c: SvgConfig,
    arrows: Seq<Block>,
    lifelines: Seq<Block>,
    heads: Seq<Block>,
    n: int,
)
    requires
        counted_out(l, n),
    ensures
        counted_out(arranged_notes(l, d, c, arrows, lifelines, heads), n + d.notes.len()),
{
    let t = d.notes.len() as int;
    lemma_count_notes(l, d.notes, c, lifelines, t, n);
    let with_boxes = with_notes(l, d.notes, c, lifelines, t);
    let boxes = with_boxes.blocks.subrange(l.blocks.len() as int, l.blocks.len() + t);
    lemma_count_passing(with_boxes, lifelines, boxes, c.msg_gutter, lifelines.len() as int, n + t);
    lemma_count_notes_down(
        with_passing(with_boxes, lifelines, boxes, c.msg_gutter, lifelines.len() as int),
        d.notes,
        boxes,
        heads,
        arrows,
        c.msg_gutter,
        t,
        n + t,
    );
}

/// The layout of a diagram has a block for every message, three for every participant, one
/// for every activation and one for every note, and four variables for every block.
pub proof fn lemma_arranged_count(d: SequenceDiagramView, c: SvgConfig, font: FontMetricsView)
    ensures
        counted_out(
            arranged(d, c, font),
            (d.messages.len() + 3 * d.participants.len() + d.activations.len()
                + d.notes.len()) as int,
        ),
{
    let m = d.messages.len() as int;
    let n = d.participants.len() as int;
    let a = d.activations.len() as int;
    let empty = LayoutView::empty(font);
    lemma_count_messages(empty, d, c, 0);
    let with_messages = arranged_messages(empty, d, c);
    let arrows = with_messages.blocks.subrange(0, m);
    lemma_count_participants(with_messages, d, c, arrows, m);
    let with_participants = arranged_participants(with_messages, d, c, arrows);
    let lifelines = with_participants.blocks.subrange(m, m + n);
    let heads = every_second(with_participants.blocks, m + n + a, n as nat);
    lemma_count_all_notes(with_participants, d, c, arrows, lifelines, heads, m + 3 * n + a);
}

/// The required constraints of every scene that is laid out for a well-formed diagram can be
/// met.
pub proof fn law_scene_can_be_solved(
    scene: Scene,
    d: SequenceDiagramView,
    c: SvgConfig,
    font: FontMetricsView,
)
    requires
        d.wf(),
        font.wf(),
        scene.arranges(d, c, font),
    ensures
        exists|values: spec_fn(Variable) -> real| satisfies(scene.layout@.constraints, values),
{
    lemma_arranged_count(d, c, font);
    assert(scene.layout@.wf());
    law_constraints_can_be_met(d, c, font);
}

} // verus!
