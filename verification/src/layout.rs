//! A layout of blocks in the plane.
//!
//! A block is a rectangle with four variables: where it begins, across and down, and how wide
//! and how high it is. A layout owns blocks, the variables, and the constraints added since it
//! was last solved; two variables of its own stand for its right and its bottom edge, which lie
//! behind every block. Solving is left to a solver of linear constraints outside this library:
//! the layout hands out the constraints, and takes back the values that the solver found.

use crate::constraint::{
    constraints_view, lemma_value_of_fixed, lemma_value_of_one, lemma_value_of_two, satisfies,
    Constraint, ConstraintView, Expression, ExpressionView, Relation, Strength, Variable,
};
use crate::metrics::{lines_text, wrap, wrapped, FontMetrics, FontMetricsView, Length, MAX_TEXT_WIDTH};
use vstd::prelude::*;

verus! {

/// The handle of a block: its position in the layout.
pub type BlockId = usize;

/// The pixel size at which the glyph height of a layout is taken.
pub const GLYPH_SIZE: u16 = 12;

#[derive(PartialEq, Eq, Structural, Debug, Clone, Copy)]
pub enum Orientation {
    Horizontal,
    Vertical,
}

#[derive(PartialEq, Eq, Structural, Debug, Clone, Copy)]
pub enum AlignmentAnchor {
    Start,
    Middle,
    End,
}

/// One of the four variables of a block.
#[derive(PartialEq, Eq, Structural, Debug, Clone, Copy)]
pub enum BlockVariable {
    X,
    Y,
    Width,
    Height,
}

/// What a variable of the layout stands for.
#[derive(PartialEq, Eq, Structural, Debug, Clone, Copy)]
pub enum VariableId {
    BlockVar(BlockId, BlockVariable),
    LayoutRight,
    LayoutBottom,
}

/// A value that a solver found for a variable, rounded to a whole unit.
#[derive(PartialEq, Eq, Structural, Debug, Clone, Copy)]
pub struct Change {
    pub variable: Variable,
    pub value: Length,
}

/// A rectangle: its four variables, and the values they had when the layout was last solved.
#[derive(PartialEq, Eq, Structural, Debug, Clone, Copy)]
pub struct Block {
    pub x: Variable,
    pub y: Variable,
    pub width: Variable,
    pub height: Variable,
    pub x_: Length,
    pub y_: Length,
    pub width_: Length,
    pub height_: Length,
    /// The height of a line of text in the block; 0 where it holds no text.
    pub line_height: u32,
}

/// `v` is not negative.
pub open spec fn not_negative(v: Variable) -> ConstraintView {
    ConstraintView::required(
        ExpressionView::of(v),
        Relation::GreaterOrEqual,
        ExpressionView::fixed(0),
    )
}

impl Block {
    /// The right edge: `x + width`.
    pub open spec fn right_view(self) -> ExpressionView {
        ExpressionView::of_two(1, self.x, 1, self.width, 0)
    }

    /// The bottom edge: `y + height`.
    pub open spec fn bottom_view(self) -> ExpressionView {
        ExpressionView::of_two(1, self.y, 1, self.height, 0)
    }

    /// None of the four variables is negative.
    pub open spec fn floor(self) -> Seq<ConstraintView> {
        seq![
            not_negative(self.x),
            not_negative(self.y),
            not_negative(self.width),
            not_negative(self.height),
        ]
    }

    /// The block ends before `right` and `bottom`.
    pub open spec fn bounds(self, right: Variable, bottom: Variable) -> Seq<ConstraintView> {
        seq![
            ConstraintView::required(
                ExpressionView::of(right),
                Relation::GreaterOrEqual,
                self.right_view(),
            ),
            ConstraintView::required(
                ExpressionView::of(bottom),
                Relation::GreaterOrEqual,
                self.bottom_view(),
            ),
        ]
    }

    /// The solved value of one of the four variables.
    pub open spec fn solved(self, field: BlockVariable) -> Length {
        match field {
            BlockVariable::X => self.x_,
            BlockVariable::Y => self.y_,
            BlockVariable::Width => self.width_,
            BlockVariable::Height => self.height_,
        }
    }

    /// The block with `value` as the solved value of one of the four variables.
    pub open spec fn with(self, field: BlockVariable, value: Length) -> Block {
        match field {
            BlockVariable::X => Block { x_: value, ..self },
            BlockVariable::Y => Block { y_: value, ..self },
            BlockVariable::Width => Block { width_: value, ..self },
            BlockVariable::Height => Block { height_: value, ..self },
        }
    }

    /// No solved value is negative.
    pub open spec fn solved_not_negative(self) -> bool {
        self.x_ >= 0 && self.y_ >= 0 && self.width_ >= 0 && self.height_ >= 0
    }

    /// The variable of the left edge.
    pub fn left(&self) -> (v: Variable)
        ensures
            v == self.x,
    {
        self.x
    }

    /// The variable of the top edge.
    pub fn top(&self) -> (v: Variable)
        ensures
            v == self.y,
    {
        self.y
    }

    /// The right edge.
    pub fn right(&self) -> (e: Expression)
        ensures
            e@ == self.right_view(),
    {
        Expression::two(1, self.x, 1, self.width, 0)
    }

    /// The bottom edge.
    pub fn bottom(&self) -> (e: Expression)
        ensures
            e@ == self.bottom_view(),
    {
        Expression::two(1, self.y, 1, self.height, 0)
    }

    /// A new block for `layout`, to be its block number `id`: four new variables, none of them
    /// negative, and all solved values 0. The block is not yet among the blocks of the layout.
    pub fn new(layout: &mut Layout, id: BlockId) -> (block: Block)
        requires
            old(layout)@.wf(),
            id <= old(layout)@.blocks.len(),
        ensures
            final(layout)@ == (LayoutView {
                vars: old(layout)@.vars + seq![
                    VariableId::BlockVar(id, BlockVariable::X),
                    VariableId::BlockVar(id, BlockVariable::Y),
                    VariableId::BlockVar(id, BlockVariable::Width),
                    VariableId::BlockVar(id, BlockVariable::Height),
                ],
                constraints: old(layout)@.constraints + block.floor(),
                ..old(layout)@
            }),
            final(layout)@.wf(),
            block == (Block {
                x: old(layout)@.vars.len() as usize,
                y: (old(layout)@.vars.len() + 1) as usize,
                width: (old(layout)@.vars.len() + 2) as usize,
                height: (old(layout)@.vars.len() + 3) as usize,
                x_: 0,
                y_: 0,
                width_: 0,
                height_: 0,
                line_height: 0,
            }),
            block.height < final(layout)@.vars.len(),
    {
        let x = layout.add_var(id, BlockVariable::X);
        let y = layout.add_var(id, BlockVariable::Y);
        let width = layout.add_var(id, BlockVariable::Width);
        let height = layout.add_var(id, BlockVariable::Height);
        layout.add_constraint(at_least_zero(x));
        layout.add_constraint(at_least_zero(y));
        layout.add_constraint(at_least_zero(width));
        layout.add_constraint(at_least_zero(height));
        let block = Block {
            x,
            y,
            width,
            height,
            x_: 0,
            y_: 0,
            width_: 0,
            height_: 0,
            line_height: 0,
        };
        assert(layout@.vars == old(layout)@.vars + seq![
            VariableId::BlockVar(id, BlockVariable::X),
            VariableId::BlockVar(id, BlockVariable::Y),
            VariableId::BlockVar(id, BlockVariable::Width),
            VariableId::BlockVar(id, BlockVariable::Height),
        ]);
        assert(layout@.constraints == old(layout)@.constraints + block.floor());
        block
    }
}

fn at_least_zero(v: Variable) -> (c: Constraint)
    ensures
        c@ == not_negative(v),
{
    Constraint::required(Expression::variable(v), Relation::GreaterOrEqual, Expression::constant(0))
}

/// The blocks, variables and pending constraints of a drawing.
pub struct Layout {
    vars: Vec<VariableId>,
    blocks: Vec<Block>,
    constraints_accu: Vec<Constraint>,
    right_var: Variable,
    bottom_var: Variable,
    right_: Length,
    bottom_: Length,
    font: FontMetrics,
    glyphs_height: u32,
}

pub struct LayoutView {
    /// What each variable stands for; a variable is a position in this sequence.
    pub vars: Seq<VariableId>,
    pub blocks: Seq<Block>,
    /// The constraints added since the layout was last solved.
    pub constraints: Seq<ConstraintView>,
    pub right_var: Variable,
    pub bottom_var: Variable,
    /// The solved value of the right edge.
    pub right: Length,
    /// The solved value of the bottom edge.
    pub bottom: Length,
    pub font: FontMetricsView,
    pub glyphs_height: u32,
}

impl View for Layout {
    type V = LayoutView;

    closed spec fn view(&self) -> LayoutView {
        LayoutView {
            vars: self.vars@,
            blocks: self.blocks@,
            constraints: constraints_view(self.constraints_accu@),
            right_var: self.right_var,
            bottom_var: self.bottom_var,
            right: self.right_,
            bottom: self.bottom_,
            font: self.font@,
            glyphs_height: self.glyphs_height,
        }
    }
}

impl LayoutView {
    /// The layout with nothing in it but the two edge variables, for texts set in `font`.
    pub open spec fn empty(font: FontMetricsView) -> LayoutView {
        LayoutView {
            vars: seq![VariableId::LayoutRight, VariableId::LayoutBottom],
            blocks: Seq::empty(),
            constraints: Seq::empty(),
            right_var: 0,
            bottom_var: 1,
            right: 0,
            bottom: 0,
            font,
            glyphs_height: font.line_height(GLYPH_SIZE) as u32,
        }
    }

    /// Variable `v` exists and stands for `id`.
    pub open spec fn stands_for(self, v: Variable, id: VariableId) -> bool {
        v < self.vars.len() && self.vars[v as int] == id
    }

    /// The four variables of block `i` exist and stand for its four fields.
    pub open spec fn owns(self, i: int) -> bool {
        let block = self.blocks[i];
        &&& self.stands_for(block.x, VariableId::BlockVar(i as usize, BlockVariable::X))
        &&& self.stands_for(block.y, VariableId::BlockVar(i as usize, BlockVariable::Y))
        &&& self.stands_for(block.width, VariableId::BlockVar(i as usize, BlockVariable::Width))
        &&& self.stands_for(block.height, VariableId::BlockVar(i as usize, BlockVariable::Height))
    }

    /// The two edge variables exist, every block has its four variables, no variable stands for
    /// a block beyond the next one to come, no solved value is negative, and the glyph height
    /// is that of the font.
    pub open spec fn wf(self) -> bool {
        &&& self.font.wf()
        &&& self.vars.len() <= usize::MAX
        &&& self.blocks.len() <= usize::MAX
        &&& self.glyphs_height == self.font.line_height(GLYPH_SIZE)
        &&& self.stands_for(self.right_var, VariableId::LayoutRight)
        &&& self.stands_for(self.bottom_var, VariableId::LayoutBottom)
        &&& forall|i: int| 0 <= i < self.blocks.len() ==> #[trigger] self.owns(i)
        &&& forall|v: int|
            0 <= v < self.vars.len() ==> (#[trigger] self.vars[v] matches VariableId::BlockVar(
                i,
                _,
            ) ==> i <= self.blocks.len())
        &&& forall|i: int|
            0 <= i < self.blocks.len() ==> (#[trigger] self.blocks[i]).solved_not_negative()
        &&& self.right >= 0
        &&& self.bottom >= 0
    }

    /// The pending constraints hold `c`.
    pub open spec fn has(self, c: ConstraintView) -> bool {
        self.constraints.contains(c)
    }

    /// The pending constraints keep block `i` in the quadrant of the origin and before the
    /// right and bottom edge of the layout.
    pub open spec fn confines(self, i: int) -> bool {
        let block = self.blocks[i];
        &&& forall|k: int| 0 <= k < 4 ==> self.has(#[trigger] block.floor()[k])
        &&& forall|k: int|
            0 <= k < 2 ==> self.has(#[trigger] block.bounds(self.right_var, self.bottom_var)[k])
    }

    /// The pending constraints confine every block: true of a layout that has not been solved
    /// since its first block was added.
    pub open spec fn confines_all(self) -> bool {
        forall|i: int| 0 <= i < self.blocks.len() ==> #[trigger] self.confines(i)
    }

    /// Every constraint pending in `self` is pending in `later`.
    pub open spec fn keeps(self, later: LayoutView) -> bool {
        forall|c: ConstraintView| self.has(c) ==> #[trigger] later.has(c)
    }

    /// `later` has everything that `self` has, and more at the end: the variables, blocks and
    /// pending constraints of `self` are the first of `later`.
    pub open spec fn grows_to(self, later: LayoutView) -> bool {
        &&& self.keeps(later)
        &&& self.vars.is_prefix_of(later.vars)
        &&& self.blocks.is_prefix_of(later.blocks)
        &&& self.constraints.is_prefix_of(later.constraints)
        &&& later.right_var == self.right_var
        &&& later.bottom_var == self.bottom_var
        &&& later.right == self.right
        &&& later.bottom == self.bottom
        &&& later.font == self.font
        &&& later.glyphs_height == self.glyphs_height
    }
}

/// Where only constraints were added, what held of the layout holds on.
proof fn lemma_more_constraints(before: LayoutView, after: LayoutView)
    requires
        before.constraints.is_prefix_of(after.constraints),
        after == (LayoutView { constraints: after.constraints, ..before }),
    ensures
        before.wf() ==> after.wf(),
        before.confines_all() ==> after.confines_all(),
        before.grows_to(after),
{
    assert forall|c: ConstraintView| before.has(c) implies after.has(c) by {
        let k = choose|k: int| 0 <= k < before.constraints.len() && before.constraints[k] == c;
        assert(after.constraints[k] == c);
    }
    if before.wf() {
        assert forall|i: int| 0 <= i < after.blocks.len() implies #[trigger] after.owns(i) by {
            assert(before.owns(i));
        }
    }
    if before.confines_all() {
        assert forall|i: int| 0 <= i < after.blocks.len() implies #[trigger] after.confines(
            i,
        ) by {
            assert(before.confines(i));
        }
    }
}

/// The four variables of block `id`, in the order in which they are made.
pub open spec fn block_vars(id: BlockId) -> Seq<VariableId> {
    seq![
        VariableId::BlockVar(id, BlockVariable::X),
        VariableId::BlockVar(id, BlockVariable::Y),
        VariableId::BlockVar(id, BlockVariable::Width),
        VariableId::BlockVar(id, BlockVariable::Height),
    ]
}

/// A block whose four variables are `first` and the three behind it, with no solved value yet.
pub open spec fn fresh_block(first: int, line_height: u32) -> Block {
    Block {
        x: first as usize,
        y: (first + 1) as usize,
        width: (first + 2) as usize,
        height: (first + 3) as usize,
        x_: 0,
        y_: 0,
        width_: 0,
        height_: 0,
        line_height,
    }
}

/// The wish that a block have this width and this height.
pub open spec fn pins(block: Block, width: Length, height: Length) -> Seq<ConstraintView> {
    seq![
        ConstraintView::strong(ExpressionView::of(block.width), ExpressionView::fixed(width)),
        ConstraintView::strong(ExpressionView::of(block.height), ExpressionView::fixed(height)),
    ]
}

/// `next` begins at least `gutter` behind the end of `prev`, downwards or across.
pub open spec fn spacing(orientation: Orientation, gutter: u32, prev: Block, next: Block) -> ConstraintView {
    match orientation {
        Orientation::Vertical => ConstraintView::required(
            ExpressionView::of_two(1, prev.y, 1, prev.height, gutter as Length),
            Relation::LessOrEqual,
            ExpressionView::of(next.y),
        ),
        Orientation::Horizontal => ConstraintView::required(
            ExpressionView::of_two(1, prev.x, 1, prev.width, gutter as Length),
            Relation::LessOrEqual,
            ExpressionView::of(next.x),
        ),
    }
}

/// `prev` and `next` have the same start, middle or end, downwards or across. The middles are
/// compared doubled, so that no half occurs: twice the start plus the extent.
pub open spec fn alignment(
    orientation: Orientation,
    anchor: AlignmentAnchor,
    prev: Block,
    next: Block,
) -> ConstraintView {
    match (orientation, anchor) {
        (Orientation::Vertical, AlignmentAnchor::Start) => ConstraintView::required(
            ExpressionView::of(prev.y),
            Relation::Equal,
            ExpressionView::of(next.y),
        ),
        (Orientation::Vertical, AlignmentAnchor::Middle) => ConstraintView::required(
            ExpressionView::of_two(2, prev.y, 1, prev.height, 0),
            Relation::Equal,
            ExpressionView::of_two(2, next.y, 1, next.height, 0),
        ),
        (Orientation::Vertical, AlignmentAnchor::End) => ConstraintView::required(
            prev.bottom_view(),
            Relation::Equal,
            next.bottom_view(),
        ),
        (Orientation::Horizontal, AlignmentAnchor::Start) => ConstraintView::required(
            ExpressionView::of(prev.x),
            Relation::Equal,
            ExpressionView::of(next.x),
        ),
        (Orientation::Horizontal, AlignmentAnchor::Middle) => ConstraintView::required(
            ExpressionView::of_two(2, prev.x, 1, prev.width, 0),
            Relation::Equal,
            ExpressionView::of_two(2, next.x, 1, next.width, 0),
        ),
        (Orientation::Horizontal, AlignmentAnchor::End) => ConstraintView::required(
            prev.right_view(),
            Relation::Equal,
            next.right_view(),
        ),
    }
}

/// How many neighbours there are among `n` blocks in a row.
pub open spec fn neighbours(n: nat) -> nat {
    if n == 0 {
        0
    } else {
        (n - 1) as nat
    }
}

/// One constraint for each two neighbours among the blocks `ids`: the spacing of the one and
/// the next.
pub open spec fn distribution(
    blocks: Seq<Block>,
    ids: Seq<BlockId>,
    orientation: Orientation,
    gutter: u32,
) -> Seq<ConstraintView> {
    Seq::new(
        neighbours(ids.len()),
        |k: int| spacing(orientation, gutter, blocks[ids[k] as int], blocks[ids[k + 1] as int]),
    )
}

/// One constraint for each two neighbours among the blocks `ids`: the alignment of the one and
/// the next.
pub open spec fn alignments(
    blocks: Seq<Block>,
    ids: Seq<BlockId>,
    orientation: Orientation,
    anchor: AlignmentAnchor,
) -> Seq<ConstraintView> {
    Seq::new(
        neighbours(ids.len()),
        |k: int| alignment(orientation, anchor, blocks[ids[k] as int], blocks[ids[k + 1] as int]),
    )
}

impl LayoutView {
    /// The layout with one more block, whose variables are new: they are not negative, and the
    /// block ends before the right and the bottom edge.
    pub open spec fn with_block(self, line_height: u32) -> LayoutView {
        let block = fresh_block(self.vars.len() as int, line_height);
        LayoutView {
            vars: self.vars + block_vars(self.blocks.len() as usize),
            blocks: self.blocks.push(block),
            constraints: self.constraints + block.floor() + block.bounds(
                self.right_var,
                self.bottom_var,
            ),
            ..self
        }
    }

    /// The layout with one more block, for the text `lines` set at `pixel_size` with `padding`
    /// above and below it: the block is as wide as the widest line, and as high as all lines
    /// and the padding twice, as far as a strong wish goes.
    pub open spec fn with_text_block(self, lines: Seq<Seq<char>>, padding: u32, pixel_size: u16) -> LayoutView {
        let line_height = self.font.line_height(pixel_size) as u32;
        let block = fresh_block(self.vars.len() as int, line_height);
        let size = self.text_size(lines, padding, pixel_size);
        self.with_block(line_height).with_constraints(pins(block, size.0, size.1))
    }

    /// The size that a block for the text `lines` is wished to have: the width of the widest
    /// line, set at `pixel_size`, and the height of all lines with `padding` above and below.
    pub open spec fn text_size(self, lines: Seq<Seq<char>>, padding: u32, pixel_size: u16) -> (
        Length,
        Length,
    ) {
        (
            self.font.widest(lines, pixel_size) as Length,
            (lines.len() * (self.font.line_height(pixel_size) as u32) + 2 * padding) as Length,
        )
    }

    /// Block `id` is `block`, a block for the text `lines`: its line height is that of the font
    /// at `pixel_size`, and two pending constraints wish it the size of the text.
    pub open spec fn holds_text(
        self,
        id: BlockId,
        block: Block,
        lines: Seq<Seq<char>>,
        padding: u32,
        pixel_size: u16,
    ) -> bool {
        let size = self.text_size(lines, padding, pixel_size);
        &&& self.holds(id, block)
        &&& block.line_height == self.font.line_height(pixel_size)
        &&& self.has(pins(block, size.0, size.1)[0])
        &&& self.has(pins(block, size.0, size.1)[1])
    }

    /// Block `id` is `block`.
    pub open spec fn holds(self, id: BlockId, block: Block) -> bool {
        id < self.blocks.len() && self.blocks[id as int] == block
    }

    /// The layout with one more pending constraint.
    pub open spec fn with_constraint(self, c: ConstraintView) -> LayoutView {
        LayoutView { constraints: self.constraints.push(c), ..self }
    }

    /// The layout with more pending constraints.
    pub open spec fn with_constraints(self, more: Seq<ConstraintView>) -> LayoutView {
        LayoutView { constraints: self.constraints + more, ..self }
    }

    /// The layout with the value of `change` stored where its variable belongs; a negative
    /// value is stored as 0, and a variable that stands for nothing in the layout is passed over.
    pub open spec fn store(self, change: Change) -> LayoutView {
        let value = if change.value < 0 {
            0
        } else {
            change.value
        };
        if change.variable < self.vars.len() {
            match self.vars[change.variable as int] {
                VariableId::LayoutRight => LayoutView { right: value, ..self },
                VariableId::LayoutBottom => LayoutView { bottom: value, ..self },
                VariableId::BlockVar(i, field) => if i < self.blocks.len() {
                    LayoutView {
                        blocks: self.blocks.update(i as int, self.blocks[i as int].with(field, value)),
                        ..self
                    }
                } else {
                    self
                },
            }
        } else {
            self
        }
    }

    /// The layout with all of `changes` stored, one after the other.
    pub open spec fn store_all(self, changes: Seq<Change>) -> LayoutView
        decreases changes.len(),
    {
        if changes.len() == 0 {
            self
        } else {
            self.store_all(changes.drop_last()).store(changes.last())
        }
    }

    /// The layout once solved: the values that the solver found are stored, and no constraint
    /// is pending.
    pub open spec fn solved(self, changes: Seq<Change>) -> LayoutView {
        LayoutView { constraints: Seq::empty(), ..self.store_all(changes) }
    }

    /// The solved value of variable `v`; 0 where it stands for nothing in the layout.
    pub open spec fn solved_value(self, v: Variable) -> Length {
        if v < self.vars.len() {
            match self.vars[v as int] {
                VariableId::LayoutRight => self.right,
                VariableId::LayoutBottom => self.bottom,
                VariableId::BlockVar(i, field) => if i < self.blocks.len() {
                    self.blocks[i as int].solved(field)
                } else {
                    0
                },
            }
        } else {
            0
        }
    }

    /// The solved values, as an assignment to the variables.
    pub open spec fn reading(self) -> spec_fn(Variable) -> real {
        |v: Variable| self.solved_value(v) as real
    }
}

/// A layout with one more block is well formed, confines its blocks if it did, and has grown.
proof fn lemma_with_block(before: LayoutView, line_height: u32)
    requires
        before.wf(),
        before.vars.len() + 4 <= usize::MAX,
        before.blocks.len() < usize::MAX,
    ensures
        before.with_block(line_height).wf(),
        before.confines_all() ==> before.with_block(line_height).confines_all(),
        before.with_block(line_height).confines(before.blocks.len() as int),
        before.grows_to(before.with_block(line_height)),
{
    let after = before.with_block(line_height);
    let id = before.blocks.len() as int;
    let block = fresh_block(before.vars.len() as int, line_height);
    let n = before.constraints.len() as int;
    assert forall|c: ConstraintView| before.has(c) implies after.has(c) by {
        let k = choose|k: int| 0 <= k < before.constraints.len() && before.constraints[k] == c;
        assert(after.constraints[k] == c);
    }
    assert forall|i: int| 0 <= i < after.blocks.len() implies #[trigger] after.owns(i) by {
        if i < id {
            assert(before.owns(i));
        }
    }
    assert forall|k: int| 0 <= k < 4 implies after.has(#[trigger] block.floor()[k]) by {
        assert(after.constraints[n + k] == block.floor()[k]);
    }
    assert forall|k: int| 0 <= k < 2 implies after.has(
        #[trigger] block.bounds(after.right_var, after.bottom_var)[k],
    ) by {
        assert(after.constraints[n + 4 + k] == block.bounds(
            after.right_var,
            after.bottom_var,
        )[k]);
    }
    assert(after.confines(id));
    if before.confines_all() {
        assert forall|i: int| 0 <= i < after.blocks.len() implies #[trigger] after.confines(
            i,
        ) by {
            if i < id {
                assert(before.confines(i));
                assert(after.blocks[i] == before.blocks[i]);
            }
        }
    }
}

/// What has grown twice has grown.
pub proof fn lemma_grows_on(first: LayoutView, second: LayoutView, third: LayoutView)
    requires
        first.grows_to(second),
        second.grows_to(third),
    ensures
        first.grows_to(third),
{
    assert forall|c: ConstraintView| first.has(c) implies #[trigger] third.has(c) by {
        assert(second.has(c));
    }
}

/// Storing a value keeps the layout well formed and changes no variable and no constraint.
proof fn lemma_store(before: LayoutView, change: Change)
    requires
        before.wf(),
    ensures
        before.store(change).wf(),
        before.store(change).vars == before.vars,
        before.store(change).constraints == before.constraints,
        before.store(change).blocks.len() == before.blocks.len(),
        forall|i: int|
            0 <= i < before.blocks.len() ==> same_variables(
                #[trigger] before.store(change).blocks[i],
                before.blocks[i],
            ),
        before.store(change).right_var == before.right_var,
        before.store(change).bottom_var == before.bottom_var,
{
    let after = before.store(change);
    assert forall|i: int| 0 <= i < after.blocks.len() implies #[trigger] after.owns(i) by {
        assert(before.owns(i));
    }
    assert forall|i: int| 0 <= i < after.blocks.len() implies (
    #[trigger] after.blocks[i]).solved_not_negative() by {
        assert(before.blocks[i].solved_not_negative());
    }
}

/// The two blocks have the same four variables.
pub open spec fn same_variables(a: Block, b: Block) -> bool {
    a.x == b.x && a.y == b.y && a.width == b.width && a.height == b.height
}

/// Storing values keeps the layout well formed and changes no variable and no constraint.
pub proof fn lemma_store_all(before: LayoutView, changes: Seq<Change>)
    requires
        before.wf(),
    ensures
        before.store_all(changes).wf(),
        before.store_all(changes).vars == before.vars,
        before.store_all(changes).constraints == before.constraints,
        before.store_all(changes).blocks.len() == before.blocks.len(),
        forall|i: int|
            0 <= i < before.blocks.len() ==> same_variables(
                #[trigger] before.store_all(changes).blocks[i],
                before.blocks[i],
            ),
        before.store_all(changes).right_var == before.right_var,
        before.store_all(changes).bottom_var == before.bottom_var,
    decreases changes.len(),
{
    if changes.len() > 0 {
        lemma_store_all(before, changes.drop_last());
        lemma_store(before.store_all(changes.drop_last()), changes.last());
    }
}

/// The two constraints that keep `block` before the edges `right` and `bottom` hold under
/// `values`.
pub open spec fn bounded_under(
    block: Block,
    right: Variable,
    bottom: Variable,
    values: spec_fn(Variable) -> real,
) -> bool {
    block.bounds(right, bottom)[0].holds(values) && block.bounds(right, bottom)[1].holds(values)
}

/// The four constraints that keep the variables of `block` from being negative hold under
/// `values`.
pub open spec fn floored_under(block: Block, values: spec_fn(Variable) -> real) -> bool {
    &&& block.floor()[0].holds(values)
    &&& block.floor()[1].holds(values)
    &&& block.floor()[2].holds(values)
    &&& block.floor()[3].holds(values)
}

/// Under every assignment that meets the six constraints with which a block is added, the
/// block lies in the quadrant of the origin, has no negative extent, and ends before the right
/// and the bottom edge. Nothing is asked of any other constraint.
pub proof fn law_block_confined(
    block: Block,
    right: Variable,
    bottom: Variable,
    values: spec_fn(Variable) -> real,
)
    requires
        floored_under(block, values),
        bounded_under(block, right, bottom, values),
    ensures
        values(block.x) >= 0real,
        values(block.y) >= 0real,
        values(block.width) >= 0real,
        values(block.height) >= 0real,
        values(block.x) + values(block.width) <= values(right),
        values(block.y) + values(block.height) <= values(bottom),
{
    lemma_value_of_fixed(0, values);
    lemma_value_of_one(1, block.x, 0, values);
    lemma_value_of_one(1, block.y, 0, values);
    lemma_value_of_one(1, block.width, 0, values);
    lemma_value_of_one(1, block.height, 0, values);
    lemma_value_of_one(1, right, 0, values);
    lemma_value_of_one(1, bottom, 0, values);
    lemma_value_of_two(1, block.x, 1, block.width, 0, values);
    lemma_value_of_two(1, block.y, 1, block.height, 0, values);
}

/// An assignment that meets the required constraints pending in a layout meets the six
/// constraints of every block that these constraints confine.
pub proof fn lemma_confined_when_met(layout: LayoutView, values: spec_fn(Variable) -> real, i: int)
    requires
        0 <= i < layout.blocks.len(),
        layout.confines(i),
        satisfies(layout.constraints, values),
    ensures
        floored_under(layout.blocks[i], values),
        bounded_under(layout.blocks[i], layout.right_var, layout.bottom_var, values),
{
    let block = layout.blocks[i];
    lemma_required_holds(layout, values, block.floor()[0]);
    lemma_required_holds(layout, values, block.floor()[1]);
    lemma_required_holds(layout, values, block.floor()[2]);
    lemma_required_holds(layout, values, block.floor()[3]);
    lemma_required_holds(layout, values, block.bounds(layout.right_var, layout.bottom_var)[0]);
    lemma_required_holds(layout, values, block.bounds(layout.right_var, layout.bottom_var)[1]);
}

/// A required constraint that is pending holds under every assignment that meets the pending
/// constraints.
pub proof fn lemma_required_holds(
    layout: LayoutView,
    values: spec_fn(Variable) -> real,
    c: ConstraintView,
)
    requires
        layout.has(c),
        c.strength == Strength::Required,
        satisfies(layout.constraints, values),
    ensures
        c.holds(values),
{
    let k = choose|k: int| 0 <= k < layout.constraints.len() && layout.constraints[k] == c;
    assert(layout.constraints[k].holds(values));
}

/// The solved values of the four variables of a block, read as an assignment, are the solved
/// values that the block holds.
pub proof fn lemma_reading(l: LayoutView, i: int)
    requires
        l.wf(),
        0 <= i < l.blocks.len(),
    ensures
        l.reading()(l.blocks[i].x) == l.blocks[i].x_ as real,
        l.reading()(l.blocks[i].y) == l.blocks[i].y_ as real,
        l.reading()(l.blocks[i].width) == l.blocks[i].width_ as real,
        l.reading()(l.blocks[i].height) == l.blocks[i].height_ as real,
        l.reading()(l.right_var) == l.right as real,
        l.reading()(l.bottom_var) == l.bottom as real,
{
    assert(l.owns(i));
}

/// After solving, no block has a negative solved value, whatever the solver found; and a block
/// ends before the solved right and bottom edge of the layout if the solved values meet the two
/// constraints that say so of this block. Nothing is asked of any other constraint.
pub proof fn law_solved_block_confined(before: LayoutView, changes: Seq<Change>, i: int)
    requires
        before.wf(),
        0 <= i < before.blocks.len(),
    ensures
        before.solved(changes).blocks[i].solved_not_negative(),
        bounded_under(
            before.blocks[i],
            before.right_var,
            before.bottom_var,
            before.solved(changes).reading(),
        ) ==> {
            let after = before.solved(changes);
            &&& after.blocks[i].x_ + after.blocks[i].width_ <= after.right
            &&& after.blocks[i].y_ + after.blocks[i].height_ <= after.bottom
        },
{
    let after = before.solved(changes);
    let values = after.reading();
    lemma_store_all(before, changes);
    assert(before.store_all(changes).blocks[i].solved_not_negative());
    assert(same_variables(before.store_all(changes).blocks[i], before.blocks[i]));
    let block = before.blocks[i];
    if bounded_under(block, before.right_var, before.bottom_var, values) {
        lemma_solved_wf(before, changes);
        lemma_reading(after, i);
        lemma_value_of_one(1, before.right_var, 0, values);
        lemma_value_of_one(1, before.bottom_var, 0, values);
        lemma_value_of_two(1, block.x, 1, block.width, 0, values);
        lemma_value_of_two(1, block.y, 1, block.height, 0, values);
    }
}

/// A solved layout is well formed and has the variables and the blocks' variables of the layout
/// that was solved.
pub proof fn lemma_solved_wf(before: LayoutView, changes: Seq<Change>)
    requires
        before.wf(),
    ensures
        before.solved(changes).wf(),
        before.solved(changes).vars == before.vars,
        before.solved(changes).blocks.len() == before.blocks.len(),
        forall|i: int|
            0 <= i < before.blocks.len() ==> same_variables(
                #[trigger] before.solved(changes).blocks[i],
                before.blocks[i],
            ),
        before.solved(changes).right_var == before.right_var,
        before.solved(changes).bottom_var == before.bottom_var,
{
    lemma_store_all(before, changes);
    let stored = before.store_all(changes);
    let after = before.solved(changes);
    assert forall|i: int| 0 <= i < after.blocks.len() implies #[trigger] after.owns(i) by {
        assert(stored.owns(i));
    }
}

impl Layout {
    /// An empty layout that measures text with `font`: no block, no constraint, and the two
    /// edge variables.
    pub fn new(font: FontMetrics) -> (layout: Layout)
        requires
            font@.wf(),
        ensures
            layout@ == LayoutView::empty(font@),
            layout@.wf(),
            layout@.confines_all(),
    {
        let mut vars: Vec<VariableId> = Vec::new();
        vars.push(VariableId::LayoutRight);
        vars.push(VariableId::LayoutBottom);
        let glyphs_height = font.line_height_at(GLYPH_SIZE);
        let layout = Layout {
            vars,
            blocks: Vec::new(),
            constraints_accu: Vec::new(),
            right_var: 0,
            bottom_var: 1,
            right_: 0,
            bottom_: 0,
            font,
            glyphs_height,
        };
        assert(layout@.vars == seq![VariableId::LayoutRight, VariableId::LayoutBottom]);
        assert(layout@.constraints == Seq::<ConstraintView>::empty());
        layout
    }

    /// A new variable that stands for one of the four fields of block `block_id`.
    pub fn add_var(&mut self, block_id: BlockId, block_var: BlockVariable) -> (v: Variable)
        requires
            old(self)@.wf(),
            block_id <= old(self)@.blocks.len(),
        ensures
            final(self)@ == (LayoutView {
                vars: old(self)@.vars.push(VariableId::BlockVar(block_id, block_var)),
                ..old(self)@
            }),
            v == old(self)@.vars.len(),
            final(self)@.wf(),
    {
        let v = self.vars.len();
        self.vars.push(VariableId::BlockVar(block_id, block_var));
        proof {
            assert(self.vars.len() == self.vars@.len());
            assert forall|i: int| 0 <= i < self@.blocks.len() implies #[trigger] self@.owns(i) by {
                assert(old(self)@.owns(i));
            }
        }
        v
    }

    /// Adds a constraint to the pending ones.
    pub fn add_constraint(&mut self, constraint: Constraint)
        ensures
            final(self)@ == old(self)@.with_constraint(constraint@),
            old(self)@.wf() ==> final(self)@.wf(),
            old(self)@.confines_all() ==> final(self)@.confines_all(),
            old(self)@.grows_to(final(self)@),
            final(self)@.has(constraint@),
    {
        self.constraints_accu.push(constraint);
        assert(constraints_view(self.constraints_accu@) == constraints_view(
            old(self).constraints_accu@,
        ).push(constraint@));
        proof {
            lemma_more_constraints(old(self)@, self@);
            assert(self@.constraints[old(self)@.constraints.len() as int] == constraint@);
        }
    }

    /// Block `id`.
    pub fn b(&self, id: BlockId) -> (block: &Block)
        requires
            id < self@.blocks.len(),
        ensures
            *block == self@.blocks[id as int],
    {
        &self.blocks[id]
    }

    /// The height of a line of text at `GLYPH_SIZE`.
    pub fn glyphs_height(&self) -> (height: u32)
        ensures
            height == self@.glyphs_height,
    {
        self.glyphs_height
    }

    /// The number of blocks.
    pub fn block_count(&self) -> (n: usize)
        ensures
            n == self@.blocks.len(),
    {
        self.blocks.len()
    }

    /// The solved width of the whole: where its right edge lies.
    pub fn width(&self) -> (w: Length)
        ensures
            w == self@.right,
    {
        self.right_
    }

    /// The solved height of the whole: where its bottom edge lies.
    pub fn height(&self) -> (h: Length)
        ensures
            h == self@.bottom,
    {
        self.bottom_
    }

    /// The pending constraints, for a solver.
    pub fn constraints(&self) -> (pending: &Vec<Constraint>)
        ensures
            constraints_view(pending@) == self@.constraints,
    {
        &self.constraints_accu
    }

    /// The number of variables; the variables are the numbers below it.
    pub fn variable_count(&self) -> (n: usize)
        ensures
            n == self@.vars.len(),
    {
        self.vars.len()
    }
    /// Adds a free block: four new variables, none of them negative, and the right and bottom
    /// edge of the layout behind the block.
    pub fn add_block(&mut self) -> (id: BlockId)
        requires
            old(self)@.wf(),
        ensures
            id == old(self)@.blocks.len(),
            final(self)@ == old(self)@.with_block(0),
            final(self)@.wf(),
            final(self)@.confines(id as int),
            old(self)@.confines_all() ==> final(self)@.confines_all(),
            old(self)@.grows_to(final(self)@),
            id < final(self)@.blocks.len(),
    {
        self.add_block_for_lines(0)
    }

    fn add_block_for_lines(&mut self, line_height: u32) -> (id: BlockId)
        requires
            old(self)@.wf(),
        ensures
            id == old(self)@.blocks.len(),
            final(self)@ == old(self)@.with_block(line_height),
            final(self)@.wf(),
            final(self)@.confines(id as int),
            old(self)@.confines_all() ==> final(self)@.confines_all(),
            old(self)@.grows_to(final(self)@),
    {
        let id = self.blocks.len();
        let mut block = Block::new(self, id);
        block.line_height = line_height;
        let right = Constraint::required(
            Expression::variable(self.right_var),
            Relation::GreaterOrEqual,
            block.right(),
        );
        self.add_constraint(right);
        let bottom = Constraint::required(
            Expression::variable(self.bottom_var),
            Relation::GreaterOrEqual,
            block.bottom(),
        );
        self.add_constraint(bottom);
        self.blocks.push(block);
        proof {
            assert(self.blocks.len() == self.blocks@.len());
            assert(self.vars.len() == self.vars@.len());
            assert(block == fresh_block(old(self)@.vars.len() as int, line_height));
            assert(self@.vars == old(self)@.with_block(line_height).vars);
            assert(self@.constraints == old(self)@.with_block(line_height).constraints);
            lemma_with_block(old(self)@, line_height);
        }
        id
    }

    /// Adds a block for the text `lines`, set at `pixel_size` with `padding` above and below.
    ///
    /// The block is added as a free block is. Two strong wishes pin its size: its width to that
    /// of the widest line, its height to that of all lines plus the padding above and below.
    pub fn add_lines_block(&mut self, lines: &Vec<String>, padding: u32, pixel_size: u16) -> (id:
        BlockId)
        requires
            old(self)@.wf(),
        ensures
            id == old(self)@.blocks.len(),
            final(self)@ == old(self)@.with_text_block(lines_text(lines@), padding, pixel_size),
            final(self)@.wf(),
            final(self)@.confines(id as int),
            old(self)@.confines_all() ==> final(self)@.confines_all(),
            old(self)@.grows_to(final(self)@),
            final(self)@.holds_text(
                id,
                final(self)@.blocks[id as int],
                lines_text(lines@),
                padding,
                pixel_size,
            ),
    {
        let ghost texts = lines_text(lines@);
        let line_height = self.font.line_height_at(pixel_size);
        let mut widest: Length = 0;
        let mut i: usize = 0;
        while i < lines.len()
            invariant
                i <= lines.len(),
                self.font@.wf(),
                texts == lines_text(lines@),
                widest == self.font@.widest(texts.take(i as int), pixel_size),
                0 <= widest <= MAX_TEXT_WIDTH,
            decreases lines.len() - i,
        {
            assert(texts.take(i + 1).drop_last() == texts.take(i as int));
            let width = self.font.text_width_at(lines[i].as_str(), pixel_size);
            if width > widest {
                widest = width;
            }
            i += 1;
        }
        assert(texts.take(lines@.len() as int) == texts);
        assert(lines.len() * line_height <= 0x1_0000_0000_0000_0000 * 0x1_0000_0000)
            by (nonlinear_arith)
            requires
                0 <= lines.len() <= 0x1_0000_0000_0000_0000,
                0 <= line_height <= 0x1_0000_0000,
        ;
        let height: Length = (lines.len() as i128) * (line_height as i128) + 2 * (padding as i128);
        let id = self.add_block_for_lines(line_height);
        let ghost with_block = self@;
        let block = self.blocks[id];
        self.add_constraint(
            Constraint::strong(Expression::variable(block.width), Expression::constant(widest)),
        );
        self.add_constraint(
            Constraint::strong(Expression::variable(block.height), Expression::constant(height)),
        );
        proof {
            assert(self@.constraints == with_block.constraints + pins(block, widest, height));
            lemma_more_constraints(with_block, self@);
            lemma_grows_on(old(self)@, with_block, self@);
            assert(self@.confines(id as int)) by {
                assert(with_block.confines(id as int));
            }
        }
        id
    }

    /// Adds a block for `content`, broken into lines of at most `max_length` columns and set at
    /// `pixel_size` with `padding` above and below.
    ///
    /// The text is broken into lines, and the block is added for them as `add_lines_block` adds
    /// it. The lines are returned for drawing.
    pub fn add_text_block(
        &mut self,
        content: &String,
        max_length: usize,
        padding: u32,
        pixel_size: u16,
    ) -> (added: (BlockId, Vec<String>))
        requires
            old(self)@.wf(),
        ensures
            added.0 == old(self)@.blocks.len(),
            lines_text(added.1@) == wrapped(content@, max_length),
            final(self)@ == old(self)@.with_text_block(
                wrapped(content@, max_length),
                padding,
                pixel_size,
            ),
            final(self)@.wf(),
            final(self)@.confines(added.0 as int),
            old(self)@.confines_all() ==> final(self)@.confines_all(),
            old(self)@.grows_to(final(self)@),
            final(self)@.holds_text(
                added.0,
                final(self)@.blocks[added.0 as int],
                wrapped(content@, max_length),
                padding,
                pixel_size,
            ),
    {
        let lines = wrap(content.as_str(), max_length);
        let id = self.add_lines_block(&lines, padding, pixel_size);
        (id, lines)
    }

    /// Puts the blocks `block_ids` one behind the other, downwards or across: each begins at
    /// least `gutter` behind the end of the one before it.
    pub fn distribute(&mut self, orientation: Orientation, gutter: u32, block_ids: &Vec<BlockId>)
        requires
            old(self)@.wf(),
            forall|k: int| 0 <= k < block_ids@.len() ==> block_ids@[k] < old(self)@.blocks.len(),
        ensures
            final(self)@ == old(self)@.with_constraints(
                distribution(old(self)@.blocks, block_ids@, orientation, gutter),
            ),
            final(self)@.wf(),
            old(self)@.confines_all() ==> final(self)@.confines_all(),
            old(self)@.grows_to(final(self)@),
    {
        let ghost all = distribution(self@.blocks, block_ids@, orientation, gutter);
        let mut k: usize = 1;
        assert(self@.constraints == old(self)@.constraints + all.take(0));
        while k < block_ids.len()
            invariant
                1 <= k,
                k <= block_ids.len() || k == 1,
                all == distribution(old(self)@.blocks, block_ids@, orientation, gutter),
                forall|j: int| 0 <= j < block_ids@.len() ==> block_ids@[j] < old(self)@.blocks.len(),
                self@ == old(self)@.with_constraints(all.take(k - 1)),
            decreases block_ids.len() - k,
        {
            let prev = self.blocks[block_ids[k - 1]];
            let next = self.blocks[block_ids[k]];
            let constraint = match orientation {
                Orientation::Vertical => Constraint::required(
                    Expression::two(1, prev.y, 1, prev.height, gutter as i128),
                    Relation::LessOrEqual,
                    Expression::variable(next.y),
                ),
                Orientation::Horizontal => Constraint::required(
                    Expression::two(1, prev.x, 1, prev.width, gutter as i128),
                    Relation::LessOrEqual,
                    Expression::variable(next.x),
                ),
            };
            assert(constraint@ == all[k - 1]);
            self.add_constraint(constraint);
            assert(all.take(k as int) == all.take(k - 1).push(all[k - 1]));
            assert(self@.constraints == old(self)@.constraints + all.take(k as int));
            k += 1;
        }
        proof {
            assert(all.take(k - 1) == all);
            lemma_more_constraints(old(self)@, self@);
        }
    }

    /// Lines the blocks `block_ids` up, downwards or across: each has its start, middle or end
    /// where the one before it has it.
    pub fn align(
        &mut self,
        orientation: Orientation,
        anchor: AlignmentAnchor,
        block_ids: &Vec<BlockId>,
    )
        requires
            old(self)@.wf(),
            forall|k: int| 0 <= k < block_ids@.len() ==> block_ids@[k] < old(self)@.blocks.len(),
        ensures
            final(self)@ == old(self)@.with_constraints(
                alignments(old(self)@.blocks, block_ids@, orientation, anchor),
            ),
            final(self)@.wf(),
            old(self)@.confines_all() ==> final(self)@.confines_all(),
            old(self)@.grows_to(final(self)@),
    {
        let ghost all = alignments(self@.blocks, block_ids@, orientation, anchor);
        let mut k: usize = 1;
        assert(self@.constraints == old(self)@.constraints + all.take(0));
        while k < block_ids.len()
            invariant
                1 <= k,
                k <= block_ids.len() || k == 1,
                all == alignments(old(self)@.blocks, block_ids@, orientation, anchor),
                forall|j: int| 0 <= j < block_ids@.len() ==> block_ids@[j] < old(self)@.blocks.len(),
                self@ == old(self)@.with_constraints(all.take(k - 1)),
            decreases block_ids.len() - k,
        {
            let prev = self.blocks[block_ids[k - 1]];
            let next = self.blocks[block_ids[k]];
            let constraint = match orientation {
                Orientation::Vertical => match anchor {
                    AlignmentAnchor::Start => Constraint::required(
                        Expression::variable(prev.y),
                        Relation::Equal,
                        Expression::variable(next.y),
                    ),
                    AlignmentAnchor::Middle => Constraint::required(
                        Expression::two(2, prev.y, 1, prev.height, 0),
                        Relation::Equal,
                        Expression::two(2, next.y, 1, next.height, 0),
                    ),
                    AlignmentAnchor::End => Constraint::required(
                        prev.bottom(),
                        Relation::Equal,
                        next.bottom(),
                    ),
                },
                Orientation::Horizontal => match anchor {
                    AlignmentAnchor::Start => Constraint::required(
                        Expression::variable(prev.x),
                        Relation::Equal,
                        Expression::variable(next.x),
                    ),
                    AlignmentAnchor::Middle => Constraint::required(
                        Expression::two(2, prev.x, 1, prev.width, 0),
                        Relation::Equal,
                        Expression::two(2, next.x, 1, next.width, 0),
                    ),
                    AlignmentAnchor::End => Constraint::required(
                        prev.right(),
                        Relation::Equal,
                        next.right(),
                    ),
                },
            };
            assert(constraint@ == all[k - 1]);
            self.add_constraint(constraint);
            assert(all.take(k as int) == all.take(k - 1).push(all[k - 1]));
            assert(self@.constraints == old(self)@.constraints + all.take(k as int));
            k += 1;
        }
        proof {
            assert(all.take(k - 1) == all);
            lemma_more_constraints(old(self)@, self@);
        }
    }

    /// Takes the values that a solver found for the pending constraints: each is stored where
    /// its variable belongs, a negative one as 0, and no constraint is pending any more.
    pub fn solve(&mut self, changes: &Vec<Change>)
        requires
            old(self)@.wf(),
        ensures
            final(self)@ == old(self)@.solved(changes@),
            final(self)@.wf(),
    {
        let mut k: usize = 0;
        while k < changes.len()
            invariant
                k <= changes.len(),
                self@ == old(self)@.store_all(changes@.take(k as int)),
                self@.wf(),
            decreases changes.len() - k,
        {
            let ghost before = self@;
            let change = changes[k];
            proof {
                assert(changes@.take(k + 1).drop_last() == changes@.take(k as int));
                lemma_store(before, change);
            }
            let value: Length = if change.value < 0 {
                0
            } else {
                change.value
            };
            if change.variable < self.vars.len() {
                match self.vars[change.variable] {
                    VariableId::LayoutRight => {
                        self.right_ = value;
                    },
                    VariableId::LayoutBottom => {
                        self.bottom_ = value;
                    },
                    VariableId::BlockVar(i, field) => {
                        if i < self.blocks.len() {
                            let mut block = self.blocks[i];
                            match field {
                                BlockVariable::X => {
                                    block.x_ = value;
                                },
                                BlockVariable::Y => {
                                    block.y_ = value;
                                },
                                BlockVariable::Width => {
                                    block.width_ = value;
                                },
                                BlockVariable::Height => {
                                    block.height_ = value;
                                },
                            }
                            self.blocks.set(i, block);
                        }
                    },
                }
            }
            assert(self@ == before.store(change));
            k += 1;
        }
        assert(changes@.take(changes@.len() as int) == changes@);
        let ghost stored = self@;
        self.constraints_accu = Vec::new();
        assert(self@.constraints == Seq::<ConstraintView>::empty());
        proof {
            assert forall|i: int| 0 <= i < self@.blocks.len() implies #[trigger] self@.owns(
                i,
            ) by {
                assert(stored.owns(i));
            }
        }
    }
    fn has_own_blocks(&self) -> (yes: bool)
        ensures
            yes == ((forall|i: int| 0 <= i < self@.blocks.len() ==> #[trigger] self@.owns(i))
                && (forall|i: int|
                0 <= i < self@.blocks.len() ==> (
                #[trigger] self@.blocks[i]).solved_not_negative())),
    {
        let mut i: usize = 0;
        while i < self.blocks.len()
            invariant
                i <= self.blocks.len(),
                forall|k: int| 0 <= k < i ==> #[trigger] self@.owns(k),
                forall|k: int| 0 <= k < i ==> (#[trigger] self@.blocks[k]).solved_not_negative(),
            decreases self.blocks.len() - i,
        {
            let block = self.blocks[i];
            let owned = block.x < self.vars.len() && self.vars[block.x] == VariableId::BlockVar(
                i,
                BlockVariable::X,
            ) && block.y < self.vars.len() && self.vars[block.y] == VariableId::BlockVar(
                i,
                BlockVariable::Y,
            ) && block.width < self.vars.len() && self.vars[block.width]
                == VariableId::BlockVar(i, BlockVariable::Width) && block.height
                < self.vars.len() && self.vars[block.height] == VariableId::BlockVar(
                i,
                BlockVariable::Height,
            );
            if !owned {
                assert(!self@.owns(i as int));
                return false;
            }
            if block.x_ < 0 || block.y_ < 0 || block.width_ < 0 || block.height_ < 0 {
                assert(!self@.blocks[i as int].solved_not_negative());
                return false;
            }
            i += 1;
        }
        true
    }

    fn has_no_stray_variable(&self) -> (yes: bool)
        ensures
            yes == (forall|v: int|
                0 <= v < self@.vars.len() ==> (#[trigger] self@.vars[v] matches VariableId::BlockVar(
                    i,
                    _,
                ) ==> i <= self@.blocks.len())),
    {
        let mut v: usize = 0;
        while v < self.vars.len()
            invariant
                v <= self.vars.len(),
                forall|k: int|
                    0 <= k < v ==> (#[trigger] self@.vars[k] matches VariableId::BlockVar(i, _)
                        ==> i <= self@.blocks.len()),
            decreases self.vars.len() - v,
        {
            match self.vars[v] {
                VariableId::BlockVar(i, _) => {
                    if i > self.blocks.len() {
                        assert(self@.vars[v as int] matches VariableId::BlockVar(i, _) && i
                            > self@.blocks.len());
                        return false;
                    }
                },
                _ => {},
            }
            v += 1;
        }
        true
    }

    /// Tells whether the layout is well formed. A layout that was made by `new` and changed
    /// through the functions of this type, each called as it asks to be called, always is.
    pub fn is_well_formed(&self) -> (yes: bool)
        ensures
            yes == self@.wf(),
    {
        assert(self.vars.len() == self.vars@.len());
        assert(self.blocks.len() == self.blocks@.len());
        if !self.font.is_valid() {
            return false;
        }
        self.glyphs_height == self.font.line_height_at(GLYPH_SIZE) && self.right_var
            < self.vars.len() && self.vars[self.right_var] == VariableId::LayoutRight
            && self.bottom_var < self.vars.len() && self.vars[self.bottom_var]
            == VariableId::LayoutBottom && self.right_ >= 0 && self.bottom_ >= 0
            && self.has_own_blocks() && self.has_no_stray_variable()
    }
}

} // verus!
