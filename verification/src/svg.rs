//! From a solved scene to a drawing: for every element a group of shapes, moved to where the
//! block of the element lies.
//!
//! The drawing is a tree of plain values. The groups come in the order in which they are to
//! be painted, from the back to the front: heads, footers, lifelines, activations, arrows,
//! notes. What goes in front of them, the style of the font and the two arrow tips, is the
//! same for every drawing and named by the constants below.

use crate::diagram::{ArrowDirection, SequenceDiagramView};
use crate::layout::{Block, Change, Layout};
use crate::metrics::{lines_text, FontMetricsView, Length};
use crate::scene::{
    activation_ids, arrow_ids, lifeline_ids, marker_ids, note_ids, ActivationMarker, MsgArrow,
    NoteMarker, ParticipantLine, ParticipantMarker, Scene, SvgConfig,
};
use vstd::prelude::*;

verus! {

/// By how much the line of an arrow that points to the right ends before its block does, to
/// leave room for the tip.
pub const ARROW_TIP_LENGTH: Length = 10;

/// The id of the tip at the start of a line.
pub const START_ARROW: &'static str = "start-arrow";

/// The id of the tip at the end of a line.
pub const END_ARROW: &'static str = "end-arrow";

/// The corners of the tip at the start of a line.
pub const START_ARROW_POINTS: &'static str = "10 0, 10 7, 0 3.5";

/// The corners of the tip at the end of a line.
pub const END_ARROW_POINTS: &'static str = "0 0, 10 3.5, 0 7";

/// A colour.
#[derive(PartialEq, Eq, Structural, Debug, Clone, Copy)]
pub enum Paint {
    Transparent,
    Black,
    Blue,
    Gray,
    /// `#333`
    DarkGray,
    /// `#DDD`
    LightGray,
}

/// What a line ends in.
#[derive(PartialEq, Eq, Structural, Debug, Clone, Copy)]
pub enum Tip {
    /// A tip at its start.
    Start,
    /// A tip at its end.
    End,
}

/// A shape of a group; its coordinates count from the corner of the group.
#[derive(PartialEq, Debug)]
pub enum Shape {
    /// A rectangle that begins at the corner of the group; its corners are round where it has a
    /// corner radius.
    Rect { width: Length, height: Length, fill: Paint, stroke: Paint, corner_radius: Option<u32> },
    /// A black line.
    Line { x1: Length, y1: Length, x2: Length, y2: Length, tip: Option<Tip> },
    /// One line of blue text, its base line at `y`.
    Text { x: Length, y: Length, font_size: u16, content: String },
}

pub enum ShapeView {
    Rect { width: Length, height: Length, fill: Paint, stroke: Paint, corner_radius: Option<u32> },
    Line { x1: Length, y1: Length, x2: Length, y2: Length, tip: Option<Tip> },
    Text { x: Length, y: Length, font_size: u16, content: Seq<char> },
}

impl View for Shape {
    type V = ShapeView;

    open spec fn view(&self) -> ShapeView {
        match self {
            Shape::Rect { width, height, fill, stroke, corner_radius } => ShapeView::Rect {
                width: *width,
                height: *height,
                fill: *fill,
                stroke: *stroke,
                corner_radius: *corner_radius,
            },
            Shape::Line { x1, y1, x2, y2, tip } => ShapeView::Line {
                x1: *x1,
                y1: *y1,
                x2: *x2,
                y2: *y2,
                tip: *tip,
            },
            Shape::Text { x, y, font_size, content } => ShapeView::Text {
                x: *x,
                y: *y,
                font_size: *font_size,
                content: content@,
            },
        }
    }
}

/// The views of `shapes`, one by one.
pub open spec fn shapes_view(shapes: Seq<Shape>) -> Seq<ShapeView> {
    Seq::new(shapes.len(), |i: int| shapes[i]@)
}

/// Shapes with their corner at `(x, y)`.
#[derive(PartialEq, Debug)]
pub struct Group {
    pub x: Length,
    pub y: Length,
    pub shapes: Vec<Shape>,
}

pub struct GroupView {
    pub x: Length,
    pub y: Length,
    pub shapes: Seq<ShapeView>,
}

impl View for Group {
    type V = GroupView;

    open spec fn view(&self) -> GroupView {
        GroupView { x: self.x, y: self.y, shapes: shapes_view(self.shapes@) }
    }
}

/// The views of `groups`, one by one.
pub open spec fn groups_view(groups: Seq<Group>) -> Seq<GroupView> {
    Seq::new(groups.len(), |i: int| groups[i]@)
}

/// A drawing: its extent and its groups, from the back to the front.
#[derive(PartialEq, Debug)]
pub struct SvgDocument {
    pub width: Length,
    pub height: Length,
    pub groups: Vec<Group>,
}

pub struct SvgDocumentView {
    pub width: Length,
    pub height: Length,
    pub groups: Seq<GroupView>,
}

impl View for SvgDocument {
    type V = SvgDocumentView;

    open spec fn view(&self) -> SvgDocumentView {
        SvgDocumentView {
            width: self.width,
            height: self.height,
            groups: groups_view(self.groups@),
        }
    }
}

// ---------------------------------------------------------------------------------------------
// What is drawn
// ---------------------------------------------------------------------------------------------
/// Line `i` of a text that is set from the top: its base line is `i + 1` line heights below
/// the padding.
pub open spec fn row_from_top(line: Seq<char>, i: int, line_height: u32, c: SvgConfig) -> ShapeView {
    ShapeView::Text {
        x: c.padding as Length,
        y: (c.padding + (i + 1) * line_height) as Length,
        font_size: c.font_size,
        content: line,
    }
}

/// Line `i` of a label of `n` lines: the base line of the first lies `n` line heights below
/// the padding, and each further line one line height above the one before it.
pub open spec fn row_of_label(
    line: Seq<char>,
    i: int,
    n: int,
    line_height: u32,
    c: SvgConfig,
) -> ShapeView {
    ShapeView::Text {
        x: c.padding as Length,
        y: (c.padding + n * line_height - i * line_height) as Length,
        font_size: c.font_size,
        content: line,
    }
}

/// A box with text: a rectangle as large as the block, and the lines of the text from the top.
pub open spec fn box_group(block: Block, lines: Seq<Seq<char>>, fill: Paint, c: SvgConfig) -> GroupView {
    GroupView {
        x: block.x_,
        y: block.y_,
        shapes: seq![
            ShapeView::Rect {
                width: block.width_,
                height: block.height_,
                fill,
                stroke: Paint::Black,
                corner_radius: Some(c.corner_radius),
            },
        ] + Seq::new(lines.len(), |i: int| row_from_top(lines[i], i, block.line_height, c)),
    }
}

/// A lifeline: a line from the top of the block straight down to its bottom.
pub open spec fn lifeline_group(block: Block) -> GroupView {
    GroupView {
        x: block.x_,
        y: block.y_,
        shapes: seq![ShapeView::Line { x1: 0, y1: 0, x2: 0, y2: block.height_, tip: None }],
    }
}

/// An activation: a gray rectangle as large as the block, with a dark edge and sharp corners.
pub open spec fn activation_group(block: Block) -> GroupView {
    GroupView {
        x: block.x_,
        y: block.y_,
        shapes: seq![
            ShapeView::Rect {
                width: block.width_,
                height: block.height_,
                fill: Paint::Gray,
                stroke: Paint::DarkGray,
                corner_radius: None,
            },
        ],
    }
}

/// The line of an arrow, along the bottom of its block: one that points to the right ends
/// `ARROW_TIP_LENGTH` before the block does and has its tip at the end; one that points to the
/// left runs the whole width and has its tip at the start.
pub open spec fn arrow_line(block: Block, direction: ArrowDirection) -> ShapeView {
    match direction {
        ArrowDirection::ToRight => ShapeView::Line {
            x1: 0,
            y1: block.height_,
            x2: (block.width_ - ARROW_TIP_LENGTH) as Length,
            y2: block.height_,
            tip: Some(Tip::End),
        },
        ArrowDirection::ToLeft => ShapeView::Line {
            x1: 0,
            y1: block.height_,
            x2: block.width_,
            y2: block.height_,
            tip: Some(Tip::Start),
        },
    }
}

/// An arrow: its line and the lines of its label.
pub open spec fn arrow_group(
    block: Block,
    label: Seq<Seq<char>>,
    direction: ArrowDirection,
    c: SvgConfig,
) -> GroupView {
    GroupView {
        x: block.x_,
        y: block.y_,
        shapes: seq![arrow_line(block, direction)] + Seq::new(
            label.len(),
            |i: int| row_of_label(label[i], i, label.len() as int, block.line_height, c),
        ),
    }
}

impl Scene {
    /// The groups of the heads.
    pub open spec fn head_groups(self, c: SvgConfig) -> Seq<GroupView> {
        Seq::new(
            self.heads@.len(),
            |i: int|
                box_group(
                    self.layout@.blocks[self.heads@[i].block_id as int],
                    lines_text(self.heads@[i].lines@),
                    Paint::Transparent,
                    c,
                ),
        )
    }

    /// The groups of the footers.
    pub open spec fn footer_groups(self, c: SvgConfig) -> Seq<GroupView> {
        Seq::new(
            self.footers@.len(),
            |i: int|
                box_group(
                    self.layout@.blocks[self.footers@[i].block_id as int],
                    lines_text(self.footers@[i].lines@),
                    Paint::Transparent,
                    c,
                ),
        )
    }

    /// The groups of the lifelines.
    pub open spec fn lifeline_groups(self) -> Seq<GroupView> {
        Seq::new(
            self.lifelines@.len(),
            |i: int| lifeline_group(self.layout@.blocks[self.lifelines@[i].block as int]),
        )
    }

    /// The groups of the activations.
    pub open spec fn activation_groups(self) -> Seq<GroupView> {
        Seq::new(
            self.activations@.len(),
            |i: int| activation_group(self.layout@.blocks[self.activations@[i].block as int]),
        )
    }

    /// The groups of the arrows.
    pub open spec fn arrow_groups(self, c: SvgConfig) -> Seq<GroupView> {
        Seq::new(
            self.arrows@.len(),
            |i: int|
                arrow_group(
                    self.layout@.blocks[self.arrows@[i].block as int],
                    lines_text(self.arrows@[i].label@),
                    self.arrows@[i].direction,
                    c,
                ),
        )
    }

    /// The groups of the notes.
    pub open spec fn note_groups(self, c: SvgConfig) -> Seq<GroupView> {
        Seq::new(
            self.notes@.len(),
            |i: int|
                box_group(
                    self.layout@.blocks[self.notes@[i].block_id as int],
                    lines_text(self.notes@[i].lines@),
                    Paint::LightGray,
                    c,
                ),
        )
    }

    /// The drawing of the scene: as large as the layout, with the groups of all elements from
    /// the back to the front.
    pub open spec fn drawing(self, c: SvgConfig) -> SvgDocumentView {
        SvgDocumentView {
            width: self.layout@.right,
            height: self.layout@.bottom,
            groups: self.head_groups(c) + self.footer_groups(c) + self.lifeline_groups()
                + self.activation_groups() + self.arrow_groups(c) + self.note_groups(c),
        }
    }
}

// ---------------------------------------------------------------------------------------------
// Drawing
// ---------------------------------------------------------------------------------------------
/// A rectangle as large as `block` and the `lines` of a text from the top.
fn draw_box(block: &Block, lines: &Vec<String>, fill: Paint, config: &SvgConfig) -> (group: Group)
    ensures
        group@ == box_group(*block, lines_text(lines@), fill, *config),
{
    let mut shapes: Vec<Shape> = Vec::new();
    shapes.push(
        Shape::Rect {
            width: block.width_,
            height: block.height_,
            fill,
            stroke: Paint::Black,
            corner_radius: Some(config.corner_radius),
        },
    );
    let ghost all = box_group(*block, lines_text(lines@), fill, *config).shapes;
    let mut i: usize = 0;
    assert(shapes_view(shapes@) == all.take(1));
    while i < lines.len()
        invariant
            i <= lines.len(),
            all == box_group(*block, lines_text(lines@), fill, *config).shapes,
            shapes_view(shapes@) == all.take(i + 1),
        decreases lines.len() - i,
    {
        assert((i + 1) * block.line_height <= 0x1_0000_0000_0000_0000 * 0x1_0000_0000)
            by (nonlinear_arith)
            requires
                0 <= i + 1 <= 0x1_0000_0000_0000_0000,
                0 <= block.line_height <= 0x1_0000_0000,
        ;
        let y: Length = (config.padding as i128) + (i as i128 + 1) * (block.line_height as i128);
        let ghost before = shapes_view(shapes@);
        let row = Shape::Text {
            x: config.padding as i128,
            y,
            font_size: config.font_size,
            content: lines[i].clone(),
        };
        shapes.push(row);
        assert(shapes_view(shapes@) == before.push(row@));
        assert(row@ == all[i + 1]);
        assert(all.take(i + 2) == all.take(i + 1).push(all[i + 1]));
        i += 1;
    }
    assert(all.take(i + 1) == all);
    Group { x: block.x_, y: block.y_, shapes }
}

impl ParticipantMarker {
    /// The head or footer as it is drawn: a box without filling, with the name in it.
    pub fn to_svg(&self, layout: &Layout, config: &SvgConfig) -> (group: Group)
        requires
            self.block_id < layout@.blocks.len(),
        ensures
            group@ == box_group(
                layout@.blocks[self.block_id as int],
                lines_text(self.lines@),
                Paint::Transparent,
                *config,
            ),
    {
        draw_box(layout.b(self.block_id), &self.lines, Paint::Transparent, config)
    }
}

impl NoteMarker {
    /// The note as it is drawn: a light gray box with the text in it.
    pub fn to_svg(&self, layout: &Layout, config: &SvgConfig) -> (group: Group)
        requires
            self.block_id < layout@.blocks.len(),
        ensures
            group@ == box_group(
                layout@.blocks[self.block_id as int],
                lines_text(self.lines@),
                Paint::LightGray,
                *config,
            ),
    {
        draw_box(layout.b(self.block_id), &self.lines, Paint::LightGray, config)
    }
}

impl ParticipantLine {
    /// The lifeline as it is drawn: a line straight down.
    pub fn to_svg(&self, layout: &Layout, config: &SvgConfig) -> (group: Group)
        requires
            self.block < layout@.blocks.len(),
        ensures
            group@ == lifeline_group(layout@.blocks[self.block as int]),
    {
        let block = layout.b(self.block);
        let mut shapes: Vec<Shape> = Vec::new();
        let line = Shape::Line { x1: 0, y1: 0, x2: 0, y2: block.height_, tip: None };
        shapes.push(line);
        assert(shapes_view(shapes@) == seq![line@]);
        Group { x: block.x_, y: block.y_, shapes }
    }
}

impl ActivationMarker {
    /// The activation as it is drawn: a gray rectangle.
    pub fn to_svg(&self, layout: &Layout, config: &SvgConfig) -> (group: Group)
        requires
            self.block < layout@.blocks.len(),
        ensures
            group@ == activation_group(layout@.blocks[self.block as int]),
    {
        let block = layout.b(self.block);
        let mut shapes: Vec<Shape> = Vec::new();
        let rect = Shape::Rect {
            width: block.width_,
            height: block.height_,
            fill: Paint::Gray,
            stroke: Paint::DarkGray,
            corner_radius: None,
        };
        shapes.push(rect);
        assert(shapes_view(shapes@) == seq![rect@]);
        Group { x: block.x_, y: block.y_, shapes }
    }
}

impl MsgArrow {
    /// The arrow as it is drawn: its line along the bottom of the block, and above it the label.
    pub fn to_svg(&self, layout: &Layout, config: &SvgConfig) -> (group: Group)
        requires
            layout@.wf(),
            self.block < layout@.blocks.len(),
        ensures
            group@ == arrow_group(
                layout@.blocks[self.block as int],
                lines_text(self.label@),
                self.direction,
                *config,
            ),
    {
        let block = layout.b(self.block);
        assert(layout@.blocks[self.block as int].solved_not_negative());
        let mut shapes: Vec<Shape> = Vec::new();
        let line = match self.direction {
            ArrowDirection::ToRight => Shape::Line {
                x1: 0,
                y1: block.height_,
                x2: block.width_ - ARROW_TIP_LENGTH,
                y2: block.height_,
                tip: Some(Tip::End),
            },
            ArrowDirection::ToLeft => Shape::Line {
                x1: 0,
                y1: block.height_,
                x2: block.width_,
                y2: block.height_,
                tip: Some(Tip::Start),
            },
        };
        shapes.push(line);
        let ghost all = arrow_group(*block, lines_text(self.label@), self.direction, *config).shapes;
        let n = self.label.len();
        assert(n * block.line_height <= 0x1_0000_0000_0000_0000 * 0x1_0000_0000)
            by (nonlinear_arith)
            requires
                0 <= n <= 0x1_0000_0000_0000_0000,
                0 <= block.line_height <= 0x1_0000_0000,
        ;
        let text_height: Length = (n as i128) * (block.line_height as i128);
        let mut i: usize = 0;
        assert(shapes_view(shapes@) == all.take(1));
        while i < n
            invariant
                i <= n,
                n == self.label@.len(),
                text_height == n * block.line_height,
                0 <= text_height <= 0x1_0000_0000_0000_0000 * 0x1_0000_0000,
                all == arrow_group(*block, lines_text(self.label@), self.direction, *config).shapes,
                shapes_view(shapes@) == all.take(i + 1),
            decreases n - i,
        {
            assert(i * block.line_height <= 0x1_0000_0000_0000_0000 * 0x1_0000_0000)
                by (nonlinear_arith)
                requires
                    0 <= i <= 0x1_0000_0000_0000_0000,
                    0 <= block.line_height <= 0x1_0000_0000,
            ;
            let y: Length = (config.padding as i128) + text_height - (i as i128) * (
            block.line_height as i128);
            let ghost before = shapes_view(shapes@);
            let row = Shape::Text {
                x: config.padding as i128,
                y,
                font_size: config.font_size,
                content: self.label[i].clone(),
            };
            shapes.push(row);
            assert(shapes_view(shapes@) == before.push(row@));
            assert(row@ == all[i + 1]);
            assert(all.take(i + 2) == all.take(i + 1).push(all[i + 1]));
            i += 1;
        }
        assert(all.take(i + 1) == all);
        Group { x: block.x_, y: block.y_, shapes }
    }
}

/// Draws the scene: the drawing is as large as the solved layout, and holds a group for every
/// head, footer, lifeline, activation, arrow and note, in this order.
pub fn to_svg(scene: &Scene, config: &SvgConfig) -> (drawing: SvgDocument)
    requires
        scene.wf(),
    ensures
        drawing@ == scene.drawing(*config),
{
    let mut groups: Vec<Group> = Vec::new();
    let layout = &scene.layout;
    let mut i: usize = 0;
    assert(groups_view(groups@) == scene.head_groups(*config).take(0));
    while i < scene.heads.len()
        invariant
            i <= scene.heads.len(),
            scene.wf(),
            layout == &scene.layout,
            groups_view(groups@) == scene.head_groups(*config).take(i as int),
        decreases scene.heads.len() - i,
    {
        assert(marker_ids(scene.heads@)[i as int] < layout@.blocks.len());
        let ghost before = groups_view(groups@);
        let group = scene.heads[i].to_svg(layout, config);
        groups.push(group);
        assert(groups_view(groups@) == before.push(group@));
        assert(scene.head_groups(*config).take(i + 1) == scene.head_groups(*config).take(
            i as int,
        ).push(scene.head_groups(*config)[i as int]));
        i += 1;
    }
    assert(scene.head_groups(*config).take(i as int) == scene.head_groups(*config));
    let ghost done = groups_view(groups@);
    i = 0;
    assert(groups_view(groups@) == done + scene.footer_groups(*config).take(0));
    while i < scene.footers.len()
        invariant
            i <= scene.footers.len(),
            scene.wf(),
            layout == &scene.layout,
            groups_view(groups@) == done + scene.footer_groups(*config).take(i as int),
        decreases scene.footers.len() - i,
    {
        assert(marker_ids(scene.footers@)[i as int] < layout@.blocks.len());
        let ghost before = groups_view(groups@);
        let group = scene.footers[i].to_svg(layout, config);
        groups.push(group);
        assert(groups_view(groups@) == before.push(group@));
        assert(scene.footer_groups(*config).take(i + 1) == scene.footer_groups(*config).take(
            i as int,
        ).push(scene.footer_groups(*config)[i as int]));
        i += 1;
    }
    assert(scene.footer_groups(*config).take(i as int) == scene.footer_groups(*config));
    let ghost done = groups_view(groups@);
    i = 0;
    assert(groups_view(groups@) == done + scene.lifeline_groups().take(0));
    while i < scene.lifelines.len()
        invariant
            i <= scene.lifelines.len(),
            scene.wf(),
            layout == &scene.layout,
            groups_view(groups@) == done + scene.lifeline_groups().take(i as int),
        decreases scene.lifelines.len() - i,
    {
        assert(lifeline_ids(scene.lifelines@)[i as int] < layout@.blocks.len());
        let ghost before = groups_view(groups@);
        let group = scene.lifelines[i].to_svg(layout, config);
        groups.push(group);
        assert(groups_view(groups@) == before.push(group@));
        assert(scene.lifeline_groups().take(i + 1) == scene.lifeline_groups().take(i as int).push(
            scene.lifeline_groups()[i as int],
        ));
        i += 1;
    }
    assert(scene.lifeline_groups().take(i as int) == scene.lifeline_groups());
    let ghost done = groups_view(groups@);
    i = 0;
    assert(groups_view(groups@) == done + scene.activation_groups().take(0));
    while i < scene.activations.len()
        invariant
            i <= scene.activations.len(),
            scene.wf(),
            layout == &scene.layout,
            groups_view(groups@) == done + scene.activation_groups().take(i as int),
        decreases scene.activations.len() - i,
    {
        assert(activation_ids(scene.activations@)[i as int] < layout@.blocks.len());
        let ghost before = groups_view(groups@);
        let group = scene.activations[i].to_svg(layout, config);
        groups.push(group);
        assert(groups_view(groups@) == before.push(group@));
        assert(scene.activation_groups().take(i + 1) == scene.activation_groups().take(
            i as int,
        ).push(scene.activation_groups()[i as int]));
        i += 1;
    }
    assert(scene.activation_groups().take(i as int) == scene.activation_groups());
    let ghost done = groups_view(groups@);
    i = 0;
    assert(groups_view(groups@) == done + scene.arrow_groups(*config).take(0));
    while i < scene.arrows.len()
        invariant
            i <= scene.arrows.len(),
            scene.wf(),
            layout == &scene.layout,
            groups_view(groups@) == done + scene.arrow_groups(*config).take(i as int),
        decreases scene.arrows.len() - i,
    {
        assert(arrow_ids(scene.arrows@)[i as int] < layout@.blocks.len());
        let ghost before = groups_view(groups@);
        let group = scene.arrows[i].to_svg(layout, config);
        groups.push(group);
        assert(groups_view(groups@) == before.push(group@));
        assert(scene.arrow_groups(*config).take(i + 1) == scene.arrow_groups(*config).take(
            i as int,
        ).push(scene.arrow_groups(*config)[i as int]));
        i += 1;
    }
    assert(scene.arrow_groups(*config).take(i as int) == scene.arrow_groups(*config));
    let ghost done = groups_view(groups@);
    i = 0;
    assert(groups_view(groups@) == done + scene.note_groups(*config).take(0));
    while i < scene.notes.len()
        invariant
            i <= scene.notes.len(),
            scene.wf(),
            layout == &scene.layout,
            groups_view(groups@) == done + scene.note_groups(*config).take(i as int),
        decreases scene.notes.len() - i,
    {
        assert(note_ids(scene.notes@)[i as int] < layout@.blocks.len());
        let ghost before = groups_view(groups@);
        let group = scene.notes[i].to_svg(layout, config);
        groups.push(group);
        assert(groups_view(groups@) == before.push(group@));
        assert(scene.note_groups(*config).take(i + 1) == scene.note_groups(*config).take(
            i as int,
        ).push(scene.note_groups(*config)[i as int]));
        i += 1;
    }
    assert(scene.note_groups(*config).take(i as int) == scene.note_groups(*config));
    SvgDocument { width: layout.width(), height: layout.height(), groups }
}

/// Drawing is a function of what goes in: two scenes that are laid out for the same diagram
/// with the same configuration and font, and whose layouts are then solved with the same
/// values, give the same drawing.
pub proof fn law_drawing_determined(
    first: Scene,
    second: Scene,
    solved_first: Layout,
    solved_second: Layout,
    d: SequenceDiagramView,
    c: SvgConfig,
    font: FontMetricsView,
    changes: Seq<Change>,
)
    requires
        first.arranges(d, c, font),
        second.arranges(d, c, font),
        solved_first@ == first.layout@.solved(changes),
        solved_second@ == second.layout@.solved(changes),
    ensures
        first.layout@ == second.layout@,
        (Scene { layout: solved_first, ..first }).drawing(c) == (Scene {
            layout: solved_second,
            ..second
        }).drawing(c),
{
    let a = Scene { layout: solved_first, ..first };
    let b = Scene { layout: solved_second, ..second };
    assert(a.layout@ == b.layout@);
    assert(first.shows(d, c) && second.shows(d, c));
    assert(first.numbered(d) && second.numbered(d));
    assert(a.lifelines@.len() == b.lifelines@.len());
    assert forall|i: int| 0 <= i < a.lifelines@.len() implies a.lifeline_groups()[i]
        == b.lifeline_groups()[i] by {
        assert(lifeline_ids(a.lifelines@)[i] == lifeline_ids(b.lifelines@)[i]);
    }
    assert(a.lifeline_groups() =~= b.lifeline_groups());
    assert(a.activations@.len() == b.activations@.len());
    assert forall|i: int| 0 <= i < a.activations@.len() implies a.activation_groups()[i]
        == b.activation_groups()[i] by {
        assert(activation_ids(a.activations@)[i] == activation_ids(b.activations@)[i]);
    }
    assert(a.activation_groups() =~= b.activation_groups());
    assert(a.heads@.len() == b.heads@.len());
    assert forall|i: int| 0 <= i < a.heads@.len() implies a.head_groups(c)[i] == b.head_groups(
        c,
    )[i] by {
        assert(marker_ids(a.heads@)[i] == marker_ids(b.heads@)[i]);
        assert(lines_text(a.heads@[i].lines@) == lines_text(b.heads@[i].lines@));
    }
    assert(a.head_groups(c) =~= b.head_groups(c));
    assert(a.footers@.len() == b.footers@.len());
    assert forall|i: int| 0 <= i < a.footers@.len() implies a.footer_groups(c)[i]
        == b.footer_groups(c)[i] by {
        assert(marker_ids(a.footers@)[i] == marker_ids(b.footers@)[i]);
        assert(lines_text(a.footers@[i].lines@) == lines_text(b.footers@[i].lines@));
    }
    assert(a.footer_groups(c) =~= b.footer_groups(c));
    assert(a.arrows@.len() == b.arrows@.len());
    assert forall|i: int| 0 <= i < a.arrows@.len() implies a.arrow_groups(c)[i] == b.arrow_groups(
        c,
    )[i] by {
        assert(arrow_ids(a.arrows@)[i] == arrow_ids(b.arrows@)[i]);
        assert(crate::scene::arrow_of(a.arrows@[i], d.messages[i], c.max_msg_label_length));
        assert(crate::scene::arrow_of(b.arrows@[i], d.messages[i], c.max_msg_label_length));
    }
    assert(a.arrow_groups(c) =~= b.arrow_groups(c));
    assert(a.notes@.len() == b.notes@.len());
    assert forall|i: int| 0 <= i < a.notes@.len() implies a.note_groups(c)[i] == b.note_groups(
        c,
    )[i] by {
        assert(note_ids(a.notes@)[i] == note_ids(b.notes@)[i]);
        assert(lines_text(a.notes@[i].lines@) == lines_text(b.notes@[i].lines@));
    }
    assert(a.note_groups(c) =~= b.note_groups(c));
}

} // verus!
