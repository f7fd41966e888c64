//! From a drawing to a document of the `svg` crate: the elements with their attributes, ready
//! to be written out.
//!
//! Numbers are written as whole decimal numbers. All elements are built here, attribute by
//! attribute; the `svg` crate holds them and writes them.

use crate::metrics::Length;
use crate::svg::{
    Group, GroupView, Paint, Shape, ShapeView, SvgDocument, SvgDocumentView, Tip, END_ARROW,
    END_ARROW_POINTS, START_ARROW, START_ARROW_POINTS,
};
use svg::node::Node;
use vstd::prelude::*;

verus! {

/// An element of the `svg` crate: a name, attributes, and children.
#[verifier::external_type_specification]
#[verifier::external_body]
pub struct ExElement(svg::node::element::Element);

/// What an element or a text node holds.
pub enum Markup {
    /// A text node.
    Text(Seq<char>),
    /// An element: its name, the values of its attributes by their names, and its children in
    /// order.
    Tag { name: Seq<char>, attributes: Map<Seq<char>, Seq<char>>, children: Seq<Markup> },
}

impl Markup {
    /// An element called `name` with no attribute and no child.
    pub open spec fn named(name: Seq<char>) -> Markup {
        Markup::Tag { name, attributes: Map::empty(), children: Seq::empty() }
    }

    /// The element with the attribute `name` set to `value`.
    pub open spec fn with(self, name: Seq<char>, value: Seq<char>) -> Markup {
        match self {
            Markup::Tag { name: own, attributes, children } => Markup::Tag {
                name: own,
                attributes: attributes.insert(name, value),
                children,
            },
            Markup::Text(content) => Markup::Text(content),
        }
    }

    /// The element with `child` as its last child.
    pub open spec fn with_child(self, child: Markup) -> Markup {
        match self {
            Markup::Tag { name, attributes, children } => Markup::Tag {
                name,
                attributes,
                children: children.push(child),
            },
            Markup::Text(content) => Markup::Text(content),
        }
    }

    /// The element with `more` as its last children.
    pub open spec fn with_children(self, more: Seq<Markup>) -> Markup
        decreases more.len(),
    {
        if more.len() == 0 {
            self
        } else {
            self.with_children(more.drop_last()).with_child(more.last())
        }
    }
}

/// What the element `e` holds: its name, its attributes and its children.
pub uninterp spec fn markup(e: svg::node::element::Element) -> Markup;

/// `Element::new` makes an element with the given name, no attribute and no child.
#[verifier::external_body]
fn element(name: &str) -> (e: svg::node::element::Element)
    ensures
        markup(e) == Markup::named(name@),
{
    svg::node::element::Element::new(name)
}

/// `Node::assign` on an element stores the value under the name among the attributes of the
/// element, in place of a value that was there under that name, and changes nothing else.
#[verifier::external_body]
fn assign(e: &mut svg::node::element::Element, name: &str, value: &str)
    ensures
        markup(*final(e)) == markup(*old(e)).with(name@, value@),
{
    e.assign(name, value)
}

/// `Node::append` on an element puts the node behind the children of the element and changes
/// nothing else.
#[verifier::external_body]
fn append(e: &mut svg::node::element::Element, child: svg::node::element::Element)
    ensures
        markup(*final(e)) == markup(*old(e)).with_child(markup(child)),
{
    e.append(child)
}

/// `Text::new` makes a text node with the given content; `Node::append` puts it behind the
/// children of the element.
#[verifier::external_body]
fn append_text(e: &mut svg::node::element::Element, content: &str)
    ensures
        markup(*final(e)) == markup(*old(e)).with_child(Markup::Text(content@)),
{
    e.append(svg::node::Text::new(content))
}

// ---------------------------------------------------------------------------------------------
// Numbers
// ---------------------------------------------------------------------------------------------
/// The character of the digit `d`.
pub open spec fn digit(d: int) -> char {
    if d == 0 {
        '0'
    } else if d == 1 {
        '1'
    } else if d == 2 {
        '2'
    } else if d == 3 {
        '3'
    } else if d == 4 {
        '4'
    } else if d == 5 {
        '5'
    } else if d == 6 {
        '6'
    } else if d == 7 {
        '7'
    } else if d == 8 {
        '8'
    } else {
        '9'
    }
}

/// The digits of `n`, which is not negative, without leading zeros.
pub open spec fn digits(n: int) -> Seq<char>
    decreases n,
{
    if n < 10 {
        seq![digit(n)]
    } else {
        digits(n / 10).push(digit(n % 10))
    }
}

/// `n` as a decimal number, with `-` in front if it is negative.
pub open spec fn decimal(n: int) -> Seq<char> {
    if n < 0 {
        seq!['-'] + digits(-n)
    } else {
        digits(n)
    }
}

fn digit_char(d: u128) -> (c: char)
    requires
        d < 10,
    ensures
        c == digit(d as int),
{
    if d == 0 {
        '0'
    } else if d == 1 {
        '1'
    } else if d == 2 {
        '2'
    } else if d == 3 {
        '3'
    } else if d == 4 {
        '4'
    } else if d == 5 {
        '5'
    } else if d == 6 {
        '6'
    } else if d == 7 {
        '7'
    } else if d == 8 {
        '8'
    } else {
        '9'
    }
}

fn push_digits(text: &mut String, n: u128)
    ensures
        final(text)@ == old(text)@ + digits(n as int),
    decreases n,
{
    if n >= 10 {
        push_digits(text, n / 10);
    }
    text.push(digit_char(n % 10));
}

/// Writes `n` behind `text`.
pub fn push_decimal(text: &mut String, n: Length)
    ensures
        final(text)@ == old(text)@ + decimal(n as int),
{
    if n < 0 {
        text.push('-');
        let magnitude: u128 = ((-(n + 1)) as u128) + 1;
        push_digits(text, magnitude);
        assert(text@ == old(text)@ + (seq!['-'] + digits(-n)));
    } else {
        push_digits(text, n as u128);
    }
}

/// `n` as a decimal number.
pub fn to_decimal(n: Length) -> (text: String)
    ensures
        text@ == decimal(n as int),
{
    let mut text = String::new();
    push_decimal(&mut text, n);
    assert(text@ == decimal(n as int));
    text
}

// ---------------------------------------------------------------------------------------------
// What the document holds
// ---------------------------------------------------------------------------------------------
/// The name space of the document.
pub const NAME_SPACE: &'static str = "http://www.w3.org/2000/svg";

/// The style that names the font of the document and where it is found.
pub const FONT_FACE: &'static str =
    "@font-face { font-family: Roboto-Regular; src: url(\"resources/fonts/Roboto-Regular.ttf\") }";

/// The style that sets all text in the font of the document.
pub const TEXT_FONT: &'static str = "text {font-family:Roboto-Regular,Roboto;}";

/// The name of a colour.
pub open spec fn paint(p: Paint) -> Seq<char> {
    match p {
        Paint::Transparent => "transparent"@,
        Paint::Black => "black"@,
        Paint::Blue => "blue"@,
        Paint::Gray => "gray"@,
        Paint::DarkGray => "#333"@,
        Paint::LightGray => "#DDD"@,
    }
}

/// A line with a tip at neither end, at its start, or at its end.
pub open spec fn tipped(line: Markup, tip: Option<Tip>) -> Markup {
    match tip {
        None => line,
        Some(Tip::Start) => line.with("marker-start"@, "url(#start-arrow)"@),
        Some(Tip::End) => line.with("marker-end"@, "url(#end-arrow)"@),
    }
}

/// A rectangle with round corners where it has a corner radius.
pub open spec fn rounded(rect: Markup, corner_radius: Option<u32>) -> Markup {
    match corner_radius {
        Some(radius) => rect.with("rx"@, decimal(radius as int)),
        None => rect,
    }
}

/// The element of a shape: a `rect`, a `line`, or a `text` with its content as its child. All
/// edges are one unit wide.
pub open spec fn shape_markup(shape: ShapeView) -> Markup {
    match shape {
        ShapeView::Rect { width, height, fill, stroke, corner_radius } => rounded(
            Markup::named("rect"@).with("x"@, "0"@).with("y"@, "0"@).with(
                "width"@,
                decimal(width as int),
            ).with("height"@, decimal(height as int)).with("fill"@, paint(fill)).with(
                "stroke"@,
                paint(stroke),
            ),
            corner_radius,
        ).with("stroke-width"@, "1"@),
        ShapeView::Line { x1, y1, x2, y2, tip } => tipped(
            Markup::named("line"@).with("x1"@, decimal(x1 as int)).with(
                "y1"@,
                decimal(y1 as int),
            ).with("x2"@, decimal(x2 as int)).with("y2"@, decimal(y2 as int)).with(
                "stroke"@,
                "black"@,
            ).with("stroke-width"@, "1"@),
            tip,
        ),
        ShapeView::Text { x, y, font_size, content } => Markup::named("text"@).with(
            "x"@,
            decimal(x as int),
        ).with("y"@, decimal(y as int)).with("fill"@, "blue"@).with(
            "font-family"@,
            "monospace"@,
        ).with("font-size"@, decimal(font_size as int)).with_child(Markup::Text(content)),
    }
}

/// The elements of `shapes`, one by one.
pub open spec fn shapes_markup(shapes: Seq<ShapeView>) -> Seq<Markup> {
    Seq::new(shapes.len(), |i: int| shape_markup(shapes[i]))
}

/// The move to `(x, y)`.
pub open spec fn translate(x: int, y: int) -> Seq<char> {
    "translate("@ + decimal(x) + ", "@ + decimal(y) + ")"@
}

/// The element of a group: a `g` moved to the corner of the group, with the elements of its
/// shapes as its children.
pub open spec fn group_markup(group: GroupView) -> Markup {
    Markup::named("g"@).with("transform"@, translate(group.x as int, group.y as int)).with_children(
        shapes_markup(group.shapes),
    )
}

/// The elements of `groups`, one by one.
pub open spec fn groups_markup(groups: Seq<GroupView>) -> Seq<Markup> {
    Seq::new(groups.len(), |i: int| group_markup(groups[i]))
}

/// A `style` element with `css` as its text.
pub open spec fn style_markup(css: Seq<char>) -> Markup {
    Markup::named("style"@).with_child(Markup::Text(css))
}

/// A `marker` element called `id`: an arrow tip 10 wide and 7 high with the corners `points`.
pub open spec fn marker_markup(id: Seq<char>, points: Seq<char>) -> Markup {
    Markup::named("marker"@).with("id"@, id).with("markerWidth"@, "10"@).with(
        "markerHeight"@,
        "7"@,
    ).with("refX"@, "0"@).with("refY"@, "3.5"@).with("orient"@, "auto"@).with_child(
        Markup::named("polygon"@).with("points"@, points),
    )
}

/// The `defs` element of every document: the two styles of the font and the two arrow tips.
pub open spec fn defs_markup() -> Markup {
    Markup::named("defs"@).with_child(style_markup(FONT_FACE@)).with_child(
        style_markup(TEXT_FONT@),
    ).with_child(marker_markup(START_ARROW@, START_ARROW_POINTS@)).with_child(
        marker_markup(END_ARROW@, END_ARROW_POINTS@),
    )
}

/// The box in which the document is seen: from the origin as far as the drawing goes.
pub open spec fn view_box(width: int, height: int) -> Seq<char> {
    "0 0 "@ + decimal(width) + " "@ + decimal(height)
}

/// The document of a drawing: an `svg` element with its view box, the `defs`, and the elements
/// of the groups in their order.
pub open spec fn document_markup(drawing: SvgDocumentView) -> Markup {
    Markup::named("svg"@).with("xmlns"@, NAME_SPACE@).with(
        "viewBox"@,
        view_box(drawing.width as int, drawing.height as int),
    ).with_child(defs_markup()).with_children(groups_markup(drawing.groups))
}

// ---------------------------------------------------------------------------------------------
// Building the document
// ---------------------------------------------------------------------------------------------
fn paint_name(p: Paint) -> (name: &'static str)
    ensures
        name@ == paint(p),
{
    match p {
        Paint::Transparent => "transparent",
        Paint::Black => "black",
        Paint::Blue => "blue",
        Paint::Gray => "gray",
        Paint::DarkGray => "#333",
        Paint::LightGray => "#DDD",
    }
}

fn assign_number(e: &mut svg::node::element::Element, name: &str, n: Length)
    ensures
        markup(*final(e)) == markup(*old(e)).with(name@, decimal(n as int)),
{
    let text = to_decimal(n);
    assign(e, name, text.as_str());
}

/// The element of a shape.
pub fn shape_element(shape: &Shape) -> (e: svg::node::element::Element)
    ensures
        markup(e) == shape_markup(shape@),
{
    match shape {
        Shape::Rect { width, height, fill, stroke, corner_radius } => {
            let mut e = element("rect");
            assign(&mut e, "x", "0");
            assign(&mut e, "y", "0");
            assign_number(&mut e, "width", *width);
            assign_number(&mut e, "height", *height);
            assign(&mut e, "fill", paint_name(*fill));
            assign(&mut e, "stroke", paint_name(*stroke));
            match corner_radius {
                Some(radius) => {
                    assign_number(&mut e, "rx", *radius as i128);
                },
                None => {},
            }
            assign(&mut e, "stroke-width", "1");
            e
        },
        Shape::Line { x1, y1, x2, y2, tip } => {
            let mut e = element("line");
            assign_number(&mut e, "x1", *x1);
            assign_number(&mut e, "y1", *y1);
            assign_number(&mut e, "x2", *x2);
            assign_number(&mut e, "y2", *y2);
            assign(&mut e, "stroke", "black");
            assign(&mut e, "stroke-width", "1");
            match tip {
                None => {},
                Some(Tip::Start) => {
                    assign(&mut e, "marker-start", "url(#start-arrow)");
                },
                Some(Tip::End) => {
                    assign(&mut e, "marker-end", "url(#end-arrow)");
                },
            }
            e
        },
        Shape::Text { x, y, font_size, content } => {
            let mut e = element("text");
            assign_number(&mut e, "x", *x);
            assign_number(&mut e, "y", *y);
            assign(&mut e, "fill", "blue");
            assign(&mut e, "font-family", "monospace");
            assign_number(&mut e, "font-size", *font_size as i128);
            append_text(&mut e, content.as_str());
            e
        },
    }
}

/// The element of a group.
pub fn group_element(group: &Group) -> (e: svg::node::element::Element)
    ensures
        markup(e) == group_markup(group@),
{
    let mut moved = String::new();
    moved.append("translate(");
    push_decimal(&mut moved, group.x);
    moved.append(", ");
    push_decimal(&mut moved, group.y);
    moved.append(")");
    let mut e = element("g");
    assign(&mut e, "transform", moved.as_str());
    let ghost base = markup(e);
    let ghost all = shapes_markup(group@.shapes);
    let mut i: usize = 0;
    assert(all.take(0) == Seq::<Markup>::empty());
    while i < group.shapes.len()
        invariant
            i <= group.shapes.len(),
            all == shapes_markup(group@.shapes),
            markup(e) == base.with_children(all.take(i as int)),
        decreases group.shapes.len() - i,
    {
        let child = shape_element(&group.shapes[i]);
        append(&mut e, child);
        assert(all.take(i + 1).drop_last() == all.take(i as int));
        i += 1;
    }
    assert(all.take(i as int) == all);
    e
}

fn style_element(css: &str) -> (e: svg::node::element::Element)
    ensures
        markup(e) == style_markup(css@),
{
    let mut e = element("style");
    append_text(&mut e, css);
    e
}

fn marker_element(id: &str, points: &str) -> (e: svg::node::element::Element)
    ensures
        markup(e) == marker_markup(id@, points@),
{
    let mut e = element("marker");
    assign(&mut e, "id", id);
    assign(&mut e, "markerWidth", "10");
    assign(&mut e, "markerHeight", "7");
    assign(&mut e, "refX", "0");
    assign(&mut e, "refY", "3.5");
    assign(&mut e, "orient", "auto");
    let mut tip = element("polygon");
    assign(&mut tip, "points", points);
    append(&mut e, tip);
    e
}

/// The document of a drawing, as an element of the `svg` crate.
pub fn document(drawing: &SvgDocument) -> (e: svg::node::element::Element)
    ensures
        markup(e) == document_markup(drawing@),
{
    let mut seen = String::new();
    seen.append("0 0 ");
    push_decimal(&mut seen, drawing.width);
    seen.append(" ");
    push_decimal(&mut seen, drawing.height);
    let mut defs = element("defs");
    append(&mut defs, style_element(FONT_FACE));
    append(&mut defs, style_element(TEXT_FONT));
    append(&mut defs, marker_element(START_ARROW, START_ARROW_POINTS));
    append(&mut defs, marker_element(END_ARROW, END_ARROW_POINTS));
    let mut e = element("svg");
    assign(&mut e, "xmlns", NAME_SPACE);
    assign(&mut e, "viewBox", seen.as_str());
    append(&mut e, defs);
    let ghost base = markup(e);
    let ghost all = groups_markup(drawing@.groups);
    let mut i: usize = 0;
    assert(all.take(0) == Seq::<Markup>::empty());
    while i < drawing.groups.len()
        invariant
            i <= drawing.groups.len(),
            all == groups_markup(drawing@.groups),
            markup(e) == base.with_children(all.take(i as int)),
        decreases drawing.groups.len() - i,
    {
        let child = group_element(&drawing.groups[i]);
        append(&mut e, child);
        assert(all.take(i + 1).drop_last() == all.take(i as int));
        i += 1;
    }
    assert(all.take(i as int) == all);
    e
}

} // verus!
