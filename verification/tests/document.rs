use seqdiagram::document::{
    document, group_element, push_decimal, shape_element, to_decimal, FONT_FACE, NAME_SPACE,
    TEXT_FONT,
};
use seqdiagram::svg::{
    Group, Paint, Shape, SvgDocument, Tip, END_ARROW, END_ARROW_POINTS, START_ARROW,
    START_ARROW_POINTS,
};

#[test]
fn numbers_are_written_as_decimals() {
    assert_eq!(to_decimal(0), "0");
    assert_eq!(to_decimal(7), "7");
    assert_eq!(to_decimal(10), "10");
    assert_eq!(to_decimal(-1), "-1");
    assert_eq!(to_decimal(1234567890123), "1234567890123");
    assert_eq!(to_decimal(-9070), "-9070");
    assert_eq!(to_decimal(i128::MAX), "170141183460469231731687303715884105727");
    assert_eq!(to_decimal(i128::MIN), "-170141183460469231731687303715884105728");
    let mut text = "x = ".to_string();
    push_decimal(&mut text, 42);
    assert_eq!(text, "x = 42");
}

#[test]
fn shapes_become_elements() {
    let rect = Shape::Rect {
        width: 10,
        height: 5,
        fill: Paint::LightGray,
        stroke: Paint::Black,
        corner_radius: Some(2),
    };
    assert_eq!(
        shape_element(&rect).to_string(),
        "<rect fill=\"#DDD\" height=\"5\" rx=\"2\" stroke=\"black\" stroke-width=\"1\" width=\"10\" x=\"0\" y=\"0\"/>"
    );
    let activation = Shape::Rect {
        width: 12,
        height: 40,
        fill: Paint::Gray,
        stroke: Paint::DarkGray,
        corner_radius: None,
    };
    assert_eq!(
        shape_element(&activation).to_string(),
        "<rect fill=\"gray\" height=\"40\" stroke=\"#333\" stroke-width=\"1\" width=\"12\" x=\"0\" y=\"0\"/>"
    );
    let plain = Shape::Line { x1: 0, y1: 0, x2: 0, y2: 146, tip: None };
    assert_eq!(
        shape_element(&plain).to_string(),
        "<line stroke=\"black\" stroke-width=\"1\" x1=\"0\" x2=\"0\" y1=\"0\" y2=\"146\"/>"
    );
    let to_right = Shape::Line { x1: 0, y1: 22, x2: -4, y2: 22, tip: Some(Tip::End) };
    assert_eq!(
        shape_element(&to_right).to_string(),
        "<line marker-end=\"url(#end-arrow)\" stroke=\"black\" stroke-width=\"1\" x1=\"0\" x2=\"-4\" y1=\"22\" y2=\"22\"/>"
    );
    let to_left = Shape::Line { x1: 0, y1: 22, x2: 154, y2: 22, tip: Some(Tip::Start) };
    assert_eq!(
        shape_element(&to_left).to_string(),
        "<line marker-start=\"url(#start-arrow)\" stroke=\"black\" stroke-width=\"1\" x1=\"0\" x2=\"154\" y1=\"22\" y2=\"22\"/>"
    );
    let text = Shape::Text { x: 5, y: 17, font_size: 10, content: "a<b".to_string() };
    assert_eq!(
        shape_element(&text).to_string(),
        "<text fill=\"blue\" font-family=\"monospace\" font-size=\"10\" x=\"5\" y=\"17\">a&lt;b</text>"
    );
    let filled = Shape::Rect {
        width: 1,
        height: 1,
        fill: Paint::Transparent,
        stroke: Paint::Blue,
        corner_radius: Some(0),
    };
    let written = shape_element(&filled).to_string();
    assert!(written.contains("fill=\"transparent\""));
    assert!(written.contains("stroke=\"blue\""));
    assert!(written.contains("rx=\"0\""));
}

#[test]
fn group_is_moved_to_its_corner() {
    let group = Group {
        x: 54,
        y: -2,
        shapes: vec![
            Shape::Line { x1: 0, y1: 0, x2: 0, y2: 9, tip: None },
            Shape::Line { x1: 1, y1: 1, x2: 1, y2: 1, tip: None },
        ],
    };
    assert_eq!(
        group_element(&group).to_string(),
        "<g transform=\"translate(54, -2)\">\n<line stroke=\"black\" stroke-width=\"1\" x1=\"0\" x2=\"0\" y1=\"0\" y2=\"9\"/>\n<line stroke=\"black\" stroke-width=\"1\" x1=\"1\" x2=\"1\" y1=\"1\" y2=\"1\"/>\n</g>"
    );
    let empty = Group { x: 0, y: 0, shapes: vec![] };
    assert_eq!(group_element(&empty).to_string(), "<g transform=\"translate(0, 0)\"/>");
}

#[test]
fn document_has_view_box_defs_and_groups() {
    let drawing = SvgDocument {
        width: 30,
        height: 20,
        groups: vec![
            Group { x: 1, y: 2, shapes: vec![] },
            Group { x: 3, y: 4, shapes: vec![Shape::Line { x1: 0, y1: 0, x2: 0, y2: 9, tip: None }] },
        ],
    };
    let written = document(&drawing).to_string();
    let lines: Vec<&str> = written.lines().collect();
    assert_eq!(lines[0], "<svg viewBox=\"0 0 30 20\" xmlns=\"http://www.w3.org/2000/svg\">");
    assert_eq!(lines[1], "<defs>");
    assert_eq!(lines[2], format!("<style>{}</style>", FONT_FACE));
    assert_eq!(lines[3], format!("<style>{}</style>", TEXT_FONT));
    assert_eq!(
        lines[4],
        "<marker id=\"start-arrow\" markerHeight=\"7\" markerWidth=\"10\" orient=\"auto\" refX=\"0\" refY=\"3.5\">"
    );
    assert_eq!(lines[5], "<polygon points=\"10 0, 10 7, 0 3.5\"/>");
    assert_eq!(lines[6], "</marker>");
    assert_eq!(
        lines[7],
        "<marker id=\"end-arrow\" markerHeight=\"7\" markerWidth=\"10\" orient=\"auto\" refX=\"0\" refY=\"3.5\">"
    );
    assert_eq!(lines[8], "<polygon points=\"0 0, 10 3.5, 0 7\"/>");
    assert_eq!(lines[9], "</marker>");
    assert_eq!(lines[10], "</defs>");
    assert_eq!(lines[11], "<g transform=\"translate(1, 2)\"/>");
    assert_eq!(lines[12], "<g transform=\"translate(3, 4)\">");
    assert_eq!(lines[14], "</g>");
    assert_eq!(lines[15], "</svg>");
    assert_eq!(lines.len(), 16);
    assert_eq!(NAME_SPACE, "http://www.w3.org/2000/svg");
    assert_eq!((START_ARROW, END_ARROW), ("start-arrow", "end-arrow"));
    assert_eq!(START_ARROW_POINTS, "10 0, 10 7, 0 3.5");
    assert_eq!(END_ARROW_POINTS, "0 0, 10 3.5, 0 7");
    let empty = SvgDocument { width: 0, height: 0, groups: vec![] };
    assert!(document(&empty).to_string().starts_with("<svg viewBox=\"0 0 0 0\""));
}
