use seqdiagram::builder::parse;
use seqdiagram::constraint::{Constraint, Expression, Relation, Strength, Term};
use seqdiagram::diagram::{
    Activation, Arrow, ArrowDirection, HorizontalNotePosition, Message, Note, Participant,
    SequenceDiagram, VerticalNotePosition,
};
use seqdiagram::layout::{Block, Change, Layout};
use seqdiagram::metrics::FontMetrics;
use seqdiagram::scene::{arrange, Scene, SvgConfig};
use seqdiagram::svg::{to_svg, Group, Paint, Shape, SvgDocument, Tip, ARROW_TIP_LENGTH};

fn font() -> FontMetrics {
    FontMetrics {
        units_per_em: 1000,
        ascent: 800,
        descent: -200,
        advances: vec![],
        fallback_advance: 500,
    }
}

fn config() -> SvgConfig {
    SvgConfig {
        max_participant_head_length: 5,
        max_msg_label_length: 60,
        font_scale_factor: 120,
        msg_gutter: 20,
        font_size: 10,
        padding: 5,
        corner_radius: 2,
    }
}

fn var(v: usize) -> Expression {
    Expression { terms: vec![Term { variable: v, coefficient: 1 }], constant: 0 }
}

fn one(coefficient: i64, v: usize, constant: i128) -> Expression {
    Expression { terms: vec![Term { variable: v, coefficient }], constant }
}

fn two(p: i64, a: usize, q: i64, b: usize, constant: i128) -> Expression {
    Expression {
        terms: vec![Term { variable: a, coefficient: p }, Term { variable: b, coefficient: q }],
        constant,
    }
}

fn fixed(constant: i128) -> Expression {
    Expression { terms: vec![], constant }
}

fn required(lhs: Expression, relation: Relation, rhs: Expression) -> Constraint {
    Constraint { lhs, relation, rhs, strength: Strength::Required }
}

fn equal(lhs: Expression, rhs: Expression) -> Constraint {
    required(lhs, Relation::Equal, rhs)
}

fn strong(lhs: Expression, rhs: Expression) -> Constraint {
    Constraint { lhs, relation: Relation::Equal, rhs, strength: Strength::Strong }
}

fn right(b: &Block) -> Expression {
    two(1, b.x, 1, b.width, 0)
}

fn bottom(b: &Block) -> Expression {
    two(1, b.y, 1, b.height, 0)
}

fn has(scene: &Scene, constraint: &Constraint) -> bool {
    scene.layout.constraints().contains(constraint)
}

fn expression(e: &Expression, variables: &[cassowary::Variable]) -> cassowary::Expression {
    let terms = e
        .terms
        .iter()
        .map(|t| cassowary::Term {
            variable: variables[t.variable],
            coefficient: t.coefficient as f64,
        })
        .collect();
    cassowary::Expression::new(terms, e.constant as f64)
}

/// The values that the Cassowary solver finds for the pending constraints.
fn solution(layout: &Layout) -> Vec<Change> {
    let variables: Vec<cassowary::Variable> =
        (0..layout.variable_count()).map(|_| cassowary::Variable::new()).collect();
    let mut solver = cassowary::Solver::new();
    for c in layout.constraints() {
        let difference = expression(&c.lhs, &variables) - expression(&c.rhs, &variables);
        let relation = match c.relation {
            Relation::LessOrEqual => cassowary::RelationalOperator::LessOrEqual,
            Relation::Equal => cassowary::RelationalOperator::Equal,
            Relation::GreaterOrEqual => cassowary::RelationalOperator::GreaterOrEqual,
        };
        let strength = match c.strength {
            Strength::Required => cassowary::strength::REQUIRED,
            Strength::Strong => cassowary::strength::STRONG,
            Strength::Medium => cassowary::strength::MEDIUM,
            Strength::Weak => cassowary::strength::WEAK,
        };
        solver
            .add_constraint(cassowary::Constraint::new(difference, relation, strength))
            .unwrap();
    }
    let mut found = vec![0.0_f64; variables.len()];
    for (v, value) in solver.fetch_changes() {
        found[variables.iter().position(|known| known == v).unwrap()] = *value;
    }
    // of a block the two edges are rounded, not the edge and the extent
    let whole = |value: f64| value.round() as i128;
    let mut changes: Vec<Change> = found
        .iter()
        .enumerate()
        .map(|(variable, value)| Change { variable, value: whole(*value) })
        .collect();
    for id in 0..layout.block_count() {
        let block = layout.b(id);
        changes[block.width].value =
            whole(found[block.x] + found[block.width]) - whole(found[block.x]);
        changes[block.height].value =
            whole(found[block.y] + found[block.height]) - whole(found[block.y]);
    }
    changes
}

/// Solves the pending constraints with the Cassowary solver and hands the values to the layout.
fn solve(layout: &mut Layout) {
    let changes = solution(layout);
    layout.solve(&changes);
}

const EXAMPLE: &str = "participant John\nAlice->+John: Hello John, how are you?\nJohn->-Alice: I feel great!\nNote left of John: yeah\n";

fn example() -> SequenceDiagram {
    parse(EXAMPLE.to_string()).unwrap()
}

#[test]
fn scene_has_a_part_for_every_element() {
    let diagram = example();
    let scene = arrange(&diagram, &config(), font());
    assert_eq!(scene.arrows.len(), 2);
    assert_eq!(scene.lifelines.len(), 2);
    assert_eq!(scene.heads.len(), 2);
    assert_eq!(scene.footers.len(), 2);
    assert_eq!(scene.activations.len(), 1);
    assert_eq!(scene.notes.len(), 1);
    assert_eq!(scene.layout.block_count(), 10);
    assert_eq!(scene.arrows[0].label, vec!["Hello John, how are you?".to_string()]);
    assert_eq!(scene.arrows[0].msg_id, 0);
    assert_eq!((scene.arrows[0].left, scene.arrows[0].right), (0, 1));
    assert_eq!(scene.arrows[0].direction, ArrowDirection::ToLeft);
    assert_eq!(scene.arrows[1].direction, ArrowDirection::ToRight);
    assert_eq!(scene.heads[0].lines, vec!["John".to_string()]);
    assert_eq!(scene.heads[1].lines, vec!["Alice".to_string()]);
    assert_eq!(scene.footers[1].lines, vec!["Alice".to_string()]);
    assert_eq!(scene.notes[0].lines, vec!["yeah".to_string()]);
    assert_eq!(scene.notes[0].id, 0);
    for (p, lifeline) in scene.lifelines.iter().enumerate() {
        assert_eq!(lifeline.participant_id, p);
    }
    // arrows first, then lifelines, the activation, heads and footers in turn, the note
    assert_eq!((scene.arrows[0].block, scene.arrows[1].block), (0, 1));
    assert_eq!((scene.lifelines[0].block, scene.lifelines[1].block), (2, 3));
    assert_eq!(scene.activations[0].block, 4);
    assert_eq!((scene.heads[0].block_id, scene.footers[0].block_id), (5, 6));
    assert_eq!((scene.heads[1].block_id, scene.footers[1].block_id), (7, 8));
    assert_eq!(scene.notes[0].block_id, 9);
}

#[test]
fn scene_has_the_constraints_of_every_element() {
    let diagram = example();
    let scene = arrange(&diagram, &config(), font());
    let layout = &scene.layout;
    let first = layout.b(scene.arrows[0].block);
    let second = layout.b(scene.arrows[1].block);
    let john = layout.b(scene.lifelines[0].block);
    let alice = layout.b(scene.lifelines[1].block);
    // the label: 24 characters of 500 units at 12 pixels, 6 each; 5 of padding above and below
    assert!(has(&scene, &strong(var(first.width), fixed(24 * 6))));
    assert!(has(&scene, &strong(var(first.height), fixed(12 + 10))));
    assert_eq!(first.line_height, 12);
    // one arrow below the other
    assert!(has(
        &scene,
        &required(two(1, first.y, 1, first.height, 20), Relation::LessOrEqual, var(second.y))
    ));
    // the second arrow of each participant on the edge of the first
    assert!(has(&scene, &equal(var(second.x), var(first.x))));
    assert!(has(&scene, &equal(right(second), right(first))));
    // the first arrow of each participant on its lifeline
    assert!(has(&scene, &equal(var(first.x), var(john.x))));
    assert!(has(&scene, &equal(right(first), var(alice.x))));
    // lifelines hang between the arrows and are level
    for lifeline in [john, alice] {
        assert!(has(&scene, &equal(var(lifeline.y), one(1, first.y, -20))));
        assert!(has(
            &scene,
            &required(
                bottom(lifeline),
                Relation::GreaterOrEqual,
                two(1, second.y, 1, second.height, 20)
            )
        ));
    }
    assert!(has(&scene, &equal(var(alice.y), var(john.y))));
    assert!(has(&scene, &equal(bottom(alice), bottom(john))));
    // the activation of John, level 1, from the first arrow to the second
    let activation = layout.b(scene.activations[0].block);
    assert!(has(&scene, &equal(var(activation.y), bottom(first))));
    assert!(has(&scene, &equal(bottom(activation), bottom(second))));
    assert!(has(&scene, &equal(var(activation.width), fixed(12))));
    assert!(has(&scene, &equal(one(2, activation.x, (3 - 1) * 12), one(2, john.x, 0))));
    // head and footer of Alice
    let head = layout.b(scene.heads[1].block_id);
    let footer = layout.b(scene.footers[1].block_id);
    assert!(has(&scene, &strong(var(head.width), fixed(5 * 6))));
    assert!(has(&scene, &equal(bottom(head), var(alice.y))));
    assert!(has(&scene, &equal(two(2, head.x, 1, head.width, 0), one(2, alice.x, 0))));
    assert!(has(&scene, &equal(var(footer.y), bottom(alice))));
    assert!(has(&scene, &equal(two(2, footer.x, 1, footer.width, 0), one(2, alice.x, 0))));
    // the note: left of John, who is the first; below the second message; lifelines pass it
    let note = layout.b(scene.notes[0].block_id);
    assert!(has(&scene, &required(right(note), Relation::LessOrEqual, one(1, john.x, -20))));
    assert!(has(&scene, &strong(var(note.y), two(1, second.y, 1, second.height, 20))));
    for lifeline in [john, alice] {
        assert!(has(
            &scene,
            &required(
                bottom(lifeline),
                Relation::GreaterOrEqual,
                two(1, note.y, 1, note.height, 20)
            )
        ));
    }
}

#[test]
fn nested_activations_step_to_the_right() {
    let input = "Alice->+John: q1\nAlice->+John: q2\nJohn->-Alice: a2\nJohn->-Alice: a1\n";
    let diagram = parse(input.to_string()).unwrap();
    let scene = arrange(&diagram, &config(), font());
    let john = scene.layout.b(scene.lifelines[1].block);
    let inner = scene.layout.b(scene.activations[0].block);
    let outer = scene.layout.b(scene.activations[1].block);
    assert!(has(&scene, &equal(one(2, inner.x, 12), one(2, john.x, 0))));
    assert!(has(&scene, &equal(one(2, outer.x, 24), one(2, john.x, 0))));
    let fifth = Activation { participant_id: 0, from: 0, to: 1, level: 5 };
    let deep = SequenceDiagram { activations: vec![fifth], ..diagram };
    let scene = arrange(&deep, &config(), font());
    let alice = scene.layout.b(scene.lifelines[0].block);
    let block = scene.layout.b(scene.activations[0].block);
    assert!(has(&scene, &equal(one(2, block.x, -24), one(2, alice.x, 0))));
}

#[test]
fn notes_beside_and_over_lifelines() {
    let input = "A->B: x\nB->C: y\nNote left of B: l\nNote right of B: r\nNote over C, A: o\n";
    let diagram = parse(input.to_string()).unwrap();
    let scene = arrange(&diagram, &config(), font());
    let a = scene.layout.b(scene.lifelines[0].block);
    let b = scene.layout.b(scene.lifelines[1].block);
    let c = scene.layout.b(scene.lifelines[2].block);
    let left = scene.layout.b(scene.notes[0].block_id);
    let beside = scene.layout.b(scene.notes[1].block_id);
    let over = scene.layout.b(scene.notes[2].block_id);
    assert!(has(&scene, &required(right(left), Relation::LessOrEqual, one(1, b.x, -20))));
    assert!(has(
        &scene,
        &required(var(left.x), Relation::GreaterOrEqual, two(1, a.x, 1, a.width, 20))
    ));
    assert!(has(
        &scene,
        &required(var(beside.x), Relation::GreaterOrEqual, two(1, b.x, 1, b.width, 20))
    ));
    assert!(has(&scene, &required(var(over.x), Relation::LessOrEqual, one(1, a.x, -20))));
    assert!(has(&scene, &required(right(over), Relation::GreaterOrEqual, one(1, c.x, 20))));
    let last = scene.layout.b(scene.arrows[1].block);
    assert!(has(&scene, &strong(var(left.y), two(1, last.y, 1, last.height, 20))));
    assert!(has(&scene, &strong(var(beside.y), two(1, left.y, 1, left.height, 20))));
    assert!(has(&scene, &strong(var(over.y), two(1, beside.y, 1, beside.height, 20))));
}

#[test]
fn first_note_follows_the_first_head() {
    let diagram = parse("Note over B: o\nA->B: x\n".to_string()).unwrap();
    assert_eq!(diagram.notes[0].vertical_position, VerticalNotePosition::First);
    let scene = arrange(&diagram, &config(), font());
    let head = scene.layout.b(scene.heads[0].block_id);
    let note = scene.layout.b(scene.notes[0].block_id);
    assert!(has(&scene, &strong(var(note.y), two(1, head.y, 1, head.height, 20))));
}

#[test]
fn pixel_size_is_the_scaled_font_size() {
    assert_eq!(SvgConfig::default(), config());
    assert_eq!(SvgConfig::default().msg_gutter, 20);
    assert_eq!(config().pixel_size(), 12);
    assert_eq!(SvgConfig { font_size: 7, font_scale_factor: 150, ..config() }.pixel_size(), 10);
    assert_eq!(
        SvgConfig { font_size: 60000, font_scale_factor: 60000, ..config() }.pixel_size(),
        65535
    );
}

#[test]
fn solved_blocks_lie_inside_the_layout() {
    let mut scene = arrange(&example(), &config(), font());
    solve(&mut scene.layout);
    assert!(scene.layout.width() > 0 && scene.layout.height() > 0);
    for id in 0..scene.layout.block_count() {
        let block = scene.layout.b(id);
        assert!(block.x_ >= 0 && block.y_ >= 0 && block.width_ >= 0 && block.height_ >= 0);
        assert!(block.x_ + block.width_ <= scene.layout.width());
        assert!(block.y_ + block.height_ <= scene.layout.height());
    }
    assert_eq!(scene.layout.constraints(), &vec![]);
}

#[test]
fn solved_lifelines_are_level() {
    let mut scene = arrange(&example(), &config(), font());
    solve(&mut scene.layout);
    let first = scene.layout.b(scene.lifelines[0].block);
    for lifeline in &scene.lifelines {
        let block = scene.layout.b(lifeline.block);
        assert_eq!(block.y_, first.y_);
        assert_eq!(block.y_ + block.height_, first.y_ + first.height_);
    }
    assert!(first.height_ > 0);
}

#[test]
fn solved_arrows_meet_the_lifelines() {
    let input = "A->B: one\nC->A: two\nB->B: three\nB->C: four\n";
    let diagram = parse(input.to_string()).unwrap();
    let mut scene = arrange(&diagram, &config(), font());
    solve(&mut scene.layout);
    for arrow in &scene.arrows {
        let block = scene.layout.b(arrow.block);
        let left = scene.layout.b(scene.lifelines[arrow.left].block);
        assert_eq!(block.x_, left.x_);
        if arrow.left != arrow.right {
            let right = scene.layout.b(scene.lifelines[arrow.right].block);
            assert_eq!(block.x_ + block.width_, right.x_);
        }
    }
}

#[test]
fn single_participant_without_messages() {
    let diagram = parse("participant Alice\n".to_string()).unwrap();
    let mut scene = arrange(&diagram, &config(), font());
    assert_eq!((scene.heads.len(), scene.footers.len(), scene.lifelines.len()), (1, 1, 1));
    assert_eq!(scene.arrows.len(), 0);
    let required_flat = equal(var(scene.layout.b(scene.lifelines[0].block).height), fixed(0));
    assert!(has(&scene, &required_flat));
    solve(&mut scene.layout);
    let lifeline = scene.layout.b(scene.lifelines[0].block);
    assert_eq!(lifeline.height_, 0);
    let head = scene.layout.b(scene.heads[0].block_id);
    let footer = scene.layout.b(scene.footers[0].block_id);
    assert_eq!(head.y_ + head.height_, lifeline.y_);
    assert_eq!(footer.y_, lifeline.y_);
    let drawing = to_svg(&scene, &config());
    assert_eq!(drawing.groups.len(), 3);
}

#[test]
fn empty_diagram_is_an_empty_drawing() {
    let diagram = parse("".to_string()).unwrap();
    let mut scene = arrange(&diagram, &config(), font());
    assert_eq!(scene.layout.block_count(), 0);
    solve(&mut scene.layout);
    assert_eq!(to_svg(&scene, &config()), SvgDocument { width: 0, height: 0, groups: vec![] });
}

fn text(y: i128, content: &str) -> Shape {
    Shape::Text { x: 5, y, font_size: 10, content: content.to_string() }
}

#[test]
fn drawing_of_a_solved_scene() {
    let diagram = SequenceDiagram {
        participants: vec![
            Participant { id: 0, name: "Alice Liddell".to_string() },
            Participant { id: 1, name: "Bob".to_string() },
        ],
        messages: vec![
            Message {
                id: 0,
                left: 0,
                right: 1,
                msg: "to the right".to_string(),
                arrow: Arrow::SolidNoArrow,
                direction: ArrowDirection::ToRight,
            },
            Message {
                id: 1,
                left: 0,
                right: 1,
                msg: "to the left".to_string(),
                arrow: Arrow::DottedNoArrow,
                direction: ArrowDirection::ToLeft,
            },
        ],
        activations: vec![Activation { participant_id: 1, from: 0, to: 1, level: 1 }],
        notes: vec![Note {
            id: 0,
            content: "n".to_string(),
            horizontal_position: HorizontalNotePosition::RightOf(1),
            vertical_position: VerticalNotePosition::AfterMessage(1),
        }],
    };
    let config = SvgConfig { max_msg_label_length: 6, ..config() };
    let mut scene = arrange(&diagram, &config, font());
    // every block gets the values x = 100 + id, y = 200 + id, width = 300 + id, height = 400 + id
    let mut changes = vec![Change { variable: 0, value: 1000 }, Change { variable: 1, value: 2000 }];
    for id in 0..scene.layout.block_count() {
        let block = *scene.layout.b(id);
        changes.push(Change { variable: block.x, value: 100 + id as i128 });
        changes.push(Change { variable: block.y, value: 200 + id as i128 });
        changes.push(Change { variable: block.width, value: 300 + id as i128 });
        changes.push(Change { variable: block.height, value: 400 + id as i128 });
    }
    scene.layout.solve(&changes);
    let drawing = to_svg(&scene, &config);
    assert_eq!((drawing.width, drawing.height), (1000, 2000));
    assert_eq!(drawing.groups.len(), 2 + 2 + 2 + 1 + 2 + 1);
    let rect = |id: i128, fill: Paint| Shape::Rect {
        width: 300 + id,
        height: 400 + id,
        fill,
        stroke: Paint::Black,
        corner_radius: Some(2),
    };
    // blocks: arrows 0 1, lifelines 2 3, activation 4, head and footer 5 6 and 7 8, note 9
    let head = Group {
        x: 105,
        y: 205,
        shapes: vec![
            rect(5, Paint::Transparent),
            text(5 + 12, "Alice"),
            text(5 + 24, "Lidde"),
            text(5 + 36, "ll"),
        ],
    };
    assert_eq!(drawing.groups[0], head);
    assert_eq!(scene.heads[0].to_svg(&scene.layout, &config), head);
    assert_eq!(
        drawing.groups[1],
        Group { x: 107, y: 207, shapes: vec![rect(7, Paint::Transparent), text(17, "Bob")] }
    );
    assert_eq!(
        drawing.groups[2],
        Group {
            x: 106,
            y: 206,
            shapes: vec![
                rect(6, Paint::Transparent),
                text(17, "Alice"),
                text(29, "Lidde"),
                text(41, "ll")
            ]
        }
    );
    assert_eq!(
        drawing.groups[4],
        Group {
            x: 102,
            y: 202,
            shapes: vec![Shape::Line { x1: 0, y1: 0, x2: 0, y2: 402, tip: None }]
        }
    );
    assert_eq!(scene.lifelines[1].to_svg(&scene.layout, &config), Group {
        x: 103,
        y: 203,
        shapes: vec![Shape::Line { x1: 0, y1: 0, x2: 0, y2: 403, tip: None }]
    });
    let activation = Group {
        x: 104,
        y: 204,
        shapes: vec![Shape::Rect {
            width: 304,
            height: 404,
            fill: Paint::Gray,
            stroke: Paint::DarkGray,
            corner_radius: None,
        }],
    };
    assert_eq!(drawing.groups[6], activation);
    assert_eq!(scene.activations[0].to_svg(&scene.layout, &config), activation);
    assert_eq!(ARROW_TIP_LENGTH, 10);
    let to_right = Group {
        x: 100,
        y: 200,
        shapes: vec![
            Shape::Line { x1: 0, y1: 400, x2: 300 - 10, y2: 400, tip: Some(Tip::End) },
            text(5 + 2 * 12, "to the"),
            text(5 + 2 * 12 - 12, "right"),
        ],
    };
    assert_eq!(drawing.groups[7], to_right);
    assert_eq!(scene.arrows[0].to_svg(&scene.layout, &config), to_right);
    assert_eq!(
        drawing.groups[8],
        Group {
            x: 101,
            y: 201,
            shapes: vec![
                Shape::Line { x1: 0, y1: 401, x2: 301, y2: 401, tip: Some(Tip::Start) },
                text(29, "to the"),
                text(17, "left"),
            ]
        }
    );
    let note = Group { x: 109, y: 209, shapes: vec![rect(9, Paint::LightGray), text(17, "n")] };
    assert_eq!(drawing.groups[9], note);
    assert_eq!(scene.notes[0].to_svg(&scene.layout, &config), note);
}

#[test]
fn rendering_twice_gives_the_same() {
    let mut first = arrange(&example(), &config(), font());
    let mut second = arrange(&example(), &config(), font());
    assert_eq!(first.layout.constraints(), second.layout.constraints());
    assert_eq!(first.layout.constraints().len(), 101);
    assert_eq!(first.arrows, second.arrows);
    assert_eq!(first.notes, second.notes);
    for id in 0..first.layout.block_count() {
        assert_eq!(first.layout.b(id), second.layout.b(id));
    }
    let changes = solution(&first.layout);
    first.layout.solve(&changes);
    second.layout.solve(&changes);
    let drawing = to_svg(&first, &config());
    assert_eq!(drawing, to_svg(&second, &config()));
    assert_eq!(drawing, to_svg(&first, &config()));
    assert_eq!(drawing.groups.len(), 10);
}

#[test]
fn scenes_and_layouts_are_well_formed() {
    let mut scene = arrange(&example(), &config(), font());
    assert!(scene.layout.is_well_formed());
    assert!(scene.is_well_formed());
    solve(&mut scene.layout);
    assert!(scene.is_well_formed());
    scene.arrows[1].block = 10;
    assert!(!scene.is_well_formed());
    scene.arrows[1].block = 9;
    assert!(scene.is_well_formed());
    scene.notes[0].block_id = 11;
    assert!(!scene.is_well_formed());
    assert!(scene.layout.is_well_formed());
    assert!(Layout::new(font()).is_well_formed());
}

#[test]
fn lifelines_without_messages_have_no_extent() {
    let diagram = parse("participant A\nactor B\nNote right of A: hi\nNote over A, B: ho\n".to_string()).unwrap();
    let mut scene = arrange(&diagram, &config(), font());
    solve(&mut scene.layout);
    for p in 0..2 {
        let lifeline = scene.layout.b(scene.lifelines[p].block);
        let head = scene.layout.b(scene.heads[p].block_id);
        let footer = scene.layout.b(scene.footers[p].block_id);
        assert_eq!(lifeline.height_, 0);
        assert_eq!(head.y_ + head.height_, footer.y_);
    }
    let with_message = arrange(&example(), &config(), font());
    let lifeline = with_message.layout.b(with_message.lifelines[0].block);
    assert!(!has(&with_message, &equal(var(lifeline.height), fixed(0))));
}

#[test]
fn solved_scene_with_odd_widths_keeps_its_edges_together() {
    // 583 units at 12 pixels to the em of 1000 units: 7 for a character, so that names of odd
    // length have heads of odd width, whose middle lies on half a unit
    let odd = FontMetrics { fallback_advance: 583, ..font() };
    let input = "Alice->Bob: one\nBob->Carol: three\nCarol->Alice: seven\nNote right of Bob: n\n";
    let diagram = parse(input.to_string()).unwrap();
    let mut scene = arrange(&diagram, &config(), odd);
    solve(&mut scene.layout);
    for id in 0..scene.layout.block_count() {
        let block = scene.layout.b(id);
        assert!(block.x_ >= 0 && block.y_ >= 0 && block.width_ >= 0 && block.height_ >= 0);
        assert!(block.x_ + block.width_ <= scene.layout.width());
        assert!(block.y_ + block.height_ <= scene.layout.height());
    }
    let first = scene.layout.b(scene.lifelines[0].block);
    for lifeline in &scene.lifelines {
        let block = scene.layout.b(lifeline.block);
        assert_eq!(block.y_, first.y_);
        assert_eq!(block.y_ + block.height_, first.y_ + first.height_);
    }
    for arrow in &scene.arrows {
        let block = scene.layout.b(arrow.block);
        assert_eq!(block.x_, scene.layout.b(scene.lifelines[arrow.left].block).x_);
        assert_eq!(
            block.x_ + block.width_,
            scene.layout.b(scene.lifelines[arrow.right].block).x_
        );
    }
}
