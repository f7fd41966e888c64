use seqdiagram::constraint::{Constraint, Expression, Relation, Strength, Term};
use seqdiagram::layout::{
    AlignmentAnchor, Block, BlockVariable, Change, Layout, Orientation, GLYPH_SIZE,
};
use seqdiagram::metrics::{FontMetrics, GlyphAdvance};

fn font() -> FontMetrics {
    FontMetrics {
        units_per_em: 1000,
        ascent: 800,
        descent: -200,
        advances: vec![
            GlyphAdvance { ch: 'a', advance: 500 },
            GlyphAdvance { ch: 'b', advance: 600 },
            GlyphAdvance { ch: 'a', advance: 900 },
        ],
        fallback_advance: 400,
    }
}

fn var(v: usize) -> Expression {
    Expression { terms: vec![Term { variable: v, coefficient: 1 }], constant: 0 }
}

fn sum(a: usize, b: usize, constant: i128) -> Expression {
    Expression {
        terms: vec![Term { variable: a, coefficient: 1 }, Term { variable: b, coefficient: 1 }],
        constant,
    }
}

fn middle(a: usize, b: usize) -> Expression {
    Expression {
        terms: vec![Term { variable: a, coefficient: 2 }, Term { variable: b, coefficient: 1 }],
        constant: 0,
    }
}

fn fixed(constant: i128) -> Expression {
    Expression { terms: vec![], constant }
}

fn required(lhs: Expression, relation: Relation, rhs: Expression) -> Constraint {
    Constraint { lhs, relation, rhs, strength: Strength::Required }
}

fn strong(lhs: Expression, rhs: Expression) -> Constraint {
    Constraint { lhs, relation: Relation::Equal, rhs, strength: Strength::Strong }
}

fn block_constraints(first: usize) -> Vec<Constraint> {
    vec![
        required(var(first), Relation::GreaterOrEqual, fixed(0)),
        required(var(first + 1), Relation::GreaterOrEqual, fixed(0)),
        required(var(first + 2), Relation::GreaterOrEqual, fixed(0)),
        required(var(first + 3), Relation::GreaterOrEqual, fixed(0)),
        required(var(0), Relation::GreaterOrEqual, sum(first, first + 2, 0)),
        required(var(1), Relation::GreaterOrEqual, sum(first + 1, first + 3, 0)),
    ]
}

#[test]
fn measuring_adds_up_advances_and_rounds_up() {
    let font = font();
    assert!(font.is_valid());
    assert_eq!(font.advance_of('a'), 500);
    assert_eq!(font.advance_of('b'), 600);
    assert_eq!(font.advance_of('z'), 400);
    // 1100 units at 12 pixels to the em of 1000 units: 13.2
    assert_eq!(font.measure("ab", 12), (14, 12));
    // 1500 units: 18 exactly
    assert_eq!(font.text_width_at("abc", 12), 18);
    assert_eq!(font.text_width_at("", 12), 0);
    // 1000 units of height at 7 pixels: 7; at an em of 3000 units: 2.33..
    assert_eq!(font.line_height_at(7), 7);
    let tall = FontMetrics { units_per_em: 3000, ..font };
    assert_eq!(tall.line_height_at(7), 3);
    let broken = FontMetrics { units_per_em: 0, ..tall };
    assert!(!broken.is_valid());
}

#[test]
fn new_layout_is_empty() {
    let layout = Layout::new(font());
    assert_eq!(layout.block_count(), 0);
    assert_eq!(layout.variable_count(), 2);
    assert_eq!(layout.constraints(), &vec![]);
    assert_eq!((layout.width(), layout.height()), (0, 0));
    assert_eq!(GLYPH_SIZE, 12);
    assert_eq!(layout.glyphs_height(), 12);
}

#[test]
fn block_gets_four_variables_and_six_constraints() {
    let mut layout = Layout::new(font());
    assert_eq!(layout.add_block(), 0);
    assert_eq!(layout.add_block(), 1);
    assert_eq!(layout.variable_count(), 10);
    let first = *layout.b(0);
    assert_eq!(
        first,
        Block {
            x: 2,
            y: 3,
            width: 4,
            height: 5,
            x_: 0,
            y_: 0,
            width_: 0,
            height_: 0,
            line_height: 0
        }
    );
    assert_eq!((first.left(), first.top()), (2, 3));
    assert_eq!(first.right(), sum(2, 4, 0));
    assert_eq!(first.bottom(), sum(3, 5, 0));
    let second = *layout.b(1);
    assert_eq!((second.x, second.y, second.width, second.height), (6, 7, 8, 9));
    let mut expected = block_constraints(2);
    expected.extend(block_constraints(6));
    assert_eq!(layout.constraints(), &expected);
}

#[test]
fn new_block_and_new_variable_alone() {
    let mut layout = Layout::new(font());
    assert_eq!(layout.add_var(0, BlockVariable::Height), 2);
    let block = Block::new(&mut layout, 0);
    assert_eq!((block.x, block.y, block.width, block.height), (3, 4, 5, 6));
    assert_eq!(layout.block_count(), 0);
    assert_eq!(layout.constraints().len(), 4);
    // the variables stand for a block that is not there: their values are passed over
    layout.solve(&vec![Change { variable: 2, value: 9 }, Change { variable: 3, value: 9 }]);
    assert_eq!(layout.block_count(), 0);
    assert_eq!((layout.width(), layout.height()), (0, 0));
}

#[test]
fn text_block_is_wrapped_and_sized() {
    let mut layout = Layout::new(font());
    let (id, lines) = layout.add_text_block(&"foo bar baz".to_string(), 5, 5, 12);
    assert_eq!(id, 0);
    assert_eq!(lines, vec!["foo".to_string(), "bar".to_string(), "baz".to_string()]);
    // "bar": 600 + 500 + 400 units at 12 pixels: 18; "foo": 3 * 400: 14.4; "baz": 600 + 500 + 400
    let block = *layout.b(id);
    assert_eq!(block.line_height, 12);
    let mut expected = block_constraints(2);
    expected.push(strong(var(4), fixed(18)));
    expected.push(strong(var(5), fixed(3 * 12 + 2 * 5)));
    assert_eq!(layout.constraints(), &expected);
}

#[test]
fn text_that_fits_stays_on_one_line() {
    let mut layout = Layout::new(font());
    let (_, lines) = layout.add_text_block(&"Hello John, how are you?".to_string(), 60, 0, 10);
    assert_eq!(lines, vec!["Hello John, how are you?".to_string()]);
    let (_, lines) = layout.add_text_block(&"Alice".to_string(), 0, 0, 10);
    assert_eq!(lines, vec!["A", "l", "i", "c", "e"]);
}

#[test]
fn distribute_spaces_neighbours() {
    let mut layout = Layout::new(font());
    for _ in 0..3 {
        layout.add_block();
    }
    let before = layout.constraints().len();
    layout.distribute(Orientation::Vertical, 20, &vec![0, 2, 1]);
    assert_eq!(
        layout.constraints()[before..],
        [
            required(sum(3, 5, 20), Relation::LessOrEqual, var(11)),
            required(sum(11, 13, 20), Relation::LessOrEqual, var(7)),
        ]
    );
    let before = layout.constraints().len();
    layout.distribute(Orientation::Horizontal, 7, &vec![1, 0]);
    assert_eq!(
        layout.constraints()[before..],
        [required(sum(6, 8, 7), Relation::LessOrEqual, var(2))]
    );
    let before = layout.constraints().len();
    layout.distribute(Orientation::Horizontal, 7, &vec![1]);
    layout.distribute(Orientation::Horizontal, 7, &vec![]);
    assert_eq!(layout.constraints().len(), before);
}

#[test]
fn align_ties_neighbours() {
    let mut layout = Layout::new(font());
    for _ in 0..2 {
        layout.add_block();
    }
    let cases = [
        (Orientation::Vertical, AlignmentAnchor::Start, var(3), var(7)),
        (Orientation::Vertical, AlignmentAnchor::Middle, middle(3, 5), middle(7, 9)),
        (Orientation::Vertical, AlignmentAnchor::End, sum(3, 5, 0), sum(7, 9, 0)),
        (Orientation::Horizontal, AlignmentAnchor::Start, var(2), var(6)),
        (Orientation::Horizontal, AlignmentAnchor::Middle, middle(2, 4), middle(6, 8)),
        (Orientation::Horizontal, AlignmentAnchor::End, sum(2, 4, 0), sum(6, 8, 0)),
    ];
    for (orientation, anchor, prev, next) in cases {
        let before = layout.constraints().len();
        layout.align(orientation, anchor, &vec![0, 1]);
        assert_eq!(layout.constraints()[before..], [required(prev, Relation::Equal, next)]);
    }
}

#[test]
fn add_constraint_appends() {
    let mut layout = Layout::new(font());
    let constraint = Constraint::new(var(0), Relation::LessOrEqual, Strength::Weak, fixed(100));
    assert_eq!(constraint.strength, Strength::Weak);
    layout.add_constraint(constraint);
    layout.add_constraint(Constraint::required(
        Expression::one(3, 1, -4),
        Relation::Equal,
        Expression::two(1, 0, 2, 1, 5),
    ));
    layout.add_constraint(Constraint::strong(Expression::variable(1), Expression::constant(8)));
    assert_eq!(
        layout.constraints(),
        &vec![
            Constraint {
                lhs: var(0),
                relation: Relation::LessOrEqual,
                rhs: fixed(100),
                strength: Strength::Weak
            },
            required(
                Expression { terms: vec![Term { variable: 1, coefficient: 3 }], constant: -4 },
                Relation::Equal,
                Expression {
                    terms: vec![
                        Term { variable: 0, coefficient: 1 },
                        Term { variable: 1, coefficient: 2 }
                    ],
                    constant: 5
                }
            ),
            strong(var(1), fixed(8)),
        ]
    );
}

#[test]
fn solve_stores_values_and_clears_constraints() {
    let mut layout = Layout::new(font());
    layout.add_block();
    layout.add_block();
    layout.solve(&vec![
        Change { variable: 0, value: 100 },
        Change { variable: 1, value: 50 },
        Change { variable: 2, value: 10 },
        Change { variable: 3, value: -3 },
        Change { variable: 4, value: 30 },
        Change { variable: 5, value: 40 },
        Change { variable: 8, value: 7 },
        Change { variable: 2, value: 11 },
        Change { variable: 99, value: 5 },
    ]);
    assert_eq!((layout.width(), layout.height()), (100, 50));
    let first = layout.b(0);
    assert_eq!((first.x_, first.y_, first.width_, first.height_), (11, 0, 30, 40));
    let second = layout.b(1);
    assert_eq!((second.x_, second.y_, second.width_, second.height_), (0, 0, 7, 0));
    assert_eq!(layout.constraints(), &vec![]);
    assert_eq!(layout.variable_count(), 10);
    layout.solve(&vec![Change { variable: 0, value: -1 }]);
    assert_eq!((layout.width(), layout.height()), (0, 50));
    assert_eq!(layout.b(0).width_, 30);
}

#[test]
fn add_adds() {
    assert_eq!(seqdiagram::add(2, 3), 5);
    assert_eq!(seqdiagram::add(u32::MAX, 0), u32::MAX);
}

#[test]
fn block_for_given_lines_is_sized_for_them() {
    let mut layout = Layout::new(font());
    let lines = vec!["ab".to_string(), "abc".to_string(), "".to_string()];
    assert_eq!(layout.add_lines_block(&lines, 7, 12), 0);
    // "ab": 1100 units at 12 pixels, 13.2; "abc": 1500 units, 18; three lines of 12 and 7 twice
    let mut expected = block_constraints(2);
    expected.push(strong(var(4), fixed(18)));
    expected.push(strong(var(5), fixed(3 * 12 + 2 * 7)));
    assert_eq!(layout.constraints(), &expected);
    assert_eq!(layout.b(0).line_height, 12);
    let before = layout.constraints().len();
    assert_eq!(layout.add_lines_block(&vec![], 0, 12), 1);
    assert_eq!(
        layout.constraints()[before + 6..],
        [strong(var(8), fixed(0)), strong(var(9), fixed(0))]
    );
}
