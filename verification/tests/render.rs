use seqdiagram::builder::DiagramError;
use seqdiagram::constraint::{Relation, Strength};
use seqdiagram::grammar::{Expected, ParseError};
use seqdiagram::layout::{Change, Layout};
use seqdiagram::metrics::FontMetrics;
use seqdiagram::render::{draw, lay_out};
use seqdiagram::scene::SvgConfig;

fn font() -> FontMetrics {
    FontMetrics {
        units_per_em: 1000,
        ascent: 800,
        descent: -200,
        advances: vec![],
        fallback_advance: 500,
    }
}

fn config() -> SvgConfig {
    SvgConfig {
        max_participant_head_length: 5,
        max_msg_label_length: 60,
        font_scale_factor: 120,
        msg_gutter: 20,
        font_size: 10,
        padding: 5,
        corner_radius: 2,
    }
}

fn solution(layout: &Layout) -> Vec<Change> {
    let variables: Vec<cassowary::Variable> =
        (0..layout.variable_count()).map(|_| cassowary::Variable::new()).collect();
    let side = |e: &seqdiagram::constraint::Expression| {
        let terms = e
            .terms
            .iter()
            .map(|t| cassowary::Term {
                variable: variables[t.variable],
                coefficient: t.coefficient as f64,
            })
            .collect();
        cassowary::Expression::new(terms, e.constant as f64)
    };
    let mut solver = cassowary::Solver::new();
    for c in layout.constraints() {
        let relation = match c.relation {
            Relation::LessOrEqual => cassowary::RelationalOperator::LessOrEqual,
            Relation::Equal => cassowary::RelationalOperator::Equal,
            Relation::GreaterOrEqual => cassowary::RelationalOperator::GreaterOrEqual,
        };
        let strength = match c.strength {
            Strength::Required => cassowary::strength::REQUIRED,
            Strength::Strong => cassowary::strength::STRONG,
            Strength::Medium => cassowary::strength::MEDIUM,
            Strength::Weak => cassowary::strength::WEAK,
        };
        solver
            .add_constraint(cassowary::Constraint::new(side(&c.lhs) - side(&c.rhs), relation, strength))
            .unwrap();
    }
    let mut found = vec![0.0_f64; variables.len()];
    for (v, value) in solver.fetch_changes() {
        found[variables.iter().position(|known| known == v).unwrap()] = *value;
    }
    // of a block the two edges are rounded, not the edge and the extent
    let whole = |value: f64| value.round() as i128;
    let mut changes: Vec<Change> = found
        .iter()
        .enumerate()
        .map(|(variable, value)| Change { variable, value: whole(*value) })
        .collect();
    for id in 0..layout.block_count() {
        let block = layout.b(id);
        changes[block.width].value =
            whole(found[block.x] + found[block.width]) - whole(found[block.x]);
        changes[block.height].value =
            whole(found[block.y] + found[block.height]) - whole(found[block.y]);
    }
    changes
}

const EXAMPLE: &str = "participant John\nAlice->+John: Hello John, how are you?\nJohn->-Alice: I feel great!\nNote left of John: yeah\n";

#[test]
fn example_is_rendered() {
    let mut scene = lay_out(EXAMPLE.to_string(), &config(), font()).unwrap();
    assert_eq!(scene.layout.block_count(), 10);
    let changes = solution(&scene.layout);
    let written = draw(&mut scene, &changes, &config()).to_string();
    let width = scene.layout.width();
    let height = scene.layout.height();
    assert!(width > 0 && height > 0);
    assert!(written.starts_with(&format!(
        "<svg viewBox=\"0 0 {} {}\" xmlns=\"http://www.w3.org/2000/svg\">\n<defs>\n",
        width, height
    )));
    assert!(written.ends_with("</g>\n</svg>"));
    assert_eq!(written.matches("<g transform=").count(), 10);
    assert_eq!(written.matches("<text ").count(), 7);
    assert_eq!(written.matches("<rect ").count(), 6);
    assert_eq!(written.matches("<line ").count(), 4);
    assert!(written.contains(">Hello John, how are you?</text>"));
    assert!(written.contains("marker-start=\"url(#start-arrow)\""));
    assert!(written.contains("marker-end=\"url(#end-arrow)\""));
    assert!(written.contains("fill=\"#DDD\""));
    // the heads come first and the note last
    let john = written.find(">John</text>").unwrap();
    let note = written.find(">yeah</text>").unwrap();
    assert!(john < note);
    assert_eq!(scene.layout.constraints(), &vec![]);
}

#[test]
fn rendering_twice_with_the_same_values_is_the_same() {
    let mut first = lay_out(EXAMPLE.to_string(), &config(), font()).unwrap();
    let mut second = lay_out(EXAMPLE.to_string(), &config(), font()).unwrap();
    let changes = solution(&first.layout);
    let one = draw(&mut first, &changes, &config()).to_string();
    let other = draw(&mut second, &changes, &config()).to_string();
    assert_eq!(one, other);
    assert!(one.len() > 1000);
}

#[test]
fn text_that_is_no_diagram_is_not_laid_out() {
    let laid = lay_out("Alice Bob\n".to_string(), &config(), font());
    assert_eq!(
        laid.err(),
        Some(DiagramError::Parse(ParseError { offset: 9, expected: Expected::Arrow }))
    );
    let laid = lay_out("A->B: x\nNote over C: y".to_string(), &config(), font());
    assert_eq!(laid.err(), Some(DiagramError::UnknownParticipant { name: "C".to_string() }));
}
