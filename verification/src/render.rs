//! Rendering a source text, in the two steps between which the layout is solved: from the text
//! to a scene whose layout holds the constraints, and from the scene and the values that a
//! solver found to the document.

use crate::builder::{parse, parsed, DiagramError};
use crate::diagram::SequenceDiagramView;
use crate::document::{document, document_markup, markup};
use crate::layout::{lemma_store_all, Change};
use crate::metrics::FontMetrics;
use crate::scene::{arrange, Scene, SvgConfig};
use crate::svg::to_svg;
use vstd::prelude::*;

verus! {

/// Reads the diagram that `src` describes and lays it out with `config`, measuring texts with
/// `font`. The scene is that of the diagram; its layout holds the constraints to be solved. If
/// the text is no diagram, the error says why.
pub fn lay_out(src: String, config: &SvgConfig, font: FontMetrics) -> (laid: Result<
    Scene,
    DiagramError,
>)
    requires
        font@.wf(),
    ensures
        match laid {
            Ok(scene) => parsed(src@) matches Ok(d) && scene.arranges(d, *config, font@),
            Err(e) => parsed(src@) == Err::<SequenceDiagramView, _>(e@),
        },
{
    match parse(src) {
        Ok(diagram) => Ok(arrange(&diagram, config, font)),
        Err(e) => Err(e),
    }
}

/// Takes the values `changes` that a solver found for the constraints of the scene, and draws
/// the scene: the layout is solved with these values, and the document is that of the drawing
/// of the solved scene.
pub fn draw(scene: &mut Scene, changes: &Vec<Change>, config: &SvgConfig) -> (e:
    svg::node::element::Element)
    requires
        old(scene).wf(),
    ensures
        final(scene).wf(),
        final(scene).layout@ == old(scene).layout@.solved(changes@),
        final(scene).heads == old(scene).heads,
        final(scene).footers == old(scene).footers,
        final(scene).lifelines == old(scene).lifelines,
        final(scene).activations == old(scene).activations,
        final(scene).arrows == old(scene).arrows,
        final(scene).notes == old(scene).notes,
        markup(e) == document_markup(final(scene).drawing(*config)),
{
    proof {
        lemma_store_all(scene.layout@, changes@);
    }
    scene.layout.solve(changes);
    let drawing = to_svg(scene, config);
    document(&drawing)
}

} // verus!
