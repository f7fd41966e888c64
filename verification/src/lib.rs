//! Sequence diagrams: from a textual description to a laid-out drawing.
//!
//! A source text is read into a diagram (`grammar`, `parser`, `builder`, `diagram`). The
//! diagram is laid out as blocks with linear constraints between them (`constraint`, `layout`,
//! `metrics`, `scene`); that the constraints can always be met is shown in `feasible`. A solver
//! of linear constraints, which is not part of this library, finds the values of the
//! variables; with them the scene is drawn (`svg`) and written as a document (`document`).
//! `render` ties the steps together.

use vstd::prelude::*;

pub mod builder;
pub mod constraint;
pub mod diagram;
pub mod document;
pub mod feasible;
pub mod grammar;
pub mod layout;
pub mod metrics;
pub mod parser;
pub mod render;
pub mod scene;
pub mod svg;
pub mod text;

verus! {

/// The sum of two numbers that is no more than a `u32` holds.
pub fn add(a: u32, b: u32) -> (sum: u32)
    requires
        a + b <= u32::MAX,
    ensures
        sum == a + b,
{
    a + b
}

} // verus!
