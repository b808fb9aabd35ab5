//! Relational query plans that are rewritten while they are built.
//!
//! A plan is assembled bottom-up from scans by the constructors `select`,
//! `join`, `map`, `project` and `flatmap` of [`ir::RelExpr`]. Each
//! constructor applies the rewrite that fits where it stands: selections
//! are merged, join predicates are pushed down to the input that can decide
//! them, scalar subqueries in computed columns are hoisted into dependent
//! joins, and dependent joins are decorrelated into ordinary joins. The
//! rules for subqueries are switched on per session in a [`state::State`],
//! which also hands out the column identifiers.
//!
//! Every constructor is specified by a function of the same name on the
//! mathematical trees of [`ir`], and proved to compute it.
//!
//! - [`ir`]: expressions and plans, as owned trees and as mathematical trees.
//! - [`state`]: the session: identifier allocator and rule switches.
//! - [`analysis`]: attribute sets, free variables, subquery detection.
//! - [`filter`]: `select` and `join`.
//! - [`rewrite`]: `map`, `hoist`, `flatmap` and `project`.
//! - [`weight`]: the measure by which the rewriting ends.
//! - [`laws`]: what the constructors guarantee.
//! - [`wellformed`], [`hygiene`], [`keeping`]: the invariants of plans, and
//!   that the constructors keep them.
//! - [`render`], [`text`]: the textual form of plans.
//! - [`colset`], [`duplicate`]: column sets and deep copies.
pub mod analysis;
pub mod colset;
pub mod duplicate;
pub mod filter;
pub mod hygiene;
pub mod ir;
pub mod keeping;
pub mod laws;
pub mod render;
pub mod rewrite;
pub mod state;
pub mod text;
pub mod weight;
pub mod wellformed;
