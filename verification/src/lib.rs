//! Verified core of a floor-plan estimating editor: the point-first plan
//! model and its topology operations, snapshot undo/redo, editor decisions,
//! price-list vocabulary, save-file naming and calendar helpers.

pub mod ids;
pub mod seqs;
pub mod contour;
pub mod dates;
pub mod civil;
pub mod price;
pub mod model;
pub mod plan_laws;
pub mod history;
pub mod editor;
pub mod persistence;
pub mod wall_tool;
