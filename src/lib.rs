//! Verified core of a scatter-gather collation step for single-cell
//! alignment (RAD) files: bucket planning, unmapped-count folding,
//! header rewriting and the small decisions around them.
pub mod bytes;
pub mod unmapped;
pub mod planner;
pub mod header;
pub mod text;
pub mod settings;
pub mod pipeline;
pub mod collation;
