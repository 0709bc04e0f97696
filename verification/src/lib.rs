//! A streaming document-transformation pipeline: an ordered list of passes,
//! each matching elements by a structural selector and applying actions to
//! them (suppress output, rewrite an attribute, replace inner content with a
//! rendered template), chained so that one pass's visible output becomes the
//! next pass's input.
//!
//! The structural matcher itself (turning bytes into element open/close
//! events) and the frontend are supplied by the embedding program; this crate
//! holds the pipeline description, the per-pass visibility state, and the
//! action engine that the embedding program drives with those events.

pub mod capability;
pub mod cli;
pub mod element;
pub mod exec;
pub mod pipeline;
pub mod visibility;
