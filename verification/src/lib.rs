//! Extracts structured API documentation from Lua source text.
//!
//! The scanner walks a source text line by line. A run of annotation
//! comment lines (`--@tag ...`) forms a doc block; the block is parsed
//! into a class context, a merged description, ordered parameters and
//! ordered return values. A bounded lookahead window after the block is
//! searched for a function declaration; the declared name, together with
//! the block's class context, yields the category under which the
//! documented function is filed. The resulting `Documentation` maps
//! category names to documented functions in discovery order, and can be
//! written to and read back from a JSON interchange format.

pub mod text;
pub mod model;
pub mod tags;
pub mod locate;
pub mod scan;
pub mod laws;
pub mod codec;
