//! A loader for a line-oriented, tag-prefixed polygon-mesh text format.
//!
//! The input lists vertex attributes (`v`, `vn`, `vt` records) and triangular
//! faces (`f` records) whose corners cross-reference the attribute lists by
//! one-based index triples.  The loader parses those records and then welds
//! the face corners into a deduplicated vertex stream: each distinct
//! (position, texcoord, normal) index triple appears exactly once in the
//! output buffers, and faces address it through a shared integer index.
//!
//! Numeric attribute components are carried through as the validated source
//! tokens (byte strings).  Turning a token into a machine float, and the
//! downstream convention that the second texture coordinate is flipped to
//! `1 - v`, are conversions for the embedding program; welding is exact on
//! index triples and never inspects the component values.

pub mod loader;
pub mod mesh;
pub mod parse;
pub mod token;
pub mod weld;
