//! Style resolution for a small document-rendering engine.
//!
//! Given a document tree, a stylesheet and a viewport, the library computes
//! the effective set of presentation properties for every node: user-agent
//! defaults, author rules, property inheritance and viewport-conditioned
//! (media) overrides, merged property by property with last-write-wins
//! semantics.
//!
//! All CSS lengths are carried as integers counted in thousandths of a pixel
//! (milli-pixels), so `16px` is `16_000` and `0.3em` is `4_800`. Decimal
//! string values are read to that precision; digits beyond the third
//! fractional place are ignored.

pub mod dom;
pub mod laws;
pub mod num;
pub mod sheet;
pub mod style;
pub mod text;
pub mod viewport;
