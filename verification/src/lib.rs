//! A reflowable-document typesetting core.
//!
//! The crate turns styled inline content into positioned draw commands for a
//! fixed-size page: it resolves styles with CSS-like margin collapsing, maps
//! language tags to hyphenation dictionaries, segments text into elastic
//! glue and breakable units, selects font faces, breaks atom streams into
//! justified lines, and stacks the results vertically on the page.

pub mod geom;
pub mod fonts;
pub mod style;
pub mod material;
pub mod hyph;
pub mod tokens;
pub mod breaker;
pub mod builder;
pub mod compose;
pub mod meta;
pub mod pixmap;
