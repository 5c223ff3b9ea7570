//! The inline typesetting stream and the page-space output: atoms going
//! into the line breaker, elements coming out of it, and draw commands.

use vstd::prelude::*;
use crate::geom::{Point, Rectangle, Edge};
use crate::style::{StyleData, Display};
use crate::fonts::{FontKind, FontStyle, FontWeight};

verus! {

/// Opaque shaping result for a text run, reduced to the plain values layout
/// reads: the total advance width in pixels.
#[derive(Debug, Clone, Copy, PartialEq, Eq, Structural)]
pub struct RenderPlan {
    pub width: i32,
}

/// One indivisible unit of the inline stream.
#[derive(Debug, Clone)]
pub enum InlineMaterial {
    Text(TextMaterial),
    Image(ImageMaterial),
    Glue(GlueMaterial),
    Penalty(PenaltyMaterial),
    Box(i32),
    LineBreak,
}

#[derive(Debug, Clone)]
pub struct TextMaterial {
    pub offset: usize,
    pub text: String,
    pub style: StyleData,
}

#[derive(Debug, Clone)]
pub struct ImageMaterial {
    pub offset: usize,
    pub path: String,
    pub style: StyleData,
}

/// Elastic inter-word space: a base width plus stretch and shrink capacity.
#[derive(Debug, Clone, Copy, PartialEq, Eq, Structural)]
pub struct GlueMaterial {
    pub width: i32,
    pub stretch: i32,
    pub shrink: i32,
}

/// A candidate break point with a cost; flagged penalties mark hyphenation
/// points, discouraged from breaking on consecutive lines.
#[derive(Debug, Clone, Copy, PartialEq, Eq, Structural)]
pub struct PenaltyMaterial {
    pub width: i32,
    pub penalty: i32,
    pub flagged: bool,
}

/// A unit ready for placement once break decisions are made.
#[derive(Debug, Clone)]
pub enum ParagraphElement {
    Text(TextElement),
    Image(ImageElement),
    Nothing,
}

#[derive(Debug, Clone)]
pub struct TextElement {
    pub offset: usize,
    pub language: Option<String>,
    pub text: String,
    pub plan: RenderPlan,
    pub font_features: Option<Vec<String>>,
    pub font_kind: FontKind,
    pub font_style: FontStyle,
    pub font_weight: FontWeight,
    pub font_size: u32,
    pub letter_spacing: i32,
    pub vertical_align: i32,
    pub color: u8,
    pub uri: Option<String>,
}

#[derive(Debug, Clone)]
pub struct ImageElement {
    pub offset: usize,
    pub width: i32,
    pub height: i32,
    pub scale_percent: u32,
    pub vertical_align: i32,
    pub display: Display,
    pub edge: Edge,
    pub path: String,
    pub uri: Option<String>,
}

/// A page-space instruction for the external renderer.  Every variant
/// exposes the source offset it came from.
#[derive(Debug, Clone)]
pub enum DrawCommand {
    Text(TextCommand),
    Image(ImageCommand),
    Marker(usize),
}

#[derive(Debug, Clone)]
pub struct TextCommand {
    pub offset: usize,
    pub position: Point,
    pub text: String,
    pub plan: RenderPlan,
    pub font_kind: FontKind,
    pub font_style: FontStyle,
    pub font_weight: FontWeight,
    pub font_size: u32,
    pub color: u8,
    pub uri: Option<String>,
    pub rect: Rectangle,
}

#[derive(Debug, Clone)]
pub struct ImageCommand {
    pub offset: usize,
    pub position: Point,
    pub scale_percent: u32,
    pub path: String,
    pub uri: Option<String>,
    pub rect: Rectangle,
}

impl DrawCommand {
    /// The source offset a command maps back to.
    pub open spec fn spec_offset(&self) -> usize {
        match *self {
            DrawCommand::Text(TextCommand { offset, .. }) => offset,
            DrawCommand::Image(ImageCommand { offset, .. }) => offset,
            DrawCommand::Marker(offset) => offset,
        }
    }

    pub fn offset(&self) -> (r: usize)
        ensures
            r == self.spec_offset(),
    {
        match *self {
            DrawCommand::Text(TextCommand { offset, .. }) => offset,
            DrawCommand::Image(ImageCommand { offset, .. }) => offset,
            DrawCommand::Marker(offset) => offset,
        }
    }
}

/// Running state while a line is assembled: content width so far, width
/// with trailing glue merged in, how many glue atoms were seen, and whether
/// any non-glue content has been placed yet.
#[derive(Debug, Clone, Copy, PartialEq, Eq, Structural)]
pub struct LineStats {
    pub width: i32,
    pub merged_width: i32,
    pub glues_count: usize,
    pub started: bool,
}

impl Default for LineStats {
    fn default() -> (r: LineStats)
        ensures
            r == (LineStats { width: 0, merged_width: 0, glues_count: 0, started: false }),
    {
        LineStats {
            width: 0,
            merged_width: 0,
            glues_count: 0,
            started: false,
        }
    }
}

} // verus!
