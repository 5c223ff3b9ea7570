//! Resolved styles, style inheritance and margin collapsing.

use vstd::prelude::*;
use crate::geom::{Edge, Rectangle};
use crate::fonts::{FontKind, FontStyle, FontWeight};

verus! {

/// Black in the 8-bit grayscale channel the engine draws with.
pub const BLACK: u8 = 0;

/// White in the 8-bit grayscale channel.
pub const WHITE: u8 = 255;

#[derive(Debug, Clone, Copy, PartialEq, Eq, Structural)]
pub enum Display {
    Block,
    Inline,
}

#[derive(Debug, Clone, Copy, PartialEq, Eq, Structural)]
pub enum TextAlign {
    Left,
    Right,
    Center,
    Justify,
}

/// Immutable per-document layout context: where the content starts, where
/// resources are resolved from, the page area, and the shrinking working
/// area.
#[derive(Debug, Clone)]
pub struct RootData {
    pub start_offset: usize,
    pub spine_dir: String,
    pub page_rect: Rectangle,
    pub rect: Rectangle,
}

/// A fully resolved style: every property has a concrete value.
#[derive(Debug, Clone)]
pub struct StyleData {
    pub display: Display,
    pub width: i32,
    pub height: i32,
    pub margin: Edge,
    pub padding: Edge,
    pub start_x: i32,
    pub end_x: i32,
    pub retain_whitespace: bool,
    pub text_align: TextAlign,
    pub text_indent: i32,
    pub line_height: i32,
    pub language: Option<String>,
    pub font_kind: FontKind,
    pub font_style: FontStyle,
    pub font_weight: FontWeight,
    pub font_size: i32,
    pub font_features: Option<Vec<String>>,
    pub color: u8,
    pub letter_spacing: i32,
    pub vertical_align: i32,
    pub uri: Option<String>,
}

/// The trailing bottom padding and margin of the previous sibling, carried
/// forward so the next sibling can collapse its own top margin against it.
#[derive(Debug, Clone, Copy, PartialEq, Eq, Structural)]
pub struct SiblingStyle {
    pub padding_bottom: i32,
    pub margin_bottom: i32,
}

/// Transient per-node traversal state.  Parent and previous sibling are
/// handles into the caller's arena-owned tree, never back-pointers.
#[derive(Debug, Clone)]
pub struct LoopContext {
    pub parent: Option<usize>,
    pub sibling: Option<usize>,
    pub sibling_style: SiblingStyle,
    pub is_first: bool,
    pub is_last: bool,
}

/// What laying out one child hands back: its trailing sibling style and the
/// source-offset to rectangle pairs used for hit testing.
#[derive(Debug, Clone)]
pub struct ChildArtifact {
    pub sibling_style: SiblingStyle,
    pub rects: Vec<(usize, Rectangle)>,
}

impl Default for SiblingStyle {
    fn default() -> (r: SiblingStyle)
        ensures
            r == (SiblingStyle { padding_bottom: 0, margin_bottom: 0 }),
    {
        SiblingStyle { padding_bottom: 0, margin_bottom: 0 }
    }
}

impl Default for LoopContext {
    fn default() -> (r: LoopContext)
        ensures
            r.parent is None,
            r.sibling is None,
            r.sibling_style == (SiblingStyle { padding_bottom: 0, margin_bottom: 0 }),
            !r.is_first,
            !r.is_last,
    {
        LoopContext {
            parent: None,
            sibling: None,
            sibling_style: SiblingStyle { padding_bottom: 0, margin_bottom: 0 },
            is_first: false,
            is_last: false,
        }
    }
}

impl StyleData {
    /// The default style: block display, zero box metrics, serif normal
    /// normal, black text, nothing inherited yet.
    pub open spec fn spec_default() -> StyleData {
        StyleData {
            display: Display::Block,
            width: 0,
            height: 0,
            margin: Edge { top: 0, right: 0, bottom: 0, left: 0 },
            padding: Edge { top: 0, right: 0, bottom: 0, left: 0 },
            start_x: 0,
            end_x: 0,
            retain_whitespace: false,
            text_align: TextAlign::Left,
            text_indent: 0,
            line_height: 0,
            language: None,
            font_kind: FontKind::Serif,
            font_style: FontStyle::Normal,
            font_weight: FontWeight::Normal,
            font_size: 0,
            font_features: None,
            color: BLACK,
            letter_spacing: 0,
            vertical_align: 0,
            uri: None,
        }
    }
}

impl Default for StyleData {
    fn default() -> (r: StyleData)
        ensures
            r == StyleData::spec_default(),
    {
        StyleData {
            display: Display::Block,
            width: 0,
            height: 0,
            margin: Edge { top: 0, right: 0, bottom: 0, left: 0 },
            padding: Edge { top: 0, right: 0, bottom: 0, left: 0 },
            start_x: 0,
            end_x: 0,
            retain_whitespace: false,
            text_align: TextAlign::Left,
            text_indent: 0,
            line_height: 0,
            language: None,
            font_kind: FontKind::Serif,
            font_style: FontStyle::Normal,
            font_weight: FontWeight::Normal,
            font_size: 0,
            font_features: None,
            color: BLACK,
            letter_spacing: 0,
            vertical_align: 0,
            uri: None,
        }
    }
}

/// Collapse two adjacent vertical margins (or paddings) into one.
///
/// Both non-negative: the larger wins; both negative: the more negative
/// wins; mixed signs: the two are added.  The mixed-sign branch is an
/// intentional additive simplification kept as the engine has always
/// behaved, not standard CSS collapsing.
pub fn collapse_margins(a: i32, b: i32) -> (r: i32)
    ensures
        a >= 0 && b >= 0 ==> r == (if a >= b { a } else { b }),
        a < 0 && b < 0 ==> r == (if a <= b { a } else { b }),
        (a < 0 <==> b >= 0) ==> r == a + b,
{
    if a >= 0 && b >= 0 {
        if a >= b { a } else { b }
    } else if a < 0 && b < 0 {
        if a <= b { a } else { b }
    } else {
        a + b
    }
}

/// A style as it comes off a node: properties the node does not set are
/// `None` and fall back per CSS-like rules in `resolve_style`.
#[derive(Debug, Clone)]
pub struct StyleSpec {
    pub display: Option<Display>,
    pub width: Option<i32>,
    pub height: Option<i32>,
    pub margin: Option<Edge>,
    pub padding: Option<Edge>,
    pub retain_whitespace: Option<bool>,
    pub text_align: Option<TextAlign>,
    pub text_indent: Option<i32>,
    pub line_height: Option<i32>,
    pub language: Option<String>,
    pub font_kind: Option<FontKind>,
    pub font_style: Option<FontStyle>,
    pub font_weight: Option<FontWeight>,
    pub font_size: Option<i32>,
    pub color: Option<u8>,
    pub letter_spacing: Option<i32>,
    pub vertical_align: Option<i32>,
    pub uri: Option<String>,
}

fn clone_opt_string(v: &Option<String>) -> (r: Option<String>)
    ensures
        r == *v,
{
    match v {
        Some(s) => Some(s.clone()),
        None => None,
    }
}

fn clone_string_vec(v: &Vec<String>) -> (r: Vec<String>)
    ensures
        r@ == v@,
{
    let mut out: Vec<String> = Vec::new();
    let mut i: usize = 0;
    while i < v.len()
        invariant
            i <= v.len(),
            out@ == v@.subrange(0, i as int),
        decreases v.len() - i,
    {
        out.push(v[i].clone());
        i = i + 1;
        proof {
            assert(out@ =~= v@.subrange(0, i as int));
        }
    }
    proof {
        assert(out@ =~= v@);
    }
    out
}

/// Resolve a node's declared style against its parent's resolved style.
///
/// Text properties (font, color, language, alignment, line height, letter
/// spacing, indent, whitespace retention) inherit from the parent when
/// unset; box metrics, display, vertical alignment and the link target do
/// not: unset, they take the engine defaults.
pub fn resolve_style(spec: &StyleSpec, parent: &StyleData) -> (r: StyleData)
    ensures
        r.display == spec.display.unwrap_or(Display::Block),
        r.width == spec.width.unwrap_or(0),
        r.height == spec.height.unwrap_or(0),
        r.margin == spec.margin.unwrap_or(Edge { top: 0, right: 0, bottom: 0, left: 0 }),
        r.padding == spec.padding.unwrap_or(Edge { top: 0, right: 0, bottom: 0, left: 0 }),
        r.start_x == parent.start_x,
        r.end_x == parent.end_x,
        r.retain_whitespace == spec.retain_whitespace.unwrap_or(parent.retain_whitespace),
        r.text_align == spec.text_align.unwrap_or(parent.text_align),
        r.text_indent == spec.text_indent.unwrap_or(parent.text_indent),
        r.line_height == spec.line_height.unwrap_or(parent.line_height),
        r.language == (if spec.language is Some { spec.language } else { parent.language }),
        r.font_kind == spec.font_kind.unwrap_or(parent.font_kind),
        r.font_style == spec.font_style.unwrap_or(parent.font_style),
        r.font_weight == spec.font_weight.unwrap_or(parent.font_weight),
        r.font_size == spec.font_size.unwrap_or(parent.font_size),
        (r.font_features is Some) == (parent.font_features is Some),
        r.font_features matches Some(f) ==> parent.font_features matches Some(g) && f@ == g@,
        r.color == spec.color.unwrap_or(parent.color),
        r.letter_spacing == spec.letter_spacing.unwrap_or(parent.letter_spacing),
        r.vertical_align == spec.vertical_align.unwrap_or(0),
        r.uri == spec.uri,
{
    StyleData {
        display: match spec.display { Some(d) => d, None => Display::Block },
        width: match spec.width { Some(w) => w, None => 0 },
        height: match spec.height { Some(h) => h, None => 0 },
        margin: match spec.margin { Some(m) => m, None => Edge { top: 0, right: 0, bottom: 0, left: 0 } },
        padding: match spec.padding { Some(p) => p, None => Edge { top: 0, right: 0, bottom: 0, left: 0 } },
        start_x: parent.start_x,
        end_x: parent.end_x,
        retain_whitespace: match spec.retain_whitespace { Some(b) => b, None => parent.retain_whitespace },
        text_align: match spec.text_align { Some(a) => a, None => parent.text_align },
        text_indent: match spec.text_indent { Some(t) => t, None => parent.text_indent },
        line_height: match spec.line_height { Some(l) => l, None => parent.line_height },
        language: match &spec.language {
            Some(l) => Some(l.clone()),
            None => clone_opt_string(&parent.language),
        },
        font_kind: match spec.font_kind { Some(k) => k, None => parent.font_kind },
        font_style: match spec.font_style { Some(s) => s, None => parent.font_style },
        font_weight: match spec.font_weight { Some(w) => w, None => parent.font_weight },
        font_size: match spec.font_size { Some(s) => s, None => parent.font_size },
        font_features: match &parent.font_features {
            Some(fs) => Some(clone_string_vec(fs)),
            None => None,
        },
        color: match spec.color { Some(c) => c, None => parent.color },
        letter_spacing: match spec.letter_spacing { Some(l) => l, None => parent.letter_spacing },
        vertical_align: match spec.vertical_align { Some(v) => v, None => 0 },
        uri: clone_opt_string(&spec.uri),
    }
}

} // verus!
