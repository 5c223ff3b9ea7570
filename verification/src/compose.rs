//! Measurement of the atom stream and the page compositor: turn laid-out
//! lines into absolutely positioned draw commands and stack blocks
//! vertically with collapsed margins.

use vstd::prelude::*;
use crate::material::{InlineMaterial, ParagraphElement, TextElement, ImageElement, RenderPlan, DrawCommand, TextCommand, ImageCommand};
use crate::geom::{Point, Rectangle};
use crate::style::{StyleData, SiblingStyle, TextAlign, collapse_margins};
use crate::breaker::{Atom, Line};
use crate::builder::{models_of, MatModel, model_of};

verus! {

/// What a measured atom must look like, per position, given the advance
/// the external shaper reported for the text or image at that position.
pub open spec fn measured_matches(m: MatModel, a: Atom, advance: int) -> bool {
    match m {
        MatModel::Text { offset, text } => match a {
            Atom::Box { width, elem } => width == advance && (elem matches ParagraphElement::Text(te)
                && te.offset == offset && te.text@ == text && te.plan.width == advance),
            _ => false,
        },
        MatModel::Image { offset, path } => match a {
            Atom::Box { width, elem } => width == advance && (elem matches ParagraphElement::Image(ie)
                && ie.offset == offset && ie.path@ == path && ie.width == advance),
            _ => false,
        },
        MatModel::Glue { width, stretch, shrink } => a == (Atom::Glue {
            width: width as i32,
            stretch: stretch as i32,
            shrink: shrink as i32,
        }),
        MatModel::Penalty { width, penalty, flagged } => a == (Atom::Penalty {
            width: width as i32,
            penalty: penalty as i32,
            flagged,
        }),
        MatModel::Box { width } => match a {
            Atom::Box { width: w, elem } => w == width && elem is Nothing,
            _ => false,
        },
        MatModel::LineBreak => a is Forced,
    }
}

/// Attach the external shaper's measurements to the inline stream: one
/// advance per position, read only at text and image atoms.  Text atoms
/// become boxes carrying their paragraph element and render plan, images
/// boxes carrying the image element, forced breaks stay forced, glue and
/// penalties pass through unchanged.
pub fn measure_material(material: &Vec<InlineMaterial>, advances: &Vec<i32>) -> (atoms: Vec<Atom>)
    requires
        advances@.len() == material@.len(),
    ensures
        atoms@.len() == material@.len(),
        forall|k: int| 0 <= k < material@.len()
            ==> measured_matches(models_of(material@)[k], #[trigger] atoms@[k], advances@[k] as int),
{
    let n = material.len();
    let mut atoms: Vec<Atom> = Vec::new();
    let mut k: usize = 0;
    while k < n
        invariant
            n == material@.len(),
            advances@.len() == material@.len(),
            k <= n,
            atoms@.len() == k,
            forall|t: int| 0 <= t < k
                ==> measured_matches(models_of(material@)[t], #[trigger] atoms@[t], advances@[t] as int),
        decreases n - k,
    {
        let a = match &material[k] {
            InlineMaterial::Text(tm) => Atom::Box {
                width: advances[k],
                elem: ParagraphElement::Text(TextElement {
                    offset: tm.offset,
                    language: match &tm.style.language { Some(l) => Some(l.clone()), None => None },
                    text: tm.text.clone(),
                    plan: RenderPlan { width: advances[k] },
                    font_features: None,
                    font_kind: tm.style.font_kind,
                    font_style: tm.style.font_style,
                    font_weight: tm.style.font_weight,
                    font_size: if tm.style.font_size >= 0 { tm.style.font_size as u32 } else { 0 },
                    letter_spacing: tm.style.letter_spacing,
                    vertical_align: tm.style.vertical_align,
                    color: tm.style.color,
                    uri: match &tm.style.uri { Some(u) => Some(u.clone()), None => None },
                }),
            },
            InlineMaterial::Image(im) => Atom::Box {
                width: advances[k],
                elem: ParagraphElement::Image(ImageElement {
                    offset: im.offset,
                    width: advances[k],
                    height: im.style.height,
                    scale_percent: 100,
                    vertical_align: im.style.vertical_align,
                    display: im.style.display,
                    edge: im.style.margin,
                    path: im.path.clone(),
                    uri: match &im.style.uri { Some(u) => Some(u.clone()), None => None },
                }),
            },
            InlineMaterial::Glue(g) => Atom::Glue { width: g.width, stretch: g.stretch, shrink: g.shrink },
            InlineMaterial::Penalty(p) => Atom::Penalty { width: p.width, penalty: p.penalty, flagged: p.flagged },
            InlineMaterial::Box(w) => Atom::Box { width: *w, elem: ParagraphElement::Nothing },
            InlineMaterial::LineBreak => Atom::Forced,
        };
        proof {
            assert(models_of(material@)[k as int] == model_of(material@[k as int]));
        }
        atoms.push(a);
        k = k + 1;
    }
    atoms
}

/// The static horizontal offset of a line: left and justified lines start
/// at the margin, right lines end at it, centered lines split the slack.
pub fn line_offset(align: TextAlign, avail: i32, content: i32) -> (r: i32)
    requires
        0 <= avail <= 1000000000,
        -1000000000 <= content <= 1000000000,
    ensures
        align == TextAlign::Left || align == TextAlign::Justify ==> r == 0,
        align == TextAlign::Right ==> r == avail - content,
        align == TextAlign::Center ==> r == (if avail >= content { (avail - content) / 2int } else { 0int }),
{
    match align {
        TextAlign::Left => 0,
        TextAlign::Justify => 0,
        TextAlign::Right => avail - content,
        TextAlign::Center => if avail >= content { (avail - content) / 2 } else { 0 },
    }
}

/// Sum of `widths[0..k)`.
pub open spec fn widths_prefix(widths: Seq<i32>, k: int) -> int
    decreases k,
{
    if k <= 0 {
        0
    } else {
        widths_prefix(widths, k - 1) + widths[k - 1]
    }
}

/// The ghost shape of one draw command: source offset, cursor position,
/// drawn width, line height and content.
pub enum CmdModel {
    Text { offset: int, x: int, y: int, w: int, h: int, text: Seq<char> },
    Image { offset: int, x: int, y: int, w: int, h: int, path: Seq<char> },
    Marker { offset: int },
}

pub open spec fn cmd_model(c: DrawCommand) -> CmdModel {
    match c {
        DrawCommand::Text(t) => CmdModel::Text {
            offset: t.offset as int,
            x: t.position.x as int,
            y: t.position.y as int,
            w: t.rect.max.x - t.position.x,
            h: t.rect.max.y - t.position.y,
            text: t.text@,
        },
        DrawCommand::Image(i) => CmdModel::Image {
            offset: i.offset as int,
            x: i.position.x as int,
            y: i.position.y as int,
            w: i.rect.max.x - i.position.x,
            h: i.rect.max.y - i.position.y,
            path: i.path@,
        },
        DrawCommand::Marker(o) => CmdModel::Marker { offset: o as int },
    }
}

pub open spec fn cmd_models(cs: Seq<DrawCommand>) -> Seq<CmdModel> {
    cs.map_values(|c: DrawCommand| cmd_model(c))
}

/// The commands that placing `atoms[k..end)` emits, with the cursor at
/// `x`: every text or image element yields one command at the cursor,
/// `w` wide and `lh` tall, and every atom advances the cursor by its
/// drawn width.
pub open spec fn spec_place(atoms: Seq<Atom>, widths: Seq<i32>, start: int, k: int, end: int, x: int, y: int, lh: int) -> Seq<CmdModel>
    decreases end - k,
{
    if k < start || k >= end || end > atoms.len() {
        Seq::empty()
    } else {
        let w = widths[k - start] as int;
        let rest = spec_place(atoms, widths, start, k + 1, end, x + w, y, lh);
        match atoms[k] {
            Atom::Box { elem, .. } => match elem {
                ParagraphElement::Text(te) => seq![CmdModel::Text {
                    offset: te.offset as int,
                    x,
                    y,
                    w,
                    h: lh,
                    text: te.text@,
                }] + rest,
                ParagraphElement::Image(ie) => seq![CmdModel::Image {
                    offset: ie.offset as int,
                    x,
                    y,
                    w,
                    h: lh,
                    path: ie.path@,
                }] + rest,
                ParagraphElement::Nothing => rest,
            },
            _ => rest,
        }
    }
}

/// Place the atoms `atoms[line.start..line.end)` at their absolute page
/// positions: each atom advances the cursor by its drawn width (`widths`,
/// one per atom on the line, as justification decided them), and every
/// text or image element emits one draw command at the cursor, carrying
/// its source offset and a bounding rectangle one line height tall.
pub fn place_line(atoms: &Vec<Atom>, line: Line, widths: &Vec<i32>, x0: i32, y0: i32, line_height: i32) -> (cmds: Vec<DrawCommand>)
    requires
        line.start <= line.end <= atoms@.len(),
        widths@.len() == line.end - line.start,
        line.end - line.start <= 1000,
        forall|k: int| 0 <= k < widths@.len() ==> -1000000 <= #[trigger] widths@[k] <= 1000000,
        -1000000 <= x0 <= 1000000,
        -1000000 <= y0 <= 1000000,
        0 <= line_height <= 1000000,
    ensures
        cmd_models(cmds@) == spec_place(
            atoms@,
            widths@,
            line.start as int,
            line.start as int,
            line.end as int,
            x0 as int,
            y0 as int,
            line_height as int,
        ),
{
    let mut cmds: Vec<DrawCommand> = Vec::new();
    let mut x: i32 = x0;
    let mut k: usize = line.start;
    proof {
        assert(cmd_models(cmds@) =~= Seq::<CmdModel>::empty());
    }
    while k < line.end
        invariant
            line.start <= k <= line.end <= atoms@.len(),
            widths@.len() == line.end - line.start,
            forall|t: int| 0 <= t < widths@.len() ==> -1000000 <= #[trigger] widths@[t] <= 1000000,
            line.end - line.start <= 1000,
            -1000000 <= x0 <= 1000000,
            -1000000 <= y0 <= 1000000,
            0 <= line_height <= 1000000,
            x == x0 + widths_prefix(widths@, k - line.start),
            -1000000 - (k - line.start) * 1000000 <= x <= 1000000 + (k - line.start) * 1000000,
            spec_place(atoms@, widths@, line.start as int, line.start as int, line.end as int, x0 as int, y0 as int, line_height as int)
                == cmd_models(cmds@) + spec_place(atoms@, widths@, line.start as int, k as int, line.end as int, x as int, y0 as int, line_height as int),
        decreases line.end - k,
    {
        let w = widths[k - line.start];
        let ghost before = cmds@;
        match &atoms[k] {
            Atom::Box { elem, .. } => {
                match elem {
                    ParagraphElement::Text(te) => {
                        cmds.push(DrawCommand::Text(TextCommand {
                            offset: te.offset,
                            position: Point { x, y: y0 },
                            text: te.text.clone(),
                            plan: te.plan,
                            font_kind: te.font_kind,
                            font_style: te.font_style,
                            font_weight: te.font_weight,
                            font_size: te.font_size,
                            color: te.color,
                            uri: match &te.uri { Some(u) => Some(u.clone()), None => None },
                            rect: Rectangle {
                                min: Point { x, y: y0 },
                                max: Point { x: x + w, y: y0 + line_height },
                            },
                        }));
                        proof {
                            assert(cmd_models(cmds@) =~= cmd_models(before).push(CmdModel::Text {
                                offset: te.offset as int,
                                x: x as int,
                                y: y0 as int,
                                w: w as int,
                                h: line_height as int,
                                text: te.text@,
                            }));
                        }
                    },
                    ParagraphElement::Image(ie) => {
                        cmds.push(DrawCommand::Image(ImageCommand {
                            offset: ie.offset,
                            position: Point { x, y: y0 },
                            scale_percent: ie.scale_percent,
                            path: ie.path.clone(),
                            uri: match &ie.uri { Some(u) => Some(u.clone()), None => None },
                            rect: Rectangle {
                                min: Point { x, y: y0 },
                                max: Point { x: x + w, y: y0 + line_height },
                            },
                        }));
                        proof {
                            assert(cmd_models(cmds@) =~= cmd_models(before).push(CmdModel::Image {
                                offset: ie.offset as int,
                                x: x as int,
                                y: y0 as int,
                                w: w as int,
                                h: line_height as int,
                                path: ie.path@,
                            }));
                        }
                    },
                    ParagraphElement::Nothing => {},
                }
            },
            _ => {},
        }
        proof {
            assert(spec_place(atoms@, widths@, line.start as int, line.start as int, line.end as int, x0 as int, y0 as int, line_height as int)
                =~= cmd_models(cmds@) + spec_place(atoms@, widths@, line.start as int, k as int + 1, line.end as int, x as int + w as int, y0 as int, line_height as int));
        }
        x = x + w;
        k = k + 1;
    }
    proof {
        assert(spec_place(atoms@, widths@, line.start as int, line.end as int, line.end as int, x as int, y0 as int, line_height as int)
            =~= Seq::<CmdModel>::empty());
        assert(cmd_models(cmds@) =~= spec_place(atoms@, widths@, line.start as int, line.start as int, line.end as int, x0 as int, y0 as int, line_height as int));
    }
    cmds
}

/// Stack one block under the previous sibling: the vertical gap between
/// them is the collapse of the sibling's bottom margin with this block's
/// top margin, the sibling's bottom padding, then this block's top
/// padding.  Returns where the block's content starts, the working
/// rectangle that remains below it, and the sibling style the next block
/// collapses against.  An empty block (zero content height) still claims
/// its gap and paddings, but zero lines contribute zero content height.
pub fn stack_block(rect: Rectangle, sibling: &SiblingStyle, style: &StyleData, content_height: i32) -> (r: (i32, Rectangle, SiblingStyle))
    requires
        -1000000 <= rect.min.y <= 1000000,
        -1000000 <= sibling.margin_bottom <= 1000000,
        -1000000 <= sibling.padding_bottom <= 1000000,
        -1000000 <= style.margin.top <= 1000000,
        -1000000 <= style.padding.top <= 1000000,
        0 <= content_height <= 1000000,
    ensures
        ({
            let gap = if sibling.margin_bottom >= 0 && style.margin.top >= 0 {
                if sibling.margin_bottom >= style.margin.top { sibling.margin_bottom as int } else { style.margin.top as int }
            } else if sibling.margin_bottom < 0 && style.margin.top < 0 {
                if sibling.margin_bottom <= style.margin.top { sibling.margin_bottom as int } else { style.margin.top as int }
            } else {
                sibling.margin_bottom + style.margin.top
            };
            let top = rect.min.y + gap + sibling.padding_bottom + style.padding.top;
            &&& r.0 == top
            &&& r.1.min.y == top + content_height
            &&& r.1.min.x == rect.min.x && r.1.max == rect.max
            &&& r.2 == (SiblingStyle { padding_bottom: style.padding.bottom, margin_bottom: style.margin.bottom })
        }),
{
    let gap = collapse_margins(sibling.margin_bottom, style.margin.top);
    let top = rect.min.y + gap + sibling.padding_bottom + style.padding.top;
    let new_rect = Rectangle {
        min: Point { x: rect.min.x, y: top + content_height },
        max: rect.max,
    };
    (top, new_rect, SiblingStyle { padding_bottom: style.padding.bottom, margin_bottom: style.margin.bottom })
}

/// The height a block's lines claim: one line height per line; an empty
/// block claims nothing.
pub fn lines_height(count: usize, line_height: i32) -> (r: i32)
    requires
        count <= 100000,
        0 <= line_height <= 10000,
    ensures
        r == count * line_height,
        count == 0 ==> r == 0,
{
    proof {
        assert(0 <= (count as int) * (line_height as int) <= 1000000000) by (nonlinear_arith)
            requires
                0 <= count <= 100000,
                0 <= line_height <= 10000,
        ;
    }
    (count as i32) * line_height
}

} // verus!
