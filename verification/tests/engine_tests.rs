use typeset::material::{InlineMaterial, ParagraphElement, DrawCommand};
use typeset::style::{StyleData, TextAlign, SiblingStyle};
use typeset::geom::{Rectangle, Point};
use typeset::builder::{append_text_material, make_inline_material, InlineItem};
use typeset::breaker::{Atom, Line, break_lines, justify_widths};
use typeset::compose::{measure_material, line_offset, place_line, stack_block, lines_height};
use typeset::pixmap::Pixmap;

fn word(w: i32) -> Atom {
    Atom::Box { width: w, elem: ParagraphElement::Nothing }
}

fn glue(w: i32) -> Atom {
    Atom::Glue { width: w, stretch: w / 2, shrink: w / 3 }
}

fn starts(lines: &[Line]) -> Vec<(usize, usize, usize)> {
    lines.iter().map(|l| (l.start, l.end, l.next)).collect()
}

#[test]
fn test_break_lines_simple() {
    // Three words of 40 with 10-wide spaces at 100 available: two lines.
    let atoms = vec![word(40), glue(10), word(40), glue(10), word(40)];
    let lines = break_lines(&atoms, 100);
    assert_eq!(starts(&lines), vec![(0, 3, 4), (4, 5, 5)]);
}

#[test]
fn test_break_lines_forced() {
    let atoms = vec![word(10), Atom::Forced, word(10)];
    let lines = break_lines(&atoms, 100);
    assert_eq!(starts(&lines), vec![(0, 1, 2), (2, 3, 3)]);
}

#[test]
fn test_break_lines_empty_stream() {
    let atoms: Vec<Atom> = Vec::new();
    let lines = break_lines(&atoms, 100);
    assert_eq!(lines.len(), 0);
}

#[test]
fn test_break_lines_oversized_word_alone() {
    // A single word wider than the page is placed alone, never dropped.
    let atoms = vec![word(500)];
    let lines = break_lines(&atoms, 100);
    assert_eq!(starts(&lines), vec![(0, 1, 1)]);
}

#[test]
fn test_break_lines_oversized_then_break() {
    // Oversized content breaks at the first opportunity after it.
    let atoms = vec![word(500), glue(10), word(20)];
    let lines = break_lines(&atoms, 100);
    assert_eq!(starts(&lines), vec![(0, 1, 2), (2, 3, 3)]);
}

#[test]
fn test_break_lines_rebreak_idempotent() {
    let atoms = vec![
        word(30), glue(10), word(30), glue(10), word(30), glue(10), word(30), glue(10), word(30),
    ];
    let lines = break_lines(&atoms, 100);
    assert!(lines.len() > 1);
    for l in &lines {
        // Re-breaking just the atoms of a produced line reproduces that
        // line whole, with the same break point.
        let slice: Vec<Atom> = atoms[l.start..l.end]
            .iter()
            .map(|a| match a {
                Atom::Box { width, .. } => word(*width),
                Atom::Glue { width, stretch, shrink } => Atom::Glue {
                    width: *width,
                    stretch: *stretch,
                    shrink: *shrink,
                },
                Atom::Penalty { width, penalty, flagged } => Atom::Penalty {
                    width: *width,
                    penalty: *penalty,
                    flagged: *flagged,
                },
                Atom::Forced => Atom::Forced,
            })
            .collect();
        let again = break_lines(&slice, 100);
        assert_eq!(starts(&again), vec![(0, l.end - l.start, l.end - l.start)]);
    }
}

#[test]
fn test_justify_exact_sum() {
    // word(40) glue(10) word(30): natural width 80, avail 100, slack 20.
    let atoms = vec![word(40), glue(10), word(30)];
    let ws = justify_widths(&atoms, 0, 3, 100);
    assert_eq!(ws.len(), 3);
    assert_eq!(ws[0], 40);
    assert_eq!(ws[2], 30);
    let total: i64 = ws.iter().map(|w| *w as i64).sum();
    assert_eq!(total, 100);
}

#[test]
fn test_justify_proportional_two_glues() {
    // Stretch capacities 10 and 30: the slack of 40 splits 10 and 30.
    let atoms = vec![
        word(10),
        Atom::Glue { width: 10, stretch: 10, shrink: 0 },
        word(10),
        Atom::Glue { width: 10, stretch: 30, shrink: 0 },
        word(10),
    ];
    let ws = justify_widths(&atoms, 0, 5, 90);
    let total: i64 = ws.iter().map(|w| *w as i64).sum();
    assert_eq!(total, 90);
    assert_eq!(ws[1], 20);
    assert_eq!(ws[3], 40);
}

#[test]
fn test_justify_shrink() {
    // Natural width 110 at 100 available: glue shrinks by the deficit.
    let atoms = vec![word(50), Atom::Glue { width: 10, stretch: 5, shrink: 8 }, word(50)];
    let ws = justify_widths(&atoms, 0, 3, 100);
    let total: i64 = ws.iter().map(|w| *w as i64).sum();
    assert_eq!(total, 100);
    assert_eq!(ws[1], 0);
}

#[test]
fn test_justify_zero_capacity_falls_back_evenly() {
    let atoms = vec![
        word(10),
        Atom::Glue { width: 10, stretch: 0, shrink: 0 },
        word(10),
        Atom::Glue { width: 10, stretch: 0, shrink: 0 },
        word(10),
    ];
    let ws = justify_widths(&atoms, 0, 5, 70);
    let total: i64 = ws.iter().map(|w| *w as i64).sum();
    assert_eq!(total, 70);
    assert_eq!(ws[1], 20);
    assert_eq!(ws[3], 20);
}

#[test]
fn test_builder_collapses_whitespace() {
    let mut out: Vec<InlineMaterial> = Vec::new();
    let style = StyleData::default();
    let started = append_text_material(&mut out, 0, "one   two", &style, false, true, 10, 24);
    assert!(started);
    // word, one collapsed glue, word
    assert_eq!(out.len(), 3);
    match &out[0] {
        InlineMaterial::Text(t) => {
            assert_eq!(t.offset, 0);
            assert_eq!(t.text, "one");
        },
        _ => panic!("expected a text atom"),
    }
    match &out[1] {
        InlineMaterial::Glue(g) => assert_eq!(g.width, 10),
        _ => panic!("expected a glue atom"),
    }
    match &out[2] {
        InlineMaterial::Text(t) => {
            assert_eq!(t.offset, 6);
            assert_eq!(t.text, "two");
        },
        _ => panic!("expected a text atom"),
    }
}

#[test]
fn test_builder_drops_boundary_whitespace() {
    let mut out: Vec<InlineMaterial> = Vec::new();
    let style = StyleData::default();
    append_text_material(&mut out, 0, "  word  ", &style, false, true, 10, 24);
    assert_eq!(out.len(), 1);
    assert!(matches!(&out[0], InlineMaterial::Text(t) if t.text == "word"));
}

#[test]
fn test_builder_penalty_at_special_runs() {
    let mut out: Vec<InlineMaterial> = Vec::new();
    let style = StyleData::default();
    append_text_material(&mut out, 0, "co-op", &style, false, true, 10, 24);
    // "co", "-" with a penalty after the dash run, then "op".
    assert_eq!(out.len(), 4);
    assert!(matches!(&out[0], InlineMaterial::Text(t) if t.text == "co"));
    assert!(matches!(&out[1], InlineMaterial::Text(t) if t.text == "-"));
    assert!(matches!(&out[2], InlineMaterial::Penalty(p) if p.flagged && p.width == 0));
    assert!(matches!(&out[3], InlineMaterial::Text(t) if t.text == "op"));
}

#[test]
fn test_builder_retains_whitespace() {
    let mut out: Vec<InlineMaterial> = Vec::new();
    let mut style = StyleData::default();
    style.retain_whitespace = true;
    append_text_material(&mut out, 0, "a b\nc", &style, false, true, 10, 24);
    assert_eq!(out.len(), 5);
    assert!(matches!(&out[0], InlineMaterial::Text(t) if t.text == "a"));
    assert!(matches!(&out[1], InlineMaterial::Glue(_)));
    assert!(matches!(&out[2], InlineMaterial::Text(t) if t.text == "b"));
    assert!(matches!(&out[3], InlineMaterial::LineBreak));
    assert!(matches!(&out[4], InlineMaterial::Text(t) if t.text == "c"));
}

#[test]
fn test_make_inline_material_indent_and_items() {
    let mut style = StyleData::default();
    style.text_indent = 25;
    let items = vec![
        InlineItem::Text { offset: 0, text: String::from("hi there") },
        InlineItem::Image { offset: 8, path: String::from("img/x.png") },
    ];
    let out = make_inline_material(&items, &style, 10, 24);
    assert!(matches!(&out[0], InlineMaterial::Box(25)));
    assert!(matches!(&out[1], InlineMaterial::Text(t) if t.text == "hi"));
    assert!(matches!(&out[2], InlineMaterial::Glue(_)));
    assert!(matches!(&out[3], InlineMaterial::Text(t) if t.text == "there"));
    assert!(matches!(&out[4], InlineMaterial::Image(im) if im.path == "img/x.png" && im.offset == 8));
    assert_eq!(out.len(), 5);
}

#[test]
fn test_end_to_end_oversized_word_alone() {
    // A one-word paragraph wider than the page: the word stands alone on
    // one line.
    let style = StyleData::default();
    let items = vec![InlineItem::Text { offset: 0, text: String::from("gigantic") }];
    let material = make_inline_material(&items, &style, 10, 24);
    let advances: Vec<i32> = material.iter().map(|_| 500).collect();
    let atoms = measure_material(&material, &advances);
    let lines = break_lines(&atoms, 100);
    assert_eq!(lines.len(), 1);
    assert_eq!(lines[0].start, 0);
    assert_eq!(lines[0].end, 1);
}

#[test]
fn test_end_to_end_empty_paragraph() {
    // An empty paragraph yields zero lines and zero height.
    let style = StyleData::default();
    let items: Vec<InlineItem> = Vec::new();
    let material = make_inline_material(&items, &style, 10, 24);
    assert_eq!(material.len(), 0);
    let advances: Vec<i32> = Vec::new();
    let atoms = measure_material(&material, &advances);
    let lines = break_lines(&atoms, 100);
    assert_eq!(lines.len(), 0);
    assert_eq!(lines_height(lines.len(), 18), 0);
}

#[test]
fn test_line_offset_modes() {
    assert_eq!(line_offset(TextAlign::Left, 100, 60), 0);
    assert_eq!(line_offset(TextAlign::Justify, 100, 60), 0);
    assert_eq!(line_offset(TextAlign::Right, 100, 60), 40);
    assert_eq!(line_offset(TextAlign::Center, 100, 60), 20);
    assert_eq!(line_offset(TextAlign::Center, 100, 120), 0);
}

#[test]
fn test_place_line_positions_and_offsets() {
    let style = StyleData::default();
    let items = vec![InlineItem::Text { offset: 7, text: String::from("ab cd") }];
    let material = make_inline_material(&items, &style, 10, 24);
    let advances: Vec<i32> = material.iter().map(|_| 30).collect();
    let atoms = measure_material(&material, &advances);
    let lines = break_lines(&atoms, 200);
    assert_eq!(lines.len(), 1);
    let widths: Vec<i32> = atoms[lines[0].start..lines[0].end]
        .iter()
        .map(|a| match a {
            Atom::Box { width, .. } => *width,
            Atom::Glue { width, .. } => *width,
            _ => 0,
        })
        .collect();
    let cmds = place_line(&atoms, lines[0], &widths, 5, 40, 18);
    assert_eq!(cmds.len(), 2);
    match &cmds[0] {
        DrawCommand::Text(t) => {
            assert_eq!(t.offset, 7);
            assert_eq!(t.position, Point { x: 5, y: 40 });
            assert_eq!(t.text, "ab");
        },
        _ => panic!("expected a text command"),
    }
    match &cmds[1] {
        DrawCommand::Text(t) => {
            assert_eq!(t.offset, 10);
            assert_eq!(t.position, Point { x: 45, y: 40 });
            assert_eq!(t.rect.max.y, 58);
        },
        _ => panic!("expected a text command"),
    }
    assert_eq!(cmds[0].offset(), 7);
}

#[test]
fn test_stack_block_collapses_margins() {
    let rect = Rectangle::new(0, 100, 400, 600);
    let sibling = SiblingStyle { padding_bottom: 4, margin_bottom: 12 };
    let mut style = StyleData::default();
    style.margin.top = 20;
    style.padding.top = 3;
    style.margin.bottom = 7;
    style.padding.bottom = 2;
    let (top, rest, next_sib) = stack_block(rect, &sibling, &style, 36);
    // Gap is max(12, 20) = 20, plus the two paddings.
    assert_eq!(top, 100 + 20 + 4 + 3);
    assert_eq!(rest.min.y, top + 36);
    assert_eq!(rest.min.x, 0);
    assert_eq!(next_sib, SiblingStyle { padding_bottom: 2, margin_bottom: 7 });
}

#[test]
fn test_pixmap_new_and_pixels() {
    let mut p = Pixmap::new(4, 3);
    assert_eq!(p.dims(), (4, 3));
    assert_eq!(p.data.len(), 12);
    assert!(p.data.iter().all(|&b| b == 255));
    p.set_pixel(1, 2, 7);
    assert_eq!(p.data[2 * 4 + 1], 7);
    // Out-of-bounds writes are ignored.
    p.set_pixel(100, 0, 9);
    assert!(p.data.iter().filter(|&&b| b == 9).count() == 0);
}

#[test]
fn test_pixmap_invert_region() {
    let mut p = Pixmap::new(4, 4);
    p.set_pixel(1, 1, 10);
    let r = Rectangle::new(1, 1, 3, 3);
    p.invert_region(&r);
    assert_eq!(p.data[1 * 4 + 1], 245);
    assert_eq!(p.data[1 * 4 + 2], 0);
    assert_eq!(p.data[2 * 4 + 2], 0);
    // Outside the region nothing changes.
    assert_eq!(p.data[0], 255);
    assert_eq!(p.data[3 * 4 + 3], 255);
}
