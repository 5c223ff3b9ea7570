use typeset::hyph::{hyph_lang, Language};
use typeset::style::{collapse_margins, StyleData, StyleSpec, resolve_style, SiblingStyle, Display, TextAlign};
use typeset::geom::Edge;
use typeset::fonts::{Fonts, FontFamily, Font, FontKind, FontStyle, FontWeight};
use typeset::tokens::{SpecialSplitter, em_space_ratio, word_space_ratio, glue_char, glue_width};

#[test]
fn test_hyph_lang() {
    assert_eq!(hyph_lang("zh-latn-pinyin"), Some(Language::Chinese));
    assert_eq!(hyph_lang("EN"), Some(Language::EnglishUS));
    assert_eq!(hyph_lang("en-GB"), Some(Language::EnglishGB));
    assert_eq!(hyph_lang("DE-ZZZ"), Some(Language::German1996));
    assert_eq!(hyph_lang("de-CH-uuu"), Some(Language::GermanSwiss));
    assert_eq!(hyph_lang("y"), None);
}

#[test]
fn test_hyph_lang_exact_before_truncation() {
    assert_eq!(hyph_lang("en-us"), Some(Language::EnglishUS));
    assert_eq!(hyph_lang("de-1901"), Some(Language::German1901));
    assert_eq!(hyph_lang("la-x-classic"), Some(Language::LatinClassic));
    assert_eq!(hyph_lang("la-x-other"), Some(Language::Latin));
    assert_eq!(hyph_lang(""), None);
}

#[test]
fn test_collapse_margins_values() {
    assert_eq!(collapse_margins(10, 20), 20);
    assert_eq!(collapse_margins(-10, -20), -20);
    assert_eq!(collapse_margins(10, -20), -10);
    assert_eq!(collapse_margins(-20, 10), -10);
    assert_eq!(collapse_margins(0, 0), 0);
}

#[test]
fn test_special_splitter_alternates() {
    let mut sp = SpecialSplitter::new("co-operate/re-read");
    let mut segs: Vec<&str> = Vec::new();
    while let Some(seg) = sp.next() {
        segs.push(seg);
    }
    assert_eq!(segs, vec!["co", "-", "operate", "/", "re", "-", "read"]);
    let joined: String = segs.concat();
    assert_eq!(joined, "co-operate/re-read");
}

#[test]
fn test_special_splitter_plain_text() {
    let mut sp = SpecialSplitter::new("hello");
    assert_eq!(sp.next(), Some("hello"));
    assert_eq!(sp.next(), None);
}

#[test]
fn test_special_splitter_empty() {
    let mut sp = SpecialSplitter::new("");
    assert_eq!(sp.next(), None);
}

#[test]
fn test_space_ratio_tables() {
    assert_eq!(em_space_ratio('\u{2003}'), Some(100));
    assert_eq!(em_space_ratio('\u{2002}'), Some(50));
    assert_eq!(em_space_ratio('\u{2004}'), Some(33));
    assert_eq!(em_space_ratio('\u{2005}'), Some(25));
    assert_eq!(em_space_ratio('\u{2006}'), Some(16));
    assert_eq!(em_space_ratio(' '), None);
    assert_eq!(word_space_ratio('\t'), Some(400));
    assert_eq!(word_space_ratio('\u{00A0}'), Some(100));
    assert_eq!(word_space_ratio('\u{202F}'), Some(50));
    assert_eq!(word_space_ratio('\u{2009}'), Some(50));
    assert_eq!(word_space_ratio('\u{200A}'), Some(25));
    assert_eq!(word_space_ratio('x'), None);
}

#[test]
fn test_glue_char_and_width() {
    assert!(glue_char(' '));
    assert!(glue_char('\t'));
    assert!(glue_char('\u{2003}'));
    assert!(glue_char('\u{2007}'));
    assert!(!glue_char('a'));
    assert!(!glue_char('\n'));
    // Em family measures against the em width, word family against the
    // word-space width; a plain space takes the word-space width.
    assert_eq!(glue_width('\u{2002}', 100, 240), 120);
    assert_eq!(glue_width('\t', 100, 240), 400);
    assert_eq!(glue_width(' ', 100, 240), 100);
    assert_eq!(glue_width('\u{2006}', 100, 240), 38);
    assert_eq!(glue_width('a', 100, 240), 0);
}

#[test]
fn test_style_default() {
    let s = StyleData::default();
    assert_eq!(s.display, Display::Block);
    assert_eq!(s.text_align, TextAlign::Left);
    assert_eq!(s.font_kind, FontKind::Serif);
    assert_eq!(s.color, 0);
    assert_eq!(s.margin, Edge::default());
    assert!(s.language.is_none());
    let sib = SiblingStyle::default();
    assert_eq!(sib.padding_bottom, 0);
    assert_eq!(sib.margin_bottom, 0);
}

#[test]
fn test_resolve_style_inheritance() {
    let mut parent = StyleData::default();
    parent.font_kind = FontKind::Monospace;
    parent.font_size = 18;
    parent.text_align = TextAlign::Justify;
    parent.language = Some(String::from("de"));
    parent.margin = Edge { top: 9, right: 9, bottom: 9, left: 9 };
    let spec = StyleSpec {
        display: None,
        width: None,
        height: None,
        margin: None,
        padding: None,
        retain_whitespace: None,
        text_align: None,
        text_indent: Some(30),
        line_height: None,
        language: None,
        font_kind: None,
        font_style: Some(FontStyle::Italic),
        font_weight: None,
        font_size: None,
        color: None,
        letter_spacing: None,
        vertical_align: None,
        uri: None,
    };
    let r = resolve_style(&spec, &parent);
    // Text properties inherit; box metrics reset to the defaults.
    assert_eq!(r.font_kind, FontKind::Monospace);
    assert_eq!(r.font_size, 18);
    assert_eq!(r.text_align, TextAlign::Justify);
    assert_eq!(r.language.as_deref(), Some("de"));
    assert_eq!(r.text_indent, 30);
    assert!(matches!(r.font_style, FontStyle::Italic));
    assert_eq!(r.margin, Edge::default());
    assert_eq!(r.display, Display::Block);
}

fn face(id: u32) -> Font {
    Font { face_id: id, size: 0 }
}

fn family(base: u32) -> FontFamily {
    FontFamily {
        regular: face(base),
        bold: face(base + 1),
        italic: face(base + 2),
        bold_italic: face(base + 3),
    }
}

#[test]
fn test_fonts_get_mut_matrix() {
    let mut fonts = Fonts {
        serif: family(0),
        sans_serif: family(10),
        monospace: family(20),
        cursive: face(30),
        fantasy: face(40),
    };
    assert_eq!(fonts.get_mut(FontKind::Serif, FontStyle::Normal, FontWeight::Normal).face_id, 0);
    assert_eq!(fonts.get_mut(FontKind::Serif, FontStyle::Italic, FontWeight::Bold).face_id, 3);
    assert_eq!(fonts.get_mut(FontKind::SansSerif, FontStyle::Normal, FontWeight::Bold).face_id, 11);
    assert_eq!(fonts.get_mut(FontKind::Monospace, FontStyle::Italic, FontWeight::Normal).face_id, 22);
    // Cursive and Fantasy ignore style and weight.
    assert_eq!(fonts.get_mut(FontKind::Cursive, FontStyle::Italic, FontWeight::Bold).face_id, 30);
    assert_eq!(fonts.get_mut(FontKind::Fantasy, FontStyle::Normal, FontWeight::Bold).face_id, 40);
    // The handle is mutable: a size set through it lands in the registry.
    fonts.get_mut(FontKind::Serif, FontStyle::Normal, FontWeight::Normal).size = 14;
    assert_eq!(fonts.serif.regular.size, 14);
    assert_eq!(fonts.serif.bold.size, 0);
}
