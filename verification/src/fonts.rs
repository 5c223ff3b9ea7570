//! Font selection: a closed registry of faces keyed by kind, style and
//! weight.  Rasterization and shaping stay outside the crate; a face here
//! carries only what layout reads.

use vstd::prelude::*;

verus! {

/// The five generic font kinds a style may ask for.
#[derive(Debug, Clone, Copy, PartialEq, Eq, Structural)]
pub enum FontKind {
    Serif,
    SansSerif,
    Monospace,
    Cursive,
    Fantasy,
}

#[derive(Debug, Clone, Copy, PartialEq, Eq, Structural)]
pub enum FontStyle {
    Normal,
    Italic,
}

#[derive(Debug, Clone, Copy, PartialEq, Eq, Structural)]
pub enum FontWeight {
    Normal,
    Bold,
}

/// A loaded face, reduced to the plain values layout needs: an identifier
/// for the external shaper and the currently configured pixel size.
#[derive(Debug, Clone, Copy, PartialEq, Eq, Structural)]
pub struct Font {
    pub face_id: u32,
    pub size: u32,
}

/// The 2x2 style-by-weight face matrix of one family.
#[derive(Debug, Clone, Copy, PartialEq, Eq, Structural)]
pub struct FontFamily {
    pub regular: Font,
    pub bold: Font,
    pub italic: Font,
    pub bold_italic: Font,
}

/// The whole registry: three full families and two single-face families.
#[derive(Debug, Clone, Copy, PartialEq, Eq, Structural)]
pub struct Fonts {
    pub serif: FontFamily,
    pub sans_serif: FontFamily,
    pub monospace: FontFamily,
    pub cursive: Font,
    pub fantasy: Font,
}

impl FontFamily {
    /// The face this family offers for a style-weight pair.
    pub open spec fn spec_face(self, font_style: FontStyle, font_weight: FontWeight) -> Font {
        match (font_style, font_weight) {
            (FontStyle::Normal, FontWeight::Normal) => self.regular,
            (FontStyle::Normal, FontWeight::Bold) => self.bold,
            (FontStyle::Italic, FontWeight::Normal) => self.italic,
            (FontStyle::Italic, FontWeight::Bold) => self.bold_italic,
        }
    }

    /// The same family with the face for the pair replaced by `f`.
    pub open spec fn spec_with_face(self, font_style: FontStyle, font_weight: FontWeight, f: Font) -> FontFamily {
        match (font_style, font_weight) {
            (FontStyle::Normal, FontWeight::Normal) => FontFamily { regular: f, ..self },
            (FontStyle::Normal, FontWeight::Bold) => FontFamily { bold: f, ..self },
            (FontStyle::Italic, FontWeight::Normal) => FontFamily { italic: f, ..self },
            (FontStyle::Italic, FontWeight::Bold) => FontFamily { bold_italic: f, ..self },
        }
    }
}

impl Fonts {
    /// The face the registry resolves for a kind-style-weight triple.
    /// Cursive and Fantasy are single-face families: style and weight are
    /// accepted but ignored for those two kinds.
    pub open spec fn spec_face(self, font_kind: FontKind, font_style: FontStyle, font_weight: FontWeight) -> Font {
        match font_kind {
            FontKind::Serif => self.serif.spec_face(font_style, font_weight),
            FontKind::SansSerif => self.sans_serif.spec_face(font_style, font_weight),
            FontKind::Monospace => self.monospace.spec_face(font_style, font_weight),
            FontKind::Cursive => self.cursive,
            FontKind::Fantasy => self.fantasy,
        }
    }

    /// The registry with the face for the triple replaced by `f`.
    pub open spec fn spec_with_face(self, font_kind: FontKind, font_style: FontStyle, font_weight: FontWeight, f: Font) -> Fonts {
        match font_kind {
            FontKind::Serif => Fonts { serif: self.serif.spec_with_face(font_style, font_weight, f), ..self },
            FontKind::SansSerif => Fonts { sans_serif: self.sans_serif.spec_with_face(font_style, font_weight, f), ..self },
            FontKind::Monospace => Fonts { monospace: self.monospace.spec_with_face(font_style, font_weight, f), ..self },
            FontKind::Cursive => Fonts { cursive: f, ..self },
            FontKind::Fantasy => Fonts { fantasy: f, ..self },
        }
    }

    /// Borrow the face matching the triple, mutably, for a measurement or
    /// shaping call; the registry afterwards holds whatever the caller left
    /// in the returned handle.
    pub fn get_mut(&mut self, font_kind: FontKind, font_style: FontStyle, font_weight: FontWeight) -> (ret: &mut Font)
        ensures
            *ret == old(self).spec_face(font_kind, font_style, font_weight),
            *final(self) == old(self).spec_with_face(font_kind, font_style, font_weight, *final(ret)),
    {
        match font_kind {
            FontKind::Serif => {
                match (font_style, font_weight) {
                    (FontStyle::Normal, FontWeight::Normal) => &mut self.serif.regular,
                    (FontStyle::Normal, FontWeight::Bold) => &mut self.serif.bold,
                    (FontStyle::Italic, FontWeight::Normal) => &mut self.serif.italic,
                    (FontStyle::Italic, FontWeight::Bold) => &mut self.serif.bold_italic,
                }
            },
            FontKind::SansSerif => {
                match (font_style, font_weight) {
                    (FontStyle::Normal, FontWeight::Normal) => &mut self.sans_serif.regular,
                    (FontStyle::Normal, FontWeight::Bold) => &mut self.sans_serif.bold,
                    (FontStyle::Italic, FontWeight::Normal) => &mut self.sans_serif.italic,
                    (FontStyle::Italic, FontWeight::Bold) => &mut self.sans_serif.bold_italic,
                }
            },
            FontKind::Monospace => {
                match (font_style, font_weight) {
                    (FontStyle::Normal, FontWeight::Normal) => &mut self.monospace.regular,
                    (FontStyle::Normal, FontWeight::Bold) => &mut self.monospace.bold,
                    (FontStyle::Italic, FontWeight::Normal) => &mut self.monospace.italic,
                    (FontStyle::Italic, FontWeight::Bold) => &mut self.monospace.bold_italic,
                }
            },
            FontKind::Cursive => &mut self.cursive,
            FontKind::Fantasy => &mut self.fantasy,
        }
    }
}

} // verus!
