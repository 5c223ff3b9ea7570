//! Space and break tokenization: stretch ratios for the space-category
//! characters, and the splitter that parts a text run at runs of breakable
//! punctuation.

use vstd::prelude::*;

verus! {

/// Characters after which a line may break without a space: hyphen, en
/// dash, em dash, slash and at sign.
pub open spec fn is_special_char(c: char) -> bool {
    c == '-' || c == '\u{2013}' || c == '\u{2014}' || c == '/' || c == '@'
}

pub fn special_char(c: char) -> (r: bool)
    ensures
        r == is_special_char(c),
{
    c == '-' || c == '\u{2013}' || c == '\u{2014}' || c == '/' || c == '@'
}

/// Stretch ratio of the em-space family, in hundredths of the em width:
/// em, en, three-per-em, four-per-em and six-per-em spaces.
pub open spec fn spec_em_space_ratio(c: char) -> Option<u32> {
    if c == '\u{2003}' {
        Some(100u32)
    } else if c == '\u{2002}' {
        Some(50u32)
    } else if c == '\u{2004}' {
        Some(33u32)
    } else if c == '\u{2005}' {
        Some(25u32)
    } else if c == '\u{2006}' {
        Some(16u32)
    } else {
        None
    }
}

pub fn em_space_ratio(c: char) -> (r: Option<u32>)
    ensures
        r == spec_em_space_ratio(c),
{
    if c == '\u{2003}' {
        Some(100)
    } else if c == '\u{2002}' {
        Some(50)
    } else if c == '\u{2004}' {
        Some(33)
    } else if c == '\u{2005}' {
        Some(25)
    } else if c == '\u{2006}' {
        Some(16)
    } else {
        None
    }
}

/// Stretch ratio of the word-space family, in hundredths of the standard
/// word-space width: tab, no-break space, narrow no-break space, thin
/// space and hair space.
pub open spec fn spec_word_space_ratio(c: char) -> Option<u32> {
    if c == '\t' {
        Some(400u32)
    } else if c == '\u{00A0}' {
        Some(100u32)
    } else if c == '\u{202F}' {
        Some(50u32)
    } else if c == '\u{2009}' {
        Some(50u32)
    } else if c == '\u{200A}' {
        Some(25u32)
    } else {
        None
    }
}

pub fn word_space_ratio(c: char) -> (r: Option<u32>)
    ensures
        r == spec_word_space_ratio(c),
{
    if c == '\t' {
        Some(400)
    } else if c == '\u{00A0}' {
        Some(100)
    } else if c == '\u{202F}' {
        Some(50)
    } else if c == '\u{2009}' {
        Some(50)
    } else if c == '\u{200A}' {
        Some(25)
    } else {
        None
    }
}

/// Spaces drawn at the plain word-space width: the ASCII space plus the
/// figure and punctuation spaces.
pub open spec fn is_font_space(c: char) -> bool {
    c == ' ' || c == '\u{2007}' || c == '\u{2008}'
}

pub fn font_space(c: char) -> (r: bool)
    ensures
        r == is_font_space(c),
{
    c == ' ' || c == '\u{2007}' || c == '\u{2008}'
}

/// A character is glue exactly when one of the two ratio tables lists it
/// or it is a plain font space.
pub open spec fn is_glue_char(c: char) -> bool {
    spec_em_space_ratio(c) is Some || spec_word_space_ratio(c) is Some || is_font_space(c)
}

pub fn glue_char(c: char) -> (r: bool)
    ensures
        r == is_glue_char(c),
{
    em_space_ratio(c).is_some() || word_space_ratio(c).is_some() || font_space(c)
}

/// The width a glue character takes: its table ratio applied to the em
/// width or the word-space width; a plain font space takes the word-space
/// width; a non-glue character takes nothing.
pub open spec fn spec_glue_width(c: char, space_width: int, em_width: int) -> int {
    match spec_em_space_ratio(c) {
        Some(r) => em_width * r / 100,
        None => match spec_word_space_ratio(c) {
            Some(r) => space_width * r / 100,
            None => if is_font_space(c) {
                space_width
            } else {
                0
            },
        },
    }
}

pub fn glue_width(c: char, space_width: i32, em_width: i32) -> (r: i32)
    requires
        0 <= space_width <= 1000000,
        0 <= em_width <= 1000000,
    ensures
        r == spec_glue_width(c, space_width as int, em_width as int),
{
    match em_space_ratio(c) {
        Some(ratio) => {
            proof {
                assert(ratio <= 100);
                assert(0 <= (em_width as int) * (ratio as int) <= 100000000) by (nonlinear_arith)
                    requires
                        0 <= em_width <= 1000000,
                        0 <= ratio <= 100,
                ;
            }
            em_width * (ratio as i32) / 100
        },
        None => match word_space_ratio(c) {
            Some(ratio) => {
                proof {
                    assert(ratio <= 400);
                    assert(0 <= (space_width as int) * (ratio as int) <= 400000000) by (nonlinear_arith)
                        requires
                            0 <= space_width <= 1000000,
                            0 <= ratio <= 400,
                    ;
                }
                space_width * (ratio as i32) / 100
            },
            None => if font_space(c) {
                space_width
            } else {
                0
            },
        },
    }
}

/// End of the maximal run of same-class characters (special versus not)
/// that starts at `i`.
pub open spec fn run_end(s: Seq<char>, i: int) -> int
    decreases s.len() - i,
{
    if i < 0 || i >= s.len() {
        i
    } else if i + 1 == s.len() {
        s.len() as int
    } else if is_special_char(s[i + 1]) != is_special_char(s[i]) {
        i + 1
    } else {
        run_end(s, i + 1)
    }
}

pub proof fn lemma_run_end(s: Seq<char>, i: int)
    requires
        0 <= i < s.len(),
    ensures
        i < run_end(s, i) <= s.len(),
        forall|k: int| i <= k < run_end(s, i) ==> is_special_char(s[k]) == is_special_char(s[i]),
        run_end(s, i) < s.len() ==> is_special_char(s[run_end(s, i)]) != is_special_char(s[i]),
    decreases s.len() - i,
{
    if i + 1 == s.len() {
    } else if is_special_char(s[i + 1]) != is_special_char(s[i]) {
    } else {
        lemma_run_end(s, i + 1);
    }
}

pub proof fn lemma_run_end_unique(s: Seq<char>, i: int, j: int)
    requires
        0 <= i < j <= s.len(),
        forall|k: int| i < k < j ==> is_special_char(s[k]) == is_special_char(s[i]),
        j < s.len() ==> is_special_char(s[j]) != is_special_char(s[i]),
    ensures
        run_end(s, i) == j,
    decreases s.len() - i,
{
    if i + 1 == s.len() {
    } else if is_special_char(s[i + 1]) != is_special_char(s[i]) {
        assert(j == i + 1);
    } else {
        assert(j != i + 1);
        lemma_run_end_unique(s, i + 1, j);
    }
}

/// The alternating maximal runs of a text, from position `i` on.
pub open spec fn segments_from(s: Seq<char>, i: int) -> Seq<Seq<char>>
    decreases s.len() - i,
    via segments_from_decreases
{
    if i < 0 || i >= s.len() {
        Seq::empty()
    } else {
        seq![s.subrange(i, run_end(s, i))] + segments_from(s, run_end(s, i))
    }
}

#[via_fn]
proof fn segments_from_decreases(s: Seq<char>, i: int) {
    if 0 <= i && i < s.len() {
        lemma_run_end(s, i);
    }
}

/// The segments the splitter yields: each a maximal run of special
/// characters or a maximal run of other characters, in order.
pub open spec fn segments(s: Seq<char>) -> Seq<Seq<char>> {
    segments_from(s, 0)
}

/// The concatenation of a sequence of segments.
pub open spec fn concat_all(ss: Seq<Seq<char>>) -> Seq<char>
    decreases ss.len(),
{
    if ss.len() == 0 {
        Seq::empty()
    } else {
        ss[0] + concat_all(ss.subrange(1, ss.len() as int))
    }
}

proof fn lemma_segments_from_concat(s: Seq<char>, i: int)
    requires
        0 <= i <= s.len(),
    ensures
        concat_all(segments_from(s, i)) == s.subrange(i, s.len() as int),
    decreases s.len() - i,
{
    if i >= s.len() {
        assert(concat_all(segments_from(s, i)) =~= s.subrange(i, s.len() as int));
    } else {
        lemma_run_end(s, i);
        let e = run_end(s, i);
        lemma_segments_from_concat(s, e);
        let ss = segments_from(s, i);
        assert(ss.subrange(1, ss.len() as int) =~= segments_from(s, e));
        assert(concat_all(ss) == s.subrange(i, e) + concat_all(segments_from(s, e)));
        assert(s.subrange(i, e) + s.subrange(e, s.len() as int) =~= s.subrange(i, s.len() as int));
    }
}

/// Splitting is lossless: concatenating every yielded segment, in order,
/// rebuilds the text exactly.
pub proof fn lemma_segments_concat(s: Seq<char>)
    ensures
        concat_all(segments(s)) == s,
{
    lemma_segments_from_concat(s, 0);
    assert(s.subrange(0, s.len() as int) =~= s);
}

/// A non-empty text without special characters yields exactly one segment:
/// the whole text.
pub proof fn lemma_segments_whole(s: Seq<char>)
    requires
        s.len() > 0,
        forall|k: int| 0 <= k < s.len() ==> !is_special_char(s[k]),
    ensures
        segments(s) =~= seq![s],
{
    lemma_run_end_unique(s, 0, s.len() as int);
    assert(s.subrange(0, s.len() as int) =~= s);
    assert(segments_from(s, s.len() as int) =~= Seq::<Seq<char>>::empty());
}

/// Every yielded segment is non-empty, uniform in class, and maximal: the
/// next segment starts with the other class.
pub proof fn lemma_segments_alternate(s: Seq<char>, idx: int)
    requires
        0 <= idx < segments(s).len() - 1,
    ensures
        segments(s)[idx].len() > 0,
        segments(s)[idx + 1].len() > 0,
        is_special_char(segments(s)[idx + 1][0]) != is_special_char(segments(s)[idx][0]),
{
    lemma_segments_alternate_from(s, 0, idx);
}

proof fn lemma_segments_alternate_from(s: Seq<char>, i: int, idx: int)
    requires
        0 <= i <= s.len(),
        0 <= idx < segments_from(s, i).len() - 1,
    ensures
        segments_from(s, i)[idx].len() > 0,
        segments_from(s, i)[idx + 1].len() > 0,
        is_special_char(segments_from(s, i)[idx + 1][0]) != is_special_char(segments_from(s, i)[idx][0]),
    decreases s.len() - i,
{
    let ss = segments_from(s, i);
    assert(i < s.len());
    lemma_run_end(s, i);
    let e = run_end(s, i);
    if idx == 0 {
        assert(ss[0] == s.subrange(i, e));
        assert(ss[1] == segments_from(s, e)[0]);
        assert(e < s.len());
        lemma_run_end(s, e);
        let e2 = run_end(s, e);
        assert(segments_from(s, e)[0] == s.subrange(e, e2));
        assert(ss[1][0] == s[e]);
        assert(ss[0][0] == s[i]);
    } else {
        lemma_segments_alternate_from(s, e, idx - 1);
        assert(ss[idx] == segments_from(s, e)[idx - 1]);
        assert(ss[idx + 1] == segments_from(s, e)[idx]);
    }
}

/// A restartable, forward-only splitter over a text run.  It yields
/// borrowed slices: alternating maximal runs of special and ordinary
/// characters.
pub struct SpecialSplitter<'a> {
    text: &'a str,
    current: usize,
}

impl<'a> SpecialSplitter<'a> {
    /// The text being split.
    pub closed spec fn text_view(self) -> Seq<char> {
        self.text@
    }

    /// The position (in characters) the next segment starts at.
    pub closed spec fn pos(self) -> int {
        self.current as int
    }

    pub fn new(text: &'a str) -> (r: SpecialSplitter<'a>)
        ensures
            r.text_view() == text@,
            r.pos() == 0,
    {
        SpecialSplitter { text, current: 0 }
    }

    /// The next segment, or `None` once the text is exhausted.
    pub fn next(&mut self) -> (r: Option<&'a str>)
        requires
            old(self).pos() <= old(self).text_view().len(),
        ensures
            final(self).text_view() == old(self).text_view(),
            old(self).pos() == old(self).text_view().len() ==> r is None && final(self).pos() == old(self).pos(),
            old(self).pos() < old(self).text_view().len() ==> {
                &&& final(self).pos() == run_end(old(self).text_view(), old(self).pos())
                &&& r matches Some(seg) && seg@ == old(self).text_view().subrange(
                    old(self).pos(),
                    run_end(old(self).text_view(), old(self).pos()),
                )
            },
    {
        let n = self.text.unicode_len();
        if self.current == n {
            return None;
        }
        let ghost s = self.text@;
        let ghost i = self.current as int;
        proof {
            lemma_run_end(s, i);
        }
        let cls = special_char(self.text.get_char(self.current));
        let mut j: usize = self.current + 1;
        while j < n && special_char(self.text.get_char(j)) == cls
            invariant
                n == s.len(),
                self.text@ == s,
                0 <= i < s.len(),
                i < j <= n,
                cls == is_special_char(s[i]),
                forall|k: int| i < k < j ==> is_special_char(s[k]) == is_special_char(s[i]),
            decreases n - j,
        {
            j = j + 1;
        }
        proof {
            lemma_run_end_unique(s, i, j as int);
        }
        let seg = self.text.substring_char(self.current, j);
        self.current = j;
        Some(seg)
    }
}

} // verus!
