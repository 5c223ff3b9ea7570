//! The inline material builder: walk a block's inline content and emit the
//! flat stream of typesetting atoms the line breaker consumes.

use vstd::prelude::*;
use crate::material::{InlineMaterial, TextMaterial, ImageMaterial, GlueMaterial, PenaltyMaterial};
use crate::style::StyleData;
use crate::tokens::{is_special_char, is_glue_char, spec_glue_width, run_end, special_char, glue_char, glue_width};
use crate::hyph::chars_of;

verus! {

/// The penalty score charged for breaking after a run of breakable
/// punctuation.
pub const SPECIAL_PENALTY: i32 = 50;

/// The characters the builder treats as inter-word whitespace: the glue
/// characters plus line endings.
pub open spec fn is_space_char(c: char) -> bool {
    is_glue_char(c) || c == '\n' || c == '\r'
}

pub fn space_char(c: char) -> (r: bool)
    ensures
        r == is_space_char(c),
{
    glue_char(c) || c == '\n' || c == '\r'
}

/// The character a collapsed whitespace run is sized by: a line ending
/// counts as a plain space.
pub open spec fn space_rep(c: char) -> char {
    if c == '\n' || c == '\r' {
        ' '
    } else {
        c
    }
}

/// Glue stretches by half its width and shrinks by a third of it.
pub open spec fn spec_stretch(w: int) -> int {
    w / 2
}

pub open spec fn spec_shrink(w: int) -> int {
    w / 3
}

/// The ghost shape of one emitted atom: what the contracts speak of.  The
/// resolved style runs through the atoms unchanged and is not part of the
/// shape.
pub enum MatModel {
    Text { offset: int, text: Seq<char> },
    Image { offset: int, path: Seq<char> },
    Glue { width: int, stretch: int, shrink: int },
    Penalty { width: int, penalty: int, flagged: bool },
    Box { width: int },
    LineBreak,
}

pub open spec fn model_of(m: InlineMaterial) -> MatModel {
    match m {
        InlineMaterial::Text(t) => MatModel::Text { offset: t.offset as int, text: t.text@ },
        InlineMaterial::Image(im) => MatModel::Image { offset: im.offset as int, path: im.path@ },
        InlineMaterial::Glue(g) => MatModel::Glue {
            width: g.width as int,
            stretch: g.stretch as int,
            shrink: g.shrink as int,
        },
        InlineMaterial::Penalty(p) => MatModel::Penalty {
            width: p.width as int,
            penalty: p.penalty as int,
            flagged: p.flagged,
        },
        InlineMaterial::Box(w) => MatModel::Box { width: w as int },
        InlineMaterial::LineBreak => MatModel::LineBreak,
    }
}

pub open spec fn models_of(ms: Seq<InlineMaterial>) -> Seq<MatModel> {
    ms.map_values(|m: InlineMaterial| model_of(m))
}

/// The atoms of one word `s[q..p)`: a text atom per maximal run of special
/// or ordinary characters, and after every run of breakable punctuation
/// that is not the word's end, a flagged zero-width penalty.
pub open spec fn word_atoms(off: int, s: Seq<char>, q: int, p: int) -> Seq<MatModel>
    decreases p - q,
    via word_atoms_decreases
{
    if q < 0 || q >= p || p > s.len() {
        Seq::empty()
    } else {
        let e = if run_end(s, q) < p { run_end(s, q) } else { p };
        let head = seq![MatModel::Text { offset: off + q, text: s.subrange(q, e) }];
        let sep: Seq<MatModel> = if e < p && is_special_char(s[e - 1]) {
            seq![MatModel::Penalty { width: 0, penalty: SPECIAL_PENALTY as int, flagged: true }]
        } else {
            Seq::empty()
        };
        head + sep + word_atoms(off, s, e, p)
    }
}

#[via_fn]
proof fn word_atoms_decreases(off: int, s: Seq<char>, q: int, p: int) {
    if 0 <= q && q < p && p <= s.len() {
        crate::tokens::lemma_run_end(s, q);
    }
}

/// The collapsed glue atom a whitespace run contributes, sized by its
/// first character.
pub open spec fn glue_model(c: char, space_width: int, em_width: int) -> MatModel {
    let w = spec_glue_width(c, space_width, em_width);
    MatModel::Glue { width: w, stretch: spec_stretch(w), shrink: spec_shrink(w) }
}

/// The atoms of one text run under whitespace collapsing, from position
/// `q` on.  `pending` holds the first character of an unemitted whitespace
/// run; `started` tells whether the block has emitted any word yet, so
/// leading whitespace is dropped.  Trailing whitespace is dropped when the
/// run closes the block (`is_last`).
pub open spec fn collapse_from(off: int, s: Seq<char>, q: int, pending: Option<char>, started: bool, is_last: bool, spacew: int, emw: int) -> Seq<MatModel>
    decreases s.len() - q,
    via collapse_from_decreases
{
    if q < 0 || q >= s.len() {
        match pending {
            Some(c) => if is_last {
                Seq::empty()
            } else {
                seq![glue_model(c, spacew, emw)]
            },
            None => Seq::empty(),
        }
    } else if is_space_char(s[q]) {
        let np = if pending is Some || !started {
            pending
        } else {
            Some(space_rep(s[q]))
        };
        collapse_from(off, s, q + 1, np, started, is_last, spacew, emw)
    } else {
        let e = word_end(s, q);
        let lead: Seq<MatModel> = match pending {
            Some(c) => seq![glue_model(c, spacew, emw)],
            None => Seq::empty(),
        };
        lead + word_atoms(off, s, q, e) + collapse_from(off, s, e, None, true, is_last, spacew, emw)
    }
}

/// End of the word starting at `q`: the next glue character, or the end.
pub open spec fn word_end(s: Seq<char>, q: int) -> int
    decreases s.len() - q,
{
    if q < 0 || q >= s.len() {
        s.len() as int
    } else if is_space_char(s[q]) {
        q
    } else {
        word_end(s, q + 1)
    }
}

proof fn lemma_word_end(s: Seq<char>, q: int)
    requires
        0 <= q <= s.len(),
    ensures
        q <= word_end(s, q) <= s.len(),
        forall|k: int| q <= k < word_end(s, q) ==> !is_space_char(s[k]),
        word_end(s, q) < s.len() ==> is_space_char(s[word_end(s, q)]),
    decreases s.len() - q,
{
    if q < s.len() && !is_space_char(s[q]) {
        lemma_word_end(s, q + 1);
    }
}

#[via_fn]
proof fn collapse_from_decreases(off: int, s: Seq<char>, q: int, pending: Option<char>, started: bool, is_last: bool, spacew: int, emw: int) {
    if 0 <= q && q < s.len() && !is_space_char(s[q]) {
        lemma_word_end(s, q);
        if word_end(s, q) == q {
            assert(false);
        }
    }
}

/// The atoms of one text run with whitespace retained: every glue
/// character is its own glue atom, every newline a forced break, and
/// words stand as they are.
pub open spec fn retain_from(off: int, s: Seq<char>, q: int, spacew: int, emw: int) -> Seq<MatModel>
    decreases s.len() - q,
    via retain_from_decreases
{
    if q < 0 || q >= s.len() {
        Seq::empty()
    } else if s[q] == '\n' {
        seq![MatModel::LineBreak] + retain_from(off, s, q + 1, spacew, emw)
    } else if is_space_char(s[q]) {
        seq![glue_model(s[q], spacew, emw)] + retain_from(off, s, q + 1, spacew, emw)
    } else {
        let e = word_end(s, q);
        word_atoms(off, s, q, e) + retain_from(off, s, e, spacew, emw)
    }
}

#[via_fn]
proof fn retain_from_decreases(off: int, s: Seq<char>, q: int, spacew: int, emw: int) {
    if 0 <= q && q < s.len() && s[q] != '\n' && !is_space_char(s[q]) {
        lemma_word_end(s, q);
    }
}

/// Whether a run contains any word character at all.
pub open spec fn has_word(s: Seq<char>) -> bool {
    exists|k: int| 0 <= k < s.len() && !is_space_char(#[trigger] s[k])
}

/// Whether the block counts as started once the run is processed.
pub open spec fn spec_started_after(s: Seq<char>, retain: bool, started: bool) -> bool {
    if retain {
        true
    } else {
        started || has_word(s)
    }
}

/// What one styled text run contributes to the block's atom stream.
pub open spec fn spec_text_material(off: int, s: Seq<char>, retain: bool, started: bool, is_last: bool, spacew: int, emw: int) -> Seq<MatModel> {
    if retain {
        retain_from(off, s, 0, spacew, emw)
    } else {
        collapse_from(off, s, 0, None, started, is_last, spacew, emw)
    }
}

/// Emit the atoms of the word `cs[q..e)` of the run `text`, pushing onto
/// `out`.
fn push_word_atoms(out: &mut Vec<InlineMaterial>, text: &str, cs: &Vec<char>, offset: usize, q: usize, e: usize, style: &StyleData) -> (r: ())
    requires
        cs@ == text@,
        q <= e <= cs@.len(),
        offset + cs@.len() <= usize::MAX,
    ensures
        models_of(final(out)@) == models_of(old(out)@) + word_atoms(offset as int, cs@, q as int, e as int),
{
    let ghost base = out@;
    let ghost s = cs@;
    let mut p: usize = q;
    while p < e
        invariant
            cs@ == text@,
            s == cs@,
            q <= p <= e <= s.len(),
            offset + s.len() <= usize::MAX,
            models_of(base) + word_atoms(offset as int, s, q as int, e as int)
                == models_of(out@) + word_atoms(offset as int, s, p as int, e as int),
        decreases e - p,
    {
        proof {
            crate::tokens::lemma_run_end(s, p as int);
        }
        // Find the end of this maximal run, capped at the word's end.
        let mut j: usize = p + 1;
        let cls = special_char(cs[p]);
        while j < e && special_char(cs[j]) == cls
            invariant
                s == cs@,
                p < j <= e <= s.len(),
                cls == is_special_char(s[p as int]),
                forall|k: int| p < k < j ==> is_special_char(s[k]) == is_special_char(s[p as int]),
            decreases e - j,
        {
            j = j + 1;
        }
        let ghost re = run_end(s, p as int);
        proof {
            if j < e {
                crate::tokens::lemma_run_end_unique(s, p as int, j as int);
            } else {
                if re < e {
                    assert(is_special_char(s[re]) != is_special_char(s[p as int]));
                    assert(false);
                }
            }
            assert((if re < e { re } else { e as int }) == j as int);
        }
        let seg = text.substring_char(p, j);
        let tm = TextMaterial {
            offset: offset + p,
            text: seg.to_owned(),
            style: style.clone(),
        };
        let ghost before = out@;
        out.push(InlineMaterial::Text(tm));
        proof {
            assert(models_of(out@) =~= models_of(before).push(
                MatModel::Text { offset: offset as int + p, text: s.subrange(p as int, j as int) }));
        }
        if j < e && special_char(cs[j - 1]) {
            let ghost before2 = out@;
            out.push(InlineMaterial::Penalty(PenaltyMaterial {
                width: 0,
                penalty: SPECIAL_PENALTY,
                flagged: true,
            }));
            proof {
                assert(models_of(out@) =~= models_of(before2).push(
                    MatModel::Penalty { width: 0, penalty: SPECIAL_PENALTY as int, flagged: true }));
            }
        }
        proof {
            let head = seq![MatModel::Text { offset: offset as int + p, text: s.subrange(p as int, j as int) }];
            let sep: Seq<MatModel> = if j < e && is_special_char(s[j - 1]) {
                seq![MatModel::Penalty { width: 0, penalty: SPECIAL_PENALTY as int, flagged: true }]
            } else {
                Seq::empty()
            };
            assert(word_atoms(offset as int, s, p as int, e as int)
                == head + sep + word_atoms(offset as int, s, j as int, e as int));
            assert(models_of(base) + word_atoms(offset as int, s, q as int, e as int)
                =~= models_of(out@) + word_atoms(offset as int, s, j as int, e as int));
        }
        p = j;
    }
    proof {
        assert(word_atoms(offset as int, s, e as int, e as int) =~= Seq::<MatModel>::empty());
        assert(models_of(out@) =~= models_of(base) + word_atoms(offset as int, s, q as int, e as int));
    }
}

/// Append the atoms of one styled text run to a block's stream: under
/// whitespace collapsing, words become text atoms split at breakable
/// punctuation, whitespace runs collapse to one glue atom sized by their
/// first character, and leading and trailing whitespace at the block's
/// boundaries is dropped; with whitespace retained, every character
/// stands, newlines force breaks.  Returns whether the block has emitted
/// a word after this run.
pub fn append_text_material(out: &mut Vec<InlineMaterial>, offset: usize, text: &str, style: &StyleData, started: bool, is_last: bool, space_width: i32, em_width: i32) -> (now_started: bool)
    requires
        0 <= space_width <= 1000000,
        0 <= em_width <= 1000000,
        offset + text@.len() <= usize::MAX,
    ensures
        models_of(final(out)@) == models_of(old(out)@) + spec_text_material(
            offset as int,
            text@,
            style.retain_whitespace,
            started,
            is_last,
            space_width as int,
            em_width as int,
        ),
        now_started == spec_started_after(text@, style.retain_whitespace, started),
{
    let cs = chars_of(text);
    let ghost s = cs@;
    let ghost base = out@;
    let n = cs.len();
    if style.retain_whitespace {
        let mut q: usize = 0;
        while q < n
            invariant
                s == cs@,
                cs@ == text@,
                n == s.len(),
                q <= n,
                offset + s.len() <= usize::MAX,
                0 <= space_width <= 1000000,
                0 <= em_width <= 1000000,
                models_of(base) + retain_from(offset as int, s, 0, space_width as int, em_width as int)
                    == models_of(out@) + retain_from(offset as int, s, q as int, space_width as int, em_width as int),
            decreases n - q,
        {
            let c = cs[q];
            if c == '\n' {
                let ghost before = out@;
                out.push(InlineMaterial::LineBreak);
                proof {
                    assert(models_of(out@) =~= models_of(before).push(MatModel::LineBreak));
                    assert(models_of(base) + retain_from(offset as int, s, 0, space_width as int, em_width as int)
                        =~= models_of(out@) + retain_from(offset as int, s, q as int + 1, space_width as int, em_width as int));
                }
                q = q + 1;
            } else if space_char(c) {
                let w = glue_width(c, space_width, em_width);
                let ghost before = out@;
                out.push(InlineMaterial::Glue(GlueMaterial { width: w, stretch: w / 2, shrink: w / 3 }));
                proof {
                    assert(models_of(out@) =~= models_of(before).push(glue_model(c, space_width as int, em_width as int)));
                    assert(models_of(base) + retain_from(offset as int, s, 0, space_width as int, em_width as int)
                        =~= models_of(out@) + retain_from(offset as int, s, q as int + 1, space_width as int, em_width as int));
                }
                q = q + 1;
            } else {
                proof {
                    lemma_word_end(s, q as int);
                }
                let mut e: usize = q + 1;
                while e < n && !space_char(cs[e])
                    invariant
                        s == cs@,
                        n == s.len(),
                        q < e <= n,
                        forall|k: int| q < k < e ==> !is_space_char(s[k]),
                    decreases n - e,
                {
                    e = e + 1;
                }
                proof {
                    lemma_word_end_unique(s, q as int, e as int);
                }
                push_word_atoms(out, text, &cs, offset, q, e, style);
                proof {
                    assert(models_of(base) + retain_from(offset as int, s, 0, space_width as int, em_width as int)
                        =~= models_of(out@) + retain_from(offset as int, s, e as int, space_width as int, em_width as int));
                }
                q = e;
            }
        }
        proof {
            assert(retain_from(offset as int, s, n as int, space_width as int, em_width as int)
                =~= Seq::<MatModel>::empty());
            assert(models_of(out@) =~= models_of(base) + spec_text_material(
                offset as int, text@, style.retain_whitespace, started, is_last,
                space_width as int, em_width as int));
        }
        true
    } else {
        let mut q: usize = 0;
        let mut pending: Option<char> = None;
        let mut st = started;
        while q < n
            invariant
                s == cs@,
                cs@ == text@,
                n == s.len(),
                q <= n,
                st == (started || exists|k: int| 0 <= k < q && !is_space_char(#[trigger] s[k])),
                offset + s.len() <= usize::MAX,
                0 <= space_width <= 1000000,
                0 <= em_width <= 1000000,
                models_of(base) + collapse_from(offset as int, s, 0, None, started, is_last, space_width as int, em_width as int)
                    == models_of(out@) + collapse_from(offset as int, s, q as int, pending, st, is_last, space_width as int, em_width as int),
            decreases n - q,
        {
            let c = cs[q];
            if space_char(c) {
                if pending.is_none() && st {
                    pending = Some(if c == '\n' || c == '\r' { ' ' } else { c });
                }
                q = q + 1;
            } else {
                proof {
                    lemma_word_end(s, q as int);
                }
                if let Some(pc) = pending {
                    let w = glue_width(pc, space_width, em_width);
                    let ghost before = out@;
                    out.push(InlineMaterial::Glue(GlueMaterial { width: w, stretch: w / 2, shrink: w / 3 }));
                    proof {
                        assert(models_of(out@) =~= models_of(before).push(glue_model(pc, space_width as int, em_width as int)));
                    }
                }
                proof {
                    assert(!is_space_char(s[q as int]));
                }
                pending = None;
                st = true;
                let mut e: usize = q + 1;
                while e < n && !space_char(cs[e])
                    invariant
                        s == cs@,
                        n == s.len(),
                        q < e <= n,
                        forall|k: int| q < k < e ==> !is_space_char(s[k]),
                    decreases n - e,
                {
                    e = e + 1;
                }
                proof {
                    lemma_word_end_unique(s, q as int, e as int);
                }
                push_word_atoms(out, text, &cs, offset, q, e, style);
                proof {
                    assert(models_of(base) + collapse_from(offset as int, s, 0, None, started, is_last, space_width as int, em_width as int)
                        =~= models_of(out@) + collapse_from(offset as int, s, e as int, None, true, is_last, space_width as int, em_width as int));
                }
                q = e;
            }
        }
        if !is_last {
            if let Some(pc) = pending {
                let w = glue_width(pc, space_width, em_width);
                let ghost before = out@;
                out.push(InlineMaterial::Glue(GlueMaterial { width: w, stretch: w / 2, shrink: w / 3 }));
                proof {
                    assert(models_of(out@) =~= models_of(before).push(glue_model(pc, space_width as int, em_width as int)));
                }
            }
        }
        proof {
            assert(models_of(out@) =~= models_of(base) + spec_text_material(
                offset as int, text@, style.retain_whitespace, started, is_last,
                space_width as int, em_width as int));
            if st && !started {
                let k = choose|k: int| 0 <= k < n && !is_space_char(#[trigger] s[k]);
                assert(has_word(s));
            }
            if has_word(s) {
                let k = choose|k: int| 0 <= k < s.len() && !is_space_char(#[trigger] s[k]);
                assert(k < n);
            }
        }
        st
    }
}

proof fn lemma_word_end_unique(s: Seq<char>, q: int, e: int)
    requires
        0 <= q < e <= s.len(),
        !is_space_char(s[q]),
        forall|k: int| q < k < e ==> !is_space_char(s[k]),
        e < s.len() ==> is_space_char(s[e]),
    ensures
        word_end(s, q) == e,
    decreases e - q,
{
    if q + 1 < e {
        lemma_word_end_unique(s, q + 1, e);
    } else {
        if e < s.len() {
            assert(word_end(s, e) == e);
        } else {
            assert(word_end(s, e) == s.len());
        }
    }
}


/// One item of a block's inline content: a styled text run or an image.
pub enum InlineItem {
    Text { offset: usize, text: String },
    Image { offset: usize, path: String },
}

/// The atom stream of a whole block from item `k` on, with the
/// whitespace state carried from run to run; an image counts as content
/// and starts the block.
pub open spec fn spec_block_material(items: Seq<InlineItem>, k: int, started: bool, retain: bool, spacew: int, emw: int) -> Seq<MatModel>
    decreases items.len() - k,
{
    if k < 0 || k >= items.len() {
        Seq::empty()
    } else {
        match items[k] {
            InlineItem::Text { offset, text } => spec_text_material(
                offset as int,
                text@,
                retain,
                started,
                k == items.len() - 1,
                spacew,
                emw,
            ) + spec_block_material(items, k + 1, spec_started_after(text@, retain, started), retain, spacew, emw),
            InlineItem::Image { offset, path } => seq![MatModel::Image { offset: offset as int, path: path@ }]
                + spec_block_material(items, k + 1, true, retain, spacew, emw),
        }
    }
}

/// Build one block's atom stream: a fixed indent box first when the style
/// sets a text indent, then each run's atoms in order.
pub fn make_inline_material(items: &Vec<InlineItem>, style: &StyleData, space_width: i32, em_width: i32) -> (r: Vec<InlineMaterial>)
    requires
        0 <= space_width <= 1000000,
        0 <= em_width <= 1000000,
        forall|k: int| 0 <= k < items@.len() ==> ((#[trigger] items@[k]) matches InlineItem::Text { offset, text }
            ==> offset + text@.len() <= usize::MAX),
    ensures
        models_of(r@) == (if style.text_indent != 0 {
            seq![MatModel::Box { width: style.text_indent as int }]
        } else {
            Seq::<MatModel>::empty()
        }) + spec_block_material(items@, 0, false, style.retain_whitespace, space_width as int, em_width as int),
{
    let mut out: Vec<InlineMaterial> = Vec::new();
    let ghost pre: Seq<MatModel> = if style.text_indent != 0 {
        seq![MatModel::Box { width: style.text_indent as int }]
    } else {
        Seq::empty()
    };
    if style.text_indent != 0 {
        out.push(InlineMaterial::Box(style.text_indent));
    }
    proof {
        assert(models_of(out@) =~= pre);
    }
    let n = items.len();
    let mut k: usize = 0;
    let mut started = false;
    while k < n
        invariant
            n == items@.len(),
            k <= n,
            0 <= space_width <= 1000000,
            0 <= em_width <= 1000000,
            forall|t: int| 0 <= t < items@.len() ==> ((#[trigger] items@[t]) matches InlineItem::Text { offset, text }
                ==> offset + text@.len() <= usize::MAX),
            pre + spec_block_material(items@, 0, false, style.retain_whitespace, space_width as int, em_width as int)
                == models_of(out@) + spec_block_material(items@, k as int, started, style.retain_whitespace, space_width as int, em_width as int),
        decreases n - k,
    {
        match &items[k] {
            InlineItem::Text { offset, text } => {
                let st2 = append_text_material(&mut out, *offset, text.as_str(), style, started, k == n - 1, space_width, em_width);
                proof {
                    assert(items@[k as int] matches InlineItem::Text { offset: o2, text: t2 }
                        && o2 == *offset && t2@ == text@);
                    assert(st2 == spec_started_after(text@, style.retain_whitespace, started));
                    assert(spec_block_material(items@, k as int, started, style.retain_whitespace, space_width as int, em_width as int)
                        == spec_text_material(*offset as int, text@, style.retain_whitespace, started, k as int == items@.len() - 1, space_width as int, em_width as int)
                        + spec_block_material(items@, k as int + 1, spec_started_after(text@, style.retain_whitespace, started), style.retain_whitespace, space_width as int, em_width as int));
                    assert(pre + spec_block_material(items@, 0, false, style.retain_whitespace, space_width as int, em_width as int)
                        =~= models_of(out@) + spec_block_material(items@, k as int + 1, st2, style.retain_whitespace, space_width as int, em_width as int));
                }
                started = st2;
            },
            InlineItem::Image { offset, path } => {
                let ghost before = out@;
                out.push(InlineMaterial::Image(ImageMaterial {
                    offset: *offset,
                    path: path.clone(),
                    style: style.clone(),
                }));
                proof {
                    assert(models_of(out@) =~= models_of(before).push(MatModel::Image { offset: *offset as int, path: path@ }));
                    assert(pre + spec_block_material(items@, 0, false, style.retain_whitespace, space_width as int, em_width as int)
                        =~= models_of(out@) + spec_block_material(items@, k as int + 1, true, style.retain_whitespace, space_width as int, em_width as int));
                }
                started = true;
            },
        }
        k = k + 1;
    }
    proof {
        assert(spec_block_material(items@, n as int, started, style.retain_whitespace, space_width as int, em_width as int)
            =~= Seq::<MatModel>::empty());
        assert(models_of(out@) =~= pre + spec_block_material(items@, 0, false, style.retain_whitespace, space_width as int, em_width as int));
    }
    out
}

} // verus!
