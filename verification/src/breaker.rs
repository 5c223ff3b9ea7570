//! The line breaker: a greedy pass over the measured atom stream that cuts
//! it into lines, plus justification of a line's glue.

use vstd::prelude::*;
use crate::material::ParagraphElement;


verus! {

/// A measured atom: content with a fixed advance, elastic glue, a break
/// candidate with a cost, or a forced break.
pub enum Atom {
    Box { width: i32, elem: ParagraphElement },
    Glue { width: i32, stretch: i32, shrink: i32 },
    Penalty { width: i32, penalty: i32, flagged: bool },
    Forced,
}

/// The advance an atom contributes while the line is assembled.  A penalty
/// costs nothing unless it is chosen as the break.
pub open spec fn adv(a: Atom) -> int {
    match a {
        Atom::Box { width, .. } => width as int,
        Atom::Glue { width, .. } => width as int,
        Atom::Penalty { .. } => 0,
        Atom::Forced => 0,
    }
}

/// The widest advance an atom can ever contribute, penalty width included.
pub open spec fn cost(a: Atom) -> int {
    match a {
        Atom::Box { width, .. } => width as int,
        Atom::Glue { width, .. } => width as int,
        Atom::Penalty { width, .. } => width as int,
        Atom::Forced => 0,
    }
}

/// The stretch or shrink capacity an atom offers during justification.
pub open spec fn capacity(a: Atom, stretchy: bool) -> int {
    match a {
        Atom::Glue { stretch, shrink, .. } => if stretchy {
            stretch as int
        } else {
            shrink as int
        },
        _ => 0,
    }
}

/// Every width in the stream is non-negative and within the page-scale
/// bound the engine's arithmetic is sized for, and so is every stretch and
/// shrink capacity.
pub open spec fn wf_atoms(s: Seq<Atom>) -> bool {
    forall|k: int| 0 <= k < s.len() ==> {
        &&& 0 <= cost(#[trigger] s[k]) <= 1000000
        &&& 0 <= adv(s[k]) <= 1000000
        &&& 0 <= capacity(s[k], true) <= 1000000
        &&& 0 <= capacity(s[k], false) <= 1000000
    }
}

/// Sum of `cost` over `s[i..j)`.
pub open spec fn sum_cost(s: Seq<Atom>, i: int, j: int) -> int
    decreases j - i,
{
    if i >= j {
        0
    } else {
        cost(s[i]) + sum_cost(s, i + 1, j)
    }
}

proof fn lemma_sum_cost_nonneg(s: Seq<Atom>, i: int, j: int)
    requires
        wf_atoms(s),
        0 <= i,
        j <= s.len(),
    ensures
        sum_cost(s, i, j) >= 0,
    decreases j - i,
{
    if i < j {
        lemma_sum_cost_nonneg(s, i + 1, j);
    }
}

proof fn lemma_sum_cost_split(s: Seq<Atom>, i: int, k: int, j: int)
    requires
        i <= k <= j,
    ensures
        sum_cost(s, i, j) == sum_cost(s, i, k) + sum_cost(s, k, j),
    decreases k - i,
{
    if i < k {
        lemma_sum_cost_split(s, i + 1, k, j);
    }
}

/// One line of the broken stream: the atoms `[start, end)` stand on the
/// line; the following line starts at `next` (a break atom between `end`
/// and `next` is consumed by the break).
#[derive(Debug, Clone, Copy, PartialEq, Eq, Structural)]
pub struct Line {
    pub start: usize,
    pub end: usize,
    pub next: usize,
}

/// The greedy scan for one line, from the state: position `i`, content
/// width `w` so far, whether any box has been placed (`started`), and the
/// best break candidate seen (`cand`, as the `(end, next)` it would give).
///
/// Glue before the first box is skipped.  A glue or penalty becomes the
/// candidate when the line up to it still fits, or when it is the first
/// opportunity at all; since widths only grow, the candidate kept is the
/// one whose line comes closest to the available width.  A box that no
/// longer fits breaks the line at the candidate; with no candidate the
/// oversized content is placed anyway, to break at the first opportunity
/// after it.  A forced break always ends the line at once.
pub open spec fn scan(s: Seq<Atom>, avail: int, i: int, w: int, started: bool, cand: Option<(int, int)>) -> (int, int)
    decreases s.len() - i,
    via scan_decreases
{
    if i < 0 || i >= s.len() {
        (s.len() as int, s.len() as int)
    } else {
        match s[i] {
            Atom::Forced => (i, i + 1),
            Atom::Glue { width, .. } => if !started {
                scan(s, avail, i + 1, w, false, cand)
            } else if w <= avail || cand is None {
                scan(s, avail, i + 1, w + width, true, Some((i, i + 1)))
            } else {
                scan(s, avail, i + 1, w + width, true, cand)
            },
            Atom::Penalty { width, .. } => if started && (w + width <= avail || cand is None) {
                scan(s, avail, i + 1, w, started, Some((i + 1, i + 1)))
            } else {
                scan(s, avail, i + 1, w, started, cand)
            },
            Atom::Box { width, .. } => if w + width > avail && cand is Some {
                cand.unwrap()
            } else {
                scan(s, avail, i + 1, w + width, true, cand)
            },
        }
    }
}

#[via_fn]
proof fn scan_decreases(s: Seq<Atom>, avail: int, i: int, w: int, started: bool, cand: Option<(int, int)>) {
}

/// A candidate always points at or before the position it was recorded at,
/// and never before the line's start.
pub open spec fn cand_wf(s: Seq<Atom>, start: int, i: int, cand: Option<(int, int)>) -> bool {
    match cand {
        None => true,
        Some((e, nx)) => start <= e <= nx <= i && start < nx && nx <= s.len(),
    }
}

/// Bounds of the scan's result: the line lies inside the stream, beyond
/// its start, and the stream position always makes progress.
proof fn lemma_scan_bounds(s: Seq<Atom>, avail: int, i: int, w: int, started: bool, cand: Option<(int, int)>, start: int)
    requires
        0 <= start <= i <= s.len(),
        start < s.len(),
        cand_wf(s, start, i, cand),
    ensures
        ({
            let (e, nx) = scan(s, avail, i, w, started, cand);
            &&& start <= e <= s.len()
            &&& e <= nx <= s.len()
            &&& start < nx
        }),
    decreases s.len() - i,
{
    if i < s.len() {
        match s[i] {
            Atom::Forced => {},
            Atom::Glue { width, .. } => if !started {
                lemma_scan_bounds(s, avail, i + 1, w, false, cand, start);
            } else if w <= avail || cand is None {
                lemma_scan_bounds(s, avail, i + 1, w + width, true, Some((i, i + 1)), start);
            } else {
                lemma_scan_bounds(s, avail, i + 1, w + width, true, cand, start);
            },
            Atom::Penalty { width, .. } => if started && (w + width <= avail || cand is None) {
                lemma_scan_bounds(s, avail, i + 1, w, started, Some((i + 1, i + 1)), start);
            } else {
                lemma_scan_bounds(s, avail, i + 1, w, started, cand, start);
            },
            Atom::Box { width, .. } => if w + width > avail && cand is Some {
            } else {
                lemma_scan_bounds(s, avail, i + 1, w + width, true, cand, start);
            },
        }
    }
}

/// The lines the greedy breaker produces from position `s` on.
pub open spec fn spec_break_from(atoms: Seq<Atom>, avail: int, s: int) -> Seq<Line>
    decreases atoms.len() - s,
    via spec_break_from_decreases
{
    if s < 0 || s >= atoms.len() {
        Seq::empty()
    } else {
        let (e, nx) = scan(atoms, avail, s, 0, false, None);
        seq![Line { start: s as usize, end: e as usize, next: nx as usize }]
            + spec_break_from(atoms, avail, nx)
    }
}

#[via_fn]
proof fn spec_break_from_decreases(atoms: Seq<Atom>, avail: int, s: int) {
    if 0 <= s && s < atoms.len() {
        lemma_scan_bounds(atoms, avail, s, 0, false, None, s);
    }
}

/// All the lines of the stream, in order.
pub open spec fn spec_break_lines(atoms: Seq<Atom>, avail: int) -> Seq<Line> {
    spec_break_from(atoms, avail, 0)
}

/// Partition the measured atom stream into lines.
///
/// Each line takes the longest prefix that fits the available width,
/// breaking at the glue or penalty candidate that lands closest to it;
/// forced breaks are honored immediately; content wider than the line with
/// no break opportunity is placed alone rather than dropped; an empty
/// stream yields no lines.
pub fn break_lines(atoms: &Vec<Atom>, avail: i32) -> (lines: Vec<Line>)
    requires
        wf_atoms(atoms@),
        sum_cost(atoms@, 0, atoms@.len() as int) <= i32::MAX,
        avail >= 0,
    ensures
        lines@ == spec_break_lines(atoms@, avail as int),
        atoms@.len() == 0 ==> lines@.len() == 0,
{
    let ghost total = sum_cost(atoms@, 0, atoms@.len() as int);
    let n = atoms.len();
    let mut lines: Vec<Line> = Vec::new();
    let mut s: usize = 0;
    while s < n
        invariant
            wf_atoms(atoms@),
            sum_cost(atoms@, 0, atoms@.len() as int) == total <= i32::MAX,
            avail >= 0,
            n == atoms@.len(),
            s <= n,
            spec_break_lines(atoms@, avail as int) == lines@ + spec_break_from(atoms@, avail as int, s as int),
        decreases n - s,
    {
        let ghost gs = s as int;
        proof {
            lemma_scan_bounds(atoms@, avail as int, gs, 0, false, None, gs);
            lemma_sum_cost_split(atoms@, 0, gs, n as int);
            lemma_sum_cost_nonneg(atoms@, 0, gs);
        }
        // Scan one line, mirroring `scan` step for step.
        let mut i: usize = s;
        let mut w: i32 = 0;
        let mut started = false;
        let mut cand: Option<(usize, usize)> = None;
        let mut line = Line { start: s, end: n, next: n };
        let mut done = false;
        while i < n && !done
            invariant
                wf_atoms(atoms@),
                avail >= 0,
                n == atoms@.len(),
                gs == s as int,
                s <= i <= n,
                0 <= w,
                w + sum_cost(atoms@, i as int, n as int) <= i32::MAX,
                cand matches Some((e, nx)) ==> cand_wf(atoms@, gs, i as int, Some((e as int, nx as int))),
                !done ==> scan(atoms@, avail as int, gs, 0, false, None)
                    == scan(atoms@, avail as int, i as int, w as int, started, match cand {
                        Some((e, nx)) => Some((e as int, nx as int)),
                        None => None,
                    }),
                done ==> (scan(atoms@, avail as int, gs, 0, false, None) == (line.end as int, line.next as int)
                    && line.start == s),
            decreases n - i + (if done { 0int } else { 1int }),
        {
            proof {
                lemma_sum_cost_nonneg(atoms@, i as int + 1, n as int);
            }
            match &atoms[i] {
                Atom::Forced => {
                    line = Line { start: s, end: i, next: i + 1 };
                    done = true;
                },
                Atom::Glue { width, .. } => {
                    if !started {
                    } else if w <= avail || cand.is_none() {
                        cand = Some((i, i + 1));
                        w = w + *width;
                    } else {
                        w = w + *width;
                    }
                    i = i + 1;
                },
                Atom::Penalty { width, .. } => {
                    if started && (w + *width <= avail || cand.is_none()) {
                        cand = Some((i + 1, i + 1));
                    }
                    i = i + 1;
                },
                Atom::Box { width, .. } => {
                    if w + *width > avail && cand.is_some() {
                        let (e, nx) = cand.unwrap();
                        line = Line { start: s, end: e, next: nx };
                        done = true;
                    } else {
                        started = true;
                        w = w + *width;
                        i = i + 1;
                    }
                },
            }
        }
        if !done {
            line = Line { start: s, end: n, next: n };
        }
        proof {
            lemma_scan_bounds(atoms@, avail as int, gs, 0, false, None, gs);
        }
        lines.push(line);
        let ghost old_s = s as int;
        s = line.next;
        proof {
            assert(spec_break_from(atoms@, avail as int, old_s)
                =~= seq![line] + spec_break_from(atoms@, avail as int, s as int));
            assert(lines@ + spec_break_from(atoms@, avail as int, s as int)
                =~= spec_break_lines(atoms@, avail as int));
        }
    }
    proof {
        assert(lines@ =~= spec_break_lines(atoms@, avail as int));
    }
    lines
}

/// A break candidate shifted to coordinates local to a line that starts
/// at `s`.
pub open spec fn shift_cand(cand: Option<(int, int)>, s: int) -> Option<(int, int)> {
    match cand {
        None => None,
        Some((e, nx)) => Some((e - s, nx - s)),
    }
}

/// Re-running the scan on just the atoms of a produced line reproduces the
/// line whole: the scan walks the same states and, finding the stream end
/// where the break stood, keeps the same break point.
proof fn lemma_scan_shift(s: Seq<Atom>, avail: int, start: int, i: int, w: int, started: bool, cand: Option<(int, int)>, e: int, nx: int)
    requires
        0 <= start <= i <= e <= s.len(),
        start < s.len(),
        cand_wf(s, start, i, cand),
        scan(s, avail, i, w, started, cand) == (e, nx),
        cand matches Some(c) ==> c.0 <= e,
    ensures
        scan(s.subrange(start, e), avail, i - start, w, started, shift_cand(cand, start)) == (e - start, e - start),
    decreases s.len() - i,
{
    let sub = s.subrange(start, e);
    if i == e {
        assert(scan(sub, avail, i - start, w, started, shift_cand(cand, start)) == (e - start, e - start));
    } else {
        assert(sub[i - start] == s[i]);
        match s[i] {
            Atom::Forced => {
                assert((i, i + 1) == (e, nx));
                assert(false);
            },
            Atom::Glue { width, .. } => if !started {
                lemma_scan_shift(s, avail, start, i + 1, w, false, cand, e, nx);
            } else if w <= avail || cand is None {
                lemma_scan_shift(s, avail, start, i + 1, w + width, true, Some((i, i + 1)), e, nx);
            } else {
                lemma_scan_shift(s, avail, start, i + 1, w + width, true, cand, e, nx);
            },
            Atom::Penalty { width, .. } => if started && (w + width <= avail || cand is None) {
                lemma_scan_shift(s, avail, start, i + 1, w, started, Some((i + 1, i + 1)), e, nx);
            } else {
                lemma_scan_shift(s, avail, start, i + 1, w, started, cand, e, nx);
            },
            Atom::Box { width, .. } => if w + width > avail && cand is Some {
                assert(cand.unwrap() == (e, nx));
                assert(cand.unwrap().0 <= i);
                assert(false);
            } else {
                lemma_scan_shift(s, avail, start, i + 1, w + width, true, cand, e, nx);
            },
        }
    }
}

/// Every line the breaker produces comes from one fresh scan at its start.
proof fn lemma_break_from_line(atoms: Seq<Atom>, avail: int, s: int, k: int)
    requires
        0 <= s,
        atoms.len() <= usize::MAX,
        0 <= k < spec_break_from(atoms, avail, s).len(),
    ensures
        ({
            let l = spec_break_from(atoms, avail, s)[k];
            &&& s <= l.start < atoms.len()
            &&& l.start <= l.end <= atoms.len()
            &&& l.end <= l.next <= atoms.len()
            &&& scan(atoms, avail, l.start as int, 0, false, None) == (l.end as int, l.next as int)
        }),
    decreases atoms.len() - s,
{
    assert(s < atoms.len());
    lemma_scan_bounds(atoms, avail, s, 0, false, None, s);
    let (e, nx) = scan(atoms, avail, s, 0, false, None);
    if k == 0 {
    } else {
        lemma_break_from_line(atoms, avail, nx, k - 1);
        assert(spec_break_from(atoms, avail, s)[k] == spec_break_from(atoms, avail, nx)[k - 1]);
    }
}

/// Line breaker idempotence: take any non-empty line the breaker produced
/// and re-break just its atoms at the same available width; the result is
/// that single line again, with the break at its end.
pub proof fn lemma_rebreak(atoms: Seq<Atom>, avail: int, k: int)
    requires
        atoms.len() <= usize::MAX,
        0 <= k < spec_break_lines(atoms, avail).len(),
        spec_break_lines(atoms, avail)[k].start < spec_break_lines(atoms, avail)[k].end,
    ensures
        ({
            let l = spec_break_lines(atoms, avail)[k];
            let m = (l.end - l.start) as usize;
            spec_break_lines(atoms.subrange(l.start as int, l.end as int), avail)
                =~= seq![Line { start: 0, end: m, next: m }]
        }),
{
    lemma_break_from_line(atoms, avail, 0, k);
    let l = spec_break_lines(atoms, avail)[k];
    let st = l.start as int;
    let e = l.end as int;
    lemma_scan_shift(atoms, avail, st, st, 0, false, None, e, l.next as int);
    let sub = atoms.subrange(st, e);
    assert(scan(sub, avail, 0, 0, false, None) == (e - st, e - st));
    let m = (l.end - l.start) as usize;
    assert(spec_break_from(sub, avail, e - st) =~= Seq::<Line>::empty());
    assert(spec_break_lines(sub, avail) =~= seq![Line { start: 0, end: m, next: m }]);
}


/// Whether an atom is glue.
pub open spec fn is_glue(a: Atom) -> bool {
    a matches Atom::Glue { .. }
}

/// The base width of a glue atom.
pub open spec fn glue_base(a: Atom) -> int {
    match a {
        Atom::Glue { width, .. } => width as int,
        _ => 0,
    }
}

/// Sum of `adv` over `s[i..j)`.
pub open spec fn sum_adv(s: Seq<Atom>, i: int, j: int) -> int
    decreases j - i,
{
    if i >= j {
        0
    } else {
        adv(s[i]) + sum_adv(s, i + 1, j)
    }
}

proof fn lemma_sum_adv_split(s: Seq<Atom>, i: int, k: int, j: int)
    requires
        i <= k <= j,
    ensures
        sum_adv(s, i, j) == sum_adv(s, i, k) + sum_adv(s, k, j),
    decreases k - i,
{
    if i < k {
        lemma_sum_adv_split(s, i + 1, k, j);
    }
}

proof fn lemma_sum_adv_le_cost(s: Seq<Atom>, i: int, j: int)
    requires
        wf_atoms(s),
        0 <= i,
        j <= s.len(),
    ensures
        i <= j ==> 0 <= sum_adv(s, i, j) <= sum_cost(s, i, j),
    decreases j - i,
{
    if i < j {
        lemma_sum_adv_le_cost(s, i + 1, j);
    }
}

/// Number of glue atoms in `s[i..j)`.
pub open spec fn glue_count(s: Seq<Atom>, i: int, j: int) -> int
    decreases j - i,
{
    if i >= j {
        0
    } else {
        (if is_glue(s[i]) { 1int } else { 0int }) + glue_count(s, i + 1, j)
    }
}

proof fn lemma_glue_count_split(s: Seq<Atom>, i: int, k: int, j: int)
    requires
        i <= k <= j,
    ensures
        glue_count(s, i, j) == glue_count(s, i, k) + glue_count(s, k, j),
    decreases k - i,
{
    if i < k {
        lemma_glue_count_split(s, i + 1, k, j);
    }
}

/// The justification weights of the glues in `s[i..j)`, in order: each
/// glue's stretch or shrink capacity, or one apiece when the line's total
/// capacity is zero and the slack is spread evenly.
pub open spec fn glue_weights(s: Seq<Atom>, i: int, j: int, stretchy: bool, unit: bool) -> Seq<int>
    decreases j - i,
{
    if i >= j {
        Seq::empty()
    } else if is_glue(s[i]) {
        seq![if unit { 1int } else { capacity(s[i], stretchy) }] + glue_weights(s, i + 1, j, stretchy, unit)
    } else {
        glue_weights(s, i + 1, j, stretchy, unit)
    }
}

/// Sum of a sequence of integers.
pub open spec fn sum_seq(v: Seq<int>) -> int
    decreases v.len(),
{
    if v.len() == 0 {
        0
    } else {
        v[0] + sum_seq(v.subrange(1, v.len() as int))
    }
}

proof fn lemma_sum_seq_nonneg(v: Seq<int>)
    requires
        forall|k: int| 0 <= k < v.len() ==> v[k] >= 0,
    ensures
        sum_seq(v) >= 0,
    decreases v.len(),
{
    if v.len() > 0 {
        lemma_sum_seq_nonneg(v.subrange(1, v.len() as int));
    }
}

proof fn lemma_sum_seq_push(v: Seq<int>, x: int)
    ensures
        sum_seq(v.push(x)) == sum_seq(v) + x,
    decreases v.len(),
{
    if v.len() == 0 {
        assert(v.push(x).subrange(1, 1) =~= Seq::<int>::empty());
        assert(v.push(x)[0] == x);
        assert(sum_seq(v.push(x)) == x + sum_seq(Seq::<int>::empty()));
    } else {
        assert(v.push(x).subrange(1, v.len() as int + 1) =~= v.subrange(1, v.len() as int).push(x));
        lemma_sum_seq_push(v.subrange(1, v.len() as int), x);
        assert(v.push(x)[0] == v[0]);
        assert(sum_seq(v.push(x)) == v[0] + sum_seq(v.push(x).subrange(1, v.len() as int + 1)));
        assert(sum_seq(v) == v[0] + sum_seq(v.subrange(1, v.len() as int)));
    }
}

proof fn lemma_glue_weights_len(s: Seq<Atom>, i: int, j: int, stretchy: bool, unit: bool)
    ensures
        glue_weights(s, i, j, stretchy, unit).len() == if i <= j { glue_count(s, i, j) } else { 0 },
    decreases j - i,
{
    if i < j {
        lemma_glue_weights_len(s, i + 1, j, stretchy, unit);
    }
}

proof fn lemma_glue_weights_snoc(s: Seq<Atom>, i: int, t: int, stretchy: bool, unit: bool)
    requires
        i <= t < s.len(),
    ensures
        glue_weights(s, i, t + 1, stretchy, unit) == if is_glue(s[t]) {
            glue_weights(s, i, t, stretchy, unit).push(if unit { 1int } else { capacity(s[t], stretchy) })
        } else {
            glue_weights(s, i, t, stretchy, unit)
        },
    decreases t - i,
{
    let wt = if unit { 1int } else { capacity(s[t], stretchy) };
    if i < t {
        lemma_glue_weights_snoc(s, i + 1, t, stretchy, unit);
        if is_glue(s[i]) {
            let w0 = if unit { 1int } else { capacity(s[i], stretchy) };
            assert(glue_weights(s, i, t + 1, stretchy, unit)
                == seq![w0] + glue_weights(s, i + 1, t + 1, stretchy, unit));
            assert(glue_weights(s, i, t, stretchy, unit)
                == seq![w0] + glue_weights(s, i + 1, t, stretchy, unit));
            if is_glue(s[t]) {
                assert(seq![w0] + glue_weights(s, i + 1, t, stretchy, unit).push(wt)
                    =~= (seq![w0] + glue_weights(s, i + 1, t, stretchy, unit)).push(wt));
            }
        }
    } else {
        assert(glue_weights(s, t + 1, t + 1, stretchy, unit) =~= Seq::<int>::empty());
        assert(glue_weights(s, t, t, stretchy, unit) =~= Seq::<int>::empty());
        if is_glue(s[t]) {
            assert(glue_weights(s, t, t + 1, stretchy, unit)
                == seq![wt] + glue_weights(s, t + 1, t + 1, stretchy, unit));
            assert(seq![wt] + Seq::<int>::empty() =~= Seq::<int>::empty().push(wt));
        }
    }
}

proof fn lemma_glue_weights_at(s: Seq<Atom>, i: int, j: int, p: int, stretchy: bool, unit: bool)
    requires
        i <= p < j <= s.len(),
        is_glue(s[p]),
    ensures
        0 <= glue_count(s, i, p) < glue_weights(s, i, j, stretchy, unit).len(),
        glue_weights(s, i, j, stretchy, unit)[glue_count(s, i, p)]
            == if unit { 1int } else { capacity(s[p], stretchy) },
    decreases p - i,
{
    lemma_glue_weights_len(s, i, j, stretchy, unit);
    lemma_glue_count_split(s, i, p, j);
    if i == p {
    } else {
        lemma_glue_weights_at(s, i + 1, j, p, stretchy, unit);
    }
}

proof fn lemma_wf_weights(s: Seq<Atom>, i: int, j: int, stretchy: bool, unit: bool)
    requires
        wf_atoms(s),
        0 <= i,
        j <= s.len(),
    ensures
        forall|k: int| 0 <= k < glue_weights(s, i, j, stretchy, unit).len()
            ==> 0 <= #[trigger] glue_weights(s, i, j, stretchy, unit)[k] <= 1000000,
    decreases j - i,
{
    if i < j {
        lemma_wf_weights(s, i + 1, j, stretchy, unit);
        let ws = glue_weights(s, i, j, stretchy, unit);
        let rest = glue_weights(s, i + 1, j, stretchy, unit);
        if is_glue(s[i]) {
            assert(0 <= i < s.len());
            assert(0 <= capacity(s[i], stretchy) <= 1000000);
            assert forall|k: int| 0 <= k < ws.len() implies 0 <= #[trigger] ws[k] <= 1000000 by {
                if k > 0 {
                    assert(ws[k] == rest[k - 1]);
                }
            }
        }
    }
}

/// How a non-negative amount of slack is divided over the glue weights:
/// every glue takes the floor of its proportional share of the remaining
/// slack, measured against the total remaining weight, so the rounding
/// rest flows to the glues after it.
pub open spec fn spec_shares(weights: Seq<int>, m: int) -> Seq<int>
    decreases weights.len(),
{
    if weights.len() == 0 {
        Seq::empty()
    } else {
        let t = sum_seq(weights);
        let sh = if t > 0 { m * weights[0] / t } else { 0 };
        seq![sh] + spec_shares(weights.subrange(1, weights.len() as int), m - sh)
    }
}

/// Shares are non-negative, never exceed the slack, and when any weight is
/// positive they exhaust the slack exactly.
pub proof fn lemma_shares_sum(weights: Seq<int>, m: int)
    requires
        m >= 0,
        forall|k: int| 0 <= k < weights.len() ==> weights[k] >= 0,
    ensures
        spec_shares(weights, m).len() == weights.len(),
        forall|k: int| 0 <= k < weights.len() ==> 0 <= #[trigger] spec_shares(weights, m)[k] <= m,
        0 <= sum_seq(spec_shares(weights, m)) <= m,
        sum_seq(weights) > 0 ==> sum_seq(spec_shares(weights, m)) == m,
    decreases weights.len(),
{
    if weights.len() > 0 {
        let t = sum_seq(weights);
        let rest = weights.subrange(1, weights.len() as int);
        lemma_sum_seq_nonneg(rest);
        assert(t == weights[0] + sum_seq(rest));
        let sh = if t > 0 { m * weights[0] / t } else { 0 };
        if t > 0 {
            assert(m * weights[0] >= 0) by (nonlinear_arith)
                requires m >= 0 && weights[0] >= 0;
            vstd::arithmetic::div_mod::lemma_div_pos_is_pos(m * weights[0], t);
            assert(m * weights[0] <= m * t) by (nonlinear_arith)
                requires m >= 0 && weights[0] <= t;
            vstd::arithmetic::div_mod::lemma_div_is_ordered(m * weights[0], m * t, t);
            vstd::arithmetic::div_mod::lemma_div_multiples_vanish(m, t);
            assert((t * m) / t == m);
            assert(m * t == t * m) by (nonlinear_arith);
            assert(sh <= m);
        }
        lemma_shares_sum(rest, m - sh);
        let tail = spec_shares(rest, m - sh);
        assert(spec_shares(weights, m) == seq![sh] + tail);
        assert((seq![sh] + tail).subrange(1, (seq![sh] + tail).len() as int) =~= tail);
        assert(sum_seq(spec_shares(weights, m)) == sh + sum_seq(tail));
        if t > 0 && sum_seq(rest) == 0 {
            assert(t == weights[0]);
            vstd::arithmetic::div_mod::lemma_div_multiples_vanish(m, t);
            assert((t * m) / t == m);
            assert(m * t == t * m) by (nonlinear_arith);
            assert(sh == m);
        }
        assert forall|k: int| 0 <= k < weights.len()
            implies 0 <= #[trigger] spec_shares(weights, m)[k] <= m by {
            if k > 0 {
                assert(spec_shares(weights, m)[k] == tail[k - 1]);
            }
        }
    }
}


proof fn lemma_unit_weights_sum(s: Seq<Atom>, i: int, j: int, stretchy: bool)
    requires
        i <= j,
    ensures
        sum_seq(glue_weights(s, i, j, stretchy, true)) == glue_count(s, i, j),
    decreases j - i,
{
    if i < j {
        lemma_unit_weights_sum(s, i + 1, j, stretchy);
        if is_glue(s[i]) {
            let ws = glue_weights(s, i, j, stretchy, true);
            assert(ws == seq![1int] + glue_weights(s, i + 1, j, stretchy, true));
            assert(ws.subrange(1, ws.len() as int) =~= glue_weights(s, i + 1, j, stretchy, true));
        }
    }
}

proof fn lemma_sum_seq_nonneg_range(v: Seq<int>, a: int, b: int)
    requires
        0 <= a <= b <= v.len(),
        forall|k: int| 0 <= k < v.len() ==> v[k] >= 0,
    ensures
        sum_seq(v.subrange(a, b)) >= 0,
{
    let sub = v.subrange(a, b);
    assert forall|k: int| 0 <= k < sub.len() implies sub[k] >= 0 by {
        assert(sub[k] == v[a + k]);
    }
    lemma_sum_seq_nonneg(sub);
}

/// Justify one line: the width each atom of `atoms[start..end)` is drawn
/// at, with the line's slack against `avail` spread over its glues in
/// proportion to their stretch capacity (short line) or shrink capacity
/// (long line), and evenly when the line offers no capacity at all.  The
/// returned widths sum to the available width exactly: justification
/// leaves no residual slack.
pub fn justify_widths(atoms: &Vec<Atom>, start: usize, end: usize, avail: i32) -> (ws: Vec<i32>)
    requires
        wf_atoms(atoms@),
        start <= end <= atoms@.len(),
        end - start <= 1000000,
        glue_count(atoms@, start as int, end as int) >= 1,
        sum_adv(atoms@, start as int, end as int) <= i32::MAX,
        0 <= avail <= 1000000000,
    ensures
        ws@.len() == end - start,
        sum_seq(ws@.map_values(|x: i32| x as int)) == avail,
        forall|t: int| 0 <= t < end - start && !is_glue(atoms@[start + t])
            ==> ws@[t] == adv(atoms@[start + t]),
        ({
            let s = atoms@;
            let i = start as int;
            let j = end as int;
            let natw = sum_adv(s, i, j);
            let stretchy = avail >= natw;
            let m = if stretchy { avail - natw } else { natw - avail };
            let unit = sum_seq(glue_weights(s, i, j, stretchy, false)) == 0;
            let shares = spec_shares(glue_weights(s, i, j, stretchy, unit), m);
            forall|t: int| 0 <= t < j - i && is_glue(s[i + t]) ==> ws@[t] == glue_base(s[i + t])
                + (if stretchy { shares[glue_count(s, i, i + t)] } else { -shares[glue_count(s, i, i + t)] })
        }),
{
    let ghost s = atoms@;
    let ghost i = start as int;
    let ghost j = end as int;
    // First pass: natural width, total capacities, glue count.
    let mut natw: i64 = 0;
    let mut tot_s: i64 = 0;
    let mut tot_k: i64 = 0;
    let mut gcnt: usize = 0;
    let mut p: usize = start;
    while p < end
        invariant
            wf_atoms(s),
            s == atoms@,
            i == start as int,
            j == end as int,
            start <= p <= end <= atoms@.len(),
            end - start <= 1000000,
            natw == sum_adv(s, i, p as int),
            0 <= natw <= (p - start) * 1000000,
            tot_s == sum_seq(glue_weights(s, i, p as int, true, false)),
            tot_k == sum_seq(glue_weights(s, i, p as int, false, false)),
            0 <= tot_s <= (p - start) * 1000000,
            0 <= tot_k <= (p - start) * 1000000,
            gcnt == glue_count(s, i, p as int),
            0 <= gcnt <= p - start,
        decreases end - p,
    {
        proof {
            lemma_sum_adv_split(s, i, p as int, p as int + 1);
            lemma_glue_count_split(s, i, p as int, p as int + 1);
            assert(sum_adv(s, p as int + 1, p as int + 1) == 0);
            assert(sum_adv(s, p as int, p as int + 1) == adv(s[p as int]));
            assert(glue_count(s, p as int + 1, p as int + 1) == 0);
            assert(glue_count(s, p as int, p as int + 1) == (if is_glue(s[p as int]) { 1int } else { 0int }));
            lemma_glue_weights_snoc(s, i, p as int, true, false);
            lemma_glue_weights_snoc(s, i, p as int, false, false);
            if is_glue(s[p as int]) {
                lemma_sum_seq_push(glue_weights(s, i, p as int, true, false), capacity(s[p as int], true));
                lemma_sum_seq_push(glue_weights(s, i, p as int, false, false), capacity(s[p as int], false));
            }
        }
        match &atoms[p] {
            Atom::Glue { width, stretch, shrink } => {
                natw = natw + (*width as i64);
                tot_s = tot_s + (*stretch as i64);
                tot_k = tot_k + (*shrink as i64);
                gcnt = gcnt + 1;
            },
            Atom::Box { width, .. } => {
                natw = natw + (*width as i64);
            },
            _ => {},
        }
        p = p + 1;
    }
    proof {
        lemma_sum_adv_le_cost(s, i, j);
    }
    let stretchy = (avail as i64) >= natw;
    let m: i64 = if stretchy { (avail as i64) - natw } else { natw - (avail as i64) };
    let t0: i64 = if stretchy { tot_s } else { tot_k };
    let unit = t0 == 0;
    let ghost bigw = glue_weights(s, i, j, stretchy, unit);
    let ghost shares = spec_shares(bigw, m as int);
    let mut rem_t: i64 = if unit { gcnt as i64 } else { t0 };
    proof {
        lemma_glue_weights_len(s, i, j, stretchy, unit);
        lemma_wf_weights(s, i, j, stretchy, unit);
        if unit {
            lemma_unit_weights_sum(s, i, j, stretchy);
        }
        lemma_shares_sum(bigw, m as int);
        assert(bigw.subrange(0, bigw.len() as int) =~= bigw);
        assert(shares.subrange(0, shares.len() as int) =~= shares);
        assert(shares.subrange(0, 0) =~= Seq::<int>::empty());
    }
    let mut rem_slack: i64 = m;
    let ghost gw = bigw.len() as int;
    let mut ws: Vec<i32> = Vec::new();
    let mut g: usize = 0;
    p = start;
    while p < end
        invariant
            wf_atoms(s),
            s == atoms@,
            i == start as int,
            j == end as int,
            start <= p <= end <= atoms@.len(),
            end - start <= 1000000,
            0 <= sum_adv(s, i, j) <= i32::MAX,
            stretchy == ((avail as int) >= sum_adv(s, i, j)),
            0 <= avail <= 1000000000,
            m == if stretchy { avail - sum_adv(s, i, j) } else { sum_adv(s, i, j) - avail },
            unit == (sum_seq(glue_weights(s, i, j, stretchy, false)) == 0),
            bigw == glue_weights(s, i, j, stretchy, unit),
            shares == spec_shares(bigw, m as int),
            gw == bigw.len() as int,
            gw == glue_count(s, i, j),
            gw <= end - start,
            shares.len() == gw,
            forall|k: int| 0 <= k < gw ==> 0 <= #[trigger] bigw[k] <= 1000000,
            forall|k: int| 0 <= k < gw ==> 0 <= #[trigger] shares[k] <= m,
            sum_seq(bigw) > 0,
            g == glue_count(s, i, p as int),
            0 <= g <= gw,
            0 <= rem_slack <= m,
            rem_t == sum_seq(bigw.subrange(g as int, gw)),
            rem_slack == m - sum_seq(shares.subrange(0, g as int)),
            spec_shares(bigw.subrange(g as int, gw), rem_slack as int)
                == shares.subrange(g as int, gw),
            ws@.len() == p - start,
            sum_seq(ws@.map_values(|x: i32| x as int)) == sum_adv(s, i, p as int)
                + (if stretchy { m - rem_slack } else { -(m - rem_slack) }),
            forall|t: int| 0 <= t < p - start && !is_glue(s[i + t]) ==> #[trigger] ws@[t] == adv(s[i + t]),
            forall|t: int| 0 <= t < p - start && is_glue(s[i + t]) ==> #[trigger] ws@[t] == glue_base(s[i + t])
                + (if stretchy { shares[glue_count(s, i, i + t)] } else { -shares[glue_count(s, i, i + t)] }),
        decreases end - p,
    {
        let ghost pi = p as int;
        proof {
            lemma_sum_adv_split(s, i, pi, pi + 1);
            lemma_glue_count_split(s, i, pi, pi + 1);
            assert(sum_adv(s, pi + 1, pi + 1) == 0);
            assert(sum_adv(s, pi, pi + 1) == adv(s[pi]));
            assert(glue_count(s, pi + 1, pi + 1) == 0);
            assert(glue_count(s, pi, pi + 1) == (if is_glue(s[pi]) { 1int } else { 0int }));
        }
        let mut drawn: i32 = 0;
        match &atoms[p] {
            Atom::Glue { width, stretch, shrink } => {
                proof {
                    lemma_glue_weights_at(s, i, j, pi, stretchy, unit);
                    assert(g < gw);
                }
                let wg: i64 = if unit {
                    1
                } else if stretchy {
                    *stretch as i64
                } else {
                    *shrink as i64
                };
                proof {
                    assert(wg as int == bigw[g as int]);
                    assert(bigw.subrange(g as int, gw)[0] == bigw[g as int]);
                    assert(sum_seq(bigw.subrange(g as int, gw)) == bigw[g as int]
                        + sum_seq(bigw.subrange(g as int + 1, gw))) by {
                        assert(bigw.subrange(g as int, gw).subrange(1, gw - g)
                            =~= bigw.subrange(g as int + 1, gw));
                    }
                    lemma_shares_sum(bigw.subrange(g as int, gw), rem_slack as int);
                    assert(0 <= rem_slack * wg <= 2200000000000000) by (nonlinear_arith)
                        requires 0 <= rem_slack <= 2200000000 && 0 <= wg <= 1000000;
                }
                let sh: i64 = if rem_t > 0 { rem_slack * wg / rem_t } else { 0 };
                proof {
                    assert(spec_shares(bigw.subrange(g as int, gw), rem_slack as int)[0]
                        == sh as int);
                    assert(shares.subrange(g as int, gw)[0] == shares[g as int]);
                    assert(sh as int == shares[g as int]);
                    assert(0 <= sh <= rem_slack);
                }
                let w64: i64 = if stretchy { (*width as i64) + sh } else { (*width as i64) - sh };
                drawn = w64 as i32;
                proof {
                    assert(glue_count(s, i, pi + 1) == g + 1);
                    assert(shares.subrange(0, g as int + 1)
                        =~= shares.subrange(0, g as int).push(shares[g as int]));
                    lemma_sum_seq_push(shares.subrange(0, g as int), shares[g as int]);
                    assert(bigw.subrange(g as int, gw).subrange(1, gw - g)
                        =~= bigw.subrange(g as int + 1, gw));
                    assert(shares.subrange(g as int, gw).subrange(1, gw - g)
                        =~= shares.subrange(g as int + 1, gw));
                }
                proof {
                    lemma_sum_seq_nonneg_range(bigw, g as int + 1, gw);
                }
                rem_slack = rem_slack - sh;
                rem_t = rem_t - wg;
                g = g + 1;
            },
            Atom::Box { width, .. } => {
                drawn = *width;
            },
            _ => {
                drawn = 0;
            },
        }
        proof {
            assert(ws@.push(drawn).map_values(|x: i32| x as int)
                =~= ws@.map_values(|x: i32| x as int).push(drawn as int));
            lemma_sum_seq_push(ws@.map_values(|x: i32| x as int), drawn as int);
        }
        ws.push(drawn);
        p = p + 1;
    }
    proof {
        assert(shares.subrange(0, g as int) =~= shares);
        assert(sum_seq(shares) == m);
    }
    ws
}

} // verus!
