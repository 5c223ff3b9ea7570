//! Document housekeeping around the engine: file kinds, ASCII name
//! normalization, and the ISBN scan over a page's words.

use vstd::prelude::*;
use std::str::FromStr;
use unicode_normalization::UnicodeNormalization;
use unicode_normalization::char::is_combining_mark;
use crate::hyph::{chars_of, lower_seq};

verus! {

/// What NFKD compatibility decomposition yields for a text; a function of
/// the characters alone.
pub uninterp spec fn nfkd_of(s: Seq<char>) -> Seq<char>;

/// Whether a character is a Unicode combining mark; a function of the
/// character alone.
pub uninterp spec fn combining_mark(c: char) -> bool;

/// What a digit string parses to as an ISBN: the canonical form when its
/// digits carry a valid checksum, nothing otherwise; a function of the
/// string alone.
pub uninterp spec fn parsed_isbn(s: Seq<char>) -> Option<Seq<char>>;

/// Relies on unicode_normalization's `nfkd` iterator: the compatibility
/// decomposition of the characters, collected in order.
#[verifier::external_body]
fn nfkd_chars(s: &str) -> (r: String)
    ensures
        r@ == nfkd_of(s@),
{
    s.nfkd().collect()
}

/// Relies on unicode_normalization's `is_combining_mark`.
#[verifier::external_body]
fn is_mark(c: char) -> (r: bool)
    ensures
        r == combining_mark(c),
{
    is_combining_mark(c)
}

/// Relies on std's `FromIterator` for `String`: the characters, as a
/// string.
#[verifier::external_body]
fn string_from_chars(v: &Vec<char>) -> (r: String)
    ensures
        r@ == v@,
{
    v.iter().collect()
}

/// Relies on isbn's `Isbn::from_str` (digit parsing and checksum) and on
/// its canonical `Display` form.
#[verifier::external_body]
fn parse_isbn(digits: &str) -> (r: Option<String>)
    ensures
        (r is Some) == (parsed_isbn(digits@) is Some),
        r matches Some(t) ==> parsed_isbn(digits@) == Some(t@),
{
    isbn::Isbn::from_str(digits).ok().map(|i| i.to_string())
}

/// The ASCII expansion of one decomposed character: combining marks
/// vanish, the ligatures and punctuation the engine folds widen or
/// simplify, everything else stands.
pub open spec fn ascii_expansion(c: char) -> Seq<char> {
    if combining_mark(c) {
        Seq::empty()
    } else if c == 'œ' {
        seq!['o', 'e']
    } else if c == 'Œ' {
        seq!['O', 'e']
    } else if c == 'æ' {
        seq!['a', 'e']
    } else if c == 'Æ' {
        seq!['A', 'e']
    } else if c == '—' {
        seq!['-']
    } else if c == '–' {
        seq!['-']
    } else if c == '’' {
        seq!['\'']
    } else {
        seq![c]
    }
}

/// The folded form of a decomposed text.
pub open spec fn asciify_spec(s: Seq<char>) -> Seq<char>
    decreases s.len(),
{
    if s.len() == 0 {
        Seq::empty()
    } else {
        ascii_expansion(s[0]) + asciify_spec(s.subrange(1, s.len() as int))
    }
}

/// Normalize a name to ASCII: decompose it, drop the combining marks, and
/// fold the common ligatures, dashes and the typographic apostrophe.
pub fn asciify(name: &str) -> (r: String)
    ensures
        r@ == asciify_spec(nfkd_of(name@)),
{
    let d = nfkd_chars(name);
    let cs = chars_of(d.as_str());
    let ghost s = cs@;
    let n = cs.len();
    let mut out: Vec<char> = Vec::new();
    let mut i: usize = 0;
    proof {
        assert(s.subrange(0, n as int) =~= s);
    }
    while i < n
        invariant
            s == cs@,
            s == nfkd_of(name@),
            n == s.len(),
            i <= n,
            asciify_spec(s) == out@ + asciify_spec(s.subrange(i as int, n as int)),
        decreases n - i,
    {
        let c = cs[i];
        let ghost before = out@;
        if is_mark(c) {
        } else if c == 'œ' {
            out.push('o');
            out.push('e');
        } else if c == 'Œ' {
            out.push('O');
            out.push('e');
        } else if c == 'æ' {
            out.push('a');
            out.push('e');
        } else if c == 'Æ' {
            out.push('A');
            out.push('e');
        } else if c == '—' {
            out.push('-');
        } else if c == '–' {
            out.push('-');
        } else if c == '’' {
            out.push('\'');
        } else {
            out.push(c);
        }
        proof {
            assert(out@ =~= before + ascii_expansion(s[i as int]));
            assert(s.subrange(i as int, n as int).subrange(1, n - i) =~= s.subrange(i as int + 1, n as int));
            assert(asciify_spec(s) =~= out@ + asciify_spec(s.subrange(i as int + 1, n as int)));
        }
        i = i + 1;
    }
    proof {
        assert(asciify_spec(s.subrange(n as int, n as int)) =~= Seq::<char>::empty());
        assert(out@ =~= asciify_spec(s));
    }
    string_from_chars(&out)
}

/// The rightmost position of `c` in `s`, or `-1`.
pub open spec fn rlast(s: Seq<char>, c: char) -> int
    decreases s.len(),
{
    if s.len() == 0 {
        -1
    } else if s[s.len() - 1] == c {
        s.len() - 1
    } else {
        rlast(s.subrange(0, s.len() - 1), c)
    }
}

proof fn lemma_rlast_at(s: Seq<char>, c: char, j: int)
    requires
        0 <= j < s.len(),
        s[j] == c,
        forall|k: int| j < k < s.len() ==> s[k] != c,
    ensures
        rlast(s, c) == j,
    decreases s.len(),
{
    if s.len() - 1 != j {
        let p = s.subrange(0, s.len() - 1);
        assert(p[j] == c);
        lemma_rlast_at(p, c, j);
    }
}

proof fn lemma_rlast_none(s: Seq<char>, c: char)
    requires
        forall|k: int| 0 <= k < s.len() ==> s[k] != c,
    ensures
        rlast(s, c) == -1,
    decreases s.len(),
{
    if s.len() > 0 {
        lemma_rlast_none(s.subrange(0, s.len() - 1), c);
    }
}

/// The lowercase file kind of a path: the part of the final path segment
/// after its last dot, lowercased; none when the segment has no dot or
/// only a leading one (a hidden file).
pub open spec fn spec_file_kind(s: Seq<char>) -> Option<Seq<char>> {
    let name = s.subrange(rlast(s, '/') + 1, s.len() as int);
    let d = rlast(name, '.');
    if d <= 0 {
        None
    } else {
        Some(lower_seq(name.subrange(d + 1, name.len() as int)))
    }
}

/// The kind of file a path names, from its extension, lowercased.
pub fn file_kind(path: &str) -> (r: Option<String>)
    ensures
        ({
            let k = spec_file_kind(path@);
            &&& (r is Some) == (k is Some)
            &&& r matches Some(t) ==> k == Some(t@)
        }),
{
    let cs = chars_of(path);
    let ghost s = cs@;
    let n = cs.len();
    // Rightmost '/', then rightmost '.' after it.
    let mut slash: usize = 0;
    let mut has_slash = false;
    let mut j: usize = n;
    while j > 0 && !has_slash
        invariant
            s == cs@,
            n == s.len(),
            j <= n,
            has_slash ==> j < n && s[j as int] == '/' && (forall|k: int| j < k < n ==> s[k] != '/'),
            !has_slash ==> forall|k: int| j <= k < n ==> s[k] != '/',
            has_slash ==> slash == j,
        decreases j + (if has_slash { 0int } else { 1int }),
    {
        if cs[j - 1] == '/' {
            j = j - 1;
            slash = j;
            has_slash = true;
        } else {
            j = j - 1;
        }
    }
    let ghost rs = rlast(s, '/');
    proof {
        if has_slash {
            lemma_rlast_at(s, '/', slash as int);
        } else {
            lemma_rlast_none(s, '/');
        }
    }
    let name_start: usize = if has_slash { slash + 1 } else { 0 };
    let ghost name = s.subrange(rs + 1, n as int);
    proof {
        assert(name_start as int == rs + 1);
    }
    // Rightmost '.' within the name.
    let mut dot: usize = 0;
    let mut has_dot = false;
    let mut t: usize = n;
    while t > name_start && !has_dot
        invariant
            s == cs@,
            n == s.len(),
            name_start <= t <= n,
            name == s.subrange(name_start as int, n as int),
            has_dot ==> name_start <= t < n && s[t as int] == '.' && (forall|k: int| t < k < n ==> s[k] != '.'),
            !has_dot ==> forall|k: int| t <= k < n ==> s[k] != '.',
            has_dot ==> dot == t,
        decreases t + (if has_dot { 0int } else { 1int }),
    {
        if cs[t - 1] == '.' {
            t = t - 1;
            dot = t;
            has_dot = true;
        } else {
            t = t - 1;
        }
    }
    let ghost rd = rlast(name, '.');
    proof {
        if has_dot {
            assert(name[dot - name_start] == s[dot as int]);
            assert forall|k: int| (dot - name_start) < k < name.len() implies name[k] != '.' by {
                assert(name[k] == s[name_start + k]);
            }
            lemma_rlast_at(name, '.', dot - name_start);
        } else {
            assert forall|k: int| 0 <= k < name.len() implies name[k] != '.' by {
                assert(name[k] == s[name_start + k]);
            }
            lemma_rlast_none(name, '.');
        }
    }
    if !has_dot || dot == name_start {
        proof {
            assert(rd <= 0);
        }
        return None;
    }
    proof {
        assert(rd == dot - name_start > 0);
    }
    // Lowercase the extension characters.
    let mut ext: Vec<char> = Vec::new();
    let mut p: usize = dot + 1;
    while p < n
        invariant
            s == cs@,
            n == s.len(),
            dot < n,
            dot + 1 <= p <= n,
            ext@ == lower_seq(s.subrange(dot as int + 1, p as int)),
        decreases n - p,
    {
        let c = cs[p];
        if 'A' <= c && c <= 'Z' {
            let u = c as u32;
            ext.push((u + 32) as u8 as char);
        } else {
            ext.push(c);
        }
        proof {
            assert(ext@ =~= lower_seq(s.subrange(dot as int + 1, p as int + 1)));
        }
        p = p + 1;
    }
    proof {
        assert forall|k: int| 0 <= k < name.len() - (rd + 1) implies
            #[trigger] name.subrange(rd + 1, name.len() as int)[k] == s.subrange(dot as int + 1, n as int)[k] by {
            assert(name[rd + 1 + k] == s[dot + 1 + k]);
        }
        assert(name.subrange(rd + 1, name.len() as int) =~= s.subrange(dot as int + 1, n as int));
        assert(ext@ == lower_seq(name.subrange(rd + 1, name.len() as int)));
    }
    Some(string_from_chars(&ext))
}

/// Whether the word carries the ISBN marker at position `p`.
pub open spec fn marker_at(s: Seq<char>, p: int) -> bool {
    &&& 0 <= p
    &&& p + 4 <= s.len()
    &&& s[p] == 'I'
    &&& s[p + 1] == 'S'
    &&& s[p + 2] == 'B'
    &&& s[p + 3] == 'N'
}

pub open spec fn has_marker(s: Seq<char>) -> bool {
    exists|p: int| marker_at(s, p)
}

fn word_has_marker(cs: &Vec<char>) -> (r: bool)
    ensures
        r == has_marker(cs@),
{
    let n = cs.len();
    if n < 4 {
        proof {
            if has_marker(cs@) {
                let w = choose|k: int| marker_at(cs@, k);
                assert(false);
            }
        }
        return false;
    }
    let mut p: usize = 0;
    while p <= n - 4
        invariant
            n == cs@.len(),
            4 <= n,
            p <= n - 3,
            forall|k: int| 0 <= k < p ==> !marker_at(cs@, k),
        decreases n - p,
    {
        if cs[p] == 'I' && cs[p + 1] == 'S' && cs[p + 2] == 'B' && cs[p + 3] == 'N' {
            proof {
                assert(marker_at(cs@, p as int));
            }
            return true;
        }
        p = p + 1;
    }
    proof {
        if has_marker(cs@) {
            let w = choose|k: int| marker_at(cs@, k);
            assert(w < p);
            assert(false);
        }
    }
    false
}

/// The ISBN-relevant characters of a word: its decimal digits and `X`.
pub open spec fn digits_of(s: Seq<char>) -> Seq<char>
    decreases s.len(),
{
    if s.len() == 0 {
        Seq::empty()
    } else {
        let head: Seq<char> = if ('0' <= s[0] && s[0] <= '9') || s[0] == 'X' {
            seq![s[0]]
        } else {
            Seq::empty()
        };
        head + digits_of(s.subrange(1, s.len() as int))
    }
}

/// What scanning one page of words finds: whether the ISBN marker has
/// been seen, and the first valid ISBN after it.  A word holding the
/// marker arms the scan; any later word of at least ten characters is
/// tried: its digits are kept and checked, and the first valid number is
/// the result.
pub open spec fn spec_scan(ws: Seq<String>, k: int, found: bool) -> (bool, Option<Seq<char>>)
    decreases ws.len() - k,
{
    if k < 0 || k >= ws.len() {
        (found, None)
    } else {
        let w = ws[k]@;
        if has_marker(w) {
            spec_scan(ws, k + 1, true)
        } else if found && w.len() >= 10 {
            match parsed_isbn(digits_of(w)) {
                Some(t) => (found, Some(t)),
                None => spec_scan(ws, k + 1, found),
            }
        } else {
            spec_scan(ws, k + 1, found)
        }
    }
}

/// Scan one page's words for an ISBN.  `found` carries across pages
/// whether the marker was already seen.
pub fn scan_words_for_isbn(words: &Vec<String>, found0: bool) -> (r: (bool, Option<String>))
    ensures
        ({
            let sc = spec_scan(words@, 0, found0);
            &&& r.0 == sc.0
            &&& (r.1 is Some) == (sc.1 is Some)
            &&& r.1 matches Some(t) ==> sc.1 == Some(t@)
        }),
{
    let n = words.len();
    let mut found = found0;
    let mut k: usize = 0;
    while k < n
        invariant
            n == words@.len(),
            k <= n,
            spec_scan(words@, 0, found0) == spec_scan(words@, k as int, found),
        decreases n - k,
    {
        let cs = chars_of(words[k].as_str());
        if word_has_marker(&cs) {
            found = true;
        } else if found && cs.len() >= 10 {
            let mut digits: Vec<char> = Vec::new();
            let mut p: usize = 0;
            while p < cs.len()
                invariant
                    p <= cs@.len(),
                    digits@ == digits_of(cs@.subrange(0, p as int)),
                decreases cs@.len() - p,
            {
                let c = cs[p];
                let ghost before = digits@;
                if ('0' <= c && c <= '9') || c == 'X' {
                    digits.push(c);
                }
                proof {
                    lemma_digits_snoc(cs@, p as int);
                }
                p = p + 1;
            }
            proof {
                assert(cs@.subrange(0, cs@.len() as int) =~= cs@);
            }
            let ds = string_from_chars(&digits);
            if let Some(found_isbn) = parse_isbn(ds.as_str()) {
                return (found, Some(found_isbn));
            }
        }
        k = k + 1;
    }
    (found, None)
}

proof fn lemma_digits_snoc(s: Seq<char>, p: int)
    requires
        0 <= p < s.len(),
    ensures
        digits_of(s.subrange(0, p + 1)) == if ('0' <= s[p] && s[p] <= '9') || s[p] == 'X' {
            digits_of(s.subrange(0, p)).push(s[p])
        } else {
            digits_of(s.subrange(0, p))
        },
    decreases p,
{
    if p == 0 {
        assert(s.subrange(0, 1).subrange(1, 1) =~= Seq::<char>::empty());
        assert(s.subrange(0, 0) =~= Seq::<char>::empty());
        assert(digits_of(Seq::<char>::empty()) =~= Seq::<char>::empty());
        assert(s.subrange(0, 1)[0] == s[0]);
        if ('0' <= s[0] && s[0] <= '9') || s[0] == 'X' {
            assert(digits_of(s.subrange(0, 1)) =~= Seq::<char>::empty().push(s[0]));
        }
    } else {
        lemma_digits_snoc(s.subrange(1, s.len() as int), p - 1);
        let a = s.subrange(0, p + 1);
        let b = s.subrange(0, p);
        assert(a.subrange(1, a.len() as int) =~= s.subrange(1, s.len() as int).subrange(0, p));
        assert(b.subrange(1, b.len() as int) =~= s.subrange(1, s.len() as int).subrange(0, p - 1));
        assert(a[0] == s[0] && b[0] == s[0]);
        if ('0' <= s[p] && s[p] <= '9') || s[p] == 'X' {
            let h: Seq<char> = if ('0' <= s[0] && s[0] <= '9') || s[0] == 'X' { seq![s[0]] } else { Seq::empty() };
            assert(h + digits_of(s.subrange(1, s.len() as int).subrange(0, p - 1)).push(s[p])
                =~= (h + digits_of(s.subrange(1, s.len() as int).subrange(0, p - 1))).push(s[p]));
        }
    }
}

} // verus!
