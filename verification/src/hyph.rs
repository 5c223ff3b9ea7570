//! Hyphenation-dictionary selection: map a language tag to the dictionary
//! identifier that the external pattern provider understands, with
//! hierarchical fallback over `-`-delimited subtags.

use vstd::prelude::*;

verus! {

/// The hyphenation language used when a document names none.
pub const DEFAULT_HYPH_LANG: &'static str = "en";

/// Identifier of a hyphenation pattern dictionary.
#[derive(Debug, Clone, Copy, PartialEq, Eq, Structural)]
pub enum Language {
    Afrikaans,
    Armenian,
    Assamese,
    Basque,
    Belarusian,
    Bengali,
    Bulgarian,
    Catalan,
    Chinese,
    Coptic,
    Croatian,
    Czech,
    Danish,
    Dutch,
    EnglishGB,
    EnglishUS,
    Esperanto,
    Estonian,
    Ethiopic,
    Finnish,
    French,
    Friulan,
    Galician,
    Georgian,
    German1996,
    German1901,
    GermanSwiss,
    GreekAncient,
    GreekMono,
    GreekPoly,
    Gujarati,
    Hindi,
    Hungarian,
    Icelandic,
    Indonesian,
    Interlingua,
    Irish,
    Italian,
    Kannada,
    Kurmanji,
    Latin,
    LatinClassic,
    LatinLiturgical,
    Latvian,
    Lithuanian,
    Malayalam,
    Marathi,
    Mongolian,
    NorwegianBokmal,
    NorwegianNynorsk,
    Occitan,
    Oriya,
    Pali,
    Panjabi,
    Piedmontese,
    Polish,
    Portuguese,
    Romanian,
    Romansh,
    Russian,
    Sanskrit,
    SerbianCyrillic,
    SerbocroatianCyrillic,
    SerbocroatianLatin,
    SlavonicChurch,
    Slovak,
    Slovenian,
    Spanish,
    Swedish,
    Tamil,
    Telugu,
    Thai,
    Turkish,
    Turkmen,
    Ukrainian,
    Uppersorbian,
    Welsh,
}

/// The known-language table: the dictionary a tag selects, or `None` when
/// the tag is not a key.  Script- and region-qualified entries stand beside
/// their bare-language counterparts and are matched as written.
pub open spec fn lang_entry(s: Seq<char>) -> Option<Language> {
    if s == "af"@ {
        Some(Language::Afrikaans)
    } else if s == "hy"@ {
        Some(Language::Armenian)
    } else if s == "as"@ {
        Some(Language::Assamese)
    } else if s == "eu"@ {
        Some(Language::Basque)
    } else if s == "be"@ {
        Some(Language::Belarusian)
    } else if s == "bn"@ {
        Some(Language::Bengali)
    } else if s == "bg"@ {
        Some(Language::Bulgarian)
    } else if s == "ca"@ {
        Some(Language::Catalan)
    } else if s == "zh-latn-pinyin"@ {
        Some(Language::Chinese)
    } else if s == "cop"@ {
        Some(Language::Coptic)
    } else if s == "hr"@ {
        Some(Language::Croatian)
    } else if s == "cs"@ {
        Some(Language::Czech)
    } else if s == "da"@ {
        Some(Language::Danish)
    } else if s == "nl"@ {
        Some(Language::Dutch)
    } else if s == "en-gb"@ {
        Some(Language::EnglishGB)
    } else if s == "en-us"@ {
        Some(Language::EnglishUS)
    } else if s == "en"@ {
        Some(Language::EnglishUS)
    } else if s == "eo"@ {
        Some(Language::Esperanto)
    } else if s == "et"@ {
        Some(Language::Estonian)
    } else if s == "mul-ethi"@ {
        Some(Language::Ethiopic)
    } else if s == "fi"@ {
        Some(Language::Finnish)
    } else if s == "fr"@ {
        Some(Language::French)
    } else if s == "fur"@ {
        Some(Language::Friulan)
    } else if s == "gl"@ {
        Some(Language::Galician)
    } else if s == "ka"@ {
        Some(Language::Georgian)
    } else if s == "de"@ {
        Some(Language::German1996)
    } else if s == "de-1901"@ {
        Some(Language::German1901)
    } else if s == "de-1996"@ {
        Some(Language::German1996)
    } else if s == "de-ch-1901"@ {
        Some(Language::GermanSwiss)
    } else if s == "de-ch"@ {
        Some(Language::GermanSwiss)
    } else if s == "grc"@ {
        Some(Language::GreekAncient)
    } else if s == "el-monoton"@ {
        Some(Language::GreekMono)
    } else if s == "el-polyton"@ {
        Some(Language::GreekPoly)
    } else if s == "gu"@ {
        Some(Language::Gujarati)
    } else if s == "hi"@ {
        Some(Language::Hindi)
    } else if s == "hu"@ {
        Some(Language::Hungarian)
    } else if s == "is"@ {
        Some(Language::Icelandic)
    } else if s == "id"@ {
        Some(Language::Indonesian)
    } else if s == "ia"@ {
        Some(Language::Interlingua)
    } else if s == "ga"@ {
        Some(Language::Irish)
    } else if s == "it"@ {
        Some(Language::Italian)
    } else if s == "kn"@ {
        Some(Language::Kannada)
    } else if s == "kmr"@ {
        Some(Language::Kurmanji)
    } else if s == "la"@ {
        Some(Language::Latin)
    } else if s == "la-x-classic"@ {
        Some(Language::LatinClassic)
    } else if s == "la-x-liturgic"@ {
        Some(Language::LatinLiturgical)
    } else if s == "lv"@ {
        Some(Language::Latvian)
    } else if s == "lt"@ {
        Some(Language::Lithuanian)
    } else if s == "ml"@ {
        Some(Language::Malayalam)
    } else if s == "mr"@ {
        Some(Language::Marathi)
    } else if s == "mn-cyrl"@ {
        Some(Language::Mongolian)
    } else if s == "nb"@ {
        Some(Language::NorwegianBokmal)
    } else if s == "nn"@ {
        Some(Language::NorwegianNynorsk)
    } else if s == "oc"@ {
        Some(Language::Occitan)
    } else if s == "or"@ {
        Some(Language::Oriya)
    } else if s == "pi"@ {
        Some(Language::Pali)
    } else if s == "pa"@ {
        Some(Language::Panjabi)
    } else if s == "pms"@ {
        Some(Language::Piedmontese)
    } else if s == "pl"@ {
        Some(Language::Polish)
    } else if s == "pt"@ {
        Some(Language::Portuguese)
    } else if s == "ro"@ {
        Some(Language::Romanian)
    } else if s == "rm"@ {
        Some(Language::Romansh)
    } else if s == "ru"@ {
        Some(Language::Russian)
    } else if s == "sa"@ {
        Some(Language::Sanskrit)
    } else if s == "sr-cyrl"@ {
        Some(Language::SerbianCyrillic)
    } else if s == "sh-cyrl"@ {
        Some(Language::SerbocroatianCyrillic)
    } else if s == "sh-latn"@ {
        Some(Language::SerbocroatianLatin)
    } else if s == "cu"@ {
        Some(Language::SlavonicChurch)
    } else if s == "sk"@ {
        Some(Language::Slovak)
    } else if s == "sl"@ {
        Some(Language::Slovenian)
    } else if s == "es"@ {
        Some(Language::Spanish)
    } else if s == "sv"@ {
        Some(Language::Swedish)
    } else if s == "ta"@ {
        Some(Language::Tamil)
    } else if s == "te"@ {
        Some(Language::Telugu)
    } else if s == "th"@ {
        Some(Language::Thai)
    } else if s == "tr"@ {
        Some(Language::Turkish)
    } else if s == "tk"@ {
        Some(Language::Turkmen)
    } else if s == "uk"@ {
        Some(Language::Ukrainian)
    } else if s == "hsb"@ {
        Some(Language::Uppersorbian)
    } else if s == "cy"@ {
        Some(Language::Welsh)
    } else {
        None
    }
}

/// Compare the first `end` characters of `a` with a key.
fn prefix_eq(a: &Vec<char>, end: usize, s: &str) -> (r: bool)
    requires
        end <= a.len(),
    ensures
        r == (a@.subrange(0, end as int) == s@),
{
    let n = s.unicode_len();
    if n != end {
        proof {
            assert(a@.subrange(0, end as int).len() == end);
        }
        return false;
    }
    let mut i: usize = 0;
    while i < end
        invariant
            end <= a.len(),
            i <= end,
            end == s@.len(),
            forall|k: int| 0 <= k < i ==> a@[k] == s@[k],
        decreases end - i,
    {
        if a[i] != s.get_char(i) {
            proof {
                assert(a@.subrange(0, end as int)[i as int] != s@[i as int]);
            }
            return false;
        }
        i = i + 1;
    }
    proof {
        assert(a@.subrange(0, end as int) =~= s@);
    }
    true
}

/// Look the prefix `a[..end]` up in the known-language table.
fn lookup_prefix(a: &Vec<char>, end: usize) -> (r: Option<Language>)
    requires
        end <= a.len(),
    ensures
        r == lang_entry(a@.subrange(0, end as int)),
{
    if prefix_eq(a, end, "af") {
        Some(Language::Afrikaans)
    } else if prefix_eq(a, end, "hy") {
        Some(Language::Armenian)
    } else if prefix_eq(a, end, "as") {
        Some(Language::Assamese)
    } else if prefix_eq(a, end, "eu") {
        Some(Language::Basque)
    } else if prefix_eq(a, end, "be") {
        Some(Language::Belarusian)
    } else if prefix_eq(a, end, "bn") {
        Some(Language::Bengali)
    } else if prefix_eq(a, end, "bg") {
        Some(Language::Bulgarian)
    } else if prefix_eq(a, end, "ca") {
        Some(Language::Catalan)
    } else if prefix_eq(a, end, "zh-latn-pinyin") {
        Some(Language::Chinese)
    } else if prefix_eq(a, end, "cop") {
        Some(Language::Coptic)
    } else if prefix_eq(a, end, "hr") {
        Some(Language::Croatian)
    } else if prefix_eq(a, end, "cs") {
        Some(Language::Czech)
    } else if prefix_eq(a, end, "da") {
        Some(Language::Danish)
    } else if prefix_eq(a, end, "nl") {
        Some(Language::Dutch)
    } else if prefix_eq(a, end, "en-gb") {
        Some(Language::EnglishGB)
    } else if prefix_eq(a, end, "en-us") {
        Some(Language::EnglishUS)
    } else if prefix_eq(a, end, "en") {
        Some(Language::EnglishUS)
    } else if prefix_eq(a, end, "eo") {
        Some(Language::Esperanto)
    } else if prefix_eq(a, end, "et") {
        Some(Language::Estonian)
    } else if prefix_eq(a, end, "mul-ethi") {
        Some(Language::Ethiopic)
    } else if prefix_eq(a, end, "fi") {
        Some(Language::Finnish)
    } else if prefix_eq(a, end, "fr") {
        Some(Language::French)
    } else if prefix_eq(a, end, "fur") {
        Some(Language::Friulan)
    } else if prefix_eq(a, end, "gl") {
        Some(Language::Galician)
    } else if prefix_eq(a, end, "ka") {
        Some(Language::Georgian)
    } else if prefix_eq(a, end, "de") {
        Some(Language::German1996)
    } else if prefix_eq(a, end, "de-1901") {
        Some(Language::German1901)
    } else if prefix_eq(a, end, "de-1996") {
        Some(Language::German1996)
    } else if prefix_eq(a, end, "de-ch-1901") {
        Some(Language::GermanSwiss)
    } else if prefix_eq(a, end, "de-ch") {
        Some(Language::GermanSwiss)
    } else if prefix_eq(a, end, "grc") {
        Some(Language::GreekAncient)
    } else if prefix_eq(a, end, "el-monoton") {
        Some(Language::GreekMono)
    } else if prefix_eq(a, end, "el-polyton") {
        Some(Language::GreekPoly)
    } else if prefix_eq(a, end, "gu") {
        Some(Language::Gujarati)
    } else if prefix_eq(a, end, "hi") {
        Some(Language::Hindi)
    } else if prefix_eq(a, end, "hu") {
        Some(Language::Hungarian)
    } else if prefix_eq(a, end, "is") {
        Some(Language::Icelandic)
    } else if prefix_eq(a, end, "id") {
        Some(Language::Indonesian)
    } else if prefix_eq(a, end, "ia") {
        Some(Language::Interlingua)
    } else if prefix_eq(a, end, "ga") {
        Some(Language::Irish)
    } else if prefix_eq(a, end, "it") {
        Some(Language::Italian)
    } else if prefix_eq(a, end, "kn") {
        Some(Language::Kannada)
    } else if prefix_eq(a, end, "kmr") {
        Some(Language::Kurmanji)
    } else if prefix_eq(a, end, "la") {
        Some(Language::Latin)
    } else if prefix_eq(a, end, "la-x-classic") {
        Some(Language::LatinClassic)
    } else if prefix_eq(a, end, "la-x-liturgic") {
        Some(Language::LatinLiturgical)
    } else if prefix_eq(a, end, "lv") {
        Some(Language::Latvian)
    } else if prefix_eq(a, end, "lt") {
        Some(Language::Lithuanian)
    } else if prefix_eq(a, end, "ml") {
        Some(Language::Malayalam)
    } else if prefix_eq(a, end, "mr") {
        Some(Language::Marathi)
    } else if prefix_eq(a, end, "mn-cyrl") {
        Some(Language::Mongolian)
    } else if prefix_eq(a, end, "nb") {
        Some(Language::NorwegianBokmal)
    } else if prefix_eq(a, end, "nn") {
        Some(Language::NorwegianNynorsk)
    } else if prefix_eq(a, end, "oc") {
        Some(Language::Occitan)
    } else if prefix_eq(a, end, "or") {
        Some(Language::Oriya)
    } else if prefix_eq(a, end, "pi") {
        Some(Language::Pali)
    } else if prefix_eq(a, end, "pa") {
        Some(Language::Panjabi)
    } else if prefix_eq(a, end, "pms") {
        Some(Language::Piedmontese)
    } else if prefix_eq(a, end, "pl") {
        Some(Language::Polish)
    } else if prefix_eq(a, end, "pt") {
        Some(Language::Portuguese)
    } else if prefix_eq(a, end, "ro") {
        Some(Language::Romanian)
    } else if prefix_eq(a, end, "rm") {
        Some(Language::Romansh)
    } else if prefix_eq(a, end, "ru") {
        Some(Language::Russian)
    } else if prefix_eq(a, end, "sa") {
        Some(Language::Sanskrit)
    } else if prefix_eq(a, end, "sr-cyrl") {
        Some(Language::SerbianCyrillic)
    } else if prefix_eq(a, end, "sh-cyrl") {
        Some(Language::SerbocroatianCyrillic)
    } else if prefix_eq(a, end, "sh-latn") {
        Some(Language::SerbocroatianLatin)
    } else if prefix_eq(a, end, "cu") {
        Some(Language::SlavonicChurch)
    } else if prefix_eq(a, end, "sk") {
        Some(Language::Slovak)
    } else if prefix_eq(a, end, "sl") {
        Some(Language::Slovenian)
    } else if prefix_eq(a, end, "es") {
        Some(Language::Spanish)
    } else if prefix_eq(a, end, "sv") {
        Some(Language::Swedish)
    } else if prefix_eq(a, end, "ta") {
        Some(Language::Tamil)
    } else if prefix_eq(a, end, "te") {
        Some(Language::Telugu)
    } else if prefix_eq(a, end, "th") {
        Some(Language::Thai)
    } else if prefix_eq(a, end, "tr") {
        Some(Language::Turkish)
    } else if prefix_eq(a, end, "tk") {
        Some(Language::Turkmen)
    } else if prefix_eq(a, end, "uk") {
        Some(Language::Ukrainian)
    } else if prefix_eq(a, end, "hsb") {
        Some(Language::Uppersorbian)
    } else if prefix_eq(a, end, "cy") {
        Some(Language::Welsh)
    } else {
        None
    }
}

/// The characters of a string, collected for indexed scanning.
pub fn chars_of(s: &str) -> (r: Vec<char>)
    ensures
        r@ == s@,
{
    let n = s.unicode_len();
    let mut out: Vec<char> = Vec::new();
    let mut i: usize = 0;
    while i < n
        invariant
            n == s@.len(),
            i <= n,
            out@ == s@.subrange(0, i as int),
        decreases n - i,
    {
        out.push(s.get_char(i));
        i = i + 1;
        proof {
            assert(out@ =~= s@.subrange(0, i as int));
        }
    }
    proof {
        assert(out@ =~= s@);
    }
    out
}

/// ASCII lowercasing of one character; other characters pass unchanged.
pub open spec fn ascii_lower(c: char) -> char {
    if 'A' <= c && c <= 'Z' {
        ((c as int) + 32) as char
    } else {
        c
    }
}

pub open spec fn lower_seq(s: Seq<char>) -> Seq<char> {
    s.map_values(|c: char| ascii_lower(c))
}

/// Lowercase the ASCII letters of a tag.  Language tags are ASCII; other
/// characters could not match a table key either way and pass unchanged.
fn to_lower(a: &Vec<char>) -> (r: Vec<char>)
    ensures
        r@ == lower_seq(a@),
{
    let mut out: Vec<char> = Vec::new();
    let mut i: usize = 0;
    while i < a.len()
        invariant
            i <= a.len(),
            out@ == lower_seq(a@.subrange(0, i as int)),
        decreases a.len() - i,
    {
        let c = a[i];
        if 'A' <= c && c <= 'Z' {
            let u = c as u32;
            let l = (u + 32) as u8 as char;
            proof {
                assert(l == ascii_lower(c));
            }
            out.push(l);
        } else {
            out.push(c);
        }
        i = i + 1;
        proof {
            assert(out@ =~= lower_seq(a@.subrange(0, i as int)));
        }
    }
    proof {
        assert(out@ =~= lower_seq(a@));
    }
    out
}

/// The index of the rightmost `-`, or `-1` when there is none.
pub open spec fn last_dash(s: Seq<char>) -> int
    decreases s.len(),
{
    if s.len() == 0 {
        -1
    } else if s[s.len() - 1] == '-' {
        s.len() - 1
    } else {
        last_dash(s.subrange(0, s.len() - 1))
    }
}

proof fn lemma_last_dash_at(s: Seq<char>, j: int)
    requires
        0 <= j < s.len(),
        s[j] == '-',
        forall|k: int| j < k < s.len() ==> s[k] != '-',
    ensures
        last_dash(s) == j,
    decreases s.len(),
{
    if s.len() - 1 == j {
    } else {
        let p = s.subrange(0, s.len() - 1);
        assert(p[j] == '-');
        lemma_last_dash_at(p, j);
    }
}

proof fn lemma_last_dash_none(s: Seq<char>)
    requires
        forall|k: int| 0 <= k < s.len() ==> s[k] != '-',
    ensures
        last_dash(s) == -1,
    decreases s.len(),
{
    if s.len() > 0 {
        lemma_last_dash_none(s.subrange(0, s.len() - 1));
    }
}

/// Iteratively strip the rightmost `-`-delimited subtag and retry, until no
/// `-` remains.
pub open spec fn strip_lookup(s: Seq<char>) -> Option<Language>
    decreases s.len(),
{
    let j = last_dash(s);
    if j < 0 {
        None
    } else if j >= s.len() {
        None
    } else {
        let p = s.subrange(0, j);
        if lang_entry(p) is Some {
            lang_entry(p)
        } else {
            strip_lookup(p)
        }
    }
}

/// What `hyph_lang` returns: the exact tag first, then its lowercase form,
/// then ever shorter lowercase prefixes cut at `-`.
pub open spec fn spec_hyph_lang(s: Seq<char>) -> Option<Language> {
    if lang_entry(s) is Some {
        lang_entry(s)
    } else if lang_entry(lower_seq(s)) is Some {
        lang_entry(lower_seq(s))
    } else {
        strip_lookup(lower_seq(s))
    }
}

/// Map a language tag to a hyphenation dictionary: exact match, then
/// lowercase match, then lowercase prefixes stripped at the rightmost `-`
/// one subtag at a time; `None` when nothing matches.
pub fn hyph_lang(name: &str) -> (r: Option<Language>)
    ensures
        r == spec_hyph_lang(name@),
{
    let cs = chars_of(name);
    proof {
        assert(cs@.subrange(0, cs@.len() as int) =~= name@);
    }
    let exact = lookup_prefix(&cs, cs.len());
    if exact.is_some() {
        return exact;
    }
    let low = to_lower(&cs);
    proof {
        assert(low@.subrange(0, low@.len() as int) =~= lower_seq(name@));
    }
    let lowered = lookup_prefix(&low, low.len());
    if lowered.is_some() {
        return lowered;
    }
    let mut end: usize = low.len();
    loop
        invariant
            end <= low.len(),
            low@ == lower_seq(name@),
            lang_entry(name@) is None,
            lang_entry(lower_seq(name@)) is None,
            strip_lookup(lower_seq(name@)) == strip_lookup(low@.subrange(0, end as int)),
        decreases end,
    {
        // Find the rightmost '-' in low[..end].
        let ghost pre = low@.subrange(0, end as int);
        let mut j: usize = end;
        let mut found = false;
        while j > 0 && !found
            invariant
                end <= low.len(),
                j <= end,
                found ==> j < end && low@[j as int] == '-' && (forall|k: int| j < k < end ==> low@[k] != '-'),
                !found ==> forall|k: int| j <= k < end ==> low@[k] != '-',
            decreases j + (if found { 0int } else { 1int }),
        {
            if low[j - 1] == '-' {
                j = j - 1;
                found = true;
            } else {
                j = j - 1;
            }
        }
        if !found {
            proof {
                assert(forall|k: int| 0 <= k < pre.len() ==> pre[k] != '-');
                lemma_last_dash_none(pre);
            }
            return None;
        }
        proof {
            assert(pre[j as int] == '-');
            assert(forall|k: int| j < k < pre.len() ==> pre[k] != '-');
            lemma_last_dash_at(pre, j as int);
            assert(low@.subrange(0, end as int).subrange(0, j as int) =~= low@.subrange(0, j as int));
        }
        let hit = lookup_prefix(&low, j);
        if hit.is_some() {
            return hit;
        }
        end = j;
    }
}

} // verus!
