//! The locales whose CLDR annotations are supported, and how annotations
//! become searchable pairs of a character and a description.
use vstd::prelude::*;
use crate::assoc::StringTable;
use crate::text::{
    char_is_space, chars_to_string, is_space, lemma_run_end, lemma_trim_end_from, run_end,
    scan_class, str_chars, trim_end_from, trim_end_index, trim_end_len, CharClass,
};

verus! {

/// A locale with CLDR annotations.
#[allow(non_camel_case_types)]
#[derive(Clone, Copy, Debug, PartialEq, Eq, Hash, Structural)]
pub enum SupportedLocale {
    en,
    id,
    fr,
    jv,
}

/// The language tag of a supported locale.
pub open spec fn locale_tag(l: SupportedLocale) -> Seq<char> {
    match l {
        SupportedLocale::en => seq!['e', 'n'],
        SupportedLocale::id => seq!['i', 'd'],
        SupportedLocale::fr => seq!['f', 'r'],
        SupportedLocale::jv => seq!['j', 'v'],
    }
}

/// The locale that a BCP-47 language tag of the user's settings selects.
pub open spec fn locale_of_language_tag(t: Seq<char>) -> Option<SupportedLocale> {
    if t == seq!['e', 'n'] || t == seq!['e', 'n', '-', 'U', 'S'] || t == seq!['e', 'n', '-', 'G', 'B']
        || t == seq!['e', 'n', '-', 'C', 'A'] {
        Some(SupportedLocale::en)
    } else if t == seq!['i', 'd'] || t == seq!['i', 'd', '-', 'I', 'D'] {
        Some(SupportedLocale::id)
    } else if t == seq!['f', 'r'] || t == seq!['f', 'r', '-', 'F', 'R'] || t == seq![
        'f',
        'r',
        '-',
        'C',
        'A',
    ] {
        Some(SupportedLocale::fr)
    } else if t == seq!['j', 'v'] || t == seq!['j', 'v', '-', 'J', 'a', 'v', 'a'] {
        Some(SupportedLocale::jv)
    } else {
        None
    }
}

fn chars_are(s: &Vec<char>, lit: &[char]) -> (r: bool)
    ensures
        r == (s@ == lit@),
{
    if s.len() != lit.len() {
        return false;
    }
    let mut i: usize = 0;
    while i < s.len()
        invariant
            i <= s@.len(),
            s@.len() == lit@.len(),
            forall|j: int| 0 <= j < i ==> s@[j] == lit@[j],
        decreases s@.len() - i,
    {
        if s[i] != lit[i] {
            return false;
        }
        i += 1;
    }
    assert(s@ =~= lit@);
    true
}

impl SupportedLocale {
    /// The locale's name, as `Display` writes it.
    pub fn to_string(&self) -> (r: String)
        ensures
            r@ == locale_tag(*self),
    {
        let v = match self {
            SupportedLocale::en => vec!['e', 'n'],
            SupportedLocale::id => vec!['i', 'd'],
            SupportedLocale::fr => vec!['f', 'r'],
            SupportedLocale::jv => vec!['j', 'v'],
        };
        assert(v@ =~= locale_tag(*self));
        chars_to_string(&v)
    }

    /// The locale of a language tag; `None` for a language without
    /// annotations.
    pub fn from_language_tag(tag: &str) -> (r: Option<SupportedLocale>)
        ensures
            r == locale_of_language_tag(tag@),
    {
        let t = str_chars(tag);
        let en = ['e', 'n'];
        let en_us = ['e', 'n', '-', 'U', 'S'];
        let en_gb = ['e', 'n', '-', 'G', 'B'];
        let en_ca = ['e', 'n', '-', 'C', 'A'];
        let id = ['i', 'd'];
        let id_id = ['i', 'd', '-', 'I', 'D'];
        let fr = ['f', 'r'];
        let fr_fr = ['f', 'r', '-', 'F', 'R'];
        let fr_ca = ['f', 'r', '-', 'C', 'A'];
        let jv = ['j', 'v'];
        let jv_java = ['j', 'v', '-', 'J', 'a', 'v', 'a'];
        assert(en@ =~= seq!['e', 'n']);
        assert(en_us@ =~= seq!['e', 'n', '-', 'U', 'S']);
        assert(en_gb@ =~= seq!['e', 'n', '-', 'G', 'B']);
        assert(en_ca@ =~= seq!['e', 'n', '-', 'C', 'A']);
        assert(id@ =~= seq!['i', 'd']);
        assert(id_id@ =~= seq!['i', 'd', '-', 'I', 'D']);
        assert(fr@ =~= seq!['f', 'r']);
        assert(fr_fr@ =~= seq!['f', 'r', '-', 'F', 'R']);
        assert(fr_ca@ =~= seq!['f', 'r', '-', 'C', 'A']);
        assert(jv@ =~= seq!['j', 'v']);
        assert(jv_java@ =~= seq!['j', 'v', '-', 'J', 'a', 'v', 'a']);
        if chars_are(&t, &en) || chars_are(&t, &en_us) || chars_are(&t, &en_gb) || chars_are(
            &t,
            &en_ca,
        ) {
            Some(SupportedLocale::en)
        } else if chars_are(&t, &id) || chars_are(&t, &id_id) {
            Some(SupportedLocale::id)
        } else if chars_are(&t, &fr) || chars_are(&t, &fr_fr) || chars_are(&t, &fr_ca) {
            Some(SupportedLocale::fr)
        } else if chars_are(&t, &jv) || chars_are(&t, &jv_java) {
            Some(SupportedLocale::jv)
        } else {
            None
        }
    }

    /// The locale named `s`, one of "en", "id", "fr", "jv".
    pub fn from_name(s: &str) -> (r: SupportedLocale)
        requires
            s@ == seq!['e', 'n'] || s@ == seq!['i', 'd'] || s@ == seq!['f', 'r'] || s@ == seq![
                'j',
                'v',
            ],
        ensures
            locale_tag(r) == s@,
    {
        let t = str_chars(s);
        let en = ['e', 'n'];
        let id = ['i', 'd'];
        let fr = ['f', 'r'];
        assert(en@ =~= seq!['e', 'n']);
        assert(id@ =~= seq!['i', 'd']);
        assert(fr@ =~= seq!['f', 'r']);
        if chars_are(&t, &en) {
            SupportedLocale::en
        } else if chars_are(&t, &id) {
            SupportedLocale::id
        } else if chars_are(&t, &fr) {
            SupportedLocale::fr
        } else {
            SupportedLocale::jv
        }
    }
}

/// A character and one description of it.
#[derive(Clone, Debug, PartialEq, Eq)]
pub struct AnnotationPair {
    pub char: String,
    pub desc: String,
}

/// One `<annotation>` element of a CLDR file: the code point text, the
/// optional `type` attribute (`tts` marks the character's name), and the
/// text.
#[derive(Clone, Debug, PartialEq, Eq)]
pub struct Annotation {
    pub cp: String,
    pub kind: Option<String>,
    pub text: String,
}

/// Where the first `|` of `s` is.
pub open spec fn first_bar(s: Seq<char>, i: int) -> int
    decreases s.len() - i,
{
    if i < 0 || i >= s.len() {
        s.len() as int
    } else if s[i] == '|' {
        i
    } else {
        first_bar(s, i + 1)
    }
}

/// `s.split('|')`.
pub open spec fn split_bars(s: Seq<char>) -> Seq<Seq<char>>
    decreases s.len(),
{
    let b = first_bar(s, 0);
    if b >= s.len() {
        seq![s]
    } else {
        proof {
            lemma_first_bar(s, 0);
        }
        seq![s.subrange(0, b)] + split_bars(s.subrange(b + 1, s.len() as int))
    }
}

/// `s.split_terminator('|')`: the same without an empty last piece.
pub open spec fn split_terminator_bars(s: Seq<char>) -> Seq<Seq<char>> {
    let p = split_bars(s);
    if p.last().len() == 0 {
        p.drop_last()
    } else {
        p
    }
}

/// `str::trim`: `s` without white space at either end.
pub open spec fn trim(s: Seq<char>) -> Seq<char> {
    let a = run_end(s, 0, CharClass::Space);
    let b = trim_end_len(s);
    if a >= b {
        Seq::empty()
    } else {
        s.subrange(a, b)
    }
}

/// The descriptions of a CLDR annotation text: its `|`-separated words,
/// trimmed.
pub open spec fn annotation_words(s: Seq<char>) -> Seq<Seq<char>> {
    split_terminator_bars(s).map_values(|w: Seq<char>| trim(w))
}

/// Where the first `|` of `s[i..]` stands, and that none comes before it.
pub proof fn lemma_first_bar(s: Seq<char>, i: int)
    requires
        0 <= i <= s.len(),
    ensures
        i <= first_bar(s, i) <= s.len(),
        forall|j: int| i <= j < first_bar(s, i) ==> s[j] != '|',
        first_bar(s, i) < s.len() ==> s[first_bar(s, i)] == '|',
    decreases s.len() - i,
{
    if i < s.len() && s[i] != '|' {
        lemma_first_bar(s, i + 1);
    }
}

proof fn lemma_first_bar_shift(s: Seq<char>, from: int, i: int)
    requires
        0 <= from <= i <= s.len(),
    ensures
        first_bar(s.subrange(from, s.len() as int), i - from) == first_bar(s, i) - from,
    decreases s.len() - i,
{
    let t = s.subrange(from, s.len() as int);
    if i < s.len() && s[i] != '|' {
        assert(t[i - from] == s[i]);
        lemma_first_bar_shift(s, from, i + 1);
    } else if i < s.len() {
        assert(t[i - from] == s[i]);
    }
}

/// `s` trimmed at both ends.
pub fn trim_chars(s: &Vec<char>) -> (r: Vec<char>)
    ensures
        r@ == trim(s@),
{
    let a = scan_class(s, 0, CharClass::Space);
    let b = trim_end_index(s, s.len());
    let mut r: Vec<char> = Vec::new();
    if a >= b {
        assert(r@ =~= Seq::<char>::empty());
        return r;
    }
    let mut i = a;
    while i < b
        invariant
            a <= i <= b <= s@.len(),
            r@ == s@.subrange(a as int, i as int),
        decreases b - i,
    {
        r.push(s[i]);
        i += 1;
        assert(r@ =~= s@.subrange(a as int, i as int));
    }
    r
}

/// The trimmed `|`-separated words of an annotation text.
pub fn annotation_words_of(text: &str) -> (r: Vec<String>)
    ensures
        r@.map_values(|w: String| w@) == annotation_words(text@),
{
    let s = str_chars(text);
    let mut pieces: Vec<Vec<char>> = Vec::new();
    let mut start: usize = 0;
    let mut i: usize = 0;
    proof {
        assert(s@.subrange(0, s@.len() as int) =~= s@);
    }
    while i < s.len()
        invariant
            start <= i <= s@.len(),
            s@ == text@,
            forall|j: int| start <= j < i ==> s@[j] != '|',
            split_bars(s@) == pieces@.map_values(|p: Vec<char>| p@) + split_bars(
                s@.subrange(start as int, s@.len() as int),
            ),
        decreases s@.len() - i,
    {
        if s[i] == '|' {
            let ghost rest = s@.subrange(start as int, s@.len() as int);
            proof {
                lemma_first_bar_shift(s@, start as int, start as int);
                lemma_first_bar(s@, start as int);
                assert(first_bar(s@, start as int) == i) by {
                    lemma_first_bar(s@, start as int);
                    if first_bar(s@, start as int) < i {
                        assert(s@[first_bar(s@, start as int)] == '|');
                    }
                }
                assert(rest.subrange(0, i - start) =~= s@.subrange(start as int, i as int));
                assert(rest.subrange(i - start + 1, rest.len() as int) =~= s@.subrange(
                    i + 1,
                    s@.len() as int,
                ));
            }
            let mut piece: Vec<char> = Vec::new();
            let mut j = start;
            while j < i
                invariant
                    start <= j <= i < s@.len(),
                    piece@ == s@.subrange(start as int, j as int),
                decreases i - j,
            {
                piece.push(s[j]);
                j += 1;
                assert(piece@ =~= s@.subrange(start as int, j as int));
            }
            let ghost before = pieces@.map_values(|p: Vec<char>| p@);
            pieces.push(piece);
            assert(pieces@.map_values(|p: Vec<char>| p@) =~= before.push(
                s@.subrange(start as int, i as int),
            ));
            assert(before + split_bars(rest) =~= pieces@.map_values(|p: Vec<char>| p@) + split_bars(
                s@.subrange(i + 1, s@.len() as int),
            ));
            start = i + 1;
        }
        i += 1;
    }
    let mut last: Vec<char> = Vec::new();
    let mut j = start;
    while j < s.len()
        invariant
            start <= j <= s@.len(),
            last@ == s@.subrange(start as int, j as int),
        decreases s@.len() - j,
    {
        last.push(s[j]);
        j += 1;
        assert(last@ =~= s@.subrange(start as int, j as int));
    }
    proof {
        let rest = s@.subrange(start as int, s@.len() as int);
        lemma_first_bar(rest, 0);
        if first_bar(rest, 0) < rest.len() {
            assert(rest[first_bar(rest, 0)] == s@[start + first_bar(rest, 0)]);
        }
    }
    let ghost before = pieces@.map_values(|p: Vec<char>| p@);
    let keep_last = last.len() > 0;
    if keep_last {
        pieces.push(last);
    }
    assert(split_bars(s@) =~= before.push(s@.subrange(start as int, s@.len() as int)));
    let mut r: Vec<String> = Vec::new();
    let mut k: usize = 0;
    let ghost expected = annotation_words(text@);
    proof {
        if keep_last {
            assert(pieces@.map_values(|p: Vec<char>| p@) =~= split_terminator_bars(s@));
        } else {
            assert(pieces@.map_values(|p: Vec<char>| p@) =~= split_terminator_bars(s@));
        }
    }
    while k < pieces.len()
        invariant
            k <= pieces@.len(),
            pieces@.map_values(|p: Vec<char>| p@) == split_terminator_bars(text@),
            r@.len() == k,
            forall|m: int| 0 <= m < k ==> (#[trigger] r@[m])@ == trim(pieces@[m]@),
        decreases pieces@.len() - k,
    {
        let w = trim_chars(&pieces[k]);
        r.push(chars_to_string(&w));
        k += 1;
    }
    proof {
        assert forall|m: int| 0 <= m < r@.len() implies r@.map_values(|w: String| w@)[m]
            == annotation_words(text@)[m] by {
            assert(split_terminator_bars(text@)[m] == pieces@[m]@);
        }
        assert(r@.map_values(|w: String| w@) =~= annotation_words(text@));
    }
    r
}

/// The pairs of the derived CLDR annotations: for each character in turn,
/// one pair for each of its default descriptions.
pub open spec fn cldr_pairs(entries: Seq<(String, Option<Vec<String>>)>) -> Seq<(Seq<char>, Seq<char>)>
    decreases entries.len(),
{
    if entries.len() == 0 {
        Seq::empty()
    } else {
        cldr_pairs(entries.drop_last()) + match entries.last().1 {
            Some(d) => d@.map_values(|x: String| (entries.last().0@, x@)),
            None => Seq::empty(),
        }
    }
}

/// The annotation pairs of a derived CLDR annotation file of `locale`,
/// given its language and its entries (each character with its default
/// descriptions) in the order in which they are read.
pub fn parse_cldr_annotations(
    locale: SupportedLocale,
    language: &str,
    annotations: &Vec<(String, Option<Vec<String>>)>,
) -> (r: Vec<AnnotationPair>)
    requires
        language@ == locale_tag(locale),
    ensures
        crate::sequence_definition::pairs_view(r@) == cldr_pairs(annotations@),
{
    let mut pairs: Vec<AnnotationPair> = Vec::new();
    let mut i: usize = 0;
    assert(annotations@.take(0) =~= Seq::<(String, Option<Vec<String>>)>::empty());
    assert(crate::sequence_definition::pairs_view(pairs@) =~= Seq::<(Seq<char>, Seq<char>)>::empty());
    while i < annotations.len()
        invariant
            i <= annotations@.len(),
            crate::sequence_definition::pairs_view(pairs@) == cldr_pairs(annotations@.take(i as int)),
        decreases annotations@.len() - i,
    {
        assert(annotations@.take(i + 1).drop_last() =~= annotations@.take(i as int));
        assert(annotations@.take(i + 1).last() == annotations@[i as int]);
        let emoji = &annotations[i].0;
        match &annotations[i].1 {
            Some(descriptions) => {
                let ghost before = crate::sequence_definition::pairs_view(pairs@);
                let ghost all = descriptions@.map_values(|x: String| (emoji@, x@));
                let mut j: usize = 0;
                while j < descriptions.len()
                    invariant
                        j <= descriptions@.len(),
                        all == descriptions@.map_values(|x: String| (emoji@, x@)),
                        crate::sequence_definition::pairs_view(pairs@) == before + all.take(j as int),
                    decreases descriptions@.len() - j,
                {
                    let ghost pv = crate::sequence_definition::pairs_view(pairs@);
                    pairs.push(AnnotationPair { char: emoji.clone(), desc: descriptions[j].clone() });
                    assert(crate::sequence_definition::pairs_view(pairs@) =~= pv.push(all[j as int]));
                    assert(all.take(j + 1) =~= all.take(j as int).push(all[j as int]));
                    j += 1;
                }
                assert(all.take(j as int) =~= all);
            },
            None => {
                assert(crate::sequence_definition::pairs_view(pairs@) + Seq::<(Seq<char>, Seq<char>)>::empty() =~= crate::sequence_definition::pairs_view(pairs@));
            },
        }
        i += 1;
    }
    assert(annotations@.take(i as int) =~= annotations@);
    pairs
}

} // verus!
