//! The compose sequences, indexed for exact lookup and prefix search, with
//! the names and CLDR descriptions of the characters they produce.
use vstd::prelude::*;
use crate::assoc::{NumberTable, StringTable};
use crate::cldr::{annotation_words, annotation_words_of, Annotation, AnnotationPair, SupportedLocale};
use crate::compose::{compose_table, decode_entry_panics, sorted_keys, ComposeDef};
use crate::keysym::{keysym_table, lines_view, KeySymDef};
use crate::fst_map::{
    entries_map, fst_builder_entries, fst_builder_insert, fst_builder_into_map,
    fst_builder_is_text, fst_builder_memory, fst_empty_map, fst_get, fst_map_contents,
    fst_map_is_text, fst_prefix_entries, has_prefix, prefix_listing,
};
use crate::mapped::{mapped_text, MappedString, MappedView};
use crate::order::seq_lt;
use crate::search::{
    add_found, all_contain_exec, any_contains_exec, collect, found_view, language_candidates,
    lemma_collect_from_candidates, lemma_collect_step, lemma_language_candidates_source,
    lemma_name_candidates_source, lemma_offers_concat, lemma_token_candidates_source,
    name_candidates, offers, pair_candidates, pair_matches, token_candidates, Found,
};
use crate::text::{char_to_string, contains_seq, lowercase, split_whitespace, words_from, str_chars, str_to_lowercase, str_to_uppercase, uppercase};

verus! {

/// Why a sequence has no translation, or why a request failed.
#[derive(Clone, Copy, Debug, PartialEq, Eq, Structural)]
pub enum SequenceDefinitionError {
    /// No sequence is, or starts with, what was typed.
    ValueNotFound,
    /// What was typed is the start of a longer sequence.
    Incomplete,
    /// The request could not be carried out.
    Failure,
}

/// A compose sequence, what it produces, and a description of that.
#[derive(Clone, Debug, PartialEq, Eq)]
pub struct SequenceDescription {
    pub sequence: String,
    pub result: String,
    pub description: String,
}

/// The translation table of a sequence definition: each key of the prefix
/// map, with the value filed under its number.
pub open spec fn translation_of(contents: Map<Seq<char>, u64>, values: Map<u64, MappedString>) -> Map<
    Seq<char>,
    MappedView,
> {
    Map::new(
        |k: Seq<char>| contents.contains_key(k) && values.contains_key(contents[k]),
        |k: Seq<char>| values[contents[k]]@,
    )
}

/// The pairs of an annotation text: the character with each of its words.
pub open spec fn annotation_pairs(a: Annotation) -> Seq<(Seq<char>, Seq<char>)> {
    annotation_words(a.text@).map_values(|w: Seq<char>| (a.cp@, w))
}

/// Reads one annotation file: a typed annotation names its character unless
/// the character already has a name; the others add their descriptions.
pub open spec fn fold_annotations(
    names: Map<Seq<char>, String>,
    pairs: Seq<(Seq<char>, Seq<char>)>,
    file: Seq<Annotation>,
) -> (Map<Seq<char>, String>, Seq<(Seq<char>, Seq<char>)>)
    decreases file.len(),
{
    if file.len() == 0 {
        (names, pairs)
    } else {
        let (n, p) = fold_annotations(names, pairs, file.drop_last());
        let a = file.last();
        if a.kind is Some {
            (
                if n.contains_key(a.cp@) {
                    n
                } else {
                    n.insert(a.cp@, a.text)
                },
                p,
            )
        } else {
            (n, p + annotation_pairs(a))
        }
    }
}

/// Reads the files of one language in order.
pub open spec fn fold_files(
    names: Map<Seq<char>, String>,
    pairs: Seq<(Seq<char>, Seq<char>)>,
    files: Seq<Vec<Annotation>>,
) -> (Map<Seq<char>, String>, Seq<(Seq<char>, Seq<char>)>)
    decreases files.len(),
{
    if files.len() == 0 {
        (names, pairs)
    } else {
        let (n, p) = fold_files(names, pairs, files.drop_last());
        fold_annotations(n, p, files.last()@)
    }
}

/// Reads the files of every language in order; a language met twice keeps
/// the descriptions of its last files.
pub open spec fn fold_languages(
    names: Map<Seq<char>, String>,
    langs: Seq<(SupportedLocale, Vec<Vec<Annotation>>)>,
) -> (Map<Seq<char>, String>, Map<SupportedLocale, Seq<(Seq<char>, Seq<char>)>>)
    decreases langs.len(),
{
    if langs.len() == 0 {
        (names, Map::empty())
    } else {
        let (n, m) = fold_languages(names, langs.drop_last());
        let (l, files) = langs.last();
        let (n2, p) = fold_files(n, Seq::empty(), files@);
        (n2, m.insert(l, p))
    }
}

/// `a` is a typed annotation of the character `cp`.
pub open spec fn names_char(a: Annotation, cp: Seq<char>) -> bool {
    a.kind is Some && a.cp@ == cp
}

/// Reading a file keeps every name already given.
proof fn lemma_fold_annotations_keeps(
    n: Map<Seq<char>, String>,
    p: Seq<(Seq<char>, Seq<char>)>,
    file: Seq<Annotation>,
    k: Seq<char>,
)
    requires
        n.contains_key(k),
    ensures
        fold_annotations(n, p, file).0.contains_key(k),
        fold_annotations(n, p, file).0[k] == n[k],
    decreases file.len(),
{
    if file.len() > 0 {
        lemma_fold_annotations_keeps(n, p, file.drop_last(), k);
    }
}

/// Reading a file names only characters of its typed annotations.
proof fn lemma_fold_annotations_new(
    n: Map<Seq<char>, String>,
    p: Seq<(Seq<char>, Seq<char>)>,
    file: Seq<Annotation>,
    k: Seq<char>,
)
    requires
        !n.contains_key(k),
        forall|i: int| 0 <= i < file.len() ==> !names_char(#[trigger] file[i], k),
    ensures
        !fold_annotations(n, p, file).0.contains_key(k),
    decreases file.len(),
{
    if file.len() > 0 {
        assert(!names_char(file[file.len() - 1], k));
        lemma_fold_annotations_new(n, p, file.drop_last(), k);
    }
}

/// The first typed annotation of a character not yet named names it.
proof fn lemma_fold_annotations_first(
    n: Map<Seq<char>, String>,
    p: Seq<(Seq<char>, Seq<char>)>,
    file: Seq<Annotation>,
    k: Seq<char>,
    ai: int,
)
    requires
        !n.contains_key(k),
        0 <= ai < file.len(),
        names_char(file[ai], k),
        forall|i: int| 0 <= i < ai ==> !names_char(#[trigger] file[i], k),
    ensures
        fold_annotations(n, p, file).0.contains_key(k),
        fold_annotations(n, p, file).0[k] == file[ai].text,
    decreases file.len(),
{
    let d = file.drop_last();
    if ai == file.len() - 1 {
        assert forall|i: int| 0 <= i < d.len() implies !names_char(#[trigger] d[i], k) by {
            assert(d[i] == file[i]);
        }
        lemma_fold_annotations_new(n, p, d, k);
    } else {
        assert forall|i: int| 0 <= i < ai implies !names_char(#[trigger] d[i], k) by {
            assert(d[i] == file[i]);
        }
        lemma_fold_annotations_first(n, p, d, k, ai);
    }
}

/// Reading files keeps every name already given.
proof fn lemma_fold_files_keeps(
    n: Map<Seq<char>, String>,
    p: Seq<(Seq<char>, Seq<char>)>,
    files: Seq<Vec<Annotation>>,
    k: Seq<char>,
)
    requires
        n.contains_key(k),
    ensures
        fold_files(n, p, files).0.contains_key(k),
        fold_files(n, p, files).0[k] == n[k],
    decreases files.len(),
{
    if files.len() > 0 {
        lemma_fold_files_keeps(n, p, files.drop_last(), k);
        let (n1, p1) = fold_files(n, p, files.drop_last());
        lemma_fold_annotations_keeps(n1, p1, files.last()@, k);
    }
}

/// Files without a typed annotation of a character do not name it.
proof fn lemma_fold_files_new(
    n: Map<Seq<char>, String>,
    p: Seq<(Seq<char>, Seq<char>)>,
    files: Seq<Vec<Annotation>>,
    k: Seq<char>,
)
    requires
        !n.contains_key(k),
        forall|f: int, i: int|
            0 <= f < files.len() && 0 <= i < files[f]@.len() ==> !names_char(
                #[trigger] files[f]@[i],
                k,
            ),
    ensures
        !fold_files(n, p, files).0.contains_key(k),
    decreases files.len(),
{
    if files.len() > 0 {
        let d = files.drop_last();
        assert forall|f: int, i: int|
            0 <= f < d.len() && 0 <= i < d[f]@.len() implies !names_char(#[trigger] d[f]@[i], k) by {
            assert(d[f] == files[f]);
        }
        lemma_fold_files_new(n, p, d, k);
        let (n1, p1) = fold_files(n, p, d);
        let last = files.last()@;
        assert forall|i: int| 0 <= i < last.len() implies !names_char(#[trigger] last[i], k) by {
            assert(files[files.len() - 1]@[i] == last[i]);
        }
        lemma_fold_annotations_new(n1, p1, last, k);
    }
}

/// The first typed annotation of a character not yet named, over the files
/// in order, names it.
proof fn lemma_fold_files_first(
    n: Map<Seq<char>, String>,
    p: Seq<(Seq<char>, Seq<char>)>,
    files: Seq<Vec<Annotation>>,
    k: Seq<char>,
    fi: int,
    ai: int,
)
    requires
        !n.contains_key(k),
        0 <= fi < files.len(),
        0 <= ai < files[fi]@.len(),
        names_char(files[fi]@[ai], k),
        forall|f: int, i: int|
            0 <= f < fi && 0 <= i < files[f]@.len() ==> !names_char(#[trigger] files[f]@[i], k),
        forall|i: int| 0 <= i < ai ==> !names_char(#[trigger] files[fi]@[i], k),
    ensures
        fold_files(n, p, files).0.contains_key(k),
        fold_files(n, p, files).0[k] == files[fi]@[ai].text,
    decreases files.len(),
{
    let d = files.drop_last();
    let (n1, p1) = fold_files(n, p, d);
    if fi == files.len() - 1 {
        assert forall|f: int, i: int|
            0 <= f < d.len() && 0 <= i < d[f]@.len() implies !names_char(#[trigger] d[f]@[i], k) by {
            assert(d[f] == files[f]);
        }
        lemma_fold_files_new(n, p, d, k);
        lemma_fold_annotations_first(n1, p1, files.last()@, k, ai);
    } else {
        assert forall|f: int, i: int|
            0 <= f < fi && 0 <= i < d[f]@.len() implies !names_char(#[trigger] d[f]@[i], k) by {
            assert(d[f] == files[f]);
        }
        assert(d[fi] == files[fi]);
        lemma_fold_files_first(n, p, d, k, fi, ai);
        lemma_fold_annotations_keeps(n1, p1, files.last()@, k);
    }
}

/// A character named by a typed annotation of the first language keeps
/// the name of the first such annotation, in the order of that language's
/// files, whatever the later languages hold.
pub proof fn lemma_first_language_names(
    langs: Seq<(SupportedLocale, Vec<Vec<Annotation>>)>,
    k: Seq<char>,
    fi: int,
    ai: int,
)
    requires
        langs.len() > 0,
        0 <= fi < langs[0].1@.len(),
        0 <= ai < langs[0].1@[fi]@.len(),
        names_char(langs[0].1@[fi]@[ai], k),
        forall|f: int, i: int|
            0 <= f < fi && 0 <= i < langs[0].1@[f]@.len() ==> !names_char(
                #[trigger] langs[0].1@[f]@[i],
                k,
            ),
        forall|i: int| 0 <= i < ai ==> !names_char(#[trigger] langs[0].1@[fi]@[i], k),
    ensures
        fold_languages(Map::empty(), langs).0.contains_key(k),
        fold_languages(Map::empty(), langs).0[k] == langs[0].1@[fi]@[ai].text,
    decreases langs.len(),
{
    let d = langs.drop_last();
    let (n1, m1) = fold_languages(Map::empty(), d);
    if langs.len() == 1 {
        lemma_fold_files_first(Map::empty(), Seq::empty(), langs[0].1@, k, fi, ai);
    } else {
        assert(d[0] == langs[0]);
        lemma_first_language_names(d, k, fi, ai);
        lemma_fold_files_keeps(n1, Seq::empty(), langs.last().1@, k);
    }
}

/// The views of a list of annotation pairs.
pub open spec fn pairs_view(v: Seq<AnnotationPair>) -> Seq<(Seq<char>, Seq<char>)> {
    v.map_values(|p: AnnotationPair| (p.char@, p.desc@))
}

/// The annotations of each language, the latest binding winning.
pub open spec fn locale_map(e: Seq<(SupportedLocale, Vec<AnnotationPair>)>) -> Map<
    SupportedLocale,
    Seq<(Seq<char>, Seq<char>)>,
>
    decreases e.len(),
{
    if e.len() == 0 {
        Map::empty()
    } else {
        locale_map(e.drop_last()).insert(e.last().0, pairs_view(e.last().1@))
    }
}

/// The numbers under which the `j`-th sequence of a table is filed: single
/// characters are counted from 1, longer texts from 2^32.
pub open spec fn count_basic(e: Seq<(Seq<char>, MappedView)>, j: int) -> int
    decreases j,
{
    if j <= 0 {
        0
    } else {
        count_basic(e, j - 1) + if e[j - 1].1 is Basic {
            1int
        } else {
            0int
        }
    }
}

/// Among the first `j` entries at most `j` are basic.
pub proof fn lemma_count_basic(e: Seq<(Seq<char>, MappedView)>, j: int)
    requires
        0 <= j,
    ensures
        0 <= count_basic(e, j) <= j,
    decreases j,
{
    if j > 0 {
        lemma_count_basic(e, j - 1);
    }
}


/// Reads one annotation file into `names` and `pairs`; see
/// `fold_annotations`.
fn read_annotation_file(
    names: &mut StringTable<String>,
    pairs: &mut Vec<AnnotationPair>,
    file: &Vec<Annotation>,
)
    ensures
        final(names)@ == fold_annotations(old(names)@, pairs_view(old(pairs)@), file@).0,
        pairs_view(final(pairs)@) == fold_annotations(
            old(names)@,
            pairs_view(old(pairs)@),
            file@,
        ).1,
{
    let ghost n0 = names@;
    let ghost p0 = pairs_view(pairs@);
    let mut i: usize = 0;
    assert(file@.take(0) =~= Seq::<Annotation>::empty());
    while i < file.len()
        invariant
            i <= file@.len(),
            names@ == fold_annotations(n0, p0, file@.take(i as int)).0,
            pairs_view(pairs@) == fold_annotations(n0, p0, file@.take(i as int)).1,
        decreases file@.len() - i,
    {
        let ghost pre = file@.take(i as int);
        assert(file@.take(i + 1).drop_last() =~= pre);
        assert(file@.take(i + 1).last() == file@[i as int]);
        let a = &file[i];
        if a.kind.is_some() {
            if !names.contains_key(&a.cp) {
                names.insert(a.cp.clone(), a.text.clone());
            }
        } else {
            let words = annotation_words_of(a.text.as_str());
            let ghost before = pairs_view(pairs@);
            let ghost all = annotation_pairs(*a);
            assert(all.len() == words@.len());
            let mut w: usize = 0;
            while w < words.len()
                invariant
                    w <= words@.len(),
                    a == &file@[i as int],
                    all == annotation_pairs(*a),
                    all.len() == words@.len(),
                    words@.map_values(|x: String| x@) == annotation_words(a.text@),
                    pairs_view(pairs@) == before + all.take(w as int),
                decreases words@.len() - w,
            {
                let ghost pv = pairs_view(pairs@);
                let pair = AnnotationPair { char: a.cp.clone(), desc: words[w].clone() };
                pairs.push(pair);
                assert(words@.map_values(|x: String| x@)[w as int] == words@[w as int]@);
                assert(pairs_view(pairs@) =~= pv.push((a.cp@, words@[w as int]@)));
                assert(all.take(w + 1) =~= all.take(w as int).push(all[w as int]));
                w += 1;
            }
            assert(all.take(w as int) =~= all);
        }
        i += 1;
    }
    assert(file@.take(i as int) =~= file@);
}

/// Reads the annotation files of one language into `names`, and gives the
/// descriptions found; see `fold_files`.
fn read_language_files(names: &mut StringTable<String>, files: &Vec<Vec<Annotation>>) -> (r: Vec<
    AnnotationPair,
>)
    ensures
        final(names)@ == fold_files(old(names)@, Seq::empty(), files@).0,
        pairs_view(r@) == fold_files(old(names)@, Seq::empty(), files@).1,
{
    let ghost n0 = names@;
    let mut pairs: Vec<AnnotationPair> = Vec::new();
    let mut i: usize = 0;
    assert(files@.take(0) =~= Seq::<Vec<Annotation>>::empty());
    assert(pairs_view(pairs@) =~= Seq::<(Seq<char>, Seq<char>)>::empty());
    while i < files.len()
        invariant
            i <= files@.len(),
            names@ == fold_files(n0, Seq::empty(), files@.take(i as int)).0,
            pairs_view(pairs@) == fold_files(n0, Seq::empty(), files@.take(i as int)).1,
        decreases files@.len() - i,
    {
        assert(files@.take(i + 1).drop_last() =~= files@.take(i as int));
        assert(files@.take(i + 1).last() == files@[i as int]);
        read_annotation_file(names, &mut pairs, &files[i]);
        i += 1;
    }
    assert(files@.take(i as int) =~= files@);
    pairs
}


/// The map that an ordered table describes.
pub open spec fn table_map(e: Seq<(Seq<char>, MappedView)>) -> Map<Seq<char>, MappedView>
    decreases e.len(),
{
    if e.len() == 0 {
        Map::empty()
    } else {
        table_map(e.drop_last()).insert(e.last().0, e.last().1)
    }
}

/// For each text that a table produces, the sequence that produces it; a
/// later sequence of the table wins over an earlier one.
pub open spec fn sequence_index(e: Seq<(Seq<char>, MappedView)>) -> Map<Seq<char>, Seq<char>>
    decreases e.len(),
{
    if e.len() == 0 {
        Map::empty()
    } else {
        sequence_index(e.drop_last()).insert(mapped_text(e.last().1), e.last().0)
    }
}

/// Some sequence of `e` produces the single character `c`.
pub open spec fn produces_char(e: Seq<(Seq<char>, MappedView)>, c: char) -> bool {
    exists|j: int| 0 <= j < e.len() && #[trigger] e[j].1 == MappedView::Basic(c)
}

/// `k` is a one-character text that some sequence of `e` produces.
pub open spec fn produced_key(e: Seq<(Seq<char>, MappedView)>, k: Seq<char>) -> bool {
    k.len() == 1 && produces_char(e, k[0])
}

/// The compose table that the lines of a `keysymdef.h` and of a `Compose`
/// file define; empty when the keysyms cannot be read.
pub open spec fn definition_entries(keysymdef: Seq<Seq<char>>, composedef: Seq<Seq<char>>) -> Seq<
    (Seq<char>, MappedView),
> {
    match keysym_table(keysymdef) {
        Ok(m) => compose_table(composedef, m),
        Err(_) => Seq::empty(),
    }
}

/// The lines of a `Compose` file can be read with the keysyms of a
/// `keysymdef.h`: no line whose keys are known has an empty value.
pub open spec fn readable_definition(keysymdef: Seq<Seq<char>>, composedef: Seq<Seq<char>>) -> bool {
    keysym_table(keysymdef) matches Ok(m) ==> forall|i: int|
        0 <= i < composedef.len() ==> !decode_entry_panics(#[trigger] composedef[i], m)
}

/// Filing a new key under a number that no key had yet adds one entry to
/// the translation.
proof fn lemma_translation_insert(
    contents: Map<Seq<char>, u64>,
    values: Map<u64, MappedString>,
    k: Seq<char>,
    n: u64,
    v: MappedString,
)
    requires
        forall|x: Seq<char>| contents.contains_key(x) ==> contents[x] != n,
    ensures
        translation_of(contents.insert(k, n), values.insert(n, v)) == translation_of(
            contents,
            values,
        ).insert(k, v@),
{
    assert(translation_of(contents.insert(k, n), values.insert(n, v)) =~= translation_of(
        contents,
        values,
    ).insert(k, v@));
}

/// The text of a result.
pub open spec fn text_result(r: Result<String, SequenceDefinitionError>) -> Result<
    Seq<char>,
    SequenceDefinitionError,
> {
    match r {
        Ok(s) => Ok(s@),
        Err(e) => Err(e),
    }
}

/// What typing `s` gives with the translation `t`: the text of a whole
/// sequence; `Incomplete` for the start of a longer one; `ValueNotFound`
/// otherwise.
pub open spec fn translation_outcome(t: Map<Seq<char>, MappedView>, s: Seq<char>) -> Result<
    Seq<char>,
    SequenceDefinitionError,
> {
    if t.contains_key(s) {
        Ok(mapped_text(t[s]))
    } else if exists|k: Seq<char>| t.contains_key(k) && has_prefix(k, s) {
        Err(SequenceDefinitionError::Incomplete)
    } else {
        Err(SequenceDefinitionError::ValueNotFound)
    }
}

/// In an ordered table, each sequence maps to its own value.
pub proof fn lemma_table_map_sorted(e: Seq<(Seq<char>, MappedView)>, j: int)
    requires
        sorted_keys(e),
        0 <= j < e.len(),
    ensures
        table_map(e).contains_key(e[j].0),
        table_map(e)[e[j].0] == e[j].1,
    decreases e.len(),
{
    if j < e.len() - 1 {
        let d = e.drop_last();
        assert(sorted_keys(d)) by {
            assert forall|a: int, b: int| 0 <= a < b < d.len() implies seq_lt(
                #[trigger] d[a].0,
                #[trigger] d[b].0,
            ) by {
                assert(d[a] == e[a] && d[b] == e[b]);
            }
        }
        assert(d[j] == e[j]);
        lemma_table_map_sorted(d, j);
        assert(seq_lt(e[j].0, e[e.len() - 1].0));
        crate::order::lemma_seq_lt_irreflexive(e[j].0);
    }
}

/// Every sequence of an ordered compose table translates to its text.
pub proof fn lemma_sequences_translate(e: Seq<(Seq<char>, MappedView)>, j: int)
    requires
        sorted_keys(e),
        0 <= j < e.len(),
    ensures
        translation_outcome(table_map(e), e[j].0) == Ok::<Seq<char>, SequenceDefinitionError>(
            mapped_text(e[j].1),
        ),
{
    lemma_table_map_sorted(e, j);
}

/// The sequences that a table binds are exactly those it lists.
proof fn lemma_table_map_dom(e: Seq<(Seq<char>, MappedView)>, k: Seq<char>)
    ensures
        table_map(e).contains_key(k) <==> exists|i: int| 0 <= i < e.len() && #[trigger] e[i].0 == k,
    decreases e.len(),
{
    if e.len() > 0 {
        let d = e.drop_last();
        lemma_table_map_dom(d, k);
        if table_map(d).contains_key(k) {
            let i = choose|i: int| 0 <= i < d.len() && #[trigger] d[i].0 == k;
            assert(e[i].0 == k);
        }
        if exists|i: int| 0 <= i < e.len() && #[trigger] e[i].0 == k {
            let i = choose|i: int| 0 <= i < e.len() && #[trigger] e[i].0 == k;
            if i < e.len() - 1 {
                assert(d[i].0 == k);
            }
        }
    }
}

/// Two strictly increasing lists of texts that hold the same texts are
/// the same list.
proof fn lemma_sorted_same_members(a: Seq<Seq<char>>, b: Seq<Seq<char>>)
    requires
        forall|i: int, j: int| 0 <= i < j < a.len() ==> seq_lt(#[trigger] a[i], #[trigger] a[j]),
        forall|i: int, j: int| 0 <= i < j < b.len() ==> seq_lt(#[trigger] b[i], #[trigger] b[j]),
        forall|k: Seq<char>| a.contains(k) <==> b.contains(k),
    ensures
        a == b,
    decreases a.len(),
{
    if a.len() == 0 {
        if b.len() > 0 {
            assert(b.contains(b[0]));
        }
        assert(a =~= b);
    } else {
        assert(a.contains(a[0]));
        let j = choose|j: int| 0 <= j < b.len() && b[j] == a[0];
        assert(b.contains(b[0]));
        let i = choose|i: int| 0 <= i < a.len() && a[i] == b[0];
        if a[0] != b[0] {
            assert(j > 0 && i > 0);
            assert(seq_lt(b[0], b[j]));
            assert(seq_lt(a[0], a[i]));
            crate::order::lemma_seq_lt_asymmetric(a[0], b[0]);
            assert(false);
        }
        let a1 = a.drop_first();
        let b1 = b.drop_first();
        assert forall|k: Seq<char>| a1.contains(k) <==> b1.contains(k) by {
            if a1.contains(k) {
                let x = choose|x: int| 0 <= x < a1.len() && a1[x] == k;
                assert(a[x + 1] == k);
                assert(seq_lt(a[0], a[x + 1]));
                crate::order::lemma_seq_lt_irreflexive(k);
                assert(b.contains(k));
                let y = choose|y: int| 0 <= y < b.len() && b[y] == k;
                assert(y != 0);
                assert(b1[y - 1] == k);
            }
            if b1.contains(k) {
                let y = choose|y: int| 0 <= y < b1.len() && b1[y] == k;
                assert(b[y + 1] == k);
                assert(seq_lt(b[0], b[y + 1]));
                crate::order::lemma_seq_lt_irreflexive(k);
                assert(a.contains(k));
                let x = choose|x: int| 0 <= x < a.len() && a[x] == k;
                assert(x != 0);
                assert(a1[x - 1] == k);
            }
        }
        assert forall|x: int, y: int| 0 <= x < y < a1.len() implies seq_lt(#[trigger] a1[x], #[trigger] a1[y]) by {
            assert(a1[x] == a[x + 1] && a1[y] == a[y + 1]);
        }
        assert forall|x: int, y: int| 0 <= x < y < b1.len() implies seq_lt(#[trigger] b1[x], #[trigger] b1[y]) by {
            assert(b1[x] == b[x + 1] && b1[y] == b[y + 1]);
        }
        lemma_sorted_same_members(a1, b1);
        assert(a =~= seq![a[0]] + a1);
        assert(b =~= seq![b[0]] + b1);
    }
}

/// What a definition built from the ordered table `e` answers: each
/// sequence of the table translates to its text, and the sequences that
/// start with the empty text, in order, are exactly those of the table.
/// With the contract of `rebuild` (which installs `table_map` of the
/// table it reads, in order) this gives what `translate_sequence` and
/// `potential_prefix` answer after a successful rebuild.
pub proof fn lemma_rebuilt_definition_answers(
    e: Seq<(Seq<char>, MappedView)>,
    keys: Seq<Seq<char>>,
    j: int,
)
    requires
        sorted_keys(e),
        0 <= j < e.len(),
    ensures
        translation_outcome(table_map(e), e[j].0) == Ok::<Seq<char>, SequenceDefinitionError>(
            mapped_text(e[j].1),
        ),
        prefix_keys(table_map(e), Seq::<char>::empty(), keys) ==> keys == e.map_values(
            |x: (Seq<char>, MappedView)| x.0,
        ),
{
    lemma_sequences_translate(e, j);
    let ks = e.map_values(|x: (Seq<char>, MappedView)| x.0);
    if prefix_keys(table_map(e), Seq::<char>::empty(), keys) {
        assert forall|k: Seq<char>| keys.contains(k) <==> ks.contains(k) by {
            lemma_table_map_dom(e, k);
            assert(k.subrange(0, 0) =~= Seq::<char>::empty());
            assert(has_prefix(k, Seq::<char>::empty()));
            if keys.contains(k) {
                let x = choose|x: int| 0 <= x < keys.len() && keys[x] == k;
                assert(table_map(e).contains_key(keys[x]));
                let i = choose|i: int| 0 <= i < e.len() && #[trigger] e[i].0 == k;
                assert(ks[i] == k);
            }
            if ks.contains(k) {
                let i = choose|i: int| 0 <= i < ks.len() && ks[i] == k;
                assert(e[i].0 == k);
                assert(table_map(e).contains_key(k));
                let x = choose|x: int| 0 <= x < keys.len() && #[trigger] keys[x] == k;
                assert(keys.contains(k));
            }
        }
        assert forall|x: int, y: int| 0 <= x < y < ks.len() implies seq_lt(#[trigger] ks[x], #[trigger] ks[y]) by {
            assert(ks[x] == e[x].0 && ks[y] == e[y].0);
        }
        lemma_sorted_same_members(keys, ks);
    }
}

/// The start of a sequence that is no sequence itself is incomplete.
pub proof fn lemma_prefix_is_incomplete(t: Map<Seq<char>, MappedView>, k: Seq<char>, p: Seq<char>)
    requires
        t.contains_key(k),
        has_prefix(k, p),
        !t.contains_key(p),
    ensures
        translation_outcome(t, p) == Err::<Seq<char>, SequenceDefinitionError>(
            SequenceDefinitionError::Incomplete,
        ),
{
}

/// A text that starts no sequence is not found.
pub proof fn lemma_unknown_is_not_found(t: Map<Seq<char>, MappedView>, p: Seq<char>)
    requires
        forall|k: Seq<char>| t.contains_key(k) ==> !has_prefix(k, p),
    ensures
        translation_outcome(t, p) == Err::<Seq<char>, SequenceDefinitionError>(
            SequenceDefinitionError::ValueNotFound,
        ),
{
    assert(!t.contains_key(p)) by {
        if t.contains_key(p) {
            assert(p.subrange(0, p.len() as int) =~= p);
            assert(has_prefix(p, p));
        }
    }
}

/// Whether the lines of a `Compose` file can be read with the keysyms of a
/// `keysymdef.h`; see `readable_definition`.
pub fn is_readable_definition(keysymdef: &Vec<String>, composedef: &Vec<String>) -> (r: bool)
    ensures
        r == readable_definition(lines_view(keysymdef@), lines_view(composedef@)),
{
    let keysym = match KeySymDef::new(keysymdef) {
        Ok(k) => k,
        Err(_) => {
            return true;
        },
    };
    let mut i: usize = 0;
    while i < composedef.len()
        invariant
            i <= composedef@.len(),
            keysym_table(lines_view(keysymdef@)) == Ok::<
                Map<Seq<char>, char>,
                crate::error::SequenceTranslatorError,
            >(keysym@),
            forall|j: int| 0 <= j < i ==> !decode_entry_panics(#[trigger] lines_view(composedef@)[j], keysym@),
        decreases composedef@.len() - i,
    {
        assert(lines_view(composedef@)[i as int] == composedef@[i as int]@);
        if crate::compose::entry_panics(composedef[i].as_str(), &keysym) {
            return false;
        }
        i += 1;
    }
    true
}

/// Compose sequences with fast prefix search, and the names and
/// descriptions of characters in the user's languages.
pub struct SequenceDefinition {
    prefix_map: fst::Map<Vec<u8>>,
    value_to_string: NumberTable<MappedString>,
    char_to_name: StringTable<String>,
    string_to_sequence: StringTable<String>,
    annotations: Vec<(SupportedLocale, Vec<AnnotationPair>)>,
}

impl SequenceDefinition {
    /// What each sequence produces.
    pub closed spec fn translation(&self) -> Map<Seq<char>, MappedView> {
        translation_of(fst_map_contents(self.prefix_map), self.value_to_string@)
    }

    /// The name of each character.
    pub closed spec fn names(&self) -> Map<Seq<char>, String> {
        self.char_to_name@
    }

    /// The sequence that types each produced text.
    pub closed spec fn sequences(&self) -> Map<Seq<char>, Seq<char>> {
        self.string_to_sequence@.map_values(|s: String| s@)
    }

    /// The descriptions of characters, per language.
    pub closed spec fn annotations(&self) -> Map<SupportedLocale, Seq<(Seq<char>, Seq<char>)>> {
        locale_map(self.annotations@)
    }

    /// Every sequence of the prefix map has a value, and every single
    /// character produced has a name.
    pub closed spec fn wf(&self) -> bool {
        &&& fst_map_is_text(self.prefix_map)
        &&& forall|k: Seq<char>| #[trigger]
            fst_map_contents(self.prefix_map).contains_key(k)
                ==> self.value_to_string@.contains_key(fst_map_contents(self.prefix_map)[k])
        &&& forall|k: Seq<char>| #[trigger]
            self.translation().contains_key(k) ==> (self.translation()[k] matches MappedView::Basic(
                c,
            ) ==> self.char_to_name@.contains_key(seq![c]))
    }

    /// An empty definition.
    pub fn new() -> (r: SequenceDefinition)
        ensures
            r.wf(),
            forall|k: Seq<char>| !r.translation().contains_key(k),
            forall|k: Seq<char>| !r.names().contains_key(k),
    {
        let r = SequenceDefinition {
            prefix_map: fst_empty_map(),
            value_to_string: NumberTable::new(),
            char_to_name: StringTable::new(),
            string_to_sequence: StringTable::new(),
            annotations: Vec::new(),
        };
        r
    }

    /// Replaces the whole definition with the one that the lines of a
    /// `keysymdef.h` and of a `Compose` file, and the CLDR annotation files
    /// of the user's languages, describe. Each character that a sequence
    /// produces alone is named by `char_name`. Fails, leaving the definition
    /// as it was, when the keysyms cannot be read or a character has no name.
    pub fn rebuild<F: Fn(char) -> Option<String>>(
        &mut self,
        keysymdef: &Vec<String>,
        composedef: &Vec<String>,
        languages: &Vec<(SupportedLocale, Vec<Vec<Annotation>>)>,
        char_name: F,
    ) -> (r: Result<(), SequenceDefinitionError>)
        requires
            readable_definition(lines_view(keysymdef@), lines_view(composedef@)),
            definition_entries(lines_view(keysymdef@), lines_view(composedef@)).len() < 0xFFFF_FFFF,
            forall|c: char| call_requires(char_name, (c,)),
        ensures
            keysym_table(lines_view(keysymdef@)) is Err ==> r == Err::<(), SequenceDefinitionError>(
                SequenceDefinitionError::Failure,
            ),
            r is Err ==> r == Err::<(), SequenceDefinitionError>(SequenceDefinitionError::Failure)
                && *final(self) == *old(self),
            r is Err && keysym_table(lines_view(keysymdef@)) is Ok ==> exists|c: char|
                produces_char(
                    definition_entries(lines_view(keysymdef@), lines_view(composedef@)),
                    c,
                ) && call_ensures(char_name, (c,), None::<String>),
            r is Ok ==> {
                let e = definition_entries(lines_view(keysymdef@), lines_view(composedef@));
                let ann = fold_languages(Map::empty(), languages@);
                &&& final(self).wf()
                &&& sorted_keys(e)
                &&& final(self).translation() == table_map(e)
                &&& final(self).sequences() == sequence_index(e)
                &&& final(self).annotations() == ann.1
                &&& forall|k: Seq<char>|
                    #[trigger] final(self).names().contains_key(k) <==> (ann.0.contains_key(k)
                        || produced_key(e, k))
                &&& forall|k: Seq<char>|
                    #[trigger] ann.0.contains_key(k) && !produced_key(e, k) ==> final(self).names()[k]
                        == ann.0[k]
                &&& forall|c: char|
                    #[trigger] produces_char(e, c) ==> call_ensures(
                        char_name,
                        (c,),
                        Some(final(self).names()[seq![c]]),
                    )
            },
    {
        let keysym = match KeySymDef::new(keysymdef) {
            Ok(k) => k,
            Err(_) => {
                return Err(SequenceDefinitionError::Failure);
            },
        };
        assert(keysym_table(lines_view(keysymdef@)) == Ok::<
            Map<Seq<char>, char>,
            crate::error::SequenceTranslatorError,
        >(keysym@));
        assert forall|j: int| 0 <= j < composedef@.len() implies !decode_entry_panics(
            #[trigger] composedef@[j]@,
            keysym@,
        ) by {
            assert(lines_view(composedef@)[j] == composedef@[j]@);
        }
        let compose = ComposeDef::build(&keysym, composedef);
        let ghost e = compose@;
        assert(e == definition_entries(lines_view(keysymdef@), lines_view(composedef@)));

        let mut char_to_name: StringTable<String> = StringTable::new();
        let mut annotations: Vec<(SupportedLocale, Vec<AnnotationPair>)> = Vec::new();
        let mut l: usize = 0;
        assert(languages@.take(0) =~= Seq::<(SupportedLocale, Vec<Vec<Annotation>>)>::empty());
        while l < languages.len()
            invariant
                l <= languages@.len(),
                char_to_name@ == fold_languages(Map::empty(), languages@.take(l as int)).0,
                locale_map(annotations@) == fold_languages(
                    Map::empty(),
                    languages@.take(l as int),
                ).1,
            decreases languages@.len() - l,
        {
            assert(languages@.take(l + 1).drop_last() =~= languages@.take(l as int));
            assert(languages@.take(l + 1).last() == languages@[l as int]);
            let pairs = read_language_files(&mut char_to_name, &languages[l].1);
            let ghost before = annotations@;
            annotations.push((languages[l].0, pairs));
            assert(annotations@.drop_last() =~= before);
            l += 1;
        }
        assert(languages@.take(l as int) =~= languages@);
        let ghost ann_names = char_to_name@;

        let n = compose.len();
        let mut build = fst_builder_memory();
        let mut value_to_string: NumberTable<MappedString> = NumberTable::new();
        let mut string_to_sequence: StringTable<String> = StringTable::new();
        let mut basic_index: u64 = 0;
        let mut extra_index: u64 = 0xFFFF_FFFF;
        let mut i: usize = 0;
        assert(e.take(0) =~= Seq::<(Seq<char>, MappedView)>::empty());
        assert(string_to_sequence@.map_values(|s: String| s@) =~= Map::<Seq<char>, Seq<char>>::empty());
        assert(translation_of(entries_map(fst_builder_entries(build)), value_to_string@) =~= Map::<Seq<char>, MappedView>::empty());
        while i < n
            invariant
                n == e.len(),
                e == compose@,
                keysym_table(lines_view(keysymdef@)) is Ok,
                e == definition_entries(lines_view(keysymdef@), lines_view(composedef@)),
                compose.wf(),
                n < 0xFFFF_FFFF,
                forall|c: char| call_requires(char_name, (c,)),
                i <= n,
                basic_index <= i,
                0xFFFF_FFFF <= extra_index <= 0xFFFF_FFFF + i,
                fst_builder_is_text(build),
                fst_builder_entries(build).len() == i,
                forall|j: int| 0 <= j < i ==> (#[trigger] fst_builder_entries(build)[j]).0 == e[j].0,
                forall|k: Seq<char>| #[trigger]
                    entries_map(fst_builder_entries(build)).contains_key(k) ==> {
                        let v = entries_map(fst_builder_entries(build))[k];
                        &&& value_to_string@.contains_key(v)
                        &&& ((1 <= v <= basic_index) || (0xFFFF_FFFF < v <= extra_index))
                    },
                translation_of(entries_map(fst_builder_entries(build)), value_to_string@)
                    == table_map(e.take(i as int)),
                string_to_sequence@.map_values(|s: String| s@) == sequence_index(e.take(i as int)),
                forall|k: Seq<char>|
                    #[trigger] table_map(e.take(i as int)).contains_key(k) ==> (table_map(
                        e.take(i as int),
                    )[k] matches MappedView::Basic(c) ==> char_to_name@.contains_key(seq![c])),
                forall|k: Seq<char>|
                    #[trigger] char_to_name@.contains_key(k) <==> (ann_names.contains_key(k)
                        || produced_key(e.take(i as int), k)),
                forall|k: Seq<char>|
                    #[trigger] ann_names.contains_key(k) && !produced_key(e.take(i as int), k)
                        ==> char_to_name@[k] == ann_names[k],
                forall|c: char|
                    #[trigger] produces_char(e.take(i as int), c) ==> call_ensures(
                        char_name,
                        (c,),
                        Some(char_to_name@[seq![c]]),
                    ),
            decreases n - i,
        {
            let ghost pre = e.take(i as int);
            let ghost next = e.take(i + 1);
            assert(next.drop_last() =~= pre);
            assert(next.last() == e[i as int]);
            let ghost old_entries = fst_builder_entries(build);
            let ghost old_contents = entries_map(old_entries);
            let ghost old_names = char_to_name@;
            let ghost old_seq = string_to_sequence@;
            let (key, value) = compose.entry(i);
            assert(key@ == e[i as int].0 && value@ == e[i as int].1);
            let number: u64;
            match &value {
                MappedString::Basic(c) => {
                    let c = *c;
                    let name = match char_name(c) {
                        Some(nm) => nm,
                        None => {
                            assert(e[i as int].1 == MappedView::Basic(c));
                            assert(produces_char(e, c));
                            return Err(SequenceDefinitionError::Failure);
                        },
                    };
                    basic_index += 1;
                    number = basic_index;
                    let cs = char_to_string(c);
                    char_to_name.insert(cs, name);
                    assert forall|x: char| #[trigger] produces_char(next, x) implies (produces_char(pre, x) || x == c) by {
                        let j = choose|j: int| 0 <= j < next.len() && #[trigger] next[j].1 == MappedView::Basic(x);
                        if j < i {
                            assert(pre[j] == next[j]);
                        }
                    }
                    assert forall|x: char| #[trigger] produces_char(pre, x) || x == c implies produces_char(next, x) by {
                        if x == c {
                            assert(next[i as int].1 == MappedView::Basic(c));
                        } else {
                            let j = choose|j: int| 0 <= j < pre.len() && #[trigger] pre[j].1 == MappedView::Basic(x);
                            assert(next[j] == pre[j]);
                        }
                    }
                    assert forall|k: Seq<char>| produced_key(next, k) <==> (produced_key(pre, k) || k == seq![c]) by {
                        if k.len() == 1 && k[0] == c {
                            assert(k =~= seq![c]);
                        }
                    }
                    assert forall|x: char| #[trigger] produces_char(next, x) implies call_ensures(
                        char_name,
                        (x,),
                        Some(char_to_name@[seq![x]]),
                    ) by {
                        if x != c {
                            assert(produces_char(pre, x));
                            assert(seq![x][0] != seq![c][0]);
                            assert(old_names[seq![x]] == char_to_name@[seq![x]]);
                        }
                    }
                },
                MappedString::Extra(_) => {
                    extra_index += 1;
                    number = extra_index;
                    assert forall|x: char| #[trigger] produces_char(next, x) <==> produces_char(pre, x) by {
                        if produces_char(next, x) {
                            let j = choose|j: int| 0 <= j < next.len() && #[trigger] next[j].1 == MappedView::Basic(x);
                            assert(j < i);
                            assert(pre[j] == next[j]);
                        }
                        if produces_char(pre, x) {
                            let j = choose|j: int| 0 <= j < pre.len() && #[trigger] pre[j].1 == MappedView::Basic(x);
                            assert(next[j] == pre[j]);
                        }
                    }
                    assert forall|k: Seq<char>| produced_key(next, k) <==> produced_key(pre, k) by {}
                    assert forall|x: char| #[trigger] produces_char(next, x) implies call_ensures(
                        char_name,
                        (x,),
                        Some(char_to_name@[seq![x]]),
                    ) by {
                        assert(produces_char(pre, x));
                    }
                },
            }
            assert forall|x: Seq<char>| old_contents.contains_key(x) implies old_contents[x] != number by {
                assert(entries_map(fst_builder_entries(build)).contains_key(x));
            }
            let ghost old_values = value_to_string@;
                        match fst_builder_insert(&mut build, key.as_str(), number) {
                Ok(()) => {},
                Err(_) => {
                    assert(seq_lt(e[i - 1].0, e[i as int].0));
                    assert(false);
                    return Err(SequenceDefinitionError::Failure);
                },
            }
            assert(fst_builder_entries(build).drop_last() =~= old_entries);
            assert(entries_map(fst_builder_entries(build)) == old_contents.insert(key@, number));
            proof {
                lemma_translation_insert(old_contents, value_to_string@, key@, number, value);
            }
            string_to_sequence.insert(value.to_string(), key);
            value_to_string.insert(number, value);
            assert forall|k: Seq<char>| #[trigger]
                entries_map(fst_builder_entries(build)).contains_key(k) implies {
                    let v = entries_map(fst_builder_entries(build))[k];
                    &&& value_to_string@.contains_key(v)
                    &&& ((1 <= v <= basic_index) || (0xFFFF_FFFF < v <= extra_index))
                } by {
                if k != key@ {
                    assert(old_contents.contains_key(k));
                    assert(old_values.contains_key(old_contents[k]));
                }
            }
            assert(string_to_sequence@.map_values(|s: String| s@) =~= old_seq.map_values(|s: String| s@).insert(mapped_text(e[i as int].1), e[i as int].0));
            i += 1;
        }
        assert(e.take(i as int) =~= e);
        self.prefix_map = fst_builder_into_map(build);
        self.value_to_string = value_to_string;
        self.char_to_name = char_to_name;
        self.string_to_sequence = string_to_sequence;
        self.annotations = annotations;
        Ok(())
    }

    /// What `sequence` produces: its text if it is a whole sequence;
    /// `Incomplete` if it is only the start of one; `ValueNotFound` if it is
    /// neither.
    pub fn translate_sequence(&self, sequence: &str) -> (r: Result<String, SequenceDefinitionError>)
        requires
            self.wf(),
        ensures
            text_result(r) == translation_outcome(self.translation(), sequence@),
    {
        match fst_get(&self.prefix_map, sequence) {
            Some(value) => {
                match self.value_to_string.get(value) {
                    Some(m) => Ok(m.to_string()),
                    None => {
                        assert(fst_map_contents(self.prefix_map).contains_key(sequence@));
                        Err(SequenceDefinitionError::Failure)
                    },
                }
            },
            None => {
                let listing = fst_prefix_entries(&self.prefix_map, sequence);
                let ghost lv = listing@.map_values(|e: (String, u64)| (e.0@, e.1));
                if listing.len() == 0 {
                    assert forall|k: Seq<char>|
                        self.translation().contains_key(k) implies !has_prefix(k, sequence@) by {
                        if has_prefix(k, sequence@) {
                            assert(fst_map_contents(self.prefix_map).contains_key(k));
                            let i = choose|i: int| 0 <= i < lv.len() && #[trigger] lv[i].0 == k;
                        }
                    }
                    Err(SequenceDefinitionError::ValueNotFound)
                } else {
                    let ghost k0 = lv[0].0;
                    assert(fst_map_contents(self.prefix_map).contains_key(k0));
                    assert(self.translation().contains_key(k0));
                    Err(SequenceDefinitionError::Incomplete)
                }
            },
        }
    }

    /// The description of a produced value: a character's name, or the text
    /// itself.
    pub open spec fn description_of(&self, m: MappedView) -> Seq<char> {
        match m {
            MappedView::Basic(c) => self.names()[seq![c]]@,
            MappedView::Extra(s) => s,
        }
    }

    /// The names in the order in which the table keeps them.
    pub closed spec fn name_order(&self) -> Seq<(Seq<char>, String)> {
        self.char_to_name.pairs()
    }

    /// The candidates of a search for `tokens` in `languages`, in order:
    /// annotated characters that hold a token in lower case; the tokens
    /// that are named characters themselves; annotated characters whose
    /// description holds every token in lower case; and characters whose
    /// name holds every token in upper case.
    pub open spec fn search_candidates(
        &self,
        tokens: Seq<Seq<char>>,
        languages: Seq<SupportedLocale>,
    ) -> Seq<Option<Found>> {
        let lowered = tokens.map_values(|t: Seq<char>| lowercase(t));
        let uppered = tokens.map_values(|t: Seq<char>| uppercase(t));
        language_candidates(self.annotations(), languages, lowered, false, self.names())
            + token_candidates(tokens, self.names()) + language_candidates(
            self.annotations(),
            languages,
            lowered,
            true,
            self.names(),
        ) + name_candidates(self.name_order(), uppered)
    }

    /// What a search finds is only what matches: every character it finds
    /// is an annotated character that holds one of the tokens in lower
    /// case, or one of the tokens itself when that is a named character,
    /// or an annotated character with a description that holds every token
    /// in lower case, or a character whose name holds every token in upper
    /// case (and then it is described by that name).
    pub proof fn lemma_search_finds_only_matches(
        &self,
        tokens: Seq<Seq<char>>,
        languages: Seq<SupportedLocale>,
        limit: int,
        x: int,
    )
        requires
            0 <= x < collect(Seq::empty(), self.search_candidates(tokens, languages), limit).len(),
        ensures
            ({
                let f = collect(Seq::empty(), self.search_candidates(tokens, languages), limit)[x];
                let ann = self.annotations();
                ||| exists|l: int, i: int, t: int|
                    0 <= l < languages.len() && 0 <= i < ann[languages[l]].len() && 0 <= t
                        < tokens.len() && #[trigger] ann[languages[l]][i].0 == f.0 && contains_seq(
                        f.0,
                        lowercase(#[trigger] tokens[t]),
                    )
                ||| exists|t: int|
                    0 <= t < tokens.len() && #[trigger] tokens[t] == f.0 && self.names().contains_key(
                        f.0,
                    )
                ||| exists|l: int, i: int|
                    0 <= l < languages.len() && 0 <= i < ann[languages[l]].len()
                        && #[trigger] ann[languages[l]][i].0 == f.0 && forall|t: int|
                        0 <= t < tokens.len() ==> contains_seq(
                            ann[languages[l]][i].1,
                            lowercase(#[trigger] tokens[t]),
                        )
                ||| exists|o: int|
                    0 <= o < self.name_order().len() && #[trigger] self.name_order()[o].0 == f.0 && f.1
                        == self.name_order()[o].1@ && forall|t: int|
                        0 <= t < tokens.len() ==> contains_seq(f.1, uppercase(#[trigger] tokens[t]))
            }),
    {
        let lowered = tokens.map_values(|t: Seq<char>| lowercase(t));
        let uppered = tokens.map_values(|t: Seq<char>| uppercase(t));
        let ann = self.annotations();
        let c1 = language_candidates(ann, languages, lowered, false, self.names());
        let c2 = token_candidates(tokens, self.names());
        let c3 = language_candidates(ann, languages, lowered, true, self.names());
        let c4 = name_candidates(self.name_order(), uppered);
        let cands = self.search_candidates(tokens, languages);
        assert(cands == c1 + c2 + c3 + c4);
        let f = collect(Seq::empty(), cands, limit)[x];
        lemma_collect_from_candidates(Seq::empty(), cands, limit, x);
        lemma_offers_concat(c1 + c2 + c3, c4, f);
        if offers(c4, f) {
            lemma_name_candidates_source(self.name_order(), uppered, f);
            let o = choose|o: int|
                0 <= o < self.name_order().len() && #[trigger] self.name_order()[o].0 == f.0 && f.1
                    == self.name_order()[o].1@ && crate::search::all_contain(self.name_order()[o].1@, uppered);
            assert forall|t: int| 0 <= t < tokens.len() implies contains_seq(
                f.1,
                uppercase(#[trigger] tokens[t]),
            ) by {
                assert(uppered[t] == uppercase(tokens[t]));
            }
        } else {
            lemma_offers_concat(c1 + c2, c3, f);
            if offers(c3, f) {
                lemma_language_candidates_source(ann, languages, lowered, true, self.names(), f);
                let (l, i) = choose|l: int, i: int|
                    0 <= l < languages.len() && 0 <= i < ann[languages[l]].len()
                        && #[trigger] ann[languages[l]][i].0 == f.0 && f.1 == self.names()[f.0]@
                        && pair_matches(ann[languages[l]][i], lowered, true);
                assert forall|t: int| 0 <= t < tokens.len() implies contains_seq(
                    ann[languages[l]][i].1,
                    lowercase(#[trigger] tokens[t]),
                ) by {
                    assert(lowered[t] == lowercase(tokens[t]));
                }
            } else {
                lemma_offers_concat(c1, c2, f);
                if offers(c2, f) {
                    lemma_token_candidates_source(tokens, self.names(), f);
                } else {
                    lemma_language_candidates_source(ann, languages, lowered, false, self.names(), f);
                    let (l, i) = choose|l: int, i: int|
                        0 <= l < languages.len() && 0 <= i < ann[languages[l]].len()
                            && #[trigger] ann[languages[l]][i].0 == f.0 && f.1 == self.names()[f.0]@
                            && pair_matches(ann[languages[l]][i], lowered, false);
                    let t = choose|t: int| 0 <= t < lowered.len() && contains_seq(f.0, #[trigger] lowered[t]);
                    assert(lowered[t] == lowercase(tokens[t]));
                    assert(ann[languages[l]][i].0 == f.0 && contains_seq(f.0, lowercase(tokens[t])));
                }
            }
        }
    }

    /// A search can be made: every language has annotations, and the
    /// character of every annotation that matches the tokens is named.
    pub open spec fn search_ready(&self, tokens: Seq<Seq<char>>, languages: Seq<SupportedLocale>) -> bool {
        let lowered = tokens.map_values(|t: Seq<char>| lowercase(t));
        &&& forall|i: int|
            0 <= i < languages.len() ==> self.annotations().contains_key(#[trigger] languages[i])
        &&& forall|i: int, j: int|
            0 <= i < languages.len() && 0 <= j < self.annotations()[languages[i]].len() && (
            pair_matches(#[trigger] self.annotations()[languages[i]][j], lowered, false)
                || pair_matches(self.annotations()[languages[i]][j], lowered, true))
                ==> self.names().contains_key(self.annotations()[languages[i]][j].0)
    }

    /// The descriptions of found characters: the sequence that types the
    /// character, or nothing, the character, and its description.
    pub open spec fn described(&self, found: Seq<Found>, r: Seq<SequenceDescription>) -> bool {
        &&& r.len() == found.len()
        &&& forall|i: int|
            0 <= i < r.len() ==> {
                &&& (#[trigger] r[i]).sequence@ == (if self.sequences().contains_key(found[i].0) {
                    self.sequences()[found[i].0]
                } else {
                    Seq::empty()
                })
                &&& r[i].result@ == found[i].0
                &&& r[i].description@ == found[i].1
            }
    }

    /// The annotations of `lang`.
    fn annotations_of(&self, lang: SupportedLocale) -> (r: Option<&Vec<AnnotationPair>>)
        ensures
            match r {
                Some(v) => self.annotations().contains_key(lang) && pairs_view(v@)
                    == self.annotations()[lang],
                None => !self.annotations().contains_key(lang),
            },
    {
        let mut j = self.annotations.len();
        assert(self.annotations@.take(j as int) =~= self.annotations@);
        while j > 0
            invariant
                j <= self.annotations@.len(),
                self.annotations().contains_key(lang) == locale_map(
                    self.annotations@.take(j as int),
                ).contains_key(lang),
                self.annotations().contains_key(lang) ==> self.annotations()[lang] == locale_map(
                    self.annotations@.take(j as int),
                )[lang],
            decreases j,
        {
            assert(self.annotations@.take(j as int).drop_last() =~= self.annotations@.take(j - 1));
            if self.annotations[j - 1].0 == lang {
                return Some(&self.annotations[j - 1].1);
            }
            j -= 1;
        }
        assert(self.annotations@.take(0) =~= Seq::<(SupportedLocale, Vec<AnnotationPair>)>::empty());
        None
    }

    /// Takes the candidates of one language's pairs; true when the result
    /// reached its limit.
    fn collect_pairs(
        &self,
        acc: &mut Vec<(String, String)>,
        pairs: &Vec<AnnotationPair>,
        needles: &Vec<Vec<char>>,
        by_desc: bool,
        limit: usize,
        Ghost(rest): Ghost<Seq<Option<Found>>>,
    ) -> (stopped: bool)
        requires
            forall|j: int|
                0 <= j < pairs@.len() && pair_matches(
                    #[trigger] pairs_view(pairs@)[j],
                    needles@.map_values(|n: Vec<char>| n@),
                    by_desc,
                ) ==> self.names().contains_key(pairs_view(pairs@)[j].0),
        ensures
            ({
                let target = collect(
                    found_view(old(acc)@),
                    pair_candidates(
                        pairs_view(pairs@),
                        needles@.map_values(|n: Vec<char>| n@),
                        by_desc,
                        self.names(),
                    ) + rest,
                    limit as int,
                );
                &&& stopped ==> found_view(final(acc)@) == target
                &&& !stopped ==> collect(found_view(final(acc)@), rest, limit as int) == target
            }),
    {
        let ghost nv = needles@.map_values(|n: Vec<char>| n@);
        let ghost pv = pairs_view(pairs@);
        let ghost target = collect(
            found_view(acc@),
            pair_candidates(pv, nv, by_desc, self.names()) + rest,
            limit as int,
        );
        assert(pv.subrange(0, pv.len() as int) =~= pv);
        let mut j: usize = 0;
        while j < pairs.len()
            invariant
                target == collect(
                    found_view(old(acc)@),
                    pair_candidates(pv, nv, by_desc, self.names()) + rest,
                    limit as int,
                ),
                j <= pairs@.len(),
                pv == pairs_view(pairs@),
                nv == needles@.map_values(|n: Vec<char>| n@),
                forall|m: int|
                    0 <= m < pairs@.len() && pair_matches(#[trigger] pv[m], nv, by_desc)
                        ==> self.names().contains_key(pv[m].0),
                collect(
                    found_view(acc@),
                    pair_candidates(pv.subrange(j as int, pv.len() as int), nv, by_desc, self.names())
                        + rest,
                    limit as int,
                ) == target,
            decreases pairs@.len() - j,
        {
            let ghost q = pv.subrange(j as int, pv.len() as int);
            let ghost tail = pair_candidates(q.drop_first(), nv, by_desc, self.names());
            assert(q[0] == pv[j as int]);
            assert(q.drop_first() =~= pv.subrange(j + 1, pv.len() as int));
            let pair = &pairs[j];
            assert(pv[j as int] == (pair.char@, pair.desc@));
            let matched = if by_desc {
                all_contain_exec(&str_chars(pair.desc.as_str()), needles)
            } else {
                any_contains_exec(&str_chars(pair.char.as_str()), needles)
            };
            assert(matched == pair_matches(pv[j as int], nv, by_desc));
            if matched {
                let name = self.char_to_name.get(&pair.char).unwrap().clone();
                let ghost c = Some((pair.char@, name@));
                assert(pair_candidates(q, nv, by_desc, self.names()) + rest =~= seq![c] + (tail
                    + rest));
                proof {
                    lemma_collect_step(found_view(acc@), c, tail + rest, limit as int);
                }
                add_found(acc, pair.char.clone(), name);
                if acc.len() >= limit {
                    return true;
                }
            } else {
                assert(pair_candidates(q, nv, by_desc, self.names()) + rest =~= tail + rest);
            }
            j += 1;
        }
        assert(pair_candidates(pv.subrange(j as int, pv.len() as int), nv, by_desc, self.names())
            + rest =~= rest);
        false
    }

    /// Takes the candidates of the languages' pairs in turn; true when the
    /// result reached its limit.
    fn collect_languages(
        &self,
        acc: &mut Vec<(String, String)>,
        languages: &Vec<SupportedLocale>,
        needles: &Vec<Vec<char>>,
        by_desc: bool,
        limit: usize,
        Ghost(rest): Ghost<Seq<Option<Found>>>,
    ) -> (stopped: bool)
        requires
            forall|i: int|
                0 <= i < languages@.len() ==> self.annotations().contains_key(
                    #[trigger] languages@[i],
                ),
            forall|i: int, j: int|
                0 <= i < languages@.len() && 0 <= j < self.annotations()[languages@[i]].len()
                    && pair_matches(
                    #[trigger] self.annotations()[languages@[i]][j],
                    needles@.map_values(|n: Vec<char>| n@),
                    by_desc,
                ) ==> self.names().contains_key(self.annotations()[languages@[i]][j].0),
        ensures
            ({
                let target = collect(
                    found_view(old(acc)@),
                    language_candidates(
                        self.annotations(),
                        languages@,
                        needles@.map_values(|n: Vec<char>| n@),
                        by_desc,
                        self.names(),
                    ) + rest,
                    limit as int,
                );
                &&& stopped ==> found_view(final(acc)@) == target
                &&& !stopped ==> collect(found_view(final(acc)@), rest, limit as int) == target
            }),
    {
        let ghost nv = needles@.map_values(|n: Vec<char>| n@);
        let ghost ls = languages@;
        let ghost target = collect(
            found_view(acc@),
            language_candidates(self.annotations(), ls, nv, by_desc, self.names()) + rest,
            limit as int,
        );
        assert(ls.subrange(0, ls.len() as int) =~= ls);
        let mut i: usize = 0;
        while i < languages.len()
            invariant
                target == collect(
                    found_view(old(acc)@),
                    language_candidates(self.annotations(), ls, nv, by_desc, self.names()) + rest,
                    limit as int,
                ),
                i <= ls.len(),
                ls == languages@,
                nv == needles@.map_values(|n: Vec<char>| n@),
                forall|m: int| 0 <= m < ls.len() ==> self.annotations().contains_key(#[trigger] ls[m]),
                forall|m: int, j: int|
                    0 <= m < ls.len() && 0 <= j < self.annotations()[ls[m]].len() && pair_matches(
                        #[trigger] self.annotations()[ls[m]][j],
                        nv,
                        by_desc,
                    ) ==> self.names().contains_key(self.annotations()[ls[m]][j].0),
                collect(
                    found_view(acc@),
                    language_candidates(
                        self.annotations(),
                        ls.subrange(i as int, ls.len() as int),
                        nv,
                        by_desc,
                        self.names(),
                    ) + rest,
                    limit as int,
                ) == target,
            decreases ls.len() - i,
        {
            let ghost q = ls.subrange(i as int, ls.len() as int);
            let ghost later = language_candidates(self.annotations(), q.drop_first(), nv, by_desc, self.names());
            assert(q[0] == ls[i as int]);
            assert(q.drop_first() =~= ls.subrange(i + 1, ls.len() as int));
            let lang = languages[i];
            let pairs = self.annotations_of(lang).unwrap();
            assert forall|j: int|
                0 <= j < pairs@.len() && pair_matches(#[trigger] pairs_view(pairs@)[j], nv, by_desc)
                    implies self.names().contains_key(pairs_view(pairs@)[j].0) by {
                assert(self.annotations()[ls[i as int]][j] == pairs_view(pairs@)[j]);
            }
            assert(language_candidates(self.annotations(), q, nv, by_desc, self.names()) + rest
                =~= pair_candidates(pairs_view(pairs@), nv, by_desc, self.names()) + (later + rest));
            if self.collect_pairs(acc, pairs, needles, by_desc, limit, Ghost(later + rest)) {
                return true;
            }
            i += 1;
        }
        assert(language_candidates(
            self.annotations(),
            ls.subrange(i as int, ls.len() as int),
            nv,
            by_desc,
            self.names(),
        ) + rest =~= rest);
        false
    }

    /// Takes the candidates of the tokens; true when the result reached its
    /// limit.
    fn collect_tokens(
        &self,
        acc: &mut Vec<(String, String)>,
        tokens: &Vec<String>,
        limit: usize,
        Ghost(rest): Ghost<Seq<Option<Found>>>,
    ) -> (stopped: bool)
        ensures
            ({
                let target = collect(
                    found_view(old(acc)@),
                    token_candidates(tokens@.map_values(|t: String| t@), self.names()) + rest,
                    limit as int,
                );
                &&& stopped ==> found_view(final(acc)@) == target
                &&& !stopped ==> collect(found_view(final(acc)@), rest, limit as int) == target
            }),
    {
        let ghost tv = tokens@.map_values(|t: String| t@);
        let ghost target = collect(found_view(acc@), token_candidates(tv, self.names()) + rest, limit as int);
        assert(tv.subrange(0, tv.len() as int) =~= tv);
        let mut i: usize = 0;
        while i < tokens.len()
            invariant
                target == collect(
                    found_view(old(acc)@),
                    token_candidates(tv, self.names()) + rest,
                    limit as int,
                ),
                i <= tv.len(),
                tv == tokens@.map_values(|t: String| t@),
                collect(
                    found_view(acc@),
                    token_candidates(tv.subrange(i as int, tv.len() as int), self.names()) + rest,
                    limit as int,
                ) == target,
            decreases tv.len() - i,
        {
            let ghost q = tv.subrange(i as int, tv.len() as int);
            let ghost tail = token_candidates(q.drop_first(), self.names());
            assert(q[0] == tv[i as int]);
            assert(q.drop_first() =~= tv.subrange(i + 1, tv.len() as int));
            let ghost c = if self.names().contains_key(q[0]) {
                Some((q[0], self.names()[q[0]]@))
            } else {
                None
            };
            assert(token_candidates(q, self.names()) + rest =~= seq![c] + (tail + rest));
            proof {
                lemma_collect_step(found_view(acc@), c, tail + rest, limit as int);
            }
            match self.char_to_name.get(&tokens[i]) {
                Some(name) => {
                    add_found(acc, tokens[i].clone(), name.clone());
                },
                None => {},
            }
            if acc.len() >= limit {
                return true;
            }
            i += 1;
        }
        assert(token_candidates(tv.subrange(i as int, tv.len() as int), self.names()) + rest =~= rest);
        false
    }

    /// Takes the candidates of the names; true when the result reached its
    /// limit.
    fn collect_names(
        &self,
        acc: &mut Vec<(String, String)>,
        needles: &Vec<Vec<char>>,
        limit: usize,
        Ghost(rest): Ghost<Seq<Option<Found>>>,
    ) -> (stopped: bool)
        ensures
            ({
                let target = collect(
                    found_view(old(acc)@),
                    name_candidates(self.name_order(), needles@.map_values(|n: Vec<char>| n@))
                        + rest,
                    limit as int,
                );
                &&& stopped ==> found_view(final(acc)@) == target
                &&& !stopped ==> collect(found_view(final(acc)@), rest, limit as int) == target
            }),
    {
        let ghost nv = needles@.map_values(|n: Vec<char>| n@);
        let ghost order = self.name_order();
        let ghost target = collect(found_view(acc@), name_candidates(order, nv) + rest, limit as int);
        assert(order.subrange(0, order.len() as int) =~= order);
        let n = self.char_to_name.len();
        let mut i: usize = 0;
        while i < n
            invariant
                target == collect(found_view(old(acc)@), name_candidates(order, nv) + rest, limit as int),
                n == order.len(),
                i <= n,
                order == self.name_order(),
                nv == needles@.map_values(|n: Vec<char>| n@),
                collect(
                    found_view(acc@),
                    name_candidates(order.subrange(i as int, n as int), nv) + rest,
                    limit as int,
                ) == target,
            decreases n - i,
        {
            let ghost q = order.subrange(i as int, n as int);
            let ghost tail = name_candidates(q.drop_first(), nv);
            assert(q[0] == order[i as int]);
            assert(q.drop_first() =~= order.subrange(i + 1, n as int));
            let (c, name) = self.char_to_name.entry(i);
            if all_contain_exec(&str_chars(name.as_str()), needles) {
                let ghost cand = Some((q[0].0, q[0].1@));
                assert(name_candidates(q, nv) + rest =~= seq![cand] + (tail + rest));
                proof {
                    lemma_collect_step(found_view(acc@), cand, tail + rest, limit as int);
                }
                add_found(acc, c.clone(), name.clone());
                if acc.len() >= limit {
                    return true;
                }
            } else {
                assert(name_candidates(q, nv) + rest =~= tail + rest);
            }
            i += 1;
        }
        assert(name_candidates(order.subrange(i as int, n as int), nv) + rest =~= rest);
        false
    }

    /// Every pair of `pairs` that matches the needles has a named character.
    fn pairs_named(&self, pairs: &Vec<AnnotationPair>, needles: &Vec<Vec<char>>) -> (r: bool)
        ensures
            r == forall|j: int|
                0 <= j < pairs@.len() && (pair_matches(
                    #[trigger] pairs_view(pairs@)[j],
                    needles@.map_values(|n: Vec<char>| n@),
                    false,
                ) || pair_matches(pairs_view(pairs@)[j], needles@.map_values(|n: Vec<char>| n@), true))
                    ==> self.names().contains_key(pairs_view(pairs@)[j].0),
    {
        let ghost nv = needles@.map_values(|n: Vec<char>| n@);
        let ghost pv = pairs_view(pairs@);
        let mut j: usize = 0;
        while j < pairs.len()
            invariant
                j <= pairs@.len(),
                nv == needles@.map_values(|n: Vec<char>| n@),
                pv == pairs_view(pairs@),
                forall|m: int|
                    0 <= m < j && (pair_matches(#[trigger] pv[m], nv, false) || pair_matches(
                        pv[m],
                        nv,
                        true,
                    )) ==> self.names().contains_key(pv[m].0),
            decreases pairs@.len() - j,
        {
            let pair = &pairs[j];
            assert(pv[j as int] == (pair.char@, pair.desc@));
            let matched = any_contains_exec(&str_chars(pair.char.as_str()), needles)
                || all_contain_exec(&str_chars(pair.desc.as_str()), needles);
            if matched && !self.char_to_name.contains_key(&pair.char) {
                return false;
            }
            j += 1;
        }
        true
    }

    /// Whether a search for `tokens` in `languages` can be made; see
    /// `search_ready`.
    pub fn is_search_ready(&self, tokens: &Vec<String>, languages: &Vec<SupportedLocale>) -> (r: bool)
        ensures
            r == self.search_ready(tokens@.map_values(|t: String| t@), languages@),
    {
        let ghost tv = tokens@.map_values(|t: String| t@);
        let mut lowered: Vec<Vec<char>> = Vec::new();
        let mut k: usize = 0;
        while k < tokens.len()
            invariant
                k <= tv.len(),
                tv == tokens@.map_values(|t: String| t@),
                lowered@.len() == k,
                forall|m: int| 0 <= m < k ==> (#[trigger] lowered@[m])@ == lowercase(tv[m]),
            decreases tv.len() - k,
        {
            lowered.push(str_chars(str_to_lowercase(tokens[k].as_str()).as_str()));
            k += 1;
        }
        let ghost lv = tv.map_values(|t: Seq<char>| lowercase(t));
        assert(lowered@.map_values(|n: Vec<char>| n@) =~= lv);
        let ghost ls = languages@;
        let mut i: usize = 0;
        while i < languages.len()
            invariant
                i <= ls.len(),
                ls == languages@,
                tv == tokens@.map_values(|t: String| t@),
                lv == lowered@.map_values(|n: Vec<char>| n@),
                lv == tv.map_values(|t: Seq<char>| lowercase(t)),
                forall|m: int| 0 <= m < i ==> self.annotations().contains_key(#[trigger] ls[m]),
                forall|m: int, j: int|
                    0 <= m < i && 0 <= j < self.annotations()[ls[m]].len() && (pair_matches(
                        #[trigger] self.annotations()[ls[m]][j],
                        lv,
                        false,
                    ) || pair_matches(self.annotations()[ls[m]][j], lv, true))
                        ==> self.names().contains_key(self.annotations()[ls[m]][j].0),
            decreases ls.len() - i,
        {
            match self.annotations_of(languages[i]) {
                None => {
                    assert(!self.annotations().contains_key(ls[i as int]));
                    assert(!(forall|m: int|
                        0 <= m < ls.len() ==> self.annotations().contains_key(#[trigger] ls[m])));
                    assert(!self.search_ready(tv, ls));
                    return false;
                },
                Some(pairs) => {
                    if !self.pairs_named(pairs, &lowered) {
                        proof {
                            let j = choose|j: int|
                                0 <= j < pairs@.len() && (pair_matches(
                                    #[trigger] pairs_view(pairs@)[j],
                                    lv,
                                    false,
                                ) || pair_matches(pairs_view(pairs@)[j], lv, true))
                                    && !self.names().contains_key(pairs_view(pairs@)[j].0);
                            assert(self.annotations()[ls[i as int]] == pairs_view(pairs@));
                            assert(self.annotations()[ls[i as int]][j] == pairs_view(pairs@)[j]);
                            assert(0 <= j < self.annotations()[ls[i as int]].len());
                            assert(!self.search_ready(tv, ls));
                        }
                        return false;
                    }
                    proof {
                        assert forall|j: int|
                            0 <= j < self.annotations()[ls[i as int]].len() && (pair_matches(
                                #[trigger] self.annotations()[ls[i as int]][j],
                                lv,
                                false,
                            ) || pair_matches(self.annotations()[ls[i as int]][j], lv, true))
                                implies self.names().contains_key(
                            self.annotations()[ls[i as int]][j].0,
                        ) by {
                            assert(self.annotations()[ls[i as int]][j] == pairs_view(pairs@)[j]);
                        }
                    }
                },
            }
            i += 1;
        }
        true
    }

    /// The characters found for `tokens` in `languages`, at most about
    /// `limit` of them, described; see `search_candidates` and `collect`.
    pub fn filter_sequence(
        &self,
        tokens: Vec<String>,
        limit: usize,
        languages: &Vec<SupportedLocale>,
    ) -> (r: Vec<SequenceDescription>)
        requires
            self.search_ready(tokens@.map_values(|t: String| t@), languages@),
        ensures
            self.described(
                collect(
                    Seq::empty(),
                    self.search_candidates(tokens@.map_values(|t: String| t@), languages@),
                    limit as int,
                ),
                r@,
            ),
    {
        let ghost tv = tokens@.map_values(|t: String| t@);
        let mut lowered: Vec<Vec<char>> = Vec::new();
        let mut uppered: Vec<Vec<char>> = Vec::new();
        let mut i: usize = 0;
        while i < tokens.len()
            invariant
                i <= tv.len(),
                tv == tokens@.map_values(|t: String| t@),
                lowered@.len() == i,
                uppered@.len() == i,
                forall|m: int| 0 <= m < i ==> (#[trigger] lowered@[m])@ == lowercase(tv[m]),
                forall|m: int| 0 <= m < i ==> (#[trigger] uppered@[m])@ == uppercase(tv[m]),
            decreases tv.len() - i,
        {
            lowered.push(str_chars(str_to_lowercase(tokens[i].as_str()).as_str()));
            uppered.push(str_chars(str_to_uppercase(tokens[i].as_str()).as_str()));
            i += 1;
        }
        let ghost lv = tv.map_values(|t: Seq<char>| lowercase(t));
        let ghost uv = tv.map_values(|t: Seq<char>| uppercase(t));
        assert(lowered@.map_values(|n: Vec<char>| n@) =~= lv);
        assert(uppered@.map_values(|n: Vec<char>| n@) =~= uv);
        let ghost c1 = language_candidates(self.annotations(), languages@, lv, false, self.names());
        let ghost c2 = token_candidates(tv, self.names());
        let ghost c3 = language_candidates(self.annotations(), languages@, lv, true, self.names());
        let ghost c4 = name_candidates(self.name_order(), uv);
        assert(self.search_candidates(tv, languages@) =~= c1 + (c2 + (c3 + c4)));
        let mut acc: Vec<(String, String)> = Vec::new();
        assert(found_view(acc@) =~= Seq::<Found>::empty());
        if self.collect_languages(&mut acc, languages, &lowered, false, limit, Ghost(c2 + (c3 + c4))) {
            return self.process_map(&acc);
        }
        if self.collect_tokens(&mut acc, &tokens, limit, Ghost(c3 + c4)) {
            return self.process_map(&acc);
        }
        if self.collect_languages(&mut acc, languages, &lowered, true, limit, Ghost(c4)) {
            return self.process_map(&acc);
        }
        let ghost empty = Seq::<Option<Found>>::empty();
        assert(c4 + empty =~= c4);
        if self.collect_names(&mut acc, &uppered, limit, Ghost(empty)) {
            return self.process_map(&acc);
        }
        assert(collect(found_view(acc@), empty, limit as int) == found_view(acc@));
        self.process_map(&acc)
    }

    /// Describes found characters; see `described`.
    pub fn process_map(&self, found: &Vec<(String, String)>) -> (r: Vec<SequenceDescription>)
        ensures
            self.described(found_view(found@), r@),
    {
        let mut r: Vec<SequenceDescription> = Vec::new();
        let mut i: usize = 0;
        while i < found.len()
            invariant
                i <= found@.len(),
                r@.len() == i,
                forall|m: int|
                    0 <= m < i ==> {
                        &&& (#[trigger] r@[m]).sequence@ == (if self.sequences().contains_key(
                            found@[m].0@,
                        ) {
                            self.sequences()[found@[m].0@]
                        } else {
                            Seq::empty()
                        })
                        &&& r@[m].result@ == found@[m].0@
                        &&& r@[m].description@ == found@[m].1@
                    },
            decreases found@.len() - i,
        {
            let sequence = match self.string_to_sequence.get(&found[i].0) {
                Some(s) => s.clone(),
                None => String::new(),
            };
            r.push(
                SequenceDescription {
                    sequence,
                    result: found[i].0.clone(),
                    description: found[i].1.clone(),
                },
            );
            i += 1;
        }
        r
    }

    /// Splits a search keyword into its words.
    pub fn tokenize(&self, keyword: &str) -> (r: Vec<String>)
        ensures
            r@.map_values(|w: String| w@) == words_from(keyword@, 0),
    {
        split_whitespace(keyword)
    }

    /// The characters found for the words of `keyword`; see
    /// `filter_sequence`.
    pub fn search(&self, keyword: &str, limit: usize, languages: &Vec<SupportedLocale>) -> (r: Vec<
        SequenceDescription,
    >)
        requires
            self.search_ready(words_from(keyword@, 0), languages@),
        ensures
            self.described(
                collect(
                    Seq::empty(),
                    self.search_candidates(words_from(keyword@, 0), languages@),
                    limit as int,
                ),
                r@,
            ),
    {
        let tokens = self.tokenize(keyword);
        self.filter_sequence(tokens, limit, languages)
    }

    /// The description of the character with number `codepoint`: its name
    /// if the definition has one, else what `char_name` gives. A number that
    /// is no character gives `ValueNotFound`; a character with no name,
    /// `Failure`.
    pub fn get_localized_name<F: Fn(char) -> Option<String>>(&self, codepoint: u32, char_name: F) -> (r:
        Result<SequenceDescription, SequenceDefinitionError>)
        requires
            forall|c: char| call_requires(char_name, (c,)),
        ensures
            !crate::text::is_scalar(codepoint as int) ==> r == Err::<
                SequenceDescription,
                SequenceDefinitionError,
            >(SequenceDefinitionError::ValueNotFound),
            crate::text::is_scalar(codepoint as int) ==> {
                let c = (codepoint as int) as char;
                &&& self.names().contains_key(seq![c]) ==> (r matches Ok(d) && d.sequence@.len() == 0
                    && d.result@ == seq![c] && d.description == self.names()[seq![c]])
                &&& !self.names().contains_key(seq![c]) ==> match r {
                    Ok(d) => d.sequence@.len() == 0 && d.result@ == seq![c] && call_ensures(
                        char_name,
                        (c,),
                        Some(d.description),
                    ),
                    Err(e) => e == SequenceDefinitionError::Failure && call_ensures(
                        char_name,
                        (c,),
                        None::<String>,
                    ),
                }
            },
    {
        let valid_char = match crate::text::char_from_u32(codepoint) {
            Some(c) => c,
            None => {
                return Err(SequenceDefinitionError::ValueNotFound);
            },
        };
        let valid_string = char_to_string(valid_char);
        let description = match self.char_to_name.get(&valid_string) {
            Some(name) => name.clone(),
            None => match char_name(valid_char) {
                Some(n) => n,
                None => {
                    return Err(SequenceDefinitionError::Failure);
                },
            },
        };
        Ok(SequenceDescription { sequence: String::new(), result: valid_string, description })
    }

    /// At most `limit` sequences that start with `sequence`, in increasing
    /// order, each with what it produces and its description.
    pub fn potential_prefix(&self, sequence: &str, limit: usize) -> (r: Vec<SequenceDescription>)
        requires
            self.wf(),
        ensures
            exists|keys: Seq<Seq<char>>|
                {
                    &&& prefix_keys(self.translation(), sequence@, keys)
                    &&& r@.len() == if limit < keys.len() {
                        limit as int
                    } else {
                        keys.len() as int
                    }
                    &&& forall|i: int|
                        0 <= i < r@.len() ==> {
                            &&& (#[trigger] r@[i]).sequence@ == keys[i]
                            &&& r@[i].result@ == mapped_text(self.translation()[keys[i]])
                            &&& r@[i].description@ == self.description_of(
                                self.translation()[keys[i]],
                            )
                        }
                },
    {
        let listing = fst_prefix_entries(&self.prefix_map, sequence);
        let ghost lv = listing@.map_values(|e: (String, u64)| (e.0@, e.1));
        let ghost keys = lv.map_values(|e: (Seq<char>, u64)| e.0);
        proof {
            assert forall|i: int, j: int| 0 <= i < j < keys.len() implies crate::order::seq_lt(
                #[trigger] keys[i],
                #[trigger] keys[j],
            ) by {
                assert(keys[i] == lv[i].0);
                assert(keys[j] == lv[j].0);
            }
            assert forall|i: int| 0 <= i < keys.len() implies self.translation().contains_key(
                #[trigger] keys[i],
            ) && has_prefix(keys[i], sequence@) by {
                assert(keys[i] == lv[i].0);
            }
            assert forall|k: Seq<char>|
                self.translation().contains_key(k) && has_prefix(k, sequence@) implies exists|i: int|
                0 <= i < keys.len() && #[trigger] keys[i] == k by {
                assert(fst_map_contents(self.prefix_map).contains_key(k));
                let i = choose|i: int| 0 <= i < lv.len() && #[trigger] lv[i].0 == k;
                assert(keys[i] == k);
            }
        }
        let n = if limit < listing.len() {
            limit
        } else {
            listing.len()
        };
        let mut r: Vec<SequenceDescription> = Vec::new();
        let mut i: usize = 0;
        while i < n
            invariant
                i <= n <= listing@.len(),
                self.wf(),
                lv == listing@.map_values(|e: (String, u64)| (e.0@, e.1)),
                keys == lv.map_values(|e: (Seq<char>, u64)| e.0),
                prefix_listing(fst_map_contents(self.prefix_map), sequence@, lv),
                prefix_keys(self.translation(), sequence@, keys),
                keys.len() == listing@.len(),
                n == if limit < keys.len() { limit as int } else { keys.len() as int },
                r@.len() == i,
                forall|m: int|
                    0 <= m < i ==> {
                        &&& (#[trigger] r@[m]).sequence@ == keys[m]
                        &&& r@[m].result@ == mapped_text(self.translation()[keys[m]])
                        &&& r@[m].description@ == self.description_of(self.translation()[keys[m]])
                    },
            decreases n - i,
        {
            let ghost k = keys[i as int];
            assert(k == lv[i as int].0);
            assert(fst_map_contents(self.prefix_map).contains_key(k));
            let value = listing[i].1;
            let mapped = self.value_to_string.get(value).unwrap();
            assert(self.translation().contains_key(k));
            assert(self.translation()[k] == mapped@);
            let description = match mapped {
                MappedString::Basic(c) => {
                    let cs = char_to_string(*c);
                    self.char_to_name.get(&cs).unwrap().clone()
                },
                MappedString::Extra(s) => s.clone(),
            };
            r.push(
                SequenceDescription {
                    sequence: listing[i].0.clone(),
                    result: mapped.to_string(),
                    description,
                },
            );
            i += 1;
        }
        assert(prefix_keys(self.translation(), sequence@, keys));
        r
    }
}

/// `keys` lists, in increasing order, exactly the sequences of `t` that
/// start with `p`.
pub open spec fn prefix_keys(t: Map<Seq<char>, MappedView>, p: Seq<char>, keys: Seq<Seq<char>>) -> bool {
    &&& forall|i: int, j: int|
        0 <= i < j < keys.len() ==> crate::order::seq_lt(#[trigger] keys[i], #[trigger] keys[j])
    &&& forall|i: int|
        0 <= i < keys.len() ==> t.contains_key(#[trigger] keys[i]) && has_prefix(keys[i], p)
    &&& forall|k: Seq<char>|
        t.contains_key(k) && has_prefix(k, p) ==> exists|i: int|
            0 <= i < keys.len() && #[trigger] keys[i] == k
}

} // verus!
