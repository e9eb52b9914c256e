//! The search of characters by keywords: candidates come in a fixed order,
//! each either a character with its description or nothing, and the result
//! gathers the characters not seen before until it reaches its limit.
use vstd::prelude::*;
use crate::text::{contains_chars, contains_seq};

verus! {

/// A character with its description.
pub type Found = (Seq<char>, Seq<char>);

/// `acc` holds the character `k`.
pub open spec fn has_char(acc: Seq<Found>, k: Seq<char>) -> bool {
    exists|j: int| 0 <= j < acc.len() && #[trigger] acc[j].0 == k
}

/// The result after one candidate: a character not seen before is added.
pub open spec fn add_candidate(acc: Seq<Found>, c: Option<Found>) -> Seq<Found> {
    match c {
        Some(p) => if has_char(acc, p.0) {
            acc
        } else {
            acc.push(p)
        },
        None => acc,
    }
}

/// The result of taking the candidates in order, starting from `acc`: after
/// each candidate, the search stops once the result holds `limit` or more.
pub open spec fn collect(acc: Seq<Found>, cands: Seq<Option<Found>>, limit: int) -> Seq<Found>
    decreases cands.len(),
{
    if cands.len() == 0 {
        acc
    } else {
        let next = add_candidate(acc, cands[0]);
        if next.len() >= limit {
            next
        } else {
            collect(next, cands.drop_first(), limit)
        }
    }
}

/// One candidate in front of the rest.
pub proof fn lemma_collect_step(acc: Seq<Found>, c: Option<Found>, rest: Seq<Option<Found>>, limit: int)
    ensures
        collect(acc, seq![c] + rest, limit) == (if add_candidate(acc, c).len() >= limit {
            add_candidate(acc, c)
        } else {
            collect(add_candidate(acc, c), rest, limit)
        }),
{
    let s = seq![c] + rest;
    assert(s[0] == c);
    assert(s.drop_first() =~= rest);
}

/// Some needle occurs in `hay`.
pub open spec fn any_contains(hay: Seq<char>, needles: Seq<Seq<char>>) -> bool {
    exists|i: int| 0 <= i < needles.len() && contains_seq(hay, #[trigger] needles[i])
}

/// Every needle occurs in `hay`.
pub open spec fn all_contain(hay: Seq<char>, needles: Seq<Seq<char>>) -> bool {
    forall|i: int| 0 <= i < needles.len() ==> contains_seq(hay, #[trigger] needles[i])
}

/// An annotation pair is a candidate of the search: by its character
/// holding one of the needles, or, `by_desc`, by its description holding
/// all of them.
pub open spec fn pair_matches(p: Found, needles: Seq<Seq<char>>, by_desc: bool) -> bool {
    if by_desc {
        all_contain(p.1, needles)
    } else {
        any_contains(p.0, needles)
    }
}

/// The candidates that the annotation pairs give: each matching pair's
/// character, described by its name.
pub open spec fn pair_candidates(
    pairs: Seq<Found>,
    needles: Seq<Seq<char>>,
    by_desc: bool,
    names: Map<Seq<char>, String>,
) -> Seq<Option<Found>>
    decreases pairs.len(),
{
    if pairs.len() == 0 {
        Seq::empty()
    } else {
        (if pair_matches(pairs[0], needles, by_desc) {
            seq![Some((pairs[0].0, names[pairs[0].0]@))]
        } else {
            Seq::empty()
        }) + pair_candidates(pairs.drop_first(), needles, by_desc, names)
    }
}

/// The candidates of the annotations of each language in turn.
pub open spec fn language_candidates(
    ann: Map<crate::cldr::SupportedLocale, Seq<Found>>,
    langs: Seq<crate::cldr::SupportedLocale>,
    needles: Seq<Seq<char>>,
    by_desc: bool,
    names: Map<Seq<char>, String>,
) -> Seq<Option<Found>>
    decreases langs.len(),
{
    if langs.len() == 0 {
        Seq::empty()
    } else {
        pair_candidates(ann[langs[0]], needles, by_desc, names) + language_candidates(
            ann,
            langs.drop_first(),
            needles,
            by_desc,
            names,
        )
    }
}

/// Every candidate that the descriptions give is the character of an
/// annotation pair whose description holds every needle, described by its
/// name.
pub proof fn lemma_desc_candidates_hold_every_needle(
    pairs: Seq<Found>,
    needles: Seq<Seq<char>>,
    names: Map<Seq<char>, String>,
    j: int,
)
    requires
        0 <= j < pair_candidates(pairs, needles, true, names).len(),
    ensures
        exists|i: int|
            0 <= i < pairs.len() && pair_candidates(pairs, needles, true, names)[j] == Some(
                (pairs[i].0, names[pairs[i].0]@),
            ) && forall|t: int| 0 <= t < needles.len() ==> contains_seq(pairs[i].1, #[trigger] needles[t]),
    decreases pairs.len(),
{
    let rest = pair_candidates(pairs.drop_first(), needles, true, names);
    let m = all_contain(pairs[0].1, needles);
    let head: Seq<Option<Found>> = if m {
        seq![Some((pairs[0].0, names[pairs[0].0]@))]
    } else {
        Seq::empty()
    };
    assert(pair_candidates(pairs, needles, true, names) == head + rest);
    if m && j == 0 {
        assert(forall|t: int| 0 <= t < needles.len() ==> contains_seq(pairs[0].1, #[trigger] needles[t]));
    } else {
        lemma_desc_candidates_hold_every_needle(pairs.drop_first(), needles, names, j - head.len());
        let i = choose|i: int|
            0 <= i < pairs.drop_first().len() && rest[j - head.len()] == Some(
                (pairs.drop_first()[i].0, names[pairs.drop_first()[i].0]@),
            ) && forall|t: int|
                0 <= t < needles.len() ==> contains_seq(pairs.drop_first()[i].1, #[trigger] needles[t]);
        assert(pairs.drop_first()[i] == pairs[i + 1]);
    }
}

/// Every annotation pair whose description holds every needle gives its
/// character, described by its name, as a candidate.
pub proof fn lemma_desc_candidates_complete(
    pairs: Seq<Found>,
    needles: Seq<Seq<char>>,
    names: Map<Seq<char>, String>,
    i: int,
)
    requires
        0 <= i < pairs.len(),
        forall|t: int| 0 <= t < needles.len() ==> contains_seq(pairs[i].1, #[trigger] needles[t]),
    ensures
        exists|j: int|
            0 <= j < pair_candidates(pairs, needles, true, names).len() && pair_candidates(
                pairs,
                needles,
                true,
                names,
            )[j] == Some((pairs[i].0, names[pairs[i].0]@)),
    decreases pairs.len(),
{
    let rest = pair_candidates(pairs.drop_first(), needles, true, names);
    let m = all_contain(pairs[0].1, needles);
    let head: Seq<Option<Found>> = if m {
        seq![Some((pairs[0].0, names[pairs[0].0]@))]
    } else {
        Seq::empty()
    };
    let all = pair_candidates(pairs, needles, true, names);
    assert(all == head + rest);
    if i == 0 {
        assert(m);
        assert(all[0] == Some((pairs[0].0, names[pairs[0].0]@)));
    } else {
        assert(pairs.drop_first()[i - 1] == pairs[i]);
        lemma_desc_candidates_complete(pairs.drop_first(), needles, names, i - 1);
        let j = choose|j: int| 0 <= j < rest.len() && rest[j] == Some((pairs[i].0, names[pairs[i].0]@));
        assert(all[j + head.len()] == rest[j]);
    }
}

/// Over the languages in turn: every candidate that the descriptions give
/// comes from an annotation pair of one of the languages whose description
/// holds every needle.
pub proof fn lemma_language_desc_candidates_hold_every_needle(
    ann: Map<crate::cldr::SupportedLocale, Seq<Found>>,
    langs: Seq<crate::cldr::SupportedLocale>,
    needles: Seq<Seq<char>>,
    names: Map<Seq<char>, String>,
    j: int,
)
    requires
        0 <= j < language_candidates(ann, langs, needles, true, names).len(),
    ensures
        exists|l: int, i: int|
            0 <= l < langs.len() && 0 <= i < ann[langs[l]].len() && language_candidates(
                ann,
                langs,
                needles,
                true,
                names,
            )[j] == Some((ann[langs[l]][i].0, names[ann[langs[l]][i].0]@)) && forall|t: int|
                0 <= t < needles.len() ==> contains_seq(ann[langs[l]][i].1, #[trigger] needles[t]),
    decreases langs.len(),
{
    let first = pair_candidates(ann[langs[0]], needles, true, names);
    let rest = language_candidates(ann, langs.drop_first(), needles, true, names);
    assert(language_candidates(ann, langs, needles, true, names) == first + rest);
    if j < first.len() {
        lemma_desc_candidates_hold_every_needle(ann[langs[0]], needles, names, j);
        let i = choose|i: int|
            0 <= i < ann[langs[0]].len() && first[j] == Some(
                (ann[langs[0]][i].0, names[ann[langs[0]][i].0]@),
            ) && forall|t: int| 0 <= t < needles.len() ==> contains_seq(ann[langs[0]][i].1, #[trigger] needles[t]);
        assert(0 <= 0 < langs.len() && 0 <= i < ann[langs[0]].len());
    } else {
        lemma_language_desc_candidates_hold_every_needle(ann, langs.drop_first(), needles, names, j - first.len());
        let (l, i) = choose|l: int, i: int|
            0 <= l < langs.drop_first().len() && 0 <= i < ann[langs.drop_first()[l]].len() && rest[j - first.len()] == Some(
                (ann[langs.drop_first()[l]][i].0, names[ann[langs.drop_first()[l]][i].0]@),
            ) && forall|t: int|
                0 <= t < needles.len() ==> contains_seq(ann[langs.drop_first()[l]][i].1, #[trigger] needles[t]);
        assert(langs.drop_first()[l] == langs[l + 1]);
    }
}

/// The candidates of the tokens themselves: a token that is a named
/// character, with its name.
pub open spec fn token_candidates(tokens: Seq<Seq<char>>, names: Map<Seq<char>, String>) -> Seq<
    Option<Found>,
>
    decreases tokens.len(),
{
    if tokens.len() == 0 {
        Seq::empty()
    } else {
        seq![
            if names.contains_key(tokens[0]) {
                Some((tokens[0], names[tokens[0]]@))
            } else {
                None
            },
        ] + token_candidates(tokens.drop_first(), names)
    }
}

/// The candidates of the character names, in the given order: each name
/// that holds every needle.
pub open spec fn name_candidates(order: Seq<(Seq<char>, String)>, needles: Seq<Seq<char>>) -> Seq<
    Option<Found>,
>
    decreases order.len(),
{
    if order.len() == 0 {
        Seq::empty()
    } else {
        (if all_contain(order[0].1@, needles) {
            seq![Some((order[0].0, order[0].1@))]
        } else {
            Seq::empty()
        }) + name_candidates(order.drop_first(), needles)
    }
}

/// A candidate list offers `f`.
pub open spec fn offers(cands: Seq<Option<Found>>, f: Found) -> bool {
    exists|j: int| 0 <= j < cands.len() && cands[j] == Some(f)
}

/// Every character of a result was either there before or offered by one
/// of the candidates.
pub proof fn lemma_collect_from_candidates(acc: Seq<Found>, cands: Seq<Option<Found>>, limit: int, x: int)
    requires
        0 <= x < collect(acc, cands, limit).len(),
    ensures
        (x < acc.len() && collect(acc, cands, limit)[x] == acc[x]) || offers(
            cands,
            collect(acc, cands, limit)[x],
        ),
    decreases cands.len(),
{
    if cands.len() > 0 {
        let next = add_candidate(acc, cands[0]);
        let r = collect(acc, cands, limit);
        if next.len() >= limit {
            assert(r == next);
            if x >= acc.len() {
                assert(cands[0] == Some(r[x]));
            }
        } else {
            lemma_collect_from_candidates(next, cands.drop_first(), limit, x);
            if x < next.len() && r[x] == next[x] {
                if x >= acc.len() {
                    assert(cands[0] == Some(r[x]));
                }
            } else {
                let j = choose|j: int|
                    0 <= j < cands.drop_first().len() && cands.drop_first()[j] == Some(r[x]);
                assert(cands[j + 1] == Some(r[x]));
            }
        }
    }
}

/// An offer of a concatenation is an offer of one of its parts.
pub proof fn lemma_offers_concat(a: Seq<Option<Found>>, b: Seq<Option<Found>>, f: Found)
    requires
        offers(a + b, f),
    ensures
        offers(a, f) || offers(b, f),
{
    let j = choose|j: int| 0 <= j < (a + b).len() && (a + b)[j] == Some(f);
    if j >= a.len() {
        assert(b[j - a.len()] == Some(f));
    } else {
        assert(a[j] == Some(f));
    }
}

/// Every candidate of the annotation pairs is a matching pair's
/// character, described by its name.
pub proof fn lemma_pair_candidates_source(
    pairs: Seq<Found>,
    needles: Seq<Seq<char>>,
    by_desc: bool,
    names: Map<Seq<char>, String>,
    f: Found,
)
    requires
        offers(pair_candidates(pairs, needles, by_desc, names), f),
    ensures
        exists|i: int|
            0 <= i < pairs.len() && #[trigger] pairs[i].0 == f.0 && f.1 == names[f.0]@ && pair_matches(
                pairs[i],
                needles,
                by_desc,
            ),
    decreases pairs.len(),
{
    let rest = pair_candidates(pairs.drop_first(), needles, by_desc, names);
    let head: Seq<Option<Found>> = if pair_matches(pairs[0], needles, by_desc) {
        seq![Some((pairs[0].0, names[pairs[0].0]@))]
    } else {
        Seq::empty()
    };
    assert(pair_candidates(pairs, needles, by_desc, names) == head + rest);
    lemma_offers_concat(head, rest, f);
    if offers(head, f) {
        assert(head[0] == Some(f));
        assert(pairs[0].0 == f.0);
    } else {
        lemma_pair_candidates_source(pairs.drop_first(), needles, by_desc, names, f);
        let i = choose|i: int|
            0 <= i < pairs.drop_first().len() && #[trigger] pairs.drop_first()[i].0 == f.0 && f.1
                == names[f.0]@ && pair_matches(pairs.drop_first()[i], needles, by_desc);
        assert(pairs[i + 1] == pairs.drop_first()[i]);
    }
}

/// Every candidate of the annotations of the languages is a matching
/// pair's character in one of them, described by its name.
pub proof fn lemma_language_candidates_source(
    ann: Map<crate::cldr::SupportedLocale, Seq<Found>>,
    langs: Seq<crate::cldr::SupportedLocale>,
    needles: Seq<Seq<char>>,
    by_desc: bool,
    names: Map<Seq<char>, String>,
    f: Found,
)
    requires
        offers(language_candidates(ann, langs, needles, by_desc, names), f),
    ensures
        exists|l: int, i: int|
            0 <= l < langs.len() && 0 <= i < ann[langs[l]].len() && #[trigger] ann[langs[l]][i].0
                == f.0 && f.1 == names[f.0]@ && pair_matches(ann[langs[l]][i], needles, by_desc),
    decreases langs.len(),
{
    let first = pair_candidates(ann[langs[0]], needles, by_desc, names);
    let rest = language_candidates(ann, langs.drop_first(), needles, by_desc, names);
    assert(language_candidates(ann, langs, needles, by_desc, names) == first + rest);
    lemma_offers_concat(first, rest, f);
    if offers(first, f) {
        lemma_pair_candidates_source(ann[langs[0]], needles, by_desc, names, f);
        let i = choose|i: int|
            0 <= i < ann[langs[0]].len() && #[trigger] ann[langs[0]][i].0 == f.0 && f.1 == names[f.0]@
                && pair_matches(ann[langs[0]][i], needles, by_desc);
        assert(ann[langs[0]][i].0 == f.0);
    } else {
        lemma_language_candidates_source(ann, langs.drop_first(), needles, by_desc, names, f);
        let (l, i) = choose|l: int, i: int|
            0 <= l < langs.drop_first().len() && 0 <= i < ann[langs.drop_first()[l]].len()
                && #[trigger] ann[langs.drop_first()[l]][i].0 == f.0 && f.1 == names[f.0]@
                && pair_matches(ann[langs.drop_first()[l]][i], needles, by_desc);
        assert(langs.drop_first()[l] == langs[l + 1]);
        assert(ann[langs[l + 1]][i].0 == f.0);
    }
}

/// Every candidate of the tokens is a token that is a named character,
/// described by its name.
pub proof fn lemma_token_candidates_source(
    tokens: Seq<Seq<char>>,
    names: Map<Seq<char>, String>,
    f: Found,
)
    requires
        offers(token_candidates(tokens, names), f),
    ensures
        exists|t: int| 0 <= t < tokens.len() && #[trigger] tokens[t] == f.0,
        names.contains_key(f.0),
        f.1 == names[f.0]@,
    decreases tokens.len(),
{
    let head: Seq<Option<Found>> = seq![
        if names.contains_key(tokens[0]) {
            Some((tokens[0], names[tokens[0]]@))
        } else {
            None
        },
    ];
    let rest = token_candidates(tokens.drop_first(), names);
    assert(token_candidates(tokens, names) == head + rest);
    lemma_offers_concat(head, rest, f);
    if offers(head, f) {
        assert(head[0] == Some(f));
        assert(tokens[0] == f.0);
    } else {
        lemma_token_candidates_source(tokens.drop_first(), names, f);
        let t = choose|t: int| 0 <= t < tokens.drop_first().len() && #[trigger] tokens.drop_first()[t] == f.0;
        assert(tokens[t + 1] == f.0);
    }
}

/// Every candidate of the names is a character whose name holds every
/// needle, described by that name.
pub proof fn lemma_name_candidates_source(
    order: Seq<(Seq<char>, String)>,
    needles: Seq<Seq<char>>,
    f: Found,
)
    requires
        offers(name_candidates(order, needles), f),
    ensures
        exists|o: int|
            0 <= o < order.len() && #[trigger] order[o].0 == f.0 && f.1 == order[o].1@ && all_contain(
                order[o].1@,
                needles,
            ),
    decreases order.len(),
{
    let head: Seq<Option<Found>> = if all_contain(order[0].1@, needles) {
        seq![Some((order[0].0, order[0].1@))]
    } else {
        Seq::empty()
    };
    let rest = name_candidates(order.drop_first(), needles);
    assert(name_candidates(order, needles) == head + rest);
    lemma_offers_concat(head, rest, f);
    if offers(head, f) {
        assert(head[0] == Some(f));
        assert(order[0].0 == f.0);
    } else {
        lemma_name_candidates_source(order.drop_first(), needles, f);
        let o = choose|o: int|
            0 <= o < order.drop_first().len() && #[trigger] order.drop_first()[o].0 == f.0 && f.1
                == order.drop_first()[o].1@ && all_contain(order.drop_first()[o].1@, needles);
        assert(order[o + 1] == order.drop_first()[o]);
    }
}

/// The view of a result under construction.
pub open spec fn found_view(acc: Seq<(String, String)>) -> Seq<Found> {
    acc.map_values(|e: (String, String)| (e.0@, e.1@))
}

/// Adds `k` with `v` unless `k` is in already.
pub fn add_found(acc: &mut Vec<(String, String)>, k: String, v: String)
    ensures
        found_view(final(acc)@) == add_candidate(found_view(old(acc)@), Some((k@, v@))),
{
    let ghost before = found_view(acc@);
    let mut j: usize = 0;
    while j < acc.len()
        invariant
            before == found_view(acc@),
            j <= acc@.len(),
            forall|m: int| 0 <= m < j ==> before[m].0 != k@,
        decreases acc@.len() - j,
    {
        assert(before[j as int].0 == acc@[j as int].0@);
        if acc[j].0 == k {
            assert(has_char(before, k@));
            return;
        }
        j += 1;
    }
    assert(!has_char(before, k@));
    acc.push((k, v));
    assert(found_view(acc@) =~= before.push((k@, v@)));
}

/// Some needle occurs in `hay`.
pub fn any_contains_exec(hay: &Vec<char>, needles: &Vec<Vec<char>>) -> (r: bool)
    ensures
        r == any_contains(hay@, needles@.map_values(|n: Vec<char>| n@)),
{
    let ghost nv = needles@.map_values(|n: Vec<char>| n@);
    let mut i: usize = 0;
    while i < needles.len()
        invariant
            i <= needles@.len(),
            nv == needles@.map_values(|n: Vec<char>| n@),
            forall|m: int| 0 <= m < i ==> !contains_seq(hay@, #[trigger] nv[m]),
        decreases needles@.len() - i,
    {
        if contains_chars(hay, &needles[i]) {
            assert(contains_seq(hay@, nv[i as int]));
            return true;
        }
        i += 1;
    }
    false
}

/// Every needle occurs in `hay`.
pub fn all_contain_exec(hay: &Vec<char>, needles: &Vec<Vec<char>>) -> (r: bool)
    ensures
        r == all_contain(hay@, needles@.map_values(|n: Vec<char>| n@)),
{
    let ghost nv = needles@.map_values(|n: Vec<char>| n@);
    let mut i: usize = 0;
    while i < needles.len()
        invariant
            i <= needles@.len(),
            nv == needles@.map_values(|n: Vec<char>| n@),
            forall|m: int| 0 <= m < i ==> contains_seq(hay@, #[trigger] nv[m]),
        decreases needles@.len() - i,
    {
        if !contains_chars(hay, &needles[i]) {
            assert(!contains_seq(hay@, nv[i as int]));
            return false;
        }
        i += 1;
    }
    true
}

} // verus!
