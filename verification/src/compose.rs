//! The line grammar of X11's `Compose` files and the ordered table of
//! compose sequences built from it.
use vstd::prelude::*;
use crate::error::SequenceTranslatorError;
use crate::keysym::{lines_view, KeySymDef};
use crate::mapped::{mapped_text, peradaban, MappedString, MappedView};
use crate::order::{
    chars_eq, chars_lt, lemma_seq_lt_asymmetric, lemma_seq_lt_irreflexive, lemma_seq_lt_total,
    lemma_seq_lt_transitive, seq_lt,
};
use crate::text::{
    debug_text, str_debug, char_to_string, chars_to_string, lit_at, match_lit, no_newline, run_end, scan_class,
    str_chars, CharClass,
};

verus! {

/// The compose key that starts every sequence of a `Compose` line.
pub open spec fn multi_key() -> Seq<char> {
    seq!['<', 'M', 'u', 'l', 't', 'i', '_', 'k', 'e', 'y', '>']
}

/// What comes before the name of each further key.
pub open spec fn key_open() -> Seq<char> {
    seq![' ', '<']
}

/// What separates the keys from the quoted value.
pub open spec fn value_open() -> Seq<char> {
    seq![':', ' ', '"']
}

/// `k` keys ` <name>` starting at `p`: their names and where they end.
pub open spec fn compose_keys(s: Seq<char>, p: int, k: nat) -> Option<(Seq<Seq<char>>, int)>
    decreases k,
{
    if k == 0 {
        Some((Seq::empty(), p))
    } else if !lit_at(s, p, key_open()) {
        None
    } else {
        let ne = run_end(s, p + 2, CharClass::Word);
        if ne == p + 2 || ne >= s.len() || s[ne] != '>' {
            None
        } else {
            match compose_keys(s, ne + 1, (k - 1) as nat) {
                None => None,
                Some((names, e)) => Some((seq![s.subrange(p + 2, ne)] + names, e)),
            }
        }
    }
}

/// The last `"` in `s[from..t]`, or -1.
pub open spec fn last_quote(s: Seq<char>, from: int, t: int) -> int
    decreases t - from,
{
    if t <= from {
        -1
    } else if s[t - 1] == '"' {
        t - 1
    } else {
        last_quote(s, from, t - 1)
    }
}

/// `^<Multi_key>( <([a-zA-Z0-9_]+)>){k}\s+: "(.*)".*$`: the key names and
/// the quoted value (up to the last `"` of the line).
pub open spec fn compose_spec(s: Seq<char>, k: nat) -> Option<(Seq<Seq<char>>, Seq<char>)> {
    if !lit_at(s, 0, multi_key()) {
        None
    } else {
        match compose_keys(s, 11, k) {
            None => None,
            Some((names, p)) => {
                let se = run_end(s, p, CharClass::Space);
                if se == p || !lit_at(s, se, value_open()) || !no_newline(
                    s,
                    se + 3,
                    s.len() as int,
                ) {
                    None
                } else {
                    let q = last_quote(s, se + 3, s.len() as int);
                    if q < 0 {
                        None
                    } else {
                        Some((names, s.subrange(se + 3, q)))
                    }
                }
            },
        }
    }
}

/// A compose line with two, three or four keys, tried in that order.
pub open spec fn compose_any(s: Seq<char>) -> Option<(Seq<Seq<char>>, Seq<char>)> {
    if compose_spec(s, 2) is Some {
        compose_spec(s, 2)
    } else if compose_spec(s, 3) is Some {
        compose_spec(s, 3)
    } else {
        compose_spec(s, 4)
    }
}

/// The characters that the keysyms `names` stand for, if all are known.
pub open spec fn key_chars(names: Seq<Seq<char>>, keys: Map<Seq<char>, char>) -> Option<Seq<char>>
    decreases names.len(),
{
    if names.len() == 0 {
        Some(Seq::empty())
    } else if !keys.contains_key(names[0]) {
        None
    } else {
        match key_chars(names.drop_first(), keys) {
            None => None,
            Some(r) => Some(seq![keys[names[0]]] + r),
        }
    }
}

/// What a compose line defines: the sequence of characters to type and the
/// first character of the quoted value.
pub open spec fn decode_entry_spec(s: Seq<char>, keys: Map<Seq<char>, char>) -> Result<
    (Seq<char>, MappedView),
    SequenceTranslatorError,
> {
    match compose_any(s) {
        None => Err(SequenceTranslatorError::RegexParse),
        Some((names, value)) => match key_chars(names, keys) {
            None => Err(SequenceTranslatorError::InvalidKeyname),
            Some(k) => Ok((k, MappedView::Basic(value[0]))),
        },
    }
}

/// A line whose keys are all known but whose quoted value is empty: taking
/// its first character fails.
pub open spec fn decode_entry_panics(s: Seq<char>, keys: Map<Seq<char>, char>) -> bool {
    match compose_any(s) {
        None => false,
        Some((names, value)) => key_chars(names, keys) is Some && value.len() == 0,
    }
}

/// The keys of `e` are strictly increasing.
pub open spec fn sorted_keys<V>(e: Seq<(Seq<char>, V)>) -> bool {
    forall|i: int, j: int| 0 <= i < j < e.len() ==> seq_lt(#[trigger] e[i].0, #[trigger] e[j].0)
}

/// Binds `k` to `v` in the ordered table `e`, as an ordered map does.
pub open spec fn sorted_insert<V>(e: Seq<(Seq<char>, V)>, k: Seq<char>, v: V) -> Seq<
    (Seq<char>, V),
>
    decreases e.len(),
{
    if e.len() == 0 {
        seq![(k, v)]
    } else if e[0].0 == k {
        e.update(0, (k, v))
    } else if seq_lt(k, e[0].0) {
        seq![(k, v)] + e
    } else {
        seq![e[0]] + sorted_insert(e.drop_first(), k, v)
    }
}

/// The value that the ordered table `e` binds to `k`.
pub open spec fn sorted_lookup<V>(e: Seq<(Seq<char>, V)>, k: Seq<char>) -> Option<V>
    decreases e.len(),
{
    if e.len() == 0 {
        None
    } else if e[0].0 == k {
        Some(e[0].1)
    } else {
        sorted_lookup(e.drop_first(), k)
    }
}

/// Putting a key between its neighbours in order keeps a list sorted and
/// binds that key.
pub proof fn lemma_sorted_insert_at<V>(e: Seq<(Seq<char>, V)>, j: int, k: Seq<char>, v: V)
    requires
        sorted_keys(e),
        0 <= j <= e.len(),
        forall|i: int| 0 <= i < j ==> seq_lt(#[trigger] e[i].0, k),
        j < e.len() ==> !seq_lt(e[j].0, k),
    ensures
        sorted_insert(e, k, v) == (if j < e.len() && e[j].0 == k {
            e.update(j, (k, v))
        } else {
            e.insert(j, (k, v))
        }),
        sorted_keys(sorted_insert(e, k, v)),
    decreases j,
{
    if j == 0 {
        if e.len() == 0 {
            assert(seq![(k, v)] =~= e.insert(0, (k, v)));
        } else if e[0].0 == k {
        } else {
            lemma_seq_lt_total(e[0].0, k);
            assert(seq![(k, v)] + e =~= e.insert(0, (k, v)));
        }
    } else {
        assert(seq_lt(e[0].0, k));
        lemma_seq_lt_irreflexive(k);
        lemma_seq_lt_asymmetric(e[0].0, k);
        let t = e.drop_first();
        assert forall|i: int, m: int| 0 <= i < m < t.len() implies seq_lt(
            #[trigger] t[i].0,
            #[trigger] t[m].0,
        ) by {
            assert(t[i] == e[i + 1]);
            assert(t[m] == e[m + 1]);
        }
        assert forall|i: int| 0 <= i < j - 1 implies seq_lt(#[trigger] t[i].0, k) by {
            assert(t[i] == e[i + 1]);
        }
        lemma_sorted_insert_at(t, j - 1, k, v);
        if j < e.len() && e[j].0 == k {
            assert(seq![e[0]] + t.update(j - 1, (k, v)) =~= e.update(j, (k, v)));
        } else {
            assert(seq![e[0]] + t.insert(j - 1, (k, v)) =~= e.insert(j, (k, v)));
        }
    }
    let r = sorted_insert(e, k, v);
    assert(r == (if j < e.len() && e[j].0 == k {
        e.update(j, (k, v))
    } else {
        e.insert(j, (k, v))
    }));
    if j < e.len() && e[j].0 == k {
        assert forall|a: int, b: int| 0 <= a < b < r.len() implies seq_lt(
            #[trigger] r[a].0,
            #[trigger] r[b].0,
        ) by {
            assert(r[a].0 == e[a].0);
            assert(r[b].0 == e[b].0);
        }
    } else {
        assert forall|a: int, b: int| 0 <= a < b < r.len() implies seq_lt(
            #[trigger] r[a].0,
            #[trigger] r[b].0,
        ) by {
            if a < j && b < j {
                assert(r[a] == e[a]);
                assert(r[b] == e[b]);
            } else if a < j && b == j {
            } else if a < j && b > j {
                assert(r[b] == e[b - 1]);
            } else if a == j {
                assert(r[b] == e[b - 1]);
                lemma_seq_lt_total(e[j].0, k);
                if b - 1 > j {
                    lemma_seq_lt_transitive(k, e[j].0, e[b - 1].0);
                }
            } else {
                assert(r[a] == e[a - 1]);
                assert(r[b] == e[b - 1]);
            }
        }
    }
}

/// The ordered table that the lines of a `Compose` file define, before the
/// two extra sequences are added: each line that decodes binds its
/// sequence, a later line overriding an earlier one.
pub open spec fn compose_lines_table(lines: Seq<Seq<char>>, keys: Map<Seq<char>, char>) -> Seq<
    (Seq<char>, MappedView),
>
    decreases lines.len(),
{
    if lines.len() == 0 {
        Seq::empty()
    } else {
        let prev = compose_lines_table(lines.drop_last(), keys);
        match decode_entry_spec(lines.last(), keys) {
            Ok((k, v)) => sorted_insert(prev, k, v),
            Err(_) => prev,
        }
    }
}

/// The key names of the sequence that the table adds for U+1F923.
pub open spec fn wkwk() -> Seq<char> {
    seq!['w', 'k', 'w', 'k']
}

/// The key names of the sequence that the table adds for "peradaban".
pub open spec fn pr() -> Seq<char> {
    seq!['p', 'r']
}

/// The whole compose table: the lines, then "wkwk" for U+1F923 and "pr" for
/// "peradaban".
pub open spec fn compose_table(lines: Seq<Seq<char>>, keys: Map<Seq<char>, char>) -> Seq<
    (Seq<char>, MappedView),
> {
    sorted_insert(
        sorted_insert(
            compose_lines_table(lines, keys),
            wkwk(),
            MappedView::Basic('\u{1F923}'),
        ),
        pr(),
        MappedView::Extra(peradaban()),
    )
}

/// The characters `s[a..b]`.
fn chars_range(s: &Vec<char>, a: usize, b: usize) -> (r: Vec<char>)
    requires
        a <= b <= s@.len(),
    ensures
        r@ == s@.subrange(a as int, b as int),
{
    let mut r: Vec<char> = Vec::new();
    let mut i = a;
    while i < b
        invariant
            a <= i <= b <= s@.len(),
            r@ == s@.subrange(a as int, i as int),
        decreases b - i,
    {
        r.push(s[i]);
        i += 1;
        assert(r@ =~= s@.subrange(a as int, i as int));
    }
    r
}

/// The views of a list of key names.
pub open spec fn names_view(v: Seq<Vec<char>>) -> Seq<Seq<char>> {
    v.map_values(|n: Vec<char>| n@)
}

/// The last `"` in `s[from..t]`.
fn find_last_quote(s: &Vec<char>, from: usize, t: usize) -> (r: Option<usize>)
    requires
        from <= t <= s@.len(),
    ensures
        match r {
            Some(q) => q as int == last_quote(s@, from as int, t as int) && from <= q < t,
            None => last_quote(s@, from as int, t as int) < 0,
        },
{
    let mut j = t;
    while j > from
        invariant
            from <= j <= t,
            t <= s@.len(),
            last_quote(s@, from as int, j as int) == last_quote(s@, from as int, t as int),
        decreases j,
    {
        if s[j - 1] == '"' {
            return Some(j - 1);
        }
        j -= 1;
    }
    None
}

/// Matches a compose line with `k` keys: the key names and the value.
fn scan_compose(s: &Vec<char>, k: usize) -> (r: Option<(Vec<Vec<char>>, Vec<char>)>)
    ensures
        match r {
            Some((names, value)) => compose_spec(s@, k as nat) == Some(
                (names_view(names@), value@),
            ),
            None => compose_spec(s@, k as nat) is None,
        },
{
    let mk = ['<', 'M', 'u', 'l', 't', 'i', '_', 'k', 'e', 'y', '>'];
    assert(mk@ =~= multi_key());
    if !match_lit(s, 0, &mk) {
        return None;
    }
    let ko = [' ', '<'];
    assert(ko@ =~= key_open());
    let n = s.len();
    let mut names: Vec<Vec<char>> = Vec::new();
    let mut p: usize = 11;
    let mut j: usize = 0;
    assert(names_view(names@) + Seq::<Seq<char>>::empty() =~= Seq::<Seq<char>>::empty());
    while j < k
        invariant
            j <= k,
            p <= s@.len(),
            s@.len() == n,
            lit_at(s@, 0, multi_key()),
            ko@ == key_open(),
            names@.len() == j,
            compose_keys(s@, 11, k as nat) == match compose_keys(s@, p as int, (k - j) as nat) {
                None => None,
                Some((ns, e)) => Some((names_view(names@) + ns, e)),
            },
        decreases k - j,
    {
        if !match_lit(s, p, &ko) {
            return None;
        }
        let ne = scan_class(s, p + 2, CharClass::Word);
        if ne == p + 2 || ne >= s.len() || s[ne] != '>' {
            return None;
        }
        let name = chars_range(s, p + 2, ne);
        let ghost old_names = names@;
        names.push(name);
        proof {
            assert forall|ns: Seq<Seq<char>>|
                names_view(old_names) + (seq![s@.subrange(p + 2, ne as int)] + ns) =~= names_view(
                    names@,
                ) + ns by {}
        }
        p = ne + 1;
        j += 1;
    }
    let se = scan_class(s, p, CharClass::Space);
    let vo = [':', ' ', '"'];
    assert(vo@ =~= value_open());
    if se == p || !match_lit(s, se, &vo) {
        return None;
    }
    if crate::text::find_newline(s, se + 3, s.len()) {
        return None;
    }
    match find_last_quote(s, se + 3, s.len()) {
        None => None,
        Some(q) => {
            let value = chars_range(s, se + 3, q);
            proof {
                assert(compose_keys(s@, p as int, 0) == Some((Seq::<Seq<char>>::empty(), p as int)));
                assert(names_view(names@) + Seq::<Seq<char>>::empty() =~= names_view(names@));
            }
            Some((names, value))
        },
    }
}

/// Matches a compose line with two, three or four keys.
fn scan_compose_any(s: &Vec<char>) -> (r: Option<(Vec<Vec<char>>, Vec<char>)>)
    ensures
        match r {
            Some((names, value)) => compose_any(s@) == Some((names_view(names@), value@)),
            None => compose_any(s@) is None,
        },
{
    match scan_compose(s, 2) {
        Some(r) => Some(r),
        None => match scan_compose(s, 3) {
            Some(r) => Some(r),
            None => scan_compose(s, 4),
        },
    }
}

/// What the compose line pattern with `k` keys captures in `line`: the key
/// names and the quoted value.
pub fn compose_line_captures(line: &str, k: usize) -> (r: Option<(Vec<String>, String)>)
    ensures
        match r {
            Some((names, value)) => compose_spec(line@, k as nat) == Some(
                (names@.map_values(|n: String| n@), value@),
            ),
            None => compose_spec(line@, k as nat) is None,
        },
{
    let s = str_chars(line);
    match scan_compose(&s, k) {
        None => None,
        Some((names, value)) => {
            let mut out: Vec<String> = Vec::new();
            let mut i: usize = 0;
            while i < names.len()
                invariant
                    i <= names@.len(),
                    out@.len() == i,
                    forall|m: int| 0 <= m < i ==> (#[trigger] out@[m])@ == names@[m]@,
                decreases names@.len() - i,
            {
                out.push(chars_to_string(&names[i]));
                i += 1;
            }
            assert(out@.map_values(|n: String| n@) =~= names_view(names@));
            Some((out, chars_to_string(&value)))
        },
    }
}

/// Whether decoding `line` would take the first character of an empty
/// value: a compose line whose keys are all known and whose quoted value
/// is empty; see `decode_entry_panics`.
pub fn entry_panics(line: &str, keysymdef: &KeySymDef) -> (r: bool)
    ensures
        r == decode_entry_panics(line@, keysymdef@),
{
    let s = str_chars(line);
    match scan_compose_any(&s) {
        None => false,
        Some((names, value)) => {
            if value.len() > 0 {
                return false;
            }
            let ghost all = names_view(names@);
            let mut i: usize = 0;
            assert(all.skip(0) =~= all);
            while i < names.len()
                invariant
                    i <= names@.len(),
                    all == names_view(names@),
                    compose_any(line@) == Some((all, value@)),
                    value@.len() == 0,
                    key_chars(all, keysymdef@) is Some <==> key_chars(all.skip(i as int), keysymdef@) is Some,
                decreases names@.len() - i,
            {
                proof {
                    assert(all.skip(i as int).drop_first() =~= all.skip(i + 1));
                    assert(all.skip(i as int)[0] == names@[i as int]@);
                }
                let name = chars_to_string(&names[i]);
                if keysymdef.get_key(name.as_str()).is_err() {
                    assert(name@ == all.skip(i as int)[0]);
                    assert(key_chars(all.skip(i as int), keysymdef@) is None);
                    return false;
                }
                i += 1;
            }
            assert(all.skip(i as int) =~= Seq::<Seq<char>>::empty());
            true
        },
    }
}

/// Decodes one line of a `Compose` file: the characters of its keys, looked
/// up in `keysymdef`, and the first character of its quoted value.
pub fn decode_entry(line: &str, keysymdef: &KeySymDef) -> (r: Result<
    (String, MappedString),
    SequenceTranslatorError,
>)
    requires
        !decode_entry_panics(line@, keysymdef@),
    ensures
        match r {
            Ok((k, v)) => decode_entry_spec(line@, keysymdef@) == Ok::<
                (Seq<char>, MappedView),
                SequenceTranslatorError,
            >((k@, v@)),
            Err(e) => decode_entry_spec(line@, keysymdef@) == Err::<
                (Seq<char>, MappedView),
                SequenceTranslatorError,
            >(e),
        },
{
    let s = str_chars(line);
    match scan_compose_any(&s) {
        None => Err(SequenceTranslatorError::RegexParse),
        Some((names, value)) => {
            let ghost all = names_view(names@);
            let mut key: Vec<char> = Vec::new();
            let mut i: usize = 0;
            proof {
                assert(all.skip(0) =~= all);
                assert forall|r: Seq<char>| key@ + r =~= r by {}
            }
            while i < names.len()
                invariant
                    i <= names@.len(),
                    all == names_view(names@),
                    compose_any(line@) == Some((all, value@)),
                    key_chars(all, keysymdef@) == match key_chars(all.skip(i as int), keysymdef@) {
                        None => None,
                        Some(r) => Some(key@ + r),
                    },
                decreases names@.len() - i,
            {
                proof {
                    assert(all.skip(i as int).drop_first() =~= all.skip(i + 1));
                    assert(all.skip(i as int)[0] == names@[i as int]@);
                }
                let name = chars_to_string(&names[i]);
                match keysymdef.get_key(name.as_str()) {
                    Ok(c) => {
                        let ghost old_key = key@;
                        key.push(*c);
                        proof {
                            assert forall|r: Seq<char>| old_key + (seq![*c] + r) =~= key@ + r by {}
                        }
                    },
                    Err(_) => {
                        assert(name@ == all.skip(i as int)[0]);
                        assert(key_chars(all.skip(i as int), keysymdef@) is None);
                        assert(key_chars(all, keysymdef@) is None);
                        return Err(SequenceTranslatorError::InvalidKeyname);
                    },
                }
                i += 1;
            }
            proof {
                assert(all.skip(i as int) =~= Seq::<Seq<char>>::empty());
                assert(key@ + Seq::<char>::empty() =~= key@);
            }
            if value.len() == 0 {
                assert(false);
                return Err(SequenceTranslatorError::RegexParse);
            }
            Ok((chars_to_string(&key), MappedString::Basic(value[0])))
        },
    }
}

/// The line that reading a `Compose` file lists for the line `s`: the keys
/// of the sequence and its text, or, for a line that does not decode, the
/// line itself in `Debug` form behind `// `.
pub open spec fn compose_log_line(s: Seq<char>, keys: Map<Seq<char>, char>) -> Seq<char> {
    match decode_entry_spec(s, keys) {
        Ok((k, v)) => k + seq![' '] + mapped_text(v),
        Err(_) => seq!['/', '/', ' '] + debug_text(s),
    }
}

/// The lines that reading the `Compose` lines `lines` lists, one for each
/// of them; see `compose_log_line`.
pub fn compose_list_lines(keysym: &KeySymDef, lines: &Vec<String>) -> (r: Vec<String>)
    requires
        forall|i: int|
            0 <= i < lines@.len() ==> !decode_entry_panics(#[trigger] lines@[i]@, keysym@),
    ensures
        r@.len() == lines@.len(),
        forall|i: int|
            0 <= i < lines@.len() ==> (#[trigger] r@[i])@ == compose_log_line(lines@[i]@, keysym@),
{
    let mut r: Vec<String> = Vec::new();
    let mut i: usize = 0;
    while i < lines.len()
        invariant
            i <= lines@.len(),
            r@.len() == i,
            forall|m: int|
                0 <= m < lines@.len() ==> !decode_entry_panics(#[trigger] lines@[m]@, keysym@),
            forall|m: int|
                0 <= m < i ==> (#[trigger] r@[m])@ == compose_log_line(lines@[m]@, keysym@),
        decreases lines@.len() - i,
    {
        let line = match decode_entry(lines[i].as_str(), keysym) {
            Ok((k, v)) => {
                let mut c = str_chars(k.as_str());
                c.push(' ');
                let t = v.to_string();
                let tc = str_chars(t.as_str());
                let ghost head = c@;
                let mut j: usize = 0;
                while j < tc.len()
                    invariant
                        j <= tc@.len(),
                        c@ == head + tc@.take(j as int),
                    decreases tc@.len() - j,
                {
                    c.push(tc[j]);
                    j += 1;
                    assert(c@ =~= head + tc@.take(j as int));
                }
                assert(tc@.take(j as int) =~= tc@);
                assert(c@ =~= k@ + seq![' '] + mapped_text(v@));
                chars_to_string(&c)
            },
            Err(_) => {
                let d = str_debug(lines[i].as_str());
                let mut c = vec!['/', '/', ' '];
                let dc = str_chars(d.as_str());
                let ghost head = c@;
                let mut j: usize = 0;
                while j < dc.len()
                    invariant
                        j <= dc@.len(),
                        c@ == head + dc@.take(j as int),
                    decreases dc@.len() - j,
                {
                    c.push(dc[j]);
                    j += 1;
                    assert(c@ =~= head + dc@.take(j as int));
                }
                assert(dc@.take(j as int) =~= dc@);
                assert(c@ =~= seq!['/', '/', ' '] + debug_text(lines@[i as int]@));
                chars_to_string(&c)
            },
        };
        r.push(line);
        i += 1;
    }
    r
}

/// The sequences of a `Compose` file with what they produce, in increasing
/// order of their characters.
pub struct ComposeDef {
    content: Vec<(Vec<char>, MappedString)>,
}

impl View for ComposeDef {
    type V = Seq<(Seq<char>, MappedView)>;

    closed spec fn view(&self) -> Seq<(Seq<char>, MappedView)> {
        self.content@.map_values(|e: (Vec<char>, MappedString)| (e.0@, e.1@))
    }
}

impl ComposeDef {
    /// The table is ordered and binds no sequence twice.
    pub open spec fn wf(&self) -> bool {
        sorted_keys(self@)
    }

    fn empty() -> (r: ComposeDef)
        ensures
            r@ == Seq::<(Seq<char>, MappedView)>::empty(),
            r.wf(),
    {
        let r = ComposeDef { content: Vec::new() };
        assert(r@ =~= Seq::<(Seq<char>, MappedView)>::empty());
        r
    }

    /// Binds `key` to `value`, replacing an earlier binding.
    fn insert(&mut self, key: Vec<char>, value: MappedString)
        requires
            old(self).wf(),
        ensures
            final(self).wf(),
            final(self)@ == sorted_insert(old(self)@, key@, value@),
    {
        let ghost e = self@;
        let mut lo: usize = 0;
        let mut hi: usize = self.content.len();
        while lo < hi
            invariant
                0 <= lo <= hi <= self.content@.len(),
                e == self@,
                self.wf(),
                forall|i: int| 0 <= i < lo ==> seq_lt(#[trigger] e[i].0, key@),
                forall|i: int| hi <= i < e.len() ==> !seq_lt(#[trigger] e[i].0, key@),
            decreases hi - lo,
        {
            let mid = lo + (hi - lo) / 2;
            assert(e[mid as int].0 == self.content@[mid as int].0@);
            if chars_lt(&self.content[mid].0, &key) {
                assert forall|i: int| 0 <= i < mid + 1 implies seq_lt(#[trigger] e[i].0, key@) by {
                    if i < mid {
                        lemma_seq_lt_transitive(e[i].0, e[mid as int].0, key@);
                    }
                }
                lo = mid + 1;
            } else {
                assert forall|i: int| mid <= i < e.len() implies !seq_lt(#[trigger] e[i].0, key@) by {
                    if i > mid && seq_lt(e[i].0, key@) {
                        lemma_seq_lt_transitive(e[mid as int].0, e[i].0, key@);
                    }
                }
                hi = mid;
            }
        }
        proof {
            lemma_sorted_insert_at(e, lo as int, key@, value@);
        }
        let ghost kv = key@;
        let ghost vv = value@;
        if lo < self.content.len() && chars_eq(&self.content[lo].0, &key) {
            self.content.set(lo, (key, value));
            assert(self@ =~= e.update(lo as int, (kv, vv)));
        } else {
            self.content.insert(lo, (key, value));
            assert(self@ =~= e.insert(lo as int, (kv, vv)));
        }
    }

    /// Reads the lines of a `Compose` file with the keysyms of `keysym`; see
    /// `compose_table`.
    pub fn build(keysym: &KeySymDef, lines: &Vec<String>) -> (r: ComposeDef)
        requires
            forall|i: int|
                0 <= i < lines@.len() ==> !decode_entry_panics(#[trigger] lines@[i]@, keysym@),
        ensures
            r.wf(),
            r@ == compose_table(lines_view(lines@), keysym@),
    {
        let mut def = ComposeDef::empty();
        let mut i: usize = 0;
        while i < lines.len()
            invariant
                i <= lines@.len(),
                def.wf(),
                forall|m: int|
                    0 <= m < lines@.len() ==> !decode_entry_panics(
                        #[trigger] lines@[m]@,
                        keysym@,
                    ),
                def@ == compose_lines_table(lines_view(lines@).take(i as int), keysym@),
            decreases lines@.len() - i,
        {
            let ghost next = lines_view(lines@).take(i + 1);
            assert(next.drop_last() =~= lines_view(lines@).take(i as int));
            assert(next.last() == lines@[i as int]@);
            match decode_entry(lines[i].as_str(), keysym) {
                Ok((k, v)) => {
                    let kc = str_chars(k.as_str());
                    def.insert(kc, v);
                },
                Err(_) => {},
            }
            i += 1;
        }
        assert(lines_view(lines@).take(i as int) =~= lines_view(lines@));
        let w = vec!['w', 'k', 'w', 'k'];
        assert(w@ =~= wkwk());
        def.insert(w, MappedString::Basic('\u{1F923}'));
        let p = vec!['p', 'r'];
        assert(p@ =~= pr());
        let pv = vec!['p', 'e', 'r', 'a', 'd', 'a', 'b', 'a', 'n'];
        assert(pv@ =~= peradaban());
        def.insert(p, MappedString::Extra(chars_to_string(&pv)));
        def
    }

    /// Number of sequences.
    pub fn len(&self) -> (r: usize)
        ensures
            r == self@.len(),
    {
        self.content.len()
    }

    /// The `i`-th sequence in order, as a string, with what it produces.
    pub fn entry(&self, i: usize) -> (r: (String, MappedString))
        requires
            i < self@.len(),
        ensures
            r.0@ == self@[i as int].0,
            r.1@ == self@[i as int].1,
    {
        let k = chars_to_string(&self.content[i].0);
        let v = match &self.content[i].1 {
            MappedString::Basic(c) => MappedString::Basic(*c),
            MappedString::Extra(s) => MappedString::Extra(s.clone()),
        };
        (k, v)
    }

    /// The pairs of the table in order, as `into_iter` yields them.
    pub fn into_vec(self) -> (r: Vec<(String, MappedString)>)
        ensures
            r@.len() == self@.len(),
            forall|i: int|
                0 <= i < r@.len() ==> (#[trigger] r@[i]).0@ == self@[i].0 && r@[i].1@ == self@[i].1,
    {
        let mut r: Vec<(String, MappedString)> = Vec::new();
        let mut i: usize = 0;
        while i < self.content.len()
            invariant
                i <= self@.len(),
                r@.len() == i,
                forall|m: int|
                    0 <= m < i ==> (#[trigger] r@[m]).0@ == self@[m].0 && r@[m].1@ == self@[m].1,
            decreases self@.len() - i,
        {
            r.push(self.entry(i));
            i += 1;
        }
        r
    }
}

} // verus!
