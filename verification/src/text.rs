//! Character classes, scanning and small string helpers shared by the
//! line grammars and the sequence tables.
use vstd::prelude::*;

verus! {

/// Unicode `White_Space`: the characters that `\s` matches in a regular
/// expression and that `char::is_whitespace` accepts.
pub open spec fn is_space(c: char) -> bool {
    ||| ('\u{9}' <= c && c <= '\u{d}')
    ||| c == ' '
    ||| c == '\u{85}'
    ||| c == '\u{a0}'
    ||| c == '\u{1680}'
    ||| ('\u{2000}' <= c && c <= '\u{200a}')
    ||| c == '\u{2028}'
    ||| c == '\u{2029}'
    ||| c == '\u{202f}'
    ||| c == '\u{205f}'
    ||| c == '\u{3000}'
}

/// `[a-zA-Z0-9_]`
pub open spec fn is_word(c: char) -> bool {
    ||| ('a' <= c && c <= 'z')
    ||| ('A' <= c && c <= 'Z')
    ||| ('0' <= c && c <= '9')
    ||| c == '_'
}

/// `[0-9a-f]`
pub open spec fn is_lower_hex(c: char) -> bool {
    ('0' <= c && c <= '9') || ('a' <= c && c <= 'f')
}

/// `[0-9A-F]`
pub open spec fn is_upper_hex(c: char) -> bool {
    ('0' <= c && c <= '9') || ('A' <= c && c <= 'F')
}

/// A hexadecimal digit of either case.
pub open spec fn is_hex(c: char) -> bool {
    is_lower_hex(c) || is_upper_hex(c)
}

/// The classes of characters that the scanners below skip over.
#[derive(Clone, Copy, PartialEq, Eq, Debug)]
pub enum CharClass {
    Word,
    Space,
    LowerHex,
    UpperHex,
    NotSpace,
}

pub open spec fn in_class(k: CharClass, c: char) -> bool {
    match k {
        CharClass::Word => is_word(c),
        CharClass::Space => is_space(c),
        CharClass::LowerHex => is_lower_hex(c),
        CharClass::UpperHex => is_upper_hex(c),
        CharClass::NotSpace => !is_space(c),
    }
}

/// The end of the longest run of characters of class `k` that starts at `i`.
pub open spec fn run_end(s: Seq<char>, i: int, k: CharClass) -> int
    decreases s.len() - i,
{
    if i < 0 || i >= s.len() || !in_class(k, s[i]) {
        i
    } else {
        run_end(s, i + 1, k)
    }
}

pub proof fn lemma_run_end(s: Seq<char>, i: int, k: CharClass)
    requires
        0 <= i <= s.len(),
    ensures
        i <= run_end(s, i, k) <= s.len(),
        forall|j: int| i <= j < run_end(s, i, k) ==> in_class(k, #[trigger] s[j]),
        run_end(s, i, k) < s.len() ==> !in_class(k, s[run_end(s, i, k)]),
    decreases s.len() - i,
{
    if i < s.len() && in_class(k, s[i]) {
        lemma_run_end(s, i + 1, k);
    }
}

/// Length of `s` once trailing white space is removed.
pub open spec fn trim_end_len(s: Seq<char>) -> int {
    trim_end_from(s, s.len() as int)
}

pub open spec fn trim_end_from(s: Seq<char>, t: int) -> int
    decreases t,
{
    if t <= 0 || t > s.len() {
        0
    } else if !is_space(s[t - 1]) {
        t
    } else {
        trim_end_from(s, t - 1)
    }
}

pub proof fn lemma_trim_end_from(s: Seq<char>, t: int)
    requires
        0 <= t <= s.len(),
    ensures
        0 <= trim_end_from(s, t) <= t,
        forall|j: int| trim_end_from(s, t) <= j < t ==> is_space(#[trigger] s[j]),
        trim_end_from(s, t) > 0 ==> !is_space(s[trim_end_from(s, t) - 1]),
    decreases t,
{
    if t > 0 && is_space(s[t - 1]) {
        lemma_trim_end_from(s, t - 1);
    }
}

/// `lit` occurs in `s` at position `i`.
pub open spec fn lit_at(s: Seq<char>, i: int, lit: Seq<char>) -> bool {
    0 <= i && i + lit.len() <= s.len() && s.subrange(i, i + lit.len()) == lit
}

/// No character of `s[from..to]` is a line feed.
pub open spec fn no_newline(s: Seq<char>, from: int, to: int) -> bool {
    forall|j: int| from <= j < to ==> #[trigger] s[j] != '\n'
}

pub fn class_contains(k: CharClass, c: char) -> (r: bool)
    ensures
        r == in_class(k, c),
{
    match k {
        CharClass::Word => ('a' <= c && c <= 'z') || ('A' <= c && c <= 'Z') || ('0' <= c && c
            <= '9') || c == '_',
        CharClass::Space => char_is_space(c),
        CharClass::LowerHex => ('0' <= c && c <= '9') || ('a' <= c && c <= 'f'),
        CharClass::UpperHex => ('0' <= c && c <= '9') || ('A' <= c && c <= 'F'),
        CharClass::NotSpace => !char_is_space(c),
    }
}

pub fn char_is_space(c: char) -> (r: bool)
    ensures
        r == is_space(c),
{
    ('\u{9}' <= c && c <= '\u{d}') || c == ' ' || c == '\u{85}' || c == '\u{a0}' || c
        == '\u{1680}' || ('\u{2000}' <= c && c <= '\u{200a}') || c == '\u{2028}' || c == '\u{2029}'
        || c == '\u{202f}' || c == '\u{205f}' || c == '\u{3000}'
}

/// Skips the run of class `k` that starts at `i`.
pub fn scan_class(s: &Vec<char>, i: usize, k: CharClass) -> (e: usize)
    requires
        i <= s@.len(),
    ensures
        e as int == run_end(s@, i as int, k),
        i <= e <= s@.len(),
{
    let mut j = i;
    while j < s.len() && class_contains(k, s[j])
        invariant
            i <= j <= s@.len(),
            run_end(s@, j as int, k) == run_end(s@, i as int, k),
        decreases s@.len() - j,
    {
        j += 1;
    }
    j
}

/// Length of `s[..t]` once trailing white space is removed.
pub fn trim_end_index(s: &Vec<char>, t: usize) -> (r: usize)
    requires
        t <= s@.len(),
    ensures
        r as int == trim_end_from(s@, t as int),
        r <= t,
{
    let mut j = t;
    while j > 0 && char_is_space(s[j - 1])
        invariant
            j <= t <= s@.len(),
            trim_end_from(s@, j as int) == trim_end_from(s@, t as int),
        decreases j,
    {
        j -= 1;
    }
    j
}

/// Does `lit` occur in `s` at position `i`?
pub fn match_lit(s: &Vec<char>, i: usize, lit: &[char]) -> (r: bool)
    ensures
        r == lit_at(s@, i as int, lit@),
{
    if i > s.len() || lit.len() > s.len() - i {
        return false;
    }
    let mut j: usize = 0;
    while j < lit.len()
        invariant
            i + lit@.len() <= s@.len(),
            i <= s@.len(),
            s@.len() <= usize::MAX,
            j <= lit@.len(),
            lit@.len() == lit.len(),
            forall|m: int| 0 <= m < j ==> s@[i + m] == lit@[m],
        decreases lit@.len() - j,
    {
        if s[i + j] != lit[j] {
            assert(s@.subrange(i as int, i + lit@.len())[j as int] != lit@[j as int]);
            return false;
        }
        j += 1;
    }
    assert(s@.subrange(i as int, i + lit@.len()) =~= lit@);
    true
}

/// Is there a line feed in `s[from..to]`?
pub fn find_newline(s: &Vec<char>, from: usize, to: usize) -> (r: bool)
    requires
        from <= to <= s@.len(),
    ensures
        r == !no_newline(s@, from as int, to as int),
{
    let mut j = from;
    while j < to
        invariant
            from <= j <= to <= s@.len(),
            no_newline(s@, from as int, j as int),
        decreases to - j,
    {
        if s[j] == '\n' {
            return true;
        }
        j += 1;
    }
    false
}

/// The characters of `s`, in order.
pub fn str_chars(s: &str) -> (v: Vec<char>)
    ensures
        v@ == s@,
{
    let n = s.unicode_len();
    let mut v: Vec<char> = Vec::new();
    let mut i: usize = 0;
    while i < n
        invariant
            n as int == s@.len(),
            i <= n,
            v@ == s@.subrange(0, i as int),
        decreases n - i,
    {
        v.push(s.get_char(i));
        i += 1;
        assert(v@ =~= s@.subrange(0, i as int));
    }
    assert(v@ =~= s@);
    v
}

/// The string `s[from..to]`.
pub fn substring(s: &str, from: usize, to: usize) -> (r: String)
    requires
        from <= to <= s@.len(),
    ensures
        r@ == s@.subrange(from as int, to as int),
{
    s.substring_char(from, to).to_owned()
}


/// The value of a hexadecimal digit.
pub open spec fn hex_digit(c: char) -> int {
    if '0' <= c && c <= '9' {
        c as int - 48
    } else if 'a' <= c && c <= 'f' {
        c as int - 87
    } else {
        c as int - 55
    }
}

/// The number that the hexadecimal digits `s` denote.
pub open spec fn hex_value(s: Seq<char>) -> nat
    decreases s.len(),
{
    if s.len() == 0 {
        0
    } else {
        (hex_value(s.drop_last()) * 16 + hex_digit(s.last())) as nat
    }
}

pub open spec fn all_hex(s: Seq<char>) -> bool {
    forall|i: int| 0 <= i < s.len() ==> is_hex(#[trigger] s[i])
}

pub open spec fn pow16(n: nat) -> nat
    decreases n,
{
    if n == 0 {
        1
    } else {
        16 * pow16((n - 1) as nat)
    }
}

/// What `u32::from_str_radix(s, 16)` gives: an optional `+`, then at least
/// one hexadecimal digit of either case, and a value that fits in a `u32`.
pub open spec fn radix16_u32(s: Seq<char>) -> Option<u32> {
    let body = if s.len() > 0 && s[0] == '+' {
        s.drop_first()
    } else {
        s
    };
    if body.len() == 0 || !all_hex(body) || hex_value(body) > u32::MAX {
        None
    } else {
        Some(hex_value(body) as u32)
    }
}

/// `v` is a Unicode scalar value: the number of some `char`.
pub open spec fn is_scalar(v: int) -> bool {
    0 <= v <= 0x10FFFF && !(0xD800 <= v <= 0xDFFF)
}

pub proof fn lemma_hex_value_take(s: Seq<char>, k: int)
    requires
        0 <= k <= s.len(),
        all_hex(s),
    ensures
        hex_value(s) >= hex_value(s.take(k)),
    decreases s.len(),
{
    if k < s.len() {
        assert(s.drop_last().take(k) =~= s.take(k));
        lemma_hex_value_take(s.drop_last(), k);
        assert(hex_digit(s.last()) >= 0);
    } else {
        assert(s.take(k) =~= s);
    }
}

pub proof fn lemma_hex_value_bound(s: Seq<char>)
    requires
        all_hex(s),
    ensures
        hex_value(s) < pow16(s.len()),
    decreases s.len(),
{
    if s.len() > 0 {
        lemma_hex_value_bound(s.drop_last());
        assert(hex_digit(s.last()) < 16);
    }
}

/// `u32::from_str_radix(s[from..to], 16)`, written out.
pub fn parse_radix16_u32(s: &Vec<char>, from: usize, to: usize) -> (r: Option<u32>)
    requires
        from <= to <= s@.len(),
    ensures
        r == radix16_u32(s@.subrange(from as int, to as int)),
{
    let ghost whole = s@.subrange(from as int, to as int);
    let mut start = from;
    if from < to && s[from] == '+' {
        start = from + 1;
    }
    let ghost body = s@.subrange(start as int, to as int);
    assert(body =~= (if whole.len() > 0 && whole[0] == '+' {
        whole.drop_first()
    } else {
        whole
    }));
    if start == to {
        return None;
    }
    let mut acc: u64 = 0;
    let mut i = start;
    while i < to
        invariant
            start <= i <= to <= s@.len(),
            body == s@.subrange(start as int, to as int),
            whole == s@.subrange(from as int, to as int),
            body == (if whole.len() > 0 && whole[0] == '+' {
                whole.drop_first()
            } else {
                whole
            }),
            body.len() > 0,
            all_hex(body.take(i - start)),
            acc == hex_value(body.take(i - start)),
            acc <= u32::MAX,
        decreases to - i,
    {
        let c = s[i];
        let d: u64 = if '0' <= c && c <= '9' {
            (c as u32 - '0' as u32) as u64
        } else if 'a' <= c && c <= 'f' {
            (c as u32 - 'a' as u32 + 10) as u64
        } else if 'A' <= c && c <= 'F' {
            (c as u32 - 'A' as u32 + 10) as u64
        } else {
            assert(!is_hex(body[i - start]));
            return None;
        };
        let ghost prev = body.take(i - start);
        acc = acc * 16 + d;
        i += 1;
        assert(body.take(i - start).drop_last() =~= prev);
        assert(body.take(i - start).last() == c);
        assert(all_hex(body.take(i - start)));
        if acc > 0xFFFF_FFFF {
            proof {
                if all_hex(body) {
                    lemma_hex_value_take(body, i - start);
                }
            }
            return None;
        }
    }
    assert(body.take(i - start) =~= body);
    Some(acc as u32)
}

/// `char::from_u32`: the `char` whose number is `v`, if `v` is a Unicode
/// scalar value.
#[verifier::external_body]
pub(crate) fn char_from_u32(v: u32) -> (r: Option<char>)
    ensures
        r is Some <==> is_scalar(v as int),
        r matches Some(c) ==> c as u32 == v && c == v as char,
{
    char::from_u32(v)
}


/// `char::to_string`: the string of the one character `c`.
#[verifier::external_body]
pub(crate) fn char_to_string(c: char) -> (r: String)
    ensures
        r@ == seq![c],
{
    c.to_string()
}

/// The string of the characters `v`.
pub fn chars_to_string(v: &Vec<char>) -> (r: String)
    ensures
        r@ == v@,
{
    let mut r = String::new();
    let mut i: usize = 0;
    while i < v.len()
        invariant
            i <= v@.len(),
            r@ == v@.take(i as int),
        decreases v@.len() - i,
    {
        let piece = char_to_string(v[i]);
        r.append(piece.as_str());
        i += 1;
        assert(r@ =~= v@.take(i as int));
    }
    assert(v@.take(i as int) =~= v@);
    r
}

/// `needle` occurs somewhere in `hay`; the empty text occurs everywhere.
pub open spec fn contains_seq(hay: Seq<char>, needle: Seq<char>) -> bool {
    exists|i: int| #[trigger] lit_at(hay, i, needle)
}

/// `str::contains` for a text pattern: whether `needle` occurs in `hay`.
pub fn contains_chars(hay: &Vec<char>, needle: &Vec<char>) -> (r: bool)
    ensures
        r == contains_seq(hay@, needle@),
{
    if needle.len() > hay.len() {
        return false;
    }
    let last = hay.len() - needle.len();
    let mut i: usize = 0;
    while i < last
        invariant
            last == hay@.len() - needle@.len(),
            i <= last,
            forall|j: int| 0 <= j < i ==> !lit_at(hay@, j, needle@),
        decreases last - i,
    {
        if match_lit(hay, i, needle.as_slice()) {
            return true;
        }
        i += 1;
    }
    let r = match_lit(hay, last, needle.as_slice());
    assert(!r ==> forall|j: int| !lit_at(hay@, j, needle@)) by {
        if !r {
            assert forall|j: int| !lit_at(hay@, j, needle@) by {
                if 0 <= j < i {
                }
            }
        }
    }
    r
}

/// What `format!("{:?}", s)` gives for the text `s`: the text quoted,
/// with the characters that `Debug` escapes written as escapes.
pub uninterp spec fn debug_text(s: Seq<char>) -> Seq<char>;

/// `Debug` formatting of a string, whose result depends on `s` alone.
#[verifier::external_body]
pub(crate) fn str_debug(s: &str) -> (r: String)
    ensures
        r@ == debug_text(s@),
{
    format!("{:?}", s)
}

/// What `str::to_lowercase` gives for `s`: its characters mapped to lower
/// case by the Unicode case tables.
pub uninterp spec fn lowercase(s: Seq<char>) -> Seq<char>;

/// What `str::to_uppercase` gives for `s`: its characters mapped to upper
/// case by the Unicode case tables.
pub uninterp spec fn uppercase(s: Seq<char>) -> Seq<char>;

/// `str::to_lowercase`, whose result depends on `s` alone.
#[verifier::external_body]
pub(crate) fn str_to_lowercase(s: &str) -> (r: String)
    ensures
        r@ == lowercase(s@),
{
    s.to_lowercase()
}

/// `str::to_uppercase`, whose result depends on `s` alone.
#[verifier::external_body]
pub(crate) fn str_to_uppercase(s: &str) -> (r: String)
    ensures
        r@ == uppercase(s@),
{
    s.to_uppercase()
}

/// The words of `s[i..]` that `str::split_whitespace` yields: the maximal
/// runs of characters that are not white space.
pub open spec fn words_from(s: Seq<char>, i: int) -> Seq<Seq<char>>
    decreases s.len() - i,
{
    let a = run_end(s, i, CharClass::Space);
    if i < 0 || a >= s.len() {
        Seq::empty()
    } else {
        let b = run_end(s, a, CharClass::NotSpace);
        if b <= i || b > s.len() {
            Seq::empty()
        } else {
            seq![s.subrange(a, b)] + words_from(s, b)
        }
    }
}

/// The words of a text are not empty and hold no white space.
pub proof fn lemma_words_from(s: Seq<char>, i: int)
    requires
        0 <= i <= s.len(),
    ensures
        forall|k: int|
            0 <= k < words_from(s, i).len() ==> (#[trigger] words_from(s, i)[k]).len() > 0
                && forall|j: int|
                0 <= j < words_from(s, i)[k].len() ==> !is_space(words_from(s, i)[k][j]),
    decreases s.len() - i,
{
    let a = run_end(s, i, CharClass::Space);
    lemma_run_end(s, i, CharClass::Space);
    if a < s.len() {
        let b = run_end(s, a, CharClass::NotSpace);
        lemma_run_end(s, a, CharClass::NotSpace);
        assert(!in_class(CharClass::Space, s[a]));
        if b > i && b <= s.len() {
            lemma_words_from(s, b);
            let w = s.subrange(a, b);
            let rest = words_from(s, b);
            assert forall|k: int| 0 <= k < words_from(s, i).len() implies (#[trigger] words_from(
                s,
                i,
            )[k]).len() > 0 && forall|j: int|
                0 <= j < words_from(s, i)[k].len() ==> !is_space(words_from(s, i)[k][j]) by {
                if k == 0 {
                    assert(words_from(s, i)[0] == w);
                    assert forall|j: int| 0 <= j < w.len() implies !is_space(w[j]) by {
                        assert(w[j] == s[a + j]);
                        assert(in_class(CharClass::NotSpace, s[a + j]));
                    }
                } else {
                    assert(words_from(s, i)[k] == rest[k - 1]);
                }
            }
        }
    }
}

/// `str::split_whitespace`, collected.
pub fn split_whitespace(text: &str) -> (r: Vec<String>)
    ensures
        r@.map_values(|w: String| w@) == words_from(text@, 0),
{
    let s = str_chars(text);
    let mut r: Vec<String> = Vec::new();
    let mut i: usize = 0;
    assert(r@.map_values(|w: String| w@) + words_from(s@, 0) =~= words_from(s@, 0));
    while i < s.len()
        invariant
            s@ == text@,
            i <= s@.len(),
            r@.map_values(|w: String| w@) + words_from(s@, i as int) == words_from(s@, 0),
        decreases s@.len() - i,
    {
        let a = scan_class(&s, i, CharClass::Space);
        if a >= s.len() {
            assert(words_from(s@, i as int) =~= Seq::<Seq<char>>::empty());
            assert(r@.map_values(|w: String| w@) + Seq::<Seq<char>>::empty() =~= r@.map_values(|w: String| w@));
            return r;
        }
        let b = scan_class(&s, a, CharClass::NotSpace);
        proof {
            lemma_run_end(s@, i as int, CharClass::Space);
            lemma_run_end(s@, a as int, CharClass::NotSpace);
            assert(!in_class(CharClass::Space, s@[a as int]));
        }
        let mut w: Vec<char> = Vec::new();
        let mut j = a;
        while j < b
            invariant
                a <= j <= b <= s@.len(),
                w@ == s@.subrange(a as int, j as int),
            decreases b - j,
        {
            w.push(s[j]);
            j += 1;
            assert(w@ =~= s@.subrange(a as int, j as int));
        }
        let ghost before = r@.map_values(|x: String| x@);
        r.push(chars_to_string(&w));
        assert(r@.map_values(|x: String| x@) =~= before.push(s@.subrange(a as int, b as int)));
        assert(before + words_from(s@, i as int) =~= r@.map_values(|x: String| x@) + words_from(
            s@,
            b as int,
        ));
        i = b;
    }
    assert(words_from(s@, i as int) =~= Seq::<Seq<char>>::empty());
    assert(r@.map_values(|w: String| w@) + Seq::<Seq<char>>::empty() =~= r@.map_values(|w: String| w@));
    r
}

/// The decimal digits of `n`.
pub open spec fn decimal(n: nat) -> Seq<char>
    decreases n,
{
    if n < 10 {
        seq![(n + 48) as char]
    } else {
        decimal(n / 10) + seq![((n % 10) + 48) as char]
    }
}

/// The decimal digits of `n`, as `Display` writes a number.
pub fn decimal_digits(n: u64) -> (r: Vec<char>)
    ensures
        r@ == decimal(n as nat),
    decreases n,
{
    if n < 10 {
        let d = char_from_u32(n as u32 + 48).unwrap();
        let mut r: Vec<char> = Vec::new();
        r.push(d);
        assert(r@ =~= decimal(n as nat));
        r
    } else {
        let mut r = decimal_digits(n / 10);
        let d = char_from_u32((n % 10) as u32 + 48).unwrap();
        r.push(d);
        assert(r@ =~= decimal(n as nat));
        r
    }
}

} // verus!
