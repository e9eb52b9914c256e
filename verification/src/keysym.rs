//! The line grammar of X11's `keysymdef.h` and the table of keysyms that
//! carry a Unicode character.
use vstd::prelude::*;
use crate::assoc::StringTable;
use crate::error::SequenceTranslatorError;
use crate::text::{
    all_hex, char_from_u32, chars_to_string, is_lower_hex, hex_value, is_scalar, is_upper_hex, lemma_hex_value_bound, parse_radix16_u32,
    pow16, radix16_u32,
    CharClass, find_newline, in_class, is_space, lemma_run_end, lemma_trim_end_from, lit_at,
    match_lit, no_newline, run_end, scan_class, str_chars, substring, trim_end_from, trim_end_index,
    trim_end_len,
};

verus! {

/// What every keysym line starts with.
pub open spec fn define_xk() -> Seq<char> {
    seq!['#', 'd', 'e', 'f', 'i', 'n', 'e', ' ', 'X', 'K', '_']
}

/// What the hexadecimal value of a keysym starts with.
pub open spec fn hex_prefix() -> Seq<char> {
    seq!['0', 'x']
}

/// What the name of a keypad keysym starts with.
pub open spec fn keypad_prefix() -> Seq<char> {
    seq!['K', 'P', '_']
}

/// What opens a block comment.
pub open spec fn comment_open() -> Seq<char> {
    seq!['/', '*']
}

/// What closes a block comment.
pub open spec fn comment_close() -> Seq<char> {
    seq!['*', '/']
}

/// What opens the comment of a deprecated keysym.
pub open spec fn deprecated_open() -> Seq<char> {
    seq!['/', '*', ' ']
}

/// The word that marks a keysym as deprecated.
pub open spec fn deprecated_word() -> Seq<char> {
    seq!['d', 'e', 'p', 'r', 'e', 'c', 'a', 't', 'e', 'd']
}

/// What closes the comment of a deprecated keysym.
pub open spec fn deprecated_close() -> Seq<char> {
    seq![' ', '*', '/']
}

/// What the code point in the comment of a Unicode keysym starts with.
pub open spec fn unicode_marker() -> Seq<char> {
    seq!['U', '+']
}

/// The part shared by every keysym line: `#define XK_<name> 0x<hex>` followed
/// by optional white space. Gives the end of the name, the start and end of
/// the hexadecimal value, and where the text after the value starts.
pub open spec fn keysym_head(s: Seq<char>) -> Option<(int, int, int, int)> {
    if !lit_at(s, 0, define_xk()) {
        None
    } else {
        let ne = run_end(s, 11, CharClass::Word);
        let we = run_end(s, ne, CharClass::Space);
        if ne == 11 || we == ne || !lit_at(s, we, hex_prefix()) {
            None
        } else {
            let ve = run_end(s, we + 2, CharClass::LowerHex);
            if ve == we + 2 {
                None
            } else {
                Some((ne, we + 2, ve, run_end(s, ve, CharClass::Space)))
            }
        }
    }
}

/// `s[a..b]` is a C comment `/* ... */` on one line.
pub open spec fn is_block_comment(s: Seq<char>, a: int, b: int) -> bool {
    &&& b - a >= 4
    &&& lit_at(s, a, comment_open())
    &&& lit_at(s, b - 2, comment_close())
    &&& no_newline(s, a, b)
}

/// `s[a..b]` is a comment whose first inner character is one of ` |<` and
/// whose last inner character is one of ` |>`.
pub open spec fn is_keypad_comment(s: Seq<char>, a: int, b: int) -> bool {
    &&& b - a >= 6
    &&& lit_at(s, a, comment_open())
    &&& (s[a + 2] == ' ' || s[a + 2] == '|' || s[a + 2] == '<')
    &&& (s[b - 3] == ' ' || s[b - 3] == '|' || s[b - 3] == '>')
    &&& lit_at(s, b - 2, comment_close())
    &&& no_newline(s, a, b)
}

/// `^#define XK_([a-zA-Z_0-9]+)\s+0x([0-9a-f]+)\s*(/\*.*\*/)?\s*$`:
/// the name, the value and the comment if there is one.
pub open spec fn general_keysym_spec(s: Seq<char>) -> Option<
    (Seq<char>, Seq<char>, Option<Seq<char>>),
> {
    match keysym_head(s) {
        None => None,
        Some((ne, vs, ve, rs)) => {
            let t = trim_end_len(s);
            if t <= ve {
                Some((s.subrange(11, ne), s.subrange(vs, ve), None))
            } else if is_block_comment(s, rs, t) {
                Some((s.subrange(11, ne), s.subrange(vs, ve), Some(s.subrange(rs, t))))
            } else {
                None
            }
        },
    }
}

/// `^#define XK_(KP_[a-zA-Z_0-9]+)\s+0x([0-9a-f]+)\s*(/\*[ |<].*[ |>]\*/)?\s*$`
pub open spec fn keypad_keysym_spec(s: Seq<char>) -> Option<
    (Seq<char>, Seq<char>, Option<Seq<char>>),
> {
    match keysym_head(s) {
        None => None,
        Some((ne, vs, ve, rs)) => {
            let t = trim_end_len(s);
            if !lit_at(s, 11, keypad_prefix()) || ne < 15 {
                None
            } else if t <= ve {
                Some((s.subrange(11, ne), s.subrange(vs, ve), None))
            } else if is_keypad_comment(s, rs, t) {
                Some((s.subrange(11, ne), s.subrange(vs, ve), Some(s.subrange(rs, t))))
            } else {
                None
            }
        },
    }
}

/// `^#define XK_([a-zA-Z_0-9]+)\s+0x([0-9a-f]+)\s*/\* (deprecated.*) \*/\s*$`
pub open spec fn deprecated_keysym_spec(s: Seq<char>) -> Option<
    (Seq<char>, Seq<char>, Seq<char>),
> {
    match keysym_head(s) {
        None => None,
        Some((ne, vs, ve, rs)) => {
            let t = trim_end_len(s);
            if t > ve && t - rs >= 16 && lit_at(s, rs, deprecated_open()) && lit_at(
                s,
                rs + 3,
                deprecated_word(),
            ) && lit_at(s, t - 3, deprecated_close()) && no_newline(s, rs, t) {
                Some((s.subrange(11, ne), s.subrange(vs, ve), s.subrange(rs + 3, t - 3)))
            } else {
                None
            }
        },
    }
}

/// A character that may stand before the `U+` of a Unicode keysym.
pub open spec fn unicode_opener(c: char, bracketed: bool) -> bool {
    c == ' ' || (bracketed && (c == '<' || c == '('))
}

/// A character that may stand after the code point of a Unicode keysym.
pub open spec fn unicode_closer(c: char, bracketed: bool) -> bool {
    c == ' ' || (bracketed && (c == '>' || c == ')'))
}

/// With `bracketed`:
/// `^#define XK_([a-zA-Z_0-9]+)\s+0x([0-9a-f]+)\s*/\*[ <(]U\+([0-9A-F]{4,6}) (.*)[ >)]\*/\s*$`;
/// without, the comment must read `/* U+XXXX description */`.
/// Gives the name, the value, the code point digits and the description.
pub open spec fn unicode_keysym_spec(s: Seq<char>, bracketed: bool) -> Option<
    (Seq<char>, Seq<char>, Seq<char>, Seq<char>),
> {
    match keysym_head(s) {
        None => None,
        Some((ne, vs, ve, rs)) => {
            let t = trim_end_len(s);
            let he = run_end(s, rs + 5, CharClass::UpperHex);
            if t > ve && rs + 5 <= t && lit_at(s, rs, comment_open()) && unicode_opener(
                s[rs + 2],
                bracketed,
            ) && lit_at(s, rs + 3, unicode_marker()) && 4 <= he - (rs + 5) <= 6 && he + 4 <= t
                && s[he] == ' ' && unicode_closer(s[t - 3], bracketed) && lit_at(
                s,
                t - 2,
                comment_close(),
            ) && no_newline(s, he + 1, t - 3) {
                Some(
                    (
                        s.subrange(11, ne),
                        s.subrange(vs, ve),
                        s.subrange(rs + 5, he),
                        s.subrange(he + 1, t - 3),
                    ),
                )
            } else {
                None
            }
        },
    }
}

/// What a keysym line pattern captured: the whole line, the name, the
/// hexadecimal value and the comment that follows.
#[derive(Clone, Debug, PartialEq, Eq)]
pub struct KeysymCaptures {
    pub whole: String,
    pub name: String,
    pub value: String,
    pub comment: Option<String>,
}

/// What the Unicode keysym pattern captured.
#[derive(Clone, Debug, PartialEq, Eq)]
pub struct UnicodeKeysymCaptures {
    pub whole: String,
    pub name: String,
    pub value: String,
    pub codepoint: String,
    pub description: String,
}

/// The view of an optional string.
pub open spec fn opt_view(o: Option<String>) -> Option<Seq<char>> {
    match o {
        Some(s) => Some(s@),
        None => None,
    }
}

/// The common head of a keysym line, as positions in `s`.
fn scan_keysym_head(s: &Vec<char>) -> (r: Option<(usize, usize, usize, usize)>)
    ensures
        match r {
            Some((a, b, c, d)) => keysym_head(s@) == Some((a as int, b as int, c as int, d as int))
                && 11 <= a && a < b && b < c && c <= d && d <= s@.len(),
            None => keysym_head(s@) is None,
        },
{
    let lit = ['#', 'd', 'e', 'f', 'i', 'n', 'e', ' ', 'X', 'K', '_'];
    assert(lit@ =~= define_xk());
    if !match_lit(s, 0, &lit) {
        return None;
    }
    let ne = scan_class(s, 11, CharClass::Word);
    let we = scan_class(s, ne, CharClass::Space);
    let hx = ['0', 'x'];
    assert(hx@ =~= hex_prefix());
    if ne == 11 || we == ne || !match_lit(s, we, &hx) {
        return None;
    }
    let n = s.len();
    assert(we + 2 <= n);
    let ve = scan_class(s, we + 2, CharClass::LowerHex);
    if ve == we + 2 {
        return None;
    }
    let rs = scan_class(s, ve, CharClass::Space);
    Some((ne, we + 2, ve, rs))
}

/// Matches `line` against the general keysym pattern.
pub fn general_keysym_captures(line: &str) -> (r: Option<KeysymCaptures>)
    ensures
        match r {
            Some(c) => general_keysym_spec(line@) == Some((c.name@, c.value@, opt_view(c.comment)))
                && c.whole@ == line@,
            None => general_keysym_spec(line@) is None,
        },
{
    let s = str_chars(line);
    match scan_keysym_head(&s) {
        None => None,
        Some((ne, vs, ve, rs)) => {
            let t = trim_end_index(&s, s.len());
            let comment = if t <= ve {
                None
            } else {
                let op = ['/', '*'];
                let cl = ['*', '/'];
                assert(op@ =~= comment_open());
                assert(cl@ =~= comment_close());
                proof {
                    lemma_trim_end_from(s@, s@.len() as int);
                    lemma_run_end(s@, ve as int, CharClass::Space);
                }
                if t - rs >= 4 && match_lit(&s, rs, &op) && match_lit(&s, t - 2, &cl)
                    && !find_newline(&s, rs, t) {
                    Some(substring(line, rs, t))
                } else {
                    return None;
                }
            };
            Some(
                KeysymCaptures {
                    whole: line.to_owned(),
                    name: substring(line, 11, ne),
                    value: substring(line, vs, ve),
                    comment,
                },
            )
        },
    }
}


/// Matches `line` against the keypad keysym pattern.
pub fn keypad_keysym_captures(line: &str) -> (r: Option<KeysymCaptures>)
    ensures
        match r {
            Some(c) => keypad_keysym_spec(line@) == Some((c.name@, c.value@, opt_view(c.comment)))
                && c.whole@ == line@,
            None => keypad_keysym_spec(line@) is None,
        },
{
    let s = str_chars(line);
    match scan_keysym_head(&s) {
        None => None,
        Some((ne, vs, ve, rs)) => {
            let kp = ['K', 'P', '_'];
            assert(kp@ =~= keypad_prefix());
            if !match_lit(&s, 11, &kp) || ne < 15 {
                return None;
            }
            let t = trim_end_index(&s, s.len());
            let comment = if t <= ve {
                None
            } else {
                let op = ['/', '*'];
                let cl = ['*', '/'];
                assert(op@ =~= comment_open());
                assert(cl@ =~= comment_close());
                proof {
                    lemma_trim_end_from(s@, s@.len() as int);
                    lemma_run_end(s@, ve as int, CharClass::Space);
                }
                if t - rs >= 6 && match_lit(&s, rs, &op) && (s[rs + 2] == ' ' || s[rs + 2] == '|'
                    || s[rs + 2] == '<') && (s[t - 3] == ' ' || s[t - 3] == '|' || s[t - 3] == '>')
                    && match_lit(&s, t - 2, &cl) && !find_newline(&s, rs, t) {
                    Some(substring(line, rs, t))
                } else {
                    return None;
                }
            };
            Some(
                KeysymCaptures {
                    whole: line.to_owned(),
                    name: substring(line, 11, ne),
                    value: substring(line, vs, ve),
                    comment,
                },
            )
        },
    }
}

/// Matches `line` against the deprecated keysym pattern; the comment holds
/// the text between `/* ` and ` */`.
pub fn deprecated_keysym_captures(line: &str) -> (r: Option<KeysymCaptures>)
    ensures
        match r {
            Some(c) => c.comment is Some && deprecated_keysym_spec(line@) == Some(
                (c.name@, c.value@, c.comment->0@),
            ) && c.whole@ == line@,
            None => deprecated_keysym_spec(line@) is None,
        },
{
    let s = str_chars(line);
    match scan_keysym_head(&s) {
        None => None,
        Some((ne, vs, ve, rs)) => {
            let t = trim_end_index(&s, s.len());
            if t <= ve {
                return None;
            }
            proof {
                lemma_trim_end_from(s@, s@.len() as int);
                lemma_run_end(s@, ve as int, CharClass::Space);
            }
            let op = ['/', '*', ' '];
            let word = ['d', 'e', 'p', 'r', 'e', 'c', 'a', 't', 'e', 'd'];
            let cl = [' ', '*', '/'];
            assert(op@ =~= deprecated_open());
            assert(word@ =~= deprecated_word());
            assert(cl@ =~= deprecated_close());
            if t - rs >= 16 && match_lit(&s, rs, &op) && match_lit(&s, rs + 3, &word) && match_lit(
                &s,
                t - 3,
                &cl,
            ) && !find_newline(&s, rs, t) {
                Some(
                    KeysymCaptures {
                        whole: line.to_owned(),
                        name: substring(line, 11, ne),
                        value: substring(line, vs, ve),
                        comment: Some(substring(line, rs + 3, t - 3)),
                    },
                )
            } else {
                None
            }
        },
    }
}

/// Matches `line` against the Unicode keysym pattern (see
/// `unicode_keysym_spec` for what `bracketed` allows).
pub fn unicode_keysym_captures(line: &str, bracketed: bool) -> (r: Option<UnicodeKeysymCaptures>)
    ensures
        match r {
            Some(c) => unicode_keysym_spec(line@, bracketed) == Some(
                (c.name@, c.value@, c.codepoint@, c.description@),
            ) && c.whole@ == line@,
            None => unicode_keysym_spec(line@, bracketed) is None,
        },
{
    let s = str_chars(line);
    match scan_keysym_head(&s) {
        None => None,
        Some((ne, vs, ve, rs)) => {
            let t = trim_end_index(&s, s.len());
            if t <= ve {
                return None;
            }
            proof {
                lemma_trim_end_from(s@, s@.len() as int);
                lemma_run_end(s@, ve as int, CharClass::Space);
            }
            if t - rs < 5 {
                return None;
            }
            let op = ['/', '*'];
            let um = ['U', '+'];
            let cl = ['*', '/'];
            assert(op@ =~= comment_open());
            assert(um@ =~= unicode_marker());
            assert(cl@ =~= comment_close());
            if !match_lit(&s, rs, &op) {
                return None;
            }
            let o = s[rs + 2];
            if !(o == ' ' || (bracketed && (o == '<' || o == '('))) {
                return None;
            }
            if !match_lit(&s, rs + 3, &um) {
                return None;
            }
            let he = scan_class(&s, rs + 5, CharClass::UpperHex);
            if he - (rs + 5) < 4 || he - (rs + 5) > 6 || he > t - 4 || s[he] != ' ' {
                return None;
            }
            let c = s[t - 3];
            if !(c == ' ' || (bracketed && (c == '>' || c == ')'))) {
                return None;
            }
            if !match_lit(&s, t - 2, &cl) || find_newline(&s, he + 1, t - 3) {
                return None;
            }
            Some(
                UnicodeKeysymCaptures {
                    whole: line.to_owned(),
                    name: substring(line, 11, ne),
                    value: substring(line, vs, ve),
                    codepoint: substring(line, rs + 5, he),
                    description: substring(line, he + 1, t - 3),
                },
            )
        },
    }
}


/// The views of a list of lines.
pub open spec fn lines_view(lines: Seq<String>) -> Seq<Seq<char>> {
    lines.map_values(|l: String| l@)
}

/// The table of keysym names to characters that the lines of a
/// `keysymdef.h` define: every line that matches the bracketed Unicode
/// pattern binds its name to the character of its code point, a later line
/// overriding an earlier one. A code point that is no Unicode scalar value
/// makes the whole table fail with `InvalidChar`.
pub open spec fn keysym_table(lines: Seq<Seq<char>>) -> Result<
    Map<Seq<char>, char>,
    SequenceTranslatorError,
>
    decreases lines.len(),
{
    if lines.len() == 0 {
        Ok(Map::empty())
    } else {
        match keysym_table(lines.drop_last()) {
            Err(e) => Err(e),
            Ok(m) => match unicode_keysym_spec(lines.last(), true) {
                None => Ok(m),
                Some((name, _value, cp, _desc)) => {
                    let v = hex_value(cp);
                    if is_scalar(v as int) {
                        Ok(m.insert(name, v as char))
                    } else {
                        Err(SequenceTranslatorError::InvalidChar)
                    }
                },
            },
        }
    }
}

/// The keysyms of `keysymdef.h` that stand for a Unicode character.
pub struct KeySymDef {
    content: StringTable<char>,
}

impl View for KeySymDef {
    type V = Map<Seq<char>, char>;

    closed spec fn view(&self) -> Map<Seq<char>, char> {
        self.content@
    }
}

proof fn lemma_codepoint_fits(cp: Seq<char>)
    requires
        cp.len() <= 6,
        forall|i: int| 0 <= i < cp.len() ==> is_upper_hex(#[trigger] cp[i]),
    ensures
        all_hex(cp),
        hex_value(cp) < 0x1000000,
        cp.len() > 0 ==> radix16_u32(cp) == Some(hex_value(cp) as u32),
{
    assert(all_hex(cp));
    lemma_hex_value_bound(cp);
    assert(pow16(0) == 1);
    assert(pow16(1) == 16);
    assert(pow16(2) == 256);
    assert(pow16(3) == 4096);
    assert(pow16(4) == 65536);
    assert(pow16(5) == 1048576);
    assert(pow16(6) == 16777216);
}

impl KeySymDef {
    /// Reads the lines of a `keysymdef.h`; see `keysym_table`.
    pub fn new(lines: &Vec<String>) -> (r: Result<KeySymDef, SequenceTranslatorError>)
        ensures
            match r {
                Ok(d) => keysym_table(lines_view(lines@)) == Ok::<
                    Map<Seq<char>, char>,
                    SequenceTranslatorError,
                >(d@),
                Err(e) => keysym_table(lines_view(lines@)) == Err::<
                    Map<Seq<char>, char>,
                    SequenceTranslatorError,
                >(e),
            },
    {
        let mut content: StringTable<char> = StringTable::new();
        let mut i: usize = 0;
        while i < lines.len()
            invariant
                i <= lines@.len(),
                keysym_table(lines_view(lines@).take(i as int)) == Ok::<
                    Map<Seq<char>, char>,
                    SequenceTranslatorError,
                >(content@),
            decreases lines@.len() - i,
        {
            let ghost pre = lines_view(lines@).take(i as int);
            let ghost next = lines_view(lines@).take(i + 1);
            assert(next.drop_last() =~= pre);
            assert(next.last() == lines@[i as int]@);
            match read_keysym_entry(lines[i].as_str()) {
                None => {},
                Some(Some((name, c))) => {
                    content.insert(name, c);
                },
                Some(None) => {
                    proof {
                        lemma_keysym_table_err_stays(lines_view(lines@), i as int + 1);
                    }
                    return Err(SequenceTranslatorError::InvalidChar);
                },
            }
            i += 1;
        }
        assert(lines_view(lines@).take(i as int) =~= lines_view(lines@));
        Ok(KeySymDef { content })
    }

    /// The character that the keysym `name` stands for.
    pub fn get_key(&self, name: &str) -> (r: Result<&char, SequenceTranslatorError>)
        ensures
            match r {
                Ok(c) => self@.contains_key(name@) && *c == self@[name@],
                Err(e) => !self@.contains_key(name@) && e == SequenceTranslatorError::InvalidKeyname,
            },
    {
        match self.content.get(&name.to_owned()) {
            Some(c) => Ok(c),
            None => Err(SequenceTranslatorError::InvalidKeyname),
        }
    }
}

/// What a line of `keysymdef.h` gives under the bracketed Unicode pattern:
/// nothing when it does not match, else its name with the character of its
/// code point, or `None` for a code point that is no Unicode scalar value.
pub open spec fn keysym_entry(s: Seq<char>) -> Option<Option<(Seq<char>, char)>> {
    match unicode_keysym_spec(s, true) {
        None => None,
        Some((name, _value, cp, _desc)) => {
            let v = hex_value(cp);
            if is_scalar(v as int) {
                Some(Some((name, v as char)))
            } else {
                Some(None)
            }
        },
    }
}

/// Reads one line of `keysymdef.h`; see `keysym_entry`.
fn read_keysym_entry(line: &str) -> (r: Option<Option<(String, char)>>)
    ensures
        match r {
            None => keysym_entry(line@) is None,
            Some(None) => keysym_entry(line@) == Some(None::<(Seq<char>, char)>),
            Some(Some((n, c))) => keysym_entry(line@) == Some(Some((n@, c))),
        },
{
    match unicode_keysym_captures(line, true) {
        None => None,
        Some(caps) => {
            let cp = str_chars(caps.codepoint.as_str());
            proof {
                let s = line@;
                let (ne, vs, ve, rs) = keysym_head(s)->0;
                let he = run_end(s, rs + 5, CharClass::UpperHex);
                lemma_run_end(s, rs + 5, CharClass::UpperHex);
                assert(cp@ =~= s.subrange(rs + 5, he));
                lemma_codepoint_fits(cp@);
                assert(cp@.subrange(0, cp@.len() as int) =~= cp@);
            }
            let v = match parse_radix16_u32(&cp, 0, cp.len()) {
                Some(v) => v,
                None => {
                    return None;
                },
            };
            assert(v as int == hex_value(cp@));
            match char_from_u32(v) {
                Some(c) => Some(Some((caps.name, c))),
                None => Some(None),
            }
        },
    }
}

/// The lines that reading `keysymdef.h` lists, one `name char` per keysym
/// of a Unicode character, in the order of the file; the list ends where
/// a code point that is no Unicode scalar value makes the reading fail.
pub open spec fn keysym_list(lines: Seq<Seq<char>>) -> Seq<Seq<char>>
    decreases lines.len(),
{
    if lines.len() == 0 {
        Seq::empty()
    } else {
        let prev = keysym_list(lines.drop_last());
        match keysym_table(lines.drop_last()) {
            Err(_) => prev,
            Ok(_) => match keysym_entry(lines.last()) {
                Some(Some((n, c))) => prev.push(n + seq![' ', c]),
                _ => prev,
            },
        }
    }
}

/// Once the table fails on a prefix of the lines, no later line is listed.
proof fn lemma_keysym_list_err_stays(lines: Seq<Seq<char>>, k: int)
    requires
        0 <= k <= lines.len(),
        keysym_table(lines.take(k)) is Err,
    ensures
        keysym_list(lines) == keysym_list(lines.take(k)),
    decreases lines.len() - k,
{
    if k < lines.len() {
        let n = lines.take(k + 1);
        assert(n.drop_last() =~= lines.take(k));
        assert(n.take(k) =~= lines.take(k));
        lemma_keysym_table_err_stays(n, k);
        lemma_keysym_list_err_stays(lines, k + 1);
    } else {
        assert(lines.take(k) =~= lines);
    }
}

/// The lines `name char` that reading `keysymdef.h` lists; see
/// `keysym_list`.
pub fn keylist_lines(lines: &Vec<String>) -> (r: Vec<String>)
    ensures
        lines_view(r@) == keysym_list(lines_view(lines@)),
{
    let mut r: Vec<String> = Vec::new();
    let mut i: usize = 0;
    while i < lines.len()
        invariant
            i <= lines@.len(),
            keysym_table(lines_view(lines@).take(i as int)) is Ok,
            lines_view(r@) == keysym_list(lines_view(lines@).take(i as int)),
        decreases lines@.len() - i,
    {
        let ghost pre = lines_view(lines@).take(i as int);
        let ghost next = lines_view(lines@).take(i + 1);
        assert(next.drop_last() =~= pre);
        assert(next.last() == lines@[i as int]@);
        match read_keysym_entry(lines[i].as_str()) {
            None => {},
            Some(None) => {
                assert(keysym_table(next) is Err);
                proof {
                    lemma_keysym_list_err_stays(lines_view(lines@), i + 1);
                }
                return r;
            },
            Some(Some((n, c))) => {
                let mut v = str_chars(n.as_str());
                v.push(' ');
                v.push(c);
                assert(v@ =~= n@ + seq![' ', c]);
                let line = chars_to_string(&v);
                let ghost old_r = r@;
                r.push(line);
                assert(lines_view(r@) =~= lines_view(old_r).push(n@ + seq![' ', c]));
            },
        }
        i += 1;
    }
    assert(lines_view(lines@).take(i as int) =~= lines_view(lines@));
    r
}

/// The keysyms that the general pattern reads from the lines of
/// `keysymdef.h`: each matching line binds its name to its hexadecimal
/// value, a later line overriding an earlier one.
pub open spec fn general_table(lines: Seq<Seq<char>>) -> Map<Seq<char>, u32>
    decreases lines.len(),
{
    if lines.len() == 0 {
        Map::empty()
    } else {
        let prev = general_table(lines.drop_last());
        match general_keysym_spec(lines.last()) {
            Some((n, v, _)) => prev.insert(n, hex_value(v) as u32),
            None => prev,
        }
    }
}

/// The lines `name value` that reading the general keysyms lists, one per
/// matching line, with the value as written in the file.
pub open spec fn general_list(lines: Seq<Seq<char>>) -> Seq<Seq<char>>
    decreases lines.len(),
{
    if lines.len() == 0 {
        Seq::empty()
    } else {
        let prev = general_list(lines.drop_last());
        match general_keysym_spec(lines.last()) {
            Some((n, v, _)) => prev.push(n + seq![' '] + v),
            None => prev,
        }
    }
}

/// Every value that the general pattern matches fits in a `u32`.
pub open spec fn general_values_fit(lines: Seq<Seq<char>>) -> bool {
    forall|i: int|
        0 <= i < lines.len() ==> (#[trigger] general_keysym_spec(lines[i]) matches Some((_, v, _))
            ==> hex_value(v) <= u32::MAX)
}

/// Reads the general keysyms of the lines of `keysymdef.h`: the table of
/// `general_table` and the list of `general_list`. A value too large for a
/// `u32` is left out by `requires`, as parsing it panics.
pub fn get_general_keysym(lines: &Vec<String>) -> (r: (StringTable<u32>, Vec<String>))
    requires
        general_values_fit(lines_view(lines@)),
    ensures
        r.0@ == general_table(lines_view(lines@)),
        lines_view(r.1@) == general_list(lines_view(lines@)),
{
    let mut table: StringTable<u32> = StringTable::new();
    let mut list: Vec<String> = Vec::new();
    let mut i: usize = 0;
    while i < lines.len()
        invariant
            i <= lines@.len(),
            general_values_fit(lines_view(lines@)),
            table@ == general_table(lines_view(lines@).take(i as int)),
            lines_view(list@) == general_list(lines_view(lines@).take(i as int)),
        decreases lines@.len() - i,
    {
        let ghost pre = lines_view(lines@).take(i as int);
        let ghost next = lines_view(lines@).take(i + 1);
        assert(next.drop_last() =~= pre);
        assert(next.last() == lines@[i as int]@);
        assert(lines_view(lines@)[i as int] == lines@[i as int]@);
        match general_keysym_captures(lines[i].as_str()) {
            None => {},
            Some(caps) => {
                let v = str_chars(caps.value.as_str());
                proof {
                    let s = lines@[i as int]@;
                    let (ne, vs, ve, rs) = keysym_head(s)->0;
                    lemma_run_end(s, vs, CharClass::LowerHex);
                    assert(v@ =~= s.subrange(vs, ve));
                    assert(all_hex(v@));
                    assert(v@.subrange(0, v@.len() as int) =~= v@);
                    assert(general_keysym_spec(lines_view(lines@)[i as int]) matches Some((_, w, _)) && w == v@);
                }
                let value = match parse_radix16_u32(&v, 0, v.len()) {
                    Some(x) => x,
                    None => {
                        return (table, list);
                    },
                };
                let mut entry = str_chars(caps.name.as_str());
                entry.push(' ');
                let ghost head = entry@;
                assert(head =~= caps.name@ + seq![' ']);
                let mut k: usize = 0;
                while k < v.len()
                    invariant
                        k <= v@.len(),
                        entry@ == head + v@.take(k as int),
                    decreases v@.len() - k,
                {
                    entry.push(v[k]);
                    k += 1;
                    assert(entry@ =~= head + v@.take(k as int));
                }
                assert(v@.take(k as int) =~= v@);
                let ghost old_list = list@;
                assert(entry@ =~= caps.name@ + seq![' '] + v@);
                list.push(chars_to_string(&entry));
                assert(lines_view(list@) =~= lines_view(old_list).push(caps.name@ + seq![' '] + v@));
                table.insert(caps.name, value);
            },
        }
        i += 1;
    }
    assert(lines_view(lines@).take(i as int) =~= lines_view(lines@));
    (table, list)
}

/// Once the table fails on a prefix of the lines, it fails on every longer
/// prefix with the same error.
proof fn lemma_keysym_table_err_stays(lines: Seq<Seq<char>>, k: int)
    requires
        0 <= k <= lines.len(),
        keysym_table(lines.take(k)) is Err,
    ensures
        keysym_table(lines) == keysym_table(lines.take(k)),
    decreases lines.len() - k,
{
    if k < lines.len() {
        assert(lines.take(k + 1).drop_last() =~= lines.take(k));
        lemma_keysym_table_err_stays(lines, k + 1);
    } else {
        assert(lines.take(k) =~= lines);
    }
}

} // verus!
