//! The definition files ship compressed with brotli; this module gives
//! their text, line by line.
use vstd::prelude::*;
use crate::text::str_chars;
use std::io::Read;

verus! {

/// The text that brotli-compressed bytes decompress to, when they are a
/// whole brotli stream of UTF-8 text.
pub uninterp spec fn brotli_text(data: Seq<u8>) -> Option<Seq<char>>;

/// `brotli_decompressor::Decompressor` read to its end into a string: the
/// text, or `None` when the bytes are no brotli stream of UTF-8 text.
#[verifier::external_body]
fn decompress_to_string(data: &[u8]) -> (r: Option<String>)
    ensures
        match r {
            Some(s) => brotli_text(data@) == Some(s@),
            None => brotli_text(data@) is None,
        },
{
    let mut input = brotli_decompressor::Decompressor::new(data, 4096);
    let mut buf = String::new();
    match input.read_to_string(&mut buf) {
        Ok(_) => Some(buf),
        Err(_) => None,
    }
}

/// Where the first line feed of `s[i..]` is, or the end.
pub open spec fn line_end(s: Seq<char>, i: int) -> int
    decreases s.len() - i,
{
    if i < 0 || i >= s.len() {
        s.len() as int
    } else if s[i] == '\n' {
        i
    } else {
        line_end(s, i + 1)
    }
}

proof fn lemma_line_end(s: Seq<char>, i: int)
    requires
        0 <= i <= s.len(),
    ensures
        i <= line_end(s, i) <= s.len(),
        forall|j: int| i <= j < line_end(s, i) ==> s[j] != '\n',
        line_end(s, i) < s.len() ==> s[line_end(s, i)] == '\n',
    decreases s.len() - i,
{
    if i < s.len() && s[i] != '\n' {
        lemma_line_end(s, i + 1);
    }
}

/// A line without its carriage return.
pub open spec fn strip_cr(line: Seq<char>) -> Seq<char> {
    if line.len() > 0 && line.last() == '\r' {
        line.drop_last()
    } else {
        line
    }
}

/// The lines of `s[i..]` as `BufRead::lines` gives them: split at line
/// feeds, each without a carriage return at its end, and no empty line
/// after a final line feed.
pub open spec fn lines_from(s: Seq<char>, i: int) -> Seq<Seq<char>>
    decreases s.len() - i,
{
    if i < 0 || i >= s.len() {
        Seq::empty()
    } else {
        let e = line_end(s, i);
        if e < i || e > s.len() {
            Seq::empty()
        } else if e >= s.len() {
            seq![strip_cr(s.subrange(i, e))]
        } else {
            seq![strip_cr(s.subrange(i, e))] + lines_from(s, e + 1)
        }
    }
}

/// The lines of a text; see `lines_from`.
pub fn text_lines(text: &str) -> (r: Vec<String>)
    ensures
        r@.map_values(|l: String| l@) == lines_from(text@, 0),
{
    let s = str_chars(text);
    let mut r: Vec<String> = Vec::new();
    let mut i: usize = 0;
    assert(r@.map_values(|l: String| l@) + lines_from(s@, 0) =~= lines_from(s@, 0));
    while i < s.len()
        invariant
            s@ == text@,
            i <= s@.len(),
            r@.map_values(|l: String| l@) + lines_from(s@, i as int) == lines_from(s@, 0),
        decreases s@.len() - i,
    {
        proof {
            lemma_line_end(s@, i as int);
        }
        let mut e = i;
        while e < s.len() && s[e] != '\n'
            invariant
                i <= e <= s@.len(),
                line_end(s@, e as int) == line_end(s@, i as int),
            decreases s@.len() - e,
        {
            e += 1;
        }
        let mut stop = e;
        if stop > i && s[stop - 1] == '\r' {
            stop = stop - 1;
        }
        let mut line: Vec<char> = Vec::new();
        let mut j = i;
        while j < stop
            invariant
                i <= j <= stop <= s@.len(),
                line@ == s@.subrange(i as int, j as int),
            decreases stop - j,
        {
            line.push(s[j]);
            j += 1;
            assert(line@ =~= s@.subrange(i as int, j as int));
        }
        assert(line@ =~= strip_cr(s@.subrange(i as int, e as int)));
        let ghost before = r@.map_values(|l: String| l@);
        r.push(crate::text::chars_to_string(&line));
        assert(r@.map_values(|l: String| l@) =~= before.push(line@));
        if e >= s.len() {
            assert(lines_from(s@, i as int) =~= seq![line@]);
            assert(r@.map_values(|l: String| l@) =~= r@.map_values(|l: String| l@) + lines_from(s@, s@.len() as int));
            i = e;
        } else {
            assert(before + lines_from(s@, i as int) =~= r@.map_values(|l: String| l@) + lines_from(
                s@,
                e + 1,
            ));
            i = e + 1;
        }
    }
    assert(lines_from(s@, i as int) =~= Seq::<Seq<char>>::empty());
    assert(r@.map_values(|l: String| l@) + Seq::<Seq<char>>::empty() =~= r@.map_values(|l: String| l@));
    r
}

/// The lines of a brotli-compressed definition file; `None` when the
/// bytes are no brotli stream of UTF-8 text.
pub fn decompress_lines(data: &[u8]) -> (r: Option<Vec<String>>)
    ensures
        match brotli_text(data@) {
            Some(t) => r matches Some(lines) && lines@.map_values(|l: String| l@) == lines_from(t, 0),
            None => r is None,
        },
{
    match decompress_to_string(data) {
        Some(text) => Some(text_lines(text.as_str())),
        None => None,
    }
}

/// The text of a brotli-compressed file; `None` when the bytes are no
/// brotli stream of UTF-8 text.
pub fn decompress_text(data: &[u8]) -> (r: Option<String>)
    ensures
        match r {
            Some(s) => brotli_text(data@) == Some(s@),
            None => brotli_text(data@) is None,
        },
{
    decompress_to_string(data)
}

} // verus!
