//! The text that a compose sequence produces.
use vstd::prelude::*;
use crate::text::{char_from_u32, char_to_string, is_scalar};

verus! {

/// What a compose sequence produces: one character, or a longer text.
#[derive(Clone, Debug, PartialEq, Eq, Hash)]
pub enum MappedString {
    Basic(char),
    Extra(String),
}

/// The mathematical value of a `MappedString`.
pub enum MappedView {
    Basic(char),
    Extra(Seq<char>),
}

impl View for MappedString {
    type V = MappedView;

    open spec fn view(&self) -> MappedView {
        match self {
            MappedString::Basic(c) => MappedView::Basic(*c),
            MappedString::Extra(s) => MappedView::Extra(s@),
        }
    }
}

/// The text that a mapped value stands for.
pub open spec fn mapped_text(m: MappedView) -> Seq<char> {
    match m {
        MappedView::Basic(c) => seq![c],
        MappedView::Extra(s) => s,
    }
}

/// The number under which `Into<u64>` files a mapped value.
pub open spec fn mapped_number(m: MappedView) -> u64 {
    match m {
        MappedView::Basic(c) => c as u64,
        MappedView::Extra(_) => 1_000_000_000_000u64,
    }
}

/// The text that the number of every longer text stands for.
pub open spec fn peradaban() -> Seq<char> {
    seq!['p', 'e', 'r', 'a', 'd', 'a', 'b', 'a', 'n']
}

/// The mapped value that `From<u64>` gives for `v`.
pub open spec fn mapped_from_number(v: u64) -> MappedView {
    if v < 1_000_000_000_000u64 {
        MappedView::Basic((v as u32) as char)
    } else {
        MappedView::Extra(peradaban())
    }
}

/// A single character filed under its number comes back from it; any
/// longer text comes back as "peradaban".
pub proof fn lemma_number_round_trip(m: MappedView)
    ensures
        m matches MappedView::Basic(c) ==> mapped_from_number(mapped_number(m)) == m,
        m is Extra ==> mapped_from_number(mapped_number(m)) == MappedView::Extra(peradaban()),
{
    match m {
        MappedView::Basic(c) => {
            lemma_char_code(c);
        },
        MappedView::Extra(_) => {},
    }
}

proof fn lemma_char_code(c: char)
    ensures
        (c as u64) < 1_000_000_000_000u64,
        ((c as u64) as u32) as char == c,
{
}

impl MappedString {
    /// The same as `MappedString::Basic(value)`.
    pub fn from_char(value: char) -> (r: MappedString)
        ensures
            r@ == MappedView::Basic(value),
    {
        MappedString::Basic(value)
    }

    /// The same as `MappedString::Extra(value)`.
    pub fn from_string(value: String) -> (r: MappedString)
        ensures
            r@ == MappedView::Extra(value@),
    {
        MappedString::Extra(value)
    }

    /// The text of the value.
    pub fn to_string(&self) -> (r: String)
        ensures
            r@ == mapped_text(self@),
    {
        match self {
            MappedString::Basic(c) => char_to_string(*c),
            MappedString::Extra(s) => s.clone(),
        }
    }

    /// The text of the value, consuming it.
    pub fn into_string(self) -> (r: String)
        ensures
            r@ == mapped_text(self@),
    {
        match self {
            MappedString::Basic(c) => char_to_string(c),
            MappedString::Extra(s) => s,
        }
    }

    /// A single character is filed under its code point, any longer text
    /// under one trillion.
    pub fn into_u64(self) -> (r: u64)
        ensures
            r == mapped_number(self@),
    {
        match self {
            MappedString::Basic(c) => c as u64,
            MappedString::Extra(_) => 1_000_000_000_000,
        }
    }

    /// Below one trillion, the character whose code point is the low 32 bits
    /// of `value`; from one trillion up, the text "peradaban".
    pub fn from_u64(value: u64) -> (r: MappedString)
        requires
            value < 1_000_000_000_000u64 ==> is_scalar((value as u32) as int),
        ensures
            r@ == mapped_from_number(value),
    {
        if value < 1_000_000_000_000 {
            match char_from_u32(value as u32) {
                Some(c) => MappedString::Basic(c),
                None => {
                    assert(false);
                    MappedString::Extra(String::new())
                },
            }
        } else {
            let v = vec!['p', 'e', 'r', 'a', 'd', 'a', 'b', 'a', 'n'];
            assert(v@ =~= peradaban());
            MappedString::Extra(crate::text::chars_to_string(&v))
        }
    }
}

} // verus!
