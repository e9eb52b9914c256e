//! Errors of the sequence tables.
use vstd::prelude::*;

verus! {

/// Why building or reading the keysym and compose tables failed.
#[derive(Clone, Copy, Debug, PartialEq, Eq, Structural)]
pub enum SequenceTranslatorError {
    FileRead,
    FileWrite,
    ReadLine,
    WriteLine,
    RegexBuild,
    RegexParse,
    ParseInt,
    InvalidChar,
    InvalidKeyname,
    FstBuild,
}

} // verus!
