//! The composer of the stand-alone program: the compose sequences in an
//! `fst` map, each filed under the number of what it produces.
use vstd::prelude::*;
use crate::compose::ComposeDef;
use crate::fst_map::{
    entries_map, fst_builder_entries, fst_builder_insert, fst_builder_into_map,
    fst_builder_is_text, fst_builder_memory, fst_get, fst_map_contents, fst_map_is_text,
    fst_prefix_entries, has_prefix,
};
use crate::mapped::{mapped_from_number, mapped_number, mapped_text, MappedString, MappedView};
use crate::order::seq_lt;
use crate::sequence_definition::table_map;
use crate::text::is_scalar;

verus! {

/// Why typing gave no text.
#[derive(Clone, Copy, Debug, PartialEq, Eq, Structural)]
pub enum ComposeError {
    /// What was typed starts a longer sequence.
    Incomplete,
    /// No sequence is, or starts with, what was typed.
    NotFound,
}

/// A number under which a mapped value can be filed: below one trillion,
/// the number of a character.
pub open spec fn filed_number(v: u64) -> bool {
    v < 1_000_000_000_000u64 ==> is_scalar((v as u32) as int)
}

/// What typing `s` gives with the sequences of `index`: the text of a
/// whole sequence; `Incomplete` for the start of a longer one; `NotFound`
/// otherwise.
pub open spec fn compose_search(index: Map<Seq<char>, u64>, s: Seq<char>) -> Result<
    Seq<char>,
    ComposeError,
> {
    if index.contains_key(s) {
        Ok(mapped_text(mapped_from_number(index[s])))
    } else if exists|k: Seq<char>| index.contains_key(k) && has_prefix(k, s) {
        Err(ComposeError::Incomplete)
    } else {
        Err(ComposeError::NotFound)
    }
}

/// The sequences of a compose table, each filed under the number of what
/// it produces.
pub open spec fn composer_index(e: Seq<(Seq<char>, MappedView)>) -> Map<Seq<char>, u64> {
    table_map(e).map_values(|v: MappedView| mapped_number(v))
}

/// Every sequence of an ordered compose table is found by the composer
/// filed from it: a single character comes back as itself, a longer text
/// as "peradaban".
pub proof fn lemma_composer_finds_sequences(e: Seq<(Seq<char>, MappedView)>, j: int)
    requires
        crate::compose::sorted_keys(e),
        0 <= j < e.len(),
    ensures
        e[j].1 matches MappedView::Basic(c) ==> compose_search(composer_index(e), e[j].0) == Ok::<
            Seq<char>,
            ComposeError,
        >(seq![c]),
        e[j].1 is Extra ==> compose_search(composer_index(e), e[j].0) == Ok::<Seq<char>, ComposeError>(
            crate::mapped::peradaban(),
        ),
{
    crate::sequence_definition::lemma_table_map_sorted(e, j);
    crate::mapped::lemma_number_round_trip(e[j].1);
}

/// Looks up typed sequences.
pub struct Composer {
    key_index: fst::Map<Vec<u8>>,
}

/// The number of a character, a Unicode scalar value.
proof fn lemma_char_number(c: char)
    ensures
        is_scalar(c as int),
        ((c as u64) as u32) as int == c as int,
{
}

impl Composer {
    /// The sequences with the numbers they are filed under.
    pub closed spec fn index(&self) -> Map<Seq<char>, u64> {
        fst_map_contents(self.key_index)
    }

    /// The keys are text and every number is one a mapped value is filed
    /// under.
    pub closed spec fn wf(&self) -> bool {
        &&& fst_map_is_text(self.key_index)
        &&& forall|k: Seq<char>| #[trigger]
            self.index().contains_key(k) ==> filed_number(self.index()[k])
    }

    /// Files the sequences of a compose table.
    pub fn new(composedef: &ComposeDef) -> (r: Self)
        requires
            composedef.wf(),
        ensures
            r.wf(),
            r.index() == composer_index(composedef@),
    {
        let ghost e = composedef@;
        let n = composedef.len();
        let mut build = fst_builder_memory();
        let mut i: usize = 0;
        assert(e.take(0) =~= Seq::<(Seq<char>, MappedView)>::empty());
        assert(entries_map(fst_builder_entries(build)) =~= composer_index(e.take(0)));
        while i < n
            invariant
                n == e.len(),
                e == composedef@,
                composedef.wf(),
                i <= n,
                fst_builder_is_text(build),
                fst_builder_entries(build).len() == i,
                forall|j: int| 0 <= j < i ==> (#[trigger] fst_builder_entries(build)[j]).0 == e[j].0,
                entries_map(fst_builder_entries(build)) == composer_index(e.take(i as int)),
                forall|k: Seq<char>| #[trigger]
                    entries_map(fst_builder_entries(build)).contains_key(k) ==> filed_number(
                        entries_map(fst_builder_entries(build))[k],
                    ),
            decreases n - i,
        {
            let ghost old_entries = fst_builder_entries(build);
            let ghost old_map = entries_map(old_entries);
            let (key, value) = composedef.entry(i);
            assert(key@ == e[i as int].0 && value@ == e[i as int].1);
            let ghost vv = value@;
            let number = value.into_u64();
            proof {
                match vv {
                    MappedView::Basic(c) => {
                        lemma_char_number(c);
                    },
                    MappedView::Extra(_) => {},
                }
            }
            assert(filed_number(number));
            match fst_builder_insert(&mut build, key.as_str(), number) {
                Ok(()) => {},
                Err(_) => {
                    assert(seq_lt(e[i - 1].0, e[i as int].0));
                    assert(false);
                },
            }
            assert(fst_builder_entries(build).drop_last() =~= old_entries);
            assert(e.take(i + 1).drop_last() =~= e.take(i as int));
            assert(e.take(i + 1).last() == e[i as int]);
            assert(entries_map(fst_builder_entries(build)) =~= composer_index(e.take(i + 1)));
            i += 1;
        }
        assert(e.take(i as int) =~= e);
        Composer { key_index: fst_builder_into_map(build) }
    }

    /// What typing `seq` gives; see `compose_search`.
    pub fn search(&self, seq: &String) -> (r: Result<String, ComposeError>)
        requires
            self.wf(),
        ensures
            match r {
                Ok(s) => compose_search(self.index(), seq@) == Ok::<Seq<char>, ComposeError>(s@),
                Err(e) => compose_search(self.index(), seq@) == Err::<Seq<char>, ComposeError>(e),
            },
    {
        match fst_get(&self.key_index, seq.as_str()) {
            Some(value) => {
                let mapped = MappedString::from_u64(value);
                Ok(mapped.into_string())
            },
            None => {
                let listing = fst_prefix_entries(&self.key_index, seq.as_str());
                let ghost lv = listing@.map_values(|e: (String, u64)| (e.0@, e.1));
                if listing.len() == 0 {
                    assert forall|k: Seq<char>|
                        self.index().contains_key(k) implies !has_prefix(k, seq@) by {
                        if has_prefix(k, seq@) {
                            let j = choose|j: int| 0 <= j < lv.len() && #[trigger] lv[j].0 == k;
                        }
                    }
                    Err(ComposeError::NotFound)
                } else {
                    let ghost k0 = lv[0].0;
                    assert(self.index().contains_key(k0) && has_prefix(k0, seq@));
                    Err(ComposeError::Incomplete)
                }
            },
        }
    }
}

} // verus!
