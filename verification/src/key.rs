//! Keys of a typed sequence: a character, or a key that gives none.
use vstd::prelude::*;
use crate::text::{char_from_u32, char_to_string, decimal, decimal_digits, is_scalar};

verus! {

/// A typed key: a virtual key that gives no character, or a character.
#[derive(Clone, Copy, Debug, PartialEq, Eq, Hash, Structural)]
pub enum Key {
    VirtualKey(u16),
    Char(char),
}

/// The modifier keys: shift, control and Alt, on either side.
pub open spec fn is_modifier_key(k: Key) -> bool {
    match k {
        Key::VirtualKey(x) => x == 0x10 || x == 0x11 || x == 0x12 || x == 0xA0 || x == 0xA1 || x
            == 0xA2 || x == 0xA3 || x == 0xA4 || x == 0xA5,
        Key::Char(_) => false,
    }
}

/// The text of a key: the number of a virtual key, or the character.
pub open spec fn key_text(k: Key) -> Seq<char> {
    match k {
        Key::VirtualKey(x) => decimal(x as nat),
        Key::Char(c) => seq![c],
    }
}

impl Key {
    /// One of shift, control or Alt, on either side.
    pub fn is_modifier(&self) -> (r: bool)
        ensures
            r == is_modifier_key(*self),
    {
        match self {
            Key::VirtualKey(x) => *x == 0x10 || *x == 0x11 || *x == 0x12 || *x == 0xA0 || *x == 0xA1
                || *x == 0xA2 || *x == 0xA3 || *x == 0xA4 || *x == 0xA5,
            Key::Char(_) => false,
        }
    }

    /// The text of the key, as `Display` writes it.
    pub fn to_string(&self) -> (r: String)
        ensures
            r@ == key_text(*self),
    {
        match self {
            Key::VirtualKey(x) => crate::text::chars_to_string(&decimal_digits(*x as u64)),
            Key::Char(c) => char_to_string(*c),
        }
    }

    /// The key of the character whose number is `value`.
    pub fn from_u32(value: u32) -> (r: Key)
        requires
            is_scalar(value as int),
        ensures
            r == Key::Char(value as char),
    {
        match char_from_u32(value) {
            Some(c) => Key::Char(c),
            None => Key::VirtualKey(0),
        }
    }
}

/// The characters of a sequence, if all its keys are characters.
pub open spec fn sequence_text(keys: Seq<Key>) -> Option<Seq<char>>
    decreases keys.len(),
{
    if keys.len() == 0 {
        Some(Seq::empty())
    } else {
        match (sequence_text(keys.drop_last()), keys.last()) {
            (Some(t), Key::Char(c)) => Some(t.push(c)),
            _ => None,
        }
    }
}

/// Adding a key to a sequence.
pub proof fn lemma_sequence_text_push(keys: Seq<Key>, k: Key)
    ensures
        sequence_text(keys.push(k)) == (match (sequence_text(keys), k) {
            (Some(t), Key::Char(c)) => Some(t.push(c)),
            _ => None,
        }),
{
    assert(keys.push(k).drop_last() =~= keys);
}

/// A typed sequence of keys.
#[derive(Clone, Debug, PartialEq, Eq)]
pub struct KeySequence(Vec<Key>);

impl View for KeySequence {
    type V = Seq<Key>;

    closed spec fn view(&self) -> Seq<Key> {
        self.0@
    }
}

impl KeySequence {
    /// The empty sequence.
    pub fn new() -> (r: Self)
        ensures
            r@ == Seq::<Key>::empty(),
    {
        KeySequence(Vec::new())
    }

    /// The sequence of the keys `keys`.
    pub fn from_keys(keys: Vec<Key>) -> (r: Self)
        ensures
            r@ == keys@,
    {
        KeySequence(keys)
    }

    /// Adds a key at the end.
    pub fn push(&mut self, key: Key)
        ensures
            final(self)@ == old(self)@.push(key),
    {
        self.0.push(key);
    }

    /// Empties the sequence.
    pub fn clear(&mut self)
        ensures
            final(self)@ == Seq::<Key>::empty(),
    {
        self.0.clear();
    }

    /// The number of keys.
    pub fn len(&self) -> (r: usize)
        ensures
            r == self@.len(),
    {
        self.0.len()
    }

    /// The characters of the sequence, when every key is a character.
    pub fn to_text(&self) -> (r: Option<String>)
        ensures
            match r {
                Some(s) => sequence_text(self@) == Some(s@),
                None => sequence_text(self@) is None,
            },
    {
        let mut acc: Vec<char> = Vec::new();
        let mut i: usize = 0;
        assert(self@.take(0) =~= Seq::<Key>::empty());
        while i < self.0.len()
            invariant
                i <= self@.len(),
                sequence_text(self@.take(i as int)) == Some(acc@),
            decreases self@.len() - i,
        {
            assert(self@.take(i + 1).drop_last() =~= self@.take(i as int));
            assert(self@.take(i + 1).last() == self@[i as int]);
            match self.0[i] {
                Key::Char(c) => {
                    acc.push(c);
                },
                Key::VirtualKey(_) => {
                    proof {
                        lemma_sequence_text_none_stays(self@, i as int + 1);
                    }
                    return None;
                },
            }
            i += 1;
        }
        assert(self@.take(i as int) =~= self@);
        Some(crate::text::chars_to_string(&acc))
    }
}

/// Once a prefix has a key that is no character, so does every longer one.
proof fn lemma_sequence_text_none_stays(keys: Seq<Key>, k: int)
    requires
        0 <= k <= keys.len(),
        sequence_text(keys.take(k)) is None,
    ensures
        sequence_text(keys) is None,
    decreases keys.len() - k,
{
    if k < keys.len() {
        assert(keys.take(k + 1).drop_last() =~= keys.take(k));
        lemma_sequence_text_none_stays(keys, k + 1);
    } else {
        assert(keys.take(k) =~= keys);
    }
}

} // verus!
