//! The keyboard hook of the stand-alone compose program, which composes
//! by itself: it keeps the typed sequence, looks it up in its composer,
//! gathers Unicode code points, and types the result back.
//!
//! What a key gives under the keyboard layout comes from the system
//! (`ToUnicodeEx`); the hook says when it needs it, and takes it as an
//! argument.
use vstd::prelude::*;
use crate::assoc::NumberTable;
use crate::composer::{compose_search, ComposeError, Composer};
use crate::key::{sequence_text, Key, KeySequence};
use crate::keyboard_hook::{event_input, kbdllhookstruct_to_keybdinput, KeyInput, LowLevelEvent};
use crate::text::{char_from_u32, char_to_string, is_scalar, radix16_u32, str_chars};
use crate::utf16::{decode_utf16, encode_utf16, utf16_decode, utf16_encode};

verus! {

/// Why the layout gave no plain character for a key.
#[derive(Clone, Copy, Debug, PartialEq, Eq, Structural)]
pub enum ParseVKError {
    /// A dead key, which gives this character.
    DeadKey(char),
    /// The key gives no character.
    NoTranslation,
    /// The layout gave code units that are no UTF-16 text.
    InvalidUnicode,
}

impl ParseVKError {
    /// The message of the error, as `Display` writes it.
    pub fn to_string(&self) -> (r: String)
        ensures
            match self {
                ParseVKError::DeadKey(x) => r@ == seq![
                    'D', 'e', 'a', 'd', ' ', 'k', 'e', 'y', ' ', 'i', 's', ' ',
                ] + seq![*x],
                ParseVKError::NoTranslation => r@ == seq![
                    'N', 'o', ' ', 'V', 'K', ' ', 't', 'r', 'a', 'n', 's', 'l', 'a', 't', 'i', 'o',
                    'n', ' ', 'a', 'v', 'a', 'i', 'l', 'a', 'b', 'l', 'e',
                ],
                ParseVKError::InvalidUnicode => r@ == seq![
                    'I', 'n', 'v', 'a', 'l', 'i', 'd', ' ', 'U', 'n', 'i', 'c', 'o', 'd', 'e', ' ',
                    'p', 'r', 'o', 'd', 'u', 'c', 'e', 'd', ' ', 'b', 'y', ' ', 'T', 'o', 'U', 'n',
                    'i', 'c', 'o', 'd', 'e', 'E', 'x',
                ],
            },
    {
        let v = match self {
            ParseVKError::DeadKey(x) => {
                let mut v = vec!['D', 'e', 'a', 'd', ' ', 'k', 'e', 'y', ' ', 'i', 's', ' '];
                v.push(*x);
                v
            },
            ParseVKError::NoTranslation => vec![
                'N', 'o', ' ', 'V', 'K', ' ', 't', 'r', 'a', 'n', 's', 'l', 'a', 't', 'i', 'o', 'n',
                ' ', 'a', 'v', 'a', 'i', 'l', 'a', 'b', 'l', 'e',
            ],
            ParseVKError::InvalidUnicode => vec![
                'I', 'n', 'v', 'a', 'l', 'i', 'd', ' ', 'U', 'n', 'i', 'c', 'o', 'd', 'e', ' ', 'p',
                'r', 'o', 'd', 'u', 'c', 'e', 'd', ' ', 'b', 'y', ' ', 'T', 'o', 'U', 'n', 'i', 'c',
                'o', 'd', 'e', 'E', 'x',
            ],
        };
        proof {
            match self {
                ParseVKError::DeadKey(x) => {
                    assert(v@ =~= seq!['D', 'e', 'a', 'd', ' ', 'k', 'e', 'y', ' ', 'i', 's', ' ']
                        + seq![*x]);
                },
                ParseVKError::NoTranslation => {
                    assert(v@ =~= seq![
                        'N', 'o', ' ', 'V', 'K', ' ', 't', 'r', 'a', 'n', 's', 'l', 'a', 't', 'i',
                        'o', 'n', ' ', 'a', 'v', 'a', 'i', 'l', 'a', 'b', 'l', 'e',
                    ]);
                },
                ParseVKError::InvalidUnicode => {
                    assert(v@ =~= seq![
                        'I', 'n', 'v', 'a', 'l', 'i', 'd', ' ', 'U', 'n', 'i', 'c', 'o', 'd', 'e',
                        ' ', 'p', 'r', 'o', 'd', 'u', 'c', 'e', 'd', ' ', 'b', 'y', ' ', 'T', 'o',
                        'U', 'n', 'i', 'c', 'o', 'd', 'e', 'E', 'x',
                    ]);
                },
            }
        }
        crate::text::chars_to_string(&v)
    }
}

/// What a key gives, from what `ToUnicodeEx` answered: no translation for
/// status 0; otherwise the first character that the eight code units of
/// the buffer decode to, marked as a dead key for a negative status.
pub open spec fn layout_key(status: i32, buffer: Seq<u16>) -> Result<char, ParseVKError> {
    if status == 0 {
        Err(ParseVKError::NoTranslation)
    } else {
        match utf16_decode(buffer) {
            Some(t) => if t.len() == 0 {
                Err(ParseVKError::InvalidUnicode)
            } else if status < 0 {
                Err(ParseVKError::DeadKey(t[0]))
            } else {
                Ok(t[0])
            },
            None => Err(ParseVKError::InvalidUnicode),
        }
    }
}

/// Eight code units decode to at least one character, if to any.
proof fn lemma_decode_nonempty(u: Seq<u16>)
    requires
        u.len() > 0,
        utf16_decode(u) is Some,
    ensures
        utf16_decode(u)->0.len() > 0,
{
}

/// What a key gives; see `layout_key`. After a dead key, the buffer is
/// the one of the call that clears the layout's state.
pub fn vk_to_unicode(status: i32, buffer: &[u16; 8]) -> (r: Result<char, ParseVKError>)
    ensures
        r == layout_key(status, buffer@),
{
    if status == 0 {
        return Err(ParseVKError::NoTranslation);
    }
    match decode_utf16(buffer.as_slice()) {
        Some(s) => {
            proof {
                lemma_decode_nonempty(buffer@);
            }
            let cs = str_chars(s.as_str());
            if cs.len() == 0 {
                return Err(ParseVKError::InvalidUnicode);
            }
            let c = cs[0];
            if status < 0 {
                Err(ParseVKError::DeadKey(c))
            } else {
                Ok(c)
            }
        },
        None => Err(ParseVKError::InvalidUnicode),
    }
}

/// `char::to_ascii_uppercase`: a lower-case ASCII letter in upper case,
/// any other character unchanged.
pub open spec fn ascii_upper(c: char) -> char {
    if 'a' <= c && c <= 'z' {
        ((c as int) - 32) as char
    } else {
        c
    }
}

/// `char::to_ascii_uppercase`.
pub fn to_ascii_uppercase(c: char) -> (r: char)
    ensures
        r == ascii_upper(c),
{
    if 'a' <= c && c <= 'z' {
        char_from_u32(c as u32 - 32).unwrap()
    } else {
        c
    }
}

/// The character that a Unicode entry stands for: `U` followed by the
/// hexadecimal number of a character.
pub open spec fn unicode_key(s: Seq<char>) -> Option<char> {
    if s.len() > 0 && s[0] == 'U' {
        match radix16_u32(s.drop_first()) {
            Some(v) => if is_scalar(v as int) {
                Some((v as int) as char)
            } else {
                None
            },
            None => None,
        }
    } else {
        None
    }
}

/// The code point entry of Unicode mode: `U` and the digits typed.
pub struct UnicodeState {
    state: String,
}

impl UnicodeState {
    /// What was typed, starting with `U`.
    pub closed spec fn typed(&self) -> Seq<char> {
        self.state@
    }

    /// An entry with nothing typed after the `U`.
    pub fn new() -> (r: Self)
        ensures
            r.typed() == seq!['U'],
    {
        let r = UnicodeState { state: char_to_string('U') };
        r
    }

    /// Adds a typed character.
    pub fn push_char(&mut self, ch: char)
        ensures
            final(self).typed() == old(self).typed().push(ch),
    {
        let c = char_to_string(ch);
        self.state.append(c.as_str());
        assert(self.state@ =~= old(self).typed().push(ch));
    }

    /// Adds what a key gave, in upper case; a dead key counts with its
    /// character.
    pub fn push(&mut self, key: Result<char, ParseVKError>)
        requires
            key is Ok || key matches Err(ParseVKError::DeadKey(_)),
        ensures
            final(self).typed() == old(self).typed().push(
                ascii_upper(
                    match key {
                        Ok(c) => c,
                        Err(ParseVKError::DeadKey(c)) => c,
                        _ => ' ',
                    },
                ),
            ),
    {
        let c = match key {
            Ok(c) => c,
            Err(ParseVKError::DeadKey(c)) => c,
            Err(_) => ' ',
        };
        self.push_char(to_ascii_uppercase(c));
    }

    /// The character of the entry, as text; the entry starts over with `U`
    /// whatever came of it.
    pub fn build_unicode(&mut self) -> (r: Result<String, ComposeError>)
        requires
            old(self).typed().len() > 0 && old(self).typed()[0] == 'U',
        ensures
            final(self).typed() == seq!['U'],
            match unicode_key(old(self).typed()) {
                Some(c) => r matches Ok(s) && s@ == seq![c],
                None => r == Err::<String, ComposeError>(ComposeError::NotFound),
            },
    {
        let s = str_chars(self.state.as_str());
        let res = if s.len() > 0 && s[0] == 'U' {
            match crate::text::parse_radix16_u32(&s, 1, s.len()) {
                Some(v) => char_from_u32(v),
                None => None,
            }
        } else {
            None
        };
        proof {
            assert(s@.subrange(1, s@.len() as int) =~= s@.drop_first());
        }
        self.state = char_to_string('U');
        match res {
            Some(c) => Ok(char_to_string(c)),
            None => Err(ComposeError::NotFound),
        }
    }

    /// The same as `build_unicode`.
    pub fn submit(&mut self) -> (r: Result<String, ComposeError>)
        requires
            old(self).typed().len() > 0 && old(self).typed()[0] == 'U',
        ensures
            final(self).typed() == seq!['U'],
            match unicode_key(old(self).typed()) {
                Some(c) => r matches Ok(s) && s@ == seq![c],
                None => r == Err::<String, ComposeError>(ComposeError::NotFound),
            },
    {
        self.build_unicode()
    }
}

/// `KEYEVENTF_UNICODE`
pub const KEYEVENTF_UNICODE: u32 = 0x4;

/// The inputs that type one UTF-16 code unit: a press and a release.
pub open spec fn unit_inputs(c: u16) -> Seq<KeyInput> {
    seq![
        KeyInput { vk: 0, scan: c, flags: KEYEVENTF_UNICODE, time: 0, extra_info: 0 },
        KeyInput { vk: 0, scan: c, flags: KEYEVENTF_UNICODE | 0x2u32, time: 0, extra_info: 0 },
    ]
}

/// The inputs that type the code units `u`.
pub open spec fn units_inputs(u: Seq<u16>) -> Seq<KeyInput>
    decreases u.len(),
{
    if u.len() == 0 {
        Seq::empty()
    } else {
        units_inputs(u.drop_last()) + unit_inputs(u.last())
    }
}

/// The inputs that type the code units `u` come two to a unit, in the
/// order of the units: the `j`-th unit is pressed as a Unicode key, then
/// released.
pub proof fn lemma_units_inputs_in_order(u: Seq<u16>)
    ensures
        units_inputs(u).len() == 2 * u.len(),
        forall|j: int|
            0 <= j < u.len() ==> units_inputs(u)[2 * j] == (KeyInput {
                vk: 0,
                scan: #[trigger] u[j],
                flags: 0x4,
                time: 0,
                extra_info: 0,
            }) && units_inputs(u)[2 * j + 1] == (KeyInput {
                vk: 0,
                scan: u[j],
                flags: 0x6,
                time: 0,
                extra_info: 0,
            }),
    decreases u.len(),
{
    assert(KEYEVENTF_UNICODE | 0x2u32 == 0x6u32) by (bit_vector);
    if u.len() > 0 {
        let d = u.drop_last();
        lemma_units_inputs_in_order(d);
        assert forall|j: int| 0 <= j < u.len() implies units_inputs(u)[2 * j] == (KeyInput {
            vk: 0,
            scan: #[trigger] u[j],
            flags: 0x4,
            time: 0,
            extra_info: 0,
        }) && units_inputs(u)[2 * j + 1] == (KeyInput {
            vk: 0,
            scan: u[j],
            flags: 0x6,
            time: 0,
            extra_info: 0,
        }) by {
            if j < u.len() - 1 {
                assert(d[j] == u[j]);
            }
        }
    }
}

/// The inputs that type a text: each UTF-16 code unit pressed and released
/// as a Unicode key.
pub fn string_inputs(text: &str) -> (r: Vec<KeyInput>)
    ensures
        r@ == units_inputs(utf16_encode(text@)),
{
    let units = encode_utf16(text);
    let mut r: Vec<KeyInput> = Vec::new();
    let mut i: usize = 0;
    assert(units@.take(0) =~= Seq::<u16>::empty());
    while i < units.len()
        invariant
            i <= units@.len(),
            r@ == units_inputs(units@.take(i as int)),
        decreases units@.len() - i,
    {
        let c = units[i];
        r.push(KeyInput { vk: 0, scan: c, flags: KEYEVENTF_UNICODE, time: 0, extra_info: 0 });
        r.push(KeyInput { vk: 0, scan: c, flags: KEYEVENTF_UNICODE | 0x2, time: 0, extra_info: 0 });
        assert(units@.take(i + 1).drop_last() =~= units@.take(i as int));
        assert(r@ =~= units_inputs(units@.take(i + 1)));
        i += 1;
    }
    assert(units@.take(i as int) =~= units@);
    r
}

/// The key events held back by the hook.
pub struct KeyboardController {
    stored_sequence: Vec<KeyInput>,
}

impl KeyboardController {
    /// The events held back, in order.
    pub closed spec fn stored(&self) -> Seq<KeyInput> {
        self.stored_sequence@
    }

    /// Nothing held back.
    pub fn new() -> (r: Self)
        ensures
            r.stored() == Seq::<KeyInput>::empty(),
    {
        KeyboardController { stored_sequence: Vec::new() }
    }

    /// Holds back the input that replays `event`.
    pub fn push_input(&mut self, event: &LowLevelEvent)
        ensures
            final(self).stored() == old(self).stored().push(event_input(*event)),
    {
        self.stored_sequence.push(kbdllhookstruct_to_keybdinput(*event));
    }

    /// Forgets the events held back.
    pub fn clear_input(&mut self)
        ensures
            final(self).stored() == Seq::<KeyInput>::empty(),
    {
        self.stored_sequence.clear();
    }

    /// Gives back the events held back after the first `skip`, which stay
    /// held.
    pub fn abort_control(&mut self, skip: usize) -> (r: Vec<KeyInput>)
        requires
            skip <= old(self).stored().len(),
        ensures
            r@ == old(self).stored().skip(skip as int),
            final(self).stored() == old(self).stored().take(skip as int),
    {
        let r = self.stored_sequence.split_off(skip);
        r
    }

    /// The inputs that type `text`; the events held back are forgotten.
    pub fn send_string(&mut self, text: &str) -> (r: Vec<KeyInput>)
        ensures
            r@ == units_inputs(utf16_encode(text@)),
            final(self).stored() == Seq::<KeyInput>::empty(),
    {
        let r = string_inputs(text);
        self.clear_input();
        r
    }
}

/// What typing one more key does to the sequence typed so far: a key with
/// a character (a dead key's too) is added and the sequence looked up,
/// and the sequence is kept only while incomplete; a key without one
/// leaves it incomplete.
pub open spec fn sequence_step(index: Map<Seq<char>, u64>, typed: Seq<char>, key: Result<
    char,
    ParseVKError,
>) -> (Seq<char>, Result<Seq<char>, ComposeError>) {
    match key {
        Ok(c) => {
            let s = typed.push(c);
            let res = compose_search(index, s);
            (if res == Err::<Seq<char>, ComposeError>(ComposeError::Incomplete) {
                s
            } else {
                Seq::empty()
            }, res)
        },
        Err(ParseVKError::DeadKey(c)) => {
            let s = typed.push(c);
            let res = compose_search(index, s);
            (if res == Err::<Seq<char>, ComposeError>(ComposeError::Incomplete) {
                s
            } else {
                Seq::empty()
            }, res)
        },
        _ => (typed, Err(ComposeError::Incomplete)),
    }
}

/// The sequence typed so far in sequence mode, and the composer that
/// looks it up.
pub struct SequenceState {
    state: KeySequence,
    composer: Composer,
}

impl SequenceState {
    /// The characters typed so far.
    pub closed spec fn typed(&self) -> Seq<char> {
        sequence_text(self.state@)->0
    }

    /// The sequences of the composer.
    pub closed spec fn index(&self) -> Map<Seq<char>, u64> {
        self.composer.index()
    }

    /// Only characters are typed, and the composer is well formed.
    pub closed spec fn wf(&self) -> bool {
        &&& sequence_text(self.state@) is Some
        &&& self.composer.wf()
    }

    /// Nothing typed yet.
    pub fn new(composer: Composer) -> (r: Self)
        requires
            composer.wf(),
        ensures
            r.wf(),
            r.typed() == Seq::<char>::empty(),
            r.index() == composer.index(),
    {
        let r = SequenceState { state: KeySequence::new(), composer };
        r
    }

    /// Types one more key; see `sequence_step`.
    pub fn compose_sequence(&mut self, key: Result<char, ParseVKError>) -> (r: Result<
        String,
        ComposeError,
    >)
        requires
            old(self).wf(),
            key != Err::<char, ParseVKError>(ParseVKError::InvalidUnicode),
        ensures
            final(self).wf(),
            final(self).index() == old(self).index(),
            final(self).typed() == sequence_step(old(self).index(), old(self).typed(), key).0,
            match r {
                Ok(t) => sequence_step(old(self).index(), old(self).typed(), key).1 == Ok::<
                    Seq<char>,
                    ComposeError,
                >(t@),
                Err(e) => sequence_step(old(self).index(), old(self).typed(), key).1 == Err::<
                    Seq<char>,
                    ComposeError,
                >(e),
            },
    {
        let c = match key {
            Ok(c) => c,
            Err(ParseVKError::DeadKey(c)) => c,
            Err(_) => {
                return Err(ComposeError::Incomplete);
            },
        };
        let ghost before = self.state@;
        self.state.push(Key::Char(c));
        proof {
            crate::key::lemma_sequence_text_push(before, Key::Char(c));
        }
        let text = match self.state.to_text() {
            Some(t) => t,
            None => {
                assert(false);
                return Err(ComposeError::NotFound);
            },
        };
        let res = self.composer.search(&text);
        match res {
            Err(ComposeError::Incomplete) => {},
            _ => {
                self.state.clear();
                assert(sequence_text(self.state@) =~= Some(Seq::<char>::empty()));
            },
        }
        res
    }
}

/// `VK_RETURN`
pub const VK_RETURN: u16 = 0x0D;

/// The number of a key that types a hexadecimal digit: `0` to `9` on
/// either keyboard, `A` to `F`.
pub open spec fn is_hex_vk(vk: u16) -> bool {
    (0x30 <= vk <= 0x39) || (0x60 <= vk <= 0x69) || (0x41 <= vk <= 0x46)
}

/// A key that types a hexadecimal digit.
pub fn is_hexadecimal(vkcode: u16) -> (r: bool)
    ensures
        r == is_hex_vk(vkcode),
{
    (0x30 <= vkcode && vkcode <= 0x39) || (0x60 <= vkcode && vkcode <= 0x69) || (0x41 <= vkcode
        && vkcode <= 0x46)
}

/// The keyboard state in which a key is translated: the system's, with
/// shift, AltGr (as Ctrl and Alt) and caps lock as the hook saw them.
pub open spec fn hook_keystate(base: Seq<u8>, shift: bool, altgr: bool, capslock: bool, j: int) -> u8 {
    if j == 0x10 {
        if shift {
            0x80
        } else {
            0
        }
    } else if j == 0x11 || j == 0x12 {
        if altgr {
            0x80
        } else {
            0
        }
    } else if j == 0x14 {
        if capslock {
            1
        } else {
            0
        }
    } else {
        base[j]
    }
}

/// The number under which a dead key of the `t`-th probe is noted: the key
/// in the low byte, 0x100 for shift, 0x200 for AltGr. The probes go
/// through AltGr first, then without; shift first, then without.
pub open spec fn probe_number(t: int) -> u16 {
    ((t % 0x100) + (if t < 0x200 {
        0x200int
    } else {
        0int
    }) + (if t % 0x200 < 0x100 {
        0x100int
    } else {
        0int
    })) as u16
}

/// The dead keys that the first `n` probes teach, by the number of their
/// character.
pub open spec fn dead_key_fold(m: Map<u64, u16>, keys: Seq<Result<char, ParseVKError>>, n: int) -> Map<
    u64,
    u16,
>
    decreases n,
{
    if n <= 0 {
        m
    } else {
        let prev = dead_key_fold(m, keys, n - 1);
        match keys[n - 1] {
            Err(ParseVKError::DeadKey(c)) => prev.insert(c as u64, probe_number(n - 1)),
            _ => prev,
        }
    }
}

/// What the hook knows of the keyboard layout.
pub struct KeyboardLayout {
    possible_dead_keys: NumberTable<u16>,
    possible_altgr_keys: NumberTable<char>,
    saved_dead_key: u16,
    current_layout: usize,
}

impl KeyboardLayout {
    /// For each dead key's character, by its number, the probe that gave it.
    pub closed spec fn dead_keys(&self) -> Map<u64, u16> {
        self.possible_dead_keys@
    }

    /// For each character, by its number, the one its key gives with AltGr.
    pub closed spec fn altgr_keys(&self) -> Map<u64, char> {
        self.possible_altgr_keys@
    }

    /// The layout last analysed.
    pub closed spec fn layout(&self) -> usize {
        self.current_layout
    }

    /// The dead key held back for the next key.
    pub closed spec fn saved_dead_key(&self) -> u16 {
        self.saved_dead_key
    }

    /// Nothing known yet.
    pub fn new() -> (r: Self)
        ensures
            r.dead_keys() == Map::<u64, u16>::empty(),
            r.altgr_keys() == Map::<u64, char>::empty(),
            r.layout() == 0,
            r.saved_dead_key() == 0,
    {
        KeyboardLayout {
            possible_dead_keys: NumberTable::new(),
            possible_altgr_keys: NumberTable::new(),
            saved_dead_key: 0,
            current_layout: 0,
        }
    }

    /// The key and keyboard state of the `t`-th probe of a layout: AltGr
    /// for the first half, shift for the first half of each half, the key in
    /// the low byte.
    pub fn probe(t: u32) -> (r: (u16, [u8; 256]))
        requires
            t < 0x400,
        ensures
            r.0 == t % 0x100,
            forall|j: int|
                0 <= j < 256 ==> r.1@[j] == hook_keystate(
                    Seq::new(256, |i: int| 0u8),
                    t % 0x200 < 0x100,
                    t < 0x200,
                    false,
                    j,
                ),
    {
        let base = [0u8; 256];
        (
            (t % 0x100) as u16,
            calculate_keystate(&base, t % 0x200 < 0x100, t < 0x200, false),
        )
    }

    /// The probe of the dead key that gives `c`.
    pub fn dead_key(&self, c: char) -> (r: Option<u16>)
        ensures
            match r {
                Some(v) => self.dead_keys().contains_key(c as u64) && v == self.dead_keys()[c as u64],
                None => !self.dead_keys().contains_key(c as u64),
            },
    {
        match self.possible_dead_keys.get(c as u64) {
            Some(v) => Some(*v),
            None => None,
        }
    }

    /// Learns the layout `layout` from what its 0x400 probes gave (see
    /// `probe`). The probes with AltGr come first, before any key without
    /// it is known, so no AltGr pair is learnt; each dead key is noted with
    /// its probe.
    pub fn analyze_layout(&mut self, layout: usize, keys: &Vec<Result<char, ParseVKError>>)
        requires
            keys@.len() == 0x400,
        ensures
            final(self).layout() == layout,
            final(self).dead_keys() == dead_key_fold(old(self).dead_keys(), keys@, 0x400),
            final(self).altgr_keys() == old(self).altgr_keys(),
    {
        self.current_layout = layout;
        let ghost d0 = self.dead_keys();
        let mut no_altgr: Vec<char> = Vec::new();
        let mut j: usize = 0;
        while j < 0x200
            invariant
                j <= 0x200,
                no_altgr@.len() == j,
                forall|m: int| 0 <= m < j ==> no_altgr@[m] == '\0',
            decreases 0x200 - j,
        {
            no_altgr.push('\0');
            j += 1;
        }
        let mut t: u32 = 0;
        while t < 0x400
            invariant
                keys@.len() == 0x400,
                t <= 0x400,
                no_altgr@.len() == 0x200,
                t <= 0x200 ==> forall|m: int| 0 <= m < 0x200 ==> no_altgr@[m] == '\0',
                self.dead_keys() == dead_key_fold(d0, keys@, t as int),
                self.altgr_keys() == old(self).altgr_keys(),
                self.layout() == layout,
            decreases 0x400 - t,
        {
            let has_altgr = t < 0x200;
            let has_shift = t % 0x200 < 0x100;
            let codepoint = t % 0x100;
            let altgr_codepoint: usize = if has_shift {
                (codepoint + 0x100) as usize
            } else {
                codepoint as usize
            };
            match keys[t as usize] {
                Ok(x) => {
                    if has_altgr {
                        if no_altgr[altgr_codepoint] != '\0' && no_altgr[altgr_codepoint] != x {
                            assert(false);
                            self.possible_altgr_keys.insert(
                                no_altgr[altgr_codepoint] as u64,
                                x,
                            );
                        }
                    } else {
                        no_altgr.set(altgr_codepoint, x);
                    }
                },
                Err(ParseVKError::DeadKey(ret)) => {
                    let mut dead_codepoint: u16 = codepoint as u16;
                    if has_altgr {
                        dead_codepoint = dead_codepoint + 0x200;
                    }
                    if has_shift {
                        dead_codepoint = dead_codepoint + 0x100;
                    }
                    assert(dead_codepoint == probe_number(t as int));
                    self.possible_dead_keys.insert(ret as u64, dead_codepoint);
                },
                Err(_) => {},
            }
            t += 1;
        }
    }
}

/// The keyboard state for translating a key; see `hook_keystate`.
pub fn calculate_keystate(base: &[u8; 256], has_shift: bool, has_altgr: bool, has_capslock: bool) -> (r: [u8; 256])
    ensures
        forall|j: int| 0 <= j < 256 ==> r@[j] == hook_keystate(base@, has_shift, has_altgr, has_capslock, j),
{
    let mut keystate = *base;
    keystate.set(0x10, if has_shift { 0x80 } else { 0 });
    keystate.set(0x11, if has_altgr { 0x80 } else { 0 });
    keystate.set(0x12, if has_altgr { 0x80 } else { 0 });
    keystate.set(0x14, if has_capslock { 1 } else { 0 });
    keystate
}

/// `WM_KEYDOWN`
pub const WM_KEYDOWN: u32 = 0x100;

/// `WM_KEYUP`
pub const WM_KEYUP: u32 = 0x101;

/// `WM_SYSKEYDOWN`
pub const WM_SYSKEYDOWN: u32 = 0x104;

/// Where the stand-alone hook stands.
#[derive(Clone, Copy, Debug, PartialEq, Eq, Structural)]
pub enum ComposeStage {
    /// No compose key pressed.
    Neutral,
    /// The compose key went down.
    ComposeKeydownFirst,
    /// Compose mode.
    ComposeKeyupFirst,
    /// The compose key went down a second time.
    ComposeKeydownSecond,
    /// Key presses make a sequence.
    SequenceMode,
    /// Search mode, which takes events as sequence mode does.
    SearchMode,
    /// Key presses make a Unicode code point.
    UnicodeMode,
}

/// What the stand-alone hook holds: its stage, the modifiers as it saw
/// them, the events held back, the sequence typed, and the Unicode entry.
pub struct AppModel {
    pub stage: ComposeStage,
    pub shift: bool,
    pub altgr: bool,
    pub capslock: bool,
    pub stored: Seq<KeyInput>,
    pub typed: Seq<char>,
    pub unicode: Seq<char>,
}

/// The outcome of one event: the new state, whether the event is taken,
/// and the inputs to send to the system.
pub struct AppStep {
    pub state: AppModel,
    pub taken: bool,
    pub sent: Seq<KeyInput>,
}

/// The shift keys.
pub open spec fn shift_vk(vk: u16) -> bool {
    vk == 0x10 || vk == 0xA0 || vk == 0xA1
}

/// Whether handling an event needs what the key gives under the layout,
/// and if so, whether the layout is to be analysed first (at the start of
/// a sequence).
pub open spec fn key_request(m: AppModel, code: u32, message: u32) -> Option<bool> {
    let vk = code as u16;
    let down = message == WM_KEYDOWN || message == WM_SYSKEYDOWN;
    if shift_vk(vk) || (vk == 0x14 && down) {
        None
    } else {
        match m.stage {
            ComposeStage::ComposeKeyupFirst => if !down || (message == WM_SYSKEYDOWN && code == 0xA5)
                || (message == WM_KEYDOWN && code == 0x55) {
                None
            } else {
                Some(true)
            },
            ComposeStage::ComposeKeydownSecond => if message == WM_KEYUP && code == 0xA5 {
                None
            } else {
                Some(true)
            },
            ComposeStage::SequenceMode => if down {
                Some(false)
            } else {
                None
            },
            ComposeStage::UnicodeMode => if down && is_hex_vk(vk) {
                Some(false)
            } else {
                None
            },
            _ => None,
        }
    }
}

/// The key of a sequence is typed: the sequence is looked up; a text is
/// typed back and the held events forgotten; a sequence with no text gives
/// back the held events after the first two; either way the hook is
/// neutral again.
pub open spec fn sequence_tree(m: AppModel, index: Map<Seq<char>, u64>, key: Result<char, ParseVKError>) -> AppStep {
    let (typed, res) = sequence_step(index, m.typed, key);
    match res {
        Ok(t) => AppStep {
            state: AppModel { typed, stored: seq![], stage: ComposeStage::Neutral, ..m },
            taken: true,
            sent: units_inputs(utf16_encode(t)),
        },
        Err(ComposeError::NotFound) => AppStep {
            state: AppModel { typed, stored: m.stored.take(2), stage: ComposeStage::Neutral, ..m },
            taken: true,
            sent: m.stored.skip(2),
        },
        Err(ComposeError::Incomplete) => AppStep {
            state: AppModel { typed, ..m },
            taken: true,
            sent: seq![],
        },
    }
}

/// What the stand-alone hook does with an event, given what the key gives
/// under the layout when `key_request` asks for it.
pub open spec fn app_step(
    m: AppModel,
    index: Map<Seq<char>, u64>,
    e: LowLevelEvent,
    message: u32,
    key: Option<Result<char, ParseVKError>>,
) -> AppStep {
    let vk = e.vk_code as u16;
    let down = message == WM_KEYDOWN || message == WM_SYSKEYDOWN;
    if shift_vk(vk) {
        AppStep { state: AppModel { shift: down, ..m }, taken: false, sent: seq![] }
    } else if vk == 0x14 && down {
        AppStep { state: AppModel { capslock: !m.capslock, ..m }, taken: false, sent: seq![] }
    } else {
        let h = AppModel {
            altgr: if vk == 0xA5 { down } else { m.altgr },
            stored: m.stored.push(event_input(e)),
            ..m
        };
        match m.stage {
            ComposeStage::Neutral => if message == WM_SYSKEYDOWN && e.vk_code == 0xA5 {
                AppStep { state: AppModel { stage: ComposeStage::ComposeKeydownFirst, ..h }, taken: true, sent: seq![] }
            } else {
                AppStep { state: AppModel { stored: seq![], ..h }, taken: false, sent: seq![] }
            },
            ComposeStage::ComposeKeydownFirst => if message == WM_KEYUP && e.vk_code == 0xA5 {
                AppStep { state: AppModel { stage: ComposeStage::ComposeKeyupFirst, ..h }, taken: true, sent: seq![] }
            } else {
                AppStep {
                    state: AppModel { stored: seq![], stage: ComposeStage::Neutral, ..h },
                    taken: true,
                    sent: h.stored,
                }
            },
            ComposeStage::ComposeKeyupFirst => if !down {
                AppStep { state: AppModel { stored: m.stored, ..h }, taken: true, sent: seq![] }
            } else if message == WM_SYSKEYDOWN && e.vk_code == 0xA5 {
                AppStep { state: AppModel { stage: ComposeStage::ComposeKeydownSecond, ..h }, taken: true, sent: seq![] }
            } else if message == WM_KEYDOWN && e.vk_code == 0x55 {
                AppStep { state: AppModel { stage: ComposeStage::UnicodeMode, ..h }, taken: true, sent: seq![] }
            } else {
                sequence_tree(AppModel { stage: ComposeStage::SequenceMode, ..h }, index, key->0)
            },
            ComposeStage::ComposeKeydownSecond => if message == WM_KEYUP && e.vk_code == 0xA5 {
                AppStep { state: AppModel { stage: ComposeStage::SearchMode, ..h }, taken: true, sent: seq![] }
            } else {
                sequence_tree(AppModel { stage: ComposeStage::SequenceMode, ..h }, index, key->0)
            },
            ComposeStage::SequenceMode => if down {
                sequence_tree(h, index, key->0)
            } else {
                AppStep { state: h, taken: true, sent: seq![] }
            },
            ComposeStage::SearchMode => AppStep { state: h, taken: true, sent: seq![] },
            ComposeStage::UnicodeMode => if down && is_hex_vk(vk) {
                let c = match key->0 {
                    Ok(c) => c,
                    Err(ParseVKError::DeadKey(c)) => c,
                    _ => ' ',
                };
                AppStep { state: AppModel { unicode: h.unicode.push(ascii_upper(c)), ..h }, taken: true, sent: seq![] }
            } else if !down && e.vk_code == VK_RETURN as u32 {
                match unicode_key(h.unicode) {
                    Some(c) => AppStep {
                        state: AppModel {
                            stored: seq![],
                            unicode: seq!['U'],
                            stage: ComposeStage::Neutral,
                            ..h
                        },
                        taken: true,
                        sent: units_inputs(utf16_encode(seq![c])),
                    },
                    None => AppStep {
                        state: AppModel {
                            stored: h.stored.take(2),
                            unicode: seq!['U'],
                            stage: ComposeStage::Neutral,
                            ..h
                        },
                        taken: true,
                        sent: h.stored.skip(2),
                    },
                }
            } else {
                AppStep { state: h, taken: true, sent: seq![] }
            },
        }
    }
}

/// Once the compose key went down the hook holds its event, and in the
/// stages of compose mode at least the two events of the compose key; the
/// Unicode entry starts with `U`.
pub open spec fn app_inv(m: AppModel) -> bool {
    &&& m.stage == ComposeStage::ComposeKeydownFirst ==> m.stored.len() >= 1
    &&& (m.stage == ComposeStage::ComposeKeyupFirst || m.stage == ComposeStage::ComposeKeydownSecond
        || m.stage == ComposeStage::SequenceMode || m.stage == ComposeStage::UnicodeMode)
        ==> m.stored.len() >= 2
    &&& m.unicode.len() > 0 && m.unicode[0] == 'U'
}

/// The key that `app_step` needs can be had: it is given exactly when
/// asked for, and it is no invalid text; in Unicode mode it is a character.
pub open spec fn key_fits(m: AppModel, code: u32, message: u32, key: Option<Result<char, ParseVKError>>) -> bool {
    &&& key is Some <==> key_request(m, code, message) is Some
    &&& key != Some(Err::<char, ParseVKError>(ParseVKError::InvalidUnicode))
    &&& (m.stage == ComposeStage::UnicodeMode && key is Some) ==> (key->0 is Ok || key->0 matches Err(
        ParseVKError::DeadKey(_),
    ))
}

/// Every event keeps the invariant of the stand-alone hook.
pub proof fn lemma_app_inv(
    m: AppModel,
    index: Map<Seq<char>, u64>,
    e: LowLevelEvent,
    message: u32,
    key: Option<Result<char, ParseVKError>>,
)
    requires
        app_inv(m),
    ensures
        app_inv(app_step(m, index, e, message, key).state),
{
}

/// Once compose mode is on, a key release is taken and does nothing: the
/// stage, the held events and the sequence stay, and nothing is sent.
pub proof fn lemma_app_compose_mode_ignores_releases(
    m: AppModel,
    index: Map<Seq<char>, u64>,
    e: LowLevelEvent,
    message: u32,
    key: Option<Result<char, ParseVKError>>,
)
    requires
        m.stage == ComposeStage::ComposeKeyupFirst,
        !shift_vk(e.vk_code as u16),
        message != WM_KEYDOWN && message != WM_SYSKEYDOWN,
    ensures
        app_step(m, index, e, message, key).taken,
        app_step(m, index, e, message, key).state.stage == m.stage,
        app_step(m, index, e, message, key).state.stored == m.stored,
        app_step(m, index, e, message, key).state.typed == m.typed,
        app_step(m, index, e, message, key).sent.len() == 0,
{
}

/// Search mode takes every event but shift and caps lock, as sequence
/// mode does, and sends nothing.
pub proof fn lemma_app_search_mode_takes(
    m: AppModel,
    index: Map<Seq<char>, u64>,
    e: LowLevelEvent,
    message: u32,
    key: Option<Result<char, ParseVKError>>,
)
    requires
        m.stage == ComposeStage::SearchMode,
        !shift_vk(e.vk_code as u16),
        !(e.vk_code as u16 == 0x14 && (message == WM_KEYDOWN || message == WM_SYSKEYDOWN)),
    ensures
        app_step(m, index, e, message, key).taken,
        app_step(m, index, e, message, key).state.stage == ComposeStage::SearchMode,
        app_step(m, index, e, message, key).sent.len() == 0,
{
}

/// The result of an event for the caller: whether the event started a
/// sequence, for which the keyboard layout is analysed afresh, whether it
/// is taken, and the inputs to send to the system.
pub struct AppOutcome {
    pub relayout: bool,
    pub taken: bool,
    pub sent: Vec<KeyInput>,
}

/// The keyboard hook of the stand-alone program.
pub struct KeyboardHook {
    stage: ComposeStage,
    has_shift: bool,
    has_altgr: bool,
    has_capslock: bool,
    controller: KeyboardController,
    sequence_state: SequenceState,
    unicode_state: UnicodeState,
    layout: KeyboardLayout,
}

impl View for KeyboardHook {
    type V = AppModel;

    closed spec fn view(&self) -> AppModel {
        AppModel {
            stage: self.stage,
            shift: self.has_shift,
            altgr: self.has_altgr,
            capslock: self.has_capslock,
            stored: self.controller.stored(),
            typed: self.sequence_state.typed(),
            unicode: self.unicode_state.typed(),
        }
    }
}

impl KeyboardHook {
    /// The sequences of the composer.
    pub closed spec fn index(&self) -> Map<Seq<char>, u64> {
        self.sequence_state.index()
    }

    /// The parts are well formed and the invariant holds.
    pub closed spec fn wf(&self) -> bool {
        &&& self.sequence_state.wf()
        &&& app_inv(self@)
    }

    /// A neutral hook with caps lock as the system has it.
    pub fn new(composer: Composer, has_capslock: bool) -> (r: Self)
        requires
            composer.wf(),
        ensures
            r.wf(),
            r.index() == composer.index(),
            r@ == (AppModel {
                stage: ComposeStage::Neutral,
                shift: false,
                altgr: false,
                capslock: has_capslock,
                stored: seq![],
                typed: seq![],
                unicode: seq!['U'],
            }),
    {
        let r = KeyboardHook {
            stage: ComposeStage::Neutral,
            has_shift: false,
            has_altgr: false,
            has_capslock,
            controller: KeyboardController::new(),
            sequence_state: SequenceState::new(composer),
            unicode_state: UnicodeState::new(),
            layout: KeyboardLayout::new(),
        };
        r
    }

    /// What handling `event` needs; see `key_request`.
    pub fn key_request(&self, event: &LowLevelEvent, message: u32) -> (r: Option<bool>)
        ensures
            r == key_request(self@, event.vk_code, message),
    {
        let vk = #[verifier::truncate] (event.vk_code as u16);
        let down = message == WM_KEYDOWN || message == WM_SYSKEYDOWN;
        if vk == 0x10 || vk == 0xA0 || vk == 0xA1 || (vk == 0x14 && down) {
            return None;
        }
        match self.stage {
            ComposeStage::ComposeKeyupFirst => if !down || (message == WM_SYSKEYDOWN && event.vk_code == 0xA5)
                || (message == WM_KEYDOWN && event.vk_code == 0x55) {
                None
            } else {
                Some(true)
            },
            ComposeStage::ComposeKeydownSecond => if message == WM_KEYUP && event.vk_code == 0xA5 {
                None
            } else {
                Some(true)
            },
            ComposeStage::SequenceMode => if down {
                Some(false)
            } else {
                None
            },
            ComposeStage::UnicodeMode => if down && is_hexadecimal(vk) {
                Some(false)
            } else {
                None
            },
            _ => None,
        }
    }

    /// The keyboard state for translating a key; see `hook_keystate`.
    pub fn keystate(&self, base: &[u8; 256]) -> (r: [u8; 256])
        ensures
            forall|j: int|
                0 <= j < 256 ==> r@[j] == hook_keystate(
                    base@,
                    self@.shift,
                    self@.altgr,
                    self@.capslock,
                    j,
                ),
    {
        calculate_keystate(base, self.has_shift, self.has_altgr, self.has_capslock)
    }

    /// What the hook knows of the keyboard layout.
    pub closed spec fn layout(&self) -> KeyboardLayout {
        self.layout
    }

    /// The dead keys learnt of the layout; see `KeyboardLayout::dead_keys`.
    pub closed spec fn dead_keys(&self) -> Map<u64, u16> {
        self.layout.dead_keys()
    }

    /// The probe of the dead key that gives `c`.
    pub fn dead_key(&self, c: char) -> (r: Option<u16>)
        ensures
            match r {
                Some(v) => self.dead_keys().contains_key(c as u64) && v == self.dead_keys()[c as u64],
                None => !self.dead_keys().contains_key(c as u64),
            },
    {
        self.layout.dead_key(c)
    }

    /// Learns the layout; see `KeyboardLayout::analyze_layout`.
    pub fn analyze_layout(&mut self, layout: usize, keys: &Vec<Result<char, ParseVKError>>)
        requires
            keys@.len() == 0x400,
        ensures
            final(self)@ == old(self)@,
            final(self).wf() == old(self).wf(),
            final(self).index() == old(self).index(),
            final(self).dead_keys() == dead_key_fold(old(self).dead_keys(), keys@, 0x400),
    {
        self.layout.analyze_layout(layout, keys);
    }

    /// Types one key of a sequence; see `sequence_tree`.
    fn sequence_tree(&mut self, key: Result<char, ParseVKError>) -> (r: AppOutcome)
        requires
            old(self).wf(),
            old(self)@.stored.len() >= 2,
            key != Err::<char, ParseVKError>(ParseVKError::InvalidUnicode),
        ensures
            final(self).sequence_state.wf(),
            final(self).index() == old(self).index(),
            final(self).layout() == old(self).layout(),
            final(self)@ == sequence_tree(old(self)@, old(self).index(), key).state,
            r.taken,
            !r.relayout,
            r.sent@ == sequence_tree(old(self)@, old(self).index(), key).sent,
    {
        let res = self.sequence_state.compose_sequence(key);
        match res {
            Ok(c) => {
                let sent = self.controller.send_string(c.as_str());
                self.stage = ComposeStage::Neutral;
                AppOutcome { relayout: false, taken: true, sent }
            },
            Err(ComposeError::NotFound) => {
                let sent = self.controller.abort_control(2);
                self.stage = ComposeStage::Neutral;
                AppOutcome { relayout: false, taken: true, sent }
            },
            Err(ComposeError::Incomplete) => AppOutcome { relayout: false, taken: true, sent: Vec::new() },
        }
    }

    /// Handles a key event; see `app_step`.
    pub fn process_event(&mut self, event: LowLevelEvent, message: u32, key: Option<Result<char, ParseVKError>>) -> (r: AppOutcome)
        requires
            old(self).wf(),
            key_fits(old(self)@, event.vk_code, message, key),
        ensures
            final(self).wf(),
            final(self).index() == old(self).index(),
            final(self).layout() == old(self).layout(),
            final(self)@ == app_step(old(self)@, old(self).index(), event, message, key).state,
            r.taken == app_step(old(self)@, old(self).index(), event, message, key).taken,
            r.sent@ == app_step(old(self)@, old(self).index(), event, message, key).sent,
            r.relayout == (key_request(old(self)@, event.vk_code, message) == Some(true)),
    {
        proof {
            lemma_app_inv(self@, self.index(), event, message, key);
        }
        let vk = #[verifier::truncate] (event.vk_code as u16);
        let is_keydown = message == WM_KEYDOWN || message == WM_SYSKEYDOWN;
        if vk == 0x10 || vk == 0xA0 || vk == 0xA1 {
            self.has_shift = is_keydown;
            return AppOutcome { relayout: false, taken: false, sent: Vec::new() };
        }
        if vk == 0xA5 {
            self.has_altgr = is_keydown;
        }
        if vk == 0x14 && is_keydown {
            self.has_capslock = !self.has_capslock;
            return AppOutcome { relayout: false, taken: false, sent: Vec::new() };
        }
        if !is_keydown && self.stage == ComposeStage::ComposeKeyupFirst {
            return AppOutcome { relayout: false, taken: true, sent: Vec::new() };
        }
        self.controller.push_input(&event);
        match self.stage {
            ComposeStage::Neutral => {
                if message == WM_SYSKEYDOWN && event.vk_code == 0xA5 {
                    self.stage = ComposeStage::ComposeKeydownFirst;
                    AppOutcome { relayout: false, taken: true, sent: Vec::new() }
                } else {
                    self.controller.clear_input();
                    AppOutcome { relayout: false, taken: false, sent: Vec::new() }
                }
            },
            ComposeStage::ComposeKeydownFirst => {
                if message == WM_KEYUP && event.vk_code == 0xA5 {
                    self.stage = ComposeStage::ComposeKeyupFirst;
                    AppOutcome { relayout: false, taken: true, sent: Vec::new() }
                } else {
                    let ghost held = self.controller.stored();
                    let sent = self.controller.abort_control(0);
                    assert(held.skip(0) =~= held);
                    assert(held.take(0) =~= Seq::<KeyInput>::empty());
                    self.stage = ComposeStage::Neutral;
                    AppOutcome { relayout: false, taken: true, sent }
                }
            },
            ComposeStage::ComposeKeyupFirst => {
                if message == WM_SYSKEYDOWN && event.vk_code == 0xA5 {
                    self.stage = ComposeStage::ComposeKeydownSecond;
                    AppOutcome { relayout: false, taken: true, sent: Vec::new() }
                } else if message == WM_KEYDOWN && event.vk_code == 0x55 {
                    self.stage = ComposeStage::UnicodeMode;
                    AppOutcome { relayout: false, taken: true, sent: Vec::new() }
                } else {
                    self.stage = ComposeStage::SequenceMode;
                    let mut o = self.sequence_tree(key.unwrap());
                    o.relayout = true;
                    o
                }
            },
            ComposeStage::ComposeKeydownSecond => {
                if message == WM_KEYUP && event.vk_code == 0xA5 {
                    self.stage = ComposeStage::SearchMode;
                    AppOutcome { relayout: false, taken: true, sent: Vec::new() }
                } else {
                    self.stage = ComposeStage::SequenceMode;
                    let mut o = self.sequence_tree(key.unwrap());
                    o.relayout = true;
                    o
                }
            },
            ComposeStage::SequenceMode => {
                if is_keydown {
                    self.sequence_tree(key.unwrap())
                } else {
                    AppOutcome { relayout: false, taken: true, sent: Vec::new() }
                }
            },
            ComposeStage::SearchMode => AppOutcome { relayout: false, taken: true, sent: Vec::new() },
            ComposeStage::UnicodeMode => {
                if is_keydown && is_hexadecimal(vk) {
                    self.unicode_state.push(key.unwrap());
                    AppOutcome { relayout: false, taken: true, sent: Vec::new() }
                } else if !is_keydown && event.vk_code == VK_RETURN as u32 {
                    let sent = match self.unicode_state.build_unicode() {
                        Ok(s) => self.controller.send_string(s.as_str()),
                        Err(_) => self.controller.abort_control(2),
                    };
                    self.stage = ComposeStage::Neutral;
                    AppOutcome { relayout: false, taken: true, sent }
                } else {
                    AppOutcome { relayout: false, taken: true, sent: Vec::new() }
                }
            },
        }
    }
}

} // verus!
