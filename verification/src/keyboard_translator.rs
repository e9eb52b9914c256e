//! The keyboard translator: turns the keys that the hook forwards into
//! text, gathers that text into a compose sequence or a Unicode code point,
//! and decides what to report.
//!
//! What the keyboard layout makes of a key (`ToUnicodeEx`) comes from the
//! system; the translator takes those answers as arguments.
use vstd::prelude::*;
use crate::assoc::StringTable;
use crate::sequence_definition::{
    text_result, translation_outcome, SequenceDefinition, SequenceDefinitionError,
};
use crate::text::{
    char_from_u32, char_is_space, char_to_string, hex_value, is_hex, is_scalar, is_space,
    parse_radix16_u32, radix16_u32, str_chars, trim_end_from, trim_end_index, trim_end_len,
};
use crate::utf16::{decode_utf16, utf16_decode};

verus! {

/// `VK_SHIFT`
pub const VK_SHIFT: usize = 0x10;

/// `VK_CONTROL`
pub const VK_CONTROL: usize = 0x11;

/// `VK_MENU`
pub const VK_MENU: usize = 0x12;

/// `VK_CAPITAL`
pub const VK_CAPITAL: usize = 0x14;

/// Why a key gave no text.
#[derive(Clone, Copy, Debug, PartialEq, Eq, Structural)]
pub enum VKToUnicodeError {
    /// The layout gave code units that are no UTF-16 text.
    InvalidReturn,
    /// The key gives no character.
    NoTranslation,
}

/// The text of a key: produced at once, or by a dead key that waits for
/// the next one.
#[derive(Clone, Debug, PartialEq, Eq)]
pub enum StringVariant {
    LiveString(String),
    DeadString(String),
}

impl StringVariant {
    /// The text, whichever kind it is.
    pub open spec fn text(&self) -> Seq<char> {
        match self {
            StringVariant::LiveString(s) => s@,
            StringVariant::DeadString(s) => s@,
        }
    }

    /// The text, whichever kind it is.
    pub fn into_string(self) -> (r: String)
        ensures
            r@ == self.text(),
    {
        match self {
            StringVariant::LiveString(s) => s,
            StringVariant::DeadString(s) => s,
        }
    }
}

/// What the text of a key is, from what `ToUnicodeEx` answered: `status`
/// and `buffer` for the key, and, when the key was a dead key (negative
/// status), the answer to asking again.
pub open spec fn key_text(status: i32, buffer: Seq<u16>, retry: Option<(i32, Seq<u16>)>) -> Result<
    (bool, Seq<char>),
    VKToUnicodeError,
> {
    if status > 0 {
        match utf16_decode(buffer.take(status as int)) {
            Some(t) => Ok((false, t)),
            None => Err(VKToUnicodeError::InvalidReturn),
        }
    } else if status < 0 {
        match retry {
            Some((s2, b2)) => if s2 > 0 {
                match utf16_decode(b2.take(s2 as int)) {
                    Some(t) => Ok((true, t)),
                    None => Err(VKToUnicodeError::InvalidReturn),
                }
            } else {
                Err(VKToUnicodeError::NoTranslation)
            },
            None => Err(VKToUnicodeError::NoTranslation),
        }
    } else {
        Err(VKToUnicodeError::NoTranslation)
    }
}

/// The view of a key's text: whether a dead key gave it, and the text.
pub open spec fn variant_view(r: Result<StringVariant, VKToUnicodeError>) -> Result<
    (bool, Seq<char>),
    VKToUnicodeError,
> {
    match r {
        Ok(StringVariant::LiveString(s)) => Ok((false, s@)),
        Ok(StringVariant::DeadString(s)) => Ok((true, s@)),
        Err(e) => Err(e),
    }
}

/// The text of a key from the answers of `ToUnicodeEx`; see `key_text`.
pub fn vk_to_unicode(status: i32, buffer: &[u16], retry: Option<(i32, Vec<u16>)>) -> (r: Result<
    StringVariant,
    VKToUnicodeError,
>)
    requires
        status <= buffer@.len(),
        retry matches Some((s2, b2)) ==> s2 <= b2@.len(),
    ensures
        variant_view(r) == key_text(
            status,
            buffer@,
            match retry {
                Some((s2, b2)) => Some((s2, b2@)),
                None => None,
            },
        ),
{
    if status > 0 {
        let n = status as usize;
        let mut head: Vec<u16> = Vec::new();
        let mut i: usize = 0;
        while i < n
            invariant
                n == status as int,
                n <= buffer@.len(),
                i <= n,
                head@ == buffer@.take(i as int),
            decreases n - i,
        {
            head.push(buffer[i]);
            i += 1;
            assert(head@ =~= buffer@.take(i as int));
        }
        match decode_utf16(head.as_slice()) {
            Some(t) => Ok(StringVariant::LiveString(t)),
            None => Err(VKToUnicodeError::InvalidReturn),
        }
    } else if status < 0 {
        match retry {
            Some((s2, b2)) => {
                if s2 > 0 {
                    let n = s2 as usize;
                    let mut head: Vec<u16> = Vec::new();
                    let mut i: usize = 0;
                    while i < n
                        invariant
                            n == s2 as int,
                            n <= b2@.len(),
                            i <= n,
                            head@ == b2@.take(i as int),
                        decreases n - i,
                    {
                        head.push(b2[i]);
                        i += 1;
                        assert(head@ =~= b2@.take(i as int));
                    }
                    match decode_utf16(head.as_slice()) {
                        Some(t) => Ok(StringVariant::DeadString(t)),
                        None => Err(VKToUnicodeError::InvalidReturn),
                    }
                } else {
                    Err(VKToUnicodeError::NoTranslation)
                }
            },
            None => Err(VKToUnicodeError::NoTranslation),
        }
    } else {
        Err(VKToUnicodeError::NoTranslation)
    }
}

/// The keyboard state in which a key is translated: caps lock toggled,
/// shift down, and AltGr as Ctrl with Alt down, as the hook saw them.
pub open spec fn bg_keystate(has_capslock: bool, has_shift: bool, has_altgr: bool, j: int) -> u8 {
    if j == VK_CAPITAL && has_capslock {
        1
    } else if j == VK_SHIFT && has_shift {
        0x80
    } else if (j == VK_CONTROL || j == VK_MENU) && has_altgr {
        0x80
    } else {
        0
    }
}

/// The keyboard state for translating a key; see `bg_keystate`.
pub fn calculate_bg_keystate(has_capslock: bool, has_shift: bool, has_altgr: bool) -> (r: [u8; 256])
    ensures
        forall|j: int| 0 <= j < 256 ==> r@[j] == bg_keystate(has_capslock, has_shift, has_altgr, j),
{
    let mut keystate = [0u8; 256];
    if has_capslock {
        keystate.set(VK_CAPITAL, 1);
    }
    if has_shift {
        keystate.set(VK_SHIFT, 0x80);
    }
    if has_altgr {
        keystate.set(VK_CONTROL, 0x80);
        keystate.set(VK_MENU, 0x80);
    }
    keystate
}

/// What the translator asks its surroundings to do.
#[derive(Clone, Debug, PartialEq, Eq)]
pub enum TranslatorAction {
    /// Tell the listeners what a key gave.
    KeyTranslated(String),
    /// Put the text on the clipboard and paste it.
    SendText(String),
    /// Tell the listeners the text that was typed.
    Translated(String),
    /// Tell the listeners that the input is invalid, and why.
    Invalid(String),
}

/// The mathematical value of a `TranslatorAction`.
pub enum TranslatorActionView {
    KeyTranslated(Seq<char>),
    SendText(Seq<char>),
    Translated(Seq<char>),
    Invalid(Seq<char>),
}

impl View for TranslatorAction {
    type V = TranslatorActionView;

    open spec fn view(&self) -> TranslatorActionView {
        match self {
            TranslatorAction::KeyTranslated(s) => TranslatorActionView::KeyTranslated(s@),
            TranslatorAction::SendText(s) => TranslatorActionView::SendText(s@),
            TranslatorAction::Translated(s) => TranslatorActionView::Translated(s@),
            TranslatorAction::Invalid(s) => TranslatorActionView::Invalid(s@),
        }
    }
}

/// The views of a list of translator actions.
pub open spec fn translator_actions_view(v: Seq<TranslatorAction>) -> Seq<TranslatorActionView> {
    v.map_values(|a: TranslatorAction| a@)
}

/// The message of a sequence that translates to nothing.
pub open spec fn value_not_found_message() -> Seq<char> {
    seq!['V', 'a', 'l', 'u', 'e', ' ', 'n', 'o', 't', ' ', 'f', 'o', 'u', 'n', 'd']
}

/// The message of a key that the layout gives no text for.
pub open spec fn invalid_vk_message() -> Seq<char> {
    seq!['I', 'n', 'v', 'a', 'l', 'i', 'd', ' ', 'V', 'K', ' ', 'c', 'o', 'd', 'e']
}

/// What typing the text `s` in Unicode mode gives: once it ends with white
/// space, the character whose hexadecimal number comes before that space;
/// before that, `Incomplete`.
pub open spec fn unicode_outcome(s: Seq<char>) -> Result<Seq<char>, SequenceDefinitionError> {
    if s.len() > 0 && is_space(s.last()) {
        match radix16_u32(s.subrange(0, trim_end_len(s))) {
            Some(v) => if is_scalar(v as int) {
                Ok(seq![(v as int) as char])
            } else {
                Err(SequenceDefinitionError::ValueNotFound)
            },
            None => Err(SequenceDefinitionError::ValueNotFound),
        }
    } else {
        Err(SequenceDefinitionError::Incomplete)
    }
}

/// In Unicode mode, hexadecimal digits of either case whose number is a
/// character, followed by white space, give that character, and nothing of
/// the typed text stays.
pub proof fn lemma_unicode_entry_gives_char(h: Seq<char>, w: char)
    requires
        h.len() > 0,
        forall|i: int| 0 <= i < h.len() ==> is_hex(#[trigger] h[i]),
        is_scalar(hex_value(h) as int),
        is_space(w),
    ensures
        unicode_outcome(h.push(w)) == Ok::<Seq<char>, SequenceDefinitionError>(
            seq![(hex_value(h) as int) as char],
        ),
        state_after(h.push(w), unicode_outcome(h.push(w))) == Seq::<char>::empty(),
{
    let s = h.push(w);
    assert(!is_space(h.last()));
    assert(s[h.len() as int] == w);
    assert(s[h.len() - 1] == h.last());
    assert(trim_end_from(s, s.len() as int) == trim_end_from(s, h.len() as int));
    assert(trim_end_len(s) == h.len());
    assert(s.subrange(0, h.len() as int) =~= h);
    assert(h[0] != '+');
    assert(radix16_u32(h) == Some(hex_value(h) as u32));
}

/// In Unicode mode, text ended by white space that holds anything but
/// hexadecimal digits before that space (a leading `+` aside) is no
/// character, and nothing of it stays.
pub proof fn lemma_unicode_entry_rejects_non_hex(s: Seq<char>, i: int)
    requires
        s.len() > 0,
        is_space(s.last()),
        0 <= i < trim_end_len(s),
        !is_hex(s[i]),
        !(i == 0 && s[i] == '+'),
    ensures
        unicode_outcome(s) == Err::<Seq<char>, SequenceDefinitionError>(
            SequenceDefinitionError::ValueNotFound,
        ),
        state_after(s, unicode_outcome(s)) == Seq::<char>::empty(),
{
    crate::text::lemma_trim_end_from(s, s.len() as int);
    let b = s.subrange(0, trim_end_len(s));
    assert(b[i] == s[i]);
    if b.len() > 0 && b[0] == '+' {
        assert(b.drop_first()[i - 1] == b[i]);
    }
}

/// In Unicode mode, typed text that does not yet end with white space is
/// incomplete, and is kept.
pub proof fn lemma_unicode_entry_waits_for_space(s: Seq<char>)
    requires
        s.len() == 0 || !is_space(s.last()),
    ensures
        unicode_outcome(s) == Err::<Seq<char>, SequenceDefinitionError>(
            SequenceDefinitionError::Incomplete,
        ),
        state_after(s, unicode_outcome(s)) == s,
{
}

/// What is typed so far stays only while it is incomplete.
pub open spec fn state_after(s: Seq<char>, r: Result<Seq<char>, SequenceDefinitionError>) -> Seq<
    char,
> {
    if r == Err::<Seq<char>, SequenceDefinitionError>(SequenceDefinitionError::Incomplete) {
        s
    } else {
        Seq::empty()
    }
}

/// The text that the `j`-th probe of a layout gave, empty when it gave
/// none.
pub open spec fn probe_text(keys: Seq<Result<StringVariant, VKToUnicodeError>>, j: int) -> Seq<char> {
    match keys[j] {
        Ok(k) => k.text(),
        Err(_) => Seq::empty(),
    }
}

/// The AltGr texts that the first `n` probes teach: a probe with AltGr
/// (from 0x200 on) that gives a text maps that text to what the same key
/// gave without AltGr.
pub open spec fn altgr_fold(
    m: Map<Seq<char>, Seq<char>>,
    keys: Seq<Result<StringVariant, VKToUnicodeError>>,
    n: int,
) -> Map<Seq<char>, Seq<char>>
    decreases n,
{
    if n <= 0 {
        m
    } else {
        let prev = altgr_fold(m, keys, n - 1);
        if n - 1 >= 0x200 && keys[n - 1] is Ok {
            prev.insert(probe_text(keys, n - 1), probe_text(keys, n - 1 - 0x200))
        } else {
            prev
        }
    }
}

/// The dead keys that the first `n` probes teach: each dead key's text
/// maps to the probe's number.
pub open spec fn dead_fold(
    m: Map<Seq<char>, u16>,
    keys: Seq<Result<StringVariant, VKToUnicodeError>>,
    n: int,
) -> Map<Seq<char>, u16>
    decreases n,
{
    if n <= 0 {
        m
    } else {
        let prev = dead_fold(m, keys, n - 1);
        match keys[n - 1] {
            Ok(StringVariant::DeadString(d)) => prev.insert(d@, (n - 1) as u16),
            _ => prev,
        }
    }
}

/// The key and keyboard state of the `index`-th probe of a layout: the
/// low byte is the key, 0x100 adds shift and 0x200 adds AltGr.
pub fn probe(index: u32) -> (r: (u32, [u8; 256]))
    requires
        index < 0x400,
    ensures
        r.0 == index % 0x100,
        forall|j: int|
            0 <= j < 256 ==> r.1@[j] == bg_keystate(
                false,
                (index / 0x100) % 2 == 1,
                index >= 0x200,
                j,
            ),
{
    (index % 0x100, calculate_bg_keystate(false, (index / 0x100) % 2 == 1, index >= 0x200))
}

/// The translator: what was typed so far in the current mode, the layout it
/// last analysed, and what it learnt of that layout.
pub struct KeyboardTranslatorInternal {
    keyboard_layout: usize,
    possible_altgr: StringTable<String>,
    possible_dead: StringTable<u16>,
    state: String,
}

impl KeyboardTranslatorInternal {
    /// What was typed so far.
    pub closed spec fn typed(&self) -> Seq<char> {
        self.state@
    }

    /// The layout last analysed.
    pub closed spec fn layout(&self) -> usize {
        self.keyboard_layout
    }

    /// For each text that a key gives with AltGr, what the same key gives
    /// without it.
    pub closed spec fn altgr_keys(&self) -> Map<Seq<char>, Seq<char>> {
        self.possible_altgr@.map_values(|s: String| s@)
    }

    /// For each text that a dead key gives, the key with its modifiers.
    pub closed spec fn dead_keys(&self) -> Map<Seq<char>, u16> {
        self.possible_dead@
    }

    /// A translator that has typed nothing and analysed no layout.
    pub fn new() -> (r: Self)
        ensures
            r.typed() == Seq::<char>::empty(),
            r.layout() == 0,
            r.altgr_keys() == Map::<Seq<char>, Seq<char>>::empty(),
            r.dead_keys() == Map::<Seq<char>, u16>::empty(),
    {
        let r = KeyboardTranslatorInternal {
            keyboard_layout: 0,
            possible_altgr: StringTable::new(),
            possible_dead: StringTable::new(),
            state: String::new(),
        };
        assert(r.altgr_keys() =~= Map::<Seq<char>, Seq<char>>::empty());
        r
    }

    /// What was typed so far.
    pub fn state(&self) -> (r: &String)
        ensures
            r@ == self.typed(),
    {
        &self.state
    }

    /// The Unicode character typed so far; see `unicode_outcome`.
    pub fn parse_as_unicode(&self) -> (r: Result<String, SequenceDefinitionError>)
        ensures
            text_result(r) == unicode_outcome(self.typed()),
    {
        let s = str_chars(self.state.as_str());
        if s.len() == 0 || !char_is_space(s[s.len() - 1]) {
            return Err(SequenceDefinitionError::Incomplete);
        }
        let t = trim_end_index(&s, s.len());
        assert(t as int == trim_end_len(s@));
        match parse_radix16_u32(&s, 0, t) {
            Some(v) => match char_from_u32(v) {
                Some(c) => Ok(char_to_string(c)),
                None => Err(SequenceDefinitionError::ValueNotFound),
            },
            None => Err(SequenceDefinitionError::ValueNotFound),
        }
    }

    /// Adds `value` to what was typed and gives it to the sequence
    /// translator (destination 0) or the Unicode translator (1). What was
    /// typed is kept only while it is incomplete. Any other destination
    /// fails and changes nothing.
    pub fn forward(&mut self, destination: u8, value: &str, definition: &SequenceDefinition) -> (r:
        Result<String, SequenceDefinitionError>)
        requires
            definition.wf(),
        ensures
            destination == 0 ==> text_result(r) == translation_outcome(
                definition.translation(),
                old(self).typed() + value@,
            ),
            destination == 1 ==> text_result(r) == unicode_outcome(old(self).typed() + value@),
            destination == 0 || destination == 1 ==> final(self).typed() == state_after(
                old(self).typed() + value@,
                text_result(r),
            ),
            destination != 0 && destination != 1 ==> r == Err::<String, SequenceDefinitionError>(
                SequenceDefinitionError::Failure,
            ) && final(self).typed() == old(self).typed(),
            final(self).layout() == old(self).layout(),
            final(self).altgr_keys() == old(self).altgr_keys(),
            final(self).dead_keys() == old(self).dead_keys(),
    {
        if destination != 0 && destination != 1 {
            return Err(SequenceDefinitionError::Failure);
        }
        self.state.append(value);
        let result = if destination == 0 {
            definition.translate_sequence(self.state.as_str())
        } else {
            self.parse_as_unicode()
        };
        match result {
            Err(SequenceDefinitionError::Incomplete) => {},
            _ => {
                self.state = String::new();
            },
        }
        result
    }

    /// What to report of a result: a text is pasted and announced; a
    /// sequence with no value is reported invalid; an incomplete one is not
    /// reported; a failure is passed on.
    pub fn report(&self, result: Result<String, SequenceDefinitionError>) -> (r: Result<
        Vec<TranslatorAction>,
        SequenceDefinitionError,
    >)
        ensures
            match result {
                Ok(s) => r matches Ok(v) && translator_actions_view(v@) == seq![
                    TranslatorActionView::SendText(s@),
                    TranslatorActionView::Translated(s@),
                ],
                Err(SequenceDefinitionError::ValueNotFound) => r matches Ok(v)
                    && translator_actions_view(v@) == seq![
                    TranslatorActionView::Invalid(value_not_found_message()),
                ],
                Err(SequenceDefinitionError::Incomplete) => r matches Ok(v) && v@.len() == 0,
                Err(SequenceDefinitionError::Failure) => r == Err::<
                    Vec<TranslatorAction>,
                    SequenceDefinitionError,
                >(SequenceDefinitionError::Failure),
            },
    {
        match result {
            Ok(s) => {
                let mut v: Vec<TranslatorAction> = Vec::new();
                v.push(TranslatorAction::SendText(s.clone()));
                v.push(TranslatorAction::Translated(s));
                assert(translator_actions_view(v@) =~= seq![
                    TranslatorActionView::SendText(result->Ok_0@),
                    TranslatorActionView::Translated(result->Ok_0@),
                ]);
                Ok(v)
            },
            Err(SequenceDefinitionError::ValueNotFound) => {
                let m = vec!['V', 'a', 'l', 'u', 'e', ' ', 'n', 'o', 't', ' ', 'f', 'o', 'u', 'n', 'd'];
                assert(m@ =~= value_not_found_message());
                let mut v: Vec<TranslatorAction> = Vec::new();
                v.push(TranslatorAction::Invalid(crate::text::chars_to_string(&m)));
                assert(translator_actions_view(v@) =~= seq![
                    TranslatorActionView::Invalid(value_not_found_message()),
                ]);
                Ok(v)
            },
            Err(SequenceDefinitionError::Incomplete) => Ok(Vec::new()),
            Err(SequenceDefinitionError::Failure) => Err(SequenceDefinitionError::Failure),
        }
    }

    /// Handles a key that the hook forwards, given what the layout made of
    /// it: a key with no text is reported invalid and nothing else happens
    /// (the layout may still hold a dead key); otherwise the text is
    /// reported, forwarded, and the outcome reported.
    pub fn translate_and_forward(
        &mut self,
        key: Result<StringVariant, VKToUnicodeError>,
        destination: u8,
        definition: &SequenceDefinition,
    ) -> (r: Result<Vec<TranslatorAction>, SequenceDefinitionError>)
        requires
            definition.wf(),
        ensures
            key is Err ==> final(self).typed() == old(self).typed() && (r matches Ok(v)
                && translator_actions_view(v@) == seq![
                TranslatorActionView::Invalid(invalid_vk_message()),
            ]),
            key matches Ok(k) ==> {
                let typed = old(self).typed() + k.text();
                let outcome = if destination == 0 {
                    translation_outcome(definition.translation(), typed)
                } else if destination == 1 {
                    unicode_outcome(typed)
                } else {
                    Err(SequenceDefinitionError::Failure)
                };
                &&& final(self).typed() == if destination == 0 || destination == 1 {
                    state_after(typed, outcome)
                } else {
                    old(self).typed()
                }
                &&& match outcome {
                    Ok(t) => r matches Ok(v) && translator_actions_view(v@) == seq![
                        TranslatorActionView::KeyTranslated(k.text()),
                        TranslatorActionView::SendText(t),
                        TranslatorActionView::Translated(t),
                    ],
                    Err(SequenceDefinitionError::ValueNotFound) => r matches Ok(v)
                        && translator_actions_view(v@) == seq![
                        TranslatorActionView::KeyTranslated(k.text()),
                        TranslatorActionView::Invalid(value_not_found_message()),
                    ],
                    Err(SequenceDefinitionError::Incomplete) => r matches Ok(v)
                        && translator_actions_view(v@) == seq![
                        TranslatorActionView::KeyTranslated(k.text()),
                    ],
                    Err(SequenceDefinitionError::Failure) => r == Err::<
                        Vec<TranslatorAction>,
                        SequenceDefinitionError,
                    >(SequenceDefinitionError::Failure),
                }
            },
    {
        match key {
            Err(_) => {
                let m = vec!['I', 'n', 'v', 'a', 'l', 'i', 'd', ' ', 'V', 'K', ' ', 'c', 'o', 'd', 'e'];
                assert(m@ =~= invalid_vk_message());
                let mut v: Vec<TranslatorAction> = Vec::new();
                v.push(TranslatorAction::Invalid(crate::text::chars_to_string(&m)));
                assert(translator_actions_view(v@) =~= seq![
                    TranslatorActionView::Invalid(invalid_vk_message()),
                ]);
                Ok(v)
            },
            Ok(k) => {
                let value = k.into_string();
                let mut v: Vec<TranslatorAction> = Vec::new();
                v.push(TranslatorAction::KeyTranslated(value.clone()));
                let result = self.forward(destination, value.as_str(), definition);
                let ghost first = translator_actions_view(v@);
                match self.report(result) {
                    Ok(mut more) => {
                        let ghost later = translator_actions_view(more@);
                        v.append(&mut more);
                        assert(translator_actions_view(v@) =~= first + later);
                        Ok(v)
                    },
                    Err(e) => Err(e),
                }
            },
        }
    }

    /// Learns the AltGr texts and dead keys of a layout from what its
    /// 0x400 probes gave (see `probe`), adding to what was learnt before.
    pub fn analyze_layout(&mut self, keys: &Vec<Result<StringVariant, VKToUnicodeError>>)
        requires
            keys@.len() == 0x400,
        ensures
            final(self).altgr_keys() == altgr_fold(old(self).altgr_keys(), keys@, 0x400),
            final(self).dead_keys() == dead_fold(old(self).dead_keys(), keys@, 0x400),
            final(self).typed() == old(self).typed(),
            final(self).layout() == old(self).layout(),
    {
        let ghost a0 = self.altgr_keys();
        let ghost d0 = self.dead_keys();
        let mut no_altgr: Vec<String> = Vec::new();
        let mut j: usize = 0;
        while j < 0x200
            invariant
                j <= 0x200,
                no_altgr@.len() == j,
                forall|m: int| 0 <= m < j ==> (#[trigger] no_altgr@[m])@ == Seq::<char>::empty(),
            decreases 0x200 - j,
        {
            no_altgr.push(String::new());
            j += 1;
        }
        let mut i: usize = 0;
        while i < 0x400
            invariant
                keys@.len() == 0x400,
                i <= 0x400,
                no_altgr@.len() == 0x200,
                forall|m: int|
                    0 <= m < 0x200 ==> (#[trigger] no_altgr@[m])@ == if m < i {
                        probe_text(keys@, m)
                    } else {
                        Seq::<char>::empty()
                    },
                self.altgr_keys() == altgr_fold(a0, keys@, i as int),
                self.dead_keys() == dead_fold(d0, keys@, i as int),
                self.typed() == old(self).typed(),
                self.layout() == old(self).layout(),
            decreases 0x400 - i,
        {
            match &keys[i] {
                Ok(k) => {
                    let text = match k {
                        StringVariant::LiveString(s) => s.clone(),
                        StringVariant::DeadString(s) => s.clone(),
                    };
                    assert(text@ == probe_text(keys@, i as int));
                    if i >= 0x200 {
                        let before = no_altgr[i - 0x200].clone();
                        let ghost m0 = self.possible_altgr@;
                        self.possible_altgr.insert(text.clone(), before);
                        assert(self.altgr_keys() =~= m0.map_values(|s: String| s@).insert(
                            text@,
                            probe_text(keys@, i - 0x200),
                        ));
                    } else {
                        no_altgr.set(i, text.clone());
                    }
                    match k {
                        StringVariant::DeadString(d) => {
                            self.possible_dead.insert(d.clone(), i as u16);
                        },
                        StringVariant::LiveString(_) => {},
                    }
                },
                Err(_) => {},
            }
            i += 1;
        }
    }

    /// What the key that gives `text` with AltGr gives without it.
    pub fn altgr_key(&self, text: &String) -> (r: Option<&String>)
        ensures
            match r {
                Some(v) => self.altgr_keys().contains_key(text@) && v@ == self.altgr_keys()[text@],
                None => !self.altgr_keys().contains_key(text@),
            },
    {
        self.possible_altgr.get(text)
    }

    /// The probe of the dead key that gives `text`.
    pub fn dead_key(&self, text: &String) -> (r: Option<u16>)
        ensures
            match r {
                Some(v) => self.dead_keys().contains_key(text@) && v == self.dead_keys()[text@],
                None => !self.dead_keys().contains_key(text@),
            },
    {
        match self.possible_dead.get(text) {
            Some(v) => Some(*v),
            None => None,
        }
    }

    /// Notes the layout of the window in front; true when it differs from
    /// the one last analysed, which must then be analysed again.
    pub fn check_layout(&mut self, active_layout: usize) -> (changed: bool)
        ensures
            changed == (active_layout != old(self).layout()),
            final(self).layout() == active_layout,
            final(self).typed() == old(self).typed(),
            final(self).altgr_keys() == old(self).altgr_keys(),
            final(self).dead_keys() == old(self).dead_keys(),
    {
        if self.keyboard_layout == active_layout {
            return false;
        }
        self.keyboard_layout = active_layout;
        true
    }
}

} // verus!
