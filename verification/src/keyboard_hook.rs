//! The decisions of the low-level keyboard hook: which key events are
//! taken from the system, how the compose key opens sequence, Unicode and
//! search modes, and what the hook asks its surroundings to do.
//!
//! The hook does no input or output itself. Each event yields the actions
//! to perform, in order, and whether the event is taken; the caller performs
//! them, and lets the event through when one of them fails.
use vstd::prelude::*;
use crate::text::{decimal, decimal_digits};

verus! {

/// `WM_KEYDOWN`
pub const WM_KEYDOWN: u32 = 0x100;

/// `WM_KEYUP`
pub const WM_KEYUP: u32 = 0x101;

/// `WM_SYSKEYDOWN`
pub const WM_SYSKEYDOWN: u32 = 0x104;

/// `WM_SYSKEYUP`
pub const WM_SYSKEYUP: u32 = 0x105;

/// `VK_SHIFT`
pub const VK_SHIFT: u16 = 0x10;

/// `VK_CAPITAL`, the caps lock key.
pub const VK_CAPITAL: u16 = 0x14;

/// `VK_U`
pub const VK_U: u16 = 0x55;

/// `VK_LSHIFT`
pub const VK_LSHIFT: u16 = 0xA0;

/// `VK_RSHIFT`
pub const VK_RSHIFT: u16 = 0xA1;

/// `VK_RMENU`, the right Alt key, which is the compose key.
pub const VK_RMENU: u16 = 0xA5;

/// `KEYEVENTF_EXTENDEDKEY`
pub const KEYEVENTF_EXTENDEDKEY: u32 = 0x1;

/// `KEYEVENTF_KEYUP`
pub const KEYEVENTF_KEYUP: u32 = 0x2;

/// `KEYEVENTF_SCANCODE`
pub const KEYEVENTF_SCANCODE: u32 = 0x8;

/// `LLKHF_EXTENDED`
pub const LLKHF_EXTENDED: u32 = 0x1;

/// `LLKHF_INJECTED`
pub const LLKHF_INJECTED: u32 = 0x10;

/// `LLKHF_UP`
pub const LLKHF_UP: u32 = 0x80;

/// A keyboard input as `SendInput` takes it (`KEYBDINPUT`).
#[derive(Clone, Copy, Debug, PartialEq, Eq, Structural)]
pub struct KeyInput {
    pub vk: u16,
    pub scan: u16,
    pub flags: u32,
    pub time: u32,
    pub extra_info: usize,
}

/// A key event as the low-level hook receives it (`KBDLLHOOKSTRUCT`).
#[derive(Clone, Copy, Debug, PartialEq, Eq, Structural)]
pub struct LowLevelEvent {
    pub vk_code: u32,
    pub scan_code: u32,
    pub flags: u32,
    pub time: u32,
    pub extra_info: usize,
}

/// Where the hook stands.
#[derive(Clone, Copy, Debug, PartialEq, Eq, Structural)]
pub enum HookStage {
    /// No compose key pressed: only a compose key press is taken.
    Idle,
    /// The compose key went down: its release opens compose mode; any other
    /// key gives back the events held so far.
    ComposeKeydownFirst,
    /// Compose mode: a second compose press, `U` for Unicode mode, or any
    /// other key, which starts a sequence.
    ComposeKeyupFirst,
    /// The compose key went down a second time: its release opens search
    /// mode; any other key starts a sequence.
    ComposeKeydownSecond,
    /// Key presses go to the sequence translator.
    SequenceMode,
    /// The search takes over; the hook lets every event through.
    SearchMode,
    /// Key presses go to the Unicode translator.
    UnicodeMode,
}

/// The number by which the stage is reported.
pub open spec fn stage_number(s: HookStage) -> u8 {
    match s {
        HookStage::Idle => 0,
        HookStage::ComposeKeydownFirst => 1,
        HookStage::ComposeKeyupFirst => 2,
        HookStage::ComposeKeydownSecond => 3,
        HookStage::SequenceMode => 4,
        HookStage::SearchMode => 5,
        HookStage::UnicodeMode => 6,
    }
}

impl HookStage {
    /// The number by which the stage is reported.
    pub fn number(&self) -> (r: u8)
        ensures
            r == stage_number(*self),
    {
        match self {
            HookStage::Idle => 0,
            HookStage::ComposeKeydownFirst => 1,
            HookStage::ComposeKeyupFirst => 2,
            HookStage::ComposeKeydownSecond => 3,
            HookStage::SequenceMode => 4,
            HookStage::SearchMode => 5,
            HookStage::UnicodeMode => 6,
        }
    }
}

/// What the hook asks its surroundings to do.
#[derive(Clone, Debug, PartialEq, Eq)]
pub enum HookAction {
    /// Tell the listeners the stage, by its number.
    ReportState(u8),
    /// Tell the listeners of the key event received.
    ReportKeyEvent(KeyInput),
    /// Give the inputs back to the system, in order.
    SendInputs(Vec<KeyInput>),
    /// Let the translator read the keyboard layout again if it changed.
    CheckLayoutAndUpdate,
    /// Let the translator translate the key and forward the text to the
    /// sequence translator (destination 0) or the Unicode translator (1).
    TranslateAndForward {
        vk: u32,
        scan: u32,
        capslock: bool,
        shift: bool,
        altgr: bool,
        destination: u8,
    },
}

/// The mathematical value of a `HookAction`.
pub enum ActionView {
    ReportState(u8),
    ReportKeyEvent(KeyInput),
    SendInputs(Seq<KeyInput>),
    CheckLayoutAndUpdate,
    TranslateAndForward {
        vk: u32,
        scan: u32,
        capslock: bool,
        shift: bool,
        altgr: bool,
        destination: u8,
    },
}

impl View for HookAction {
    type V = ActionView;

    open spec fn view(&self) -> ActionView {
        match self {
            HookAction::ReportState(n) => ActionView::ReportState(*n),
            HookAction::ReportKeyEvent(i) => ActionView::ReportKeyEvent(*i),
            HookAction::SendInputs(v) => ActionView::SendInputs(v@),
            HookAction::CheckLayoutAndUpdate => ActionView::CheckLayoutAndUpdate,
            HookAction::TranslateAndForward { vk, scan, capslock, shift, altgr, destination } =>
                ActionView::TranslateAndForward {
                vk: *vk,
                scan: *scan,
                capslock: *capslock,
                shift: *shift,
                altgr: *altgr,
                destination: *destination,
            },
        }
    }
}

/// The views of a list of actions.
pub open spec fn actions_view(v: Seq<HookAction>) -> Seq<ActionView> {
    v.map_values(|a: HookAction| a@)
}

/// What the hook holds: the events taken and not yet given back, the
/// modifier keys as it saw them, and its stage.
pub struct HookModel {
    pub buffer: Seq<KeyInput>,
    pub capslock: bool,
    pub shift: bool,
    pub altgr: bool,
    pub stage: HookStage,
}

/// The outcome of one key event: the new state, whether the event is taken,
/// and the actions to perform in order.
pub struct HookStep {
    pub state: HookModel,
    pub taken: bool,
    pub actions: Seq<ActionView>,
}

/// The input is a key press, not a release.
pub open spec fn is_keydown(i: KeyInput) -> bool {
    i.flags & KEYEVENTF_KEYUP == 0
}

/// One of the shift keys.
pub open spec fn is_shift_key(vk: u16) -> bool {
    vk == VK_SHIFT || vk == VK_LSHIFT || vk == VK_RSHIFT
}

/// The translation request for `i` with the modifiers of `m`.
pub open spec fn translate_request(m: HookModel, i: KeyInput, destination: u8) -> ActionView {
    ActionView::TranslateAndForward {
        vk: i.vk as u32,
        scan: i.scan as u32,
        capslock: m.capslock,
        shift: m.shift,
        altgr: m.altgr,
        destination,
    }
}

/// The hook in stage `s`, with everything else of `m`.
pub open spec fn with_stage(m: HookModel, s: HookStage) -> HookModel {
    HookModel { stage: s, ..m }
}

/// What the hook does with the key event `i` in state `m`.
///
/// Shift and caps lock are only tracked and always let through. Any other
/// key is first held in the buffer; then the stage decides.
pub open spec fn hook_step(m: HookModel, i: KeyInput) -> HookStep {
    let down = is_keydown(i);
    if is_shift_key(i.vk) {
        HookStep { state: HookModel { shift: down, ..m }, taken: false, actions: seq![] }
    } else if i.vk == VK_CAPITAL {
        HookStep {
            state: HookModel { capslock: if down { !m.capslock } else { m.capslock }, ..m },
            taken: false,
            actions: seq![],
        }
    } else {
        let h = HookModel {
            altgr: if i.vk == VK_RMENU { down } else { m.altgr },
            buffer: m.buffer.push(i),
            ..m
        };
        let compose_down = down && i.vk == VK_RMENU;
        let compose_up = !down && i.vk == VK_RMENU;
        match m.stage {
            HookStage::Idle => if compose_down {
                HookStep {
                    state: with_stage(h, HookStage::ComposeKeydownFirst),
                    taken: true,
                    actions: seq![ActionView::ReportState(1)],
                }
            } else {
                HookStep {
                    state: HookModel { buffer: seq![], ..h },
                    taken: false,
                    actions: seq![ActionView::ReportState(0)],
                }
            },
            HookStage::ComposeKeydownFirst => if compose_up {
                HookStep {
                    state: with_stage(h, HookStage::ComposeKeyupFirst),
                    taken: true,
                    actions: seq![ActionView::ReportState(2)],
                }
            } else {
                HookStep {
                    state: HookModel { buffer: seq![], stage: HookStage::Idle, ..h },
                    taken: true,
                    actions: seq![ActionView::SendInputs(h.buffer), ActionView::ReportState(0)],
                }
            },
            HookStage::ComposeKeyupFirst => if !down {
                HookStep { state: HookModel { buffer: m.buffer, ..h }, taken: true, actions: seq![] }
            } else if compose_down {
                HookStep {
                    state: with_stage(h, HookStage::ComposeKeydownSecond),
                    taken: true,
                    actions: seq![ActionView::ReportState(3)],
                }
            } else if down && i.vk == VK_U {
                HookStep {
                    state: with_stage(h, HookStage::UnicodeMode),
                    taken: true,
                    actions: seq![
                        ActionView::CheckLayoutAndUpdate,
                        translate_request(h, i, 1),
                        ActionView::ReportState(6),
                    ],
                }
            } else {
                HookStep {
                    state: with_stage(h, HookStage::SequenceMode),
                    taken: true,
                    actions: seq![
                        ActionView::CheckLayoutAndUpdate,
                        translate_request(h, i, 0),
                        ActionView::ReportState(4),
                    ],
                }
            },
            HookStage::ComposeKeydownSecond => if compose_up {
                HookStep {
                    state: HookModel { buffer: seq![], stage: HookStage::SearchMode, ..h },
                    taken: true,
                    actions: seq![ActionView::ReportState(5)],
                }
            } else {
                HookStep {
                    state: with_stage(h, HookStage::SequenceMode),
                    taken: true,
                    actions: seq![
                        ActionView::CheckLayoutAndUpdate,
                        translate_request(h, i, 0),
                        ActionView::ReportState(4),
                    ],
                }
            },
            HookStage::SequenceMode => HookStep {
                state: h,
                taken: true,
                actions: if down {
                    seq![translate_request(h, i, 0)]
                } else {
                    seq![]
                },
            },
            HookStage::UnicodeMode => HookStep {
                state: h,
                taken: true,
                actions: if down {
                    seq![translate_request(h, i, 1)]
                } else {
                    seq![]
                },
            },
            HookStage::SearchMode => HookStep { state: h, taken: false, actions: seq![] },
        }
    }
}

/// In the idle stage the hook holds no event.
pub open spec fn idle_holds_nothing(m: HookModel) -> bool {
    m.stage == HookStage::Idle ==> m.buffer.len() == 0
}

/// Every key event keeps the hook from holding events while idle.
pub proof fn lemma_idle_holds_nothing(m: HookModel, i: KeyInput)
    requires
        idle_holds_nothing(m),
    ensures
        idle_holds_nothing(hook_step(m, i).state),
{
}

/// Shift and caps lock are never taken: they leave the held events, the
/// stage and the actions untouched.
pub proof fn lemma_modifiers_pass_through(m: HookModel, i: KeyInput)
    requires
        is_shift_key(i.vk) || i.vk == VK_CAPITAL,
    ensures
        !hook_step(m, i).taken,
        hook_step(m, i).actions.len() == 0,
        hook_step(m, i).state.buffer == m.buffer,
        hook_step(m, i).state.stage == m.stage,
{
}

/// The hook remembers the modifiers as the events show them: shift is down
/// after a shift press and up after its release, caps lock flips on each
/// press, and the compose key counts as AltGr while it is down.
pub proof fn lemma_modifier_tracking(m: HookModel, i: KeyInput)
    ensures
        is_shift_key(i.vk) ==> hook_step(m, i).state.shift == is_keydown(i),
        !is_shift_key(i.vk) ==> hook_step(m, i).state.shift == m.shift,
        i.vk == VK_CAPITAL ==> hook_step(m, i).state.capslock == (m.capslock != is_keydown(i)),
        i.vk != VK_CAPITAL ==> hook_step(m, i).state.capslock == m.capslock,
        i.vk == VK_RMENU ==> hook_step(m, i).state.altgr == is_keydown(i),
        i.vk != VK_RMENU ==> hook_step(m, i).state.altgr == m.altgr,
{
}

/// A key is only sent for translation in sequence or Unicode mode, and
/// to the translator of that mode: destination 0 for sequences, 1 for
/// Unicode.
pub proof fn lemma_translation_destination(m: HookModel, i: KeyInput, j: int)
    requires
        0 <= j < hook_step(m, i).actions.len(),
        hook_step(m, i).actions[j] is TranslateAndForward,
    ensures
        hook_step(m, i).state.stage == HookStage::SequenceMode ==> hook_step(m, i).actions[j]->destination == 0,
        hook_step(m, i).state.stage == HookStage::UnicodeMode ==> hook_step(m, i).actions[j]->destination == 1,
        hook_step(m, i).state.stage == HookStage::SequenceMode || hook_step(m, i).state.stage
            == HookStage::UnicodeMode,
{
}

/// A key sent for translation is the key of the event, with the modifiers
/// as the hook holds them after the event: a key typed while AltGr, shift
/// or caps lock is on is translated with it on.
pub proof fn lemma_translation_carries_modifiers(m: HookModel, i: KeyInput, j: int)
    requires
        0 <= j < hook_step(m, i).actions.len(),
        hook_step(m, i).actions[j] is TranslateAndForward,
    ensures
        hook_step(m, i).actions[j]->vk == i.vk as u32,
        hook_step(m, i).actions[j]->scan == i.scan as u32,
        hook_step(m, i).actions[j]->altgr == hook_step(m, i).state.altgr,
        hook_step(m, i).actions[j]->shift == hook_step(m, i).state.shift,
        hook_step(m, i).actions[j]->capslock == hook_step(m, i).state.capslock,
{
}

/// In compose mode every key other than shift and caps lock is taken.
pub proof fn lemma_compose_mode_takes_keys(m: HookModel, i: KeyInput)
    requires
        m.stage == HookStage::ComposeKeyupFirst || m.stage == HookStage::ComposeKeydownSecond
            || m.stage == HookStage::SequenceMode || m.stage == HookStage::UnicodeMode,
        !is_shift_key(i.vk),
        i.vk != VK_CAPITAL,
    ensures
        hook_step(m, i).taken,
{
}

/// Once compose mode is on, a key release is taken and does nothing: the
/// stage and the held events stay, and nothing is sent for translation.
pub proof fn lemma_compose_mode_ignores_releases(m: HookModel, i: KeyInput)
    requires
        m.stage == HookStage::ComposeKeyupFirst,
        !is_shift_key(i.vk),
        i.vk != VK_CAPITAL,
        !is_keydown(i),
    ensures
        hook_step(m, i).taken,
        hook_step(m, i).state.stage == m.stage,
        hook_step(m, i).state.buffer == m.buffer,
        hook_step(m, i).actions.len() == 0,
{
}

/// Outside compose mode only a press of the compose key is taken; every
/// other key goes through and the hook stays idle.
pub proof fn lemma_idle_lets_keys_through(m: HookModel, i: KeyInput)
    requires
        m.stage == HookStage::Idle,
        idle_holds_nothing(m),
        !(is_keydown(i) && i.vk == VK_RMENU),
    ensures
        !hook_step(m, i).taken,
        hook_step(m, i).state.stage == HookStage::Idle,
        hook_step(m, i).state.buffer.len() == 0,
{
}

/// Pressing and releasing the compose key while idle opens compose mode;
/// both events are taken and held.
pub proof fn lemma_compose_tap(m: HookModel, down: KeyInput, up: KeyInput)
    requires
        m.stage == HookStage::Idle,
        idle_holds_nothing(m),
        down.vk == VK_RMENU && is_keydown(down),
        up.vk == VK_RMENU && !is_keydown(up),
    ensures
        hook_step(m, down).taken,
        hook_step(hook_step(m, down).state, up).taken,
        hook_step(hook_step(m, down).state, up).state.stage == HookStage::ComposeKeyupFirst,
        hook_step(hook_step(m, down).state, up).state.buffer == seq![down, up],
{
    assert(m.buffer.push(down).push(up) =~= seq![down, up]);
}

/// When the compose key is used for something else, the events held so
/// far are given back to the system in their order, followed by the new
/// one, and the hook is idle again.
pub proof fn lemma_replay_on_abort(m: HookModel, i: KeyInput)
    requires
        m.stage == HookStage::ComposeKeydownFirst,
        !is_shift_key(i.vk),
        i.vk != VK_CAPITAL,
        !(!is_keydown(i) && i.vk == VK_RMENU),
    ensures
        hook_step(m, i).taken,
        hook_step(m, i).actions[0] == ActionView::SendInputs(m.buffer.push(i)),
        hook_step(m, i).state.stage == HookStage::Idle,
        hook_step(m, i).state.buffer.len() == 0,
{
}

/// The input that replays a low-level key event: the scan code is used,
/// and the extended and release marks carry over.
pub open spec fn event_input(e: LowLevelEvent) -> KeyInput {
    KeyInput {
        vk: e.vk_code as u16,
        scan: e.scan_code as u16,
        flags: KEYEVENTF_SCANCODE | (if e.flags & LLKHF_EXTENDED != 0 {
            KEYEVENTF_EXTENDEDKEY
        } else {
            0u32
        }) | (if e.flags & LLKHF_UP != 0 {
            KEYEVENTF_KEYUP
        } else {
            0u32
        }),
        time: e.time,
        extra_info: e.extra_info,
    }
}

/// The hook looks at an event: an action code (`HC_ACTION`), a key message,
/// and not an input that a program injected.
pub open spec fn hook_looks_at(ncode: i32, message: u32, e: LowLevelEvent) -> bool {
    &&& ncode == 0
    &&& (message == WM_KEYDOWN || message == WM_SYSKEYDOWN || message == WM_KEYUP || message
        == WM_SYSKEYUP)
    &&& e.flags & LLKHF_INJECTED == 0
}

/// The input that replays a low-level key event (`KBDLLHOOKSTRUCT` to
/// `KEYBDINPUT`).
pub fn kbdllhookstruct_to_keybdinput(event: LowLevelEvent) -> (r: KeyInput)
    ensures
        r == event_input(event),
{
    let extended: u32 = if event.flags & LLKHF_EXTENDED != 0 {
        KEYEVENTF_EXTENDEDKEY
    } else {
        0
    };
    let released: u32 = if event.flags & LLKHF_UP != 0 {
        KEYEVENTF_KEYUP
    } else {
        0
    };
    KeyInput {
        vk: #[verifier::truncate] (event.vk_code as u16),
        scan: #[verifier::truncate] (event.scan_code as u16),
        flags: KEYEVENTF_SCANCODE | extended | released,
        time: event.time,
        extra_info: event.extra_info,
    }
}

/// The text by which a key event is reported to the listeners.
pub open spec fn key_input_text(i: KeyInput) -> Seq<char> {
    seq!['K', 'E', 'Y', 'B', 'D', 'I', 'N', 'P', 'U', 'T', ' ', '{', '\n', '\t', 'w', 'V', 'k', ':', ' ']
        + decimal(i.vk as nat) + seq![',', '\n', '\t', 'w', 'S', 'c', 'a', 'n', ':', ' '] + decimal(
        i.scan as nat,
    ) + seq![',', '\n', '\t', 'd', 'w', 'F', 'l', 'a', 'g', 's', ':', ' '] + decimal(i.flags as nat)
        + seq![',', '\n', '\t', 't', 'i', 'm', 'e', ':', ' '] + decimal(i.time as nat) + seq![
        ',',
        '\n',
        '\t',
        'd',
        'w',
        'E',
        'x',
        't',
        'r',
        'a',
        'I',
        'n',
        'f',
        'o',
        ':',
        ' ',
    ] + decimal(i.extra_info as nat) + seq!['\n', '}']
}

/// Appends `b` to `a`.
fn append_chars(a: &mut Vec<char>, b: &Vec<char>)
    ensures
        final(a)@ == old(a)@ + b@,
{
    let mut i: usize = 0;
    let ghost start = a@;
    while i < b.len()
        invariant
            i <= b@.len(),
            a@ == start + b@.take(i as int),
        decreases b@.len() - i,
    {
        a.push(b[i]);
        i += 1;
        assert(a@ =~= start + b@.take(i as int));
    }
    assert(b@.take(i as int) =~= b@);
}

/// The text by which a key event is reported; see `key_input_text`.
pub fn keybdinput_to_hstring(input: KeyInput) -> (r: String)
    ensures
        r@ == key_input_text(input),
{
    let mut t: Vec<char> = vec![
        'K', 'E', 'Y', 'B', 'D', 'I', 'N', 'P', 'U', 'T', ' ', '{', '\n', '\t', 'w', 'V', 'k', ':', ' ',
    ];
    append_chars(&mut t, &decimal_digits(input.vk as u64));
    append_chars(&mut t, &vec![',', '\n', '\t', 'w', 'S', 'c', 'a', 'n', ':', ' ']);
    append_chars(&mut t, &decimal_digits(input.scan as u64));
    append_chars(&mut t, &vec![',', '\n', '\t', 'd', 'w', 'F', 'l', 'a', 'g', 's', ':', ' ']);
    append_chars(&mut t, &decimal_digits(input.flags as u64));
    append_chars(&mut t, &vec![',', '\n', '\t', 't', 'i', 'm', 'e', ':', ' ']);
    append_chars(&mut t, &decimal_digits(input.time as u64));
    append_chars(
        &mut t,
        &vec![',', '\n', '\t', 'd', 'w', 'E', 'x', 't', 'r', 'a', 'I', 'n', 'f', 'o', ':', ' '],
    );
    append_chars(&mut t, &decimal_digits(input.extra_info as u64));
    append_chars(&mut t, &vec!['\n', '}']);
    assert(t@ =~= key_input_text(input));
    crate::text::chars_to_string(&t)
}

/// The keyboard hook: the events taken and not given back yet, the modifier
/// keys as they were seen, and the stage.
pub struct KeyboardHookInternal {
    input_buffer: Vec<KeyInput>,
    has_capslock: bool,
    has_shift: bool,
    has_altgr: bool,
    stage: HookStage,
}

impl View for KeyboardHookInternal {
    type V = HookModel;

    closed spec fn view(&self) -> HookModel {
        HookModel {
            buffer: self.input_buffer@,
            capslock: self.has_capslock,
            shift: self.has_shift,
            altgr: self.has_altgr,
            stage: self.stage,
        }
    }
}

/// The result of one event for the caller: whether the event is taken, and
/// the actions to perform in order.
pub struct HookOutcome {
    pub taken: bool,
    pub actions: Vec<HookAction>,
}

impl KeyboardHookInternal {
    /// A hook in the idle stage, with caps lock as the system has it.
    pub fn new(has_capslock: bool) -> (r: Self)
        ensures
            r@ == (HookModel {
                buffer: seq![],
                capslock: has_capslock,
                shift: false,
                altgr: false,
                stage: HookStage::Idle,
            }),
    {
        let r = KeyboardHookInternal {
            input_buffer: Vec::new(),
            has_capslock,
            has_shift: false,
            has_altgr: false,
            stage: HookStage::Idle,
        };
        assert(r@.buffer =~= seq![]);
        r
    }

    /// The stage.
    pub fn stage(&self) -> (r: HookStage)
        ensures
            r == self@.stage,
    {
        self.stage
    }

    /// The request to translate `input` with the modifiers seen so far,
    /// for the translator of the current mode.
    fn translate_and_forward(&self, input: KeyInput) -> (r: HookAction)
        requires
            self.stage == HookStage::SequenceMode || self.stage == HookStage::UnicodeMode,
        ensures
            r@ == translate_request(
                self@,
                input,
                if self.stage == HookStage::SequenceMode {
                    0u8
                } else {
                    1u8
                },
            ),
    {
        HookAction::TranslateAndForward {
            vk: input.vk as u32,
            scan: input.scan as u32,
            capslock: self.has_capslock,
            shift: self.has_shift,
            altgr: self.has_altgr,
            destination: match self.stage {
                HookStage::SequenceMode => 0,
                _ => 1,
            },
        }
    }

    /// The report of the current stage.
    fn report_state(&self) -> (r: HookAction)
        ensures
            r@ == ActionView::ReportState(stage_number(self.stage)),
    {
        HookAction::ReportState(self.stage.number())
    }

    /// Handles one key input; see `hook_step`.
    pub fn process_input(&mut self, input: KeyInput) -> (r: HookOutcome)
        ensures
            final(self)@ == hook_step(old(self)@, input).state,
            r.taken == hook_step(old(self)@, input).taken,
            actions_view(r.actions@) == hook_step(old(self)@, input).actions,
    {
        let is_keydown = input.flags & KEYEVENTF_KEYUP == 0;
        let mut actions: Vec<HookAction> = Vec::new();
        if input.vk == VK_SHIFT || input.vk == VK_LSHIFT || input.vk == VK_RSHIFT {
            self.has_shift = is_keydown;
            assert(actions_view(actions@) =~= seq![]);
            return HookOutcome { taken: false, actions };
        }
        if input.vk == VK_RMENU {
            self.has_altgr = is_keydown;
        }
        if input.vk == VK_CAPITAL {
            if is_keydown {
                self.has_capslock = !self.has_capslock;
            }
            assert(actions_view(actions@) =~= seq![]);
            return HookOutcome { taken: false, actions };
        }
        if !is_keydown && self.stage == HookStage::ComposeKeyupFirst {
            assert(actions_view(actions@) =~= seq![]);
            return HookOutcome { taken: true, actions };
        }
        self.input_buffer.push(input);
        let taken = match self.stage {
            HookStage::Idle => {
                if is_keydown && input.vk == VK_RMENU {
                    self.stage = HookStage::ComposeKeydownFirst;
                    actions.push(self.report_state());
                    true
                } else {
                    self.input_buffer.clear();
                    actions.push(self.report_state());
                    false
                }
            },
            HookStage::ComposeKeydownFirst => {
                if !is_keydown && input.vk == VK_RMENU {
                    self.stage = HookStage::ComposeKeyupFirst;
                } else {
                    let mut held: Vec<KeyInput> = Vec::new();
                    std::mem::swap(&mut held, &mut self.input_buffer);
                    actions.push(HookAction::SendInputs(held));
                    self.stage = HookStage::Idle;
                }
                actions.push(self.report_state());
                true
            },
            HookStage::ComposeKeyupFirst => {
                if is_keydown && input.vk == VK_RMENU {
                    self.stage = HookStage::ComposeKeydownSecond;
                } else if is_keydown && input.vk == VK_U {
                    self.stage = HookStage::UnicodeMode;
                    actions.push(HookAction::CheckLayoutAndUpdate);
                    actions.push(self.translate_and_forward(input));
                } else {
                    self.stage = HookStage::SequenceMode;
                    actions.push(HookAction::CheckLayoutAndUpdate);
                    actions.push(self.translate_and_forward(input));
                }
                actions.push(self.report_state());
                true
            },
            HookStage::ComposeKeydownSecond => {
                if !is_keydown && input.vk == VK_RMENU {
                    self.stage = HookStage::SearchMode;
                    self.input_buffer.clear();
                } else {
                    self.stage = HookStage::SequenceMode;
                    actions.push(HookAction::CheckLayoutAndUpdate);
                    actions.push(self.translate_and_forward(input));
                }
                actions.push(self.report_state());
                true
            },
            HookStage::SequenceMode => {
                if is_keydown {
                    actions.push(self.translate_and_forward(input));
                }
                true
            },
            HookStage::UnicodeMode => {
                if is_keydown {
                    actions.push(self.translate_and_forward(input));
                }
                true
            },
            HookStage::SearchMode => false,
        };
        assert(actions_view(actions@) =~= hook_step(old(self)@, input).actions);
        assert(self@.buffer =~= hook_step(old(self)@, input).state.buffer);
        HookOutcome { taken, actions }
    }

    /// Back to the idle stage with nothing held, as when the translator
    /// reports a translation or a failure.
    pub fn reset_state(&mut self) -> (r: HookAction)
        ensures
            final(self)@ == (HookModel { buffer: seq![], stage: HookStage::Idle, ..old(self)@ }),
            r@ == ActionView::ReportState(0),
    {
        self.stage = HookStage::Idle;
        self.input_buffer.clear();
        assert(self@.buffer =~= seq![]);
        self.report_state()
    }

    /// The hook procedure: looks at key messages that no program injected,
    /// lets everything through in search mode, and otherwise reports the
    /// event and handles it.
    pub fn keyboard_procedure(&mut self, ncode: i32, message: u32, event: LowLevelEvent) -> (r:
        HookOutcome)
        ensures
            !hook_looks_at(ncode, message, event) || old(self)@.stage == HookStage::SearchMode
                ==> final(self)@ == old(self)@ && !r.taken && r.actions@.len() == 0,
            hook_looks_at(ncode, message, event) && old(self)@.stage != HookStage::SearchMode
                ==> {
                let s = hook_step(old(self)@, event_input(event));
                &&& final(self)@ == s.state
                &&& r.taken == s.taken
                &&& actions_view(r.actions@) == seq![ActionView::ReportKeyEvent(event_input(event))]
                    + s.actions
            },
    {
        let is_key = message == WM_KEYDOWN || message == WM_SYSKEYDOWN || message == WM_KEYUP
            || message == WM_SYSKEYUP;
        let is_injected = event.flags & LLKHF_INJECTED != 0;
        if ncode != 0 || !is_key || is_injected || self.stage == HookStage::SearchMode {
            return HookOutcome { taken: false, actions: Vec::new() };
        }
        let input = kbdllhookstruct_to_keybdinput(event);
        let mut actions: Vec<HookAction> = Vec::new();
        actions.push(HookAction::ReportKeyEvent(input));
        let outcome = self.process_input(input);
        let mut rest = outcome.actions;
        let ghost first = actions_view(actions@);
        let ghost later = actions_view(rest@);
        actions.append(&mut rest);
        assert(actions_view(actions@) =~= first + later);
        HookOutcome { taken: outcome.taken, actions }
    }
}

} // verus!
