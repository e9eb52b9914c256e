use simbolmudah::compose::ComposeDef;
use simbolmudah::composer::{ComposeError, Composer};
use simbolmudah::keyboard_hook::{KeyInput, LowLevelEvent};
use simbolmudah::keysym::KeySymDef;
use simbolmudah::standalone::{
    calculate_keystate, is_hexadecimal, string_inputs, to_ascii_uppercase, vk_to_unicode,
    KeyboardController, KeyboardHook, KeyboardLayout, ParseVKError, SequenceState, UnicodeState,
};

fn keysym_line(name: &str, c: char) -> String {
    format!(
        "#define XK_{:<30}0x{:04x}  /* U+{:04X} SOME CHARACTER */",
        name, c as u32, c as u32
    )
}

fn composer() -> Composer {
    let keys: Vec<String> = [("o", 'o'), ("e", 'e'), ("a", 'a')]
        .iter()
        .map(|(n, c)| keysym_line(n, *c))
        .collect();
    let keysym = KeySymDef::new(&keys).unwrap();
    let lines = vec!["<Multi_key> <o> <e> : \"œ\" oe".to_string()];
    Composer::new(&ComposeDef::build(&keysym, &lines))
}

fn ev(vk: u32, up: bool) -> LowLevelEvent {
    LowLevelEvent { vk_code: vk, scan_code: 0, flags: if up { 0x80 } else { 0 }, time: 0, extra_info: 0 }
}

#[test]
fn composer_search() {
    let c = composer();
    assert_eq!(c.search(&"oe".to_string()), Ok("œ".to_string()));
    assert_eq!(c.search(&"o".to_string()), Err(ComposeError::Incomplete));
    assert_eq!(c.search(&"x".to_string()), Err(ComposeError::NotFound));
    assert_eq!(c.search(&"wkwk".to_string()), Ok("🤣".to_string()));
    assert_eq!(c.search(&"pr".to_string()), Ok("peradaban".to_string()));
}

#[test]
fn sequence_state_keeps_only_incomplete_sequences() {
    let mut s = SequenceState::new(composer());
    assert_eq!(s.compose_sequence(Ok('o')), Err(ComposeError::Incomplete));
    assert_eq!(s.compose_sequence(Err(ParseVKError::NoTranslation)), Err(ComposeError::Incomplete));
    assert_eq!(s.compose_sequence(Ok('e')), Ok("œ".to_string()));
    assert_eq!(s.compose_sequence(Err(ParseVKError::DeadKey('x'))), Err(ComposeError::NotFound));
    assert_eq!(s.compose_sequence(Ok('o')), Err(ComposeError::Incomplete));
}

#[test]
fn unicode_entry() {
    let mut u = UnicodeState::new();
    u.push(Ok('1'));
    u.push(Err(ParseVKError::DeadKey('f')));
    u.push(Ok('6'));
    u.push(Ok('0'));
    u.push(Ok('0'));
    assert_eq!(u.build_unicode(), Ok("😀".to_string()));
    assert_eq!(u.submit(), Err(ComposeError::NotFound));
    u.push_char('d');
    u.push_char('8');
    u.push_char('0');
    u.push_char('0');
    assert_eq!(u.build_unicode(), Err(ComposeError::NotFound));
    u.push_char('4');
    u.push_char('1');
    assert_eq!(u.submit(), Ok("A".to_string()));
}

#[test]
fn layout_answers() {
    let mut buf = [0u16; 8];
    assert_eq!(vk_to_unicode(0, &buf), Err(ParseVKError::NoTranslation));
    buf[0] = 'a' as u16;
    assert_eq!(vk_to_unicode(1, &buf), Ok('a'));
    assert_eq!(vk_to_unicode(-1, &buf), Err(ParseVKError::DeadKey('a')));
    buf[0] = 0xDC00;
    assert_eq!(vk_to_unicode(1, &buf), Err(ParseVKError::InvalidUnicode));
    assert_eq!(ParseVKError::DeadKey('^').to_string(), "Dead key is ^");
    assert_eq!(ParseVKError::NoTranslation.to_string(), "No VK translation available");
    assert_eq!(
        ParseVKError::InvalidUnicode.to_string(),
        "Invalid Unicode produced by ToUnicodeEx"
    );
}

#[test]
fn small_helpers() {
    assert_eq!(to_ascii_uppercase('f'), 'F');
    assert_eq!(to_ascii_uppercase('F'), 'F');
    assert_eq!(to_ascii_uppercase('é'), 'é');
    assert!(is_hexadecimal(0x30) && is_hexadecimal(0x69) && is_hexadecimal(0x46));
    assert!(!is_hexadecimal(0x47) && !is_hexadecimal(0x55));
    let base = [7u8; 256];
    let k = calculate_keystate(&base, true, false, true);
    assert_eq!((k[0x10], k[0x11], k[0x12], k[0x14], k[0x41]), (0x80, 0, 0, 1, 7));
    let inputs = string_inputs("a");
    assert_eq!(
        inputs,
        vec![
            KeyInput { vk: 0, scan: 0x61, flags: 0x4, time: 0, extra_info: 0 },
            KeyInput { vk: 0, scan: 0x61, flags: 0x6, time: 0, extra_info: 0 },
        ]
    );
    assert_eq!(string_inputs("😀").len(), 4);
}

#[test]
fn controller_holds_and_gives_back() {
    let mut c = KeyboardController::new();
    c.push_input(&ev(0x41, false));
    c.push_input(&ev(0x42, false));
    c.push_input(&ev(0x43, true));
    let sent = c.abort_control(2);
    assert_eq!(sent, vec![KeyInput { vk: 0x43, scan: 0, flags: 0xA, time: 0, extra_info: 0 }]);
    let sent = c.abort_control(0);
    assert_eq!(sent.len(), 2);
    c.push_input(&ev(0x41, false));
    let typed = c.send_string("é");
    assert_eq!(typed.len(), 2);
    assert!(c.abort_control(0).is_empty());
}

#[test]
fn stand_alone_hook_composes() {
    let mut h = KeyboardHook::new(composer(), false);
    let r = h.process_event(ev(0xA5, false), 0x104, None);
    assert!(r.taken);
    let r = h.process_event(ev(0xA5, true), 0x101, None);
    assert!(r.taken && r.sent.is_empty());
    assert_eq!(h.key_request(&ev(0x4F, false), 0x100), Some(true));
    let r = h.process_event(ev(0x4F, false), 0x100, Some(Ok('o')));
    assert!(r.taken && r.sent.is_empty() && r.relayout);
    assert_eq!(h.key_request(&ev(0x4F, true), 0x101), None);
    let r = h.process_event(ev(0x4F, true), 0x101, None);
    assert!(r.taken);
    assert_eq!(h.key_request(&ev(0x45, false), 0x100), Some(false));
    let r = h.process_event(ev(0x45, false), 0x100, Some(Ok('e')));
    assert!(r.taken && !r.relayout);
    assert_eq!(r.sent, string_inputs("œ"));
    let r = h.process_event(ev(0x45, true), 0x101, None);
    assert!(!r.taken);
}

#[test]
fn stand_alone_hook_unicode_mode() {
    let mut h = KeyboardHook::new(composer(), false);
    h.process_event(ev(0xA5, false), 0x104, None);
    h.process_event(ev(0xA5, true), 0x101, None);
    assert_eq!(h.key_request(&ev(0x55, false), 0x100), None);
    h.process_event(ev(0x55, false), 0x100, None);
    for (vk, c) in [(0x34u32, '4'), (0x31u32, '1')] {
        assert_eq!(h.key_request(&ev(vk, false), 0x100), Some(false));
        h.process_event(ev(vk, false), 0x100, Some(Ok(c)));
    }
    let r = h.process_event(ev(0x0D, true), 0x101, None);
    assert!(r.taken);
    assert_eq!(r.sent, string_inputs("A"));
}

#[test]
fn stand_alone_hook_gives_back_unknown_sequences() {
    let mut h = KeyboardHook::new(composer(), false);
    h.process_event(ev(0xA5, false), 0x104, None);
    h.process_event(ev(0xA5, true), 0x101, None);
    let r = h.process_event(ev(0x58, false), 0x100, Some(Ok('x')));
    assert!(r.taken);
    assert_eq!(r.sent, vec![KeyInput { vk: 0x58, scan: 0, flags: 0x8, time: 0, extra_info: 0 }]);
    let shift = h.process_event(ev(0x10, false), 0x100, None);
    assert!(!shift.taken && shift.sent.is_empty());
    let k = h.keystate(&[0u8; 256]);
    assert_eq!(k[0x10], 0x80);
}

#[test]
fn layout_probes() {
    let (vk, k) = KeyboardLayout::probe(0x141);
    assert_eq!(vk, 0x41);
    assert_eq!((k[0x10], k[0x11], k[0x12]), (0, 0x80, 0x80));
    let (vk, k) = KeyboardLayout::probe(0x241);
    assert_eq!(vk, 0x41);
    assert_eq!((k[0x10], k[0x11], k[0x12]), (0x80, 0, 0));
    let mut h = KeyboardHook::new(composer(), false);
    let mut keys: Vec<Result<char, ParseVKError>> =
        (0..0x400).map(|_| Err(ParseVKError::NoTranslation)).collect();
    keys[0x0DE] = Err(ParseVKError::DeadKey('^'));
    keys[0x2C0] = Err(ParseVKError::DeadKey('`'));
    keys[0x341] = Ok('a');
    h.analyze_layout(5, &keys);
    assert_eq!(h.dead_key('^'), Some(0x3DE));
    assert_eq!(h.dead_key('`'), Some(0x1C0));
    assert_eq!(h.dead_key('a'), None);
}

#[test]
fn stand_alone_hook_ignores_releases_in_compose_mode() {
    let mut h = KeyboardHook::new(composer(), false);
    h.process_event(ev(0xA5, false), 0x104, None);
    h.process_event(ev(0xA5, true), 0x101, None);
    assert_eq!(h.key_request(&ev(0x58, true), 0x101), None);
    let r = h.process_event(ev(0x58, true), 0x101, None);
    assert!(r.taken && r.sent.is_empty());
    assert_eq!(h.key_request(&ev(0x4F, false), 0x100), Some(true));
    h.process_event(ev(0x4F, false), 0x100, Some(Ok('o')));
    let r = h.process_event(ev(0x45, false), 0x100, Some(Ok('e')));
    assert_eq!(r.sent, string_inputs("œ"));
}

#[test]
fn stand_alone_hook_search_mode_takes_events() {
    let mut h = KeyboardHook::new(composer(), false);
    h.process_event(ev(0xA5, false), 0x104, None);
    h.process_event(ev(0xA5, true), 0x101, None);
    h.process_event(ev(0xA5, false), 0x104, None);
    let r = h.process_event(ev(0xA5, true), 0x101, None);
    assert!(r.taken);
    assert_eq!(h.key_request(&ev(0x41, false), 0x100), None);
    let r = h.process_event(ev(0x41, false), 0x100, None);
    assert!(r.taken && r.sent.is_empty());
    let r = h.process_event(ev(0x41, true), 0x101, None);
    assert!(r.taken && r.sent.is_empty());
}

#[test]
fn stand_alone_hook_compares_the_whole_key_code() {
    let mut h = KeyboardHook::new(composer(), false);
    let r = h.process_event(ev(0x100A5, false), 0x104, None);
    assert!(!r.taken && r.sent.is_empty());
    let r = h.process_event(ev(0xA5, false), 0x104, None);
    assert!(r.taken);
}
