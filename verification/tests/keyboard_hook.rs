use simbolmudah::keyboard_hook::{
    kbdllhookstruct_to_keybdinput, HookAction, HookStage, KeyInput, KeyboardHookInternal,
    LowLevelEvent,
};

fn key(vk: u16, down: bool) -> KeyInput {
    KeyInput { vk, scan: 0, flags: if down { 0x8 } else { 0xA }, time: 0, extra_info: 0 }
}

const RMENU: u16 = 0xA5;

#[test]
fn compose_tap_opens_compose_mode() {
    let mut h = KeyboardHookInternal::new(false);
    let a = h.process_input(key(RMENU, true));
    assert!(a.taken);
    assert_eq!(a.actions, vec![HookAction::ReportState(1)]);
    let b = h.process_input(key(RMENU, false));
    assert!(b.taken);
    assert_eq!(b.actions, vec![HookAction::ReportState(2)]);
    assert_eq!(h.stage(), HookStage::ComposeKeyupFirst);
}

#[test]
fn idle_lets_keys_through() {
    let mut h = KeyboardHookInternal::new(false);
    let a = h.process_input(key(0x41, true));
    assert!(!a.taken);
    assert_eq!(a.actions, vec![HookAction::ReportState(0)]);
    assert_eq!(h.stage(), HookStage::Idle);
}

#[test]
fn other_key_after_compose_press_replays_the_held_events() {
    let mut h = KeyboardHookInternal::new(false);
    h.process_input(key(RMENU, true));
    let a = h.process_input(key(0x41, true));
    assert!(a.taken);
    assert_eq!(
        a.actions,
        vec![
            HookAction::SendInputs(vec![key(RMENU, true), key(0x41, true)]),
            HookAction::ReportState(0)
        ]
    );
    assert_eq!(h.stage(), HookStage::Idle);
}

#[test]
fn sequence_and_unicode_modes_forward_key_presses() {
    let mut h = KeyboardHookInternal::new(true);
    h.process_input(key(RMENU, true));
    h.process_input(key(RMENU, false));
    let shift = h.process_input(key(0x10, true));
    assert!(!shift.taken && shift.actions.is_empty());
    let a = h.process_input(key(0x41, true));
    assert!(a.taken);
    assert_eq!(
        a.actions,
        vec![
            HookAction::CheckLayoutAndUpdate,
            HookAction::TranslateAndForward {
                vk: 0x41,
                scan: 0,
                capslock: true,
                shift: true,
                altgr: false,
                destination: 0
            },
            HookAction::ReportState(4)
        ]
    );
    let up = h.process_input(key(0x41, false));
    assert!(up.taken && up.actions.is_empty());
    h.reset_state();
    assert_eq!(h.stage(), HookStage::Idle);

    h.process_input(key(RMENU, true));
    h.process_input(key(RMENU, false));
    let u = h.process_input(key(0x55, true));
    assert_eq!(h.stage(), HookStage::UnicodeMode);
    assert_eq!(u.actions.len(), 3);
    let d = h.process_input(key(0x31, true));
    assert_eq!(
        d.actions,
        vec![HookAction::TranslateAndForward {
            vk: 0x31,
            scan: 0,
            capslock: true,
            shift: true,
            altgr: false,
            destination: 1
        }]
    );
}

#[test]
fn double_compose_opens_search_which_lets_events_through() {
    let mut h = KeyboardHookInternal::new(false);
    h.process_input(key(RMENU, true));
    h.process_input(key(RMENU, false));
    h.process_input(key(RMENU, true));
    let a = h.process_input(key(RMENU, false));
    assert_eq!(a.actions, vec![HookAction::ReportState(5)]);
    assert_eq!(h.stage(), HookStage::SearchMode);
    let e = LowLevelEvent { vk_code: 0x41, scan_code: 30, flags: 0, time: 5, extra_info: 0 };
    let r = h.keyboard_procedure(0, 0x100, e);
    assert!(!r.taken && r.actions.is_empty());
}

#[test]
fn capslock_and_shift_are_never_taken() {
    let mut h = KeyboardHookInternal::new(false);
    h.process_input(key(RMENU, true));
    let c = h.process_input(key(0x14, true));
    assert!(!c.taken && c.actions.is_empty());
    assert_eq!(h.stage(), HookStage::ComposeKeydownFirst);
}

#[test]
fn procedure_reports_and_converts_events() {
    let mut h = KeyboardHookInternal::new(false);
    let e = LowLevelEvent { vk_code: 0xA5, scan_code: 0x38, flags: 0x1, time: 9, extra_info: 3 };
    let input = kbdllhookstruct_to_keybdinput(e);
    assert_eq!(input, KeyInput { vk: 0xA5, scan: 0x38, flags: 0x9, time: 9, extra_info: 3 });
    let r = h.keyboard_procedure(0, 0x104, e);
    assert!(r.taken);
    assert_eq!(r.actions, vec![HookAction::ReportKeyEvent(input), HookAction::ReportState(1)]);
    let up = LowLevelEvent { vk_code: 0xA5, scan_code: 0x38, flags: 0x81, time: 10, extra_info: 0 };
    assert_eq!(kbdllhookstruct_to_keybdinput(up).flags, 0xB);
    let injected = LowLevelEvent { flags: 0x10, ..e };
    let r = h.keyboard_procedure(0, 0x100, injected);
    assert!(!r.taken && r.actions.is_empty());
    let r = h.keyboard_procedure(1, 0x100, e);
    assert!(!r.taken && r.actions.is_empty());
    let r = h.keyboard_procedure(0, 0x200, e);
    assert!(!r.taken && r.actions.is_empty());
    assert_eq!(h.stage(), HookStage::ComposeKeydownFirst);
}

#[test]
fn key_event_report_text() {
    let input = KeyInput { vk: 165, scan: 56, flags: 9, time: 1234, extra_info: 0 };
    assert_eq!(
        simbolmudah::keyboard_hook::keybdinput_to_hstring(input),
        "KEYBDINPUT {\n\twVk: 165,\n\twScan: 56,\n\tdwFlags: 9,\n\ttime: 1234,\n\tdwExtraInfo: 0\n}"
    );
}

#[test]
fn compose_mode_ignores_key_releases() {
    let mut h = KeyboardHookInternal::new(false);
    h.process_input(key(RMENU, true));
    h.process_input(key(RMENU, false));
    let a = h.process_input(key(0x41, false));
    assert!(a.taken && a.actions.is_empty());
    assert_eq!(h.stage(), HookStage::ComposeKeyupFirst);
    let b = h.process_input(key(0x41, true));
    assert!(b.taken);
    assert_eq!(h.stage(), HookStage::SequenceMode);
}
