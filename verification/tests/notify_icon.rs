use simbolmudah::notify_icon::{get_tooltip, menu_items, notify_proc, Counter, NotifyAction};

#[test]
fn counter_counts_from_one() {
    let mut c = Counter::new();
    assert_eq!(c.next(), 1);
    assert_eq!(c.next(), 2);
    assert_eq!(c.next(), 3);
}

#[test]
fn tooltips() {
    let tip = get_tooltip(true);
    let text: Vec<u16> = "simbolmudah (listening)".encode_utf16().collect();
    assert_eq!(&tip[..text.len()], &text[..]);
    assert!(tip[text.len()..].iter().all(|&u| u == 0));
    let tip = get_tooltip(false);
    let text: Vec<u16> = "simbolmudah (not listening)".encode_utf16().collect();
    assert_eq!(&tip[..text.len()], &text[..]);
    assert_eq!(tip[text.len()], 0);
}

#[test]
fn window_messages() {
    assert_eq!(notify_proc(0x1772, 0, 1024, Some(true)), NotifyAction::ShowMenu);
    assert_eq!(notify_proc(0x1772, 0, 0x1_0000 + 1025, Some(false)), NotifyAction::ShowMenu);
    assert_eq!(notify_proc(0x1772, 0, 1024, None), NotifyAction::Nothing);
    assert_eq!(notify_proc(0x1772, 0, 0x200, Some(true)), NotifyAction::Nothing);
    assert_eq!(notify_proc(0x0002, 0, 0, None), NotifyAction::Quit);
    assert_eq!(notify_proc(0x0111, 0x1773, 0, None), NotifyAction::OpenSettings);
    assert_eq!(notify_proc(0x0111, 0x1774, 0, Some(true)), NotifyAction::SetListening(false));
    assert_eq!(notify_proc(0x0111, 0x1774, 0, Some(false)), NotifyAction::SetListening(true));
    assert_eq!(notify_proc(0x0111, 0x1775, 0, None), NotifyAction::ExitApp);
    assert_eq!(notify_proc(0x0111, 0x5_1775, 0, None), NotifyAction::ExitApp);
    assert_eq!(notify_proc(0x0111, 0x1776, 0, None), NotifyAction::Nothing);
    assert_eq!(notify_proc(0x0100, 0x1775, 0, None), NotifyAction::Nothing);
}

#[test]
fn menu() {
    let items = menu_items(true);
    assert_eq!(items.len(), 4);
    assert_eq!(items[0].label, "Listen to compose");
    assert_eq!(items[0].flags, 0x408);
    assert_eq!(items[0].command, 0x1774);
    assert_eq!(items[1].label, "Open settings");
    assert_eq!(items[2].flags, 0xC00);
    assert_eq!(items[3].label, "Exit simbolmudah");
    assert_eq!(items[3].command, 0x1775);
    assert_eq!(menu_items(false)[0].flags, 0x400);
}
