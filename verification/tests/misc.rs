use simbolmudah::factory::{activation_factory_for, ActivatableClass};
use simbolmudah::cldr::{annotation_words_of, parse_cldr_annotations, SupportedLocale};
use simbolmudah::key::{Key, KeySequence};
use simbolmudah::keyboard_hook::KeyInput;
use simbolmudah::mapped::MappedString;
use simbolmudah::resource::{decompress_lines, decompress_text, text_lines};
use simbolmudah::sender::{clipboard_units, paste_inputs};
use simbolmudah::text::split_whitespace;

#[test]
fn mapped_strings() {
    assert_eq!(MappedString::from_char('≠').to_string(), "≠");
    assert_eq!(MappedString::from_string("abc".to_string()).into_string(), "abc");
    assert_eq!(MappedString::from_char('A').into_u64(), 65);
    assert_eq!(MappedString::from_string("abc".to_string()).into_u64(), 1_000_000_000_000);
    assert_eq!(MappedString::from_u64(0x1F923), MappedString::Basic('🤣'));
    assert_eq!(
        MappedString::from_u64(1_000_000_000_007),
        MappedString::Extra("peradaban".to_string())
    );
}

#[test]
fn keys_and_sequences() {
    assert!(Key::VirtualKey(0xA5).is_modifier());
    assert!(!Key::VirtualKey(0x41).is_modifier());
    assert!(!Key::Char('a').is_modifier());
    assert_eq!(Key::VirtualKey(165).to_string(), "165");
    assert_eq!(Key::VirtualKey(0).to_string(), "0");
    assert_eq!(Key::Char('≠').to_string(), "≠");
    assert_eq!(Key::from_u32(0x41), Key::Char('A'));
    let mut s = KeySequence::new();
    s.push(Key::Char('o'));
    s.push(Key::Char('e'));
    assert_eq!(s.len(), 2);
    assert_eq!(s.to_text(), Some("oe".to_string()));
    s.push(Key::VirtualKey(0x25));
    assert_eq!(s.to_text(), None);
    s.clear();
    assert_eq!(s.len(), 0);
    assert_eq!(KeySequence::from_keys(vec![Key::Char('x')]).to_text(), Some("x".to_string()));
}

#[test]
fn locales() {
    assert_eq!(SupportedLocale::from_language_tag("en-GB"), Some(SupportedLocale::en));
    assert_eq!(SupportedLocale::from_language_tag("jv-Java"), Some(SupportedLocale::jv));
    assert_eq!(SupportedLocale::from_language_tag("fr-CA"), Some(SupportedLocale::fr));
    assert_eq!(SupportedLocale::from_language_tag("id-ID"), Some(SupportedLocale::id));
    assert_eq!(SupportedLocale::from_language_tag("de"), None);
    assert_eq!(SupportedLocale::from_name("id"), SupportedLocale::id);
    assert_eq!(SupportedLocale::fr.to_string(), "fr");
}

#[test]
fn annotations() {
    assert_eq!(annotation_words_of(" face | grin |happy| "), vec!["face", "grin", "happy", ""]);
    assert_eq!(annotation_words_of("a|b|"), vec!["a", "b"]);
    let entries = vec![
        ("😀".to_string(), Some(vec!["face".to_string(), "grin".to_string()])),
        ("≠".to_string(), None),
        ("🤣".to_string(), Some(vec!["laugh".to_string()])),
    ];
    let pairs = parse_cldr_annotations(SupportedLocale::en, "en", &entries);
    let flat: Vec<(String, String)> = pairs.into_iter().map(|p| (p.char, p.desc)).collect();
    assert_eq!(
        flat,
        vec![
            ("😀".to_string(), "face".to_string()),
            ("😀".to_string(), "grin".to_string()),
            ("🤣".to_string(), "laugh".to_string()),
        ]
    );
}

#[test]
fn lines_and_words() {
    assert_eq!(text_lines("a\r\nb\n\nc"), vec!["a", "b", "", "c"]);
    assert_eq!(text_lines("a\n"), vec!["a"]);
    assert!(text_lines("").is_empty());
    assert_eq!(split_whitespace(" x  y "), vec!["x", "y"]);
}

#[test]
fn brotli_resources() {
    // One uncompressed meta-block holding "a\nb", then an empty last one.
    let data = [0x20u8, 0x00, 0x10, b'a', b'\n', b'b', 0x03];
    assert_eq!(decompress_text(&data), Some("a\nb".to_string()));
    assert_eq!(decompress_lines(&data), Some(vec!["a".to_string(), "b".to_string()]));
    assert_eq!(decompress_text(&[0xFF, 0xFF, 0xFF]), None);
}

#[test]
fn clipboard_and_paste() {
    assert_eq!(clipboard_units("≠a"), vec![0x2260, 0x61, 0]);
    assert_eq!(
        paste_inputs(),
        vec![
            KeyInput { vk: 0x11, scan: 0, flags: 0, time: 0, extra_info: 0 },
            KeyInput { vk: 0x56, scan: 0, flags: 0, time: 0, extra_info: 0 },
            KeyInput { vk: 0x56, scan: 0, flags: 2, time: 0, extra_info: 0 },
            KeyInput { vk: 0x11, scan: 0, flags: 2, time: 0, extra_info: 0 },
        ]
    );
}

#[test]
fn activation_factories() {
    assert_eq!(
        activation_factory_for("LibSimbolMudah.KeyboardHook"),
        Some(ActivatableClass::KeyboardHook)
    );
    assert_eq!(
        activation_factory_for("LibSimbolMudah.SequenceDefinition"),
        Some(ActivatableClass::SequenceDefinition)
    );
    assert_eq!(activation_factory_for("LibSimbolMudah.Sender"), Some(ActivatableClass::Sender));
    assert_eq!(activation_factory_for("LibSimbolMudah.Unknown"), None);
    assert_eq!(activation_factory_for(""), None);
}
