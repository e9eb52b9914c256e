use simbolmudah::cldr::{Annotation, SupportedLocale};
use simbolmudah::keyboard_translator::{
    calculate_bg_keystate, probe, vk_to_unicode, KeyboardTranslatorInternal, StringVariant,
    TranslatorAction, VKToUnicodeError,
};
use simbolmudah::sequence_definition::{SequenceDefinition, SequenceDefinitionError};

fn keysym_line(name: &str, c: char) -> String {
    format!(
        "#define XK_{:<30}0x{:04x}  /* U+{:04X} SOME CHARACTER */",
        name, c as u32, c as u32
    )
}

fn definition() -> SequenceDefinition {
    let keys: Vec<String> = [("slash", '/'), ("equal", '='), ("o", 'o'), ("m", 'm'), ("g", 'g')]
        .iter()
        .map(|(n, c)| keysym_line(n, *c))
        .collect();
    let compose = vec!["<Multi_key> <slash> <equal> : \"≠\" notequal".to_string()];
    let langs: Vec<(SupportedLocale, Vec<Vec<Annotation>>)> = vec![];
    let mut def = SequenceDefinition::new();
    def.rebuild(&keys, &compose, &langs, |c: char| Some(format!("U+{:04X}", c as u32)))
        .unwrap();
    def
}

#[test]
fn mod_test_state_clear_after_translation() {
    let def = definition();
    let mut internal = KeyboardTranslatorInternal::new();
    assert_eq!(
        internal.forward(0, "omg", &def),
        Err(SequenceDefinitionError::ValueNotFound)
    );
    assert!(internal.state().is_empty());
}

#[test]
fn mod_test_state_accumulation() {
    let def = definition();
    let mut internal = KeyboardTranslatorInternal::new();
    assert_eq!(internal.forward(0, "/", &def), Err(SequenceDefinitionError::Incomplete));
    assert_eq!(internal.forward(0, "=", &def), Ok("≠".to_string()));
    assert!(internal.state().is_empty());
}

#[test]
fn unicode_forwarding() {
    let def = definition();
    let mut t = KeyboardTranslatorInternal::new();
    assert_eq!(t.forward(1, "1", &def), Err(SequenceDefinitionError::Incomplete));
    assert_eq!(t.forward(1, "f6", &def), Err(SequenceDefinitionError::Incomplete));
    assert_eq!(t.state(), "1f6");
    assert_eq!(t.forward(1, "00 ", &def), Ok("😀".to_string()));
    assert!(t.state().is_empty());
    assert_eq!(t.forward(1, "d800 ", &def), Err(SequenceDefinitionError::ValueNotFound));
    assert_eq!(t.forward(1, "xyz\t", &def), Err(SequenceDefinitionError::ValueNotFound));
    assert!(t.state().is_empty());
    assert_eq!(t.forward(1, "+41 ", &def), Ok("A".to_string()));
    assert_eq!(t.forward(7, "a", &def), Err(SequenceDefinitionError::Failure));
    assert!(t.state().is_empty());
}

#[test]
fn reporting() {
    let t = KeyboardTranslatorInternal::new();
    assert_eq!(
        t.report(Ok("≠".to_string())),
        Ok(vec![
            TranslatorAction::SendText("≠".to_string()),
            TranslatorAction::Translated("≠".to_string())
        ])
    );
    assert_eq!(
        t.report(Err(SequenceDefinitionError::ValueNotFound)),
        Ok(vec![TranslatorAction::Invalid("Value not found".to_string())])
    );
    assert_eq!(t.report(Err(SequenceDefinitionError::Incomplete)), Ok(vec![]));
    assert_eq!(
        t.report(Err(SequenceDefinitionError::Failure)),
        Err(SequenceDefinitionError::Failure)
    );
}

#[test]
fn translate_and_forward_reports_each_step() {
    let def = definition();
    let mut t = KeyboardTranslatorInternal::new();
    assert_eq!(
        t.translate_and_forward(Err(VKToUnicodeError::NoTranslation), 0, &def),
        Ok(vec![TranslatorAction::Invalid("Invalid VK code".to_string())])
    );
    assert_eq!(
        t.translate_and_forward(Ok(StringVariant::LiveString("/".to_string())), 0, &def),
        Ok(vec![TranslatorAction::KeyTranslated("/".to_string())])
    );
    assert_eq!(
        t.translate_and_forward(Ok(StringVariant::DeadString("=".to_string())), 0, &def),
        Ok(vec![
            TranslatorAction::KeyTranslated("=".to_string()),
            TranslatorAction::SendText("≠".to_string()),
            TranslatorAction::Translated("≠".to_string()),
        ])
    );
}

#[test]
fn key_text_from_the_layout() {
    let buf = [0x61u16, 0, 0, 0, 0, 0, 0, 0];
    assert_eq!(vk_to_unicode(1, &buf, None), Ok(StringVariant::LiveString("a".to_string())));
    assert_eq!(vk_to_unicode(0, &buf, None), Err(VKToUnicodeError::NoTranslation));
    let pair = [0xD83Du16, 0xDE00, 0, 0, 0, 0, 0, 0];
    assert_eq!(vk_to_unicode(2, &pair, None), Ok(StringVariant::LiveString("😀".to_string())));
    let broken = [0xD83Du16, 0x41, 0, 0, 0, 0, 0, 0];
    assert_eq!(vk_to_unicode(2, &broken, None), Err(VKToUnicodeError::InvalidReturn));
    let accent = vec![0x5Eu16, 0, 0, 0, 0, 0, 0, 0];
    assert_eq!(
        vk_to_unicode(-1, &buf, Some((1, accent.clone()))),
        Ok(StringVariant::DeadString("^".to_string()))
    );
    assert_eq!(vk_to_unicode(-1, &buf, Some((0, accent))), Err(VKToUnicodeError::NoTranslation));
    assert_eq!(vk_to_unicode(-1, &buf, None), Err(VKToUnicodeError::NoTranslation));
}

#[test]
fn background_keystate() {
    let k = calculate_bg_keystate(true, true, true);
    assert_eq!(k[0x14], 1);
    assert_eq!(k[0x10], 0x80);
    assert_eq!(k[0x11], 0x80);
    assert_eq!(k[0x12], 0x80);
    assert_eq!(k.iter().filter(|&&b| b != 0).count(), 4);
    let k = calculate_bg_keystate(false, false, false);
    assert!(k.iter().all(|&b| b == 0));
    let (vk, k) = probe(0x341);
    assert_eq!(vk, 0x41);
    assert_eq!((k[0x10], k[0x11], k[0x12], k[0x14]), (0x80, 0x80, 0x80, 0));
    let (vk, k) = probe(0x041);
    assert_eq!(vk, 0x41);
    assert!(k.iter().all(|&b| b == 0));
}

#[test]
fn layout_analysis() {
    let mut t = KeyboardTranslatorInternal::new();
    assert!(t.check_layout(7));
    assert!(!t.check_layout(7));
    let mut keys: Vec<Result<StringVariant, VKToUnicodeError>> =
        (0..0x400).map(|_| Err(VKToUnicodeError::NoTranslation)).collect();
    keys[0x45] = Ok(StringVariant::LiveString("e".to_string()));
    keys[0x245] = Ok(StringVariant::LiveString("€".to_string()));
    keys[0xDE] = Ok(StringVariant::DeadString("^".to_string()));
    t.analyze_layout(&keys);
    assert_eq!(t.altgr_key(&"€".to_string()), Some(&"e".to_string()));
    assert_eq!(t.altgr_key(&"e".to_string()), None);
    assert_eq!(t.dead_key(&"^".to_string()), Some(0xDE));
    assert_eq!(t.dead_key(&"e".to_string()), None);
}
