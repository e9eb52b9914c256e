use regex::Regex;
use simbolmudah::keysym::{
    deprecated_keysym_captures, general_keysym_captures, get_general_keysym, keylist_lines,
    keypad_keysym_captures, unicode_keysym_captures, KeySymDef,
};

const GENERAL_REGEX: &str = r"^#define XK_([a-zA-Z_0-9]+)\s+0x([0-9a-f]+)\s*(/\*.*\*/)?\s*$";
const KEYPAD_REGEX: &str =
    r"^#define XK_(KP_[a-zA-Z_0-9]+)\s+0x([0-9a-f]+)\s*(/\*[ |<].*[ |>]\*/)?\s*$";
const UNICODE_REGEX: &str =
    r"^#define XK_([a-zA-Z_0-9]+)\s+0x([0-9a-f]+)\s*/\* U\+([0-9A-F]{4,6}) (.*) \*/\s*$";
const UNICODE_REGEX_BRACKETED: &str =
    r"^#define XK_([a-zA-Z_0-9]+)\s+0x([0-9a-f]+)\s*/\*[ <(]U\+([0-9A-F]{4,6}) (.*)[ >)]\*/\s*$";
const DEPRECATED_REGEX: &str =
    r"^#define XK_([a-zA-Z_0-9]+)\s+0x([0-9a-f]+)\s*/\* (deprecated.*) \*/\s*$";

fn sample_keysymdef() -> Vec<String> {
    [
        "/* A few lines of keysymdef.h */",
        "#ifdef XK_MISCELLANY",
        "#define XK_VoidSymbol                  0xffffff  /* Void symbol */",
        "#define XK_Return                        0xff0d  /* U+000D CARRIAGE RETURN */",
        "#define XK_KP_9                          0xffb9  /*<U+0039 DIGIT NINE>*/",
        "#define XK_quoteright                    0x0027  /* deprecated */",
        "#define XK_A                             0x0041  /* U+0041 LATIN CAPITAL LETTER A */",
        "#define XK_B                             0x0042  /* U+0042 LATIN CAPITAL LETTER B */",
        "#endif /* XK_MISCELLANY */",
    ]
    .iter()
    .map(|s| s.to_string())
    .collect()
}

#[test]
fn keysym_reader_read_keysym_file() {
    let def = KeySymDef::new(&sample_keysymdef());
    assert!(def.is_ok());
    let def = def.unwrap();
    assert_eq!(def.get_key("Return"), Ok(&'\r'));
    assert_eq!(def.get_key("KP_9"), Ok(&'9'));
    assert_eq!(def.get_key("A"), Ok(&'A'));
    assert!(def.get_key("VoidSymbol").is_err());
}

#[test]
fn keysym_reader_general_key_regex_good() {
    let hay1 = "#define XK_VoidSymbol                  0xffffff  /* Void symbol */";
    let hay2 = "#define XK_KP_F1                         0xff91  /* PF1, KP_A, ... */";
    let hay3 = "#define XK_F3                            0xffc0";

    let Some(name1) = general_keysym_captures(hay1) else { panic!() };
    let Some(name2) = general_keysym_captures(hay2) else { panic!() };
    let Some(name3) = general_keysym_captures(hay3) else { panic!() };

    assert_eq!(
        "#define XK_VoidSymbol                  0xffffff  /* Void symbol */",
        &name1.whole
    );
    assert_eq!("VoidSymbol", &name1.name);
    assert_eq!("ffffff", &name1.value);
    assert_eq!(Some("/* Void symbol */".to_string()), name1.comment);

    assert_eq!(
        "#define XK_KP_F1                         0xff91  /* PF1, KP_A, ... */",
        &name2.whole
    );
    assert_eq!("KP_F1", &name2.name);
    assert_eq!("ff91", &name2.value);
    assert_eq!(Some("/* PF1, KP_A, ... */".to_string()), name2.comment);

    assert_eq!("#define XK_F3                            0xffc0", &name3.whole);
    assert_eq!("F3", &name3.name);
    assert_eq!("ffc0", &name3.value);
    assert_eq!(None, name3.comment);

    let re = Regex::new(GENERAL_REGEX).unwrap();
    for hay in [hay1, hay2, hay3] {
        let caps = re.captures(hay).unwrap();
        let mine = general_keysym_captures(hay).unwrap();
        assert_eq!(&caps[1], mine.name);
        assert_eq!(&caps[2], mine.value);
        assert_eq!(caps.get(3).map(|m| m.as_str().to_string()), mine.comment);
    }
}

#[test]
fn keysym_reader_keypad_key_regex_good() {
    let hay1 = "#define XK_KP_9                          0xffb9  /*<U+0039 DIGIT NINE>*/";
    let hay2 = "#define XK_KP_F1                         0xff91  /* PF1, KP_A, ... */";
    let hay3 = "#define XK_KP_F3                         0xff93";

    let Some(name1) = keypad_keysym_captures(hay1) else { panic!() };
    let Some(name2) = keypad_keysym_captures(hay2) else { panic!() };
    let Some(name3) = keypad_keysym_captures(hay3) else { panic!() };

    assert_eq!(
        "#define XK_KP_9                          0xffb9  /*<U+0039 DIGIT NINE>*/",
        &name1.whole
    );
    assert_eq!("KP_9", &name1.name);
    assert_eq!("ffb9", &name1.value);
    assert_eq!(Some("/*<U+0039 DIGIT NINE>*/".to_string()), name1.comment);

    assert_eq!(
        "#define XK_KP_F1                         0xff91  /* PF1, KP_A, ... */",
        &name2.whole
    );
    assert_eq!("KP_F1", &name2.name);
    assert_eq!("ff91", &name2.value);
    assert_eq!(Some("/* PF1, KP_A, ... */".to_string()), name2.comment);

    assert_eq!("#define XK_KP_F3                         0xff93", &name3.whole);
    assert_eq!("KP_F3", &name3.name);
    assert_eq!("ff93", &name3.value);
    assert_eq!(None, name3.comment);

    let re = Regex::new(KEYPAD_REGEX).unwrap();
    for hay in [hay1, hay2, hay3] {
        let caps = re.captures(hay).unwrap();
        let mine = keypad_keysym_captures(hay).unwrap();
        assert_eq!(&caps[1], mine.name);
        assert_eq!(&caps[2], mine.value);
        assert_eq!(caps.get(3).map(|m| m.as_str().to_string()), mine.comment);
    }
}

#[test]
fn keysym_reader_keypad_key_regex_bad() {
    let hay = "#define XK_F3                            0xffc0";
    assert!(keypad_keysym_captures(hay).is_none());
    assert!(!Regex::new(KEYPAD_REGEX).unwrap().is_match(hay));
}

#[test]
fn keysym_reader_unicode_key_regex_good() {
    let hay = "#define XK_Return                        0xff0d  /* U+000D CARRIAGE RETURN */";
    let Some(name) = unicode_keysym_captures(hay, false) else { panic!() };
    assert_eq!(
        "#define XK_Return                        0xff0d  /* U+000D CARRIAGE RETURN */",
        &name.whole
    );
    assert_eq!("Return", &name.name);
    assert_eq!("ff0d", &name.value);
    assert_eq!("000D", &name.codepoint);
    assert_eq!("CARRIAGE RETURN", &name.description);

    let Some(bracketed) = unicode_keysym_captures(hay, true) else { panic!() };
    assert_eq!("Return", &bracketed.name);
    assert_eq!("ff0d", &bracketed.value);
    assert_eq!("000D", &bracketed.codepoint);

    let strict = Regex::new(UNICODE_REGEX).unwrap();
    let loose = Regex::new(UNICODE_REGEX_BRACKETED).unwrap();
    let caps = strict.captures(hay).unwrap();
    assert_eq!(&caps[4], name.description);
    let caps = loose.captures(hay).unwrap();
    assert_eq!(&caps[3], bracketed.codepoint);
    assert_eq!(&caps[4], bracketed.description);

    let kp = "#define XK_KP_9                          0xffb9  /*<U+0039 DIGIT NINE>*/";
    assert!(unicode_keysym_captures(kp, false).is_none());
    assert!(!strict.is_match(kp));
    let Some(kp9) = unicode_keysym_captures(kp, true) else { panic!() };
    assert_eq!("0039", &kp9.codepoint);
    assert_eq!("DIGIT NINE", &kp9.description);
    assert_eq!(&loose.captures(kp).unwrap()[4], kp9.description);
}

#[test]
fn keysym_reader_deprecated_key_regex_good() {
    let hay1 = "#define XK_KP_Page_Up                    0xff9a  /* deprecated alias for KP_Prior */";
    let hay2 = "#define XK_dead_small_schwa              0xfe8a  /* deprecated, remove in 2025 */";
    let hay3 = "#define XK_quoteright                    0x0027  /* deprecated */";

    let Some(name1) = deprecated_keysym_captures(hay1) else { panic!() };
    let Some(name2) = deprecated_keysym_captures(hay2) else { panic!() };
    let Some(name3) = deprecated_keysym_captures(hay3) else { panic!() };

    assert_eq!(
        "#define XK_KP_Page_Up                    0xff9a  /* deprecated alias for KP_Prior */",
        &name1.whole
    );
    assert_eq!("KP_Page_Up", &name1.name);
    assert_eq!("ff9a", &name1.value);
    assert_eq!(Some("deprecated alias for KP_Prior".to_string()), name1.comment);

    assert_eq!(
        "#define XK_dead_small_schwa              0xfe8a  /* deprecated, remove in 2025 */",
        &name2.whole
    );
    assert_eq!("dead_small_schwa", &name2.name);
    assert_eq!("fe8a", &name2.value);
    assert_eq!(Some("deprecated, remove in 2025".to_string()), name2.comment);

    assert_eq!(
        "#define XK_quoteright                    0x0027  /* deprecated */",
        &name3.whole
    );
    assert_eq!("quoteright", &name3.name);
    assert_eq!("0027", &name3.value);
    assert_eq!(Some("deprecated".to_string()), name3.comment);

    let re = Regex::new(DEPRECATED_REGEX).unwrap();
    for hay in [hay1, hay2, hay3] {
        let caps = re.captures(hay).unwrap();
        let mine = deprecated_keysym_captures(hay).unwrap();
        assert_eq!(&caps[1], mine.name);
        assert_eq!(&caps[2], mine.value);
        assert_eq!(Some(caps[3].to_string()), mine.comment);
    }
}

#[test]
fn keysym_table_rejects_a_code_point_that_is_no_character() {
    let lines = vec![
        "#define XK_bad                           0x1234  /* U+D800 A SURROGATE */".to_string(),
    ];
    assert_eq!(
        KeySymDef::new(&lines).err(),
        Some(simbolmudah::error::SequenceTranslatorError::InvalidChar)
    );
}

#[test]
fn keysym_table_later_line_wins() {
    let lines = vec![
        "#define XK_x                             0x0078  /* U+0078 LATIN SMALL LETTER X */".to_string(),
        "#define XK_x                             0x0079  /* U+0079 LATIN SMALL LETTER Y */".to_string(),
    ];
    let def = KeySymDef::new(&lines).unwrap();
    assert_eq!(def.get_key("x"), Ok(&'y'));
    assert_eq!(
        def.get_key("z"),
        Err(simbolmudah::error::SequenceTranslatorError::InvalidKeyname)
    );
}

#[test]
fn general_key_regex_good() {
    let hay1 = "#define XK_VoidSymbol                  0xffffff  /* Void symbol */";
    let hay2 = "#define XK_KP_F1                         0xff91  /* PF1, KP_A, ... */";
    let hay3 = "#define XK_F3                            0xffc0";
    let name1 = general_keysym_captures(hay1).unwrap();
    let name2 = general_keysym_captures(hay2).unwrap();
    let name3 = general_keysym_captures(hay3).unwrap();
    assert_eq!(hay1, &name1.whole);
    assert_eq!("VoidSymbol", &name1.name);
    assert_eq!("ffffff", &name1.value);
    assert_eq!(Some("/* Void symbol */".to_string()), name1.comment);
    assert_eq!(hay2, &name2.whole);
    assert_eq!("KP_F1", &name2.name);
    assert_eq!("ff91", &name2.value);
    assert_eq!(Some("/* PF1, KP_A, ... */".to_string()), name2.comment);
    assert_eq!(hay3, &name3.whole);
    assert_eq!("F3", &name3.name);
    assert_eq!("ffc0", &name3.value);
    assert_eq!(None, name3.comment);
}

#[test]
fn keypad_key_regex_good() {
    let hay1 = "#define XK_KP_9                          0xffb9  /*<U+0039 DIGIT NINE>*/";
    let hay2 = "#define XK_KP_F1                         0xff91  /* PF1, KP_A, ... */";
    let hay3 = "#define XK_KP_F3                         0xff93";
    let name1 = keypad_keysym_captures(hay1).unwrap();
    let name2 = keypad_keysym_captures(hay2).unwrap();
    let name3 = keypad_keysym_captures(hay3).unwrap();
    assert_eq!(hay1, &name1.whole);
    assert_eq!("KP_9", &name1.name);
    assert_eq!("ffb9", &name1.value);
    assert_eq!(Some("/*<U+0039 DIGIT NINE>*/".to_string()), name1.comment);
    assert_eq!(hay2, &name2.whole);
    assert_eq!("KP_F1", &name2.name);
    assert_eq!("ff91", &name2.value);
    assert_eq!(Some("/* PF1, KP_A, ... */".to_string()), name2.comment);
    assert_eq!(hay3, &name3.whole);
    assert_eq!("KP_F3", &name3.name);
    assert_eq!("ff93", &name3.value);
    assert_eq!(None, name3.comment);
}

#[test]
fn keypad_key_regex_bad() {
    let hay = "#define XK_F3                            0xffc0";
    assert!(keypad_keysym_captures(hay).is_none());
}

#[test]
fn deprecated_key_regex_good() {
    let hay1 = "#define XK_KP_Page_Up                    0xff9a  /* deprecated alias for KP_Prior */";
    let hay2 = "#define XK_dead_small_schwa              0xfe8a  /* deprecated, remove in 2025 */";
    let hay3 = "#define XK_quoteright                    0x0027  /* deprecated */";
    let name1 = deprecated_keysym_captures(hay1).unwrap();
    let name2 = deprecated_keysym_captures(hay2).unwrap();
    let name3 = deprecated_keysym_captures(hay3).unwrap();
    assert_eq!(hay1, &name1.whole);
    assert_eq!("KP_Page_Up", &name1.name);
    assert_eq!("ff9a", &name1.value);
    assert_eq!(Some("deprecated alias for KP_Prior".to_string()), name1.comment);
    assert_eq!(hay2, &name2.whole);
    assert_eq!("dead_small_schwa", &name2.name);
    assert_eq!("fe8a", &name2.value);
    assert_eq!(Some("deprecated, remove in 2025".to_string()), name2.comment);
    assert_eq!(hay3, &name3.whole);
    assert_eq!("quoteright", &name3.name);
    assert_eq!("0027", &name3.value);
    assert_eq!(Some("deprecated".to_string()), name3.comment);
}

#[test]
fn keylist_lists_unicode_keysyms() {
    assert_eq!(
        keylist_lines(&sample_keysymdef()),
        vec!["Return \r".to_string(), "KP_9 9".to_string(), "A A".to_string(), "B B".to_string()]
    );
}

#[test]
fn keylist_stops_at_a_code_point_that_is_no_character() {
    let lines = vec![
        "#define XK_a                             0x0061  /* U+0061 LATIN SMALL LETTER A */".to_string(),
        "#define XK_bad                           0x1234  /* U+D800 A SURROGATE */".to_string(),
        "#define XK_b                             0x0062  /* U+0062 LATIN SMALL LETTER B */".to_string(),
    ];
    assert_eq!(keylist_lines(&lines), vec!["a a".to_string()]);
}

#[test]
fn general_keysyms_are_read_with_their_values() {
    let (table, list) = get_general_keysym(&sample_keysymdef());
    assert_eq!(table.get(&"VoidSymbol".to_string()), Some(&0xffffff));
    assert_eq!(table.get(&"Return".to_string()), Some(&0xff0d));
    assert_eq!(table.get(&"KP_9".to_string()), Some(&0xffb9));
    assert_eq!(table.get(&"quoteright".to_string()), Some(&0x27));
    assert_eq!(table.get(&"B".to_string()), Some(&0x42));
    assert_eq!(table.get(&"MISCELLANY".to_string()), None);
    assert_eq!(
        list,
        vec![
            "VoidSymbol ffffff".to_string(),
            "Return ff0d".to_string(),
            "KP_9 ffb9".to_string(),
            "quoteright 0027".to_string(),
            "A 0041".to_string(),
            "B 0042".to_string(),
        ]
    );
}

#[test]
fn general_keysyms_later_line_wins() {
    let lines = vec![
        "#define XK_F3                            0xffc0".to_string(),
        "#define XK_F3                            0xffc1".to_string(),
    ];
    let (table, list) = get_general_keysym(&lines);
    assert_eq!(table.get(&"F3".to_string()), Some(&0xffc1));
    assert_eq!(list.len(), 2);
}
