use regex::Regex;
use simbolmudah::compose::{compose_line_captures, compose_list_lines, decode_entry, ComposeDef};
use simbolmudah::error::SequenceTranslatorError;
use simbolmudah::keysym::KeySymDef;
use simbolmudah::mapped::MappedString;

const COMPOSE_REGEX_2_STR: &str =
    r#"^<Multi_key> <([a-zA-Z0-9_]+)> <([a-zA-Z0-9_]+)>\s+: "(.*)".*$"#;

fn keysym_line(name: &str, c: char) -> String {
    format!(
        "#define XK_{:<30}0x{:04x}  /* U+{:04X} SOME CHARACTER */",
        name, c as u32, c as u32
    )
}

fn keysymdef() -> KeySymDef {
    let lines: Vec<String> = [
        ("A", 'A'),
        ("B", 'B'),
        ("C", 'C'),
        ("D", 'D'),
        ("E", 'E'),
        ("y", 'y'),
        ("quote_dbl", '"'),
        ("f", 'f'),
        ("l", 'l'),
        ("o", 'o'),
        ("e", 'e'),
    ]
    .iter()
    .map(|(n, c)| keysym_line(n, *c))
    .collect();
    KeySymDef::new(&lines).unwrap()
}

#[test]
fn compose_reader_test_compose_regex() {
    let line =
        "<Multi_key> <y> <quote_dbl>\t\t: \"ÿ\"\tydiaeresis # LATIN SMALL LETTER Y WITH DIAERESIS";
    let (names, value) = compose_line_captures(line, 2).unwrap();
    assert_eq!(names[0], "y");
    assert_eq!(names[1], "quote_dbl");
    assert_eq!(value, "ÿ");

    let caps = Regex::new(COMPOSE_REGEX_2_STR).unwrap().captures(line).unwrap();
    assert_eq!(&caps[1], names[0]);
    assert_eq!(&caps[2], names[1]);
    assert_eq!(&caps[3], value);
    assert!(compose_line_captures(line, 3).is_none());
}

#[test]
fn test_decode_entry_two_keys() {
    let keysymdef = keysymdef();
    let line = "<Multi_key> <A> <B> : \"C\".";
    let expected = Ok(("AB".to_string(), MappedString::Basic('C')));
    assert_eq!(decode_entry(line, &keysymdef), expected);
}

#[test]
fn test_decode_entry_three_keys() {
    let keysymdef = keysymdef();
    let line = "<Multi_key> <A> <B> <C> : \"D\".";
    let expected = Ok(("ABC".to_string(), MappedString::Basic('D')));
    assert_eq!(decode_entry(line, &keysymdef), expected);
}

#[test]
fn test_decode_entry_four_keys() {
    let keysymdef = keysymdef();
    let line = "<Multi_key> <A> <B> <C> <D> : \"E\".";
    let expected = Ok(("ABCD".to_string(), MappedString::Basic('E')));
    assert_eq!(decode_entry(line, &keysymdef), expected);
}

#[test]
fn decode_entry_errors() {
    let keysymdef = keysymdef();
    assert_eq!(
        decode_entry("<Multi_key> <A> <unknown> : \"C\".", &keysymdef),
        Err(SequenceTranslatorError::InvalidKeyname)
    );
    assert_eq!(
        decode_entry("# a comment line", &keysymdef),
        Err(SequenceTranslatorError::RegexParse)
    );
    assert_eq!(
        decode_entry("<Multi_key> <A> <B> <C> <D> <E> : \"E\".", &keysymdef),
        Err(SequenceTranslatorError::RegexParse)
    );
    assert_eq!(
        decode_entry("<Multi_key> <o> <e> : \"œ\" oe", &keysymdef),
        Ok(("oe".to_string(), MappedString::Basic('œ')))
    );
}

#[test]
fn test_get_compose_def() {
    let keysymdef = keysymdef();
    let lines: Vec<String> = vec![
        "<Multi_key> <f> <l> : \"ﬂ\" U+FB02".to_string(),
        "<Multi_key> <A> <B> : \"C\"".to_string(),
        "not a compose line".to_string(),
    ];
    let def = ComposeDef::build(&keysymdef, &lines);
    let map: Vec<(String, MappedString)> = def.into_vec();
    let get = |k: &str| map.iter().find(|(key, _)| key == k).map(|(_, v)| v.clone());
    assert_eq!(get("wkwk"), Some(MappedString::Basic('🤣')));
    assert_eq!(get("pr"), Some(MappedString::Extra("peradaban".to_string())));
    assert_eq!(get("fl"), Some(MappedString::Basic('ﬂ')));
    assert_eq!(get("AB"), Some(MappedString::Basic('C')));
    assert_eq!(map.len(), 4);
}

#[test]
fn compose_def_is_ordered_and_later_lines_win() {
    let keysymdef = keysymdef();
    let lines: Vec<String> = vec![
        "<Multi_key> <f> <l> : \"x\"".to_string(),
        "<Multi_key> <A> <B> : \"C\"".to_string(),
        "<Multi_key> <f> <l> : \"ﬂ\"".to_string(),
    ];
    let def = ComposeDef::build(&keysymdef, &lines);
    let keys: Vec<String> = def.into_vec().into_iter().map(|(k, _)| k).collect();
    assert_eq!(keys, vec!["AB", "fl", "pr", "wkwk"]);
    let def = ComposeDef::build(&keysymdef, &lines);
    assert_eq!(def.entry(1), ("fl".to_string(), MappedString::Basic('ﬂ')));
}

#[test]
fn compose_list_has_a_line_for_each_compose_line() {
    let keysymdef = keysymdef();
    let lines = vec![
        "<Multi_key> <A> <B> : \"C\".".to_string(),
        "# a \"quoted\" comment".to_string(),
        "<Multi_key> <y> <quote_dbl>\t\t: \"ÿ\"\tydiaeresis".to_string(),
    ];
    assert_eq!(
        compose_list_lines(&keysymdef, &lines),
        vec![
            "AB C".to_string(),
            "// \"# a \\\"quoted\\\" comment\"".to_string(),
            "y\" ÿ".to_string(),
        ]
    );
}
