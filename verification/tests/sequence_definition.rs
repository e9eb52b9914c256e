use simbolmudah::assoc::StringTable;
use simbolmudah::cldr::{Annotation, SupportedLocale};
use simbolmudah::search::{any_contains_exec, all_contain_exec};
use simbolmudah::sequence_definition::{
    SequenceDefinition, SequenceDefinitionError, SequenceDescription,
};

fn keysym_line(name: &str, c: char) -> String {
    format!(
        "#define XK_{:<30}0x{:04x}  /* U+{:04X} SOME CHARACTER */",
        name, c as u32, c as u32
    )
}

fn keysymdef() -> Vec<String> {
    [("f", 'f'), ("l", 'l'), ("slash", '/'), ("equal", '='), ("o", 'o'), ("e", 'e'), ("minus", '-')]
        .iter()
        .map(|(n, c)| keysym_line(n, *c))
        .collect()
}

fn composedef() -> Vec<String> {
    vec![
        "<Multi_key> <f> <l> : \"ﬂ\" U+FB02".to_string(),
        "<Multi_key> <slash> <equal> : \"≠\" notequal".to_string(),
        "<Multi_key> <o> <e> : \"œ\" oe".to_string(),
        "<Multi_key> <minus> <minus> <minus> : \"—\" emdash".to_string(),
    ]
}

fn name_of(c: char) -> Option<String> {
    match c {
        'ﬂ' => Some("LATIN SMALL LIGATURE FL".to_string()),
        '≠' => Some("NOT EQUAL TO".to_string()),
        'œ' => Some("LATIN SMALL LIGATURE OE".to_string()),
        '—' => Some("EM DASH".to_string()),
        '🤣' => Some("ROLLING ON THE FLOOR LAUGHING".to_string()),
        '😀' => Some("GRINNING FACE".to_string()),
        _ => None,
    }
}

fn annotation(cp: &str, kind: Option<&str>, text: &str) -> Annotation {
    Annotation { cp: cp.to_string(), kind: kind.map(|k| k.to_string()), text: text.to_string() }
}

fn languages() -> Vec<(SupportedLocale, Vec<Vec<Annotation>>)> {
    vec![(
        SupportedLocale::en,
        vec![
            vec![
                annotation("😀", None, "face | grin | happy"),
                annotation("😀", Some("tts"), "grinning face"),
                annotation("≠", None, "not | equal"),
                annotation("≠", Some("tts"), "not equal"),
            ],
            vec![annotation("🤣", None, "laugh | floor"), annotation("🤣", Some("tts"), "rolling")],
        ],
    )]
}

fn built() -> SequenceDefinition {
    let mut def = SequenceDefinition::new();
    def.rebuild(&keysymdef(), &composedef(), &languages(), name_of).unwrap();
    def
}

#[test]
fn mod_test_translate_incomplete_sequence() {
    let def = built();
    assert_eq!(def.translate_sequence("f"), Err(SequenceDefinitionError::Incomplete));
    assert_eq!(def.translate_sequence("--"), Err(SequenceDefinitionError::Incomplete));
}

#[test]
fn mod_test_translate_value_not_found() {
    let def = built();
    assert_eq!(def.translate_sequence("nonexistent"), Err(SequenceDefinitionError::ValueNotFound));
}

#[test]
fn mod_test_translate_valid_sequence() {
    let def = built();
    let result = def.translate_sequence("fl");
    assert!(result.is_ok());
    assert_eq!(result.unwrap(), "ﬂ");
    assert_eq!(def.translate_sequence("pr"), Ok("peradaban".to_string()));
    assert_eq!(def.translate_sequence("wkwk"), Ok("🤣".to_string()));
}

#[test]
fn test_unicode() {
    let name = "#⃣".to_string();
    let reference = "#⃣".to_string();
    let mut map: StringTable<String> = StringTable::new();
    map.insert(reference, "surprise".to_string());
    assert_eq!(map.get(&name).unwrap(), "surprise");
}

#[test]
fn empty_definition_translates_nothing() {
    let def = SequenceDefinition::new();
    assert_eq!(def.translate_sequence(""), Err(SequenceDefinitionError::ValueNotFound));
    assert_eq!(def.translate_sequence("fl"), Err(SequenceDefinitionError::ValueNotFound));
    assert!(def.potential_prefix("", 10).is_empty());
}

#[test]
fn potential_prefix_lists_in_order_up_to_the_limit() {
    let def = built();
    let all = def.potential_prefix("", 100);
    let seqs: Vec<&str> = all.iter().map(|d| d.sequence.as_str()).collect();
    assert_eq!(seqs, vec!["---", "/=", "fl", "oe", "pr", "wkwk"]);
    let two = def.potential_prefix("", 2);
    assert_eq!(two.len(), 2);
    assert_eq!(two[0].sequence, "---");
    let fl = def.potential_prefix("f", 5);
    assert_eq!(
        fl,
        vec![SequenceDescription {
            sequence: "fl".to_string(),
            result: "ﬂ".to_string(),
            description: "LATIN SMALL LIGATURE FL".to_string(),
        }]
    );
    let pr = def.potential_prefix("p", 5);
    assert_eq!(pr[0].description, "peradaban");
    assert!(def.potential_prefix("x", 5).is_empty());
    assert!(def.potential_prefix("f", 0).is_empty());
}

#[test]
fn rebuild_fails_without_a_name_and_keeps_the_definition() {
    let mut def = built();
    let r = def.rebuild(&keysymdef(), &composedef(), &languages(), |c: char| {
        if c == 'œ' {
            None
        } else {
            name_of(c)
        }
    });
    assert_eq!(r, Err(SequenceDefinitionError::Failure));
    assert_eq!(def.translate_sequence("oe"), Ok("œ".to_string()));
}

#[test]
fn rebuild_fails_on_a_bad_keysym_table() {
    let mut def = SequenceDefinition::new();
    let bad = vec!["#define XK_bad                           0x1234  /* U+D800 A SURROGATE */".to_string()];
    assert_eq!(
        def.rebuild(&bad, &composedef(), &languages(), name_of),
        Err(SequenceDefinitionError::Failure)
    );
}

#[test]
fn search_prefers_characters_then_tokens_then_descriptions_then_names() {
    let def = built();
    let langs = vec![SupportedLocale::en];
    let found = def.search("happy", 10, &langs);
    assert_eq!(found.len(), 1);
    assert_eq!(found[0].result, "😀");
    assert_eq!(found[0].description, "grinning face");
    assert_eq!(found[0].sequence, "");

    let found = def.search("≠", 10, &langs);
    assert_eq!(found[0].result, "≠");
    assert_eq!(found[0].sequence, "/=");
    assert_eq!(found[0].description, "NOT EQUAL TO");

    let found = def.search("ligature", 10, &langs);
    let results: Vec<&str> = found.iter().map(|d| d.result.as_str()).collect();
    assert_eq!(results, vec!["ﬂ", "œ"]);
    assert_eq!(found[0].sequence, "fl");

    let found = def.search("ligature", 1, &langs);
    assert_eq!(found.len(), 1);

    let found = def.search("floor laugh", 10, &langs);
    assert_eq!(found[0].result, "🤣");
    assert_eq!(found[0].sequence, "wkwk");
    assert!(def.search("zebra", 10, &langs).is_empty());
}

#[test]
fn tokenize_splits_on_white_space() {
    let def = SequenceDefinition::new();
    assert_eq!(def.tokenize("  grin \t face\n"), vec!["grin", "face"]);
    assert!(def.tokenize("   ").is_empty());
    assert_eq!(def.tokenize("a\u{3000}b"), vec!["a", "b"]);
}

#[test]
fn localized_names() {
    let def = built();
    let d = def.get_localized_name('😀' as u32, name_of).unwrap();
    assert_eq!(d.result, "😀");
    assert_eq!(d.description, "grinning face");
    let d = def.get_localized_name('≠' as u32, name_of).unwrap();
    assert_eq!(d.result, "≠");
    assert_eq!(d.description, "NOT EQUAL TO");
    assert_eq!(d.sequence, "");
    let d = def.get_localized_name('œ' as u32, name_of).unwrap();
    assert_eq!(d.description, "LATIN SMALL LIGATURE OE");
    assert_eq!(
        def.get_localized_name(0xD800, name_of),
        Err(SequenceDefinitionError::ValueNotFound)
    );
    assert_eq!(
        def.get_localized_name('z' as u32, name_of),
        Err(SequenceDefinitionError::Failure)
    );
}

#[test]
fn substring_helpers() {
    let hay: Vec<char> = "not equal".chars().collect();
    let needles: Vec<Vec<char>> = vec!["equal".chars().collect(), "zzz".chars().collect()];
    assert!(any_contains_exec(&hay, &needles));
    assert!(!all_contain_exec(&hay, &needles));
    let empty: Vec<Vec<char>> = vec![];
    assert!(!any_contains_exec(&hay, &empty));
    assert!(all_contain_exec(&hay, &empty));
}

#[test]
fn test_build_success() {
    let mut def = SequenceDefinition::new();
    let result = def.rebuild(&keysymdef(), &composedef(), &languages(), name_of);
    assert!(result.is_ok());
}

#[test]
fn rebuilt_definition_lists_every_sequence_in_order() {
    let def = built();
    let all: Vec<String> = def.potential_prefix("", 100).into_iter().map(|d| d.sequence).collect();
    assert_eq!(all, vec!["---", "/=", "fl", "oe", "pr", "wkwk"]);
    assert_eq!(def.translate_sequence("/="), Ok("≠".to_string()));
    assert_eq!(def.translate_sequence("pr"), Ok("peradaban".to_string()));
}
