use simbolmudah::utf16::{decode_utf16, encode_utf16};

#[test]
fn keyboard_controller_char_to_os_string() {
    let c = 'œ';
    let s: Vec<u16> = encode_utf16(&c.to_string());
    let ans = [339];
    assert_eq!(s, ans);
}

#[test]
fn input_state_char_to_os_string() {
    let c = 'œ';
    let s: Vec<u16> = encode_utf16(&c.to_string());
    let ans = [339];
    assert_eq!(s, ans);
}

#[test]
fn encoding_matches_std_and_round_trips() {
    for text in ["", "abc", "œ≠😀", "\u{FFFF}\u{10000}\u{10FFFF}", "mixed 🤣 text"] {
        let units = encode_utf16(text);
        assert_eq!(units, text.encode_utf16().collect::<Vec<u16>>());
        assert_eq!(decode_utf16(&units), Some(text.to_string()));
    }
    assert_eq!(encode_utf16("😀"), vec![0xD83D, 0xDE00]);
}

#[test]
fn decoding_rejects_unpaired_surrogates() {
    assert_eq!(decode_utf16(&[0xD800]), None);
    assert_eq!(decode_utf16(&[0xDC00, 0x41]), None);
    assert_eq!(decode_utf16(&[0x41, 0xD800, 0x42]), None);
    assert_eq!(decode_utf16(&[0xD800, 0xDC00]), Some("\u{10000}".to_string()));
    assert_eq!(decode_utf16(&[]), Some(String::new()));
}
