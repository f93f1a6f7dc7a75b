use sweetpad_core::json::{json_string, json_string_array, json_string_map};

#[test]
fn json_string_plain() {
    assert_eq!(json_string("Scratch"), "\"Scratch\"");
    assert_eq!(json_string(""), "\"\"");
}

#[test]
fn json_string_escapes_quotes_and_backslashes() {
    assert_eq!(json_string("a\"b\\c"), "\"a\\\"b\\\\c\"");
}

#[test]
fn json_string_escapes_named_controls() {
    assert_eq!(json_string("\n\r\t\u{8}\u{c}"), "\"\\n\\r\\t\\b\\f\"");
}

#[test]
fn json_string_escapes_other_controls_as_hex() {
    assert_eq!(json_string("\u{0}\u{1f}\u{1b}"), "\"\\u0000\\u001f\\u001b\"");
}

#[test]
fn json_string_keeps_unicode_and_slash() {
    assert_eq!(json_string("é/☃\u{7f}"), "\"é/☃\u{7f}\"");
}

/// Reads a JSON string literal back, for checking what the writer wrote.
fn read_back(q: &str) -> String {
    let inner: Vec<char> = q.chars().collect();
    assert!(inner.len() >= 2 && inner[0] == '"' && inner[inner.len() - 1] == '"');
    let body = &inner[1..inner.len() - 1];
    let mut out = String::new();
    let mut i = 0;
    while i < body.len() {
        let c = body[i];
        if c == '\\' {
            let e = body[i + 1];
            match e {
                '"' => out.push('"'),
                '\\' => out.push('\\'),
                '/' => out.push('/'),
                'b' => out.push('\u{8}'),
                'f' => out.push('\u{c}'),
                'n' => out.push('\n'),
                'r' => out.push('\r'),
                't' => out.push('\t'),
                'u' => {
                    let hex: String = body[i + 2..i + 6].iter().collect();
                    out.push(char::from_u32(u32::from_str_radix(&hex, 16).unwrap()).unwrap());
                    i += 4;
                }
                _ => panic!("bad escape"),
            }
            i += 2;
        } else {
            assert!(c != '"' && (c as u32) >= 0x20);
            out.push(c);
            i += 1;
        }
    }
    out
}

#[test]
fn json_string_reads_back() {
    for s in ["", "plain", "q\"uote", "back\\slash", "\u{0}\u{1}\n\t\u{1f}x", "mixé☃\"\\\u{7}"] {
        assert_eq!(read_back(&json_string(s)), s);
    }
}

#[test]
fn json_string_array_empty_and_items() {
    let empty: Vec<String> = Vec::new();
    assert_eq!(json_string_array(&empty), "[]");
    let one = vec!["Debug".to_string()];
    assert_eq!(json_string_array(&one), "[\"Debug\"]");
    let two = vec!["Debug".to_string(), "Re\"lease".to_string()];
    assert_eq!(json_string_array(&two), "[\"Debug\", \"Re\\\"lease\"]");
}

#[test]
fn json_string_map_empty_and_entries() {
    let empty: Vec<(String, String)> = Vec::new();
    assert_eq!(json_string_map(&empty, 4), "{}");
    let entries = vec![
        ("ARCHS".to_string(), "arm64".to_string()),
        ("SDKROOT".to_string(), "macosx".to_string()),
    ];
    assert_eq!(
        json_string_map(&entries, 4),
        "{\n      \"ARCHS\": \"arm64\",\n      \"SDKROOT\": \"macosx\"\n    }"
    );
    assert_eq!(
        json_string_map(&entries[..1], 0),
        "{\n  \"ARCHS\": \"arm64\"\n}"
    );
}
