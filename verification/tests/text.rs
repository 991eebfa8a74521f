//! JSON string literals written by the library.

use wickra_screener_core::text::json_string;

#[test]
fn a_json_string_decodes_back_to_its_text() {
    let mut samples: Vec<String> = vec![
        String::new(),
        "plain".to_string(),
        "quote \" backslash \\ slash /".to_string(),
        "line\nreturn\rtab\t".to_string(),
        "\u{0}\u{1}\u{8}\u{c}\u{1f}\u{7f}".to_string(),
        "ünïcødé ✓ 😀".to_string(),
    ];
    samples.push((0u32..0x80).filter_map(char::from_u32).collect());
    for s in samples {
        let j = json_string(&s);
        assert!(j.starts_with('"') && j.ends_with('"'), "{j}");
        assert!(j.chars().all(|c| (c as u32) >= 0x20), "{j:?}");
        let back: String = serde_json::from_str(&j).unwrap();
        assert_eq!(back, s);
    }
    assert_eq!(json_string("a\u{1}b"), "\"a\\u0001b\"");
}
