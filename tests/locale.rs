use unicode_locale_parser::{parse_unicode_locale_id, ParserError, UnicodeLocaleIdentifier};

#[test]
fn success_parse_unicode_locale_id() {
    // basic
    let locale = parse_unicode_locale_id("en-US-u-hc-h12").unwrap();
    assert_eq!("en", locale.language.language);
    assert_eq!(None, locale.language.script);
    assert_eq!(Some("US".to_string()), locale.language.region);
    assert_eq!(None, locale.language.variants);
    let u = locale.extensions.unicode_locale.unwrap();
    assert_eq!(&vec!["h12".to_string()], u.get(0).unwrap().ufield.get("hc").unwrap());

    // full case
    let locale = parse_unicode_locale_id(
        "ja-Latn-JP-macos-U-attr1-kz-value2-t-en-Latn-US-linux-t1-value1-value2-a-vue-rust-x-foo-123",
    )
    .unwrap();
    assert_eq!("ja-Latn-JP-macos", locale.language.to_string());
    assert_eq!(
        "u-attr1-kz-value2-t-en-Latn-US-linux-t1-value1-value2-a-vue-rust-x-foo-123",
        locale.extensions.to_string()
    );

    // rendering
    assert_eq!(
        "ja-Latn-JP-macos-u-attr1-kz-value2-t-en-Latn-US-linux-t1-value1-value2-a-vue-rust-x-foo-123",
        parse_unicode_locale_id(
            "ja-Latn-JP-macos-U-attr1-kz-value2-t-en-Latn-US-linux-t1-value1-value2-a-vue-rust-x-foo-123"
        )
        .unwrap()
        .to_string()
    );

    // FromStr trait implementation
    let result: UnicodeLocaleIdentifier = "ja-Latn-JP".parse().unwrap();
    assert_eq!("ja-Latn-JP", result.to_string());
}

#[test]
fn fail_parse_unicode_locale_id() {
    // missing locale
    assert_eq!(ParserError::Missing, parse_unicode_locale_id("").unwrap_err());
}
