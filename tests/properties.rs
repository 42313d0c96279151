use unicode_locale_parser::{
    parse_extensions, parse_extensions_from_iter, parse_language_id,
    parse_transformed_extensions, parse_unicode_language_id_from_iter, SubtagIter, parse_locale_id, parse_measure_unit,
    parse_subdivision_id, parse_unicode_language_id_with, split_str, ExtensionKind, ParserError,
};

#[test]
fn language_round_trip_keeps_the_identifier() {
    for text in ["en", "root", "und-Latn", "de_CH_1996", "sr-Cyrl-RS-ekavsk-1901", "zh-419"] {
        let first = parse_language_id(text).unwrap();
        let again = parse_language_id(&first.to_string()).unwrap();
        assert_eq!(first, again);
    }
    assert_eq!("de-CH-1996", parse_language_id("de_CH_1996").unwrap().to_string());
    assert_eq!("und", parse_language_id("root").unwrap().to_string());
}

#[test]
fn empty_language_is_missing() {
    assert_eq!(ParserError::Missing, parse_language_id("").unwrap_err());
    assert_eq!(ParserError::Missing, parse_locale_id("").unwrap_err());
}

#[test]
fn four_letter_language_is_invalid() {
    assert_eq!(ParserError::InvalidLanguage, parse_language_id("food").unwrap_err());
    assert_eq!(ParserError::InvalidLanguage, parse_locale_id("food-u-ca-gregory").unwrap_err());
}

#[test]
fn full_language_identifier() {
    let id = parse_language_id("en-Latn-US-macos").unwrap();
    assert_eq!("en", id.language);
    assert_eq!(Some("Latn".to_string()), id.script);
    assert_eq!(Some("US".to_string()), id.region);
    assert_eq!(Some(vec!["macos".to_string()]), id.variants);
    assert_eq!("en-Latn-US-macos", id.to_string());
}

#[test]
fn root_and_und_give_the_empty_language() {
    assert_eq!("", parse_language_id("root").unwrap().language);
    assert_eq!("", parse_language_id("und").unwrap().language);
}

#[test]
fn unicode_locale_keyword() {
    let locale = parse_locale_id("en-US-u-hc-h12").unwrap();
    let u = locale.extensions.unicode_locale.unwrap();
    assert_eq!(1, u.len());
    assert_eq!(&vec!["h12".to_string()], u[0].ufield.get("hc").unwrap());
    assert_eq!(None, u[0].ufield.get("ca"));
}

#[test]
fn all_extension_kinds_round_trip() {
    let text = "ja-Latn-JP-macos-u-attr1-kz-value2-t-en-Latn-US-linux-a-vue-x-foo-123";
    let locale = parse_locale_id(text).unwrap();
    let rendered = locale.to_string();
    assert_eq!(text, rendered);
    assert_eq!(rendered, parse_locale_id(&rendered).unwrap().to_string());
}

#[test]
fn second_private_use_is_unexpected() {
    assert_eq!(ParserError::Unexpected, parse_locale_id("en-x-foo-x-bar").unwrap_err());
    assert_eq!(ParserError::Unexpected, parse_extensions("x-foo-X-bar").unwrap_err());
}

#[test]
fn subdivision_examples() {
    let d = parse_subdivision_id("ussct").unwrap();
    assert_eq!("us", d.region);
    assert_eq!("sct", d.suffix);
    assert_eq!(ParserError::InvalidSubdivision, parse_subdivision_id("ab").unwrap_err());
    assert_eq!(ParserError::InvalidSubdivision, parse_subdivision_id("1b").unwrap_err());
    assert_eq!(ParserError::InvalidSubdivision, parse_subdivision_id("u").unwrap_err());
    assert_eq!(ParserError::InvalidSubdivision, parse_subdivision_id("usabcdef").unwrap_err());
    assert_eq!(ParserError::InvalidSubdivision, parse_subdivision_id("usé12").unwrap_err());
    let d = parse_subdivision_id("123abcdef").unwrap_err();
    assert_eq!(ParserError::InvalidSubdivision, d);
    let d = parse_subdivision_id("gbabcdef").unwrap_err();
    assert_eq!(ParserError::InvalidSubdivision, d);
    let d = parse_subdivision_id("gbeng").unwrap();
    assert_eq!("gbeng", d.to_string());
}

#[test]
fn repeated_variants_are_kept_once() {
    let id = parse_language_id("en-1996-macos-1996").unwrap();
    assert_eq!(Some(vec!["1996".to_string(), "macos".to_string()]), id.variants);
    let id = parse_language_id("en-macos-macos").unwrap();
    assert_eq!(Some(vec!["macos".to_string()]), id.variants);
    assert_eq!("en-macos", id.to_string());
}

#[test]
fn strict_language_rejects_trailing_subtags() {
    assert_eq!(
        ParserError::InvalidSubtag,
        parse_unicode_language_id_with("en-US-u-ca-gregory", true).unwrap_err()
    );
    let lenient = parse_unicode_language_id_with("en-US-u-ca-gregory", false).unwrap();
    assert_eq!("en-US", lenient.to_string());
    assert_eq!("en-US", parse_unicode_language_id_with("en-US", true).unwrap().to_string());
}

#[test]
fn tokenizer_splits_on_both_separators() {
    assert_eq!(vec!["en", "US", "x"], split_str("en_US-x"));
    assert_eq!(Vec::<&str>::new(), split_str(""));
    assert_eq!(vec!["a", ""], split_str("a-"));
    assert_eq!(vec!["", ""], split_str("_"));
}

#[test]
fn empty_subtags_between_extensions_are_skipped() {
    assert_eq!("en-u-ca-gregory", parse_locale_id("en--u-ca-gregory").unwrap().to_string());
}

#[test]
fn bad_singleton_is_invalid_extension() {
    assert_eq!(ParserError::InvalidExtension, parse_locale_id("en-US-!foo").unwrap_err());
    assert_eq!(ParserError::InvalidExtension, parse_locale_id("en-é").unwrap_err());
    assert_eq!("en", parse_language_id("en-é").unwrap().to_string());
}

#[test]
fn repeated_key_gathers_values() {
    let locale = parse_locale_id("en-u-ca-buddhist-ca-gregory").unwrap();
    assert_eq!("en-u-ca-buddhist-gregory", locale.to_string());
    let u = locale.extensions.unicode_locale.unwrap();
    assert_eq!(1, u[0].ufield.entries.len());
}

#[test]
fn transformed_key_without_values_is_invalid() {
    let mut iter = SubtagIter::new("a1-b1-foo");
    assert_eq!(ParserError::InvalidSubtag, parse_transformed_extensions(&mut iter).unwrap_err());
    assert_eq!(ParserError::InvalidSubtag, parse_extensions("t-a1-b1-foo").unwrap_err());
    assert_eq!(ParserError::InvalidSubtag, parse_extensions("t-a1").unwrap_err());
    assert_eq!(ParserError::InvalidSubtag, parse_locale_id("en-t-a1-x-foo").unwrap_err());
    assert_eq!("t-a1-foo-b1-bar", parse_extensions("t-a1-foo-b1-bar").unwrap().to_string());
}

#[test]
fn other_extension_singleton_is_lowercased() {
    assert_eq!("en-a-vue", parse_locale_id("en-A-vue").unwrap().to_string());
    assert_eq!(ExtensionKind::Other('z'), ExtensionKind::from_byte(b'Z').unwrap());
    assert_eq!(ExtensionKind::Pu, ExtensionKind::from_byte(b'X').unwrap());
    assert_eq!("7", ExtensionKind::Other('7').to_string());
}

#[test]
fn extensions_render_by_kind() {
    let x = parse_extensions("a-vue-u-ca-gregory-b-rust-t-a1-foo").unwrap();
    assert_eq!("u-ca-gregory-t-a1-foo-a-vue-b-rust", x.to_string());
    assert_eq!(2, x.other.unwrap().len());
}

#[test]
fn measure_unit_edges() {
    assert_eq!(vec!["meter"], parse_measure_unit("meter").unwrap().values);
    assert_eq!(ParserError::InvalidSubtag, parse_measure_unit("ab").unwrap_err());
    assert_eq!(ParserError::InvalidSubtag, parse_measure_unit("area-").unwrap_err());
    assert_eq!("kilogram-meter", parse_measure_unit("kilogram_meter").unwrap().to_string());
}

#[test]
fn error_messages() {
    assert_eq!("Missing identifier", ParserError::Missing.message());
    assert_eq!("Invalid language identifier", ParserError::InvalidLanguage.message());
    assert_eq!("Invalid subtag", ParserError::InvalidSubtag.message());
    assert_eq!("Invalid extension", ParserError::InvalidExtension.message());
    assert_eq!("Invalid subdivision", ParserError::InvalidSubdivision.message());
    assert_eq!("Unexpected error", ParserError::Unexpected.message());
}

#[test]
fn exhausted_cursor_is_missing_a_language() {
    let mut iter = SubtagIter::new("");
    assert_eq!(ParserError::Missing, parse_unicode_language_id_from_iter(&mut iter).unwrap_err());
    let mut iter = SubtagIter::new("en");
    parse_unicode_language_id_from_iter(&mut iter).unwrap();
    assert_eq!(ParserError::Missing, parse_unicode_language_id_from_iter(&mut iter).unwrap_err());
}

#[test]
fn extensions_read_to_the_end() {
    let mut iter = SubtagIter::new("en-US-u-ca-gregory-x-foo");
    parse_unicode_language_id_from_iter(&mut iter).unwrap();
    let x = parse_extensions_from_iter(&mut iter).unwrap();
    assert_eq!("u-ca-gregory-x-foo", x.to_string());
    assert_eq!(None, iter.peek());
}

#[test]
fn second_private_use_after_other_extensions() {
    assert_eq!(ParserError::Unexpected, parse_locale_id("en-x-foo-X-a-b").unwrap_err());
    assert_eq!(ParserError::Unexpected, parse_locale_id("en-u-ca-x-foo-t-a1-bar-x").unwrap_err());
    assert_eq!(ParserError::Unexpected, parse_locale_id("de-x-1-x").unwrap_err());
}
