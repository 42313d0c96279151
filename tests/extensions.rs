use unicode_locale_parser::{
    parse_extensions, parse_other_extensions, parse_pu_extensions, parse_transformed_extensions,
    parse_unicode_locale_extensions, ExtensionKind, ParserError, SubtagIter,
};

#[test]
fn success_parse_extensions() {
    // basic
    let extensions = parse_extensions(
        "U-attr1-kz-value2-t-en-Latn-US-macos-t1-value1-value2-a-vue-rust-x-foo-123",
    )
    .unwrap();
    let unicode_locale = extensions.unicode_locale.unwrap();
    assert_eq!(
        ["u-attr1-kz-value2"],
        unicode_locale.iter().map(|u| u.to_string()).collect::<Vec<String>>().as_slice()
    );
    let transformed = extensions.transformed.unwrap();
    assert_eq!(
        ["t-en-Latn-US-macos-t1-value1-value2"],
        transformed.iter().map(|t| t.to_string()).collect::<Vec<String>>().as_slice()
    );
    let other = extensions.other.unwrap();
    assert_eq!(
        ["a-vue-rust"],
        other.iter().map(|o| o.to_string()).collect::<Vec<String>>().as_slice()
    );
    let pu = extensions.pu.unwrap();
    assert_eq!("x-foo-123", pu.to_string());

    // rendering
    assert_eq!(
        "u-attr1-kz-value2-t-en-Latn-US-macos-t1-value1-value2-a-vue-rust-x-foo-123",
        parse_extensions(
            "U-attr1-kz-value2-t-en-Latn-US-macos-t1-value1-value2-a-vue-rust-x-foo-123",
        )
        .unwrap()
        .to_string()
    );
}

#[test]
fn fail_parse_unicode_extensions() {
    // missing locale
    assert_eq!(ParserError::Missing, parse_extensions("").unwrap_err());
}

#[test]
fn success_extension_kind_from_byte() {
    assert_eq!(ExtensionKind::UnicodeLocale, ExtensionKind::from_byte(b'u').unwrap());
    assert_eq!(ExtensionKind::Transformed, ExtensionKind::from_byte(b't').unwrap());
    assert_eq!(ExtensionKind::Transformed, ExtensionKind::from_byte(b'T').unwrap());
    assert_eq!(ExtensionKind::Pu, ExtensionKind::from_byte(b'x').unwrap());
    assert_eq!(ExtensionKind::Other('a'), ExtensionKind::from_byte(b'a').unwrap());
    assert_eq!(ExtensionKind::Other('1'), ExtensionKind::from_byte(b'1').unwrap());
}

#[test]
fn fail_extension_kind_from_byte() {
    assert_eq!(ParserError::InvalidExtension, ExtensionKind::from_byte(b'!').unwrap_err());
    assert_eq!(ParserError::InvalidExtension, ExtensionKind::from_byte(b' ').unwrap_err());
}

#[test]
fn extention_kind_display() {
    assert_eq!("u", ExtensionKind::UnicodeLocale.to_string());
    assert_eq!("t", ExtensionKind::Transformed.to_string());
    assert_eq!("x", ExtensionKind::Pu.to_string());
    assert_eq!("a", ExtensionKind::Other('a').to_string());
}

#[test]
fn success_other_extensions() {
    // full case
    let mut iter = SubtagIter::new("abc-123");
    assert_eq!(vec!["abc", "123"], parse_other_extensions(&mut iter, 'a').unwrap().values);

    // rendering
    let mut iter = SubtagIter::new("abc-123");
    assert_eq!("b-abc-123", parse_other_extensions(&mut iter, 'b').unwrap().to_string());
}

#[test]
fn other_fail_pu_extensions() {
    // invalid subtag
    let mut iter = SubtagIter::new("abc-123456789");
    assert_eq!(ParserError::InvalidSubtag, parse_other_extensions(&mut iter, '1').unwrap_err());
}

#[test]
fn success_pu_extensions() {
    // full case
    let mut iter = SubtagIter::new("abc-123");
    assert_eq!(vec!["abc", "123"], parse_pu_extensions(&mut iter).unwrap().values);

    // rendering
    let mut iter = SubtagIter::new("abc-123");
    assert_eq!("x-abc-123", parse_pu_extensions(&mut iter).unwrap().to_string());
}

#[test]
fn pu_fail_pu_extensions() {
    // invalid subtag
    let mut iter = SubtagIter::new("abc-123456789");
    assert_eq!(ParserError::InvalidSubtag, parse_pu_extensions(&mut iter).unwrap_err());
}

#[test]
fn success_transformed_extensions() {
    // basic case
    let mut iter = SubtagIter::new("en-US-a1-foo");
    assert_eq!("t-en-US-a1-foo", parse_transformed_extensions(&mut iter).unwrap().to_string());

    // no tlang
    let mut iter = SubtagIter::new("a1-foo");
    assert_eq!("t-a1-foo", parse_transformed_extensions(&mut iter).unwrap().to_string());

    // tvalue multiple
    let mut iter = SubtagIter::new("en-a1-foo-b1-bar");
    assert_eq!(
        "t-en-a1-foo-b1-bar",
        parse_transformed_extensions(&mut iter).unwrap().to_string()
    );

    // tlang only
    let mut iter = SubtagIter::new("en-Latn-US-macos");
    assert_eq!(
        "t-en-Latn-US-macos",
        parse_transformed_extensions(&mut iter).unwrap().to_string()
    );
}

#[test]
fn fail_transformed_extensions() {
    // invalid tkey
    let mut iter = SubtagIter::new("1a-foo");
    assert_eq!(ParserError::InvalidSubtag, parse_transformed_extensions(&mut iter).unwrap_err());

    // missing tkey
    let mut iter = SubtagIter::new("foo");
    assert_eq!(ParserError::InvalidSubtag, parse_transformed_extensions(&mut iter).unwrap_err());

    // missing tvalue
    let mut iter = SubtagIter::new("a1-foo-b1");
    assert_eq!(ParserError::InvalidSubtag, parse_transformed_extensions(&mut iter).unwrap_err());
}

#[test]
fn success_unicode_locale_extensions() {
    // basic case
    let mut iter = SubtagIter::new("1k-value1-attr-ky-value2");
    assert_eq!(
        "u-1k-value1-attr-ky-value2",
        parse_unicode_locale_extensions(&mut iter).unwrap().to_string()
    );

    // no attribute
    let mut iter = SubtagIter::new("1k-value1-ky-value2");
    assert_eq!(
        "u-1k-value1-ky-value2",
        parse_unicode_locale_extensions(&mut iter).unwrap().to_string()
    );

    // attribute multiple
    let mut iter = SubtagIter::new("1k-value1-attr1-attr2-ky-value2");
    assert_eq!(
        "u-1k-value1-attr1-attr2-ky-value2",
        parse_unicode_locale_extensions(&mut iter).unwrap().to_string()
    );

    // uvalue multiple
    let mut iter = SubtagIter::new("ky-value1-value2");
    assert_eq!(
        "u-ky-value1-value2",
        parse_unicode_locale_extensions(&mut iter).unwrap().to_string()
    );

    // no uvalue
    let mut iter = SubtagIter::new("ky");
    assert_eq!("u-ky", parse_unicode_locale_extensions(&mut iter).unwrap().to_string());
}

#[test]
fn fail_unicode_locale_extensions() {
    // invalid ukey
    let mut iter = SubtagIter::new("k1");
    assert_eq!(ParserError::InvalidSubtag, parse_unicode_locale_extensions(&mut iter).unwrap_err());

    // invalid uvalue
    let mut iter = SubtagIter::new("ky-{}");
    assert_eq!(ParserError::InvalidSubtag, parse_unicode_locale_extensions(&mut iter).unwrap_err());

    // invalid attribute
    let mut iter = SubtagIter::new("ky-value1-{?}");
    assert_eq!(ParserError::InvalidSubtag, parse_unicode_locale_extensions(&mut iter).unwrap_err());
}
