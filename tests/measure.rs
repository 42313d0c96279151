use unicode_locale_parser::{parse_unicode_measure_unit, ParserError, UnicodeMeasureUnit};

#[test]
fn success_parse_unicode_measure_unit() {
    // basic
    let measure = parse_unicode_measure_unit("area-hectare").unwrap();
    assert_eq!(vec!["area", "hectare"], measure.values);

    // rendering
    assert_eq!("area-hectare", parse_unicode_measure_unit("area-hectare").unwrap().to_string());

    // PartialEq trait implementation
    assert_eq!(
        parse_unicode_measure_unit("area-hectare").unwrap(),
        parse_unicode_measure_unit("area-hectare").unwrap()
    );

    // FromStr trait implementation
    let measure: UnicodeMeasureUnit = "area-hectare".parse().unwrap();
    assert_eq!(vec!["area", "hectare"], measure.values);
}

#[test]
fn fail_parse_unicode_measure_unit() {
    // missing
    assert_eq!(ParserError::Missing, parse_unicode_measure_unit("").unwrap_err());

    // invalid subtag
    assert_eq!(
        ParserError::InvalidSubtag,
        parse_unicode_measure_unit("acceleration-g-force").unwrap_err()
    );
}
