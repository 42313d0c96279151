//! A parser for Unicode locale identifiers: language, script, region and variant subtags, the
//! locale extensions, measure units and subdivision identifiers.
pub mod errors;
pub mod extensions;
pub mod lang;
pub mod locale;
pub mod measure;
pub mod shared;
pub mod subdivision;
pub mod subtag;
pub mod subtags;

pub use crate::errors::ParserError;
pub use crate::extensions::other::{parse_other_extensions, OtherExtensions};
pub use crate::extensions::pu::{parse_pu_extensions, PuExtensions};
pub use crate::extensions::transformed::{parse_transformed_extensions, TransformedExtensions};
pub use crate::extensions::unicode_locale::{
    parse_unicode_locale_extensions, UnicodeLocaleExtensions,
};
pub use crate::extensions::{
    parse_extensions, parse_extensions_from_iter, ExtensionKind, Extensions, Fields,
};
pub use crate::lang::{
    parse_unicode_language_id, parse_unicode_language_id as parse_language_id,
    parse_unicode_language_id_from_iter, parse_unicode_language_id_with, UnicodeLanguageIdentifier,
};
pub use crate::locale::{
    parse_unicode_locale_id, parse_unicode_locale_id as parse_locale_id, UnicodeLocaleIdentifier,
};
pub use crate::measure::{
    parse_unicode_measure_unit, parse_unicode_measure_unit as parse_measure_unit,
    UnicodeMeasureUnit,
};
pub use crate::shared::{split_str, SubtagIter};
pub use crate::subdivision::{
    parse_unicode_subdivision_id, parse_unicode_subdivision_id as parse_subdivision_id,
    UnicodeSubdivisionIdentifier,
};
pub use crate::subtag::{get_language_subtag, get_region_subtag, get_script_subtag};
pub use crate::subtags::{
    is_language_subtag, is_region_subtag, is_script_subtag, is_variant_subtag, language_subtag,
    region_subtag, script_subtag, variant_subtag,
};
