use vstd::prelude::*;

use crate::errors::ParserError;
use crate::shared::chars_of;
use crate::shared::spells;
use crate::subtags::{
    is_language_subtag, is_region_subtag, is_script_subtag, spec_is_language_subtag,
    spec_is_region_subtag, spec_is_script_subtag,
};

verus! {

/// Checks a language subtag, keeping `root` as it is.
pub fn get_language_subtag(subtag: &str) -> (r: Result<&str, ParserError>)
    ensures
        r is Ok <==> (subtag@ == "root"@ || spec_is_language_subtag(subtag@)),
        r matches Ok(s) ==> s@ == subtag@,
        r matches Err(e) ==> e == ParserError::InvalidLanguage,
{
    let cs = chars_of(subtag);
    if spells(&cs, "root") || is_language_subtag(subtag) {
        Ok(subtag)
    } else {
        Err(ParserError::InvalidLanguage)
    }
}

/// Checks a script subtag.
pub fn get_script_subtag(subtag: &str) -> (r: Result<&str, ParserError>)
    ensures
        r is Ok <==> spec_is_script_subtag(subtag@),
        r matches Ok(s) ==> s@ == subtag@,
        r matches Err(e) ==> e == ParserError::InvalidSubtag,
{
    if is_script_subtag(subtag) {
        Ok(subtag)
    } else {
        Err(ParserError::InvalidSubtag)
    }
}

/// Checks a region subtag.
pub fn get_region_subtag(subtag: &str) -> (r: Result<&str, ParserError>)
    ensures
        r is Ok <==> spec_is_region_subtag(subtag@),
        r matches Ok(s) ==> s@ == subtag@,
        r matches Err(e) ==> e == ParserError::InvalidSubtag,
{
    if is_region_subtag(subtag) {
        Ok(subtag)
    } else {
        Err(ParserError::InvalidSubtag)
    }
}

} // verus!
