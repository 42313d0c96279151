use vstd::prelude::*;

use crate::errors::ParserError;
use crate::shared::{
    all_alnum, all_alnum_chars, all_alpha, all_alpha_chars, all_digit, all_digit_chars, chars_of,
    is_digit, is_digit_char, spells,
};

verus! {

/// Two to eight letters, but not four (four letters make a script).
pub open spec fn spec_is_language_subtag(t: Seq<char>) -> bool {
    2 <= t.len() <= 8 && t.len() != 4 && all_alpha(t)
}

/// Four letters.
pub open spec fn spec_is_script_subtag(t: Seq<char>) -> bool {
    t.len() == 4 && all_alpha(t)
}

/// Two letters or three digits.
pub open spec fn spec_is_region_subtag(t: Seq<char>) -> bool {
    (t.len() == 2 && all_alpha(t)) || (t.len() == 3 && all_digit(t))
}

/// Five to eight alphanumerics, or four that start with a digit.
pub open spec fn spec_is_variant_subtag(t: Seq<char>) -> bool {
    4 <= t.len() <= 8 && all_alnum(t) && (t.len() >= 5 || is_digit(t[0]))
}

/// The language that a language subtag stands for: `root` and `und` stand for none (empty).
pub open spec fn spec_language_subtag(t: Seq<char>) -> Result<Seq<char>, ParserError> {
    if t == "root"@ {
        Ok(Seq::empty())
    } else if !spec_is_language_subtag(t) {
        Err(ParserError::InvalidLanguage)
    } else if t == "und"@ {
        Ok(Seq::empty())
    } else {
        Ok(t)
    }
}

/// The view of a classifier's result.
pub open spec fn str_result_view(r: Result<&str, ParserError>) -> Result<Seq<char>, ParserError> {
    match r {
        Ok(s) => Ok(s@),
        Err(e) => Err(e),
    }
}

/// Whether `subtag` is a language subtag: two to eight letters, but not four.
pub fn is_language_subtag(subtag: &str) -> (r: bool)
    ensures
        r == spec_is_language_subtag(subtag@),
{
    let cs = chars_of(subtag);
    let len = cs.len();
    2 <= len && len <= 8 && len != 4 && all_alpha_chars(&cs)
}

/// Reads a language subtag; `root` and `und` give the empty language.
pub fn language_subtag(subtag: &str) -> (r: Result<&str, ParserError>)
    ensures
        str_result_view(r) == spec_language_subtag(subtag@),
{
    let cs = chars_of(subtag);
    if spells(&cs, "root") {
        proof {
            reveal_strlit("");
            assert(""@ =~= Seq::<char>::empty());
        }
        return Ok("");
    }
    if !is_language_subtag(subtag) {
        return Err(ParserError::InvalidLanguage);
    }
    if spells(&cs, "und") {
        proof {
            reveal_strlit("");
            assert(""@ =~= Seq::<char>::empty());
        }
        Ok("")
    } else {
        Ok(subtag)
    }
}

/// Whether `subtag` is a script subtag: four letters.
pub fn is_script_subtag(subtag: &str) -> (r: bool)
    ensures
        r == spec_is_script_subtag(subtag@),
{
    let cs = chars_of(subtag);
    cs.len() == 4 && all_alpha_chars(&cs)
}

/// Reads a script subtag.
pub fn script_subtag(subtag: &str) -> (r: Result<&str, ParserError>)
    ensures
        r is Ok <==> spec_is_script_subtag(subtag@),
        r matches Ok(s) ==> s@ == subtag@,
        r matches Err(e) ==> e == ParserError::InvalidSubtag,
{
    if is_script_subtag(subtag) {
        Ok(subtag)
    } else {
        Err(ParserError::InvalidSubtag)
    }
}

/// Whether `subtag` is a region subtag: two letters or three digits.
pub fn is_region_subtag(subtag: &str) -> (r: bool)
    ensures
        r == spec_is_region_subtag(subtag@),
{
    let cs = chars_of(subtag);
    let len = cs.len();
    (len == 2 && all_alpha_chars(&cs)) || (len == 3 && all_digit_chars(&cs))
}

/// Reads a region subtag.
pub fn region_subtag(subtag: &str) -> (r: Result<&str, ParserError>)
    ensures
        r is Ok <==> spec_is_region_subtag(subtag@),
        r matches Ok(s) ==> s@ == subtag@,
        r matches Err(e) ==> e == ParserError::InvalidSubtag,
{
    if is_region_subtag(subtag) {
        Ok(subtag)
    } else {
        Err(ParserError::InvalidSubtag)
    }
}

/// Whether `subtag` is a variant subtag: five to eight alphanumerics, or a digit and three
/// alphanumerics.
pub fn is_variant_subtag(subtag: &str) -> (r: bool)
    ensures
        r == spec_is_variant_subtag(subtag@),
{
    let cs = chars_of(subtag);
    let len = cs.len();
    4 <= len && len <= 8 && all_alnum_chars(&cs) && (len >= 5 || is_digit_char(cs[0]))
}

/// Reads a variant subtag.
pub fn variant_subtag(subtag: &str) -> (r: Result<&str, ParserError>)
    ensures
        r is Ok <==> spec_is_variant_subtag(subtag@),
        r matches Ok(s) ==> s@ == subtag@,
        r matches Err(e) ==> e == ParserError::InvalidSubtag,
{
    if is_variant_subtag(subtag) {
        Ok(subtag)
    } else {
        Err(ParserError::InvalidSubtag)
    }
}

} // verus!
