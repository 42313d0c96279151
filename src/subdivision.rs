use vstd::prelude::*;

use crate::errors::ParserError;
use crate::shared::{
    all_alnum, all_alnum_chars, all_alpha, all_digit, chars_of, is_alpha_char, is_digit_char,
    substring,
};

verus! {

/// A Unicode subdivision identifier: a region (two letters or three digits) and a suffix.
#[derive(Debug, PartialEq, Eq)]
pub struct UnicodeSubdivisionIdentifier {
    pub region: String,
    pub suffix: String,
}

pub struct SubdivisionView {
    pub region: Seq<char>,
    pub suffix: Seq<char>,
}

impl View for UnicodeSubdivisionIdentifier {
    type V = SubdivisionView;

    open spec fn view(&self) -> SubdivisionView {
        SubdivisionView { region: self.region@, suffix: self.suffix@ }
    }
}

/// Where the region of a subdivision identifier ends: after two letters or three digits; -1 when
/// it starts with neither.
pub open spec fn spec_region_index(s: Seq<char>) -> int {
    if s.len() >= 2 && all_alpha(s.take(2)) {
        2
    } else if s.len() >= 3 && all_digit(s.take(3)) {
        3
    } else {
        -1
    }
}

/// The subdivision identifier that `s` spells: two to seven characters, a region, then a suffix
/// of three to six alphanumerics.
pub open spec fn parse_subdivision(s: Seq<char>) -> Result<SubdivisionView, ParserError> {
    if s.len() == 0 {
        Err(ParserError::Missing)
    } else if s.len() < 2 || s.len() > 7 || spec_region_index(s) < 0 {
        Err(ParserError::InvalidSubdivision)
    } else {
        let i = spec_region_index(s);
        let suffix = s.subrange(i, s.len() as int);
        if 3 <= suffix.len() <= 6 && all_alnum(suffix) {
            Ok(SubdivisionView { region: s.take(i), suffix })
        } else {
            Err(ParserError::InvalidSubdivision)
        }
    }
}

pub open spec fn subdivision_result_view(r: Result<UnicodeSubdivisionIdentifier, ParserError>) -> Result<
    SubdivisionView,
    ParserError,
> {
    match r {
        Ok(d) => Ok(d@),
        Err(e) => Err(e),
    }
}

/// Parses `subdivision_id` as a subdivision identifier.
pub fn parse_unicode_subdivision_id(subdivision_id: &str) -> (r: Result<
    UnicodeSubdivisionIdentifier,
    ParserError,
>)
    ensures
        subdivision_result_view(r) == parse_subdivision(subdivision_id@),
{
    let chunks = chars_of(subdivision_id);
    if chunks.len() == 0 {
        return Err(ParserError::Missing);
    }
    let len = chunks.len();
    if len < 2 || len > 7 {
        return Err(ParserError::InvalidSubdivision);
    }
    let region_index = match region_index(&chunks) {
        Ok(i) => i,
        Err(e) => return Err(e),
    };
    let ascii = subdivision_id.is_ascii();
    let suffix_len = len - region_index;
    let suffix = substring(subdivision_id, ascii, region_index, len);
    let suffix_chars = chars_of(suffix);
    if suffix_len < 3 || suffix_len > 6 || !all_alnum_chars(&suffix_chars) {
        return Err(ParserError::InvalidSubdivision);
    }
    let region = substring(subdivision_id, ascii, 0, region_index);
    proof {
        assert(subdivision_id@.take(region_index as int) =~= subdivision_id@.subrange(
            0,
            region_index as int,
        ));
    }
    Ok(UnicodeSubdivisionIdentifier { region: region.to_owned(), suffix: suffix.to_owned() })
}

/// Where the region of a subdivision identifier ends.
fn region_index(chunks: &Vec<char>) -> (r: Result<usize, ParserError>)
    requires
        chunks.len() >= 2,
    ensures
        r is Ok <==> spec_region_index(chunks@) >= 0,
        r matches Ok(i) ==> i == spec_region_index(chunks@),
        r matches Err(e) ==> e == ParserError::InvalidSubdivision,
{
    if is_alpha_char(chunks[0]) && is_alpha_char(chunks[1]) {
        proof {
            assert(all_alpha(chunks@.take(2)));
        }
        Ok(2)
    } else if chunks.len() >= 3 && is_digit_char(chunks[0]) && is_digit_char(chunks[1])
        && is_digit_char(chunks[2]) {
        proof {
            if all_alpha(chunks@.take(2)) {
                assert(chunks@.take(2)[0] == chunks@[0]);
                assert(chunks@.take(2)[1] == chunks@[1]);
            }
            assert(all_digit(chunks@.take(3)));
        }
        Ok(3)
    } else {
        proof {
            if all_alpha(chunks@.take(2)) {
                assert(chunks@.take(2)[0] == chunks@[0]);
                assert(chunks@.take(2)[1] == chunks@[1]);
            }
            if chunks.len() >= 3 && all_digit(chunks@.take(3)) {
                assert(chunks@.take(3)[0] == chunks@[0]);
                assert(chunks@.take(3)[1] == chunks@[1]);
                assert(chunks@.take(3)[2] == chunks@[2]);
            }
        }
        Err(ParserError::InvalidSubdivision)
    }
}

impl UnicodeSubdivisionIdentifier {
    /// The canonical text: the region followed by the suffix.
    pub fn to_string(&self) -> (r: String)
        ensures
            r@ == self@.region + self@.suffix,
    {
        let mut r = self.region.clone();
        r.append(self.suffix.as_str());
        r
    }
}

impl std::str::FromStr for UnicodeSubdivisionIdentifier {
    type Err = ParserError;

    fn from_str(source: &str) -> Result<Self, Self::Err> {
        parse_unicode_subdivision_id(source)
    }
}

} // verus!
