use vstd::prelude::*;

use crate::errors::ParserError;
use crate::extensions::{
    first_kind, lemma_ext_from_second_private_use, parse_ext_from, ExtensionKind, parse_extensions_from_iter, render_ext, Extensions, ExtensionsView,
};
use crate::lang::{
    lemma_parse_language_from_append, lemma_parse_language_from_wf, parse_language_from, parse_unicode_language_id_from_iter,
    render_language, LanguageIdView, UnicodeLanguageIdentifier,
};
use crate::shared::{
    is_singleton, lemma_split_seps_concat, lemma_split_seps_len, push_part, split_seps, subtags_of,
    SubtagIter,
};

verus! {

/// A Unicode locale identifier: a language identifier and its extensions.
#[derive(Debug, PartialEq, Eq)]
pub struct UnicodeLocaleIdentifier {
    pub language: UnicodeLanguageIdentifier,
    pub extensions: Extensions,
}

pub struct LocaleIdView {
    pub language: LanguageIdView,
    pub extensions: ExtensionsView,
}

impl View for UnicodeLocaleIdentifier {
    type V = LocaleIdView;

    open spec fn view(&self) -> LocaleIdView {
        LocaleIdView { language: self.language@, extensions: self.extensions@ }
    }
}

/// The locale identifier that `text` spells: a language identifier, then extensions up to the
/// end.
pub open spec fn parse_locale(text: Seq<char>) -> Result<LocaleIdView, ParserError> {
    if text.len() == 0 {
        Err(ParserError::Missing)
    } else {
        match parse_language_from(subtags_of(text), 0) {
            Err(e) => Err(e),
            Ok((language, q)) => match parse_ext_from(subtags_of(text), q) {
                Err(e) => Err(e),
                Ok(extensions) => Ok(LocaleIdView { language, extensions }),
            },
        }
    }
}

pub open spec fn locale_result_view(r: Result<UnicodeLocaleIdentifier, ParserError>) -> Result<
    LocaleIdView,
    ParserError,
> {
    match r {
        Ok(l) => Ok(l@),
        Err(e) => Err(e),
    }
}

/// Parses `locale_id` as a locale identifier.
pub fn parse_unicode_locale_id(locale_id: &str) -> (r: Result<UnicodeLocaleIdentifier, ParserError>)
    ensures
        locale_result_view(r) == parse_locale(locale_id@),
{
    if locale_id.is_empty() {
        return Err(ParserError::Missing);
    }
    let mut iter = SubtagIter::new(locale_id);
    let language = match parse_unicode_language_id_from_iter(&mut iter) {
        Ok(l) => l,
        Err(e) => return Err(e),
    };
    let extensions = match parse_extensions_from_iter(&mut iter) {
        Ok(x) => x,
        Err(e) => return Err(e),
    };
    Ok(UnicodeLocaleIdentifier { language, extensions })
}

/// The variants of the language of a parsed locale identifier never repeat.
pub proof fn lemma_locale_variants_distinct(text: Seq<char>)
    requires
        parse_locale(text) is Ok,
    ensures
        parse_locale(text)->Ok_0.language.variants matches Some(vs) ==> vs.no_duplicates(),
{
    lemma_parse_language_from_wf(subtags_of(text), 0);
}

/// The canonical text of a locale identifier: its language identifier, then, unless there are
/// none, its extensions.
pub open spec fn render_locale(l: LocaleIdView) -> Seq<char> {
    if render_ext(l.extensions).len() == 0 {
        render_language(l.language)
    } else {
        render_language(l.language) + seq!['-'] + render_ext(l.extensions)
    }
}

impl UnicodeLocaleIdentifier {
    /// The canonical text, as `render_locale` gives it.
    pub fn to_string(&self) -> (r: String)
        ensures
            r@ == render_locale(self@),
    {
        let mut r = self.language.to_string();
        let extensions = self.extensions.to_string();
        if !extensions.as_str().is_empty() {
            push_part(&mut r, extensions.as_str());
        }
        r
    }
}

/// A second private-use extension is an error: when `text` parses as a locale identifier that
/// has a private-use extension, appending `-` and subtags that start with another private-use
/// singleton (`x` or `X`) gives `Unexpected`, whatever follows that singleton.
pub proof fn lemma_second_private_use(text: Seq<char>, more: Seq<char>)
    requires
        parse_locale(text) matches Ok(l) && l.extensions.pu is Some,
        more.len() >= 1,
        subtags_of(more)[0] == seq!['x'] || subtags_of(more)[0] == seq!['X'],
    ensures
        parse_locale(text + seq!['-'] + more) == Err::<LocaleIdView, ParserError>(
            ParserError::Unexpected,
        ),
{
    let ts = split_seps(text);
    let r = split_seps(more);
    lemma_split_seps_concat(text, more);
    lemma_split_seps_len(text);
    lemma_split_seps_len(more);
    assert(is_singleton(r[0]));
    assert(first_kind(r[0]) == Ok::<ExtensionKind, ParserError>(ExtensionKind::Pu));
    lemma_parse_language_from_append(ts, r, 0);
    lemma_parse_language_from_wf(ts, 0);
    let q = parse_language_from(ts, 0)->Ok_0.1;
    lemma_ext_from_second_private_use(ts, r, q, seq![], seq![], seq![], None);
}

impl std::str::FromStr for UnicodeLocaleIdentifier {
    type Err = ParserError;

    fn from_str(source: &str) -> Result<Self, Self::Err> {
        parse_unicode_locale_id(source)
    }
}

} // verus!
