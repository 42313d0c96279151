use vstd::prelude::*;

use crate::errors::ParserError;
use crate::extensions::{
    field_parts, fields_view, flush_into, flush_opt, keys_unique, push_fields, values_non_empty, Fields,
};
use crate::lang::{
    lemma_parse_language_from_append, lemma_parse_language_from_wf, parse_language_from, parse_unicode_language_id_from_iter,
    render_language, LanguageIdView, UnicodeLanguageIdentifier,
};
use crate::shared::{
    alnum_subtag, chars_of, is_alnum_subtag, is_alpha, is_alpha_char, is_digit, is_digit_char,
    is_singleton, join, opt_view, push_part, singleton, strings_view, SubtagIter,
};
use crate::subtags::{is_language_subtag, spec_is_language_subtag};

verus! {

/// A transformed extension (`t`): an optional source language, then keys with their values.
#[derive(Debug, PartialEq, Eq)]
pub struct TransformedExtensions {
    pub tlang: Option<UnicodeLanguageIdentifier>,
    pub tfield: Fields,
}

pub struct TransformedView {
    pub tlang: Option<LanguageIdView>,
    pub fields: Seq<(Seq<char>, Seq<Seq<char>>)>,
}

impl View for TransformedExtensions {
    type V = TransformedView;

    open spec fn view(&self) -> TransformedView {
        TransformedView {
            tlang: match self.tlang {
                Some(l) => Some(l@),
                None => None,
            },
            fields: self.tfield@,
        }
    }
}

/// A key of a transformed extension: a letter and a digit.
pub open spec fn is_tkey(t: Seq<char>) -> bool {
    t.len() == 2 && is_alpha(t[0]) && is_digit(t[1])
}

/// Reads a transformed extension from position `p` of `ts`, having read `tlang` and `fields` so
/// far, and `values` for the current key `key`. The run ends at a singleton or at the end; a key
/// without values, followed by another key or by the end of the run, is an error. A value before any key is an error; a language subtag
/// there starts the source language.
pub open spec fn text_from(
    ts: Seq<Seq<char>>,
    p: int,
    tlang: Option<LanguageIdView>,
    fields: Seq<(Seq<char>, Seq<Seq<char>>)>,
    key: Option<Seq<char>>,
    values: Seq<Seq<char>>,
) -> Result<(TransformedView, int), ParserError>
    decreases ts.len() - p,
{
    if p < 0 || p >= ts.len() || is_singleton(ts[p]) {
        if key is Some && values.len() == 0 {
            Err(ParserError::InvalidSubtag)
        } else {
            Ok((TransformedView { tlang, fields: flush_opt(fields, key, values) }, p))
        }
    } else if is_tkey(ts[p]) {
        if key is Some && values.len() == 0 {
            Err(ParserError::InvalidSubtag)
        } else {
            text_from(ts, p + 1, tlang, flush_opt(fields, key, values), Some(ts[p]), seq![])
        }
    } else if is_alnum_subtag(ts[p], 3, 8) {
        if key is None {
            Err(ParserError::InvalidSubtag)
        } else {
            text_from(ts, p + 1, tlang, fields, key, values.push(ts[p]))
        }
    } else if spec_is_language_subtag(ts[p]) {
        match parse_language_from(ts, p) {
            Err(e) => Err(e),
            Ok((l, q)) => if p < q <= ts.len() {
                text_from(ts, q, Some(l), fields, key, values)
            } else {
                // never: reading a language identifier reads at least one subtag
                Err(ParserError::Unexpected)
            },
        }
    } else {
        Err(ParserError::InvalidSubtag)
    }
}

pub open spec fn parse_text_from(ts: Seq<Seq<char>>, p: int) -> Result<
    (TransformedView, int),
    ParserError,
> {
    text_from(ts, p, None, seq![], None, seq![])
}

pub open spec fn text_step_view(r: Result<TransformedExtensions, ParserError>, q: int) -> Result<
    (TransformedView, int),
    ParserError,
> {
    match r {
        Ok(t) => Ok((t@, q)),
        Err(e) => Err(e),
    }
}

pub open spec fn opt_lang_view(o: Option<UnicodeLanguageIdentifier>) -> Option<LanguageIdView> {
    match o {
        Some(l) => Some(l@),
        None => None,
    }
}

/// Subtags appended after the end, starting with a singleton, do not change what is read.
pub proof fn lemma_text_from_append(
    ts: Seq<Seq<char>>,
    r: Seq<Seq<char>>,
    p: int,
    tlang: Option<LanguageIdView>,
    fields: Seq<(Seq<char>, Seq<Seq<char>>)>,
    key: Option<Seq<char>>,
    values: Seq<Seq<char>>,
)
    requires
        0 <= p <= ts.len(),
        r.len() >= 1,
        is_singleton(r[0]),
    ensures
        text_from(ts + r, p, tlang, fields, key, values) == text_from(
            ts,
            p,
            tlang,
            fields,
            key,
            values,
        ),
    decreases ts.len() - p,
{
    let all = ts + r;
    if p == ts.len() {
        assert(all[p] == r[0]);
    } else {
        assert(all[p] == ts[p]);
        if is_singleton(ts[p]) {
        } else if is_tkey(ts[p]) {
            lemma_text_from_append(
                ts,
                r,
                p + 1,
                tlang,
                flush_opt(fields, key, values),
                Some(ts[p]),
                seq![],
            );
        } else if is_alnum_subtag(ts[p], 3, 8) {
            if key is Some {
                lemma_text_from_append(ts, r, p + 1, tlang, fields, key, values.push(ts[p]));
            }
        } else if spec_is_language_subtag(ts[p]) {
            lemma_parse_language_from_append(ts, r, p);
            if parse_language_from(ts, p) is Ok {
                lemma_parse_language_from_wf(ts, p);
                let (l, q) = parse_language_from(ts, p)->Ok_0;
                lemma_text_from_append(ts, r, q, Some(l), fields, key, values);
            }
        }
    }
}

/// Whether `t` is a key of a transformed extension.
fn tkey(t: &str) -> (r: bool)
    ensures
        r == is_tkey(t@),
{
    let cs = chars_of(t);
    cs.len() == 2 && is_alpha_char(cs[0]) && is_digit_char(cs[1])
}

/// Reads a transformed extension (the subtags after its singleton), stopping before the next
/// singleton.
pub fn parse_transformed_extensions(iter: &mut SubtagIter) -> (r: Result<
    TransformedExtensions,
    ParserError,
>)
    requires
        old(iter).wf(),
    ensures
        final(iter).wf(),
        final(iter).tokens() == old(iter).tokens(),
        old(iter).position() <= final(iter).position(),
        r matches Ok(x) ==> keys_unique(x.tfield@),
        r matches Ok(x) ==> forall|i: int| 0 <= i < x.tfield@.len() ==> x.tfield@[i].1.len() > 0,
        parse_text_from(old(iter).tokens(), old(iter).position()) == text_step_view(
            r,
            final(iter).position(),
        ),
{
    let ghost ts = iter.tokens();
    let ghost p0 = iter.position();
    let mut tlang: Option<UnicodeLanguageIdentifier> = None;
    let mut tfield: Vec<(String, Vec<String>)> = Vec::new();
    let mut tkey_seen: Option<String> = None;
    let mut tvalue: Vec<String> = Vec::new();
    proof {
        iter.lemma_wf();
        assert(strings_view(tvalue@) =~= seq![]);
        assert(fields_view(tfield@) =~= seq![]);
    }
    loop
        invariant
            iter.wf(),
            iter.tokens() == ts,
            ts == old(iter).tokens(),
            p0 == old(iter).position(),
            p0 <= iter.position() <= ts.len(),
            keys_unique(fields_view(tfield@)),
            values_non_empty(fields_view(tfield@)),
            text_from(
                ts,
                iter.position(),
                opt_lang_view(tlang),
                fields_view(tfield@),
                opt_view(tkey_seen),
                strings_view(tvalue@),
            ) == parse_text_from(ts, p0),
        ensures
            iter.wf(),
            iter.tokens() == ts,
            p0 <= iter.position(),
            keys_unique(fields_view(tfield@)),
            values_non_empty(fields_view(tfield@)),
            !(tkey_seen is Some && tvalue.len() == 0),
            parse_text_from(ts, p0) == Ok::<(TransformedView, int), ParserError>(
                (
                    TransformedView {
                        tlang: opt_lang_view(tlang),
                        fields: flush_opt(
                            fields_view(tfield@),
                            opt_view(tkey_seen),
                            strings_view(tvalue@),
                        ),
                    },
                    iter.position(),
                ),
            ),
        decreases ts.len() - iter.position(),
    {
        proof {
            iter.lemma_wf();
        }
        let ghost v0 = strings_view(tvalue@);
        let t = match iter.peek() {
            Some(t) => t,
            None => {
                if tkey_seen.is_some() && tvalue.len() == 0 {
                    return Err(ParserError::InvalidSubtag);
                }
                break;
            },
        };
        if singleton(t) {
            if tkey_seen.is_some() && tvalue.len() == 0 {
                return Err(ParserError::InvalidSubtag);
            }
            break;
        } else if tkey(t) {
            if let Some(k) = tkey_seen {
                if tvalue.len() == 0 {
                    return Err(ParserError::InvalidSubtag);
                }
                flush_into(&mut tfield, k, tvalue);
            }
            tvalue = Vec::new();
            tkey_seen = Some(t.to_owned());
            proof {
                assert(strings_view(tvalue@) =~= seq![]);
            }
            iter.next();
        } else if alnum_subtag(t, 3, 8) {
            if tkey_seen.is_none() {
                return Err(ParserError::InvalidSubtag);
            }
            tvalue.push(t.to_owned());
            proof {
                assert(strings_view(tvalue@) =~= v0.push(t@));
            }
            iter.next();
        } else if is_language_subtag(t) {
            proof {
                lemma_parse_language_from_wf(ts, iter.position());
            }
            match parse_unicode_language_id_from_iter(iter) {
                Ok(l) => tlang = Some(l),
                Err(e) => return Err(e),
            }
        } else {
            return Err(ParserError::InvalidSubtag);
        }
    }
    if let Some(k) = tkey_seen {
        flush_into(&mut tfield, k, tvalue);
    }
    Ok(TransformedExtensions { tlang, tfield: Fields { entries: tfield } })
}

/// The canonical text of a transformed extension: `t`, the source language, then each key with
/// its values.
pub open spec fn render_text(t: TransformedView) -> Seq<char> {
    join(
        seq![seq!['t']] + match t.tlang {
            Some(l) => seq![render_language(l)],
            None => seq![],
        } + field_parts(t.fields),
    )
}

impl TransformedExtensions {
    /// The canonical text, as `render_text` gives it.
    pub fn to_string(&self) -> (r: String)
        ensures
            r@ == render_text(self@),
    {
        let mut r = String::from_str("t");
        proof {
            reveal_strlit("t");
            assert(r@ =~= seq!['t']);
        }
        let ghost mut head: Seq<Seq<char>> = seq![seq!['t']];
        assert(join(head) == seq!['t']);
        if let Some(tlang) = &self.tlang {
            let l = tlang.to_string();
            push_part(&mut r, l.as_str());
            proof {
                crate::shared::lemma_join_push(head, l@);
                head = head.push(l@);
            }
        }
        push_fields(&mut r, &self.tfield.entries, Ghost(head));
        proof {
            assert(head + field_parts(self.tfield@) =~= seq![seq!['t']] + match self@.tlang {
                Some(l) => seq![render_language(l)],
                None => seq![],
            } + field_parts(self@.fields));
        }
        r
    }
}

} // verus!
