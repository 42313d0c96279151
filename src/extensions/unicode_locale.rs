use vstd::prelude::*;

use crate::errors::ParserError;
use crate::extensions::{
    field_parts, fields_view, flush_into, flush_opt, keys_unique, push_fields, Fields,
};
use crate::shared::{
    alnum_subtag, chars_of, is_alnum, is_alnum_char, is_alnum_subtag, is_alpha, is_alpha_char,
    is_singleton, join, opt_view, push_strings, singleton, strings_view, SubtagIter,
};

verus! {

/// A unicode locale extension (`u`): attributes, then keys with their values.
#[derive(Debug, PartialEq, Eq)]
pub struct UnicodeLocaleExtensions {
    pub attribute: Vec<String>,
    pub ufield: Fields,
}

pub struct UnicodeLocaleView {
    pub attributes: Seq<Seq<char>>,
    pub fields: Seq<(Seq<char>, Seq<Seq<char>>)>,
}

impl View for UnicodeLocaleExtensions {
    type V = UnicodeLocaleView;

    open spec fn view(&self) -> UnicodeLocaleView {
        UnicodeLocaleView { attributes: strings_view(self.attribute@), fields: self.ufield@ }
    }
}

/// A key of a unicode locale extension: an alphanumeric and a letter.
pub open spec fn is_ukey(t: Seq<char>) -> bool {
    t.len() == 2 && is_alnum(t[0]) && is_alpha(t[1])
}

/// Reads a unicode locale extension from position `p` of `ts`, having read `attributes` and
/// `fields` so far, and `values` for the current key `key`. The run ends at a singleton or at the
/// end; values before any key are attributes.
pub open spec fn uext_from(
    ts: Seq<Seq<char>>,
    p: int,
    attributes: Seq<Seq<char>>,
    fields: Seq<(Seq<char>, Seq<Seq<char>>)>,
    key: Option<Seq<char>>,
    values: Seq<Seq<char>>,
) -> Result<(UnicodeLocaleView, int), ParserError>
    decreases ts.len() - p,
{
    if p < 0 || p >= ts.len() || is_singleton(ts[p]) {
        Ok((UnicodeLocaleView { attributes, fields: flush_opt(fields, key, values) }, p))
    } else if is_ukey(ts[p]) {
        uext_from(ts, p + 1, attributes, flush_opt(fields, key, values), Some(ts[p]), seq![])
    } else if is_alnum_subtag(ts[p], 3, 8) {
        if key is Some {
            uext_from(ts, p + 1, attributes, fields, key, values.push(ts[p]))
        } else {
            uext_from(ts, p + 1, attributes.push(ts[p]), fields, key, values)
        }
    } else {
        Err(ParserError::InvalidSubtag)
    }
}

pub open spec fn parse_uext_from(ts: Seq<Seq<char>>, p: int) -> Result<
    (UnicodeLocaleView, int),
    ParserError,
> {
    uext_from(ts, p, seq![], seq![], None, seq![])
}

pub open spec fn uext_step_view(r: Result<UnicodeLocaleExtensions, ParserError>, q: int) -> Result<
    (UnicodeLocaleView, int),
    ParserError,
> {
    match r {
        Ok(u) => Ok((u@, q)),
        Err(e) => Err(e),
    }
}

/// Subtags appended after the end, starting with a singleton, do not change what is read.
pub proof fn lemma_uext_from_append(
    ts: Seq<Seq<char>>,
    r: Seq<Seq<char>>,
    p: int,
    attributes: Seq<Seq<char>>,
    fields: Seq<(Seq<char>, Seq<Seq<char>>)>,
    key: Option<Seq<char>>,
    values: Seq<Seq<char>>,
)
    requires
        0 <= p <= ts.len(),
        r.len() >= 1,
        is_singleton(r[0]),
    ensures
        uext_from(ts + r, p, attributes, fields, key, values) == uext_from(
            ts,
            p,
            attributes,
            fields,
            key,
            values,
        ),
    decreases ts.len() - p,
{
    let all = ts + r;
    if p == ts.len() {
        assert(all[p] == r[0]);
    } else {
        assert(all[p] == ts[p]);
        if is_singleton(ts[p]) {
        } else if is_ukey(ts[p]) {
            lemma_uext_from_append(
                ts,
                r,
                p + 1,
                attributes,
                flush_opt(fields, key, values),
                Some(ts[p]),
                seq![],
            );
        } else if is_alnum_subtag(ts[p], 3, 8) {
            if key is Some {
                lemma_uext_from_append(ts, r, p + 1, attributes, fields, key, values.push(ts[p]));
            } else {
                lemma_uext_from_append(ts, r, p + 1, attributes.push(ts[p]), fields, key, values);
            }
        }
    }
}

/// Whether `t` is a key of a unicode locale extension.
fn ukey(t: &str) -> (r: bool)
    ensures
        r == is_ukey(t@),
{
    let cs = chars_of(t);
    cs.len() == 2 && is_alnum_char(cs[0]) && is_alpha_char(cs[1])
}

/// Reads a unicode locale extension (the subtags after its singleton), stopping before the next
/// singleton.
pub fn parse_unicode_locale_extensions(iter: &mut SubtagIter) -> (r: Result<
    UnicodeLocaleExtensions,
    ParserError,
>)
    requires
        old(iter).wf(),
    ensures
        final(iter).wf(),
        final(iter).tokens() == old(iter).tokens(),
        old(iter).position() <= final(iter).position(),
        r matches Ok(x) ==> keys_unique(x.ufield@),
        parse_uext_from(old(iter).tokens(), old(iter).position()) == uext_step_view(
            r,
            final(iter).position(),
        ),
{
    let ghost ts = iter.tokens();
    let ghost p0 = iter.position();
    let mut attribute: Vec<String> = Vec::new();
    let mut ufield: Vec<(String, Vec<String>)> = Vec::new();
    let mut ukey_seen: Option<String> = None;
    let mut uvalue: Vec<String> = Vec::new();
    proof {
        iter.lemma_wf();
        assert(strings_view(attribute@) =~= seq![]);
        assert(strings_view(uvalue@) =~= seq![]);
        assert(fields_view(ufield@) =~= seq![]);
    }
    loop
        invariant
            iter.wf(),
            iter.tokens() == ts,
            ts == old(iter).tokens(),
            p0 == old(iter).position(),
            p0 <= iter.position() <= ts.len(),
            keys_unique(fields_view(ufield@)),
            uext_from(
                ts,
                iter.position(),
                strings_view(attribute@),
                fields_view(ufield@),
                opt_view(ukey_seen),
                strings_view(uvalue@),
            ) == parse_uext_from(ts, p0),
        ensures
            iter.wf(),
            iter.tokens() == ts,
            p0 <= iter.position(),
            keys_unique(fields_view(ufield@)),
            parse_uext_from(ts, p0) == Ok::<(UnicodeLocaleView, int), ParserError>(
                (
                    UnicodeLocaleView {
                        attributes: strings_view(attribute@),
                        fields: flush_opt(
                            fields_view(ufield@),
                            opt_view(ukey_seen),
                            strings_view(uvalue@),
                        ),
                    },
                    iter.position(),
                ),
            ),
        decreases ts.len() - iter.position(),
    {
        proof {
            iter.lemma_wf();
        }
        let t = match iter.peek() {
            Some(t) => t,
            None => break,
        };
        let ghost a0 = strings_view(attribute@);
        let ghost v0 = strings_view(uvalue@);
        if singleton(t) {
            break;
        } else if ukey(t) {
            if let Some(k) = ukey_seen {
                flush_into(&mut ufield, k, uvalue);
            }
            uvalue = Vec::new();
            ukey_seen = Some(t.to_owned());
            proof {
                assert(strings_view(uvalue@) =~= seq![]);
            }
        } else if alnum_subtag(t, 3, 8) {
            if ukey_seen.is_some() {
                uvalue.push(t.to_owned());
                proof {
                    assert(strings_view(uvalue@) =~= v0.push(t@));
                }
            } else {
                attribute.push(t.to_owned());
                proof {
                    assert(strings_view(attribute@) =~= a0.push(t@));
                }
            }
        } else {
            return Err(ParserError::InvalidSubtag);
        }
        iter.next();
    }
    if let Some(k) = ukey_seen {
        flush_into(&mut ufield, k, uvalue);
    }
    Ok(UnicodeLocaleExtensions { attribute, ufield: Fields { entries: ufield } })
}

/// The canonical text of a unicode locale extension: `u`, its attributes, then each key with its
/// values.
pub open spec fn render_uext(u: UnicodeLocaleView) -> Seq<char> {
    join(seq![seq!['u']] + u.attributes + field_parts(u.fields))
}

impl UnicodeLocaleExtensions {
    /// The canonical text, as `render_uext` gives it.
    pub fn to_string(&self) -> (r: String)
        ensures
            r@ == render_uext(self@),
    {
        let mut r = String::from_str("u");
        proof {
            reveal_strlit("u");
            assert(r@ =~= seq!['u']);
        }
        let ghost head: Seq<Seq<char>> = seq![seq!['u']];
        assert(join(head) == seq!['u']);
        push_strings(&mut r, &self.attribute, Ghost(head));
        push_fields(&mut r, &self.ufield.entries, Ghost(head + strings_view(self.attribute@)));
        proof {
            assert(head + strings_view(self.attribute@) + field_parts(self.ufield@) =~= seq![
                seq!['u'],
            ] + self@.attributes + field_parts(self@.fields));
        }
        r
    }
}

} // verus!
