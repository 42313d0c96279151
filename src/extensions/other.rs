use vstd::prelude::*;

use crate::errors::ParserError;
use crate::shared::{
    alnum_subtag, char_to_string, is_alnum_subtag, is_singleton, join, push_strings, singleton,
    strings_view, SubtagIter,
};

verus! {

/// An extension of a kind without a grammar of its own: its singleton and its values.
#[derive(Debug, PartialEq, Eq)]
pub struct OtherExtensions {
    pub values: Vec<String>,
    pub extension: char,
}

pub struct OtherView {
    pub values: Seq<Seq<char>>,
    pub extension: char,
}

impl View for OtherExtensions {
    type V = OtherView;

    open spec fn view(&self) -> OtherView {
        OtherView { values: strings_view(self.values@), extension: self.extension }
    }
}

/// Reads the values of an other extension from position `p` of `ts`, up to a singleton or the
/// end; each is two to eight alphanumerics.
pub open spec fn other_from(ts: Seq<Seq<char>>, p: int, values: Seq<Seq<char>>) -> Result<
    (Seq<Seq<char>>, int),
    ParserError,
>
    decreases ts.len() - p,
{
    if p < 0 || p >= ts.len() || is_singleton(ts[p]) {
        Ok((values, p))
    } else if is_alnum_subtag(ts[p], 2, 8) {
        other_from(ts, p + 1, values.push(ts[p]))
    } else {
        Err(ParserError::InvalidSubtag)
    }
}

pub open spec fn other_step_view(r: Result<OtherExtensions, ParserError>, q: int) -> Result<
    (Seq<Seq<char>>, int),
    ParserError,
> {
    match r {
        Ok(o) => Ok((o@.values, q)),
        Err(e) => Err(e),
    }
}

/// Subtags appended after the end, starting with a singleton, do not change what is read.
pub proof fn lemma_other_from_append(ts: Seq<Seq<char>>, r: Seq<Seq<char>>, p: int, values: Seq<Seq<char>>)
    requires
        0 <= p <= ts.len(),
        r.len() >= 1,
        is_singleton(r[0]),
    ensures
        other_from(ts + r, p, values) == other_from(ts, p, values),
    decreases ts.len() - p,
{
    let all = ts + r;
    if p == ts.len() {
        assert(all[p] == r[0]);
    } else {
        assert(all[p] == ts[p]);
        if !is_singleton(ts[p]) && is_alnum_subtag(ts[p], 2, 8) {
            lemma_other_from_append(ts, r, p + 1, values.push(ts[p]));
        }
    }
}

/// Reads the values of an extension with singleton `extension`, stopping before the next
/// singleton.
pub fn parse_other_extensions(iter: &mut SubtagIter, extension: char) -> (r: Result<
    OtherExtensions,
    ParserError,
>)
    requires
        old(iter).wf(),
    ensures
        final(iter).wf(),
        final(iter).tokens() == old(iter).tokens(),
        old(iter).position() <= final(iter).position(),
        r matches Ok(o) ==> o.extension == extension,
        other_from(old(iter).tokens(), old(iter).position(), seq![]) == other_step_view(
            r,
            final(iter).position(),
        ),
{
    let ghost ts = iter.tokens();
    let ghost p0 = iter.position();
    let mut values: Vec<String> = Vec::new();
    proof {
        iter.lemma_wf();
        assert(strings_view(values@) =~= seq![]);
    }
    loop
        invariant
            iter.wf(),
            iter.tokens() == ts,
            ts == old(iter).tokens(),
            p0 == old(iter).position(),
            p0 <= iter.position() <= ts.len(),
            other_from(ts, iter.position(), strings_view(values@)) == other_from(ts, p0, seq![]),
        ensures
            iter.wf(),
            iter.tokens() == ts,
            p0 <= iter.position(),
            other_from(ts, p0, seq![]) == Ok::<(Seq<Seq<char>>, int), ParserError>(
                (strings_view(values@), iter.position()),
            ),
        decreases ts.len() - iter.position(),
    {
        proof {
            iter.lemma_wf();
        }
        let ghost v0 = strings_view(values@);
        let t = match iter.peek() {
            Some(t) => t,
            None => break,
        };
        if singleton(t) {
            break;
        }
        match parse_value(t) {
            Ok(v) => values.push(v.to_owned()),
            Err(e) => return Err(e),
        }
        proof {
            assert(strings_view(values@) =~= v0.push(t@));
        }
        iter.next();
    }
    Ok(OtherExtensions { values, extension })
}

/// Checks a value of an other extension: two to eight alphanumerics.
fn parse_value(subtag: &str) -> (r: Result<&str, ParserError>)
    ensures
        r is Ok <==> is_alnum_subtag(subtag@, 2, 8),
        r matches Ok(s) ==> s@ == subtag@,
        r matches Err(e) ==> e == ParserError::InvalidSubtag,
{
    if alnum_subtag(subtag, 2, 8) {
        Ok(subtag)
    } else {
        Err(ParserError::InvalidSubtag)
    }
}

/// The canonical text of an other extension: its singleton, then its values.
pub open spec fn render_other(o: OtherView) -> Seq<char> {
    join(seq![seq![o.extension]] + o.values)
}

impl OtherExtensions {
    /// The canonical text, as `render_other` gives it.
    pub fn to_string(&self) -> (r: String)
        ensures
            r@ == render_other(self@),
    {
        let mut r = char_to_string(self.extension);
        let ghost head: Seq<Seq<char>> = seq![seq![self.extension]];
        push_strings(&mut r, &self.values, Ghost(head));
        r
    }
}

} // verus!
