use vstd::prelude::*;

use crate::errors::ParserError;
use crate::shared::{
    alnum_subtag, char_to_string, is_alnum_subtag, is_singleton, join, push_strings, singleton,
    strings_view, SubtagIter,
};

verus! {

/// A private-use extension (`x`): its values.
#[derive(Debug, PartialEq, Eq)]
pub struct PuExtensions {
    pub values: Vec<String>,
}

impl View for PuExtensions {
    type V = Seq<Seq<char>>;

    open spec fn view(&self) -> Seq<Seq<char>> {
        strings_view(self.values@)
    }
}

/// Reads the values of a private-use extension from position `p` of `ts`, up to a singleton or
/// the end; each is one to eight alphanumerics.
pub open spec fn pu_from(ts: Seq<Seq<char>>, p: int, values: Seq<Seq<char>>) -> Result<
    (Seq<Seq<char>>, int),
    ParserError,
>
    decreases ts.len() - p,
{
    if p < 0 || p >= ts.len() || is_singleton(ts[p]) {
        Ok((values, p))
    } else if is_alnum_subtag(ts[p], 1, 8) {
        pu_from(ts, p + 1, values.push(ts[p]))
    } else {
        Err(ParserError::InvalidSubtag)
    }
}

pub open spec fn pu_step_view(r: Result<PuExtensions, ParserError>, q: int) -> Result<
    (Seq<Seq<char>>, int),
    ParserError,
> {
    match r {
        Ok(o) => Ok((o@, q)),
        Err(e) => Err(e),
    }
}

/// Subtags appended after the end, starting with a singleton, do not change what is read.
pub proof fn lemma_pu_from_append(ts: Seq<Seq<char>>, r: Seq<Seq<char>>, p: int, values: Seq<Seq<char>>)
    requires
        0 <= p <= ts.len(),
        r.len() >= 1,
        is_singleton(r[0]),
    ensures
        pu_from(ts + r, p, values) == pu_from(ts, p, values),
    decreases ts.len() - p,
{
    let all = ts + r;
    if p == ts.len() {
        assert(all[p] == r[0]);
    } else {
        assert(all[p] == ts[p]);
        if !is_singleton(ts[p]) && is_alnum_subtag(ts[p], 1, 8) {
            lemma_pu_from_append(ts, r, p + 1, values.push(ts[p]));
        }
    }
}

/// Reads a private-use extension (the subtags after its singleton), stopping before the next
/// singleton.
pub fn parse_pu_extensions(iter: &mut SubtagIter) -> (r: Result<
    PuExtensions,
    ParserError,
>)
    requires
        old(iter).wf(),
    ensures
        final(iter).wf(),
        final(iter).tokens() == old(iter).tokens(),
        old(iter).position() <= final(iter).position(),
        pu_from(old(iter).tokens(), old(iter).position(), seq![]) == pu_step_view(
            r,
            final(iter).position(),
        ),
{
    let ghost ts = iter.tokens();
    let ghost p0 = iter.position();
    let mut values: Vec<String> = Vec::new();
    proof {
        iter.lemma_wf();
        assert(strings_view(values@) =~= seq![]);
    }
    loop
        invariant
            iter.wf(),
            iter.tokens() == ts,
            ts == old(iter).tokens(),
            p0 == old(iter).position(),
            p0 <= iter.position() <= ts.len(),
            pu_from(ts, iter.position(), strings_view(values@)) == pu_from(ts, p0, seq![]),
        ensures
            iter.wf(),
            iter.tokens() == ts,
            p0 <= iter.position(),
            pu_from(ts, p0, seq![]) == Ok::<(Seq<Seq<char>>, int), ParserError>(
                (strings_view(values@), iter.position()),
            ),
        decreases ts.len() - iter.position(),
    {
        proof {
            iter.lemma_wf();
        }
        let ghost v0 = strings_view(values@);
        let t = match iter.peek() {
            Some(t) => t,
            None => break,
        };
        if singleton(t) {
            break;
        }
        match parse_value(t) {
            Ok(v) => values.push(v.to_owned()),
            Err(e) => return Err(e),
        }
        proof {
            assert(strings_view(values@) =~= v0.push(t@));
        }
        iter.next();
    }
    Ok(PuExtensions { values })
}

/// Whether `subtag` is a private-use value: one to eight alphanumerics.
fn is_pu_value_subtag(subtag: &str) -> (r: bool)
    ensures
        r == is_alnum_subtag(subtag@, 1, 8),
{
    alnum_subtag(subtag, 1, 8)
}

/// Checks a private-use value.
fn parse_value(subtag: &str) -> (r: Result<&str, ParserError>)
    ensures
        r is Ok <==> is_alnum_subtag(subtag@, 1, 8),
        r matches Ok(s) ==> s@ == subtag@,
        r matches Err(e) ==> e == ParserError::InvalidSubtag,
{
    if is_pu_value_subtag(subtag) {
        Ok(subtag)
    } else {
        Err(ParserError::InvalidSubtag)
    }
}

/// The canonical text of a private-use extension: `x`, then its values.
pub open spec fn render_pu(x: Seq<Seq<char>>) -> Seq<char> {
    join(seq![seq!['x']] + x)
}

impl PuExtensions {
    /// The canonical text, as `render_pu` gives it.
    pub fn to_string(&self) -> (r: String)
        ensures
            r@ == render_pu(self@),
    {
        let mut r = String::from_str("x");
        proof {
            reveal_strlit("x");
            assert(r@ =~= seq!['x']);
        }
        let ghost head: Seq<Seq<char>> = seq![seq!['x']];
        assert(join(head) == seq!['x']);
        push_strings(&mut r, &self.values, Ghost(head));
        r
    }
}

} // verus!
