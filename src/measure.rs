use vstd::prelude::*;

use crate::errors::ParserError;
use crate::shared::{
    alnum_subtag, is_alnum_subtag, join, push_piece, strings_view, subtags_of, SubtagIter,
};

verus! {

/// A Unicode measure unit: a list of subtags of three to eight alphanumerics.
#[derive(Debug, PartialEq, Eq)]
pub struct UnicodeMeasureUnit {
    pub values: Vec<String>,
}

impl View for UnicodeMeasureUnit {
    type V = Seq<Seq<char>>;

    open spec fn view(&self) -> Seq<Seq<char>> {
        strings_view(self.values@)
    }
}

/// Reads the subtags of `ts` from position `p` to the end as a measure unit.
pub open spec fn measure_from(ts: Seq<Seq<char>>, p: int) -> Result<Seq<Seq<char>>, ParserError> {
    if exists|k: int| p <= k < ts.len() && !is_alnum_subtag(#[trigger] ts[k], 3, 8) {
        Err(ParserError::InvalidSubtag)
    } else if p >= ts.len() {
        Err(ParserError::Missing)
    } else {
        Ok(ts.subrange(p, ts.len() as int))
    }
}

/// The measure unit that `text` spells.
pub open spec fn parse_measure(text: Seq<char>) -> Result<Seq<Seq<char>>, ParserError> {
    if text.len() == 0 {
        Err(ParserError::Missing)
    } else {
        measure_from(subtags_of(text), 0)
    }
}

pub open spec fn measure_result_view(r: Result<UnicodeMeasureUnit, ParserError>) -> Result<
    Seq<Seq<char>>,
    ParserError,
> {
    match r {
        Ok(m) => Ok(m@),
        Err(e) => Err(e),
    }
}

/// Parses `measure_unit` as a measure unit.
pub fn parse_unicode_measure_unit(measure_unit: &str) -> (r: Result<UnicodeMeasureUnit, ParserError>)
    ensures
        measure_result_view(r) == parse_measure(measure_unit@),
{
    if measure_unit.is_empty() {
        return Err(ParserError::Missing);
    }
    let mut iter = SubtagIter::new(measure_unit);
    parse_unicode_measure_unit_from_iter(&mut iter)
}

/// Reads the rest of the cursor as a measure unit.
fn parse_unicode_measure_unit_from_iter(iter: &mut SubtagIter) -> (r: Result<
    UnicodeMeasureUnit,
    ParserError,
>)
    requires
        old(iter).wf(),
    ensures
        measure_result_view(r) == measure_from(old(iter).tokens(), old(iter).position()),
{
    let ghost ts = iter.tokens();
    let ghost p0 = iter.position();
    let mut values: Vec<String> = Vec::new();
    proof {
        iter.lemma_wf();
        assert(strings_view(values@) =~= ts.subrange(p0, p0));
    }
    loop
        invariant
            iter.wf(),
            iter.tokens() == ts,
            ts == old(iter).tokens(),
            p0 == old(iter).position(),
            0 <= p0 <= iter.position() <= ts.len(),
            strings_view(values@) == ts.subrange(p0, iter.position()),
            forall|k: int| p0 <= k < iter.position() ==> is_alnum_subtag(#[trigger] ts[k], 3, 8),
        ensures
            iter.position() == ts.len(),
            strings_view(values@) == ts.subrange(p0, ts.len() as int),
            forall|k: int| p0 <= k < ts.len() ==> is_alnum_subtag(#[trigger] ts[k], 3, 8),
        decreases ts.len() - iter.position(),
    {
        proof {
            iter.lemma_wf();
        }
        let ghost pos = iter.position();
        let t = match iter.next() {
            Some(t) => t,
            None => break,
        };
        if !alnum_subtag(t, 3, 8) {
            return Err(ParserError::InvalidSubtag);
        }
        let ghost old_values = values@;
        values.push(t.to_owned());
        proof {
            assert(strings_view(values@) =~= strings_view(old_values).push(t@));
            assert(ts.subrange(p0, pos + 1) =~= ts.subrange(p0, pos).push(ts[pos]));
        }
    }
    if values.len() == 0 {
        return Err(ParserError::Missing);
    }
    Ok(UnicodeMeasureUnit { values })
}

impl UnicodeMeasureUnit {
    /// The canonical text: the subtags joined by `-`.
    pub fn to_string(&self) -> (r: String)
        ensures
            r@ == join(self@),
    {
        let mut r = String::new();
        let ghost mut pieces: Seq<Seq<char>> = seq![];
        let mut i: usize = 0;
        while i < self.values.len()
            invariant
                i <= self.values.len(),
                r@ == join(pieces),
                pieces == self@.take(i as int),
            decreases self.values.len() - i,
        {
            push_piece(&mut r, i > 0, self.values[i].as_str(), Ghost(pieces));
            proof {
                pieces = pieces.push(self.values@[i as int]@);
                assert(pieces =~= self@.take(i + 1));
            }
            i = i + 1;
        }
        proof {
            assert(self@.take(i as int) =~= self@);
        }
        r
    }
}

impl std::str::FromStr for UnicodeMeasureUnit {
    type Err = ParserError;

    fn from_str(source: &str) -> Result<Self, Self::Err> {
        parse_unicode_measure_unit(source)
    }
}

} // verus!
