use vstd::prelude::*;

use crate::errors::ParserError;
use crate::shared::{
    all_alnum, all_alpha, is_alpha, is_singleton, join, lemma_alnum_no_sep, lemma_join_push, lemma_subtags_of_join,
    no_sep, opt_view, push_part, strings_view, subtags_of, SubtagIter,
};
use crate::subtags::{
    is_region_subtag, is_script_subtag, is_variant_subtag, language_subtag,
    spec_is_language_subtag, spec_is_region_subtag, spec_is_script_subtag, spec_is_variant_subtag,
    spec_language_subtag,
};

verus! {

/// A Unicode language identifier: language, then optional script, region and variants.
#[derive(Debug, PartialEq, Eq)]
pub struct UnicodeLanguageIdentifier {
    /// The language; empty for `root` and `und`.
    pub language: String,
    pub script: Option<String>,
    pub region: Option<String>,
    /// The variants, without repeats, in order of first appearance; `None` when there are none.
    pub variants: Option<Vec<String>>,
}

/// The mathematical content of a [`UnicodeLanguageIdentifier`].
pub struct LanguageIdView {
    pub language: Seq<char>,
    pub script: Option<Seq<char>>,
    pub region: Option<Seq<char>>,
    pub variants: Option<Seq<Seq<char>>>,
}

impl View for UnicodeLanguageIdentifier {
    type V = LanguageIdView;

    open spec fn view(&self) -> LanguageIdView {
        LanguageIdView {
            language: self.language@,
            script: opt_view(self.script),
            region: opt_view(self.region),
            variants: match self.variants {
                Some(vs) => Some(strings_view(vs@)),
                None => None,
            },
        }
    }
}

/// `vs` with `t` appended, unless `t` is already in it.
pub open spec fn add_variant(vs: Seq<Seq<char>>, t: Seq<char>) -> Seq<Seq<char>> {
    if vs.contains(t) {
        vs
    } else {
        vs.push(t)
    }
}

/// Reads script, region and variants from position `p` of `ts`. In state 1 a script, a region
/// or a variant may come; in state 2 (after a script) a region or a variant; in state 3 only
/// variants. Stops before the first subtag that does not fit, and returns what it read and
/// where it stopped.
pub open spec fn lang_tail(
    ts: Seq<Seq<char>>,
    p: int,
    state: int,
    script: Option<Seq<char>>,
    region: Option<Seq<char>>,
    variants: Seq<Seq<char>>,
) -> (Option<Seq<char>>, Option<Seq<char>>, Seq<Seq<char>>, int)
    decreases ts.len() - p,
{
    if p < 0 || p >= ts.len() {
        (script, region, variants, p)
    } else if state == 1 && spec_is_script_subtag(ts[p]) {
        lang_tail(ts, p + 1, 2, Some(ts[p]), region, variants)
    } else if state < 3 && spec_is_region_subtag(ts[p]) {
        lang_tail(ts, p + 1, 3, script, Some(ts[p]), variants)
    } else if spec_is_variant_subtag(ts[p]) {
        lang_tail(ts, p + 1, 3, script, region, add_variant(variants, ts[p]))
    } else {
        (script, region, variants, p)
    }
}

/// Reads a language identifier from position `p` of `ts`: the identifier and the position after
/// it.
pub open spec fn parse_language_from(ts: Seq<Seq<char>>, p: int) -> Result<
    (LanguageIdView, int),
    ParserError,
> {
    if p < 0 || p >= ts.len() {
        Err(ParserError::Missing)
    } else {
        match spec_language_subtag(ts[p]) {
            Err(e) => Err(e),
            Ok(language) => {
                let (script, region, variants, q) = lang_tail(ts, p + 1, 1, None, None, seq![]);
                Ok(
                    (
                        LanguageIdView {
                            language,
                            script,
                            region,
                            variants: if variants.len() == 0 {
                                None
                            } else {
                                Some(variants)
                            },
                        },
                        q,
                    ),
                )
            },
        }
    }
}

/// The language identifier that `text` spells. With `strict`, subtags left after it are an
/// error; without, they are ignored.
pub open spec fn parse_language_with(text: Seq<char>, strict: bool) -> Result<
    LanguageIdView,
    ParserError,
> {
    if text.len() == 0 {
        Err(ParserError::Missing)
    } else {
        match parse_language_from(subtags_of(text), 0) {
            Err(e) => Err(e),
            Ok((v, q)) => if strict && q < subtags_of(text).len() {
                Err(ParserError::InvalidSubtag)
            } else {
                Ok(v)
            },
        }
    }
}

pub open spec fn parse_language(text: Seq<char>) -> Result<LanguageIdView, ParserError> {
    parse_language_with(text, false)
}

/// The view of a parse result.
pub open spec fn lang_result_view(r: Result<UnicodeLanguageIdentifier, ParserError>) -> Result<
    LanguageIdView,
    ParserError,
> {
    match r {
        Ok(id) => Ok(id@),
        Err(e) => Err(e),
    }
}

/// The view of a parse result, with the position after it.
pub open spec fn lang_step_view(r: Result<UnicodeLanguageIdentifier, ParserError>, q: int) -> Result<
    (LanguageIdView, int),
    ParserError,
> {
    match r {
        Ok(id) => Ok((id@, q)),
        Err(e) => Err(e),
    }
}

/// The subtags that render a language identifier: the language (`und` when empty), then
/// script, region and variants.
pub open spec fn language_parts(v: LanguageIdView) -> Seq<Seq<char>> {
    seq![if v.language.len() == 0 { "und"@ } else { v.language }] + match v.script {
        Some(s) => seq![s],
        None => seq![],
    } + match v.region {
        Some(r) => seq![r],
        None => seq![],
    } + match v.variants {
        Some(vs) => vs,
        None => seq![],
    }
}

/// The canonical text of a language identifier.
pub open spec fn render_language(v: LanguageIdView) -> Seq<char> {
    join(language_parts(v))
}

/// Variants that are well formed and distinct.
pub open spec fn variants_ok(vs: Seq<Seq<char>>) -> bool {
    &&& vs.no_duplicates()
    &&& forall|i: int| 0 <= i < vs.len() ==> spec_is_variant_subtag(#[trigger] vs[i])
}

/// What holds of every language identifier that parsing yields.
pub open spec fn wf_language_view(v: LanguageIdView) -> bool {
    &&& (v.language.len() == 0 || (spec_is_language_subtag(v.language) && v.language != "und"@))
    &&& (v.script matches Some(s) ==> spec_is_script_subtag(s))
    &&& (v.region matches Some(r) ==> spec_is_region_subtag(r))
    &&& (v.variants matches Some(vs) ==> vs.len() > 0 && variants_ok(vs))
}

proof fn lemma_add_variant_ok(vs: Seq<Seq<char>>, t: Seq<char>)
    requires
        variants_ok(vs),
        spec_is_variant_subtag(t),
    ensures
        variants_ok(add_variant(vs, t)),
{
    if !vs.contains(t) {
        let w = vs.push(t);
        assert forall|i: int, j: int| 0 <= i < w.len() && 0 <= j < w.len() && i != j implies w[i]
            != w[j] by {
            if i == vs.len() {
                assert(w[j] == vs[j]);
            } else if j == vs.len() {
                assert(w[i] == vs[i]);
            }
        }
        assert forall|i: int| 0 <= i < w.len() implies spec_is_variant_subtag(#[trigger] w[i]) by {
            if i < vs.len() {
                assert(w[i] == vs[i]);
            }
        }
    }
}

/// A variant subtag is never a script or a region subtag.
proof fn lemma_variant_not_script_region(t: Seq<char>)
    requires
        spec_is_variant_subtag(t),
    ensures
        !spec_is_script_subtag(t),
        !spec_is_region_subtag(t),
{
    if t.len() == 4 {
        assert(!is_alpha(t[0]));
    }
}

proof fn lemma_lang_tail_wf(
    ts: Seq<Seq<char>>,
    p: int,
    state: int,
    script: Option<Seq<char>>,
    region: Option<Seq<char>>,
    variants: Seq<Seq<char>>,
)
    requires
        0 <= p <= ts.len(),
        script matches Some(s) ==> spec_is_script_subtag(s),
        region matches Some(r) ==> spec_is_region_subtag(r),
        variants_ok(variants),
    ensures
        ({
            let (s2, r2, v2, q) = lang_tail(ts, p, state, script, region, variants);
            &&& s2 matches Some(s) ==> spec_is_script_subtag(s)
            &&& r2 matches Some(r) ==> spec_is_region_subtag(r)
            &&& variants_ok(v2)
            &&& p <= q <= ts.len()
        }),
    decreases ts.len() - p,
{
    if p < ts.len() {
        if state == 1 && spec_is_script_subtag(ts[p]) {
            lemma_lang_tail_wf(ts, p + 1, 2, Some(ts[p]), region, variants);
        } else if state < 3 && spec_is_region_subtag(ts[p]) {
            lemma_lang_tail_wf(ts, p + 1, 3, script, Some(ts[p]), variants);
        } else if spec_is_variant_subtag(ts[p]) {
            lemma_add_variant_ok(variants, ts[p]);
            lemma_lang_tail_wf(ts, p + 1, 3, script, region, add_variant(variants, ts[p]));
        }
    }
}

/// Every identifier that parsing yields is well formed, and parsing reads at least one subtag.
pub proof fn lemma_parse_language_from_wf(ts: Seq<Seq<char>>, p: int)
    requires
        parse_language_from(ts, p) is Ok,
    ensures
        ({
            let (v, q) = parse_language_from(ts, p)->Ok_0;
            wf_language_view(v) && p < q <= ts.len()
        }),
{
    reveal_strlit("root");
    reveal_strlit("und");
    assert(variants_ok(seq![]));
    lemma_lang_tail_wf(ts, p + 1, 1, None, None, seq![]);
}

/// Reading subtags that are all distinct variants appends them all.
proof fn lemma_lang_tail_variants(
    ts: Seq<Seq<char>>,
    p: int,
    state: int,
    script: Option<Seq<char>>,
    region: Option<Seq<char>>,
    acc: Seq<Seq<char>>,
)
    requires
        0 <= p <= ts.len(),
        forall|k: int| p <= k < ts.len() ==> spec_is_variant_subtag(#[trigger] ts[k]),
        (acc + ts.subrange(p, ts.len() as int)).no_duplicates(),
    ensures
        lang_tail(ts, p, state, script, region, acc) == (
            script,
            region,
            acc + ts.subrange(p, ts.len() as int),
            ts.len() as int,
        ),
    decreases ts.len() - p,
{
    if p == ts.len() {
        assert(acc + ts.subrange(p, ts.len() as int) =~= acc);
    } else {
        let t = ts[p];
        let all = acc + ts.subrange(p, ts.len() as int);
        lemma_variant_not_script_region(t);
        assert(!acc.contains(t)) by {
            if acc.contains(t) {
                let k = choose|k: int| 0 <= k < acc.len() && acc[k] == t;
                assert(all[k] == all[acc.len() as int]);
            }
        }
        assert(acc.push(t) + ts.subrange(p + 1, ts.len() as int) =~= all);
        lemma_lang_tail_variants(ts, p + 1, 3, script, region, acc.push(t));
    }
}

/// Parsing the parts of a well-formed identifier gives it back.
proof fn lemma_parse_language_parts(v: LanguageIdView)
    requires
        wf_language_view(v),
    ensures
        parse_language_from(language_parts(v), 0) == Ok::<(LanguageIdView, int), ParserError>(
            (v, language_parts(v).len() as int),
        ),
{
    reveal_strlit("root");
    reveal_strlit("und");
    let ts = language_parts(v);
    let vs = match v.variants {
        Some(vs) => vs,
        None => seq![],
    };
    let first = if v.language.len() == 0 {
        "und"@
    } else {
        v.language
    };
    let sp: Seq<Seq<char>> = match v.script {
        Some(s) => seq![s],
        None => seq![],
    };
    let rp: Seq<Seq<char>> = match v.region {
        Some(r) => seq![r],
        None => seq![],
    };
    let k = 1 + sp.len() + rp.len();
    assert(ts =~= seq![first] + sp + rp + vs);
    assert(ts.subrange(k as int, ts.len() as int) =~= vs);
    assert(seq![] + vs =~= vs);
    assert(vs.no_duplicates());
    assert forall|j: int| k <= j < ts.len() implies spec_is_variant_subtag(#[trigger] ts[j]) by {
        assert(ts[j] == vs[j - k]);
    }
    if v.language.len() == 0 {
        assert(first =~= seq!['u', 'n', 'd']);
        assert(all_alpha(first));
        assert(v.language =~= Seq::empty());
    } else {
        assert(v.language != "root"@);
    }
    assert(spec_language_subtag(ts[0]) == Ok::<Seq<char>, ParserError>(v.language));
    match v.script {
        Some(s) => {
            assert(ts[1] == s);
            match v.region {
                Some(r) => {
                    assert(ts[2] == r);
                    lemma_lang_tail_variants(ts, 3, 3, Some(s), Some(r), seq![]);
                    assert(lang_tail(ts, 2, 2, Some(s), None, seq![]) == lang_tail(
                        ts,
                        3,
                        3,
                        Some(s),
                        Some(r),
                        seq![],
                    ));
                },
                None => {
                    lemma_lang_tail_variants(ts, 2, 2, Some(s), None, seq![]);
                },
            }
            assert(lang_tail(ts, 1, 1, None, None, seq![]) == lang_tail(
                ts,
                2,
                2,
                Some(s),
                None,
                seq![],
            ));
        },
        None => {
            match v.region {
                Some(r) => {
                    assert(ts[1] == r);
                    lemma_lang_tail_variants(ts, 2, 3, None, Some(r), seq![]);
                },
                None => {
                    lemma_lang_tail_variants(ts, 1, 1, None, None, seq![]);
                },
            }
        },
    }
}

/// The parts of a well-formed identifier are non-empty and alphanumeric.
proof fn lemma_language_parts_alnum(v: LanguageIdView)
    requires
        wf_language_view(v),
    ensures
        forall|i: int|
            0 <= i < language_parts(v).len() ==> all_alnum(#[trigger] language_parts(v)[i])
                && language_parts(v)[i].len() >= 1,
{
    reveal_strlit("und");
    let ts = language_parts(v);
    let vs = match v.variants {
        Some(vs) => vs,
        None => seq![],
    };
    let first = if v.language.len() == 0 {
        "und"@
    } else {
        v.language
    };
    let sp: Seq<Seq<char>> = match v.script {
        Some(s) => seq![s],
        None => seq![],
    };
    let rp: Seq<Seq<char>> = match v.region {
        Some(r) => seq![r],
        None => seq![],
    };
    assert(ts =~= seq![first] + sp + rp + vs);
    assert forall|i: int| 0 <= i < ts.len() implies all_alnum(#[trigger] ts[i]) && ts[i].len()
        >= 1 by {
        if i == 0 {
            if v.language.len() == 0 {
                assert(first =~= seq!['u', 'n', 'd']);
            }
        } else if i < 1 + sp.len() {
            assert(ts[i] == sp[i - 1]);
        } else if i < 1 + sp.len() + rp.len() {
            assert(ts[i] == rp[i - 1 - sp.len()]);
        } else {
            assert(ts[i] == vs[i - 1 - sp.len() - rp.len()]);
        }
    }
}

/// Rendering a parsed language identifier and parsing the text again gives the same result.
pub proof fn lemma_language_round_trip(text: Seq<char>)
    requires
        parse_language(text) is Ok,
    ensures
        parse_language(render_language(parse_language(text)->Ok_0)) == parse_language(text),
{
    let ts = subtags_of(text);
    lemma_parse_language_from_wf(ts, 0);
    let v = parse_language(text)->Ok_0;
    let parts = language_parts(v);
    lemma_language_parts_alnum(v);
    assert forall|i: int| 0 <= i < parts.len() implies no_sep(#[trigger] parts[i]) by {
        lemma_alnum_no_sep(parts[i]);
    }
    lemma_subtags_of_join(parts);
    lemma_parse_language_parts(v);
}

/// The variants of a parsed language identifier never repeat.
pub proof fn lemma_language_variants_distinct(text: Seq<char>)
    requires
        parse_language(text) is Ok,
    ensures
        parse_language(text)->Ok_0.variants matches Some(vs) ==> vs.no_duplicates(),
{
    lemma_parse_language_from_wf(subtags_of(text), 0);
}

/// Subtags appended after the end, starting with a singleton, do not change what is read.
proof fn lemma_lang_tail_append(
    ts: Seq<Seq<char>>,
    r: Seq<Seq<char>>,
    p: int,
    state: int,
    script: Option<Seq<char>>,
    region: Option<Seq<char>>,
    variants: Seq<Seq<char>>,
)
    requires
        0 <= p <= ts.len(),
        r.len() >= 1,
        is_singleton(r[0]),
    ensures
        lang_tail(ts + r, p, state, script, region, variants) == lang_tail(
            ts,
            p,
            state,
            script,
            region,
            variants,
        ),
    decreases ts.len() - p,
{
    let all = ts + r;
    if p == ts.len() {
        assert(all[p] == r[0]);
    } else {
        assert(all[p] == ts[p]);
        if state == 1 && spec_is_script_subtag(ts[p]) {
            lemma_lang_tail_append(ts, r, p + 1, 2, Some(ts[p]), region, variants);
        } else if state < 3 && spec_is_region_subtag(ts[p]) {
            lemma_lang_tail_append(ts, r, p + 1, 3, script, Some(ts[p]), variants);
        } else if spec_is_variant_subtag(ts[p]) {
            lemma_lang_tail_append(ts, r, p + 1, 3, script, region, add_variant(variants, ts[p]));
        }
    }
}

/// Reading a language identifier that starts before the end does not look past a singleton
/// appended after the end.
pub proof fn lemma_parse_language_from_append(ts: Seq<Seq<char>>, r: Seq<Seq<char>>, p: int)
    requires
        0 <= p < ts.len(),
        r.len() >= 1,
        is_singleton(r[0]),
    ensures
        parse_language_from(ts + r, p) == parse_language_from(ts, p),
{
    assert((ts + r)[p] == ts[p]);
    lemma_lang_tail_append(ts, r, p + 1, 1, None, None, seq![]);
}

/// Appends `t` to `vs` unless an equal string is already there.
fn push_variant(vs: &mut Vec<String>, t: &str)
    ensures
        strings_view(final(vs)@) == add_variant(strings_view(old(vs)@), t@),
{
    let s = t.to_owned();
    let mut i: usize = 0;
    while i < vs.len()
        invariant
            i <= vs.len(),
            s@ == t@,
            forall|j: int| 0 <= j < i ==> vs@[j]@ != t@,
        decreases vs.len() - i,
    {
        if vs[i] == s {
            proof {
                assert(strings_view(vs@)[i as int] == t@);
            }
            return;
        }
        i = i + 1;
    }
    let ghost old_vs = vs@;
    vs.push(s);
    proof {
        assert(!strings_view(old_vs).contains(t@)) by {
            if strings_view(old_vs).contains(t@) {
                let k = choose|k: int| 0 <= k < old_vs.len() && strings_view(old_vs)[k] == t@;
                assert(old_vs[k]@ == t@);
            }
        }
        assert(strings_view(vs@) =~= strings_view(old_vs).push(t@));
    }
}

/// Reads a language identifier from the cursor, leaving it after the last subtag that belongs
/// to the identifier.
pub fn parse_unicode_language_id_from_iter(iter: &mut SubtagIter) -> (r: Result<
    UnicodeLanguageIdentifier,
    ParserError,
>)
    requires
        old(iter).wf(),
    ensures
        final(iter).wf(),
        final(iter).tokens() == old(iter).tokens(),
        parse_language_from(old(iter).tokens(), old(iter).position()) == lang_step_view(
            r,
            final(iter).position(),
        ),
{
    let ghost ts = iter.tokens();
    let ghost p0 = iter.position();
    proof {
        iter.lemma_wf();
    }
    let language = match iter.next() {
        Some(t) => match language_subtag(t) {
            Ok(l) => l.to_owned(),
            Err(e) => return Err(e),
        },
        None => return Err(ParserError::Missing),
    };
    let mut script: Option<String> = None;
    let mut region: Option<String> = None;
    let mut variants: Vec<String> = Vec::new();
    let mut state: u8 = 1;
    proof {
        assert(strings_view(variants@) =~= Seq::empty());
    }
    loop
        invariant
            iter.wf(),
            iter.tokens() == ts,
            p0 + 1 <= iter.position() <= ts.len(),
            1 <= state <= 3,
            lang_tail(
                ts,
                iter.position(),
                state as int,
                opt_view(script),
                opt_view(region),
                strings_view(variants@),
            ) == lang_tail(ts, p0 + 1, 1, None, None, seq![]),
        ensures
            iter.wf(),
            iter.tokens() == ts,
            lang_tail(ts, p0 + 1, 1, None, None, seq![]) == (
                opt_view(script),
                opt_view(region),
                strings_view(variants@),
                iter.position(),
            ),
        decreases ts.len() - iter.position(),
    {
        proof {
            iter.lemma_wf();
        }
        let t = match iter.peek() {
            Some(t) => t,
            None => break,
        };
        if state == 1 && is_script_subtag(t) {
            script = Some(t.to_owned());
            state = 2;
        } else if state < 3 && is_region_subtag(t) {
            region = Some(t.to_owned());
            state = 3;
        } else if is_variant_subtag(t) {
            push_variant(&mut variants, t);
            state = 3;
        } else {
            break;
        }
        iter.next();
    }
    let variants = if variants.len() == 0 {
        None
    } else {
        Some(variants)
    };
    Ok(UnicodeLanguageIdentifier { language, script, region, variants })
}

/// Parses `chunk` as a language identifier. With `strict`, subtags left after the identifier
/// are an error (`InvalidSubtag`); without, they are ignored.
pub fn parse_unicode_language_id_with(chunk: &str, strict: bool) -> (r: Result<
    UnicodeLanguageIdentifier,
    ParserError,
>)
    ensures
        lang_result_view(r) == parse_language_with(chunk@, strict),
{
    if chunk.is_empty() {
        return Err(ParserError::Missing);
    }
    let mut iter = SubtagIter::new(chunk);
    let id = match parse_unicode_language_id_from_iter(&mut iter) {
        Ok(id) => id,
        Err(e) => return Err(e),
    };
    if strict && iter.peek().is_some() {
        Err(ParserError::InvalidSubtag)
    } else {
        Ok(id)
    }
}

/// Parses `chunk` as a language identifier; subtags after it are ignored.
pub fn parse_unicode_language_id(chunk: &str) -> (r: Result<UnicodeLanguageIdentifier, ParserError>)
    ensures
        lang_result_view(r) == parse_language(chunk@),
{
    parse_unicode_language_id_with(chunk, false)
}

impl UnicodeLanguageIdentifier {
    /// The canonical text: language (`und` when empty), script, region and variants, joined by
    /// `-`.
    pub fn to_string(&self) -> (r: String)
        ensures
            r@ == render_language(self@),
    {
        let mut r = if self.language.as_str().is_empty() {
            String::from_str("und")
        } else {
            self.language.clone()
        };
        let ghost mut parts: Seq<Seq<char>> = seq![r@];
        if let Some(script) = &self.script {
            push_part(&mut r, script.as_str());
            proof {
                lemma_join_push(parts, script@);
                parts = parts.push(script@);
            }
        }
        if let Some(region) = &self.region {
            push_part(&mut r, region.as_str());
            proof {
                lemma_join_push(parts, region@);
                parts = parts.push(region@);
            }
        }
        let ghost head = parts;
        if let Some(variants) = &self.variants {
            let mut i: usize = 0;
            while i < variants.len()
                invariant
                    i <= variants.len(),
                    head.len() >= 1,
                    parts == head + strings_view(variants@).take(i as int),
                    r@ == join(parts),
                decreases variants.len() - i,
            {
                push_part(&mut r, variants[i].as_str());
                proof {
                    lemma_join_push(parts, variants@[i as int]@);
                    parts = parts.push(variants@[i as int]@);
                    assert(parts =~= head + strings_view(variants@).take(i + 1));
                }
                i = i + 1;
            }
            proof {
                assert(strings_view(variants@).take(i as int) =~= strings_view(variants@));
            }
        }
        proof {
            reveal_strlit("und");
            assert(parts =~= language_parts(self@));
        }
        r
    }
}

impl std::str::FromStr for UnicodeLanguageIdentifier {
    type Err = ParserError;

    fn from_str(source: &str) -> Result<Self, Self::Err> {
        parse_unicode_language_id(source)
    }
}

} // verus!
