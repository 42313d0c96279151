use vstd::prelude::*;

use crate::errors::ParserError;
use crate::shared::{
    char_to_string, chars_of, is_singleton, join, lemma_join_push, push_part, push_piece, strings_view, subtags_of, SubtagIter,
};

pub mod other;
pub mod pu;
pub mod transformed;
pub mod unicode_locale;

use other::{lemma_other_from_append, other_from, parse_other_extensions, render_other, OtherExtensions, OtherView};
use pu::{lemma_pu_from_append, parse_pu_extensions, pu_from, render_pu, PuExtensions};
use transformed::{
    lemma_text_from_append, parse_text_from, parse_transformed_extensions, render_text, TransformedExtensions,
    TransformedView,
};
use unicode_locale::{
    lemma_uext_from_append, parse_uext_from, parse_unicode_locale_extensions, render_uext, UnicodeLocaleExtensions,
    UnicodeLocaleView,
};

verus! {

/// The keys of an extension, each with its values, in order of first appearance.
#[derive(Debug, PartialEq, Eq)]
pub struct Fields {
    pub entries: Vec<(String, Vec<String>)>,
}

/// The view of a field list: each key with its values.
pub open spec fn fields_view(v: Seq<(String, Vec<String>)>) -> Seq<(Seq<char>, Seq<Seq<char>>)> {
    v.map_values(|e: (String, Vec<String>)| (e.0@, strings_view(e.1@)))
}

impl View for Fields {
    type V = Seq<(Seq<char>, Seq<Seq<char>>)>;

    open spec fn view(&self) -> Seq<(Seq<char>, Seq<Seq<char>>)> {
        fields_view(self.entries@)
    }
}

/// Some field of `fs` has the key `key`.
pub open spec fn has_key(fs: Seq<(Seq<char>, Seq<Seq<char>>)>, key: Seq<char>) -> bool {
    exists|i: int| 0 <= i < fs.len() && #[trigger] fs[i].0 == key
}

/// No two fields of `fs` have the same key.
pub open spec fn keys_unique(fs: Seq<(Seq<char>, Seq<Seq<char>>)>) -> bool {
    forall|i: int, j: int| 0 <= i < fs.len() && 0 <= j < fs.len() && i != j ==> #[trigger] fs[i].0 != #[trigger] fs[j].0
}

/// Every field of `fs` has at least one value.
pub open spec fn values_non_empty(fs: Seq<(Seq<char>, Seq<Seq<char>>)>) -> bool {
    forall|i: int| 0 <= i < fs.len() ==> (#[trigger] fs[i]).1.len() > 0
}

/// Adds the values read for `key`: after its earlier values if the key is already there, else
/// as a new last field.
pub open spec fn flush_field(
    fs: Seq<(Seq<char>, Seq<Seq<char>>)>,
    key: Seq<char>,
    values: Seq<Seq<char>>,
) -> Seq<(Seq<char>, Seq<Seq<char>>)> {
    if has_key(fs, key) {
        let i = choose|i: int| 0 <= i < fs.len() && #[trigger] fs[i].0 == key;
        fs.update(i, (key, fs[i].1 + values))
    } else {
        fs.push((key, values))
    }
}

/// Adds the values read for the current key, if there is one.
pub open spec fn flush_opt(
    fs: Seq<(Seq<char>, Seq<Seq<char>>)>,
    key: Option<Seq<char>>,
    values: Seq<Seq<char>>,
) -> Seq<(Seq<char>, Seq<Seq<char>>)> {
    match key {
        Some(k) => flush_field(fs, k, values),
        None => fs,
    }
}

proof fn lemma_strings_view_append(a: Seq<String>, b: Seq<String>)
    ensures
        strings_view(a + b) == strings_view(a) + strings_view(b),
{
    assert(strings_view(a + b) =~= strings_view(a) + strings_view(b));
}

/// Adds `values` under `key` to `fields`, as `flush_field` says.
pub fn flush_into(fields: &mut Vec<(String, Vec<String>)>, key: String, values: Vec<String>)
    requires
        keys_unique(fields_view(old(fields)@)),
    ensures
        fields_view(final(fields)@) == flush_field(
            fields_view(old(fields)@),
            key@,
            strings_view(values@),
        ),
        keys_unique(fields_view(final(fields)@)),
        values_non_empty(fields_view(old(fields)@)) && values@.len() > 0 ==> values_non_empty(
            fields_view(final(fields)@),
        ),
{
    let ghost fs = fields_view(fields@);
    let ghost vals = strings_view(values@);
    let mut rest = values;
    let mut i: usize = 0;
    while i < fields.len()
        invariant
            i <= fields.len(),
            fields_view(fields@) == fs,
            fs == fields_view(old(fields)@),
            vals == strings_view(values@),
            rest == values,
            keys_unique(fs),
            forall|j: int| 0 <= j < i ==> fs[j].0 != key@,
        decreases fields.len() - i,
    {
        if fields[i].0 == key {
            let mut entry: (String, Vec<String>) = (String::new(), Vec::new());
            fields.set_and_swap(i, &mut entry);
            let (k, mut vs) = entry;
            let ghost old_vs = vs@;
            let ghost added = rest@;
            vs.append(&mut rest);
            let ghost new_vs = vs@;
            fields.set(i, (k, vs));
            proof {
                assert(fs[i as int].0 == key@);
                assert(has_key(fs, key@));
                let c = choose|c: int| 0 <= c < fs.len() && #[trigger] fs[c].0 == key@;
                assert(c == i);
                lemma_strings_view_append(old_vs, added);
                assert(strings_view(added) == vals);
                assert(new_vs == old_vs + added);
                assert(fields_view(fields@) =~= fs.update(
                    i as int,
                    (key@, fs[i as int].1 + strings_view(added)),
                ));
            }
            return;
        }
        i = i + 1;
    }
    fields.push((key, rest));
    proof {
        assert(!has_key(fs, key@));
        assert(fields_view(fields@) =~= fs.push((key@, vals)));
    }
}

/// The subtags that render a field list: each key, then its values.
pub open spec fn field_parts(fs: Seq<(Seq<char>, Seq<Seq<char>>)>) -> Seq<Seq<char>>
    decreases fs.len(),
{
    if fs.len() == 0 {
        seq![]
    } else {
        field_parts(fs.drop_last()) + seq![fs.last().0] + fs.last().1
    }
}

/// Appends `-` and each key and value of `fields` to `r`.
pub fn push_fields(
    r: &mut String,
    fields: &Vec<(String, Vec<String>)>,
    Ghost(parts): Ghost<Seq<Seq<char>>>,
)
    requires
        old(r)@ == join(parts),
        parts.len() >= 1,
    ensures
        final(r)@ == join(parts + field_parts(fields_view(fields@))),
{
    let ghost fs = fields_view(fields@);
    let mut i: usize = 0;
    while i < fields.len()
        invariant
            i <= fields.len(),
            fs == fields_view(fields@),
            parts.len() >= 1,
            r@ == join(parts + field_parts(fs.take(i as int))),
        decreases fields.len() - i,
    {
        let ghost done = parts + field_parts(fs.take(i as int));
        push_part(r, fields[i].0.as_str());
        proof {
            lemma_join_push(done, fs[i as int].0);
        }
        let values = &fields[i].1;
        let mut j: usize = 0;
        while j < values.len()
            invariant
                j <= values.len(),
                done.len() >= 1,
                values@ == fields@[i as int].1@,
                r@ == join(done.push(fs[i as int].0) + strings_view(values@).take(j as int)),
            decreases values.len() - j,
        {
            let ghost sofar = done.push(fs[i as int].0) + strings_view(values@).take(j as int);
            push_part(r, values[j].as_str());
            proof {
                lemma_join_push(sofar, values@[j as int]@);
                assert(sofar.push(values@[j as int]@) =~= done.push(fs[i as int].0) + strings_view(
                    values@,
                ).take(j + 1));
            }
            j = j + 1;
        }
        proof {
            assert(strings_view(values@).take(j as int) =~= fs[i as int].1);
            assert(fs.take(i + 1).drop_last() =~= fs.take(i as int));
            assert(parts + field_parts(fs.take(i + 1)) =~= done.push(fs[i as int].0) + fs[i as int].1);
        }
        i = i + 1;
    }
    proof {
        assert(fs.take(i as int) =~= fs);
    }
}

impl Fields {
    /// The values of `key`, from its first field.
    pub fn get(&self, key: &str) -> (r: Option<&Vec<String>>)
        ensures
            r is None <==> !has_key(self@, key@),
            r matches Some(v) ==> exists|i: int|
                0 <= i < self@.len() && self@[i].0 == key@ && strings_view(v@) == self@[i].1 && (
                forall|j: int| 0 <= j < i ==> #[trigger] self@[j].0 != key@),
    {
        let k = key.to_owned();
        let mut i: usize = 0;
        while i < self.entries.len()
            invariant
                i <= self.entries.len(),
                k@ == key@,
                forall|j: int| 0 <= j < i ==> #[trigger] self@[j].0 != key@,
            decreases self.entries.len() - i,
        {
            if self.entries[i].0 == k {
                proof {
                    assert(self@[i as int].0 == key@);
                }
                return Some(&self.entries[i].1);
            }
            i = i + 1;
        }
        None
    }
}

/// The kind of an extension, told by its singleton.
#[derive(Debug, Clone, Copy, PartialEq, Eq, Structural)]
pub enum ExtensionKind {
    UnicodeLocale,
    Transformed,
    Pu,
    Other(char),
}

/// An ASCII letter or digit, as a byte.
pub open spec fn is_alnum_byte(b: u8) -> bool {
    (0x30 <= b <= 0x39) || (0x41 <= b <= 0x5a) || (0x61 <= b <= 0x7a)
}

/// The lower case of an ASCII letter; other bytes stay.
pub open spec fn lower_byte(b: u8) -> u8 {
    if 0x41 <= b <= 0x5a {
        (b + 0x20) as u8
    } else {
        b
    }
}

/// The extension kind that a singleton's byte names, in either case.
pub open spec fn spec_kind_from_byte(key: u8) -> Result<ExtensionKind, ParserError> {
    let k = lower_byte(key);
    if k == 0x75 {
        Ok(ExtensionKind::UnicodeLocale)
    } else if k == 0x74 {
        Ok(ExtensionKind::Transformed)
    } else if k == 0x78 {
        Ok(ExtensionKind::Pu)
    } else if is_alnum_byte(k) {
        Ok(ExtensionKind::Other(k as char))
    } else {
        Err(ParserError::InvalidExtension)
    }
}

impl ExtensionKind {
    /// The kind that the byte `key` names; letters are read in either case.
    pub fn from_byte(key: u8) -> (r: Result<ExtensionKind, ParserError>)
        ensures
            r == spec_kind_from_byte(key),
    {
        let k = if 0x41 <= key && key <= 0x5a {
            key + 0x20
        } else {
            key
        };
        if k == 0x75 {
            Ok(ExtensionKind::UnicodeLocale)
        } else if k == 0x74 {
            Ok(ExtensionKind::Transformed)
        } else if k == 0x78 {
            Ok(ExtensionKind::Pu)
        } else if (0x30 <= k && k <= 0x39) || (0x61 <= k && k <= 0x7a) {
            Ok(ExtensionKind::Other(k as char))
        } else {
            Err(ParserError::InvalidExtension)
        }
    }
}

/// The singleton that names a kind.
pub open spec fn kind_char(k: ExtensionKind) -> char {
    match k {
        ExtensionKind::UnicodeLocale => 'u',
        ExtensionKind::Transformed => 't',
        ExtensionKind::Pu => 'x',
        ExtensionKind::Other(c) => c,
    }
}

impl ExtensionKind {
    /// The singleton that names this kind, as text.
    pub fn to_string(&self) -> (r: String)
        ensures
            r@ == seq![kind_char(*self)],
    {
        char_to_string(self.to_char())
    }

    /// The singleton that names this kind.
    pub fn to_char(&self) -> (r: char)
        ensures
            r == kind_char(*self),
    {
        match self {
            ExtensionKind::UnicodeLocale => 'u',
            ExtensionKind::Transformed => 't',
            ExtensionKind::Pu => 'x',
            ExtensionKind::Other(c) => *c,
        }
    }
}

/// The kind of extension that the subtag `t` (not empty) opens: from its first byte.
pub open spec fn first_kind(t: Seq<char>) -> Result<ExtensionKind, ParserError> {
    if t[0] <= '\u{7f}' {
        spec_kind_from_byte(t[0] as u8)
    } else {
        Err(ParserError::InvalidExtension)
    }
}

/// All the extensions of an identifier, by kind, each kind in order of appearance.
#[derive(Debug, PartialEq, Eq)]
pub struct Extensions {
    pub unicode_locale: Option<Vec<UnicodeLocaleExtensions>>,
    pub transformed: Option<Vec<TransformedExtensions>>,
    pub other: Option<Vec<OtherExtensions>>,
    pub pu: Option<PuExtensions>,
}

/// The mathematical content of [`Extensions`].
pub struct ExtensionsView {
    pub unicode_locale: Option<Seq<UnicodeLocaleView>>,
    pub transformed: Option<Seq<TransformedView>>,
    pub other: Option<Seq<OtherView>>,
    pub pu: Option<Seq<Seq<char>>>,
}

pub open spec fn uexts_view(v: Seq<UnicodeLocaleExtensions>) -> Seq<UnicodeLocaleView> {
    v.map_values(|u: UnicodeLocaleExtensions| u@)
}

pub open spec fn texts_view(v: Seq<TransformedExtensions>) -> Seq<TransformedView> {
    v.map_values(|t: TransformedExtensions| t@)
}

pub open spec fn others_view(v: Seq<OtherExtensions>) -> Seq<OtherView> {
    v.map_values(|o: OtherExtensions| o@)
}

impl View for Extensions {
    type V = ExtensionsView;

    open spec fn view(&self) -> ExtensionsView {
        ExtensionsView {
            unicode_locale: match self.unicode_locale {
                Some(v) => Some(uexts_view(v@)),
                None => None,
            },
            transformed: match self.transformed {
                Some(v) => Some(texts_view(v@)),
                None => None,
            },
            other: match self.other {
                Some(v) => Some(others_view(v@)),
                None => None,
            },
            pu: match self.pu {
                Some(p) => Some(p@),
                None => None,
            },
        }
    }
}

/// `None` for an empty list.
pub open spec fn non_empty<T>(s: Seq<T>) -> Option<Seq<T>> {
    if s.len() == 0 {
        None
    } else {
        Some(s)
    }
}

/// Reads extensions from position `p` of `ts` to the end, having read `us`, `tx`, `os` and `pu`.
/// Each extension starts with a subtag whose first byte names its kind; empty subtags are
/// skipped; a second private-use extension is an error.
pub open spec fn ext_from(
    ts: Seq<Seq<char>>,
    p: int,
    us: Seq<UnicodeLocaleView>,
    tx: Seq<TransformedView>,
    os: Seq<OtherView>,
    pu: Option<Seq<Seq<char>>>,
) -> Result<ExtensionsView, ParserError>
    decreases ts.len() - p,
{
    if p < 0 || p >= ts.len() {
        Ok(
            ExtensionsView {
                unicode_locale: non_empty(us),
                transformed: non_empty(tx),
                other: non_empty(os),
                pu,
            },
        )
    } else if ts[p].len() == 0 {
        ext_from(ts, p + 1, us, tx, os, pu)
    } else {
        match first_kind(ts[p]) {
            Err(e) => Err(e),
            Ok(ExtensionKind::UnicodeLocale) => match parse_uext_from(ts, p + 1) {
                Err(e) => Err(e),
                Ok((u, q)) => if p < q <= ts.len() {
                    ext_from(ts, q, us.push(u), tx, os, pu)
                } else {
                    Err(ParserError::Unexpected)
                },
            },
            Ok(ExtensionKind::Transformed) => match parse_text_from(ts, p + 1) {
                Err(e) => Err(e),
                Ok((t, q)) => if p < q <= ts.len() {
                    ext_from(ts, q, us, tx.push(t), os, pu)
                } else {
                    Err(ParserError::Unexpected)
                },
            },
            Ok(ExtensionKind::Pu) => if pu is Some {
                Err(ParserError::Unexpected)
            } else {
                match pu_from(ts, p + 1, seq![]) {
                    Err(e) => Err(e),
                    Ok((x, q)) => if p < q <= ts.len() {
                        ext_from(ts, q, us, tx, os, Some(x))
                    } else {
                        Err(ParserError::Unexpected)
                    },
                }
            },
            Ok(ExtensionKind::Other(c)) => match other_from(ts, p + 1, seq![]) {
                Err(e) => Err(e),
                Ok((vs, q)) => if p < q <= ts.len() {
                    ext_from(ts, q, us, tx, os.push(OtherView { values: vs, extension: c }), pu)
                } else {
                    Err(ParserError::Unexpected)
                },
            },
        }
    }
}

/// Reads extensions from position `p` of `ts` to the end.
pub open spec fn parse_ext_from(ts: Seq<Seq<char>>, p: int) -> Result<ExtensionsView, ParserError> {
    ext_from(ts, p, seq![], seq![], seq![], None)
}

/// The extensions that `text` spells.
pub open spec fn parse_ext(text: Seq<char>) -> Result<ExtensionsView, ParserError> {
    if text.len() == 0 {
        Err(ParserError::Missing)
    } else {
        parse_ext_from(subtags_of(text), 0)
    }
}

/// The view of a parse result.
pub open spec fn ext_result_view(r: Result<Extensions, ParserError>) -> Result<
    ExtensionsView,
    ParserError,
> {
    match r {
        Ok(x) => Ok(x@),
        Err(e) => Err(e),
    }
}

/// The kind of extension that the subtag `t` (not empty) opens.
fn kind_of(t: &str) -> (r: Option<Result<ExtensionKind, ParserError>>)
    ensures
        r is None <==> t@.len() == 0,
        r matches Some(k) ==> k == first_kind(t@),
{
    let cs = chars_of(t);
    if cs.len() == 0 {
        None
    } else if cs[0] <= '\u{7f}' {
        Some(ExtensionKind::from_byte(cs[0] as u8))
    } else {
        Some(Err(ParserError::InvalidExtension))
    }
}

/// Once extensions that include a private-use one have been read to the end, appending
/// subtags that start with another private-use singleton makes reading them an error.
pub proof fn lemma_ext_from_second_private_use(
    ts: Seq<Seq<char>>,
    r: Seq<Seq<char>>,
    p: int,
    us: Seq<UnicodeLocaleView>,
    tx: Seq<TransformedView>,
    os: Seq<OtherView>,
    pu: Option<Seq<Seq<char>>>,
)
    requires
        0 <= p <= ts.len(),
        r.len() >= 1,
        is_singleton(r[0]),
        first_kind(r[0]) == Ok::<ExtensionKind, ParserError>(ExtensionKind::Pu),
        ext_from(ts, p, us, tx, os, pu) matches Ok(v) && v.pu is Some,
    ensures
        ext_from(ts + r, p, us, tx, os, pu) == Err::<ExtensionsView, ParserError>(
            ParserError::Unexpected,
        ),
    decreases ts.len() - p,
{
    let all = ts + r;
    if p == ts.len() {
        assert(all[p] == r[0]);
    } else {
        assert(all[p] == ts[p]);
        if ts[p].len() == 0 {
            lemma_ext_from_second_private_use(ts, r, p + 1, us, tx, os, pu);
        } else {
            match first_kind(ts[p]) {
                Ok(ExtensionKind::UnicodeLocale) => {
                    lemma_uext_from_append(ts, r, p + 1, seq![], seq![], None, seq![]);
                    if let Ok((u, q)) = parse_uext_from(ts, p + 1) {
                        if p < q <= ts.len() {
                            lemma_ext_from_second_private_use(ts, r, q, us.push(u), tx, os, pu);
                        }
                    }
                },
                Ok(ExtensionKind::Transformed) => {
                    lemma_text_from_append(ts, r, p + 1, None, seq![], None, seq![]);
                    if let Ok((t, q)) = parse_text_from(ts, p + 1) {
                        if p < q <= ts.len() {
                            lemma_ext_from_second_private_use(ts, r, q, us, tx.push(t), os, pu);
                        }
                    }
                },
                Ok(ExtensionKind::Pu) => {
                    lemma_pu_from_append(ts, r, p + 1, seq![]);
                    if let Ok((x, q)) = pu_from(ts, p + 1, seq![]) {
                        if p < q <= ts.len() {
                            lemma_ext_from_second_private_use(ts, r, q, us, tx, os, Some(x));
                        }
                    }
                },
                Ok(ExtensionKind::Other(c)) => {
                    lemma_other_from_append(ts, r, p + 1, seq![]);
                    if let Ok((vs, q)) = other_from(ts, p + 1, seq![]) {
                        if p < q <= ts.len() {
                            lemma_ext_from_second_private_use(
                                ts,
                                r,
                                q,
                                us,
                                tx,
                                os.push(OtherView { values: vs, extension: c }),
                                pu,
                            );
                        }
                    }
                },
                Err(_) => {},
            }
        }
    }
}

/// Reads extensions from the cursor up to the end.
pub fn parse_extensions_from_iter(iter: &mut SubtagIter) -> (r: Result<Extensions, ParserError>)
    requires
        old(iter).wf(),
    ensures
        final(iter).wf(),
        final(iter).tokens() == old(iter).tokens(),
        ext_result_view(r) == parse_ext_from(old(iter).tokens(), old(iter).position()),
        r is Ok ==> final(iter).position() == final(iter).tokens().len(),
{
    let ghost ts = iter.tokens();
    let ghost p0 = iter.position();
    let mut unicode_locale: Vec<UnicodeLocaleExtensions> = Vec::new();
    let mut transformed: Vec<TransformedExtensions> = Vec::new();
    let mut other: Vec<OtherExtensions> = Vec::new();
    let mut pu: Option<PuExtensions> = None;
    proof {
        iter.lemma_wf();
        assert(uexts_view(unicode_locale@) =~= seq![]);
        assert(texts_view(transformed@) =~= seq![]);
        assert(others_view(other@) =~= seq![]);
    }
    loop
        invariant
            iter.wf(),
            iter.tokens() == ts,
            ts == old(iter).tokens(),
            p0 == old(iter).position(),
            0 <= iter.position() <= ts.len(),
            ext_from(
                ts,
                iter.position(),
                uexts_view(unicode_locale@),
                texts_view(transformed@),
                others_view(other@),
                match pu {
                    Some(x) => Some(x@),
                    None => None,
                },
            ) == parse_ext_from(ts, p0),
        ensures
            iter.wf(),
            iter.tokens() == ts,
            iter.position() == ts.len(),
            parse_ext_from(ts, p0) == Ok::<ExtensionsView, ParserError>(
                ExtensionsView {
                    unicode_locale: non_empty(uexts_view(unicode_locale@)),
                    transformed: non_empty(texts_view(transformed@)),
                    other: non_empty(others_view(other@)),
                    pu: match pu {
                        Some(x) => Some(x@),
                        None => None,
                    },
                },
            ),
        decreases ts.len() - iter.position(),
    {
        proof {
            iter.lemma_wf();
        }
        let t = match iter.next() {
            Some(t) => t,
            None => break,
        };
        match kind_of(t) {
            None => {},
            Some(Err(e)) => return Err(e),
            Some(Ok(ExtensionKind::UnicodeLocale)) => match parse_unicode_locale_extensions(iter) {
                Ok(u) => {
                    let ghost old_us = unicode_locale@;
                    unicode_locale.push(u);
                    proof {
                        assert(uexts_view(unicode_locale@) =~= uexts_view(old_us).push(u@));
                    }
                },
                Err(e) => return Err(e),
            },
            Some(Ok(ExtensionKind::Transformed)) => match parse_transformed_extensions(iter) {
                Ok(x) => {
                    let ghost old_tx = transformed@;
                    transformed.push(x);
                    proof {
                        assert(texts_view(transformed@) =~= texts_view(old_tx).push(x@));
                    }
                },
                Err(e) => return Err(e),
            },
            Some(Ok(ExtensionKind::Pu)) => {
                if pu.is_some() {
                    return Err(ParserError::Unexpected);
                }
                match parse_pu_extensions(iter) {
                    Ok(x) => pu = Some(x),
                    Err(e) => return Err(e),
                }
            },
            Some(Ok(ExtensionKind::Other(c))) => match parse_other_extensions(iter, c) {
                Ok(o) => {
                    let ghost old_os = other@;
                    other.push(o);
                    proof {
                        assert(others_view(other@) =~= others_view(old_os).push(o@));
                    }
                },
                Err(e) => return Err(e),
            },
        }
        proof {
            iter.lemma_wf();
        }
    }
    let unicode_locale = if unicode_locale.len() == 0 {
        None
    } else {
        Some(unicode_locale)
    };
    let transformed = if transformed.len() == 0 {
        None
    } else {
        Some(transformed)
    };
    let other = if other.len() == 0 {
        None
    } else {
        Some(other)
    };
    Ok(Extensions { unicode_locale, transformed, other, pu })
}

/// The list in `o`, or the empty list.
pub open spec fn list_of<T>(o: Option<Seq<T>>) -> Seq<T> {
    match o {
        Some(s) => s,
        None => seq![],
    }
}

/// The rendered extensions, by kind: unicode locale, transformed, other, then private use.
pub open spec fn ext_messages(x: ExtensionsView) -> Seq<Seq<char>> {
    list_of(x.unicode_locale).map_values(|u: UnicodeLocaleView| render_uext(u)) + list_of(
        x.transformed,
    ).map_values(|t: TransformedView| render_text(t)) + list_of(x.other).map_values(
        |o: OtherView| render_other(o),
    ) + match x.pu {
        Some(p) => seq![render_pu(p)],
        None => seq![],
    }
}

/// The canonical text of a set of extensions; empty when there are none.
pub open spec fn render_ext(x: ExtensionsView) -> Seq<char> {
    join(ext_messages(x))
}

impl Extensions {
    /// The canonical text, as `render_ext` gives it.
    pub fn to_string(&self) -> (r: String)
        ensures
            r@ == render_ext(self@),
    {
        let mut r = String::new();
        let mut started = false;
        let ghost mut pieces: Seq<Seq<char>> = seq![];
        let ghost x = self@;
        if let Some(us) = &self.unicode_locale {
            let mut i: usize = 0;
            while i < us.len()
                invariant
                    i <= us.len(),
                    r@ == join(pieces),
                    started == (pieces.len() > 0),
                    pieces == uexts_view(us@).take(i as int).map_values(
                        |u: UnicodeLocaleView| render_uext(u),
                    ),
                decreases us.len() - i,
            {
                let m = us[i].to_string();
                push_piece(&mut r, started, m.as_str(), Ghost(pieces));
                proof {
                    pieces = pieces.push(m@);
                    assert(pieces =~= uexts_view(us@).take(i + 1).map_values(
                        |u: UnicodeLocaleView| render_uext(u),
                    ));
                }
                started = true;
                i = i + 1;
            }
            proof {
                assert(uexts_view(us@).take(i as int) =~= uexts_view(us@));
            }
        }
        let ghost head = pieces;
        if let Some(ts) = &self.transformed {
            let mut i: usize = 0;
            while i < ts.len()
                invariant
                    i <= ts.len(),
                    r@ == join(pieces),
                    started == (pieces.len() > 0),
                    pieces == head + texts_view(ts@).take(i as int).map_values(
                        |t: TransformedView| render_text(t),
                    ),
                decreases ts.len() - i,
            {
                let m = ts[i].to_string();
                push_piece(&mut r, started, m.as_str(), Ghost(pieces));
                proof {
                    pieces = pieces.push(m@);
                    assert(pieces =~= head + texts_view(ts@).take(i + 1).map_values(
                        |t: TransformedView| render_text(t),
                    ));
                }
                started = true;
                i = i + 1;
            }
            proof {
                assert(texts_view(ts@).take(i as int) =~= texts_view(ts@));
            }
        } else {
            proof {
                assert(pieces =~= head + seq![]);
            }
        }
        let ghost head2 = pieces;
        if let Some(os) = &self.other {
            let mut i: usize = 0;
            while i < os.len()
                invariant
                    i <= os.len(),
                    r@ == join(pieces),
                    started == (pieces.len() > 0),
                    pieces == head2 + others_view(os@).take(i as int).map_values(
                        |o: OtherView| render_other(o),
                    ),
                decreases os.len() - i,
            {
                let m = os[i].to_string();
                push_piece(&mut r, started, m.as_str(), Ghost(pieces));
                proof {
                    pieces = pieces.push(m@);
                    assert(pieces =~= head2 + others_view(os@).take(i + 1).map_values(
                        |o: OtherView| render_other(o),
                    ));
                }
                started = true;
                i = i + 1;
            }
            proof {
                assert(others_view(os@).take(i as int) =~= others_view(os@));
            }
        } else {
            proof {
                assert(pieces =~= head2 + seq![]);
            }
        }
        if let Some(p) = &self.pu {
            let m = p.to_string();
            push_piece(&mut r, started, m.as_str(), Ghost(pieces));
            proof {
                pieces = pieces.push(m@);
            }
        }
        proof {
            assert(pieces =~= ext_messages(x));
        }
        r
    }
}

/// Parses `chunk` as a run of extensions.
pub fn parse_extensions(chunk: &str) -> (r: Result<Extensions, ParserError>)
    ensures
        ext_result_view(r) == parse_ext(chunk@),
{
    if chunk.is_empty() {
        return Err(ParserError::Missing);
    }
    let mut iter = SubtagIter::new(chunk);
    parse_extensions_from_iter(&mut iter)
}

} // verus!
