use vstd::prelude::*;
use vstd::std_specs::iter::IteratorSpec;

verus! {

/// A subtag separator: `-`, or the legacy `_`.
pub open spec fn is_sep(c: char) -> bool {
    c == '-' || c == '_'
}

/// `t` holds no separator.
pub open spec fn no_sep(t: Seq<char>) -> bool {
    forall|i: int| 0 <= i < t.len() ==> !is_sep(#[trigger] t[i])
}

/// Splits `s` on every separator, as `str::split` does: `k` separators give `k + 1` pieces,
/// some of which may be empty.
pub open spec fn split_seps(s: Seq<char>) -> Seq<Seq<char>>
    decreases s.len(),
{
    if s.len() == 0 {
        seq![Seq::empty()]
    } else {
        let prev = split_seps(s.drop_last());
        if is_sep(s.last()) {
            prev.push(Seq::empty())
        } else {
            prev.update(prev.len() - 1, prev.last().push(s.last()))
        }
    }
}

/// The subtags of an identifier: empty text has none.
pub open spec fn subtags_of(s: Seq<char>) -> Seq<Seq<char>> {
    if s.len() == 0 {
        Seq::empty()
    } else {
        split_seps(s)
    }
}

/// The views of a sequence of string slices.
pub open spec fn views(ts: Seq<&str>) -> Seq<Seq<char>> {
    ts.map_values(|t: &str| t@)
}

/// The views of a sequence of strings.
pub open spec fn strings_view(v: Seq<String>) -> Seq<Seq<char>> {
    v.map_values(|t: String| t@)
}

/// The view of an optional string.
pub open spec fn opt_view(o: Option<String>) -> Option<Seq<char>> {
    match o {
        Some(t) => Some(t@),
        None => None,
    }
}

/// The subtags `ts` joined by `-`.
pub open spec fn join(ts: Seq<Seq<char>>) -> Seq<char>
    decreases ts.len(),
{
    if ts.len() == 0 {
        Seq::empty()
    } else if ts.len() == 1 {
        ts[0]
    } else {
        join(ts.drop_last()) + seq!['-'] + ts.last()
    }
}

/// Joining one more piece adds a `-` and the piece.
pub proof fn lemma_join_push(ts: Seq<Seq<char>>, t: Seq<char>)
    requires
        ts.len() >= 1,
    ensures
        join(ts.push(t)) == join(ts) + seq!['-'] + t,
{
    assert(ts.push(t).drop_last() =~= ts);
}

/// Appends `-` and each of `vs` to `r`.
pub fn push_strings(r: &mut String, vs: &Vec<String>, Ghost(parts): Ghost<Seq<Seq<char>>>)
    requires
        old(r)@ == join(parts),
        parts.len() >= 1,
    ensures
        final(r)@ == join(parts + strings_view(vs@)),
{
    let mut i: usize = 0;
    while i < vs.len()
        invariant
            i <= vs.len(),
            parts.len() >= 1,
            r@ == join(parts + strings_view(vs@).take(i as int)),
        decreases vs.len() - i,
    {
        push_part(r, vs[i].as_str());
        proof {
            let done = parts + strings_view(vs@).take(i as int);
            lemma_join_push(done, vs@[i as int]@);
            assert(done.push(vs@[i as int]@) =~= parts + strings_view(vs@).take(i + 1));
        }
        i = i + 1;
    }
    proof {
        assert(strings_view(vs@).take(i as int) =~= strings_view(vs@));
    }
}

/// Appends `s` to `r`, after a `-` when `r` already holds pieces.
pub fn push_piece(r: &mut String, started: bool, s: &str, Ghost(pieces): Ghost<Seq<Seq<char>>>)
    requires
        old(r)@ == join(pieces),
        started == (pieces.len() > 0),
    ensures
        final(r)@ == join(pieces.push(s@)),
{
    if !started {
        assert(old(r)@ =~= Seq::<char>::empty());
        r.append(s);
        assert(pieces.push(s@) =~= seq![s@]);
    } else {
        push_part(r, s);
        proof {
            lemma_join_push(pieces, s@);
        }
    }
}

/// Relies on `impl From<char> for String`: a string of the one character `c`.
#[verifier::external_body]
pub fn char_to_string(c: char) -> (r: String)
    ensures
        r@ == seq![c],
{
    String::from(c)
}

/// Appends `-` and `part` to `r`.
pub fn push_part(r: &mut String, part: &str)
    ensures
        final(r)@ == old(r)@ + seq!['-'] + part@,
{
    r.append("-");
    r.append(part);
    proof {
        reveal_strlit("-");
    }
}

/// Splitting undoes a final `-` and a piece without separators.
pub proof fn lemma_split_seps_dash(x: Seq<char>, t: Seq<char>)
    requires
        no_sep(t),
    ensures
        split_seps(x + seq!['-'] + t) == split_seps(x).push(t),
    decreases t.len(),
{
    let s = x + seq!['-'] + t;
    if t.len() == 0 {
        assert(s.drop_last() =~= x);
        assert(t =~= Seq::<char>::empty());
    } else {
        let u = t.drop_last();
        assert(s.drop_last() =~= x + seq!['-'] + u);
        assert(no_sep(u)) by {
            assert forall|i: int| 0 <= i < u.len() implies !is_sep(#[trigger] u[i]) by {
                assert(u[i] == t[i]);
            }
        }
        lemma_split_seps_dash(x, u);
        assert(s.last() == t.last());
        assert(!is_sep(t[t.len() - 1]));
        assert(u.push(t.last()) =~= t);
        assert(split_seps(x).push(u).update(split_seps(x).len() as int, t) =~= split_seps(x).push(
            t,
        ));
    }
}

/// A piece without separators splits into itself.
pub proof fn lemma_split_seps_single(t: Seq<char>)
    requires
        no_sep(t),
    ensures
        split_seps(t) == seq![t],
    decreases t.len(),
{
    if t.len() == 0 {
        assert(t =~= Seq::<char>::empty());
    } else {
        let u = t.drop_last();
        assert(no_sep(u)) by {
            assert forall|i: int| 0 <= i < u.len() implies !is_sep(#[trigger] u[i]) by {
                assert(u[i] == t[i]);
            }
        }
        lemma_split_seps_single(u);
        assert(!is_sep(t[t.len() - 1]));
        assert(u.push(t.last()) =~= t);
        assert(seq![u].update(0, t) =~= seq![t]);
    }
}

/// Joining pieces without separators, and splitting the result, gives the pieces back.
pub proof fn lemma_subtags_of_join(ts: Seq<Seq<char>>)
    requires
        ts.len() >= 1,
        ts[0].len() >= 1,
        forall|i: int| 0 <= i < ts.len() ==> no_sep(#[trigger] ts[i]),
    ensures
        subtags_of(join(ts)) == ts,
        join(ts).len() >= 1,
    decreases ts.len(),
{
    if ts.len() == 1 {
        lemma_split_seps_single(ts[0]);
        assert(seq![ts[0]] =~= ts);
    } else {
        let init = ts.drop_last();
        assert(init[0] == ts[0]);
        assert forall|i: int| 0 <= i < init.len() implies no_sep(#[trigger] init[i]) by {
            assert(init[i] == ts[i]);
        }
        lemma_subtags_of_join(init);
        lemma_split_seps_dash(join(init), ts.last());
        assert(init.push(ts.last()) =~= ts);
    }
}

/// Alphanumeric text holds no separator.
pub proof fn lemma_alnum_no_sep(t: Seq<char>)
    requires
        all_alnum(t),
    ensures
        no_sep(t),
{
    assert forall|i: int| 0 <= i < t.len() implies !is_sep(#[trigger] t[i]) by {
        assert(is_alnum(t[i]));
    }
}

/// Splitting two texts joined by `-` gives the pieces of the first, then those of the second.
pub proof fn lemma_split_seps_concat(a: Seq<char>, b: Seq<char>)
    ensures
        split_seps(a + seq!['-'] + b) == split_seps(a) + split_seps(b),
    decreases b.len(),
{
    let s = a + seq!['-'] + b;
    if b.len() == 0 {
        assert(s.drop_last() =~= a);
        assert(split_seps(b) =~= seq![Seq::<char>::empty()]);
        assert(split_seps(a).push(Seq::empty()) =~= split_seps(a) + seq![Seq::<char>::empty()]);
    } else {
        let u = b.drop_last();
        assert(s.drop_last() =~= a + seq!['-'] + u);
        assert(b.drop_last() == u);
        lemma_split_seps_concat(a, u);
        lemma_split_seps_len(u);
        let x = split_seps(a);
        let y = split_seps(u);
        assert(s.last() == b.last());
        if is_sep(b.last()) {
            assert((x + y).push(Seq::empty()) =~= x + y.push(Seq::empty()));
        } else {
            assert((x + y).update((x + y).len() - 1, (x + y).last().push(b.last())) =~= x
                + y.update(y.len() - 1, y.last().push(b.last())));
        }
    }
}

/// Splitting gives at least one piece.
pub proof fn lemma_split_seps_len(s: Seq<char>)
    ensures
        split_seps(s).len() >= 1,
    decreases s.len(),
{
    if s.len() > 0 {
        lemma_split_seps_len(s.drop_last());
    }
}

/// An ASCII letter.
pub open spec fn is_alpha(c: char) -> bool {
    ('a' <= c && c <= 'z') || ('A' <= c && c <= 'Z')
}

/// An ASCII digit.
pub open spec fn is_digit(c: char) -> bool {
    '0' <= c && c <= '9'
}

/// An ASCII letter or digit.
pub open spec fn is_alnum(c: char) -> bool {
    is_alpha(c) || is_digit(c)
}

pub open spec fn all_alpha(t: Seq<char>) -> bool {
    forall|i: int| 0 <= i < t.len() ==> is_alpha(#[trigger] t[i])
}

pub open spec fn all_digit(t: Seq<char>) -> bool {
    forall|i: int| 0 <= i < t.len() ==> is_digit(#[trigger] t[i])
}

pub open spec fn all_alnum(t: Seq<char>) -> bool {
    forall|i: int| 0 <= i < t.len() ==> is_alnum(#[trigger] t[i])
}

/// An alphanumeric subtag of `min` to `max` characters.
pub open spec fn is_alnum_subtag(t: Seq<char>, min: nat, max: nat) -> bool {
    min <= t.len() <= max && all_alnum(t)
}

/// A subtag that opens an extension: one ASCII character (one byte).
pub open spec fn is_singleton(t: Seq<char>) -> bool {
    t.len() == 1 && t[0] <= '\u{7f}'
}

/// Whether `c` is an ASCII letter.
pub fn is_alpha_char(c: char) -> (r: bool)
    ensures
        r == is_alpha(c),
{
    ('a' <= c && c <= 'z') || ('A' <= c && c <= 'Z')
}

/// Whether `c` is an ASCII digit.
pub fn is_digit_char(c: char) -> (r: bool)
    ensures
        r == is_digit(c),
{
    '0' <= c && c <= '9'
}

/// Whether `c` is an ASCII letter or digit.
pub fn is_alnum_char(c: char) -> (r: bool)
    ensures
        r == is_alnum(c),
{
    is_alpha_char(c) || is_digit_char(c)
}

/// Whether every character of `cs` is an ASCII letter.
pub fn all_alpha_chars(cs: &Vec<char>) -> (r: bool)
    ensures
        r == all_alpha(cs@),
{
    let mut i: usize = 0;
    while i < cs.len()
        invariant
            i <= cs.len(),
            forall|j: int| 0 <= j < i ==> is_alpha(#[trigger] cs@[j]),
        decreases cs.len() - i,
    {
        if !is_alpha_char(cs[i]) {
            return false;
        }
        i = i + 1;
    }
    true
}

/// Whether every character of `cs` is an ASCII digit.
pub fn all_digit_chars(cs: &Vec<char>) -> (r: bool)
    ensures
        r == all_digit(cs@),
{
    let mut i: usize = 0;
    while i < cs.len()
        invariant
            i <= cs.len(),
            forall|j: int| 0 <= j < i ==> is_digit(#[trigger] cs@[j]),
        decreases cs.len() - i,
    {
        if !is_digit_char(cs[i]) {
            return false;
        }
        i = i + 1;
    }
    true
}

/// Whether every character of `cs` is an ASCII letter or digit.
pub fn all_alnum_chars(cs: &Vec<char>) -> (r: bool)
    ensures
        r == all_alnum(cs@),
{
    let mut i: usize = 0;
    while i < cs.len()
        invariant
            i <= cs.len(),
            forall|j: int| 0 <= j < i ==> is_alnum(#[trigger] cs@[j]),
        decreases cs.len() - i,
    {
        if !is_alnum_char(cs[i]) {
            return false;
        }
        i = i + 1;
    }
    true
}

/// Whether `t` is alphanumeric with `min` to `max` characters.
pub fn alnum_subtag(t: &str, min: usize, max: usize) -> (r: bool)
    ensures
        r == is_alnum_subtag(t@, min as nat, max as nat),
{
    let cs = chars_of(t);
    min <= cs.len() && cs.len() <= max && all_alnum_chars(&cs)
}

/// Whether `t` is a singleton.
pub fn singleton(t: &str) -> (r: bool)
    ensures
        r == is_singleton(t@),
{
    let cs = chars_of(t);
    cs.len() == 1 && cs[0] <= '\u{7f}'
}

/// Whether the characters `cs` spell `word`.
pub fn spells(cs: &Vec<char>, word: &str) -> (r: bool)
    ensures
        r == (cs@ == word@),
{
    let w = chars_of(word);
    if w.len() != cs.len() {
        return false;
    }
    let mut i: usize = 0;
    while i < cs.len()
        invariant
            i <= cs.len(),
            w.len() == cs.len(),
            w@ == word@,
            forall|j: int| 0 <= j < i ==> cs@[j] == w@[j],
        decreases cs.len() - i,
    {
        if cs[i] != w[i] {
            return false;
        }
        i = i + 1;
    }
    assert(cs@ =~= w@);
    true
}

/// A forward cursor over the subtags of one identifier.
pub struct SubtagIter<'a> {
    subtags: Vec<&'a str>,
    pos: usize,
}

impl<'a> SubtagIter<'a> {
    /// The subtags being read.
    pub closed spec fn tokens(&self) -> Seq<Seq<char>> {
        views(self.subtags@)
    }

    /// The index of the next subtag to read.
    pub closed spec fn position(&self) -> int {
        self.pos as int
    }

    /// The cursor stands within its subtags.
    pub closed spec fn wf(&self) -> bool {
        self.pos <= self.subtags.len()
    }

    /// A well-formed cursor is at most at the end.
    pub proof fn lemma_wf(&self)
        requires
            self.wf(),
        ensures
            0 <= self.position() <= self.tokens().len(),
    {
    }

    /// A cursor at the first subtag of `text`.
    pub fn new(text: &'a str) -> (r: Self)
        ensures
            r.wf(),
            r.tokens() == subtags_of(text@),
            r.position() == 0,
    {
        SubtagIter { subtags: split_str(text), pos: 0 }
    }

    /// The next subtag, if any, without reading it.
    pub fn peek(&self) -> (r: Option<&'a str>)
        requires
            self.wf(),
        ensures
            r is Some <==> self.position() < self.tokens().len(),
            r matches Some(t) ==> t@ == self.tokens()[self.position()],
    {
        if self.pos < self.subtags.len() {
            Some(self.subtags[self.pos])
        } else {
            None
        }
    }

    /// Reads the next subtag, if any.
    pub fn next(&mut self) -> (r: Option<&'a str>)
        requires
            old(self).wf(),
        ensures
            final(self).wf(),
            final(self).tokens() == old(self).tokens(),
            r is Some <==> old(self).position() < old(self).tokens().len(),
            r matches Some(t) ==> t@ == old(self).tokens()[old(self).position()]
                && final(self).position() == old(self).position() + 1,
            r is None ==> final(self).position() == old(self).position(),
    {
        if self.pos < self.subtags.len() {
            let t = self.subtags[self.pos];
            self.pos = self.pos + 1;
            Some(t)
        } else {
            None
        }
    }
}

/// Characters of `s`, in order.
pub fn chars_of(s: &str) -> (r: Vec<char>)
    ensures
        r@ == s@,
{
    let mut r: Vec<char> = Vec::new();
    for c in it: s.chars()
        invariant
            r@ == it.seq().take(it.index()),
            it.seq() == s@,
    {
        r.push(c);
    }
    r
}

/// The characters of `s` from `from` up to `to`.
pub fn substring<'a>(s: &'a str, ascii: bool, from: usize, to: usize) -> (r: &'a str)
    requires
        ascii == s.is_ascii(),
        from <= to <= s@.len(),
    ensures
        r@ == s@.subrange(from as int, to as int),
{
    if ascii {
        s.substring_ascii(from, to)
    } else {
        s.substring_char(from, to)
    }
}

/// Splits an identifier into its subtags on `-` and `_`.
pub fn split_str<'a>(s: &'a str) -> (r: Vec<&'a str>)
    ensures
        views(r@) == subtags_of(s@),
{
    let cs = chars_of(s);
    let ascii = s.is_ascii();
    let n = cs.len();
    let mut r: Vec<&'a str> = Vec::new();
    if n == 0 {
        proof {
            assert(views(r@) =~= Seq::empty());
        }
        return r;
    }
    let mut start: usize = 0;
    let mut i: usize = 0;
    proof {
        assert(s@.subrange(0, 0) =~= Seq::<char>::empty());
        assert(views(r@) =~= Seq::empty());
        assert(views(r@).push(s@.subrange(0, 0)) =~= split_seps(s@.subrange(0, 0)));
    }
    while i < n
        invariant
            cs@ == s@,
            n == cs.len(),
            ascii == s.is_ascii(),
            start <= i <= n,
            views(r@).push(s@.subrange(start as int, i as int)) == split_seps(
                s@.subrange(0, i as int),
            ),
        decreases n - i,
    {
        let ghost prev = split_seps(s@.subrange(0, i as int));
        let ghost old_r = r@;
        proof {
            lemma_split_seps_len(s@.subrange(0, i as int));
            assert(s@.subrange(0, i + 1).drop_last() =~= s@.subrange(0, i as int));
        }
        let c = cs[i];
        if c == '-' || c == '_' {
            let t = substring(s, ascii, start, i);
            r.push(t);
            start = i + 1;
            proof {
                assert(views(r@) =~= views(old_r).push(t@));
                assert(s@.subrange(start as int, i + 1) =~= Seq::<char>::empty());
                assert(views(r@).push(s@.subrange(start as int, i + 1)) =~= prev.push(
                    Seq::empty(),
                ));
            }
        } else {
            proof {
                assert(s@.subrange(start as int, i + 1) =~= s@.subrange(start as int, i as int).push(
                    c,
                ));
                assert(views(r@).push(s@.subrange(start as int, i + 1)) =~= prev.update(
                    prev.len() - 1,
                    prev.last().push(c),
                ));
            }
        }
        i = i + 1;
    }
    let t = substring(s, ascii, start, n);
    let ghost old_r = r@;
    r.push(t);
    proof {
        assert(s@.subrange(0, n as int) =~= s@);
        assert(views(r@) =~= views(old_r).push(t@));
    }
    r
}

} // verus!
