//! Knowledge drawn from a corpus of documents: each ingestion reads the next
//! document and adds the concepts it names to the set learned so far. A
//! concept is a lowercased run of letters and digits of at least four bytes
//! holding at least one letter. How the count of concepts becomes a
//! saturating level is left to the caller.
use vstd::prelude::*;
use crate::text::{str_chars, string_from_chars};

verus! {

/// `char::is_alphanumeric`: whether a character is a letter or a digit in the
/// Unicode sense.
pub uninterp spec fn alphanumeric(c: char) -> bool;

/// `char::is_alphabetic`: whether a character has the Unicode `Alphabetic`
/// property.
pub uninterp spec fn alphabetic(c: char) -> bool;

/// `str::to_lowercase`: the lowercase mapping of a whole text, as Unicode
/// defines it (a character's mapping may depend on its neighbours).
pub uninterp spec fn lowercase(s: Seq<char>) -> Seq<char>;

/// Calls `char::is_alphanumeric`. Trusted to return `alphanumeric(c)`, the
/// same answer for the same character; which characters qualify (Unicode's
/// alphabetic and numeric properties) is not stated.
#[verifier::external_body]
fn is_alphanumeric(c: char) -> (r: bool)
    ensures
        r == alphanumeric(c),
{
    c.is_alphanumeric()
}

/// Calls `char::is_alphabetic`. Trusted to return `alphabetic(c)`, the same
/// answer for the same character; which characters qualify (Unicode's
/// `Alphabetic` property) is not stated.
#[verifier::external_body]
fn is_alphabetic(c: char) -> (r: bool)
    ensures
        r == alphabetic(c),
{
    c.is_alphabetic()
}

/// Calls `str::to_lowercase`. Trusted to return `lowercase(s)`, the same
/// text for the same input; the Unicode case mapping itself is not stated.
#[verifier::external_body]
fn to_lowercase(s: &str) -> (r: String)
    ensures
        r@ == lowercase(s@),
{
    s.to_lowercase()
}

/// Number of bytes of a character in UTF-8.
pub open spec fn utf8_width(c: char) -> nat {
    if (c as int) < 0x80 {
        1
    } else if (c as int) < 0x800 {
        2
    } else if (c as int) < 0x10000 {
        3
    } else {
        4
    }
}

/// Number of bytes of a text in UTF-8.
pub open spec fn utf8_len(s: Seq<char>) -> nat
    decreases s.len(),
{
    if s.len() == 0 {
        0
    } else {
        utf8_len(s.drop_last()) + utf8_width(s.last())
    }
}

/// Number of bytes of a character in UTF-8 (as `char::len_utf8`).
fn char_width(c: char) -> (w: usize)
    ensures
        w == utf8_width(c),
{
    if '\u{80}' > c {
        1
    } else if '\u{800}' > c {
        2
    } else if '\u{10000}' > c {
        3
    } else {
        4
    }
}

/// Whether a text takes at least four bytes in UTF-8.
fn at_least_four_bytes(cs: &Vec<char>) -> (r: bool)
    ensures
        r == (utf8_len(cs@) >= 4),
{
    let mut n: usize = 0;
    let mut i: usize = 0;
    while i < cs.len()
        invariant
            i <= cs@.len(),
            n == utf8_len(cs@.take(i as int)),
            n < 4,
        decreases cs@.len() - i,
    {
        let w = char_width(cs[i]);
        assert(cs@.take(i + 1).drop_last() == cs@.take(i as int));
        n = n + w;
        i = i + 1;
        if n >= 4 {
            proof {
                lemma_utf8_len_prefix(cs@, i as int);
            }
            return true;
        }
    }
    assert(cs@.take(i as int) == cs@);
    false
}

/// A prefix takes no more bytes than the whole.
proof fn lemma_utf8_len_prefix(s: Seq<char>, i: int)
    requires
        0 <= i <= s.len(),
    ensures
        utf8_len(s.take(i)) <= utf8_len(s),
    decreases s.len() - i,
{
    if i < s.len() {
        lemma_utf8_len_prefix(s, i + 1);
        assert(s.take(i + 1).drop_last() == s.take(i));
    } else {
        assert(s.take(i) == s);
    }
}

/// The letter flags of a text: whether each character is a letter.
pub open spec fn letter_flags(t: Seq<char>) -> Seq<bool> {
    Seq::new(t.len(), |k: int| alphabetic(t[k]))
}

/// A lowercased piece, with the letter flags of its characters, is kept as a
/// concept when it takes at least four bytes and holds a letter.
pub open spec fn kept(t: Seq<char>, letters: Seq<bool>) -> bool {
    utf8_len(t) >= 4 && exists|k: int| 0 <= k < letters.len() && #[trigger] letters[k]
}

/// Whether a lowercased piece with the given letter flags is kept (see
/// [`kept`]).
pub fn is_kept(t: &Vec<char>, letters: &Vec<bool>) -> (r: bool)
    ensures
        r == kept(t@, letters@),
{
    if !at_least_four_bytes(t) {
        return false;
    }
    let mut i: usize = 0;
    while i < letters.len()
        invariant
            i <= letters@.len(),
            utf8_len(t@) >= 4,
            forall|k: int| 0 <= k < i ==> !#[trigger] letters@[k],
        decreases letters@.len() - i,
    {
        if letters[i] {
            assert(letters@[i as int]);
            return true;
        }
        i = i + 1;
    }
    false
}

/// A set of distinct concepts.
pub struct ConceptSet {
    items: Vec<String>,
}

impl View for ConceptSet {
    type V = Set<Seq<char>>;

    closed spec fn view(&self) -> Set<Seq<char>> {
        self.items@.map_values(|s: String| s@).to_set()
    }
}

impl ConceptSet {
    #[verifier::type_invariant]
    closed spec fn distinct(self) -> bool {
        self.items@.map_values(|s: String| s@).no_duplicates()
    }

    /// No concept.
    pub fn new() -> (r: ConceptSet)
        ensures
            r@ == Set::<Seq<char>>::empty(),
    {
        let r = ConceptSet { items: Vec::new() };
        assert(r.items@.map_values(|s: String| s@) =~= Seq::<Seq<char>>::empty());
        assert(r@ =~= Set::<Seq<char>>::empty());
        r
    }

    /// Number of concepts.
    pub fn len(&self) -> (n: usize)
        ensures
            n == self@.len(),
            self@.finite(),
    {
        proof {
            use_type_invariant(self);
            self.items@.map_values(|s: String| s@).unique_seq_to_set();
        }
        self.items.len()
    }

    /// Whether `t` is in the set.
    pub fn contains(&self, t: &str) -> (r: bool)
        ensures
            r == self@.contains(t@),
    {
        let k = String::from_str(t);
        let ghost m = self.items@.map_values(|s: String| s@);
        let mut i: usize = 0;
        while i < self.items.len()
            invariant
                i <= self.items@.len(),
                m == self.items@.map_values(|s: String| s@),
                k@ == t@,
                forall|j: int| 0 <= j < i ==> m[j] != t@,
            decreases self.items@.len() - i,
        {
            if self.items[i] == k {
                assert(m[i as int] == t@);
                return true;
            }
            i = i + 1;
        }
        assert(!m.contains(t@));
        false
    }

    /// Adds `t`; nothing changes when it is there already.
    pub fn insert(&mut self, t: String)
        ensures
            final(self)@ == old(self)@.insert(t@),
    {
        proof {
            use_type_invariant(&*self);
        }
        if self.contains(t.as_str()) {
            assert(old(self)@.insert(t@) =~= old(self)@);
            return;
        }
        let ghost m = self.items@.map_values(|s: String| s@);
        let mut items = Vec::new();
        std::mem::swap(&mut items, &mut self.items);
        items.push(t);
        assert(items@.map_values(|s: String| s@) =~= m.push(t@));
        proof {
            m.lemma_push_to_set_commute(t@);
        }
        proof {
            assert forall|a: int, b: int| 0 <= a < b < m.push(t@).len() implies m.push(t@)[a] != m.push(t@)[b] by {
                if b == m.len() {
                    assert(m.contains(m[a]));
                }
            }
        }
        *self = ConceptSet { items };
    }
}

/// The pieces of a text whose characters carry the flags `f`, cut at every
/// character flagged `false`: from the start to the first cut, between two
/// cuts, and from the last cut to the end, each possibly empty, as start and
/// end positions in order.
pub open spec fn pieces(f: Seq<bool>) -> Seq<(int, int)>
    decreases f.len(),
{
    if f.len() == 0 {
        seq![(0int, 0int)]
    } else {
        let p = pieces(f.drop_last());
        let n = f.len() as int;
        if f.last() {
            p.update(p.len() - 1, (p.last().0, n))
        } else {
            p.push((n, n))
        }
    }
}

/// Every piece lies within the text, and the last one ends at its end.
pub proof fn lemma_pieces(f: Seq<bool>)
    ensures
        pieces(f).len() >= 1,
        pieces(f).last().1 == f.len(),
        forall|j: int| 0 <= j < pieces(f).len() ==> 0 <= (#[trigger] pieces(f)[j]).0 <= pieces(f)[j].1 <= f.len(),
    decreases f.len(),
{
    if f.len() > 0 {
        lemma_pieces(f.drop_last());
    }
}

/// The pieces are the maximal runs of flagged characters, in order: each
/// piece holds only flagged characters, starts at the text's start or just
/// after an unflagged one, ends at the text's end or at an unflagged one,
/// and the next piece starts just after the previous one ends; so every
/// flagged character lies in a piece, and every unflagged one separates two.
pub proof fn law_pieces(f: Seq<bool>)
    ensures
        pieces(f).len() >= 1,
        pieces(f)[0].0 == 0,
        pieces(f).last().1 == f.len(),
        forall|j: int| 0 <= j < pieces(f).len() ==> {
            let (a, b) = #[trigger] pieces(f)[j];
            &&& 0 <= a <= b <= f.len()
            &&& (forall|k: int| a <= k < b ==> f[k])
            &&& (a == 0 || !f[a - 1])
            &&& (b == f.len() || !f[b])
        },
        forall|j: int| 0 <= j < pieces(f).len() - 1 ==> #[trigger] pieces(f)[j + 1].0 == pieces(f)[j].1 + 1,
    decreases f.len(),
{
    if f.len() > 0 {
        let g = f.drop_last();
        law_pieces(g);
        let p = pieces(g);
        let n = f.len() - 1;
        assert forall|k: int| 0 <= k < n implies f[k] == g[k] by {}
        if f.last() {
            let q = pieces(f);
            assert(q == p.update(p.len() - 1, (p.last().0, n + 1)));
            assert forall|j: int| 0 <= j < q.len() implies {
                let (a, b) = #[trigger] q[j];
                &&& 0 <= a <= b <= f.len()
                &&& (forall|k: int| a <= k < b ==> f[k])
                &&& (a == 0 || !f[a - 1])
                &&& (b == f.len() || !f[b])
            } by {
                if j < q.len() - 1 {
                    assert(q[j] == p[j]);
                    let (a, b) = p[j];
                    assert(p[j + 1].0 == p[j].1 + 1);
                    assert(b < n);
                    assert forall|k: int| a <= k < b implies f[k] by {
                        assert(g[k]);
                    }
                    if a > 0 {
                        assert(!g[a - 1]);
                    }
                    assert(!g[b]);
                } else {
                    let (a, b) = p[j];
                    assert forall|k: int| a <= k < n + 1 implies f[k] by {
                        if k < n {
                            assert(g[k]);
                        }
                    }
                    if a > 0 {
                        assert(!g[a - 1]);
                    }
                }
            }
            assert forall|j: int| 0 <= j < q.len() - 1 implies #[trigger] q[j + 1].0 == q[j].1 + 1 by {
                assert(p[j + 1].0 == p[j].1 + 1);
            }
        } else {
            let q = pieces(f);
            assert(q == p.push((n + 1, n + 1)));
            assert(!f[n]);
            assert forall|j: int| 0 <= j < q.len() implies {
                let (a, b) = #[trigger] q[j];
                &&& 0 <= a <= b <= f.len()
                &&& (forall|k: int| a <= k < b ==> f[k])
                &&& (a == 0 || !f[a - 1])
                &&& (b == f.len() || !f[b])
            } by {
                if j < q.len() - 1 {
                    assert(q[j] == p[j]);
                    let (a, b) = p[j];
                    assert forall|k: int| a <= k < b implies f[k] by {
                        assert(g[k]);
                    }
                    if a > 0 {
                        assert(!g[a - 1]);
                    }
                    if b < n {
                        assert(!g[b]);
                    }
                }
            }
            assert forall|j: int| 0 <= j < q.len() - 1 implies #[trigger] q[j + 1].0 == q[j].1 + 1 by {
                if j < q.len() - 2 {
                    assert(p[j + 1].0 == p[j].1 + 1);
                }
            }
        }
    }
}

/// The pieces of a text with flags `flags` (see [`pieces`]).
pub fn piece_bounds(flags: &Vec<bool>) -> (r: Vec<(usize, usize)>)
    ensures
        r@.len() == pieces(flags@).len(),
        forall|j: int| 0 <= j < r@.len() ==> (#[trigger] r@[j].0 as int, r@[j].1 as int) == pieces(flags@)[j],
{
    let mut r: Vec<(usize, usize)> = Vec::new();
    r.push((0, 0));
    let mut i: usize = 0;
    assert(flags@.take(0) =~= Seq::<bool>::empty());
    while i < flags.len()
        invariant
            i <= flags@.len(),
            r@.len() == pieces(flags@.take(i as int)).len(),
            r@.len() >= 1,
            forall|j: int| 0 <= j < r@.len() ==> (#[trigger] r@[j].0 as int, r@[j].1 as int) == pieces(
                flags@.take(i as int),
            )[j],
        decreases flags@.len() - i,
    {
        assert(flags@.take(i + 1).drop_last() =~= flags@.take(i as int));
        let last = r.len() - 1;
        if flags[i] {
            let start = r[last].0;
            r.set(last, (start, i + 1));
        } else {
            r.push((i + 1, i + 1));
        }
        i = i + 1;
    }
    assert(flags@.take(flags@.len() as int) =~= flags@);
    r
}

/// The concepts among the first `j` lowercased pieces, each with its letter
/// flags.
pub open spec fn kept_set(ts: Seq<Seq<char>>, ls: Seq<Seq<bool>>, j: int) -> Set<Seq<char>>
    decreases j,
{
    if j <= 0 {
        Set::empty()
    } else {
        let prev = kept_set(ts, ls, j - 1);
        if kept(ts[j - 1], ls[j - 1]) {
            prev.insert(ts[j - 1])
        } else {
            prev
        }
    }
}

/// Adds to `into` every lowercased piece that is kept, given the letter
/// flags of each.
pub fn add_kept(lowered: &Vec<Vec<char>>, letters: &Vec<Vec<bool>>, into: &mut ConceptSet)
    requires
        lowered@.len() == letters@.len(),
    ensures
        final(into)@ == old(into)@.union(
            kept_set(
                lowered@.map_values(|t: Vec<char>| t@),
                letters@.map_values(|l: Vec<bool>| l@),
                lowered@.len() as int,
            ),
        ),
{
    let ghost ts = lowered@.map_values(|t: Vec<char>| t@);
    let ghost ls = letters@.map_values(|l: Vec<bool>| l@);
    let mut j: usize = 0;
    assert(old(into)@.union(kept_set(ts, ls, 0)) =~= old(into)@);
    while j < lowered.len()
        invariant
            j <= lowered@.len(),
            lowered@.len() == letters@.len(),
            ts == lowered@.map_values(|t: Vec<char>| t@),
            ls == letters@.map_values(|l: Vec<bool>| l@),
            into@ == old(into)@.union(kept_set(ts, ls, j as int)),
        decreases lowered@.len() - j,
    {
        let ghost before = into@;
        if is_kept(&lowered[j], &letters[j]) {
            into.insert(string_from_chars(lowered[j].as_slice()));
            assert(before.insert(ts[j as int]) =~= old(into)@.union(kept_set(ts, ls, j + 1)));
        } else {
            assert(before =~= old(into)@.union(kept_set(ts, ls, j + 1)));
        }
        j = j + 1;
    }
}

/// The letter-or-digit flags of a text.
pub open spec fn alnum_flags(s: Seq<char>) -> Seq<bool> {
    Seq::new(s.len(), |k: int| alphanumeric(s[k]))
}

/// The lowercased pieces of a text cut at every character that is not a
/// letter or digit.
pub open spec fn lowered_pieces(s: Seq<char>) -> Seq<Seq<char>> {
    pieces(alnum_flags(s)).map_values(|p: (int, int)| lowercase(s.subrange(p.0, p.1)))
}

/// The concepts a text names: its lowercased pieces that are concepts.
pub open spec fn concepts_of(s: Seq<char>) -> Set<Seq<char>> {
    let ts = lowered_pieces(s);
    kept_set(ts, ts.map_values(|t: Seq<char>| letter_flags(t)), ts.len() as int)
}

/// What the first `j` pieces contribute: exactly the kept ones.
pub proof fn lemma_kept_set(ts: Seq<Seq<char>>, ls: Seq<Seq<bool>>, j: int, t: Seq<char>)
    requires
        0 <= j <= ts.len(),
        ts.len() == ls.len(),
    ensures
        kept_set(ts, ls, j).contains(t) <==> exists|i: int|
            0 <= i < j && #[trigger] ts[i] == t && kept(ts[i], ls[i]),
    decreases j,
{
    if j > 0 {
        lemma_kept_set(ts, ls, j - 1, t);
        if kept_set(ts, ls, j).contains(t) && !kept_set(ts, ls, j - 1).contains(t) {
            assert(ts[j - 1] == t && kept(ts[j - 1], ls[j - 1]));
        }
        if exists|i: int| 0 <= i < j && #[trigger] ts[i] == t && kept(ts[i], ls[i]) {
            let i = choose|i: int| 0 <= i < j && #[trigger] ts[i] == t && kept(ts[i], ls[i]);
            if i < j - 1 {
                assert(kept_set(ts, ls, j - 1).contains(t));
            }
        }
    }
}

/// The concepts of a text are exactly its lowercased pieces (the runs of
/// letters and digits, lowercased) that take at least four bytes in UTF-8
/// and hold a letter at some position, whatever that position.
pub proof fn law_concepts_of(s: Seq<char>, t: Seq<char>)
    ensures
        concepts_of(s).contains(t) <==> exists|j: int|
            0 <= j < lowered_pieces(s).len() && #[trigger] lowered_pieces(s)[j] == t && utf8_len(t) >= 4
                && exists|k: int| 0 <= k < t.len() && alphabetic(#[trigger] t[k]),
{
    let ts = lowered_pieces(s);
    let ls = ts.map_values(|x: Seq<char>| letter_flags(x));
    lemma_kept_set(ts, ls, ts.len() as int, t);
    assert forall|j: int| 0 <= j < ts.len() implies (kept(ts[j], ls[j]) <==> (utf8_len(ts[j]) >= 4
        && exists|k: int| 0 <= k < ts[j].len() && alphabetic(#[trigger] ts[j][k]))) by {
        let x = ts[j];
        assert(ls[j] == letter_flags(x));
        if utf8_len(x) >= 4 && exists|k: int| 0 <= k < x.len() && alphabetic(#[trigger] x[k]) {
            let k = choose|k: int| 0 <= k < x.len() && alphabetic(#[trigger] x[k]);
            assert(ls[j][k]);
        }
        if kept(x, ls[j]) {
            let k = choose|k: int| 0 <= k < ls[j].len() && #[trigger] ls[j][k];
            assert(alphabetic(x[k]));
        }
    }
}

/// Adds to `into` the concepts that `text` names.
pub fn extract(text: &str, into: &mut ConceptSet)
    ensures
        final(into)@ == old(into)@.union(concepts_of(text@)),
{
    let cs = str_chars(text);
    let ghost s = cs@;
    let mut flags: Vec<bool> = Vec::new();
    let mut i: usize = 0;
    while i < cs.len()
        invariant
            i <= cs@.len(),
            flags@ == alnum_flags(s).take(i as int),
            s == cs@,
        decreases cs@.len() - i,
    {
        flags.push(is_alphanumeric(cs[i]));
        assert(flags@ =~= alnum_flags(s).take(i + 1));
        i = i + 1;
    }
    assert(flags@ =~= alnum_flags(s));
    let bounds = piece_bounds(&flags);
    proof {
        lemma_pieces(flags@);
    }
    let ghost ps = pieces(flags@);
    let ghost ts = lowered_pieces(s);
    let mut lowered: Vec<Vec<char>> = Vec::new();
    let mut letters: Vec<Vec<bool>> = Vec::new();
    let mut j: usize = 0;
    while j < bounds.len()
        invariant
            j <= bounds@.len(),
            s == cs@,
            s == text@,
            ps == pieces(alnum_flags(s)),
            ts == lowered_pieces(s),
            bounds@.len() == ps.len(),
            forall|k: int| 0 <= k < bounds@.len() ==> (#[trigger] bounds@[k].0 as int, bounds@[k].1 as int) == ps[k],
            forall|k: int| 0 <= k < ps.len() ==> 0 <= (#[trigger] ps[k]).0 <= ps[k].1 <= s.len(),
            lowered@.len() == j,
            letters@.len() == j,
            forall|k: int| 0 <= k < j ==> (#[trigger] lowered@[k])@ == ts[k],
            forall|k: int| 0 <= k < j ==> (#[trigger] letters@[k])@ == letter_flags(ts[k]),
        decreases bounds@.len() - j,
    {
        let (a, b) = bounds[j];
        assert(ps[j as int] == (a as int, b as int));
        let piece = crate::json_parse::slice_chars(&cs, a, b);
        let low = to_lowercase(string_from_chars(piece.as_slice()).as_str());
        let lc = str_chars(low.as_str());
        assert(lc@ == ts[j as int]);
        let mut fl: Vec<bool> = Vec::new();
        let mut k: usize = 0;
        while k < lc.len()
            invariant
                k <= lc@.len(),
                fl@ == letter_flags(lc@).take(k as int),
            decreases lc@.len() - k,
        {
            fl.push(is_alphabetic(lc[k]));
            assert(fl@ =~= letter_flags(lc@).take(k + 1));
            k = k + 1;
        }
        assert(fl@ =~= letter_flags(lc@));
        lowered.push(lc);
        letters.push(fl);
        j = j + 1;
    }
    assert(lowered@.map_values(|t: Vec<char>| t@) =~= ts);
    assert(letters@.map_values(|l: Vec<bool>| l@) =~= ts.map_values(|t: Seq<char>| letter_flags(t)));
    add_kept(&lowered, &letters, into);
}

/// A corpus of documents read one at a time, with the concepts learned from
/// the documents read so far.
pub struct CorpusKnowledge {
    documents: Vec<String>,
    cursor: usize,
    concepts: ConceptSet,
}

/// The texts of documents.
pub open spec fn texts_of(docs: Seq<String>) -> Seq<Seq<char>> {
    docs.map_values(|d: String| d@)
}

/// The concepts of the first `n` documents.
pub open spec fn concepts_upto(docs: Seq<Seq<char>>, n: int) -> Set<Seq<char>>
    decreases n,
{
    if n <= 0 {
        Set::empty()
    } else {
        concepts_upto(docs, n - 1).union(concepts_of(docs[n - 1]))
    }
}

impl CorpusKnowledge {
    #[verifier::type_invariant]
    closed spec fn consistent(self) -> bool {
        &&& self.cursor <= self.documents@.len()
        &&& self.concepts@ == concepts_upto(texts_of(self.documents@), self.cursor as int)
    }

    /// The texts of the corpus.
    pub closed spec fn documents(self) -> Seq<Seq<char>> {
        texts_of(self.documents@)
    }

    /// Number of documents read.
    pub closed spec fn cursor(self) -> nat {
        self.cursor as nat
    }

    /// The concepts learned.
    pub closed spec fn concepts(self) -> Set<Seq<char>> {
        self.concepts@
    }

    /// A corpus of the given texts, none read yet.
    pub fn from_texts(documents: Vec<String>) -> (k: CorpusKnowledge)
        ensures
            k.documents() == texts_of(documents@),
            k.cursor() == 0,
            k.concepts() == Set::<Seq<char>>::empty(),
    {
        CorpusKnowledge { documents, cursor: 0, concepts: ConceptSet::new() }
    }

    /// Number of distinct concepts learned.
    pub fn concept_count(&self) -> (n: usize)
        ensures
            n == self.concepts().len(),
            self.concepts().finite(),
    {
        self.concepts.len()
    }

    /// Number of documents read.
    pub fn documents_read(&self) -> (n: usize)
        ensures
            n == self.cursor(),
            n <= self.documents().len(),
    {
        proof {
            use_type_invariant(self);
        }
        self.cursor
    }

    /// Reads the next document, if one is left, and learns its concepts.
    pub fn ingest(&mut self)
        ensures
            final(self).documents() == old(self).documents(),
            old(self).cursor() < old(self).documents().len() ==> final(self).cursor() == old(self).cursor() + 1
                && final(self).concepts() == old(self).concepts().union(
                concepts_of(old(self).documents()[old(self).cursor() as int]),
            ),
            old(self).cursor() >= old(self).documents().len() ==> final(self).cursor() == old(self).cursor()
                && final(self).concepts() == old(self).concepts(),
            final(self).concepts() == concepts_upto(final(self).documents(), final(self).cursor() as int),
            final(self).cursor() <= final(self).documents().len(),
    {
        proof {
            use_type_invariant(&*self);
        }
        if self.cursor < self.documents.len() {
            let mut taken = CorpusKnowledge::from_texts(Vec::new());
            std::mem::swap(&mut taken, self);
            proof {
                use_type_invariant(&taken);
            }
            let CorpusKnowledge { documents, cursor, mut concepts } = taken;
            extract(documents[cursor].as_str(), &mut concepts);
            *self = CorpusKnowledge { documents, cursor: cursor + 1, concepts };
        }
    }
}

/// Learning never forgets: after an ingestion the concepts learned include
/// those before, so their count never decreases.
pub proof fn law_ingest_monotone(before: Set<Seq<char>>, text: Seq<char>)
    requires
        before.finite(),
    ensures
        before.subset_of(before.union(concepts_of(text))),
        before.union(concepts_of(text)).finite() ==> before.len() <= before.union(concepts_of(text)).len(),
{
    if before.union(concepts_of(text)).finite() {
        vstd::set_lib::lemma_len_subset(before, before.union(concepts_of(text)));
    }
}

/// The concepts of a longer prefix of the corpus include those of a shorter
/// one: reading on never loses a concept.
pub proof fn law_concepts_grow(docs: Seq<Seq<char>>, n: int, m: int)
    requires
        0 <= n <= m,
    ensures
        concepts_upto(docs, n).subset_of(concepts_upto(docs, m)),
    decreases m - n,
{
    if n < m {
        law_concepts_grow(docs, n, m - 1);
    }
}

} // verus!
