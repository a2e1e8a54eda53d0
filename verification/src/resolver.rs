//! The resolution engine: turns a free-form textual reference into ranked
//! symbol matches. Exact-name and fuzzy strategies run over the graph; a raw
//! text fallback over supplied source files fires only when both come up
//! empty. Candidates are sorted by confidence (stable), deduplicated and
//! capped at ten.
//!
//! Confidence is stored in thousandths: 1000 stands for certainty 1.0, and
//! resolution never reports more than that; only popularity re-ranking may
//! push a confidence past certainty.

use vstd::prelude::*;
use vstd::multiset::Multiset;
use crate::graph::{find_first_named, CodeGraph, SymbolData, SymbolNode};
use crate::text::{
    contains_str, eq_str, is_ws, spec_contains, spec_lines, split_lines, trim_spec, trim_str,
};

verus! {

/// A ranked reference to a symbol. `confidence` is in thousandths.
#[derive(Debug, Clone)]
pub struct FunctionRef {
    pub name: String,
    pub file: String,
    pub line: usize,
    pub signature: String,
    pub confidence: i64,
}

/// Mathematical value of a `FunctionRef`.
#[verifier::ext_equal]
pub ghost struct RefData {
    pub name: Seq<char>,
    pub file: Seq<char>,
    pub line: nat,
    pub signature: Seq<char>,
    pub confidence: int,
}

impl View for FunctionRef {
    type V = RefData;

    open spec fn view(&self) -> RefData {
        RefData {
            name: self.name@,
            file: self.file@,
            line: self.line as nat,
            signature: self.signature@,
            confidence: self.confidence as int,
        }
    }
}

/// The views of a reference sequence.
pub open spec fn refs_view(v: Seq<FunctionRef>) -> Seq<RefData> {
    Seq::new(v.len(), |i: int| v[i]@)
}

/// A source file handed to the fallback text search: its path and contents.
#[derive(Debug, Clone)]
pub struct SourceFile {
    pub path: String,
    pub content: String,
}

/// What fuzzy_matcher's `SkimMatcherV2::fuzzy_match` returns for a choice
/// and a pattern; a function of the two strings alone.
pub uninterp spec fn fuzzy_score(choice: Seq<char>, pattern: Seq<char>) -> Option<i64>;

/// Relies on fuzzy_matcher's `SkimMatcherV2::fuzzy_match` with the default
/// configuration: scores how well `choice` matches `pattern`, `None` when it
/// does not match; deterministic in its two inputs.
#[verifier::external_body]
fn fuzzy_match(choice: &str, pattern: &str) -> (r: Option<i64>)
    ensures
        r == fuzzy_score(choice@, pattern@),
{
    fuzzy_matcher::FuzzyMatcher::fuzzy_match(
        &fuzzy_matcher::skim::SkimMatcherV2::default(),
        choice,
        pattern,
    )
}

/// A fuzzy score in thousandths, capped at certainty: confidence stays in
/// [0.0, 1.0], and only popularity re-ranking may push it higher.
pub open spec fn conf_of_score(s: i64) -> int {
    if s >= 100 {
        1000
    } else {
        (s as int) * 10
    }
}

fn conf_of_score_exec(s: i64) -> (r: i64)
    requires
        s > 0,
    ensures
        r as int == conf_of_score(s),
{
    if s >= 100 {
        1000
    } else {
        s * 10
    }
}

/// The reference a symbol yields at a given confidence.
pub open spec fn ref_of(s: SymbolData, conf: int) -> RefData {
    RefData {
        name: s.name,
        file: s.file,
        line: s.line,
        signature: s.signature,
        confidence: conf,
    }
}

/// The exact-name candidate: the first-inserted symbol named `q`, at
/// confidence 1000.
pub open spec fn exact_part(nodes: Seq<SymbolNode>, q: Seq<char>) -> Seq<RefData> {
    match find_first_named(nodes, q) {
        Some(i) => seq![ref_of(nodes[i]@, 1000)],
        None => Seq::empty(),
    }
}

/// The fuzzy candidates among the first `n` symbols: symbols whose name
/// contains `q` and whose fuzzy score, in thousandths, clears 300.
pub open spec fn fuzzy_part(nodes: Seq<SymbolNode>, q: Seq<char>, n: nat) -> Seq<RefData>
    decreases n,
{
    if n == 0 {
        Seq::empty()
    } else {
        fuzzy_part(nodes, q, (n - 1) as nat) + ({
            let s = nodes[n - 1]@;
            if spec_contains(s.name, q) {
                match fuzzy_score(s.name, q) {
                    Some(sc) => if sc > 30 {
                        seq![ref_of(s, conf_of_score(sc))]
                    } else {
                        Seq::empty()
                    },
                    None => Seq::empty(),
                }
            } else {
                Seq::empty()
            }
        })
    }
}

/// All graph-derived candidates for `q`: the exact match, then the fuzzy
/// matches in insertion order.
pub open spec fn graph_candidates(nodes: Seq<SymbolNode>, q: Seq<char>) -> Seq<RefData> {
    exact_part(nodes, q) + fuzzy_part(nodes, q, nodes.len())
}

/// Inserts `x` into a descending-sorted sequence, after every element of
/// strictly greater confidence (so earlier elements win ties).
pub open spec fn insert_desc(x: RefData, s: Seq<RefData>) -> Seq<RefData>
    decreases s.len(),
{
    if s.len() == 0 {
        seq![x]
    } else if s[0].confidence > x.confidence {
        seq![s[0]] + insert_desc(x, s.drop_first())
    } else {
        seq![x] + s
    }
}

/// Stable insertion sort by descending confidence.
pub open spec fn sort_desc(s: Seq<RefData>) -> Seq<RefData>
    decreases s.len(),
{
    if s.len() == 0 {
        Seq::empty()
    } else {
        insert_desc(s[0], sort_desc(s.drop_first()))
    }
}

/// Confidence is non-increasing along `s`.
pub open spec fn sorted_desc(s: Seq<RefData>) -> bool {
    forall|i: int, j: int| 0 <= i < j < s.len() ==> s[i].confidence >= s[j].confidence
}

/// Every confidence in `s` is at most `c`.
pub open spec fn all_conf_le(s: Seq<RefData>, c: int) -> bool {
    forall|i: int| 0 <= i < s.len() ==> (#[trigger] s[i]).confidence <= c
}

proof fn lemma_cons_multiset(a: RefData, s: Seq<RefData>)
    ensures
        (seq![a] + s).to_multiset() =~= s.to_multiset().insert(a),
{
    broadcast use vstd::seq_lib::group_to_multiset_ensures;
    broadcast use vstd::multiset::group_multiset_axioms;
    broadcast use vstd::multiset::group_multiset_properties;

    vstd::seq_lib::lemma_multiset_commutative(seq![a], s);
    assert(Seq::<RefData>::empty().push(a) =~= seq![a]);
    assert(Seq::<RefData>::empty().to_multiset() =~= Multiset::<RefData>::empty());
    assert(seq![a].to_multiset() =~= Multiset::<RefData>::empty().insert(a));
}

proof fn lemma_insert_desc_sorted(x: RefData, s: Seq<RefData>)
    requires
        sorted_desc(s),
    ensures
        sorted_desc(insert_desc(x, s)),
        insert_desc(x, s).to_multiset() == s.to_multiset().insert(x),
        insert_desc(x, s).len() == s.len() + 1,
        forall|c: int|
            all_conf_le(s, c) && x.confidence <= c ==> all_conf_le(#[trigger] insert_desc(x, s), c),
    decreases s.len(),
{
    broadcast use vstd::seq_lib::group_to_multiset_ensures;
    broadcast use vstd::multiset::group_multiset_axioms;
    broadcast use vstd::multiset::group_multiset_properties;

    if s.len() == 0 {
        assert(insert_desc(x, s) == seq![x] + s) by {
            assert(seq![x] + s =~= seq![x]);
        }
        lemma_cons_multiset(x, s);
    } else if s[0].confidence > x.confidence {
        let rest = s.drop_first();
        assert(sorted_desc(rest)) by {
            assert(forall|i: int, j: int|
                0 <= i < j < rest.len() ==> rest[i] == s[i + 1] && rest[j] == s[j + 1]);
        }
        lemma_insert_desc_sorted(x, rest);
        let inner = insert_desc(x, rest);
        let whole = seq![s[0]] + inner;
        assert(insert_desc(x, s) == whole);
        assert(sorted_desc(whole)) by {
            assert(forall|j: int| 0 <= j < inner.len() ==> whole[j + 1] == inner[j]);
            assert(whole[0] == s[0]);
            assert forall|i: int, j: int| 0 <= i < j < whole.len() implies whole[i].confidence
                >= whole[j].confidence by {
                if i == 0 {
                    assert(inner.to_multiset().contains(whole[j]));
                    assert(inner.to_multiset() == rest.to_multiset().insert(x));
                    if whole[j] == x {
                    } else {
                        assert(rest.to_multiset().count(whole[j]) > 0);
                        assert(rest.contains(whole[j]));
                        let k = choose|k: int| 0 <= k < rest.len() && rest[k] == whole[j];
                        assert(s[k + 1] == rest[k]);
                    }
                }
            }
        }
        lemma_cons_multiset(s[0], inner);
        lemma_cons_multiset(s[0], rest);
        assert(seq![s[0]] + rest =~= s);
        assert(whole.to_multiset() =~= s.to_multiset().insert(x)) by {
            assert(whole.to_multiset() =~= inner.to_multiset().insert(s[0]));
            assert(inner.to_multiset() == rest.to_multiset().insert(x));
            assert(s.to_multiset() =~= rest.to_multiset().insert(s[0]));
        }
        assert forall|c: int| all_conf_le(s, c) && x.confidence <= c implies all_conf_le(
            #[trigger] insert_desc(x, s),
            c,
        ) by {
            assert(all_conf_le(rest, c)) by {
                assert(forall|i: int| 0 <= i < rest.len() ==> rest[i] == s[i + 1]);
            }
            assert(all_conf_le(inner, c));
            assert(forall|j: int| 0 <= j < whole.len() ==> (#[trigger] whole[j]).confidence <= c)
                by {
                assert(forall|j: int| 1 <= j < whole.len() ==> whole[j] == inner[j - 1]);
            }
        }
    } else {
        let whole = seq![x] + s;
        assert(insert_desc(x, s) == whole);
        assert(sorted_desc(whole)) by {
            assert(forall|j: int| 0 <= j < s.len() ==> whole[j + 1] == s[j]);
            assert(whole[0] == x);
            assert forall|i: int, j: int| 0 <= i < j < whole.len() implies whole[i].confidence
                >= whole[j].confidence by {
                if i == 0 && j > 0 {
                    assert(whole[j] == s[j - 1]);
                    if j - 1 > 0 {
                        assert(s[0].confidence >= s[j - 1].confidence);
                    }
                }
            }
        }
        lemma_cons_multiset(x, s);
        assert forall|c: int| all_conf_le(s, c) && x.confidence <= c implies all_conf_le(
            #[trigger] insert_desc(x, s),
            c,
        ) by {
            assert(forall|j: int| 1 <= j < whole.len() ==> whole[j] == s[j - 1]);
        }
    }
}

pub proof fn lemma_sort_desc_props(s: Seq<RefData>)
    ensures
        sorted_desc(sort_desc(s)),
        sort_desc(s).to_multiset() == s.to_multiset(),
        sort_desc(s).len() == s.len(),
        forall|c: int| all_conf_le(s, c) ==> all_conf_le(#[trigger] sort_desc(s), c),
    decreases s.len(),
{
    if s.len() > 0 {
        let rest = s.drop_first();
        lemma_sort_desc_props(rest);
        lemma_insert_desc_sorted(s[0], sort_desc(rest));
        lemma_cons_multiset(s[0], rest);
        assert(seq![s[0]] + rest =~= s);
        assert(s.to_multiset() == rest.to_multiset().insert(s[0]));
        assert forall|c: int| all_conf_le(s, c) implies all_conf_le(
            #[trigger] sort_desc(s),
            c,
        ) by {
            assert(all_conf_le(rest, c)) by {
                assert(forall|i: int| 0 <= i < rest.len() ==> rest[i] == s[i + 1]);
            }
            assert(s[0].confidence <= c);
        }
    } else {
        assert(sort_desc(s) =~= s);
    }
}

/// Stability at the top: when the head of `s` has maximal confidence, it
/// stays first after sorting.
pub proof fn lemma_sort_first_max(s: Seq<RefData>)
    requires
        s.len() > 0,
        all_conf_le(s, s[0].confidence),
    ensures
        sort_desc(s).len() == s.len(),
        sort_desc(s)[0] == s[0],
{
    let rest = s.drop_first();
    lemma_sort_desc_props(rest);
    lemma_sort_desc_props(s);
    assert(all_conf_le(rest, s[0].confidence)) by {
        assert(forall|i: int| 0 <= i < rest.len() ==> rest[i] == s[i + 1]);
    }
    assert(all_conf_le(sort_desc(rest), s[0].confidence));
    let sr = sort_desc(rest);
    if sr.len() == 0 {
        assert(sort_desc(s) == insert_desc(s[0], sr));
    } else {
        assert(sr[0].confidence <= s[0].confidence);
        assert(insert_desc(s[0], sr) == seq![s[0]] + sr);
    }
}

/// Insertion into a sorted vector, before the first element that does not
/// exceed the new confidence.
fn insert_ref(x: FunctionRef, v: &mut Vec<FunctionRef>)
    ensures
        refs_view(final(v)@) == insert_desc(x@, refs_view(old(v)@)),
{
    let ghost s = refs_view(old(v)@);
    let n = v.len();
    let mut j: usize = 0;
    while j < n && v[j].confidence > x.confidence
        invariant
            0 <= j <= n,
            n == v@.len(),
            v@ == old(v)@,
            forall|k: int| 0 <= k < j ==> refs_view(v@)[k].confidence > x@.confidence,
        decreases n - j,
    {
        proof {
            assert(refs_view(v@)[j as int].confidence == v@[j as int]@.confidence);
        }
        j += 1;
    }
    proof {
        if j < n {
            assert(v@[j as int]@.confidence <= x@.confidence);
        }
        lemma_insert_split(x@, s, j as int);
    }
    v.insert(j, x);
    proof {
        assert(refs_view(v@) =~= s.take(j as int) + seq![x@] + s.skip(j as int));
    }
}

proof fn lemma_insert_split(x: RefData, s: Seq<RefData>, j: int)
    requires
        0 <= j <= s.len(),
        forall|k: int| 0 <= k < j ==> s[k].confidence > x.confidence,
        j == s.len() || s[j].confidence <= x.confidence,
    ensures
        insert_desc(x, s) == s.take(j) + seq![x] + s.skip(j),
    decreases j,
{
    if s.len() == 0 {
        assert(insert_desc(x, s) =~= s.take(j) + seq![x] + s.skip(j));
    } else if j == 0 {
        assert(s[0].confidence <= x.confidence);
        assert(insert_desc(x, s) == seq![x] + s);
        assert(seq![x] + s =~= s.take(0) + seq![x] + s.skip(0));
    } else {
        let rest = s.drop_first();
        assert(forall|k: int| 0 <= k < j - 1 ==> rest[k] == s[k + 1]);
        if j - 1 < rest.len() {
            assert(rest[j - 1] == s[j]);
        }
        lemma_insert_split(x, rest, j - 1);
        assert(insert_desc(x, s) == seq![s[0]] + insert_desc(x, rest));
        assert(seq![s[0]] + (rest.take(j - 1) + seq![x] + rest.skip(j - 1)) =~= s.take(j)
            + seq![x] + s.skip(j));
    }
}

/// Sorts by descending confidence, stably.
fn sort_refs(v: Vec<FunctionRef>) -> (r: Vec<FunctionRef>)
    ensures
        refs_view(r@) == sort_desc(refs_view(v@)),
{
    let ghost orig = refs_view(v@);
    let mut src = v;
    let mut out: Vec<FunctionRef> = Vec::new();
    proof {
        assert(refs_view(src@) =~= orig);
    }
    while src.len() > 0
        invariant
            refs_view(out@) == sort_desc(orig.skip(src@.len() as int)),
            orig.skip(src@.len() as int).len() + src@.len() == orig.len(),
            refs_view(src@) =~= orig.take(src@.len() as int),
            src@.len() <= orig.len(),
        decreases src@.len(),
    {
        let ghost before = src@.len() as int;
        let ghost old_src = src@;
        let x = match src.pop() {
            Some(x) => x,
            None => {
                proof {
                    assert(false);
                }
                unreached()
            },
        };
        proof {
            assert(x == old_src.last());
            assert(refs_view(old_src)[before - 1] == old_src[before - 1]@);
            assert(x@ == orig[before - 1]);
            assert(orig.skip(before - 1) == seq![orig[before - 1]] + orig.skip(before)) by {
                assert(orig.skip(before - 1) =~= seq![orig[before - 1]] + orig.skip(before));
            }
            assert(sort_desc(orig.skip(before - 1)) == insert_desc(
                orig[before - 1],
                sort_desc(orig.skip(before)),
            )) by {
                let t = orig.skip(before - 1);
                assert(t[0] == orig[before - 1]);
                assert(t.drop_first() =~= orig.skip(before));
            }
        }
        insert_ref(x, &mut out);
        proof {
            assert(refs_view(src@) =~= orig.take(src@.len() as int));
        }
    }
    proof {
        assert(orig.skip(0) =~= orig);
    }
    out
}

/// The lookup key a candidate is deduplicated by.
pub open spec fn ref_key(r: RefData) -> (Seq<char>, Seq<char>, nat) {
    (r.name, r.file, r.line)
}

/// Whether some element of `s` shares `k`.
pub open spec fn has_key(s: Seq<RefData>, k: (Seq<char>, Seq<char>, nat)) -> bool {
    exists|i: int| 0 <= i < s.len() && ref_key(#[trigger] s[i]) == k
}

/// Keeps the first element of each (name, file, line) key, in order.
pub open spec fn dedup_refs(s: Seq<RefData>, n: nat) -> Seq<RefData>
    decreases n,
{
    if n == 0 {
        Seq::empty()
    } else {
        dedup_refs(s, (n - 1) as nat) + if has_key(s.take(n - 1), ref_key(s[n - 1])) {
            Seq::empty()
        } else {
            seq![s[n - 1]]
        }
    }
}

/// Whether two references share their deduplication key.
fn same_key(a: &FunctionRef, b: &FunctionRef) -> (r: bool)
    ensures
        r == (ref_key(a@) == ref_key(b@)),
{
    let same = eq_str(a.name.as_str(), b.name.as_str()) && eq_str(a.file.as_str(), b.file.as_str())
        && a.line == b.line;
    proof {
        if same {
            assert(ref_key(a@) =~= ref_key(b@));
        }
    }
    same
}

/// Removes duplicates, keeping the first occurrence of each key.
fn dedup_vec(v: Vec<FunctionRef>) -> (r: Vec<FunctionRef>)
    ensures
        refs_view(r@) == dedup_refs(refs_view(v@), v@.len() as nat),
{
    let ghost s = refs_view(v@);
    let n = v.len();
    let mut out: Vec<FunctionRef> = Vec::new();
    let mut i: usize = 0;
    while i < n
        invariant
            0 <= i <= n,
            n == v@.len(),
            s == refs_view(v@),
            refs_view(out@) =~= dedup_refs(s, i as nat),
        decreases n - i,
    {
        let mut seen = false;
        let mut j: usize = 0;
        while j < i
            invariant
                0 <= j <= i < n,
                n == v@.len(),
                s == refs_view(v@),
                seen == (exists|k: int| 0 <= k < j && ref_key(#[trigger] s[k]) == ref_key(
                    s[i as int],
                )),
            decreases i - j,
        {
            if same_key(&v[j], &v[i]) {
                proof {
                    assert(ref_key(s[j as int]) == ref_key(s[i as int]));
                }
                seen = true;
            }
            proof {
                if !seen {
                    assert(forall|k: int|
                        0 <= k < j + 1 ==> ref_key(#[trigger] s[k]) != ref_key(s[i as int]));
                }
            }
            j += 1;
        }
        proof {
            assert(seen == has_key(s.take(i as int), ref_key(s[i as int]))) by {
                if seen {
                    let k = choose|k: int|
                        0 <= k < i && ref_key(#[trigger] s[k]) == ref_key(s[i as int]);
                    assert(s.take(i as int)[k] == s[k]);
                } else {
                    if has_key(s.take(i as int), ref_key(s[i as int])) {
                        let k = choose|k: int|
                            0 <= k < s.take(i as int).len() && ref_key(
                                #[trigger] s.take(i as int)[k],
                            ) == ref_key(s[i as int]);
                        assert(s.take(i as int)[k] == s[k]);
                    }
                }
            }
        }
        if !seen {
            let ghost pre = refs_view(out@);
            let item = v[i].clone_ref();
            out.push(item);
            proof {
                assert(refs_view(out@) =~= pre.push(s[i as int]));
            }
        }
        proof {
            assert(refs_view(out@) =~= dedup_refs(s, (i + 1) as nat));
        }
        i += 1;
    }
    out
}

impl SourceFile {
    /// A field-for-field copy.
    pub fn clone_file(&self) -> (r: SourceFile)
        ensures
            r.path@ == self.path@,
            r.content@ == self.content@,
    {
        SourceFile { path: self.path.clone(), content: self.content.clone() }
    }
}

impl FunctionRef {
    /// A field-for-field copy.
    pub fn clone_ref(&self) -> (r: FunctionRef)
        ensures
            r@ == self@,
    {
        FunctionRef {
            name: self.name.clone(),
            file: self.file.clone(),
            line: self.line,
            signature: self.signature.clone(),
            confidence: self.confidence,
        }
    }
}

/// Keeps at most the first ten entries.
fn truncate_refs(v: &mut Vec<FunctionRef>)
    ensures
        refs_view(final(v)@) == refs_view(old(v)@).take(
            if old(v)@.len() <= 10 {
                old(v)@.len() as int
            } else {
                10
            },
        ),
{
    let ghost s = refs_view(old(v)@);
    while v.len() > 10
        invariant
            v@ =~= old(v)@.take(v@.len() as int),
            v@.len() <= old(v)@.len(),
            old(v)@.len() <= 10 ==> v@.len() == old(v)@.len(),
            old(v)@.len() > 10 ==> v@.len() >= 10,
        decreases v@.len(),
    {
        v.pop();
        proof {
            assert(v@ =~= old(v)@.take(v@.len() as int));
        }
    }
    proof {
        let m: int = if old(v)@.len() <= 10 {
            old(v)@.len() as int
        } else {
            10
        };
        assert(v@.len() == m);
        assert(refs_view(v@) =~= s.take(m));
    }
}

/// Some suffix of whitespace starting at `p0` is followed by `c`: the tail
/// `\s*C` of the fallback patterns.
pub open spec fn tail_ok(line: Seq<char>, p0: int, c: char) -> bool {
    exists|b: int|
        0 <= b && p0 + b < line.len() && (forall|k: int|
            p0 <= k < p0 + b ==> is_ws(#[trigger] line[k])) && #[trigger] line[p0 + b] == c
}

/// `kw`, one or more whitespace characters, then `q`, starting at `i` with
/// `a` whitespace characters between.
pub open spec fn kw_q_at(line: Seq<char>, kw: Seq<char>, q: Seq<char>, i: int, a: int) -> bool {
    &&& 0 <= i
    &&& a >= 1
    &&& i + kw.len() + a + q.len() <= line.len()
    &&& line.subrange(i, i + kw.len()) == kw
    &&& (forall|k: int| i + kw.len() <= k < i + kw.len() + a ==> is_ws(#[trigger] line[k]))
    &&& line.subrange(i + kw.len() + a, i + kw.len() + a + q.len()) == q
}

/// The pattern `kw \s+ q \s* c` occurs in the line.
pub open spec fn match_kw(line: Seq<char>, kw: Seq<char>, q: Seq<char>, c: char) -> bool {
    exists|i: int, a: int|
        #[trigger] kw_q_at(line, kw, q, i, a) && tail_ok(line, i + kw.len() + a + q.len(), c)
}

/// The pattern `q \s* c` occurs in the line.
pub open spec fn match_bare(line: Seq<char>, q: Seq<char>, c: char) -> bool {
    exists|i: int|
        0 <= i && i + q.len() <= line.len() && #[trigger] line.subrange(i, i + q.len()) == q
            && tail_ok(line, i + q.len(), c)
}

/// Whether whitespace from `p0` leads to `c`.
fn tail_check(line: &str, p0: usize, n: usize, c: char) -> (r: bool)
    requires
        n == line@.len(),
        p0 <= n,
        !is_ws(c),
    ensures
        r == tail_ok(line@, p0 as int, c),
{
    let mut p = p0;
    while p < n && is_ws_at_r(line, p)
        invariant
            p0 <= p <= n,
            n == line@.len(),
            forall|k: int| p0 <= k < p ==> is_ws(#[trigger] line@[k]),
        decreases n - p,
    {
        p += 1;
    }
    if p < n && line.get_char(p) == c {
        proof {
            let b = p - p0;
            assert(0 <= b && p0 + b < line@.len() && (forall|k: int|
                p0 <= k < p0 + b ==> is_ws(#[trigger] line@[k])) && line@[p0 as int + b] == c);
        }
        true
    } else {
        proof {
            if tail_ok(line@, p0 as int, c) {
                let b = choose|b: int|
                    0 <= b && p0 + b < line@.len() && (forall|k: int|
                        p0 <= k < p0 + b ==> is_ws(#[trigger] line@[k])) && #[trigger] line@[p0
                        + b] == c;
                if p0 + b < p {
                    assert(is_ws(line@[p0 as int + b]));
                } else if p0 + b == p {
                } else {
                    assert(p < n);
                    assert(is_ws(line@[p as int]));
                }
            }
        }
        false
    }
}

/// Whether the character at `i` is whitespace.
fn is_ws_at_r(s: &str, i: usize) -> (r: bool)
    requires
        i < s@.len(),
    ensures
        r == is_ws(s@[i as int]),
{
    let c = s.get_char(i);
    c == ' ' || c == '\t' || c == '\n' || c == '\r' || c == '\u{b}' || c == '\u{c}'
}

/// Searches the line for `kw \s+ q \s* c`.
fn match_kw_exec(line: &str, kw: &str, q: &str, c: char) -> (r: bool)
    requires
        !is_ws(c),
        kw@.len() >= 1,
    ensures
        r == match_kw(line@, kw@, q@, c),
{
    let n = line.unicode_len();
    let kl = kw.unicode_len();
    let ql = q.unicode_len();
    if kl > n {
        proof {
            if match_kw(line@, kw@, q@, c) {
                let (i2, a2) = choose|i2: int, a2: int|
                    #[trigger] kw_q_at(line@, kw@, q@, i2, a2) && tail_ok(
                        line@,
                        i2 + kw@.len() + a2 + q@.len(),
                        c,
                    );
            }
        }
        return false;
    }
    let mut i: usize = 0;
    while i <= n - kl
        invariant
            0 <= i,
            kl <= n,
            i <= n - kl + 1,
            n == line@.len(),
            kl == kw@.len(),
            ql == q@.len(),
            1 <= kl,
            !is_ws(c),
            forall|i2: int, a: int|
                i2 < i ==> !(#[trigger] kw_q_at(line@, kw@, q@, i2, a) && tail_ok(
                    line@,
                    i2 + kw@.len() + a + q@.len(),
                    c,
                )),
        decreases n - kl - i + 1,
    {
        if crate::text::match_at(line, kw, i, kl) {
            let base = i + kl;
            let mut a: usize = 1;
            while a <= n - base && is_ws_at_r(line, base + a - 1)
                invariant
                    1 <= a,
                    1 <= kl,
                    base == i + kl,
                    base <= n,
                    a <= n - base + 1,
                    n == line@.len(),
                    kl == kw@.len(),
                    ql == q@.len(),
                    !is_ws(c),
                    line@.subrange(i as int, i + kl as int) == kw@,
                    forall|k: int| base <= k < base + a - 1 ==> is_ws(#[trigger] line@[k]),
                    forall|a2: int|
                        1 <= a2 < a ==> !(#[trigger] kw_q_at(line@, kw@, q@, i as int, a2)
                            && tail_ok(line@, i + kw@.len() + a2 + q@.len(), c)),
                decreases n - base - a + 1,
            {
                if ql <= n - (base + a) && crate::text::match_at(line, q, base + a, ql) {
                    if tail_check(line, base + a + ql, n, c) {
                        proof {
                            assert(kw_q_at(line@, kw@, q@, i as int, a as int));
                        }
                        return true;
                    }
                }
                proof {
                    assert(!(kw_q_at(line@, kw@, q@, i as int, a as int) && tail_ok(
                        line@,
                        i + kw@.len() + a + q@.len(),
                        c,
                    ))) by {
                        if kw_q_at(line@, kw@, q@, i as int, a as int) {
                            assert(ql <= n - (base + a));
                        }
                    }
                }
                a += 1;
            }
            proof {
                assert forall|a2: int|
                    true implies !(#[trigger] kw_q_at(line@, kw@, q@, i as int, a2) && tail_ok(
                    line@,
                    i + kw@.len() + a2 + q@.len(),
                    c,
                )) by {
                    if kw_q_at(line@, kw@, q@, i as int, a2) && tail_ok(
                        line@,
                        i + kw@.len() + a2 + q@.len(),
                        c,
                    ) {
                        if a2 >= a {
                            assert(i + kl + a2 + ql <= n);
                            assert(a <= n - base);
                            assert(is_ws(line@[base + a - 1]));
                        } else {
                            assert(1 <= a2 < a);
                        }
                    }
                }
            }
        } else {
            proof {
                assert forall|a2: int|
                    true implies !(#[trigger] kw_q_at(line@, kw@, q@, i as int, a2) && tail_ok(
                    line@,
                    i + kw@.len() + a2 + q@.len(),
                    c,
                )) by {
                    if kw_q_at(line@, kw@, q@, i as int, a2) {
                        assert(line@.subrange(i as int, i + kw@.len()) == kw@);
                    }
                }
            }
        }
        i += 1;
    }
    proof {
        if match_kw(line@, kw@, q@, c) {
            let (i2, a2) = choose|i2: int, a2: int|
                #[trigger] kw_q_at(line@, kw@, q@, i2, a2) && tail_ok(
                    line@,
                    i2 + kw@.len() + a2 + q@.len(),
                    c,
                );
            assert(i2 + kw@.len() + a2 + q@.len() <= line@.len());
            assert(i2 < i);
        }
    }
    false
}

/// Searches the line for `q \s* c`.
fn match_bare_exec(line: &str, q: &str, c: char) -> (r: bool)
    requires
        !is_ws(c),
    ensures
        r == match_bare(line@, q@, c),
{
    let n = line.unicode_len();
    let ql = q.unicode_len();
    if ql > n {
        proof {
            if match_bare(line@, q@, c) {
                let i = choose|i: int|
                    0 <= i && i + q@.len() <= line@.len() && #[trigger] line@.subrange(
                        i,
                        i + q@.len(),
                    ) == q@ && tail_ok(line@, i + q@.len(), c);
            }
        }
        return false;
    }
    if ql == 0 {
        let found = crate::text::contains_char(line, c);
        proof {
            if found {
                let k = choose|k: int| 0 <= k < line@.len() && line@[k] == c;
                assert(line@.subrange(k, k + q@.len()) =~= q@);
                assert(k + 0 < line@.len() && (forall|t: int|
                    k <= t < k + 0 ==> is_ws(#[trigger] line@[t])) && line@[k + 0] == c);
                assert(tail_ok(line@, k + q@.len(), c));
            } else {
                if match_bare(line@, q@, c) {
                    let i = choose|i: int|
                        0 <= i && i + q@.len() <= line@.len() && #[trigger] line@.subrange(
                            i,
                            i + q@.len(),
                        ) == q@ && tail_ok(line@, i + q@.len(), c);
                    let b = choose|b: int|
                        0 <= b && i + q@.len() + b < line@.len() && (forall|k: int|
                            i + q@.len() <= k < i + q@.len() + b ==> is_ws(
                                #[trigger] line@[k],
                            )) && #[trigger] line@[i + q@.len() + b] == c;
                    assert(line@.contains(c)) by {
                        assert(line@[i + q@.len() + b] == c);
                    }
                }
            }
        }
        return found;
    }
    let mut i: usize = 0;
    while i <= n - ql
        invariant
            0 <= i,
            0 < ql <= n,
            i <= n - ql + 1,
            n == line@.len(),
            ql == q@.len(),
            !is_ws(c),
            forall|i2: int|
                0 <= i2 < i ==> !(#[trigger] line@.subrange(i2, i2 + q@.len()) == q@ && tail_ok(
                    line@,
                    i2 + q@.len(),
                    c,
                )),
        decreases n - ql - i + 1,
    {
        if crate::text::match_at(line, q, i, ql) {
            if tail_check(line, i + ql, n, c) {
                return true;
            }
        }
        i += 1;
    }
    proof {
        if match_bare(line@, q@, c) {
            let i2 = choose|i2: int|
                0 <= i2 && i2 + q@.len() <= line@.len() && #[trigger] line@.subrange(
                    i2,
                    i2 + q@.len(),
                ) == q@ && tail_ok(line@, i2 + q@.len(), c);
            assert(i2 < i);
        }
    }
    false
}


/// Whether a line triggers the fallback search for `q`: one of the
/// definition shapes, an assignment shape, or a bare call shape.
pub open spec fn line_matches(line: Seq<char>, q: Seq<char>) -> bool {
    ||| match_kw(line, "def"@, q, '(')
    ||| match_kw(line, "function"@, q, '(')
    ||| match_kw(line, "const"@, q, '=')
    ||| match_kw(line, "let"@, q, '=')
    ||| match_kw(line, "var"@, q, '=')
    ||| match_bare(line, q, '(')
}

/// Confidence of a matched fallback line: definition-shaped lines score 900,
/// lines merely containing the query 600, anything else 300.
pub open spec fn line_conf(line: Seq<char>, q: Seq<char>) -> int {
    if spec_contains(line, "def "@ + q) || spec_contains(line, "function "@ + q) {
        900
    } else if spec_contains(line, q) {
        600
    } else {
        300
    }
}

fn line_matches_exec(line: &str, q: &str) -> (r: bool)
    ensures
        r == line_matches(line@, q@),
{
    proof {
        reveal_strlit("def");
        reveal_strlit("function");
        reveal_strlit("const");
        reveal_strlit("let");
        reveal_strlit("var");
    }
    match_kw_exec(line, "def", q, '(') || match_kw_exec(line, "function", q, '(')
        || match_kw_exec(line, "const", q, '=') || match_kw_exec(line, "let", q, '=')
        || match_kw_exec(line, "var", q, '=') || match_bare_exec(line, q, '(')
}

/// The fallback candidates from the first `n` lines of one file.
pub open spec fn file_refs(
    path: Seq<char>,
    lines: Seq<Seq<char>>,
    q: Seq<char>,
    n: nat,
) -> Seq<RefData>
    decreases n,
{
    if n == 0 {
        Seq::empty()
    } else {
        file_refs(path, lines, q, (n - 1) as nat) + if line_matches(lines[n - 1], q) {
            seq![
                RefData {
                    name: q,
                    file: path,
                    line: n,
                    signature: trim_spec(lines[n - 1]),
                    confidence: line_conf(lines[n - 1], q),
                },
            ]
        } else {
            Seq::empty()
        }
    }
}

/// The fallback candidates from the first `n` files.
pub open spec fn fallback_refs(q: Seq<char>, files: Seq<SourceFile>, n: nat) -> Seq<RefData>
    decreases n,
{
    if n == 0 {
        Seq::empty()
    } else {
        fallback_refs(q, files, (n - 1) as nat) + file_refs(
            files[n - 1].path@,
            spec_lines(files[n - 1].content@),
            q,
            spec_lines(files[n - 1].content@).len(),
        )
    }
}

/// Scans the given files line by line for the fallback patterns.
fn fallback_search(q: &str, files: &Vec<SourceFile>) -> (r: Vec<FunctionRef>)
    ensures
        refs_view(r@) == fallback_refs(q@, files@, files@.len() as nat),
{
    proof {
        reveal_strlit("def ");
        reveal_strlit("function ");
    }
    let mut def_needle = "def ".to_owned();
    def_needle.append(q);
    let mut fun_needle = "function ".to_owned();
    fun_needle.append(q);
    let mut out: Vec<FunctionRef> = Vec::new();
    let nf = files.len();
    let mut fi: usize = 0;
    while fi < nf
        invariant
            0 <= fi <= nf,
            nf == files@.len(),
            def_needle@ == "def "@ + q@,
            fun_needle@ == "function "@ + q@,
            refs_view(out@) =~= fallback_refs(q@, files@, fi as nat),
        decreases nf - fi,
    {
        let file = &files[fi];
        let lines = split_lines(file.content.as_str());
        let ghost lv = spec_lines(file.content@);
        let nl = lines.len();
        let mut li: usize = 0;
        while li < nl
            invariant
                0 <= li <= nl,
                fi < nf,
                nf == files@.len(),
                file == &files@[fi as int],
                def_needle@ == "def "@ + q@,
                fun_needle@ == "function "@ + q@,
                lines.deep_view() == lv,
                lv == spec_lines(files@[fi as int].content@),
                nl == lv.len(),
                refs_view(out@) =~= fallback_refs(q@, files@, fi as nat) + file_refs(
                    files@[fi as int].path@,
                    lv,
                    q@,
                    li as nat,
                ),
            decreases nl - li,
        {
            let line = &lines[li];
            proof {
                assert(line@ == lv[li as int]);
            }
            if line_matches_exec(line.as_str(), q) {
                let conf: i64 = if contains_str(line.as_str(), def_needle.as_str())
                    || contains_str(line.as_str(), fun_needle.as_str()) {
                    900
                } else if contains_str(line.as_str(), q) {
                    600
                } else {
                    300
                };
                let ghost pre = refs_view(out@);
                out.push(
                    FunctionRef {
                        name: q.to_owned(),
                        file: file.path.clone(),
                        line: li + 1,
                        signature: trim_str(line.as_str()),
                        confidence: conf,
                    },
                );
                proof {
                    assert(refs_view(out@) =~= pre.push(
                        RefData {
                            name: q@,
                            file: files@[fi as int].path@,
                            line: (li + 1) as nat,
                            signature: trim_spec(lv[li as int]),
                            confidence: line_conf(lv[li as int], q@),
                        },
                    ));
                }
            }
            proof {
                assert(refs_view(out@) =~= fallback_refs(q@, files@, fi as nat) + file_refs(
                    files@[fi as int].path@,
                    lv,
                    q@,
                    (li + 1) as nat,
                ));
            }
            li += 1;
        }
        proof {
            assert(refs_view(out@) =~= fallback_refs(q@, files@, (fi + 1) as nat));
        }
        fi += 1;
    }
    out
}

/// Sorts, deduplicates and caps a candidate list at ten.
pub open spec fn rank_cap(s: Seq<RefData>) -> Seq<RefData> {
    let d = dedup_refs(sort_desc(s), sort_desc(s).len());
    d.take(
        if d.len() <= 10 {
            d.len() as int
        } else {
            10
        },
    )
}

/// What resolution returns: the ranked graph candidates, or, when the graph
/// yields none, the ranked fallback candidates from the supplied files.
pub open spec fn resolve_spec(
    nodes: Seq<SymbolNode>,
    q: Seq<char>,
    files: Seq<SourceFile>,
) -> Seq<RefData> {
    let c = graph_candidates(nodes, q);
    if c.len() == 0 {
        rank_cap(fallback_refs(q, files, files.len()))
    } else {
        rank_cap(c)
    }
}

/// The multi-strategy resolution engine.
pub struct FunctionResolver {
}

impl FunctionResolver {
    pub fn new() -> (r: FunctionResolver) {
        FunctionResolver {  }
    }

    /// Resolves free text to at most ten ranked, deduplicated references:
    /// the exact and fuzzy graph strategies, with a raw text search over
    /// `files` only when both yield nothing.
    pub fn resolve_function_reference(
        &self,
        query: &str,
        graph: &CodeGraph,
        files: &Vec<SourceFile>,
    ) -> (r: Vec<FunctionRef>)
        ensures
            refs_view(r@) == resolve_spec(graph.nodes(), query@, files@),
            r@.len() <= 10,
    {
        let ghost nodes = graph.nodes();
        let mut cands: Vec<FunctionRef> = Vec::new();
        proof {
            crate::graph::lemma_find_first_named_props(nodes, query@);
        }
        match graph.find_exact(query) {
            Some(i) => {
                let sym = match graph.symbol(i) {
                    Some(s) => s,
                    None => {
                        proof {
                            assert(false);
                        }
                        unreached()
                    },
                };
                cands.push(
                    FunctionRef {
                        name: sym.name,
                        file: sym.file,
                        line: sym.line,
                        signature: sym.signature,
                        confidence: 1000,
                    },
                );
                proof {
                    assert(refs_view(cands@) =~= exact_part(nodes, query@));
                }
            },
            None => {
                proof {
                    assert(refs_view(cands@) =~= exact_part(nodes, query@));
                }
            },
        }
        let n = graph.node_count();
        let mut i: usize = 0;
        while i < n
            invariant
                0 <= i <= n,
                n == nodes.len(),
                nodes == graph.nodes(),
                refs_view(cands@) =~= exact_part(nodes, query@) + fuzzy_part(
                    nodes,
                    query@,
                    i as nat,
                ),
            decreases n - i,
        {
            let sym = match graph.symbol(i) {
                Some(s) => s,
                None => {
                    proof {
                        assert(false);
                    }
                    unreached()
                },
            };
            proof {
                assert(sym == nodes[i as int]);
            }
            let ghost pre = refs_view(cands@);
            if contains_str(sym.name.as_str(), query) {
                match fuzzy_match(sym.name.as_str(), query) {
                    Some(sc) => {
                        if sc > 30 {
                            let conf = conf_of_score_exec(sc);
                            cands.push(
                                FunctionRef {
                                    name: sym.name,
                                    file: sym.file,
                                    line: sym.line,
                                    signature: sym.signature,
                                    confidence: conf,
                                },
                            );
                            proof {
                                assert(refs_view(cands@) =~= pre.push(
                                    ref_of(nodes[i as int]@, conf_of_score(sc)),
                                ));
                            }
                        }
                    },
                    None => {},
                }
            }
            proof {
                assert(refs_view(cands@) =~= exact_part(nodes, query@) + fuzzy_part(
                    nodes,
                    query@,
                    (i + 1) as nat,
                ));
            }
            i += 1;
        }
        proof {
            assert(refs_view(cands@) =~= graph_candidates(nodes, query@));
        }
        let picked = if cands.is_empty() {
            proof {
                assert(graph_candidates(nodes, query@).len() == 0);
            }
            fallback_search(query, files)
        } else {
            cands
        };
        let sorted = sort_refs(picked);
        let mut result = dedup_vec(sorted);
        truncate_refs(&mut result);
        proof {
            assert(refs_view(result@) =~= resolve_spec(nodes, query@, files@));
            assert(refs_view(result@).len() == result@.len());
        }
        result
    }

    /// Lists every symbol under `scope` (component-wise), optionally
    /// filtered by a pattern (substring or any fuzzy match), at confidence
    /// 1000.
    pub fn find_functions_in_scope(
        &self,
        graph: &CodeGraph,
        scope: &str,
        pattern: Option<&str>,
    ) -> (r: Vec<FunctionRef>)
        ensures
            refs_view(r@) == scope_refs(
                graph.nodes(),
                scope@,
                match pattern {
                    Some(p) => Some(p@),
                    None => None,
                },
                graph.nodes().len(),
            ),
    {
        let ghost nodes = graph.nodes();
        let ghost pv: Option<Seq<char>> = match pattern {
            Some(p) => Some(p@),
            None => None,
        };
        let n = graph.node_count();
        let mut out: Vec<FunctionRef> = Vec::new();
        let mut i: usize = 0;
        while i < n
            invariant
                0 <= i <= n,
                n == nodes.len(),
                nodes == graph.nodes(),
                pv == (match pattern {
                    Some(p) => Some(p@),
                    None => None::<Seq<char>>,
                }),
                refs_view(out@) =~= scope_refs(nodes, scope@, pv, i as nat),
            decreases n - i,
        {
            let sym = match graph.symbol(i) {
                Some(s) => s,
                None => {
                    proof {
                        assert(false);
                    }
                    unreached()
                },
            };
            proof {
                assert(sym == nodes[i as int]);
            }
            let ghost pre = refs_view(out@);
            if crate::paths::path_starts_with(sym.file.as_str(), scope) {
                let keep = match pattern {
                    Some(p) => contains_str(sym.name.as_str(), p) || fuzzy_match(
                        sym.name.as_str(),
                        p,
                    ).is_some(),
                    None => true,
                };
                if keep {
                    out.push(
                        FunctionRef {
                            name: sym.name,
                            file: sym.file,
                            line: sym.line,
                            signature: sym.signature,
                            confidence: 1000,
                        },
                    );
                    proof {
                        assert(refs_view(out@) =~= pre.push(ref_of(nodes[i as int]@, 1000)));
                    }
                }
            }
            proof {
                assert(refs_view(out@) =~= scope_refs(nodes, scope@, pv, (i + 1) as nat));
            }
            i += 1;
        }
        out
    }

    /// Multiplies each candidate's confidence by `1 + 0.1 * callerCount`
    /// (in thousandths, flooring), where the caller count is that of the
    /// last-inserted symbol sharing the candidate's name, then re-sorts.
    /// Confidence may exceed 1000 afterwards.
    pub fn rank_by_popularity(&self, candidates: &mut Vec<FunctionRef>, graph: &CodeGraph)
        requires
            graph.wf(),
        ensures
            refs_view(final(candidates)@) == sort_desc(
                boosted_refs(
                    refs_view(old(candidates)@),
                    graph.nodes(),
                    graph.edges(),
                    old(candidates)@.len() as nat,
                ),
            ),
    {
        let ghost nodes = graph.nodes();
        let ghost edges = graph.edges();
        let ghost orig = refs_view(candidates@);
        let n = candidates.len();
        let mut boosted: Vec<FunctionRef> = Vec::new();
        let mut i: usize = 0;
        while i < n
            invariant
                0 <= i <= n,
                n == candidates@.len(),
                nodes == graph.nodes(),
                edges == graph.edges(),
                graph.wf(),
                orig == refs_view(candidates@),
                refs_view(boosted@) =~= boosted_refs(orig, nodes, edges, i as nat),
            decreases n - i,
        {
            let cand = candidates[i].clone_ref();
            proof {
                assert(cand@ == orig[i as int]);
            }
            let new_conf = match last_named_exec(graph, cand.name.as_str()) {
                Some(idx) => {
                    let callers = graph.get_callers(idx);
                    let cnt = callers.len();
                    proof {
                        assert(callers@ == crate::graph::rev_sources(edges, idx));
                    }
                    boost_conf_exec(cand.confidence, cnt)
                },
                None => cand.confidence,
            };
            let ghost pre = refs_view(boosted@);
            boosted.push(
                FunctionRef {
                    name: cand.name,
                    file: cand.file,
                    line: cand.line,
                    signature: cand.signature,
                    confidence: new_conf,
                },
            );
            proof {
                assert(refs_view(boosted@) =~= pre.push(
                    boost_ref(orig[i as int], nodes, edges),
                ));
                assert(refs_view(boosted@) =~= boosted_refs(orig, nodes, edges, (i + 1) as nat));
            }
            i += 1;
        }
        let sorted = sort_refs(boosted);
        *candidates = sorted;
    }
}

/// The in-scope listing of the first `n` symbols.
pub open spec fn scope_refs(
    nodes: Seq<SymbolNode>,
    scope: Seq<char>,
    pattern: Option<Seq<char>>,
    n: nat,
) -> Seq<RefData>
    decreases n,
{
    if n == 0 {
        Seq::empty()
    } else {
        scope_refs(nodes, scope, pattern, (n - 1) as nat) + ({
            let s = nodes[n - 1]@;
            if crate::paths::spec_path_starts_with(s.file, scope) && (match pattern {
                Some(p) => spec_contains(s.name, p) || fuzzy_score(s.name, p) is Some,
                None => true,
            }) {
                seq![ref_of(s, 1000)]
            } else {
                Seq::empty()
            }
        })
    }
}

/// Index of the last-inserted symbol named `name`, if any.
pub open spec fn last_named(nodes: Seq<SymbolNode>, name: Seq<char>) -> Option<int>
    decreases nodes.len(),
{
    if nodes.len() == 0 {
        None
    } else if nodes.last()@.name == name {
        Some(nodes.len() - 1)
    } else {
        last_named(nodes.drop_last(), name)
    }
}

proof fn lemma_last_named_unique(nodes: Seq<SymbolNode>, name: Seq<char>, i: int)
    requires
        0 <= i < nodes.len(),
        nodes[i]@.name == name,
        forall|k: int| i < k < nodes.len() ==> (#[trigger] nodes[k])@.name != name,
    ensures
        last_named(nodes, name) == Some(i),
    decreases nodes.len(),
{
    if i == nodes.len() - 1 {
    } else {
        let t = nodes.drop_last();
        lemma_last_named_unique(t, name, i);
    }
}

proof fn lemma_last_named_none(nodes: Seq<SymbolNode>, name: Seq<char>)
    requires
        forall|k: int| 0 <= k < nodes.len() ==> (#[trigger] nodes[k])@.name != name,
    ensures
        last_named(nodes, name) is None,
    decreases nodes.len(),
{
    if nodes.len() > 0 {
        lemma_last_named_none(nodes.drop_last(), name);
    }
}

/// Index of the last-inserted symbol named `name`, scanning backwards.
fn last_named_exec(graph: &CodeGraph, name: &str) -> (r: Option<usize>)
    ensures
        match r {
            Some(i) => last_named(graph.nodes(), name@) == Some(i as int) && i
                < graph.nodes().len(),
            None => last_named(graph.nodes(), name@) is None,
        },
{
    let n = graph.node_count();
    let mut j = n;
    while j > 0
        invariant
            0 <= j <= n,
            n == graph.nodes().len(),
            forall|k: int| j <= k < n ==> (#[trigger] graph.nodes()[k])@.name != name@,
        decreases j,
    {
        let sym = match graph.symbol(j - 1) {
            Some(s) => s,
            None => {
                proof {
                    assert(false);
                }
                unreached()
            },
        };
        if eq_str(sym.name.as_str(), name) {
            proof {
                lemma_last_named_unique(graph.nodes(), name@, j - 1);
            }
            return Some(j - 1);
        }
        j -= 1;
    }
    proof {
        lemma_last_named_none(graph.nodes(), name@);
    }
    None
}

/// A confidence multiplied by `(10 + count) / 10`, flooring, saturating at
/// the integer limit; non-positive confidences pass through unchanged.
pub open spec fn boost_conf(conf: int, cnt: nat) -> int {
    if conf <= 0 {
        conf
    } else if conf * (10 + cnt) / 10 <= i64::MAX {
        conf * (10 + cnt) / 10
    } else {
        i64::MAX as int
    }
}

fn boost_conf_exec(conf: i64, cnt: usize) -> (r: i64)
    ensures
        r as int == boost_conf(conf as int, cnt as nat),
{
    if conf <= 0 {
        return conf;
    }
    proof {
        assert((conf as int) * (10 + cnt as int) <= u128::MAX) by (nonlinear_arith)
            requires
                0 < conf <= i64::MAX,
                cnt <= usize::MAX,
        ;
    }
    let f: u128 = (conf as u128) * (10u128 + (cnt as u128));
    let d: u128 = f / 10;
    proof {
        assert(f == (conf as int) * (10 + cnt as int)) by (nonlinear_arith)
            requires
                conf > 0,
                f == (conf as u128) * (10u128 + (cnt as u128)),
        ;
        assert(d == f as int / 10);
    }
    if d <= i64::MAX as u128 {
        d as i64
    } else {
        i64::MAX
    }
}

/// The boosted form of one candidate.
pub open spec fn boost_ref(
    r: RefData,
    nodes: Seq<SymbolNode>,
    edges: Seq<(usize, usize, crate::graph::RelationEdge)>,
) -> RefData {
    match last_named(nodes, r.name) {
        Some(i) => RefData {
            confidence: boost_conf(
                r.confidence,
                crate::graph::rev_sources(edges, i as usize).len(),
            ),
            ..r
        },
        None => r,
    }
}

/// The first `n` candidates, each boosted by its popularity.
pub open spec fn boosted_refs(
    s: Seq<RefData>,
    nodes: Seq<SymbolNode>,
    edges: Seq<(usize, usize, crate::graph::RelationEdge)>,
    n: nat,
) -> Seq<RefData>
    decreases n,
{
    if n == 0 {
        Seq::empty()
    } else {
        boosted_refs(s, nodes, edges, (n - 1) as nat).push(boost_ref(s[n - 1], nodes, edges))
    }
}

/// Resolution never returns more than ten candidates.
pub proof fn lemma_resolve_capped(nodes: Seq<SymbolNode>, q: Seq<char>, files: Seq<SourceFile>)
    ensures
        resolve_spec(nodes, q, files).len() <= 10,
{
}

proof fn lemma_fuzzy_part_le(nodes: Seq<SymbolNode>, q: Seq<char>, n: nat)
    requires
        n <= nodes.len(),
    ensures
        all_conf_le(fuzzy_part(nodes, q, n), 1000),
    decreases n,
{
    if n > 0 {
        lemma_fuzzy_part_le(nodes, q, (n - 1) as nat);
        let prev = fuzzy_part(nodes, q, (n - 1) as nat);
        let whole = fuzzy_part(nodes, q, n);
        assert forall|i: int| 0 <= i < whole.len() implies (#[trigger] whole[i]).confidence
            <= 1000 by {
            if i < prev.len() {
                assert(whole[i] == prev[i]);
            } else {
                assert(nodes[n - 1] == nodes[n - 1]);
            }
        }
    }
}

proof fn lemma_dedup_members(s: Seq<RefData>, n: nat)
    requires
        n <= s.len(),
    ensures
        forall|k: int|
            0 <= k < dedup_refs(s, n).len() ==> exists|i: int|
                0 <= i < n && s[i] == #[trigger] dedup_refs(s, n)[k],
    decreases n,
{
    if n > 0 {
        lemma_dedup_members(s, (n - 1) as nat);
        let prev = dedup_refs(s, (n - 1) as nat);
        let whole = dedup_refs(s, n);
        assert forall|k: int| 0 <= k < whole.len() implies exists|i: int|
            0 <= i < n && s[i] == #[trigger] whole[k] by {
            if k < prev.len() {
                assert(whole[k] == prev[k]);
                let i = choose|i: int| 0 <= i < n - 1 && s[i] == prev[k];
                assert(s[i] == whole[k]);
            } else {
                assert(whole[k] == s[n - 1]);
            }
        }
    }
}

/// No two kept entries share a deduplication key.
proof fn lemma_dedup_distinct(s: Seq<RefData>, n: nat)
    requires
        n <= s.len(),
    ensures
        forall|a: int, b: int|
            0 <= a < b < dedup_refs(s, n).len() ==> ref_key(#[trigger] dedup_refs(s, n)[a])
                != ref_key(#[trigger] dedup_refs(s, n)[b]),
    decreases n,
{
    if n > 0 {
        lemma_dedup_distinct(s, (n - 1) as nat);
        lemma_dedup_members(s, (n - 1) as nat);
        let prev = dedup_refs(s, (n - 1) as nat);
        let whole = dedup_refs(s, n);
        assert forall|a: int, b: int|
            0 <= a < b < whole.len() implies ref_key(#[trigger] whole[a]) != ref_key(
            #[trigger] whole[b],
        ) by {
            if b < prev.len() {
                assert(whole[a] == prev[a] && whole[b] == prev[b]);
            } else if whole.len() > prev.len() {
                assert(whole[b] == s[n - 1]);
                assert(whole[a] == prev[a]);
                assert(!has_key(s.take(n - 1), ref_key(s[n - 1])));
                let i = choose|i: int| 0 <= i < n - 1 && s[i] == prev[a];
                assert(s.take(n - 1)[i] == s[i]);
                if ref_key(prev[a]) == ref_key(s[n - 1]) {
                    assert(has_key(s.take(n - 1), ref_key(s[n - 1])));
                }
            }
        }
    }
}

proof fn lemma_dedup_first(s: Seq<RefData>, n: nat)
    requires
        1 <= n <= s.len(),
    ensures
        dedup_refs(s, n).len() >= 1,
        dedup_refs(s, n)[0] == s[0],
    decreases n,
{
    if n == 1 {
        assert(!has_key(s.take(0), ref_key(s[0])));
        assert(dedup_refs(s, 0nat) =~= Seq::<RefData>::empty());
        assert(dedup_refs(s, 1) =~= dedup_refs(s, 0nat) + seq![s[0]]);
    } else {
        lemma_dedup_first(s, (n - 1) as nat);
    }
}

/// When an exact-name match exists, resolution ranks it first, at
/// confidence 1000, regardless of the fuzzy candidates present: a fuzzy
/// confidence never exceeds certainty, and the stable sort keeps the exact
/// candidate ahead of equal scores.
pub proof fn lemma_exact_match_ranks_first(
    nodes: Seq<SymbolNode>,
    q: Seq<char>,
    files: Seq<SourceFile>,
)
    requires
        find_first_named(nodes, q) is Some,
    ensures
        resolve_spec(nodes, q, files).len() >= 1,
        resolve_spec(nodes, q, files)[0] == ref_of(
            nodes[find_first_named(nodes, q).unwrap()]@,
            1000,
        ),
        resolve_spec(nodes, q, files)[0].confidence == 1000,
        resolve_spec(nodes, q, files)[0].name == q,
        forall|k: int|
            1 <= k < resolve_spec(nodes, q, files).len() ==> ref_key(
                #[trigger] resolve_spec(nodes, q, files)[k],
            ) != ref_key(resolve_spec(nodes, q, files)[0]),
{
    crate::graph::lemma_find_first_named_props(nodes, q);
    let c = graph_candidates(nodes, q);
    let ex = ref_of(nodes[find_first_named(nodes, q).unwrap()]@, 1000);
    assert(exact_part(nodes, q) == seq![ex]);
    assert(c[0] == ex);
    assert(c.len() >= 1);
    lemma_fuzzy_part_le(nodes, q, nodes.len());
    assert(all_conf_le(c, 1000)) by {
        let fz = fuzzy_part(nodes, q, nodes.len());
        assert forall|i: int| 0 <= i < c.len() implies (#[trigger] c[i]).confidence <= 1000 by {
            if i >= 1 {
                assert(c[i] == fz[i - 1]);
            }
        }
    }
    lemma_sort_first_max(c);
    let sc = sort_desc(c);
    lemma_dedup_first(sc, sc.len() as nat);
    lemma_dedup_distinct(sc, sc.len() as nat);
    let d = dedup_refs(sc, sc.len());
    let m: int = if d.len() <= 10 {
        d.len() as int
    } else {
        10
    };
    assert(d.take(m)[0] == d[0]);
    assert forall|k: int| 1 <= k < resolve_spec(nodes, q, files).len() implies ref_key(
        #[trigger] resolve_spec(nodes, q, files)[k],
    ) != ref_key(resolve_spec(nodes, q, files)[0]) by {
        assert(resolve_spec(nodes, q, files)[k] == d[k]);
    }
}

} // verus!
