//! Ranking of application names against a query fragment.
//!
//! A name matches when its lower-case form contains the lower-case query. A
//! match is scored by where it starts: a match at the very start of the name
//! gets the top score, and a later start divides that score by its distance
//! from the start. Results come out by descending score; equal scores keep
//! the order of the index.

use vstd::prelude::*;
use crate::state::{ApplicationInfo, names_of};
use crate::text::{each_text, find, first_occurrence, lowercase, lowercase_chars};

verus! {

/// Score of a name that begins with the query.
pub const TOP_SCORE: u128 = 0xffff_ffff_ffff_ffff_ffff_ffff_ffff_ffff;

/// Where the query first stands in the name, case ignored.
pub open spec fn match_offset(name: Seq<char>, query: Seq<char>) -> Option<int> {
    first_occurrence(lowercase(name), lowercase(query))
}

/// Score of a match that starts `offset` characters into the name.
pub open spec fn score_at(offset: int) -> int {
    TOP_SCORE as int / (offset + 1)
}

/// Score of `name` against `query`; meaningful only when the name matches.
pub open spec fn relevance(name: Seq<char>, query: Seq<char>) -> int {
    score_at(match_offset(name, query)->0)
}

/// Record `a` is listed before record `b`: higher score first, and on equal
/// scores the one that stands earlier in the index.
pub open spec fn ranks_before(names: Seq<Seq<char>>, query: Seq<char>, a: int, b: int) -> bool {
    ||| relevance(names[a], query) > relevance(names[b], query)
    ||| (relevance(names[a], query) == relevance(names[b], query) && a < b)
}

/// `order` lists exactly the positions of the matching names, best first.
pub open spec fn is_ranking(names: Seq<Seq<char>>, query: Seq<char>, order: Seq<usize>) -> bool {
    &&& forall|p: int|
        0 <= p < order.len() ==> 0 <= #[trigger] order[p] < names.len() && match_offset(
            names[order[p] as int],
            query,
        ) is Some
    &&& forall|i: int|
        0 <= i < names.len() && (#[trigger] match_offset(names[i], query)) is Some ==> exists|
            p: int,
        |
            0 <= p < order.len() && #[trigger] order[p] == i
    &&& forall|a: int, b: int|
        0 <= a < b < order.len() ==> ranks_before(
            names,
            query,
            #[trigger] order[a] as int,
            #[trigger] order[b] as int,
        )
}

/// Every position of the index, in index order.
pub open spec fn identity_order(n: nat) -> Seq<usize> {
    Seq::new(n, |i: int| i as usize)
}

/// The score that goes with a match offset.
pub fn score_of_offset(offset: usize) -> (s: u128)
    ensures
        s == score_at(offset as int),
        s >= 1,
{
    let divisor: u128 = offset as u128 + 1;
    let s: u128 = TOP_SCORE / divisor;
    assert(s >= 1) by (nonlinear_arith)
        requires
            s == 0xffff_ffff_ffff_ffff_ffff_ffff_ffff_ffffint / (divisor as int),
            1 <= divisor <= 0x1_0000_0000_0000_0000,
    ;
    s
}

/// A match that starts earlier scores strictly higher, for every offset
/// that a stored string can have.
pub proof fn lemma_score_strictly_decreasing(a: int, b: int)
    requires
        0 <= a < b <= usize::MAX,
    ensures
        score_at(a) > score_at(b),
{
    let k: int = 0xffff_ffff_ffff_ffff_ffff_ffff_ffff_ffffint;
    let x = a + 1;
    let y = b + 1;
    let q = k / y;
    assert(y <= 0x1_0000_0000_0000_0000int);
    assert(q >= x && q * y <= k) by (nonlinear_arith)
        requires
            q == k / y,
            k == 0xffff_ffff_ffff_ffff_ffff_ffff_ffff_ffffint,
            1 <= x < y <= 0x1_0000_0000_0000_0000int,
    ;
    assert((q + 1) * x <= k) by (nonlinear_arith)
        requires
            q >= x,
            q * y <= k,
            1 <= x < y,
    ;
    assert(k / x >= q + 1) by (nonlinear_arith)
        requires
            (q + 1) * x <= k,
            x >= 1,
    ;
}

/// A match at the very start of a name scores above every match that starts later.
pub proof fn lemma_prefix_scores_highest(offset: int)
    requires
        offset > 0,
    ensures
        score_at(0) == TOP_SCORE,
        score_at(offset) < TOP_SCORE,
{
    let k: int = 0xffff_ffff_ffff_ffff_ffff_ffff_ffff_ffffint;
    assert(k / (offset + 1) < k) by (nonlinear_arith)
        requires
            k == 0xffff_ffff_ffff_ffff_ffff_ffff_ffff_ffffint,
            offset > 0,
    ;
}

/// Of two listed records, the one whose match starts earlier is listed first.
pub proof fn lemma_earlier_match_ranks_first(
    names: Seq<Seq<char>>,
    query: Seq<char>,
    order: Seq<usize>,
    pa: int,
    pb: int,
)
    requires
        is_ranking(names, query, order),
        0 <= pa < order.len(),
        0 <= pb < order.len(),
        match_offset(names[order[pa] as int], query)->0 < match_offset(
            names[order[pb] as int],
            query,
        )->0,
        match_offset(names[order[pb] as int], query)->0 <= usize::MAX,
    ensures
        pa < pb,
{
    let oa = match_offset(names[order[pa] as int], query);
    let ob = match_offset(names[order[pb] as int], query);
    assert(oa is Some && ob is Some);
    assert(oa->0 >= 0) by {
        crate::text::lemma_first_occurrence_some(
            lowercase(names[order[pa] as int]),
            lowercase(query),
        );
    }
    lemma_score_strictly_decreasing(oa->0, ob->0);
    if pb < pa {
        assert(ranks_before(names, query, order[pb] as int, order[pa] as int));
    }
}

/// A listed record whose name begins with the query stands before every
/// listed record that only contains the query further in.
pub proof fn lemma_prefix_match_ranks_first(
    names: Seq<Seq<char>>,
    query: Seq<char>,
    order: Seq<usize>,
    pa: int,
    pb: int,
)
    requires
        is_ranking(names, query, order),
        0 <= pa < order.len(),
        0 <= pb < order.len(),
        crate::text::starts_with(lowercase(names[order[pa] as int]), lowercase(query)),
        !crate::text::starts_with(lowercase(names[order[pb] as int]), lowercase(query)),
    ensures
        pa < pb,
{
    let na = lowercase(names[order[pa] as int]);
    let nb = lowercase(names[order[pb] as int]);
    let q = lowercase(query);
    assert(match_offset(names[order[pb] as int], query) is Some);
    crate::text::lemma_first_occurrence_is(na, q, 0);
    crate::text::lemma_first_occurrence_some(nb, q);
    let ob = first_occurrence(nb, q)->0;
    assert(ob > 0);
    lemma_prefix_scores_highest(ob);
    if pb < pa {
        assert(ranks_before(names, query, order[pb] as int, order[pa] as int));
    }
}

/// Score of a text in which `needle` stands; meaningful only when it does.
pub open spec fn text_score(text: Seq<char>, needle: Seq<char>) -> int {
    score_at(first_occurrence(text, needle)->0)
}

/// Text `a` is listed before text `b`: higher score first, and on equal
/// scores the one that stands earlier in the list.
pub open spec fn comes_before(texts: Seq<Seq<char>>, needle: Seq<char>, a: int, b: int) -> bool {
    ||| text_score(texts[a], needle) > text_score(texts[b], needle)
    ||| (text_score(texts[a], needle) == text_score(texts[b], needle) && a < b)
}

/// `order` lists exactly the positions of the texts in which `needle`
/// stands, best first.
pub open spec fn is_order_of(texts: Seq<Seq<char>>, needle: Seq<char>, order: Seq<usize>) -> bool {
    &&& forall|p: int|
        0 <= p < order.len() ==> 0 <= #[trigger] order[p] < texts.len() && first_occurrence(
            texts[order[p] as int],
            needle,
        ) is Some
    &&& forall|i: int|
        0 <= i < texts.len() && (#[trigger] first_occurrence(texts[i], needle)) is Some ==> exists|
            p: int,
        |
            0 <= p < order.len() && #[trigger] order[p] == i
    &&& forall|a: int, b: int|
        0 <= a < b < order.len() ==> comes_before(
            texts,
            needle,
            #[trigger] order[a] as int,
            #[trigger] order[b] as int,
        )
}

/// The positions of the texts in which `needle` stands, best match first:
/// by descending score, and on equal scores in the order of the list. Case
/// plays no part here: the texts are taken as they are.
pub fn rank(texts: &Vec<Vec<char>>, needle: &Vec<char>) -> (order: Vec<usize>)
    ensures
        is_order_of(each_text(texts@), needle@, order@),
{
    let n: usize = texts.len();
    let ghost shown = each_text(texts@);
    let mut order: Vec<usize> = Vec::new();
    let mut scores: Vec<u128> = Vec::new();
    let mut i: usize = 0;
    while i < n
        invariant
            i <= n,
            n == texts.len(),
            shown == each_text(texts@),
            scores.len() == order.len(),
            forall|p: int|
                0 <= p < order.len() ==> 0 <= #[trigger] order[p] < i && first_occurrence(
                    shown[order[p] as int],
                    needle@,
                ) is Some && scores[p] == text_score(shown[order[p] as int], needle@),
            forall|k: int|
                0 <= k < i && (#[trigger] first_occurrence(shown[k], needle@)) is Some ==> exists|
                    p: int,
                |
                    0 <= p < order.len() && #[trigger] order[p] == k,
            forall|a: int, b: int|
                0 <= a < b < order.len() ==> comes_before(
                    shown,
                    needle@,
                    #[trigger] order[a] as int,
                    #[trigger] order[b] as int,
                ),
        decreases n - i,
    {
        assert(shown[i as int] == texts@[i as int]@);
        match find(&texts[i], needle) {
            Some(offset) => {
                let score = score_of_offset(offset);
                let mut at: usize = 0;
                while at < scores.len() && scores[at] >= score
                    invariant
                        at <= scores.len(),
                        forall|p: int| 0 <= p < at ==> scores[p] >= score,
                    decreases scores.len() - at,
                {
                    at += 1;
                }
                let ghost old_order = order@;
                let ghost old_scores = scores@;
                order.insert(at, i);
                scores.insert(at, score);
                proof {
                    assert forall|k: int|
                        0 <= k < i + 1 && (#[trigger] first_occurrence(shown[k], needle@))
                            is Some implies exists|p: int|
                        0 <= p < order.len() && #[trigger] order[p] == k by {
                        if k < i {
                            let was = choose|p: int|
                                0 <= p < old_order.len() && #[trigger] old_order[p] == k;
                            if was < at {
                                assert(order[was] == k);
                            } else {
                                assert(order[was + 1] == k);
                            }
                        } else {
                            assert(order[at as int] == k);
                        }
                    }
                    assert forall|a: int, b: int| 0 <= a < b < order.len() implies comes_before(
                        shown,
                        needle@,
                        #[trigger] order[a] as int,
                        #[trigger] order[b] as int,
                    ) by {
                        let oa = if a < at { a } else { a - 1 };
                        let ob = if b < at { b } else { b - 1 };
                        if a != at && b != at {
                            assert(comes_before(
                                shown,
                                needle@,
                                old_order[oa] as int,
                                old_order[ob] as int,
                            ));
                        } else if b == at {
                            assert(old_scores[a] >= score);
                            assert(old_order[a] < i);
                        } else {
                            assert(old_scores[at as int] < score);
                            if ob > at {
                                assert(comes_before(
                                    shown,
                                    needle@,
                                    old_order[at as int] as int,
                                    old_order[ob] as int,
                                ));
                            }
                        }
                    }
                }
            },
            None => {},
        }
        i += 1;
    }
    order
}

/// A ranking of texts in their lower-case form against the lower-case form
/// of a query is the ranking of the names against the query.
pub proof fn lemma_order_of_lowered_is_ranking(
    names: Seq<Seq<char>>,
    query: Seq<char>,
    texts: Seq<Seq<char>>,
    order: Seq<usize>,
)
    requires
        texts.len() == names.len(),
        forall|i: int| 0 <= i < names.len() ==> #[trigger] texts[i] == lowercase(names[i]),
        is_order_of(texts, lowercase(query), order),
    ensures
        is_ranking(names, query, order),
{
    let needle = lowercase(query);
    assert forall|p: int| 0 <= p < order.len() implies 0 <= #[trigger] order[p] < names.len()
        && match_offset(names[order[p] as int], query) is Some by {
        assert(texts[order[p] as int] == lowercase(names[order[p] as int]));
    }
    assert forall|i: int|
        0 <= i < names.len() && (#[trigger] match_offset(names[i], query)) is Some implies exists|
        p: int,
    |
        0 <= p < order.len() && #[trigger] order[p] == i by {
        assert(texts[i] == lowercase(names[i]));
        assert(first_occurrence(texts[i], needle) is Some);
    }
    assert forall|a: int, b: int| 0 <= a < b < order.len() implies ranks_before(
        names,
        query,
        #[trigger] order[a] as int,
        #[trigger] order[b] as int,
    ) by {
        assert(comes_before(texts, needle, order[a] as int, order[b] as int));
        assert(texts[order[a] as int] == lowercase(names[order[a] as int]));
        assert(texts[order[b] as int] == lowercase(names[order[b] as int]));
    }
}

/// The ranking engine. It keeps nothing between calls: every search is a
/// clean pass over the records it is given.
pub struct FuzzyMatcher {}

impl Default for FuzzyMatcher {
    fn default() -> (matcher: Self)
        ensures
            matcher == (FuzzyMatcher {  }),
    {
        FuzzyMatcher::new()
    }
}

impl FuzzyMatcher {
    /// A ranking engine.
    pub fn new() -> (matcher: Self)
        ensures
            matcher == (FuzzyMatcher {  }),
    {
        FuzzyMatcher {  }
    }

    /// Positions of the records that match `query`, best match first.
    ///
    /// An empty query matches everything and keeps the order of the index.
    /// Otherwise names and query are put into lower case and ranked as by
    /// `rank`.
    pub fn search(&mut self, query: &str, apps: &[ApplicationInfo]) -> (order: Vec<usize>)
        ensures
            query@.len() == 0 ==> order@ == identity_order(apps@.len()),
            query@.len() > 0 ==> is_ranking(names_of(apps@), query@, order@),
    {
        let n: usize = apps.len();
        if query.unicode_len() == 0 {
            let mut order: Vec<usize> = Vec::new();
            let mut i: usize = 0;
            while i < n
                invariant
                    i <= n,
                    n == apps@.len(),
                    order@ == identity_order(i as nat),
                decreases n - i,
            {
                order.push(i);
                i += 1;
                assert(order@ =~= identity_order(i as nat));
            }
            return order;
        }
        let needle = lowercase_chars(query);
        let mut lowered: Vec<Vec<char>> = Vec::new();
        let mut i: usize = 0;
        while i < n
            invariant
                i <= n,
                n == apps@.len(),
                lowered.len() == i,
                forall|j: int| 0 <= j < i ==> (#[trigger] lowered@[j])@ == lowercase(apps@[j].name@),
            decreases n - i,
        {
            lowered.push(lowercase_chars(apps[i].name.as_str()));
            i += 1;
        }
        let order = rank(&lowered, &needle);
        proof {
            let names = names_of(apps@);
            let texts = each_text(lowered@);
            assert forall|j: int| 0 <= j < names.len() implies #[trigger] texts[j] == lowercase(
                names[j],
            ) by {
                assert(texts[j] == lowered@[j]@);
            }
            lemma_order_of_lowered_is_ranking(names, query@, texts, order@);
        }
        order
    }
}

} // verus!
