use vstd::prelude::*;
use fuzzy_matcher::FuzzyMatcher;

verus! {

/// What the skim matcher (`SkimMatcherV2` with its default settings) reports for a pattern
/// against a text: a score where the pattern matches, `None` where it does not.
pub uninterp spec fn skim_match(choice: Seq<char>, pattern: Seq<char>) -> Option<i64>;

/// Relies on `fuzzy_matcher::skim::SkimMatcherV2::fuzzy_match` (default matcher): the outcome
/// depends on the two texts alone, and an empty pattern scores 0.
#[verifier::external_body]
fn skim_fuzzy_match(choice: &str, pattern: &str) -> (r: Option<i64>)
    ensures
        r == skim_match(choice@, pattern@),
        pattern@.len() == 0 ==> r == Some(0i64),
{
    fuzzy_matcher::skim::SkimMatcherV2::default().fuzzy_match(choice, pattern)
}

/// A matcher outcome as a score: no match counts as 0.
pub open spec fn clamped(m: Option<i64>) -> i64 {
    match m {
        Some(s) => s,
        None => 0,
    }
}

/// The score of a card against a query.
pub open spec fn card_score(card: Seq<char>, query: Seq<char>) -> i64 {
    clamped(skim_match(card, query))
}

/// A card that the query does not match scores 0.
pub proof fn lemma_unmatched_scores_zero(card: Seq<char>, query: Seq<char>)
    requires
        skim_match(card, query) is None,
    ensures
        card_score(card, query) == 0,
{
}

/// The score for a matcher outcome: its value, or 0 where there was no match.
pub fn clamp_score(m: Option<i64>) -> (r: i64)
    ensures
        r == clamped(m),
{
    match m {
        Some(s) => s,
        None => 0,
    }
}

/// The score of every card against `query`, in card order.
pub fn score_all(cards: &Vec<String>, query: &str) -> (r: Vec<i64>)
    ensures
        r@.len() == cards@.len(),
        forall|i: int| 0 <= i < cards@.len() ==> r@[i] == card_score(cards@[i]@, query@),
{
    let mut r: Vec<i64> = Vec::new();
    let mut i: usize = 0;
    while i < cards.len()
        invariant
            i <= cards@.len(),
            r@.len() == i,
            forall|j: int| 0 <= j < i ==> r@[j] == card_score(cards@[j]@, query@),
        decreases cards.len() - i,
    {
        let m = skim_fuzzy_match(cards[i].as_str(), query);
        r.push(clamp_score(m));
        i = i + 1;
    }
    r
}

/// Position `p` comes before position `q` in ascending score order, ties kept in position
/// order.
pub open spec fn goes_before(scores: Seq<i64>, p: int, q: int) -> bool {
    scores[p] < scores[q] || (scores[p] == scores[q] && p < q)
}

/// `ord` lists every position of `scores` once, by ascending score, equal scores in position
/// order: the outcome of a stable ascending sort by score.
pub open spec fn is_stable_order(ord: Seq<usize>, scores: Seq<i64>) -> bool {
    &&& ord.len() == scores.len()
    &&& forall|i: int| 0 <= i < ord.len() ==> ord[i] < scores.len()
    &&& forall|p: usize| p < scores.len() ==> #[trigger] ord.contains(p)
    &&& forall|i: int, j: int|
        0 <= i < j < ord.len() ==> goes_before(scores, ord[i] as int, ord[j] as int)
}

/// The positions of `scores` in stable ascending score order.
pub fn stable_order(scores: &Vec<i64>) -> (ord: Vec<usize>)
    ensures
        is_stable_order(ord@, scores@),
{
    let n = scores.len();
    let mut ord: Vec<usize> = Vec::new();
    let mut p: usize = 0;
    while p < n
        invariant
            p <= n == scores@.len(),
            ord@.len() == p,
            forall|i: int| 0 <= i < ord@.len() ==> ord@[i] < p,
            forall|q: usize| q < p ==> #[trigger] ord@.contains(q),
            forall|i: int, j: int|
                0 <= i < j < ord@.len() ==> goes_before(scores@, ord@[i] as int, ord@[j] as int),
        decreases n - p,
    {
        let mut k: usize = ord.len();
        while k > 0 && scores[ord[k - 1]] > scores[p]
            invariant
                k <= ord@.len() == p < n == scores@.len(),
                forall|i: int| 0 <= i < ord@.len() ==> ord@[i] < p,
                forall|i: int| k <= i < ord@.len() ==> scores@[ord@[i] as int] > scores@[p as int],
            decreases k,
        {
            k = k - 1;
        }
        let ghost old_ord = ord@;
        ord.insert(k, p);
        assert forall|i: int, j: int| 0 <= i < j < ord@.len() implies goes_before(
            scores@,
            ord@[i] as int,
            ord@[j] as int,
        ) by {
            if j < k {
                assert(ord@[i] == old_ord[i] && ord@[j] == old_ord[j]);
            } else if j == k {
                assert(ord@[i] == old_ord[i]);
                if i < k - 1 {
                    assert(goes_before(scores@, old_ord[i] as int, old_ord[k - 1] as int));
                }
            } else if i == k {
                assert(ord@[j] == old_ord[j - 1]);
            } else if i > k {
                assert(ord@[i] == old_ord[i - 1] && ord@[j] == old_ord[j - 1]);
            } else {
                assert(ord@[i] == old_ord[i] && ord@[j] == old_ord[j - 1]);
            }
        }
        assert forall|q: usize| q < p + 1 implies #[trigger] ord@.contains(q) by {
            if q == p {
                assert(ord@[k as int] == p);
            } else {
                assert(old_ord.contains(q));
                let i = choose|i: int| 0 <= i < old_ord.len() && old_ord[i] == q;
                if i < k {
                    assert(ord@[i] == q);
                } else {
                    assert(ord@[i + 1] == q);
                }
            }
        }
        p = p + 1;
    }
    ord
}

/// A stable order by score is unique: two orders that both list the positions of `scores`
/// stably by ascending score are the same.
pub proof fn lemma_stable_order_unique(a: Seq<usize>, b: Seq<usize>, scores: Seq<i64>)
    requires
        is_stable_order(a, scores),
        is_stable_order(b, scores),
    ensures
        a == b,
{
    assert forall|x: usize| a.contains(x) <==> b.contains(x) by {
        if a.contains(x) {
            let i = choose|i: int| 0 <= i < a.len() && a[i] == x;
            assert(x < scores.len());
        }
        if b.contains(x) {
            let i = choose|i: int| 0 <= i < b.len() && b[i] == x;
            assert(x < scores.len());
        }
    }
    lemma_sorted_same_elements(a, b, scores);
}

/// Strictly ordered by `goes_before`.
pub open spec fn strictly_ordered(a: Seq<usize>, scores: Seq<i64>) -> bool {
    forall|i: int, j: int| 0 <= i < j < a.len() ==> goes_before(scores, a[i] as int, a[j] as int)
}

proof fn lemma_sorted_same_elements(a: Seq<usize>, b: Seq<usize>, scores: Seq<i64>)
    requires
        strictly_ordered(a, scores),
        strictly_ordered(b, scores),
        forall|x: usize| a.contains(x) <==> b.contains(x),
    ensures
        a == b,
    decreases a.len(),
{
    if a.len() == 0 || b.len() == 0 {
        if b.len() > 0 {
            assert(b.contains(b[0]));
        }
        if a.len() > 0 {
            assert(a.contains(a[0]));
        }
        assert(a =~= b);
    } else {
        assert(a.contains(a[0]));
        assert(b.contains(b[0]));
        let j = choose|j: int| 0 <= j < b.len() && b[j] == a[0];
        let k = choose|k: int| 0 <= k < a.len() && a[k] == b[0];
        if j > 0 {
            assert(goes_before(scores, b[0] as int, b[j] as int));
            if k > 0 {
                assert(goes_before(scores, a[0] as int, a[k] as int));
            }
        }
        assert(a[0] == b[0]);
        let a1 = a.drop_first();
        let b1 = b.drop_first();
        assert forall|x: usize| a1.contains(x) <==> b1.contains(x) by {
            if a1.contains(x) {
                let m = choose|m: int| 0 <= m < a1.len() && a1[m] == x;
                assert(goes_before(scores, a[0] as int, a[m + 1] as int));
                assert(a.contains(x));
                let n = choose|n: int| 0 <= n < b.len() && b[n] == x;
                assert(n != 0);
                assert(b1[n - 1] == x);
            }
            if b1.contains(x) {
                let m = choose|m: int| 0 <= m < b1.len() && b1[m] == x;
                assert(goes_before(scores, b[0] as int, b[m + 1] as int));
                assert(b.contains(x));
                let n = choose|n: int| 0 <= n < a.len() && a[n] == x;
                assert(n != 0);
                assert(a1[n - 1] == x);
            }
        }
        lemma_sorted_same_elements(a1, b1, scores);
        assert(a =~= seq![a[0]] + a1);
        assert(b =~= seq![b[0]] + b1);
    }
}

} // verus!
