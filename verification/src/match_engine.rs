//! The fuzzy match engine: whether a query is a case-sensitive ordered
//! subsequence of a label, which label positions realize the match, and a
//! ranking score for the pair.

use vstd::prelude::*;
use vstd::string::StrSliceExecFns;

verus! {

/// The query suffix from `qi` on is an ordered subsequence of the label
/// suffix from `li` on: query characters appear in the label in their own
/// order, not necessarily contiguously.
pub open spec fn subseq_at(q: Seq<char>, l: Seq<char>, qi: int, li: int) -> bool
    decreases l.len() - li,
{
    if qi >= q.len() {
        true
    } else if li >= l.len() {
        false
    } else if q[qi] == l[li] {
        subseq_at(q, l, qi + 1, li + 1)
    } else {
        subseq_at(q, l, qi, li + 1)
    }
}

/// The query is a case-sensitive ordered subsequence of the label.
pub open spec fn is_subseq(q: Seq<char>, l: Seq<char>) -> bool {
    subseq_at(q, l, 0, 0)
}

/// The label positions that the leftmost alignment of the query suffix from
/// `qi` takes within the label suffix from `li`.
pub open spec fn greedy_at(q: Seq<char>, l: Seq<char>, qi: int, li: int) -> Seq<int>
    decreases l.len() - li,
{
    if qi >= q.len() || li >= l.len() {
        Seq::empty()
    } else if q[qi] == l[li] {
        seq![li] + greedy_at(q, l, qi + 1, li + 1)
    } else {
        greedy_at(q, l, qi, li + 1)
    }
}

/// The label positions of the leftmost alignment of the whole query.
pub open spec fn greedy_indices(q: Seq<char>, l: Seq<char>) -> Seq<int> {
    greedy_at(q, l, 0, 0)
}

/// `idx` realizes the match of `q` within `l`: one label position per query
/// character, strictly increasing, in bounds, and the label character at
/// each position equals the query character it stands for.
pub open spec fn indices_realize(q: Seq<char>, l: Seq<char>, idx: Seq<int>) -> bool {
    &&& idx.len() == q.len()
    &&& forall|i: int| 0 <= i < idx.len() ==> 0 <= #[trigger] idx[i] < l.len() && l[idx[i]] == q[i]
    &&& forall|i: int, j: int| 0 <= i < j < idx.len() ==> #[trigger] idx[i] < #[trigger] idx[j]
}

/// As `indices_realize`, for the suffixes from `qi` and `li` on.
spec fn realize_from(q: Seq<char>, l: Seq<char>, idx: Seq<int>, qi: int, li: int) -> bool {
    &&& idx.len() == q.len() - qi
    &&& forall|i: int|
        0 <= i < idx.len() ==> li <= #[trigger] idx[i] < l.len() && l[idx[i]] == q[qi + i]
    &&& forall|i: int, j: int| 0 <= i < j < idx.len() ==> #[trigger] idx[i] < #[trigger] idx[j]
}

/// The leftmost alignment realizes the match wherever one exists.
proof fn lemma_greedy_realizes(q: Seq<char>, l: Seq<char>, qi: int, li: int)
    requires
        0 <= qi <= q.len(),
        0 <= li <= l.len(),
        subseq_at(q, l, qi, li),
    ensures
        realize_from(q, l, greedy_at(q, l, qi, li), qi, li),
    decreases l.len() - li,
{
    if qi >= q.len() {
    } else if q[qi] == l[li] {
        lemma_greedy_realizes(q, l, qi + 1, li + 1);
        let rest = greedy_at(q, l, qi + 1, li + 1);
        let g = seq![li] + rest;
        assert(g[0] == li);
        assert(forall|i: int| 0 < i < g.len() ==> g[i] == rest[i - 1]);
        assert forall|i: int, j: int| 0 <= i < j < g.len() implies #[trigger] g[i] < #[trigger] g[j] by {
            if i == 0 {
                assert(g[j] == rest[j - 1] >= li + 1);
            } else {
                assert(rest[i - 1] < rest[j - 1]);
            }
        }
    } else {
        lemma_greedy_realizes(q, l, qi, li + 1);
    }
}

/// Any realizing alignment of the suffixes witnesses the subsequence
/// relation of the suffixes.
proof fn lemma_realize_implies_subseq(q: Seq<char>, l: Seq<char>, idx: Seq<int>, qi: int, li: int)
    requires
        0 <= qi <= q.len(),
        0 <= li <= l.len(),
        realize_from(q, l, idx, qi, li),
    ensures
        subseq_at(q, l, qi, li),
    decreases l.len() - li,
{
    if qi >= q.len() {
    } else {
        assert(idx.len() > 0);
        assert(li <= idx[0] < l.len());
        if q[qi] == l[li] {
            let rest = idx.drop_first();
            assert forall|i: int| 0 <= i < rest.len() implies li + 1 <= #[trigger] rest[i]
                < l.len() && l[rest[i]] == q[qi + 1 + i] by {
                assert(rest[i] == idx[i + 1]);
                assert(idx[0] < idx[i + 1]);
            }
            assert forall|i: int, j: int| 0 <= i < j < rest.len() implies #[trigger] rest[i]
                < #[trigger] rest[j] by {
                assert(idx[i + 1] < idx[j + 1]);
            }
            lemma_realize_implies_subseq(q, l, rest, qi + 1, li + 1);
        } else {
            assert(idx[0] != li);
            assert forall|i: int| 0 <= i < idx.len() implies li + 1 <= #[trigger] idx[i] by {
                if i > 0 {
                    assert(idx[0] < idx[i]);
                }
            }
            lemma_realize_implies_subseq(q, l, idx, qi, li + 1);
        }
    }
}

/// Wherever a match exists, the leftmost alignment realizes it: one strictly
/// increasing label position per query character, each holding that
/// character.
pub proof fn lemma_greedy_indices_realize(q: Seq<char>, l: Seq<char>)
    requires
        is_subseq(q, l),
    ensures
        indices_realize(q, l, greedy_indices(q, l)),
{
    lemma_greedy_realizes(q, l, 0, 0);
}

/// A query matches a label exactly when some strictly increasing alignment
/// of its characters into the label exists.
pub proof fn lemma_subseq_iff_alignment(q: Seq<char>, l: Seq<char>)
    ensures
        is_subseq(q, l) <==> exists|idx: Seq<int>| indices_realize(q, l, idx),
{
    if is_subseq(q, l) {
        lemma_greedy_indices_realize(q, l);
        let g = greedy_indices(q, l);
        assert(indices_realize(q, l, g));
    }
    if exists|idx: Seq<int>| indices_realize(q, l, idx) {
        let idx = choose|idx: Seq<int>| indices_realize(q, l, idx);
        assert(realize_from(q, l, idx, 0, 0));
        lemma_realize_implies_subseq(q, l, idx, 0, 0);
    }
}

/// An empty query matches every label, and its alignment highlights no
/// position at all.
pub proof fn lemma_empty_query_matches(q: Seq<char>, l: Seq<char>)
    requires
        q.len() == 0,
    ensures
        is_subseq(q, l),
        greedy_indices(q, l) == Seq::<int>::empty(),
{
}

/// What the outside matcher makes of a label and query pair: a ranking score
/// with the positions of its own best-scoring alignment, or `None` where it
/// finds no (smart-case) match of its own. The result depends on the two
/// strings alone.
pub uninterp spec fn skim_match_of(label: Seq<char>, query: Seq<char>) -> Option<
    (i64, Seq<usize>),
>;

/// The score used for ranking: the outside matcher's where it has one, and
/// the neutral score otherwise.
pub open spec fn score_of(label: Seq<char>, query: Seq<char>) -> i64 {
    match skim_match_of(label, query) {
        Some(p) => p.0,
        None => 0,
    }
}

/// The outside matcher's alignment, where it is checked to realize the
/// (case-sensitive) match; nothing otherwise.
pub open spec fn skim_alignment(label: Seq<char>, query: Seq<char>) -> Option<Seq<int>> {
    match skim_match_of(label, query) {
        None => None,
        Some(p) => {
            let idx = p.1.map_values(|u: usize| u as int);
            if indices_realize(query, label, idx) {
                Some(idx)
            } else {
                None
            }
        },
    }
}

/// The alignment a match reports: the outside matcher's score-maximizing one
/// wherever it withstands the realization check, and the leftmost one
/// otherwise.
pub open spec fn match_indices(label: Seq<char>, query: Seq<char>) -> Seq<int> {
    match skim_alignment(label, query) {
        Some(idx) => idx,
        None => greedy_indices(query, label),
    }
}

/// Relies on fuzzy_matcher::skim::SkimMatcherV2 in its default
/// configuration: `fuzzy_indices` computes a ranking score and the matched
/// positions as a pure function of the two strings (its thread-local buffers
/// are scratch space only).
#[verifier::external_body]
fn skim_match(label: &str, query: &str) -> (r: Option<(i64, Vec<usize>)>)
    ensures
        r is None ==> skim_match_of(label@, query@) is None,
        r matches Some(p) ==> (skim_match_of(label@, query@) matches Some(m) && m.0 == p.0 && m.1
            == p.1@),
{
    let matcher = fuzzy_matcher::skim::SkimMatcherV2::default();
    fuzzy_matcher::FuzzyMatcher::fuzzy_indices(&matcher, label, query)
}

/// Pairwise growth follows from stepwise growth.
proof fn lemma_adjacent_increasing_pairwise(idx: Seq<int>, i: int, j: int)
    requires
        forall|k: int| 0 < k < idx.len() ==> #[trigger] idx[k - 1] < idx[k],
        0 <= i < j < idx.len(),
    ensures
        idx[i] < idx[j],
    decreases j - i,
{
    if j == i + 1 {
        assert(idx[j - 1] < idx[j]);
    } else {
        lemma_adjacent_increasing_pairwise(idx, i, j - 1);
        assert(idx[j - 1] < idx[j]);
    }
}

/// Whether `idx` realizes the match of `query` within `label`.
fn check_alignment(label: &str, query: &str, idx: &Vec<usize>) -> (r: bool)
    ensures
        r == indices_realize(query@, label@, indices_model(idx@)),
{
    let ghost model = indices_model(idx@);
    let llen = label.unicode_len();
    let qlen = query.unicode_len();
    if idx.len() != qlen {
        assert(model.len() != query@.len());
        return false;
    }
    let mut i: usize = 0;
    while i < idx.len()
        invariant
            i <= idx@.len(),
            idx@.len() == query@.len(),
            model == indices_model(idx@),
            llen == label@.len(),
            qlen == query@.len(),
            forall|k: int|
                0 <= k < i ==> 0 <= #[trigger] model[k] < label@.len() && label@[model[k]]
                    == query@[k],
            forall|k: int| 0 < k < i ==> #[trigger] model[k - 1] < model[k],
        decreases idx@.len() - i,
    {
        let pos = idx[i];
        assert(model[i as int] == pos as int);
        if pos >= llen {
            assert(!(model[i as int] < label@.len()));
            return false;
        }
        if label.get_char(pos) != query.get_char(i) {
            assert(label@[model[i as int]] != query@[i as int]);
            return false;
        }
        if i > 0 && idx[i - 1] >= pos {
            assert(!(model[i as int - 1] < model[i as int]));
            return false;
        }
        i += 1;
    }
    proof {
        assert forall|a: int, b: int| 0 <= a < b < model.len() implies #[trigger] model[a]
            < #[trigger] model[b] by {
            lemma_adjacent_increasing_pairwise(model, a, b);
        }
    }
    true
}

/// A successful match: the ranking score and the label positions (one per
/// query character) where the match was realized.
pub struct MatchResult {
    pub score: i64,
    pub indices: Vec<usize>,
}

/// The positions a match result holds, as mathematical integers.
pub open spec fn indices_model(indices: Seq<usize>) -> Seq<int> {
    indices.map_values(|u: usize| u as int)
}

/// Matches `query` against `label`: `Some` exactly when the query is a
/// case-sensitive ordered subsequence of the label, carrying the ranking
/// score and an alignment that realizes the match — the outside matcher's
/// own where the check admits it, the leftmost otherwise; `None` otherwise.
pub fn match_query(label: &str, query: &str) -> (r: Option<MatchResult>)
    ensures
        r is Some <==> is_subseq(query@, label@),
        r matches Some(m) ==> indices_model(m.indices@) == match_indices(label@, query@)
            && indices_realize(query@, label@, indices_model(m.indices@)) && m.score == score_of(
            label@,
            query@,
        ),
{
    let llen = label.unicode_len();
    let qlen = query.unicode_len();
    let mut li: usize = 0;
    let mut qi: usize = 0;
    let mut indices: Vec<usize> = Vec::new();
    proof {
        assert(indices_model(indices@) + greedy_at(query@, label@, 0, 0) =~= greedy_indices(
            query@,
            label@,
        ));
    }
    while li < llen
        invariant
            li <= llen,
            qi <= qlen,
            qi <= li,
            llen == label@.len(),
            qlen == query@.len(),
            subseq_at(query@, label@, 0, 0) == subseq_at(query@, label@, qi as int, li as int),
            greedy_indices(query@, label@) == indices_model(indices@) + greedy_at(
                query@,
                label@,
                qi as int,
                li as int,
            ),
        decreases llen - li,
    {
        let ghost prior = indices@;
        if qi < qlen && label.get_char(li) == query.get_char(qi) {
            indices.push(li);
            proof {
                assert(indices_model(indices@) =~= indices_model(prior).push(li as int));
                assert(indices_model(prior).push(li as int) + greedy_at(
                    query@,
                    label@,
                    qi + 1,
                    li + 1,
                ) =~= indices_model(prior) + (seq![li as int] + greedy_at(
                    query@,
                    label@,
                    qi + 1,
                    li + 1,
                )));
            }
            qi += 1;
        }
        li += 1;
    }
    if qi == qlen {
        proof {
            assert(greedy_at(query@, label@, qi as int, li as int) =~= Seq::<int>::empty());
            assert(indices_model(indices@) + Seq::<int>::empty() =~= indices_model(indices@));
            lemma_greedy_realizes(query@, label@, 0, 0);
        }
        match skim_match(label, query) {
            Some((score, skim_indices)) => {
                if check_alignment(label, query, &skim_indices) {
                    Some(MatchResult { score, indices: skim_indices })
                } else {
                    Some(MatchResult { score, indices })
                }
            },
            None => Some(MatchResult { score: 0, indices }),
        }
    } else {
        None
    }
}

} // verus!
