//! The ranked selection list: the catalog, the set of entries matching the
//! current query in descending score order, the cursor, and the undo history
//! of previous ranked sets.

use vstd::prelude::*;
use vstd::multiset::Multiset;
use crate::match_engine::{
    indices_model, is_subseq, match_indices, match_query, score_of,
};

verus! {

/// One directory of the catalog: the short label shown and matched, and the
/// full path handed on when the entry is confirmed.
pub struct CatalogEntry {
    pub label: String,
    pub full_path: String,
}

/// One row of the ranked set: a catalog entry together with its score and
/// the label positions its match highlights.
pub struct PathItem {
    pub path: String,
    pub fullpath: String,
    pub score: i64,
    pub indices: Vec<usize>,
}

/// The mathematical content of a ranked row.
pub ghost struct ItemModel {
    pub label: Seq<char>,
    pub full_path: Seq<char>,
    pub score: int,
    pub indices: Seq<int>,
}

/// The model of one row.
pub open spec fn item_model(it: PathItem) -> ItemModel {
    ItemModel {
        label: it.path@,
        full_path: it.fullpath@,
        score: it.score as int,
        indices: indices_model(it.indices@),
    }
}

/// The models of a sequence of rows.
pub open spec fn models(s: Seq<PathItem>) -> Seq<ItemModel> {
    s.map_values(|it: PathItem| item_model(it))
}

/// The row that a catalog entry yields under a query it matches.
pub open spec fn entry_item_model(e: CatalogEntry, q: Seq<char>) -> ItemModel {
    ItemModel {
        label: e.label@,
        full_path: e.full_path@,
        score: score_of(e.label@, q) as int,
        indices: match_indices(e.label@, q),
    }
}

/// The rows of all catalog entries that the query matches, in catalog order.
pub open spec fn matched_models(catalog: Seq<CatalogEntry>, q: Seq<char>) -> Seq<ItemModel>
    decreases catalog.len(),
{
    if catalog.len() == 0 {
        Seq::empty()
    } else {
        matched_models(catalog.drop_last(), q) + (if is_subseq(q, catalog.last().label@) {
            seq![entry_item_model(catalog.last(), q)]
        } else {
            Seq::empty()
        })
    }
}

/// Scores never increase along the sequence.
pub open spec fn sorted_desc(s: Seq<ItemModel>) -> bool {
    forall|i: int, j: int| 0 <= i <= j < s.len() ==> #[trigger] s[i].score >= #[trigger] s[j].score
}

/// The cursor a fresh ranked set starts with: the top row, or nothing when
/// the set is empty.
pub open spec fn initial_cursor(len: nat) -> Option<usize> {
    if len == 0 {
        None
    } else {
        Some(0usize)
    }
}

/// Where the cursor stands after one step down: clamped to the last row.
pub open spec fn down_cursor(c: Option<usize>, len: nat) -> Option<usize> {
    match c {
        None => None,
        Some(i) => if i + 1 < len {
            Some((i + 1) as usize)
        } else {
            Some(i)
        },
    }
}

/// Where the cursor stands after one step up: clamped to the first row.
pub open spec fn up_cursor(c: Option<usize>) -> Option<usize> {
    match c {
        None => None,
        Some(i) => if i > 0 {
            Some((i - 1) as usize)
        } else {
            Some(i)
        },
    }
}

/// Where the cursor stands after one page down: clamped to the last row.
pub open spec fn page_down_cursor(c: Option<usize>, len: nat) -> Option<usize> {
    match c {
        None => None,
        Some(i) => if i + PAGE_SIZE < len {
            Some((i + PAGE_SIZE) as usize)
        } else {
            Some((len - 1) as usize)
        },
    }
}

/// Where the cursor stands after one page up: clamped to the first row.
pub open spec fn page_up_cursor(c: Option<usize>) -> Option<usize> {
    match c {
        None => None,
        Some(i) => if i >= PAGE_SIZE {
            Some((i - PAGE_SIZE) as usize)
        } else {
            Some(0usize)
        },
    }
}

/// The selection state: the immutable catalog, the current ranked set, the
/// cursor, and the stack of ranked sets that earlier query edits replaced.
pub struct SelectionState {
    pub catalog: Vec<CatalogEntry>,
    pub ranked: Vec<PathItem>,
    pub cursor: Option<usize>,
    pub history: Vec<Vec<PathItem>>,
}

impl SelectionState {
    /// The cursor invariant: no cursor exactly when the ranked set is empty,
    /// otherwise a position inside it.
    pub open spec fn cursor_ok(self) -> bool {
        match self.cursor {
            None => self.ranked@.len() == 0,
            Some(i) => (i as int) < self.ranked@.len(),
        }
    }

    /// Well-formed: the cursor invariant, and every ranked set — current or
    /// remembered — ordered by descending score.
    pub open spec fn wf(self) -> bool {
        &&& self.cursor_ok()
        &&& sorted_desc(models(self.ranked@))
        &&& forall|h: int|
            0 <= h < self.history@.len() ==> sorted_desc(models(#[trigger] self.history@[h]@))
    }

    /// A fresh state over a catalog: every entry listed, unscored, with no
    /// highlights, no history, and the cursor on the top row if any.
    pub fn new(catalog: Vec<CatalogEntry>) -> (r: SelectionState)
        ensures
            r.catalog == catalog,
            r.ranked@.len() == catalog@.len(),
            models(r.ranked@) == catalog@.map_values(
                |e: CatalogEntry|
                    ItemModel {
                        label: e.label@,
                        full_path: e.full_path@,
                        score: 0,
                        indices: Seq::empty(),
                    },
            ),
            r.history@.len() == 0,
            r.cursor == initial_cursor(r.ranked@.len()),
            r.wf(),
    {
        let ghost full = catalog@.map_values(
            |e: CatalogEntry|
                ItemModel {
                    label: e.label@,
                    full_path: e.full_path@,
                    score: 0,
                    indices: Seq::empty(),
                },
        );
        let mut ranked: Vec<PathItem> = Vec::new();
        let mut i: usize = 0;
        while i < catalog.len()
            invariant
                i <= catalog@.len(),
                full == catalog@.map_values(
                    |e: CatalogEntry|
                        ItemModel {
                            label: e.label@,
                            full_path: e.full_path@,
                            score: 0,
                            indices: Seq::empty(),
                        },
                ),
                models(ranked@) == full.subrange(0, i as int),
            decreases catalog@.len() - i,
        {
            let ghost prior = ranked@;
            let item = PathItem {
                path: catalog[i].label.clone(),
                fullpath: catalog[i].full_path.clone(),
                score: 0,
                indices: Vec::new(),
            };
            proof {
                assert(indices_model(item.indices@) =~= Seq::<int>::empty());
                assert(item_model(item) == full[i as int]);
            }
            ranked.push(item);
            proof {
                assert(models(ranked@) =~= models(prior).push(item_model(item)));
                assert(full.subrange(0, i as int + 1) =~= full.subrange(0, i as int).push(
                    full[i as int],
                ));
            }
            i += 1;
        }
        proof {
            assert(full.subrange(0, catalog@.len() as int) =~= full);
        }
        let cursor = if ranked.len() == 0 {
            None
        } else {
            Some(0usize)
        };
        SelectionState { catalog, ranked, cursor, history: Vec::new() }
    }

    /// What `apply_query` guarantees: the catalog untouched, the ranked set
    /// it replaced pushed onto the history, the new ranked set exactly the
    /// matching entries in descending score order, and the cursor on the top
    /// row if any row is left.
    pub open spec fn apply_query_post(pre: SelectionState, post: SelectionState, q: Seq<char>) -> bool {
        &&& post.catalog == pre.catalog
        &&& post.history@ == pre.history@.push(pre.ranked)
        &&& models(post.ranked@).to_multiset() == matched_models(pre.catalog@, q).to_multiset()
        &&& post.ranked@.len() == matched_models(pre.catalog@, q).len()
        &&& sorted_desc(models(post.ranked@))
        &&& post.cursor == initial_cursor(post.ranked@.len())
    }

    /// Recomputes the ranked set for `query` by a full scan of the catalog,
    /// remembering the set it replaces.
    pub fn apply_query(&mut self, query: &str)
        requires
            old(self).wf(),
        ensures
            Self::apply_query_post(*old(self), *final(self), query@),
            final(self).wf(),
    {
        let mut items: Vec<PathItem> = Vec::new();
        let mut i: usize = 0;
        proof {
            assert(models(items@) =~= matched_models(self.catalog@.subrange(0, 0), query@));
        }
        while i < self.catalog.len()
            invariant
                i <= self.catalog@.len(),
                models(items@) == matched_models(self.catalog@.subrange(0, i as int), query@),
            decreases self.catalog@.len() - i,
        {
            let ghost prefix = self.catalog@.subrange(0, i as int);
            let ghost next_prefix = self.catalog@.subrange(0, i as int + 1);
            proof {
                assert(next_prefix.drop_last() =~= prefix);
                assert(next_prefix.last() == self.catalog@[i as int]);
            }
            match match_query(self.catalog[i].label.as_str(), query) {
                Some(m) => {
                    let item = PathItem {
                        path: self.catalog[i].label.clone(),
                        fullpath: self.catalog[i].full_path.clone(),
                        score: m.score,
                        indices: m.indices,
                    };
                    proof {
                        assert(item_model(item) == entry_item_model(self.catalog@[i as int], query@));
                    }
                    items.push(item);
                    proof {
                        assert(models(items@) =~= matched_models(next_prefix, query@));
                    }
                },
                None => {
                    proof {
                        assert(models(items@) =~= matched_models(next_prefix, query@));
                    }
                },
            }
            i += 1;
        }
        proof {
            assert(self.catalog@.subrange(0, self.catalog@.len() as int) =~= self.catalog@);
        }
        let mut replacement = sort_items_desc(items);
        core::mem::swap(&mut self.ranked, &mut replacement);
        self.history.push(replacement);
        if self.ranked.len() == 0 {
            self.cursor = None;
        } else {
            self.cursor = Some(0);
        }
        proof {
            vstd::seq_lib::to_multiset_len(models(self.ranked@));
            vstd::seq_lib::to_multiset_len(matched_models(old(self).catalog@, query@));
        }
    }

    /// What `undo_last_edit` guarantees: with no history it changes nothing;
    /// otherwise the newest remembered set becomes the current one verbatim,
    /// and the cursor is on the top row if any row is left.
    pub open spec fn undo_post(pre: SelectionState, post: SelectionState) -> bool {
        if pre.history@.len() == 0 {
            post == pre
        } else {
            &&& post.catalog == pre.catalog
            &&& post.ranked == pre.history@.last()
            &&& post.history@ == pre.history@.drop_last()
            &&& post.cursor == initial_cursor(post.ranked@.len())
        }
    }

    /// Restores the ranked set that the most recent query edit replaced;
    /// a no-op when nothing is remembered.
    pub fn undo_last_edit(&mut self)
        requires
            old(self).wf(),
        ensures
            Self::undo_post(*old(self), *final(self)),
            final(self).wf(),
    {
        if self.history.len() > 0 {
            match self.history.pop() {
                Some(items) => {
                    self.ranked = items;
                    if self.ranked.len() == 0 {
                        self.cursor = None;
                    } else {
                        self.cursor = Some(0);
                    }
                    proof {
                        assert(self.ranked == old(self).history@.last());
                        assert(self.history@ =~= old(self).history@.drop_last());
                        assert(forall|h: int|
                            0 <= h < self.history@.len() ==> self.history@[h] == old(
                                self,
                            ).history@[h]);
                    }
                },
                None => {
                    proof {
                        assert(false);
                    }
                },
            }
        }
    }

    /// The undo law: applying a query and then undoing it restores the
    /// ranked set, the history, and the cursor that stood before, provided
    /// the cursor stood where a fresh ranked set puts it (on the top row, or
    /// nowhere when the set was empty).
    pub proof fn lemma_undo_after_apply(
        pre: SelectionState,
        mid: SelectionState,
        post: SelectionState,
        q: Seq<char>,
    )
        requires
            pre.wf(),
            Self::apply_query_post(pre, mid, q),
            Self::undo_post(mid, post),
            pre.cursor == initial_cursor(pre.ranked@.len()),
        ensures
            post.ranked == pre.ranked,
            post.history@ == pre.history@,
            post.cursor == pre.cursor,
            post.catalog == pre.catalog,
    {
        assert(mid.history@.len() > 0);
        assert(mid.history@.last() == pre.ranked);
        assert(mid.history@.drop_last() =~= pre.history@);
    }

    /// Moves the cursor one row down, stopping at the last row.
    pub fn next(&mut self)
        requires
            old(self).wf(),
        ensures
            final(self).wf(),
            final(self).ranked == old(self).ranked,
            final(self).history == old(self).history,
            final(self).catalog == old(self).catalog,
            final(self).cursor == down_cursor(old(self).cursor, old(self).ranked@.len()),
    {
        match self.cursor {
            Some(i) => {
                let len = self.ranked.len();
                if i + 1 < len {
                    self.cursor = Some(i + 1);
                }
            },
            None => {},
        }
    }

    /// Moves the cursor one row up, stopping at the first row.
    pub fn prev(&mut self)
        requires
            old(self).wf(),
        ensures
            final(self).wf(),
            final(self).ranked == old(self).ranked,
            final(self).history == old(self).history,
            final(self).catalog == old(self).catalog,
            final(self).cursor == up_cursor(old(self).cursor),
    {
        match self.cursor {
            Some(i) => {
                if i > 0 {
                    self.cursor = Some(i - 1);
                }
            },
            None => {},
        }
    }

    /// Moves the cursor one page down, clamping to the last row.
    pub fn scroll_next(&mut self)
        requires
            old(self).wf(),
        ensures
            final(self).wf(),
            final(self).ranked == old(self).ranked,
            final(self).history == old(self).history,
            final(self).catalog == old(self).catalog,
            final(self).cursor == page_down_cursor(old(self).cursor, old(self).ranked@.len()),
    {
        match self.cursor {
            Some(i) => {
                if self.ranked.len() - 1 - i > PAGE_SIZE {
                    self.cursor = Some(i + PAGE_SIZE);
                } else {
                    self.cursor = Some(self.ranked.len() - 1);
                }
            },
            None => {},
        }
    }

    /// Moves the cursor one page up, clamping to the first row.
    pub fn scroll_prev(&mut self)
        requires
            old(self).wf(),
        ensures
            final(self).wf(),
            final(self).ranked == old(self).ranked,
            final(self).history == old(self).history,
            final(self).catalog == old(self).catalog,
            final(self).cursor == page_up_cursor(old(self).cursor),
    {
        match self.cursor {
            Some(i) => {
                if i >= PAGE_SIZE {
                    self.cursor = Some(i - PAGE_SIZE);
                } else {
                    self.cursor = Some(0);
                }
            },
            None => {},
        }
    }

    /// The half-open row range around the cursor that a viewport of the
    /// given height needs rendered: `height` rows before the cursor through
    /// `height` rows after it, clipped to the ranked set.
    pub fn visible_window(&self, height: usize) -> (r: (usize, usize))
        requires
            self.wf(),
        ensures
            match self.cursor {
                None => r == (0usize, 0usize),
                Some(c) => {
                    &&& r.0 == if c >= height {
                        (c - height) as int
                    } else {
                        0int
                    }
                    &&& r.1 == if c + height <= self.ranked@.len() {
                        (c + height) as int
                    } else {
                        self.ranked@.len() as int
                    }
                },
            },
            r.0 <= r.1 <= self.ranked@.len(),
    {
        match self.cursor {
            Some(c) => {
                let lo = if c >= height {
                    c - height
                } else {
                    0
                };
                let len = self.ranked.len();
                let hi = if height <= len - c {
                    c + height
                } else {
                    len
                };
                (lo, hi)
            },
            None => (0, 0),
        }
    }
}

/// The number of rows one page scroll jumps over.
pub const PAGE_SIZE: usize = 5;

/// Whether position `i` is one of the matched positions.
pub fn contains_index(indices: &Vec<usize>, i: usize) -> (r: bool)
    ensures
        r == indices@.contains(i),
{
    let mut k: usize = 0;
    while k < indices.len()
        invariant
            k <= indices@.len(),
            forall|j: int| 0 <= j < k ==> indices@[j] != i,
        decreases indices@.len() - k,
    {
        if indices[k] == i {
            assert(indices@[k as int] == i);
            return true;
        }
        k += 1;
    }
    assert(!indices@.contains(i));
    false
}

/// One flag per label position: whether the match highlights it. Rendering
/// colors exactly the flagged positions.
pub fn match_flags(len: usize, indices: &Vec<usize>) -> (r: Vec<bool>)
    ensures
        r@.len() == len,
        forall|i: int| 0 <= i < len ==> (r@[i] <==> indices@.contains(i as usize)),
{
    let mut flags: Vec<bool> = Vec::new();
    let mut i: usize = 0;
    while i < len
        invariant
            i <= len,
            flags@.len() == i,
            forall|j: int| 0 <= j < i ==> (flags@[j] <==> indices@.contains(j as usize)),
        decreases len - i,
    {
        flags.push(contains_index(indices, i));
        i += 1;
    }
    flags
}

/// Reorders rows into descending score order; which rows there are, with
/// which scores and highlights, is untouched.
fn sort_items_desc(items: Vec<PathItem>) -> (r: Vec<PathItem>)
    ensures
        models(r@).to_multiset() == models(items@).to_multiset(),
        sorted_desc(models(r@)),
{
    broadcast use vstd::seq_lib::group_to_multiset_ensures;
    broadcast use vstd::multiset::group_multiset_axioms;

    let mut src = items;
    let mut out: Vec<PathItem> = Vec::new();
    proof {
        assert(models(out@).to_multiset().add(models(src@).to_multiset()) =~= models(
            items@,
        ).to_multiset());
    }
    while src.len() > 0
        invariant
            models(items@).to_multiset() == models(out@).to_multiset().add(
                models(src@).to_multiset(),
            ),
            sorted_desc(models(out@)),
            out@.len() > 0 ==> forall|i: int|
                0 <= i < src@.len() ==> models(out@).last().score >= #[trigger] models(
                    src@,
                )[i].score,
        decreases src.len(),
    {
        let mut best: usize = 0;
        let mut k: usize = 1;
        while k < src.len()
            invariant
                src@.len() > 0,
                best < k <= src@.len(),
                forall|i: int|
                    0 <= i < k ==> models(src@)[best as int].score >= #[trigger] models(
                        src@,
                    )[i].score,
            decreases src@.len() - k,
        {
            if src[k].score > src[best].score {
                best = k;
            }
            k += 1;
        }
        let ghost src_before = src@;
        let ghost out_before = out@;
        let it = src.remove(best);
        proof {
            assert(models(src_before)[best as int] == item_model(it));
            assert(models(src_before).contains(item_model(it)));
            assert(models(src_before.remove(best as int)) =~= models(src_before).remove(
                best as int,
            ));
            vstd::seq_lib::to_multiset_remove(models(src_before), best as int);
            vstd::seq_lib::to_multiset_contains(models(src_before), item_model(it));
        }
        out.push(it);
        proof {
            assert(models(out@) =~= models(out_before).push(item_model(it)));
            vstd::seq_lib::to_multiset_build(models(out_before), item_model(it));
            assert(models(items@).to_multiset() =~= models(out@).to_multiset().add(
                models(src@).to_multiset(),
            ));
            // the chosen row scores no less than anything still unsorted
            assert(forall|i: int|
                0 <= i < src@.len() ==> item_model(it).score >= #[trigger] models(src@)[i].score)
                by {
                assert(forall|i: int|
                    0 <= i < src@.len() ==> models(src@)[i] == if i < best as int {
                        models(src_before)[i]
                    } else {
                        models(src_before)[i + 1]
                    });
            }
            assert(forall|i: int|
                0 <= i < out@.len() ==> models(out@)[i].score >= item_model(it).score);
        }
    }
    proof {
        assert(models(src@).to_multiset() =~= Multiset::<ItemModel>::empty());
        assert(models(out@).to_multiset().add(Multiset::empty()) =~= models(out@).to_multiset());
    }
    out
}

} // verus!
