//! Folding the pages an incremental apply gives up into the free list, and
//! backing the allocation cursor it publishes with real file extent.

use vstd::prelude::*;

use crate::errors::{PagedbError, Result};
use crate::sets::PageSet;
use crate::tree::BTree;

use super::handle::{Db, WriterState};
use super::history::{floor_of, oldest_retained, oldest_retained_readable};
use super::reader::oldest_pin;

verus! {

/// The commit id that free-list entries for vacated chain pages carry. It is
/// below every floor, since no reader ever reaches a chain page.
pub const CHAIN_METADATA_CID: u64 = 0;

/// What to do with the free-list chain.
pub enum FreeListFold {
    /// Nothing changed: the old chain stays the chain.
    Unchanged { free_list_root_page_id: u64, next_page_id: u64 },
    /// The chain is to be rewritten to hold `entries`, each a page with the
    /// commit that freed it, on pages out of `host_candidates` first.
    Rewrite { entries: Vec<(u64, u64)>, host_candidates: Vec<u64>, next_page_id: u64 },
}

/// The error of a free list that names a page the base commit still reaches.
pub open spec fn double_free() -> PagedbError {
    PagedbError::row_invalid("free-list entry names a page the base commit still reaches")
}

/// The entries whose pages the target does not reach, in order.
pub open spec fn entries_kept(s: Seq<(u64, u64)>, target: Set<u64>) -> Seq<(u64, u64)>
    decreases s.len(),
{
    if s.len() == 0 {
        Seq::empty()
    } else if target.contains(s.last().1) {
        entries_kept(s.drop_last(), target)
    } else {
        entries_kept(s.drop_last(), target).push(s.last())
    }
}

/// The pages of `s` outside `target`, in order.
pub open spec fn pages_kept(s: Seq<u64>, target: Set<u64>) -> Seq<u64>
    decreases s.len(),
{
    if s.len() == 0 {
        Seq::empty()
    } else if target.contains(s.last()) {
        pages_kept(s.drop_last(), target)
    } else {
        pages_kept(s.drop_last(), target).push(s.last())
    }
}

/// The pages of the entries that were freed below the floor, in order.
pub open spec fn hosts_below(s: Seq<(u64, u64)>, floor: u64) -> Seq<u64>
    decreases s.len(),
{
    if s.len() == 0 {
        Seq::empty()
    } else if s.last().0 < floor {
        hosts_below(s.drop_last(), floor).push(s.last().1)
    } else {
        hosts_below(s.drop_last(), floor)
    }
}

/// Every page of `s`, tagged with `commit`.
pub open spec fn tagged(s: Seq<u64>, commit: u64) -> Seq<(u64, u64)> {
    Seq::new(s.len(), |i: int| (commit, s[i]))
}

/// Whether the target reaches a page that an entry names.
pub open spec fn reaches_entry(s: Seq<(u64, u64)>, target: Set<u64>) -> bool {
    exists|i: int| 0 <= i < s.len() && target.contains((#[trigger] s[i]).1)
}

/// Whether the target reaches one of the pages.
pub open spec fn reaches_page(s: Seq<u64>, target: Set<u64>) -> bool {
    exists|i: int| 0 <= i < s.len() && target.contains(#[trigger] s[i])
}

/// Whether an entry names a page that is both given up and not the target's.
pub open spec fn names_reclaimed(
    s: Seq<(u64, u64)>,
    target: Set<u64>,
    reclaimed: Set<u64>,
) -> bool {
    exists|i: int|
        0 <= i < s.len() && !target.contains((#[trigger] s[i]).1) && reclaimed.contains(s[i].1)
}

/// The entries of the rewritten chain.
pub open spec fn folded_entries(
    existing: Seq<(u64, u64)>,
    chain_pages: Seq<u64>,
    reclaimed: Seq<u64>,
    target: Set<u64>,
    freeing_commit_id: u64,
) -> Seq<(u64, u64)> {
    entries_kept(existing, target) + tagged(reclaimed, freeing_commit_id) + tagged(
        pages_kept(chain_pages, target),
        CHAIN_METADATA_CID,
    )
}

/// Whether the chain has to be rewritten.
pub open spec fn must_rewrite(
    existing: Seq<(u64, u64)>,
    chain_pages: Seq<u64>,
    reclaimed: Seq<u64>,
    target: Set<u64>,
) -> bool {
    reclaimed.len() > 0 || reaches_entry(existing, target) || reaches_page(chain_pages, target)
}

/// What rebuilding the chain comes to.
pub open spec fn fold_outcome(
    db: Db,
    state: WriterState,
    existing: Seq<(u64, u64)>,
    chain_pages: Seq<u64>,
    reclaimed: PageSet,
    target: Set<u64>,
    freeing_commit_id: u64,
    alloc_cursor: u64,
    history: Seq<(Seq<u8>, Seq<u8>)>,
    r: Result<FreeListFold>,
) -> bool {
    let rewrite = must_rewrite(existing, chain_pages, reclaimed.list(), target);
    let policy = db.options.commit_history_retain;
    let root = state.commit_history_root_page_id;
    match r {
        Ok(FreeListFold::Unchanged { free_list_root_page_id, next_page_id }) => {
            &&& !rewrite
            &&& free_list_root_page_id == state.free_list_root_page_id
            &&& next_page_id == alloc_cursor
        },
        Ok(FreeListFold::Rewrite { entries, host_candidates, next_page_id }) => {
            &&& rewrite
            &&& !names_reclaimed(existing, target, reclaimed@)
            &&& oldest_retained_readable(policy, root, history)
            &&& entries@ == folded_entries(
                existing,
                chain_pages,
                reclaimed.list(),
                target,
                freeing_commit_id,
            )
            &&& host_candidates@ == hosts_below(
                entries_kept(existing, target),
                floor_of(
                    oldest_pin(db.tracked_readers@),
                    oldest_retained(policy, root, history),
                ),
            )
            &&& next_page_id == alloc_cursor
        },
        Err(e) => {
            &&& rewrite
            &&& if names_reclaimed(existing, target, reclaimed@) {
                e == double_free()
            } else {
                &&& !oldest_retained_readable(policy, root, history)
                &&& e == PagedbError::row_invalid("commit_history.key")
            }
        },
    }
}

/// How many bytes a file must have for every page below `next_page_id` to be
/// readable.
pub fn required_extent(page_size: usize, next_page_id: u64) -> (r: Result<u64>)
    ensures
        match r {
            Ok(bytes) => bytes == next_page_id * page_size,
            Err(e) => next_page_id * page_size > u64::MAX && e
                == (PagedbError::ArithmeticOverflow { what: "main.db extent" }),
        },
{
    match next_page_id.checked_mul(page_size as u64) {
        Some(bytes) => Ok(bytes),
        None => Err(PagedbError::ArithmeticOverflow { what: "main.db extent" }),
    }
}

impl Db {
    /// By how much the image must be grown for the cursor to be covered, if at
    /// all. An image is never shrunk.
    pub fn ensure_image_covers_cursor(&self, image_len: u64, next_page_id: u64) -> (r: Result<
        Option<u64>,
    >)
        ensures
            match r {
                Ok(None) => image_len >= next_page_id * self.page_size,
                Ok(Some(len)) => len == next_page_id * self.page_size && image_len < len,
                Err(e) => next_page_id * self.page_size > u64::MAX && e
                    == (PagedbError::ArithmeticOverflow { what: "main.db extent" }),
            },
    {
        match required_extent(self.page_size, next_page_id) {
            Ok(required) => if image_len >= required {
                Ok(None)
            } else {
                Ok(Some(required))
            },
            Err(e) => Err(e),
        }
    }

    /// Rebuilds the free-list chain for an incremental apply.
    ///
    /// `existing` and `chain_pages` are the entries of the old chain and the
    /// pages that hold it; `reclaimed` the pages that the target gave up;
    /// `target` the pages that the target reaches; `history` the rows under
    /// the commit-history root.
    pub fn stage_reclaimed_free_list(
        &self,
        state: &WriterState,
        existing: &Vec<(u64, u64)>,
        chain_pages: &Vec<u64>,
        reclaimed: &PageSet,
        target: &PageSet,
        freeing_commit_id: u64,
        alloc_cursor: u64,
        history: &BTree<Vec<u8>>,
    ) -> (r: Result<FreeListFold>)
        requires
            reclaimed.wf(),
            target.wf(),
        ensures
            fold_outcome(
                *self,
                *state,
                existing@,
                chain_pages@,
                *reclaimed,
                target@,
                freeing_commit_id,
                alloc_cursor,
                history@,
                r,
            ),
    {
        let mut reallocated: bool = false;
        let mut i: usize = 0;
        while i < existing.len()
            invariant
                i <= existing@.len(),
                target.wf(),
                reallocated == reaches_entry(existing@.take(i as int), target@),
            decreases existing@.len() - i,
        {
            let hit: bool = target.contains(existing[i].1);
            proof {
                lemma_reaches_entry_step(existing@, target@, i as int);
            }
            reallocated = reallocated || hit;
            i = i + 1;
        }
        let mut hosted: bool = false;
        let mut k: usize = 0;
        while k < chain_pages.len()
            invariant
                k <= chain_pages@.len(),
                target.wf(),
                hosted == reaches_page(chain_pages@.take(k as int), target@),
            decreases chain_pages@.len() - k,
        {
            let hit: bool = target.contains(chain_pages[k]);
            proof {
                lemma_reaches_page_step(chain_pages@, target@, k as int);
            }
            hosted = hosted || hit;
            k = k + 1;
        }
        proof {
            assert(existing@.take(i as int) =~= existing@);
            assert(chain_pages@.take(k as int) =~= chain_pages@);
        }
        if reclaimed.len() == 0 && !reallocated && !hosted {
            return Ok(
                FreeListFold::Unchanged {
                    free_list_root_page_id: state.free_list_root_page_id,
                    next_page_id: alloc_cursor,
                },
            );
        }
        let mut entries: Vec<(u64, u64)> = Vec::new();
        let mut i: usize = 0;
        while i < existing.len()
            invariant
                i <= existing@.len(),
                target.wf(),
                reclaimed.wf(),
                must_rewrite(existing@, chain_pages@, reclaimed.list(), target@),
                entries@ == entries_kept(existing@.take(i as int), target@),
                forall|j: int|
                    #![trigger existing@[j]]
                    0 <= j < i ==> target@.contains(existing@[j].1) || !reclaimed@.contains(
                        existing@[j].1,
                    ),
            decreases existing@.len() - i,
        {
            let entry: (u64, u64) = existing[i];
            proof {
                assert(existing@.take(i + 1).drop_last() =~= existing@.take(i as int));
                assert(existing@.take(i + 1).last() == existing@[i as int]);
            }
            if !target.contains(entry.1) {
                if reclaimed.contains(entry.1) {
                    proof {
                        assert(names_reclaimed(existing@, target@, reclaimed@)) by {
                            assert(existing@[i as int].1 == entry.1);
                        }
                    }
                    return Err(
                        PagedbError::catalog_row_invalid(
                            "free-list entry names a page the base commit still reaches",
                        ),
                    );
                }
                entries.push(entry);
            }
            i = i + 1;
        }
        proof {
            assert(existing@.take(i as int) =~= existing@);
        }
        let floor: u64 = match self.reclamation_floor(state, history) {
            Ok(floor) => floor,
            Err(e) => return Err(e),
        };
        let ghost kept = entries@;
        let mut host_candidates: Vec<u64> = Vec::new();
        let mut h: usize = 0;
        while h < entries.len()
            invariant
                h <= entries@.len(),
                entries@ == kept,
                host_candidates@ == hosts_below(kept.take(h as int), floor),
            decreases entries@.len() - h,
        {
            proof {
                assert(kept.take(h + 1).drop_last() =~= kept.take(h as int));
                assert(kept.take(h + 1).last() == kept[h as int]);
            }
            if entries[h].0 < floor {
                host_candidates.push(entries[h].1);
            }
            h = h + 1;
        }
        proof {
            assert(kept.take(h as int) =~= kept);
        }
        let mut c: usize = 0;
        proof {
            assert(kept + tagged(reclaimed.list().take(0), freeing_commit_id) =~= kept);
        }
        while c < reclaimed.len()
            invariant
                c <= reclaimed.list().len(),
                entries@ == kept + tagged(reclaimed.list().take(c as int), freeing_commit_id),
            decreases reclaimed.list().len() - c,
        {
            entries.push((freeing_commit_id, reclaimed.at(c)));
            proof {
                assert(entries@ =~= kept + tagged(reclaimed.list().take(c + 1), freeing_commit_id));
            }
            c = c + 1;
        }
        proof {
            assert(reclaimed.list().take(c as int) =~= reclaimed.list());
        }
        let ghost mid = entries@;
        let mut k: usize = 0;
        proof {
            assert(mid + tagged(pages_kept(chain_pages@.take(0), target@), CHAIN_METADATA_CID)
                =~= mid);
        }
        while k < chain_pages.len()
            invariant
                k <= chain_pages@.len(),
                target.wf(),
                entries@ == mid + tagged(
                    pages_kept(chain_pages@.take(k as int), target@),
                    CHAIN_METADATA_CID,
                ),
            decreases chain_pages@.len() - k,
        {
            proof {
                assert(chain_pages@.take(k + 1).drop_last() =~= chain_pages@.take(k as int));
                assert(chain_pages@.take(k + 1).last() == chain_pages@[k as int]);
            }
            if !target.contains(chain_pages[k]) {
                entries.push((CHAIN_METADATA_CID, chain_pages[k]));
            }
            proof {
                assert(entries@ =~= mid + tagged(
                    pages_kept(chain_pages@.take(k + 1), target@),
                    CHAIN_METADATA_CID,
                ));
            }
            k = k + 1;
        }
        proof {
            assert(chain_pages@.take(k as int) =~= chain_pages@);
        }
        Ok(FreeListFold::Rewrite { entries, host_candidates, next_page_id: alloc_cursor })
    }
}

proof fn lemma_reaches_entry_step(s: Seq<(u64, u64)>, target: Set<u64>, i: int)
    requires
        0 <= i < s.len(),
    ensures
        reaches_entry(s.take(i + 1), target) == (reaches_entry(s.take(i), target)
            || target.contains(s[i].1)),
{
    let a = s.take(i + 1);
    let b = s.take(i);
    if reaches_entry(b, target) {
        let j = choose|j: int| 0 <= j < b.len() && target.contains((#[trigger] b[j]).1);
        assert(a[j] == b[j]);
    }
    assert(a[i] == s[i]);
    if reaches_entry(a, target) {
        let j = choose|j: int| 0 <= j < a.len() && target.contains((#[trigger] a[j]).1);
        if j < i {
            assert(b[j] == a[j]);
        }
    }
}

proof fn lemma_reaches_page_step(s: Seq<u64>, target: Set<u64>, i: int)
    requires
        0 <= i < s.len(),
    ensures
        reaches_page(s.take(i + 1), target) == (reaches_page(s.take(i), target)
            || target.contains(s[i])),
{
    let a = s.take(i + 1);
    let b = s.take(i);
    if reaches_page(b, target) {
        let j = choose|j: int| 0 <= j < b.len() && target.contains(#[trigger] b[j]);
        assert(a[j] == b[j]);
    }
    assert(a[i] == s[i]);
    if reaches_page(a, target) {
        let j = choose|j: int| 0 <= j < a.len() && target.contains(#[trigger] a[j]);
        if j < i {
            assert(b[j] == a[j]);
        }
    }
}

proof fn lemma_entries_kept(s: Seq<(u64, u64)>, target: Set<u64>)
    ensures
        forall|e: (u64, u64)|
            #[trigger] entries_kept(s, target).contains(e) ==> s.contains(e) && !target.contains(
                e.1,
            ),
        entries_kept(s, target).len() <= s.len(),
        no_page_twice(s) ==> no_page_twice(entries_kept(s, target)),
    decreases s.len(),
{
    if s.len() > 0 {
        let rest = s.drop_last();
        let k = entries_kept(rest, target);
        lemma_entries_kept(rest, target);
        assert forall|e: (u64, u64)| #[trigger] entries_kept(s, target).contains(e) implies s.contains(
            e,
        ) && !target.contains(e.1) by {
            let all = entries_kept(s, target);
            let j = all.index_of(e);
            if j < k.len() {
                assert(k[j] == e);
                assert(k.contains(e));
                let i = rest.index_of(e);
                assert(s[i] == e);
            } else {
                assert(s[s.len() - 1] == e);
            }
        }
        if no_page_twice(s) {
            assert forall|i: int, j: int| #![trigger rest[i], rest[j]] 0 <= i < j < rest.len() implies rest[i].1
                != rest[j].1 by {
                assert(s[i] == rest[i]);
                assert(s[j] == rest[j]);
            }
            if !target.contains(s.last().1) {
                let all = k.push(s.last());
                assert forall|i: int, j: int| #![trigger all[i], all[j]] 0 <= i < j
                    < all.len() implies all[i].1 != all[j].1 by {
                    assert(k[i] == all[i]);
                    if j < k.len() {
                        assert(k[j] == all[j]);
                    } else {
                        assert(k.contains(k[i]));
                        let m = rest.index_of(k[i]);
                        assert(s[m] == k[i]);
                        assert(s[s.len() - 1] == s.last());
                    }
                }
            }
        }
    }
}

proof fn lemma_pages_kept(s: Seq<u64>, target: Set<u64>)
    ensures
        forall|p: u64|
            #[trigger] pages_kept(s, target).contains(p) ==> s.contains(p) && !target.contains(p),
        s.no_duplicates() ==> pages_kept(s, target).no_duplicates(),
    decreases s.len(),
{
    if s.len() > 0 {
        let rest = s.drop_last();
        let k = pages_kept(rest, target);
        lemma_pages_kept(rest, target);
        let all = pages_kept(s, target);
        assert forall|p: u64| #[trigger] all.contains(p) implies s.contains(p) && !target.contains(
            p,
        ) by {
            let j = all.index_of(p);
            if j < k.len() {
                assert(k[j] == p);
                assert(k.contains(p));
                let i = rest.index_of(p);
                assert(s[i] == p);
            } else {
                assert(s[s.len() - 1] == p);
            }
        }
        if s.no_duplicates() && !target.contains(s.last()) {
            assert forall|i: int, j: int| 0 <= i < j < all.len() implies all[i] != all[j] by {
                assert(k[i] == all[i]);
                if j == k.len() {
                    assert(k.contains(k[i]));
                    let m = rest.index_of(k[i]);
                    assert(s[m] == k[i]);
                    assert(s[s.len() - 1] == s.last());
                } else {
                    assert(k[j] == all[j]);
                }
            }
        }
    }
}

/// Whether no page is named by two entries.
pub open spec fn no_page_twice(s: Seq<(u64, u64)>) -> bool {
    forall|i: int, j: int| #![trigger s[i], s[j]] 0 <= i < j < s.len() ==> s[i].1 != s[j].1
}

/// Whether an entry names the page.
pub open spec fn names_page(s: Seq<(u64, u64)>, page: u64) -> bool {
    exists|i: int| 0 <= i < s.len() && (#[trigger] s[i]).1 == page
}

/// The rewritten chain never records a page that the target reaches as free,
/// and names no page twice: nothing is owned twice once the target is live.
pub proof fn law_fold_gives_every_page_one_owner(
    existing: Seq<(u64, u64)>,
    chain_pages: Seq<u64>,
    reclaimed: Seq<u64>,
    target: Set<u64>,
    freeing_commit_id: u64,
    page: u64,
)
    requires
        no_page_twice(existing),
        chain_pages.no_duplicates(),
        reclaimed.no_duplicates(),
        forall|i: int| 0 <= i < reclaimed.len() ==> !target.contains(#[trigger] reclaimed[i]),
        forall|i: int|
            0 <= i < reclaimed.len() ==> !chain_pages.contains(#[trigger] reclaimed[i]),
        forall|i: int|
            0 <= i < existing.len() ==> !chain_pages.contains((#[trigger] existing[i]).1),
        !names_reclaimed(existing, target, reclaimed.to_set()),
        target.contains(page),
    ensures
        ({
            let folded = folded_entries(
                existing,
                chain_pages,
                reclaimed,
                target,
                freeing_commit_id,
            );
            no_page_twice(folded) && !names_page(folded, page)
        }),
{
    lemma_entries_kept(existing, target);
    lemma_pages_kept(chain_pages, target);
    let a = entries_kept(existing, target);
    let b = tagged(reclaimed, freeing_commit_id);
    let pc = pages_kept(chain_pages, target);
    let c = tagged(pc, CHAIN_METADATA_CID);
    let folded = folded_entries(existing, chain_pages, reclaimed, target, freeing_commit_id);
    assert forall|i: int| #![trigger folded[i]] 0 <= i < folded.len() implies !target.contains(
        folded[i].1,
    ) by {
        if i < a.len() {
            assert(folded[i] == a[i]);
            assert(a.contains(a[i]));
        } else if i < a.len() + b.len() {
            assert(folded[i] == b[i - a.len()]);
            assert(folded[i].1 == reclaimed[i - a.len()]);
        } else {
            assert(folded[i] == c[i - a.len() - b.len()]);
            assert(pc.contains(pc[i - a.len() - b.len()]));
        }
    }
    assert forall|i: int, j: int| #![trigger folded[i], folded[j]] 0 <= i < j
        < folded.len() implies folded[i].1 != folded[j].1 by {
        let na = a.len() as int;
        let nb = b.len() as int;
        if i < na {
            assert(folded[i] == a[i]);
            assert(a.contains(a[i]));
            let m = existing.index_of(a[i]);
            assert(existing[m] == a[i]);
            if j < na {
                assert(folded[j] == a[j]);
            } else if j < na + nb {
                assert(folded[j].1 == reclaimed[j - na]);
                assert(reclaimed.to_set().contains(reclaimed[j - na]));
            } else {
                assert(folded[j].1 == pc[j - na - nb]);
                assert(pc.contains(pc[j - na - nb]));
            }
        } else if i < na + nb {
            assert(folded[i].1 == reclaimed[i - na]);
            if j < na + nb {
                assert(folded[j].1 == reclaimed[j - na]);
            } else {
                assert(folded[j].1 == pc[j - na - nb]);
                assert(pc.contains(pc[j - na - nb]));
            }
        } else {
            assert(folded[i].1 == pc[i - na - nb]);
            assert(folded[j].1 == pc[j - na - nb]);
        }
    }
}

/// Every page the target gave up is on the rewritten chain, tagged with the
/// commit that the apply installs: nothing it abandons is lost.
pub proof fn law_fold_loses_no_reclaimed_page(
    existing: Seq<(u64, u64)>,
    chain_pages: Seq<u64>,
    reclaimed: Seq<u64>,
    target: Set<u64>,
    freeing_commit_id: u64,
    i: int,
)
    requires
        0 <= i < reclaimed.len(),
    ensures
        must_rewrite(existing, chain_pages, reclaimed, target),
        folded_entries(existing, chain_pages, reclaimed, target, freeing_commit_id).contains(
            (freeing_commit_id, reclaimed[i]),
        ),
{
    let folded = folded_entries(existing, chain_pages, reclaimed, target, freeing_commit_id);
    let n = entries_kept(existing, target).len() as int;
    assert(folded[n + i] == (freeing_commit_id, reclaimed[i]));
}

} // verus!
