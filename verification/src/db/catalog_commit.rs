//! Commits that change only catalog rows: quotas, counters, reader pins and
//! the progress of a rekey.

use vstd::prelude::*;

use crate::catalog::{
    quota_key_spec, Catalog, CatalogValue, RealmQuotas, KIND_COUNTER,
};
use crate::codec::copy_bytes;
use crate::errors::{PagedbError, Result};
use crate::header::{encode_root_ref, root_ref, HeaderCursor, MainDbHeaderFields};
use crate::ids::{ActiveSlot, CommitId, RealmId};
use crate::order::{
    has_prefix, lemma_lex_asymmetric, lemma_lex_irreflexive, lemma_lex_successor,
    lemma_lex_transitive, lemma_prefix_le, lex_le,
};
use crate::tree::{
    is_slot, lemma_lookup_at, lemma_resume_after, lemma_slot, with_row, BTree, TreePages,
};
use crate::write::segments::{quotas_in, quotas_of};
use crate::write::txn::later_cursor;

use super::handle::{
    poison_kept, poisoned, snapshot_of, Db, HeaderFieldsParams, SegmentReconciliation, WriterState,
};
use super::open::existing::records_state;

verus! {

/// Counter rows read per batch while they are validated.
pub const COUNTER_ROW_BATCH: usize = 512;

/// A catalog that was written to pages and is not yet named by a header.
#[derive(Debug, Clone, Copy, PartialEq, Eq, Structural)]
pub struct CatalogCommit {
    pub catalog_root_page_id: u64,
    pub catalog_root_txn_id: u64,
    pub next_page_id: u64,
    pub commit_id: u64,
}

/// The writer state once a catalog commit is durable.
pub open spec fn recatalogued(state: WriterState, c: CatalogCommit) -> WriterState {
    WriterState {
        catalog_root_page_id: c.catalog_root_page_id,
        catalog_root_txn_id: c.catalog_root_txn_id,
        next_page_id: c.next_page_id,
        latest_commit_id: c.commit_id,
        ..state
    }
}

/// Whether `f` is the header of a catalog commit: everything but the catalog,
/// the cursor and the commit number stays as it was.
pub open spec fn is_catalog_header(
    db: Db,
    c: CatalogCommit,
    seq: u64,
    counter_anchor: u64,
    f: MainDbHeaderFields,
) -> bool {
    &&& db.names_this_store(f)
    &&& f.mk_epoch == db.mk_epoch
    &&& f.seq == seq
    &&& f.active_root_page_id == db.writer.root_page_id
    &&& f.active_root_txn_id == db.writer.latest_commit_id
    &&& f.counter_anchor == counter_anchor
    &&& f.commit_id == CommitId(c.commit_id)
    &&& f.free_list_root@ == root_ref(db.writer.free_list_root_page_id, 0)
    &&& f.catalog_root@ == root_ref(c.catalog_root_page_id, c.catalog_root_txn_id)
    &&& f.apply_journal_root_page_id == 0
    &&& f.apply_journal_root_version == 0
    &&& f.commit_history_root_page_id == db.writer.commit_history_root_page_id
    &&& f.commit_history_root_version == db.writer.commit_history_root_version
    &&& f.restore_mode == 0
    &&& f.next_page_id == c.next_page_id
    &&& f.commit_retain_policy_tag == 0
    &&& f.commit_retain_policy_value == 0
}

impl Db {
    /// A catalog commit with a number of its own.
    pub fn catalog_micro_commit(&self, pages: &TreePages) -> (c: CatalogCommit)
        requires
            self.writer.latest_commit_id < u64::MAX,
        ensures
            c == (CatalogCommit {
                catalog_root_page_id: pages.root_page_id,
                catalog_root_txn_id: (self.writer.latest_commit_id + 1) as u64,
                next_page_id: later_cursor(pages.next_page_id, self.writer.next_page_id),
                commit_id: (self.writer.latest_commit_id + 1) as u64,
            }),
    {
        CatalogCommit {
            catalog_root_page_id: pages.root_page_id,
            catalog_root_txn_id: self.writer.latest_commit_id + 1,
            next_page_id: if pages.next_page_id >= self.writer.next_page_id {
                pages.next_page_id
            } else {
                self.writer.next_page_id
            },
            commit_id: self.writer.latest_commit_id + 1,
        }
    }

    /// The header of a catalog commit, above the sequence number of the live
    /// one.
    pub fn catalog_header_fields(&self, c: &CatalogCommit, counter_anchor: u64) -> (r: Result<
        MainDbHeaderFields,
    >)
        ensures
            match r {
                Ok(f) => {
                    &&& self.header_cursor.seq < u64::MAX
                    &&& is_catalog_header(
                        *self,
                        *c,
                        (self.header_cursor.seq + 1) as u64,
                        counter_anchor,
                        f,
                    )
                },
                Err(PagedbError::ArithmeticOverflow { what }) => what == "header sequence"
                    && self.header_cursor.seq == u64::MAX,
                Err(e) => e == PagedbError::Unsupported && self.header_cursor.seq < u64::MAX
                    && !self.page_size_supported(),
            },
    {
        let seq: u64 = match self.header_cursor.next_seq() {
            Ok(seq) => seq,
            Err(e) => return Err(e),
        };
        self.header_fields(
            HeaderFieldsParams {
                mk_epoch: self.mk_epoch,
                seq,
                active_root_page_id: self.writer.root_page_id,
                active_root_txn_id: self.writer.latest_commit_id,
                counter_anchor,
                commit_id: c.commit_id,
                catalog_root: encode_root_ref(c.catalog_root_page_id, c.catalog_root_txn_id),
                commit_history_root_page_id: self.writer.commit_history_root_page_id,
                commit_history_root_version: self.writer.commit_history_root_version,
                next_page_id: c.next_page_id,
                free_list_root_page_id: self.writer.free_list_root_page_id,
            },
        )
    }

    /// Ends a catalog commit by how its last steps went. A header that was not
    /// written leaves the handle as it was; an anchor that could not be
    /// committed leaves it poisoned.
    pub fn finish_catalog_commit(
        &mut self,
        c: &CatalogCommit,
        header: Result<(ActiveSlot, u64)>,
        anchored: bool,
    ) -> (r: Result<()>)
        ensures
            poison_kept(*old(self), *final(self)),
            match header {
                Err(e) => r == Err::<(), PagedbError>(e) && *final(self) == *old(self),
                Ok((slot, seq)) => {
                    let after = Db {
                        header_cursor: HeaderCursor { slot, seq },
                        writer: recatalogued(old(self).writer, *c),
                        ..*old(self)
                    };
                    if anchored {
                        r is Ok && *final(self) == (Db {
                            snapshot: snapshot_of(after.writer),
                            ..after
                        })
                    } else {
                        &&& r == Err::<(), PagedbError>(
                            PagedbError::DurablyCommittedButUnpublished {
                                commit: CommitId(c.commit_id),
                            },
                        )
                        &&& *final(self) == poisoned(after, CommitId(c.commit_id))
                    }
                },
            },
    {
        let (slot, seq) = match header {
            Ok(written) => written,
            Err(e) => return Err(e),
        };
        self.header_cursor = HeaderCursor { slot, seq };
        self.writer.catalog_root_page_id = c.catalog_root_page_id;
        self.writer.catalog_root_txn_id = c.catalog_root_txn_id;
        self.writer.next_page_id = c.next_page_id;
        self.writer.latest_commit_id = c.commit_id;
        let state: WriterState = self.writer;
        match self.finish_durable_commit(
            &state,
            CommitId(c.commit_id),
            anchored,
            Ok(SegmentReconciliation::Complete),
        ) {
            Ok(_) => Ok(()),
            Err(e) => Err(e),
        }
    }

    /// Stores the caps of a realm among the catalog's rows. Refused on a
    /// poisoned handle.
    pub fn set_realm_quotas(
        &self,
        catalog: &mut BTree<CatalogValue>,
        realm: RealmId,
        quotas: RealmQuotas,
    ) -> (r: Result<()>)
        requires
            old(catalog).wf(),
            old(catalog).root() == self.writer.catalog_root_page_id,
        ensures
            final(catalog).wf(),
            if self.poisoned_commit is Some {
                &&& r == Err::<(), PagedbError>(
                    PagedbError::DurablyCommittedButUnpublished { commit: self.poisoned_commit->0 },
                )
                &&& *final(catalog) == *old(catalog)
            } else {
                &&& r is Ok
                &&& final(catalog)@ == with_row(
                    old(catalog)@,
                    quota_key_spec(realm),
                    CatalogValue::Quotas(quotas),
                )
                &&& final(catalog).root() == old(catalog).root()
                &&& final(catalog).next() == old(catalog).next()
            },
    {
        match self.ensure_usable() {
            Ok(()) => {},
            Err(e) => return Err(e),
        }
        let key: Vec<u8> = Catalog::quota_key(realm);
        catalog.put(&key, CatalogValue::Quotas(quotas));
        Ok(())
    }

    /// The catalog commit that makes quotas durable. It is no commit of its own
    /// to readers: only the catalog's transaction moves on.
    pub fn quota_commit(&self, pages: &TreePages) -> (r: Result<CatalogCommit>)
        ensures
            r == if self.writer.latest_commit_id == u64::MAX {
                Err::<CatalogCommit, PagedbError>(
                    PagedbError::ArithmeticOverflow { what: "catalog transaction id" },
                )
            } else {
                Ok::<CatalogCommit, PagedbError>(
                    CatalogCommit {
                        catalog_root_page_id: pages.root_page_id,
                        catalog_root_txn_id: (self.writer.latest_commit_id + 1) as u64,
                        next_page_id: pages.next_page_id,
                        commit_id: self.writer.latest_commit_id,
                    },
                )
            },
    {
        match self.writer.latest_commit_id.checked_add(1) {
            None => Err(PagedbError::ArithmeticOverflow { what: "catalog transaction id" }),
            Some(catalog_root_txn_id) => Ok(
                CatalogCommit {
                    catalog_root_page_id: pages.root_page_id,
                    catalog_root_txn_id,
                    next_page_id: pages.next_page_id,
                    commit_id: self.writer.latest_commit_id,
                },
            ),
        }
    }

    /// The caps of a realm; none when the catalog has no row for it.
    pub fn realm_quotas(&self, catalog: &BTree<CatalogValue>, realm: RealmId) -> (r: Result<
        RealmQuotas,
    >)
        requires
            catalog.wf(),
            catalog.root() == self.snapshot.catalog_root_page_id,
        ensures
            r == if self.poisoned_commit is Some {
                Err::<RealmQuotas, PagedbError>(
                    PagedbError::DurablyCommittedButUnpublished { commit: self.poisoned_commit->0 },
                )
            } else {
                quotas_in(catalog@, realm)
            },
    {
        match self.ensure_usable() {
            Ok(()) => {},
            Err(e) => return Err(e),
        }
        quotas_of(catalog, realm)
    }
}

/// Whether every counter row of the catalog is one.
pub open spec fn counters_readable(s: Seq<(Seq<u8>, CatalogValue)>) -> bool {
    forall|j: int|
        #![trigger s[j]]
        0 <= j < s.len() && has_prefix(s[j].0, seq![KIND_COUNTER]) ==> s[j].1 is Counter
}

/// Checks every counter row of the catalog under a root, batch by batch. A root
/// of 0 is an empty catalog. Nothing is rewritten.
pub fn validate_counter_rows(root_page_id: u64, catalog: &BTree<CatalogValue>) -> (r: Result<()>)
    requires
        catalog.wf(),
    ensures
        r == if root_page_id == 0 || counters_readable(catalog@) {
            Ok::<(), PagedbError>(())
        } else {
            Err::<(), PagedbError>(PagedbError::row_invalid("counter.value"))
        },
{
    if root_page_id == 0 {
        return Ok(());
    }
    let mut prefix: Vec<u8> = Vec::new();
    prefix.push(KIND_COUNTER);
    let mut cursor: Vec<u8> = copy_bytes(&prefix);
    let ghost s = catalog@;
    let ghost p = seq![KIND_COUNTER];
    let len: usize = catalog.len();
    let mut done: usize = catalog.lower_bound(&prefix);
    proof {
        assert(prefix@ =~= p);
        assert forall|j: int| #![trigger s[j]] 0 <= j < done implies !has_prefix(s[j].0, p) by {
            if has_prefix(s[j].0, p) {
                lemma_prefix_le(s[j].0, p);
                lemma_lex_irreflexive(p);
                if p != s[j].0 {
                    lemma_lex_asymmetric(p, s[j].0);
                }
            }
        }
    }
    loop
        invariant
            catalog.wf(),
            s == catalog@,
            len == s.len(),
            p == seq![KIND_COUNTER],
            prefix@ == p,
            lex_le(p, cursor@),
            done <= s.len(),
            root_page_id != 0,
            is_slot(s, cursor@, done as int),
            forall|j: int|
                #![trigger s[j]]
                0 <= j < done && has_prefix(s[j].0, p) ==> s[j].1 is Counter,
        decreases len - done,
    {
        let (lo, hi) = catalog.collect_prefix_batch_from(&prefix, &cursor, COUNTER_ROW_BATCH);
        proof {
            lemma_slot(s, cursor@, lo as int);
            lemma_slot(s, cursor@, done as int);
        }
        if lo == hi {
            return Ok(());
        }
        cursor = copy_bytes(catalog.key_at(hi - 1));
        cursor.push(0);
        let exhausted: bool = hi - lo < COUNTER_ROW_BATCH;
        proof {
            lemma_resume_after(s, hi - 1);
            let k = s[hi - 1].0;
            lemma_prefix_le(k, p);
            lemma_lex_successor(k, k);
            if p != k {
                lemma_lex_transitive(p, k, cursor@);
            }
        }
        let mut i: usize = lo;
        while i < hi
            invariant
                s == catalog@,
                p == seq![KIND_COUNTER],
                lo <= i <= hi <= s.len(),
                root_page_id != 0,
                forall|j: int| #![trigger s[j]] lo <= j < hi ==> has_prefix(s[j].0, p),
                forall|j: int|
                    #![trigger s[j]]
                    0 <= j < i && has_prefix(s[j].0, p) ==> s[j].1 is Counter,
            decreases hi - i,
        {
            match Catalog::counter_of(catalog.value_at(i)) {
                Ok(_) => {},
                Err(e) => {
                    proof {
                        assert(has_prefix(s[i as int].0, p));
                        assert(!(s[i as int].1 is Counter));
                    }
                    return Err(e);
                },
            }
            i = i + 1;
        }
        done = hi;
        if exhausted {
            return Ok(());
        }
    }
}

/// A counter's row after recovery to an anchor: bumped to the anchor where it
/// stood below, untouched otherwise.
pub open spec fn recovered_row(row: (Seq<u8>, CatalogValue), anchor: u64) -> (
    Seq<u8>,
    CatalogValue,
) {
    match row.1 {
        CatalogValue::Counter(v) => if has_prefix(row.0, seq![KIND_COUNTER]) && v < anchor {
            (row.0, CatalogValue::Counter(anchor))
        } else {
            row
        },
        _ => row,
    }
}

/// The catalog's rows after recovery to an anchor.
pub open spec fn recovered_rows(s: Seq<(Seq<u8>, CatalogValue)>, anchor: u64) -> Seq<
    (Seq<u8>, CatalogValue),
> {
    Seq::new(s.len(), |i: int| recovered_row(s[i], anchor))
}

/// Bumps every counter below the anchor up to it, so that counters never go
/// backward across a lost write. Says whether a row changed and a catalog
/// commit is due. A malformed row is passed over.
pub fn recover_counter_monotonicity(catalog: &mut BTree<CatalogValue>, anchor: u64) -> (changed: bool)
    requires
        old(catalog).wf(),
    ensures
        final(catalog).wf(),
        final(catalog).root() == old(catalog).root(),
        final(catalog).next() == old(catalog).next(),
        final(catalog)@ == recovered_rows(old(catalog)@, anchor),
        changed == (final(catalog)@ != old(catalog)@),
{
    let mut prefix: Vec<u8> = Vec::new();
    prefix.push(KIND_COUNTER);
    proof {
        assert(prefix@ =~= seq![KIND_COUNTER]);
    }
    let (lo, hi) = catalog.prefix_range(&prefix);
    let ghost s = catalog@;
    let mut changed: bool = false;
    let mut i: usize = lo;
    while i < hi
        invariant
            catalog.wf(),
            s == old(catalog)@,
            catalog.root() == old(catalog).root(),
            catalog.next() == old(catalog).next(),
            lo <= i <= hi <= s.len(),
            catalog@.len() == s.len(),
            forall|j: int|
                #![trigger s[j]]
                0 <= j < s.len() ==> (lo <= j < hi <==> has_prefix(s[j].0, seq![KIND_COUNTER])),
            forall|j: int|
                #![trigger catalog@[j]]
                0 <= j < s.len() ==> catalog@[j] == if lo <= j < i {
                    recovered_row(s[j], anchor)
                } else {
                    s[j]
                },
            changed == exists|j: int|
                lo <= j < i && recovered_row(#[trigger] s[j], anchor) != s[j],
        decreases hi - i,
    {
        let ghost before = catalog@;
        assert(before[i as int] == s[i as int]);
        assert(has_prefix(s[i as int].0, seq![KIND_COUNTER]));
        let low: bool = match catalog.value_at(i) {
            CatalogValue::Counter(v) => *v < anchor,
            _ => false,
        };
        if low {
            let key: Vec<u8> = copy_bytes(catalog.key_at(i));
            proof {
                lemma_lookup_at(before, i as int);
            }
            catalog.put(&key, CatalogValue::Counter(anchor));
            changed = true;
            proof {
                assert(catalog@ == before.update(i as int, (key@, CatalogValue::Counter(anchor))));
                assert(recovered_row(s[i as int], anchor) != s[i as int]);
            }
        } else {
            proof {
                assert(recovered_row(s[i as int], anchor) == s[i as int]);
            }
        }
        i = i + 1;
    }
    proof {
        assert forall|j: int| 0 <= j < s.len() implies catalog@[j] == recovered_rows(s, anchor)[j] by {
            assert(catalog@[j] == if lo <= j < hi {
                recovered_row(s[j], anchor)
            } else {
                s[j]
            });
            if !(lo <= j < hi) {
                assert(!has_prefix(s[j].0, seq![KIND_COUNTER]));
            }
        }
        assert(catalog@ =~= recovered_rows(s, anchor));
        if changed {
            let j = choose|j: int| lo <= j < i && recovered_row(#[trigger] s[j], anchor) != s[j];
            assert(catalog@[j] != s[j]);
        } else {
            assert(catalog@ =~= s) by {
                assert forall|j: int| 0 <= j < s.len() implies catalog@[j] == s[j] by {
                    assert(s[j] == s[j]);
                }
            }
        }
    }
    changed
}

/// After recovery no counter stands below the anchor, none went down, and a
/// second recovery finds nothing to do.
pub proof fn law_recovered_counters_are_monotonic(
    s: Seq<(Seq<u8>, CatalogValue)>,
    anchor: u64,
    i: int,
)
    requires
        0 <= i < s.len(),
        has_prefix(s[i].0, seq![KIND_COUNTER]),
        s[i].1 is Counter,
    ensures
        recovered_rows(s, anchor)[i].1 is Counter,
        recovered_rows(s, anchor)[i].1->Counter_0 >= anchor,
        recovered_rows(s, anchor)[i].1->Counter_0 >= s[i].1->Counter_0,
        recovered_rows(recovered_rows(s, anchor), anchor) == recovered_rows(s, anchor),
{
    assert(recovered_rows(recovered_rows(s, anchor), anchor) =~= recovered_rows(s, anchor));
}

/// The header of a catalog commit records the state that the handle goes on
/// with, where nothing else was to be preserved: no pending journal, no restore
/// mode and no retention fields.
pub proof fn law_catalog_header_records_state(
    db: Db,
    c: CatalogCommit,
    seq: u64,
    counter_anchor: u64,
    f: MainDbHeaderFields,
)
    requires
        is_catalog_header(db, c, seq, counter_anchor, f),
        db.writer.pending_apply_journal_id@ == root_ref(0, 0),
        db.writer.restore_mode == 0,
        db.writer.commit_retain_policy_tag == 0,
        db.writer.commit_retain_policy_value == 0,
    ensures
        records_state(f, recatalogued(db.writer, c)),
{
}

/// A catalog commit moves no data: the roots that readers resolve rows from
/// stay, and only the catalog, the cursor and the commit number change.
pub proof fn law_catalog_commit_keeps_data(state: WriterState, c: CatalogCommit)
    ensures
        recatalogued(state, c).root_page_id == state.root_page_id,
        recatalogued(state, c).free_list_root_page_id == state.free_list_root_page_id,
        recatalogued(state, c).commit_history_root_page_id == state.commit_history_root_page_id,
        recatalogued(state, c).commit_history_count == state.commit_history_count,
{
}

} // verus!
