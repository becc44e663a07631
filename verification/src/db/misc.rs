//! Accessors of a handle and its runtime statistics.

use vstd::prelude::*;

use crate::catalog::{Catalog, CatalogValue, KIND_SEGMENT};
use crate::clock::{next_segment_id, segment_id_at, wrapped_sum};
use crate::codec::copy_bytes;
use crate::errors::{PagedbError, Result};
use crate::mode::DbMode;
use crate::order::{
    has_prefix, lemma_lex_asymmetric, lemma_lex_irreflexive, lemma_lex_successor,
    lemma_lex_transitive, lemma_prefix_le, lex_le,
};
use crate::tree::{is_slot, lemma_resume_after, lemma_slot, BTree};

use super::handle::{poison_kept, Db};
use super::snapshot::count_field;

verus! {

/// Segment rows read per batch while they are counted.
pub const SEGMENT_ROW_BATCH: usize = 512;

/// What the pager reports of itself.
#[derive(Debug, Clone, Copy, PartialEq, Eq, Structural)]
pub struct PagerStats {
    pub main_db_bytes: u64,
    pub buffer_pool_pages: u64,
    pub buffer_pool_hits: u64,
    pub buffer_pool_misses: u64,
    pub dirty_pages: u64,
    pub free_list_pending_entries: u64,
}

/// Runtime metrics of a handle at one point in time.
#[derive(Debug, Clone, Copy, PartialEq, Eq, Structural)]
pub struct DbStats {
    pub latest_commit_id: u64,
    pub mode: DbMode,
    pub main_db_bytes: u64,
    pub main_db_next_page_id: u64,
    pub buffer_pool_pages: u64,
    pub buffer_pool_hits: u64,
    pub buffer_pool_misses: u64,
    pub dirty_pages: u64,
    pub tracked_readers: u32,
    pub pending_tombstones: u32,
    pub segments_live: u32,
    pub segments_total_bytes: u64,
    pub mmap_bytes_in_use: u64,
    pub mk_epoch: u64,
    pub free_list_pending_entries: u64,
    pub spill_bytes_in_use: u64,
}

/// What counting the segment rows of a catalog comes to, row by row in order:
/// how many there are, capped, and their bytes; or the first error met.
pub open spec fn segment_totals(s: Seq<(Seq<u8>, CatalogValue)>) -> Result<(u32, u64)>
    decreases s.len(),
{
    if s.len() == 0 {
        Ok((0, 0))
    } else {
        match segment_totals(s.drop_last()) {
            Err(e) => Err(e),
            Ok((count, bytes)) => if !has_prefix(s.last().0, seq![KIND_SEGMENT]) {
                Ok((count, bytes))
            } else {
                match s.last().1 {
                    CatalogValue::Segment(m) => if bytes + m.total_bytes > u64::MAX {
                        Err(PagedbError::ArithmeticOverflow { what: "stats.segments_total_bytes" })
                    } else {
                        Ok(
                            (
                                if count == u32::MAX {
                                    u32::MAX
                                } else {
                                    (count + 1) as u32
                                },
                                (bytes + m.total_bytes) as u64,
                            ),
                        )
                    },
                    _ => Err(PagedbError::row_invalid("segment.meta")),
                }
            },
        }
    }
}

proof fn lemma_totals_skip(s: Seq<(Seq<u8>, CatalogValue)>, a: int, b: int)
    requires
        0 <= a <= b <= s.len(),
        forall|j: int| #![trigger s[j]] a <= j < b ==> !has_prefix(s[j].0, seq![KIND_SEGMENT]),
    ensures
        segment_totals(s.take(a)) == segment_totals(s.take(b)),
    decreases b - a,
{
    if a < b {
        assert(s.take(b).drop_last() =~= s.take(b - 1));
        assert(s.take(b).last() == s[b - 1]);
        lemma_totals_skip(s, a, b - 1);
    }
}

proof fn lemma_totals_failed(s: Seq<(Seq<u8>, CatalogValue)>, a: int, b: int)
    requires
        0 <= a <= b <= s.len(),
        segment_totals(s.take(a)) is Err,
    ensures
        segment_totals(s.take(b)) == segment_totals(s.take(a)),
    decreases b - a,
{
    if a < b {
        assert(s.take(b).drop_last() =~= s.take(b - 1));
        lemma_totals_failed(s, a, b - 1);
    }
}

/// Counts the segment rows of a catalog, batch by batch.
pub fn count_segments(catalog: &BTree<CatalogValue>) -> (r: Result<(u32, u64)>)
    requires
        catalog.wf(),
    ensures
        r == segment_totals(catalog@),
{
    let mut prefix: Vec<u8> = Vec::new();
    prefix.push(KIND_SEGMENT);
    let mut cursor: Vec<u8> = copy_bytes(&prefix);
    let ghost s = catalog@;
    let ghost p = seq![KIND_SEGMENT];
    let len: usize = catalog.len();
    let mut done: usize = catalog.lower_bound(&prefix);
    let mut count: u32 = 0;
    let mut bytes: u64 = 0;
    proof {
        assert(prefix@ =~= p);
        assert forall|j: int| #![trigger s[j]] 0 <= j < done implies !has_prefix(s[j].0, p) by {
            if has_prefix(s[j].0, p) {
                lemma_prefix_le(s[j].0, p);
                lemma_lex_irreflexive(p);
                if p != s[j].0 {
                    lemma_lex_asymmetric(p, s[j].0);
                }
            }
        }
        assert(s.take(0) =~= Seq::<(Seq<u8>, CatalogValue)>::empty());
        lemma_totals_skip(s, 0, done as int);
        assert(s.take(s.len() as int) =~= s);
    }
    loop
        invariant
            catalog.wf(),
            s == catalog@,
            len == s.len(),
            p == seq![KIND_SEGMENT],
            prefix@ == p,
            s.take(s.len() as int) == s,
            lex_le(p, cursor@),
            done <= s.len(),
            is_slot(s, cursor@, done as int),
            segment_totals(s.take(done as int)) == Ok::<(u32, u64), PagedbError>((count, bytes)),
        decreases len - done,
    {
        let (lo, hi) = catalog.collect_prefix_batch_from(&prefix, &cursor, SEGMENT_ROW_BATCH);
        proof {
            lemma_slot(s, cursor@, lo as int);
            lemma_slot(s, cursor@, done as int);
        }
        if lo == hi {
            proof {
                lemma_totals_skip(s, done as int, s.len() as int);
            }
            return Ok((count, bytes));
        }
        cursor = copy_bytes(catalog.key_at(hi - 1));
        cursor.push(0);
        let exhausted: bool = hi - lo < SEGMENT_ROW_BATCH;
        proof {
            lemma_resume_after(s, hi - 1);
            let k = s[hi - 1].0;
            lemma_prefix_le(k, p);
            lemma_lex_successor(k, k);
            if p != k {
                lemma_lex_transitive(p, k, cursor@);
            }
        }
        let mut i: usize = lo;
        while i < hi
            invariant
                s == catalog@,
                s.take(s.len() as int) == s,
                p == seq![KIND_SEGMENT],
                lo <= i <= hi <= s.len(),
                forall|j: int| #![trigger s[j]] lo <= j < hi ==> has_prefix(s[j].0, p),
                segment_totals(s.take(i as int)) == Ok::<(u32, u64), PagedbError>((count, bytes)),
            decreases hi - i,
        {
            proof {
                assert(s.take(i + 1).drop_last() =~= s.take(i as int));
                assert(s.take(i + 1).last() == s[i as int]);
            }
            match Catalog::decode_segment_meta(catalog.value_at(i)) {
                Ok(meta) => {
                    count = count.saturating_add(1);
                    match bytes.checked_add(meta.total_bytes) {
                        Some(sum) => {
                            bytes = sum;
                        },
                        None => {
                            proof {
                                lemma_totals_failed(s, i + 1, s.len() as int);
                            }
                            return Err(
                                PagedbError::ArithmeticOverflow {
                                    what: "stats.segments_total_bytes",
                                },
                            );
                        },
                    }
                },
                Err(e) => {
                    proof {
                        lemma_totals_failed(s, i + 1, s.len() as int);
                    }
                    return Err(e);
                },
            }
            i = i + 1;
        }
        done = hi;
        if exhausted {
            proof {
                lemma_totals_skip(s, hi as int, s.len() as int);
            }
            return Ok((count, bytes));
        }
    }
}

fn capped_count(n: usize) -> (count: u32)
    ensures
        count == count_field(n as nat),
{
    if n as u64 <= u32::MAX as u64 {
        n as u32
    } else {
        u32::MAX
    }
}

impl Db {
    /// The mode this handle was opened with.
    pub fn mode(&self) -> (mode: DbMode)
        ensures
            mode == self.mode,
    {
        self.mode
    }

    /// Whether this handle is a full writer.
    pub fn is_writer(&self) -> (b: bool)
        ensures
            b == (self.mode is Standalone),
    {
        matches!(self.mode, DbMode::Standalone)
    }

    /// Whether incremental snapshots can be applied to this handle.
    pub fn can_apply_incremental(&self) -> (b: bool)
        ensures
            b == (self.mode is Follower),
    {
        matches!(self.mode, DbMode::Follower)
    }

    /// Whether this handle may be rekeyed into a writer.
    pub fn can_rekey_into_writer(&self) -> (b: bool)
        ensures
            b == (self.mode is ReadOnly || self.mode is Follower),
    {
        matches!(self.mode, DbMode::ReadOnly | DbMode::Follower)
    }

    /// Rekeying a restored handle into a writer is not supported.
    pub fn rekey_into_writer(self) -> (r: Result<Db>)
        ensures
            r == Err::<Db, PagedbError>(
                if self.poisoned_commit is Some {
                    PagedbError::DurablyCommittedButUnpublished { commit: self.poisoned_commit->0 }
                } else {
                    PagedbError::Unsupported
                },
            ),
    {
        match self.ensure_usable() {
            Ok(()) => Err(PagedbError::Unsupported),
            Err(e) => Err(e),
        }
    }

    /// The size of the main file in bytes, by what measuring it came to. Refused
    /// on a poisoned handle.
    pub fn main_db_byte_size(&self, measured: Result<u64>) -> (r: Result<u64>)
        ensures
            r == if self.poisoned_commit is Some {
                Err::<u64, PagedbError>(
                    PagedbError::DurablyCommittedButUnpublished { commit: self.poisoned_commit->0 },
                )
            } else {
                measured
            },
    {
        match self.ensure_usable() {
            Ok(()) => measured,
            Err(e) => Err(e),
        }
    }

    /// The allocation cursor that readers see.
    pub fn next_page_id(&self) -> (next: u64)
        ensures
            next == self.snapshot.next_page_id,
    {
        self.snapshot.next_page_id
    }

    /// An id for a new segment.
    pub fn next_segment_id(&mut self) -> (id: [u8; 16])
        ensures
            poison_kept(*old(self), *final(self)),
            *final(self) == (Db {
                segment_id_counter: wrapped_sum(old(self).segment_id_counter, 1),
                ..*old(self)
            }),
            exists|wall: u64|
                id@ == #[trigger] segment_id_at(
                    old(self).file_id@,
                    old(self).segment_id_counter,
                    wall,
                ),
    {
        let mut counter: u64 = self.segment_id_counter;
        let id: [u8; 16] = next_segment_id(&self.file_id, &mut counter);
        self.segment_id_counter = counter;
        id
    }

    /// Collects the metrics of the handle. What describes state that readers
    /// see comes from the published snapshot, which stays at the prior commit
    /// while the handle is poisoned. `catalog` are the rows under the published
    /// catalog root; it is not looked at when that root is 0.
    pub fn stats(&self, catalog: &BTree<CatalogValue>, pager: &PagerStats) -> (r: Result<DbStats>)
        requires
            catalog.wf(),
            self.snapshot.catalog_root_page_id != 0 ==> catalog.root()
                == self.snapshot.catalog_root_page_id,
        ensures
            ({
                let totals = if self.snapshot.catalog_root_page_id == 0 {
                    Ok::<(u32, u64), PagedbError>((0u32, 0u64))
                } else {
                    segment_totals(catalog@)
                };
                match r {
                    Ok(stats) => totals is Ok && stats == (DbStats {
                        latest_commit_id: self.snapshot.commit_id,
                        mode: self.mode,
                        main_db_bytes: pager.main_db_bytes,
                        main_db_next_page_id: self.snapshot.next_page_id,
                        buffer_pool_pages: pager.buffer_pool_pages,
                        buffer_pool_hits: pager.buffer_pool_hits,
                        buffer_pool_misses: pager.buffer_pool_misses,
                        dirty_pages: pager.dirty_pages,
                        tracked_readers: count_field(self.tracked_readers@.len()),
                        pending_tombstones: count_field(self.pending_tombstones@.len()),
                        segments_live: totals->Ok_0.0,
                        segments_total_bytes: totals->Ok_0.1,
                        mmap_bytes_in_use: self.mmap_bytes_in_use,
                        mk_epoch: self.mk_epoch,
                        free_list_pending_entries: pager.free_list_pending_entries,
                        spill_bytes_in_use: self.spill_bytes_in_use,
                    }),
                    Err(e) => totals == Err::<(u32, u64), PagedbError>(e),
                }
            }),
    {
        let (segments_live, segments_total_bytes) = if self.snapshot.catalog_root_page_id == 0 {
            (0u32, 0u64)
        } else {
            match count_segments(catalog) {
                Ok(totals) => totals,
                Err(e) => return Err(e),
            }
        };
        Ok(
            DbStats {
                latest_commit_id: self.snapshot.commit_id,
                mode: self.mode,
                main_db_bytes: pager.main_db_bytes,
                main_db_next_page_id: self.snapshot.next_page_id,
                buffer_pool_pages: pager.buffer_pool_pages,
                buffer_pool_hits: pager.buffer_pool_hits,
                buffer_pool_misses: pager.buffer_pool_misses,
                dirty_pages: pager.dirty_pages,
                tracked_readers: capped_count(self.tracked_readers.len()),
                pending_tombstones: capped_count(self.pending_tombstones.len()),
                segments_live,
                segments_total_bytes,
                mmap_bytes_in_use: self.mmap_bytes_in_use,
                mk_epoch: self.mk_epoch,
                free_list_pending_entries: pager.free_list_pending_entries,
                spill_bytes_in_use: self.spill_bytes_in_use,
            },
        )
    }

    /// Detaches a free-list chain that cannot be read. Every page it names is
    /// unreachable from every root, so losing it costs space and no data.
    pub fn drop_unreadable_free_list(&mut self, readable: bool)
        ensures
            poison_kept(*old(self), *final(self)),
            *final(self) == if readable {
                *old(self)
            } else {
                Db {
                    writer: crate::db::handle::WriterState {
                        free_list_root_page_id: 0,
                        ..old(self).writer
                    },
                    ..*old(self)
                }
            },
    {
        if self.writer.free_list_root_page_id != 0 && !readable {
            self.writer.free_list_root_page_id = 0;
        }
    }
}

/// The filesystem root of a file layer, for the layers that have one.
pub fn get_vfs_root(root: Option<String>) -> (r: Result<String>)
    ensures
        r == match root {
            Some(path) => Ok::<String, PagedbError>(path),
            None => Err::<String, PagedbError>(PagedbError::Unsupported),
        },
{
    match root {
        Some(path) => Ok(path),
        None => Err(PagedbError::Unsupported),
    }
}

} // verus!
