//! Named durable monotonic counters.

use vstd::prelude::*;
use vstd::string::StringSliceAdditionalSpecFns;

use crate::catalog::{counter_key_spec, Catalog, CatalogValue, MAX_SEGMENT_NAME_LEN};
use crate::errors::{PagedbError, Result};
use crate::tree::{
    ascending, lemma_slot_exists, lemma_with_row, lookup, slot_of_key, with_row, BTree,
};

use super::txn::{later_cursor, WriteTxn};

verus! {

/// A handle to a named durable monotonic counter, scoped to a write
/// transaction. A counter that was never written is 0.
pub struct CounterRef<'a> {
    pub catalog_tree: &'a mut BTree<CatalogValue>,
    pub main_tree: &'a mut BTree<Vec<u8>>,
    pub key: Vec<u8>,
}

/// What a counter stands at: 0 when it has no row.
pub open spec fn counter_value(s: Seq<(Seq<u8>, CatalogValue)>, key: Seq<u8>) -> Result<u64> {
    match lookup(s, key) {
        None => Ok(0),
        Some(CatalogValue::Counter(v)) => Ok(v),
        Some(_) => Err(PagedbError::row_invalid("counter.value")),
    }
}

impl<'a> CounterRef<'a> {
    /// The catalog tree that holds the counter's row.
    pub open spec fn catalog(&self) -> BTree<CatalogValue> {
        *self.catalog_tree
    }

    /// The data tree that shares the allocation cursor.
    pub open spec fn data(&self) -> BTree<Vec<u8>> {
        *self.main_tree
    }

    /// Whether a write moved nothing but the counter's row and the cursors, and
    /// brought the cursors of the two trees together at the later one.
    pub open spec fn wrote(&self, after: CounterRef<'a>, value: u64) -> bool {
        let cursor = later_cursor(self.data().next(), self.catalog().next());
        &&& after.key == self.key
        &&& after.catalog().wf()
        &&& after.catalog()@ == with_row(self.catalog()@, self.key@, CatalogValue::Counter(value))
        &&& after.catalog().root() == self.catalog().root()
        &&& after.catalog().next() == cursor
        &&& after.data()@ == self.data()@
        &&& after.data().root() == self.data().root()
        &&& after.data().next() == cursor
    }

    /// The current value.
    pub fn get(&self) -> (r: Result<u64>)
        requires
            self.catalog().wf(),
        ensures
            r == counter_value(self.catalog()@, self.key@),
    {
        match self.catalog_tree.get(&self.key) {
            None => Ok(0),
            Some(value) => Catalog::counter_of(value),
        }
    }

    /// Sets the counter to `value`, which may not be below the current value.
    pub fn set(&mut self, value: u64) -> (r: Result<()>)
        requires
            old(self).catalog().wf(),
        ensures
            *final(final(self).catalog_tree) == *final(old(self).catalog_tree),
            *final(final(self).main_tree) == *final(old(self).main_tree),
            match counter_value(old(self).catalog()@, old(self).key@) {
                Ok(current) => if value < current {
                    r == Err::<(), PagedbError>(PagedbError::Aborted) && *final(self) == *old(self)
                } else {
                    r is Ok && old(self).wrote(*final(self), value)
                },
                Err(e) => r == Err::<(), PagedbError>(e) && *final(self) == *old(self),
            },
    {
        let current: u64 = match self.get() {
            Ok(current) => current,
            Err(e) => return Err(e),
        };
        if value < current {
            return Err(PagedbError::Aborted);
        }
        Self::sync_to(self.main_tree, self.catalog_tree);
        self.catalog_tree.put(&self.key, CatalogValue::Counter(value));
        Self::sync_from(self.catalog_tree, self.main_tree);
        Ok(())
    }

    /// Adds `delta` to the counter and returns the new value.
    pub fn increment_by(&mut self, delta: u64) -> (r: Result<u64>)
        requires
            old(self).catalog().wf(),
        ensures
            *final(final(self).catalog_tree) == *final(old(self).catalog_tree),
            *final(final(self).main_tree) == *final(old(self).main_tree),
            match counter_value(old(self).catalog()@, old(self).key@) {
                Ok(current) => if current + delta > u64::MAX {
                    r == Err::<u64, PagedbError>(PagedbError::NonceCounterExhausted)
                        && *final(self) == *old(self)
                } else {
                    r == Ok::<u64, PagedbError>((current + delta) as u64) && old(self).wrote(
                        *final(self),
                        (current + delta) as u64,
                    )
                },
                Err(e) => r == Err::<u64, PagedbError>(e) && *final(self) == *old(self),
            },
    {
        let current: u64 = match self.get() {
            Ok(current) => current,
            Err(e) => return Err(e),
        };
        let next: u64 = match current.checked_add(delta) {
            Some(next) => next,
            None => return Err(PagedbError::NonceCounterExhausted),
        };
        Self::sync_to(self.main_tree, self.catalog_tree);
        self.catalog_tree.put(&self.key, CatalogValue::Counter(next));
        Self::sync_from(self.catalog_tree, self.main_tree);
        Ok(next)
    }

    /// Advances the catalog's cursor to at least the data tree's, before a
    /// catalog write.
    pub fn sync_to(main: &BTree<Vec<u8>>, catalog: &mut BTree<CatalogValue>)
        ensures
            final(catalog)@ == old(catalog)@,
            final(catalog).root() == old(catalog).root(),
            final(catalog).next() == later_cursor(main.next(), old(catalog).next()),
    {
        let a: u64 = main.next_page_id();
        let b: u64 = catalog.next_page_id();
        catalog.set_next_page_id(
            if a >= b {
                a
            } else {
                b
            },
        );
    }

    /// Advances the data tree's cursor to at least the catalog's, after a
    /// catalog write.
    pub fn sync_from(catalog: &BTree<CatalogValue>, main: &mut BTree<Vec<u8>>)
        ensures
            final(main)@ == old(main)@,
            final(main).root() == old(main).root(),
            final(main).next() == later_cursor(old(main).next(), catalog.next()),
    {
        let c: u64 = catalog.next_page_id();
        if main.next_page_id() < c {
            main.set_next_page_id(c);
        }
    }
}

impl WriteTxn {
    /// A handle to the counter `name`.
    pub fn counter<'tx>(&'tx mut self, name: &str) -> (r: Result<CounterRef<'tx>>)
        ensures
            match r {
                Ok(c) => {
                    &&& name.spec_bytes().len() <= MAX_SEGMENT_NAME_LEN
                    &&& c.key@ == counter_key_spec(name.spec_bytes())
                    &&& c.catalog() == old(self).catalog_tree
                    &&& c.data() == old(self).btree
                    &&& *final(self) == (WriteTxn {
                        catalog_tree: *final(c.catalog_tree),
                        btree: *final(c.main_tree),
                        ..*old(self)
                    })
                },
                Err(e) => name.spec_bytes().len() > MAX_SEGMENT_NAME_LEN && e == PagedbError::NameTooLong
                    && *final(self) == *old(self),
            },
    {
        match Catalog::counter_key(name.as_bytes()) {
            Ok(key) => Ok(
                CounterRef {
                    catalog_tree: &mut self.catalog_tree,
                    main_tree: &mut self.btree,
                    key,
                },
            ),
            Err(e) => Err(e),
        }
    }
}

/// A counter never goes backward: whatever an accepted write left it at is at
/// least what it stood at before.
pub proof fn law_counter_is_monotonic(
    before: Seq<(Seq<u8>, CatalogValue)>,
    key: Seq<u8>,
    value: u64,
)
    requires
        ascending(before),
        counter_value(before, key) is Ok,
        counter_value(before, key)->Ok_0 <= value,
    ensures
        counter_value(with_row(before, key, CatalogValue::Counter(value)), key) == Ok::<
            u64,
            PagedbError,
        >(value),
        counter_value(before, key)->Ok_0 <= counter_value(
            with_row(before, key, CatalogValue::Counter(value)),
            key,
        )->Ok_0,
{
    lemma_slot_exists(before, key);
    let i = slot_of_key(before, key);
    lemma_with_row(before, key, CatalogValue::Counter(value), i);
}

/// Writing one counter leaves every other counter where it stood.
pub proof fn law_counters_are_independent(
    before: Seq<(Seq<u8>, CatalogValue)>,
    key: Seq<u8>,
    value: u64,
    other: Seq<u8>,
)
    requires
        ascending(before),
        other != key,
    ensures
        counter_value(with_row(before, key, CatalogValue::Counter(value)), other) == counter_value(
            before,
            other,
        ),
{
    lemma_slot_exists(before, key);
    let i = slot_of_key(before, key);
    lemma_with_row(before, key, CatalogValue::Counter(value), i);
}

} // verus!
