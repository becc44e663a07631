//! Snapshot manifests, and which of them may advance a follower.

use vstd::prelude::*;

use crate::codec::same_id;
use crate::errors::{PagedbError, Result};
use crate::header::FIRST_ALLOCATABLE_PAGE_ID;

use super::handle::Db;

verus! {

/// The manifest version that this build reads and writes.
pub const SUPPORTED_SNAPSHOT_VERSION: u32 = 1;

/// A full snapshot.
pub const KIND_FULL: u8 = 0;

/// A snapshot of what changed since a base commit.
pub const KIND_INCREMENTAL: u8 = 1;

/// What a snapshot says of itself.
#[derive(Debug, Clone, Copy)]
pub struct SnapshotManifest {
    pub version: u32,
    pub kind: u8,
    pub target_commit: u64,
    pub base_commit: u64,
    pub file_id: [u8; 16],
    pub mk_epoch: u64,
    pub kek_salt: [u8; 16],
    pub cipher_id: u8,
    pub page_size: u32,
    pub next_page_id_at_target: u64,
    pub segments_count: u32,
    pub realm_id: [u8; 16],
    pub target_active_root_page_id: u64,
    pub target_catalog_root_page_id: u64,
}

/// Whether a root is absent or a page that an allocator handed out below the
/// cursor.
pub open spec fn root_page_valid(root_page_id: u64, next_page_id: u64) -> bool {
    root_page_id == 0 || FIRST_ALLOCATABLE_PAGE_ID <= root_page_id < next_page_id
}

/// Whether a root is absent or a page that an allocator handed out below the
/// cursor.
pub fn valid_root_page(root_page_id: u64, next_page_id: u64) -> (valid: bool)
    ensures
        valid == root_page_valid(root_page_id, next_page_id),
{
    root_page_id == 0 || (root_page_id >= FIRST_ALLOCATABLE_PAGE_ID && root_page_id < next_page_id)
}

/// Whether every byte is zero.
pub open spec fn all_zero(s: Seq<u8>) -> bool {
    forall|i: int| 0 <= i < s.len() ==> #[trigger] s[i] == 0
}

/// Whether every byte is zero.
pub fn is_all_zero(bytes: &[u8]) -> (zero: bool)
    ensures
        zero == all_zero(bytes@),
{
    let mut i: usize = 0;
    while i < bytes.len()
        invariant
            i <= bytes@.len(),
            forall|j: int| 0 <= j < i ==> #[trigger] bytes@[j] == 0,
        decreases bytes@.len() - i,
    {
        if bytes[i] != 0 {
            return false;
        }
        i = i + 1;
    }
    true
}

/// The first field, in the order they are checked, by which a manifest cannot
/// advance the handle's visible snapshot; `None` when it can.
pub open spec fn manifest_fault(db: Db, m: SnapshotManifest, reserved: Seq<u8>) -> Option<
    &'static str,
> {
    if m.version != SUPPORTED_SNAPSHOT_VERSION {
        Some("version")
    } else if m.kind != KIND_INCREMENTAL {
        Some("kind")
    } else if !all_zero(reserved) {
        Some("reserved")
    } else if m.file_id != db.file_id {
        Some("file_id")
    } else if m.kek_salt != db.kek_salt {
        Some("kek_salt")
    } else if m.mk_epoch != db.mk_epoch {
        Some("mk_epoch")
    } else if m.cipher_id != db.cipher_id.byte() {
        Some("cipher_id")
    } else if m.page_size as int != db.page_size as int {
        Some("page_size")
    } else if m.realm_id != db.realm_id.0 {
        Some("realm_id")
    } else if m.base_commit != db.snapshot.commit_id {
        Some("base_commit")
    } else if m.target_commit <= m.base_commit {
        Some("target_commit")
    } else if m.next_page_id_at_target < db.snapshot.next_page_id || m.next_page_id_at_target
        < FIRST_ALLOCATABLE_PAGE_ID {
        Some("next_page_id_at_target")
    } else if !root_page_valid(m.target_active_root_page_id, m.next_page_id_at_target) {
        Some("target_active_root_page_id")
    } else if !root_page_valid(m.target_catalog_root_page_id, m.next_page_id_at_target) {
        Some("target_catalog_root_page_id")
    } else {
        None
    }
}

/// How many bytes a manifest has.
pub const MANIFEST_LEN: u64 = 240;

/// A manifest file that was found to be as long as a manifest is. Only such a
/// file is read.
#[derive(Debug, Clone, Copy)]
pub struct MeasuredManifest {
    len: u64,
}

impl MeasuredManifest {
    /// How long the file is.
    pub closed spec fn len(&self) -> u64 {
        self.len
    }
}

/// Refuses a manifest file of the wrong length, before it is read and before its
/// authentication code is looked at.
pub fn check_manifest_length(len: u64) -> (r: Result<MeasuredManifest>)
    ensures
        match r {
            Ok(m) => len == MANIFEST_LEN && m.len() == len,
            Err(e) => len != MANIFEST_LEN && e == (PagedbError::SnapshotArtifactInvalid {
                field: "manifest.length",
            }),
        },
{
    if len != MANIFEST_LEN {
        Err(PagedbError::SnapshotArtifactInvalid { field: "manifest.length" })
    } else {
        Ok(MeasuredManifest { len })
    }
}

/// A manifest that was authenticated and may advance the handle that read it.
#[derive(Debug, Clone, Copy)]
pub struct AdmittedManifest {
    manifest: SnapshotManifest,
}

impl View for AdmittedManifest {
    type V = SnapshotManifest;

    closed spec fn view(&self) -> SnapshotManifest {
        self.manifest
    }
}

impl AdmittedManifest {
    /// What the manifest says.
    pub fn get(&self) -> (m: &SnapshotManifest)
        ensures
            *m == self@,
    {
        &self.manifest
    }
}

impl Db {
    /// Takes the manifest of an incremental snapshot, once its file was measured.
    /// `decoded` is what reading and authenticating it came to, with its
    /// reserved bytes.
    pub fn read_manifest(
        &self,
        measured: MeasuredManifest,
        decoded: Result<(SnapshotManifest, Vec<u8>)>,
    ) -> (r: Result<AdmittedManifest>)
        ensures
            match decoded {
                Err(e) => r == Err::<AdmittedManifest, PagedbError>(e),
                Ok((m, reserved)) => match manifest_fault(*self, m, reserved@) {
                    Some(field) => r == Err::<AdmittedManifest, PagedbError>(
                        PagedbError::SnapshotIncompatible { field },
                    ),
                    None => r is Ok && r->Ok_0@ == m,
                },
            },
    {
        match decoded {
            Err(e) => Err(e),
            Ok((manifest, reserved)) => match self.validate_incremental_manifest(
                &manifest,
                reserved.as_slice(),
            ) {
                Ok(()) => Ok(AdmittedManifest { manifest }),
                Err(e) => Err(e),
            },
        }
    }

    /// Rejects a manifest that cannot safely advance this follower's currently
    /// reader-visible snapshot. `reserved` are the manifest's reserved bytes.
    pub fn validate_incremental_manifest(&self, manifest: &SnapshotManifest, reserved: &[u8]) -> (r:
        Result<()>)
        ensures
            match r {
                Ok(()) => manifest_fault(*self, *manifest, reserved@) is None,
                Err(e) => {
                    &&& manifest_fault(*self, *manifest, reserved@) is Some
                    &&& e == (PagedbError::SnapshotIncompatible {
                        field: manifest_fault(*self, *manifest, reserved@)->0,
                    })
                },
            },
    {
        if manifest.version != SUPPORTED_SNAPSHOT_VERSION {
            return Err(PagedbError::SnapshotIncompatible { field: "version" });
        }
        if manifest.kind != KIND_INCREMENTAL {
            return Err(PagedbError::SnapshotIncompatible { field: "kind" });
        }
        if !is_all_zero(reserved) {
            return Err(PagedbError::SnapshotIncompatible { field: "reserved" });
        }
        if !same_id(&manifest.file_id, &self.file_id) {
            return Err(PagedbError::SnapshotIncompatible { field: "file_id" });
        }
        if !same_id(&manifest.kek_salt, &self.kek_salt) {
            return Err(PagedbError::SnapshotIncompatible { field: "kek_salt" });
        }
        if manifest.mk_epoch != self.mk_epoch {
            return Err(PagedbError::SnapshotIncompatible { field: "mk_epoch" });
        }
        if manifest.cipher_id != self.cipher_id.as_byte() {
            return Err(PagedbError::SnapshotIncompatible { field: "cipher_id" });
        }
        if manifest.page_size as u64 != self.page_size as u64 {
            return Err(PagedbError::SnapshotIncompatible { field: "page_size" });
        }
        if !same_id(&manifest.realm_id, &self.realm_id.0) {
            return Err(PagedbError::SnapshotIncompatible { field: "realm_id" });
        }
        if manifest.base_commit != self.snapshot.commit_id {
            return Err(PagedbError::SnapshotIncompatible { field: "base_commit" });
        }
        if manifest.target_commit <= manifest.base_commit {
            return Err(PagedbError::SnapshotIncompatible { field: "target_commit" });
        }
        if manifest.next_page_id_at_target < self.snapshot.next_page_id
            || manifest.next_page_id_at_target < FIRST_ALLOCATABLE_PAGE_ID {
            return Err(PagedbError::SnapshotIncompatible { field: "next_page_id_at_target" });
        }
        if !valid_root_page(manifest.target_active_root_page_id, manifest.next_page_id_at_target) {
            return Err(PagedbError::SnapshotIncompatible { field: "target_active_root_page_id" });
        }
        if !valid_root_page(manifest.target_catalog_root_page_id, manifest.next_page_id_at_target) {
            return Err(PagedbError::SnapshotIncompatible { field: "target_catalog_root_page_id" });
        }
        Ok(())
    }
}

/// A delta the follower has absorbed is refused when it is applied again: once
/// the visible snapshot is the delta's target, its base no longer matches.
pub proof fn law_absorbed_delta_is_refused(
    before: Db,
    after: Db,
    m: SnapshotManifest,
    reserved: Seq<u8>,
)
    requires
        manifest_fault(before, m, reserved) is None,
        after.snapshot.commit_id == m.target_commit,
    ensures
        manifest_fault(after, m, reserved) is Some,
{
}

} // verus!
