//! Cleartext classification of a main header before any key is trusted.
//!
//! Three open failures look like damage once all that is known is that the
//! authentication code did not verify, and none of them means that the store is
//! damaged: the caller supplied the wrong page size, the wrong key, or the
//! store is at a format version that this build does not read. All three are
//! decided here, from framing that no key protects.
//!
//! Everything in this module reads unauthenticated bytes, so it may only ever
//! refuse an open or classify one that already failed.

use vstd::prelude::*;

use crate::codec::{le_value, take_16, u64_from_le};
use crate::db::manifest_validation::{all_zero, is_all_zero};
use crate::errors::{CorruptionDetail, PagedbError, Result};
use crate::header::{is_page_size_log2, MainDbHeaderFields, MAIN_FORMAT_VERSION};
use crate::order::{has_prefix, starts_with};

verus! {

/// The shape of a main header page.
#[derive(Debug, Clone, Copy)]
pub struct HeaderFrame {
    /// The bytes that every main header starts with.
    pub magic: [u8; 8],
    /// Where the fields end and the zero padding begins.
    pub fields_end: usize,
    /// How many bytes at the end of the page authenticate it.
    pub mac_len: usize,
}

/// Where the reserved bytes among the header fields begin.
pub const RESERVED_START: usize = 161;

/// Where the reserved bytes among the header fields end.
pub const RESERVED_END: usize = 168;

impl HeaderFrame {
    /// The reserved bytes stand among the fields, and the frame's lengths are
    /// those of something in memory.
    pub open spec fn wf(&self) -> bool {
        &&& RESERVED_END <= self.fields_end
        &&& self.fields_end + self.mac_len <= usize::MAX
    }
}

/// The page size that a slot declares, if it is recognisably a main header.
pub open spec fn page_size_declared(slot: Seq<u8>, magic: Seq<u8>) -> Option<u8> {
    if slot.len() < 12 || !has_prefix(slot, magic) || !(12 <= slot[11] <= 16) {
        None
    } else {
        Some(slot[11])
    }
}

/// The format version that a slot declares, if it is recognisably a main
/// header.
pub open spec fn format_version_declared(slot: Seq<u8>, magic: Seq<u8>) -> Option<u16> {
    if slot.len() < 10 || !has_prefix(slot, magic) {
        None
    } else {
        Some(le_value(slot.subrange(8, 10)) as u16)
    }
}

/// What the first slot that declares anything declares.
pub open spec fn either<T>(a: Option<T>, b: Option<T>) -> Option<T> {
    if a is Some {
        a
    } else {
        b
    }
}

/// A slot's cleartext page size, if the slot is recognisably ours. A read of
/// the wrong size still begins with the first bytes of the real header, so the
/// field is legible in exactly the case it is needed.
pub fn declared_page_size(slot: &[u8], magic: &[u8; 8]) -> (r: Option<usize>)
    ensures
        match r {
            Some(size) => page_size_declared(slot@, magic@) is Some && is_page_size_log2(
                size as int,
                page_size_declared(slot@, magic@)->0,
            ),
            None => page_size_declared(slot@, magic@) is None,
        },
{
    if slot.len() < 12 || !starts_with(slot, magic.as_slice()) {
        return None;
    }
    proof {
        vstd::arithmetic::power2::lemma2_to64();
    }
    match slot[11] {
        12 => Some(4096),
        13 => Some(8192),
        14 => Some(16384),
        15 => Some(32768),
        16 => Some(65536),
        _ => None,
    }
}

/// A slot's cleartext format version, if the slot is recognisably ours.
pub fn declared_format_version(slot: &[u8], magic: &[u8; 8]) -> (r: Option<u16>)
    ensures
        r == format_version_declared(slot@, magic@),
{
    if slot.len() < 10 || !starts_with(slot, magic.as_slice()) {
        return None;
    }
    let version: u16 = slot[8] as u16 + 256 * (slot[9] as u16);
    proof {
        let s = slot@.subrange(8, 10);
        reveal_with_fuel(le_value, 3);
        assert(s.drop_first()[0] == slot@[9]);
        assert(s.drop_first().drop_first() =~= Seq::<u8>::empty());
    }
    Some(version)
}

/// Refuse an open whose page size disagrees with what the store records. Runs
/// before any derivation: a wrong page size makes every later check
/// meaningless.
pub fn check_page_size(slot_a: &[u8], slot_b: &[u8], supplied: usize, magic: &[u8; 8]) -> (r: Result<
    (),
>)
    ensures
        ({
            let declared = either(
                page_size_declared(slot_a@, magic@),
                page_size_declared(slot_b@, magic@),
            );
            match r {
                Ok(()) => declared is None || is_page_size_log2(supplied as int, declared->0),
                Err(PagedbError::PageSizeMismatch { stored, supplied: s }) => declared is Some
                    && is_page_size_log2(stored as int, declared->0) && s == supplied && stored
                    != supplied,
                Err(_) => false,
            }
        }),
{
    let declared: Option<usize> = match declared_page_size(slot_a, magic) {
        Some(size) => Some(size),
        None => declared_page_size(slot_b, magic),
    };
    match declared {
        None => Ok(()),
        Some(stored) => {
            if stored == supplied {
                Ok(())
            } else {
                Err(PagedbError::PageSizeMismatch { stored, supplied })
            }
        },
    }
}

/// Refuse an open whose format version this build does not read. Runs before
/// the authentication check: a store from another version has an intact frame,
/// so afterwards it would look like a wrong key.
pub fn check_format_version(slot_a: &[u8], slot_b: &[u8], magic: &[u8; 8]) -> (r: Result<()>)
    ensures
        r == match either(
            format_version_declared(slot_a@, magic@),
            format_version_declared(slot_b@, magic@),
        ) {
            None => Ok::<(), PagedbError>(()),
            Some(stored) => if stored == MAIN_FORMAT_VERSION {
                Ok::<(), PagedbError>(())
            } else {
                Err::<(), PagedbError>(
                    PagedbError::FormatVersionUnsupported { stored, supported: MAIN_FORMAT_VERSION },
                )
            },
        },
{
    let declared: Option<u16> = match declared_format_version(slot_a, magic) {
        Some(version) => Some(version),
        None => declared_format_version(slot_b, magic),
    };
    match declared {
        None => Ok(()),
        Some(stored) => {
            if stored == MAIN_FORMAT_VERSION {
                Ok(())
            } else {
                Err(
                    PagedbError::FormatVersionUnsupported { stored, supported: MAIN_FORMAT_VERSION },
                )
            }
        },
    }
}

/// Whether a slot is a whole page with the magic, zero reserved bytes and zero
/// padding.
pub open spec fn framed(slot: Seq<u8>, page_size: usize, frame: HeaderFrame) -> bool {
    &&& page_size > frame.fields_end + frame.mac_len
    &&& slot.len() == page_size
    &&& has_prefix(slot, frame.magic@)
    &&& all_zero(slot.subrange(RESERVED_START as int, RESERVED_END as int))
    &&& all_zero(slot.subrange(frame.fields_end as int, page_size - frame.mac_len))
}

fn is_framed(slot: &[u8], page_size: usize, frame: &HeaderFrame) -> (r: bool)
    requires
        frame.wf(),
    ensures
        r == framed(slot@, page_size, *frame),
{
    if page_size <= frame.fields_end + frame.mac_len || slot.len() != page_size {
        return false;
    }
    if !starts_with(slot, frame.magic.as_slice()) {
        return false;
    }
    is_all_zero(vstd::slice::slice_subrange(slot, RESERVED_START, RESERVED_END)) && is_all_zero(
        vstd::slice::slice_subrange(slot, frame.fields_end, page_size - frame.mac_len),
    )
}

/// Classify a store whose every header slot failed to verify. A slot that still
/// has the magic and a well-formed frame is a header that the supplied key did
/// not open: naming damage as a key problem costs a retry, while naming a key
/// problem as damage costs a database.
pub fn unverifiable_header_cause(
    slot_a: &[u8],
    slot_b: &[u8],
    page_size: usize,
    frame: &HeaderFrame,
) -> (e: PagedbError)
    requires
        frame.wf(),
    ensures
        e == if framed(slot_a@, page_size, *frame) || framed(slot_b@, page_size, *frame) {
            PagedbError::KeyMismatch
        } else {
            PagedbError::Corruption(CorruptionDetail::HeaderUnverifiable)
        },
{
    if is_framed(slot_a, page_size, frame) || is_framed(slot_b, page_size, frame) {
        PagedbError::KeyMismatch
    } else {
        PagedbError::Corruption(CorruptionDetail::HeaderUnverifiable)
    }
}

/// The salt and the key epoch that a slot records in the clear: what the key
/// that verifies the slot is derived from. `None` when the slot is too short.
pub fn slot_key_inputs(slot: &[u8]) -> (r: Option<([u8; 16], u64)>)
    ensures
        match r {
            Some((salt, epoch)) => slot@.len() >= 56 && salt@ == slot@.subrange(32, 48) && epoch
                == le_value(slot@.subrange(48, 56)),
            None => slot@.len() < 56,
        },
{
    if slot.len() < 56 {
        return None;
    }
    Some((take_16(slot, 32), u64_from_le(slot, 48)))
}

/// The restore mode of the first slot that verifies.
pub fn peek_restore_mode(a: Option<MainDbHeaderFields>, b: Option<MainDbHeaderFields>) -> (r: Result<
    u8,
>)
    ensures
        r == match either(a, b) {
            Some(fields) => Ok::<u8, PagedbError>(fields.restore_mode),
            None => Err::<u8, PagedbError>(
                PagedbError::Corruption(CorruptionDetail::HeaderUnverifiable),
            ),
        },
{
    match a {
        Some(fields) => Ok(fields.restore_mode),
        None => match b {
            Some(fields) => Ok(fields.restore_mode),
            None => Err(PagedbError::Corruption(CorruptionDetail::HeaderUnverifiable)),
        },
    }
}

/// A slot with an intact frame declares its version, and declares its page
/// size where that byte is intact too: a mismatch of either is reported as
/// itself before the slot could be taken for one of another key.
pub proof fn law_intact_frame_declares(slot: Seq<u8>, page_size: usize, frame: HeaderFrame)
    requires
        frame.wf(),
        framed(slot, page_size, frame),
    ensures
        format_version_declared(slot, frame.magic@) is Some,
        12 <= slot[11] <= 16 ==> page_size_declared(slot, frame.magic@) == Some(slot[11]),
{
}

} // verus!
