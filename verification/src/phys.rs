//! Physical-residency queries: validation of the queried range, framing of
//! the request, decoding of the per-page residency bitmap the driver
//! answers with, and the reconciliation of a region with that bitmap.
//!
//! The bitmap is kept in a `bitvec` bit-vector over bytes, least-significant
//! bit first, exactly as the driver lays it out in the response buffer.

use vstd::bytes::*;
use vstd::prelude::*;

use crate::codec::{pid_bits, pid_to_bits, put_u64};
use crate::errors::Error;
use crate::maps::{coalesce_entry, coalesced_ranges, MapsEntry};

use bitvec::order::Lsb0;
use bitvec::vec::BitVec;

verus! {

/// A per-page physical-residency bitmap, as the driver reports it: one bit
/// per page of the queried range, held in a `bitvec` bit-vector over the
/// response bytes, least-significant bit of each byte first.
#[verifier::external_body]
pub struct ResidencyBitmap {
    bits: BitVec<u8, Lsb0>,
}

/// What a residency bitmap holds, one `bool` per page.
pub uninterp spec fn residency_bits(v: ResidencyBitmap) -> Seq<bool>;

/// Bit `j` of a byte sequence, least-significant bit of each byte first:
/// bit `j % 8` of byte `j / 8`.
pub open spec fn byte_bit(buf: Seq<u8>, j: int) -> bool {
    (buf[j / 8] >> ((j % 8) as u8)) & 1 == 1
}

/// Relies on `BitVec::from_vec`: the produced bit-vector spans every bit of
/// the byte vector in order, least-significant bit of each byte first. The
/// length bound keeps the vector well below the limit past which `from_vec`
/// panics (a span of more than `usize::MAX >> 3` bits).
#[verifier::external_body]
fn bitmap_from_bytes(buf: Vec<u8>) -> (r: ResidencyBitmap)
    requires
        buf@.len() <= usize::MAX / 64,
    ensures
        residency_bits(r).len() == buf@.len() * 8,
        forall|j: int| 0 <= j < buf@.len() * 8 ==> residency_bits(r)[j] == byte_bit(buf@, j),
{
    ResidencyBitmap { bits: BitVec::from_vec(buf) }
}

/// Relies on `BitVec::truncate`: keeps the first `new_len` bits and does
/// nothing where `new_len` is not below the current length.
#[verifier::external_body]
fn bitmap_truncate(v: &mut ResidencyBitmap, new_len: usize)
    ensures
        residency_bits(*final(v)) == residency_bits(*old(v)).take(
            if new_len <= residency_bits(*old(v)).len() {
                new_len as int
            } else {
                residency_bits(*old(v)).len() as int
            },
        ),
{
    v.bits.truncate(new_len);
}

impl ResidencyBitmap {
    /// The number of pages the bitmap covers.
    ///
    /// Relies on `BitVec::len`: the number of bits held.
    #[verifier::external_body]
    pub fn len(&self) -> (r: usize)
        ensures
            r == residency_bits(*self).len(),
    {
        self.bits.len()
    }

    /// The residency of every page, in page order.
    ///
    /// Relies on `BitSlice::iter` (through the bit-vector's `Deref`): hands
    /// the held bits out in order, each as a plain `bool`.
    #[verifier::external_body]
    pub fn to_bools(&self) -> (r: Vec<bool>)
        ensures
            r@ == residency_bits(*self),
    {
        self.bits.iter().map(|b| *b).collect()
    }
}

/// Validates a physical-residency query range and returns its page count.
///
/// Both addresses must be page-aligned and `begin` must lie below `end`;
/// the checks come in that order, so nothing is sent to the driver for a
/// range that fails them.
pub fn check_phy_range(begin: u64, end: u64) -> (r: Result<u64, Error>)
    ensures
        (begin % 4096 != 0 || end % 4096 != 0) <==> r == Err::<u64, Error>(Error::NotAligned),
        begin % 4096 == 0 && end % 4096 == 0 && begin >= end ==> r == Err::<u64, Error>(
            Error::BeginLargerThanEnd(begin, end),
        ),
        begin % 4096 == 0 && end % 4096 == 0 && begin < end ==> r == Ok::<u64, Error>(
            ((end - begin) / 4096) as u64,
        ),
{
    if begin % 4096 != 0 {
        return Err(Error::NotAligned);
    }
    if end % 4096 != 0 {
        return Err(Error::NotAligned);
    }
    if begin >= end {
        return Err(Error::BeginLargerThanEnd(begin, end));
    }
    Ok((end - begin) / 4096)
}

/// Builds the physical-residency request buffer: pid, begin and end at
/// offsets 0, 8 and 16, sized to hold the response bitmap (one bit per
/// page) and never below the 24-byte request itself.
pub fn encode_phy_request(pid: i32, begin: u64, end: u64) -> (r: Vec<u8>)
    requires
        begin % 4096 == 0,
        end % 4096 == 0,
        begin < end,
        ((end - begin) / 4096 + 7) / 8 <= usize::MAX,
    ensures
        r@.len() == {
            let need = ((end - begin) / 4096 + 7) / 8;
            if need < 24 {
                24int
            } else {
                need
            }
        },
        r@.subrange(0, 8) == spec_u64_to_le_bytes(pid_bits(pid)),
        r@.subrange(8, 16) == spec_u64_to_le_bytes(begin),
        r@.subrange(16, 24) == spec_u64_to_le_bytes(end),
        forall|j: int| 24 <= j < r@.len() ==> r@[j] == 0,
{
    proof {
        lemma_auto_spec_u64_to_from_le_bytes();
    }
    let pages = (end - begin) / 4096;
    let need = (pages + 7) / 8;
    let size: usize = if need < 24 {
        24
    } else {
        need as usize
    };
    let mut buf: Vec<u8> = vec![0u8; size];
    put_u64(&mut buf, 0, pid_to_bits(pid));
    put_u64(&mut buf, 8, begin);
    put_u64(&mut buf, 16, end);
    proof {
        assert(buf@.subrange(0, 8) =~= spec_u64_to_le_bytes(pid_bits(pid)));
        assert(buf@.subrange(8, 16) =~= spec_u64_to_le_bytes(begin));
        assert(buf@.subrange(16, 24) =~= spec_u64_to_le_bytes(end));
    }
    buf
}

/// Decodes the driver's residency response for `[begin, end)` into a
/// bitmap of exactly one bit per page of the range: bit `j` of the buffer,
/// least-significant first, is page `j`'s residency.
pub fn decode_phy_response(begin: u64, end: u64, buf: Vec<u8>) -> (r: ResidencyBitmap)
    requires
        begin % 4096 == 0,
        end % 4096 == 0,
        begin < end,
        (end - begin) / 4096 <= 8 * buf@.len(),
        buf@.len() <= usize::MAX / 64,
    ensures
        residency_bits(r).len() == (end - begin) / 4096,
        forall|j: int|
            0 <= j < (end - begin) / 4096 ==> residency_bits(r)[j] == byte_bit(buf@, j),
{
    let pages = (end - begin) / 4096;
    let ghost bytes = buf@;
    let mut bits = bitmap_from_bytes(buf);
    bitmap_truncate(&mut bits, pages as usize);
    proof {
        assert(residency_bits(bits) =~= Seq::new(
            ((end - begin) / 4096) as nat,
            |j: int| byte_bit(bytes, j),
        ));
    }
    bits
}

/// Reconciles one region with its residency bitmap: the maximal
/// physically-backed sub-ranges, each inheriting the region's attributes.
///
/// Returns `None` exactly where the bitmap does not hold one bit per page
/// of the region.
pub fn physical_subranges(entry: &MapsEntry, phy: &ResidencyBitmap) -> (r: Option<Vec<MapsEntry>>)
    ensures
        r is Some <==> entry.end == entry.start + 0x1000 * residency_bits(*phy).len(),
        r matches Some(v) ==> {
            &&& v@.len() == coalesced_ranges(entry.start, residency_bits(*phy)).len()
            &&& forall|k: int|
                0 <= k < v@.len() ==> {
                    &&& v@[k].start == coalesced_ranges(entry.start, residency_bits(*phy))[k].0
                    &&& v@[k].end == coalesced_ranges(entry.start, residency_bits(*phy))[k].1
                    &&& v@[k].read_permission == entry.read_permission
                    &&& v@[k].write_permission == entry.write_permission
                    &&& v@[k].execute_permission == entry.execute_permission
                    &&& v@[k].shared == entry.shared
                    &&& v@[k].name@ == entry.name@
                }
        },
{
    let len = phy.len();
    let pages = len as u64;
    if pages > u64::MAX / 0x1000 {
        return None;
    }
    let span = pages * 0x1000;
    let matches_region = match entry.start.checked_add(span) {
        Some(e) => e == entry.end,
        None => false,
    };
    if !matches_region {
        return None;
    }
    let bits = phy.to_bools();
    Some(coalesce_entry(entry, &bits))
}

} // verus!
