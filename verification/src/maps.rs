//! Memory regions of the target process, and the coalescer that reconciles a
//! region with its per-page physical-residency bitmap into the maximal
//! physically-backed sub-ranges.

use vstd::bytes::*;
use vstd::prelude::*;
use vstd::slice::*;

use crate::codec::{pid_bits, pid_to_bits, put_u64};
use crate::errors::Error;

verus! {

/// One virtual mapping of the target process at the instant of the query.
#[derive(Debug, PartialEq, Eq)]
pub struct MapsEntry {
    /// First address of the region.
    pub start: u64,
    /// First address past the region; always above `start` in what the
    /// driver reports.
    pub end: u64,
    /// Whether the region is readable.
    pub read_permission: bool,
    /// Whether the region is writable.
    pub write_permission: bool,
    /// Whether the region is executable.
    pub execute_permission: bool,
    /// Whether the mapping is shared.
    pub shared: bool,
    /// The name of the backing object, empty where the driver reports none.
    pub name: String,
}

/// The maximal runs of set bits at and after position `i`, as half-open
/// index pairs, given that a run is already open since `pending` (if any).
///
/// A `false -> true` transition opens a run; a `true -> false` transition
/// closes it; a run still open past the last bit closes at the length.
pub open spec fn runs_from(bits: Seq<bool>, i: int, pending: Option<int>) -> Seq<(int, int)>
    decreases bits.len() - i,
{
    if i < 0 || i >= bits.len() {
        match pending {
            Some(b) => seq![(b, bits.len() as int)],
            None => Seq::empty(),
        }
    } else {
        match pending {
            None => if bits[i] {
                runs_from(bits, i + 1, Some(i))
            } else {
                runs_from(bits, i + 1, None)
            },
            Some(b) => if bits[i] {
                runs_from(bits, i + 1, Some(b))
            } else {
                seq![(b, i)] + runs_from(bits, i + 1, None)
            },
        }
    }
}

/// The maximal runs of set bits of a residency bitmap, as half-open
/// page-index pairs, in increasing order.
pub open spec fn resident_runs(bits: Seq<bool>) -> Seq<(int, int)> {
    runs_from(bits, 0, None)
}

/// The physically-backed sub-ranges of a region that starts at `start` and
/// whose residency bitmap is `bits`: one half-open address pair per maximal
/// run of resident pages.
pub open spec fn coalesced_ranges(start: u64, bits: Seq<bool>) -> Seq<(int, int)> {
    resident_runs(bits).map_values(|r: (int, int)| (start + r.0 * 0x1000, start + r.1 * 0x1000))
}

/// How one emitted sub-range relates to its parent region: it spans the run
/// of pages `run` within a region of `len` pages, and inherits every
/// attribute of the parent.
pub open spec fn sub_entry_matches(e: MapsEntry, parent: MapsEntry, run: (int, int), len: int) -> bool {
    &&& 0 <= run.0 < run.1 <= len
    &&& e.start == parent.start + run.0 * 0x1000
    &&& e.end == parent.start + run.1 * 0x1000
    &&& e.read_permission == parent.read_permission
    &&& e.write_permission == parent.write_permission
    &&& e.execute_permission == parent.execute_permission
    &&& e.shared == parent.shared
    &&& e.name@ == parent.name@
}

/// Coalesces one region with its per-page residency bitmap into the maximal
/// physically-backed sub-ranges, each inheriting the region's permission,
/// sharing and name attributes.
///
/// The bitmap holds one bit per page of the region, in page order, so the
/// region's length is exactly `0x1000` times the number of bits.
pub fn coalesce_entry(entry: &MapsEntry, resident: &Vec<bool>) -> (r: Vec<MapsEntry>)
    requires
        entry.end == entry.start + 0x1000 * resident@.len(),
    ensures
        r@.len() == coalesced_ranges(entry.start, resident@).len(),
        forall|k: int|
            0 <= k < r@.len() ==> {
                &&& r@[k].start == coalesced_ranges(entry.start, resident@)[k].0
                &&& r@[k].end == coalesced_ranges(entry.start, resident@)[k].1
                &&& r@[k].read_permission == entry.read_permission
                &&& r@[k].write_permission == entry.write_permission
                &&& r@[k].execute_permission == entry.execute_permission
                &&& r@[k].shared == entry.shared
                &&& r@[k].name@ == entry.name@
            },
{
    let ghost bits = resident@;
    let n = resident.len();
    let mut out: Vec<MapsEntry> = Vec::new();
    let ghost mut done: Seq<(int, int)> = Seq::empty();
    let mut pending: Option<usize> = None;
    let mut i: usize = 0;
    proof {
        assert(done + runs_from(bits, 0, None) =~= resident_runs(bits));
    }
    while i < n
        invariant
            0 <= i <= n,
            n == bits.len(),
            bits == resident@,
            entry.end == entry.start + 0x1000 * bits.len(),
            pending matches Some(b) ==> b < i,
            resident_runs(bits) == done + runs_from(
                bits,
                i as int,
                match pending {
                    Some(b) => Some(b as int),
                    None => None,
                },
            ),
            out@.len() == done.len(),
            forall|k: int|
                0 <= k < out@.len() ==> sub_entry_matches(#[trigger] out@[k], *entry, done[k], n as int),
        decreases n - i,
    {
        let is_resident = resident[i];
        match pending {
            None => {
                if is_resident {
                    pending = Some(i);
                }
            },
            Some(b) => {
                if !is_resident {
                    let sub = MapsEntry {
                        start: entry.start + (b as u64) * 0x1000,
                        end: entry.start + (i as u64) * 0x1000,
                        read_permission: entry.read_permission,
                        write_permission: entry.write_permission,
                        execute_permission: entry.execute_permission,
                        shared: entry.shared,
                        name: entry.name.clone(),
                    };
                    proof {
                        assert(sub_entry_matches(sub, *entry, (b as int, i as int), n as int));
                    }
                    out.push(sub);
                    proof {
                        done = done + seq![(b as int, i as int)];
                    }
                    pending = None;
                }
            },
        }
        i = i + 1;
    }
    if let Some(b) = pending {
        let sub = MapsEntry {
            start: entry.start + (b as u64) * 0x1000,
            end: entry.end,
            read_permission: entry.read_permission,
            write_permission: entry.write_permission,
            execute_permission: entry.execute_permission,
            shared: entry.shared,
            name: entry.name.clone(),
        };
        proof {
            assert(sub_entry_matches(sub, *entry, (b as int, n as int), n as int));
        }
        out.push(sub);
        proof {
            done = done + seq![(b as int, bits.len() as int)];
        }
    }
    proof {
        assert(resident_runs(bits) == done);
        assert forall|k: int| 0 <= k < out@.len() implies {
            &&& out@[k].start == coalesced_ranges(entry.start, bits)[k].0
            &&& out@[k].end == coalesced_ranges(entry.start, bits)[k].1
        } by {
            assert(sub_entry_matches(out@[k], *entry, done[k], n as int));
            assert(coalesced_ranges(entry.start, bits)[k] == (
                entry.start + done[k].0 * 0x1000,
                entry.start + done[k].1 * 0x1000,
            ));
        }
    }
    out
}

/// What the characters of a name decode to.
///
/// Relies on `String::from_utf8_lossy`: the decoding is a pure function of
/// the bytes alone; invalid UTF-8 sequences become replacement characters.
pub uninterp spec fn lossy_utf8(bytes: Seq<u8>) -> Seq<char>;

/// Relies on `String::from_utf8_lossy` to decode a region name; an empty
/// byte sequence decodes to the empty string.
#[verifier::external_body]
fn utf8_lossy(bytes: &Vec<u8>) -> (r: String)
    ensures
        r@ == lossy_utf8(bytes@),
        bytes@.len() == 0 ==> r@.len() == 0,
{
    String::from_utf8_lossy(bytes.as_slice()).into_owned()
}

/// The position of the first NUL byte at or after `i`, or the length where
/// there is none.
pub open spec fn name_prefix_len(bytes: Seq<u8>, i: int) -> int
    decreases bytes.len() - i,
{
    if i < 0 || i >= bytes.len() {
        bytes.len() as int
    } else if bytes[i] == 0 {
        i
    } else {
        name_prefix_len(bytes, i + 1)
    }
}

/// `name_prefix_len` is the position of the first NUL: no byte before `t`
/// is NUL, and `t` is either a NUL or the end.
proof fn lemma_name_prefix_len(bytes: Seq<u8>, i: int, t: int)
    requires
        0 <= i <= t <= bytes.len(),
        forall|j: int| i <= j < t ==> bytes[j] != 0,
        t == bytes.len() || bytes[t] == 0,
    ensures
        name_prefix_len(bytes, i) == t,
    decreases t - i,
{
    if i < t {
        lemma_name_prefix_len(bytes, i + 1, t);
    }
}

/// The number of entries the driver's region-list response announces.
pub open spec fn spec_maps_count(buf: Seq<u8>) -> int {
    spec_u64_from_le_bytes(buf.subrange(0, 8)) as int
}

/// The name bytes of entry `k` of a region-list response: the name field,
/// cut at its first NUL.
pub open spec fn entry_name_bytes(buf: Seq<u8>, k: int) -> Seq<u8> {
    let field = buf.subrange(8 + 532 * k + 20, 8 + 532 * k + 532);
    field.take(name_prefix_len(field, 0))
}

/// Whether `e` is exactly what entry `k` of a region-list response decodes
/// to: both addresses little-endian, each permission a non-zero byte, the
/// name the UTF-8 (lossy) decoding of the NUL-terminated name field.
pub open spec fn entry_parsed(buf: Seq<u8>, k: int, e: MapsEntry) -> bool {
    let off = 8 + 532 * k;
    &&& e.start == spec_u64_from_le_bytes(buf.subrange(off, off + 8))
    &&& e.end == spec_u64_from_le_bytes(buf.subrange(off + 8, off + 16))
    &&& e.read_permission == (buf[off + 16] != 0)
    &&& e.write_permission == (buf[off + 17] != 0)
    &&& e.execute_permission == (buf[off + 18] != 0)
    &&& e.shared == (buf[off + 19] != 0)
    &&& e.name@ == lossy_utf8(entry_name_bytes(buf, k))
}

/// Builds the region-list request buffer for `pid`, sized for `count`
/// entries plus slack of 50 to tolerate concurrent growth of the target's
/// memory map: the pid at offset 0, the per-entry name capacity (512) at
/// offset 8, and the total buffer length at offset 16.
///
/// Returns `None` where the buffer length would not fit in `usize`.
pub fn encode_maps_request(pid: i32, count: usize) -> (r: Option<Vec<u8>>)
    ensures
        8 + 532 * (count + 50) <= usize::MAX ==> (r matches Some(buf) && {
            &&& buf@.len() == 8 + 532 * (count + 50)
            &&& buf@.subrange(0, 8) == spec_u64_to_le_bytes(pid_bits(pid))
            &&& buf@.subrange(8, 16) == spec_u64_to_le_bytes(512)
            &&& buf@.subrange(16, 24) == spec_u64_to_le_bytes((8 + 532 * (count + 50)) as u64)
            &&& forall|j: int| 24 <= j < buf@.len() ==> buf@[j] == 0
        }),
        8 + 532 * (count + 50) > usize::MAX ==> r is None,
{
    proof {
        lemma_auto_spec_u64_to_from_le_bytes();
    }
    let slack = match count.checked_add(50) {
        Some(s) => s,
        None => {
            return None;
        },
    };
    let body = match slack.checked_mul(532) {
        Some(b) => b,
        None => {
            return None;
        },
    };
    let total = match body.checked_add(8) {
        Some(t) => t,
        None => {
            return None;
        },
    };
    let mut buf: Vec<u8> = vec![0u8; total];
    put_u64(&mut buf, 0, pid_to_bits(pid));
    put_u64(&mut buf, 8, 512);
    put_u64(&mut buf, 16, total as u64);
    proof {
        assert(buf@.subrange(0, 8) =~= spec_u64_to_le_bytes(pid_bits(pid)));
        assert(buf@.subrange(8, 16) =~= spec_u64_to_le_bytes(512));
        assert(buf@.subrange(16, 24) =~= spec_u64_to_le_bytes((8 + 532 * (count + 50)) as u64));
    }
    Some(buf)
}

/// Decides whether a region-list transfer completed: the driver answers
/// with a non-zero status where the buffer was still insufficient, and the
/// enumeration then fails rather than silently truncating.
pub fn check_maps_complete(unfinished: i32) -> (r: Result<(), Error>)
    ensures
        unfinished != 0 <==> r == Err::<(), Error>(Error::MapsTooLong),
        unfinished == 0 <==> r == Ok::<(), Error>(()),
{
    if unfinished != 0 {
        Err(Error::MapsTooLong)
    } else {
        Ok(())
    }
}

/// Decodes a region-list response: the announced entry count, then that
/// many raw regions, each with its addresses, permissions and name.
///
/// Fails with the parse error exactly where the buffer is too short to hold
/// what it announces.
pub fn parse_maps_response(buf: &Vec<u8>) -> (r: Result<Vec<MapsEntry>, Error>)
    ensures
        r matches Ok(v) ==> {
            &&& buf@.len() >= 8
            &&& 8 + 532 * spec_maps_count(buf@) <= buf@.len()
            &&& v@.len() == spec_maps_count(buf@)
            &&& forall|k: int| 0 <= k < v@.len() ==> entry_parsed(buf@, k, #[trigger] v@[k])
        },
        r matches Err(e) ==> {
            &&& e == Error::MapsParseError
            &&& buf@.len() < 8 || 8 + 532 * spec_maps_count(buf@) > buf@.len()
        },
{
    let total = buf.len();
    if total < 8 {
        return Err(Error::MapsParseError);
    }
    let count64 = u64_from_le_bytes(slice_subrange(buf.as_slice(), 0, 8));
    if count64 > ((usize::MAX - 8) / 532) as u64 {
        return Err(Error::MapsParseError);
    }
    let count = count64 as usize;
    let needed = 8 + 532 * count;
    if total < needed {
        return Err(Error::MapsParseError);
    }
    let mut out: Vec<MapsEntry> = Vec::new();
    let mut k: usize = 0;
    let mut off: usize = 8;
    while k < count
        invariant
            0 <= k <= count,
            off == 8 + 532 * k,
            8 + 532 * count <= total,
            total == buf@.len(),
            count == spec_maps_count(buf@),
            out@.len() == k,
            forall|j: int| 0 <= j < k ==> entry_parsed(buf@, j, #[trigger] out@[j]),
        decreases count - k,
    {
        let start = u64_from_le_bytes(slice_subrange(buf.as_slice(), off, off + 8));
        let end = u64_from_le_bytes(slice_subrange(buf.as_slice(), off + 8, off + 16));
        let read_permission = buf[off + 16] != 0;
        let write_permission = buf[off + 17] != 0;
        let execute_permission = buf[off + 18] != 0;
        let shared = buf[off + 19] != 0;
        let name_off = off + 20;
        let ghost field = buf@.subrange(name_off as int, name_off + 512);
        let mut name_len: usize = 0;
        while name_len < 512 && buf[name_off + name_len] != 0
            invariant
                0 <= name_len <= 512,
                name_off + 512 <= total,
                total == buf@.len(),
                field == buf@.subrange(name_off as int, name_off + 512),
                forall|j: int| 0 <= j < name_len ==> field[j] != 0,
            decreases 512 - name_len,
        {
            name_len = name_len + 1;
        }
        proof {
            lemma_name_prefix_len(field, 0, name_len as int);
        }
        let name_bytes = slice_to_vec(slice_subrange(buf.as_slice(), name_off, name_off + name_len));
        proof {
            assert(name_bytes@ =~= field.take(name_prefix_len(field, 0)));
        }
        let name = utf8_lossy(&name_bytes);
        let entry = MapsEntry {
            start,
            end,
            read_permission,
            write_permission,
            execute_permission,
            shared,
            name,
        };
        proof {
            assert(entry_parsed(buf@, k as int, entry));
        }
        out.push(entry);
        k = k + 1;
        off = off + 532;
    }
    Ok(out)
}

/// Whether `r` is a maximal run of set bits: every bit inside it is set,
/// and it can be extended in neither direction.
pub open spec fn maximal_run(bits: Seq<bool>, r: (int, int)) -> bool {
    &&& 0 <= r.0 < r.1 <= bits.len()
    &&& forall|p: int| r.0 <= p < r.1 ==> bits[p]
    &&& r.0 == 0 || !bits[r.0 - 1]
    &&& r.1 == bits.len() || !bits[r.1]
}

/// Whether position `p` lies inside one of the runs.
pub open spec fn covered(rs: Seq<(int, int)>, p: int) -> bool {
    exists|m: int| 0 <= m < rs.len() && (#[trigger] rs[m]).0 <= p < rs[m].1
}

proof fn lemma_runs_from_maximal(bits: Seq<bool>, i: int, pending: Option<int>)
    requires
        0 <= i <= bits.len(),
        pending matches Some(b) ==> 0 <= b < i && (forall|p: int| b <= p < i ==> bits[p]) && (b
            == 0 || !bits[b - 1]),
        pending is None ==> (i == 0 || !bits[i - 1]),
    ensures
        forall|m: int|
            0 <= m < runs_from(bits, i, pending).len() ==> maximal_run(
                bits,
                #[trigger] runs_from(bits, i, pending)[m],
            ),
        forall|p: int|
            i <= p < bits.len() && bits[p] ==> covered(runs_from(bits, i, pending), p),
        pending matches Some(b) ==> forall|p: int|
            b <= p < i ==> covered(runs_from(bits, i, pending), p),
        forall|m: int|
            0 <= m < runs_from(bits, i, pending).len() ==> (#[trigger] runs_from(
                bits,
                i,
                pending,
            )[m]).0 >= match pending {
                Some(b) => b,
                None => i,
            },
        forall|m1: int, m2: int|
            0 <= m1 < m2 < runs_from(bits, i, pending).len() ==> (#[trigger] runs_from(
                bits,
                i,
                pending,
            )[m1]).1 < (#[trigger] runs_from(bits, i, pending)[m2]).0,
    decreases bits.len() - i,
{
    let rs = runs_from(bits, i, pending);
    if i >= bits.len() {
        match pending {
            Some(b) => {
                assert(rs == seq![(b, bits.len() as int)]);
                assert(maximal_run(bits, rs[0]));
                assert forall|p: int| b <= p < i implies covered(rs, p) by {
                    assert(rs[0].0 <= p < rs[0].1);
                }
            },
            None => {},
        }
    } else {
        match pending {
            None => {
                if bits[i] {
                    lemma_runs_from_maximal(bits, i + 1, Some(i));
                    assert(rs == runs_from(bits, i + 1, Some(i)));
                    assert forall|p: int| i <= p < bits.len() && bits[p] implies covered(
                        rs,
                        p,
                    ) by {
                        if p == i {
                            assert(covered(runs_from(bits, i + 1, Some(i)), p));
                        }
                    }
                } else {
                    lemma_runs_from_maximal(bits, i + 1, None);
                    assert(rs == runs_from(bits, i + 1, None));
                }
            },
            Some(b) => {
                if bits[i] {
                    lemma_runs_from_maximal(bits, i + 1, Some(b));
                    assert(rs == runs_from(bits, i + 1, Some(b)));
                    assert forall|p: int| b <= p < i + 1 implies covered(rs, p) by {
                        assert(covered(runs_from(bits, i + 1, Some(b)), p));
                    }
                } else {
                    lemma_runs_from_maximal(bits, i + 1, None);
                    let rest = runs_from(bits, i + 1, None);
                    assert(rs == seq![(b, i)] + rest);
                    assert(maximal_run(bits, (b, i)));
                    assert(rs[0] == (b, i));
                    assert forall|m: int| 0 <= m < rs.len() implies maximal_run(
                        bits,
                        #[trigger] rs[m],
                    ) && rs[m].0 >= b by {
                        if m > 0 {
                            assert(rs[m] == rest[m - 1]);
                        }
                    }
                    assert forall|m1: int, m2: int| 0 <= m1 < m2 < rs.len() implies (
                    #[trigger] rs[m1]).1 < (#[trigger] rs[m2]).0 by {
                        assert(rs[m2] == rest[m2 - 1]);
                        if m1 > 0 {
                            assert(rs[m1] == rest[m1 - 1]);
                        }
                    }
                    assert forall|p: int| i <= p < bits.len() && bits[p] implies covered(
                        rs,
                        p,
                    ) by {
                        let m = choose|m: int|
                            0 <= m < rest.len() && (#[trigger] rest[m]).0 <= p < rest[m].1;
                        assert(rs[m + 1] == rest[m]);
                    }
                    assert forall|p: int| b <= p < i implies covered(rs, p) by {
                        assert(rs[0].0 <= p < rs[0].1);
                    }
                }
            },
        }
    }
}

/// Coalescing is sound and complete: every emitted run spans only resident
/// pages and is maximal (the page before it, if any, and the page after
/// it, if any, are not resident); every resident page lies in one of the
/// emitted runs; and the runs come in increasing order, pairwise disjoint
/// with a gap between any two.
pub proof fn lemma_resident_runs_maximal(bits: Seq<bool>)
    ensures
        forall|m: int|
            0 <= m < resident_runs(bits).len() ==> maximal_run(
                bits,
                #[trigger] resident_runs(bits)[m],
            ),
        forall|p: int| 0 <= p < bits.len() && bits[p] ==> covered(resident_runs(bits), p),
        forall|m1: int, m2: int|
            0 <= m1 < m2 < resident_runs(bits).len() ==> (#[trigger] resident_runs(
                bits,
            )[m1]).1 < (#[trigger] resident_runs(bits)[m2]).0,
{
    lemma_runs_from_maximal(bits, 0, None);
}

/// All the runs of bits that are all clear from position `i` on: none.
proof fn lemma_runs_from_all_zero(bits: Seq<bool>, i: int)
    requires
        0 <= i <= bits.len(),
        forall|j: int| i <= j < bits.len() ==> !bits[j],
    ensures
        runs_from(bits, i, None) == Seq::<(int, int)>::empty(),
    decreases bits.len() - i,
{
    if i < bits.len() {
        lemma_runs_from_all_zero(bits, i + 1);
    }
}

/// All the runs of bits that are all set from position `i` on, with a run
/// open since `b`: exactly the one run from `b` to the end.
proof fn lemma_runs_from_all_one(bits: Seq<bool>, i: int, b: int)
    requires
        0 <= i <= bits.len(),
        forall|j: int| i <= j < bits.len() ==> bits[j],
    ensures
        runs_from(bits, i, Some(b)) == seq![(b, bits.len() as int)],
    decreases bits.len() - i,
{
    if i < bits.len() {
        lemma_runs_from_all_one(bits, i + 1, b);
    }
}

/// An all-zero residency bitmap yields no physically-backed sub-range.
pub proof fn lemma_coalesce_all_zero(start: u64, bits: Seq<bool>)
    requires
        forall|j: int| 0 <= j < bits.len() ==> !bits[j],
    ensures
        coalesced_ranges(start, bits).len() == 0,
{
    lemma_runs_from_all_zero(bits, 0);
}

/// An all-one residency bitmap yields exactly one sub-range: the whole
/// region.
pub proof fn lemma_coalesce_all_one(start: u64, bits: Seq<bool>)
    requires
        bits.len() > 0,
        forall|j: int| 0 <= j < bits.len() ==> bits[j],
    ensures
        coalesced_ranges(start, bits) =~= seq![
            (start as int, start + 0x1000 * bits.len()),
        ],
{
    lemma_runs_from_all_one(bits, 1, 0);
    assert(resident_runs(bits) == seq![(0int, bits.len() as int)]);
}

} // verus!
