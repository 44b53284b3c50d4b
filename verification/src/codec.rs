//! Framing of memory read/write requests over the driver's device node, and
//! completion of a transfer once the driver has answered.
//!
//! Every request begins with a fixed 17-byte header: the target pid as a
//! sign-extended 64-bit little-endian integer at offset 0, the virtual
//! address at offset 8, and a one-byte mode marker at offset 16 (0 for a
//! read, 1 for a write). A write appends its payload directly after the
//! header; a read hands the driver a buffer that the driver overwrites with
//! the memory contents.

use vstd::bytes::*;
use vstd::prelude::*;

use crate::errors::Error;

verus! {

/// The two's-complement bit pattern of `pid`, sign-extended to 64 bits.
pub open spec fn pid_bits(pid: i32) -> u64 {
    if pid >= 0 {
        pid as u64
    } else {
        (0x1_0000_0000_0000_0000 + pid) as u64
    }
}

/// Computes `pid_bits` executably.
pub(crate) fn pid_to_bits(pid: i32) -> (r: u64)
    ensures
        r == pid_bits(pid),
{
    if pid >= 0 {
        pid as u64
    } else {
        let magnitude: u64 = (-(pid as i64)) as u64;
        u64::MAX - magnitude + 1
    }
}

/// The two's-complement bit pattern of `pid`, as 32 bits.
pub open spec fn pid_bits32(pid: i32) -> u32 {
    if pid >= 0 {
        pid as u32
    } else {
        (0x1_0000_0000 + pid) as u32
    }
}

/// Computes `pid_bits32` executably.
pub(crate) fn pid_to_bits32(pid: i32) -> (r: u32)
    ensures
        r == pid_bits32(pid),
{
    if pid >= 0 {
        pid as u32
    } else {
        let magnitude: u32 = (-(pid as i64)) as u32;
        u32::MAX - magnitude + 1
    }
}

/// Writes the little-endian encoding of `v` into `buf` at `off..off + 8`,
/// leaving every other byte unchanged.
pub(crate) fn put_u64(buf: &mut Vec<u8>, off: usize, v: u64)
    requires
        off + 8 <= old(buf)@.len(),
    ensures
        final(buf)@.len() == old(buf)@.len(),
        forall|j: int| 0 <= j < 8 ==> final(buf)@[off + j] == spec_u64_to_le_bytes(v)[j],
        forall|j: int|
            0 <= j < final(buf)@.len() && !(off <= j < off + 8) ==> final(buf)@[j] == old(
                buf,
            )@[j],
{
    proof {
        lemma_auto_spec_u64_to_from_le_bytes();
    }
    let bytes = u64_to_le_bytes(v);
    let total = buf.len();
    let mut i: usize = 0;
    while i < 8
        invariant
            0 <= i <= 8,
            off + 8 <= total,
            total == buf@.len(),
            buf@.len() == old(buf)@.len(),
            bytes@ == spec_u64_to_le_bytes(v),
            bytes@.len() == 8,
            forall|j: int| 0 <= j < i ==> buf@[off + j] == spec_u64_to_le_bytes(v)[j],
            forall|j: int|
                0 <= j < buf@.len() && !(off <= j < off + i) ==> buf@[j] == old(buf)@[j],
        decreases 8 - i,
    {
        buf[off + i] = bytes[i];
        i = i + 1;
    }
}

/// The request frame for a read of `len` bytes at `addr` in `pid`'s address
/// space: the header, padded with zeros up to the requested length where the
/// request is longer than the header alone.
pub open spec fn spec_read_frame(pid: i32, addr: u64, len: usize) -> Seq<u8> {
    let total = if len < 17 { 17int } else { len as int };
    spec_u64_to_le_bytes(pid_bits(pid)) + spec_u64_to_le_bytes(addr) + seq![0u8] + Seq::new(
        (total - 17) as nat,
        |i: int| 0u8,
    )
}

/// The request frame for a write of `data` at `addr` in `pid`'s address
/// space: the header immediately followed by the payload.
pub open spec fn spec_write_frame(pid: i32, addr: u64, data: Seq<u8>) -> Seq<u8> {
    spec_u64_to_le_bytes(pid_bits(pid)) + spec_u64_to_le_bytes(addr) + seq![1u8] + data
}

/// The bytes a write frame hands the driver to store: everything past the
/// header.
pub open spec fn write_payload(frame: Seq<u8>) -> Seq<u8> {
    frame.skip(17)
}

/// The bytes a completed read of `len` bytes returns to the caller: the
/// first `len` bytes of the driver-filled buffer.
pub open spec fn read_result(len: int, response: Seq<u8>) -> Seq<u8> {
    response.take(len)
}

/// Builds the request frame for a memory read.
///
/// The frame is at least as long as the header; a shorter request still
/// frames a full header and only the first `len` bytes of the response are
/// returned to the caller by `finish_read`.
pub fn encode_read_frame(pid: i32, addr: u64, len: usize) -> (r: Vec<u8>)
    ensures
        r@ == spec_read_frame(pid, addr, len),
        r@.len() == if len < 17 { 17int } else { len as int },
        r@.subrange(0, 8) == spec_u64_to_le_bytes(pid_bits(pid)),
        r@.subrange(8, 16) == spec_u64_to_le_bytes(addr),
        r@[16] == 0,
{
    proof {
        lemma_auto_spec_u64_to_from_le_bytes();
    }
    let total: usize = if len < 17 { 17 } else { len };
    let mut buf: Vec<u8> = vec![0u8; total];
    put_u64(&mut buf, 0, pid_to_bits(pid));
    put_u64(&mut buf, 8, addr);
    proof {
        assert(buf@ =~= spec_read_frame(pid, addr, len));
        assert(buf@.subrange(0, 8) =~= spec_u64_to_le_bytes(pid_bits(pid)));
        assert(buf@.subrange(8, 16) =~= spec_u64_to_le_bytes(addr));
    }
    buf
}

/// Builds the request frame for a memory write: header, then payload.
pub fn encode_write_frame(pid: i32, addr: u64, data: &[u8]) -> (r: Vec<u8>)
    requires
        data@.len() + 17 <= usize::MAX,
    ensures
        r@ == spec_write_frame(pid, addr, data@),
        r@.len() == 17 + data@.len(),
        r@.subrange(0, 8) == spec_u64_to_le_bytes(pid_bits(pid)),
        r@.subrange(8, 16) == spec_u64_to_le_bytes(addr),
        r@[16] == 1,
        write_payload(r@) == data@,
{
    proof {
        lemma_auto_spec_u64_to_from_le_bytes();
    }
    let mut buf: Vec<u8> = vec![0u8; 17];
    put_u64(&mut buf, 0, pid_to_bits(pid));
    put_u64(&mut buf, 8, addr);
    buf[16] = 1;
    buf.extend_from_slice(data);
    proof {
        assert(buf@ =~= spec_write_frame(pid, addr, data@));
        assert(buf@.subrange(0, 8) =~= spec_u64_to_le_bytes(pid_bits(pid)));
        assert(buf@.subrange(8, 16) =~= spec_u64_to_le_bytes(addr));
        assert(write_payload(buf@) =~= data@);
    }
    buf
}

/// Completes a memory read of `len` bytes.
///
/// `outcome` is the driver's answer to the single transfer: the byte count
/// it returned, or the OS error number it failed with. A transfer of fewer
/// (or more) bytes than requested is a short-transfer failure carrying the
/// requested and the actual count; it is never retried, and nothing of the
/// buffer is returned. Only a full transfer hands back the first `len`
/// bytes of the driver-filled frame.
pub fn finish_read(len: usize, outcome: Result<usize, i32>, frame: Vec<u8>) -> (r: Result<
    Vec<u8>,
    Error,
>)
    requires
        frame@.len() >= len,
    ensures
        outcome matches Err(e) ==> r == Err::<Vec<u8>, Error>(Error::Errno(e)),
        outcome matches Ok(n) ==> {
            &&& n != len ==> r == Err::<Vec<u8>, Error>(Error::ReadFailed(len, n))
            &&& n == len ==> (r matches Ok(out) && out@ == read_result(len as int, frame@))
        },
{
    match outcome {
        Err(e) => Err(Error::Errno(e)),
        Ok(n) => {
            if n != len {
                Err(Error::ReadFailed(len, n))
            } else {
                let mut out = frame;
                out.truncate(len);
                Ok(out)
            }
        },
    }
}

/// Completes a memory write whose payload was `len` bytes long.
///
/// As with a read, a transfer of any count other than `len` is a
/// short-transfer failure carrying the requested and the actual count, and
/// is never retried.
pub fn finish_write(len: usize, outcome: Result<usize, i32>) -> (r: Result<(), Error>)
    ensures
        outcome matches Err(e) ==> r == Err::<(), Error>(Error::Errno(e)),
        outcome matches Ok(n) ==> {
            &&& n != len ==> r == Err::<(), Error>(Error::WriteFailed(len, n))
            &&& n == len ==> r == Ok::<(), Error>(())
        },
{
    match outcome {
        Err(e) => Err(Error::Errno(e)),
        Ok(n) => {
            if n != len {
                Err(Error::WriteFailed(len, n))
            } else {
                Ok(())
            }
        },
    }
}

/// Round trip: a write of `data` hands the driver exactly `data` as its
/// payload, and a subsequent full-length read whose response holds those
/// same bytes returns them to the caller unchanged.
pub proof fn lemma_write_read_round_trip(pid: i32, addr: u64, data: Seq<u8>, response: Seq<u8>)
    requires
        response == write_payload(spec_write_frame(pid, addr, data)),
    ensures
        response == data,
        read_result(data.len() as int, response) == data,
{
    lemma_auto_spec_u64_to_from_le_bytes();
    assert(write_payload(spec_write_frame(pid, addr, data)) =~= data);
    assert(read_result(data.len() as int, data) =~= data);
}

} // verus!
