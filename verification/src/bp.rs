//! Hardware breakpoint control: the trigger type and its token parser, the
//! add-breakpoint request frame, register-index validation with the
//! set-register parameter encoding, and the explicit deserialization of the
//! register records a stopped target exposes.

use vstd::bytes::*;
use vstd::prelude::*;
use vstd::slice::*;
use vstd::string::StringSliceAdditionalSpecFns;

use crate::codec::{pid_bits32, pid_to_bits32};
use crate::errors::Error;

verus! {

/// The number of bytes of the general-purpose register record: 31 general
/// registers, the stack pointer, the program counter and the processor
/// state, each 64 bits.
pub const GP_REGS_BYTES: usize = 272;

/// The number of bytes of the general-purpose record followed by the SIMD
/// record: 32 vector registers of 128 bits, two 32-bit status words, and
/// eight reserved bytes.
pub const ALL_REGS_BYTES: usize = 800;

/// The number of addressable registers in a set-register request: indices
/// 0 to 30 name the general registers, 31 the stack pointer, 32 the program
/// counter and 33 the processor state.
pub const NUM_REGS: u8 = 34;

/// The access kind that arms a hardware breakpoint or watchpoint.
#[derive(Debug, Clone, Copy, PartialEq, Eq, Structural)]
pub enum BreakpointType {
    /// Trap on a read of the address.
    Read,
    /// Trap on a write of the address.
    Write,
    /// Trap on a read or a write of the address.
    ReadWrite,
    /// Trap on execution of the address.
    Execute,
}

/// `b` with an ASCII capital letter lowered, any other byte unchanged.
pub open spec fn ascii_lower_byte(b: u8) -> u8 {
    if 65 <= b <= 90 {
        (b + 32) as u8
    } else {
        b
    }
}

/// A byte sequence with every ASCII capital letter lowered.
pub open spec fn ascii_lower_seq(s: Seq<u8>) -> Seq<u8> {
    s.map_values(|b: u8| ascii_lower_byte(b))
}

/// The breakpoint type a lowered token names, if any.
pub open spec fn spec_token_type(t: Seq<u8>) -> Option<BreakpointType> {
    if t == seq![114u8] || t == seq![114u8, 101u8, 97u8, 100u8] {
        Some(BreakpointType::Read)
    } else if t == seq![119u8] || t == seq![119u8, 114u8, 105u8, 116u8, 101u8] {
        Some(BreakpointType::Write)
    } else if t == seq![114u8, 119u8] || t == seq![
        114u8,
        101u8,
        97u8,
        100u8,
        119u8,
        114u8,
        105u8,
        116u8,
        101u8,
    ] || t == seq![114u8, 101u8, 97u8, 100u8, 95u8, 119u8, 114u8, 105u8, 116u8, 101u8] {
        Some(BreakpointType::ReadWrite)
    } else if t == seq![120u8] || t == seq![101u8, 120u8, 101u8, 99u8, 117u8, 116u8, 101u8] {
        Some(BreakpointType::Execute)
    } else {
        None
    }
}

/// Lowers every ASCII capital letter of a byte string.
fn ascii_lower(bytes: &[u8]) -> (r: Vec<u8>)
    ensures
        r@ == ascii_lower_seq(bytes@),
{
    let n = bytes.len();
    let mut out: Vec<u8> = Vec::new();
    let mut i: usize = 0;
    while i < n
        invariant
            0 <= i <= n,
            n == bytes@.len(),
            out@.len() == i,
            forall|j: int| 0 <= j < i ==> out@[j] == ascii_lower_byte(bytes@[j]),
        decreases n - i,
    {
        let b = bytes[i];
        if b >= 65u8 && b <= 90u8 {
            out.push(b + 32);
        } else {
            out.push(b);
        }
        i = i + 1;
    }
    proof {
        assert(out@ =~= ascii_lower_seq(bytes@));
    }
    out
}

impl BreakpointType {
    /// The code the driver uses for this trigger type in an add-breakpoint
    /// request.
    pub open spec fn spec_code(self) -> u8 {
        match self {
            BreakpointType::Read => 1,
            BreakpointType::Write => 2,
            BreakpointType::ReadWrite => 3,
            BreakpointType::Execute => 4,
        }
    }

    /// Returns the driver's code for this trigger type.
    pub fn code(&self) -> (r: u8)
        ensures
            r == self.spec_code(),
    {
        match self {
            BreakpointType::Read => 1,
            BreakpointType::Write => 2,
            BreakpointType::ReadWrite => 3,
            BreakpointType::Execute => 4,
        }
    }

    /// Parses a trigger-type token, ignoring ASCII case: `r`/`read`,
    /// `w`/`write`, `rw`/`readwrite`/`read_write`, `x`/`execute`.
    ///
    /// Any other token is the invalid-breakpoint-type error, carrying the
    /// token as given.
    pub fn from_str(s: &str) -> (r: Result<BreakpointType, Error>)
        ensures
            match spec_token_type(ascii_lower_seq(s.spec_bytes())) {
                Some(t) => r == Ok::<BreakpointType, Error>(t),
                None => (r matches Err(e) && e matches Error::InvalidBreakpointType(msg)
                    && msg@ == s@),
            },
    {
        let bytes = s.as_bytes();
        let lower = ascii_lower(bytes);
        let n = lower.len();
        let found: Option<BreakpointType> = if n == 1 && lower[0] == 114u8 {
            proof {
                assert(lower@ =~= seq![114u8]);
            }
            Some(BreakpointType::Read)
        } else if n == 1 && lower[0] == 119u8 {
            proof {
                assert(lower@ =~= seq![119u8]);
            }
            Some(BreakpointType::Write)
        } else if n == 1 && lower[0] == 120u8 {
            proof {
                assert(lower@ =~= seq![120u8]);
            }
            Some(BreakpointType::Execute)
        } else if n == 2 && lower[0] == 114u8 && lower[1] == 119u8 {
            proof {
                assert(lower@ =~= seq![114u8, 119u8]);
            }
            Some(BreakpointType::ReadWrite)
        } else if n == 4 && lower[0] == 114u8 && lower[1] == 101u8 && lower[2] == 97u8 && lower[3]
            == 100u8 {
            proof {
                assert(lower@ =~= seq![114u8, 101u8, 97u8, 100u8]);
            }
            Some(BreakpointType::Read)
        } else if n == 5 && lower[0] == 119u8 && lower[1] == 114u8 && lower[2] == 105u8 && lower[3]
            == 116u8 && lower[4] == 101u8 {
            proof {
                assert(lower@ =~= seq![119u8, 114u8, 105u8, 116u8, 101u8]);
            }
            Some(BreakpointType::Write)
        } else if n == 7 && lower[0] == 101u8 && lower[1] == 120u8 && lower[2] == 101u8 && lower[3]
            == 99u8 && lower[4] == 117u8 && lower[5] == 116u8 && lower[6] == 101u8 {
            proof {
                assert(lower@ =~= seq![101u8, 120u8, 101u8, 99u8, 117u8, 116u8, 101u8]);
            }
            Some(BreakpointType::Execute)
        } else if n == 9 && lower[0] == 114u8 && lower[1] == 101u8 && lower[2] == 97u8 && lower[3]
            == 100u8 && lower[4] == 119u8 && lower[5] == 114u8 && lower[6] == 105u8 && lower[7] == 116u8
            && lower[8] == 101u8 {
            proof {
                assert(lower@ =~= seq![114u8, 101u8, 97u8, 100u8, 119u8, 114u8, 105u8, 116u8, 101u8]);
            }
            Some(BreakpointType::ReadWrite)
        } else if n == 10 && lower[0] == 114u8 && lower[1] == 101u8 && lower[2] == 97u8 && lower[3]
            == 100u8 && lower[4] == 95u8 && lower[5] == 119u8 && lower[6] == 114u8 && lower[7] == 105u8
            && lower[8] == 116u8 && lower[9] == 101u8 {
            proof {
                assert(lower@ =~= seq![
                    114u8,
                    101u8,
                    97u8,
                    100u8,
                    95u8,
                    119u8,
                    114u8,
                    105u8,
                    116u8,
                    101u8,
                ]);
            }
            Some(BreakpointType::ReadWrite)
        } else {
            None
        };
        match found {
            Some(t) => Ok(t),
            None => Err(Error::InvalidBreakpointType(s.to_owned())),
        }
    }
}

/// The general-purpose register record of a stopped target.
#[derive(Debug, Clone, PartialEq, Eq)]
pub struct Regs {
    /// The 31 general registers.
    pub regs: [u64; 31],
    /// The stack pointer.
    pub sp: u64,
    /// The program counter.
    pub pc: u64,
    /// The processor state.
    pub pstate: u64,
}

/// The SIMD register record of a stopped target, read together with the
/// general-purpose record when SIMD is requested.
#[derive(Debug, Clone, PartialEq, Eq)]
pub struct SimdRegs {
    /// The 32 vector registers.
    pub regs: [u128; 32],
    /// The floating-point status word.
    pub fpsr: u32,
    /// The floating-point control word.
    pub fpcr: u32,
    /// Reserved padding after the status words; always zero here.
    pub reserved: [u32; 2],
}

/// Both register records together.
pub type AllRegs = (Regs, SimdRegs);

/// The 64-bit little-endian field of `buf` at `off`.
pub open spec fn reg_at(buf: Seq<u8>, off: int) -> u64 {
    spec_u64_from_le_bytes(buf.subrange(off, off + 8))
}

/// The 128-bit little-endian field of `buf` at `off`.
pub open spec fn simd_reg_at(buf: Seq<u8>, off: int) -> u128 {
    spec_u128_from_le_bytes(buf.subrange(off, off + 16))
}

/// Whether `r` is exactly what a general-purpose register block decodes
/// to: the 31 general registers at offsets 0 to 240, then the stack
/// pointer, the program counter and the processor state, all little-endian.
pub open spec fn gp_regs_parsed(buf: Seq<u8>, r: Regs) -> bool {
    &&& forall|i: int| 0 <= i < 31 ==> r.regs@[i] == reg_at(buf, 8 * i)
    &&& r.sp == reg_at(buf, 248)
    &&& r.pc == reg_at(buf, 256)
    &&& r.pstate == reg_at(buf, 264)
}

/// Whether `s` is exactly what the SIMD register block following the
/// general-purpose one decodes to: the 32 vector registers at offsets 272
/// to 768, then the two status words.
pub open spec fn simd_regs_parsed(buf: Seq<u8>, s: SimdRegs) -> bool {
    &&& forall|k: int| 0 <= k < 32 ==> s.regs@[k] == simd_reg_at(buf, 272 + 16 * k)
    &&& s.fpsr == spec_u32_from_le_bytes(buf.subrange(784, 788))
    &&& s.fpcr == spec_u32_from_le_bytes(buf.subrange(788, 792))
}

/// Decodes the fixed-size general-purpose register block, field by field in
/// the documented order.
pub fn parse_regs(buf: &Vec<u8>) -> (r: Regs)
    requires
        buf@.len() >= 272,
    ensures
        gp_regs_parsed(buf@, r),
{
    let mut regs: [u64; 31] = [0u64; 31];
    let mut i: usize = 0;
    while i < 31
        invariant
            0 <= i <= 31,
            buf@.len() >= 272,
            forall|j: int| 0 <= j < i ==> regs@[j] == reg_at(buf@, 8 * j),
        decreases 31 - i,
    {
        regs[i] = u64_from_le_bytes(slice_subrange(buf.as_slice(), 8 * i, 8 * i + 8));
        i = i + 1;
    }
    let sp = u64_from_le_bytes(slice_subrange(buf.as_slice(), 248, 256));
    let pc = u64_from_le_bytes(slice_subrange(buf.as_slice(), 256, 264));
    let pstate = u64_from_le_bytes(slice_subrange(buf.as_slice(), 264, 272));
    Regs { regs, sp, pc, pstate }
}

/// Decodes the general-purpose register block and the SIMD block that
/// follows it, field by field in the documented order.
pub fn parse_regs_with_simd(buf: &Vec<u8>) -> (r: AllRegs)
    requires
        buf@.len() >= 800,
    ensures
        gp_regs_parsed(buf@, r.0),
        simd_regs_parsed(buf@, r.1),
        r.1.reserved@ =~= seq![0u32, 0u32],
{
    let gp = parse_regs(buf);
    let mut regs: [u128; 32] = [0u128; 32];
    let mut k: usize = 0;
    while k < 32
        invariant
            0 <= k <= 32,
            buf@.len() >= 800,
            forall|j: int| 0 <= j < k ==> regs@[j] == simd_reg_at(buf@, 272 + 16 * j),
        decreases 32 - k,
    {
        regs[k] = u128_from_le_bytes(slice_subrange(buf.as_slice(), 272 + 16 * k, 288 + 16 * k));
        k = k + 1;
    }
    let fpsr = u32_from_le_bytes(slice_subrange(buf.as_slice(), 784, 788));
    let fpcr = u32_from_le_bytes(slice_subrange(buf.as_slice(), 788, 792));
    let simd = SimdRegs { regs, fpsr, fpcr, reserved: [0u32; 2] };
    (gp, simd)
}

/// Builds the 16-byte add-breakpoint request: the pid as 32 bits at offset
/// 0, the trigger-type code at 4, the watch length at 5, and the address at
/// 8.
pub fn encode_bp_request(pid: i32, bp_type: BreakpointType, len: u8, addr: u64) -> (r: Vec<u8>)
    ensures
        r@.len() == 16,
        r@.subrange(0, 4) == spec_u32_to_le_bytes(pid_bits32(pid)),
        r@[4] == bp_type.spec_code(),
        r@[5] == len,
        r@[6] == 0,
        r@[7] == 0,
        r@.subrange(8, 16) == spec_u64_to_le_bytes(addr),
{
    proof {
        lemma_auto_spec_u32_to_from_le_bytes();
        lemma_auto_spec_u64_to_from_le_bytes();
    }
    let mut buf = u32_to_le_bytes(pid_to_bits32(pid));
    buf.push(bp_type.code());
    buf.push(len);
    buf.push(0);
    buf.push(0);
    let addr_bytes = u64_to_le_bytes(addr);
    buf.extend_from_slice(addr_bytes.as_slice());
    proof {
        assert(buf@.subrange(0, 4) =~= spec_u32_to_le_bytes(pid_bits32(pid)));
        assert(buf@.subrange(8, 16) =~= spec_u64_to_le_bytes(addr));
    }
    buf
}

/// Builds the set-register parameter block (the register index, then the
/// 64-bit value, both as little-endian 64-bit fields), validating the index
/// first.
///
/// Fails with the invalid-register error exactly where `reg` is at or above
/// the number of addressable registers; an index below it never fails.
pub fn set_reg_request(reg: u8, value: u64) -> (r: Result<Vec<u8>, Error>)
    ensures
        reg >= 34 <==> r == Err::<Vec<u8>, Error>(Error::InvalidRegister(reg as u64)),
        reg < 34 ==> (r matches Ok(buf) && {
            &&& buf@.len() == 16
            &&& buf@.subrange(0, 8) == spec_u64_to_le_bytes(reg as u64)
            &&& buf@.subrange(8, 16) == spec_u64_to_le_bytes(value)
        }),
{
    proof {
        lemma_auto_spec_u64_to_from_le_bytes();
    }
    if reg >= NUM_REGS {
        return Err(Error::InvalidRegister(reg as u64));
    }
    let mut buf = u64_to_le_bytes(reg as u64);
    let value_bytes = u64_to_le_bytes(value);
    buf.extend_from_slice(value_bytes.as_slice());
    proof {
        assert(buf@.subrange(0, 8) =~= spec_u64_to_le_bytes(reg as u64));
        assert(buf@.subrange(8, 16) =~= spec_u64_to_le_bytes(value));
    }
    Ok(buf)
}

/// Builds the set-SIMD-register parameter block (the register index as a
/// 64-bit field, eight bytes of padding, then the 128-bit value), validating
/// the index first.
///
/// Fails with the invalid-register error exactly where `reg` is at or above
/// the number of addressable registers; an index below it never fails.
pub fn set_simd_reg_request(reg: u8, value: u128) -> (r: Result<Vec<u8>, Error>)
    ensures
        reg >= 34 <==> r == Err::<Vec<u8>, Error>(Error::InvalidRegister(reg as u64)),
        reg < 34 ==> (r matches Ok(buf) && {
            &&& buf@.len() == 32
            &&& buf@.subrange(0, 8) == spec_u64_to_le_bytes(reg as u64)
            &&& forall|j: int| 8 <= j < 16 ==> buf@[j] == 0
            &&& buf@.subrange(16, 32) == spec_u128_to_le_bytes(value)
        }),
{
    proof {
        lemma_auto_spec_u64_to_from_le_bytes();
        lemma_auto_spec_u128_to_from_le_bytes();
    }
    if reg >= NUM_REGS {
        return Err(Error::InvalidRegister(reg as u64));
    }
    let mut buf = u64_to_le_bytes(reg as u64);
    let mut j: usize = 0;
    while j < 8
        invariant
            0 <= j <= 8,
            buf@.len() == 8 + j,
            buf@.subrange(0, 8) == spec_u64_to_le_bytes(reg as u64),
            forall|m: int| 8 <= m < buf@.len() ==> buf@[m] == 0,
        decreases 8 - j,
    {
        buf.push(0);
        proof {
            assert(buf@.subrange(0, 8) =~= spec_u64_to_le_bytes(reg as u64));
        }
        j = j + 1;
    }
    let value_bytes = u128_to_le_bytes(value);
    buf.extend_from_slice(value_bytes.as_slice());
    proof {
        assert(buf@.subrange(0, 8) =~= spec_u64_to_le_bytes(reg as u64));
        assert(buf@.subrange(16, 32) =~= spec_u128_to_le_bytes(value));
    }
    Ok(buf)
}

} // verus!
