//! Client-side logic for a kernel driver that exposes out-of-process memory
//! access and hardware breakpoint control: request/response framing over the
//! driver's device node, validation of the arguments each operation accepts,
//! and the algorithm that reconciles a region with its per-page residency
//! bitmap into coalesced physically-backed sub-ranges.

use vstd::prelude::*;

pub mod bp;
pub mod codec;
pub mod errors;
pub mod maps;
pub mod phys;

pub use bp::{AllRegs, BreakpointType, Regs, SimdRegs};
pub use maps::MapsEntry;

verus! {

/// The default path of the driver's device node.
pub const DEFAULT_DRIVER_PATH: &'static str = "/dev/rwmem";

} // verus!
