//! Data-parallel scan and reduction primitives over flat numeric arrays:
//! first index of a value, membership, occurrence count, and minimum/maximum,
//! for 8-bit and 32-bit unsigned elements.
//!
//! Every operation exists twice: as a plain scalar reference kernel, and as a
//! wide kernel that walks the array in register-sized blocks with several
//! parallel lane accumulators, exactly as a 256-bit vector unit would.  Both
//! are verified against the same sequential model, so the dispatch layer may
//! pick either path without changing any result.
#![verifier::loop_isolation(false)]

pub mod array_u32;
pub mod array_u8;
pub mod dispatch;
pub mod lanes;
pub mod laws;
pub mod model;
pub mod scalar;
pub mod simd_extensions;
pub mod u32_impl;
pub mod u8_impl;
