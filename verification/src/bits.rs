//! Confidences that findings are stated with, as bits: see [`crate::number`].

use vstd::prelude::*;

verus! {

/// 45 percent.
pub const P45: u64 = 0x3FDC_CCCC_CCCC_CCCD;

/// 50 percent.
pub const P50: u64 = 0x3FE0_0000_0000_0000;

/// 55 percent.
pub const P55: u64 = 0x3FE1_9999_9999_999A;

/// 60 percent.
pub const P60: u64 = 0x3FE3_3333_3333_3333;

/// 65 percent.
pub const P65: u64 = 0x3FE4_CCCC_CCCC_CCCD;

/// 70 percent.
pub const P70: u64 = 0x3FE6_6666_6666_6666;

/// 75 percent.
pub const P75: u64 = 0x3FE8_0000_0000_0000;

/// 80 percent.
pub const P80: u64 = 0x3FE9_9999_9999_999A;

/// 85 percent.
pub const P85: u64 = 0x3FEB_3333_3333_3333;

/// 90 percent.
pub const P90: u64 = 0x3FEC_CCCC_CCCC_CCCD;

/// 92 percent.
pub const P92: u64 = 0x3FED_70A3_D70A_3D71;

/// 95 percent.
pub const P95: u64 = 0x3FEE_6666_6666_6666;

/// 100 percent.
pub const P100: u64 = 0x3FF0_0000_0000_0000;

} // verus!
