//! Radio parameters, fixed within the certified limits.
//!
//! The beacon's module is certified for 922 to 923.4 MHz, at most 200 kHz of bandwidth and
//! at most 5.0 mW, about +7 dBm.

use vstd::prelude::*;

verus! {

/// Centre frequency in hertz.
pub const TX_FREQ_HZ: u32 = 923_000_000;

/// Bandwidth in hertz.
pub const BW_HZ: u32 = 125_000;

/// Power in dBm.
pub const TX_POWER_DBM: i8 = 6;

/// Spreading factor.
pub const SF: u8 = 9;

/// Coding rate, 4/5.
pub const CR: u8 = 5;

/// Sync word of this network; both ends use the same.
pub const SYNC_WORD: u8 = 0x3A;

/// Seconds from one report to the next.
pub const TX_INTERVAL_SECS: u32 = 60;

/// Lower end of the certified band in hertz.
pub const BAND_LOW_HZ: u32 = 922_000_000;

/// Upper end of the certified band in hertz.
pub const BAND_HIGH_HZ: u32 = 923_400_000;

/// Certified bandwidth in hertz.
pub const BW_LIMIT_HZ: u32 = 200_000;

/// Certified power in dBm.
pub const POWER_LIMIT_DBM: i8 = 7;

/// The parameters keep within what is certified: the whole occupied band lies in the
/// certified one, and neither the bandwidth nor the power is above its limit.
pub proof fn law_within_certification()
    ensures
        BAND_LOW_HZ <= TX_FREQ_HZ - BW_HZ / 2,
        TX_FREQ_HZ + BW_HZ / 2 <= BAND_HIGH_HZ,
        BW_HZ <= BW_LIMIT_HZ,
        TX_POWER_DBM <= POWER_LIMIT_DBM,
{
}

} // verus!
