//! Known properties of FTDI chips, and the clock that they can give.

use crate::ftdaye::error::FtdiError;
use crate::ftdaye::ChipType;
use vstd::prelude::*;

verus! {

/// A device that is known to be, or to act like, an FTDI chip.
#[derive(Clone, Copy, Debug)]
pub struct FtdiDevice {
    /// The (VID, PID) pair of this device.
    pub id: (u16, u16),
    /// FTDI chip type to use if the device is not recognized.
    ///
    /// "FTDI compatible" devices may use the same VID/PID pair as an FTDI device, but they may be
    /// implemented by a completely third party solution. If detecting the chip fails on one, this
    /// type stands in for the answer.
    pub fallback_chip_type: ChipType,
}

/// Known properties associated to particular FTDI chip types.
#[derive(Clone, Copy, Debug, PartialEq, Eq, Structural)]
pub struct FtdiProperties {
    /// The size of the device's RX buffer.
    ///
    /// This many bytes can be pushed down to the device in one batch.
    pub buffer_size: usize,
    /// The maximum TCK clock speed supported by the device, in kHz.
    pub max_clock: u32,
    /// Whether the device supports the divide-by-5 clock mode for "FT2232D compatibility".
    ///
    /// Newer devices have 60MHz internal clocks, instead of 12MHz, however, they still fall back
    /// to 12MHz by default. This flag indicates whether the clock divider can be disabled.
    pub has_divide_by_5: bool,
}

/// The properties of the chips that have an MPSSE.
pub open spec fn mpsse_properties(chip_type: ChipType) -> Option<FtdiProperties> {
    match chip_type {
        ChipType::FT2232H | ChipType::FT4232H => Some(
            FtdiProperties { buffer_size: 4096, max_clock: 30_000, has_divide_by_5: true },
        ),
        ChipType::FT232H => Some(
            FtdiProperties { buffer_size: 1024, max_clock: 30_000, has_divide_by_5: true },
        ),
        ChipType::FT2232C => Some(
            FtdiProperties { buffer_size: 128, max_clock: 6_000, has_divide_by_5: false },
        ),
        _ => None,
    }
}

/// The chip type that a device is treated as: the detected one, else its fallback.
pub open spec fn effective_chip_type(ftdi: FtdiDevice, detected: Option<ChipType>) -> ChipType {
    match detected {
        Some(chip_type) => chip_type,
        None => ftdi.fallback_chip_type,
    }
}

/// The clock divisor for a wanted speed: the least one with which the clock is no faster than
/// that, as far as 16 bits can hold it. A wanted speed of 0 means the maximum.
pub open spec fn clock_divisor(max_clock: u32, speed_khz: u32) -> int {
    if speed_khz == 0 {
        0
    } else {
        let least = (max_clock + speed_khz - 1) / (speed_khz as int) - 1;
        if least < 0xffff {
            least
        } else {
            0xffff
        }
    }
}

/// The speed in kHz, rounded down, that a divisor gives.
pub open spec fn divided_clock(max_clock: u32, divisor: int) -> int {
    max_clock as int / (divisor + 1)
}

impl FtdiProperties {
    /// These are the properties of some chip with an MPSSE.
    pub open spec fn valid(self) -> bool {
        exists|chip_type: ChipType| #[trigger] mpsse_properties(chip_type) == Some(self)
    }

    /// What every chip with an MPSSE has: a clock, and a buffer of some size.
    pub proof fn lemma_valid_bounds(self)
        requires
            self.valid(),
        ensures
            128 <= self.buffer_size <= 4096,
            6_000 <= self.max_clock <= 30_000,
    {
    }

    /// The clock divisor for a wanted speed in kHz.
    pub(crate) fn divisor_for(&self, speed_khz: u32) -> (divisor: u16)
        requires
            0 < self.max_clock,
        ensures
            divisor == clock_divisor(self.max_clock, speed_khz),
    {
        if speed_khz == 0 {
            return 0;
        }
        // A speed that is not a divisor of the maximum has to be rounded down, so the clock
        // divisor has to be rounded up.
        let quotient: u32 = self.max_clock / speed_khz;
        let remainder: u32 = self.max_clock % speed_khz;
        proof {
            lemma_ceiling(self.max_clock as int, speed_khz as int);
        }
        let least: u32 = if remainder == 0 { quotient - 1 } else { quotient };
        if least < 0xffff {
            least as u16
        } else {
            0xffff
        }
    }

    /// The speed in kHz that a divisor gives.
    pub(crate) fn speed_with(&self, divisor: u16) -> (speed_khz: u32)
        ensures
            speed_khz == divided_clock(self.max_clock, divisor as int),
    {
        self.max_clock / (divisor as u32 + 1)
    }
}

/// Rounding a quotient up adds one to it exactly where there is a remainder.
proof fn lemma_ceiling(a: int, b: int)
    requires
        0 < a,
        0 < b,
    ensures
        a % b == 0 ==> a / b >= 1 && (a + b - 1) / b == a / b,
        a % b != 0 ==> (a + b - 1) / b == a / b + 1,
{
    let q = a / b;
    let r = a % b;
    assert(a == b * q + r) by {
        vstd::arithmetic::div_mod::lemma_fundamental_div_mod(a, b);
    }
    if r == 0 {
        assert(q >= 1) by (nonlinear_arith)
            requires
                a == b * q,
                0 < a,
                0 < b,
        ;
        assert((a + b - 1) / b == q) by {
            vstd::arithmetic::div_mod::lemma_fundamental_div_mod_converse(a + b - 1, b, q, b - 1);
        }
    } else {
        assert((a + b - 1) / b == q + 1) by {
            assert(b * (q + 1) == b * q + b) by (nonlinear_arith);
            vstd::arithmetic::div_mod::lemma_fundamental_div_mod_converse(a + b - 1, b, q + 1, r - 1);
        }
    }
}

impl TryFrom<(FtdiDevice, Option<ChipType>)> for FtdiProperties {
    type Error = FtdiError;

    /// The properties of the detected chip, or of the device's fallback if detection failed. A
    /// chip without an MPSSE is refused.
    fn try_from(device: (FtdiDevice, Option<ChipType>)) -> (properties: Result<Self, FtdiError>) {
        let (ftdi, detected) = device;
        let chip_type = match detected {
            Some(chip_type) => chip_type,
            None => ftdi.fallback_chip_type,
        };
        match chip_type {
            ChipType::FT2232H | ChipType::FT4232H => Ok(
                FtdiProperties { buffer_size: 4096, max_clock: 30_000, has_divide_by_5: true },
            ),
            ChipType::FT232H => Ok(
                FtdiProperties { buffer_size: 1024, max_clock: 30_000, has_divide_by_5: true },
            ),
            ChipType::FT2232C => Ok(
                FtdiProperties { buffer_size: 128, max_clock: 6_000, has_divide_by_5: false },
            ),
            not_mpsse => Err(FtdiError::UnsupportedChipType(not_mpsse)),
        }
    }
}

impl vstd::std_specs::convert::TryFromSpecImpl<(FtdiDevice, Option<ChipType>)> for FtdiProperties {
    open spec fn obeys_try_from_spec() -> bool {
        true
    }

    open spec fn try_from_spec(device: (FtdiDevice, Option<ChipType>)) -> Result<Self, FtdiError> {
        let chip_type = effective_chip_type(device.0, device.1);
        match mpsse_properties(chip_type) {
            Some(properties) => Ok(properties),
            None => Err(FtdiError::UnsupportedChipType(chip_type)),
        }
    }
}

} // verus!
