//! Hardware capabilities and the choice between the two vector widths.
//!
//! Reading the configuration word, keeping the probed byte and holding one
//! [`ThreadMode`] per thread is up to the caller; the functions here say what follows
//! from them.
use vstd::prelude::*;

verus! {

/// The vector path a kernel takes.
#[derive(Clone, Copy, PartialEq, Eq, Structural, Debug)]
pub enum SimdPath {
    /// 256-bit vectors.
    Lasx,
    /// 128-bit vectors; a few kernels are plain scalar loops here.
    Lsx,
}

/// The capabilities of the machine.
#[derive(Clone, Copy, PartialEq, Eq, Structural, Debug)]
pub struct HwCaps {
    /// 256-bit vectors: bit 7 of configuration word 2.
    pub lasx: bool,
    /// 128-bit vectors: bit 6 of configuration word 2.
    pub lsx: bool,
}

/// Whether one thread is held to the 128-bit path.
#[derive(Clone, Copy, PartialEq, Eq, Structural, Debug)]
pub struct ThreadMode {
    /// Set while the thread is held to the 128-bit path.
    pub force_lsx: bool,
}

/// Bit of the probed byte that stands for 256-bit vectors.
pub const BIT_LASX: u8 = 0x01;

/// Bit of the probed byte that stands for 128-bit vectors.
pub const BIT_LSX: u8 = 0x02;

/// Bit of the probed byte that says that the probe has been made.
pub const BIT_DONE: u8 = 0x80;

impl SimdPath {
    /// The path of a thread: 256-bit where the machine has it and the thread is not
    /// held back.
    pub fn detect(caps: HwCaps, mode: &ThreadMode) -> (r: Self)
        ensures
            r == (if caps.lasx && !mode.force_lsx {
                SimdPath::Lasx
            } else {
                SimdPath::Lsx
            }),
    {
        if caps.lasx && !forced_lsx(mode) {
            SimdPath::Lasx
        } else {
            SimdPath::Lsx
        }
    }

    /// Whether this is the 256-bit path.
    pub fn is_lasx(self) -> (r: bool)
        ensures
            r == (self == SimdPath::Lasx),
    {
        matches!(self, SimdPath::Lasx)
    }
}

impl HwCaps {
    /// The byte that stands for probed capabilities.
    pub open spec fn byte(self) -> u8 {
        ((if self.lasx {
            BIT_LASX
        } else {
            0u8
        }) | (if self.lsx {
            BIT_LSX
        } else {
            0u8
        })) | BIT_DONE
    }

    /// The capabilities that a byte stands for.
    pub open spec fn of_byte(bits: u8) -> HwCaps {
        HwCaps { lasx: bits & BIT_LASX != 0, lsx: bits & BIT_LSX != 0 }
    }

    /// Packs the capabilities into a byte that also says that the probe was made.
    pub fn to_bits(self) -> (r: u8)
        ensures
            r == self.byte(),
    {
        ((if self.lasx {
            BIT_LASX
        } else {
            0u8
        }) | (if self.lsx {
            BIT_LSX
        } else {
            0u8
        })) | BIT_DONE
    }

    /// Reads the capabilities back from a byte.
    pub fn from_bits(bits: u8) -> (r: Self)
        ensures
            r == HwCaps::of_byte(bits),
    {
        HwCaps { lasx: bits & BIT_LASX != 0, lsx: bits & BIT_LSX != 0 }
    }
}

/// Law: packing loses nothing, and a packed byte is never mistaken for "not probed yet".
pub proof fn law_bits_roundtrip(caps: HwCaps)
    ensures
        HwCaps::of_byte(caps.byte()) == caps,
        caps.byte() & BIT_DONE != 0,
{
    let a = caps.lasx;
    let b = caps.lsx;
    assert(({
        let x = ((if a {
            0x01u8
        } else {
            0u8
        }) | (if b {
            0x02u8
        } else {
            0u8
        })) | 0x80u8;
        (x & 0x01u8 != 0) == a && (x & 0x02u8 != 0) == b && x & 0x80u8 != 0
    })) by (bit_vector);
}

/// The capabilities that configuration word 2 reports.
pub open spec fn caps_of_word(cfg2: u32) -> HwCaps {
    HwCaps { lasx: cfg2 & 0x80 != 0, lsx: cfg2 & 0x40 != 0 }
}

/// The capabilities recorded in the probed byte; `None` when no probe was made yet.
pub fn hardware(probed: u8) -> (r: Option<HwCaps>)
    ensures
        r == (if probed & BIT_DONE != 0 {
            Some(HwCaps::of_byte(probed))
        } else {
            None::<HwCaps>
        }),
{
    if probed & BIT_DONE != 0 {
        Some(HwCaps::from_bits(probed))
    } else {
        None
    }
}

/// The capabilities reported by configuration word 2, with the byte to publish.
pub fn probe_hw_caps(cfg2: u32) -> (r: (HwCaps, u8))
    ensures
        r.0 == caps_of_word(cfg2),
        r.1 == r.0.byte(),
{
    let caps = HwCaps { lasx: cfg2 & 0x80 != 0, lsx: cfg2 & 0x40 != 0 };
    (caps, caps.to_bits())
}

/// Law: the byte that a probe publishes makes [`hardware`] report what the probe saw.
pub proof fn law_probe_then_hardware(cfg2: u32)
    ensures
        caps_of_word(cfg2).byte() & BIT_DONE != 0,
        HwCaps::of_byte(caps_of_word(cfg2).byte()) == caps_of_word(cfg2),
{
    law_bits_roundtrip(caps_of_word(cfg2));
}

/// Whether the thread is held to the 128-bit path.
pub fn forced_lsx(mode: &ThreadMode) -> (r: bool)
    ensures
        r == mode.force_lsx,
{
    mode.force_lsx
}

/// Holds the thread to the 128-bit path, or lets it go again.
pub fn lasx_force_lsx_thread(mode: &mut ThreadMode, force: bool)
    ensures
        *final(mode) == (ThreadMode { force_lsx: force }),
{
    mode.force_lsx = force;
}

} // verus!
