//! GPIO driver: pin mode, alternate function and output level of one port.
//!
//! Register offsets are those of the standard STM32 GPIO block: MODER 0x00
//! (two bits per pin: 00 input, 01 output, 10 alternate, 11 analog), BSRR 0x18
//! (low half sets a pin, high half resets it), AFRL 0x20 / AFRH 0x24 (four bits
//! of alternate-function number per pin).

use crate::mmio::{read_modify_write, rmw_stored, MmioAccess, MmioOp};
use vstd::prelude::*;

verus! {

pub const GPIO_MODER_OFFSET: u32 = 0x00;
pub const GPIO_BSRR_OFFSET: u32 = 0x18;
pub const GPIO_AFRL_OFFSET: u32 = 0x20;
pub const GPIO_AFRH_OFFSET: u32 = 0x24;

/// The eight GPIO ports.
#[derive(Clone, Copy, Debug, PartialEq, Eq, Structural)]
pub enum Port {
    GpioA,
    GpioB,
    GpioC,
    GpioD,
    GpioE,
    GpioF,
    GpioG,
    GpioH,
}

/// Base address (Non-Secure alias) of a port's register block.
pub open spec fn port_base(p: Port) -> u32 {
    match p {
        Port::GpioA => 0x4602_0000,
        Port::GpioB => 0x4602_0400,
        Port::GpioC => 0x4602_0800,
        Port::GpioD => 0x4602_0C00,
        Port::GpioE => 0x4602_1000,
        Port::GpioF => 0x4602_1400,
        Port::GpioG => 0x4602_1800,
        Port::GpioH => 0x4602_1C00,
    }
}

impl Port {
    /// Base address (Non-Secure alias) of the port's register block.
    pub fn base_addr(&self) -> (a: u32)
        ensures
            a == port_base(*self),
    {
        match self {
            Port::GpioA => 0x4602_0000,
            Port::GpioB => 0x4602_0400,
            Port::GpioC => 0x4602_0800,
            Port::GpioD => 0x4602_0C00,
            Port::GpioE => 0x4602_1000,
            Port::GpioF => 0x4602_1400,
            Port::GpioG => 0x4602_1800,
            Port::GpioH => 0x4602_1C00,
        }
    }
}

/// Pin mode, in MODER encoding order.
#[derive(Clone, Copy, Debug, PartialEq, Eq, Structural)]
pub enum PinMode {
    Input,
    Output,
    Alternate,
    Analog,
}

/// The two-bit MODER encoding of a mode.
pub open spec fn mode_bits(m: PinMode) -> u32 {
    match m {
        PinMode::Input => 0,
        PinMode::Output => 1,
        PinMode::Alternate => 2,
        PinMode::Analog => 3,
    }
}

/// MODER after setting `pin` to `mode`: the pin's two-bit field replaced.
pub open spec fn moder_with(v: u32, pin: u32, mode: PinMode) -> u32 {
    (v & !(3u32 << (pin * 2) as u32)) | (mode_bits(mode) << (pin * 2) as u32)
}

/// AFRL/AFRH after setting `pin`'s four-bit field to the low four bits of `af`.
pub open spec fn afr_with(v: u32, pin: u32, af: u32) -> u32 {
    (v & !(0xFu32 << ((pin % 8) * 4) as u32)) | ((af & 0xF) << ((pin % 8) * 4) as u32)
}

/// Error of the pin-level interface.
#[derive(Clone, Copy, Debug, PartialEq, Eq, Structural)]
pub enum GpioError {
    PinOutOfRange,
}

/// One GPIO port over a register backend.
pub struct Gpio<M: MmioAccess> {
    mmio: M,
}

impl<M: MmioAccess> Gpio<M> {
    pub closed spec fn backend(&self) -> M {
        self.mmio
    }

    pub open spec fn base(&self) -> u32 {
        self.backend().base()
    }

    pub open spec fn ops(&self) -> Seq<MmioOp> {
        self.backend().ops()
    }

    /// Whether the backend stores what is written (a register model).
    pub open spec fn is_storage(&self) -> bool {
        self.backend().is_storage()
    }

    /// The value the backend holds for the register at `offset`.
    pub open spec fn cell(&self, offset: u32) -> u32 {
        self.backend().cell(offset)
    }

    /// A port driver over the register backend `mmio`.
    pub fn new_with_mmio(mmio: M) -> (g: Self)
        ensures
            g.backend() == mmio,
    {
        Self { mmio }
    }

    /// The register backend.
    pub fn mmio(&self) -> (m: &M)
        ensures
            *m == self.backend(),
    {
        &self.mmio
    }

    /// Set the mode of `pin`: read MODER, replace the pin's field, write it back.
    pub fn set_mode(&mut self, pin: u32, mode: PinMode)
        requires
            pin < 16,
        ensures
            final(self).base() == old(self).base(),
            read_modify_write(
                old(self).ops(),
                final(self).ops(),
                old(self).base().wrapping_add(GPIO_MODER_OFFSET),
                |v: u32| moder_with(v, pin, mode),
            ),
            rmw_stored(
                old(self).backend(),
                final(self).backend(),
                GPIO_MODER_OFFSET,
                |v: u32| moder_with(v, pin, mode),
            ),
    {
        let moder_val: u32 = match mode {
            PinMode::Input => 0b00,
            PinMode::Output => 0b01,
            PinMode::Alternate => 0b10,
            PinMode::Analog => 0b11,
        };
        let val = self.mmio.read(GPIO_MODER_OFFSET);
        let mask = !(0b11u32 << (pin * 2));
        self.mmio.write(GPIO_MODER_OFFSET, (val & mask) | (moder_val << (pin * 2)));
        proof {
            let n = old(self).ops().len();
            assert(self.ops().take(n as int) =~= old(self).ops());
        }
    }

    /// Set the alternate function of `pin` (0-15) to `af` (0-15): AFRL for
    /// pins 0-7, AFRH for pins 8-15.
    pub fn set_af(&mut self, pin: u32, af: u32)
        ensures
            final(self).base() == old(self).base(),
            read_modify_write(
                old(self).ops(),
                final(self).ops(),
                old(self).base().wrapping_add(
                    if pin < 8 {
                        GPIO_AFRL_OFFSET
                    } else {
                        GPIO_AFRH_OFFSET
                    },
                ),
                |v: u32| afr_with(v, pin, af),
            ),
            rmw_stored(
                old(self).backend(),
                final(self).backend(),
                if pin < 8 {
                    GPIO_AFRL_OFFSET
                } else {
                    GPIO_AFRH_OFFSET
                },
                |v: u32| afr_with(v, pin, af),
            ),
    {
        let offset = if pin < 8 {
            GPIO_AFRL_OFFSET
        } else {
            GPIO_AFRH_OFFSET
        };
        let bit_pos = (pin % 8) * 4;
        let val = self.mmio.read(offset);
        let mask = !(0xFu32 << bit_pos);
        self.mmio.write(offset, (val & mask) | ((af & 0xF) << bit_pos));
        proof {
            let n = old(self).ops().len();
            assert(self.ops().take(n as int) =~= old(self).ops());
        }
    }

    /// Drive `pin` high: one write of bit `pin` to BSRR.
    pub fn pin_set(&mut self, pin: u32)
        requires
            pin < 16,
        ensures
            final(self).base() == old(self).base(),
            final(self).ops() == old(self).ops().push(
                MmioOp::Write {
                    addr: old(self).base().wrapping_add(GPIO_BSRR_OFFSET),
                    value: 1u32 << pin,
                },
            ),
            final(self).is_storage() == old(self).is_storage(),
            forall|o: u32|
                o != GPIO_BSRR_OFFSET ==> #[trigger] final(self).backend().cell(o) == old(self).backend().cell(o),
    {
        self.mmio.write(GPIO_BSRR_OFFSET, 1u32 << pin);
    }

    /// Drive `pin` low: one write of bit `pin + 16` to BSRR.
    pub fn pin_reset(&mut self, pin: u32)
        requires
            pin < 16,
        ensures
            final(self).base() == old(self).base(),
            final(self).ops() == old(self).ops().push(
                MmioOp::Write {
                    addr: old(self).base().wrapping_add(GPIO_BSRR_OFFSET),
                    value: 1u32 << (pin + 16) as u32,
                },
            ),
    {
        self.mmio.write(GPIO_BSRR_OFFSET, 1u32 << (pin + 16));
    }

    /// Drive `pin` high; pins above 15 are refused and nothing is written.
    pub fn set_high(&mut self, pin: u32) -> (r: Result<(), GpioError>)
        ensures
            final(self).base() == old(self).base(),
            pin > 15 ==> r == Err::<(), GpioError>(GpioError::PinOutOfRange) && final(self).ops()
                == old(self).ops(),
            pin <= 15 ==> r is Ok && final(self).ops() == old(self).ops().push(
                MmioOp::Write {
                    addr: old(self).base().wrapping_add(GPIO_BSRR_OFFSET),
                    value: 1u32 << pin,
                },
            ),
    {
        if pin > 15 {
            return Err(GpioError::PinOutOfRange);
        }
        self.pin_set(pin);
        Ok(())
    }

    /// Drive `pin` low; pins above 15 are refused and nothing is written.
    pub fn set_low(&mut self, pin: u32) -> (r: Result<(), GpioError>)
        ensures
            final(self).base() == old(self).base(),
            pin > 15 ==> r == Err::<(), GpioError>(GpioError::PinOutOfRange) && final(self).ops()
                == old(self).ops(),
            pin <= 15 ==> r is Ok && final(self).ops() == old(self).ops().push(
                MmioOp::Write {
                    addr: old(self).base().wrapping_add(GPIO_BSRR_OFFSET),
                    value: 1u32 << (pin + 16) as u32,
                },
            ),
    {
        if pin > 15 {
            return Err(GpioError::PinOutOfRange);
        }
        self.pin_reset(pin);
        Ok(())
    }
}

} // verus!
