//! Board bring-up steps of the NUCLEO-N657X0-Q that are plain register
//! sequences.

use crate::gpio::{afr_with, moder_with, Gpio, PinMode, GPIO_AFRL_OFFSET, GPIO_BSRR_OFFSET, GPIO_MODER_OFFSET};
use crate::bringup::{clocks_brought_up, console_setup_writes, flash_brought_up, ClockOutcome, BANNER};
use crate::mmio::writes_of;
use crate::uart::{tx_writes, UartError};
use vstd::string::StringSliceAdditionalSpecFns;
use crate::mmio::{extends, read_modify_write, MmioAccess, MmioOp};
use vstd::prelude::*;

verus! {

/// The STM32N657 platform.
pub struct Stm32n657Platform;

/// The accesses of `init_gpio` on port G: LED pins 0, 8 and 10 to output, then
/// LED 0 on.
pub open spec fn gpio_g_ok(old_ops: Seq<MmioOp>, new_ops: Seq<MmioOp>, base: u32) -> bool {
    let moder = base.wrapping_add(GPIO_MODER_OFFSET);
    let n = old_ops.len() as int;
    &&& new_ops.len() == n + 7
    &&& read_modify_write(old_ops, new_ops.take(n + 2), moder, |v: u32| moder_with(v, 0, PinMode::Output))
    &&& read_modify_write(new_ops.take(n + 2), new_ops.take(n + 4), moder, |v: u32| moder_with(v, 8, PinMode::Output))
    &&& read_modify_write(new_ops.take(n + 4), new_ops.take(n + 6), moder, |v: u32| moder_with(v, 10, PinMode::Output))
    &&& new_ops[n + 6] == (MmioOp::Write { addr: base.wrapping_add(GPIO_BSRR_OFFSET), value: 1 })
}

/// The accesses of `init_gpio` on port E: USART1 TX (pin 5) and RX (pin 6) to
/// alternate function 7.
pub open spec fn gpio_e_ok(old_ops: Seq<MmioOp>, new_ops: Seq<MmioOp>, base: u32) -> bool {
    let moder = base.wrapping_add(GPIO_MODER_OFFSET);
    let afrl = base.wrapping_add(GPIO_AFRL_OFFSET);
    let n = old_ops.len() as int;
    &&& new_ops.len() == n + 8
    &&& read_modify_write(old_ops, new_ops.take(n + 2), moder, |v: u32| moder_with(v, 5, PinMode::Alternate))
    &&& read_modify_write(new_ops.take(n + 2), new_ops.take(n + 4), afrl, |v: u32| afr_with(v, 5, 7))
    &&& read_modify_write(new_ops.take(n + 4), new_ops.take(n + 6), moder, |v: u32| moder_with(v, 6, PinMode::Alternate))
    &&& read_modify_write(new_ops.take(n + 6), new_ops, afrl, |v: u32| afr_with(v, 6, 7))
}

impl Stm32n657Platform {
    pub fn new() -> (p: Self) {
        Stm32n657Platform
    }

    /// The user LEDs (PG0 green, PG8 blue, PG10 red) as outputs with the green
    /// one lit, and the USART1 pins PE5 (TX) and PE6 (RX) on alternate function
    /// 7.
    pub fn init_gpio<G: MmioAccess, E: MmioAccess>(&self, gpio_g: &mut Gpio<G>, gpio_e: &mut Gpio<E>)
        ensures
            final(gpio_g).base() == old(gpio_g).base(),
            final(gpio_e).base() == old(gpio_e).base(),
            gpio_g_ok(old(gpio_g).ops(), final(gpio_g).ops(), old(gpio_g).base()),
            gpio_e_ok(old(gpio_e).ops(), final(gpio_e).ops(), old(gpio_e).base()),
            old(gpio_g).is_storage() ==> final(gpio_g).cell(GPIO_MODER_OFFSET) == moder_with(
                moder_with(
                    moder_with(old(gpio_g).cell(GPIO_MODER_OFFSET), 0, PinMode::Output),
                    8,
                    PinMode::Output,
                ),
                10,
                PinMode::Output,
            ),
            old(gpio_e).is_storage() ==> final(gpio_e).cell(GPIO_MODER_OFFSET) == moder_with(
                moder_with(old(gpio_e).cell(GPIO_MODER_OFFSET), 5, PinMode::Alternate),
                6,
                PinMode::Alternate,
            ) && final(gpio_e).cell(GPIO_AFRL_OFFSET) == afr_with(
                afr_with(old(gpio_e).cell(GPIO_AFRL_OFFSET), 5, 7),
                6,
                7,
            ),
    {
        let ghost g0 = gpio_g.ops();
        gpio_g.set_mode(0, PinMode::Output);
        let ghost g1 = gpio_g.ops();
        gpio_g.set_mode(8, PinMode::Output);
        let ghost g2 = gpio_g.ops();
        gpio_g.set_mode(10, PinMode::Output);
        let ghost g3 = gpio_g.ops();
        gpio_g.pin_set(0);
        proof {
            let n = g0.len() as int;
            let f = gpio_g.ops();
            assert(f.take(n + 2) =~= g1);
            assert(f.take(n + 4) =~= g2);
            assert(f.take(n + 6) =~= g3);
            assert(1u32 << 0u32 == 1) by (bit_vector);
        }
        let ghost e0 = gpio_e.ops();
        gpio_e.set_mode(5, PinMode::Alternate);
        let ghost e1 = gpio_e.ops();
        gpio_e.set_af(5, 7);
        let ghost e2 = gpio_e.ops();
        gpio_e.set_mode(6, PinMode::Alternate);
        let ghost e3 = gpio_e.ops();
        gpio_e.set_af(6, 7);
        proof {
            let n = e0.len() as int;
            let f = gpio_e.ops();
            assert(f.take(n + 2) =~= e1);
            assert(f.take(n + 4) =~= e2);
            assert(f.take(n + 6) =~= e3);
        }
    }

    /// Clock, NPU-subsystem and cache bring-up on the system bus (see
    /// `bringup::init_clocks`).
    pub fn init_clocks<M: MmioAccess>(&self, bus: &mut M) -> (out: ClockOutcome)
        requires
            old(bus).base() == 0,
        ensures
            final(bus).base() == 0,
            extends(final(bus).ops(), old(bus).ops()),
            clocks_brought_up(final(bus).ops().skip(old(bus).ops().len() as int), out),
    {
        crate::bringup::init_clocks(bus)
    }

    /// External flash bring-up on the system bus (see
    /// `bringup::init_external_flash`). Always `true`.
    pub fn init_external_flash<M: MmioAccess>(&self, bus: &mut M) -> (ok: bool)
        requires
            old(bus).base() == 0,
        ensures
            ok,
            final(bus).base() == 0,
            extends(final(bus).ops(), old(bus).ops()),
            flash_brought_up(final(bus).ops().skip(old(bus).ops().len() as int)),
    {
        crate::bringup::init_external_flash(bus)
    }

    /// Console bring-up and banner (see `bringup::init_uart`).
    pub fn init_uart<M: MmioAccess>(&self, console: &mut M) -> (r: Result<(), UartError>)
        ensures
            final(console).base() == old(console).base(),
            extends(final(console).ops(), old(console).ops()),
            r is Ok ==> writes_of(final(console).ops()) == writes_of(old(console).ops()) + console_setup_writes(
                old(console).base(),
            ) + tx_writes(old(console).base(), BANNER.spec_bytes()),
            r is Err ==> crate::uart::tx_stalled(
                old(console).base(),
                old(console).ops().len() as int,
                final(console).ops(),
            ),
            r is Err ==> r == Err::<(), UartError>(UartError::Timeout) && exists|k: int|
                0 <= k <= BANNER.spec_bytes().len() && #[trigger] writes_of(final(console).ops()) == writes_of(
                    old(console).ops(),
                ) + console_setup_writes(old(console).base()) + tx_writes(
                    old(console).base(),
                    BANNER.spec_bytes().take(k),
                ),
    {
        crate::bringup::init_uart(console)
    }
}

} // verus!
