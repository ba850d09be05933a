//! Raw UART output for exception handlers and early boot: bytes straight to
//! USART1's transmit register, each one waited out to the end of its
//! transmission (TC) so that a halt right after a print does not cut the
//! last character. Waits are bounded; a stuck UART ends the print with
//! `Timeout`.

use crate::mmio::{extends, poll, wr, writes_of, MmioAccess};
use crate::uart::{tx_stalled, tx_writes, UartError, ISR_OFFSET, ISR_TXE, TDR_OFFSET};
use vstd::string::StringSliceAdditionalSpecFns;
use vstd::prelude::*;

verus! {

/// ISR: transmission complete.
pub const ISR_TC: u32 = 1 << 6;

/// Most bytes a Non-Secure debug print may ask for.
pub const MAX_PRINT_LEN: usize = 256;

/// Uppercase hexadecimal digit of `n` (< 16).
pub open spec fn hex_upper(n: u8) -> u8 {
    if n < 10 {
        (0x30 + n) as u8
    } else {
        (0x41 + n - 10) as u8
    }
}

/// Lowercase hexadecimal digit of `n` (< 16).
pub open spec fn hex_lower(n: u8) -> u8 {
    if n < 10 {
        (0x30 + n) as u8
    } else {
        (0x61 + n - 10) as u8
    }
}

/// Nibble `i` of `val`, most significant first.
pub open spec fn nibble_of(val: u32, i: int) -> u8 {
    ((val >> ((28 - 4 * i) as u32)) & 0xF) as u8
}

/// The eight uppercase hex digits of `val`, most significant first.
pub open spec fn hex32(val: u32) -> Seq<u8> {
    Seq::new(8, |i: int| hex_upper(nibble_of(val, i)))
}

/// Two lowercase hex digits per byte of `data`, high nibble first.
pub open spec fn hex_bytes(data: Seq<u8>) -> Seq<u8> {
    Seq::new(
        2 * data.len(),
        |i: int|
            if i % 2 == 0 {
                hex_lower(data[i / 2] >> 4u8)
            } else {
                hex_lower(data[i / 2] & 0xFu8)
            },
    )
}

/// Bytes of `s` before its first NUL (all of it if there is none).
pub open spec fn before_nul(s: Seq<u8>, n: int) -> bool {
    &&& 0 <= n <= s.len()
    &&& forall|i: int| 0 <= i < n ==> #[trigger] s[i] != 0
    &&& n < s.len() ==> s[n] == 0
}

/// Length of the C string in `bytes`: the index of the first NUL, or the
/// whole length if there is none.
pub fn cstr_len(bytes: &[u8]) -> (n: usize)
    ensures
        before_nul(bytes@, n as int),
{
    let mut i: usize = 0;
    while i < bytes.len()
        invariant
            i <= bytes@.len(),
            forall|j: int| 0 <= j < i ==> #[trigger] bytes@[j] != 0,
        decreases bytes@.len() - i,
    {
        if bytes[i] == 0 {
            return i;
        }
        i += 1;
    }
    i
}

/// Send one byte: wait for TXE, write TDR, wait for TC. `false` on a
/// timeout; the byte is written unless TXE timed out.
fn send_byte<M: MmioAccess>(m: &mut M, byte: u8) -> (ok: bool)
    ensures
        final(m).base() == old(m).base(),
        extends(final(m).ops(), old(m).ops()),
        ok ==> writes_of(final(m).ops()) == writes_of(old(m).ops()).push(
            (old(m).base().wrapping_add(TDR_OFFSET), byte as u32),
        ),
        !ok ==> writes_of(final(m).ops()) == writes_of(old(m).ops()) || writes_of(final(m).ops())
            == writes_of(old(m).ops()).push((old(m).base().wrapping_add(TDR_OFFSET), byte as u32)),
        !ok ==> tx_stalled(old(m).base(), old(m).ops().len() as int, final(m).ops()),
{
    if !poll(m, ISR_OFFSET, ISR_TXE, true) {
        return false;
    }
    wr(m, TDR_OFFSET, byte as u32);
    poll(m, ISR_OFFSET, ISR_TC, true)
}

/// Send `bytes` in order. On a timeout a prefix of them has been sent.
pub fn print_bytes<M: MmioAccess>(m: &mut M, bytes: &[u8]) -> (r: Result<(), UartError>)
    ensures
        r is Err ==> tx_stalled(old(m).base(), old(m).ops().len() as int, final(m).ops()),
        final(m).base() == old(m).base(),
        extends(final(m).ops(), old(m).ops()),
        r is Ok ==> writes_of(final(m).ops()) == writes_of(old(m).ops()) + tx_writes(old(m).base(), bytes@),
        r is Err ==> r == Err::<(), UartError>(UartError::Timeout) && exists|k: int|
            0 <= k <= bytes@.len() && #[trigger] writes_of(final(m).ops()) == writes_of(old(m).ops())
                + tx_writes(old(m).base(), bytes@.take(k)),
{
    let ghost w0 = writes_of(m.ops());
    let ghost base = m.base();
    let mut i: usize = 0;
    while i < bytes.len()
        invariant
            i <= bytes@.len(),
            m.base() == base,
            base == old(m).base(),
            w0 == writes_of(old(m).ops()),
            extends(m.ops(), old(m).ops()),
            m.ops().len() >= old(m).ops().len(),
            writes_of(m.ops()) == w0 + tx_writes(base, bytes@.take(i as int)),
        decreases bytes@.len() - i,
    {
        let ghost before = m.ops();
        let ok = send_byte(m, bytes[i]);
        proof {
            assert(tx_writes(base, bytes@.take(i + 1)) =~= tx_writes(base, bytes@.take(i as int)).push(
                (base.wrapping_add(TDR_OFFSET), bytes@[i as int] as u32),
            ));
            assert forall|j: int| 0 <= j < old(m).ops().len() implies #[trigger] m.ops()[j] == old(
                m,
            ).ops()[j] by {
                assert(m.ops()[j] == before[j]);
            }
        }
        if !ok {
            proof {
                if writes_of(m.ops()) == w0 + tx_writes(base, bytes@.take(i as int)) {
                    assert(writes_of(m.ops()) == w0 + tx_writes(base, bytes@.take(i as int)));
                } else {
                    assert(writes_of(m.ops()) =~= w0 + tx_writes(base, bytes@.take(i + 1)));
                }
            }
            return Err(UartError::Timeout);
        }
        i += 1;
    }
    assert(bytes@.take(i as int) =~= bytes@);
    Ok(())
}

/// Send the bytes of `s`.
pub fn print_str<M: MmioAccess>(m: &mut M, s: &str) -> (r: Result<(), UartError>)
    ensures
        r is Err ==> tx_stalled(old(m).base(), old(m).ops().len() as int, final(m).ops()),
        final(m).base() == old(m).base(),
        extends(final(m).ops(), old(m).ops()),
        r is Ok ==> writes_of(final(m).ops()) == writes_of(old(m).ops()) + tx_writes(
            old(m).base(),
            s.spec_bytes(),
        ),
        r is Err ==> r == Err::<(), UartError>(UartError::Timeout) && exists|k: int|
            0 <= k <= s.spec_bytes().len() && #[trigger] writes_of(final(m).ops()) == writes_of(
                old(m).ops(),
            ) + tx_writes(old(m).base(), s.spec_bytes().take(k)),
{
    print_bytes(m, s.as_bytes())
}

/// The eight uppercase hex digits of `val`, most significant first.
pub fn hex_digits(val: u32) -> (d: [u8; 8])
    ensures
        d@ == hex32(val),
{
    let mut d = [0u8; 8];
    let mut i: usize = 0;
    while i < 8
        invariant
            i <= 8,
            forall|j: int| 0 <= j < i ==> #[trigger] d@[j] == hex32(val)[j],
        decreases 8 - i,
    {
        let shift: u32 = 28 - 4 * (i as u32);
        let nibble = ((val >> shift) & 0xF) as u8;
        assert(((val >> shift) & 0xF) < 16) by (bit_vector);
        d[i] = if nibble < 10 {
            0x30 + nibble
        } else {
            0x41 + nibble - 10
        };
        i += 1;
    }
    assert(d@ =~= hex32(val));
    d
}

/// Print `val` as eight uppercase hex digits.
pub fn print_hex<M: MmioAccess>(m: &mut M, val: u32) -> (r: Result<(), UartError>)
    ensures
        r is Err ==> tx_stalled(old(m).base(), old(m).ops().len() as int, final(m).ops()),
        final(m).base() == old(m).base(),
        extends(final(m).ops(), old(m).ops()),
        r is Ok ==> writes_of(final(m).ops()) == writes_of(old(m).ops()) + tx_writes(old(m).base(), hex32(val)),
        r is Err ==> r == Err::<(), UartError>(UartError::Timeout) && exists|k: int|
            0 <= k <= 8 && #[trigger] writes_of(final(m).ops()) == writes_of(old(m).ops()) + tx_writes(
                old(m).base(),
                hex32(val).take(k),
            ),
{
    let d = hex_digits(val);
    print_bytes(m, d.as_slice())
}

/// The lowercase hex rendering of `data`, two digits per byte.
pub fn hex_bytes_of(data: &[u8]) -> (out: Vec<u8>)
    ensures
        out@ == hex_bytes(data@),
{
    let mut out: Vec<u8> = Vec::new();
    let mut i: usize = 0;
    while i < data.len()
        invariant
            i <= data@.len(),
            out@.len() == 2 * i,
            forall|j: int| 0 <= j < 2 * i ==> #[trigger] out@[j] == hex_bytes(data@)[j],
        decreases data@.len() - i,
    {
        let byte = data[i];
        let hi = byte >> 4u8;
        let lo = byte & 0xFu8;
        assert(byte >> 4u8 < 16 && byte & 0xFu8 < 16) by (bit_vector);
        out.push(if hi < 10 { 0x30 + hi } else { 0x61 + hi - 10 });
        out.push(if lo < 10 { 0x30 + lo } else { 0x61 + lo - 10 });
        proof {
            assert((2 * i) / 2 == i && (2 * i) % 2 == 0);
            assert((2 * i + 1) / 2 == i && (2 * i + 1) % 2 == 1);
        }
        i += 1;
    }
    assert(out@ =~= hex_bytes(data@));
    out
}

/// Print `data` as lowercase hex, two digits per byte.
pub fn print_hex_bytes<M: MmioAccess>(m: &mut M, data: &[u8]) -> (r: Result<(), UartError>)
    ensures
        r is Err ==> tx_stalled(old(m).base(), old(m).ops().len() as int, final(m).ops()),
        final(m).base() == old(m).base(),
        extends(final(m).ops(), old(m).ops()),
        r is Ok ==> writes_of(final(m).ops()) == writes_of(old(m).ops()) + tx_writes(
            old(m).base(),
            hex_bytes(data@),
        ),
        r is Err ==> r == Err::<(), UartError>(UartError::Timeout) && exists|k: int|
            0 <= k <= hex_bytes(data@).len() && #[trigger] writes_of(final(m).ops()) == writes_of(
                old(m).ops(),
            ) + tx_writes(old(m).base(), hex_bytes(data@).take(k)),
{
    let h = hex_bytes_of(data);
    print_bytes(m, h.as_slice())
}

/// Print the C string at the start of `bytes` (up to its first NUL).
pub fn print_cstr<M: MmioAccess>(m: &mut M, bytes: &[u8]) -> (r: Result<(), UartError>)
    ensures
        r is Err ==> tx_stalled(old(m).base(), old(m).ops().len() as int, final(m).ops()),
        final(m).base() == old(m).base(),
        extends(final(m).ops(), old(m).ops()),
        exists|n: int|
            before_nul(bytes@, n) && (r is Ok ==> #[trigger] writes_of(final(m).ops()) == writes_of(
                old(m).ops(),
            ) + tx_writes(old(m).base(), bytes@.take(n))) && (r is Err ==> r == Err::<(), UartError>(
                UartError::Timeout,
            ) && exists|k: int|
                0 <= k <= n && #[trigger] writes_of(final(m).ops()) == writes_of(old(m).ops()) + tx_writes(
                    old(m).base(),
                    bytes@.take(n).take(k),
                )),
{
    let n = cstr_len(bytes);
    let s = slice_prefix(bytes, n);
    let r = print_bytes(m, s);
    assert(s@ == bytes@.take(n as int));
    r
}

/// The first `n` bytes of `bytes`.
fn slice_prefix(bytes: &[u8], n: usize) -> (s: &[u8])
    requires
        n <= bytes@.len(),
    ensures
        s@ == bytes@.take(n as int),
{
    let s = vstd::slice::slice_subrange(bytes, 0, n);
    assert(s@ =~= bytes@.take(n as int));
    s
}

} // verus!
