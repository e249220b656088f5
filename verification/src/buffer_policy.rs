//! How large a window of the image's byte stream may be held in memory.
//!
//! A third of the memory that is available beyond a reserve is given to the
//! window buffer. The other two thirds are headroom for what the output sink
//! buffers and for what the encoder works in. The divisor is a cautious
//! rule of thumb and no exact account of either.

use sysinfo::SystemExt;
use vstd::prelude::*;

verus! {

/// Bytes in a kilobyte of reported memory.
pub const KILO: u64 = 1024;

/// The least amount of memory, in bytes, that is kept free.
pub const GIGA: u64 = 1073741824;

/// The part of the usable memory that the window buffer gets is one in
/// this many.
pub const HEADROOM_DIVISOR: u64 = 3;

/// `sysinfo::System`, carried as it is: the proofs see nothing inside it.
#[verifier::external_type_specification]
#[verifier::external_body]
pub struct ExSystem(sysinfo::System);

/// The largest multiple of `unit` that is not above `n`.
pub open spec fn spec_multiple_below(n: nat, unit: nat) -> nat {
    (n - n % unit) as nat
}

/// The least multiple of `unit` that is not below `n`.
pub open spec fn spec_multiple_over(n: nat, unit: nat) -> nat {
    if n % unit == 0 {
        n
    } else {
        (n - n % unit + unit) as nat
    }
}

/// `spec_multiple_below` gives a multiple of the unit, and the nearest one
/// from below.
pub proof fn lemma_multiple_below(n: nat, unit: nat)
    requires
        unit > 0,
    ensures
        n % unit <= n,
        spec_multiple_below(n, unit) % unit == 0,
        spec_multiple_below(n, unit) <= n < spec_multiple_below(n, unit) + unit,
{
    vstd::arithmetic::div_mod::lemma_fundamental_div_mod(n as int, unit as int);
    vstd::arithmetic::div_mod::lemma_mod_multiples_basic(n as int / unit as int, unit as int);
    assert(unit * (n as int / unit as int) == (n as int / unit as int) * unit)
        by (nonlinear_arith);
    assert(n % unit <= n) by (nonlinear_arith)
        requires
            unit > 0,
    ;
}

/// `spec_multiple_over` gives a multiple of the unit, and the nearest one
/// from above.
pub proof fn lemma_multiple_over(n: nat, unit: nat)
    requires
        unit > 0,
    ensures
        spec_multiple_over(n, unit) % unit == 0,
        n <= spec_multiple_over(n, unit) < n + unit,
{
    lemma_multiple_below(n, unit);
    if n % unit != 0 {
        let below = spec_multiple_below(n, unit) as int;
        vstd::arithmetic::div_mod::lemma_mod_add_multiples_vanish(below, unit as int);
    }
}

pub fn closest_multiple_below(n: usize, unit: usize) -> (multiple: usize)
    requires
        unit > 0,
    ensures
        multiple == spec_multiple_below(n as nat, unit as nat),
        multiple % unit == 0,
        multiple <= n < multiple + unit,
{
    proof {
        lemma_multiple_below(n as nat, unit as nat);
    }
    n - n % unit
}

pub fn closest_multiple_over(n: usize, unit: usize) -> (multiple: usize)
    requires
        unit > 0,
        spec_multiple_over(n as nat, unit as nat) <= usize::MAX,
    ensures
        multiple == spec_multiple_over(n as nat, unit as nat),
        multiple % unit == 0,
        n <= multiple < n + unit,
{
    proof {
        lemma_multiple_below(n as nat, unit as nat);
        lemma_multiple_over(n as nat, unit as nat);
    }
    let rest: usize = n % unit;
    if rest == 0 {
        n
    } else {
        n - rest + unit
    }
}

/// The amount of memory to keep free when `requested` bytes were asked for:
/// what was asked for, but no less than `GIGA`.
pub open spec fn spec_reserved_memory(requested: u64) -> u64 {
    if requested < GIGA {
        GIGA
    } else {
        requested
    }
}

pub fn reserved_memory(requested: u64) -> (reserved: u64)
    ensures
        reserved == spec_reserved_memory(requested),
{
    if requested < GIGA {
        GIGA
    } else {
        requested
    }
}

/// The bytes of `count` gigabytes of memory; the largest number there
/// is where they cannot be counted.
pub open spec fn spec_gigabytes(count: u64) -> u64 {
    if count * GIGA > u64::MAX {
        u64::MAX
    } else {
        (count * GIGA) as u64
    }
}

pub fn gigabytes(count: u64) -> (bytes: u64)
    ensures
        bytes == spec_gigabytes(count),
{
    match count.checked_mul(GIGA) {
        Some(bytes) => bytes,
        None => u64::MAX,
    }
}

/// The memory that the window buffer may take where `available` bytes are
/// free and `reserved` of them are to stay free: a third of what lies
/// between them, and nothing where the reserve is not even there.
pub open spec fn spec_buffer_share(available: nat, reserved: nat) -> nat {
    if available > reserved {
        (available - reserved) as nat / (HEADROOM_DIVISOR as nat)
    } else {
        0
    }
}

/// The window size for an image of `image_size` bytes and pixels of
/// `bytes_per_pixel` bytes: the buffer's share of the memory, but no more
/// than the image, rounded down to whole pixels. Where that leaves less than
/// one pixel, the window is one pixel, so that a render always advances.
pub open spec fn spec_window_size(
    available: nat,
    reserved: nat,
    image_size: nat,
    bytes_per_pixel: nat,
) -> nat {
    let share = spec_buffer_share(available, reserved);
    let capped = if share < image_size {
        share
    } else {
        image_size
    };
    let whole = spec_multiple_below(capped, bytes_per_pixel);
    if whole < bytes_per_pixel {
        bytes_per_pixel
    } else {
        whole
    }
}

/// Whatever the memory, the window is a whole number of pixels and holds at
/// least one, so it is never empty; and it is no larger than an image that
/// has a pixel.
pub proof fn lemma_window_size_is_fit(
    available: nat,
    reserved: nat,
    image_size: nat,
    bytes_per_pixel: nat,
)
    requires
        bytes_per_pixel > 0,
    ensures
        spec_window_size(available, reserved, image_size, bytes_per_pixel) >= bytes_per_pixel,
        spec_window_size(available, reserved, image_size, bytes_per_pixel) % bytes_per_pixel == 0,
        image_size >= bytes_per_pixel ==> spec_window_size(
            available,
            reserved,
            image_size,
            bytes_per_pixel,
        ) <= image_size,
        available <= reserved ==> spec_window_size(
            available,
            reserved,
            image_size,
            bytes_per_pixel,
        ) == bytes_per_pixel,
{
    let share = spec_buffer_share(available, reserved);
    let capped = if share < image_size {
        share
    } else {
        image_size
    };
    lemma_multiple_below(capped, bytes_per_pixel);
    vstd::arithmetic::div_mod::lemma_mod_self_0(bytes_per_pixel as int);
    if available <= reserved {
        vstd::arithmetic::div_mod::lemma_small_mod(0, bytes_per_pixel);
    }
}

pub fn window_size(available: u64, reserved: u64, image_size: usize, bytes_per_pixel: usize) -> (size:
    usize)
    requires
        bytes_per_pixel > 0,
    ensures
        size == spec_window_size(
            available as nat,
            reserved as nat,
            image_size as nat,
            bytes_per_pixel as nat,
        ),
        size >= bytes_per_pixel,
        size % bytes_per_pixel == 0,
        image_size >= bytes_per_pixel ==> size <= image_size,
{
    let share: u64 = available.saturating_sub(reserved) / HEADROOM_DIVISOR;
    let capped: usize = if share < image_size as u64 {
        share as usize
    } else {
        image_size
    };
    let whole: usize = closest_multiple_below(capped, bytes_per_pixel);
    proof {
        lemma_window_size_is_fit(
            available as nat,
            reserved as nat,
            image_size as nat,
            bytes_per_pixel as nat,
        );
    }
    if whole < bytes_per_pixel {
        bytes_per_pixel
    } else {
        whole
    }
}

/// The available memory, in kilobytes, that `system` holds: the figure
/// that it took from the machine when it last read the memory.
pub uninterp spec fn spec_available_kilobytes(system: sysinfo::System) -> u64;

/// `sysinfo::SystemExt::available_memory` on a `sysinfo::System`. The call
/// hands out the figure that `system` stored when it last read the memory,
/// and reads nothing anew: what comes back is a function of `system` alone.
/// Nothing is claimed of how large the figure is.
#[verifier::external_body]
fn available_memory(system: &sysinfo::System) -> (kilobytes: u64)
    ensures
        kilobytes == spec_available_kilobytes(*system),
{
    system.available_memory()
}

/// The bytes that `kilobytes` of reported memory stand for; the largest
/// number there is where they cannot be counted.
pub open spec fn spec_memory_bytes(kilobytes: u64) -> u64 {
    if kilobytes * KILO > u64::MAX {
        u64::MAX
    } else {
        (kilobytes * KILO) as u64
    }
}

pub fn memory_bytes(kilobytes: u64) -> (bytes: u64)
    ensures
        bytes == spec_memory_bytes(kilobytes),
{
    match kilobytes.checked_mul(KILO) {
        Some(bytes) => bytes,
        None => u64::MAX,
    }
}

/// The window size for this machine: the policy applied to the available
/// memory that `system` holds. Whatever that is, the size is a whole number
/// of pixels, at least one, and no more than an image that has a pixel.
pub fn calculate_buf_size(
    system: &sysinfo::System,
    reserved: u64,
    image_size: usize,
    bytes_per_pixel: usize,
) -> (size: usize)
    requires
        bytes_per_pixel > 0,
    ensures
        size == spec_window_size(
            spec_memory_bytes(spec_available_kilobytes(*system)) as nat,
            reserved as nat,
            image_size as nat,
            bytes_per_pixel as nat,
        ),
        size >= bytes_per_pixel,
        size % bytes_per_pixel == 0,
        image_size >= bytes_per_pixel ==> size <= image_size,
{
    let available: u64 = memory_bytes(available_memory(system));
    window_size(available, reserved, image_size, bytes_per_pixel)
}

} // verus!
