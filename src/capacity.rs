//! How many payload bits an image can carry.
use vstd::prelude::*;

verus! {

/// The number of bits a `width` by `height` image offers: one in each of the
/// red, green and blue channels of every pixel.
pub open spec fn available_bits(width: u32, height: u32) -> int {
    3 * ((width as int) * (height as int))
}

/// The number of bits a payload of `len` bytes takes.
pub open spec fn needed_bits(len: usize) -> int {
    8 * (len as int)
}

/// A payload does not fit: it needs `needed` bits, the image has `available`.
#[derive(Debug, Clone, Copy, PartialEq, Eq)]
pub struct CapacityError {
    pub needed: u128,
    pub available: u128,
}

/// Succeeds when a payload of `payload_len` bytes fits into a `width` by
/// `height` image, and otherwise says how many bits were needed and offered.
pub fn check_capacity(width: u32, height: u32, payload_len: usize) -> (r: Result<
    (),
    CapacityError,
>)
    ensures
        r is Ok <==> needed_bits(payload_len) <= available_bits(width, height),
        r matches Err(e) ==> e.needed == needed_bits(payload_len) && e.available == available_bits(
            width,
            height,
        ),
{
    assert((width as int) * (height as int) <= 0x1_0000_0000 * 0x1_0000_0000) by (nonlinear_arith)
        requires
            width <= 0xffff_ffff,
            height <= 0xffff_ffff,
    ;
    let available: u128 = 3 * ((width as u128) * (height as u128));
    let needed: u128 = 8 * (payload_len as u128);
    if needed > available {
        Err(CapacityError { needed, available })
    } else {
        Ok(())
    }
}

} // verus!
