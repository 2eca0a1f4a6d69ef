//! Hiding a payload in an image and recovering it.
use crate::bits::{lemma_pack_unpack, pack, packed, unpack, unpacked};
use crate::capacity::{available_bits, check_capacity, needed_bits, CapacityError};
use crate::carrier::{
    embed, embedded, extract, extracted, lemma_embedded_frame, lemma_embedded_len,
    lemma_embed_extract, lemma_slot_in_bounds, names_byte, slot_index, Carrier,
};
use crate::error::Error;
use crate::plan::{build_plan, planned};
use image::ImageEncoder;
use vstd::prelude::*;

verus! {

/// The RGBA image that the file `file` decodes to, as width, height and pixel
/// bytes, or nothing where it does not decode.
pub uninterp spec fn decoded_rgba(file: Seq<u8>) -> Option<(u32, u32, Seq<u8>)>;

/// The PNG file that encodes an RGBA image, or nothing where encoding fails.
pub uninterp spec fn png_file(width: u32, height: u32, pixels: Seq<u8>) -> Option<Seq<u8>>;

/// Relies on `image::load_from_memory` and `DynamicImage::to_rgba8`: the file
/// is decoded, and its pixels are laid out as four bytes each, row by row.
#[verifier::external_body]
fn decode_rgba(file: &[u8]) -> (r: Result<Carrier, image::ImageError>)
    ensures
        r is Ok <==> decoded_rgba(file@) is Some,
        r matches Ok(c) ==> c.wf() && decoded_rgba(file@) == Some((c.width, c.height, c.pixels@)),
{
    let img = image::load_from_memory(file)?.to_rgba8();
    Ok(Carrier { width: img.width(), height: img.height(), pixels: img.into_raw() })
}

/// Relies on `PngEncoder::write_image` of the image crate: the RGBA pixels are
/// written as a PNG file into memory.
#[verifier::external_body]
fn encode_png(c: &Carrier) -> (r: Result<Vec<u8>, image::ImageError>)
    requires
        c.wf(),
    ensures
        r is Ok <==> png_file(c.width, c.height, c.pixels@) is Some,
        r matches Ok(v) ==> png_file(c.width, c.height, c.pixels@) == Some(v@),
{
    let mut out: Vec<u8> = Vec::new();
    image::codecs::png::PngEncoder::new(&mut out).write_image(
        &c.pixels,
        c.width,
        c.height,
        image::ExtendedColorType::Rgba8,
    )?;
    Ok(out)
}

/// The plan for a payload of `len` bytes.
pub open spec fn plan_for(width: u32, height: u32, len: usize, seed: u64) -> Seq<crate::carrier::Slot> {
    planned(width, height, needed_bits(len) as nat, seed)
}

/// The pixel bytes after `payload` was hidden along the plan for its length.
pub open spec fn hidden(pixels: Seq<u8>, width: u32, height: u32, payload: Seq<u8>, seed: u64) -> Seq<u8> {
    let plan = planned(width, height, 8 * payload.len(), seed);
    embedded(pixels, width, plan, packed(payload), plan.len())
}

/// The `len` bytes read back along the plan for that length.
pub open spec fn recovered(pixels: Seq<u8>, width: u32, height: u32, len: usize, seed: u64) -> Seq<u8> {
    unpacked(extracted(pixels, width, plan_for(width, height, len, seed), needed_bits(len) as nat), len as nat)
}

/// The error for a payload of `len` bytes that does not fit.
pub open spec fn capacity_error(width: u32, height: u32, len: usize) -> Error {
    Error::Capacity(
        CapacityError {
            needed: needed_bits(len) as u128,
            available: available_bits(width, height) as u128,
        },
    )
}

/// Hides `data` in `carrier`: bit `i` of the payload goes into the least
/// significant bit of the `i`-th slot of the seeded plan.
pub fn hide_in_carrier(carrier: &mut Carrier, data: &[u8], seed: u64) -> (r: Result<(), Error>)
    requires
        old(carrier).wf(),
    ensures
        final(carrier).width == old(carrier).width,
        final(carrier).height == old(carrier).height,
        r is Ok <==> needed_bits(data@.len() as usize) <= available_bits(
            old(carrier).width,
            old(carrier).height,
        ),
        r is Err ==> r == Err::<(), Error>(
            capacity_error(old(carrier).width, old(carrier).height, data@.len() as usize),
        ) && final(carrier).pixels@ == old(carrier).pixels@,
        r is Ok ==> final(carrier).pixels@ == hidden(
            old(carrier).pixels@,
            old(carrier).width,
            old(carrier).height,
            data@,
            seed,
        ),
        // the payload reads back along the same plan
        r is Ok ==> recovered(
            final(carrier).pixels@,
            old(carrier).width,
            old(carrier).height,
            data@.len() as usize,
            seed,
        ) == data@,
        // only the low bit of a byte named by the plan may change
        forall|k: int|
            0 <= k < old(carrier).pixels@.len() ==> #[trigger] final(carrier).pixels@[k] & 0xfeu8
                == old(carrier).pixels@[k] & 0xfeu8,
        forall|k: int|
            0 <= k < old(carrier).pixels@.len() && !names_byte(
                old(carrier).width,
                plan_for(old(carrier).width, old(carrier).height, data@.len() as usize, seed),
                k,
            ) ==> #[trigger] final(carrier).pixels@[k] == old(carrier).pixels@[k],
        // the alpha channel is never written
        forall|k: int|
            0 <= k < old(carrier).pixels@.len() && k % 4 == 3 ==> #[trigger] final(carrier).pixels@[k]
                == old(carrier).pixels@[k],
        final(carrier).pixels@.len() == old(carrier).pixels@.len(),
{
    let ghost before = carrier.pixels@;
    let len = data.len();
    if let Err(e) = check_capacity(carrier.width, carrier.height, len) {
        proof {
            lemma_embedded_frame_all(before, carrier.width, carrier.height, Seq::empty(), Seq::empty());
        }
        return Err(Error::Capacity(e));
    }
    let w = carrier.width;
    let h = carrier.height;
    let _n = carrier.pixels.len();
    proof {
        assert(3 * ((w as int) * (h as int)) <= 4 * ((w as int) * (h as int)));
    }
    let plan = build_plan(w, h, 8 * len, seed);
    let bits = pack(data);
    embed(carrier, &plan, &bits);
    assert(plan@ == plan_for(w, h, len, seed));
    proof {
        lemma_embedded_frame_all(before, w, h, plan@, bits@);
        if needed_bits(len) <= available_bits(w, h) {
            assert(plan@.len() == 8 * len);
            lemma_embed_extract(before, w, h, plan@, bits@);
            assert(bits@.take(plan@.len() as int) =~= bits@);
            lemma_pack_unpack(data@);
        }
    }
    Ok(())
}

/// Embedding along a fitting plan changes only low bits, only bytes named by
/// the plan, and never an alpha byte.
proof fn lemma_embedded_frame_all(
    pixels: Seq<u8>,
    width: u32,
    height: u32,
    plan: Seq<crate::carrier::Slot>,
    bits: Seq<bool>,
)
    requires
        pixels.len() == 4 * ((width as int) * (height as int)),
        crate::carrier::plan_fits(width, height, plan),
    ensures
        embedded(pixels, width, plan, bits, plan.len()).len() == pixels.len(),
        forall|k: int|
            0 <= k < pixels.len() ==> #[trigger] embedded(pixels, width, plan, bits, plan.len())[k]
                & 0xfeu8 == pixels[k] & 0xfeu8,
        forall|k: int|
            0 <= k < pixels.len() && !names_byte(width, plan, k) ==> #[trigger] embedded(
                pixels,
                width,
                plan,
                bits,
                plan.len(),
            )[k] == pixels[k],
        forall|k: int|
            0 <= k < pixels.len() && k % 4 == 3 ==> #[trigger] embedded(
                pixels,
                width,
                plan,
                bits,
                plan.len(),
            )[k] == pixels[k],
{
    lemma_embedded_len(pixels, width, plan, bits, plan.len());
    assert forall|k: int| 0 <= k < pixels.len() implies #[trigger] embedded(
        pixels,
        width,
        plan,
        bits,
        plan.len(),
    )[k] & 0xfeu8 == pixels[k] & 0xfeu8 && ((forall|i: int|
        0 <= i < plan.len() ==> slot_index(width, #[trigger] plan[i]) != k) ==> embedded(
        pixels,
        width,
        plan,
        bits,
        plan.len(),
    )[k] == pixels[k]) && (k % 4 == 3 ==> embedded(pixels, width, plan, bits, plan.len())[k]
        == pixels[k]) by {
        lemma_embedded_frame(pixels, width, plan, bits, plan.len(), k);
        assert(plan.take(plan.len() as int) =~= plan);
        if k % 4 == 3 {
            assert forall|i: int| 0 <= i < plan.len() implies slot_index(width, #[trigger] plan[i])
                != k by {
                lemma_slot_in_bounds(width, height, plan[i]);
            }
            assert(!names_byte(width, plan, k));
        }
    }
}

/// Reads back `len` bytes hidden in `carrier` along the seeded plan for that
/// length.
pub fn extract_from_carrier(carrier: &Carrier, len: usize, seed: u64) -> (r: Result<Vec<u8>, Error>)
    requires
        carrier.wf(),
    ensures
        needed_bits(len) > available_bits(carrier.width, carrier.height) ==> r == Err::<Vec<u8>, Error>(
            capacity_error(carrier.width, carrier.height, len),
        ),
        needed_bits(len) <= available_bits(carrier.width, carrier.height) ==> r is Ok
            && r->Ok_0@ == recovered(carrier.pixels@, carrier.width, carrier.height, len, seed),
{
    if let Err(e) = check_capacity(carrier.width, carrier.height, len) {
        return Err(Error::Capacity(e));
    }
    let w = carrier.width;
    let h = carrier.height;
    let _n = carrier.pixels.len();
    proof {
        assert(3 * ((w as int) * (h as int)) <= 4 * ((w as int) * (h as int)));
    }
    let plan = build_plan(w, h, 8 * len, seed);
    let bits = extract(carrier, &plan, plan.len());
    match unpack(&bits, len) {
        Ok(v) => Ok(v),
        Err(e) => Err(Error::Decode(e)),
    }
}

/// Hides `data` in the image that `file` holds and returns the result as a
/// PNG file, whatever the format of `file`.
pub fn hide_data(file: &[u8], data: &[u8], seed: u64) -> (r: Result<Vec<u8>, Error>)
    ensures
        decoded_rgba(file@) is None ==> r matches Err(Error::Image(_)),
        decoded_rgba(file@) matches Some((w, h, px)) ==> {
            &&& needed_bits(data@.len() as usize) > available_bits(w, h) ==> r == Err::<Vec<u8>, Error>(
                capacity_error(w, h, data@.len() as usize),
            )
            &&& needed_bits(data@.len() as usize) <= available_bits(w, h) ==> match png_file(
                w,
                h,
                hidden(px, w, h, data@, seed),
            ) {
                Some(out) => r is Ok && r->Ok_0@ == out,
                None => r matches Err(Error::Image(_)),
            }
        },
{
    let mut carrier = match decode_rgba(file) {
        Ok(c) => c,
        Err(e) => return Err(Error::Image(e)),
    };
    hide_in_carrier(&mut carrier, data, seed)?;
    match encode_png(&carrier) {
        Ok(v) => Ok(v),
        Err(e) => Err(Error::Image(e)),
    }
}

/// Recovers `len` bytes hidden in the image that `file` holds.
pub fn extract_data(file: &[u8], len: usize, seed: u64) -> (r: Result<Vec<u8>, Error>)
    ensures
        decoded_rgba(file@) is None ==> r matches Err(Error::Image(_)),
        decoded_rgba(file@) matches Some((w, h, px)) ==> {
            &&& needed_bits(len) > available_bits(w, h) ==> r == Err::<Vec<u8>, Error>(
                capacity_error(w, h, len),
            )
            &&& needed_bits(len) <= available_bits(w, h) ==> r is Ok && r->Ok_0@ == recovered(
                px,
                w,
                h,
                len,
                seed,
            )
        },
{
    let carrier = match decode_rgba(file) {
        Ok(c) => c,
        Err(e) => return Err(Error::Image(e)),
    };
    extract_from_carrier(&carrier, len, seed)
}

} // verus!
