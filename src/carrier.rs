//! The image a payload is hidden in, and the writing and reading of its bits.
use vstd::prelude::*;

verus! {

/// One place for a bit: the channel `channel` (0 red, 1 green, 2 blue) of
/// the pixel at column `x` and row `y`.
#[derive(Debug, Clone, Copy, PartialEq, Eq)]
pub struct Slot {
    pub x: u32,
    pub y: u32,
    pub channel: u8,
}

/// An RGBA image: `pixels` holds four bytes per pixel (red, green, blue,
/// alpha), row after row.
#[derive(Debug, Clone, PartialEq, Eq)]
pub struct Carrier {
    pub width: u32,
    pub height: u32,
    pub pixels: Vec<u8>,
}

impl Carrier {
    /// The pixel bytes match the dimensions.
    pub open spec fn wf(&self) -> bool {
        self.pixels@.len() == 4 * ((self.width as int) * (self.height as int))
    }

    /// A carrier of the given size and bytes, if there are four bytes per pixel.
    pub fn new(width: u32, height: u32, pixels: Vec<u8>) -> (r: Option<Carrier>)
        ensures
            r is Some <==> pixels@.len() == 4 * ((width as int) * (height as int)),
            r matches Some(c) ==> c.width == width && c.height == height && c.pixels@
                == pixels@,
    {
        proof {
            lemma_area_fits(width, height);
        }
        let expected: u128 = 4 * ((width as u128) * (height as u128));
        if pixels.len() as u128 == expected {
            Some(Carrier { width, height, pixels })
        } else {
            None
        }
    }
}

/// The pixel area of any image fits comfortably in 128 bits.
proof fn lemma_area_fits(width: u32, height: u32)
    ensures
        (width as int) * (height as int) <= 0x1_0000_0000 * 0x1_0000_0000,
{
    assert((width as int) * (height as int) <= 0x1_0000_0000 * 0x1_0000_0000) by (nonlinear_arith)
        requires
            width <= 0xffff_ffff,
            height <= 0xffff_ffff,
    ;
}


/// Where the byte of `s` stands among the pixel bytes of an image `width` wide.
pub open spec fn slot_index(width: u32, s: Slot) -> int {
    4 * ((s.y as int) * (width as int) + (s.x as int)) + (s.channel as int)
}

/// `s` names a colour channel of a pixel inside a `width` by `height` image.
pub open spec fn slot_fits(width: u32, height: u32, s: Slot) -> bool {
    s.x < width && s.y < height && s.channel < 3
}

/// Every slot of `plan` fits the image.
pub open spec fn plan_fits(width: u32, height: u32, plan: Seq<Slot>) -> bool {
    forall|i: int| 0 <= i < plan.len() ==> slot_fits(width, height, #[trigger] plan[i])
}

/// No two slots of `plan` are the same.
pub open spec fn distinct_slots(plan: Seq<Slot>) -> bool {
    forall|i: int, j: int|
        0 <= i < plan.len() && 0 <= j < plan.len() && i != j ==> #[trigger] plan[i] != #[trigger] plan[j]
}

/// Some slot of `plan` lies on byte `k`.
pub open spec fn names_byte(width: u32, plan: Seq<Slot>, k: int) -> bool {
    exists|i: int| 0 <= i < plan.len() && slot_index(width, #[trigger] plan[i]) == k
}

/// The least significant bit of `v`.
pub open spec fn lsb(v: u8) -> bool {
    v & 1u8 == 1u8
}

/// `v` with its least significant bit set to `bit`.
pub open spec fn with_lsb(v: u8, bit: bool) -> u8 {
    (v & 0xfeu8) | (if bit { 1u8 } else { 0u8 })
}

/// The pixel bytes after the first `n` bits of `bits` were written, in order,
/// into the slots of `plan`.
pub open spec fn embedded(pixels: Seq<u8>, width: u32, plan: Seq<Slot>, bits: Seq<bool>, n: nat) -> Seq<u8>
    decreases n,
{
    if n == 0 {
        pixels
    } else {
        let prev = embedded(pixels, width, plan, bits, (n - 1) as nat);
        let k = slot_index(width, plan[n - 1]);
        if 0 <= k < prev.len() {
            prev.update(k, with_lsb(prev[k], bits[n - 1]))
        } else {
            prev
        }
    }
}

/// The bits read from the slots of `plan`, the first `n` of them.
pub open spec fn extracted(pixels: Seq<u8>, width: u32, plan: Seq<Slot>, n: nat) -> Seq<bool> {
    Seq::new(n, |i: int| lsb(pixels[slot_index(width, plan[i])]))
}

/// A slot that fits a `width` by `height` image lies inside its pixel bytes,
/// on one of the first three bytes of a pixel.
pub proof fn lemma_slot_in_bounds(width: u32, height: u32, s: Slot)
    requires
        slot_fits(width, height, s),
    ensures
        0 <= slot_index(width, s) < 4 * ((width as int) * (height as int)),
        (s.y as int) * (width as int) + (s.x as int) < (width as int) * (height as int),
        slot_index(width, s) % 4 == s.channel,
        slot_index(width, s) / 4 == (s.y as int) * (width as int) + (s.x as int),
{
    let w = width as int;
    let h = height as int;
    let x = s.x as int;
    let y = s.y as int;
    assert(0 <= y * w + x < w * h) by (nonlinear_arith)
        requires
            0 <= x < w,
            0 <= y < h,
    ;
    vstd::arithmetic::div_mod::lemma_fundamental_div_mod_converse(
        slot_index(width, s),
        4,
        y * w + x,
        s.channel as int,
    );
}

/// Two slots in different pixels, or in different channels, lie on different bytes.
proof fn lemma_slot_index_injective(width: u32, height: u32, a: Slot, b: Slot)
    requires
        slot_fits(width, height, a),
        slot_fits(width, height, b),
        a != b,
    ensures
        slot_index(width, a) != slot_index(width, b),
{
    lemma_slot_in_bounds(width, height, a);
    lemma_slot_in_bounds(width, height, b);
    if slot_index(width, a) == slot_index(width, b) {
        let w = width as int;
        vstd::arithmetic::div_mod::lemma_fundamental_div_mod_converse(
            (a.y as int) * w + (a.x as int),
            w,
            a.y as int,
            a.x as int,
        );
        vstd::arithmetic::div_mod::lemma_fundamental_div_mod_converse(
            (b.y as int) * w + (b.x as int),
            w,
            b.y as int,
            b.x as int,
        );
    }
}

/// Writing a bit stream keeps the length of the pixel bytes.
pub proof fn lemma_embedded_len(pixels: Seq<u8>, width: u32, plan: Seq<Slot>, bits: Seq<bool>, n: nat)
    ensures
        embedded(pixels, width, plan, bits, n).len() == pixels.len(),
    decreases n,
{
    if n > 0 {
        lemma_embedded_len(pixels, width, plan, bits, (n - 1) as nat);
    }
}

/// Embedding changes only the least significant bit of the bytes the plan
/// names, and leaves every other byte as it was.
pub proof fn lemma_embedded_frame(
    pixels: Seq<u8>,
    width: u32,
    plan: Seq<Slot>,
    bits: Seq<bool>,
    n: nat,
    k: int,
)
    requires
        0 <= k < pixels.len(),
        n <= plan.len(),
    ensures
        embedded(pixels, width, plan, bits, n)[k] & 0xfeu8 == pixels[k] & 0xfeu8,
        !names_byte(width, plan.take(n as int), k) ==> embedded(
            pixels,
            width,
            plan,
            bits,
            n,
        )[k] == pixels[k],
    decreases n,
{
    if n > 0 {
        lemma_embedded_frame(pixels, width, plan, bits, (n - 1) as nat, k);
        if !names_byte(width, plan.take(n as int), k) {
            assert(plan.take(n as int)[n - 1] == plan[n - 1]);
            assert forall|i: int| 0 <= i < n - 1 implies slot_index(width, #[trigger] plan.take(n - 1)[i]) != k by {
                assert(plan.take(n - 1)[i] == plan.take(n as int)[i]);
            }
        }
        lemma_embedded_len(pixels, width, plan, bits, (n - 1) as nat);
        let prev = embedded(pixels, width, plan, bits, (n - 1) as nat);
        let v = prev[k];
        let b = bits[n - 1];
        assert(with_lsb(v, b) & 0xfeu8 == v & 0xfeu8) by (bit_vector)
            requires
                with_lsb(v, b) == (v & 0xfeu8) | (if b { 1u8 } else { 0u8 }),
        ;
    }
}

/// Where the first `n` slots of a plan are pairwise distinct, the bit
/// written at slot `i` is the one read back there.
pub proof fn lemma_embedded_reads_back(
    pixels: Seq<u8>,
    width: u32,
    height: u32,
    plan: Seq<Slot>,
    bits: Seq<bool>,
    n: nat,
    i: int,
)
    requires
        pixels.len() == 4 * ((width as int) * (height as int)),
        n <= plan.len(),
        plan_fits(width, height, plan),
        distinct_slots(plan.take(n as int)),
        0 <= i < n,
    ensures
        lsb(embedded(pixels, width, plan, bits, n)[slot_index(width, plan[i])]) == bits[i],
    decreases n,
{
    lemma_embedded_len(pixels, width, plan, bits, (n - 1) as nat);
    lemma_slot_in_bounds(width, height, plan[i]);
    let prev = embedded(pixels, width, plan, bits, (n - 1) as nat);
    if i == n - 1 {
        let v = prev[slot_index(width, plan[i])];
        let b = bits[i];
        assert(lsb(with_lsb(v, b)) == b) by (bit_vector)
            requires
                with_lsb(v, b) == (v & 0xfeu8) | (if b { 1u8 } else { 0u8 }),
                lsb(with_lsb(v, b)) == (with_lsb(v, b) & 1u8 == 1u8),
        ;
    } else {
        assert(plan.take(n - 1) =~= plan.take(n as int).take(n - 1));
        assert(plan.take(n as int)[i] == plan[i]);
        assert(plan.take(n as int)[n - 1] == plan[n - 1]);
        lemma_embedded_reads_back(pixels, width, height, plan, bits, (n - 1) as nat, i);
        lemma_slot_index_injective(width, height, plan[i], plan[n - 1]);
    }
}

/// Reading back, along a plan whose slots fit the image and are pairwise
/// distinct, what was written along it gives the bits that were written.
pub proof fn lemma_embed_extract(
    pixels: Seq<u8>,
    width: u32,
    height: u32,
    plan: Seq<Slot>,
    bits: Seq<bool>,
)
    requires
        pixels.len() == 4 * ((width as int) * (height as int)),
        plan_fits(width, height, plan),
        distinct_slots(plan),
        plan.len() <= bits.len(),
    ensures
        extracted(embedded(pixels, width, plan, bits, plan.len()), width, plan, plan.len())
            == bits.take(plan.len() as int),
{
    assert(plan.take(plan.len() as int) =~= plan);
    let got = extracted(embedded(pixels, width, plan, bits, plan.len()), width, plan, plan.len());
    assert forall|i: int| 0 <= i < plan.len() implies got[i] == bits[i] by {
        lemma_embedded_reads_back(pixels, width, height, plan, bits, plan.len(), i);
    }
    assert(got =~= bits.take(plan.len() as int));
}

/// Writes `bits[i]` into the least significant bit of the byte of `plan[i]`,
/// for every slot of the plan in turn.
pub fn embed(carrier: &mut Carrier, plan: &Vec<Slot>, bits: &Vec<bool>)
    requires
        old(carrier).wf(),
        plan@.len() <= bits@.len(),
        plan_fits(old(carrier).width, old(carrier).height, plan@),
    ensures
        final(carrier).width == old(carrier).width,
        final(carrier).height == old(carrier).height,
        final(carrier).pixels@ == embedded(
            old(carrier).pixels@,
            old(carrier).width,
            plan@,
            bits@,
            plan@.len(),
        ),
{
    let mut i: usize = 0;
    while i < plan.len()
        invariant
            i <= plan@.len(),
            plan@.len() <= bits@.len(),
            carrier.width == old(carrier).width,
            carrier.height == old(carrier).height,
            plan_fits(carrier.width, carrier.height, plan@),
            carrier.pixels@ == embedded(old(carrier).pixels@, carrier.width, plan@, bits@, i as nat),
            carrier.pixels@.len() == old(carrier).pixels@.len(),
            old(carrier).wf(),
        decreases plan@.len() - i,
    {
        let s = plan[i];
        let k = byte_position(carrier, s);
        let v = carrier.pixels[k];
        let nv = (v & 0xfeu8) | (if bits[i] { 1u8 } else { 0u8 });
        carrier.pixels.set(k, nv);
        i = i + 1;
        assert(carrier.pixels@ =~= embedded(old(carrier).pixels@, carrier.width, plan@, bits@, i as nat));
    }
}

/// The position of the byte of `s` among the pixel bytes.
fn byte_position(carrier: &Carrier, s: Slot) -> (k: usize)
    requires
        carrier.wf(),
        slot_fits(carrier.width, carrier.height, s),
    ensures
        k == slot_index(carrier.width, s),
        k < carrier.pixels@.len(),
{
    proof {
        lemma_slot_in_bounds(carrier.width, carrier.height, s);
    }
    let _len = carrier.pixels.len();
    let row = (s.y as usize) * (carrier.width as usize);
    4 * (row + s.x as usize) + s.channel as usize
}

/// Reads the least significant bit of the byte of each of the first `count`
/// slots of `plan`.
pub fn extract(carrier: &Carrier, plan: &Vec<Slot>, count: usize) -> (r: Vec<bool>)
    requires
        carrier.wf(),
        count <= plan@.len(),
        plan_fits(carrier.width, carrier.height, plan@),
    ensures
        r@ == extracted(carrier.pixels@, carrier.width, plan@, count as nat),
{
    let mut r: Vec<bool> = Vec::new();
    let mut i: usize = 0;
    while i < count
        invariant
            i <= count,
            count <= plan@.len(),
            carrier.wf(),
            plan_fits(carrier.width, carrier.height, plan@),
            r@ == extracted(carrier.pixels@, carrier.width, plan@, i as nat),
        decreases count - i,
    {
        let k = byte_position(carrier, plan[i]);
        r.push(carrier.pixels[k] & 1u8 == 1u8);
        i = i + 1;
        assert(r@ =~= extracted(carrier.pixels@, carrier.width, plan@, i as nat));
    }
    r
}

} // verus!
