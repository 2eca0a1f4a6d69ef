//! The seeded order in which pixels are visited, and the channel chosen in each.
use crate::carrier::{distinct_slots, plan_fits, slot_fits, Slot};
use rand::seq::SliceRandom;
use rand::Rng;
use rand::SeedableRng;
use rand_chacha::ChaCha12Rng;
use vstd::prelude::*;

verus! {

broadcast use vstd::seq_lib::group_seq_properties;

/// The order that a generator seeded with `seed` gives to `items`.
pub uninterp spec fn shuffled(items: Seq<(u32, u32)>, seed: u64) -> Seq<(u32, u32)>;

/// The number in `0..3` that a generator seeded with `seed` draws first.
pub uninterp spec fn drawn_channel(seed: u64) -> u8;

/// Relies on `ChaCha12Rng::seed_from_u64` of rand_chacha, a generator whose
/// output is reproducible from its seed, and on rand's `SliceRandom::shuffle`,
/// which only swaps items: the result is a reordering that depends on the
/// items and the seed alone.
#[verifier::external_body]
fn shuffle_seeded(items: &mut Vec<(u32, u32)>, seed: u64)
    ensures
        final(items)@ == shuffled(old(items)@, seed),
        final(items)@.to_multiset() == old(items)@.to_multiset(),
{
    let mut rng = ChaCha12Rng::seed_from_u64(seed);
    items.shuffle(&mut rng);
}

/// Relies on `ChaCha12Rng::seed_from_u64` of rand_chacha and rand's
/// `Rng::gen_range`: a number drawn from `0..3` by a reproducible generator
/// seeded from `seed` alone.
#[verifier::external_body]
fn draw_channel(seed: u64) -> (r: u8)
    ensures
        r == drawn_channel(seed),
        r < 3,
{
    let mut rng = ChaCha12Rng::seed_from_u64(seed);
    rng.gen_range(0..3u8)
}

/// All pixel coordinates of a `width` by `height` image, column by column:
/// entry `i` is the pixel at column `i / height` and row `i % height`.
pub open spec fn grid(width: u32, height: u32) -> Seq<(u32, u32)> {
    grid_prefix(height, (width as int) * (height as int))
}

/// The first `n` entries of the column-by-column order of a grid `height` tall.
pub open spec fn grid_prefix(height: u32, n: int) -> Seq<(u32, u32)> {
    Seq::new(n as nat, |i: int| ((i / (height as int)) as u32, (i % (height as int)) as u32))
}

/// The order in which `generate` visits the pixels.
pub open spec fn visit_order(width: u32, height: u32, seed: u64) -> Seq<(u32, u32)> {
    shuffled(grid(width, height), seed)
}

/// `order` holds every pixel of a `width` by `height` image exactly once.
pub open spec fn is_pixel_permutation(width: u32, height: u32, order: Seq<(u32, u32)>) -> bool {
    &&& order.len() == (width as int) * (height as int)
    &&& order.no_duplicates()
    &&& forall|i: int| 0 <= i < order.len() ==> (#[trigger] order[i]).0 < width && order[i].1 < height
    &&& forall|x: u32, y: u32| x < width && y < height ==> #[trigger] order.contains((x, y))
}

/// The seed from which the channel of the pixel at `(x, y)` is drawn.
pub open spec fn channel_seed(x: u32, y: u32, seed: u64) -> u64 {
    seed ^ (((x as u64) << 32u64) | (y as u64))
}

/// The channel that carries the bit stored in the pixel at `(x, y)`.
pub open spec fn channel_of(x: u32, y: u32, seed: u64) -> u8 {
    drawn_channel(channel_seed(x, y, seed))
}

/// The channel used for a pixel on the `round`-th pass over the visit order:
/// the first pass takes the drawn channel, later passes the ones after it.
pub open spec fn channel_in_round(x: u32, y: u32, seed: u64, round: int) -> u8 {
    ((channel_of(x, y, seed) as int + round) % 3) as u8
}

/// The first `count` slots (all of them where the image has fewer): the
/// visit order is walked up to three times, slot `i` lying in pixel
/// `i % (width * height)` of the order, on the channel of pass
/// `i / (width * height)`.
pub open spec fn planned(width: u32, height: u32, count: nat, seed: u64) -> Seq<Slot> {
    let order = visit_order(width, height, seed);
    let area = (width as int) * (height as int);
    let n = if count <= 3 * area { count as int } else { 3 * area };
    Seq::new(
        n as nat,
        |i: int|
            Slot {
                x: order[i % area].0,
                y: order[i % area].1,
                channel: channel_in_round(order[i % area].0, order[i % area].1, seed, i / area),
            },
    )
}

/// Where the visit order holds every pixel once, the plan's slots fit the
/// image and are pairwise distinct.
proof fn lemma_planned_valid(width: u32, height: u32, count: nat, seed: u64)
    requires
        is_pixel_permutation(width, height, visit_order(width, height, seed)),
    ensures
        plan_fits(width, height, planned(width, height, count, seed)),
        distinct_slots(planned(width, height, count, seed)),
{
    let order = visit_order(width, height, seed);
    let plan = planned(width, height, count, seed);
    let area = (width as int) * (height as int);
    assert forall|i: int| 0 <= i < plan.len() implies slot_fits(width, height, #[trigger] plan[i]) by {
        lemma_round_of(area, i);
        assert(order[i % area].0 < width && order[i % area].1 < height);
    }
    assert forall|i: int, j: int|
        0 <= i < plan.len() && 0 <= j < plan.len() && i != j implies #[trigger] plan[i]
        != #[trigger] plan[j] by {
        lemma_round_of(area, i);
        lemma_round_of(area, j);
        if i % area != j % area {
            assert(order[i % area] != order[j % area]);
        } else {
            assert(i / area != j / area);
            let c = channel_of(order[i % area].0, order[i % area].1, seed) as int;
            assert((c + i / area) % 3 != (c + j / area) % 3);
        }
    }
}

/// A slot number below three times the area splits into a pass below three
/// and a place in the order.
proof fn lemma_round_of(area: int, i: int)
    requires
        0 <= i < 3 * area,
    ensures
        area > 0,
        0 <= i % area < area,
        0 <= i / area < 3,
        i == (i / area) * area + i % area,
{
    vstd::arithmetic::div_mod::lemma_fundamental_div_mod(i, area);
    assert(0 <= i / area < 3) by (nonlinear_arith)
        requires
            0 <= i < 3 * area,
            area > 0,
            i == area * (i / area) + i % area,
            0 <= i % area < area,
    ;
    assert((i / area) * area == area * (i / area)) by (nonlinear_arith);
}

proof fn lemma_grid_entry(width: u32, height: u32, i: int)
    requires
        0 <= i < (width as int) * (height as int),
    ensures
        height > 0,
        0 <= i / (height as int) < width,
        0 <= i % (height as int) < height,
        i == (i / (height as int)) * (height as int) + i % (height as int),
        grid(width, height)[i].0 as int == i / (height as int),
        grid(width, height)[i].1 as int == i % (height as int),
{
    let h = height as int;
    let w = width as int;
    if h == 0 {
        assert(w * h == 0) by (nonlinear_arith)
            requires
                h == 0,
        ;
    }
    vstd::arithmetic::div_mod::lemma_fundamental_div_mod(i, h);
    assert(0 <= i / h < w) by (nonlinear_arith)
        requires
            0 <= i < w * h,
            h > 0,
            i == h * (i / h) + i % h,
            0 <= i % h < h,
    ;
}

/// The column-by-column grid holds every pixel exactly once.
proof fn lemma_grid_is_permutation(width: u32, height: u32)
    ensures
        is_pixel_permutation(width, height, grid(width, height)),
{
    let g = grid(width, height);
    let h = height as int;
    assert forall|i: int| 0 <= i < g.len() implies (#[trigger] g[i]).0 < width && g[i].1
        < height by {
        lemma_grid_entry(width, height, i);
    }
    assert forall|i: int, j: int| 0 <= i < g.len() && 0 <= j < g.len() && i != j implies g[i]
        != g[j] by {
        lemma_grid_entry(width, height, i);
        lemma_grid_entry(width, height, j);
    }
    assert forall|x: u32, y: u32| x < width && y < height implies #[trigger] g.contains((x, y)) by {
        let i = (x as int) * h + (y as int);
        assert(0 <= i < (width as int) * h) by (nonlinear_arith)
            requires
                i == (x as int) * h + (y as int),
                0 <= x < width,
                0 <= y < h,
        ;
        vstd::arithmetic::div_mod::lemma_fundamental_div_mod_converse(i, h, x as int, y as int);
        assert(g[i] == (x, y));
    }
}

/// A reordering of a permutation of the pixels is a permutation of the pixels.
proof fn lemma_reorder_keeps_permutation(
    width: u32,
    height: u32,
    a: Seq<(u32, u32)>,
    b: Seq<(u32, u32)>,
)
    requires
        is_pixel_permutation(width, height, a),
        b.to_multiset() == a.to_multiset(),
    ensures
        is_pixel_permutation(width, height, b),
{
    broadcast use vstd::multiset::group_multiset_axioms;

    a.to_multiset_ensures();
    b.to_multiset_ensures();
    a.lemma_multiset_has_no_duplicates();
    b.lemma_multiset_has_no_duplicates_conv();
    assert forall|i: int| 0 <= i < b.len() implies (#[trigger] b[i]).0 < width && b[i].1
        < height by {
        assert(b.contains(b[i]));
        assert(b.to_multiset().count(b[i]) > 0);
        assert(a.to_multiset().count(b[i]) > 0);
        assert(a.contains(b[i]));
    }
    assert forall|x: u32, y: u32| x < width && y < height implies #[trigger] b.contains((x, y)) by {
        assert(a.contains((x, y)));
        assert(a.to_multiset().count((x, y)) > 0);
        assert(b.to_multiset().count((x, y)) > 0);
    }
}

/// Every pixel coordinate of a `width` by `height` image, each exactly once,
/// in an order that depends on the dimensions and `seed` alone.
pub fn generate(width: u32, height: u32, seed: u64) -> (r: Vec<(u32, u32)>)
    requires
        (width as int) * (height as int) <= usize::MAX,
    ensures
        r@ == visit_order(width, height, seed),
        is_pixel_permutation(width, height, r@),
{
    let mut positions: Vec<(u32, u32)> = Vec::new();
    let mut x: u32 = 0;
    while x < width
        invariant
            x <= width,
            (width as int) * (height as int) <= usize::MAX,
            positions@ == grid_prefix(height, (x as int) * (height as int)),
        decreases width - x,
    {
        let mut y: u32 = 0;
        while y < height
            invariant
                x < width,
                y <= height,
                (width as int) * (height as int) <= usize::MAX,
                positions@ == grid_prefix(height, (x as int) * (height as int) + (y as int)),
            decreases height - y,
        {
            proof {
                let i = (x as int) * (height as int) + (y as int);
                vstd::arithmetic::div_mod::lemma_fundamental_div_mod_converse(
                    i,
                    height as int,
                    x as int,
                    y as int,
                );
                assert((x as int) * (height as int) + (y as int) < (width as int) * (height as int))
                    by (nonlinear_arith)
                    requires
                        x < width,
                        y < height,
                ;
            }
            positions.push((x, y));
            y = y + 1;
            assert(positions@ =~= grid_prefix(height, (x as int) * (height as int) + (y as int)));
        }
        assert((x as int) * (height as int) + (height as int) == ((x + 1) as int) * (height as int))
            by (nonlinear_arith);
        x = x + 1;
    }
    proof {
        lemma_grid_is_permutation(width, height);
    }
    let ghost before = positions@;
    shuffle_seeded(&mut positions, seed);
    proof {
        lemma_reorder_keeps_permutation(width, height, before, positions@);
    }
    positions
}

/// The channel (0 red, 1 green, 2 blue) that carries the bit stored in the
/// pixel at `(x, y)`; it depends on the coordinate and the seed alone.
pub fn select_channel(x: u32, y: u32, seed: u64) -> (r: u8)
    ensures
        r == channel_of(x, y, seed),
        r < 3,
{
    let mixed: u64 = seed ^ (((x as u64) << 32u64) | (y as u64));
    draw_channel(mixed)
}

/// The slots for `count` bits: the pixels along the visit order, each on its
/// drawn channel; where the order runs out, it is walked again on the next
/// channel of each pixel, at most three times (all slots where the image has
/// fewer than `count`).
pub fn build_plan(width: u32, height: u32, count: usize, seed: u64) -> (r: Vec<Slot>)
    requires
        4 * ((width as int) * (height as int)) <= usize::MAX,
    ensures
        r@ == planned(width, height, count as nat, seed),
        r@.len() == if count <= 3 * ((width as int) * (height as int)) {
            count as int
        } else {
            3 * ((width as int) * (height as int))
        },
        plan_fits(width, height, r@),
        distinct_slots(r@),
{
    let order = generate(width, height, seed);
    let area = order.len();
    let n: usize = if count / 3 <= area && count <= 3 * area { count } else { 3 * area };
    let mut plan: Vec<Slot> = Vec::new();
    let mut i: usize = 0;
    let mut place: usize = 0;
    let mut round: u8 = 0;
    while i < n
        invariant
            area == (width as int) * (height as int),
            order@.len() == area,
            4 * area <= usize::MAX,
            n == (if count <= 3 * area { count as int } else { 3 * area }),
            i <= n,
            i == (round as int) * area + place,
            i < n ==> place < area && round < 3,
            order@ == visit_order(width, height, seed),
            plan@ == planned(width, height, count as nat, seed).take(i as int),
        decreases n - i,
    {
        proof {
            vstd::arithmetic::div_mod::lemma_fundamental_div_mod_converse(
                i as int,
                area as int,
                round as int,
                place as int,
            );
        }
        let (x, y) = order[place];
        let first = select_channel(x, y, seed);
        let channel = ((first as u16 + round as u16) % 3) as u8;
        plan.push(Slot { x, y, channel });
        i = i + 1;
        place = place + 1;
        if place == area {
            place = 0;
            round = round + 1;
            proof {
                assert((round as int) * area == ((round - 1) as int) * area + area) by (nonlinear_arith);
                if i < n {
                    assert((round as int) * area < 3 * area);
                    assert(round < 3) by (nonlinear_arith)
                        requires
                            (round as int) * area < 3 * area,
                            area > 0,
                    ;
                }
            }
        }
        assert(plan@ =~= planned(width, height, count as nat, seed).take(i as int));
    }
    assert(plan@ =~= planned(width, height, count as nat, seed));
    proof {
        lemma_planned_valid(width, height, count as nat, seed);
    }
    plan
}

} // verus!
