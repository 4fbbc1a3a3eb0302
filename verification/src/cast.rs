use vstd::arithmetic::power2::lemma_pow2_pos;
use vstd::arithmetic::power2::lemma_pow2_strictly_increases;
use vstd::arithmetic::power2::lemma_pow2_unfold;
use vstd::arithmetic::power2::pow2;
use vstd::prelude::*;

verus! {

/// Bit pattern of positive infinity in IEEE 754 single precision. Every positive
/// finite number has a smaller pattern, every NaN of positive sign a larger one.
pub const INFINITY_BITS: u32 = 0x7F80_0000;

/// Whether `bits`, read as an IEEE 754 single-precision number, is a usable hit
/// distance: greater than zero and finite. Zero, negative numbers, infinities and
/// NaN are not.
pub open spec fn accepts(bits: u32) -> bool {
    0 < bits < INFINITY_BITS
}

/// The exponent field of a single-precision bit pattern of positive sign.
pub open spec fn exponent_field(bits: u32) -> nat {
    (bits / 0x80_0000) as nat
}

/// The fraction field of a single-precision bit pattern.
pub open spec fn fraction_field(bits: u32) -> nat {
    (bits % 0x80_0000) as nat
}

/// The number that a finite single-precision bit pattern of positive sign stands
/// for, as a multiple of the smallest positive number of the format: the fraction
/// alone for a subnormal number, else the fraction with its leading one, doubled
/// once for every step of the exponent above one.
pub open spec fn magnitude(bits: u32) -> nat {
    if exponent_field(bits) == 0 {
        fraction_field(bits)
    } else {
        (0x80_0000 + fraction_field(bits)) * pow2((exponent_field(bits) - 1) as nat)
    }
}

/// The distance an object reports, if it is usable.
pub open spec fn candidate(hit: Option<u32>) -> Option<u32> {
    match hit {
        Some(bits) => if accepts(bits) {
            Some(bits)
        } else {
            None
        },
        None => None,
    }
}

/// Whether object `i` is the one a ray reaches first: it reports a usable distance,
/// no object reports a smaller one, and every object before it reports a larger
/// one. Among usable distances the order of bit patterns is the order of the
/// numbers.
pub open spec fn is_nearest(hits: Seq<Option<u32>>, i: int) -> bool {
    &&& 0 <= i < hits.len()
    &&& candidate(hits[i]) is Some
    &&& forall|j: int|
        0 <= j < hits.len() && candidate(hits[j]) is Some ==> candidate(hits[i])->0 <= (
        #[trigger] candidate(hits[j]))->0
    &&& forall|j: int|
        0 <= j < i && candidate(hits[j]) is Some ==> candidate(hits[i])->0 < (
        #[trigger] candidate(hits[j]))->0
}

/// Whether no object reports a usable distance.
pub open spec fn misses_all(hits: Seq<Option<u32>>) -> bool {
    forall|j: int| 0 <= j < hits.len() ==> (#[trigger] candidate(hits[j])) is None
}

/// The nearest surface found so far: the position of its object in the scene and
/// the bit pattern of its distance.
#[derive(Clone, Copy, Debug, PartialEq, Eq, Structural)]
pub struct Nearest {
    pub index: usize,
    pub key: u32,
}

/// What a ray does next.
#[derive(Clone, Copy, Debug, PartialEq, Eq, Structural)]
pub enum CastStep {
    /// The ray carries no light: its budget is spent or it leaves the scene.
    Background,
    /// The ray is shaded by the object at this position in the scene.
    Shade(usize),
}

/// The usable distance for a reported one: `bits` itself if it is a positive finite
/// number, nothing otherwise.
pub fn distance_key(bits: u32) -> (key: Option<u32>)
    ensures
        key == candidate(Some(bits)),
{
    if 0 < bits && bits < INFINITY_BITS {
        Some(bits)
    } else {
        None
    }
}

/// The state of a nearest-surface search after one more object has reported.
pub open spec fn offered(best: Option<Nearest>, index: usize, hit: Option<u32>) -> Option<
    Nearest,
> {
    match candidate(hit) {
        Some(key) => if best is None || key < best->0.key {
            Some(Nearest { index, key })
        } else {
            best
        },
        None => best,
    }
}

/// Takes the report of object `index` into a running nearest-surface search. The
/// object replaces the best so far only if its distance is usable and strictly
/// smaller, so of two equally distant objects the earlier one stays.
pub fn offer(best: Option<Nearest>, index: usize, hit: Option<u32>) -> (next: Option<Nearest>)
    ensures
        next == offered(best, index, hit),
{
    match hit {
        Some(bits) => match distance_key(bits) {
            Some(key) => match best {
                Some(b) => if key < b.key {
                    Some(Nearest { index, key })
                } else {
                    best
                },
                None => Some(Nearest { index, key }),
            },
            None => best,
        },
        None => best,
    }
}

/// Finds the object a ray reaches first among the reports of all objects, in scene
/// order, or nothing if no report is usable.
pub fn nearest(hits: &Vec<Option<u32>>) -> (found: Option<Nearest>)
    ensures
        match found {
            Some(n) => is_nearest(hits@, n.index as int) && Some(n.key) == candidate(
                hits@[n.index as int],
            ),
            None => misses_all(hits@),
        },
{
    let mut best: Option<Nearest> = None;
    let mut i: usize = 0;
    while i < hits.len()
        invariant
            i <= hits.len(),
            match best {
                Some(n) => is_nearest(hits@.take(i as int), n.index as int) && Some(n.key)
                    == candidate(hits@[n.index as int]),
                None => misses_all(hits@.take(i as int)),
            },
        decreases hits.len() - i,
    {
        let ghost before = hits@.take(i as int);
        let ghost after = hits@.take(i + 1);
        proof {
            assert forall|j: int| 0 <= j < i implies after[j] == before[j] by {}
            assert(after[i as int] == hits@[i as int]);
        }
        best = offer(best, i, hits[i]);
        i += 1;
    }
    proof {
        assert(hits@.take(i as int) == hits@);
    }
    best
}

/// Decides what a ray does next, given what every object of the scene reports for
/// it and the number of bounces it has left.
///
/// A ray without bounces left carries no light, whatever the scene holds. Otherwise
/// it is shaded by the nearest object, and carries no light if there is none.
pub fn cast_ray(hits: &Vec<Option<u32>>, bounces_remaining: u8) -> (step: CastStep)
    ensures
        bounces_remaining == 0 ==> step == CastStep::Background,
        hits@.len() == 0 ==> step == CastStep::Background,
        match step {
            CastStep::Shade(i) => bounces_remaining > 0 && is_nearest(hits@, i as int),
            CastStep::Background => bounces_remaining == 0 || misses_all(hits@),
        },
{
    if bounces_remaining == 0 {
        return CastStep::Background;
    }
    match nearest(hits) {
        Some(n) => CastStep::Shade(n.index),
        None => CastStep::Background,
    }
}

/// At most one object is the nearest, and none is where every object is missed:
/// the contracts of `nearest` and `cast_ray` leave no choice.
pub proof fn lemma_nearest_is_unique(hits: Seq<Option<u32>>, i: int, j: int)
    requires
        is_nearest(hits, i),
    ensures
        is_nearest(hits, j) ==> i == j,
        !misses_all(hits),
{
    if is_nearest(hits, j) {
        if i < j {
            assert(candidate(hits[i]) is Some);
        } else if j < i {
            assert(candidate(hits[j]) is Some);
        }
    }
    assert(candidate(hits[i]) is Some);
}

/// The usable distances are the bit patterns of the positive finite numbers: the
/// sign bit is clear, the exponent field is not all ones, and the number is not
/// zero.
pub proof fn lemma_usable_is_positive_finite(bits: u32)
    ensures
        accepts(bits) <==> (bits < 0x8000_0000 && exponent_field(bits) < 255 && magnitude(bits) > 0),
{
    if bits < 0x8000_0000 && exponent_field(bits) < 255 {
        if exponent_field(bits) != 0 {
            lemma_pow2_pos((exponent_field(bits) - 1) as nat);
            lemma_product_grows(
                0,
                0x80_0000 + fraction_field(bits) as int,
                1,
                pow2((exponent_field(bits) - 1) as nat) as int,
            );
        }
    }
}

/// Among usable distances the smaller bit pattern is the smaller number, so the
/// object that `nearest` finds is the one whose surface the ray reaches first.
pub proof fn lemma_keys_order_as_numbers(a: u32, b: u32)
    requires
        accepts(a),
        accepts(b),
    ensures
        a < b <==> magnitude(a) < magnitude(b),
        magnitude(a) > 0,
{
    assert(magnitude(a) > 0) by {
        if exponent_field(a) != 0 {
            lemma_pow2_pos((exponent_field(a) - 1) as nat);
            lemma_product_grows(
                0,
                0x80_0000 + fraction_field(a) as int,
                1,
                pow2((exponent_field(a) - 1) as nat) as int,
            );
        }
    }
    if a < b {
        lemma_smaller_key_smaller_number(a, b);
    } else if b < a {
        lemma_smaller_key_smaller_number(b, a);
    }
}

proof fn lemma_smaller_key_smaller_number(a: u32, b: u32)
    requires
        a < b < INFINITY_BITS,
    ensures
        magnitude(a) < magnitude(b),
{
    let ea = exponent_field(a);
    let eb = exponent_field(b);
    let ma = fraction_field(a) as int;
    let mb = fraction_field(b) as int;
    assert(a == ea * 0x80_0000 + ma && b == eb * 0x80_0000 + mb);
    assert(ea <= eb);
    assert(eb >= 1 ==> pow2((eb - 1) as nat) >= 1) by {
        lemma_pow2_pos((eb - 1) as nat);
    }
    if ea == eb {
        if ea != 0 {
            let p = pow2((ea - 1) as nat) as int;
            lemma_pow2_pos((ea - 1) as nat);
            lemma_product_grows(0x80_0000 + ma, 0x80_0000 + mb, p, p);
        }
    } else if ea == 0 {
        lemma_product_grows(0x80_0000, 0x80_0000 + mb, 1, pow2((eb - 1) as nat) as int);
    } else {
        let pa = pow2((ea - 1) as nat) as int;
        let pb = pow2((eb - 1) as nat) as int;
        lemma_pow2_pos((ea - 1) as nat);
        lemma_pow2_unfold(ea);
        assert(pow2(ea) == 2 * pa);
        if ea < eb - 1 {
            lemma_pow2_strictly_increases(ea, (eb - 1) as nat);
        }
        assert(2 * pa <= pb);
        lemma_product_grows(0x80_0000 + ma, 0x100_0000 - 1, pa, pa);
        assert((0x100_0000 - 1) * pa < 0x80_0000 * (2 * pa)) by (nonlinear_arith)
            requires
                pa >= 1,
        ;
        lemma_product_grows(0x80_0000, 0x80_0000 + mb, 2 * pa, pb);
    }
}

proof fn lemma_product_grows(a: int, b: int, p: int, q: int)
    requires
        0 <= a <= b,
        0 <= p <= q,
    ensures
        a * p <= b * q,
        a < b && 0 < p ==> a * p < b * q,
{
    assert(a * p <= b * q) by (nonlinear_arith)
        requires
            0 <= a <= b,
            0 <= p <= q,
    ;
    if a < b && 0 < p {
        assert(a * p < b * q) by (nonlinear_arith)
            requires
                0 <= a < b,
                0 < p <= q,
        ;
    }
}

} // verus!
