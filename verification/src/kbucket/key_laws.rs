//! What holds of all keys, of the distances between them, and of the buckets that
//! cover these distances.

use vstd::arithmetic::div_mod::{
    lemma_div_denominator, lemma_fundamental_div_mod_converse, lemma_hoist_over_denominator,
    lemma_mod_multiples_vanish,
};
use vstd::arithmetic::power2::{
    lemma2_to64, lemma_pow2_adds, lemma_pow2_pos, lemma_pow2_strictly_increases,
    lemma_pow2_unfold, pow2,
};
use vstd::bits::lemma_u128_shr_is_div;
use vstd::prelude::*;

use crate::kbucket::closest::{
    first_bucket, has_no_bit, is_top_bit, visit_order, way_out, zoom_in, zoom_out, BucketIndex,
};
use crate::kbucket::key::{xor_distance, Distance, KeyBytes, NUM_BUCKETS};

verus! {

/// Whether the binary digit of weight `2^i` of a number is one.
pub open spec fn digit(number: nat, i: nat) -> bool {
    (number / pow2(i)) % 2 == 1
}

/// A key as a number.
pub open spec fn key_number(key: KeyBytes) -> nat {
    (key.hi * 0x1_0000_0000_0000_0000_0000_0000_0000_0000int + key.lo) as nat
}

proof fn pow2_128()
    ensures
        pow2(128) == 0x1_0000_0000_0000_0000_0000_0000_0000_0000int,
{
    lemma2_to64();
    lemma_pow2_adds(64, 64);
    assert(0x1_0000_0000_0000_0000int * 0x1_0000_0000_0000_0000int
        == 0x1_0000_0000_0000_0000_0000_0000_0000_0000int) by (nonlinear_arith);
}

proof fn half_digit(x: u128, i: u128)
    requires
        i < 128,
    ensures
        ((x >> i) & 1 == 1) == digit(x as nat, i as nat),
{
    lemma_u128_shr_is_div(x, i);
    let y = x >> i;
    assert(y & 1 == y % 2) by (bit_vector);
}

proof fn digit_of_halves(hi: u128, lo: u128, i: nat)
    requires
        i < 256,
    ensures
        digit((hi * 0x1_0000_0000_0000_0000_0000_0000_0000_0000int + lo) as nat, i) == if i < 128 {
            digit(lo as nat, i)
        } else {
            digit(hi as nat, (i - 128) as nat)
        },
{
    let v = (hi * 0x1_0000_0000_0000_0000_0000_0000_0000_0000int + lo) as nat;
    pow2_128();
    if i < 128 {
        let p = pow2(i);
        let q = pow2((127 - i) as nat);
        lemma_pow2_pos(i);
        lemma_pow2_adds(i, (128 - i) as nat);
        lemma_pow2_unfold((128 - i) as nat);
        assert(hi * (p * (2 * q)) == (2 * (hi * q)) * p) by (nonlinear_arith);
        lemma_hoist_over_denominator(lo as int, 2 * (hi * q), p);
        lemma_mod_multiples_vanish(hi * q, lo as int / p as int, 2);
    } else {
        let p = pow2((i - 128) as nat);
        lemma_pow2_pos((i - 128) as nat);
        lemma_pow2_adds(128, (i - 128) as nat);
        lemma_div_denominator(v as int, pow2(128) as int, p as int);
        lemma_fundamental_div_mod_converse(v as int, pow2(128) as int, hi as int, lo as int);
    }
}

/// The digits of a distance are the binary digits of its number.
pub proof fn digits_are_those_of_the_number(d: Distance, i: nat)
    requires
        i < NUM_BUCKETS,
    ensures
        d.bit(i as int) <==> (d.value() / pow2(i)) % 2 == 1,
{
    digit_of_halves(d.hi, d.lo, i);
    if i < 128 {
        half_digit(d.lo, i as u128);
    } else {
        half_digit(d.hi, (i - 128) as u128);
    }
}

/// The binary digits of the distance between two keys are ones where the digits of
/// the keys differ.
pub proof fn distance_has_differing_digits(a: KeyBytes, b: KeyBytes, i: nat)
    requires
        i < NUM_BUCKETS,
    ensures
        digit(xor_distance(a, b).value(), i) <==> digit(key_number(a), i) != digit(
            key_number(b),
            i,
        ),
{
    let d = xor_distance(a, b);
    digit_of_halves(a.hi, a.lo, i);
    digit_of_halves(b.hi, b.lo, i);
    digit_of_halves(d.hi, d.lo, i);
    if i < 128 {
        let s = i as u128;
        let (x, y) = (a.lo, b.lo);
        half_digit(x, s);
        half_digit(y, s);
        half_digit(x ^ y, s);
        assert((((x ^ y) >> s) & 1 == 1) == (((x >> s) & 1 == 1) != ((y >> s) & 1 == 1)))
            by (bit_vector);
    } else {
        let s = (i - 128) as u128;
        let (x, y) = (a.hi, b.hi);
        half_digit(x, s);
        half_digit(y, s);
        half_digit(x ^ y, s);
        assert((((x ^ y) >> s) & 1 == 1) == (((x >> s) & 1 == 1) != ((y >> s) & 1 == 1)))
            by (bit_vector);
    }
}

/// The distance between two keys is zero if and only if they are equal, and no way
/// over a third key is shorter than the direct one.
pub proof fn distance_is_a_metric(a: KeyBytes, b: KeyBytes, c: KeyBytes)
    ensures
        xor_distance(a, b).value() == 0 <==> a == b,
        xor_distance(a, b).value() == xor_distance(b, a).value(),
        xor_distance(a, c).value() <= xor_distance(a, b).value() + xor_distance(b, c).value(),
{
    let (ah, al, bh, bl, ch, cl) = (a.hi, a.lo, b.hi, b.lo, c.hi, c.lo);
    assert((ah ^ bh == 0) == (ah == bh)) by (bit_vector);
    assert((al ^ bl == 0) == (al == bl)) by (bit_vector);
    assert(ah ^ bh == bh ^ ah && al ^ bl == bl ^ al) by (bit_vector);
    assert(ah ^ ch <= (ah ^ bh) + (bh ^ ch)) by (bit_vector);
    assert(al ^ cl <= (al ^ bl) + (bl ^ cl)) by (bit_vector);
}

/// Whether the bucket of the given index covers a distance: whether the distance lies
/// in `[2^i, 2^(i+1))`.
pub open spec fn covers(idx: BucketIndex, d: Distance) -> bool {
    pow2(idx.0 as nat) <= d.value() < pow2((idx.0 + 1) as nat)
}

/// A distance below `2^i` has no digit from `i` on.
proof fn no_digit_above(v: nat, i: nat, j: nat)
    requires
        v < pow2(i),
        i <= j,
    ensures
        !digit(v, j),
{
    if i < j {
        lemma_pow2_strictly_increases(i, j);
    }
    lemma_pow2_pos(j);
    vstd::arithmetic::div_mod::lemma_basic_div(v as int, pow2(j) as int);
}

/// A number without digits from `i` on, below `2^n`, lies below `2^i`.
proof fn below_without_digits(v: nat, i: nat, n: nat)
    requires
        v < pow2(n),
        i <= n,
        forall|j: nat| i <= j < n ==> !#[trigger] digit(v, j),
    ensures
        v < pow2(i),
    decreases n - i,
{
    if i < n {
        let m = (n - 1) as nat;
        lemma_pow2_unfold(n);
        lemma_pow2_pos(m);
        if v >= pow2(m) {
            lemma_fundamental_div_mod_converse(
                v as int,
                pow2(m) as int,
                1,
                (v - pow2(m)) as int,
            );
            assert(digit(v, m));
        }
        below_without_digits(v, i, m);
    }
}

proof fn distance_is_bounded(d: Distance)
    ensures
        d.value() < pow2(256),
{
    pow2_128();
    lemma_pow2_adds(128, 128);
    let k: int = 0x1_0000_0000_0000_0000_0000_0000_0000_0000int;
    assert(d.hi * k + d.lo < k * k) by (nonlinear_arith)
        requires
            d.hi <= k - 1,
            d.lo < k,
            k > 0,
    ;
}

/// The index of the highest digit of a distance is that of the bucket that covers it.
pub proof fn bucket_of_highest_digit(d: Distance, i: int)
    requires
        0 <= i < NUM_BUCKETS,
    ensures
        is_top_bit(d, i) <==> covers(BucketIndex(i as usize), d),
{
    let v = d.value();
    let n = i as nat;
    distance_is_bounded(d);
    lemma_pow2_unfold(n + 1);
    lemma_pow2_pos(n);
    digits_are_those_of_the_number(d, n);
    if is_top_bit(d, i) {
        assert forall|j: nat| n + 1 <= j < 256 implies !#[trigger] digit(v, j) by {
            digits_are_those_of_the_number(d, j);
            assert(!d.bit(j as int));
        }
        below_without_digits(v, n + 1, 256);
        if v < pow2(n) {
            no_digit_above(v, n, n);
        }
    }
    if covers(BucketIndex(i as usize), d) {
        lemma_fundamental_div_mod_converse(v as int, pow2(n) as int, 1, (v - pow2(n)) as int);
        assert forall|j: int| i < j < NUM_BUCKETS implies !#[trigger] d.bit(j) by {
            digits_are_those_of_the_number(d, j as nat);
            no_digit_above(v, n + 1, j as nat);
        }
    }
}

/// The distance zero, and no other, has no digit and no bucket.
pub proof fn zero_has_no_bucket(d: Distance)
    ensures
        has_no_bit(d) <==> d.value() == 0,
{
    distance_is_bounded(d);
    lemma2_to64();
    if has_no_bit(d) {
        assert forall|j: nat| 0 <= j < 256 implies !#[trigger] digit(d.value(), j) by {
            digits_are_those_of_the_number(d, j);
            assert(!d.bit(j as int));
        }
        below_without_digits(d.value(), 0, 256);
    }
    if d.value() == 0 {
        assert forall|j: int| 0 <= j < NUM_BUCKETS implies !#[trigger] d.bit(j) by {
            digits_are_those_of_the_number(d, j as nat);
            no_digit_above(0, 0, j as nat);
        }
    }
}

/// Whether the bucket `a` is to be visited before the bucket `b` for a target at the
/// distance `d` of the local key.
spec fn is_before(d: Distance, a: int, b: int) -> bool {
    if d.bit(a) {
        !d.bit(b) || a > b
    } else {
        !d.bit(b) && a < b
    }
}

proof fn zoom_in_order(d: Distance, i: int)
    requires
        0 <= i <= NUM_BUCKETS,
    ensures
        forall|k: int|
            0 <= k < zoom_in(d, i).len() ==> (#[trigger] zoom_in(d, i)[k]).0 < i && d.bit(
                zoom_in(d, i)[k].0 as int,
            ),
        forall|k: int, l: int|
            0 <= k < l < zoom_in(d, i).len() ==> (#[trigger] zoom_in(d, i)[k]).0 > (
            #[trigger] zoom_in(d, i)[l]).0,
    decreases i,
{
    if i > 0 {
        zoom_in_order(d, i - 1);
        let rest = zoom_in(d, i - 1);
        if d.bit(i - 1) {
            let all = zoom_in(d, i);
            assert forall|k: int| 0 <= k < all.len() implies (#[trigger] all[k]).0 < i && d.bit(
                all[k].0 as int,
            ) by {
                if k > 0 {
                    assert(all[k] == rest[k - 1]);
                }
            }
            assert forall|k: int, l: int| 0 <= k < l < all.len() implies (#[trigger] all[k]).0 > (
            #[trigger] all[l]).0 by {
                assert(all[l] == rest[l - 1]);
                if k > 0 {
                    assert(all[k] == rest[k - 1]);
                }
            }
        }
    }
}

proof fn zoom_out_order(d: Distance, i: int)
    requires
        0 <= i <= NUM_BUCKETS,
    ensures
        forall|k: int|
            0 <= k < zoom_out(d, i).len() ==> i <= (#[trigger] zoom_out(d, i)[k]).0 < NUM_BUCKETS
                && !d.bit(zoom_out(d, i)[k].0 as int),
        forall|k: int, l: int|
            0 <= k < l < zoom_out(d, i).len() ==> (#[trigger] zoom_out(d, i)[k]).0 < (
            #[trigger] zoom_out(d, i)[l]).0,
    decreases NUM_BUCKETS - i,
{
    if i < NUM_BUCKETS {
        zoom_out_order(d, i + 1);
        let rest = zoom_out(d, i + 1);
        if !d.bit(i) {
            let all = zoom_out(d, i);
            assert forall|k: int| 0 <= k < all.len() implies i <= (#[trigger] all[k]).0
                < NUM_BUCKETS && !d.bit(all[k].0 as int) by {
                if k > 0 {
                    assert(all[k] == rest[k - 1]);
                }
            }
            assert forall|k: int, l: int| 0 <= k < l < all.len() implies (#[trigger] all[k]).0 < (
            #[trigger] all[l]).0 by {
                assert(all[l] == rest[l - 1]);
                if k > 0 {
                    assert(all[k] == rest[k - 1]);
                }
            }
        }
    }
}

proof fn first_bucket_is_top(d: Distance)
    ensures
        0 <= first_bucket(d) < NUM_BUCKETS,
        !has_no_bit(d) ==> is_top_bit(d, first_bucket(d)),
{
    if !has_no_bit(d) {
        top_digit_exists(d, NUM_BUCKETS as int);
    }
}

proof fn top_digit_exists(d: Distance, n: int)
    requires
        0 <= n <= NUM_BUCKETS,
        forall|j: int| n <= j < NUM_BUCKETS ==> !#[trigger] d.bit(j),
        !has_no_bit(d),
    ensures
        exists|i: int| is_top_bit(d, i),
    decreases n,
{
    if n > 0 {
        if d.bit(n - 1) {
            assert(is_top_bit(d, n - 1));
        } else {
            top_digit_exists(d, n - 1);
        }
    }
}

proof fn visits_in_order(d: Distance, i: int, j: int)
    requires
        0 <= i < j < visit_order(d).len(),
    ensures
        visit_order(d)[i].0 < NUM_BUCKETS,
        visit_order(d)[j].0 < NUM_BUCKETS,
        is_before(d, visit_order(d)[i].0 as int, visit_order(d)[j].0 as int),
{
    let first = first_bucket(d);
    first_bucket_is_top(d);
    zoom_in_order(d, first);
    zoom_out_order(d, way_out(d));
    let order = visit_order(d);
    let inner = zoom_in(d, first);
    let outer = zoom_out(d, way_out(d));
    if 0 < i <= inner.len() {
        assert(order[i] == inner[i - 1]);
    } else if i > inner.len() {
        assert(order[i] == outer[i - 1 - inner.len()]);
    }
    if j <= inner.len() {
        assert(order[j] == inner[j - 1]);
    } else {
        assert(order[j] == outer[j - 1 - inner.len()]);
    }
}

/// The halves of a distance that a bucket covers.
proof fn covered_halves(idx: BucketIndex, d: Distance)
    requires
        idx.0 < NUM_BUCKETS,
        covers(idx, d),
    ensures
        idx.0 < 128 ==> d.hi == 0 && d.lo >> (idx.0 as u128) == 1,
        idx.0 >= 128 ==> d.hi >> ((idx.0 - 128) as u128) == 1,
{
    pow2_128();
    let n = idx.0 as nat;
    lemma_pow2_unfold(n + 1);
    lemma_pow2_pos(n);
    if n < 128 {
        if n + 1 < 128 {
            lemma_pow2_strictly_increases(n + 1, 128);
        }
        assert(d.hi == 0);
        lemma_u128_shr_is_div(d.lo, idx.0 as u128);
        lemma_fundamental_div_mod_converse(
            d.lo as int,
            pow2(n) as int,
            1,
            (d.lo - pow2(n)) as int,
        );
    } else {
        let m = (n - 128) as nat;
        let v = d.value() as int;
        lemma_pow2_adds(128, m);
        lemma_pow2_pos(m);
        lemma_u128_shr_is_div(d.hi, m as u128);
        lemma_div_denominator(v, pow2(128) as int, pow2(m) as int);
        lemma_fundamental_div_mod_converse(v, pow2(128) as int, d.hi as int, d.lo as int);
        lemma_fundamental_div_mod_converse(v, pow2(n) as int, 1, v - pow2(n));
    }
}

proof fn closer_half(d: u128, x: u128, y: u128, a: u128, b: u128)
    by (bit_vector)
    requires
        a < 128,
        b < 128,
        x >> a == 1,
        y >> b == 1,
        (d >> a) & 1 == 1 ==> ((d >> b) & 1 != 1 || a > b),
        (d >> a) & 1 != 1 ==> ((d >> b) & 1 != 1 && a < b),
    ensures
        d ^ x < d ^ y,
{
}

proof fn nearer_half(d: u128, x: u128, a: u128)
    by (bit_vector)
    requires
        a < 128,
        x >> a == 1,
    ensures
        (d >> a) & 1 == 1 ==> d ^ x < d,
        (d >> a) & 1 != 1 ==> d ^ x > d,
{
}

/// Each node of a bucket that is visited earlier is closer to the target than each
/// node of a bucket that is visited later.
pub proof fn earlier_buckets_are_closer(
    local: KeyBytes,
    target: KeyBytes,
    near: KeyBytes,
    far: KeyBytes,
    i: int,
    j: int,
)
    requires
        0 <= i < j < visit_order(xor_distance(local, target)).len(),
        covers(visit_order(xor_distance(local, target))[i], xor_distance(local, near)),
        covers(visit_order(xor_distance(local, target))[j], xor_distance(local, far)),
    ensures
        xor_distance(target, near).value() < xor_distance(target, far).value(),
{
    let d = xor_distance(local, target);
    let x = xor_distance(local, near);
    let y = xor_distance(local, far);
    let a = visit_order(d)[i];
    let b = visit_order(d)[j];
    visits_in_order(d, i, j);
    covered_halves(a, x);
    covered_halves(b, y);
    let (lh, ll, th, tl) = (local.hi, local.lo, target.hi, target.lo);
    let (nh, nl, fh, fl) = (near.hi, near.lo, far.hi, far.lo);
    assert(th ^ nh == (lh ^ th) ^ (lh ^ nh) && tl ^ nl == (ll ^ tl) ^ (ll ^ nl)) by (bit_vector);
    assert(th ^ fh == (lh ^ th) ^ (lh ^ fh) && tl ^ fl == (ll ^ tl) ^ (ll ^ fl)) by (bit_vector);
    let dh = d.hi;
    assert(dh ^ 0 == dh) by (bit_vector);
    if a.0 < 128 && b.0 < 128 {
        closer_half(d.lo, x.lo, y.lo, a.0 as u128, b.0 as u128);
    } else if a.0 >= 128 && b.0 >= 128 {
        closer_half(d.hi, x.hi, y.hi, (a.0 - 128) as u128, (b.0 - 128) as u128);
    } else if a.0 >= 128 {
        nearer_half(d.hi, x.hi, (a.0 - 128) as u128);
    } else {
        nearer_half(d.hi, y.hi, (b.0 - 128) as u128);
    }
}

/// The bucket of the target is visited first.
pub proof fn bucket_of_target_comes_first(d: Distance)
    requires
        d.value() > 0,
    ensures
        covers(visit_order(d)[0], d),
{
    zero_has_no_bucket(d);
    first_bucket_is_top(d);
    bucket_of_highest_digit(d, first_bucket(d));
}

} // verus!
