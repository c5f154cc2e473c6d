//! A xoshiro256++ pseudo-random generator seeded through splitmix64, and a partial
//! Fisher-Yates shuffle on top of it.
use vstd::prelude::*;

use std::ops::Range;

verus! {

broadcast use vstd::seq_lib::to_multiset_update, vstd::seq_lib::to_multiset_contains;

/// The splitmix64 increment.
pub const SPLITMIX_GAMMA: u64 = 0x9e3779b97f4a7c15;

/// Rotation of `x` left by `r` bits, for `0 < r < 64`.
pub open spec fn rotl(x: u64, r: u64) -> u64 {
    ((x << r) | (x >> (64 - r) as u64)) as u64
}

/// The splitmix64 output for the advanced seed `z`.
pub open spec fn splitmix_mix(z: u64) -> u64 {
    let z1 = (z ^ (z >> 30u64)).wrapping_mul(0xbf58476d1ce4e5b9);
    let z2 = (z1 ^ (z1 >> 27u64)).wrapping_mul(0x94d049bb133111eb);
    z2 ^ (z2 >> 31u64)
}

/// The splitmix64 seed after `k` steps from `seed`.
pub open spec fn splitmix_seed(seed: u64, k: nat) -> u64
    decreases k,
{
    if k == 0 {
        seed
    } else {
        splitmix_seed(seed, (k - 1) as nat).wrapping_add(SPLITMIX_GAMMA)
    }
}

/// The xoshiro256++ state that a seed expands to: four successive splitmix64 outputs.
pub open spec fn seeded_state(seed: u64) -> (u64, u64, u64, u64) {
    (
        splitmix_mix(splitmix_seed(seed, 1)),
        splitmix_mix(splitmix_seed(seed, 2)),
        splitmix_mix(splitmix_seed(seed, 3)),
        splitmix_mix(splitmix_seed(seed, 4)),
    )
}

/// The xoshiro256++ output of state `s`.
pub open spec fn xoshiro_output(s: (u64, u64, u64, u64)) -> u64 {
    rotl(s.0.wrapping_add(s.3), 23).wrapping_add(s.0)
}

/// The xoshiro256++ state after `s`.
pub open spec fn xoshiro_next(s: (u64, u64, u64, u64)) -> (u64, u64, u64, u64) {
    let t = (s.1 << 17u64) as u64;
    let s2 = s.2 ^ s.0;
    let s3 = s.3 ^ s.1;
    let s1 = s.1 ^ s2;
    let s0 = s.0 ^ s3;
    (s0, s1, s2 ^ t, rotl(s3, 45))
}

/// The byte that the generator in state `v` hands out next, and the state after it. Bytes come
/// from a buffered 64-bit output, lowest byte first; an empty buffer is refilled first.
pub open spec fn next_byte(v: ((u64, u64, u64, u64), u64, u8)) -> (u8, (
    (u64, u64, u64, u64),
    u64,
    u8,
)) {
    let (state, buffer, remaining) = if v.2 == 0 {
        (xoshiro_next(v.0), xoshiro_output(v.0), 8u8)
    } else {
        v
    };
    (buffer as u8, (state, buffer >> 8u64, (remaining - 1) as u8))
}

/// A xoshiro256++ generator that hands out its outputs byte by byte.
pub struct Rng {
    state: [u64; 4],
    buffer: u64,
    buffer_remaining: u8,
}

impl View for Rng {
    type V = ((u64, u64, u64, u64), u64, u8);

    closed spec fn view(&self) -> ((u64, u64, u64, u64), u64, u8) {
        (
            (self.state@[0], self.state@[1], self.state@[2], self.state@[3]),
            self.buffer,
            self.buffer_remaining,
        )
    }
}

fn rotate_left(x: u64, r: u64) -> (out: u64)
    requires
        0 < r < 64,
    ensures
        out == rotl(x, r),
{
    (x << r) | (x >> (64 - r))
}

fn splitmix_output(z: u64) -> (out: u64)
    ensures
        out == splitmix_mix(z),
{
    let z1 = (z ^ (z >> 30)).wrapping_mul(0xbf58476d1ce4e5b9);
    let z2 = (z1 ^ (z1 >> 27)).wrapping_mul(0x94d049bb133111eb);
    z2 ^ (z2 >> 31)
}

impl Rng {
    /// A generator whose state is the first four splitmix64 outputs from `seed`.
    pub fn from_seed(seed: u64) -> (r: Rng)
        ensures
            r@ == (seeded_state(seed), 0u64, 0u8),
    {
        let s1 = seed.wrapping_add(SPLITMIX_GAMMA);
        let s2 = s1.wrapping_add(SPLITMIX_GAMMA);
        let s3 = s2.wrapping_add(SPLITMIX_GAMMA);
        let s4 = s3.wrapping_add(SPLITMIX_GAMMA);
        proof {
            reveal_with_fuel(splitmix_seed, 5);
        }
        let r = Rng {
            state: [
                splitmix_output(s1),
                splitmix_output(s2),
                splitmix_output(s3),
                splitmix_output(s4),
            ],
            buffer: 0,
            buffer_remaining: 0,
        };
        r
    }

    /// The xoshiro256++ state.
    pub fn state(&self) -> (r: [u64; 4])
        ensures
            (r@[0], r@[1], r@[2], r@[3]) == self@.0,
    {
        self.state
    }

    /// A generator in the given xoshiro256++ state, with an empty byte buffer.
    pub fn from_state(state: [u64; 4]) -> (r: Rng)
        ensures
            r@ == ((state@[0], state@[1], state@[2], state@[3]), 0u64, 0u8),
    {
        Rng { state, buffer: 0, buffer_remaining: 0 }
    }

    /// The next 64-bit output; the state advances one step.
    fn u64(&mut self) -> (r: u64)
        ensures
            r == xoshiro_output(old(self)@.0),
            final(self)@ == (xoshiro_next(old(self)@.0), old(self)@.1, old(self)@.2),
    {
        let s0 = self.state[0];
        let s1 = self.state[1];
        let s2 = self.state[2];
        let s3 = self.state[3];
        let result = rotate_left(s0.wrapping_add(s3), 23).wrapping_add(s0);
        let t = s1 << 17;
        let n2 = s2 ^ s0;
        let n3 = s3 ^ s1;
        let n1 = s1 ^ n2;
        let n0 = s0 ^ n3;
        self.state = [n0, n1, n2 ^ t, rotate_left(n3, 45)];
        result
    }

    /// The next byte, taken from the buffered output, which is refilled when empty.
    pub fn u8(&mut self) -> (r: u8)
        ensures
            (r, final(self)@) == next_byte(old(self)@),
    {
        if self.buffer_remaining == 0 {
            self.buffer = self.u64();
            self.buffer_remaining = 8;
        }
        let r = self.buffer as u8;
        self.buffer = self.buffer >> 8;
        self.buffer_remaining = self.buffer_remaining.wrapping_sub(1);
        r
    }

    /// A number in `range` by multiply-and-shift on random bytes, as [`ranged_draw`] states.
    pub fn u8_in(&mut self, range: Range<u8>) -> (r: u8)
        requires
            range.start <= range.end,
        ensures
            (r, final(self)@) == ranged_draw(old(self)@, range.start, range.end),
            range.start < range.end ==> range.start <= r < range.end,
            range.start == range.end ==> r == range.start,
    {
        let ghost v0 = self@;
        let s = (range.end - range.start) as u16;
        let x0 = self.u8() as u16;
        let ghost v1 = self@;
        let mut x = x0;
        assert(x * s <= 255 * 255) by (nonlinear_arith)
            requires
                x <= 255,
                s <= 255,
        ;
        let mut m = x * s;
        let ghost m0 = m as nat;
        if m < s {
            let t = ((65536u32 - s as u32) % s as u32) as u16;
            let mut tries: u8 = 0;
            while m < t && tries < 64
                invariant
                    s == range.end - range.start,
                    s <= 255,
                    x <= 255,
                    m == x * s,
                    tries <= 64,
                    t == (65536 - s) % (s as int),
                    redraw(v1, s as nat, t as nat, m0, 0) == redraw(
                        self@,
                        s as nat,
                        t as nat,
                        m as nat,
                        tries as nat,
                    ),
                decreases 64 - tries,
            {
                x = self.u8() as u16;
                assert(x * s <= 255 * 255) by (nonlinear_arith)
                    requires
                        x <= 255,
                        s <= 255,
                ;
                m = x * s;
                tries = tries + 1;
            }
        }
        assert(m / 256 < s || s == 0) by (nonlinear_arith)
            requires
                m == x * s,
                x <= 255,
        ;
        assert(s == 0 ==> m == 0);
        range.start + (m / 256) as u8
    }
}

/// The redraws of [`ranged_draw`]: while the product `m` of a byte and the range size `s` is
/// below the threshold `t`, and fewer than 64 redraws were made, a fresh byte gives a new
/// product. The final product and generator state.
pub open spec fn redraw(
    v: ((u64, u64, u64, u64), u64, u8),
    s: nat,
    t: nat,
    m: nat,
    tries: nat,
) -> (nat, ((u64, u64, u64, u64), u64, u8))
    decreases 64 - tries,
{
    if m < t && tries < 64 {
        let (x, v2) = next_byte(v);
        redraw(v2, s, t, x as nat * s, tries + 1)
    } else {
        (m, v)
    }
}

/// The number in `start..end` that the generator in state `v` draws, and its state after.
/// With `s = end - start`, a byte `x` gives the product `m = x * s` and the result
/// `start + m / 256`. A product below `s` is rejected when it falls under the threshold
/// `2^16 mod s`, and bytes are drawn again, at most 64 times.
pub open spec fn ranged_draw(v: ((u64, u64, u64, u64), u64, u8), start: u8, end: u8) -> (
    u8,
    ((u64, u64, u64, u64), u64, u8),
) {
    let s = (end - start) as nat;
    let (x0, v1) = next_byte(v);
    let m0 = x0 as nat * s;
    if m0 < s {
        let t = ((65536 - s) % (s as int)) as nat;
        let (m, v2) = redraw(v1, s, t, m0, 0);
        ((start + m / 256) as u8, v2)
    } else {
        ((start + m0 / 256) as u8, v1)
    }
}

/// `s` with the elements at `i` and `j` exchanged.
pub open spec fn swapped<T>(s: Seq<T>, i: int, j: int) -> Seq<T> {
    s.update(i, s[j]).update(j, s[i])
}

/// The steps `j` to `k - 1` of a Fisher-Yates shuffle of `s` by the generator in state `v`: step
/// `j` exchanges the element at `j` with the one at an index drawn from `j..len`. The shuffled
/// sequence and the generator state after.
pub open spec fn shuffle_steps<T>(
    v: ((u64, u64, u64, u64), u64, u8),
    s: Seq<T>,
    j: nat,
    k: nat,
) -> (Seq<T>, ((u64, u64, u64, u64), u64, u8))
    decreases k - j,
{
    if j >= k {
        (s, v)
    } else {
        let (r, v2) = ranged_draw(v, j as u8, s.len() as u8);
        shuffle_steps(v2, swapped(s, j as int, r as int), j + 1, k)
    }
}

/// Moves `k` elements chosen at random to the front of `collection`, by the first `k` steps of
/// a Fisher-Yates shuffle; the elements are only rearranged, and `k == 0` changes nothing.
pub fn shuffle<T: Copy>(rng: &mut Rng, collection: &mut [T], k: usize)
    requires
        k < old(collection)@.len() <= 255,
    ensures
        (final(collection)@, final(rng)@) == shuffle_steps(
            old(rng)@,
            old(collection)@,
            0,
            k as nat,
        ),
        final(collection)@.len() == old(collection)@.len(),
        final(collection)@.to_multiset() == old(collection)@.to_multiset(),
        k == 0 ==> final(collection)@ == old(collection)@ && final(rng)@ == old(rng)@,
{
    let len = collection.len();
    let mut j: usize = 0;
    while j < k
        invariant
            j <= k < len <= 255,
            collection@.len() == len,
            collection@.to_multiset() == old(collection)@.to_multiset(),
            shuffle_steps(old(rng)@, old(collection)@, 0, k as nat) == shuffle_steps(
                rng@,
                collection@,
                j as nat,
                k as nat,
            ),
        decreases k - j,
    {
        let r = rng.u8_in((j as u8)..(len as u8)) as usize;
        assert(j <= r < len);
        let a = collection[j];
        let b = collection[r];
        let ghost before = collection@;
        collection[j] = b;
        collection[r] = a;
        proof {
            let mid = before.update(j as int, b);
            assert(collection@ =~= mid.update(r as int, a));
            assert(collection@ =~= swapped(before, j as int, r as int));
            assert(mid.to_multiset() =~= before.to_multiset().insert(b).remove(a));
            assert(collection@.to_multiset() =~= mid.to_multiset().insert(a).remove(b));
            assert(before[j as int] == a);
            assert(before.contains(a));
            assert(before.to_multiset().count(a) > 0);
            assert(collection@.to_multiset() =~= before.to_multiset());
        }
        j = j + 1;
    }
}

} // verus!
