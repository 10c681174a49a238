//! Simplex member selection: the triangular distribution over complex
//! positions, computed exactly in integers, and the choice of distinct
//! sorted positions that form a simplex.
//!
//! A uniform draw `u` in [0, 1) with 52-bit resolution (`u = k / 2^52`) is
//! mapped to the position
//! `floor(M + 1/2 - sqrt((M + 1/2)^2 - M (M + 1) u))`,
//! which biases selection toward the better-ranked (lower) positions. With
//! `A = (2M+1)^2 2^52 - 4 M (M+1) k`, `C = (2M+1) 2^26` and `Q = 2^27`, the
//! position equals `floor((C - sqrt(A)) / Q)`, which the code below computes
//! with an integer square root and states without any square root.

use vstd::prelude::*;
use crate::rng::{SeedStream, chacha_stream, stream_pos};

verus! {

/// Two to the fifty-second power, the resolution of a uniform draw.
pub const DRAW_ONE: u64 = 0x10_0000_0000_0000;

/// The scaled discriminant `(2m+1)^2 2^52 - 4 m (m+1) k`.
pub open spec fn tri_inner(m: int, k: int) -> int {
    (2 * m + 1) * (2 * m + 1) * DRAW_ONE - 4 * m * (m + 1) * k
}

/// The scaled pivot `(2m+1) 2^26`.
pub open spec fn tri_c(m: int) -> int {
    (2 * m + 1) * 0x400_0000
}

/// `r` is `floor((tri_c(m) - sqrt(tri_inner(m, k))) / 2^27)`: the value `r`
/// lies in `[0, m)`, stepping one slot of `2^27` further down crosses below
/// `sqrt(tri_inner(m, k))`, and `r` slots do not.
pub open spec fn tri_index_ok(m: int, k: int, r: int) -> bool {
    let a = tri_inner(m, k);
    let c = tri_c(m);
    &&& 0 <= r < m
    &&& c - 0x800_0000 * r >= 0
    &&& (c - 0x800_0000 * r) * (c - 0x800_0000 * r) >= a
    &&& (c - 0x800_0000 * (r + 1) < 0 || (c - 0x800_0000 * (r + 1)) * (c - 0x800_0000 * (r + 1))
        < a)
}

/// The value `tri_index_ok` pins (it has exactly one solution).
pub open spec fn tri_pick(m_per: int, k: int) -> int {
    choose|r: int| tri_index_ok(m_per, k, r)
}

proof fn lemma_tri_index_not_above(m: int, k: int, r1: int, r2: int)
    requires
        tri_index_ok(m, k, r1),
        tri_index_ok(m, k, r2),
    ensures
        r2 <= r1,
{
    if r1 < r2 {
        let a = tri_inner(m, k);
        let c = tri_c(m);
        assert(0x800_0000 * (r1 + 1) <= 0x800_0000 * r2) by (nonlinear_arith)
            requires
                r1 + 1 <= r2,
        ;
        if c - 0x800_0000 * (r1 + 1) < 0 {
            assert(c - 0x800_0000 * r2 < 0);
            assert(false);
        } else {
            assert((c - 0x800_0000 * r2) * (c - 0x800_0000 * r2) <= (c - 0x800_0000 * (r1 + 1)) * (
            c - 0x800_0000 * (r1 + 1))) by (nonlinear_arith)
                requires
                    0 <= c - 0x800_0000 * r2 && c - 0x800_0000 * r2 <= c - 0x800_0000 * (r1 + 1),
            ;
            assert(false);
        }
    }
}

/// Two solutions of `tri_index_ok` coincide.
pub proof fn lemma_tri_index_unique(m: int, k: int, r1: int, r2: int)
    requires
        tri_index_ok(m, k, r1),
        tri_index_ok(m, k, r2),
    ensures
        r1 == r2,
{
    lemma_tri_index_not_above(m, k, r1, r2);
    lemma_tri_index_not_above(m, k, r2, r1);
}

/// A solution of `tri_index_ok` is the pinned value.
pub proof fn lemma_tri_pick_is(m: int, k: int, r: int)
    requires
        tri_index_ok(m, k, r),
    ensures
        tri_pick(m, k) == r,
{
    assert(exists|r2: int| tri_index_ok(m, k, r2));
    let rp = tri_pick(m, k);
    assert(tri_index_ok(m, k, rp));
    lemma_tri_index_unique(m, k, rp, r);
}

/// The integer square root of `a`: the greatest `r` with `r * r <= a`.
pub fn isqrt64(a: u64) -> (r: u64)
    requires
        a < 0x4000_0000_0000_0000,
    ensures
        r * r <= a,
        (r + 1) * (r + 1) > a,
        r <= 0x8000_0000,
{
    let mut lo: u64 = 0;
    let mut hi: u64 = 0x8000_0000;
    proof {
        assert(0x8000_0000u64 * 0x8000_0000u64 == 0x4000_0000_0000_0000) by (nonlinear_arith);
    }
    while lo + 1 < hi
        invariant
            lo < hi,
            hi <= 0x8000_0000,
            lo * lo <= a,
            hi * hi > a,
            a < 0x4000_0000_0000_0000,
        decreases hi - lo,
    {
        let mid = lo + (hi - lo) / 2;
        proof {
            assert(mid * mid <= 0x4000_0000_0000_0000) by (nonlinear_arith)
                requires
                    mid <= 0x8000_0000,
            ;
        }
        if mid * mid <= a {
            lo = mid;
        } else {
            hi = mid;
        }
    }
    lo
}

/// Maps a raw 64-bit draw to a complex position under the triangular
/// distribution: the top 52 bits of the draw form the uniform sample.
pub fn tri_index(m_per: usize, draw: u64) -> (r: usize)
    requires
        1 <= m_per <= 15,
    ensures
        r < m_per,
        tri_index_ok(m_per as int, (draw >> 12) as int, r as int),
        r as int == tri_pick(m_per as int, (draw >> 12) as int),
{
    let k: u64 = draw >> 12;
    proof {
        assert(draw >> 12 < 0x10_0000_0000_0000u64) by (bit_vector);
    }
    let m: u64 = m_per as u64;
    let twom1: u64 = 2 * m + 1;
    proof {
        assert(m * (m + 1) <= 240) by (nonlinear_arith)
            requires
                m <= 15,
        ;
    }
    let mm1: u64 = m * (m + 1);
    let bias: u64 = 4 * mm1;
    proof {
        assert(twom1 * twom1 == 4 * (m * (m + 1)) + 1) by (nonlinear_arith)
            requires
                twom1 == 2 * m + 1,
        ;
    }
    let sq: u64 = twom1 * twom1;
    proof {
        assert(sq * DRAW_ONE <= 961 * DRAW_ONE) by (nonlinear_arith)
            requires
                sq <= 961,
        ;
    }
    let square: u64 = sq * DRAW_ONE;
    proof {
        assert(bias * k <= bias * (DRAW_ONE - 1)) by (nonlinear_arith)
            requires
                k <= DRAW_ONE - 1,
        ;
        assert(bias * (DRAW_ONE - 1) == bias * DRAW_ONE - bias) by (nonlinear_arith);
        assert((bias + 1) * DRAW_ONE == bias * DRAW_ONE + DRAW_ONE) by (nonlinear_arith);
        assert(square == bias * DRAW_ONE + DRAW_ONE);
    }
    let biask: u64 = bias * k;
    let a: u64 = square - biask;
    proof {
        assert(a == tri_inner(m_per as int, k as int)) by {
            assert(square == (2 * m + 1) * (2 * m + 1) * DRAW_ONE) by (nonlinear_arith)
                requires
                    square == sq * DRAW_ONE && sq == twom1 * twom1 && twom1 == 2 * m + 1,
            ;
            assert(biask == 4 * m * (m + 1) * k) by (nonlinear_arith)
                requires
                    biask == bias * k && bias == 4 * mm1 && mm1 == m * (m + 1),
            ;
        }
        assert(a >= DRAW_ONE + bias);
    }
    let c: u64 = twom1 * 0x400_0000;
    proof {
        assert(c * c == square) by (nonlinear_arith)
            requires
                c == twom1 * 0x400_0000 && square == sq * DRAW_ONE && sq == twom1 * twom1
                    && DRAW_ONE == 0x10_0000_0000_0000,
        ;
        assert(a < 0x4000_0000_0000_0000) by {
            assert(square <= 961 * DRAW_ONE);
        }
    }
    let b = isqrt64(a);
    proof {
        assert(b <= c) by (nonlinear_arith)
            requires
                b * b <= a && a <= c * c && b >= 0 && c >= 0,
        ;
    }
    let q: u64 = 0x800_0000;
    let m0: u64 = (c - b) / q;
    proof {
        vstd::arithmetic::div_mod::lemma_fundamental_div_mod((c - b) as int, q as int);
        vstd::arithmetic::div_mod::lemma_mod_division_less_than_divisor((c - b) as int, q as int);
        assert(q * m0 <= c - b && c - b < q * (m0 + 1));
    }
    let cm: u64 = c - q * m0;
    proof {
        assert(cm * cm < 0x4000_0000_0000_0000) by (nonlinear_arith)
            requires
                cm <= 0x7C00_0000,
        ;
        assert(mm1 >= 2) by (nonlinear_arith)
            requires
                mm1 == m * (m + 1) && m >= 1,
        ;
    }
    if cm >= b && cm * cm >= a {
        proof {
            // The candidate fits; it is also below m: a slot at or past m
            // would sit at magnitude 2^26 or less, whose square is under a.
            if m0 >= m {
                assert(cm <= 0x400_0000) by (nonlinear_arith)
                    requires
                        cm == c - q * m0 && c == twom1 * 0x400_0000 && twom1 == 2 * m + 1 && q
                            == 0x800_0000 && m0 >= m,
                ;
                assert(cm * cm <= DRAW_ONE) by (nonlinear_arith)
                    requires
                        cm <= 0x400_0000,
                ;
                assert(false);
            }
            // Lower side: one more slot crosses below sqrt(a).
            if c >= q * (m0 + 1) {
                assert((c - q * (m0 + 1)) < b);
                assert((c - q * (m0 + 1)) * (c - q * (m0 + 1)) < b * b) by (nonlinear_arith)
                    requires
                        0 <= c - q * (m0 + 1) && c - q * (m0 + 1) < b,
                ;
            }
            assert(tri_index_ok(m_per as int, k as int, m0 as int));
            lemma_tri_pick_is(m_per as int, k as int, m0 as int);
        }
        m0 as usize
    } else {
        proof {
            assert(cm * cm < a || cm < b);
            if cm < b {
                assert(cm * cm < b * b) by (nonlinear_arith)
                    requires
                        0 <= cm < b,
                ;
            }
            assert(cm * cm < a);
            assert(m0 >= 1) by {
                if m0 == 0 {
                    assert(cm == c);
                    assert(c * c >= a);
                    assert(false);
                }
            }
            assert(m0 <= m) by {
                if m0 >= m + 1 {
                    assert(q * m0 >= q * (m + 1)) by (nonlinear_arith)
                        requires
                            m0 >= m + 1 && q > 0,
                    ;
                    assert(q * (m + 1) > c) by (nonlinear_arith)
                        requires
                            q == 0x800_0000 && c == twom1 * 0x400_0000 && twom1 == 2 * m + 1,
                    ;
                    assert(q * m0 <= c - b);
                    assert(false);
                }
            }
            // Upper side for m0 - 1: adding the slot back clears sqrt(a).
            assert(cm + q >= b + 1);
            assert((cm + q) * (cm + q) >= (b + 1) * (b + 1)) by (nonlinear_arith)
                requires
                    cm + q >= b + 1 && b >= 0,
            ;
            assert(c - q * (m0 - 1) == cm + q) by (nonlinear_arith)
                requires
                    cm == c - q * m0 && m0 >= 1,
            ;
            assert(tri_index_ok(m_per as int, k as int, m0 - 1));
            lemma_tri_pick_is(m_per as int, k as int, m0 - 1);
        }
        (m0 - 1) as usize
    }
}

/// The sequence is strictly increasing.
pub open spec fn strictly_inc(s: Seq<usize>) -> bool {
    forall|a: int, b: int| 0 <= a < b < s.len() ==> s[a] < s[b]
}

/// Whether `x` occurs in the vector.
fn contains_val(v: &Vec<usize>, x: usize) -> (r: bool)
    ensures
        r == v@.contains(x),
{
    let mut i: usize = 0;
    while i < v.len()
        invariant
            0 <= i <= v@.len(),
            forall|j: int| 0 <= j < i ==> v@[j] != x,
        decreases v@.len() - i,
    {
        if v[i] == x {
            return true;
        }
        i += 1;
    }
    proof {
        if v@.contains(x) {
            let j = choose|j: int| 0 <= j < v@.len() && v@[j] == x;
            assert(v@[j] != x);
        }
    }
    false
}

/// Inserts a value absent from a strictly increasing vector, keeping it
/// strictly increasing.
fn insert_sorted(v: &mut Vec<usize>, x: usize)
    requires
        strictly_inc(old(v)@),
        !old(v)@.contains(x),
    ensures
        strictly_inc(final(v)@),
        final(v)@.len() == old(v)@.len() + 1,
        forall|y: usize| final(v)@.contains(y) <==> (old(v)@.contains(y) || y == x),
{
    let mut p: usize = 0;
    while p < v.len() && v[p] < x
        invariant
            0 <= p <= v@.len(),
            forall|j: int| 0 <= j < p ==> v@[j] < x,
            *v == *old(v),
        decreases v@.len() - p,
    {
        p += 1;
    }
    proof {
        assert forall|j: int| p <= j < v@.len() implies v@[j] > x by {
            if j > p {
                assert(v@[p as int] < v@[j]);
            }
            if v@[j] == x {
                assert(v@.contains(x));
            }
        }
    }
    let ghost before = v@;
    v.insert(p, x);
    proof {
        assert forall|a: int, b: int| 0 <= a < b < v@.len() implies v@[a] < v@[b] by {
            if a < p && b < p {
            } else if a >= p + 1 && b >= p + 1 {
                assert(v@[a] == before[a - 1] && v@[b] == before[b - 1]);
            } else if b == p {
                assert(v@[a] == before[a] && before[a] < x);
            } else if a == p {
                assert(v@[b] == before[b - 1] && before[b - 1] > x);
            } else {
                assert(a < p && b > p);
                assert(v@[a] == before[a] && v@[b] == before[b - 1]);
                assert(before[a] < x);
                assert(before[b - 1] > x);
            }
        }
        assert forall|y: usize| v@.contains(y) <==> (before.contains(y) || y == x) by {
            if v@.contains(y) {
                let j = choose|j: int| 0 <= j < v@.len() && v@[j] == y;
                if j == p {
                } else if j < p {
                    assert(before[j] == y);
                } else {
                    assert(before[j - 1] == y);
                }
            }
            if before.contains(y) {
                let j = choose|j: int| 0 <= j < before.len() && before[j] == y;
                if j < p {
                    assert(v@[j] == y);
                } else {
                    assert(v@[j + 1] == y);
                }
            }
            if y == x {
                assert(v@[p as int] == y);
            }
        }
    }
}

/// In a strictly increasing sequence each entry is at least its position
/// above the first entry.
proof fn lemma_strict_gap(s: Seq<usize>, j: int)
    requires
        strictly_inc(s),
        0 <= j < s.len(),
    ensures
        s[j] >= s[0] + j,
    decreases j,
{
    if j > 0 {
        lemma_strict_gap(s, j - 1);
        assert(s[j - 1] < s[j]);
    }
}

/// Scanning up to `tries` stream words for a triangular pick outside
/// `chosen`: the pick (or -1 when every word collides) and how many words
/// were consumed.
pub open spec fn slot_scan(
    seed: u64,
    index: u64,
    m_per: int,
    chosen: Seq<usize>,
    tries: int,
) -> (int, int)
    decreases tries,
{
    if tries <= 0 {
        (-1, 0)
    } else {
        let cand = tri_pick(m_per, (chacha_stream(seed, index) >> 12) as int);
        if !chosen.contains(cand as usize) {
            (cand, 1)
        } else {
            let rest = slot_scan(seed, stream_pos(index, 1), m_per, chosen, tries - 1);
            (rest.0, rest.1 + 1)
        }
    }
}

/// The smallest position not yet chosen.
pub open spec fn smallest_missing(chosen: Seq<usize>) -> usize {
    choose|v: usize|
        !chosen.contains(v) && (forall|w: usize| w < v ==> #[trigger] chosen.contains(w))
}

/// A missing position below which every position is present is the
/// smallest missing one.
pub proof fn lemma_smallest_missing_is(chosen: Seq<usize>, v: usize)
    requires
        !chosen.contains(v),
        forall|w: usize| w < v ==> #[trigger] chosen.contains(w),
    ensures
        smallest_missing(chosen) == v,
{
    assert(exists|v2: usize|
        !chosen.contains(v2) && (forall|w: usize| w < v2 ==> #[trigger] chosen.contains(w)));
    let sm = smallest_missing(chosen);
    assert(!chosen.contains(sm) && (forall|w: usize| w < sm ==> #[trigger] chosen.contains(w)));
    if sm < v {
        assert(chosen.contains(sm));
    }
    if v < sm {
        assert(chosen.contains(v));
    }
}

proof fn lemma_push_contains(s: Seq<usize>, x: usize, v: usize)
    ensures
        s.push(x).contains(v) <==> (s.contains(v) || v == x),
{
    if s.push(x).contains(v) {
        let j = choose|j: int| 0 <= j < s.push(x).len() && s.push(x)[j] == v;
        if j < s.len() {
            assert(s[j] == v);
        }
    }
    if s.contains(v) {
        let j = choose|j: int| 0 <= j < s.len() && s[j] == v;
        assert(s.push(x)[j] == v);
    }
    if v == x {
        assert(s.push(x)[s.len() as int] == v);
    }
}

/// The positions chosen after `slots` further selections, and the stream
/// cursor afterward: each slot scans up to a thousand words for a fresh
/// triangular pick and falls back to the smallest unused position.
pub open spec fn picks(seed: u64, index: u64, m_per: int, acc: Seq<usize>, slots: int) -> (Seq<
    usize,
>, u64)
    decreases slots,
{
    if slots <= 0 {
        (acc, index)
    } else {
        let scan = slot_scan(seed, index, m_per, acc, 1000);
        let v: usize = if scan.0 < 0 {
            smallest_missing(acc)
        } else {
            scan.0 as usize
        };
        picks(seed, stream_pos(index, scan.1), m_per, acc.push(v), slots - 1)
    }
}

/// Chooses the positions of one simplex within a complex of `m_per`
/// members: position 0 (the complex's best) always takes part; each further
/// slot is drawn from the triangular distribution, redrawing up to a
/// thousand times on a collision, and falling back to the smallest unused
/// position so that the positions are always distinct. The result is sorted
/// ascending, so the last position carries the worst member of the simplex.
/// The chosen set and the final stream cursor are exactly those of
/// [`picks`], so the selection is a pure function of the seed and the
/// cursor.
pub fn select_simplex_indices(m_per: usize, n_simplex: usize, stream: &mut SeedStream) -> (r: Vec<
    usize,
>)
    requires
        2 <= n_simplex <= m_per,
        m_per <= 15,
    ensures
        r@.len() == n_simplex,
        strictly_inc(r@),
        r@[0] == 0,
        forall|i: int| 0 <= i < r@.len() ==> #[trigger] r@[i] < m_per,
        final(stream).seed == old(stream).seed,
        ({
            let p = picks(
                old(stream).seed,
                old(stream).index,
                m_per as int,
                seq![0usize],
                n_simplex - 1,
            );
            &&& final(stream).index == p.1
            &&& (forall|v: usize| r@.contains(v) <==> p.0.contains(v))
        }),
{
    let ghost seed0 = stream.seed;
    let ghost idx0 = stream.index;
    let mut chosen: Vec<usize> = Vec::new();
    chosen.push(0);
    let ghost mut acc: Seq<usize> = seq![0usize];
    proof {
        assert(chosen@[0] == 0usize);
        assert(acc =~= chosen@);
    }
    while chosen.len() < n_simplex
        invariant
            2 <= n_simplex <= m_per <= 15,
            1 <= chosen@.len() <= n_simplex,
            strictly_inc(chosen@),
            chosen@.contains(0usize),
            forall|i: int| 0 <= i < chosen@.len() ==> #[trigger] chosen@[i] < m_per,
            stream.seed == seed0,
            seed0 == old(stream).seed,
            idx0 == old(stream).index,
            acc.len() == chosen@.len(),
            forall|v: usize| chosen@.contains(v) <==> acc.contains(v),
            picks(seed0, idx0, m_per as int, seq![0usize], n_simplex - 1) == picks(
                seed0,
                stream.index,
                m_per as int,
                acc,
                n_simplex - chosen@.len(),
            ),
        decreases n_simplex - chosen@.len(),
    {
        let ghost slot_start = stream.index;
        let ghost rem = n_simplex - chosen@.len();
        let mut found = false;
        let mut pick: usize = 0;
        let mut tries: usize = 0;
        while tries < 1000 && !found
            invariant
                1 <= chosen@.len() <= n_simplex <= m_per <= 15,
                strictly_inc(chosen@),
                stream.seed == seed0,
                0 <= tries <= 1000,
                stream.index == stream_pos(slot_start, tries as int),
                forall|v: usize| chosen@.contains(v) <==> acc.contains(v),
                found ==> (pick < m_per && !chosen@.contains(pick)),
                found ==> slot_scan(seed0, slot_start, m_per as int, acc, 1000) == (
                pick as int,
                tries as int,
                ),
                !found ==> slot_scan(seed0, slot_start, m_per as int, acc, 1000) == ({
                    let rest = slot_scan(
                        seed0,
                        stream.index,
                        m_per as int,
                        acc,
                        1000 - tries as int,
                    );
                    (rest.0, rest.1 + tries as int)
                }),
            decreases 1000 - tries,
        {
            let ghost cur = stream.index;
            let draw = stream.next_word();
            proof {
                assert(stream.index == stream_pos(cur, 1));
            }
            let cand = tri_index(m_per, draw);
            let hit = contains_val(&chosen, cand);
            proof {
                let sc = slot_scan(seed0, cur, m_per as int, acc, 1000 - tries as int);
                assert(cand as int == tri_pick(
                    m_per as int,
                    (chacha_stream(seed0, cur) >> 12) as int,
                ));
                assert(acc.contains(cand) == chosen@.contains(cand));
                if !hit {
                    assert(sc == (cand as int, 1int));
                } else {
                    assert(sc == ({
                        let rest = slot_scan(
                            seed0,
                            stream_pos(cur, 1),
                            m_per as int,
                            acc,
                            1000 - tries as int - 1,
                        );
                        (rest.0, rest.1 + 1)
                    }));
                }
            }
            if !hit {
                pick = cand;
                found = true;
            }
            tries += 1;
        }
        if !found {
            // Deterministic fallback: the smallest position not yet chosen.
            // Scanning a strictly increasing list, the first slot whose
            // entry differs from its index is free.
            let mut i: usize = 0;
            while i < chosen.len() && chosen[i] == i
                invariant
                    0 <= i <= chosen@.len(),
                    strictly_inc(chosen@),
                    chosen@.len() <= m_per,
                    forall|j: int| 0 <= j < i ==> #[trigger] chosen@[j] == j,
                decreases chosen@.len() - i,
            {
                i += 1;
            }
            proof {
                assert(chosen@[0] == 0usize) by {
                    let j0 = choose|j: int| 0 <= j < chosen@.len() && chosen@[j] == 0usize;
                    if j0 > 0 {
                        assert(chosen@[0] < chosen@[j0]);
                    }
                }
                assert(!chosen@.contains(i)) by {
                    if chosen@.contains(i) {
                        let j = choose|j: int| 0 <= j < chosen@.len() && chosen@[j] == i;
                        if j < i {
                            assert(chosen@[j] == j);
                        } else {
                            assert(i < chosen@.len());
                            assert(chosen@[i as int] != i);
                            lemma_strict_gap(chosen@, j);
                            assert(chosen@[j] >= j);
                        }
                    }
                }
                assert(i < m_per) by {
                    if i == chosen@.len() {
                        assert(chosen@.len() < n_simplex);
                    }
                }
                // Every smaller position is present, so this is the
                // smallest missing one.
                assert forall|w: usize| w < i implies acc.contains(w) by {
                    assert(chosen@[w as int] == w);
                    assert(chosen@.contains(w));
                }
                assert(!acc.contains(i));
                lemma_smallest_missing_is(acc, i);
                // The scan consumed the whole thousand-word budget.
                assert(tries == 1000);
                assert(slot_scan(seed0, stream.index, m_per as int, acc, 0) == (-1int, 0int));
                assert(slot_scan(seed0, slot_start, m_per as int, acc, 1000) == (-1int, 1000int));
            }
            pick = i;
            found = true;
        }
        proof {
            assert(pick < m_per && !chosen@.contains(pick));
            let scan = slot_scan(seed0, slot_start, m_per as int, acc, 1000);
            assert(stream.index == stream_pos(slot_start, scan.1));
            assert(scan.0 < 0 ==> smallest_missing(acc) == pick);
            assert(scan.0 >= 0 ==> scan.0 as usize == pick);
            assert(rem >= 1);
            assert(picks(seed0, slot_start, m_per as int, acc, rem) == picks(
                seed0,
                stream_pos(slot_start, scan.1),
                m_per as int,
                acc.push(pick),
                rem - 1,
            ));
        }
        let ghost before = chosen@;
        let ghost pre_acc = acc;
        insert_sorted(&mut chosen, pick);
        proof {
            acc = pre_acc.push(pick);
            assert forall|v: usize| chosen@.contains(v) <==> acc.contains(v) by {
                lemma_push_contains(pre_acc, pick, v);
            }
            assert(picks(seed0, idx0, m_per as int, seq![0usize], n_simplex - 1) == picks(
                seed0,
                stream.index,
                m_per as int,
                acc,
                n_simplex - chosen@.len(),
            ));
            assert(chosen@.contains(0usize));
            assert forall|i: int| 0 <= i < chosen@.len() implies #[trigger] chosen@[i] < m_per by {
                assert(chosen@.contains(chosen@[i]));
                let y = chosen@[i];
                assert(before.contains(y) || y == pick);
                if before.contains(y) {
                    let j = choose|j: int| 0 <= j < before.len() && before[j] == y;
                    assert(before[j] < m_per);
                }
            }
        }
    }
    proof {
        // 0 is a member and the minimum, so it sits first.
        let j = choose|j: int| 0 <= j < chosen@.len() && chosen@[j] == 0usize;
        if j > 0 {
            assert(chosen@[0] < chosen@[j]);
        }
        assert(chosen@[0] == 0usize);
        // The loop consumed every slot, so the mirrored selection is spent.
        let p = picks(seed0, idx0, m_per as int, seq![0usize], n_simplex - 1);
        assert(p == picks(seed0, stream.index, m_per as int, acc, 0));
        assert(p.0 == acc && p.1 == stream.index);
    }
    chosen
}

} // verus!
