//! Piecewise-linear palettes through four anchor colours.
use vstd::prelude::*;
use vstd::arithmetic::div_mod::*;
use crate::color::RGB;

verus! {

/// Why a palette could not be built.
#[derive(Debug, Clone, Copy, PartialEq, Eq, Structural)]
pub enum PaletteError {
    /// Fewer than four entries were asked for.
    InvalidPaletteSize,
}

/// Channel `p` moved `i` steps of `d` towards `q`, rounded down.
pub open spec fn lerp(p: u8, q: u8, i: int, d: int) -> int {
    p as int + ((q as int - p as int) * i) / d
}

/// Colour `i` of `d` evenly spaced steps from `p` towards `q`.
pub open spec fn mix(p: RGB, q: RGB, i: int, d: int) -> RGB {
    RGB {
        r: lerp(p.r, q.r, i, d) as u8,
        g: lerp(p.g, q.g, i, d) as u8,
        b: lerp(p.b, q.b, i, d) as u8,
    }
}

/// The segment from `p` towards `q` with `k` interpolated colours: `p` itself,
/// then the `k` colours in between, not `q`.
pub open spec fn segment(p: RGB, q: RGB, k: nat) -> Seq<RGB> {
    Seq::new(k + 1, |i: int| mix(p, q, i, (k + 1) as int))
}

/// Interpolated colours in each of the first two segments.
pub open spec fn base_count(n: nat) -> nat {
    ((n - 4) as nat) / 3
}

/// Interpolated colours in the last segment, which takes the remainder.
pub open spec fn last_count(n: nat) -> nat {
    base_count(n) + ((n - 4) as nat) % 3
}

/// The palette of `n` colours through the anchors `c1, c2, c3, c4`.
pub open spec fn linear_palette(c1: RGB, c2: RGB, c3: RGB, c4: RGB, n: nat) -> Seq<RGB> {
    segment(c1, c2, base_count(n)) + segment(c2, c3, base_count(n)) + segment(
        c3,
        c4,
        last_count(n),
    ) + seq![c4]
}

proof fn lemma_lerp_between(p: u8, q: u8, i: int, d: int)
    requires
        0 < d,
        0 <= i <= d,
    ensures
        p <= q ==> p <= lerp(p, q, i, d) <= q,
        q < p ==> q <= lerp(p, q, i, d) <= p,
        i == 0 ==> lerp(p, q, i, d) == p,
{
    let x = q as int - p as int;
    if x >= 0 {
        assert(0 <= x * i <= x * d) by (nonlinear_arith)
            requires
                x >= 0,
                0 <= i <= d,
        ;
        lemma_div_is_ordered(x * i, x * d, d);
        lemma_div_multiples_vanish(x, d);
        lemma_div_pos_is_pos(x * i, d);
    } else {
        let y = -x;
        assert(-(y * d) <= x * i <= 0) by (nonlinear_arith)
            requires
                x < 0,
                y == -x,
                0 <= i <= d,
        ;
        lemma_div_is_ordered(-(y * d), x * i, d);
        lemma_div_is_ordered(x * i, 0, d);
        assert(-(y * d) == (-y) * d) by (nonlinear_arith);
        lemma_div_multiples_vanish(-y, d);
    }
    if i == 0 {
        assert(x * i == 0) by (nonlinear_arith)
            requires
                i == 0,
        ;
    }
}

proof fn lemma_neg_div_floor(x: int, d: int)
    requires
        0 <= x,
        0 < d,
    ensures
        (-x) / d == -((x + d - 1) / d),
{
    let a = (x + d - 1) / d;
    let rem = (x + d - 1) % d;
    lemma_fundamental_div_mod(x + d - 1, d);
    assert(x + d - 1 == d * a + rem);
    lemma_mod_bound(x + d - 1, d);
    assert(d * a == a * d) by (nonlinear_arith);
    assert(-x == (-a) * d + (d - 1 - rem)) by (nonlinear_arith)
        requires
            x + d - 1 == d * a + rem,
            d * a == a * d,
    ;
    lemma_fundamental_div_mod_converse(-x, d, -a, d - 1 - rem);
}

/// One channel of `interpolate`.
fn interpolate_channel(p: u8, q: u8, i: u32, d: u32) -> (v: u8)
    requires
        0 < d,
        i <= d,
    ensures
        v as int == lerp(p, q, i as int, d as int),
{
    proof {
        lemma_lerp_between(p, q, i as int, d as int);
    }
    if p <= q {
        let x: u64 = (q - p) as u64;
        assert(x * (i as u64) <= 255 * 0xffff_ffffu64) by (nonlinear_arith)
            requires
                x <= 255,
                i <= 0xffff_ffff,
        ;
        let step: u64 = x * (i as u64) / (d as u64);
        assert(step == lerp(p, q, i as int, d as int) - p);
        (p as u64 + step) as u8
    } else {
        let x: u64 = (p - q) as u64;
        assert(x * (i as u64) <= 255 * 0xffff_ffffu64) by (nonlinear_arith)
            requires
                x <= 255,
                i <= 0xffff_ffff,
        ;
        let up: u64 = (x * (i as u64) + (d as u64) - 1) / (d as u64);
        proof {
            lemma_neg_div_floor(x * i, d as int);
            assert((q as int - p as int) * i == -(x * i)) by (nonlinear_arith)
                requires
                    x == p - q,
            ;
        }
        (p as u64 - up) as u8
    }
}

/// Colour `i` of `d` evenly spaced steps from `p` towards `q`.
pub fn interpolate(p: RGB, q: RGB, i: u32, d: u32) -> (c: RGB)
    requires
        0 < d,
        i <= d,
    ensures
        c == mix(p, q, i as int, d as int),
{
    RGB {
        r: interpolate_channel(p.r, q.r, i, d),
        g: interpolate_channel(p.g, q.g, i, d),
        b: interpolate_channel(p.b, q.b, i, d),
    }
}

/// Appends `p` and the `k` colours between `p` and `q`.
fn push_segment(palette: &mut Vec<RGB>, p: RGB, q: RGB, k: u32)
    requires
        k < u32::MAX,
    ensures
        final(palette)@ == old(palette)@ + segment(p, q, k as nat),
{
    let ghost start = old(palette)@;
    let mut i: u32 = 0;
    while i <= k
        invariant
            k < u32::MAX,
            i <= k + 1,
            palette@ == start + segment(p, q, k as nat).take(i as int),
        decreases k + 1 - i,
    {
        let c = interpolate(p, q, i, k + 1);
        palette.push(c);
        assert(segment(p, q, k as nat).take(i + 1) =~= segment(p, q, k as nat).take(i as int).push(c));
        i = i + 1;
    }
    assert(segment(p, q, k as nat).take(k + 1) =~= segment(p, q, k as nat));
}

/// The number of interpolated colours in each of the three segments of a
/// palette of `n` colours: `(m, m, m + r)` with `m = (n - 4) / 3` and
/// `r = (n - 4) % 3`.
pub fn segment_counts(n: u32) -> (counts: (u32, u32, u32))
    requires
        n >= 4,
    ensures
        counts.0 == base_count(n as nat),
        counts.1 == base_count(n as nat),
        counts.2 == last_count(n as nat),
{
    let m = (n - 4) / 3;
    let r = (n - 4) % 3;
    (m, m, m + r)
}

/// Builds a palette of `n` colours through the four anchors by
/// piecewise-linear interpolation, channel values rounded down.
pub fn new_linear_palette(c1: RGB, c2: RGB, c3: RGB, c4: RGB, n: u32) -> (res: Result<
    Vec<RGB>,
    PaletteError,
>)
    ensures
        n < 4 ==> res == Err::<Vec<RGB>, PaletteError>(PaletteError::InvalidPaletteSize),
        n >= 4 ==> res is Ok,
        res is Ok ==> res->Ok_0@ == linear_palette(c1, c2, c3, c4, n as nat),
        res is Ok ==> res->Ok_0@.len() == n,
        res is Ok ==> res->Ok_0@[0] == c1 && res->Ok_0@[n - 1] == c4,
{
    if n < 4 {
        return Err(PaletteError::InvalidPaletteSize);
    }
    let (m1, m2, m3) = segment_counts(n);
    let mut palette: Vec<RGB> = Vec::new();
    push_segment(&mut palette, c1, c2, m1);
    push_segment(&mut palette, c2, c3, m2);
    push_segment(&mut palette, c3, c4, m3);
    palette.push(c4);
    proof {
        lemma_palette_shape(c1, c2, c3, c4, n as nat);
    }
    Ok(palette)
}

/// A palette of `n >= 4` colours holds exactly `n` colours, starts with the
/// first anchor and ends with the last.
pub proof fn lemma_palette_shape(c1: RGB, c2: RGB, c3: RGB, c4: RGB, n: nat)
    requires
        n >= 4,
    ensures
        linear_palette(c1, c2, c3, c4, n).len() == n,
        linear_palette(c1, c2, c3, c4, n)[0] == c1,
        linear_palette(c1, c2, c3, c4, n)[n - 1] == c4,
{
    let m = base_count(n);
    let k = last_count(n);
    lemma_fundamental_div_mod((n - 4) as int, 3);
    lemma_lerp_between(c1.r, c2.r, 0, (m + 1) as int);
    lemma_lerp_between(c1.g, c2.g, 0, (m + 1) as int);
    lemma_lerp_between(c1.b, c2.b, 0, (m + 1) as int);
}

/// The three segments of a palette of `n >= 4` colours: the first two each hold
/// an anchor and `m = (n - 4) / 3` interpolated colours, the last holds the
/// third anchor and `m + (n - 4) % 3`, so the remainder all falls in the last
/// segment; the second and third anchors stand at `m + 1` and `2m + 2`.
pub proof fn lemma_segment_layout(c1: RGB, c2: RGB, c3: RGB, c4: RGB, n: nat)
    requires
        n >= 4,
    ensures
        ({
            let pal = linear_palette(c1, c2, c3, c4, n);
            let m: int = (n - 4) / 3;
            let k: int = m + (n - 4) % 3;
            &&& pal.subrange(0, m + 1) == segment(c1, c2, m as nat)
            &&& pal.subrange(m + 1, 2 * m + 2) == segment(c2, c3, m as nat)
            &&& pal.subrange(2 * m + 2, n - 1) == segment(c3, c4, k as nat)
            &&& pal[m + 1] == c2
            &&& pal[2 * m + 2] == c3
        }),
{
    let pal = linear_palette(c1, c2, c3, c4, n);
    let m = base_count(n) as int;
    let k = last_count(n) as int;
    lemma_fundamental_div_mod((n - 4) as int, 3);
    let s1 = segment(c1, c2, m as nat);
    let s2 = segment(c2, c3, m as nat);
    let s3 = segment(c3, c4, k as nat);
    assert(pal.subrange(0, m + 1) =~= s1);
    assert(pal.subrange(m + 1, 2 * m + 2) =~= s2);
    assert(pal.subrange(2 * m + 2, n - 1) =~= s3);
    lemma_lerp_between(c2.r, c3.r, 0, (m + 1) as int);
    lemma_lerp_between(c2.g, c3.g, 0, (m + 1) as int);
    lemma_lerp_between(c2.b, c3.b, 0, (m + 1) as int);
    lemma_lerp_between(c3.r, c4.r, 0, (k + 1) as int);
    lemma_lerp_between(c3.g, c4.g, 0, (k + 1) as int);
    lemma_lerp_between(c3.b, c4.b, 0, (k + 1) as int);
    assert(pal[m + 1] == s2[0]);
    assert(pal[2 * m + 2] == s3[0]);
}

} // verus!
