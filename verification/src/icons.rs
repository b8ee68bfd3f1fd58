//! Icons as rows of pixels, each of them blue, green, red and opacity.

use vstd::prelude::*;

verus! {

/// An icon.
#[derive(Debug)]
pub struct IconData {
    pub width: u32,
    pub height: u32,
    pub bgra: Vec<u8>,
}

impl IconData {
    /// There is a pixel for every place, and places can be counted.
    pub open spec fn wf(self) -> bool {
        &&& self.width * self.height * 4 <= u32::MAX
        &&& self.bgra@.len() >= self.width * self.height * 4
    }

    /// The opacity at a place.
    pub open spec fn alpha_at(self, x: int, y: int) -> u8 {
        self.bgra@[(y * self.width + x) * 4 + 3]
    }

    /// The place is in the icon and more opaque than the threshold.
    pub open spec fn covers(self, x: int, y: int, threshold: u8) -> bool {
        0 <= x < self.width && 0 <= y < self.height && self.alpha_at(x, y) > threshold
    }
}

/// The side of an icon that can be asked for.
pub fn icon_side(size: u32) -> (r: u32)
    ensures
        r == if size < 16 {
            16
        } else if size > 256 {
            256
        } else {
            size
        },
{
    if size < 16 {
        16
    } else if size > 256 {
        256
    } else {
        size
    }
}

/// The smallest box, both corners included, around what is more opaque than the
/// threshold.
pub open spec fn tight_box(d: IconData, threshold: u8, b: (u32, u32, u32, u32)) -> bool {
    &&& forall|x: int, y: int| #[trigger]
        d.covers(x, y, threshold) ==> b.0 <= x <= b.2 && b.1 <= y <= b.3
    &&& exists|y: int| #[trigger] d.covers(b.0 as int, y, threshold)
    &&& exists|x: int| #[trigger] d.covers(x, b.1 as int, threshold)
    &&& exists|y: int| #[trigger] d.covers(b.2 as int, y, threshold)
    &&& exists|x: int| #[trigger] d.covers(x, b.3 as int, threshold)
}

/// Nothing in the icon is more opaque than the threshold.
pub open spec fn is_clear(d: IconData, threshold: u8) -> bool {
    forall|x: int, y: int| !#[trigger] d.covers(x, y, threshold)
}

/// The place was looked at before the place `(x, y)`, row by row.
spec fn earlier(px: int, py: int, x: int, y: int) -> bool {
    py < y || (py == y && px < x)
}

proof fn lemma_pixel_index(d: IconData, x: int, y: int)
    requires
        d.wf(),
        0 <= x < d.width,
        0 <= y < d.height,
    ensures
        0 <= y * d.width + x,
        (y * d.width + x) * 4 + 3 < d.width * d.height * 4,
        y * d.width <= d.width * d.height,
{
    assert(y * d.width + x <= (d.height - 1) * d.width + (d.width - 1)) by (nonlinear_arith)
        requires
            0 <= x < d.width,
            0 <= y < d.height,
    ;
    assert((d.height - 1) * d.width + d.width == d.width * d.height) by (nonlinear_arith);
    assert(0 <= y * d.width) by (nonlinear_arith)
        requires
            0 <= y,
            0 <= d.width,
    ;
}

/// The smallest box around what is more opaque than the threshold; `None` where
/// nothing is.
pub fn alpha_bbox(d: &IconData, threshold: u8) -> (r: Option<(u32, u32, u32, u32)>)
    requires
        d.wf(),
    ensures
        match r {
            Some(b) => tight_box(*d, threshold, b),
            None => forall|x: int, y: int| !#[trigger] d.covers(x, y, threshold),
        },
        r is None <==> is_clear(*d, threshold),
{
    let mut x0: u32 = u32::MAX;
    let mut y0: u32 = u32::MAX;
    let mut x1: u32 = 0;
    let mut y1: u32 = 0;
    let mut any = false;
    let ghost mut left: int = 0;
    let ghost mut top: int = 0;
    let ghost mut right: int = 0;
    let ghost mut bottom: int = 0;
    let mut y: u32 = 0;
    while y < d.height
        invariant
            d.wf(),
            y <= d.height,
            any ==> d.covers(x0 as int, left, threshold) && d.covers(top, y0 as int, threshold)
                && d.covers(x1 as int, right, threshold) && d.covers(bottom, y1 as int, threshold),
            any ==> forall|px: int, py: int| #[trigger]
                d.covers(px, py, threshold) && earlier(px, py, 0, y as int) ==> x0 <= px <= x1
                    && y0 <= py <= y1,
            !any ==> forall|px: int, py: int|
                earlier(px, py, 0, y as int) ==> !#[trigger] d.covers(px, py, threshold),
            !any ==> x0 == u32::MAX && y0 == u32::MAX && x1 == 0 && y1 == 0,
        decreases d.height - y,
    {
        let mut x: u32 = 0;
        while x < d.width
            invariant
                d.wf(),
                y < d.height,
                x <= d.width,
                any ==> d.covers(x0 as int, left, threshold) && d.covers(top, y0 as int, threshold)
                    && d.covers(x1 as int, right, threshold) && d.covers(
                    bottom,
                    y1 as int,
                    threshold,
                ),
                any ==> forall|px: int, py: int| #[trigger]
                    d.covers(px, py, threshold) && earlier(px, py, x as int, y as int) ==> x0 <= px
                        <= x1 && y0 <= py <= y1,
                !any ==> forall|px: int, py: int|
                    earlier(px, py, x as int, y as int) ==> !#[trigger] d.covers(
                        px,
                        py,
                        threshold,
                    ),
                !any ==> x0 == u32::MAX && y0 == u32::MAX && x1 == 0 && y1 == 0,
            decreases d.width - x,
        {
            proof {
                lemma_pixel_index(*d, x as int, y as int);
            }
            let i: u32 = (y * d.width + x) * 4 + 3;
            let a = d.bgra[i as usize];
            if a > threshold {
                assert(d.covers(x as int, y as int, threshold));
                if x < x0 {
                    x0 = x;
                    proof {
                        left = y as int;
                    }
                }
                if y < y0 {
                    y0 = y;
                    proof {
                        top = x as int;
                    }
                }
                if x > x1 || !any {
                    x1 = x;
                    proof {
                        right = y as int;
                    }
                }
                if y > y1 || !any {
                    y1 = y;
                    proof {
                        bottom = x as int;
                    }
                }
                any = true;
            }
            x += 1;
        }
        y += 1;
    }
    assert(forall|px: int, py: int| #[trigger]
        d.covers(px, py, threshold) ==> earlier(px, py, 0, y as int));
    if any {
        let b = (x0, y0, x1, y1);
        assert(d.covers(b.0 as int, left, threshold));
        assert(d.covers(top, b.1 as int, threshold));
        assert(d.covers(b.2 as int, right, threshold));
        assert(d.covers(bottom, b.3 as int, threshold));
        assert forall|px: int, py: int| #[trigger] d.covers(px, py, threshold) implies b.0 <= px
            <= b.2 && b.1 <= py <= b.3 by {}
        Some(b)
    } else {
        None
    }
}

// ---------------------------------------------------------------- opacity

/// How many of the first `n` pixels have that opacity.
pub open spec fn alpha_count(b: Seq<u8>, n: nat, a: u8) -> nat
    decreases n,
{
    if n == 0 {
        0
    } else {
        alpha_count(b, (n - 1) as nat, a) + if b[(n - 1) * 4 + 3] == a {
            1nat
        } else {
            0nat
        }
    }
}

/// How opaque an icon is.
#[derive(Debug, Clone, Copy, PartialEq, Eq, Structural)]
pub struct AlphaStats {
    pub min: u8,
    pub max: u8,
    /// How many pixels are fully transparent.
    pub transparent: usize,
    /// How many pixels are fully opaque.
    pub opaque: usize,
    pub total: usize,
}

/// How opaque an icon is.
pub fn alpha_stats(d: &IconData) -> (r: AlphaStats)
    ensures
        r.total == d.bgra@.len() / 4,
        r.transparent == alpha_count(d.bgra@, r.total as nat, 0),
        r.opaque == alpha_count(d.bgra@, r.total as nat, 255),
        r.total == 0 ==> r.min == 0 && r.max == 0,
        r.total > 0 ==> {
            &&& forall|i: int| 0 <= i < r.total ==> r.min <= #[trigger] d.bgra@[i * 4 + 3] <= r.max
            &&& exists|i: int| 0 <= i < r.total && #[trigger] d.bgra@[i * 4 + 3] == r.min
            &&& exists|i: int| 0 <= i < r.total && #[trigger] d.bgra@[i * 4 + 3] == r.max
        },
{
    let total: usize = d.bgra.len() / 4;
    if total == 0 {
        return AlphaStats { min: 0, max: 0, transparent: 0, opaque: 0, total: 0 };
    }
    let mut min: u8 = d.bgra[3];
    let mut max: u8 = d.bgra[3];
    let ghost mut at_min: int = 0;
    let ghost mut at_max: int = 0;
    let mut zero: usize = 0;
    let mut full: usize = 0;
    let len: usize = d.bgra.len();
    let mut i: usize = 0;
    while i < total
        invariant
            len == d.bgra@.len(),
            i <= total == len / 4,
            zero == alpha_count(d.bgra@, i as nat, 0),
            full == alpha_count(d.bgra@, i as nat, 255),
            zero <= i,
            full <= i,
            forall|k: int| 0 <= k < i ==> min <= #[trigger] d.bgra@[k * 4 + 3] <= max,
            0 <= at_min < total && d.bgra@[at_min * 4 + 3] == min,
            0 <= at_max < total && d.bgra@[at_max * 4 + 3] == max,
        decreases total - i,
    {
        let a = d.bgra[i * 4 + 3];
        if a < min {
            min = a;
            proof {
                at_min = i as int;
            }
        }
        if a > max {
            max = a;
            proof {
                at_max = i as int;
            }
        }
        if a == 0 {
            zero += 1;
        }
        if a == 255 {
            full += 1;
        }
        i += 1;
    }
    AlphaStats { min, max, transparent: zero, opaque: full, total }
}

/// A pixel is neither fully transparent nor fully opaque.
pub open spec fn translucent(b: Seq<u8>, i: int) -> bool {
    b[i * 4 + 3] != 0 && b[i * 4 + 3] != 255
}

/// No colour of the pixel is stronger than its opacity.
pub open spec fn within_alpha(b: Seq<u8>, i: int) -> bool {
    b[i * 4] <= b[i * 4 + 3] && b[i * 4 + 1] <= b[i * 4 + 3] && b[i * 4 + 2] <= b[i * 4 + 3]
}

/// The colours seem to have been multiplied by the opacity: there are pixels
/// that are neither transparent nor opaque, and in none of them a colour is
/// stronger than the opacity.
pub open spec fn premultiplied(b: Seq<u8>) -> bool {
    &&& exists|i: int| 0 <= i < b.len() as int / 4 && #[trigger] translucent(b, i)
    &&& forall|i: int|
        0 <= i < b.len() as int / 4 && #[trigger] translucent(b, i) ==> within_alpha(b, i)
}

/// A colour with the multiplication undone, rounded.
pub open spec fn divided(c: u8, a: u8) -> int {
    let v = (c * 255 + a as int / 2) / (a as int);
    if v > 255 {
        255
    } else {
        v
    }
}

/// The byte at a place after the multiplication was undone.
pub open spec fn straightened_at(b: Seq<u8>, k: int) -> int {
    if k / 4 < b.len() as int / 4 && k % 4 != 3 && translucent(b, k / 4) {
        divided(b[k], b[k / 4 * 4 + 3])
    } else {
        b[k] as int
    }
}

fn looks_premultiplied(b: &Vec<u8>) -> (r: bool)
    ensures
        r == premultiplied(b@),
{
    let total: usize = b.len() / 4;
    let mut some = false;
    let ghost mut seen: int = 0;
    let len: usize = b.len();
    let mut i: usize = 0;
    while i < total
        invariant
            len == b@.len(),
            i <= total == len / 4,
            some ==> 0 <= seen < total && translucent(b@, seen),
            !some ==> forall|k: int| 0 <= k < i ==> !#[trigger] translucent(b@, k),
            forall|k: int| 0 <= k < i && #[trigger] translucent(b@, k) ==> within_alpha(b@, k),
        decreases total - i,
    {
        let a = b[i * 4 + 3];
        if a != 0 && a != 255 {
            assert(translucent(b@, i as int));
            proof {
                seen = i as int;
            }
            some = true;
            if b[i * 4] > a || b[i * 4 + 1] > a || b[i * 4 + 2] > a {
                assert(!within_alpha(b@, i as int));
                return false;
            }
        }
        i += 1;
    }
    some
}

fn divide(c: u8, a: u8) -> (r: u8)
    requires
        a > 0,
    ensures
        r == divided(c, a),
{
    let v: u32 = ((c as u32) * 255 + (a as u32) / 2) / (a as u32);
    if v > 255 {
        255
    } else {
        v as u8
    }
}

/// Undoes the multiplication of the colours by the opacity where there seems to
/// have been one; other images stay as they are.
pub fn normalize_alpha(b: &mut Vec<u8>)
    ensures
        final(b)@.len() == old(b)@.len(),
        premultiplied(old(b)@) ==> forall|k: int|
            0 <= k < old(b)@.len() ==> #[trigger] final(b)@[k] == straightened_at(old(b)@, k),
        !premultiplied(old(b)@) ==> final(b)@ == old(b)@,
{
    if !looks_premultiplied(b) {
        return;
    }
    let ghost given = b@;
    let len: usize = b.len();
    let total: usize = len / 4;
    let mut i: usize = 0;
    while i < total
        invariant
            len == given.len(),
            i <= total == len / 4,
            b@.len() == given.len(),
            forall|k: int| 0 <= k < i * 4 ==> #[trigger] b@[k] == straightened_at(given, k),
            forall|k: int| i * 4 <= k < given.len() ==> #[trigger] b@[k] == given[k],
        decreases total - i,
    {
        let a = b[i * 4 + 3];
        if a != 0 && a != 255 {
            assert(translucent(given, i as int));
            let p = divide(b[i * 4], a);
            let q = divide(b[i * 4 + 1], a);
            let s = divide(b[i * 4 + 2], a);
            b.set(i * 4, p);
            b.set(i * 4 + 1, q);
            b.set(i * 4 + 2, s);
        } else {
            assert(!translucent(given, i as int));
        }
        assert forall|k: int| 0 <= k < (i + 1) * 4 implies #[trigger] b@[k] == straightened_at(
            given,
            k,
        ) by {
            if k >= i * 4 {
                assert(k / 4 == i);
            }
        }
        i += 1;
    }
    assert forall|k: int| 0 <= k < given.len() implies #[trigger] b@[k] == straightened_at(
        given,
        k,
    ) by {
        if k >= total * 4 {
            assert(k / 4 >= total);
        }
    }
}

/// Opacities never change, nor do the colours of pixels that are fully
/// transparent or fully opaque.
pub proof fn law_normalizing_keeps_alpha(b: Seq<u8>, i: int)
    requires
        0 <= i < b.len() as int / 4,
    ensures
        straightened_at(b, i * 4 + 3) == b[i * 4 + 3],
        !translucent(b, i) ==> straightened_at(b, i * 4) == b[i * 4] && straightened_at(
            b,
            i * 4 + 1,
        ) == b[i * 4 + 1] && straightened_at(b, i * 4 + 2) == b[i * 4 + 2],
{
    assert((i * 4) / 4 == i && (i * 4 + 1) / 4 == i && (i * 4 + 2) / 4 == i && (i * 4 + 3) / 4
        == i);
}

/// Multiplying again what was divided gives back the colour, but for rounding:
/// it is off by at most one.
pub proof fn law_division_undoes_multiplication(c: u8, a: u8)
    requires
        0 < a,
        c <= a,
    ensures
        divided(c, a) * a / 255 - 1 <= c <= divided(c, a) * a / 255 + 1,
{
    let v = (c * 255 + a as int / 2) / (a as int);
    assert(v * a <= c * 255 + a as int / 2 < v * a + a) by (nonlinear_arith)
        requires
            v == (c * 255 + a as int / 2) / (a as int),
            0 < a,
    ;
    assert(v <= 255) by (nonlinear_arith)
        requires
            v * a <= c * 255 + a as int / 2,
            c <= a,
            0 < a,
    ;
}

// ---------------------------------------------------------------- as bytes

/// The four bytes of a number, lowest first.
pub open spec fn le_bytes(n: u32) -> Seq<u8> {
    seq![
        (n % 256) as u8,
        (n / 256 % 256) as u8,
        (n / 65536 % 256) as u8,
        (n / 16777216) as u8,
    ]
}

fn push_le(v: &mut Vec<u8>, n: u32)
    ensures
        final(v)@ == old(v)@ + le_bytes(n),
{
    v.push((n % 256) as u8);
    v.push((n / 256 % 256) as u8);
    v.push((n / 65536 % 256) as u8);
    v.push((n / 16777216) as u8);
    assert(v@ =~= old(v)@ + le_bytes(n));
}

/// An icon as bytes: its width, its height, then its pixels.
pub fn icon_bytes(d: &IconData) -> (r: Vec<u8>)
    ensures
        r@ == le_bytes(d.width) + le_bytes(d.height) + d.bgra@,
{
    let mut r: Vec<u8> = Vec::new();
    push_le(&mut r, d.width);
    push_le(&mut r, d.height);
    r.extend_from_slice(d.bgra.as_slice());
    assert(r@ =~= le_bytes(d.width) + le_bytes(d.height) + d.bgra@);
    r
}

/// The number that four bytes stand for.
pub open spec fn from_le(b: Seq<u8>) -> int {
    b[0] + b[1] * 256 + b[2] * 65536 + b[3] * 16777216
}

proof fn lemma_le(n: u32)
    ensures
        from_le(le_bytes(n)) == n,
{
    let a = n as int / 256;
    let b = a / 256;
    let c = b / 256;
    assert(n as int / 65536 == b);
    assert(n as int / 16777216 == c);
    assert(n == a * 256 + n as int % 256);
    assert(a == b * 256 + a % 256);
    assert(b == c * 256 + b % 256);
    assert(c < 256);
    let s = le_bytes(n);
    assert(s[0] == n as int % 256);
    assert(s[1] == a % 256);
    assert(s[2] == b % 256);
    assert(s[3] == c);
}

/// The size and the pixels of an icon can be read back from its bytes.
pub proof fn law_icon_bytes_round_trip(width: u32, height: u32, bgra: Seq<u8>)
    ensures
        ({
            let r = le_bytes(width) + le_bytes(height) + bgra;
            &&& from_le(r.subrange(0, 4)) == width
            &&& from_le(r.subrange(4, 8)) == height
            &&& r.skip(8) == bgra
        }),
{
    let r = le_bytes(width) + le_bytes(height) + bgra;
    lemma_le(width);
    lemma_le(height);
    assert(r.subrange(0, 4) =~= le_bytes(width));
    assert(r.subrange(4, 8) =~= le_bytes(height));
    assert(r.skip(8) =~= bgra);
}

// ---------------------------------------------------------------- what holds of icons

/// Every pixel that is more opaque than the threshold lies in the box, and on
/// each side of the box lies one; there is a box where there is such a pixel.
/// The opacity of a pixel is its fourth byte, and pixels come row by row.
pub proof fn law_box_around_what_is_seen(
    d: IconData,
    threshold: u8,
    r: Option<(u32, u32, u32, u32)>,
    x: int,
    y: int,
)
    requires
        d.wf(),
        0 <= x < d.width,
        0 <= y < d.height,
        call_ensures(alpha_bbox, (&d, threshold), r),
    ensures
        d.bgra@[(y * d.width + x) * 4 + 3] > threshold ==> r is Some && (r->0).0 <= x <= (r->0).2
            && (r->0).1 <= y <= (r->0).3,
        r is Some ==> (r->0).2 < d.width && (r->0).3 < d.height,
        r is Some ==> exists|v: int|
            0 <= v < d.height && #[trigger] d.bgra@[(v * d.width + (r->0).0) * 4 + 3] > threshold,
        r is Some ==> exists|u: int|
            0 <= u < d.width && #[trigger] d.bgra@[((r->0).1 * d.width + u) * 4 + 3] > threshold,
        r is Some ==> exists|v: int|
            0 <= v < d.height && #[trigger] d.bgra@[(v * d.width + (r->0).2) * 4 + 3] > threshold,
        r is Some ==> exists|u: int|
            0 <= u < d.width && #[trigger] d.bgra@[((r->0).3 * d.width + u) * 4 + 3] > threshold,
{
    if d.bgra@[(y * d.width + x) * 4 + 3] > threshold {
        assert(d.covers(x, y, threshold));
    }
    if let Some(b) = r {
        let v0 = choose|v: int| #[trigger] d.covers(b.0 as int, v, threshold);
        let u1 = choose|u: int| #[trigger] d.covers(u, b.1 as int, threshold);
        let v2 = choose|v: int| #[trigger] d.covers(b.2 as int, v, threshold);
        let u3 = choose|u: int| #[trigger] d.covers(u, b.3 as int, threshold);
        assert(d.bgra@[(v0 * d.width + b.0) * 4 + 3] > threshold);
        assert(d.bgra@[(b.1 * d.width + u1) * 4 + 3] > threshold);
        assert(d.bgra@[(v2 * d.width + b.2) * 4 + 3] > threshold);
        assert(d.bgra@[(b.3 * d.width + u3) * 4 + 3] > threshold);
    }
}

/// A side from 16 to 256 can be asked for; any other becomes the nearest of them.
pub proof fn law_side_of_an_icon(size: u32, r: u32)
    requires
        call_ensures(icon_side, (size,), r),
    ensures
        16 <= r <= 256,
        16 <= size <= 256 ==> r == size,
        size < 16 ==> r == 16,
        size > 256 ==> r == 256,
{
}

/// The opacities of the first pixels.
pub open spec fn opacities(b: Seq<u8>, n: nat) -> Seq<u8> {
    Seq::new(n, |i: int| b[4 * i + 3])
}

proof fn lemma_opacities(b: Seq<u8>, n: nat, a: u8)
    ensures
        alpha_count(b, n, a) == opacities(b, n).filter(|x: u8| x == a).len(),
    decreases n,
{
    reveal(Seq::filter);
    let f = |x: u8| x == a;
    if n > 0 {
        lemma_opacities(b, (n - 1) as nat, a);
        assert(opacities(b, n).drop_last() =~= opacities(b, (n - 1) as nat));
        assert(opacities(b, n).last() == b[(n - 1) * 4 + 3]);
    }
}

/// Every pixel counts once: transparent are those of no opacity, opaque those of
/// all, and the least and the greatest opacity are those of pixels.
pub proof fn law_opacities_are_counted(d: IconData, r: AlphaStats)
    requires
        call_ensures(alpha_stats, (&d,), r),
    ensures
        4 * r.total <= d.bgra@.len() < 4 * r.total + 4,
        r.transparent == opacities(d.bgra@, r.total as nat).filter(|x: u8| x == 0).len(),
        r.opaque == opacities(d.bgra@, r.total as nat).filter(|x: u8| x == 255).len(),
        forall|i: int|
            0 <= i < r.total ==> r.min <= #[trigger] opacities(d.bgra@, r.total as nat)[i] <= r.max,
        r.total > 0 ==> opacities(d.bgra@, r.total as nat).contains(r.min) && opacities(
            d.bgra@,
            r.total as nat,
        ).contains(r.max),
        r.total == 0 ==> r.min == 0 && r.max == 0,
{
    let o = opacities(d.bgra@, r.total as nat);
    lemma_opacities(d.bgra@, r.total as nat, 0);
    lemma_opacities(d.bgra@, r.total as nat, 255);
    assert forall|i: int| 0 <= i < r.total implies r.min <= #[trigger] o[i] <= r.max by {
        assert(o[i] == d.bgra@[i * 4 + 3]);
    }
    if r.total > 0 {
        let i = choose|i: int| 0 <= i < r.total && #[trigger] d.bgra@[i * 4 + 3] == r.min;
        let k = choose|k: int| 0 <= k < r.total && #[trigger] d.bgra@[k * 4 + 3] == r.max;
        assert(o[i] == r.min && o[k] == r.max);
    }
}

/// A pixel that is neither transparent nor opaque and has a colour stronger than
/// its opacity shows that nothing was multiplied: the image stays. So does one
/// without such pixels.
pub proof fn law_straight_images_stay(b: &mut Vec<u8>, i: int, j: int, r: ())
    requires
        0 <= i < old(b)@.len() as int / 4,
        0 <= j < 3,
        call_ensures(normalize_alpha, (b,), r),
    ensures
        0 < old(b)@[4 * i + 3] < 255 && old(b)@[4 * i + j] > old(b)@[4 * i + 3] ==> final(b)@
            == old(b)@,
        (forall|k: int|
            0 <= k < old(b)@.len() as int / 4 ==> #[trigger] opacities(
                old(b)@,
                (old(b)@.len() / 4) as nat,
            )[k] == 0 || opacities(old(b)@, (old(b)@.len() / 4) as nat)[k] == 255) ==> final(b)@
            == old(b)@,
{
    let s = old(b)@;
    if 0 < s[4 * i + 3] < 255 && s[4 * i + j] > s[4 * i + 3] {
        assert(translucent(s, i));
        assert(!within_alpha(s, i));
    }
    let o = opacities(s, (s.len() / 4) as nat);
    if forall|k: int| 0 <= k < s.len() as int / 4 ==> #[trigger] o[k] == 0 || o[k] == 255 {
        assert forall|k: int| 0 <= k < s.len() as int / 4 implies !#[trigger] translucent(s, k) by {
            assert(o[k] == s[4 * k + 3]);
        }
    }
}

/// In an image whose colours were multiplied, each colour of a pixel that is
/// neither transparent nor opaque becomes the one whose product with the opacity
/// is nearest to it; opacities stay, and so do all other pixels.
pub proof fn law_multiplication_is_undone(b: &mut Vec<u8>, i: int, j: int, seen: int, r: ())
    requires
        0 <= i < old(b)@.len() as int / 4,
        0 <= j < 4,
        0 <= seen < old(b)@.len() as int / 4,
        0 < old(b)@[4 * seen + 3] < 255,
        forall|k: int|
            0 <= k < old(b)@.len() as int / 4 && #[trigger] translucent(old(b)@, k)
                ==> within_alpha(old(b)@, k),
        call_ensures(normalize_alpha, (b,), r),
    ensures
        final(b)@.len() == old(b)@.len(),
        final(b)@[4 * i + 3] == old(b)@[4 * i + 3],
        old(b)@[4 * i + 3] == 0 || old(b)@[4 * i + 3] == 255 ==> final(b)@[4 * i + j]
            == old(b)@[4 * i + j],
        j < 3 && 0 < old(b)@[4 * i + 3] < 255 ==> {
            let a = old(b)@[4 * i + 3];
            let before = old(b)@[4 * i + j];
            let after = final(b)@[4 * i + j];
            -a <= 2 * (after * a - 255 * before) <= a
        },
{
    let s = old(b)@;
    assert(translucent(s, seen));
    assert(premultiplied(s));
    assert((4 * i + j) / 4 == i && (4 * i + j) % 4 == j && (4 * i + 3) / 4 == i && (4 * i + 3) % 4
        == 3);
    if j < 3 && 0 < s[4 * i + 3] < 255 {
        assert(translucent(s, i));
        let a = s[4 * i + 3];
        let c = s[4 * i + j];
        assert(s[i * 4] <= a && s[i * 4 + 1] <= a && s[i * 4 + 2] <= a);
        assert(c <= a);
        let v = (c * 255 + a as int / 2) / (a as int);
        assert(v * a <= c * 255 + a as int / 2 < v * a + a) by (nonlinear_arith)
            requires
                v == (c * 255 + a as int / 2) / (a as int),
                0 < a,
        ;
        assert(v <= 255) by (nonlinear_arith)
            requires
                v * a <= c * 255 + a as int / 2,
                c <= a,
                0 < a,
        ;
        assert(final(b)@[4 * i + j] == v);
    }
}

/// The first eight bytes are the width and the height, the lowest byte first, and
/// the pixels follow as they are.
pub proof fn law_icon_as_bytes(d: IconData, r: Vec<u8>)
    requires
        call_ensures(icon_bytes, (&d,), r),
    ensures
        r@.len() == 8 + d.bgra@.len(),
        r@[0] + 256 * r@[1] + 65536 * r@[2] + 16777216 * r@[3] == d.width,
        r@[4] + 256 * r@[5] + 65536 * r@[6] + 16777216 * r@[7] == d.height,
        forall|i: int| 0 <= i < d.bgra@.len() ==> r@[8 + i] == #[trigger] d.bgra@[i],
{
    lemma_le(d.width);
    lemma_le(d.height);
    assert(r@.subrange(0, 4) =~= le_bytes(d.width));
    assert(r@.subrange(4, 8) =~= le_bytes(d.height));
}

} // verus!
