use vstd::prelude::*;

use crate::color::{dist_sq, distance_sq, Color};
use crate::palette::Palette;

verus! {

/// Bytes per pixel in an RGBA buffer: red, green, blue, alpha.
pub const PIXEL_SIZE: usize = 4;

/// `i` is the index of the palette entry nearest to `c`: no entry is closer,
/// and every entry before it is strictly farther.
pub open spec fn is_nearest(p: Seq<Color>, c: Color, i: int) -> bool {
    &&& 0 <= i < p.len()
    &&& forall|j: int| 0 <= j < p.len() ==> dist_sq(c, p[i]) <= dist_sq(c, #[trigger] p[j])
    &&& forall|j: int| 0 <= j < i ==> dist_sq(c, p[i]) < dist_sq(c, #[trigger] p[j])
}

/// The index that the matcher selects for `c` in `p`.
pub open spec fn nearest_index_of(p: Seq<Color>, c: Color) -> int {
    choose|i: int| is_nearest(p, c, i)
}

/// The palette entry that the matcher selects for `c`.
pub open spec fn nearest(p: Seq<Color>, c: Color) -> Color {
    p[nearest_index_of(p, c)]
}

/// There is exactly one nearest index, so the selection is well defined.
pub proof fn lemma_nearest_unique(p: Seq<Color>, c: Color, i: int, k: int)
    requires
        is_nearest(p, c, i),
        is_nearest(p, c, k),
    ensures
        i == k,
{
    if i < k {
        assert(dist_sq(c, p[k]) < dist_sq(c, p[i]));
    } else if k < i {
        assert(dist_sq(c, p[i]) < dist_sq(c, p[k]));
    }
}

proof fn lemma_nearest_in_prefix(p: Seq<Color>, c: Color, n: int) -> (i: int)
    requires
        1 <= n <= p.len(),
    ensures
        0 <= i < n,
        forall|j: int| 0 <= j < n ==> dist_sq(c, p[i]) <= dist_sq(c, #[trigger] p[j]),
        forall|j: int| 0 <= j < i ==> dist_sq(c, p[i]) < dist_sq(c, #[trigger] p[j]),
    decreases n,
{
    if n == 1 {
        0
    } else {
        let k = lemma_nearest_in_prefix(p, c, n - 1);
        if dist_sq(c, p[n - 1]) < dist_sq(c, p[k]) {
            n - 1
        } else {
            k
        }
    }
}

/// A non-empty palette has a nearest entry for every color, and it is the
/// one the matcher selects.
pub proof fn lemma_nearest_exists(p: Seq<Color>, c: Color)
    requires
        p.len() > 0,
    ensures
        is_nearest(p, c, nearest_index_of(p, c)),
{
    let i = lemma_nearest_in_prefix(p, c, p.len() as int);
    assert(is_nearest(p, c, i));
}

/// Index of the palette entry nearest to `c`; among entries at the same
/// distance, the first in palette order.
pub fn nearest_index(palette: &Palette, c: Color) -> (r: usize)
    requires
        palette.wf(),
    ensures
        is_nearest(palette@, c, r as int),
        r as int == nearest_index_of(palette@, c),
{
    let n = palette.len();
    let mut best: usize = 0;
    let mut best_d = distance_sq(c, palette.get(0));
    let mut i: usize = 1;
    while i < n
        invariant
            n == palette@.len(),
            1 <= i <= n,
            best < i,
            best_d as int == dist_sq(c, palette@[best as int]),
            forall|j: int| 0 <= j < i ==> (best_d as int) <= dist_sq(c, #[trigger] palette@[j]),
            forall|j: int| 0 <= j < best ==> (best_d as int) < dist_sq(c, #[trigger] palette@[j]),
        decreases n - i,
    {
        let d = distance_sq(c, palette.get(i));
        if d < best_d {
            best = i;
            best_d = d;
        }
        i = i + 1;
    }
    proof {
        lemma_nearest_exists(palette@, c);
        lemma_nearest_unique(palette@, c, best as int, nearest_index_of(palette@, c));
    }
    best
}

/// The palette entry nearest to `c`, the first in palette order among equals.
pub fn nearest_color(palette: &Palette, c: Color) -> (r: Color)
    requires
        palette.wf(),
    ensures
        r == nearest(palette@, c),
{
    palette.get(nearest_index(palette, c))
}

/// Red, green and blue of pixel `k` of an RGBA buffer.
pub open spec fn pixel_rgb(s: Seq<u8>, k: int) -> Color {
    Color { r: s[4 * k], g: s[4 * k + 1], b: s[4 * k + 2] }
}

/// Alpha of pixel `k` of an RGBA buffer.
pub open spec fn pixel_alpha(s: Seq<u8>, k: int) -> u8 {
    s[4 * k + 3]
}

/// Number of whole pixels in an RGBA buffer.
pub open spec fn pixel_count(s: Seq<u8>) -> int {
    s.len() as int / 4
}

/// `after` is `before` with the red, green and blue of every whole pixel
/// replaced by its nearest palette entry; alpha, and any bytes after the last
/// whole pixel, are kept.
pub open spec fn quantized(p: Seq<Color>, before: Seq<u8>, after: Seq<u8>) -> bool {
    &&& after.len() == before.len()
    &&& forall|k: int|
        0 <= k < pixel_count(before) ==> #[trigger] pixel_rgb(after, k) == nearest(
            p,
            pixel_rgb(before, k),
        )
    &&& forall|k: int|
        0 <= k < pixel_count(before) ==> #[trigger] pixel_alpha(after, k) == pixel_alpha(
            before,
            k,
        )
    &&& forall|i: int| 4 * pixel_count(before) <= i < before.len() ==> after[i] == before[i]
}

/// Replaces every pixel of an RGBA buffer by its nearest palette entry, keeping
/// its alpha. Pixels are independent of each other, so disjoint parts of one
/// buffer may be handed to this function separately.
pub fn quantize_pixels(palette: &Palette, buf: &mut [u8])
    requires
        palette.wf(),
    ensures
        quantized(palette@, old(buf)@, final(buf)@),
{
    let n = buf.len() / PIXEL_SIZE;
    let ghost before = buf@;
    assert(4 * n <= before.len());
    let mut k: usize = 0;
    while k < n
        invariant
            palette.wf(),
            4 * n <= before.len() <= usize::MAX,
            n == pixel_count(before),
            before == old(buf)@,
            buf@.len() == before.len(),
            0 <= k <= n,
            forall|m: int| 0 <= m < k ==> #[trigger] pixel_rgb(buf@, m) == nearest(
                palette@,
                pixel_rgb(before, m),
            ),
            forall|m: int| 0 <= m < k ==> #[trigger] pixel_alpha(buf@, m) == pixel_alpha(before, m),
            forall|i: int| 4 * k <= i < before.len() ==> buf@[i] == before[i],
        decreases n - k,
    {
        let at = k * PIXEL_SIZE;
        let c = Color { r: buf[at], g: buf[at + 1], b: buf[at + 2] };
        assert(c == pixel_rgb(before, k as int));
        let m = nearest_color(palette, c);
        let ghost prev = buf@;
        buf[at] = m.r;
        buf[at + 1] = m.g;
        buf[at + 2] = m.b;
        proof {
            assert forall|j: int| 0 <= j <= k implies #[trigger] pixel_rgb(buf@, j) == nearest(
                palette@,
                pixel_rgb(before, j),
            ) by {
                if j < k {
                    assert(pixel_rgb(buf@, j) == pixel_rgb(prev, j));
                }
            }
            assert forall|j: int| 0 <= j <= k implies #[trigger] pixel_alpha(buf@, j)
                == pixel_alpha(before, j) by {
                if j < k {
                    assert(pixel_alpha(buf@, j) == pixel_alpha(prev, j));
                }
            }
        }
        k = k + 1;
    }
}

/// The output is a function of the palette and the input: two results of
/// quantizing the same buffer with the same palette are identical, byte for byte.
pub proof fn lemma_quantize_deterministic(p: Seq<Color>, before: Seq<u8>, a1: Seq<u8>, a2: Seq<u8>)
    requires
        quantized(p, before, a1),
        quantized(p, before, a2),
    ensures
        a1 == a2,
{
    assert forall|i: int| 0 <= i < a1.len() implies a1[i] == a2[i] by {
        let k = i / 4;
        if k < pixel_count(before) {
            assert(pixel_rgb(a1, k) == pixel_rgb(a2, k));
            assert(pixel_alpha(a1, k) == pixel_alpha(a2, k));
        }
    }
    assert(a1 =~= a2);
}

/// `c` is one of the entries of `p`.
pub open spec fn in_palette(p: Seq<Color>, c: Color) -> bool {
    exists|i: int| 0 <= i < p.len() && #[trigger] p[i] == c
}

/// Every pixel of the output has the red, green and blue of some palette entry.
pub proof fn lemma_output_in_palette(p: Seq<Color>, before: Seq<u8>, after: Seq<u8>)
    requires
        p.len() > 0,
        quantized(p, before, after),
    ensures
        forall|k: int| 0 <= k < pixel_count(after) ==> #[trigger] in_palette(p, pixel_rgb(after, k)),
{
    assert forall|k: int| 0 <= k < pixel_count(after) implies #[trigger] in_palette(
        p,
        pixel_rgb(after, k),
    ) by {
        lemma_nearest_exists(p, pixel_rgb(before, k));
        let i = nearest_index_of(p, pixel_rgb(before, k));
        assert(pixel_rgb(after, k) == p[i]);
    }
}

/// Of two entries at the same distance from `c`, the later one is never
/// selected; an entry that is nearest, with every earlier entry strictly
/// farther, is the one selected.
pub proof fn lemma_tie_break(p: Seq<Color>, c: Color, i: int, j: int)
    requires
        0 <= i < j < p.len(),
        dist_sq(c, p[i]) == dist_sq(c, p[j]),
    ensures
        nearest_index_of(p, c) != j,
        is_nearest(p, c, i) ==> nearest_index_of(p, c) == i,
{
    lemma_nearest_exists(p, c);
    if is_nearest(p, c, i) {
        lemma_nearest_unique(p, c, i, nearest_index_of(p, c));
    }
    if nearest_index_of(p, c) == j {
        assert(dist_sq(c, p[j]) < dist_sq(c, p[i]));
    }
}

/// With a palette of one entry, every output pixel has that entry's color,
/// whatever the input.
pub proof fn lemma_single_entry(p: Seq<Color>, before: Seq<u8>, after: Seq<u8>)
    requires
        p.len() == 1,
        quantized(p, before, after),
    ensures
        forall|k: int| 0 <= k < pixel_count(after) ==> #[trigger] pixel_rgb(after, k) == p[0],
{
    assert forall|k: int| 0 <= k < pixel_count(after) implies #[trigger] pixel_rgb(after, k)
        == p[0] by {
        lemma_nearest_exists(p, pixel_rgb(before, k));
        assert(pixel_rgb(after, k) == nearest(p, pixel_rgb(before, k)));
    }
}

} // verus!
