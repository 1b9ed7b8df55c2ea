//! Building a canvas from decoded raster pixels: every source pixel is
//! folded into the grid cell it maps to (repeated half-blends average the
//! contributions), and each resulting color is quantized into a cell. The
//! JPEG byte-stream parsing itself is delegated to an outside decoder.

use vstd::arithmetic::div_mod::{
    lemma_div_is_ordered, lemma_div_of0, lemma_fundamental_div_mod,
    lemma_fundamental_div_mod_converse,
};
use vstd::pervasive::unreached;
use vstd::prelude::*;

use crate::canvas::{gview, Canvas};
use crate::cell::{from_color_spec, Cell};
use crate::color::Color;

verus! {

/// The mathematical value of a grid of optional colors.
pub open spec fn oview(rows: Seq<Vec<Option<Color>>>) -> Seq<Seq<Option<Color>>> {
    rows.map_values(|r: Vec<Option<Color>>| r@)
}

/// The color of source pixel `(x, y)` in a row-major RGB byte stream of
/// width `sw`.
pub open spec fn pixel_color(pixels: Seq<u8>, sw: int, x: int, y: int) -> Color {
    let base = 3 * (y * sw + x);
    Color { red: pixels[base], green: pixels[base + 1], blue: pixels[base + 2] }
}

/// An `h` by `w` grid with no color assigned anywhere yet.
pub open spec fn blank_grid(w: int, h: int) -> Seq<Seq<Option<Color>>> {
    Seq::new(h as nat, |y: int| Seq::new(w as nat, |x: int| None::<Color>))
}

/// The accumulation grid after folding in the first `n` source pixels, in
/// row-major order: pixel `k` of a `sw` by `sh` source lands in target cell
/// `(w*x/sw, h*y/sh)`; the first arrival is kept outright, every later one
/// is blended in halfway.
pub open spec fn ds_state(
    pixels: Seq<u8>,
    sw: int,
    sh: int,
    w: int,
    h: int,
    n: nat,
) -> Seq<Seq<Option<Color>>>
    decreases n,
{
    if n == 0 {
        blank_grid(w, h)
    } else {
        let prev = ds_state(pixels, sw, sh, w, h, (n - 1) as nat);
        let k = n - 1;
        let y = k / sw;
        let x = k % sw;
        let ty = h * y / sh;
        let tx = w * x / sw;
        let c = pixel_color(pixels, sw, x, y);
        let merged = match prev[ty][tx] {
            None => c,
            Some(p) => p.shift_spec(c, 500),
        };
        if 0 <= ty < prev.len() && 0 <= tx < prev[ty].len() {
            prev.update(ty, prev[ty].update(tx, Some(merged)))
        } else {
            prev
        }
    }
}

/// The grid of cells a source image downsamples to: every source pixel
/// folded into its target cell, then each accumulated color quantized.
pub open spec fn cell_grid(pixels: Seq<u8>, sw: int, sh: int, w: int, h: int) -> Seq<Seq<Cell>> {
    let acc = ds_state(pixels, sw, sh, w, h, (sw * sh) as nat);
    Seq::new(
        h as nat,
        |y: int|
            Seq::new(
                w as nat,
                |x: int|
                    match acc[y][x] {
                        Some(c) => from_color_spec(c),
                        None => from_color_spec(Color { red: 0, green: 0, blue: 0 }),
                    },
            ),
    )
}

proof fn lemma_div_strict_bound(a: int, b: int, d: int)
    requires
        0 <= a,
        0 < d,
        a < b * d,
    ensures
        a / d < b,
{
    lemma_fundamental_div_mod(a, d);
    if a / d >= b {
        assert(d * (a / d) >= d * b) by (nonlinear_arith)
            requires
                d > 0 && a / d >= b,
        ;
        assert(d * b == b * d) by (nonlinear_arith);
        assert(false);
    }
}

proof fn lemma_div_nonneg(a: int, d: int)
    requires
        0 <= a,
        0 < d,
    ensures
        0 <= a / d,
{
    lemma_div_of0(d);
    lemma_div_is_ordered(0, a, d);
}

/// For a target slot `t` of a dimension `h` downsampled from `s >= h`,
/// the source index `ceil(t*s/h)` exists, is in range, and maps to `t`.
proof fn lemma_ceil_source(t: int, h: int, s: int)
    requires
        0 < h <= s,
        0 <= t < h,
    ensures
        0 <= (t * s + h - 1) / h < s,
        h * ((t * s + h - 1) / h) / s == t,
{
    let a = t * s + h - 1;
    assert(t * s >= 0) by (nonlinear_arith)
        requires
            t >= 0 && s > 0,
    ;
    lemma_fundamental_div_mod(a, h);
    let y = a / h;
    let r = a % h;
    assert(a == h * y + r);
    assert(0 <= r < h);
    assert(h * y >= t * s);
    assert(h * y <= t * s + h - 1);
    assert(y >= 0) by (nonlinear_arith)
        requires
            h > 0 && h * y >= 0,
    ;
    assert(t * s <= (h - 1) * s) by (nonlinear_arith)
        requires
            t <= h - 1 && s > 0,
    ;
    assert((h - 1) * s == h * s - s) by (nonlinear_arith);
    assert(h * y <= h * s - s + h - 1);
    assert(h * y < h * s);
    assert(y < s) by (nonlinear_arith)
        requires
            h > 0 && h * y < h * s,
    ;
    assert(h * y - t * s < s);
    lemma_fundamental_div_mod_converse(h * y, s, t, h * y - t * s);
}

/// The accumulation grid is always `h` rows of `w` slots.
proof fn lemma_ds_dims(pixels: Seq<u8>, sw: int, sh: int, w: int, h: int, n: nat)
    requires
        0 <= w,
        0 <= h,
    ensures
        ds_state(pixels, sw, sh, w, h, n).len() == h,
        forall|y: int|
            0 <= y < h ==> (#[trigger] ds_state(pixels, sw, sh, w, h, n)[y]).len() == w,
    decreases n,
{
    if n == 0 {
    } else {
        lemma_ds_dims(pixels, sw, sh, w, h, (n - 1) as nat);
        let prev = ds_state(pixels, sw, sh, w, h, (n - 1) as nat);
        let cur = ds_state(pixels, sw, sh, w, h, n);
        let k = n - 1;
        let ty = h * (k / sw) / sh;
        let tx = w * (k % sw) / sw;
        if 0 <= ty < prev.len() && 0 <= tx < prev[ty].len() {
            assert forall|y: int| 0 <= y < h implies (#[trigger] cur[y]).len() == w by {
                if y == ty {
                    assert(cur[y].len() == prev[ty].len());
                } else {
                    assert(cur[y] == prev[y]);
                }
            }
        } else {
            assert(cur == prev);
        }
    }
}

/// Once a slot holds a color it never reverts to empty.
proof fn lemma_ds_some_monotone(
    pixels: Seq<u8>,
    sw: int,
    sh: int,
    w: int,
    h: int,
    t: int,
    u: int,
    n: nat,
    m: nat,
)
    requires
        0 <= t < h,
        0 <= u < w,
        n <= m,
        ds_state(pixels, sw, sh, w, h, n)[t][u] is Some,
    ensures
        ds_state(pixels, sw, sh, w, h, m)[t][u] is Some,
    decreases m,
{
    if m == n {
    } else {
        lemma_ds_some_monotone(pixels, sw, sh, w, h, t, u, n, (m - 1) as nat);
        lemma_ds_dims(pixels, sw, sh, w, h, (m - 1) as nat);
        let prev = ds_state(pixels, sw, sh, w, h, (m - 1) as nat);
        let cur = ds_state(pixels, sw, sh, w, h, m);
        let k = m - 1;
        let ty = h * (k / sw) / sh;
        let tx = w * (k % sw) / sw;
        if 0 <= ty < prev.len() && 0 <= tx < prev[ty].len() {
            if ty == t && tx == u {
                assert(cur[t][u] is Some);
            } else if ty == t {
                assert(cur[t][u] == prev[t][u]);
            } else {
                assert(cur[t] == prev[t]);
            }
        } else {
            assert(cur == prev);
        }
    }
}

/// After folding in source pixel `(x, y)`, its target slot holds a color.
proof fn lemma_ds_pixel_covers(
    pixels: Seq<u8>,
    sw: int,
    sh: int,
    w: int,
    h: int,
    x: int,
    y: int,
)
    requires
        0 < w,
        0 < h,
        0 <= x < sw,
        0 <= y < sh,
        h * y / sh < h,
        0 <= h * y / sh,
        w * x / sw < w,
        0 <= w * x / sw,
    ensures
        ds_state(pixels, sw, sh, w, h, (y * sw + x + 1) as nat)[h * y / sh][w * x / sw] is Some,
{
    let k = y * sw + x;
    assert(k >= 0) by (nonlinear_arith)
        requires
            k == y * sw + x && y >= 0 && sw > x >= 0,
    ;
    lemma_fundamental_div_mod_converse(k, sw, y, x);
    lemma_ds_dims(pixels, sw, sh, w, h, k as nat);
    let prev = ds_state(pixels, sw, sh, w, h, k as nat);
    let cur = ds_state(pixels, sw, sh, w, h, (k + 1) as nat);
    let ty = h * y / sh;
    let tx = w * x / sw;
    assert(cur == prev.update(ty, prev[ty].update(tx, cur[ty][tx])) || cur[ty][tx] is Some);
    assert(cur[ty][tx] is Some);
}

/// With a source at least as large as the target on both axes, every
/// target slot receives at least one source pixel.
proof fn lemma_ds_full(pixels: Seq<u8>, sw: int, sh: int, w: int, h: int, t: int, u: int)
    requires
        0 < w <= sw,
        0 < h <= sh,
        0 <= t < h,
        0 <= u < w,
    ensures
        ds_state(pixels, sw, sh, w, h, (sw * sh) as nat)[t][u] is Some,
{
    lemma_ceil_source(t, h, sh);
    lemma_ceil_source(u, w, sw);
    let y = (t * sh + h - 1) / h;
    let x = (u * sw + w - 1) / w;
    lemma_ds_pixel_covers(pixels, sw, sh, w, h, x, y);
    assert(y * sw + x + 1 <= sw * sh) by (nonlinear_arith)
        requires
            0 <= y < sh && 0 <= x < sw,
    ;
    assert(sw * sh >= 0) by (nonlinear_arith)
        requires
            sw > 0 && sh > 0,
    ;
    lemma_ds_some_monotone(pixels, sw, sh, w, h, t, u, (y * sw + x + 1) as nat, (sw * sh) as nat);
}

/// Downsamples a row-major RGB byte stream of `sw` by `sh` source pixels
/// into a `w` by `h` grid of cells: each source pixel is folded into its
/// target cell (later arrivals blended in halfway, in row-major order) and
/// the accumulated colors are quantized.
pub fn downsampled_cells(pixels: &Vec<u8>, sw: usize, sh: usize, w: usize, h: usize) -> (cells:
    Vec<Vec<Cell>>)
    requires
        pixels@.len() == 3 * (sw * sh),
        0 < w <= sw,
        0 < h <= sh,
        w <= 0xFFFF,
        h <= 0xFFFF,
    ensures
        gview(cells@) == cell_grid(pixels@, sw as int, sh as int, w as int, h as int),
{
    let plen: usize = pixels.len();
    proof {
        assert(plen == pixels@.len());
    }
    let mut acc: Vec<Vec<Option<Color>>> = Vec::new();
    let mut yy: usize = 0;
    while yy < h
        invariant
            yy <= h,
            acc@.len() == yy,
            forall|i: int|
                0 <= i < yy ==> (#[trigger] acc@[i])@ == blank_grid(w as int, h as int)[i],
            forall|i: int| 0 <= i < yy ==> (#[trigger] acc@[i])@.len() == w,
        decreases h - yy,
    {
        let mut row: Vec<Option<Color>> = Vec::new();
        let mut xx: usize = 0;
        while xx < w
            invariant
                xx <= w,
                row@.len() == xx,
                forall|j: int| 0 <= j < xx ==> row@[j] is None,
            decreases w - xx,
        {
            row.push(None);
            xx = xx + 1;
        }
        assert(row@ =~= blank_grid(w as int, h as int)[yy as int]);
        acc.push(row);
        yy = yy + 1;
    }
    assert(oview(acc@) =~~= ds_state(pixels@, sw as int, sh as int, w as int, h as int, 0));

    let mut y: usize = 0;
    while y < sh
        invariant
            y <= sh,
            pixels@.len() == 3 * (sw * sh),
            pixels@.len() <= usize::MAX,
            0 < w <= sw,
            0 < h <= sh,
            w <= 0xFFFF,
            h <= 0xFFFF,
            acc@.len() == h,
            forall|i: int| 0 <= i < h ==> (#[trigger] acc@[i])@.len() == w,
            oview(acc@) == ds_state(
                pixels@,
                sw as int,
                sh as int,
                w as int,
                h as int,
                (y * sw) as nat,
            ),
        decreases sh - y,
    {
        let mut x: usize = 0;
        proof {
            assert(y * sw + 0 == y * sw);
        }
        while x < sw
            invariant
                x <= sw,
                y < sh,
                pixels@.len() == 3 * (sw * sh),
                pixels@.len() <= usize::MAX,
                0 < w <= sw,
                0 < h <= sh,
                w <= 0xFFFF,
                h <= 0xFFFF,
                acc@.len() == h,
                forall|i: int| 0 <= i < h ==> (#[trigger] acc@[i])@.len() == w,
                oview(acc@) == ds_state(
                    pixels@,
                    sw as int,
                    sh as int,
                    w as int,
                    h as int,
                    (y * sw + x) as nat,
                ),
            decreases sw - x,
        {
            let ghost k = y * sw + x;
            proof {
                assert(0 <= k && k < sw * sh) by (nonlinear_arith)
                    requires
                        k == y * sw + x && 0 <= x < sw && 0 <= y < sh,
                ;
                assert(3 * k + 2 < 3 * (sw * sh)) by (nonlinear_arith)
                    requires
                        0 <= k < sw * sh,
                ;
                lemma_fundamental_div_mod_converse(k as int, sw as int, y as int, x as int);
                assert(h * y < h * sh) by (nonlinear_arith)
                    requires
                        0 <= y < sh && h > 0,
                ;
                assert(h * sh == sh * h) by (nonlinear_arith);
                lemma_div_strict_bound(h * y, h as int, sh as int);
                assert(h * y >= 0) by (nonlinear_arith)
                    requires
                        h > 0 && y >= 0,
                ;
                lemma_div_nonneg(h * y, sh as int);
                assert(w * x < w * sw) by (nonlinear_arith)
                    requires
                        0 <= x < sw && w > 0,
                ;
                assert(w * sw == sw * w) by (nonlinear_arith);
                lemma_div_strict_bound(w * x, w as int, sw as int);
                assert(w * x >= 0) by (nonlinear_arith)
                    requires
                        w > 0 && x >= 0,
                ;
                lemma_div_nonneg(w * x, sw as int);
                assert((h as int) * (y as int) < 0x10000 * 0x10000000000000000) by (nonlinear_arith)
                    requires
                        0 <= h < 0x10000 && 0 <= y < 0x10000000000000000,
                ;
                assert((w as int) * (x as int) < 0x10000 * 0x10000000000000000) by (nonlinear_arith)
                    requires
                        0 <= w < 0x10000 && 0 <= x < 0x10000000000000000,
                ;
            }
            let idx: usize = 3 * (y * sw + x);
            let cr = pixels[idx];
            let cg = pixels[idx + 1];
            let cb = pixels[idx + 2];
            let c = Color::new(cr, cg, cb);
            proof {
                assert(c == pixel_color(pixels@, sw as int, x as int, y as int));
            }
            let ty: usize = ((h as u128 * y as u128) / (sh as u128)) as usize;
            let tx: usize = ((w as u128 * x as u128) / (sw as u128)) as usize;
            proof {
                assert(ty as int == (h as int) * (y as int) / (sh as int));
                assert(tx as int == (w as int) * (x as int) / (sw as int));
                assert(oview(acc@)[ty as int] == acc@[ty as int]@);
            }
            let cur = acc[ty][tx];
            let merged = match cur {
                None => c,
                Some(p) => p.shift(c, 500),
            };
            let ghost before = acc@;
            acc[ty][tx] = Some(merged);
            proof {
                assert(oview(acc@) =~~= ds_state(
                    pixels@,
                    sw as int,
                    sh as int,
                    w as int,
                    h as int,
                    (k + 1) as nat,
                ));
            }
            x = x + 1;
        }
        proof {
            assert(y * sw + sw == (y + 1) * sw) by (nonlinear_arith);
        }
        y = y + 1;
    }
    proof {
        assert(sh * sw == sw * sh) by (nonlinear_arith);
    }
    let ghost full = ds_state(
        pixels@,
        sw as int,
        sh as int,
        w as int,
        h as int,
        (sw * sh) as nat,
    );
    let ghost target = cell_grid(pixels@, sw as int, sh as int, w as int, h as int);

    let mut cells: Vec<Vec<Cell>> = Vec::new();
    let mut ty: usize = 0;
    while ty < h
        invariant
            ty <= h,
            0 < w <= sw,
            0 < h <= sh,
            acc@.len() == h,
            forall|i: int| 0 <= i < h ==> (#[trigger] acc@[i])@.len() == w,
            oview(acc@) == full,
            full == ds_state(pixels@, sw as int, sh as int, w as int, h as int, (sw * sh) as nat),
            target == cell_grid(pixels@, sw as int, sh as int, w as int, h as int),
            cells@.len() == ty,
            forall|i: int| 0 <= i < ty ==> (#[trigger] cells@[i])@ == target[i],
        decreases h - ty,
    {
        let mut row: Vec<Cell> = Vec::new();
        let mut tx: usize = 0;
        while tx < w
            invariant
                tx <= w,
                ty < h,
                0 < w <= sw,
                0 < h <= sh,
                acc@.len() == h,
                forall|i: int| 0 <= i < h ==> (#[trigger] acc@[i])@.len() == w,
                oview(acc@) == full,
                full == ds_state(
                    pixels@,
                    sw as int,
                    sh as int,
                    w as int,
                    h as int,
                    (sw * sh) as nat,
                ),
                target == cell_grid(pixels@, sw as int, sh as int, w as int, h as int),
                row@.len() == tx,
                forall|j: int| 0 <= j < tx ==> row@[j] == target[ty as int][j],
            decreases w - tx,
        {
            proof {
                assert(oview(acc@)[ty as int] == acc@[ty as int]@);
                lemma_ds_full(
                    pixels@,
                    sw as int,
                    sh as int,
                    w as int,
                    h as int,
                    ty as int,
                    tx as int,
                );
            }
            let cell = match acc[ty][tx] {
                Some(col) => Cell::from_color(col),
                None => unreached(),
            };
            row.push(cell);
            tx = tx + 1;
        }
        assert(row@ =~= target[ty as int]);
        cells.push(row);
        ty = ty + 1;
    }
    assert(gview(cells@) =~~= target);
    cells
}

/// What decoding a byte stream as an 8-bit RGB JPEG yields: the raw pixel
/// bytes with their width and height, or nothing when the stream does not
/// decode to that format. The outcome is a function of the bytes alone;
/// its value on given bytes is left unstated.
pub uninterp spec fn jpeg_rgb24_of(data: Seq<u8>) -> Option<(Seq<u8>, int, int)>;

/// The decoded view of a decoder result: the pixel bytes and dimensions as
/// mathematical values.
pub open spec fn decoded_view(r: Option<(Vec<u8>, u16, u16)>) -> Option<(Seq<u8>, int, int)> {
    match r {
        Some(t) => Some((t.0@, t.1 as int, t.2 as int)),
        None => None,
    }
}

/// Relies on jpeg_decoder's `Decoder`: `decode` parses a JPEG byte stream
/// into raw pixel data, and `info` reports the decoded dimensions and pixel
/// format, both functions of the byte stream alone. Only 8-bit RGB output
/// (three bytes per pixel, row-major) is accepted; anything else, or a
/// decode failure, yields nothing.
#[verifier::external_body]
fn decode_rgb24(data: &Vec<u8>) -> (r: Option<(Vec<u8>, u16, u16)>)
    ensures
        decoded_view(r) == jpeg_rgb24_of(data@),
{
    let mut decoder = jpeg_decoder::Decoder::new(&data[..]);
    let pixels = match decoder.decode() {
        Ok(p) => p,
        Err(_) => return None,
    };
    let info = match decoder.info() {
        Some(i) => i,
        None => return None,
    };
    if info.pixel_format != jpeg_decoder::PixelFormat::RGB24 {
        return None;
    }
    Some((pixels, info.width, info.height))
}

/// Decodes a JPEG byte stream and downsamples it into a `width` by
/// `height` canvas. A canvas comes back exactly when the stream decodes to
/// 8-bit RGB of consistent size at least as large as the requested grid on
/// both axes; its grid is then the quantized downsampling of the decoded
/// pixels. The original panicked on an image smaller than the grid; here
/// that case yields nothing instead.
pub fn load_canvas(data: &Vec<u8>, width: usize, height: usize) -> (r: Option<Canvas>)
    requires
        0 < width <= 0xFFFF,
        0 < height <= 0xFFFF,
    ensures
        r is Some <==> (jpeg_rgb24_of(data@) matches Some(t) && t.1 >= width && t.2 >= height
            && t.0.len() == 3 * (t.1 * t.2)),
        r matches Some(c) ==> (jpeg_rgb24_of(data@) matches Some(t) && {
            &&& c.wf()
            &&& c.height_spec() == height
            &&& c.width_spec() == width
            &&& c.pending_spec().len() == 0
            &&& c.prev_grid() is None
            &&& c.grid() == cell_grid(t.0, t.1, t.2, width as int, height as int)
        }),
{
    let decoded = decode_rgb24(data);
    let (pixels, sw16, sh16) = match decoded {
        Some(t) => t,
        None => return None,
    };
    let sw = sw16 as usize;
    let sh = sh16 as usize;
    if sw < width || sh < height {
        return None;
    }
    proof {
        assert((sw as int) * (sh as int) <= 0xFFFF * 0xFFFF) by (nonlinear_arith)
            requires
                0 <= sw <= 0xFFFF && 0 <= sh <= 0xFFFF,
        ;
    }
    let expected: u64 = 3 * ((sw as u64) * (sh as u64));
    if (pixels.len() as u64) != expected {
        return None;
    }
    let cells = downsampled_cells(&pixels, sw, sh, width, height);
    proof {
        assert(gview(cells@).len() == height);
        assert forall|y: int|
            0 <= y < gview(cells@).len() implies (#[trigger] gview(cells@)[y]).len() == gview(
            cells@,
        )[0].len() by {
            assert(gview(cells@)[y].len() == width);
            assert(gview(cells@)[0].len() == width);
        }
    }
    let canvas = Canvas::from_cells(cells);
    Some(canvas)
}

} // verus!
