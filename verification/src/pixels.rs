//! Pixel buffers: straight RGBA images and premultiplied BGRA drawing surfaces.
//!
//! An image is `width * height` pixels of four bytes `R G B A`, row after row.
//! A surface row holds `width` pixels of four bytes `B G R A`, color scaled by
//! alpha, and is padded with zero bytes up to `stride` bytes.

use vstd::prelude::*;

verus! {

/// A channel scaled by alpha, rounded: `(c * a + 127) / 255`.
pub open spec fn premul(c: u8, a: u8) -> u8 {
    ((c * a + 127) / 255) as u8
}

/// A premultiplied channel scaled back: raw when alpha is 0 or 255, else
/// `(c * 255 + a / 2) / a`, kept to its low 8 bits.
pub open spec fn unpremul(c: u8, a: u8) -> u8 {
    if a == 0 || a == 255 {
        c
    } else {
        ((c * 255 + a / 2) / (a as int)) as u8
    }
}

/// One `R G B A` pixel as premultiplied `B G R A`.
pub open spec fn premul_pixel(p: Seq<u8>) -> Seq<u8> {
    seq![premul(p[2], p[3]), premul(p[1], p[3]), premul(p[0], p[3]), p[3]]
}

/// One premultiplied `B G R A` pixel as straight `R G B A`.
pub open spec fn unpremul_pixel(d: Seq<u8>) -> Seq<u8> {
    seq![unpremul(d[2], d[3]), unpremul(d[1], d[3]), unpremul(d[0], d[3]), d[3]]
}

/// Every whole pixel of `px` converted by `premul_pixel`, in order.
pub open spec fn premul_pixels(px: Seq<u8>) -> Seq<u8>
    decreases px.len(),
{
    if px.len() < 4 {
        Seq::empty()
    } else {
        premul_pixels(px.subrange(0, px.len() - 4)) + premul_pixel(
            px.subrange(px.len() - 4, px.len() as int),
        )
    }
}

/// Every whole pixel of `d` converted by `unpremul_pixel`, in order.
pub open spec fn unpremul_pixels(d: Seq<u8>) -> Seq<u8>
    decreases d.len(),
{
    if d.len() < 4 {
        Seq::empty()
    } else {
        unpremul_pixels(d.subrange(0, d.len() - 4)) + unpremul_pixel(
            d.subrange(d.len() - 4, d.len() as int),
        )
    }
}

/// `n` zero bytes.
pub open spec fn zeros(n: nat) -> Seq<u8> {
    Seq::new(n, |i: int| 0u8)
}

/// The surface of `rows` rows of `row_bytes` image bytes each, every row
/// padded with zeros to `stride` bytes.
pub open spec fn surface_of(px: Seq<u8>, row_bytes: nat, stride: nat, rows: nat) -> Seq<u8>
    decreases rows,
{
    if rows == 0 || px.len() < row_bytes {
        Seq::empty()
    } else {
        premul_pixels(px.subrange(0, row_bytes as int)) + zeros((stride - row_bytes) as nat)
            + surface_of(px.subrange(row_bytes as int, px.len() as int), row_bytes, stride, (rows - 1) as nat)
    }
}

/// The image held by `rows` surface rows of `stride` bytes each, of which the
/// first `row_bytes` hold pixels.
pub open spec fn image_of(data: Seq<u8>, row_bytes: nat, stride: nat, rows: nat) -> Seq<u8>
    decreases rows,
{
    if rows == 0 || data.len() < stride || stride < row_bytes {
        Seq::empty()
    } else {
        unpremul_pixels(data.subrange(0, row_bytes as int)) + image_of(
            data.subrange(stride as int, data.len() as int),
            row_bytes,
            stride,
            (rows - 1) as nat,
        )
    }
}

proof fn lemma_premul_pixels_step(px: Seq<u8>, lo: int, n: int)
    requires
        0 <= lo,
        0 <= n,
        lo + 4 * n + 4 <= px.len(),
    ensures
        premul_pixels(px.subrange(lo, lo + 4 * n + 4)) == premul_pixels(px.subrange(lo, lo + 4 * n))
            + premul_pixel(px.subrange(lo + 4 * n, lo + 4 * n + 4)),
{
    let s = px.subrange(lo, lo + 4 * n + 4);
    assert(s.subrange(0, s.len() - 4) =~= px.subrange(lo, lo + 4 * n));
    assert(s.subrange(s.len() - 4, s.len() as int) =~= px.subrange(lo + 4 * n, lo + 4 * n + 4));
}

proof fn lemma_unpremul_pixels_step(d: Seq<u8>, lo: int, n: int)
    requires
        0 <= lo,
        0 <= n,
        lo + 4 * n + 4 <= d.len(),
    ensures
        unpremul_pixels(d.subrange(lo, lo + 4 * n + 4)) == unpremul_pixels(d.subrange(lo, lo + 4 * n))
            + unpremul_pixel(d.subrange(lo + 4 * n, lo + 4 * n + 4)),
{
    let s = d.subrange(lo, lo + 4 * n + 4);
    assert(s.subrange(0, s.len() - 4) =~= d.subrange(lo, lo + 4 * n));
    assert(s.subrange(s.len() - 4, s.len() as int) =~= d.subrange(lo + 4 * n, lo + 4 * n + 4));
}

proof fn lemma_premul_len(px: Seq<u8>)
    requires
        px.len() % 4 == 0,
    ensures
        premul_pixels(px).len() == px.len(),
    decreases px.len(),
{
    if px.len() >= 4 {
        lemma_premul_len(px.subrange(0, px.len() - 4));
    }
}

proof fn lemma_unpremul_len(d: Seq<u8>)
    requires
        d.len() % 4 == 0,
    ensures
        unpremul_pixels(d).len() == d.len(),
    decreases d.len(),
{
    if d.len() >= 4 {
        lemma_unpremul_len(d.subrange(0, d.len() - 4));
    }
}

proof fn lemma_mul_step(a: int, b: int)
    ensures
        a * (b + 1) == a * b + a,
{
    assert(a * (b + 1) == a * b + a) by (nonlinear_arith);
}

proof fn lemma_mul_le(a: int, b: int, c: int)
    requires
        0 <= a,
        0 <= b <= c,
    ensures
        a * b <= a * c,
{
    assert(a * b <= a * c) by (nonlinear_arith)
        requires
            0 <= a,
            0 <= b <= c,
    ;
}

fn premul_byte(c: u8, a: u8) -> (r: u8)
    ensures
        r == premul(c, a),
{
    assert(c as u32 * a as u32 <= 255 * 255) by (nonlinear_arith)
        requires
            c < 256,
            a < 256,
    ;
    let v: u32 = (c as u32 * a as u32 + 127) / 255;
    v as u8
}

fn unpremul_byte(c: u8, a: u8) -> (r: u8)
    ensures
        r == unpremul(c, a),
{
    if a == 0 || a == 255 {
        c
    } else {
        let v: u32 = (c as u32 * 255 + a as u32 / 2) / a as u32;
        v as u8
    }
}

/// An image of `width` x `height` pixels as a drawing surface with rows of
/// `stride` bytes (the conversion done before painting a screenshot).
pub fn to_surface(rgba: &Vec<u8>, width: usize, height: usize, stride: usize) -> (out: Vec<u8>)
    requires
        rgba@.len() == 4 * width * height,
        4 * width <= stride,
        stride * height <= usize::MAX,
    ensures
        out@ == surface_of(rgba@, 4 * width as nat, stride as nat, height as nat),
        out@.len() == stride * height,
{
    let total = rgba.len();
    let row_bytes = 4 * width;
    let ghost px = rgba@;
    let mut out: Vec<u8> = Vec::new();
    let mut src: usize = 0;
    let mut y: usize = 0;
    proof {
        lemma_mul_le(stride as int, 0, height as int);
        assert(px.subrange(0, px.len() as int) =~= px);
        assert(out@ + surface_of(px, row_bytes as nat, stride as nat, height as nat) =~= surface_of(
            px,
            row_bytes as nat,
            stride as nat,
            height as nat,
        ));
    }
    while y < height
        invariant
            px == rgba@,
            total == px.len(),
            row_bytes == 4 * width,
            row_bytes <= stride,
            stride * height <= usize::MAX,
            y <= height,
            px.len() == row_bytes * height,
            src == row_bytes * y,
            out@.len() == stride * y,
            surface_of(px, row_bytes as nat, stride as nat, height as nat) == out@ + surface_of(
                px.subrange(src as int, px.len() as int),
                row_bytes as nat,
                stride as nat,
                (height - y) as nat,
            ),
        decreases height - y,
    {
        proof {
            lemma_mul_step(row_bytes as int, y as int);
            lemma_mul_le(row_bytes as int, (y + 1) as int, height as int);
            lemma_mul_step(stride as int, y as int);
            lemma_mul_le(stride as int, (y + 1) as int, height as int);
        }
        let ghost before = out@;
        let ghost rest = px.subrange(src as int, px.len() as int);
        let mut x: usize = 0;
        while x < width
            invariant
                px == rgba@,
                total == px.len(),
                row_bytes == 4 * width,
                x <= width,
                src + row_bytes <= px.len(),
                out@ == before + premul_pixels(px.subrange(src as int, src + 4 * x)),
            decreases width - x,
        {
            let i = src + 4 * x;
            let a = rgba[i + 3];
            out.push(premul_byte(rgba[i + 2], a));
            out.push(premul_byte(rgba[i + 1], a));
            out.push(premul_byte(rgba[i], a));
            out.push(a);
            proof {
                lemma_premul_pixels_step(px, src as int, x as int);
                assert(out@ =~= before + premul_pixels(px.subrange(src as int, src + 4 * x + 4)));
            }
            x = x + 1;
        }
        let mut k: usize = row_bytes;
        while k < stride
            invariant
                row_bytes <= k <= stride,
                out@ == before + premul_pixels(px.subrange(src as int, src + row_bytes)) + zeros(
                    (k - row_bytes) as nat,
                ),
            decreases stride - k,
        {
            out.push(0u8);
            k = k + 1;
            assert(out@ =~= before + premul_pixels(px.subrange(src as int, src + row_bytes)) + zeros(
                (k - row_bytes) as nat,
            ));
        }
        proof {
            assert(rest.subrange(0, row_bytes as int) =~= px.subrange(src as int, src + row_bytes));
            assert(rest.subrange(row_bytes as int, rest.len() as int) =~= px.subrange(
                src + row_bytes,
                px.len() as int,
            ));
            lemma_premul_len(px.subrange(src as int, src + row_bytes));
            assert(out@.len() == stride * y + stride);
        }
        src = src + row_bytes;
        y = y + 1;
        assert(out@ =~= before + premul_pixels(rest.subrange(0, row_bytes as int)) + zeros(
            (stride - row_bytes) as nat,
        ));
    }
    out
}

/// A drawing surface of `width` x `height` pixels with rows of `stride` bytes,
/// back as a straight RGBA image (the conversion done on the final picture).
pub fn to_image(data: &Vec<u8>, width: usize, height: usize, stride: usize) -> (out: Vec<u8>)
    requires
        4 * width <= stride,
        data@.len() == stride * height,
    ensures
        out@ == image_of(data@, 4 * width as nat, stride as nat, height as nat),
        out@.len() == 4 * width * height,
{
    let total = data.len();
    let row_bytes = 4 * width;
    let ghost d = data@;
    let mut out: Vec<u8> = Vec::new();
    let mut src: usize = 0;
    let mut y: usize = 0;
    proof {
        assert(d.subrange(0, d.len() as int) =~= d);
        assert(out@ + image_of(d, row_bytes as nat, stride as nat, height as nat) =~= image_of(
            d,
            row_bytes as nat,
            stride as nat,
            height as nat,
        ));
        lemma_mul_le(stride as int, 0, height as int);
    }
    while y < height
        invariant
            d == data@,
            total == d.len(),
            row_bytes == 4 * width,
            row_bytes <= stride,
            y <= height,
            d.len() == stride * height,
            src == stride * y,
            out@.len() == row_bytes * y,
            image_of(d, row_bytes as nat, stride as nat, height as nat) == out@ + image_of(
                d.subrange(src as int, d.len() as int),
                row_bytes as nat,
                stride as nat,
                (height - y) as nat,
            ),
        decreases height - y,
    {
        proof {
            lemma_mul_step(stride as int, y as int);
            lemma_mul_le(stride as int, (y + 1) as int, height as int);
            lemma_mul_step(row_bytes as int, y as int);
        }
        let ghost before = out@;
        let ghost rest = d.subrange(src as int, d.len() as int);
        let mut x: usize = 0;
        while x < width
            invariant
                d == data@,
                total == d.len(),
                row_bytes == 4 * width,
                row_bytes <= stride,
                x <= width,
                src + stride <= d.len(),
                out@ == before + unpremul_pixels(d.subrange(src as int, src + 4 * x)),
            decreases width - x,
        {
            let i = src + 4 * x;
            let a = data[i + 3];
            out.push(unpremul_byte(data[i + 2], a));
            out.push(unpremul_byte(data[i + 1], a));
            out.push(unpremul_byte(data[i], a));
            out.push(a);
            proof {
                lemma_unpremul_pixels_step(d, src as int, x as int);
                assert(out@ =~= before + unpremul_pixels(d.subrange(src as int, src + 4 * x + 4)));
            }
            x = x + 1;
        }
        proof {
            assert(rest.subrange(0, row_bytes as int) =~= d.subrange(src as int, src + row_bytes));
            assert(rest.subrange(stride as int, rest.len() as int) =~= d.subrange(
                src + stride,
                d.len() as int,
            ));
            lemma_unpremul_len(d.subrange(src as int, src + row_bytes));
            assert(out@ =~= before + unpremul_pixels(rest.subrange(0, row_bytes as int)));
        }
        src = src + stride;
        y = y + 1;
    }
    proof {
        assert(out@.len() == row_bytes * height);
    }
    out
}

/// The pixel whose alpha is byte `i` of `px` is opaque, or transparent black.
pub open spec fn kept_pixel(px: Seq<u8>, i: int) -> bool {
    px[i] == 255 || (px[i] == 0 && px[i - 1] == 0 && px[i - 2] == 0 && px[i - 3] == 0)
}

/// Every pixel of `px` is opaque or transparent black: the pixels that
/// premultiplying does not alter.
pub open spec fn unaltered(px: Seq<u8>) -> bool {
    forall|i: int| 0 <= i < px.len() && i % 4 == 3 ==> #[trigger] kept_pixel(px, i)
}

proof fn lemma_pixel_round_trip(p: Seq<u8>)
    requires
        p.len() == 4,
        kept_pixel(p, 3),
    ensures
        unpremul_pixel(premul_pixel(p)) == p,
{
    assert forall|c: u8| #[trigger] premul(c, 255) == c by {
        assert((c * 255 + 127) / 255 == c) by (nonlinear_arith)
            requires
                c < 256,
        ;
    }
    assert(premul(0, 0) == 0);
    assert(unpremul_pixel(premul_pixel(p)) =~= p);
}

proof fn lemma_pixels_round_trip(px: Seq<u8>)
    requires
        px.len() % 4 == 0,
        unaltered(px),
    ensures
        unpremul_pixels(premul_pixels(px)) == px,
        premul_pixels(px).len() == px.len(),
    decreases px.len(),
{
    if px.len() >= 4 {
        let head = px.subrange(0, px.len() - 4);
        let last = px.subrange(px.len() - 4, px.len() as int);
        assert(unaltered(head)) by {
            assert forall|i: int| 0 <= i < head.len() && i % 4 == 3 implies #[trigger] kept_pixel(head, i) by {
                assert(kept_pixel(px, i));
                assert(head[i] == px[i] && head[i - 1] == px[i - 1] && head[i - 2] == px[i - 2] && head[i - 3] == px[i - 3]);
            }
        }
        assert(kept_pixel(px, px.len() - 1));
        assert(last[3] == px[px.len() - 1] && last[2] == px[px.len() - 2] && last[1] == px[px.len() - 3] && last[0] == px[px.len() - 4]);
        lemma_pixels_round_trip(head);
        lemma_pixel_round_trip(last);
        let q = premul_pixels(px);
        assert(q == premul_pixels(head) + premul_pixel(last));
        assert(q.subrange(0, q.len() - 4) =~= premul_pixels(head));
        assert(q.subrange(q.len() - 4, q.len() as int) =~= premul_pixel(last));
        assert(unpremul_pixels(q) == unpremul_pixels(premul_pixels(head)) + unpremul_pixel(
            premul_pixel(last),
        ));
        assert(head + last =~= px);
    } else {
        assert(px.len() == 0);
    }
}

/// An image whose pixels are all opaque or transparent black, turned into a
/// drawing surface and back, is the same image: a screenshot keeps its pixels
/// through the editor.
pub proof fn lemma_surface_round_trip(px: Seq<u8>, width: nat, stride: nat, height: nat)
    requires
        px.len() == 4 * width * height,
        4 * width <= stride,
        unaltered(px),
    ensures
        image_of(surface_of(px, 4 * width, stride, height), 4 * width, stride, height) == px,
    decreases height,
{
    let rb = 4 * width;
    if height > 0 {
        lemma_mul_step(rb as int, height - 1);
        let row = px.subrange(0, rb as int);
        let rest = px.subrange(rb as int, px.len() as int);
        assert(unaltered(row)) by {
            assert forall|i: int| 0 <= i < row.len() && i % 4 == 3 implies #[trigger] kept_pixel(row, i) by {
                assert(kept_pixel(px, i));
                assert(row[i] == px[i] && row[i - 1] == px[i - 1] && row[i - 2] == px[i - 2] && row[i - 3] == px[i - 3]);
            }
        }
        assert(unaltered(rest)) by {
            assert forall|i: int| 0 <= i < rest.len() && i % 4 == 3 implies #[trigger] kept_pixel(rest, i) by {
                assert((i + rb) % 4 == 3);
                assert(kept_pixel(px, i + rb));
                assert(rest[i] == px[i + rb] && rest[i - 1] == px[i - 1 + rb] && rest[i - 2] == px[i - 2 + rb] && rest[i - 3] == px[i - 3 + rb]);
            }
        }
        assert(row.len() % 4 == 0);
        lemma_pixels_round_trip(row);
        lemma_surface_round_trip(rest, width, stride, (height - 1) as nat);
        let s = surface_of(px, rb, stride, height);
        let pr = premul_pixels(row);
        let tail = surface_of(rest, rb, stride, (height - 1) as nat);
        assert(s == pr + zeros((stride - rb) as nat) + tail);
        assert(s.len() >= stride);
        assert(s.subrange(0, rb as int) =~= pr);
        assert(s.subrange(stride as int, s.len() as int) =~= tail);
        assert(row + rest =~= px);
    } else {
        assert(px.len() == 0) by {
            assert(4 * width * 0 == 0);
        }
    }
}


// ---------------------------------------------------------------------------
// Pixelation
// ---------------------------------------------------------------------------
/// Channel `c` of the image pixel at `(x, y)`.
pub open spec fn pix(base: Seq<u8>, iw: nat, x: nat, y: nat, c: nat) -> nat {
    base[((y * iw + x) * 4 + c) as int] as nat
}

/// Sum of channel `c` over the pixels `xa..xb` of row `y`.
pub open spec fn row_sum(base: Seq<u8>, iw: nat, y: nat, xa: nat, xb: nat, c: nat) -> nat
    decreases xb - xa,
{
    if xb <= xa {
        0
    } else {
        row_sum(base, iw, y, xa, (xb - 1) as nat, c) + pix(base, iw, (xb - 1) as nat, y, c)
    }
}

/// Sum of channel `c` over the pixels `xa..xb` of the rows `ya..yb`.
pub open spec fn area_sum(base: Seq<u8>, iw: nat, xa: nat, xb: nat, ya: nat, yb: nat, c: nat) -> nat
    decreases yb - ya,
{
    if yb <= ya {
        0
    } else {
        area_sum(base, iw, xa, xb, ya, (yb - 1) as nat, c) + row_sum(base, iw, (yb - 1) as nat, xa, xb, c)
    }
}

/// The mean color of the pixels `xa..xb` x `ya..yb`, as an opaque `B G R A` pixel.
pub open spec fn mean_pixel(base: Seq<u8>, iw: nat, xa: nat, xb: nat, ya: nat, yb: nat) -> Seq<u8> {
    let n: nat = ((xb - xa) * (yb - ya)) as nat;
    seq![
        (area_sum(base, iw, xa, xb, ya, yb, 2) / n) as u8,
        (area_sum(base, iw, xa, xb, ya, yb, 1) / n) as u8,
        (area_sum(base, iw, xa, xb, ya, yb, 0) / n) as u8,
        255u8,
    ]
}

pub open spec fn min_nat(a: nat, b: nat) -> nat {
    if a <= b {
        a
    } else {
        b
    }
}

/// The first `k` blocks of the block row covering the image rows `ya..yb`:
/// block `j` covers the columns `x0 + j*b .. x0 + min((j+1)*b, w)`.
pub open spec fn block_row(
    base: Seq<u8>,
    iw: nat,
    x0: nat,
    w: nat,
    b: nat,
    ya: nat,
    yb: nat,
    k: nat,
) -> Seq<u8>
    decreases k,
{
    if k == 0 {
        Seq::empty()
    } else {
        let j = (k - 1) as nat;
        block_row(base, iw, x0, w, b, ya, yb, j) + mean_pixel(
            base,
            iw,
            x0 + j * b,
            x0 + min_nat((j + 1) * b, w),
            ya,
            yb,
        )
    }
}

/// The first `k` rows of the pixelated surface of the region `x0, y0, w, h`
/// in blocks of `b` pixels: `bw` blocks a row, each row padded with zeros to
/// `stride` bytes; block row `i` covers the image rows `y0 + i*b .. y0 + min((i+1)*b, h)`.
pub open spec fn pixelated(
    base: Seq<u8>,
    iw: nat,
    x0: nat,
    y0: nat,
    w: nat,
    h: nat,
    b: nat,
    bw: nat,
    stride: nat,
    k: nat,
) -> Seq<u8>
    decreases k,
{
    if k == 0 {
        Seq::empty()
    } else {
        let i = (k - 1) as nat;
        pixelated(base, iw, x0, y0, w, h, b, bw, stride, i) + block_row(
            base,
            iw,
            x0,
            w,
            b,
            y0 + i * b,
            y0 + min_nat((i + 1) * b, h),
            bw,
        ) + zeros((stride - 4 * bw) as nat)
    }
}

/// How many blocks of `b` pixels cover `n` pixels.
pub open spec fn blocks(n: nat, b: nat) -> nat {
    ((n + b - 1) / b as int) as nat
}

/// The number of blocks across and down for a `w` x `h` region.
pub fn block_grid(w: usize, h: usize, b: usize) -> (r: (usize, usize))
    requires
        b >= 1,
        w + b <= usize::MAX,
        h + b <= usize::MAX,
    ensures
        r.0 == blocks(w as nat, b as nat),
        r.1 == blocks(h as nat, b as nat),
{
    ((w + b - 1) / b, (h + b - 1) / b)
}

proof fn lemma_pixel_index(iw: nat, ih: nat, x: nat, y: nat)
    requires
        x < iw,
        y < ih,
    ensures
        (y * iw + x) * 4 + 3 < 4 * iw * ih,
{
    assert((y * iw + x) * 4 + 3 < 4 * iw * ih) by (nonlinear_arith)
        requires
            x < iw,
            y < ih,
    ;
}

proof fn lemma_row_sum_bound(base: Seq<u8>, iw: nat, y: nat, xa: nat, xb: nat, c: nat)
    ensures
        row_sum(base, iw, y, xa, xb, c) <= 255 * (if xb > xa {
            (xb - xa) as nat
        } else {
            0
        }),
    decreases xb - xa,
{
    if xb > xa {
        lemma_row_sum_bound(base, iw, y, xa, (xb - 1) as nat, c);
        let i = ((y * iw + (xb - 1) as nat) * 4 + c) as int;
        let v: u8 = base[i];
        assert(pix(base, iw, (xb - 1) as nat, y, c) <= 255);
    }
}

proof fn lemma_area_sum_bound(base: Seq<u8>, iw: nat, xa: nat, xb: nat, ya: nat, yb: nat, c: nat)
    requires
        xa <= xb,
        ya <= yb,
    ensures
        area_sum(base, iw, xa, xb, ya, yb, c) <= 255 * ((xb - xa) * (yb - ya)),
    decreases yb - ya,
{
    if yb > ya {
        lemma_area_sum_bound(base, iw, xa, xb, ya, (yb - 1) as nat, c);
        lemma_row_sum_bound(base, iw, (yb - 1) as nat, xa, xb, c);
        let d = (xb - xa) as nat;
        assert(255 * (d * ((yb - 1) - ya)) + 255 * d == 255 * (d * (yb - ya))) by (nonlinear_arith);
    }
}

proof fn lemma_block_start(j: nat, b: nat, n: nat, count: nat)
    requires
        b >= 1,
        count == blocks(n, b),
        j < count,
    ensures
        j * b < n,
        min_nat((j + 1) * b, n) <= j * b + b,
        j * b < min_nat((j + 1) * b, n),
{
    assert(j * b < n) by (nonlinear_arith)
        requires
            b >= 1,
            count == (n + b - 1) / (b as int),
            j < count,
    ;
    assert((j + 1) * b == j * b + b) by (nonlinear_arith);
}

/// Sums channel `c`, `c + 1`, `c + 2` (R, G, B) over row `y`, pixels `xa..xb`.
fn sum_row(base: &Vec<u8>, iw: usize, ih: usize, y: usize, xa: usize, xb: usize) -> (r: (u64, u64, u64))
    requires
        base@.len() == 4 * iw * ih,
        xa <= xb <= iw,
        y < ih,
        255 * iw <= u64::MAX,
    ensures
        r.0 == row_sum(base@, iw as nat, y as nat, xa as nat, xb as nat, 0),
        r.1 == row_sum(base@, iw as nat, y as nat, xa as nat, xb as nat, 1),
        r.2 == row_sum(base@, iw as nat, y as nat, xa as nat, xb as nat, 2),
{
    let total = base.len();
    proof {
        assert(y * iw + iw <= iw * ih) by (nonlinear_arith)
            requires
                y < ih,
        ;
        assert(4 * iw * ih == 4 * (iw * ih)) by (nonlinear_arith);
    }
    let row: usize = y * iw;
    let mut sr: u64 = 0;
    let mut sg: u64 = 0;
    let mut sb: u64 = 0;
    let mut x = xa;
    while x < xb
        invariant
            total == base@.len(),
            base@.len() == 4 * iw * ih,
            xa <= x <= xb <= iw,
            y < ih,
            row == y * iw,
            255 * iw <= u64::MAX,
            sr == row_sum(base@, iw as nat, y as nat, xa as nat, x as nat, 0),
            sg == row_sum(base@, iw as nat, y as nat, xa as nat, x as nat, 1),
            sb == row_sum(base@, iw as nat, y as nat, xa as nat, x as nat, 2),
        decreases xb - x,
    {
        proof {
            lemma_pixel_index(iw as nat, ih as nat, x as nat, y as nat);
            lemma_row_sum_bound(base@, iw as nat, y as nat, xa as nat, x as nat, 0);
            lemma_row_sum_bound(base@, iw as nat, y as nat, xa as nat, x as nat, 1);
            lemma_row_sum_bound(base@, iw as nat, y as nat, xa as nat, x as nat, 2);
            assert(255 * (x - xa) <= 255 * iw) by (nonlinear_arith)
                requires
                    x - xa <= iw,
            ;
            assert(4 * iw * ih <= usize::MAX);
        }
        let i = (row + x) * 4;
        sr = sr + base[i] as u64;
        sg = sg + base[i + 1] as u64;
        sb = sb + base[i + 2] as u64;
        x = x + 1;
    }
    (sr, sg, sb)
}

proof fn lemma_area_le(a: nat, b: nat, w: nat, h: nat)
    requires
        a <= w,
        b <= h,
    ensures
        a * b <= w * h,
        255 * (a * b) <= 255 * (w * h),
{
    assert(a * b <= w * h) by (nonlinear_arith)
        requires
            a <= w,
            b <= h,
    ;
}

/// Sums the R, G and B channels over the pixels `xa..xb` x `ya..yb`.
fn sum_area(base: &Vec<u8>, iw: usize, ih: usize, xa: usize, xb: usize, ya: usize, yb: usize) -> (r: (
    u64,
    u64,
    u64,
))
    requires
        base@.len() == 4 * iw * ih,
        xa <= xb <= iw,
        ya <= yb <= ih,
        255 * iw <= u64::MAX,
        255 * ((xb - xa) * (yb - ya)) <= u64::MAX,
    ensures
        r.0 == area_sum(base@, iw as nat, xa as nat, xb as nat, ya as nat, yb as nat, 0),
        r.1 == area_sum(base@, iw as nat, xa as nat, xb as nat, ya as nat, yb as nat, 1),
        r.2 == area_sum(base@, iw as nat, xa as nat, xb as nat, ya as nat, yb as nat, 2),
{
    let mut sr: u64 = 0;
    let mut sg: u64 = 0;
    let mut sb: u64 = 0;
    let mut y = ya;
    while y < yb
        invariant
            base@.len() == 4 * iw * ih,
            xa <= xb <= iw,
            ya <= y <= yb <= ih,
            255 * iw <= u64::MAX,
            255 * ((xb - xa) * (yb - ya)) <= u64::MAX,
            sr == area_sum(base@, iw as nat, xa as nat, xb as nat, ya as nat, y as nat, 0),
            sg == area_sum(base@, iw as nat, xa as nat, xb as nat, ya as nat, y as nat, 1),
            sb == area_sum(base@, iw as nat, xa as nat, xb as nat, ya as nat, y as nat, 2),
        decreases yb - y,
    {
        let (r, g, b) = sum_row(base, iw, ih, y, xa, xb);
        proof {
            lemma_area_sum_bound(base@, iw as nat, xa as nat, xb as nat, ya as nat, (y + 1) as nat, 0);
            lemma_area_sum_bound(base@, iw as nat, xa as nat, xb as nat, ya as nat, (y + 1) as nat, 1);
            lemma_area_sum_bound(base@, iw as nat, xa as nat, xb as nat, ya as nat, (y + 1) as nat, 2);
            lemma_area_le((xb - xa) as nat, (y + 1 - ya) as nat, (xb - xa) as nat, (yb - ya) as nat);
        }
        sr = sr + r;
        sg = sg + g;
        sb = sb + b;
        y = y + 1;
    }
    (sr, sg, sb)
}

/// The pixelated surface of the image region `x0, y0, w, h` in blocks of `b`
/// pixels: each block painted with the mean color of the pixels it covers,
/// `blocks(w, b)` blocks a row, rows padded with zeros to `stride` bytes.
pub fn pixelate(
    base: &Vec<u8>,
    iw: usize,
    ih: usize,
    x0: usize,
    y0: usize,
    w: usize,
    h: usize,
    b: usize,
    stride: usize,
) -> (out: Vec<u8>)
    requires
        base@.len() == 4 * iw * ih,
        x0 + w <= iw,
        y0 + h <= ih,
        b >= 1,
        w + b <= usize::MAX,
        h + b <= usize::MAX,
        4 * blocks(w as nat, b as nat) <= stride,
        stride * blocks(h as nat, b as nat) <= usize::MAX,
        255 * iw <= u64::MAX,
        255 * (w * h) <= u64::MAX,
    ensures
        out@ == pixelated(
            base@,
            iw as nat,
            x0 as nat,
            y0 as nat,
            w as nat,
            h as nat,
            b as nat,
            blocks(w as nat, b as nat),
            stride as nat,
            blocks(h as nat, b as nat),
        ),
{
    let (bw, bh) = block_grid(w, h, b);
    let ghost gw = bw as nat;
    let mut out: Vec<u8> = Vec::new();
    let mut by: usize = 0;
    let mut ys: usize = 0;
    while by < bh
        invariant
            base@.len() == 4 * iw * ih,
            x0 + w <= iw,
            y0 + h <= ih,
            b >= 1,
            w + b <= usize::MAX,
            h + b <= usize::MAX,
            bw == blocks(w as nat, b as nat),
            bh == blocks(h as nat, b as nat),
            gw == bw as nat,
            4 * bw <= stride,
            255 * iw <= u64::MAX,
            255 * (w * h) <= u64::MAX,
            by <= bh,
            ys == by * b,
            out@ == pixelated(base@, iw as nat, x0 as nat, y0 as nat, w as nat, h as nat, b as nat, gw, stride as nat, by as nat),
        decreases bh - by,
    {
        proof {
            lemma_block_start(by as nat, b as nat, h as nat, bh as nat);
            assert((by + 1) * b == by * b + b) by (nonlinear_arith);
        }
        let ye = if ys + b < h {
            ys + b
        } else {
            h
        };
        assert(ye == min_nat(((by + 1) * b) as nat, h as nat));
        let ghost before = out@;
        let mut bx: usize = 0;
        let mut xs: usize = 0;
        while bx < bw
            invariant
                base@.len() == 4 * iw * ih,
                x0 + w <= iw,
                y0 + h <= ih,
                b >= 1,
                w + b <= usize::MAX,
                bw == blocks(w as nat, b as nat),
                255 * iw <= u64::MAX,
                255 * (w * h) <= u64::MAX,
                ys < ye <= h,
                ye - ys <= b,
                bx <= bw,
                xs == bx * b,
                out@ == before + block_row(base@, iw as nat, x0 as nat, w as nat, b as nat, (y0 + ys) as nat, (y0 + ye) as nat, bx as nat),
            decreases bw - bx,
        {
            proof {
                lemma_block_start(bx as nat, b as nat, w as nat, bw as nat);
                assert((bx + 1) * b == bx * b + b) by (nonlinear_arith);
            }
            let xe = if xs + b < w {
                xs + b
            } else {
                w
            };
            assert(xe == min_nat(((bx + 1) * b) as nat, w as nat));
            proof {
                lemma_area_le((xe - xs) as nat, (ye - ys) as nat, w as nat, h as nat);
            }
            let (sr, sg, sb) = sum_area(base, iw, ih, x0 + xs, x0 + xe, y0 + ys, y0 + ye);
            let n: u64 = (xe - xs) as u64 * (ye - ys) as u64;
            proof {
                assert(n > 0) by (nonlinear_arith)
                    requires
                        n == (xe - xs) * (ye - ys),
                        xe > xs,
                        ye > ys,
                ;
                assert((x0 + xe) - (x0 + xs) == xe - xs);
            }
            out.push((sb / n) as u8);
            out.push((sg / n) as u8);
            out.push((sr / n) as u8);
            out.push(255u8);
            proof {
                assert((bx + 1) * b == bx * b + b) by (nonlinear_arith);
                assert(out@ =~= before + block_row(base@, iw as nat, x0 as nat, w as nat, b as nat, (y0 + ys) as nat, (y0 + ye) as nat, (bx + 1) as nat));
            }
            bx = bx + 1;
            xs = xs + b;
        }
        let mut k: usize = 4 * bw;
        while k < stride
            invariant
                4 * bw <= k <= stride,
                out@ == before + block_row(base@, iw as nat, x0 as nat, w as nat, b as nat, (y0 + ys) as nat, (y0 + ye) as nat, bw as nat) + zeros((k - 4 * bw) as nat),
            decreases stride - k,
        {
            out.push(0u8);
            k = k + 1;
            assert(out@ =~= before + block_row(base@, iw as nat, x0 as nat, w as nat, b as nat, (y0 + ys) as nat, (y0 + ye) as nat, bw as nat) + zeros((k - 4 * bw) as nat));
        }
        proof {
            let i = by as nat;
            let bn = b as nat;
            let x0n = x0 as nat;
            let y0n = y0 as nat;
            assert(pixelated(base@, iw as nat, x0 as nat, y0 as nat, w as nat, h as nat, b as nat, gw, stride as nat, i + 1)
                == pixelated(base@, iw as nat, x0 as nat, y0 as nat, w as nat, h as nat, b as nat, gw, stride as nat, i)
                + block_row(base@, iw as nat, x0n, w as nat, bn, y0n + i * bn, y0n + min_nat((i + 1) * bn, h as nat), gw)
                + zeros((stride - 4 * gw) as nat));
            assert((y0 + ys) as nat == y0n + i * bn);
            assert((y0 + ye) as nat == y0n + min_nat((i + 1) * bn, h as nat));
            assert(out@ == pixelated(base@, iw as nat, x0 as nat, y0 as nat, w as nat, h as nat, b as nat, gw, stride as nat, i + 1));
        }
        by = by + 1;
        ys = ys + b;
    }
    out
}

} // verus!
