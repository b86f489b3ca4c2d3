use vstd::prelude::*;
use vstd::arithmetic::div_mod::*;
use vstd::arithmetic::mul::*;

verus! {

/// Division of integers rounding toward zero, as Rust divides `i32`s.
pub open spec fn trunc_div(a: int, b: int) -> int {
    if a >= 0 {
        a / b
    } else {
        -((-a) / b)
    }
}

/// Buffer index `i` lies in the region that the up-scaled image covers:
/// rows below `sh * s` and columns below `sw * s`.
pub open spec fn covers(i: int, width: int, height: int, s: int) -> bool {
    let sw = trunc_div(width, s);
    let sh = trunc_div(height, s);
    &&& sw > 0
    &&& sh > 0
    &&& 0 <= i
    &&& i / width < sh * s
    &&& i % width < sw * s
}

/// The row of the low-resolution image shown at buffer index `i`.
pub open spec fn source_row(i: int, width: int, s: int) -> int {
    i / width / s
}

/// Index, in the low-resolution image, of the pixel shown at buffer index `i`.
pub open spec fn source_index(i: int, width: int, s: int) -> int {
    source_row(i, width, s) * trunc_div(width, s) + (i % width) / s
}

/// The buffer after the rows `r0` up to `r1` of the low-resolution image,
/// whose pixels `colors` holds row by row, have been drawn, each pixel as an
/// `s` by `s` block; the other pixels keep their colour.
pub open spec fn rows_drawn<T>(
    old: Seq<T>,
    colors: Seq<T>,
    width: int,
    height: int,
    s: int,
    r0: int,
    r1: int,
) -> Seq<T> {
    Seq::new(
        old.len(),
        |i: int|
            if covers(i, width, height, s) && r0 <= source_row(i, width, s) < r1 {
                colors[source_index(i, width, s) - r0 * trunc_div(width, s)]
            } else {
                old[i]
            },
    )
}

/// The buffer after the whole low-resolution image `scaled` has been drawn.
pub open spec fn upscaled<T>(old: Seq<T>, scaled: Seq<T>, width: int, height: int, s: int) -> Seq<T> {
    rows_drawn(old, scaled, width, height, s, 0, trunc_div(height, s))
}

/// The buffer part-way through drawing rows `r0` up to `r1`: the buffer rows
/// before `y`, and the pixels of buffer row `y` before column `x`, are drawn.
pub open spec fn rows_drawn_upto<T>(
    old: Seq<T>,
    colors: Seq<T>,
    width: int,
    height: int,
    s: int,
    r0: int,
    r1: int,
    y: int,
    x: int,
) -> Seq<T> {
    Seq::new(
        old.len(),
        |i: int|
            if covers(i, width, height, s) && r0 <= source_row(i, width, s) < r1 && (i / width < y
                || (i / width == y && i % width < x)) {
                colors[source_index(i, width, s) - r0 * trunc_div(width, s)]
            } else {
                old[i]
            },
    )
}

/// Drawing rows `r0` up to `r1` writes some pixel.
pub open spec fn draws_rows(width: int, height: int, s: int, r0: int, r1: int) -> bool {
    trunc_div(width, s) > 0 && trunc_div(height, s) > 0 && r0 < r1
}

/// One past the last buffer index that drawing rows `r0` up to `r1` writes.
pub open spec fn band_extent(width: int, height: int, s: int, r0: int, r1: int) -> int {
    if draws_rows(width, height, s, r0, r1) {
        (r1 * s - 1) * width + trunc_div(width, s) * s
    } else {
        0
    }
}

/// One past the last buffer index that drawing the whole image writes.
pub open spec fn written_extent(width: int, height: int, s: int) -> int {
    band_extent(width, height, s, 0, trunc_div(height, s))
}

/// Width and height of the low-resolution image rendered at `render_scale`.
pub fn scaled_size(width: i32, height: i32, render_scale: i32) -> (r: (i32, i32))
    requires
        render_scale > 0,
    ensures
        r.0 == trunc_div(width as int, render_scale as int),
        r.1 == trunc_div(height as int, render_scale as int),
{
    (width / render_scale, height / render_scale)
}

proof fn lemma_split(i: int, w: int)
    requires
        w > 0,
        i >= 0,
    ensures
        i == (i / w) * w + i % w,
        0 <= i % w < w,
        i / w >= 0,
{
    lemma_fundamental_div_mod(i, w);
    lemma_mul_is_commutative(w, i / w);
    lemma_mod_pos_bound(i, w);
    lemma_div_pos_is_pos(i, w);
}

proof fn lemma_join(y: int, x: int, w: int)
    requires
        w > 0,
        y >= 0,
        0 <= x < w,
    ensures
        (y * w + x) / w == y,
        (y * w + x) % w == x,
{
    lemma_fundamental_div_mod_converse(y * w + x, w, y, x);
}

/// A buffer row `y` shows a low-resolution row in `[r0, r1)` exactly when
/// `r0 * s <= y < r1 * s`.
proof fn lemma_row_range(y: int, s: int, r0: int, r1: int)
    requires
        s > 0,
        y >= 0,
        r0 >= 0,
    ensures
        (r0 <= y / s < r1) <==> (r0 * s <= y < r1 * s),
{
    lemma_split(y, s);
    if y / s < r1 {
        lemma_mul_inequality(y / s + 1, r1, s);
        lemma_mul_is_distributive_add_other_way(s, y / s, 1);
        lemma_mul_is_commutative(s, y / s);
        lemma_mul_is_commutative(s, y / s + 1);
    } else {
        lemma_mul_inequality(r1, y / s, s);
    }
    if r0 <= y / s {
        lemma_mul_inequality(r0, y / s, s);
    } else {
        lemma_mul_inequality(y / s + 1, r0, s);
        lemma_mul_is_distributive_add_other_way(s, y / s, 1);
        lemma_mul_is_commutative(s, y / s);
        lemma_mul_is_commutative(s, y / s + 1);
    }
}

/// Draws rows `first_row` up to `end_row` of the low-resolution image,
/// `width / render_scale` pixels wide, into `buffer` (row-major, `width`
/// columns): `colors` holds those rows' pixels row by row, and each pixel
/// fills a `render_scale` by `render_scale` block.
pub fn upscale_rows_into<T: Copy>(
    buffer: &mut [T],
    width: i32,
    height: i32,
    render_scale: i32,
    first_row: i32,
    end_row: i32,
    colors: &[T],
)
    requires
        render_scale > 0,
        draws_rows(
            width as int,
            height as int,
            render_scale as int,
            first_row as int,
            end_row as int,
        ) ==> {
            &&& 0 <= first_row
            &&& end_row <= trunc_div(height as int, render_scale as int)
            &&& colors@.len() == (end_row - first_row) * trunc_div(
                width as int,
                render_scale as int,
            )
        },
        band_extent(
            width as int,
            height as int,
            render_scale as int,
            first_row as int,
            end_row as int,
        ) <= old(buffer)@.len(),
        band_extent(
            width as int,
            height as int,
            render_scale as int,
            first_row as int,
            end_row as int,
        ) <= i32::MAX + 1,
    ensures
        final(buffer)@ == rows_drawn(
            old(buffer)@,
            colors@,
            width as int,
            height as int,
            render_scale as int,
            first_row as int,
            end_row as int,
        ),
{
    let ghost old_buf = buffer@;
    let ghost s = render_scale as int;
    let ghost wi = width as int;
    let ghost hi = height as int;
    let ghost r0 = first_row as int;
    let ghost r1 = end_row as int;
    let (sw, sh) = scaled_size(width, height, render_scale);
    if sw <= 0 || sh <= 0 || first_row >= end_row {
        assert forall|i: int| 0 <= i < old_buf.len() && covers(i, wi, hi, s) implies !(r0
            <= source_row(i, wi, s) < r1) by {}
        assert(buffer@ =~= rows_drawn(old_buf, colors@, wi, hi, s, r0, r1));
        return;
    }
    proof {
        lemma_split(wi, s);
        lemma_split(hi, s);
        lemma_mul_is_commutative(sw as int, s);
        lemma_mul_is_commutative(sh as int, s);
        lemma_mul_inequality(r1, sh as int, s);
        lemma_mul_inequality(r0, r1, s);
        assert forall|i: int| 0 <= i < old_buf.len() && covers(i, wi, hi, s) && r0 <= source_row(
            i,
            wi,
            s,
        ) < r1 implies !(i / wi < r0 * s) by {
            lemma_split(i, wi);
            lemma_row_range(i / wi, s, r0, r1);
        }
        assert(buffer@ =~= rows_drawn_upto(old_buf, colors@, wi, hi, s, r0, r1, r0 * s, 0));
    }
    let su = render_scale as usize;
    let w = width as usize;
    let swu = sw as usize;
    let cw: usize = swu * su;
    let y_end: usize = (end_row as usize) * su;
    let first = first_row as usize;
    let blen = buffer.len();
    let clen = colors.len();
    let ghost len = buffer@.len();
    let mut y: usize = first * su;
    while y < y_end
        invariant
            s == render_scale as int,
            wi == width as int,
            hi == height as int,
            r0 == first_row as int,
            r1 == end_row as int,
            sw as int == trunc_div(wi, s),
            sh as int == trunc_div(hi, s),
            sw > 0,
            sh > 0,
            0 <= r0 < r1 <= sh,
            su as int == s,
            s > 0,
            w as int == wi,
            swu as int == sw as int,
            first as int == r0,
            cw as int == sw * s,
            y_end as int == r1 * s,
            cw <= w,
            r0 * s <= y <= y_end,
            len == old_buf.len(),
            len == blen as int,
            colors@.len() == clen as int,
            colors@.len() == (r1 - r0) * sw,
            band_extent(wi, hi, s, r0, r1) <= len,
            buffer@ =~= rows_drawn_upto(old_buf, colors@, wi, hi, s, r0, r1, y as int, 0),
        decreases y_end - y,
    {
        let mut x: usize = 0;
        while x < cw
            invariant
                s == render_scale as int,
                wi == width as int,
                hi == height as int,
                r0 == first_row as int,
                r1 == end_row as int,
                sw as int == trunc_div(wi, s),
                sh as int == trunc_div(hi, s),
                sw > 0,
                sh > 0,
                0 <= r0 < r1 <= sh,
                su as int == s,
                s > 0,
                w as int == wi,
                swu as int == sw as int,
                first as int == r0,
                cw as int == sw * s,
                y_end as int == r1 * s,
                cw <= w,
                r0 * s <= y < y_end,
                x <= cw,
                len == old_buf.len(),
                len == blen as int,
                colors@.len() == clen as int,
                colors@.len() == (r1 - r0) * sw,
                band_extent(wi, hi, s, r0, r1) <= len,
                buffer@ =~= rows_drawn_upto(
                    old_buf,
                    colors@,
                    wi,
                    hi,
                    s,
                    r0,
                    r1,
                    y as int,
                    x as int,
                ),
            decreases cw - x,
        {
            let ghost yy = y as int;
            let ghost xx = x as int;
            proof {
                lemma_mul_inequality(yy, r1 * s - 1, wi);
                lemma_join(yy, xx, wi);
                lemma_row_range(yy, s, r0, r1);
                lemma_mul_is_commutative(sw as int, s);
                lemma_multiply_divide_lt(xx, s, sw as int);
                lemma_div_pos_is_pos(xx, s);
                lemma_mul_inequality(yy / s - r0, r1 - r0 - 1, sw as int);
                lemma_mul_is_distributive_sub_other_way(sw as int, r1 - r0, 1);
                lemma_mul_is_commutative(sw as int, r1 - r0);
                lemma_mul_nonnegative(yy / s - r0, sw as int);
                lemma_mul_is_distributive_sub_other_way(sw as int, yy / s, r0);
                lemma_mul_is_commutative(sw as int, yy / s);
                lemma_mul_is_commutative(sw as int, r0);
                lemma_mul_is_commutative(sw as int, yy / s - r0);
                lemma_mul_inequality(r1, sh as int, s);
                assert(yy < sh * s);
            }
            let idx = y * w + x;
            let src = (y / su - first) * swu + x / su;
            buffer[idx] = colors[src];
            proof {
                assert forall|i: int| 0 <= i < len implies #[trigger] buffer@[i]
                    == rows_drawn_upto(old_buf, colors@, wi, hi, s, r0, r1, yy, xx + 1)[i] by {
                    lemma_split(i, wi);
                    if i == idx as int {
                        assert(source_index(i, wi, s) - r0 * sw == src as int);
                    } else {
                        if i / wi == yy && i % wi == xx {
                            assert(i == yy * wi + xx);
                        }
                    }
                }
            }
            x = x + 1;
        }
        y = y + 1;
    }
    assert forall|i: int| 0 <= i < len && covers(i, wi, hi, s) && r0 <= source_row(i, wi, s) < r1
        implies i / wi < y as int by {
        lemma_split(i, wi);
        lemma_row_range(i / wi, s, r0, r1);
    }
    assert(buffer@ =~= rows_drawn(old_buf, colors@, wi, hi, s, r0, r1));
}

/// Draws the low-resolution image `scaled` (row-major, `width / render_scale`
/// columns) into `buffer` (row-major, `width` columns), every low-resolution
/// pixel filling a `render_scale` by `render_scale` block.
pub fn upscale_into<T: Copy>(
    buffer: &mut [T],
    width: i32,
    height: i32,
    render_scale: i32,
    scaled: &[T],
)
    requires
        render_scale > 0,
        trunc_div(width as int, render_scale as int) > 0 && trunc_div(
            height as int,
            render_scale as int,
        ) > 0 ==> scaled@.len() == trunc_div(width as int, render_scale as int) * trunc_div(
            height as int,
            render_scale as int,
        ),
        written_extent(width as int, height as int, render_scale as int) <= old(buffer)@.len(),
        written_extent(width as int, height as int, render_scale as int) <= i32::MAX + 1,
    ensures
        final(buffer)@ == upscaled(
            old(buffer)@,
            scaled@,
            width as int,
            height as int,
            render_scale as int,
        ),
{
    let (sw, sh) = scaled_size(width, height, render_scale);
    proof {
        if sw > 0 && sh > 0 {
            lemma_mul_is_commutative(sh as int, sw as int);
        }
    }
    upscale_rows_into(buffer, width, height, render_scale, 0, sh, scaled);
}

/// Rows of the low-resolution image given to each of `n` workers.
pub open spec fn rows_per_band(sh: int, n: int) -> int {
    trunc_div(sh + n - 1, n)
}

/// First row of worker `t`'s band.
pub open spec fn band_start(sh: int, n: int, t: int) -> int {
    t * rows_per_band(sh, n)
}

/// One past the last row of worker `t`'s band.
pub open spec fn band_end(sh: int, n: int, t: int) -> int {
    let e = (t + 1) * rows_per_band(sh, n);
    if e < sh {
        e
    } else {
        sh
    }
}

/// The worker whose band holds row `r`.
pub open spec fn band_of(sh: int, n: int, r: int) -> int {
    r / rows_per_band(sh, n)
}

/// Row `r` falls in worker `t`'s band.
pub open spec fn in_band(sh: int, n: int, t: int, r: int) -> bool {
    band_start(sh, n, t) <= r < band_end(sh, n, t)
}

/// Splits the rows of a low-resolution image of height `scaled_height`
/// into `num_threads` consecutive bands of equal height (the last ones
/// shorter or empty); band `t` is the pair (first row, end row).
pub fn row_bands(scaled_height: i32, num_threads: i32) -> (bands: Vec<(i32, i32)>)
    requires
        num_threads > 0,
        scaled_height + num_threads <= i32::MAX,
        i32::MIN <= num_threads * rows_per_band(scaled_height as int, num_threads as int)
            <= i32::MAX,
    ensures
        bands@.len() == num_threads,
        forall|t: int|
            0 <= t < num_threads ==> {
                &&& #[trigger] bands@[t].0 == band_start(
                    scaled_height as int,
                    num_threads as int,
                    t,
                )
                &&& bands@[t].1 == band_end(scaled_height as int, num_threads as int, t)
            },
{
    let rows = (scaled_height + num_threads - 1) / num_threads;
    let ghost sh = scaled_height as int;
    let ghost n = num_threads as int;
    let mut bands: Vec<(i32, i32)> = Vec::new();
    let mut t: i32 = 0;
    while t < num_threads
        invariant
            0 <= t <= num_threads,
            sh == scaled_height as int,
            n == num_threads as int,
            n > 0,
            rows as int == rows_per_band(sh, n),
            i32::MIN <= n * rows <= i32::MAX,
            bands@.len() == t,
            forall|k: int|
                0 <= k < t ==> {
                    &&& #[trigger] bands@[k].0 == band_start(sh, n, k)
                    &&& bands@[k].1 == band_end(sh, n, k)
                },
        decreases num_threads - t,
    {
        proof {
            if rows >= 0 {
                lemma_mul_inequality(t as int + 1, n, rows as int);
                lemma_mul_nonnegative(t as int, rows as int);
            } else {
                lemma_mul_inequality(t as int + 1, n, -(rows as int));
                lemma_mul_nonnegative(t as int, -(rows as int));
                lemma_mul_unary_negation(t as int + 1, rows as int);
                lemma_mul_unary_negation(n, rows as int);
                lemma_mul_unary_negation(t as int, rows as int);
            }
            lemma_mul_inequality(t as int, t as int + 1, if rows >= 0 { rows as int } else { -(rows as int) });
        }
        let start = t * rows;
        let next = (t + 1) * rows;
        let end = if next < scaled_height {
            next
        } else {
            scaled_height
        };
        bands.push((start, end));
        t = t + 1;
    }
    bands
}

/// Every row of a low-resolution image of height `sh >= 0` is rendered by
/// exactly one of the `n` workers, and no worker renders a row outside the
/// image: the bands of `row_bands` partition the rows.
pub proof fn lemma_bands_partition(sh: int, n: int)
    requires
        sh >= 0,
        n > 0,
    ensures
        forall|r: int|
            0 <= r < sh ==> 0 <= #[trigger] band_of(sh, n, r) < n && in_band(
                sh,
                n,
                band_of(sh, n, r),
                r,
            ),
        forall|t: int, r: int| 0 <= t < n && #[trigger] in_band(sh, n, t, r) ==> 0 <= r < sh,
        forall|t1: int, t2: int, r: int|
            0 <= t1 < n && 0 <= t2 < n && #[trigger] in_band(sh, n, t1, r) && #[trigger] in_band(
                sh,
                n,
                t2,
                r,
            ) ==> t1 == t2,
{
    let q = rows_per_band(sh, n);
    lemma_fundamental_div_mod(sh + n - 1, n);
    lemma_mod_pos_bound(sh + n - 1, n);
    lemma_div_pos_is_pos(sh + n - 1, n);
    assert(q >= 0);
    assert forall|r: int| 0 <= r < sh implies 0 <= #[trigger] band_of(sh, n, r) < n && in_band(
        sh,
        n,
        band_of(sh, n, r),
        r,
    ) by {
        assert(q > 0) by {
            if q == 0 {
                assert(n * q == 0);
            }
        }
        lemma_split(r, q);
        lemma_mul_is_commutative(n, q);
        // r < sh <= n * q, hence r / q < n
        assert(sh <= n * q);
        lemma_multiply_divide_lt(r, q, n);
        lemma_mul_is_distributive_add_other_way(q, r / q, 1);
        lemma_mul_is_commutative(q, r / q);
        lemma_mul_is_commutative(q, r / q + 1);
    }
    assert forall|t: int, r: int| 0 <= t < n && #[trigger] in_band(sh, n, t, r) implies 0 <= r
        < sh by {
        lemma_mul_nonnegative(t, q);
    }
    assert forall|t1: int, t2: int, r: int|
        0 <= t1 < n && 0 <= t2 < n && #[trigger] in_band(sh, n, t1, r) && #[trigger] in_band(
            sh,
            n,
            t2,
            r,
        ) implies t1 == t2 by {
        if t1 < t2 {
            lemma_mul_inequality(t1 + 1, t2, q);
            lemma_mul_is_distributive_add_other_way(q, t1, 1);
        } else if t2 < t1 {
            lemma_mul_inequality(t2 + 1, t1, q);
        }
    }
}

/// The pixels of rows `r0` up to `r1` of a low-resolution image `scaled`
/// that is `sw` pixels wide.
pub open spec fn band_colors<T>(scaled: Seq<T>, sw: int, r0: int, r1: int) -> Seq<T> {
    if r0 < r1 {
        scaled.subrange(r0 * sw, r1 * sw)
    } else {
        Seq::empty()
    }
}

/// The buffer after workers `0` up to `t` of `n`, one after another, have
/// each drawn their band of rows of `scaled`.
pub open spec fn bands_drawn<T>(
    old: Seq<T>,
    scaled: Seq<T>,
    width: int,
    height: int,
    s: int,
    n: int,
    t: nat,
) -> Seq<T>
    decreases t,
{
    if t == 0 {
        old
    } else {
        let sh = trunc_div(height, s);
        let sw = trunc_div(width, s);
        let k = t - 1;
        rows_drawn(
            bands_drawn(old, scaled, width, height, s, n, (t - 1) as nat),
            band_colors(scaled, sw, band_start(sh, n, k), band_end(sh, n, k)),
            width,
            height,
            s,
            band_start(sh, n, k),
            band_end(sh, n, k),
        )
    }
}

/// The rows drawn by the first `t` workers: those before `min(t * q, sh)`.
spec fn rows_done(sh: int, n: int, t: int) -> int {
    let e = t * rows_per_band(sh, n);
    if e < sh {
        e
    } else {
        sh
    }
}

proof fn lemma_bands_prefix<T>(
    old: Seq<T>,
    scaled: Seq<T>,
    width: int,
    height: int,
    s: int,
    n: int,
    t: nat,
)
    requires
        s > 0,
        n > 0,
        t <= n,
        trunc_div(width, s) > 0,
        trunc_div(height, s) > 0,
        scaled.len() == trunc_div(width, s) * trunc_div(height, s),
    ensures
        bands_drawn(old, scaled, width, height, s, n, t) == rows_drawn(
            old,
            scaled,
            width,
            height,
            s,
            0,
            rows_done(trunc_div(height, s), n, t as int),
        ),
    decreases t,
{
    let sh = trunc_div(height, s);
    let sw = trunc_div(width, s);
    let q = rows_per_band(sh, n);
    lemma_fundamental_div_mod(sh + n - 1, n);
    lemma_mod_pos_bound(sh + n - 1, n);
    lemma_div_pos_is_pos(sh + n - 1, n);
    if t == 0 {
        lemma_mul_basics(q);
        assert(bands_drawn(old, scaled, width, height, s, n, t) =~= rows_drawn(
            old,
            scaled,
            width,
            height,
            s,
            0,
            0,
        ));
    } else {
        let k = (t - 1) as int;
        lemma_bands_prefix(old, scaled, width, height, s, n, (t - 1) as nat);
        let prev = bands_drawn(old, scaled, width, height, s, n, (t - 1) as nat);
        let r0 = band_start(sh, n, k);
        let r1 = band_end(sh, n, k);
        let colors = band_colors(scaled, sw, r0, r1);
        lemma_mul_inequality(k, k + 1, q);
        lemma_mul_nonnegative(k, q);
        assert(r0 == k * q);
        let cur = bands_drawn(old, scaled, width, height, s, n, t);
        assert(cur == rows_drawn(prev, colors, width, height, s, r0, r1));
        let target = rows_drawn(old, scaled, width, height, s, 0, rows_done(sh, n, t as int));
        assert forall|i: int| 0 <= i < old.len() implies #[trigger] cur[i] == target[i] by {
            if covers(i, width, height, s) {
                let row = source_row(i, width, s);
                let col = (i % width) / s;
                lemma_split(i, width);
                lemma_split(i / width, s);
                lemma_split(i % width, s);
                lemma_row_range(i / width, s, 0, sh);
                lemma_mul_is_commutative(sw, s);
                lemma_multiply_divide_lt(i % width, s, sw);
                if r0 <= row < r1 {
                    lemma_mul_inequality(row - r0, r1 - r0 - 1, sw);
                    lemma_mul_is_distributive_sub_other_way(sw, r1 - r0, 1);
                    lemma_mul_is_commutative(sw, r1 - r0);
                    lemma_mul_nonnegative(row - r0, sw);
                    lemma_mul_is_distributive_sub_other_way(sw, row, r0);
                    lemma_mul_is_commutative(sw, row);
                    lemma_mul_is_commutative(sw, r0);
                    lemma_mul_is_commutative(sw, row - r0);
                    lemma_mul_is_distributive_sub_other_way(sw, r1, r0);
                    lemma_mul_is_commutative(sw, r1);
                    lemma_mul_inequality(r1, sh, sw);
                    lemma_mul_is_commutative(sw, sh);
                    assert(source_index(i, width, s) - r0 * sw < (r1 - r0) * sw);
                    assert(colors[source_index(i, width, s) - r0 * sw] == scaled[source_index(
                        i,
                        width,
                        s,
                    )]);
                }
            }
        }
        assert(cur =~= target);
    }
}

/// Drawing, one after another, the bands of rows that `row_bands` hands the
/// `n` workers, each from its own rows of the low-resolution image, leaves
/// the buffer exactly as drawing the whole image at once: rendering with
/// threads and without them gives the same picture.
pub proof fn lemma_bands_draw_whole<T>(
    old: Seq<T>,
    scaled: Seq<T>,
    width: int,
    height: int,
    s: int,
    n: int,
)
    requires
        s > 0,
        n > 0,
        trunc_div(width, s) > 0 && trunc_div(height, s) > 0 ==> scaled.len() == trunc_div(
            width,
            s,
        ) * trunc_div(height, s),
    ensures
        bands_drawn(old, scaled, width, height, s, n, n as nat) == upscaled(
            old,
            scaled,
            width,
            height,
            s,
        ),
{
    let sh = trunc_div(height, s);
    let sw = trunc_div(width, s);
    if sw > 0 && sh > 0 {
        lemma_bands_prefix(old, scaled, width, height, s, n, n as nat);
        let q = rows_per_band(sh, n);
        lemma_fundamental_div_mod(sh + n - 1, n);
        lemma_mod_pos_bound(sh + n - 1, n);
        assert(sh <= n * q);
        assert(rows_done(sh, n, n) == sh);
    } else {
        lemma_bands_unchanged(old, scaled, width, height, s, n, n as nat);
        assert(upscaled(old, scaled, width, height, s) =~= old);
    }
}

proof fn lemma_bands_unchanged<T>(
    old: Seq<T>,
    scaled: Seq<T>,
    width: int,
    height: int,
    s: int,
    n: int,
    t: nat,
)
    requires
        !(trunc_div(width, s) > 0 && trunc_div(height, s) > 0),
    ensures
        bands_drawn(old, scaled, width, height, s, n, t) == old,
    decreases t,
{
    if t > 0 {
        lemma_bands_unchanged(old, scaled, width, height, s, n, (t - 1) as nat);
        assert(bands_drawn(old, scaled, width, height, s, n, t) =~= old);
    }
}

/// Up-scaling draws every pixel of the covered region: the pixel at column
/// `x` and row `y` of the buffer, with `x < (width / s) * s` and
/// `y < (height / s) * s`, shows the low-resolution pixel at column `x / s`
/// and row `y / s`; every pixel of each `s` by `s` block is drawn.
pub proof fn lemma_upscaled_pixel<T>(
    old: Seq<T>,
    scaled: Seq<T>,
    width: int,
    height: int,
    s: int,
    x: int,
    y: int,
)
    requires
        s > 0,
        width > 0,
        height > 0,
        0 <= x < (width / s) * s,
        0 <= y < (height / s) * s,
        y * width + x < old.len(),
    ensures
        upscaled(old, scaled, width, height, s)[y * width + x] == scaled[(y / s) * (width / s) + x
            / s],
{
    lemma_split(width, s);
    lemma_mul_is_commutative(width / s, s);
    lemma_join(y, x, width);
    lemma_mul_nonnegative(y, width);
    assert(width / s > 0) by {
        if width / s <= 0 {
            lemma_mul_inequality(width / s, 0, s);
        }
    }
    assert(height / s > 0) by {
        if height / s <= 0 {
            lemma_mul_inequality(height / s, 0, s);
        }
    }
    lemma_row_range(y, s, 0, height / s);
}

/// Up-scaling leaves every pixel outside the covered region as it was: those
/// in a row at or past `(height / s) * s`, or a column at or past
/// `(width / s) * s`.
pub proof fn lemma_upscaled_outside<T>(
    old: Seq<T>,
    scaled: Seq<T>,
    width: int,
    height: int,
    s: int,
    i: int,
)
    requires
        s > 0,
        width > 0,
        height >= 0,
        0 <= i < old.len(),
        !(i / width < (height / s) * s && i % width < (width / s) * s),
    ensures
        upscaled(old, scaled, width, height, s)[i] == old[i],
{
}

/// Drawing the rows `r0` up to `r1` draws, for each pixel at column
/// `x < (width / s) * s` of a buffer row `y` with `r0 <= y / s < r1`, the
/// band's pixel at column `x / s` of its row `y / s - r0`, and leaves the
/// rows of the other bands as they were.
pub proof fn lemma_rows_drawn_pixel<T>(
    old: Seq<T>,
    colors: Seq<T>,
    width: int,
    height: int,
    s: int,
    r0: int,
    r1: int,
    x: int,
    y: int,
)
    requires
        s > 0,
        width > 0,
        height > 0,
        0 <= r0,
        r1 <= height / s,
        0 <= x < (width / s) * s,
        0 <= y,
        y * width + x < old.len(),
    ensures
        r0 <= y / s < r1 ==> rows_drawn(old, colors, width, height, s, r0, r1)[y * width + x]
            == colors[(y / s - r0) * (width / s) + x / s],
        !(r0 <= y / s < r1) ==> rows_drawn(old, colors, width, height, s, r0, r1)[y * width + x]
            == old[y * width + x],
{
    lemma_split(width, s);
    lemma_split(height, s);
    lemma_mul_is_commutative(width / s, s);
    lemma_mul_is_commutative(height / s, s);
    lemma_join(y, x, width);
    lemma_mul_nonnegative(y, width);
    assert(width / s > 0) by {
        if width / s <= 0 {
            lemma_mul_inequality(width / s, 0, s);
        }
    }
    if r0 <= y / s < r1 {
        lemma_row_range(y, s, 0, height / s);
        lemma_mul_inequality(r1, height / s, s);
        lemma_row_range(y, s, r0, r1);
        lemma_mul_is_distributive_sub_other_way(width / s, y / s, r0);
        lemma_mul_is_commutative(width / s, y / s);
        lemma_mul_is_commutative(width / s, r0);
        lemma_mul_is_commutative(width / s, y / s - r0);
    }
}

/// Division rounding toward zero: for `a >= 0` the quotient `q` is the
/// largest with `q * b <= a`; a negative dividend gives the negated quotient
/// of its magnitude.
pub proof fn lemma_trunc_div(a: int, b: int)
    requires
        b > 0,
    ensures
        a >= 0 ==> trunc_div(a, b) >= 0 && trunc_div(a, b) * b <= a < (trunc_div(a, b) + 1) * b,
        a < 0 ==> trunc_div(a, b) == -trunc_div(-a, b),
{
    if a >= 0 {
        lemma_split(a, b);
        lemma_mul_is_distributive_add_other_way(b, a / b, 1);
        lemma_mul_is_commutative(b, a / b);
        lemma_mul_is_commutative(b, a / b + 1);
    }
}

/// The workers' bands are as equal as possible: for a non-empty image of
/// height `sh` and `n` workers, the first band holds `q` rows, the fewest
/// with `q * n >= sh`, and every band holds at most `q` rows.
pub proof fn lemma_bands_balanced(sh: int, n: int)
    requires
        sh > 0,
        n > 0,
    ensures
        ({
            let q = band_end(sh, n, 0) - band_start(sh, n, 0);
            &&& q * n >= sh
            &&& (q - 1) * n < sh
            &&& forall|t: int|
                0 <= t < n ==> #[trigger] band_end(sh, n, t) - band_start(sh, n, t) <= q
        }),
{
    let q = rows_per_band(sh, n);
    lemma_fundamental_div_mod(sh + n - 1, n);
    lemma_mod_pos_bound(sh + n - 1, n);
    lemma_div_pos_is_pos(sh + n - 1, n);
    lemma_mul_is_commutative(n, q);
    assert(q >= 1) by {
        if q <= 0 {
            lemma_mul_inequality(q, 0, n);
        }
    }
    lemma_mul_basics(q);
    assert(band_start(sh, n, 0) == 0);
    lemma_mul_basics(q);
    assert(band_end(sh, n, 0) == q) by {
        assert(q <= sh) by {
            if q > sh {
                lemma_mul_inequality(sh + 1, q, n);
                lemma_mul_is_distributive_add_other_way(n, sh, 1);
                lemma_mul_is_commutative(n, sh);
                lemma_mul_is_commutative(n, sh + 1);
                lemma_mul_inequality(1, n, sh);
            }
        }
    }
    lemma_mul_is_distributive_sub_other_way(n, q, 1);
    lemma_mul_is_commutative(n, q - 1);
    assert forall|t: int| 0 <= t < n implies #[trigger] band_end(sh, n, t) - band_start(sh, n, t)
        <= q by {
        lemma_mul_is_distributive_add_other_way(q, t, 1);
        lemma_mul_is_commutative(q, t);
        lemma_mul_is_commutative(q, t + 1);
    }
}

} // verus!
