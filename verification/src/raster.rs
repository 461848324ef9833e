//! Integer geometry of scanline rasterisation and the pixel-difference
//! metric.  The functions here decide which pixels a shape covers; blending
//! a colour into those pixels happens where the framebuffer lives.
use vstd::prelude::*;
use vstd::relations::{sorted_by, total_ordering};
use vstd::seq_lib::lemma_sorted_unique;

verus! {

/// `r` is the integer square root of `n`: the largest `r` with `r * r <= n`.
pub open spec fn is_isqrt(n: int, r: int) -> bool {
    0 <= r && r * r <= n < (r + 1) * (r + 1)
}

/// `d` is the integer nearest to the square root of `n` (never a tie for
/// an integer `n`).
pub open spec fn is_round_sqrt(n: int, d: int) -> bool {
    &&& 0 <= d
    &&& d == 0 ==> n == 0
    &&& d >= 1 ==> d * d - d < n <= d * d + d
}

/// The integer square root, defined by counting up from zero.
pub open spec fn isqrt_spec(n: int) -> int
    decreases n,
{
    if n <= 0 {
        0
    } else {
        let r = isqrt_spec(n - 1);
        if (r + 1) * (r + 1) <= n {
            r + 1
        } else {
            r
        }
    }
}

/// `isqrt_spec` is the integer square root.
pub proof fn lemma_isqrt_spec(n: int)
    requires
        n >= 0,
    ensures
        is_isqrt(n, isqrt_spec(n)),
    decreases n,
{
    if n > 0 {
        lemma_isqrt_spec(n - 1);
        let r = isqrt_spec(n - 1);
        assert((r + 1) * (r + 1) < (r + 2) * (r + 2)) by (nonlinear_arith)
            requires
                r >= 0,
        ;
    }
}

/// Integer square root of `n`: the largest `r` with `r * r <= n`, the value
/// `(n as f64).sqrt() as i64` gives for every `n` in range.
pub fn isqrt(n: u64) -> (r: u64)
    requires
        n <= u32::MAX,
    ensures
        is_isqrt(n as int, r as int),
        r == isqrt_spec(n as int),
{
    let mut lo: u64 = 0;
    let mut hi: u64 = 65536;
    assert(65536 * 65536 > u32::MAX) by (nonlinear_arith);
    while hi - lo > 1
        invariant
            lo < hi <= 65536,
            lo * lo <= n,
            n < hi * hi,
        decreases hi - lo,
    {
        let mid = lo + (hi - lo) / 2;
        assert(mid * mid <= 65536 * 65536) by (nonlinear_arith)
            requires
                mid <= 65536,
        ;
        if mid * mid <= n {
            lo = mid;
        } else {
            hi = mid;
        }
    }
    assert(hi == lo + 1);
    proof {
        lemma_isqrt_spec(n as int);
        lemma_isqrt_unique(n as int, lo as int, isqrt_spec(n as int));
    }
    lo
}

/// The integer nearest to the square root of `n`.
pub open spec fn round_sqrt_spec(n: int) -> int {
    let k = isqrt_spec(n);
    if n - k * k > k {
        k + 1
    } else {
        k
    }
}

/// The integer nearest to the square root of `n`: what
/// `(n as f64).sqrt().round()` gives for every `n` in range.
pub fn round_sqrt(n: u64) -> (d: u64)
    requires
        n <= u32::MAX,
    ensures
        is_round_sqrt(n as int, d as int),
        d == round_sqrt_spec(n as int),
{
    let k = isqrt(n);
    assert(k * k <= u32::MAX) by (nonlinear_arith)
        requires
            k * k <= n,
            n <= u32::MAX,
    ;
    assert((k + 1) * (k + 1) == k * k + 2 * k + 1) by (nonlinear_arith);
    assert((k + 1) * (k + 1) - (k + 1) == k * k + k) by (nonlinear_arith);
    if n - k * k > k {
        assert(is_round_sqrt(n as int, (k + 1) as int));
        k + 1
    } else {
        assert(k >= 1 ==> k * k - k < n);
        assert(n <= k * k + k);
        assert(k == 0 ==> k * k == 0) by (nonlinear_arith);
        assert(k == 0 ==> n == 0);
        k
    }
}

/// Euclidean distance between pixel `i` of `a` and of `b` (RGB triples),
/// rounded down.
pub open spec fn pixel_distance(a: Seq<u8>, b: Seq<u8>, i: int) -> int {
    let dr = a[3 * i] - b[3 * i];
    let dg = a[3 * i + 1] - b[3 * i + 1];
    let db = a[3 * i + 2] - b[3 * i + 2];
    isqrt_spec(dr * dr + dg * dg + db * db)
}

/// Sum of the rounded-down per-pixel distances over the first `k` pixels.
pub open spec fn diff_prefix(a: Seq<u8>, b: Seq<u8>, k: int) -> int
    decreases k,
{
    if k <= 0 {
        0
    } else {
        diff_prefix(a, b, k - 1) + pixel_distance(a, b, k - 1)
    }
}

pub proof fn lemma_isqrt_unique(n: int, r: int, s: int)
    requires
        is_isqrt(n, r),
        is_isqrt(n, s),
    ensures
        r == s,
{
    if r < s {
        assert((r + 1) * (r + 1) <= s * s) by (nonlinear_arith)
            requires
                0 <= r < s,
        ;
    } else if s < r {
        assert((s + 1) * (s + 1) <= r * r) by (nonlinear_arith)
            requires
                0 <= s < r,
        ;
    }
}

/// Largest value a single pixel distance reaches: `isqrt(3 * 255 * 255)`.
pub const MAX_PIXEL_DISTANCE: i64 = 441;

/// Sum over the pixels of two RGB24 buffers of the Euclidean RGB distance
/// of each pixel, each distance rounded down to an integer.  A trailing
/// partial pixel is ignored.
pub fn compute_diff(a: &[u8], b: &[u8]) -> (total: i64)
    requires
        a@.len() == b@.len(),
        (a@.len() / 3) * MAX_PIXEL_DISTANCE <= i64::MAX,
    ensures
        total == diff_prefix(a@, b@, (a@.len() / 3) as int),
{
    let mut total: i64 = 0;
    let len = a.len();
    let chunks = len / 3;
    let mut i: usize = 0;
    while i < chunks
        invariant
            len == a@.len(),
            a@.len() == b@.len(),
            chunks == a@.len() / 3,
            chunks * MAX_PIXEL_DISTANCE <= i64::MAX,
            i <= chunks,
            total == diff_prefix(a@, b@, i as int),
            0 <= total <= i * MAX_PIXEL_DISTANCE,
        decreases chunks - i,
    {
        assert(i * 3 + 2 < a@.len()) by (nonlinear_arith)
            requires
                i < chunks,
                chunks == a@.len() / 3,
        ;
        let base = i * 3;
        let dr = a[base] as i64 - b[base] as i64;
        let dg = a[base + 1] as i64 - b[base + 1] as i64;
        let db = a[base + 2] as i64 - b[base + 2] as i64;
        assert(dr * dr <= 65025 && dg * dg <= 65025 && db * db <= 65025) by (nonlinear_arith)
            requires
                -255 <= dr <= 255,
                -255 <= dg <= 255,
                -255 <= db <= 255,
        ;
        assert(dr * dr >= 0 && dg * dg >= 0 && db * db >= 0) by (nonlinear_arith);
        let sq = (dr * dr + dg * dg + db * db) as u64;
        let d = isqrt(sq);
        assert(d <= 441) by (nonlinear_arith)
            requires
                d * d <= sq,
                sq <= 195075,
        ;
        total = total + d as i64;
        i = i + 1;
        assert(i * MAX_PIXEL_DISTANCE == (i - 1) * MAX_PIXEL_DISTANCE + MAX_PIXEL_DISTANCE) by (nonlinear_arith);
    }
    total
}

/// Columns `[lo, hi]` that a horizontal span from `x1` to `x2` (in either
/// order) on row `y` covers once clipped to a `width` x `height` canvas, or
/// `None` when the row is outside the canvas or nothing of the span is left.
pub open spec fn hline_span_spec(width: u32, height: u32, x1: i32, x2: i32, y: i32) -> Option<(u32, u32)> {
    let a = if x1 <= x2 { x1 as int } else { x2 as int };
    let b = if x1 <= x2 { x2 as int } else { x1 as int };
    let lo = if a < 0 { 0 } else { a };
    let right = (width as i32) as int - 1;
    let hi = if b < right { b } else { right };
    if y < 0 || y >= (height as i32) as int {
        None
    } else if lo > hi {
        None
    } else {
        Some((lo as u32, hi as u32))
    }
}

/// Clip a horizontal span to the canvas: the inclusive column range it
/// covers on row `y`, or `None` if it covers nothing.  The endpoints may come
/// in either order.
pub fn hline_span(width: u32, height: u32, x1: i32, x2: i32, y: i32) -> (r: Option<(u32, u32)>)
    requires
        (width as i32) > i32::MIN,
    ensures
        r == hline_span_spec(width, height, x1, x2, y),
        r matches Some((lo, hi)) ==> lo <= hi < width && 0 <= y < height,
{
    if y < 0 || y >= #[verifier::truncate] (height as i32) {
        return None;
    }
    let (a, b) = if x1 > x2 { (x2, x1) } else { (x1, x2) };
    let lo = if a < 0 { 0 } else { a };
    let right = #[verifier::truncate] (width as i32) - 1;
    let hi = if b < right { b } else { right };
    if lo > hi {
        return None;
    }
    Some((lo as u32, hi as u32))
}

/// The scanlines `(x_right, x_left, y)` of a filled circle: one per row from
/// `cy - radius` to `cy + radius`, each spanning `cx -/+ d` where `d` is the
/// nearest integer to `sqrt(radius^2 - dy^2)`.  A negative radius has none.
pub open spec fn circle_row(cx: i16, cy: i16, radius: i16, k: int) -> (i32, i32, i32) {
    let dy = k - radius;
    let d = round_sqrt_spec(radius * radius - dy * dy);
    ((cx + d) as i32, (cx - d) as i32, (cy - radius + k) as i32)
}

/// Rows of a filled circle, top to bottom: `(x1, x2, y)` with
/// `x1 = cx + d` and `x2 = cx - d`, `d` the nearest integer to
/// `sqrt(radius^2 - (y - cy)^2)` (the values `f64::sqrt` and `round` give).
pub fn circle_scanlines(cx: i16, cy: i16, radius: i16) -> (rows: Vec<(i32, i32, i32)>)
    ensures
        rows@.len() == if radius < 0 { 0 } else { 2 * radius + 1 },
        forall|k: int| 0 <= k < rows@.len() ==> #[trigger] rows@[k] == circle_row(cx, cy, radius, k),
{
    let mut rows: Vec<(i32, i32, i32)> = Vec::new();
    if radius < 0 {
        return rows;
    }
    let r = radius as i64;
    let mut k: i64 = 0;
    while k <= 2 * r
        invariant
            r == radius,
            0 <= r,
            0 <= k <= 2 * r + 1,
            rows@.len() == k,
            forall|j: int| 0 <= j < k ==> #[trigger] rows@[j] == circle_row(cx, cy, radius, j),
        decreases 2 * r + 1 - k,
    {
        let dy = k - r;
        assert(0 <= r * r - dy * dy <= r * r <= 32767 * 32767) by (nonlinear_arith)
            requires
                -r <= dy <= r,
                0 <= r <= 32767,
        ;
        let n = (r * r - dy * dy) as u64;
        let du = round_sqrt(n);
        assert(du <= r) by (nonlinear_arith)
            requires
                du >= 1 ==> du * du - du < n,
                n <= r * r,
                0 <= r,
        ;
        let d = du as i64;
        let row = ((cx as i64 + d) as i32, (cx as i64 - d) as i32, (cy as i64 - r + k) as i32);
        rows.push(row);
        k = k + 1;
    }
    rows
}

/// `a / b` rounded toward zero, as integer division does in Rust.
pub open spec fn trunc_div(a: int, b: int) -> int {
    if b > 0 {
        if a >= 0 { a / b } else { -((-a) / b) }
    } else {
        if a >= 0 { -(a / (-b)) } else { (-a) / (-b) }
    }
}

/// `p / d` as Rust computes it on `i32`: rounded toward zero.
pub(crate) fn div_toward_zero(p: i32, d: i32) -> (q: i32)
    requires
        d != 0,
        p > i32::MIN,
        d > i32::MIN,
    ensures
        q == trunc_div(p as int, d as int),
{
    // Rounding toward zero is the same for `p / d` and `(-p) / (-d)`; the
    // second form keeps the divisor positive.
    if d > 0 {
        let q = p / d;
        if p >= 0 {
            assert(q == p as int / d as int);
        } else {
            assert(q == -((-p) as int / d as int));
        }
        q
    } else {
        let np = -p;
        let nd = -d;
        let q = np / nd;
        if np >= 0 {
            assert(q == np as int / nd as int);
        } else {
            assert(q == -((-np) as int / nd as int));
        }
        q
    }
}

/// The order on `i32` by which crossings are sorted.
pub open spec fn le_i32() -> spec_fn(i32, i32) -> bool {
    |a: i32, b: i32| a <= b
}

proof fn lemma_le_i32_total()
    ensures
        total_ordering(le_i32()),
{
}

/// Sort integers into non-decreasing order.
pub fn sort_i32(v: &Vec<i32>) -> (out: Vec<i32>)
    ensures
        out@ == v@.sort_by(le_i32()),
{
    broadcast use vstd::seq_lib::group_to_multiset_ensures;
    let mut out: Vec<i32> = Vec::new();
    let mut i: usize = 0;
    while i < v.len()
        invariant
            i <= v@.len(),
            sorted_by(out@, le_i32()),
            out@.to_multiset() == v@.take(i as int).to_multiset(),
        decreases v@.len() - i,
    {
        let x = v[i];
        let mut p: usize = 0;
        while p < out.len() && out[p] <= x
            invariant
                p <= out@.len(),
                forall|j: int| 0 <= j < p ==> out@[j] <= x,
            decreases out@.len() - p,
        {
            p = p + 1;
        }
        let ghost before = out@;
        out.insert(p, x);
        proof {
            assert forall|a: int, b: int| 0 <= a < b < out@.len() implies #[trigger] le_i32()(out@[a], out@[b]) by {
                assert(le_i32()(out@[a], out@[b]) == (out@[a] <= out@[b]));
                if b < p {
                    assert(le_i32()(before[a], before[b]));
                } else if b == p {
                } else if a < p {
                    assert(le_i32()(before[a], before[b - 1]));
                } else if a == p {
                    assert(le_i32()(before[p as int], before[b - 1]) || b - 1 == p);
                } else {
                    assert(le_i32()(before[a - 1], before[b - 1]));
                }
            }
            assert(v@.take(i + 1) =~= v@.take(i as int).push(x));
            vstd::seq_lib::to_multiset_insert(before, p as int, x);
            vstd::seq_lib::to_multiset_build(v@.take(i as int), x);
        }
        i = i + 1;
    }
    proof {
        assert(v@.take(v@.len() as int) =~= v@);
        lemma_le_i32_total();
        v@.lemma_sort_by_ensures(le_i32());
        lemma_sorted_unique(out@, v@.sort_by(le_i32()), le_i32());
    }
    out
}

/// Index of the vertex that follows vertex `i` around the polygon.
pub open spec fn next_index(v: Seq<(i16, i16)>, i: int) -> int {
    (i + 1) % (v.len() as int)
}

/// The edge from vertex `i` to the next vertex crosses scanline `y`, counting
/// its lower endpoint and not its upper one.
pub open spec fn edge_crosses(v: Seq<(i16, i16)>, i: int, y: int) -> bool {
    let y1 = v[i].1 as int;
    let y2 = v[next_index(v, i)].1 as int;
    (y1 <= y && y < y2) || (y2 <= y && y < y1)
}

/// Where the edge from vertex `i` meets scanline `y`: `x1 + (y - y1) *
/// (x2 - x1) / (y2 - y1)` with the division rounded toward zero.
pub open spec fn edge_x(v: Seq<(i16, i16)>, i: int, y: int) -> int {
    let x1 = v[i].0 as int;
    let y1 = v[i].1 as int;
    let x2 = v[next_index(v, i)].0 as int;
    let y2 = v[next_index(v, i)].1 as int;
    x1 + trunc_div((y - y1) * (x2 - x1), y2 - y1)
}

/// Crossings of scanline `y` by the edges leaving vertices `0..m`, in edge order.
pub open spec fn crossings(v: Seq<(i16, i16)>, y: int, m: int) -> Seq<i32>
    decreases m,
{
    if m <= 0 {
        Seq::empty()
    } else {
        let c = crossings(v, y, m - 1);
        if edge_crosses(v, m - 1, y) {
            c.push(edge_x(v, m - 1, y) as i32)
        } else {
            c
        }
    }
}

/// Spans `(xs[0], xs[1], y), (xs[2], xs[3], y), ...`; an unpaired last
/// crossing is dropped.
pub open spec fn pair_spans(xs: Seq<i32>, y: i32) -> Seq<(i32, i32, i32)> {
    Seq::new(xs.len() / 2, |k: int| (xs[2 * k], xs[2 * k + 1], y))
}

/// Spans filled on scanline `y`: the sorted crossings taken in pairs.
pub open spec fn row_spans(v: Seq<(i16, i16)>, y: int) -> Seq<(i32, i32, i32)> {
    pair_spans(crossings(v, y, v.len() as int).sort_by(le_i32()), y as i32)
}

/// Spans of the scanlines `lo..=hi`, top to bottom.
pub open spec fn spans_between(v: Seq<(i16, i16)>, lo: int, hi: int) -> Seq<(i32, i32, i32)>
    decreases hi - lo + 1,
{
    if hi < lo {
        Seq::empty()
    } else {
        spans_between(v, lo, hi - 1) + row_spans(v, hi)
    }
}

/// Smallest `y` among the first `m` vertices (`m >= 1`).
pub open spec fn min_y(v: Seq<(i16, i16)>, m: int) -> int
    decreases m,
{
    if m <= 1 {
        v[0].1 as int
    } else {
        let a = min_y(v, m - 1);
        let b = v[m - 1].1 as int;
        if b < a { b } else { a }
    }
}

/// Largest `y` among the first `m` vertices (`m >= 1`).
pub open spec fn max_y(v: Seq<(i16, i16)>, m: int) -> int
    decreases m,
{
    if m <= 1 {
        v[0].1 as int
    } else {
        let a = max_y(v, m - 1);
        let b = v[m - 1].1 as int;
        if b > a { b } else { a }
    }
}

/// Scanline spans of a filled polygon (even-odd rule): for every row from
/// the lowest to the highest vertex `y`, the crossings of the edges with the
/// row, sorted, taken in pairs.  Fewer than three vertices fill nothing.
pub open spec fn polygon_spans(v: Seq<(i16, i16)>) -> Seq<(i32, i32, i32)> {
    if v.len() < 3 {
        Seq::empty()
    } else {
        spans_between(v, min_y(v, v.len() as int), max_y(v, v.len() as int))
    }
}

/// `|a|`.
pub open spec fn abs(a: int) -> int {
    if a < 0 { -a } else { a }
}

/// The crossing arithmetic of every edge stays within `i32`: the product of
/// its height and width does.
pub open spec fn polygon_ok(v: Seq<(i16, i16)>) -> bool {
    forall|i: int|
        0 <= i < v.len() ==> abs(v[next_index(v, i)].1 - v[i].1) * abs(v[next_index(v, i)].0 - v[i].0)
            <= i32::MAX as int
}

proof fn lemma_crossing_bounds(a: int, dy: int, dx: int)
    requires
        abs(a) <= abs(dy),
        dy != 0,
        abs(dy) * abs(dx) <= i32::MAX as int,
    ensures
        abs(a * dx) <= i32::MAX as int,
        abs(trunc_div(a * dx, dy)) <= abs(dx),
{
    assert(abs(a * dx) == abs(a) * abs(dx)) by (nonlinear_arith);
    assert(abs(a) * abs(dx) <= abs(dy) * abs(dx)) by (nonlinear_arith)
        requires
            abs(a) <= abs(dy),
    ;
    let p = abs(a * dx);
    let q = abs(dy);
    assert(p / q <= abs(dx)) by (nonlinear_arith)
        requires
            p <= q * abs(dx),
            q > 0,
            p >= 0,
    ;
    assert(abs(trunc_div(a * dx, dy)) == p / q);
}

/// Sorted crossings of scanline `y` with the polygon's edges.
fn row_crossings(vertices: &[(i16, i16)], y: i32) -> (xs: Vec<i32>)
    requires
        vertices@.len() >= 1,
        polygon_ok(vertices@),
    ensures
        xs@ == crossings(vertices@, y as int, vertices@.len() as int),
{
    let n = vertices.len();
    let mut xs: Vec<i32> = Vec::new();
    let mut i: usize = 0;
    while i < n
        invariant
            n == vertices@.len(),
            n >= 1,
            i <= n,
            polygon_ok(vertices@),
            xs@ == crossings(vertices@, y as int, i as int),
        decreases n - i,
    {
        let j = (i + 1) % n;
        let x1 = vertices[i].0 as i32;
        let y1 = vertices[i].1 as i32;
        let x2 = vertices[j].0 as i32;
        let y2 = vertices[j].1 as i32;
        if (y1 <= y && y < y2) || (y2 <= y && y < y1) {
            proof {
                assert(j == next_index(vertices@, i as int));
                lemma_crossing_bounds((y - y1) as int, (y2 - y1) as int, (x2 - x1) as int);
            }
            let p = (y - y1) * (x2 - x1);
            let d = y2 - y1;
            let q = div_toward_zero(p, d);
            let x = x1 + q;
            xs.push(x);
        }
        i = i + 1;
    }
    xs
}

/// Smallest and largest vertex `y`.
fn y_range(vertices: &[(i16, i16)]) -> (r: (i32, i32))
    requires
        vertices@.len() >= 1,
    ensures
        r.0 == min_y(vertices@, vertices@.len() as int),
        r.1 == max_y(vertices@, vertices@.len() as int),
        r.1 <= i16::MAX,
{
    let mut lo = vertices[0].1 as i32;
    let mut hi = vertices[0].1 as i32;
    let mut i: usize = 1;
    while i < vertices.len()
        invariant
            1 <= i <= vertices@.len(),
            lo == min_y(vertices@, i as int),
            hi == max_y(vertices@, i as int),
            hi <= i16::MAX,
        decreases vertices@.len() - i,
    {
        let y = vertices[i].1 as i32;
        if y < lo {
            lo = y;
        }
        if y > hi {
            hi = y;
        }
        i = i + 1;
    }
    (lo, hi)
}

/// Scanline spans `(x1, x2, y)` that fill a polygon, row by row from the
/// lowest to the highest vertex: each row's edge crossings (lower endpoint
/// included, upper excluded), sorted and taken in pairs.
pub fn polygon_scanlines(vertices: &[(i16, i16)]) -> (spans: Vec<(i32, i32, i32)>)
    requires
        polygon_ok(vertices@),
    ensures
        spans@ == polygon_spans(vertices@),
{
    let mut spans: Vec<(i32, i32, i32)> = Vec::new();
    if vertices.len() < 3 {
        return spans;
    }
    let (ymin, ymax) = y_range(vertices);
    let mut y = ymin;
    while y <= ymax
        invariant
            vertices@.len() >= 3,
            polygon_ok(vertices@),
            ymin == min_y(vertices@, vertices@.len() as int),
            ymax == max_y(vertices@, vertices@.len() as int),
            ymin <= y <= ymax + 1,
            ymax <= i16::MAX,
            spans@ == spans_between(vertices@, ymin as int, y - 1),
        decreases ymax + 1 - y,
    {
        let xs = row_crossings(vertices, y);
        let sorted = sort_i32(&xs);
        let ghost before = spans@;
        let ghost row = row_spans(vertices@, y as int);
        let mut k: usize = 0;
        while k + 1 < sorted.len()
            invariant
                k % 2 == 0,
                k <= sorted@.len(),
                sorted@ == crossings(vertices@, y as int, vertices@.len() as int).sort_by(le_i32()),
                row == pair_spans(sorted@, y),
                spans@ == before + row.take(k as int / 2),
            decreases sorted@.len() - k,
        {
            spans.push((sorted[k], sorted[k + 1], y));
            proof {
                assert(row.take((k + 2) as int / 2) =~= row.take(k as int / 2).push(row[k as int / 2]));
            }
            k = k + 2;
        }
        proof {
            assert(row.take(k as int / 2) =~= row);
            assert(spans_between(vertices@, ymin as int, y as int) == before + row);
        }
        y = y + 1;
    }
    spans
}


/// The difference between a buffer and itself is zero.
pub proof fn lemma_diff_identical_is_zero(a: Seq<u8>, k: int)
    ensures
        diff_prefix(a, a, k) == 0,
    decreases k,
{
    if k > 0 {
        lemma_diff_identical_is_zero(a, k - 1);
        lemma_isqrt_spec(0);
        lemma_isqrt_unique(0, isqrt_spec(0), 0);
    }
}

/// A span on a row outside the canvas covers nothing.
pub proof fn lemma_rows_outside_canvas_draw_nothing(width: u32, height: u32, x1: i32, x2: i32, y: i32)
    requires
        y < 0 || y >= (height as i32) as int,
    ensures
        hline_span_spec(width, height, x1, x2, y) is None,
{
}

} // verus!

verus! {

/// The difference of two one-pixel images is the Euclidean distance of
/// their colours, rounded down: the largest `d` with `d * d` at most the sum
/// of the squared differences of red, green and blue.
pub proof fn lemma_one_pixel_diff(r1: u8, g1: u8, b1: u8, r2: u8, g2: u8, b2: u8)
    ensures
        ({
            let d = diff_prefix(seq![r1, g1, b1], seq![r2, g2, b2], 1);
            let n = (r1 - r2) * (r1 - r2) + (g1 - g2) * (g1 - g2) + (b1 - b2) * (b1 - b2);
            0 <= d && d * d <= n && n < (d + 1) * (d + 1)
        }),
{
    let a = seq![r1, g1, b1];
    let b = seq![r2, g2, b2];
    assert(a[0] == r1 && a[1] == g1 && a[2] == b1);
    assert(b[0] == r2 && b[1] == g2 && b[2] == b2);
    let n = (r1 - r2) * (r1 - r2) + (g1 - g2) * (g1 - g2) + (b1 - b2) * (b1 - b2);
    let (dr, dg, db) = (r1 - r2, g1 - g2, b1 - b2);
    assert(dr * dr >= 0 && dg * dg >= 0 && db * db >= 0) by (nonlinear_arith);
    lemma_isqrt_spec(n);
    assert(diff_prefix(a, b, 0) == 0);
    assert(pixel_distance(a, b, 0) == isqrt_spec(n));
}

/// The first `k` pixels' difference depends only on those pixels.
proof fn lemma_diff_prefix_agree(a: Seq<u8>, b: Seq<u8>, c: Seq<u8>, e: Seq<u8>, k: int)
    requires
        forall|i: int| 0 <= i < k ==> pixel_distance(a, b, i) == #[trigger] pixel_distance(c, e, i),
    ensures
        diff_prefix(a, b, k) == diff_prefix(c, e, k),
    decreases k,
{
    if k > 0 {
        lemma_diff_prefix_agree(a, b, c, e, k - 1);
        assert(pixel_distance(a, b, k - 1) == pixel_distance(c, e, k - 1));
    }
}

/// The difference of two images side by side is the sum of the
/// differences of the parts: images of `k` and of `m` pixels joined give
/// the difference of the first part plus that of the second.
pub proof fn lemma_diff_of_joined(a: Seq<u8>, b: Seq<u8>, c: Seq<u8>, e: Seq<u8>, k: int, m: int)
    requires
        0 <= k,
        0 <= m,
        a.len() == 3 * k,
        b.len() == 3 * k,
        c.len() >= 3 * m,
        e.len() >= 3 * m,
    ensures
        diff_prefix(a + c, b + e, k + m) == diff_prefix(a, b, k) + diff_prefix(c, e, m),
    decreases m,
{
    if m == 0 {
        assert forall|i: int| 0 <= i < k implies pixel_distance(a + c, b + e, i) == #[trigger] pixel_distance(a, b, i) by {
            assert((a + c)[3 * i] == a[3 * i] && (a + c)[3 * i + 1] == a[3 * i + 1] && (a + c)[3 * i + 2] == a[3 * i + 2]);
            assert((b + e)[3 * i] == b[3 * i] && (b + e)[3 * i + 1] == b[3 * i + 1] && (b + e)[3 * i + 2] == b[3 * i + 2]);
        }
        lemma_diff_prefix_agree(a + c, b + e, a, b, k);
    } else {
        lemma_diff_of_joined(a, b, c, e, k, m - 1);
        let j = k + m - 1;
        assert((a + c)[3 * j] == c[3 * (m - 1)] && (a + c)[3 * j + 1] == c[3 * (m - 1) + 1] && (a + c)[3 * j + 2] == c[3
            * (m - 1) + 2]);
        assert((b + e)[3 * j] == e[3 * (m - 1)] && (b + e)[3 * j + 1] == e[3 * (m - 1) + 1] && (b + e)[3 * j + 2] == e[3
            * (m - 1) + 2]);
        assert(pixel_distance(a + c, b + e, j) == pixel_distance(c, e, m - 1));
    }
}

/// `round_sqrt_spec` is the integer nearest to the square root.
proof fn lemma_round_sqrt_spec(n: int)
    requires
        n >= 0,
    ensures
        is_round_sqrt(n, round_sqrt_spec(n)),
{
    lemma_isqrt_spec(n);
    let k = isqrt_spec(n);
    assert((k + 1) * (k + 1) == k * k + 2 * k + 1) by (nonlinear_arith);
    assert((k + 1) * (k + 1) - (k + 1) == k * k + k) by (nonlinear_arith);
    assert(k == 0 ==> k * k == 0) by (nonlinear_arith);
}

/// Every row of a filled circle is centred on the circle's centre: it runs
/// from `cx - d` to `cx + d` on row `cy - radius + k`, where `d >= 0` is
/// the integer nearest to the half-chord `sqrt(radius^2 - (y - cy)^2)`.
pub proof fn lemma_circle_rows_centred(cx: i16, cy: i16, radius: i16, k: int)
    requires
        0 <= radius,
        0 <= k <= 2 * radius,
    ensures
        ({
            let (x1, x2, y) = circle_row(cx, cy, radius, k);
            &&& x1 + x2 == 2 * cx
            &&& x2 <= cx <= x1
            &&& y == cy - radius + k
            &&& is_round_sqrt(radius * radius - (y - cy) * (y - cy), x1 - cx)
        }),
{
    let r = radius as int;
    let dy = k - r;
    assert(0 <= r * r - dy * dy <= r * r) by (nonlinear_arith)
        requires
            -r <= dy <= r,
            0 <= r,
    ;
    let n = r * r - dy * dy;
    lemma_round_sqrt_spec(n);
    let d = round_sqrt_spec(n);
    assert(d <= r) by (nonlinear_arith)
        requires
            d >= 1 ==> d * d - d < n,
            n <= r * r,
            0 <= r,
            0 <= d,
    ;
    assert(r <= 32767);
}

/// `x` lies within the horizontal extent of the vertices: no left of all
/// of them and no right of all of them.
pub open spec fn within_x(v: Seq<(i16, i16)>, x: int) -> bool {
    &&& exists|i: int| 0 <= i < v.len() && #[trigger] v[i].0 <= x
    &&& exists|j: int| 0 <= j < v.len() && x <= #[trigger] v[j].0
}

/// `a * dx / dy` rounded toward zero, for `a` between 0 and `dy` (0
/// included, `dy` not), lies between 0 and `dx`.
proof fn lemma_trunc_div_between(a: int, dx: int, dy: int)
    requires
        (0 <= a < dy) || (dy < a <= 0) || (dy < 0 && a == dy),
        dy != 0,
    ensures
        dx >= 0 ==> 0 <= trunc_div(a * dx, dy) <= dx,
        dx < 0 ==> dx <= trunc_div(a * dx, dy) <= 0,
        a == 0 ==> trunc_div(a * dx, dy) == 0,
{
    let p = a * dx;
    if dy > 0 {
        if dx >= 0 {
            assert(0 <= p <= dy * dx) by (nonlinear_arith)
                requires
                    0 <= a < dy,
                    dx >= 0,
                    p == a * dx,
            ;
            assert(p / dy <= dx) by (nonlinear_arith)
                requires
                    0 <= p <= dy * dx,
                    dy > 0,
            ;
        } else {
            assert(0 <= -p <= dy * (-dx)) by (nonlinear_arith)
                requires
                    0 <= a < dy,
                    dx < 0,
                    p == a * dx,
            ;
            assert((-p) / dy <= -dx) by (nonlinear_arith)
                requires
                    0 <= -p <= dy * (-dx),
                    dy > 0,
            ;
        }
    } else {
        let na = -a;
        let nd = -dy;
        if dx >= 0 {
            assert(0 <= -p <= nd * dx) by (nonlinear_arith)
                requires
                    0 <= na <= nd,
                    dx >= 0,
                    p == a * dx,
                    na == -a,
            ;
            assert((-p) / nd <= dx) by (nonlinear_arith)
                requires
                    0 <= -p <= nd * dx,
                    nd > 0,
            ;
        } else {
            assert(0 <= p <= nd * (-dx)) by (nonlinear_arith)
                requires
                    0 <= na <= nd,
                    dx < 0,
                    p == a * dx,
                    na == -a,
            ;
            assert(p / nd <= -dx) by (nonlinear_arith)
                requires
                    0 <= p <= nd * (-dx),
                    nd > 0,
            ;
        }
    }
    if a == 0 {
        assert(p == 0);
    }
}

/// Where an edge crosses a scanline lies on the edge: between the `x`s of
/// its two ends, and at its first end on that end's row.
pub proof fn lemma_crossing_on_edge(v: Seq<(i16, i16)>, i: int, y: int)
    requires
        0 <= i < v.len(),
        edge_crosses(v, i, y),
    ensures
        ({
            let x1 = v[i].0 as int;
            let x2 = v[next_index(v, i)].0 as int;
            let x = edge_x(v, i, y);
            &&& (x1 <= x <= x2) || (x2 <= x <= x1)
            &&& y == v[i].1 ==> x == x1
        }),
{
    let x1 = v[i].0 as int;
    let y1 = v[i].1 as int;
    let x2 = v[next_index(v, i)].0 as int;
    let y2 = v[next_index(v, i)].1 as int;
    lemma_trunc_div_between(y - y1, x2 - x1, y2 - y1);
}

/// Every crossing of scanline `y` lies within the vertices' horizontal
/// extent.
proof fn lemma_crossings_within(v: Seq<(i16, i16)>, y: int, m: int)
    requires
        m <= v.len(),
    ensures
        forall|j: int| 0 <= j < crossings(v, y, m).len() ==> within_x(v, #[trigger] crossings(v, y, m)[j] as int),
    decreases m,
{
    if m > 0 {
        lemma_crossings_within(v, y, m - 1);
        let c = crossings(v, y, m - 1);
        if edge_crosses(v, m - 1, y) {
            lemma_crossing_on_edge(v, m - 1, y);
            let x = edge_x(v, m - 1, y);
            let k = next_index(v, m - 1);
            assert(0 <= k < v.len()) by {
                vstd::arithmetic::div_mod::lemma_mod_bound(m, v.len() as int);
            }
            assert(x as i32 == x);
            assert(within_x(v, x)) by {
                if v[m - 1].0 <= x && x <= v[k].0 {
                    assert(v[m - 1].0 <= x && x <= v[k].0);
                } else {
                    assert(v[k].0 <= x && x <= v[m - 1].0);
                }
            }
            assert forall|j: int| 0 <= j < c.push(x as i32).len() implies within_x(v, #[trigger] c.push(x as i32)[j] as int) by {
                if j < c.len() {
                    assert(c.push(x as i32)[j] == c[j]);
                }
            }
        }
    }
}

/// Every span of a filled polygon lies within the polygon's horizontal
/// extent: each end is neither left of all vertices nor right of all of
/// them, and the left end is not right of the right end.  Each span's row
/// lies between the lowest and the highest vertex.
pub proof fn lemma_polygon_spans_within(v: Seq<(i16, i16)>)
    ensures
        forall|k: int|
            0 <= k < polygon_spans(v).len() ==> {
                &&& within_x(v, #[trigger] polygon_spans(v)[k].0 as int)
                &&& within_x(v, polygon_spans(v)[k].1 as int)
                &&& polygon_spans(v)[k].0 <= polygon_spans(v)[k].1
                &&& min_y(v, v.len() as int) <= polygon_spans(v)[k].2 <= max_y(v, v.len() as int)
            },
{
    if v.len() >= 3 {
        lemma_y_bounds(v, v.len() as int);
        lemma_spans_between_within(v, min_y(v, v.len() as int), max_y(v, v.len() as int));
    }
}

/// The lowest and highest `y` of the first `m` vertices are `i16` values.
proof fn lemma_y_bounds(v: Seq<(i16, i16)>, m: int)
    requires
        1 <= m <= v.len(),
    ensures
        i16::MIN <= min_y(v, m) <= i16::MAX,
        i16::MIN <= max_y(v, m) <= i16::MAX,
    decreases m,
{
    if m > 1 {
        lemma_y_bounds(v, m - 1);
    }
}

#[verifier::spinoff_prover]
#[verifier::rlimit(40)]
proof fn lemma_spans_between_within(v: Seq<(i16, i16)>, lo: int, hi: int)
    requires
        i16::MIN <= lo,
        hi <= i16::MAX,
    ensures
        forall|k: int|
            0 <= k < spans_between(v, lo, hi).len() ==> {
                &&& within_x(v, #[trigger] spans_between(v, lo, hi)[k].0 as int)
                &&& within_x(v, spans_between(v, lo, hi)[k].1 as int)
                &&& spans_between(v, lo, hi)[k].0 <= spans_between(v, lo, hi)[k].1
                &&& lo <= spans_between(v, lo, hi)[k].2 <= hi
            },
    decreases hi - lo + 1,
{
    if hi >= lo {
        lemma_spans_between_within(v, lo, hi - 1);
        let before = spans_between(v, lo, hi - 1);
        let xs = crossings(v, hi, v.len() as int);
        lemma_crossings_within(v, hi, v.len() as int);
        lemma_le_i32_total();
        xs.lemma_sort_by_ensures(le_i32());
        let sorted = xs.sort_by(le_i32());
        assert(sorted.len() == xs.len()) by {
            vstd::seq_lib::to_multiset_len(sorted);
            vstd::seq_lib::to_multiset_len(xs);
        }
        let row = row_spans(v, hi);
        assert forall|k: int| 0 <= k < row.len() implies {
            &&& within_x(v, #[trigger] row[k].0 as int)
            &&& within_x(v, row[k].1 as int)
            &&& row[k].0 <= row[k].1
            &&& lo <= row[k].2 <= hi
        } by {
            assert(sorted.contains(sorted[2 * k]) && sorted.contains(sorted[2 * k + 1]));
            let a = sorted[2 * k];
            let b = sorted[2 * k + 1];
            assert(xs.contains(a));
            assert(xs.contains(b));
            let ia = choose|j: int| 0 <= j < xs.len() && xs[j] == a;
            let ib = choose|j: int| 0 <= j < xs.len() && xs[j] == b;
            assert(within_x(v, xs[ia] as int));
            assert(within_x(v, xs[ib] as int));
            assert(le_i32()(sorted[2 * k], sorted[2 * k + 1]));
            assert(hi as i32 == hi);
        }
        let all = spans_between(v, lo, hi);
        assert(all == before + row);
        assert forall|k: int| 0 <= k < all.len() implies {
            &&& within_x(v, #[trigger] all[k].0 as int)
            &&& within_x(v, all[k].1 as int)
            &&& all[k].0 <= all[k].1
            &&& lo <= all[k].2 <= hi
        } by {
            if k < before.len() {
                assert(all[k] == before[k]);
                let b = before[k];
                assert(within_x(v, b.0 as int) && within_x(v, b.1 as int) && b.0 <= b.1 && lo <= b.2 <= hi - 1);
            } else {
                let j = k - before.len();
                assert(all[k] == row[j]);
                let b = row[j];
                assert(within_x(v, b.0 as int) && within_x(v, b.1 as int) && b.0 <= b.1 && lo <= b.2 <= hi);
            }
        }
    }
}

/// `t` is `p / d` rounded toward zero: `|t| * |d| <= |p| < (|t| + 1) * |d|`
/// and `t` has the sign of `p * d` (or is 0).
proof fn lemma_trunc_div_exact(p: int, d: int)
    requires
        d != 0,
    ensures
        abs(trunc_div(p, d)) * abs(d) <= abs(p) < (abs(trunc_div(p, d)) + 1) * abs(d),
        trunc_div(p, d) * p * d >= 0,
{
    let ap = abs(p);
    let ad = abs(d);
    vstd::arithmetic::div_mod::lemma_fundamental_div_mod(ap, ad);
    vstd::arithmetic::div_mod::lemma_mod_bound(ap, ad);
    let t = ap / ad;
    assert(t >= 0) by {
        vstd::arithmetic::div_mod::lemma_div_pos_is_pos(ap, ad);
    }
    assert(t * ad <= ap < (t + 1) * ad) by (nonlinear_arith)
        requires
            ap == ad * t + ap % ad,
            0 <= ap % ad < ad,
    ;
    assert(abs(trunc_div(p, d)) == t);
    let q = trunc_div(p, d);
    assert(q * p * d >= 0) by (nonlinear_arith)
        requires
            (p >= 0 && d > 0) ==> q >= 0,
            (p < 0 && d > 0) ==> q <= 0,
            (p >= 0 && d < 0) ==> q <= 0,
            (p < 0 && d < 0) ==> q >= 0,
    ;
}

/// Where an edge crosses a scanline, exactly: `x - x1` is
/// `(y - y1) * (x2 - x1) / (y2 - y1)` rounded toward zero, i.e. its size
/// times `|y2 - y1|` is at most `|(y - y1) * (x2 - x1)|` and one more would
/// pass it, and it has the sign of the slope's run in that direction.
pub proof fn lemma_crossing_exact(v: Seq<(i16, i16)>, i: int, y: int)
    requires
        0 <= i < v.len(),
        edge_crosses(v, i, y),
    ensures
        ({
            let x1 = v[i].0 as int;
            let y1 = v[i].1 as int;
            let x2 = v[next_index(v, i)].0 as int;
            let y2 = v[next_index(v, i)].1 as int;
            let x = edge_x(v, i, y);
            let p = (y - y1) * (x2 - x1);
            &&& abs(x - x1) * abs(y2 - y1) <= abs(p) < (abs(x - x1) + 1) * abs(y2 - y1)
            &&& (x - x1) * p * (y2 - y1) >= 0
        }),
{
    let y1 = v[i].1 as int;
    let y2 = v[next_index(v, i)].1 as int;
    lemma_trunc_div_exact((y - y1) * (v[next_index(v, i)].0 - v[i].0), y2 - y1);
}

} // verus!
