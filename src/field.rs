//! A band of the sampled plane and its resumable escape-time state.
use vstd::prelude::*;
use crate::fixed::{
    coord_ok, escaped, iter_ok, lemma_inside_components, norm2, norm2_exec, rescale, step_point, step_spec,
    zero_point, Point, COORD_BOUND, ESCAPE_NORM2, ONE,
};
use crate::flags::{flags_of, Flags};
use crate::zoom::{view_fits, Viewport};

verus! {

/// Iteration steps applied to each open pixel per batch.
pub const BATCH: u64 = 20;

/// Largest band width or height in pixels.
pub const MAX_DIM: usize = 4096;

/// `2^106`: the squared norm, at the scale of a product, of 1024.0.
pub const OCTAVE_START: i128 = 81129638414606681695789005144064;

/// The octave of an escaped squared norm: the largest `k` in `[9, 21]` with
/// `|z|^2 >= 2^k`, counted from `k` with `t = 2^(96 + k + 1)`.
pub open spec fn octave_from(n2: int, k: int, t: int) -> int
    decreases 21 - k,
{
    if k < 21 && n2 >= t {
        octave_from(n2, k + 1, 2 * t)
    } else {
        k
    }
}

/// The octave of an escaped squared norm.
pub open spec fn octave(n2: int) -> int {
    octave_from(n2, 9, OCTAVE_START as int)
}

/// An integer stand-in for `8 * ln(ln |z|^2)` over an octave.
pub open spec fn loglog8(k: int) -> int {
    15 + ((k - 9) * 7) / 12
}

/// Smooth escape brightness: `n` steps (at most a batch), less the
/// `ln(ln |z|^2)` correction, mapped into `120 ..= 248`.
pub open spec fn shade_spec(n: int, n2: int) -> u8 {
    let t = 8 * n - loglog8(octave(n2));
    (120 + (128 * (if t < 0 { 0 } else { t })) / 160) as u8
}

/// Steps credited to a pixel that escapes at step `j` (from zero) of a batch
/// begun after `base` steps: the steps it has taken, capped at a batch.
pub open spec fn credited(base: int, j: int) -> int {
    if base + j + 1 < BATCH {
        base + j + 1
    } else {
        BATCH as int
    }
}

/// One pixel's batch from step `j` on: the iterate reached, whether it
/// escaped, and the brightness recorded when it did.
pub open spec fn run(c: Point, z: Point, j: int, base: int) -> (Point, bool, u8)
    decreases BATCH - j,
{
    if j >= BATCH {
        (z, false, 0)
    } else {
        let z2 = step_spec(z, c);
        if escaped(z2) {
            (z2, true, shade_spec(credited(base, j), norm2(z2)))
        } else {
            run(c, z2, j + 1, base)
        }
    }
}

/// The brightness of an escaped pixel.
pub fn shade(n: u64, n2: i128) -> (r: u8)
    requires
        n <= BATCH,
        n2 > ESCAPE_NORM2,
    ensures
        r == shade_spec(n as int, n2 as int),
{
    let mut k: i64 = 9;
    let mut t: i128 = OCTAVE_START;
    proof {
        vstd::arithmetic::power2::lemma2_to64();
    }
    while k < 21 && n2 >= t
        invariant
            9 <= k <= 21,
            t == OCTAVE_START * vstd::arithmetic::power2::pow2((k - 9) as nat),
            octave_from(n2 as int, k as int, t as int) == octave(n2 as int),
        decreases 21 - k,
    {
        proof {
            vstd::arithmetic::power2::lemma2_to64();
            vstd::arithmetic::power2::lemma_pow2_adds((k - 9) as nat, 1);
            vstd::arithmetic::power2::lemma_pow2_strictly_increases((k - 9) as nat, 12);
        }
        t = 2 * t;
        k = k + 1;
    }
    let ll = 15 + ((k - 9) * 7) / 12;
    let v = 8 * (n as i64) - ll;
    let v = if v < 0 { 0 } else { v };
    (120 + (128 * v) / 160) as u8
}

/// Advances one pixel through a batch.
fn advance_pixel(c: Point, z0: Point, base: u64) -> (r: (Point, bool, u8))
    requires
        coord_ok(c),
        norm2(z0) <= ESCAPE_NORM2,
    ensures
        r == run(c, z0, 0, base as int),
        iter_ok(r.0),
        r.1 == escaped(r.0),
{
    let mut z = z0;
    let mut j: u64 = 0;
    while j < BATCH
        invariant
            j <= BATCH,
            coord_ok(c),
            norm2(z) <= ESCAPE_NORM2,
            run(c, z0, 0, base as int) == run(c, z, j as int, base as int),
        decreases BATCH - j,
    {
        let z2 = step_point(z, c);
        let n2 = norm2_exec(z2);
        if n2 > ESCAPE_NORM2 {
            let n = if base >= BATCH || base + j + 1 >= BATCH { BATCH } else { base + j + 1 };
            return (z2, true, shade(n, n2));
        }
        z = z2;
        j = j + 1;
    }
    proof {
        lemma_inside_components(z);
    }
    (z, false, 0)
}

/// The sample that pixel `p` of band `band` (of `rows` rows of `width`
/// pixels, in row-major order) takes from view `v`.
pub open spec fn coord_of(v: Viewport, width: int, band: int, rows: int, p: int) -> Point {
    Point {
        re: (v.re + (p % width) * v.spacing) as i64,
        im: (v.im + (band * rows + p / width) * v.spacing) as i64,
    }
}

/// Band `band` of `rows` rows of `width` pixels, sampled from `v`, stays
/// within the coordinate bound.
pub open spec fn band_fits(v: Viewport, width: int, band: int, rows: int) -> bool {
    view_fits(v, width, (band + 1) * rows)
}

/// Band dimensions that the engine accepts.
pub open spec fn dims_ok(band: int, width: int, rows: int) -> bool {
    1 <= width <= MAX_DIM && 1 <= rows <= MAX_DIM && 0 <= band <= MAX_DIM
}

/// One horizontal band of the image and the escape-time state of each of its
/// pixels. Per-pixel sequences are indexed alike, row-major.
pub struct Field {
    /// Which band of the full image this is; never changes.
    pub band_index: usize,
    pub width: usize,
    pub rows: usize,
    /// The view the samples were taken from.
    pub view: Viewport,
    /// Steps applied to every open pixel since the last reset.
    pub steps_done: u64,
    pub coords: Vec<Point>,
    pub iterate: Vec<Point>,
    pub converged: Flags,
    /// One brightness byte per pixel; zero until the pixel escapes.
    pub color: Vec<u8>,
}

impl Field {
    pub open spec fn size(&self) -> int {
        self.width * self.rows
    }

    pub open spec fn conv(&self) -> Seq<bool> {
        flags_of(self.converged)
    }

    /// Dimensions accepted and every per-pixel sequence of the band's size.
    pub open spec fn shape_ok(&self) -> bool {
        &&& dims_ok(self.band_index as int, self.width as int, self.rows as int)
        &&& self.coords@.len() == self.size()
        &&& self.iterate@.len() == self.size()
        &&& self.conv().len() == self.size()
        &&& self.color@.len() == self.size()
    }

    /// The samples are those of the view, and a pixel is converged exactly
    /// when its iterate lies outside the escape radius.
    pub open spec fn wf(&self) -> bool {
        &&& self.shape_ok()
        &&& band_fits(self.view, self.width as int, self.band_index as int, self.rows as int)
        &&& forall|p: int| 0 <= p < self.size() ==> #[trigger] self.coords@[p]
            == coord_of(self.view, self.width as int, self.band_index as int, self.rows as int, p)
        &&& forall|p: int| 0 <= p < self.size() ==> iter_ok(#[trigger] self.iterate@[p])
        &&& forall|p: int| 0 <= p < self.size() ==> #[trigger] self.conv()[p] == escaped(self.iterate@[p])
    }
}

/// What a batch does to pixel `p`: a converged pixel is left alone; an open
/// one runs the batch from its iterate, and its colour is written only if it
/// escapes.
pub open spec fn pixel_advanced(f0: Field, f1: Field, p: int) -> bool {
    if f0.conv()[p] {
        &&& f1.iterate@[p] == f0.iterate@[p]
        &&& f1.conv()[p]
        &&& f1.color@[p] == f0.color@[p]
    } else {
        let r = run(f0.coords@[p], f0.iterate@[p], 0, f0.steps_done as int);
        &&& f1.iterate@[p] == r.0
        &&& f1.conv()[p] == r.1
        &&& f1.color@[p] == (if r.1 { r.2 } else { f0.color@[p] })
    }
}

/// `f1` is `f0` after one batch.
pub open spec fn advanced(f0: Field, f1: Field) -> bool {
    &&& f1.band_index == f0.band_index
    &&& f1.width == f0.width
    &&& f1.rows == f0.rows
    &&& f1.view == f0.view
    &&& f1.coords@ == f0.coords@
    &&& f1.steps_done == f0.steps_done + BATCH
    &&& f1.iterate@.len() == f0.iterate@.len()
    &&& f1.conv().len() == f0.conv().len()
    &&& f1.color@.len() == f0.color@.len()
    &&& forall|p: int| 0 <= p < f0.size() ==> #[trigger] pixel_advanced(f0, f1, p)
}

/// `f1` is `f0` reset to view `v`: everything but the band's identity and
/// dimensions starts over.
pub open spec fn reinitialized(f0: Field, f1: Field, v: Viewport) -> bool {
    &&& f1.band_index == f0.band_index
    &&& f1.width == f0.width
    &&& f1.rows == f0.rows
    &&& f1.view == v
    &&& f1.steps_done == 0
    &&& f1.coords@ == Seq::new(f0.size() as nat, |p: int| coord_of(v, f0.width as int, f0.band_index as int, f0.rows as int, p))
    &&& f1.iterate@ == Seq::new(f0.size() as nat, |p: int| zero_point())
    &&& f1.conv() == Seq::new(f0.size() as nat, |p: int| false)
    &&& f1.color@ == Seq::new(f0.size() as nat, |p: int| 0u8)
}

impl Field {
    /// Advances every open pixel by one batch and counts the batch.
    pub fn advance(&mut self)
        requires
            old(self).wf(),
            old(self).steps_done <= u64::MAX - BATCH,
        ensures
            final(self).wf(),
            advanced(*old(self), *final(self)),
    {
        let n = self.coords.len();
        let base = self.steps_done;
        let mut p: usize = 0;
        while p < n
            invariant
                n == old(self).size(),
                base == old(self).steps_done,
                0 <= p <= n,
                old(self).wf(),
                self.shape_ok(),
                self.band_index == old(self).band_index,
                self.width == old(self).width,
                self.rows == old(self).rows,
                self.view == old(self).view,
                self.steps_done == old(self).steps_done,
                self.coords@ == old(self).coords@,
                forall|q: int| p <= q < n ==> #[trigger] self.iterate@[q] == old(self).iterate@[q]
                    && self.conv()[q] == old(self).conv()[q] && self.color@[q] == old(self).color@[q],
                forall|q: int| 0 <= q < p ==> #[trigger] pixel_advanced(*old(self), *self, q),
                forall|q: int| 0 <= q < n ==> iter_ok(#[trigger] self.iterate@[q]),
                forall|q: int| 0 <= q < n ==> #[trigger] self.conv()[q] == escaped(self.iterate@[q]),
            decreases n - p,
        {
            let ghost prev = *self;
            if !self.converged.get(p) {
                let c = self.coords[p];
                assert(coord_ok(c)) by {
                    lemma_coord_ok(self.view, self.width as int, self.band_index as int, self.rows as int, p as int);
                }
                let r = advance_pixel(c, self.iterate[p], base);
                self.iterate.set(p, r.0);
                if r.1 {
                    self.converged.set(p, true);
                    self.color.set(p, r.2);
                }
            }
            assert(pixel_advanced(*old(self), *self, p as int));
            assert forall|q: int| 0 <= q < p implies #[trigger] pixel_advanced(*old(self), *self, q) by {
                assert(pixel_advanced(*old(self), prev, q));
                assert(self.iterate@[q] == prev.iterate@[q]);
                assert(self.conv()[q] == prev.conv()[q]);
                assert(self.color@[q] == prev.color@[q]);
            }
            p = p + 1;
        }
        let ghost prev = *self;
        self.steps_done = base + BATCH;
        assert forall|q: int| 0 <= q < old(self).size() implies #[trigger] pixel_advanced(*old(self), *self, q) by {
            assert(pixel_advanced(*old(self), prev, q));
        }
    }
}

impl Field {
    /// Resets the band to view `v`: new samples, iterates at zero, no pixel
    /// converged, colours cleared, no steps done.
    pub fn reinitialize(&mut self, v: Viewport)
        requires
            old(self).shape_ok(),
            band_fits(v, old(self).width as int, old(self).band_index as int, old(self).rows as int),
        ensures
            final(self).wf(),
            reinitialized(*old(self), *final(self), v),
    {
        let n = self.coords.len();
        let width = self.width;
        assert(self.band_index * self.rows <= 4096 * 4096) by (nonlinear_arith)
            requires self.band_index <= 4096, self.rows <= 4096, self.band_index >= 0, self.rows >= 0;
        let first_row = self.band_index * self.rows;
        assert(n <= 4096 * 4096) by (nonlinear_arith)
            requires n == self.width * self.rows, 1 <= self.width <= 4096, 1 <= self.rows <= 4096;
        let mut p: usize = 0;
        while p < n
            invariant
                n == old(self).size(),
                width == old(self).width,
                first_row == old(self).band_index * old(self).rows,
                first_row <= 4096 * 4096,
                n <= 4096 * 4096,
                band_fits(v, width as int, old(self).band_index as int, old(self).rows as int),
                0 <= p <= n,
                self.shape_ok(),
                self.band_index == old(self).band_index,
                self.width == old(self).width,
                self.rows == old(self).rows,
                forall|q: int| 0 <= q < p ==> #[trigger] self.coords@[q]
                    == coord_of(v, width as int, self.band_index as int, self.rows as int, q),
                forall|q: int| 0 <= q < p ==> #[trigger] self.iterate@[q] == zero_point(),
                forall|q: int| 0 <= q < p ==> !(#[trigger] self.conv()[q]),
                forall|q: int| 0 <= q < p ==> #[trigger] self.color@[q] == 0u8,
            decreases n - p,
        {
            proof {
                lemma_coord_ok(v, width as int, self.band_index as int, self.rows as int, p as int);
                assert(p / width <= p) by (nonlinear_arith) requires width >= 1, p >= 0;
            }
            let col = (p % width) as i64;
            let row = (first_row + p / width) as i64;
            let c = Point { re: v.re + col * v.spacing, im: v.im + row * v.spacing };
            self.coords.set(p, c);
            self.iterate.set(p, Point { re: 0, im: 0 });
            self.converged.set(p, false);
            self.color.set(p, 0);
            p = p + 1;
        }
        self.view = v;
        self.steps_done = 0;
        let ghost sz = old(self).size() as nat;
        assert(self.coords@ =~= Seq::new(sz, |q: int| coord_of(v, old(self).width as int, old(self).band_index as int, old(self).rows as int, q)));
        assert(self.iterate@ =~= Seq::new(sz, |q: int| zero_point()));
        assert(self.conv() =~= Seq::new(sz, |q: int| false));
        assert(self.color@ =~= Seq::new(sz, |q: int| 0u8));
    }

    /// A band of `rows` rows of `width` pixels, sampled from `v`, with no
    /// work done.
    pub fn new(band_index: usize, width: usize, rows: usize, v: Viewport) -> (r: Field)
        requires
            dims_ok(band_index as int, width as int, rows as int),
            band_fits(v, width as int, band_index as int, rows as int),
        ensures
            r.wf(),
            r.band_index == band_index,
            r.width == width,
            r.rows == rows,
            r.view == v,
            r.steps_done == 0,
            r.coords@ == Seq::new((width * rows) as nat, |p: int| coord_of(v, width as int, band_index as int, rows as int, p)),
            r.iterate@ == Seq::new((width * rows) as nat, |p: int| zero_point()),
            r.conv() == Seq::new((width * rows) as nat, |p: int| false),
            r.color@ == Seq::new((width * rows) as nat, |p: int| 0u8),
    {
        assert(width * rows <= 4096 * 4096) by (nonlinear_arith)
            requires 1 <= width <= 4096, 1 <= rows <= 4096;
        let n = width * rows;
        let mut coords: Vec<Point> = Vec::new();
        let mut iterate: Vec<Point> = Vec::new();
        let mut color: Vec<u8> = Vec::new();
        let mut i: usize = 0;
        while i < n
            invariant
                0 <= i <= n,
                coords@.len() == i,
                iterate@.len() == i,
                color@.len() == i,
            decreases n - i,
        {
            coords.push(Point { re: 0, im: 0 });
            iterate.push(Point { re: 0, im: 0 });
            color.push(0);
            i = i + 1;
        }
        let mut f = Field {
            band_index,
            width,
            rows,
            view: v,
            steps_done: 0,
            coords,
            iterate,
            converged: Flags::repeat(false, n),
            color,
        };
        f.reinitialize(v);
        f
    }
}

impl Field {
    /// Whether pixel `p` has escaped since the last reset.
    pub fn is_converged(&self, p: usize) -> (r: bool)
        requires
            self.shape_ok(),
            p < self.size(),
        ensures
            r == self.conv()[p as int],
    {
        self.converged.get(p)
    }

    /// The band's pixels for a 32-bit display row: four bytes per pixel, the
    /// first three the pixel's brightness and the fourth zero.
    pub fn pixel_bytes(&self) -> (r: Vec<u8>)
        requires
            self.shape_ok(),
        ensures
            r@.len() == 4 * self.size(),
            forall|p: int, k: int| 0 <= p < self.size() && 0 <= k < 4 ==> #[trigger] r@[4 * p + k]
                == (if k < 3 { self.color@[p] } else { 0u8 }),
    {
        let n = self.color.len();
        assert(n <= 4096 * 4096) by (nonlinear_arith)
            requires n == self.width * self.rows, 1 <= self.width <= 4096, 1 <= self.rows <= 4096;
        let mut out: Vec<u8> = Vec::new();
        let mut p: usize = 0;
        while p < n
            invariant
                n == self.size(),
                n <= 4096 * 4096,
                p <= n,
                self.color@.len() == n,
                out@.len() == 4 * p,
                forall|q: int, k: int| 0 <= q < p && 0 <= k < 4 ==> #[trigger] out@[4 * q + k]
                    == (if k < 3 { self.color@[q] } else { 0u8 }),
            decreases n - p,
        {
            let c = self.color[p];
            let ghost before = out@;
            out.push(c);
            out.push(c);
            out.push(c);
            out.push(0);
            assert forall|q: int, k: int| 0 <= q < p + 1 && 0 <= k < 4 implies #[trigger] out@[4 * q + k]
                == (if k < 3 { self.color@[q] } else { 0u8 }) by {
                if q < p {
                    assert(out@[4 * q + k] == before[4 * q + k]);
                }
            }
            p = p + 1;
        }
        out
    }
}

/// A batch on a band with no open pixel changes no iterate, flag or colour;
/// it only counts the batch.
pub proof fn finished_band_is_stable(f0: Field, f1: Field)
    requires
        f0.shape_ok(),
        advanced(f0, f1),
        forall|p: int| 0 <= p < f0.size() ==> #[trigger] f0.conv()[p],
    ensures
        f1.iterate@ == f0.iterate@,
        f1.conv() == f0.conv(),
        f1.color@ == f0.color@,
        f1.steps_done == f0.steps_done + BATCH,
{
    assert forall|p: int| 0 <= p < f0.size() implies #[trigger] f1.iterate@[p] == f0.iterate@[p] by {
        assert(pixel_advanced(f0, f1, p));
    }
    assert forall|p: int| 0 <= p < f0.size() implies #[trigger] f1.conv()[p] == f0.conv()[p] by {
        assert(pixel_advanced(f0, f1, p));
    }
    assert forall|p: int| 0 <= p < f0.size() implies #[trigger] f1.color@[p] == f0.color@[p] by {
        assert(pixel_advanced(f0, f1, p));
    }
    assert(f1.iterate@ =~= f0.iterate@);
    assert(f1.conv() =~= f0.conv());
    assert(f1.color@ =~= f0.color@);
}

/// Over any run of batches, a pixel once converged stays converged.
pub proof fn convergence_is_monotone(fs: Seq<Field>, i: int, j: int, p: int)
    requires
        forall|k: int| 0 <= k < fs.len() - 1 ==> advanced(#[trigger] fs[k], fs[k + 1]),
        0 <= i <= j < fs.len(),
        0 <= p < fs[i].size(),
        fs[i].conv()[p],
    ensures
        fs[j].conv()[p],
        p < fs[j].size(),
    decreases j - i,
{
    if i < j {
        assert(advanced(fs[i], fs[i + 1]));
        assert(pixel_advanced(fs[i], fs[i + 1], p));
        convergence_is_monotone(fs, i + 1, j, p);
    }
}

/// `2.25` in fixed point.
pub open spec fn far_real() -> int {
    9 * ONE / 4
}

/// On the real axis beyond `2.25`, a real non-negative iterate steps to a real
/// iterate of at least `c`, and to at least twice itself once it is at least
/// `2`.
proof fn lemma_real_step(c: Point, z: Point)
    requires
        coord_ok(c),
        c.im == 0,
        c.re >= far_real(),
        z.im == 0,
        z.re >= 0,
        norm2(z) <= ESCAPE_NORM2,
    ensures
        step_spec(z, c).im == 0,
        step_spec(z, c).re >= c.re,
        z.re >= 2 * ONE ==> step_spec(z, c).re >= 2 * z.re,
{
    lemma_inside_components(z);
    let a = z.re as int;
    let d = ONE as int;
    assert(0 <= a * a <= 0x20000000000000int * 0x20000000000000int) by (nonlinear_arith)
        requires 0 <= a <= 0x20000000000000int;
    assert(z.re * z.re - z.im * z.im == a * a);
    assert(2 * (z.re * z.im) == 0);
    assert(rescale(a * a) == (a * a) / d);
    assert((a * a) / d <= 0x400000000000000int) by (nonlinear_arith)
        requires 0 <= a * a <= 0x400000000000000int * d, d > 0;
    assert(0 <= (a * a) / d) by (nonlinear_arith) requires 0 <= a * a, d > 0;
    if a >= 2 * d {
        assert(a * a >= (2 * a) * d) by (nonlinear_arith) requires a >= 2 * d, d > 0;
        assert((a * a) / d >= ((2 * a) * d) / d) by (nonlinear_arith)
            requires a * a >= (2 * a) * d, d > 0;
        assert(((2 * a) * d) / d == 2 * a) by (nonlinear_arith) requires d > 0;
    }
}

proof fn lemma_far_escaped(z: Point)
    requires
        z.re >= 36 * ONE,
    ensures
        escaped(z),
{
    let a = z.re as int;
    let b = z.im as int;
    assert(a * a >= 10133099161583616int * 10133099161583616int) by (nonlinear_arith)
        requires a >= 10133099161583616int;
    assert(b * b >= 0) by (nonlinear_arith);
}

/// From a real non-negative iterate, a sample on the real axis beyond `2.25`
/// escapes within five steps.
proof fn lemma_far_real_run(c: Point, z0: Point, j: int, base: int)
    requires
        coord_ok(c),
        c.im == 0,
        c.re >= far_real(),
        z0.im == 0,
        z0.re >= 0,
        norm2(z0) <= ESCAPE_NORM2,
        0 <= j <= BATCH - 5,
    ensures
        run(c, z0, j, base).1,
{
    lemma_real_step(c, z0);
    let z1 = step_spec(z0, c);
    if !escaped(z1) {
        lemma_real_step(c, z1);
        let z2 = step_spec(z1, c);
        if !escaped(z2) {
            lemma_real_step(c, z2);
            let z3 = step_spec(z2, c);
            if !escaped(z3) {
                lemma_real_step(c, z3);
                let z4 = step_spec(z3, c);
                if !escaped(z4) {
                    lemma_real_step(c, z4);
                    let z5 = step_spec(z4, c);
                    lemma_far_escaped(z5);
                    assert(run(c, z4, j + 4, base).1);
                }
                assert(run(c, z3, j + 3, base).1);
            }
            assert(run(c, z2, j + 2, base).1);
        }
        assert(run(c, z1, j + 1, base).1);
    }
}

/// A pixel sampled on the real axis beyond `2.25`, whose iterate is real and
/// non-negative (as after a reset), is converged after the next batch,
/// whatever the spacing.
pub proof fn far_real_pixel_converges_in_one_batch(f0: Field, f1: Field, p: int)
    requires
        f0.wf(),
        advanced(f0, f1),
        0 <= p < f0.size(),
        f0.coords@[p].im == 0,
        f0.coords@[p].re >= far_real(),
        f0.iterate@[p].im == 0,
        f0.iterate@[p].re >= 0,
    ensures
        f1.conv()[p],
{
    assert(pixel_advanced(f0, f1, p));
    if !f0.conv()[p] {
        lemma_coord_ok(f0.view, f0.width as int, f0.band_index as int, f0.rows as int, p);
        lemma_far_real_run(f0.coords@[p], f0.iterate@[p], 0, f0.steps_done as int);
    }
}

proof fn lemma_coord_ok(v: Viewport, width: int, band: int, rows: int, p: int)
    requires
        dims_ok(band, width, rows),
        band_fits(v, width, band, rows),
        0 <= p < width * rows,
    ensures
        coord_ok(coord_of(v, width, band, rows, p)),
        -COORD_BOUND <= v.re + (p % width) * v.spacing <= COORD_BOUND,
        -COORD_BOUND <= v.im + (band * rows + p / width) * v.spacing <= COORD_BOUND,
        0 <= (p % width) * v.spacing,
        0 <= (band * rows + p / width) * v.spacing,
{
    assert((band + 1) * rows * v.spacing == (band * rows + rows) * v.spacing) by (nonlinear_arith);
    let s = v.spacing as int;
    let col = p % width;
    let row = p / width;
    assert(0 <= col < width) by (nonlinear_arith) requires col == p % width, width >= 1;
    assert(0 <= row < rows) by (nonlinear_arith) requires row == p / width, width >= 1, 0 <= p < width * rows;
    assert(0 <= col * s <= width * s) by (nonlinear_arith) requires 0 <= col < width, s >= 1;
    assert(0 <= (band * rows + row) * s <= (band * rows + rows) * s) by (nonlinear_arith)
        requires 0 <= row < rows, s >= 1, band >= 0;
}

} // verus!
