//! Viewport parameters (anchor and sample spacing) and the zoom stack.
use vstd::prelude::*;
use crate::fixed::{COORD_BOUND, ONE};

verus! {

/// Width of the full image, in pixels.
pub const WIDTH: usize = 1024;

/// Height of the full image, in pixels.
pub const HEIGHT: usize = 768;

/// Pointer positions are snapped to multiples of this.
pub const SNAP: i32 = 16;

/// Where the sampled plane starts and how far apart its samples are: the
/// top-left sample is `re + i·im`, and neighbours differ by `spacing` on
/// both axes (all in fixed point).
#[derive(Clone, Copy, Debug, PartialEq, Eq, Structural)]
pub struct Viewport {
    pub re: i64,
    pub im: i64,
    pub spacing: i64,
}

/// A grid of `width` by `height` samples from `v` stays within the
/// coordinate bound.
pub open spec fn view_fits(v: Viewport, width: int, height: int) -> bool {
    &&& v.spacing >= 1
    &&& -COORD_BOUND <= v.re
    &&& v.re + width * v.spacing <= COORD_BOUND
    &&& -COORD_BOUND <= v.im
    &&& v.im + height * v.spacing <= COORD_BOUND
}

impl Viewport {
    /// Whether a grid of `width` by `height` samples from this view stays
    /// within the coordinate bound.
    pub fn fits(&self, width: usize, height: usize) -> (r: bool)
        ensures
            r == view_fits(*self, width as int, height as int),
    {
        if self.spacing < 1 || self.re < -COORD_BOUND || self.im < -COORD_BOUND {
            return false;
        }
        let w = width as i128;
        let h = height as i128;
        let s = self.spacing as i128;
        assert(w * s <= 0xFFFFFFFFFFFFFFFF * 0x7FFFFFFFFFFFFFFF && h * s <= 0xFFFFFFFFFFFFFFFF * 0x7FFFFFFFFFFFFFFF
            && w * s >= 0 && h * s >= 0) by (nonlinear_arith)
            requires 0 <= w <= 0xFFFFFFFFFFFFFFFF, 0 <= h <= 0xFFFFFFFFFFFFFFFF, 1 <= s <= 0x7FFFFFFFFFFFFFFF;
        self.re as i128 + w * s <= COORD_BOUND as i128 && self.im as i128 + h * s <= COORD_BOUND as i128
    }
}

/// The view that opens: real part from -3, imaginary part from -1.5, and a
/// spacing of 4 / 1024.
pub open spec fn home_view() -> Viewport {
    Viewport { re: (-3 * ONE) as i64, im: (-3 * ONE / 2) as i64, spacing: (ONE / 256) as i64 }
}

/// The view after zooming in at pixel offset `(cx, cy)`: that pixel becomes
/// the top-left corner and the spacing halves. A spacing of one unit cannot
/// halve; such a view stays as it is.
pub open spec fn zoomed(v: Viewport, cx: int, cy: int) -> Viewport {
    if v.spacing >= 2 {
        Viewport { re: (v.re + cx * v.spacing) as i64, im: (v.im + cy * v.spacing) as i64, spacing: (v.spacing / 2) as i64 }
    } else {
        v
    }
}

/// A corner offset that keeps the half-size zoom box inside the image.
pub open spec fn corner_ok(cx: int, cy: int) -> bool {
    0 <= cx <= WIDTH / 2 && 0 <= cy <= HEIGHT / 2
}

/// The zoom state as a mathematical value: the current view and the stack
/// of earlier ones, the most recent last.
pub type ZoomModel = (Viewport, Seq<Viewport>);

/// Zooming in pushes the current view and replaces it.
pub open spec fn zoom_in_spec(s: ZoomModel, cx: int, cy: int) -> ZoomModel {
    (zoomed(s.0, cx, cy), s.1.push(s.0))
}

/// Zooming out pops the most recent view; with no history it changes nothing.
pub open spec fn zoom_out_spec(s: ZoomModel) -> ZoomModel {
    if s.1.len() == 0 {
        s
    } else {
        (s.1.last(), s.1.drop_last())
    }
}

/// Zooming in at each corner of `cs`, in order.
pub open spec fn zoom_in_all(s: ZoomModel, cs: Seq<(int, int)>) -> ZoomModel
    decreases cs.len(),
{
    if cs.len() == 0 {
        s
    } else {
        zoom_in_all(zoom_in_spec(s, cs[0].0, cs[0].1), cs.drop_first())
    }
}

/// Zooming out `n` times.
pub open spec fn zoom_out_n(s: ZoomModel, n: nat) -> ZoomModel
    decreases n,
{
    if n == 0 {
        s
    } else {
        zoom_out_spec(zoom_out_n(s, (n - 1) as nat))
    }
}

proof fn lemma_zoomed_fits(v: Viewport, cx: int, cy: int)
    requires
        view_fits(v, WIDTH as int, HEIGHT as int),
        corner_ok(cx, cy),
    ensures
        view_fits(zoomed(v, cx, cy), WIDTH as int, HEIGHT as int),
{
    if v.spacing >= 2 {
        let s = v.spacing as int;
        let h = s / 2;
        assert(2 * h <= s) by (nonlinear_arith) requires h == s / 2, s >= 2;
        assert(h >= 1) by (nonlinear_arith) requires h == s / 2, s >= 2;
        assert(cx * s >= 0 && cx * s <= 512 * s) by (nonlinear_arith) requires 0 <= cx <= 512, s >= 0;
        assert(cy * s >= 0 && cy * s <= 384 * s) by (nonlinear_arith) requires 0 <= cy <= 384, s >= 0;
        assert(1024 * h <= 512 * s) by (nonlinear_arith) requires 2 * h <= s;
        assert(768 * h <= 384 * s) by (nonlinear_arith) requires 2 * h <= s;
        assert(v.re + 1024 * s <= COORD_BOUND);
        assert(v.im + 768 * s <= COORD_BOUND);
    }
}

/// The zoom state: the view all bands must show, and the views that zooming
/// out returns to.
pub struct ZoomState {
    pub current: Viewport,
    pub history: Vec<Viewport>,
}

impl ZoomState {
    /// The state as a mathematical value.
    pub open spec fn model(&self) -> ZoomModel {
        (self.current, self.history@)
    }

    /// Every view held covers the full image within the coordinate bound.
    pub open spec fn wf(&self) -> bool {
        &&& view_fits(self.current, WIDTH as int, HEIGHT as int)
        &&& forall|i: int| 0 <= i < self.history@.len() ==> view_fits(#[trigger] self.history@[i], WIDTH as int, HEIGHT as int)
    }

    /// The opening view with no history.
    pub fn new() -> (r: ZoomState)
        ensures
            r.wf(),
            r.model() == (home_view(), Seq::<Viewport>::empty()),
    {
        ZoomState {
            current: Viewport { re: -3 * ONE, im: -3 * ONE / 2, spacing: ONE / 256 },
            history: Vec::new(),
        }
    }

    /// Zooms in at pixel offset `(cx, cy)` of the current view.
    pub fn zoom_in(&mut self, cx: usize, cy: usize)
        requires
            old(self).wf(),
            corner_ok(cx as int, cy as int),
        ensures
            final(self).wf(),
            final(self).model() == zoom_in_spec(old(self).model(), cx as int, cy as int),
    {
        proof {
            lemma_zoomed_fits(self.current, cx as int, cy as int);
        }
        let v = self.current;
        self.history.push(v);
        if v.spacing >= 2 {
            let s = v.spacing;
            proof {
                assert(cx * s <= 512 * s && cy * s <= 384 * s && cx * s >= 0 && cy * s >= 0) by (nonlinear_arith)
                    requires 0 <= cx <= 512, 0 <= cy <= 384, s >= 0;
            }
            self.current = Viewport { re: v.re + cx as i64 * s, im: v.im + cy as i64 * s, spacing: s / 2 };
        }
        assert forall|i: int| 0 <= i < self.history@.len() implies view_fits(#[trigger] self.history@[i], WIDTH as int, HEIGHT as int) by {
            if i < old(self).history@.len() {
                assert(self.history@[i] == old(self).history@[i]);
            }
        }
    }

    /// Returns to the view before the most recent zoom-in; does nothing at
    /// the opening view.
    pub fn zoom_out(&mut self)
        requires
            old(self).wf(),
        ensures
            final(self).wf(),
            final(self).model() == zoom_out_spec(old(self).model()),
    {
        if let Some(v) = self.history.pop() {
            self.current = v;
            assert forall|i: int| 0 <= i < self.history@.len() implies view_fits(#[trigger] self.history@[i], WIDTH as int, HEIGHT as int) by {
                assert(self.history@[i] == old(self).history@[i]);
            }
        }
    }
}

/// Zooming out right after a zoom-in restores the exact view and history
/// that stood before it.
pub proof fn zoom_out_undoes_zoom_in(s: ZoomModel, cx: int, cy: int)
    ensures
        zoom_out_spec(zoom_in_spec(s, cx, cy)) == s,
{
    assert(zoom_in_spec(s, cx, cy).1.drop_last() =~= s.1);
}

/// Zooming out with no history leaves the state unchanged.
pub proof fn zoom_out_at_root_is_noop(s: ZoomModel)
    requires
        s.1.len() == 0,
    ensures
        zoom_out_spec(s) == s,
{
}

/// Any number of nested zoom-ins, undone by as many zoom-outs, restores the
/// state that stood before the first of them.
pub proof fn nested_zooms_unwind(s: ZoomModel, cs: Seq<(int, int)>)
    ensures
        zoom_out_n(zoom_in_all(s, cs), cs.len()) == s,
    decreases cs.len(),
{
    if cs.len() > 0 {
        let s1 = zoom_in_spec(s, cs[0].0, cs[0].1);
        let rest = cs.drop_first();
        nested_zooms_unwind(s1, rest);
        lemma_zoom_out_n_last(zoom_in_all(s1, rest), rest.len());
        zoom_out_undoes_zoom_in(s, cs[0].0, cs[0].1);
    }
}

proof fn lemma_zoom_out_n_last(s: ZoomModel, n: nat)
    ensures
        zoom_out_n(s, n + 1) == zoom_out_spec(zoom_out_n(s, n)),
{
}

/// The top-left corner of the zoom box under the pointer at `(x, y)`: the
/// pointer offset by a quarter of the image, clamped so that the half-size
/// box stays inside, and snapped down to a multiple of `SNAP`.
pub open spec fn corner_spec(x: int, y: int) -> (int, int) {
    let cx = if x - 256 < 0 { 0 } else if x - 256 > 512 { 512 } else { x - 256 };
    let cy = if y - 192 < 0 { 0 } else if y - 192 > 384 { 384 } else { y - 192 };
    ((cx / 16) * 16, (cy / 16) * 16)
}

/// The zoom box corner for a pointer position.
pub fn corner_from_pointer(x: i32, y: i32) -> (r: (usize, usize))
    ensures
        (r.0 as int, r.1 as int) == corner_spec(x as int, y as int),
        corner_ok(r.0 as int, r.1 as int),
{
    let w = WIDTH as i64;
    let h = HEIGHT as i64;
    let mut cx = x as i64 - w / 4;
    if cx < 0 {
        cx = 0;
    } else if cx > w / 2 {
        cx = w / 2;
    }
    let mut cy = y as i64 - h / 4;
    if cy < 0 {
        cy = 0;
    } else if cy > h / 2 {
        cy = h / 2;
    }
    let sx = (cx / SNAP as i64) * SNAP as i64;
    let sy = (cy / SNAP as i64) * SNAP as i64;
    assert(sx <= cx && sx >= 0) by (nonlinear_arith) requires sx == (cx / 16) * 16, cx >= 0;
    assert(sy <= cy && sy >= 0) by (nonlinear_arith) requires sy == (cy / 16) * 16, cy >= 0;
    (sx as usize, sy as usize)
}

} // verus!
