//! The canvas: a row-major buffer of gray pixels, the window of coordinates
//! that it shows, and the counters of touched and floored pixels.

use vstd::prelude::*;

use crate::pixel::{
    count_below, lemma_count_below_le_len, lemma_count_below_monotone, lemma_count_below_none,
    lemma_count_below_update, Rgba, UNTOUCHED,
};

verus! {

/// The fixed-point unit: a coordinate `v` stands for the real `v / ONE`.
pub const ONE: i64 = 4294967296;

/// Lower bound that a canvas starts with: above every sample that matters, so
/// the first one lowers it.
pub const UNSET_MIN: i64 = 10 * ONE;

/// Upper bound that a canvas starts with: below every sample that matters.
pub const UNSET_MAX: i64 = -10 * ONE;

/// A point of the orbit in fixed-point coordinates, `x` then `y`, each in
/// units of `1 / ONE`.
#[derive(Clone, Copy, Debug, PartialEq, Eq, Structural)]
pub struct Point(pub i64, pub i64);

/// Why a canvas refused a request.
#[derive(Clone, Copy, Debug, PartialEq, Eq, Structural)]
pub enum CanvasError {
    /// A canvas needs at least one column and one row.
    EmptyCanvas,
    /// The coordinate window is not known yet (no calibration, or one whose
    /// samples spanned no width or no height).
    NotCalibrated,
}

/// What a canvas holds, as mathematical values.
pub struct CanvasView {
    pub width: nat,
    pub height: nat,
    pub pixels: Seq<Rgba>,
    pub iters: nat,
    pub n_touched: nat,
    pub n_maxed: nat,
    pub xmin: int,
    pub xmax: int,
    pub ymin: int,
    pub ymax: int,
}

/// The first coordinates of `pts`.
pub open spec fn xs(pts: Seq<Point>) -> Seq<int> {
    pts.map_values(|p: Point| p.0 as int)
}

/// The second coordinates of `pts`.
pub open spec fn ys(pts: Seq<Point>) -> Seq<int> {
    pts.map_values(|p: Point| p.1 as int)
}

/// `m` is the least of `init` and the values of `s`.
pub open spec fn least_of(m: int, init: int, s: Seq<int>) -> bool {
    &&& m <= init
    &&& forall|i: int| 0 <= i < s.len() ==> m <= s[i]
    &&& (m == init || exists|i: int| 0 <= i < s.len() && m == s[i])
}

/// `m` is the greatest of `init` and the values of `s`.
pub open spec fn greatest_of(m: int, init: int, s: Seq<int>) -> bool {
    &&& m >= init
    &&& forall|i: int| 0 <= i < s.len() ==> m >= s[i]
    &&& (m == init || exists|i: int| 0 <= i < s.len() && m == s[i])
}

proof fn lemma_least_of_push(m: int, init: int, s: Seq<int>, v: int)
    requires
        least_of(m, init, s),
    ensures
        least_of(if v < m { v } else { m }, init, s.push(v)),
{
    let t = s.push(v);
    if v < m {
        assert(t[s.len() as int] == v);
    } else if m != init {
        let i = choose|i: int| 0 <= i < s.len() && m == s[i];
        assert(t[i] == s[i]);
    }
}

proof fn lemma_greatest_of_push(m: int, init: int, s: Seq<int>, v: int)
    requires
        greatest_of(m, init, s),
    ensures
        greatest_of(if v > m { v } else { m }, init, s.push(v)),
{
    let t = s.push(v);
    if v > m {
        assert(t[s.len() as int] == v);
    } else if m != init {
        let i = choose|i: int| 0 <= i < s.len() && m == s[i];
        assert(t[i] == s[i]);
    }
}

/// Column (or row) of `v` on an axis of `n` cells that shows `lo` to `hi`:
/// `floor((v - lo) * n / (hi - lo))`, clamped to `0 ..= n - 1`.
pub open spec fn map_coord(v: int, lo: int, hi: int, n: int) -> int {
    if v <= lo {
        0
    } else if (v - lo) * n / (hi - lo) >= n {
        n - 1
    } else {
        (v - lo) * n / (hi - lo)
    }
}

/// Clamped cell of `v` on an axis of `n` cells showing `lo` to `hi`.
fn scale(v: i64, lo: i64, hi: i64, n: u32) -> (r: u32)
    requires
        lo < hi,
        n > 0,
    ensures
        r == map_coord(v as int, lo as int, hi as int, n as int),
        r < n,
{
    if v <= lo {
        return 0;
    }
    let d: u128 = (v as i128 - lo as i128) as u128;
    let span: u128 = (hi as i128 - lo as i128) as u128;
    assert(d * n < 0x1_0000_0000_0000_0000_0000_0000) by (nonlinear_arith)
        requires
            d < 0x1_0000_0000_0000_0000,
            n < 0x1_0000_0000,
    ;
    let q: u128 = d * (n as u128) / span;
    if q >= n as u128 {
        n - 1
    } else {
        q as u32
    }
}

/// A point at or beyond the top of the window lands in the last cell, one at
/// or below the bottom in the first, and every point in some cell.
pub proof fn lemma_map_coord_edges(v: int, lo: int, hi: int, n: int)
    requires
        lo < hi,
        n > 0,
    ensures
        0 <= map_coord(v, lo, hi, n) < n,
        v >= hi ==> map_coord(v, lo, hi, n) == n - 1,
        v <= lo ==> map_coord(v, lo, hi, n) == 0,
{
    if v > lo {
        assert((v - lo) * n >= 0) by (nonlinear_arith)
            requires
                v > lo,
                n > 0,
        ;
        if v >= hi {
            assert((v - lo) * n >= (hi - lo) * n) by (nonlinear_arith)
                requires
                    v >= hi,
                    hi > lo,
                    n > 0,
            ;
            assert((hi - lo) * n / (hi - lo) == n) by (nonlinear_arith)
                requires
                    hi > lo,
            ;
            assert((v - lo) * n / (hi - lo) >= (hi - lo) * n / (hi - lo)) by (nonlinear_arith)
                requires
                    (v - lo) * n >= (hi - lo) * n,
                    hi > lo,
            ;
        }
    }
}

impl CanvasView {
    /// A fresh canvas: all white, nothing counted, bounds unset.
    pub open spec fn initial(width: nat, height: nat) -> CanvasView {
        CanvasView {
            width,
            height,
            pixels: Seq::new(width * height, |i: int| Rgba::gray_spec(UNTOUCHED)),
            iters: 0,
            n_touched: 0,
            n_maxed: 0,
            xmin: UNSET_MIN as int,
            xmax: UNSET_MAX as int,
            ymin: UNSET_MIN as int,
            ymax: UNSET_MAX as int,
        }
    }

    /// Whether the window spans some width and some height, so that points
    /// can be mapped to pixels.
    pub open spec fn calibrated(self) -> bool {
        self.xmin < self.xmax && self.ymin < self.ymax
    }

    /// The canvas's invariant: sizes, gray pixels, and counters that count
    /// the pixels below white and the black ones.
    pub open spec fn wf(self) -> bool {
        &&& self.width > 0
        &&& self.height > 0
        &&& self.width * self.height <= u32::MAX
        &&& self.pixels.len() == self.width * self.height
        &&& forall|i: int| 0 <= i < self.pixels.len() ==> (#[trigger] self.pixels[i]).is_gray()
        &&& self.n_touched == count_below(self.pixels, UNTOUCHED as int)
        &&& self.n_maxed == count_below(self.pixels, 1)
        &&& self.iters <= u32::MAX
        &&& i64::MIN <= self.xmin <= i64::MAX
        &&& i64::MIN <= self.xmax <= i64::MAX
        &&& i64::MIN <= self.ymin <= i64::MAX
        &&& i64::MIN <= self.ymax <= i64::MAX
    }

    /// The canvas after one visit of pixel `i`: the pixel darkens by one
    /// level unless black; a first visit counts a touched pixel, and the
    /// visit that blackens it counts a maxed one.
    pub open spec fn decay_at(self, i: int) -> CanvasView {
        let p = self.pixels[i];
        CanvasView {
            pixels: self.pixels.update(i, p.decayed()),
            n_touched: if p.r == UNTOUCHED {
                self.n_touched + 1
            } else {
                self.n_touched
            },
            n_maxed: if p.r == 1 {
                self.n_maxed + 1
            } else {
                self.n_maxed
            },
            ..self
        }
    }

    /// Row-major index of the pixel that `p` maps to.
    pub open spec fn index_of(self, p: Point) -> int {
        map_coord(p.1 as int, self.ymin, self.ymax, self.height as int) * self.width
            + map_coord(p.0 as int, self.xmin, self.xmax, self.width as int)
    }

    /// The canvas after plotting the points of `pts` in order.
    pub open spec fn plot_all(self, pts: Seq<Point>) -> CanvasView
        decreases pts.len(),
    {
        if pts.len() == 0 {
            self
        } else {
            let before = self.plot_all(pts.drop_last());
            before.decay_at(before.index_of(pts.last()))
        }
    }
}

/// One visit keeps the invariant, darkens no pixel by more than it was, lets
/// no pixel brighten, and changes nothing about a black pixel.
pub proof fn lemma_decay_at(v: CanvasView, i: int)
    requires
        v.wf(),
        0 <= i < v.pixels.len(),
    ensures
        v.decay_at(i).wf(),
        v.decay_at(i).pixels.len() == v.pixels.len(),
        v.decay_at(i).n_touched <= v.pixels.len(),
        v.decay_at(i).n_maxed <= v.pixels.len(),
        forall|j: int|
            0 <= j < v.pixels.len() ==> (#[trigger] v.decay_at(i).pixels[j]).r <= v.pixels[j].r,
        v.pixels[i].r == 0 ==> v.decay_at(i) == v,
{
    let p = v.pixels[i];
    let u = v.pixels.update(i, p.decayed());
    lemma_count_below_update(v.pixels, i, p.decayed(), UNTOUCHED as int);
    lemma_count_below_update(v.pixels, i, p.decayed(), 1);
    lemma_count_below_le_len(u, UNTOUCHED as int);
    lemma_count_below_le_len(u, 1);
    assert(forall|j: int| 0 <= j < u.len() ==> (#[trigger] u[j]).is_gray());
    if p.r == 0 {
        assert(u =~= v.pixels);
        assert(v.decay_at(i) =~= v);
    }
}

/// Plotting any sequence of points on a calibrated canvas keeps the
/// invariant and the window, never brightens a pixel, and leaves black
/// pixels black.
pub proof fn lemma_plot_all(v: CanvasView, pts: Seq<Point>)
    requires
        v.wf(),
        v.calibrated(),
    ensures
        v.plot_all(pts).wf(),
        v.plot_all(pts).width == v.width,
        v.plot_all(pts).height == v.height,
        v.plot_all(pts).iters == v.iters,
        v.plot_all(pts).xmin == v.xmin,
        v.plot_all(pts).xmax == v.xmax,
        v.plot_all(pts).ymin == v.ymin,
        v.plot_all(pts).ymax == v.ymax,
        v.plot_all(pts).n_touched >= v.n_touched,
        v.plot_all(pts).n_maxed >= v.n_maxed,
        forall|j: int|
            0 <= j < v.pixels.len() ==> (#[trigger] v.plot_all(pts).pixels[j]).r <= v.pixels[j].r,
        forall|j: int|
            0 <= j < v.pixels.len() && v.pixels[j].r == 0 ==> (#[trigger] v.plot_all(
                pts,
            ).pixels[j]).r == 0,
    decreases pts.len(),
{
    if pts.len() > 0 {
        let before = v.plot_all(pts.drop_last());
        lemma_plot_all(v, pts.drop_last());
        let i = before.index_of(pts.last());
        lemma_index_in_range(before, pts.last());
        lemma_decay_at(before, i);
        assert forall|j: int| 0 <= j < v.pixels.len() implies (#[trigger] v.plot_all(
            pts,
        ).pixels[j]).r <= v.pixels[j].r by {
            assert(before.decay_at(i).pixels[j].r <= before.pixels[j].r);
        }
    }
}

/// Every point of a calibrated canvas maps to one of its pixels.
pub proof fn lemma_index_in_range(v: CanvasView, p: Point)
    requires
        v.wf(),
        v.calibrated(),
    ensures
        0 <= v.index_of(p) < v.pixels.len(),
{
    let c = map_coord(p.0 as int, v.xmin, v.xmax, v.width as int);
    let r = map_coord(p.1 as int, v.ymin, v.ymax, v.height as int);
    lemma_map_coord_edges(p.0 as int, v.xmin, v.xmax, v.width as int);
    lemma_map_coord_edges(p.1 as int, v.ymin, v.ymax, v.height as int);
    assert(0 <= r * v.width + c < v.width * v.height) by (nonlinear_arith)
        requires
            0 <= c < v.width,
            0 <= r < v.height,
    ;
}

/// A canvas on which an orbit leaves its trace.
pub struct AttractorObj {
    width: u32,
    height: u32,
    pixels: Vec<Rgba>,
    iters: u32,
    n_touched: u32,
    n_maxed: u32,
    xmin: i64,
    xmax: i64,
    ymin: i64,
    ymax: i64,
}

impl View for AttractorObj {
    type V = CanvasView;

    closed spec fn view(&self) -> CanvasView {
        CanvasView {
            width: self.width as nat,
            height: self.height as nat,
            pixels: self.pixels@,
            iters: self.iters as nat,
            n_touched: self.n_touched as nat,
            n_maxed: self.n_maxed as nat,
            xmin: self.xmin as int,
            xmax: self.xmax as int,
            ymin: self.ymin as int,
            ymax: self.ymax as int,
        }
    }
}

impl AttractorObj {
    /// The canvas's invariant, over its view.
    pub open spec fn inv(&self) -> bool {
        self@.wf()
    }

    /// A white canvas of `w` columns and `h` rows with unset bounds; an empty
    /// one is refused. The counters are `u32`, so a canvas holds at most
    /// `u32::MAX` pixels.
    pub fn new(w: u32, h: u32) -> (r: Result<AttractorObj, CanvasError>)
        requires
            w as int * h as int <= u32::MAX,
        ensures
            r is Err <==> (w == 0 || h == 0),
            r is Err ==> r->Err_0 == CanvasError::EmptyCanvas,
            r matches Ok(c) ==> c.inv() && c@ == CanvasView::initial(w as nat, h as nat),
    {
        if w == 0 || h == 0 {
            return Err(CanvasError::EmptyCanvas);
        }
        let n: usize = (w as usize) * (h as usize);
        let white = Rgba::gray(UNTOUCHED);
        let mut pixels: Vec<Rgba> = Vec::new();
        let mut k: usize = 0;
        while k < n
            invariant
                k <= n,
                pixels@ =~= Seq::new(k as nat, |i: int| Rgba::gray_spec(UNTOUCHED)),
                white == Rgba::gray_spec(UNTOUCHED),
            decreases n - k,
        {
            pixels.push(white);
            k = k + 1;
        }
        let c = AttractorObj {
            width: w,
            height: h,
            pixels,
            iters: 0,
            n_touched: 0,
            n_maxed: 0,
            xmin: UNSET_MIN,
            xmax: UNSET_MAX,
            ymin: UNSET_MIN,
            ymax: UNSET_MAX,
        };
        proof {
            lemma_count_below_none(c@.pixels, UNTOUCHED as int);
            lemma_count_below_none(c@.pixels, 1);
            assert(c@ =~= CanvasView::initial(w as nat, h as nat));
        }
        Ok(c)
    }

    /// One visit of the pixel at column `x`, row `y` (see
    /// [`CanvasView::decay_at`]): every level only goes down, and a black
    /// pixel stays as it is, counters included.
    pub fn dec_pixel(&mut self, x: u32, y: u32)
        requires
            old(self).inv(),
            x < old(self)@.width,
            y < old(self)@.height,
        ensures
            final(self).inv(),
            final(self)@ == old(self)@.decay_at(y * old(self)@.width + x),
            forall|i: int|
                0 <= i < final(self)@.pixels.len() ==> (#[trigger] final(self)@.pixels[i]).r
                    <= old(self)@.pixels[i].r,
            old(self)@.pixels[y * old(self)@.width + x].r == 0 ==> final(self)@ == old(self)@,
    {
        proof {
            assert(y * self.width + x < self.width * self.height) by (nonlinear_arith)
                requires
                    x < self.width,
                    y < self.height,
            ;
        }
        let i: usize = (y as usize) * (self.width as usize) + (x as usize);
        let prv: u8 = self.pixels[i].r;
        let ghost before = self@;
        proof {
            lemma_decay_at(before, i as int);
        }
        if prv == 0 {
            return;
        }
        if prv == UNTOUCHED {
            self.n_touched = self.n_touched + 1;
        } else if prv == 1 {
            self.n_maxed = self.n_maxed + 1;
        }
        self.pixels.set(i, Rgba::gray(prv - 1));
        assert(self@ =~= before.decay_at(i as int));
    }

    /// Column that `x` maps to on the calibrated window.
    pub fn pixelx(&self, x: i64) -> (r: u32)
        requires
            self.inv(),
            self@.calibrated(),
        ensures
            r == map_coord(x as int, self@.xmin, self@.xmax, self@.width as int),
            r < self@.width,
            x >= self@.xmax ==> r == self@.width - 1,
            x <= self@.xmin ==> r == 0,
    {
        proof { lemma_map_coord_edges(x as int, self@.xmin, self@.xmax, self@.width as int); }
        scale(x, self.xmin, self.xmax, self.width)
    }

    /// Row that `y` maps to on the calibrated window.
    pub fn pixely(&self, y: i64) -> (r: u32)
        requires
            self.inv(),
            self@.calibrated(),
        ensures
            r == map_coord(y as int, self@.ymin, self@.ymax, self@.height as int),
            r < self@.height,
            y >= self@.ymax ==> r == self@.height - 1,
            y <= self@.ymin ==> r == 0,
    {
        proof { lemma_map_coord_edges(y as int, self@.ymin, self@.ymax, self@.height as int); }
        scale(y, self.ymin, self.ymax, self.height)
    }
    /// Widens the window to take in each of `samples`, plotting nothing.
    ///
    /// Each bound becomes the least (greatest) of its old value and the
    /// samples' coordinates; a later call widens further from there.
    pub fn calibrate(&mut self, samples: &[Point])
        requires
            old(self).inv(),
        ensures
            final(self).inv(),
            least_of(final(self)@.xmin, old(self)@.xmin, xs(samples@)),
            greatest_of(final(self)@.xmax, old(self)@.xmax, xs(samples@)),
            least_of(final(self)@.ymin, old(self)@.ymin, ys(samples@)),
            greatest_of(final(self)@.ymax, old(self)@.ymax, ys(samples@)),
            final(self)@ == (CanvasView {
                xmin: final(self)@.xmin,
                xmax: final(self)@.xmax,
                ymin: final(self)@.ymin,
                ymax: final(self)@.ymax,
                ..old(self)@
            }),
    {
        let ghost start = self@;
        let mut k: usize = 0;
        assert(xs(samples@.take(0)) =~= Seq::<int>::empty());
        assert(ys(samples@.take(0)) =~= Seq::<int>::empty());
        while k < samples.len()
            invariant
                k <= samples@.len(),
                self.inv(),
                least_of(self@.xmin, start.xmin, xs(samples@.take(k as int))),
                greatest_of(self@.xmax, start.xmax, xs(samples@.take(k as int))),
                least_of(self@.ymin, start.ymin, ys(samples@.take(k as int))),
                greatest_of(self@.ymax, start.ymax, ys(samples@.take(k as int))),
                self@ == (CanvasView {
                    xmin: self@.xmin,
                    xmax: self@.xmax,
                    ymin: self@.ymin,
                    ymax: self@.ymax,
                    ..start
                }),
            decreases samples@.len() - k,
        {
            let p = samples[k];
            proof {
                let pre = samples@.take(k as int);
                assert(samples@.take(k + 1) =~= pre.push(p));
                assert(xs(pre.push(p)) =~= xs(pre).push(p.0 as int));
                assert(ys(pre.push(p)) =~= ys(pre).push(p.1 as int));
                lemma_least_of_push(self@.xmin, start.xmin, xs(pre), p.0 as int);
                lemma_greatest_of_push(self@.xmax, start.xmax, xs(pre), p.0 as int);
                lemma_least_of_push(self@.ymin, start.ymin, ys(pre), p.1 as int);
                lemma_greatest_of_push(self@.ymax, start.ymax, ys(pre), p.1 as int);
            }
            if p.0 < self.xmin {
                self.xmin = p.0;
            }
            if p.0 > self.xmax {
                self.xmax = p.0;
            }
            if p.1 < self.ymin {
                self.ymin = p.1;
            }
            if p.1 > self.ymax {
                self.ymax = p.1;
            }
            k = k + 1;
        }
        assert(samples@.take(samples@.len() as int) =~= samples@);
    }

    /// Whether the window is known, so that [`AttractorObj::render`] can map
    /// points to pixels.
    pub fn is_calibrated(&self) -> (r: bool)
        ensures
            r == self@.calibrated(),
    {
        self.xmin < self.xmax && self.ymin < self.ymax
    }

    /// Plots `points` in order: each one's pixel takes one visit (see
    /// [`AttractorObj::dec_pixel`]). Refused, with nothing changed, while the
    /// canvas is not calibrated.
    pub fn render(&mut self, points: &[Point]) -> (r: Result<(), CanvasError>)
        requires
            old(self).inv(),
        ensures
            final(self).inv(),
            r is Err <==> !old(self)@.calibrated(),
            r is Err ==> r->Err_0 == CanvasError::NotCalibrated && final(self)@ == old(self)@,
            r is Ok ==> final(self)@ == old(self)@.plot_all(points@),
            final(self)@.n_touched >= old(self)@.n_touched,
            final(self)@.n_maxed >= old(self)@.n_maxed,
            forall|i: int|
                0 <= i < final(self)@.pixels.len() ==> (#[trigger] final(self)@.pixels[i]).r
                    <= old(self)@.pixels[i].r,
    {
        if !self.is_calibrated() {
            return Err(CanvasError::NotCalibrated);
        }
        let ghost start = self@;
        let mut k: usize = 0;
        assert(points@.take(0) =~= Seq::<Point>::empty());
        while k < points.len()
            invariant
                k <= points@.len(),
                start.wf(),
                start.calibrated(),
                self.inv(),
                self@ == start.plot_all(points@.take(k as int)),
            decreases points@.len() - k,
        {
            let p = points[k];
            proof {
                lemma_plot_all(start, points@.take(k as int));
                assert(points@.take(k + 1).drop_last() =~= points@.take(k as int));
            }
            let col = self.pixelx(p.0);
            let row = self.pixely(p.1);
            self.dec_pixel(col, row);
            k = k + 1;
        }
        proof {
            assert(points@.take(points@.len() as int) =~= points@);
            lemma_plot_all(start, points@);
        }
        Ok(())
    }
    pub fn width(&self) -> (r: u32)
        ensures
            r == self@.width,
    {
        self.width
    }

    pub fn height(&self) -> (r: u32)
        ensures
            r == self@.height,
    {
        self.height
    }

    /// Number of black pixels.
    pub fn getn_maxed(&self) -> (r: u32)
        ensures
            r == self@.n_maxed,
    {
        self.n_maxed
    }

    /// Number of pixels visited at least once.
    pub fn getn_touched(&self) -> (r: u32)
        ensures
            r == self@.n_touched,
    {
        self.n_touched
    }

    /// The caller's running iteration count.
    pub fn iters(&self) -> (r: u32)
        ensures
            r == self@.iters,
    {
        self.iters
    }

    /// Sets the caller's running iteration count; nothing else changes.
    pub fn set_iters(&mut self, n: u32)
        requires
            old(self).inv(),
        ensures
            final(self).inv(),
            final(self)@ == (CanvasView { iters: n as nat, ..old(self)@ }),
    {
        self.iters = n;
    }

    /// The pixels, row by row from the top, each row from the left.
    pub fn pixels(&self) -> (r: &Vec<Rgba>)
        ensures
            r@ == self@.pixels,
    {
        &self.pixels
    }

    /// The window's bounds, `(xmin, xmax, ymin, ymax)`.
    pub fn bounds(&self) -> (r: (i64, i64, i64, i64))
        ensures
            r.0 == self@.xmin,
            r.1 == self@.xmax,
            r.2 == self@.ymin,
            r.3 == self@.ymax,
    {
        (self.xmin, self.xmax, self.ymin, self.ymax)
    }

    /// The buffer lives as long as the canvas: this releases nothing, leaves
    /// the canvas as it is, and reports success.
    pub fn free_pixels(&mut self) -> (r: bool)
        ensures
            r,
            final(self)@ == old(self)@,
    {
        true
    }
}

/// Neither counter exceeds the number of pixels, and no more pixels are
/// black than have been touched.
pub proof fn lemma_counters_bounded(c: &AttractorObj)
    requires
        c.inv(),
    ensures
        c@.n_maxed <= c@.n_touched <= c@.width * c@.height,
{
    lemma_count_below_monotone(c@.pixels, 1, UNTOUCHED as int);
    lemma_count_below_le_len(c@.pixels, UNTOUCHED as int);
}

/// A fresh canvas has no window yet, so rendering on it is refused until
/// it has been calibrated.
pub proof fn lemma_fresh_canvas_uncalibrated(w: nat, h: nat)
    ensures
        !CanvasView::initial(w, h).calibrated(),
{
}

} // verus!
