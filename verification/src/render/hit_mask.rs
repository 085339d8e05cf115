//! The 1-bit alpha mask that decides which pixels of a skin take clicks.
use vstd::prelude::*;

verus! {

/// 1-bit alpha hit-test mask: `pixels[y * width + x]` is non-zero where
/// the skin is opaque and takes clicks.
#[derive(Debug, Clone, PartialEq)]
pub struct AlphaHitMask {
    pub width: u32,
    pub height: u32,
    pub pixels: Vec<u8>,
}

impl AlphaHitMask {
    /// One byte per pixel, and the pixel count fits in `u32` (the mask
    /// indexes with `u32` arithmetic).
    pub open spec fn wf(&self) -> bool {
        &&& self.width * self.height <= u32::MAX
        &&& self.pixels@.len() == self.width * self.height
    }

    /// The pixel at `(x, y)` is solid.
    pub open spec fn solid(&self, x: int, y: int) -> bool {
        &&& 0 <= x < self.width
        &&& 0 <= y < self.height
        &&& self.pixels@[y * self.width + x] != 0
    }

    /// Creates an empty (transparent) mask.
    pub fn new(width: u32, height: u32) -> (r: Self)
        requires
            width * height <= u32::MAX,
        ensures
            r.wf(),
            r.width == width,
            r.height == height,
            forall|i: int| 0 <= i < r.pixels@.len() ==> r.pixels@[i] == 0,
    {
        let n = width * height;
        let mut pixels: Vec<u8> = Vec::new();
        let mut i: u32 = 0;
        while i < n
            invariant
                i <= n,
                pixels@.len() == i,
                forall|j: int| 0 <= j < i ==> pixels@[j] == 0,
            decreases n - i,
        {
            pixels.push(0);
            i = i + 1;
        }
        AlphaHitMask { width, height, pixels }
    }

    /// Whether the point `(x, y)` hits a solid pixel; points outside the
    /// mask never do.
    pub fn contains(&self, x: i32, y: i32) -> (r: bool)
        requires
            self.wf(),
        ensures
            r == self.solid(x as int, y as int),
    {
        if x < 0 || y < 0 {
            return false;
        }
        let ux = x as u32;
        let uy = y as u32;
        if ux >= self.width || uy >= self.height {
            return false;
        }
        proof {
            lemma_index_in_bounds(ux as int, uy as int, self.width as int, self.height as int);
        }
        self.pixels[(uy * self.width + ux) as usize] != 0
    }

    /// True when no pixel is solid.
    pub fn is_empty(&self) -> (r: bool)
        ensures
            r == (forall|i: int| 0 <= i < self.pixels@.len() ==> self.pixels@[i] == 0),
    {
        let mut i: usize = 0;
        while i < self.pixels.len()
            invariant
                i <= self.pixels@.len(),
                forall|j: int| 0 <= j < i ==> self.pixels@[j] == 0,
            decreases self.pixels.len() - i,
        {
            if self.pixels[i] != 0 {
                return false;
            }
            i = i + 1;
        }
        true
    }
}

/// `y * w + x` indexes inside a `w * h` grid.
pub proof fn lemma_index_in_bounds(x: int, y: int, w: int, h: int)
    requires
        0 <= x < w,
        0 <= y < h,
    ensures
        0 <= y * w + x < w * h,
        y * w + x + 1 <= w * h,
{
    assert(y * w <= (h - 1) * w) by (nonlinear_arith)
        requires
            0 <= y < h,
            0 <= w,
    ;
    assert((h - 1) * w + w == w * h) by (nonlinear_arith);
    assert(0 <= y * w) by (nonlinear_arith)
        requires
            0 <= y,
            0 <= w,
    ;
}

} // verus!
verus! {

/// A rectangle of whole pixels.
#[derive(Debug, Clone, Copy, PartialEq, Eq)]
pub struct PixelRect {
    pub x: u32,
    pub y: u32,
    pub width: u32,
    pub height: u32,
}

/// The rectangle covers the pixel `(x, y)`.
pub open spec fn covers(r: PixelRect, x: int, y: int) -> bool {
    r.x <= x < r.x + r.width && r.y <= y < r.y + r.height
}

/// Two rectangles share no pixel: they are apart horizontally or
/// vertically.
pub open spec fn apart(a: PixelRect, b: PixelRect) -> bool {
    ||| a.x + a.width <= b.x
    ||| b.x + b.width <= a.x
    ||| a.y + a.height <= b.y
    ||| b.y + b.height <= a.y
}

impl AlphaHitMask {
    /// A non-empty rectangle inside the mask made of solid pixels only.
    pub open spec fn solid_rect(&self, r: PixelRect) -> bool {
        &&& r.width >= 1
        &&& r.height >= 1
        &&& r.x + r.width <= self.width
        &&& r.y + r.height <= self.height
        &&& forall|x: int, y: int| covers(r, x, y) ==> #[trigger] self.solid(x, y)
    }

    /// A run of solid pixels of row `y` from `x`, `w` wide.
    pub open spec fn solid_span(&self, y: int, x: int, w: int) -> bool {
        &&& w >= 1
        &&& 0 <= x
        &&& x + w <= self.width
        &&& forall|k: int| x <= k < x + w ==> #[trigger] self.solid(k, y)
    }

    /// A whole run of row `y`: solid from `x`, `w` wide, with no solid
    /// pixel just before or just after it.
    pub open spec fn run_at(&self, y: int, x: int, w: int) -> bool {
        &&& self.solid_span(y, x, w)
        &&& !self.solid(x - 1, y)
        &&& !self.solid(x + w, y)
    }

    /// Every row of the rectangle is a whole run of that row.
    pub open spec fn rows_are_runs(&self, r: PixelRect) -> bool {
        forall|yy: int| r.y <= yy < r.y + r.height ==> #[trigger] self.run_at(yy, r.x as int, r.width as int)
    }

    pub open spec fn all_runs(&self, v: Seq<PixelRect>) -> bool {
        forall|i: int| 0 <= i < v.len() ==> self.rows_are_runs(#[trigger] v[i])
    }

    /// The row above the rectangle does not hold the same run: it cannot
    /// grow upwards.
    pub open spec fn top_closed(&self, r: PixelRect) -> bool {
        !self.run_at(r.y - 1, r.x as int, r.width as int)
    }

    /// The row below the rectangle does not hold the same run: it cannot
    /// grow downwards.
    pub open spec fn bottom_closed(&self, r: PixelRect) -> bool {
        !self.run_at(r.y + r.height, r.x as int, r.width as int)
    }

    /// The runs of solid pixels of row `y`, left to right.
    fn row_spans(&self, y: u32) -> (r: Vec<(u32, u32)>)
        requires
            self.wf(),
            y < self.height,
        ensures
            forall|i: int| 0 <= i < r@.len() ==> self.solid_span(y as int, r@[i].0 as int, #[trigger] r@[i].1 as int),
            forall|i: int| 0 <= i < r@.len() ==> self.run_at(y as int, r@[i].0 as int, #[trigger] r@[i].1 as int),
            forall|i: int, j: int| #![trigger r@[i], r@[j]] 0 <= i < j < r@.len() ==> r@[i].0 + r@[i].1 <= r@[j].0,
            forall|x: int| #[trigger] self.solid(x, y as int) ==> exists|i: int| #![trigger r@[i]]
                0 <= i < r@.len() && r@[i].0 <= x < r@[i].0 + r@[i].1,
    {
        let w = self.width;
        proof {
            if w > 0 {
                lemma_index_in_bounds(0, y as int, w as int, self.height as int);
            } else {
                assert(y * w == 0) by (nonlinear_arith)
                    requires
                        w == 0,
                ;
            }
        }
        let row = y * w;
        let mut spans: Vec<(u32, u32)> = Vec::new();
        let mut in_span = false;
        let mut start: u32 = 0;
        let mut x: u32 = 0;
        while x < w
            invariant
                self.wf(),
                y < self.height,
                w == self.width,
                row == y * w,
                x <= w,
                start <= x,
                in_span ==> forall|k: int| start <= k < x ==> #[trigger] self.solid(k, y as int),
                in_span ==> start < x,
                in_span ==> !self.solid(start - 1, y as int),
                !in_span && x > 0 ==> !self.solid(x - 1, y as int),
                forall|i: int| 0 <= i < spans@.len() ==> self.solid_span(y as int, spans@[i].0 as int, #[trigger] spans@[i].1 as int),
                forall|i: int| 0 <= i < spans@.len() ==> self.run_at(y as int, spans@[i].0 as int, #[trigger] spans@[i].1 as int),
                forall|i: int| 0 <= i < spans@.len() ==> spans@[i].0 + #[trigger] spans@[i].1 <= (if in_span { start as int } else { x as int }),
                forall|i: int, j: int| #![trigger spans@[i], spans@[j]] 0 <= i < j < spans@.len() ==> spans@[i].0 + spans@[i].1 <= spans@[j].0,
                forall|k: int| 0 <= k < x && #[trigger] self.solid(k, y as int) ==> (in_span && start <= k) || exists|i: int| #![trigger spans@[i]]
                    0 <= i < spans@.len() && spans@[i].0 <= k < spans@[i].0 + spans@[i].1,
            decreases w - x,
        {
            proof {
                lemma_index_in_bounds(x as int, y as int, w as int, self.height as int);
            }
            let is_solid = self.pixels[(row + x) as usize] != 0;
            assert(is_solid == self.solid(x as int, y as int));
            let ghost old_spans = spans@;
            if is_solid && !in_span {
                in_span = true;
                start = x;
            } else if !is_solid && in_span {
                in_span = false;
                spans.push((start, x - start));
                proof {
                    assert forall|k: int| 0 <= k < x + 1 && #[trigger] self.solid(k, y as int) implies (in_span && start <= k) || exists|i: int| #![trigger spans@[i]]
                        0 <= i < spans@.len() && spans@[i].0 <= k < spans@[i].0 + spans@[i].1 by {
                        if k >= start && k < x {
                            assert(spans@[old_spans.len() as int] == (start, (x - start) as u32));
                        } else if k < start {
                            let i = choose|i: int| #![trigger old_spans[i]] 0 <= i < old_spans.len() && old_spans[i].0 <= k < old_spans[i].0 + old_spans[i].1;
                            assert(spans@[i] == old_spans[i]);
                        }
                    }
                    assert forall|i: int| 0 <= i < spans@.len() implies self.solid_span(y as int, spans@[i].0 as int, #[trigger] spans@[i].1 as int) by {
                        if i < old_spans.len() {
                            assert(spans@[i] == old_spans[i]);
                        }
                    }
                    assert forall|i: int| 0 <= i < spans@.len() implies self.run_at(y as int, spans@[i].0 as int, #[trigger] spans@[i].1 as int) by {
                        if i < old_spans.len() {
                            assert(spans@[i] == old_spans[i]);
                        }
                    }
                    assert forall|i: int, j: int| #![trigger spans@[i], spans@[j]] 0 <= i < j < spans@.len() implies spans@[i].0 + spans@[i].1 <= spans@[j].0 by {
                        if j < old_spans.len() {
                            assert(spans@[i] == old_spans[i] && spans@[j] == old_spans[j]);
                        } else {
                            assert(spans@[i] == old_spans[i]);
                        }
                    }
                }
            }
            x = x + 1;
        }
        if in_span {
            let ghost old_spans = spans@;
            spans.push((start, w - start));
            proof {
                assert forall|k: int| #[trigger] self.solid(k, y as int) implies exists|i: int| #![trigger spans@[i]]
                    0 <= i < spans@.len() && spans@[i].0 <= k < spans@[i].0 + spans@[i].1 by {
                    if k >= start {
                        assert(spans@[old_spans.len() as int] == (start, (w - start) as u32));
                    } else {
                        let i = choose|i: int| #![trigger old_spans[i]] 0 <= i < old_spans.len() && old_spans[i].0 <= k < old_spans[i].0 + old_spans[i].1;
                        assert(spans@[i] == old_spans[i]);
                    }
                }
                assert forall|i: int| 0 <= i < spans@.len() implies self.solid_span(y as int, spans@[i].0 as int, #[trigger] spans@[i].1 as int) by {
                    if i < old_spans.len() {
                        assert(spans@[i] == old_spans[i]);
                    }
                }
                assert forall|i: int| 0 <= i < spans@.len() implies self.run_at(y as int, spans@[i].0 as int, #[trigger] spans@[i].1 as int) by {
                    if i < old_spans.len() {
                        assert(spans@[i] == old_spans[i]);
                    }
                }
                assert forall|i: int, j: int| #![trigger spans@[i], spans@[j]] 0 <= i < j < spans@.len() implies spans@[i].0 + spans@[i].1 <= spans@[j].0 by {
                    if j < old_spans.len() {
                        assert(spans@[i] == old_spans[i] && spans@[j] == old_spans[j]);
                    } else {
                        assert(spans@[i] == old_spans[i]);
                    }
                }
            }
        } else {
            assert forall|k: int| #[trigger] self.solid(k, y as int) implies exists|i: int| #![trigger spans@[i]]
                0 <= i < spans@.len() && spans@[i].0 <= k < spans@[i].0 + spans@[i].1 by {
                assert(0 <= k < x);
            }
        }
        spans
    }
}

} // verus!
verus! {

/// Every two rectangles of `v` are apart.
pub open spec fn pairwise_apart(v: Seq<PixelRect>) -> bool {
    forall|i: int, j: int| #![trigger v[i], v[j]] 0 <= i < j < v.len() ==> apart(v[i], v[j])
}

/// Every rectangle of `u` is apart from every rectangle of `v` from `from` on.
pub open spec fn cross_apart(u: Seq<PixelRect>, v: Seq<PixelRect>, from: int) -> bool {
    forall|i: int, j: int| #![trigger u[i], v[j]] 0 <= i < u.len() && from <= j < v.len() ==> apart(u[i], v[j])
}

/// Some rectangle of `v` from `from` on covers the pixel.
pub open spec fn covered_from(v: Seq<PixelRect>, from: int, x: int, y: int) -> bool {
    exists|i: int| from <= i < v.len() && #[trigger] covers(v[i], x, y)
}

proof fn lemma_apart_sym(a: PixelRect, b: PixelRect)
    ensures
        apart(a, b) == apart(b, a),
{
}

/// Stretching a rectangle one row down keeps it apart from rectangles that
/// end no lower than it did.
proof fn lemma_extend_apart(a: PixelRect, b: PixelRect, y: int)
    requires
        apart(a, b),
        a.y + a.height == y,
        b.y + b.height <= y,
        b.height >= 1,
    ensures
        apart(PixelRect { height: (a.height + 1) as u32, ..a }, b),
{
}

/// Rectangles over distinct runs of one row are apart.
proof fn lemma_span_apart(spans: Seq<(u32, u32)>, a: PixelRect, b: PixelRect, ja: int, jb: int)
    requires
        forall|i: int, j: int| #![trigger spans[i], spans[j]] 0 <= i < j < spans.len() ==> spans[i].0 + spans[i].1 <= spans[j].0,
        0 <= ja < spans.len(),
        0 <= jb < spans.len(),
        ja != jb,
        a.x == spans[ja].0 && a.width == spans[ja].1,
        b.x == spans[jb].0 && b.width == spans[jb].1,
    ensures
        apart(a, b),
{
    if ja < jb {
        assert(spans[ja].0 + spans[ja].1 <= spans[jb].0);
    } else {
        assert(spans[jb].0 + spans[jb].1 <= spans[ja].0);
    }
}

impl AlphaHitMask {
    pub open spec fn all_solid(&self, v: Seq<PixelRect>) -> bool {
        forall|i: int| 0 <= i < v.len() ==> self.solid_rect(#[trigger] v[i])
    }

    /// Decomposes the mask by scan lines into disjoint rectangles covering
    /// exactly its solid pixels: each rectangle is a whole run of solid
    /// pixels of a row, stacked over every next row that repeats the same
    /// run and over none that does not (so neither the row above nor the
    /// row below holds that run). Rectangles are listed by the row they end
    /// on, the lowest last. `law_rectangles_determined` shows that this
    /// fixes which rectangles come out. The list need not be the shortest:
    /// `to_rectangles` starts from it and looks for a shorter one.
    pub fn row_run_rectangles(&self) -> (r: Vec<PixelRect>)
        requires
            self.wf(),
        ensures
            self.all_solid(r@),
            self.all_runs(r@),
            forall|i: int| 0 <= i < r@.len() ==> self.top_closed(#[trigger] r@[i]) && self.bottom_closed(r@[i]),
            forall|i: int, j: int| #![trigger r@[i], r@[j]] 0 <= i <= j < r@.len() ==> r@[i].y + r@[i].height <= r@[j].y
                + r@[j].height,
            pairwise_apart(r@),
            forall|x: int, y: int| #[trigger] self.solid(x, y) ==> covered_from(r@, 0, x, y),
    {
        let mut result: Vec<PixelRect> = Vec::new();
        if self.width == 0 || self.height == 0 {
            assert forall|x: int, y: int| #[trigger] self.solid(x, y) implies covered_from(result@, 0, x, y) by {}
            return result;
        }
        let mut active: Vec<PixelRect> = Vec::new();
        let mut y: u32 = 0;
        assert forall|x: int, w: int| #[trigger] self.run_at(0 - 1, x, w) implies exists|i: int| 0 <= i < active@.len()
            && (#[trigger] active@[i]).x == x && active@[i].width == w by {
            assert(self.solid(x, -1));
        }
        while y < self.height
            invariant
                self.wf(),
                y <= self.height,
                self.all_solid(result@),
                self.all_solid(active@),
                self.all_runs(result@),
                self.all_runs(active@),
                forall|i: int| 0 <= i < result@.len() ==> self.top_closed(#[trigger] result@[i]) && self.bottom_closed(result@[i]),
                forall|i: int, j: int| #![trigger result@[i], result@[j]] 0 <= i <= j < result@.len() ==> result@[i].y
                    + result@[i].height <= result@[j].y + result@[j].height,
                forall|i: int| 0 <= i < active@.len() ==> self.top_closed(#[trigger] active@[i]),
                forall|x: int, w: int| #[trigger] self.run_at(y - 1, x, w) ==> exists|i: int| 0 <= i < active@.len()
                    && (#[trigger] active@[i]).x == x && active@[i].width == w,
                forall|i: int| 0 <= i < result@.len() ==> #[trigger] result@[i].y + result@[i].height <= y,
                forall|i: int| 0 <= i < active@.len() ==> #[trigger] active@[i].y + active@[i].height == y,
                pairwise_apart(result@),
                pairwise_apart(active@),
                cross_apart(result@, active@, 0),
                forall|x: int, yy: int| 0 <= yy < y && #[trigger] self.solid(x, yy) ==> covered_from(result@, 0, x, yy)
                    || covered_from(active@, 0, x, yy),
            decreases self.height - y,
        {
            let spans = self.row_spans(y);
            assert forall|x: int, w: int| #[trigger] self.run_at(y as int, x, w) implies exists|jj: int| 0 <= jj < spans@.len()
                && (#[trigger] spans@[jj]).0 == x && spans@[jj].1 == w by {
                assert(self.solid(x, y as int));
                let jj = choose|i: int| #![trigger spans@[i]] 0 <= i < spans@.len() && spans@[i].0 <= x < spans@[i].0 + spans@[i].1;
                assert(self.run_at(y as int, spans@[jj].0 as int, spans@[jj].1 as int));
                if spans@[jj].0 < x {
                    assert(self.solid(x - 1, y as int));
                }
                if spans@[jj].1 < w {
                    assert(self.solid(x + spans@[jj].1, y as int));
                }
                if spans@[jj].1 > w {
                    assert(self.solid(x + w, y as int));
                }
            }
            let mut used: Vec<bool> = Vec::new();
            let mut z: usize = 0;
            while z < spans.len()
                invariant
                    z <= spans@.len(),
                    used@.len() == z,
                    forall|j: int| 0 <= j < z ==> !used@[j],
                decreases spans.len() - z,
            {
                used.push(false);
                z = z + 1;
            }
            let mut next: Vec<PixelRect> = Vec::new();
            let ghost mut src: Seq<int> = Seq::empty();
            let mut k: usize = 0;
            while k < active.len()
                invariant
                    self.wf(),
                    y < self.height,
                    used@.len() == spans@.len(),
                    forall|i: int| 0 <= i < spans@.len() ==> self.solid_span(y as int, spans@[i].0 as int, #[trigger] spans@[i].1 as int),
                    forall|i: int, j: int| #![trigger spans@[i], spans@[j]] 0 <= i < j < spans@.len() ==> spans@[i].0 + spans@[i].1 <= spans@[j].0,
                    forall|x: int| #[trigger] self.solid(x, y as int) ==> exists|i: int| #![trigger spans@[i]]
                        0 <= i < spans@.len() && spans@[i].0 <= x < spans@[i].0 + spans@[i].1,
                    k <= active@.len(),
                    next@.len() == src.len(),
                    forall|i: int| 0 <= i < next@.len() ==> 0 <= #[trigger] src[i] < spans@.len(),
                    forall|i: int| 0 <= i < next@.len() ==> used@[#[trigger] src[i]],
                    forall|i: int| 0 <= i < next@.len() ==> (#[trigger] next@[i]).x == spans@[src[i]].0
                        && next@[i].width == spans@[src[i]].1,
                    forall|i: int| 0 <= i < next@.len() ==> #[trigger] next@[i].y + next@[i].height == y + 1,
                    forall|a: int, b: int| #![trigger src[a], src[b]] 0 <= a < b < src.len() ==> src[a] != src[b],
                    forall|j: int| 0 <= j < spans@.len() && #[trigger] used@[j] ==> exists|i: int| 0 <= i < src.len() && #[trigger] src[i] == j,
                    self.all_solid(result@),
                    self.all_solid(next@),
                    self.all_solid(active@),
                    self.all_runs(result@),
                    self.all_runs(next@),
                    self.all_runs(active@),
                    forall|i: int| 0 <= i < spans@.len() ==> self.run_at(y as int, spans@[i].0 as int, #[trigger] spans@[i].1 as int),
                    forall|i: int| 0 <= i < result@.len() ==> self.top_closed(#[trigger] result@[i]) && self.bottom_closed(result@[i]),
                    forall|i: int, j: int| #![trigger result@[i], result@[j]] 0 <= i <= j < result@.len() ==> result@[i].y
                        + result@[i].height <= result@[j].y + result@[j].height,
                    forall|i: int| 0 <= i < active@.len() ==> self.top_closed(#[trigger] active@[i]),
                    forall|x: int, w: int| #[trigger] self.run_at(y - 1, x, w) ==> exists|i: int| 0 <= i < active@.len()
                        && (#[trigger] active@[i]).x == x && active@[i].width == w,
                    forall|x: int, w: int| #[trigger] self.run_at(y as int, x, w) ==> exists|jj: int| 0 <= jj < spans@.len()
                        && (#[trigger] spans@[jj]).0 == x && spans@[jj].1 == w,
                    forall|i: int| 0 <= i < next@.len() ==> self.top_closed(#[trigger] next@[i]) && next@[i].height >= 2,
                    forall|kk: int, jj: int| #![trigger active@[kk], spans@[jj]] 0 <= kk < k && 0 <= jj < spans@.len()
                        && spans@[jj].0 == active@[kk].x && spans@[jj].1 == active@[kk].width ==> used@[jj],
                    forall|i: int| 0 <= i < result@.len() ==> #[trigger] result@[i].y + result@[i].height <= y,
                    forall|i: int| 0 <= i < active@.len() ==> #[trigger] active@[i].y + active@[i].height == y,
                    pairwise_apart(result@),
                    pairwise_apart(next@),
                    pairwise_apart(active@),
                    cross_apart(result@, active@, k as int),
                    cross_apart(result@, next@, 0),
                    cross_apart(next@, active@, k as int),
                    forall|x: int, yy: int| 0 <= yy < y && #[trigger] self.solid(x, yy) ==> covered_from(result@, 0, x, yy)
                        || covered_from(next@, 0, x, yy) || covered_from(active@, k as int, x, yy),
                decreases active.len() - k,
            {
                let a = active[k];
                let mut j: usize = 0;
                let mut found: Option<usize> = None;
                while j < spans.len()
                    invariant
                        j <= spans@.len(),
                        used@.len() == spans@.len(),
                        match found {
                            Some(f) => f < spans@.len() && !used@[f as int] && spans@[f as int].0 == a.x && spans@[f as int].1 == a.width,
                            None => forall|jj: int| 0 <= jj < j ==> !(!used@[jj] && (#[trigger] spans@[jj]).0 == a.x
                                && spans@[jj].1 == a.width),
                        },
                    ensures
                        used@.len() == spans@.len(),
                        match found {
                            Some(f) => f < spans@.len() && !used@[f as int] && spans@[f as int].0 == a.x && spans@[f as int].1 == a.width,
                            None => forall|jj: int| 0 <= jj < spans@.len() ==> !(!used@[jj] && (#[trigger] spans@[jj]).0 == a.x
                                && spans@[jj].1 == a.width),
                        },
                    decreases spans.len() - j,
                {
                    if !used[j] && spans[j].0 == a.x && spans[j].1 == a.width {
                        found = Some(j);
                        break;
                    }
                    j = j + 1;
                }
                let ghost old_next = next@;
                let ghost old_result = result@;
                let ghost old_src = src;
                let ghost old_used = used@;
                match found {
                    Some(f) => {
                        assert(a.y + a.height == y);
                        let grown = PixelRect { height: a.height + 1, ..a };
                        used.set(f, true);
                        next.push(grown);
                        proof {
                            src = src.push(f as int);
                            assert(self.top_closed(active@[k as int]));
                            assert(self.solid_rect(a));
                            assert forall|i: int| 0 <= i < next@.len() implies self.top_closed(#[trigger] next@[i])
                                && next@[i].height >= 2 by {
                                if i < old_next.len() {
                                    assert(next@[i] == old_next[i]);
                                }
                            }
                            assert forall|kk: int, jj: int| #![trigger active@[kk], spans@[jj]] 0 <= kk < k + 1 && 0 <= jj
                                < spans@.len() && spans@[jj].0 == active@[kk].x && spans@[jj].1 == active@[kk].width implies used@[jj] by {
                                if kk < k {
                                    assert(old_used[jj]);
                                } else if jj != f {
                                    assert(self.run_at(y as int, spans@[jj].0 as int, spans@[jj].1 as int));
                                    assert(self.run_at(y as int, spans@[f as int].0 as int, spans@[f as int].1 as int));
                                    if jj < f {
                                        assert(spans@[jj].0 + spans@[jj].1 <= spans@[f as int].0);
                                    } else {
                                        assert(spans@[f as int].0 + spans@[f as int].1 <= spans@[jj].0);
                                    }
                                }
                            }
                            assert(self.solid_rect(grown)) by {
                                assert forall|px: int, py: int| covers(grown, px, py) implies #[trigger] self.solid(px, py) by {
                                    if py < y {
                                        assert(covers(a, px, py));
                                    } else {
                                        assert(self.solid_span(y as int, spans@[f as int].0 as int, spans@[f as int].1 as int));
                                    }
                                }
                            }
                            assert forall|i: int| 0 <= i < old_next.len() implies apart(#[trigger] next@[i], grown) by {
                                assert(next@[i] == old_next[i]);
                                lemma_span_apart(spans@, old_next[i], grown, old_src[i], f as int);
                            }
                            assert forall|i: int| 0 <= i < result@.len() implies apart(#[trigger] result@[i], grown) by {
                                assert(apart(result@[i], a));
                                lemma_apart_sym(result@[i], a);
                                lemma_extend_apart(a, result@[i], y as int);
                                lemma_apart_sym(result@[i], grown);
                            }
                            assert forall|jj: int| k < jj < active@.len() implies apart(grown, #[trigger] active@[jj]) by {
                                assert(apart(active@[k as int], active@[jj]));
                                lemma_extend_apart(a, active@[jj], y as int);
                            }
                            assert(pairwise_apart(next@)) by {
                                assert forall|i1: int, i2: int| #![trigger next@[i1], next@[i2]] 0 <= i1 < i2 < next@.len() implies apart(next@[i1], next@[i2]) by {
                                    if i2 < old_next.len() {
                                        assert(next@[i1] == old_next[i1] && next@[i2] == old_next[i2]);
                                    }
                                }
                            }
                            assert(cross_apart(result@, next@, 0)) by {
                                assert forall|i1: int, i2: int| #![trigger result@[i1], next@[i2]] 0 <= i1 < result@.len() && 0 <= i2 < next@.len() implies apart(result@[i1], next@[i2]) by {
                                    if i2 < old_next.len() {
                                        assert(next@[i2] == old_next[i2]);
                                    }
                                }
                            }
                            assert(cross_apart(next@, active@, k + 1)) by {
                                assert forall|i1: int, i2: int| #![trigger next@[i1], active@[i2]] 0 <= i1 < next@.len() && k + 1 <= i2 < active@.len() implies apart(next@[i1], active@[i2]) by {
                                    if i1 < old_next.len() {
                                        assert(next@[i1] == old_next[i1]);
                                    }
                                }
                            }
                            assert forall|i: int| 0 <= i < next@.len() implies self.solid_rect(#[trigger] next@[i]) by {
                                if i < old_next.len() {
                                    assert(next@[i] == old_next[i]);
                                }
                            }
                            assert(self.rows_are_runs(grown)) by {
                                assert forall|yy: int| grown.y <= yy < grown.y + grown.height implies #[trigger] self.run_at(yy, grown.x as int, grown.width as int) by {
                                    if yy < y {
                                        assert(self.rows_are_runs(active@[k as int]));
                                    } else {
                                        assert(self.run_at(y as int, spans@[f as int].0 as int, spans@[f as int].1 as int));
                                    }
                                }
                            }
                            assert forall|i: int| 0 <= i < next@.len() implies self.rows_are_runs(#[trigger] next@[i]) by {
                                if i < old_next.len() {
                                    assert(next@[i] == old_next[i]);
                                }
                            }
                            assert forall|jj: int| 0 <= jj < spans@.len() && #[trigger] used@[jj] implies exists|i: int| 0 <= i < src.len() && #[trigger] src[i] == jj by {
                                if jj == f {
                                    assert(src[old_src.len() as int] == jj);
                                } else {
                                    let i = choose|i: int| 0 <= i < old_src.len() && #[trigger] old_src[i] == jj;
                                    assert(src[i] == old_src[i]);
                                }
                            }
                            assert forall|a1: int, b1: int| #![trigger src[a1], src[b1]] 0 <= a1 < b1 < src.len() implies src[a1] != src[b1] by {
                                if b1 == old_src.len() {
                                    assert(used@[old_src[a1]]);
                                } else {
                                    assert(src[a1] == old_src[a1] && src[b1] == old_src[b1]);
                                }
                            }
                            assert forall|x: int, yy: int| 0 <= yy < y && #[trigger] self.solid(x, yy) implies covered_from(result@, 0, x, yy)
                                || covered_from(next@, 0, x, yy) || covered_from(active@, k + 1, x, yy) by {
                                if covered_from(old_next, 0, x, yy) {
                                    let i = choose|i: int| 0 <= i < old_next.len() && #[trigger] covers(old_next[i], x, yy);
                                    assert(covers(next@[i], x, yy));
                                } else if covered_from(active@, k as int, x, yy) && !covered_from(active@, k + 1, x, yy) {
                                    let i = choose|i: int| k <= i < active@.len() && #[trigger] covers(active@[i], x, yy);
                                    assert(i == k);
                                    assert(covers(next@[old_next.len() as int], x, yy));
                                }
                            }
                        }
                    },
                    None => {
                        result.push(a);
                        proof {
                            assert(self.top_closed(active@[k as int]));
                            assert(self.solid_rect(a));
                            assert(self.bottom_closed(a)) by {
                                if self.run_at(y as int, a.x as int, a.width as int) {
                                    let jj = choose|jj: int| 0 <= jj < spans@.len() && (#[trigger] spans@[jj]).0 == a.x
                                        && spans@[jj].1 == a.width;
                                    assert(used@[jj]);
                                    let i = choose|i: int| 0 <= i < src.len() && #[trigger] src[i] == jj;
                                    assert(next@[i].x == a.x && next@[i].width == a.width);
                                    assert(covers(next@[i], a.x as int, y - 1));
                                    assert(covers(active@[k as int], a.x as int, y - 1));
                                    assert(apart(next@[i], active@[k as int]));
                                    assert(false);
                                }
                            }
                            assert forall|i: int| 0 <= i < result@.len() implies self.top_closed(#[trigger] result@[i])
                                && self.bottom_closed(result@[i]) by {
                                if i < old_result.len() {
                                    assert(result@[i] == old_result[i]);
                                }
                            }
                            assert forall|i: int, i2: int| #![trigger result@[i], result@[i2]] 0 <= i <= i2 < result@.len() implies result@[i].y
                                + result@[i].height <= result@[i2].y + result@[i2].height by {
                                if i2 < old_result.len() {
                                    assert(result@[i] == old_result[i] && result@[i2] == old_result[i2]);
                                } else if i < old_result.len() {
                                    assert(result@[i] == old_result[i]);
                                }
                            }
                            assert forall|kk: int, jj: int| #![trigger active@[kk], spans@[jj]] 0 <= kk < k + 1 && 0 <= jj
                                < spans@.len() && spans@[jj].0 == active@[kk].x && spans@[jj].1 == active@[kk].width implies used@[jj] by {
                                if kk == k {
                                    assert(!(!used@[jj] && spans@[jj].0 == a.x && spans@[jj].1 == a.width));
                                }
                            }
                            assert(pairwise_apart(result@)) by {
                                assert forall|i1: int, i2: int| #![trigger result@[i1], result@[i2]] 0 <= i1 < i2 < result@.len() implies apart(result@[i1], result@[i2]) by {
                                    if i2 < old_result.len() {
                                        assert(result@[i1] == old_result[i1] && result@[i2] == old_result[i2]);
                                    } else {
                                        assert(result@[i1] == old_result[i1]);
                                        assert(apart(old_result[i1], active@[k as int]));
                                    }
                                }
                            }
                            assert(cross_apart(result@, active@, k + 1)) by {
                                assert forall|i1: int, i2: int| #![trigger result@[i1], active@[i2]] 0 <= i1 < result@.len() && k + 1 <= i2 < active@.len() implies apart(result@[i1], active@[i2]) by {
                                    if i1 < old_result.len() {
                                        assert(result@[i1] == old_result[i1]);
                                    } else {
                                        assert(apart(active@[k as int], active@[i2]));
                                    }
                                }
                            }
                            assert(cross_apart(result@, next@, 0)) by {
                                assert forall|i1: int, i2: int| #![trigger result@[i1], next@[i2]] 0 <= i1 < result@.len() && 0 <= i2 < next@.len() implies apart(result@[i1], next@[i2]) by {
                                    if i1 < old_result.len() {
                                        assert(result@[i1] == old_result[i1]);
                                    } else {
                                        assert(apart(next@[i2], active@[k as int]));
                                        lemma_apart_sym(next@[i2], active@[k as int]);
                                    }
                                }
                            }
                            assert forall|i: int| 0 <= i < result@.len() implies self.solid_rect(#[trigger] result@[i]) by {
                                if i < old_result.len() {
                                    assert(result@[i] == old_result[i]);
                                }
                            }
                            assert forall|i: int| 0 <= i < result@.len() implies self.rows_are_runs(#[trigger] result@[i]) by {
                                if i < old_result.len() {
                                    assert(result@[i] == old_result[i]);
                                }
                            }
                            assert forall|i: int| 0 <= i < result@.len() implies #[trigger] result@[i].y + result@[i].height <= y by {
                                if i < old_result.len() {
                                    assert(result@[i] == old_result[i]);
                                }
                            }
                            assert forall|x: int, yy: int| 0 <= yy < y && #[trigger] self.solid(x, yy) implies covered_from(result@, 0, x, yy)
                                || covered_from(next@, 0, x, yy) || covered_from(active@, k + 1, x, yy) by {
                                if covered_from(old_result, 0, x, yy) {
                                    let i = choose|i: int| 0 <= i < old_result.len() && #[trigger] covers(old_result[i], x, yy);
                                    assert(covers(result@[i], x, yy));
                                } else if covered_from(active@, k as int, x, yy) && !covered_from(active@, k + 1, x, yy) {
                                    let i = choose|i: int| k <= i < active@.len() && #[trigger] covers(active@[i], x, yy);
                                    assert(i == k);
                                    assert(covers(result@[old_result.len() as int], x, yy));
                                }
                            }
                        }
                    },
                }
                k = k + 1;
            }
            let mut j: usize = 0;
            while j < spans.len()
                invariant
                    self.wf(),
                    y < self.height,
                    used@.len() == spans@.len(),
                    forall|i: int| 0 <= i < spans@.len() ==> self.solid_span(y as int, spans@[i].0 as int, #[trigger] spans@[i].1 as int),
                    forall|i: int, j2: int| #![trigger spans@[i], spans@[j2]] 0 <= i < j2 < spans@.len() ==> spans@[i].0 + spans@[i].1 <= spans@[j2].0,
                    forall|x: int| #[trigger] self.solid(x, y as int) ==> exists|i: int| #![trigger spans@[i]]
                        0 <= i < spans@.len() && spans@[i].0 <= x < spans@[i].0 + spans@[i].1,
                    j <= spans@.len(),
                    forall|jj: int| 0 <= jj < j ==> #[trigger] used@[jj],
                    next@.len() == src.len(),
                    forall|i: int| 0 <= i < next@.len() ==> 0 <= #[trigger] src[i] < spans@.len(),
                    forall|i: int| 0 <= i < next@.len() ==> used@[#[trigger] src[i]],
                    forall|i: int| 0 <= i < next@.len() ==> (#[trigger] next@[i]).x == spans@[src[i]].0
                        && next@[i].width == spans@[src[i]].1,
                    forall|i: int| 0 <= i < next@.len() ==> #[trigger] next@[i].y + next@[i].height == y + 1,
                    forall|a: int, b: int| #![trigger src[a], src[b]] 0 <= a < b < src.len() ==> src[a] != src[b],
                    forall|jj: int| 0 <= jj < spans@.len() && #[trigger] used@[jj] ==> exists|i: int| 0 <= i < src.len() && #[trigger] src[i] == jj,
                    self.all_solid(result@),
                    self.all_solid(next@),
                    self.all_runs(result@),
                    self.all_runs(next@),
                    forall|i: int| 0 <= i < spans@.len() ==> self.run_at(y as int, spans@[i].0 as int, #[trigger] spans@[i].1 as int),
                    forall|i: int| 0 <= i < result@.len() ==> self.top_closed(#[trigger] result@[i]) && self.bottom_closed(result@[i]),
                    forall|i: int, j2: int| #![trigger result@[i], result@[j2]] 0 <= i <= j2 < result@.len() ==> result@[i].y
                        + result@[i].height <= result@[j2].y + result@[j2].height,
                    forall|x: int, w: int| #[trigger] self.run_at(y - 1, x, w) ==> exists|i: int| 0 <= i < active@.len()
                        && (#[trigger] active@[i]).x == x && active@[i].width == w,
                    forall|x: int, w: int| #[trigger] self.run_at(y as int, x, w) ==> exists|jj: int| 0 <= jj < spans@.len()
                        && (#[trigger] spans@[jj]).0 == x && spans@[jj].1 == w,
                    forall|i: int| 0 <= i < next@.len() ==> self.top_closed(#[trigger] next@[i]),
                    forall|kk: int, jj: int| #![trigger active@[kk], spans@[jj]] 0 <= kk < active@.len() && 0 <= jj < spans@.len()
                        && spans@[jj].0 == active@[kk].x && spans@[jj].1 == active@[kk].width ==> used@[jj],
                    forall|i: int| 0 <= i < result@.len() ==> #[trigger] result@[i].y + result@[i].height <= y,
                    pairwise_apart(result@),
                    pairwise_apart(next@),
                    cross_apart(result@, next@, 0),
                    forall|x: int, yy: int| 0 <= yy < y && #[trigger] self.solid(x, yy) ==> covered_from(result@, 0, x, yy)
                        || covered_from(next@, 0, x, yy),
                decreases spans.len() - j,
            {
                if !used[j] {
                    let fresh = PixelRect { x: spans[j].0, y, width: spans[j].1, height: 1 };
                    let ghost old_next = next@;
                    let ghost old_src = src;
                    let ghost old_used = used@;
                    used.set(j, true);
                    next.push(fresh);
                    proof {
                        src = src.push(j as int);
                        assert(self.top_closed(fresh)) by {
                            if self.run_at(y - 1, fresh.x as int, fresh.width as int) {
                                let kk = choose|i: int| 0 <= i < active@.len() && (#[trigger] active@[i]).x == fresh.x
                                    && active@[i].width == fresh.width;
                                assert(old_used[j as int]);
                            }
                        }
                        assert forall|i: int| 0 <= i < next@.len() implies self.top_closed(#[trigger] next@[i]) by {
                            if i < old_next.len() {
                                assert(next@[i] == old_next[i]);
                            }
                        }
                        assert forall|kk: int, jj: int| #![trigger active@[kk], spans@[jj]] 0 <= kk < active@.len() && 0 <= jj
                            < spans@.len() && spans@[jj].0 == active@[kk].x && spans@[jj].1 == active@[kk].width implies used@[jj] by {
                            if jj != j {
                                assert(old_used[jj]);
                            }
                        }
                        assert(self.solid_rect(fresh)) by {
                            assert forall|px: int, py: int| covers(fresh, px, py) implies #[trigger] self.solid(px, py) by {
                                assert(self.solid_span(y as int, spans@[j as int].0 as int, spans@[j as int].1 as int));
                            }
                        }
                        assert forall|i: int| 0 <= i < next@.len() implies self.solid_rect(#[trigger] next@[i]) by {
                            if i < old_next.len() {
                                assert(next@[i] == old_next[i]);
                            }
                        }
                        assert(self.rows_are_runs(fresh)) by {
                            assert forall|yy: int| fresh.y <= yy < fresh.y + fresh.height implies #[trigger] self.run_at(yy, fresh.x as int, fresh.width as int) by {
                                assert(self.run_at(y as int, spans@[j as int].0 as int, spans@[j as int].1 as int));
                            }
                        }
                        assert forall|i: int| 0 <= i < next@.len() implies self.rows_are_runs(#[trigger] next@[i]) by {
                            if i < old_next.len() {
                                assert(next@[i] == old_next[i]);
                            }
                        }
                        assert(pairwise_apart(next@)) by {
                            assert forall|i1: int, i2: int| #![trigger next@[i1], next@[i2]] 0 <= i1 < i2 < next@.len() implies apart(next@[i1], next@[i2]) by {
                                if i2 < old_next.len() {
                                    assert(next@[i1] == old_next[i1] && next@[i2] == old_next[i2]);
                                } else {
                                    assert(next@[i1] == old_next[i1]);
                                    lemma_span_apart(spans@, old_next[i1], fresh, old_src[i1], j as int);
                                }
                            }
                        }
                        assert(cross_apart(result@, next@, 0)) by {
                            assert forall|i1: int, i2: int| #![trigger result@[i1], next@[i2]] 0 <= i1 < result@.len() && 0 <= i2 < next@.len() implies apart(result@[i1], next@[i2]) by {
                                if i2 < old_next.len() {
                                    assert(next@[i2] == old_next[i2]);
                                }
                            }
                        }
                        assert forall|jj: int| 0 <= jj < spans@.len() && #[trigger] used@[jj] implies exists|i: int| 0 <= i < src.len() && #[trigger] src[i] == jj by {
                            if jj == j {
                                assert(src[old_src.len() as int] == jj);
                            } else {
                                let i = choose|i: int| 0 <= i < old_src.len() && #[trigger] old_src[i] == jj;
                                assert(src[i] == old_src[i]);
                            }
                        }
                        assert forall|a1: int, b1: int| #![trigger src[a1], src[b1]] 0 <= a1 < b1 < src.len() implies src[a1] != src[b1] by {
                            if b1 == old_src.len() {
                                assert(used@[old_src[a1]]);
                            } else {
                                assert(src[a1] == old_src[a1] && src[b1] == old_src[b1]);
                            }
                        }
                        assert forall|x: int, yy: int| 0 <= yy < y && #[trigger] self.solid(x, yy) implies covered_from(result@, 0, x, yy)
                            || covered_from(next@, 0, x, yy) by {
                            if covered_from(old_next, 0, x, yy) {
                                let i = choose|i: int| 0 <= i < old_next.len() && #[trigger] covers(old_next[i], x, yy);
                                assert(covers(next@[i], x, yy));
                            }
                        }
                    }
                }
                j = j + 1;
            }
            proof {
                assert forall|x: int, w: int| #[trigger] self.run_at(y as int, x, w) implies exists|i: int| 0 <= i < next@.len()
                    && (#[trigger] next@[i]).x == x && next@[i].width == w by {
                    let jj = choose|jj: int| 0 <= jj < spans@.len() && (#[trigger] spans@[jj]).0 == x && spans@[jj].1 == w;
                    assert(used@[jj]);
                    let i = choose|i: int| 0 <= i < src.len() && #[trigger] src[i] == jj;
                    assert(next@[i].x == x && next@[i].width == w);
                }
                assert forall|x: int, yy: int| 0 <= yy < y + 1 && #[trigger] self.solid(x, yy) implies covered_from(result@, 0, x, yy)
                    || covered_from(next@, 0, x, yy) by {
                    if yy == y {
                        let s = choose|i: int| #![trigger spans@[i]] 0 <= i < spans@.len() && spans@[i].0 <= x < spans@[i].0 + spans@[i].1;
                        assert(used@[s]);
                        let i = choose|i: int| 0 <= i < src.len() && #[trigger] src[i] == s;
                        assert(covers(next@[i], x, yy));
                    }
                }
            }
            active = next;
            y = y + 1;
        }
        let ghost old_result = result@;
        let mut i: usize = 0;
        while i < active.len()
            invariant
                self.wf(),
                i <= active@.len(),
                result@ == old_result + active@.take(i as int),
                self.all_solid(old_result),
                self.all_solid(active@),
                self.all_runs(old_result),
                self.all_runs(active@),
                forall|a: int| 0 <= a < old_result.len() ==> self.top_closed(#[trigger] old_result[a]) && self.bottom_closed(old_result[a]),
                forall|a: int, b: int| #![trigger old_result[a], old_result[b]] 0 <= a <= b < old_result.len() ==> old_result[a].y
                    + old_result[a].height <= old_result[b].y + old_result[b].height,
                forall|a: int| 0 <= a < old_result.len() ==> #[trigger] old_result[a].y + old_result[a].height <= self.height,
                forall|a: int| 0 <= a < active@.len() ==> self.top_closed(#[trigger] active@[a]),
                forall|a: int| 0 <= a < active@.len() ==> #[trigger] active@[a].y + active@[a].height == self.height,
                pairwise_apart(old_result),
                pairwise_apart(active@),
                cross_apart(old_result, active@, 0),
                forall|x: int, yy: int| #[trigger] self.solid(x, yy) ==> covered_from(old_result, 0, x, yy)
                    || covered_from(active@, 0, x, yy),
            decreases active.len() - i,
        {
            result.push(active[i]);
            i = i + 1;
            assert(result@ =~= old_result + active@.take(i as int));
        }
        assert(active@.take(active@.len() as int) =~= active@);
        proof {
            let n = old_result.len();
            assert forall|a: int| 0 <= a < result@.len() implies self.solid_rect(#[trigger] result@[a]) by {
                if a >= n {
                    assert(result@[a] == active@[a - n]);
                }
            }
            assert forall|a: int| 0 <= a < result@.len() implies self.top_closed(#[trigger] result@[a])
                && self.bottom_closed(result@[a]) by {
                if a >= n {
                    let r = active@[a - n];
                    assert(result@[a] == r);
                    if self.run_at(r.y + r.height, r.x as int, r.width as int) {
                        assert(self.solid(r.x as int, r.y + r.height));
                    }
                } else {
                    assert(result@[a] == old_result[a]);
                }
            }
            assert forall|a: int, b: int| #![trigger result@[a], result@[b]] 0 <= a <= b < result@.len() implies result@[a].y
                + result@[a].height <= result@[b].y + result@[b].height by {
                if b < n {
                    assert(result@[a] == old_result[a] && result@[b] == old_result[b]);
                } else if a < n {
                    assert(result@[a] == old_result[a] && result@[b] == active@[b - n]);
                } else {
                    assert(result@[a] == active@[a - n] && result@[b] == active@[b - n]);
                }
            }
            assert forall|a: int| 0 <= a < result@.len() implies self.rows_are_runs(#[trigger] result@[a]) by {
                if a >= n {
                    assert(result@[a] == active@[a - n]);
                } else {
                    assert(result@[a] == old_result[a]);
                }
            }
            assert forall|a: int, b: int| #![trigger result@[a], result@[b]] 0 <= a < b < result@.len() implies apart(result@[a], result@[b]) by {
                if b < n {
                    assert(result@[a] == old_result[a] && result@[b] == old_result[b]);
                } else if a < n {
                    assert(result@[a] == old_result[a] && result@[b] == active@[b - n]);
                } else {
                    assert(result@[a] == active@[a - n] && result@[b] == active@[b - n]);
                }
            }
            assert forall|x: int, yy: int| #[trigger] self.solid(x, yy) implies covered_from(result@, 0, x, yy) by {
                if covered_from(old_result, 0, x, yy) {
                    let c = choose|c: int| 0 <= c < old_result.len() && #[trigger] covers(old_result[c], x, yy);
                    assert(covers(result@[c], x, yy));
                } else {
                    let c = choose|c: int| 0 <= c < active@.len() && #[trigger] covers(active@[c], x, yy);
                    assert(covers(result@[n + c], x, yy));
                }
            }
        }
        result
    }
}

/// The rectangles of a hit mask leave exactly its transparent pixels
/// uncovered, and no pixel is covered twice: input regions built from
/// them take clicks on solid pixels only.
pub proof fn law_hit_regions_exact(m: AlphaHitMask, rects: Seq<PixelRect>, x: int, y: int)
    requires
        m.all_solid(rects),
        pairwise_apart(rects),
        forall|px: int, py: int| #[trigger] m.solid(px, py) ==> covered_from(rects, 0, px, py),
    ensures
        covered_from(rects, 0, x, y) <==> m.solid(x, y),
        forall|i: int, j: int| 0 <= i < rects.len() && 0 <= j < rects.len() && i != j && covers(rects[i], x, y)
            ==> !covers(rects[j], x, y),
{
    if covered_from(rects, 0, x, y) {
        let i = choose|i: int| 0 <= i < rects.len() && #[trigger] covers(rects[i], x, y);
        assert(m.solid_rect(rects[i]));
    }
    assert forall|i: int, j: int| 0 <= i < rects.len() && 0 <= j < rects.len() && i != j && covers(rects[i], x, y)
        implies !covers(rects[j], x, y) by {
        if i < j {
            assert(apart(rects[i], rects[j]));
        } else {
            assert(apart(rects[j], rects[i]));
        }
    }
}

} // verus!
verus! {

/// Two grid positions with the same index `y * w + x` are the same.
pub proof fn lemma_index_unique(px: int, py: int, x: int, y: int, w: int)
    requires
        0 <= px < w,
        0 <= x < w,
        0 <= py,
        0 <= y,
        py * w + px == y * w + x,
    ensures
        px == x,
        py == y,
{
    if py < y {
        assert(py * w + w <= y * w) by (nonlinear_arith)
            requires
                py < y,
                0 <= w,
        ;
    } else if py > y {
        assert(y * w + w <= py * w) by (nonlinear_arith)
            requires
                y < py,
                0 <= w,
        ;
    }
}

/// The span `(x0, y0, x1, y1)` holds the pixel `(x, y)`: `x0 <= x < x1`
/// and `y0 <= y < y1`.
pub open spec fn in_span(s: (u32, u32, u32, u32), x: int, y: int) -> bool {
    s.0 <= x < s.2 && s.1 <= y < s.3
}

/// Some span of `spans` holds the pixel `(x, y)`.
pub open spec fn in_any_span(spans: Seq<(u32, u32, u32, u32)>, x: int, y: int) -> bool {
    exists|i: int| 0 <= i < spans.len() && #[trigger] in_span(spans[i], x, y)
}

impl AlphaHitMask {
    /// Marks solid every pixel of the mask with `x0 <= x < x1` and
    /// `y0 <= y < y1`; the rest of the span lies outside and is dropped.
    pub fn add_rect(&mut self, x0: u32, y0: u32, x1: u32, y1: u32)
        requires
            old(self).wf(),
        ensures
            final(self).wf(),
            final(self).width == old(self).width,
            final(self).height == old(self).height,
            forall|x: int, y: int|
                0 <= x < final(self).width && 0 <= y < final(self).height ==> (#[trigger] final(self).solid(x, y)
                    <==> (old(self).solid(x, y) || in_span((x0, y0, x1, y1), x, y))),
    {
        let w = self.width;
        let h = self.height;
        let xe = if x1 < w {
            x1
        } else {
            w
        };
        let ye = if y1 < h {
            y1
        } else {
            h
        };
        let ghost before = *self;
        let mut y = y0;
        while y < ye
            invariant
                self.wf(),
                self.width == w && self.height == h,
                before.wf(),
                before.width == w && before.height == h,
                xe <= w && ye <= h,
                xe == (if x1 < w { x1 } else { w }),
                ye == (if y1 < h { y1 } else { h }),
                y0 <= y,
                forall|px: int, py: int|
                    0 <= px < w && 0 <= py < h ==> (#[trigger] self.solid(px, py) <==> (before.solid(px, py)
                        || (x0 <= px < xe && y0 <= py < y && py < ye))),
            decreases ye - y,
        {
            let mut x = x0;
            while x < xe
                invariant
                    self.wf(),
                    self.width == w && self.height == h,
                    before.wf(),
                    before.width == w && before.height == h,
                    xe <= w && ye <= h,
                    y0 <= y < ye,
                    x0 <= x,
                    x == x0 || x <= xe,
                    forall|px: int, py: int|
                        0 <= px < w && 0 <= py < h ==> (#[trigger] self.solid(px, py) <==> (before.solid(px, py)
                            || (x0 <= px < xe && y0 <= py < y) || (py == y && x0 <= px < x))),
                decreases xe - x,
            {
                proof {
                    lemma_index_in_bounds(x as int, y as int, w as int, h as int);
                }
                let idx = (y * w + x) as usize;
                let ghost prev = *self;
                self.pixels.set(idx, 1);
                proof {
                    assert forall|px: int, py: int| 0 <= px < w && 0 <= py < h implies (#[trigger] self.solid(px, py)
                        <==> (before.solid(px, py) || (x0 <= px < xe && y0 <= py < y) || (py == y && x0 <= px < x + 1))) by {
                        lemma_index_in_bounds(px, py, w as int, h as int);
                        if py * w + px == y * w + x {
                            lemma_index_unique(px, py, x as int, y as int, w as int);
                        } else {
                            assert(self.pixels@[py * w + px] == prev.pixels@[py * w + px]);
                            assert(self.solid(px, py) == prev.solid(px, py));
                        }
                    }
                }
                x = x + 1;
            }
            y = y + 1;
        }
        proof {
            assert forall|px: int, py: int| 0 <= px < w && 0 <= py < h implies (#[trigger] self.solid(px, py)
                <==> (before.solid(px, py) || in_span((x0, y0, x1, y1), px, py))) by {}
        }
    }

    /// A mask of `width` by `height` whose solid pixels are those that one
    /// of the spans holds.
    pub fn from_rectangles(width: u32, height: u32, spans: &Vec<(u32, u32, u32, u32)>) -> (r: Self)
        requires
            width * height <= u32::MAX,
        ensures
            r.wf(),
            r.width == width,
            r.height == height,
            forall|x: int, y: int|
                0 <= x < width && 0 <= y < height ==> (#[trigger] r.solid(x, y) <==> in_any_span(spans@, x, y)),
    {
        let mut mask = AlphaHitMask::new(width, height);
        proof {
            assert forall|x: int, y: int| 0 <= x < width && 0 <= y < height implies !(#[trigger] mask.solid(x, y)) by {
                lemma_index_in_bounds(x, y, width as int, height as int);
            }
        }
        let mut i: usize = 0;
        while i < spans.len()
            invariant
                mask.wf(),
                mask.width == width && mask.height == height,
                i <= spans@.len(),
                forall|x: int, y: int|
                    0 <= x < width && 0 <= y < height ==> (#[trigger] mask.solid(x, y) <==> in_any_span(
                        spans@.take(i as int),
                        x,
                        y,
                    )),
            decreases spans.len() - i,
        {
            let (x0, y0, x1, y1) = spans[i];
            mask.add_rect(x0, y0, x1, y1);
            proof {
                let t = spans@.take(i + 1);
                assert forall|x: int, y: int| 0 <= x < width && 0 <= y < height implies (#[trigger] mask.solid(x, y)
                    <==> in_any_span(t, x, y)) by {
                    if in_any_span(t, x, y) {
                        let k = choose|k: int| 0 <= k < t.len() && #[trigger] in_span(t[k], x, y);
                        if k < i {
                            assert(spans@.take(i as int)[k] == t[k]);
                        }
                    }
                    if in_any_span(spans@.take(i as int), x, y) {
                        let k = choose|k: int| 0 <= k < i && #[trigger] in_span(spans@.take(i as int)[k], x, y);
                        assert(t[k] == spans@.take(i as int)[k]);
                    }
                    if in_span(spans@[i as int], x, y) {
                        assert(t[i as int] == spans@[i as int]);
                    }
                }
            }
            i = i + 1;
        }
        proof {
            assert(spans@.take(spans@.len() as int) =~= spans@);
        }
        mask
    }
}

/// A mask built from spans and read back as rectangles gives rectangles
/// that cover exactly the spans' pixels inside the mask.
pub proof fn law_spans_round_trip(
    m: AlphaHitMask,
    spans: Seq<(u32, u32, u32, u32)>,
    rects: Seq<PixelRect>,
    x: int,
    y: int,
)
    requires
        forall|px: int, py: int|
            0 <= px < m.width && 0 <= py < m.height ==> (#[trigger] m.solid(px, py) <==> in_any_span(spans, px, py)),
        m.all_solid(rects),
        pairwise_apart(rects),
        forall|px: int, py: int| #[trigger] m.solid(px, py) ==> covered_from(rects, 0, px, py),
    ensures
        covered_from(rects, 0, x, y) <==> (0 <= x < m.width && 0 <= y < m.height && in_any_span(spans, x, y)),
{
    law_hit_regions_exact(m, rects, x, y);
}

/// The decomposition `row_run_rectangles` gives: solid, disjoint,
/// covering, rows made of whole runs, and closed above and below.
pub open spec fn canonical_rects(m: AlphaHitMask, v: Seq<PixelRect>) -> bool {
    &&& m.all_solid(v)
    &&& pairwise_apart(v)
    &&& forall|x: int, y: int| #[trigger] m.solid(x, y) ==> covered_from(v, 0, x, y)
    &&& m.all_runs(v)
    &&& forall|i: int| 0 <= i < v.len() ==> m.top_closed(#[trigger] v[i]) && m.bottom_closed(v[i])
}

/// Two whole runs of a row that share a pixel are the same run.
proof fn lemma_runs_meet(m: AlphaHitMask, y: int, x1: int, w1: int, x2: int, w2: int, p: int)
    requires
        m.run_at(y, x1, w1),
        m.run_at(y, x2, w2),
        x1 <= p < x1 + w1,
        x2 <= p < x2 + w2,
    ensures
        x1 == x2 && w1 == w2,
{
    if x1 < x2 {
        assert(m.solid(x2 - 1, y));
    }
    if x2 < x1 {
        assert(m.solid(x1 - 1, y));
    }
    if x1 + w1 < x2 + w2 {
        assert(m.solid(x1 + w1, y));
    }
    if x2 + w2 < x1 + w1 {
        assert(m.solid(x2 + w2, y));
    }
}

/// The row-run rectangles of a mask are determined by it: any two lists of
/// the form `row_run_rectangles` gives hold the same rectangles.
pub proof fn law_rectangles_determined(m: AlphaHitMask, v: Seq<PixelRect>, u: Seq<PixelRect>, i: int)
    requires
        canonical_rects(m, v),
        canonical_rects(m, u),
        0 <= i < v.len(),
    ensures
        exists|j: int| 0 <= j < u.len() && u[j] == v[i],
{
    let r = v[i];
    assert(m.solid_rect(r));
    assert(covers(r, r.x as int, r.y as int));
    assert(m.solid(r.x as int, r.y as int));
    let j = choose|j: int| 0 <= j < u.len() && #[trigger] covers(u[j], r.x as int, r.y as int);
    let s = u[j];
    assert(m.solid_rect(s));
    assert(m.rows_are_runs(r) && m.rows_are_runs(s));
    assert(m.run_at(r.y as int, r.x as int, r.width as int));
    assert(m.run_at(r.y as int, s.x as int, s.width as int));
    lemma_runs_meet(m, r.y as int, r.x as int, r.width as int, s.x as int, s.width as int, r.x as int);
    if s.y < r.y {
        assert(m.run_at(r.y - 1, s.x as int, s.width as int));
        assert(m.top_closed(v[i]));
    }
    assert(s.y == r.y);
    if s.height < r.height {
        assert(m.run_at(s.y + s.height, r.x as int, r.width as int));
        assert(m.bottom_closed(u[j]));
    }
    if r.height < s.height {
        assert(m.run_at(r.y + r.height, s.x as int, s.width as int));
        assert(m.bottom_closed(v[i]));
    }
    assert(u[j] == v[i]);
}

} // verus!
