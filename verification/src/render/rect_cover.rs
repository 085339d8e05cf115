//! The shortest list of disjoint rectangles covering exactly the solid
//! pixels of a hit mask.
//!
//! The search places rectangles one at a time. The first pixel left to
//! cover, in row order, is the top-left corner of whichever rectangle
//! covers it, so trying every solid rectangle with that corner and
//! covering the rest recursively tries every exact cover; a budget cuts
//! off every branch that cannot beat the best list found so far.
use crate::render::hit_mask::{
    apart, covered_from, covers, lemma_index_in_bounds, pairwise_apart, AlphaHitMask, PixelRect,
};
use vstd::prelude::*;

verus! {

/// `(x, y)` comes before `(px, py)` in row order.
pub open spec fn before(x: int, y: int, px: int, py: int) -> bool {
    y < py || (y == py && x < px)
}

impl AlphaHitMask {
    /// The pixel is solid and none of the rectangles `c` placed so far
    /// covers it.
    pub open spec fn rem(&self, c: Seq<PixelRect>, x: int, y: int) -> bool {
        self.solid(x, y) && !covered_from(c, 0, x, y)
    }

    /// A non-empty rectangle made of pixels still to cover.
    pub open spec fn rem_rect(&self, c: Seq<PixelRect>, r: PixelRect) -> bool {
        &&& r.width >= 1
        &&& r.height >= 1
        &&& forall|x: int, y: int| covers(r, x, y) ==> #[trigger] self.rem(c, x, y)
    }

    /// `v` covers exactly the pixels still to cover once `c` is placed,
    /// no pixel twice.
    pub open spec fn covers_rest(&self, c: Seq<PixelRect>, v: Seq<PixelRect>) -> bool {
        &&& forall|i: int| 0 <= i < v.len() ==> self.rem_rect(c, #[trigger] v[i])
        &&& pairwise_apart(v)
        &&& forall|x: int, y: int| #[trigger] self.rem(c, x, y) ==> covered_from(v, 0, x, y)
    }

    /// Disjoint non-empty rectangles covering exactly the solid pixels.
    pub open spec fn exact_cover(&self, v: Seq<PixelRect>) -> bool {
        self.covers_rest(Seq::empty(), v)
    }

    /// An exact cover than which no exact cover is shorter.
    pub open spec fn minimum_cover(&self, v: Seq<PixelRect>) -> bool {
        &&& self.exact_cover(v)
        &&& forall|u: Seq<PixelRect>| #[trigger] self.exact_cover(u) ==> v.len() <= u.len()
    }
}

/// The rectangles of an exact cover, such as `to_rectangles` gives, take
/// clicks exactly on the solid pixels: a point is covered if and only if
/// its pixel is solid, and by one rectangle only.
pub proof fn law_cover_takes_solid_pixels_only(m: AlphaHitMask, v: Seq<PixelRect>, x: int, y: int)
    requires
        m.exact_cover(v),
    ensures
        covered_from(v, 0, x, y) <==> m.solid(x, y),
        forall|i: int, j: int| 0 <= i < v.len() && 0 <= j < v.len() && i != j && covers(v[i], x, y)
            ==> !covers(v[j], x, y),
{
    if covered_from(v, 0, x, y) {
        let i = choose|i: int| 0 <= i < v.len() && #[trigger] covers(v[i], x, y);
        assert(m.rem_rect(Seq::empty(), v[i]));
        assert(m.rem(Seq::empty(), x, y));
    }
    if m.solid(x, y) {
        assert(m.rem(Seq::empty(), x, y));
    }
    assert forall|i: int, j: int| 0 <= i < v.len() && 0 <= j < v.len() && i != j && covers(v[i], x, y)
        implies !covers(v[j], x, y) by {
        if i < j {
            assert(apart(v[i], v[j]));
        } else {
            assert(apart(v[j], v[i]));
        }
    }
}

/// Placing one more rectangle leaves exactly the pixels it does not cover.
proof fn lemma_rem_push(m: AlphaHitMask, c: Seq<PixelRect>, q: PixelRect, x: int, y: int)
    ensures
        m.rem(c.push(q), x, y) == (m.rem(c, x, y) && !covers(q, x, y)),
{
    let d = c.push(q);
    if covered_from(c, 0, x, y) {
        let i = choose|i: int| 0 <= i < c.len() && #[trigger] covers(c[i], x, y);
        assert(d[i] == c[i]);
    }
    if covers(q, x, y) {
        assert(d[c.len() as int] == q);
    }
    if covered_from(d, 0, x, y) {
        let i = choose|i: int| 0 <= i < d.len() && #[trigger] covers(d[i], x, y);
        if i < c.len() {
            assert(d[i] == c[i]);
        }
    }
}

/// Two non-empty rectangles that are not apart share a pixel.
proof fn lemma_shared_pixel(a: PixelRect, b: PixelRect)
    requires
        a.width >= 1,
        a.height >= 1,
        b.width >= 1,
        b.height >= 1,
        !apart(a, b),
    ensures
        covers(a, if a.x < b.x { b.x as int } else { a.x as int }, if a.y < b.y { b.y as int } else { a.y as int }),
        covers(b, if a.x < b.x { b.x as int } else { a.x as int }, if a.y < b.y { b.y as int } else { a.y as int }),
{
}

/// With nothing placed, the pixels still to cover are the solid ones.
proof fn lemma_rem_empty(m: AlphaHitMask, x: int, y: int)
    ensures
        m.rem(Seq::empty(), x, y) == m.solid(x, y),
{
}

/// When no pixel is left, the empty list covers the rest.
proof fn lemma_cover_nothing(m: AlphaHitMask, c: Seq<PixelRect>)
    requires
        forall|x: int, y: int| !#[trigger] m.rem(c, x, y),
    ensures
        m.covers_rest(c, Seq::empty()),
{
}

/// A cover of a rest that holds a pixel has a rectangle.
proof fn lemma_cover_nonempty(m: AlphaHitMask, c: Seq<PixelRect>, u: Seq<PixelRect>, x: int, y: int)
    requires
        m.covers_rest(c, u),
        m.rem(c, x, y),
    ensures
        u.len() >= 1,
{
    assert(covered_from(u, 0, x, y));
}

/// Placing `q` and covering what is left with `v` covers the rest with `q`
/// followed by `v`.
proof fn lemma_cover_extend(m: AlphaHitMask, c: Seq<PixelRect>, q: PixelRect, v: Seq<PixelRect>)
    requires
        m.rem_rect(c, q),
        m.covers_rest(c.push(q), v),
    ensures
        m.covers_rest(c, seq![q] + v),
{
    let w = seq![q] + v;
    assert(w[0] == q);
    assert forall|i: int| 0 <= i < v.len() implies w[i + 1] == v[i] by {}
    assert forall|i: int| 0 <= i < w.len() implies m.rem_rect(c, #[trigger] w[i]) by {
        if i > 0 {
            let r = v[i - 1];
            assert(w[i] == r);
            assert(m.rem_rect(c.push(q), r));
            assert forall|x: int, y: int| covers(r, x, y) implies #[trigger] m.rem(c, x, y) by {
                assert(m.rem(c.push(q), x, y));
                lemma_rem_push(m, c, q, x, y);
            }
        }
    }
    assert forall|i: int, j: int| #![trigger w[i], w[j]] 0 <= i < j < w.len() implies apart(w[i], w[j]) by {
        if i == 0 {
            let r = v[j - 1];
            assert(w[j] == r);
            assert(m.rem_rect(c.push(q), r));
            if !apart(q, r) {
                lemma_shared_pixel(q, r);
                let sx = if q.x < r.x { r.x as int } else { q.x as int };
                let sy = if q.y < r.y { r.y as int } else { q.y as int };
                assert(m.rem(c.push(q), sx, sy));
                lemma_rem_push(m, c, q, sx, sy);
            }
        } else {
            assert(w[i] == v[i - 1] && w[j] == v[j - 1]);
        }
    }
    assert forall|x: int, y: int| #[trigger] m.rem(c, x, y) implies covered_from(w, 0, x, y) by {
        lemma_rem_push(m, c, q, x, y);
        if covers(q, x, y) {
            assert(covers(w[0], x, y));
        } else {
            assert(m.rem(c.push(q), x, y));
            let k = choose|k: int| 0 <= k < v.len() && #[trigger] covers(v[k], x, y);
            assert(covers(w[k + 1], x, y));
        }
    }
}

/// In a cover of the rest, the rectangle holding the first pixel left has
/// that pixel as its top-left corner, and the other rectangles cover what
/// is left once it is placed.
proof fn lemma_cover_split(m: AlphaHitMask, c: Seq<PixelRect>, u: Seq<PixelRect>, px: int, py: int) -> (j: int)
    requires
        m.covers_rest(c, u),
        m.rem(c, px, py),
        forall|x: int, y: int| before(x, y, px, py) ==> !#[trigger] m.rem(c, x, y),
    ensures
        0 <= j < u.len(),
        u[j].x == px,
        u[j].y == py,
        m.rem_rect(c, u[j]),
        m.covers_rest(c.push(u[j]), u.remove(j)),
{
    assert(covered_from(u, 0, px, py));
    let j = choose|j: int| 0 <= j < u.len() && #[trigger] covers(u[j], px, py);
    let q = u[j];
    assert(m.rem_rect(c, q));
    assert(covers(q, q.x as int, q.y as int));
    assert(m.rem(c, q.x as int, q.y as int));
    assert(q.x == px && q.y == py) by {
        if q.y < py || (q.y == py && q.x < px) {
            assert(before(q.x as int, q.y as int, px, py));
        }
    }
    let d = c.push(q);
    let t = u.remove(j);
    assert forall|i: int| 0 <= i < t.len() implies m.rem_rect(d, #[trigger] t[i]) by {
        let k = if i < j { i } else { i + 1 };
        assert(t[i] == u[k]);
        assert(m.rem_rect(c, u[k]));
        assert(apart(u[k], q)) by {
            if k < j {
                assert(apart(u[k], u[j]));
            } else {
                assert(apart(u[j], u[k]));
            }
        }
        assert forall|x: int, y: int| covers(t[i], x, y) implies #[trigger] m.rem(d, x, y) by {
            assert(m.rem(c, x, y));
            lemma_rem_push(m, c, q, x, y);
        }
    }
    assert forall|a: int, b: int| #![trigger t[a], t[b]] 0 <= a < b < t.len() implies apart(t[a], t[b]) by {
        let ka = if a < j { a } else { a + 1 };
        let kb = if b < j { b } else { b + 1 };
        assert(t[a] == u[ka] && t[b] == u[kb]);
        assert(ka < kb);
        assert(apart(u[ka], u[kb]));
    }
    assert forall|x: int, y: int| #[trigger] m.rem(d, x, y) implies covered_from(t, 0, x, y) by {
        lemma_rem_push(m, c, q, x, y);
        assert(m.rem(c, x, y));
        let k = choose|k: int| 0 <= k < u.len() && #[trigger] covers(u[k], x, y);
        assert(k != j);
        if k < j {
            assert(t[k] == u[k]);
            assert(covers(t[k], x, y));
        } else {
            assert(t[k - 1] == u[k]);
            assert(covers(t[k - 1], x, y));
        }
    }
    j
}

impl AlphaHitMask {
    /// Whether the pixel is still to cover once `c` is placed.
    fn rem_at(&self, c: &Vec<PixelRect>, x: u32, y: u32) -> (r: bool)
        requires
            self.wf(),
            x < self.width,
            y < self.height,
        ensures
            r == self.rem(c@, x as int, y as int),
    {
        proof {
            lemma_index_in_bounds(x as int, y as int, self.width as int, self.height as int);
        }
        if self.pixels[(y * self.width + x) as usize] == 0 {
            return false;
        }
        let mut i: usize = 0;
        while i < c.len()
            invariant
                i <= c@.len(),
                forall|k: int| 0 <= k < i ==> !#[trigger] covers(c@[k], x as int, y as int),
            decreases c.len() - i,
        {
            let r = c[i];
            if r.x <= x && x - r.x < r.width && r.y <= y && y - r.y < r.height {
                assert(covers(c@[i as int], x as int, y as int));
                return false;
            }
            i = i + 1;
        }
        true
    }

    /// Whether the pixels of row `y` from `x`, `w` wide, are all still to
    /// cover.
    fn row_rem(&self, c: &Vec<PixelRect>, x: u32, y: u32, w: u32) -> (r: bool)
        requires
            self.wf(),
            x + w <= self.width,
            y < self.height,
        ensures
            r == forall|k: int| x <= k < x + w ==> #[trigger] self.rem(c@, k, y as int),
    {
        let mut k: u32 = 0;
        while k < w
            invariant
                self.wf(),
                x + w <= self.width,
                y < self.height,
                k <= w,
                forall|j: int| x <= j < x + k ==> #[trigger] self.rem(c@, j, y as int),
            decreases w - k,
        {
            if !self.rem_at(c, x + k, y) {
                return false;
            }
            k = k + 1;
        }
        true
    }

    /// How far the pixels still to cover run along row `y` from `x`.
    fn run_width(&self, c: &Vec<PixelRect>, x: u32, y: u32) -> (r: u32)
        requires
            self.wf(),
            x < self.width,
            y < self.height,
        ensures
            x + r <= self.width,
            forall|k: int| x <= k < x + r ==> #[trigger] self.rem(c@, k, y as int),
            !self.rem(c@, x + r, y as int),
    {
        let mut w: u32 = 0;
        while w < self.width - x && self.rem_at(c, x + w, y)
            invariant
                self.wf(),
                x < self.width,
                y < self.height,
                w <= self.width - x,
                forall|k: int| x <= k < x + w ==> #[trigger] self.rem(c@, k, y as int),
            decreases self.width - x - w,
        {
            w = w + 1;
        }
        w
    }

    /// How many rows from `y` on are still to cover over the `w` pixels
    /// from `x`; row `y` itself is.
    fn col_height(&self, c: &Vec<PixelRect>, x: u32, y: u32, w: u32) -> (r: u32)
        requires
            self.wf(),
            1 <= w,
            x + w <= self.width,
            y < self.height,
            forall|k: int| x <= k < x + w ==> #[trigger] self.rem(c@, k, y as int),
        ensures
            1 <= r,
            y + r <= self.height,
            forall|xx: int, yy: int| x <= xx < x + w && y <= yy < y + r ==> #[trigger] self.rem(c@, xx, yy),
            !(forall|k: int| x <= k < x + w ==> #[trigger] self.rem(c@, k, y + r)),
    {
        let mut h: u32 = 1;
        while h < self.height - y && self.row_rem(c, x, y + h, w)
            invariant
                self.wf(),
                x + w <= self.width,
                y < self.height,
                1 <= h <= self.height - y,
                forall|xx: int, yy: int| x <= xx < x + w && y <= yy < y + h ==> #[trigger] self.rem(c@, xx, yy),
            decreases self.height - y - h,
        {
            h = h + 1;
        }
        if h >= self.height - y {
            assert(!self.rem(c@, x as int, y + h));
        }
        h
    }

    /// The first pixel still to cover, in row order, searching from
    /// `(sx, sy)` on; none comes before that point.
    fn first_rem(&self, c: &Vec<PixelRect>, sx: u32, sy: u32) -> (r: Option<(u32, u32)>)
        requires
            self.wf(),
            sx <= self.width,
            sy <= self.height,
            forall|x: int, y: int| before(x, y, sx as int, sy as int) ==> !#[trigger] self.rem(c@, x, y),
        ensures
            match r {
                Some((px, py)) => {
                    &&& px < self.width
                    &&& py < self.height
                    &&& self.rem(c@, px as int, py as int)
                    &&& forall|x: int, y: int| before(x, y, px as int, py as int) ==> !#[trigger] self.rem(c@, x, y)
                },
                None => forall|x: int, y: int| !#[trigger] self.rem(c@, x, y),
            },
    {
        let mut x = sx;
        let mut y = sy;
        while y < self.height
            invariant
                self.wf(),
                x <= self.width,
                y <= self.height,
                forall|xx: int, yy: int| before(xx, yy, x as int, y as int) ==> !#[trigger] self.rem(c@, xx, yy),
            decreases self.height - y, self.width - x,
        {
            if x >= self.width {
                x = 0;
                y = y + 1;
            } else if self.rem_at(c, x, y) {
                return Some((x, y));
            } else {
                x = x + 1;
            }
        }
        assert forall|xx: int, yy: int| !#[trigger] self.rem(c@, xx, yy) by {
            if yy < y {
                assert(before(xx, yy, x as int, y as int));
            }
        }
        None
    }
}

impl AlphaHitMask {
    /// The shortest cover of the pixels still to cover once `c` is placed,
    /// if one shorter than `budget` exists; `None` when every cover has at
    /// least `budget` rectangles. No pixel before `(sx, sy)` is left.
    fn search(&self, c: &mut Vec<PixelRect>, sx: u32, sy: u32, budget: usize) -> (r: Option<Vec<PixelRect>>)
        requires
            self.wf(),
            sx <= self.width,
            sy <= self.height,
            forall|x: int, y: int| before(x, y, sx as int, sy as int) ==> !#[trigger] self.rem(old(c)@, x, y),
        ensures
            final(c)@ == old(c)@,
            match r {
                Some(v) => {
                    &&& self.covers_rest(old(c)@, v@)
                    &&& v@.len() < budget
                    &&& forall|u: Seq<PixelRect>| #[trigger] self.covers_rest(old(c)@, u) ==> v@.len() <= u.len()
                },
                None => forall|u: Seq<PixelRect>| #[trigger] self.covers_rest(old(c)@, u) ==> u.len() >= budget,
            },
        decreases budget,
    {
        if budget == 0 {
            return None;
        }
        let first = self.first_rem(c, sx, sy);
        let (px, py) = match first {
            None => {
                proof {
                    lemma_cover_nothing(*self, c@);
                }
                return Some(Vec::new());
            },
            Some(p) => p,
        };
        let ghost c0 = c@;
        if budget == 1 {
            assert forall|u: Seq<PixelRect>| #[trigger] self.covers_rest(c0, u) implies u.len() >= budget by {
                lemma_cover_nonempty(*self, c0, u, px as int, py as int);
            }
            return None;
        }
        let mut best: Option<Vec<PixelRect>> = None;
        let mut b: usize = budget;
        let maxw = self.run_width(c, px, py);
        let mut wd: u32 = maxw;
        while wd >= 1
            invariant
                self.wf(),
                px < self.width,
                py < self.height,
                wd <= maxw,
                px + maxw <= self.width,
                c@ == c0,
                self.rem(c0, px as int, py as int),
                forall|x: int, y: int| before(x, y, px as int, py as int) ==> !#[trigger] self.rem(c0, x, y),
                forall|k: int| px <= k < px + maxw ==> #[trigger] self.rem(c0, k, py as int),
                !self.rem(c0, px + maxw, py as int),
                budget >= 2,
                1 <= b <= budget,
                match best {
                    Some(v) => self.covers_rest(c0, v@) && v@.len() == b && b < budget,
                    None => b == budget,
                },
                forall|q: PixelRect| #[trigger] self.rem_rect(c0, q) && q.x == px && q.y == py && q.width > wd ==>
                    forall|u: Seq<PixelRect>| #[trigger] self.covers_rest(c0.push(q), u) ==> u.len() + 1 >= b,
            decreases wd,
        {
            let maxh = self.col_height(c, px, py, wd);
            let mut ht: u32 = maxh;
            while ht >= 1
                invariant
                    self.wf(),
                    px < self.width,
                    py < self.height,
                    1 <= wd <= maxw,
                    px + maxw <= self.width,
                    ht <= maxh,
                    py + maxh <= self.height,
                    c@ == c0,
                    forall|x: int, y: int| before(x, y, px as int, py as int) ==> !#[trigger] self.rem(c0, x, y),
                    forall|x: int, y: int| px <= x < px + wd && py <= y < py + maxh ==> #[trigger] self.rem(c0, x, y),
                    !(forall|k: int| px <= k < px + wd ==> #[trigger] self.rem(c0, k, py + maxh)),
                    budget >= 2,
                    1 <= b <= budget,
                    match best {
                        Some(v) => self.covers_rest(c0, v@) && v@.len() == b && b < budget,
                        None => b == budget,
                    },
                    forall|q: PixelRect| #[trigger] self.rem_rect(c0, q) && q.x == px && q.y == py && (q.width > wd
                        || (q.width == wd && q.height > ht)) ==>
                        forall|u: Seq<PixelRect>| #[trigger] self.covers_rest(c0.push(q), u) ==> u.len() + 1 >= b,
                decreases ht,
            {
                let q = PixelRect { x: px, y: py, width: wd, height: ht };
                assert(self.rem_rect(c0, q));
                c.push(q);
                proof {
                    assert forall|x: int, y: int| before(x, y, px as int, py as int) implies !#[trigger] self.rem(c@, x, y) by {
                        lemma_rem_push(*self, c0, q, x, y);
                    }
                }
                let sub = self.search(c, px, py, b - 1);
                c.pop();
                assert(c@ =~= c0);
                match sub {
                    Some(v) => {
                        let mut v = v;
                        proof {
                            lemma_cover_extend(*self, c0, q, v@);
                        }
                        let ghost vold = v@;
                        v.insert(0, q);
                        assert(v@ =~= seq![q] + vold);
                        b = v.len();
                        best = Some(v);
                    },
                    None => {},
                }
                proof {
                    assert forall|q2: PixelRect| #[trigger] self.rem_rect(c0, q2) && q2.x == px && q2.y == py && (q2.width > wd
                        || (q2.width == wd && q2.height >= ht)) implies
                        forall|u: Seq<PixelRect>| #[trigger] self.covers_rest(c0.push(q2), u) ==> u.len() + 1 >= b by {
                        if q2.width == wd && q2.height == ht {
                            assert(q2 == q);
                        }
                    }
                }
                ht = ht - 1;
            }
            proof {
                assert forall|q2: PixelRect| #[trigger] self.rem_rect(c0, q2) && q2.x == px && q2.y == py && q2.width == wd
                    implies q2.height <= maxh by {
                    if q2.height > maxh {
                        let k = choose|k: int| px <= k < px + wd && !#[trigger] self.rem(c0, k, py + maxh);
                        assert(covers(q2, k, py + maxh));
                    }
                }
            }
            wd = wd - 1;
        }
        proof {
            assert forall|q2: PixelRect| #[trigger] self.rem_rect(c0, q2) && q2.x == px && q2.y == py implies q2.width
                <= maxw by {
                if q2.width > maxw {
                    assert(covers(q2, px + maxw, py as int));
                }
            }
            assert forall|u: Seq<PixelRect>| #[trigger] self.covers_rest(c0, u) implies u.len() >= b by {
                let j = lemma_cover_split(*self, c0, u, px as int, py as int);
                let q2 = u[j];
                assert(self.rem_rect(c0, q2));
                assert(self.covers_rest(c0.push(q2), u.remove(j)));
            }
        }
        best
    }

    /// Decomposes the mask into the shortest list of disjoint rectangles
    /// covering exactly its solid pixels: no such list is shorter. The
    /// row-run decomposition is kept when nothing shorter exists;
    /// otherwise the search returns the first shortest cover it meets,
    /// trying wider and then taller rectangles first, listed by top-left
    /// corner in row order. The search is exhaustive, so on masks that need
    /// many rectangles its time grows quickly.
    pub fn to_rectangles(&self) -> (r: Vec<PixelRect>)
        requires
            self.wf(),
        ensures
            self.minimum_cover(r@),
    {
        let scan = self.row_run_rectangles();
        proof {
            assert forall|i: int| 0 <= i < scan@.len() implies self.rem_rect(Seq::empty(), #[trigger] scan@[i]) by {
                assert(self.solid_rect(scan@[i]));
            }
            assert forall|x: int, y: int| #[trigger] self.rem(Seq::empty(), x, y) implies covered_from(scan@, 0, x, y) by {
                assert(self.solid(x, y));
            }
            assert(self.exact_cover(scan@));
        }
        let mut c: Vec<PixelRect> = Vec::new();
        let found = self.search(&mut c, 0, 0, scan.len());
        match found {
            Some(v) => v,
            None => scan,
        }
    }
}

} // verus!
