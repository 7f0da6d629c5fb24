//! The dirty region: the rectangle of scratch pixels touched since the last
//! commit.

use vstd::prelude::*;

verus! {

/// An axis-aligned rectangle of pixels: columns `x .. x + w`, rows
/// `y .. y + h`.
pub struct Rect {
    pub x: int,
    pub y: int,
    pub w: int,
    pub h: int,
}

impl Rect {
    /// Whether pixel `(px, py)` lies in the rectangle.
    pub open spec fn contains(self, px: int, py: int) -> bool {
        self.x <= px < self.x + self.w && self.y <= py < self.y + self.h
    }

    /// The pixels of the rectangle, as a set.
    pub open spec fn region(self) -> Set<(int, int)> {
        Set::new(|p: (int, int)| self.contains(p.0, p.1))
    }

    /// A non-empty rectangle that lies inside a `width` by `height` surface.
    pub open spec fn fits(self, width: int, height: int) -> bool {
        &&& self.w >= 1
        &&& self.h >= 1
        &&& 0 <= self.x
        &&& 0 <= self.y
        &&& self.x + self.w <= width
        &&& self.y + self.h <= height
    }

    /// Whether every pixel of `inner` lies in `self`.
    pub open spec fn encloses(self, inner: Rect) -> bool {
        &&& self.x <= inner.x
        &&& self.y <= inner.y
        &&& inner.x + inner.w <= self.x + self.w
        &&& inner.y + inner.h <= self.y + self.h
    }
}

/// The rectangle held in a `(x, y, width, height)` tuple.
pub open spec fn rect_of(t: (u32, u32, u32, u32)) -> Rect {
    Rect { x: t.0 as int, y: t.1 as int, w: t.2 as int, h: t.3 as int }
}

/// The dirty region held in an optional `(x, y, width, height)` tuple.
pub open spec fn dirty_of(d: Option<(u32, u32, u32, u32)>) -> Option<Rect> {
    match d {
        Some(t) => Some(rect_of(t)),
        None => None,
    }
}

/// The smallest rectangle that covers `dirty` and the pixel `(x, y)`.
pub open spec fn grow(dirty: Option<Rect>, x: int, y: int) -> Rect {
    match dirty {
        None => Rect { x: x, y: y, w: 1, h: 1 },
        Some(r) => {
            let left = if x < r.x { x } else { r.x };
            let top = if y < r.y { y } else { r.y };
            let right = if x + 1 > r.x + r.w { x + 1 } else { r.x + r.w };
            let bottom = if y + 1 > r.y + r.h { y + 1 } else { r.y + r.h };
            Rect { x: left, y: top, w: right - left, h: bottom - top }
        },
    }
}

/// `after` is the tight bounding rectangle of `before` together with the
/// pixels of `touched`: it covers both, and each of its four edges is
/// reached by `before` or by a touched pixel.  With nothing before and
/// nothing touched there is no rectangle at all.
pub open spec fn is_bounding(after: Option<Rect>, before: Option<Rect>, touched: Set<(int, int)>) -> bool {
    match after {
        None => before is None && forall|p: (int, int)| !touched.contains(p),
        Some(r) => {
            &&& r.w >= 1
            &&& r.h >= 1
            &&& forall|p: (int, int)| touched.contains(p) ==> r.contains(p.0, p.1)
            &&& before matches Some(b) ==> r.encloses(b)
            &&& (before matches Some(b) && b.x == r.x) || exists|p: (int, int)|
                touched.contains(p) && p.0 == r.x
            &&& (before matches Some(b) && b.y == r.y) || exists|p: (int, int)|
                touched.contains(p) && p.1 == r.y
            &&& (before matches Some(b) && b.x + b.w == r.x + r.w) || exists|p: (int, int)|
                touched.contains(p) && p.0 + 1 == r.x + r.w
            &&& (before matches Some(b) && b.y + b.h == r.y + r.h) || exists|p: (int, int)|
                touched.contains(p) && p.1 + 1 == r.y + r.h
        },
    }
}

/// Touching nothing leaves the dirty region as it was.
pub proof fn lemma_bounding_nothing(dirty: Option<Rect>)
    requires
        dirty matches Some(r) ==> r.w >= 1 && r.h >= 1,
    ensures
        is_bounding(dirty, dirty, Set::empty()),
{
}

/// Touching one more pixel grows the bounding rectangle by that pixel.
pub proof fn lemma_bounding_grow(
    current: Option<Rect>,
    before: Option<Rect>,
    touched: Set<(int, int)>,
    x: int,
    y: int,
)
    requires
        is_bounding(current, before, touched),
    ensures
        is_bounding(Some(grow(current, x, y)), before, touched.insert((x, y))),
{
    let g = grow(current, x, y);
    let more = touched.insert((x, y));
    assert(more.contains((x, y)));
    match current {
        None => {},
        Some(r) => {
            if r.x <= x {
                if !(before matches Some(b) && b.x == r.x) {
                    let p = choose|p: (int, int)| touched.contains(p) && p.0 == r.x;
                    assert(more.contains(p));
                }
            }
            if r.y <= y {
                if !(before matches Some(b) && b.y == r.y) {
                    let p = choose|p: (int, int)| touched.contains(p) && p.1 == r.y;
                    assert(more.contains(p));
                }
            }
            if x + 1 <= r.x + r.w {
                if !(before matches Some(b) && b.x + b.w == r.x + r.w) {
                    let p = choose|p: (int, int)| touched.contains(p) && p.0 + 1 == r.x + r.w;
                    assert(more.contains(p));
                }
            }
            if y + 1 <= r.y + r.h {
                if !(before matches Some(b) && b.y + b.h == r.y + r.h) {
                    let p = choose|p: (int, int)| touched.contains(p) && p.1 + 1 == r.y + r.h;
                    assert(more.contains(p));
                }
            }
        },
    }
}

/// Bounding in two rounds is bounding the union of what both rounds touched.
pub proof fn lemma_bounding_chain(
    before: Option<Rect>,
    middle: Option<Rect>,
    after: Option<Rect>,
    first: Set<(int, int)>,
    second: Set<(int, int)>,
)
    requires
        is_bounding(middle, before, first),
        is_bounding(after, middle, second),
    ensures
        is_bounding(after, before, first.union(second)),
{
    let both = first.union(second);
    match after {
        None => {},
        Some(r) => {
            if !(exists|p: (int, int)| second.contains(p) && p.0 == r.x) {
                let m = middle->Some_0;
                if !(before matches Some(b) && b.x == m.x) {
                    let p = choose|p: (int, int)| first.contains(p) && p.0 == m.x;
                    assert(both.contains(p));
                }
            } else {
                let p = choose|p: (int, int)| second.contains(p) && p.0 == r.x;
                assert(both.contains(p));
            }
            if !(exists|p: (int, int)| second.contains(p) && p.1 == r.y) {
                let m = middle->Some_0;
                if !(before matches Some(b) && b.y == m.y) {
                    let p = choose|p: (int, int)| first.contains(p) && p.1 == m.y;
                    assert(both.contains(p));
                }
            } else {
                let p = choose|p: (int, int)| second.contains(p) && p.1 == r.y;
                assert(both.contains(p));
            }
            if !(exists|p: (int, int)| second.contains(p) && p.0 + 1 == r.x + r.w) {
                let m = middle->Some_0;
                if !(before matches Some(b) && b.x + b.w == m.x + m.w) {
                    let p = choose|p: (int, int)| first.contains(p) && p.0 + 1 == m.x + m.w;
                    assert(both.contains(p));
                }
            } else {
                let p = choose|p: (int, int)| second.contains(p) && p.0 + 1 == r.x + r.w;
                assert(both.contains(p));
            }
            if !(exists|p: (int, int)| second.contains(p) && p.1 + 1 == r.y + r.h) {
                let m = middle->Some_0;
                if !(before matches Some(b) && b.y + b.h == m.y + m.h) {
                    let p = choose|p: (int, int)| first.contains(p) && p.1 + 1 == m.y + m.h;
                    assert(both.contains(p));
                }
            } else {
                let p = choose|p: (int, int)| second.contains(p) && p.1 + 1 == r.y + r.h;
                assert(both.contains(p));
            }
        },
    }
}

/// The bounding rectangle is determined by what it bounds.
pub proof fn lemma_bounding_unique(
    first: Option<Rect>,
    second: Option<Rect>,
    before: Option<Rect>,
    touched: Set<(int, int)>,
)
    requires
        is_bounding(first, before, touched),
        is_bounding(second, before, touched),
    ensures
        first == second,
{
    match (first, second) {
        (Some(a), Some(b)) => {
            assert(a.x == b.x);
            assert(a.y == b.y);
            assert(a.x + a.w == b.x + b.w);
            assert(a.y + a.h == b.y + b.h);
        },
        (Some(a), None) => {
            if before is None {
                let p = choose|p: (int, int)| touched.contains(p) && p.0 == a.x;
                assert(touched.contains(p));
            }
        },
        (None, Some(b)) => {
            if before is None {
                let p = choose|p: (int, int)| touched.contains(p) && p.0 == b.x;
                assert(touched.contains(p));
            }
        },
        (None, None) => {},
    }
}

} // verus!
