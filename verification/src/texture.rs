//! Glyph-atlas textures and the power-of-two square allocator that
//! parcels them out.
//!
//! Free squares are kept in one queue per size class; a request is
//! served from its own class when possible, otherwise a larger square
//! is split into quadrants until one of the requested size falls out.

use vstd::prelude::*;
use crate::util::is_pow2;

verus! {

/// An RGBA image with its dimensions.
pub struct KRGBAImage {
    pub dx: u32,
    pub dy: u32,
    pub pixels: Vec<u8>,
}

/// A rectangular view into an image.
pub struct RGBASub<'a> {
    pub offset: usize,
    pub min: KPoint,
    pub max: KPoint,
    pub img: &'a KRGBAImage,
}

impl KRGBAImage {
    /// The view covering the whole image.
    pub fn sub<'a>(&'a self) -> (r: RGBASub<'a>)
        ensures
            r.offset == 0,
            r.min.x == 0 && r.min.y == 0,
            r.max.x == self.dx && r.max.y == self.dy,
    {
        RGBASub {
            offset: 0,
            img: self,
            min: KPoint { x: 0, y: 0 },
            max: KPoint { x: self.dx, y: self.dy },
        }
    }
}

impl<'a> RGBASub<'a> {
    /// A view is addressable when it lies inside its image and its
    /// byte offsets stay in range.
    pub open spec fn wf(&self) -> bool {
        &&& self.min.x <= self.max.x <= self.img.dx
        &&& self.min.y <= self.max.y <= self.img.dy
        &&& self.img.dx <= 0x1000
        &&& self.img.dy <= 0x1000
        &&& self.offset <= 0x40_0000
    }

    /// A smaller view inside this one, anchored at `min`.
    pub fn sub_image(&self, min: KPoint, max: KPoint) -> (r: RGBASub<'a>)
        requires
            self.wf(),
            self.min.x <= min.x <= self.max.x,
            self.min.y <= min.y <= self.max.y,
        ensures
            r.min == min,
            r.max == max,
            r.offset == self.pix_offset_spec(min),
    {
        let i = self.pix_offset(&min);
        RGBASub { offset: i, min, max, img: self.img }
    }

    /// Bytes per image row.
    pub fn stride(&self) -> (r: usize)
        requires
            self.wf(),
        ensures
            r == self.img.dx * 4,
    {
        self.img.dx as usize * 4
    }

    /// Byte offset of a pixel, relative to the view's anchor.
    pub open spec fn pix_offset_spec(&self, p: KPoint) -> int {
        self.offset + (p.y - self.min.y) * (self.img.dx * 4) + (p.x - self.min.x) * 4
    }

    /// Byte offset of a pixel inside the view.
    pub fn pix_offset(&self, p: &KPoint) -> (r: usize)
        requires
            self.wf(),
            self.min.x <= p.x <= self.max.x,
            self.min.y <= p.y <= self.max.y,
        ensures
            r == self.pix_offset_spec(*p),
    {
        proof {
            assert((p.y - self.min.y) * (self.img.dx * 4) <= 0x1000 * (0x1000 * 4))
                by (nonlinear_arith)
                requires
                    0 <= p.y - self.min.y <= 0x1000,
                    0 <= self.img.dx * 4 <= 0x1000 * 4,
            ;
            assert((p.y - self.min.y) * (self.img.dx * 4) >= 0) by (nonlinear_arith)
                requires 0 <= p.y - self.min.y, 0 <= self.img.dx * 4,
            ;
        }
        self.offset + (p.y as usize - self.min.y as usize) * self.stride() + (p.x as usize
            - self.min.x as usize) * 4
    }
}

/// A texture slot: the image data, the used portion and the allocated
/// atlas rectangle.
pub struct KTexture {
    pub img: Option<KRGBAImage>,
    pub used_rect: KRect,
    pub allocated_rect: KRect,
}

/// An integer pixel position.
#[derive(Clone, Copy, PartialEq, Eq, Structural, Debug)]
pub struct KPoint {
    pub x: u32,
    pub y: u32,
}

/// An integer region of one atlas, usually square.
#[derive(Clone, Copy, PartialEq, Eq, Structural, Debug)]
pub struct KRect {
    pub min: KPoint,
    pub max: KPoint,
    pub atlas_id: u32,
}

impl KRect {
    /// Corners are ordered and coordinates stay in the addressable
    /// range.
    pub open spec fn wf(&self) -> bool {
        &&& self.min.x <= self.max.x && self.min.y <= self.max.y
        &&& self.max.x <= 0x4000_0000 && self.max.y <= 0x4000_0000
    }

    /// A rectangle of the given size at the atlas origin.
    pub fn at_origin(dx: u32, dy: u32, atlas_id: u32) -> (r: KRect)
        requires
            dx <= 0x4000_0000,
            dy <= 0x4000_0000,
        ensures
            r.min.x == 0 && r.min.y == 0,
            r.max.x == dx && r.max.y == dy,
            r.atlas_id == atlas_id,
    {
        KRect { min: KPoint { x: 0, y: 0 }, max: KPoint { x: dx, y: dy }, atlas_id }
    }

    /// Width.
    pub fn dx(&self) -> (r: u32)
        requires
            self.wf(),
        ensures
            r == self.max.x - self.min.x,
    {
        self.max.x - self.min.x
    }

    /// Height.
    pub fn dy(&self) -> (r: u32)
        requires
            self.wf(),
        ensures
            r == self.max.y - self.min.y,
    {
        self.max.y - self.min.y
    }

    /// Quarters the rectangle at its center point; the four quadrants
    /// tile it exactly, listed min-corner first.
    pub fn split(&self) -> (r: [KRect; 4])
        requires
            self.wf(),
        ensures
            r[0].min == self.min,
            r[0].max.x == (self.min.x + self.max.x) / 2,
            r[0].max.y == (self.min.y + self.max.y) / 2,
            r[1].min.x == (self.min.x + self.max.x) / 2 && r[1].min.y == self.min.y,
            r[1].max.x == self.max.x && r[1].max.y == (self.min.y + self.max.y) / 2,
            r[2].min.x == self.min.x && r[2].min.y == (self.min.y + self.max.y) / 2,
            r[2].max.x == (self.min.x + self.max.x) / 2 && r[2].max.y == self.max.y,
            r[3].min.x == (self.min.x + self.max.x) / 2 && r[3].min.y == (self.min.y
                + self.max.y) / 2,
            r[3].max == self.max,
            forall|i: int| 0 <= i < 4 ==> (#[trigger] r[i]).atlas_id == self.atlas_id,
            forall|i: int| 0 <= i < 4 ==> (#[trigger] r[i]).wf(),
    {
        let minx = self.min.x;
        let miny = self.min.y;
        let maxx = self.max.x;
        let maxy = self.max.y;
        let cenx = (minx + maxx) / 2;
        let ceny = (miny + maxy) / 2;
        proof {
            vstd::arithmetic::div_mod::lemma_div_is_ordered(
                2 * (minx as int),
                minx + maxx,
                2,
            );
            vstd::arithmetic::div_mod::lemma_div_is_ordered(
                minx + maxx,
                2 * (maxx as int),
                2,
            );
            vstd::arithmetic::div_mod::lemma_div_by_multiple(minx as int, 2);
            vstd::arithmetic::div_mod::lemma_div_by_multiple(maxx as int, 2);
            vstd::arithmetic::div_mod::lemma_div_is_ordered(
                2 * (miny as int),
                miny + maxy,
                2,
            );
            vstd::arithmetic::div_mod::lemma_div_is_ordered(
                miny + maxy,
                2 * (maxy as int),
                2,
            );
            vstd::arithmetic::div_mod::lemma_div_by_multiple(miny as int, 2);
            vstd::arithmetic::div_mod::lemma_div_by_multiple(maxy as int, 2);
        }
        [
            KRect {
                min: KPoint { x: minx, y: miny },
                max: KPoint { x: cenx, y: ceny },
                atlas_id: self.atlas_id,
            },
            KRect {
                min: KPoint { x: cenx, y: miny },
                max: KPoint { x: maxx, y: ceny },
                atlas_id: self.atlas_id,
            },
            KRect {
                min: KPoint { x: minx, y: ceny },
                max: KPoint { x: cenx, y: maxy },
                atlas_id: self.atlas_id,
            },
            KRect {
                min: KPoint { x: cenx, y: ceny },
                max: KPoint { x: maxx, y: maxy },
                atlas_id: self.atlas_id,
            },
        ]
    }
}

/// 2 to the power `e`, for the size classes.
pub open spec fn pow2_val(e: int) -> int
    decreases e,
{
    if e <= 0 {
        1
    } else {
        2 * pow2_val(e - 1)
    }
}

/// `pow2_val` is always positive.
pub proof fn lemma_pow2_val_pos(e: int)
    ensures
        pow2_val(e) >= 1,
    decreases e,
{
    if e > 0 {
        lemma_pow2_val_pos(e - 1);
    }
}

/// `pow2_val` grows with its argument.
pub proof fn lemma_pow2_val_increases(a: int, b: int)
    requires
        a <= b,
    ensures
        pow2_val(a) <= pow2_val(b),
    decreases b - a,
{
    lemma_pow2_val_pos(a);
    if a < b {
        lemma_pow2_val_increases(a, b - 1);
        lemma_pow2_val_pos(b - 1);
    }
}

/// Floor base-2 logarithm by repeated halving; `0` for inputs below 2.
pub fn power2_of(x: u32) -> (r: u32)
    requires
        1 <= x,
    ensures
        r <= 31,
        pow2_val(r as int) <= x < pow2_val(r as int + 1),
{
    let mut y: u32 = 0;
    let mut v: u32 = x;
    while v > 1
        invariant
            1 <= v,
            y <= 31,
            // x sits in [v * 2^y, (v + 1) * 2^y)
            (v as int) * pow2_val(y as int) <= x,
            x < ((v as int) + 1) * pow2_val(y as int),
            v > 1 ==> y < 31,
        decreases v,
    {
        proof {
            let p = pow2_val(y as int);
            let vi = v as int;
            lemma_pow2_val_pos(y as int);
            assert(pow2_val(y as int + 1) == 2 * p);
            // halving the mantissa and doubling the exponent keeps the
            // bracketing interval
            assert((vi / 2) * (2 * p) <= vi * p && (vi + 1) * p <= (vi / 2 + 1) * (2 * p))
                by (nonlinear_arith)
                requires p >= 1, vi >= 2, vi / 2 == (vi - vi % 2) / 2, 0 <= vi % 2 <= 1,
                    vi % 2 == vi - 2 * (vi / 2),
            ;
            if v / 2 > 1 {
                // the exponent cannot reach 31 while the mantissa is
                // above one, because x fits in 32 bits
                assert((vi / 2) * (2 * p) >= 2 * (2 * p)) by (nonlinear_arith)
                    requires vi / 2 >= 2, p >= 1,
                ;
                if y + 1 >= 31 {
                    assert(pow2_val(31) == 0x8000_0000) by {
                        reveal_with_fuel(pow2_val, 33);
                    }
                    lemma_pow2_val_increases(31, y as int + 1);
                }
            }
        }
        y = y + 1;
        v = v / 2;
    }
    y
}

/// The origin quadrant of a square: the one kept when splitting down.
pub open spec fn quad_origin(r: KRect) -> KRect {
    KRect {
        min: r.min,
        max: KPoint {
            x: ((r.min.x + r.max.x) / 2) as u32,
            y: ((r.min.y + r.max.y) / 2) as u32,
        },
        atlas_id: r.atlas_id,
    }
}

/// The quadrant right of the origin one.
pub open spec fn quad_right(r: KRect) -> KRect {
    KRect {
        min: KPoint { x: ((r.min.x + r.max.x) / 2) as u32, y: r.min.y },
        max: KPoint { x: r.max.x, y: ((r.min.y + r.max.y) / 2) as u32 },
        atlas_id: r.atlas_id,
    }
}

/// The quadrant below the origin one.
pub open spec fn quad_lower(r: KRect) -> KRect {
    KRect {
        min: KPoint { x: r.min.x, y: ((r.min.y + r.max.y) / 2) as u32 },
        max: KPoint { x: ((r.min.x + r.max.x) / 2) as u32, y: r.max.y },
        atlas_id: r.atlas_id,
    }
}

/// The quadrant diagonal to the origin one.
pub open spec fn quad_far(r: KRect) -> KRect {
    KRect {
        min: KPoint {
            x: ((r.min.x + r.max.x) / 2) as u32,
            y: ((r.min.y + r.max.y) / 2) as u32,
        },
        max: r.max,
        atlas_id: r.atlas_id,
    }
}

/// The square left after keeping the origin quadrant `k` times.
pub open spec fn origin_chain(r: KRect, k: int) -> KRect
    decreases k,
{
    if k <= 0 {
        r
    } else {
        quad_origin(origin_chain(r, k - 1))
    }
}

/// The first size class at or above `c` with a free square, or 16.
pub open spec fn first_nonempty(pool: Seq<Seq<KRect>>, c: int) -> int
    decreases 16 - c,
        when c <= 16
{
    if c >= 16 {
        16
    } else if pool[c].len() > 0 {
        c
    } else {
        first_nonempty(pool, c + 1)
    }
}

/// An empty scan prefix pins the first free class.
pub proof fn lemma_first_nonempty_at(pool: Seq<Seq<KRect>>, e: int, c: int)
    requires
        0 <= e <= c <= 16,
        forall|t: int| e <= t < c ==> (#[trigger] pool[t]).len() == 0,
        c < 16 ==> pool[c].len() > 0,
    ensures
        first_nonempty(pool, e) == if c < 16 {
            c
        } else {
            16int
        },
    decreases c - e,
{
    if e < c {
        lemma_first_nonempty_at(pool, e + 1, c);
    }
}

/// Free power-of-two squares, one queue per size class.
pub struct RectAllocator {
    squares_by_size: Vec<Vec<KRect>>,
}

impl RectAllocator {
    /// The free pool: one queue of squares per size class, oldest
    /// first.
    pub closed spec fn pool(&self) -> Seq<Seq<KRect>> {
        self.squares_by_size@.map_values(|q: Vec<KRect>| q@)
    }

    /// Every free square is well-formed and exactly the size of its
    /// class.
    pub proof fn lemma_pool_squares(&self)
        requires
            self.wf(),
        ensures
            self.pool().len() == 16,
            forall|e: int, i: int|
                0 <= e < 16 && 0 <= i < self.pool()[e].len() ==> {
                    let r = #[trigger] self.pool()[e][i];
                    &&& r.wf()
                    &&& r.max.x - r.min.x == pow2_val(e)
                    &&& r.max.y - r.min.y == pow2_val(e)
                },
    {
    }

    /// Every stored square is well-formed and exactly the size of its
    /// class.
    pub closed spec fn wf(&self) -> bool {
        &&& self.squares_by_size@.len() == 16
        &&& forall|e: int, i: int|
            0 <= e < 16 && 0 <= i < self.squares_by_size@[e]@.len() ==> {
                let r = #[trigger] self.squares_by_size@[e]@[i];
                &&& r.wf()
                &&& r.max.x - r.min.x == pow2_val(e)
                &&& r.max.y - r.min.y == pow2_val(e)
            }
    }

    /// An allocator with every size class empty.
    pub fn new() -> (r: RectAllocator)
        ensures
            r.wf(),
            r.pool().len() == 16,
            forall|e: int| 0 <= e < 16 ==> (#[trigger] r.pool()[e]).len() == 0,
    {
        let mut squares: Vec<Vec<KRect>> = Vec::new();
        let mut i: usize = 0;
        while i < 16
            invariant
                i == squares@.len() <= 16,
                forall|e: int| 0 <= e < i ==> (#[trigger] squares@[e])@.len() == 0,
            decreases 16 - i,
        {
            squares.push(Vec::new());
            i = i + 1;
        }
        RectAllocator { squares_by_size: squares }
    }

    /// Files a square into the queue of the class its size selects.
    pub fn with_size_deque(&mut self, size: u32, rect: KRect)
        requires
            old(self).wf(),
            rect.wf(),
            1 <= size,
            rect.max.x - rect.min.x == size,
            rect.max.y - rect.min.y == size,
            is_pow2(size as int),
        ensures
            final(self).wf(),
            ({
                let e = spec_size_class(size as int);
                if e < 16 {
                    final(self).pool() == old(self).pool().update(
                        e,
                        old(self).pool()[e].push(rect),
                    )
                } else {
                    final(self).pool() == old(self).pool()
                }
            }),
    {
        let exp = power2_of(size);
        proof {
            lemma_pow2_of_exact(size as int, exp as int);
            lemma_size_class(size as int, exp as int);
        }
        if (exp as usize) < 16 {
            let q = &mut self.squares_by_size[exp as usize];
            q.push(rect);
            proof {
                assert(self.pool() =~~= old(self).pool().update(
                    exp as int,
                    old(self).pool()[exp as int].push(rect),
                ));
            }
        } else {
            proof {
                assert(self.pool() =~~= old(self).pool());
            }
        }
    }

    /// Donates one free square to the allocator.
    pub fn provide(&mut self, rect: KRect)
        requires
            old(self).wf(),
            rect.wf(),
            rect.max.x - rect.min.x >= 1,
            rect.max.x - rect.min.x == rect.max.y - rect.min.y,
            is_pow2((rect.max.x - rect.min.x) as int),
        ensures
            final(self).wf(),
            ({
                let e = spec_size_class(rect.max.x - rect.min.x);
                if e < 16 {
                    final(self).pool() == old(self).pool().update(
                        e,
                        old(self).pool()[e].push(rect),
                    )
                } else {
                    final(self).pool() == old(self).pool()
                }
            }),
    {
        let dx = rect.dx();
        self.with_size_deque(dx, rect);
    }

    /// Donates `num_atlases` fresh full-size atlas squares.
    pub fn provide_atlases(&mut self, atlas_size: u32, num_atlases: u32)
        requires
            old(self).wf(),
            1 <= atlas_size <= 0x4000_0000,
            is_pow2(atlas_size as int),
        ensures
            final(self).wf(),
    {
        let mut i: u32 = 0;
        while i < num_atlases
            invariant
                self.wf(),
                1 <= atlas_size <= 0x4000_0000,
                is_pow2(atlas_size as int),
            decreases num_atlases - i,
        {
            self.provide(
                KRect {
                    min: KPoint { x: 0, y: 0 },
                    max: KPoint { x: atlas_size, y: atlas_size },
                    atlas_id: i,
                },
            );
            i = i + 1;
        }
    }

    /// Hands out a free square of the class `size` selects: the
    /// oldest square of that class when one is free, else the oldest
    /// square of the first larger class split down quadrant by
    /// quadrant, the three unused siblings refiled at each level.
    /// `None` exactly when no square at or above the class is free.
    pub fn allocate(&mut self, size: u32) -> (r: Option<KRect>)
        requires
            old(self).wf(),
            1 <= size,
        ensures
            final(self).wf(),
            r is Some ==> {
                let rect = r->Some_0;
                &&& rect.wf()
                &&& rect.max.x - rect.min.x == pow2_val(spec_size_class(size as int))
                &&& rect.max.y - rect.min.y == pow2_val(spec_size_class(size as int))
            },
            ({
                let e = spec_size_class(size as int);
                if e >= 16 || first_nonempty(old(self).pool(), e) >= 16 {
                    // nothing at or above the class is free
                    &&& r is None
                    &&& final(self).pool() == old(self).pool()
                } else {
                    let c = first_nonempty(old(self).pool(), e);
                    let head = old(self).pool()[c][0];
                    &&& r == Some(origin_chain(head, c - e))
                    &&& final(self).pool().len() == 16
                    &&& final(self).pool()[c] == old(self).pool()[c].drop_first()
                    &&& forall|d: int|
                        e <= d < c ==> #[trigger] final(self).pool()[d] == old(
                        self).pool()[d].push(quad_right(origin_chain(head, c - d - 1))).push(
                            quad_lower(origin_chain(head, c - d - 1)),
                        ).push(quad_far(origin_chain(head, c - d - 1)))
                    &&& forall|d: int|
                        0 <= d < 16 && !(e <= d <= c) ==> #[trigger] final(self).pool()[d]
                            == old(self).pool()[d]
                }
            }),
    {
        let exp = power2_of(size);
        proof {
            lemma_size_class(size as int, exp as int);
        }
        if exp >= 16 {
            return None;
        }
        if self.squares_by_size[exp as usize].len() > 0 {
            let ghost pre = *self;
            let rect = self.squares_by_size[exp as usize].remove(0);
            proof {
                assert(pre.squares_by_size@[exp as int]@[0] == rect);
                lemma_first_nonempty_at(pre.pool(), exp as int, exp as int);
                assert(self.pool()[exp as int] =~= pre.pool()[exp as int].drop_first());
                assert(forall|d: int|
                    0 <= d < 16 && d != exp ==> #[trigger] self.pool()[d] == pre.pool()[d]);
            }
            return Some(rect);
        }
        let mut nexp = exp + 1;
        loop
            invariant
                self.wf(),
                exp < 16,
                exp < nexp <= 16,
                spec_size_class(size as int) == exp,
                *self == *old(self),
                old(self).pool()[exp as int].len() == 0,
                forall|t: int|
                    exp < t < nexp ==> (#[trigger] old(self).pool()[t]).len() == 0,
            decreases 16 - nexp,
        {
            if nexp >= 16 {
                proof {
                    lemma_first_nonempty_at(old(self).pool(), exp as int, 16);
                }
                return None;
            }
            let popped = if self.squares_by_size[nexp as usize].len() > 0 {
                let ghost pre = *self;
                let r0 = self.squares_by_size[nexp as usize].remove(0);
                proof {
                    assert(pre.squares_by_size@[nexp as int]@[0] == r0);
                    lemma_first_nonempty_at(pre.pool(), exp as int, nexp as int);
                    assert(self.pool()[nexp as int] =~= pre.pool()[nexp as int].drop_first());
                    assert(forall|d: int|
                        0 <= d < 16 && d != nexp ==> #[trigger] self.pool()[d] == pre.pool()[
                        d]);
                }
                Some(r0)
            } else {
                None
            };
            match popped {
                None => {},
                Some(mut rect) => {
                    let ghost head = rect;
                    let ghost c = nexp as int;
                    // split down to the requested class, refiling the
                    // three unused quadrants at each level
                    let mut cur = nexp;
                    while cur > exp
                        invariant
                            self.wf(),
                            exp <= cur < 16,
                            exp < c < 16,
                            cur <= c,
                            spec_size_class(size as int) == exp,
                            rect.wf(),
                            rect.max.x - rect.min.x == pow2_val(cur as int),
                            rect.max.y - rect.min.y == pow2_val(cur as int),
                            rect == origin_chain(head, c - cur),
                            self.pool().len() == 16,
                            self.pool()[c] == old(self).pool()[c].drop_first(),
                            forall|d: int|
                                cur <= d < c ==> #[trigger] self.pool()[d] == old(
                                self).pool()[d].push(
                                    quad_right(origin_chain(head, c - d - 1)),
                                ).push(quad_lower(origin_chain(head, c - d - 1))).push(
                                    quad_far(origin_chain(head, c - d - 1)),
                                ),
                            forall|d: int|
                                0 <= d < 16 && !(cur <= d <= c) ==> #[trigger] self.pool()[d]
                                    == old(self).pool()[d],
                        decreases cur,
                    {
                        proof {
                            lemma_split_halves(
                                rect.min.x as int,
                                rect.max.x as int,
                                cur as int,
                            );
                            lemma_split_halves(
                                rect.min.y as int,
                                rect.max.y as int,
                                cur as int,
                            );
                        }
                        let ghost mid = *self;
                        let quads = rect.split();
                        cur = cur - 1;
                        let down_q = &mut self.squares_by_size[cur as usize];
                        down_q.push(quads[1]);
                        down_q.push(quads[2]);
                        down_q.push(quads[3]);
                        proof {
                            assert(quads[1] == quad_right(rect));
                            assert(quads[2] == quad_lower(rect));
                            assert(quads[3] == quad_far(rect));
                            assert(self.pool()[cur as int] =~= mid.pool()[cur as int].push(
                                quad_right(rect),
                            ).push(quad_lower(rect)).push(quad_far(rect)));
                            assert(forall|d: int|
                                0 <= d < 16 && d != cur ==> #[trigger] self.pool()[d]
                                    == mid.pool()[d]);
                        }
                        rect = quads[0];
                        proof {
                            assert(rect == quad_origin(origin_chain(head, c - cur - 1)));
                        }
                    }
                    proof {
                        lemma_first_nonempty_at(old(self).pool(), exp as int, c);
                    }
                    return Some(rect);
                },
            }
            nexp = nexp + 1;
        }
    }
}

/// The midpoint of a power-of-two span halves it exactly.
pub proof fn lemma_split_halves(lo: int, hi: int, e: int)
    requires
        e >= 1,
        hi - lo == pow2_val(e),
        lo >= 0,
    ensures
        (lo + hi) / 2 - lo == pow2_val(e - 1),
        hi - (lo + hi) / 2 == pow2_val(e - 1),
{
    let half = pow2_val(e - 1);
    lemma_pow2_val_increases(0, e - 1);
    assert(pow2_val(e) == 2 * half);
    assert((lo + hi) == 2 * (lo + half));
    vstd::arithmetic::div_mod::lemma_div_by_multiple(lo + half, 2);
    assert((2 * (lo + half)) / 2 == ((lo + half) * 2) / 2) by (nonlinear_arith);
}

/// A power-of-two value is exactly two to its floor logarithm.
pub proof fn lemma_pow2_of_exact(x: int, e: int)
    requires
        is_pow2(x),
        pow2_val(e) <= x < pow2_val(e + 1),
        e >= 0,
    ensures
        x == pow2_val(e),
    decreases e,
{
    if e == 0 {
        // x in [1, 2) and a power of two
    } else {
        assert(pow2_val(e) >= 2) by {
            lemma_pow2_val_increases(1, e);
        }
        lemma_pow2_of_exact(x / 2, e - 1);
    }
}

/// The size class of a request: the floor logarithm of its size.
pub open spec fn spec_size_class(size: int) -> int {
    choose|e: int| 0 <= e <= 31 && #[trigger] pow2_val(e) <= size < pow2_val(e + 1)
}

/// The floor logarithm witnesses its own class.
pub proof fn lemma_size_class(size: int, e: int)
    requires
        0 <= e <= 31,
        pow2_val(e) <= size < pow2_val(e + 1),
    ensures
        spec_size_class(size) == e,
{
    assert(exists|q: int| 0 <= q <= 31 && #[trigger] pow2_val(q) <= size < pow2_val(q + 1)) by {
        assert(0 <= e <= 31 && pow2_val(e) <= size < pow2_val(e + 1));
    }
    let w = spec_size_class(size);
    if w < e {
        lemma_pow2_val_increases(w + 1, e);
    }
    if e < w {
        lemma_pow2_val_increases(e + 1, w);
    }
}

} // verus!
