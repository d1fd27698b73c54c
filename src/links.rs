//! Link extraction: a depth-first walk over a page's element tree that
//! collects, in visual order, the pixel box and URL of every URL link.
//!
//! Geometry is fixed-point: lengths are in 1/65536 of a document unit, the
//! factors of a transform and the resolution in 1/65536. A quotient by the
//! unit is rounded down. A walk whose numbers leave `i64` yields nothing.

use vstd::prelude::*;

verus! {

/// The fixed-point denominator.
pub const UNIT: i64 = 65536;

/// A position or a size.
#[derive(Clone, Copy, Debug, PartialEq, Eq)]
pub struct Point {
    pub x: i64,
    pub y: i64,
}

/// An affine map: `x' = x * sx + y * kx + tx`, `y' = x * ky + y * sy + ty`.
#[derive(Clone, Copy, Debug, PartialEq, Eq)]
pub struct Transform {
    pub sx: i32,
    pub ky: i32,
    pub kx: i32,
    pub sy: i32,
    pub tx: i64,
    pub ty: i64,
}

/// Where a link leads.
pub enum Destination {
    Url(String),
    /// A place inside the document; such links are not collected.
    Internal,
}

/// One element of a frame.
pub enum FrameItem {
    Group(Transform, Frame),
    Link(Destination, Point),
    Other,
}

/// A frame: its elements, each at a position relative to the frame.
pub struct Frame {
    pub items: Vec<(Point, FrameItem)>,
}

/// A link on the rendered page, in device pixels (fixed-point).
pub struct LinkDesc {
    pub x: i64,
    pub y: i64,
    pub width: i64,
    pub height: i64,
    pub url: String,
}

/// What a link descriptor is: position, size and URL.
pub type LinkView = (int, int, int, int, Seq<char>);

impl View for LinkDesc {
    type V = LinkView;

    open spec fn view(&self) -> LinkView {
        (self.x as int, self.y as int, self.width as int, self.height as int, self.url@)
    }
}

impl LinkDesc {
    pub fn new(x: i64, y: i64, width: i64, height: i64, url: String) -> (r: LinkDesc)
        ensures
            r@ == (x as int, y as int, width as int, height as int, url@),
    {
        LinkDesc { x, y, width, height, url }
    }
}

/// The views of a list of descriptors.
pub open spec fn link_views(v: Seq<LinkDesc>) -> Seq<LinkView> {
    v.map_values(|l: LinkDesc| l@)
}

/// The value, where it fits in `i64`.
pub open spec fn fit(v: int) -> Option<int> {
    if i64::MIN <= v <= i64::MAX {
        Some(v)
    } else {
        None
    }
}

/// The sum of two points.
pub open spec fn offset(a: (int, int), b: Point) -> Option<(int, int)> {
    match (fit(a.0 + b.x), fit(a.1 + b.y)) {
        (Some(x), Some(y)) => Some((x, y)),
        _ => None,
    }
}

/// A point under a transform.
pub open spec fn apply(p: (int, int), t: Transform) -> Option<(int, int)> {
    match (
        fit((p.0 * t.sx + p.1 * t.kx) / (UNIT as int) + t.tx),
        fit((p.0 * t.ky + p.1 * t.sy) / (UNIT as int) + t.ty),
    ) {
        (Some(x), Some(y)) => Some((x, y)),
        _ => None,
    }
}

/// A length at the resolution `res`.
pub open spec fn scaled(v: int, res: int) -> Option<int> {
    fit(v * res / (UNIT as int))
}

/// The descriptor of a URL link at absolute position `at` with size `size`.
pub open spec fn describe(at: (int, int), size: Point, res: int, url: Seq<char>) -> Option<LinkView> {
    match (scaled(at.0, res), scaled(at.1, res), scaled(size.x as int, res), scaled(size.y as int, res)) {
        (Some(x), Some(y), Some(w), Some(h)) => Some((x, y, w, h, url)),
        _ => None,
    }
}

/// `head` before what `rest` holds.
pub open spec fn prepend(head: Seq<LinkView>, rest: Option<Seq<LinkView>>) -> Option<Seq<LinkView>> {
    match rest {
        Some(s) => Some(head + s),
        None => None,
    }
}

/// The links of frame `f` whose origin lies at `base`.
pub open spec fn frame_links(f: Frame, base: (int, int), res: int) -> Option<Seq<LinkView>>
    decreases f, f.items@.len() + 1,
{
    items_links(f, 0, base, res)
}

/// The links of the elements of `f` from index `i` on.
pub open spec fn items_links(f: Frame, i: int, base: (int, int), res: int) -> Option<Seq<LinkView>>
    decreases f, f.items@.len() - i,
    via items_links_decreases
{
    if i < 0 || i >= f.items@.len() {
        Some(Seq::empty())
    } else {
        let pos = f.items@[i].0;
        let rest = items_links(f, i + 1, base, res);
        match f.items@[i].1 {
            FrameItem::Group(t, g) => {
                match offset(base, pos) {
                    Some(at) => match apply(at, t) {
                        Some(origin) => match frame_links(g, origin, res) {
                            Some(inner) => prepend(inner, rest),
                            None => None,
                        },
                        None => None,
                    },
                    None => None,
                }
            },
            FrameItem::Link(Destination::Url(u), size) => match offset(base, pos) {
                Some(at) => match describe(at, size, res, u@) {
                    Some(d) => prepend(seq![d], rest),
                    None => None,
                },
                None => None,
            },
            _ => rest,
        }
    }
}

fn div_unit(a: i128) -> (r: i128)
    ensures
        r as int == a as int / (UNIT as int),
{
    if a >= 0 {
        a / 65536
    } else {
        let n: i128 = -(a + 1);
        let q: i128 = n / 65536;
        proof {
            let ai = a as int;
            let qi = q as int;
            assert(qi == (-ai - 1) / 65536);
            assert((-qi - 1) == ai / 65536) by (nonlinear_arith)
                requires
                    ai < 0,
                    qi == (-ai - 1) / 65536,
            ;
        }
        -q - 1
    }
}

fn narrow(v: i128) -> (r: Option<i64>)
    ensures
        match r {
            Some(x) => fit(v as int) == Some(x as int),
            None => fit(v as int) is None,
        },
{
    if v >= i64::MIN as i128 && v <= i64::MAX as i128 {
        Some(v as i64)
    } else {
        None
    }
}

fn offset_exec(a: Point, b: Point) -> (r: Option<Point>)
    ensures
        match r {
            Some(p) => offset((a.x as int, a.y as int), b) == Some((p.x as int, p.y as int)),
            None => offset((a.x as int, a.y as int), b) is None,
        },
{
    let x = narrow(a.x as i128 + b.x as i128);
    let y = narrow(a.y as i128 + b.y as i128);
    match (x, y) {
        (Some(x), Some(y)) => Some(Point { x, y }),
        _ => None,
    }
}

fn combine(a: i64, f: i32, b: i64, g: i32, shift: i64) -> (r: Option<i64>)
    ensures
        match r {
            Some(v) => fit((a * f + b * g) / (UNIT as int) + shift) == Some(v as int),
            None => fit((a * f + b * g) / (UNIT as int) + shift) is None,
        },
{
    proof {
        let (ai, fi, bi, gi) = (a as int, f as int, b as int, g as int);
        assert(-0x8000_0000_0000_0000_0000_0000 <= ai * fi <= 0x8000_0000_0000_0000_0000_0000)
            by (nonlinear_arith)
            requires
                -0x8000_0000_0000_0000 <= ai <= 0x8000_0000_0000_0000,
                -0x8000_0000 <= fi <= 0x8000_0000,
        ;
        assert(-0x8000_0000_0000_0000_0000_0000 <= bi * gi <= 0x8000_0000_0000_0000_0000_0000)
            by (nonlinear_arith)
            requires
                -0x8000_0000_0000_0000 <= bi <= 0x8000_0000_0000_0000,
                -0x8000_0000 <= gi <= 0x8000_0000,
        ;
    }
    let sum: i128 = a as i128 * f as i128 + b as i128 * g as i128;
    let q = div_unit(sum);
    proof {
        assert(-0x8000_0000_0000_0000_0000_0000 <= q as int <= 0x8000_0000_0000_0000_0000_0000);
    }
    narrow(q + shift as i128)
}

fn apply_exec(p: Point, t: Transform) -> (r: Option<Point>)
    ensures
        match r {
            Some(q) => apply((p.x as int, p.y as int), t) == Some((q.x as int, q.y as int)),
            None => apply((p.x as int, p.y as int), t) is None,
        },
{
    let x = combine(p.x, t.sx, p.y, t.kx, t.tx);
    let y = combine(p.x, t.ky, p.y, t.sy, t.ty);
    match (x, y) {
        (Some(x), Some(y)) => Some(Point { x, y }),
        _ => None,
    }
}

fn scale_exec(v: i64, res: i64) -> (r: Option<i64>)
    ensures
        match r {
            Some(s) => scaled(v as int, res as int) == Some(s as int),
            None => scaled(v as int, res as int) is None,
        },
{
    proof {
        let (vi, ri) = (v as int, res as int);
        assert(-0x4000_0000_0000_0000_0000_0000_0000_0000 <= vi * ri <= 0x4000_0000_0000_0000_0000_0000_0000_0000)
            by (nonlinear_arith)
            requires
                -0x8000_0000_0000_0000 <= vi <= 0x8000_0000_0000_0000,
                -0x8000_0000_0000_0000 <= ri <= 0x8000_0000_0000_0000,
        ;
    }
    narrow(div_unit(v as i128 * res as i128))
}

fn describe_exec(at: Point, size: Point, res: i64, url: &String) -> (r: Option<LinkDesc>)
    ensures
        match r {
            Some(d) => describe((at.x as int, at.y as int), size, res as int, url@) == Some(d@),
            None => describe((at.x as int, at.y as int), size, res as int, url@) is None,
        },
{
    match (scale_exec(at.x, res), scale_exec(at.y, res), scale_exec(size.x, res), scale_exec(size.y, res)) {
        (Some(x), Some(y), Some(w), Some(h)) => Some(LinkDesc::new(x, y, w, h, url.clone())),
        _ => None,
    }
}

/// Appends the links of `frame`, whose origin lies at `base`, to `links` in
/// visual order, and says whether every number fitted.
pub fn enumerate_links(frame: &Frame, base: Point, res: i64, links: &mut Vec<LinkDesc>) -> (ok: bool)
    ensures
        final(links)@.len() >= old(links)@.len(),
        final(links)@.subrange(0, old(links)@.len() as int) == old(links)@,
        ok == frame_links(*frame, (base.x as int, base.y as int), res as int) is Some,
        ok ==> link_views(final(links)@) == link_views(old(links)@) + frame_links(
            *frame,
            (base.x as int, base.y as int),
            res as int,
        )->Some_0,
    decreases frame,
{
    let ghost b = (base.x as int, base.y as int);
    let ghost start = links@;
    let ghost mut acc: Seq<LinkView> = Seq::empty();
    let mut i: usize = 0;
    assert(link_views(links@) =~= link_views(start) + acc);
    while i < frame.items.len()
        invariant
            i <= frame.items.len(),
            b == (base.x as int, base.y as int),
            link_views(links@) == link_views(start) + acc,
            links@.len() >= start.len(),
            links@.subrange(0, start.len() as int) == start,
            start == old(links)@,
            items_links(*frame, 0, b, res as int) == prepend(acc, items_links(*frame, i as int, b, res as int)),
        decreases frame.items.len() - i,
    {
        let pos = frame.items[i].0;
        let ghost before = links@;
        match &frame.items[i].1 {
            FrameItem::Group(t, g) => {
                let at = match offset_exec(base, pos) {
                    Some(p) => p,
                    None => {
                        return false;
                    },
                };
                let origin = match apply_exec(at, *t) {
                    Some(p) => p,
                    None => {
                        return false;
                    },
                };
                proof {
                    vstd::std_specs::vec::axiom_vec_index_decreases(frame.items, i as int);
                }
                let ok = enumerate_links(g, origin, res, links);
                proof {
                    assert(links@.subrange(0, start.len() as int) =~= links@.subrange(0, before.len() as int).subrange(0, start.len() as int));
                }
                if !ok {
                    return false;
                }
                proof {
                    let inner = frame_links(*g, (origin.x as int, origin.y as int), res as int)->Some_0;
                    assert(link_views(links@) == link_views(before) + inner);
                    assert(acc + (inner + items_links(*frame, i + 1, b, res as int)->Some_0)
                        =~= (acc + inner) + items_links(*frame, i + 1, b, res as int)->Some_0);
                    acc = acc + inner;
                    assert(link_views(links@) =~= link_views(start) + acc);
                }
            },
            FrameItem::Link(Destination::Url(u), size) => {
                let at = match offset_exec(base, pos) {
                    Some(p) => p,
                    None => {
                        return false;
                    },
                };
                let d = match describe_exec(at, *size, res, u) {
                    Some(d) => d,
                    None => {
                        return false;
                    },
                };
                let ghost dv = d@;
                links.push(d);
                proof {
                    assert(links@ == before.push(d));
                    assert(links@.subrange(0, start.len() as int) =~= before.subrange(0, start.len() as int));
                    assert(link_views(links@) =~= link_views(before) + seq![dv]);
                    assert(acc + (seq![dv] + items_links(*frame, i + 1, b, res as int)->Some_0)
                        =~= (acc + seq![dv]) + items_links(*frame, i + 1, b, res as int)->Some_0);
                    acc = acc + seq![dv];
                    assert(link_views(links@) =~= link_views(start) + acc);
                }
            },
            _ => {},
        }
        i += 1;
    }
    assert(acc + Seq::<LinkView>::empty() =~= acc);
    true
}

/// The links of a page at resolution `res`, or nothing where a number
/// overflows.
pub fn page_links(frame: &Frame, res: i64) -> (r: Option<Vec<LinkDesc>>)
    ensures
        match r {
            Some(v) => frame_links(*frame, (0, 0), res as int) == Some(link_views(v@)),
            None => frame_links(*frame, (0, 0), res as int) is None,
        },
{
    let mut links: Vec<LinkDesc> = Vec::new();
    if enumerate_links(frame, Point { x: 0, y: 0 }, res, &mut links) {
        assert(link_views(Seq::<LinkDesc>::empty()) =~= Seq::<LinkView>::empty());
        assert(Seq::<LinkView>::empty() + frame_links(*frame, (0, 0), res as int)->Some_0
            =~= frame_links(*frame, (0, 0), res as int)->Some_0);
        Some(links)
    } else {
        None
    }
}

proof fn lemma_unit_factor(a: int)
    ensures
        (a * (UNIT as int) + 0 * 0) / (UNIT as int) == a,
        (0 * 0 + a * (UNIT as int)) / (UNIT as int) == a,
{
    assert((a * 65536) / 65536 == a) by (nonlinear_arith);
}

/// A URL link placed directly on the page is reported at its position and with
/// its size, both multiplied by the resolution.
pub proof fn lemma_link_scaled(f: Frame, res: int, pos: Point, size: Point, url: String)
    requires
        f.items@ == seq![(pos, FrameItem::Link(Destination::Url(url), size))],
        describe((pos.x as int, pos.y as int), size, res, url@) is Some,
    ensures
        frame_links(f, (0, 0), res) == Some(seq![(
            pos.x * res / (UNIT as int),
            pos.y * res / (UNIT as int),
            size.x * res / (UNIT as int),
            size.y * res / (UNIT as int),
            url@,
        )]),
{
    assert(items_links(f, 1, (0, 0), res) == Some(Seq::<LinkView>::empty()));
    let d = describe((pos.x as int, pos.y as int), size, res, url@)->Some_0;
    assert(seq![d] + Seq::<LinkView>::empty() =~= seq![d]);
}

/// A link inside a group that is translated by `(tx, ty)` lies at the group's
/// position plus the translation plus its own position, and is then scaled.
pub proof fn lemma_translated_group(
    f: Frame,
    g: Frame,
    res: int,
    at: Point,
    t: Transform,
    pos: Point,
    size: Point,
    url: String,
)
    requires
        t.sx == UNIT && t.sy == UNIT && t.kx == 0 && t.ky == 0,
        f.items@ == seq![(at, FrameItem::Group(t, g))],
        g.items@ == seq![(pos, FrameItem::Link(Destination::Url(url), size))],
        fit(at.x + t.tx) is Some,
        fit(at.y + t.ty) is Some,
        fit(at.x + t.tx + pos.x) is Some,
        fit(at.y + t.ty + pos.y) is Some,
        describe((at.x + t.tx + pos.x, at.y + t.ty + pos.y), size, res, url@) is Some,
    ensures
        frame_links(f, (0, 0), res) == Some(seq![(
            (at.x + t.tx + pos.x) * res / (UNIT as int),
            (at.y + t.ty + pos.y) * res / (UNIT as int),
            size.x * res / (UNIT as int),
            size.y * res / (UNIT as int),
            url@,
        )]),
{
    lemma_unit_factor(at.x as int);
    lemma_unit_factor(at.y as int);
    let origin = (at.x + t.tx, at.y + t.ty);
    assert(offset((0, 0), at) == Some((at.x as int, at.y as int)));
    assert(apply((at.x as int, at.y as int), t) == Some(origin));
    let d = describe((at.x + t.tx + pos.x, at.y + t.ty + pos.y), size, res, url@)->Some_0;
    assert(items_links(g, 1, origin, res) == Some(Seq::<LinkView>::empty()));
    assert(seq![d] + Seq::<LinkView>::empty() =~= seq![d]);
    assert(frame_links(g, origin, res) == Some(seq![d]));
    assert(items_links(f, 1, (0, 0), res) == Some(Seq::<LinkView>::empty()));
}

#[via_fn]
proof fn items_links_decreases(f: Frame, i: int, base: (int, int), res: int) {
    if 0 <= i < f.items@.len() {
        if let FrameItem::Group(t, g) = f.items@[i].1 {
            vstd::std_specs::vec::axiom_vec_index_decreases(f.items, i);
            assert(decreases_to!(f => g));
        }
    }
}

} // verus!
