//! Frustum clipping of homogeneous triangles, one half-space plane at a
//! time.
//!
//! A triangle is classified by which of its vertices lie inside the
//! plane (`dot(plane, vertex) >= 0`, a vertex exactly on the plane
//! counting as inside).  The classification and the retriangulation are
//! exact index bookkeeping and are verified here over an arbitrary
//! vertex payload; the caller evaluates the plane dot products and the
//! two edge crossings (an interpolation over the whole vertex record)
//! and hands the results back.
//!
//! Vertices are always rotated cyclically, never swapped, so the
//! winding order of every emitted triangle matches the input's.

use vstd::prelude::*;

verus! {

/// A triangle as an ordered cycle of three vertex payloads.
#[derive(PartialEq, Eq, Debug)]
pub struct Tri<V> {
    pub a: V,
    pub b: V,
    pub c: V,
}

/// The outcome of classifying one triangle against one plane.
///
/// For `SplitOne`, `a` is the single inside vertex and `b`, `c` follow
/// it cyclically; the caller computes the crossings `ab` on edge `a-b`
/// and `ac` on edge `a-c` and finishes with [`emit_split_one`].
///
/// For `SplitTwo`, `a` is the single outside vertex and `b`, `c` are
/// the inside ones following it cyclically; the caller computes the
/// crossings `ab` on edge `a-b` and `ac` on edge `a-c` and finishes
/// with [`emit_split_two`], which covers the remaining quadrilateral
/// with two triangles.
#[derive(PartialEq, Eq, Debug)]
pub enum PlaneClip<V> {
    Kept(Tri<V>),
    Dropped,
    SplitOne { a: V, b: V, c: V },
    SplitTwo { a: V, b: V, c: V },
}

/// What classifying `t` against a plane yields, given for each vertex
/// whether it lies inside that plane.
pub open spec fn plane_clip_spec<V>(t: Tri<V>, fa: bool, fb: bool, fc: bool) -> PlaneClip<V> {
    if fa && fb && fc {
        PlaneClip::Kept(t)
    } else if !fa && !fb && !fc {
        PlaneClip::Dropped
    } else if fa && !fb && !fc {
        PlaneClip::SplitOne { a: t.a, b: t.b, c: t.c }
    } else if !fa && fb && !fc {
        PlaneClip::SplitOne { a: t.b, b: t.c, c: t.a }
    } else if !fa && !fb && fc {
        PlaneClip::SplitOne { a: t.c, b: t.a, c: t.b }
    } else if !fa {
        PlaneClip::SplitTwo { a: t.a, b: t.b, c: t.c }
    } else if !fb {
        PlaneClip::SplitTwo { a: t.b, b: t.c, c: t.a }
    } else {
        PlaneClip::SplitTwo { a: t.c, b: t.a, c: t.b }
    }
}

/// The triangles a classification stands for once the two edge
/// crossings `ab` and `ac` are known (they are ignored for a triangle
/// that is kept whole or dropped).
pub open spec fn emitted<V>(r: PlaneClip<V>, ab: V, ac: V) -> Seq<Tri<V>> {
    match r {
        PlaneClip::Kept(t) => seq![t],
        PlaneClip::Dropped => Seq::empty(),
        PlaneClip::SplitOne { a, b, c } => seq![Tri { a: ac, b: a, c: ab }],
        PlaneClip::SplitTwo { a, b, c } => seq![
            Tri { a: ac, b: b, c: ab },
            Tri { a: ac, b: b, c: c },
        ],
    }
}

/// Classifies one triangle against one plane from the three per-vertex
/// inside flags, rotating the vertices cyclically so that the callers
/// of the split cases know which vertex is the lone inside or outside
/// one.
pub fn clip_against_plane<V>(t: Tri<V>, fa: bool, fb: bool, fc: bool) -> (r: PlaneClip<V>)
    ensures
        r == plane_clip_spec(t, fa, fb, fc),
{
    if fa && fb && fc {
        PlaneClip::Kept(t)
    } else if !fa && !fb && !fc {
        PlaneClip::Dropped
    } else if fa && !fb && !fc {
        PlaneClip::SplitOne { a: t.a, b: t.b, c: t.c }
    } else if !fa && fb && !fc {
        PlaneClip::SplitOne { a: t.b, b: t.c, c: t.a }
    } else if !fa && !fb && fc {
        PlaneClip::SplitOne { a: t.c, b: t.a, c: t.b }
    } else if !fa {
        PlaneClip::SplitTwo { a: t.a, b: t.b, c: t.c }
    } else if !fb {
        PlaneClip::SplitTwo { a: t.b, b: t.c, c: t.a }
    } else {
        PlaneClip::SplitTwo { a: t.c, b: t.a, c: t.b }
    }
}

/// Replaces a triangle with one inside vertex `a` by the clipped
/// triangle `(ac, a, ab)`, where `ab` and `ac` are the crossings of the
/// plane with the edges `a-b` and `a-c`.
pub fn emit_split_one<V>(a: V, ab: V, ac: V) -> (r: Tri<V>)
    ensures
        r == (Tri { a: ac, b: a, c: ab }),
{
    Tri { a: ac, b: a, c: ab }
}

/// Replaces a triangle with one outside vertex `a` by the two triangles
/// `(ac, b, ab)` and `(ac, b, c)` covering the quadrilateral left
/// inside the plane; `b` and `c` are the inside vertices and `ab`, `ac`
/// the crossings of the plane with the edges `a-b` and `a-c`.
pub fn emit_split_two<V: Copy>(b: V, c: V, ab: V, ac: V) -> (r: (Tri<V>, Tri<V>))
    ensures
        r.0 == (Tri { a: ac, b: b, c: ab }),
        r.1 == (Tri { a: ac, b: b, c: c }),
{
    (Tri { a: ac, b, c: ab }, Tri { a: ac, b, c })
}

/// Whether `v` is a vertex of `t` whose inside flag is set.
pub open spec fn is_inside_vertex<V>(t: Tri<V>, fa: bool, fb: bool, fc: bool, v: V) -> bool {
    ||| (fa && v == t.a)
    ||| (fb && v == t.b)
    ||| (fc && v == t.c)
}

/// `t` rotated cyclically `r` places: its vertex order, and so its
/// winding, is preserved.
pub open spec fn rotated<V>(t: Tri<V>, r: int) -> Tri<V> {
    if r == 0 {
        t
    } else if r == 1 {
        Tri { a: t.b, b: t.c, c: t.a }
    } else {
        Tri { a: t.c, b: t.a, c: t.b }
    }
}

/// The inside flags, rotated the same way as [`rotated`] rotates the
/// vertices.
pub open spec fn rotated_flags(fa: bool, fb: bool, fc: bool, r: int) -> (bool, bool, bool) {
    if r == 0 {
        (fa, fb, fc)
    } else if r == 1 {
        (fb, fc, fa)
    } else {
        (fc, fa, fb)
    }
}

/// Classification never swaps vertices, it only rotates them: a split
/// triangle's `(a, b, c)` is a cyclic rotation of the input, chosen so
/// that the lone inside vertex leads a `SplitOne` and the lone outside
/// vertex leads a `SplitTwo`.
pub proof fn lemma_clip_rotates<V>(t: Tri<V>, fa: bool, fb: bool, fc: bool)
    requires
        fa || fb || fc,
        !(fa && fb && fc),
    ensures
        plane_clip_spec(t, fa, fb, fc) matches PlaneClip::SplitOne { a, b, c } ==> exists|r: int|
            0 <= r < 3 && #[trigger] rotated(t, r) == (Tri { a, b, c }) && rotated_flags(
                fa,
                fb,
                fc,
                r,
            ) == (true, false, false),
        plane_clip_spec(t, fa, fb, fc) matches PlaneClip::SplitTwo { a, b, c } ==> exists|r: int|
            0 <= r < 3 && #[trigger] rotated(t, r) == (Tri { a, b, c }) && rotated_flags(
                fa,
                fb,
                fc,
                r,
            ) == (false, true, true),
{
    if fa && !fb && !fc {
        assert(rotated(t, 0) == t);
    } else if !fa && fb && !fc {
        assert(rotated(t, 1) == (Tri { a: t.b, b: t.c, c: t.a }));
    } else if !fa && !fb && fc {
        assert(rotated(t, 2) == (Tri { a: t.c, b: t.a, c: t.b }));
    } else if !fa {
        assert(rotated(t, 0) == t);
    } else if !fb {
        assert(rotated(t, 1) == (Tri { a: t.b, b: t.c, c: t.a }));
    } else {
        assert(rotated(t, 2) == (Tri { a: t.c, b: t.a, c: t.b }));
    }
}

/// A triangle inside the plane at every vertex survives clipping as
/// exactly itself, and one outside at every vertex is removed without
/// replacement.
pub proof fn lemma_clip_whole_triangle<V>(t: Tri<V>, ab: V, ac: V)
    ensures
        emitted(plane_clip_spec(t, true, true, true), ab, ac) == seq![t],
        emitted(plane_clip_spec(t, false, false, false), ab, ac) == Seq::<Tri<V>>::empty(),
{
}

/// A triangle that straddles the plane is replaced by one or two
/// triangles, and every vertex of those is either an inside vertex of
/// the input triangle or one of the two edge crossings.
pub proof fn lemma_clip_straddling<V>(t: Tri<V>, fa: bool, fb: bool, fc: bool, ab: V, ac: V)
    requires
        fa || fb || fc,
        !(fa && fb && fc),
    ensures
        1 <= emitted(plane_clip_spec(t, fa, fb, fc), ab, ac).len() <= 2,
        forall|i: int|
            0 <= i < emitted(plane_clip_spec(t, fa, fb, fc), ab, ac).len() ==> {
                let out = #[trigger] emitted(plane_clip_spec(t, fa, fb, fc), ab, ac)[i];
                &&& (out.a == ab || out.a == ac || is_inside_vertex(t, fa, fb, fc, out.a))
                &&& (out.b == ab || out.b == ac || is_inside_vertex(t, fa, fb, fc, out.b))
                &&& (out.c == ab || out.c == ac || is_inside_vertex(t, fa, fb, fc, out.c))
            },
{
}

} // verus!
