use rasterizer::clip::{clip_against_plane, emit_split_one, emit_split_two, PlaneClip, Tri};

fn tri() -> Tri<u32> {
    Tri { a: 10, b: 20, c: 30 }
}

#[test]
fn all_inside_keeps_the_triangle_unchanged() {
    // A triangle inside the plane at every vertex comes back as exactly
    // one triangle equal to the input.
    let r = clip_against_plane(tri(), true, true, true);
    assert_eq!(r, PlaneClip::Kept(tri()));
}

#[test]
fn all_outside_drops_the_triangle() {
    let r = clip_against_plane(tri(), false, false, false);
    assert_eq!(r, PlaneClip::Dropped);
}

#[test]
fn one_inside_rotates_the_inside_vertex_to_the_front() {
    assert_eq!(
        clip_against_plane(tri(), true, false, false),
        PlaneClip::SplitOne { a: 10, b: 20, c: 30 }
    );
    assert_eq!(
        clip_against_plane(tri(), false, true, false),
        PlaneClip::SplitOne { a: 20, b: 30, c: 10 }
    );
    assert_eq!(
        clip_against_plane(tri(), false, false, true),
        PlaneClip::SplitOne { a: 30, b: 10, c: 20 }
    );
}

#[test]
fn two_inside_rotates_the_outside_vertex_to_the_front() {
    assert_eq!(
        clip_against_plane(tri(), false, true, true),
        PlaneClip::SplitTwo { a: 10, b: 20, c: 30 }
    );
    assert_eq!(
        clip_against_plane(tri(), true, false, true),
        PlaneClip::SplitTwo { a: 20, b: 30, c: 10 }
    );
    assert_eq!(
        clip_against_plane(tri(), true, true, false),
        PlaneClip::SplitTwo { a: 30, b: 10, c: 20 }
    );
}

#[test]
fn split_one_emits_one_triangle_over_the_crossings() {
    let out = emit_split_one(10u32, 777, 888);
    assert_eq!(out, Tri { a: 888, b: 10, c: 777 });
}

#[test]
fn split_two_emits_two_triangles_covering_the_quad() {
    let (t1, t2) = emit_split_two(20u32, 30, 777, 888);
    assert_eq!(t1, Tri { a: 888, b: 20, c: 777 });
    assert_eq!(t2, Tri { a: 888, b: 20, c: 30 });
}

#[test]
fn straddling_yields_one_or_two_triangles() {
    // Mixed flag patterns produce a split, never a keep or a drop.
    for (fa, fb, fc) in [
        (true, false, false),
        (false, true, false),
        (false, false, true),
        (false, true, true),
        (true, false, true),
        (true, true, false),
    ] {
        let r = clip_against_plane(tri(), fa, fb, fc);
        let count = match r {
            PlaneClip::SplitOne { .. } => 1,
            PlaneClip::SplitTwo { .. } => 2,
            _ => panic!("straddling triangle was kept whole or dropped"),
        };
        assert!(count == 1 || count == 2);
    }
}

#[test]
fn triangle_behind_near_plane_is_fully_removed() {
    // A triangle whose clip-space vertices all have z <= -w lies behind
    // the near plane (0, 0, 1, 1): every dot product is non-positive
    // and strictly negative here, so every inside flag is false and
    // clipping leaves nothing for the rasterizer.
    let verts: [[f32; 4]; 3] = [
        [0.0, 0.0, -2.0, 1.0],
        [1.0, 0.0, -3.0, 1.0],
        [0.0, 1.0, -2.5, 1.0],
    ];
    let flags: Vec<bool> = verts
        .iter()
        .map(|v| {
            let dot = v[2] + v[3]; // dot with the near plane (0,0,1,1)
            dot.is_sign_positive()
        })
        .collect();
    assert_eq!(flags, vec![false, false, false]);
    let t = Tri { a: 0usize, b: 1, c: 2 };
    let r = clip_against_plane(t, flags[0], flags[1], flags[2]);
    assert_eq!(r, PlaneClip::Dropped);
}
