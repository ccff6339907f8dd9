use softrender::SCALE;
use softrender::hitbox::{aabb_of_vertices, check_aabb_collision, AABB};
use softrender::light::{apply_light, vec3_dot, vec3_normalize};
use softrender::model::{FaceVertex, MaterialTable, Model, Vec3};
use softrender::particles::{partikel_lode, rander_partikel, Particle};
use softrender::raster::draw_filled_polygon;
use softrender::render::{inverse_transform, project, reader, CamRot, Rot};
use softrender::rgb;

fn identity_rot() -> Rot {
    Rot { sin: 0, cos: SCALE }
}

#[test]
fn rgb_packs_channels_with_full_alpha() {
    assert_eq!(rgb(255, 0, 255), 0xFFFF00FF);
    assert_eq!(rgb(200, 100, 50), 0xFFC86432);
    assert_eq!(rgb(0, 0, 0), 0xFF000000);
}

#[test]
fn projector_returns_sentinel_at_or_behind_near_threshold() {
    // depth exactly at the threshold (0.0001), at zero, and behind the camera
    for z in [1i64, 0, -1, -50000] {
        let p = project(Vec3 { x: 12345, y: -9999, z }, 640, 360, 150000);
        assert_eq!(p, (2000, 2000));
    }
}

#[test]
fn projector_maps_points_in_front_of_the_camera() {
    let p = project(Vec3 { x: 123, y: 456, z: 2 }, 640, 360, 150000);
    assert_ne!(p, (2000, 2000));
    // t = 123 * 10^8 / 300000 = 41000; px = 41000 * 6 * 360 / 10^4 + 320
    assert_eq!(p.0, 8856 + 320);
}

#[test]
fn shading_with_aligned_light_keeps_the_base_color() {
    let base = rgb(200, 100, 50);
    let n = Vec3 { x: 0, y: 0, z: SCALE };
    let l = Vec3 { x: 0, y: 0, z: SCALE };
    assert_eq!(apply_light(base, n, l, 0), rgb(200, 100, 50));
}

#[test]
fn shading_with_opposed_light_leaves_only_ambient() {
    let base = rgb(200, 100, 50);
    let n = Vec3 { x: 0, y: 0, z: SCALE };
    let l = Vec3 { x: 0, y: 0, z: -SCALE };
    // ambient 0.2: every channel scales by a fifth
    assert_eq!(apply_light(base, n, l, 2000), rgb(40, 20, 10));
}

#[test]
fn normalize_scales_a_three_four_vector() {
    let v = vec3_normalize(Vec3 { x: 3000, y: 4000, z: 0 });
    assert_eq!(v, Vec3 { x: 6000, y: 8000, z: 0 });
}

#[test]
fn dot_of_unit_vectors_is_one_unit() {
    let x = Vec3 { x: SCALE, y: 0, z: 0 };
    assert_eq!(vec3_dot(x, x), SCALE);
    let y = Vec3 { x: 0, y: SCALE, z: 0 };
    assert_eq!(vec3_dot(x, y), 0);
    let nx = Vec3 { x: -SCALE, y: 0, z: 0 };
    assert_eq!(vec3_dot(x, nx), -SCALE);
}

#[test]
fn inverse_transform_subtracts_camera_position() {
    let rot = CamRot { x: identity_rot(), y: identity_rot(), z: identity_rot() };
    let v = Vec3 { x: 30000, y: -20000, z: 10000 };
    let pos = Vec3 { x: 10000, y: 10000, z: 10000 };
    let r = inverse_transform(v, &rot, pos);
    assert_eq!(r, Vec3 { x: 20000, y: -30000, z: 0 });
}

#[test]
fn inverse_transform_undoes_a_quarter_yaw() {
    // a point one unit along +X, camera yawed 90 degrees
    let rot = CamRot {
        x: identity_rot(),
        y: Rot { sin: SCALE, cos: 0 },
        z: identity_rot(),
    };
    let v = Vec3 { x: SCALE, y: 0, z: 0 };
    let pos = Vec3 { x: 0, y: 0, z: 0 };
    let r = inverse_transform(v, &rot, pos);
    assert_eq!(r, Vec3 { x: 0, y: 0, z: -SCALE });
}

#[test]
fn triangle_fill_writes_average_depth_inside_spans_only() {
    let w = 800usize;
    let h = 600usize;
    let mut buffer = vec![0u32; w * h];
    let mut zbuffer = vec![i64::MAX; w * h];
    let points = vec![(10i64, 10i64), (20, 10), (15, 20)];
    let depths = vec![50000i64, 50000, 50000];
    draw_filled_polygon(&points, &depths, &mut buffer, &mut zbuffer, w, h, 0xFF0000FF);
    // row 15 spans columns 13..=18
    for x in 13..=18usize {
        assert_eq!(zbuffer[15 * w + x], 50000, "column {x}");
        assert_eq!(buffer[15 * w + x], 0xFF0000FF, "column {x}");
    }
    assert_eq!(zbuffer[15 * w + 12], i64::MAX);
    assert_eq!(zbuffer[15 * w + 19], i64::MAX);
    // the top row spans the full base
    for x in 10..=20usize {
        assert_eq!(zbuffer[10 * w + x], 50000, "column {x}");
    }
    assert_eq!(zbuffer[10 * w + 9], i64::MAX);
    assert_eq!(zbuffer[10 * w + 21], i64::MAX);
    // the apex row and rows outside stay untouched
    for x in 0..w {
        assert_eq!(zbuffer[20 * w + x], i64::MAX);
        assert_eq!(zbuffer[9 * w + x], i64::MAX);
        assert_eq!(zbuffer[21 * w + x], i64::MAX);
    }
}

#[test]
fn filling_twice_equals_filling_once() {
    let w = 64usize;
    let h = 64usize;
    let mut buffer = vec![0u32; w * h];
    let mut zbuffer = vec![i64::MAX; w * h];
    let points = vec![(5i64, 5i64), (30, 8), (18, 25)];
    let depths = vec![40000i64, 42000, 44000];
    draw_filled_polygon(&points, &depths, &mut buffer, &mut zbuffer, w, h, 0xFF336699);
    let buffer_once = buffer.clone();
    let zbuffer_once = zbuffer.clone();
    draw_filled_polygon(&points, &depths, &mut buffer, &mut zbuffer, w, h, 0xFF336699);
    assert_eq!(buffer, buffer_once);
    assert_eq!(zbuffer, zbuffer_once);
}

#[test]
fn degenerate_polygon_draws_nothing() {
    let w = 16usize;
    let h = 16usize;
    let mut buffer = vec![7u32; w * h];
    let mut zbuffer = vec![i64::MAX; w * h];
    let points = vec![(3i64, 3i64), (8, 8)];
    let depths = vec![1000i64, 1000];
    draw_filled_polygon(&points, &depths, &mut buffer, &mut zbuffer, w, h, 0xFFFFFFFF);
    assert!(buffer.iter().all(|&c| c == 7));
    assert!(zbuffer.iter().all(|&z| z == i64::MAX));
}

#[test]
fn offscreen_polygon_writes_nothing() {
    let w = 32usize;
    let h = 32usize;
    let mut buffer = vec![1u32; w * h];
    let mut zbuffer = vec![i64::MAX; w * h];
    // entirely above the viewport
    let points = vec![(5i64, -30i64), (20, -20), (10, -5)];
    let depths = vec![100i64, 100, 100];
    draw_filled_polygon(&points, &depths, &mut buffer, &mut zbuffer, w, h, 0xFFABCDEF);
    assert!(zbuffer.iter().all(|&z| z == i64::MAX));
    // entirely right of the viewport
    let points = vec![(40i64, 3i64), (60, 5), (50, 28)];
    draw_filled_polygon(&points, &depths, &mut buffer, &mut zbuffer, w, h, 0xFFABCDEF);
    assert!(zbuffer.iter().all(|&z| z == i64::MAX));
    assert!(buffer.iter().all(|&c| c == 1));
}

#[test]
fn depth_buffer_only_tightens() {
    let w = 32usize;
    let h = 32usize;
    let mut buffer = vec![0u32; w * h];
    let mut zbuffer = vec![60000i64; w * h];
    let points = vec![(0i64, 0i64), (31, 0), (15, 31)];
    // a farther polygon: its average loses the depth test everywhere
    let depths = vec![70000i64, 70000, 70000];
    draw_filled_polygon(&points, &depths, &mut buffer, &mut zbuffer, w, h, 0xFF111111);
    assert!(zbuffer.iter().all(|&z| z == 60000));
    assert!(buffer.iter().all(|&c| c == 0));
    // a closer polygon wins
    let depths = vec![20000i64, 20000, 20000];
    draw_filled_polygon(&points, &depths, &mut buffer, &mut zbuffer, w, h, 0xFF222222);
    assert!(zbuffer.iter().all(|&z| z <= 60000));
    assert_eq!(zbuffer[5 * w + 15], 20000);
}

#[test]
fn material_lookup_falls_back_to_magenta() {
    let mut table = MaterialTable::new();
    table.insert("stone".to_string(), (87, 87, 87));
    table.insert("stone".to_string(), (1, 2, 3));
    assert_eq!(table.lookup(&"stone".to_string()), (87, 87, 87));
    assert_eq!(table.lookup(&"missing".to_string()), (255, 0, 255));
}

#[test]
fn bounding_box_is_tight_and_empty_model_has_none() {
    let vs = vec![
        Vec3 { x: 0, y: 0, z: 0 },
        Vec3 { x: 100, y: -50, z: 30 },
        Vec3 { x: -20, y: 10, z: 5 },
    ];
    let b = aabb_of_vertices(&vs).unwrap();
    assert_eq!(b.min, Vec3 { x: -20, y: -50, z: 0 });
    assert_eq!(b.max, Vec3 { x: 100, y: 10, z: 30 });
    assert!(aabb_of_vertices(&vec![]).is_none());
}

#[test]
fn aabb_collision_on_overlap_only() {
    let unit = AABB {
        min: Vec3 { x: 0, y: 0, z: 0 },
        max: Vec3 { x: 10000, y: 10000, z: 10000 },
    };
    assert!(check_aabb_collision(&unit, &unit, (0, 0, 0), (5000, 0, 0)));
    assert!(!check_aabb_collision(&unit, &unit, (0, 0, 0), (20001, 0, 0)));
    // touching faces still count as collision
    assert!(check_aabb_collision(&unit, &unit, (0, 0, 0), (10000, 0, 0)));
}

#[test]
fn spawned_particles_start_at_origin_with_bounded_velocities() {
    let ps = partikel_lode(200, 200000);
    assert_eq!(ps.len(), 200);
    for p in &ps {
        assert_eq!((p.x, p.y, p.z), (0, 0, 0));
        assert_eq!(p.life, 200000);
        assert!(p.dx >= -2500 && p.dx <= 2500);
        assert!(p.dy >= -2500 && p.dy <= 2500);
        assert!(p.dz >= -2500 && p.dz <= 2500);
    }
}

fn still_particle(z: i64, life: i64) -> Particle {
    Particle { x: 0, y: 0, z, dx: 0, dy: 0, dz: 0, life }
}

#[test]
fn too_close_particle_keeps_living_but_draws_nothing() {
    let w = 64usize;
    let h = 64usize;
    let mut buffer = vec![0u32; w * h];
    let mut zbuffer = vec![i64::MAX; w * h];
    // camera-space depth 0.05 after the step, lifetime still positive
    let mut ps = vec![still_particle(500, 10000)];
    rander_partikel(
        &mut ps,
        &mut buffer,
        &mut zbuffer,
        w,
        h,
        Vec3 { x: 0, y: 0, z: 0 },
        (Rot { sin: 0, cos: SCALE }, Rot { sin: 0, cos: SCALE }),
        (SCALE, SCALE, SCALE),
        255,
        100,
        50,
    );
    assert_eq!(ps.len(), 1);
    assert_eq!(ps[0].life, 9500);
    assert!(zbuffer.iter().all(|&z| z == i64::MAX));
    assert!(buffer.iter().all(|&c| c == 0));
}

#[test]
fn particle_expires_after_ceil_life_over_decay_calls() {
    let w = 8usize;
    let h = 8usize;
    let mut buffer = vec![0u32; w * h];
    let mut zbuffer = vec![i64::MAX; w * h];
    // lifetime 0.12, decay 0.05 per call: gone on the third call
    let mut ps = vec![still_particle(500, 1200)];
    let cam = Vec3 { x: 0, y: 0, z: 0 };
    let rot = (Rot { sin: 0, cos: SCALE }, Rot { sin: 0, cos: SCALE });
    for expected_life in [700i64, 200] {
        rander_partikel(
            &mut ps, &mut buffer, &mut zbuffer, w, h, cam, rot, (SCALE, SCALE, SCALE), 255, 255,
            255,
        );
        assert_eq!(ps.len(), 1);
        assert_eq!(ps[0].life, expected_life);
    }
    rander_partikel(
        &mut ps, &mut buffer, &mut zbuffer, w, h, cam, rot, (SCALE, SCALE, SCALE), 255, 255, 255,
    );
    assert_eq!(ps.len(), 0);
}

#[test]
fn visible_particle_paints_a_depth_tested_billboard() {
    let w = 64usize;
    let h = 64usize;
    let mut buffer = vec![0u32; w * h];
    let mut zbuffer = vec![i64::MAX; w * h];
    // straight ahead at depth 2.0, full brightness (life well above 20)
    let mut ps = vec![still_particle(20000, 300000)];
    rander_partikel(
        &mut ps,
        &mut buffer,
        &mut zbuffer,
        w,
        h,
        Vec3 { x: 0, y: 0, z: 0 },
        (Rot { sin: 0, cos: SCALE }, Rot { sin: 0, cos: SCALE }),
        (SCALE, SCALE, SCALE),
        255,
        100,
        50,
    );
    assert_eq!(ps.len(), 1);
    // the billboard center sits mid-screen; its depth is the particle's
    let center = 32 * w + 32;
    assert_eq!(zbuffer[center], 20000);
    assert_eq!(buffer[center], (255 << 16) | (100 << 8) | 50);
    // a far corner stays untouched
    assert_eq!(zbuffer[0], i64::MAX);
}

#[test]
fn model_draw_shades_and_depth_fills_a_triangle() {
    let w = 100usize;
    let h = 100usize;
    let mut buffer = vec![0u32; w * h];
    let mut zbuffer = vec![i64::MAX; w * h];
    let model = Model {
        vertices: vec![
            Vec3 { x: -10000, y: -10000, z: 0 },
            Vec3 { x: 10000, y: -10000, z: 0 },
            Vec3 { x: 0, y: 10000, z: 0 },
        ],
        texcoords: vec![],
        normals: vec![],
        faces: vec![(
            vec![
                FaceVertex { vertex_index: 0, texcoord_index: None, normal_index: None },
                FaceVertex { vertex_index: 1, texcoord_index: None, normal_index: None },
                FaceVertex { vertex_index: 2, texcoord_index: None, normal_index: None },
            ],
            "unknown".to_string(),
        )],
        edges: vec![],
    };
    let table = MaterialTable::new();
    let idrot = CamRot { x: identity_rot(), y: identity_rot(), z: identity_rot() };
    reader(
        &model,
        (Vec3 { x: 0, y: 0, z: -50000 }, idrot),
        Vec3 { x: 0, y: 0, z: 0 },
        100000,
        &mut buffer,
        &mut zbuffer,
        w,
        h,
        &table,
        Vec3 { x: 0, y: 0, z: SCALE },
        0,
    );
    // the triangle's interior takes its average depth (5.0) and the
    // fallback magenta shaded at full intensity
    let center = 50 * w + 50;
    assert_eq!(zbuffer[center], 50000);
    assert_eq!(buffer[center], rgb(255, 0, 255));
    // the viewport corner stays clear
    assert_eq!(zbuffer[0], i64::MAX);
    assert_eq!(buffer[0], 0);
}
