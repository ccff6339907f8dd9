//! The per-model draw call: camera-space transform, perspective projection,
//! flat shading and the scanline fill, one face at a time into shared
//! color and depth buffers.
use vstd::prelude::*;
use crate::fixed::{SCALE, tdiv, div_trunc, clamp_i64, clamp_spec, lemma_tdiv_bound};
use crate::model::{Vec3, vec3_within, Model, MaterialTable, mat_color_of, FaceVertex,
    COORD_LIMIT};
use crate::light::{NORM_LIMIT, len_sq, apply_light, apply_light_spec};
use crate::raster::{SCREEN_LIMIT, raster_buf_after, raster_zbuf_after, draw_filled_polygon};

verus! {

/// Bound on camera-space coordinates after the three-axis transform of a
/// translated point: each rotation stage at most doubles a coordinate.
pub const CAM_LIMIT: i64 = 2_400_000_000;

/// Bound on the scaled view ratio `x / (z * scale)`; larger ratios are far
/// outside any viewport and saturate.
pub const RATIO_LIMIT: i64 = 1_000_000_000;

/// The off-screen sentinel for points at or behind the camera.
pub const OFFSCREEN: i64 = 2000;

/// The projector's near threshold: one fixed-point unit, 0.0001.
pub const NEAR_DEPTH: i64 = 1;

/// One axis of a rotation: the sine and cosine of its angle, as fixed-point
/// values in `[-SCALE, SCALE]`. The surrounding application evaluates the
/// trigonometry; the renderer's arithmetic on these values is exact.
#[derive(Clone, Copy, Debug, PartialEq, Eq, Structural)]
pub struct Rot {
    pub sin: i64,
    pub cos: i64,
}

impl Rot {
    pub open spec fn wf(&self) -> bool {
        -SCALE <= self.sin <= SCALE && -SCALE <= self.cos <= SCALE
    }
}

/// A camera rotation: one angle per axis (pitch, yaw, roll).
#[derive(Clone, Copy, Debug, PartialEq, Eq, Structural)]
pub struct CamRot {
    pub x: Rot,
    pub y: Rot,
    pub z: Rot,
}

impl CamRot {
    pub open spec fn wf(&self) -> bool {
        self.x.wf() && self.y.wf() && self.z.wf()
    }
}

/// One planar rotation step by the angle whose sine and cosine are given,
/// negated: the pair `(a, b)` becomes `(a cos + b sin, -a sin + b cos)`,
/// scaled back down by `SCALE`.
pub open spec fn rot_neg_first(a: int, b: int, r: Rot) -> int {
    tdiv(a * r.cos + b * r.sin, SCALE as int)
}

pub open spec fn rot_neg_second(a: int, b: int, r: Rot) -> int {
    tdiv(b * r.cos - a * r.sin, SCALE as int)
}

/// A world point in camera space: translated by the camera position, then
/// rotated by the negated roll, yaw and pitch angles, in that order.
pub open spec fn camera_space(v: Vec3, rot: CamRot, pos: Vec3) -> (int, int, int) {
    let x0 = v.x - pos.x;
    let y0 = v.y - pos.y;
    let z0 = v.z - pos.z;
    let x1 = rot_neg_first(x0, y0, rot.z);
    let y1 = rot_neg_second(x0, y0, rot.z);
    let x2 = rot_neg_first(x1, z0, rot.y);
    let z2 = rot_neg_second(x1, z0, rot.y);
    let y3 = rot_neg_first(y1, z2, rot.x);
    let z3 = rot_neg_second(y1, z2, rot.x);
    (x2, y3, z3)
}

/// One exact planar rotation step on machine integers.
pub(crate) fn rotate_pair(a: i64, b: i64, r: Rot, Ghost(limit): Ghost<i64>) -> (p: (i64, i64))
    requires
        r.wf(),
        0 < limit <= 50_000_000_000,
        -limit <= a <= limit,
        -limit <= b <= limit,
    ensures
        p.0 == rot_neg_first(a as int, b as int, r),
        p.1 == rot_neg_second(a as int, b as int, r),
        -2 * limit <= p.0 <= 2 * limit,
        -2 * limit <= p.1 <= 2 * limit,
{
    proof {
        assert(-(limit as int) * SCALE <= a * r.cos <= (limit as int) * SCALE && -(limit as int)
            * SCALE <= b * r.sin <= (limit as int) * SCALE && -(limit as int) * SCALE <= b * r.cos
            <= (limit as int) * SCALE && -(limit as int) * SCALE <= a * r.sin <= (limit as int)
            * SCALE) by (nonlinear_arith)
            requires
                -limit <= a <= limit && -limit <= b <= limit && -SCALE <= r.sin <= SCALE && -SCALE
                    <= r.cos <= SCALE && limit > 0,
        ;
        assert((2 * limit as int) * (SCALE as int) == 2 * ((limit as int) * SCALE))
            by (nonlinear_arith);
        lemma_tdiv_bound(a * r.cos + b * r.sin, SCALE as int, 2 * limit as int);
        lemma_tdiv_bound(b * r.cos - a * r.sin, SCALE as int, 2 * limit as int);
    }
    let first = div_trunc(a * r.cos + b * r.sin, SCALE);
    let second = div_trunc(b * r.cos - a * r.sin, SCALE);
    (first, second)
}

/// Transforms a world point into camera space: subtract the camera position,
/// then undo the camera's roll, yaw and pitch, each by its negated angle.
pub fn inverse_transform(v: Vec3, rot: &CamRot, pos: Vec3) -> (r: Vec3)
    requires
        rot.wf(),
        vec3_within(v, 2 * COORD_LIMIT as int),
        vec3_within(pos, COORD_LIMIT as int),
    ensures
        (r.x as int, r.y as int, r.z as int) == camera_space(v, *rot, pos),
        vec3_within(r, CAM_LIMIT as int),
{
    let x0 = v.x - pos.x;
    let y0 = v.y - pos.y;
    let z0 = v.z - pos.z;
    let (x1, y1) = rotate_pair(x0, y0, rot.z, Ghost(300_000_000));
    let (x2, z2) = rotate_pair(x1, z0, rot.y, Ghost(600_000_000));
    let (y3, z3) = rotate_pair(y1, z2, rot.x, Ghost(1_200_000_000));
    Vec3 { x: x2, y: y3, z: z3 }
}

/// The projected column of a camera-space point: the view ratio
/// `x / (z * scale)`, scaled by the viewport and magnification and shifted to
/// the viewport center, saturating far off screen.
pub open spec fn project_x(x: int, z: int, scale: int, w: int, h: int) -> int {
    let t = clamp_spec(
        tdiv(x * (SCALE as int) * (SCALE as int), z * scale),
        -RATIO_LIMIT as int,
        RATIO_LIMIT as int,
    );
    clamp_spec(
        tdiv(t * 6 * h, SCALE as int) + w / 2,
        -SCREEN_LIMIT as int,
        SCREEN_LIMIT as int,
    )
}

/// The projected row, with the Y magnification factor.
pub open spec fn project_y(y: int, z: int, scale: int, w: int, h: int) -> int {
    let t = clamp_spec(
        tdiv(y * (SCALE as int) * (SCALE as int), z * scale),
        -RATIO_LIMIT as int,
        RATIO_LIMIT as int,
    );
    clamp_spec(
        tdiv(tdiv(t * 8 * h, SCALE as int) * h, w) + h / 2,
        -SCREEN_LIMIT as int,
        SCREEN_LIMIT as int,
    )
}

/// Projects a camera-space point to screen coordinates. A point at or behind
/// the near threshold (depth of one fixed-point unit, 0.0001) maps to the
/// off-screen sentinel and never to a viewport coordinate.
pub fn project(v: Vec3, width: usize, height: usize, scale: i64) -> (p: (i64, i64))
    requires
        vec3_within(v, CAM_LIMIT as int),
        1 <= scale <= COORD_LIMIT,
        1 <= width <= 65536,
        1 <= height <= 65536,
    ensures
        v.z <= NEAR_DEPTH ==> p == (OFFSCREEN as i64, OFFSCREEN as i64),
        v.z > NEAR_DEPTH ==> p.0 == project_x(
            v.x as int,
            v.z as int,
            scale as int,
            width as int,
            height as int,
        ) && p.1 == project_y(v.y as int, v.z as int, scale as int, width as int, height as int),
        -SCREEN_LIMIT <= p.0 <= SCREEN_LIMIT,
        -SCREEN_LIMIT <= p.1 <= SCREEN_LIMIT,
{
    if v.z <= NEAR_DEPTH {
        return (OFFSCREEN, OFFSCREEN);
    }
    proof {
        assert(2 <= (v.z as int) * (scale as int) <= 2_400_000_000_000_000_000int
            && -240_000_000_000_000_000int <= (v.x as int) * (SCALE as int) * (SCALE as int)
            <= 240_000_000_000_000_000int && -240_000_000_000_000_000int <= (v.y as int) * (
        SCALE as int) * (SCALE as int) <= 240_000_000_000_000_000int) by (nonlinear_arith)
            requires
                2 <= v.z <= CAM_LIMIT && 1 <= scale <= COORD_LIMIT && -CAM_LIMIT <= v.x
                    <= CAM_LIMIT && -CAM_LIMIT <= v.y <= CAM_LIMIT,
        ;
    }
    let den: i64 = v.z * scale;
    let tx: i64 = clamp_i64(div_trunc(v.x * SCALE * SCALE, den), -RATIO_LIMIT, RATIO_LIMIT);
    let ty: i64 = clamp_i64(div_trunc(v.y * SCALE * SCALE, den), -RATIO_LIMIT, RATIO_LIMIT);
    let h64: i64 = height as i64;
    let w64: i64 = width as i64;
    proof {
        assert(-400_000_000_000_000int <= (tx as int) * 6 * (h64 as int)
            <= 400_000_000_000_000int && -600_000_000_000_000int <= (ty as int) * 8 * (h64 as int)
            <= 600_000_000_000_000int) by (nonlinear_arith)
            requires
                -RATIO_LIMIT <= tx <= RATIO_LIMIT && -RATIO_LIMIT <= ty <= RATIO_LIMIT && 1 <= h64
                    <= 65536,
        ;
        lemma_tdiv_bound((tx as int) * 6 * (h64 as int), SCALE as int, 40_000_000_000int);
        lemma_tdiv_bound((ty as int) * 8 * (h64 as int), SCALE as int, 60_000_000_000int);
    }
    let px_raw: i64 = div_trunc(tx * 6 * h64, SCALE) + w64 / 2;
    let py_mid: i64 = div_trunc(ty * 8 * h64, SCALE);
    proof {
        assert(-3_932_160_000_000_000int <= (py_mid as int) * (h64 as int)
            <= 3_932_160_000_000_000int) by (nonlinear_arith)
            requires
                -60_000_000_000int <= py_mid <= 60_000_000_000int && 1 <= h64 <= 65536,
        ;
        lemma_tdiv_bound((py_mid as int) * (h64 as int), w64 as int, 3_932_160_000_000_000int);
    }
    let py_raw: i64 = div_trunc(py_mid * h64, w64) + h64 / 2;
    let px = clamp_i64(px_raw, -SCREEN_LIMIT, SCREEN_LIMIT);
    let py = clamp_i64(py_raw, -SCREEN_LIMIT, SCREEN_LIMIT);
    (px, py)
}

/// A model vertex moved by the object's placement offset.
pub open spec fn world_point(vertices: Seq<Vec3>, fv: FaceVertex, obj: Vec3) -> Vec3 {
    let v = vertices[fv.vertex_index as int];
    Vec3 { x: (v.x + obj.x) as i64, y: (v.y + obj.y) as i64, z: (v.z + obj.z) as i64 }
}

/// One face corner in camera space.
pub open spec fn corner_camera(
    vertices: Seq<Vec3>,
    fv: FaceVertex,
    obj: Vec3,
    rot: CamRot,
    cam: Vec3,
) -> (int, int, int) {
    camera_space(world_point(vertices, fv, obj), rot, cam)
}

/// The projected screen points of one face, corner by corner.
pub open spec fn face_points(
    vertices: Seq<Vec3>,
    face: Seq<FaceVertex>,
    obj: Vec3,
    rot: CamRot,
    cam: Vec3,
    scale: int,
    w: int,
    h: int,
) -> Seq<(i64, i64)> {
    Seq::new(face.len(), |i: int| {
        let c = corner_camera(vertices, face[i], obj, rot, cam);
        if c.2 <= NEAR_DEPTH as int {
            (OFFSCREEN, OFFSCREEN)
        } else {
            (project_x(c.0, c.2, scale, w, h) as i64, project_y(c.1, c.2, scale, w, h) as i64)
        }
    })
}

/// The camera-space depth of each corner of one face.
pub open spec fn face_depths(
    vertices: Seq<Vec3>,
    face: Seq<FaceVertex>,
    obj: Vec3,
    rot: CamRot,
    cam: Vec3,
) -> Seq<i64> {
    Seq::new(face.len(), |i: int| corner_camera(vertices, face[i], obj, rot, cam).2 as i64)
}

/// The face's normal: the first corner that has one; a face without normal
/// data falls back to the canonical forward normal.
pub open spec fn face_normal(face: Seq<FaceVertex>, normals: Seq<Vec3>) -> Vec3
    decreases face.len(),
{
    if face.len() == 0 {
        Vec3 { x: 0, y: 0, z: SCALE }
    } else if face[0].normal_index is Some {
        normals[face[0].normal_index->0 as int]
    } else {
        face_normal(face.drop_first(), normals)
    }
}

/// The face's packed base color from the material table.
pub open spec fn face_base_color(entries: Seq<(String, (u8, u8, u8))>, name: Seq<char>) -> u32 {
    let c = mat_color_of(entries, name);
    (0xFF00_0000 + c.0 * 0x1_0000 + c.1 * 0x100 + c.2) as u32
}

/// The buffers after drawing the first `k` faces of a model, in face order:
/// each face is transformed, projected, shaded and scanline-filled.
pub open spec fn render_upto(
    vertices: Seq<Vec3>,
    normals: Seq<Vec3>,
    faces: Seq<(Vec<FaceVertex>, String)>,
    k: int,
    obj: Vec3,
    rot: CamRot,
    cam: Vec3,
    scale: int,
    entries: Seq<(String, (u8, u8, u8))>,
    light: Vec3,
    strake: int,
    w: int,
    h: int,
    buf: Seq<u32>,
    zbuf: Seq<i64>,
) -> (Seq<u32>, Seq<i64>)
    decreases k,
{
    if k <= 0 {
        (buf, zbuf)
    } else {
        let prev = render_upto(
            vertices,
            normals,
            faces,
            k - 1,
            obj,
            rot,
            cam,
            scale,
            entries,
            light,
            strake,
            w,
            h,
            buf,
            zbuf,
        );
        let face = faces[k - 1].0@;
        let pts = face_points(vertices, face, obj, rot, cam, scale, w, h);
        let dps = face_depths(vertices, face, obj, rot, cam);
        let color = apply_light_spec(
            face_base_color(entries, faces[k - 1].1@),
            face_normal(face, normals),
            light,
            strake,
        );
        (
            raster_buf_after(prev.0, prev.1, pts, dps, w, color),
            raster_zbuf_after(prev.1, pts, dps, w),
        )
    }
}

/// Draws one model: every face is moved by the object offset, transformed to
/// camera space, projected, flat-shaded from the material table and the
/// light, and filled depth-tested into the shared buffers. The depth buffer
/// never moves away from the viewer.
pub fn reader(
    model: &Model,
    world_pos: (Vec3, CamRot),
    object_pos: Vec3,
    scale: i64,
    buffer: &mut Vec<u32>,
    zbuffer: &mut Vec<i64>,
    width: usize,
    height: usize,
    material_map: &MaterialTable,
    light_dir: Vec3,
    strake: i64,
)
    requires
        model.wf(),
        old(buffer)@.len() == width * height,
        old(zbuffer)@.len() == width * height,
        width * height <= usize::MAX,
        1 <= width <= 65536,
        1 <= height <= 65536,
        vec3_within(world_pos.0, COORD_LIMIT as int),
        world_pos.1.wf(),
        vec3_within(object_pos, COORD_LIMIT as int),
        1 <= scale <= COORD_LIMIT,
        vec3_within(light_dir, NORM_LIMIT as int),
        len_sq(light_dir) > 0,
        0 <= strake <= SCALE,
    ensures
        (final(buffer)@, final(zbuffer)@) == render_upto(
            model.vertices@,
            model.normals@,
            model.faces@,
            model.faces@.len() as int,
            object_pos,
            world_pos.1,
            world_pos.0,
            scale as int,
            material_map.entries@,
            light_dir,
            strake as int,
            width as int,
            height as int,
            old(buffer)@,
            old(zbuffer)@,
        ),
        final(buffer)@.len() == old(buffer)@.len(),
        final(zbuffer)@.len() == old(zbuffer)@.len(),
        forall|j: int| 0 <= j < old(zbuffer)@.len() ==> final(zbuffer)@[j] <= old(zbuffer)@[j],
{
    let cam = world_pos.0;
    let rot = world_pos.1;
    let n = model.faces.len();
    let ghost b0 = buffer@;
    let ghost z0 = zbuffer@;
    let mut f: usize = 0;
    while f < n
        invariant
            model.wf(),
            n == model.faces@.len(),
            f <= n,
            cam == world_pos.0,
            rot == world_pos.1,
            vec3_within(cam, COORD_LIMIT as int),
            rot.wf(),
            vec3_within(object_pos, COORD_LIMIT as int),
            1 <= scale <= COORD_LIMIT,
            vec3_within(light_dir, NORM_LIMIT as int),
            len_sq(light_dir) > 0,
            0 <= strake <= SCALE,
            b0.len() == width * height,
            z0.len() == width * height,
            width * height <= usize::MAX,
            1 <= width <= 65536,
            1 <= height <= 65536,
            buffer@.len() == b0.len(),
            zbuffer@.len() == z0.len(),
            (buffer@, zbuffer@) == render_upto(
                model.vertices@,
                model.normals@,
                model.faces@,
                f as int,
                object_pos,
                rot,
                cam,
                scale as int,
                material_map.entries@,
                light_dir,
                strake as int,
                width as int,
                height as int,
                b0,
                z0,
            ),
            forall|j: int| 0 <= j < z0.len() ==> zbuffer@[j] <= z0[j],
        decreases n - f,
    {
        let face: &Vec<FaceVertex> = &model.faces[f].0;
        let m = face.len();
        let ghost gpts = face_points(
            model.vertices@,
            face@,
            object_pos,
            rot,
            cam,
            scale as int,
            width as int,
            height as int,
        );
        let ghost gdps = face_depths(model.vertices@, face@, object_pos, rot, cam);
        let mut poly_points: Vec<(i64, i64)> = Vec::new();
        let mut depths: Vec<i64> = Vec::new();
        let mut c: usize = 0;
        while c < m
            invariant
                model.wf(),
                0 <= f < model.faces@.len(),
                face@ == model.faces@[f as int].0@,
                m == face@.len(),
                c <= m,
                vec3_within(cam, COORD_LIMIT as int),
                rot.wf(),
                vec3_within(object_pos, COORD_LIMIT as int),
                1 <= scale <= COORD_LIMIT,
                1 <= width <= 65536,
                1 <= height <= 65536,
                gpts == face_points(
                    model.vertices@,
                    face@,
                    object_pos,
                    rot,
                    cam,
                    scale as int,
                    width as int,
                    height as int,
                ),
                gdps == face_depths(model.vertices@, face@, object_pos, rot, cam),
                poly_points@ == gpts.take(c as int),
                depths@ == gdps.take(c as int),
                forall|k: int| 0 <= k < c ==> -CAM_LIMIT <= #[trigger] depths@[k] <= CAM_LIMIT,
                forall|k: int|
                    0 <= k < c ==> -SCREEN_LIMIT <= (#[trigger] poly_points@[k]).0 <= SCREEN_LIMIT
                        && -SCREEN_LIMIT <= poly_points@[k].1 <= SCREEN_LIMIT,
            decreases m - c,
        {
            let fv = &face[c];
            let v = model.vertices[fv.vertex_index];
            let wp = Vec3 { x: v.x + object_pos.x, y: v.y + object_pos.y, z: v.z + object_pos.z };
            let tv = inverse_transform(wp, &rot, cam);
            let pp = project(tv, width, height, scale);
            proof {
                assert(wp == world_point(model.vertices@, face@[c as int], object_pos));
                assert(gdps[c as int] == tv.z);
                assert(gpts[c as int] == pp);
                assert(gpts.take(c as int + 1) =~= gpts.take(c as int).push(gpts[c as int]));
                assert(gdps.take(c as int + 1) =~= gdps.take(c as int).push(gdps[c as int]));
            }
            depths.push(tv.z);
            poly_points.push(pp);
            c = c + 1;
        }
        proof {
            assert(gpts.take(m as int) =~= gpts);
            assert(gdps.take(m as int) =~= gdps);
        }
        // base color from the material table, magenta when missing
        let mat_name: &String = &model.faces[f].1;
        let base_rgb = material_map.lookup(mat_name);
        let base = crate::rgb(base_rgb.0, base_rgb.1, base_rgb.2);
        proof {
            assert(base == face_base_color(material_map.entries@, mat_name@));
        }
        // face normal: the first corner that has one
        let mut normal = Vec3 { x: 0, y: 0, z: SCALE };
        let mut found = false;
        let mut nc: usize = 0;
        proof {
            assert(face@.skip(0) =~= face@);
        }
        while nc < m
            invariant
                model.wf(),
                0 <= f < model.faces@.len(),
                face@ == model.faces@[f as int].0@,
                m == face@.len(),
                nc <= m,
                !found ==> face_normal(face@, model.normals@) == face_normal(
                    face@.skip(nc as int),
                    model.normals@,
                ),
                !found ==> normal == (Vec3 { x: 0, y: 0, z: SCALE }),
                found ==> normal == face_normal(face@, model.normals@),
                vec3_within(normal, NORM_LIMIT as int),
                len_sq(normal) > 0,
            decreases m - nc,
        {
            if !found {
                proof {
                    assert(face@.skip(nc as int)[0] == face@[nc as int]);
                    assert(face@.skip(nc as int).drop_first() =~= face@.skip(nc as int + 1));
                }
                if let Some(ni) = face[nc].normal_index {
                    normal = model.normals[ni];
                    found = true;
                }
            }
            nc = nc + 1;
        }
        proof {
            if !found {
                assert(face@.skip(m as int).len() == 0);
            }
            assert(normal == face_normal(face@, model.normals@));
        }
        let shaded = apply_light(base, normal, light_dir, strake);
        let ghost bmid = buffer@;
        let ghost zmid = zbuffer@;
        draw_filled_polygon(&poly_points, &depths, buffer, zbuffer, width, height, shaded);
        proof {
            assert((buffer@, zbuffer@) == render_upto(
                model.vertices@,
                model.normals@,
                model.faces@,
                f as int + 1,
                object_pos,
                rot,
                cam,
                scale as int,
                material_map.entries@,
                light_dir,
                strake as int,
                width as int,
                height as int,
                b0,
                z0,
            ));
        }
        f = f + 1;
    }
}

} // verus!
