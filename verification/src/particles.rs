//! The particle renderer: advances particle physics in place, culls expired
//! particles, and draws each live one as a depth-tested square billboard
//! whose size shrinks with distance.
use vstd::prelude::*;
use crate::fixed::{SCALE, tdiv, div_trunc, clamp_spec, clamp_i64, lemma_tdiv_bound,
    lemma_pixel_index, lemma_index_of_pixel};
use crate::model::{Vec3, vec3_within, COORD_LIMIT};
use crate::render::{Rot, rot_neg_first, rot_neg_second};

verus! {

/// Particle positions saturate at this world bound.
pub const POS_LIMIT: i64 = 1_000_000_000;

/// Bound on particle velocities.
pub const VEL_LIMIT: i64 = 100_000_000;

/// Bound on particle lifetimes.
pub const LIFE_LIMIT: i64 = 1_000_000_000_000;

/// The per-frame lifetime decay, 0.05.
pub const DECAY: i64 = 500;

/// The additional decay for far-away particles, 0.2.
pub const EXTRA_DECAY: i64 = 2000;

/// The near threshold for drawing a particle, 0.1 in depth.
pub const PART_NEAR: i64 = 1000;

/// The per-axis distance beyond which a particle is not drawn, 100.
pub const PART_FAR_AXIS: i64 = 1_000_000;

/// The squared distance beyond which a particle fades faster, 1000 in
/// squared world units.
pub const PART_FAR_SQ: i64 = 100_000_000_000;

/// The tangent of half the vertical field of view (60 degrees), as a
/// fixed-point constant.
pub const TAN_HALF_FOV: i64 = 5774;

/// The lifetime normalization for the drawn intensity, 20.0.
pub const LIFE_NORM: i64 = 20;

/// A point particle: position, velocity and remaining lifetime.
#[derive(Clone, Copy, Debug, PartialEq, Eq, Structural)]
pub struct Particle {
    pub x: i64,
    pub y: i64,
    pub z: i64,
    pub dx: i64,
    pub dy: i64,
    pub dz: i64,
    pub life: i64,
}

impl Particle {
    /// Bounds under which the renderer's arithmetic cannot overflow.
    pub open spec fn wf(&self) -> bool {
        &&& -POS_LIMIT <= self.x <= POS_LIMIT
        &&& -POS_LIMIT <= self.y <= POS_LIMIT
        &&& -POS_LIMIT <= self.z <= POS_LIMIT
        &&& -VEL_LIMIT <= self.dx <= VEL_LIMIT
        &&& -VEL_LIMIT <= self.dy <= VEL_LIMIT
        &&& -VEL_LIMIT <= self.dz <= VEL_LIMIT
        &&& -LIFE_LIMIT <= self.life <= LIFE_LIMIT
    }
}

/// A velocity-scale divisor, clamped away from zero.
pub open spec fn move_divisor(m: int) -> int {
    if m < 10 {
        10
    } else {
        m
    }
}

/// One integration step: each axis advances by its velocity divided by the
/// clamped scale factor, saturating at the world bound, and the lifetime
/// falls by the fixed decay.
pub open spec fn particle_step(p: Particle, moveing: (i64, i64, i64)) -> Particle {
    Particle {
        x: clamp_spec(
            p.x + tdiv(p.dx * SCALE, move_divisor(moveing.0 as int)),
            -POS_LIMIT as int,
            POS_LIMIT as int,
        ) as i64,
        y: clamp_spec(
            p.y + tdiv(p.dy * SCALE, move_divisor(moveing.1 as int)),
            -POS_LIMIT as int,
            POS_LIMIT as int,
        ) as i64,
        z: clamp_spec(
            p.z + tdiv(p.dz * SCALE, move_divisor(moveing.2 as int)),
            -POS_LIMIT as int,
            POS_LIMIT as int,
        ) as i64,
        dx: p.dx,
        dy: p.dy,
        dz: p.dz,
        life: (p.life - DECAY) as i64,
    }
}

/// The camera-relative view of a stepped particle: offsets from the camera,
/// then the negated yaw and pitch rotations. The result is
/// `(rel_x, rel_y, rel_z, x1, y1, z2)`.
pub open spec fn particle_view(p: Particle, cam: Vec3, yaw: Rot, pitch: Rot) -> (
    int,
    int,
    int,
    int,
    int,
    int,
) {
    let rel_x = p.x - cam.x;
    let rel_y = p.y - cam.y;
    let rel_z = p.z - cam.z;
    let x1 = rot_neg_first(rel_x, rel_z, yaw);
    let z1 = rot_neg_second(rel_x, rel_z, yaw);
    let y1 = rot_neg_first(rel_y, z1, pitch);
    let z2 = rot_neg_second(rel_y, z1, pitch);
    (rel_x, rel_y, rel_z, x1, y1, z2)
}

/// The normalized screen offsets of a viewed particle, scaled by `SCALE`:
/// a tangent-based field of view with aspect correction.
pub open spec fn particle_ndc(x1: int, y1: int, z2: int, w: int, h: int) -> (int, int) {
    let pz = tdiv(z2 * TAN_HALF_FOV, SCALE as int);
    (tdiv(x1 * (SCALE as int) * h, pz * w), tdiv(y1 * SCALE as int, pz))
}

/// Whether a viewed particle is drawn this frame: in front of the near
/// threshold, inside the unit view square, and near enough on every axis.
pub open spec fn particle_drawn(p: Particle, cam: Vec3, yaw: Rot, pitch: Rot, w: int, h: int) -> bool {
    let v = particle_view(p, cam, yaw, pitch);
    let ndc = particle_ndc(v.3, v.4, v.5, w, h);
    &&& v.5 > PART_NEAR
    &&& -SCALE <= ndc.0 <= SCALE
    &&& -SCALE <= ndc.1 <= SCALE
    &&& -PART_FAR_AXIS <= v.0 <= PART_FAR_AXIS
    &&& -PART_FAR_AXIS <= v.1 <= PART_FAR_AXIS
    &&& -PART_FAR_AXIS <= v.2 <= PART_FAR_AXIS
}

/// Whether a viewed particle fades faster this frame: it passed the near and
/// view-square tests and sits far from the camera.
pub open spec fn particle_fades(p: Particle, cam: Vec3, yaw: Rot, pitch: Rot, w: int, h: int) -> bool {
    let v = particle_view(p, cam, yaw, pitch);
    let ndc = particle_ndc(v.3, v.4, v.5, w, h);
    &&& v.5 > PART_NEAR
    &&& -SCALE <= ndc.0 <= SCALE
    &&& -SCALE <= ndc.1 <= SCALE
    &&& (if v.0 > PART_FAR_AXIS || v.0 < -PART_FAR_AXIS || v.1 > PART_FAR_AXIS || v.1
        < -PART_FAR_AXIS || v.2 > PART_FAR_AXIS || v.2 < -PART_FAR_AXIS {
        true
    } else {
        v.0 * v.0 + v.1 * v.1 + v.2 * v.2 > PART_FAR_SQ
    })
}

/// The stepped particle after this frame's extra fade, if one applies.
pub open spec fn particle_after(p: Particle, cam: Vec3, yaw: Rot, pitch: Rot, w: int, h: int) -> Particle {
    if particle_fades(p, cam, yaw, pitch, w, h) {
        Particle { life: (p.life - EXTRA_DECAY) as i64, ..p }
    } else {
        p
    }
}

/// The billboard center of a drawn particle, rounded to pixels.
pub open spec fn particle_center(x1: int, y1: int, z2: int, w: int, h: int) -> (int, int) {
    let ndc = particle_ndc(x1, y1, z2, w, h);
    (
        tdiv((ndc.0 + SCALE) * w + SCALE, 2 * SCALE as int),
        tdiv((SCALE - ndc.1) * h + SCALE, 2 * SCALE as int),
    )
}

/// The half-side of the billboard square, inversely proportional to depth and
/// clamped to `[1, 4]`.
pub open spec fn particle_size(z2: int) -> int {
    clamp_spec(tdiv(5 * SCALE as int, z2), 1, 4)
}

/// The drawn color: each target channel scaled by the remaining lifetime
/// over the normalization constant, clamped to one.
pub open spec fn particle_color(r: u32, g: u32, b: u32, life: int) -> u32 {
    let i = clamp_spec(tdiv(life, LIFE_NORM as int), 0, SCALE as int);
    let cr = (r * i / (SCALE as int)) as u32;
    let cg = (g * i / (SCALE as int)) as u32;
    let cb = (b * i / (SCALE as int)) as u32;
    (cr << 16u32) | (cg << 8u32) | cb
}

/// Whether the billboard square of a drawn particle covers buffer cell `j`.
pub open spec fn billboard_covers(p: Particle, cam: Vec3, yaw: Rot, pitch: Rot, w: int, h: int, j: int) -> bool {
    let v = particle_view(p, cam, yaw, pitch);
    let c = particle_center(v.3, v.4, v.5, w, h);
    let ps = particle_size(v.5);
    &&& c.0 - ps <= j % w <= c.0 + ps
    &&& c.1 - ps <= j / w <= c.1 + ps
}

/// The depth buffer after one particle: covered pixels farther than the
/// particle's depth take that depth.
pub open spec fn billboard_zbuf_after(
    zbuf: Seq<i64>,
    p: Particle,
    cam: Vec3,
    yaw: Rot,
    pitch: Rot,
    w: int,
    h: int,
) -> Seq<i64> {
    if !particle_drawn(p, cam, yaw, pitch, w, h) {
        zbuf
    } else {
        let z2 = particle_view(p, cam, yaw, pitch).5;
        Seq::new(zbuf.len(), |j: int| if billboard_covers(p, cam, yaw, pitch, w, h, j)
            && z2 < zbuf[j] {
            z2 as i64
        } else {
            zbuf[j]
        })
    }
}

/// The color buffer after one particle.
pub open spec fn billboard_buf_after(
    buf: Seq<u32>,
    zbuf: Seq<i64>,
    p: Particle,
    cam: Vec3,
    yaw: Rot,
    pitch: Rot,
    w: int,
    h: int,
    r: u32,
    g: u32,
    b: u32,
) -> Seq<u32> {
    if !particle_drawn(p, cam, yaw, pitch, w, h) {
        buf
    } else {
        let z2 = particle_view(p, cam, yaw, pitch).5;
        Seq::new(buf.len(), |j: int| if billboard_covers(p, cam, yaw, pitch, w, h, j) && z2
            < zbuf[j] {
            particle_color(r, g, b, particle_after(p, cam, yaw, pitch, w, h).life as int)
        } else {
            buf[j]
        })
    }
}

/// The advance-and-draw pass over the particles from index `i` on: each is
/// stepped; expired ones drop out; live ones may fade further and draw their
/// billboard, in order, into the shared buffers.
pub open spec fn sim_from(
    ps: Seq<Particle>,
    i: int,
    buf: Seq<u32>,
    zbuf: Seq<i64>,
    cam: Vec3,
    yaw: Rot,
    pitch: Rot,
    moveing: (i64, i64, i64),
    w: int,
    h: int,
    r: u32,
    g: u32,
    b: u32,
) -> (Seq<Particle>, Seq<u32>, Seq<i64>)
    decreases ps.len() - i,
{
    if i < 0 || i >= ps.len() {
        (Seq::empty(), buf, zbuf)
    } else {
        let p1 = particle_step(ps[i], moveing);
        if p1.life <= 0 {
            sim_from(ps, i + 1, buf, zbuf, cam, yaw, pitch, moveing, w, h, r, g, b)
        } else {
            let p2 = particle_after(p1, cam, yaw, pitch, w, h);
            let buf2 = billboard_buf_after(buf, zbuf, p1, cam, yaw, pitch, w, h, r, g, b);
            let zbuf2 = billboard_zbuf_after(zbuf, p1, cam, yaw, pitch, w, h);
            let rest = sim_from(ps, i + 1, buf2, zbuf2, cam, yaw, pitch, moveing, w, h, r, g, b);
            (seq![p2] + rest.0, rest.1, rest.2)
        }
    }
}

/// A stepped particle at or behind the near threshold writes no pixel at
/// all, whatever its screen position, and takes no extra fade this frame.
pub proof fn lemma_near_particle_skipped(
    buf: Seq<u32>,
    zbuf: Seq<i64>,
    p: Particle,
    cam: Vec3,
    yaw: Rot,
    pitch: Rot,
    w: int,
    h: int,
    r: u32,
    g: u32,
    b: u32,
)
    requires
        particle_view(p, cam, yaw, pitch).5 <= PART_NEAR,
    ensures
        billboard_zbuf_after(zbuf, p, cam, yaw, pitch, w, h) == zbuf,
        billboard_buf_after(buf, zbuf, p, cam, yaw, pitch, w, h, r, g, b) == buf,
        particle_after(p, cam, yaw, pitch, w, h) == p,
{
}

/// A particle that starts with lifetime `life > 0` and loses exactly `DECAY`
/// per advance (no extra distance fade) is removed on exactly the
/// `ceil(life / DECAY)`-th call: after any fewer calls its remaining life is
/// still positive, and on that call the step leaves it at or below zero.
pub proof fn lemma_particle_expiry(life: int, k: int)
    requires
        life > 0,
        k == (life + DECAY - 1) / (DECAY as int),
    ensures
        forall|t: int| 0 <= t < k ==> life - #[trigger] (t * DECAY) > 0,
        life - k * DECAY <= 0,
        k >= 1,
{
    let d = DECAY as int;
    vstd::arithmetic::div_mod::lemma_fundamental_div_mod(life + d - 1, d);
    vstd::arithmetic::div_mod::lemma_mod_bound(life + d - 1, d);
    let r = (life + d - 1) % d;
    assert(life + d - 1 == d * k + r);
    assert(life - k * d == 1 + r - d) by (nonlinear_arith)
        requires
            life + d - 1 == d * k + r,
    ;
    assert(k >= 1) by (nonlinear_arith)
        requires
            life + d - 1 == d * k + r && life > 0 && 0 <= r < d && d > 0,
    ;
    assert forall|t: int| 0 <= t < k implies life - #[trigger] (t * DECAY) > 0 by {
        assert(t * d <= (k - 1) * d) by (nonlinear_arith)
            requires
                t <= k - 1 && d > 0,
        ;
        assert(life - (k - 1) * d == 1 + r) by (nonlinear_arith)
            requires
                life - k * d == 1 + r - d,
        ;
    }
}

/// Relies on rand::random for fresh pseudo-random values; nothing can be
/// promised of a random result, so this carries no contract.
pub assume_specification<T>[ rand::random::<T> ]() -> (r: T)
    where
        rand::distributions::Standard: rand::distributions::Distribution<T>,
;

/// Spawns a batch of particles at the origin with the given lifetime and
/// small random velocities (each axis within a quarter unit).
/// Relies on rand::random for the velocities; nothing is assumed of the
/// values beyond their derived range.
pub fn partikel_lode(anzahl: usize, life: i64) -> (ps: Vec<Particle>)
    requires
        0 <= life <= LIFE_LIMIT,
    ensures
        ps@.len() == anzahl,
        forall|i: int|
            0 <= i < anzahl ==> {
                let p = #[trigger] ps@[i];
                &&& p.x == 0 && p.y == 0 && p.z == 0
                &&& -2500 <= p.dx <= 2500
                &&& -2500 <= p.dy <= 2500
                &&& -2500 <= p.dz <= 2500
                &&& p.life == life
                &&& p.wf()
            },
{
    let mut particles: Vec<Particle> = Vec::new();
    let mut i: usize = 0;
    while i < anzahl
        invariant
            i <= anzahl,
            particles@.len() == i,
            0 <= life <= LIFE_LIMIT,
            forall|t: int|
                0 <= t < i ==> {
                    let p = #[trigger] particles@[t];
                    &&& p.x == 0 && p.y == 0 && p.z == 0
                    &&& -2500 <= p.dx <= 2500
                    &&& -2500 <= p.dy <= 2500
                    &&& -2500 <= p.dz <= 2500
                    &&& p.life == life
                    &&& p.wf()
                },
        decreases anzahl - i,
    {
        let rx: u64 = rand::random::<u64>();
        let ry: u64 = rand::random::<u64>();
        let rz: u64 = rand::random::<u64>();
        let dx: i64 = (rx % 5001) as i64 - 2500;
        let dy: i64 = (ry % 5001) as i64 - 2500;
        let dz: i64 = (rz % 5001) as i64 - 2500;
        particles.push(Particle { x: 0, y: 0, z: 0, dx, dy, dz, life });
        i = i + 1;
    }
    particles
}

/// Writes one square billboard into the buffers: every pixel of the square
/// that is in bounds and farther in the depth buffer than `z2` takes the
/// color and depth; everything else is unchanged.
fn draw_billboard(
    buffer: &mut Vec<u32>,
    zbuffer: &mut Vec<i64>,
    width: usize,
    height: usize,
    cx: i64,
    cy: i64,
    ps: i64,
    z2: i64,
    color: u32,
)
    requires
        old(buffer)@.len() == width * height,
        old(zbuffer)@.len() == width * height,
        width * height <= usize::MAX,
        1 <= width <= 4096,
        1 <= height <= 4096,
        0 <= cx <= width as int,
        0 <= cy <= height as int,
        1 <= ps <= 4,
    ensures
        final(buffer)@.len() == old(buffer)@.len(),
        final(zbuffer)@.len() == old(zbuffer)@.len(),
        forall|j: int|
            0 <= j < old(zbuffer)@.len() ==> (if cx - ps <= j % (width as int) <= cx + ps && cy
                - ps <= j / (width as int) <= cy + ps && z2 < old(zbuffer)@[j] {
                final(zbuffer)@[j] == z2 && final(buffer)@[j] == color
            } else {
                final(zbuffer)@[j] == old(zbuffer)@[j] && final(buffer)@[j] == old(buffer)@[j]
            }),
{
    let ghost z0 = zbuffer@;
    let ghost b0 = buffer@;
    let ghost w = width as int;
    let mut sy: i64 = cy - ps;
    while sy <= cy + ps
        invariant
            cy - ps <= sy <= cy + ps + 1,
            0 <= cx <= width as int,
            0 <= cy <= height as int,
            1 <= ps <= 4,
            z0.len() == width * height,
            b0.len() == width * height,
            width * height <= usize::MAX,
            1 <= width <= 4096,
            1 <= height <= 4096,
            w == width as int,
            zbuffer@.len() == z0.len(),
            buffer@.len() == b0.len(),
            forall|j: int|
                0 <= j < z0.len() ==> (if cx - ps <= j % w <= cx + ps && cy - ps <= j / w < sy
                    && z2 < z0[j] {
                    zbuffer@[j] == z2 && buffer@[j] == color
                } else {
                    zbuffer@[j] == z0[j] && buffer@[j] == b0[j]
                }),
        decreases cy + ps + 1 - sy,
    {
        let mut sx: i64 = cx - ps;
        while sx <= cx + ps
            invariant
                cx - ps <= sx <= cx + ps + 1,
                cy - ps <= sy <= cy + ps,
                0 <= cx <= width as int,
                0 <= cy <= height as int,
                1 <= ps <= 4,
                z0.len() == width * height,
                b0.len() == width * height,
                width * height <= usize::MAX,
                1 <= width <= 4096,
                1 <= height <= 4096,
                w == width as int,
                zbuffer@.len() == z0.len(),
                buffer@.len() == b0.len(),
                forall|j: int|
                    0 <= j < z0.len() ==> (if cx - ps <= j % w <= cx + ps && z2 < z0[j] && (j / w
                        < sy || (j / w == sy && j % w < sx)) && cy - ps <= j / w {
                        zbuffer@[j] == z2 && buffer@[j] == color
                    } else {
                        zbuffer@[j] == z0[j] && buffer@[j] == b0[j]
                    }),
            decreases cx + ps + 1 - sx,
        {
            let ghost zprev = zbuffer@;
            let ghost bprev = buffer@;
            if sx >= 0 && sx < width as i64 && sy >= 0 && sy < height as i64 {
                proof {
                    lemma_index_of_pixel(sx as int, sy as int, w, height as int);
                }
                let idx: usize = (sy as usize) * width + (sx as usize);
                if z2 < zbuffer[idx] {
                    zbuffer.set(idx, z2);
                    buffer.set(idx, color);
                }
            }
            proof {
                assert forall|j: int| 0 <= j < z0.len() implies (if cx - ps <= j % w <= cx + ps
                    && z2 < z0[j] && (j / w < sy || (j / w == sy && j % w < sx + 1)) && cy - ps <= j
                    / w {
                    zbuffer@[j] == z2 && buffer@[j] == color
                } else {
                    zbuffer@[j] == z0[j] && buffer@[j] == b0[j]
                }) by {
                    lemma_pixel_index(j, w, height as int);
                    if j / w == sy && j % w == sx {
                        assert(j == sy * w + sx);
                        if 0 <= sx < width as i64 && 0 <= sy < height as i64 {
                        } else {
                            assert(false);
                        }
                    } else {
                        assert(zbuffer@[j] == zprev[j] && buffer@[j] == bprev[j]);
                    }
                }
            }
            sx = sx + 1;
        }
        sy = sy + 1;
    }
}

/// Advances every particle one frame and draws the live ones as billboards:
/// positions integrate by velocity over the clamped scale factors, lifetimes
/// fall by the fixed decay, expired particles leave the collection in place,
/// and each live particle in front of the camera and inside the view square
/// paints a depth-tested square whose brightness follows its remaining life.
/// The depth buffer never moves away from the viewer.
pub fn rander_partikel(
    particles: &mut Vec<Particle>,
    buffer: &mut Vec<u32>,
    zbuffer: &mut Vec<i64>,
    width: usize,
    height: usize,
    player_pos: Vec3,
    player_rot: (Rot, Rot),
    moveing: (i64, i64, i64),
    r: u32,
    g: u32,
    b: u32,
)
    requires
        old(buffer)@.len() == width * height,
        old(zbuffer)@.len() == width * height,
        width * height <= usize::MAX,
        1 <= width <= 4096,
        1 <= height <= 4096,
        vec3_within(player_pos, COORD_LIMIT as int),
        player_rot.0.wf(),
        player_rot.1.wf(),
        forall|i: int| 0 <= i < old(particles)@.len() ==> (#[trigger] old(particles)@[i]).wf(),
        r <= 255,
        g <= 255,
        b <= 255,
    ensures
        ({
            let s = sim_from(
                old(particles)@,
                0,
                old(buffer)@,
                old(zbuffer)@,
                player_pos,
                player_rot.0,
                player_rot.1,
                moveing,
                width as int,
                height as int,
                r,
                g,
                b,
            );
            final(particles)@ == s.0 && final(buffer)@ == s.1 && final(zbuffer)@ == s.2
        }),
        final(buffer)@.len() == old(buffer)@.len(),
        final(zbuffer)@.len() == old(zbuffer)@.len(),
        forall|j: int| 0 <= j < old(zbuffer)@.len() ==> final(zbuffer)@[j] <= old(zbuffer)@[j],
        forall|i: int| 0 <= i < final(particles)@.len() ==> (#[trigger] final(particles)@[i]).wf(),
{
    let cam = player_pos;
    let yaw = player_rot.0;
    let pitch = player_rot.1;
    let n = particles.len();
    let ghost ops = particles@;
    let ghost b0 = buffer@;
    let ghost z0 = zbuffer@;
    let ghost w = width as int;
    let ghost h = height as int;
    let mut i: usize = 0;
    let mut k: usize = 0;
    while i < n
        invariant
            n == ops.len(),
            particles@.len() == n,
            k <= i <= n,
            cam == player_pos,
            yaw == player_rot.0,
            pitch == player_rot.1,
            w == width as int,
            h == height as int,
            vec3_within(cam, COORD_LIMIT as int),
            yaw.wf(),
            pitch.wf(),
            r <= 255,
            g <= 255,
            b <= 255,
            forall|t: int| 0 <= t < n ==> (#[trigger] ops[t]).wf(),
            forall|t: int| 0 <= t < k ==> (#[trigger] particles@[t]).wf(),
            b0.len() == width * height,
            z0.len() == width * height,
            width * height <= usize::MAX,
            1 <= width <= 4096,
            1 <= height <= 4096,
            buffer@.len() == b0.len(),
            zbuffer@.len() == z0.len(),
            forall|t: int| i <= t < n ==> particles@[t] == #[trigger] ops[t],
            ({
                let total = sim_from(
                    ops,
                    0,
                    b0,
                    z0,
                    cam,
                    yaw,
                    pitch,
                    moveing,
                    w,
                    h,
                    r,
                    g,
                    b,
                );
                let fut = sim_from(
                    ops,
                    i as int,
                    buffer@,
                    zbuffer@,
                    cam,
                    yaw,
                    pitch,
                    moveing,
                    w,
                    h,
                    r,
                    g,
                    b,
                );
                total.0 == particles@.take(k as int) + fut.0 && total.1 == fut.1 && total.2
                    == fut.2
            }),
            forall|j: int| 0 <= j < z0.len() ==> zbuffer@[j] <= z0[j],
        decreases n - i,
    {
        let p0 = particles[i];
        proof {
            assert(p0 == ops[i as int]);
        }
        // integrate position and decay the lifetime
        let mdx: i64 = if moveing.0 < 10 {
            10
        } else {
            moveing.0
        };
        let mdy: i64 = if moveing.1 < 10 {
            10
        } else {
            moveing.1
        };
        let mdz: i64 = if moveing.2 < 10 {
            10
        } else {
            moveing.2
        };
        proof {
            lemma_tdiv_bound(p0.dx * SCALE, mdx as int, 100_000_000_000int);
            lemma_tdiv_bound(p0.dy * SCALE, mdy as int, 100_000_000_000int);
            lemma_tdiv_bound(p0.dz * SCALE, mdz as int, 100_000_000_000int);
            assert(-(100_000_000_000int * mdx) <= p0.dx * SCALE <= 100_000_000_000int * mdx
                && -(100_000_000_000int * mdy) <= p0.dy * SCALE <= 100_000_000_000int * mdy && -(
            100_000_000_000int * mdz) <= p0.dz * SCALE <= 100_000_000_000int * mdz)
                by (nonlinear_arith)
                requires
                    -VEL_LIMIT <= p0.dx <= VEL_LIMIT && -VEL_LIMIT <= p0.dy <= VEL_LIMIT
                        && -VEL_LIMIT <= p0.dz <= VEL_LIMIT && 10 <= mdx && 10 <= mdy && 10 <= mdz,
            ;
        }
        let nx: i64 = clamp_i64(p0.x + div_trunc(p0.dx * SCALE, mdx), -POS_LIMIT, POS_LIMIT);
        let ny: i64 = clamp_i64(p0.y + div_trunc(p0.dy * SCALE, mdy), -POS_LIMIT, POS_LIMIT);
        let nz: i64 = clamp_i64(p0.z + div_trunc(p0.dz * SCALE, mdz), -POS_LIMIT, POS_LIMIT);
        let life1: i64 = p0.life - DECAY;
        let ghost p1 = particle_step(ops[i as int], moveing);
        proof {
            assert(p1.x == nx && p1.y == ny && p1.z == nz && p1.life == life1);
        }
        if life1 <= 0 {
            // expired: the particle leaves the collection and draws nothing
        } else {
            // camera-relative view: yaw then pitch, both negated
            let rel_x: i64 = nx - cam.x;
            let rel_y: i64 = ny - cam.y;
            let rel_z: i64 = nz - cam.z;
            let yawed = crate::render::rotate_pair(rel_x, rel_z, yaw, Ghost(1_100_000_000i64));
            let x1 = yawed.0;
            let z1 = yawed.1;
            let pitched = crate::render::rotate_pair(rel_y, z1, pitch, Ghost(2_200_000_000i64));
            let y1 = pitched.0;
            let z2 = pitched.1;
            proof {
                let v = particle_view(p1, cam, yaw, pitch);
                assert(v.0 == rel_x && v.1 == rel_y && v.2 == rel_z && v.3 == x1 && v.4 == y1
                    && v.5 == z2);
            }
            let mut plife: i64 = life1;
            let mut drawn = false;
            let ghost gdrawn = particle_drawn(p1, cam, yaw, pitch, w, h);
            let ghost gfades = particle_fades(p1, cam, yaw, pitch, w, h);
            let mut cx: i64 = 0;
            let mut cy: i64 = 0;
            let mut psize: i64 = 1;
            if z2 > PART_NEAR {
                proof {
                    assert(5_779_774int <= z2 * TAN_HALF_FOV <= 25_406_000_000_000int)
                        by (nonlinear_arith)
                        requires
                            1000 < z2 <= 4_400_000_000i64 && TAN_HALF_FOV == 5774,
                    ;
                    lemma_tdiv_bound(z2 * TAN_HALF_FOV, SCALE as int, 2_600_000_000int);
                    vstd::arithmetic::div_mod::lemma_div_is_ordered(
                        5_779_774int,
                        z2 * TAN_HALF_FOV,
                        SCALE as int,
                    );
                }
                let pz: i64 = div_trunc(z2 * TAN_HALF_FOV, SCALE);
                proof {
                    assert(pz >= 577);
                    assert(-180_224_000_000_000_000int <= x1 * SCALE * (h as int)
                        <= 180_224_000_000_000_000int && 577 <= pz * (w as int)
                        <= 10_649_600_000_000int) by (nonlinear_arith)
                        requires
                            -2_200_000_000i64 <= x1 <= 2_200_000_000i64 && 1 <= h <= 4096 && 1 <= w
                                <= 4096 && 577 <= pz <= 2_600_000_000i64 && SCALE == 10000,
                    ;
                }
                let px: i64 = div_trunc(x1 * SCALE * (height as i64), pz * (width as i64));
                let py: i64 = div_trunc(y1 * SCALE, pz);
                if -SCALE <= px && px <= SCALE && -SCALE <= py && py <= SCALE {
                    // far particles fade faster; very far ones skip drawing
                    let far_axis = rel_x > PART_FAR_AXIS || rel_x < -PART_FAR_AXIS || rel_y
                        > PART_FAR_AXIS || rel_y < -PART_FAR_AXIS || rel_z > PART_FAR_AXIS || rel_z
                        < -PART_FAR_AXIS;
                    if far_axis {
                        plife = life1 - EXTRA_DECAY;
                    } else {
                        proof {
                            assert(0 <= rel_x * rel_x <= 1_000_000_000_000int && 0 <= rel_y
                                * rel_y <= 1_000_000_000_000int && 0 <= rel_z * rel_z
                                <= 1_000_000_000_000int) by (nonlinear_arith)
                                requires
                                    -PART_FAR_AXIS <= rel_x <= PART_FAR_AXIS && -PART_FAR_AXIS
                                        <= rel_y <= PART_FAR_AXIS && -PART_FAR_AXIS <= rel_z
                                        <= PART_FAR_AXIS,
                            ;
                        }
                        let dsq: i64 = rel_x * rel_x + rel_y * rel_y + rel_z * rel_z;
                        if dsq > PART_FAR_SQ {
                            plife = life1 - EXTRA_DECAY;
                        }
                        // drawn: compute the billboard
                        proof {
                            assert(0 <= (px + SCALE) * (w as int) + SCALE && (px + SCALE) * (
                            w as int) + SCALE < (2 * SCALE as int) * ((w as int) + 1) && 0 <= (
                            SCALE - py) * (h as int) + SCALE && (SCALE - py) * (h as int) + SCALE
                                < (2 * SCALE as int) * ((h as int) + 1)) by (nonlinear_arith)
                                requires
                                    -SCALE <= px <= SCALE && -SCALE <= py <= SCALE && 1 <= w
                                        <= 4096 && 1 <= h <= 4096 && SCALE == 10000,
                            ;
                            vstd::arithmetic::div_mod::lemma_multiply_divide_lt(
                                (px + SCALE) * (w as int) + SCALE,
                                2 * SCALE as int,
                                (w as int) + 1,
                            );
                            vstd::arithmetic::div_mod::lemma_multiply_divide_lt(
                                (SCALE - py) * (h as int) + SCALE,
                                2 * SCALE as int,
                                (h as int) + 1,
                            );
                            vstd::arithmetic::div_mod::lemma_div_pos_is_pos(
                                (px + SCALE) * (w as int) + SCALE,
                                2 * SCALE as int,
                            );
                            vstd::arithmetic::div_mod::lemma_div_pos_is_pos(
                                (SCALE - py) * (h as int) + SCALE,
                                2 * SCALE as int,
                            );
                        }
                        cx = div_trunc((px + SCALE) * (width as i64) + SCALE, 2 * SCALE);
                        cy = div_trunc((SCALE - py) * (height as i64) + SCALE, 2 * SCALE);
                        psize = clamp_i64(div_trunc(5 * SCALE, z2), 1, 4);
                        drawn = true;
                    }
                }
            }
            proof {
                assert(drawn == gdrawn);
                assert(plife == (if gfades {
                    life1 - EXTRA_DECAY
                } else {
                    life1 as int
                }));
            }
            if drawn {
                proof {
                    let ghost c = particle_center(x1 as int, y1 as int, z2 as int, w, h);
                    assert(cx == c.0 && cy == c.1);
                    assert(psize == particle_size(z2 as int));
                }
                let intensity: i64 = clamp_i64(div_trunc(plife, LIFE_NORM), 0, SCALE);
                proof {
                    assert(r * (intensity as u32) <= 255 * (SCALE as int) && g * (
                    intensity as u32) <= 255 * (SCALE as int) && b * (intensity as u32) <= 255 * (
                    SCALE as int)) by (nonlinear_arith)
                        requires
                            r <= 255 && g <= 255 && b <= 255 && 0 <= intensity as u32 <= SCALE,
                    ;
                }
                let cr: u32 = (r * (intensity as u32)) / (SCALE as u32);
                let cg: u32 = (g * (intensity as u32)) / (SCALE as u32);
                let cb: u32 = (b * (intensity as u32)) / (SCALE as u32);
                let color: u32 = (cr << 16) | (cg << 8) | cb;
                proof {
                    assert(color == particle_color(r, g, b, plife as int));
                }
                let ghost bmid = buffer@;
                let ghost zmid = zbuffer@;
                draw_billboard(buffer, zbuffer, width, height, cx, cy, psize, z2, color);
                proof {
                    assert(buffer@ =~= billboard_buf_after(
                        bmid,
                        zmid,
                        p1,
                        cam,
                        yaw,
                        pitch,
                        w,
                        h,
                        r,
                        g,
                        b,
                    ));
                    assert(zbuffer@ =~= billboard_zbuf_after(zmid, p1, cam, yaw, pitch, w, h));
                }
            } else {
                proof {
                    assert(buffer@ == billboard_buf_after(
                        buffer@,
                        zbuffer@,
                        p1,
                        cam,
                        yaw,
                        pitch,
                        w,
                        h,
                        r,
                        g,
                        b,
                    ));
                    assert(zbuffer@ == billboard_zbuf_after(zbuffer@, p1, cam, yaw, pitch, w, h));
                }
            }
            let ghost kept_before = particles@.take(k as int);
            particles.set(
                k,
                Particle { x: nx, y: ny, z: nz, dx: p0.dx, dy: p0.dy, dz: p0.dz, life: plife },
            );
            proof {
                assert(particles@[k as int] == particle_after(p1, cam, yaw, pitch, w, h));
                assert(particles@.take(k as int + 1) =~= kept_before.push(
                    particle_after(p1, cam, yaw, pitch, w, h),
                ));
                assert(kept_before.push(particle_after(p1, cam, yaw, pitch, w, h)) + sim_from(
                    ops,
                    i as int + 1,
                    buffer@,
                    zbuffer@,
                    cam,
                    yaw,
                    pitch,
                    moveing,
                    w,
                    h,
                    r,
                    g,
                    b,
                ).0 =~= kept_before + (seq![particle_after(p1, cam, yaw, pitch, w, h)] + sim_from(
                    ops,
                    i as int + 1,
                    buffer@,
                    zbuffer@,
                    cam,
                    yaw,
                    pitch,
                    moveing,
                    w,
                    h,
                    r,
                    g,
                    b,
                ).0));
            }
            k = k + 1;
        }
        i = i + 1;
    }
    proof {
        assert(particles@.take(k as int) + sim_from(
            ops,
            n as int,
            buffer@,
            zbuffer@,
            cam,
            yaw,
            pitch,
            moveing,
            w,
            h,
            r,
            g,
            b,
        ).0 =~= particles@.take(k as int));
    }
    particles.truncate(k);
}

} // verus!
