//! The scene data model: points, face corner references, models and the
//! material table. Coordinates are fixed-point values scaled by `SCALE`.
use vstd::prelude::*;

verus! {

/// Bound on world-space coordinates (vertices, camera and object positions),
/// chosen so every product in the camera transform fits in an `i64`.
pub const COORD_LIMIT: i64 = 100_000_000;

/// A point or direction with three fixed-point coordinates.
#[derive(Clone, Copy, Debug, PartialEq, Eq, Structural)]
pub struct Vec3 {
    pub x: i64,
    pub y: i64,
    pub z: i64,
}

/// Whether all three coordinates lie within `limit`.
pub open spec fn vec3_within(v: Vec3, limit: int) -> bool {
    -limit <= v.x <= limit && -limit <= v.y <= limit && -limit <= v.z <= limit
}

/// One corner of a face: an index into the model's positions, and optional
/// indices into its texture coordinates and normals.
#[derive(Debug)]
pub struct FaceVertex {
    pub vertex_index: usize,
    pub texcoord_index: Option<usize>,
    pub normal_index: Option<usize>,
}

/// A model: parallel arrays of positions, texture coordinates and normals,
/// faces that reference them by index, and wireframe edges.
pub struct Model {
    pub vertices: Vec<Vec3>,
    pub texcoords: Vec<(i64, i64)>,
    pub normals: Vec<Vec3>,
    pub faces: Vec<(Vec<FaceVertex>, String)>,
    pub edges: Vec<(usize, usize)>,
}

impl Model {
    /// Well-formedness: every face has at least three corners, every corner
    /// references valid array positions, and all coordinates are bounded.
    /// Loaders must establish this before a model reaches the renderer.
    pub open spec fn wf(&self) -> bool {
        &&& forall|f: int|
            0 <= f < self.faces@.len() ==> (#[trigger] self.faces@[f]).0@.len() >= 3
        &&& forall|f: int|
            0 <= f < self.faces@.len() ==> (#[trigger] self.faces@[f]).0@.len()
                <= crate::raster::POINTS_LIMIT
        &&& forall|f: int, c: int|
            0 <= f < self.faces@.len() && 0 <= c < self.faces@[f].0@.len() ==> {
                let fv = #[trigger] self.faces@[f].0@[c];
                &&& fv.vertex_index < self.vertices@.len()
                &&& (fv.normal_index is Some ==> fv.normal_index->0 < self.normals@.len())
                &&& (fv.texcoord_index is Some ==> fv.texcoord_index->0
                    < self.texcoords@.len())
            }
        &&& forall|v: int|
            0 <= v < self.vertices@.len() ==> vec3_within(
                #[trigger] self.vertices@[v],
                COORD_LIMIT as int,
            )
        &&& forall|n: int|
            0 <= n < self.normals@.len() ==> vec3_within(
                #[trigger] self.normals@[n],
                crate::light::NORM_LIMIT as int,
            ) && crate::light::len_sq(#[trigger] self.normals@[n]) > 0
    }
}

/// The fallback color for a material name that is not in the table: a loud
/// magenta, so a missing material is visible instead of fatal.
pub open spec fn fallback_color() -> (u8, u8, u8) {
    (255u8, 0u8, 255u8)
}

/// The base color a material name resolves to: the color of the first entry
/// with that name, or the fallback if there is none.
pub open spec fn mat_color_of(entries: Seq<(String, (u8, u8, u8))>, name: Seq<char>) -> (
    u8,
    u8,
    u8,
)
    decreases entries.len(),
{
    if entries.len() == 0 {
        fallback_color()
    } else if entries[0].0@ == name {
        entries[0].1
    } else {
        mat_color_of(entries.drop_first(), name)
    }
}

/// The material table: material names mapped to 8-bit RGB base colors.
pub struct MaterialTable {
    pub entries: Vec<(String, (u8, u8, u8))>,
}

impl MaterialTable {
    pub fn new() -> (t: MaterialTable)
        ensures
            t.entries@.len() == 0,
    {
        MaterialTable { entries: Vec::new() }
    }

    /// Adds one material; a name inserted twice keeps its first color.
    pub fn insert(&mut self, name: String, color: (u8, u8, u8))
        ensures
            final(self).entries@ == old(self).entries@.push((name, color)),
    {
        self.entries.push((name, color));
    }

    /// Looks a material name up, falling back to magenta when it is missing.
    pub fn lookup(&self, name: &String) -> (c: (u8, u8, u8))
        ensures
            c == mat_color_of(self.entries@, name@),
    {
        let n = self.entries.len();
        let mut i: usize = 0;
        proof {
            assert(self.entries@.skip(0) =~= self.entries@);
        }
        while i < n
            invariant
                n == self.entries@.len(),
                i <= n,
                mat_color_of(self.entries@, name@) == mat_color_of(
                    self.entries@.skip(i as int),
                    name@,
                ),
            decreases n - i,
        {
            let entry_name = &self.entries[i].0;
            if string_eq(entry_name, name) {
                proof {
                    assert(self.entries@.skip(i as int)[0] == self.entries@[i as int]);
                }
                return self.entries[i].1;
            }
            proof {
                assert(self.entries@.skip(i as int)[0] == self.entries@[i as int]);
                assert(self.entries@.skip(i as int).drop_first() =~= self.entries@.skip(
                    i as int + 1,
                ));
            }
            i = i + 1;
        }
        proof {
            assert(self.entries@.skip(n as int).len() == 0);
        }
        (255, 0, 255)
    }
}

/// String equality, visible to contracts as equality of the views.
pub fn string_eq(a: &String, b: &String) -> (r: bool)
    ensures
        r == (a@ == b@),
{
    <String as PartialEq>::eq(a, b)
}

} // verus!
