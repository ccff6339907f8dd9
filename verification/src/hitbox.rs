//! Axis-aligned bounding boxes: building one over a model's vertices and
//! testing two placed boxes for overlap.
use vstd::prelude::*;
use crate::model::{Vec3, vec3_within, COORD_LIMIT};

verus! {

/// An axis-aligned bounding box given by its two extreme corners.
#[derive(Debug, Clone, Copy, PartialEq, Eq, Structural)]
pub struct AABB {
    pub min: Vec3,
    pub max: Vec3,
}

/// The tightest box around a non-empty vertex list: each `min` coordinate is
/// a lower bound that is attained, each `max` an upper bound that is attained.
pub open spec fn is_tight_aabb(b: AABB, vs: Seq<Vec3>) -> bool {
    &&& forall|i: int|
        0 <= i < vs.len() ==> {
            let v = #[trigger] vs[i];
            b.min.x <= v.x <= b.max.x && b.min.y <= v.y <= b.max.y && b.min.z <= v.z <= b.max.z
        }
    &&& exists|i: int| 0 <= i < vs.len() && (#[trigger] vs[i]).x == b.min.x
    &&& exists|i: int| 0 <= i < vs.len() && (#[trigger] vs[i]).y == b.min.y
    &&& exists|i: int| 0 <= i < vs.len() && (#[trigger] vs[i]).z == b.min.z
    &&& exists|i: int| 0 <= i < vs.len() && (#[trigger] vs[i]).x == b.max.x
    &&& exists|i: int| 0 <= i < vs.len() && (#[trigger] vs[i]).y == b.max.y
    &&& exists|i: int| 0 <= i < vs.len() && (#[trigger] vs[i]).z == b.max.z
}

/// Computes the bounding box of a vertex list; an empty list has none.
pub fn aabb_of_vertices(vertices: &Vec<Vec3>) -> (r: Option<AABB>)
    ensures
        r is Some <==> vertices@.len() > 0,
        r is Some ==> is_tight_aabb(r->0, vertices@),
{
    let n = vertices.len();
    if n == 0 {
        return None;
    }
    let mut min = vertices[0];
    let mut max = vertices[0];
    let mut i: usize = 1;
    proof {
        let s1 = vertices@.take(1);
        assert(s1.len() == 1);
        assert(s1[0] == vertices@[0]);
    }
    while i < n
        invariant
            n == vertices@.len(),
            1 <= i <= n,
            is_tight_aabb(AABB { min, max }, vertices@.take(i as int)),
        decreases n - i,
    {
        let ghost prefix = vertices@.take(i as int);
        let ghost m0 = min;
        let ghost q0 = max;
        let v = vertices[i];
        if v.x < min.x {
            min.x = v.x;
        }
        if v.y < min.y {
            min.y = v.y;
        }
        if v.z < min.z {
            min.z = v.z;
        }
        if v.x > max.x {
            max.x = v.x;
        }
        if v.y > max.y {
            max.y = v.y;
        }
        if v.z > max.z {
            max.z = v.z;
        }
        proof {
            let next = vertices@.take(i as int + 1);
            assert(next =~= prefix.push(vertices@[i as int]));
            let last = prefix.len() as int;
            assert(next[last] == vertices@[i as int]);
            assert forall|k: int| 0 <= k < next.len() implies {
                let u = #[trigger] next[k];
                min.x <= u.x <= max.x && min.y <= u.y <= max.y && min.z <= u.z <= max.z
            } by {
                if k < prefix.len() {
                    assert(next[k] == prefix[k]);
                }
            }
            assert(exists|k: int| 0 <= k < next.len() && (#[trigger] next[k]).x == min.x) by {
                if v.x < m0.x {
                    assert(next[last].x == min.x);
                } else {
                    let k = choose|k: int| 0 <= k < prefix.len() && (#[trigger] prefix[k]).x
                        == m0.x;
                    assert(next[k].x == min.x);
                }
            }
            assert(exists|k: int| 0 <= k < next.len() && (#[trigger] next[k]).y == min.y) by {
                if v.y < m0.y {
                    assert(next[last].y == min.y);
                } else {
                    let k = choose|k: int| 0 <= k < prefix.len() && (#[trigger] prefix[k]).y
                        == m0.y;
                    assert(next[k].y == min.y);
                }
            }
            assert(exists|k: int| 0 <= k < next.len() && (#[trigger] next[k]).z == min.z) by {
                if v.z < m0.z {
                    assert(next[last].z == min.z);
                } else {
                    let k = choose|k: int| 0 <= k < prefix.len() && (#[trigger] prefix[k]).z
                        == m0.z;
                    assert(next[k].z == min.z);
                }
            }
            assert(exists|k: int| 0 <= k < next.len() && (#[trigger] next[k]).x == max.x) by {
                if v.x > q0.x {
                    assert(next[last].x == max.x);
                } else {
                    let k = choose|k: int| 0 <= k < prefix.len() && (#[trigger] prefix[k]).x
                        == q0.x;
                    assert(next[k].x == max.x);
                }
            }
            assert(exists|k: int| 0 <= k < next.len() && (#[trigger] next[k]).y == max.y) by {
                if v.y > q0.y {
                    assert(next[last].y == max.y);
                } else {
                    let k = choose|k: int| 0 <= k < prefix.len() && (#[trigger] prefix[k]).y
                        == q0.y;
                    assert(next[k].y == max.y);
                }
            }
            assert(exists|k: int| 0 <= k < next.len() && (#[trigger] next[k]).z == max.z) by {
                if v.z > q0.z {
                    assert(next[last].z == max.z);
                } else {
                    let k = choose|k: int| 0 <= k < prefix.len() && (#[trigger] prefix[k]).z
                        == q0.z;
                    assert(next[k].z == max.z);
                }
            }
        }
        i = i + 1;
    }
    proof {
        assert(vertices@.take(n as int) =~= vertices@);
    }
    Some(AABB { min, max })
}

/// Whether two boxes, each moved by its own offset, overlap on every axis.
pub open spec fn aabb_overlap(a: AABB, b: AABB, a_pos: (int, int, int), b_pos: (
    int,
    int,
    int,
)) -> bool {
    &&& a.min.x + a_pos.0 <= b.max.x + b_pos.0
    &&& a.max.x + a_pos.0 >= b.min.x + b_pos.0
    &&& a.min.y + a_pos.1 <= b.max.y + b_pos.1
    &&& a.max.y + a_pos.1 >= b.min.y + b_pos.1
    &&& a.min.z + a_pos.2 <= b.max.z + b_pos.2
    &&& a.max.z + a_pos.2 >= b.min.z + b_pos.2
}

/// Tests two placed bounding boxes for collision on all three axes.
pub fn check_aabb_collision(
    a: &AABB,
    b: &AABB,
    a_pos: (i64, i64, i64),
    b_pos: (i64, i64, i64),
) -> (r: bool)
    requires
        vec3_within(a.min, COORD_LIMIT as int),
        vec3_within(a.max, COORD_LIMIT as int),
        vec3_within(b.min, COORD_LIMIT as int),
        vec3_within(b.max, COORD_LIMIT as int),
        -COORD_LIMIT <= a_pos.0 <= COORD_LIMIT && -COORD_LIMIT <= a_pos.1 <= COORD_LIMIT
            && -COORD_LIMIT <= a_pos.2 <= COORD_LIMIT,
        -COORD_LIMIT <= b_pos.0 <= COORD_LIMIT && -COORD_LIMIT <= b_pos.1 <= COORD_LIMIT
            && -COORD_LIMIT <= b_pos.2 <= COORD_LIMIT,
    ensures
        r == aabb_overlap(*a, *b, (a_pos.0 as int, a_pos.1 as int, a_pos.2 as int), (
            b_pos.0 as int,
            b_pos.1 as int,
            b_pos.2 as int,
        )),
{
    let a_min_x = a.min.x + a_pos.0;
    let a_min_y = a.min.y + a_pos.1;
    let a_min_z = a.min.z + a_pos.2;
    let a_max_x = a.max.x + a_pos.0;
    let a_max_y = a.max.y + a_pos.1;
    let a_max_z = a.max.z + a_pos.2;
    let b_min_x = b.min.x + b_pos.0;
    let b_min_y = b.min.y + b_pos.1;
    let b_min_z = b.min.z + b_pos.2;
    let b_max_x = b.max.x + b_pos.0;
    let b_max_y = b.max.y + b_pos.1;
    let b_max_z = b.max.z + b_pos.2;
    a_min_x <= b_max_x && a_max_x >= b_min_x && a_min_y <= b_max_y && a_max_y >= b_min_y && a_min_z
        <= b_max_z && a_max_z >= b_min_z
}

} // verus!
