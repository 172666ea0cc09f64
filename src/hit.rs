use vstd::prelude::*;
use crate::board::{COLS, ROWS};

verus! {

/// Fixed-point steps in one world unit, the width of one cell.
pub const SUBUNITS: i64 = 65536;

/// A point in world space, each coordinate in steps of `1 / SUBUNITS`. The
/// board lies in the plane z = 0, centred on the origin, one unit per cell.
#[derive(Clone, Copy, Debug, PartialEq, Eq, Structural)]
pub struct WorldPoint {
    pub x: i32,
    pub y: i32,
    pub z: i32,
}

/// The ray from `near` towards `far` is not parallel to the board plane.
pub open spec fn crosses_plane(near: WorldPoint, far: WorldPoint) -> bool {
    far.z != near.z
}

/// The positive denominator of the hit point: `|far.z - near.z|`.
pub open spec fn hit_den(near: WorldPoint, far: WorldPoint) -> int {
    let dz = far.z - near.z;
    if dz < 0 {
        -dz
    } else {
        dz
    }
}

/// The ray meets z = 0 at `near + (far - near) * t` with
/// `t = -near.z / (far.z - near.z)`. Its coordinate `a` (x or y) there is
/// `hit_num(..) / hit_den(..)` steps.
pub open spec fn hit_num(near_a: int, far_a: int, near_z: int, far_z: int) -> int {
    let dz = far_z - near_z;
    let n = near_a * dz - (far_a - near_a) * near_z;
    if dz < 0 {
        -n
    } else {
        n
    }
}

pub open spec fn hit_x_num(near: WorldPoint, far: WorldPoint) -> int {
    hit_num(near.x as int, far.x as int, near.z as int, far.z as int)
}

pub open spec fn hit_y_num(near: WorldPoint, far: WorldPoint) -> int {
    hit_num(near.y as int, far.y as int, near.z as int, far.z as int)
}

/// The hit point lies within the board: `-COLS / 2 <= x <= COLS / 2` and
/// `-ROWS / 2 <= y <= ROWS / 2`, in world units.
pub open spec fn hit_on_board(near: WorldPoint, far: WorldPoint) -> bool {
    let d = hit_den(near, far);
    let w = COLS as int * SUBUNITS as int * d;
    let h = ROWS as int * SUBUNITS as int * d;
    &&& -w <= 2 * hit_x_num(near, far) <= w
    &&& -h <= 2 * hit_y_num(near, far) <= h
}

/// The column under the hit point: `floor(x + COLS / 2)` for x in world
/// units, with the right edge itself counted in the last column.
pub open spec fn hit_column(near: WorldPoint, far: WorldPoint) -> int {
    let d = hit_den(near, far);
    let q = (2 * hit_x_num(near, far) + COLS as int * SUBUNITS as int * d) / (2 * SUBUNITS as int * d);
    if q >= COLS as int {
        COLS as int - 1
    } else {
        q
    }
}

/// The column that the ray from `near` towards `far` points at, or `None`
/// where the ray runs parallel to the board or meets its plane off the board.
pub open spec fn ray_column(near: WorldPoint, far: WorldPoint) -> Option<u8> {
    if crosses_plane(near, far) && hit_on_board(near, far) {
        Some(hit_column(near, far) as u8)
    } else {
        None
    }
}

/// A ray that meets the board plane outside the board's extent points at no
/// column.
pub proof fn lemma_off_board_misses(near: WorldPoint, far: WorldPoint)
    requires
        crosses_plane(near, far),
        !hit_on_board(near, far),
    ensures
        ray_column(near, far).is_none(),
{
}

proof fn lemma_mul_bound(a: int, b: int, ba: int, bb: int)
    requires
        -ba <= a <= ba,
        -bb <= b <= bb,
    ensures
        -(ba * bb) <= a * b <= ba * bb,
{
    assert(-(ba * bb) <= a * b <= ba * bb) by (nonlinear_arith)
        requires
            -ba <= a <= ba,
            -bb <= b <= bb,
    ;
}

/// Resolves the column under a pointer from the two points where its ray
/// crosses the near and the far clipping planes.
pub fn column_from_ray(near: WorldPoint, far: WorldPoint) -> (col: Option<u8>)
    ensures
        col == ray_column(near, far),
        col matches Some(c) ==> c < COLS,
{
    let dz = far.z as i128 - near.z as i128;
    if dz == 0 {
        return None;
    }
    let dx = far.x as i128 - near.x as i128;
    let dy = far.y as i128 - near.y as i128;
    proof {
        let b32: int = 0x1_0000_0000;
        let b31: int = 0x8000_0000;
        lemma_mul_bound(near.x as int, dz as int, b31, b32);
        lemma_mul_bound(dx as int, near.z as int, b32, b31);
        lemma_mul_bound(near.y as int, dz as int, b31, b32);
        lemma_mul_bound(dy as int, near.z as int, b32, b31);
    }
    let mut nx: i128 = near.x as i128 * dz - dx * near.z as i128;
    let mut ny: i128 = near.y as i128 * dz - dy * near.z as i128;
    let mut d: i128 = dz;
    if dz < 0 {
        nx = -nx;
        ny = -ny;
        d = -dz;
    }
    proof {
        lemma_mul_bound(COLS as int * SUBUNITS as int, d as int, 0x80000, 0x1_0000_0000);
        lemma_mul_bound(ROWS as int * SUBUNITS as int, d as int, 0x80000, 0x1_0000_0000);
    }
    let w: i128 = COLS as i128 * SUBUNITS as i128 * d;
    let h: i128 = ROWS as i128 * SUBUNITS as i128 * d;
    if 2 * nx < -w || 2 * nx > w || 2 * ny < -h || 2 * ny > h {
        return None;
    }
    proof {
        lemma_mul_bound(2 * SUBUNITS as int, d as int, 0x80000, 0x1_0000_0000);
        assert(2 * SUBUNITS as int * d > 0) by (nonlinear_arith)
            requires
                d > 0,
                SUBUNITS > 0,
        ;
    }
    let cell: i128 = 2 * SUBUNITS as i128 * d;
    let q: u128 = (2 * nx + w) as u128 / cell as u128;
    let col: u8 = if q >= COLS as u128 {
        COLS as u8 - 1
    } else {
        q as u8
    };
    Some(col)
}

} // verus!
