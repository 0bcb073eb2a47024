use vstd::prelude::*;

verus! {

/// Coordinates along a ray are fixed-point numbers: this many units make one block.
pub const UNITS_PER_BLOCK: i64 = 65536;

/// The largest magnitude a coordinate of a ray's start or extent may have, in units.
pub const MAX_RAY_COORD: i64 = 1099511627776;

/// A point or a vector, each coordinate in units of 1 / UNITS_PER_BLOCK of a block.
#[derive(Copy, Clone, Debug, PartialEq, Eq, Structural)]
pub struct Point {
    pub x: i64,
    pub y: i64,
    pub z: i64,
}

/// A unit cell of the grid, by its integer coordinates.
pub type Voxel = (i64, i64, i64);

pub open spec fn within_ray_limits(p: Point) -> bool {
    -MAX_RAY_COORD <= p.x <= MAX_RAY_COORD && -MAX_RAY_COORD <= p.y <= MAX_RAY_COORD && -MAX_RAY_COORD
        <= p.z <= MAX_RAY_COORD
}

/// The cell holding coordinate a: its floor in blocks.
pub open spec fn cell_of(a: int) -> int {
    a / (UNITS_PER_BLOCK as int)
}

pub open spec fn voxel_of(p: Point) -> (int, int, int) {
    (cell_of(p.x as int), cell_of(p.y as int), cell_of(p.z as int))
}

/// The cell holding the end of the ray that starts at a and spans d.
pub open spec fn end_voxel(a: Point, d: Point) -> (int, int, int) {
    (cell_of(a.x + d.x), cell_of(a.y + d.y), cell_of(a.z + d.z))
}

pub open spec fn abs(v: int) -> int {
    if v < 0 {
        -v
    } else {
        v
    }
}

/// Along one axis, from cell v, the distance (in units) the ray travels on that axis before
/// it leaves v; the ray parameter of that crossing is this number over |d|.
pub open spec fn crossing_num(a: int, d: int, v: int) -> int {
    if d < 0 {
        a - v * (UNITS_PER_BLOCK as int)
    } else {
        (v + 1) * (UNITS_PER_BLOCK as int) - a
    }
}

/// The ray leaves its cell on the first axis strictly before it does on the second. An axis
/// the ray does not move along is never crossed.
pub open spec fn crosses_earlier(a1: int, d1: int, v1: int, a2: int, d2: int, v2: int) -> bool {
    if d1 == 0 {
        false
    } else if d2 == 0 {
        true
    } else {
        crossing_num(a1, d1, v1) * abs(d2) < crossing_num(a2, d2, v2) * abs(d1)
    }
}

/// The axis stepped from cell v (0 for x, 1 for y, 2 for z): x is set against y first; the
/// earlier of the two is then set against z, and z wins ties.
pub open spec fn axis_to_step(a: Point, d: Point, v: (int, int, int)) -> int {
    let xy = crosses_earlier(a.x as int, d.x as int, v.0, a.y as int, d.y as int, v.1);
    let xz = crosses_earlier(a.x as int, d.x as int, v.0, a.z as int, d.z as int, v.2);
    let yz = crosses_earlier(a.y as int, d.y as int, v.1, a.z as int, d.z as int, v.2);
    if xy {
        if xz {
            0
        } else {
            2
        }
    } else {
        if yz {
            1
        } else {
            2
        }
    }
}

pub open spec fn step_sign(d: int) -> int {
    if d < 0 {
        -1
    } else {
        1
    }
}

/// The cell the ray enters after v.
pub open spec fn next_voxel(a: Point, d: Point, v: (int, int, int)) -> (int, int, int) {
    let axis = axis_to_step(a, d, v);
    if axis == 0 {
        (v.0 + step_sign(d.x as int), v.1, v.2)
    } else if axis == 1 {
        (v.0, v.1 + step_sign(d.y as int), v.2)
    } else {
        (v.0, v.1, v.2 + step_sign(d.z as int))
    }
}

/// The cells entered after v, at most `fuel` of them, stopping at the end cell.
pub open spec fn walk(a: Point, d: Point, v: (int, int, int), fuel: nat) -> Seq<(int, int, int)>
    decreases fuel,
{
    if fuel == 0 || v == end_voxel(a, d) {
        Seq::empty()
    } else {
        seq![next_voxel(a, d, v)] + walk(a, d, next_voxel(a, d, v), (fuel - 1) as nat)
    }
}

/// The number of cell steps between the start cell and the end cell.
pub open spec fn step_budget(a: Point, d: Point) -> nat {
    let v = voxel_of(a);
    let e = end_voxel(a, d);
    (abs(e.0 - v.0) + abs(e.1 - v.1) + abs(e.2 - v.2)) as nat
}

/// The cells that the segment from a to a + d passes through, in order: the start cell, then
/// each next cell, until the end cell is reached or as many steps were taken as a straight
/// walk from the start cell to the end cell needs.
pub open spec fn ray_path(a: Point, d: Point) -> Seq<(int, int, int)> {
    seq![voxel_of(a)] + walk(a, d, voxel_of(a), step_budget(a, d))
}

pub open spec fn voxel_int(v: Voxel) -> (int, int, int) {
    (v.0 as int, v.1 as int, v.2 as int)
}

fn floor_cell(a: i64) -> (r: i64)
    requires
        -2 * MAX_RAY_COORD <= a <= 2 * MAX_RAY_COORD,
    ensures
        r == cell_of(a as int),
{
    let q = a / UNITS_PER_BLOCK;
    let m = a % UNITS_PER_BLOCK;
    if m < 0 {
        q - 1
    } else {
        q
    }
}

fn abs_i64(v: i64) -> (r: i64)
    requires
        v > i64::MIN,
    ensures
        r == abs(v as int),
{
    if v < 0 {
        -v
    } else {
        v
    }
}

/// Cell coordinates reached while walking stay this close to zero.
spec fn cell_bound() -> int {
    1073741824
}

fn crossing_num_exec(a: i64, d: i64, v: i64) -> (r: i128)
    requires
        -MAX_RAY_COORD <= a <= MAX_RAY_COORD,
        -cell_bound() <= v <= cell_bound(),
    ensures
        r == crossing_num(a as int, d as int, v as int),
        abs(r as int) <= 281474976710656,
{
    let vv = v as i128;
    let aa = a as i128;
    let u: i128 = 65536;
    assert(-1073741824 * 65536 <= vv * u <= 1073741824 * 65536) by (nonlinear_arith)
        requires
            -1073741824 <= vv <= 1073741824,
            u == 65536,
    ;
    assert((vv + 1) * u == vv * u + u) by (nonlinear_arith);
    if d < 0 {
        aa - vv * u
    } else {
        (vv + 1) * u - aa
    }
}

fn crosses_earlier_exec(a1: i64, d1: i64, v1: i64, a2: i64, d2: i64, v2: i64) -> (r: bool)
    requires
        -MAX_RAY_COORD <= a1 <= MAX_RAY_COORD,
        -MAX_RAY_COORD <= a2 <= MAX_RAY_COORD,
        -MAX_RAY_COORD <= d1 <= MAX_RAY_COORD,
        -MAX_RAY_COORD <= d2 <= MAX_RAY_COORD,
        -cell_bound() <= v1 <= cell_bound(),
        -cell_bound() <= v2 <= cell_bound(),
    ensures
        r == crosses_earlier(a1 as int, d1 as int, v1 as int, a2 as int, d2 as int, v2 as int),
{
    if d1 == 0 {
        false
    } else if d2 == 0 {
        true
    } else {
        let n1 = crossing_num_exec(a1, d1, v1);
        let n2 = crossing_num_exec(a2, d2, v2);
        let e1 = abs_i64(d1) as i128;
        let e2 = abs_i64(d2) as i128;
        assert(abs(n1 * e2) <= 281474976710656 * 1099511627776) by (nonlinear_arith)
            requires
                abs(n1 as int) <= 281474976710656,
                0 <= e2 <= 1099511627776,
        ;
        assert(abs(n2 * e1) <= 281474976710656 * 1099511627776) by (nonlinear_arith)
            requires
                abs(n2 as int) <= 281474976710656,
                0 <= e1 <= 1099511627776,
        ;
        n1 * e2 < n2 * e1
    }
}

/// The cells that the segment from `start` to `start + delta` passes through, in order,
/// beginning with the cell holding `start`.
pub fn ray_cast(start: Point, delta: Point) -> (r: Vec<Voxel>)
    requires
        within_ray_limits(start),
        within_ray_limits(delta),
    ensures
        r@.map_values(|v: Voxel| voxel_int(v)) == ray_path(start, delta),
        r@.len() >= 1,
{
    let (ax, ay, az) = (start.x, start.y, start.z);
    let (dx, dy, dz) = (delta.x, delta.y, delta.z);
    let mut vx = floor_cell(ax);
    let mut vy = floor_cell(ay);
    let mut vz = floor_cell(az);
    let bx = floor_cell(ax + dx);
    let by = floor_cell(ay + dy);
    let bz = floor_cell(az + dz);
    let ghost v0 = (vx as int, vy as int, vz as int);
    let budget: u64 = (abs_i64(bx - vx) + abs_i64(by - vy) + abs_i64(bz - vz)) as u64;
    let mut path: Vec<Voxel> = Vec::new();
    path.push((vx, vy, vz));
    proof {
        assert(path@.map_values(|v: Voxel| voxel_int(v)) =~= seq![voxel_of(start)]);
    }
    let mut steps: u64 = 0;
    while steps < budget && (vx != bx || vy != by || vz != bz)
        invariant
            steps <= budget,
            budget == step_budget(start, delta),
            within_ray_limits(start),
            within_ray_limits(delta),
            (ax, ay, az) == (start.x, start.y, start.z),
            (dx, dy, dz) == (delta.x, delta.y, delta.z),
            (bx as int, by as int, bz as int) == end_voxel(start, delta),
            v0 == voxel_of(start),
            abs(vx - v0.0) + abs(vy - v0.1) + abs(vz - v0.2) <= steps,
            path@.len() >= 1,
            path@.map_values(|v: Voxel| voxel_int(v)) + walk(
                start,
                delta,
                (vx as int, vy as int, vz as int),
                (budget - steps) as nat,
            ) == ray_path(start, delta),
        decreases budget - steps,
    {
        let ghost v = (vx as int, vy as int, vz as int);
        let ghost before = path@.map_values(|v: Voxel| voxel_int(v));
        proof {
            assert(-16777217 <= v0.0 <= 16777216);
            assert(-16777217 <= v0.1 <= 16777216);
            assert(-16777217 <= v0.2 <= 16777216);
            assert(budget <= 3 * 33554436);
        }
        let xy = crosses_earlier_exec(ax, dx, vx, ay, dy, vy);
        let xz = crosses_earlier_exec(ax, dx, vx, az, dz, vz);
        let yz = crosses_earlier_exec(ay, dy, vy, az, dz, vz);
        let axis: u8 = if xy {
            if xz {
                0
            } else {
                2
            }
        } else {
            if yz {
                1
            } else {
                2
            }
        };
        if axis == 0 {
            vx = if dx < 0 {
                vx - 1
            } else {
                vx + 1
            };
        } else if axis == 1 {
            vy = if dy < 0 {
                vy - 1
            } else {
                vy + 1
            };
        } else {
            vz = if dz < 0 {
                vz - 1
            } else {
                vz + 1
            };
        }
        path.push((vx, vy, vz));
        proof {
            let nv = next_voxel(start, delta, v);
            assert((vx as int, vy as int, vz as int) == nv);
            let f = (budget - steps) as nat;
            assert(walk(start, delta, v, f) == seq![nv] + walk(start, delta, nv, (f - 1) as nat));
            assert(path@.map_values(|v: Voxel| voxel_int(v)) =~= before.push(nv));
            assert(before.push(nv) + walk(start, delta, nv, (f - 1) as nat) =~= before + (seq![nv]
                + walk(start, delta, nv, (f - 1) as nat)));
        }
        steps += 1;
    }
    proof {
        let rest = walk(start, delta, (vx as int, vy as int, vz as int), (budget - steps) as nat);
        assert(rest =~= Seq::<(int, int, int)>::empty());
        assert(path@.map_values(|v: Voxel| voxel_int(v)) + rest =~= path@.map_values(
            |v: Voxel| voxel_int(v),
        ));
    }
    path
}

} // verus!
