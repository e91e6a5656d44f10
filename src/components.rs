use vstd::prelude::*;

verus! {

// Distances are kept in thousandths of an arena unit, times in milliseconds.
/// Arena width: 200 units.
pub const GRID_X: i64 = 200_000;

/// Arena height: 100 units.
pub const GRID_Y: i64 = 100_000;

/// Collision radius of players and flags: 5 units.
pub const ENTITY_RADIUS: i64 = 5_000;

/// Total melee cooldown in milliseconds, counted from the start of a lunge.
pub const MELEE_COOLDOWN: u32 = 1_000;

/// How long a lunge lasts, in milliseconds.
pub const MELEE_DURATION: u32 = 200;

/// Lunge speed in thousandths of a unit per second (60 units per second).
pub const MELEE_SPEED: i64 = 60_000;

/// Move commands issued while cooling down are scaled by this numerator ...
pub const COOLDOWN_SLOW_NUM: i64 = 1;

/// ... over this denominator.
pub const COOLDOWN_SLOW_DEN: i64 = 2;

/// Fixed-point scale applied to a velocity before taking its length, so that
/// the integer square root keeps about three decimal digits.
pub const LENGTH_SCALE: i64 = 1024;

/// Nominal tick duration in milliseconds.
pub const TICK_MS: u32 = 20;

#[derive(Clone, Copy, Debug, PartialEq, Eq, Structural)]
pub struct Position {
    pub x: i64,
    pub y: i64,
}

/// Movement intent in thousandths of a unit per second.
#[derive(Clone, Copy, Debug, PartialEq, Eq, Structural)]
pub struct Velocity {
    pub dx: i32,
    pub dy: i32,
}

#[derive(Clone, Copy, Debug, PartialEq, Eq, Structural, Hash)]
pub enum Team {
    Red,
    Blue,
}

#[derive(Clone, Copy, Debug, PartialEq, Eq, Structural)]
pub struct Radius {
    pub value: i64,
}

/// Melee state of a player; times are in milliseconds.
#[derive(Clone, Copy, Debug, PartialEq, Eq, Structural)]
pub struct Melee {
    pub active: bool,
    pub cooldown: u32,
    pub max_cooldown: u32,
}

/// Possession state of a flag.
#[derive(Debug)]
pub struct Item {
    pub held_by: Option<String>,
}

/// External identity of a player.
#[derive(Debug)]
pub struct Metadata {
    pub id: String,
}

impl Item {
    pub open spec fn view(&self) -> Option<Seq<char>> {
        match self.held_by {
            Some(s) => Some(s@),
            None => None,
        }
    }
}

pub open spec fn opposing(t: Team) -> Team {
    match t {
        Team::Red => Team::Blue,
        Team::Blue => Team::Red,
    }
}

pub open spec fn spawn_point(t: Team) -> Position {
    match t {
        Team::Red => Position { x: 5_000, y: 5_000 },
        Team::Blue => Position { x: 195_000, y: 95_000 },
    }
}

pub open spec fn flag_home(t: Team) -> Position {
    match t {
        Team::Red => Position { x: 10_000, y: 50_000 },
        Team::Blue => Position { x: 190_000, y: 50_000 },
    }
}

pub open spec fn in_bounds(p: Position) -> bool {
    0 <= p.x <= GRID_X && 0 <= p.y <= GRID_Y
}

/// Where a player of team `t` enters the arena and respawns.
pub fn spawn_position(t: Team) -> (r: Position)
    ensures
        r == spawn_point(t),
        in_bounds(r),
{
    match t {
        Team::Red => Position { x: 5_000, y: 5_000 },
        Team::Blue => Position { x: 195_000, y: 95_000 },
    }
}

/// The fixed place where the flag of team `t` starts and is reset to.
pub fn home_position(t: Team) -> (r: Position)
    ensures
        r == flag_home(t),
        in_bounds(r),
{
    match t {
        Team::Red => Position { x: 10_000, y: 50_000 },
        Team::Blue => Position { x: 190_000, y: 50_000 },
    }
}

pub fn other_team(t: Team) -> (r: Team)
    ensures
        r == opposing(t),
{
    match t {
        Team::Red => Team::Blue,
        Team::Blue => Team::Red,
    }
}

/// Integer division rounding toward zero, as Rust's `/` does.
pub open spec fn trunc_div(a: int, b: int) -> int
    recommends
        b > 0,
{
    if a >= 0 {
        a / b
    } else {
        -((-a) / b)
    }
}

pub open spec fn clamp(v: int, hi: int) -> int {
    if v < 0 {
        0
    } else if v > hi {
        hi
    } else {
        v
    }
}

/// How far a velocity component carries in `dt` milliseconds.
pub open spec fn displacement(v: int, dt: int) -> int {
    trunc_div(v * dt, 1000)
}

/// Position after moving with `v` for `dt` milliseconds, clamped to the arena.
pub open spec fn moved(p: Position, v: Velocity, dt: u32) -> Position {
    Position {
        x: clamp(p.x + displacement(v.dx as int, dt as int), GRID_X as int) as i64,
        y: clamp(p.y + displacement(v.dy as int, dt as int), GRID_Y as int) as i64,
    }
}

/// Two circles overlap when the squared distance between their centres is
/// below the squared sum of their radii.
pub open spec fn circles_overlap(pa: Position, ra: int, pb: Position, rb: int) -> bool {
    let dx = pa.x - pb.x;
    let dy = pa.y - pb.y;
    dx * dx + dy * dy < (ra + rb) * (ra + rb)
}

pub open spec fn radius_ok(r: Radius) -> bool {
    0 <= r.value <= ENTITY_RADIUS
}

pub fn clamp_axis(v: i64, hi: i64) -> (r: i64)
    requires
        0 <= hi,
    ensures
        r == clamp(v as int, hi as int),
{
    if v < 0 {
        0
    } else if v > hi {
        hi
    } else {
        v
    }
}

/// Moves `p` by `v` for `dt` milliseconds and clamps each axis into the arena.
pub fn move_within_arena(p: Position, v: Velocity, dt: u32) -> (r: Position)
    requires
        in_bounds(p),
    ensures
        r == moved(p, v, dt),
        in_bounds(r),
{
    let px: i64 = p.x + axis_displacement(v.dx, dt);
    let py: i64 = p.y + axis_displacement(v.dy, dt);
    Position { x: clamp_axis(px, GRID_X), y: clamp_axis(py, GRID_Y) }
}

fn axis_displacement(v: i32, dt: u32) -> (r: i64)
    ensures
        r == displacement(v as int, dt as int),
        -0x40_0000_0000_0000 < r < 0x40_0000_0000_0000,
{
    assert(-0x8000_0000 * 0xffff_ffff <= v as int * dt as int <= 0x7fff_ffff * 0xffff_ffff)
        by (nonlinear_arith)
        requires
            -0x8000_0000 <= v <= 0x7fff_ffff,
            0 <= dt <= 0xffff_ffff,
    ;
    let prod: i64 = v as i64 * dt as i64;
    if prod >= 0 {
        assert(prod / 1000 <= prod);
        prod / 1000
    } else {
        let neg: i64 = -prod;
        assert(neg / 1000 <= neg);
        -(neg / 1000)
    }
}

/// Whether two circles overlap; positions within the arena and radii within
/// `ENTITY_RADIUS` keep every intermediate value small.
pub fn overlap(pa: Position, ra: Radius, pb: Position, rb: Radius) -> (r: bool)
    requires
        in_bounds(pa),
        in_bounds(pb),
        radius_ok(ra),
        radius_ok(rb),
    ensures
        r == circles_overlap(pa, ra.value as int, pb, rb.value as int),
{
    let dx: i64 = pa.x - pb.x;
    let dy: i64 = pa.y - pb.y;
    let sum: i64 = ra.value + rb.value;
    assert(0 <= dx * dx <= GRID_X * GRID_X) by (nonlinear_arith)
        requires
            -GRID_X <= dx <= GRID_X,
    ;
    assert(0 <= dy * dy <= GRID_Y * GRID_Y) by (nonlinear_arith)
        requires
            -GRID_Y <= dy <= GRID_Y,
    ;
    assert(0 <= sum * sum <= 2 * ENTITY_RADIUS * 2 * ENTITY_RADIUS) by (nonlinear_arith)
        requires
            0 <= sum <= 2 * ENTITY_RADIUS,
    ;
    dx * dx + dy * dy < sum * sum
}

} // verus!
