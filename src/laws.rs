use vstd::prelude::*;

use crate::components::{flag_home, opposing, in_bounds, spawn_point, Melee, Team, Velocity, MELEE_DURATION, MELEE_SPEED};
use crate::game::{created, stepped, Game};
use crate::lunge::{is_root, lemma_root_unique, lunge, root, scaled_norm_sq};
use crate::model::{flag_for, flag_turn, rows_overlap, scored, Score,
    all_in_bounds, collision_rows, lemma_ids_unique, lemma_layout_in_bounds, melee_after,
    melee_command_row, melee_row, move_rows, struck, carrier_struck, struck_carrier,
    };
use crate::store::Row;
use hecs::Entity;

verus! {

/// Movement leaves every entity that has a position and a velocity inside
/// the arena, wherever it started and however fast it moves.
pub proof fn law_movement_stays_in_arena(rows: Map<Entity, Row>, dt: u32, e: Entity)
    requires
        rows.contains_key(e),
        rows[e].position is Some,
        rows[e].velocity is Some,
    ensures
        in_bounds(move_rows(rows, dt)[e].position.unwrap()),
{
}

/// After every tick, every entity with a position lies inside the arena.
pub proof fn law_tick_stays_in_arena(pre: Game, post: Game, dt: u32)
    requires
        stepped(pre, post, dt),
    ensures
        all_in_bounds(post.rows()),
{
    lemma_layout_in_bounds(post.rows(), post.red_flag, post.blue_flag, post.player_map@);
}

/// At most one live entity carries a given player identifier.
pub proof fn law_one_entity_per_id(g: Game, a: Entity, b: Entity)
    requires
        g.wf(),
        g.rows().contains_key(a),
        g.rows().contains_key(b),
        g.rows()[a].id is Some,
        g.rows()[a].id == g.rows()[b].id,
    ensures
        a == b,
{
    lemma_ids_unique(g.rows(), g.red_flag, g.blue_flag, g.player_map@, a, b);
}

/// Adding an identifier that is already registered replaces its entity: the
/// old entity is despawned (its handle can only come back as the new one),
/// and the new entity is the only live one with that identifier.
pub proof fn law_add_replaces(pre: Game, post: Game, id: Seq<char>, team: Team, e: Entity, i: int, x: Entity)
    requires
        pre.wf(),
        post.wf(),
        created(pre, post, id, team, e),
        0 <= i < pre.player_map@.len(),
        pre.id_at(i) == id,
        post.rows().contains_key(x),
        post.rows()[x].id == Some(id),
    ensures
        pre.entity_at(i) == e || !post.rows().contains_key(pre.entity_at(i)),
        x == e,
{
    lemma_ids_unique(post.rows(), post.red_flag, post.blue_flag, post.player_map@, x, e);
}

/// A melee command from a stationary player changes nothing: no lunge
/// starts, the cooldown and the velocity stay as they were.
pub proof fn law_melee_when_stationary(r: Row)
    requires
        r.velocity == Some(Velocity { dx: 0, dy: 0 }),
    ensures
        melee_command_row(r) == r,
{
}

/// A melee command from a moving player with no cooldown and no lunge under
/// way starts a lunge: active, full cooldown, lunge velocity along the
/// player's velocity.
pub proof fn law_melee_when_moving(r: Row, v: Velocity, m: Melee)
    requires
        r.velocity == Some(v),
        v.dx != 0 || v.dy != 0,
        r.melee == Some(m),
        m.cooldown == 0,
        !m.active,
    ensures
        melee_command_row(r).melee == Some(Melee { active: true, cooldown: m.max_cooldown, max_cooldown: m.max_cooldown }),
        melee_command_row(r).velocity == Some(lunge(v)),
{
}

/// Along an axis the lunge is exact: full lunge speed in the direction of
/// motion.
pub proof fn law_lunge_along_axis(v: Velocity)
    requires
        v.dx != 0,
        v.dy == 0,
    ensures
        lunge(v) == (Velocity { dx: if v.dx > 0 { MELEE_SPEED as i32 } else { -MELEE_SPEED as i32 }, dy: 0 }),
{
    let a: int = if v.dx > 0 { v.dx as int } else { -(v.dx as int) };
    let len = a * 1024;
    let n = scaled_norm_sq(v);
    assert(n == len * len) by (nonlinear_arith)
        requires
            n == (v.dx * v.dx + v.dy * v.dy) * (1024 * 1024),
            v.dy == 0,
            a == v.dx || a == -v.dx,
            len == a * 1024,
    ;
    assert(is_root(n, len)) by (nonlinear_arith)
        requires
            n == len * len,
            len >= 0,
    ;
    assert(is_root(n, root(n)));
    lemma_root_unique(n, root(n), len);
    assert(v.dx * 1024 * 60000 == (if v.dx > 0 { len * 60000 } else { -(len * 60000) })) by (nonlinear_arith)
        requires
            len == a * 1024,
            a == (if v.dx > 0 { v.dx as int } else { -(v.dx as int) }),
    ;
    assert(len * 60000 / len == 60000) by (nonlinear_arith)
        requires
            len > 0,
    ;
    assert((0int * 1024 * 60000) / len == 0) by (nonlinear_arith)
        requires
            len > 0,
    ;
}

/// While the lunge lasts, the melee system only counts down: the player
/// keeps lunging at the same velocity.
pub proof fn law_lunge_continues(r: Row, m: Melee, dt: u32)
    requires
        r.melee == Some(m),
        m.active,
        m.cooldown > dt,
        m.cooldown - dt >= m.max_cooldown - MELEE_DURATION,
    ensures
        melee_row(r, dt).melee == Some(Melee { active: true, cooldown: (m.cooldown - dt) as u32, max_cooldown: m.max_cooldown }),
        melee_row(r, dt).velocity == r.velocity,
{
}

/// Once the lunge has lasted its duration, the melee system ends it and the
/// player stops dead.
pub proof fn law_lunge_ends(r: Row, m: Melee, dt: u32)
    requires
        r.melee == Some(m),
        r.velocity is Some,
        m.active,
        m.cooldown > 0,
        (melee_after(m, dt).cooldown as int) < m.max_cooldown - MELEE_DURATION,
    ensures
        !melee_row(r, dt).melee.unwrap().active,
        melee_row(r, dt).velocity == Some(Velocity { dx: 0, dy: 0 }),
{
}

/// The melee system run `n` times on one row, `dt` milliseconds each.
pub open spec fn melee_repeat(r: Row, dt: u32, n: nat) -> Row
    decreases n,
{
    if n == 0 {
        r
    } else {
        melee_row(melee_repeat(r, dt, (n - 1) as nat), dt)
    }
}

proof fn lemma_lunge_progress(r: Row, m: Melee, dt: u32, k: nat)
    requires
        r.melee == Some(m),
        r.velocity is Some,
        m.active,
        m.cooldown == m.max_cooldown,
        m.max_cooldown > MELEE_DURATION,
        dt > 0,
    ensures
        ({
            let q = melee_repeat(r, dt, k);
            &&& q.velocity is Some
            &&& q.melee is Some
            &&& q.melee.unwrap().max_cooldown == m.max_cooldown
            &&& if k * dt <= MELEE_DURATION {
                &&& q.melee.unwrap().active
                &&& q.melee.unwrap().cooldown == m.max_cooldown - k * dt
                &&& q.velocity == r.velocity
            } else {
                &&& !q.melee.unwrap().active
                &&& q.velocity == Some(Velocity { dx: 0, dy: 0 })
            }
        }),
    decreases k,
{
    if k > 0 {
        let j = (k - 1) as nat;
        lemma_lunge_progress(r, m, dt, j);
        assert(k * dt == j * dt + dt) by (nonlinear_arith)
            requires
                k == j + 1,
        ;
        assert(j * dt >= 0) by (nonlinear_arith);
    }
}

/// A lunge ends once it has lasted its duration: from the command on, after
/// ticks that add up to more than `MELEE_DURATION`, the player is no longer
/// lunging and stands still.
pub proof fn law_lunge_over_after_duration(r: Row, m: Melee, dt: u32, n: nat)
    requires
        r.melee == Some(m),
        r.velocity is Some,
        m.active,
        m.cooldown == m.max_cooldown,
        m.max_cooldown > MELEE_DURATION,
        dt > 0,
        n * dt > MELEE_DURATION,
    ensures
        !melee_repeat(r, dt, n).melee.unwrap().active,
        melee_repeat(r, dt, n).velocity == Some(Velocity { dx: 0, dy: 0 }),
{
    lemma_lunge_progress(r, m, dt, n);
}

/// A player struck while carrying a flag respawns at its team's spawn point,
/// stopped, with its melee state cleared; the flag is dropped where it stood.
pub proof fn law_struck_carrier_respawns(g: Game, v: Entity, f: Entity)
    requires
        g.wf(),
        struck(g.rows(), v),
        f == g.red_flag || f == g.blue_flag,
        g.rows()[f].item == Some(Some(g.rows()[v].id.unwrap())),
    ensures
        collision_rows(g.rows())[v].position == Some(spawn_point(g.rows()[v].team.unwrap())),
        collision_rows(g.rows())[v].velocity == Some(Velocity { dx: 0, dy: 0 }),
        collision_rows(g.rows())[v].melee == Some(Melee { active: false, cooldown: 0, max_cooldown: g.rows()[v].melee.unwrap().max_cooldown }),
        collision_rows(g.rows())[f].item == Some(None::<Seq<char>>),
        collision_rows(g.rows())[f].position == g.rows()[v].position,
{
    let rows = g.rows();
    let red = g.red_flag;
    let blue = g.blue_flag;
    let pm = g.player_map@;
    assert(v != red && v != blue) by {
        if v == red || v == blue {
            assert(rows[v].id is None);
        }
    }
    let i = choose|i: int| 0 <= i < pm.len() && #[trigger] pm[i].1 == v;
    assert(!struck(rows, f));
    assert(carrier_struck(rows, f));
    let c = struck_carrier(rows, f);
    lemma_ids_unique(rows, red, blue, pm, c, v);
}

/// A player touching the free enemy flag picks it up: the flag names the
/// player as its holder and stands where the player stands.
pub proof fn law_pickup(rows: Map<Entity, Row>, score: Score, e: Entity, red: Entity, blue: Entity)
    requires
        rows[e].team is Some,
        rows[e].id is Some,
        rows[flag_for(opposing(rows[e].team.unwrap()), red, blue)].item == Some(None::<Seq<char>>),
        rows_overlap(rows[e], rows[flag_for(opposing(rows[e].team.unwrap()), red, blue)]),
        !rows_overlap(rows[e], rows[flag_for(rows[e].team.unwrap(), red, blue)]),
    ensures
        ({
            let f = flag_for(opposing(rows[e].team.unwrap()), red, blue);
            let out = flag_turn(rows, score, e, red, blue);
            &&& out.0[f].item == Some(rows[e].id)
            &&& out.0[f].position == rows[e].position
            &&& out.1 == score
        }),
{
}

/// A carrier touching its own team's flag scores exactly one point for its
/// team; the carried flag is freed and goes back to its home.
pub proof fn law_capture(rows: Map<Entity, Row>, score: Score, e: Entity, red: Entity, blue: Entity)
    requires
        rows[e].team is Some,
        rows[e].id is Some,
        rows[flag_for(opposing(rows[e].team.unwrap()), red, blue)].item == Some(rows[e].id),
        rows_overlap(rows[e], rows[flag_for(rows[e].team.unwrap(), red, blue)]),
    ensures
        ({
            let t = rows[e].team.unwrap();
            let f = flag_for(opposing(t), red, blue);
            let out = flag_turn(rows, score, e, red, blue);
            &&& out.0[f].item == Some(None::<Seq<char>>)
            &&& out.0[f].position == Some(flag_home(opposing(t)))
            &&& out.1 == scored(score, t)
        }),
{
}

} // verus!
