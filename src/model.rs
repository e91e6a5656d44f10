use vstd::prelude::*;

use crate::components::{
    circles_overlap, flag_home, in_bounds, moved, opposing, radius_ok, spawn_point, Melee, Position, Team,
    Velocity, MELEE_DURATION,
};
use crate::lunge::{lunge, slowed};
use crate::store::Row;
use hecs::Entity;

verus! {

/// A player row: every player component present, inside the arena.
pub open spec fn player_shape(r: Row) -> bool {
    &&& r.position is Some
    &&& in_bounds(r.position.unwrap())
    &&& r.velocity is Some
    &&& r.team is Some
    &&& r.radius is Some
    &&& radius_ok(r.radius.unwrap())
    &&& r.melee is Some
    &&& r.item is None
    &&& r.id is Some
}

/// A flag row of team `t`, inside the arena.
pub open spec fn flag_shape(r: Row, t: Team) -> bool {
    &&& r.position is Some
    &&& in_bounds(r.position.unwrap())
    &&& r.velocity is None
    &&& r.team == Some(t)
    &&& r.radius is Some
    &&& radius_ok(r.radius.unwrap())
    &&& r.melee is None
    &&& r.item is Some
    &&& r.id is None
}

pub open spec fn flag_for(t: Team, red: Entity, blue: Entity) -> Entity {
    match t {
        Team::Red => red,
        Team::Blue => blue,
    }
}

/// How the world is laid out: the two flags, the registered players and
/// nothing else, each player under its own identifier.
pub open spec fn layout(rows: Map<Entity, Row>, red: Entity, blue: Entity, pm: Seq<(String, Entity)>) -> bool {
    &&& rows.dom().finite()
    &&& rows.dom().len() == pm.len() + 2
    &&& red != blue
    &&& rows.contains_key(red)
    &&& flag_shape(rows[red], Team::Red)
    &&& rows.contains_key(blue)
    &&& flag_shape(rows[blue], Team::Blue)
    &&& forall|i: int|
        0 <= i < pm.len() ==> {
            &&& rows.contains_key(#[trigger] pm[i].1)
            &&& player_shape(rows[pm[i].1])
            &&& rows[pm[i].1].id == Some(pm[i].0@)
        }
    &&& forall|i: int, j: int|
        0 <= i < pm.len() && 0 <= j < pm.len() && i != j ==> #[trigger] pm[i].0@ != #[trigger] pm[j].0@
    &&& forall|e: Entity|
        #[trigger] rows.contains_key(e) ==> e == red || e == blue || exists|i: int|
            0 <= i < pm.len() && #[trigger] pm[i].1 == e
}

/// A held flag names a registered player of the opposing team.
pub open spec fn holder_ok(rows: Map<Entity, Row>, f: Entity, t: Team, pm: Seq<(String, Entity)>) -> bool {
    forall|h: Seq<char>|
        rows[f].item == Some(Some(h)) ==> exists|i: int|
            0 <= i < pm.len() && #[trigger] pm[i].0@ == h && rows[pm[i].1].team == Some(opposing(t))
}

pub open spec fn holders_ok(rows: Map<Entity, Row>, red: Entity, blue: Entity, pm: Seq<(String, Entity)>) -> bool {
    holder_ok(rows, red, Team::Red, pm) && holder_ok(rows, blue, Team::Blue, pm)
}

/// Every position lies inside the arena and every radius is in range.
pub open spec fn all_in_bounds(rows: Map<Entity, Row>) -> bool {
    forall|e: Entity| #[trigger] rows.contains_key(e) ==> {
        &&& (rows[e].position is Some ==> in_bounds(rows[e].position.unwrap()))
        &&& (rows[e].radius is Some ==> radius_ok(rows[e].radius.unwrap()))
    }
}

pub proof fn lemma_layout_in_bounds(rows: Map<Entity, Row>, red: Entity, blue: Entity, pm: Seq<(String, Entity)>)
    requires
        layout(rows, red, blue, pm),
    ensures
        all_in_bounds(rows),
{
    assert forall|e: Entity| #[trigger] rows.contains_key(e) implies {
        &&& (rows[e].position is Some ==> in_bounds(rows[e].position.unwrap()))
        &&& (rows[e].radius is Some ==> radius_ok(rows[e].radius.unwrap()))
    } by {
        if e != red && e != blue {
            let i = choose|i: int| 0 <= i < pm.len() && #[trigger] pm[i].1 == e;
        }
    }
}

/// A move command: ignored during a lunge, slowed while cooling down.
pub open spec fn move_command_row(r: Row, v: Velocity) -> Row {
    match r.melee {
        Some(m) => if m.active {
            r
        } else if m.cooldown > 0 {
            Row { velocity: Some(slowed(v)), ..r }
        } else {
            Row { velocity: Some(v), ..r }
        },
        None => r,
    }
}

/// A melee command: a moving player that is neither lunging nor cooling down
/// starts a lunge along its velocity.
pub open spec fn melee_command_row(r: Row) -> Row {
    match (r.velocity, r.melee) {
        (Some(v), Some(m)) => if (v.dx != 0 || v.dy != 0) && m.cooldown == 0 && !m.active {
            Row {
                melee: Some(Melee { active: true, cooldown: m.max_cooldown, max_cooldown: m.max_cooldown }),
                velocity: Some(lunge(v)),
                ..r
            }
        } else {
            r
        },
        _ => r,
    }
}

// ---- the four systems, on rows ----

/// Melee state after `dt` milliseconds.
pub open spec fn melee_after(m: Melee, dt: u32) -> Melee {
    if m.cooldown > 0 {
        let c: u32 = if m.cooldown > dt { (m.cooldown - dt) as u32 } else { 0 };
        Melee {
            active: m.active && !((c as int) < (m.max_cooldown as int) - (MELEE_DURATION as int)),
            cooldown: c,
            max_cooldown: m.max_cooldown,
        }
    } else {
        m
    }
}

/// Whether the lunge of `m` ends during the next `dt` milliseconds.
pub open spec fn lunge_ends(m: Melee, dt: u32) -> bool {
    m.active && !melee_after(m, dt).active
}

pub open spec fn melee_row(r: Row, dt: u32) -> Row {
    match r.melee {
        Some(m) => Row {
            melee: Some(melee_after(m, dt)),
            velocity: if lunge_ends(m, dt) && r.velocity is Some {
                Some(Velocity { dx: 0, dy: 0 })
            } else {
                r.velocity
            },
            ..r
        },
        None => r,
    }
}

pub open spec fn melee_rows(rows: Map<Entity, Row>, dt: u32) -> Map<Entity, Row> {
    rows.map_values(|r: Row| melee_row(r, dt))
}

pub open spec fn move_row(r: Row, dt: u32) -> Row {
    if r.position is Some && r.velocity is Some {
        Row { position: Some(moved(r.position.unwrap(), r.velocity.unwrap(), dt)), ..r }
    } else {
        r
    }
}

pub open spec fn move_rows(rows: Map<Entity, Row>, dt: u32) -> Map<Entity, Row> {
    rows.map_values(|r: Row| move_row(r, dt))
}

pub open spec fn rows_overlap(a: Row, b: Row) -> bool {
    &&& a.position is Some
    &&& a.radius is Some
    &&& b.position is Some
    &&& b.radius is Some
    &&& circles_overlap(
        a.position.unwrap(),
        a.radius.unwrap().value as int,
        b.position.unwrap(),
        b.radius.unwrap().value as int,
    )
}

/// `a` is lunging and touches `v`, a player of the other team.
pub open spec fn strikes(a: Row, v: Row) -> bool {
    &&& a.melee is Some
    &&& a.melee.unwrap().active
    &&& a.team is Some
    &&& v.team is Some
    &&& v.id is Some
    &&& a.team != v.team
    &&& rows_overlap(a, v)
}

pub open spec fn struck(rows: Map<Entity, Row>, v: Entity) -> bool {
    rows.contains_key(v) && exists|a: Entity| rows.contains_key(a) && #[trigger] strikes(rows[a], rows[v])
}

pub open spec fn respawn_row(r: Row) -> Row {
    Row {
        position: if r.position is Some && r.team is Some {
            Some(spawn_point(r.team.unwrap()))
        } else {
            r.position
        },
        velocity: if r.velocity is Some { Some(Velocity { dx: 0, dy: 0 }) } else { r.velocity },
        melee: match r.melee {
            Some(m) => Some(Melee { active: false, cooldown: 0, max_cooldown: m.max_cooldown }),
            None => None,
        },
        ..r
    }
}

/// A struck player carries the flag `f`.
pub open spec fn carrier_struck(rows: Map<Entity, Row>, f: Entity) -> bool {
    exists|v: Entity| #[trigger] struck(rows, v) && rows[f].item == Some(Some(rows[v].id.unwrap()))
}

pub open spec fn struck_carrier(rows: Map<Entity, Row>, f: Entity) -> Entity {
    choose|v: Entity| #[trigger] struck(rows, v) && rows[f].item == Some(Some(rows[v].id.unwrap()))
}

/// The flag is dropped where its carrier stood.
pub open spec fn dropped_row(r: Row, at: Option<Position>) -> Row {
    Row {
        item: Some(None),
        position: if r.position is Some && at is Some { at } else { r.position },
        ..r
    }
}

/// The flag `f` is dropped at `at` if `holder` carries it.
pub open spec fn release(rows: Map<Entity, Row>, f: Entity, holder: Seq<char>, at: Option<Position>) -> Map<Entity, Row> {
    if rows[f].item == Some(Some(holder)) {
        rows.insert(f, dropped_row(rows[f], at))
    } else {
        rows
    }
}

/// Both flags are dropped at `at` where `holder` carries them.
pub open spec fn release_both(rows: Map<Entity, Row>, red: Entity, blue: Entity, holder: Seq<char>, at: Option<Position>) -> Map<Entity, Row> {
    release(release(rows, red, holder, at), blue, holder, at)
}

/// Identifiers of live entities are unique.
pub proof fn lemma_ids_unique(rows: Map<Entity, Row>, red: Entity, blue: Entity, pm: Seq<(String, Entity)>, a: Entity, b: Entity)
    requires
        layout(rows, red, blue, pm),
        rows.contains_key(a),
        rows.contains_key(b),
        rows[a].id is Some,
        rows[a].id == rows[b].id,
    ensures
        a == b,
{
    let i = choose|i: int| 0 <= i < pm.len() && #[trigger] pm[i].1 == a;
    let j = choose|j: int| 0 <= j < pm.len() && #[trigger] pm[j].1 == b;
    assert(pm[i].0@ == pm[j].0@);
}

/// The collision step carried out for the struck players `vs` only.
pub open spec fn collision_for(rows: Map<Entity, Row>, vs: Seq<Entity>) -> Map<Entity, Row> {
    Map::new(
        |e: Entity| rows.contains_key(e),
        |e: Entity|
            if vs.contains(e) {
                respawn_row(rows[e])
            } else if rows[e].item is Some && exists|k: int|
                0 <= k < vs.len() && rows[e].item == Some(Some(#[trigger] rows[vs[k]].id.unwrap())) {
                let k = choose|k: int|
                    0 <= k < vs.len() && rows[e].item == Some(Some(#[trigger] rows[vs[k]].id.unwrap()));
                dropped_row(rows[e], rows[vs[k]].position)
            } else {
                rows[e]
            },
    )
}

/// Struck players respawn; a flag that one of them carried is dropped where
/// the carrier stood.
pub open spec fn collision_rows(rows: Map<Entity, Row>) -> Map<Entity, Row> {
    Map::new(
        |e: Entity| rows.contains_key(e),
        |e: Entity|
            if struck(rows, e) {
                respawn_row(rows[e])
            } else if rows[e].item is Some && carrier_struck(rows, e) {
                dropped_row(rows[e], rows[struck_carrier(rows, e)].position)
            } else {
                rows[e]
            },
    )
}

#[derive(Clone, Copy, Debug, PartialEq, Eq, Structural)]
pub struct Score {
    pub red: u32,
    pub blue: u32,
}

pub open spec fn bump(s: u32) -> u32 {
    if s < u32::MAX { (s + 1) as u32 } else { s }
}

pub open spec fn scored(s: Score, t: Team) -> Score {
    match t {
        Team::Red => Score { red: bump(s.red), ..s },
        Team::Blue => Score { blue: bump(s.blue), ..s },
    }
}

/// The flag step for the player `e`: it picks up the enemy flag when that is
/// free and within reach; a carried flag follows its carrier and, once the
/// carrier touches its own flag, scores and goes home.
pub open spec fn flag_turn(
    rows: Map<Entity, Row>,
    score: Score,
    e: Entity,
    red: Entity,
    blue: Entity,
) -> (Map<Entity, Row>, Score) {
    let p = rows[e];
    let t = p.team.unwrap();
    let f = flag_for(opposing(t), red, blue);
    let o = flag_for(t, red, blue);
    let fr = rows[f];
    let me = Some(p.id.unwrap());
    let holder = if fr.item == Some(None::<Seq<char>>) && rows_overlap(p, fr) {
        me
    } else {
        fr.item.unwrap()
    };
    if holder == me {
        if rows_overlap(p, rows[o]) {
            (
                rows.insert(
                    f,
                    Row { item: Some(None), position: Some(flag_home(opposing(t))), ..fr },
                ),
                scored(score, t),
            )
        } else {
            (rows.insert(f, Row { item: Some(holder), position: p.position, ..fr }), score)
        }
    } else {
        (rows, score)
    }
}

/// The flag step for each player of `players`, in order.
pub open spec fn flag_pass(
    rows: Map<Entity, Row>,
    score: Score,
    players: Seq<Entity>,
    red: Entity,
    blue: Entity,
) -> (Map<Entity, Row>, Score)
    decreases players.len(),
{
    if players.len() == 0 {
        (rows, score)
    } else {
        let prev = flag_pass(rows, score, players.drop_last(), red, blue);
        flag_turn(prev.0, prev.1, players.last(), red, blue)
    }
}

pub open spec fn entities_of(pm: Seq<(String, Entity)>) -> Seq<Entity> {
    pm.map_values(|p: (String, Entity)| p.1)
}

} // verus!

verus! {

/// Rewriting a flag's row with another flag row of the same team keeps the
/// layout.
pub proof fn lemma_flag_rewrite(
    rows: Map<Entity, Row>,
    red: Entity,
    blue: Entity,
    pm: Seq<(String, Entity)>,
    t: Team,
    r: Row,
)
    requires
        layout(rows, red, blue, pm),
        flag_shape(r, t),
    ensures
        layout(rows.insert(flag_for(t, red, blue), r), red, blue, pm),
{
    let f = flag_for(t, red, blue);
    let rows2 = rows.insert(f, r);
    assert(rows2.dom() == rows.dom());
    assert forall|i: int| 0 <= i < pm.len() implies {
        &&& rows2.contains_key(#[trigger] pm[i].1)
        &&& player_shape(rows2[pm[i].1])
        &&& rows2[pm[i].1].id == Some(pm[i].0@)
    } by {
        assert(pm[i].1 != f);
    }
}

/// One flag turn of a registered player keeps the layout and the holders.
pub proof fn lemma_flag_turn_keeps(
    rows: Map<Entity, Row>,
    score: Score,
    red: Entity,
    blue: Entity,
    pm: Seq<(String, Entity)>,
    i: int,
)
    requires
        layout(rows, red, blue, pm),
        holders_ok(rows, red, blue, pm),
        0 <= i < pm.len(),
    ensures
        layout(flag_turn(rows, score, pm[i].1, red, blue).0, red, blue, pm),
        holders_ok(flag_turn(rows, score, pm[i].1, red, blue).0, red, blue, pm),
{
    let e = pm[i].1;
    let p = rows[e];
    let t = p.team.unwrap();
    let ft = opposing(t);
    let f = flag_for(ft, red, blue);
    let out = flag_turn(rows, score, e, red, blue).0;
    assert(e != red && e != blue);
    if out != rows {
        let r = out[f];
        assert(flag_shape(r, ft));
        lemma_flag_rewrite(rows, red, blue, pm, ft, r);
        assert(out == rows.insert(f, r));
        assert forall|h: Seq<char>| out[f].item == Some(Some(h)) implies exists|k: int|
            0 <= k < pm.len() && #[trigger] pm[k].0@ == h && out[pm[k].1].team == Some(opposing(ft)) by {
            assert(pm[i].0@ == h);
            assert(out[pm[i].1] == rows[pm[i].1]);
        }
        let g = flag_for(t, red, blue);
        assert(g != f);
        assert forall|h: Seq<char>| out[g].item == Some(Some(h)) implies exists|k: int|
            0 <= k < pm.len() && #[trigger] pm[k].0@ == h && out[pm[k].1].team == Some(opposing(t)) by {
            assert(out[g] == rows[g]);
            let k = choose|k: int| 0 <= k < pm.len() && #[trigger] pm[k].0@ == h && rows[pm[k].1].team == Some(opposing(t));
            assert(pm[k].1 != f);
        }
        if t == Team::Red {
            assert(holder_ok(out, blue, Team::Blue, pm));
            assert(holder_ok(out, red, Team::Red, pm));
        } else {
            assert(holder_ok(out, red, Team::Red, pm));
            assert(holder_ok(out, blue, Team::Blue, pm));
        }
    }
}

} // verus!

verus! {

/// A rewrite that keeps every row's kind, identifier and team, and that at
/// most releases a flag, keeps the layout and the holders.
pub proof fn lemma_keeps(
    rows: Map<Entity, Row>,
    rows2: Map<Entity, Row>,
    red: Entity,
    blue: Entity,
    pm: Seq<(String, Entity)>,
)
    requires
        layout(rows, red, blue, pm),
        holders_ok(rows, red, blue, pm),
        rows2.dom() == rows.dom(),
        forall|i: int| 0 <= i < pm.len() ==> {
            &&& player_shape(rows2[#[trigger] pm[i].1])
            &&& rows2[pm[i].1].id == rows[pm[i].1].id
            &&& rows2[pm[i].1].team == rows[pm[i].1].team
        },
        flag_shape(rows2[red], Team::Red),
        flag_shape(rows2[blue], Team::Blue),
        rows2[red].item == rows[red].item || rows2[red].item == Some(None::<Seq<char>>),
        rows2[blue].item == rows[blue].item || rows2[blue].item == Some(None::<Seq<char>>),
    ensures
        layout(rows2, red, blue, pm),
        holders_ok(rows2, red, blue, pm),
{
    assert forall|i: int| 0 <= i < pm.len() implies {
        &&& rows2.contains_key(#[trigger] pm[i].1)
        &&& player_shape(rows2[pm[i].1])
        &&& rows2[pm[i].1].id == Some(pm[i].0@)
    } by {
        assert(rows.contains_key(pm[i].1));
    }
    assert forall|e: Entity| #[trigger] rows2.contains_key(e) implies e == red || e == blue || exists|i: int|
        0 <= i < pm.len() && #[trigger] pm[i].1 == e by {
        assert(rows.contains_key(e));
    }
    assert forall|h: Seq<char>| rows2[red].item == Some(Some(h)) implies exists|k: int|
        0 <= k < pm.len() && #[trigger] pm[k].0@ == h && rows2[pm[k].1].team == Some(opposing(Team::Red)) by {
        let k = choose|k: int| 0 <= k < pm.len() && #[trigger] pm[k].0@ == h && rows[pm[k].1].team == Some(opposing(Team::Red));
    }
    assert forall|h: Seq<char>| rows2[blue].item == Some(Some(h)) implies exists|k: int|
        0 <= k < pm.len() && #[trigger] pm[k].0@ == h && rows2[pm[k].1].team == Some(opposing(Team::Blue)) by {
        let k = choose|k: int| 0 <= k < pm.len() && #[trigger] pm[k].0@ == h && rows[pm[k].1].team == Some(opposing(Team::Blue));
    }
}

pub proof fn lemma_melee_keeps(rows: Map<Entity, Row>, dt: u32, red: Entity, blue: Entity, pm: Seq<(String, Entity)>)
    requires
        layout(rows, red, blue, pm),
        holders_ok(rows, red, blue, pm),
    ensures
        layout(melee_rows(rows, dt), red, blue, pm),
        holders_ok(melee_rows(rows, dt), red, blue, pm),
{
    let rows2 = melee_rows(rows, dt);
    assert(rows2.dom() =~= rows.dom());
    assert forall|i: int| 0 <= i < pm.len() implies {
        &&& player_shape(rows2[#[trigger] pm[i].1])
        &&& rows2[pm[i].1].id == rows[pm[i].1].id
        &&& rows2[pm[i].1].team == rows[pm[i].1].team
    } by {
        assert(rows.contains_key(pm[i].1));
    }
    lemma_keeps(rows, rows2, red, blue, pm);
}

pub proof fn lemma_moved_in_bounds(p: Position, v: Velocity, dt: u32)
    ensures
        in_bounds(moved(p, v, dt)),
{
}

pub proof fn lemma_move_keeps(rows: Map<Entity, Row>, dt: u32, red: Entity, blue: Entity, pm: Seq<(String, Entity)>)
    requires
        layout(rows, red, blue, pm),
        holders_ok(rows, red, blue, pm),
    ensures
        layout(move_rows(rows, dt), red, blue, pm),
        holders_ok(move_rows(rows, dt), red, blue, pm),
{
    let rows2 = move_rows(rows, dt);
    assert(rows2.dom() =~= rows.dom());
    assert forall|i: int| 0 <= i < pm.len() implies {
        &&& player_shape(rows2[#[trigger] pm[i].1])
        &&& rows2[pm[i].1].id == rows[pm[i].1].id
        &&& rows2[pm[i].1].team == rows[pm[i].1].team
    } by {
        let r = rows[pm[i].1];
        assert(rows.contains_key(pm[i].1));
        lemma_moved_in_bounds(r.position.unwrap(), r.velocity.unwrap(), dt);
    }
    lemma_keeps(rows, rows2, red, blue, pm);
}

pub proof fn lemma_collision_keeps(rows: Map<Entity, Row>, red: Entity, blue: Entity, pm: Seq<(String, Entity)>)
    requires
        layout(rows, red, blue, pm),
        holders_ok(rows, red, blue, pm),
    ensures
        layout(collision_rows(rows), red, blue, pm),
        holders_ok(collision_rows(rows), red, blue, pm),
{
    let rows2 = collision_rows(rows);
    lemma_layout_in_bounds(rows, red, blue, pm);
    assert(rows2.dom() =~= rows.dom());
    assert forall|i: int| 0 <= i < pm.len() implies {
        &&& player_shape(rows2[#[trigger] pm[i].1])
        &&& rows2[pm[i].1].id == rows[pm[i].1].id
        &&& rows2[pm[i].1].team == rows[pm[i].1].team
    } by {
        assert(rows.contains_key(pm[i].1));
    }
    assert(!struck(rows, red));
    assert(!struck(rows, blue));
    if carrier_struck(rows, red) {
        let c = struck_carrier(rows, red);
        assert(rows.contains_key(c));
    }
    if carrier_struck(rows, blue) {
        let c = struck_carrier(rows, blue);
        assert(rows.contains_key(c));
    }
    lemma_keeps(rows, rows2, red, blue, pm);
}

} // verus!
