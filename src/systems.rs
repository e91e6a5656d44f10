use vstd::prelude::*;

use crate::components::{
    home_position, in_bounds, other_team, overlap, spawn_position, move_within_arena, Item, Melee,
    Team, Velocity, MELEE_DURATION,
};
use crate::game::{stepped, Game};
use crate::model::{
    all_in_bounds, carrier_struck, collision_for, collision_rows, entities_of, flag_pass,
    flag_shape, flag_turn, holders_ok, layout, melee_row, melee_rows, move_row, move_rows,
    player_shape, release_both, respawn_row, rows_overlap, strikes, struck, struck_carrier,
};
use crate::store::{
    get_id, get_item, get_melee, get_position, get_radius, get_team, get_velocity, live_entities,
    set_item, set_melee, set_position, set_velocity, Row,
};
use hecs::Entity;

verus! {

/// The systems that advance the game by one tick, in their fixed order:
/// melee, movement, collision and respawn, flags.
impl Game {
    /// Counts down the melee cooldown of `e` by `dt`; a lunge that ends stops
    /// the player.
    fn tick_melee_of(&mut self, e: Entity, dt: u32)
        requires
            old(self).rows().contains_key(e),
        ensures
            final(self).red_flag == old(self).red_flag,
            final(self).blue_flag == old(self).blue_flag,
            final(self).player_map == old(self).player_map,
            final(self).score == old(self).score,
            final(self).rows() == old(self).rows().insert(e, melee_row(old(self).rows()[e], dt)),
    {
        match get_melee(&self.world, e) {
            Some(m) => {
                if m.cooldown > 0 {
                    let c: u32 = if m.cooldown > dt { m.cooldown - dt } else { 0 };
                    let ends = m.active && (c as i64) < (m.max_cooldown as i64) - (MELEE_DURATION as i64);
                    set_melee(&mut self.world, e, Melee { active: m.active && !ends, cooldown: c, max_cooldown: m.max_cooldown });
                    if ends {
                        set_velocity(&mut self.world, e, Velocity { dx: 0, dy: 0 });
                    }
                }
                assert(self.rows() =~= old(self).rows().insert(e, melee_row(old(self).rows()[e], dt)));
            },
            None => {
                assert(self.rows() =~= old(self).rows().insert(e, melee_row(old(self).rows()[e], dt)));
            },
        }
    }

    /// Melee: every cooldown counts down by `dt`; lunges that end stop their
    /// player.
    fn step_melee_system(&mut self, dt: u32)
        ensures
            final(self).red_flag == old(self).red_flag,
            final(self).blue_flag == old(self).blue_flag,
            final(self).player_map == old(self).player_map,
            final(self).score == old(self).score,
            final(self).rows() == melee_rows(old(self).rows(), dt),
    {
        let ghost rows0 = self.rows();
        let ents = live_entities(&self.world);
        let mut i: usize = 0;
        while i < ents.len()
            invariant
                ents@.no_duplicates(),
                ents@.to_set() == rows0.dom(),
                self.rows().dom() == rows0.dom(),
                i <= ents@.len(),
                forall|k: int| 0 <= k < i ==> self.rows()[#[trigger] ents@[k]] == melee_row(rows0[ents@[k]], dt),
                forall|k: int| i <= k < ents@.len() ==> self.rows()[#[trigger] ents@[k]] == rows0[ents@[k]],
                self.red_flag == old(self).red_flag,
                self.blue_flag == old(self).blue_flag,
                self.player_map == old(self).player_map,
                self.score == old(self).score,
            decreases ents@.len() - i,
        {
            let e = ents[i];
            assert(ents@.to_set().contains(ents@[i as int]));
            self.tick_melee_of(e, dt);
            proof {
                assert forall|k: int| 0 <= k < ents@.len() && k != i implies ents@[k] != ents@[i as int] by {}
            }
            i = i + 1;
        }
        proof {
            assert forall|e: Entity| rows0.contains_key(e) implies self.rows()[e] == melee_row(rows0[e], dt) by {
                assert(ents@.to_set().contains(e));
                let k = choose|k: int| 0 <= k < ents@.len() && ents@[k] == e;
            }
        }
        assert(self.rows() =~= melee_rows(rows0, dt));
    }

    /// Moves `e` by its velocity for `dt` and clamps it into the arena.
    fn move_one(&mut self, e: Entity, dt: u32)
        requires
            old(self).rows().contains_key(e),
            all_in_bounds(old(self).rows()),
        ensures
            final(self).red_flag == old(self).red_flag,
            final(self).blue_flag == old(self).blue_flag,
            final(self).player_map == old(self).player_map,
            final(self).score == old(self).score,
            final(self).rows() == old(self).rows().insert(e, move_row(old(self).rows()[e], dt)),
    {
        let p = get_position(&self.world, e);
        let v = get_velocity(&self.world, e);
        match (p, v) {
            (Some(p), Some(v)) => {
                let np = move_within_arena(p, v, dt);
                set_position(&mut self.world, e, np);
            },
            _ => {},
        }
        assert(self.rows() =~= old(self).rows().insert(e, move_row(old(self).rows()[e], dt)));
    }

    /// Movement: every entity with a velocity moves by it for `dt`, clamped
    /// into the arena.
    fn step_movement_system(&mut self, dt: u32)
        requires
            all_in_bounds(old(self).rows()),
        ensures
            final(self).red_flag == old(self).red_flag,
            final(self).blue_flag == old(self).blue_flag,
            final(self).player_map == old(self).player_map,
            final(self).score == old(self).score,
            final(self).rows() == move_rows(old(self).rows(), dt),
    {
        let ghost rows0 = self.rows();
        let ents = live_entities(&self.world);
        let mut i: usize = 0;
        while i < ents.len()
            invariant
                ents@.no_duplicates(),
                ents@.to_set() == rows0.dom(),
                self.rows().dom() == rows0.dom(),
                all_in_bounds(rows0),
                i <= ents@.len(),
                forall|k: int| 0 <= k < i ==> self.rows()[#[trigger] ents@[k]] == move_row(rows0[ents@[k]], dt),
                forall|k: int| i <= k < ents@.len() ==> self.rows()[#[trigger] ents@[k]] == rows0[ents@[k]],
                self.red_flag == old(self).red_flag,
                self.blue_flag == old(self).blue_flag,
                self.player_map == old(self).player_map,
                self.score == old(self).score,
            decreases ents@.len() - i,
        {
            let e = ents[i];
            assert(ents@.to_set().contains(ents@[i as int]));
            proof {
                assert forall|x: Entity| #[trigger] self.rows().contains_key(x) implies {
                    &&& (self.rows()[x].position is Some ==> in_bounds(self.rows()[x].position.unwrap()))
                    &&& (self.rows()[x].radius is Some ==> crate::components::radius_ok(self.rows()[x].radius.unwrap()))
                } by {
                    assert(ents@.to_set().contains(x));
                    let k = choose|k: int| 0 <= k < ents@.len() && ents@[k] == x;
                    assert(rows0.contains_key(x));
                }
            }
            self.move_one(e, dt);
            proof {
                assert forall|k: int| 0 <= k < ents@.len() && k != i implies ents@[k] != ents@[i as int] by {}
            }
            i = i + 1;
        }
        proof {
            assert forall|e: Entity| rows0.contains_key(e) implies self.rows()[e] == move_row(rows0[e], dt) by {
                assert(ents@.to_set().contains(e));
                let k = choose|k: int| 0 <= k < ents@.len() && ents@[k] == e;
            }
        }
        assert(self.rows() =~= move_rows(rows0, dt));
    }

    /// Whether `a` strikes `v` (see `strikes`).
    fn strikes_now(&self, a: Entity, v: Entity) -> (r: bool)
        requires
            self.rows().contains_key(a),
            self.rows().contains_key(v),
            all_in_bounds(self.rows()),
        ensures
            r == strikes(self.rows()[a], self.rows()[v]),
    {
        let active = match get_melee(&self.world, a) {
            Some(m) => m.active,
            None => false,
        };
        if !active {
            return false;
        }
        let differ = match (get_team(&self.world, a), get_team(&self.world, v)) {
            (Some(ta), Some(tv)) => ta != tv,
            _ => false,
        };
        if !differ {
            return false;
        }
        if get_id(&self.world, v).is_none() {
            return false;
        }
        self.touching(a, v)
    }

    /// Whether the circles of `a` and `b` overlap (see `rows_overlap`).
    fn touching(&self, a: Entity, b: Entity) -> (r: bool)
        requires
            self.rows().contains_key(a),
            self.rows().contains_key(b),
            all_in_bounds(self.rows()),
        ensures
            r == rows_overlap(self.rows()[a], self.rows()[b]),
    {
        match (
            get_position(&self.world, a),
            get_radius(&self.world, a),
            get_position(&self.world, b),
            get_radius(&self.world, b),
        ) {
            (Some(pa), Some(ra), Some(pb), Some(rb)) => overlap(pa, ra, pb, rb),
            _ => false,
        }
    }

    /// Whether some live entity strikes `v`.
    fn is_struck(&self, ents: &Vec<Entity>, v: Entity) -> (r: bool)
        requires
            ents@.to_set() == self.rows().dom(),
            self.rows().contains_key(v),
            all_in_bounds(self.rows()),
        ensures
            r == struck(self.rows(), v),
    {
        let mut i: usize = 0;
        while i < ents.len()
            invariant
                ents@.to_set() == self.rows().dom(),
                self.rows().contains_key(v),
                all_in_bounds(self.rows()),
                i <= ents@.len(),
                forall|k: int| 0 <= k < i ==> !strikes(self.rows()[#[trigger] ents@[k]], self.rows()[v]),
            decreases ents@.len() - i,
        {
            assert(ents@.to_set().contains(ents@[i as int]));
            if self.strikes_now(ents[i], v) {
                return true;
            }
            i = i + 1;
        }
        proof {
            assert forall|a: Entity| self.rows().contains_key(a) implies !#[trigger] strikes(self.rows()[a], self.rows()[v]) by {
                assert(ents@.to_set().contains(a));
                let k = choose|k: int| 0 <= k < ents@.len() && ents@[k] == a;
            }
        }
        false
    }

    /// Sends `player` back to its team's spawn point, stopped, with its melee
    /// state cleared.
    fn respawn_player(&mut self, player: Entity)
        requires
            old(self).rows().contains_key(player),
        ensures
            final(self).red_flag == old(self).red_flag,
            final(self).blue_flag == old(self).blue_flag,
            final(self).player_map == old(self).player_map,
            final(self).score == old(self).score,
            final(self).rows() == old(self).rows().insert(player, respawn_row(old(self).rows()[player])),
    {
        match get_team(&self.world, player) {
            Some(t) => {
                set_position(&mut self.world, player, spawn_position(t));
            },
            None => {},
        }
        set_velocity(&mut self.world, player, Velocity { dx: 0, dy: 0 });
        match get_melee(&self.world, player) {
            Some(m) => {
                set_melee(&mut self.world, player, Melee { active: false, cooldown: 0, max_cooldown: m.max_cooldown });
            },
            None => {},
        }
        assert(self.rows() =~= old(self).rows().insert(player, respawn_row(old(self).rows()[player])));
    }

    /// Collision: every player touched by a lunging player of the other team
    /// respawns; a flag it carried is dropped where it stood.
    fn step_collision_system(&mut self)
        requires
            layout(old(self).rows(), old(self).red_flag, old(self).blue_flag, old(self).player_map@),
        ensures
            final(self).red_flag == old(self).red_flag,
            final(self).blue_flag == old(self).blue_flag,
            final(self).player_map == old(self).player_map,
            final(self).score == old(self).score,
            final(self).rows() == collision_rows(old(self).rows()),
    {
        let ghost rows0 = self.rows();
        proof {
            crate::model::lemma_layout_in_bounds(rows0, self.red_flag, self.blue_flag, self.player_map@);
        }
        let ents = live_entities(&self.world);
        let mut victims: Vec<Entity> = Vec::new();
        let mut i: usize = 0;
        while i < ents.len()
            invariant
                self.rows() == rows0,
                all_in_bounds(rows0),
                ents@.no_duplicates(),
                ents@.to_set() == rows0.dom(),
                i <= ents@.len(),
                victims@.no_duplicates(),
                forall|k: int| 0 <= k < victims@.len() ==> struck(rows0, #[trigger] victims@[k]),
                forall|k: int| #![trigger victims@[k]] 0 <= k < victims@.len() ==> exists|m: int| 0 <= m < i && #[trigger] ents@[m] == victims@[k],
                forall|m: int| 0 <= m < i && struck(rows0, #[trigger] ents@[m]) ==> victims@.contains(ents@[m]),
            decreases ents@.len() - i,
        {
            let v = ents[i];
            assert(ents@.to_set().contains(ents@[i as int]));
            if self.is_struck(&ents, v) {
                proof {
                    assert forall|k: int| 0 <= k < victims@.len() implies victims@[k] != v by {
                        let m = choose|m: int| 0 <= m < i && #[trigger] ents@[m] == victims@[k];
                    }
                }
                let ghost old_v = victims@;
                victims.push(v);
                proof {
                    assert(victims@.drop_last() =~= old_v);
                    assert forall|k: int| #![trigger victims@[k]] 0 <= k < victims@.len() implies exists|m: int| 0 <= m < i + 1 && #[trigger] ents@[m] == victims@[k] by {
                        if k < victims@.len() - 1 {
                            assert(old_v[k] == victims@[k]);
                            let m = choose|m: int| 0 <= m < i && #[trigger] ents@[m] == old_v[k];
                        } else {
                            assert(ents@[i as int] == victims@[k]);
                        }
                    }
                    assert forall|m: int| 0 <= m < i + 1 && struck(rows0, #[trigger] ents@[m]) implies victims@.contains(ents@[m]) by {
                        if m < i {
                            assert(old_v.contains(ents@[m]));
                            let k = choose|k: int| 0 <= k < old_v.len() && old_v[k] == ents@[m];
                            assert(victims@[k] == ents@[m]);
                        } else {
                            assert(victims@[victims@.len() - 1] == ents@[m]);
                        }
                    }
                }
            }
            i = i + 1;
        }
        proof {
            assert forall|e: Entity| #[trigger] struck(rows0, e) implies victims@.contains(e) by {
                assert(ents@.to_set().contains(e));
                let m = choose|m: int| 0 <= m < ents@.len() && ents@[m] == e;
            }
        }
        let mut j: usize = 0;
        while j < victims.len()
            invariant
                layout(rows0, self.red_flag, self.blue_flag, self.player_map@),
                victims@.no_duplicates(),
                forall|k: int| 0 <= k < victims@.len() ==> struck(rows0, #[trigger] victims@[k]),
                j <= victims@.len(),
                self.rows() == collision_for(rows0, victims@.take(j as int)),
                self.red_flag == old(self).red_flag,
                self.blue_flag == old(self).blue_flag,
                self.player_map == old(self).player_map,
                self.score == old(self).score,
            decreases victims@.len() - j,
        {
            let v = victims[j];
            proof {
                self.lemma_collision_step_pre(rows0, victims@, j as int);
            }
            let ghost before = self.rows();
            self.drop_flag_if_held_by(v);
            let ghost mid = self.rows();
            self.respawn_player(v);
            proof {
                self.lemma_collision_step(rows0, victims@, j as int, before, mid);
            }
            j = j + 1;
        }
        proof {
            assert(victims@.take(victims@.len() as int) == victims@);
            self.lemma_collision_done(rows0, victims@);
        }
    }

    proof fn lemma_collision_step_pre(&self, rows0: Map<Entity, Row>, vs: Seq<Entity>, j: int)
        requires
            layout(rows0, self.red_flag, self.blue_flag, self.player_map@),
            vs.no_duplicates(),
            forall|k: int| 0 <= k < vs.len() ==> struck(rows0, #[trigger] vs[k]),
            0 <= j < vs.len(),
            self.rows() == collision_for(rows0, vs.take(j)),
        ensures
            self.rows().contains_key(vs[j]),
            self.rows()[vs[j]] == rows0[vs[j]],
            self.rows()[vs[j]].id is Some,
            self.rows().contains_key(self.red_flag),
            self.rows().contains_key(self.blue_flag),
            flag_shape(self.rows()[self.red_flag], Team::Red),
            flag_shape(self.rows()[self.blue_flag], Team::Blue),
            self.red_flag != self.blue_flag,
    {
        let v = vs[j];
        assert(struck(rows0, vs[j]));
        assert(!vs.take(j).contains(v)) by {
            if vs.take(j).contains(v) {
                let k = choose|k: int| 0 <= k < j && vs.take(j)[k] == v;
                assert(vs[k] == v);
            }
        }
        assert(!vs.take(j).contains(self.red_flag)) by {
            if vs.take(j).contains(self.red_flag) {
                let k = choose|k: int| 0 <= k < j && vs.take(j)[k] == self.red_flag;
                assert(vs[k] == self.red_flag);
                assert(struck(rows0, vs[k]));
            }
        }
        assert(!vs.take(j).contains(self.blue_flag)) by {
            if vs.take(j).contains(self.blue_flag) {
                let k = choose|k: int| 0 <= k < j && vs.take(j)[k] == self.blue_flag;
                assert(vs[k] == self.blue_flag);
                assert(struck(rows0, vs[k]));
            }
        }
        crate::model::lemma_layout_in_bounds(rows0, self.red_flag, self.blue_flag, self.player_map@);
        let pre = vs.take(j);
        if rows0[self.red_flag].item is Some && exists|k: int|
            0 <= k < pre.len() && rows0[self.red_flag].item == Some(Some(#[trigger] rows0[pre[k]].id.unwrap())) {
            let k = choose|k: int|
                0 <= k < pre.len() && rows0[self.red_flag].item == Some(Some(#[trigger] rows0[pre[k]].id.unwrap()));
            assert(rows0.contains_key(pre[k]));
        }
        if rows0[self.blue_flag].item is Some && exists|k: int|
            0 <= k < pre.len() && rows0[self.blue_flag].item == Some(Some(#[trigger] rows0[pre[k]].id.unwrap())) {
            let k = choose|k: int|
                0 <= k < pre.len() && rows0[self.blue_flag].item == Some(Some(#[trigger] rows0[pre[k]].id.unwrap()));
            assert(rows0.contains_key(pre[k]));
        }
    }

    proof fn lemma_collision_step(&self, rows0: Map<Entity, Row>, vs: Seq<Entity>, j: int, before: Map<Entity, Row>, mid: Map<Entity, Row>)
        requires
            layout(rows0, self.red_flag, self.blue_flag, self.player_map@),
            vs.no_duplicates(),
            forall|k: int| 0 <= k < vs.len() ==> struck(rows0, #[trigger] vs[k]),
            0 <= j < vs.len(),
            before == collision_for(rows0, vs.take(j)),
            before[vs[j]] == rows0[vs[j]],
            mid == release_both(before, self.red_flag, self.blue_flag, before[vs[j]].id.unwrap(), before[vs[j]].position),
            self.rows() == mid.insert(vs[j], respawn_row(mid[vs[j]])),
        ensures
            self.rows() == collision_for(rows0, vs.take(j + 1)),
    {
        let v = vs[j];
        let red = self.red_flag;
        let blue = self.blue_flag;
        let pre = vs.take(j);
        let post = vs.take(j + 1);
        assert(post == pre.push(v));
        let target = collision_for(rows0, post);
        assert forall|e: Entity| #[trigger] rows0.contains_key(e) implies self.rows()[e] == target[e] by {
            if e == v {
                assert(post[j] == v);
                assert(post.contains(v));
                assert(v != red && v != blue) by {
                    assert(struck(rows0, vs[j]));
                }
            } else if post.contains(e) {
                let k = choose|k: int| 0 <= k < post.len() && post[k] == e;
                assert(pre.contains(e)) by {
                    assert(pre[k] == e);
                }
                assert(struck(rows0, vs[k]));
                assert(e != red && e != blue);
            } else {
                assert(!pre.contains(e)) by {
                    if pre.contains(e) {
                        let k = choose|k: int| 0 <= k < pre.len() && pre[k] == e;
                        assert(post[k] == e);
                    }
                }
                if e == red || e == blue {
                    let f = e;
                    let exists_pre = exists|k: int|
                        0 <= k < pre.len() && rows0[f].item == Some(Some(#[trigger] rows0[pre[k]].id.unwrap()));
                    if exists_pre {
                        let k = choose|k: int|
                            0 <= k < pre.len() && rows0[f].item == Some(Some(#[trigger] rows0[pre[k]].id.unwrap()));
                        assert(post[k] == pre[k]);
                        let k2 = choose|k2: int|
                            0 <= k2 < post.len() && rows0[f].item == Some(Some(#[trigger] rows0[post[k2]].id.unwrap()));
                        assert(struck(rows0, vs[k]));
                        assert(struck(rows0, vs[k2]));
                        crate::model::lemma_ids_unique(rows0, red, blue, self.player_map@, post[k], post[k2]);
                    } else if rows0[f].item == Some(Some(rows0[v].id.unwrap())) {
                        assert(post[j] == v);
                        let k2 = choose|k2: int|
                            0 <= k2 < post.len() && rows0[f].item == Some(Some(#[trigger] rows0[post[k2]].id.unwrap()));
                        assert(struck(rows0, vs[k2]));
                        assert(struck(rows0, vs[j]));
                        crate::model::lemma_ids_unique(rows0, red, blue, self.player_map@, post[k2], v);
                    } else {
                        assert forall|k: int| 0 <= k < post.len() implies rows0[f].item != Some(Some(#[trigger] rows0[post[k]].id.unwrap())) by {
                            if k < j {
                                assert(post[k] == pre[k]);
                            }
                        }
                    }
                } else {
                    // a player that is not struck: no item, not touched
                    let i = choose|i: int| 0 <= i < self.player_map@.len() && #[trigger] self.player_map@[i].1 == e;
                }
            }
        }
        assert(self.rows().dom() =~= target.dom());
        assert(self.rows() =~= target);
    }

    proof fn lemma_collision_done(&self, rows0: Map<Entity, Row>, vs: Seq<Entity>)
        requires
            layout(rows0, self.red_flag, self.blue_flag, self.player_map@),
            forall|k: int| 0 <= k < vs.len() ==> struck(rows0, #[trigger] vs[k]),
            forall|e: Entity| #[trigger] struck(rows0, e) ==> vs.contains(e),
            self.rows() == collision_for(rows0, vs),
        ensures
            self.rows() == collision_rows(rows0),
    {
        let red = self.red_flag;
        let blue = self.blue_flag;
        let target = collision_rows(rows0);
        assert forall|e: Entity| #[trigger] rows0.contains_key(e) implies self.rows()[e] == target[e] by {
            if vs.contains(e) {
                let k = choose|k: int| 0 <= k < vs.len() && vs[k] == e;
                assert(struck(rows0, vs[k]));
            } else if rows0[e].item is Some {
                let ex = exists|k: int| 0 <= k < vs.len() && rows0[e].item == Some(Some(#[trigger] rows0[vs[k]].id.unwrap()));
                if ex {
                    let k = choose|k: int| 0 <= k < vs.len() && rows0[e].item == Some(Some(#[trigger] rows0[vs[k]].id.unwrap()));
                    assert(struck(rows0, vs[k]));
                    assert(carrier_struck(rows0, e));
                    let c = struck_carrier(rows0, e);
                    crate::model::lemma_ids_unique(rows0, red, blue, self.player_map@, c, vs[k]);
                } else {
                    if carrier_struck(rows0, e) {
                        let c = struck_carrier(rows0, e);
                        assert(vs.contains(c));
                        let k = choose|k: int| 0 <= k < vs.len() && vs[k] == c;
                        assert(rows0[e].item == Some(Some(rows0[vs[k]].id.unwrap())));
                    }
                }
            }
        }
        assert(self.rows() =~= target);
    }

    /// The flag step of the player `e` (see `flag_turn`).
    fn flag_turn_of(&mut self, e: Entity)
        requires
            old(self).rows().contains_key(e),
            player_shape(old(self).rows()[e]),
            layout(old(self).rows(), old(self).red_flag, old(self).blue_flag, old(self).player_map@),
        ensures
            final(self).red_flag == old(self).red_flag,
            final(self).blue_flag == old(self).blue_flag,
            final(self).player_map == old(self).player_map,
            (final(self).rows(), final(self).score) == flag_turn(
                old(self).rows(),
                old(self).score,
                e,
                old(self).red_flag,
                old(self).blue_flag,
            ),
    {
        proof {
            crate::model::lemma_layout_in_bounds(self.rows(), self.red_flag, self.blue_flag, self.player_map@);
        }
        let t = match get_team(&self.world, e) {
            Some(t) => t,
            None => {
                return;
            },
        };
        let id = match get_id(&self.world, e) {
            Some(id) => id,
            None => {
                return;
            },
        };
        let at = match get_position(&self.world, e) {
            Some(p) => p,
            None => {
                return;
            },
        };
        let enemy = other_team(t);
        let (f, o) = match t {
            Team::Red => (self.blue_flag, self.red_flag),
            Team::Blue => (self.red_flag, self.blue_flag),
        };
        let item = match get_item(&self.world, f) {
            Some(item) => item,
            None => {
                return;
            },
        };
        let carried_by_me = match &item.held_by {
            Some(h) => *h == id,
            None => self.touching(e, f),
        };
        if carried_by_me {
            if self.touching(e, o) {
                set_item(&mut self.world, f, Item { held_by: None });
                set_position(&mut self.world, f, home_position(enemy));
                match t {
                    Team::Red => {
                        if self.score.red < u32::MAX {
                            self.score.red = self.score.red + 1;
                        }
                    },
                    Team::Blue => {
                        if self.score.blue < u32::MAX {
                            self.score.blue = self.score.blue + 1;
                        }
                    },
                }
            } else {
                set_item(&mut self.world, f, Item { held_by: Some(id) });
                set_position(&mut self.world, f, at);
            }
        }
        proof {
            let out = flag_turn(old(self).rows(), old(self).score, e, self.red_flag, self.blue_flag);
            assert(self.rows() =~= out.0);
        }
    }

    /// Flag: each registered player in turn picks up, carries or captures.
    fn step_flag_system(&mut self)
        requires
            layout(old(self).rows(), old(self).red_flag, old(self).blue_flag, old(self).player_map@),
            holders_ok(old(self).rows(), old(self).red_flag, old(self).blue_flag, old(self).player_map@),
        ensures
            final(self).red_flag == old(self).red_flag,
            final(self).blue_flag == old(self).blue_flag,
            final(self).player_map == old(self).player_map,
            (final(self).rows(), final(self).score) == flag_pass(
                old(self).rows(),
                old(self).score,
                entities_of(old(self).player_map@),
                old(self).red_flag,
                old(self).blue_flag,
            ),
            final(self).wf(),
    {
        let ghost rows0 = self.rows();
        let ghost score0 = self.score;
        let ghost ents = entities_of(self.player_map@);
        let mut i: usize = 0;
        assert(ents.take(0) =~= Seq::<Entity>::empty());
        while i < self.player_map.len()
            invariant
                self.red_flag == old(self).red_flag,
                self.blue_flag == old(self).blue_flag,
                self.player_map == old(self).player_map,
                ents == entities_of(self.player_map@),
                i <= self.player_map@.len(),
                layout(self.rows(), self.red_flag, self.blue_flag, self.player_map@),
                holders_ok(self.rows(), self.red_flag, self.blue_flag, self.player_map@),
                (self.rows(), self.score) == flag_pass(rows0, score0, ents.take(i as int), self.red_flag, self.blue_flag),
            decreases self.player_map@.len() - i,
        {
            let e = self.player_map[i].1;
            proof {
                crate::model::lemma_flag_turn_keeps(self.rows(), self.score, self.red_flag, self.blue_flag, self.player_map@, i as int);
            }
            self.flag_turn_of(e);
            proof {
                assert(ents.take(i + 1).drop_last() =~= ents.take(i as int));
                assert(ents.take(i + 1).last() == e);
            }
            i = i + 1;
        }
        assert(ents.take(i as int) =~= ents);
    }

    /// One tick of `dt` milliseconds: the melee, movement, collision and flag
    /// systems run in that order.
    pub fn step(&mut self, dt: u32)
        requires
            old(self).wf(),
        ensures
            final(self).wf(),
            stepped(*old(self), *final(self), dt),
    {
        let ghost red = self.red_flag;
        let ghost blue = self.blue_flag;
        let ghost pm = self.player_map@;
        proof {
            crate::model::lemma_melee_keeps(self.rows(), dt, red, blue, pm);
        }
        self.step_melee_system(dt);
        proof {
            crate::model::lemma_layout_in_bounds(self.rows(), red, blue, pm);
            crate::model::lemma_move_keeps(self.rows(), dt, red, blue, pm);
        }
        self.step_movement_system(dt);
        proof {
            crate::model::lemma_collision_keeps(self.rows(), red, blue, pm);
        }
        self.step_collision_system();
        self.step_flag_system();
    }

}

} // verus!
