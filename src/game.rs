use vstd::prelude::*;

use crate::components::{
    flag_home, home_position, opposing, spawn_point, spawn_position, Item, Melee, Metadata,
    Position, Radius, Team, Velocity, ENTITY_RADIUS, MELEE_COOLDOWN,
};
use crate::lunge::{lunge_velocity, slowed_velocity};
use crate::model::{
    collision_rows, dropped_row, entities_of, flag_pass, flag_shape, holder_ok, holders_ok,
    layout, lemma_keeps, melee_command_row, melee_rows, move_command_row, move_rows,
    player_shape, release, release_both, Score,
};
use crate::protocol::{Flag, GameError, Input, Player, Snapshot};
use crate::store::{
    despawn, flag_row, get_id, get_item, get_melee, get_position, get_team, get_velocity,
    new_world, player_row, rows_of, set_item, set_melee, set_position, set_velocity, spawn_flag,
    spawn_player, Row,
};
use hecs::{Entity, World};

verus! {

/// The authoritative simulation: an entity store holding two flags and the
/// registered players, the registry from external identifier to entity, and
/// the score.
pub struct Game {
    pub world: World,
    pub red_flag: Entity,
    pub blue_flag: Entity,
    /// Registered players in order of arrival; identifiers are unique.
    pub player_map: Vec<(String, Entity)>,
    pub score: Score,
}

/// The effect of `remove_player(id)`.
pub open spec fn removed(pre: Game, post: Game, id: Seq<char>) -> bool {
    &&& post.red_flag == pre.red_flag
    &&& post.blue_flag == pre.blue_flag
    &&& post.score == pre.score
    &&& !post.has_player(id)
    &&& !pre.has_player(id) ==> post.rows() == pre.rows() && post.player_map@ == pre.player_map@
    &&& pre.has_player(id) ==> exists|i: int|
        0 <= i < pre.player_map@.len() && #[trigger] pre.id_at(i) == id
        && post.player_map@ == pre.player_map@.remove(i)
        && post.rows() == release_both(
            pre.rows(),
            pre.red_flag,
            pre.blue_flag,
            id,
            pre.rows()[pre.entity_at(i)].position,
        ).remove(pre.entity_at(i))
}

/// The effect of `add_player(id, team)` returning `e`: the identifier now
/// names `e` alone, a fresh player at the team's spawn point; the entity it
/// named before is gone; every other player keeps its entity and its row.
pub open spec fn created(pre: Game, post: Game, id: Seq<char>, team: Team, e: Entity) -> bool {
    &&& post.red_flag == pre.red_flag
    &&& post.blue_flag == pre.blue_flag
    &&& post.score == pre.score
    &&& pre.rows().contains_key(e) ==> exists|i: int|
        0 <= i < pre.player_map@.len() && #[trigger] pre.id_at(i) == id && pre.entity_at(i) == e
    &&& post.rows().contains_key(e)
    &&& post.rows()[e] == Game::fresh_player_row(id, team)
    &&& post.has_player(id)
    &&& forall|i: int| 0 <= i < post.player_map@.len() && #[trigger] post.id_at(i) == id ==> post.entity_at(i) == e
    &&& forall|i: int| 0 <= i < pre.player_map@.len() && #[trigger] pre.id_at(i) == id
        ==> pre.entity_at(i) == e || !post.rows().contains_key(pre.entity_at(i))
    &&& forall|i: int| 0 <= i < pre.player_map@.len() && #[trigger] pre.id_at(i) != id
        ==> exists|j: int| 0 <= j < post.player_map@.len()
            && #[trigger] post.entity_at(j) == pre.entity_at(i)
            && post.id_at(j) == pre.id_at(i)
            && post.rows()[post.entity_at(j)] == pre.rows()[pre.entity_at(i)]
}

/// The entity `pre` registers under `id` has its row rewritten by `f`;
/// nothing else changes. Without such a player nothing changes at all.
pub open spec fn player_row_updated(pre: Game, post: Game, id: Seq<char>, f: spec_fn(Row) -> Row) -> bool {
    &&& post.red_flag == pre.red_flag
    &&& post.blue_flag == pre.blue_flag
    &&& post.score == pre.score
    &&& post.player_map@ == pre.player_map@
    &&& pre.has_player(id) ==> exists|i: int|
        0 <= i < pre.player_map@.len() && #[trigger] pre.id_at(i) == id
        && post.rows() == pre.rows().insert(pre.entity_at(i), f(pre.rows()[pre.entity_at(i)]))
    &&& !pre.has_player(id) ==> post.rows() == pre.rows()
}

/// What a command returns.
pub open spec fn command_result(pre: Game, input: Input) -> Result<(), GameError> {
    match input {
        Input::PlayerMove { player_id, .. } => if pre.has_player(player_id@) {
            Ok(())
        } else {
            Err(GameError::UnknownPlayer)
        },
        Input::PlayerMelee { player_id } => if pre.has_player(player_id@) {
            Ok(())
        } else {
            Err(GameError::UnknownPlayer)
        },
        _ => Ok(()),
    }
}

/// What a command does.
pub open spec fn command_applied(pre: Game, post: Game, input: Input) -> bool {
    &&& post.wf()
    &&& post.player_map@.len() <= pre.player_map@.len() + 1
    &&& match input {
        Input::PlayerMove { player_id, velocity } => player_row_updated(
            pre,
            post,
            player_id@,
            |r: Row| move_command_row(r, velocity),
        ),
        Input::PlayerMelee { player_id } => player_row_updated(
            pre,
            post,
            player_id@,
            |r: Row| melee_command_row(r),
        ),
        Input::RemovePlayer { id } => removed(pre, post, id@),
        Input::CreatePlayer { id, team } => exists|e: Entity| created(pre, post, id@, team, e),
    }
}

/// One tick of `dt` milliseconds turned `pre` into `post`.
pub open spec fn stepped(pre: Game, post: Game, dt: u32) -> bool {
    &&& post.wf()
    &&& post.red_flag == pre.red_flag
    &&& post.blue_flag == pre.blue_flag
    &&& post.player_map == pre.player_map
    &&& (post.rows(), post.score) == flag_pass(
        collision_rows(move_rows(melee_rows(pre.rows(), dt), dt)),
        pre.score,
        entities_of(pre.player_map@),
        pre.red_flag,
        pre.blue_flag,
    )
}

/// The commands `cmds` were applied one after another, in order, each
/// exactly once: `states[k]` is the game before `cmds[k]` and `states[k + 1]`
/// the game after it; `res[k]` is what `cmds[k]` returned.
pub open spec fn applied_in_order(cmds: Seq<Input>, res: Seq<Result<(), GameError>>, states: Seq<Game>) -> bool {
    &&& states.len() == cmds.len() + 1
    &&& res.len() == cmds.len()
    &&& forall|k: int|
        0 <= k < cmds.len() ==> {
            &&& (#[trigger] states[k]).wf()
            &&& command_applied(states[k], states[k + 1], cmds[k])
            &&& res[k] == command_result(states[k], cmds[k])
        }
}

/// A snapshot record shows the player row `r`.
pub open spec fn shows_player(p: Player, r: Row) -> bool {
    &&& r.id == Some(p.metadata.id@)
    &&& r.position == Some(p.position)
    &&& r.velocity == Some(p.velocity)
    &&& r.team == Some(p.team)
    &&& r.melee is Some
    &&& p.melee_active == r.melee.unwrap().active
}

/// A snapshot record shows the flag row `r`.
pub open spec fn shows_flag(f: Flag, r: Row) -> bool {
    &&& r.position == Some(f.position)
    &&& r.team == Some(f.team)
    &&& r.item == Some(f.item.view())
}

impl Game {
    pub open spec fn rows(&self) -> Map<Entity, Row> {
        rows_of(self.world)
    }

    /// Identifier of the `i`-th registered player.
    pub open spec fn id_at(&self, i: int) -> Seq<char> {
        self.player_map@[i].0@
    }

    /// Entity of the `i`-th registered player.
    pub open spec fn entity_at(&self, i: int) -> Entity {
        self.player_map@[i].1
    }

    pub open spec fn has_player(&self, id: Seq<char>) -> bool {
        exists|i: int| 0 <= i < self.player_map@.len() && #[trigger] self.id_at(i) == id
    }

    pub open spec fn wf(&self) -> bool {
        &&& layout(self.rows(), self.red_flag, self.blue_flag, self.player_map@)
        &&& holders_ok(self.rows(), self.red_flag, self.blue_flag, self.player_map@)
    }

    /// A fresh game: both flags at home, nobody registered, no score.
    pub fn new() -> (g: Game)
        ensures
            g.wf(),
            g.player_map@.len() == 0,
            g.score == (Score { red: 0, blue: 0 }),
            g.rows().dom() == set![g.red_flag, g.blue_flag],
            g.rows()[g.red_flag] == flag_row(None, flag_home(Team::Red), Team::Red, Radius { value: ENTITY_RADIUS }),
            g.rows()[g.blue_flag] == flag_row(None, flag_home(Team::Blue), Team::Blue, Radius { value: ENTITY_RADIUS }),
    {
        let mut world = new_world();
        let red_flag = spawn_flag(
            &mut world,
            Item { held_by: None },
            home_position(Team::Red),
            Team::Red,
            Radius { value: ENTITY_RADIUS },
        );
        let blue_flag = spawn_flag(
            &mut world,
            Item { held_by: None },
            home_position(Team::Blue),
            Team::Blue,
            Radius { value: ENTITY_RADIUS },
        );
        let g = Game { world, red_flag, blue_flag, player_map: Vec::new(), score: Score { red: 0, blue: 0 } };
        assert(g.rows().dom() =~= set![g.red_flag, g.blue_flag]);
        g
    }

    /// Index of the player registered under `id`.
    fn find_player(&self, id: &String) -> (r: Option<usize>)
        ensures
            match r {
                Some(i) => i < self.player_map@.len() && self.id_at(i as int) == id@,
                None => !self.has_player(id@),
            },
    {
        let mut i: usize = 0;
        while i < self.player_map.len()
            invariant
                i <= self.player_map@.len(),
                forall|k: int| 0 <= k < i ==> #[trigger] self.id_at(k) != id@,
            decreases self.player_map@.len() - i,
        {
            if self.player_map[i].0 == *id {
                return Some(i);
            }
            i = i + 1;
        }
        None
    }

    /// The row of a player of team `t` that has just entered the arena.
    pub open spec fn fresh_player_row(id: Seq<char>, t: Team) -> Row {
        player_row(
            id,
            spawn_point(t),
            Radius { value: ENTITY_RADIUS },
            Velocity { dx: 0, dy: 0 },
            t,
            Melee { active: false, cooldown: 0, max_cooldown: MELEE_COOLDOWN },
        )
    }

    /// Registers `id` on team `team` with a new entity at the team's spawn
    /// point. A player already registered under `id` is first removed, as by
    /// `remove_player`, so its handle stops being valid.
    pub fn add_player(&mut self, id: String, team: Team) -> (e: Entity)
        requires
            old(self).wf(),
            old(self).player_map@.len() + 3 < u32::MAX,
        ensures
            final(self).wf(),
            created(*old(self), *final(self), id@, team, e),
            final(self).player_map@.len() <= old(self).player_map@.len() + 1,
    {
        let ghost pm0 = self.player_map@;
        let ghost rows0 = self.rows();
        self.remove_player(id.as_str());
        let ghost pm1 = self.player_map@;
        let ghost rows1 = self.rows();
        proof {
            assert forall|k: int| 0 <= k < pm1.len() implies #[trigger] pm1[k].0@ != id@ by {
                if pm1[k].0@ == id@ {
                    assert(self.id_at(k) == id@);
                }
            }
        }
        let meta = Metadata { id: id.clone() };
        let e = spawn_player(
            &mut self.world,
            meta,
            spawn_position(team),
            Radius { value: ENTITY_RADIUS },
            Velocity { dx: 0, dy: 0 },
            team,
            Melee { active: false, cooldown: 0, max_cooldown: MELEE_COOLDOWN },
        );
        self.player_map.push((id, e));
        proof {
            assert(self.player_map@.drop_last() =~= pm1);
            assert(self.id_at(pm1.len() as int) == id@);
            self.lemma_after_spawn(rows1, pm1, e);
            if old(self).has_player(id@) {
                let i = choose|i: int|
                    0 <= i < pm0.len() && #[trigger] old(self).id_at(i) == id@
                    && pm1 == pm0.remove(i)
                    && rows1 == release_both(rows0, old(self).red_flag, old(self).blue_flag, id@, rows0[pm0[i].1].position).remove(pm0[i].1);
                assert(rows1.dom() == rows0.dom().remove(pm0[i].1));
                assert forall|k: int| 0 <= k < pm0.len() && #[trigger] old(self).id_at(k) != id@ implies exists|j: int|
                    0 <= j < self.player_map@.len() && #[trigger] self.entity_at(j) == old(self).entity_at(k)
                    && self.id_at(j) == old(self).id_at(k)
                    && self.rows()[self.entity_at(j)] == old(self).rows()[old(self).entity_at(k)] by {
                    let j = if k < i { k } else { k - 1 };
                    assert(k != i);
                    assert(pm1[j] == pm0[k]);
                    assert(self.player_map@[j] == pm1[j]);
                    assert(pm0[k].1 != e);
                    let x = pm0[k].1;
                    assert(x != old(self).red_flag && x != old(self).blue_flag);
                    assert(x != pm0[i].1);
                    assert(rows1[x] == rows0[x]);
                    assert(self.rows()[x] == rows1[x]);
                    assert(self.entity_at(j) == x);
                }
                assert forall|k: int| 0 <= k < pm0.len() && #[trigger] old(self).id_at(k) == id@ implies
                    old(self).entity_at(k) == e || !self.rows().contains_key(old(self).entity_at(k)) by {
                    assert(k == i);
                }
            } else {
                assert forall|k: int| 0 <= k < pm0.len() && #[trigger] old(self).id_at(k) != id@ implies exists|j: int|
                    0 <= j < self.player_map@.len() && #[trigger] self.entity_at(j) == old(self).entity_at(k)
                    && self.id_at(j) == old(self).id_at(k)
                    && self.rows()[self.entity_at(j)] == old(self).rows()[old(self).entity_at(k)] by {
                    assert(self.player_map@[k] == pm1[k]);
                    assert(pm0[k].1 != e);
                    assert(self.rows()[pm0[k].1] == rows1[pm0[k].1]);
                    assert(self.entity_at(k) == pm0[k].1);
                }
            }
        }
        e
    }

    proof fn lemma_after_spawn(&self, rows1: Map<Entity, Row>, pm1: Seq<(String, Entity)>, e: Entity)
        requires
            layout(rows1, self.red_flag, self.blue_flag, pm1),
            holders_ok(rows1, self.red_flag, self.blue_flag, pm1),
            !rows1.contains_key(e),
            self.player_map@.len() == pm1.len() + 1,
            self.player_map@.drop_last() == pm1,
            self.player_map@.last().1 == e,
            forall|k: int| 0 <= k < pm1.len() ==> #[trigger] pm1[k].0@ != self.player_map@.last().0@,
            self.rows() == rows1.insert(e, Self::fresh_player_row(self.player_map@.last().0@, self.rows()[e].team.unwrap())),
        ensures
            self.wf(),
    {
        let red = self.red_flag;
        let blue = self.blue_flag;
        let pm = self.player_map@;
        let rows = self.rows();
        let n = pm1.len() as int;
        assert(pm[n] == pm.last());
        assert forall|k: int| 0 <= k < pm1.len() implies #[trigger] pm[k] == pm1[k] by {
            assert(pm.drop_last()[k] == pm[k]);
        }
        assert forall|k: int| 0 <= k < pm.len() implies {
            &&& rows.contains_key(#[trigger] pm[k].1)
            &&& player_shape(rows[pm[k].1])
            &&& rows[pm[k].1].id == Some(pm[k].0@)
        } by {
            if k < n {
                assert(pm[k] == pm1[k]);
            }
        }
        assert forall|a: int, b: int|
            0 <= a < pm.len() && 0 <= b < pm.len() && a != b implies #[trigger] pm[a].0@ != #[trigger] pm[b].0@ by {
            if a < n {
                assert(pm[a] == pm1[a]);
            }
            if b < n {
                assert(pm[b] == pm1[b]);
            }
        }
        assert forall|x: Entity| #[trigger] rows.contains_key(x) implies x == red || x == blue || exists|k: int|
            0 <= k < pm.len() && #[trigger] pm[k].1 == x by {
            if x != red && x != blue && x != e {
                let k = choose|k: int| 0 <= k < pm1.len() && #[trigger] pm1[k].1 == x;
                assert(pm[k] == pm1[k]);
            }
        }
        assert forall|h: Seq<char>| rows[red].item == Some(Some(h)) implies exists|k: int|
            0 <= k < pm.len() && #[trigger] pm[k].0@ == h && rows[pm[k].1].team == Some(opposing(Team::Red)) by {
            let k = choose|k: int| 0 <= k < pm1.len() && #[trigger] pm1[k].0@ == h && rows1[pm1[k].1].team == Some(opposing(Team::Red));
            assert(pm[k] == pm1[k]);
        }
        assert forall|h: Seq<char>| rows[blue].item == Some(Some(h)) implies exists|k: int|
            0 <= k < pm.len() && #[trigger] pm[k].0@ == h && rows[pm[k].1].team == Some(opposing(Team::Blue)) by {
            let k = choose|k: int| 0 <= k < pm1.len() && #[trigger] pm1[k].0@ == h && rows1[pm1[k].1].team == Some(opposing(Team::Blue));
            assert(pm[k] == pm1[k]);
        }
        assert(holder_ok(rows, red, Team::Red, pm));
        assert(holder_ok(rows, blue, Team::Blue, pm));
        assert(rows.dom() == rows1.dom().insert(e));
    }

    /// The entity registered under `id`.
    pub fn get_player(&self, id: String) -> (r: Result<Entity, GameError>)
        ensures
            match r {
                Ok(e) => exists|i: int|
                    0 <= i < self.player_map@.len() && #[trigger] self.id_at(i) == id@ && self.entity_at(i) == e,
                Err(err) => err == GameError::UnknownPlayer && !self.has_player(id@),
            },
    {
        match self.find_player(&id) {
            Some(i) => Ok(self.player_map[i].1),
            None => Err(GameError::UnknownPlayer),
        }
    }

    /// Applies a move command to the player `e` (see `move_command_row`).
    fn steer(&mut self, e: Entity, v: Velocity)
        requires
            old(self).wf(),
            old(self).rows().contains_key(e),
            player_shape(old(self).rows()[e]),
        ensures
            final(self).wf(),
            final(self).red_flag == old(self).red_flag,
            final(self).blue_flag == old(self).blue_flag,
            final(self).player_map == old(self).player_map,
            final(self).score == old(self).score,
            final(self).rows() == old(self).rows().insert(e, move_command_row(old(self).rows()[e], v)),
    {
        match get_melee(&self.world, e) {
            Some(m) => {
                if m.active {
                } else if m.cooldown > 0 {
                    set_velocity(&mut self.world, e, slowed_velocity(v));
                } else {
                    set_velocity(&mut self.world, e, v);
                }
            },
            None => {},
        }
        proof {
            let rows0 = old(self).rows();
            assert(self.rows() =~= rows0.insert(e, move_command_row(rows0[e], v)));
            self.lemma_player_rewrite(rows0, e);
        }
    }

    /// Applies a melee command to the player `e` (see `melee_command_row`).
    fn start_lunge(&mut self, e: Entity)
        requires
            old(self).wf(),
            old(self).rows().contains_key(e),
            player_shape(old(self).rows()[e]),
        ensures
            final(self).wf(),
            final(self).red_flag == old(self).red_flag,
            final(self).blue_flag == old(self).blue_flag,
            final(self).player_map == old(self).player_map,
            final(self).score == old(self).score,
            final(self).rows() == old(self).rows().insert(e, melee_command_row(old(self).rows()[e])),
    {
        match (get_velocity(&self.world, e), get_melee(&self.world, e)) {
            (Some(v), Some(m)) => {
                if (v.dx != 0 || v.dy != 0) && m.cooldown == 0 && !m.active {
                    set_melee(&mut self.world, e, Melee { active: true, cooldown: m.max_cooldown, max_cooldown: m.max_cooldown });
                    set_velocity(&mut self.world, e, lunge_velocity(v));
                }
            },
            _ => {},
        }
        proof {
            let rows0 = old(self).rows();
            assert(self.rows() =~= rows0.insert(e, melee_command_row(rows0[e])));
            self.lemma_player_rewrite(rows0, e);
        }
    }

    /// Rewriting one player's row, keeping its kind, identifier and team,
    /// keeps the invariant.
    proof fn lemma_player_rewrite(&self, rows0: Map<Entity, Row>, e: Entity)
        requires
            layout(rows0, self.red_flag, self.blue_flag, self.player_map@),
            holders_ok(rows0, self.red_flag, self.blue_flag, self.player_map@),
            rows0.contains_key(e),
            player_shape(rows0[e]),
            self.rows() == rows0.insert(e, self.rows()[e]),
            player_shape(self.rows()[e]),
            self.rows()[e].id == rows0[e].id,
            self.rows()[e].team == rows0[e].team,
        ensures
            self.wf(),
    {
        let pm = self.player_map@;
        assert(e != self.red_flag && e != self.blue_flag);
        assert(self.rows().dom() =~= rows0.dom());
        lemma_keeps(rows0, self.rows(), self.red_flag, self.blue_flag, pm);
    }

    /// Applies one command. Commands naming an unregistered player are
    /// refused with `UnknownPlayer` and change nothing.
    pub fn apply_input(&mut self, input: Input) -> (r: Result<(), GameError>)
        requires
            old(self).wf(),
            old(self).player_map@.len() + 3 < u32::MAX,
        ensures
            command_applied(*old(self), *final(self), input),
            r == command_result(*old(self), input),
    {
        match input {
            Input::CreatePlayer { id, team } => {
                let ghost idv = id@;
                let e = self.add_player(id, team);
                assert(created(*old(self), *self, idv, team, e));
                Ok(())
            },
            Input::RemovePlayer { id } => {
                self.remove_player(id.as_str());
                Ok(())
            },
            Input::PlayerMove { player_id, velocity } => {
                let ghost pid = player_id@;
                let e = match self.get_player(player_id) {
                    Ok(e) => e,
                    Err(err) => {
                        return Err(err);
                    },
                };
                proof {
                    let i = choose|i: int| 0 <= i < self.player_map@.len() && #[trigger] self.id_at(i) == pid && self.entity_at(i) == e;
                }
                self.steer(e, velocity);
                Ok(())
            },
            Input::PlayerMelee { player_id } => {
                let ghost pid = player_id@;
                let e = match self.get_player(player_id) {
                    Ok(e) => e,
                    Err(err) => {
                        return Err(err);
                    },
                };
                proof {
                    let i = choose|i: int| 0 <= i < self.player_map@.len() && #[trigger] self.id_at(i) == pid && self.entity_at(i) == e;
                }
                self.start_lunge(e);
                Ok(())
            },
        }
    }

    /// A tick as the game loop runs it: every queued command is applied in
    /// the order given, then the systems run once for `dt` milliseconds.
    /// Returns what each command returned.
    pub fn tick(&mut self, commands: Vec<Input>, dt: u32) -> (results: Vec<Result<(), GameError>>)
        requires
            old(self).wf(),
            old(self).player_map@.len() + commands@.len() + 3 < u32::MAX,
        ensures
            final(self).wf(),
            exists|states: Seq<Game>|
                #[trigger] applied_in_order(commands@, results@, states)
                && states[0] == *old(self)
                && stepped(states.last(), *final(self), dt),
    {
        let ghost cmds = commands@;
        let ghost mut states: Seq<Game> = seq![*self];
        let mut queue = commands;
        let mut results: Vec<Result<(), GameError>> = Vec::new();
        let mut i: usize = 0;
        while queue.len() > 0
            invariant
                self.wf(),
                i <= cmds.len(),
                queue@ == cmds.subrange(i as int, cmds.len() as int),
                self.player_map@.len() <= old(self).player_map@.len() + i,
                old(self).player_map@.len() + cmds.len() + 3 < u32::MAX,
                applied_in_order(cmds.take(i as int), results@, states),
                states[0] == *old(self),
                states.last() == *self,
            decreases queue@.len(),
        {
            let ghost before = *self;
            let ghost res0 = results@;
            let ghost states0 = states;
            let cmd = queue.remove(0);
            assert(cmd == cmds[i as int]);
            let r = self.apply_input(cmd);
            results.push(r);
            proof {
                states = states.push(*self);
                let taken = cmds.take(i + 1);
                assert forall|k: int| 0 <= k < taken.len() implies {
                    &&& (#[trigger] states[k]).wf()
                    &&& command_applied(states[k], states[k + 1], taken[k])
                    &&& results@[k] == command_result(states[k], taken[k])
                } by {
                    if k < i {
                        assert(states[k] == states0[k]);
                        assert(states[k + 1] == states0[k + 1]);
                        assert(taken[k] == cmds.take(i as int)[k]);
                        assert(results@[k] == res0[k]);
                    } else {
                        assert(states[k] == before);
                        assert(taken[k] == cmds[i as int]);
                    }
                }
            }
            i = i + 1;
            assert(queue@ =~= cmds.subrange(i as int, cmds.len() as int));
        }
        assert(cmds.take(i as int) =~= cmds);
        self.step(dt);
        results
    }

    /// A read-only projection of the game: the registered players in order,
    /// the red flag then the blue flag, and the score.
    pub fn make_snapshot(&self) -> (s: Snapshot)
        requires
            self.wf(),
        ensures
            s.players@.len() == self.player_map@.len(),
            forall|i: int| 0 <= i < s.players@.len() ==> shows_player(#[trigger] s.players@[i], self.rows()[self.entity_at(i)]),
            s.flags@.len() == 2,
            shows_flag(s.flags@[0], self.rows()[self.red_flag]),
            shows_flag(s.flags@[1], self.rows()[self.blue_flag]),
            s.score == self.score,
    {
        let mut players: Vec<Player> = Vec::new();
        let mut i: usize = 0;
        while i < self.player_map.len()
            invariant
                self.wf(),
                i <= self.player_map@.len(),
                players@.len() == i,
                forall|k: int| 0 <= k < i ==> shows_player(#[trigger] players@[k], self.rows()[self.entity_at(k)]),
            decreases self.player_map@.len() - i,
        {
            let e = self.player_map[i].1;
            assert(self.rows().contains_key(self.player_map@[i as int].1));
            let p = Player {
                metadata: Metadata {
                    id: match get_id(&self.world, e) {
                        Some(s) => s,
                        None => String::new(),
                    },
                },
                position: match get_position(&self.world, e) {
                    Some(p) => p,
                    None => Position { x: 0, y: 0 },
                },
                velocity: match get_velocity(&self.world, e) {
                    Some(v) => v,
                    None => Velocity { dx: 0, dy: 0 },
                },
                team: match get_team(&self.world, e) {
                    Some(t) => t,
                    None => Team::Red,
                },
                melee_active: match get_melee(&self.world, e) {
                    Some(m) => m.active,
                    None => false,
                },
            };
            players.push(p);
            i = i + 1;
        }
        let flags = vec![self.flag_record(self.red_flag, Team::Red), self.flag_record(self.blue_flag, Team::Blue)];
        Snapshot { players, flags, score: self.score }
    }

    fn flag_record(&self, f: Entity, t: Team) -> (r: Flag)
        requires
            self.rows().contains_key(f),
            flag_shape(self.rows()[f], t),
        ensures
            shows_flag(r, self.rows()[f]),
    {
        Flag {
            position: match get_position(&self.world, f) {
                Some(p) => p,
                None => Position { x: 0, y: 0 },
            },
            team: match get_team(&self.world, f) {
                Some(t) => t,
                None => t,
            },
            item: match get_item(&self.world, f) {
                Some(item) => item,
                None => Item { held_by: None },
            },
        }
    }

    /// Unregisters `id` and despawns its entity; a flag it carried is dropped
    /// where it stood. An unknown identifier changes nothing.
    pub fn remove_player(&mut self, id: &str)
        requires
            old(self).wf(),
        ensures
            final(self).wf(),
            removed(*old(self), *final(self), id@),
    {
        let key = id.to_owned();
        match self.find_player(&key) {
            None => {},
            Some(i) => {
                let ghost old_rows = self.rows();
                let ghost pm0 = self.player_map@;
                let e = self.player_map[i].1;
                self.drop_flag_if_held_by(e);
                let ghost mid = self.rows();
                despawn(&mut self.world, e);
                self.player_map.remove(i);
                proof {
                    self.lemma_after_removal(old_rows, mid, pm0, i as int);
                }
            },
        }
    }

    proof fn lemma_after_removal(&self, rows0: Map<Entity, Row>, mid: Map<Entity, Row>, pm0: Seq<(String, Entity)>, i: int)
        requires
            layout(rows0, self.red_flag, self.blue_flag, pm0),
            holders_ok(rows0, self.red_flag, self.blue_flag, pm0),
            0 <= i < pm0.len(),
            mid == release_both(rows0, self.red_flag, self.blue_flag, pm0[i].0@, rows0[pm0[i].1].position),
            self.rows() == mid.remove(pm0[i].1),
            self.player_map@ == pm0.remove(i),
        ensures
            self.wf(),
            !self.has_player(pm0[i].0@),
    {
        let red = self.red_flag;
        let blue = self.blue_flag;
        let pm = self.player_map@;
        let e = pm0[i].1;
        let rows = self.rows();
        assert(e != red && e != blue);
        assert(mid.dom() == rows0.dom());
        assert(rows.dom() == rows0.dom().remove(e));
        assert forall|k: int| 0 <= k < pm.len() implies {
            &&& rows.contains_key(#[trigger] pm[k].1)
            &&& player_shape(rows[pm[k].1])
            &&& rows[pm[k].1].id == Some(pm[k].0@)
        } by {
            let k0 = if k < i { k } else { k + 1 };
            assert(pm[k] == pm0[k0]);
            assert(pm0[k0].1 != e) by {
                if pm0[k0].1 == e {
                    assert(pm0[k0].0@ == pm0[i].0@);
                }
            }
            assert(pm0[k0].1 != red && pm0[k0].1 != blue);
        }
        assert forall|a: int, b: int|
            0 <= a < pm.len() && 0 <= b < pm.len() && a != b implies #[trigger] pm[a].0@ != #[trigger] pm[b].0@ by {
            let a0 = if a < i { a } else { a + 1 };
            let b0 = if b < i { b } else { b + 1 };
            assert(pm[a] == pm0[a0] && pm[b] == pm0[b0]);
        }
        assert forall|x: Entity| #[trigger] rows.contains_key(x) implies x == red || x == blue || exists|k: int|
            0 <= k < pm.len() && #[trigger] pm[k].1 == x by {
            if x != red && x != blue {
                let k0 = choose|k0: int| 0 <= k0 < pm0.len() && #[trigger] pm0[k0].1 == x;
                assert(k0 != i);
                let k = if k0 < i { k0 } else { k0 - 1 };
                assert(pm[k] == pm0[k0]);
            }
        }
        assert forall|h: Seq<char>| rows[red].item == Some(Some(h)) implies exists|k: int|
            0 <= k < pm.len() && #[trigger] pm[k].0@ == h && rows[pm[k].1].team == Some(opposing(Team::Red)) by {
            let k0 = choose|k0: int| 0 <= k0 < pm0.len() && #[trigger] pm0[k0].0@ == h && rows0[pm0[k0].1].team == Some(opposing(Team::Red));
            assert(k0 != i);
            let k = if k0 < i { k0 } else { k0 - 1 };
            assert(pm[k] == pm0[k0]);
            assert(pm0[k0].1 != red && pm0[k0].1 != blue);
        }
        assert forall|h: Seq<char>| rows[blue].item == Some(Some(h)) implies exists|k: int|
            0 <= k < pm.len() && #[trigger] pm[k].0@ == h && rows[pm[k].1].team == Some(opposing(Team::Blue)) by {
            let k0 = choose|k0: int| 0 <= k0 < pm0.len() && #[trigger] pm0[k0].0@ == h && rows0[pm0[k0].1].team == Some(opposing(Team::Blue));
            assert(k0 != i);
            let k = if k0 < i { k0 } else { k0 - 1 };
            assert(pm[k] == pm0[k0]);
            assert(pm0[k0].1 != red && pm0[k0].1 != blue);
        }
        assert(holder_ok(rows, red, Team::Red, pm));
        assert(holder_ok(rows, blue, Team::Blue, pm));
        assert forall|k: int| 0 <= k < pm.len() implies #[trigger] self.id_at(k) != pm0[i].0@ by {
            let k0 = if k < i { k } else { k + 1 };
            assert(pm[k] == pm0[k0]);
        }
    }

    /// Drops, where `player` stands, any flag that it carries.
    pub(crate) fn drop_flag_if_held_by(&mut self, player: Entity)
        requires
            old(self).rows().contains_key(player),
            flag_shape(old(self).rows()[old(self).red_flag], Team::Red),
            flag_shape(old(self).rows()[old(self).blue_flag], Team::Blue),
            old(self).rows().contains_key(old(self).red_flag),
            old(self).rows().contains_key(old(self).blue_flag),
            old(self).red_flag != old(self).blue_flag,
            old(self).rows()[player].id is Some,
        ensures
            final(self).red_flag == old(self).red_flag,
            final(self).blue_flag == old(self).blue_flag,
            final(self).player_map == old(self).player_map,
            final(self).score == old(self).score,
            final(self).rows() == release_both(
                old(self).rows(),
                old(self).red_flag,
                old(self).blue_flag,
                old(self).rows()[player].id.unwrap(),
                old(self).rows()[player].position,
            ),
    {
        let id = match get_id(&self.world, player) {
            Some(s) => s,
            None => {
                return;
            },
        };
        let at = get_position(&self.world, player);
        let red = self.red_flag;
        let blue = self.blue_flag;
        self.drop_one(red, &id, at);
        self.drop_one(blue, &id, at);
    }

    fn drop_one(&mut self, f: Entity, id: &String, at: Option<Position>)
        requires
            old(self).rows().contains_key(f),
            old(self).rows()[f].item is Some,
            old(self).rows()[f].position is Some,
        ensures
            final(self).red_flag == old(self).red_flag,
            final(self).blue_flag == old(self).blue_flag,
            final(self).player_map == old(self).player_map,
            final(self).score == old(self).score,
            final(self).rows() == release(old(self).rows(), f, id@, at),
    {
        match get_item(&self.world, f) {
            Some(item) => {
                let held = match &item.held_by {
                    Some(h) => *h == *id,
                    None => false,
                };
                if held {
                    set_item(&mut self.world, f, Item { held_by: None });
                    match at {
                        Some(p) => {
                            set_position(&mut self.world, f, p);
                        },
                        None => {},
                    }
                    assert(self.rows() =~= old(self).rows().insert(f, dropped_row(old(self).rows()[f], at)));
                }
            },
            None => {},
        }
    }
}

} // verus!
