use vstd::prelude::*;

use crate::components::{Item, Melee, Metadata, Position, Radius, Team, Velocity};
use hecs::{Entity, World};

verus! {

#[verifier::external_type_specification]
#[verifier::external_body]
pub struct ExWorld(hecs::World);

#[verifier::external_type_specification]
#[verifier::external_body]
pub struct ExEntity(hecs::Entity);

/// The components of one entity, as far as the game reads them: each is
/// `None` where the entity lacks that component.
pub ghost struct Row {
    pub position: Option<Position>,
    pub velocity: Option<Velocity>,
    pub team: Option<Team>,
    pub radius: Option<Radius>,
    pub melee: Option<Melee>,
    /// The `Item` component: `Some(holder)` on a flag.
    pub item: Option<Option<Seq<char>>>,
    /// The `Metadata` component: `Some(id)` on a player.
    pub id: Option<Seq<char>>,
}

/// What a `hecs::World` holds: each live entity with its components.
pub uninterp spec fn rows_of(w: World) -> Map<Entity, Row>;

pub open spec fn flag_row(item: Option<Seq<char>>, p: Position, t: Team, r: Radius) -> Row {
    Row {
        position: Some(p),
        velocity: None,
        team: Some(t),
        radius: Some(r),
        melee: None,
        item: Some(item),
        id: None,
    }
}

pub open spec fn player_row(id: Seq<char>, p: Position, r: Radius, v: Velocity, t: Team, m: Melee) -> Row {
    Row {
        position: Some(p),
        velocity: Some(v),
        team: Some(t),
        radius: Some(r),
        melee: Some(m),
        item: None,
        id: Some(id),
    }
}

/// Relies on `hecs::World::new`: a new world holds no entity.
#[verifier::external_body]
pub(crate) fn new_world() -> (r: World)
    ensures
        rows_of(r).dom().finite(),
        rows_of(r).dom().len() == 0,
{
    World::new()
}

/// Relies on `hecs::World::spawn` with a flag's four components: the entity
/// returned is fresh and holds exactly those. `spawn` panics once `u32::MAX`
/// entities are live.
#[verifier::external_body]
pub(crate) fn spawn_flag(w: &mut World, item: Item, p: Position, t: Team, r: Radius) -> (e: Entity)
    requires
        rows_of(*old(w)).dom().finite(),
        rows_of(*old(w)).len() < u32::MAX,
    ensures
        !rows_of(*old(w)).contains_key(e),
        rows_of(*final(w)) == rows_of(*old(w)).insert(e, flag_row(item.view(), p, t, r)),
{
    w.spawn((item, p, t, r))
}

/// Relies on `hecs::World::spawn` with a player's six components: the entity
/// returned is fresh and holds exactly those. `spawn` panics once `u32::MAX`
/// entities are live.
#[verifier::external_body]
pub(crate) fn spawn_player(
    w: &mut World,
    meta: Metadata,
    p: Position,
    r: Radius,
    v: Velocity,
    t: Team,
    m: Melee,
) -> (e: Entity)
    requires
        rows_of(*old(w)).dom().finite(),
        rows_of(*old(w)).len() < u32::MAX,
    ensures
        !rows_of(*old(w)).contains_key(e),
        rows_of(*final(w)) == rows_of(*old(w)).insert(e, player_row(meta.id@, p, r, v, t, m)),
{
    w.spawn((meta, p, r, v, t, m))
}

/// Relies on `hecs::World::despawn`: a live entity is removed with all its
/// components; on an entity that is not live it fails and changes nothing.
#[verifier::external_body]
pub(crate) fn despawn(w: &mut World, e: Entity) -> (removed: bool)
    ensures
        removed == rows_of(*old(w)).contains_key(e),
        rows_of(*final(w)) == rows_of(*old(w)).remove(e),
{
    w.despawn(e).is_ok()
}

/// Relies on `hecs::World::iter`: every live entity is yielded once.
#[verifier::external_body]
pub(crate) fn live_entities(w: &World) -> (r: Vec<Entity>)
    ensures
        r@.no_duplicates(),
        r@.to_set() == rows_of(*w).dom(),
{
    w.iter().map(|er| er.entity()).collect()
}

/// Relies on `hecs::World::get` for `Position`.
#[verifier::external_body]
pub(crate) fn get_position(w: &World, e: Entity) -> (r: Option<Position>)
    ensures
        r == (if rows_of(*w).contains_key(e) { rows_of(*w)[e].position } else { None }),
{
    w.get::<&Position>(e).ok().map(|c| *c)
}

/// Relies on `hecs::World::get` for `Velocity`.
#[verifier::external_body]
pub(crate) fn get_velocity(w: &World, e: Entity) -> (r: Option<Velocity>)
    ensures
        r == (if rows_of(*w).contains_key(e) { rows_of(*w)[e].velocity } else { None }),
{
    w.get::<&Velocity>(e).ok().map(|c| *c)
}

/// Relies on `hecs::World::get` for `Team`.
#[verifier::external_body]
pub(crate) fn get_team(w: &World, e: Entity) -> (r: Option<Team>)
    ensures
        r == (if rows_of(*w).contains_key(e) { rows_of(*w)[e].team } else { None }),
{
    w.get::<&Team>(e).ok().map(|c| *c)
}

/// Relies on `hecs::World::get` for `Radius`.
#[verifier::external_body]
pub(crate) fn get_radius(w: &World, e: Entity) -> (r: Option<Radius>)
    ensures
        r == (if rows_of(*w).contains_key(e) { rows_of(*w)[e].radius } else { None }),
{
    w.get::<&Radius>(e).ok().map(|c| *c)
}

/// Relies on `hecs::World::get` for `Melee`.
#[verifier::external_body]
pub(crate) fn get_melee(w: &World, e: Entity) -> (r: Option<Melee>)
    ensures
        r == (if rows_of(*w).contains_key(e) { rows_of(*w)[e].melee } else { None }),
{
    w.get::<&Melee>(e).ok().map(|c| *c)
}

/// Relies on `hecs::World::get` for `Item`; the holder is copied out.
#[verifier::external_body]
pub(crate) fn get_item(w: &World, e: Entity) -> (r: Option<Item>)
    ensures
        (match r {
            Some(i) => rows_of(*w).contains_key(e) && rows_of(*w)[e].item == Some(i.view()),
            None => !rows_of(*w).contains_key(e) || rows_of(*w)[e].item is None,
        }),
{
    w.get::<&Item>(e).ok().map(|c| Item { held_by: c.held_by.clone() })
}

/// Relies on `hecs::World::get` for `Metadata`; the identifier is copied out.
#[verifier::external_body]
pub(crate) fn get_id(w: &World, e: Entity) -> (r: Option<String>)
    ensures
        (match r {
            Some(s) => rows_of(*w).contains_key(e) && rows_of(*w)[e].id == Some(s@),
            None => !rows_of(*w).contains_key(e) || rows_of(*w)[e].id is None,
        }),
{
    w.get::<&Metadata>(e).ok().map(|c| c.id.clone())
}

/// Relies on `hecs::World::get` for `&mut Position`: where the entity has the
/// component it is overwritten, and nothing else changes.
#[verifier::external_body]
pub(crate) fn set_position(w: &mut World, e: Entity, v: Position) -> (done: bool)
    ensures
        done == (rows_of(*old(w)).contains_key(e) && rows_of(*old(w))[e].position is Some),
        rows_of(*final(w)) == (if done {
            rows_of(*old(w)).insert(e, Row { position: Some(v), ..rows_of(*old(w))[e] })
        } else {
            rows_of(*old(w))
        }),
{
    match w.get::<&mut Position>(e) {
        Ok(mut c) => {
            *c = v;
            true
        },
        Err(_) => false,
    }
}

/// Relies on `hecs::World::get` for `&mut Velocity`: where the entity has the
/// component it is overwritten, and nothing else changes.
#[verifier::external_body]
pub(crate) fn set_velocity(w: &mut World, e: Entity, v: Velocity) -> (done: bool)
    ensures
        done == (rows_of(*old(w)).contains_key(e) && rows_of(*old(w))[e].velocity is Some),
        rows_of(*final(w)) == (if done {
            rows_of(*old(w)).insert(e, Row { velocity: Some(v), ..rows_of(*old(w))[e] })
        } else {
            rows_of(*old(w))
        }),
{
    match w.get::<&mut Velocity>(e) {
        Ok(mut c) => {
            *c = v;
            true
        },
        Err(_) => false,
    }
}

/// Relies on `hecs::World::get` for `&mut Melee`: where the entity has the
/// component it is overwritten, and nothing else changes.
#[verifier::external_body]
pub(crate) fn set_melee(w: &mut World, e: Entity, v: Melee) -> (done: bool)
    ensures
        done == (rows_of(*old(w)).contains_key(e) && rows_of(*old(w))[e].melee is Some),
        rows_of(*final(w)) == (if done {
            rows_of(*old(w)).insert(e, Row { melee: Some(v), ..rows_of(*old(w))[e] })
        } else {
            rows_of(*old(w))
        }),
{
    match w.get::<&mut Melee>(e) {
        Ok(mut c) => {
            *c = v;
            true
        },
        Err(_) => false,
    }
}

/// Relies on `hecs::World::get` for `&mut Item`: where the entity has the
/// component it is overwritten, and nothing else changes.
#[verifier::external_body]
pub(crate) fn set_item(w: &mut World, e: Entity, v: Item) -> (done: bool)
    ensures
        done == (rows_of(*old(w)).contains_key(e) && rows_of(*old(w))[e].item is Some),
        rows_of(*final(w)) == (if done {
            rows_of(*old(w)).insert(e, Row { item: Some(v.view()), ..rows_of(*old(w))[e] })
        } else {
            rows_of(*old(w))
        }),
{
    match w.get::<&mut Item>(e) {
        Ok(mut c) => {
            *c = v;
            true
        },
        Err(_) => false,
    }
}

} // verus!
