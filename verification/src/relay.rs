//! The combat relay between the asteroid field and its surroundings:
//! collisions with players become damage, and deaths remove asteroids.

use crate::arena::Asteroid;
use vstd::prelude::*;

verus! {

/// What a player loses when it runs into an asteroid, in health points.
pub const COLLISION_DAMAGE: u32 = 10;

/// A request to take `value` health points from `subject`.
#[derive(Clone, Copy, Debug, PartialEq, Eq, Structural)]
pub struct DamageEvent {
    pub subject: u64,
    pub value: u32,
}

/// The first asteroid that is known under `entity`, if there is one.
pub open spec fn asteroid_with(asteroids: Seq<Asteroid>, entity: u64) -> Option<Asteroid>
    decreases asteroids.len(),
{
    if asteroids.len() == 0 {
        None
    } else if asteroids[0].entity == entity {
        Some(asteroids[0])
    } else {
        asteroid_with(asteroids.skip(1), entity)
    }
}

/// An asteroid is found under `entity` exactly when one of the field has
/// that handle, and the one found has it.
pub proof fn lemma_asteroid_with(asteroids: Seq<Asteroid>, entity: u64)
    ensures
        asteroid_with(asteroids, entity).is_some() <==> (exists|i: int|
            0 <= i < asteroids.len() && (#[trigger] asteroids[i]).entity == entity),
        asteroid_with(asteroids, entity) matches Some(found) ==> found.entity == entity
            && asteroids.contains(found),
    decreases asteroids.len(),
{
    if asteroids.len() > 0 && asteroids[0].entity != entity {
        let rest = asteroids.skip(1);
        lemma_asteroid_with(rest, entity);
        if asteroid_with(rest, entity).is_some() {
            let i = choose|i: int| 0 <= i < rest.len() && (#[trigger] rest[i]).entity == entity;
            assert(asteroids[i + 1].entity == entity);
            let found = asteroid_with(rest, entity).unwrap();
            let at = choose|at: int| 0 <= at < rest.len() && rest[at] == found;
            assert(asteroids[at + 1] == found);
        }
        if exists|i: int| 0 <= i < asteroids.len() && (#[trigger] asteroids[i]).entity == entity {
            let i = choose|i: int|
                0 <= i < asteroids.len() && (#[trigger] asteroids[i]).entity == entity;
            assert(rest[i - 1].entity == entity);
        }
    } else if asteroids.len() > 0 {
        assert(asteroids[0].entity == entity);
    }
}

/// Looks an asteroid up by its handle: the first of the field that has it.
pub fn find_asteroid(asteroids: &Vec<Asteroid>, entity: u64) -> (found: Option<Asteroid>)
    ensures
        found == asteroid_with(asteroids@, entity),
        found.is_some() <==> (exists|i: int|
            0 <= i < asteroids@.len() && (#[trigger] asteroids@[i]).entity == entity),
        found matches Some(asteroid) ==> asteroid.entity == entity && asteroids@.contains(
            asteroid,
        ),
{
    let mut i: usize = 0;
    proof {
        lemma_asteroid_with(asteroids@, entity);
    }
    assert(asteroids@.skip(0) =~= asteroids@);
    while i < asteroids.len()
        invariant
            0 <= i <= asteroids.len(),
            asteroid_with(asteroids@, entity) == asteroid_with(asteroids@.skip(i as int), entity),
        decreases asteroids.len() - i,
    {
        let asteroid = asteroids[i];
        assert(asteroids@.skip(i as int)[0] == asteroid);
        if asteroid.entity == entity {
            return Some(asteroid);
        }
        assert(asteroids@.skip(i as int).skip(1) =~= asteroids@.skip(i + 1));
        i = i + 1;
    }
    None
}

/// Whether `entity` is among `entities`.
pub fn has_entity(entities: &Vec<u64>, entity: u64) -> (found: bool)
    ensures
        found == entities@.contains(entity),
{
    let mut i: usize = 0;
    while i < entities.len()
        invariant
            0 <= i <= entities.len(),
            forall|j: int| 0 <= j < i ==> entities@[j] != entity,
        decreases entities.len() - i,
    {
        if entities[i] == entity {
            return true;
        }
        i = i + 1;
    }
    false
}

/// The damage that one collision causes: a player that meets an asteroid is
/// hurt, whichever of the two comes first in the pair.
pub open spec fn collision_damage(
    asteroids: Seq<Asteroid>,
    players: Seq<u64>,
    collision: (u64, u64),
) -> Seq<DamageEvent> {
    let first: Seq<DamageEvent> = if players.contains(collision.0) && asteroid_with(
        asteroids,
        collision.1,
    ).is_some() {
        seq![DamageEvent { subject: collision.0, value: COLLISION_DAMAGE }]
    } else {
        Seq::empty()
    };
    let second: Seq<DamageEvent> = if players.contains(collision.1) && asteroid_with(
        asteroids,
        collision.0,
    ).is_some() {
        seq![DamageEvent { subject: collision.1, value: COLLISION_DAMAGE }]
    } else {
        Seq::empty()
    };
    first + second
}

/// The damage that `collisions` cause, in their order.
pub open spec fn collisions_damage(
    asteroids: Seq<Asteroid>,
    players: Seq<u64>,
    collisions: Seq<(u64, u64)>,
) -> Seq<DamageEvent>
    decreases collisions.len(),
{
    if collisions.len() == 0 {
        Seq::empty()
    } else {
        collisions_damage(asteroids, players, collisions.drop_last()) + collision_damage(
            asteroids,
            players,
            collisions.last(),
        )
    }
}

/// Turns the collisions of a tick into damage to the players that ran into
/// an asteroid.
pub fn damage_player(
    asteroids: &Vec<Asteroid>,
    players: &Vec<u64>,
    collisions: &Vec<(u64, u64)>,
) -> (damage: Vec<DamageEvent>)
    ensures
        damage@ == collisions_damage(asteroids@, players@, collisions@),
{
    let mut damage: Vec<DamageEvent> = Vec::new();
    let mut i: usize = 0;
    assert(collisions@.take(0) =~= Seq::<(u64, u64)>::empty());
    while i < collisions.len()
        invariant
            0 <= i <= collisions.len(),
            damage@ == collisions_damage(asteroids@, players@, collisions@.take(i as int)),
        decreases collisions.len() - i,
    {
        let collision = collisions[i];
        let ghost before = damage@;
        if has_entity(players, collision.0) && find_asteroid(asteroids, collision.1).is_some() {
            damage.push(DamageEvent { subject: collision.0, value: COLLISION_DAMAGE });
        }
        if has_entity(players, collision.1) && find_asteroid(asteroids, collision.0).is_some() {
            damage.push(DamageEvent { subject: collision.1, value: COLLISION_DAMAGE });
        }
        proof {
            let upto = collisions@.take(i + 1);
            assert(upto.drop_last() =~= collisions@.take(i as int));
            assert(upto.last() == collision);
            assert(damage@ =~= before + collision_damage(asteroids@, players@, collision));
        }
        i = i + 1;
    }
    assert(collisions@.take(i as int) =~= collisions@);
    damage
}

/// The death notices that name an asteroid of the field.
pub open spec fn names_asteroid(asteroids: Seq<Asteroid>) -> spec_fn(u64) -> bool {
    |entity: u64| asteroid_with(asteroids, entity).is_some()
}

/// The asteroid that a death notice names.
pub open spec fn named_asteroid(asteroids: Seq<Asteroid>) -> spec_fn(u64) -> Asteroid {
    |entity: u64| asteroid_with(asteroids, entity).unwrap()
}

/// The asteroids that no death notice names.
pub open spec fn survives(deaths: Seq<u64>) -> spec_fn(Asteroid) -> bool {
    |asteroid: Asteroid| !deaths.contains(asteroid.entity)
}

/// The asteroids that `deaths` destroy, one for each notice that names an
/// asteroid, in the order of the notices.
pub open spec fn destroyed(asteroids: Seq<Asteroid>, deaths: Seq<u64>) -> Seq<Asteroid> {
    deaths.filter(names_asteroid(asteroids)).map_values(named_asteroid(asteroids))
}

/// Removes the asteroids that died. Each notice that names an asteroid of
/// the field gives that asteroid back, for the explosion at its place; a
/// notice that names none is passed over.
pub fn destroy_asteroids(asteroids: &mut Vec<Asteroid>, deaths: &Vec<u64>) -> (exploded: Vec<
    Asteroid,
>)
    ensures
        exploded@ == destroyed(old(asteroids)@, deaths@),
        final(asteroids)@ == old(asteroids)@.filter(survives(deaths@)),
{
    let ghost given = asteroids@;
    let mut exploded: Vec<Asteroid> = Vec::new();
    let mut i: usize = 0;
    proof {
        assert(deaths@.take(0) =~= Seq::<u64>::empty());
        deaths@.take(0).lemma_filter_len(names_asteroid(given));
        assert(destroyed(given, deaths@.take(0)) =~= Seq::<Asteroid>::empty());
    }
    while i < deaths.len()
        invariant
            0 <= i <= deaths.len(),
            asteroids@ == given,
            exploded@ == destroyed(given, deaths@.take(i as int)),
        decreases deaths.len() - i,
    {
        let subject = deaths[i];
        proof {
            let seen = deaths@.take(i as int);
            assert(deaths@.take(i + 1) =~= seen.push(subject));
            seen.lemma_filter_push(subject, names_asteroid(given));
            let named = seen.filter(names_asteroid(given));
            assert(named.push(subject).map_values(named_asteroid(given)) =~= named.map_values(
                named_asteroid(given),
            ).push(named_asteroid(given)(subject)));
        }
        match find_asteroid(asteroids, subject) {
            Some(asteroid) => {
                exploded.push(asteroid);
            },
            None => {},
        }
        i = i + 1;
    }
    assert(deaths@.take(i as int) =~= deaths@);
    let mut kept: Vec<Asteroid> = Vec::new();
    let mut k: usize = 0;
    proof {
        assert(given.take(0) =~= Seq::<Asteroid>::empty());
        given.take(0).lemma_filter_len(survives(deaths@));
    }
    while k < asteroids.len()
        invariant
            0 <= k <= asteroids.len(),
            asteroids@ == given,
            kept@ == given.take(k as int).filter(survives(deaths@)),
        decreases asteroids.len() - k,
    {
        let asteroid = asteroids[k];
        proof {
            assert(given.take(k + 1) =~= given.take(k as int).push(asteroid));
            given.take(k as int).lemma_filter_push(asteroid, survives(deaths@));
        }
        if !has_entity(deaths, asteroid.entity) {
            kept.push(asteroid);
        }
        k = k + 1;
    }
    assert(given.take(k as int) =~= given);
    *asteroids = kept;
    exploded
}

} // verus!
