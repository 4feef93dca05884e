//! The stages behind the scan: start-up, turning requests into asteroids,
//! sweeping away what no frame keeps in range, and tearing the field down.

use crate::address::{
    address_to_translation, intersecting, spec_address_to_translation, spec_intersecting,
    spec_translation_to_address, translation_to_address, Translation,
};
use crate::field::{seeded_permutation, SpawnHashTable, SPAWN_SEED};
use crate::queue::{AsteroidData, SpawnQueue};
use crate::spawner::{requests_of_frames, scanned_frames, worley_spawner, MapSpawnerBundle};
use vstd::prelude::*;

verus! {

/// A live asteroid: the handle under which its owner knows it, and the
/// position at which it was placed. It does not move.
#[derive(Clone, Copy, Debug, PartialEq, Eq, Structural)]
pub struct Asteroid {
    pub entity: u64,
    pub translation: Translation,
}

/// Start-up: the noise field of the fixed seed and an empty queue.
pub fn spawn_setup() -> (state: (SpawnHashTable, SpawnQueue))
    ensures
        state.0.values() == seeded_permutation(SPAWN_SEED),
        state.1@ == Seq::<AsteroidData>::empty(),
{
    (SpawnHashTable::new(SPAWN_SEED), SpawnQueue::new())
}

/// Where a request places its asteroid: at the minimum corner of its cell.
pub open spec fn placement(request: AsteroidData) -> Translation {
    spec_address_to_translation(request.address, request.scale as int)
}

/// The placements of `requests`, in their order.
pub open spec fn placements(requests: Seq<AsteroidData>) -> Seq<Translation> {
    requests.map_values(|request: AsteroidData| placement(request))
}

/// The drain stage of a tick: empties the queue and gives the position of
/// one asteroid for each request, in the order of the requests.
pub fn spawn_from_queue(spawn_queue: &mut SpawnQueue) -> (positions: Vec<Translation>)
    ensures
        final(spawn_queue)@ == Seq::<AsteroidData>::empty(),
        positions@ == placements(old(spawn_queue)@),
{
    let ghost pending = spawn_queue@;
    let ghost mut done: int = 0;
    let mut positions: Vec<Translation> = Vec::new();
    assert(pending.skip(0) =~= pending);
    assert(placements(pending.take(0)) =~= Seq::<Translation>::empty());
    while spawn_queue.len() > 0
        invariant
            0 <= done <= pending.len(),
            spawn_queue@ == pending.skip(done),
            positions@ == placements(pending.take(done)),
        decreases spawn_queue@.len(),
    {
        let spawnable_result = spawn_queue.dequeue();
        match spawnable_result {
            Some(spawnable) => {
                let position = address_to_translation(spawnable.address, spawnable.scale);
                positions.push(position);
                proof {
                    assert(spawnable == pending[done]);
                    assert(pending.skip(done).subrange(1, pending.skip(done).len() as int)
                        =~= pending.skip(done + 1));
                    assert(pending.take(done + 1) =~= pending.take(done).push(spawnable));
                    assert(placements(pending.take(done).push(spawnable)) =~= placements(
                        pending.take(done),
                    ).push(placement(spawnable)));
                    done = done + 1;
                }
            },
            None => {},
        }
    }
    proof {
        assert(pending.take(done) =~= pending);
        assert(spawn_queue@ =~= Seq::<AsteroidData>::empty());
    }
    positions
}

/// Whether `translation` lies inside the neighbourhood of `frame`, both
/// taken to cells of the frame's scale.
pub open spec fn in_range_of(translation: Translation, frame: MapSpawnerBundle) -> bool {
    spec_intersecting(
        spec_translation_to_address(translation, frame.spawn_area.scale as int),
        frame.current_address(),
        frame.spawn_area.radius as int,
    )
}

/// Whether at least one frame holds `translation` inside its neighbourhood.
pub open spec fn in_range(translation: Translation, frames: Seq<MapSpawnerBundle>) -> bool {
    exists|i: int| 0 <= i < frames.len() && in_range_of(translation, #[trigger] frames[i])
}

/// The asteroids that stay: those in range of at least one frame.
pub open spec fn retained(frames: Seq<MapSpawnerBundle>) -> spec_fn(Asteroid) -> bool {
    |asteroid: Asteroid| in_range(asteroid.translation, frames)
}

/// The asteroids that go: those that no frame holds in range.
pub open spec fn swept(frames: Seq<MapSpawnerBundle>) -> spec_fn(Asteroid) -> bool {
    |asteroid: Asteroid| !in_range(asteroid.translation, frames)
}

/// Whether all frames have a well-formed area.
pub open spec fn frames_well_formed(frames: Seq<MapSpawnerBundle>) -> bool {
    forall|i: int| 0 <= i < frames.len() ==> (#[trigger] frames[i]).spawn_area.well_formed()
}

/// Whether something at `translation` is kept: it is inside the
/// neighbourhood of at least one frame.
pub fn is_in_range(translation: Translation, frames: &Vec<MapSpawnerBundle>) -> (kept: bool)
    requires
        frames_well_formed(frames@),
    ensures
        kept == in_range(translation, frames@),
{
    let mut i: usize = 0;
    while i < frames.len()
        invariant
            0 <= i <= frames.len(),
            frames_well_formed(frames@),
            forall|j: int| 0 <= j < i ==> !in_range_of(translation, #[trigger] frames@[j]),
        decreases frames.len() - i,
    {
        let frame = frames[i];
        assert(frame == frames@[i as int] && frame.spawn_area.well_formed());
        let entity_address = translation_to_address(translation, frame.spawn_area.scale);
        let spawner_address = translation_to_address(frame.translation, frame.spawn_area.scale);
        if intersecting(&entity_address, &spawner_address, &frame.spawn_area.radius) {
            return true;
        }
        i = i + 1;
    }
    false
}

/// The sweep stage of a tick: removes every asteroid that is inside the
/// neighbourhood of no frame, keeps the others in their order, and gives
/// back the removed ones.
pub fn despawn_cubes(asteroids: &mut Vec<Asteroid>, frames: &Vec<MapSpawnerBundle>) -> (removed:
    Vec<Asteroid>)
    requires
        frames_well_formed(frames@),
    ensures
        final(asteroids)@ == old(asteroids)@.filter(retained(frames@)),
        removed@ == old(asteroids)@.filter(swept(frames@)),
{
    let ghost given = asteroids@;
    let mut kept: Vec<Asteroid> = Vec::new();
    let mut removed: Vec<Asteroid> = Vec::new();
    let mut i: usize = 0;
    proof {
        assert(given.take(0) =~= Seq::<Asteroid>::empty());
        given.take(0).lemma_filter_len(retained(frames@));
        given.take(0).lemma_filter_len(swept(frames@));
    }
    while i < asteroids.len()
        invariant
            0 <= i <= asteroids.len(),
            asteroids@ == given,
            frames_well_formed(frames@),
            kept@ == given.take(i as int).filter(retained(frames@)),
            removed@ == given.take(i as int).filter(swept(frames@)),
        decreases asteroids.len() - i,
    {
        let asteroid = asteroids[i];
        proof {
            assert(given.take(i + 1) =~= given.take(i as int).push(asteroid));
            given.take(i as int).lemma_filter_push(asteroid, retained(frames@));
            given.take(i as int).lemma_filter_push(asteroid, swept(frames@));
        }
        if is_in_range(asteroid.translation, frames) {
            kept.push(asteroid);
        } else {
            removed.push(asteroid);
        }
        i = i + 1;
    }
    proof {
        assert(given.take(i as int) =~= given);
    }
    *asteroids = kept;
    removed
}

/// An asteroid of the field is swept away exactly when every frame's test
/// fails for it, and stays exactly when the test of at least one holds.
pub proof fn lemma_despawn_correct(
    asteroids: Seq<Asteroid>,
    frames: Seq<MapSpawnerBundle>,
    asteroid: Asteroid,
)
    requires
        asteroids.contains(asteroid),
    ensures
        asteroids.filter(swept(frames)).contains(asteroid) <==> (forall|i: int|
            0 <= i < frames.len() ==> !in_range_of(asteroid.translation, #[trigger] frames[i])),
        asteroids.filter(retained(frames)).contains(asteroid) <==> (exists|i: int|
            0 <= i < frames.len() && in_range_of(asteroid.translation, #[trigger] frames[i])),
        asteroids.filter(retained(frames)).contains(asteroid) != asteroids.filter(
            swept(frames),
        ).contains(asteroid),
{
    let keep = retained(frames);
    let sweep = swept(frames);
    let at = choose|at: int| 0 <= at < asteroids.len() && asteroids[at] == asteroid;
    if keep(asteroid) {
        asteroids.lemma_filter_contains(keep, at);
    } else {
        asteroids.lemma_filter_contains(sweep, at);
    }
    if asteroids.filter(keep).contains(asteroid) {
        let k = choose|k: int|
            0 <= k < asteroids.filter(keep).len() && asteroids.filter(keep)[k] == asteroid;
        asteroids.lemma_filter_pred(keep, k);
    }
    if asteroids.filter(sweep).contains(asteroid) {
        let k = choose|k: int|
            0 <= k < asteroids.filter(sweep).len() && asteroids.filter(sweep)[k] == asteroid;
        asteroids.lemma_filter_pred(sweep, k);
    }
}

/// What one tick changes in the world around the field.
pub struct TickChanges {
    /// Where new asteroids are to be placed, in the order of their requests.
    pub spawned: Vec<Translation>,
    /// The asteroids that have left the range of every frame.
    pub removed: Vec<Asteroid>,
}

/// One tick of the field while the game is played: every frame is scanned,
/// the queue is drained into the places of new asteroids, and the asteroids
/// that no frame keeps in range are swept away. While the game is not
/// played nothing happens.
pub fn tick(
    playing: bool,
    spawn_hasher: &SpawnHashTable,
    frames: &mut Vec<MapSpawnerBundle>,
    spawn_queue: &mut SpawnQueue,
    asteroids: &mut Vec<Asteroid>,
) -> (changes: TickChanges)
    requires
        forall|i: int| 0 <= i < old(frames)@.len() ==> (#[trigger] old(frames)@[i]).scannable(),
    ensures
        !playing ==> {
            &&& final(frames)@ == old(frames)@
            &&& final(spawn_queue)@ == old(spawn_queue)@
            &&& final(asteroids)@ == old(asteroids)@
            &&& changes.spawned@ == Seq::<Translation>::empty()
            &&& changes.removed@ == Seq::<Asteroid>::empty()
        },
        playing ==> {
            &&& final(frames)@ == scanned_frames(old(frames)@)
            &&& final(spawn_queue)@ == Seq::<AsteroidData>::empty()
            &&& changes.spawned@ == placements(
                old(spawn_queue)@ + requests_of_frames(spawn_hasher.values(), old(frames)@),
            )
            &&& final(asteroids)@ == old(asteroids)@.filter(retained(final(frames)@))
            &&& changes.removed@ == old(asteroids)@.filter(swept(final(frames)@))
        },
{
    if !playing {
        return TickChanges { spawned: Vec::new(), removed: Vec::new() };
    }
    worley_spawner(spawn_hasher, frames, spawn_queue);
    let spawned = spawn_from_queue(spawn_queue);
    proof {
        assert forall|i: int| 0 <= i < frames@.len() implies (
        #[trigger] frames@[i]).spawn_area.well_formed() by {
            assert(frames@[i] == old(frames)@[i].scanned());
            assert(old(frames)@[i].scannable());
        }
    }
    let removed = despawn_cubes(asteroids, frames);
    TickChanges { spawned, removed }
}

/// The teardown on leaving the game: no asteroid is left, and no request.
pub fn clean_up_map(asteroids: &mut Vec<Asteroid>, spawn_queue: &mut SpawnQueue) -> (removed: Vec<
    Asteroid,
>)
    ensures
        final(asteroids)@ == Seq::<Asteroid>::empty(),
        final(spawn_queue)@ == Seq::<AsteroidData>::empty(),
        removed@ == old(asteroids)@,
{
    let mut removed: Vec<Asteroid> = Vec::new();
    std::mem::swap(asteroids, &mut removed);
    while spawn_queue.len() > 0
        invariant
            asteroids@ == Seq::<Asteroid>::empty(),
            removed@ == old(asteroids)@,
        decreases spawn_queue@.len(),
    {
        let _ = spawn_queue.dequeue();
    }
    assert(spawn_queue@ =~= Seq::<AsteroidData>::empty());
    removed
}

} // verus!
