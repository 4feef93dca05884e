//! The scanner: which cells around a frame are looked at, and what is queued.

use crate::address::{
    intersecting, spec_intersecting, spec_translation_to_address, translation_to_address,
    MapAddress, Translation,
};
use crate::field::{noise_at, occupied, SpawnHashTable};
use crate::queue::{AsteroidData, SpawnQueue};
use vstd::prelude::*;

verus! {

/// The neighbourhood that a frame keeps populated: `radius` cells to every
/// side, each cell `scale` world units wide.
#[derive(Clone, Copy, Debug, PartialEq, Eq, Structural)]
pub struct SpawnArea {
    pub radius: i32,
    pub scale: i32,
}

/// The cell at which a frame was last scanned.
#[derive(Clone, Copy, Debug, PartialEq, Eq, Structural)]
pub struct PreviousSpawnUpdate(pub MapAddress);

/// A tracking frame: where it is, the area it keeps populated and where it
/// was scanned last.
#[derive(Clone, Copy, Debug, PartialEq, Eq, Structural)]
pub struct MapSpawnerBundle {
    pub translation: Translation,
    pub spawn_area: SpawnArea,
    pub previous_spawn_update: PreviousSpawnUpdate,
}

/// The coordinate, on all three axes, of the cell that a new frame
/// remembers: far from where frames start, so that the first scan is a full one.
pub const UNSCANNED_COORDINATE: i32 = 1024;

impl PreviousSpawnUpdate {
    /// What a frame remembers before its first scan.
    pub open spec fn spec_unscanned() -> PreviousSpawnUpdate {
        PreviousSpawnUpdate(
            MapAddress {
                x: UNSCANNED_COORDINATE,
                y: UNSCANNED_COORDINATE,
                z: UNSCANNED_COORDINATE,
            },
        )
    }

    /// What a frame remembers before its first scan.
    pub fn unscanned() -> (previous: PreviousSpawnUpdate)
        ensures
            previous == Self::spec_unscanned(),
    {
        PreviousSpawnUpdate(
            MapAddress {
                x: UNSCANNED_COORDINATE,
                y: UNSCANNED_COORDINATE,
                z: UNSCANNED_COORDINATE,
            },
        )
    }
}

impl SpawnArea {
    /// Both the radius and the cell edge are positive.
    pub open spec fn well_formed(self) -> bool {
        self.radius > 0 && self.scale > 0
    }

    /// The area of that radius and cell edge, where both are positive.
    pub fn new(radius: i32, scale: i32) -> (area: Option<SpawnArea>)
        ensures
            area == if radius > 0 && scale > 0 {
                Some(SpawnArea { radius, scale })
            } else {
                None
            },
            area matches Some(made) ==> made.well_formed(),
    {
        if radius > 0 && scale > 0 {
            Some(SpawnArea { radius, scale })
        } else {
            None
        }
    }

    /// Whether both the radius and the cell edge are positive.
    pub fn is_well_formed(&self) -> (valid: bool)
        ensures
            valid == self.well_formed(),
    {
        self.radius > 0 && self.scale > 0
    }
}

/// The place of the cell `(x, y, z)` of a cube of edge `size` in the order of
/// the scan: `x` runs fastest, `z` slowest.
pub open spec fn flat_index(size: int, x: int, y: int, z: int) -> int {
    z * (size * size) + y * size + x
}

/// The `n`-th cell of the scan around `current`.
pub open spec fn candidate(current: MapAddress, radius: int, n: int) -> MapAddress {
    let size = 2 * radius;
    MapAddress {
        x: (current.x - radius + n % size) as i32,
        y: (current.y - radius + (n % (size * size)) / size) as i32,
        z: (current.z - radius + n / (size * size)) as i32,
    }
}

/// The number of cells of a scan: the cube of the edge `2 * radius`.
pub open spec fn scan_volume(radius: int) -> int {
    (2 * radius) * ((2 * radius) * (2 * radius))
}

/// The cells of the scan around `current`, in the order of the scan.
pub open spec fn candidates(current: MapAddress, radius: int) -> Seq<MapAddress> {
    Seq::new(scan_volume(radius) as nat, |n: int| candidate(current, radius, n))
}

/// Whether `cell` lies in the cube that a scan around `center` walks: from
/// `radius` cells below the centre up to, but without, `radius` cells above.
pub open spec fn in_scan_cube(cell: MapAddress, center: MapAddress, radius: int) -> bool {
    &&& center.x - radius <= cell.x < center.x + radius
    &&& center.y - radius <= cell.y < center.y + radius
    &&& center.z - radius <= cell.z < center.z + radius
}

/// Whether every cell of the scan around `current` has an address.
pub open spec fn scan_fits(current: MapAddress, radius: int) -> bool {
    &&& i32::MIN <= current.x - radius && current.x + radius - 1 <= i32::MAX
    &&& i32::MIN <= current.y - radius && current.y + radius - 1 <= i32::MAX
    &&& i32::MIN <= current.z - radius && current.z + radius - 1 <= i32::MAX
}

/// The test that a scan applies to a cell: it was not inside the
/// neighbourhood of the previous scan.
pub open spec fn unseen(previous: MapAddress, radius: int) -> spec_fn(MapAddress) -> bool {
    |cell: MapAddress| !spec_intersecting(cell, previous, radius)
}

/// The test for an occupied cell as a predicate on cells.
pub open spec fn occupied_in(values: Seq<u8>) -> spec_fn(MapAddress) -> bool {
    |cell: MapAddress| occupied(values, cell)
}

/// The request that an occupied cell gives rise to.
pub open spec fn spawn_request(values: Seq<u8>, cell: MapAddress, scale: i32) -> AsteroidData {
    AsteroidData { address: cell, size: noise_at(values, cell).spec_size() as i32, scale }
}

pub open spec fn request_in(values: Seq<u8>, scale: i32) -> spec_fn(MapAddress) -> AsteroidData {
    |cell: MapAddress| spawn_request(values, cell, scale)
}

/// The cells among `cells` whose noise is evaluated: those that the previous
/// scan did not cover.
pub open spec fn evaluated_among(cells: Seq<MapAddress>, previous: MapAddress, radius: int) -> Seq<
    MapAddress,
> {
    cells.filter(unseen(previous, radius))
}

/// The requests that `cells` give rise to, in their order.
pub open spec fn requests_among(
    values: Seq<u8>,
    cells: Seq<MapAddress>,
    previous: MapAddress,
    radius: int,
    scale: i32,
) -> Seq<AsteroidData> {
    evaluated_among(cells, previous, radius).filter(occupied_in(values)).map_values(
        request_in(values, scale),
    )
}

/// The cells whose noise a scan around `current` evaluates when the scan
/// before it was made around `previous`.
pub open spec fn evaluated_cells(current: MapAddress, previous: MapAddress, radius: int) -> Seq<
    MapAddress,
> {
    evaluated_among(candidates(current, radius), previous, radius)
}

/// The requests that a scan around `current` queues, in their order.
pub open spec fn scan_requests(
    values: Seq<u8>,
    current: MapAddress,
    previous: MapAddress,
    area: SpawnArea,
) -> Seq<AsteroidData> {
    requests_among(
        values,
        candidates(current, area.radius as int),
        previous,
        area.radius as int,
        area.scale,
    )
}

impl MapSpawnerBundle {
    /// A frame at `translation` that has not been scanned yet.
    pub fn new(translation: Translation, spawn_area: SpawnArea) -> (frame: MapSpawnerBundle)
        ensures
            frame.translation == translation,
            frame.spawn_area == spawn_area,
            frame.previous_spawn_update == PreviousSpawnUpdate::spec_unscanned(),
    {
        MapSpawnerBundle {
            translation,
            spawn_area,
            previous_spawn_update: PreviousSpawnUpdate::unscanned(),
        }
    }

    /// The cell that the frame is in.
    pub open spec fn current_address(self) -> MapAddress {
        spec_translation_to_address(self.translation, self.spawn_area.scale as int)
    }

    /// What a scan asks of a frame: a well-formed area, and a neighbourhood
    /// whose cells all have an address.
    pub open spec fn scannable(self) -> bool {
        &&& self.spawn_area.well_formed()
        &&& scan_fits(self.current_address(), self.spawn_area.radius as int)
    }

    /// Whether the frame has left the cell of its last scan.
    pub open spec fn moved(self) -> bool {
        self.current_address() != self.previous_spawn_update.0
    }

    /// What a scan of the frame queues: nothing while it stays in the cell
    /// of its last scan.
    pub open spec fn pending_requests(self, values: Seq<u8>) -> Seq<AsteroidData> {
        if self.moved() {
            scan_requests(
                values,
                self.current_address(),
                self.previous_spawn_update.0,
                self.spawn_area,
            )
        } else {
            Seq::empty()
        }
    }

    /// The frame after a scan: it remembers the cell it is in.
    pub open spec fn scanned(self) -> MapSpawnerBundle {
        MapSpawnerBundle {
            translation: self.translation,
            spawn_area: self.spawn_area,
            previous_spawn_update: PreviousSpawnUpdate(self.current_address()),
        }
    }

    /// Whether the frame can be scanned.
    pub fn is_scannable(&self) -> (valid: bool)
        ensures
            valid == self.scannable(),
    {
        if !self.spawn_area.is_well_formed() {
            return false;
        }
        let current = translation_to_address(self.translation, self.spawn_area.scale);
        let radius: i64 = self.spawn_area.radius as i64;
        let low: i64 = i32::MIN as i64;
        let high: i64 = i32::MAX as i64;
        low <= current.x as i64 - radius && current.x as i64 + radius - 1 <= high && (low
            <= current.y as i64 - radius && current.y as i64 + radius - 1 <= high) && (low
            <= current.z as i64 - radius && current.z as i64 + radius - 1 <= high)
    }
}

/// Adding one cell to the cells of a scan adds its request when the cell is
/// new and occupied, and nothing otherwise.
pub proof fn lemma_requests_among_push(
    values: Seq<u8>,
    cells: Seq<MapAddress>,
    cell: MapAddress,
    previous: MapAddress,
    radius: int,
    scale: i32,
)
    ensures
        requests_among(values, cells.push(cell), previous, radius, scale) == if !spec_intersecting(
            cell,
            previous,
            radius,
        ) && occupied(values, cell) {
            requests_among(values, cells, previous, radius, scale).push(
                spawn_request(values, cell, scale),
            )
        } else {
            requests_among(values, cells, previous, radius, scale)
        },
{
    let fresh = unseen(previous, radius);
    let full = occupied_in(values);
    let request = request_in(values, scale);
    cells.lemma_filter_push(cell, fresh);
    let kept = cells.filter(fresh);
    kept.lemma_filter_push(cell, full);
    let chosen = kept.filter(full);
    if fresh(cell) && full(cell) {
        assert(chosen.push(cell).map_values(request) =~= chosen.map_values(request).push(
            request(cell),
        ));
    }
}

/// The three coordinates of a cell of the cube are found again from its
/// place in the order of the scan.
pub proof fn lemma_flat_index_parts(size: int, x: int, y: int, z: int)
    requires
        0 <= x < size,
        0 <= y < size,
        0 <= z < size,
    ensures
        0 <= flat_index(size, x, y, z) < size * (size * size),
        flat_index(size, x, y, z) % size == x,
        (flat_index(size, x, y, z) % (size * size)) / size == y,
        flat_index(size, x, y, z) / (size * size) == z,
{
    let n = flat_index(size, x, y, z);
    let square = size * size;
    let low = y * size + x;
    assert(0 <= low < square) by (nonlinear_arith)
        requires
            0 <= x < size,
            0 <= y < size,
            low == y * size + x,
            square == size * size,
    ;
    assert(0 <= n < size * square) by (nonlinear_arith)
        requires
            0 <= low < square,
            0 <= z < size,
            n == z * square + low,
    ;
    // n = square * z + low
    assert(n == square * z + low) by (nonlinear_arith)
        requires
            n == z * square + low,
    ;
    vstd::arithmetic::div_mod::lemma_fundamental_div_mod_converse(n, square, z, low);
    // low = size * y + x
    assert(low == size * y + x) by (nonlinear_arith)
        requires
            low == y * size + x,
    ;
    vstd::arithmetic::div_mod::lemma_fundamental_div_mod_converse(low, size, y, x);
    // n = size * (z * size + y) + x
    assert(n == size * (z * size + y) + x) by (nonlinear_arith)
        requires
            n == z * (size * size) + y * size + x,
    ;
    vstd::arithmetic::div_mod::lemma_fundamental_div_mod_converse(n, size, z * size + y, x);
}

/// Scans the neighbourhood of one frame. A frame that is still in the cell of
/// its last scan is left alone. Otherwise every cell of the cube around it
/// that the last scan did not cover is evaluated, in the order of the scan,
/// a request is queued for each occupied one, and the frame remembers the
/// cell it is in.
pub fn scan_frame(
    spawn_hasher: &SpawnHashTable,
    frame: &mut MapSpawnerBundle,
    spawn_queue: &mut SpawnQueue,
)
    requires
        old(frame).scannable(),
    ensures
        *final(frame) == old(frame).scanned(),
        final(spawn_queue)@ == old(spawn_queue)@ + old(frame).pending_requests(
            spawn_hasher.values(),
        ),
{
    let area = frame.spawn_area;
    let current = translation_to_address(frame.translation, area.scale);
    let previous = frame.previous_spawn_update.0;
    let ghost before = spawn_queue@;
    if current == previous {
        assert(before + Seq::<AsteroidData>::empty() =~= before);
        return ;
    }
    let radius: i64 = area.radius as i64;
    let size: i64 = radius * 2;
    let ghost values = spawn_hasher.values();
    let ghost cells = candidates(current, radius as int);
    let mut x: i64 = 0;
    let mut y: i64 = 0;
    let mut z: i64 = 0;
    let ghost mut n: int = 0;
    assert(cells.take(0) =~= Seq::<MapAddress>::empty());
    assert(before + requests_among(values, cells.take(0), previous, radius as int, area.scale)
        =~= before);
    while z < size
        invariant
            area.well_formed(),
            radius == area.radius,
            size == 2 * radius,
            scan_fits(current, radius as int),
            0 <= x < size,
            0 <= y < size,
            0 <= z <= size,
            z == size ==> x == 0 && y == 0,
            n == flat_index(size as int, x as int, y as int, z as int),
            values == spawn_hasher.values(),
            cells == candidates(current, radius as int),
            spawn_queue@ == before + requests_among(
                values,
                cells.take(n),
                previous,
                radius as int,
                area.scale,
            ),
        decreases size - z, size - y, size - x,
    {
        proof {
            lemma_flat_index_parts(size as int, x as int, y as int, z as int);
        }
        let cell = MapAddress {
            x: (current.x as i64 - radius + x) as i32,
            y: (current.y as i64 - radius + y) as i32,
            z: (current.z as i64 - radius + z) as i32,
        };
        let ghost seen = cells.take(n);
        let ghost found = requests_among(values, seen, previous, radius as int, area.scale);
        proof {
            assert(cell == candidate(current, radius as int, n));
            assert(cells.take(n + 1) =~= seen.push(cell));
            lemma_requests_among_push(values, seen, cell, previous, radius as int, area.scale);
        }
        if !intersecting(&cell, &previous, &area.radius) {
            let sample = spawn_hasher.evaluate_noise(&cell);
            if sample.exceeds_cutoff() {
                let size = sample.size();
                let request = AsteroidData { address: cell, size, scale: area.scale };
                spawn_queue.enqueue(request);
                assert((before + found).push(request) =~= before + found.push(request));
            }
        }
        proof {
            lemma_flat_index_step(size as int, x as int, y as int, z as int);
            n = n + 1;
        }
        x = x + 1;
        if x == size {
            x = 0;
            y = y + 1;
            if y == size {
                y = 0;
                z = z + 1;
            }
        }
    }
    proof {
        assert(n == scan_volume(radius as int)) by (nonlinear_arith)
            requires
                n == flat_index(size as int, 0, 0, size as int),
                size == 2 * radius,
        ;
        assert(cells.take(n) =~= cells);
    }
    frame.previous_spawn_update = PreviousSpawnUpdate(current);
}

/// The cell after `(x, y, z)` in the order of the scan has the next place.
proof fn lemma_flat_index_step(size: int, x: int, y: int, z: int)
    requires
        0 <= x < size,
        0 <= y < size,
        0 <= z < size,
    ensures
        x + 1 < size ==> flat_index(size, x + 1, y, z) == flat_index(size, x, y, z) + 1,
        x + 1 == size && y + 1 < size ==> flat_index(size, 0, y + 1, z) == flat_index(size, x, y, z)
            + 1,
        x + 1 == size && y + 1 == size ==> flat_index(size, 0, 0, z + 1) == flat_index(
            size,
            x,
            y,
            z,
        ) + 1,
{
    assert((y + 1) * size == y * size + size) by (nonlinear_arith);
    assert((z + 1) * (size * size) == z * (size * size) + size * size) by (nonlinear_arith);
    assert(y + 1 == size ==> y * size + size == size * size) by (nonlinear_arith);
}

/// The frames after a scan of each.
pub open spec fn scanned_frames(frames: Seq<MapSpawnerBundle>) -> Seq<MapSpawnerBundle> {
    frames.map_values(|frame: MapSpawnerBundle| frame.scanned())
}

/// What a scan of each frame in turn queues.
pub open spec fn requests_of_frames(values: Seq<u8>, frames: Seq<MapSpawnerBundle>) -> Seq<
    AsteroidData,
>
    decreases frames.len(),
{
    if frames.len() == 0 {
        Seq::empty()
    } else {
        requests_of_frames(values, frames.drop_last()) + frames.last().pending_requests(values)
    }
}

/// The scan stage of a tick: scans every frame in turn into the one queue.
pub fn worley_spawner(
    spawn_hasher: &SpawnHashTable,
    frames: &mut Vec<MapSpawnerBundle>,
    spawn_queue: &mut SpawnQueue,
)
    requires
        forall|i: int| 0 <= i < old(frames)@.len() ==> (#[trigger] old(frames)@[i]).scannable(),
    ensures
        final(frames)@ == scanned_frames(old(frames)@),
        final(spawn_queue)@ == old(spawn_queue)@ + requests_of_frames(
            spawn_hasher.values(),
            old(frames)@,
        ),
{
    let ghost before = spawn_queue@;
    let ghost given = frames@;
    let ghost values = spawn_hasher.values();
    let count = frames.len();
    let mut i: usize = 0;
    assert(given.take(0) =~= Seq::<MapSpawnerBundle>::empty());
    assert(before + requests_of_frames(values, given.take(0)) =~= before);
    while i < count
        invariant
            0 <= i <= count,
            count == given.len(),
            frames@.len() == count,
            values == spawn_hasher.values(),
            forall|j: int| 0 <= j < given.len() ==> (#[trigger] given[j]).scannable(),
            forall|j: int| 0 <= j < i ==> frames@[j] == (#[trigger] given[j]).scanned(),
            forall|j: int| i <= j < count ==> frames@[j] == #[trigger] given[j],
            spawn_queue@ == before + requests_of_frames(values, given.take(i as int)),
        decreases count - i,
    {
        let mut frame = frames[i];
        assert(frame == given[i as int] && given[i as int].scannable());
        let ghost found = requests_of_frames(values, given.take(i as int));
        scan_frame(spawn_hasher, &mut frame, spawn_queue);
        frames.set(i, frame);
        proof {
            let upto = given.take(i + 1);
            assert(upto.drop_last() =~= given.take(i as int));
            assert(upto.last() == given[i as int]);
            assert((before + found) + given[i as int].pending_requests(values) =~= before + (found
                + given[i as int].pending_requests(values)));
        }
        i = i + 1;
    }
    proof {
        assert(given.take(count as int) =~= given);
        assert(frames@ =~= scanned_frames(given));
    }
}

} // verus!
