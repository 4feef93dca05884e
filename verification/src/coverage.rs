//! What a scan covers: the cells it walks, the cells it evaluates, and what
//! that means for a frame that moves or stays.

use crate::address::{spec_intersecting, spec_translation_to_address, MapAddress, Translation};
use crate::queue::AsteroidData;
use crate::spawner::{
    candidate, candidates, evaluated_cells, flat_index, in_scan_cube, lemma_flat_index_parts,
    scan_fits, scan_volume, unseen, MapSpawnerBundle,
};
use vstd::arithmetic::div_mod::{lemma_fundamental_div_mod, lemma_mod_bound, lemma_mod_mod};
use vstd::prelude::*;

verus! {

/// A place in the order of the scan splits into three coordinates of the
/// cube, and is their flat index.
pub proof fn lemma_place_parts(size: int, n: int)
    requires
        size > 0,
        0 <= n < size * (size * size),
    ensures
        0 <= n % size < size,
        0 <= (n % (size * size)) / size < size,
        0 <= n / (size * size) < size,
        n == flat_index(size, n % size, (n % (size * size)) / size, n / (size * size)),
{
    let square = size * size;
    assert(square > 0) by (nonlinear_arith)
        requires
            size > 0,
            square == size * size,
    ;
    lemma_fundamental_div_mod(n, square);
    lemma_mod_bound(n, square);
    let low = n % square;
    let z = n / square;
    assert(0 <= z < size) by (nonlinear_arith)
        requires
            n == square * z + low,
            0 <= low < square,
            0 <= n < size * square,
    ;
    lemma_fundamental_div_mod(low, size);
    lemma_mod_bound(low, size);
    let y = low / size;
    let x = low % size;
    assert(0 <= y < size) by (nonlinear_arith)
        requires
            low == size * y + x,
            0 <= x < size,
            0 <= low < square,
            square == size * size,
    ;
    lemma_mod_mod(n, size, size);
    assert(n == z * square + y * size + x) by (nonlinear_arith)
        requires
            n == square * z + low,
            low == size * y + x,
    ;
}

/// Every cell that a scan walks lies in the cube around the frame, at the
/// coordinates that its place gives.
pub proof fn lemma_candidate_in_cube(current: MapAddress, radius: int, n: int)
    requires
        radius > 0,
        scan_fits(current, radius),
        0 <= n < scan_volume(radius),
    ensures
        in_scan_cube(candidate(current, radius, n), current, radius),
        candidate(current, radius, n).x == current.x - radius + n % (2 * radius),
        candidate(current, radius, n).y == current.y - radius + (n % ((2 * radius) * (2 * radius)))
            / (2 * radius),
        candidate(current, radius, n).z == current.z - radius + n / ((2 * radius) * (2 * radius)),
{
    lemma_place_parts(2 * radius, n);
}

/// Every cell of the cube around the frame is walked by the scan.
pub proof fn lemma_cube_is_walked(current: MapAddress, radius: int, cell: MapAddress)
    requires
        radius > 0,
        scan_fits(current, radius),
        in_scan_cube(cell, current, radius),
    ensures
        candidates(current, radius).contains(cell),
{
    let size = 2 * radius;
    let x = cell.x - current.x + radius;
    let y = cell.y - current.y + radius;
    let z = cell.z - current.z + radius;
    let n = flat_index(size, x, y, z);
    lemma_flat_index_parts(size, x, y, z);
    assert(candidates(current, radius)[n] == cell);
}

/// No cell is walked twice.
pub proof fn lemma_candidates_distinct(current: MapAddress, radius: int)
    requires
        radius > 0,
        scan_fits(current, radius),
    ensures
        candidates(current, radius).no_duplicates(),
{
    let cells = candidates(current, radius);
    assert forall|i: int, j: int|
        0 <= i < cells.len() && 0 <= j < cells.len() && i != j implies cells[i] != cells[j] by {
        lemma_candidate_in_cube(current, radius, i);
        lemma_candidate_in_cube(current, radius, j);
        lemma_place_parts(2 * radius, i);
        lemma_place_parts(2 * radius, j);
    }
}

/// Leaving items out of a sequence without repetitions leaves none repeated.
pub proof fn lemma_filter_keeps_distinct<A>(items: Seq<A>, keep: spec_fn(A) -> bool)
    requires
        items.no_duplicates(),
    ensures
        items.filter(keep).no_duplicates(),
    decreases items.len(),
{
    if items.len() == 0 {
        assert(items.filter(keep).len() == 0) by {
            items.lemma_filter_len(keep);
        }
    } else {
        let front = items.drop_last();
        let last = items.last();
        assert(items =~= front.push(last));
        lemma_filter_keeps_distinct(front, keep);
        front.lemma_filter_push(last, keep);
        if keep(last) {
            let kept = front.filter(keep);
            if kept.contains(last) {
                front.lemma_filter_contains_rev(keep, last);
                let at = choose|at: int| 0 <= at < front.len() && front[at] == last;
                assert(items[at] == items[items.len() - 1]);
            }
            assert(kept.push(last).no_duplicates());
        }
    }
}

/// The cells that a scan evaluates after a frame went from the cell
/// `previous` to the cell `current` are exactly the cells of the cube around
/// `current` that were not inside the neighbourhood of `previous`: none of
/// the covered cells is evaluated again, none of the others is passed over,
/// and none is evaluated twice.
pub proof fn lemma_delta_scan_complete(current: MapAddress, previous: MapAddress, radius: i32)
    requires
        radius > 0,
        scan_fits(current, radius as int),
    ensures
        evaluated_cells(current, previous, radius as int).to_set() == Set::new(
            |cell: MapAddress|
                in_scan_cube(cell, current, radius as int) && !spec_intersecting(
                    cell,
                    previous,
                    radius as int,
                ),
        ),
        evaluated_cells(current, previous, radius as int).no_duplicates(),
{
    let cells = candidates(current, radius as int);
    let fresh = unseen(previous, radius as int);
    let evaluated = evaluated_cells(current, previous, radius as int);
    let shell = Set::new(
        |cell: MapAddress|
            in_scan_cube(cell, current, radius as int) && !spec_intersecting(
                cell,
                previous,
                radius as int,
            ),
    );
    assert forall|cell: MapAddress| evaluated.to_set().contains(cell) == shell.contains(cell) by {
        if evaluated.contains(cell) {
            let at = choose|at: int| 0 <= at < evaluated.len() && evaluated[at] == cell;
            cells.lemma_filter_pred(fresh, at);
            cells.lemma_filter_contains_rev(fresh, cell);
            let n = choose|n: int| 0 <= n < cells.len() && cells[n] == cell;
            lemma_candidate_in_cube(current, radius as int, n);
        }
        if shell.contains(cell) {
            lemma_cube_is_walked(current, radius as int, cell);
            let n = choose|n: int| 0 <= n < cells.len() && cells[n] == cell;
            cells.lemma_filter_contains(fresh, n);
        }
    }
    assert(evaluated.to_set() =~= shell);
    lemma_candidates_distinct(current, radius as int);
    lemma_filter_keeps_distinct(cells, fresh);
}

/// A sequence whose items all pass a test is left whole by it.
pub proof fn lemma_filter_keeps_all<A>(items: Seq<A>, keep: spec_fn(A) -> bool)
    requires
        forall|i: int| 0 <= i < items.len() ==> keep(#[trigger] items[i]),
    ensures
        items.filter(keep) == items,
    decreases items.len(),
{
    if items.len() == 0 {
        items.lemma_filter_len(keep);
        assert(items.filter(keep) =~= items);
    } else {
        let front = items.drop_last();
        let last = items.last();
        assert(items =~= front.push(last));
        lemma_filter_keeps_all(front, keep);
        front.lemma_filter_push(last, keep);
    }
}

/// Whether the neighbourhood of `previous` is out of reach of the cube
/// around `current`: on some axis the two are too far apart to share a cell.
pub open spec fn out_of_reach(current: MapAddress, previous: MapAddress, radius: int) -> bool {
    ||| current.x - previous.x >= 2 * radius || previous.x - current.x >= 2 * radius - 1
    ||| current.y - previous.y >= 2 * radius || previous.y - current.y >= 2 * radius - 1
    ||| current.z - previous.z >= 2 * radius || previous.z - current.z >= 2 * radius - 1
}

/// A frame that jumped out of reach of its last scan, or was never scanned
/// near where it is, has the whole cube evaluated: nothing is passed over.
pub proof fn lemma_far_scan_is_full(current: MapAddress, previous: MapAddress, radius: i32)
    requires
        radius > 0,
        scan_fits(current, radius as int),
        out_of_reach(current, previous, radius as int),
    ensures
        evaluated_cells(current, previous, radius as int) == candidates(current, radius as int),
        evaluated_cells(current, previous, radius as int).len() == scan_volume(radius as int),
{
    let cells = candidates(current, radius as int);
    let fresh = unseen(previous, radius as int);
    assert forall|n: int| 0 <= n < cells.len() implies fresh(#[trigger] cells[n]) by {
        lemma_candidate_in_cube(current, radius as int, n);
    }
    lemma_filter_keeps_all(cells, fresh);
    assert(scan_volume(radius as int) >= 0) by (nonlinear_arith)
        requires
            radius > 0,
    ;
}

/// Whether the cubes that scans around `first` and `second` walk share a cell.
pub open spec fn cubes_overlap(first: MapAddress, second: MapAddress, radius: int) -> bool {
    &&& -2 * radius < first.x - second.x < 2 * radius
    &&& -2 * radius < first.y - second.y < 2 * radius
    &&& -2 * radius < first.z - second.z < 2 * radius
}

/// Where the two cubes share no cell, or the frame moved up along all three
/// axes, the cells evaluated are exactly those of the cube around `current`
/// that the cube around `previous` does not hold. Elsewhere the lowest layer
/// of the cube around `previous` is evaluated again, since it was not inside
/// the neighbourhood.
pub proof fn lemma_delta_scan_of_cubes(current: MapAddress, previous: MapAddress, radius: i32)
    requires
        radius > 0,
        scan_fits(current, radius as int),
        !cubes_overlap(current, previous, radius as int) || (previous.x < current.x && previous.y
            < current.y && previous.z < current.z),
    ensures
        evaluated_cells(current, previous, radius as int).to_set() == Set::new(
            |cell: MapAddress|
                in_scan_cube(cell, current, radius as int) && !in_scan_cube(
                    cell,
                    previous,
                    radius as int,
                ),
        ),
{
    lemma_delta_scan_complete(current, previous, radius);
    let shell = Set::new(
        |cell: MapAddress|
            in_scan_cube(cell, current, radius as int) && !spec_intersecting(
                cell,
                previous,
                radius as int,
            ),
    );
    let outer = Set::new(
        |cell: MapAddress|
            in_scan_cube(cell, current, radius as int) && !in_scan_cube(
                cell,
                previous,
                radius as int,
            ),
    );
    assert(shell =~= outer);
}

/// A frame that is scanned again while it is still in the same cell queues
/// nothing and remembers the same cell.
pub proof fn lemma_stationary_scan_is_idle(
    values: Seq<u8>,
    frame: MapSpawnerBundle,
    next: Translation,
)
    requires
        spec_translation_to_address(next, frame.spawn_area.scale as int)
            == frame.current_address(),
    ensures
        ({
            let again = MapSpawnerBundle { translation: next, ..frame.scanned() };
            &&& again.pending_requests(values) == Seq::<AsteroidData>::empty()
            &&& again.scanned().previous_spawn_update == frame.scanned().previous_spawn_update
        }),
{
}

} // verus!
