//! The cell grid as a mathematical value: the place of a cell in the row of
//! all cells, the slots that the counting sort gives, what it means for the
//! particles to stand cell by cell, and what the walk over the cells around a
//! particle is to return.

use vstd::prelude::*;
use crate::fluids::particle::Cell;
use crate::sequences::{lemma_concat_contains, lemma_filter_contains};

verus! {

/// Whether a grid has `dims.x` by `dims.y` by `dims.z` cells, none of the
/// three negative, and few enough of them for an `i32` to count, in one slab
/// and in all.
pub open spec fn dims_ok(dims: Cell) -> bool {
    &&& dims.x >= 0
    &&& dims.y >= 0
    &&& dims.z >= 0
    &&& dims.x * dims.y <= i32::MAX
    &&& dims.x * dims.y * dims.z <= i32::MAX
}

/// Whether `index` is a cell of the grid.
pub open spec fn index_valid(dims: Cell, index: Cell) -> bool {
    &&& 0 <= index.x < dims.x
    &&& 0 <= index.y < dims.y
    &&& 0 <= index.z < dims.z
}

/// The place of a cell in the grid laid out in one row: `x` counts whole
/// slabs, `y` whole rows, `z` single cells.
pub open spec fn flat_index(dims: Cell, index: Cell) -> int {
    index.x * dims.y * dims.z + index.y * dims.z + index.z
}

/// A cell of the grid has its place before the end of the row, and the parts
/// of its place fit an `i32`.
pub proof fn lemma_flat_index_in_range(dims: Cell, index: Cell)
    requires
        dims_ok(dims),
        index_valid(dims, index),
    ensures
        0 <= flat_index(dims, index) < dims.x * dims.y * dims.z,
        0 <= index.x * dims.y <= i32::MAX,
        0 <= index.x * dims.y * dims.z <= i32::MAX,
        0 <= index.y * dims.z <= i32::MAX,
        0 <= index.x * dims.y * dims.z + index.y * dims.z <= i32::MAX,
{
    let (x, y, z) = (index.x as int, index.y as int, index.z as int);
    let (dx, dy, dz) = (dims.x as int, dims.y as int, dims.z as int);
    assert(x * dy >= 0 && y * dz >= 0 && x * dy * dz >= 0) by (nonlinear_arith)
        requires
            x >= 0,
            y >= 0,
            dy >= 0,
            dz >= 0,
    ;
    assert((x + 1) * dy <= dx * dy) by (nonlinear_arith)
        requires
            x + 1 <= dx,
            dy >= 0,
    ;
    assert((x + 1) * dy * dz <= dx * dy * dz) by (nonlinear_arith)
        requires
            (x + 1) * dy <= dx * dy,
            dz >= 0,
    ;
    assert((x + 1) * dy * dz == x * dy * dz + dy * dz) by (nonlinear_arith);
    assert((y + 1) * dz <= dy * dz) by (nonlinear_arith)
        requires
            y + 1 <= dy,
            dz >= 0,
    ;
    assert((y + 1) * dz == y * dz + dz) by (nonlinear_arith);
    assert(x * dy <= x * dy * dz) by (nonlinear_arith)
        requires
            x * dy >= 0,
            dz >= 1,
    ;
}

/// Two cells of the grid with the same place are the same cell.
pub proof fn lemma_flat_index_injective(dims: Cell, a: Cell, b: Cell)
    requires
        dims_ok(dims),
        index_valid(dims, a),
        index_valid(dims, b),
        flat_index(dims, a) == flat_index(dims, b),
    ensures
        a == b,
{
    let (dy, dz) = (dims.y as int, dims.z as int);
    let ra = a.y * dz + a.z;
    let rb = b.y * dz + b.z;
    assert(0 <= ra < dy * dz && 0 <= rb < dy * dz) by (nonlinear_arith)
        requires
            0 <= a.y < dy,
            0 <= a.z < dz,
            0 <= b.y < dy,
            0 <= b.z < dz,
            ra == a.y * dz + a.z,
            rb == b.y * dz + b.z,
    ;
    assert(a.x * dy * dz == a.x * (dy * dz) && b.x * dy * dz == b.x * (dy * dz))
        by (nonlinear_arith);
    assert(a.x == b.x) by (nonlinear_arith)
        requires
            a.x * (dy * dz) + ra == b.x * (dy * dz) + rb,
            0 <= ra < dy * dz,
            0 <= rb < dy * dz,
    ;
    assert(a.y == b.y) by (nonlinear_arith)
        requires
            a.y * dz + a.z == b.y * dz + b.z,
            0 <= a.z < dz,
            0 <= b.z < dz,
    ;
}

/// How many of the recorded places are `place`.
pub open spec fn count_of(places: Seq<usize>, place: int) -> nat
    decreases places.len(),
{
    if places.len() == 0 {
        0
    } else {
        count_of(places.drop_last(), place) + if places.last() == place {
            1nat
        } else {
            0nat
        }
    }
}

/// How many of the recorded places lie before `place`.
pub open spec fn count_below(places: Seq<usize>, place: int) -> nat
    decreases places.len(),
{
    if places.len() == 0 {
        0
    } else {
        count_below(places.drop_last(), place) + if places.last() < place {
            1nat
        } else {
            0nat
        }
    }
}

/// The slot that the counting sort gives particle `p`: behind all particles
/// of earlier cells, and within its own cell before those that came before it
/// in the array.
pub open spec fn slot_of(places: Seq<usize>, p: int) -> nat {
    count_below(places, places[p] as int) + count_of(
        places.subrange(p + 1, places.len() as int),
        places[p] as int,
    )
}

/// The places before `place` and those at `place` are the places before the
/// next one, and are no more than there are particles.
pub proof fn lemma_count_step(places: Seq<usize>, place: int)
    ensures
        count_below(places, place + 1) == count_below(places, place) + count_of(places, place),
        count_below(places, place + 1) <= places.len(),
    decreases places.len(),
{
    if places.len() > 0 {
        lemma_count_step(places.drop_last(), place);
    }
}

/// The further on a place, the more places lie before it.
pub proof fn lemma_count_below_monotone(places: Seq<usize>, a: int, b: int)
    requires
        a <= b,
    ensures
        count_below(places, a) <= count_below(places, b),
    decreases places.len(),
{
    if places.len() > 0 {
        lemma_count_below_monotone(places.drop_last(), a, b);
    }
}

/// A count over a sequence is the sum of the counts over its two parts.
pub proof fn lemma_count_split(places: Seq<usize>, k: int, place: int)
    requires
        0 <= k <= places.len(),
    ensures
        count_of(places, place) == count_of(places.take(k), place) + count_of(
            places.skip(k),
            place,
        ),
    decreases places.len(),
{
    if k == places.len() {
        assert(places.take(k) =~= places);
        assert(places.skip(k) =~= Seq::<usize>::empty());
    } else {
        lemma_count_split(places.drop_last(), k, place);
        assert(places.drop_last().take(k) =~= places.take(k));
        assert(places.drop_last().skip(k) =~= places.skip(k).drop_last());
    }
}

/// A place that is recorded is counted.
pub proof fn lemma_count_first(places: Seq<usize>)
    requires
        places.len() > 0,
    ensures
        count_of(places, places[0] as int) == 1 + count_of(places.skip(1), places[0] as int),
{
    lemma_count_split(places, 1, places[0] as int);
    assert(places.take(1).drop_last() =~= Seq::<usize>::empty());
    assert(count_of(places.take(1).drop_last(), places[0] as int) == 0);
    assert(places.take(1).last() == places[0]);
}

/// No place lies before the first.
pub proof fn lemma_count_below_zero(places: Seq<usize>)
    ensures
        count_below(places, 0) == 0,
    decreases places.len(),
{
    if places.len() > 0 {
        lemma_count_below_zero(places.drop_last());
    }
}

/// Every place lies before a place that none reaches.
pub proof fn lemma_count_below_all(places: Seq<usize>, end: int)
    requires
        forall|q: int| 0 <= q < places.len() ==> #[trigger] places[q] < end,
    ensures
        count_below(places, end) == places.len(),
    decreases places.len(),
{
    if places.len() > 0 {
        lemma_count_below_all(places.drop_last(), end);
    }
}

/// The slot of a particle lies in the range of its cell: not before the
/// particles of earlier cells, and before those of later ones.
pub proof fn lemma_slot_in_range(places: Seq<usize>, p: int)
    requires
        0 <= p < places.len(),
    ensures
        count_below(places, places[p] as int) <= slot_of(places, p),
        slot_of(places, p) < count_below(places, places[p] as int) + count_of(
            places,
            places[p] as int,
        ),
        slot_of(places, p) < places.len(),
{
    let place = places[p] as int;
    let n = places.len() as int;
    lemma_count_split(places, p, place);
    lemma_count_first(places.skip(p));
    assert(places.skip(p).skip(1) =~= places.subrange(p + 1, n));
    lemma_count_step(places, place);
}

/// No two particles get the same slot.
pub proof fn lemma_slot_injective(places: Seq<usize>, p: int, q: int)
    requires
        0 <= p < q < places.len(),
    ensures
        slot_of(places, p) != slot_of(places, q),
{
    let n = places.len() as int;
    let a = places[p] as int;
    let b = places[q] as int;
    lemma_slot_in_range(places, p);
    lemma_slot_in_range(places, q);
    if a == b {
        let behind = places.subrange(p + 1, n);
        lemma_count_split(behind, q - p - 1, a);
        lemma_count_first(behind.skip(q - p - 1));
        assert(behind.skip(q - p - 1).skip(1) =~= places.subrange(q + 1, n));
    } else if a < b {
        lemma_count_step(places, a);
        lemma_count_below_monotone(places, a + 1, b);
    } else {
        lemma_count_step(places, b);
        lemma_count_below_monotone(places, b + 1, a);
    }
}

/// Whether some particle is sent to `slot`.
pub open spec fn reached(order: Seq<usize>, slot: int) -> bool {
    exists|p: int| 0 <= p < order.len() && #[trigger] order[p] == slot
}

/// An order that sends the slots below `n` to slots below `n`, no two to the
/// same, reaches every slot below `n`.
pub proof fn lemma_order_reaches_all(order: Seq<usize>, t: int)
    requires
        forall|p: int| 0 <= p < order.len() ==> #[trigger] order[p] < order.len(),
        forall|p: int, q: int|
            0 <= p < q < order.len() ==> #[trigger] order[p] != #[trigger] order[q],
        0 <= t < order.len(),
    ensures
        reached(order, t),
{
    let n = order.len() as int;
    let slots = vstd::set_lib::set_int_range(0, n);
    let to = |p: int| order[p] as int;
    let reached = slots.map(to);
    vstd::set_lib::lemma_int_range(0, n);
    assert(vstd::relations::injective_on(to, slots)) by {
        assert forall|x1: int, x2: int|
            slots.contains(x1) && slots.contains(x2) && #[trigger] to(x1) == #[trigger] to(
                x2,
            ) implies x1 == x2 by {
            if x1 < x2 {
                assert(order[x1] != order[x2]);
            } else if x2 < x1 {
                assert(order[x2] != order[x1]);
            }
        }
    }
    vstd::set_lib::lemma_map_size(slots, reached, to);
    assert(reached.subset_of(slots)) by {
        assert forall|v: int| reached.contains(v) implies slots.contains(v) by {
            let x = choose|x: int| slots.contains(x) && v == to(x);
            assert(order[x] < order.len());
        }
    }
    vstd::set_lib::lemma_subset_equality(reached, slots);
    assert(slots.contains(t));
    assert(reached.contains(t));
    let p = choose|p: int| slots.contains(p) && t == to(p);
    assert(0 <= p < order.len() && order[p] == t);
}

/// Holds of every slot but `slot`.
pub open spec fn is_not(slot: usize) -> spec_fn(usize) -> bool {
    |other: usize| other != slot
}

/// The `k`-th cell of the 3 x 3 x 3 block around `center`: `x` runs fastest,
/// then `y`, then `z`, each from one below to one above.
pub open spec fn block_cell(center: Cell, k: int) -> Cell {
    Cell {
        x: (center.x + k % 3 - 1) as i32,
        y: (center.y + (k / 3) % 3 - 1) as i32,
        z: (center.z + k / 9 - 1) as i32,
    }
}

/// Whether `other` is in the 3 x 3 x 3 block of cells around `center`.
pub open spec fn in_block(center: Cell, other: Cell) -> bool {
    &&& -1 <= other.x - center.x <= 1
    &&& -1 <= other.y - center.y <= 1
    &&& -1 <= other.z - center.z <= 1
}

/// The place of each cell in the row of all cells.
pub open spec fn places_of(dims: Cell, cells: Seq<Cell>) -> Seq<usize> {
    Seq::new(cells.len(), |p: int| flat_index(dims, cells[p]) as usize)
}

/// The grid as a mathematical value.
pub struct GridView {
    /// How many cells the grid has along each axis.
    pub dims: Cell,
    /// The cell that each particle is in.
    pub cells: Seq<Cell>,
    /// For each particle, the slot it had when the system was made.
    pub ids: Seq<usize>,
    /// The place in the row of cells recorded for each particle.
    pub grid_ids: Seq<usize>,
    /// For each cell, the slot of the first of its particles.
    pub offsets: Seq<usize>,
    /// For each cell, how many particles it holds.
    pub counts: Seq<usize>,
}

impl GridView {
    /// How many cells the grid has.
    pub open spec fn grid_len(self) -> int {
        self.dims.x * self.dims.y * self.dims.z
    }

    /// The arrays have the lengths that belong to the number of particles and
    /// of cells.
    pub open spec fn wf(self) -> bool {
        &&& dims_ok(self.dims)
        &&& self.cells.len() <= usize::MAX
        &&& self.ids.len() == self.cells.len()
        &&& self.grid_ids.len() == self.cells.len()
        &&& self.offsets.len() == self.grid_len()
        &&& self.counts.len() == self.grid_len()
    }

    /// Every particle is in a cell of the grid.
    pub open spec fn inside(self) -> bool {
        forall|p: int| 0 <= p < self.cells.len() ==> index_valid(self.dims, #[trigger] self.cells[p])
    }

    /// Every particle is recorded at the place of its cell.
    pub open spec fn placed(self) -> bool {
        forall|p: int|
            0 <= p < self.cells.len() ==> #[trigger] self.grid_ids[p] == flat_index(
                self.dims,
                self.cells[p],
            )
    }

    /// The particles are recorded at their cells and counted cell by cell.
    pub open spec fn located(self) -> bool {
        &&& self.inside()
        &&& self.placed()
        &&& forall|g: int|
            0 <= g < self.grid_len() ==> #[trigger] self.counts[g] == count_of(self.grid_ids, g)
    }

    /// The slots of the particles of cell `g`.
    pub open spec fn in_range_of(self, g: int, slot: int) -> bool {
        self.offsets[g] <= slot < self.offsets[g] + self.counts[g]
    }

    /// The range of cell `g` ends where that of the next cell begins, or, for
    /// the last cell, where the array ends.
    pub open spec fn range_ends(self, g: int) -> bool {
        self.offsets[g] + self.counts[g] == (if g + 1 < self.grid_len() {
            self.offsets[g + 1] as int
        } else {
            self.cells.len() as int
        })
    }

    /// The particles stand cell by cell: the cells' ranges of slots follow one
    /// another from slot 0 and fill the array, and each particle stands in the
    /// range of its cell.
    pub open spec fn sorted(self) -> bool {
        &&& self.inside()
        &&& self.placed()
        &&& forall|g: int| 0 <= g < self.grid_len() ==> #[trigger] self.range_ends(g)
        &&& self.grid_len() > 0 ==> self.offsets[0] == 0
        &&& forall|p: int|
            0 <= p < self.cells.len() ==> self.in_range_of(#[trigger] self.grid_ids[p] as int, p)
    }

    /// The slots of the particles of cell `g`, in their order.
    pub open spec fn slots_of_cell(self, g: int) -> Seq<usize> {
        Seq::new(self.counts[g] as nat, |j: int| (self.offsets[g] + j) as usize)
    }

    /// What the `k`-th cell of the block around the cell of `slot` gives: the
    /// slots of its particles but `slot`, or nothing where the grid has no
    /// such cell.
    pub open spec fn cell_candidates(self, slot: usize, k: int) -> Seq<usize> {
        let cell = block_cell(self.cells[slot as int], k);
        if index_valid(self.dims, cell) {
            self.slots_of_cell(flat_index(self.dims, cell)).filter(is_not(slot))
        } else {
            Seq::empty()
        }
    }

    /// What the first `n` cells of the block give, one after the other.
    pub open spec fn candidates_upto(self, slot: usize, n: int) -> Seq<usize>
        decreases n,
    {
        if n <= 0 {
            Seq::empty()
        } else {
            self.candidates_upto(slot, n - 1) + self.cell_candidates(slot, n - 1)
        }
    }

    /// The particles that may be neighbours of the one at `slot`: those of
    /// the 27 cells around its cell, cell by cell.
    pub open spec fn candidates(self, slot: usize) -> Seq<usize> {
        self.candidates_upto(slot, 27)
    }

    /// In a sorted grid no cell's range goes past the end of the array.
    pub proof fn lemma_range_ends_within(self, g: int)
        requires
            self.wf(),
            self.sorted(),
            0 <= g < self.grid_len(),
        ensures
            self.offsets[g] + self.counts[g] <= self.cells.len(),
        decreases self.grid_len() - g,
    {
        assert(self.range_ends(g));
        if g + 1 < self.grid_len() {
            self.lemma_range_ends_within(g + 1);
        }
    }

    /// In a sorted grid the ranges of the cells follow one another: that of an
    /// earlier cell ends before that of a later one begins.
    pub proof fn lemma_ranges_in_order(self, a: int, b: int)
        requires
            self.wf(),
            self.sorted(),
            0 <= a < b < self.grid_len(),
        ensures
            self.offsets[a] + self.counts[a] <= self.offsets[b],
        decreases b - a,
    {
        assert(self.range_ends(a));
        if a + 1 < b {
            self.lemma_ranges_in_order(a + 1, b);
        }
    }

    /// In a sorted grid the range of a cell holds exactly the particles that
    /// are in that cell.
    pub proof fn lemma_range_is_cell(self, g: int, slot: int)
        requires
            self.wf(),
            self.sorted(),
            0 <= g < self.grid_len(),
        ensures
            self.in_range_of(g, slot) <==> 0 <= slot < self.cells.len() && self.grid_ids[slot]
                == g,
    {
        if self.in_range_of(g, slot) {
            self.lemma_range_ends_within(g);
            let home = self.grid_ids[slot] as int;
            assert(self.in_range_of(home, slot));
            assert(index_valid(self.dims, self.cells[slot]));
            lemma_flat_index_in_range(self.dims, self.cells[slot]);
            if home < g {
                self.lemma_ranges_in_order(home, g);
            } else if g < home {
                self.lemma_ranges_in_order(g, home);
            }
        }
        if 0 <= slot < self.cells.len() && self.grid_ids[slot] == g {
            assert(self.in_range_of(self.grid_ids[slot] as int, slot));
        }
    }

    /// The candidates that the first `n` cells of the block give are exactly
    /// the other particles in those cells.
    pub proof fn lemma_candidates_upto(self, slot: usize, n: int, other: usize)
        requires
            self.wf(),
            self.sorted(),
            slot < self.cells.len(),
            0 <= n <= 27,
        ensures
            self.candidates_upto(slot, n).contains(other) <==> other < self.cells.len() && other
                != slot && exists|k: int|
                0 <= k < n && self.cells[other as int] == #[trigger] block_cell(
                    self.cells[slot as int],
                    k,
                ),
        decreases n,
    {
        let center = self.cells[slot as int];
        if n > 0 {
            let earlier = self.candidates_upto(slot, n - 1);
            let last = self.cell_candidates(slot, n - 1);
            let cell = block_cell(center, n - 1);
            self.lemma_candidates_upto(slot, n - 1, other);
            lemma_concat_contains(earlier, last, other);
            let in_last = other < self.cells.len() && other != slot && self.cells[other as int]
                == cell;
            assert(last.contains(other) <==> in_last) by {
                if index_valid(self.dims, cell) {
                    let g = flat_index(self.dims, cell);
                    lemma_flat_index_in_range(self.dims, cell);
                    let all = self.slots_of_cell(g);
                    lemma_filter_contains(all, is_not(slot), other);
                    self.lemma_range_is_cell(g, other as int);
                    self.lemma_range_ends_within(g);
                    if all.contains(other) {
                        let j = choose|j: int| 0 <= j < all.len() && all[j] == other;
                        assert(self.in_range_of(g, other as int));
                    }
                    if self.in_range_of(g, other as int) {
                        assert(all[other - self.offsets[g]] == other);
                    }
                    if other < self.cells.len() {
                        assert(index_valid(self.dims, self.cells[other as int]));
                        assert(self.grid_ids[other as int] == flat_index(
                            self.dims,
                            self.cells[other as int],
                        ));
                        if self.grid_ids[other as int] == g {
                            lemma_flat_index_injective(self.dims, self.cells[other as int], cell);
                        }
                    }
                } else {
                    if other < self.cells.len() {
                        assert(index_valid(self.dims, self.cells[other as int]));
                    }
                }
            }
            if self.candidates_upto(slot, n).contains(other) {
                if earlier.contains(other) {
                    let k = choose|k: int|
                        0 <= k < n - 1 && self.cells[other as int] == #[trigger] block_cell(
                            center,
                            k,
                        );
                    assert(0 <= k < n);
                } else {
                    assert(self.cells[other as int] == block_cell(center, n - 1));
                }
            }
            if other < self.cells.len() && other != slot && exists|k: int|
                0 <= k < n && self.cells[other as int] == #[trigger] block_cell(center, k) {
                let k = choose|k: int|
                    0 <= k < n && self.cells[other as int] == #[trigger] block_cell(center, k);
                if k < n - 1 {
                    assert(earlier.contains(other));
                } else {
                    assert(last.contains(other));
                }
            }
        }
    }

    /// In a sorted grid the candidates of a particle are exactly the other
    /// particles in the 27 cells around its cell: what a scan of all
    /// particles would find there, and no other.
    pub proof fn lemma_candidates_exact(self, slot: usize, other: usize)
        requires
            self.wf(),
            self.sorted(),
            slot < self.cells.len(),
        ensures
            self.candidates(slot).contains(other) <==> other < self.cells.len() && other != slot
                && in_block(self.cells[slot as int], self.cells[other as int]),
    {
        let center = self.cells[slot as int];
        self.lemma_candidates_upto(slot, 27, other);
        assert(index_valid(self.dims, center));
        if other < self.cells.len() {
            let there = self.cells[other as int];
            assert(index_valid(self.dims, there));
            if in_block(center, there) {
                let k = (there.z - center.z + 1) * 9 + (there.y - center.y + 1) * 3 + (there.x
                    - center.x + 1);
                assert(block_cell(center, k) == there);
            }
            if exists|k: int| 0 <= k < 27 && there == #[trigger] block_cell(center, k) {
                let k = choose|k: int| 0 <= k < 27 && there == #[trigger] block_cell(center, k);
                assert(in_block(center, there));
            }
        }
    }
}

/// The partial products of the sides of a grid fit an `i32` where the number
/// of its cells does.
pub proof fn lemma_product_fits(dims: Cell)
    requires
        dims_ok(dims),
    ensures
        0 <= dims.x * dims.y <= i32::MAX,
        0 <= dims.x * dims.y * dims.z <= i32::MAX,
{
    let (dx, dy, dz) = (dims.x as int, dims.y as int, dims.z as int);
    assert(dx * dy >= 0) by (nonlinear_arith)
        requires
            dx >= 0,
            dy >= 0,
    ;
    assert(dx * dy * dz >= 0) by (nonlinear_arith)
        requires
            dx * dy >= 0,
            dz >= 0,
    ;
}

} // verus!
