use vstd::prelude::*;
use crate::fluids::particle::Cell;
use crate::grid::{
    block_cell, count_below, count_of, dims_ok, flat_index, index_valid, is_not,
    lemma_count_below_all, lemma_count_below_zero, lemma_count_first, lemma_count_split,
    lemma_count_step, lemma_flat_index_in_range, lemma_order_reaches_all, lemma_product_fits,
    lemma_slot_in_range, lemma_slot_injective, places_of, reached, slot_of, GridView,
};
use crate::lattice::{all_set, at_least, cell_sum, less_than};

verus! {

/// The particles of a simulation as the cell grid sees them: which cell each
/// is in, and the particles laid out cell by cell by a counting sort, so that
/// the particles of a cell are one range of slots.
pub struct ParticleSystem {
    pub particle_num: usize,
    grid_dims: Cell,
    grid_len: usize,
    grid_ids: Vec<usize>,
    grid_offsets: Vec<usize>,
    grid_particles_num: Vec<usize>,
    pub ids: Vec<usize>,
    pub cells: Vec<Cell>,
    ids_buffer: Vec<usize>,
    cells_buffer: Vec<Cell>,
}

impl View for ParticleSystem {
    type V = GridView;

    closed spec fn view(&self) -> GridView {
        GridView {
            dims: self.grid_dims,
            cells: self.cells@,
            ids: self.ids@,
            grid_ids: self.grid_ids@,
            offsets: self.grid_offsets@,
            counts: self.grid_particles_num@,
        }
    }
}

/// `count` times `value`.
fn filled(count: usize, value: usize) -> (all: Vec<usize>)
    ensures
        all@ == Seq::new(count as nat, |i: int| value),
{
    let mut all: Vec<usize> = Vec::new();
    let mut i: usize = 0;
    while i < count
        invariant
            i <= count,
            all@ == Seq::new(i as nat, |i: int| value),
        decreases count - i,
    {
        all.push(value);
        assert(all@ =~= Seq::new((i + 1) as nat, |i: int| value));
        i += 1;
    }
    all
}

impl ParticleSystem {
    /// What the private fields hold beside the view: the lengths that are
    /// kept, and the buffers of the sort.
    pub closed spec fn inv(&self) -> bool {
        &&& self@.wf()
        &&& self.particle_num == self.cells@.len()
        &&& self.grid_len == self@.grid_len()
        &&& self.ids_buffer@.len() == self.cells@.len()
        &&& self.cells_buffer@.len() == self.cells@.len()
    }

    /// The number of particles that the system says it has.
    pub closed spec fn spec_particle_num(&self) -> usize {
        self.particle_num
    }

    /// What `inv` says of the view and of the number of particles.
    pub proof fn lemma_inv(&self)
        requires
            self.inv(),
        ensures
            self@.wf(),
            self.spec_particle_num() == self@.cells.len(),
    {
    }

    /// A system of particles in the given cells, on a grid of `grid_dims`
    /// cells. Nothing is counted yet.
    pub fn new(grid_dims: Cell, cells: Vec<Cell>) -> (system: Self)
        requires
            dims_ok(grid_dims),
        ensures
            system.inv(),
            system@.wf(),
            system.spec_particle_num() == cells@.len(),
            system@.dims == grid_dims,
            system@.cells == cells@,
            system@.ids == Seq::new(cells@.len(), |i: int| i as usize),
            system@.grid_ids == Seq::new(cells@.len(), |i: int| 0usize),
            system@.offsets == Seq::new(system@.grid_len() as nat, |i: int| 0usize),
            system@.counts == Seq::new(system@.grid_len() as nat, |i: int| 0usize),
    {
        proof {
            lemma_product_fits(grid_dims);
        }
        let grid_len: usize = (grid_dims.x * grid_dims.y * grid_dims.z) as usize;
        let particle_num = cells.len();

        let mut ids: Vec<usize> = Vec::new();
        let mut i: usize = 0;
        while i < particle_num
            invariant
                i <= particle_num,
                ids@ == Seq::new(i as nat, |i: int| i as usize),
            decreases particle_num - i,
        {
            ids.push(i);
            assert(ids@ =~= Seq::new((i + 1) as nat, |i: int| i as usize));
            i += 1;
        }
        let cells_buffer = cells.clone();

        ParticleSystem {
            particle_num,
            grid_dims,
            grid_len,
            grid_ids: filled(particle_num, 0),
            grid_offsets: filled(grid_len, 0),
            grid_particles_num: filled(grid_len, 0),
            ids,
            cells,
            ids_buffer: filled(particle_num, 0),
            cells_buffer,
        }
    }

    /// Puts the particle at `slot` in another cell. What was counted and laid
    /// out stays as it was, until the system is next initialized.
    pub fn set_cell(&mut self, slot: usize, cell: Cell)
        requires
            old(self).inv(),
            slot < old(self)@.cells.len(),
        ensures
            final(self).inv(),
            final(self)@.wf(),
            final(self).spec_particle_num() == old(self).spec_particle_num(),
            final(self)@ == (GridView {
                cells: old(self)@.cells.update(slot as int, cell),
                ..old(self)@
            }),
    {
        self.cells.set(slot, cell);
    }

    fn flatten_grid_index(&self, grid_index: Cell) -> (place: usize)
        requires
            self.inv(),
            index_valid(self@.dims, grid_index),
        ensures
            place == flat_index(self@.dims, grid_index),
            place < self@.grid_len(),
    {
        proof {
            lemma_flat_index_in_range(self.grid_dims, grid_index);
        }
        (grid_index.x * self.grid_dims.y * self.grid_dims.z + grid_index.y * self.grid_dims.z
            + grid_index.z) as usize
    }

    /// The place of a cell of the grid in the row of all cells.
    pub fn get_grid_index(&self, cell: &Cell) -> (place: usize)
        requires
            self.inv(),
            index_valid(self@.dims, *cell),
        ensures
            place == flat_index(self@.dims, *cell),
            place < self@.grid_len(),
    {
        self.flatten_grid_index(*cell)
    }

    /// Whether `grid_index` is a cell of the grid.
    pub fn is_index_valid(&self, grid_index: Cell) -> (valid: bool)
        ensures
            valid == index_valid(self@.dims, grid_index),
    {
        all_set(at_least(grid_index, Cell { x: 0, y: 0, z: 0 })) && all_set(
            less_than(grid_index, self.grid_dims),
        )
    }
}

impl ParticleSystem {
    /// Records for each particle the place of its cell, and counts the
    /// particles cell by cell.
    pub fn update_grid_id(&mut self)
        requires
            old(self).inv(),
            old(self)@.inside(),
        ensures
            final(self).inv(),
            final(self)@.wf(),
            final(self)@.located(),
            final(self).spec_particle_num() == old(self).spec_particle_num(),
            final(self)@.dims == old(self)@.dims,
            final(self)@.cells == old(self)@.cells,
            final(self)@.ids == old(self)@.ids,
            final(self)@.offsets == old(self)@.offsets,
    {
        let mut g: usize = 0;
        while g < self.grid_len
            invariant
                g <= self.grid_len,
                self.inv(),
                self@.dims == old(self)@.dims,
                self@.cells == old(self)@.cells,
                self@.ids == old(self)@.ids,
                self@.offsets == old(self)@.offsets,
                self@.grid_ids == old(self)@.grid_ids,
                forall|k: int| 0 <= k < g ==> #[trigger] self@.counts[k] == 0,
            decreases self.grid_len - g,
        {
            self.grid_particles_num.set(g, 0);
            g += 1;
        }

        let mut i: usize = 0;
        while i < self.particle_num
            invariant
                i <= self.particle_num,
                self.inv(),
                self@.inside(),
                self@.dims == old(self)@.dims,
                self@.cells == old(self)@.cells,
                self@.ids == old(self)@.ids,
                self@.offsets == old(self)@.offsets,
                forall|p: int|
                    0 <= p < i ==> #[trigger] self@.grid_ids[p] == flat_index(
                        self@.dims,
                        self@.cells[p],
                    ),
                forall|k: int|
                    0 <= k < self@.grid_len() ==> #[trigger] self@.counts[k] == count_of(
                        self@.grid_ids.take(i as int),
                        k,
                    ),
            decreases self.particle_num - i,
        {
            let ghost before = self@;
            assert(index_valid(self@.dims, self@.cells[i as int]));
            let cell = self.cells[i];
            let grid_index = self.get_grid_index(&cell);
            self.grid_ids.set(i, grid_index);
            proof {
                let taken = self@.grid_ids.take(i + 1);
                assert(taken.drop_last() =~= before.grid_ids.take(i as int));
                assert(taken.last() == grid_index);
                assert(count_of(taken, grid_index as int) <= taken.len()) by {
                    lemma_count_step(taken, grid_index as int);
                }
            }
            let counted = self.grid_particles_num[grid_index];
            self.grid_particles_num.set(grid_index, counted + 1);
            i += 1;
        }
        assert(self@.grid_ids.take(i as int) =~= self@.grid_ids);
    }
}

/// A copy of `source`.
fn copy_of(source: &Vec<usize>) -> (copy: Vec<usize>)
    ensures
        copy@ == source@,
{
    let mut copy: Vec<usize> = Vec::new();
    let mut i: usize = 0;
    while i < source.len()
        invariant
            i <= source@.len(),
            copy@ == source@.take(i as int),
        decreases source@.len() - i,
    {
        copy.push(source[i]);
        assert(copy@ =~= source@.take(i + 1));
        i += 1;
    }
    assert(source@.take(i as int) =~= source@);
    copy
}

impl ParticleSystem {
    /// Lays the particles out cell by cell by a counting sort, and returns for
    /// each particle the slot it has moved to. Within a cell the particles
    /// stand in the reverse of the order they had.
    pub fn sort(&mut self) -> (order: Vec<usize>)
        requires
            old(self).inv(),
            old(self)@.located(),
        ensures
            final(self).inv(),
            final(self)@.wf(),
            final(self)@.sorted(),
            final(self).spec_particle_num() == old(self).spec_particle_num(),
            final(self)@.dims == old(self)@.dims,
            final(self)@.counts == old(self)@.counts,
            final(self)@.cells.len() == old(self)@.cells.len(),
            order@.len() == old(self)@.cells.len(),
            forall|g: int|
                0 <= g < old(self)@.grid_len() ==> #[trigger] final(self)@.offsets[g]
                    == count_below(old(self)@.grid_ids, g),
            forall|p: int|
                0 <= p < order@.len() ==> #[trigger] order@[p] == slot_of(old(self)@.grid_ids, p),
            forall|p: int|
                0 <= p < order@.len() ==> {
                    let slot = #[trigger] order@[p] as int;
                    &&& slot < order@.len()
                    &&& final(self)@.cells[slot] == old(self)@.cells[p]
                    &&& final(self)@.ids[slot] == old(self)@.ids[p]
                    &&& final(self)@.grid_ids[slot] == old(self)@.grid_ids[p]
                },
            forall|p: int, q: int|
                0 <= p < q < order@.len() ==> #[trigger] order@[p] != #[trigger] order@[q],
            forall|slot: int| 0 <= slot < order@.len() ==> #[trigger] reached(order@, slot),
    {
        let ghost before = self@;
        let ghost places = self@.grid_ids;
        let count: usize = self.particle_num;
        let mut grid_particles_num_temp = copy_of(&self.grid_particles_num);
        let mut new_grid_ids: Vec<usize> = filled(count, 0);
        let mut new_ids: Vec<usize> = filled(count, 0);
        let mut total_offset: usize = 0;

        proof {
            lemma_count_below_zero(places);
        }
        let mut g: usize = 0;
        while g < self.grid_len
            invariant
                g <= self.grid_len,
                self.inv(),
                count == self.particle_num,
                self@.dims == before.dims,
                self@.cells == before.cells,
                self@.ids == before.ids,
                self@.grid_ids == places,
                self@.counts == before.counts,
                before.located(),
                places == before.grid_ids,
                total_offset == count_below(places, g as int),
                forall|k: int| 0 <= k < g ==> #[trigger] self@.offsets[k] == count_below(places, k),
            decreases self.grid_len - g,
        {
            proof {
                lemma_count_step(places, g as int);
                assert(before.counts[g as int] == count_of(places, g as int));
            }
            self.grid_offsets.set(g, total_offset);
            total_offset += self.grid_particles_num[g];
            g += 1;
        }

        assert(places.skip(0) =~= places);
        let mut p: usize = 0;
        while p < count
            invariant
                p <= count,
                self.inv(),
                count == self.particle_num,
                self@.dims == before.dims,
                self@.cells == before.cells,
                self@.ids == before.ids,
                self@.grid_ids == places,
                self@.counts == before.counts,
                before.located(),
                before.wf(),
                places == before.grid_ids,
                new_ids@.len() == count,
                grid_particles_num_temp@.len() == before.grid_len(),
                forall|k: int|
                    0 <= k < before.grid_len() ==> #[trigger] self@.offsets[k] == count_below(
                        places,
                        k,
                    ),
                forall|k: int|
                    0 <= k < before.grid_len() ==> #[trigger] grid_particles_num_temp@[k]
                        == count_of(places.skip(p as int), k),
                forall|q: int| 0 <= q < p ==> #[trigger] new_ids@[q] == slot_of(places, q),
            decreases count - p,
        {
            let grid_index = self.grid_ids[p];
            proof {
                assert(index_valid(before.dims, before.cells[p as int]));
                lemma_flat_index_in_range(before.dims, before.cells[p as int]);
                assert(places[p as int] == flat_index(before.dims, before.cells[p as int]));
                lemma_count_first(places.skip(p as int));
                assert(places.skip(p as int).skip(1) =~= places.skip(p + 1));
                assert(places.skip(p + 1) =~= places.subrange(p + 1, places.len() as int));
                lemma_slot_in_range(places, p as int);
                assert forall|k: int| 0 <= k < before.grid_len() && k != grid_index implies count_of(
                    places.skip(p + 1),
                    k,
                ) == count_of(places.skip(p as int), k) by {
                    lemma_count_split(places.skip(p as int), 1, k);
                    assert(places.skip(p as int).take(1).drop_last() =~= Seq::<usize>::empty());
                    assert(count_of(places.skip(p as int).take(1).drop_last(), k) == 0);
                }
            }
            let grid_offset = self.grid_offsets[grid_index];
            let offset = grid_particles_num_temp[grid_index];

            new_ids.set(p, grid_offset + offset - 1);
            grid_particles_num_temp.set(grid_index, offset - 1);
            p += 1;
        }

        proof {
            assert forall|a: int, b: int| 0 <= a < b < count implies #[trigger] new_ids@[a]
                != #[trigger] new_ids@[b] by {
                lemma_slot_injective(places, a, b);
            }
            assert forall|a: int| 0 <= a < count implies #[trigger] new_ids@[a] < count by {
                lemma_slot_in_range(places, a);
            }
        }

        let mut particle_id: usize = 0;
        while particle_id < count
            invariant
                particle_id <= count,
                self.inv(),
                count == self.particle_num,
                self@.dims == before.dims,
                self@.cells == before.cells,
                self@.ids == before.ids,
                self@.grid_ids == places,
                self@.counts == before.counts,
                forall|k: int|
                    0 <= k < before.grid_len() ==> #[trigger] self@.offsets[k] == count_below(
                        places,
                        k,
                    ),
                new_ids@.len() == count,
                new_grid_ids@.len() == count,
                before.located(),
                before.wf(),
                places == before.grid_ids,
                count == before.cells.len(),
                forall|q: int| 0 <= q < count ==> #[trigger] new_ids@[q] == slot_of(places, q),
                forall|a: int| 0 <= a < count ==> #[trigger] new_ids@[a] < count,
                forall|a: int, b: int|
                    0 <= a < b < count ==> #[trigger] new_ids@[a] != #[trigger] new_ids@[b],
                forall|q: int|
                    0 <= q < particle_id ==> {
                        let slot = #[trigger] new_ids@[q] as int;
                        &&& self.cells_buffer@[slot] == before.cells[q]
                        &&& self.ids_buffer@[slot] == before.ids[q]
                        &&& new_grid_ids@[slot] == places[q]
                    },
            decreases count - particle_id,
        {
            let new_particle_id = new_ids[particle_id];
            let ghost cells_so_far = self.cells_buffer@;
            let ghost ids_so_far = self.ids_buffer@;
            let ghost grid_ids_so_far = new_grid_ids@;
            new_grid_ids.set(new_particle_id, self.grid_ids[particle_id]);
            self.ids_buffer.set(new_particle_id, self.ids[particle_id]);
            self.cells_buffer.set(new_particle_id, self.cells[particle_id]);
            proof {
                assert forall|q: int| 0 <= q < particle_id + 1 implies {
                    let slot = #[trigger] new_ids@[q] as int;
                    &&& self.cells_buffer@[slot] == before.cells[q]
                    &&& self.ids_buffer@[slot] == before.ids[q]
                    &&& new_grid_ids@[slot] == places[q]
                } by {
                    if q < particle_id {
                        assert(new_ids@[q] != new_ids@[particle_id as int]);
                    }
                }
            }
            particle_id += 1;
        }

        let ghost sorted_cells = self.cells_buffer@;
        let ghost sorted_ids = self.ids_buffer@;
        let mut i: usize = 0;
        while i < count
            invariant
                i <= count,
                self.inv(),
                count == self.particle_num,
                self@.dims == before.dims,
                self@.counts == before.counts,
                self.cells_buffer@ == sorted_cells,
                self.ids_buffer@ == sorted_ids,
                before.located(),
                before.wf(),
                places == before.grid_ids,
                new_ids@.len() == count,
                count == before.cells.len(),
                forall|a: int| 0 <= a < count ==> #[trigger] new_ids@[a] < count,
                forall|a: int, b: int|
                    0 <= a < b < count ==> #[trigger] new_ids@[a] != #[trigger] new_ids@[b],
                forall|q: int| 0 <= q < count ==> #[trigger] new_ids@[q] == slot_of(places, q),
                forall|q: int|
                    0 <= q < count ==> {
                        let slot = #[trigger] new_ids@[q] as int;
                        &&& sorted_cells[slot] == before.cells[q]
                        &&& sorted_ids[slot] == before.ids[q]
                        &&& new_grid_ids@[slot] == places[q]
                    },
                forall|k: int|
                    0 <= k < before.grid_len() ==> #[trigger] self@.offsets[k] == count_below(
                        places,
                        k,
                    ),
                new_grid_ids@.len() == count,
                forall|slot: int| 0 <= slot < i ==> #[trigger] self@.cells[slot] == sorted_cells[slot],
                forall|slot: int| 0 <= slot < i ==> #[trigger] self@.ids[slot] == sorted_ids[slot],
                forall|slot: int|
                    0 <= slot < i ==> #[trigger] self@.grid_ids[slot] == new_grid_ids@[slot],
            decreases count - i,
        {
            let id = self.ids_buffer[i];
            let cell = self.cells_buffer[i];
            self.ids.set(i, id);
            self.cells.set(i, cell);
            self.grid_ids.set(i, new_grid_ids[i]);
            i += 1;
        }

        proof {
            let after = self@;
            assert forall|slot: int| 0 <= slot < count implies #[trigger] reached(
                new_ids@,
                slot,
            ) by {
                lemma_order_reaches_all(new_ids@, slot);
            }
            lemma_count_below_zero(places);
            assert forall|slot: int| 0 <= slot < count implies index_valid(
                after.dims,
                #[trigger] after.cells[slot],
            ) && after.grid_ids[slot] == flat_index(after.dims, after.cells[slot])
                && after.in_range_of(after.grid_ids[slot] as int, slot) by {
                assert(reached(new_ids@, slot));
                let p = choose|p: int| 0 <= p < count && #[trigger] new_ids@[p] == slot;
                assert(index_valid(before.dims, before.cells[p]));
                assert(places[p] == flat_index(before.dims, before.cells[p]));
                lemma_flat_index_in_range(before.dims, before.cells[p]);
                lemma_slot_in_range(places, p);
                assert(after.offsets[places[p] as int] == count_below(places, places[p] as int));
                assert(before.counts[places[p] as int] == count_of(places, places[p] as int));
            }
            assert(after.inside());
            assert forall|slot: int| 0 <= slot < count implies #[trigger] after.grid_ids[slot]
                == flat_index(after.dims, after.cells[slot]) && after.in_range_of(
                after.grid_ids[slot] as int,
                slot,
            ) by {
                assert(index_valid(after.dims, after.cells[slot]));
            }
            assert(after.placed());
            assert forall|g: int| 0 <= g < after.grid_len() implies #[trigger] after.range_ends(
                g,
            ) by {
                lemma_count_step(places, g);
                assert(before.counts[g] == count_of(places, g));
                if g + 1 == after.grid_len() {
                    assert forall|q: int| 0 <= q < places.len() implies #[trigger] places[q]
                        < after.grid_len() by {
                        assert(index_valid(before.dims, before.cells[q]));
                        lemma_flat_index_in_range(before.dims, before.cells[q]);
                    }
                    lemma_count_below_all(places, after.grid_len());
                }
            }
        }

        new_ids
    }
}

impl ParticleSystem {
    /// Counts the particles cell by cell and lays them out cell by cell.
    /// Returns for each particle the slot it has moved to.
    pub fn initialize_particle_system(&mut self) -> (order: Vec<usize>)
        requires
            old(self).inv(),
            old(self)@.inside(),
        ensures
            final(self).inv(),
            final(self)@.wf(),
            final(self)@.sorted(),
            final(self).spec_particle_num() == old(self).spec_particle_num(),
            final(self)@.dims == old(self)@.dims,
            final(self)@.cells.len() == old(self)@.cells.len(),
            forall|g: int|
                0 <= g < old(self)@.grid_len() ==> #[trigger] final(self)@.counts[g] == count_of(
                    places_of(old(self)@.dims, old(self)@.cells),
                    g,
                ),
            forall|g: int|
                0 <= g < old(self)@.grid_len() ==> #[trigger] final(self)@.offsets[g]
                    == count_below(places_of(old(self)@.dims, old(self)@.cells), g),
            order@.len() == old(self)@.cells.len(),
            forall|p: int|
                0 <= p < order@.len() ==> #[trigger] order@[p] == slot_of(
                    places_of(old(self)@.dims, old(self)@.cells),
                    p,
                ),
            forall|p: int|
                0 <= p < order@.len() ==> {
                    let slot = #[trigger] order@[p] as int;
                    &&& slot < order@.len()
                    &&& final(self)@.cells[slot] == old(self)@.cells[p]
                    &&& final(self)@.ids[slot] == old(self)@.ids[p]
                },
            forall|p: int, q: int|
                0 <= p < q < order@.len() ==> #[trigger] order@[p] != #[trigger] order@[q],
            forall|slot: int| 0 <= slot < order@.len() ==> #[trigger] reached(order@, slot),
    {
        self.update_grid_id();
        assert(self@.grid_ids =~= places_of(old(self)@.dims, old(self)@.cells));
        self.sort()
    }

    /// The particles that may be neighbours of the one at slot `p_i`: those
    /// of the 27 cells around its cell, `p_i` itself left out, cell by cell
    /// with `x` running fastest.
    pub fn for_all_neighbords(&self, p_i: usize) -> (found: Vec<usize>)
        requires
            self.inv(),
            self@.sorted(),
            p_i < self@.cells.len(),
        ensures
            found@ == self@.candidates(p_i),
    {
        let center_cell = self.cells[p_i];
        assert(index_valid(self@.dims, self@.cells[p_i as int]));
        let mut found: Vec<usize> = Vec::new();

        let mut k: i32 = 0;
        while k < 27
            invariant
                0 <= k <= 27,
                self.inv(),
                self@.sorted(),
                p_i < self@.cells.len(),
                center_cell == self@.cells[p_i as int],
                index_valid(self@.dims, center_cell),
                found@ == self@.candidates_upto(p_i, k as int),
            decreases 27 - k,
        {
            let offset = Cell { x: k % 3 - 1, y: (k / 3) % 3 - 1, z: k / 9 - 1 };
            let final_index = cell_sum(center_cell, offset);
            assert(final_index == block_cell(center_cell, k as int));
            let ghost found_before = found@;

            if self.is_index_valid(final_index) {
                let grid_index = self.flatten_grid_index(final_index);
                let base_offset = self.grid_offsets[grid_index];
                let cell_count = self.grid_particles_num[grid_index];
                let ghost all = self@.slots_of_cell(grid_index as int);
                proof {
                    self@.lemma_range_ends_within(grid_index as int);
                }

                let mut j: usize = 0;
                while j < cell_count
                    invariant
                        j <= cell_count,
                        base_offset + cell_count <= usize::MAX,
                        all == self@.slots_of_cell(grid_index as int),
                        all.len() == cell_count,
                        base_offset == self@.offsets[grid_index as int],
                        cell_count == self@.counts[grid_index as int],
                        found@ == found_before + all.take(j as int).filter(is_not(p_i)),
                    decreases cell_count - j,
                {
                    let p_j = base_offset + j;
                    proof {
                        assert(all.take(j + 1) =~= all.take(j as int).push(p_j));
                        all.take(j as int).lemma_filter_push(p_j, is_not(p_i));
                    }
                    if p_i != p_j {
                        found.push(p_j);
                        assert(found@ =~= found_before + all.take(j + 1).filter(is_not(p_i)));
                    }
                    j += 1;
                }
                assert(all.take(j as int) =~= all);
            } else {
                assert(found@ =~= found_before + Seq::<usize>::empty());
            }
            k += 1;
        }

        found
    }
}

/// The values moved as the sort moves the particles: the value of particle
/// `p` stands at slot `order[p]`.
pub fn permuted<T: Copy>(values: &Vec<T>, order: &Vec<usize>) -> (moved: Vec<T>)
    requires
        order@.len() == values@.len(),
        forall|p: int| 0 <= p < order@.len() ==> #[trigger] order@[p] < order@.len(),
        forall|p: int, q: int|
            0 <= p < q < order@.len() ==> #[trigger] order@[p] != #[trigger] order@[q],
    ensures
        moved@.len() == values@.len(),
        forall|p: int| 0 <= p < order@.len() ==> moved@[#[trigger] order@[p] as int] == values@[p],
        forall|slot: int| 0 <= slot < moved@.len() ==> #[trigger] reached(order@, slot),
{
    let count = values.len();
    let mut moved: Vec<T> = Vec::new();
    let mut i: usize = 0;
    while i < count
        invariant
            i <= count,
            count == values@.len(),
            moved@ == values@.take(i as int),
        decreases count - i,
    {
        moved.push(values[i]);
        assert(moved@ =~= values@.take(i + 1));
        i += 1;
    }

    let mut p: usize = 0;
    while p < count
        invariant
            p <= count,
            count == values@.len(),
            order@.len() == count,
            moved@.len() == count,
            forall|p: int| 0 <= p < order@.len() ==> #[trigger] order@[p] < order@.len(),
            forall|p: int, q: int|
                0 <= p < q < order@.len() ==> #[trigger] order@[p] != #[trigger] order@[q],
            forall|q: int| 0 <= q < p ==> moved@[#[trigger] order@[q] as int] == values@[q],
        decreases count - p,
    {
        let slot = order[p];
        let ghost so_far = moved@;
        moved.set(slot, values[p]);
        proof {
            assert forall|q: int| 0 <= q < p + 1 implies moved@[#[trigger] order@[q] as int]
                == values@[q] by {
                if q < p {
                    assert(order@[q] != order@[p as int]);
                    assert(so_far[order@[q] as int] == values@[q]);
                }
            }
        }
        p += 1;
    }
    proof {
        assert forall|slot: int| 0 <= slot < moved@.len() implies #[trigger] reached(
            order@,
            slot,
        ) by {
            lemma_order_reaches_all(order@, slot);
        }
    }
    moved
}

} // verus!
