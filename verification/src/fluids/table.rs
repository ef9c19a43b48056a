//! The spatial hash table as a mathematical value: what it means for it to be
//! well formed and in step with the particles, what each change makes of it,
//! and what its neighbour queries are to return.

use vstd::prelude::*;
use crate::fluids::particle::{Cell, SmoothedParticle};
use crate::sequences::{lemma_concat_contains, lemma_filter_contains};

verus! {

/// The prime that the `x` coordinate of a cell is multiplied by.
pub const PRIME_X: i32 = 73856093;

/// The prime that the `y` coordinate of a cell is multiplied by.
pub const PRIME_Y: i32 = 19349663;

/// The prime that the `z` coordinate of a cell is multiplied by.
pub const PRIME_Z: i32 = 83492791;

/// One axis of the spatial hash: the coordinate times its prime, modulo 2^32.
#[verifier::opaque]
pub open spec fn axis_hash(coordinate: i32, prime: i32) -> u32 {
    ((coordinate as int * prime as int) % 0x1_0000_0000) as u32
}

/// The spatial hash of a cell: the three axis terms combined by exclusive or.
pub open spec fn spec_hash(cell: Cell) -> u32 {
    axis_hash(cell.x, PRIME_X) ^ axis_hash(cell.y, PRIME_Y) ^ axis_hash(cell.z, PRIME_Z)
}

/// Holds of every id but `id`.
pub open spec fn is_other(id: u32) -> spec_fn(u32) -> bool {
    |e: u32| e != id
}

/// The ids of `bucket` in their order, `id` left out.
pub open spec fn others(bucket: Seq<u32>, id: u32) -> Seq<u32> {
    bucket.filter(is_other(id))
}

/// The `k`-th cell of the 3 x 3 block around `center` in its plane, row by
/// row from the lower left.
pub open spec fn stencil_cell(center: Cell, k: int) -> Cell {
    center.spec_offset((k % 3 - 1) as i32, (k / 3 - 1) as i32, 0)
}

/// `others` keeps exactly the ids of the bucket that are not `id`.
pub proof fn lemma_others_contains(bucket: Seq<u32>, id: u32, e: u32)
    ensures
        others(bucket, id).contains(e) <==> bucket.contains(e) && e != id,
{
    lemma_filter_contains(bucket, is_other(id), e);
}

/// The table as a mathematical value.
pub struct TableView {
    /// The particle array.
    pub particles: Seq<SmoothedParticle>,
    /// The buckets that exist, each as the sequence of the ids that it holds.
    pub buckets: Map<u32, Seq<u32>>,
    /// For each id the hash of its bucket and its rank there.
    pub slots: Map<u32, (u32, usize)>,
}

impl TableView {
    /// The ids in the bucket of `index`; empty where there is no such bucket.
    pub open spec fn bucket(self, index: u32) -> Seq<u32> {
        if self.buckets.contains_key(index) {
            self.buckets[index]
        } else {
            Seq::empty()
        }
    }

    /// The slot recorded for `id` exists and holds `id`.
    pub open spec fn slot_holds(self, id: u32) -> bool {
        let (index, rank) = self.slots[id];
        &&& self.buckets.contains_key(index)
        &&& rank < self.buckets[index].len()
        &&& self.buckets[index][rank as int] == id
    }

    /// The id at `rank` in the bucket of `index` is recorded at that place.
    pub open spec fn place_recorded(self, index: u32, rank: int) -> bool {
        let id = self.buckets[index][rank];
        &&& self.slots.contains_key(id)
        &&& self.slots[id].0 == index
        &&& self.slots[id].1 == rank
    }

    /// Every particle's id is its slot in the array, and the ids and the
    /// places in the buckets correspond one to one: each id stands in exactly
    /// one bucket, exactly once.
    pub open spec fn wf(self) -> bool {
        &&& forall|i: int|
            0 <= i < self.particles.len() ==> (#[trigger] self.particles[i]).id == i
        &&& forall|id: u32| #[trigger]
            self.slots.contains_key(id) <==> id < self.particles.len()
        &&& forall|id: u32| self.slots.contains_key(id) ==> #[trigger] self.slot_holds(id)
        &&& forall|index: u32, rank: int|
            self.buckets.contains_key(index) && 0 <= rank < self.buckets[index].len()
                ==> #[trigger] self.place_recorded(index, rank)
    }

    /// Every particle is recorded under the hash of the cell it is in now.
    pub open spec fn in_sync(self) -> bool {
        forall|id: u32|
            id < self.particles.len() ==> (#[trigger] self.slots[id]).0 == spec_hash(
                self.particles[id as int].cell,
            )
    }

    /// In a table that is well formed and in step with the cells, a bucket
    /// holds exactly the particles whose present cell hashes to it: none is
    /// missing, and none is left behind in a bucket it has moved out of.
    pub proof fn lemma_membership(self, index: u32, id: u32)
        requires
            self.wf(),
            self.in_sync(),
        ensures
            self.bucket(index).contains(id) <==> id < self.particles.len() && spec_hash(
                self.particles[id as int].cell,
            ) == index,
    {
        if self.bucket(index).contains(id) {
            let rank = choose|rank: int|
                0 <= rank < self.bucket(index).len() && self.bucket(index)[rank] == id;
            assert(self.place_recorded(index, rank));
            assert(self.slots[id].0 == index);
        }
        if id < self.particles.len() && spec_hash(self.particles[id as int].cell) == index {
            assert(self.slots.contains_key(id));
            assert(self.slot_holds(id));
            assert(self.slots[id].0 == index);
            assert(self.bucket(index)[self.slots[id].1 as int] == id);
        }
    }

    /// In a well-formed table no id stands twice in a bucket.
    pub proof fn lemma_no_duplicates(self, index: u32)
        requires
            self.wf(),
        ensures
            self.bucket(index).no_duplicates(),
    {
        let bucket = self.bucket(index);
        assert forall|i: int, j: int|
            0 <= i < bucket.len() && 0 <= j < bucket.len() && i != j implies bucket[i]
            != bucket[j] by {
            assert(self.place_recorded(index, i));
            assert(self.place_recorded(index, j));
        }
    }

    /// The table with no particle in it.
    pub open spec fn empty() -> TableView {
        TableView { particles: Seq::empty(), buckets: Map::empty(), slots: Map::empty() }
    }

    /// The table with `id` appended to the bucket of `index`, and nothing
    /// recorded of it.
    pub open spec fn appended(self, id: u32, index: u32) -> TableView {
        TableView { buckets: self.buckets.insert(index, self.bucket(index).push(id)), ..self }
    }

    /// The table after `particle` has come in as the next of the array.
    pub open spec fn inserted(self, particle: SmoothedParticle) -> TableView {
        let index = spec_hash(particle.cell);
        TableView {
            particles: self.particles.push(particle),
            buckets: self.buckets.insert(index, self.bucket(index).push(particle.id)),
            slots: self.slots.insert(particle.id, (index, self.bucket(index).len() as usize)),
        }
    }

    /// The table that taking the particles in one by one, in their order,
    /// gives.
    pub open spec fn built(particles: Seq<SmoothedParticle>) -> TableView
        decreases particles.len(),
    {
        if particles.len() == 0 {
            Self::empty()
        } else {
            Self::built(particles.drop_last()).inserted(particles.last())
        }
    }

    /// Taking a particle in keeps the table well formed, and in step with the
    /// cells if it was.
    pub proof fn lemma_inserted(self, particle: SmoothedParticle)
        requires
            self.wf(),
            particle.id == self.particles.len(),
            self.bucket(spec_hash(particle.cell)).len() <= usize::MAX,
        ensures
            self.inserted(particle).wf(),
            self.in_sync() ==> self.inserted(particle).in_sync(),
    {
        let after = self.inserted(particle);
        let index = spec_hash(particle.cell);
        assert forall|id: u32| after.slots.contains_key(id) implies #[trigger] after.slot_holds(
            id,
        ) by {
            if id != particle.id {
                assert(self.slot_holds(id));
            }
        }
        assert forall|h: u32, rank: int|
            after.buckets.contains_key(h) && 0 <= rank < after.buckets[h].len()
                implies #[trigger] after.place_recorded(h, rank) by {
            if h == index && rank == self.bucket(index).len() {
            } else {
                assert(self.place_recorded(h, rank));
            }
        }
        if self.in_sync() {
            assert forall|id: u32| id < after.particles.len() implies (#[trigger] after.slots[id]).0
                == spec_hash(after.particles[id as int].cell) by {
                if id != particle.id {
                    assert(self.slots[id].0 == spec_hash(self.particles[id as int].cell));
                }
            }
        }
    }

    /// The table with other particles in the array.
    pub open spec fn with_particles(self, particles: Seq<SmoothedParticle>) -> TableView {
        TableView { particles, ..self }
    }

    /// A table stays well formed when particles change and keep their ids:
    /// whether it is in step with their cells is another matter.
    pub proof fn lemma_particles_changed(self, particles: Seq<SmoothedParticle>)
        requires
            self.wf(),
            particles.len() == self.particles.len(),
            forall|i: int|
                0 <= i < particles.len() ==> (#[trigger] particles[i]).id == self.particles[i].id,
        ensures
            self.with_particles(particles).wf(),
    {
        let after = self.with_particles(particles);
        assert forall|id: u32| after.slots.contains_key(id) implies #[trigger] after.slot_holds(
            id,
        ) by {
            assert(self.slot_holds(id));
        }
        assert forall|h: u32, rank: int|
            after.buckets.contains_key(h) && 0 <= rank < after.buckets[h].len()
                implies #[trigger] after.place_recorded(h, rank) by {
            assert(self.place_recorded(h, rank));
        }
    }

    /// The table after `id` has left its place and those behind it in its
    /// bucket have moved up by one. The record of `id` itself is left as it
    /// was.
    pub open spec fn vacated(self, id: u32) -> TableView {
        let (index, rank) = self.slots[id];
        TableView {
            particles: self.particles,
            buckets: self.buckets.insert(index, self.buckets[index].remove(rank as int)),
            slots: Map::new(
                |e: u32| self.slots.contains_key(e),
                |e: u32|
                    if self.slots[e].0 == index && self.slots[e].1 > rank {
                        (index, (self.slots[e].1 - 1) as usize)
                    } else {
                        self.slots[e]
                    },
            ),
        }
    }

    /// The table after `id` has left its place, those behind it in its bucket
    /// have moved up by one, and `id` has been appended to the bucket of
    /// `target`.
    pub open spec fn relocated(self, id: u32, target: u32) -> TableView {
        let vacated = self.vacated(id);
        TableView {
            particles: self.particles,
            buckets: vacated.buckets.insert(target, vacated.bucket(target).push(id)),
            slots: vacated.slots.insert(id, (target, vacated.bucket(target).len() as usize)),
        }
    }

    /// Moving an id to another bucket keeps the table well formed, records the
    /// id under the new hash, and leaves every other id under the hash it had.
    pub proof fn lemma_relocated(self, id: u32, target: u32)
        requires
            self.wf(),
            self.slots.contains_key(id),
            self.vacated(id).bucket(target).len() <= usize::MAX,
        ensures
            self.relocated(id, target).wf(),
            self.relocated(id, target).particles == self.particles,
            self.relocated(id, target).slots[id].0 == target,
            forall|e: u32|
                self.slots.contains_key(e) && e != id ==> (#[trigger] self.relocated(
                    id,
                    target,
                ).slots[e]).0 == self.slots[e].0,
    {
        let after = self.relocated(id, target);
        let (index, rank) = self.slots[id];
        assert(self.slot_holds(id));
        let home = self.buckets[index];
        assert forall|e: u32| after.slots.contains_key(e) implies #[trigger] after.slot_holds(
            e,
        ) by {
            if e != id {
                assert(self.slot_holds(e));
            }
        }
        assert forall|h: u32, q: int|
            after.buckets.contains_key(h) && 0 <= q < after.buckets[h].len()
                implies #[trigger] after.place_recorded(h, q) by {
            if h == index {
                if q < home.len() - 1 {
                    if q < rank {
                        assert(self.place_recorded(h, q));
                    } else {
                        assert(self.place_recorded(h, q + 1));
                    }
                }
            } else if h == target {
                if q < self.bucket(target).len() {
                    assert(self.place_recorded(h, q));
                }
            } else {
                assert(self.place_recorded(h, q));
            }
        }
    }

    /// Whether `id` is recorded under another hash than that of the cell it is
    /// in now.
    pub open spec fn stale(self, id: u32) -> bool {
        self.slots[id].0 != spec_hash(self.particles[id as int].cell)
    }

    /// The table after the stale ones among the first `n` particles have been
    /// moved, in the order of their ids, each to the bucket of its cell.
    pub open spec fn refreshed(self, n: nat) -> TableView
        decreases n,
    {
        if n == 0 {
            self
        } else {
            let earlier = self.refreshed((n - 1) as nat);
            let id = (n - 1) as u32;
            if self.stale(id) {
                earlier.relocated(id, spec_hash(self.particles[id as int].cell))
            } else {
                earlier
            }
        }
    }

    /// Bringing the table up to date moves ids between buckets and changes
    /// nothing else: the particles, and so their number, are as they were.
    pub proof fn lemma_refreshed_particles(self, n: nat)
        ensures
            self.refreshed(n).particles == self.particles,
            self.refreshed(n).particles.len() == self.particles.len(),
        decreases n,
    {
        if n > 0 {
            self.lemma_refreshed_particles((n - 1) as nat);
        }
    }

    /// Where none of the particles from `from` up to `to` is stale, bringing
    /// them up to date changes nothing.
    pub proof fn lemma_refreshed_skip(self, from: nat, to: nat)
        requires
            from <= to <= u32::MAX + 1,
            forall|id: u32| from <= id < to ==> !#[trigger] self.stale(id),
        ensures
            self.refreshed(to) == self.refreshed(from),
        decreases to - from,
    {
        if from < to {
            self.lemma_refreshed_skip(from, (to - 1) as nat);
            assert(!self.stale((to - 1) as u32));
        }
    }

    /// What the first `n` cells of the block around the cell of `id` give: the
    /// contents of their buckets one after the other, `id` left out.
    pub open spec fn neighborhood_upto(self, id: u32, n: int) -> Seq<u32>
        decreases n,
    {
        if n <= 0 {
            Seq::empty()
        } else {
            self.neighborhood_upto(id, n - 1) + others(
                self.bucket(spec_hash(stencil_cell(self.particles[id as int].cell, n - 1))),
                id,
            )
        }
    }

    /// The neighbours of `id`: the contents of the buckets of the nine cells
    /// around its cell, one after the other, `id` left out.
    pub open spec fn neighborhood_2d(self, id: u32) -> Seq<u32> {
        self.neighborhood_upto(id, 9)
    }

    /// What the first `n` cells of the block around `center` give: the
    /// contents of their buckets one after the other.
    pub open spec fn contents_upto(self, center: Cell, n: int) -> Seq<u32>
        decreases n,
    {
        if n <= 0 {
            Seq::empty()
        } else {
            self.contents_upto(center, n - 1) + self.bucket(
                spec_hash(stencil_cell(center, n - 1)),
            )
        }
    }

    /// The particles round a cell: the contents of the buckets of the nine
    /// cells around it, one after the other.
    pub open spec fn neighborhood_at(self, center: Cell) -> Seq<u32> {
        self.contents_upto(center, 9)
    }

    /// What the first `n` cells of the block give is exactly the other
    /// particles whose cell hashes as one of those cells does.
    pub proof fn lemma_neighborhood_upto(self, id: u32, n: int, e: u32)
        requires
            self.wf(),
            self.in_sync(),
            id < self.particles.len(),
            0 <= n <= 9,
        ensures
            self.neighborhood_upto(id, n).contains(e) <==> e < self.particles.len() && e != id
                && exists|k: int|
                0 <= k < n && spec_hash(self.particles[e as int].cell) == spec_hash(
                    #[trigger] stencil_cell(self.particles[id as int].cell, k),
                ),
        decreases n,
    {
        let center = self.particles[id as int].cell;
        if n > 0 {
            let earlier = self.neighborhood_upto(id, n - 1);
            let index = spec_hash(stencil_cell(center, n - 1));
            let last = others(self.bucket(index), id);
            self.lemma_neighborhood_upto(id, n - 1, e);
            lemma_concat_contains(earlier, last, e);
            lemma_others_contains(self.bucket(index), id, e);
            self.lemma_membership(index, e);
            if self.neighborhood_upto(id, n).contains(e) {
                if earlier.contains(e) {
                    let k = choose|k: int|
                        0 <= k < n - 1 && spec_hash(self.particles[e as int].cell) == spec_hash(
                            #[trigger] stencil_cell(center, k),
                        );
                    assert(0 <= k < n);
                } else {
                    assert(spec_hash(self.particles[e as int].cell) == spec_hash(
                        stencil_cell(center, n - 1),
                    ));
                }
            }
            if e < self.particles.len() && e != id && exists|k: int|
                0 <= k < n && spec_hash(self.particles[e as int].cell) == spec_hash(
                    #[trigger] stencil_cell(center, k),
                ) {
                let k = choose|k: int|
                    0 <= k < n && spec_hash(self.particles[e as int].cell) == spec_hash(
                        #[trigger] stencil_cell(center, k),
                    );
                if k < n - 1 {
                    assert(earlier.contains(e));
                } else {
                    assert(last.contains(e));
                }
            }
        }
    }

    /// The neighbours of a particle are exactly the other particles whose
    /// cell hashes as one of the nine cells around its own does.
    pub proof fn lemma_neighborhood_exact(self, id: u32, e: u32)
        requires
            self.wf(),
            self.in_sync(),
            id < self.particles.len(),
        ensures
            self.neighborhood_2d(id).contains(e) <==> e < self.particles.len() && e != id
                && exists|k: int|
                0 <= k < 9 && spec_hash(self.particles[e as int].cell) == spec_hash(
                    #[trigger] stencil_cell(self.particles[id as int].cell, k),
                ),
    {
        self.lemma_neighborhood_upto(id, 9, e);
    }

    /// Every other particle in the 3 x 3 block of cells around the cell of
    /// `id` is among its neighbours: a scan of all particles finds none there
    /// that the table misses.
    pub proof fn lemma_adjacent_found(self, id: u32, e: u32)
        requires
            self.wf(),
            self.in_sync(),
            id < self.particles.len(),
            e < self.particles.len(),
            e != id,
            self.particles[id as int].cell.adjacent_2d(self.particles[e as int].cell),
        ensures
            self.neighborhood_2d(id).contains(e),
    {
        let center = self.particles[id as int].cell;
        let other = self.particles[e as int].cell;
        let (dx, dy) = choose|dx: i32, dy: i32|
            -1 <= dx <= 1 && -1 <= dy <= 1 && other == #[trigger] center.spec_offset(dx, dy, 0);
        let k: int = (dy + 1) * 3 + (dx + 1);
        assert(k % 3 - 1 == dx && k / 3 - 1 == dy);
        assert(stencil_cell(center, k) == other);
        self.lemma_neighborhood_exact(id, e);
    }

    /// What the first `n` cells of the block around a cell give is exactly the
    /// particles whose cell hashes as one of those cells does.
    pub proof fn lemma_contents_upto(self, center: Cell, n: int, e: u32)
        requires
            self.wf(),
            self.in_sync(),
            0 <= n <= 9,
        ensures
            self.contents_upto(center, n).contains(e) <==> e < self.particles.len() && exists|
                k: int,
            |
                0 <= k < n && spec_hash(self.particles[e as int].cell) == spec_hash(
                    #[trigger] stencil_cell(center, k),
                ),
        decreases n,
    {
        if n > 0 {
            let earlier = self.contents_upto(center, n - 1);
            let index = spec_hash(stencil_cell(center, n - 1));
            let last = self.bucket(index);
            self.lemma_contents_upto(center, n - 1, e);
            lemma_concat_contains(earlier, last, e);
            self.lemma_membership(index, e);
            if self.contents_upto(center, n).contains(e) {
                if earlier.contains(e) {
                    let k = choose|k: int|
                        0 <= k < n - 1 && spec_hash(self.particles[e as int].cell) == spec_hash(
                            #[trigger] stencil_cell(center, k),
                        );
                    assert(0 <= k < n);
                } else {
                    assert(spec_hash(self.particles[e as int].cell) == spec_hash(
                        stencil_cell(center, n - 1),
                    ));
                }
            }
            if e < self.particles.len() && exists|k: int|
                0 <= k < n && spec_hash(self.particles[e as int].cell) == spec_hash(
                    #[trigger] stencil_cell(center, k),
                ) {
                let k = choose|k: int|
                    0 <= k < n && spec_hash(self.particles[e as int].cell) == spec_hash(
                        #[trigger] stencil_cell(center, k),
                    );
                if k < n - 1 {
                    assert(earlier.contains(e));
                } else {
                    assert(last.contains(e));
                }
            }
        }
    }

    /// The particles round a cell are exactly those whose cell hashes as one
    /// of the nine cells around it does; every particle in one of those nine
    /// cells is among them.
    pub proof fn lemma_neighborhood_at(self, center: Cell, e: u32)
        requires
            self.wf(),
            self.in_sync(),
        ensures
            self.neighborhood_at(center).contains(e) <==> e < self.particles.len() && exists|
                k: int,
            |
                0 <= k < 9 && spec_hash(self.particles[e as int].cell) == spec_hash(
                    #[trigger] stencil_cell(center, k),
                ),
            e < self.particles.len() && center.adjacent_2d(self.particles[e as int].cell)
                ==> self.neighborhood_at(center).contains(e),
    {
        self.lemma_contents_upto(center, 9, e);
        if e < self.particles.len() && center.adjacent_2d(self.particles[e as int].cell) {
            let other = self.particles[e as int].cell;
            let (dx, dy) = choose|dx: i32, dy: i32|
                -1 <= dx <= 1 && -1 <= dy <= 1 && other == #[trigger] center.spec_offset(
                    dx,
                    dy,
                    0,
                );
            let k: int = (dy + 1) * 3 + (dx + 1);
            assert(k % 3 - 1 == dx && k / 3 - 1 == dy);
            assert(stencil_cell(center, k) == other);
        }
    }
}

} // verus!
