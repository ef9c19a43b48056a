use std::collections::BTreeMap;
use vstd::pervasive::unreached;
use vstd::prelude::*;
use crate::fluids::particle::{Cell, SmoothedParticle};
use crate::fluids::table::{
    axis_hash, is_other, others, spec_hash, stencil_cell, TableView, PRIME_X, PRIME_Y, PRIME_Z,
};

verus! {

/// One axis of the hash: the product, wrapped round, read as unsigned.
fn hash_axis(coordinate: i32, prime: i32) -> (term: u32)
    ensures
        term == axis_hash(coordinate, prime),
{
    let product: i32 = coordinate.wrapping_mul(prime);
    let term: u32 = product as u32;
    proof {
        reveal(axis_hash);
        let m: int = (coordinate as int * prime as int) % 0x1_0000_0000;
        assert(0 <= m < 0x1_0000_0000);
        assert(product < 0 ==> product as u32 == product + 0x1_0000_0000) by (bit_vector);
        assert(product >= 0 ==> product as u32 == product) by (bit_vector);
    }
    term
}

/// The neighbours of one particle, as found by one query: valid until the
/// table is next brought up to date.
pub struct Neighborhood {
    pub neighbors: Vec<u32>,
}

impl Neighborhood {
    /// The neighbourhood that holds the given ids.
    pub fn new(neighbors: Vec<u32>) -> (neighborhood: Self)
        ensures
            neighborhood.neighbors == neighbors,
    {
        Neighborhood { neighbors }
    }

    /// How many neighbours there are.
    pub fn get_len(&self) -> (len: usize)
        ensures
            len == self.neighbors@.len(),
    {
        self.neighbors.len()
    }
}

/// A spatial hash table over the particle array: for each hash the bucket of
/// the ids of the particles whose cell hashes to it, and for each id the hash
/// and the rank at which that id stands in its bucket.
pub struct TableMap {
    pub particles: Vec<SmoothedParticle>,
    entries: BTreeMap<u32, Vec<u32>>,
    ids: BTreeMap<u32, (u32, usize)>,
    table_size: i32,
}

impl View for TableMap {
    type V = TableView;

    closed spec fn view(&self) -> TableView {
        TableView {
            particles: self.particles@,
            buckets: Map::new(
                |h: u32| self.entries@.contains_key(h),
                |h: u32| self.entries@[h]@,
            ),
            slots: self.ids@,
        }
    }
}

impl TableMap {
    /// The hash of a cell. The size of the table plays no part in it.
    pub fn hash(cell: Cell, _table_size: i32) -> (index: u32)
        ensures
            index == spec_hash(cell),
    {
        hash_axis(cell.x, PRIME_X) ^ hash_axis(cell.y, PRIME_Y) ^ hash_axis(cell.z, PRIME_Z)
    }

    /// The number of particles that the table was last sized for.
    pub closed spec fn spec_table_size(&self) -> i32 {
        self.table_size
    }

    /// A table with no particle and no bucket.
    pub fn new() -> (table: Self)
        ensures
            table@.wf(),
            table@.in_sync(),
            table@.particles == Seq::<SmoothedParticle>::empty(),
            table@.buckets == Map::<u32, Seq<u32>>::empty(),
            table@.slots == Map::<u32, (u32, usize)>::empty(),
            table.spec_table_size() == 1,
    {
        let table = TableMap {
            particles: Vec::new(),
            entries: BTreeMap::new(),
            ids: BTreeMap::new(),
            table_size: 1,
        };
        assert(table@.buckets =~= Map::<u32, Seq<u32>>::empty());
        assert(table@.particles =~= Seq::<SmoothedParticle>::empty());
        table
    }

    /// The number of particles that the table was last sized for: 1 for a new
    /// table, then the number of particles as of the last that came in.
    pub fn table_size(&self) -> (size: i32)
        ensures
            size == self.spec_table_size(),
    {
        self.table_size
    }

    /// The recorded hash and rank of every id.
    pub fn ids(&self) -> (ids: &BTreeMap<u32, (u32, usize)>)
        ensures
            ids@ == self@.slots,
    {
        &self.ids
    }

    /// The particle `id`.
    pub fn get_particle_by_id(&self, id: u32) -> (particle: &SmoothedParticle)
        requires
            id < self@.particles.len(),
        ensures
            *particle == self@.particles[id as int],
    {
        &self.particles[id as usize]
    }

    /// The bucket that the cell hashes to, if there is one.
    pub fn get_by_position(&self, cell: Cell) -> (found: Option<&Vec<u32>>)
        ensures
            found is Some <==> self@.buckets.contains_key(spec_hash(cell)),
            found is Some ==> found->0@ == self@.bucket(spec_hash(cell)),
    {
        let index = Self::hash(cell, self.table_size);

        self.entries.get(&index)
    }

    /// Appends `particle` to the bucket of `index`, which is made if it is not
    /// there. The record of where ids stand is left as it was.
    pub fn reinsert(&mut self, particle: u32, index: u32)
        ensures
            final(self)@ == old(self)@.appended(particle, index),
            final(self).spec_table_size() == old(self).spec_table_size(),
    {
        match self.entries.remove(&index) {
            Some(bucket) => {
                let mut bucket = bucket;
                bucket.push(particle);
                self.entries.insert(index, bucket);
            },
            None => {
                let mut bucket: Vec<u32> = Vec::new();
                bucket.push(particle);
                self.entries.insert(index, bucket);
            },
        }
        assert(self@.buckets =~= old(self)@.appended(particle, index).buckets);
    }

    /// Takes `particle` in as the next of the array and appends its id to the
    /// bucket of its cell.
    pub fn insert(&mut self, particle: SmoothedParticle)
        requires
            old(self)@.wf(),
            particle.id == old(self)@.particles.len(),
        ensures
            final(self)@ == old(self)@.inserted(particle),
            final(self)@.wf(),
            old(self)@.in_sync() ==> final(self)@.in_sync(),
            final(self).spec_table_size() == final(self)@.particles.len() as i32,
    {
        let index = Self::hash(particle.cell, self.table_size);
        let rank: usize = match self.entries.get(&index) {
            Some(bucket) => bucket.len(),
            None => 0,
        };

        self.particles.push(particle);
        self.table_size = #[verifier::truncate]
        (self.particles.len() as i32);
        self.ids.insert(particle.id, (index, rank));
        self.reinsert(particle.id, index);

        proof {
            assert(self@.buckets =~= old(self)@.inserted(particle).buckets);
            old(self)@.lemma_inserted(particle);
        }
    }
}

impl TableMap {
    /// Takes `id` out of its bucket, keeping the order of the others, and
    /// appends it to the bucket of `target`.
    pub fn relocate(&mut self, id: u32, target: u32)
        requires
            old(self)@.wf(),
            id < old(self)@.particles.len(),
        ensures
            final(self)@ == old(self)@.relocated(id, target),
            final(self)@.wf(),
            final(self).spec_table_size() == old(self).spec_table_size(),
    {
        let ghost before = self@;
        assert(before.slots.contains_key(id));
        assert(before.slot_holds(id));
        let (index, rank) = match self.ids.get(&id) {
            Some(slot) => *slot,
            None => unreached(),
        };
        let mut bucket = match self.entries.remove(&index) {
            Some(bucket) => bucket,
            None => unreached(),
        };
        bucket.remove(rank);
        let mut k: usize = rank;
        while k < bucket.len()
            invariant
                rank <= k <= bucket.len(),
                before == old(self)@,
                self.particles == old(self).particles,
                self.table_size == old(self).table_size,
                self.entries@ == old(self).entries@.remove(index),
                before.wf(),
                before.slots.contains_key(id),
                before.slots[id] == (index, rank),
                before.buckets.contains_key(index),
                bucket@ == before.buckets[index].remove(rank as int),
                rank < before.buckets[index].len(),
                self.ids@.dom() == before.slots.dom(),
                forall|e: u32| #[trigger]
                    before.slots.contains_key(e) ==> self.ids@[e] == if before.slots[e].0 == index
                        && rank < before.slots[e].1 <= k {
                        (index, (before.slots[e].1 - 1) as usize)
                    } else {
                        before.slots[e]
                    },
            decreases bucket.len() - k,
        {
            let moved = bucket[k];
            proof {
                assert(before.place_recorded(index, k + 1));
                assert forall|e: u32| #[trigger]
                    before.slots.contains_key(e) && e != moved implies !(before.slots[e].0 == index
                    && before.slots[e].1 == k + 1) by {
                    assert(before.slot_holds(e));
                }
            }
            self.ids.insert(moved, (index, k));
            k += 1;
        }
        self.entries.insert(index, bucket);
        proof {
            let vacated = before.vacated(id);
            assert forall|e: u32| before.slots.contains_key(e) && before.slots[e].0 == index
                implies before.slots[e].1 < before.buckets[index].len() by {
                assert(before.slot_holds(e));
            }
            assert(self@.slots =~= vacated.slots);
            assert(self@.buckets =~= vacated.buckets);
        }
        let rank_there: usize = match self.entries.get(&target) {
            Some(bucket) => bucket.len(),
            None => 0,
        };
        assert(rank_there == before.vacated(id).bucket(target).len());
        self.ids.insert(id, (target, rank_there));
        self.reinsert(id, target);

        proof {
            let after = before.relocated(id, target);
            assert(self@.slots =~= after.slots);
            assert(self@.buckets =~= after.buckets);
            assert(self@.particles == after.particles);
            before.lemma_relocated(id, target);
        }
    }
}

/// The id at which the `k`-th of the moves that are still to be made begins:
/// the id to be moved, or the number of particles when none is left.
pub open spec fn next_move(moves: Seq<(u32, u32)>, k: int, count: nat) -> nat {
    if k < moves.len() {
        moves[k].0 as nat
    } else {
        count
    }
}

impl TableMap {
    /// Brings the buckets in step with the cells that the particles are in
    /// now. The stale ids are collected first, with the hash each belongs
    /// under; only then are they moved, in the order of their ids: each leaves
    /// its bucket, where the others keep their order, and is appended to the
    /// bucket of its cell.
    pub fn update(&mut self)
        requires
            old(self)@.wf(),
        ensures
            final(self)@ == old(self)@.refreshed(old(self)@.particles.len()),
            final(self)@.wf(),
            final(self)@.in_sync(),
            final(self)@.particles == old(self)@.particles,
            final(self).spec_table_size() == old(self).spec_table_size(),
    {
        let ghost before = self@;
        let mut particles_to_insert: Vec<(u32, u32)> = Vec::new();
        let count: usize = self.particles.len();

        let mut i: usize = 0;
        while i < count
            invariant
                i <= count,
                count == before.particles.len(),
                self@ == before,
                before.wf(),
                self.spec_table_size() == old(self).spec_table_size(),
                forall|j: int|
                    0 <= j < particles_to_insert@.len() ==> {
                        let (id, target) = #[trigger] particles_to_insert@[j];
                        &&& id < i
                        &&& before.stale(id)
                        &&& target == spec_hash(before.particles[id as int].cell)
                    },
                forall|j: int, k: int|
                    0 <= j < k < particles_to_insert@.len() ==> (
                    #[trigger] particles_to_insert@[j]).0 < (#[trigger] particles_to_insert@[k]).0,
                forall|id: u32|
                    id < i && #[trigger] before.stale(id) ==> exists|j: int|
                        0 <= j < particles_to_insert@.len() && (#[trigger] particles_to_insert@[j]).0
                            == id,
            decreases count - i,
        {
            let particle = &self.particles[i];
            assert(before.particles[i as int].id == i);
            assert(before.slots.contains_key(particle.id));
            let new_index = Self::hash(particle.cell, self.table_size);
            let old_index = match self.ids.get(&particle.id) {
                Some(slot) => slot.0,
                None => unreached(),
            };

            let ghost collected = particles_to_insert@;
            if new_index != old_index {
                particles_to_insert.push((particle.id, new_index));
            }
            proof {
                assert forall|id: u32| id < i + 1 && #[trigger] before.stale(id) implies exists|
                    j: int,
                |
                    0 <= j < particles_to_insert@.len() && (#[trigger] particles_to_insert@[j]).0
                        == id by {
                    if id < i {
                        let j = choose|j: int|
                            0 <= j < collected.len() && (#[trigger] collected[j]).0 == id;
                        assert(particles_to_insert@[j].0 == id);
                    } else {
                        assert(particles_to_insert@[collected.len() as int].0 == id);
                    }
                }
            }
            i += 1;
        }

        proof {
            if count > 0 {
                assert(before.particles[count - 1].id == count - 1);
            }
            assert forall|id: u32| id < count implies (#[trigger] before.slots[id]).0 == spec_hash(
                before.particles[id as int].cell,
            ) || exists|j: int|
                0 <= j < particles_to_insert@.len() && (#[trigger] particles_to_insert@[j]).0
                    == id by {
                if before.stale(id) {
                }
            }
            assert forall|id: u32| 0 <= id < next_move(particles_to_insert@, 0, count as nat)
                implies !#[trigger] before.stale(id) by {
                if before.stale(id) {
                    let j = choose|j: int|
                        0 <= j < particles_to_insert@.len() && (#[trigger] particles_to_insert@[j]).0
                            == id;
                    if j > 0 {
                        assert(particles_to_insert@[0].0 < particles_to_insert@[j].0);
                    }
                }
            }
            before.lemma_refreshed_skip(0, next_move(particles_to_insert@, 0, count as nat));
        }

        let mut k: usize = 0;
        while k < particles_to_insert.len()
            invariant
                k <= particles_to_insert@.len(),
                count == before.particles.len(),
                count <= u32::MAX + 1,
                before.wf(),
                self@.wf(),
                self@.particles == before.particles,
                self@ == before.refreshed(next_move(particles_to_insert@, k as int, count as nat)),
                self.spec_table_size() == old(self).spec_table_size(),
                forall|j: int|
                    0 <= j < particles_to_insert@.len() ==> {
                        let (id, target) = #[trigger] particles_to_insert@[j];
                        &&& id < count
                        &&& before.stale(id)
                        &&& target == spec_hash(before.particles[id as int].cell)
                    },
                forall|j: int, k: int|
                    0 <= j < k < particles_to_insert@.len() ==> (
                    #[trigger] particles_to_insert@[j]).0 < (#[trigger] particles_to_insert@[k]).0,
                forall|id: u32|
                    id < count && #[trigger] before.stale(id) ==> exists|j: int|
                        0 <= j < particles_to_insert@.len() && (#[trigger] particles_to_insert@[j]).0
                            == id,
                forall|id: u32|
                    id < count ==> (#[trigger] self@.slots[id]).0 == spec_hash(
                        self@.particles[id as int].cell,
                    ) || exists|j: int|
                        k <= j < particles_to_insert@.len() && (#[trigger] particles_to_insert@[j]).0
                            == id,
            decreases particles_to_insert@.len() - k,
        {
            let (id, target) = particles_to_insert[k];
            let ghost earlier = self@;
            proof {
                assert(earlier.slots.contains_key(id));
            }
            self.relocate(id, target);
            proof {
                let after = self@;
                let moves = particles_to_insert@;
                assert(after == before.refreshed((id + 1) as nat));
                assert forall|e: u32| id + 1 <= e < next_move(moves, k + 1, count as nat)
                    implies !#[trigger] before.stale(e) by {
                    if before.stale(e) {
                        let j = choose|j: int| 0 <= j < moves.len() && (#[trigger] moves[j]).0 == e;
                        if j < k {
                            assert(moves[j].0 < moves[k as int].0);
                        } else if j > k + 1 {
                            assert(moves[k + 1].0 < moves[j].0);
                        }
                    }
                }
                if k + 1 < moves.len() {
                    assert(moves[k as int].0 < moves[k + 1].0);
                }
                before.lemma_refreshed_skip((id + 1) as nat, next_move(moves, k + 1, count as nat));
                assert forall|e: u32| e < count implies (#[trigger] after.slots[e]).0 == spec_hash(
                    after.particles[e as int].cell,
                ) || exists|j: int|
                    k + 1 <= j < moves.len() && (#[trigger] moves[j]).0 == e by {
                    if e != id {
                        assert(earlier.slots.contains_key(e));
                        assert(after.slots[e].0 == earlier.slots[e].0);
                        if earlier.slots[e].0 != spec_hash(earlier.particles[e as int].cell) {
                            let j = choose|j: int|
                                k <= j < moves.len() && (#[trigger] moves[j]).0 == e;
                            assert(j != k);
                        }
                    }
                }
            }
            k += 1;
        }
    }
}

impl TableMap {
    /// The bucket of `id` in two parts: what stands before `id` and what
    /// stands behind it.
    pub fn get_neighbors_by_id(&self, id: u32) -> (parts: (&[u32], &[u32]))
        requires
            self@.wf(),
            id < self@.particles.len(),
        ensures
            parts.0@ == self@.buckets[self@.slots[id].0].subrange(0, self@.slots[id].1 as int),
            parts.1@ == self@.buckets[self@.slots[id].0].subrange(
                self@.slots[id].1 + 1,
                self@.buckets[self@.slots[id].0].len() as int,
            ),
    {
        assert(self@.slots.contains_key(id));
        assert(self@.slot_holds(id));
        let (index, rank) = match self.ids.get(&id) {
            Some(slot) => *slot,
            None => unreached(),
        };
        match self.entries.get(&index) {
            Some(bucket) => {
                let all = bucket.as_slice();
                let len = all.len();
                assert(all@ == self@.buckets[index]);
                (
                    vstd::slice::slice_subrange(all, 0, rank),
                    vstd::slice::slice_subrange(all, rank + 1, len),
                )
            },
            None => unreached(),
        }
    }

    /// The particles round a cell, which need be the cell of none of them: the
    /// ids in the buckets of the nine cells around it.
    pub fn get_neighborhood_by_position_2d(&self, cell: Cell) -> (neighborhood: Neighborhood)
        ensures
            neighborhood.neighbors@ == self@.neighborhood_at(cell),
    {
        let mut neighbors: Vec<u32> = Vec::new();

        let mut k: i32 = 0;
        while k < 9
            invariant
                0 <= k <= 9,
                neighbors@ == self@.contents_upto(cell, k as int),
            decreases 9 - k,
        {
            let near = cell.offset(k % 3 - 1, k / 3 - 1, 0);
            let ghost found_before = neighbors@;
            assert(near == stencil_cell(cell, k as int));
            match self.get_by_position(near) {
                Some(bucket) => {
                    let mut rank: usize = 0;
                    while rank < bucket.len()
                        invariant
                            rank <= bucket@.len(),
                            neighbors@ == found_before + bucket@.take(rank as int),
                        decreases bucket@.len() - rank,
                    {
                        neighbors.push(bucket[rank]);
                        assert(neighbors@ =~= found_before + bucket@.take(rank + 1));
                        rank += 1;
                    }
                    assert(bucket@.take(rank as int) =~= bucket@);
                },
                None => {
                    assert(neighbors@ =~= found_before + Seq::<u32>::empty());
                },
            }
            k += 1;
        }

        Neighborhood::new(neighbors)
    }

    /// The neighbours of `id`: the ids in the buckets of the nine cells around
    /// its cell, `id` itself left out.
    pub fn get_neighborhood_2d(&self, id: u32) -> (neighborhood: Neighborhood)
        requires
            id < self@.particles.len(),
        ensures
            neighborhood.neighbors@ == self@.neighborhood_2d(id),
    {
        let center = self.get_particle_by_id(id).cell;
        let mut neighbors: Vec<u32> = Vec::new();

        let mut k: i32 = 0;
        while k < 9
            invariant
                0 <= k <= 9,
                id < self@.particles.len(),
                center == self@.particles[id as int].cell,
                neighbors@ == self@.neighborhood_upto(id, k as int),
            decreases 9 - k,
        {
            let cell = center.offset(k % 3 - 1, k / 3 - 1, 0);
            let ghost found_before = neighbors@;
            assert(cell == stencil_cell(center, k as int));
            match self.get_by_position(cell) {
                Some(bucket) => {
                    let mut rank: usize = 0;
                    while rank < bucket.len()
                        invariant
                            rank <= bucket@.len(),
                            neighbors@ == found_before + others(bucket@.take(rank as int), id),
                        decreases bucket@.len() - rank,
                    {
                        let neighbor = bucket[rank];
                        proof {
                            assert(bucket@.take(rank + 1) =~= bucket@.take(rank as int).push(
                                neighbor,
                            ));
                            bucket@.take(rank as int).lemma_filter_push(neighbor, is_other(id));
                        }
                        if neighbor != id {
                            neighbors.push(neighbor);
                            assert(neighbors@ =~= found_before + others(
                                bucket@.take(rank + 1),
                                id,
                            ));
                        }
                        rank += 1;
                    }
                    assert(bucket@.take(rank as int) =~= bucket@);
                },
                None => {
                    assert(others(Seq::<u32>::empty(), id) =~= Seq::<u32>::empty());
                    assert(neighbors@ =~= found_before + Seq::<u32>::empty());
                },
            }
            k += 1;
        }

        Neighborhood::new(neighbors)
    }
}

impl TableMap {
    /// The table of the given particles, each of which has its slot in the
    /// array for its id.
    pub fn from_particles(particles: Vec<SmoothedParticle>) -> (table: Self)
        requires
            forall|i: int| 0 <= i < particles@.len() ==> (#[trigger] particles@[i]).id == i,
        ensures
            table@ == TableView::built(particles@),
            table@.particles == particles@,
            table@.wf(),
            table@.in_sync(),
            table.spec_table_size() == particles@.len() as i32,
    {
        let mut table = Self::new();
        table.table_size = #[verifier::truncate]
        (particles.len() as i32);

        let mut i: usize = 0;
        while i < particles.len()
            invariant
                i <= particles@.len(),
                forall|i: int| 0 <= i < particles@.len() ==> (#[trigger] particles@[i]).id == i,
                table@ == TableView::built(particles@.take(i as int)),
                table@.particles == particles@.take(i as int),
                table@.wf(),
                table@.in_sync(),
                i == 0 ==> table.spec_table_size() == particles@.len() as i32,
                i > 0 ==> table.spec_table_size() == i as i32,
            decreases particles@.len() - i,
        {
            let particle = particles[i];
            proof {
                assert(particles@.take(i + 1).drop_last() =~= particles@.take(i as int));
                assert(particles@.take(i + 1).last() == particle);
            }
            table.insert(particle);
            assert(table@.particles =~= particles@.take(i + 1));
            i += 1;
        }
        assert(particles@.take(i as int) =~= particles@);

        table
    }

    /// The particle `id`, to be changed in place. The buckets are left as
    /// they are: after a change of cell the table is to be brought up to date.
    pub fn get_particle_by_id_mut(&mut self, id: u32) -> (particle: &mut SmoothedParticle)
        requires
            id < old(self)@.particles.len(),
        ensures
            *particle == old(self)@.particles[id as int],
            final(self)@.particles == old(self)@.particles.update(id as int, *final(particle)),
            final(self)@.buckets == old(self)@.buckets,
            final(self)@.slots == old(self)@.slots,
            final(self).spec_table_size() == old(self).spec_table_size(),
    {
        &mut self.particles[id as usize]
    }
}

} // verus!
