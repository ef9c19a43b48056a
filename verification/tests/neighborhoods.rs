use glam::{vec3a, Vec3A};
use nikola::fluids::neighborhoods::{Neighborhood, TableMap};
use nikola::fluids::particle::{Cell, SmoothedParticle};

const PARTICLE_RADIUS: f32 = 0.1;
const SMOOTHING_LENGHT: f32 = 2.0 * PARTICLE_RADIUS;
const CELL_SIZE: f32 = SMOOTHING_LENGHT;

fn cell_of(position: Vec3A) -> Cell {
    let index = (position / CELL_SIZE).floor().as_ivec3();
    Cell::new(index.x, index.y, index.z)
}

fn particle_at(id: u32, position: Vec3A) -> SmoothedParticle {
    SmoothedParticle::new(id, cell_of(position))
}

fn table_1_setup() -> (TableMap, SmoothedParticle) {
    let particle = particle_at(0, vec3a(1.0, 1.0, 0.0));
    (TableMap::from_particles(vec![particle.clone()]), particle)
}

fn table_9_setup() -> (TableMap, Vec<SmoothedParticle>) {
    let particles = (0..3)
        .flat_map(|y| (0..3).map(move |x| particle_at(y * 3 + x, vec3a(x as f32, y as f32, 0.0))))
        .collect::<Vec<SmoothedParticle>>();

    (TableMap::from_particles(particles.clone()), particles)
}

#[test]
fn test_neighbors() {
    let particles = vec![
        particle_at(0, Vec3A::ZERO),
        particle_at(1, Vec3A::X * SMOOTHING_LENGHT),
        particle_at(2, Vec3A::X * 2.0 * SMOOTHING_LENGHT),
    ];

    let table = TableMap::from_particles(particles.clone());
    let neighborhood = table.get_neighborhood_2d(1);

    let neighbors = vec![particles[0].clone(), particles[2].clone()];

    for (calculated_neighbor, neighbor) in neighborhood.neighbors.iter().zip(neighbors.iter()) {
        let calculated_neighbor = table.get_particle_by_id(*calculated_neighbor);

        assert!(calculated_neighbor.cell == neighbor.cell);
    }

    assert!(table.table_size() == 3);
    assert!(table.particles.len() == 3);
    assert!(neighborhood.neighbors.len() == 2);
}

#[test]
fn test_gradients() {}

#[test]
fn test_table_insert() {
    let particle = particle_at(0, Vec3A::ONE);
    let mut table = TableMap::new();

    table.insert(particle.clone());

    assert!(table.particles == vec![particle]);
}

#[test]
fn test_table_from_particles() {
    let (calculated_table, particle) = table_1_setup();

    let mut table = TableMap::new();
    table.insert(particle);
    table.update();

    assert!(table.particles == calculated_table.particles);
    assert!(table.ids() == calculated_table.ids());
}

#[test]
fn test_table_get() {
    let (table, particles) = table_9_setup();

    let particle = table.get_particle_by_id(1);
    assert!(*particle == *&particles[1]);
}

#[test]
fn test_distance() {
    assert!(Vec3A::ZERO.distance(Vec3A::ZERO) == 0.0);
    assert!(Vec3A::ONE.distance(Vec3A::ONE) == 0.0);
    assert!(Vec3A::X.distance(Vec3A::X) == 0.0);

    assert!(Vec3A::ZERO.distance(Vec3A::X) == 1.0);
    assert!(Vec3A::ZERO.distance(Vec3A::ONE) == Vec3A::ONE.length());
}

#[test]
fn hash_of_origin_is_zero() {
    assert_eq!(TableMap::hash(Cell::new(0, 0, 0), 1), 0);
}

#[test]
fn hash_combines_the_axes_by_exclusive_or() {
    assert_eq!(TableMap::hash(Cell::new(1, 0, 0), 1), 73856093);
    assert_eq!(TableMap::hash(Cell::new(0, 1, 0), 1), 19349663);
    assert_eq!(TableMap::hash(Cell::new(0, 0, 1), 1), 83492791);
    assert_eq!(TableMap::hash(Cell::new(1, 1, 0), 1), 88192194);
    assert_eq!(TableMap::hash(Cell::new(2, 3, -4), 7), 3886032963);
}

#[test]
fn hash_wraps_round_on_large_and_negative_coordinates() {
    assert_eq!(TableMap::hash(Cell::new(-1, 0, 0), 1), 4221111203);
    assert_eq!(TableMap::hash(Cell::new(i32::MAX, 0, 0), 1), 2073627555);
}

#[test]
fn hash_ignores_the_table_size() {
    let cell = Cell::new(5, -7, 11);
    assert_eq!(TableMap::hash(cell, 1), TableMap::hash(cell, 1000));
}

#[test]
fn cell_offset_wraps_round() {
    assert_eq!(Cell::new(1, 2, 3).offset(-1, 1, 0), Cell::new(0, 3, 3));
    assert_eq!(Cell::new(i32::MAX, i32::MIN, 0).offset(1, -1, 0), Cell::new(i32::MIN, i32::MAX, 0));
}

#[test]
fn new_table_is_empty() {
    let table = TableMap::new();
    assert_eq!(table.particles.len(), 0);
    assert_eq!(table.table_size(), 1);
    assert!(table.ids().is_empty());
    assert!(table.get_by_position(Cell::new(0, 0, 0)).is_none());
}

#[test]
fn insert_records_hash_and_rank() {
    let mut table = TableMap::new();
    table.insert(SmoothedParticle::new(0, Cell::new(1, 1, 0)));
    table.insert(SmoothedParticle::new(1, Cell::new(4, 0, 0)));
    table.insert(SmoothedParticle::new(2, Cell::new(1, 1, 0)));

    assert_eq!(table.table_size(), 3);
    assert_eq!(table.ids().get(&0), Some(&(88192194, 0)));
    assert_eq!(table.ids().get(&1), Some(&(TableMap::hash(Cell::new(4, 0, 0), 3), 0)));
    assert_eq!(table.ids().get(&2), Some(&(88192194, 1)));
    assert_eq!(table.get_by_position(Cell::new(1, 1, 0)), Some(&vec![0, 2]));
    assert_eq!(table.get_by_position(Cell::new(4, 0, 0)), Some(&vec![1]));
    assert_eq!(table.get_by_position(Cell::new(9, 9, 9)), None);
}

#[test]
fn reinsert_appends_without_recording() {
    let mut table = TableMap::new();
    table.reinsert(7, 42);
    table.reinsert(9, 42);
    assert!(table.ids().is_empty());
    assert_eq!(table.particles.len(), 0);
    assert_eq!(table.get_by_position(Cell::new(0, 0, 0)), None);
}

#[test]
fn neighbors_by_id_split_the_bucket_round_the_particle() {
    let cell = Cell::new(2, 2, 0);
    let particles = (0..4).map(|id| SmoothedParticle::new(id, cell)).collect::<Vec<_>>();
    let table = TableMap::from_particles(particles);

    let (before, after) = table.get_neighbors_by_id(1);
    assert_eq!(before, &[0]);
    assert_eq!(after, &[2, 3]);

    let (before, after) = table.get_neighbors_by_id(0);
    assert!(before.is_empty());
    assert_eq!(after, &[1, 2, 3]);

    let (before, after) = table.get_neighbors_by_id(3);
    assert_eq!(before, &[0, 1, 2]);
    assert!(after.is_empty());
}

#[test]
fn neighborhood_walks_the_block_row_by_row() {
    let (table, _) = table_9_setup_on_cells();
    let neighborhood = table.get_neighborhood_2d(4);
    assert_eq!(neighborhood.neighbors, vec![0, 1, 2, 3, 5, 6, 7, 8]);
    assert_eq!(neighborhood.get_len(), 8);

}

#[test]
fn cells_that_hash_alike_share_a_bucket() {
    assert_eq!(TableMap::hash(Cell::new(-1, -1, 0), 9), TableMap::hash(Cell::new(1, 1, 0), 9));

    let (table, _) = table_9_setup_on_cells();
    let corner = table.get_neighborhood_2d(0);
    assert_eq!(corner.neighbors, vec![4, 1, 3, 4]);
}

fn table_9_setup_on_cells() -> (TableMap, Vec<SmoothedParticle>) {
    let particles = (0..3)
        .flat_map(|y| (0..3).map(move |x| SmoothedParticle::new(y * 3 + x, Cell::new(x as i32, y as i32, 0))))
        .collect::<Vec<SmoothedParticle>>();

    (TableMap::from_particles(particles.clone()), particles)
}

#[test]
fn neighborhood_leaves_out_other_planes_and_far_cells() {
    let particles = vec![
        SmoothedParticle::new(0, Cell::new(0, 0, 0)),
        SmoothedParticle::new(1, Cell::new(0, 0, 1)),
        SmoothedParticle::new(2, Cell::new(2, 0, 0)),
        SmoothedParticle::new(3, Cell::new(0, 0, 0)),
    ];
    let table = TableMap::from_particles(particles);
    assert_eq!(table.get_neighborhood_2d(0).neighbors, vec![3]);
    assert_eq!(table.get_neighborhood_2d(3).neighbors, vec![0]);
    assert!(table.get_neighborhood_2d(1).neighbors.is_empty());
}

#[test]
fn neighborhood_agrees_with_a_scan_of_all_cells() {
    let mut particles = Vec::new();
    let mut seed: u32 = 12345;
    for id in 0..50u32 {
        seed = seed.wrapping_mul(1664525).wrapping_add(1013904223);
        let x = ((seed >> 8) % 6) as i32 - 3;
        seed = seed.wrapping_mul(1664525).wrapping_add(1013904223);
        let y = ((seed >> 8) % 6) as i32 - 3;
        particles.push(SmoothedParticle::new(id, Cell::new(x, y, 0)));
    }
    let table = TableMap::from_particles(particles.clone());

    for particle in particles.iter() {
        let mut found = table.get_neighborhood_2d(particle.id).neighbors;
        found.sort();
        found.dedup();

        let mut block = Vec::new();
        for dy in -1..=1 {
            for dx in -1..=1 {
                block.push(TableMap::hash(particle.cell.offset(dx, dy, 0), 50));
            }
        }
        let expected = particles
            .iter()
            .filter(|other| other.id != particle.id && block.contains(&TableMap::hash(other.cell, 50)))
            .map(|other| other.id)
            .collect::<Vec<u32>>();
        assert_eq!(found, expected);

        for other in particles.iter() {
            let adjacent = (other.cell.x - particle.cell.x).abs() <= 1
                && (other.cell.y - particle.cell.y).abs() <= 1;
            if adjacent && other.id != particle.id {
                assert!(found.contains(&other.id));
            }
        }
        assert!(!found.contains(&particle.id));
    }
}

#[test]
fn update_moves_a_particle_to_the_bucket_of_its_new_cell() {
    let cell = Cell::new(0, 0, 0);
    let elsewhere = Cell::new(5, 5, 0);
    let particles = (0..3).map(|id| SmoothedParticle::new(id, cell)).collect::<Vec<_>>();
    let mut table = TableMap::from_particles(particles);

    table.get_particle_by_id_mut(0).cell = elsewhere;
    table.update();

    assert_eq!(table.particles.len(), 3);
    assert_eq!(table.get_by_position(cell), Some(&vec![1, 2]));
    assert_eq!(table.get_by_position(elsewhere), Some(&vec![0]));
    assert_eq!(table.ids().get(&0), Some(&(TableMap::hash(elsewhere, 3), 0)));
    assert_eq!(table.ids().get(&1), Some(&(0, 0)));
    assert_eq!(table.ids().get(&2), Some(&(0, 1)));
    assert_eq!(table.get_neighborhood_2d(1).neighbors, vec![2]);
}

#[test]
fn update_leaves_no_id_in_a_bucket_it_left() {
    let (mut table, particles) = table_9_setup_on_cells();
    for particle in particles.iter() {
        let moved = table.get_particle_by_id_mut(particle.id);
        moved.cell = Cell::new(particle.cell.y + 10, particle.cell.x - 10, 0);
    }
    table.update();

    for particle in table.particles.iter() {
        let bucket = table.get_by_position(particle.cell).unwrap();
        assert_eq!(bucket.iter().filter(|id| **id == particle.id).count(), 1);
        let (index, rank) = *table.ids().get(&particle.id).unwrap();
        assert_eq!(index, TableMap::hash(particle.cell, 9));
        assert_eq!(bucket[rank], particle.id);
    }
    for particle in particles.iter() {
        let left = table.get_by_position(particle.cell);
        assert!(left.map_or(true, |bucket| bucket.is_empty()));
    }
}

#[test]
fn update_moves_two_particles_out_of_one_bucket() {
    let cell = Cell::new(0, 0, 0);
    let particles = (0..4).map(|id| SmoothedParticle::new(id, cell)).collect::<Vec<_>>();
    let mut table = TableMap::from_particles(particles);

    table.get_particle_by_id_mut(0).cell = Cell::new(3, 0, 0);
    table.get_particle_by_id_mut(2).cell = Cell::new(3, 0, 0);
    table.update();

    assert_eq!(table.get_by_position(cell), Some(&vec![1, 3]));
    assert_eq!(table.get_by_position(Cell::new(3, 0, 0)), Some(&vec![0, 2]));

    table.get_particle_by_id_mut(2).cell = cell;
    table.get_particle_by_id_mut(0).cell = cell;
    table.update();
    assert_eq!(table.get_by_position(cell), Some(&vec![1, 3, 0, 2]));
    assert_eq!(table.get_by_position(Cell::new(3, 0, 0)), Some(&vec![]));
}

#[test]
fn update_without_a_move_changes_nothing() {
    let (mut table, particles) = table_9_setup_on_cells();
    let ids_before = table.ids().clone();
    table.update();
    table.update();
    assert_eq!(*table.ids(), ids_before);
    assert_eq!(table.particles, particles);
}

#[test]
fn relocate_moves_up_those_behind() {
    let cell = Cell::new(1, 0, 0);
    let particles = (0..3).map(|id| SmoothedParticle::new(id, cell)).collect::<Vec<_>>();
    let mut table = TableMap::from_particles(particles);
    table.relocate(0, 5);

    assert_eq!(table.get_by_position(cell), Some(&vec![1, 2]));
    assert_eq!(table.ids().get(&0), Some(&(5, 0)));
    assert_eq!(table.ids().get(&1), Some(&(73856093, 0)));
    assert_eq!(table.ids().get(&2), Some(&(73856093, 1)));
}

#[test]
fn neighborhood_keeps_what_it_is_given() {
    let neighborhood = Neighborhood::new(vec![3, 1, 2]);
    assert_eq!(neighborhood.neighbors, vec![3, 1, 2]);
    assert_eq!(neighborhood.get_len(), 3);
}

#[test]
fn neighborhood_by_position_holds_the_nine_buckets() {
    let (table, _) = table_9_setup_on_cells();
    let found = table.get_neighborhood_by_position_2d(Cell::new(1, 1, 0));
    assert_eq!(found.neighbors, vec![0, 1, 2, 3, 4, 5, 6, 7, 8]);

    let beside = table.get_neighborhood_by_position_2d(Cell::new(3, 1, 0));
    assert_eq!(beside.neighbors, vec![2, 5, 8]);

    let far = table.get_neighborhood_by_position_2d(Cell::new(40, 40, 0));
    assert!(far.neighbors.is_empty());
}

#[test]
fn neighborhood_by_position_of_an_empty_table_is_empty() {
    let table = TableMap::new();
    assert!(table.get_neighborhood_by_position_2d(Cell::new(0, 0, 0)).neighbors.is_empty());
}

#[test]
fn count_of_particles_stays_through_moves_and_updates() {
    let (mut table, particles) = table_9_setup_on_cells();
    for round in 0..20 {
        for particle in particles.iter() {
            let moved = table.get_particle_by_id_mut(particle.id);
            moved.cell = Cell::new(
                (particle.cell.x + round * 3) % 5 - 2,
                (particle.cell.y * round) % 4 - 1,
                0,
            );
        }
        table.update();
        assert_eq!(table.particles.len(), 9);
        assert_eq!(table.ids().len(), 9);
        let mut held = 0;
        let mut seen = Vec::new();
        for particle in table.particles.iter() {
            let index = TableMap::hash(particle.cell, 9);
            if !seen.contains(&index) {
                seen.push(index);
                held += table.get_by_position(particle.cell).unwrap().len();
            }
        }
        assert_eq!(held, 9);
    }
}
