use nikola::fluids::particle::Cell;
use nikola::particles_system::{permuted, ParticleSystem};

fn lattice(nx: i32, ny: i32, nz: i32) -> Vec<Cell> {
    let mut cells = Vec::new();
    for z in 0..nz {
        for y in 0..ny {
            for x in 0..nx {
                cells.push(Cell::new(x, y, z));
            }
        }
    }
    cells
}

#[test]
fn new_system_numbers_the_particles() {
    let system = ParticleSystem::new(Cell::new(2, 2, 2), vec![Cell::new(1, 1, 1), Cell::new(0, 0, 0)]);
    assert_eq!(system.particle_num, 2);
    assert_eq!(system.ids, vec![0, 1]);
    assert_eq!(system.cells, vec![Cell::new(1, 1, 1), Cell::new(0, 0, 0)]);
}

#[test]
fn grid_index_counts_slabs_rows_and_cells() {
    let system = ParticleSystem::new(Cell::new(4, 3, 2), Vec::new());
    assert_eq!(system.get_grid_index(&Cell::new(0, 0, 0)), 0);
    assert_eq!(system.get_grid_index(&Cell::new(0, 0, 1)), 1);
    assert_eq!(system.get_grid_index(&Cell::new(0, 1, 0)), 2);
    assert_eq!(system.get_grid_index(&Cell::new(1, 0, 0)), 6);
    assert_eq!(system.get_grid_index(&Cell::new(3, 2, 1)), 23);
}

#[test]
fn index_is_valid_inside_the_grid_only() {
    let system = ParticleSystem::new(Cell::new(4, 3, 2), Vec::new());
    assert!(system.is_index_valid(Cell::new(0, 0, 0)));
    assert!(system.is_index_valid(Cell::new(3, 2, 1)));
    assert!(!system.is_index_valid(Cell::new(4, 0, 0)));
    assert!(!system.is_index_valid(Cell::new(0, 3, 0)));
    assert!(!system.is_index_valid(Cell::new(0, 0, 2)));
    assert!(!system.is_index_valid(Cell::new(-1, 0, 0)));
    assert!(!system.is_index_valid(Cell::new(0, -1, 0)));
    assert!(!system.is_index_valid(Cell::new(0, 0, -1)));
}

#[test]
fn no_index_is_valid_in_an_empty_grid() {
    let system = ParticleSystem::new(Cell::new(0, 5, 5), Vec::new());
    assert!(!system.is_index_valid(Cell::new(0, 0, 0)));
}

#[test]
fn sort_lays_the_particles_out_cell_by_cell() {
    let cells = vec![
        Cell::new(1, 0, 0),
        Cell::new(0, 0, 0),
        Cell::new(1, 0, 0),
        Cell::new(0, 0, 1),
        Cell::new(0, 0, 0),
    ];
    let mut system = ParticleSystem::new(Cell::new(2, 1, 2), cells);
    let order = system.initialize_particle_system();

    assert_eq!(order, vec![4, 1, 3, 2, 0]);
    assert_eq!(system.ids, vec![4, 1, 3, 2, 0]);
    assert_eq!(
        system.cells,
        vec![
            Cell::new(0, 0, 0),
            Cell::new(0, 0, 0),
            Cell::new(0, 0, 1),
            Cell::new(1, 0, 0),
            Cell::new(1, 0, 0),
        ]
    );
    assert_eq!(system.particle_num, 5);
}

#[test]
fn sort_is_a_permutation() {
    let mut cells = Vec::new();
    let mut seed: u32 = 99;
    for _ in 0..200 {
        seed = seed.wrapping_mul(1664525).wrapping_add(1013904223);
        let x = ((seed >> 8) % 5) as i32;
        seed = seed.wrapping_mul(1664525).wrapping_add(1013904223);
        let y = ((seed >> 8) % 4) as i32;
        seed = seed.wrapping_mul(1664525).wrapping_add(1013904223);
        let z = ((seed >> 8) % 3) as i32;
        cells.push(Cell::new(x, y, z));
    }
    let mut system = ParticleSystem::new(Cell::new(5, 4, 3), cells.clone());
    let order = system.initialize_particle_system();

    let mut seen = order.clone();
    seen.sort();
    assert_eq!(seen, (0..200).collect::<Vec<usize>>());
    for (p, slot) in order.iter().enumerate() {
        assert_eq!(system.cells[*slot], cells[p]);
        assert_eq!(system.ids[*slot], p);
    }
    for slot in 1..200 {
        let before = system.get_grid_index(&system.cells[slot - 1]);
        let here = system.get_grid_index(&system.cells[slot]);
        assert!(before <= here);
    }
}

#[test]
fn sorting_twice_keeps_the_cells_in_order() {
    let cells = vec![Cell::new(1, 1, 0), Cell::new(0, 0, 0), Cell::new(1, 0, 0), Cell::new(0, 0, 0)];
    let mut system = ParticleSystem::new(Cell::new(2, 2, 1), cells);
    system.initialize_particle_system();
    let first = system.cells.clone();
    let order = system.initialize_particle_system();
    assert_eq!(system.cells, first);
    assert_eq!(order, vec![1, 0, 2, 3]);
    assert_eq!(system.ids, vec![1, 3, 2, 0]);
}

#[test]
fn sort_of_no_particles() {
    let mut system = ParticleSystem::new(Cell::new(3, 3, 3), Vec::new());
    let order = system.initialize_particle_system();
    assert!(order.is_empty());
    assert!(system.ids.is_empty());
}

#[test]
fn update_grid_id_then_sort_is_initialize() {
    let cells = vec![Cell::new(2, 0, 0), Cell::new(0, 0, 0), Cell::new(1, 0, 0)];
    let mut stepwise = ParticleSystem::new(Cell::new(3, 1, 1), cells.clone());
    stepwise.update_grid_id();
    let order = stepwise.sort();
    let mut at_once = ParticleSystem::new(Cell::new(3, 1, 1), cells);
    assert_eq!(at_once.initialize_particle_system(), order);
    assert_eq!(order, vec![2, 0, 1]);
    assert_eq!(at_once.cells, stepwise.cells);
    assert_eq!(at_once.ids, stepwise.ids);
}

#[test]
fn candidates_of_the_middle_of_a_block_are_all_others() {
    let mut system = ParticleSystem::new(Cell::new(3, 3, 3), lattice(3, 3, 3));
    system.initialize_particle_system();
    let middle = system.cells.iter().position(|cell| *cell == Cell::new(1, 1, 1)).unwrap();
    let found = system.for_all_neighbords(middle);
    assert_eq!(found.len(), 26);
    assert!(!found.contains(&middle));
}

#[test]
fn candidates_come_cell_by_cell_with_x_fastest() {
    let mut system = ParticleSystem::new(Cell::new(3, 3, 1), lattice(3, 3, 1));
    system.initialize_particle_system();
    let slot_of = |x: i32, y: i32| system.cells.iter().position(|cell| *cell == Cell::new(x, y, 0)).unwrap();
    let found = system.for_all_neighbords(slot_of(1, 1));
    assert_eq!(
        found,
        vec![
            slot_of(0, 0),
            slot_of(1, 0),
            slot_of(2, 0),
            slot_of(0, 1),
            slot_of(2, 1),
            slot_of(0, 2),
            slot_of(1, 2),
            slot_of(2, 2),
        ]
    );
}

#[test]
fn candidates_at_the_edge_skip_cells_outside_the_grid() {
    let mut system = ParticleSystem::new(Cell::new(3, 3, 3), lattice(3, 3, 3));
    system.initialize_particle_system();
    let corner = system.cells.iter().position(|cell| *cell == Cell::new(0, 0, 0)).unwrap();
    assert_eq!(system.for_all_neighbords(corner).len(), 7);
}

#[test]
fn candidates_agree_with_a_scan_of_all_particles() {
    let mut cells = Vec::new();
    let mut seed: u32 = 7;
    for _ in 0..50 {
        seed = seed.wrapping_mul(1664525).wrapping_add(1013904223);
        let x = ((seed >> 8) % 4) as i32;
        seed = seed.wrapping_mul(1664525).wrapping_add(1013904223);
        let y = ((seed >> 8) % 4) as i32;
        seed = seed.wrapping_mul(1664525).wrapping_add(1013904223);
        let z = ((seed >> 8) % 4) as i32;
        cells.push(Cell::new(x, y, z));
    }
    let mut system = ParticleSystem::new(Cell::new(4, 4, 4), cells);
    system.initialize_particle_system();

    for slot in 0..system.particle_num {
        let mut found = system.for_all_neighbords(slot);
        let count = found.len();
        found.sort();
        found.dedup();
        assert_eq!(found.len(), count);

        let here = system.cells[slot];
        let expected = (0..system.particle_num)
            .filter(|other| {
                let there = system.cells[*other];
                *other != slot
                    && (there.x - here.x).abs() <= 1
                    && (there.y - here.y).abs() <= 1
                    && (there.z - here.z).abs() <= 1
            })
            .collect::<Vec<usize>>();
        assert_eq!(found, expected);
    }
}

#[test]
fn particles_of_one_cell_are_candidates_of_each_other() {
    let cells = vec![Cell::new(0, 0, 0); 4];
    let mut system = ParticleSystem::new(Cell::new(1, 1, 1), cells);
    let order = system.initialize_particle_system();
    assert_eq!(order, vec![3, 2, 1, 0]);
    assert_eq!(system.for_all_neighbords(1), vec![0, 2, 3]);
}

#[test]
fn permuted_puts_each_value_at_its_slot() {
    let values = vec!['a', 'b', 'c', 'd'];
    assert_eq!(permuted(&values, &vec![2, 0, 3, 1]), vec!['b', 'd', 'a', 'c']);
    assert_eq!(permuted(&values, &vec![0, 1, 2, 3]), values);
    assert!(permuted(&Vec::<u8>::new(), &Vec::new()).is_empty());
}

#[test]
fn permuted_moves_other_arrays_as_the_sort_moved_the_cells() {
    let cells = vec![Cell::new(1, 0, 0), Cell::new(0, 0, 0), Cell::new(1, 0, 0), Cell::new(0, 0, 1)];
    let mut system = ParticleSystem::new(Cell::new(2, 1, 2), cells.clone());
    let order = system.initialize_particle_system();
    assert_eq!(permuted(&cells, &order), system.cells);
    assert_eq!(permuted(&vec![0usize, 1, 2, 3], &order), system.ids);
}

#[test]
fn a_particle_moved_to_another_cell_is_sorted_there() {
    let cells = vec![Cell::new(0, 0, 0), Cell::new(1, 0, 0), Cell::new(0, 0, 0)];
    let mut system = ParticleSystem::new(Cell::new(2, 1, 1), cells);
    assert_eq!(system.initialize_particle_system(), vec![1, 2, 0]);
    assert_eq!(system.ids, vec![2, 0, 1]);

    system.set_cell(0, Cell::new(1, 0, 0));
    assert_eq!(system.cells, vec![Cell::new(1, 0, 0), Cell::new(0, 0, 0), Cell::new(1, 0, 0)]);
    assert_eq!(system.particle_num, 3);

    assert_eq!(system.initialize_particle_system(), vec![2, 0, 1]);
    assert_eq!(system.ids, vec![0, 1, 2]);
    assert_eq!(system.cells, vec![Cell::new(0, 0, 0), Cell::new(1, 0, 0), Cell::new(1, 0, 0)]);
    assert_eq!(system.for_all_neighbords(0), vec![1, 2]);
}
