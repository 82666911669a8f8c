use hexgas::hexboard::HexBoard;
use rand::rngs::StdRng;
use rand::SeedableRng;

fn board(size: u16, seed: u64, disorder_millis: u64, fill_num: u64, fill_den: u64) -> HexBoard {
    HexBoard::new(size, StdRng::seed_from_u64(seed), disorder_millis, fill_num, fill_den)
}

#[test]
fn initialize_places_the_floor_of_the_fill() {
    // floor(16 * 1/4) = 4, floor(25 * 1/3) = 8, floor(36 * 1/2) = 18
    for (size, num, den, expected) in [(4u16, 1u64, 4u64, 4usize), (5, 1, 3, 8), (6, 1, 2, 18)] {
        let mut b = board(size, 99, 1000, num, den);
        b.initialize();
        let cells = b.occupied_cells();
        assert_eq!(cells.len(), expected);
        // Placement samples rows below size - 1 only: the top row stays empty.
        assert!(cells.iter().all(|h| (h.y as u16) < size - 1));
    }
}

#[test]
fn initialize_fills_the_whole_sampled_region_when_asked() {
    // size 2, fill 1/2: both cells of row 0 end up occupied.
    let mut b = board(2, 7, 0, 1, 2);
    b.initialize();
    let coords: Vec<(i16, i16)> = b.occupied_cells().iter().map(|h| (h.x, h.y)).collect();
    assert_eq!(coords, vec![(0, 0), (1, 0)]);
}

#[test]
fn one_timestep_conserves_four_particles() {
    // size 4 at fill 1/4 with zero disorder: 4 particles before and after.
    let mut b = board(4, 1234, 0, 1, 4);
    b.initialize();
    assert_eq!(b.occupied_cells().len(), 4);
    b.advance_timestep_repulsive();
    assert_eq!(b.occupied_cells().len(), 4);
}

#[test]
fn many_timesteps_conserve_the_occupancy() {
    let mut b = board(6, 5678, 3000, 1, 3);
    b.initialize();
    let n0 = b.occupied_cells().len();
    assert_eq!(n0, 12);
    for _ in 0..25 {
        b.advance_timestep_repulsive();
        assert_eq!(b.occupied_cells().len(), n0);
    }
}

#[test]
fn same_seed_gives_identical_runs() {
    let mut a = board(6, 424242, 2500, 1, 3);
    let mut b = board(6, 424242, 2500, 1, 3);
    a.initialize();
    b.initialize();
    let ca: Vec<(i16, i16)> = a.occupied_cells().iter().map(|h| (h.x, h.y)).collect();
    let cb: Vec<(i16, i16)> = b.occupied_cells().iter().map(|h| (h.x, h.y)).collect();
    assert_eq!(ca, cb);
    for _ in 0..30 {
        a.advance_timestep_repulsive();
        b.advance_timestep_repulsive();
        assert_eq!(a.total_energy(), b.total_energy());
        let oa = a.get_order_single();
        let ob = b.get_order_single();
        assert_eq!(oa.num, ob.num);
        assert_eq!(oa.den, ob.den);
    }
}

#[test]
fn different_seeds_diverge() {
    let mut a = board(8, 1, 2500, 1, 3);
    let mut b = board(8, 2, 2500, 1, 3);
    a.initialize();
    b.initialize();
    let ca: Vec<(i16, i16)> = a.occupied_cells().iter().map(|h| (h.x, h.y)).collect();
    let cb: Vec<(i16, i16)> = b.occupied_cells().iter().map(|h| (h.x, h.y)).collect();
    assert_ne!(ca, cb);
}

#[test]
fn accept_change_is_certain_without_disorder() {
    // exp(0) = 1: with zero disorder every non-positive change is accepted,
    // whatever the draw.
    let mut b = board(4, 3, 0, 1, 4);
    for delta in [-6i16, -3, -1, 0] {
        for _ in 0..50 {
            assert!(b.accept_change(delta));
        }
    }
    // A zero change is certain whatever the disorder.
    let mut b = board(4, 3, 123_456, 1, 4);
    for _ in 0..50 {
        assert!(b.accept_change(0));
    }
}

#[test]
fn accept_change_never_passes_at_huge_disorder() {
    // disorder 1000: exp(-1000) underflows to zero, so an uphill-by-one move
    // is rejected on every trial.
    let mut b = board(4, 9, 1_000_000, 1, 4);
    for _ in 0..1000 {
        assert!(!b.accept_change(-1));
    }
}

#[test]
fn a_lone_particle_on_empty_neighbourhoods_must_hop() {
    // One particle, zero disorder: whichever neighbour is drawn when the
    // sweep reaches it, the destination is empty and acceptance is certain,
    // so the particle cannot stay put.
    for seed in 0..20u64 {
        let mut b = board(4, seed, 0, 1, 4);
        b.set_cell(3, 3, true);
        b.advance_timestep_repulsive();
        assert!(!b.get_cell(3, 3).value);
        assert_eq!(b.occupied_cells().len(), 1);
    }
}
