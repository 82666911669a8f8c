use hexgas::cell::Hex;
use hexgas::hexboard::HexBoard;
use rand::rngs::StdRng;
use rand::SeedableRng;

fn board(size: u16, seed: u64, disorder_millis: u64, fill_num: u64, fill_den: u64) -> HexBoard {
    HexBoard::new(size, StdRng::seed_from_u64(seed), disorder_millis, fill_num, fill_den)
}

#[test]
fn hex_new_is_empty_at_coordinates() {
    let h = Hex::new(3, 5);
    assert_eq!(h.x, 3);
    assert_eq!(h.y, 5);
    assert!(!h.value);
}

#[test]
fn new_board_is_empty_with_coordinates_fixed() {
    let b = board(4, 1, 0, 1, 4);
    assert_eq!(b.occupied_cells().len(), 0);
    for x in 0..4i16 {
        for y in 0..4i16 {
            let h = b.get_cell(x, y);
            assert_eq!(h.x, x);
            assert_eq!(h.y, y);
            assert!(!h.value);
        }
    }
}

#[test]
fn set_cell_and_get_cell_round_trip() {
    let mut b = board(4, 1, 0, 1, 4);
    b.set_cell(2, 1, true);
    assert!(b.get_cell(2, 1).value);
    assert!(!b.get_cell(1, 2).value);
    b.set_cell(2, 1, false);
    assert!(!b.get_cell(2, 1).value);
}

#[test]
fn wrapx_wraps_one_step_on_each_side() {
    let b = board(4, 1, 0, 1, 4);
    assert_eq!(b.wrapx(-1), 3);
    assert_eq!(b.wrapx(0), 0);
    assert_eq!(b.wrapx(3), 3);
    assert_eq!(b.wrapx(4), 0);
    assert_eq!(b.wrapx(7), 0);
}

#[test]
fn wrapy_wraps_with_period_one_less() {
    let b = board(4, 1, 0, 1, 4);
    assert_eq!(b.wrapy(0), 0);
    assert_eq!(b.wrapy(2), 2);
    assert_eq!(b.wrapy(3), 0);
    assert_eq!(b.wrapy(4), 0);
    // A negative index lands one past the shorter period: the model's
    // asymmetry, kept on purpose.
    assert_eq!(b.wrapy(-1), 3);
}

#[test]
fn wrap_round_trips_within_the_band() {
    let b = board(5, 1, 0, 1, 4);
    for i in -1..=5i16 {
        let r = b.wrapx(i) as i16;
        assert_eq!(b.wrapx(r), r as u16);
        if r == 0 {
            assert_eq!(b.wrapx(r + 5), r as u16);
        }
        if r == 4 {
            assert_eq!(b.wrapx(r - 5), r as u16);
        }
    }
    for i in 0..=5i16 {
        let r = b.wrapy(i) as i16;
        assert_eq!(b.wrapy(r), r as u16);
        if r == 0 {
            assert_eq!(b.wrapy(r + 4), r as u16);
        }
    }
    // Outside the band the wrap clamps instead of reducing, so the
    // round-trip law fails there: wrapy sends -1 to 4, which wraps to 0.
    assert_eq!(b.wrapy(b.wrapy(-1) as i16), 0);
}

#[test]
fn neighbours_are_six_cells_inside_the_grid() {
    for size in [2u16, 3, 4, 5] {
        let b = board(size, 1, 0, 1, 4);
        for x in 0..size as i16 {
            for y in 0..size as i16 {
                let n = b.get_neighbours(x, y);
                assert_eq!(n.len(), 6);
                for h in n {
                    assert!(h.x >= 0 && (h.x as u16) < size);
                    assert!(h.y >= 0 && (h.y as u16) < size);
                }
            }
        }
    }
}

#[test]
fn neighbours_of_an_even_corner() {
    let b = board(4, 1, 0, 1, 4);
    let n = b.get_neighbours(0, 0);
    let coords: Vec<(i16, i16)> = n.iter().map(|h| (h.x, h.y)).collect();
    assert_eq!(coords, vec![(1, 0), (3, 0), (0, 1), (0, 3), (3, 1), (3, 3)]);
}

#[test]
fn neighbours_of_an_odd_row_cell() {
    let b = board(4, 1, 0, 1, 4);
    let n = b.get_neighbours(1, 1);
    let coords: Vec<(i16, i16)> = n.iter().map(|h| (h.x, h.y)).collect();
    assert_eq!(coords, vec![(2, 1), (0, 1), (1, 2), (1, 0), (2, 2), (2, 0)]);
}

#[test]
fn get_energy_counts_occupied_neighbours() {
    let mut b = board(4, 1, 0, 1, 4);
    let origin = b.get_cell(0, 0);
    assert_eq!(b.get_energy(origin), 0);
    b.set_cell(1, 0, true);
    let origin = b.get_cell(0, 0);
    assert_eq!(b.get_energy(origin), 1);
    b.set_cell(3, 0, true);
    b.set_cell(0, 1, true);
    let origin = b.get_cell(0, 0);
    assert_eq!(b.get_energy(origin), 3);
    // The short y period folds row 3 onto row 0, so (2, 2)'s upward
    // neighbour is (2, 0) and its diagonal reach includes (1, 0): energy 1.
    let wrapped = b.get_cell(2, 2);
    assert_eq!(b.get_energy(wrapped), 1);
}

#[test]
fn total_energy_counts_each_bond_twice() {
    let mut b = board(4, 1, 0, 1, 4);
    assert_eq!(b.total_energy(), 0);
    b.set_cell(0, 0, true);
    b.set_cell(1, 0, true);
    // One adjacent pair, seen once from each side.
    assert_eq!(b.total_energy(), 2);
    b.set_cell(3, 2, true);
    // The third particle touches neither of the pair, even through the wrap.
    assert_eq!(b.total_energy(), 2);
}

#[test]
fn occupied_cells_lists_in_column_order() {
    let mut b = board(3, 1, 0, 1, 3);
    b.set_cell(2, 1, true);
    b.set_cell(0, 0, true);
    let cells = b.occupied_cells();
    let coords: Vec<(i16, i16)> = cells.iter().map(|h| (h.x, h.y)).collect();
    assert_eq!(coords, vec![(0, 0), (2, 1)]);
    assert!(cells.iter().all(|h| h.value));
}
