use hexgas::hexboard::HexBoard;
use rand::rngs::StdRng;
use rand::SeedableRng;

fn board(size: u16, seed: u64, disorder_millis: u64, fill_num: u64, fill_den: u64) -> HexBoard {
    HexBoard::new(size, StdRng::seed_from_u64(seed), disorder_millis, fill_num, fill_den)
}

#[test]
fn order_counts_the_three_sublattices() {
    // size 3, fill 1/3: the conserved denominator is floor(9/3) = 3.
    let mut b = board(3, 1, 0, 1, 3);
    // (0,0) even row, x % 3 == 0: class a.
    // (1,1) odd row, x % 3 == 1: class a.
    // (2,0) even row, x % 3 == 2: class c.
    b.set_cell(0, 0, true);
    b.set_cell(1, 1, true);
    b.set_cell(2, 0, true);
    let o = b.get_order();
    assert_eq!(o.len(), 3);
    assert_eq!((o[0].num, o[0].den), (2, 3));
    assert_eq!((o[1].num, o[1].den), (0, 3));
    assert_eq!((o[2].num, o[2].den), (1, 3));
}

#[test]
fn order_single_is_the_weighted_combination() {
    let mut b = board(3, 1, 0, 1, 3);
    b.set_cell(0, 0, true);
    b.set_cell(1, 1, true);
    b.set_cell(2, 0, true);
    let o = b.get_order();
    let s = b.get_order_single();
    assert_eq!(s.num, o[0].num + 2 * o[1].num + 3 * o[2].num);
    assert_eq!(s.num, 5);
    assert_eq!(s.den, 3);
    assert_eq!(s.den, o[0].den);
}

#[test]
fn order_fractions_stay_within_one_after_dynamics() {
    let mut b = board(6, 31415, 4000, 1, 3);
    b.initialize();
    for _ in 0..10 {
        b.advance_timestep_repulsive();
        let o = b.get_order();
        let mut total = 0u64;
        for f in &o {
            assert!(f.num <= f.den);
            total += f.num;
        }
        // The three classes partition the occupied cells, which the dynamics
        // conserve at the target.
        assert_eq!(total, o[0].den);
    }
}

#[test]
fn order_of_an_empty_board_is_zero() {
    let b = board(4, 1, 0, 1, 4);
    let o = b.get_order();
    assert_eq!(o[0].num, 0);
    assert_eq!(o[1].num, 0);
    assert_eq!(o[2].num, 0);
    assert_eq!(o[0].den, 4);
}
