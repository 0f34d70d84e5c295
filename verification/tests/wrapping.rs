use game_of_life::torus::wrap_shifted;
use game_of_life::{Position, World};

#[test]
fn wrap_returns_a_canonical_cell_unchanged() {
    let world = World::new(5, 7, vec![]);
    for x in 1..=5 {
        for y in 1..=7 {
            assert_eq!(world.wrap(Position::new(x, y)), Position::new(x, y));
        }
    }
}

#[test]
fn wrap_is_periodic_in_both_axes() {
    let world = World::new(5, 7, vec![]);
    assert_eq!(world.wrap(Position::new(-4, 15)), Position::new(1, 1));
    assert_eq!(world.wrap(Position::new(11, -6)), Position::new(1, 1));
    assert_eq!(world.wrap(Position::new(-1, -1)), Position::new(4, 6));
    assert_eq!(world.wrap(Position::new(10, 14)), Position::new(5, 7));
    assert_eq!(world.wrap(Position::new(-5, -7)), Position::new(5, 7));
}

#[test]
fn wrap_handles_the_ends_of_the_integer_range() {
    let world = World::new(5, 5, vec![]);
    assert_eq!(
        world.wrap(Position::new(i64::MAX, i64::MIN)),
        Position::new(2, 2)
    );
}

#[test]
fn wrap_on_a_single_cell_grid_is_constant() {
    let world = World::new(1, 1, vec![]);
    assert_eq!(world.wrap(Position::new(0, 0)), Position::new(1, 1));
    assert_eq!(world.wrap(Position::new(-9, 41)), Position::new(1, 1));
    assert_eq!(world.wrap(Position::new(1, 1)), Position::new(1, 1));
}

#[test]
fn wrap_on_the_widest_grid() {
    let world = World::new(u32::MAX, u32::MAX, vec![]);
    assert_eq!(
        world.wrap(Position::new(0, 4294967296)),
        Position::new(4294967295, 1)
    );
}

#[test]
fn wrap_shifted_steps_before_it_wraps() {
    assert_eq!(wrap_shifted(1, -1, 5), 5);
    assert_eq!(wrap_shifted(5, 1, 5), 1);
    assert_eq!(wrap_shifted(3, 0, 5), 3);
    assert_eq!(wrap_shifted(3, 1, 5), 4);
    assert_eq!(wrap_shifted(-10, -1, 4), 1);
    assert_eq!(wrap_shifted(i64::MAX, 1, 5), 3);
    assert_eq!(wrap_shifted(i64::MIN, -1, 5), 1);
}

#[test]
fn wrap_shifted_takes_any_step() {
    assert_eq!(wrap_shifted(i64::MAX, i64::MAX, 10), 4);
    assert_eq!(wrap_shifted(i64::MIN, i64::MIN, 10), 4);
    assert_eq!(wrap_shifted(i64::MAX, i64::MIN, 7), 6);
    assert_eq!(wrap_shifted(5, 100, 7), 7);
    assert_eq!(wrap_shifted(5, -100, 7), 3);
}

#[test]
fn wrap_shifted_agrees_with_the_euclidean_remainder() {
    for len in 1u32..9 {
        for v in -20i64..21 {
            for delta in -1i64..2 {
                let expected = (v + delta - 1).rem_euclid(len as i64) + 1;
                assert_eq!(wrap_shifted(v, delta, len), expected);
            }
        }
    }
}

#[test]
fn neighbors_come_row_by_row_from_the_top_left() {
    let world = World::new(5, 5, vec![]);
    assert_eq!(
        world.neighbors(Position::new(3, 3)),
        vec![
            Position::new(2, 2),
            Position::new(3, 2),
            Position::new(4, 2),
            Position::new(2, 3),
            Position::new(4, 3),
            Position::new(2, 4),
            Position::new(3, 4),
            Position::new(4, 4),
        ]
    );
}

#[test]
fn neighbors_wrap_around_the_corner() {
    let world = World::new(5, 5, vec![]);
    assert_eq!(
        world.neighbors(Position::new(1, 1)),
        vec![
            Position::new(5, 5),
            Position::new(1, 5),
            Position::new(2, 5),
            Position::new(5, 1),
            Position::new(2, 1),
            Position::new(5, 2),
            Position::new(1, 2),
            Position::new(2, 2),
        ]
    );
    assert_eq!(
        world.neighbors(Position::new(0, 0)),
        vec![
            Position::new(4, 4),
            Position::new(5, 4),
            Position::new(1, 4),
            Position::new(4, 5),
            Position::new(1, 5),
            Position::new(4, 1),
            Position::new(5, 1),
            Position::new(1, 1),
        ]
    );
}

#[test]
fn neighbors_at_the_ends_of_the_integer_range() {
    let world = World::new(5, 7, vec![]);
    assert_eq!(
        world.neighbors(Position::new(i64::MAX, i64::MIN)),
        vec![
            Position::new(1, 5),
            Position::new(2, 5),
            Position::new(3, 5),
            Position::new(1, 6),
            Position::new(3, 6),
            Position::new(1, 7),
            Position::new(2, 7),
            Position::new(3, 7),
        ]
    );
}

#[test]
fn neighbors_repeat_on_a_narrow_grid() {
    let world = World::new(2, 3, vec![]);
    assert_eq!(
        world.neighbors(Position::new(1, 2)),
        vec![
            Position::new(2, 1),
            Position::new(1, 1),
            Position::new(2, 1),
            Position::new(2, 2),
            Position::new(2, 2),
            Position::new(2, 3),
            Position::new(1, 3),
            Position::new(2, 3),
        ]
    );
}
