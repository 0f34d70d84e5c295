use game_of_life::{Position, World};
use std::collections::HashSet;

fn cells(list: &[(i64, i64)]) -> Vec<Position> {
    list.iter().map(|&(x, y)| Position::new(x, y)).collect()
}

fn as_set(list: Vec<Position>) -> HashSet<(i64, i64)> {
    list.into_iter().map(|p| (p.x, p.y)).collect()
}

fn set_of(list: &[(i64, i64)]) -> HashSet<(i64, i64)> {
    list.iter().copied().collect()
}

#[test]
fn live_neighbor_count_stays_within_eight() {
    let world = World::new(3, 3, cells(&[(1, 1), (2, 2), (3, 3), (1, 3), (3, 1), (0, 0)]));
    for x in -4..8 {
        for y in -4..8 {
            assert!(world.live_neighbors(Position::new(x, y)) <= 8);
        }
    }
}

#[test]
fn live_neighbor_count_reaches_eight_on_a_single_cell_grid() {
    let world = World::new(1, 1, cells(&[(1, 1)]));
    assert_eq!(world.live_neighbors(Position::new(1, 1)), 8);
    let empty = World::new(1, 1, vec![]);
    assert_eq!(empty.live_neighbors(Position::new(1, 1)), 0);
}

#[test]
fn live_neighbor_count_counts_a_cell_reached_twice_twice() {
    let world = World::new(2, 2, cells(&[(1, 1), (1, 2), (2, 1), (2, 2)]));
    assert_eq!(world.live_neighbors(Position::new(1, 1)), 8);
    assert_eq!(world.live_neighbors(Position::new(2, 2)), 8);
    assert!(world.next_generation().alive_positions().is_empty());
}

#[test]
fn live_neighbor_count_does_not_see_a_cell_stored_outside_the_grid() {
    let world = World::new(5, 5, cells(&[(0, 0), (1, 1)]));
    assert_eq!(world.live_neighbors(Position::new(1, 1)), 0);
    assert_eq!(world.live_neighbors(Position::new(0, 0)), 1);
    assert_eq!(world.live_neighbors(Position::new(5, 5)), 1);
}

#[test]
fn survivor_with_two_neighbors_stays_and_a_lone_cell_goes() {
    let world = World::new(5, 5, cells(&[(1, 1), (1, 2), (2, 1), (3, 3)]));
    assert_eq!(world.live_neighbors(Position::new(1, 1)), 2);
    assert_eq!(world.live_neighbors(Position::new(3, 3)), 0);
    let next = world.next_generation();
    assert!(next.is_alive(Position::new(1, 1)));
    assert!(!next.is_alive(Position::new(3, 3)));
    assert_eq!(
        as_set(world.survivors()),
        set_of(&[(1, 1), (1, 2), (2, 1)])
    );
}

#[test]
fn live_cell_with_four_neighbors_dies() {
    let world = World::new(6, 6, cells(&[(2, 2), (1, 2), (3, 2), (2, 1), (2, 3)]));
    assert_eq!(world.live_neighbors(Position::new(2, 2)), 4);
    let next = world.next_generation();
    assert!(!next.is_alive(Position::new(2, 2)));
    assert_eq!(
        as_set(next.alive_positions()),
        set_of(&[(1, 1), (1, 2), (1, 3), (2, 1), (2, 3), (3, 1), (3, 2), (3, 3)])
    );
}

#[test]
fn empty_cell_with_three_neighbors_is_born() {
    let world = World::new(5, 5, cells(&[(1, 1), (1, 2), (2, 1)]));
    assert!(world.is_empty(Position::new(2, 2)));
    assert_eq!(world.live_neighbors(Position::new(2, 2)), 3);
    assert_eq!(as_set(world.births()), set_of(&[(2, 2)]));
    assert!(world.next_generation().is_alive(Position::new(2, 2)));
}

#[test]
fn birth_lands_on_the_canonical_cell_only() {
    let world = World::new(5, 5, cells(&[(4, 4), (5, 4), (1, 4)]));
    assert!(world.is_empty(Position::new(0, 0)));
    assert_eq!(world.live_neighbors(Position::new(0, 0)), 3);
    assert_eq!(world.live_neighbors(Position::new(5, 5)), 3);
    let next = world.next_generation();
    assert!(!next.is_alive(Position::new(0, 0)));
    assert!(next.is_alive(Position::new(5, 5)));
    assert_eq!(
        as_set(next.alive_positions()),
        set_of(&[(5, 3), (5, 4), (5, 5)])
    );
}

#[test]
fn next_generation_is_survivors_and_births_and_nothing_else() {
    let world = World::new(5, 5, cells(&[(1, 1), (1, 2), (2, 1)]));
    let next = world.next_generation();
    assert_eq!(
        as_set(next.alive_positions()),
        set_of(&[(1, 1), (1, 2), (2, 1), (2, 2)])
    );
    assert_eq!(next.alive_positions().len(), 4);
    let mut both = as_set(world.survivors());
    for p in world.births() {
        assert!(both.insert((p.x, p.y)));
    }
    assert_eq!(both, as_set(next.alive_positions()));
}

#[test]
fn next_generation_leaves_the_receiver_alone() {
    let world = World::new(5, 5, cells(&[(2, 3), (3, 3), (4, 3)]));
    let next = world.next_generation();
    assert_eq!(as_set(world.alive_positions()), set_of(&[(2, 3), (3, 3), (4, 3)]));
    assert_eq!(as_set(next.alive_positions()), set_of(&[(3, 2), (3, 3), (3, 4)]));
    assert_eq!(next.width(), 5);
    assert_eq!(next.height(), 5);
}

#[test]
fn tick_does_what_next_generation_does() {
    let mut ticking = World::new(9, 8, cells(&[(4, 2), (2, 3), (4, 3), (3, 4), (4, 4)]));
    let mut stepping = World::new(9, 8, cells(&[(4, 2), (2, 3), (4, 3), (3, 4), (4, 4)]));
    for _ in 0..12 {
        ticking.tick();
        stepping = stepping.next_generation();
        assert_eq!(
            as_set(ticking.alive_positions()),
            as_set(stepping.alive_positions())
        );
        assert_eq!(ticking.width(), 9);
        assert_eq!(ticking.height(), 8);
    }
}

#[test]
fn blinker_has_period_two() {
    let mut world = World::new(5, 5, cells(&[(2, 3), (3, 3), (4, 3)]));
    world.tick();
    assert_eq!(as_set(world.alive_positions()), set_of(&[(3, 2), (3, 3), (3, 4)]));
    world.tick();
    assert_eq!(as_set(world.alive_positions()), set_of(&[(2, 3), (3, 3), (4, 3)]));
}

#[test]
fn block_is_stable_through_many_generations() {
    let block = [(2, 2), (3, 2), (2, 3), (3, 3)];
    let mut world = World::new(4, 4, cells(&block));
    for _ in 0..10 {
        world.tick();
        assert_eq!(as_set(world.alive_positions()), set_of(&block));
    }
}

#[test]
fn block_is_stable_on_three_by_three() {
    let block = [(1, 1), (2, 1), (1, 2), (2, 2)];
    let mut world = World::new(3, 3, cells(&block));
    for _ in 0..5 {
        world.tick();
        assert_eq!(as_set(world.alive_positions()), set_of(&block));
    }
}

#[test]
fn block_is_stable_across_the_edge() {
    let block = [(6, 5), (1, 5), (6, 1), (1, 1)];
    let mut world = World::new(6, 5, cells(&block));
    for _ in 0..5 {
        world.tick();
        assert_eq!(as_set(world.alive_positions()), set_of(&block));
    }
}

#[test]
fn block_meets_itself_on_a_grid_two_wide() {
    let world = World::new(2, 5, cells(&[(1, 1), (2, 1), (1, 2), (2, 2)]));
    assert_eq!(
        as_set(world.next_generation().alive_positions()),
        set_of(&[(1, 3), (1, 5), (2, 3), (2, 5)])
    );
}

#[test]
fn empty_world_stays_empty() {
    let mut world = World::new(8, 8, vec![]);
    world.tick();
    assert!(world.alive_positions().is_empty());
    assert!(world.survivors().is_empty());
    assert!(world.births().is_empty());
}

#[test]
fn alive_positions_never_repeat_a_cell() {
    let mut world = World::new(
        6,
        6,
        cells(&[(4, 2), (2, 3), (4, 3), (3, 4), (4, 4), (4, 2), (1, 1), (6, 6), (1, 6)]),
    );
    for _ in 0..25 {
        let alive = world.alive_positions();
        assert_eq!(as_set(alive.clone()).len(), alive.len());
        world.tick();
    }
}

#[test]
fn cells_stored_outside_the_grid_die_unseen() {
    let world = World::new(5, 5, cells(&[(0, 0), (1, 1)]));
    assert!(world.next_generation().alive_positions().is_empty());
}
