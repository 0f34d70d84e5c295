use game_of_life::cell_set::CellSet;
use game_of_life::Position;

#[test]
fn new_cell_set_is_empty() {
    let set = CellSet::new();
    assert_eq!(set.len(), 0);
    assert!(set.to_vec().is_empty());
    assert!(!set.contains(Position::new(0, 0)));
}

#[test]
fn insert_says_whether_the_cell_was_new() {
    let mut set = CellSet::new();
    assert!(set.insert(Position::new(3, 4)));
    assert!(!set.insert(Position::new(3, 4)));
    assert!(set.insert(Position::new(4, 3)));
    assert_eq!(set.len(), 2);
    assert!(set.contains(Position::new(3, 4)));
    assert!(set.contains(Position::new(4, 3)));
    assert!(!set.contains(Position::new(3, 3)));
}

#[test]
fn cell_set_keeps_the_order_of_first_insertion() {
    let mut set = CellSet::new();
    set.insert(Position::new(9, 9));
    set.insert(Position::new(-1, 5));
    set.insert(Position::new(9, 9));
    set.insert(Position::new(0, 0));
    set.insert(Position::new(-1, 5));
    assert_eq!(
        set.to_vec(),
        vec![Position::new(9, 9), Position::new(-1, 5), Position::new(0, 0)]
    );
    assert_eq!(set.get(0), Position::new(9, 9));
    assert_eq!(set.get(1), Position::new(-1, 5));
    assert_eq!(set.get(2), Position::new(0, 0));
}

#[test]
fn cell_set_tells_the_corners_of_the_plane_apart() {
    let corners = [
        Position::new(i64::MIN, i64::MIN),
        Position::new(i64::MIN, i64::MAX),
        Position::new(i64::MAX, i64::MIN),
        Position::new(i64::MAX, i64::MAX),
        Position::new(0, i64::MIN),
        Position::new(i64::MIN, 0),
        Position::new(-1, 0),
        Position::new(0, -1),
        Position::new(1, 0),
        Position::new(0, 1),
    ];
    let mut set = CellSet::new();
    for (i, p) in corners.iter().enumerate() {
        assert!(!set.contains(*p));
        assert!(set.insert(*p));
        assert_eq!(set.len(), i + 1);
    }
    for p in corners.iter() {
        assert!(set.contains(*p));
        assert!(!set.insert(*p));
    }
    assert_eq!(set.to_vec(), corners.to_vec());
}

#[test]
fn cell_set_does_not_mix_up_the_two_coordinates() {
    let mut set = CellSet::new();
    set.insert(Position::new(2, 7));
    assert!(!set.contains(Position::new(7, 2)));
    assert!(!set.contains(Position::new(2, 8)));
    assert!(!set.contains(Position::new(3, 7)));
}
