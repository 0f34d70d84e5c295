//! Two seed patterns: a glider and a pulsar.

use crate::position::Position;
use crate::world::World;
use vstd::prelude::*;

verus! {

/// The smallest width and height of a world that takes the glider.
pub const GLIDER_MIN_SIDE: u32 = 5;

/// The smallest width and height of a world that takes the pulsar.
pub const PULSAR_MIN_SIDE: u32 = 15;

/// The five cells of the glider.
pub open spec fn glider_cells() -> Seq<(int, int)> {
    seq![(4int, 2int), (2int, 3int), (4int, 3int), (3int, 4int), (4int, 4int)]
}

/// The twenty-four cells of the pulsar seed.
pub open spec fn pulsar_cells() -> Seq<(int, int)> {
    seq![
        (7int, 4int),
        (8int, 4int),
        (9int, 4int),
        (13int, 4int),
        (14int, 4int),
        (15int, 4int),
        (5int, 6int),
        (10int, 6int),
        (12int, 6int),
        (17int, 6int),
        (5int, 7int),
        (10int, 7int),
        (12int, 7int),
        (17int, 7int),
        (5int, 8int),
        (10int, 8int),
        (12int, 8int),
        (17int, 8int),
        (7int, 10int),
        (8int, 10int),
        (9int, 10int),
        (13int, 10int),
        (14int, 10int),
        (15int, 10int),
    ]
}

/// A world seeded with a glider.
///
/// The world must be at least five cells wide and five cells high.
pub fn glider_pattern(width: u32, height: u32) -> (world: World)
    requires
        width >= GLIDER_MIN_SIDE,
        height >= GLIDER_MIN_SIDE,
    ensures
        world.width() == width,
        world.height() == height,
        world@ == glider_cells().to_set(),
{
    let glider = vec![
        Position::new(4, 2),
        Position::new(2, 3),
        Position::new(4, 3),
        Position::new(3, 4),
        Position::new(4, 4),
    ];
    assert(glider.deep_view() =~= glider_cells());
    World::new(width, height, glider)
}

/// A world seeded with a glider, or `None` where the world is too small
/// to take one.
pub fn try_glider_pattern(width: u32, height: u32) -> (made: Option<World>)
    ensures
        made.is_some() <==> width >= GLIDER_MIN_SIDE && height >= GLIDER_MIN_SIDE,
        made matches Some(world) ==> world.width() == width && world.height() == height
            && world@ == glider_cells().to_set(),
{
    if width < GLIDER_MIN_SIDE || height < GLIDER_MIN_SIDE {
        None
    } else {
        Some(glider_pattern(width, height))
    }
}

/// A world seeded with a pulsar.
///
/// The world must be at least fifteen cells wide and fifteen cells high.
/// The seed reaches column 17: on a narrower world its cells beyond the last
/// column are stored as they are, like any other position.
pub fn pulsar_pattern(width: u32, height: u32) -> (world: World)
    requires
        width >= PULSAR_MIN_SIDE,
        height >= PULSAR_MIN_SIDE,
    ensures
        world.width() == width,
        world.height() == height,
        world@ == pulsar_cells().to_set(),
{
    let pulsar = vec![
        Position::new(7, 4),
        Position::new(8, 4),
        Position::new(9, 4),
        Position::new(13, 4),
        Position::new(14, 4),
        Position::new(15, 4),
        Position::new(5, 6),
        Position::new(10, 6),
        Position::new(12, 6),
        Position::new(17, 6),
        Position::new(5, 7),
        Position::new(10, 7),
        Position::new(12, 7),
        Position::new(17, 7),
        Position::new(5, 8),
        Position::new(10, 8),
        Position::new(12, 8),
        Position::new(17, 8),
        Position::new(7, 10),
        Position::new(8, 10),
        Position::new(9, 10),
        Position::new(13, 10),
        Position::new(14, 10),
        Position::new(15, 10),
    ];
    assert(pulsar.deep_view() =~= pulsar_cells());
    World::new(width, height, pulsar)
}

/// A world seeded with a pulsar, or `None` where the world is too small
/// to take one.
pub fn try_pulsar_pattern(width: u32, height: u32) -> (made: Option<World>)
    ensures
        made.is_some() <==> width >= PULSAR_MIN_SIDE && height >= PULSAR_MIN_SIDE,
        made matches Some(world) ==> world.width() == width && world.height() == height
            && world@ == pulsar_cells().to_set(),
{
    if width < PULSAR_MIN_SIDE || height < PULSAR_MIN_SIDE {
        None
    } else {
        Some(pulsar_pattern(width, height))
    }
}

} // verus!
