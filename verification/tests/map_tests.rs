use tactics_core::error::Error;
use tactics_core::map::{Cell, CellAttibute, GameMap, Team};
use tactics_core::Id;

fn empty_map(w: usize, h: usize) -> GameMap {
    GameMap {
        name: "".to_owned(),
        width: w,
        height: h,
        data: Vec::new(),
        teams: Vec::new(),
    }
}

fn flat_map(w: usize, h: usize) -> GameMap {
    let mut data = Vec::new();
    for _ in 0..w * h {
        data.push(Cell {
            height: 0,
            attribute: CellAttibute::Plain,
        });
    }
    GameMap {
        name: "plain".to_owned(),
        width: w,
        height: h,
        data,
        teams: Vec::new(),
    }
}

#[test]
fn test_xy_to_id() {
    let map = empty_map(4, 6);
    let cell_id = map.xy_to_id(1, 3);
    assert_eq!(cell_id.raw(), 13);
}

#[test]
fn test_id_to_xy() {
    let map = empty_map(4, 6);
    let (x, y) = map.id_to_xy(Id::new(22));
    assert_eq!(x, 2);
    assert_eq!(y, 5);
}

#[test]
fn test_id_consistency() {
    let map = empty_map(4, 6);
    let cell_id = Id::new(22);
    let (x, y) = map.id_to_xy(cell_id);
    assert_eq!(cell_id, map.xy_to_id(x, y));
}

#[test]
fn map_test_xy_to_id() {
    let map = empty_map(4, 6);
    let cell_id = map.xy_to_id(1, 3);
    assert_eq!(cell_id.raw(), 13);
}

#[test]
fn map_test_id_to_xy() {
    let map = empty_map(4, 6);
    let (x, y) = map.id_to_xy(Id::new(22));
    assert_eq!(x, 2);
    assert_eq!(y, 5);
}

#[test]
fn map_test_id_consistency() {
    let map = empty_map(4, 6);
    let cell_id = Id::new(22);
    let (x, y) = map.id_to_xy(cell_id);
    assert_eq!(cell_id, map.xy_to_id(x, y));
}

#[test]
fn bijection_covers_whole_grid() {
    let map = flat_map(4, 6);
    for y in 0..6 {
        for x in 0..4 {
            let id = map.xy_to_id(x, y);
            assert!(id.raw() < 24);
            assert_eq!(map.id_to_xy(id), (x, y));
        }
    }
}

#[test]
fn valid_map_passes_validation() {
    let map = flat_map(4, 6);
    assert!(map.check_validity().is_ok());
}

#[test]
fn short_cell_vector_fails_validation() {
    let mut map = flat_map(4, 6);
    map.data.pop();
    assert_eq!(map.check_validity(), Err(Error::InvalidMapSize));
}

#[test]
fn overlapping_starting_cells_fail_validation() {
    let mut map = flat_map(4, 6);
    map.teams = vec![
        Team("red".to_owned(), vec![Id::new(5)]),
        Team("blue".to_owned(), vec![Id::new(5)]),
    ];
    assert_eq!(map.check_validity(), Err(Error::OverlappingStartingCells));
}

#[test]
fn starting_cell_taken_twice_by_one_team_fails_validation() {
    let mut map = flat_map(4, 6);
    map.teams = vec![Team("red".to_owned(), vec![Id::new(3), Id::new(3)])];
    assert_eq!(map.check_validity(), Err(Error::OverlappingStartingCells));
}

#[test]
fn distinct_starting_cells_pass_validation() {
    let mut map = flat_map(4, 6);
    map.teams = vec![
        Team("red".to_owned(), vec![Id::new(0), Id::new(1)]),
        Team("blue".to_owned(), vec![Id::new(22), Id::new(23)]),
    ];
    assert!(map.check_validity().is_ok());
}

#[test]
fn manhattan_distance_ignores_height() {
    let mut map = flat_map(4, 6);
    map.data[1].height = 50;
    let a = map.xy_to_id(0, 0);
    let b = map.xy_to_id(3, 2);
    assert_eq!(map.distance(a, b), 5);
    assert_eq!(map.distance(b, a), 5);
    assert_eq!(map.distance(a, a), 0);
}

#[test]
fn flat_grid_movement_costs_one_per_step() {
    let map = flat_map(4, 6);
    let start = map.xy_to_id(0, 0);
    let end = map.xy_to_id(3, 0);
    assert!(map.can_move_to(start, end, 3));
    assert!(!map.can_move_to(start, end, 2));
}

#[test]
fn climbing_costs_height_difference_plus_one() {
    let mut map = flat_map(4, 6);
    // a height increase of 2 on the intervening cell (1,0) raises that
    // step's cost to 3; any detour around it takes at least five steps
    map.data[1].height = 2;
    let start = map.xy_to_id(0, 0);
    let end = map.xy_to_id(3, 0);
    assert!(map.can_move_to(start, end, 5));
    assert!(!map.can_move_to(start, end, 4));
}

#[test]
fn descending_costs_one() {
    let mut map = flat_map(2, 1);
    map.data[0].height = 9;
    let start = map.xy_to_id(0, 0);
    let end = map.xy_to_id(1, 0);
    assert!(map.can_move_to(start, end, 1));
    assert!(!map.can_move_to(start, end, 0));
}

#[test]
fn moving_nowhere_costs_nothing() {
    let map = flat_map(4, 6);
    let start = map.xy_to_id(2, 2);
    assert!(map.can_move_to(start, start, 0));
    assert!(!map.can_move_to(start, start, -1));
}

#[test]
fn off_grid_target_is_unreachable() {
    let map = flat_map(4, 6);
    let start = map.xy_to_id(0, 0);
    assert!(!map.can_move_to(start, Id::new(24), 100));
}

fn range(min: u32, max: u32, kind: tactics_core::effect::RangeKind) -> tactics_core::effect::Range {
    tactics_core::effect::Range {
        min,
        max,
        kind,
        target: tactics_core::effect::Target::Anything,
        needs_los: false,
    }
}

#[test]
fn cross_range_needs_a_shared_axis() {
    let map = flat_map(5, 6);
    let origin = map.xy_to_id(2, 2);
    let cross = range(1, 2, tactics_core::effect::RangeKind::Cross);
    // two steps directly north shares the origin's column
    assert!(map.range_matches(origin, map.xy_to_id(2, 0), &cross));
    // one step north and one step east shares neither axis
    assert!(!map.range_matches(origin, map.xy_to_id(3, 1), &cross));
    // too far along the shared axis
    assert!(!map.range_matches(origin, map.xy_to_id(2, 2 + 2 + 1), &cross));
    // the origin itself is below the minimum distance
    assert!(!map.range_matches(origin, origin, &cross));
}

#[test]
fn star_range_bounds_the_manhattan_distance() {
    let map = flat_map(5, 5);
    let origin = map.xy_to_id(2, 2);
    let star = range(1, 2, tactics_core::effect::RangeKind::Star);
    assert!(map.range_matches(origin, map.xy_to_id(3, 3), &star));
    assert!(map.range_matches(origin, map.xy_to_id(2, 1), &star));
    assert!(!map.range_matches(origin, origin, &star));
    assert!(!map.range_matches(origin, map.xy_to_id(4, 3), &star));
}

#[test]
fn square_range_bounds_the_vertical_delta_as_signed() {
    let map = flat_map(5, 5);
    let origin = map.xy_to_id(2, 2);
    let square = range(0, 1, tactics_core::effect::RangeKind::Square);
    // the vertical delta is bounded as authored: signed, not absolute, so
    // one step north (delta +1) matches while one step south (delta -1)
    // does not
    assert!(map.range_matches(origin, map.xy_to_id(2, 1), &square));
    assert!(!map.range_matches(origin, map.xy_to_id(2, 3), &square));
    // the horizontal delta is bounded by its absolute value
    assert!(map.range_matches(origin, map.xy_to_id(1, 2), &square));
    assert!(map.range_matches(origin, map.xy_to_id(3, 2), &square));
}
