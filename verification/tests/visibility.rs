use mechrogue::Tile;
use mechrogue::TileGrid;
use mechrogue::compute_fov;

fn floor_grid(width: usize, height: usize) -> TileGrid {
    vec![vec![Tile::empty(); height]; width]
}

#[test]
fn origin_and_near_cells_are_visible_within_radius() {
    let mut map = floor_grid(10, 10);
    let fov = compute_fov(&mut map, 5, 5, 3, true);

    assert!(fov.is_in_fov(5, 5));
    assert!(fov.is_in_fov(5, 8));
    assert!(fov.is_in_fov(8, 5));
    assert!(fov.is_in_fov(7, 7));
    // Squared distance 16 lies outside radius 3.
    assert!(!fov.is_in_fov(5, 9));
    assert!(!fov.is_in_fov(9, 5));
    // Off the grid is never visible.
    assert!(!fov.is_in_fov(-1, 0));
    assert!(!fov.is_in_fov(10, 0));
}

#[test]
fn wall_blocks_sight_behind_it() {
    let mut map = floor_grid(10, 10);
    map[5][6] = Tile::wall();
    let fov = compute_fov(&mut map, 5, 5, 4, true);

    // The wall itself is lit, the cells behind it are dark.
    assert!(fov.is_in_fov(5, 6));
    assert!(!fov.is_in_fov(5, 7));
    assert!(!fov.is_in_fov(5, 8));
}

#[test]
fn unlit_walls_stay_dark() {
    let mut map = floor_grid(10, 10);
    map[5][6] = Tile::wall();
    let fov = compute_fov(&mut map, 5, 5, 4, false);

    assert!(!fov.is_in_fov(5, 6));
    assert!(fov.is_in_fov(5, 5));
}

#[test]
fn mutually_unobstructed_cells_see_each_other() {
    let mut map = floor_grid(12, 12);
    let from_a = compute_fov(&mut map, 2, 2, 5, true);
    let from_b = compute_fov(&mut map, 4, 5, 5, true);

    assert!(from_a.is_in_fov(4, 5));
    assert!(from_b.is_in_fov(2, 2));

    let from_c = compute_fov(&mut map, 7, 3, 6, true);
    let from_d = compute_fov(&mut map, 3, 7, 6, true);
    assert!(from_c.is_in_fov(3, 7));
    assert!(from_d.is_in_fov(7, 3));
}

#[test]
fn explored_is_set_by_visibility_and_never_cleared() {
    let mut map = floor_grid(10, 10);
    assert!(!map[5][7].explored);

    compute_fov(&mut map, 5, 5, 3, true);
    assert!(map[5][7].explored);
    assert!(!map[5][9].explored);

    // A later recomputation from elsewhere leaves the old mark in place.
    compute_fov(&mut map, 1, 1, 1, true);
    assert!(map[5][7].explored);
    assert!(map[1][2].explored);

    compute_fov(&mut map, 8, 8, 0, true);
    assert!(map[5][7].explored);
    assert!(map[1][2].explored);
}

#[test]
fn zero_radius_sees_only_the_origin() {
    let mut map = floor_grid(6, 6);
    let fov = compute_fov(&mut map, 3, 3, 0, true);
    assert!(fov.is_in_fov(3, 3));
    assert!(!fov.is_in_fov(3, 4));
    assert!(!fov.is_in_fov(2, 3));
}

#[test]
fn blocked_and_sight_flags_survive_fov() {
    let mut map = floor_grid(8, 8);
    map[4][4] = Tile::wall();
    compute_fov(&mut map, 2, 2, 6, true);
    assert!(map[4][4].blocked);
    assert!(map[4][4].block_sight);
    assert!(!map[3][3].blocked);
}
