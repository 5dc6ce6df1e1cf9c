use mechrogue::Object;
use mechrogue::Rect;
use mechrogue::TileGrid;
use mechrogue::make_map;
use mechrogue::make_map_with_rooms;
use mechrogue::place_objects;

fn bfs_reachable(map: &TileGrid, start: (i32, i32)) -> Vec<Vec<bool>> {
    let width = map.len();
    let height = map[0].len();
    let mut seen = vec![vec![false; height]; width];
    let mut queue = vec![start];
    seen[start.0 as usize][start.1 as usize] = true;
    while let Some((x, y)) = queue.pop() {
        for (dx, dy) in [(1, 0), (-1, 0), (0, 1), (0, -1)] {
            let nx = x + dx;
            let ny = y + dy;
            if nx >= 0 && ny >= 0 && (nx as usize) < width && (ny as usize) < height {
                let (ux, uy) = (nx as usize, ny as usize);
                if !seen[ux][uy] && !map[ux][uy].blocked {
                    seen[ux][uy] = true;
                    queue.push((nx, ny));
                }
            }
        }
    }
    seen
}

#[test]
fn start_is_on_floor_and_every_floor_cell_reaches_it() {
    for _ in 0..20 {
        let mut objects: Vec<Object> = Vec::new();
        let (map, start) = make_map(45, 80, &mut objects);

        assert_eq!(map.len(), 80);
        assert_eq!(map[0].len(), 45);
        assert!(!map[start.0 as usize][start.1 as usize].blocked);

        // Every carved floor cell is connected to the start by floor.
        let seen = bfs_reachable(&map, start);
        for x in 0..80usize {
            for y in 0..45usize {
                if !map[x][y].blocked {
                    assert!(seen[x][y], "floor cell ({}, {}) unreachable from start", x, y);
                }
            }
        }
    }
}

#[test]
fn accepted_rooms_never_overlap() {
    for _ in 0..20 {
        let mut objects: Vec<Object> = Vec::new();
        let (_map, _start, rooms) = make_map_with_rooms(45, 80, &mut objects);
        assert!(rooms.len() >= 1);
        for i in 0..rooms.len() {
            for j in 0..rooms.len() {
                if i != j {
                    assert!(!rooms[i].intersects_with(&rooms[j]));
                }
            }
        }
    }
}

#[test]
fn spawned_entities_stand_on_floor_inside_the_border() {
    for _ in 0..10 {
        let mut objects: Vec<Object> = Vec::new();
        let (map, _start) = make_map(45, 80, &mut objects);
        for o in &objects {
            assert!(o.x >= 1 && o.x < 79);
            assert!(o.y >= 1 && o.y < 44);
            assert!(!map[o.x as usize][o.y as usize].blocked);
            let archetype_ok = (o.name == "orc") || (o.name == "troll") || (o.name
                == "healing potion");
            assert!(archetype_ok);
            if o.name == "orc" {
                assert_eq!(o.hp.unwrap().current, 10);
                assert_eq!(o.melee.unwrap().attack, 3);
                assert!(o.alive && o.blocks && o.ai.is_some());
            }
            if o.name == "troll" {
                assert_eq!(o.hp.unwrap().current, 16);
                assert_eq!(o.melee.unwrap().attack, 4);
                assert_eq!(o.melee.unwrap().defense, 1);
                assert!(o.alive && o.blocks && o.ai.is_some());
            }
            if o.name == "healing potion" {
                assert!(!o.blocks && !o.alive && o.hp.is_none() && o.item.is_some());
            }
        }
    }
}

#[test]
fn map_border_stays_wall() {
    for _ in 0..5 {
        let mut objects: Vec<Object> = Vec::new();
        let (map, _start) = make_map(45, 80, &mut objects);
        for x in 0..80usize {
            assert!(map[x][0].blocked);
            assert!(map[x][44].blocked);
        }
        for y in 0..45usize {
            assert!(map[0][y].blocked);
            assert!(map[79][y].blocked);
        }
    }
}

#[test]
fn place_objects_spawns_at_most_five_inside_the_room() {
    for _ in 0..50 {
        let room = Rect::new(10, 10, 8, 8);
        let mut objects: Vec<Object> = Vec::new();
        place_objects(room, &mut objects);
        assert!(objects.len() <= 5);
        for o in &objects {
            assert!(o.x > 10 && o.x < 18);
            assert!(o.y > 10 && o.y < 18);
        }
    }
}

#[test]
fn rect_center_and_intersection() {
    let r = Rect::new(2, 4, 6, 6);
    assert_eq!(r.center(), (5, 7));

    let a = Rect::new(0, 0, 4, 4);
    let b = Rect::new(4, 4, 3, 3);
    // Inclusive bounding boxes: touching edges count as an intersection.
    assert!(a.intersects_with(&b));
    assert!(b.intersects_with(&a));

    let c = Rect::new(5, 5, 2, 2);
    assert!(!a.intersects_with(&c));
    assert!(!c.intersects_with(&a));
}

#[test]
fn rand_inside_stays_strictly_inside() {
    let r = Rect::new(3, 7, 6, 6);
    for _ in 0..200 {
        let (x, y) = r.rand_inside();
        assert!(x > 3 && x < 9);
        assert!(y > 7 && y < 13);
    }
}

#[test]
fn fixed_arena_has_two_pillars() {
    let map = mechrogue::tile::make_map(23, 51);
    assert_eq!(map.len(), 51);
    assert_eq!(map[0].len(), 23);
    assert!(map[30][22].blocked);
    assert!(map[50][22].blocked);
    assert!(!map[0][0].blocked);
    assert!(!map[30][21].blocked);
    assert!(!map[49][22].blocked);
}

#[test]
fn placement_orders_monsters_before_items_with_bounded_counts() {
    for _ in 0..100 {
        let room = Rect::new(4, 4, 8, 8);
        let mut objects: Vec<Object> = Vec::new();
        place_objects(room, &mut objects);

        let mut saw_item = false;
        let mut monsters = 0;
        let mut items = 0;
        for o in &objects {
            if o.name == "healing potion" {
                saw_item = true;
                items += 1;
            } else {
                assert!(!saw_item, "a monster appeared after an item");
                monsters += 1;
            }
        }
        assert!(monsters <= 3);
        assert!(items <= 2);

        // An item never sits on a cell taken by a monster of the same call.
        for o in &objects {
            if o.name == "healing potion" {
                for m in &objects {
                    if m.name != "healing potion" {
                        assert!((o.x, o.y) != (m.x, m.y));
                    }
                }
            }
        }
    }
}

#[test]
fn first_room_spawns_nothing_and_spawns_sit_in_later_rooms() {
    for _ in 0..10 {
        let mut objects: Vec<Object> = Vec::new();
        let (_map, _start, rooms) = make_map_with_rooms(45, 80, &mut objects);
        for o in &objects {
            let mut housed = false;
            for (i, r) in rooms.iter().enumerate() {
                if r.x1 < o.x && o.x < r.x2 && r.y1 < o.y && o.y < r.y2 {
                    assert!(i >= 1, "a spawn sits in the first room");
                    housed = true;
                }
            }
            assert!(housed);
        }
    }
}

#[test]
fn floor_lies_in_rooms_or_corridors_only() {
    for _ in 0..5 {
        let mut objects: Vec<Object> = Vec::new();
        let (map, _start, rooms) = make_map_with_rooms(45, 80, &mut objects);
        let centers: Vec<(i32, i32)> =
            rooms.iter().map(|r| ((r.x1 + r.x2) / 2, (r.y1 + r.y2) / 2)).collect();
        for x in 0..80i32 {
            for y in 0..45i32 {
                if !map[x as usize][y as usize].blocked {
                    let in_room = rooms
                        .iter()
                        .any(|r| r.x1 < x && x < r.x2 && r.y1 < y && y < r.y2);
                    let on_corridor = (1..rooms.len()).any(|i| {
                        let (ax, ay) = centers[i - 1];
                        let (bx, by) = centers[i];
                        let on_h = |row: i32| y == row && x >= ax.min(bx) && x <= ax.max(bx);
                        let on_v = |col: i32| x == col && y >= ay.min(by) && y <= ay.max(by);
                        on_h(ay) || on_h(by) || on_v(ax) || on_v(bx)
                    });
                    assert!(in_room || on_corridor, "stray floor at ({}, {})", x, y);
                }
            }
        }
    }
}
