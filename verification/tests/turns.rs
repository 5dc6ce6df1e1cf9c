use mechrogue::Ai;
use mechrogue::Color;
use mechrogue::DeathCallback;
use mechrogue::HitPoints;
use mechrogue::InputMapping;
use mechrogue::Melee;
use mechrogue::MesLogs;
use mechrogue::Object;
use mechrogue::PlayerAction;
use mechrogue::PlayerExit;
use mechrogue::Position;
use mechrogue::Tile;
use mechrogue::TileGrid;
use mechrogue::VirtualKey;
use mechrogue::add_message;
use mechrogue::ai_take_turn;
use mechrogue::compute_fov;
use mechrogue::create_player;
use mechrogue::handle_keys;
use mechrogue::is_blocked;
use mechrogue::run_cycle;
use mechrogue::u64_to_string;
use mechrogue::systems::Exit;
use mechrogue::systems::Movement;

fn floor_grid(width: usize, height: usize) -> TileGrid {
    vec![vec![Tile::empty(); height]; width]
}

fn orc_at(x: i32, y: i32) -> Object {
    let mut orc = Object::new(x, y, 'o', Color::desaturated_green(), "orc", true);
    orc.hp = Some(HitPoints { max: 10, current: 10, on_death: DeathCallback::Monster });
    orc.melee = Some(Melee { attack: 3, defense: 0 });
    orc.ai = Some(Ai);
    orc.alive = true;
    orc
}

#[test]
fn bumping_a_wall_consumes_the_turn_silently() {
    let mut map = floor_grid(6, 6);
    map[2][1] = Tile::wall();
    let mut objects = vec![create_player((2, 2))];
    let mut log = MesLogs::new();

    let action = handle_keys(VirtualKey::MoveUp, &map, &mut objects, &mut log);

    assert_eq!(action, PlayerAction::TookTurn);
    assert_eq!(objects[0].pos(), (2, 2));
    assert!(log.messages.is_empty());
}

#[test]
fn movement_into_open_floor_moves_the_player() {
    let map = floor_grid(6, 6);
    let mut objects = vec![create_player((2, 2))];
    let mut log = MesLogs::new();

    assert_eq!(handle_keys(VirtualKey::MoveRight, &map, &mut objects, &mut log), PlayerAction::TookTurn);
    assert_eq!(objects[0].pos(), (3, 2));
    assert_eq!(handle_keys(VirtualKey::MoveDown, &map, &mut objects, &mut log), PlayerAction::TookTurn);
    assert_eq!(objects[0].pos(), (3, 3));
    assert_eq!(handle_keys(VirtualKey::MoveLeft, &map, &mut objects, &mut log), PlayerAction::TookTurn);
    assert_eq!(objects[0].pos(), (2, 3));
    assert_eq!(handle_keys(VirtualKey::MoveUp, &map, &mut objects, &mut log), PlayerAction::TookTurn);
    assert_eq!(objects[0].pos(), (2, 2));
}

#[test]
fn exit_command_ends_without_acting() {
    let map = floor_grid(6, 6);
    let mut objects = vec![create_player((2, 2))];
    let mut log = MesLogs::new();

    assert_eq!(handle_keys(VirtualKey::Exit, &map, &mut objects, &mut log), PlayerAction::Exit);
    assert_eq!(objects[0].pos(), (2, 2));
    assert!(log.messages.is_empty());
}

#[test]
fn dead_player_takes_no_turn() {
    let map = floor_grid(6, 6);
    let mut player = create_player((2, 2));
    player.alive = false;
    player.hp = Some(HitPoints { max: 30, current: 0, on_death: DeathCallback::Player });
    let mut objects = vec![player];
    let mut log = MesLogs::new();

    assert_eq!(handle_keys(VirtualKey::MoveUp, &map, &mut objects, &mut log), PlayerAction::NoTurn);
    assert_eq!(objects[0].pos(), (2, 2));
}

#[test]
fn unrecognized_commands_take_no_turn() {
    let map = floor_grid(6, 6);
    let mut objects = vec![create_player((2, 2))];
    let mut log = MesLogs::new();

    assert_eq!(handle_keys(VirtualKey::NoAction, &map, &mut objects, &mut log), PlayerAction::NoTurn);
    assert_eq!(handle_keys(VirtualKey::PickItem, &map, &mut objects, &mut log), PlayerAction::NoTurn);
    assert_eq!(objects[0].pos(), (2, 2));
    assert!(log.messages.is_empty());
}

#[test]
fn ai_outside_visible_set_never_moves_or_attacks() {
    let mut map = floor_grid(12, 12);
    // The monster stands adjacent to the player, but the visible set is
    // computed far away, so the monster is not in it.
    let fov = compute_fov(&mut map, 10, 10, 1, true);
    let mut objects = vec![create_player((2, 2)), orc_at(2, 3)];
    let mut log = MesLogs::new();

    ai_take_turn(1, &map, &mut objects, &fov, &mut log);

    assert_eq!(objects[1].pos(), (2, 3));
    assert_eq!(objects[0].hp.unwrap().current, 30);
    assert!(log.messages.is_empty());
}

#[test]
fn visible_far_ai_steps_toward_the_player() {
    let mut map = floor_grid(12, 12);
    let fov = compute_fov(&mut map, 2, 2, 6, true);
    let mut objects = vec![create_player((2, 2)), orc_at(6, 2)];
    let mut log = MesLogs::new();

    ai_take_turn(1, &map, &mut objects, &fov, &mut log);

    assert_eq!(objects[1].pos(), (5, 2));
    assert!(log.messages.is_empty());
}

#[test]
fn visible_adjacent_ai_attacks_the_player() {
    let mut map = floor_grid(12, 12);
    let fov = compute_fov(&mut map, 2, 2, 6, true);
    let mut objects = vec![create_player((2, 2)), orc_at(2, 3)];
    let mut log = MesLogs::new();

    ai_take_turn(1, &map, &mut objects, &fov, &mut log);

    // Damage 3 against defense 2 leaves exactly one hit point of damage.
    assert_eq!(objects[0].hp.unwrap().current, 29);
    assert_eq!(objects[1].pos(), (2, 3));
    assert_eq!(log.messages, vec!["orc attacks aquarhead for 1 hit points.".to_string()]);
}

#[test]
fn full_cycle_resolves_player_then_ai() {
    let mut map = floor_grid(12, 12);
    let fov = compute_fov(&mut map, 2, 2, 6, true);
    let mut objects = vec![create_player((2, 2)), orc_at(2, 4)];
    let mut log = MesLogs::new();

    // The player steps down; the orc, now adjacent, strikes back in the
    // same cycle.
    let action = run_cycle(VirtualKey::MoveDown, &map, &mut objects, &fov, &mut log);

    assert_eq!(action, PlayerAction::TookTurn);
    assert_eq!(objects[0].pos(), (2, 3));
    assert_eq!(objects[0].hp.unwrap().current, 29);
}

#[test]
fn cycle_without_turn_runs_no_ai() {
    let mut map = floor_grid(12, 12);
    let fov = compute_fov(&mut map, 2, 2, 6, true);
    let mut objects = vec![create_player((2, 2)), orc_at(2, 3)];
    let mut log = MesLogs::new();

    let action = run_cycle(VirtualKey::NoAction, &map, &mut objects, &fov, &mut log);

    assert_eq!(action, PlayerAction::NoTurn);
    assert_eq!(objects[0].hp.unwrap().current, 30);
    assert_eq!(objects[1].pos(), (2, 3));
    assert!(log.messages.is_empty());
}

#[test]
fn is_blocked_sees_walls_and_blocking_entities() {
    let mut map = floor_grid(6, 6);
    map[4][4] = Tile::wall();
    let objects = vec![create_player((2, 2))];

    assert!(is_blocked(4, 4, &map, &objects));
    assert!(is_blocked(2, 2, &map, &objects));
    assert!(!is_blocked(3, 3, &map, &objects));

    let mut potion = Object::new(3, 3, '!', Color::violet(), "healing potion", false);
    potion.item = Some(mechrogue::Item::Heal);
    let with_potion = vec![create_player((2, 2)), potion];
    assert!(!is_blocked(3, 3, &map, &with_potion));
}

#[test]
fn move_towards_tolerates_target_on_self() {
    let map = floor_grid(6, 6);
    let mut objects = vec![create_player((2, 2))];
    Object::move_towards(0, 2, 2, &map, &mut objects);
    assert_eq!(objects[0].pos(), (2, 2));
}

#[test]
fn move_towards_rounds_the_direction() {
    let map = floor_grid(12, 12);
    let mut objects = vec![create_player((2, 2))];
    // Mostly horizontal: the vertical component rounds away.
    Object::move_towards(0, 7, 3, &map, &mut objects);
    assert_eq!(objects[0].pos(), (3, 2));

    let mut diag = vec![create_player((2, 2))];
    Object::move_towards(0, 6, 6, &map, &mut diag);
    assert_eq!(diag[0].pos(), (3, 3));
}

#[test]
fn movement_system_applies_the_command() {
    let m = Movement;
    let mut pos = Position { x: 5, y: 5 };
    m.run(&InputMapping { key: Some(VirtualKey::MoveUp), mouse: None }, &mut pos);
    assert_eq!((pos.x, pos.y), (5, 4));
    m.run(&InputMapping { key: Some(VirtualKey::MoveRight), mouse: None }, &mut pos);
    assert_eq!((pos.x, pos.y), (6, 4));
    m.run(&InputMapping { key: None, mouse: None }, &mut pos);
    assert_eq!((pos.x, pos.y), (6, 4));
}

#[test]
fn exit_system_raises_and_keeps_the_flag() {
    let e = Exit;
    let mut pe = PlayerExit::default();
    e.run(&InputMapping { key: Some(VirtualKey::MoveUp), mouse: None }, &mut pe);
    assert!(!pe.0);
    e.run(&InputMapping { key: Some(VirtualKey::Exit), mouse: None }, &mut pe);
    assert!(pe.0);
    e.run(&InputMapping { key: None, mouse: None }, &mut pe);
    assert!(pe.0);
}

#[test]
fn decimal_rendering_is_exact() {
    assert_eq!(u64_to_string(0), "0");
    assert_eq!(u64_to_string(7), "7");
    assert_eq!(u64_to_string(10), "10");
    assert_eq!(u64_to_string(305), "305");
    assert_eq!(u64_to_string(1234567890), "1234567890");
}

#[test]
fn hud_buffer_drops_the_oldest_line_when_full() {
    let mut messages: Vec<(String, Color)> = Vec::new();
    for i in 0..7u64 {
        add_message(&mut messages, u64_to_string(i), Color::cyan());
    }
    assert_eq!(messages.len(), 6);
    assert_eq!(messages[0].0, "1");
    assert_eq!(messages[5].0, "6");
}

#[test]
fn created_player_has_the_expected_stats() {
    let p = create_player((7, 9));
    assert_eq!(p.pos(), (7, 9));
    assert_eq!(p.rep, '@');
    assert_eq!(p.name, "aquarhead");
    assert!(p.alive && p.blocks);
    let hp = p.hp.unwrap();
    assert_eq!((hp.max, hp.current), (30, 30));
    assert_eq!(hp.on_death, DeathCallback::Player);
    let m = p.melee.unwrap();
    assert_eq!((m.attack, m.defense), (5, 2));
    assert!(p.ai.is_none() && p.item.is_none());
}

#[test]
fn run_cycle_exit_changes_nothing() {
    let mut map = floor_grid(8, 8);
    let fov = compute_fov(&mut map, 2, 2, 4, true);
    let mut objects = vec![create_player((2, 2)), orc_at(2, 3)];
    let mut log = MesLogs::new();

    let action = run_cycle(VirtualKey::Exit, &map, &mut objects, &fov, &mut log);

    assert_eq!(action, PlayerAction::Exit);
    assert_eq!(objects[0].pos(), (2, 2));
    assert_eq!(objects[0].hp.unwrap().current, 30);
    assert!(log.messages.is_empty());
}

#[test]
fn names_at_lists_visible_entities_in_order() {
    let mut map = floor_grid(8, 8);
    let fov = compute_fov(&mut map, 2, 2, 4, true);
    let mut potion = Object::new(2, 3, '!', Color::violet(), "healing potion", false);
    potion.item = Some(mechrogue::Item::Heal);
    let objects = vec![create_player((2, 2)), orc_at(2, 3), potion];

    let names = mechrogue::names_at(2, 3, &objects, &fov);
    assert_eq!(names, vec!["orc".to_string(), "healing potion".to_string()]);

    // A cell outside the visible set reports nothing even when occupied.
    let dark_fov = compute_fov(&mut map, 7, 7, 0, true);
    let dark = mechrogue::names_at(2, 3, &objects, &dark_fov);
    assert!(dark.is_empty());
}
