use mechrogue::DeathCallback;
use mechrogue::HitPoints;
use mechrogue::Melee;
use mechrogue::MesLogs;
use mechrogue::Object;
use mechrogue::Color;
use mechrogue::Tile;
use mechrogue::TileGrid;
use mechrogue::create_player;

fn floor_grid(width: usize, height: usize) -> TileGrid {
    vec![vec![Tile::empty(); height]; width]
}

fn orc_at(x: i32, y: i32) -> Object {
    let mut orc = Object::new(x, y, 'o', Color::desaturated_green(), "orc", true);
    orc.hp = Some(HitPoints { max: 10, current: 10, on_death: DeathCallback::Monster });
    orc.melee = Some(Melee { attack: 3, defense: 0 });
    orc.ai = Some(mechrogue::Ai);
    orc.alive = true;
    orc
}

#[test]
fn attack_five_vs_two_always_three_damage() {
    for _ in 0..10 {
        let attacker = create_player((0, 0));
        let mut defender = Object::new(1, 0, 'o', Color::desaturated_green(), "orc", true);
        defender.hp = Some(HitPoints { max: 10, current: 10, on_death: DeathCallback::Monster });
        defender.melee = Some(Melee { attack: 1, defense: 2 });
        defender.alive = true;

        let mut log = MesLogs::new();
        attacker.melee_attack(&mut defender, &mut log);

        assert_eq!(defender.hp.unwrap().current, 7);
        assert_eq!(log.messages.len(), 1);
        assert_eq!(log.messages[0], "aquarhead attacks orc for 3 hit points.");
    }
}

#[test]
fn attack_three_vs_four_always_no_effect() {
    for _ in 0..10 {
        let mut attacker = Object::new(0, 0, 'o', Color::desaturated_green(), "orc", true);
        attacker.melee = Some(Melee { attack: 3, defense: 0 });
        attacker.alive = true;
        let mut defender = Object::new(1, 0, 'T', Color::darker_green(), "troll", true);
        defender.hp = Some(HitPoints { max: 16, current: 16, on_death: DeathCallback::Monster });
        defender.melee = Some(Melee { attack: 4, defense: 4 });
        defender.alive = true;

        let mut log = MesLogs::new();
        attacker.melee_attack(&mut defender, &mut log);

        assert_eq!(defender.hp.unwrap().current, 16);
        assert_eq!(log.messages.len(), 1);
        assert_eq!(log.messages[0], "orc attacks troll but it has no effect!");
    }
}

#[test]
fn death_transition_fires_exactly_once() {
    let mut monster = orc_at(1, 1);
    let mut log = MesLogs::new();

    monster.take_damage(12, &mut log);
    assert!(!monster.alive);
    assert_eq!(monster.name, "remains of orc");
    assert!(!monster.blocks);
    assert!(monster.hp.is_none());
    assert!(monster.melee.is_none());
    assert!(monster.ai.is_none());
    assert_eq!(monster.rep, '%');
    assert_eq!(log.messages.len(), 1);
    assert_eq!(log.messages[0], "orc is dead!");

    // Driving the hp below zero again must not re-trigger the behavior or
    // double-rename the corpse.
    monster.take_damage(12, &mut log);
    assert_eq!(monster.name, "remains of orc");
    assert_eq!(log.messages.len(), 1);
}

#[test]
fn dead_player_death_does_not_refire() {
    let mut player = create_player((0, 0));
    let mut log = MesLogs::new();

    player.take_damage(30, &mut log);
    assert!(!player.alive);
    assert_eq!(player.rep, '%');
    assert_eq!(player.name, "aquarhead");
    assert_eq!(log.messages.len(), 1);
    assert_eq!(log.messages[0], "You died!");

    player.take_damage(5, &mut log);
    assert_eq!(log.messages.len(), 1);
}

#[test]
fn nonpositive_damage_changes_nothing() {
    let mut monster = orc_at(1, 1);
    let mut log = MesLogs::new();
    monster.take_damage(0, &mut log);
    monster.take_damage(-5, &mut log);
    assert_eq!(monster.hp.unwrap().current, 10);
    assert!(monster.alive);
    assert!(log.messages.is_empty());
}

#[test]
fn player_kills_adjacent_monster_in_four_bumps() {
    let map = floor_grid(5, 5);
    let mut objects = vec![create_player((1, 1)), orc_at(1, 2)];
    let mut log = MesLogs::new();

    // Two strikes at 5 damage each drain the 10 hp; the next two bumps walk
    // over the corpse, which no longer blocks.
    for _ in 0..4 {
        Object::attack_move(0, 0, 1, &map, &mut objects, &mut log);
    }

    assert!(!objects[1].alive);
    assert_eq!(objects[1].name, "remains of orc");
    assert!(!objects[1].blocks);
    assert!(objects[1].hp.is_none());
    assert!(objects[1].melee.is_none());
    assert!(objects[1].ai.is_none());
    assert_eq!(objects[1].rep, '%');

    assert_eq!(
        log.messages,
        vec![
            "aquarhead attacks orc for 5 hit points.".to_string(),
            "aquarhead attacks orc for 5 hit points.".to_string(),
            "orc is dead!".to_string(),
        ]
    );

    // The two bumps after the kill moved the player across the corpse cell.
    assert_eq!(objects[0].pos(), (1, 3));
}

#[test]
fn hitpoints_alive_tracks_current() {
    let hp = HitPoints { max: 10, current: 1, on_death: DeathCallback::Monster };
    assert!(hp.alive());
    let hp = HitPoints { max: 10, current: 0, on_death: DeathCallback::Monster };
    assert!(!hp.alive());
}

#[test]
fn distance_sq_is_exact() {
    let a = Object::new(0, 0, '@', Color::cyan(), "a", true);
    let b = Object::new(3, 4, 'b', Color::cyan(), "b", true);
    assert_eq!(a.distance_sq(&b), 25);
    assert_eq!(b.distance_sq(&a), 25);
    assert_eq!(a.distance_sq(&a), 0);
}

#[test]
fn callback_player_keeps_name_monster_renames() {
    let mut p = create_player((0, 0));
    let mut log = MesLogs::new();
    DeathCallback::Player.callback(&mut p, &mut log);
    assert_eq!(p.name, "aquarhead");
    assert_eq!(p.rep, '%');
    assert_eq!(p.color, Color::dark_red());

    let mut m = orc_at(0, 0);
    DeathCallback::Monster.callback(&mut m, &mut log);
    assert_eq!(m.name, "remains of orc");
    assert!(m.hp.is_none());
}
