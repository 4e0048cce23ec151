use engine::contact::Contact;
use engine::entity::{Entity, EntityType};
use engine::game::{Game, ENEMY_HEALTH, PLAYER_HEALTH};
use engine::geom::{Rect, Shape, Vec2};
use engine::level::{Level, Start, TileData};
use engine::sprite::SheetRegion;

const OPEN: TileData = TileData {
    solid: false,
    sheet_region: SheetRegion { sheet: 0, depth: 0, x: 0, y: 0, w: 16, h: 16 },
};
const WALL: TileData = TileData {
    solid: true,
    sheet_region: SheetRegion { sheet: 0, depth: 0, x: 16, y: 0, w: 16, h: 16 },
};

fn level_with(starts: Vec<Start>) -> Level {
    let mut tiles = vec![OPEN; 16];
    tiles[2] = WALL;
    match Level::new(4, 4, tiles, starts) {
        Some(level) => level,
        None => panic!("one tile for each cell"),
    }
}

fn two_players() -> Vec<Start> {
    vec![
        Start { etype: EntityType::Player2, pos: Vec2 { x: 8, y: 40 } },
        Start { etype: EntityType::Player1, pos: Vec2 { x: 28, y: 8 } },
        Start { etype: EntityType::Player1, pos: Vec2 { x: 99, y: 99 } },
    ]
}

fn game() -> Game {
    match Game::new(vec![level_with(two_players())]) {
        Some(game) => game,
        None => panic!("a level with both players"),
    }
}

fn entity(x: i32, y: i32, dx: i32, dy: i32, etype: EntityType) -> Entity {
    Entity { alive: true, pos: Vec2 { x, y }, dir: Vec2 { x: dx, y: dy }, etype }
}

#[test]
fn new_game_puts_the_players_on_their_starts() {
    let game = game();
    assert_eq!(PLAYER_HEALTH, 1);
    assert_eq!(game.current_level, 0);
    assert_eq!(game.levels.len(), 1);
    assert_eq!(
        game.players,
        vec![entity(28, 8, 1, 0, EntityType::Player1), entity(8, 40, 1, 0, EntityType::Player2)]
    );
    assert_eq!(game.p_health, vec![1, 1]);
    assert_eq!(game.enemies, Vec::new());
    assert_eq!(game.e_health, Vec::<u8>::new());
    assert_eq!(game.p_projectiles, Vec::new());
    assert_eq!(game.e_projectiles, Vec::new());
    assert_eq!(game.level().width(), 4);
}

#[test]
fn no_game_without_level_or_players() {
    assert!(Game::new(Vec::new()).is_none());
    assert!(Game::new(vec![level_with(Vec::new())]).is_none());
    let only_first = vec![Start { etype: EntityType::Player1, pos: Vec2 { x: 1, y: 1 } }];
    assert!(Game::new(vec![level_with(only_first)]).is_none());
    let only_second = vec![Start { etype: EntityType::Player2, pos: Vec2 { x: 1, y: 1 } }];
    assert!(Game::new(vec![level_with(only_second)]).is_none());
    let mut with_door = two_players();
    with_door.push(Start { etype: EntityType::Door, pos: Vec2 { x: 1, y: 1 } });
    assert!(Game::new(vec![level_with(with_door)]).is_none());
    assert!(Game::new(vec![level_with(two_players()), level_with(Vec::new())]).is_some());
}

#[test]
fn enter_level_keeps_the_two_players_and_places_them() {
    let mut game = game();
    game.players.push(entity(5, 5, 0, 1, EntityType::Enemy));
    game.players[1].alive = false;
    game.enemies.push(entity(5, 5, 0, 1, EntityType::Enemy));
    game.e_health.push(9);
    game.p_projectiles.push(entity(7, 7, 0, 1, EntityType::PProjectile));
    game.enter_level(Vec2 { x: 10, y: 20 }, Vec2 { x: 30, y: 40 });
    assert_eq!(
        game.players,
        vec![
            entity(10, 20, 1, 0, EntityType::Player1),
            Entity { alive: false, ..entity(30, 40, 1, 0, EntityType::Player2) },
        ]
    );
    assert_eq!(game.p_health, vec![1, 1]);
    assert_eq!(game.enemies, Vec::new());
    assert_eq!(game.e_health, Vec::<u8>::new());
    assert_eq!(game.p_projectiles, vec![entity(7, 7, 0, 1, EntityType::PProjectile)]);
}

#[test]
fn the_enemies_of_a_level_come_into_play() {
    let mut starts = two_players();
    starts.insert(0, Start { etype: EntityType::Enemy, pos: Vec2 { x: 50, y: 50 } });
    starts.push(Start { etype: EntityType::EProjectile, pos: Vec2 { x: 1, y: 1 } });
    starts.push(Start { etype: EntityType::Enemy, pos: Vec2 { x: 20, y: 30 } });
    let mut game = match Game::new(vec![level_with(starts)]) {
        Some(game) => game,
        None => panic!("a level with both players"),
    };
    assert_eq!(ENEMY_HEALTH, 1);
    let enemies =
        vec![entity(50, 50, 0, -1, EntityType::Enemy), entity(20, 30, 0, -1, EntityType::Enemy)];
    assert_eq!(game.enemies, enemies);
    assert_eq!(game.e_health, vec![1, 1]);
    assert_eq!(
        game.players,
        vec![entity(28, 8, 1, 0, EntityType::Player1), entity(8, 40, 1, 0, EntityType::Player2)]
    );
    game.enemies[0].alive = false;
    game.e_health[0] = 0;
    game.enemies.pop();
    game.enter_level(Vec2 { x: 1, y: 2 }, Vec2 { x: 3, y: 4 });
    assert_eq!(game.enemies, enemies);
    assert_eq!(game.e_health, vec![1, 1]);
}

#[test]
fn a_step_of_collisions() {
    let mut game = game();
    game.enemies.push(entity(40, 40, 0, 1, EntityType::Enemy));
    game.e_health.push(2);
    game.p_projectiles.push(entity(50, 8, -1000, 0, EntityType::PProjectile));
    game.p_projectiles.push(entity(44, 44, 600, 800, EntityType::PProjectile));
    game.e_projectiles.push(entity(10, 42, -3, 4, EntityType::EProjectile));

    game.collide();

    assert_eq!(
        game.players,
        vec![entity(26, 8, 1, 0, EntityType::Player1), entity(8, 40, 1, 0, EntityType::Player2)]
    );
    assert_eq!(game.p_health, vec![1, 0]);
    assert_eq!(game.enemies, vec![entity(40, 40, 0, 1, EntityType::Enemy)]);
    assert_eq!(game.e_health, vec![1]);
    assert_eq!(
        game.p_projectiles,
        vec![
            entity(54, 8, 1000, 0, EntityType::PProjectile),
            Entity { alive: false, ..entity(44, 44, 600, 800, EntityType::PProjectile) },
        ]
    );
    assert_eq!(
        game.e_projectiles,
        vec![Entity { alive: false, ..entity(10, 42, -3, 4, EntityType::EProjectile) }]
    );

    game.collide();

    assert_eq!(
        game.players,
        vec![entity(26, 8, 1, 0, EntityType::Player1), entity(8, 40, 1, 0, EntityType::Player2)]
    );
    assert_eq!(game.p_health, vec![1, 0]);
    assert_eq!(game.e_health, vec![1]);
    assert_eq!(game.p_projectiles[0], entity(54, 8, 1000, 0, EntityType::PProjectile));
    assert!(!game.p_projectiles[1].alive);
    assert!(!game.e_projectiles[0].alive);
}

#[test]
fn dead_players_are_not_pushed() {
    let mut game = game();
    game.players[0].alive = false;
    game.collide();
    assert_eq!(
        game.players[0],
        Entity { alive: false, ..entity(28, 8, 1, 0, EntityType::Player1) }
    );
}

#[test]
fn responses_and_damage_touch_their_own_collection() {
    let mut game = game();
    game.enemies.push(entity(28, 8, 0, 1, EntityType::Enemy));
    game.e_health.push(3);
    game.p_projectiles.push(entity(28, 8, -5, 7, EntityType::PProjectile));
    game.e_projectiles.push(entity(28, 8, -5, 7, EntityType::EProjectile));
    let given = vec![Contact {
        a_i: 0,
        a_r: Shape::Rect(Rect { x: 22, y: 2, w: 12, h: 12 }),
        b_i: 1,
        b_r: Shape::Rect(Rect { x: 32, y: 0, w: 16, h: 16 }),
        displacement: Vec2 { x: 2, y: 12 },
    }];

    let settled = vec![Contact { displacement: Vec2 { x: -2, y: 0 }, ..given[0] }];

    let mut push = given.clone();
    game.player_level_collision_response(&mut push);
    assert_eq!(push, settled);
    assert_eq!(game.players[0].pos, Vec2 { x: 26, y: 8 });
    assert_eq!(game.enemies[0].pos, Vec2 { x: 28, y: 8 });

    let mut push = given.clone();
    game.enemy_level_collision_response(&mut push);
    assert_eq!(push, settled);
    assert_eq!(game.enemies[0], entity(26, 8, 0, 1, EntityType::Enemy));

    let mut push = given.clone();
    game.p_projectile_level_response(&mut push);
    assert_eq!(push, settled);
    assert_eq!(game.p_projectiles[0], entity(26, 8, 5, 7, EntityType::PProjectile));
    assert_eq!(game.e_projectiles[0], entity(28, 8, -5, 7, EntityType::EProjectile));

    let mut push = given.clone();
    game.e_projectile_level_response(&mut push);
    assert_eq!(push, settled);
    assert_eq!(game.e_projectiles[0], entity(26, 8, 5, 7, EntityType::EProjectile));

    let strike = vec![Contact { b_i: 0, ..given[0] }];
    game.damage_player(&strike);
    assert_eq!(game.p_health, vec![0, 1]);
    assert!(!game.e_projectiles[0].alive);
    assert!(game.p_projectiles[0].alive);
    assert_eq!(game.e_health, vec![3]);

    game.damage_enemy(&strike);
    assert_eq!(game.e_health, vec![2]);
    assert!(!game.p_projectiles[0].alive);
    assert_eq!(game.p_health, vec![0, 1]);
    game.damage_player(&strike);
    assert_eq!(game.p_health, vec![0, 1]);
}

#[test]
fn steering_touches_the_enemies_only() {
    let mut game = game();
    game.enemies.push(entity(40, 40, 3, 4, EntityType::Enemy));
    game.e_health.push(2);
    game.p_projectiles.push(entity(50, 8, 3, 4, EntityType::PProjectile));
    let points =
        [Vec2 { x: -1, y: 0 }, Vec2 { x: 1, y: 0 }, Vec2 { x: 0, y: -1 }, Vec2 { x: 0, y: 1 }];
    for _ in 0..500 {
        game.steer_enemies();
        assert_eq!(game.enemies.len(), 1);
        let dir = game.enemies[0].dir;
        assert!(dir == Vec2 { x: 3, y: 4 } || points.contains(&dir));
        assert_eq!(
            Entity { dir: Vec2 { x: 3, y: 4 }, ..game.enemies[0] },
            entity(40, 40, 3, 4, EntityType::Enemy)
        );
    }
    assert_eq!(game.p_projectiles, vec![entity(50, 8, 3, 4, EntityType::PProjectile)]);
    assert_eq!(
        game.players,
        vec![entity(28, 8, 1, 0, EntityType::Player1), entity(8, 40, 1, 0, EntityType::Player2)]
    );
    assert_eq!(game.e_health, vec![2]);
}
