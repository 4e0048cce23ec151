use engine::contact::{gather_contacts, Contact};
use engine::damage::{damage, kill_player};
use engine::entity::{collision_shapes, Entity, EntityType};
use engine::geom::{Circle, Rect, Shape, Vec2};

fn entity(x: i32, y: i32, etype: EntityType) -> Entity {
    Entity { alive: true, pos: Vec2 { x, y }, dir: Vec2 { x: 1, y: 0 }, etype }
}

fn hit(a_i: usize, b_i: usize) -> Contact {
    Contact {
        a_i,
        a_r: Shape::Rect(Rect { x: 0, y: 0, w: 12, h: 12 }),
        b_i,
        b_r: Shape::Rect(Rect { x: 4, y: 4, w: 12, h: 12 }),
        displacement: Vec2 { x: 8, y: 8 },
    }
}

#[test]
fn one_hit_takes_one_point_and_the_projectile() {
    let mut players =
        vec![entity(20, 20, EntityType::Player1), entity(80, 80, EntityType::Player2)];
    let mut projectiles =
        vec![entity(200, 200, EntityType::EProjectile), entity(84, 78, EntityType::EProjectile)];
    let mut health = vec![3u8, 2u8];
    let contacts =
        gather_contacts(&collision_shapes(&projectiles), &collision_shapes(&players));
    assert_eq!(contacts.len(), 1);
    assert_eq!((contacts[0].a_i, contacts[0].b_i), (1, 1));
    assert_eq!(contacts[0].displacement, Vec2 { x: 8, y: 10 });
    damage(&contacts, &mut health, &mut projectiles);
    assert_eq!(health, vec![3, 1]);
    assert!(projectiles[0].alive);
    assert!(!projectiles[1].alive);
    assert_eq!(projectiles[1], Entity { alive: false, ..entity(84, 78, EntityType::EProjectile) });
    assert_eq!(players[1], entity(80, 80, EntityType::Player2));

    let again = gather_contacts(&collision_shapes(&projectiles), &collision_shapes(&players));
    assert_eq!(again, Vec::new());
    damage(&again, &mut health, &mut projectiles);
    assert_eq!(health, vec![3, 1]);
    players[1].alive = false;
    assert_eq!(collision_shapes(&players)[1], Shape::Circle(Circle::new()));
}

#[test]
fn health_stops_at_zero() {
    let mut projectiles = vec![entity(0, 0, EntityType::PProjectile)];
    let mut health = vec![0u8, 1u8];
    damage(&vec![hit(0, 0)], &mut health, &mut projectiles);
    assert_eq!(health, vec![0, 1]);
    assert!(!projectiles[0].alive);
    damage(&vec![hit(0, 1), hit(0, 1)], &mut health, &mut projectiles);
    assert_eq!(health, vec![0, 0]);
}

#[test]
fn each_contact_is_one_hit() {
    let mut projectiles = vec![
        entity(0, 0, EntityType::PProjectile),
        entity(0, 0, EntityType::PProjectile),
        entity(0, 0, EntityType::PProjectile),
        entity(0, 0, EntityType::PProjectile),
    ];
    let mut health = vec![5u8, 5u8, 255u8];
    damage(&vec![hit(0, 1), hit(2, 1), hit(3, 0), hit(0, 1)], &mut health, &mut projectiles);
    assert_eq!(health, vec![4, 2, 255]);
    let alive: Vec<bool> = projectiles.iter().map(|p| p.alive).collect();
    assert_eq!(alive, vec![false, true, false, false]);
}

#[test]
fn no_contact_no_damage() {
    let mut projectiles = vec![entity(0, 0, EntityType::PProjectile)];
    let mut health = vec![1u8];
    damage(&Vec::new(), &mut health, &mut projectiles);
    assert_eq!(health, vec![1]);
    assert!(projectiles[0].alive);
}

#[test]
fn dead_entities_have_an_empty_shape() {
    let mut entities = vec![entity(12, 12, EntityType::Enemy), entity(40, 12, EntityType::Enemy)];
    entities[0].alive = false;
    let shapes = collision_shapes(&entities);
    assert_eq!(
        shapes,
        vec![Shape::Circle(Circle::new()), Shape::Rect(Rect { x: 34, y: 6, w: 12, h: 12 })]
    );
    assert!(shapes[0].is_empty());
    assert_eq!(entities[0].live_shape(), Shape::Circle(Circle { x: 0, y: 0, r: 0 }));
    assert_eq!(entities[1].live_shape(), entities[1].shape_rect());
}

#[test]
fn kill_player_takes_struck_players_out() {
    let mut entities = vec![
        entity(0, 0, EntityType::Player1),
        entity(0, 0, EntityType::Player2),
        entity(0, 0, EntityType::Enemy),
    ];
    kill_player(&vec![hit(0, 2), hit(1, 1), hit(2, 5)], &mut entities);
    let alive: Vec<bool> = entities.iter().map(|e| e.alive).collect();
    assert_eq!(alive, vec![true, false, true]);
    kill_player(&vec![hit(7, 0)], &mut entities);
    let alive: Vec<bool> = entities.iter().map(|e| e.alive).collect();
    assert_eq!(alive, vec![false, false, true]);
    assert_eq!(entities[0], Entity { alive: false, ..entity(0, 0, EntityType::Player1) });
}
