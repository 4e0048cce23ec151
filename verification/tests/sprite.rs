use engine::entity::{Entity, EntityType};
use engine::geom::Vec2;
use engine::sprite::{SheetRegion, Transform, ENTITY_DEPTH, PROJECTILE_SZ};

fn entity(etype: EntityType) -> Entity {
    Entity { alive: true, pos: Vec2 { x: 30, y: -4 }, dir: Vec2 { x: 3, y: 4 }, etype }
}

#[test]
fn sheet_region_of_a_rect() {
    assert_eq!(
        SheetRegion::rect(525, 19, 7, -7),
        SheetRegion { sheet: 0, depth: 0, x: 525, y: 19, w: 7, h: -7 }
    );
    assert_eq!(
        SheetRegion::rect(525, 19, 7, 7).with_depth(9),
        SheetRegion { sheet: 0, depth: 9, x: 525, y: 19, w: 7, h: 7 }
    );
}

#[test]
fn projectiles_are_drawn_small() {
    assert_eq!(PROJECTILE_SZ, 4);
    for etype in [EntityType::PProjectile, EntityType::EProjectile] {
        assert_eq!(
            entity(etype).transform(),
            Transform { x: 30, y: -4, w: 4, h: 4, rot: Vec2 { x: 3, y: 4 } }
        );
    }
}

#[test]
fn other_entities_fill_a_tile() {
    for etype in [EntityType::Player1, EntityType::Player2, EntityType::Enemy, EntityType::Door] {
        assert_eq!(
            entity(etype).transform(),
            Transform { x: 30, y: -4, w: 16, h: 16, rot: Vec2 { x: 3, y: 4 } }
        );
    }
}

#[test]
fn each_kind_has_its_sprite() {
    assert_eq!(ENTITY_DEPTH, 1);
    let region = |x, y, w, h| SheetRegion { sheet: 0, depth: 1, x, y, w, h };
    assert_eq!(entity(EntityType::Player1).uv(), region(315, 100, 16, 16));
    assert_eq!(entity(EntityType::Player2).uv(), region(315, 100, 16, 16));
    assert_eq!(entity(EntityType::Enemy).uv(), region(549, 39, 16, 16));
    assert_eq!(entity(EntityType::PProjectile).uv(), region(525, 19, 7, 7));
    assert_eq!(entity(EntityType::EProjectile).uv(), region(525, 43, 7, 7));
}
