use engine::entity::{Entity, EntityType, BOX_INSET, TILE_SZ};
use engine::geom::{Circle, Rect, Shape, Vec2};

fn entity(x: i32, y: i32) -> Entity {
    Entity {
        alive: true,
        pos: Vec2 { x, y },
        dir: Vec2 { x: 0, y: -1 },
        etype: EntityType::Player1,
    }
}

#[test]
fn sizes() {
    assert_eq!(TILE_SZ, 16);
    assert_eq!(BOX_INSET, 2);
}

#[test]
fn entity_box_is_the_sprite_less_the_inset() {
    assert_eq!(entity(12, 12).rect(), Rect { x: 6, y: 6, w: 12, h: 12 });
    assert_eq!(entity(0, -100).rect(), Rect { x: -6, y: -106, w: 12, h: 12 });
    assert_eq!(entity(12, 12).shape_rect(), Shape::Rect(Rect { x: 6, y: 6, w: 12, h: 12 }));
}

#[test]
fn entity_box_saturates() {
    assert_eq!(
        entity(i32::MIN, i32::MIN + 6).rect(),
        Rect { x: i32::MIN, y: i32::MIN, w: 12, h: 12 }
    );
    assert_eq!(
        entity(i32::MAX, i32::MIN + 7).rect(),
        Rect { x: i32::MAX - 6, y: i32::MIN + 1, w: 12, h: 12 }
    );
}

#[test]
fn entity_circle_is_as_wide_as_the_sprite() {
    assert_eq!(entity(12, -7).circle(), Circle { x: 12, y: -7, r: 8 });
    assert_eq!(entity(12, -7).shape_circle(), Shape::Circle(Circle { x: 12, y: -7, r: 8 }));
}
