//! The things that move: players, enemies and projectiles.

use vstd::prelude::*;
use crate::contact::shapes_view;
use crate::geom::{
    clamp_coord, saturate, Circle, Rect, Shape, SpecCircle, SpecRect, SpecShape, SpecVec2, Vec2,
};

verus! {

/// The side of a tile, and of the sprite of an entity, in world units.
pub const TILE_SZ: u16 = 16;

/// By how much the collision box of an entity is smaller than its sprite on
/// each side.
pub const BOX_INSET: u16 = 2;

/// What an entity is.
#[derive(Clone, Copy, PartialEq, Eq, Structural, Debug)]
pub enum EntityType {
    Player1,
    Player2,
    Enemy,
    PProjectile,
    EProjectile,
    Door,
}

/// Model of an [`Entity`].
pub struct SpecEntity {
    pub alive: bool,
    pub pos: SpecVec2,
    pub dir: SpecVec2,
    pub etype: EntityType,
}

/// A player, an enemy or a projectile: where its centre is, the direction in
/// which it travels as a vector, and whether it is still in play.
#[derive(Clone, Copy, PartialEq, Eq, Structural, Debug)]
pub struct Entity {
    pub alive: bool,
    pub pos: Vec2,
    pub dir: Vec2,
    pub etype: EntityType,
}

impl View for Entity {
    type V = SpecEntity;

    open spec fn view(&self) -> SpecEntity {
        SpecEntity { alive: self.alive, pos: self.pos@, dir: self.dir@, etype: self.etype }
    }
}

/// Models of the entities of a sequence, in order.
pub open spec fn entities_view(s: Seq<Entity>) -> Seq<SpecEntity> {
    s.map_values(|e: Entity| e@)
}

impl SpecEntity {
    /// The collision box: the sprite's square around the position, smaller by
    /// the inset on each side. Its corner saturates at the end of the
    /// coordinate range.
    pub open spec fn rect(self) -> SpecRect {
        SpecRect {
            x: clamp_coord(self.pos.x - TILE_SZ / 2 + BOX_INSET),
            y: clamp_coord(self.pos.y - TILE_SZ / 2 + BOX_INSET),
            w: TILE_SZ - 2 * BOX_INSET,
            h: TILE_SZ - 2 * BOX_INSET,
        }
    }

    /// The collision circle: around the position, as wide as the sprite.
    pub open spec fn circle(self) -> SpecCircle {
        SpecCircle { x: self.pos.x, y: self.pos.y, r: TILE_SZ as int / 2 }
    }

    /// The shape with which the entity takes part in a step: its collision
    /// box while it is in play, and an empty shape once it is out, which
    /// overlaps nothing.
    pub open spec fn live_shape(self) -> SpecShape {
        if self.alive {
            SpecShape::Rect(self.rect())
        } else {
            SpecShape::Circle(SpecCircle { x: 0, y: 0, r: 0 })
        }
    }
}

/// The shapes with which entities take part in a step, in the order of the
/// entities, so that a contact names an entity by the index of its shape.
pub open spec fn live_shapes(entities: Seq<SpecEntity>) -> Seq<SpecShape> {
    entities.map_values(|e: SpecEntity| e.live_shape())
}

impl Entity {
    /// The collision box of the entity.
    pub fn rect(&self) -> (r: Rect)
        ensures
            r@ == self@.rect(),
    {
        let half: i64 = (TILE_SZ / 2) as i64;
        Rect {
            x: saturate(self.pos.x as i64 - half + BOX_INSET as i64),
            y: saturate(self.pos.y as i64 - half + BOX_INSET as i64),
            w: TILE_SZ - 2 * BOX_INSET,
            h: TILE_SZ - 2 * BOX_INSET,
        }
    }

    /// The collision circle of the entity.
    pub fn circle(&self) -> (r: Circle)
        ensures
            r@ == self@.circle(),
    {
        Circle { x: self.pos.x, y: self.pos.y, r: TILE_SZ / 2 }
    }

    /// The collision box as a shape.
    pub fn shape_rect(&self) -> (r: Shape)
        ensures
            r@ == SpecShape::Rect(self@.rect()),
    {
        Shape::Rect(self.rect())
    }

    /// The collision circle as a shape.
    pub fn shape_circle(&self) -> (r: Shape)
        ensures
            r@ == SpecShape::Circle(self@.circle()),
    {
        Shape::Circle(self.circle())
    }

    /// The shape with which the entity takes part in a step: its collision
    /// box while it is in play, an empty shape once it is out.
    pub fn live_shape(&self) -> (r: Shape)
        ensures
            r@ == self@.live_shape(),
    {
        if self.alive {
            self.shape_rect()
        } else {
            Shape::Circle(Circle::new())
        }
    }
}

/// The shapes with which the entities take part in a step, one for each
/// entity and in their order. An entity that is out of play has an empty
/// shape, so that nothing is gathered for it.
pub fn collision_shapes(entities: &Vec<Entity>) -> (shapes: Vec<Shape>)
    ensures
        shapes_view(shapes@) == live_shapes(entities_view(entities@)),
        shapes.len() == entities.len(),
{
    let mut shapes: Vec<Shape> = Vec::new();
    let mut i: usize = 0;
    while i < entities.len()
        invariant
            i <= entities.len(),
            shapes.len() == i,
            forall|k: int| 0 <= k < i ==> (#[trigger] shapes@[k])@ == entities@[k]@.live_shape(),
        decreases entities.len() - i,
    {
        shapes.push(entities[i].live_shape());
        i += 1;
    }
    proof {
        assert(shapes_view(shapes@) =~= live_shapes(entities_view(entities@)));
    }
    shapes
}

} // verus!
