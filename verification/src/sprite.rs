//! What is shown for an entity: the part of the sprite sheet, and where and
//! how large it is drawn. Nothing here bears on collisions; it is carried for
//! whoever draws.

use vstd::prelude::*;
use crate::entity::{Entity, EntityType, TILE_SZ};
use crate::geom::Vec2;

verus! {

/// The side of the sprite of a projectile.
pub const PROJECTILE_SZ: u16 = 4;

/// The depth at which entities are drawn.
pub const ENTITY_DEPTH: u16 = 1;

/// A part of a sprite sheet: the sheet, the depth at which it is drawn, and
/// the corner and the size of the part.
#[derive(Clone, Copy, PartialEq, Eq, Structural, Debug)]
pub struct SheetRegion {
    pub sheet: u16,
    pub depth: u16,
    pub x: u16,
    pub y: u16,
    pub w: i16,
    pub h: i16,
}

/// Where a sprite is drawn: its centre, its size, and the direction towards
/// which it is turned.
#[derive(Clone, Copy, PartialEq, Eq, Structural, Debug)]
pub struct Transform {
    pub x: i32,
    pub y: i32,
    pub w: u16,
    pub h: u16,
    pub rot: Vec2,
}

impl SheetRegion {
    /// The part with corner (`x`, `y`) and size `w` by `h` of the first
    /// sheet, at depth zero.
    pub fn rect(x: u16, y: u16, w: i16, h: i16) -> (r: SheetRegion)
        ensures
            r == (SheetRegion { sheet: 0, depth: 0, x, y, w, h }),
    {
        SheetRegion { sheet: 0, depth: 0, x, y, w, h }
    }

    /// The same part at another depth.
    pub fn with_depth(self, depth: u16) -> (r: SheetRegion)
        ensures
            r == (SheetRegion { depth, ..self }),
    {
        SheetRegion { depth, ..self }
    }
}

/// The part of the sprite sheet that shows entities of kind `etype`. Doors
/// are not drawn; what stands here for them is of no use.
pub open spec fn sprite_of(etype: EntityType) -> SheetRegion {
    match etype {
        EntityType::Player1 => SheetRegion { sheet: 0, depth: 0, x: 315, y: 100, w: 16, h: 16 },
        EntityType::Player2 => SheetRegion { sheet: 0, depth: 0, x: 315, y: 100, w: 16, h: 16 },
        EntityType::Enemy => SheetRegion { sheet: 0, depth: 0, x: 549, y: 39, w: 16, h: 16 },
        EntityType::PProjectile => SheetRegion { sheet: 0, depth: 0, x: 525, y: 19, w: 7, h: 7 },
        EntityType::EProjectile => SheetRegion { sheet: 0, depth: 0, x: 525, y: 43, w: 7, h: 7 },
        EntityType::Door => SheetRegion { sheet: 0, depth: 0, x: 0, y: 0, w: 0, h: 0 },
    }
}

/// The side of the sprite of an entity of kind `etype`: projectiles are
/// small, everything else fills a tile.
pub open spec fn sprite_side(etype: EntityType) -> u16 {
    match etype {
        EntityType::PProjectile | EntityType::EProjectile => PROJECTILE_SZ,
        _ => TILE_SZ,
    }
}

impl Entity {
    /// Where the entity is drawn: around its position, as large as its
    /// sprite, and turned towards its direction.
    pub fn transform(&self) -> (r: Transform)
        ensures
            r == (Transform {
                x: self.pos.x,
                y: self.pos.y,
                w: sprite_side(self.etype),
                h: sprite_side(self.etype),
                rot: self.dir,
            }),
    {
        if self.etype == EntityType::PProjectile || self.etype == EntityType::EProjectile {
            Transform {
                x: self.pos.x,
                y: self.pos.y,
                w: PROJECTILE_SZ,
                h: PROJECTILE_SZ,
                rot: self.dir,
            }
        } else {
            Transform { x: self.pos.x, y: self.pos.y, w: TILE_SZ, h: TILE_SZ, rot: self.dir }
        }
    }

    /// The part of the sprite sheet that shows the entity, at the depth of
    /// entities. A door has none.
    pub fn uv(&self) -> (r: SheetRegion)
        requires
            self.etype != EntityType::Door,
        ensures
            r == (SheetRegion { depth: ENTITY_DEPTH, ..sprite_of(self.etype) }),
    {
        let region = match self.etype {
            EntityType::Player1 => SheetRegion::rect(315, 100, 16, 16),
            EntityType::Player2 => SheetRegion::rect(315, 100, 16, 16),
            EntityType::Enemy => SheetRegion::rect(533 + 16, 39, 16, 16),
            EntityType::PProjectile => SheetRegion::rect(525, 19, 7, 7),
            _ => SheetRegion::rect(525, 43, 7, 7),
        };
        region.with_depth(ENTITY_DEPTH)
    }
}

} // verus!
