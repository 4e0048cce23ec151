//! The state of play and one step of collisions on it: gather the contacts,
//! order them, push entities out of solid tiles, let projectiles bounce, and
//! apply the hits.

use vstd::prelude::*;
use crate::contact::{
    contacts_view, first_indices_below, gather_contacts, gathered, second_indices_below, Contact,
    SpecContact,
};
use crate::damage::{damage, damaged, spent};
use crate::entity::{
    collision_shapes, entities_view, live_shapes, Entity, EntityType, SpecEntity,
};
use crate::geom::{SpecVec2, Vec2};
use crate::level::{
    first_start, gather_level_contacts, gathered_level, Level, SpecLevel, SpecStart,
};
use crate::response::{
    bounced, do_collision_response, projectile_level_response, responded,
};
use crate::sorting::{deepest_first, sort_contacts, sorted_by_depth};
use crate::steer::{compass, may_follow, steer_enemies};

verus! {

/// The health with which a player starts.
pub const PLAYER_HEALTH: u8 = 1;

/// The health with which an enemy starts.
pub const ENEMY_HEALTH: u8 = 1;

/// Model of a [`Game`].
pub struct SpecGame {
    pub current_level: int,
    pub levels: Seq<SpecLevel>,
    pub players: Seq<SpecEntity>,
    pub enemies: Seq<SpecEntity>,
    pub p_projectiles: Seq<SpecEntity>,
    pub e_projectiles: Seq<SpecEntity>,
    pub p_health: Seq<u8>,
    pub e_health: Seq<u8>,
}

/// The state of play: the levels and the one that is played, the players and
/// the enemies with a health counter for each, and the projectiles of the
/// two sides.
pub struct Game {
    pub current_level: usize,
    pub levels: Vec<Level>,
    pub players: Vec<Entity>,
    pub enemies: Vec<Entity>,
    pub p_projectiles: Vec<Entity>,
    pub e_projectiles: Vec<Entity>,
    pub p_health: Vec<u8>,
    pub e_health: Vec<u8>,
}

/// Models of the levels of a sequence, in order.
pub open spec fn levels_view(s: Seq<Level>) -> Seq<SpecLevel> {
    s.map_values(|l: Level| l@)
}

impl View for Game {
    type V = SpecGame;

    open spec fn view(&self) -> SpecGame {
        SpecGame {
            current_level: self.current_level as int,
            levels: levels_view(self.levels@),
            players: entities_view(self.players@),
            enemies: entities_view(self.enemies@),
            p_projectiles: entities_view(self.p_projectiles@),
            e_projectiles: entities_view(self.e_projectiles@),
            p_health: self.p_health@,
            e_health: self.e_health@,
        }
    }
}

/// A player as the game begins: in play, at `pos`, facing east.
pub open spec fn fresh_player(etype: EntityType, pos: SpecVec2) -> SpecEntity {
    SpecEntity { alive: true, pos, dir: SpecVec2 { x: 1, y: 0 }, etype }
}

/// The enemy that a start brings into play: in play, at the place of the
/// start, facing south. Starts of other kinds bring no enemy.
pub open spec fn spawn(start: SpecStart) -> Option<SpecEntity> {
    if start.etype == EntityType::Enemy {
        Some(
            SpecEntity { alive: true, pos: start.pos, dir: compass(2), etype: EntityType::Enemy },
        )
    } else {
        None
    }
}

/// The enemies that a level brings into play: one for each of its starts of
/// enemies, in their order.
pub open spec fn spawned(starts: Seq<SpecStart>) -> Seq<SpecEntity> {
    starts.filter_map(|start: SpecStart| spawn(start))
}

/// A health counter for each of `count` enemies.
pub open spec fn fresh_health(count: nat) -> Seq<u8> {
    Seq::new(count, |i: int| ENEMY_HEALTH)
}

/// Whether the level has a start for entities of kind `etype`.
pub open spec fn has_start(level: SpecLevel, etype: EntityType) -> bool {
    exists|k: int| 0 <= k < level.starts.len() && (#[trigger] level.starts[k]).etype == etype
}

/// The place of the first start for entities of kind `etype`.
pub open spec fn start_pos(level: SpecLevel, etype: EntityType) -> SpecVec2 {
    level.starts[choose|k: int| first_start(level.starts, etype, k)].pos
}

impl SpecGame {
    /// There is a level to play, and each player and each enemy has its health
    /// counter.
    pub open spec fn wf(self) -> bool {
        &&& 0 <= self.current_level < self.levels.len()
        &&& self.p_health.len() == self.players.len()
        &&& self.e_health.len() == self.enemies.len()
    }

    /// The level that is played.
    pub open spec fn level(self) -> SpecLevel {
        self.levels[self.current_level]
    }

    /// The contacts of the players with the solid tiles, deepest first.
    pub open spec fn player_level_contacts(self) -> Seq<SpecContact> {
        sorted_by_depth(gathered_level(live_shapes(self.players), self.level()))
    }

    /// The contacts of the enemies with the solid tiles, deepest first.
    pub open spec fn enemy_level_contacts(self) -> Seq<SpecContact> {
        sorted_by_depth(gathered_level(live_shapes(self.enemies), self.level()))
    }

    /// The contacts of the players' projectiles with the solid tiles,
    /// deepest first.
    pub open spec fn p_projectile_level_contacts(self) -> Seq<SpecContact> {
        sorted_by_depth(gathered_level(live_shapes(self.p_projectiles), self.level()))
    }

    /// The contacts of the enemies' projectiles with the solid tiles,
    /// deepest first.
    pub open spec fn e_projectile_level_contacts(self) -> Seq<SpecContact> {
        sorted_by_depth(gathered_level(live_shapes(self.e_projectiles), self.level()))
    }

    /// The hits of the enemies' projectiles on the players.
    pub open spec fn player_hits(self) -> Seq<SpecContact> {
        gathered(live_shapes(self.e_projectiles), live_shapes(self.players))
    }

    /// The hits of the players' projectiles on the enemies.
    pub open spec fn enemy_hits(self) -> Seq<SpecContact> {
        gathered(live_shapes(self.p_projectiles), live_shapes(self.enemies))
    }

    /// The state after one step of collisions. All contacts are those of the
    /// state as the step begins. Players and enemies are pushed out of the
    /// solid tiles; projectiles are pushed out and bounce; each hit takes a
    /// point of health from its target and the projectile out of play. What
    /// is out of play as the step begins takes no part.
    pub open spec fn collided(self) -> SpecGame {
        SpecGame {
            players: responded(self.player_level_contacts(), self.players),
            enemies: responded(self.enemy_level_contacts(), self.enemies),
            p_projectiles: spent(
                self.enemy_hits(),
                bounced(self.p_projectile_level_contacts(), self.p_projectiles),
            ),
            e_projectiles: spent(
                self.player_hits(),
                bounced(self.e_projectile_level_contacts(), self.e_projectiles),
            ),
            p_health: damaged(self.player_hits(), self.p_health),
            e_health: damaged(self.enemy_hits(), self.e_health),
            ..self
        }
    }
}

impl Game {
    /// The game as it begins on the first of `levels`: the two players stand
    /// where that level starts them, in play and facing east, each with its
    /// health; the enemies of the level are in play, and there are no
    /// projectiles yet. There is no game without a level, or where the first
    /// level lacks the start of a player or starts a door.
    pub fn new(levels: Vec<Level>) -> (r: Option<Game>)
        ensures
            r is Some <==> levels.len() > 0 && has_start(levels[0]@, EntityType::Player1)
                && has_start(levels[0]@, EntityType::Player2) && !has_start(
                levels[0]@,
                EntityType::Door,
            ),
            r matches Some(game) ==> game@ == (SpecGame {
                current_level: 0,
                levels: levels_view(levels@),
                players: seq![
                    fresh_player(
                        EntityType::Player1,
                        start_pos(levels[0]@, EntityType::Player1),
                    ),
                    fresh_player(
                        EntityType::Player2,
                        start_pos(levels[0]@, EntityType::Player2),
                    ),
                ],
                enemies: spawned(levels[0]@.starts),
                p_projectiles: Seq::empty(),
                e_projectiles: Seq::empty(),
                p_health: seq![PLAYER_HEALTH, PLAYER_HEALTH],
                e_health: fresh_health(spawned(levels[0]@.starts).len()),
            }) && game@.wf(),
    {
        if levels.len() == 0 {
            return None;
        }
        let player_start = match levels[0].start_of(EntityType::Player1) {
            Some(pos) => pos,
            None => {
                return None;
            },
        };
        let player2_start = match levels[0].start_of(EntityType::Player2) {
            Some(pos) => pos,
            None => {
                return None;
            },
        };
        if levels[0].start_of(EntityType::Door).is_some() {
            return None;
        }
        let east = Vec2 { x: 1, y: 0 };
        let mut players: Vec<Entity> = Vec::new();
        players.push(
            Entity { alive: true, pos: player_start, dir: east, etype: EntityType::Player1 },
        );
        players.push(
            Entity { alive: true, pos: player2_start, dir: east, etype: EntityType::Player2 },
        );
        let mut p_health: Vec<u8> = Vec::new();
        p_health.push(PLAYER_HEALTH);
        p_health.push(PLAYER_HEALTH);
        let mut game = Game {
            current_level: 0,
            levels,
            players,
            enemies: Vec::new(),
            p_projectiles: Vec::new(),
            e_projectiles: Vec::new(),
            p_health,
            e_health: Vec::new(),
        };
        proof {
            assert(game@.levels[0] == levels[0]@);
            assert(game@.p_projectiles =~= Seq::empty());
            assert(game@.e_projectiles =~= Seq::empty());
            assert(game@.p_health =~= seq![PLAYER_HEALTH, PLAYER_HEALTH]);
        }
        game.enter_level(player_start, player2_start);
        proof {
            assert(game@.players =~= seq![
                fresh_player(EntityType::Player1, start_pos(levels[0]@, EntityType::Player1)),
                fresh_player(EntityType::Player2, start_pos(levels[0]@, EntityType::Player2)),
            ]);
        }
        Some(game)
    }

    /// The level that is played.
    pub fn level(&self) -> (r: &Level)
        requires
            self.current_level < self.levels.len(),
        ensures
            r@ == self@.level(),
    {
        &self.levels[self.current_level]
    }

    /// Enters the level that is played. Of the players only the first two
    /// stay, and they stand at the places given. The enemies are those that
    /// the level starts, each in play, facing south and with its health. A
    /// level that starts a door cannot be entered.
    pub fn enter_level(&mut self, player_pos: Vec2, player2_pos: Vec2)
        requires
            old(self).players.len() >= 2,
            old(self).current_level < old(self).levels.len(),
            !has_start(old(self)@.level(), EntityType::Door),
        ensures
            final(self)@ == (SpecGame {
                players: seq![
                    SpecEntity { pos: player_pos@, ..old(self)@.players[0] },
                    SpecEntity { pos: player2_pos@, ..old(self)@.players[1] },
                ],
                enemies: spawned(old(self)@.level().starts),
                e_health: fresh_health(spawned(old(self)@.level().starts).len()),
                ..old(self)@
            }),
    {
        self.players.truncate(2);
        let mut first = self.players[0];
        first.pos = player_pos;
        self.players[0] = first;
        let mut second = self.players[1];
        second.pos = player2_pos;
        self.players[1] = second;
        self.enemies.clear();
        self.e_health.clear();
        let ghost starts = self@.level().starts;
        let ghost bring = |start: SpecStart| spawn(start);
        let count = self.levels[self.current_level].starts().len();
        let mut i: usize = 0;
        proof {
            assert(starts.take(0) =~= Seq::empty());
            assert(self@.enemies =~= starts.take(0).filter_map(bring));
            assert(self@.e_health =~= fresh_health(0));
        }
        while i < count
            invariant
                i <= count,
                self.current_level < self.levels.len(),
                self.current_level == old(self).current_level,
                self.levels == old(self).levels,
                self.players@ == old(self).players@.take(2).update(
                    0,
                    Entity { pos: player_pos, ..old(self).players[0] },
                ).update(1, Entity { pos: player2_pos, ..old(self).players[1] }),
                self.p_projectiles == old(self).p_projectiles,
                self.e_projectiles == old(self).e_projectiles,
                self.p_health == old(self).p_health,
                starts == self@.level().starts,
                count == starts.len(),
                bring == |start: SpecStart| spawn(start),
                self@.enemies == starts.take(i as int).filter_map(bring),
                self@.e_health == fresh_health(self@.enemies.len()),
            decreases count - i,
        {
            let start = self.levels[self.current_level].starts()[i];
            proof {
                starts.lemma_filter_map_take_succ(bring, i as int);
                assert(starts[i as int] == start@);
            }
            let ghost before = self@.enemies;
            let ghost health_before = self@.e_health;
            if start.etype == EntityType::Enemy {
                let enemy = Entity {
                    alive: true,
                    pos: start.pos,
                    dir: Vec2 { x: 0, y: -1 },
                    etype: EntityType::Enemy,
                };
                self.enemies.push(enemy);
                self.e_health.push(ENEMY_HEALTH);
                proof {
                    assert(self@.enemies =~= before.push(enemy@));
                    assert(self@.e_health =~= fresh_health(self@.enemies.len()));
                }
            }
            i += 1;
        }
        proof {
            assert(starts.take(count as int) =~= starts);
            assert(self@.players =~= seq![
                SpecEntity { pos: player_pos@, ..old(self)@.players[0] },
                SpecEntity { pos: player2_pos@, ..old(self)@.players[1] },
            ]);
        }
    }

    /// Pushes the players out of what they struck, contact by contact, and
    /// leaves in each contact the correction that was applied for it.
    pub fn player_level_collision_response(&mut self, contacts: &mut Vec<Contact>)
        requires
            deepest_first(contacts_view(old(contacts)@)),
            first_indices_below(contacts_view(old(contacts)@), old(self).players.len() as int),
        ensures
            final(self)@ == (SpecGame {
                players: responded(contacts_view(old(contacts)@), old(self)@.players),
                ..old(self)@
            }),
            final(self).players.len() == old(self).players.len(),
            final(contacts).len() == old(contacts).len(),
            forall|k: int|
                0 <= k < old(contacts).len() ==> (#[trigger] final(contacts)@[k])@
                    == contacts_view(old(contacts)@)[k].settled(
                    responded(contacts_view(old(contacts)@).take(k), old(self)@.players)[old(
                        contacts,
                    )@[k].a_i as int].pos,
                ),
    {
        do_collision_response(contacts, &mut self.players);
    }

    /// Pushes the enemies out of what they struck, contact by contact, and
    /// leaves in each contact the correction that was applied for it.
    pub fn enemy_level_collision_response(&mut self, contacts: &mut Vec<Contact>)
        requires
            deepest_first(contacts_view(old(contacts)@)),
            first_indices_below(contacts_view(old(contacts)@), old(self).enemies.len() as int),
        ensures
            final(self)@ == (SpecGame {
                enemies: responded(contacts_view(old(contacts)@), old(self)@.enemies),
                ..old(self)@
            }),
            final(self).enemies.len() == old(self).enemies.len(),
            final(contacts).len() == old(contacts).len(),
            forall|k: int|
                0 <= k < old(contacts).len() ==> (#[trigger] final(contacts)@[k])@
                    == contacts_view(old(contacts)@)[k].settled(
                    responded(contacts_view(old(contacts)@).take(k), old(self)@.enemies)[old(
                        contacts,
                    )@[k].a_i as int].pos,
                ),
    {
        do_collision_response(contacts, &mut self.enemies);
    }

    /// Pushes the players' projectiles out of the tiles that they struck and
    /// lets them bounce. Each contact is left holding the correction that was
    /// applied for it.
    pub fn p_projectile_level_response(&mut self, contacts: &mut Vec<Contact>)
        requires
            deepest_first(contacts_view(old(contacts)@)),
            first_indices_below(
                contacts_view(old(contacts)@),
                old(self).p_projectiles.len() as int,
            ),
        ensures
            final(self)@ == (SpecGame {
                p_projectiles: bounced(contacts_view(old(contacts)@), old(self)@.p_projectiles),
                ..old(self)@
            }),
            final(self).p_projectiles.len() == old(self).p_projectiles.len(),
            final(contacts).len() == old(contacts).len(),
            forall|k: int|
                0 <= k < old(contacts).len() ==> (#[trigger] final(contacts)@[k])@
                    == contacts_view(old(contacts)@)[k].settled(
                    bounced(contacts_view(old(contacts)@).take(k), old(self)@.p_projectiles)[old(
                        contacts,
                    )@[k].a_i as int].pos,
                ),
    {
        projectile_level_response(contacts, &mut self.p_projectiles);
    }

    /// Pushes the enemies' projectiles out of the tiles that they struck and
    /// lets them bounce. Each contact is left holding the correction that was
    /// applied for it.
    pub fn e_projectile_level_response(&mut self, contacts: &mut Vec<Contact>)
        requires
            deepest_first(contacts_view(old(contacts)@)),
            first_indices_below(
                contacts_view(old(contacts)@),
                old(self).e_projectiles.len() as int,
            ),
        ensures
            final(self)@ == (SpecGame {
                e_projectiles: bounced(contacts_view(old(contacts)@), old(self)@.e_projectiles),
                ..old(self)@
            }),
            final(self).e_projectiles.len() == old(self).e_projectiles.len(),
            final(contacts).len() == old(contacts).len(),
            forall|k: int|
                0 <= k < old(contacts).len() ==> (#[trigger] final(contacts)@[k])@
                    == contacts_view(old(contacts)@)[k].settled(
                    bounced(contacts_view(old(contacts)@).take(k), old(self)@.e_projectiles)[old(
                        contacts,
                    )@[k].a_i as int].pos,
                ),
    {
        projectile_level_response(contacts, &mut self.e_projectiles);
    }

    /// Applies the hits of the enemies' projectiles on the players: each
    /// contact names the projectile first and the player second.
    pub fn damage_player(&mut self, entity_contacts: &Vec<Contact>)
        requires
            first_indices_below(
                contacts_view(entity_contacts@),
                old(self).e_projectiles.len() as int,
            ),
            second_indices_below(contacts_view(entity_contacts@), old(self).p_health.len() as int),
        ensures
            final(self)@ == (SpecGame {
                p_health: damaged(contacts_view(entity_contacts@), old(self)@.p_health),
                e_projectiles: spent(contacts_view(entity_contacts@), old(self)@.e_projectiles),
                ..old(self)@
            }),
            final(self).p_health.len() == old(self).p_health.len(),
            final(self).e_projectiles.len() == old(self).e_projectiles.len(),
    {
        damage(entity_contacts, &mut self.p_health, &mut self.e_projectiles);
    }

    /// Applies the hits of the players' projectiles on the enemies: each
    /// contact names the projectile first and the enemy second.
    pub fn damage_enemy(&mut self, entity_contacts: &Vec<Contact>)
        requires
            first_indices_below(
                contacts_view(entity_contacts@),
                old(self).p_projectiles.len() as int,
            ),
            second_indices_below(contacts_view(entity_contacts@), old(self).e_health.len() as int),
        ensures
            final(self)@ == (SpecGame {
                e_health: damaged(contacts_view(entity_contacts@), old(self)@.e_health),
                p_projectiles: spent(contacts_view(entity_contacts@), old(self)@.p_projectiles),
                ..old(self)@
            }),
            final(self).e_health.len() == old(self).e_health.len(),
            final(self).p_projectiles.len() == old(self).p_projectiles.len(),
    {
        damage(entity_contacts, &mut self.e_health, &mut self.p_projectiles);
    }

    /// Steers the enemies by chance: each goes on as it went or turns to a
    /// point of the compass. Nothing else changes.
    pub fn steer_enemies(&mut self)
        ensures
            final(self)@ == (SpecGame { enemies: final(self)@.enemies, ..old(self)@ }),
            final(self)@.enemies.len() == old(self)@.enemies.len(),
            forall|i: int|
                0 <= i < old(self)@.enemies.len() ==> may_follow(
                    #[trigger] old(self)@.enemies[i],
                    final(self)@.enemies[i],
                ),
    {
        steer_enemies(&mut self.enemies);
    }

    /// One step of collisions, to be taken when all that moves has moved.
    pub fn collide(&mut self)
        requires
            old(self)@.wf(),
        ensures
            final(self)@ == old(self)@.collided(),
            final(self)@.wf(),
    {
        let player_shapes = collision_shapes(&self.players);
        let enemy_shapes = collision_shapes(&self.enemies);
        let p_projectile_shapes = collision_shapes(&self.p_projectiles);
        let e_projectile_shapes = collision_shapes(&self.e_projectiles);

        let mut player_level_contacts = gather_level_contacts(&player_shapes, self.level());
        let mut enemy_level_contacts = gather_level_contacts(&enemy_shapes, self.level());
        let mut p_projectile_level_contacts = gather_level_contacts(
            &p_projectile_shapes,
            self.level(),
        );
        let mut e_projectile_level_contacts = gather_level_contacts(
            &e_projectile_shapes,
            self.level(),
        );
        let player_hits = gather_contacts(&e_projectile_shapes, &player_shapes);
        let enemy_hits = gather_contacts(&p_projectile_shapes, &enemy_shapes);

        sort_contacts(&mut player_level_contacts);
        sort_contacts(&mut enemy_level_contacts);
        sort_contacts(&mut p_projectile_level_contacts);
        sort_contacts(&mut e_projectile_level_contacts);

        self.player_level_collision_response(&mut player_level_contacts);
        self.enemy_level_collision_response(&mut enemy_level_contacts);
        self.p_projectile_level_response(&mut p_projectile_level_contacts);
        self.e_projectile_level_response(&mut e_projectile_level_contacts);
        self.damage_player(&player_hits);
        proof {
            assert(self@.p_projectiles.len() == self.p_projectiles.len());
            assert(self@.e_health.len() == self.e_health.len());
        }
        self.damage_enemy(&enemy_hits);
    }
}

} // verus!
