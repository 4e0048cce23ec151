//! What a hit does: a projectile that strikes a target takes one point of
//! its health and is spent. No position is touched here.

use vstd::prelude::*;
use crate::contact::{
    contacts_view, first_indices_below, second_indices_below, Contact, SpecContact,
};
use crate::contact::{gathered, lemma_gathered_sound};
use crate::entity::{entities_view, live_shapes, Entity, SpecEntity};
use crate::geom::SpecShape;

verus! {

/// How many players there are. They stand first among the entities.
pub const PLAYERS: usize = 2;

/// Whether some contact names `i` as its first shape.
pub open spec fn strikes(contacts: Seq<SpecContact>, i: int) -> bool {
    exists|k: int| 0 <= k < contacts.len() && (#[trigger] contacts[k]).a_i == i
}

/// Whether some contact names `i` as its second shape.
pub open spec fn is_struck(contacts: Seq<SpecContact>, i: int) -> bool {
    exists|k: int| 0 <= k < contacts.len() && (#[trigger] contacts[k]).b_i == i
}

/// A health counter after one hit: one less, and never below zero.
pub open spec fn hit(health: u8) -> u8 {
    if health > 0 {
        (health - 1) as u8
    } else {
        0
    }
}

/// The health counters after one contact: the counter of the target is hit
/// once, the others stay.
pub open spec fn damage_one(health: Seq<u8>, c: SpecContact) -> Seq<u8> {
    if 0 <= c.b_i < health.len() {
        health.update(c.b_i, hit(health[c.b_i]))
    } else {
        health
    }
}

/// The health counters after all contacts: each contact is one hit on its
/// target.
pub open spec fn damaged(contacts: Seq<SpecContact>, health: Seq<u8>) -> Seq<u8> {
    contacts.fold_left(health, |h: Seq<u8>, c: SpecContact| damage_one(h, c))
}

/// The entity `e` taken out of play.
pub open spec fn dead(e: SpecEntity) -> SpecEntity {
    SpecEntity { alive: false, ..e }
}

/// The attackers after the contacts: those that struck are out of play, and
/// nothing else has changed.
pub open spec fn spent(contacts: Seq<SpecContact>, attackers: Seq<SpecEntity>) -> Seq<SpecEntity> {
    Seq::new(
        attackers.len(),
        |i: int|
            if strikes(contacts, i) {
                dead(attackers[i])
            } else {
                attackers[i]
            },
    )
}

/// The entities after the contacts of projectiles with them: a player that
/// was struck is out of play, and nothing else has changed.
pub open spec fn players_killed(contacts: Seq<SpecContact>, entities: Seq<SpecEntity>) -> Seq<
    SpecEntity,
> {
    Seq::new(
        entities.len(),
        |i: int|
            if i < PLAYERS && is_struck(contacts, i) {
                dead(entities[i])
            } else {
                entities[i]
            },
    )
}

/// A contact more is a strike more.
proof fn lemma_strikes_step(contacts: Seq<SpecContact>, n: int, i: int)
    requires
        0 <= n < contacts.len(),
    ensures
        strikes(contacts.take(n + 1), i) <==> strikes(contacts.take(n), i) || contacts[n].a_i == i,
        is_struck(contacts.take(n + 1), i) <==> is_struck(contacts.take(n), i) || contacts[n].b_i
            == i,
{
    let shorter = contacts.take(n);
    let longer = contacts.take(n + 1);
    if strikes(shorter, i) {
        let k = choose|k: int| 0 <= k < shorter.len() && (#[trigger] shorter[k]).a_i == i;
        assert(longer[k].a_i == i);
    }
    if contacts[n].a_i == i {
        assert(longer[n].a_i == i);
    }
    if strikes(longer, i) {
        let k = choose|k: int| 0 <= k < longer.len() && (#[trigger] longer[k]).a_i == i;
        if k < n {
            assert(shorter[k].a_i == i);
        }
    }
    if is_struck(shorter, i) {
        let k = choose|k: int| 0 <= k < shorter.len() && (#[trigger] shorter[k]).b_i == i;
        assert(longer[k].b_i == i);
    }
    if contacts[n].b_i == i {
        assert(longer[n].b_i == i);
    }
    if is_struck(longer, i) {
        let k = choose|k: int| 0 <= k < longer.len() && (#[trigger] longer[k]).b_i == i;
        if k < n {
            assert(shorter[k].b_i == i);
        }
    }
}

/// Applies the hits of projectiles on targets. Each contact names a
/// projectile of `attackers` as its first shape and a target as its second,
/// whose counter is in `health`. The target loses one point of health for
/// each contact, and never goes below zero; the projectile is out of play.
pub fn damage(contacts: &Vec<Contact>, health: &mut Vec<u8>, attackers: &mut Vec<Entity>)
    requires
        first_indices_below(
            contacts_view(contacts@),
            old(attackers).len() as int,
        ),
        second_indices_below(contacts_view(contacts@), old(health).len() as int),
    ensures
        final(health)@ == damaged(contacts_view(contacts@), old(health)@),
        entities_view(final(attackers)@) == spent(
            contacts_view(contacts@),
            entities_view(old(attackers)@),
        ),
        final(health).len() == old(health).len(),
        final(attackers).len() == old(attackers).len(),
{
    let ghost cs = contacts_view(contacts@);
    let ghost health_start = health@;
    let ghost start = entities_view(attackers@);
    let ghost step = |h: Seq<u8>, c: SpecContact| damage_one(h, c);
    let mut i: usize = 0;
    proof {
        assert(cs.take(0) =~= Seq::empty());
        assert(entities_view(attackers@) =~= spent(cs.take(0), start));
    }
    while i < contacts.len()
        invariant
            i <= contacts.len(),
            cs == contacts_view(contacts@),
            first_indices_below(cs, attackers.len() as int),
            second_indices_below(cs, health.len() as int),
            attackers.len() == start.len(),
            health.len() == health_start.len(),
            step == |h: Seq<u8>, c: SpecContact| damage_one(h, c),
            health@ == cs.take(i as int).fold_left(health_start, step),
            entities_view(attackers@) == spent(cs.take(i as int), start),
        decreases contacts.len() - i,
    {
        let contact = contacts[i];
        let ghost health_before = health@;
        proof {
            assert(cs[i as int] == contact@);
            assert(cs.take(i as int + 1).drop_last() =~= cs.take(i as int));
            assert(cs.take(i as int + 1).last() == contact@);
        }
        if health[contact.b_i] > 0 {
            health[contact.b_i] = health[contact.b_i] - 1;
        }
        let mut attacker = attackers[contact.a_i];
        attacker.alive = false;
        attackers[contact.a_i] = attacker;
        proof {
            assert(health@ =~= damage_one(health_before, contact@));
            assert forall|j: int| 0 <= j < start.len() implies (#[trigger] entities_view(
                attackers@,
            )[j]) == spent(cs.take(i as int + 1), start)[j] by {
                lemma_strikes_step(cs, i as int, j);
                assert(spent(cs.take(i as int), start)[j] == if strikes(cs.take(i as int), j) {
                    dead(start[j])
                } else {
                    start[j]
                });
            }
            assert(entities_view(attackers@) =~= spent(cs.take(i as int + 1), start));
        }
        i += 1;
    }
    proof {
        assert(cs.take(contacts.len() as int) =~= cs);
    }
}

/// Takes the players out of play that a projectile struck. Each contact names
/// the entity that was struck as its second shape; the players are the first
/// entities, and only they are taken out.
pub fn kill_player(contacts: &Vec<Contact>, entities: &mut Vec<Entity>)
    requires
        forall|k: int|
            0 <= k < contacts.len() && (#[trigger] contacts[k]).b_i < PLAYERS ==> contacts[k].b_i
                < old(entities).len(),
    ensures
        entities_view(final(entities)@) == players_killed(
            contacts_view(contacts@),
            entities_view(old(entities)@),
        ),
        final(entities).len() == old(entities).len(),
{
    let ghost cs = contacts_view(contacts@);
    let ghost start = entities_view(entities@);
    let mut i: usize = 0;
    proof {
        assert(cs.take(0) =~= Seq::empty());
        assert(entities_view(entities@) =~= players_killed(cs.take(0), start));
    }
    while i < contacts.len()
        invariant
            i <= contacts.len(),
            cs == contacts_view(contacts@),
            entities.len() == start.len(),
            forall|k: int|
                0 <= k < contacts.len() && (#[trigger] contacts[k]).b_i < PLAYERS
                    ==> contacts[k].b_i < entities.len(),
            entities_view(entities@) == players_killed(cs.take(i as int), start),
        decreases contacts.len() - i,
    {
        let contact = contacts[i];
        proof {
            assert(cs[i as int] == contact@);
        }
        if contact.b_i < PLAYERS {
            let mut player = entities[contact.b_i];
            player.alive = false;
            entities[contact.b_i] = player;
        }
        proof {
            assert forall|j: int| 0 <= j < start.len() implies (#[trigger] entities_view(
                entities@,
            )[j]) == players_killed(cs.take(i as int + 1), start)[j] by {
                lemma_strikes_step(cs, i as int, j);
                assert(players_killed(cs.take(i as int), start)[j] == if j < PLAYERS
                    && is_struck(cs.take(i as int), j) {
                    dead(start[j])
                } else {
                    start[j]
                });
            }
            assert(entities_view(entities@) =~= players_killed(cs.take(i as int + 1), start));
        }
        i += 1;
    }
    proof {
        assert(cs.take(contacts.len() as int) =~= cs);
    }
}

/// Whether a contact names `i` as its second shape.
pub open spec fn hits_target(i: int) -> spec_fn(SpecContact) -> bool {
    |c: SpecContact| c.b_i == i
}

/// One contact is one hit: the target loses exactly one point of health, or
/// stays at zero, no other counter changes, and the projectile, and it
/// alone, is taken out of play.
pub proof fn lemma_single_hit(c: SpecContact, health: Seq<u8>, attackers: Seq<SpecEntity>)
    requires
        0 <= c.a_i < attackers.len(),
        0 <= c.b_i < health.len(),
    ensures
        damaged(seq![c], health) == health.update(c.b_i, hit(health[c.b_i])),
        health[c.b_i] > 0 ==> damaged(seq![c], health)[c.b_i] == health[c.b_i] - 1,
        health[c.b_i] == 0 ==> damaged(seq![c], health)[c.b_i] == 0,
        spent(seq![c], attackers) == attackers.update(c.a_i, dead(attackers[c.a_i])),
{
    assert(damaged(seq![c], health) == damage_one(health, c)) by {
        reveal_with_fuel(Seq::fold_left, 2);
        assert(seq![c].drop_last() =~= Seq::empty());
        assert(seq![c].last() == c);
    }
    let after = spent(seq![c], attackers);
    assert forall|i: int| 0 <= i < attackers.len() implies after[i] == attackers.update(
        c.a_i,
        dead(attackers[c.a_i]),
    )[i] by {
        if i == c.a_i {
            assert(seq![c][0].a_i == i);
        }
    }
    assert(after =~= attackers.update(c.a_i, dead(attackers[c.a_i])));
}

/// Hits add up and are never counted twice: after any number of contacts a
/// counter stands lower by the number of contacts that name it, or at zero
/// where that is more than it held.
pub proof fn lemma_damaged_counts(contacts: Seq<SpecContact>, health: Seq<u8>, i: int)
    requires
        0 <= i < health.len(),
    ensures
        damaged(contacts, health).len() == health.len(),
        damaged(contacts, health)[i] == if health[i] >= contacts.filter(hits_target(i)).len() {
            health[i] - contacts.filter(hits_target(i)).len()
        } else {
            0
        },
    decreases contacts.len(),
{
    reveal(Seq::filter);
    if contacts.len() > 0 {
        lemma_damaged_counts(contacts.drop_last(), health, i);
    }
}

/// A projectile that has struck takes no further part: once the hits are
/// applied, nothing is gathered for it against any targets.
pub proof fn lemma_spent_takes_no_part(
    contacts: Seq<SpecContact>,
    attackers: Seq<SpecEntity>,
    targets: Seq<SpecShape>,
    i: int,
)
    requires
        0 <= i < attackers.len(),
        strikes(contacts, i),
    ensures
        !strikes(gathered(live_shapes(spent(contacts, attackers)), targets), i),
{
    let shapes = live_shapes(spent(contacts, attackers));
    let again = gathered(shapes, targets);
    lemma_gathered_sound(shapes, targets);
    if strikes(again, i) {
        let k = choose|k: int| 0 <= k < again.len() && (#[trigger] again[k]).a_i == i;
        assert(crate::contact::is_contact_of(again[k], shapes, targets));
        assert(shapes[i].is_empty());
    }
}

} // verus!
