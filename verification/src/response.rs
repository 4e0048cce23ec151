//! Resolution of contacts: each contact moves the first of its two shapes out
//! of the second along the axis of least penetration, and a projectile is
//! reflected off what it struck.

use vstd::prelude::*;
use crate::contact::{
    contacts_view, first_indices_below, gathered, lemma_gathered_pair, Contact, SpecContact,
};
use crate::entity::{entities_view, Entity, SpecEntity, TILE_SZ};
use crate::geom::{clamp_coord, saturate, Rect, Shape, SpecRect, SpecShape, SpecVec2, Vec2};
use crate::sorting::{deepest_first, insert_by_depth, sorted_by_depth};

verus! {

/// The size of an integer.
pub open spec fn magnitude(v: int) -> int {
    if v < 0 {
        -v
    } else {
        v
    }
}

impl SpecContact {
    /// The penetration with the larger of its two components set to zero: what
    /// is left is the axis of least penetration. When the two are of one size,
    /// the y component stays.
    pub open spec fn least_axis(self) -> SpecVec2 {
        let d = self.displacement;
        if magnitude(d.x) < magnitude(d.y) {
            SpecVec2 { x: d.x, y: 0 }
        } else {
            SpecVec2 { x: 0, y: d.y }
        }
    }

    /// The displacement that parts a shape at `pos` from the second shape of
    /// the contact: the axis of least penetration, each component with its
    /// sign turned where `pos` lies before the centre of that shape. A
    /// component whose sign is turned saturates at the end of the coordinate
    /// range.
    pub open spec fn correction(self, pos: SpecVec2) -> SpecVec2 {
        let d = self.least_axis();
        let c = self.b_r.center();
        SpecVec2 {
            x: if pos.x < c.x {
                clamp_coord(-d.x)
            } else {
                d.x
            },
            y: if pos.y < c.y {
                clamp_coord(-d.y)
            } else {
                d.y
            },
        }
    }

    /// The contact as its resolution for a shape at `pos` leaves it: its
    /// displacement is the correction that was applied, and nothing else of
    /// it has changed.
    pub open spec fn settled(self, pos: SpecVec2) -> SpecContact {
        SpecContact { displacement: self.correction(pos), ..self }
    }

    /// Where a shape at `pos` stands once the contact is resolved. The
    /// position saturates at the ends of the coordinate range.
    pub open spec fn corrected(self, pos: SpecVec2) -> SpecVec2 {
        pos.plus(self.correction(pos)).clamped()
    }
}

/// The direction `dir` after a correction by `corr`: mirrored on the axis
/// along which the correction moved.
pub open spec fn reflected(dir: SpecVec2, corr: SpecVec2) -> SpecVec2 {
    if corr.x != 0 {
        SpecVec2 { x: -dir.x, y: dir.y }
    } else if corr.y != 0 {
        SpecVec2 { x: dir.x, y: -dir.y }
    } else {
        dir
    }
}

/// Models of the vectors of a sequence, in order.
pub open spec fn points_view(s: Seq<Vec2>) -> Seq<SpecVec2> {
    s.map_values(|p: Vec2| p@)
}

/// The positions after one contact: the one that the contact names is
/// corrected, the others stay.
pub open spec fn resolve_one(positions: Seq<SpecVec2>, c: SpecContact) -> Seq<SpecVec2> {
    if 0 <= c.a_i < positions.len() {
        positions.update(c.a_i, c.corrected(positions[c.a_i]))
    } else {
        positions
    }
}

/// The positions after all contacts, applied one after the other in the
/// order given, each to what the ones before it left.
pub open spec fn resolved(contacts: Seq<SpecContact>, positions: Seq<SpecVec2>) -> Seq<SpecVec2> {
    contacts.fold_left(positions, |ps: Seq<SpecVec2>, c: SpecContact| resolve_one(ps, c))
}

/// The entities after one contact: the one that the contact names is moved,
/// nothing else of it changes, and the others stay.
pub open spec fn respond_one(entities: Seq<SpecEntity>, c: SpecContact) -> Seq<SpecEntity> {
    if 0 <= c.a_i < entities.len() {
        let e = entities[c.a_i];
        entities.update(c.a_i, SpecEntity { pos: c.corrected(e.pos), ..e })
    } else {
        entities
    }
}

/// The entities after all contacts, applied one after the other.
pub open spec fn responded(contacts: Seq<SpecContact>, entities: Seq<SpecEntity>) -> Seq<
    SpecEntity,
> {
    contacts.fold_left(entities, |es: Seq<SpecEntity>, c: SpecContact| respond_one(es, c))
}

/// The projectiles after one contact: the one that the contact names is
/// moved and its direction reflected, and the others stay.
pub open spec fn bounce_one(projectiles: Seq<SpecEntity>, c: SpecContact) -> Seq<SpecEntity> {
    if 0 <= c.a_i < projectiles.len() {
        let e = projectiles[c.a_i];
        projectiles.update(
            c.a_i,
            SpecEntity {
                pos: c.corrected(e.pos),
                dir: reflected(e.dir, c.correction(e.pos)).clamped(),
                ..e
            },
        )
    } else {
        projectiles
    }
}

/// The projectiles after all contacts, applied one after the other.
pub open spec fn bounced(contacts: Seq<SpecContact>, projectiles: Seq<SpecEntity>) -> Seq<
    SpecEntity,
> {
    contacts.fold_left(projectiles, |es: Seq<SpecEntity>, c: SpecContact| bounce_one(es, c))
}

/// The centre of a shape, exactly.
fn center_of(shape: &Shape) -> (r: (i64, i64))
    ensures
        r.0 == shape@.center().x,
        r.1 == shape@.center().y,
{
    match shape {
        Shape::Circle(c) => (c.x as i64, c.y as i64),
        Shape::Rect(b) => (b.x as i64 + (b.w / 2) as i64, b.y as i64 + (b.h / 2) as i64),
    }
}

impl Contact {
    /// The displacement that parts a shape at `pos` from the second shape of
    /// this contact: along the axis of least penetration, and away from the
    /// centre of the second shape.
    pub fn correction(&self, pos: Vec2) -> (r: Vec2)
        ensures
            r@ == self@.correction(pos@),
    {
        let x: i64 = self.displacement.x as i64;
        let y: i64 = self.displacement.y as i64;
        let size_x: i64 = if x < 0 {
            -x
        } else {
            x
        };
        let size_y: i64 = if y < 0 {
            -y
        } else {
            y
        };
        let (kept_x, kept_y): (i64, i64) = if size_x < size_y {
            (x, 0)
        } else {
            (0, y)
        };
        let (center_x, center_y) = center_of(&self.b_r);
        let signed_x: i32 = if (pos.x as i64) < center_x {
            saturate(-kept_x)
        } else {
            saturate(kept_x)
        };
        let signed_y: i32 = if (pos.y as i64) < center_y {
            saturate(-kept_y)
        } else {
            saturate(kept_y)
        };
        Vec2 { x: signed_x, y: signed_y }
    }

    /// Where a shape at `pos` stands once this contact is resolved: `pos`
    /// moved along the axis of least penetration, away from the centre of
    /// the second shape.
    pub fn corrected(&self, pos: Vec2) -> (r: Vec2)
        ensures
            r@ == self@.corrected(pos@),
    {
        pos + self.correction(pos)
    }

    /// The direction of a projectile at `pos` once this contact is resolved:
    /// `dir` mirrored on the axis along which the projectile is moved out.
    pub fn reflected(&self, pos: Vec2, dir: Vec2) -> (r: Vec2)
        ensures
            r@ == reflected(dir@, self@.correction(pos@)).clamped(),
    {
        let by = self.correction(pos);
        if by.x != 0 {
            Vec2 { x: saturate(-(dir.x as i64)), y: dir.y }
        } else if by.y != 0 {
            Vec2 { x: dir.x, y: saturate(-(dir.y as i64)) }
        } else {
            dir
        }
    }
}

/// Resolves the contacts in the order given, which is to be from the deepest
/// to the least deep: each moves the position that it names as its first
/// shape. A position that no contact names is left alone; one that several
/// name is moved by each in turn. A contact must name a position that there
/// is. Each contact is left holding, as its displacement, the correction
/// that was applied for it.
///
/// Boxes are parted for good where they stick out of one another (see
/// `lemma_resolve_separates`). The penetration of a circle approximates, and
/// a circle may still overlap what it struck once its contact is resolved.
pub fn resolve(contacts: &mut Vec<Contact>, positions: &mut Vec<Vec2>)
    requires
        deepest_first(contacts_view(old(contacts)@)),
        first_indices_below(contacts_view(old(contacts)@), old(positions).len() as int),
    ensures
        points_view(final(positions)@) == resolved(
            contacts_view(old(contacts)@),
            points_view(old(positions)@),
        ),
        final(positions).len() == old(positions).len(),
        final(contacts).len() == old(contacts).len(),
        forall|k: int|
            0 <= k < old(contacts).len() ==> (#[trigger] final(contacts)@[k])@ == contacts_view(
                old(contacts)@,
            )[k].settled(
                resolved(contacts_view(old(contacts)@).take(k), points_view(old(positions)@))[old(
                    contacts,
                )@[k].a_i as int],
            ),
{
    let ghost cs = contacts_view(contacts@);
    let ghost start = points_view(positions@);
    let mut i: usize = 0;
    proof {
        assert(cs.take(0) =~= Seq::empty());
    }
    while i < contacts.len()
        invariant
            i <= contacts.len(),
            contacts.len() == cs.len(),
            first_indices_below(cs, positions.len() as int),
            positions.len() == start.len(),
            points_view(positions@) == resolved(cs.take(i as int), start),
            forall|k: int| i <= k < cs.len() ==> (#[trigger] contacts@[k])@ == cs[k],
            forall|k: int|
                0 <= k < i ==> (#[trigger] contacts@[k])@ == cs[k].settled(
                    resolved(cs.take(k), start)[cs[k].a_i],
                ),
        decreases contacts.len() - i,
    {
        let contact = contacts[i];
        let ghost before = points_view(positions@);
        proof {
            assert(cs[i as int] == contact@);
            assert(cs.take(i as int + 1).drop_last() =~= cs.take(i as int));
            assert(cs.take(i as int + 1).last() == contact@);
            assert(before[contact.a_i as int] == positions@[contact.a_i as int]@);
        }
        let by = contact.correction(positions[contact.a_i]);
        positions[contact.a_i] = positions[contact.a_i] + by;
        contacts[i] = Contact { displacement: by, ..contact };
        proof {
            assert(points_view(positions@) =~= resolve_one(before, contact@));
        }
        i += 1;
    }
    proof {
        assert(cs.take(contacts.len() as int) =~= cs);
    }
}

/// Moves the entities out of what they struck: each contact, in the order
/// given, which is to be from the deepest to the least deep, corrects the
/// position of the entity that it names as its first shape. Nothing else of
/// an entity changes. Each contact is left holding, as its displacement, the
/// correction that was applied for it.
pub fn do_collision_response(contacts: &mut Vec<Contact>, entities: &mut Vec<Entity>)
    requires
        deepest_first(contacts_view(old(contacts)@)),
        first_indices_below(contacts_view(old(contacts)@), old(entities).len() as int),
    ensures
        entities_view(final(entities)@) == responded(
            contacts_view(old(contacts)@),
            entities_view(old(entities)@),
        ),
        final(entities).len() == old(entities).len(),
        final(contacts).len() == old(contacts).len(),
        forall|k: int|
            0 <= k < old(contacts).len() ==> (#[trigger] final(contacts)@[k])@ == contacts_view(
                old(contacts)@,
            )[k].settled(
                responded(contacts_view(old(contacts)@).take(k), entities_view(old(entities)@))[old(
                    contacts,
                )@[k].a_i as int].pos,
            ),
{
    let ghost cs = contacts_view(contacts@);
    let ghost start = entities_view(entities@);
    let mut i: usize = 0;
    proof {
        assert(cs.take(0) =~= Seq::empty());
    }
    while i < contacts.len()
        invariant
            i <= contacts.len(),
            contacts.len() == cs.len(),
            first_indices_below(cs, entities.len() as int),
            entities.len() == start.len(),
            entities_view(entities@) == responded(cs.take(i as int), start),
            forall|k: int| i <= k < cs.len() ==> (#[trigger] contacts@[k])@ == cs[k],
            forall|k: int|
                0 <= k < i ==> (#[trigger] contacts@[k])@ == cs[k].settled(
                    responded(cs.take(k), start)[cs[k].a_i].pos,
                ),
        decreases contacts.len() - i,
    {
        let contact = contacts[i];
        let ghost before = entities_view(entities@);
        proof {
            assert(cs[i as int] == contact@);
            assert(cs.take(i as int + 1).drop_last() =~= cs.take(i as int));
            assert(cs.take(i as int + 1).last() == contact@);
            assert(before[contact.a_i as int] == entities@[contact.a_i as int]@);
        }
        let mut entity = entities[contact.a_i];
        let by = contact.correction(entity.pos);
        entity.pos = entity.pos + by;
        entities[contact.a_i] = entity;
        contacts[i] = Contact { displacement: by, ..contact };
        proof {
            assert(entities_view(entities@) =~= respond_one(before, contact@));
        }
        i += 1;
    }
    proof {
        assert(cs.take(contacts.len() as int) =~= cs);
    }
}

/// Moves the projectiles out of the solid tiles that they struck and lets
/// them bounce: each contact, in the order given, which is to be from the
/// deepest to the least deep, corrects the position of the projectile that it
/// names and mirrors its direction on the axis of the correction. Each
/// contact is left holding, as its displacement, the correction that was
/// applied for it.
pub fn projectile_level_response(contacts: &mut Vec<Contact>, projectiles: &mut Vec<Entity>)
    requires
        deepest_first(contacts_view(old(contacts)@)),
        first_indices_below(contacts_view(old(contacts)@), old(projectiles).len() as int),
    ensures
        entities_view(final(projectiles)@) == bounced(
            contacts_view(old(contacts)@),
            entities_view(old(projectiles)@),
        ),
        final(projectiles).len() == old(projectiles).len(),
        final(contacts).len() == old(contacts).len(),
        forall|k: int|
            0 <= k < old(contacts).len() ==> (#[trigger] final(contacts)@[k])@ == contacts_view(
                old(contacts)@,
            )[k].settled(
                bounced(
                    contacts_view(old(contacts)@).take(k),
                    entities_view(old(projectiles)@),
                )[old(contacts)@[k].a_i as int].pos,
            ),
{
    let ghost cs = contacts_view(contacts@);
    let ghost start = entities_view(projectiles@);
    let mut i: usize = 0;
    proof {
        assert(cs.take(0) =~= Seq::empty());
    }
    while i < contacts.len()
        invariant
            i <= contacts.len(),
            contacts.len() == cs.len(),
            first_indices_below(cs, projectiles.len() as int),
            projectiles.len() == start.len(),
            entities_view(projectiles@) == bounced(cs.take(i as int), start),
            forall|k: int| i <= k < cs.len() ==> (#[trigger] contacts@[k])@ == cs[k],
            forall|k: int|
                0 <= k < i ==> (#[trigger] contacts@[k])@ == cs[k].settled(
                    bounced(cs.take(k), start)[cs[k].a_i].pos,
                ),
        decreases contacts.len() - i,
    {
        let contact = contacts[i];
        let ghost before = entities_view(projectiles@);
        proof {
            assert(cs[i as int] == contact@);
            assert(cs.take(i as int + 1).drop_last() =~= cs.take(i as int));
            assert(cs.take(i as int + 1).last() == contact@);
            assert(before[contact.a_i as int] == projectiles@[contact.a_i as int]@);
        }
        let mut projectile = projectiles[contact.a_i];
        let by = contact.correction(projectile.pos);
        projectile.dir = contact.reflected(projectile.pos, projectile.dir);
        projectile.pos = projectile.pos + by;
        projectiles[contact.a_i] = projectile;
        contacts[i] = Contact { displacement: by, ..contact };
        proof {
            assert(entities_view(projectiles@) =~= bounce_one(before, contact@));
        }
        i += 1;
    }
    proof {
        assert(cs.take(contacts.len() as int) =~= cs);
    }
}

/// Resolution keeps the number of positions, and a position that no contact
/// names stays where it is.
pub proof fn lemma_resolved_untouched(contacts: Seq<SpecContact>, positions: Seq<SpecVec2>, i: int)
    requires
        0 <= i < positions.len(),
        forall|k: int| 0 <= k < contacts.len() ==> (#[trigger] contacts[k]).a_i != i,
    ensures
        resolved(contacts, positions).len() == positions.len(),
        resolved(contacts, positions)[i] == positions[i],
    decreases contacts.len(),
{
    if contacts.len() > 0 {
        let front = contacts.drop_last();
        assert forall|k: int| 0 <= k < front.len() implies (#[trigger] front[k]).a_i != i by {
            assert(front[k] == contacts[k]);
        }
        lemma_resolved_untouched(front, positions, i);
        assert(contacts.last() == contacts[contacts.len() - 1]);
    }
}

/// A contact of shapes that only touch moves nothing and turns nothing: where
/// one component of the penetration is zero, that is the axis of least
/// penetration, and the correction along it is zero.
pub proof fn lemma_touching_moves_nothing(c: Contact, pos: Vec2, dir: Vec2)
    requires
        touching(c.displacement@),
    ensures
        c@.correction(pos@) == (SpecVec2 { x: 0, y: 0 }),
        c@.corrected(pos@) == pos@,
        reflected(dir@, c@.correction(pos@)) == dir@,
{
}

/// A pass over contacts that all only touch moves nothing and turns nothing,
/// however many they are and whatever they name: where a first pass has left
/// every shape only touching what it struck, a second pass changes no
/// position and no direction.
pub proof fn lemma_touching_contacts_move_nothing(
    contacts: Seq<Contact>,
    positions: Seq<Vec2>,
    entities: Seq<Entity>,
)
    requires
        forall|k: int| 0 <= k < contacts.len() ==> touching((#[trigger] contacts[k]).displacement@),
    ensures
        resolved(contacts_view(contacts), points_view(positions)) == points_view(positions),
        responded(contacts_view(contacts), entities_view(entities)) == entities_view(entities),
        bounced(contacts_view(contacts), entities_view(entities)) == entities_view(entities),
    decreases contacts.len(),
{
    let cs = contacts_view(contacts);
    let ps = points_view(positions);
    let es = entities_view(entities);
    if contacts.len() > 0 {
        let front = contacts.drop_last();
        let last = contacts.last();
        assert(contacts_view(front) =~= cs.drop_last());
        assert(cs.last() == last@);
        assert forall|k: int| 0 <= k < front.len() implies touching(
            (#[trigger] front[k]).displacement@,
        ) by {
            assert(front[k] == contacts[k]);
        }
        lemma_touching_contacts_move_nothing(front, positions, entities);
        if 0 <= last@.a_i < ps.len() {
            let at = positions[last@.a_i];
            assert(ps[last@.a_i] == at@);
            lemma_touching_moves_nothing(last, at, at);
            assert(resolve_one(ps, last@) =~= ps);
        }
        if 0 <= last@.a_i < es.len() {
            let e = entities[last@.a_i];
            assert(es[last@.a_i] == e@);
            lemma_touching_moves_nothing(last, e.pos, e.dir);
            assert(respond_one(es, last@) =~= es);
            assert(bounce_one(es, last@) =~= es);
        }
    }
}

/// A reflection changes the direction of travel and not the speed: the
/// reflected vector is as long as the vector was. To reflect twice by the same
/// correction gives the first direction back.
pub proof fn lemma_reflection_keeps_length(dir: Vec2, corr: SpecVec2)
    ensures
        reflected(dir@, corr).mag_sq() == dir@.mag_sq(),
        reflected(reflected(dir@, corr), corr) == dir@,
        corr.x != 0 ==> reflected(dir@, corr) == (SpecVec2 { x: -dir@.x, y: dir@.y }),
        corr.x == 0 && corr.y != 0 ==> reflected(dir@, corr) == (SpecVec2 {
            x: dir@.x,
            y: -dir@.y,
        }),
{
    let d = dir@;
    assert((-d.x) * (-d.x) == d.x * d.x) by (nonlinear_arith);
    assert((-d.y) * (-d.y) == d.y * d.y) by (nonlinear_arith);
}

/// Whether, along the axis of least penetration, box `a` sticks out of box
/// `b` on the side on which `pos` lies from the centre of `b`. Resolution
/// pushes towards that side, so this is when it pushes `a` out and not
/// further in. It fails where `a` lies inside `b` along that axis.
pub open spec fn sticks_out_toward(a: SpecRect, b: SpecRect, pos: SpecVec2) -> bool {
    let c = b.center();
    if a.overlap_x(b) < a.overlap_y(b) {
        if pos.x < c.x {
            a.x <= b.x && a.right() <= b.right()
        } else {
            a.x >= b.x && a.right() >= b.right()
        }
    } else {
        if pos.y < c.y {
            a.y <= b.y && a.bottom() <= b.bottom()
        } else {
            a.y >= b.y && a.bottom() >= b.bottom()
        }
    }
}

/// Whether a penetration does not reach into the other shape: two boxes that
/// only touch overlap by nothing along one axis.
pub open spec fn touching(v: SpecVec2) -> bool {
    v.x == 0 || v.y == 0
}

/// The contact of box `a`, the first of the positions, with box `b`.
pub open spec fn box_contact(a: SpecRect, b: SpecRect, d: SpecVec2) -> SpecContact {
    SpecContact {
        a_i: 0,
        a_r: SpecShape::Rect(a),
        b_i: 0,
        b_r: SpecShape::Rect(b),
        displacement: d,
    }
}

/// The contacts of box `a` with box `b` as one step finds them: gathered and
/// put in order.
pub open spec fn box_contacts(a: SpecRect, b: SpecRect) -> Seq<SpecContact> {
    sorted_by_depth(gathered(seq![SpecShape::Rect(a)], seq![SpecShape::Rect(b)]))
}

/// Where an entity at `pos` with box `a` stands after one step against box
/// `b`: the contacts are gathered, put in order and resolved.
pub open spec fn after_step(a: SpecRect, b: SpecRect, pos: SpecVec2) -> SpecVec2 {
    resolved(box_contacts(a, b), seq![pos])[0]
}

/// What holds once the contact of box `a`, of an entity at `pos`, with box `b`
/// is resolved. There was one contact, and the entity was moved by its
/// correction. The box, moved as the position was, only touches `b`: along
/// the axis of the correction the two overlap by nothing, and along the other
/// as before. A second step, its contact gathered and put in order anew,
/// moves nothing.
pub open spec fn separated(a: SpecRect, b: SpecRect, pos: SpecVec2) -> bool {
    let first = box_contact(a, b, a.overlap(b).unwrap());
    let after = after_step(a, b, pos);
    let moved = a.translate(after.minus(pos));
    &&& box_contacts(a, b) == seq![first]
    &&& after == pos.plus(first.correction(pos))
    &&& moved.overlap(b) is Some
    &&& touching(moved.overlap(b).unwrap())
    &&& after_step(moved, b, after) == after
}

/// One step against a box that is overlapped resolves the one contact.
proof fn lemma_step_resolves_one(a: SpecRect, b: SpecRect, pos: SpecVec2)
    requires
        a.overlap(b) is Some,
    ensures
        box_contacts(a, b) == seq![box_contact(a, b, a.overlap(b).unwrap())],
        after_step(a, b, pos) == box_contact(a, b, a.overlap(b).unwrap()).corrected(pos),
{
    let first = box_contact(a, b, a.overlap(b).unwrap());
    let start = seq![pos];
    lemma_gathered_pair(SpecShape::Rect(a), SpecShape::Rect(b));
    assert(sorted_by_depth(seq![first]) == seq![first]) by {
        reveal_with_fuel(sorted_by_depth, 2);
        reveal_with_fuel(insert_by_depth, 2);
        assert(seq![first].drop_last() =~= Seq::empty());
        assert(Seq::<SpecContact>::empty().push(first) =~= seq![first]);
    }
    assert(resolved(seq![first], start) == resolve_one(start, first)) by {
        reveal_with_fuel(Seq::fold_left, 2);
        assert(seq![first].drop_last() =~= Seq::empty());
        assert(seq![first].last() == first);
    }
}

/// Resolution ends the penetration of one box into another, on the models of
/// boxes of a size that a box can have.
proof fn lemma_boxes_separate(a: SpecRect, b: SpecRect, pos: SpecVec2)
    requires
        a.w <= u16::MAX && a.h <= u16::MAX,
        b.w <= u16::MAX && b.h <= u16::MAX,
        a.overlap(b) is Some,
        sticks_out_toward(a, b, pos),
        pos.plus(box_contact(a, b, a.overlap(b).unwrap()).correction(pos)).in_range(),
    ensures
        separated(a, b, pos),
{
    lemma_step_resolves_one(a, b, pos);
    let after = after_step(a, b, pos);
    let moved = a.translate(after.minus(pos));
    lemma_step_resolves_one(moved, b, after);
}

/// Resolution ends the penetration of a box into a tile. Let box `a` of an
/// entity at `pos` overlap the tile `b`, sticking out of it towards `pos`,
/// and let the corrected position lie within the coordinate range. Once the
/// one contact is resolved, the box only touches the tile, and to gather, to
/// put in order and to resolve once more moves nothing.
///
/// The same does not hold of circles: their penetration approximates, and
/// what is left after one resolution may still overlap.
pub proof fn lemma_resolve_separates(a: Rect, b: Rect, pos: Vec2)
    requires
        a@.overlap(b@) is Some,
        sticks_out_toward(a@, b@, pos@),
        pos@.plus(box_contact(a@, b@, a@.overlap(b@).unwrap()).correction(pos@)).in_range(),
    ensures
        separated(a@, b@, pos@),
{
    lemma_boxes_separate(a@, b@, pos@);
}

/// Whether, along the axis of least penetration, box `a` lies within box `b`
/// with room on both sides.
pub open spec fn inside_along_least_axis(a: SpecRect, b: SpecRect) -> bool {
    if a.overlap_x(b) < a.overlap_y(b) {
        b.x < a.x && a.right() < b.right()
    } else {
        b.y < a.y && a.bottom() < b.bottom()
    }
}

/// Resolution pushes an entity out of a tile. Let the collision box of an
/// entity overlap a tile of the grid, not lying within the tile along the
/// axis of least penetration, and let the entity be a tile away from the ends
/// of the coordinate range. Once the one contact is resolved, the box of the
/// entity only touches the tile.
pub proof fn lemma_entity_pushed_out(e: Entity, tile: Rect)
    requires
        tile.w == TILE_SZ,
        tile.h == TILE_SZ,
        i32::MIN + TILE_SZ <= e.pos.x <= i32::MAX - TILE_SZ,
        i32::MIN + TILE_SZ <= e.pos.y <= i32::MAX - TILE_SZ,
        e@.rect().overlap(tile@) is Some,
        !inside_along_least_axis(e@.rect(), tile@),
    ensures
        sticks_out_toward(e@.rect(), tile@, e.pos@),
        separated(e@.rect(), tile@, e.pos@),
{
    lemma_boxes_separate(e@.rect(), tile@, e.pos@);
}

} // verus!
