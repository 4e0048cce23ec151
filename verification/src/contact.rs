//! Contacts between shapes, and the gathering of all contacts between two
//! collections of shapes.

use vstd::prelude::*;
use crate::geom::{Shape, SpecShape, SpecVec2, Vec2};
use crate::rows::{lemma_flatten_holds, lemma_flatten_order, lemma_flatten_origin};

verus! {

/// Model of a [`Contact`].
pub struct SpecContact {
    pub a_i: int,
    pub a_r: SpecShape,
    pub b_i: int,
    pub b_r: SpecShape,
    pub displacement: SpecVec2,
}

/// One overlapping pair, found in one step and dropped after it: the index
/// and the shape of each of the two, and their penetration.
#[derive(Clone, Copy, PartialEq, Eq, Structural, Debug)]
pub struct Contact {
    pub a_i: usize,
    pub a_r: Shape,
    pub b_i: usize,
    pub b_r: Shape,
    pub displacement: Vec2,
}

impl View for Contact {
    type V = SpecContact;

    open spec fn view(&self) -> SpecContact {
        SpecContact {
            a_i: self.a_i as int,
            a_r: self.a_r@,
            b_i: self.b_i as int,
            b_r: self.b_r@,
            displacement: self.displacement@,
        }
    }
}

/// Models of the shapes of a sequence, in order.
pub open spec fn shapes_view(s: Seq<Shape>) -> Seq<SpecShape> {
    s.map_values(|x: Shape| x@)
}

/// Models of the contacts of a sequence, in order.
pub open spec fn contacts_view(s: Seq<Contact>) -> Seq<SpecContact> {
    s.map_values(|c: Contact| c@)
}

/// Whether each contact of `contacts` names, as its first shape, an index
/// below `len`.
pub open spec fn first_indices_below(contacts: Seq<SpecContact>, len: int) -> bool {
    forall|k: int| 0 <= k < contacts.len() ==> 0 <= (#[trigger] contacts[k]).a_i < len
}

/// Whether each contact of `contacts` names, as its second shape, an index
/// below `len`.
pub open spec fn second_indices_below(contacts: Seq<SpecContact>, len: int) -> bool {
    forall|k: int| 0 <= k < contacts.len() ==> 0 <= (#[trigger] contacts[k]).b_i < len
}

/// The contact of shape `sa`, found at index `i`, with shape `sb`, found at
/// index `j`, if the two overlap.
pub open spec fn pair_contact(i: int, sa: SpecShape, j: int, sb: SpecShape) -> Option<SpecContact> {
    match sa.overlap(sb) {
        Some(d) => Some(SpecContact { a_i: i, a_r: sa, b_i: j, b_r: sb, displacement: d }),
        None => None,
    }
}

/// What shape `sa`, found at index `i`, gives against each shape of `b`, in
/// the order of `b`.
pub open spec fn pair_row(i: int, sa: SpecShape, b: Seq<SpecShape>) -> Seq<Option<SpecContact>> {
    b.map(|j: int, sb: SpecShape| pair_contact(i, sa, j, sb))
}

/// The contacts among a sequence of candidates, in order.
pub open spec fn present(row: Seq<Option<SpecContact>>) -> Seq<SpecContact> {
    row.filter_map(|c: Option<SpecContact>| c)
}

/// For each shape of `a`, in order, its contacts with the shapes of `b`.
pub open spec fn contact_rows(a: Seq<SpecShape>, b: Seq<SpecShape>) -> Seq<Seq<SpecContact>> {
    a.map(|i: int, sa: SpecShape| present(pair_row(i, sa, b)))
}

/// All contacts between the shapes of `a` and those of `b`: one for every
/// pair that overlaps, ordered by the index in `a` and then by the index in
/// `b`.
pub open spec fn gathered(a: Seq<SpecShape>, b: Seq<SpecShape>) -> Seq<SpecContact> {
    contact_rows(a, b).flatten()
}

/// Finds every overlapping pair across the two collections. Each contact
/// holds the indices of its two shapes in `objs_a` and `objs_b`. A collection
/// given twice meets itself too: a shape that is not empty overlaps itself.
pub fn gather_contacts(objs_a: &Vec<Shape>, objs_b: &Vec<Shape>) -> (contacts: Vec<Contact>)
    ensures
        contacts_view(contacts@) == gathered(shapes_view(objs_a@), shapes_view(objs_b@)),
        first_indices_below(contacts_view(contacts@), objs_a.len() as int),
        second_indices_below(contacts_view(contacts@), objs_b.len() as int),
{
    let ghost a = shapes_view(objs_a@);
    let ghost b = shapes_view(objs_b@);
    let ghost rows = contact_rows(a, b);
    let mut contacts: Vec<Contact> = Vec::new();
    let mut a_idx: usize = 0;
    proof {
        assert(rows.take(0) == Seq::<Seq<SpecContact>>::empty());
        assert(contacts_view(contacts@) == Seq::<SpecContact>::empty());
    }
    while a_idx < objs_a.len()
        invariant
            a_idx <= objs_a.len(),
            a == shapes_view(objs_a@),
            b == shapes_view(objs_b@),
            rows == contact_rows(a, b),
            contacts_view(contacts@) == rows.take(a_idx as int).flatten(),
        decreases objs_a.len() - a_idx,
    {
        let a_shape = objs_a[a_idx];
        let ghost row = pair_row(a_idx as int, a_shape@, b);
        let ghost before = rows.take(a_idx as int).flatten();
        let mut b_idx: usize = 0;
        proof {
            assert(row.take(0) == Seq::<Option<SpecContact>>::empty());
            assert(before + present(row.take(0)) == before);
        }
        while b_idx < objs_b.len()
            invariant
                b_idx <= objs_b.len(),
                b == shapes_view(objs_b@),
                row == pair_row(a_idx as int, a_shape@, b),
                contacts_view(contacts@) == before + present(row.take(b_idx as int)),
            decreases objs_b.len() - b_idx,
        {
            let b_shape = objs_b[b_idx];
            proof {
                row.lemma_filter_map_take_succ(|c: Option<SpecContact>| c, b_idx as int);
                assert(row[b_idx as int] == pair_contact(
                    a_idx as int,
                    a_shape@,
                    b_idx as int,
                    b_shape@,
                ));
            }
            if let Some(overlap) = a_shape.overlap(b_shape) {
                let contact = Contact {
                    a_i: a_idx,
                    a_r: a_shape,
                    b_i: b_idx,
                    b_r: b_shape,
                    displacement: overlap,
                };
                proof {
                    assert(contacts_view(contacts@.push(contact)) == contacts_view(
                        contacts@,
                    ).push(contact@));
                }
                contacts.push(contact);
            }
            b_idx += 1;
        }
        proof {
            assert(row.take(objs_b.len() as int) == row);
            assert(rows[a_idx as int] == present(row));
            assert(rows.take(a_idx as int + 1) == rows.take(a_idx as int).push(rows[a_idx as int]));
            rows.take(a_idx as int).lemma_flatten_push(rows[a_idx as int]);
        }
        a_idx += 1;
    }
    proof {
        assert(rows.take(objs_a.len() as int) == rows);
        lemma_gathered_sound(a, b);
    }
    contacts
}

/// Each contact among the candidates is one of the candidates.
pub proof fn lemma_present_origin(row: Seq<Option<SpecContact>>, k: int) -> (j: int)
    requires
        0 <= k < present(row).len(),
    ensures
        0 <= j < row.len(),
        row[j] == Some(present(row)[k]),
{
    let c = present(row)[k];
    assert(present(row).contains(c));
    row.lemma_filter_map_contains(|c: Option<SpecContact>| c, c);
    let t = choose|t: Option<SpecContact>| #[trigger]
        row.contains(t) && (|c: Option<SpecContact>| c)(t) == Some(c);
    let j = choose|j: int| 0 <= j < row.len() && row[j] == t;
    j
}

/// Each candidate that is a contact is among the contacts.
pub proof fn lemma_present_holds(row: Seq<Option<SpecContact>>, j: int)
    requires
        0 <= j < row.len(),
        row[j] is Some,
    ensures
        present(row).contains(row[j].unwrap()),
    decreases row.len(),
{
    let front = row.drop_last();
    let before = present(front);
    if j < row.len() - 1 {
        lemma_present_holds(front, j);
        let k = choose|k: int| 0 <= k < before.len() && before[k] == row[j].unwrap();
        assert(present(row)[k] == row[j].unwrap());
    } else {
        assert(present(row)[before.len() as int] == row[j].unwrap());
    }
}

/// Whether `c` is the contact of two shapes of `a` and `b` that overlap: it
/// names their indices, holds their shapes, and its displacement is their
/// penetration.
pub open spec fn is_contact_of(c: SpecContact, a: Seq<SpecShape>, b: Seq<SpecShape>) -> bool {
    &&& 0 <= c.a_i < a.len()
    &&& 0 <= c.b_i < b.len()
    &&& pair_contact(c.a_i, a[c.a_i], c.b_i, b[c.b_i]) == Some(c)
}

/// Every contact gathered is the contact of two shapes that overlap, found
/// at the indices that it names.
pub proof fn lemma_gathered_sound(a: Seq<SpecShape>, b: Seq<SpecShape>)
    ensures
        forall|k: int|
            0 <= k < gathered(a, b).len() ==> is_contact_of(#[trigger] gathered(a, b)[k], a, b),
        first_indices_below(gathered(a, b), a.len() as int),
        second_indices_below(gathered(a, b), b.len() as int),
{
    assert forall|k: int| 0 <= k < gathered(a, b).len() implies is_contact_of(
        #[trigger] gathered(a, b)[k],
        a,
        b,
    ) by {
        let (i, at) = lemma_flatten_origin(contact_rows(a, b), k);
        let j = lemma_present_origin(pair_row(i, a[i], b), at);
    }
}

/// Every pair of shapes that overlap has its contact among those gathered.
pub proof fn lemma_gathered_complete(a: Seq<SpecShape>, b: Seq<SpecShape>, i: int, j: int)
    requires
        0 <= i < a.len(),
        0 <= j < b.len(),
        a[i].overlap(b[j]) is Some,
    ensures
        gathered(a, b).contains(pair_contact(i, a[i], j, b[j]).unwrap()),
{
    let row = pair_row(i, a[i], b);
    lemma_present_holds(row, j);
    let c = row[j].unwrap();
    let at = choose|at: int| 0 <= at < present(row).len() && present(row)[at] == c;
    lemma_flatten_holds(contact_rows(a, b), i, at);
}

/// One shape against one shape gives their contact, if they overlap, and
/// nothing else.
pub proof fn lemma_gathered_pair(sa: SpecShape, sb: SpecShape)
    ensures
        gathered(seq![sa], seq![sb]) == match pair_contact(0, sa, 0, sb) {
            Some(c) => seq![c],
            None => Seq::empty(),
        },
{
    let row = pair_row(0, sa, seq![sb]);
    let rows = contact_rows(seq![sa], seq![sb]);
    assert(row =~= seq![pair_contact(0, sa, 0, sb)]);
    assert(present(row) =~= match pair_contact(0, sa, 0, sb) {
        Some(c) => seq![c],
        None => Seq::empty(),
    }) by {
        reveal_with_fuel(Seq::filter_map, 2);
        assert(row.drop_last() =~= Seq::empty());
    }
    assert(rows =~= seq![present(row)]);
    assert(rows.flatten() =~= present(row)) by {
        reveal_with_fuel(Seq::flatten, 2);
        assert(rows.drop_first() =~= Seq::empty());
    }
}

/// The contacts among the candidates stand in the order of the candidates.
pub proof fn lemma_present_order(row: Seq<Option<SpecContact>>, k: int, l: int) -> (at: (int, int))
    requires
        0 <= k < l < present(row).len(),
    ensures
        0 <= at.0 < at.1 < row.len(),
        row[at.0] == Some(present(row)[k]),
        row[at.1] == Some(present(row)[l]),
    decreases row.len(),
{
    if row.len() == 0 {
        (0, 0)
    } else {
        let front = row.drop_last();
        let before = present(front).len() as int;
        if l < before {
            let at = lemma_present_order(front, k, l);
            assert(present(row)[k] == present(front)[k]);
            assert(present(row)[l] == present(front)[l]);
            at
        } else {
            let j = lemma_present_origin(front, k);
            assert(present(row)[k] == present(front)[k]);
            (j, row.len() - 1)
        }
    }
}

/// The contacts gathered are ordered by the index of the first shape, and
/// those of one first shape by the index of the second.
pub proof fn lemma_gathered_ordered(a: Seq<SpecShape>, b: Seq<SpecShape>, k: int, l: int)
    requires
        0 <= k < l < gathered(a, b).len(),
    ensures
        gathered(a, b)[k].a_i < gathered(a, b)[l].a_i || (gathered(a, b)[k].a_i == gathered(
            a,
            b,
        )[l].a_i && gathered(a, b)[k].b_i < gathered(a, b)[l].b_i),
{
    let ((row_k, place_k), (row_l, place_l)) = lemma_flatten_order(contact_rows(a, b), k, l);
    if row_k < row_l {
        let from_k = lemma_present_origin(pair_row(row_k, a[row_k], b), place_k);
        let from_l = lemma_present_origin(pair_row(row_l, a[row_l], b), place_l);
    } else {
        let (from_k, from_l) = lemma_present_order(pair_row(row_k, a[row_k], b), place_k, place_l);
    }
}

} // verus!
