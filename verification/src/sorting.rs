//! The order in which contacts are resolved: deepest penetration first.

use vstd::prelude::*;
use crate::contact::{
    contacts_view, first_indices_below, second_indices_below, Contact, SpecContact,
};

verus! {

impl SpecContact {
    /// How deep the contact is: the squared length of its penetration.
    pub open spec fn depth(self) -> int {
        self.displacement.mag_sq()
    }
}

/// No contact of the sequence is deeper than one before it.
pub open spec fn deepest_first(s: Seq<SpecContact>) -> bool {
    forall|i: int, j: int| 0 <= i < j < s.len() ==> s[i].depth() >= s[j].depth()
}

/// `s` with `c` put in behind the last contact that is at least as deep as
/// `c`, or in front when there is none. Contacts at the end of `s` that are
/// less deep than `c` come after it.
pub open spec fn insert_by_depth(s: Seq<SpecContact>, c: SpecContact) -> Seq<SpecContact>
    decreases s.len(),
{
    if s.len() > 0 && s.last().depth() < c.depth() {
        insert_by_depth(s.drop_last(), c).push(s.last())
    } else {
        s.push(c)
    }
}

/// The contacts of `s` from the deepest to the least deep. Contacts of the
/// same depth stay in the order in which `s` has them.
pub open spec fn sorted_by_depth(s: Seq<SpecContact>) -> Seq<SpecContact>
    decreases s.len(),
{
    if s.len() == 0 {
        s
    } else {
        insert_by_depth(sorted_by_depth(s.drop_last()), s.last())
    }
}

/// Where `insert_by_depth` puts a contact: at `p`, when all from `p` on are
/// less deep and the one before `p` is not.
proof fn lemma_insert_position(s: Seq<SpecContact>, c: SpecContact, p: int)
    requires
        0 <= p <= s.len(),
        forall|k: int| p <= k < s.len() ==> s[k].depth() < c.depth(),
        p == 0 || s[p - 1].depth() >= c.depth(),
    ensures
        insert_by_depth(s, c) == s.insert(p, c),
    decreases s.len() - p,
{
    if p == s.len() {
        assert(s.push(c) =~= s.insert(p, c));
    } else {
        lemma_insert_position(s.drop_last(), c, p);
        assert(s.drop_last().insert(p, c).push(s.last()) =~= s.insert(p, c));
    }
}

/// Orders the contacts for resolution: by descending squared length of the
/// penetration, contacts of equal depth keeping their order.
pub fn sort_contacts(contacts: &mut Vec<Contact>)
    ensures
        contacts_view(final(contacts)@) == sorted_by_depth(contacts_view(old(contacts)@)),
        deepest_first(contacts_view(final(contacts)@)),
        final(contacts)@.to_multiset() == old(contacts)@.to_multiset(),
        forall|len: int|
            first_indices_below(contacts_view(old(contacts)@), len)
                ==> #[trigger] first_indices_below(contacts_view(final(contacts)@), len),
        forall|len: int|
            second_indices_below(contacts_view(old(contacts)@), len)
                ==> #[trigger] second_indices_below(contacts_view(final(contacts)@), len),
{
    let ghost given = contacts_view(contacts@);
    let mut sorted: Vec<Contact> = Vec::new();
    let mut i: usize = 0;
    proof {
        assert(given.take(0) =~= Seq::empty());
        assert(contacts_view(sorted@) =~= Seq::empty());
        assert(contacts@.take(0) =~= Seq::empty());
    }
    while i < contacts.len()
        invariant
            i <= contacts.len(),
            given == contacts_view(contacts@),
            contacts_view(sorted@) == sorted_by_depth(given.take(i as int)),
            sorted@.to_multiset() == contacts@.take(i as int).to_multiset(),
        decreases contacts.len() - i,
    {
        let contact = contacts[i];
        let depth = contact.displacement.mag_sq();
        let mut p: usize = sorted.len();
        while p > 0 && sorted[p - 1].displacement.mag_sq() < depth
            invariant
                p <= sorted.len(),
                depth == contact@.depth(),
                forall|k: int|
                    p <= k < sorted.len() ==> (#[trigger] sorted@[k])@.depth() < contact@.depth(),
            decreases p,
        {
            p -= 1;
        }
        proof {
            let before = contacts_view(sorted@);
            assert forall|k: int| p <= k < before.len() implies before[k].depth()
                < contact@.depth() by {
                assert(before[k] == sorted@[k]@);
            }
            lemma_insert_position(before, contact@, p as int);
            assert(given.take(i as int + 1).drop_last() =~= given.take(i as int));
            assert(given.take(i as int + 1).last() == contact@);
            assert(contacts_view(sorted@.insert(p as int, contact)) =~= before.insert(
                p as int,
                contact@,
            ));
            vstd::seq_lib::to_multiset_insert(sorted@, p as int, contact);
            assert(contacts@.take(i as int + 1) =~= contacts@.take(i as int).push(contact));
            vstd::seq_lib::to_multiset_build(contacts@.take(i as int), contact);
        }
        sorted.insert(p, contact);
        i += 1;
    }
    proof {
        assert(given.take(contacts.len() as int) =~= given);
        assert(contacts@.take(contacts.len() as int) =~= contacts@);
        lemma_sorted_deepest_first(given);
        let after = contacts_view(sorted@);
        assert forall|len: int|
            first_indices_below(given, len) implies #[trigger] first_indices_below(after, len) by {
            lemma_sorted_keeps_indices(given, len);
        }
        assert forall|len: int|
            second_indices_below(given, len) implies #[trigger] second_indices_below(
            after,
            len,
        ) by {
            lemma_sorted_keeps_indices(given, len);
        }
    }
    *contacts = sorted;
}

/// `insert_by_depth` keeps a sequence that has the deepest first in that
/// order, and puts the new contact behind those of its own depth.
proof fn lemma_insert_deepest_first(s: Seq<SpecContact>, c: SpecContact)
    requires
        deepest_first(s),
    ensures
        deepest_first(insert_by_depth(s, c)),
        insert_by_depth(s, c).len() == s.len() + 1,
        forall|k: int|
            0 <= k < s.len() + 1 ==> #[trigger] insert_by_depth(s, c)[k] == c || s.contains(
                insert_by_depth(s, c)[k],
            ),
    decreases s.len(),
{
    let r = insert_by_depth(s, c);
    if s.len() > 0 && s.last().depth() < c.depth() {
        let front = s.drop_last();
        assert forall|i: int, j: int| 0 <= i < j < front.len() implies front[i].depth()
            >= front[j].depth() by {
            assert(front[i] == s[i] && front[j] == s[j]);
        }
        lemma_insert_deepest_first(front, c);
        let inner = insert_by_depth(front, c);
        assert forall|k: int| 0 <= k < r.len() implies #[trigger] r[k] == c || s.contains(
            r[k],
        ) by {
            if k < inner.len() {
                if inner[k] != c {
                    assert(front.contains(inner[k]));
                    let w = choose|w: int| 0 <= w < front.len() && front[w] == inner[k];
                    assert(s[w] == r[k]);
                }
            } else {
                assert(r[k] == s[s.len() - 1]);
            }
        }
        assert forall|i: int, j: int| 0 <= i < j < r.len() implies r[i].depth()
            >= r[j].depth() by {
            if j == r.len() - 1 {
                if inner[i] != c {
                    assert(front.contains(inner[i]));
                    let w = choose|w: int| 0 <= w < front.len() && front[w] == inner[i];
                    assert(s[w].depth() >= s[s.len() - 1].depth());
                }
            }
        }
    } else {
        assert forall|k: int| 0 <= k < r.len() implies #[trigger] r[k] == c || s.contains(
            r[k],
        ) by {
            if k < s.len() {
                assert(s[k] == r[k]);
            }
        }
        assert forall|i: int, j: int| 0 <= i < j < r.len() implies r[i].depth()
            >= r[j].depth() by {
            if j == r.len() - 1 {
                assert(s[i].depth() >= s[s.len() - 1].depth());
            }
        }
    }
}

/// Sorting puts the deepest contact first, and each contact that comes out
/// is one that went in.
pub proof fn lemma_sorted_deepest_first(s: Seq<SpecContact>)
    ensures
        deepest_first(sorted_by_depth(s)),
        sorted_by_depth(s).len() == s.len(),
        forall|k: int| 0 <= k < s.len() ==> s.contains(#[trigger] sorted_by_depth(s)[k]),
    decreases s.len(),
{
    if s.len() > 0 {
        let front = s.drop_last();
        let inner = sorted_by_depth(front);
        let r = sorted_by_depth(s);
        lemma_sorted_deepest_first(front);
        lemma_insert_deepest_first(inner, s.last());
        assert forall|k: int| 0 <= k < s.len() implies s.contains(#[trigger] r[k]) by {
            if r[k] == s.last() {
                assert(s[s.len() - 1] == r[k]);
            } else {
                assert(inner.contains(r[k]));
                let w = choose|w: int| 0 <= w < inner.len() && inner[w] == r[k];
                assert(front.contains(inner[w]));
                let v = choose|v: int| 0 <= v < front.len() && front[v] == r[k];
                assert(s[v] == r[k]);
            }
        }
    }
}

/// Sorting changes no contact, so the indices that the contacts name stay
/// within the bounds within which they were.
pub proof fn lemma_sorted_keeps_indices(s: Seq<SpecContact>, len: int)
    ensures
        first_indices_below(s, len) ==> first_indices_below(sorted_by_depth(s), len),
        second_indices_below(s, len) ==> second_indices_below(sorted_by_depth(s), len),
{
    lemma_sorted_deepest_first(s);
    let r = sorted_by_depth(s);
    assert forall|k: int| 0 <= k < r.len() implies s.contains(#[trigger] r[k]) by {
        assert(s.contains(sorted_by_depth(s)[k]));
    }
    if first_indices_below(s, len) {
        assert forall|k: int| 0 <= k < r.len() implies 0 <= (#[trigger] r[k]).a_i < len by {
            assert(s.contains(r[k]));
            let w = choose|w: int| 0 <= w < s.len() && s[w] == r[k];
            assert(0 <= s[w].a_i < len);
        }
    }
    if second_indices_below(s, len) {
        assert forall|k: int| 0 <= k < r.len() implies 0 <= (#[trigger] r[k]).b_i < len by {
            assert(s.contains(r[k]));
            let w = choose|w: int| 0 <= w < s.len() && s[w] == r[k];
            assert(0 <= s[w].b_i < len);
        }
    }
}

/// Sorting leaves a sequence that has the deepest first as it is.
pub proof fn lemma_sorted_unchanged(s: Seq<SpecContact>)
    requires
        deepest_first(s),
    ensures
        sorted_by_depth(s) == s,
    decreases s.len(),
{
    if s.len() > 0 {
        let front = s.drop_last();
        assert forall|i: int, j: int| 0 <= i < j < front.len() implies front[i].depth()
            >= front[j].depth() by {
            assert(front[i] == s[i] && front[j] == s[j]);
        }
        lemma_sorted_unchanged(front);
        if front.len() > 0 {
            assert(front.last() == s[s.len() - 2]);
            assert(s[s.len() - 2].depth() >= s[s.len() - 1].depth());
        }
        assert(front.push(s.last()) =~= s);
    }
}

/// Sorting is idempotent: to sort what is sorted changes nothing.
pub proof fn lemma_sort_idempotent(s: Seq<SpecContact>)
    ensures
        sorted_by_depth(sorted_by_depth(s)) == sorted_by_depth(s),
{
    lemma_sorted_deepest_first(s);
    lemma_sorted_unchanged(sorted_by_depth(s));
}

/// Whether a contact is of the given depth.
pub open spec fn of_depth(depth: int) -> spec_fn(SpecContact) -> bool {
    |c: SpecContact| c.depth() == depth
}

/// A contact put in by depth stands behind the contacts of its own depth, and
/// the order of the others among themselves is as before.
proof fn lemma_insert_stable(s: Seq<SpecContact>, c: SpecContact, depth: int)
    ensures
        insert_by_depth(s, c).filter(of_depth(depth)) == if c.depth() == depth {
            s.filter(of_depth(depth)).push(c)
        } else {
            s.filter(of_depth(depth))
        },
    decreases s.len(),
{
    reveal(Seq::filter);
    let p = of_depth(depth);
    if s.len() > 0 && s.last().depth() < c.depth() {
        let inner = insert_by_depth(s.drop_last(), c);
        lemma_insert_stable(s.drop_last(), c, depth);
        assert(inner.push(s.last()).drop_last() =~= inner);
        assert(inner.push(s.last()).last() == s.last());
    } else {
        assert(s.push(c).drop_last() =~= s);
        assert(s.push(c).last() == c);
    }
}

/// Sorting is stable: the contacts of any one depth come out in the order in
/// which they went in.
pub proof fn lemma_sorted_stable(s: Seq<SpecContact>, depth: int)
    ensures
        sorted_by_depth(s).filter(of_depth(depth)) == s.filter(of_depth(depth)),
    decreases s.len(),
{
    reveal(Seq::filter);
    if s.len() > 0 {
        lemma_sorted_stable(s.drop_last(), depth);
        lemma_insert_stable(sorted_by_depth(s.drop_last()), s.last(), depth);
    }
}

/// A contact put in by depth is one contact more, whatever its place.
proof fn lemma_insert_permutes(s: Seq<SpecContact>, c: SpecContact)
    ensures
        insert_by_depth(s, c).to_multiset() == s.to_multiset().insert(c),
    decreases s.len(),
{
    if s.len() > 0 && s.last().depth() < c.depth() {
        let front = s.drop_last();
        lemma_insert_permutes(front, c);
        vstd::seq_lib::to_multiset_build(insert_by_depth(front, c), s.last());
        vstd::seq_lib::to_multiset_build(front, s.last());
        assert(front.push(s.last()) =~= s);
        assert(front.to_multiset().insert(c).insert(s.last()) =~= front.to_multiset().insert(
            s.last(),
        ).insert(c));
    } else {
        vstd::seq_lib::to_multiset_build(s, c);
    }
}

/// Sorting permutes: what comes out holds each contact as often as what went
/// in.
pub proof fn lemma_sorted_permutes(s: Seq<SpecContact>)
    ensures
        sorted_by_depth(s).to_multiset() == s.to_multiset(),
    decreases s.len(),
{
    if s.len() > 0 {
        let front = s.drop_last();
        lemma_sorted_permutes(front);
        lemma_insert_permutes(sorted_by_depth(front), s.last());
        vstd::seq_lib::to_multiset_build(front, s.last());
        assert(front.push(s.last()) =~= s);
    }
}

/// No two contacts of the sequence are of the same depth.
pub open spec fn distinct_depths(s: Seq<SpecContact>) -> bool {
    forall|i: int, j: int| 0 <= i < j < s.len() ==> s[i].depth() != s[j].depth()
}

/// Each contact of the sequence is deeper than all that follow it.
pub open spec fn strictly_deepest_first(s: Seq<SpecContact>) -> bool {
    forall|i: int, j: int| 0 <= i < j < s.len() ==> s[i].depth() > s[j].depth()
}

/// There is one way only to put given contacts in strictly descending order.
proof fn lemma_strict_order_unique(r1: Seq<SpecContact>, r2: Seq<SpecContact>)
    requires
        strictly_deepest_first(r1),
        strictly_deepest_first(r2),
        r1.to_multiset() == r2.to_multiset(),
    ensures
        r1 == r2,
    decreases r1.len(),
{
    r1.to_multiset_ensures();
    r2.to_multiset_ensures();
    if r1.len() == 0 {
        assert(r1 =~= r2);
    } else {
        let n = r1.len() as int;
        let x = r1[n - 1];
        let y = r2[n - 1];
        assert(r1.contains(x));
        assert(r2.contains(y));
        assert(r1.to_multiset().count(x) > 0 && r2.to_multiset().count(x) > 0);
        assert(r2.to_multiset().count(y) > 0 && r1.to_multiset().count(y) > 0);
        let m = choose|m: int| 0 <= m < r2.len() && r2[m] == x;
        let k = choose|k: int| 0 <= k < r1.len() && r1[k] == y;
        if k < n - 1 {
            assert(r1[k].depth() > r1[n - 1].depth());
            if m < n - 1 {
                assert(r2[m].depth() > r2[n - 1].depth());
            }
        }
        assert(x == y);
        vstd::seq_lib::to_multiset_remove(r1, n - 1);
        vstd::seq_lib::to_multiset_remove(r2, n - 1);
        assert(r1.remove(n - 1) =~= r1.drop_last());
        assert(r2.remove(n - 1) =~= r2.drop_last());
        let f1 = r1.drop_last();
        let f2 = r2.drop_last();
        assert forall|i: int, j: int| 0 <= i < j < f1.len() implies f1[i].depth()
            > f1[j].depth() by {
            assert(f1[i] == r1[i] && f1[j] == r1[j]);
        }
        assert forall|i: int, j: int| 0 <= i < j < f2.len() implies f2[i].depth()
            > f2[j].depth() by {
            assert(f2[i] == r2[i] && f2[j] == r2[j]);
        }
        lemma_strict_order_unique(f1, f2);
        assert(r1 =~= r1.drop_last().push(x));
        assert(r2 =~= r2.drop_last().push(y));
    }
}

/// Sorted contacts of which no two are of one depth descend strictly.
proof fn lemma_sorted_strict(s: Seq<SpecContact>, r: Seq<SpecContact>)
    requires
        distinct_depths(s),
        deepest_first(r),
        r.to_multiset() == s.to_multiset(),
    ensures
        strictly_deepest_first(r),
{
    s.to_multiset_ensures();
    r.to_multiset_ensures();
    assert forall|i: int, j: int| 0 <= i < s.len() && 0 <= j < s.len() && i != j implies s[i]
        != s[j] by {
        if i < j {
            assert(s[i].depth() != s[j].depth());
        } else {
            assert(s[j].depth() != s[i].depth());
        }
    }
    s.lemma_multiset_has_no_duplicates();
    r.lemma_multiset_has_no_duplicates_conv();
    assert forall|i: int, j: int| 0 <= i < j < r.len() implies r[i].depth() > r[j].depth() by {
        assert(r.contains(r[i]) && r.contains(r[j]));
        assert(r.to_multiset().count(r[i]) > 0 && s.to_multiset().count(r[i]) > 0);
        assert(r.to_multiset().count(r[j]) > 0 && s.to_multiset().count(r[j]) > 0);
        let a = choose|a: int| 0 <= a < s.len() && s[a] == r[i];
        let b = choose|b: int| 0 <= b < s.len() && s[b] == r[j];
        assert(r[i] != r[j]);
        if a < b {
            assert(s[a].depth() != s[b].depth());
        } else {
            assert(s[b].depth() != s[a].depth());
        }
        assert(r[i].depth() >= r[j].depth());
    }
}

/// The order of resolution is determined by the set of contacts: where no two
/// contacts are of one depth, the same contacts given in any two orders sort
/// to the same sequence.
pub proof fn lemma_sort_deterministic(s1: Seq<SpecContact>, s2: Seq<SpecContact>)
    requires
        s1.to_multiset() == s2.to_multiset(),
        distinct_depths(s1),
    ensures
        sorted_by_depth(s1) == sorted_by_depth(s2),
{
    let r1 = sorted_by_depth(s1);
    let r2 = sorted_by_depth(s2);
    lemma_sorted_deepest_first(s1);
    lemma_sorted_deepest_first(s2);
    lemma_sorted_permutes(s1);
    lemma_sorted_permutes(s2);
    lemma_sorted_strict(s1, r1);
    lemma_sorted_strict(s1, r2);
    lemma_strict_order_unique(r1, r2);
}

} // verus!
