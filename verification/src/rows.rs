//! Sequences of rows and what flattening makes of them.

use vstd::prelude::*;

verus! {

/// Where an element of a flattened sequence comes from: the row and the place
/// in the row.
pub proof fn lemma_flatten_origin<A>(rows: Seq<Seq<A>>, k: int) -> (at: (int, int))
    requires
        0 <= k < rows.flatten().len(),
    ensures
        0 <= at.0 < rows.len(),
        0 <= at.1 < rows[at.0].len(),
        rows.flatten()[k] == rows[at.0][at.1],
    decreases rows.len(),
{
    if rows.len() == 0 {
        (0, 0)
    } else {
        let front = rows.drop_last();
        assert(rows =~= front.push(rows.last()));
        front.lemma_flatten_push(rows.last());
        if k < front.flatten().len() {
            let at = lemma_flatten_origin(front, k);
            at
        } else {
            (rows.len() - 1, k - front.flatten().len())
        }
    }
}

/// Every element of every row is in the flattened sequence.
pub proof fn lemma_flatten_holds<A>(rows: Seq<Seq<A>>, i: int, j: int)
    requires
        0 <= i < rows.len(),
        0 <= j < rows[i].len(),
    ensures
        rows.flatten().contains(rows[i][j]),
    decreases rows.len(),
{
    let front = rows.drop_last();
    assert(rows =~= front.push(rows.last()));
    front.lemma_flatten_push(rows.last());
    if i < rows.len() - 1 {
        lemma_flatten_holds(front, i, j);
        let k = choose|k: int| 0 <= k < front.flatten().len() && front.flatten()[k] == rows[i][j];
        assert(rows.flatten()[k] == rows[i][j]);
    } else {
        assert(rows.flatten()[front.flatten().len() + j] == rows[i][j]);
    }
}

/// Flattening keeps the order: of two elements of the flattened sequence, the
/// earlier comes from an earlier row, or from an earlier place in the same row.
pub proof fn lemma_flatten_order<A>(rows: Seq<Seq<A>>, k: int, l: int) -> (at: (
    (int, int),
    (int, int),
))
    requires
        0 <= k < l < rows.flatten().len(),
    ensures
        0 <= at.0.0 < rows.len(),
        0 <= at.0.1 < rows[at.0.0].len(),
        rows.flatten()[k] == rows[at.0.0][at.0.1],
        0 <= at.1.0 < rows.len(),
        0 <= at.1.1 < rows[at.1.0].len(),
        rows.flatten()[l] == rows[at.1.0][at.1.1],
        at.0.0 < at.1.0 || (at.0.0 == at.1.0 && at.0.1 < at.1.1),
    decreases rows.len(),
{
    if rows.len() == 0 {
        ((0, 0), (0, 0))
    } else {
        let front = rows.drop_last();
        let before = front.flatten().len() as int;
        assert(rows =~= front.push(rows.last()));
        front.lemma_flatten_push(rows.last());
        if l < before {
            lemma_flatten_order(front, k, l)
        } else if k < before {
            (lemma_flatten_origin(front, k), (rows.len() - 1, l - before))
        } else {
            ((rows.len() - 1, k - before), (rows.len() - 1, l - before))
        }
    }
}

/// Rows of one length, flattened, hold as many elements as rows times that
/// length.
pub proof fn lemma_flatten_even<A>(rows: Seq<Seq<A>>, n: nat)
    requires
        forall|i: int| 0 <= i < rows.len() ==> (#[trigger] rows[i]).len() == n,
    ensures
        rows.flatten().len() == rows.len() * n,
    decreases rows.len(),
{
    if rows.len() == 0 {
        assert(rows.flatten() =~= Seq::empty());
        assert(0 * n == 0);
    } else {
        let front = rows.drop_last();
        assert(rows =~= front.push(rows.last()));
        front.lemma_flatten_push(rows.last());
        lemma_flatten_even(front, n);
        assert(front.len() * n + n == rows.len() * n) by (nonlinear_arith)
            requires
                front.len() + 1 == rows.len(),
        ;
    }
}

/// Where an element of a row stands once rows of one length are flattened.
pub proof fn lemma_flatten_index<A>(rows: Seq<Seq<A>>, n: nat, i: int, j: int)
    requires
        forall|k: int| 0 <= k < rows.len() ==> (#[trigger] rows[k]).len() == n,
        0 <= i < rows.len(),
        0 <= j < n,
    ensures
        0 <= i * n + j < rows.flatten().len(),
        rows.flatten()[i * n + j] == rows[i][j],
    decreases rows.len(),
{
    let front = rows.drop_last();
    assert(rows =~= front.push(rows.last()));
    front.lemma_flatten_push(rows.last());
    lemma_flatten_even(front, n);
    lemma_flatten_even(rows, n);
    if i < rows.len() - 1 {
        lemma_flatten_index(front, n, i, j);
    } else {
        assert(i * n == front.len() * n);
    }
    assert(0 <= i * n + j < rows.len() * n) by (nonlinear_arith)
        requires
            0 <= i < rows.len(),
            0 <= j < n,
    ;
}

} // verus!
