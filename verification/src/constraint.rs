//! Boundary constraints: cells of the first row bound to declared values.

use vstd::prelude::*;

verus! {

/// The claim that the first row holds `value` in `column`.
#[derive(Clone, Copy, Debug, PartialEq, Eq, Structural)]
pub struct BoundaryConstraint {
    pub column: usize,
    pub value: u32,
}

impl BoundaryConstraint {
    /// Whether `row` has the column and holds the value there.
    pub open spec fn holds_on(&self, row: Seq<u32>) -> bool {
        self.column < row.len() && row[self.column as int] == self.value
    }
}

/// Whether `row` meets every constraint of the list.
pub open spec fn all_hold_on(constraints: Seq<BoundaryConstraint>, row: Seq<u32>) -> bool {
    forall|i: int| 0 <= i < constraints.len() ==> (#[trigger] constraints[i]).holds_on(row)
}

/// The constraints that bind the input columns of either gadget: for each
/// `i`, column `i` to `a[i]` and then column `n + i` to `b[i]`.
pub open spec fn input_bindings(a: Seq<u32>, b: Seq<u32>) -> Seq<BoundaryConstraint> {
    Seq::new(
        2 * a.len(),
        |j: int|
            if j % 2 == 0 {
                BoundaryConstraint { column: (j / 2) as usize, value: a[j / 2] }
            } else {
                BoundaryConstraint { column: (a.len() + j / 2) as usize, value: b[j / 2] }
            },
    )
}

/// A row meets the input bindings exactly when its first `2n` cells are `a`
/// followed by `b`.
pub proof fn lemma_input_bindings_hold(a: Seq<u32>, b: Seq<u32>, row: Seq<u32>)
    requires
        a.len() == b.len(),
        2 * a.len() <= row.len() <= usize::MAX,
    ensures
        all_hold_on(input_bindings(a, b), row) <==> row.subrange(0, 2 * a.len() as int) == a + b,
{
    let n = a.len() as int;
    let cs = input_bindings(a, b);
    let head = row.subrange(0, 2 * n);
    if all_hold_on(cs, row) {
        assert forall|c: int| 0 <= c < 2 * n implies head[c] == (a + b)[c] by {
            if c < n {
                assert(cs[2 * c].holds_on(row));
            } else {
                assert(cs[2 * (c - n) + 1].holds_on(row));
            }
        }
        assert(head =~= a + b);
    }
    if head == a + b {
        assert forall|i: int| 0 <= i < cs.len() implies (#[trigger] cs[i]).holds_on(row) by {
            if i % 2 == 0 {
                assert(row[i / 2] == head[i / 2]);
            } else {
                assert(row[n + i / 2] == head[n + i / 2]);
            }
        }
    }
}

/// Lists the input bindings for `a` and `b`.
pub fn bind_inputs(a: &Vec<u32>, b: &Vec<u32>) -> (constraints: Vec<BoundaryConstraint>)
    requires
        a.len() == b.len(),
        2 * a.len() <= usize::MAX,
    ensures
        constraints@ == input_bindings(a@, b@),
{
    let n: usize = a.len();
    let mut constraints: Vec<BoundaryConstraint> = Vec::new();
    let mut i: usize = 0;
    while i < n
        invariant
            i <= n,
            n == a.len(),
            n == b.len(),
            2 * n <= usize::MAX,
            constraints@ == input_bindings(a@, b@).subrange(0, 2 * i as int),
        decreases n - i,
    {
        constraints.push(BoundaryConstraint { column: i, value: a[i] });
        constraints.push(BoundaryConstraint { column: n + i, value: b[i] });
        i = i + 1;
        assert(constraints@ =~= input_bindings(a@, b@).subrange(0, 2 * i as int));
    }
    assert(constraints@ =~= input_bindings(a@, b@));
    constraints
}

/// Checks `row` against every constraint of the list.
pub fn check_boundary(constraints: &Vec<BoundaryConstraint>, row: &Vec<u32>) -> (ok: bool)
    ensures
        ok == all_hold_on(constraints@, row@),
{
    let mut i: usize = 0;
    while i < constraints.len()
        invariant
            i <= constraints.len(),
            forall|j: int| 0 <= j < i ==> (#[trigger] constraints@[j]).holds_on(row@),
        decreases constraints.len() - i,
    {
        let constraint: BoundaryConstraint = constraints[i];
        if constraint.column >= row.len() || row[constraint.column] != constraint.value {
            assert(!constraints@[i as int].holds_on(row@));
            return false;
        }
        i = i + 1;
    }
    true
}

} // verus!
