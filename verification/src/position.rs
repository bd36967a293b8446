//! Linear 0..9 index used for addressing inside any 3x3 grid level.

use vstd::prelude::*;

verus! {

/// A position inside a 3x3 grid: a linear index 0..9 with `x = index % 3`
/// and `y = index / 3`. The same addressing is used for cells inside a leaf
/// board and for leaf boards inside the meta board.
#[derive(Clone, Copy, PartialEq, Eq, Structural, Debug)]
pub struct FieldPosition(usize);

impl View for FieldPosition {
    type V = int;

    closed spec fn view(&self) -> int {
        self.0 as int
    }
}

impl FieldPosition {
    /// Every position's linear index lies below nine.
    #[verifier::type_invariant]
    pub closed spec fn inv(self) -> bool {
        self.0 < 9
    }

    /// What the invariant says of the model.
    pub proof fn lemma_inv_bound(self)
        requires
            self.inv(),
        ensures
            0 <= self@ < 9,
    {
    }

    /// The position with the given linear index.
    pub fn from_index(index: usize) -> (r: Self)
        requires
            index < 9,
        ensures
            r@ == index,
    {
        FieldPosition(index)
    }

    /// The position at column `x`, row `y`.
    pub fn from_xy(x: usize, y: usize) -> (r: Self)
        requires
            x < 3,
            y < 3,
        ensures
            r@ == x + y * 3,
    {
        FieldPosition(x + y * 3)
    }

    /// The linear index, always below 9.
    pub fn index(self) -> (r: usize)
        ensures
            r == self@,
            r < 9,
    {
        proof {
            use_type_invariant(self);
        }
        self.0
    }

    /// The column, `index % 3`.
    pub fn x(self) -> (r: usize)
        ensures
            r == self@ % 3,
    {
        self.0 % 3
    }

    /// The row, `index / 3`.
    pub fn y(self) -> (r: usize)
        ensures
            r == self@ / 3,
    {
        self.0 / 3
    }

    /// All nine positions, in ascending index order.
    pub fn all() -> (r: Vec<FieldPosition>)
        ensures
            r@.len() == 9,
            forall|i: int| 0 <= i < 9 ==> #[trigger] r@[i]@ == i,
    {
        let mut v: Vec<FieldPosition> = Vec::new();
        let mut k: usize = 0;
        while k < 9
            invariant
                k <= 9,
                v@.len() == k,
                forall|i: int| 0 <= i < k ==> #[trigger] v@[i]@ == i,
            decreases 9 - k,
        {
            v.push(FieldPosition(k));
            k = k + 1;
        }
        v
    }
}

} // verus!
