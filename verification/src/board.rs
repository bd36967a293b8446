//! The composite 3x3 board model: player marks, the slot capability shared
//! by cells and whole boards, and the generic grid with cached derived
//! state (decided winner, any-move-left) recomputed on every mutation.

use crate::position::FieldPosition;
use vstd::prelude::*;

verus! {

/// The two-value player identity.
#[derive(Clone, Copy, PartialEq, Eq, Structural, Debug)]
pub enum Mark {
    Cross,
    Circle,
}

impl Mark {
    /// The opposite player.
    pub open spec fn other_spec(self) -> Mark {
        match self {
            Mark::Cross => Mark::Circle,
            Mark::Circle => Mark::Cross,
        }
    }

    /// Toggles to the other player.
    pub fn other(&self) -> (r: Mark)
        ensures
            r == self.other_spec(),
    {
        match self {
            Mark::Cross => Mark::Circle,
            Mark::Circle => Mark::Cross,
        }
    }
}

/// The capability shared by a single cell and by a whole board: who owns
/// it (if decided), whether it still admits a move, and an empty value.
pub trait Slot: Sized {
    /// The owner, if decided.
    spec fn owner_spec(&self) -> Option<Mark>;

    /// Whether the slot still admits a move.
    spec fn free_spec(&self) -> bool;

    /// Internal consistency: cached derived state agrees with the contents.
    spec fn wf(&self) -> bool;

    /// Whether every contained value is at its empty state.
    spec fn all_empty_spec(&self) -> bool;

    /// Who owns this slot, if decided.
    fn belongs_to(&self) -> (r: Option<Mark>)
        ensures
            r == self.owner_spec(),
    ;

    /// Whether this slot still admits a move.
    fn has_free(&self) -> (r: bool)
        ensures
            r == self.free_spec(),
    ;

    /// The empty value: no owner, open to a move.
    fn empty() -> (r: Self)
        ensures
            r.wf(),
            r.owner_spec() is None,
            r.free_spec(),
            r.all_empty_spec(),
    ;
}

/// A single cell holds the mark placed in it, if any.
impl Slot for Option<Mark> {
    open spec fn owner_spec(&self) -> Option<Mark> {
        *self
    }

    open spec fn free_spec(&self) -> bool {
        *self is None
    }

    open spec fn wf(&self) -> bool {
        true
    }

    open spec fn all_empty_spec(&self) -> bool {
        *self is None
    }

    fn belongs_to(&self) -> (r: Option<Mark>) {
        *self
    }

    fn has_free(&self) -> (r: bool) {
        self.is_none()
    }

    fn empty() -> (r: Self) {
        None
    }
}

/// The cell index of the `k`-th cell of line `l`. The eight lines stand in
/// the precedence order that win detection uses: main diagonal, anti
/// diagonal, rows top to bottom, then columns left to right.
pub open spec fn line_cell(l: int, k: int) -> int {
    seq![0int, 4, 8, 2, 4, 6, 0, 1, 2, 3, 4, 5, 6, 7, 8, 0, 3, 6, 1, 4, 7, 2, 5, 8][l * 3 + k]
}

/// What line `l` contributes: the shared owner value when its three cells
/// agree (which may be `None`), else `None`.
pub open spec fn line_owner(owners: Seq<Option<Mark>>, l: int) -> Option<Mark> {
    if owners[line_cell(l, 0)] == owners[line_cell(l, 1)] && owners[line_cell(l, 1)]
        == owners[line_cell(l, 2)] {
        owners[line_cell(l, 0)]
    } else {
        None
    }
}

/// The first mark at or after line `l` on which a whole line agrees.
pub open spec fn owner_from(owners: Seq<Option<Mark>>, l: int) -> Option<Mark>
    decreases 8 - l,
{
    if l < 0 || l >= 8 {
        None
    } else if line_owner(owners, l) is Some {
        line_owner(owners, l)
    } else {
        owner_from(owners, l + 1)
    }
}

/// The decided winner over a seq of nine slot owners: the mark on the
/// first uniformly owned line in precedence order, or `None`.
pub open spec fn seq_owner(owners: Seq<Option<Mark>>) -> Option<Mark> {
    owner_from(owners, 0)
}

/// The first of two optional owners, as the win-detection chain combines
/// line results.
pub open spec fn opt_or(a: Option<Mark>, b: Option<Mark>) -> Option<Mark> {
    if a is Some {
        a
    } else {
        b
    }
}

/// The owners of a seq of slots.
pub open spec fn grid_owners<S: Slot>(s: Seq<S>) -> Seq<Option<Mark>> {
    Seq::new(9, |i: int| s[i].owner_spec())
}

/// An ordered 3x3 composite of nine slots of one kind, addressed by
/// `FieldPosition`, plus two cached derived fields recomputed on every
/// mutation: the decided winner and whether any contained slot is free.
#[derive(Clone, Copy, Debug)]
pub struct Grid<S> {
    slots: [S; 9],
    finished: Option<Mark>,
    has_free: bool,
}

/// A leaf board: a 3x3 grid of single cells.
pub type Field = Grid<Option<Mark>>;

/// The meta board: a 3x3 grid of leaf boards.
pub type LargeField = Grid<Field>;

impl<S> Grid<S> {
    /// The nine slots, by linear index.
    pub closed spec fn slots_seq(&self) -> Seq<S> {
        self.slots@
    }

    /// The cached decided winner.
    pub closed spec fn finished_spec(&self) -> Option<Mark> {
        self.finished
    }

    /// The cached flag: some contained slot is still free.
    pub closed spec fn free_flag_spec(&self) -> bool {
        self.has_free
    }
}

impl<S: Slot> Grid<S> {
    /// The slot at `pos`.
    pub fn get(&self, pos: FieldPosition) -> (r: &S)
        ensures
            *r == self.slots_seq()[pos@],
            0 <= pos@ < 9,
    {
        &self.slots[pos.index()]
    }

    /// The owner of the row `row`, if it is decided by that row.
    fn row_finished(&self, row: usize) -> (r: Option<Mark>)
        requires
            row < 3,
        ensures
            r == line_owner(grid_owners(self.slots_seq()), 2 + row),
    {
        let a = self.slots[row * 3].belongs_to();
        let b = self.slots[row * 3 + 1].belongs_to();
        let c = self.slots[row * 3 + 2].belongs_to();
        if mark_opt_eq(a, b) && mark_opt_eq(b, c) {
            a
        } else {
            None
        }
    }

    /// The owner of the column `column`, if it is decided by that column.
    fn column_finished(&self, column: usize) -> (r: Option<Mark>)
        requires
            column < 3,
        ensures
            r == line_owner(grid_owners(self.slots_seq()), 5 + column),
    {
        let a = self.slots[column].belongs_to();
        let b = self.slots[column + 3].belongs_to();
        let c = self.slots[column + 6].belongs_to();
        if mark_opt_eq(a, b) && mark_opt_eq(b, c) {
            a
        } else {
            None
        }
    }

    /// The owner decided by either diagonal, the main one taking precedence.
    fn diagonal_finished(&self) -> (r: Option<Mark>)
        ensures
            r == opt_or(
                line_owner(grid_owners(self.slots_seq()), 0),
                line_owner(grid_owners(self.slots_seq()), 1),
            ),
    {
        let s0 = self.slots[0].belongs_to();
        let s2 = self.slots[2].belongs_to();
        let s4 = self.slots[4].belongs_to();
        let s6 = self.slots[6].belongs_to();
        let s8 = self.slots[8].belongs_to();
        if (mark_opt_eq(s0, s4) && mark_opt_eq(s4, s8)) || (mark_opt_eq(s2, s4) && mark_opt_eq(
            s4,
            s6,
        )) {
            self.slots[4].belongs_to()
        } else {
            None
        }
    }

    /// Recomputes both cached derived fields from the current slots.
    fn calc_finished(&mut self)
        ensures
            final(self).slots_seq() == old(self).slots_seq(),
            final(self).finished_spec() == seq_owner(grid_owners(final(self).slots_seq())),
            final(self).free_flag_spec() == (exists|i: int|
                0 <= i < 9 && (#[trigger] final(self).slots_seq()[i]).free_spec()),
    {
        let finished = first_owner(
            self.diagonal_finished(),
            first_owner(
                self.row_finished(0),
                first_owner(
                    self.row_finished(1),
                    first_owner(
                        self.row_finished(2),
                        first_owner(
                            self.column_finished(0),
                            first_owner(self.column_finished(1), self.column_finished(2)),
                        ),
                    ),
                ),
            ),
        );
        proof {
            reveal_with_fuel(owner_from, 9);
        }
        self.finished = finished;
        let mut free = false;
        let mut i: usize = 0;
        while i < 9
            invariant
                i <= 9,
                free == (exists|j: int| 0 <= j < i && (#[trigger] self.slots@[j]).free_spec()),
            decreases 9 - i,
        {
            if self.slots[i].has_free() {
                free = true;
            }
            i = i + 1;
        }
        self.has_free = free;
    }

    /// Replaces the slot at `pos` and recomputes the cached derived state;
    /// no partial or stale state is observable between calls.
    pub fn set(&mut self, pos: FieldPosition, value: S)
        ensures
            0 <= pos@ < 9,
            final(self).slots_seq() == old(self).slots_seq().update(pos@, value),
            final(self).finished_spec() == seq_owner(grid_owners(final(self).slots_seq())),
            final(self).free_flag_spec() == (exists|i: int|
                0 <= i < 9 && (#[trigger] final(self).slots_seq()[i]).free_spec()),
            old(self).wf() && value.wf() ==> final(self).wf(),
    {
        let i = pos.index();
        self.slots[i] = value;
        self.calc_finished();
    }
}

/// Compares two optional marks for equality.
fn mark_opt_eq(a: Option<Mark>, b: Option<Mark>) -> (r: bool)
    ensures
        r == (a == b),
{
    match (a, b) {
        (None, None) => true,
        (Some(x), Some(y)) => x == y,
        _ => false,
    }
}

/// Picks the first decided owner of two line results.
fn first_owner(a: Option<Mark>, b: Option<Mark>) -> (r: Option<Mark>)
    ensures
        r == opt_or(a, b),
{
    match a {
        Some(m) => Some(m),
        None => b,
    }
}

impl<S: Slot> Slot for Grid<S> {
    open spec fn owner_spec(&self) -> Option<Mark> {
        self.finished_spec()
    }

    open spec fn free_spec(&self) -> bool {
        self.free_flag_spec() && self.finished_spec() is None
    }

    open spec fn wf(&self) -> bool {
        &&& self.slots_seq().len() == 9
        &&& forall|i: int| 0 <= i < 9 ==> (#[trigger] self.slots_seq()[i]).wf()
        &&& self.finished_spec() == seq_owner(grid_owners(self.slots_seq()))
        &&& self.free_flag_spec() == (exists|i: int|
            0 <= i < 9 && (#[trigger] self.slots_seq()[i]).free_spec())
    }

    open spec fn all_empty_spec(&self) -> bool {
        forall|i: int| 0 <= i < 9 ==> (#[trigger] self.slots_seq()[i]).all_empty_spec()
    }

    fn belongs_to(&self) -> (r: Option<Mark>) {
        self.finished
    }

    fn has_free(&self) -> (r: bool) {
        self.has_free && self.belongs_to().is_none()
    }

    fn empty() -> (r: Self) {
        let g = Grid {
            slots: [
                S::empty(),
                S::empty(),
                S::empty(),
                S::empty(),
                S::empty(),
                S::empty(),
                S::empty(),
                S::empty(),
                S::empty(),
            ],
            finished: None,
            has_free: true,
        };
        proof {
            lemma_all_none_owner(grid_owners(g.slots_seq()));
        }
        g
    }
}

/// Nine owners that are all `None` decide no winner.
pub proof fn lemma_all_none_owner(owners: Seq<Option<Mark>>)
    requires
        forall|i: int| 0 <= i < 9 ==> #[trigger] owners[i] is None,
    ensures
        seq_owner(owners) == None::<Mark>,
{
    reveal_with_fuel(owner_from, 9);
}

/// The mathematical model of a leaf board: its nine cells.
pub open spec fn leaf_view(f: Field) -> Seq<Option<Mark>> {
    f.slots_seq()
}

/// The mathematical model of the meta board: nine seqs of nine cells.
pub open spec fn meta_view(g: LargeField) -> Seq<Seq<Option<Mark>>> {
    Seq::new(9, |o: int| g.slots_seq()[o].slots_seq())
}

/// The shape every meta-board model has: nine leaf boards of nine cells.
pub open spec fn board_ok(b: Seq<Seq<Option<Mark>>>) -> bool {
    b.len() == 9 && forall|o: int| 0 <= o < 9 ==> (#[trigger] b[o]).len() == 9
}

/// Whether a leaf board still admits a move: some cell is empty and the
/// board is undecided.
pub open spec fn leaf_admits(leaf: Seq<Option<Mark>>) -> bool {
    (exists|i: int| 0 <= i < 9 && #[trigger] leaf[i] is None) && seq_owner(leaf) is None
}

/// The owners of the nine leaf boards of a meta-board model.
pub open spec fn board_owners(b: Seq<Seq<Option<Mark>>>) -> Seq<Option<Mark>> {
    Seq::new(9, |o: int| seq_owner(b[o]))
}

/// The overall winner of a meta-board model.
pub open spec fn board_owner(b: Seq<Seq<Option<Mark>>>) -> Option<Mark> {
    seq_owner(board_owners(b))
}

/// Whether any legal move remains anywhere on a meta-board model.
pub open spec fn board_admits(b: Seq<Seq<Option<Mark>>>) -> bool {
    (exists|o: int| 0 <= o < 9 && leaf_admits(#[trigger] b[o])) && board_owner(b) is None
}

/// On a well-formed leaf board the cached answers agree with the model.
pub proof fn lemma_leaf_wf(f: Field)
    requires
        f.wf(),
    ensures
        f.owner_spec() == seq_owner(leaf_view(f)),
        f.free_spec() == leaf_admits(leaf_view(f)),
        leaf_view(f).len() == 9,
{
    assert(grid_owners(f.slots_seq()) =~= f.slots_seq());
}

/// On a well-formed meta board the cached answers agree with the model,
/// level by level.
pub proof fn lemma_meta_wf(g: LargeField)
    requires
        g.wf(),
    ensures
        board_ok(meta_view(g)),
        g.owner_spec() == board_owner(meta_view(g)),
        g.free_spec() == board_admits(meta_view(g)),
        forall|o: int|
            0 <= o < 9 ==> (#[trigger] g.slots_seq()[o]).owner_spec() == seq_owner(
                meta_view(g)[o],
            ),
        forall|o: int|
            0 <= o < 9 ==> (#[trigger] g.slots_seq()[o]).free_spec() == leaf_admits(
                meta_view(g)[o],
            ),
{
    assert forall|o: int| 0 <= o < 9 implies (#[trigger] g.slots_seq()[o]).owner_spec()
        == seq_owner(meta_view(g)[o]) && g.slots_seq()[o].free_spec() == leaf_admits(
        meta_view(g)[o],
    ) by {
        lemma_leaf_wf(g.slots_seq()[o]);
    }
    assert(grid_owners(g.slots_seq()) =~= board_owners(meta_view(g)));
}

/// Reaching line `l`, whose three cells agree on a mark, while every line
/// from `j` up to it yields nothing, detects that mark.
proof fn lemma_owner_from_reaches(owners: Seq<Option<Mark>>, l: int, j: int)
    requires
        0 <= j <= l < 8,
        line_owner(owners, l) is Some,
        forall|l2: int| j <= l2 < l ==> !(#[trigger] line_owner(owners, l2) is Some),
    ensures
        owner_from(owners, j) == line_owner(owners, l),
    decreases l - j,
{
    if j < l {
        lemma_owner_from_reaches(owners, l, j + 1);
    }
}

/// Win precedence: on a board where exactly one line is uniformly owned,
/// the detected winner is that line's mark. A line is uniformly owned
/// exactly when its three cells agree on some mark, that is, when
/// `line_owner` yields that mark.
pub proof fn lemma_win_precedence(owners: Seq<Option<Mark>>, l: int, m: Mark)
    requires
        0 <= l < 8,
        line_owner(owners, l) == Some(m),
        forall|l2: int| 0 <= l2 < 8 && l2 != l ==> !(#[trigger] line_owner(owners, l2) is Some),
    ensures
        seq_owner(owners) == Some(m),
{
    lemma_owner_from_reaches(owners, l, 0);
}

/// An all-empty meta board's model holds no mark anywhere.
pub proof fn lemma_meta_all_empty(g: LargeField)
    requires
        g.all_empty_spec(),
    ensures
        forall|o: int, i: int|
            0 <= o < 9 && 0 <= i < 9 ==> #[trigger] meta_view(g)[o][i] is None,
{
    assert forall|o: int, i: int|
        0 <= o < 9 && 0 <= i < 9 implies #[trigger] meta_view(g)[o][i] is None by {
        assert(g.slots_seq()[o].all_empty_spec());
    }
}

/// Win precedence on a grid: where exactly one line of a well-formed
/// grid is uniformly owned, the grid's owner is that line's mark.
pub proof fn lemma_grid_win_precedence<S: Slot>(g: Grid<S>, l: int, m: Mark)
    requires
        g.wf(),
        0 <= l < 8,
        line_owner(grid_owners(g.slots_seq()), l) == Some(m),
        forall|l2: int|
            0 <= l2 < 8 && l2 != l ==> !(#[trigger] line_owner(grid_owners(g.slots_seq()), l2)
                is Some),
    ensures
        g.owner_spec() == Some(m),
{
    lemma_win_precedence(grid_owners(g.slots_seq()), l, m);
}

/// Decided closes the board: once a grid has an owner it admits no move,
/// whatever its slots would individually still allow.
pub proof fn lemma_decided_closes_board<S: Slot>(g: Grid<S>)
    requires
        g.owner_spec() is Some,
    ensures
        !g.free_spec(),
{
}

} // verus!
