//! Move legality and turn state: whose turn it is, which leaf board is
//! forced, and the one legality-checked way the board is mutated.

use crate::board::{
    board_owner, leaf_admits, leaf_view, lemma_meta_all_empty, lemma_meta_wf, meta_view, Field,
    LargeField, Mark, Slot,
};
use crate::position::FieldPosition;
use vstd::prelude::*;

verus! {

/// Whether outer position `o` may be played into: the meta board is
/// undecided, the leaf board at `o` admits a move, and either the choice
/// is free, `o` is the forced board, or the forced board itself no longer
/// admits a move — being sent to a closed board frees the choice.
pub open spec fn outer_ok(b: Seq<Seq<Option<Mark>>>, active: Option<int>, o: int) -> bool {
    &&& board_owner(b) is None
    &&& leaf_admits(b[o])
    &&& match active {
        None => true,
        Some(a) => a == o || !leaf_admits(b[a]),
    }
}

/// Whether the full move (outer `o`, inner `i`) is legal: the outer board
/// may be played into and the chosen cell is empty.
pub open spec fn move_ok(b: Seq<Seq<Option<Mark>>>, active: Option<int>, o: int, i: int) -> bool {
    outer_ok(b, active, o) && b[o][i] is None
}

/// The board after `m` is placed at cell `i` of leaf board `o`.
pub open spec fn board_after(b: Seq<Seq<Option<Mark>>>, o: int, i: int, m: Mark) -> Seq<
    Seq<Option<Mark>>,
> {
    b.update(o, b[o].update(i, Some(m)))
}

/// The forced active board after a move at inner position `i`: board `i`
/// when it still admits a move, else a free choice.
pub open spec fn active_after(b: Seq<Seq<Option<Mark>>>, i: int) -> Option<int> {
    if leaf_admits(b[i]) {
        Some(i)
    } else {
        None
    }
}

/// The model of an optional position.
pub open spec fn opt_pos_view(p: Option<FieldPosition>) -> Option<int> {
    match p {
        Some(q) => Some(q@),
        None => None,
    }
}

/// Sent to a closed board means free choice: when the forced active board
/// no longer admits a move, exactly the leaf boards that still admit a
/// move are playable, not just the forced one.
pub proof fn lemma_closed_active_frees(b: Seq<Seq<Option<Mark>>>, a: int, o: int)
    requires
        !leaf_admits(b[a]),
    ensures
        outer_ok(b, Some(a), o) <==> (board_owner(b) is None && leaf_admits(b[o])),
{
}

/// Whether placing a mark at cell `i` of leaf board `o` is legal on this
/// board under the given forced active position.
pub fn move_playable(
    field: &LargeField,
    next_field: Option<FieldPosition>,
    o: FieldPosition,
    i: FieldPosition,
) -> (r: bool)
    requires
        field.wf(),
    ensures
        r == move_ok(meta_view(*field), opt_pos_view(next_field), o@, i@),
{
    proof {
        lemma_meta_wf(*field);
    }
    let undecided = field.belongs_to().is_none();
    let leaf_free = field.get(o).has_free();
    let allowed = match &next_field {
        None => true,
        Some(a) => a.index() == o.index() || !field.get(*a).has_free(),
    };
    let cell_free = field.get(o).get(i).is_none();
    proof {
        assert(meta_view(*field)[o@][i@] == field.slots_seq()[o@].slots_seq()[i@]);
    }
    undecided && leaf_free && allowed && cell_free
}

/// The kind of computer opponent, with its look-ahead strength in turns.
#[derive(Clone, Copy, Debug)]
pub enum Opponent {
    Ai { level: u64 },
}

/// The error returned when a requested move is not legal in the current
/// turn state.
#[derive(Clone, Copy, PartialEq, Eq, Structural, Debug)]
pub struct IllegalMove;

/// The whole turn state: the meta board, whose turn it is, the forced
/// active outer position if any, and the configured opponent.
#[derive(Clone, Copy)]
pub struct GameData {
    pub game: LargeField,
    pub next_turn: Mark,
    pub next_field: Option<FieldPosition>,
    pub opponent: Option<(Opponent, Mark)>,
}

impl GameData {
    /// Well-formedness: the board's cached state is consistent at both levels.
    pub open spec fn wf(&self) -> bool {
        self.game.wf()
    }

    /// Whose turn it is, seen from the human side: true unless the
    /// configured computer opponent holds the next turn.
    pub open spec fn my_turn_spec(&self) -> bool {
        match self.opponent {
            Some((_, m)) => m != self.next_turn,
            None => true,
        }
    }

    /// A fresh two-human-player game: an empty board, crosses begin, and
    /// the first player has a free choice of boards.
    pub fn local() -> (r: Self)
        ensures
            r.wf(),
            r.game.all_empty_spec(),
            forall|o: int, i: int|
                0 <= o < 9 && 0 <= i < 9 ==> #[trigger] meta_view(r.game)[o][i] is None,
            r.next_turn == Mark::Cross,
            r.next_field is None,
            r.opponent is None,
    {
        let game = <LargeField as Slot>::empty();
        proof {
            lemma_meta_all_empty(game);
        }
        Self { game, next_turn: Mark::Cross, next_field: None, opponent: None }
    }

    /// A fresh game against the computer: as `local`, but with a computer
    /// opponent of the given look-ahead level playing circles.
    pub fn ai(level: u64) -> (r: Self)
        ensures
            r.wf(),
            r.game.all_empty_spec(),
            forall|o: int, i: int|
                0 <= o < 9 && 0 <= i < 9 ==> #[trigger] meta_view(r.game)[o][i] is None,
            r.next_turn == Mark::Cross,
            r.next_field is None,
            r.opponent == Some(((Opponent::Ai { level }), Mark::Circle)),
    {
        let game = <LargeField as Slot>::empty();
        proof {
            lemma_meta_all_empty(game);
        }
        Self {
            game,
            next_turn: Mark::Cross,
            next_field: None,
            opponent: Some((Opponent::Ai { level }, Mark::Circle)),
        }
    }

    /// Whether it is the human side's turn.
    pub fn my_turn(&self) -> (r: bool)
        ensures
            r == self.my_turn_spec(),
    {
        match &self.opponent {
            Some((_, m)) => !(*m == self.next_turn),
            None => true,
        }
    }

    /// The computer opponent that must move now, with its look-ahead
    /// level and mark, if the next turn is its own.
    pub fn ai_turn(&self) -> (r: Option<(u64, Mark)>)
        ensures
            r == self.ai_turn_spec(),
    {
        match &self.opponent {
            Some((Opponent::Ai { level }, m)) => {
                if *m == self.next_turn {
                    Some((*level, *m))
                } else {
                    None
                }
            },
            None => None,
        }
    }

    /// The computer opponent whose turn it is, if any.
    pub open spec fn ai_turn_spec(&self) -> Option<(u64, Mark)> {
        match self.opponent {
            Some((Opponent::Ai { level }, m)) => if m == self.next_turn {
                Some((level, m))
            } else {
                None
            },
            None => None,
        }
    }

    /// Whether the leaf board at `o` may be played into right now.
    pub fn outer_playable(&self, o: FieldPosition) -> (r: bool)
        requires
            self.wf(),
        ensures
            r == outer_ok(meta_view(self.game), opt_pos_view(self.next_field), o@),
    {
        proof {
            lemma_meta_wf(self.game);
        }
        let undecided = self.game.belongs_to().is_none();
        let leaf_free = self.game.get(o).has_free();
        let allowed = match self.next_field {
            None => true,
            Some(a) => a.index() == o.index() || !self.game.get(a).has_free(),
        };
        undecided && leaf_free && allowed
    }

    /// Whether placing a mark at cell `i` of leaf board `o` is legal in
    /// the current turn state; the interactive layer uses this to gate
    /// input, and the consumer of an asynchronously delivered move uses
    /// it to re-validate before applying.
    pub fn is_cell_playable(&self, o: FieldPosition, i: FieldPosition) -> (r: bool)
        requires
            self.wf(),
        ensures
            r == move_ok(meta_view(self.game), opt_pos_view(self.next_field), o@, i@),
    {
        move_playable(&self.game, self.next_field, o, i)
    }

    /// Validates the move against the current turn state and, when it is
    /// legal, applies it: sets the cell, recomputes both board levels,
    /// toggles the turn, and redirects the next active board to the
    /// played cell's outer position, or to a free choice when that board
    /// no longer admits a move. An illegal move — in particular a stale,
    /// asynchronously delivered one — leaves the state untouched.
    pub fn apply_move(&mut self, outer: FieldPosition, inner: FieldPosition) -> (r: Result<
        (),
        IllegalMove,
    >)
        requires
            old(self).wf(),
        ensures
            final(self).wf(),
            r is Ok <==> move_ok(
                meta_view(old(self).game),
                opt_pos_view(old(self).next_field),
                outer@,
                inner@,
            ),
            r is Ok ==> meta_view(final(self).game) == board_after(
                meta_view(old(self).game),
                outer@,
                inner@,
                old(self).next_turn,
            ),
            r is Ok ==> final(self).next_turn == old(self).next_turn.other_spec(),
            r is Ok ==> opt_pos_view(final(self).next_field) == active_after(
                meta_view(final(self).game),
                inner@,
            ),
            r is Ok ==> final(self).opponent == old(self).opponent,
            r is Err ==> *final(self) == *old(self),
    {
        if self.is_cell_playable(outer, inner) {
            let mut leaf = *self.game.get(outer);
            leaf.set(inner, Some(self.next_turn));
            self.game.set(outer, leaf);
            proof {
                let target = board_after(
                    meta_view(old(self).game),
                    outer@,
                    inner@,
                    old(self).next_turn,
                );
                assert forall|o: int| 0 <= o < 9 implies meta_view(self.game)[o] =~= target[o] by {
                    assert(meta_view(self.game)[o] == self.game.slots_seq()[o].slots_seq());
                }
                assert(meta_view(self.game) =~~= target);
                lemma_meta_wf(self.game);
            }
            self.next_turn = self.next_turn.other();
            self.next_field = if self.game.get(inner).has_free() {
                Some(inner)
            } else {
                None
            };
            Ok(())
        } else {
            Err(IllegalMove)
        }
    }

    /// The consuming side of asynchronous move delivery: applies the
    /// delivered move only when it is still the computer's turn and the
    /// move is legal in the current turn state. A stale delivery — one
    /// arriving after a reset, or after the turn has moved on — is
    /// discarded and leaves the state untouched.
    pub fn deliver_ai_move(&mut self, outer: FieldPosition, inner: FieldPosition) -> (r: bool)
        requires
            old(self).wf(),
        ensures
            final(self).wf(),
            r == (old(self).ai_turn_spec() is Some && move_ok(
                meta_view(old(self).game),
                opt_pos_view(old(self).next_field),
                outer@,
                inner@,
            )),
            r ==> meta_view(final(self).game) == board_after(
                meta_view(old(self).game),
                outer@,
                inner@,
                old(self).next_turn,
            ),
            r ==> final(self).next_turn == old(self).next_turn.other_spec(),
            r ==> opt_pos_view(final(self).next_field) == active_after(
                meta_view(final(self).game),
                inner@,
            ),
            r ==> final(self).opponent == old(self).opponent,
            !r ==> *final(self) == *old(self),
    {
        if self.ai_turn().is_some() {
            match self.apply_move(outer, inner) {
                Ok(()) => true,
                Err(_) => false,
            }
        } else {
            false
        }
    }
}

/// A snapshot of one leaf board together with what the surrounding turn
/// state says about it: whose turn it is, whether this board accepts a
/// move right now, and the cell chosen on it, if any, waiting to be
/// written back.
#[derive(Clone, Copy)]
pub struct FieldMeta {
    pub field: Field,
    pub next_turn: Mark,
    pub written: Option<FieldPosition>,
    pub active: bool,
}

impl FieldMeta {
    /// Well-formedness: the snapshot's cached state is consistent.
    pub open spec fn wf(&self) -> bool {
        self.field.wf()
    }

    /// A snapshot of the leaf board at `position`: the board is active
    /// when that position may legally be played into and it is the human
    /// side's turn.
    pub fn from_data(game_data: &GameData, position: FieldPosition) -> (r: Self)
        requires
            game_data.wf(),
        ensures
            r.wf(),
            r.field == game_data.game.slots_seq()[position@],
            r.next_turn == game_data.next_turn,
            r.written is None,
            r.active == (outer_ok(
                meta_view(game_data.game),
                opt_pos_view(game_data.next_field),
                position@,
            ) && game_data.my_turn_spec()),
    {
        let active = game_data.outer_playable(position) && game_data.my_turn();
        FieldMeta {
            field: *game_data.game.get(position),
            next_turn: game_data.next_turn,
            written: None,
            active,
        }
    }

    /// Whether this board accepts a move right now.
    pub fn is_active(&self) -> (r: bool)
        ensures
            r == self.active,
    {
        self.active
    }

    /// The player whose turn it is.
    pub fn next_turn(&self) -> (r: Mark)
        ensures
            r == self.next_turn,
    {
        self.next_turn
    }

    /// The mark in the cell at `position`, if any.
    pub fn cell(&self, position: FieldPosition) -> (r: Option<Mark>)
        ensures
            r == leaf_view(self.field)[position@],
    {
        *self.field.get(position)
    }

    /// The decided winner of this leaf board, if any.
    pub fn finished(&self) -> (r: Option<Mark>)
        ensures
            r == self.field.owner_spec(),
    {
        self.field.belongs_to()
    }

    /// Records the cell to play; when the board is not active the request
    /// is ignored.
    pub fn set(&mut self, position: FieldPosition)
        ensures
            final(self).written == if old(self).active {
                Some(position)
            } else {
                old(self).written
            },
            final(self).field == old(self).field,
            final(self).next_turn == old(self).next_turn,
            final(self).active == old(self).active,
    {
        if self.active {
            self.written = Some(position);
        }
    }

    /// Writes a recorded move back into the whole game state: sets the
    /// chosen cell, stores the recomputed leaf board back into the meta
    /// board at `field_position`, toggles the turn, and redirects the
    /// next active board to the played cell's position, or frees the
    /// choice when that board no longer admits a move. Without a recorded
    /// move the state is left untouched.
    pub fn write_back(self, game_data: &mut GameData, field_position: FieldPosition)
        requires
            self.wf(),
            old(game_data).wf(),
        ensures
            final(game_data).wf(),
            self.written is None ==> *final(game_data) == *old(game_data),
            self.written matches Some(ip) ==> meta_view(final(game_data).game) == meta_view(
                old(game_data).game,
            ).update(field_position@, leaf_view(self.field).update(ip@, Some(self.next_turn))),
            self.written matches Some(ip) ==> final(game_data).next_turn == old(
                game_data,
            ).next_turn.other_spec(),
            self.written matches Some(ip) ==> opt_pos_view(final(game_data).next_field)
                == active_after(meta_view(final(game_data).game), ip@),
            self.written matches Some(ip) ==> final(game_data).opponent == old(
                game_data,
            ).opponent,
    {
        if let Some(position) = self.written {
            let mut field = self.field;
            field.set(position, Some(self.next_turn));
            game_data.game.set(field_position, field);
            proof {
                let target = meta_view(old(game_data).game).update(
                    field_position@,
                    leaf_view(self.field).update(position@, Some(self.next_turn)),
                );
                assert forall|o: int| 0 <= o < 9 implies meta_view(game_data.game)[o] =~= target[o]
                by {
                    assert(meta_view(game_data.game)[o] == game_data.game.slots_seq()[
                        o
                    ].slots_seq());
                }
                assert(meta_view(game_data.game) =~~= target);
                lemma_meta_wf(game_data.game);
            }
            game_data.next_turn = game_data.next_turn.other();
            game_data.next_field = if game_data.game.get(position).has_free() {
                Some(position)
            } else {
                None
            };
        }
    }
}

} // verus!
