//! The game-tree search: exhaustive minimax over the meta board to a
//! caller-chosen look-ahead, with a terminal-value ordering in which
//! decisiveness strictly dominates the heuristic margin.

use crate::board::{
    board_admits, board_ok, board_owner, leaf_admits, lemma_meta_wf, meta_view, seq_owner,
    LargeField, Mark, Slot,
};
use crate::game::{active_after, board_after, move_ok, move_playable, opt_pos_view};
use crate::position::FieldPosition;
use vstd::prelude::*;

verus! {

/// The terminal value of a searched position, from the perspective of one
/// mark: whether the game there is decided for it (`Some(true)`), against
/// it (`Some(false)`), or still open, and the leaf-board ownership margin
/// used to rank open positions.
#[derive(Clone, Copy, PartialEq, Eq, Structural, Debug)]
pub struct Metrik {
    pub decided: Option<bool>,
    pub relation: i64,
}

/// The rank class of a terminal value: a decided loss below every open
/// value, every open value below a decided win.
pub open spec fn metrik_class(m: Metrik) -> int {
    match m.decided {
        Some(true) => 2,
        None => 1,
        Some(false) => 0,
    }
}

/// The strict ordering on terminal values: decisiveness first, then the
/// ownership margin.
pub open spec fn metrik_lt(a: Metrik, b: Metrik) -> bool {
    metrik_class(a) < metrik_class(b) || (metrik_class(a) == metrik_class(b) && a.relation
        < b.relation)
}

/// Compares two terminal values.
pub fn metrik_less(a: Metrik, b: Metrik) -> (r: bool)
    ensures
        r == metrik_lt(a, b),
{
    let ca = metrik_rank(a);
    let cb = metrik_rank(b);
    ca < cb || (ca == cb && a.relation < b.relation)
}

/// The rank class of a terminal value, as a machine integer.
fn metrik_rank(m: Metrik) -> (r: u8)
    ensures
        r as int == metrik_class(m),
{
    match m.decided {
        Some(true) => 2,
        None => 1,
        Some(false) => 0,
    }
}

/// Comparator sanity: a decided win ranks above every value that is not
/// a win, a decided loss below every value that is not a loss, and two
/// open values rank by their ownership margin.
pub proof fn lemma_metrik_order(a: Metrik, b: Metrik)
    ensures
        a.decided == Some(true) && b.decided != Some(true) ==> metrik_lt(b, a),
        a.decided == Some(false) && b.decided != Some(false) ==> metrik_lt(a, b),
        a.decided is None && b.decided is None ==> (metrik_lt(a, b) <==> a.relation < b.relation),
{
}

/// The comparator is a strict total order: it is irreflexive, it is
/// transitive over any three terminal values, and two values neither of
/// which ranks below the other agree in class and margin.
pub proof fn lemma_metrik_total_order(a: Metrik, b: Metrik, c: Metrik)
    ensures
        !metrik_lt(a, a),
        metrik_lt(a, b) && metrik_lt(b, c) ==> metrik_lt(a, c),
        metrik_lt(a, b) || metrik_lt(b, a) || (metrik_class(a) == metrik_class(b) && a.relation
            == b.relation),
{
}

/// The contribution of one decided leaf-board owner to the margin of `m`.
pub open spec fn mark_score(o: Option<Mark>, m: Mark) -> int {
    match o {
        Some(w) => if w == m {
            1
        } else {
            -1
        },
        None => 0,
    }
}

/// The leaf-board ownership margin of `m` over the first `k` leaf boards.
pub open spec fn relation_upto(b: Seq<Seq<Option<Mark>>>, m: Mark, k: int) -> int
    decreases k,
{
    if k <= 0 {
        0
    } else {
        relation_upto(b, m, k - 1) + mark_score(seq_owner(b[k - 1]), m)
    }
}

/// The margin over `k` leaf boards stays within `k` either way.
proof fn lemma_relation_bound(b: Seq<Seq<Option<Mark>>>, m: Mark, k: int)
    requires
        0 <= k,
    ensures
        -k <= relation_upto(b, m, k) <= k,
    decreases k,
{
    if k > 0 {
        lemma_relation_bound(b, m, k - 1);
    }
}

/// The terminal value of a board from the perspective of `m`: the
/// decided state comes from the whole board's owner, the margin counts
/// leaf boards owned by `m` minus leaf boards owned by the opponent,
/// undecided leaf boards contributing nothing.
pub open spec fn spec_metrik(b: Seq<Seq<Option<Mark>>>, m: Mark) -> Metrik {
    Metrik {
        decided: match board_owner(b) {
            Some(w) => Some(w == m),
            None => None,
        },
        relation: relation_upto(b, m, 9) as i64,
    }
}

/// Computes the terminal value of a position for `mark`.
pub fn game_state(field: &LargeField, mark: Mark) -> (r: Metrik)
    requires
        field.wf(),
    ensures
        r == spec_metrik(meta_view(*field), mark),
{
    proof {
        lemma_meta_wf(*field);
        lemma_relation_bound(meta_view(*field), mark, 9);
    }
    let decided = match field.belongs_to() {
        Some(w) => Some(w == mark),
        None => None,
    };
    let mut relation: i64 = 0;
    let mut k: usize = 0;
    while k < 9
        invariant
            k <= 9,
            field.wf(),
            relation == relation_upto(meta_view(*field), mark, k as int),
            -(k as int) <= relation <= k as int,
        decreases 9 - k,
    {
        proof {
            lemma_meta_wf(*field);
        }
        match field.get(FieldPosition::from_index(k)).belongs_to() {
            Some(w) => {
                if w == mark {
                    relation = relation + 1;
                } else {
                    relation = relation - 1;
                }
            },
            None => {},
        }
        k = k + 1;
    }
    Metrik { decided, relation }
}

/// The player from whose perspective terminal values are measured: with
/// an even remaining-ply counter the mark to move is the original mover,
/// with an odd one it is the opponent.
pub open spec fn eval_mark(mark: Mark, steps: nat) -> Mark {
    if steps % 2 == 0 {
        mark
    } else {
        mark.other_spec()
    }
}

/// Whether candidate value `v` strictly improves on `best` at a level
/// with `steps` remaining plies: an even level maximizes for the
/// original mover, an odd one minimizes.
pub open spec fn improves(steps: nat, v: Metrik, best: Metrik) -> bool {
    if steps % 2 == 0 {
        metrik_lt(best, v)
    } else {
        metrik_lt(v, best)
    }
}

/// The value the search gives the candidate move (`o`, `i`): the deeper
/// search's value when plies remain and the move leaves an open board,
/// else the terminal value of the board after the move, measured for the
/// original mover.
pub open spec fn cand_value(
    b: Seq<Seq<Option<Mark>>>,
    mark: Mark,
    steps: nat,
    o: int,
    i: int,
) -> Metrik
    decreases steps, 0nat, 0nat,
{
    let nb = board_after(b, o, i, mark);
    if steps > 0 && board_admits(nb) {
        search_fold(nb, mark.other_spec(), active_after(nb, i), (steps - 1) as nat, 81).unwrap().2
    } else {
        spec_metrik(nb, eval_mark(mark, steps))
    }
}

/// The best candidate among the first `k` of the 81 (outer, inner)
/// pairs, taken in ascending outer-then-inner order: a later candidate
/// replaces the held one only when it strictly improves on it, so ties
/// keep the earliest candidate.
pub open spec fn search_fold(
    b: Seq<Seq<Option<Mark>>>,
    mark: Mark,
    active: Option<int>,
    steps: nat,
    k: nat,
) -> Option<(int, int, Metrik)>
    decreases steps, 1nat, k,
{
    if k == 0 {
        None
    } else {
        let prev = search_fold(b, mark, active, steps, (k - 1) as nat);
        let o = (k - 1) as int / 9;
        let i = (k - 1) as int % 9;
        if move_ok(b, active, o, i) {
            let v = cand_value(b, mark, steps, o, i);
            match prev {
                None => Some((o, i, v)),
                Some(best) => if improves(steps, v, best.2) {
                    Some((o, i, v))
                } else {
                    prev
                },
            }
        } else {
            prev
        }
    }
}

/// The move and value the search returns for a position: the best
/// candidate over all 81 pairs.
pub open spec fn spec_search(
    b: Seq<Seq<Option<Mark>>>,
    mark: Mark,
    active: Option<int>,
    steps: nat,
) -> Option<(int, int, Metrik)> {
    search_fold(b, mark, active, steps, 81)
}

/// Whatever the fold holds is a legal candidate carrying its own value.
proof fn lemma_fold_legal(
    b: Seq<Seq<Option<Mark>>>,
    mark: Mark,
    active: Option<int>,
    steps: nat,
    k: nat,
)
    requires
        k <= 81,
    ensures
        search_fold(b, mark, active, steps, k) matches Some(t) ==> {
            &&& 0 <= t.0 < 9
            &&& 0 <= t.1 < 9
            &&& move_ok(b, active, t.0, t.1)
            &&& t.2 == cand_value(b, mark, steps, t.0, t.1)
        },
    decreases k,
{
    if k > 0 {
        lemma_fold_legal(b, mark, active, steps, (k - 1) as nat);
    }
}

/// Once a legal candidate lies below `k`, the fold holds something.
proof fn lemma_fold_some(
    b: Seq<Seq<Option<Mark>>>,
    mark: Mark,
    active: Option<int>,
    steps: nat,
    k: nat,
    o: int,
    i: int,
)
    requires
        0 <= o < 9,
        0 <= i < 9,
        move_ok(b, active, o, i),
        o * 9 + i < k <= 81,
    ensures
        search_fold(b, mark, active, steps, k) is Some,
    decreases k,
{
    assert((o * 9 + i) / 9 == o && (o * 9 + i) % 9 == i) by (nonlinear_arith)
        requires
            0 <= o < 9,
            0 <= i < 9,
    ;
    if o * 9 + i < k - 1 {
        lemma_fold_some(b, mark, active, steps, (k - 1) as nat, o, i);
    }
}

/// Over the candidates below `k`: an empty fold means none was legal,
/// and a held candidate is one that no legal candidate below `k`
/// strictly improves on.
proof fn lemma_fold_optimal(
    b: Seq<Seq<Option<Mark>>>,
    mark: Mark,
    active: Option<int>,
    steps: nat,
    k: nat,
)
    requires
        k <= 81,
    ensures
        search_fold(b, mark, active, steps, k) is None ==> forall|o: int, i: int|
            0 <= o < 9 && 0 <= i < 9 && o * 9 + i < k ==> !(#[trigger] move_ok(b, active, o, i)),
        search_fold(b, mark, active, steps, k) matches Some(t) ==> forall|o: int, i: int|
            0 <= o < 9 && 0 <= i < 9 && o * 9 + i < k && #[trigger] move_ok(b, active, o, i)
                ==> !improves(steps, cand_value(b, mark, steps, o, i), t.2),
    decreases k,
{
    if k > 0 {
        lemma_fold_optimal(b, mark, active, steps, (k - 1) as nat);
        let od = (k - 1) as int / 9;
        let id = (k - 1) as int % 9;
        assert(od * 9 + id == k - 1);
        assert(0 <= od < 9 && 0 <= id < 9);
    }
}

/// The search returns a best candidate: no legal move strictly improves
/// on the value of the move the search settles on — even levels read
/// "improves" as a higher rank for the original mover, odd levels as a
/// lower one.
pub proof fn lemma_search_best(
    b: Seq<Seq<Option<Mark>>>,
    mark: Mark,
    active: Option<int>,
    steps: nat,
    t: (int, int, Metrik),
    o: int,
    i: int,
)
    requires
        spec_search(b, mark, active, steps) == Some(t),
        0 <= o < 9,
        0 <= i < 9,
        move_ok(b, active, o, i),
    ensures
        !improves(steps, cand_value(b, mark, steps, o, i), t.2),
{
    lemma_fold_optimal(b, mark, active, steps, 81);
    assert(o * 9 + i < 81);
}

/// A board that still admits a move always offers a legal candidate,
/// whatever the active constraint: either the forced board still admits
/// a move, or the choice is free.
proof fn lemma_admits_has_move(b: Seq<Seq<Option<Mark>>>, active: Option<int>)
    requires
        board_ok(b),
        board_admits(b),
        active matches Some(a) ==> 0 <= a < 9,
    ensures
        exists|o: int, i: int| 0 <= o < 9 && 0 <= i < 9 && #[trigger] move_ok(b, active, o, i),
{
    let o0 = choose|o: int| 0 <= o < 9 && leaf_admits(#[trigger] b[o]);
    match active {
        Some(a) => {
            if leaf_admits(b[a]) {
                let i0 = choose|i: int| 0 <= i < 9 && #[trigger] b[a][i] is None;
                assert(move_ok(b, active, a, i0));
            } else {
                let i0 = choose|i: int| 0 <= i < 9 && #[trigger] b[o0][i] is None;
                assert(move_ok(b, active, o0, i0));
            }
        },
        None => {
            let i0 = choose|i: int| 0 <= i < 9 && #[trigger] b[o0][i] is None;
            assert(move_ok(b, active, o0, i0));
        },
    }
}

/// Searches the position exhaustively to the given remaining-ply depth
/// and returns the best move with its value. Candidates are the legal
/// (outer, inner) pairs in ascending order; a level with an even
/// remaining-ply counter maximizes for the original mover, an odd one
/// minimizes for it; ties keep the first-encountered optimum.
pub fn calc_move(
    field: &LargeField,
    mark: Mark,
    next_field: Option<FieldPosition>,
    steps: u64,
) -> (r: (FieldPosition, FieldPosition, Metrik))
    requires
        field.wf(),
        board_admits(meta_view(*field)),
    ensures
        Some((r.0@, r.1@, r.2)) == spec_search(
            meta_view(*field),
            mark,
            opt_pos_view(next_field),
            steps as nat,
        ),
        move_ok(meta_view(*field), opt_pos_view(next_field), r.0@, r.1@),
    decreases steps,
{
    proof {
        lemma_meta_wf(*field);
    }
    let ghost b = meta_view(*field);
    let ghost active = opt_pos_view(next_field);
    let mut best: Option<(FieldPosition, FieldPosition, Metrik)> = None;
    let mut k: usize = 0;
    while k < 81
        invariant
            k <= 81,
            field.wf(),
            board_admits(b),
            b == meta_view(*field),
            active == opt_pos_view(next_field),
            match (best, search_fold(b, mark, active, steps as nat, k as nat)) {
                (None, None) => true,
                (Some(t), Some(s)) => t.0@ == s.0 && t.1@ == s.1 && t.2 == s.2,
                _ => false,
            },
        decreases 81 - k,
    {
        let o = FieldPosition::from_index(k / 9);
        let i = FieldPosition::from_index(k % 9);
        if move_playable(field, next_field, o, i) {
            let mut new_field = *field;
            let mut new_inner = *new_field.get(o);
            new_inner.set(i, Some(mark));
            new_field.set(o, new_inner);
            proof {
                let target = board_after(b, o@, i@, mark);
                assert forall|j: int| 0 <= j < 9 implies meta_view(new_field)[j] =~= target[j] by {
                    assert(meta_view(new_field)[j] == new_field.slots_seq()[j].slots_seq());
                }
                assert(meta_view(new_field) =~~= target);
                lemma_meta_wf(new_field);
            }
            let next_pos = if new_field.get(i).has_free() {
                Some(i)
            } else {
                None
            };
            let value = if steps > 0 && new_field.has_free() {
                calc_move(&new_field, mark.other(), next_pos, steps - 1).2
            } else {
                game_state(&new_field, if steps % 2 == 0 { mark } else { mark.other() })
            };
            proof {
                assert(value == cand_value(b, mark, steps as nat, o@, i@));
            }
            best = match best {
                None => Some((o, i, value)),
                Some(t) => {
                    let replace = if steps % 2 == 0 {
                        metrik_less(t.2, value)
                    } else {
                        metrik_less(value, t.2)
                    };
                    if replace {
                        Some((o, i, value))
                    } else {
                        Some(t)
                    }
                },
            };
        }
        k = k + 1;
    }
    match best {
        Some(t) => {
            proof {
                lemma_fold_legal(b, mark, active, steps as nat, 81);
            }
            t
        },
        None => {
            if let Some(a) = next_field {
                proof {
                    use_type_invariant(a);
                    a.lemma_inv_bound();
                }
            }
            proof {
                lemma_admits_has_move(b, active);
                let (o0, i0) = choose|o: int, i: int|
                    0 <= o < 9 && 0 <= i < 9 && #[trigger] move_ok(b, active, o, i);
                lemma_fold_some(b, mark, active, steps as nat, 81, o0, i0);
                assert(false);
            }
            (FieldPosition::from_index(0), FieldPosition::from_index(0), Metrik {
                decided: None,
                relation: 0,
            })
        },
    }
}

/// The move the search settles on for a position, if the board still
/// admits one.
pub open spec fn spec_choose_move(
    b: Seq<Seq<Option<Mark>>>,
    mark: Mark,
    active: Option<int>,
    ahead: nat,
) -> Option<(int, int)> {
    match spec_search(b, mark, active, 2 * ahead) {
        Some(t) => Some((t.0, t.1)),
        None => None,
    }
}

/// The move the computer plays: an exhaustive minimax search with a
/// look-ahead of `ahead` full turns, doubled internally to plies. The
/// result is a pure function of board, mover, active constraint and
/// look-ahead, and is always a legal move in the given position.
pub fn choose_move(
    field: &LargeField,
    mark: Mark,
    next_field: Option<FieldPosition>,
    ahead: u64,
) -> (r: (FieldPosition, FieldPosition))
    requires
        field.wf(),
        board_admits(meta_view(*field)),
        ahead <= u64::MAX / 2,
    ensures
        Some((r.0@, r.1@)) == spec_choose_move(
            meta_view(*field),
            mark,
            opt_pos_view(next_field),
            ahead as nat,
        ),
        move_ok(meta_view(*field), opt_pos_view(next_field), r.0@, r.1@),
{
    let t = calc_move(field, mark, next_field, ahead * 2);
    (t.0, t.1)
}

/// Search determinism: the chosen move is a pure function of board,
/// mover, active constraint and look-ahead, so any two results obtained
/// for the same inputs are the same move.
pub proof fn lemma_choose_move_deterministic(
    b: Seq<Seq<Option<Mark>>>,
    mark: Mark,
    active: Option<int>,
    ahead: nat,
    r1: (int, int),
    r2: (int, int),
)
    requires
        Some(r1) == spec_choose_move(b, mark, active, ahead),
        Some(r2) == spec_choose_move(b, mark, active, ahead),
    ensures
        r1 == r2,
{
}

} // verus!
