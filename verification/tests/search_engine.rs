//! Terminal values, the comparator, the minimax search, and the
//! asynchronous-delivery discard policy.

use ultimate_ttt::board::{Field, LargeField, Mark, Slot};
use ultimate_ttt::game::GameData;
use ultimate_ttt::position::FieldPosition;
use ultimate_ttt::search::{calc_move, choose_move, game_state, metrik_less, Metrik};

fn p(i: usize) -> FieldPosition {
    FieldPosition::from_index(i)
}

fn leaf_with_top_row(m: Mark) -> Field {
    let mut f = <Field as Slot>::empty();
    f.set(p(0), Some(m));
    f.set(p(1), Some(m));
    f.set(p(2), Some(m));
    f
}

#[test]
fn comparator_win_beats_everything_open() {
    let win = Metrik { decided: Some(true), relation: -9 };
    let open = Metrik { decided: None, relation: 9 };
    let loss = Metrik { decided: Some(false), relation: 9 };
    assert!(metrik_less(open, win));
    assert!(metrik_less(loss, win));
    assert!(!metrik_less(win, open));
    assert!(!metrik_less(win, loss));
}

#[test]
fn comparator_loss_below_everything_open() {
    let loss = Metrik { decided: Some(false), relation: 9 };
    let open = Metrik { decided: None, relation: -9 };
    assert!(metrik_less(loss, open));
    assert!(!metrik_less(open, loss));
}

#[test]
fn comparator_open_values_rank_by_relation() {
    let a = Metrik { decided: None, relation: -2 };
    let b = Metrik { decided: None, relation: 3 };
    assert!(metrik_less(a, b));
    assert!(!metrik_less(b, a));
    assert!(!metrik_less(a, a));
}

#[test]
fn game_state_of_empty_board() {
    let g = <LargeField as Slot>::empty();
    let m = game_state(&g, Mark::Cross);
    assert_eq!(m.decided, None);
    assert_eq!(m.relation, 0);
}

#[test]
fn game_state_counts_owned_leaf_boards() {
    let mut g = <LargeField as Slot>::empty();
    g.set(p(0), leaf_with_top_row(Mark::Cross));
    g.set(p(5), leaf_with_top_row(Mark::Cross));
    g.set(p(7), leaf_with_top_row(Mark::Circle));
    let for_cross = game_state(&g, Mark::Cross);
    assert_eq!(for_cross.decided, None);
    assert_eq!(for_cross.relation, 1);
    let for_circle = game_state(&g, Mark::Circle);
    assert_eq!(for_circle.decided, None);
    assert_eq!(for_circle.relation, -1);
}

#[test]
fn game_state_of_decided_board() {
    let mut g = <LargeField as Slot>::empty();
    g.set(p(0), leaf_with_top_row(Mark::Cross));
    g.set(p(1), leaf_with_top_row(Mark::Cross));
    g.set(p(2), leaf_with_top_row(Mark::Cross));
    let for_cross = game_state(&g, Mark::Cross);
    assert_eq!(for_cross.decided, Some(true));
    assert_eq!(for_cross.relation, 3);
    let for_circle = game_state(&g, Mark::Circle);
    assert_eq!(for_circle.decided, Some(false));
    assert_eq!(for_circle.relation, -3);
}

#[test]
fn terminal_scenario_returns_legal_move() {
    // Empty board, crosses to move, free choice, one turn of look-ahead.
    let gd = GameData::ai(1);
    let (outer, inner) = choose_move(&gd.game, Mark::Cross, None, 1);
    assert!(gd.is_cell_playable(outer, inner));
    let mut gd = gd;
    assert_eq!(gd.apply_move(outer, inner), Ok(()));
}

#[test]
fn search_is_deterministic() {
    let mut gd = GameData::local();
    assert_eq!(gd.apply_move(p(0), p(4)), Ok(()));
    let first = choose_move(&gd.game, gd.next_turn, gd.next_field, 1);
    let second = choose_move(&gd.game, gd.next_turn, gd.next_field, 1);
    assert_eq!(first, second);
}

#[test]
fn search_respects_forced_board() {
    let mut gd = GameData::local();
    assert_eq!(gd.apply_move(p(0), p(4)), Ok(()));
    assert_eq!(gd.next_field, Some(p(4)));
    let (outer, inner) = choose_move(&gd.game, gd.next_turn, gd.next_field, 0);
    assert_eq!(outer.index(), 4);
    assert!(gd.is_cell_playable(outer, inner));
}

#[test]
fn search_under_closed_forced_board_picks_elsewhere() {
    let mut g = <LargeField as Slot>::empty();
    g.set(p(4), leaf_with_top_row(Mark::Circle));
    let mut gd = GameData::local();
    gd.game = g;
    gd.next_field = Some(p(4));
    let (outer, inner) = choose_move(&gd.game, Mark::Cross, gd.next_field, 0);
    assert_ne!(outer.index(), 4);
    assert!(gd.is_cell_playable(outer, inner));
}

#[test]
fn search_takes_an_immediate_win() {
    // Crosses own boards 0 and 1; board 2 only waits for its top row to
    // be completed at cell 2. A one-ply search must take the whole game.
    let mut g = <LargeField as Slot>::empty();
    g.set(p(0), leaf_with_top_row(Mark::Cross));
    g.set(p(1), leaf_with_top_row(Mark::Cross));
    let mut two_of_row = <Field as Slot>::empty();
    two_of_row.set(p(0), Some(Mark::Cross));
    two_of_row.set(p(1), Some(Mark::Cross));
    g.set(p(2), two_of_row);
    let (outer, inner) = choose_move(&g, Mark::Cross, None, 0);
    assert_eq!(outer.index(), 2);
    assert_eq!(inner.index(), 2);
}

#[test]
fn calc_move_reports_the_value_of_its_move() {
    let mut g = <LargeField as Slot>::empty();
    g.set(p(0), leaf_with_top_row(Mark::Cross));
    g.set(p(1), leaf_with_top_row(Mark::Cross));
    let mut two_of_row = <Field as Slot>::empty();
    two_of_row.set(p(0), Some(Mark::Cross));
    two_of_row.set(p(1), Some(Mark::Cross));
    g.set(p(2), two_of_row);
    let (outer, inner, value) = calc_move(&g, Mark::Cross, None, 0);
    assert_eq!(outer.index(), 2);
    assert_eq!(inner.index(), 2);
    // The winning move's value is the terminal value of the board it makes.
    let mut won = g;
    let mut leaf = *won.get(outer);
    leaf.set(inner, Some(Mark::Cross));
    won.set(outer, leaf);
    assert_eq!(value, game_state(&won, Mark::Cross));
    assert_eq!(value, Metrik { decided: Some(true), relation: 3 });
}

#[test]
fn stale_delivery_is_discarded_after_reset() {
    // A game against the computer: the human moves, a search starts for
    // the computer's reply.
    let mut gd = GameData::ai(1);
    assert_eq!(gd.apply_move(p(0), p(4)), Ok(()));
    assert_eq!(gd.ai_turn(), Some((1, Mark::Circle)));
    let (outer, inner) = choose_move(&gd.game, Mark::Circle, gd.next_field, 1);

    // The game is reset before the result is delivered.
    let mut gd = GameData::ai(1);
    let applied = gd.deliver_ai_move(outer, inner);

    // The stale move is dropped and the fresh game is untouched.
    assert!(!applied);
    assert_eq!(gd.next_turn, Mark::Cross);
    assert_eq!(gd.next_field, None);
    for o in 0..9 {
        for i in 0..9 {
            assert_eq!(*gd.game.get(p(o)).get(p(i)), None);
        }
    }
}

#[test]
fn fresh_delivery_is_applied() {
    let mut gd = GameData::ai(1);
    assert_eq!(gd.apply_move(p(0), p(4)), Ok(()));
    let (outer, inner) = choose_move(&gd.game, Mark::Circle, gd.next_field, 1);
    let applied = gd.deliver_ai_move(outer, inner);
    assert!(applied);
    assert_eq!(*gd.game.get(outer).get(inner), Some(Mark::Circle));
    assert_eq!(gd.next_turn, Mark::Cross);
}
