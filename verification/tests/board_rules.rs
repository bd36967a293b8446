//! Board model and move-legality behaviour, exercised through the public API.

use ultimate_ttt::board::{Field, LargeField, Mark, Slot};
use ultimate_ttt::game::{FieldMeta, GameData, IllegalMove};
use ultimate_ttt::position::FieldPosition;

fn p(i: usize) -> FieldPosition {
    FieldPosition::from_index(i)
}

/// A leaf board whose top row is owned by `m`; the other cells stay empty.
fn leaf_with_top_row(m: Mark) -> Field {
    let mut f = <Field as Slot>::empty();
    f.set(p(0), Some(m));
    f.set(p(1), Some(m));
    f.set(p(2), Some(m));
    f
}

#[test]
fn mark_other_toggles() {
    assert_eq!(Mark::Cross.other(), Mark::Circle);
    assert_eq!(Mark::Circle.other(), Mark::Cross);
    assert_eq!(Mark::Cross.other().other(), Mark::Cross);
}

#[test]
fn position_decomposition() {
    assert_eq!(FieldPosition::from_xy(2, 1).index(), 5);
    assert_eq!(p(7).x(), 1);
    assert_eq!(p(7).y(), 2);
    assert_eq!(p(0).x(), 0);
    assert_eq!(p(0).y(), 0);
    let all = FieldPosition::all();
    assert_eq!(all.len(), 9);
    for (i, q) in all.iter().enumerate() {
        assert_eq!(q.index(), i);
    }
}

#[test]
fn empty_board_is_open() {
    let f = <Field as Slot>::empty();
    assert_eq!(f.belongs_to(), None);
    assert!(f.has_free());
    for i in 0..9 {
        assert_eq!(*f.get(p(i)), None);
    }
    let g = <LargeField as Slot>::empty();
    assert_eq!(g.belongs_to(), None);
    assert!(g.has_free());
}

#[test]
fn row_win_detected() {
    let f = leaf_with_top_row(Mark::Cross);
    assert_eq!(f.belongs_to(), Some(Mark::Cross));
}

#[test]
fn column_win_detected() {
    let mut f = <Field as Slot>::empty();
    f.set(p(1), Some(Mark::Circle));
    f.set(p(4), Some(Mark::Circle));
    f.set(p(7), Some(Mark::Circle));
    assert_eq!(f.belongs_to(), Some(Mark::Circle));
}

#[test]
fn diagonal_win_detected() {
    let mut f = <Field as Slot>::empty();
    f.set(p(0), Some(Mark::Cross));
    f.set(p(4), Some(Mark::Cross));
    f.set(p(8), Some(Mark::Cross));
    assert_eq!(f.belongs_to(), Some(Mark::Cross));
}

#[test]
fn anti_diagonal_win_detected() {
    let mut f = <Field as Slot>::empty();
    f.set(p(2), Some(Mark::Circle));
    f.set(p(4), Some(Mark::Circle));
    f.set(p(6), Some(Mark::Circle));
    assert_eq!(f.belongs_to(), Some(Mark::Circle));
}

#[test]
fn no_win_on_mixed_line() {
    let mut f = <Field as Slot>::empty();
    f.set(p(0), Some(Mark::Cross));
    f.set(p(1), Some(Mark::Circle));
    f.set(p(2), Some(Mark::Cross));
    assert_eq!(f.belongs_to(), None);
    assert!(f.has_free());
}

#[test]
fn decided_board_is_closed_despite_empty_cells() {
    let f = leaf_with_top_row(Mark::Cross);
    // Six cells are still empty, yet the decided board admits no move.
    assert_eq!(*f.get(p(4)), None);
    assert!(!f.has_free());
}

#[test]
fn mutation_recomputes_derived_state() {
    let mut f = leaf_with_top_row(Mark::Cross);
    assert_eq!(f.belongs_to(), Some(Mark::Cross));
    f.set(p(1), None);
    assert_eq!(f.belongs_to(), None);
    assert!(f.has_free());
}

#[test]
fn meta_board_win_from_leaf_rows() {
    let mut g = <LargeField as Slot>::empty();
    g.set(p(0), leaf_with_top_row(Mark::Cross));
    g.set(p(4), leaf_with_top_row(Mark::Cross));
    g.set(p(8), leaf_with_top_row(Mark::Cross));
    assert_eq!(g.belongs_to(), Some(Mark::Cross));
    assert!(!g.has_free());
}

#[test]
fn fresh_game_accepts_any_first_move() {
    let mut gd = GameData::local();
    assert!(gd.my_turn());
    assert!(gd.is_cell_playable(p(3), p(7)));
    assert_eq!(gd.apply_move(p(3), p(7)), Ok(()));
    assert_eq!(*gd.game.get(p(3)).get(p(7)), Some(Mark::Cross));
    assert_eq!(gd.next_turn, Mark::Circle);
}

#[test]
fn redirect_sets_active_to_inner_position() {
    let mut gd = GameData::local();
    assert_eq!(gd.apply_move(p(0), p(4)), Ok(()));
    assert_eq!(gd.next_field, Some(p(4)));
    // The follow-up must go to board 4.
    assert!(gd.is_cell_playable(p(4), p(0)));
    assert!(!gd.is_cell_playable(p(5), p(0)));
}

#[test]
fn redirect_to_closed_board_frees_choice() {
    let mut g = <LargeField as Slot>::empty();
    g.set(p(4), leaf_with_top_row(Mark::Circle));
    let mut gd = GameData::local();
    gd.game = g;
    // Playing into cell 4 of board 0 would send the opponent to the
    // decided board 4: the active constraint must fall away.
    assert_eq!(gd.apply_move(p(0), p(4)), Ok(()));
    assert_eq!(gd.next_field, None);
}

#[test]
fn forced_closed_board_frees_enumeration() {
    let mut g = <LargeField as Slot>::empty();
    g.set(p(4), leaf_with_top_row(Mark::Circle));
    let mut gd = GameData::local();
    gd.game = g;
    gd.next_field = Some(p(4));
    // The forced board is decided: every other open board is playable.
    for o in 0..9 {
        if o == 4 {
            assert!(!gd.is_cell_playable(p(o), p(4)));
        } else {
            assert!(gd.is_cell_playable(p(o), p(0)));
        }
    }
}

#[test]
fn occupied_cell_is_rejected() {
    let mut gd = GameData::local();
    assert_eq!(gd.apply_move(p(0), p(0)), Ok(()));
    assert_eq!(gd.apply_move(p(0), p(0)), Err(IllegalMove));
    // The rejected move left the state alone.
    assert_eq!(gd.next_turn, Mark::Circle);
    assert_eq!(*gd.game.get(p(0)).get(p(0)), Some(Mark::Cross));
}

#[test]
fn wrong_board_is_rejected() {
    let mut gd = GameData::local();
    assert_eq!(gd.apply_move(p(0), p(4)), Ok(()));
    // The opponent is forced to board 4.
    assert_eq!(gd.apply_move(p(5), p(0)), Err(IllegalMove));
    assert_eq!(gd.next_turn, Mark::Circle);
}

#[test]
fn decided_game_rejects_every_move() {
    let mut g = <LargeField as Slot>::empty();
    g.set(p(0), leaf_with_top_row(Mark::Cross));
    g.set(p(1), leaf_with_top_row(Mark::Cross));
    g.set(p(2), leaf_with_top_row(Mark::Cross));
    let mut gd = GameData::local();
    gd.game = g;
    assert_eq!(gd.game.belongs_to(), Some(Mark::Cross));
    assert_eq!(gd.apply_move(p(4), p(4)), Err(IllegalMove));
}

#[test]
fn full_draw_board_admits_nothing() {
    // A drawn leaf: every cell filled, no line uniformly owned.
    let pattern = [
        Mark::Cross,
        Mark::Cross,
        Mark::Circle,
        Mark::Circle,
        Mark::Circle,
        Mark::Cross,
        Mark::Cross,
        Mark::Circle,
        Mark::Cross,
    ];
    let mut drawn = <Field as Slot>::empty();
    for i in 0..9 {
        drawn.set(p(i), Some(pattern[i]));
    }
    assert_eq!(drawn.belongs_to(), None);
    assert!(!drawn.has_free());

    let mut g = <LargeField as Slot>::empty();
    for o in 0..9 {
        g.set(p(o), drawn);
    }
    assert_eq!(g.belongs_to(), None);
    assert!(!g.has_free());

    let mut gd = GameData::local();
    gd.game = g;
    assert_eq!(gd.apply_move(p(0), p(0)), Err(IllegalMove));
}

#[test]
fn field_meta_round_trip() {
    let mut gd = GameData::local();
    let mut meta = FieldMeta::from_data(&gd, p(4));
    assert!(meta.is_active());
    assert_eq!(meta.next_turn(), Mark::Cross);
    assert_eq!(meta.cell(p(2)), None);
    meta.set(p(2));
    meta.write_back(&mut gd, p(4));
    assert_eq!(*gd.game.get(p(4)).get(p(2)), Some(Mark::Cross));
    assert_eq!(gd.next_turn, Mark::Circle);
    assert_eq!(gd.next_field, Some(p(2)));
}

#[test]
fn inactive_field_meta_ignores_input() {
    let mut gd = GameData::local();
    assert_eq!(gd.apply_move(p(0), p(4)), Ok(()));
    // Board 7 is not the forced board, so its snapshot is inactive.
    let mut meta = FieldMeta::from_data(&gd, p(7));
    assert!(!meta.is_active());
    meta.set(p(0));
    let turn_before = gd.next_turn;
    meta.write_back(&mut gd, p(7));
    assert_eq!(*gd.game.get(p(7)).get(p(0)), None);
    assert_eq!(gd.next_turn, turn_before);
}

#[test]
fn finished_reports_leaf_winner() {
    let mut gd = GameData::local();
    gd.game.set(p(6), leaf_with_top_row(Mark::Circle));
    let meta = FieldMeta::from_data(&gd, p(6));
    assert_eq!(meta.finished(), Some(Mark::Circle));
    assert!(!meta.is_active());
}

#[test]
fn opponent_configuration() {
    let gd = GameData::local();
    assert!(gd.opponent.is_none());
    assert!(gd.my_turn());
    assert!(gd.ai_turn().is_none());

    let mut gd = GameData::ai(3);
    assert!(gd.my_turn());
    assert!(gd.ai_turn().is_none());
    assert_eq!(gd.apply_move(p(0), p(0)), Ok(()));
    assert!(!gd.my_turn());
    assert_eq!(gd.ai_turn(), Some((3, Mark::Circle)));
}
