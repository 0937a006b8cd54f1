use ship_sim::action::ShipAction;
use ship_sim::board::GameState;
use ship_sim::error::SimError;
use ship_sim::ship::ShipKind;

fn fly(interval: u32) -> ShipKind {
    ShipKind::PeriodicMover { interval }
}

fn driver(interval: u64, actions: Vec<ShipAction>) -> ShipKind {
    ShipKind::ActionListAI { actions, interval }
}

#[test]
fn periodic_mover_moves_on_every_tenth_tick() {
    let mut game = GameState::new();
    assert_eq!(game.spawn((0, 0), fly(10)), Ok(()));
    for _ in 0..9 {
        game.game_tick();
        assert_eq!(game.render_view(), vec![((0, 0), 'F')]);
    }
    game.game_tick();
    assert_eq!(game.render_view(), vec![((0, 1), 'F')]);
    for _ in 0..19 {
        game.game_tick();
    }
    assert_eq!(game.render_view(), vec![((0, 2), 'F')]);
    game.game_tick();
    assert_eq!(game.render_view(), vec![((0, 3), 'F')]);
}

#[test]
fn spawning_on_an_occupied_cell_changes_nothing() {
    let mut game = GameState::new();
    assert_eq!(game.spawn((2, 4), ShipKind::Stationary), Ok(()));
    assert_eq!(game.spawn((0, 0), fly(10)), Ok(()));
    let before = game.render_view();
    assert_eq!(game.len(), 2);
    assert_eq!(game.spawn((0, 0), ShipKind::Stationary), Err(SimError::PositionOccupied));
    assert_eq!(game.spawn((2, 4), fly(3)), Err(SimError::PositionOccupied));
    assert_eq!(game.len(), 2);
    assert_eq!(game.render_view(), before);
    assert_eq!(game.render_view(), vec![((0, 0), 'F'), ((2, 4), 'P')]);
}

#[test]
fn occupant_keeps_its_counters_when_a_spawn_is_refused() {
    let mut game = GameState::new();
    assert_eq!(game.spawn((0, 0), fly(2)), Ok(()));
    game.game_tick();
    assert_eq!(game.spawn((0, 0), fly(2)), Err(SimError::PositionOccupied));
    game.game_tick();
    assert_eq!(game.render_view(), vec![((0, 1), 'F')]);
}

#[test]
fn zero_interval_is_refused_before_the_board_is_touched() {
    let mut game = GameState::new();
    assert_eq!(game.spawn((1, 1), fly(0)), Err(SimError::InvalidConfiguration));
    assert_eq!(
        game.spawn((1, 1), driver(0, vec![ShipAction::Move(1, 0)])),
        Err(SimError::InvalidConfiguration)
    );
    assert_eq!(game.len(), 0);
    assert!(game.render_view().is_empty());
    assert_eq!(game.spawn((1, 1), ShipKind::Stationary), Ok(()));
    assert_eq!(game.spawn((1, 1), fly(0)), Err(SimError::InvalidConfiguration));
    assert_eq!(game.render_view(), vec![((1, 1), 'P')]);
}

#[test]
fn mover_on_the_bottom_row_comes_out_on_top() {
    for height in [1u8, 2, 5, 9] {
        for x in 0..4u8 {
            let mut game = GameState::with_size(4, height);
            assert_eq!(game.spawn((x, height - 1), fly(1)), Ok(()));
            game.game_tick();
            assert_eq!(game.render_view(), vec![((x, 0), 'F')]);
        }
    }
}

#[test]
fn driver_wraps_round_every_edge() {
    let mut game = GameState::with_size(3, 4);
    let actions = vec![
        ShipAction::Move(-1, 0),
        ShipAction::Move(0, -1),
        ShipAction::Move(1, 0),
        ShipAction::Move(0, 1),
    ];
    assert_eq!(game.spawn((0, 0), driver(1, actions)), Ok(()));
    game.game_tick();
    assert_eq!(game.render_view(), vec![((2, 0), 'B')]);
    game.game_tick();
    assert_eq!(game.render_view(), vec![((2, 3), 'B')]);
    game.game_tick();
    assert_eq!(game.render_view(), vec![((0, 3), 'B')]);
    game.game_tick();
    assert_eq!(game.render_view(), vec![((0, 0), 'B')]);
    game.game_tick();
    assert_eq!(game.render_view(), vec![((2, 0), 'B')]);
}

#[test]
fn smaller_cell_wins_a_contested_cell() {
    let mut game = GameState::new();
    assert_eq!(game.spawn((1, 0), driver(1, vec![ShipAction::Move(0, 1)])), Ok(()));
    assert_eq!(game.spawn((0, 1), driver(1, vec![ShipAction::Move(1, 0)])), Ok(()));
    game.game_tick();
    // Both asked for (1, 1); (0, 1) comes before (1, 0).
    assert_eq!(game.render_view(), vec![((1, 0), 'B'), ((1, 1), 'B')]);
    assert_eq!(game.symbol_at((0, 1)), None);
}

#[test]
fn loser_of_a_contested_cell_still_advanced_its_counters() {
    let mut game = GameState::new();
    let winner = vec![ShipAction::Move(1, 0), ShipAction::Stay];
    let loser = vec![ShipAction::Move(0, 1), ShipAction::Move(1, 0)];
    assert_eq!(game.spawn((0, 1), driver(1, winner)), Ok(()));
    assert_eq!(game.spawn((1, 0), driver(1, loser)), Ok(()));
    game.game_tick();
    assert_eq!(game.render_view(), vec![((1, 0), 'B'), ((1, 1), 'B')]);
    // The loser does not try (0, 1) again: its list has moved on to (1, 0).
    game.game_tick();
    assert_eq!(game.render_view(), vec![((1, 1), 'B'), ((2, 0), 'B')]);
}

#[test]
fn two_periodic_movers_after_one_cell() {
    // On a board five wide, column 5 wraps to column 0: both ships head for
    // (0, 1), and the one that starts from the smaller cell gets it.
    let mut game = GameState::new();
    assert_eq!(game.spawn((0, 0), fly(1)), Ok(()));
    assert_eq!(game.spawn((5, 0), fly(1)), Ok(()));
    game.game_tick();
    assert_eq!(game.render_view(), vec![((0, 1), 'F'), ((5, 0), 'F')]);
    game.game_tick();
    assert_eq!(game.render_view(), vec![((0, 1), 'F'), ((0, 2), 'F')]);
}

#[test]
fn move_into_a_cell_vacated_earlier_in_the_tick_succeeds() {
    let mut game = GameState::new();
    assert_eq!(game.spawn((0, 0), fly(1)), Ok(()));
    assert_eq!(game.spawn((0, 4), fly(1)), Ok(()));
    game.game_tick();
    // (0, 0) leaves for (0, 1) first, so (0, 4) finds (0, 0) free.
    assert_eq!(game.render_view(), vec![((0, 0), 'F'), ((0, 1), 'F')]);
}

#[test]
fn move_into_a_cell_vacated_later_in_the_tick_is_dropped() {
    let mut game = GameState::new();
    assert_eq!(game.spawn((0, 0), fly(1)), Ok(()));
    assert_eq!(game.spawn((0, 1), fly(1)), Ok(()));
    game.game_tick();
    // (0, 0) is served first and finds (0, 1) still occupied.
    assert_eq!(game.render_view(), vec![((0, 0), 'F'), ((0, 2), 'F')]);
}

#[test]
fn full_column_of_movers_is_stuck_but_for_the_last() {
    let mut game = GameState::with_size(1, 3);
    for y in 0..3u8 {
        assert_eq!(game.spawn((0, y), fly(1)), Ok(()));
    }
    game.game_tick();
    assert_eq!(game.len(), 3);
    assert_eq!(game.render_view(), vec![((0, 0), 'F'), ((0, 1), 'F'), ((0, 2), 'F')]);
}

#[test]
fn ticks_keep_the_number_of_ships_and_list_no_cell_twice() {
    let mut game = GameState::with_size(4, 4);
    assert_eq!(game.spawn((0, 0), fly(1)), Ok(()));
    assert_eq!(game.spawn((0, 2), fly(2)), Ok(()));
    assert_eq!(game.spawn((1, 1), driver(1, vec![ShipAction::Move(-1, 0), ShipAction::Move(1, 1)])), Ok(()));
    assert_eq!(game.spawn((3, 3), driver(3, vec![ShipAction::Move(1, 1)])), Ok(()));
    assert_eq!(game.spawn((2, 2), ShipKind::Stationary), Ok(()));
    for _ in 0..50 {
        game.game_tick();
        let view = game.render_view();
        assert_eq!(view.len(), 5);
        assert_eq!(game.len(), 5);
        for pair in view.windows(2) {
            assert!(pair[0].0 < pair[1].0);
        }
        for (pos, _) in view {
            assert!(pos.0 < 4 && pos.1 < 4);
        }
    }
}

#[test]
fn equal_games_stay_equal() {
    let build = || {
        let mut game = GameState::with_size(6, 3);
        assert_eq!(game.spawn((5, 2), fly(2)), Ok(()));
        assert_eq!(game.spawn((0, 0), driver(1, vec![ShipAction::Move(1, 0), ShipAction::Move(0, 1)])), Ok(()));
        assert_eq!(game.spawn((1, 0), fly(3)), Ok(()));
        assert_eq!(game.spawn((3, 1), ShipKind::Stationary), Ok(()));
        game
    };
    let mut a = build();
    let mut b = build();
    for _ in 0..40 {
        a.game_tick();
        b.game_tick();
        assert_eq!(a.render_view(), b.render_view());
        assert_eq!(a.render_frame(), b.render_frame());
    }
}

#[test]
fn stationary_ship_never_moves() {
    let mut game = GameState::new();
    assert_eq!(game.spawn((2, 4), ShipKind::Stationary), Ok(()));
    for _ in 0..25 {
        game.game_tick();
        assert_eq!(game.render_view(), vec![((2, 4), 'P')]);
    }
}

#[test]
fn tick_on_an_empty_board() {
    let mut game = GameState::new();
    game.game_tick();
    assert_eq!(game.len(), 0);
    assert!(game.render_view().is_empty());
}

#[test]
fn phases_of_a_tick() {
    let mut game = GameState::new();
    assert_eq!(game.spawn((3, 3), fly(1)), Ok(()));
    assert_eq!(game.spawn((0, 4), fly(1)), Ok(()));
    assert_eq!(game.spawn((1, 1), fly(2)), Ok(()));
    assert_eq!(game.spawn((2, 2), ShipKind::Stationary), Ok(()));
    let moves = game.decide_phase();
    assert_eq!(moves, vec![((0, 4), (0, 0)), ((3, 3), (3, 4))]);
    // Deciding moved nobody.
    assert_eq!(
        game.render_view(),
        vec![((0, 4), 'F'), ((1, 1), 'F'), ((2, 2), 'P'), ((3, 3), 'F')]
    );
    game.apply_phase(&moves);
    assert_eq!(
        game.render_view(),
        vec![((0, 0), 'F'), ((1, 1), 'F'), ((2, 2), 'P'), ((3, 4), 'F')]
    );
    // The ship on (1, 1) has counted one tick: it is due at the next.
    let moves = game.decide_phase();
    assert_eq!(moves, vec![((0, 0), (0, 1)), ((1, 1), (1, 2)), ((3, 4), (3, 0))]);
}

#[test]
fn apply_phase_takes_the_moves_in_the_order_given() {
    let mut game = GameState::new();
    assert_eq!(game.spawn((0, 0), ShipKind::Stationary), Ok(()));
    assert_eq!(game.spawn((4, 4), fly(7)), Ok(()));
    game.apply_phase(&vec![((4, 4), (2, 2)), ((0, 0), (2, 2)), ((2, 2), (0, 1)), ((0, 0), (2, 2))]);
    assert_eq!(game.render_view(), vec![((0, 1), 'F'), ((2, 2), 'P')]);
}
