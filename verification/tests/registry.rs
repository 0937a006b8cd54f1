use ship_sim::board::GameState;
use ship_sim::board::GRID_HEIGHT;
use ship_sim::board::GRID_WIDTH;
use ship_sim::error::SimError;
use ship_sim::ship::Ship;
use ship_sim::ship::ShipKind;

fn ship(kind: ShipKind) -> Ship {
    match Ship::build(kind) {
        Ok(ship) => ship,
        Err(_) => panic!("the kind is valid"),
    }
}

#[test]
fn default_board_is_five_by_five() {
    let game = GameState::new();
    assert_eq!(GRID_WIDTH, 5);
    assert_eq!(GRID_HEIGHT, 5);
    assert_eq!(game.width(), 5);
    assert_eq!(game.height(), 5);
    assert_eq!(game.len(), 0);
    assert_eq!(game.render_frame(), vec![vec!['*'; 5]; 5]);
}

#[test]
fn new_board_is_empty() {
    let game = GameState::with_size(7, 3);
    assert_eq!(game.width(), 7);
    assert_eq!(game.height(), 3);
    assert_eq!(game.grid().width(), 7);
    assert_eq!(game.grid().height(), 3);
    assert_eq!(game.len(), 0);
    assert!(game.cells().is_empty());
    assert!(!game.is_occupied((0, 0)));
}

#[test]
fn add_ship_never_replaces() {
    let mut game = GameState::new();
    assert_eq!(game.add_ship((1, 2), ship(ShipKind::Stationary)), Ok(()));
    assert!(game.is_occupied((1, 2)));
    assert_eq!(game.symbol_at((1, 2)), Some('P'));
    assert_eq!(
        game.add_ship((1, 2), ship(ShipKind::PeriodicMover { interval: 4 })),
        Err(SimError::PositionOccupied)
    );
    assert_eq!(game.symbol_at((1, 2)), Some('P'));
    assert_eq!(game.len(), 1);
}

#[test]
fn remove_ship_hands_the_ship_out() {
    let mut game = GameState::new();
    assert_eq!(game.add_ship((1, 2), ship(ShipKind::PeriodicMover { interval: 4 })), Ok(()));
    assert_eq!(game.add_ship((3, 3), ship(ShipKind::Stationary)), Ok(()));
    assert!(game.remove_ship((0, 0)).is_none());
    assert_eq!(game.len(), 2);
    match game.remove_ship((1, 2)) {
        Some(taken) => assert_eq!(taken.symbol(), 'F'),
        None => panic!("a ship stood there"),
    }
    assert_eq!(game.len(), 1);
    assert!(!game.is_occupied((1, 2)));
    assert!(game.remove_ship((1, 2)).is_none());
    assert_eq!(game.render_view(), vec![((3, 3), 'P')]);
}

#[test]
fn removed_ship_can_be_put_back_with_its_counters() {
    let mut game = GameState::new();
    assert_eq!(game.spawn((0, 0), ShipKind::PeriodicMover { interval: 3 }), Ok(()));
    game.game_tick();
    game.game_tick();
    let taken = game.remove_ship((0, 0)).expect("a ship stood there");
    assert_eq!(game.add_ship((4, 4), taken), Ok(()));
    game.game_tick();
    assert_eq!(game.render_view(), vec![((4, 0), 'F')]);
}

#[test]
fn move_ship_to_a_free_cell() {
    let mut game = GameState::new();
    assert_eq!(game.spawn((0, 0), ShipKind::Stationary), Ok(()));
    assert_eq!(game.move_ship((0, 0), (3, 1)), Ok(()));
    assert_eq!(game.render_view(), vec![((3, 1), 'P')]);
}

#[test]
fn move_ship_onto_another_is_rejected() {
    let mut game = GameState::new();
    assert_eq!(game.spawn((0, 0), ShipKind::Stationary), Ok(()));
    assert_eq!(game.spawn((3, 1), ShipKind::PeriodicMover { interval: 9 }), Ok(()));
    assert!(game.collision((0, 0), (3, 1)));
    assert_eq!(game.move_ship((0, 0), (3, 1)), Err(SimError::RelocationRejected));
    assert_eq!(game.render_view(), vec![((0, 0), 'P'), ((3, 1), 'F')]);
}

#[test]
fn move_ship_onto_its_own_cell() {
    let mut game = GameState::new();
    assert_eq!(game.spawn((2, 2), ShipKind::Stationary), Ok(()));
    assert!(!game.collision((2, 2), (2, 2)));
    assert_eq!(game.move_ship((2, 2), (2, 2)), Ok(()));
    assert_eq!(game.render_view(), vec![((2, 2), 'P')]);
}

#[test]
fn move_ship_from_an_empty_cell() {
    let mut game = GameState::new();
    assert_eq!(game.spawn((2, 2), ShipKind::Stationary), Ok(()));
    assert_eq!(game.move_ship((0, 0), (1, 1)), Ok(()));
    assert_eq!(game.move_ship((0, 0), (2, 2)), Ok(()));
    assert_eq!(game.render_view(), vec![((2, 2), 'P')]);
}

#[test]
fn collision_looks_at_the_target_only() {
    let mut game = GameState::new();
    assert_eq!(game.spawn((2, 2), ShipKind::Stationary), Ok(()));
    assert!(game.collision((0, 0), (2, 2)));
    assert!(!game.collision((2, 2), (0, 0)));
    assert!(!game.collision((1, 1), (0, 0)));
}

#[test]
fn cells_and_view_come_in_ascending_order() {
    let mut game = GameState::new();
    for pos in [(4, 0), (1, 3), (0, 4), (1, 0), (0, 0), (3, 3)] {
        assert_eq!(game.spawn(pos, ShipKind::Stationary), Ok(()));
    }
    let order = vec![(0, 0), (0, 4), (1, 0), (1, 3), (3, 3), (4, 0)];
    assert_eq!(game.cells(), order);
    let view = game.render_view();
    assert_eq!(view.len(), 6);
    for (entry, pos) in view.iter().zip(order.iter()) {
        assert_eq!(entry.0, *pos);
        assert_eq!(entry.1, 'P');
    }
}

#[test]
fn symbols_by_kind() {
    let mut game = GameState::new();
    assert_eq!(game.spawn((0, 0), ShipKind::Stationary), Ok(()));
    assert_eq!(game.spawn((1, 0), ShipKind::PeriodicMover { interval: 1 }), Ok(()));
    assert_eq!(game.spawn((2, 0), ShipKind::ActionListAI { actions: vec![], interval: 1 }), Ok(()));
    assert_eq!(game.render_view(), vec![((0, 0), 'P'), ((1, 0), 'F'), ((2, 0), 'B')]);
}

#[test]
fn frame_of_a_small_board() {
    let mut game = GameState::with_size(3, 2);
    assert_eq!(game.spawn((0, 0), ShipKind::Stationary), Ok(()));
    assert_eq!(game.spawn((2, 1), ShipKind::PeriodicMover { interval: 5 }), Ok(()));
    assert_eq!(game.spawn((1, 1), ShipKind::ActionListAI { actions: vec![], interval: 5 }), Ok(()));
    assert_eq!(game.render_frame(), vec![vec!['P', '*', '*'], vec!['*', 'B', 'F']]);
}

#[test]
fn frame_leaves_out_ships_off_the_board() {
    let mut game = GameState::with_size(2, 2);
    assert_eq!(game.spawn((7, 7), ShipKind::Stationary), Ok(()));
    assert_eq!(game.render_frame(), vec![vec!['*', '*'], vec!['*', '*']]);
    assert_eq!(game.render_view(), vec![((7, 7), 'P')]);
}

#[test]
fn decide_at_advances_one_ship_only() {
    let mut game = GameState::new();
    assert_eq!(game.spawn((0, 0), ShipKind::PeriodicMover { interval: 2 }), Ok(()));
    assert_eq!(game.spawn((1, 0), ShipKind::PeriodicMover { interval: 2 }), Ok(()));
    assert_eq!(game.decide_at((0, 0)), Some(ship_sim::action::ShipAction::Stay));
    assert_eq!(game.decide_at((3, 3)), None);
    assert_eq!(game.decide_at((0, 0)), Some(ship_sim::action::ShipAction::Move(0, 1)));
    assert_eq!(game.decide_at((1, 0)), Some(ship_sim::action::ShipAction::Stay));
    assert_eq!(game.render_view(), vec![((0, 0), 'F'), ((1, 0), 'F')]);
}
