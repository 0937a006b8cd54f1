use ship_sim::action::ShipAction;
use ship_sim::error::SimError;
use ship_sim::periodic::PeriodicMover;
use ship_sim::position::Grid;
use ship_sim::ship::Ship;
use ship_sim::ship::ShipKind;
use ship_sim::ship_ai::ShipAI;

#[test]
fn periodic_mover_moves_once_every_interval() {
    for interval in 1..=12u32 {
        let mut mover = match PeriodicMover::new(interval) {
            Ok(mover) => mover,
            Err(_) => panic!("the interval is not zero"),
        };
        assert_eq!(mover.interval(), interval);
        assert_eq!(mover.time_stationary(), 0);
        let mut moves = 0;
        for call in 1..=60u32 {
            let action = mover.tick();
            if call % interval == 0 {
                assert_eq!(action, ShipAction::Move(0, 1));
                moves += 1;
            } else {
                assert_eq!(action, ShipAction::Stay);
            }
            assert_eq!(mover.time_stationary(), call % interval);
            assert_eq!(moves, call / interval);
        }
    }
}

#[test]
fn periodic_mover_with_interval_three() {
    let mut mover = PeriodicMover::new(3).ok().expect("the interval is not zero");
    let got: Vec<ShipAction> = (0..7).map(|_| mover.tick()).collect();
    assert_eq!(
        got,
        vec![
            ShipAction::Stay,
            ShipAction::Stay,
            ShipAction::Move(0, 1),
            ShipAction::Stay,
            ShipAction::Stay,
            ShipAction::Move(0, 1),
            ShipAction::Stay,
        ]
    );
}

#[test]
fn periodic_mover_refuses_interval_zero() {
    assert!(matches!(PeriodicMover::new(0), Err(SimError::InvalidConfiguration)));
}

#[test]
fn ship_ai_refuses_interval_zero() {
    assert!(matches!(ShipAI::new(0), Err(SimError::InvalidConfiguration)));
    assert!(matches!(
        ShipAI::with_actions(0, vec![ShipAction::Move(1, 0)]),
        Err(SimError::InvalidConfiguration)
    ));
    assert!(matches!(ShipAI::with_actions(0, vec![]), Err(SimError::InvalidConfiguration)));
}

#[test]
fn ship_ai_emits_its_actions_in_turn() {
    let actions = vec![ShipAction::Move(1, 0), ShipAction::Move(0, -1), ShipAction::Stay];
    let mut ai = ShipAI::with_actions(2, actions.clone()).ok().expect("the interval is not zero");
    assert_eq!(ai.tick_interval(), 2);
    assert_eq!(ai.current_tick(), 0);
    for call in 1..=20usize {
        let action = ai.tick();
        if call % 2 == 0 {
            assert_eq!(action, actions[(call / 2 - 1) % 3]);
        } else {
            assert_eq!(action, ShipAction::Stay);
        }
        assert_eq!(ai.current_tick(), (call % 2) as u64);
    }
}

#[test]
fn ship_ai_new_steps_right_every_interval() {
    let mut ai = ShipAI::new(10).ok().expect("the interval is not zero");
    assert_eq!(ai.tick_interval(), 10);
    assert_eq!(ai.current_tick(), 0);
    for call in 1..=35u32 {
        let expected = if call % 10 == 0 { ShipAction::Move(1, 0) } else { ShipAction::Stay };
        assert_eq!(ai.tick(), expected);
    }
}

#[test]
fn ship_ai_without_actions_stays() {
    let mut ai = ShipAI::with_actions(1, vec![]).ok().expect("the interval is not zero");
    for _ in 0..5 {
        assert_eq!(ai.tick(), ShipAction::Stay);
    }
}

#[test]
fn ship_ai_counter_does_not_overflow() {
    let mut ai = ShipAI::with_actions(u64::MAX, vec![ShipAction::Move(1, 1)])
        .ok()
        .expect("the interval is not zero");
    assert_eq!(ai.tick(), ShipAction::Stay);
    assert_eq!(ai.current_tick(), 1);
    let mut mover = PeriodicMover::new(u32::MAX).ok().expect("the interval is not zero");
    assert_eq!(mover.tick(), ShipAction::Stay);
    assert_eq!(mover.time_stationary(), 1);
}

#[test]
fn ship_decides_by_its_kind() {
    let mut still = Ship::build(ShipKind::Stationary).ok().expect("valid");
    let mut mover = Ship::build(ShipKind::PeriodicMover { interval: 2 }).ok().expect("valid");
    let mut led = Ship::build(ShipKind::ActionListAI { actions: vec![ShipAction::Move(-1, 1)], interval: 1 })
        .ok()
        .expect("valid");
    assert_eq!(still.symbol(), 'P');
    assert_eq!(mover.symbol(), 'F');
    assert_eq!(led.symbol(), 'B');
    assert_eq!(still.decide(), ShipAction::Stay);
    assert_eq!(still.decide(), ShipAction::Stay);
    assert_eq!(mover.decide(), ShipAction::Stay);
    assert_eq!(mover.decide(), ShipAction::Move(0, 1));
    assert_eq!(led.decide(), ShipAction::Move(-1, 1));
    assert_eq!(led.decide(), ShipAction::Move(-1, 1));
}

#[test]
fn ship_build_refuses_interval_zero() {
    assert!(matches!(Ship::build(ShipKind::PeriodicMover { interval: 0 }), Err(SimError::InvalidConfiguration)));
    assert!(matches!(
        Ship::build(ShipKind::ActionListAI { actions: vec![ShipAction::Stay], interval: 0 }),
        Err(SimError::InvalidConfiguration)
    ));
    assert!(Ship::build(ShipKind::Stationary).is_ok());
}

#[test]
fn wrapping_add_exact_values() {
    let grid = Grid::new(5, 7);
    assert_eq!(grid.width(), 5);
    assert_eq!(grid.height(), 7);
    assert_eq!(grid.wrapping_add((0, 0), 0, 0), (0, 0));
    assert_eq!(grid.wrapping_add((2, 3), 1, 1), (3, 4));
    assert_eq!(grid.wrapping_add((4, 6), 1, 1), (0, 0));
    assert_eq!(grid.wrapping_add((0, 0), -1, -1), (4, 6));
    assert_eq!(grid.wrapping_add((1, 2), 127, 127), (3, 3));
    assert_eq!(grid.wrapping_add((1, 2), -128, -128), (3, 0));
    assert_eq!(grid.wrapping_add((255, 255), 127, 127), (2, 4));
    assert_eq!(grid.wrapping_add((255, 255), 0, 0), (0, 3));
    assert_eq!(grid.wrapping_add((0, 0), -128, -128), (2, 5));
}

#[test]
fn wrapping_add_agrees_with_the_remainder() {
    for (width, height) in [(1u8, 1u8), (2, 3), (5, 5), (255, 254), (16, 200)] {
        let grid = Grid::new(width, height);
        for x in [0u8, 1, 2, 100, 254, 255] {
            for y in [0u8, 3, 199, 255] {
                for dx in [-128i8, -1, 0, 1, 127] {
                    for dy in [-128i8, -7, 0, 5, 127] {
                        let got = grid.wrapping_add((x, y), dx, dy);
                        let ex = (x as i32 + dx as i32).rem_euclid(width as i32) as u8;
                        let ey = (y as i32 + dy as i32).rem_euclid(height as i32) as u8;
                        assert_eq!(got, (ex, ey));
                        assert!(got.0 < width && got.1 < height);
                    }
                }
            }
        }
    }
}

#[test]
fn on_a_board_of_one_cell_every_move_ends_where_it_began() {
    let grid = Grid::new(1, 1);
    assert_eq!(grid.wrapping_add((0, 0), 1, -1), (0, 0));
    assert_eq!(grid.wrapping_add((9, 9), 5, 5), (0, 0));
}
