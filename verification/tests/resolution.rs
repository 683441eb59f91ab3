use mapwar::game_state::{
    AnimationEvent, Command, GameAction, GameState, PlayerState, Territory, TerritorySort,
};
use mapwar::resolve::{
    apply_moves, base_points, pick_movers, resolve_combat, tally_points, IncomingEntry,
};
use mapwar::rng::Rng;

fn skilled(defense_level: i32) -> PlayerState {
    PlayerState { is_alive: true, defense_level, attack_level: 0, vision_level: 0, growth_level: 0 }
}

fn place(
    sort: TerritorySort,
    contents: Option<(usize, i32)>,
    command: Command,
    adjacent: Vec<usize>,
    at: (i32, i32),
) -> Territory {
    Territory { sort, contents, command, adjacent, render_info: at }
}

fn game_of(seed: u64, players: Vec<PlayerState>, territories: Vec<Territory>) -> GameState {
    let mut game = GameState::new(seed);
    for (index, state) in players.into_iter().enumerate() {
        game.player_states.push(state);
        game.player_indices_by_token.push((format!("player-{}", index), index));
    }
    game.territories = territories;
    game
}

fn occupancy(game: &GameState) -> Vec<Option<(usize, i32)>> {
    game.territories.iter().map(|t| t.contents).collect()
}

fn march(seed: u64) -> GameState {
    game_of(
        seed,
        vec![skilled(0)],
        vec![
            place(TerritorySort::Land, Some((0, 10)), Command::Attack { target: 1 }, vec![1], (3, 4)),
            place(TerritorySort::Land, None, Command::Grow, vec![0], (7, 8)),
        ],
    )
}

fn overrun(seed: u64) -> GameState {
    game_of(
        seed,
        vec![skilled(0), skilled(0)],
        vec![
            place(TerritorySort::Land, Some((0, 0)), Command::Grow, vec![1], (1, 2)),
            place(TerritorySort::Land, Some((1, 100)), Command::Attack { target: 0 }, vec![0], (5, 6)),
        ],
    )
}

fn mixed(seed: u64) -> GameState {
    game_of(
        seed,
        vec![skilled(1), skilled(0)],
        vec![
            place(TerritorySort::Land, Some((0, 3)), Command::Attack { target: 1 }, vec![1], (0, 0)),
            place(TerritorySort::Forest, Some((1, 2)), Command::Fortify, vec![0, 2], (1, 0)),
            place(TerritorySort::Swamp, Some((1, 4)), Command::Attack { target: 1 }, vec![1], (2, 0)),
        ],
    )
}

fn tied(seed: u64) -> GameState {
    game_of(
        seed,
        vec![skilled(0), skilled(0)],
        vec![
            place(TerritorySort::Land, Some((0, 3)), Command::Attack { target: 2 }, vec![2], (0, 0)),
            place(TerritorySort::Land, Some((1, 3)), Command::Attack { target: 2 }, vec![2], (1, 0)),
            place(TerritorySort::Land, None, Command::Grow, vec![0, 1], (2, 0)),
        ],
    )
}

#[test]
fn base_defense_by_terrain_and_stance() {
    let players = vec![skilled(1), skilled(0)];
    let t = place(TerritorySort::Land, Some((0, 3)), Command::Attack { target: 0 }, vec![], (0, 0));
    assert_eq!(base_points(&t, &players), 8);
    let t = place(TerritorySort::Land, Some((0, 3)), Command::Grow, vec![], (0, 0));
    assert_eq!(base_points(&t, &players), 11);
    let t = place(TerritorySort::Forest, Some((1, 2)), Command::Fortify, vec![], (0, 0));
    assert_eq!(base_points(&t, &players), 8);
    let t = place(TerritorySort::Swamp, Some((1, 4)), Command::Attack { target: 0 }, vec![], (0, 0));
    assert_eq!(base_points(&t, &players), 2);
    let t = place(TerritorySort::Swamp, Some((1, 0)), Command::Grow, vec![], (0, 0));
    assert_eq!(base_points(&t, &players), -2);
    let t = place(TerritorySort::Tower, Some((1, 5)), Command::Fortify, vec![], (0, 0));
    assert_eq!(base_points(&t, &players), 17);
    let t = place(TerritorySort::Gold, None, Command::Fortify, vec![], (0, 0));
    assert_eq!(base_points(&t, &players), 0);
}

#[test]
fn base_defense_at_the_extremes() {
    let players = vec![skilled(i32::MAX)];
    let t = place(TerritorySort::Lab, Some((0, i32::MAX)), Command::Fortify, vec![], (0, 0));
    assert_eq!(base_points(&t, &players), 5 * (i32::MAX as i128) + 2);
    let players = vec![skilled(i32::MIN)];
    let t = place(TerritorySort::Lab, Some((0, i32::MIN)), Command::Grow, vec![], (0, 0));
    assert_eq!(base_points(&t, &players), 5 * (i32::MIN as i128));
}

#[test]
fn tallies_tell_friend_from_foe() {
    let game = mixed(1);
    let (defense, attack) = tally_points(&game.territories, &game.player_states);
    assert_eq!(defense, vec![8, 12, 2]);
    assert_eq!(attack, vec![0, 3, 0]);
}

#[test]
fn tallies_of_an_attack_on_empty_land() {
    let game = march(1);
    let (defense, attack) = tally_points(&game.territories, &game.player_states);
    assert_eq!(defense, vec![20, 0]);
    assert_eq!(attack, vec![0, 10]);
}

#[test]
fn tallies_accumulate_over_attackers() {
    let game = game_of(
        1,
        vec![skilled(0), skilled(0)],
        vec![
            place(TerritorySort::Land, Some((0, 5)), Command::Attack { target: 2 }, vec![2], (0, 0)),
            place(TerritorySort::Land, Some((1, 5)), Command::Attack { target: 2 }, vec![2], (0, 0)),
            place(TerritorySort::Land, None, Command::Grow, vec![0, 1, 3], (0, 0)),
            place(TerritorySort::Land, Some((0, 7)), Command::Attack { target: 2 }, vec![2], (0, 0)),
        ],
    );
    let (defense, attack) = tally_points(&game.territories, &game.player_states);
    assert_eq!(defense, vec![10, 10, 0, 14]);
    assert_eq!(attack, vec![0, 0, 17, 0]);
}

#[test]
fn lone_mover_takes_the_empty_territory() {
    for seed in [0u64, 3, 9, 1234, u64::MAX] {
        let mut game = march(seed);
        let events = game.step_time();
        assert_eq!(occupancy(&game), vec![None, Some((0, 10))]);
        let moves: Vec<&AnimationEvent> =
            events.iter().filter(|e| matches!(e, AnimationEvent::Movement { .. })).collect();
        assert_eq!(moves.len(), 1);
        assert_eq!(
            *moves[0],
            AnimationEvent::Movement { render_info_from: (3, 4), render_info_to: (7, 8), amount: 10 }
        );
    }
}

#[test]
fn lone_mover_exact_log() {
    let mut game = march(3);
    let events = game.step_time();
    assert_eq!(
        events,
        vec![
            AnimationEvent::Death { render_info: (7, 8), amount: 0 },
            AnimationEvent::Movement { render_info_from: (3, 4), render_info_to: (7, 8), amount: 10 },
        ]
    );
    let mut expected = Rng::new_from_seed(33);
    assert_eq!(game.rng.generate(), expected.generate());
}

#[test]
fn undefended_territory_falls() {
    for seed in [0u64, 3, 9, 77, 1 << 40] {
        let mut game = overrun(seed);
        let events = game.step_time();
        let deaths: Vec<&AnimationEvent> =
            events.iter().filter(|e| matches!(e, AnimationEvent::Death { .. })).collect();
        assert_eq!(deaths.len(), 1);
        assert_eq!(*deaths[0], AnimationEvent::Death { render_info: (1, 2), amount: 0 });
        assert_ne!(game.territories[0].contents, Some((0, 0)));
        assert_eq!(occupancy(&game), vec![Some((1, 100)), None]);
        assert_eq!(
            events[1],
            AnimationEvent::Movement { render_info_from: (5, 6), render_info_to: (1, 2), amount: 100 }
        );
    }
}

#[test]
fn death_reports_the_units_lost() {
    let mut game = game_of(
        5,
        vec![skilled(0), skilled(0)],
        vec![
            place(TerritorySort::Swamp, Some((0, 1)), Command::Grow, vec![1], (1, 1)),
            place(TerritorySort::Land, Some((1, 50)), Command::Attack { target: 0 }, vec![0], (2, 2)),
        ],
    );
    let events = game.step_time();
    assert_eq!(
        events,
        vec![
            AnimationEvent::Death { render_info: (1, 1), amount: 1 },
            AnimationEvent::Movement { render_info_from: (2, 2), render_info_to: (1, 1), amount: 50 },
        ]
    );
    assert_eq!(occupancy(&game), vec![Some((1, 50)), None]);
}

#[test]
fn well_defended_territory_holds() {
    for seed in 1..6u64 {
        let mut game = mixed(seed);
        let events = game.step_time();
        assert_eq!(events, vec![]);
        assert_eq!(occupancy(&game), vec![Some((0, 3)), Some((1, 2)), Some((1, 4))]);
        let mut expected = Rng::new_from_seed(seed + 25);
        assert_eq!(game.rng.generate(), expected.generate());
    }
}

#[test]
fn unattacked_territories_never_fall() {
    for seed in 0..200u64 {
        let mut game = mixed(seed);
        game.step_time();
        assert_eq!(game.territories[0].contents, Some((0, 3)));
        assert_eq!(game.territories[2].contents, Some((1, 4)));
    }
}

#[test]
fn unattacked_territory_survives_with_negative_defense() {
    for seed in 0..50u64 {
        let mut game = game_of(
            seed,
            vec![skilled(-5)],
            vec![place(TerritorySort::Swamp, Some((0, 1)), Command::Grow, vec![], (0, 0))],
        );
        let events = game.step_time();
        assert_eq!(events, vec![]);
        assert_eq!(game.territories[0].contents, Some((0, 1)));
        let mut untouched = Rng::new_from_seed(seed);
        assert_eq!(game.rng.generate(), untouched.generate());
    }
}

#[test]
fn strongest_claimant_moves_in() {
    for seed in [1u64, 2, 500] {
        let mut game = game_of(
            seed,
            vec![skilled(0), skilled(0)],
            vec![
                place(TerritorySort::Land, Some((0, 5)), Command::Attack { target: 2 }, vec![2], (0, 0)),
                place(TerritorySort::Land, Some((1, 5)), Command::Attack { target: 2 }, vec![2], (1, 0)),
                place(TerritorySort::Land, None, Command::Grow, vec![0, 1, 3], (2, 0)),
                place(TerritorySort::Land, Some((0, 7)), Command::Attack { target: 2 }, vec![2], (3, 0)),
            ],
        );
        let events = game.step_time();
        assert_eq!(occupancy(&game), vec![Some((0, 5)), Some((1, 5)), Some((0, 7)), None]);
        assert_eq!(
            events[events.len() - 1],
            AnimationEvent::Movement { render_info_from: (3, 0), render_info_to: (2, 0), amount: 7 }
        );
    }
}

#[test]
fn tie_is_decided_by_one_draw() {
    let expected = [1usize, 0, 0, 0, 0, 1, 1, 0, 1, 0];
    for seed in 0..10u64 {
        let mut game = tied(seed);
        game.step_time();
        let winner = expected[seed as usize];
        let loser = 1 - winner;
        assert_eq!(game.territories[2].contents, Some((winner, 3)));
        assert_eq!(game.territories[winner].contents, None);
        assert_eq!(game.territories[loser].contents, Some((loser, 3)));
    }
}

#[test]
fn tie_break_is_fair() {
    let mut second_wins = 0;
    for seed in 0..2000u64 {
        let mut game = tied(seed);
        game.step_time();
        if game.territories[2].contents == Some((1, 3)) {
            second_wins += 1;
        }
    }
    assert_eq!(second_wins, 1008);
    assert!(second_wins > 900 && second_wins < 1100);
}

#[test]
fn three_way_tie_is_fair() {
    let mut wins = [0u32; 3];
    for seed in 0..3000u64 {
        let mut territories = Vec::new();
        for owner in 0..3usize {
            territories.push(place(
                TerritorySort::Land,
                Some((owner, 2)),
                Command::Attack { target: 3 },
                vec![3],
                (owner as i32, 0),
            ));
        }
        territories.push(place(TerritorySort::Land, None, Command::Grow, vec![0, 1, 2], (3, 0)));
        let mut rng = Rng::new_from_seed(seed);
        let best = pick_movers(&territories, &mut rng);
        assert_eq!(best[3].units, 2);
        assert_eq!(best[3].competitor_count, 3);
        wins[best[3].source_territory.unwrap()] += 1;
    }
    for count in wins {
        assert!(count > 850 && count < 1150);
    }
}

#[test]
fn nobody_moves_into_occupied_land() {
    let territories = vec![
        place(TerritorySort::Land, Some((0, 9)), Command::Attack { target: 1 }, vec![1], (0, 0)),
        place(TerritorySort::Land, Some((1, 1)), Command::Grow, vec![0], (1, 0)),
    ];
    let mut rng = Rng::new_from_seed(4);
    let best = pick_movers(&territories, &mut rng);
    let nobody = IncomingEntry { units: -1, source_territory: None, competitor_count: 0 };
    assert_eq!(best, vec![nobody, nobody]);
    let mut untouched = Rng::new_from_seed(4);
    assert_eq!(rng.generate(), untouched.generate());
}

#[test]
fn sole_claimant_is_picked_without_a_draw() {
    for seed in 0..100u64 {
        let game = march(seed);
        let mut territories = game.territories;
        let mut rng = Rng::new_from_seed(seed);
        let best = pick_movers(&territories, &mut rng);
        assert_eq!(
            best[1],
            IncomingEntry { units: 10, source_territory: Some(0), competitor_count: 1 }
        );
        assert_eq!(best[0].source_territory, None);
        let mut untouched = Rng::new_from_seed(seed);
        assert_eq!(rng.generate(), untouched.generate());
        let mut events = Vec::new();
        apply_moves(&mut territories, &best, &mut events);
        assert_eq!(territories[1].contents, Some((0, 10)));
        assert_eq!(territories[0].contents, None);
        assert_eq!(events.len(), 1);
    }
}

#[test]
fn combat_draws_defense_before_attack() {
    let mut territories = vec![
        place(TerritorySort::Land, Some((0, 1)), Command::Grow, vec![], (4, 4)),
    ];
    let mut rng = Rng::new_from_seed(0);
    let mut events = Vec::new();
    resolve_combat(&mut territories, &mut rng, &vec![1], &vec![1], &mut events);
    // From seed 0 the first draw gives 2 and the second 0: the defense holds.
    assert_eq!(events, vec![]);
    assert_eq!(territories[0].contents, Some((0, 1)));
    let mut expected = Rng::new_from_seed(2);
    assert_eq!(rng.generate(), expected.generate());
}

#[test]
fn combat_needs_a_strictly_greater_attack() {
    let mut territories = vec![
        place(TerritorySort::Land, Some((0, 1)), Command::Grow, vec![], (4, 4)),
    ];
    let mut rng = Rng::new_from_seed(0);
    let mut events = Vec::new();
    resolve_combat(&mut territories, &mut rng, &vec![0], &vec![1], &mut events);
    assert_eq!(events, vec![AnimationEvent::Death { render_info: (4, 4), amount: 1 }]);
    assert_eq!(territories[0].contents, None);
    let mut territories = vec![
        place(TerritorySort::Land, Some((0, 1)), Command::Grow, vec![], (4, 4)),
    ];
    let mut rng = Rng::new_from_seed(0);
    let mut events = Vec::new();
    resolve_combat(&mut territories, &mut rng, &vec![0], &vec![0], &mut events);
    assert_eq!(events, vec![]);
    assert_eq!(territories[0].contents, Some((0, 1)));
}

#[test]
fn replay_is_deterministic() {
    for seed in [0u64, 17, 9999] {
        let mut first = tied(seed);
        let mut second = tied(seed);
        let mut first_log = Vec::new();
        let mut second_log = Vec::new();
        for round in 0..6 {
            let action = if round % 2 == 0 {
                GameAction::SetCommand { territory: 2, command: Command::Attack { target: 0 } }
            } else {
                GameAction::SetCommand { territory: 0, command: Command::Attack { target: 2 } }
            };
            for token in ["player-0", "player-1"] {
                let a = first.process_action(&token.to_string(), action);
                let b = second.process_action(&token.to_string(), action);
                assert_eq!(a, b);
            }
            first_log.push(first.step_time());
            second_log.push(second.step_time());
        }
        assert_eq!(first_log, second_log);
        assert_eq!(occupancy(&first), occupancy(&second));
        assert_eq!(first.rng.generate(), second.rng.generate());
    }
}

#[test]
fn step_leaves_commands_and_players_alone() {
    let mut game = tied(8);
    game.step_time();
    assert_eq!(game.territories[0].command, Command::Attack { target: 2 });
    assert_eq!(game.territories[1].command, Command::Attack { target: 2 });
    assert_eq!(game.territories[2].command, Command::Grow);
    assert_eq!(game.player_states, vec![skilled(0), skilled(0)]);
    assert_eq!(game.player_indices_by_token.len(), 2);
}

#[test]
fn step_of_an_empty_game_does_nothing() {
    let mut game = GameState::new(11);
    assert_eq!(game.step_time(), vec![]);
    let mut untouched = Rng::new_from_seed(11);
    assert_eq!(game.rng.generate(), untouched.generate());
}

#[test]
fn tie_goes_by_the_parity_of_the_draw() {
    for seed in 100..400u64 {
        let mut game = tied(seed);
        game.step_time();
        // Combat draws 18 values here; the contest draws the next one.
        let mut source = Rng::new_from_seed(seed + 18);
        let winner = if source.generate() % 2 == 0 { 1 } else { 0 };
        assert_eq!(game.territories[2].contents, Some((winner, 3)));
        assert_eq!(game.rng.generate(), source.generate());
    }
}
