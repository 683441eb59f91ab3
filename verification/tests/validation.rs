use mapwar::game_state::{
    find_player, is_adjacent, ActionError, Command, GameAction, GameState, PlayerState, Territory,
    TerritorySort,
};

fn player(is_alive: bool) -> PlayerState {
    PlayerState { is_alive, defense_level: 0, attack_level: 0, vision_level: 0, growth_level: 0 }
}

fn land(contents: Option<(usize, i32)>, adjacent: Vec<usize>, at: (i32, i32)) -> Territory {
    Territory { sort: TerritorySort::Land, contents, command: Command::Grow, adjacent, render_info: at }
}

/// Three territories in a row; alice holds 0, bob holds 2, 1 is empty.
fn small_game() -> GameState {
    let mut game = GameState::new(1);
    game.player_states.push(player(true));
    game.player_states.push(player(true));
    game.player_indices_by_token.push(("alice".to_string(), 0));
    game.player_indices_by_token.push(("bob".to_string(), 1));
    game.territories.push(land(Some((0, 5)), vec![1], (0, 0)));
    game.territories.push(land(None, vec![0, 2], (10, 0)));
    game.territories.push(land(Some((1, 5)), vec![1], (20, 0)));
    game
}

fn snapshot(game: &GameState) -> String {
    format!("{:?}", game)
}

fn set(territory: usize, command: Command) -> GameAction {
    GameAction::SetCommand { territory, command }
}

#[test]
fn new_game_is_empty() {
    let game = GameState::new(9);
    assert!(game.territories.is_empty());
    assert!(game.player_states.is_empty());
    assert!(game.player_indices_by_token.is_empty());
}

#[test]
fn unknown_token_is_rejected() {
    let mut game = small_game();
    let before = snapshot(&game);
    let res = game.process_action(&"carol".to_string(), GameAction::Resign);
    assert_eq!(res, Err(ActionError::PlayerNotFound));
    assert_eq!(snapshot(&game), before);
}

#[test]
fn dead_player_is_rejected() {
    let mut game = small_game();
    game.player_states[0].is_alive = false;
    let before = snapshot(&game);
    let res = game.process_action(&"alice".to_string(), set(0, Command::Fortify));
    assert_eq!(res, Err(ActionError::PlayerAlreadyDead));
    assert_eq!(snapshot(&game), before);
}

#[test]
fn territory_out_of_range_is_rejected() {
    let mut game = small_game();
    let before = snapshot(&game);
    let res = game.process_action(&"alice".to_string(), set(3, Command::Fortify));
    assert_eq!(res, Err(ActionError::TerritoryNotFound));
    assert_eq!(snapshot(&game), before);
}

#[test]
fn empty_territory_is_rejected() {
    let mut game = small_game();
    let before = snapshot(&game);
    let res = game.process_action(&"alice".to_string(), set(1, Command::Fortify));
    assert_eq!(res, Err(ActionError::TerritoryEmpty));
    assert_eq!(snapshot(&game), before);
}

#[test]
fn foreign_territory_is_rejected() {
    let mut game = small_game();
    let before = snapshot(&game);
    let res = game.process_action(&"alice".to_string(), set(2, Command::Fortify));
    assert_eq!(res, Err(ActionError::NotOwner));
    assert_eq!(snapshot(&game), before);
}

#[test]
fn target_out_of_range_is_rejected() {
    let mut game = small_game();
    let before = snapshot(&game);
    let res = game.process_action(&"alice".to_string(), set(0, Command::Attack { target: 3 }));
    assert_eq!(res, Err(ActionError::TargetNotFound));
    assert_eq!(snapshot(&game), before);
}

#[test]
fn distant_target_is_rejected() {
    let mut game = small_game();
    let before = snapshot(&game);
    let res = game.process_action(&"alice".to_string(), set(0, Command::Attack { target: 2 }));
    assert_eq!(res, Err(ActionError::TargetNotAdjacent));
    assert_eq!(snapshot(&game), before);
}

#[test]
fn territory_is_checked_before_target() {
    let mut game = small_game();
    let res = game.process_action(&"alice".to_string(), set(7, Command::Attack { target: 9 }));
    assert_eq!(res, Err(ActionError::TerritoryNotFound));
    let res = game.process_action(&"alice".to_string(), set(2, Command::Attack { target: 9 }));
    assert_eq!(res, Err(ActionError::NotOwner));
}

#[test]
fn adjacent_attack_is_accepted() {
    let mut game = small_game();
    let res = game.process_action(&"alice".to_string(), set(0, Command::Attack { target: 1 }));
    assert_eq!(res, Ok(()));
    assert_eq!(game.territories[0].command, Command::Attack { target: 1 });
    assert!(game.territories[0].adjacent.contains(&1));
    assert_eq!(game.territories[1].command, Command::Grow);
    assert_eq!(game.territories[2].command, Command::Grow);
    assert_eq!(game.territories[0].contents, Some((0, 5)));
}

#[test]
fn last_command_wins() {
    let mut game = small_game();
    let token = "bob".to_string();
    assert_eq!(game.process_action(&token, set(2, Command::Attack { target: 1 })), Ok(()));
    assert_eq!(game.process_action(&token, set(2, Command::Fortify)), Ok(()));
    assert_eq!(game.territories[2].command, Command::Fortify);
    assert_eq!(game.process_action(&token, set(2, Command::Grow)), Ok(()));
    assert_eq!(game.territories[2].command, Command::Grow);
}

#[test]
fn resignation_marks_the_player_dead_and_keeps_the_land() {
    let mut game = small_game();
    let res = game.process_action(&"alice".to_string(), GameAction::Resign);
    assert_eq!(res, Ok(()));
    assert!(!game.player_states[0].is_alive);
    assert!(game.player_states[1].is_alive);
    assert_eq!(game.territories[0].contents, Some((0, 5)));
}

#[test]
fn second_resignation_is_rejected() {
    let mut game = small_game();
    let token = "alice".to_string();
    assert_eq!(game.process_action(&token, GameAction::Resign), Ok(()));
    let before = snapshot(&game);
    assert_eq!(game.process_action(&token, GameAction::Resign), Err(ActionError::PlayerAlreadyDead));
    assert_eq!(
        game.process_action(&token, set(0, Command::Fortify)),
        Err(ActionError::PlayerAlreadyDead)
    );
    assert_eq!(snapshot(&game), before);
}

#[test]
fn lookup_finds_each_token() {
    let game = small_game();
    assert_eq!(find_player(&game.player_indices_by_token, &"alice".to_string()), Some(0));
    assert_eq!(find_player(&game.player_indices_by_token, &"bob".to_string()), Some(1));
    assert_eq!(find_player(&game.player_indices_by_token, &"Bob".to_string()), None);
    assert_eq!(find_player(&Vec::new(), &"bob".to_string()), None);
}

#[test]
fn adjacency_is_membership() {
    assert!(is_adjacent(&vec![4, 2, 9], 9));
    assert!(is_adjacent(&vec![4, 2, 9], 4));
    assert!(!is_adjacent(&vec![4, 2, 9], 3));
    assert!(!is_adjacent(&Vec::new(), 0));
}

#[test]
fn each_rejection_has_its_text() {
    assert_eq!(ActionError::PlayerNotFound.message(), "Player not found");
    assert_eq!(ActionError::PlayerAlreadyDead.message(), "Player already dead");
    assert_eq!(ActionError::TerritoryNotFound.message(), "Territory not found");
    assert_eq!(ActionError::TerritoryEmpty.message(), "Territory is empty");
    assert_eq!(ActionError::NotOwner.message(), "Player does not own territory");
    assert_eq!(ActionError::TargetNotFound.message(), "Target territory not found");
    assert_eq!(ActionError::TargetNotAdjacent.message(), "Target territory not adjacent");
}
