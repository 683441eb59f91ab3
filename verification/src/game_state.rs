//! The world model (territories, players, the token lookup), the validation
//! of player actions, and the entry point that resolves one time step.

use vstd::prelude::*;
use crate::rng::Rng;
use crate::laws::{
    lemma_action_keeps_well_formed, lemma_combat_keeps_well_formed, lemma_moves_keep_well_formed,
};
use crate::resolve::{
    apply_moves, as_ints, board, combat_scan, combat_state, contest_scan, contest_state, move_scan,
    pick_movers, resolve_combat, start_of_combat, start_of_contest, step_outcome, tally_points,
};

verus! {

pub type PlayerToken = String;

pub type PlayerIndex = usize;

pub type TerritoryIndex = usize;

/// What a player may ask of the simulation.
#[derive(Debug, Clone, Copy, PartialEq, Eq)]
pub enum GameAction {
    SetCommand { territory: TerritoryIndex, command: Command },
    Resign,
}

/// The standing order of one territory for the next step.
#[derive(Debug, Clone, Copy, PartialEq, Eq)]
pub enum Command {
    Attack { target: TerritoryIndex },
    Fortify,
    Grow,
}

#[derive(Debug, Clone, Copy, PartialEq, Eq)]
pub struct PlayerState {
    pub is_alive: bool,
    pub defense_level: i32,
    pub attack_level: i32,
    pub vision_level: i32,
    pub growth_level: i32,
}

#[derive(Debug, Clone, Copy, PartialEq, Eq)]
pub enum TerritorySort {
    /// Land is the default.
    Land,
    /// Units on swamp territory defend worse.
    Swamp,
    /// Units on forest territory defend better.
    Forest,
    /// Units on towers see further.
    Tower,
    /// Gold territory yields gold.
    Gold,
    /// Lab territory yields research.
    Lab,
}

#[derive(Debug)]
pub struct Territory {
    pub sort: TerritorySort,
    /// The owning player and the unit count, if anyone is here.
    pub contents: Option<(PlayerIndex, i32)>,
    pub command: Command,
    pub adjacent: Vec<TerritoryIndex>,
    pub render_info: (i32, i32),
}

/// A visible consequence of a resolved step.
#[derive(Debug, Clone, Copy, PartialEq, Eq)]
pub enum AnimationEvent {
    Death { render_info: (i32, i32), amount: i32 },
    Movement { render_info_from: (i32, i32), render_info_to: (i32, i32), amount: i32 },
}

/// Why an action was rejected.
#[derive(Debug, Clone, Copy, PartialEq, Eq)]
pub enum ActionError {
    PlayerNotFound,
    PlayerAlreadyDead,
    TerritoryNotFound,
    TerritoryEmpty,
    NotOwner,
    TargetNotFound,
    TargetNotAdjacent,
}

/// A territory as the contracts see it: the adjacency list as a sequence.
pub struct TerritoryView {
    pub sort: TerritorySort,
    pub contents: Option<(PlayerIndex, i32)>,
    pub command: Command,
    pub adjacent: Seq<TerritoryIndex>,
    pub render_info: (i32, i32),
}

impl View for Territory {
    type V = TerritoryView;

    open spec fn view(&self) -> TerritoryView {
        TerritoryView {
            sort: self.sort,
            contents: self.contents,
            command: self.command,
            adjacent: self.adjacent@,
            render_info: self.render_info,
        }
    }
}

/// The whole game as the contracts see it.
pub struct WorldView {
    /// The counter of the random source.
    pub rng: u64,
    pub territories: Seq<TerritoryView>,
    pub players: Seq<PlayerState>,
    /// The known tokens, each with the index of its player.
    pub tokens: Seq<(Seq<char>, PlayerIndex)>,
}

#[derive(Debug)]
pub struct GameState {
    pub rng: Rng,
    pub territories: Vec<Territory>,
    pub player_states: Vec<PlayerState>,
    /// Each known token with the index of its player; no token stands twice.
    pub player_indices_by_token: Vec<(PlayerToken, PlayerIndex)>,
}

pub open spec fn territory_views(territories: Seq<Territory>) -> Seq<TerritoryView> {
    territories.map_values(|t: Territory| t@)
}

pub open spec fn token_views(entries: Seq<(PlayerToken, PlayerIndex)>) -> Seq<
    (Seq<char>, PlayerIndex),
> {
    entries.map_values(|e: (PlayerToken, PlayerIndex)| (e.0@, e.1))
}

impl View for GameState {
    type V = WorldView;

    open spec fn view(&self) -> WorldView {
        WorldView {
            rng: self.rng@,
            territories: territory_views(self.territories@),
            players: self.player_states@,
            tokens: token_views(self.player_indices_by_token@),
        }
    }
}

/// The owner of an occupied territory (0 where nobody is there).
pub open spec fn owner_of(contents: Option<(PlayerIndex, i32)>) -> PlayerIndex {
    match contents {
        Some((owner, _)) => owner,
        None => 0,
    }
}

/// The unit count of a territory (0 where nobody is there).
pub open spec fn units_of(contents: Option<(PlayerIndex, i32)>) -> i32 {
    match contents {
        Some((_, units)) => units,
        None => 0,
    }
}

/// Every owner is the index of a player.
pub open spec fn owners_in_bounds(territories: Seq<TerritoryView>, players: nat) -> bool {
    forall|i: int|
        0 <= i < territories.len() && (#[trigger] territories[i]).contents is Some ==> owner_of(
            territories[i].contents,
        ) < players
}

/// Every attack command aims at a territory that exists.
pub open spec fn targets_in_bounds(territories: Seq<TerritoryView>) -> bool {
    forall|i: int|
        0 <= i < territories.len() && (#[trigger] territories[i]).command is Attack
            ==> territories[i].command->target < territories.len()
}

/// Every neighbour is a territory that exists.
pub open spec fn neighbours_in_bounds(territories: Seq<TerritoryView>) -> bool {
    forall|i: int, j: int|
        0 <= i < territories.len() && 0 <= j < territories[i].adjacent.len()
            ==> #[trigger] territories[i].adjacent[j] < territories.len()
}

/// Every index stored in the territories points at something: owners at
/// players, neighbours and attack targets at territories.
pub open spec fn territories_well_formed(territories: Seq<TerritoryView>, players: nat) -> bool {
    &&& owners_in_bounds(territories, players)
    &&& targets_in_bounds(territories)
    &&& neighbours_in_bounds(territories)
}

/// No token stands twice, and each token's index points at a player.
pub open spec fn tokens_well_formed(tokens: Seq<(Seq<char>, PlayerIndex)>, players: nat) -> bool {
    &&& forall|k: int| 0 <= k < tokens.len() ==> (#[trigger] tokens[k]).1 < players
    &&& forall|k: int, l: int|
        0 <= k < tokens.len() && 0 <= l < tokens.len() && k != l ==> (#[trigger] tokens[k]).0 != (
        #[trigger] tokens[l]).0
}

pub open spec fn well_formed(w: WorldView) -> bool {
    &&& territories_well_formed(w.territories, w.players.len())
    &&& tokens_well_formed(w.tokens, w.players.len())
}

/// The world of a game that was just created with `seed`.
pub open spec fn initial_world(seed: u64) -> WorldView {
    WorldView { rng: seed, territories: Seq::empty(), players: Seq::empty(), tokens: Seq::empty() }
}

/// The player that `token` stands for, if it is known.
pub open spec fn lookup_token(tokens: Seq<(Seq<char>, PlayerIndex)>, token: Seq<char>) -> Option<
    PlayerIndex,
> {
    if exists|k: int| 0 <= k < tokens.len() && (#[trigger] tokens[k]).0 == token {
        Some(tokens[choose|k: int| 0 <= k < tokens.len() && (#[trigger] tokens[k]).0 == token].1)
    } else {
        None
    }
}

/// The world in which `territory` has the pending command `command`.
pub open spec fn with_command(w: WorldView, territory: int, command: Command) -> WorldView {
    WorldView {
        territories: w.territories.update(
            territory,
            TerritoryView { command, ..w.territories[territory] },
        ),
        ..w
    }
}

/// The world in which `player` is no longer alive.
pub open spec fn with_resigned(w: WorldView, player: int) -> WorldView {
    WorldView {
        players: w.players.update(player, PlayerState { is_alive: false, ..w.players[player] }),
        ..w
    }
}

/// What a command order does, once the acting player is known and alive: the
/// new world, or the first rule that the order breaks.
pub open spec fn command_outcome(
    w: WorldView,
    player: PlayerIndex,
    territory: TerritoryIndex,
    command: Command,
) -> Result<WorldView, ActionError> {
    if territory >= w.territories.len() {
        Err(ActionError::TerritoryNotFound)
    } else if w.territories[territory as int].contents is None {
        Err(ActionError::TerritoryEmpty)
    } else if owner_of(w.territories[territory as int].contents) != player {
        Err(ActionError::NotOwner)
    } else if command is Attack && command->target >= w.territories.len() {
        Err(ActionError::TargetNotFound)
    } else if command is Attack && !w.territories[territory as int].adjacent.contains(
        command->target,
    ) {
        Err(ActionError::TargetNotAdjacent)
    } else {
        Ok(with_command(w, territory as int, command))
    }
}

/// What an action does to a world: the new world, or the reason for which
/// the action is rejected.
pub open spec fn action_outcome(w: WorldView, token: Seq<char>, action: GameAction) -> Result<
    WorldView,
    ActionError,
> {
    match lookup_token(w.tokens, token) {
        None => Err(ActionError::PlayerNotFound),
        Some(player) => if !w.players[player as int].is_alive {
            Err(ActionError::PlayerAlreadyDead)
        } else {
            match action {
                GameAction::Resign => Ok(with_resigned(w, player as int)),
                GameAction::SetCommand { territory, command } => command_outcome(
                    w,
                    player,
                    territory,
                    command,
                ),
            }
        },
    }
}

/// The text that goes with each rejection.
pub open spec fn message_text(error: ActionError) -> Seq<char> {
    match error {
        ActionError::PlayerNotFound => "Player not found"@,
        ActionError::PlayerAlreadyDead => "Player already dead"@,
        ActionError::TerritoryNotFound => "Territory not found"@,
        ActionError::TerritoryEmpty => "Territory is empty"@,
        ActionError::NotOwner => "Player does not own territory"@,
        ActionError::TargetNotFound => "Target territory not found"@,
        ActionError::TargetNotAdjacent => "Target territory not adjacent"@,
    }
}

impl ActionError {
    /// The rejection in words, for the client that sent the action.
    pub fn message(&self) -> (text: String)
        ensures
            text@ == message_text(*self),
    {
        match self {
            ActionError::PlayerNotFound => "Player not found".to_owned(),
            ActionError::PlayerAlreadyDead => "Player already dead".to_owned(),
            ActionError::TerritoryNotFound => "Territory not found".to_owned(),
            ActionError::TerritoryEmpty => "Territory is empty".to_owned(),
            ActionError::NotOwner => "Player does not own territory".to_owned(),
            ActionError::TargetNotFound => "Target territory not found".to_owned(),
            ActionError::TargetNotAdjacent => "Target territory not adjacent".to_owned(),
        }
    }
}

/// Looks `token` up in the list of known tokens.
pub fn find_player(entries: &Vec<(PlayerToken, PlayerIndex)>, token: &PlayerToken) -> (found:
    Option<PlayerIndex>)
    requires
        forall|k: int, l: int|
            0 <= k < entries.len() && 0 <= l < entries.len() && k != l ==> (#[trigger] entries[k]).0@
                != (#[trigger] entries[l]).0@,
    ensures
        found == lookup_token(token_views(entries@), token@),
{
    let ghost tokens = token_views(entries@);
    let mut k: usize = 0;
    while k < entries.len()
        invariant
            k <= entries.len(),
            tokens == token_views(entries@),
            forall|a: int, b: int|
                0 <= a < entries.len() && 0 <= b < entries.len() && a != b ==> (
                #[trigger] entries[a]).0@ != (#[trigger] entries[b]).0@,
            forall|j: int| 0 <= j < k ==> (#[trigger] tokens[j]).0 != token@,
        decreases entries.len() - k,
    {
        if entries[k].0 == *token {
            proof {
                assert(tokens[k as int].0 == token@);
                let c = choose|c: int| 0 <= c < tokens.len() && (#[trigger] tokens[c]).0 == token@;
                assert(entries[c].0@ == tokens[c].0);
                assert(entries[k as int].0@ == tokens[k as int].0);
                assert(c == k);
            }
            return Some(entries[k].1);
        }
        k = k + 1;
    }
    None
}

/// Whether `target` stands in the adjacency list.
pub fn is_adjacent(adjacent: &Vec<TerritoryIndex>, target: TerritoryIndex) -> (found: bool)
    ensures
        found == adjacent@.contains(target),
{
    let mut j: usize = 0;
    while j < adjacent.len()
        invariant
            j <= adjacent.len(),
            forall|l: int| 0 <= l < j ==> adjacent[l] != target,
        decreases adjacent.len() - j,
    {
        if adjacent[j] == target {
            return true;
        }
        j = j + 1;
    }
    false
}

impl GameState {
    /// Whether every stored index points at something.
    pub open spec fn wf(&self) -> bool {
        well_formed(self@)
    }

    /// An empty game whose random source starts at `seed`.
    pub fn new(seed: u64) -> (game: Self)
        ensures
            game@ == initial_world(seed),
            game.wf(),
    {
        let game = Self {
            rng: Rng::new_from_seed(seed),
            territories: Vec::new(),
            player_states: Vec::new(),
            player_indices_by_token: Vec::new(),
        };
        assert(game@.territories =~= Seq::empty());
        assert(game@.tokens =~= Seq::empty());
        assert(game@.players =~= Seq::empty());
        game
    }

    /// Validates `action` for the player behind `player_token` and commits it.
    /// A rejected action leaves the game as it was.
    pub fn process_action(&mut self, player_token: &PlayerToken, action: GameAction) -> (res:
        Result<(), ActionError>)
        requires
            old(self).wf(),
        ensures
            final(self).wf(),
            match action_outcome(old(self)@, player_token@, action) {
                Ok(w) => res is Ok && final(self)@ == w,
                Err(e) => res == Err::<(), ActionError>(e) && final(self)@ == old(self)@,
            },
            res is Err ==> final(self)@ == old(self)@,
            res is Ok ==> lookup_token(old(self)@.tokens, player_token@) is Some && old(
                self,
            )@.players[lookup_token(old(self)@.tokens, player_token@)->0 as int].is_alive,
            res is Ok && action is SetCommand && action->command is Attack ==> old(
                self,
            )@.territories[action->territory as int].adjacent.contains(action->command->target),
    {
        let ghost w = self@;
        assert forall|k: int, l: int|
            0 <= k < self.player_indices_by_token.len() && 0 <= l
                < self.player_indices_by_token.len() && k != l implies (
        #[trigger] self.player_indices_by_token[k]).0@ != (
        #[trigger] self.player_indices_by_token[l]).0@ by {
            assert(w.tokens[k].0 == self.player_indices_by_token[k].0@);
            assert(w.tokens[l].0 == self.player_indices_by_token[l].0@);
        }
        let player_index = match find_player(&self.player_indices_by_token, player_token) {
            Some(player_index) => player_index,
            None => {
                return Err(ActionError::PlayerNotFound);
            },
        };
        proof {
            let c = choose|c: int| 0 <= c < w.tokens.len() && (#[trigger] w.tokens[c]).0 == player_token@;
            assert(w.tokens[c].1 == player_index);
        }
        if !self.player_states[player_index].is_alive {
            return Err(ActionError::PlayerAlreadyDead);
        }
        match action {
            GameAction::SetCommand { territory, command } => {
                if territory >= self.territories.len() {
                    return Err(ActionError::TerritoryNotFound);
                }
                assert(w.territories[territory as int] == self.territories[territory as int]@);
                let owner = match self.territories[territory].contents {
                    Some((owner, _)) => owner,
                    None => {
                        return Err(ActionError::TerritoryEmpty);
                    },
                };
                if owner != player_index {
                    return Err(ActionError::NotOwner);
                }
                match command {
                    Command::Attack { target } => {
                        if target >= self.territories.len() {
                            return Err(ActionError::TargetNotFound);
                        }
                        if !is_adjacent(&self.territories[territory].adjacent, target) {
                            return Err(ActionError::TargetNotAdjacent);
                        }
                    },
                    Command::Fortify | Command::Grow => {},
                }
                self.territories[territory].command = command;
                proof {
                    let after = with_command(w, territory as int, command);
                    assert(self@.territories =~= after.territories);
                    assert(self@ == after);
                    lemma_action_keeps_well_formed(w, player_token@, action);
                }
            },
            GameAction::Resign => {
                self.player_states[player_index].is_alive = false;
                proof {
                    let after = with_resigned(w, player_index as int);
                    assert(self@.players =~= after.players);
                    assert(self@ == after);
                }
            },
        }
        Ok(())
    }

    /// Resolves one time step: combat at every territory, then the contest
    /// for the territories that stand empty, then the winning moves. Returns
    /// the events in the order in which they happened.
    pub fn step_time(&mut self) -> (events: Vec<AnimationEvent>)
        requires
            old(self).wf(),
        ensures
            final(self).wf(),
            final(self)@ == step_outcome(old(self)@).0,
            events@ == step_outcome(old(self)@).1,
            final(self)@.players == old(self)@.players,
            final(self)@.tokens == old(self)@.tokens,
            final(self)@.territories.len() == old(self)@.territories.len(),
    {
        let ghost w = self@;
        let ghost n = w.territories.len();
        let ghost players = w.players.len();
        let (defense, attack) = tally_points(&self.territories, &self.player_states);
        let mut events: Vec<AnimationEvent> = Vec::new();
        let ghost fought = combat_scan(as_ints(defense@), as_ints(attack@), start_of_combat(w), n);
        resolve_combat(&mut self.territories, &mut self.rng, &defense, &attack, &mut events);
        proof {
            assert(combat_state(territory_views(self.territories@), self.rng@, events@) == fought);
            lemma_combat_keeps_well_formed(
                as_ints(defense@),
                as_ints(attack@),
                start_of_combat(w),
                players,
            );
        }
        let ghost picked = contest_scan(fought.world, start_of_contest(n, fought.rng), n);
        let best = pick_movers(&self.territories, &mut self.rng);
        assert(contest_state(best@, self.rng@) == picked);
        let ghost moved = move_scan(picked.best, board(fought.world, fought.events), n);
        apply_moves(&mut self.territories, &best, &mut events);
        proof {
            assert(board(territory_views(self.territories@), events@) == moved);
            lemma_moves_keep_well_formed(
                picked.best,
                board(fought.world, fought.events),
                n,
                players,
            );
            assert(self@.territories == moved.world);
            assert(self@.rng == picked.rng);
            assert(self@.players == w.players);
            assert(self@.tokens == w.tokens);
        }
        events
    }
}

} // verus!
