//! The four phases of one time step: the defense tally, the attack tally,
//! the combat rolls, and the contest for the territories that stand empty.
//! Each phase is stated as a scan over the territories in index order, which
//! is also the order in which the random source is drawn from.

use vstd::prelude::*;
use crate::rng::{next_counter, output_of, state_after, Rng};
use crate::game_state::{
    owner_of, owners_in_bounds, targets_in_bounds, territory_views, units_of, AnimationEvent,
    Command, PlayerState, Territory, TerritoryIndex, TerritorySort, TerritoryView, WorldView,
};

verus! {

/// Above the magnitude of any unit count or skill level.
pub const POINT_SPAN: i128 = 0x8000_0000;

/// No tally of a step reaches this many half-points: a roll of so many
/// draws is still far from the largest sum that can be held.
pub const ROLL_LIMIT: i128 = 0x1_0000_0000_0000_0000_0000_0000;

/// How many values a tally of `points` half-points draws: none where the
/// tally is not positive.
pub open spec fn draw_count(points: int) -> nat {
    if points > 0 {
        points as nat
    } else {
        0
    }
}

/// The sum of the next `draws` values of a source that stands at `counter`,
/// each taken by its two low bits.
pub open spec fn roll(counter: u64, draws: nat) -> nat
    decreases draws,
{
    if draws == 0 {
        0
    } else {
        roll(counter, (draws - 1) as nat) + (output_of(state_after(counter, draws)) & 3) as nat
    }
}

/// Draws one value in 0..=3 for each half-point and adds them up.
pub fn roll_points(rng: &mut Rng, points: i128) -> (sum: u128)
    requires
        points <= ROLL_LIMIT,
    ensures
        final(rng)@ == state_after(old(rng)@, draw_count(points as int)),
        sum == roll(old(rng)@, draw_count(points as int)),
{
    let ghost start = rng@;
    let mut sum: u128 = 0;
    let mut drawn: i128 = 0;
    while drawn < points
        invariant
            0 <= drawn,
            points <= ROLL_LIMIT,
            drawn <= points || drawn == 0,
            rng@ == state_after(start, drawn as nat),
            sum == roll(start, drawn as nat),
            sum <= 3 * drawn,
        decreases points - drawn,
    {
        let value: u64 = rng.generate() & 3;
        assert(value <= 3) by (bit_vector)
            requires
                exists|x: u64| value == x & 3,
        ;
        sum = sum + value as u128;
        drawn = drawn + 1;
    }
    sum
}

/// What a territory's own garrison, terrain and stance give its defense.
pub open spec fn base_defense(t: TerritoryView, players: Seq<PlayerState>) -> int {
    match t.contents {
        None => 0,
        Some((owner, units)) => {
            2 * players[owner as int].defense_level + (if t.command is Attack {
                units as int
            } else {
                2 * units
            }) + (match t.sort {
                TerritorySort::Swamp => -2,
                TerritorySort::Forest => 2,
                _ => units as int,
            }) + (if t.command is Fortify {
                2int
            } else {
                0int
            })
        },
    }
}

/// Whether `source` is occupied and commands an attack on `target`.
pub open spec fn presses_on(world: Seq<TerritoryView>, source: int, target: int) -> bool {
    &&& world[source].contents is Some
    &&& world[source].command is Attack
    &&& world[source].command->target == target
}

/// Whether `target` is held by the owner of `source`.
pub open spec fn same_owner(world: Seq<TerritoryView>, source: int, target: int) -> bool {
    &&& world[target].contents is Some
    &&& owner_of(world[target].contents) == owner_of(world[source].contents)
}

/// The units that the first `upto` territories send to `target` as friends.
pub open spec fn reinforcement(world: Seq<TerritoryView>, target: int, upto: nat) -> int
    decreases upto,
{
    if upto == 0 {
        0
    } else {
        reinforcement(world, target, (upto - 1) as nat) + (if presses_on(world, upto - 1, target)
            && same_owner(world, upto - 1, target) {
            units_of(world[upto - 1].contents) as int
        } else {
            0
        })
    }
}

/// The units that the first `upto` territories send against `target`.
pub open spec fn assault(world: Seq<TerritoryView>, target: int, upto: nat) -> int
    decreases upto,
{
    if upto == 0 {
        0
    } else {
        assault(world, target, (upto - 1) as nat) + (if presses_on(world, upto - 1, target)
            && !same_owner(world, upto - 1, target) {
            units_of(world[upto - 1].contents) as int
        } else {
            0
        })
    }
}

/// The half-defense score of territory `i`.
pub open spec fn half_defense(world: Seq<TerritoryView>, players: Seq<PlayerState>, i: int) -> int {
    base_defense(world[i], players) + reinforcement(world, i, world.len())
}

/// The half incoming attack score of territory `i`.
pub open spec fn half_attack(world: Seq<TerritoryView>, i: int) -> int {
    assault(world, i, world.len())
}

pub open spec fn defense_points(world: Seq<TerritoryView>, players: Seq<PlayerState>) -> Seq<int> {
    Seq::new(world.len(), |i: int| half_defense(world, players, i))
}

pub open spec fn attack_points(world: Seq<TerritoryView>) -> Seq<int> {
    Seq::new(world.len(), |i: int| half_attack(world, i))
}

pub open spec fn as_ints(points: Seq<i128>) -> Seq<int> {
    Seq::new(points.len(), |i: int| points[i] as int)
}

/// The defense that a territory has by itself.
pub fn base_points(t: &Territory, players: &Vec<PlayerState>) -> (points: i128)
    requires
        t.contents is Some ==> owner_of(t.contents) < players.len(),
    ensures
        points == base_defense(t@, players@),
        -6 * POINT_SPAN <= points <= 6 * POINT_SPAN,
{
    let (owner, units) = match t.contents {
        Some(pair) => pair,
        None => {
            return 0;
        },
    };
    let units: i128 = units as i128;
    let level: i128 = players[owner].defense_level as i128;
    let stance: i128 = match t.command {
        Command::Attack { .. } => units,
        _ => 2 * units,
    };
    let terrain: i128 = match t.sort {
        TerritorySort::Swamp => -2,
        TerritorySort::Forest => 2,
        _ => units,
    };
    let fortified: i128 = match t.command {
        Command::Fortify => 2,
        _ => 0,
    };
    2 * level + stance + terrain + fortified
}

/// The two tallies of a step: for each territory its half-defense score and
/// its half incoming attack score.
pub fn tally_points(territories: &Vec<Territory>, players: &Vec<PlayerState>) -> (tallies: (
    Vec<i128>,
    Vec<i128>,
))
    requires
        owners_in_bounds(territory_views(territories@), players@.len()),
        targets_in_bounds(territory_views(territories@)),
    ensures
        tallies.0.len() == territories.len(),
        tallies.1.len() == territories.len(),
        as_ints(tallies.0@) == defense_points(territory_views(territories@), players@),
        as_ints(tallies.1@) == attack_points(territory_views(territories@)),
        forall|i: int| 0 <= i < tallies.0.len() ==> #[trigger] tallies.0[i] <= ROLL_LIMIT,
        forall|i: int| 0 <= i < tallies.1.len() ==> #[trigger] tallies.1[i] <= ROLL_LIMIT,
{
    let ghost world = territory_views(territories@);
    let n = territories.len();
    let mut defense: Vec<i128> = Vec::new();
    let mut attack: Vec<i128> = Vec::new();
    let mut i: usize = 0;
    while i < n
        invariant
            i <= n,
            n == territories.len(),
            world == territory_views(territories@),
            owners_in_bounds(world, players@.len()),
            defense.len() == i,
            attack.len() == i,
            forall|j: int|
                0 <= j < i ==> #[trigger] defense[j] == base_defense(world[j], players@) && -6
                    * POINT_SPAN <= defense[j] <= 6 * POINT_SPAN,
            forall|j: int| 0 <= j < i ==> #[trigger] attack[j] == 0,
        decreases n - i,
    {
        assert(world[i as int] == territories[i as int]@);
        defense.push(base_points(&territories[i], players));
        attack.push(0);
        i = i + 1;
    }
    let mut i: usize = 0;
    while i < n
        invariant
            i <= n,
            n == territories.len(),
            world == territory_views(territories@),
            targets_in_bounds(world),
            defense.len() == n,
            attack.len() == n,
            forall|j: int|
                0 <= j < n ==> #[trigger] defense[j] == base_defense(world[j], players@)
                    + reinforcement(world, j, i as nat) && -(6 + i) * POINT_SPAN <= defense[j] <= (6
                    + i) * POINT_SPAN,
            forall|j: int|
                0 <= j < n ==> #[trigger] attack[j] == assault(world, j, i as nat) && -(6 + i)
                    * POINT_SPAN <= attack[j] <= (6 + i) * POINT_SPAN,
        decreases n - i,
    {
        assert(world[i as int] == territories[i as int]@);
        match territories[i].contents {
            Some((owner, units)) => {
                match territories[i].command {
                    Command::Attack { target } => {
                        assert(world[target as int] == territories[target as int]@);
                        let friendly = match territories[target].contents {
                            Some((target_owner, _)) => target_owner == owner,
                            None => false,
                        };
                        if friendly {
                            let raised: i128 = defense[target] + units as i128;
                            defense.set(target, raised);
                        } else {
                            let raised: i128 = attack[target] + units as i128;
                            attack.set(target, raised);
                        }
                    },
                    _ => {},
                }
            },
            None => {},
        }
        i = i + 1;
    }
    assert(as_ints(defense@) =~= defense_points(world, players@));
    assert(as_ints(attack@) =~= attack_points(world));
    (defense, attack)
}

/// The state that the combat phase threads through the territories.
pub struct CombatState {
    pub world: Seq<TerritoryView>,
    pub rng: u64,
    pub events: Seq<AnimationEvent>,
}

pub open spec fn combat_state(world: Seq<TerritoryView>, rng: u64, events: Seq<AnimationEvent>)
    -> CombatState {
    CombatState { world, rng, events }
}

/// The territory without its occupants.
pub open spec fn emptied(t: TerritoryView) -> TerritoryView {
    TerritoryView { contents: None, ..t }
}

/// Whether a territory with these tallies falls, for a source at `counter`:
/// the defense is rolled first, then the attack, and the attack must be
/// strictly greater.
pub open spec fn falls(counter: u64, defense: int, attack: int) -> bool {
    roll(state_after(counter, draw_count(defense)), draw_count(attack)) > roll(
        counter,
        draw_count(defense),
    )
}

/// Combat at territory `i`: both rolls are drawn; where the attack wins the
/// territory is emptied and its death is recorded with the units lost.
pub open spec fn combat_step(st: CombatState, i: int, defense: int, attack: int) -> CombatState {
    let rng = state_after(state_after(st.rng, draw_count(defense)), draw_count(attack));
    if falls(st.rng, defense, attack) {
        CombatState {
            world: st.world.update(i, emptied(st.world[i])),
            rng,
            events: st.events.push(
                AnimationEvent::Death {
                    render_info: st.world[i].render_info,
                    amount: units_of(st.world[i].contents),
                },
            ),
        }
    } else {
        CombatState { rng, ..st }
    }
}

/// Combat at the first `upto` territories, in index order.
pub open spec fn combat_scan(defense: Seq<int>, attack: Seq<int>, start: CombatState, upto: nat)
    -> CombatState
    decreases upto,
{
    if upto == 0 {
        start
    } else {
        combat_step(
            combat_scan(defense, attack, start, (upto - 1) as nat),
            upto - 1,
            defense[upto - 1],
            attack[upto - 1],
        )
    }
}

/// The combat phase: rolls for every territory in index order and empties
/// those whose attack roll is strictly greater than their defense roll.
pub fn resolve_combat(
    territories: &mut Vec<Territory>,
    rng: &mut Rng,
    defense: &Vec<i128>,
    attack: &Vec<i128>,
    events: &mut Vec<AnimationEvent>,
)
    requires
        defense.len() == old(territories).len(),
        attack.len() == old(territories).len(),
        forall|i: int| 0 <= i < defense.len() ==> #[trigger] defense[i] <= ROLL_LIMIT,
        forall|i: int| 0 <= i < attack.len() ==> #[trigger] attack[i] <= ROLL_LIMIT,
    ensures
        final(territories).len() == old(territories).len(),
        combat_state(territory_views(final(territories)@), final(rng)@, final(events)@) == combat_scan(
            as_ints(defense@),
            as_ints(attack@),
            combat_state(territory_views(old(territories)@), old(rng)@, old(events)@),
            old(territories).len() as nat,
        ),
{
    let ghost start = combat_state(territory_views(territories@), rng@, events@);
    let n = territories.len();
    let mut i: usize = 0;
    while i < n
        invariant
            i <= n,
            n == territories.len(),
            defense.len() == n,
            attack.len() == n,
            forall|j: int| 0 <= j < defense.len() ==> #[trigger] defense[j] <= ROLL_LIMIT,
            forall|j: int| 0 <= j < attack.len() ==> #[trigger] attack[j] <= ROLL_LIMIT,
            combat_state(territory_views(territories@), rng@, events@)
                == combat_scan(as_ints(defense@), as_ints(attack@), start, i as nat),
        decreases n - i,
    {
        let ghost before = combat_state(territory_views(territories@), rng@, events@);
        assert(before.world[i as int] == territories[i as int]@);
        let defense_roll = roll_points(rng, defense[i]);
        let attack_roll = roll_points(rng, attack[i]);
        if attack_roll > defense_roll {
            let amount: i32 = match territories[i].contents {
                Some((_, units)) => units,
                None => 0,
            };
            let render_info = territories[i].render_info;
            territories[i].contents = None;
            events.push(AnimationEvent::Death { render_info, amount });
            assert(territory_views(territories@) =~= before.world.update(
                i as int,
                emptied(before.world[i as int]),
            ));
        }
        assert(combat_state(territory_views(territories@), rng@, events@)
            == combat_step(before, i as int, as_ints(defense@)[i as int], as_ints(attack@)[i as int]));
        i = i + 1;
    }
}

/// The best claim on one territory so far.
#[derive(Debug, Clone, Copy, PartialEq, Eq)]
pub struct IncomingEntry {
    /// The unit count to beat (-1 before anyone has claimed).
    pub units: i32,
    /// The territory whose units would move in.
    pub source_territory: Option<TerritoryIndex>,
    /// How many claimants have had this unit count.
    pub competitor_count: u64,
}

/// The state that the contest threads through the territories.
pub struct ContestState {
    pub best: Seq<IncomingEntry>,
    pub rng: u64,
}

pub open spec fn contest_state(best: Seq<IncomingEntry>, rng: u64) -> ContestState {
    ContestState { best, rng }
}

pub open spec fn no_claim() -> IncomingEntry {
    IncomingEntry { units: -1i32, source_territory: None, competitor_count: 0 }
}

/// Before the contest nobody has a claim on any of the `n` territories.
pub open spec fn start_of_contest(n: nat, rng: u64) -> ContestState {
    ContestState { best: Seq::new(n, |i: int| no_claim()), rng }
}

/// Whether `source` wants to move into `target` and may: it is occupied, it
/// commands an attack on `target`, and `target` stands empty.
pub open spec fn is_candidate(world: Seq<TerritoryView>, source: int, target: int) -> bool {
    presses_on(world, source, target) && world[target].contents is None
}

/// The claim of territory `i`, if it has one. More units than the best claim
/// on its target replace it; as many units replace it with one chance in the
/// number of claimants tied so far, this one counted, decided by one draw.
pub open spec fn contest_step(world: Seq<TerritoryView>, st: ContestState, i: int) -> ContestState {
    let target = world[i].command->target as int;
    if is_candidate(world, i, target) {
        let units = units_of(world[i].contents);
        let entry = st.best[target];
        if units > entry.units {
            ContestState {
                best: st.best.update(
                    target,
                    IncomingEntry {
                        units,
                        source_territory: Some(i as usize),
                        competitor_count: 1,
                    },
                ),
                rng: st.rng,
            }
        } else if units == entry.units {
            let count = (entry.competitor_count + 1) as u64;
            let rng = next_counter(st.rng);
            let source_territory = if output_of(rng) % count == 0 {
                Some(i as usize)
            } else {
                entry.source_territory
            };
            ContestState {
                best: st.best.update(
                    target,
                    IncomingEntry { units, source_territory, competitor_count: count },
                ),
                rng,
            }
        } else {
            st
        }
    } else {
        st
    }
}

/// The claims of the first `upto` territories, in index order.
pub open spec fn contest_scan(world: Seq<TerritoryView>, start: ContestState, upto: nat)
    -> ContestState
    decreases upto,
{
    if upto == 0 {
        start
    } else {
        contest_step(world, contest_scan(world, start, (upto - 1) as nat), upto - 1)
    }
}

/// The contest: for each empty territory the claimant with the most units,
/// ties broken fairly by the random source.
pub fn pick_movers(territories: &Vec<Territory>, rng: &mut Rng) -> (best: Vec<IncomingEntry>)
    requires
        targets_in_bounds(territory_views(territories@)),
    ensures
        contest_state(best@, final(rng)@) == contest_scan(
            territory_views(territories@),
            start_of_contest(territories.len() as nat, old(rng)@),
            territories.len() as nat,
        ),
        best.len() == territories.len(),
        forall|t: int|
            0 <= t < best.len() && (#[trigger] best[t]).source_territory is Some
                ==> best[t].source_territory->0 < territories.len(),
{
    let ghost world = territory_views(territories@);
    let ghost start = start_of_contest(territories.len() as nat, rng@);
    let n = territories.len();
    let mut best: Vec<IncomingEntry> = Vec::new();
    let mut t: usize = 0;
    while t < n
        invariant
            t <= n,
            best.len() == t,
            forall|j: int| 0 <= j < t ==> #[trigger] best[j] == no_claim(),
        decreases n - t,
    {
        best.push(IncomingEntry { units: -1, source_territory: None, competitor_count: 0 });
        t = t + 1;
    }
    assert(best@ =~= start.best);
    let mut i: usize = 0;
    while i < n
        invariant
            i <= n,
            n == territories.len(),
            world == territory_views(territories@),
            targets_in_bounds(world),
            best.len() == n,
            contest_state(best@, rng@) == contest_scan(world, start, i as nat),
            forall|t: int| 0 <= t < n ==> (#[trigger] best[t]).competitor_count <= i,
            forall|t: int|
                0 <= t < n && (#[trigger] best[t]).source_territory is Some
                    ==> best[t].source_territory->0 < i,
        decreases n - i,
    {
        let ghost before = contest_state(best@, rng@);
        assert(world[i as int] == territories[i as int]@);
        match (territories[i].contents, territories[i].command) {
            (Some((_, units)), Command::Attack { target }) => {
                assert(world[target as int] == territories[target as int]@);
                if territories[target].contents.is_none() {
                    let entry = best[target];
                    if units > entry.units {
                        best.set(
                            target,
                            IncomingEntry {
                                units,
                                source_territory: Some(i),
                                competitor_count: 1,
                            },
                        );
                    } else if units == entry.units {
                        let count: u64 = entry.competitor_count + 1;
                        let source_territory = if rng.generate() % count == 0 {
                            Some(i)
                        } else {
                            entry.source_territory
                        };
                        best.set(
                            target,
                            IncomingEntry { units, source_territory, competitor_count: count },
                        );
                    }
                }
            },
            _ => {},
        }
        assert(contest_state(best@, rng@) == contest_step(world, before, i as int));
        i = i + 1;
    }
    best
}

/// The state that the moves thread through the territories.
pub struct Board {
    pub world: Seq<TerritoryView>,
    pub events: Seq<AnimationEvent>,
}

pub open spec fn board(world: Seq<TerritoryView>, events: Seq<AnimationEvent>) -> Board {
    Board { world, events }
}

/// The territory with other occupants.
pub open spec fn occupied_by(t: TerritoryView, contents: Option<(usize, i32)>) -> TerritoryView {
    TerritoryView { contents, ..t }
}

/// The move into `target`, if its best claim names a source: the source's
/// occupants stand in `target`, the source is empty, and the movement is
/// recorded with the units moved.
pub open spec fn move_step(best: Seq<IncomingEntry>, board: Board, target: int) -> Board {
    match best[target].source_territory {
        None => board,
        Some(source) => {
            let arrived = board.world.update(
                target,
                occupied_by(board.world[target], board.world[source as int].contents),
            );
            Board {
                world: arrived.update(source as int, emptied(arrived[source as int])),
                events: board.events.push(
                    AnimationEvent::Movement {
                        render_info_from: board.world[source as int].render_info,
                        render_info_to: board.world[target].render_info,
                        amount: units_of(board.world[source as int].contents),
                    },
                ),
            }
        },
    }
}

/// The moves into the first `upto` territories, in index order.
pub open spec fn move_scan(best: Seq<IncomingEntry>, start: Board, upto: nat) -> Board
    decreases upto,
{
    if upto == 0 {
        start
    } else {
        move_step(best, move_scan(best, start, (upto - 1) as nat), upto - 1)
    }
}

/// Carries out the winning moves, target by target.
pub fn apply_moves(
    territories: &mut Vec<Territory>,
    best: &Vec<IncomingEntry>,
    events: &mut Vec<AnimationEvent>,
)
    requires
        best.len() == old(territories).len(),
        forall|t: int|
            0 <= t < best.len() && (#[trigger] best[t]).source_territory is Some
                ==> best[t].source_territory->0 < old(territories).len(),
    ensures
        final(territories).len() == old(territories).len(),
        board(territory_views(final(territories)@), final(events)@) == move_scan(
            best@,
            board(territory_views(old(territories)@), old(events)@),
            old(territories).len() as nat,
        ),
{
    let ghost start = board(territory_views(territories@), events@);
    let n = territories.len();
    let mut target: usize = 0;
    while target < n
        invariant
            target <= n,
            n == territories.len(),
            best.len() == n,
            forall|t: int|
                0 <= t < best.len() && (#[trigger] best[t]).source_territory is Some
                    ==> best[t].source_territory->0 < n,
            board(territory_views(territories@), events@) == move_scan(
                best@,
                start,
                target as nat,
            ),
        decreases n - target,
    {
        let ghost before = board(territory_views(territories@), events@);
        match best[target].source_territory {
            Some(source) => {
                assert(before.world[source as int] == territories[source as int]@);
                assert(before.world[target as int] == territories[target as int]@);
                let contents = territories[source].contents;
                let amount: i32 = match contents {
                    Some((_, units)) => units,
                    None => 0,
                };
                let render_info_from = territories[source].render_info;
                let render_info_to = territories[target].render_info;
                territories[target].contents = contents;
                let ghost arrived = territory_views(territories@);
                assert(arrived =~= before.world.update(
                    target as int,
                    occupied_by(before.world[target as int], contents),
                ));
                territories[source].contents = None;
                assert(territory_views(territories@) =~= arrived.update(
                    source as int,
                    emptied(arrived[source as int]),
                ));
                events.push(AnimationEvent::Movement { render_info_from, render_info_to, amount });
            },
            None => {},
        }
        assert(board(territory_views(territories@), events@) == move_step(
            best@,
            before,
            target as int,
        ));
        target = target + 1;
    }
}

/// Before combat the world stands as it is and nothing has happened.
pub open spec fn start_of_combat(w: WorldView) -> CombatState {
    CombatState { world: w.territories, rng: w.rng, events: Seq::empty() }
}

/// The world after the combat of a step, with the deaths so far.
pub open spec fn after_combat(w: WorldView) -> CombatState {
    combat_scan(
        defense_points(w.territories, w.players),
        attack_points(w.territories),
        start_of_combat(w),
        w.territories.len(),
    )
}

/// The best claims on the territories that combat has left, and the random
/// source after the contest.
pub open spec fn after_contest(w: WorldView) -> ContestState {
    contest_scan(
        after_combat(w).world,
        start_of_contest(w.territories.len(), after_combat(w).rng),
        w.territories.len(),
    )
}

/// What one step makes of a world: the world after it, and the events in the
/// order in which they are emitted. Combat goes first, territory by territory;
/// then the contest for the empty territories; then the winning moves.
pub open spec fn step_outcome(w: WorldView) -> (WorldView, Seq<AnimationEvent>) {
    let fought = after_combat(w);
    let picked = after_contest(w);
    let moved = move_scan(picked.best, board(fought.world, fought.events), w.territories.len());
    (WorldView { rng: picked.rng, territories: moved.world, ..w }, moved.events)
}

} // verus!
