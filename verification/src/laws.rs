//! What holds of the simulation as a whole: the shape that a step keeps, and
//! the laws of validation, combat and contest that callers may rely on.

use vstd::prelude::*;
use crate::game_state::{
    action_outcome, lookup_token, owner_of, targets_in_bounds, territories_well_formed, units_of, well_formed, with_resigned, ActionError,
    AnimationEvent, GameAction, TerritoryView, WorldView,
};
use crate::rng::{lemma_state_after_add, next_counter, output_of, state_after};
use crate::resolve::{
    after_combat, after_contest, attack_points, board, combat_scan, combat_step, contest_scan,
    contest_step, defense_points, draw_count, emptied, falls, half_attack, is_candidate, move_scan,
    move_step, no_claim, occupied_by, start_of_combat, start_of_contest, step_outcome, Board,
    CombatState, ContestState, IncomingEntry,
};

verus! {

/// Combat changes nothing but occupancy, and that only by emptying; it
/// leaves alone every territory that it has not reached yet and every
/// territory whose incoming attack is not positive.
pub proof fn lemma_combat_shape(defense: Seq<int>, attack: Seq<int>, start: CombatState, upto: nat)
    requires
        upto <= start.world.len(),
    ensures
        combat_scan(defense, attack, start, upto).world.len() == start.world.len(),
        forall|i: int|
            0 <= i < start.world.len() ==> {
                let after = #[trigger] combat_scan(defense, attack, start, upto).world[i];
                after == start.world[i] || after == emptied(start.world[i])
            },
        forall|i: int|
            0 <= i < start.world.len() && (i >= upto || attack[i] <= 0) ==> #[trigger] combat_scan(
                defense,
                attack,
                start,
                upto,
            ).world[i] == start.world[i],
    decreases upto,
{
    if upto > 0 {
        let before = combat_scan(defense, attack, start, (upto - 1) as nat);
        lemma_combat_shape(defense, attack, start, (upto - 1) as nat);
        let after = combat_step(before, upto - 1, defense[upto - 1], attack[upto - 1]);
        assert(after == combat_scan(defense, attack, start, upto));
        assert forall|i: int| 0 <= i < start.world.len() implies {
            let t = #[trigger] after.world[i];
            t == start.world[i] || t == emptied(start.world[i])
        } by {
            assert(before.world[i] == start.world[i] || before.world[i] == emptied(start.world[i]));
        }
        assert forall|i: int|
            0 <= i < start.world.len() && (i >= upto || attack[i] <= 0) implies #[trigger] after.world[i]
            == start.world[i] by {
            assert(before.world[i] == start.world[i]);
        }
    }
}

/// Combat keeps every stored index in bounds.
pub proof fn lemma_combat_keeps_well_formed(
    defense: Seq<int>,
    attack: Seq<int>,
    start: CombatState,
    players: nat,
)
    requires
        territories_well_formed(start.world, players),
    ensures
        combat_scan(defense, attack, start, start.world.len()).world.len() == start.world.len(),
        territories_well_formed(
            combat_scan(defense, attack, start, start.world.len()).world,
            players,
        ),
{
    let end = combat_scan(defense, attack, start, start.world.len()).world;
    lemma_combat_shape(defense, attack, start, start.world.len());
    assert forall|i: int| 0 <= i < end.len() implies (#[trigger] end[i]).command
        == start.world[i].command && end[i].adjacent == start.world[i].adjacent && (end[i].contents
        == start.world[i].contents || end[i].contents is None) by {
        assert(end[i] == start.world[i] || end[i] == emptied(start.world[i]));
    }
    assert forall|i: int, j: int|
        0 <= i < end.len() && 0 <= j < end[i].adjacent.len() implies #[trigger] end[i].adjacent[j]
        < end.len() by {
        assert(end[i].adjacent == start.world[i].adjacent);
    }
}

/// One move keeps every stored index in bounds.
pub proof fn lemma_move_keeps_well_formed(
    best: Seq<IncomingEntry>,
    board: Board,
    target: int,
    players: nat,
)
    requires
        territories_well_formed(board.world, players),
        0 <= target < board.world.len(),
        target < best.len(),
        best[target].source_territory is Some ==> best[target].source_territory->0
            < board.world.len(),
    ensures
        move_step(best, board, target).world.len() == board.world.len(),
        territories_well_formed(move_step(best, board, target).world, players),
{
    let end = move_step(best, board, target).world;
    if best[target].source_territory is Some {
        let source = best[target].source_territory->0 as int;
        assert forall|i: int| 0 <= i < end.len() implies (#[trigger] end[i]).command
            == board.world[i].command && end[i].adjacent == board.world[i].adjacent && (
        end[i].contents == board.world[i].contents || end[i].contents is None || end[i].contents
            == board.world[source].contents) by {}
        assert forall|i: int, j: int|
            0 <= i < end.len() && 0 <= j < end[i].adjacent.len() implies #[trigger] end[i].adjacent[j]
            < end.len() by {
            assert(end[i].adjacent == board.world[i].adjacent);
        }
    }
}

/// The moves keep every stored index in bounds.
pub proof fn lemma_moves_keep_well_formed(
    best: Seq<IncomingEntry>,
    start: Board,
    upto: nat,
    players: nat,
)
    requires
        territories_well_formed(start.world, players),
        upto <= start.world.len(),
        best.len() == start.world.len(),
        forall|t: int|
            0 <= t < best.len() && (#[trigger] best[t]).source_territory is Some
                ==> best[t].source_territory->0 < start.world.len(),
    ensures
        move_scan(best, start, upto).world.len() == start.world.len(),
        territories_well_formed(move_scan(best, start, upto).world, players),
    decreases upto,
{
    if upto > 0 {
        lemma_moves_keep_well_formed(best, start, (upto - 1) as nat, players);
        lemma_move_keeps_well_formed(
            best,
            move_scan(best, start, (upto - 1) as nat),
            upto - 1,
            players,
        );
    }
}

/// A step keeps a well-formed world well-formed.
pub proof fn lemma_step_keeps_well_formed(w: WorldView)
    requires
        well_formed(w),
    ensures
        well_formed(step_outcome(w).0),
        step_outcome(w).0.territories.len() == w.territories.len(),
        step_outcome(w).0.players == w.players,
        step_outcome(w).0.tokens == w.tokens,
{
    let n = w.territories.len();
    let defense = defense_points(w.territories, w.players);
    let attack = attack_points(w.territories);
    let fought = combat_scan(defense, attack, start_of_combat(w), n);
    lemma_combat_keeps_well_formed(defense, attack, start_of_combat(w), w.players.len());
    let picked = contest_scan(fought.world, start_of_contest(n, fought.rng), n);
    lemma_contest_shape(fought.world, start_of_contest(n, fought.rng), n);
    lemma_moves_keep_well_formed(
        picked.best,
        Board { world: fought.world, events: fought.events },
        n,
        w.players.len(),
    );
}

/// The contest keeps one entry per territory, and every source that it
/// names is a territory.
pub proof fn lemma_contest_shape(world: Seq<TerritoryView>, start: ContestState, upto: nat)
    requires
        targets_in_bounds(world),
        upto <= world.len(),
        start.best.len() == world.len(),
        forall|t: int|
            0 <= t < start.best.len() && (#[trigger] start.best[t]).source_territory is Some
                ==> start.best[t].source_territory->0 < world.len(),
    ensures
        contest_scan(world, start, upto).best.len() == world.len(),
        forall|t: int|
            0 <= t < world.len() && (#[trigger] contest_scan(
                world,
                start,
                upto,
            ).best[t]).source_territory is Some ==> contest_scan(
                world,
                start,
                upto,
            ).best[t].source_territory->0 < world.len(),
    decreases upto,
{
    if upto > 0 {
        lemma_contest_shape(world, start, (upto - 1) as nat);
        let before = contest_scan(world, start, (upto - 1) as nat);
        let after = contest_step(world, before, upto - 1);
        assert(world[upto - 1].command is Attack ==> world[upto - 1].command->target < world.len());
        assert forall|t: int|
            0 <= t < world.len() && (#[trigger] after.best[t]).source_territory is Some
            implies after.best[t].source_territory->0 < world.len() by {
            assert(before.best[t].source_territory is Some ==> before.best[t].source_territory->0
                < world.len());
        }
    }
}

/// A territory with no incoming attack keeps its occupants through the
/// combat of a step, whatever is rolled for its defense.
pub proof fn law_unattacked_territory_survives(w: WorldView, i: int)
    requires
        0 <= i < w.territories.len(),
        half_attack(w.territories, i) <= 0,
    ensures
        after_combat(w).world[i] == w.territories[i],
{
    lemma_combat_shape(
        defense_points(w.territories, w.players),
        attack_points(w.territories),
        start_of_combat(w),
        w.territories.len(),
    );
}

/// How many values combat at the first `upto` territories draws.
pub open spec fn draws_before(defense: Seq<int>, attack: Seq<int>, upto: nat) -> nat
    decreases upto,
{
    if upto == 0 {
        0
    } else {
        draws_before(defense, attack, (upto - 1) as nat) + draw_count(defense[upto - 1])
            + draw_count(attack[upto - 1])
    }
}

/// Whether territory `i` falls in a combat that starts with the random
/// source at `counter`: the source has by then made every draw of the
/// territories before `i`, their defense first and their attack second.
pub open spec fn falls_at(counter: u64, defense: Seq<int>, attack: Seq<int>, i: int) -> bool {
    falls(state_after(counter, draws_before(defense, attack, i as nat)), defense[i], attack[i])
}

/// The deaths among the first `upto` territories, in index order, each with
/// the place and the units of the territory as it stood before combat.
pub open spec fn death_events(
    world: Seq<TerritoryView>,
    counter: u64,
    defense: Seq<int>,
    attack: Seq<int>,
    upto: nat,
) -> Seq<AnimationEvent>
    decreases upto,
{
    if upto == 0 {
        Seq::empty()
    } else {
        let rest = death_events(world, counter, defense, attack, (upto - 1) as nat);
        if falls_at(counter, defense, attack, upto - 1) {
            rest.push(
                AnimationEvent::Death {
                    render_info: world[upto - 1].render_info,
                    amount: units_of(world[upto - 1].contents),
                },
            )
        } else {
            rest
        }
    }
}

/// Combat, territory by territory: the random source advances by the draws
/// of the territories passed, each territory passed stands emptied exactly
/// where its attack roll beat its defense roll, and the rest stand as before.
pub proof fn lemma_combat_pointwise(
    defense: Seq<int>,
    attack: Seq<int>,
    start: CombatState,
    upto: nat,
)
    requires
        upto <= start.world.len(),
    ensures
        combat_scan(defense, attack, start, upto).world.len() == start.world.len(),
        combat_scan(defense, attack, start, upto).rng == state_after(
            start.rng,
            draws_before(defense, attack, upto),
        ),
        forall|i: int|
            0 <= i < start.world.len() ==> #[trigger] combat_scan(
                defense,
                attack,
                start,
                upto,
            ).world[i] == (if i < upto && falls_at(start.rng, defense, attack, i) {
                emptied(start.world[i])
            } else {
                start.world[i]
            }),
        combat_scan(defense, attack, start, upto).events == start.events + death_events(
            start.world,
            start.rng,
            defense,
            attack,
            upto,
        ),
    decreases upto,
{
    if upto == 0 {
        assert(start.events =~= start.events + Seq::<AnimationEvent>::empty());
    } else {
        let k = (upto - 1) as nat;
        let before = combat_scan(defense, attack, start, k);
        lemma_combat_pointwise(defense, attack, start, k);
        assert(before.world[k as int] == start.world[k as int]);
        let rest = death_events(start.world, start.rng, defense, attack, k);
        assert forall|e: AnimationEvent| (start.events + rest).push(e) =~= start.events + rest.push(e) by {}
        let after = combat_step(before, k as int, defense[k as int], attack[k as int]);
        assert(after == combat_scan(defense, attack, start, upto));
        let d = draw_count(defense[k as int]);
        let a = draw_count(attack[k as int]);
        lemma_state_after_add(start.rng, draws_before(defense, attack, k), d);
        lemma_state_after_add(start.rng, draws_before(defense, attack, k) + d, a);
        assert forall|i: int| 0 <= i < start.world.len() implies #[trigger] after.world[i] == (if i
            < upto && falls_at(start.rng, defense, attack, i) {
            emptied(start.world[i])
        } else {
            start.world[i]
        }) by {
            assert(before.world[i] == (if i < k && falls_at(start.rng, defense, attack, i) {
                emptied(start.world[i])
            } else {
                start.world[i]
            }));
        }
    }
}

/// The combat of a step decides each territory by itself: it stands emptied
/// exactly where its attack roll is strictly greater than its defense roll,
/// both drawn in index order, and nothing else about it changes.
pub proof fn law_combat_is_pointwise(w: WorldView, i: int)
    requires
        0 <= i < w.territories.len(),
    ensures
        after_combat(w).world[i] == (if falls_at(
            w.rng,
            defense_points(w.territories, w.players),
            attack_points(w.territories),
            i,
        ) {
            emptied(w.territories[i])
        } else {
            w.territories[i]
        }),
        after_combat(w).rng == state_after(
            w.rng,
            draws_before(
                defense_points(w.territories, w.players),
                attack_points(w.territories),
                w.territories.len(),
            ),
        ),
        after_combat(w).events == death_events(
            w.territories,
            w.rng,
            defense_points(w.territories, w.players),
            attack_points(w.territories),
            w.territories.len(),
        ),
{
    assert(Seq::<AnimationEvent>::empty() + death_events(
        w.territories,
        w.rng,
        defense_points(w.territories, w.players),
        attack_points(w.territories),
        w.territories.len(),
    ) =~= death_events(
        w.territories,
        w.rng,
        defense_points(w.territories, w.players),
        attack_points(w.territories),
        w.territories.len(),
    ));
    lemma_combat_pointwise(
        defense_points(w.territories, w.players),
        attack_points(w.territories),
        start_of_combat(w),
        w.territories.len(),
    );
}

/// Every claim that stands names a territory that wants to move in and may.
pub open spec fn claims_are_sound(world: Seq<TerritoryView>, best: Seq<IncomingEntry>) -> bool {
    &&& best.len() == world.len()
    &&& forall|t: int|
        0 <= t < world.len() && (#[trigger] best[t]).source_territory is Some ==> {
            &&& best[t].source_territory->0 < world.len()
            &&& is_candidate(world, best[t].source_territory->0 as int, t)
        }
}

/// The contest hands a territory only to one of its candidates.
pub proof fn lemma_winners_are_candidates(world: Seq<TerritoryView>, rng: u64, upto: nat)
    requires
        targets_in_bounds(world),
        upto <= world.len(),
        world.len() <= usize::MAX,
    ensures
        claims_are_sound(world, contest_scan(world, start_of_contest(world.len(), rng), upto).best),
    decreases upto,
{
    let start = start_of_contest(world.len(), rng);
    if upto > 0 {
        lemma_winners_are_candidates(world, rng, (upto - 1) as nat);
        let k = upto - 1;
        let before = contest_scan(world, start, k as nat);
        let after = contest_step(world, before, k);
        assert(world[k].command is Attack ==> world[k].command->target < world.len());
        assert forall|t: int|
            0 <= t < world.len() && (#[trigger] after.best[t]).source_territory is Some implies {
            &&& after.best[t].source_territory->0 < world.len()
            &&& is_candidate(world, after.best[t].source_territory->0 as int, t)
        } by {
            if after.best[t] != before.best[t] {
                assert(t == world[k].command->target);
                assert(after.best[t].source_territory == Some(k as usize)
                    || after.best[t].source_territory == before.best[t].source_territory);
            }
        }
    }
}

/// Territory `i` after the moves into the first `upto` territories: a
/// target that was won holds the winner's occupants, a winner whose target
/// has been reached stands empty, and every other territory is as it was.
pub open spec fn moved_territory(
    world: Seq<TerritoryView>,
    best: Seq<IncomingEntry>,
    i: int,
    upto: nat,
) -> TerritoryView {
    if i < upto && best[i].source_territory is Some {
        occupied_by(world[i], world[best[i].source_territory->0 as int].contents)
    } else if world[i].command is Attack && world[i].command->target < upto
        && best[world[i].command->target as int].source_territory == Some(i as usize) {
        emptied(world[i])
    } else {
        world[i]
    }
}

/// The movements into the first `upto` territories, in index order, each
/// with the places and the units as they stood before any move.
pub open spec fn movement_events(world: Seq<TerritoryView>, best: Seq<IncomingEntry>, upto: nat)
    -> Seq<AnimationEvent>
    decreases upto,
{
    if upto == 0 {
        Seq::empty()
    } else {
        let rest = movement_events(world, best, (upto - 1) as nat);
        match best[upto - 1].source_territory {
            None => rest,
            Some(source) => rest.push(
                AnimationEvent::Movement {
                    render_info_from: world[source as int].render_info,
                    render_info_to: world[upto - 1].render_info,
                    amount: units_of(world[source as int].contents),
                },
            ),
        }
    }
}

/// The moves do not disturb one another: after any number of them every
/// territory stands as `moved_territory` says.
pub proof fn lemma_moves_pointwise(
    world: Seq<TerritoryView>,
    best: Seq<IncomingEntry>,
    events: Seq<AnimationEvent>,
    upto: nat,
)
    requires
        claims_are_sound(world, best),
        upto <= world.len(),
        world.len() <= usize::MAX,
    ensures
        move_scan(best, board(world, events), upto).world.len() == world.len(),
        forall|i: int|
            0 <= i < world.len() ==> #[trigger] move_scan(best, board(world, events), upto).world[i]
                == moved_territory(world, best, i, upto),
        move_scan(best, board(world, events), upto).events == events + movement_events(
            world,
            best,
            upto,
        ),
    decreases upto,
{
    if upto == 0 {
        assert(events =~= events + Seq::<AnimationEvent>::empty());
    } else {
        let t = upto - 1;
        let rest = movement_events(world, best, t as nat);
        assert forall|e: AnimationEvent| (events + rest).push(e) =~= events + rest.push(e) by {}
        lemma_moves_pointwise(world, best, events, t as nat);
        let before = move_scan(best, board(world, events), t as nat);
        let after = move_step(best, before, t);
        assert(after == move_scan(best, board(world, events), upto));
        if best[t].source_territory is Some {
            let s = best[t].source_territory->0 as int;
            assert(is_candidate(world, s, t));
            assert(before.world[s] == moved_territory(world, best, s, t as nat));
            assert(before.world[t] == moved_territory(world, best, t, t as nat));
            assert(before.world[s] == world[s]) by {
                if best[s].source_territory is Some {
                    assert(is_candidate(world, best[s].source_territory->0 as int, s));
                }
            }
            assert(before.world[t] == world[t]) by {
                if world[t].command is Attack && world[t].command->target < world.len() {
                    let tg = world[t].command->target as int;
                    if best[tg].source_territory == Some(t as usize) {
                        assert(is_candidate(world, t, tg));
                    }
                }
            }
            assert(s != t);
        }
        assert forall|i: int| 0 <= i < world.len() implies #[trigger] after.world[i]
            == moved_territory(world, best, i, upto) by {
            assert(before.world[i] == moved_territory(world, best, i, t as nat));
            if best[i].source_territory is Some {
                assert(is_candidate(world, best[i].source_territory->0 as int, i));
            }
        }
    }
}

/// The claim that stands on `target` while `source` is its only claimant.
pub open spec fn sole_claim(world: Seq<TerritoryView>, source: int) -> IncomingEntry {
    IncomingEntry {
        units: units_of(world[source].contents),
        source_territory: Some(source as usize),
        competitor_count: 1,
    }
}

/// While `source` is the only claimant of `target`, nobody has a claim on
/// `target` before the contest reaches `source`, and `source` has it after.
pub proof fn lemma_sole_claim(
    world: Seq<TerritoryView>,
    rng: u64,
    source: int,
    target: int,
    upto: nat,
)
    requires
        targets_in_bounds(world),
        upto <= world.len(),
        0 <= source < world.len(),
        0 <= target < world.len(),
        world.len() <= usize::MAX,
        is_candidate(world, source, target),
        units_of(world[source].contents) >= -1,
        forall|other: int|
            0 <= other < world.len() && other != source ==> !is_candidate(world, other, target),
    ensures
        contest_scan(world, start_of_contest(world.len(), rng), upto).best.len() == world.len(),
        contest_scan(world, start_of_contest(world.len(), rng), upto).best[target] == (if upto
            > source {
            sole_claim(world, source)
        } else {
            no_claim()
        }),
    decreases upto,
{
    let start = start_of_contest(world.len(), rng);
    if upto > 0 {
        lemma_sole_claim(world, rng, source, target, (upto - 1) as nat);
        let before = contest_scan(world, start, (upto - 1) as nat);
        let k = upto - 1;
        assert(world[k].command is Attack ==> world[k].command->target < world.len());
        if k == source {
            assert(before.best[target] == no_claim());
            let count = (no_claim().competitor_count + 1) as u64;
            assert(count == 1);
            assert(output_of(next_counter(before.rng)) % 1u64 == 0);
        } else {
            assert(!is_candidate(world, k, target));
        }
    }
}

/// Where exactly one territory claims an empty target, and it does so with
/// at least -1 units, its claim stands at the end of the contest, whatever
/// the state of the random source.
pub proof fn law_sole_candidate_wins(world: Seq<TerritoryView>, rng: u64, source: int, target: int)
    requires
        targets_in_bounds(world),
        0 <= source < world.len(),
        0 <= target < world.len(),
        world.len() <= usize::MAX,
        is_candidate(world, source, target),
        units_of(world[source].contents) >= -1,
        forall|other: int|
            0 <= other < world.len() && other != source ==> !is_candidate(world, other, target),
    ensures
        contest_scan(
            world,
            start_of_contest(world.len(), rng),
            world.len(),
        ).best[target].source_territory == Some(source as usize),
{
    lemma_sole_claim(world, rng, source, target, world.len());
}

/// The winner of a tie between two claimants, for a random source that
/// stands at `counter` when the second one claims: one draw decides, the
/// second claimant on an even value and the first on an odd one.
pub open spec fn tie_winner(counter: u64, first: int, second: int) -> int {
    if output_of(next_counter(counter)) % 2 == 0 {
        second
    } else {
        first
    }
}

/// The contest between two claimants of one target, stage by stage.
pub proof fn lemma_two_way_tie(
    world: Seq<TerritoryView>,
    rng: u64,
    first: int,
    second: int,
    target: int,
    upto: nat,
)
    requires
        targets_in_bounds(world),
        upto <= world.len(),
        world.len() <= usize::MAX,
        0 <= first < second < world.len(),
        0 <= target < world.len(),
        is_candidate(world, first, target),
        is_candidate(world, second, target),
        units_of(world[first].contents) == units_of(world[second].contents),
        units_of(world[first].contents) >= 0,
        forall|other: int, aim: int|
            0 <= other < world.len() && other != first && other != second ==> !is_candidate(
                world,
                other,
                aim,
            ),
    ensures
        contest_scan(world, start_of_contest(world.len(), rng), upto).best.len() == world.len(),
        contest_scan(world, start_of_contest(world.len(), rng), upto).rng == (if upto > second {
            next_counter(rng)
        } else {
            rng
        }),
        contest_scan(world, start_of_contest(world.len(), rng), upto).best[target] == (if upto
            > second {
            IncomingEntry {
                units: units_of(world[first].contents),
                source_territory: Some(tie_winner(rng, first, second) as usize),
                competitor_count: 2,
            }
        } else if upto > first {
            sole_claim(world, first)
        } else {
            no_claim()
        }),
    decreases upto,
{
    let start = start_of_contest(world.len(), rng);
    if upto > 0 {
        lemma_two_way_tie(world, rng, first, second, target, (upto - 1) as nat);
        let k = upto - 1;
        let before = contest_scan(world, start, k as nat);
        assert(world[k].command is Attack ==> world[k].command->target < world.len());
        if k == first {
            assert(before.best[target] == no_claim());
        } else if k == second {
            assert(before.best[target] == sole_claim(world, first));
        } else {
            assert(!is_candidate(world, k, world[k].command->target as int));
        }
    }
}

/// Where exactly two territories claim anything, both the same empty target
/// with the same number of units (not negative), one draw of the random
/// source decides between them: the later claimant wins where the draw is
/// even, the earlier where it is odd.
pub proof fn law_two_way_tie_is_one_draw(
    world: Seq<TerritoryView>,
    rng: u64,
    first: int,
    second: int,
    target: int,
)
    requires
        targets_in_bounds(world),
        world.len() <= usize::MAX,
        0 <= first < second < world.len(),
        0 <= target < world.len(),
        is_candidate(world, first, target),
        is_candidate(world, second, target),
        units_of(world[first].contents) == units_of(world[second].contents),
        units_of(world[first].contents) >= 0,
        forall|other: int, aim: int|
            0 <= other < world.len() && other != first && other != second ==> !is_candidate(
                world,
                other,
                aim,
            ),
    ensures
        contest_scan(
            world,
            start_of_contest(world.len(), rng),
            world.len(),
        ).best[target].source_territory == Some(tie_winner(rng, first, second) as usize),
        contest_scan(world, start_of_contest(world.len(), rng), world.len()).rng == next_counter(
            rng,
        ),
{
    lemma_two_way_tie(world, rng, first, second, target, world.len());
}

/// A step in closed form. Its events are the deaths of combat in index order
/// and then the movements in the order of their targets; a target that was
/// won ends with the winner's occupants, the winner ends empty, and every
/// other territory ends as combat left it.
pub proof fn law_step_is_pointwise(w: WorldView, i: int)
    requires
        well_formed(w),
        w.territories.len() <= usize::MAX,
        0 <= i < w.territories.len(),
    ensures
        step_outcome(w).0.territories.len() == w.territories.len(),
        step_outcome(w).0.territories[i] == moved_territory(
            after_combat(w).world,
            after_contest(w).best,
            i,
            w.territories.len(),
        ),
        step_outcome(w).1 == death_events(
            w.territories,
            w.rng,
            defense_points(w.territories, w.players),
            attack_points(w.territories),
            w.territories.len(),
        ) + movement_events(after_combat(w).world, after_contest(w).best, w.territories.len()),
        claims_are_sound(after_combat(w).world, after_contest(w).best),
{
    let n = w.territories.len();
    let fought = after_combat(w);
    lemma_combat_keeps_well_formed(
        defense_points(w.territories, w.players),
        attack_points(w.territories),
        start_of_combat(w),
        w.players.len(),
    );
    law_combat_is_pointwise(w, i);
    lemma_winners_are_candidates(fought.world, fought.rng, n);
    lemma_moves_pointwise(fought.world, after_contest(w).best, fought.events, n);
}

/// Where exactly one territory claims a target that combat has left empty,
/// and it does so with at least -1 units, the step ends with its occupants in
/// the target and with the claimant empty, whatever the random source gives.
pub proof fn law_sole_candidate_moves_in(w: WorldView, source: int, target: int)
    requires
        well_formed(w),
        w.territories.len() <= usize::MAX,
        0 <= source < w.territories.len(),
        0 <= target < w.territories.len(),
        is_candidate(after_combat(w).world, source, target),
        units_of(after_combat(w).world[source].contents) >= -1,
        forall|other: int|
            0 <= other < w.territories.len() && other != source ==> !is_candidate(
                after_combat(w).world,
                other,
                target,
            ),
    ensures
        step_outcome(w).0.territories[target].contents == after_combat(w).world[source].contents,
        step_outcome(w).0.territories[source].contents is None,
{
    let n = w.territories.len();
    let fought = after_combat(w);
    lemma_combat_keeps_well_formed(
        defense_points(w.territories, w.players),
        attack_points(w.territories),
        start_of_combat(w),
        w.players.len(),
    );
    law_sole_candidate_wins(fought.world, fought.rng, source, target);
    lemma_winners_are_candidates(fought.world, fought.rng, n);
    lemma_moves_pointwise(fought.world, after_contest(w).best, fought.events, n);
    let end = step_outcome(w).0.territories;
    assert(end[target] == moved_territory(fought.world, after_contest(w).best, target, n));
    assert(end[source] == moved_territory(fought.world, after_contest(w).best, source, n));
}

/// A token whose player is no longer alive has every action rejected, a
/// resignation too.
pub proof fn law_dead_player_is_rejected(w: WorldView, token: Seq<char>, action: GameAction)
    requires
        lookup_token(w.tokens, token) is Some,
        !w.players[lookup_token(w.tokens, token)->0 as int].is_alive,
    ensures
        action_outcome(w, token, action) == Err::<WorldView, ActionError>(
            ActionError::PlayerAlreadyDead,
        ),
{
}

/// After an accepted resignation every further action of that token is
/// rejected because the player is dead: resigning twice fails the second
/// time, and the world of the first resignation differs only in that
/// player's being alive.
pub proof fn law_resignation_is_final(w: WorldView, token: Seq<char>, action: GameAction)
    requires
        well_formed(w),
        action_outcome(w, token, GameAction::Resign) is Ok,
    ensures
        action_outcome(w, token, GameAction::Resign)->Ok_0 == with_resigned(
            w,
            lookup_token(w.tokens, token)->0 as int,
        ),
        action_outcome(action_outcome(w, token, GameAction::Resign)->Ok_0, token, action) == Err::<
            WorldView,
            ActionError,
        >(ActionError::PlayerAlreadyDead),
{
    let player = lookup_token(w.tokens, token)->0;
    let c = choose|c: int| 0 <= c < w.tokens.len() && (#[trigger] w.tokens[c]).0 == token;
    assert(w.tokens[c].1 == player);
    assert(player < w.players.len());
}

/// An accepted attack command names a neighbour of its territory, as the
/// world stood when the command was validated.
pub proof fn law_accepted_attack_is_adjacent(
    w: WorldView,
    token: Seq<char>,
    territory: usize,
    target: usize,
)
    requires
        action_outcome(
            w,
            token,
            GameAction::SetCommand { territory, command: crate::game_state::Command::Attack { target } },
        ) is Ok,
    ensures
        territory < w.territories.len(),
        target < w.territories.len(),
        w.territories[territory as int].adjacent.contains(target),
{
}

/// What a game is fed: an action of some token, or a tick.
pub enum Input {
    Action { token: Seq<char>, action: GameAction },
    Step,
}

/// A world with the events of every step so far, in order.
pub struct Record {
    pub world: WorldView,
    pub events: Seq<AnimationEvent>,
}

/// What one input makes of a record: an accepted action changes the world,
/// a rejected one nothing, and a tick resolves one step and adds its events.
pub open spec fn after_input(record: Record, input: Input) -> Record {
    match input {
        Input::Action { token, action } => match action_outcome(record.world, token, action) {
            Ok(world) => Record { world, events: record.events },
            Err(_) => record,
        },
        Input::Step => Record {
            world: step_outcome(record.world).0,
            events: record.events + step_outcome(record.world).1,
        },
    }
}

/// The record after the first `upto` inputs.
pub open spec fn replay(start: WorldView, inputs: Seq<Input>, upto: nat) -> Record
    decreases upto,
{
    if upto == 0 {
        Record { world: start, events: Seq::empty() }
    } else {
        after_input(replay(start, inputs, (upto - 1) as nat), inputs[upto - 1])
    }
}

/// Two games that start from the same seed, territories, players and tokens
/// and are fed the same inputs in the same order agree at every point: in
/// occupancy, in the events emitted, and in the state of the random source.
pub proof fn law_replay_is_deterministic(
    seed: u64,
    first: WorldView,
    second: WorldView,
    inputs: Seq<Input>,
    upto: nat,
)
    requires
        first.rng == seed,
        second.rng == seed,
        first.territories == second.territories,
        first.players == second.players,
        first.tokens == second.tokens,
    ensures
        replay(first, inputs, upto) == replay(second, inputs, upto),
{
}

/// Every input keeps a well-formed world well-formed, so a game can be fed
/// for ever.
pub proof fn law_replay_keeps_well_formed(start: WorldView, inputs: Seq<Input>, upto: nat)
    requires
        well_formed(start),
    ensures
        well_formed(replay(start, inputs, upto).world),
    decreases upto,
{
    if upto > 0 {
        law_replay_keeps_well_formed(start, inputs, (upto - 1) as nat);
        let before = replay(start, inputs, (upto - 1) as nat).world;
        match inputs[upto - 1] {
            Input::Action { token, action } => {
                if action_outcome(before, token, action) is Ok {
                    lemma_action_keeps_well_formed(before, token, action);
                }
            },
            Input::Step => {
                lemma_step_keeps_well_formed(before);
            },
        }
    }
}

/// An accepted action keeps a well-formed world well-formed.
pub proof fn lemma_action_keeps_well_formed(w: WorldView, token: Seq<char>, action: GameAction)
    requires
        well_formed(w),
        action_outcome(w, token, action) is Ok,
    ensures
        well_formed(action_outcome(w, token, action)->Ok_0),
{
    let after = action_outcome(w, token, action)->Ok_0;
    match action {
        GameAction::Resign => {},
        GameAction::SetCommand { territory, command } => {
            assert forall|i: int, j: int|
                0 <= i < after.territories.len() && 0 <= j
                    < after.territories[i].adjacent.len() implies #[trigger] after.territories[i].adjacent[j]
                < after.territories.len() by {
                assert(after.territories[i].adjacent == w.territories[i].adjacent);
            }
            assert forall|i: int|
                0 <= i < after.territories.len() && (
                #[trigger] after.territories[i]).contents is Some implies owner_of(
                after.territories[i].contents,
            ) < after.players.len() by {
                assert(after.territories[i].contents == w.territories[i].contents);
            }
            assert forall|i: int|
                0 <= i < after.territories.len() && (
                #[trigger] after.territories[i]).command is Attack
                implies after.territories[i].command->target < after.territories.len() by {
                if i != territory {
                    assert(after.territories[i].command == w.territories[i].command);
                }
            }
        },
    }
}

} // verus!
