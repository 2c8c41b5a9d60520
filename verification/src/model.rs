//! The game as a mathematical value, and what each rule does to it.

use crate::clock::{reaches, wraps_to, SPAWN_PERIOD_NANOS, TARGET_LIFETIME_NANOS};
use crate::keys::{is_letter, keycode_of, ButtonState, KeyboardInput};
use crate::target::Target;
use vstd::prelude::*;

verus! {

/// Whether `delta` more nanoseconds bring the expiry timer of `t` to its end.
pub open spec fn timed_out(t: Target, delta: nat) -> bool {
    reaches(TARGET_LIFETIME_NANOS as nat, t.age_nanos as nat, delta)
}

/// The target `t` after `delta` more nanoseconds on screen.
pub open spec fn older(t: Target, delta: nat) -> Target {
    Target { id: t.id, letter: t.letter, age_nanos: (t.age_nanos + delta) as u64 }
}

/// The targets that are still on screen after `delta`.
pub open spec fn outlives(delta: nat) -> spec_fn(Target) -> bool {
    |t: Target| !timed_out(t, delta)
}

/// The targets that `delta` takes off the screen.
pub open spec fn expires(delta: nat) -> spec_fn(Target) -> bool {
    |t: Target| timed_out(t, delta)
}

/// Adds `delta` to the age of a target.
pub open spec fn ages(delta: nat) -> spec_fn(Target) -> Target {
    |t: Target| older(t, delta)
}

/// Reads the id of a target.
pub open spec fn id_of() -> spec_fn(Target) -> usize {
    |t: Target| t.id
}

/// Whether each target has a greater id than the ones before it.
pub open spec fn ascending(targets: Seq<Target>) -> bool {
    forall|i: int, j: int| 0 <= i < j < targets.len() ==> targets[i].id < targets[j].id
}

/// The state of a game.
pub struct GameView {
    /// Nanoseconds since the spawn schedule last fired.
    pub schedule_nanos: nat,
    /// The targets on screen, oldest first.
    pub targets: Seq<Target>,
    /// Every letter spawned so far, in the order of spawning.
    pub queue: Seq<char>,
}

impl GameView {
    /// A game that has just begun.
    pub open spec fn start() -> GameView {
        GameView { schedule_nanos: 0, targets: Seq::empty(), queue: Seq::empty() }
    }

    /// Whether `t` can be on screen in this game: the log has its letter at its
    /// id, and its time is not yet up.
    pub open spec fn allows(self, t: Target) -> bool {
        &&& t.id < self.queue.len()
        &&& self.queue[t.id as int] == t.letter
        &&& t.age_nanos < TARGET_LIFETIME_NANOS
    }

    /// What holds of every game that the rules can reach.
    pub open spec fn wf(self) -> bool {
        &&& self.schedule_nanos < SPAWN_PERIOD_NANOS
        &&& self.queue.len() <= usize::MAX
        &&& forall|i: int| 0 <= i < self.queue.len() ==> is_letter(#[trigger] self.queue[i])
        &&& forall|i: int| 0 <= i < self.targets.len() ==> self.allows(#[trigger] self.targets[i])
        &&& ascending(self.targets)
    }

    /// Whether a target with this id is on screen.
    pub open spec fn has_target(self, id: usize) -> bool {
        exists|i: int| 0 <= i < self.targets.len() && (#[trigger] self.targets[i]).id == id
    }

    /// Whether the spawn schedule fires when `delta` passes.
    pub open spec fn spawn_due(self, delta: nat) -> bool {
        reaches(SPAWN_PERIOD_NANOS as nat, self.schedule_nanos, delta)
    }

    /// The game after the spawn schedule has moved on by `delta`.
    pub open spec fn scheduled(self, delta: nat) -> GameView {
        GameView {
            schedule_nanos: wraps_to(SPAWN_PERIOD_NANOS as nat, self.schedule_nanos, delta),
            ..self
        }
    }

    /// The target that the next spawn creates for `letter`.
    pub open spec fn next_target(self, letter: char) -> Target {
        Target { id: self.queue.len() as usize, letter, age_nanos: 0 }
    }

    /// The game after a target for `letter` has been spawned.
    pub open spec fn spawned(self, letter: char) -> GameView {
        GameView {
            targets: self.targets.push(self.next_target(letter)),
            queue: self.queue.push(letter),
            ..self
        }
    }

    /// Whether a spawner that sees `delta` pass may answer `spawned` and leave
    /// the game as `after`: it spawns exactly when the schedule fires, the new
    /// target carries a lowercase letter, and nothing else changes.
    pub open spec fn spawns(self, delta: nat, spawned: Option<Target>, after: GameView) -> bool {
        &&& spawned.is_some() == self.spawn_due(delta)
        &&& match spawned {
            Some(target) => {
                &&& is_letter(target.letter)
                &&& target == self.next_target(target.letter)
                &&& after == self.scheduled(delta).spawned(target.letter)
            },
            None => after == self.scheduled(delta),
        }
    }

    /// The ids of the targets whose time is up after `delta`, oldest first.
    pub open spec fn casualties(self, delta: nat) -> Seq<usize> {
        self.targets.filter(expires(delta)).map_values(id_of())
    }

    /// The game after every target has been on screen for `delta` longer:
    /// those whose time is up are gone, the others are older.
    pub open spec fn aged(self, delta: nat) -> GameView {
        GameView { targets: self.targets.filter(outlives(delta)).map_values(ages(delta)), ..self }
    }

    /// Whether `event` is a press of the key of the oldest target on screen.
    pub open spec fn front_matches(self, event: Option<KeyboardInput>) -> bool {
        &&& self.targets.len() > 0
        &&& event matches Some(input)
        &&& input.state == ButtonState::Pressed
        &&& input.key_code == Some(keycode_of(self.targets[0].letter))
    }

    /// The id of the target that `event` removes, if it removes one.
    pub open spec fn matched(self, event: Option<KeyboardInput>) -> Option<usize> {
        if self.front_matches(event) {
            Some(self.targets[0].id)
        } else {
            None
        }
    }

    /// The game after `event`: without its oldest target where the event is a
    /// press of that target's key, unchanged otherwise.
    pub open spec fn pressed(self, event: Option<KeyboardInput>) -> GameView {
        if self.front_matches(event) {
            GameView { targets: self.targets.drop_first(), ..self }
        } else {
            self
        }
    }
}

/// What `filter` keeps comes from the sequence, passes the test, and stays in order.
proof fn lemma_filter_keeps_order(targets: Seq<Target>, keep: spec_fn(Target) -> bool)
    requires
        ascending(targets),
    ensures
        ascending(targets.filter(keep)),
        forall|k: int|
            0 <= k < targets.filter(keep).len() ==> {
                &&& keep(#[trigger] targets.filter(keep)[k])
                &&& targets.contains(targets.filter(keep)[k])
            },
    decreases targets.len(),
{
    let kept = targets.filter(keep);
    targets.lemma_filter_len(keep);
    if targets.len() > 0 {
        let init = targets.drop_last();
        let last = targets.last();
        lemma_filter_keeps_order(init, keep);
        init.lemma_filter_push(last, keep);
        assert(init.push(last) =~= targets);
        let sub = init.filter(keep);
        assert forall|k: int| 0 <= k < kept.len() implies keep(#[trigger] kept[k])
            && targets.contains(kept[k]) by {
            if k < sub.len() {
                assert(init.contains(sub[k]));
                let j = choose|j: int| 0 <= j < init.len() && init[j] == sub[k];
                assert(targets[j] == kept[k]);
            } else {
                assert(kept[k] == last);
                assert(targets[targets.len() - 1] == last);
            }
        }
        assert forall|i: int, j: int| 0 <= i < j < kept.len() implies kept[i].id < kept[j].id by {
            if j >= sub.len() {
                assert(init.contains(sub[i]));
                let m = choose|m: int| 0 <= m < init.len() && init[m] == sub[i];
                assert(targets[m].id < targets[targets.len() - 1].id);
            }
        }
    }
}

/// In a game that is in order, a target on screen is known by its id.
pub proof fn lemma_id_names_one_target(game: GameView, a: Target, b: Target)
    requires
        game.wf(),
        game.targets.contains(a),
        game.targets.contains(b),
        a.id == b.id,
    ensures
        a == b,
{
    let i = choose|i: int| 0 <= i < game.targets.len() && game.targets[i] == a;
    let j = choose|j: int| 0 <= j < game.targets.len() && game.targets[j] == b;
    if i < j {
        assert(game.targets[i].id < game.targets[j].id);
    } else if j < i {
        assert(game.targets[j].id < game.targets[i].id);
    }
}

/// A target whose time is not up after `delta` is still on screen then, older by `delta`.
pub proof fn lemma_survivor_is_older(game: GameView, delta: nat, target: Target)
    requires
        game.targets.contains(target),
        !timed_out(target, delta),
    ensures
        game.aged(delta).targets.contains(older(target, delta)),
{
    let kept = game.targets.filter(outlives(delta));
    let i = choose|i: int| 0 <= i < game.targets.len() && game.targets[i] == target;
    game.targets.lemma_filter_contains(outlives(delta), i);
    let k = choose|k: int| 0 <= k < kept.len() && kept[k] == target;
    assert(game.aged(delta).targets[k] == older(target, delta));
}

/// A target that is on screen after `delta` was on screen before, younger by
/// `delta`, and its time was not up.
pub proof fn lemma_aged_from(game: GameView, delta: nat, target: Target) -> (origin: Target)
    requires
        game.aged(delta).targets.contains(target),
    ensures
        game.targets.contains(origin),
        !timed_out(origin, delta),
        target == older(origin, delta),
{
    let kept = game.targets.filter(outlives(delta));
    let after = game.aged(delta).targets;
    let k = choose|k: int| 0 <= k < after.len() && after[k] == target;
    game.targets.lemma_filter_pred(outlives(delta), k);
    assert(kept.contains(kept[k]));
    game.targets.lemma_filter_contains_rev(outlives(delta), kept[k]);
    kept[k]
}

/// A target whose time is up after `delta` is among the casualties.
pub proof fn lemma_timed_out_is_casualty(game: GameView, delta: nat, target: Target)
    requires
        game.targets.contains(target),
        timed_out(target, delta),
    ensures
        game.casualties(delta).contains(target.id),
{
    let lost = game.targets.filter(expires(delta));
    let i = choose|i: int| 0 <= i < game.targets.len() && game.targets[i] == target;
    game.targets.lemma_filter_contains(expires(delta), i);
    let k = choose|k: int| 0 <= k < lost.len() && lost[k] == target;
    assert(game.casualties(delta)[k] == target.id);
}

/// Each casualty was a target on screen whose time was up.
pub proof fn lemma_casualty_from(game: GameView, delta: nat, id: usize) -> (origin: Target)
    requires
        game.casualties(delta).contains(id),
    ensures
        game.targets.contains(origin),
        timed_out(origin, delta),
        origin.id == id,
{
    let lost = game.targets.filter(expires(delta));
    let ids = game.casualties(delta);
    let k = choose|k: int| 0 <= k < ids.len() && ids[k] == id;
    game.targets.lemma_filter_pred(expires(delta), k);
    assert(lost.contains(lost[k]));
    game.targets.lemma_filter_contains_rev(expires(delta), lost[k]);
    lost[k]
}

/// A tick of the spawn schedule leaves the game in order.
pub proof fn lemma_scheduled_wf(game: GameView, delta: nat)
    requires
        game.wf(),
    ensures
        game.scheduled(delta).wf(),
{
}

/// A spawn leaves the game in order, while the log has room.
pub proof fn lemma_spawned_wf(game: GameView, letter: char)
    requires
        game.wf(),
        is_letter(letter),
        game.queue.len() < usize::MAX,
    ensures
        game.spawned(letter).wf(),
{
    let after = game.spawned(letter);
    assert forall|i: int| 0 <= i < after.targets.len() implies after.allows(
        #[trigger] after.targets[i],
    ) by {
        if i < game.targets.len() {
            assert(game.allows(game.targets[i]));
        }
    }
    assert forall|i: int, j: int| 0 <= i < j < after.targets.len() implies after.targets[i].id
        < after.targets[j].id by {
        assert(game.allows(game.targets[i]));
    }
}

/// The passing of time leaves the game in order.
pub proof fn lemma_aged_wf(game: GameView, delta: nat)
    requires
        game.wf(),
    ensures
        game.aged(delta).wf(),
{
    let kept = game.targets.filter(outlives(delta));
    let after = game.aged(delta);
    lemma_filter_keeps_order(game.targets, outlives(delta));
    assert forall|i: int| 0 <= i < after.targets.len() implies after.allows(
        #[trigger] after.targets[i],
    ) by {
        assert(game.targets.contains(kept[i]));
        let j = choose|j: int| 0 <= j < game.targets.len() && game.targets[j] == kept[i];
        assert(game.allows(game.targets[j]));
    }
}

/// A key event leaves the game in order.
pub proof fn lemma_pressed_wf(game: GameView, event: Option<KeyboardInput>)
    requires
        game.wf(),
    ensures
        game.pressed(event).wf(),
{
    let after = game.pressed(event);
    if game.front_matches(event) {
        assert forall|i: int| 0 <= i < after.targets.len() implies after.allows(
            #[trigger] after.targets[i],
        ) by {
            assert(game.allows(game.targets[i + 1]));
        }
    }
}

} // verus!
