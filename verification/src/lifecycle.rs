//! What becomes of a target: it leaves when its time is up or when its key is
//! pressed, whichever comes first, and it never comes back.

use crate::clock::TARGET_LIFETIME_NANOS;
use crate::keys::{is_letter, keycode_of, lemma_letter_keys_distinct, ButtonState, KeyboardInput};
use crate::model::{
    lemma_aged_from, lemma_aged_wf, lemma_casualty_from, lemma_id_names_one_target,
    lemma_pressed_wf, lemma_scheduled_wf, lemma_spawned_wf, lemma_survivor_is_older,
    lemma_timed_out_is_casualty, older, timed_out, GameView,
};
use crate::target::Target;
use vstd::prelude::*;

verus! {

/// One application of a rule of the game.
pub enum Step {
    /// The Matcher sees this event.
    Press(Option<KeyboardInput>),
    /// The Expirer sees this many nanoseconds pass.
    Expire(nat),
    /// The Spawner sees this many nanoseconds pass, and draws this letter if a spawn is due.
    Spawn(nat, char),
}

impl Step {
    /// Whether the step is one that the game can take: a drawn letter is lowercase.
    pub open spec fn lawful(self) -> bool {
        self matches Step::Spawn(_, letter) ==> is_letter(letter)
    }

    /// The time that the step adds to the age of every target.
    pub open spec fn ages_by(self) -> nat {
        match self {
            Step::Expire(delta) => delta,
            _ => 0,
        }
    }
}

impl GameView {
    /// The game after one step.
    pub open spec fn after(self, step: Step) -> GameView {
        match step {
            Step::Press(event) => self.pressed(event),
            Step::Expire(delta) => self.aged(delta),
            Step::Spawn(delta, letter) => if self.spawn_due(delta) {
                self.scheduled(delta).spawned(letter)
            } else {
                self.scheduled(delta)
            },
        }
    }

    /// The game after a run of steps.
    pub open spec fn after_all(self, steps: Seq<Step>) -> GameView
        decreases steps.len(),
    {
        if steps.len() == 0 {
            self
        } else {
            self.after_all(steps.drop_last()).after(steps.last())
        }
    }

    /// Whether `step` is a key event that removes the target `id`.
    pub open spec fn strikes(self, step: Step, id: usize) -> bool {
        step matches Step::Press(event) && self.matched(event) == Some(id)
    }

    /// Whether step `k` of a run that starts here removes the target `id`.
    pub open spec fn struck_at(self, steps: Seq<Step>, k: int, id: usize) -> bool {
        self.after_all(steps.take(k)).strikes(steps[k], id)
    }
}

/// Whether every step of a run is one that the game can take, and the log of
/// spawned letters still fits the machine at its end.
pub open spec fn playable(game: GameView, steps: Seq<Step>) -> bool {
    &&& game.queue.len() + steps.len() <= usize::MAX
    &&& forall|k: int| 0 <= k < steps.len() ==> (#[trigger] steps[k]).lawful()
}

/// The time that a run adds to the age of every target.
pub open spec fn time_passed(steps: Seq<Step>) -> nat
    decreases steps.len(),
{
    if steps.len() == 0 {
        0
    } else {
        time_passed(steps.drop_last()) + steps.last().ages_by()
    }
}

/// The letter of a spawn step that answers `spawned`: the letter of the new
/// target, or any lowercase letter where there is none.
pub open spec fn drawn(spawned: Option<Target>) -> char {
    match spawned {
        Some(target) => target.letter,
        None => 'a',
    }
}

/// A frame is a run of three steps. Where a frame of `delta` with `event`
/// answers `spawned` and leaves the game as `after`, the game has taken a
/// press, an expiry and a spawn, in this order.
pub proof fn lemma_frame_is_a_run(
    game: GameView,
    delta: nat,
    event: Option<KeyboardInput>,
    spawned: Option<Target>,
    after: GameView,
)
    requires
        game.pressed(event).aged(delta).spawns(delta, spawned, after),
    ensures
        Step::Spawn(delta, drawn(spawned)).lawful(),
        after == game.after_all(
            seq![Step::Press(event), Step::Expire(delta), Step::Spawn(delta, drawn(spawned))],
        ),
{
    let steps = seq![Step::Press(event), Step::Expire(delta), Step::Spawn(delta, drawn(spawned))];
    assert(steps.drop_last() == seq![Step::Press(event), Step::Expire(delta)]);
    assert(steps.drop_last().drop_last() == seq![Step::Press(event)]);
    assert(steps.drop_last().drop_last().drop_last() == Seq::<Step>::empty());
    reveal_with_fuel(GameView::after_all, 4);
}

/// A step leaves the game in order, keeps the log and adds one letter to it at most.
pub proof fn lemma_step_keeps_order(game: GameView, step: Step)
    requires
        game.wf(),
        step.lawful(),
        game.queue.len() < usize::MAX,
    ensures
        game.after(step).wf(),
        game.queue.is_prefix_of(game.after(step).queue),
        game.after(step).queue.len() <= game.queue.len() + 1,
{
    match step {
        Step::Press(event) => {
            lemma_pressed_wf(game, event);
        },
        Step::Expire(delta) => {
            lemma_aged_wf(game, delta);
        },
        Step::Spawn(delta, letter) => {
            lemma_scheduled_wf(game, delta);
            if game.spawn_due(delta) {
                lemma_spawned_wf(game.scheduled(delta), letter);
            }
        },
    }
}

/// A run leaves the game in order, keeps the log and adds one letter per step at most.
pub proof fn lemma_run_keeps_order(game: GameView, steps: Seq<Step>)
    requires
        game.wf(),
        playable(game, steps),
    ensures
        game.after_all(steps).wf(),
        game.queue.is_prefix_of(game.after_all(steps).queue),
        game.after_all(steps).queue.len() <= game.queue.len() + steps.len(),
    decreases steps.len(),
{
    if steps.len() > 0 {
        let init = steps.drop_last();
        assert(playable(game, init)) by {
            assert forall|k: int| 0 <= k < init.len() implies (#[trigger] init[k]).lawful() by {
                assert(steps[k].lawful());
            }
        }
        lemma_run_keeps_order(game, init);
        assert(steps[steps.len() - 1].lawful());
        lemma_step_keeps_order(game.after_all(init), steps.last());
    }
}

/// A target that has left the screen is not brought back by any step.
pub proof fn lemma_step_brings_nothing_back(game: GameView, step: Step, id: usize)
    requires
        game.wf(),
        id < game.queue.len(),
        !game.has_target(id),
    ensures
        !game.after(step).has_target(id),
{
    let after = game.after(step);
    if after.has_target(id) {
        let k = choose|k: int|
            0 <= k < after.targets.len() && (#[trigger] after.targets[k]).id == id;
        match step {
            Step::Press(event) => {
                if game.front_matches(event) {
                    assert(game.targets[k + 1].id == id);
                } else {
                    assert(game.targets[k].id == id);
                }
            },
            Step::Expire(delta) => {
                assert(after.targets.contains(after.targets[k]));
                let origin = lemma_aged_from(game, delta, after.targets[k]);
                let j = choose|j: int| 0 <= j < game.targets.len() && game.targets[j] == origin;
                assert(game.targets[j].id == id);
            },
            Step::Spawn(delta, letter) => {
                if k < game.targets.len() {
                    assert(game.targets[k].id == id);
                }
            },
        }
    }
}

/// A target that has left the screen is not brought back by any run of steps.
pub proof fn lemma_run_brings_nothing_back(game: GameView, steps: Seq<Step>, id: usize)
    requires
        game.wf(),
        playable(game, steps),
        id < game.queue.len(),
        !game.has_target(id),
    ensures
        !game.after_all(steps).has_target(id),
    decreases steps.len(),
{
    if steps.len() > 0 {
        let init = steps.drop_last();
        assert(playable(game, init)) by {
            assert forall|k: int| 0 <= k < init.len() implies (#[trigger] init[k]).lawful() by {
                assert(steps[k].lawful());
            }
        }
        lemma_run_brings_nothing_back(game, init, id);
        lemma_run_keeps_order(game, init);
        lemma_step_brings_nothing_back(game.after_all(init), steps.last(), id);
    }
}

/// Expiry is exact within a frame. A target on screen whose timer reaches the
/// lifetime in this frame is among the casualties of the frame and off the
/// screen after it; any other target on screen is not among them and stays,
/// older by the length of the frame.
pub proof fn lemma_expiry_is_exact(game: GameView, delta: nat, i: int)
    requires
        game.wf(),
        0 <= i < game.targets.len(),
    ensures
        ({
            let target = game.targets[i];
            if target.age_nanos + delta >= TARGET_LIFETIME_NANOS {
                &&& game.casualties(delta).contains(target.id)
                &&& !game.aged(delta).has_target(target.id)
            } else {
                &&& !game.casualties(delta).contains(target.id)
                &&& game.aged(delta).targets.contains(older(target, delta))
            }
        }),
{
    let target = game.targets[i];
    let after = game.aged(delta);
    assert(game.targets.contains(target));
    if timed_out(target, delta) {
        lemma_timed_out_is_casualty(game, delta, target);
        if after.has_target(target.id) {
            let k = choose|k: int|
                0 <= k < after.targets.len() && (#[trigger] after.targets[k]).id == target.id;
            assert(after.targets.contains(after.targets[k]));
            let origin = lemma_aged_from(game, delta, after.targets[k]);
            lemma_id_names_one_target(game, origin, target);
        }
    } else {
        lemma_survivor_is_older(game, delta, target);
        if game.casualties(delta).contains(target.id) {
            let origin = lemma_casualty_from(game, delta, target.id);
            lemma_id_names_one_target(game, origin, target);
        }
    }
}

/// A target lasts exactly its lifetime. Over any run of steps in which no key
/// event removes it, a target is on screen at the end if the time that has
/// passed, added to its age, is below the lifetime, and its age has grown by
/// exactly that time; otherwise it is off the screen. The Expirer names it in
/// one frame only: the frame that brings that sum to the lifetime.
pub proof fn lemma_target_lasts_its_lifetime(game: GameView, steps: Seq<Step>, i: int)
    requires
        game.wf(),
        playable(game, steps),
        0 <= i < game.targets.len(),
        forall|k: int|
            0 <= k < steps.len() ==> !#[trigger] game.struck_at(steps, k, game.targets[i].id),
    ensures
        ({
            let target = game.targets[i];
            let time = time_passed(steps);
            &&& if target.age_nanos + time < TARGET_LIFETIME_NANOS {
                game.after_all(steps).targets.contains(older(target, time))
            } else {
                !game.after_all(steps).has_target(target.id)
            }
            &&& forall|delta: nat|
                (#[trigger] game.after_all(steps).casualties(delta)).contains(target.id) <==> (
                target.age_nanos + time < TARGET_LIFETIME_NANOS <= target.age_nanos + time
                    + delta)
        }),
    decreases steps.len(),
{
    let target = game.targets[i];
    if steps.len() == 0 {
        assert(older(target, 0) == target);
    } else {
        let init = steps.drop_last();
        let last = steps.last();
        let mid = game.after_all(init);
        let end = game.after_all(steps);
        let time = time_passed(init);
        assert(playable(game, init)) by {
            assert forall|k: int| 0 <= k < init.len() implies (#[trigger] init[k]).lawful() by {
                assert(steps[k].lawful());
            }
        }
        assert forall|k: int| 0 <= k < init.len() implies !#[trigger] game.struck_at(
            init,
            k,
            target.id,
        ) by {
            assert(init.take(k) == steps.take(k));
            assert(!game.struck_at(steps, k, target.id));
        }
        lemma_target_lasts_its_lifetime(game, init, i);
        lemma_run_keeps_order(game, init);
        assert(game.allows(target));
        assert(!mid.strikes(last, target.id)) by {
            assert(steps.take(steps.len() - 1) == init);
            assert(!game.struck_at(steps, steps.len() - 1, target.id));
        }
        if target.age_nanos + time < TARGET_LIFETIME_NANOS {
            let now = older(target, time);
            let j = choose|j: int| 0 <= j < mid.targets.len() && mid.targets[j] == now;
            match last {
                Step::Press(event) => {
                    if mid.front_matches(event) {
                        assert(end.targets[j - 1] == now);
                    }
                },
                Step::Expire(delta) => {
                    lemma_expiry_is_exact(mid, delta, j);
                    assert(older(now, delta) == older(target, time + delta));
                },
                Step::Spawn(delta, letter) => {
                    assert(end.targets[j] == now);
                },
            }
        } else {
            lemma_step_brings_nothing_back(mid, last, target.id);
        }
    }
    let end = game.after_all(steps);
    let time = time_passed(steps);
    lemma_run_keeps_order(game, steps);
    assert forall|delta: nat|
        (#[trigger] end.casualties(delta)).contains(target.id) <==> (target.age_nanos + time
            < TARGET_LIFETIME_NANOS <= target.age_nanos + time + delta) by {
        if target.age_nanos + time < TARGET_LIFETIME_NANOS {
            let j = choose|j: int|
                0 <= j < end.targets.len() && end.targets[j] == older(target, time);
            lemma_expiry_is_exact(end, delta, j);
        } else if end.casualties(delta).contains(target.id) {
            let origin = lemma_casualty_from(end, delta, target.id);
            let j = choose|j: int| 0 <= j < end.targets.len() && end.targets[j] == origin;
            assert(end.targets[j].id == target.id);
        }
    }
}

/// A target that its key has removed is gone for good. It is off the screen
/// at once, and after any run of further steps it is still off the screen and
/// among the casualties of no frame.
pub proof fn lemma_matched_target_never_expires(
    game: GameView,
    event: Option<KeyboardInput>,
    steps: Seq<Step>,
)
    requires
        game.wf(),
        game.front_matches(event),
        playable(game, steps),
    ensures
        game.matched(event) == Some(game.targets[0].id),
        game.targets[0].age_nanos < TARGET_LIFETIME_NANOS,
        !game.pressed(event).has_target(game.targets[0].id),
        !game.pressed(event).after_all(steps).has_target(game.targets[0].id),
        forall|delta: nat|
            !(#[trigger] game.pressed(event).after_all(steps).casualties(delta)).contains(
                game.targets[0].id,
            ),
{
    let id = game.targets[0].id;
    let rest = game.pressed(event);
    let later = rest.after_all(steps);
    assert(game.allows(game.targets[0]));
    lemma_pressed_wf(game, event);
    if rest.has_target(id) {
        let k = choose|k: int| 0 <= k < rest.targets.len() && (#[trigger] rest.targets[k]).id == id;
        assert(game.targets[0].id < game.targets[k + 1].id);
    }
    lemma_run_brings_nothing_back(rest, steps, id);
    assert forall|delta: nat| !(#[trigger] later.casualties(delta)).contains(id) by {
        if later.casualties(delta).contains(id) {
            let origin = lemma_casualty_from(later, delta, id);
            let j = choose|j: int| 0 <= j < later.targets.len() && later.targets[j] == origin;
            assert(later.targets[j].id == id);
        }
    }
}

/// A target whose time has run out is gone for good. It is off the screen
/// after the frame, and after any run of further steps it is still off the
/// screen, so that no key event removes it.
pub proof fn lemma_expired_target_is_never_matched(
    game: GameView,
    delta: nat,
    i: int,
    steps: Seq<Step>,
)
    requires
        game.wf(),
        0 <= i < game.targets.len(),
        game.targets[i].age_nanos + delta >= TARGET_LIFETIME_NANOS,
        playable(game, steps),
    ensures
        game.casualties(delta).contains(game.targets[i].id),
        !game.aged(delta).after_all(steps).has_target(game.targets[i].id),
        forall|event: Option<KeyboardInput>|
            #[trigger] game.aged(delta).after_all(steps).matched(event) != Some(game.targets[i].id),
{
    let id = game.targets[i].id;
    let later = game.aged(delta).after_all(steps);
    assert(game.allows(game.targets[i]));
    lemma_expiry_is_exact(game, delta, i);
    lemma_aged_wf(game, delta);
    lemma_run_brings_nothing_back(game.aged(delta), steps, id);
    assert forall|event: Option<KeyboardInput>| #[trigger] later.matched(event) != Some(id) by {
        if later.front_matches(event) {
            assert(later.targets[0].id != id);
        }
    }
}

/// A key that no target asks for removes nothing. Where no target on screen
/// carries the character `c`, a press of the key of `c` leaves the game as it is.
pub proof fn lemma_unasked_key_removes_nothing(game: GameView, c: char)
    requires
        game.wf(),
        forall|i: int| 0 <= i < game.targets.len() ==> (#[trigger] game.targets[i]).letter != c,
    ensures
        ({
            let event = Some(
                KeyboardInput { key_code: Some(keycode_of(c)), state: ButtonState::Pressed },
            );
            &&& game.matched(event) == None::<usize>
            &&& game.pressed(event) == game
        }),
{
    if game.targets.len() > 0 {
        let front = game.targets[0];
        assert(game.allows(front));
        assert(is_letter(game.queue[front.id as int]));
        if is_letter(c) {
            lemma_letter_keys_distinct(front.letter, c);
        } else {
            lemma_letter_keys_distinct(front.letter, front.letter);
        }
    }
}

/// A target keeps its letter. Over any run of steps, a target on screen at
/// the end that has the id of a target on screen at the start has its letter too.
pub proof fn lemma_letter_never_changes(
    game: GameView,
    steps: Seq<Step>,
    before: Target,
    after: Target,
)
    requires
        game.wf(),
        playable(game, steps),
        game.targets.contains(before),
        game.after_all(steps).targets.contains(after),
        before.id == after.id,
    ensures
        before.letter == after.letter,
{
    let end = game.after_all(steps);
    lemma_run_keeps_order(game, steps);
    let i = choose|i: int| 0 <= i < game.targets.len() && game.targets[i] == before;
    let j = choose|j: int| 0 <= j < end.targets.len() && end.targets[j] == after;
    assert(game.allows(game.targets[i]));
    assert(end.allows(end.targets[j]));
    assert(end.queue[before.id as int] == game.queue[before.id as int]);
}

} // verus!
