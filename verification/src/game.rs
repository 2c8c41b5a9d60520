//! The game that runs: its state, and the three rules that change it each frame.

use crate::clock::{tick_repeating, SPAWN_PERIOD_NANOS, TARGET_LIFETIME_NANOS};
use crate::dice::random_letter;
use crate::keys::{get_char_keycode, is_letter, ButtonState, KeyboardInput};
use crate::model::{
    ages, expires, id_of, lemma_aged_wf, lemma_pressed_wf, lemma_spawned_wf, outlives, GameView,
};
use crate::target::Target;
use vstd::prelude::*;

verus! {

/// A game in progress.
#[derive(Debug)]
pub struct Game {
    schedule_nanos: u64,
    targets: Vec<Target>,
    queue: Vec<char>,
}

/// What one frame did.
#[derive(Debug)]
pub struct Frame {
    /// The target that the player's key removed.
    pub matched: Option<usize>,
    /// The targets whose time ran out, oldest first.
    pub expired: Vec<usize>,
    /// The target that appeared.
    pub spawned: Option<Target>,
}

impl View for Game {
    type V = GameView;

    closed spec fn view(&self) -> GameView {
        GameView {
            schedule_nanos: self.schedule_nanos as nat,
            targets: self.targets@,
            queue: self.queue@,
        }
    }
}

impl Game {
    /// What holds of every game that this crate hands out.
    pub open spec fn wf(&self) -> bool {
        self@.wf()
    }

    /// A game with no target on screen, whose first spawn is one period away.
    pub fn new() -> (game: Game)
        ensures
            game.wf(),
            game@ == GameView::start(),
    {
        Game { schedule_nanos: 0, targets: Vec::new(), queue: Vec::new() }
    }

    /// Nanoseconds since the spawn schedule last fired.
    pub fn schedule_nanos(&self) -> (nanos: u64)
        ensures
            nanos == self@.schedule_nanos,
    {
        self.schedule_nanos
    }

    /// The targets on screen, oldest first.
    pub fn targets(&self) -> (targets: &[Target])
        ensures
            targets@ == self@.targets,
    {
        self.targets.as_slice()
    }

    /// Every letter spawned so far, in the order of spawning.
    pub fn queue(&self) -> (queue: &[char])
        ensures
            queue@ == self@.queue,
    {
        self.queue.as_slice()
    }

    /// The oldest target on screen: the one that the next key event is held against.
    pub fn front(&self) -> (front: Option<Target>)
        ensures
            front == if self@.targets.len() > 0 {
                Some(self@.targets[0])
            } else {
                None
            },
    {
        if self.targets.len() > 0 {
            Some(self.targets[0])
        } else {
            None
        }
    }

    /// Spawner, first half: moves the spawn schedule on by one frame and says
    /// whether a spawn is due.
    pub fn tick_spawner(&mut self, delta_nanos: u64) -> (due: bool)
        requires
            old(self).wf(),
        ensures
            final(self).wf(),
            due == old(self)@.spawn_due(delta_nanos as nat),
            final(self)@ == old(self)@.scheduled(delta_nanos as nat),
    {
        let tick = tick_repeating(SPAWN_PERIOD_NANOS, self.schedule_nanos, delta_nanos);
        self.schedule_nanos = tick.elapsed_nanos;
        tick.finished
    }

    /// Spawner, second half: puts a fresh target for `letter` on screen, behind
    /// the others, and notes the letter in the log.
    pub fn spawn_letter(&mut self, letter: char) -> (target: Target)
        requires
            old(self).wf(),
            is_letter(letter),
        ensures
            final(self).wf(),
            final(self)@ == old(self)@.spawned(letter),
            target == old(self)@.next_target(letter),
    {
        let target = Target { id: self.queue.len(), letter, age_nanos: 0 };
        self.queue.push(letter);
        self.targets.push(target);
        proof {
            assert(self.queue.len() == old(self).queue.len() + 1);
            lemma_spawned_wf(old(self)@, letter);
        }
        target
    }

    /// Spawner: moves the spawn schedule on by one frame and, where a spawn is
    /// due, puts a target with a random lowercase letter on screen.
    ///
    /// One frame spawns one target at most, however many periods it spans.
    pub fn spawn(&mut self, delta_nanos: u64) -> (spawned: Option<Target>)
        requires
            old(self).wf(),
        ensures
            final(self).wf(),
            old(self)@.spawns(delta_nanos as nat, spawned, final(self)@),
    {
        if self.tick_spawner(delta_nanos) {
            let letter = random_letter();
            Some(self.spawn_letter(letter))
        } else {
            None
        }
    }

    /// Expirer: adds one frame to the age of every target, takes those whose
    /// time is up off the screen, and returns their ids.
    pub fn expire(&mut self, delta_nanos: u64) -> (gone: Vec<usize>)
        requires
            old(self).wf(),
        ensures
            final(self).wf(),
            final(self)@ == old(self)@.aged(delta_nanos as nat),
            gone@ == old(self)@.casualties(delta_nanos as nat),
    {
        let ghost delta = delta_nanos as nat;
        let ghost before = self.targets@;
        let mut kept: Vec<Target> = Vec::new();
        let mut gone: Vec<usize> = Vec::new();
        let count = self.targets.len();
        let mut i: usize = 0;
        proof {
            before.take(0).lemma_filter_len(outlives(delta));
            before.take(0).lemma_filter_len(expires(delta));
        }
        while i < count
            invariant
                i <= count,
                count == before.len(),
                self.targets@ == before,
                delta == delta_nanos as nat,
                kept@ == before.take(i as int).filter(outlives(delta)).map_values(ages(delta)),
                gone@ == before.take(i as int).filter(expires(delta)).map_values(id_of()),
            decreases count - i,
        {
            let target = self.targets[i];
            let tick = tick_repeating(TARGET_LIFETIME_NANOS, target.age_nanos, delta_nanos);
            proof {
                let seen = before.take(i as int);
                assert(before.take(i + 1) == seen.push(target));
                seen.lemma_filter_push(target, outlives(delta));
                seen.lemma_filter_push(target, expires(delta));
            }
            if tick.finished {
                gone.push(target.id);
            } else {
                kept.push(
                    Target { id: target.id, letter: target.letter, age_nanos: tick.elapsed_nanos },
                );
            }
            i += 1;
        }
        self.targets = kept;
        proof {
            assert(before.take(count as int) == before);
            lemma_aged_wf(old(self)@, delta);
        }
        gone
    }

    /// Matcher: where `event`, the first pending keyboard event, is a press of
    /// the key of the oldest target on screen, takes that target off the screen
    /// and returns its id.
    ///
    /// No other target and no later event is looked at.
    pub fn press(&mut self, event: Option<KeyboardInput>) -> (hit: Option<usize>)
        requires
            old(self).wf(),
        ensures
            final(self).wf(),
            final(self)@ == old(self)@.pressed(event),
            hit == old(self)@.matched(event),
    {
        proof {
            lemma_pressed_wf(old(self)@, event);
        }
        if self.targets.len() == 0 {
            return None;
        }
        let front = self.targets[0];
        match event {
            Some(KeyboardInput { key_code: Some(key), state: ButtonState::Pressed }) => {
                if get_char_keycode(front.letter) == key {
                    self.targets.remove(0);
                    assert(self.targets@ == old(self).targets@.drop_first());
                    Some(front.id)
                } else {
                    None
                }
            },
            _ => None,
        }
    }

    /// One frame of the game: the Matcher sees `event`, then the Expirer and
    /// the Spawner see `delta_nanos` pass.
    ///
    /// A target that appears in a frame starts to age in the next one.
    pub fn update(&mut self, delta_nanos: u64, event: Option<KeyboardInput>) -> (frame: Frame)
        requires
            old(self).wf(),
        ensures
            final(self).wf(),
            frame.matched == old(self)@.matched(event),
            frame.expired@ == old(self)@.pressed(event).casualties(delta_nanos as nat),
            old(self)@.pressed(event).aged(delta_nanos as nat).spawns(
                delta_nanos as nat,
                frame.spawned,
                final(self)@,
            ),
    {
        let matched = self.press(event);
        let expired = self.expire(delta_nanos);
        let spawned = self.spawn(delta_nanos);
        Frame { matched, expired, spawned }
    }
}

} // verus!
