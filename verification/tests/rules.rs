use typing_game::clock::{SPAWN_PERIOD_NANOS, TARGET_LIFETIME_NANOS};
use typing_game::dice::random_letter;
use typing_game::game::Game;
use typing_game::keys::{ButtonState, KeyCode, KeyboardInput};
use typing_game::target::Target;

const MS: u64 = 1_000_000;

fn pressed(key: KeyCode) -> Option<KeyboardInput> {
    Some(KeyboardInput { key_code: Some(key), state: ButtonState::Pressed })
}

fn released(key: KeyCode) -> Option<KeyboardInput> {
    Some(KeyboardInput { key_code: Some(key), state: ButtonState::Released })
}

fn game_with(letters: &[char]) -> Game {
    let mut game = Game::new();
    for letter in letters {
        game.spawn_letter(*letter);
    }
    game
}

#[test]
fn the_periods_are_four_tenths_and_twelve_tenths_of_a_second() {
    assert_eq!(SPAWN_PERIOD_NANOS, 400_000_000);
    assert_eq!(TARGET_LIFETIME_NANOS, 1_200_000_000);
}

#[test]
fn a_new_game_is_empty() {
    let game = Game::new();
    assert_eq!(game.schedule_nanos(), 0);
    assert!(game.targets().is_empty());
    assert!(game.queue().is_empty());
    assert_eq!(game.front(), None);
}

#[test]
fn the_schedule_does_not_fire_before_its_period() {
    let mut game = Game::new();
    assert!(!game.tick_spawner(399_999_999));
    assert_eq!(game.schedule_nanos(), 399_999_999);
}

#[test]
fn the_schedule_fires_when_its_period_is_reached() {
    let mut game = Game::new();
    assert!(!game.tick_spawner(150 * MS));
    assert!(!game.tick_spawner(150 * MS));
    assert!(game.tick_spawner(100 * MS));
    assert_eq!(game.schedule_nanos(), 0);
}

#[test]
fn the_schedule_keeps_what_goes_beyond_its_period() {
    let mut game = Game::new();
    assert!(game.tick_spawner(500 * MS));
    assert_eq!(game.schedule_nanos(), 100 * MS);
    assert!(!game.tick_spawner(299 * MS));
    assert_eq!(game.schedule_nanos(), 399 * MS);
    assert!(game.tick_spawner(MS));
    assert_eq!(game.schedule_nanos(), 0);
}

#[test]
fn a_frame_of_no_length_changes_nothing() {
    let mut game = game_with(&['a']);
    assert!(!game.tick_spawner(0));
    assert_eq!(game.expire(0), Vec::<usize>::new());
    assert_eq!(game.schedule_nanos(), 0);
    assert_eq!(game.targets(), [Target { id: 0, letter: 'a', age_nanos: 0 }]);
}

#[test]
fn the_longest_frame_is_counted_exactly() {
    let mut game = Game::new();
    assert!(game.tick_spawner(u64::MAX));
    assert_eq!(game.schedule_nanos(), 109_551_615);
    let mut game = Game::new();
    assert!(!game.tick_spawner(399_999_999));
    assert!(game.tick_spawner(u64::MAX));
    assert_eq!(game.schedule_nanos(), 109_551_614);
    let mut game = game_with(&['a', 'b']);
    assert_eq!(game.expire(u64::MAX), vec![0, 1]);
    assert!(game.targets().is_empty());
}

#[test]
fn a_long_frame_spawns_one_target_only() {
    let mut game = Game::new();
    let spawned = game.spawn(1_000 * MS);
    assert!(spawned.is_some());
    assert_eq!(game.targets().len(), 1);
    assert_eq!(game.queue().len(), 1);
    assert_eq!(game.schedule_nanos(), 200 * MS);
}

#[test]
fn spawn_does_nothing_before_the_schedule_fires() {
    let mut game = Game::new();
    assert_eq!(game.spawn(399 * MS), None);
    assert!(game.targets().is_empty());
    assert!(game.queue().is_empty());
    assert_eq!(game.schedule_nanos(), 399 * MS);
}

#[test]
fn spawn_puts_a_fresh_lowercase_target_last() {
    let mut game = game_with(&['x']);
    game.expire(100 * MS);
    let target = game.spawn(400 * MS).expect("the schedule fires");
    assert_eq!(target.id, 1);
    assert_eq!(target.age_nanos, 0);
    assert!(('a'..='z').contains(&target.letter));
    assert_eq!(
        game.targets(),
        [Target { id: 0, letter: 'x', age_nanos: 100 * MS }, target]
    );
    assert_eq!(game.queue(), ['x', target.letter]);
}

#[test]
fn spawn_letter_numbers_targets_by_the_log() {
    let mut game = Game::new();
    assert_eq!(game.spawn_letter('k'), Target { id: 0, letter: 'k', age_nanos: 0 });
    assert_eq!(game.spawn_letter('k'), Target { id: 1, letter: 'k', age_nanos: 0 });
    assert_eq!(game.press(pressed(KeyCode::K)), Some(0));
    assert_eq!(game.spawn_letter('z'), Target { id: 2, letter: 'z', age_nanos: 0 });
    assert_eq!(game.queue(), ['k', 'k', 'z']);
    assert_eq!(
        game.targets(),
        [Target { id: 1, letter: 'k', age_nanos: 0 }, Target { id: 2, letter: 'z', age_nanos: 0 }]
    );
    assert_eq!(game.front(), Some(Target { id: 1, letter: 'k', age_nanos: 0 }));
}

#[test]
fn random_letters_are_lowercase() {
    for _ in 0..2_000 {
        let letter = random_letter();
        assert!(('a'..='z').contains(&letter), "drew {letter:?}");
    }
}

#[test]
fn random_letters_vary() {
    let first = random_letter();
    assert!((0..400).any(|_| random_letter() != first));
}

#[test]
fn random_letters_reach_both_ends_of_the_alphabet() {
    let drawn: Vec<char> = (0..4_000).map(|_| random_letter()).collect();
    assert!(drawn.contains(&'a'));
    assert!(drawn.contains(&'z'));
}

#[test]
fn a_target_expires_when_its_time_is_up_and_not_before() {
    let mut game = game_with(&['a']);
    assert_eq!(game.expire(1_199_999_999), Vec::<usize>::new());
    assert_eq!(game.targets(), [Target { id: 0, letter: 'a', age_nanos: 1_199_999_999 }]);
    assert_eq!(game.expire(1), vec![0]);
    assert!(game.targets().is_empty());
}

#[test]
fn a_target_expires_in_the_frame_that_passes_its_time() {
    let mut game = game_with(&['a']);
    assert_eq!(game.expire(700 * MS), Vec::<usize>::new());
    assert_eq!(game.expire(700 * MS), vec![0]);
    assert!(game.targets().is_empty());
    assert_eq!(game.expire(700 * MS), Vec::<usize>::new());
}

#[test]
fn each_target_expires_by_its_own_age() {
    let mut game = Game::new();
    game.spawn_letter('a');
    game.expire(500 * MS);
    game.spawn_letter('b');
    game.expire(500 * MS);
    game.spawn_letter('c');
    assert_eq!(
        game.targets(),
        [
            Target { id: 0, letter: 'a', age_nanos: 1_000 * MS },
            Target { id: 1, letter: 'b', age_nanos: 500 * MS },
            Target { id: 2, letter: 'c', age_nanos: 0 },
        ]
    );
    assert_eq!(game.expire(200 * MS), vec![0]);
    assert_eq!(
        game.targets(),
        [
            Target { id: 1, letter: 'b', age_nanos: 700 * MS },
            Target { id: 2, letter: 'c', age_nanos: 200 * MS },
        ]
    );
    assert_eq!(game.expire(1_000 * MS), vec![1, 2]);
    assert!(game.targets().is_empty());
    assert_eq!(game.queue(), ['a', 'b', 'c']);
}

#[test]
fn expiry_leaves_the_schedule_and_the_log_alone() {
    let mut game = game_with(&['a']);
    game.tick_spawner(123);
    game.expire(TARGET_LIFETIME_NANOS);
    assert_eq!(game.schedule_nanos(), 123);
    assert_eq!(game.queue(), ['a']);
}

#[test]
fn the_right_key_removes_the_oldest_target() {
    let mut game = game_with(&['m', 'q']);
    assert_eq!(game.press(pressed(KeyCode::M)), Some(0));
    assert_eq!(game.targets(), [Target { id: 1, letter: 'q', age_nanos: 0 }]);
    assert_eq!(game.queue(), ['m', 'q']);
}

#[test]
fn a_key_removes_one_target_even_when_two_share_the_letter() {
    let mut game = game_with(&['e', 'e', 'e']);
    assert_eq!(game.press(pressed(KeyCode::E)), Some(0));
    assert_eq!(game.targets().len(), 2);
    assert_eq!(game.press(pressed(KeyCode::E)), Some(1));
    assert_eq!(game.targets(), [Target { id: 2, letter: 'e', age_nanos: 0 }]);
}

#[test]
fn the_key_of_a_later_target_removes_nothing() {
    let mut game = game_with(&['m', 'q']);
    assert_eq!(game.press(pressed(KeyCode::Q)), None);
    assert_eq!(game.targets().len(), 2);
}

#[test]
fn a_key_that_no_target_carries_removes_nothing() {
    let mut game = game_with(&['m', 'q']);
    assert_eq!(game.press(pressed(KeyCode::X)), None);
    assert_eq!(game.press(pressed(KeyCode::Yen)), None);
    assert_eq!(
        game.targets(),
        [Target { id: 0, letter: 'm', age_nanos: 0 }, Target { id: 1, letter: 'q', age_nanos: 0 }]
    );
}

#[test]
fn a_key_pressed_on_an_empty_screen_removes_nothing() {
    let mut game = Game::new();
    assert_eq!(game.press(pressed(KeyCode::A)), None);
    assert!(game.targets().is_empty());
}

#[test]
fn only_a_press_of_a_known_key_counts() {
    let mut game = game_with(&['m']);
    assert_eq!(game.press(None), None);
    assert_eq!(game.press(released(KeyCode::M)), None);
    assert_eq!(
        game.press(Some(KeyboardInput { key_code: None, state: ButtonState::Pressed })),
        None
    );
    assert_eq!(game.targets().len(), 1);
    assert_eq!(game.press(pressed(KeyCode::M)), Some(0));
}

#[test]
fn a_key_press_leaves_ages_and_schedule_alone() {
    let mut game = game_with(&['m', 'q']);
    game.expire(300 * MS);
    game.tick_spawner(300 * MS);
    game.press(pressed(KeyCode::M));
    assert_eq!(game.targets(), [Target { id: 1, letter: 'q', age_nanos: 300 * MS }]);
    assert_eq!(game.schedule_nanos(), 300 * MS);
}

#[test]
fn update_matches_then_expires_then_spawns() {
    let mut game = Game::new();
    game.spawn_letter('a');
    game.expire(900 * MS);
    game.spawn_letter('b');
    game.expire(200 * MS);
    game.spawn_letter('b');
    // 'a' stands at 1.1 s, the first 'b' at 0.2 s, the second at 0 s.
    let frame = game.update(1_000 * MS, pressed(KeyCode::A));
    assert_eq!(frame.matched, Some(0));
    assert_eq!(frame.expired, vec![1]);
    let spawned = frame.spawned.expect("one second spans the spawn period");
    assert_eq!(spawned.id, 3);
    assert_eq!(spawned.age_nanos, 0);
    assert_eq!(game.targets(), [Target { id: 2, letter: 'b', age_nanos: 1_000 * MS }, spawned]);
    assert_eq!(game.schedule_nanos(), 200 * MS);
}

#[test]
fn update_holds_the_key_against_the_target_that_was_first_when_the_frame_began() {
    let mut game = game_with(&['a']);
    game.expire(1_000 * MS);
    game.spawn_letter('a');
    // The first 'a' is both typed and out of time in this frame; the second stays.
    let frame = game.update(300 * MS, pressed(KeyCode::A));
    assert_eq!(frame.matched, Some(0));
    assert_eq!(frame.expired, Vec::<usize>::new());
    assert_eq!(frame.spawned, None);
    assert_eq!(game.targets(), [Target { id: 1, letter: 'a', age_nanos: 300 * MS }]);
}

#[test]
fn update_without_event_or_time_changes_nothing() {
    let mut game = game_with(&['a', 'b']);
    let frame = game.update(0, None);
    assert_eq!(frame.matched, None);
    assert!(frame.expired.is_empty());
    assert_eq!(frame.spawned, None);
    assert_eq!(game.targets().len(), 2);
}

#[test]
fn update_spawns_on_the_fixed_schedule() {
    let mut game = Game::new();
    let mut spawned_at = Vec::new();
    for frame_number in 1..=20u64 {
        let frame = game.update(100 * MS, None);
        if let Some(target) = frame.spawned {
            assert!(('a'..='z').contains(&target.letter));
            spawned_at.push((frame_number, target.id));
        }
    }
    assert_eq!(spawned_at, vec![(4, 0), (8, 1), (12, 2), (16, 3), (20, 4)]);
    assert_eq!(game.queue().len(), 5);
}
