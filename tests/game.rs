use yahtzee::game::{App, Command};
use yahtzee::hand::DieFace;
use yahtzee::roll::{AllRolls, RollType};
use yahtzee::view::{Dice, Die, RollSlots, SlotValue};

fn hand(values: [u8; 5]) -> Vec<DieFace> {
    values.iter().map(|v| DieFace::new(*v)).collect()
}

/// Moves the cursor forward until it rests on position `index`.
fn target(app: &mut App, index: usize) {
    for _ in 0..14 {
        if app.rolls.selected_index() == Some(index) {
            return;
        }
        app.rolls.select_next();
    }
    panic!("category {} cannot be targeted", index);
}

/// Scores `values` in the category at position `index`.
fn score_into(app: &mut App, index: usize, values: [u8; 5]) {
    app.dice_faces = hand(values);
    target(app, index);
    app.submit_selection();
}

#[test]
fn new_game_state() {
    let app = App::new();
    assert!(!app.exit);
    assert_eq!(app.roll_count, 0);
    assert_eq!(app.rolls.rolls.len(), 13);
    assert!(app.rolls.rolls.iter().all(|r| r.score.is_none() && !r.selected));
    let values: Vec<u8> = app.dice_faces.iter().map(|d| d.value).collect();
    assert_eq!(values, vec![1, 2, 3, 4, 5]);
    assert!(!app.is_rolling());
    assert!(!app.is_game_over());
    assert_eq!(app.total_score(), 0);
}

#[test]
fn yahtzee_scored_three_times_stacks() {
    let mut app = App::new();
    score_into(&mut app, 12, [5, 5, 5, 5, 5]);
    assert_eq!(app.rolls.get(RollType::Yahtzee).score, Some(50));
    score_into(&mut app, 0, [5, 5, 5, 5, 5]);
    assert_eq!(app.rolls.get(RollType::Yahtzee).score, Some(150));
    assert_eq!(app.rolls.get(RollType::Ones).score, Some(0));
    score_into(&mut app, 4, [5, 5, 5, 5, 5]);
    assert_eq!(app.rolls.get(RollType::Yahtzee).score, Some(250));
    assert_eq!(app.rolls.get(RollType::Fives).score, Some(25));
    // a hand that is not five of a kind leaves the stacked score alone
    score_into(&mut app, 11, [1, 2, 3, 4, 6]);
    assert_eq!(app.rolls.get(RollType::Yahtzee).score, Some(250));
}

#[test]
fn yahtzee_scratched_to_zero_stays_zero() {
    let mut app = App::new();
    score_into(&mut app, 12, [1, 2, 3, 4, 6]);
    assert_eq!(app.rolls.get(RollType::Yahtzee).score, Some(0));
    score_into(&mut app, 0, [2, 2, 2, 2, 2]);
    assert_eq!(app.rolls.get(RollType::Yahtzee).score, Some(0));
    assert_eq!(app.rolls.get(RollType::Ones).score, Some(0));
}

#[test]
fn bonus_boundary_at_sixty_two() {
    let mut app = App::new();
    score_into(&mut app, 5, [6, 6, 6, 6, 6]);
    score_into(&mut app, 4, [5, 5, 5, 5, 1]);
    score_into(&mut app, 3, [4, 4, 1, 1, 1]);
    assert_eq!(app.rolls.bonus_status(), (58, 0));
    score_into(&mut app, 2, [3, 1, 1, 2, 2]);
    score_into(&mut app, 1, [1, 1, 1, 3, 4]);
    assert_eq!(app.rolls.bonus_status(), (61, 0));
    score_into(&mut app, 0, [1, 3, 3, 3, 4]);
    assert_eq!(app.rolls.bonus_status(), (62, 0));
    assert_eq!(app.total_score(), 62);
}

#[test]
fn bonus_boundary_at_sixty_three() {
    let mut app = App::new();
    score_into(&mut app, 5, [6, 6, 6, 6, 6]);
    score_into(&mut app, 4, [5, 5, 5, 5, 5]);
    assert_eq!(app.rolls.bonus_status(), (55, 0));
    score_into(&mut app, 3, [4, 4, 1, 1, 1]);
    assert_eq!(app.rolls.bonus_status(), (63, 35));
    assert_eq!(app.total_score(), 63 + 35);
}

#[test]
fn bonus_ignores_lower_section() {
    let mut app = App::new();
    score_into(&mut app, 11, [6, 6, 6, 6, 6]);
    score_into(&mut app, 7, [6, 6, 6, 6, 5]);
    score_into(&mut app, 6, [6, 6, 6, 5, 5]);
    assert_eq!(app.rolls.bonus_status(), (0, 0));
    assert_eq!(app.total_score(), 30 + 29 + 28);
}

#[test]
fn selection_skips_scored_categories() {
    let mut app = App::new();
    score_into(&mut app, 1, [2, 2, 1, 1, 1]);
    score_into(&mut app, 2, [3, 1, 1, 1, 1]);
    let mut rolls = AllRolls::new();
    rolls.select_next();
    assert_eq!(rolls.selected_index(), Some(0));
    app.rolls.select_next();
    assert_eq!(app.rolls.selected_index(), Some(0));
    app.rolls.select_next();
    assert_eq!(app.rolls.selected_index(), Some(3));
    app.rolls.select_prev();
    assert_eq!(app.rolls.selected_index(), Some(0));
    app.rolls.select_prev();
    assert_eq!(app.rolls.selected_index(), Some(12));
    for _ in 0..40 {
        app.rolls.select_next();
        let i = app.rolls.selected_index().unwrap();
        assert!(app.rolls.rolls[i].score.is_none());
        assert_eq!(app.rolls.rolls.iter().filter(|r| r.selected).count(), 1);
    }
    for _ in 0..40 {
        app.rolls.select_prev();
        let i = app.rolls.selected_index().unwrap();
        assert!(app.rolls.rolls[i].score.is_none());
    }
}

#[test]
fn select_prev_from_nothing_starts_at_first() {
    let mut rolls = AllRolls::new();
    rolls.select_prev();
    assert_eq!(rolls.selected_index(), Some(0));
    rolls.select_prev();
    assert_eq!(rolls.selected_index(), Some(12));
    assert_eq!(rolls.selected().map(|r| r.roll_type), Some(RollType::Yahtzee));
}

#[test]
fn thirteen_steps_return_to_start() {
    let mut rolls = AllRolls::new();
    for _ in 0..4 {
        rolls.select_next();
    }
    assert_eq!(rolls.selected_index(), Some(3));
    for _ in 0..13 {
        rolls.select_next();
    }
    assert_eq!(rolls.selected_index(), Some(3));

    let mut app = App::new();
    for i in 0..13 {
        if i != 7 {
            score_into(&mut app, i, [1, 2, 3, 4, 6]);
        }
    }
    app.rolls.select_next();
    assert_eq!(app.rolls.selected_index(), Some(7));
    for _ in 0..13 {
        app.rolls.select_next();
        assert_eq!(app.rolls.selected_index(), Some(7));
    }
}

#[test]
fn game_over_after_all_thirteen() {
    let mut app = App::new();
    let mut expected = 0;
    let hands: [[u8; 5]; 13] = [
        [1, 1, 1, 2, 3],
        [2, 2, 2, 1, 3],
        [3, 3, 3, 1, 2],
        [4, 4, 4, 1, 2],
        [5, 5, 5, 1, 2],
        [6, 6, 6, 1, 2],
        [2, 2, 2, 5, 6],
        [3, 3, 3, 3, 1],
        [2, 2, 4, 4, 4],
        [1, 2, 3, 4, 6],
        [2, 3, 4, 5, 6],
        [6, 6, 5, 5, 4],
        [4, 4, 4, 4, 4],
    ];
    let scores: [u32; 13] = [3, 6, 9, 12, 15, 18, 17, 13, 25, 30, 40, 26, 50];
    for i in 0..13 {
        assert!(!app.is_game_over());
        score_into(&mut app, i, hands[i]);
        assert_eq!(app.rolls.rolls[i].score, Some(scores[i]));
        expected += scores[i];
    }
    assert!(app.is_game_over());
    assert_eq!(app.rolls.bonus_status(), (63, 35));
    assert_eq!(app.total_score(), expected + 35);
    // nothing can be targeted any more
    app.rolls.select_next();
    assert_eq!(app.rolls.selected_index(), None);
    app.rolls.select_prev();
    assert_eq!(app.rolls.selected_index(), None);
}

#[test]
fn roll_count_stops_at_three() {
    let mut app = App::new();
    let settle = vec![500, 600, 700, 800, 900];
    app.start_roll_with(1000, &settle);
    assert_eq!(app.roll_count, 1);
    assert_eq!(app.dice_faces[0].rolling_until, Some(1500));
    assert_eq!(app.dice_faces[4].rolling_until, Some(1900));
    assert_eq!(app.rolls.selected_index(), None);
    app.start_roll_with(2000, &settle);
    assert_eq!(app.roll_count, 2);
    assert_eq!(app.rolls.selected_index(), None);
    app.start_roll_with(3000, &settle);
    assert_eq!(app.roll_count, 3);
    // the third roll moves the cursor to the first open category
    assert_eq!(app.rolls.selected_index(), Some(0));
    let before: Vec<Option<u64>> = app.dice_faces.iter().map(|d| d.rolling_until).collect();
    app.start_roll_with(9000, &settle);
    assert_eq!(app.roll_count, 3);
    let after: Vec<Option<u64>> = app.dice_faces.iter().map(|d| d.rolling_until).collect();
    assert_eq!(before, after);
    assert_eq!(app.rolls.selected_index(), Some(0));
    app.start_roll(20000);
    assert_eq!(app.roll_count, 3);
    let after: Vec<Option<u64>> = app.dice_faces.iter().map(|d| d.rolling_until).collect();
    assert_eq!(before, after);
}

#[test]
fn roll_clears_target_and_spares_held_dice() {
    let mut app = App::new();
    app.rolls.select_next();
    app.rolls.select_next();
    app.toggle_hold(1);
    app.start_roll_with(0, &vec![700, 700, 700, 700, 700]);
    assert_eq!(app.rolls.selected_index(), None);
    assert_eq!(app.dice_faces[1].rolling_until, None);
    assert!(app.dice_faces[1].held);
    assert_eq!(app.dice_faces[0].rolling_until, Some(700));
}

#[test]
fn random_roll_settles_within_bounds() {
    let mut seen: Vec<u64> = Vec::new();
    for _ in 0..20 {
        let mut app = App::new();
        app.start_roll(10_000);
        for d in &app.dice_faces {
            let t = d.rolling_until.unwrap();
            assert!((10_500..=11_000).contains(&t));
            seen.push(t);
        }
    }
    assert!(seen.iter().any(|t| *t != seen[0]));
}

#[test]
fn animation_shows_draws_until_settled() {
    let mut app = App::new();
    app.start_roll_with(0, &vec![500, 500, 500, 800, 800]);
    app.update_dice_animation_with(600, &vec![6, 6, 6, 6, 6]);
    let values: Vec<u8> = app.dice_faces.iter().map(|d| d.value).collect();
    assert_eq!(values, vec![1, 2, 3, 6, 6]);
    assert!(app.dice_faces[0].rolling_until.is_none());
    assert_eq!(app.dice_faces[3].rolling_until, Some(800));
    assert!(app.is_rolling());
    app.update_dice_animation_with(800, &vec![2, 2, 2, 2, 2]);
    let values: Vec<u8> = app.dice_faces.iter().map(|d| d.value).collect();
    assert_eq!(values, vec![1, 2, 3, 6, 6]);
    assert!(!app.is_rolling());
}

#[test]
fn random_animation_stays_on_die_faces() {
    let mut app = App::new();
    app.start_roll_with(0, &vec![1000, 1000, 1000, 1000, 1000]);
    for step in 0..50 {
        app.update_dice_animation(step);
        assert!(app.dice_faces.iter().all(|d| (1..=6).contains(&d.value)));
    }
    assert!(app.is_rolling());
}

#[test]
fn tick_waits_short_only_while_rolling() {
    let mut app = App::new();
    assert_eq!(app.tick(0), 30_000);
    app.start_roll_with(0, &vec![500, 500, 500, 500, 500]);
    assert_eq!(app.tick(100), 100);
    assert!(app.is_rolling());
    assert_eq!(app.tick(500), 100);
    assert!(!app.is_rolling());
    assert_eq!(app.tick(600), 30_000);
}

#[test]
fn toggle_hold_flips_and_ignores_bad_index() {
    let mut app = App::new();
    app.toggle_hold(4);
    assert!(app.dice_faces[4].held);
    app.toggle_hold(4);
    assert!(!app.dice_faces[4].held);
    app.toggle_hold(5);
    app.toggle_hold(usize::MAX);
    assert!(app.dice_faces.iter().all(|d| !d.held));
}

#[test]
fn submit_without_target_does_nothing() {
    let mut app = App::new();
    app.toggle_hold(0);
    app.roll_count = 2;
    app.submit_selection();
    assert_eq!(app.roll_count, 2);
    assert!(app.dice_faces[0].held);
    assert!(app.rolls.rolls.iter().all(|r| r.score.is_none()));
}

#[test]
fn submit_resets_turn() {
    let mut app = App::new();
    app.roll_count = 2;
    app.toggle_hold(3);
    app.rolls.select_next();
    app.submit_selection();
    assert_eq!(app.rolls.get(RollType::Ones).score, Some(1));
    assert_eq!(app.roll_count, 0);
    assert!(app.dice_faces.iter().all(|d| !d.held));
    assert_eq!(app.rolls.selected_index(), None);
}

#[test]
fn commands_drive_the_game() {
    let mut app = App::new();
    app.handle_command(Command::ToggleHold(2), 0);
    assert!(app.dice_faces[2].held);
    app.handle_command(Command::Roll, 0);
    assert_eq!(app.roll_count, 1);
    assert!(app.is_rolling());
    // rolls and holds wait until the dice settle
    app.handle_command(Command::Roll, 10);
    app.handle_command(Command::ToggleHold(0), 10);
    assert_eq!(app.roll_count, 1);
    assert!(!app.dice_faces[0].held);
    app.handle_command(Command::SelectNext, 10);
    app.handle_command(Command::SelectNext, 10);
    app.handle_command(Command::SelectPrev, 10);
    assert_eq!(app.rolls.selected_index(), Some(0));
    app.handle_command(Command::Confirm, 10);
    assert!(app.rolls.rolls[0].score.is_some());
    assert_eq!(app.roll_count, 0);
    app.handle_command(Command::Quit, 10);
    assert!(app.exit);
}

#[test]
fn confirm_after_game_over_starts_over() {
    let mut app = App::new();
    for i in 0..13 {
        score_into(&mut app, i, [6, 6, 6, 6, 6]);
    }
    assert!(app.is_game_over());
    app.toggle_hold(0);
    app.handle_command(Command::Confirm, 0);
    assert!(!app.is_game_over());
    assert_eq!(app.total_score(), 0);
    assert!(app.rolls.rolls.iter().all(|r| r.score.is_none()));
    assert!(!app.dice_faces[0].held);
}

#[test]
fn slot_row_reads_ledger_and_hand() {
    let mut app = App::new();
    score_into(&mut app, 5, [6, 6, 6, 1, 2]);
    app.dice_faces = hand([2, 2, 3, 3, 3]);
    target(&mut app, 8);
    let slots = RollSlots::new(&app.rolls, &app.dice_faces, 1);
    assert_eq!(slots.slot(5).value(), SlotValue::Stored(Some(18)));
    assert_eq!(slots.slot(8).roll.roll_type, RollType::FullHouse);
    assert_eq!(slots.slot(8).value(), SlotValue::Preview(25));
    assert_eq!(slots.slot(12).value(), SlotValue::Stored(None));
    assert_eq!(slots.slot(0).roll_count, 1);

    let dice = Dice::new(app.dice_faces.clone());
    assert_eq!(dice.faces.len(), 5);
    let die = Die::new(dice.faces[4]);
    assert_eq!(die.face.value, 3);
}

#[test]
fn two_open_categories_cycle_in_two_steps() {
    let mut app = App::new();
    for i in 0..13 {
        if i != 3 && i != 9 {
            score_into(&mut app, i, [1, 2, 3, 4, 6]);
        }
    }
    app.rolls.select_next();
    assert_eq!(app.rolls.selected_index(), Some(3));
    app.rolls.select_next();
    assert_eq!(app.rolls.selected_index(), Some(9));
    app.rolls.select_next();
    assert_eq!(app.rolls.selected_index(), Some(3));
    // thirteen steps over two open categories end on the other one
    for _ in 0..13 {
        app.rolls.select_next();
    }
    assert_eq!(app.rolls.selected_index(), Some(9));
}

#[test]
fn roll_near_clock_limit_holds_deadline() {
    let mut app = App::new();
    app.start_roll_with(u64::MAX - 600, &vec![500, 600, 700, 800, 900]);
    assert_eq!(app.dice_faces[0].rolling_until, Some(u64::MAX - 100));
    assert_eq!(app.dice_faces[1].rolling_until, Some(u64::MAX));
    assert_eq!(app.dice_faces[4].rolling_until, Some(u64::MAX));
    app.handle_command(Command::Quit, u64::MAX);
    app.start_roll(u64::MAX);
    assert_eq!(app.roll_count, 2);
    assert!(app.dice_faces.iter().all(|d| d.rolling_until == Some(u64::MAX)));
}
