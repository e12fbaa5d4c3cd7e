use yahtzee::hand::DieFace;
use yahtzee::roll::{Roll, RollType};
use yahtzee::score::{calc_score, calc_score_for_straight, is_yahtzee};
use yahtzee::view::{yahtzee_bonus_count_from_score, BonusSlot, RollSlot, SlotValue};

fn hand(values: [u8; 5]) -> Vec<DieFace> {
    values.iter().map(|v| DieFace::new(*v)).collect()
}

fn score(roll_type: RollType, values: [u8; 5]) -> u32 {
    calc_score(Roll::new(roll_type), &hand(values))
}

#[test]
fn test_small_straight() {
    let dice = vec![
        DieFace::new(1),
        DieFace::new(2),
        DieFace::new(3),
        DieFace::new(4),
        DieFace::new(6),
    ];
    assert_eq!(calc_score_for_straight(4, &dice), 30);
}

#[test]
fn test_small_straight_unordered() {
    let dice = vec![
        DieFace::new(3),
        DieFace::new(4),
        DieFace::new(5),
        DieFace::new(6),
        DieFace::new(1),
    ];
    assert_eq!(calc_score_for_straight(4, &dice), 30);
}

#[test]
fn test_large_straight_low() {
    let dice = vec![
        DieFace::new(1),
        DieFace::new(2),
        DieFace::new(3),
        DieFace::new(4),
        DieFace::new(5),
    ];
    assert_eq!(calc_score_for_straight(5, &dice), 40);
}

#[test]
fn test_large_straight_high() {
    let dice = vec![
        DieFace::new(2),
        DieFace::new(3),
        DieFace::new(4),
        DieFace::new(5),
        DieFace::new(6),
    ];
    assert_eq!(calc_score_for_straight(5, &dice), 40);
}

#[test]
fn test_no_straight() {
    let dice = vec![
        DieFace::new(1),
        DieFace::new(3),
        DieFace::new(3),
        DieFace::new(4),
        DieFace::new(6),
    ];
    assert_eq!(calc_score_for_straight(4, &dice), 0);
    assert_eq!(calc_score_for_straight(5, &dice), 0);
}

#[test]
fn test_straight_with_duplicates() {
    let dice = vec![
        DieFace::new(1),
        DieFace::new(2),
        DieFace::new(2),
        DieFace::new(3),
        DieFace::new(4),
    ];
    assert_eq!(calc_score_for_straight(4, &dice), 30);
}

#[test]
fn straight_categories_through_calc_score() {
    assert_eq!(score(RollType::SmallStraight, [1, 2, 3, 4, 6]), 30);
    assert_eq!(score(RollType::SmallStraight, [3, 4, 5, 6, 1]), 30);
    assert_eq!(score(RollType::LargeStraight, [1, 2, 3, 4, 5]), 40);
    assert_eq!(score(RollType::LargeStraight, [2, 3, 4, 5, 6]), 40);
    assert_eq!(score(RollType::SmallStraight, [1, 3, 3, 4, 6]), 0);
    assert_eq!(score(RollType::LargeStraight, [1, 3, 3, 4, 6]), 0);
    // a large straight also holds a small one
    assert_eq!(score(RollType::SmallStraight, [5, 4, 3, 2, 1]), 30);
    assert_eq!(score(RollType::LargeStraight, [1, 2, 3, 4, 4]), 0);
}

#[test]
fn straight_of_other_lengths_scores_nothing() {
    let dice = hand([1, 2, 3, 4, 5]);
    assert_eq!(calc_score_for_straight(3, &dice), 0);
    assert_eq!(calc_score_for_straight(6, &dice), 0);
    assert_eq!(calc_score_for_straight(0, &dice), 0);
}

#[test]
fn number_categories_sum_matching_dice() {
    assert_eq!(score(RollType::Fours, [4, 4, 1, 4, 2]), 12);
    assert_eq!(score(RollType::Ones, [1, 1, 1, 1, 1]), 5);
    assert_eq!(score(RollType::Sixes, [1, 2, 3, 4, 5]), 0);
    assert_eq!(score(RollType::Twos, [2, 3, 2, 6, 6]), 4);
}

#[test]
fn chance_is_sum_of_dice() {
    assert_eq!(score(RollType::Chance, [2, 3, 4, 5, 6]), 20);
    assert_eq!(score(RollType::Chance, [1, 1, 1, 1, 1]), 5);
    assert_eq!(score(RollType::Chance, [6, 6, 6, 6, 6]), 30);
}

#[test]
fn kinds_sum_all_dice_when_met() {
    assert_eq!(score(RollType::ThreeOfAKind, [3, 3, 3, 1, 2]), 12);
    assert_eq!(score(RollType::FourOfAKind, [3, 3, 3, 1, 2]), 0);
    assert_eq!(score(RollType::FourOfAKind, [6, 6, 6, 6, 1]), 25);
    assert_eq!(score(RollType::ThreeOfAKind, [6, 6, 6, 6, 1]), 25);
    assert_eq!(score(RollType::ThreeOfAKind, [1, 2, 2, 5, 5]), 0);
    assert_eq!(score(RollType::FourOfAKind, [4, 4, 4, 4, 4]), 20);
}

#[test]
fn full_house_needs_exactly_two_and_three() {
    assert_eq!(score(RollType::FullHouse, [2, 2, 3, 3, 3]), 25);
    assert_eq!(score(RollType::FullHouse, [6, 1, 6, 1, 1]), 25);
    assert_eq!(score(RollType::FullHouse, [5, 5, 5, 5, 5]), 0);
    assert_eq!(score(RollType::FullHouse, [1, 1, 2, 2, 3]), 0);
    assert_eq!(score(RollType::FullHouse, [4, 4, 4, 4, 2]), 0);
}

#[test]
fn yahtzee_stacks_bonus() {
    let fives = hand([5, 5, 5, 5, 5]);
    let mut roll = Roll::new(RollType::Yahtzee);
    let first = calc_score(roll, &fives);
    assert_eq!(first, 50);
    roll.score = Some(first);
    let second = calc_score(roll, &fives);
    assert_eq!(second, 150);
    roll.score = Some(second);
    assert_eq!(calc_score(roll, &fives), 250);
}

#[test]
fn yahtzee_without_five_of_a_kind_keeps_stored() {
    let mixed = hand([5, 5, 5, 5, 4]);
    let mut roll = Roll::new(RollType::Yahtzee);
    assert_eq!(calc_score(roll, &mixed), 0);
    roll.score = Some(150);
    assert_eq!(calc_score(roll, &mixed), 150);
    roll.score = Some(0);
    assert_eq!(calc_score(roll, &hand([2, 2, 2, 2, 2])), 50);
}

#[test]
fn five_of_a_kind_detection() {
    assert!(is_yahtzee(&hand([3, 3, 3, 3, 3])));
    assert!(!is_yahtzee(&hand([3, 3, 3, 3, 2])));
    assert!(!is_yahtzee(&hand([1, 2, 3, 4, 5])));
}

#[test]
fn bonus_count_from_stored_yahtzee() {
    assert_eq!(yahtzee_bonus_count_from_score(None), 0);
    assert_eq!(yahtzee_bonus_count_from_score(Some(0)), 0);
    assert_eq!(yahtzee_bonus_count_from_score(Some(50)), 0);
    assert_eq!(yahtzee_bonus_count_from_score(Some(150)), 1);
    assert_eq!(yahtzee_bonus_count_from_score(Some(750)), 7);
    assert_eq!(yahtzee_bonus_count_from_score(Some(u32::MAX)), 255);
}

#[test]
fn slot_previews_target_and_bonus() {
    let fives = hand([5, 5, 5, 5, 5]);
    let mut target = Roll::new(RollType::Fives);
    target.selected = true;
    assert_eq!(RollSlot::new(target, &fives, 1).value(), SlotValue::Preview(25));

    let mut yahtzee = Roll::new(RollType::Yahtzee);
    yahtzee.score = Some(50);
    assert_eq!(RollSlot::new(yahtzee, &fives, 1).value(), SlotValue::BonusPreview(150));
    assert_eq!(RollSlot::new(yahtzee, &fives, 0).value(), SlotValue::Stored(Some(50)));

    let mut rolling = fives.clone();
    rolling[2].rolling_until = Some(10);
    assert_eq!(RollSlot::new(yahtzee, &rolling, 1).value(), SlotValue::Stored(Some(50)));

    let chance = Roll::new(RollType::Chance);
    assert_eq!(RollSlot::new(chance, &fives, 2).value(), SlotValue::Stored(None));
}

#[test]
fn bonus_slot_takes_status() {
    let slot = BonusSlot::new((63, 35));
    assert_eq!(slot.progress, 63);
    assert_eq!(slot.score, 35);
}

#[test]
fn reordered_hand_scores_the_same() {
    let kinds = [
        RollType::Ones,
        RollType::Twos,
        RollType::Threes,
        RollType::Fours,
        RollType::Fives,
        RollType::Sixes,
        RollType::ThreeOfAKind,
        RollType::FourOfAKind,
        RollType::FullHouse,
        RollType::SmallStraight,
        RollType::LargeStraight,
        RollType::Chance,
        RollType::Yahtzee,
    ];
    let pairs: [([u8; 5], [u8; 5]); 3] = [
        ([2, 2, 3, 3, 3], [3, 2, 3, 2, 3]),
        ([3, 4, 5, 6, 1], [1, 6, 4, 3, 5]),
        ([4, 4, 4, 4, 2], [2, 4, 4, 4, 4]),
    ];
    for (a, b) in pairs.iter() {
        let mut held = hand(*b);
        held[0].held = true;
        held[3].rolling_until = Some(7);
        for kind in kinds.iter() {
            assert_eq!(score(*kind, *a), calc_score(Roll::new(*kind), &held));
        }
    }
}
