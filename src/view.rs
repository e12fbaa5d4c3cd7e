//! What the screen shows of the game: the data each widget draws from, and
//! the decisions about which number a category slot displays.
use vstd::prelude::*;

use crate::hand::{all_same, valid_hand, DieFace};
use crate::roll::{ledger_wf, stored, AllRolls, Roll, RollType};
use crate::score::{calc_score, is_yahtzee, score_of};

verus! {

/// The row of five dice.
pub struct Dice {
    pub faces: Vec<DieFace>,
}

impl Dice {
    pub fn new(faces: Vec<DieFace>) -> (r: Dice)
        ensures
            r.faces == faces,
    {
        Dice { faces }
    }
}

/// A single die.
pub struct Die {
    pub face: DieFace,
}

impl Die {
    pub fn new(face: DieFace) -> (r: Die)
        ensures
            r.face == face,
    {
        Die { face }
    }
}

/// The slot of one category, with the hand it may preview.
pub struct RollSlot<'a> {
    pub roll: Roll,
    pub faces: &'a Vec<DieFace>,
    pub roll_count: u8,
}

/// The number a category slot shows.
#[derive(Clone, Copy, Debug, PartialEq, Eq, Structural)]
pub enum SlotValue {
    /// What the hand would score in the targeted category.
    Preview(u32),
    /// What a settled five-of-a-kind would add to a Yahtzee already scored.
    BonusPreview(u32),
    /// The stored score, if any.
    Stored(Option<u32>),
}

/// Whether some die of `faces` is still rolling.
pub open spec fn any_rolling(faces: Seq<DieFace>) -> bool {
    exists|i: int| 0 <= i < faces.len() && (#[trigger] faces[i]).rolling_until is Some
}

/// The slot rule: the targeted category previews the hand's score; a scored
/// Yahtzee (50 or more) previews the bonus once a roll has settled on a
/// five-of-a-kind; any other slot shows its stored score.
pub open spec fn slot_value(roll: Roll, faces: Seq<DieFace>, roll_count: int) -> SlotValue {
    if roll.selected {
        SlotValue::Preview(score_of(roll, faces) as u32)
    } else if roll.roll_type == RollType::Yahtzee && stored(roll.score) >= 50 && roll_count > 0
        && !any_rolling(faces) && all_same(faces) {
        SlotValue::BonusPreview(score_of(roll, faces) as u32)
    } else {
        SlotValue::Stored(roll.score)
    }
}

impl<'a> RollSlot<'a> {
    pub fn new(roll: Roll, faces: &'a Vec<DieFace>, roll_count: u8) -> (r: RollSlot<'a>)
        ensures
            r.roll == roll,
            r.faces == faces,
            r.roll_count == roll_count,
    {
        RollSlot { roll, faces, roll_count }
    }

    /// The number this slot shows, as `slot_value` says.
    pub fn value(&self) -> (r: SlotValue)
        requires
            valid_hand(self.faces@),
            self.roll.roll_type == RollType::Yahtzee && all_same(self.faces@) ==> stored(
                self.roll.score,
            ) <= u32::MAX - 100,
        ensures
            r == slot_value(self.roll, self.faces@, self.roll_count as int),
    {
        if self.roll.selected {
            SlotValue::Preview(calc_score(self.roll, self.faces))
        } else if self.roll.roll_type == RollType::Yahtzee && self.roll.score.unwrap_or(0) >= 50
            && self.roll_count > 0 && !faces_rolling(self.faces) && is_yahtzee(self.faces) {
            SlotValue::BonusPreview(calc_score(self.roll, self.faces))
        } else {
            SlotValue::Stored(self.roll.score)
        }
    }
}

fn faces_rolling(faces: &Vec<DieFace>) -> (r: bool)
    ensures
        r == any_rolling(faces@),
{
    let mut i: usize = 0;
    while i < faces.len()
        invariant
            i <= faces@.len(),
            forall|j: int| 0 <= j < i ==> (#[trigger] faces@[j]).rolling_until is None,
        decreases faces@.len() - i,
    {
        if faces[i].is_rolling() {
            return true;
        }
        i = i + 1;
    }
    false
}

/// The two rows of category slots, drawn from the ledger and the hand.
pub struct RollSlots<'a> {
    pub rolls: &'a AllRolls,
    pub faces: &'a Vec<DieFace>,
    pub roll_count: u8,
}

impl<'a> RollSlots<'a> {
    pub fn new(rolls: &'a AllRolls, faces: &'a Vec<DieFace>, roll_count: u8) -> (r: RollSlots<'a>)
        ensures
            r.rolls == rolls,
            r.faces == faces,
            r.roll_count == roll_count,
    {
        RollSlots { rolls, faces, roll_count }
    }

    /// The slot of the category at position `i` of the display order.
    pub fn slot(&self, i: usize) -> (r: RollSlot<'a>)
        requires
            ledger_wf(self.rolls.rolls@),
            i < 13,
        ensures
            r.roll == self.rolls.rolls@[i as int],
            r.faces == self.faces,
            r.roll_count == self.roll_count,
    {
        RollSlot::new(self.rolls.rolls[i], self.faces, self.roll_count)
    }
}

/// The bonus slot: the upper section's progress and the bonus it earns.
pub struct BonusSlot {
    pub progress: u32,
    pub score: u32,
}

impl BonusSlot {
    /// Takes `(progress, bonus)` as `AllRolls::bonus_status` gives them.
    pub fn new(status: (u32, u32)) -> (r: BonusSlot)
        ensures
            r.progress == status.0,
            r.score == status.1,
    {
        BonusSlot { progress: status.0, score: status.1 }
    }
}

/// How many extra five-of-a-kinds a stored Yahtzee score holds: none below
/// 50, else one per full 100 above 50 (capped at 255).
pub open spec fn bonus_count(score: Option<u32>) -> int {
    match score {
        Some(s) if s >= 50 => if (s - 50) / 100 > 255 {
            255
        } else {
            (s - 50) / 100
        },
        _ => 0,
    }
}

pub fn yahtzee_bonus_count_from_score(score: Option<u32>) -> (r: u8)
    ensures
        r == bonus_count(score),
{
    match score {
        Some(s) if s >= 50 => {
            let c = (s - 50) / 100;
            if c > 255 {
                255
            } else {
                c as u8
            }
        },
        _ => 0,
    }
}

} // verus!
