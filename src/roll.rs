//! The thirteen scoring categories and the ledger that records their scores.
use vstd::prelude::*;

use crate::hand::{valid_hand, DieFace};
use crate::score::{calc_score, score_of, yahtzee_score};

verus! {

/// Position of the Yahtzee category on the ledger.
pub const YAHTZEE_INDEX: usize = 12;

/// The scoring categories, in their fixed display order.
#[derive(Clone, Copy, Debug, PartialEq, Eq, Structural)]
pub enum RollType {
    Ones,
    Twos,
    Threes,
    Fours,
    Fives,
    Sixes,
    ThreeOfAKind,
    FourOfAKind,
    FullHouse,
    SmallStraight,
    LargeStraight,
    Chance,
    Yahtzee,
}

/// One entry of the ledger: its category, the score locked in (if any), and
/// whether the selection cursor is on it.
#[derive(Clone, Copy, Debug)]
pub struct Roll {
    pub roll_type: RollType,
    pub score: Option<u32>,
    pub selected: bool,
}

/// A stored score, with 0 for a category not scored yet.
pub open spec fn stored(score: Option<u32>) -> int {
    match score {
        Some(s) => s as int,
        None => 0,
    }
}

impl Roll {
    pub fn new(roll_type: RollType) -> (r: Roll)
        ensures
            r.roll_type == roll_type,
            r.score is None,
            !r.selected,
    {
        Roll { roll_type, score: None, selected: false }
    }
}

/// The category at position `i` of the fixed display order.
pub open spec fn category_at(i: int) -> RollType {
    if i == 0 {
        RollType::Ones
    } else if i == 1 {
        RollType::Twos
    } else if i == 2 {
        RollType::Threes
    } else if i == 3 {
        RollType::Fours
    } else if i == 4 {
        RollType::Fives
    } else if i == 5 {
        RollType::Sixes
    } else if i == 6 {
        RollType::ThreeOfAKind
    } else if i == 7 {
        RollType::FourOfAKind
    } else if i == 8 {
        RollType::FullHouse
    } else if i == 9 {
        RollType::SmallStraight
    } else if i == 10 {
        RollType::LargeStraight
    } else if i == 11 {
        RollType::Chance
    } else {
        RollType::Yahtzee
    }
}

/// The position of `t` in the fixed display order.
pub open spec fn ordinal(t: RollType) -> int {
    match t {
        RollType::Ones => 0,
        RollType::Twos => 1,
        RollType::Threes => 2,
        RollType::Fours => 3,
        RollType::Fives => 4,
        RollType::Sixes => 5,
        RollType::ThreeOfAKind => 6,
        RollType::FourOfAKind => 7,
        RollType::FullHouse => 8,
        RollType::SmallStraight => 9,
        RollType::LargeStraight => 10,
        RollType::Chance => 11,
        RollType::Yahtzee => 12,
    }
}

/// How many entries of `s` hold a score.
pub open spec fn scored_count(s: Seq<Roll>) -> nat
    decreases s.len(),
{
    if s.len() == 0 {
        0
    } else {
        scored_count(s.drop_last()) + if s.last().score is Some {
            1nat
        } else {
            0nat
        }
    }
}

/// The sum of the stored scores of `s`, with 0 for an entry not scored.
pub open spec fn sum_stored(s: Seq<Roll>) -> int
    decreases s.len(),
{
    if s.len() == 0 {
        0
    } else {
        sum_stored(s.drop_last()) + stored(s.last().score)
    }
}

/// The upper section's progress: the stored scores of Ones to Sixes.
pub open spec fn upper_sum(s: Seq<Roll>) -> int {
    stored(s[0].score) + stored(s[1].score) + stored(s[2].score) + stored(s[3].score)
        + stored(s[4].score) + stored(s[5].score)
}

/// The upper-section bonus for a given progress.
pub open spec fn bonus_for(progress: int) -> int {
    if progress >= 63 {
        35
    } else {
        0
    }
}

/// A ledger holds the thirteen categories in display order; at most one is
/// targeted, and only an open one; no score exceeds what the game can give
/// (Yahtzee gains at most 100 per scored category).
pub open spec fn ledger_wf(s: Seq<Roll>) -> bool {
    &&& s.len() == 13
    &&& forall|i: int| 0 <= i < 13 ==> #[trigger] s[i].roll_type == category_at(i)
    &&& forall|i: int, j: int|
        0 <= i < 13 && 0 <= j < 13 && #[trigger] s[i].selected && #[trigger] s[j].selected
            ==> i == j
    &&& forall|i: int| 0 <= i < 13 && #[trigger] s[i].selected ==> s[i].score is None
    &&& forall|i: int| 0 <= i < 12 ==> #[trigger] stored(s[i].score) <= 50
    &&& stored(s[12].score) <= 100 * scored_count(s)
}

/// The fresh ledger: every category open, none targeted.
pub open spec fn fresh_ledger(s: Seq<Roll>) -> bool {
    &&& s.len() == 13
    &&& forall|i: int|
        0 <= i < 13 ==> #[trigger] s[i] == Roll {
            roll_type: category_at(i),
            score: None,
            selected: false,
        }
}

/// The position of the targeted entry, if any.
pub open spec fn cursor(s: Seq<Roll>) -> Option<int> {
    if exists|i: int| 0 <= i < s.len() && #[trigger] s[i].selected {
        Some(choose|i: int| 0 <= i < s.len() && #[trigger] s[i].selected)
    } else {
        None
    }
}

/// `s` with the target moved to `target` (or cleared), scores untouched.
pub open spec fn retarget(s: Seq<Roll>, target: Option<int>) -> Seq<Roll> {
    Seq::new(
        s.len(),
        |i: int| Roll { roll_type: s[i].roll_type, score: s[i].score, selected: target == Some(i) },
    )
}

/// The first open entry met when stepping forward (with wraparound) from
/// `start`, having already passed `k` entries.
pub open spec fn next_open(s: Seq<Roll>, start: int, k: nat) -> Option<int>
    decreases 13 - k,
{
    if k >= 13 {
        None
    } else if s[(start + k) % 13].score is None {
        Some((start + k) % 13)
    } else {
        next_open(s, start, k + 1)
    }
}

/// The entry `k` steps backward (with wraparound) from `start`.
pub open spec fn back_from(start: int, k: int) -> int {
    if k <= start {
        start - k
    } else {
        13 - (k - start)
    }
}

/// The first open entry met when stepping backward from `start`, having
/// already passed `k` entries.
pub open spec fn prev_open(s: Seq<Roll>, start: int, k: nat) -> Option<int>
    decreases 13 - k,
{
    if k >= 13 {
        None
    } else if s[back_from(start, k as int)].score is None {
        Some(back_from(start, k as int))
    } else {
        prev_open(s, start, k + 1)
    }
}

/// Where `select_next` puts the cursor: the first open entry after the
/// current target, or from the first entry when nothing is targeted.
pub open spec fn next_target(s: Seq<Roll>) -> Option<int> {
    let start = match cursor(s) {
        Some(i) => (i + 1) % 13,
        None => 0,
    };
    next_open(s, start, 0)
}

/// Where `select_prev` puts the cursor: the first open entry before the
/// current target, or from the first entry backward when nothing is targeted.
pub open spec fn prev_target(s: Seq<Roll>) -> Option<int> {
    let start = match cursor(s) {
        Some(i) => if i == 0 {
            12
        } else {
            i - 1
        },
        None => 0,
    };
    prev_open(s, start, 0)
}

/// `s` with the score of entry `i` replaced.
pub open spec fn with_score(s: Seq<Roll>, i: int, score: int) -> Seq<Roll> {
    s.update(
        i,
        Roll { roll_type: s[i].roll_type, score: Some(score as u32), selected: s[i].selected },
    )
}

/// The ledger after committing the hand `faces` to the targeted category:
/// a Yahtzee category that already holds a qualifying score (50 or more) is
/// scored again first (this is how extra five-of-a-kinds add up), then the
/// target is scored, then targeting is cleared. Without a target nothing
/// changes.
pub open spec fn committed(s: Seq<Roll>, faces: Seq<DieFace>) -> Seq<Roll> {
    match cursor(s) {
        Some(k) => {
            let s1 = if stored(s[12].score) >= 50 {
                with_score(s, 12, yahtzee_score(s[12].score, faces))
            } else {
                s
            };
            retarget(with_score(s1, k, score_of(s1[k], faces)), None)
        },
        None => s,
    }
}

pub proof fn lemma_scored_count_same(a: Seq<Roll>, b: Seq<Roll>)
    requires
        a.len() == b.len(),
        forall|i: int| 0 <= i < a.len() ==> (#[trigger] a[i].score is Some <==> b[i].score is Some),
    ensures
        scored_count(a) == scored_count(b),
    decreases a.len(),
{
    if a.len() > 0 {
        let (pa, pb) = (a.drop_last(), b.drop_last());
        assert forall|i: int| 0 <= i < pa.len() implies (#[trigger] pa[i].score is Some
            <==> pb[i].score is Some) by {
            assert(pa[i] == a[i] && pb[i] == b[i]);
        }
        lemma_scored_count_same(pa, pb);
    }
}

pub proof fn lemma_scored_count_fill(s: Seq<Roll>, i: int, r: Roll)
    requires
        0 <= i < s.len(),
        s[i].score is None,
        r.score is Some,
    ensures
        scored_count(s.update(i, r)) == scored_count(s) + 1,
    decreases s.len(),
{
    let u = s.update(i, r);
    if i == s.len() - 1 {
        assert(u.drop_last() =~= s.drop_last());
    } else {
        assert(u.drop_last() =~= s.drop_last().update(i, r));
        lemma_scored_count_fill(s.drop_last(), i, r);
    }
}

pub proof fn lemma_scored_count_bound(s: Seq<Roll>)
    ensures
        scored_count(s) <= s.len(),
    decreases s.len(),
{
    if s.len() > 0 {
        lemma_scored_count_bound(s.drop_last());
    }
}

proof fn lemma_retarget_wf(s: Seq<Roll>, target: Option<int>)
    requires
        ledger_wf(s),
        match target {
            Some(j) => 0 <= j < 13 && s[j].score is None,
            None => true,
        },
    ensures
        ledger_wf(retarget(s, target)),
        cursor(retarget(s, target)) == target,
{
    let t = retarget(s, target);
    lemma_scored_count_same(s, t);
    assert(stored(t[12].score) == stored(s[12].score));
    assert forall|i: int| 0 <= i < 12 implies #[trigger] stored(t[i].score) <= 50 by {
        assert(stored(s[i].score) <= 50);
    }
    if let Some(j) = target {
        assert(t[j].selected);
    }
}

/// The scoring ledger: the thirteen categories in display order.
pub struct AllRolls {
    pub rolls: Vec<Roll>,
}

impl AllRolls {
    pub open spec fn wf(&self) -> bool {
        ledger_wf(self.rolls@)
    }

    /// A ledger with every category open and none targeted.
    pub fn new() -> (r: AllRolls)
        ensures
            r.wf(),
            fresh_ledger(r.rolls@),
    {
        let mut rolls: Vec<Roll> = Vec::new();
        rolls.push(Roll::new(RollType::Ones));
        rolls.push(Roll::new(RollType::Twos));
        rolls.push(Roll::new(RollType::Threes));
        rolls.push(Roll::new(RollType::Fours));
        rolls.push(Roll::new(RollType::Fives));
        rolls.push(Roll::new(RollType::Sixes));
        rolls.push(Roll::new(RollType::ThreeOfAKind));
        rolls.push(Roll::new(RollType::FourOfAKind));
        rolls.push(Roll::new(RollType::FullHouse));
        rolls.push(Roll::new(RollType::SmallStraight));
        rolls.push(Roll::new(RollType::LargeStraight));
        rolls.push(Roll::new(RollType::Chance));
        rolls.push(Roll::new(RollType::Yahtzee));
        let r = AllRolls { rolls };
        proof {
            let e = Seq::new(
                13,
                |i: int| Roll { roll_type: category_at(i), score: None, selected: false },
            );
            assert(r.rolls@ =~= e);
            lemma_none_count(e);
        }
        r
    }

    /// The position of the targeted category, if any.
    pub fn selected_index(&self) -> (r: Option<usize>)
        requires
            self.wf(),
        ensures
            r matches Some(i) ==> cursor(self.rolls@) == Some(i as int),
            r is None ==> cursor(self.rolls@) is None,
    {
        let mut i: usize = 0;
        while i < self.rolls.len()
            invariant
                self.wf(),
                i <= 13,
                forall|j: int| 0 <= j < i ==> !(#[trigger] self.rolls@[j].selected),
            decreases 13 - i,
        {
            if self.rolls[i].selected {
                return Some(i);
            }
            i = i + 1;
        }
        None
    }

    /// The targeted category, if any.
    pub fn selected(&mut self) -> (r: Option<&Roll>)
        requires
            old(self).wf(),
        ensures
            *final(self) == *old(self),
            r matches Some(x) ==> cursor(old(self).rolls@) matches Some(i) && *x == old(
                self,
            ).rolls@[i],
            r is None ==> cursor(old(self).rolls@) is None,
    {
        match self.selected_index() {
            Some(i) => Some(&self.rolls[i]),
            None => None,
        }
    }

    /// Clears the target.
    pub fn clear_selection(&mut self)
        requires
            old(self).wf(),
        ensures
            final(self).wf(),
            final(self).rolls@ == retarget(old(self).rolls@, None),
    {
        let ghost s = self.rolls@;
        let mut i: usize = 0;
        while i < self.rolls.len()
            invariant
                ledger_wf(s),
                self.rolls@.len() == 13,
                i <= 13,
                forall|j: int|
                    0 <= j < 13 ==> #[trigger] self.rolls@[j] == if j < i {
                        retarget(s, None)[j]
                    } else {
                        s[j]
                    },
            decreases 13 - i,
        {
            let mut r = self.rolls[i];
            r.selected = false;
            self.rolls.set(i, r);
            i = i + 1;
        }
        proof {
            assert(self.rolls@ =~= retarget(s, None));
            lemma_retarget_wf(s, None);
        }
    }

    /// The upper section's progress (the scores of Ones to Sixes, 0 where
    /// unset) and the bonus it earns: 35 from 63 on, else 0.
    pub fn bonus_status(&self) -> (r: (u32, u32))
        requires
            self.wf(),
        ensures
            r.0 == upper_sum(self.rolls@),
            r.1 == bonus_for(r.0 as int),
    {
        assert(stored(self.rolls@[0].score) <= 50 && stored(self.rolls@[1].score) <= 50);
        assert(stored(self.rolls@[2].score) <= 50 && stored(self.rolls@[3].score) <= 50);
        assert(stored(self.rolls@[4].score) <= 50 && stored(self.rolls@[5].score) <= 50);
        let progress = self.rolls[0].score.unwrap_or(0) + self.rolls[1].score.unwrap_or(0)
            + self.rolls[2].score.unwrap_or(0) + self.rolls[3].score.unwrap_or(0)
            + self.rolls[4].score.unwrap_or(0) + self.rolls[5].score.unwrap_or(0);
        (progress, if progress >= 63 {
            35
        } else {
            0
        })
    }

    /// The entry of category `roll_type`.
    pub fn get(&self, roll_type: RollType) -> (r: Roll)
        requires
            self.wf(),
        ensures
            r == self.rolls@[ordinal(roll_type)],
    {
        self.rolls[index_of(roll_type)]
    }

    /// Whether every category holds a score.
    pub fn all_scored(&self) -> (r: bool)
        requires
            self.wf(),
        ensures
            r <==> forall|i: int| 0 <= i < 13 ==> (#[trigger] self.rolls@[i]).score is Some,
    {
        let mut i: usize = 0;
        while i < self.rolls.len()
            invariant
                self.wf(),
                i <= 13,
                forall|j: int| 0 <= j < i ==> (#[trigger] self.rolls@[j]).score is Some,
            decreases 13 - i,
        {
            if self.rolls[i].score.is_none() {
                return false;
            }
            i = i + 1;
        }
        true
    }

    /// The sum of all stored scores, 0 for a category not scored.
    pub fn score_sum(&self) -> (r: u32)
        requires
            self.wf(),
        ensures
            r == sum_stored(self.rolls@),
            r <= 1300 * 13,
    {
        let ghost s = self.rolls@;
        proof {
            lemma_scored_count_bound(s);
        }
        let mut total: u32 = 0;
        let mut i: usize = 0;
        while i < self.rolls.len()
            invariant
                self.wf(),
                s == self.rolls@,
                scored_count(s) <= 13,
                i <= 13,
                total == sum_stored(s.subrange(0, i as int)),
                total <= 1300 * i,
            decreases 13 - i,
        {
            assert(stored(s[i as int].score) <= 1300) by {
                if i < 12 {
                    assert(stored(s[i as int].score) <= 50);
                }
            }
            assert(s.subrange(0, i + 1).drop_last() =~= s.subrange(0, i as int));
            total = total + self.rolls[i].score.unwrap_or(0);
            i = i + 1;
        }
        assert(s.subrange(0, 13) =~= s);
        total
    }

    /// Commits the hand `faces` to the targeted category, as `committed`
    /// describes; does nothing when no category is targeted.
    pub fn commit_selection(&mut self, faces: &Vec<DieFace>)
        requires
            old(self).wf(),
            valid_hand(faces@),
        ensures
            final(self).wf(),
            final(self).rolls@ == committed(old(self).rolls@, faces@),
    {
        let ghost s = self.rolls@;
        proof {
            lemma_scored_count_bound(s);
        }
        match self.selected_index() {
            Some(k) => {
                if self.rolls[YAHTZEE_INDEX].score.unwrap_or(0) >= 50 {
                    let mut y = self.rolls[YAHTZEE_INDEX];
                    let sc = calc_score(y, faces);
                    y.score = Some(sc);
                    self.rolls.set(YAHTZEE_INDEX, y);
                }
                let ghost s1 = self.rolls@;
                assert(s[k as int].selected);
                assert(forall|j: int| 0 <= j < 13 && j != k ==> !(#[trigger] s1[j].selected));
                assert(s1 == if stored(s[12].score) >= 50 {
                    with_score(s, 12, yahtzee_score(s[12].score, faces@))
                } else {
                    s
                });
                let mut r = self.rolls[k];
                assert(r.roll_type == RollType::Yahtzee ==> s[12].score is None);
                let sc = calc_score(r, faces);
                r.score = Some(sc);
                r.selected = false;
                self.rolls.set(k, r);
                proof {
                    let s2 = with_score(s1, k as int, score_of(s1[k as int], faces@));
                    assert(self.rolls@[k as int] == retarget(s2, None)[k as int]);
                    assert(forall|j: int| 0 <= j < 13 && j != k ==> self.rolls@[j] == s1[j]);
                    assert forall|j: int| 0 <= j < 13 && j != k implies retarget(s2, None)[j]
                        == s1[j] by {
                        assert(!s1[j].selected);
                    }
                    assert(self.rolls@ =~= retarget(s2, None));
                    lemma_scored_count_same(s, s1);
                    lemma_scored_count_fill(s1, k as int, s2[k as int]);
                    assert(s2 == s1.update(k as int, s2[k as int]));
                    lemma_scored_count_same(s2, self.rolls@);
                    assert forall|i: int| 0 <= i < 12 implies #[trigger] stored(
                        self.rolls@[i].score,
                    ) <= 50 by {
                        assert(stored(s[i].score) <= 50);
                    }
                }
            },
            None => {},
        }
    }

    /// Moves the target forward to the next open category, wrapping around;
    /// with nothing targeted the search starts at the first category. With
    /// every category scored, nothing ends up targeted.
    pub fn select_next(&mut self)
        requires
            old(self).wf(),
        ensures
            final(self).wf(),
            final(self).rolls@ == retarget(old(self).rolls@, next_target(old(self).rolls@)),
    {
        let ghost s = self.rolls@;
        let n = self.rolls.len();
        let current_idx = self.selected_index();
        let start_idx = match current_idx {
            Some(i) => (i + 1) % n,
            None => 0,
        };
        self.clear_selection();
        let mut i: usize = 0;
        while i < n
            invariant_except_break
                n == 13,
                start_idx < 13,
                ledger_wf(s),
                self.rolls@ == retarget(s, None),
                i <= 13,
                next_open(s, start_idx as int, 0) == next_open(s, start_idx as int, i as nat),
            ensures
                self.rolls@ == retarget(s, next_open(s, start_idx as int, 0)),
            decreases 13 - i,
        {
            let idx = (start_idx + i) % n;
            if self.rolls[idx].score.is_none() {
                let mut r = self.rolls[idx];
                r.selected = true;
                self.rolls.set(idx, r);
                assert(self.rolls@ =~= retarget(s, Some(idx as int)));
                break;
            }
            i = i + 1;
        }
        proof {
            let t = next_open(s, start_idx as int, 0);
            lemma_next_open_open(s, start_idx as int, 0);
            lemma_retarget_wf(s, t);
        }
    }

    /// Moves the target backward to the previous open category, wrapping
    /// around; with nothing targeted the search starts at the first category
    /// and goes backward from there.
    pub fn select_prev(&mut self)
        requires
            old(self).wf(),
        ensures
            final(self).wf(),
            final(self).rolls@ == retarget(old(self).rolls@, prev_target(old(self).rolls@)),
    {
        let ghost s = self.rolls@;
        let n = self.rolls.len();
        let current_idx = self.selected_index();
        let start_idx = match current_idx {
            Some(0) => n - 1,
            Some(i) => i - 1,
            None => 0,
        };
        self.clear_selection();
        let mut i: usize = 0;
        while i < n
            invariant_except_break
                n == 13,
                start_idx < 13,
                ledger_wf(s),
                self.rolls@ == retarget(s, None),
                i <= 13,
                prev_open(s, start_idx as int, 0) == prev_open(s, start_idx as int, i as nat),
            ensures
                self.rolls@ == retarget(s, prev_open(s, start_idx as int, 0)),
            decreases 13 - i,
        {
            let idx = if i <= start_idx {
                start_idx - i
            } else {
                n - (i - start_idx)
            };
            if self.rolls[idx].score.is_none() {
                let mut r = self.rolls[idx];
                r.selected = true;
                self.rolls.set(idx, r);
                assert(self.rolls@ =~= retarget(s, Some(idx as int)));
                break;
            }
            i = i + 1;
        }
        proof {
            let t = prev_open(s, start_idx as int, 0);
            lemma_prev_open_open(s, start_idx as int, 0);
            lemma_retarget_wf(s, t);
        }
    }
}

/// The position of `t` in the display order.
pub fn index_of(t: RollType) -> (i: usize)
    ensures
        i == ordinal(t),
{
    match t {
        RollType::Ones => 0,
        RollType::Twos => 1,
        RollType::Threes => 2,
        RollType::Fours => 3,
        RollType::Fives => 4,
        RollType::Sixes => 5,
        RollType::ThreeOfAKind => 6,
        RollType::FourOfAKind => 7,
        RollType::FullHouse => 8,
        RollType::SmallStraight => 9,
        RollType::LargeStraight => 10,
        RollType::Chance => 11,
        RollType::Yahtzee => 12,
    }
}

/// The forward search lands only on an open entry.
pub proof fn lemma_next_open_open(s: Seq<Roll>, start: int, k: nat)
    requires
        s.len() == 13,
        0 <= start,
    ensures
        next_open(s, start, k) matches Some(j) ==> 0 <= j < 13 && s[j].score is None,
    decreases 13 - k,
{
    if k < 13 && s[(start + k) % 13].score is Some {
        lemma_next_open_open(s, start, k + 1);
    }
}

/// The backward search lands only on an open entry.
pub proof fn lemma_prev_open_open(s: Seq<Roll>, start: int, k: nat)
    requires
        s.len() == 13,
        0 <= start < 13,
    ensures
        prev_open(s, start, k) matches Some(j) ==> 0 <= j < 13 && s[j].score is None,
    decreases 13 - k,
{
    if k < 13 && s[back_from(start, k as int)].score is Some {
        lemma_prev_open_open(s, start, k + 1);
    }
}

/// Committing a hand changes no score already locked in, except that of
/// the Yahtzee category; a score once set stays set.
pub proof fn lemma_commit_keeps_scores(s: Seq<Roll>, faces: Seq<DieFace>)
    requires
        ledger_wf(s),
    ensures
        committed(s, faces).len() == 13,
        forall|i: int|
            0 <= i < 12 && (#[trigger] s[i]).score is Some ==> committed(s, faces)[i].score
                == s[i].score,
        forall|i: int|
            0 <= i < 13 && (#[trigger] s[i]).score is Some ==> committed(s, faces)[i].score is Some,
{
    if let Some(k) = cursor(s) {
        assert(s[k].selected);
    }
}

/// The ledger after one `select_next`.
pub open spec fn step_next(s: Seq<Roll>) -> Seq<Roll> {
    retarget(s, next_target(s))
}

/// The ledger after `n` calls of `select_next`.
pub open spec fn steps_next(s: Seq<Roll>, n: nat) -> Seq<Roll>
    decreases n,
{
    if n == 0 {
        s
    } else {
        step_next(steps_next(s, (n - 1) as nat))
    }
}

/// Moving the cursor forward or backward never targets a category that
/// already holds a score.
pub proof fn lemma_selection_targets_open(s: Seq<Roll>)
    requires
        ledger_wf(s),
    ensures
        next_target(s) matches Some(j) ==> 0 <= j < 13 && s[j].score is None,
        prev_target(s) matches Some(j) ==> 0 <= j < 13 && s[j].score is None,
{
    if let Some(i) = cursor(s) {
        assert(0 <= i < 13);
        lemma_next_open_open(s, (i + 1) % 13, 0);
        lemma_prev_open_open(s, if i == 0 { 12 } else { i - 1 }, 0);
    } else {
        lemma_next_open_open(s, 0, 0);
        lemma_prev_open_open(s, 0, 0);
    }
}

/// Retargeting twice is retargeting once, to the second target.
proof fn lemma_retarget_twice(s: Seq<Roll>, a: Option<int>, b: Option<int>)
    ensures
        retarget(retarget(s, a), b) == retarget(s, b),
{
    assert(retarget(retarget(s, a), b) =~= retarget(s, b));
}

/// A well-formed ledger is its own retargeting to its cursor.
proof fn lemma_retarget_cursor(s: Seq<Roll>, c: int)
    requires
        ledger_wf(s),
        0 <= c < 13,
        s[c].selected,
    ensures
        retarget(s, Some(c)) == s,
{
    assert forall|i: int| 0 <= i < 13 implies #[trigger] retarget(s, Some(c))[i] == s[i] by {
        if s[i].selected {
            assert(i == c);
        }
    }
    assert(retarget(s, Some(c)) =~= s);
}

/// With `c` the only open category, the forward search from anywhere finds it.
proof fn lemma_next_open_finds(s: Seq<Roll>, start: int, k: nat, c: int)
    requires
        s.len() == 13,
        0 <= start < 13,
        0 <= c < 13,
        s[c].score is None,
        forall|i: int| 0 <= i < 13 && i != c ==> (#[trigger] s[i]).score is Some,
        k <= if c >= start {
            c - start
        } else {
            c - start + 13
        },
    ensures
        next_open(s, start, k) == Some(c),
    decreases 13 - k,
{
    let d = if c >= start {
        c - start
    } else {
        c - start + 13
    };
    if k < d {
        assert((start + k) % 13 != c);
        lemma_next_open_finds(s, start, k + 1, c);
    } else {
        assert((start + k) % 13 == c);
    }
}

/// The entry after `j` in display order, wrapping around.
pub open spec fn after(j: int) -> int {
    if j == 12 {
        0
    } else {
        j + 1
    }
}

/// With every category open, one forward step from `j` targets the next entry.
proof fn lemma_step_all_open(s: Seq<Roll>, j: int)
    requires
        ledger_wf(s),
        0 <= j < 13,
        forall|i: int| 0 <= i < 13 ==> (#[trigger] s[i]).score is None,
    ensures
        step_next(retarget(s, Some(j))) == retarget(s, Some(after(j))),
{
    let t = retarget(s, Some(j));
    lemma_retarget_wf(s, Some(j));
    let start = (j + 1) % 13;
    assert(start == after(j));
    assert(t[start].score is None);
    assert(next_open(t, start, 0) == Some(start));
    lemma_retarget_twice(s, Some(j), Some(start));
}

/// With every category open and the cursor on `c`, `n` forward steps (at
/// most thirteen) put the cursor `n` entries further on, wrapping around.
proof fn lemma_steps_all_open(s: Seq<Roll>, c: int, n: nat)
    requires
        ledger_wf(s),
        0 <= c < 13,
        n <= 13,
        s[c].selected,
        forall|i: int| 0 <= i < 13 ==> (#[trigger] s[i]).score is None,
    ensures
        steps_next(s, n) == retarget(
            s,
            Some(
                if c + n < 13 {
                    c + n
                } else {
                    c + n - 13
                },
            ),
        ),
    decreases n,
{
    if n == 0 {
        lemma_retarget_cursor(s, c);
    } else {
        lemma_steps_all_open(s, c, (n - 1) as nat);
        let j = if c + n - 1 < 13 {
            c + n - 1
        } else {
            c + n - 1 - 13
        };
        lemma_step_all_open(s, j);
    }
}

/// With `c` the only open category and targeted, the cursor stays on it.
proof fn lemma_steps_single_open(s: Seq<Roll>, c: int, n: nat)
    requires
        ledger_wf(s),
        0 <= c < 13,
        s[c].selected,
        forall|i: int| 0 <= i < 13 && i != c ==> (#[trigger] s[i]).score is Some,
    ensures
        steps_next(s, n) == s,
    decreases n,
{
    if n > 0 {
        lemma_steps_single_open(s, c, (n - 1) as nat);
        lemma_retarget_wf(s, Some(c));
        lemma_retarget_cursor(s, c);
        lemma_next_open_finds(s, (c + 1) % 13, 0, c);
    }
}

/// Thirteen calls of `select_next` bring the cursor back to the open
/// category it started on. This holds when the number of open categories
/// divides thirteen: every category is open, or only the targeted one is.
/// (With, say, two open categories the cursor alternates between them and
/// ends on the other one.)
pub proof fn lemma_next_cycle(s: Seq<Roll>, c: int)
    requires
        ledger_wf(s),
        0 <= c < 13,
        s[c].selected,
        (forall|i: int| 0 <= i < 13 ==> (#[trigger] s[i]).score is None) || (forall|i: int|
            0 <= i < 13 && i != c ==> (#[trigger] s[i]).score is Some),
    ensures
        steps_next(s, 13) == s,
{
    if forall|i: int| 0 <= i < 13 ==> (#[trigger] s[i]).score is None {
        lemma_steps_all_open(s, c, 13);
        lemma_retarget_cursor(s, c);
    } else {
        lemma_steps_single_open(s, c, 13);
    }
}

/// The position `x` entries after `c`, wrapping around (`x` from 0 to 13).
pub open spec fn pos_after(c: int, x: int) -> int {
    if c + x < 13 {
        c + x
    } else {
        c + x - 13
    }
}

/// How many entries at positions `lo` up to `hi` (exclusive) are open.
pub open spec fn open_in(s: Seq<Roll>, lo: int, hi: int) -> nat
    decreases hi - lo,
{
    if hi <= lo {
        0
    } else {
        open_in(s, lo, hi - 1) + if s[hi - 1].score is None {
            1nat
        } else {
            0nat
        }
    }
}

/// How many categories of `s` are open.
pub open spec fn open_count(s: Seq<Roll>) -> nat {
    open_in(s, 0, s.len() as int)
}

/// How many entries at offsets 1 to `x` after `c` are open.
spec fn open_after(s: Seq<Roll>, c: int, x: int) -> nat
    decreases x,
{
    if x <= 0 {
        0
    } else {
        open_after(s, c, x - 1) + if s[pos_after(c, x)].score is None {
            1nat
        } else {
            0nat
        }
    }
}

/// The offset after `c` of the first open entry past offset `x`.
spec fn next_offset(s: Seq<Roll>, c: int, x: int) -> int
    decreases 13 - x,
{
    if x >= 13 {
        13
    } else if s[pos_after(c, x + 1)].score is None {
        x + 1
    } else {
        next_offset(s, c, x + 1)
    }
}

/// The offset after `c` of the cursor after `m` forward steps.
spec fn offset_after_steps(s: Seq<Roll>, c: int, m: nat) -> int
    decreases m,
{
    if m == 0 {
        0
    } else {
        next_offset(s, c, offset_after_steps(s, c, (m - 1) as nat))
    }
}

proof fn lemma_open_in_split(s: Seq<Roll>, lo: int, mid: int, hi: int)
    requires
        lo <= mid <= hi,
    ensures
        open_in(s, lo, mid) + open_in(s, mid, hi) == open_in(s, lo, hi),
    decreases hi - mid,
{
    if hi > mid {
        lemma_open_in_split(s, lo, mid, hi - 1);
    }
}

proof fn lemma_open_after_rotation(s: Seq<Roll>, c: int, x: int)
    requires
        0 <= c < 13,
        0 <= x <= 13,
    ensures
        open_after(s, c, x) == if x <= 12 - c {
            open_in(s, c + 1, c + 1 + x)
        } else {
            open_in(s, c + 1, 13) + open_in(s, 0, x - (12 - c))
        },
    decreases x,
{
    if x > 0 {
        lemma_open_after_rotation(s, c, x - 1);
    }
}

proof fn lemma_open_after_total(s: Seq<Roll>, c: int)
    requires
        s.len() == 13,
        0 <= c < 13,
    ensures
        open_after(s, c, 13) == open_count(s),
{
    lemma_open_after_rotation(s, c, 13);
    lemma_open_in_split(s, 0, c + 1, 13);
}

proof fn lemma_open_after_monotone(s: Seq<Roll>, c: int, y: int, z: int)
    requires
        y <= z,
    ensures
        open_after(s, c, y) <= open_after(s, c, z),
    decreases z - y,
{
    if y < z {
        lemma_open_after_monotone(s, c, y, z - 1);
    }
}

/// From any offset before 13 the next open offset is found, and passing it
/// counts exactly one more open entry.
proof fn lemma_next_offset(s: Seq<Roll>, c: int, x: int)
    requires
        s.len() == 13,
        0 <= c < 13,
        s[c].score is None,
        0 <= x < 13,
    ensures
        x < next_offset(s, c, x) <= 13,
        s[pos_after(c, next_offset(s, c, x))].score is None,
        open_after(s, c, next_offset(s, c, x)) == open_after(s, c, x) + 1,
    decreases 13 - x,
{
    if s[pos_after(c, x + 1)].score is Some {
        lemma_next_offset(s, c, x + 1);
    }
}

/// The forward search from just past offset `x` lands on the next open offset.
proof fn lemma_next_open_offset(s: Seq<Roll>, c: int, x: int, k: nat)
    requires
        s.len() == 13,
        0 <= c < 13,
        s[c].score is None,
        0 <= x < 13,
        x + 1 + k <= 13,
        next_offset(s, c, x + k) == next_offset(s, c, x),
    ensures
        next_open(s, pos_after(c, x + 1), k) == Some(pos_after(c, next_offset(s, c, x))),
    decreases 13 - k,
{
    let start = pos_after(c, x + 1);
    assert((start + k) % 13 == pos_after(c, x + 1 + k));
    if s[pos_after(c, x + 1 + k)].score is Some {
        lemma_next_open_offset(s, c, x, k + 1);
    }
}

/// One forward step moves the cursor from offset `x` to the next open offset.
proof fn lemma_step_offset(s: Seq<Roll>, c: int, x: int)
    requires
        ledger_wf(s),
        0 <= c < 13,
        s[c].score is None,
        0 <= x < 13,
        s[pos_after(c, x)].score is None,
    ensures
        step_next(retarget(s, Some(pos_after(c, x)))) == retarget(
            s,
            Some(pos_after(c, next_offset(s, c, x))),
        ),
{
    let p = pos_after(c, x);
    let t = retarget(s, Some(p));
    lemma_retarget_wf(s, Some(p));
    assert((p + 1) % 13 == pos_after(c, x + 1));
    lemma_next_offset_same(s, t, c, x);
    lemma_next_open_offset(t, c, x, 0);
    lemma_retarget_twice(s, Some(p), Some(pos_after(c, next_offset(s, c, x))));
}

/// The offset search reads scores only.
proof fn lemma_next_offset_same(s: Seq<Roll>, t: Seq<Roll>, c: int, y: int)
    requires
        s.len() == 13,
        t.len() == 13,
        forall|i: int| 0 <= i < 13 ==> (#[trigger] s[i]).score == t[i].score,
        0 <= c < 13,
        0 <= y,
    ensures
        next_offset(s, c, y) == next_offset(t, c, y),
    decreases 13 - y,
{
    if y < 13 {
        lemma_next_offset_same(s, t, c, y + 1);
        assert(s[pos_after(c, y + 1)].score == t[pos_after(c, y + 1)].score);
    }
}

/// After `m` forward steps (no more than the open categories) the cursor
/// sits on an open entry at the offset past which `m` open entries lie.
proof fn lemma_steps_offset(s: Seq<Roll>, c: int, m: nat)
    requires
        ledger_wf(s),
        0 <= c < 13,
        s[c].selected,
        m <= open_count(s),
    ensures
        0 <= offset_after_steps(s, c, m) <= 13,
        s[pos_after(c, offset_after_steps(s, c, m))].score is None,
        open_after(s, c, offset_after_steps(s, c, m)) == m,
        steps_next(s, m) == retarget(s, Some(pos_after(c, offset_after_steps(s, c, m)))),
    decreases m,
{
    if m == 0 {
        lemma_retarget_cursor(s, c);
    } else {
        lemma_steps_offset(s, c, (m - 1) as nat);
        let x = offset_after_steps(s, c, (m - 1) as nat);
        lemma_open_after_total(s, c);
        assert(x < 13);
        lemma_next_offset(s, c, x);
        lemma_step_offset(s, c, x);
    }
}

/// With `k` categories open and the cursor on one of them, `k` calls of
/// `select_next` visit every open category once and bring the cursor back
/// to where it started.
pub proof fn lemma_next_cycle_open(s: Seq<Roll>, c: int)
    requires
        ledger_wf(s),
        0 <= c < 13,
        s[c].selected,
    ensures
        steps_next(s, open_count(s)) == s,
{
    let k = open_count(s);
    lemma_open_after_total(s, c);
    lemma_steps_offset(s, c, k);
    let x = offset_after_steps(s, c, k);
    if x < 13 {
        lemma_open_after_monotone(s, c, x, 12);
        assert(open_after(s, c, 13) == open_after(s, c, 12) + 1);
    }
    assert(x == 13);
    lemma_retarget_cursor(s, c);
}

proof fn lemma_none_count(s: Seq<Roll>)
    requires
        forall|i: int| 0 <= i < s.len() ==> (#[trigger] s[i]).score is None,
    ensures
        scored_count(s) == 0,
    decreases s.len(),
{
    if s.len() > 0 {
        let p = s.drop_last();
        assert forall|i: int| 0 <= i < p.len() implies (#[trigger] p[i]).score is None by {
            assert(p[i] == s[i]);
        }
        lemma_none_count(p);
    }
}

} // verus!
