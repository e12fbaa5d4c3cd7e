//! The game state and its turn lifecycle: roll, hold, roll again, pick a
//! category, score it, start the next turn.
use vstd::prelude::*;

use rand::Rng;

use crate::hand::{valid_hand, DieFace};
use crate::roll::{
    bonus_for, committed, cursor, fresh_ledger, next_target, prev_target, retarget, sum_stored, upper_sum,
    AllRolls, Roll,
};

verus! {

/// Most rolls a turn allows.
pub const MAX_ROLLS: u8 = 3;

/// Shortest time a rolling die takes to settle, in milliseconds.
pub const SETTLE_MIN_MS: u64 = 500;

/// Longest time a rolling die takes to settle, in milliseconds.
pub const SETTLE_MAX_MS: u64 = 1000;

/// How long the driving loop waits between animation ticks while dice roll.
pub const TICK_MS: u64 = 100;

/// How long the driving loop may wait for input while no die rolls.
pub const IDLE_WAIT_MS: u64 = 30000;

/// Relies on `rand::rng()` and `Rng::random_range` of rand: a value drawn
/// from the thread-local generator in `lo..=hi`, which must not be empty.
#[verifier::external_body]
fn random_between(lo: u64, hi: u64) -> (r: u64)
    requires
        lo <= hi,
    ensures
        lo <= r <= hi,
{
    rand::rng().random_range(lo..=hi)
}

/// What a player can ask for.
#[derive(Clone, Copy, Debug, PartialEq, Eq, Structural)]
pub enum Command {
    Quit,
    Roll,
    /// Hold or release the die at this 0-based position.
    ToggleHold(usize),
    SelectNext,
    SelectPrev,
    /// Score the targeted category, or start a new game once the game is over.
    Confirm,
}

/// Whether some die has not settled yet.
pub open spec fn rolling(d: Seq<DieFace>) -> bool {
    exists|i: int| 0 <= i < d.len() && (#[trigger] d[i]).rolling_until is Some
}

/// Whether every category of the ledger `s` holds a score.
pub open spec fn all_scored(s: Seq<Roll>) -> bool {
    forall|i: int| 0 <= i < s.len() ==> (#[trigger] s[i]).score is Some
}

/// The dice with every hold released.
pub open spec fn released(d: Seq<DieFace>) -> Seq<DieFace> {
    Seq::new(
        d.len(),
        |i: int| DieFace { value: d[i].value, held: false, rolling_until: d[i].rolling_until },
    )
}

/// The clock reading `settle` ms after `now`, held at the clock's largest
/// reading.
pub open spec fn deadline(now: u64, settle: u64) -> u64 {
    if now + settle > u64::MAX {
        u64::MAX
    } else {
        (now + settle) as u64
    }
}

/// The dice after a roll starts at `now`: each die not held rolls until
/// `settle[i]` ms later; held dice stay as they are.
pub open spec fn scheduled(d: Seq<DieFace>, now: u64, settle: Seq<u64>) -> Seq<DieFace> {
    Seq::new(
        d.len(),
        |i: int|
            if d[i].held {
                d[i]
            } else {
                DieFace {
                    value: d[i].value,
                    held: d[i].held,
                    rolling_until: Some(deadline(now, settle[i])),
                }
            },
    )
}

/// One animation step of a die at `now`: a die whose settle time lies ahead
/// shows `draw`; any other die stops rolling and keeps its value.
pub open spec fn ticked(d: DieFace, now: u64, draw: u8) -> DieFace {
    match d.rolling_until {
        Some(t) if t > now => DieFace { value: draw, held: d.held, rolling_until: d.rolling_until },
        _ => DieFace { value: d.value, held: d.held, rolling_until: None },
    }
}

/// The ledger after the roll numbered `count` starts: targeting is cleared,
/// and on the last roll the cursor moves to the first open category.
pub open spec fn ledger_after_roll(s: Seq<Roll>, count: int) -> Seq<Roll> {
    let c = retarget(s, None);
    if count == 3 {
        retarget(c, next_target(c))
    } else {
        c
    }
}

/// The game state: the ledger, the five dice and the rolls taken this turn.
pub struct App {
    pub exit: bool,
    pub rolls: AllRolls,
    pub dice_faces: Vec<DieFace>,
    pub roll_count: u8,
}

impl App {
    pub open spec fn wf(&self) -> bool {
        &&& self.rolls.wf()
        &&& valid_hand(self.dice_faces@)
        &&& self.roll_count <= 3
    }

    /// What `start_roll` may leave behind when `old` rolls at `now`: nothing
    /// changes after the third roll; otherwise the count goes up, the ledger
    /// changes as `ledger_after_roll` says, and each die not held rolls for
    /// 500 to 1000 ms (its deadline held at the clock's largest reading),
    /// keeping its value and hold.
    pub open spec fn rolled(old: App, new: App, now: u64) -> bool {
        if old.roll_count >= 3 {
            new == old
        } else {
            &&& new.exit == old.exit
            &&& new.roll_count == old.roll_count + 1
            &&& new.rolls.rolls@ == ledger_after_roll(old.rolls.rolls@, new.roll_count as int)
            &&& new.dice_faces@.len() == old.dice_faces@.len()
            &&& forall|i: int|
                0 <= i < old.dice_faces@.len() ==> {
                    let (a, b) = (old.dice_faces@[i], #[trigger] new.dice_faces@[i]);
                    &&& b.value == a.value
                    &&& b.held == a.held
                    &&& a.held ==> b.rolling_until == a.rolling_until
                    &&& !a.held ==> (b.rolling_until matches Some(t) && deadline(now, 500) <= t
                        <= deadline(now, 1000))
                }
        }
    }

    /// What `update_dice_animation` may leave behind at `now`: only the dice
    /// change; a die whose settle time lies ahead keeps rolling and shows
    /// some value; any other die stops rolling and keeps its value.
    pub open spec fn animated(old: App, new: App, now: u64) -> bool {
        &&& new.exit == old.exit
        &&& new.rolls == old.rolls
        &&& new.roll_count == old.roll_count
        &&& new.dice_faces@.len() == old.dice_faces@.len()
        &&& forall|i: int|
            0 <= i < old.dice_faces@.len() ==> {
                let (a, b) = (old.dice_faces@[i], #[trigger] new.dice_faces@[i]);
                &&& b.held == a.held
                &&& (a.rolling_until matches Some(t) && t > now) ==> b.rolling_until
                    == a.rolling_until
                &&& !(a.rolling_until matches Some(t) && t > now) ==> (b.rolling_until is None
                    && b.value == a.value)
            }
    }

    /// What `toggle_hold(index)` does: the hold of die `index` flips; an
    /// index past the last die changes nothing.
    pub open spec fn toggled(old: App, new: App, index: int) -> bool {
        &&& new.exit == old.exit
        &&& new.rolls == old.rolls
        &&& new.roll_count == old.roll_count
        &&& 0 <= index < old.dice_faces@.len() ==> new.dice_faces@ == old.dice_faces@.update(
            index,
            (DieFace {
                value: old.dice_faces@[index].value,
                held: !old.dice_faces@[index].held,
                rolling_until: old.dice_faces@[index].rolling_until,
            }),
        )
        &&& !(0 <= index < old.dice_faces@.len()) ==> new.dice_faces@ == old.dice_faces@
    }

    /// What `submit_selection` does: without a target nothing; with one the
    /// hand is committed to the ledger and the next turn starts.
    pub open spec fn submitted(old: App, new: App) -> bool {
        if cursor(old.rolls.rolls@) is None {
            new == old
        } else {
            &&& new.exit == old.exit
            &&& new.rolls.rolls@ == committed(old.rolls.rolls@, old.dice_faces@)
            &&& new.dice_faces@ == released(old.dice_faces@)
            &&& new.roll_count == 0
        }
    }

    /// What `start_over` does: the next turn starts and every score is cleared.
    pub open spec fn restarted(old: App, new: App) -> bool {
        &&& new.exit == old.exit
        &&& fresh_ledger(new.rolls.rolls@)
        &&& new.dice_faces@ == released(old.dice_faces@)
        &&& new.roll_count == 0
    }

    /// What `handle_command` does with `command` at `now`: a roll or a hold
    /// is ignored while dice are still rolling; a confirmation starts a new
    /// game once every category is scored, and submits the target otherwise.
    pub open spec fn commanded(old: App, new: App, command: Command, now: u64) -> bool {
        let busy = rolling(old.dice_faces@);
        match command {
            Command::Quit => {
                &&& new.exit
                &&& new.rolls == old.rolls
                &&& new.dice_faces == old.dice_faces
                &&& new.roll_count == old.roll_count
            },
            Command::Roll => if busy {
                new == old
            } else {
                App::rolled(old, new, now)
            },
            Command::ToggleHold(i) => if busy {
                new == old
            } else {
                App::toggled(old, new, i as int)
            },
            Command::SelectNext => {
                &&& new.exit == old.exit
                &&& new.rolls.rolls@ == retarget(old.rolls.rolls@, next_target(old.rolls.rolls@))
                &&& new.dice_faces == old.dice_faces
                &&& new.roll_count == old.roll_count
            },
            Command::SelectPrev => {
                &&& new.exit == old.exit
                &&& new.rolls.rolls@ == retarget(old.rolls.rolls@, prev_target(old.rolls.rolls@))
                &&& new.dice_faces == old.dice_faces
                &&& new.roll_count == old.roll_count
            },
            Command::Confirm => if all_scored(old.rolls.rolls@) {
                App::restarted(old, new)
            } else {
                App::submitted(old, new)
            },
        }
    }

    /// A new game: every category open, no roll taken, dice showing 1 to 5.
    pub fn new() -> (r: App)
        ensures
            r.wf(),
            !r.exit,
            r.roll_count == 0,
            fresh_ledger(r.rolls.rolls@),
            forall|i: int|
                0 <= i < 5 ==> #[trigger] r.dice_faces@[i] == (DieFace {
                    value: (i + 1) as u8,
                    held: false,
                    rolling_until: None,
                }),
    {
        App {
            exit: false,
            rolls: AllRolls::new(),
            roll_count: 0,
            dice_faces: vec![
                DieFace::new(1),
                DieFace::new(2),
                DieFace::new(3),
                DieFace::new(4),
                DieFace::new(5),
            ],
        }
    }

    /// Marks the game for leaving.
    pub fn exit(&mut self)
        ensures
            final(self).exit,
            final(self).rolls == old(self).rolls,
            final(self).dice_faces == old(self).dice_faces,
            final(self).roll_count == old(self).roll_count,
    {
        self.exit = true;
    }

    /// Whether some die has not settled yet.
    pub fn is_rolling(&self) -> (r: bool)
        ensures
            r == rolling(self.dice_faces@),
    {
        let mut i: usize = 0;
        while i < self.dice_faces.len()
            invariant
                i <= self.dice_faces@.len(),
                forall|j: int| 0 <= j < i ==> (#[trigger] self.dice_faces@[j]).rolling_until is None,
            decreases self.dice_faces@.len() - i,
        {
            if self.dice_faces[i].is_rolling() {
                return true;
            }
            i = i + 1;
        }
        false
    }

    /// Starts a roll at clock reading `now_ms`, with die `i` (if not held)
    /// settling `settle_ms[i]` ms later. Does nothing once three rolls are
    /// taken. Clears the target, and on the third roll moves the cursor to
    /// the first open category.
    pub fn start_roll_with(&mut self, now_ms: u64, settle_ms: &Vec<u64>)
        requires
            old(self).wf(),
            settle_ms@.len() == 5,
        ensures
            final(self).wf(),
            old(self).roll_count >= 3 ==> *final(self) == *old(self),
            old(self).roll_count < 3 ==> {
                &&& final(self).exit == old(self).exit
                &&& final(self).roll_count == old(self).roll_count + 1
                &&& final(self).rolls.rolls@ == ledger_after_roll(
                    old(self).rolls.rolls@,
                    final(self).roll_count as int,
                )
                &&& final(self).dice_faces@ == scheduled(old(self).dice_faces@, now_ms, settle_ms@)
            },
    {
        if self.roll_count < MAX_ROLLS {
            self.rolls.clear_selection();
            self.roll_count = self.roll_count + 1;
            let ghost d = self.dice_faces@;
            let ghost before = *self;
            let mut i: usize = 0;
            while i < self.dice_faces.len()
                invariant
                    self.rolls == before.rolls,
                    self.exit == before.exit,
                    self.roll_count == before.roll_count,
                    valid_hand(d),
                    self.dice_faces@.len() == 5,
                    settle_ms@.len() == 5,
                    i <= 5,
                    forall|j: int|
                        0 <= j < 5 ==> #[trigger] self.dice_faces@[j] == if j < i {
                            scheduled(d, now_ms, settle_ms@)[j]
                        } else {
                            d[j]
                        },
                decreases 5 - i,
            {
                let mut die = self.dice_faces[i];
                if !die.held {
                    die.rolling_until = Some(now_ms.saturating_add(settle_ms[i]));
                }
                self.dice_faces.set(i, die);
                i = i + 1;
            }
            assert(self.dice_faces@ =~= scheduled(d, now_ms, settle_ms@));
            if self.roll_count == MAX_ROLLS {
                self.rolls.select_next();
            }
        }
    }

    /// Starts a roll at clock reading `now_ms`: each die not held rolls for a
    /// random 500 to 1000 ms. Does nothing once three rolls are taken.
    pub fn start_roll(&mut self, now_ms: u64)
        requires
            old(self).wf(),
        ensures
            final(self).wf(),
            App::rolled(*old(self), *final(self), now_ms),
    {
        if self.roll_count < MAX_ROLLS {
            let mut settle: Vec<u64> = Vec::new();
            let mut i: usize = 0;
            while i < 5
                invariant
                    i <= 5,
                    settle@.len() == i,
                    forall|j: int| 0 <= j < i ==> 500 <= #[trigger] settle@[j] <= 1000,
                decreases 5 - i,
            {
                settle.push(random_between(SETTLE_MIN_MS, SETTLE_MAX_MS));
                i = i + 1;
            }
            self.start_roll_with(now_ms, &settle);
        }
    }

    /// One animation step at clock reading `now_ms`: die `i`, while its
    /// settle time lies ahead, shows `draws[i]`; any other die stops rolling.
    pub fn update_dice_animation_with(&mut self, now_ms: u64, draws: &Vec<u8>)
        requires
            old(self).wf(),
            draws@.len() == 5,
            forall|i: int| 0 <= i < 5 ==> 1 <= #[trigger] draws@[i] <= 6,
        ensures
            final(self).wf(),
            final(self).exit == old(self).exit,
            final(self).rolls == old(self).rolls,
            final(self).roll_count == old(self).roll_count,
            final(self).dice_faces@.len() == 5,
            forall|i: int|
                0 <= i < 5 ==> #[trigger] final(self).dice_faces@[i] == ticked(
                    old(self).dice_faces@[i],
                    now_ms,
                    draws@[i],
                ),
    {
        let ghost d = self.dice_faces@;
        let ghost before = *self;
        let mut i: usize = 0;
        while i < self.dice_faces.len()
            invariant
                self.rolls == before.rolls,
                self.exit == before.exit,
                self.roll_count == before.roll_count,
                valid_hand(d),
                self.dice_faces@.len() == 5,
                draws@.len() == 5,
                forall|j: int| 0 <= j < 5 ==> 1 <= #[trigger] draws@[j] <= 6,
                i <= 5,
                forall|j: int|
                    0 <= j < 5 ==> #[trigger] self.dice_faces@[j] == if j < i {
                        ticked(d[j], now_ms, draws@[j])
                    } else {
                        d[j]
                    },
            decreases 5 - i,
        {
            let mut die = self.dice_faces[i];
            let still_rolling = match die.rolling_until {
                Some(t) => t > now_ms,
                None => false,
            };
            if still_rolling {
                die.value = draws[i];
            } else {
                die.rolling_until = None;
            }
            self.dice_faces.set(i, die);
            i = i + 1;
        }
    }

    /// One animation step at clock reading `now_ms`: each die whose settle
    /// time lies ahead shows a random value; any other die stops rolling and
    /// keeps its value.
    pub fn update_dice_animation(&mut self, now_ms: u64)
        requires
            old(self).wf(),
        ensures
            final(self).wf(),
            App::animated(*old(self), *final(self), now_ms),
    {
        let mut draws: Vec<u8> = Vec::new();
        let mut i: usize = 0;
        while i < 5
            invariant
                i <= 5,
                draws@.len() == i,
                forall|j: int| 0 <= j < i ==> 1 <= #[trigger] draws@[j] <= 6,
            decreases 5 - i,
        {
            draws.push(random_between(1, 6) as u8);
            i = i + 1;
        }
        self.update_dice_animation_with(now_ms, &draws);
    }

    /// Flips the hold of the die at 0-based position `index`; an index past
    /// the last die is ignored.
    pub fn toggle_hold(&mut self, index: usize)
        requires
            old(self).wf(),
        ensures
            final(self).wf(),
            App::toggled(*old(self), *final(self), index as int),
    {
        if index < self.dice_faces.len() {
            let mut die = self.dice_faces[index];
            die.held = !die.held;
            self.dice_faces.set(index, die);
        }
    }

    /// Scores the hand in the targeted category (a Yahtzee category that
    /// holds 50 or more is scored again first), then starts the next turn.
    /// Without a target nothing happens.
    pub fn submit_selection(&mut self)
        requires
            old(self).wf(),
        ensures
            final(self).wf(),
            App::submitted(*old(self), *final(self)),
    {
        if self.rolls.selected().is_some() {
            self.rolls.commit_selection(&self.dice_faces);
            proof {
                assert(retarget(self.rolls.rolls@, None) =~= self.rolls.rolls@);
            }
            self.reset();
        }
    }

    /// The sum of all stored scores plus the upper-section bonus.
    pub fn total_score(&self) -> (r: u32)
        requires
            self.wf(),
        ensures
            r == sum_stored(self.rolls.rolls@) + bonus_for(upper_sum(self.rolls.rolls@)),
    {
        let total = self.rolls.score_sum();
        let (_, bonus) = self.rolls.bonus_status();
        total + bonus
    }

    /// Starts the next turn: holds released, no roll taken, no target.
    pub fn reset(&mut self)
        requires
            old(self).wf(),
        ensures
            final(self).wf(),
            final(self).exit == old(self).exit,
            final(self).rolls.rolls@ == retarget(old(self).rolls.rolls@, None),
            final(self).dice_faces@ == released(old(self).dice_faces@),
            final(self).roll_count == 0,
    {
        let ghost d = self.dice_faces@;
        let ghost before = *self;
        let mut i: usize = 0;
        while i < self.dice_faces.len()
            invariant
                self.rolls == before.rolls,
                self.exit == before.exit,
                self.roll_count == before.roll_count,
                valid_hand(d),
                self.dice_faces@.len() == 5,
                i <= 5,
                forall|j: int|
                    0 <= j < 5 ==> #[trigger] self.dice_faces@[j] == if j < i {
                        released(d)[j]
                    } else {
                        d[j]
                    },
            decreases 5 - i,
        {
            let mut die = self.dice_faces[i];
            die.held = false;
            self.dice_faces.set(i, die);
            i = i + 1;
        }
        assert(self.dice_faces@ =~= released(d));
        self.roll_count = 0;
        self.rolls.clear_selection();
    }

    /// Starts a new game: the next turn begins and every score is cleared.
    pub fn start_over(&mut self)
        requires
            old(self).wf(),
        ensures
            final(self).wf(),
            App::restarted(*old(self), *final(self)),
    {
        self.reset();
        self.rolls = AllRolls::new();
    }

    /// Whether every category holds a score.
    pub fn is_game_over(&self) -> (r: bool)
        requires
            self.wf(),
        ensures
            r == all_scored(self.rolls.rolls@),
            r <==> forall|i: int| 0 <= i < 13 ==> (#[trigger] self.rolls.rolls@[i]).score is Some,
    {
        self.rolls.all_scored()
    }

    /// One pass of the driving loop's clock at `now_ms`: while dice roll,
    /// advances their animation and asks to be called again after a short
    /// tick; otherwise changes nothing and lets the loop wait for input.
    pub fn tick(&mut self, now_ms: u64) -> (wait_ms: u64)
        requires
            old(self).wf(),
        ensures
            final(self).wf(),
            rolling(old(self).dice_faces@) ==> wait_ms == TICK_MS && App::animated(
                *old(self),
                *final(self),
                now_ms,
            ),
            !rolling(old(self).dice_faces@) ==> wait_ms == IDLE_WAIT_MS && *final(self) == *old(
                self,
            ),
    {
        if self.is_rolling() {
            self.update_dice_animation(now_ms);
            TICK_MS
        } else {
            IDLE_WAIT_MS
        }
    }

    /// Carries out the player's `command` at clock reading `now_ms`, as
    /// `commanded` describes.
    pub fn handle_command(&mut self, command: Command, now_ms: u64)
        requires
            old(self).wf(),
        ensures
            final(self).wf(),
            App::commanded(*old(self), *final(self), command, now_ms),
    {
        match command {
            Command::Quit => self.exit(),
            Command::Roll => {
                if !self.is_rolling() {
                    self.start_roll(now_ms);
                }
            },
            Command::ToggleHold(i) => {
                if !self.is_rolling() {
                    self.toggle_hold(i);
                }
            },
            Command::SelectNext => self.rolls.select_next(),
            Command::SelectPrev => self.rolls.select_prev(),
            Command::Confirm => {
                if self.is_game_over() {
                    self.start_over();
                } else {
                    self.submit_selection();
                }
            },
        }
    }
}

} // verus!
