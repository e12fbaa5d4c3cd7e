//! The scoring engine: what a hand is worth in each category.
use vstd::prelude::*;

use crate::hand::{
    all_same, count_value, face_total, lemma_prefix_step, lemma_sum_of_value_bound,
    lemma_sum_values_bound, shows, sum_of_value, sum_values, valid_hand, DieFace,
};
use crate::roll::{stored, Roll, RollType};

verus! {

/// Some value shows on at least `k` dice.
pub open spec fn has_kind(faces: Seq<DieFace>, k: int) -> bool {
    exists|v: int| 1 <= v <= 6 && #[trigger] count_value(faces, v) >= k
}

/// Some value shows on exactly two dice and some value on exactly three.
pub open spec fn has_full_house(faces: Seq<DieFace>) -> bool {
    &&& exists|v: int| 1 <= v <= 6 && #[trigger] count_value(faces, v) == 2
    &&& exists|w: int| 1 <= w <= 6 && #[trigger] count_value(faces, w) == 3
}

/// Every value from `start` to `start + len - 1` shows on some die.
pub open spec fn run_present(faces: Seq<DieFace>, start: int, len: int) -> bool {
    forall|j: int| start <= j < start + len ==> #[trigger] shows(faces, j)
}

/// The hand holds `len` consecutive distinct values.
pub open spec fn has_run(faces: Seq<DieFace>, len: int) -> bool {
    exists|start: int| 1 <= start && start + len <= 7 && #[trigger] run_present(faces, start, len)
}

/// The length of the run of consecutive shown values that ends at `v`.
pub open spec fn run_to(faces: Seq<DieFace>, v: int) -> nat
    decreases v,
{
    if v < 1 || !shows(faces, v) {
        0
    } else {
        1 + run_to(faces, v - 1)
    }
}

/// The straight rule: a run of four is worth 30 to the small straight, a run
/// of five 40 to the large one; any other length asked for scores nothing.
pub open spec fn straight_score(len: int, faces: Seq<DieFace>) -> int {
    if len == 4 && has_run(faces, 4) {
        30
    } else if len == 5 && has_run(faces, 5) {
        40
    } else {
        0
    }
}

/// The Yahtzee rule: a five-of-a-kind is worth 50 the first time, and 100
/// more than what is stored once something is stored; any other hand leaves
/// the stored score as it is.
pub open spec fn yahtzee_score(score: Option<u32>, faces: Seq<DieFace>) -> int {
    if all_same(faces) {
        if stored(score) > 0 {
            stored(score) + 100
        } else {
            50
        }
    } else {
        stored(score)
    }
}

/// What the hand `faces` is worth in the category of `roll`.
pub open spec fn score_of(roll: Roll, faces: Seq<DieFace>) -> int {
    match roll.roll_type {
        RollType::Ones => sum_of_value(faces, 1) as int,
        RollType::Twos => sum_of_value(faces, 2) as int,
        RollType::Threes => sum_of_value(faces, 3) as int,
        RollType::Fours => sum_of_value(faces, 4) as int,
        RollType::Fives => sum_of_value(faces, 5) as int,
        RollType::Sixes => sum_of_value(faces, 6) as int,
        RollType::ThreeOfAKind => if has_kind(faces, 3) {
            sum_values(faces) as int
        } else {
            0
        },
        RollType::FourOfAKind => if has_kind(faces, 4) {
            sum_values(faces) as int
        } else {
            0
        },
        RollType::FullHouse => if has_full_house(faces) {
            25
        } else {
            0
        },
        RollType::SmallStraight => straight_score(4, faces),
        RollType::LargeStraight => straight_score(5, faces),
        RollType::Chance => sum_values(faces) as int,
        RollType::Yahtzee => yahtzee_score(roll.score, faces),
    }
}

/// Scores the hand `faces` in the category of `roll`. For the Yahtzee
/// category the score already stored in `roll` takes part.
pub fn calc_score(roll: Roll, faces: &Vec<DieFace>) -> (r: u32)
    requires
        valid_hand(faces@),
        roll.roll_type == RollType::Yahtzee && all_same(faces@) ==> stored(roll.score) <= u32::MAX
            - 100,
    ensures
        r == score_of(roll, faces@),
        roll.roll_type == RollType::Chance ==> r == sum_values(faces@),
        roll.roll_type == RollType::FullHouse ==> (r == 25 <==> has_full_house(faces@)),
        roll.roll_type == RollType::FullHouse ==> (r == 25 || r == 0),
        roll.roll_type != RollType::Yahtzee ==> r <= 50,
{
    proof {
        lemma_sum_values_bound(faces@);
    }
    match roll.roll_type {
        RollType::Ones => calc_score_for_num_type(1, faces),
        RollType::Twos => calc_score_for_num_type(2, faces),
        RollType::Threes => calc_score_for_num_type(3, faces),
        RollType::Fours => calc_score_for_num_type(4, faces),
        RollType::Fives => calc_score_for_num_type(5, faces),
        RollType::Sixes => calc_score_for_num_type(6, faces),
        RollType::ThreeOfAKind => calc_score_for_x_of_a_kind(3, faces),
        RollType::FourOfAKind => calc_score_for_x_of_a_kind(4, faces),
        RollType::FullHouse => calc_score_for_full_house(faces),
        RollType::SmallStraight => calc_score_for_straight(4, faces),
        RollType::LargeStraight => calc_score_for_straight(5, faces),
        RollType::Chance => calc_score_for_chance(faces),
        RollType::Yahtzee => calc_score_for_yahtzee(roll, faces),
    }
}

/// Counts, for each face value `v` from 0 to 6, the dice showing `v`.
fn face_counts(faces: &Vec<DieFace>) -> (counts: Vec<u8>)
    requires
        valid_hand(faces@),
    ensures
        counts@.len() == 7,
        forall|v: int| 0 <= v < 7 ==> #[trigger] counts@[v] == count_value(faces@, v),
{
    let mut counts: Vec<u8> = vec![0u8, 0u8, 0u8, 0u8, 0u8, 0u8, 0u8];
    let mut i: usize = 0;
    while i < faces.len()
        invariant
            i <= faces.len(),
            valid_hand(faces@),
            counts@.len() == 7,
            forall|v: int|
                0 <= v < 7 ==> #[trigger] counts@[v] == count_value(
                    faces@.subrange(0, i as int),
                    v,
                ),
            forall|v: int| 0 <= v < 7 ==> #[trigger] counts@[v] <= i,
        decreases faces.len() - i,
    {
        proof {
            lemma_prefix_step(faces@, i as int);
        }
        let f = faces[i].value as usize;
        let c = counts[f];
        counts.set(f, c + 1);
        i = i + 1;
        assert forall|v: int| 0 <= v < 7 implies #[trigger] counts@[v] == count_value(
            faces@.subrange(0, i as int),
            v,
        ) by {
            assert(count_value(faces@.subrange(0, i as int), v) == count_value(
                faces@.subrange(0, i - 1),
                v,
            ) + if faces@[i - 1].value == v {
                1nat
            } else {
                0nat
            });
        }
    }
    assert(faces@.subrange(0, faces.len() as int) =~= faces@);
    counts
}

fn calc_score_for_num_type(num: u8, faces: &Vec<DieFace>) -> (r: u32)
    requires
        valid_hand(faces@),
    ensures
        r == sum_of_value(faces@, num as int),
        r <= sum_values(faces@),
{
    proof {
        lemma_sum_of_value_bound(faces@, num as int);
    }
    let mut total: u32 = 0;
    let mut i: usize = 0;
    while i < faces.len()
        invariant
            i <= faces.len(),
            valid_hand(faces@),
            total == sum_of_value(faces@.subrange(0, i as int), num as int),
            total <= 6 * i,
        decreases faces.len() - i,
    {
        proof {
            lemma_prefix_step(faces@, i as int);
        }
        if faces[i].value == num {
            total = total + faces[i].value as u32;
        }
        i = i + 1;
    }
    assert(faces@.subrange(0, faces.len() as int) =~= faces@);
    total
}

fn calc_score_for_x_of_a_kind(num: u8, faces: &Vec<DieFace>) -> (r: u32)
    requires
        valid_hand(faces@),
    ensures
        r == if has_kind(faces@, num as int) {
            sum_values(faces@) as int
        } else {
            0
        },
{
    let counts = face_counts(faces);
    let mut applies = false;
    let mut v: usize = 1;
    while v <= 6
        invariant
            1 <= v <= 7,
            counts@.len() == 7,
            forall|u: int| 0 <= u < 7 ==> #[trigger] counts@[u] == count_value(faces@, u),
            applies <==> exists|u: int| 1 <= u < v && #[trigger] count_value(faces@, u) >= num,
        decreases 7 - v,
    {
        if counts[v] >= num {
            applies = true;
        }
        v = v + 1;
    }
    if applies {
        face_total(faces)
    } else {
        0
    }
}

fn calc_score_for_full_house(faces: &Vec<DieFace>) -> (r: u32)
    requires
        valid_hand(faces@),
    ensures
        r == if has_full_house(faces@) {
            25int
        } else {
            0
        },
{
    let counts = face_counts(faces);
    let mut pair = false;
    let mut triple = false;
    let mut v: usize = 1;
    while v <= 6
        invariant
            1 <= v <= 7,
            counts@.len() == 7,
            forall|u: int| 0 <= u < 7 ==> #[trigger] counts@[u] == count_value(faces@, u),
            pair <==> exists|u: int| 1 <= u < v && #[trigger] count_value(faces@, u) == 2,
            triple <==> exists|u: int| 1 <= u < v && #[trigger] count_value(faces@, u) == 3,
        decreases 7 - v,
    {
        if counts[v] == 2 {
            pair = true;
        }
        if counts[v] == 3 {
            triple = true;
        }
        v = v + 1;
    }
    if pair && triple {
        25
    } else {
        0
    }
}

/// The counts of the six face values add up to the number of dice.
proof fn lemma_counts_total(faces: Seq<DieFace>)
    requires
        forall|i: int| 0 <= i < faces.len() ==> 1 <= #[trigger] faces[i].value <= 6,
    ensures
        count_value(faces, 1) + count_value(faces, 2) + count_value(faces, 3) + count_value(
            faces,
            4,
        ) + count_value(faces, 5) + count_value(faces, 6) == faces.len(),
    decreases faces.len(),
{
    if faces.len() > 0 {
        let p = faces.drop_last();
        assert forall|i: int| 0 <= i < p.len() implies 1 <= #[trigger] p[i].value <= 6 by {
            assert(p[i] == faces[i]);
        }
        lemma_counts_total(p);
        assert(1 <= faces.last().value <= 6);
    }
}

/// A full house is a hand whose multiplicities are exactly two and three:
/// one value shows twice, another three times, and no other value shows.
pub proof fn lemma_full_house_multiplicities(faces: Seq<DieFace>)
    requires
        valid_hand(faces),
    ensures
        has_full_house(faces) <==> exists|v: int, w: int|
            1 <= v <= 6 && 1 <= w <= 6 && v != w && #[trigger] count_value(faces, v) == 2
                && #[trigger] count_value(faces, w) == 3 && forall|u: int|
                1 <= u <= 6 && u != v && u != w ==> #[trigger] count_value(faces, u) == 0,
{
    lemma_counts_total(faces);
    if has_full_house(faces) {
        let v = choose|v: int| 1 <= v <= 6 && #[trigger] count_value(faces, v) == 2;
        let w = choose|w: int| 1 <= w <= 6 && #[trigger] count_value(faces, w) == 3;
        assert forall|u: int| 1 <= u <= 6 && u != v && u != w implies #[trigger] count_value(
            faces,
            u,
        ) == 0 by {
            assert(u == 1 || u == 2 || u == 3 || u == 4 || u == 5 || u == 6);
            assert(v == 1 || v == 2 || v == 3 || v == 4 || v == 5 || v == 6);
            assert(w == 1 || w == 2 || w == 3 || w == 4 || w == 5 || w == 6);
        }
    }
}

/// The face values of a hand, in order.
pub open spec fn values_of(faces: Seq<DieFace>) -> Seq<u8> {
    faces.map_values(|d: DieFace| d.value)
}

proof fn lemma_count_is_multiplicity(faces: Seq<DieFace>, v: u8)
    ensures
        count_value(faces, v as int) == values_of(faces).to_multiset().count(v),
    decreases faces.len(),
{
    broadcast use vstd::seq_lib::group_to_multiset_ensures;

    if faces.len() == 0 {
        assert(values_of(faces) =~= Seq::<u8>::empty());
    } else {
        let p = faces.drop_last();
        lemma_count_is_multiplicity(p, v);
        assert(values_of(faces) =~= values_of(p).push(faces.last().value));
    }
}

proof fn lemma_sum_of_value_by_count(faces: Seq<DieFace>, v: int)
    requires
        v >= 0,
    ensures
        sum_of_value(faces, v) == v * count_value(faces, v),
    decreases faces.len(),
{
    if faces.len() == 0 {
        assert(v * 0 == 0) by (nonlinear_arith);
    } else {
        let p = faces.drop_last();
        lemma_sum_of_value_by_count(p, v);
        let c = count_value(p, v);
        assert(v * (c + 1) == v * c + v) by (nonlinear_arith);
        if faces.last().value == v {
            assert(count_value(faces, v) == c + 1);
            assert(sum_of_value(faces, v) == sum_of_value(p, v) + v);
        } else {
            assert(count_value(faces, v) == c);
            assert(sum_of_value(faces, v) == sum_of_value(p, v));
        }
    }
}

proof fn lemma_sum_by_counts(faces: Seq<DieFace>)
    requires
        forall|i: int| 0 <= i < faces.len() ==> 1 <= #[trigger] faces[i].value <= 6,
    ensures
        sum_values(faces) == count_value(faces, 1) + 2 * count_value(faces, 2) + 3 * count_value(
            faces,
            3,
        ) + 4 * count_value(faces, 4) + 5 * count_value(faces, 5) + 6 * count_value(faces, 6),
    decreases faces.len(),
{
    if faces.len() > 0 {
        let p = faces.drop_last();
        assert forall|i: int| 0 <= i < p.len() implies 1 <= #[trigger] p[i].value <= 6 by {
            assert(p[i] == faces[i]);
        }
        lemma_sum_by_counts(p);
        assert(1 <= faces.last().value <= 6);
    }
}

proof fn lemma_all_same_by_counts(faces: Seq<DieFace>)
    requires
        valid_hand(faces),
    ensures
        all_same(faces) <==> exists|v: int| 1 <= v <= 6 && #[trigger] count_value(faces, v) == 5,
{
    if all_same(faces) {
        let u = faces[0].value as int;
        lemma_count_all(faces, u);
        assert(count_value(faces, u) == 5);
    }
    if exists|v: int| 1 <= v <= 6 && #[trigger] count_value(faces, v) == 5 {
        let u = choose|v: int| 1 <= v <= 6 && #[trigger] count_value(faces, v) == 5;
        lemma_count_all(faces, u);
        assert(faces[0].value == u);
    }
}

/// A hand's score depends only on which values it shows how often: two
/// hands whose values are a reordering of each other score the same in
/// every category (holds and rolling state play no part either).
pub proof fn lemma_score_ignores_order(roll: Roll, a: Seq<DieFace>, b: Seq<DieFace>)
    requires
        valid_hand(a),
        valid_hand(b),
        values_of(a).to_multiset() == values_of(b).to_multiset(),
    ensures
        score_of(roll, a) == score_of(roll, b),
{
    assert forall|v: int| 1 <= v <= 6 implies #[trigger] count_value(a, v) == count_value(b, v) by {
        lemma_count_is_multiplicity(a, v as u8);
        lemma_count_is_multiplicity(b, v as u8);
    }
    assert(count_value(a, 1) == count_value(b, 1) && count_value(a, 2) == count_value(b, 2));
    assert(count_value(a, 3) == count_value(b, 3) && count_value(a, 4) == count_value(b, 4));
    assert(count_value(a, 5) == count_value(b, 5) && count_value(a, 6) == count_value(b, 6));
    lemma_sum_by_counts(a);
    lemma_sum_by_counts(b);
    lemma_all_same_by_counts(a);
    lemma_all_same_by_counts(b);
    lemma_sum_of_value_by_count(a, 1);
    lemma_sum_of_value_by_count(b, 1);
    lemma_sum_of_value_by_count(a, 2);
    lemma_sum_of_value_by_count(b, 2);
    lemma_sum_of_value_by_count(a, 3);
    lemma_sum_of_value_by_count(b, 3);
    lemma_sum_of_value_by_count(a, 4);
    lemma_sum_of_value_by_count(b, 4);
    lemma_sum_of_value_by_count(a, 5);
    lemma_sum_of_value_by_count(b, 5);
    lemma_sum_of_value_by_count(a, 6);
    lemma_sum_of_value_by_count(b, 6);
    assert(has_kind(a, 3) == has_kind(b, 3));
    assert(has_kind(a, 4) == has_kind(b, 4));
    assert(has_full_house(a) == has_full_house(b));
    assert forall|j: int|
        #![trigger shows(a, j)]
        #![trigger shows(b, j)]
        1 <= j <= 6 implies shows(a, j) == shows(b, j) by {
        assert(count_value(a, j) == count_value(b, j));
    }
    assert forall|start: int, len: int|
        #![trigger run_present(a, start, len)]
        #![trigger run_present(b, start, len)]
        1 <= start && start + len <= 7 implies run_present(a, start, len) == run_present(
            b,
            start,
            len,
        ) by {
        if run_present(a, start, len) {
            assert forall|j: int| start <= j < start + len implies #[trigger] shows(b, j) by {
                assert(shows(a, j));
            }
        }
        if run_present(b, start, len) {
            assert forall|j: int| start <= j < start + len implies #[trigger] shows(a, j) by {
                assert(shows(b, j));
            }
        }
    }
    assert(has_run(a, 4) == has_run(b, 4));
    assert(has_run(a, 5) == has_run(b, 5));
}

proof fn lemma_run_to_present(faces: Seq<DieFace>, v: int, k: int)
    requires
        k >= 1,
        run_to(faces, v) >= k,
    ensures
        v - k + 1 >= 1,
        run_present(faces, v - k + 1, k),
    decreases k,
{
    if k > 1 {
        lemma_run_to_present(faces, v - 1, k - 1);
    }
}

proof fn lemma_present_run_to(faces: Seq<DieFace>, start: int, k: int)
    requires
        start >= 1,
        k >= 0,
        run_present(faces, start, k),
    ensures
        run_to(faces, start + k - 1) >= k,
    decreases k,
{
    if k > 0 {
        assert(run_present(faces, start, k - 1));
        lemma_present_run_to(faces, start, k - 1);
        assert(shows(faces, start + k - 1));
    }
}

/// The longest run decides every question of the form "is there a run of `k`".
proof fn lemma_longest_run(faces: Seq<DieFace>, best: int, k: int)
    requires
        k >= 1,
        forall|u: int| 1 <= u <= 6 ==> #[trigger] run_to(faces, u) <= best,
        best == 0 || exists|u: int| 1 <= u <= 6 && #[trigger] run_to(faces, u) == best,
    ensures
        has_run(faces, k) <==> best >= k,
{
    if best >= k {
        let u = choose|u: int| 1 <= u <= 6 && #[trigger] run_to(faces, u) == best;
        lemma_run_to_present(faces, u, k);
        assert(run_present(faces, u - k + 1, k));
    }
    if has_run(faces, k) {
        let start = choose|start: int|
            1 <= start && start + k <= 7 && #[trigger] run_present(faces, start, k);
        lemma_present_run_to(faces, start, k);
        assert(run_to(faces, start + k - 1) <= best);
    }
}

/// Scores a straight of `count` dice: 30 for four in a row, 40 for five.
/// Duplicates are skipped over, and a missing value ends a run.
pub fn calc_score_for_straight(count: u8, faces: &Vec<DieFace>) -> (r: u32)
    requires
        valid_hand(faces@),
    ensures
        r == straight_score(count as int, faces@),
{
    let counts = face_counts(faces);
    let mut max_run: u8 = 0;
    let mut current_run: u8 = 0;
    let mut v: usize = 1;
    while v <= 6
        invariant
            1 <= v <= 7,
            counts@.len() == 7,
            forall|u: int| 0 <= u < 7 ==> #[trigger] counts@[u] == count_value(faces@, u),
            current_run == run_to(faces@, v - 1),
            current_run < v,
            forall|u: int| 1 <= u < v ==> #[trigger] run_to(faces@, u) <= max_run,
            max_run == 0 || exists|u: int| 1 <= u < v && #[trigger] run_to(faces@, u) == max_run,
        decreases 7 - v,
    {
        if counts[v] > 0 {
            current_run = current_run + 1;
            if current_run > max_run {
                max_run = current_run;
            }
        } else {
            current_run = 0;
        }
        assert(run_to(faces@, v as int) == current_run);
        v = v + 1;
    }
    if count >= 1 {
        proof {
            lemma_longest_run(faces@, max_run as int, count as int);
        }
    }
    if count >= 1 && max_run >= count {
        if count == 4 {
            30
        } else if count == 5 {
            40
        } else {
            0
        }
    } else {
        0
    }
}

fn calc_score_for_chance(faces: &Vec<DieFace>) -> (r: u32)
    requires
        valid_hand(faces@),
    ensures
        r == sum_values(faces@),
{
    face_total(faces)
}

proof fn lemma_count_all(faces: Seq<DieFace>, v: int)
    ensures
        count_value(faces, v) <= faces.len(),
        count_value(faces, v) == faces.len() <==> forall|i: int|
            0 <= i < faces.len() ==> #[trigger] faces[i].value == v,
    decreases faces.len(),
{
    if faces.len() > 0 {
        let p = faces.drop_last();
        lemma_count_all(p, v);
        if forall|i: int| 0 <= i < faces.len() ==> #[trigger] faces[i].value == v {
            assert forall|i: int| 0 <= i < p.len() implies #[trigger] p[i].value == v by {
                assert(p[i] == faces[i]);
            }
        }
        if count_value(faces, v) == faces.len() {
            assert forall|i: int| 0 <= i < faces.len() implies #[trigger] faces[i].value == v by {
                if i < p.len() {
                    assert(p[i] == faces[i]);
                }
            }
        }
    }
}

fn calc_score_for_yahtzee(roll: Roll, faces: &Vec<DieFace>) -> (r: u32)
    requires
        valid_hand(faces@),
        all_same(faces@) ==> stored(roll.score) <= u32::MAX - 100,
    ensures
        r == yahtzee_score(roll.score, faces@),
{
    if is_yahtzee(faces) {
        let current = roll.score.unwrap_or(0);
        if current > 0 {
            current + 100
        } else {
            50
        }
    } else {
        roll.score.unwrap_or(0)
    }
}

/// Whether all five dice show the same value.
pub fn is_yahtzee(faces: &Vec<DieFace>) -> (r: bool)
    requires
        valid_hand(faces@),
    ensures
        r == all_same(faces@),
{
    let counts = face_counts(faces);
    let mut found = false;
    let mut v: usize = 1;
    while v <= 6
        invariant
            1 <= v <= 7,
            counts@.len() == 7,
            forall|u: int| 0 <= u < 7 ==> #[trigger] counts@[u] == count_value(faces@, u),
            found <==> exists|u: int| 1 <= u < v && #[trigger] count_value(faces@, u) == 5,
        decreases 7 - v,
    {
        if counts[v] == 5 {
            found = true;
        }
        v = v + 1;
    }
    proof {
        if found {
            let u = choose|u: int| 1 <= u < 7 && #[trigger] count_value(faces@, u) == 5;
            lemma_count_all(faces@, u);
            assert(faces@[0].value == u);
        }
        if all_same(faces@) {
            let u = faces@[0].value as int;
            lemma_count_all(faces@, u);
            assert(count_value(faces@, u) == 5);
        }
    }
    found
}

} // verus!
