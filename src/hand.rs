//! Dice and hands: the values that scoring reads, with their mathematical model.
use vstd::prelude::*;

verus! {

/// One die: its face value, whether the player holds it between rolls, and,
/// while it is rolling, the clock reading (in milliseconds) at which it settles.
#[derive(Clone, Copy, Debug)]
pub struct DieFace {
    pub value: u8,
    pub held: bool,
    pub rolling_until: Option<u64>,
}

impl DieFace {
    pub fn new(value: u8) -> (r: DieFace)
        ensures
            r.value == value,
            !r.held,
            r.rolling_until is None,
    {
        DieFace { value, held: false, rolling_until: None }
    }

    pub fn is_rolling(self) -> (r: bool)
        ensures
            r == self.rolling_until is Some,
    {
        self.rolling_until.is_some()
    }
}

/// A hand is exactly five dice, each showing a value from 1 to 6.
pub open spec fn valid_hand(faces: Seq<DieFace>) -> bool {
    &&& faces.len() == 5
    &&& forall|i: int| 0 <= i < faces.len() ==> 1 <= #[trigger] faces[i].value <= 6
}

/// How many dice of `faces` show `v`.
pub open spec fn count_value(faces: Seq<DieFace>, v: int) -> nat
    decreases faces.len(),
{
    if faces.len() == 0 {
        0
    } else {
        count_value(faces.drop_last(), v) + if faces.last().value == v {
            1nat
        } else {
            0nat
        }
    }
}

/// The sum of all face values.
pub open spec fn sum_values(faces: Seq<DieFace>) -> nat
    decreases faces.len(),
{
    if faces.len() == 0 {
        0
    } else {
        sum_values(faces.drop_last()) + faces.last().value as nat
    }
}

/// The sum of the face values that equal `v`.
pub open spec fn sum_of_value(faces: Seq<DieFace>, v: int) -> nat
    decreases faces.len(),
{
    if faces.len() == 0 {
        0
    } else {
        sum_of_value(faces.drop_last(), v) + if faces.last().value == v {
            faces.last().value as nat
        } else {
            0nat
        }
    }
}

/// Whether some die of `faces` shows `v`.
pub open spec fn shows(faces: Seq<DieFace>, v: int) -> bool {
    count_value(faces, v) > 0
}

/// Whether all dice show the same value.
pub open spec fn all_same(faces: Seq<DieFace>) -> bool {
    forall|i: int| 0 <= i < faces.len() ==> #[trigger] faces[i].value == faces[0].value
}

/// Recursive definitions read a prefix one die shorter than the next one.
pub proof fn lemma_prefix_step(faces: Seq<DieFace>, i: int)
    requires
        0 <= i < faces.len(),
    ensures
        faces.subrange(0, i + 1).drop_last() == faces.subrange(0, i),
        faces.subrange(0, i + 1).last() == faces[i],
{
    assert(faces.subrange(0, i + 1).drop_last() =~= faces.subrange(0, i));
}

pub proof fn lemma_sum_values_bound(faces: Seq<DieFace>)
    requires
        forall|i: int| 0 <= i < faces.len() ==> #[trigger] faces[i].value <= 6,
    ensures
        sum_values(faces) <= 6 * faces.len(),
    decreases faces.len(),
{
    if faces.len() > 0 {
        let p = faces.drop_last();
        assert forall|i: int| 0 <= i < p.len() implies #[trigger] p[i].value <= 6 by {
            assert(p[i] == faces[i]);
        }
        lemma_sum_values_bound(p);
    }
}

pub proof fn lemma_sum_of_value_bound(faces: Seq<DieFace>, v: int)
    ensures
        sum_of_value(faces, v) <= sum_values(faces),
    decreases faces.len(),
{
    if faces.len() > 0 {
        lemma_sum_of_value_bound(faces.drop_last(), v);
    }
}

/// Sums the face values of `faces`.
pub fn face_total(faces: &Vec<DieFace>) -> (r: u32)
    requires
        faces.len() <= 5,
    ensures
        r == sum_values(faces@),
{
    let mut total: u32 = 0;
    let mut i: usize = 0;
    while i < faces.len()
        invariant
            i <= faces.len() <= 5,
            total == sum_values(faces@.subrange(0, i as int)),
            total <= 255 * i,
        decreases faces.len() - i,
    {
        proof {
            lemma_prefix_step(faces@, i as int);
        }
        total = total + faces[i].value as u32;
        i = i + 1;
    }
    assert(faces@.subrange(0, faces.len() as int) =~= faces@);
    total
}

} // verus!
