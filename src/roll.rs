use rand::Rng;
use vstd::prelude::*;
use crate::parse::{die_of, die_terms_of, modifiers_of, split_die, split_dice_string, split_on};

verus! {

/// Number of dice rolled for a term with the given count: counts below two roll one die.
pub open spec fn dice_count(count: i32) -> int {
    if count > 1 {
        count as int
    } else {
        1
    }
}

/// The sum of a sequence of integers.
pub open spec fn seq_sum(s: Seq<i32>) -> int
    decreases s.len(),
{
    if s.len() == 0 {
        0
    } else {
        seq_sum(s.drop_last()) + s.last()
    }
}

/// Why a dice expression could not be rolled.
#[derive(Clone, Copy, Debug, PartialEq, Eq, Structural)]
pub enum DiceError {
    /// A die term has no `d`, or its count or size is not an integer.
    MalformedDieTerm,
    /// A die term asks for dice with fewer than one face.
    NonPositiveDieSize,
}

/// The dice rolled for one die term, in roll order.
pub struct TermRoll {
    pub count: i32,
    pub size: i32,
    pub rolls: Vec<i32>,
}

impl TermRoll {
    /// The dice are real (one face or more), as many were rolled as the count asks, and each
    /// shows a face of the die.
    pub open spec fn wf(&self) -> bool {
        &&& self.size >= 1
        &&& self.rolls@.len() == dice_count(self.count)
        &&& forall|i: int| 0 <= i < self.rolls@.len() ==> 1 <= #[trigger] self.rolls@[i] <= self.size
    }

    /// What the dice of this term add up to.
    pub open spec fn sum(&self) -> int {
        seq_sum(self.rolls@)
    }
}

/// The sum of all dice of all terms.
pub open spec fn terms_sum(terms: Seq<TermRoll>) -> int
    decreases terms.len(),
{
    if terms.len() == 0 {
        0
    } else {
        terms_sum(terms.drop_last()) + terms.last().sum()
    }
}

/// Relies on rand's `thread_rng` and `Rng::gen_range` over `1..=size`: the value lies in that
/// range. `gen_range` panics on an empty range, which the `requires` rules out.
#[verifier::external_body]
fn draw_roll(size: i32) -> (r: i32)
    requires
        size >= 1,
    ensures
        1 <= r <= size,
{
    rand::thread_rng().gen_range(1..=size)
}

/// Rolls the dice of one term: `count` dice when `count` is above one, else a single die,
/// each showing a value from 1 to `size`.
pub fn roll_dice(count: i32, size: i32) -> (rolls: Vec<i32>)
    requires
        size >= 1,
    ensures
        rolls@.len() == dice_count(count),
        forall|i: int| 0 <= i < rolls@.len() ==> 1 <= #[trigger] rolls@[i] <= size,
{
    let n: i32 = if count > 1 {
        count
    } else {
        1
    };
    let mut rolls: Vec<i32> = Vec::new();
    let mut i: i32 = 0;
    while i < n
        invariant
            0 <= i <= n,
            n == dice_count(count),
            size >= 1,
            rolls@.len() == i,
            forall|j: int| 0 <= j < rolls@.len() ==> 1 <= #[trigger] rolls@[j] <= size,
        decreases n - i,
    {
        let result = draw_roll(size);
        rolls.push(result);
        i = i + 1;
    }
    rolls
}

/// Adds up one term's dice.
pub fn term_total(rolls: &Vec<i32>) -> (total: i64)
    requires
        rolls@.len() <= i32::MAX,
        forall|i: int| 0 <= i < rolls@.len() ==> 0 <= #[trigger] rolls@[i],
    ensures
        total == seq_sum(rolls@),
        0 <= total <= rolls@.len() * i32::MAX,
{
    let mut total: i64 = 0;
    let mut i: usize = 0;
    while i < rolls.len()
        invariant
            i <= rolls@.len() <= i32::MAX,
            forall|j: int| 0 <= j < rolls@.len() ==> 0 <= #[trigger] rolls@[j],
            total == seq_sum(rolls@.take(i as int)),
            0 <= total <= i * i32::MAX,
        decreases rolls@.len() - i,
    {
        assert(rolls@.take(i + 1).drop_last() =~= rolls@.take(i as int));
        total = total + rolls[i] as i64;
        i = i + 1;
    }
    assert(rolls@.take(rolls@.len() as int) =~= rolls@);
    total
}

/// The grand total: every die of every term and then every modifier.
pub fn total_roll(terms: &Vec<TermRoll>, modifiers: &Vec<i32>) -> (total: i128)
    requires
        forall|k: int| 0 <= k < terms@.len() ==> (#[trigger] terms@[k]).wf(),
    ensures
        total == terms_sum(terms@) + seq_sum(modifiers@),
{
    let n_terms = terms.len();
    let n_modifiers = modifiers.len();
    let mut total: i128 = 0;
    let mut k: usize = 0;
    while k < terms.len()
        invariant
            k <= terms@.len() == n_terms,
            forall|t: int| 0 <= t < terms@.len() ==> (#[trigger] terms@[t]).wf(),
            total == terms_sum(terms@.take(k as int)),
            0 <= total <= k * 4611686014132420609,
        decreases terms@.len() - k,
    {
        assert(terms@.take(k + 1).drop_last() =~= terms@.take(k as int));
        let term = &terms[k];
        assert(term.wf());
        let sum = term_total(&term.rolls);
        total = total + sum as i128;
        k = k + 1;
    }
    assert(terms@.take(terms@.len() as int) =~= terms@);
    let ghost dice = total as int;
    let mut j: usize = 0;
    while j < modifiers.len()
        invariant
            j <= modifiers@.len() == n_modifiers,
            0 <= dice <= usize::MAX * 4611686014132420609,
            total == dice + seq_sum(modifiers@.take(j as int)),
            dice - j * 2147483648 <= total <= dice + j * 2147483648,
        decreases modifiers@.len() - j,
    {
        assert(modifiers@.take(j + 1).drop_last() =~= modifiers@.take(j as int));
        total = total + modifiers[j] as i128;
        j = j + 1;
    }
    assert(modifiers@.take(modifiers@.len() as int) =~= modifiers@);
    total
}

/// What is wrong with a die term, if anything: no count and size, or dice without faces.
pub open spec fn term_error(term: Seq<char>) -> Option<DiceError> {
    match die_of(term) {
        None => Some(DiceError::MalformedDieTerm),
        Some((count, size)) => if size < 1 {
            Some(DiceError::NonPositiveDieSize)
        } else {
            None
        },
    }
}

/// The first error among die terms, in the order of the expression, is `e`.
pub open spec fn first_error(terms: Seq<Seq<char>>, e: DiceError) -> bool {
    exists|k: int|
        0 <= k < terms.len() && term_error(#[trigger] terms[k]) == Some(e) && forall|j: int|
            0 <= j < k ==> term_error(#[trigger] terms[j]) is None
}

/// One roll of a whole dice expression.
pub struct DiceRoll {
    /// The modifiers, in the order of the expression.
    pub modifiers: Vec<i32>,
    /// The die terms with their dice, in the order of the expression.
    pub terms: Vec<TermRoll>,
    /// Every die of every term plus every modifier.
    pub total: i128,
}

impl DiceRoll {
    /// Each term's dice are valid and the total adds up all dice and all modifiers.
    pub open spec fn wf(&self) -> bool {
        &&& forall|k: int| 0 <= k < self.terms@.len() ==> (#[trigger] self.terms@[k]).wf()
        &&& self.total == terms_sum(self.terms@) + seq_sum(self.modifiers@)
    }
}

/// Rolls a dice expression such as `2d6+1d4+3`: every die term is parsed, then rolled in order,
/// and the total adds every die and every modifier. Fails with the error of the first die term
/// that is malformed or has dice of fewer than one face, before any die is rolled.
pub fn roll_expression(dice_string: &str) -> (r: Result<DiceRoll, DiceError>)
    ensures
        ({
            let pieces = split_on(dice_string@, '+');
            let terms = die_terms_of(pieces);
            match r {
                Ok(roll) => {
                    &&& forall|k: int| 0 <= k < terms.len() ==> term_error(#[trigger] terms[k]) is None
                    &&& roll.wf()
                    &&& roll.modifiers@ == modifiers_of(pieces)
                    &&& roll.terms@.len() == terms.len()
                    &&& forall|k: int|
                        0 <= k < terms.len() ==> die_of(#[trigger] terms[k]) == Some(
                            (roll.terms@[k].count, roll.terms@[k].size),
                        )
                },
                Err(e) => first_error(terms, e),
            }
        }),
{
    let (dice_modifiers, dice_rolls) = split_dice_string(dice_string);
    let ghost terms = die_terms_of(split_on(dice_string@, '+'));
    let mut dice: Vec<(i32, i32)> = Vec::new();
    let mut k: usize = 0;
    while k < dice_rolls.len()
        invariant
            k <= dice_rolls@.len(),
            terms == die_terms_of(split_on(dice_string@, '+')),
            dice_rolls@.map_values(|t: &str| t@) == terms,
            dice@.len() == k,
            forall|j: int| 0 <= j < k ==> term_error(#[trigger] terms[j]) is None,
            forall|j: int| 0 <= j < k ==> die_of(#[trigger] terms[j]) == Some(dice@[j]),
        decreases dice_rolls@.len() - k,
    {
        let term = dice_rolls[k];
        assert(terms[k as int] == term@);
        match split_die(term) {
            None => {
                assert(term_error(terms[k as int]) == Some(DiceError::MalformedDieTerm));
                assert(first_error(terms, DiceError::MalformedDieTerm));
                return Err(DiceError::MalformedDieTerm);
            },
            Some((count, size)) => {
                if size < 1 {
                    assert(term_error(terms[k as int]) == Some(DiceError::NonPositiveDieSize));
                assert(first_error(terms, DiceError::NonPositiveDieSize));
                    return Err(DiceError::NonPositiveDieSize);
                }
                dice.push((count, size));
            },
        }
        k = k + 1;
    }
    let mut rolled: Vec<TermRoll> = Vec::new();
    let mut k: usize = 0;
    while k < dice.len()
        invariant
            k <= dice@.len() == terms.len(),
            forall|j: int| 0 <= j < terms.len() ==> term_error(#[trigger] terms[j]) is None,
            forall|j: int| 0 <= j < terms.len() ==> die_of(#[trigger] terms[j]) == Some(dice@[j]),
            rolled@.len() == k,
            forall|j: int| 0 <= j < k ==> (#[trigger] rolled@[j]).wf(),
            forall|j: int|
                0 <= j < k ==> dice@[j] == (#[trigger] rolled@[j].count, rolled@[j].size),
        decreases dice@.len() - k,
    {
        let (count, size) = dice[k];
        assert(die_of(terms[k as int]) == Some(dice@[k as int]));
        let rolls = roll_dice(count, size);
        rolled.push(TermRoll { count, size, rolls });
        k = k + 1;
    }
    let total = total_roll(&rolled, &dice_modifiers);
    Ok(DiceRoll { modifiers: dice_modifiers, terms: rolled, total })
}

} // verus!
