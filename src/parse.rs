use vstd::prelude::*;

verus! {

/// The pieces of `s` between occurrences of `sep`, in order; `s` without `sep` is one piece,
/// and the empty text is one empty piece.
pub open spec fn split_on(s: Seq<char>, sep: char) -> Seq<Seq<char>>
    decreases s.len(),
{
    if s.len() == 0 {
        seq![Seq::empty()]
    } else {
        let pieces = split_on(s.drop_last(), sep);
        if s.last() == sep {
            pieces.push(Seq::empty())
        } else {
            pieces.update(pieces.len() - 1, pieces.last().push(s.last()))
        }
    }
}

/// Splits `s` at every `sep`, keeping the pieces in order.
pub fn split_on_char<'a>(s: &'a str, sep: char) -> (pieces: Vec<&'a str>)
    ensures
        pieces@.map_values(|p: &str| p@) == split_on(s@, sep),
{
    let n = s.unicode_len();
    let mut pieces: Vec<&'a str> = Vec::new();
    let mut start: usize = 0;
    let mut i: usize = 0;
    assert(s@.take(0) =~= Seq::<char>::empty());
    assert(pieces@.map_values(|p: &str| p@).push(s@.subrange(0, 0)) =~= seq![Seq::<char>::empty()]);
    while i < n
        invariant
            n == s@.len(),
            start <= i <= n,
            split_on(s@.take(i as int), sep) == pieces@.map_values(|p: &str| p@).push(
                s@.subrange(start as int, i as int),
            ),
        decreases n - i,
    {
        let c = s.get_char(i);
        let ghost done = pieces@.map_values(|p: &str| p@);
        let ghost current = s@.subrange(start as int, i as int);
        proof {
            let next = s@.take(i + 1);
            assert(next.drop_last() =~= s@.take(i as int));
            assert(next.last() == c);
            assert(split_on(next, sep) == if c == sep {
                done.push(current).push(Seq::empty())
            } else {
                done.push(current).update(done.len() as int, current.push(c))
            });
        }
        if c == sep {
            let piece = s.substring_char(start, i);
            pieces.push(piece);
            start = i + 1;
            assert(pieces@.map_values(|p: &str| p@) =~= done.push(current));
            assert(s@.subrange(start as int, i + 1) =~= Seq::<char>::empty());
        } else {
            assert(s@.subrange(start as int, i + 1) =~= current.push(c));
            assert(done.push(current).update(done.len() as int, current.push(c)) =~= done.push(
                current.push(c),
            ));
        }
        i = i + 1;
    }
    let last = s.substring_char(start, n);
    pieces.push(last);
    assert(s@.take(n as int) =~= s@);
    assert(pieces@.map_values(|p: &str| p@) =~= split_on(s@, sep));
    pieces
}

/// A decimal digit `0` to `9`.
pub open spec fn is_digit(c: char) -> bool {
    '0' <= c <= '9'
}

/// One or more decimal digits and nothing else.
pub open spec fn all_digits(s: Seq<char>) -> bool {
    s.len() > 0 && forall|i: int| 0 <= i < s.len() ==> is_digit(#[trigger] s[i])
}

/// The number that a run of decimal digits denotes.
pub open spec fn digits_value(s: Seq<char>) -> int
    decreases s.len(),
{
    if s.len() == 0 {
        0
    } else {
        digits_value(s.drop_last()) * 10 + (s.last() as int - '0' as int)
    }
}

/// The integer that `s` writes: an optional `+` or `-` and then one or more decimal digits.
pub open spec fn decimal_value(s: Seq<char>) -> Option<int> {
    if s.len() > 0 && s[0] == '-' && all_digits(s.drop_first()) {
        Some(-digits_value(s.drop_first()))
    } else if s.len() > 0 && s[0] == '+' && all_digits(s.drop_first()) {
        Some(digits_value(s.drop_first()))
    } else if all_digits(s) {
        Some(digits_value(s))
    } else {
        None
    }
}

/// The `i32` that `s` writes, if it writes one in range.
pub open spec fn int_of(s: Seq<char>) -> Option<i32> {
    match decimal_value(s) {
        Some(v) => if i32::MIN <= v <= i32::MAX {
            Some(v as i32)
        } else {
            None
        },
        None => None,
    }
}

/// Relies on `<i32 as FromStr>::from_str`: an optional sign and then decimal digits only, in
/// the range of `i32`; anything else, the empty text included, is an error.
#[verifier::external_body]
fn parse_i32(s: &str) -> (r: Option<i32>)
    ensures
        r == int_of(s@),
{
    s.parse::<i32>().ok()
}

/// The pieces of a dice expression that are modifiers, as integers, in order.
pub open spec fn modifiers_of(pieces: Seq<Seq<char>>) -> Seq<i32>
    decreases pieces.len(),
{
    if pieces.len() == 0 {
        Seq::empty()
    } else {
        let rest = modifiers_of(pieces.drop_last());
        match int_of(pieces.last()) {
            Some(v) => rest.push(v),
            None => rest,
        }
    }
}

/// The pieces of a dice expression that are not integers, in order: the die terms.
pub open spec fn die_terms_of(pieces: Seq<Seq<char>>) -> Seq<Seq<char>>
    decreases pieces.len(),
{
    if pieces.len() == 0 {
        Seq::empty()
    } else {
        let rest = die_terms_of(pieces.drop_last());
        match int_of(pieces.last()) {
            Some(v) => rest,
            None => rest.push(pieces.last()),
        }
    }
}

/// Splits a dice expression at each `+` into its modifiers (pieces that are integers) and its
/// die terms (all other pieces), each kept in the order of the expression.
pub fn split_dice_string<'a>(dice_string: &'a str) -> (r: (Vec<i32>, Vec<&'a str>))
    ensures
        r.0@ == modifiers_of(split_on(dice_string@, '+')),
        r.1@.map_values(|t: &str| t@) == die_terms_of(split_on(dice_string@, '+')),
{
    let dice = split_on_char(dice_string, '+');
    let ghost pieces = split_on(dice_string@, '+');
    let mut dice_modifiers: Vec<i32> = Vec::new();
    let mut dice_rolls: Vec<&'a str> = Vec::new();
    let mut i: usize = 0;
    while i < dice.len()
        invariant
            i <= dice@.len(),
            dice@.map_values(|p: &str| p@) == pieces,
            dice_modifiers@ == modifiers_of(pieces.take(i as int)),
            dice_rolls@.map_values(|t: &str| t@) == die_terms_of(pieces.take(i as int)),
        decreases dice@.len() - i,
    {
        let die = dice[i];
        proof {
            assert(pieces.take(i + 1).drop_last() =~= pieces.take(i as int));
            assert(pieces[i as int] == die@);
        }
        match parse_i32(die) {
            Some(modifier) => {
                dice_modifiers.push(modifier);
            },
            None => {
                let ghost before = dice_rolls@.map_values(|t: &str| t@);
                dice_rolls.push(die);
                assert(dice_rolls@.map_values(|t: &str| t@) =~= before.push(die@));
            },
        }
        i = i + 1;
    }
    assert(pieces.take(dice@.len() as int) =~= pieces);
    (dice_modifiers, dice_rolls)
}

/// The count and size that a die term `<count>d<size>` writes: the text before the first `d`
/// and the text between it and the next `d` (or the end) must both be integers.
#[verifier::opaque]
pub open spec fn die_of(die: Seq<char>) -> Option<(i32, i32)> {
    let parts = split_on(die, 'd');
    if parts.len() >= 2 && int_of(parts[0]) is Some && int_of(parts[1]) is Some {
        Some((int_of(parts[0]).unwrap(), int_of(parts[1]).unwrap()))
    } else {
        None
    }
}

/// Splits a die term such as `3d8` into its count and size; `None` where the term has no `d`
/// or either side is not an integer.
pub fn split_die(die: &str) -> (r: Option<(i32, i32)>)
    ensures
        r == die_of(die@),
{
    reveal(die_of);
    let parts = split_on_char(die, 'd');
    assert(parts@.len() == split_on(die@, 'd').len());
    if parts.len() < 2 {
        return None;
    }
    assert(parts@[0]@ == split_on(die@, 'd')[0]);
    assert(parts@[1]@ == split_on(die@, 'd')[1]);
    match (parse_i32(parts[0]), parse_i32(parts[1])) {
        (Some(count), Some(size)) => Some((count, size)),
        _ => None,
    }
}

} // verus!
