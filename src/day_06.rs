use vstd::prelude::*;

verus! {

/// The letter of the tent row at position `k`: `x` (nobody) outside `0..n`.
fn letter_at(b: &[u8], k: usize, n: usize) -> (c: u8)
    requires
        b@.len() > 0,
    ensures
        k < n ==> c == b@[(k as int) % (b@.len() as int)],
        k >= n ==> c == 120u8,
{
    if k < n {
        b[k % b.len()]
    } else {
        120u8
    }
}

/// Counts, for each of the three kinds, the pairs of a novice (`a`, `b`, `c`) and a
/// mentor of the same kind (`A`, `B`, `C`) at most `behind` places before or `ahead`
/// places after it, in the row `input` repeated `cycles` times. Counts are kept within
/// `usize`.
pub fn number_of_pairings(input: &str, cycles: usize, behind: usize, ahead: usize) -> (r: [usize; 3])
{
    let b = input.as_bytes();
    let len = b.len();
    if len == 0 {
        return [0, 0, 0];
    }
    let n: usize = match len.checked_mul(cycles) {
        Some(v) => v,
        None => usize::MAX,
    };
    let window: usize = behind.saturating_add(ahead);
    let steps: usize = n.saturating_add(ahead);
    let mut mentors: [usize; 3] = [0, 0, 0];
    let mut pairs: [usize; 3] = [0, 0, 0];
    let mut k: usize = 0;
    while k < steps
        invariant
            b@.len() == len,
            len > 0,
        decreases steps - k,
    {
        let add = letter_at(b, k, n);
        if 65 <= add && add <= 67 {
            let i = (add - 65) as usize;
            mentors[i] = mentors[i].saturating_add(1);
        }
        let query = if k < ahead {
            120u8
        } else {
            letter_at(b, k - ahead, n)
        };
        if 97 <= query && query <= 99 {
            let i = (query - 97) as usize;
            pairs[i] = pairs[i].saturating_add(mentors[i]);
        }
        let remove = if k < window {
            120u8
        } else {
            b[(k - window) % len]
        };
        if 65 <= remove && remove <= 67 {
            let i = (remove - 65) as usize;
            mentors[i] = mentors[i].saturating_sub(1);
        }
        k = k + 1;
    }
    pairs
}

/// The same counts for a long row: after enough repeats every further repeat adds
/// the same amount, so two counts give the rest.
pub fn number_of_pairings_shortcut(input: &str, cycles: usize, behind: usize, ahead: usize) -> (r: [usize; 3])
{
    let len = input.len();
    if len == 0 {
        return [0, 0, 0];
    }
    let span = ahead.saturating_add(behind).saturating_add(1);
    let q = span / len;
    // Rounded up; a remainder needs `len >= 2`, so `q` is then below `usize::MAX`.
    let until_repeat = if span % len != 0 && q < usize::MAX {
        q + 1
    } else {
        q
    };
    if cycles / 2 <= until_repeat {
        return number_of_pairings(input, cycles, behind, ahead);
    }
    let first = number_of_pairings(input, until_repeat, behind, ahead);
    let second = number_of_pairings(input, until_repeat + 1, behind, ahead);
    let mut r: [usize; 3] = [0, 0, 0];
    let mut ix: usize = 0;
    while ix < 3
        invariant
            cycles / 2 > until_repeat,
        decreases 3 - ix,
    {
        let step = second[ix].saturating_sub(first[ix]);
        let extra = match step.checked_mul(cycles - until_repeat) {
            Some(v) => v,
            None => usize::MAX,
        };
        r[ix] = first[ix].saturating_add(extra);
        ix = ix + 1;
    }
    r
}

fn sum3(v: [usize; 3]) -> (s: usize)
{
    v[0].saturating_add(v[1]).saturating_add(v[2])
}

/// The mentor puzzle: novices paired with mentors of their kind along a row of tents.
pub struct Day06;

impl Day06 {
    pub fn parse(input: &str) -> (r: String)
        ensures
            r@ == input@,
    {
        input.to_owned()
    }

    /// Pairs of the first kind in one row, any mentor before the novice.
    pub fn part_1(input: &String) -> (r: usize)
    {
        let s = input.as_str();
        number_of_pairings(s, 1, s.len(), 0)[0]
    }

    /// Pairs of all kinds in one row, any mentor before the novice.
    pub fn part_2(input: &String) -> (r: usize)
    {
        let s = input.as_str();
        sum3(number_of_pairings(s, 1, s.len(), 0))
    }

    /// Pairs of all kinds in the row repeated a thousand times, mentors within a
    /// thousand places either way.
    pub fn part_3(input: &String) -> (r: usize)
    {
        sum3(number_of_pairings_shortcut(input.as_str(), 1000, 1000, 1000))
    }
}

} // verus!
