use vstd::prelude::*;
use vstd::string::StringSliceAdditionalSpecFns;
use vstd::arithmetic::div_mod::lemma_div_is_ordered_by_denominator;
use vstd::arithmetic::power::{pow, lemma_pow_increases, lemma_pow_positive};
use vstd::arithmetic::power2::{pow2, lemma2_to64, lemma2_to64_rest};
use crate::parse::{parse_list, split_fields, unsigned_value, InvalidNumber};

verus! {

/// Bricks needed for a wall of length `l`: each spell number `x` lays `l / x` bricks.
pub open spec fn bricks(spell: Seq<u64>, l: int) -> int
    decreases spell.len(),
{
    if spell.len() == 0 {
        0
    } else {
        bricks(spell.drop_last(), l) + l / (spell.last() as int)
    }
}

pub open spec fn positive(spell: Seq<u64>) -> bool {
    forall|i: int| 0 <= i < spell.len() ==> #[trigger] spell[i] > 0
}

pub open spec fn saturate(x: int) -> int {
    if x > u64::MAX {
        u64::MAX as int
    } else {
        x
    }
}

proof fn lemma_bricks_nonneg(spell: Seq<u64>, l: int)
    requires
        positive(spell),
        l >= 0,
    ensures
        bricks(spell, l) >= 0,
        l == 0 ==> bricks(spell, l) == 0,
    decreases spell.len(),
{
    if spell.len() > 0 {
        assert(spell.last() > 0);
        assert(positive(spell.drop_last())) by {
            assert forall|i: int| 0 <= i < spell.drop_last().len() implies #[trigger] spell.drop_last()[i] > 0 by {
                assert(spell.drop_last()[i] == spell[i]);
            }
        }
        lemma_bricks_nonneg(spell.drop_last(), l);
        assert(l / (spell.last() as int) >= 0) by (nonlinear_arith)
            requires
                l >= 0,
                spell.last() > 0,
        ;
        if l == 0 {
            assert(0int / (spell.last() as int) == 0);
        }
    }
}

/// The bricks a spell lays for a wall of length `wall_length`, at most `u64::MAX`.
pub fn bricks_for_wall_length(spell: &[u64], wall_length: u64) -> (r: u64)
    requires
        positive(spell@),
    ensures
        r == saturate(bricks(spell@, wall_length as int)),
{
    let mut acc: u64 = 0;
    let mut i: usize = 0;
    while i < spell.len()
        invariant
            positive(spell@),
            i <= spell@.len(),
            acc == saturate(bricks(spell@.subrange(0, i as int), wall_length as int)),
            bricks(spell@.subrange(0, i as int), wall_length as int) >= 0,
        decreases spell@.len() - i,
    {
        let ghost pre = spell@.subrange(0, i as int);
        let ghost post = spell@.subrange(0, i + 1);
        proof {
            assert(post.drop_last() =~= pre);
            assert(spell@[i as int] > 0);
        }
        let t = wall_length / spell[i];
        acc = acc.saturating_add(t);
        i = i + 1;
    }
    proof {
        assert(spell@.subrange(0, i as int) =~= spell@);
    }
    acc
}

/// The set of the spell's numbers, given as wall columns: column `i` (from 0) of the
/// wall holds how many of the numbers divide `i + 1`. Returns the numbers in order.
pub fn spell_for_wall(wall: &[u64]) -> (spell: Vec<u64>)
    requires
        wall@.len() < u64::MAX,
    ensures
        forall|i: int, j: int| 0 <= i < j < spell@.len() ==> spell@[i] < spell@[j],
        forall|i: int| 0 <= i < spell@.len() ==> 1 <= #[trigger] spell@[i] <= wall@.len(),
        spell@.len() <= wall@.len(),
{
    let mut wall = vstd::slice::slice_to_vec(wall);
    let n = wall.len();
    let mut spell: Vec<u64> = Vec::new();
    let mut i: usize = 0;
    while i < n
        invariant
            n == wall@.len(),
            n < u64::MAX,
            i <= n,
            forall|a: int, b: int| 0 <= a < b < spell@.len() ==> spell@[a] < spell@[b],
            forall|a: int| 0 <= a < spell@.len() ==> 1 <= #[trigger] spell@[a] <= i,
            spell@.len() <= i,
        decreases n - i,
    {
        let x = wall[i];
        if x != 0 {
            spell.push(i as u64 + 1);
            let mut j: usize = i;
            while j < n
                invariant
                    n == wall@.len(),
                    i < n,
                    i <= j,
                decreases n - j,
            {
                let y = wall[j];
                wall.set(j, y.saturating_sub(1));
                if n - j <= i + 1 {
                    j = n;
                } else {
                    j = j + i + 1;
                }
            }
        }
        i = i + 1;
    }
    spell
}

/// The product of numbers that are all at least 1, at most `u64::MAX`.
pub fn saturating_product_positive(v: &[u64]) -> (r: u64)
    requires
        forall|i: int| 0 <= i < v@.len() ==> #[trigger] v@[i] >= 1,
    ensures
        v@.len() == 0 ==> r == 1,
        r >= 1,
{
    let mut acc: u64 = 1;
    let mut i: usize = 0;
    while i < v.len()
        invariant
            i <= v@.len(),
            acc >= 1,
            forall|k: int| 0 <= k < v@.len() ==> #[trigger] v@[k] >= 1,
            v@.len() == 0 ==> acc == 1,
        decreases v@.len() - i,
    {
        acc = match acc.checked_mul(v[i]) {
            Some(p) => {
                proof {
                    assert(acc * v@[i as int] >= 1) by (nonlinear_arith)
                        requires
                            acc >= 1,
                            v@[i as int] >= 1,
                    ;
                }
                p
            },
            None => u64::MAX,
        };
        i = i + 1;
    }
    acc
}

/// The bricks that the wall of part three must use.
pub const TARGET_BRICKS: u64 = 202520252025000;

/// The wall puzzle: spells are sets of numbers, walls count their multiples.
pub struct Day16;

impl Day16 {
    /// Reads the comma-separated numbers.
    pub fn parse(input: &str) -> (r: Result<Vec<u64>, InvalidNumber>)
        ensures
            r matches Ok(v) ==> {
                let f = split_fields(input.spec_bytes(), 44u8);
                &&& v@.len() == f.len()
                &&& forall|j: int|
                    0 <= j < v@.len() ==> unsigned_value(#[trigger] f[j]) == Some(v@[j] as int)
            },
            r is Err <==> exists|j: int|
                0 <= j < split_fields(input.spec_bytes(), 44u8).len() && !(match unsigned_value(
                    #[trigger] split_fields(input.spec_bytes(), 44u8)[j],
                ) {
                    Some(x) => x <= u64::MAX,
                    None => false,
                }),
    {
        parse_list(input.as_bytes(), 44u8, u64::MAX)
    }

    /// Bricks the spell lays on a wall of length 90.
    pub fn part_1(input: &Vec<u64>) -> (r: u64)
        requires
            positive(input@),
        ensures
            r == saturate(bricks(input@, 90)),
    {
        bricks_for_wall_length(input.as_slice(), 90)
    }

    /// The product of the spell's numbers recovered from the wall.
    pub fn part_2(input: &Vec<u64>) -> (r: u64)
        requires
            input@.len() < u64::MAX,
        ensures
            input@.len() == 0 ==> r == 1,
            r >= 1,
    {
        let spell = spell_for_wall(input.as_slice());
        saturating_product_positive(spell.as_slice())
    }

    /// The longest wall, by binary search, that the recovered spell builds from the
    /// target number of bricks.
    pub fn part_3(input: &Vec<u64>) -> (r: u64)
        requires
            input@.len() <= 40000,
        ensures
            r == 0 || exists|spell: Seq<u64>|
                positive(spell) && saturate(bricks(spell, r as int)) <= TARGET_BRICKS && (saturate(
                    bricks(spell, r as int),
                ) == TARGET_BRICKS || saturate(#[trigger] bricks(spell, r + 1)) > TARGET_BRICKS),
    {
        let spell = spell_for_wall(input.as_slice());
        if spell.len() == 0 {
            return 0;
        }
        let r = longest_wall(spell.as_slice(), TARGET_BRICKS);
        proof {
            let sp = spell@;
            assert(positive(sp) && saturate(bricks(sp, r as int)) <= TARGET_BRICKS && (saturate(
                bricks(sp, r as int),
            ) == TARGET_BRICKS || saturate(bricks(sp, r + 1)) > TARGET_BRICKS));
        }
        r
    }
}

/// The length of a wall built from exactly `target` bricks, or the longest one that
/// needs fewer bricks than `target`.
pub fn longest_wall(spell: &[u64], target: u64) -> (r: u64)
    requires
        positive(spell@),
        spell@.len() > 0,
        spell@.len() < u64::MAX,
        forall|i: int| 0 <= i < spell@.len() ==> #[trigger] spell@[i] <= 40000,
        target <= 230000000000000,
    ensures
        saturate(bricks(spell@, r as int)) <= target,
        saturate(bricks(spell@, r as int)) == target || saturate(bricks(spell@, r + 1)) > target,
{
    let mut high: u64 = 1;
    let ghost mut k: nat = 0;
    proof {
        reveal(pow);
        lemma2_to64();
        lemma2_to64_rest();
        lemma_pow_positive(2, 63);
        lemma_top_wall_suffices(spell@, target);
    }
    while bricks_for_wall_length(spell, high) < target
        invariant
            positive(spell@),
            high == pow(2, k),
            k <= 63,
            saturate(bricks(spell@, pow(2, 63))) >= target,
            pow2(63) == 0x8000000000000000,
            k > 0 ==> saturate(bricks(spell@, high as int / 2)) < target,
        decreases 63 - k,
    {
        proof {
            if k == 63 {
                assert(pow(2, k) == pow2(63));
            }
            assert(k < 63);
            lemma_pow_increases(2, k + 1, 63);
            reveal(pow);
            assert(pow(2, k + 1) == 2 * pow(2, k));
        }
        high = high * 2;
        proof {
            k = k + 1;
        }
    }
    let mut low: u64 = high / 2;
    let ghost high0 = high;
    proof {
        lemma_pow_increases(2, k, 63);
        if k == 0 {
            lemma_bricks_nonneg(spell@, 0);
        }
    }
    while low < high
        invariant
            positive(spell@),
            low <= high <= high0,
            high0 <= 0x8000000000000000,
            saturate(bricks(spell@, low as int)) <= target,
            saturate(bricks(spell@, high0 as int)) >= target,
            high < high0 ==> saturate(bricks(spell@, high + 1)) > target,
        decreases high - low,
    {
        let mid = low + (high - low + 1) / 2;
        let res = bricks_for_wall_length(spell, mid);
        if res > target {
            high = mid - 1;
        } else if res == target {
            return mid;
        } else {
            low = mid;
        }
    }
    low
}

/// A wall of length `2^63` needs more bricks than any target the puzzle uses.
proof fn lemma_top_wall_suffices(spell: Seq<u64>, target: u64)
    requires
        positive(spell),
        spell.len() > 0,
        spell.len() < u64::MAX,
        forall|i: int| 0 <= i < spell.len() ==> #[trigger] spell[i] <= 40000,
        target <= 230000000000000,
    ensures
        saturate(bricks(spell, pow(2, 63))) >= target,
{
    lemma2_to64();
    lemma2_to64_rest();
    lemma_pow_positive(2, 63);
    let l = pow(2, 63);
    assert(l == 0x8000000000000000);
    let x = spell.last() as int;
    assert(spell[spell.len() - 1] <= 40000);
    assert(1 <= x <= 40000);
    assert(positive(spell.drop_last())) by {
        assert forall|i: int| 0 <= i < spell.drop_last().len() implies #[trigger] spell.drop_last()[i] > 0 by {
            assert(spell.drop_last()[i] == spell[i]);
        }
    }
    lemma_bricks_nonneg(spell.drop_last(), l);
    lemma_div_is_ordered_by_denominator(l, x, 40000);
    assert(l / 40000 == 230584300921369int);
}

} // verus!
