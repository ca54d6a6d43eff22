use vstd::prelude::*;
use vstd::string::StringSliceAdditionalSpecFns;
use crate::parse::{parse_list, split_fields, InvalidNumber};

verus! {

pub open spec fn total(s: Seq<u64>) -> int
    decreases s.len(),
{
    if s.len() == 0 {
        0
    } else {
        total(s.drop_last()) + s.last()
    }
}

/// Each column's count weighted by its index: moving one bird one column right raises it by one.
pub open spec fn potential(s: Seq<u64>) -> int
    decreases s.len(),
{
    if s.len() == 0 {
        0
    } else {
        potential(s.drop_last()) + (s.len() - 1) * s.last()
    }
}

pub open spec fn abs_diff(a: int, b: int) -> int {
    if a >= b {
        a - b
    } else {
        b - a
    }
}

/// Sum of the distances of the counts from `avg`.
pub open spec fn deviation(s: Seq<u64>, avg: int) -> int
    decreases s.len(),
{
    if s.len() == 0 {
        0
    } else {
        deviation(s.drop_last(), avg) + abs_diff(avg, s.last() as int)
    }
}

proof fn lemma_update(s: Seq<u64>, i: int, x: u64)
    requires
        0 <= i < s.len(),
    ensures
        total(s.update(i, x)) == total(s) - s[i] + x,
        potential(s.update(i, x)) == potential(s) + i * (x - s[i]),
    decreases s.len(),
{
    let t = s.update(i, x);
    if i == s.len() - 1 {
        assert(t.drop_last() =~= s.drop_last());
        assert((s.len() - 1) * x - (s.len() - 1) * s[i] == i * (x - s[i])) by (nonlinear_arith)
            requires
                i == s.len() - 1,
        ;
    } else {
        lemma_update(s.drop_last(), i, x);
        assert(t.drop_last() =~= s.drop_last().update(i, x));
    }
}

proof fn lemma_bounds(s: Seq<u64>)
    ensures
        0 <= total(s),
        0 <= potential(s) <= (s.len() - 1) * total(s) || s.len() == 0,
        s.len() == 0 ==> potential(s) == 0,
    decreases s.len(),
{
    if s.len() > 0 {
        let d = s.drop_last();
        lemma_bounds(d);
        let n = s.len() as int;
        let l = s.last() as int;
        let td = total(d);
        let pd = potential(d);
        if d.len() == 0 {
            assert(pd == 0);
            assert((n - 1) * l == 0);
        } else {
            assert(pd + (n - 1) * l <= (n - 1) * (td + l)) by (nonlinear_arith)
                requires
                    0 <= pd <= (n - 2) * td,
                    0 <= td,
                    0 <= l,
                    n >= 2,
            ;
        }
        assert(0 <= (n - 1) * l) by (nonlinear_arith)
            requires
                n >= 1,
                l >= 0,
        ;
    }
}

proof fn lemma_deviation_nonneg(s: Seq<u64>, avg: int, i: int)
    requires
        0 <= i <= s.len(),
    ensures
        0 <= deviation(s.subrange(0, i), avg) <= deviation(s, avg),
    decreases s.len(),
{
    if i < s.len() {
        lemma_deviation_nonneg(s.drop_last(), avg, i);
        assert(s.drop_last().subrange(0, i) =~= s.subrange(0, i));
    } else {
        assert(s.subrange(0, i) =~= s);
        if s.len() > 0 {
            lemma_deviation_nonneg(s.drop_last(), avg, i - 1);
            assert(s.drop_last().subrange(0, i - 1) =~= s.drop_last());
        }
    }
}

proof fn lemma_total_prefix(s: Seq<u64>, i: int)
    requires
        0 <= i <= s.len(),
    ensures
        0 <= total(s.subrange(0, i)) <= total(s),
    decreases s.len(),
{
    lemma_bounds(s.subrange(0, i));
    if i < s.len() {
        lemma_total_prefix(s.drop_last(), i);
        assert(s.drop_last().subrange(0, i) =~= s.subrange(0, i));
    } else {
        assert(s.subrange(0, i) =~= s);
    }
}

/// One round of the first phase: each bird column with more birds than the next
/// passes one bird on. Returns whether any bird moved.
pub fn phase_1(nums: &mut Vec<u64>) -> (any_change: bool)
    ensures
        final(nums)@.len() == old(nums)@.len(),
        total(final(nums)@) == total(old(nums)@),
        any_change ==> potential(final(nums)@) > potential(old(nums)@),
        !any_change ==> final(nums)@ == old(nums)@,
{
    let n = nums.len();
    let mut any_change = false;
    if n == 0 {
        return false;
    }
    let mut i: usize = 0;
    while i < n - 1
        invariant
            n == nums@.len(),
            n >= 1,
            i <= n - 1,
            total(nums@) == total(old(nums)@),
            any_change ==> potential(nums@) > potential(old(nums)@),
            !any_change ==> nums@ == old(nums)@,
        decreases n - 1 - i,
    {
        let a = nums[i];
        let b = nums[i + 1];
        if a > b {
            let ghost s0 = nums@;
            nums.set(i, a - 1);
            let ghost s1 = nums@;
            nums.set(i + 1, b + 1);
            proof {
                lemma_update(s0, i as int, (a - 1) as u64);
                lemma_update(s1, i + 1, (b + 1) as u64);
                assert(i * ((a - 1) - a) + (i + 1) * ((b + 1) - b) == 1) by (nonlinear_arith);
            }
            any_change = true;
        }
        i = i + 1;
    }
    any_change
}

/// One round of the second phase: each bird column with fewer birds than the next
/// takes one bird from it. Returns whether any bird moved.
pub fn phase_2(nums: &mut Vec<u64>) -> (any_change: bool)
    ensures
        final(nums)@.len() == old(nums)@.len(),
        total(final(nums)@) == total(old(nums)@),
        !any_change ==> final(nums)@ == old(nums)@,
{
    let n = nums.len();
    let mut any_change = false;
    if n == 0 {
        return false;
    }
    let mut i: usize = 0;
    while i < n - 1
        invariant
            n == nums@.len(),
            n >= 1,
            i <= n - 1,
            total(nums@) == total(old(nums)@),
            !any_change ==> nums@ == old(nums)@,
        decreases n - 1 - i,
    {
        let a = nums[i];
        let b = nums[i + 1];
        if a < b {
            let ghost s0 = nums@;
            nums.set(i, a + 1);
            let ghost s1 = nums@;
            nums.set(i + 1, b - 1);
            proof {
                lemma_update(s0, i as int, (a + 1) as u64);
                lemma_update(s1, i + 1, (b - 1) as u64);
            }
            any_change = true;
        }
        i = i + 1;
    }
    any_change
}

/// Rounds the second phase needs once the columns are in increasing order: half the
/// distance of the counts from their average.
pub fn phase_2_fast(nums: &Vec<u64>) -> (r: u64)
    requires
        nums@.len() >= 1,
        total(nums@) <= u64::MAX,
        deviation(nums@, total(nums@) / nums@.len() as int) <= u64::MAX,
    ensures
        r == deviation(nums@, total(nums@) / nums@.len() as int) / 2,
{
    let n = nums.len();
    let mut sum: u64 = 0;
    let mut i: usize = 0;
    while i < n
        invariant
            n == nums@.len(),
            total(nums@) <= u64::MAX,
            i <= n,
            sum == total(nums@.subrange(0, i as int)),
        decreases n - i,
    {
        proof {
            assert(nums@.subrange(0, i + 1).drop_last() =~= nums@.subrange(0, i as int));
            lemma_total_prefix(nums@, i + 1);
        }
        sum = sum + nums[i];
        i = i + 1;
    }
    proof {
        assert(nums@.subrange(0, n as int) =~= nums@);
    }
    let avg = sum / n as u64;
    let ghost g = avg as int;
    let mut dev: u64 = 0;
    let mut j: usize = 0;
    while j < n
        invariant
            n == nums@.len(),
            g == total(nums@) / n as int,
            avg == g,
            deviation(nums@, g) <= u64::MAX,
            j <= n,
            dev == deviation(nums@.subrange(0, j as int), g),
        decreases n - j,
    {
        proof {
            assert(nums@.subrange(0, j + 1).drop_last() =~= nums@.subrange(0, j as int));
            lemma_deviation_nonneg(nums@, g, j + 1);
        }
        let x = nums[j];
        let d = if avg >= x {
            avg - x
        } else {
            x - avg
        };
        dev = dev + d;
        j = j + 1;
    }
    proof {
        assert(nums@.subrange(0, n as int) =~= nums@);
    }
    dev / 2
}

/// Sum of each column's count times its number (from 1), at most `u64::MAX`.
pub fn checksum(nums: &Vec<u64>) -> (r: u64)
{
    let mut acc: u64 = 0;
    let mut i: usize = 0;
    while i < nums.len()
        invariant
            i <= nums@.len(),
        decreases nums@.len() - i,
    {
        let w: u64 = if i as u64 == u64::MAX {
            u64::MAX
        } else {
            i as u64 + 1
        };
        let term = match nums[i].checked_mul(w) {
            Some(t) => t,
            None => u64::MAX,
        };
        acc = acc.saturating_add(term);
        i = i + 1;
    }
    acc
}

/// The flock puzzle: ducks spread between columns in two phases.
pub struct Day11;

impl Day11 {
    /// Reads one count per line.
    pub fn parse(input: &str) -> (r: Result<Vec<u64>, InvalidNumber>)
        ensures
            r matches Ok(v) ==> v@.len() == split_fields(input.spec_bytes(), 10u8).len(),
    {
        parse_list(input.as_bytes(), 10u8, u64::MAX)
    }

    /// The checksum after ten rounds, first of the first phase, then of the second.
    pub fn part_1(input: &Vec<u64>) -> (r: u64)
    {
        let mut nums = input.clone();
        let mut turns: u64 = 0;
        while turns < 10 && phase_1(&mut nums)
            invariant
                turns <= 10,
            decreases 10 - turns,
        {
            turns = turns + 1;
        }
        while turns < 10 && phase_2(&mut nums)
            invariant
                turns <= 10,
            decreases 10 - turns,
        {
            turns = turns + 1;
        }
        checksum(&nums)
    }

    /// Rounds until the flock is balanced: the first phase run out, then the second
    /// phase counted in one step.
    pub fn part_2(input: &Vec<u64>) -> (r: Option<u64>)
        requires
            input@.len() >= 1,
            input@.len() * total(input@) <= u64::MAX,
    {
        let mut nums = input.clone();
        let ghost t0 = total(nums@);
        let ghost p0 = potential(nums@);
        let mut turns: u64 = 0;
        proof {
            assert(nums@ == input@);
            lemma_bounds(nums@);
        }
        while phase_1(&mut nums)
            invariant
                nums@.len() == input@.len(),
                nums@.len() >= 1,
                total(nums@) == t0,
                t0 == total(input@),
                input@.len() * t0 <= u64::MAX,
                0 <= p0,
                p0 <= potential(nums@),
                turns <= potential(nums@) - p0,
                0 <= potential(nums@) <= (nums@.len() - 1) * t0,
            decreases (nums@.len() - 1) * t0 - potential(nums@),
        {
            proof {
                lemma_bounds(nums@);
                assert((nums@.len() - 1) * t0 <= nums@.len() * t0) by (nonlinear_arith)
                    requires
                        t0 >= 0,
                ;
            }
            turns = turns + 1;
        }
        proof {
            lemma_bounds(nums@);
        }
        proof {
            assert(t0 <= input@.len() * t0) by (nonlinear_arith)
                requires
                    input@.len() >= 1,
                    t0 >= 0,
            ;
        }
        match Self::part_3_checked(&nums) {
            Some(f) => turns.checked_add(f),
            None => None,
        }
    }

    /// The second phase counted in one step, where its sum fits in a `u64`.
    pub fn part_3_checked(input: &Vec<u64>) -> (r: Option<u64>)
        requires
            input@.len() >= 1,
            total(input@) <= u64::MAX,
        ensures
            r matches Some(x) ==> x == deviation(input@, total(input@) / input@.len() as int) / 2,
    {
        let n = input.len();
        let mut sum: u64 = 0;
        let mut i: usize = 0;
        while i < n
            invariant
                n == input@.len(),
                total(input@) <= u64::MAX,
                i <= n,
                sum == total(input@.subrange(0, i as int)),
            decreases n - i,
        {
            proof {
                assert(input@.subrange(0, i + 1).drop_last() =~= input@.subrange(0, i as int));
                lemma_total_prefix(input@, i + 1);
            }
            sum = sum + input[i];
            i = i + 1;
        }
        proof {
            assert(input@.subrange(0, n as int) =~= input@);
        }
        let avg = sum / n as u64;
        let mut dev: u64 = 0;
        let mut j: usize = 0;
        while j < n
            invariant
                n == input@.len(),
                avg == total(input@) / n as int,
                j <= n,
                dev == deviation(input@.subrange(0, j as int), avg as int),
            decreases n - j,
        {
            proof {
                assert(input@.subrange(0, j + 1).drop_last() =~= input@.subrange(0, j as int));
            }
            let x = input[j];
            let d = if avg >= x {
                avg - x
            } else {
                x - avg
            };
            dev = match dev.checked_add(d) {
                Some(v) => v,
                None => {
                    return None;
                },
            };
            j = j + 1;
        }
        proof {
            assert(input@.subrange(0, n as int) =~= input@);
        }
        Some(dev / 2)
    }

    /// Rounds of the second phase for columns already in increasing order.
    pub fn part_3(input: &Vec<u64>) -> (r: u64)
        requires
            input@.len() >= 1,
            total(input@) <= u64::MAX,
            deviation(input@, total(input@) / input@.len() as int) <= u64::MAX,
        ensures
            r == deviation(input@, total(input@) / input@.len() as int) / 2,
    {
        phase_2_fast(input)
    }
}

} // verus!
