use vstd::prelude::*;
use vstd::string::StringSliceAdditionalSpecFns;
use crate::parse::{parse_list, split_fields, InvalidNumber};

verus! {

pub open spec fn sorted(s: Seq<u16>) -> bool {
    forall|i: int, j: int| 0 <= i <= j < s.len() ==> s[i] <= s[j]
}

/// Sorts by insertion, keeping the same multiset of values.
pub fn sort_values(v: &mut Vec<u16>)
    ensures
        sorted(final(v)@),
        final(v)@.to_multiset() == old(v)@.to_multiset(),
        final(v)@.len() == old(v)@.len(),
{
    broadcast use vstd::seq_lib::group_to_multiset_ensures, vstd::multiset::group_multiset_axioms, vstd::seq_lib::group_seq_properties;

    let n = v.len();
    let mut i: usize = 1;
    if n == 0 {
        return;
    }
    while i < n
        invariant
            n == v@.len(),
            1 <= i <= n,
            sorted(v@.subrange(0, i as int)),
            v@.to_multiset() == old(v)@.to_multiset(),
        decreases n - i,
    {
        let mut j: usize = i;
        proof {
            assert forall|a: int, b: int| 0 <= a <= b <= i && a != j && b != j implies v@[a] <= v@[b] by {
                assert(v@.subrange(0, i as int)[a] == v@[a]);
                assert(v@.subrange(0, i as int)[b] == v@[b]);
            }
        }
        while j > 0 && v[j - 1] > v[j]
            invariant
                n == v@.len(),
                0 <= j <= i < n,
                v@.to_multiset() == old(v)@.to_multiset(),
                forall|a: int, b: int| 0 <= a <= b <= i && a != j && b != j ==> v@[a] <= v@[b],
                forall|b: int| j < b <= i ==> v@[j as int] <= v@[b],
            decreases j,
        {
            let a = v[j - 1];
            let b = v[j];
            let ghost s0 = v@;
            v.set(j - 1, b);
            proof {
                vstd::seq_lib::to_multiset_update(s0, j - 1, b);
            }
            let ghost s1 = v@;
            v.set(j, a);
            proof {
                vstd::seq_lib::to_multiset_update(s1, j as int, a);
                assert(s0.contains(a)) by {
                    assert(s0[j - 1] == a);
                }
                s0.to_multiset_ensures();
                assert(s0.to_multiset().count(a) > 0);
                assert(s0.to_multiset().insert(b).remove(a).insert(a).remove(b) =~= s0.to_multiset());
            }
            j = j - 1;
        }
        proof {
            assert(sorted(v@.subrange(0, i + 1)));
        }
        i = i + 1;
    }
    proof {
        assert(v@.subrange(0, n as int) =~= v@);
    }
}

/// Sum of the distinct values among the first `i` of a sorted list.
pub open spec fn distinct_sum(s: Seq<u16>, i: int) -> int
    decreases i,
{
    if i <= 0 {
        0
    } else {
        distinct_sum(s, i - 1) + if i == 1 || s[i - 1] != s[i - 2] {
            s[i - 1] as int
        } else {
            0
        }
    }
}

/// Number of distinct values among the first `i` of a sorted list.
pub open spec fn group_count(s: Seq<u16>, i: int) -> int
    decreases i,
{
    if i <= 0 {
        0
    } else {
        group_count(s, i - 1) + if i == 1 || s[i - 1] != s[i - 2] {
            1int
        } else {
            0int
        }
    }
}

/// Sum of the smallest `k` distinct values among the first `i`.
pub open spec fn smallest_distinct_sum(s: Seq<u16>, k: int, i: int) -> int
    decreases i,
{
    if i <= 0 {
        0
    } else {
        smallest_distinct_sum(s, k, i - 1) + if (i == 1 || s[i - 1] != s[i - 2]) && group_count(
            s,
            i - 1,
        ) < k {
            s[i - 1] as int
        } else {
            0
        }
    }
}

/// Length of the run of equal values that ends at index `i - 1`.
pub open spec fn run_len(s: Seq<u16>, i: int) -> int
    decreases i,
{
    if i <= 0 {
        0
    } else if i >= 2 && s[i - 1] == s[i - 2] {
        run_len(s, i - 1) + 1
    } else {
        1
    }
}

/// Longest run of equal values among the first `i`.
pub open spec fn longest_run(s: Seq<u16>, i: int) -> int
    decreases i,
{
    if i <= 0 {
        0
    } else if run_len(s, i) > longest_run(s, i - 1) {
        run_len(s, i)
    } else {
        longest_run(s, i - 1)
    }
}

proof fn lemma_sums_bounded(s: Seq<u16>, k: int, i: int)
    requires
        0 <= i,
    ensures
        0 <= distinct_sum(s, i) <= 65535 * i,
        0 <= smallest_distinct_sum(s, k, i) <= 65535 * i,
        0 <= group_count(s, i) <= i,
        1 <= run_len(s, i) <= i || i == 0,
        0 <= longest_run(s, i) <= i,
    decreases i,
{
    if i > 0 {
        lemma_sums_bounded(s, k, i - 1);
    }
}

/// The crate puzzle: boxes of different sizes nest into one another.
pub struct Day03;

impl Day03 {
    /// Reads the comma-separated sizes and sorts them.
    pub fn parse(input: &str) -> (r: Result<Vec<u16>, InvalidNumber>)
        ensures
            r matches Ok(v) ==> sorted(v@) && v@.len() == split_fields(input.spec_bytes(), 44u8).len(),
    {
        let wide = parse_list(input.as_bytes(), 44u8, 65535)?;
        let mut v: Vec<u16> = Vec::new();
        let mut i: usize = 0;
        while i < wide.len()
            invariant
                i <= wide@.len(),
                v@.len() == i,
                forall|k: int| 0 <= k < wide@.len() ==> #[trigger] wide@[k] <= 65535,
            decreases wide@.len() - i,
        {
            v.push(wide[i] as u16);
            i = i + 1;
        }
        sort_values(&mut v);
        Ok(v)
    }

    /// The largest set of nested boxes: one box of each size.
    pub fn part_1(input: &Vec<u16>) -> (r: u64)
        requires
            input@.len() <= 0xffffffff,
        ensures
            r == distinct_sum(input@, input@.len() as int),
    {
        Self::smallest_sizes_sum(input, u64::MAX)
    }

    /// The smallest set of twenty nested boxes.
    pub fn part_2(input: &Vec<u16>) -> (r: u64)
        requires
            input@.len() <= 0xffffffff,
        ensures
            r == smallest_distinct_sum(input@, 20, input@.len() as int),
    {
        Self::smallest_sizes_sum(input, 20)
    }

    /// Sum of the `k` smallest distinct sizes of a sorted list.
    pub fn smallest_sizes_sum(input: &Vec<u16>, k: u64) -> (r: u64)
        requires
            input@.len() <= 0xffffffff,
        ensures
            r == smallest_distinct_sum(input@, k as int, input@.len() as int),
            k == u64::MAX ==> r == distinct_sum(input@, input@.len() as int),
    {
        let n = input.len();
        let mut sum: u64 = 0;
        let mut groups: u64 = 0;
        let mut i: usize = 0;
        while i < n
            invariant
                n == input@.len(),
                n <= 0xffffffff,
                i <= n,
                sum == smallest_distinct_sum(input@, k as int, i as int),
                groups == group_count(input@, i as int),
                k == u64::MAX ==> sum == distinct_sum(input@, i as int),
                k == u64::MAX ==> groups < k,
            decreases n - i,
        {
            proof {
                lemma_sums_bounded(input@, k as int, i as int);
            }
            if i == 0 || input[i] != input[i - 1] {
                if groups < k {
                    sum = sum + input[i] as u64;
                }
                groups = groups + 1;
            }
            i = i + 1;
        }
        sum
    }

    /// The fewest sets of nested boxes: as many as the most boxes of one size.
    pub fn part_3(input: &Vec<u16>) -> (r: u64)
        ensures
            r == longest_run(input@, input@.len() as int),
    {
        let n = input.len();
        let mut best: u64 = 0;
        let mut run: u64 = 0;
        let mut i: usize = 0;
        while i < n
            invariant
                n == input@.len(),
                i <= n,
                run == run_len(input@, i as int),
                best == longest_run(input@, i as int),
                run <= i,
                best <= i,
            decreases n - i,
        {
            proof {
                lemma_sums_bounded(input@, 0, i as int + 1);
            }
            if i > 0 && input[i] == input[i - 1] {
                run = run + 1;
            } else {
                run = 1;
            }
            if run > best {
                best = run;
            }
            i = i + 1;
        }
        best
    }
}

} // verus!
