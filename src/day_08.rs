use vstd::prelude::*;
use vstd::string::StringSliceAdditionalSpecFns;
use crate::parse::{parse_list, split_fields, unsigned_value, InvalidNumber};

verus! {

/// The nails the thread passes, in order; thread `i` joins nail `s[i]` to nail `s[i + 1]`.
pub open spec fn thread_lo(s: Seq<u16>, i: int) -> int {
    if s[i] <= s[i + 1] {
        s[i] as int
    } else {
        s[i + 1] as int
    }
}

pub open spec fn thread_hi(s: Seq<u16>, i: int) -> int {
    if s[i] <= s[i + 1] {
        s[i + 1] as int
    } else {
        s[i] as int
    }
}

/// Of the two ends `x` and `y`, one lies strictly between `a` and `b` and the other
/// outside `[a, b]`: the segments cross.
pub open spec fn crosses(x: int, y: int, a: int, b: int) -> bool {
    (a < x < b && (y < a || y > b)) || (a < y < b && (x < a || x > b))
}

/// Threads `0..i` that run through the center, that is between nails `half` apart.
pub open spec fn center_count(s: Seq<u16>, half: int, i: int) -> int
    decreases i,
{
    if i <= 0 {
        0
    } else {
        center_count(s, half, i - 1) + if (s[i - 1] - s[i] == half || s[i] - s[i - 1] == half) {
            1int
        } else {
            0int
        }
    }
}

/// Threads before thread `j` that thread `j` crosses, counting the first `i`.
pub open spec fn crossed_before(s: Seq<u16>, j: int, i: int) -> int
    decreases i,
{
    if i <= 0 {
        0
    } else {
        crossed_before(s, j, i - 1) + if crosses(
            s[i - 1] as int,
            s[i] as int,
            thread_lo(s, j),
            thread_hi(s, j),
        ) {
            1int
        } else {
            0int
        }
    }
}

/// Pairs of crossing threads among the first `j` threads.
pub open spec fn crossing_pairs(s: Seq<u16>, j: int) -> int
    decreases j,
{
    if j <= 0 {
        0
    } else {
        crossing_pairs(s, j - 1) + crossed_before(s, j - 1, j - 1)
    }
}

/// Threads among the first `i` that a cut from nail `a` to nail `b` severs: those it
/// crosses and those running exactly from `a` to `b`.
pub open spec fn cut_count(s: Seq<u16>, a: int, b: int, i: int) -> int
    decreases i,
{
    if i <= 0 {
        0
    } else {
        cut_count(s, a, b, i - 1) + if crosses(s[i - 1] as int, s[i] as int, a, b) || (
        thread_lo(s, i - 1) == a && thread_hi(s, i - 1) == b) {
            1int
        } else {
            0int
        }
    }
}

proof fn lemma_counts_bounded(s: Seq<u16>, a: int, b: int, half: int, j: int, i: int)
    requires
        0 <= i,
    ensures
        0 <= center_count(s, half, i) <= i,
        0 <= crossed_before(s, j, i) <= i,
        0 <= cut_count(s, a, b, i) <= i,
    decreases i,
{
    if i > 0 {
        lemma_counts_bounded(s, a, b, half, j, i - 1);
    }
}

proof fn lemma_pairs_bounded(s: Seq<u16>, j: int)
    requires
        0 <= j,
    ensures
        0 <= crossing_pairs(s, j) <= j * j,
    decreases j,
{
    if j > 0 {
        lemma_pairs_bounded(s, j - 1);
        lemma_counts_bounded(s, 0, 0, 0, j - 1, j - 1);
        assert((j - 1) * (j - 1) + (j - 1) <= j * j) by (nonlinear_arith)
            requires
                j >= 1,
        ;
    }
}

/// Threads that pass through the center of a circle of `nails` nails.
pub fn center_crossings(sequence: &[u16], nails: u16) -> (r: u64)
    ensures
        sequence@.len() >= 1 ==> r == center_count(sequence@, (nails / 2) as int, sequence@.len() - 1),
        sequence@.len() == 0 ==> r == 0,
{
    let n = sequence.len();
    if n == 0 {
        return 0;
    }
    let half = nails / 2;
    let mut count: u64 = 0;
    let mut i: usize = 1;
    while i < n
        invariant
            n == sequence@.len(),
            1 <= i <= n,
            count == center_count(sequence@, half as int, i - 1),
        decreases n - i,
    {
        proof {
            lemma_counts_bounded(sequence@, 0, 0, half as int, 0, i - 1);
        }
        let x = sequence[i - 1];
        let y = sequence[i];
        let d = if x >= y {
            x - y
        } else {
            y - x
        };
        if d == half {
            count = count + 1;
        }
        i = i + 1;
    }
    count
}

/// Pairs of threads that cross one another.
pub fn all_crossings(sequence: &[u16]) -> (r: u64)
    requires
        sequence@.len() <= 0xffffffff,
    ensures
        sequence@.len() >= 1 ==> r == crossing_pairs(sequence@, sequence@.len() - 1),
        sequence@.len() == 0 ==> r == 0,
{
    let n = sequence.len();
    if n == 0 {
        return 0;
    }
    let mut count: u64 = 0;
    let mut j: usize = 0;
    while j + 1 < n
        invariant
            n == sequence@.len(),
            n <= 0xffffffff,
            j < n,
            count == crossing_pairs(sequence@, j as int),
        decreases n - j,
    {
        let lo = if sequence[j] <= sequence[j + 1] {
            sequence[j]
        } else {
            sequence[j + 1]
        };
        let hi = if sequence[j] <= sequence[j + 1] {
            sequence[j + 1]
        } else {
            sequence[j]
        };
        let mut inner: u64 = 0;
        let mut i: usize = 0;
        while i < j
            invariant
                n == sequence@.len(),
                j + 1 < n,
                i <= j,
                lo == thread_lo(sequence@, j as int),
                hi == thread_hi(sequence@, j as int),
                inner == crossed_before(sequence@, j as int, i as int),
            decreases j - i,
        {
            proof {
                lemma_counts_bounded(sequence@, 0, 0, 0, j as int, i as int);
            }
            let x = sequence[i];
            let y = sequence[i + 1];
            if (lo < x && x < hi && (y < lo || y > hi)) || (lo < y && y < hi && (x < lo || x > hi)) {
                inner = inner + 1;
            }
            i = i + 1;
        }
        proof {
            lemma_pairs_bounded(sequence@, j as int);
            lemma_counts_bounded(sequence@, 0, 0, 0, j as int, j as int);
            assert(j * j + j <= 0xffffffff * 0xffffffff) by (nonlinear_arith)
                requires
                    0 <= j < 0xffffffff,
            ;
        }
        count = count + inner;
        j = j + 1;
    }
    count
}

/// Threads a cut from nail `a` to nail `b` severs.
pub fn cut_threads(sequence: &[u16], a: u16, b: u16) -> (r: u64)
    requires
        sequence@.len() >= 1,
    ensures
        r == cut_count(sequence@, a as int, b as int, sequence@.len() - 1),
{
    let n = sequence.len();
    let mut count: u64 = 0;
    let mut i: usize = 0;
    while i + 1 < n
        invariant
            n == sequence@.len(),
            i < n,
            count == cut_count(sequence@, a as int, b as int, i as int),
        decreases n - i,
    {
        proof {
            lemma_counts_bounded(sequence@, a as int, b as int, 0, 0, i as int);
        }
        let x = sequence[i];
        let y = sequence[i + 1];
        let lo = if x <= y {
            x
        } else {
            y
        };
        let hi = if x <= y {
            y
        } else {
            x
        };
        if (a < x && x < b && (y < a || y > b)) || (a < y && y < b && (x < a || x > b)) || (lo == a
            && hi == b) {
            count = count + 1;
        }
        i = i + 1;
    }
    count
}

/// The most threads one cut between two nails at least two apart can sever.
pub fn best_cut(sequence: &[u16], nails: u16) -> (r: u64)
    requires
        sequence@.len() >= 1,
    ensures
        forall|a: int, b: int|
            1 <= a < nails && a + 2 <= b <= nails ==> #[trigger] cut_count(sequence@, a, b, sequence@.len() - 1)
                <= r,
        r == 0 || exists|a: int, b: int|
            1 <= a < nails && a + 2 <= b <= nails && #[trigger] cut_count(sequence@, a, b, sequence@.len() - 1)
                == r,
{
    let ghost m = sequence@.len() - 1;
    let mut best: u64 = 0;
    let mut a: u16 = 1;
    while a < nails
        invariant
            m == sequence@.len() - 1,
            sequence@.len() >= 1,
            1 <= a,
            a <= nails || nails == 0,
            forall|a2: int, b2: int|
                1 <= a2 < a && a2 + 2 <= b2 <= nails ==> #[trigger] cut_count(sequence@, a2, b2, m) <= best,
            best == 0 || exists|a2: int, b2: int|
                1 <= a2 < nails && a2 + 2 <= b2 <= nails && #[trigger] cut_count(sequence@, a2, b2, m) == best,
        decreases nails - a,
    {
        let mut b: u32 = a as u32 + 2;
        while b <= nails as u32
            invariant
                m == sequence@.len() - 1,
                sequence@.len() >= 1,
                1 <= a < nails,
                a + 2 <= b <= nails as int + 1 || (b == a + 2 && b > nails),
                forall|a2: int, b2: int|
                    1 <= a2 < a && a2 + 2 <= b2 <= nails ==> #[trigger] cut_count(sequence@, a2, b2, m) <= best,
                forall|b2: int| a + 2 <= b2 < b && b2 <= nails ==> #[trigger] cut_count(sequence@, a as int, b2, m) <= best,
                best == 0 || exists|a2: int, b2: int|
                    1 <= a2 < nails && a2 + 2 <= b2 <= nails && #[trigger] cut_count(sequence@, a2, b2, m) == best,
            decreases nails as int + 1 - b,
        {
            let c = cut_threads(sequence, a, b as u16);
            if c > best {
                best = c;
            }
            b = b + 1;
        }
        a = a + 1;
    }
    best
}

/// The string art puzzle: a thread wound around nails on a circle.
pub struct Day08;

impl Day08 {
    /// Reads the comma-separated nail numbers.
    pub fn parse(input: &str) -> (r: Result<Vec<u16>, InvalidNumber>)
        ensures
            r matches Ok(v) ==> {
                let f = split_fields(input.spec_bytes(), 44u8);
                &&& v@.len() == f.len()
                &&& forall|j: int|
                    0 <= j < v@.len() ==> unsigned_value(#[trigger] f[j]) == Some(v@[j] as int)
            },
    {
        let wide = parse_list(input.as_bytes(), 44u8, 65535)?;
        let mut v: Vec<u16> = Vec::new();
        let mut i: usize = 0;
        while i < wide.len()
            invariant
                i <= wide@.len(),
                v@.len() == i,
                forall|k: int| 0 <= k < wide@.len() ==> #[trigger] wide@[k] <= 65535,
                forall|k: int| 0 <= k < i ==> v@[k] as int == #[trigger] wide@[k] as int,
            decreases wide@.len() - i,
        {
            v.push(wide[i] as u16);
            i = i + 1;
        }
        Ok(v)
    }

    pub fn part_1(input: &Vec<u16>) -> (r: u64)
        ensures
            input@.len() >= 1 ==> r == center_count(input@, 16, input@.len() - 1),
    {
        center_crossings(input.as_slice(), 32)
    }

    pub fn part_2(input: &Vec<u16>) -> (r: u64)
        requires
            input@.len() <= 0xffffffff,
        ensures
            input@.len() >= 1 ==> r == crossing_pairs(input@, input@.len() - 1),
    {
        all_crossings(input.as_slice())
    }

    pub fn part_3(input: &Vec<u16>) -> (r: u64)
        requires
            input@.len() >= 1,
    {
        best_cut(input.as_slice(), 256)
    }
}

} // verus!
