use vstd::prelude::*;
use vstd::string::StringSliceAdditionalSpecFns;
use crate::parse::{field_bounds, parse_unsigned, split_lines, InvalidNumber};

verus! {

/// The numbers `start..=end` on a dial.
#[derive(Debug, Clone, Copy, PartialEq, Eq, Structural)]
pub struct ValueRange {
    pub start: u64,
    pub end: u64,
}

impl ValueRange {
    pub open spec fn wf(self) -> bool {
        self.start <= self.end < u64::MAX
    }

    pub open spec fn spec_len(self) -> int {
        self.end - self.start + 1
    }

    pub open spec fn contains(self, v: int) -> bool {
        self.start <= v <= self.end
    }

    pub fn len(self) -> (r: u64)
        requires
            self.wf(),
        ensures
            r == self.spec_len(),
    {
        self.end - self.start + 1
    }

    /// The `ix`-th number counting up from the start.
    pub fn get(self, ix: u64) -> (r: Option<u64>)
        requires
            self.wf(),
        ensures
            r == (if ix < self.spec_len() {
                Some((self.start + ix) as u64)
            } else {
                None::<u64>
            }),
    {
        if ix <= self.end - self.start {
            Some(self.start + ix)
        } else {
            None
        }
    }

    /// The `ix`-th number counting down from the end.
    pub fn get_rev(self, ix: u64) -> (r: Option<u64>)
        requires
            self.wf(),
        ensures
            r == (if ix < self.spec_len() {
                Some((self.end - ix) as u64)
            } else {
                None::<u64>
            }),
    {
        if ix <= self.end - self.start {
            Some(self.end - ix)
        } else {
            None
        }
    }

    /// Reads `a-b` or a single number `a`.
    pub fn parse(b: &[u8], start: usize, end: usize) -> (r: Result<ValueRange, InvalidNumber>)
        requires
            start <= end <= b@.len(),
        ensures
            r matches Ok(v) ==> v.wf(),
    {
        let mut i: usize = start;
        while i < end && b[i] != 45u8
            invariant
                start <= i <= end <= b@.len(),
            decreases end - i,
        {
            i = i + 1;
        }
        let lo = match parse_unsigned(b, start, i, u64::MAX - 1) {
            Some(v) => v,
            None => {
                return Err(InvalidNumber);
            },
        };
        if i == end {
            return Ok(ValueRange { start: lo, end: lo });
        }
        let hi = match parse_unsigned(b, i + 1, end, u64::MAX - 1) {
            Some(v) => v,
            None => {
                return Err(InvalidNumber);
            },
        };
        if lo > hi {
            return Err(InvalidNumber);
        }
        Ok(ValueRange { start: lo, end: hi })
    }
}

pub open spec fn total_len(values: Seq<ValueRange>) -> int
    decreases values.len(),
{
    if values.len() == 0 {
        0
    } else {
        total_len(values.drop_last()) + values.last().spec_len()
    }
}

/// A dial: 1 at the top, the ranges of even index laid clockwise, those of odd index
/// counterclockwise.
#[derive(Debug, Clone)]
pub struct Wheel {
    pub values: Vec<ValueRange>,
}

impl Wheel {
    pub open spec fn wf(&self) -> bool {
        &&& forall|i: int| 0 <= i < self.values@.len() ==> (#[trigger] self.values@[i]).wf()
        &&& total_len(self.values@) < u64::MAX
    }

    /// The number at the top after turning the dial `ticks` steps clockwise.
    pub fn spin(&self, ticks: u64) -> (r: u64)
        requires
            self.wf(),
        ensures
            r == 1 || exists|i: int|
                0 <= i < self.values@.len() && (#[trigger] self.values@[i]).contains(r as int),
            (ticks as int) % (total_len(self.values@) + 1) == 0 ==> r == 1,
    {
        let n = self.values.len();
        let mut len: u64 = 0;
        let mut i: usize = 0;
        while i < n
            invariant
                self.wf(),
                n == self.values@.len(),
                i <= n,
                len == total_len(self.values@.subrange(0, i as int)),
            decreases n - i,
        {
            proof {
                assert(self.values@.subrange(0, i + 1).drop_last() =~= self.values@.subrange(0, i as int));
                lemma_total_len_prefix(self.values@, i + 1);
            }
            len = len + self.values[i].len();
            i = i + 1;
        }
        proof {
            assert(self.values@.subrange(0, n as int) =~= self.values@);
        }
        let mut ix = ticks % (len + 1);
        if ix == 0 {
            return 1;
        }
        ix = ix - 1;
        let mut k: usize = 0;
        while k < n
            invariant
                self.wf(),
                n == self.values@.len(),
                (ticks as int) % (total_len(self.values@) + 1) != 0,
            decreases n - k,
        {
            let rng = self.values[k];
            if let Some(res) = rng.get(ix) {
                return res;
            }
            ix = ix - rng.len();
            if n - k <= 2 {
                k = n;
            } else {
                k = k + 2;
            }
        }
        let mut k: usize = n;
        if n % 2 == 0 {
            k = n;
        } else {
            k = n - 1;
        }
        while k >= 2
            invariant
                self.wf(),
                n == self.values@.len(),
                k <= n,
                (ticks as int) % (total_len(self.values@) + 1) != 0,
            decreases k,
        {
            let rng = self.values[k - 1];
            if let Some(res) = rng.get_rev(ix) {
                return res;
            }
            if ix < rng.len() {
                return 1;
            }
            ix = ix - rng.len();
            k = k - 2;
        }
        1
    }
}

proof fn lemma_total_len_prefix(values: Seq<ValueRange>, i: int)
    requires
        0 <= i <= values.len(),
        forall|j: int| 0 <= j < values.len() ==> (#[trigger] values[j]).wf(),
    ensures
        0 <= total_len(values.subrange(0, i)) <= total_len(values),
    decreases values.len(),
{
    lemma_total_len_nonneg(values.subrange(0, i));
    if i < values.len() {
        let d = values.drop_last();
        assert forall|j: int| 0 <= j < d.len() implies (#[trigger] d[j]).wf() by {
            assert(d[j] == values[j]);
        }
        lemma_total_len_prefix(d, i);
        assert(d.subrange(0, i) =~= values.subrange(0, i));
        assert(values.last().wf());
    } else {
        assert(values.subrange(0, i) =~= values);
    }
}

proof fn lemma_total_len_nonneg(values: Seq<ValueRange>)
    requires
        forall|j: int| 0 <= j < values.len() ==> (#[trigger] values[j]).wf(),
    ensures
        0 <= total_len(values),
    decreases values.len(),
{
    if values.len() > 0 {
        assert(values.last().wf());
        assert forall|j: int| 0 <= j < values.drop_last().len() implies (
        #[trigger] values.drop_last()[j]).wf() by {
            assert(values.drop_last()[j] == values[j]);
        }
        lemma_total_len_nonneg(values.drop_last());
    }
}

/// The combination lock puzzle: a dial of numbers turned many times.
pub struct Day13;

impl Day13 {
    /// Reads one range per line; `None` where the ranges together exceed `u64`.
    pub fn parse(input: &str) -> (r: Result<Wheel, InvalidNumber>)
        ensures
            r matches Ok(w) ==> w.wf() && w.values@.len() == split_lines(input.spec_bytes()).len(),
    {
        let b = input.as_bytes();
        let bounds = field_bounds(b, 10u8);
        let mut count = bounds.len();
        proof {
            crate::parse::lemma_split_fields_nonempty(b@, 10u8);
        }
        if bounds[count - 1].0 == bounds[count - 1].1 {
            count = count - 1;
            proof {
                let f = crate::parse::split_fields(b@, 10u8);
                assert(b@.subrange(bounds@[count as int].0 as int, bounds@[count as int].1 as int).len() == 0);
            }
        }
        let mut values: Vec<ValueRange> = Vec::new();
        let mut total: u64 = 0;
        let mut j: usize = 0;
        while j < count
            invariant
                count <= bounds@.len(),
                forall|k: int|
                    0 <= k < bounds@.len() ==> (#[trigger] bounds@[k]).0 <= bounds@[k].1 <= b@.len(),
                j <= count,
                values@.len() == j,
                forall|k: int| 0 <= k < values@.len() ==> (#[trigger] values@[k]).wf(),
                total == total_len(values@),
                total < u64::MAX,
            decreases count - j,
        {
            let (s0, e0) = bounds[j];
            let v = ValueRange::parse(b, s0, e0)?;
            let l = v.len();
            if l >= u64::MAX - total {
                return Err(InvalidNumber);
            }
            let ghost before = values@;
            values.push(v);
            proof {
                assert(values@.drop_last() =~= before);
            }
            total = total + l;
            j = j + 1;
        }
        proof {
            let f = crate::parse::split_fields(b@, 10u8);
            assert(bounds@.len() == f.len());
        }
        Ok(Wheel { values })
    }

    pub fn part_1(input: &Wheel) -> (r: u64)
        requires
            input.wf(),
        ensures
            r == 1 || exists|i: int|
                0 <= i < input.values@.len() && (#[trigger] input.values@[i]).contains(r as int),
    {
        input.spin(2025)
    }

    pub fn part_2(input: &Wheel) -> (r: u64)
        requires
            input.wf(),
        ensures
            r == 1 || exists|i: int|
                0 <= i < input.values@.len() && (#[trigger] input.values@[i]).contains(r as int),
    {
        input.spin(20252025)
    }

    pub fn part_3(input: &Wheel) -> (r: u64)
        requires
            input.wf(),
        ensures
            r == 1 || exists|i: int|
                0 <= i < input.values@.len() && (#[trigger] input.values@[i]).contains(r as int),
    {
        input.spin(202520252025)
    }
}

} // verus!
