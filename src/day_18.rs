use vstd::prelude::*;
use crate::parse::{field_bounds, parse_signed, parse_unsigned};

verus! {

/// The input was not a list of plants, followed by test cases.
#[derive(Debug, Clone, Copy, PartialEq, Eq)]
pub enum ParseError {
    SyntaxError,
    InvalidNumber,
}

/// The bytes of `Plant `.
pub const PLANT: [u8; 6] = [80u8, 108u8, 97u8, 110u8, 116u8, 32u8];

/// The bytes of ` with thickness `.
pub const WITH_THICKNESS: [u8; 16] = [32u8, 119u8, 105u8, 116u8, 104u8, 32u8, 116u8, 104u8, 105u8, 99u8, 107u8, 110u8, 101u8, 115u8, 115u8, 32u8];

/// The bytes of `- free branch with thickness 1`.
pub const FREE_BRANCH: [u8; 30] = [45u8, 32u8, 102u8, 114u8, 101u8, 101u8, 32u8, 98u8, 114u8, 97u8, 110u8, 99u8, 104u8, 32u8, 119u8, 105u8, 116u8, 104u8, 32u8, 116u8, 104u8, 105u8, 99u8, 107u8, 110u8, 101u8, 115u8, 115u8, 32u8, 49u8];

/// The bytes of `- branch to Plant `.
pub const BRANCH_TO: [u8; 18] = [45u8, 32u8, 98u8, 114u8, 97u8, 110u8, 99u8, 104u8, 32u8, 116u8, 111u8, 32u8, 80u8, 108u8, 97u8, 110u8, 116u8, 32u8];

/// A branch that brings energy from an earlier plant, scaled by its thickness.
#[derive(Debug, Clone, Copy, PartialEq, Eq, Structural)]
pub struct Branch {
    pub thickness: i64,
    pub connected_to: usize,
}

/// A plant: free (fed from the outside) when it has no branches.
#[derive(Debug, Clone, PartialEq, Eq)]
pub struct Plant {
    pub id: usize,
    pub thickness: u64,
    pub branches: Vec<Branch>,
}

impl Plant {
    pub fn is_free(&self) -> (r: bool)
        ensures
            r == (self.branches@.len() == 0),
    {
        self.branches.len() == 0
    }
}

/// The plants in order, and the test cases as bit masks over the free plants.
#[derive(Debug, Clone)]
pub struct Input {
    pub plants: Vec<Plant>,
    pub test_cases: Vec<u128>,
}

/// Clamps to the range of `i64`.
pub open spec fn clamp(x: int) -> int {
    if x > i64::MAX {
        i64::MAX as int
    } else if x < i64::MIN {
        i64::MIN as int
    } else {
        x
    }
}

fn sat_mul(a: i64, b: i64) -> (r: i64)
    ensures
        r == clamp(a * b),
{
    match a.checked_mul(b) {
        Some(v) => v,
        None => {
            if (a < 0) == (b < 0) {
                proof {
                    assert(a * b >= 0) by (nonlinear_arith)
                        requires
                            (a < 0) == (b < 0),
                    ;
                }
                i64::MAX
            } else {
                proof {
                    assert(a * b <= 0) by (nonlinear_arith)
                        requires
                            (a < 0) != (b < 0),
                    ;
                }
                i64::MIN
            }
        },
    }
}

fn sat_add(a: i64, b: i64) -> (r: i64)
    ensures
        r == clamp(a + b),
{
    match a.checked_add(b) {
        Some(v) => v,
        None => {
            if a > 0 {
                i64::MAX
            } else {
                i64::MIN
            }
        },
    }
}

impl Input {
    /// Every branch comes from an earlier plant; a free plant's number selects one of
    /// the 128 bits of a configuration; there is a last plant.
    pub open spec fn wf(&self) -> bool {
        &&& self.plants@.len() >= 1
        &&& forall|i: int|
            0 <= i < self.plants@.len() ==> {
                let p = #[trigger] self.plants@[i];
                &&& (p.branches@.len() == 0 ==> 1 <= p.id <= 128)
                &&& forall|j: int|
                    0 <= j < p.branches@.len() ==> 1 <= (#[trigger] p.branches@[j]).connected_to <= i
            }
    }

    /// The energy reaching the last plant when the free plants are fed by the bits of
    /// `configuration`; a plant passes its incoming energy on only when it reaches its
    /// thickness. Energy is kept within `i64`.
    pub fn final_plant_energy(&self, configuration: u128, energy: &mut Vec<i64>) -> (r: i64)
        requires
            self.wf(),
        ensures
            final(energy)@.len() == self.plants@.len(),
            r == final(energy)@.last(),
    {
        energy.clear();
        let mut i: usize = 0;
        while i < self.plants.len()
            invariant
                self.wf(),
                i <= self.plants@.len(),
                energy@.len() == i,
            decreases self.plants@.len() - i,
        {
            let plant = &self.plants[i];
            if plant.is_free() {
                let bit = (configuration >> ((plant.id - 1) as u128)) & 1;
                energy.push(if bit == 1 {
                    1
                } else {
                    0
                });
            } else {
                let mut incoming: i64 = 0;
                let mut k: usize = 0;
                while k < plant.branches.len()
                    invariant
                        self.wf(),
                        i < self.plants@.len(),
                        *plant == self.plants@[i as int],
                        energy@.len() == i,
                    decreases plant.branches@.len() - k,
                {
                    let b = plant.branches[k];
                    let e = energy[b.connected_to - 1];
                    incoming = sat_add(incoming, sat_mul(e, b.thickness));
                    k = k + 1;
                }
                let limit: i64 = if plant.thickness > i64::MAX as u64 {
                    i64::MAX
                } else {
                    plant.thickness as i64
                };
                energy.push(if plant.thickness <= i64::MAX as u64 && incoming >= limit {
                    incoming
                } else {
                    0
                });
            }
            i = i + 1;
        }
        energy[energy.len() - 1]
    }
}

/// `b[start..end]` begins with `pat`.
fn starts_with(b: &[u8], start: usize, end: usize, pat: &[u8]) -> (r: bool)
    requires
        start <= end <= b@.len(),
    ensures
        r == (pat@.len() <= end - start && b@.subrange(start as int, start + pat@.len()) == pat@),
{
    if pat.len() > end - start {
        return false;
    }
    let mut i: usize = 0;
    while i < pat.len()
        invariant
            start + pat@.len() <= end <= b@.len(),
            i <= pat@.len(),
            forall|k: int| 0 <= k < i ==> b@[start + k] == pat@[k],
        decreases pat@.len() - i,
    {
        if b[start + i] != pat[i] {
            proof {
                assert(b@.subrange(start as int, start + pat@.len())[i as int] != pat@[i as int]);
            }
            return false;
        }
        i = i + 1;
    }
    proof {
        assert(b@.subrange(start as int, start + pat@.len()) =~= pat@);
    }
    true
}

/// The first position in `b[start..end]` where `pat` begins, if any.
fn find(b: &[u8], start: usize, end: usize, pat: &[u8]) -> (r: Option<usize>)
    requires
        start <= end <= b@.len(),
    ensures
        r matches Some(i) ==> start <= i && i + pat@.len() <= end,
{
    let mut i: usize = start;
    while i < end
        invariant
            start <= i <= end <= b@.len(),
        decreases end - i,
    {
        if starts_with(b, i, end, pat) {
            return Some(i);
        }
        i = i + 1;
    }
    None
}

/// Reads `Plant <id> with thickness <t>:` from `b[start..end]`.
fn parse_header(b: &[u8], start: usize, end: usize) -> (r: Result<(usize, u64), ParseError>)
    requires
        start <= end <= b@.len(),
{
    if !starts_with(b, start, end, PLANT.as_slice()) || end - start < 7 || b[end - 1] != 58u8 {
        return Err(ParseError::SyntaxError);
    }
    let from = start + 6;
    let mid = match find(b, from, end - 1, WITH_THICKNESS.as_slice()) {
        Some(m) => m,
        None => {
            return Err(ParseError::SyntaxError);
        },
    };
    let id = match parse_unsigned(b, from, mid, usize::MAX as u64) {
        Some(v) => v as usize,
        None => {
            return Err(ParseError::InvalidNumber);
        },
    };
    let thickness = match parse_unsigned(b, mid + 16, end - 1, u64::MAX) {
        Some(v) => v,
        None => {
            return Err(ParseError::InvalidNumber);
        },
    };
    Ok((id, thickness))
}

/// Reads `- branch to Plant <p> with thickness <t>` from `b[start..end]`.
fn parse_branch(b: &[u8], start: usize, end: usize) -> (r: Result<Branch, ParseError>)
    requires
        start <= end <= b@.len(),
{
    if !starts_with(b, start, end, BRANCH_TO.as_slice()) {
        return Err(ParseError::SyntaxError);
    }
    let from = start + 18;
    let mid = match find(b, from, end, WITH_THICKNESS.as_slice()) {
        Some(m) => m,
        None => {
            return Err(ParseError::SyntaxError);
        },
    };
    let plant = match parse_unsigned(b, from, mid, usize::MAX as u64) {
        Some(v) => v as usize,
        None => {
            return Err(ParseError::InvalidNumber);
        },
    };
    let thickness = match parse_signed(b, mid + 16, end) {
        Some(v) => v,
        None => {
            return Err(ParseError::InvalidNumber);
        },
    };
    Ok(Branch { thickness, connected_to: plant })
}

/// Reads a test case: bits separated by spaces, the first the lowest.
fn parse_case(b: &[u8], start: usize, end: usize) -> (r: Result<u128, ParseError>)
    requires
        start <= end <= b@.len(),
{
    let line = vstd::slice::slice_subrange(b, start, end);
    let parts = field_bounds(line, 32u8);
    if parts.len() > 128 {
        return Err(ParseError::InvalidNumber);
    }
    let mut mask: u128 = 0;
    let mut k: usize = 0;
    while k < parts.len()
        invariant
            parts@.len() <= 128,
            forall|q: int| 0 <= q < parts@.len() ==> (#[trigger] parts@[q]).0 <= parts@[q].1 <= line@.len(),
        decreases parts@.len() - k,
    {
        let v = match parse_unsigned(line, parts[k].0, parts[k].1, 1) {
            Some(v) => v,
            None => {
                return Err(ParseError::InvalidNumber);
            },
        };
        if v == 1 {
            mask = mask | (1u128 << (k as u128));
        }
        k = k + 1;
    }
    Ok(mask)
}

/// The plant network puzzle: energy flows from free plants along weighted branches.
pub struct Day18;

impl Day18 {
    /// Reads the plants, separated by blank lines, then after two blank lines the test cases.
    pub fn parse(input: &str) -> (r: Result<Input, ParseError>)
        ensures
            r matches Ok(v) ==> v.wf(),
    {
        let b = input.as_bytes();
        let lines = field_bounds(b, 10u8);
        let mut plants: Vec<Plant> = Vec::new();
        let mut test_cases: Vec<u128> = Vec::new();
        let mut blank_run: usize = 0;
        let mut in_cases = false;
        // The plant being read: number, thickness, branches, whether it is free.
        let mut current: Option<(usize, u64)> = None;
        let mut branches: Vec<Branch> = Vec::new();
        let mut free = false;
        let mut li: usize = 0;
        while li < lines.len()
            invariant
                forall|q: int| 0 <= q < lines@.len() ==> (#[trigger] lines@[q]).0 <= lines@[q].1 <= b@.len(),
                forall|i: int|
                    0 <= i < plants@.len() ==> {
                        let p = #[trigger] plants@[i];
                        &&& (p.branches@.len() == 0 ==> 1 <= p.id <= 128)
                        &&& forall|j: int|
                            0 <= j < p.branches@.len() ==> 1 <= (#[trigger] p.branches@[j]).connected_to <= i
                    },
                current is None ==> branches@.len() == 0 && !free,
                free ==> branches@.len() == 0,
                forall|j: int|
                    0 <= j < branches@.len() ==> 1 <= (#[trigger] branches@[j]).connected_to <= plants@.len(),
            decreases lines@.len() - li,
        {
            let (s0, e0) = lines[li];
            li = li + 1;
            if in_cases {
                if s0 < e0 {
                    let case = parse_case(b, s0, e0)?;
                    test_cases.push(case);
                }
                continue;
            }
            if s0 == e0 {
                blank_run = if blank_run < 2 {
                    blank_run + 1
                } else {
                    2
                };
                if let Some((id, thickness)) = current {
                    if branches.len() == 0 && !(1 <= id && id <= 128) {
                        return Err(ParseError::InvalidNumber);
                    }
                    let done = Plant { id, thickness, branches };
                    plants.push(done);
                    branches = Vec::new();
                    current = None;
                    free = false;
                }
                if blank_run >= 2 {
                    in_cases = true;
                }
                continue;
            }
            blank_run = 0;
            if current.is_none() {
                let header = parse_header(b, s0, e0)?;
                current = Some(header);
            } else if free {
                // Lines after a free branch are not read.
            } else if starts_with(b, s0, e0, FREE_BRANCH.as_slice()) && e0 - s0 == 30 && branches.len() == 0 {
                free = true;
            } else {
                let branch = parse_branch(b, s0, e0)?;
                if branch.connected_to < 1 || branch.connected_to > plants.len() {
                    return Err(ParseError::SyntaxError);
                }
                branches.push(branch);
            }
        }
        if let Some((id, thickness)) = current {
            if branches.len() == 0 && !(1 <= id && id <= 128) {
                return Err(ParseError::InvalidNumber);
            }
            plants.push(Plant { id, thickness, branches });
        }
        if plants.len() == 0 {
            return Err(ParseError::SyntaxError);
        }
        Ok(Input { plants, test_cases })
    }

    /// Energy of the last plant with every free plant fed.
    pub fn part_1(input: &Input) -> (r: i64)
        requires
            input.wf(),
    {
        let mut energy: Vec<i64> = Vec::new();
        input.final_plant_energy(u128::MAX, &mut energy)
    }

    /// Sum of the last plant's energy over the test cases, kept within `i64`.
    pub fn part_2(input: &Input) -> (r: i64)
        requires
            input.wf(),
    {
        let mut energy: Vec<i64> = Vec::new();
        let mut sum: i64 = 0;
        let mut k: usize = 0;
        while k < input.test_cases.len()
            invariant
                input.wf(),
            decreases input.test_cases@.len() - k,
        {
            let e = input.final_plant_energy(input.test_cases[k], &mut energy);
            sum = sat_add(sum, e);
            k = k + 1;
        }
        sum
    }

    /// Over the test cases that keep the last plant alive, the sum of how far each
    /// falls short of the best configuration, kept within `i64`.
    pub fn part_3(input: &Input) -> (r: i64)
        requires
            input.wf(),
    {
        let mut energy: Vec<i64> = Vec::new();
        let mut num_free: usize = 0;
        let mut i: usize = 0;
        while i < input.plants.len()
            invariant
                num_free <= i <= input.plants@.len(),
            decreases input.plants@.len() - i,
        {
            if input.plants[i].is_free() {
                num_free = num_free + 1;
            }
            i = i + 1;
        }
        let mut max_configuration: u128 = 0;
        if num_free < 9 {
            // Two to the power of `num_free`.
            let mut count: u128 = 1;
            let mut j: usize = 0;
            while j < num_free
                invariant
                    j <= num_free < 9,
                    1 <= count <= 256,
                    j < 8 ==> count <= 128,
                    j < 7 ==> count <= 64,
                    j < 6 ==> count <= 32,
                    j < 5 ==> count <= 16,
                    j < 4 ==> count <= 8,
                    j < 3 ==> count <= 4,
                    j < 2 ==> count <= 2,
                    j < 1 ==> count <= 1,
                decreases num_free - j,
            {
                count = count * 2;
                j = j + 1;
            }
            let mut best: i64 = i64::MIN;
            let mut configuration: u128 = 0;
            while configuration < count
                invariant
                    input.wf(),
                    count <= 256,
                decreases count - configuration,
            {
                let e = input.final_plant_energy(configuration, &mut energy);
                if configuration == 0 || e >= best {
                    best = e;
                    max_configuration = configuration;
                }
                configuration = configuration + 1;
            }
        } else {
            let mut k: usize = 0;
            while k < input.plants.len()
                invariant
                    input.wf(),
                decreases input.plants@.len() - k,
            {
                let p = &input.plants[k];
                if p.branches.len() > 0 {
                    let first = p.branches[0].connected_to;
                    if input.plants[first - 1].is_free() {
                        let mut j: usize = 0;
                        while j < p.branches.len()
                            invariant
                                input.wf(),
                                k < input.plants@.len(),
                                *p == input.plants@[k as int],
                            decreases p.branches@.len() - j,
                        {
                            let br = p.branches[j];
                            if br.thickness > 0 && br.connected_to <= 128 {
                                max_configuration = max_configuration | (1u128 << ((br.connected_to - 1) as u128));
                            }
                            j = j + 1;
                        }
                    }
                }
                k = k + 1;
            }
        }
        let max_energy = input.final_plant_energy(max_configuration, &mut energy);
        let mut sum: i64 = 0;
        let mut t: usize = 0;
        while t < input.test_cases.len()
            invariant
                input.wf(),
            decreases input.test_cases@.len() - t,
        {
            let res = input.final_plant_energy(input.test_cases[t], &mut energy);
            if res > 0 {
                let gap = match max_energy.checked_sub(res) {
                    Some(g) => g,
                    None => i64::MIN,
                };
                sum = sat_add(sum, gap);
            }
            t = t + 1;
        }
        sum
    }
}

} // verus!
