use vstd::prelude::*;
use vstd::string::StringSliceAdditionalSpecFns;
use crate::parse::field_bounds;
use std::collections::HashMap;

verus! {

/// The input was not names, a blank line and rules `x > a,b,...` over letters.
#[derive(Debug, Clone, Copy, PartialEq, Eq)]
pub enum ParseError {
    SyntaxError,
}

/// An ASCII letter, upper or lower case.
pub open spec fn is_letter(b: u8) -> bool {
    (65 <= b <= 90) || (97 <= b <= 122)
}

/// The slot of a letter among `A..=z`.
pub open spec fn slot(b: u8) -> int {
    b - 65
}

/// For each letter, the set of letters that may follow it, one bit per letter.
#[derive(Clone)]
pub struct RuleSet {
    pub rules: Vec<u64>,
}

impl RuleSet {
    pub open spec fn wf(&self) -> bool {
        self.rules@.len() == 58
    }

    #[verifier::opaque]
    pub open spec fn allows(&self, before: u8, after: u8) -> bool {
        self.rules@[slot(before)] & (1u64 << (slot(after) as u64)) != 0
    }

    /// `after` may follow `before`.
    pub fn is_valid(&self, before: u8, after: u8) -> (r: bool)
        requires
            self.wf(),
            is_letter(before),
            is_letter(after),
        ensures
            r == self.allows(before, after),
    {
        reveal(RuleSet::allows);
        (self.rules[(before - 65) as usize] & (1u64 << ((after - 65) as u64))) != 0
    }

    /// The first letter, in `A..=z` order, that may follow `before`.
    pub fn first_valid(&self, before: u8) -> (r: Option<u8>)
        requires
            self.wf(),
            is_letter(before),
        ensures
            r matches Some(c) ==> 65 <= c < 123 && self.rules@[slot(before)] & (1u64 << (slot(c) as u64)) != 0,
    {
        self.valid_from(before, 0)
    }

    /// The first letter after `after`, in `A..=z` order, that may follow `before`.
    pub fn next_valid(&self, before: u8, after: u8) -> (r: Option<u8>)
        requires
            self.wf(),
            is_letter(before),
            65 <= after < 123,
        ensures
            r matches Some(c) ==> after < c < 123 && self.rules@[slot(before)] & (1u64 << (slot(c) as u64)) != 0,
    {
        self.valid_from(before, after - 64)
    }

    fn valid_from(&self, before: u8, from: u8) -> (r: Option<u8>)
        requires
            self.wf(),
            is_letter(before),
            from <= 58,
        ensures
            r matches Some(c) ==> 65 + from <= c < 123 && self.rules@[slot(before)] & (1u64 << (slot(c) as u64)) != 0,
    {
        let bits = self.rules[(before - 65) as usize];
        let mut j: u8 = from;
        while j < 58
            invariant
                from <= j <= 58,
                bits == self.rules@[slot(before)],
            decreases 58 - j,
        {
            if bits & (1u64 << (j as u64)) != 0 {
                return Some(j + 65);
            }
            j = j + 1;
        }
        None
    }
}

/// Reads `x > a,b,...` from `b[start..end]` into `rules`.
fn add_rule(rules: &mut Vec<u64>, b: &[u8], start: usize, end: usize) -> (r: Result<(), ParseError>)
    requires
        old(rules)@.len() == 58,
        start <= end <= b@.len(),
    ensures
        final(rules)@.len() == 58,
{
    if end - start < 5 || b[start + 1] != 32u8 || b[start + 2] != 62u8 || b[start + 3] != 32u8 {
        return Err(ParseError::SyntaxError);
    }
    let before = b[start];
    if !((65 <= before && before <= 90) || (97 <= before && before <= 122)) {
        return Err(ParseError::SyntaxError);
    }
    let list = vstd::slice::slice_subrange(b, start + 4, end);
    let parts = field_bounds(list, 44u8);
    let mut after: u64 = 0;
    let mut k: usize = 0;
    while k < parts.len()
        invariant
            forall|q: int| 0 <= q < parts@.len() ==> (#[trigger] parts@[q]).0 <= parts@[q].1 <= list@.len(),
            rules@.len() == 58,
        decreases parts@.len() - k,
    {
        let (s0, e0) = parts[k];
        if e0 - s0 != 1 {
            return Err(ParseError::SyntaxError);
        }
        let ch = list[s0];
        if !((65 <= ch && ch <= 90) || (97 <= ch && ch <= 122)) {
            return Err(ParseError::SyntaxError);
        }
        after = after | (1u64 << ((ch - 65) as u64));
        k = k + 1;
    }
    let i = (before - 65) as usize;
    let old_bits = rules[i];
    rules.set(i, old_bits | after);
    Ok(())
}

fn substring(s: &str, from: usize, to: usize) -> (r: Option<String>)
    requires
        from <= to <= s.spec_bytes().len(),
{
    if !s.is_char_boundary(from) {
        return None;
    }
    let (_, rest) = s.split_at(from);
    if !rest.is_char_boundary(to - from) {
        return None;
    }
    let (mid, _) = rest.split_at(to - from);
    Some(mid.to_owned())
}

/// The candidate names and the rules on which letter may follow which.
pub struct Input {
    pub names: Vec<String>,
    pub rules: RuleSet,
}

/// Letter `k` of `s` may follow letter `k - 1`.
pub open spec fn step_ok(rules: RuleSet, s: Seq<u8>, k: int) -> bool {
    is_letter(s[k - 1]) && is_letter(s[k]) && rules.allows(s[k - 1], s[k])
}

/// Every letter of `s` may follow the one before it.
pub open spec fn keeps_rules(rules: RuleSet, s: Seq<u8>) -> bool {
    forall|k: int| 1 <= k < s.len() ==> #[trigger] step_ok(rules, s, k)
}

/// Every letter of `name` may follow the one before it.
pub fn is_valid(name: &str, input: &Input) -> (r: bool)
    requires
        input.rules.wf(),
    ensures
        r == keeps_rules(input.rules, name.spec_bytes()),
{
    let b = name.as_bytes();
    if b.len() == 0 {
        return true;
    }
    let mut prev = b[0];
    let mut i: usize = 1;
    while i < b.len()
        invariant
            input.rules.wf(),
            b@ == name.spec_bytes(),
            1 <= i <= b@.len(),
            prev == b@[i - 1],
            forall|k: int| 1 <= k < i ==> #[trigger] step_ok(input.rules, b@, k),
        decreases b@.len() - i,
    {
        let ch = b[i];
        let letters = ((65 <= prev && prev <= 90) || (97 <= prev && prev <= 122)) && ((65 <= ch && ch
            <= 90) || (97 <= ch && ch <= 122));
        if !letters || !input.rules.is_valid(prev, ch) {
            proof {
                assert(!step_ok(input.rules, b@, i as int));
            }
            return false;
        }
        prev = ch;
        i = i + 1;
    }
    true
}

/// Names that continue from the letter `prev` by the rules, with between `min_len`
/// and `max_len` more letters; the memo is keyed by `max_len` and `prev` alone.
/// Counts are kept within `u64`.
pub fn count_possible_continuations(
    prev: u8,
    min_len: usize,
    max_len: usize,
    input: &Input,
    cache: &mut HashMap<u64, u64>,
) -> (r: u64)
    requires
        input.rules.wf(),
        is_letter(prev),
        max_len <= 64,
    decreases max_len,
{
    let mut sum: u64 = 0;
    if min_len == 0 {
        sum = 1;
    }
    if max_len == 0 {
        return sum;
    }
    let key: u64 = max_len as u64 * 256 + prev as u64;
    match cache.get(&key) {
        Some(old) => {
            return *old;
        },
        None => {},
    }
    let next_min = if min_len > 0 {
        min_len - 1
    } else {
        0
    };
    let mut cur = input.rules.first_valid(prev);
    let mut guard: usize = 0;
    while guard < 58
        invariant
            input.rules.wf(),
            max_len >= 1,
            max_len <= 64,
            is_letter(prev),
            cur matches Some(c) ==> 65 <= c < 123,
        decreases 58 - guard,
    {
        match cur {
            Some(ch) => {
                if !((65 <= ch && ch <= 90) || (97 <= ch && ch <= 122)) {
                    break;
                }
                let sub = count_possible_continuations(ch, next_min, max_len - 1, input, cache);
                sum = sum.saturating_add(sub);
                cur = input.rules.next_valid(prev, ch);
            },
            None => {
                break;
            },
        }
        guard = guard + 1;
    }
    cache.insert(key, sum);
    sum
}

/// Byte-wise order of two names: -1, 0 or 1.
fn compare_names(a: &str, b: &str) -> (r: i8)
    ensures
        -1 <= r <= 1,
{
    let x = a.as_bytes();
    let y = b.as_bytes();
    let mut i: usize = 0;
    while i < x.len() && i < y.len()
        invariant
            i <= x@.len(),
        decreases x@.len() - i,
    {
        if x[i] != y[i] {
            return if x[i] < y[i] {
                -1
            } else {
                1
            };
        }
        i = i + 1;
    }
    if x.len() < y.len() {
        -1
    } else if x.len() > y.len() {
        1
    } else {
        0
    }
}

/// `a` begins with `b`.
fn has_prefix(a: &str, b: &str) -> (r: bool)
{
    let x = a.as_bytes();
    let y = b.as_bytes();
    if y.len() > x.len() {
        return false;
    }
    let mut i: usize = 0;
    while i < y.len()
        invariant
            y@.len() <= x@.len(),
            i <= y@.len(),
        decreases y@.len() - i,
    {
        if x[i] != y[i] {
            return false;
        }
        i = i + 1;
    }
    true
}

/// The naming puzzle: names whose letters follow each other by the rules.
pub struct Day07;

impl Day07 {
    /// Reads the comma-separated names, a blank line, then one rule per line.
    pub fn parse(input: &str) -> (r: Result<Input, ParseError>)
        ensures
            r matches Ok(v) ==> v.rules.wf(),
    {
        let b = input.as_bytes();
        let lines = field_bounds(b, 10u8);
        let mut count = lines.len();
        proof {
            crate::parse::lemma_split_fields_nonempty(b@, 10u8);
        }
        if lines[count - 1].0 == lines[count - 1].1 {
            count = count - 1;
        }
        if count < 2 || lines[1].0 != lines[1].1 {
            return Err(ParseError::SyntaxError);
        }
        let (s0, e0) = lines[0];
        let name_slice = vstd::slice::slice_subrange(b, s0, e0);
        let name_bounds = field_bounds(name_slice, 44u8);
        let mut names: Vec<String> = Vec::new();
        let mut j: usize = 0;
        while j < name_bounds.len()
            invariant
                s0 <= e0 <= b@.len(),
                b@ == input.spec_bytes(),
                name_slice@.len() == e0 - s0,
                forall|k: int|
                    0 <= k < name_bounds@.len() ==> (#[trigger] name_bounds@[k]).0 <= name_bounds@[k].1
                        <= name_slice@.len(),
            decreases name_bounds@.len() - j,
        {
            let (a, z) = name_bounds[j];
            match substring(input, s0 + a, s0 + z) {
                Some(n) => names.push(n),
                None => {
                    return Err(ParseError::SyntaxError);
                },
            }
            j = j + 1;
        }
        let mut rules: Vec<u64> = Vec::new();
        let mut k: usize = 0;
        while k < 58
            invariant
                k <= 58,
                rules@.len() == k,
            decreases 58 - k,
        {
            rules.push(0);
            k = k + 1;
        }
        let mut line: usize = 2;
        while line < count
            invariant
                rules@.len() == 58,
                count <= lines@.len(),
                forall|q: int| 0 <= q < lines@.len() ==> (#[trigger] lines@[q]).0 <= lines@[q].1 <= b@.len(),
            decreases count - line,
        {
            let (s1, e1) = lines[line];
            add_rule(&mut rules, b, s1, e1)?;
            line = line + 1;
        }
        Ok(Input { names, rules: RuleSet { rules } })
    }

    /// The first name that keeps the rules, or the empty string.
    pub fn part_1(input: &Input) -> (r: String)
        requires
            input.rules.wf(),
    {
        let mut i: usize = 0;
        while i < input.names.len()
            invariant
                input.rules.wf(),
            decreases input.names@.len() - i,
        {
            if is_valid(input.names[i].as_str(), input) {
                return input.names[i].clone();
            }
            i = i + 1;
        }
        String::new()
    }

    /// The sum of the numbers (from 1) of the names that keep the rules.
    pub fn part_2(input: &Input) -> (r: u64)
        requires
            input.rules.wf(),
            input.names@.len() <= 0xffffffff,
    {
        let mut sum: u64 = 0;
        let mut i: usize = 0;
        while i < input.names.len()
            invariant
                input.rules.wf(),
                input.names@.len() <= 0xffffffff,
                i <= input.names@.len(),
                sum <= i * (i + 1) / 2,
            decreases input.names@.len() - i,
        {
            if is_valid(input.names[i].as_str(), input) {
                proof {
                    assert(i * (i + 1) / 2 + (i + 1) == (i + 1) * (i + 2) / 2) by (nonlinear_arith);
                    assert((i + 1) * (i + 2) / 2 <= 0x8000000100000000) by (nonlinear_arith)
                        requires
                            i < 0xffffffff,
                    ;
                }
                sum = sum + i as u64 + 1;
            } else {
                proof {
                    assert(i * (i + 1) / 2 <= (i + 1) * (i + 2) / 2) by (nonlinear_arith);
                }
            }
            i = i + 1;
        }
        sum
    }

    /// Names of 7 to 11 letters that keep the rules and begin with one of the given
    /// names; a name that begins with another given name is not counted twice.
    pub fn part_3(input: &Input) -> (r: u64)
        requires
            input.rules.wf(),
    {
        let n = input.names.len();
        let mut order: Vec<usize> = Vec::new();
        let mut i: usize = 0;
        while i < n
            invariant
                n == input.names@.len(),
                i <= n,
                order@.len() == i,
                forall|q: int| 0 <= q < i ==> #[trigger] order@[q] < n,
            decreases n - i,
        {
            order.push(i);
            i = i + 1;
        }
        let mut a: usize = 1;
        while a < n
            invariant
                n == input.names@.len(),
                order@.len() == n,
                forall|q: int| 0 <= q < n ==> #[trigger] order@[q] < n,
            decreases n - a,
        {
            let mut b: usize = a;
            while b > 0
                invariant
                    n == input.names@.len(),
                    order@.len() == n,
                    forall|q: int| 0 <= q < n ==> #[trigger] order@[q] < n,
                    b < n,
                decreases b,
            {
                let p = order[b - 1];
                let q = order[b];
                if compare_names(input.names[p].as_str(), input.names[q].as_str()) <= 0 {
                    break;
                }
                order.set(b - 1, q);
                order.set(b, p);
                b = b - 1;
            }
            a = a + 1;
        }
        let mut cache: HashMap<u64, u64> = HashMap::new();
        let mut count: u64 = 0;
        let mut kept: Option<usize> = None;
        let mut k: usize = 0;
        while k < n
            invariant
                input.rules.wf(),
                n == input.names@.len(),
                order@.len() == n,
                forall|q: int| 0 <= q < n ==> #[trigger] order@[q] < n,
                kept matches Some(x) ==> x < n,
            decreases n - k,
        {
            let ix = order[k];
            k = k + 1;
            let name = input.names[ix].as_str();
            if let Some(prev) = kept {
                if has_prefix(name, input.names[prev].as_str()) {
                    continue;
                }
            }
            kept = Some(ix);
            let bytes = name.as_bytes();
            let len = bytes.len();
            if len == 0 || len > 11 {
                continue;
            }
            if is_valid(name, input) {
                let last = bytes[len - 1];
                if (65 <= last && last <= 90) || (97 <= last && last <= 122) {
                    let min_len = if len < 7 {
                        7 - len
                    } else {
                        0
                    };
                    let add = count_possible_continuations(last, min_len, 11 - len, input, &mut cache);
                    count = count.saturating_add(add);
                }
            }
        }
        count
    }
}

} // verus!
