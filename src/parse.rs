use vstd::prelude::*;

verus! {

/// A field of the input was not a number of the expected type.
#[derive(Debug, Clone, Copy, PartialEq, Eq)]
pub struct InvalidNumber;

pub open spec fn is_digit(b: u8) -> bool {
    48 <= b <= 57
}

pub open spec fn all_digits(s: Seq<u8>) -> bool {
    forall|i: int| 0 <= i < s.len() ==> #[trigger] is_digit(s[i])
}

/// The value of a string of decimal digits.
pub open spec fn digits_value(s: Seq<u8>) -> int
    decreases s.len(),
{
    if s.len() == 0 {
        0
    } else {
        digits_value(s.drop_last()) * 10 + (s.last() - 48)
    }
}

/// The digits of a field once an optional leading `+` is taken off.
pub open spec fn unsigned_digits(s: Seq<u8>) -> Seq<u8> {
    if s.len() > 0 && s[0] == 43u8 {
        s.drop_first()
    } else {
        s
    }
}

/// The number a field spells as an unsigned decimal: an optional `+`, then one or more digits.
pub open spec fn unsigned_value(s: Seq<u8>) -> Option<int> {
    let t = unsigned_digits(s);
    if t.len() > 0 && all_digits(t) {
        Some(digits_value(t))
    } else {
        None
    }
}

/// The number a field spells as a signed decimal: an optional `+` or `-`, then digits.
pub open spec fn signed_value(s: Seq<u8>) -> Option<int> {
    if s.len() > 0 && s[0] == 45u8 {
        let t = s.drop_first();
        if t.len() > 0 && all_digits(t) {
            Some(-digits_value(t))
        } else {
            None
        }
    } else {
        unsigned_value(s)
    }
}

/// The fields of `s` between the separators `sep`; there is always at least one.
pub open spec fn split_fields(s: Seq<u8>, sep: u8) -> Seq<Seq<u8>>
    decreases s.len(),
{
    if s.len() == 0 {
        seq![Seq::<u8>::empty()]
    } else {
        let f = split_fields(s.drop_last(), sep);
        if s.last() == sep {
            f.push(Seq::empty())
        } else {
            f.update(f.len() - 1, f.last().push(s.last()))
        }
    }
}

/// The lines of `s`: its fields between line breaks, but for an empty last one.
pub open spec fn split_lines(s: Seq<u8>) -> Seq<Seq<u8>> {
    let f = split_fields(s, 10u8);
    if f.last().len() == 0 {
        f.drop_last()
    } else {
        f
    }
}

pub proof fn lemma_split_fields_nonempty(s: Seq<u8>, sep: u8)
    ensures
        split_fields(s, sep).len() >= 1,
    decreases s.len(),
{
    if s.len() > 0 {
        lemma_split_fields_nonempty(s.drop_last(), sep);
    }
}

proof fn lemma_digits_value_nonneg(s: Seq<u8>)
    requires
        all_digits(s),
    ensures
        digits_value(s) >= 0,
    decreases s.len(),
{
    if s.len() > 0 {
        assert(is_digit(s[s.len() - 1]));
        assert forall|i: int| 0 <= i < s.drop_last().len() implies #[trigger] is_digit(
            s.drop_last()[i],
        ) by {
            assert(s.drop_last()[i] == s[i]);
        }
        lemma_digits_value_nonneg(s.drop_last());
    }
}

/// Reads the digits `b[start..end]`, if they spell a number below `limit + 1`.
fn parse_digits(b: &[u8], start: usize, end: usize, limit: u64) -> (r: Option<u64>)
    requires
        start < end <= b@.len(),
    ensures
        r == (if all_digits(b@.subrange(start as int, end as int)) && digits_value(
            b@.subrange(start as int, end as int),
        ) <= limit {
            Some(digits_value(b@.subrange(start as int, end as int)) as u64)
        } else {
            None::<u64>
        }),
        all_digits(b@.subrange(start as int, end as int)) ==> digits_value(
            b@.subrange(start as int, end as int),
        ) >= 0,
{
    let mut v: u64 = 0;
    let mut i: usize = start;
    let mut over = false;
    while i < end
        invariant
            start <= i <= end <= b@.len(),
            all_digits(b@.subrange(start as int, i as int)),
            !over ==> v == digits_value(b@.subrange(start as int, i as int)),
            over ==> digits_value(b@.subrange(start as int, i as int)) > limit,
            v <= limit,
        decreases end - i,
    {
        let ghost s = b@.subrange(start as int, i as int);
        let ghost s1 = b@.subrange(start as int, i + 1);
        proof {
            assert(s1.drop_last() =~= s);
            lemma_digits_value_nonneg(s);
        }
        let ch = b[i];
        if ch < 48 || ch > 57 {
            proof {
                assert(!is_digit(b@.subrange(start as int, end as int)[i - start]));
            }
            return None;
        }
        proof {
            assert forall|j: int| 0 <= j < s1.len() implies #[trigger] is_digit(s1[j]) by {
                if j < s.len() {
                    assert(s1[j] == s[j]);
                }
            }
        }
        if !over {
            let d = (ch - 48) as u64;
            if d > limit || v > (limit - d) / 10 {
                over = true;
                proof {
                    if d <= limit {
                        assert(v * 10 + d > limit) by (nonlinear_arith)
                            requires
                                v > (limit - d) / 10,
                                0 <= d <= 9,
                                d <= limit,
                        ;
                    }
                }
            } else {
                proof {
                    assert(v * 10 + d <= limit) by (nonlinear_arith)
                        requires
                            v <= (limit - d) / 10,
                            0 <= d <= 9,
                            d <= limit,
                    ;
                }
                v = v * 10 + d;
            }
        } else {
            proof {
                lemma_digits_value_nonneg(s);
            }
        }
        i = i + 1;
    }
    proof {
        let s = b@.subrange(start as int, end as int);
        lemma_digits_value_nonneg(s);
    }
    if over {
        None
    } else {
        Some(v)
    }
}


/// Reads an unsigned field `b[start..end]` of value at most `limit`.
pub fn parse_unsigned(b: &[u8], start: usize, end: usize, limit: u64) -> (r: Option<u64>)
    requires
        start <= end <= b@.len(),
    ensures
        r == (match unsigned_value(b@.subrange(start as int, end as int)) {
            Some(v) => if v <= limit {
                Some(v as u64)
            } else {
                None::<u64>
            },
            None => None::<u64>,
        }),
        unsigned_value(b@.subrange(start as int, end as int)) matches Some(v) ==> v >= 0,
{
    let ghost f = b@.subrange(start as int, end as int);
    if start == end {
        return None;
    }
    let mut from = start;
    if b[start] == 43u8 {
        from = start + 1;
        proof {
            assert(f.drop_first() =~= b@.subrange(from as int, end as int));
        }
        if from == end {
            return None;
        }
    }
    parse_digits(b, from, end, limit)
}

/// Reads a signed field `b[start..end]` that fits in an `i64`.
pub fn parse_signed(b: &[u8], start: usize, end: usize) -> (r: Option<i64>)
    requires
        start <= end <= b@.len(),
    ensures
        r == (match signed_value(b@.subrange(start as int, end as int)) {
            Some(v) => if i64::MIN <= v <= i64::MAX {
                Some(v as i64)
            } else {
                None::<i64>
            },
            None => None::<i64>,
        }),
{
    let ghost f = b@.subrange(start as int, end as int);
    if start < end && b[start] == 45u8 {
        proof {
            assert(f.drop_first() =~= b@.subrange(start + 1, end as int));
        }
        if start + 1 == end {
            return None;
        }
        match parse_digits(b, start + 1, end, 9223372036854775808u64) {
            Some(v) => {
                if v == 9223372036854775808u64 {
                    Some(i64::MIN)
                } else {
                    assert(v < 9223372036854775808u64);
                    let x: i64 = v as i64;
                    Some(-x)
                }
            },
            None => {
                proof {
                    let t = b@.subrange(start + 1, end as int);
                    if all_digits(t) {
                        lemma_digits_value_nonneg(t);
                    }
                }
                None
            },
        }
    } else {
        proof {
            assert(signed_value(f) == unsigned_value(f));
        }
        match parse_unsigned(b, start, end, 9223372036854775807u64) {
            Some(v) => Some(v as i64),
            None => {
                proof {
                    let t = unsigned_digits(f);
                    if t.len() > 0 && all_digits(t) {
                        lemma_digits_value_nonneg(t);
                    }
                }
                None
            },
        }
    }
}

/// The bounds `(start, end)` of the fields of `b` between the separators `sep`.
pub fn field_bounds(b: &[u8], sep: u8) -> (r: Vec<(usize, usize)>)
    ensures
        r@.len() == split_fields(b@, sep).len(),
        forall|j: int|
            0 <= j < r@.len() ==> {
                &&& (#[trigger] r@[j]).0 <= r@[j].1 <= b@.len()
                &&& b@.subrange(r@[j].0 as int, r@[j].1 as int) == split_fields(b@, sep)[j]
            },
{
    let mut r: Vec<(usize, usize)> = Vec::new();
    let mut start: usize = 0;
    let mut i: usize = 0;
    while i < b.len()
        invariant
            0 <= start <= i <= b@.len(),
            split_fields(b@.subrange(0, i as int), sep).len() == r@.len() + 1,
            split_fields(b@.subrange(0, i as int), sep).last() == b@.subrange(start as int, i as int),
            forall|j: int|
                0 <= j < r@.len() ==> {
                    &&& (#[trigger] r@[j]).0 <= r@[j].1 <= i
                    &&& b@.subrange(r@[j].0 as int, r@[j].1 as int) == split_fields(
                        b@.subrange(0, i as int),
                        sep,
                    )[j]
                },
        decreases b@.len() - i,
    {
        let ghost pre = b@.subrange(0, i as int);
        let ghost post = b@.subrange(0, i + 1);
        proof {
            assert(post.drop_last() =~= pre);
            lemma_split_fields_nonempty(pre, sep);
        }
        if b[i] == sep {
            r.push((start, i));
            start = i + 1;
            proof {
                assert(b@.subrange(start as int, i + 1) =~= Seq::<u8>::empty());
            }
        } else {
            proof {
                assert(b@.subrange(start as int, i + 1) =~= b@.subrange(start as int, i as int).push(
                    b@[i as int],
                ));
            }
        }
        i = i + 1;
    }
    r.push((start, i));
    proof {
        assert(b@.subrange(0, i as int) =~= b@);
    }
    r
}

/// Reads the unsigned numbers, each at most `limit`, between the separators `sep`.
pub fn parse_list(b: &[u8], sep: u8, limit: u64) -> (r: Result<Vec<u64>, InvalidNumber>)
    ensures
        r matches Ok(v) ==> {
            &&& v@.len() == split_fields(b@, sep).len()
            &&& forall|j: int|
                0 <= j < v@.len() ==> unsigned_value(#[trigger] split_fields(b@, sep)[j]) == Some(
                    v@[j] as int,
                )
            &&& forall|j: int| 0 <= j < v@.len() ==> #[trigger] v@[j] <= limit
        },
        r is Err <==> exists|j: int|
            0 <= j < split_fields(b@, sep).len() && !(match unsigned_value(
                #[trigger] split_fields(b@, sep)[j],
            ) {
                Some(x) => x <= limit,
                None => false,
            }),
{
    let bounds = field_bounds(b, sep);
    let ghost f = split_fields(b@, sep);
    let mut v: Vec<u64> = Vec::new();
    let mut j: usize = 0;
    while j < bounds.len()
        invariant
            bounds@.len() == f.len(),
            f == split_fields(b@, sep),
            forall|k: int|
                0 <= k < bounds@.len() ==> {
                    &&& (#[trigger] bounds@[k]).0 <= bounds@[k].1 <= b@.len()
                    &&& b@.subrange(bounds@[k].0 as int, bounds@[k].1 as int) == f[k]
                },
            j <= bounds@.len(),
            v@.len() == j,
            forall|k: int| 0 <= k < j ==> unsigned_value(#[trigger] f[k]) == Some(v@[k] as int),
            forall|k: int| 0 <= k < j ==> #[trigger] v@[k] <= limit,
            forall|k: int|
                0 <= k < j ==> (match unsigned_value(#[trigger] f[k]) {
                    Some(x) => x <= limit,
                    None => false,
                }),
        decreases bounds@.len() - j,
    {
        let (s0, e0) = bounds[j];
        match parse_unsigned(b, s0, e0, limit) {
            Some(x) => {
                proof {
                    assert(f[j as int] == b@.subrange(s0 as int, e0 as int));
                }
                v.push(x);
            },
            None => {
                proof {
                    assert(f[j as int] == b@.subrange(s0 as int, e0 as int));
                }
                return Err(InvalidNumber);
            },
        }
        j = j + 1;
    }
    Ok(v)
}

} // verus!
