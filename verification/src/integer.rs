//! Decimal integer parsing with the grammar of `<i64 as FromStr>::from_str`.
use vstd::prelude::*;
use vstd::utf8::encode_utf8;

verus! {

pub open spec fn is_digit(b: u8) -> bool {
    48 <= b <= 57
}

pub open spec fn all_digits(ds: Seq<u8>) -> bool {
    forall|i: int| 0 <= i < ds.len() ==> is_digit(#[trigger] ds[i])
}

/// The value of a string of decimal digits.
pub open spec fn digits_value(ds: Seq<u8>) -> int
    decreases ds.len(),
{
    if ds.len() == 0 {
        0
    } else {
        digits_value(ds.drop_last()) * 10 + (ds.last() - 48)
    }
}

/// `<i64 as FromStr>::from_str` on the bytes `b`: an optional `+` or `-`
/// followed by at least one decimal digit and nothing else, whose value fits
/// in an `i64`.
pub open spec fn parse_i64_spec(b: Seq<u8>) -> Option<i64> {
    let neg = b.len() > 0 && b[0] == 45;
    let signed = b.len() > 0 && (b[0] == 45 || b[0] == 43);
    let ds = unsigned_part(b);
    if ds.len() == 0 || !all_digits(ds) {
        None
    } else {
        let v = if neg {
            -digits_value(ds)
        } else {
            digits_value(ds)
        };
        if i64::MIN <= v <= i64::MAX {
            Some(v as i64)
        } else {
            None
        }
    }
}

proof fn lemma_digits_value_grows(ds: Seq<u8>, j: int, k: int)
    requires
        0 <= j <= k <= ds.len(),
        all_digits(ds),
    ensures
        0 <= digits_value(ds.take(j)) <= digits_value(ds.take(k)),
    decreases k - j,
{
    if j < k {
        lemma_digits_value_grows(ds, j, k - 1);
        assert(ds.take(k).drop_last() =~= ds.take(k - 1));
        assert(is_digit(ds[k - 1]));
    } else {
        lemma_digits_value_nonneg(ds.take(j));
    }
}

proof fn lemma_digits_value_nonneg(ds: Seq<u8>)
    requires
        all_digits(ds),
    ensures
        digits_value(ds) >= 0,
    decreases ds.len(),
{
    if ds.len() > 0 {
        assert(all_digits(ds.drop_last()));
        lemma_digits_value_nonneg(ds.drop_last());
        assert(is_digit(ds[ds.len() - 1]));
    }
}

proof fn lemma_overflow_final(ds: Seq<u8>, k: int, neg: bool)
    requires
        0 <= k < ds.len(),
        all_digits(ds),
        ({
            let pv = digits_value(ds.take(k));
            let d = ds[k] - 48;
            if neg {
                pv * 10 > -(i64::MIN as int) || pv * 10 + d > -(i64::MIN as int)
            } else {
                pv * 10 > i64::MAX || pv * 10 + d > i64::MAX
            }
        }),
    ensures
        if neg {
            -digits_value(ds) < i64::MIN
        } else {
            digits_value(ds) > i64::MAX
        },
{
    assert(ds.take(k + 1).drop_last() =~= ds.take(k));
    assert(is_digit(ds[k]));
    lemma_digits_value_grows(ds, k + 1, ds.len() as int);
    assert(ds.take(ds.len() as int) =~= ds);
}

/// The digits part of `b` for `parse_i64_spec`: `b` without its sign.
pub open spec fn unsigned_part(b: Seq<u8>) -> Seq<u8> {
    if b.len() > 0 && (b[0] == 45 || b[0] == 43) {
        b.skip(1)
    } else {
        b
    }
}

/// `<i64 as FromStr>::from_str` on raw bytes.
pub fn parse_i64_bytes(b: &[u8]) -> (res: Option<i64>)
    ensures
        res == parse_i64_spec(b@),
{
    let len = b.len();
    if len == 0 {
        return None;
    }
    let neg = b[0] == 45;
    let signed = b[0] == 45 || b[0] == 43;
    let first: usize = if signed {
        1
    } else {
        0
    };
    let ghost ds = unsigned_part(b@);
    assert(ds.len() == len - first);
    assert(forall|j: int| 0 <= j < ds.len() ==> ds[j] == b@[first + j]);
    if first == len {
        return None;
    }
    let mut i: usize = first;
    while i < len
        invariant
            first <= i <= len,
            len == b@.len(),
            len > 0,
            ds == unsigned_part(b@),
            neg == (b@[0] == 45),
            ds.len() == len - first,
            forall|j: int| 0 <= j < ds.len() ==> ds[j] == b@[first + j],
            forall|j: int| first <= j < i ==> is_digit(#[trigger] b@[j]),
        decreases len - i,
    {
        if !(48 <= b[i] && b[i] <= 57) {
            proof {
                assert(!is_digit(ds[i - first]));
            }
            return None;
        }
        i += 1;
    }
    proof {
        assert forall|j: int| 0 <= j < ds.len() implies is_digit(#[trigger] ds[j]) by {
            assert(ds[j] == b@[first + j]);
        }
    }
    let mut acc: i64 = 0;
    let mut k: usize = first;
    proof {
        assert(ds.take(0) =~= Seq::<u8>::empty());
    }
    while k < len
        invariant
            first <= k <= len,
            len == b@.len(),
            len > 0,
            ds == unsigned_part(b@),
            neg == (b@[0] == 45),
            ds.len() == len - first,
            forall|j: int| 0 <= j < ds.len() ==> ds[j] == b@[first + j],
            all_digits(ds),
            neg ==> acc == -digits_value(ds.take(k - first)),
            !neg ==> acc == digits_value(ds.take(k - first)),
        decreases len - k,
    {
        proof {
            assert(ds[k - first] == b@[k as int]);
            assert(is_digit(b@[k as int]));
            assert(ds.take(k - first + 1).drop_last() =~= ds.take(k - first));
        }
        let d = (b[k] - 48) as i64;
        proof {
            lemma_digits_value_nonneg(ds.take(k - first));
        }
        if neg {
            if acc < (i64::MIN + d) / 10 || acc * 10 < i64::MIN + d {
                proof {
                    lemma_overflow_final(ds, (k - first) as int, neg);
                }
                return None;
            }
            acc = acc * 10 - d;
        } else {
            if acc > (i64::MAX - d) / 10 || acc * 10 > i64::MAX - d {
                proof {
                    lemma_overflow_final(ds, (k - first) as int, neg);
                }
                return None;
            }
            acc = acc * 10 + d;
        }
        k += 1;
    }
    proof {
        assert(ds.take(ds.len() as int) =~= ds);
    }
    Some(acc)
}

/// `<i64 as FromStr>::from_str(s).ok()`.
pub fn parse_i64(s: &str) -> (res: Option<i64>)
    ensures
        res == parse_i64_spec(encode_utf8(s@)),
{
    parse_i64_bytes(s.as_bytes())
}

} // verus!
