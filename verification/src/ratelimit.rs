//! Rate-limit descriptions and their lenient parser.
//!
//! A description reads `"<count>[K]/<n> <unit>"`: a positive count (a
//! trailing `K` means a thousandfold), a slash, and a positive duration
//! whose unit is `h` (hours), `m` (minutes) or anything else (seconds).
//! Whatever fails to parse — a missing or repeated slash, non-digits, a
//! zero, a value out of range — yields no policy at all: that upstream is
//! simply unlimited.

use vstd::prelude::*;
use vstd::utf8::encode_utf8;
use vstd::string::StrSliceExecFns;
use crate::json::copy_bytes;

verus! {

/// A token-bucket policy: at most `capacity` requests per rolling
/// `period_secs` seconds.
pub struct RateLimitPolicy {
    pub capacity: u32,
    pub period_secs: u64,
}

/// ASCII whitespace, as trimming sees it.
pub open spec fn spec_is_space(b: u8) -> bool {
    b == 32 || b == 9 || b == 10 || b == 13
}

/// The bytes with leading and trailing whitespace removed.
pub open spec fn spec_trim(s: Seq<u8>) -> Seq<u8>
    decreases s.len(),
{
    if s.len() > 0 && spec_is_space(s[0]) {
        spec_trim(s.drop_first())
    } else if s.len() > 0 && spec_is_space(s[s.len() - 1]) {
        spec_trim(s.drop_last())
    } else {
        s
    }
}

/// The first position of `b` at or after `i`, or the length.
pub open spec fn spec_find_byte(s: Seq<u8>, b: u8, i: int) -> int
    decreases s.len() - i,
{
    if i < 0 || i >= s.len() {
        s.len() as int
    } else if s[i] == b {
        i
    } else {
        spec_find_byte(s, b, i + 1)
    }
}

/// How often `b` occurs at or after `i`.
pub open spec fn spec_count_byte(s: Seq<u8>, b: u8, i: int) -> int
    decreases s.len() - i,
{
    if i < 0 || i >= s.len() {
        0
    } else {
        spec_count_byte(s, b, i + 1) + if s[i] == b {
            1int
        } else {
            0int
        }
    }
}

/// Whether the bytes are one or more decimal digits.
pub open spec fn spec_all_digits(s: Seq<u8>) -> bool {
    s.len() > 0 && forall|j: int| 0 <= j < s.len() ==> 48 <= #[trigger] s[j] <= 57
}

/// The number the digits denote; a non-digit byte counts as zero.
pub open spec fn spec_digits_val(s: Seq<u8>) -> nat
    decreases s.len(),
{
    if s.len() == 0 {
        0
    } else {
        spec_digits_val(s.drop_last()) * 10 + (if 48 <= s.last() <= 57 {
            (s.last() - 48) as nat
        } else {
            0nat
        })
    }
}

/// The count half: trimmed digits, an optional trailing `K`, the result in
/// `1..=u32::MAX`.
pub open spec fn spec_count_part(s: Seq<u8>) -> Option<u32> {
    let t = spec_trim(s);
    let digits = if t.len() > 0 && t.last() == 75 {
        t.drop_last()
    } else {
        t
    };
    let mult: nat = if t.len() > 0 && t.last() == 75 {
        1000
    } else {
        1
    };
    if spec_all_digits(digits) {
        let v = spec_digits_val(digits) * mult;
        if 1 <= v <= u32::MAX {
            Some(v as u32)
        } else {
            None
        }
    } else {
        None
    }
}

/// The period half: a trimmed first token of digits, a second token naming
/// the unit (`h`, `m`, anything else meaning seconds), the result in
/// seconds within `1..=u64::MAX`.
pub open spec fn spec_period_part(s: Seq<u8>) -> Option<u64> {
    let t = spec_trim(s);
    let sp = spec_find_byte(t, 32, 0);
    let num = t.take(sp);
    let unit = if sp == t.len() {
        Seq::<u8>::empty()
    } else {
        t.subrange(sp + 1, spec_find_byte(t, 32, sp + 1))
    };
    if spec_all_digits(num) {
        let mult: nat = if unit == seq![104u8] {
            3600
        } else if unit == seq![109u8] {
            60
        } else {
            1
        };
        let p = spec_digits_val(num) * mult;
        if 1 <= p <= u64::MAX {
            Some(p as u64)
        } else {
            None
        }
    } else {
        None
    }
}

/// The whole description: exactly one slash, a count to its left, a period
/// to its right.
pub open spec fn spec_rate_limit(s: Seq<u8>) -> Option<RateLimitPolicy> {
    if spec_count_byte(s, 47, 0) != 1 {
        None
    } else {
        let idx = spec_find_byte(s, 47, 0);
        match (spec_count_part(s.take(idx)), spec_period_part(s.skip(idx + 1))) {
            (Some(c), Some(p)) => Some(RateLimitPolicy { capacity: c, period_secs: p }),
            _ => None,
        }
    }
}

/// The policy an upstream's optional description yields.
pub open spec fn spec_limiter_of(rl: Option<String>) -> Option<RateLimitPolicy> {
    match rl {
        None => None,
        Some(s) => spec_rate_limit(encode_utf8(s@)),
    }
}

/// The bytes of `v` from `from` to `to`.
fn subvec(v: &Vec<u8>, from: usize, to: usize) -> (r: Vec<u8>)
    requires
        from <= to <= v@.len(),
    ensures
        r@ == v@.subrange(from as int, to as int),
{
    let mut out: Vec<u8> = Vec::new();
    let mut i: usize = from;
    while i < to
        invariant
            from <= i <= to <= v@.len(),
            out@ == v@.subrange(from as int, i as int),
        decreases to - i,
    {
        out.push(v[i]);
        proof {
            assert(v@.subrange(from as int, i + 1) =~= v@.subrange(from as int, i as int).push(
                v@[i as int]));
        }
        i = i + 1;
    }
    out
}

/// Whether `b` is ASCII whitespace.
fn is_space_b(b: u8) -> (r: bool)
    ensures
        r == spec_is_space(b),
{
    b == 32 || b == 9 || b == 10 || b == 13
}

/// Strips leading and trailing whitespace.
fn trim_bytes(v: &Vec<u8>) -> (r: Vec<u8>)
    ensures
        r@ == spec_trim(v@),
    decreases v@.len(),
{
    let n = v.len();
    if n > 0 && is_space_b(v[0]) {
        let s = subvec(v, 1, n);
        proof {
            assert(s@ =~= v@.drop_first());
        }
        trim_bytes(&s)
    } else if n > 0 && is_space_b(v[n - 1]) {
        let s = subvec(v, 0, n - 1);
        proof {
            assert(s@ =~= v@.drop_last());
        }
        trim_bytes(&s)
    } else {
        copy_bytes(v)
    }
}

/// A prefix's value never exceeds the whole string's value.
proof fn lemma_digits_val_monotone(s: Seq<u8>, i: int)
    requires
        0 <= i <= s.len(),
    ensures
        spec_digits_val(s.take(i)) <= spec_digits_val(s),
    decreases s.len() - i,
{
    if i < s.len() {
        assert(s.take(i + 1).drop_last() =~= s.take(i));
        assert(s.take(i + 1).last() == s[i]);
        assert(spec_digits_val(s.take(i)) <= spec_digits_val(s.take(i + 1)));
        lemma_digits_val_monotone(s, i + 1);
    } else {
        assert(s.take(i) =~= s);
    }
}

/// Parses decimal digits, refusing empty or non-digit input and any value
/// over `limit`.
fn parse_digits(v: &Vec<u8>, limit: u64) -> (r: Option<u64>)
    ensures
        (spec_all_digits(v@) && spec_digits_val(v@) <= limit) <==> r is Some,
        r is Some ==> r->0 as nat == spec_digits_val(v@),
{
    if v.len() == 0 {
        return None;
    }
    let mut acc: u64 = 0;
    let mut i: usize = 0;
    while i < v.len()
        invariant
            i <= v@.len(),
            v@.len() > 0,
            forall|j: int| 0 <= j < i ==> 48 <= #[trigger] v@[j] <= 57,
            acc as nat == spec_digits_val(v@.take(i as int)),
            acc <= limit,
        decreases v@.len() - i,
    {
        let b = v[i];
        if b < 48 || b > 57 {
            return None;
        }
        let d = (b - 48) as u64;
        let next: u128 = (acc as u128) * 10 + (d as u128);
        proof {
            assert(v@.take(i + 1).drop_last() =~= v@.take(i as int));
            assert(v@.take(i + 1).last() == v@[i as int]);
            assert(spec_digits_val(v@.take(i + 1)) == acc as nat * 10 + d as nat);
        }
        if next > limit as u128 {
            proof {
                lemma_digits_val_monotone(v@, i + 1);
                assert(spec_digits_val(v@) > limit);
            }
            return None;
        }
        acc = next as u64;
        i = i + 1;
    }
    proof {
        assert(v@.take(v@.len() as int) =~= v@);
    }
    Some(acc)
}

/// Parses the count half of a description.
fn parse_count_part(v: &Vec<u8>) -> (r: Option<u32>)
    ensures
        r == spec_count_part(v@),
{
    let t = trim_bytes(v);
    let n = t.len();
    let has_k = n > 0 && t[n - 1] == 75;
    let digits = if has_k {
        subvec(&t, 0, n - 1)
    } else {
        copy_bytes(&t)
    };
    let mult: u64 = if has_k {
        1000
    } else {
        1
    };
    proof {
        if has_k {
            assert(digits@ =~= t@.drop_last());
        }
    }
    match parse_digits(&digits, 0xFFFF_FFFF) {
        None => {
            proof {
                if spec_all_digits(digits@) {
                    assert(spec_digits_val(digits@) > u32::MAX);
                    assert(spec_digits_val(digits@) * mult >= spec_digits_val(digits@) * 1);
                }
            }
            None
        },
        Some(d) => {
            let val = d * mult;
            if val >= 1 && val <= 0xFFFF_FFFF {
                Some(val as u32)
            } else {
                None
            }
        },
    }
}

/// Parses the period half of a description, in seconds.
fn parse_period_part(v: &Vec<u8>) -> (r: Option<u64>)
    ensures
        r == spec_period_part(v@),
{
    let t = trim_bytes(v);
    let n = t.len();
    let mut sp: usize = 0;
    while sp < n && t[sp] != 32
        invariant
            n == t@.len(),
            sp <= n,
            spec_find_byte(t@, 32, 0) == spec_find_byte(t@, 32, sp as int),
        decreases n - sp,
    {
        sp = sp + 1;
    }
    proof {
        assert(spec_find_byte(t@, 32, 0) == sp as int);
    }
    let num = subvec(&t, 0, sp);
    proof {
        assert(num@ =~= t@.take(sp as int));
    }
    let mut unit: Vec<u8> = Vec::new();
    if sp < n {
        let mut sp2: usize = sp + 1;
        while sp2 < n && t[sp2] != 32
            invariant
                n == t@.len(),
                sp + 1 <= sp2 <= n,
                spec_find_byte(t@, 32, sp + 1) == spec_find_byte(t@, 32, sp2 as int),
            decreases n - sp2,
        {
            sp2 = sp2 + 1;
        }
        proof {
            assert(spec_find_byte(t@, 32, sp + 1) == sp2 as int);
        }
        unit = subvec(&t, sp + 1, sp2);
    }
    let is_hours = unit.len() == 1 && unit[0] == 104;
    let is_minutes = unit.len() == 1 && unit[0] == 109;
    proof {
        if is_hours {
            assert(unit@ =~= seq![104u8]);
        } else {
            assert(unit@ != seq![104u8] || unit@.len() != 1) by {
                if unit@ == seq![104u8] {
                    assert(unit@.len() == 1 && unit@[0] == 104);
                }
            }
            if unit@ == seq![104u8] {
                assert(false);
            }
        }
        if is_minutes {
            assert(unit@ =~= seq![109u8]);
        } else {
            if unit@ == seq![109u8] {
                assert(unit@.len() == 1 && unit@[0] == 109);
                assert(false);
            }
        }
    }
    let mult: u64 = if is_hours {
        3600
    } else if is_minutes {
        60
    } else {
        1
    };
    match parse_digits(&num, 0xFFFF_FFFF_FFFF_FFFF) {
        None => {
            proof {
                if spec_all_digits(num@) {
                    assert(spec_digits_val(num@) > u64::MAX);
                    assert(spec_digits_val(num@) * mult >= spec_digits_val(num@) * 1);
                }
            }
            None
        },
        Some(d) => {
            let p: u128 = (d as u128) * (mult as u128);
            if p >= 1 && p <= 0xFFFF_FFFF_FFFF_FFFF {
                Some(p as u64)
            } else {
                None
            }
        },
    }
}

/// Parses a whole rate-limit description; anything malformed yields no
/// policy.
pub fn parse_rate_limit(s: &String) -> (r: Option<RateLimitPolicy>)
    ensures
        r == spec_rate_limit(encode_utf8(s@)),
{
    let bytes = s.as_str().as_bytes_vec();
    let n = bytes.len();
    let mut slashes: usize = 0;
    let mut idx: usize = n;
    let mut i: usize = 0;
    while i < n
        invariant
            n == bytes@.len(),
            i <= n,
            slashes <= i,
            spec_count_byte(bytes@, 47, 0) == slashes + spec_count_byte(bytes@, 47, i as int),
            spec_find_byte(bytes@, 47, 0) == if slashes > 0 {
                idx as int
            } else {
                spec_find_byte(bytes@, 47, i as int)
            },
            slashes > 0 ==> idx < i,
            slashes == 0 ==> idx == n,
        decreases n - i,
    {
        if bytes[i] == 47 {
            if slashes == 0 {
                idx = i;
            }
            slashes = slashes + 1;
        }
        i = i + 1;
    }
    if slashes != 1 {
        return None;
    }
    let left = subvec(&bytes, 0, idx);
    let right = subvec(&bytes, idx + 1, n);
    proof {
        assert(left@ =~= bytes@.take(idx as int));
        assert(right@ =~= bytes@.skip(idx + 1));
    }
    let count = parse_count_part(&left);
    let period = parse_period_part(&right);
    match (count, period) {
        (Some(c), Some(p)) => Some(RateLimitPolicy { capacity: c, period_secs: p }),
        _ => None,
    }
}

/// Round trip of the decimal form: the digits that `spec_dec` writes are
/// digits, and reading them back yields the number itself.
pub proof fn lemma_dec_round_trip(n: nat)
    ensures
        spec_all_digits(crate::json::spec_dec(n)),
        spec_digits_val(crate::json::spec_dec(n)) == n,
    decreases n,
{
    if n < 10 {
        let s = crate::json::spec_dec(n);
        assert(s =~= seq![(48 + n) as u8]);
        assert(s.drop_last() =~= Seq::<u8>::empty());
        assert(s.last() == (48 + n) as u8);
        assert(spec_digits_val(s) == spec_digits_val(Seq::<u8>::empty()) * 10 + n);
        assert(forall|j: int| 0 <= j < s.len() ==> 48 <= #[trigger] s[j] <= 57);
    } else {
        lemma_dec_round_trip(n / 10);
        let s = crate::json::spec_dec(n);
        let prefix = crate::json::spec_dec(n / 10);
        assert(s =~= prefix.push((48 + n % 10) as u8));
        assert(s.drop_last() =~= prefix);
        assert(spec_digits_val(s) == spec_digits_val(prefix) * 10 + n % 10);
        assert(spec_digits_val(s) == (n / 10) * 10 + n % 10);
        assert forall|j: int| 0 <= j < s.len() implies 48 <= #[trigger] s[j] <= 57 by {
            if j < prefix.len() {
                assert(s[j] == prefix[j]);
            }
        }
    }
}

} // verus!
