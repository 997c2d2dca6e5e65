//! Decimal text for the wire protocol: turning integers into digit bytes and
//! digit bytes back into integers, with saturating helpers for deadlines.
use vstd::prelude::*;

verus! {

/// Decimal digit bytes of `n`, most significant digit first.
pub open spec fn dec_digits(n: nat) -> Seq<u8>
    decreases n,
{
    if n < 10 {
        seq![(48 + n) as u8]
    } else {
        dec_digits(n / 10) + seq![(48 + n % 10) as u8]
    }
}

/// Decimal form of `i`: a leading minus sign when negative, digits otherwise.
pub open spec fn dec_int(i: int) -> Seq<u8> {
    if i < 0 {
        seq![45u8] + dec_digits((-i) as nat)
    } else {
        dec_digits(i as nat)
    }
}

pub open spec fn is_digit(b: u8) -> bool {
    48 <= b <= 57
}

pub open spec fn all_digits(s: Seq<u8>) -> bool {
    forall|i: int| 0 <= i < s.len() ==> is_digit(#[trigger] s[i])
}

/// Numeric value of a digit string, most significant digit first.
pub open spec fn digits_val(s: Seq<u8>) -> int
    decreases s.len(),
{
    if s.len() == 0 {
        0
    } else {
        digits_val(s.drop_last()) * 10 + (s.last() - 48)
    }
}

/// Value of a digit line with an optional leading `+`, as `str::parse`
/// accepts for unsigned integers; `None` when the line is not all digits.
pub open spec fn length_of_line(line: Seq<u8>) -> Option<int> {
    if line.len() > 0 && line[0] == 43 {
        unsigned_of(line.drop_first())
    } else {
        unsigned_of(line)
    }
}

pub open spec fn unsigned_of(s: Seq<u8>) -> Option<int> {
    if s.len() > 0 && all_digits(s) {
        Some(digits_val(s))
    } else {
        None
    }
}

/// Value of a signed decimal line with an optional leading `+` or `-`.
pub open spec fn int_of_line(line: Seq<u8>) -> Option<int> {
    if line.len() == 0 {
        None
    } else if line[0] == 43 {
        unsigned_of(line.drop_first())
    } else if line[0] == 45 {
        match unsigned_of(line.drop_first()) {
            Some(v) => Some(-v),
            None => None,
        }
    } else {
        unsigned_of(line)
    }
}

pub proof fn lemma_digits_val_nonneg(s: Seq<u8>)
    requires
        all_digits(s),
    ensures
        digits_val(s) >= 0,
    decreases s.len(),
{
    if s.len() > 0 {
        assert(all_digits(s.drop_last()));
        lemma_digits_val_nonneg(s.drop_last());
    }
}

/// A digit string is worth at least as much as any of its prefixes.
pub proof fn lemma_digits_val_take(s: Seq<u8>, k: int)
    requires
        all_digits(s),
        0 <= k <= s.len(),
    ensures
        digits_val(s.take(k)) <= digits_val(s),
    decreases s.len() - k,
{
    if k < s.len() {
        let t = s.take(k + 1);
        assert(t.drop_last() =~= s.take(k));
        assert(all_digits(s.take(k)));
        lemma_digits_val_nonneg(s.take(k));
        assert(digits_val(t) == digits_val(s.take(k)) * 10 + (s[k] - 48));
        lemma_digits_val_take(s, k + 1);
    } else {
        assert(s.take(k) =~= s);
    }
}

/// The digit text of `n` is all digits and is worth exactly `n`.
pub proof fn lemma_dec_digits(n: nat)
    ensures
        all_digits(dec_digits(n)),
        digits_val(dec_digits(n)) == n,
        dec_digits(n).len() >= 1,
    decreases n,
{
    if n < 10 {
        let s = dec_digits(n);
        assert(s.drop_last() =~= Seq::<u8>::empty());
        assert(digits_val(Seq::<u8>::empty()) == 0);
        assert(s.last() == (48 + n) as u8);
        assert(((48 + n) as u8) - 48 == n);
        assert(digits_val(s) == n);
        assert(all_digits(s));
    } else {
        lemma_dec_digits(n / 10);
        let s = dec_digits(n);
        assert(s.drop_last() =~= dec_digits(n / 10));
        assert(s.last() == (48 + n % 10) as u8);
        assert(digits_val(s) == (n / 10) * 10 + n % 10);
        vstd::arithmetic::div_mod::lemma_fundamental_div_mod(n as int, 10);
        assert(digits_val(s) == n);
        assert forall|i: int| 0 <= i < s.len() implies is_digit(s[i]) by {
            if i < s.len() - 1 {
                assert(s[i] == dec_digits(n / 10)[i]);
            }
        }
    }
}

/// Reads the digits of `buf[from..to]` as a decimal number.
/// Returns the value when the region is nonempty, all digits, and worth at
/// most `max`; `None` otherwise.
pub fn parse_digits(buf: &[u8], from: usize, to: usize, max: u64) -> (r: Option<u64>)
    requires
        from <= to <= buf@.len(),
    ensures
        ({
            let region = buf@.subrange(from as int, to as int);
            &&& (r is Some <==> region.len() > 0 && all_digits(region) && digits_val(region)
                <= max)
            &&& (r matches Some(v) ==> digits_val(region) == v && v <= max)
        }),
{
    let ghost region = buf@.subrange(from as int, to as int);
    if from == to {
        return None;
    }
    let mut acc: u64 = 0;
    let mut i: usize = from;
    while i < to
        invariant
            from <= i <= to <= buf@.len(),
            acc <= max,
            region == buf@.subrange(from as int, to as int),
            all_digits(region.take(i - from)),
            acc as int == digits_val(region.take(i - from)),
        decreases to - i,
    {
        let b = buf[i];
        if !(48 <= b && b <= 57) {
            assert(!is_digit(region[i - from]));
            return None;
        }
        let d = (b - 48) as u64;
        proof {
            let t = region.take(i - from + 1);
            assert(t.drop_last() =~= region.take(i - from));
            assert(t.last() == region[i - from]);
            assert(region[i - from] == b);
        }
        if d > max || acc > (max - d) / 10 {
            // one more digit pushes the value past `max`
            proof {
                if d <= max {
                    vstd::arithmetic::div_mod::lemma_fundamental_div_mod(
                        max as int - d as int,
                        10,
                    );
                    vstd::arithmetic::div_mod::lemma_mod_division_less_than_divisor(
                        max as int - d as int,
                        10,
                    );
                    assert(acc * 10 + d > max) by (nonlinear_arith)
                        requires
                            acc >= (max as int - d) / 10 + 1,
                            max as int - d == 10 * ((max as int - d) / 10) + (max as int - d)
                                % 10,
                            (max as int - d) % 10 < 10,
                    ;
                }
                assert(digits_val(region.take(i - from + 1)) > max);
                if all_digits(region) {
                    lemma_digits_val_take(region, i - from + 1);
                }
            }
            return None;
        }
        proof {
            vstd::arithmetic::div_mod::lemma_fundamental_div_mod(max as int - d as int, 10);
            vstd::arithmetic::div_mod::lemma_mod_division_less_than_divisor(
                max as int - d as int,
                10,
            );
            assert(acc * 10 + d <= max) by (nonlinear_arith)
                requires
                    0 <= acc <= (max as int - d) / 10,
                    0 <= d <= max,
                    max as int - d == 10 * ((max as int - d) / 10) + (max as int - d) % 10,
                    (max as int - d) % 10 >= 0,
            ;
        }
        acc = acc * 10 + d;
        i += 1;
    }
    proof {
        assert(region.take(to - from) =~= region);
    }
    Some(acc)
}

/// Reads `buf[from..to]` as an unsigned length line (optional leading `+`).
/// Returns the value when it is at most `max`; `None` otherwise.
pub fn parse_length(buf: &[u8], from: usize, to: usize, max: u64) -> (r: Option<u64>)
    requires
        from <= to <= buf@.len(),
    ensures
        ({
            let line = buf@.subrange(from as int, to as int);
            &&& (r is Some <==> (length_of_line(line) matches Some(v) && v <= max))
            &&& (r matches Some(v) ==> length_of_line(line) == Some(v as int))
        }),
{
    let ghost line = buf@.subrange(from as int, to as int);
    if from < to && buf[from] == 43 {
        let r = parse_digits(buf, from + 1, to, max);
        proof {
            assert(buf@.subrange(from as int + 1, to as int) =~= line.drop_first());
        }
        r
    } else {
        parse_digits(buf, from, to, max)
    }
}

/// Reads `buf[from..to]` as a signed decimal line into an `i32`, as
/// `str::parse::<i32>` would; `None` on malformed text or overflow.
pub fn parse_i32(buf: &[u8], from: usize, to: usize) -> (r: Option<i32>)
    requires
        from <= to <= buf@.len(),
    ensures
        ({
            let line = buf@.subrange(from as int, to as int);
            &&& (r is Some <==> (int_of_line(line) matches Some(v) && -0x8000_0000 <= v
                <= 0x7fff_ffff))
            &&& (r matches Some(x) ==> int_of_line(line) == Some(x as int))
        }),
{
    let ghost line = buf@.subrange(from as int, to as int);
    if from == to {
        return None;
    }
    let first = buf[from];
    let negative = first == 45;
    let digits_from = if first == 43 || first == 45 {
        from + 1
    } else {
        from
    };
    proof {
        if digits_from == from + 1 {
            assert(buf@.subrange(from as int + 1, to as int) =~= line.drop_first());
        } else {
            assert(buf@.subrange(from as int, to as int) =~= line);
        }
    }
    match parse_digits(buf, digits_from, to, 0x8000_0000) {
        None => None,
        Some(m) => {
            if negative {
                Some((-(m as i64)) as i32)
            } else if m <= 0x7fff_ffff {
                Some(m as i32)
            } else {
                None
            }
        },
    }
}

/// Reads `buf[from..to]` as a signed decimal line into an `i64`, as
/// `str::parse::<i64>` would; `None` on malformed text or overflow.
pub fn parse_i64(buf: &[u8], from: usize, to: usize) -> (r: Option<i64>)
    requires
        from <= to <= buf@.len(),
    ensures
        ({
            let line = buf@.subrange(from as int, to as int);
            &&& (r is Some <==> (int_of_line(line) matches Some(v) && -0x8000_0000_0000_0000 <= v
                <= 0x7fff_ffff_ffff_ffff))
            &&& (r matches Some(x) ==> int_of_line(line) == Some(x as int))
        }),
{
    let ghost line = buf@.subrange(from as int, to as int);
    if from == to {
        return None;
    }
    let first = buf[from];
    let negative = first == 45;
    let digits_from = if first == 43 || first == 45 {
        from + 1
    } else {
        from
    };
    proof {
        if digits_from == from + 1 {
            assert(buf@.subrange(from as int + 1, to as int) =~= line.drop_first());
        } else {
            assert(buf@.subrange(from as int, to as int) =~= line);
        }
    }
    if negative {
        match parse_digits(buf, digits_from, to, 0x8000_0000_0000_0000) {
            None => None,
            Some(m) => Some((-(m as i128)) as i64),
        }
    } else {
        match parse_digits(buf, digits_from, to, 0x7fff_ffff_ffff_ffff) {
            None => None,
            Some(m) => Some(m as i64),
        }
    }
}

/// `a + b` capped at the largest `u64`.
pub open spec fn sat_add(a: int, b: int) -> int {
    if a + b > u64::MAX {
        u64::MAX as int
    } else {
        a + b
    }
}

/// `a * b` capped at the largest `u64`.
pub open spec fn sat_mul(a: int, b: int) -> int {
    if a * b > u64::MAX {
        u64::MAX as int
    } else {
        a * b
    }
}

/// Decimal digit bytes of `n`, matching `dec_digits`.
pub fn format_u64(n: u64) -> (r: Vec<u8>)
    ensures
        r@ == dec_digits(n as nat),
    decreases n,
{
    if n < 10 {
        let mut v: Vec<u8> = Vec::new();
        v.push(48 + (n as u8));
        proof {
            assert(v@ =~= dec_digits(n as nat));
        }
        v
    } else {
        let mut v = format_u64(n / 10);
        v.push(48 + ((n % 10) as u8));
        proof {
            assert(v@ =~= dec_digits(n as nat));
        }
        v
    }
}

/// Decimal text of `i`, matching `dec_int`.
pub fn format_i32(i: i32) -> (r: Vec<u8>)
    ensures
        r@ == dec_int(i as int),
{
    if i >= 0 {
        format_u64(i as u64)
    } else {
        let magnitude = (-(i as i64)) as u64;
        let mut v: Vec<u8> = Vec::new();
        v.push(45);
        let digits = format_u64(magnitude);
        let mut k: usize = 0;
        while k < digits.len()
            invariant
                k <= digits@.len(),
                v@ == seq![45u8] + digits@.take(k as int),
            decreases digits@.len() - k,
        {
            v.push(digits[k]);
            k += 1;
            proof {
                assert(v@ =~= seq![45u8] + digits@.take(k as int));
            }
        }
        proof {
            assert(digits@.take(digits@.len() as int) =~= digits@);
            assert(v@ =~= dec_int(i as int));
        }
        v
    }
}

/// `a + b`, stopping at the largest representable value.
pub fn sat_add_u64(a: u64, b: u64) -> (r: u64)
    ensures
        r == if a + b > u64::MAX {
            u64::MAX as int
        } else {
            a + b
        },
{
    if a > u64::MAX - b {
        u64::MAX
    } else {
        a + b
    }
}

/// `a * b`, stopping at the largest representable value.
pub fn sat_mul_u64(a: u64, b: u64) -> (r: u64)
    ensures
        r == if a * b > u64::MAX {
            u64::MAX as int
        } else {
            a * b
        },
{
    if b == 0 {
        0
    } else {
        let ghost q = u64::MAX as int / b as int;
        let ghost m = u64::MAX as int % b as int;
        proof {
            vstd::arithmetic::div_mod::lemma_fundamental_div_mod(u64::MAX as int, b as int);
            vstd::arithmetic::div_mod::lemma_mod_division_less_than_divisor(
                u64::MAX as int,
                b as int,
            );
            assert(u64::MAX as int == b as int * q + m);
            assert(0 <= m < b);
        }
        if a > u64::MAX / b {
            proof {
                assert(a * b >= (q + 1) * b) by (nonlinear_arith)
                    requires
                        a >= q + 1,
                        b > 0,
                        q >= 0,
                ;
                assert((q + 1) * b == b as int * q + b) by (nonlinear_arith);
            }
            u64::MAX
        } else {
            proof {
                assert(a * b <= q * b) by (nonlinear_arith)
                    requires
                        a <= q,
                        b > 0,
                        q >= 0,
                ;
                assert(q * b == b as int * q) by (nonlinear_arith);
            }
            a * b
        }
    }
}

} // verus!
