use vstd::prelude::*;
use vstd::string::StrSliceExecFns;
use crate::chars::{digit_char, digit_to_char, digit_value_of, digit_val, is_digit};

verus! {

/// Decimal numeral of `n`, most significant digit first, without sign or
/// leading zeros (zero itself is the single digit `0`).
pub open spec fn dec_digits(n: nat) -> Seq<char>
    decreases n,
{
    if n < 10 {
        seq![digit_char(n as int)]
    } else {
        dec_digits(n / 10) + seq![digit_char((n % 10) as int)]
    }
}

/// Decimal numeral of `i`, with a leading `-` when negative.
pub open spec fn dec_int(i: int) -> Seq<char> {
    if i < 0 {
        seq!['-'] + dec_digits((-i) as nat)
    } else {
        dec_digits(i as nat)
    }
}

/// Append the decimal numeral of `n` to `out`.
pub fn push_dec_u32(out: &mut Vec<char>, n: u32)
    ensures
        final(out)@ == old(out)@ + dec_digits(n as nat),
    decreases n,
{
    if n >= 10 {
        push_dec_u32(out, n / 10);
    }
    out.push(digit_to_char(n % 10));
    proof {
        assert(out@ =~= old(out)@ + dec_digits(n as nat));
    }
}

/// Append the decimal numeral of `i` to `out`.
pub fn push_dec_i32(out: &mut Vec<char>, i: i32)
    ensures
        final(out)@ == old(out)@ + dec_int(i as int),
{
    if i < 0 {
        out.push('-');
        let m: i64 = -(i as i64);
        let n: u32 = m as u32;
        push_dec_u32(out, n);
        proof {
            assert(out@ =~= old(out)@ + dec_int(i as int));
        }
    } else {
        push_dec_u32(out, i as u32);
    }
}

/// All characters of `s` are decimal digits.
pub open spec fn all_digits(s: Seq<char>) -> bool {
    forall|i: int| 0 <= i < s.len() ==> is_digit(#[trigger] s[i])
}

/// Value of a digit string, most significant digit first.
pub open spec fn digits_val(s: Seq<char>) -> int
    decreases s.len(),
{
    if s.len() == 0 {
        0
    } else {
        digits_val(s.drop_last()) * 10 + digit_val(s.last())
    }
}

pub proof fn lemma_digits_val_nonneg(s: Seq<char>)
    requires
        all_digits(s),
    ensures
        digits_val(s) >= 0,
    decreases s.len(),
{
    if s.len() > 0 {
        assert(all_digits(s.drop_last()));
        lemma_digits_val_nonneg(s.drop_last());
    }
}

pub proof fn lemma_digits_val_take_step(s: Seq<char>, k: int)
    requires
        0 <= k < s.len(),
    ensures
        digits_val(s.take(k + 1)) == digits_val(s.take(k)) * 10 + digit_val(s[k]),
{
    assert(s.take(k + 1).drop_last() =~= s.take(k));
    assert(s.take(k + 1).last() == s[k]);
}

/// Extending a digit string never decreases its value.
pub proof fn lemma_digits_val_take_mono(s: Seq<char>, k: int)
    requires
        all_digits(s),
        0 <= k <= s.len(),
    ensures
        digits_val(s.take(k)) <= digits_val(s),
    decreases s.len() - k,
{
    if k < s.len() {
        assert(all_digits(s.take(k)));
        lemma_digits_val_nonneg(s.take(k));
        lemma_digits_val_take_step(s, k);
        lemma_digits_val_take_mono(s, k + 1);
    } else {
        assert(s.take(k) =~= s);
    }
}

/// The numeral written for `n` consists of digits and reads back as `n`.
pub proof fn lemma_dec_digits_val(n: nat)
    ensures
        all_digits(dec_digits(n)),
        digits_val(dec_digits(n)) == n,
        dec_digits(n).len() >= 1,
    decreases n,
{
    if n < 10 {
        let s = dec_digits(n);
        assert(s.drop_last() =~= Seq::<char>::empty());
        assert(digits_val(Seq::<char>::empty()) == 0);
        assert(s.last() == digit_char(n as int));
    } else {
        lemma_dec_digits_val(n / 10);
        let s = dec_digits(n);
        assert(s.drop_last() =~= dec_digits(n / 10));
        assert(s.last() == digit_char((n % 10) as int));
        assert(forall|i: int| 0 <= i < s.len() ==> is_digit(#[trigger] s[i]));
    }
}

/// The integer denoted by `s` under the usual signed decimal grammar: an
/// optional `+` or `-` sign, then one or more digits (leading zeros
/// allowed); `None` when `s` does not conform or the value does not fit
/// in `i32`.
pub open spec fn spec_parse_i32(s: Seq<char>) -> Option<int> {
    let negative = s.len() > 0 && s[0] == '-';
    let ds = if s.len() > 0 && (s[0] == '-' || s[0] == '+') {
        s.drop_first()
    } else {
        s
    };
    if ds.len() == 0 || !all_digits(ds) {
        None
    } else {
        let v = if negative {
            -digits_val(ds)
        } else {
            digits_val(ds)
        };
        if i32::MIN <= v <= i32::MAX {
            Some(v)
        } else {
            None
        }
    }
}

/// Round trip: the decimal numeral written for any `i32` value parses back
/// to exactly that value.
pub proof fn lemma_dec_int_round_trip(v: int)
    requires
        i32::MIN <= v <= i32::MAX,
    ensures
        spec_parse_i32(dec_int(v)) == Some(v),
{
    if v < 0 {
        lemma_dec_digits_val((-v) as nat);
        let s = dec_int(v);
        assert(s[0] == '-');
        assert(s.drop_first() =~= dec_digits((-v) as nat));
    } else {
        lemma_dec_digits_val(v as nat);
        let s = dec_int(v);
        assert(is_digit(s[0]));
        assert(s[0] != '-' && s[0] != '+');
    }
}

/// Parse a signed decimal numeral, exactly as [`spec_parse_i32`] says.
pub fn parse_i32(s: &str) -> (r: Option<i32>)
    ensures
        match r {
            Some(v) => spec_parse_i32(s@) == Some(v as int),
            None => spec_parse_i32(s@) is None,
        },
{
    let n = s.unicode_len();
    let mut off: usize = 0;
    let mut negative = false;
    if n > 0 {
        let c0 = s.get_char(0);
        if c0 == '-' {
            negative = true;
            off = 1;
        } else if c0 == '+' {
            off = 1;
        }
    }
    let ghost ds = if off == 1 {
        s@.drop_first()
    } else {
        s@
    };
    proof {
        assert(ds =~= s@.subrange(off as int, n as int));
    }
    if off == n {
        return None;
    }
    let mut acc: i64 = 0;
    let mut i: usize = off;
    while i < n
        invariant
            off <= i <= n,
            n == s@.len(),
            off == 0 || off == 1,
            off == 1 ==> ds == s@.drop_first(),
            off == 0 ==> ds == s@,
            ds.len() == n - off,
            n - off >= 1,
            all_digits(ds.take(i - off)),
            acc == digits_val(ds.take(i - off)),
            0 <= acc <= 2147483648,
            negative == (s@.len() > 0 && s@[0] == '-'),
            off == 1 ==> (s@[0] == '-' || s@[0] == '+'),
            off == 0 ==> !(s@.len() > 0 && (s@[0] == '-' || s@[0] == '+')),
        decreases n - i,
    {
        let c = s.get_char(i);
        let d = match digit_value_of(c) {
            Some(d) => d,
            None => {
                proof {
                    assert(ds[i - off] == c);
                    assert(!all_digits(ds));
                }
                return None;
            },
        };
        acc = acc * 10 + (d as i64);
        proof {
            assert(ds[i - off] == c);
            lemma_digits_val_take_step(ds, i - off);
            assert(ds.take(i - off + 1).len() == i - off + 1);
            assert(forall|j: int| 0 <= j < i - off + 1 ==> is_digit(#[trigger] ds.take(i - off + 1)[j]));
        }
        if acc > 2147483648 {
            proof {
                assert(acc == digits_val(ds.take(i - off + 1)));
                if all_digits(ds) {
                    lemma_digits_val_take_mono(ds, i - off + 1);
                    assert(digits_val(ds) > 2147483648);
                }
            }
            return None;
        }
        i = i + 1;
    }
    proof {
        assert(ds.take(n - off) =~= ds);
    }
    if negative {
        let v: i64 = -acc;
        return Some(v as i32);
    }
    if acc > 2147483647 {
        return None;
    }
    Some(acc as i32)
}

} // verus!
