//! Verified parsing of the decimal integer literals that appear in
//! `type=`, `code=` and `value=` conditions: an optional sign (`+` only
//! for the unsigned fields, `+` or `-` for the signed one) followed by
//! at least one decimal digit, rejecting anything else and any value
//! outside the target type's range.

use vstd::prelude::*;

verus! {

/// Whether a byte is an ASCII decimal digit.
pub open spec fn is_digit(b: u8) -> bool {
    48 <= b && b <= 57
}

/// Whether every byte of the sequence is a decimal digit.
pub open spec fn all_digits(s: Seq<u8>) -> bool {
    forall|i: int| 0 <= i < s.len() ==> is_digit(#[trigger] s[i])
}

/// The numeric value of a digit sequence read in base ten.
pub open spec fn dec_val(s: Seq<u8>) -> int
    decreases s.len(),
{
    if s.len() == 0 {
        0
    } else {
        dec_val(s.drop_last()) * 10 + (s.last() - 48)
    }
}

/// The digits of an unsigned literal: everything after an optional
/// leading `+`.
pub open spec fn unsigned_digits(s: Seq<u8>) -> Seq<u8> {
    if s.len() > 0 && s[0] == 43 {
        s.skip(1)
    } else {
        s
    }
}

/// The digits of a signed literal: everything after an optional leading
/// `+` or `-`.
pub open spec fn signed_digits(s: Seq<u8>) -> Seq<u8> {
    if s.len() > 0 && (s[0] == 43 || s[0] == 45) {
        s.skip(1)
    } else {
        s
    }
}

/// Whether a signed literal carries a leading minus sign.
pub open spec fn is_negative_literal(s: Seq<u8>) -> bool {
    s.len() > 0 && s[0] == 45
}

/// What parsing the byte sequence as a 16-bit unsigned decimal literal
/// yields: the value when the literal is well formed and in range,
/// nothing otherwise.
pub open spec fn u16_from_dec(s: Seq<u8>) -> Option<u16> {
    let d = unsigned_digits(s);
    if d.len() > 0 && all_digits(d) && dec_val(d) <= 65535 {
        Some(dec_val(d) as u16)
    } else {
        None
    }
}

/// What parsing the byte sequence as a 32-bit signed decimal literal
/// yields: the value when the literal is well formed and in range,
/// nothing otherwise.
pub open spec fn i32_from_dec(s: Seq<u8>) -> Option<i32> {
    let d = signed_digits(s);
    let v = if is_negative_literal(s) {
        -dec_val(d)
    } else {
        dec_val(d)
    };
    if d.len() > 0 && all_digits(d) && -2147483648 <= v && v <= 2147483647 {
        Some(v as i32)
    } else {
        None
    }
}

/// A digit sequence's value is never negative.
pub proof fn lemma_dec_val_nonneg(s: Seq<u8>)
    requires
        all_digits(s),
    ensures
        dec_val(s) >= 0,
    decreases s.len(),
{
    if s.len() > 0 {
        assert forall|i: int| 0 <= i < s.drop_last().len() implies is_digit(
            #[trigger] s.drop_last()[i],
        ) by {
            assert(s.drop_last()[i] == s[i]);
        }
        lemma_dec_val_nonneg(s.drop_last());
    }
}

/// Extending a digit sequence never shrinks its value: every prefix's
/// value is at most the whole sequence's value.
pub proof fn lemma_dec_val_prefix_le(s: Seq<u8>, k: int)
    requires
        all_digits(s),
        0 <= k <= s.len(),
    ensures
        dec_val(s.take(k)) <= dec_val(s),
    decreases s.len() - k,
{
    if k == s.len() {
        assert(s.take(k) =~= s);
    } else {
        assert(s.take(k + 1).drop_last() =~= s.take(k));
        assert(s.take(k + 1).last() == s[k]);
        assert forall|i: int| 0 <= i < s.take(k).len() implies is_digit(
            #[trigger] s.take(k)[i],
        ) by {
            assert(s.take(k)[i] == s[i]);
        }
        lemma_dec_val_nonneg(s.take(k));
        assert(dec_val(s.take(k + 1)) == dec_val(s.take(k)) * 10 + (s[k] - 48));
        lemma_dec_val_prefix_le(s, k + 1);
    }
}

/// Parses the bytes of `s` from position `from` onward as a 16-bit
/// unsigned decimal literal.
pub fn parse_u16(s: &Vec<u8>, from: usize) -> (r: Option<u16>)
    requires
        from <= s@.len(),
    ensures
        r == u16_from_dec(s@.skip(from as int)),
{
    let ghost full = s@.skip(from as int);
    let mut i: usize = from;
    if i < s.len() && s[i] == 43 {
        i = i + 1;
    }
    let ghost d = unsigned_digits(full);
    proof {
        assert(d =~= s@.skip(i as int));
    }
    if i == s.len() {
        return None;
    }
    let start: usize = i;
    let mut acc: u32 = 0;
    while i < s.len()
        invariant
            start <= i <= s@.len(),
            start < s@.len(),
            full == s@.skip(from as int),
            d == unsigned_digits(full),
            d =~= s@.skip(start as int),
            all_digits(s@.subrange(start as int, i as int)),
            acc == dec_val(s@.subrange(start as int, i as int)),
            acc <= 65535,
        decreases s@.len() - i,
    {
        let b: u8 = s[i];
        proof {
            assert(d[i - start] == s@[i as int]);
        }
        if b < 48 || b > 57 {
            proof {
                assert(!is_digit(d[i - start]));
                assert(!all_digits(d));
            }
            return None;
        }
        let ghost pre = s@.subrange(start as int, i as int);
        let ghost ext = s@.subrange(start as int, i as int + 1);
        proof {
            assert(ext.drop_last() =~= pre);
            assert(ext.last() == s@[i as int]);
            assert(dec_val(ext) == dec_val(pre) * 10 + (s@[i as int] - 48));
            assert forall|j: int| 0 <= j < ext.len() implies is_digit(#[trigger] ext[j]) by {
                if j < pre.len() {
                    assert(ext[j] == pre[j]);
                } else {
                    assert(ext[j] == s@[i as int]);
                }
            }
        }
        acc = acc * 10 + (b - 48) as u32;
        i = i + 1;
        proof {
            assert(acc == dec_val(ext));
            assert(s@.subrange(start as int, i as int) =~= ext);
        }
        if acc > 65535 {
            proof {
                assert(ext =~= d.take(i - start));
                if all_digits(d) {
                    lemma_dec_val_prefix_le(d, i - start);
                    assert(dec_val(d) >= dec_val(ext));
                }
                assert(u16_from_dec(full) is None);
            }
            return None;
        }
    }
    proof {
        assert(s@.subrange(start as int, i as int) =~= d);
    }
    Some(acc as u16)
}

/// Parses the bytes of `s` from position `from` onward as a 32-bit
/// signed decimal literal.
pub fn parse_i32(s: &Vec<u8>, from: usize) -> (r: Option<i32>)
    requires
        from <= s@.len(),
    ensures
        r == i32_from_dec(s@.skip(from as int)),
{
    let ghost full = s@.skip(from as int);
    let mut i: usize = from;
    let mut neg: bool = false;
    if i < s.len() && (s[i] == 43 || s[i] == 45) {
        neg = s[i] == 45;
        i = i + 1;
    }
    let ghost d = signed_digits(full);
    proof {
        assert(d =~= s@.skip(i as int));
        assert(neg == is_negative_literal(full));
    }
    if i == s.len() {
        return None;
    }
    let start: usize = i;
    let mut acc: u64 = 0;
    while i < s.len()
        invariant
            start <= i <= s@.len(),
            start < s@.len(),
            full == s@.skip(from as int),
            d == signed_digits(full),
            d =~= s@.skip(start as int),
            all_digits(s@.subrange(start as int, i as int)),
            acc == dec_val(s@.subrange(start as int, i as int)),
            acc <= 2147483648,
            neg == is_negative_literal(full),
        decreases s@.len() - i,
    {
        let b: u8 = s[i];
        proof {
            assert(d[i - start] == s@[i as int]);
        }
        if b < 48 || b > 57 {
            proof {
                assert(!is_digit(d[i - start]));
                assert(!all_digits(d));
            }
            return None;
        }
        let ghost pre = s@.subrange(start as int, i as int);
        let ghost ext = s@.subrange(start as int, i as int + 1);
        proof {
            assert(ext.drop_last() =~= pre);
            assert(ext.last() == s@[i as int]);
            assert(dec_val(ext) == dec_val(pre) * 10 + (s@[i as int] - 48));
            assert forall|j: int| 0 <= j < ext.len() implies is_digit(#[trigger] ext[j]) by {
                if j < pre.len() {
                    assert(ext[j] == pre[j]);
                } else {
                    assert(ext[j] == s@[i as int]);
                }
            }
        }
        acc = acc * 10 + (b - 48) as u64;
        i = i + 1;
        proof {
            assert(acc == dec_val(ext));
            assert(s@.subrange(start as int, i as int) =~= ext);
        }
        if acc > 2147483648 {
            proof {
                assert(ext =~= d.take(i - start));
                if all_digits(d) {
                    lemma_dec_val_prefix_le(d, i - start);
                    assert(dec_val(d) >= dec_val(ext));
                }
                assert(i32_from_dec(full) is None);
            }
            return None;
        }
    }
    proof {
        assert(s@.subrange(start as int, i as int) =~= d);
        lemma_dec_val_nonneg(d);
    }
    if neg {
        if acc == 2147483648 {
            Some(-2147483648i32)
        } else {
            Some(-(acc as i32))
        }
    } else {
        if acc == 2147483648 {
            None
        } else {
            Some(acc as i32)
        }
    }
}

} // verus!
