//! Unsigned numbers written in text: parsing (`u32::from_str_radix`) and decimal printing.
use vstd::prelude::*;

use crate::keys::char_from_ascii;

verus! {

/// Value of a digit character in a radix.
pub open spec fn digit_value(c: char, radix: nat) -> Option<nat> {
    let u = c as u32;
    let d: int = if 0x30 <= u <= 0x39 {
        u - 0x30
    } else if 0x61 <= u <= 0x7a {
        u - 0x61 + 10
    } else if 0x41 <= u <= 0x5a {
        u - 0x41 + 10
    } else {
        -1
    };
    if 0 <= d < radix {
        Some(d as nat)
    } else {
        None
    }
}

/// Value of a sequence of digits (none is zero).
pub open spec fn digits_value(s: Seq<char>, radix: nat) -> Option<nat>
    decreases s.len(),
{
    if s.len() == 0 {
        Some(0)
    } else {
        match (digits_value(s.drop_last(), radix), digit_value(s.last(), radix)) {
            (Some(v), Some(d)) => Some(v * radix + d),
            _ => None,
        }
    }
}

/// `u32::from_str_radix`: an optional `+` and at least one digit, with a value
/// that fits in `u32`.
pub open spec fn parse_u32(s: Seq<char>, radix: nat) -> Option<u32> {
    let digits = if s.len() > 0 && s[0] == '+' {
        s.drop_first()
    } else {
        s
    };
    if digits.len() == 0 {
        None
    } else {
        match digits_value(digits, radix) {
            Some(v) => if v <= u32::MAX {
                Some(v as u32)
            } else {
                None
            },
            None => None,
        }
    }
}

proof fn lemma_digits_prefix(s: Seq<char>, radix: nat, k: int)
    requires
        radix >= 1,
        0 <= k <= s.len(),
        digits_value(s, radix) is Some,
    ensures
        digits_value(s.take(k), radix) is Some,
        digits_value(s.take(k), radix)->0 <= digits_value(s, radix)->0,
    decreases s.len(),
{
    if k == s.len() {
        assert(s.take(k) =~= s);
    } else {
        let t = s.drop_last();
        lemma_digits_prefix(t, radix, k);
        assert(t.take(k) =~= s.take(k));
        let v = digits_value(t, radix)->0;
        let d = digit_value(s.last(), radix)->0;
        assert(v * radix + d >= v) by (nonlinear_arith)
            requires
                radix >= 1,
                d >= 0,
                v >= 0,
        ;
    }
}

fn digit_value_exec(c: char, radix: u32) -> (r: Option<u32>)
    ensures
        match r {
            Some(d) => digit_value(c, radix as nat) == Some(d as nat),
            None => digit_value(c, radix as nat) is None,
        },
{
    let u = c as u32;
    let d: u32 = if 0x30 <= u && u <= 0x39 {
        u - 0x30
    } else if 0x61 <= u && u <= 0x7a {
        u - 0x61 + 10
    } else if 0x41 <= u && u <= 0x5a {
        u - 0x41 + 10
    } else {
        return None;
    };
    if d < radix {
        Some(d)
    } else {
        None
    }
}

/// Executable `parse_u32`.
pub fn parse_u32_exec(s: &[char], radix: u32) -> (r: Option<u32>)
    requires
        2 <= radix <= 36,
    ensures
        r == parse_u32(s@, radix as nat),
{
    let digits: &[char] = if s.len() > 0 && s[0] == '+' {
        &s[1..s.len()]
    } else {
        s
    };
    assert(s@.len() > 0 && s@[0] == '+' ==> digits@ =~= s@.drop_first());
    assert(!(s@.len() > 0 && s@[0] == '+') ==> digits@ =~= s@);
    if digits.len() == 0 {
        return None;
    }
    let mut acc: u64 = 0;
    let mut i: usize = 0;
    assert(digits@.take(0) =~= Seq::<char>::empty());
    while i < digits.len()
        invariant
            2 <= radix <= 36,
            i <= digits@.len(),
            digits@.len() > 0,
            s@.len() > 0 && s@[0] == '+' ==> digits@ == s@.drop_first(),
            !(s@.len() > 0 && s@[0] == '+') ==> digits@ == s@,
            digits_value(digits@.take(i as int), radix as nat) == Some(acc as nat),
            acc <= u32::MAX,
        decreases digits.len() - i,
    {
        let ghost t = digits@.take(i + 1);
        assert(t.drop_last() =~= digits@.take(i as int));
        match digit_value_exec(digits[i], radix) {
            Some(d) => {
                assert(acc * radix <= 0xffff_ffff * 36) by (nonlinear_arith)
                    requires
                        acc <= 0xffff_ffff,
                        radix <= 36,
                ;
                let next = acc * (radix as u64) + (d as u64);
                if next > 0xffff_ffff {
                    proof {
                        if digits_value(digits@, radix as nat) is Some {
                            lemma_digits_prefix(digits@, radix as nat, i + 1);
                        }
                    }
                    return None;
                }
                acc = next;
                i = i + 1;
            },
            None => {
                proof {
                    if digits_value(digits@, radix as nat) is Some {
                        lemma_digits_prefix(digits@, radix as nat, i + 1);
                    }
                }
                return None;
            },
        }
    }
    assert(digits@.take(digits.len() as int) =~= digits@);
    Some(acc as u32)
}

/// Decimal digits of a number.
pub open spec fn decimal(n: nat) -> Seq<char>
    decreases n,
{
    if n < 10 {
        seq![(n + 0x30) as char]
    } else {
        decimal(n / 10).push(((n % 10) + 0x30) as char)
    }
}

/// Executable `decimal`.
pub fn decimal_exec(n: u32) -> (r: Vec<char>)
    ensures
        r@ == decimal(n as nat),
    decreases n,
{
    if n < 10 {
        let mut v: Vec<char> = Vec::new();
        v.push(char_from_ascii(n + 0x30));
        assert(v@ =~= seq![(n + 0x30) as char]);
        v
    } else {
        let mut v = decimal_exec(n / 10);
        v.push(char_from_ascii(n % 10 + 0x30));
        v
    }
}

} // verus!
