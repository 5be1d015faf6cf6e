//! Decimal numerals.
use vstd::prelude::*;
use vstd::string::*;

verus! {

/// The decimal digit `d` as a character.
pub open spec fn digit_char(d: nat) -> char {
    (48 + d) as char
}

/// The decimal numeral of `n`, without leading zeros.
pub open spec fn decimal(n: nat) -> Seq<char>
    decreases n,
{
    if n < 10 {
        seq![digit_char(n)]
    } else {
        decimal(n / 10).push(digit_char(n % 10))
    }
}

/// The decimal numeral of `n`, with a leading minus sign when `n` is negative.
pub open spec fn signed_decimal(n: int) -> Seq<char> {
    if n < 0 {
        seq!['-'] + decimal((-n) as nat)
    } else {
        decimal(n as nat)
    }
}

fn digit_str(d: u64) -> (s: &'static str)
    requires
        d < 10,
    ensures
        s@ == seq![digit_char(d as nat)],
{
    proof {
        reveal_strlit("0");
        reveal_strlit("1");
        reveal_strlit("2");
        reveal_strlit("3");
        reveal_strlit("4");
        reveal_strlit("5");
        reveal_strlit("6");
        reveal_strlit("7");
        reveal_strlit("8");
        reveal_strlit("9");
    }
    let s: &'static str = match d {
        0 => "0",
        1 => "1",
        2 => "2",
        3 => "3",
        4 => "4",
        5 => "5",
        6 => "6",
        7 => "7",
        8 => "8",
        _ => "9",
    };
    assert(s@ =~= seq![digit_char(d as nat)]);
    s
}

/// Writes `n` in decimal.
pub fn u64_text(n: u64) -> (s: String)
    ensures
        s@ == decimal(n as nat),
    decreases n,
{
    if n < 10 {
        String::from_str(digit_str(n))
    } else {
        let mut s = u64_text(n / 10);
        s.append(digit_str(n % 10));
        proof {
            assert(s@ =~= decimal((n / 10) as nat).push(digit_char((n % 10) as nat)));
        }
        s
    }
}

/// Writes `n` in decimal, with a leading minus sign when it is negative.
pub fn i64_text(n: i64) -> (s: String)
    ensures
        s@ == signed_decimal(n as int),
{
    if n < 0 {
        proof {
            reveal_strlit("-");
        }
        let mut s = String::from_str("-");
        assert(s@ =~= seq!['-']);
        let m: u64 = (-(n as i128)) as u64;
        s.append(u64_text(m).as_str());
        s
    } else {
        u64_text(n as u64)
    }
}

/// The numerals go by tens: below ten a numeral is one digit, and a further digit at
/// the end makes ten times the number and the digit. A numeral is made of digits, and
/// only that of zero starts with a zero.
pub proof fn numerals_go_by_tens(n: nat, d: nat)
    requires
        d < 10,
    ensures
        decimal(d).len() == 1,
        decimal(d)[0] as int == '0' as int + d,
        n > 0 ==> decimal(10 * n + d) == decimal(n) + decimal(d),
        forall|i: int| 0 <= i < decimal(n).len() ==> '0' <= #[trigger] decimal(n)[i] <= '9',
        decimal(n).len() > 0,
        n > 0 ==> decimal(n)[0] != '0',
    decreases n,
{
    if n > 0 {
        assert((10 * n + d) / 10 == n);
        assert((10 * n + d) % 10 == d);
        assert(decimal(n) + decimal(d) =~= decimal(n).push(digit_char(d)));
    }
    if n >= 10 {
        numerals_go_by_tens(n / 10, n % 10);
        let before = decimal(n / 10);
        assert forall|i: int| 0 <= i < decimal(n).len() implies '0' <= #[trigger] decimal(n)[i]
            <= '9' by {
            if i < before.len() {
                assert(decimal(n)[i] == before[i]);
            }
        }
    }
}

/// A number of 64 bits that is taken for a signed one, or back, is itself if it can be;
/// otherwise it is off by the number of all such numbers.
pub proof fn numbers_keep_their_bits(n: u64, m: i64)
    ensures
        n as i64 == if n <= i64::MAX {
            n as int
        } else {
            n - 0x1_0000_0000_0000_0000
        },
        m as u64 == if m >= 0 {
            m as int
        } else {
            m + 0x1_0000_0000_0000_0000
        },
{
    if n > i64::MAX {
        assert(n as i64 == n - 0x1_0000_0000_0000_0000) by (bit_vector)
            requires
                n > 0x7fff_ffff_ffff_ffff,
        ;
    }
    if m < 0 {
        assert(m as u64 == m + 0x1_0000_0000_0000_0000) by (bit_vector)
            requires
                m < 0,
        ;
    }
}

/// A number below zero is written as a minus sign and the number without it.
pub proof fn negative_numerals_have_a_sign(n: nat)
    ensures
        signed_decimal(n as int) == decimal(n),
        n > 0 ==> signed_decimal(-(n as int)).len() == decimal(n).len() + 1,
        n > 0 ==> signed_decimal(-(n as int))[0] == '-',
        n > 0 ==> signed_decimal(-(n as int)).skip(1) == decimal(n),
{
    if n > 0 {
        assert(signed_decimal(-(n as int)).skip(1) =~= decimal(n));
    }
}

} // verus!
