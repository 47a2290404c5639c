//! Amounts of SOL.

use vstd::prelude::*;
use crate::config::{decimal_value, digit_value, is_decimal_digit, parse_unsigned, unsigned_digits};

verus! {

/// Lamports in one SOL.
pub const LAMPORTS_PER_SOL: u64 = 1_000_000_000;

/// Ten to the power `k`.
pub open spec fn pow10(k: nat) -> nat
    decreases k,
{
    if k == 0 {
        1
    } else {
        10 * pow10((k - 1) as nat)
    }
}

/// Powers of ten are positive.
proof fn lemma_pow10_positive(k: nat)
    ensures
        pow10(k) >= 1,
    decreases k,
{
    if k > 0 {
        lemma_pow10_positive((k - 1) as nat);
    }
}

/// The decimal digit character for `d` (below ten).
pub open spec fn digit_char(d: nat) -> char {
    ('0' as u32 + d) as char
}

/// The last `width` decimal digits of `n`, zero-padded, most significant first.
pub open spec fn padded_decimal(n: nat, width: nat) -> Seq<char>
    decreases width,
{
    if width == 0 {
        Seq::empty()
    } else {
        padded_decimal(n / 10, (width - 1) as nat).push(digit_char(n % 10))
    }
}

/// How an amount below one SOL is shown: `0.` and the lamports as nine decimals,
/// then ` SOL`; the decimals are exact.
pub open spec fn sub_sol_text(lamports: nat) -> Seq<char> {
    "0."@ + padded_decimal(lamports, 9) + " SOL"@
}

/// The one-character text of a decimal digit.
pub(crate) fn digit_text(d: u64) -> (s: &'static str)
    requires
        d < 10,
    ensures
        s@ == seq![digit_char(d as nat)],
{
    proof {
        reveal_strlit("0");
        reveal_strlit("1");
        reveal_strlit("2");
        reveal_strlit("3");
        reveal_strlit("4");
        reveal_strlit("5");
        reveal_strlit("6");
        reveal_strlit("7");
        reveal_strlit("8");
        reveal_strlit("9");
    }
    match d {
        0 => "0",
        1 => "1",
        2 => "2",
        3 => "3",
        4 => "4",
        5 => "5",
        6 => "6",
        7 => "7",
        8 => "8",
        _ => "9",
    }
}

/// Shows an amount below one SOL with nine decimals (`0.000000042 SOL`), the
/// way `format_sol` shows such amounts.
pub fn format_sub_sol(lamports: u64) -> (s: String)
    requires
        lamports < LAMPORTS_PER_SOL,
    ensures
        s@ == sub_sol_text(lamports as nat),
        s@.len() == 15,
        s@.subrange(0, 2) == "0."@,
        s@.subrange(11, 15) == " SOL"@,
        parse_unsigned(s@.subrange(2, 11), u64::MAX as nat) == Some(lamports as nat),
{
    proof {
        lemma_sub_sol_text_shows_amount(lamports);
    }
    let mut s = String::from_str("0.");
    let mut div: u64 = 100_000_000;
    let mut k: u32 = 9;
    proof {
        reveal_with_fuel(pow10, 10);
        assert(pow10(9) == 1_000_000_000);
        assert(pow10(8) == 100_000_000);
        assert(lamports as nat / pow10(9) == 0);
        assert(padded_decimal(lamports as nat / pow10(9), 0) =~= Seq::<char>::empty());
    }
    while k > 0
        invariant
            0 <= k <= 9,
            k > 0 ==> div == pow10((k - 1) as nat),
            div >= 1,
            s@ == "0."@ + padded_decimal(lamports as nat / pow10(k as nat), (9 - k) as nat),
        decreases k,
    {
        let d = (lamports / div) % 10;
        proof {
            lemma_pow10_positive((k - 1) as nat);
            vstd::arithmetic::div_mod::lemma_div_denominator(lamports as int, div as int, 10);
            assert(pow10(k as nat) == div * 10);
            assert((lamports as nat / div as nat) / 10 == lamports as nat / pow10(k as nat));
        }
        s.append(digit_text(d));
        proof {
            let next = lamports as nat / pow10((k - 1) as nat);
            assert(padded_decimal(next, (9 - k + 1) as nat) == padded_decimal(next / 10, (9 - k) as nat).push(digit_char(next % 10)));
        }
        k = k - 1;
        if k > 0 {
            proof {
                lemma_pow10_positive((k - 1) as nat);
                assert(pow10((k + 1) as nat) == 10 * pow10(k as nat));
            }
            div = div / 10;
        }
    }
    s.append(" SOL");
    proof {
        reveal_with_fuel(pow10, 1);
        assert(pow10(0) == 1);
        assert(lamports as nat / 1 == lamports as nat);
        assert(lamports as nat / pow10(0) == lamports as nat);
    }
    s
}

/// The decimals that `format_sub_sol` writes read back as the lamports they
/// show: `digits` decimal places hold an amount exactly when it is below
/// `10^digits`.
pub proof fn lemma_padded_decimal_reads_back(n: nat, width: nat)
    ensures
        decimal_value(padded_decimal(n, width)) == n % pow10(width),
        forall|i: int|
            0 <= i < padded_decimal(n, width).len() ==> is_decimal_digit(
                #[trigger] padded_decimal(n, width)[i],
            ),
        padded_decimal(n, width).len() == width,
    decreases width,
{
    if width > 0 {
        let rest = padded_decimal(n / 10, (width - 1) as nat);
        lemma_padded_decimal_reads_back(n / 10, (width - 1) as nat);
        let s = padded_decimal(n, width);
        assert(s.drop_last() =~= rest);
        assert(digit_value(s.last()) == n % 10);
        lemma_pow10_positive((width - 1) as nat);
        vstd::arithmetic::div_mod::lemma_breakdown(n as int, 10, pow10((width - 1) as nat) as int);
    }
}

/// The nine decimals shown for an amount below one SOL read back, as an
/// unsigned number, as exactly that many lamports.
pub proof fn lemma_sub_sol_decimals_read_back(lamports: u64)
    requires
        lamports < LAMPORTS_PER_SOL,
    ensures
        parse_unsigned(padded_decimal(lamports as nat, 9), u64::MAX as nat) == Some(lamports as nat),
{
    let digits = padded_decimal(lamports as nat, 9);
    lemma_padded_decimal_reads_back(lamports as nat, 9);
    reveal_with_fuel(pow10, 10);
    assert(pow10(9) == 1_000_000_000);
    assert(is_decimal_digit(digits[0]));
    assert(unsigned_digits(digits) == digits);
}

/// An amount below one SOL is shown as `0.`, nine decimals and ` SOL`, and the
/// nine decimals read back, as an unsigned number, as exactly that many
/// lamports: no two amounts are shown alike, and no amount is shown scaled.
pub proof fn lemma_sub_sol_text_shows_amount(lamports: u64)
    requires
        lamports < LAMPORTS_PER_SOL,
    ensures
        sub_sol_text(lamports as nat).len() == 15,
        sub_sol_text(lamports as nat).subrange(0, 2) == "0."@,
        sub_sol_text(lamports as nat).subrange(11, 15) == " SOL"@,
        parse_unsigned(sub_sol_text(lamports as nat).subrange(2, 11), u64::MAX as nat) == Some(
            lamports as nat,
        ),
{
    reveal_strlit("0.");
    reveal_strlit(" SOL");
    let digits = padded_decimal(lamports as nat, 9);
    lemma_padded_decimal_reads_back(lamports as nat, 9);
    lemma_sub_sol_decimals_read_back(lamports);
    let t = sub_sol_text(lamports as nat);
    assert(t.subrange(0, 2) =~= "0."@);
    assert(t.subrange(2, 11) =~= digits);
    assert(t.subrange(11, 15) =~= " SOL"@);
}

} // verus!
