use vstd::prelude::*;

verus! {

/// Ten to the power `e`.
pub open spec fn pow10(e: nat) -> nat
    decreases e,
{
    if e == 0 {
        1
    } else {
        10 * pow10((e - 1) as nat)
    }
}

/// The character of a decimal digit.
pub open spec fn digit_char(d: nat) -> char {
    if d == 0 {
        '0'
    } else if d == 1 {
        '1'
    } else if d == 2 {
        '2'
    } else if d == 3 {
        '3'
    } else if d == 4 {
        '4'
    } else if d == 5 {
        '5'
    } else if d == 6 {
        '6'
    } else if d == 7 {
        '7'
    } else if d == 8 {
        '8'
    } else {
        '9'
    }
}

/// Decimal digits of `n`, most significant first, with no leading zeros
/// (zero is the single digit `0`).
pub open spec fn dec_digits(n: nat) -> Seq<char>
    decreases n,
{
    if n < 10 {
        seq![digit_char(n)]
    } else {
        dec_digits(n / 10).push(digit_char(n % 10))
    }
}

/// `s` left-padded with `'0'` to width `w`.
pub open spec fn pad_zeros(s: Seq<char>, w: nat) -> Seq<char> {
    if s.len() >= w {
        s
    } else {
        Seq::new((w - s.len()) as nat, |i: int| '0') + s
    }
}

/// The canonical text of `n` base units with `d` decimal places: the quotient
/// by `10^d`, then, when `d > 0`, a point and the remainder padded to `d`
/// digits. Trailing zeros are kept.
pub open spec fn amount_text(n: nat, d: nat) -> Seq<char> {
    if d == 0 {
        dec_digits(n)
    } else {
        dec_digits(n / pow10(d)) + seq!['.'] + pad_zeros(dec_digits(n % pow10(d)), d)
    }
}

pub proof fn lemma_pow10_positive(e: nat)
    ensures
        pow10(e) >= 1,
    decreases e,
{
    if e > 0 {
        lemma_pow10_positive((e - 1) as nat);
    }
}

proof fn lemma_pow10_monotone(a: nat, b: nat)
    requires
        a <= b,
    ensures
        pow10(a) <= pow10(b),
    decreases b,
{
    if a < b {
        lemma_pow10_monotone(a, (b - 1) as nat);
        lemma_pow10_positive((b - 1) as nat);
    }
}

fn digit_str(d: u128) -> (r: &'static str)
    requires
        d < 10,
    ensures
        r@ == seq![digit_char(d as nat)],
{
    proof {
        reveal_strlit("0");
        reveal_strlit("1");
        reveal_strlit("2");
        reveal_strlit("3");
        reveal_strlit("4");
        reveal_strlit("5");
        reveal_strlit("6");
        reveal_strlit("7");
        reveal_strlit("8");
        reveal_strlit("9");
    }
    if d == 0 {
        "0"
    } else if d == 1 {
        "1"
    } else if d == 2 {
        "2"
    } else if d == 3 {
        "3"
    } else if d == 4 {
        "4"
    } else if d == 5 {
        "5"
    } else if d == 6 {
        "6"
    } else if d == 7 {
        "7"
    } else if d == 8 {
        "8"
    } else {
        "9"
    }
}

/// Appends the decimal digits of `n` to `out`.
fn push_digits(n: u128, out: &mut String)
    ensures
        final(out)@ == old(out)@ + dec_digits(n as nat),
    decreases n,
{
    if n >= 10 {
        push_digits(n / 10, out);
        out.append(digit_str(n % 10));
    } else {
        out.append(digit_str(n));
    }
}

/// Number of decimal digits of `n`.
fn digit_count(n: u128) -> (r: usize)
    ensures
        r as nat == dec_digits(n as nat).len(),
    decreases n,
{
    proof {
        lemma_u128_digits(n);
    }
    if n >= 10 {
        let k = digit_count(n / 10);
        k + 1
    } else {
        1
    }
}

/// A `u128` has at most 39 decimal digits.
proof fn lemma_u128_digits(n: u128)
    ensures
        dec_digits(n as nat).len() <= 39,
{
    lemma_pow10_39();
    lemma_digits_len_below(n as nat, 39);
}

proof fn lemma_pow10_39()
    ensures
        pow10(38) == 100000000000000000000000000000000000000nat,
        pow10(39) == 1000000000000000000000000000000000000000nat,
{
    reveal_with_fuel(pow10, 40);
}

/// A number below `10^k` (with `k >= 1`) has at most `k` digits.
proof fn lemma_digits_len_below(n: nat, k: nat)
    requires
        k >= 1,
        n < pow10(k),
    ensures
        dec_digits(n).len() <= k,
    decreases k,
{
    if n >= 10 {
        if k == 1 {
            reveal_with_fuel(pow10, 2);
        } else {
            assert(pow10(k) == 10 * pow10((k - 1) as nat));
            assert(n / 10 < pow10((k - 1) as nat));
            lemma_digits_len_below(n / 10, (k - 1) as nat);
        }
    }
}

/// Formats `n` base units of a token with `decimals` decimal places.
///
/// `format_amount(1234, 2)` is `"12.34"`, `format_amount(5, 3)` is `"0.005"`.
pub fn format_amount(n: u128, decimals: u8) -> (r: String)
    ensures
        r@ == amount_text(n as nat, decimals as nat),
{
    let mut out = String::new();
    if decimals == 0 {
        push_digits(n, &mut out);
        return out;
    }
    let (q, rem) = split_units(n, decimals);
    push_digits(q, &mut out);
    proof {
        reveal_strlit(".");
    }
    out.append(".");
    let len = digit_count(rem);
    let w = decimals as usize;
    let ghost before = out@;
    if len < w {
        let mut i: usize = 0;
        while i < w - len
            invariant
                len < w,
                i <= w - len,
                out@ == before + Seq::new(i as nat, |j: int| '0'),
            decreases w - len - i,
        {
            proof { reveal_strlit("0"); }
            out.append("0");
            i = i + 1;
            assert(out@ =~= before + Seq::new(i as nat, |j: int| '0'));
        }
    }
    push_digits(rem, &mut out);
    proof {
        assert(out@ =~= amount_text(n as nat, decimals as nat));
    }
    out
}

/// Quotient and remainder of `n` by `10^decimals`.
fn split_units(n: u128, decimals: u8) -> (r: (u128, u128))
    ensures
        r.0 as nat == n as nat / pow10(decimals as nat),
        r.1 as nat == n as nat % pow10(decimals as nat),
{
    if decimals >= 39 {
        proof {
            lemma_pow10_39();
            lemma_pow10_monotone(39, decimals as nat);
            vstd::arithmetic::div_mod::lemma_basic_div(n as int, pow10(decimals as nat) as int);
            vstd::arithmetic::div_mod::lemma_small_mod(n as nat, pow10(decimals as nat));
        }
        return (0, n);
    }
    let mut p: u128 = 1;
    let mut i: u8 = 0;
    while i < decimals
        invariant
            i <= decimals < 39,
            p as nat == pow10(i as nat),
        decreases decimals - i,
    {
        proof {
            lemma_pow10_monotone((i + 1) as nat, 38);
            lemma_pow10_39();
        }
        p = p * 10;
        i = i + 1;
    }
    proof {
        lemma_pow10_positive(decimals as nat);
    }
    (n / p, n % p)
}

} // verus!
