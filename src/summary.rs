use vstd::prelude::*;
use crate::amount::pow10;
use crate::holding::{Holding, HoldingView, holdings_view};
use crate::order::{
    compare_text, lemma_text_lt_irreflexive, lemma_text_lt_transitive, text_lt,
};
use crate::text::{find_char, index_of, lemma_index_in_range};

verus! {

/// Why a list of holdings could not be summed.
#[derive(Clone, Copy, Debug, PartialEq, Eq, Structural)]
pub enum SummaryError {
    /// An amount is not a decimal number.
    DecimalParse,
    /// A total does not fit the 128-bit mantissa.
    Overflow,
}

pub open spec fn is_digit(c: char) -> bool {
    '0' <= c && c <= '9'
}

pub open spec fn digit_value(c: char) -> nat {
    (c as u32 - '0' as u32) as nat
}

/// The number that a string of digits spells.
pub open spec fn digits_value(s: Seq<char>) -> nat
    decreases s.len(),
{
    if s.len() == 0 {
        0
    } else {
        digits_value(s.drop_last()) * 10 + digit_value(s.last())
    }
}

pub open spec fn all_digits(s: Seq<char>) -> bool {
    forall|i: int| 0 <= i < s.len() ==> is_digit(#[trigger] s[i])
}

/// A decimal amount as mantissa and scale (digits after the point): one or
/// more digits, optionally a point and one or more digits.
pub open spec fn decimal_of(s: Seq<char>) -> Option<(nat, nat)> {
    let k = index_of(s, '.') as int;
    if k == s.len() {
        if s.len() > 0 && all_digits(s) {
            Some((digits_value(s), 0))
        } else {
            None
        }
    } else {
        let ip = s.take(k);
        let fp = s.skip(k + 1);
        if ip.len() > 0 && fp.len() > 0 && all_digits(ip) && all_digits(fp) {
            Some((digits_value(ip + fp), fp.len()))
        } else {
            None
        }
    }
}

fn digit_of(c: char) -> (r: u128)
    requires
        is_digit(c),
    ensures
        r == digit_value(c),
        r < 10,
{
    (c as u32 - '0' as u32) as u128
}

/// Continues a mantissa over `s[from..to]`: `None` where a non-digit occurs;
/// otherwise the value (or `big`, once it exceeds 128 bits) of `base`
/// followed by those digits.
fn scan_digits(s: &str, from: usize, to: usize, m: u128, big: bool, Ghost(base): Ghost<Seq<char>>) -> (r:
    Option<(u128, bool)>)
    requires
        from <= to <= s@.len(),
        big ==> digits_value(base) > u128::MAX,
        !big ==> m == digits_value(base),
    ensures
        r is None <==> !all_digits(s@.subrange(from as int, to as int)),
        r matches Some((m2, big2)) ==> (big2 ==> digits_value(base + s@.subrange(
            from as int,
            to as int,
        )) > u128::MAX) && (!big2 ==> m2 == digits_value(
            base + s@.subrange(from as int, to as int),
        )),
{
    let mut i: usize = from;
    let mut m = m;
    let mut big = big;
    while i < to
        invariant
            from <= i <= to <= s@.len(),
            all_digits(s@.subrange(from as int, i as int)),
            big ==> digits_value(base + s@.subrange(from as int, i as int)) > u128::MAX,
            !big ==> m == digits_value(base + s@.subrange(from as int, i as int)),
        decreases to - i,
    {
        let c = s.get_char(i);
        if !('0' <= c && c <= '9') {
            proof {
                assert(s@.subrange(from as int, to as int)[i - from] == c);
            }
            return None;
        }
        let d = digit_of(c);
        proof {
            let prev = base + s@.subrange(from as int, i as int);
            let next = base + s@.subrange(from as int, i + 1);
            assert(next.drop_last() =~= prev);
            assert(next.last() == c);
        }
        if !big {
            if m > (u128::MAX - d) / 10 {
                big = true;
            } else {
                m = m * 10 + d;
            }
        }
        i = i + 1;
        proof {
            assert forall|j: int| 0 <= j < s@.subrange(from as int, i as int).len() implies is_digit(
                #[trigger] s@.subrange(from as int, i as int)[j],
            ) by {
                if j < i - 1 - from {
                    assert(s@.subrange(from as int, i as int)[j] == s@.subrange(
                        from as int,
                        i - 1,
                    )[j]);
                }
            }
        }
    }
    Some((m, big))
}

/// Parses a decimal amount into mantissa and scale.
pub fn parse_amount(s: &str) -> (r: Result<(u128, usize), SummaryError>)
    ensures
        match decimal_of(s@) {
            None => r == Err::<(u128, usize), SummaryError>(SummaryError::DecimalParse),
            Some((m, sc)) => if m <= u128::MAX {
                r == Ok::<(u128, usize), SummaryError>((m as u128, sc as usize)) && sc <= usize::MAX
            } else {
                r == Err::<(u128, usize), SummaryError>(SummaryError::Overflow)
            },
        },
{
    let n = s.unicode_len();
    let k = find_char(s, '.');
    proof {
        lemma_index_in_range(s@, '.');
        assert(s@.subrange(0, n as int) =~= s@);
        assert(Seq::<char>::empty() + s@.subrange(0, n as int) =~= s@);
    }
    if k == n {
        if n == 0 {
            return Err(SummaryError::DecimalParse);
        }
        match scan_digits(s, 0, n, 0, false, Ghost(Seq::empty())) {
            None => Err(SummaryError::DecimalParse),
            Some((m, big)) => if big {
                Err(SummaryError::Overflow)
            } else {
                Ok((m, 0))
            },
        }
    } else {
        if k == 0 || k + 1 >= n {
            return Err(SummaryError::DecimalParse);
        }
        proof {
            assert(Seq::<char>::empty() + s@.subrange(0, k as int) =~= s@.take(k as int));
            assert(s@.subrange(k + 1, n as int) =~= s@.skip(k + 1));
        }
        match scan_digits(s, 0, k, 0, false, Ghost(Seq::empty())) {
            None => Err(SummaryError::DecimalParse),
            Some((m, big)) => match scan_digits(s, k + 1, n, m, big, Ghost(s@.take(k as int))) {
                None => Err(SummaryError::DecimalParse),
                Some((m2, big2)) => if big2 {
                    Err(SummaryError::Overflow)
                } else {
                    Ok((m2, n - k - 1))
                },
            },
        }
    }
}

/// Mantissa and scale of a row's amount (zero where it does not parse).
pub open spec fn amount_of(h: HoldingView) -> (nat, nat) {
    match decimal_of(h.amount) {
        Some(p) => p,
        None => (0, 0),
    }
}

pub open spec fn all_amounts_parse(hs: Seq<HoldingView>) -> bool {
    forall|i: int| 0 <= i < hs.len() ==> (#[trigger] decimal_of(hs[i].amount)) is Some
}

/// The largest scale among the rows' amounts.
pub open spec fn max_scale(hs: Seq<HoldingView>) -> nat
    decreases hs.len(),
{
    if hs.len() == 0 {
        0
    } else {
        let a = max_scale(hs.drop_last());
        let b = amount_of(hs.last()).1;
        if a >= b {
            a
        } else {
            b
        }
    }
}

/// A row's amount in units of `10^-sc`.
pub open spec fn scaled(h: HoldingView, sc: nat) -> nat {
    amount_of(h).0 * pow10((sc - amount_of(h).1) as nat)
}

/// The sum of the amounts of the rows for token `t`, in units of `10^-sc`.
pub open spec fn token_total(hs: Seq<HoldingView>, t: Seq<char>, sc: nat) -> nat
    decreases hs.len(),
{
    if hs.len() == 0 {
        0
    } else {
        token_total(hs.drop_last(), t, sc) + if hs.last().token == t {
            scaled(hs.last(), sc)
        } else {
            0
        }
    }
}

/// Whether some row is for token `t`.
pub open spec fn seen(hs: Seq<HoldingView>, t: Seq<char>) -> bool
    decreases hs.len(),
{
    hs.len() > 0 && (hs.last().token == t || seen(hs.drop_last(), t))
}

/// Every token's total fits the 128-bit mantissa.
pub open spec fn totals_fit(hs: Seq<HoldingView>) -> bool {
    forall|t: Seq<char>| seen(hs, t) ==> #[trigger] token_total(hs, t, max_scale(hs)) <= u128::MAX
}

/// The exact total of one token: `total * 10^-scale`.
pub struct TokenTotal {
    pub token: String,
    pub total: u128,
    pub scale: usize,
}

/// `out` is the summary of `hs`: one entry per distinct token, in strictly
/// ascending token order, each the exact sum of that token's amounts at the
/// largest scale of the list.
pub open spec fn is_summary(hs: Seq<HoldingView>, out: Seq<TokenTotal>) -> bool {
    &&& forall|a: int, b: int|
        0 <= a < b < out.len() ==> text_lt(#[trigger] out[a].token@, #[trigger] out[b].token@)
    &&& forall|j: int|
        0 <= j < out.len() ==> (#[trigger] out[j]).scale == max_scale(hs) && out[j].total
            == token_total(hs, out[j].token@, max_scale(hs))
    &&& forall|t: Seq<char>|
        seen(hs, t) <==> exists|j: int| 0 <= j < out.len() && (#[trigger] out[j].token@) == t
}

proof fn lemma_unseen_total(hs: Seq<HoldingView>, t: Seq<char>, sc: nat)
    requires
        !seen(hs, t),
    ensures
        token_total(hs, t, sc) == 0,
    decreases hs.len(),
{
    if hs.len() > 0 {
        lemma_unseen_total(hs.drop_last(), t, sc);
    }
}

proof fn lemma_prefix_total(hs: Seq<HoldingView>, i: int, t: Seq<char>, sc: nat)
    requires
        0 <= i <= hs.len(),
    ensures
        token_total(hs.take(i), t, sc) <= token_total(hs, t, sc),
        seen(hs.take(i), t) ==> seen(hs, t),
    decreases hs.len() - i,
{
    if i < hs.len() {
        lemma_prefix_total(hs, i + 1, t, sc);
        assert(hs.take(i + 1).drop_last() =~= hs.take(i));
    } else {
        assert(hs.take(i) =~= hs);
    }
}

proof fn lemma_term_bounded(hs: Seq<HoldingView>, i: int, sc: nat)
    requires
        0 <= i < hs.len(),
    ensures
        scaled(hs[i], sc) <= token_total(hs, hs[i].token, sc),
        seen(hs, hs[i].token),
{
    assert(hs.take(i + 1).drop_last() =~= hs.take(i));
    assert(hs.take(i + 1).last() == hs[i]);
    lemma_prefix_total(hs, i + 1, hs[i].token, sc);
}

proof fn lemma_mantissa_bounded(h: HoldingView, sc: nat)
    ensures
        amount_of(h).0 <= scaled(h, sc) || amount_of(h).0 == 0,
{
    let m = amount_of(h).0;
    let p = pow10((sc - amount_of(h).1) as nat);
    crate::amount::lemma_pow10_positive((sc - amount_of(h).1) as nat);
    assert(m <= m * p) by (nonlinear_arith)
        requires
            p >= 1,
    ;
}

/// `m * 10^k`, or `None` where that exceeds 128 bits.
fn scale_up(m: u128, k: usize) -> (r: Option<u128>)
    ensures
        match r {
            Some(v) => v == m * pow10(k as nat),
            None => m * pow10(k as nat) > u128::MAX,
        },
{
    if m == 0 {
        return Some(0);
    }
    let mut p: u128 = 1;
    let mut i: usize = 0;
    while i < k
        invariant
            i <= k,
            p == pow10(i as nat),
            p >= 1,
            m >= 1,
        decreases k - i,
    {
        if p > u128::MAX / 10 {
            proof {
                lemma_pow10_grows(i as nat, k as nat);
                assert(m * pow10(k as nat) >= pow10(k as nat)) by (nonlinear_arith)
                    requires
                        m >= 1,
                ;
            }
            return None;
        }
        p = p * 10;
        i = i + 1;
        proof {
            crate::amount::lemma_pow10_positive(i as nat);
        }
    }
    if m > u128::MAX / p {
        proof {
            assert(m * p > u128::MAX) by (nonlinear_arith)
                requires
                    m > u128::MAX / p,
                    p >= 1,
            ;
        }
        return None;
    }
    proof {
        assert(m * p <= u128::MAX) by (nonlinear_arith)
            requires
                m <= u128::MAX / p,
                p >= 1,
        ;
    }
    Some(m * p)
}

proof fn lemma_pow10_grows(i: nat, k: nat)
    requires
        i < k,
        pow10(i) > u128::MAX / 10,
    ensures
        pow10(k) > u128::MAX,
    decreases k - i,
{
    if i + 1 < k {
        lemma_pow10_grows(i + 1, k);
    }
}

/// Position of `t` in the strictly ascending `out`, or where it would go.
fn find_slot(out: &Vec<TokenTotal>, t: &String) -> (r: (usize, bool))
    requires
        forall|a: int, b: int|
            0 <= a < b < out@.len() ==> text_lt(#[trigger] out@[a].token@, #[trigger] out@[b].token@),
    ensures
        r.0 <= out@.len(),
        forall|j: int| 0 <= j < r.0 ==> text_lt(#[trigger] out@[j].token@, t@),
        r.1 ==> r.0 < out@.len() && out@[r.0 as int].token@ == t@,
        !r.1 ==> forall|j: int| r.0 <= j < out@.len() ==> text_lt(t@, #[trigger] out@[j].token@),
{
    let mut j: usize = 0;
    while j < out.len()
        invariant
            j <= out@.len(),
            forall|a: int, b: int|
                0 <= a < b < out@.len() ==> text_lt(#[trigger] out@[a].token@, #[trigger] out@[b].token@),
            forall|k: int| 0 <= k < j ==> text_lt(#[trigger] out@[k].token@, t@),
        decreases out.len() - j,
    {
        let c = compare_text(out[j].token.as_str(), t.as_str());
        if c == 0 {
            return (j, true);
        }
        if c == 1 {
            proof {
                assert forall|k: int| j <= k < out@.len() implies text_lt(
                    t@,
                    #[trigger] out@[k].token@,
                ) by {
                    if k > j {
                        lemma_text_lt_transitive(t@, out@[j as int].token@, out@[k].token@);
                    }
                }
            }
            return (j, false);
        }
        j = j + 1;
    }
    (j, false)
}

/// Groups the rows by token and sums each token's amounts exactly. Fails
/// with `DecimalParse` where an amount is not a decimal number, and
/// otherwise with `Overflow` where a total exceeds the 128-bit mantissa.
pub fn summarise(holdings: &Vec<Holding>) -> (r: Result<Vec<TokenTotal>, SummaryError>)
    ensures
        ({
            let hs = holdings_view(holdings@);
            &&& !all_amounts_parse(hs) ==> r == Err::<Vec<TokenTotal>, SummaryError>(
                SummaryError::DecimalParse,
            )
            &&& all_amounts_parse(hs) && !totals_fit(hs) ==> r == Err::<
                Vec<TokenTotal>,
                SummaryError,
            >(SummaryError::Overflow)
            &&& all_amounts_parse(hs) && totals_fit(hs) ==> r is Ok && is_summary(hs, r->Ok_0@)
        }),
{
    let ghost hs = holdings_view(holdings@);
    let n = holdings.len();
    // First pass: every amount must parse; note those too large.
    let mut parsed: Vec<(u128, usize)> = Vec::new();
    let mut too_large = false;
    let mut i: usize = 0;
    while i < n
        invariant
            n == holdings@.len(),
            hs == holdings_view(holdings@),
            i <= n,
            parsed@.len() == i,
            forall|k: int| 0 <= k < i ==> (#[trigger] decimal_of(hs[k].amount)) is Some,
            forall|k: int|
                0 <= k < i && amount_of(hs[k]).0 <= u128::MAX ==> (#[trigger] parsed@[k]).0
                    == amount_of(hs[k]).0 && parsed@[k].1 == amount_of(hs[k]).1,
            !too_large ==> forall|k: int| 0 <= k < i ==> (#[trigger] amount_of(hs[k])).0 <= u128::MAX,
            too_large ==> exists|k: int| 0 <= k < i && (#[trigger] amount_of(hs[k])).0 > u128::MAX,
        decreases n - i,
    {
        proof {
            assert(hs[i as int] == holdings@[i as int]@);
        }
        match parse_amount(holdings[i].amount.as_str()) {
            Err(SummaryError::DecimalParse) => {
                proof {
                    assert(decimal_of(hs[i as int].amount) is None);
                }
                return Err(SummaryError::DecimalParse);
            },
            Err(SummaryError::Overflow) => {
                proof {
                    assert(amount_of(hs[i as int]).0 > u128::MAX);
                }
                too_large = true;
                parsed.push((0, 0));
            },
            Ok(p) => {
                parsed.push(p);
            },
        }
        proof {
            assert(decimal_of(hs[i as int].amount) is Some);
            assert forall|k: int|
                0 <= k < i + 1 && amount_of(hs[k]).0 <= u128::MAX implies (#[trigger] parsed@[k]).0
                    == amount_of(hs[k]).0 && parsed@[k].1 == amount_of(hs[k]).1 by {
                if k < i {
                    assert(parsed@[k] == parsed@.drop_last()[k]);
                }
            }
        }
        i = i + 1;
    }
    if too_large {
        proof {
            let k = choose|k: int| 0 <= k < n && (#[trigger] amount_of(hs[k])).0 > u128::MAX;
            lemma_mantissa_bounded(hs[k], max_scale(hs));
            lemma_term_bounded(hs, k, max_scale(hs));
        }
        return Err(SummaryError::Overflow);
    }
    assert(all_amounts_parse(hs));
    // The common scale.
    let mut sc: usize = 0;
    let mut i: usize = 0;
    while i < n
        invariant
            n == holdings@.len(),
            hs == holdings_view(holdings@),
            i <= n,
            parsed@.len() == n,
            all_amounts_parse(hs),
            forall|k: int| 0 <= k < n ==> (#[trigger] parsed@[k]).0 == amount_of(hs[k]).0
                && parsed@[k].1 == amount_of(hs[k]).1,
            sc == max_scale(hs.take(i as int)),
        decreases n - i,
    {
        proof {
            assert(hs.take(i + 1).drop_last() =~= hs.take(i as int));
        }
        if parsed[i].1 > sc {
            sc = parsed[i].1;
        }
        i = i + 1;
    }
    proof {
        assert(hs.take(n as int) =~= hs);
    }
    // Second pass: accumulate per token, keeping `out` in ascending order.
    let mut out: Vec<TokenTotal> = Vec::new();
    let mut i: usize = 0;
    while i < n
        invariant
            n == holdings@.len(),
            hs == holdings_view(holdings@),
            i <= n,
            parsed@.len() == n,
            all_amounts_parse(hs),
            forall|k: int| 0 <= k < n ==> (#[trigger] parsed@[k]).0 == amount_of(hs[k]).0
                && parsed@[k].1 == amount_of(hs[k]).1,
            sc == max_scale(hs),
            forall|a: int, b: int|
                0 <= a < b < out@.len() ==> text_lt(#[trigger] out@[a].token@, #[trigger] out@[b].token@),
            forall|j: int|
                0 <= j < out@.len() ==> (#[trigger] out@[j]).scale == sc && out@[j].total
                    == token_total(hs.take(i as int), out@[j].token@, sc as nat),
            forall|t: Seq<char>|
                seen(hs.take(i as int), t) <==> exists|j: int|
                    0 <= j < out@.len() && (#[trigger] out@[j].token@) == t,
        decreases n - i,
    {
        let ghost pre = hs.take(i as int);
        let ghost post = hs.take(i + 1);
        let ghost t = hs[i as int].token;
        proof {
            assert(post.drop_last() =~= pre);
            assert(post.last() == hs[i as int]);
            lemma_max_scale_bound(hs, i as int);
        }
        let (m, s) = parsed[i];
        let v = match scale_up(m, sc - s) {
            Some(v) => v,
            None => {
                proof {
                    lemma_term_bounded(hs, i as int, sc as nat);
                    assert(hs[i as int] == holdings@[i as int]@);
                    assert(m * pow10((sc - s) as nat) == scaled(hs[i as int], sc as nat));
                    assert(token_total(hs, hs[i as int].token, max_scale(hs)) > u128::MAX);
                }
                return Err(SummaryError::Overflow);
            },
        };
        let token = &holdings[i].token;
        proof {
            assert(hs[i as int] == holdings@[i as int]@);
            assert(token@ == t);
            assert(v == scaled(hs[i as int], sc as nat));
        }
        let (pos, found) = find_slot(&out, token);
        let ghost before = out@;
        if found {
            let old_total = out[pos].total;
            if old_total > u128::MAX - v {
                proof {
                    assert(before[pos as int].token@ == t);
                    assert(old_total == token_total(pre, t, sc as nat));
                    assert(token_total(post, t, sc as nat) == old_total + v);
                    lemma_prefix_total(hs, i + 1, t, sc as nat);
                    assert(seen(post, t));
                }
                return Err(SummaryError::Overflow);
            }
            let tok = out[pos].token.clone();
            out.set(pos, TokenTotal { token: tok, total: old_total + v, scale: sc });
            proof {
                assert forall|j: int|
                    0 <= j < out@.len() implies (#[trigger] out@[j]).scale == sc && out@[j].total
                    == token_total(post, out@[j].token@, sc as nat) by {
                    if j != pos {
                        assert(out@[j] == before[j]);
                        if out@[j].token@ == t {
                            lemma_text_lt_irreflexive(t);
                            if j < pos {
                                assert(text_lt(before[j].token@, before[pos as int].token@));
                            } else {
                                assert(text_lt(before[pos as int].token@, before[j].token@));
                            }
                        }
                    }
                }
                assert forall|a: int, b: int|
                    0 <= a < b < out@.len() implies text_lt(
                    #[trigger] out@[a].token@,
                    #[trigger] out@[b].token@,
                ) by {
                    assert(text_lt(before[a].token@, before[b].token@));
                }
                assert forall|u: Seq<char>|
                    seen(post, u) <==> exists|j: int|
                        0 <= j < out@.len() && (#[trigger] out@[j].token@) == u by {
                    if seen(post, u) {
                        if u == t {
                            assert(out@[pos as int].token@ == u);
                        } else {
                            assert(seen(pre, u));
                            let j = choose|j: int| 0 <= j < before.len() && (#[trigger] before[j].token@) == u;
                            assert(out@[j].token@ == u);
                        }
                    }
                    if exists|j: int| 0 <= j < out@.len() && (#[trigger] out@[j].token@) == u {
                        let j = choose|j: int| 0 <= j < out@.len() && (#[trigger] out@[j].token@) == u;
                        if j != pos {
                            assert(out@[j] == before[j]);
                        }
                        assert(before[j].token@ == u);
                        assert(seen(pre, u));
                        assert(seen(post, u));
                    }
                }
            }
        } else {
            proof {
                if seen(pre, t) {
                    let j = choose|j: int| 0 <= j < before.len() && (#[trigger] before[j].token@) == t;
                    lemma_text_lt_irreflexive(t);
                    if j < pos {
                    } else {
                    }
                    assert(false);
                }
                lemma_unseen_total(pre, t, sc as nat);
            }
            out.insert(pos, TokenTotal { token: token.clone(), total: v, scale: sc });
            proof {
                assert forall|j: int|
                    0 <= j < out@.len() implies (#[trigger] out@[j]).scale == sc && out@[j].total
                    == token_total(post, out@[j].token@, sc as nat) by {
                    if j < pos {
                        assert(out@[j] == before[j]);
                        if out@[j].token@ == t {
                            lemma_text_lt_irreflexive(t);
                        }
                    } else if j > pos {
                        assert(out@[j] == before[j - 1]);
                        if out@[j].token@ == t {
                            lemma_text_lt_irreflexive(t);
                        }
                    }
                }
                assert forall|a: int, b: int|
                    0 <= a < b < out@.len() implies text_lt(
                    #[trigger] out@[a].token@,
                    #[trigger] out@[b].token@,
                ) by {
                    if b < pos {
                        assert(text_lt(before[a].token@, before[b].token@));
                    } else if b == pos {
                        assert(out@[a] == before[a]);
                    } else if a == pos {
                        assert(out@[b] == before[b - 1]);
                    } else if a < pos {
                        assert(out@[a] == before[a]);
                        assert(out@[b] == before[b - 1]);
                        lemma_text_lt_transitive(before[a].token@, t, before[b - 1].token@);
                    } else {
                        assert(out@[a] == before[a - 1]);
                        assert(out@[b] == before[b - 1]);
                        assert(text_lt(before[a - 1].token@, before[b - 1].token@));
                    }
                }
                assert forall|u: Seq<char>|
                    seen(post, u) <==> exists|j: int|
                        0 <= j < out@.len() && (#[trigger] out@[j].token@) == u by {
                    if seen(post, u) {
                        if u == t {
                            assert(out@[pos as int].token@ == u);
                        } else {
                            assert(seen(pre, u));
                            let j = choose|j: int| 0 <= j < before.len() && (#[trigger] before[j].token@) == u;
                            if j < pos {
                                assert(out@[j].token@ == u);
                            } else {
                                assert(out@[j + 1].token@ == u);
                            }
                        }
                    }
                    if exists|j: int| 0 <= j < out@.len() && (#[trigger] out@[j].token@) == u {
                        let j = choose|j: int| 0 <= j < out@.len() && (#[trigger] out@[j].token@) == u;
                        if j < pos {
                            assert(out@[j] == before[j]);
                            assert(before[j].token@ == u);
                            assert(seen(pre, u));
                        } else if j > pos {
                            assert(out@[j] == before[j - 1]);
                            assert(before[j - 1].token@ == u);
                            assert(seen(pre, u));
                        } else {
                            assert(u == t);
                        }
                        assert(seen(post, u));
                    }
                }
            }
        }
        i = i + 1;
    }
    proof {
        assert(hs.take(n as int) =~= hs);
    }
    Ok(out)
}

proof fn lemma_max_scale_bound(hs: Seq<HoldingView>, i: int)
    requires
        0 <= i < hs.len(),
    ensures
        amount_of(hs[i]).1 <= max_scale(hs),
    decreases hs.len(),
{
    if i < hs.len() - 1 {
        lemma_max_scale_bound(hs.drop_last(), i);
    }
}

} // verus!
