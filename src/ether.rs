//! Conversions between decimal ether amounts and wei (10^18 wei = 1 ether).
use crate::text::{
    all_digits, decimal, digit_char, digit_value, digits_value, is_digit, is_decimal_text,
    push_char,
};
use crate::wei::{limb_base, limbs_value, Wei};
use vstd::arithmetic::div_mod::{lemma_fundamental_div_mod, lemma_mod_breakdown};
use vstd::prelude::*;
use vstd::string::*;

verus! {

/// Wei in one ether.
pub const WEI_PER_ETHER: u64 = 1_000_000_000_000_000_000;

/// Number of fractional decimal digits of an ether amount.
pub const ETHER_DECIMALS: usize = 18;

/// `10^k`.
pub open spec fn pow10(k: nat) -> nat
    decreases k,
{
    if k == 0 { 1 } else { 10 * pow10((k - 1) as nat) }
}

/// Index of the first `.` in `s`, or `s.len()` where there is none.
pub open spec fn dot_index(s: Seq<char>) -> nat
    decreases s.len(),
{
    if s.len() == 0 {
        0
    } else if s[0] == '.' {
        0
    } else {
        1 + dot_index(s.drop_first())
    }
}

/// Whether `s` is an ether amount: digits, then optionally `.` and at least one digit.
pub open spec fn is_ether_text(s: Seq<char>) -> bool {
    let p = dot_index(s) as int;
    p > 0 && all_digits(s.take(p)) && (p == s.len() || (p + 1 < s.len() && all_digits(
        s.skip(p + 1),
    )))
}

/// The first `k` digits of `f`, right-padded with zeros to length `k`.
pub open spec fn fraction_digits(f: Seq<char>, k: nat) -> Seq<char> {
    Seq::new(k, |i: int| if i < f.len() { f[i] } else { '0' })
}

/// The wei that an ether amount text stands for: its value times 10^18,
/// truncated (digits past the eighteenth fractional place are dropped).
pub open spec fn ether_text_wei(s: Seq<char>) -> nat {
    let p = dot_index(s) as int;
    let f = if p < s.len() { s.skip(p + 1) } else { Seq::empty() };
    digits_value(s.take(p)) * pow10(18) + digits_value(fraction_digits(f, 18))
}

/// The `k` lowest decimal digits of `f`, least significant first.
pub open spec fn low_digits(f: nat, k: nat) -> Seq<char>
    decreases k,
{
    if k == 0 {
        Seq::empty()
    } else {
        seq![digit_char(f % 10)] + low_digits(f / 10, (k - 1) as nat)
    }
}

/// `s` without its leading `0` characters.
pub open spec fn skip_zeros(s: Seq<char>) -> Seq<char>
    decreases s.len(),
{
    if s.len() > 0 && s[0] == '0' {
        skip_zeros(s.drop_first())
    } else {
        s
    }
}

/// `s` in reverse order.
pub open spec fn reversed(s: Seq<char>) -> Seq<char>
    decreases s.len(),
{
    if s.len() == 0 {
        s
    } else {
        reversed(s.drop_first()).push(s[0])
    }
}

/// The fractional part `f < 10^18` as up to 18 digits with trailing zeros
/// removed, or `0` where nothing remains.
pub open spec fn fraction_text(f: nat) -> Seq<char> {
    let t = reversed(skip_zeros(low_digits(f, 18)));
    if t.len() == 0 { seq!['0'] } else { t }
}

/// The display form of `n` wei: whole ether, `.`, and the trimmed fraction.
pub open spec fn ether_text(n: nat) -> Seq<char> {
    decimal(n / pow10(18)) + seq!['.'] + fraction_text(n % pow10(18))
}

proof fn lemma_pow10_18()
    ensures
        pow10(18) == 1_000_000_000_000_000_000,
{
    reveal_with_fuel(pow10, 19);
}

proof fn lemma_small_limbs(l: [u64; 4])
    requires
        limbs_value(l) < limb_base(),
    ensures
        limbs_value(l) == l[0],
{
    let b = limb_base() as int;
    let x = l[1] + b * (l[2] + b * l[3]);
    assert(x >= 0) by (nonlinear_arith)
        requires 0 <= l[1], 0 <= l[2], 0 <= l[3], b > 0, x == l[1] + b * (l[2] + b * l[3]);
    assert(x == 0) by (nonlinear_arith)
        requires x >= 0, l[0] >= 0, l[0] + b * x < b, b > 0;
}

/// The character of a decimal digit.
fn digit_to_char(d: u64) -> (c: char)
    requires
        d < 10,
    ensures
        c == digit_char(d as nat),
{
    if d == 0 { '0' } else if d == 1 { '1' } else if d == 2 { '2' } else if d == 3 { '3' }
    else if d == 4 { '4' } else if d == 5 { '5' } else if d == 6 { '6' } else if d == 7 { '7' }
    else if d == 8 { '8' } else { '9' }
}

/// Formats a wei amount as ether: the whole part, `.`, and the fractional
/// part with trailing zeros trimmed, at least one digit (`"X.0"`).
pub fn format_ether(wei: &Wei) -> (r: String)
    ensures
        r@ == ether_text(wei.value()),
{
    proof {
        lemma_pow10_18();
    }
    let (whole, rest) = wei.div_rem(&Wei::from_u128(WEI_PER_ETHER as u128));
    proof {
        lemma_small_limbs(rest.limbs);
    }
    let f0: u64 = rest.limbs[0];
    let mut f: u64 = f0;
    let mut low: Vec<char> = Vec::new();
    let mut i: usize = 0;
    while i < ETHER_DECIMALS
        invariant
            i <= 18,
            low@.len() == i,
            low_digits(f0 as nat, 18) == low@ + low_digits(f as nat, (18 - i) as nat),
        decreases 18 - i,
    {
        let c = digit_to_char(f % 10);
        proof {
            assert(low_digits(f as nat, (18 - i) as nat) == seq![c] + low_digits(
                (f / 10) as nat,
                (18 - i - 1) as nat,
            ));
            assert(low@.push(c) + low_digits((f / 10) as nat, (18 - i - 1) as nat) =~= low@ + (
            seq![c] + low_digits((f / 10) as nat, (18 - i - 1) as nat)));
        }
        low.push(c);
        f = f / 10;
        i = i + 1;
    }
    assert(low@ =~= low_digits(f0 as nat, 18));
    assert(low@.subrange(0, 18) =~= low@);
    let mut j: usize = 0;
    while j < ETHER_DECIMALS && low[j] == '0'
        invariant
            j <= 18,
            low@.len() == 18,
            skip_zeros(low@) == skip_zeros(low@.subrange(j as int, 18)),
        decreases 18 - j,
    {
        assert(low@.subrange(j as int, 18).drop_first() =~= low@.subrange(j as int + 1, 18));
        j = j + 1;
    }
    proof {
        if j < 18 {
            assert(low@.subrange(j as int, 18)[0] == low@[j as int]);
        }
    }
    let mut out = whole.to_decimal();
    push_char(&mut out, '.');
    let ghost head = out@;
    if j == ETHER_DECIMALS {
        assert(skip_zeros(low@.subrange(18, 18)) =~= Seq::<char>::empty());
        push_char(&mut out, '0');
    } else {
        let mut k: usize = ETHER_DECIMALS;
        assert(reversed(low@.subrange(18, 18)) =~= Seq::<char>::empty());
        while k > j
            invariant
                j <= k <= 18,
                low@.len() == 18,
                out@ == head + reversed(low@.subrange(k as int, 18)),
            decreases k,
        {
            k = k - 1;
            let c = low[k];
            proof {
                let s = low@.subrange(k as int, 18);
                assert(s.drop_first() =~= low@.subrange(k as int + 1, 18));
                assert(reversed(s) == reversed(s.drop_first()).push(c));
                assert(head + reversed(s) =~= (head + reversed(s.drop_first())).push(c));
            }
            push_char(&mut out, c);
        }
    }
    out
}

proof fn lemma_pow10_monotone(a: nat, b: nat)
    requires
        a <= b,
    ensures
        pow10(a) <= pow10(b),
    decreases b,
{
    if a < b {
        lemma_pow10_monotone(a, (b - 1) as nat);
    }
}

proof fn lemma_dot_index(s: Seq<char>, p: int)
    requires
        0 <= p <= s.len(),
        forall|j: int| 0 <= j < p ==> s[j] != '.',
        p == s.len() || s[p] == '.',
    ensures
        dot_index(s) == p,
    decreases p,
{
    if p > 0 {
        lemma_dot_index(s.drop_first(), p - 1);
    }
}

proof fn lemma_digits_value_prefix(s: Seq<char>, i: int, p: int)
    requires
        0 <= i <= p <= s.len(),
    ensures
        digits_value(s.take(i)) <= digits_value(s.take(p)),
    decreases p - i,
{
    if i < p {
        lemma_digits_value_prefix(s, i, p - 1);
        assert(s.take(p).drop_last() =~= s.take(p - 1));
    }
}

/// The value of a decimal digit character.
fn char_to_digit(c: char) -> (d: u64)
    requires
        is_digit(c),
    ensures
        d == digit_value(c),
        d < 10,
{
    (c as u32 - '0' as u32) as u64
}

/// Converts an ether amount written in decimal (`"1"`, `"0.5"`, `"12.000001"`)
/// to wei: the value times 10^18, truncated past the eighteenth fractional
/// digit. `None` where the text is not such an amount or the result exceeds
/// 128 bits.
#[verifier::loop_isolation(false)]
pub fn parse_ether(s: &str) -> (r: Option<u128>)
    ensures
        r is Some <==> (is_ether_text(s@) && ether_text_wei(s@) <= u128::MAX),
        r matches Some(w) ==> w == ether_text_wei(s@),
{
    proof {
        lemma_pow10_18();
    }
    let n = s.unicode_len();
    let mut p: usize = 0;
    while p < n && s.get_char(p) != '.'
        invariant
            n == s@.len(),
            p <= n,
            forall|j: int| 0 <= j < p ==> s@[j] != '.',
        decreases n - p,
    {
        p = p + 1;
    }
    proof {
        lemma_dot_index(s@, p as int);
    }
    if p == 0 {
        return None;
    }
    let mut whole: u128 = 0;
    let mut i: usize = 0;
    while i < p
        invariant
            n == s@.len(),
            p == dot_index(s@),
            0 < p <= n,
            i <= p,
            all_digits(s@.take(i as int)),
            whole == digits_value(s@.take(i as int)),
        decreases p - i,
    {
        let c = s.get_char(i);
        if !('0' <= c && c <= '9') {
            assert(s@.take(p as int)[i as int] == c);
            assert(!all_digits(s@.take(p as int)));
            assert(!is_ether_text(s@));
            return None;
        }
        let d = char_to_digit(c);
        assert(s@.take(i + 1).drop_last() =~= s@.take(i as int));
        assert(s@.take(i + 1).last() == c);
        match whole.checked_mul(10) {
            Some(m) => match m.checked_add(d as u128) {
                Some(v) => {
                    whole = v;
                },
                None => {
                    proof {
                        lemma_digits_value_prefix(s@, i + 1, p as int);
                        let dv = digits_value(s@.take(p as int));
                        assert(dv * pow10(18) >= dv) by (nonlinear_arith)
                            requires pow10(18) >= 1;
                    }
                    return None;
                },
            },
            None => {
                proof {
                    lemma_digits_value_prefix(s@, i + 1, p as int);
                    let dv = digits_value(s@.take(p as int));
                    assert(dv * pow10(18) >= dv) by (nonlinear_arith)
                        requires pow10(18) >= 1;
                }
                return None;
            },
        }
        i = i + 1;
        assert(all_digits(s@.take(i as int))) by {
            assert(forall|j: int| 0 <= j < i - 1 ==> #[trigger] s@.take(i as int)[j] == s@.take(i - 1)[j]);
        }
    }
    let ghost f: Seq<char> = if p < n { s@.skip(p + 1) } else { Seq::empty() };
    if p < n {
        if p + 1 == n {
            return None;
        }
        let mut q: usize = p + 1;
        while q < n
            invariant
                n == s@.len(),
                p < n,
                p + 1 <= q <= n,
                forall|j: int| p + 1 <= j < q ==> is_digit(#[trigger] s@[j]),
            decreases n - q,
        {
            let c = s.get_char(q);
            if !('0' <= c && c <= '9') {
                assert(s@.skip(p + 1)[q - p - 1] == c);
                assert(!all_digits(s@.skip(p + 1)));
                assert(!is_ether_text(s@));
                return None;
            }
            q = q + 1;
        }
        assert(all_digits(s@.skip(p + 1))) by {
            assert(forall|j: int| 0 <= j < n - p - 1 ==> #[trigger] s@.skip(p + 1)[j] == s@[p + 1 + j]);
        }
    }
    let mut frac: u64 = 0;
    let mut scale: u64 = 1;
    let mut k: usize = 0;
    while k < ETHER_DECIMALS
        invariant
            n == s@.len(),
            p <= n,
            f == (if p < n { s@.skip(p + 1) } else { Seq::<char>::empty() }),
            all_digits(f),
            k <= 18,
            scale == pow10(k as nat),
            frac < scale,
            frac == digits_value(fraction_digits(f, k as nat)),
        decreases 18 - k,
    {
        let c = if p < n && k < n - p - 1 { s.get_char(p + 1 + k) } else { '0' };
        assert(c == fraction_digits(f, (k + 1) as nat)[k as int]);
        let d = char_to_digit(c);
        assert(fraction_digits(f, (k + 1) as nat).drop_last() =~= fraction_digits(f, k as nat));
        proof {
            lemma_pow10_monotone((k + 1) as nat, 18);
        }
        assert(pow10((k + 1) as nat) == 10 * pow10(k as nat));
        assert(frac * 10 + d < 10 * scale);
        frac = frac * 10 + d;
        scale = scale * 10;
        k = k + 1;
    }
    match whole.checked_mul(WEI_PER_ETHER as u128) {
        Some(w) => w.checked_add(frac as u128),
        None => None,
    }
}

proof fn lemma_pow10_positive(k: nat)
    ensures
        pow10(k) > 0,
    decreases k,
{
    if k > 0 {
        lemma_pow10_positive((k - 1) as nat);
    }
}

proof fn lemma_digit_char(d: nat)
    requires
        d < 10,
    ensures
        is_digit(digit_char(d)),
        digit_value(digit_char(d)) == d,
{
}

pub(crate) proof fn lemma_decimal(n: nat)
    ensures
        decimal(n).len() > 0,
        all_digits(decimal(n)),
        digits_value(decimal(n)) == n,
    decreases n,
{
    lemma_digit_char(n % 10);
    if n < 10 {
        assert(seq![digit_char(n)].drop_last() =~= Seq::<char>::empty());
        assert(digits_value(Seq::<char>::empty()) == 0);
        assert(digits_value(decimal(n)) == digits_value(Seq::<char>::empty()) * 10 + digit_value(digit_char(n)));
    } else {
        lemma_fundamental_div_mod(n as int, 10);
        lemma_decimal(n / 10);
        let s = decimal(n);
        assert(s.drop_last() =~= decimal(n / 10));
        assert(s.last() == digit_char(n % 10));
        assert(digits_value(s) == digits_value(decimal(n / 10)) * 10 + digit_value(digit_char(n % 10)));
        assert forall|i: int| 0 <= i < s.len() implies is_digit(#[trigger] s[i]) by {
            if i < s.len() - 1 {
                assert(s[i] == decimal(n / 10)[i]);
            }
        }
    }
}

proof fn lemma_reversed(s: Seq<char>)
    ensures
        reversed(s).len() == s.len(),
        forall|i: int| 0 <= i < s.len() ==> #[trigger] reversed(s)[i] == s[s.len() - 1 - i],
    decreases s.len(),
{
    if s.len() > 0 {
        lemma_reversed(s.drop_first());
    }
}

proof fn lemma_low_digits(f: nat, k: nat)
    ensures
        low_digits(f, k).len() == k,
        all_digits(low_digits(f, k)),
        digits_value(reversed(low_digits(f, k))) == f % pow10(k),
    decreases k,
{
    if k > 0 {
        let s = low_digits(f, k);
        let t = low_digits(f / 10, (k - 1) as nat);
        lemma_low_digits(f / 10, (k - 1) as nat);
        assert(s.drop_first() =~= t);
        assert forall|i: int| 0 <= i < s.len() implies is_digit(#[trigger] s[i]) by {
            if i > 0 {
                assert(s[i] == t[i - 1]);
            }
        }
        let r = reversed(s);
        assert(r == reversed(t).push(s[0]));
        assert(r.drop_last() =~= reversed(t));
        lemma_digit_char(f % 10);
        lemma_pow10_positive((k - 1) as nat);
        lemma_mod_breakdown(f as int, 10, pow10((k - 1) as nat) as int);
    }
}

proof fn lemma_skip_zeros(s: Seq<char>)
    ensures
        skip_zeros(s).len() <= s.len(),
        skip_zeros(s) =~= s.skip(s.len() - skip_zeros(s).len()),
        forall|i: int| 0 <= i < s.len() - skip_zeros(s).len() ==> #[trigger] s[i] == '0',
    decreases s.len(),
{
    if s.len() > 0 && s[0] == '0' {
        lemma_skip_zeros(s.drop_first());
        let t = s.drop_first();
        assert forall|i: int| 0 <= i < s.len() - skip_zeros(s).len() implies #[trigger] s[i] == '0' by {
            if i > 0 {
                assert(s[i] == t[i - 1]);
            }
        }
    }
}

proof fn lemma_fraction_text(f: nat)
    requires
        f < pow10(18),
    ensures
        fraction_text(f).len() > 0,
        all_digits(fraction_text(f)),
        digits_value(fraction_digits(fraction_text(f), 18)) == f,
{
    let l = low_digits(f, 18);
    lemma_low_digits(f, 18);
    lemma_skip_zeros(l);
    let t = skip_zeros(l);
    let z = 18 - t.len();
    lemma_reversed(l);
    lemma_reversed(t);
    let rl = reversed(l);
    let rt = reversed(t);
    assert(f % pow10(18) == f) by {
        vstd::arithmetic::div_mod::lemma_small_mod(f, pow10(18));
    }
    // reversing the 18 digits puts the skipped zeros last
    assert forall|i: int| 0 <= i < 18 implies #[trigger] fraction_digits(fraction_text(f), 18)[i]
        == rl[i] by {
        if t.len() == 0 {
            assert(l[17 - i] == '0');
        } else if i < t.len() {
            assert(rt[i] == t[t.len() - 1 - i]);
            assert(t[t.len() - 1 - i] == l[z + t.len() - 1 - i]);
        } else {
            assert(l[17 - i] == '0');
        }
    }
    assert(fraction_digits(fraction_text(f), 18) =~= rl);
    assert forall|i: int| 0 <= i < fraction_text(f).len() implies is_digit(
        #[trigger] fraction_text(f)[i],
    ) by {
        if t.len() > 0 {
            assert(rt[i] == t[t.len() - 1 - i]);
            assert(t[t.len() - 1 - i] == l[z + t.len() - 1 - i]);
        }
    }
}

/// The display text of an amount parses back to exactly that amount: it is a
/// well-formed ether text and denotes the same number of wei.
pub proof fn lemma_display_round_trip(n: nat)
    ensures
        is_ether_text(ether_text(n)),
        ether_text_wei(ether_text(n)) == n,
{
    let q = n / pow10(18);
    let f = n % pow10(18);
    lemma_pow10_18();
    lemma_fundamental_div_mod(n as int, pow10(18) as int);
    lemma_decimal(q);
    lemma_fraction_text(f);
    let d = decimal(q);
    let ft = fraction_text(f);
    let s = ether_text(n);
    let p = d.len() as int;
    assert(s =~= d + seq!['.'] + ft);
    assert forall|j: int| 0 <= j < p implies s[j] != '.' by {
        assert(s[j] == d[j]);
        assert(is_digit(d[j]));
    }
    lemma_dot_index(s, p);
    assert(s.take(p) =~= d);
    assert(s.skip(p + 1) =~= ft);
}

/// Converting an ether text to wei and back to text loses nothing more than
/// the truncation: the displayed text denotes the same wei as the input.
pub proof fn lemma_conversion_round_trip(s: Seq<char>)
    requires
        is_ether_text(s),
    ensures
        is_ether_text(ether_text(ether_text_wei(s))),
        ether_text_wei(ether_text(ether_text_wei(s))) == ether_text_wei(s),
{
    lemma_display_round_trip(ether_text_wei(s));
}

} // verus!
