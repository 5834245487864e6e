//! File sizes as text: the raw byte count, or a value scaled to a unit of 1000 or 1024.
use vstd::prelude::*;

verus! {

/// The decimal digit `d` (below ten) as a character.
pub open spec fn digit(d: nat) -> char {
    if d == 0 { '0' }
    else if d == 1 { '1' }
    else if d == 2 { '2' }
    else if d == 3 { '3' }
    else if d == 4 { '4' }
    else if d == 5 { '5' }
    else if d == 6 { '6' }
    else if d == 7 { '7' }
    else if d == 8 { '8' }
    else { '9' }
}

/// Decimal notation of `n`, without leading zeros.
pub open spec fn decimal(n: nat) -> Seq<char>
    decreases n,
{
    if n < 10 {
        seq![digit(n)]
    } else {
        decimal(n / 10).push(digit(n % 10))
    }
}

/// `d` to the power `e`.
pub open spec fn power(d: nat, e: nat) -> nat
    decreases e,
{
    if e == 0 {
        1
    } else {
        d * power(d, (e - 1) as nat)
    }
}

/// Largest `e` with `d^e <= n` (zero when `n` is zero).
pub open spec fn log_floor(n: nat, d: nat) -> nat
    recommends
        d >= 2,
    decreases n,
    via log_floor_decreases
{
    if d < 2 || n < d {
        0
    } else {
        1 + log_floor(n / d, d)
    }
}

#[via_fn]
proof fn log_floor_decreases(n: nat, d: nat) {
    if d >= 2 && n >= d {
        assert(n / d < n) by (nonlinear_arith)
            requires
                d >= 2,
                n >= d,
        ;
    }
}

/// Number of units on the ladder B, kB, MB, GB, TB, PB, EB, ZB, YB.
pub const UNIT_COUNT: usize = 9;

/// The unit label at exponent `e` of the ladder.
pub open spec fn unit_label(e: nat) -> Seq<char> {
    if e == 0 { "B"@ }
    else if e == 1 { "kB"@ }
    else if e == 2 { "MB"@ }
    else if e == 3 { "GB"@ }
    else if e == 4 { "TB"@ }
    else if e == 5 { "PB"@ }
    else if e == 6 { "EB"@ }
    else if e == 7 { "ZB"@ }
    else { "YB"@ }
}

/// The divisor between two steps of the unit ladder.
pub open spec fn ladder_base(base_1000: bool) -> nat {
    if base_1000 { 1000 } else { 1024 }
}

/// The ladder step used for `n` bytes: the floor of the logarithm, capped at the last unit.
pub open spec fn size_exponent(n: nat, base_1000: bool) -> nat {
    let e = log_floor(n, ladder_base(base_1000));
    if e < UNIT_COUNT - 1 { e } else { (UNIT_COUNT - 1) as nat }
}

/// `n` divided by the unit of step `e`, in hundredths, rounded half up.
pub open spec fn scaled_hundredths(n: nat, base_1000: bool, e: nat) -> nat {
    let p = power(ladder_base(base_1000), e);
    ((n * 100 + p / 2) / p) as nat
}

/// The raw byte count followed by the unit `B`.
pub open spec fn raw_size(n: nat) -> Seq<char> {
    decimal(n) + " B"@
}

/// The human-readable size of `n` bytes: the scaled value with two decimals, a space and the unit.
pub open spec fn human_size(n: nat, base_1000: bool) -> Seq<char> {
    let e = size_exponent(n, base_1000);
    let h = scaled_hundredths(n, base_1000, e);
    decimal(h / 100) + "."@ + seq![digit((h % 100) / 10), digit(h % 10)] + " "@ + unit_label(e)
}

fn digit_str(d: u128) -> (r: &'static str)
    requires
        d < 10,
    ensures
        r@ == seq![digit(d as nat)],
{
    proof {
        reveal_strlit("0");
        reveal_strlit("1");
        reveal_strlit("2");
        reveal_strlit("3");
        reveal_strlit("4");
        reveal_strlit("5");
        reveal_strlit("6");
        reveal_strlit("7");
        reveal_strlit("8");
        reveal_strlit("9");
    }
    if d == 0 { "0" }
    else if d == 1 { "1" }
    else if d == 2 { "2" }
    else if d == 3 { "3" }
    else if d == 4 { "4" }
    else if d == 5 { "5" }
    else if d == 6 { "6" }
    else if d == 7 { "7" }
    else if d == 8 { "8" }
    else { "9" }
}

/// Appends the decimal notation of `n` to `out`.
pub fn push_decimal(out: &mut String, n: u128)
    ensures
        final(out)@ == old(out)@ + decimal(n as nat),
    decreases n,
{
    if n >= 10 {
        push_decimal(out, n / 10);
    }
    out.append(digit_str(n % 10));
    proof {
        assert(out@ =~= old(out)@ + decimal(n as nat));
    }
}

fn unit_str(e: usize) -> (r: &'static str)
    requires
        e < UNIT_COUNT,
    ensures
        r@ == unit_label(e as nat),
{
    if e == 0 { "B" }
    else if e == 1 { "kB" }
    else if e == 2 { "MB" }
    else if e == 3 { "GB" }
    else if e == 4 { "TB" }
    else if e == 5 { "PB" }
    else if e == 6 { "EB" }
    else if e == 7 { "ZB" }
    else { "YB" }
}

/// The raw byte count with the unit `B`, as printed when sizes are not made human-readable.
pub fn raw_filesize(num: u64) -> (r: String)
    ensures
        r@ == raw_size(num as nat),
{
    let mut out = String::new();
    push_decimal(&mut out, num as u128);
    out.append(" B");
    proof {
        assert(out@ =~= raw_size(num as nat));
    }
    out
}

proof fn lemma_step(n: nat, d: nat, p: nat, q: nat)
    requires
        d >= 2,
        p >= 1,
        q >= d,
        p * q <= n,
    ensures
        p * d <= n,
        (p * d) * (q / d) <= n,
{
    assert(p * d <= p * q) by (nonlinear_arith)
        requires
            q >= d,
            p >= 1,
    ;
    assert(d * (q / d) <= q) by (nonlinear_arith)
        requires
            d >= 2,
    ;
    assert((p * d) * (q / d) <= p * q) by (nonlinear_arith)
        requires
            d * (q / d) <= q,
            p >= 1,
    ;
}

/// Prints file sizes like 4.14 kB, 2.10 GB: two decimals and a unit of the ladder.
pub fn human_readable_filesize(num: u64, base_1000: bool) -> (r: String)
    ensures
        r@ == human_size(num as nat, base_1000),
{
    let d: u64 = if base_1000 { 1000 } else { 1024 };
    let ghost dn = ladder_base(base_1000);
    let mut e: usize = 0;
    let mut p: u64 = 1;
    let mut q: u64 = num;
    while e < UNIT_COUNT - 1 && q >= d
        invariant
            d as nat == dn,
            dn >= 2,
            e < UNIT_COUNT,
            p >= 1,
            p as nat == power(dn, e as nat),
            p as nat * q as nat <= num as nat || (num == 0 && p == 1),
            log_floor(num as nat, dn) == e + log_floor(q as nat, dn),
        decreases q,
    {
        proof {
            lemma_step(num as nat, dn, p as nat, q as nat);
            assert(log_floor(q as nat, dn) == 1 + log_floor((q / d) as nat, dn));
        }
        let ghost p0 = p as nat;
        q = q / d;
        p = p * d;
        e = e + 1;
        proof {
            assert(p as nat == p0 * dn);
            assert(power(dn, e as nat) == dn * power(dn, (e - 1) as nat));
            assert(p0 * dn == dn * p0 && p0 * dn >= 1) by (nonlinear_arith)
                requires
                    p0 >= 1,
                    dn >= 2,
            ;
        }
    }
    proof {
        assert(e as nat == size_exponent(num as nat, base_1000));
    }
    let pw = p as u128;
    let h: u128 = (num as u128 * 100 + pw / 2) / pw;
    let mut out = String::new();
    push_decimal(&mut out, h / 100);
    out.append(".");
    out.append(digit_str((h % 100) / 10));
    out.append(digit_str(h % 10));
    out.append(" ");
    out.append(unit_str(e));
    proof {
        assert(h as nat == scaled_hundredths(num as nat, base_1000, e as nat));
        assert(out@ =~= human_size(num as nat, base_1000));
    }
    out
}

} // verus!
