//! Byte sizes: parsing of sizes with binary units (`"10 MB"`) and the human
//! readable rendering of a byte count (`"1.50 KB"`).

use vstd::prelude::*;
use vstd::string::*;
use vstd::arithmetic::div_mod::{lemma_div_denominator, lemma_fundamental_div_mod};
use crate::text::{
    ascii_upper_text, concat_str, dec_digits, digit_char, ends_with, exec_digit_char, is_ascii_text,
    parse_u64, parse_unsigned, push_decimal, str_ends_with, string_push, trim, trim_str,
};

verus! {

// ---------------------------------------------------------------------------
// Parsing
// ---------------------------------------------------------------------------

/// The upper-case form of `s` that `str::to_uppercase` gives (full Unicode
/// case mapping).
pub uninterp spec fn unicode_upper(s: Seq<char>) -> Seq<char>;

/// The upper-case form of a text: for ASCII text the ASCII mapping
/// (`a`-`z` to `A`-`Z`), otherwise the Unicode mapping.
pub open spec fn upper_text(s: Seq<char>) -> Seq<char> {
    if is_ascii_text(s) {
        ascii_upper_text(s)
    } else {
        unicode_upper(s)
    }
}

/// Upper-cases a string.
///
/// Trusted: wraps `str::to_uppercase`. The contract names its result and
/// states one fact that std documents: on ASCII text the Unicode mapping is
/// the ASCII one (`to_ascii_uppercase`). The mapping of other characters is
/// not stated.
#[verifier::external_body]
fn str_to_uppercase(s: &str) -> (r: String)
    ensures
        r@ == unicode_upper(s@),
        is_ascii_text(s@) ==> r@ == ascii_upper_text(s@),
{
    s.to_uppercase()
}

/// The outcome for an upper-cased size string `u` that ends in a unit of
/// `unit_len` characters worth `multiplier` bytes.
pub open spec fn size_with_unit(u: Seq<char>, unit_len: nat, multiplier: nat) -> Result<u64, Seq<char>> {
    let number_part = trim(u.take(u.len() - unit_len));
    match parse_unsigned(number_part, 10, u64::MAX as nat) {
        None => Err("Invalid size: "@ + number_part),
        Some(v) => if v * multiplier <= u64::MAX {
            Ok((v * multiplier) as u64)
        } else {
            Err("Size too large: "@ + u)
        },
    }
}

/// What a trimmed, upper-cased size string denotes: the units `KB`, `MB`,
/// `GB`, `TB` and `B` are tried in this order; without a unit the whole
/// string must be a number of bytes.
pub open spec fn spec_parse_size_upper(u: Seq<char>) -> Result<u64, Seq<char>> {
    if ends_with(u, "KB"@) {
        size_with_unit(u, 2, 1_024)
    } else if ends_with(u, "MB"@) {
        size_with_unit(u, 2, 1_048_576)
    } else if ends_with(u, "GB"@) {
        size_with_unit(u, 2, 1_073_741_824)
    } else if ends_with(u, "TB"@) {
        size_with_unit(u, 2, 1_099_511_628_000)
    } else if ends_with(u, "B"@) {
        size_with_unit(u, 1, 1)
    } else {
        match parse_unsigned(u, 10, u64::MAX as nat) {
            Some(v) => Ok(v as u64),
            None => Err("Invalid size: "@ + u),
        }
    }
}

pub open spec fn spec_parse_size_base_2(s: Seq<char>) -> Result<u64, Seq<char>> {
    spec_parse_size_upper(upper_text(trim(s)))
}

fn parse_with_unit(u: &str, unit_len: usize, multiplier: u64) -> (r: Result<u64, String>)
    requires
        unit_len <= u@.len(),
    ensures
        match r {
            Ok(v) => size_with_unit(u@, unit_len as nat, multiplier as nat) == Ok::<u64, Seq<char>>(v),
            Err(e) => size_with_unit(u@, unit_len as nat, multiplier as nat) == Err::<u64, Seq<char>>(e@),
        },
{
    let n: usize = u.unicode_len();
    let head: &str = u.substring_char(0, n - unit_len);
    assert(head@ =~= u@.take(u@.len() - unit_len));
    let number_part: &str = trim_str(head);
    match parse_u64(number_part) {
        None => Err(concat_str("Invalid size: ", number_part)),
        Some(value) => match value.checked_mul(multiplier) {
            Some(bytes) => Ok(bytes),
            None => Err(concat_str("Size too large: ", u)),
        },
    }
}

/// Parses an already trimmed and upper-cased size string such as `"10 MB"`.
pub fn parse_size_upper(u: &str) -> (r: Result<u64, String>)
    ensures
        match r {
            Ok(v) => spec_parse_size_upper(u@) == Ok::<u64, Seq<char>>(v),
            Err(e) => spec_parse_size_upper(u@) == Err::<u64, Seq<char>>(e@),
        },
{
    proof {
        reveal_strlit("KB");
        reveal_strlit("MB");
        reveal_strlit("GB");
        reveal_strlit("TB");
        reveal_strlit("B");
    }
    if str_ends_with(u, "KB") {
        parse_with_unit(u, 2, 1_024)
    } else if str_ends_with(u, "MB") {
        parse_with_unit(u, 2, 1_048_576)
    } else if str_ends_with(u, "GB") {
        parse_with_unit(u, 2, 1_073_741_824)
    } else if str_ends_with(u, "TB") {
        parse_with_unit(u, 2, 1_099_511_628_000)
    } else if str_ends_with(u, "B") {
        parse_with_unit(u, 1, 1)
    } else {
        match parse_u64(u) {
            Some(v) => Ok(v),
            None => Err(concat_str("Invalid size: ", u)),
        }
    }
}

/// Parses a size with an optional unit (`B`, `KB`, `MB`, `GB`, `TB`, any
/// case, surrounding whitespace ignored) into a number of bytes. `KB`, `MB`
/// and `GB` are powers of 1024; `TB` counts 1_099_511_628_000 bytes.
/// Errors are `"Invalid size: ..."` for an unreadable number and
/// `"Size too large: ..."` when the byte count exceeds `u64`.
pub fn parse_size_base_2(size_str: &str) -> (r: Result<u64, String>)
    ensures
        match r {
            Ok(v) => spec_parse_size_base_2(size_str@) == Ok::<u64, Seq<char>>(v),
            Err(e) => spec_parse_size_base_2(size_str@) == Err::<u64, Seq<char>>(e@),
        },
{
    let upper: String = str_to_uppercase(trim_str(size_str));
    parse_size_upper(upper.as_str())
}

// ---------------------------------------------------------------------------
// Human readable rendering
// ---------------------------------------------------------------------------

pub open spec fn pow2_nat(e: nat) -> nat
    decreases e,
{
    if e == 0 {
        1
    } else {
        2 * pow2_nat((e - 1) as nat)
    }
}

/// How many low bits of `b` a 53-bit significand cannot hold.
pub open spec fn f64_excess_bits(b: nat) -> nat
    decreases b,
{
    if b < 0x20_0000_0000_0000 {
        0
    } else {
        1 + f64_excess_bits(b / 2)
    }
}

/// `num / den` rounded to the nearest integer, ties to even.
pub open spec fn round_half_even_div(num: nat, den: nat) -> nat {
    let q = num / den;
    let r = num % den;
    if 2 * r > den || (2 * r == den && q % 2 == 1) {
        q + 1
    } else {
        q
    }
}

/// The value of `b as f64`: `b` rounded to 53 significant bits, ties to even.
pub open spec fn u64_as_f64_value(b: nat) -> nat {
    let p = pow2_nat(f64_excess_bits(b));
    round_half_even_div(b, p) * p
}

/// How often a size `v` is divided by 1024 before it is below 1024, at most
/// four times (`TB` is the largest unit).
pub open spec fn byte_unit_index(v: nat) -> nat {
    if v < 1_024 {
        0
    } else if v < 1_048_576 {
        1
    } else if v < 1_073_741_824 {
        2
    } else if v < 1_099_511_627_776 {
        3
    } else {
        4
    }
}

pub open spec fn pow1024(k: nat) -> nat {
    if k == 0 {
        1
    } else if k == 1 {
        1_024
    } else if k == 2 {
        1_048_576
    } else if k == 3 {
        1_073_741_824
    } else {
        1_099_511_627_776
    }
}

pub open spec fn byte_unit_name(k: nat) -> Seq<char> {
    if k == 0 {
        "B"@
    } else if k == 1 {
        "KB"@
    } else if k == 2 {
        "MB"@
    } else if k == 3 {
        "GB"@
    } else {
        "TB"@
    }
}

/// The rendering of `bytes`: the value as a float, divided by 1024 per unit
/// step, with exactly two decimals rounded half to even (as `{:.2}` writes
/// it), a space and the unit.
pub open spec fn spec_human_readable_byte_size(bytes: nat) -> Seq<char> {
    let v = u64_as_f64_value(bytes);
    let k = byte_unit_index(v);
    let n = round_half_even_div(v * 100, pow1024(k));
    dec_digits(n / 100) + seq!['.', digit_char((n / 10) % 10), digit_char(n % 10), ' ']
        + byte_unit_name(k)
}

/// `b` as the float conversion rounds it, as an exact integer.
fn u64_to_f64_value(b: u64) -> (r: u128)
    ensures
        r as nat == u64_as_f64_value(b as nat),
        r <= 2 * (b as nat),
{
    let mut q: u64 = b;
    let mut p: u128 = 1;
    let ghost mut s: nat = 0;
    while q >= 0x20_0000_0000_0000
        invariant
            p as nat == pow2_nat(s),
            p >= 1,
            q as nat == (b as nat) / (p as nat),
            f64_excess_bits(b as nat) == s + f64_excess_bits(q as nat),
            (q as nat) * (p as nat) <= b as nat,
        decreases q,
    {
        proof {
            lemma_div_denominator(b as int, p as int, 2);
            assert((q as nat) * (p as nat) <= b as nat);
            assert(((q / 2) as nat) * ((p * 2) as nat) <= (q as nat) * (p as nat)) by (nonlinear_arith)
                requires q >= 0;
            assert((q as nat) * (p as nat) >= p as nat) by (nonlinear_arith)
                requires q >= 1;
        }
        q = q / 2;
        p = p * 2;
        proof {
            s = s + 1;
        }
    }
    assert(f64_excess_bits(q as nat) == 0);
    proof {
        lemma_fundamental_div_mod(b as int, p as int);
    }
    let qp: u128 = (q as u128) * p;
    let rem: u128 = (b as u128) - qp;
    assert(rem as nat == (b as nat) % (p as nat)) by {
        vstd::arithmetic::div_mod::lemma_fundamental_div_mod(b as int, p as int);
    }
    let rounded: u128 = if 2 * rem > p || (2 * rem == p && q % 2 == 1) {
        (q as u128) + 1
    } else {
        q as u128
    };
    assert((rounded as nat) * (p as nat) <= 2 * (b as nat)) by (nonlinear_arith)
        requires
            rounded <= q + 1,
            (q as nat) * (p as nat) <= b as nat,
            rem < p,
            rem as nat + (q as nat) * (p as nat) == b as nat,
            rounded == q || (2 * rem >= p);
    rounded * p
}

/// Renders a byte count with two decimals and the largest fitting binary
/// unit, e.g. `1536` as `"1.50 KB"`.
pub fn human_readable_byte_size(bytes: u64) -> (r: String)
    ensures
        r@ == spec_human_readable_byte_size(bytes as nat),
{
    let v: u128 = u64_to_f64_value(bytes);
    let k: u8 = if v < 1_024 {
        0
    } else if v < 1_048_576 {
        1
    } else if v < 1_073_741_824 {
        2
    } else if v < 1_099_511_627_776 {
        3
    } else {
        4
    };
    let den: u128 = if k == 0 {
        1
    } else if k == 1 {
        1_024
    } else if k == 2 {
        1_048_576
    } else if k == 3 {
        1_073_741_824
    } else {
        1_099_511_627_776
    };
    assert(k as nat == byte_unit_index(v as nat));
    assert(den as nat == pow1024(k as nat));
    let scaled: u128 = v * 100;
    let q: u128 = scaled / den;
    let rem: u128 = scaled % den;
    let n: u128 = if 2 * rem > den || (2 * rem == den && q % 2 == 1) {
        q + 1
    } else {
        q
    };
    assert(n as nat == round_half_even_div((v as nat) * 100, den as nat));
    let mut out: String = String::new();
    push_decimal(&mut out, n / 100);
    string_push(&mut out, '.');
    string_push(&mut out, exec_digit_char(((n / 10) % 10) as u8));
    string_push(&mut out, exec_digit_char((n % 10) as u8));
    string_push(&mut out, ' ');
    if k == 0 {
        out.append("B");
    } else if k == 1 {
        out.append("KB");
    } else if k == 2 {
        out.append("MB");
    } else if k == 3 {
        out.append("GB");
    } else {
        out.append("TB");
    }
    assert(out@ =~= spec_human_readable_byte_size(bytes as nat));
    out
}

} // verus!

verus! {

proof fn lemma_digits_fixed_by_upper(d: Seq<char>)
    requires
        forall|i: int| 0 <= i < d.len() ==> 0x30 <= (#[trigger] d[i] as u32) <= 0x39,
    ensures
        is_ascii_text(d),
        ascii_upper_text(d) == d,
{
    assert(ascii_upper_text(d) =~= d);
}

proof fn lemma_not_ending_in(u: Seq<char>, x: Seq<char>, k: int)
    requires
        0 < k <= x.len(),
        k <= u.len(),
        u[u.len() - k] != x[x.len() - k],
    ensures
        !ends_with(u, x),
{
    if ends_with(u, x) {
        assert(u.subrange(u.len() - x.len(), u.len() as int)[x.len() - k] == u[u.len() - k]);
    }
}

proof fn lemma_plain_size(m: nat)
    requires
        m <= u64::MAX,
    ensures
        spec_parse_size_base_2(dec_digits(m)) == Ok::<u64, Seq<char>>(m as u64),
{
    reveal_strlit("KB");
    reveal_strlit("MB");
    reveal_strlit("GB");
    reveal_strlit("TB");
    reveal_strlit("B");
    let dm = dec_digits(m);
    crate::text::lemma_dec_digits_ascii(m);
    crate::text::law_decimal_roundtrip(m, u64::MAX as nat);
    lemma_digits_fixed_by_upper(dm);
    crate::text::lemma_trim_untouched(dm);
    lemma_not_ending_in(dm, "KB"@, 1);
    lemma_not_ending_in(dm, "MB"@, 1);
    lemma_not_ending_in(dm, "GB"@, 1);
    lemma_not_ending_in(dm, "TB"@, 1);
    lemma_not_ending_in(dm, "B"@, 1);
}

proof fn lemma_kb_size(n: nat)
    requires
        n * 1024 <= u64::MAX,
    ensures
        spec_parse_size_base_2(dec_digits(n) + "kb"@) == Ok::<u64, Seq<char>>((n * 1024) as u64),
{
    reveal_strlit("kb");
    reveal_strlit("KB");
    let d = dec_digits(n);
    crate::text::lemma_dec_digits_ascii(n);
    crate::text::law_decimal_roundtrip(n, u64::MAX as nat);
    crate::text::lemma_trim_untouched(d);
    let s1 = d + "kb"@;
    assert(s1[0] == d[0]);
    crate::text::lemma_trim_untouched(s1);
    assert(is_ascii_text(s1)) by {
        assert forall|i: int| 0 <= i < s1.len() implies (#[trigger] s1[i] as u32) < 0x80 by {
            if i < d.len() {
                assert(s1[i] == d[i]);
            }
        }
    }
    let u1 = ascii_upper_text(s1);
    assert(u1 =~= d + "KB"@) by {
        assert forall|i: int| 0 <= i < s1.len() implies #[trigger] u1[i] == (d + "KB"@)[i] by {
            if i >= d.len() {
                assert(s1[i] == 'k' || s1[i] == 'b');
            } else {
                assert(s1[i] == d[i]);
            }
        }
    }
    assert(ends_with(u1, "KB"@)) by {
        assert(u1.subrange(u1.len() - 2, u1.len() as int) =~= "KB"@);
    }
    assert(u1.take(u1.len() - 2) =~= d);
}

proof fn lemma_b_size(n: nat)
    requires
        n <= u64::MAX,
    ensures
        spec_parse_size_base_2(dec_digits(n) + " B"@) == Ok::<u64, Seq<char>>(n as u64),
{
    reveal_strlit(" B");
    reveal_strlit("KB");
    reveal_strlit("MB");
    reveal_strlit("GB");
    reveal_strlit("TB");
    reveal_strlit("B");
    let d = dec_digits(n);
    crate::text::lemma_dec_digits_ascii(n);
    crate::text::law_decimal_roundtrip(n, u64::MAX as nat);
    crate::text::lemma_trim_untouched(d);
    let s2 = d + " B"@;
    assert(s2[0] == d[0]);
    crate::text::lemma_trim_untouched(s2);
    assert(is_ascii_text(s2)) by {
        assert forall|i: int| 0 <= i < s2.len() implies (#[trigger] s2[i] as u32) < 0x80 by {
            if i < d.len() {
                assert(s2[i] == d[i]);
            }
        }
    }
    let u2 = ascii_upper_text(s2);
    assert(u2 =~= s2) by {
        assert forall|i: int| 0 <= i < s2.len() implies #[trigger] u2[i] == s2[i] by {
            if i < d.len() {
                assert(s2[i] == d[i]);
            }
        }
    }
    lemma_not_ending_in(u2, "KB"@, 2);
    lemma_not_ending_in(u2, "MB"@, 2);
    lemma_not_ending_in(u2, "GB"@, 2);
    lemma_not_ending_in(u2, "TB"@, 2);
    assert(ends_with(u2, "B"@)) by {
        assert(u2.subrange(u2.len() - 1, u2.len() as int) =~= "B"@);
    }
    let head = u2.take(u2.len() - 1);
    assert(head =~= d.push(' '));
    assert(crate::text::trim_start(head) == head);
    assert(head.drop_last() =~= d);
    assert(crate::text::trim_end(head) == crate::text::trim_end(d));
}

/// Sizes with units count as their byte counts: `{n}kb` (any case) is
/// `n * 1024` bytes, the same as the plain number `n * 1024`, and `{n} B`
/// is `n` bytes, the same as the plain number `n`.
pub proof fn law_size_units(n: u64)
    requires
        n * 1024 <= u64::MAX,
    ensures
        spec_parse_size_base_2(dec_digits(n as nat) + "kb"@) == Ok::<u64, Seq<char>>((n * 1024) as u64),
        spec_parse_size_base_2(dec_digits((n * 1024) as nat)) == Ok::<u64, Seq<char>>((n * 1024) as u64),
        spec_parse_size_base_2(dec_digits(n as nat) + " B"@) == Ok::<u64, Seq<char>>(n),
        spec_parse_size_base_2(dec_digits(n as nat)) == Ok::<u64, Seq<char>>(n),
{
    lemma_kb_size(n as nat);
    lemma_plain_size((n * 1024) as nat);
    lemma_b_size(n as nat);
    lemma_plain_size(n as nat);
}

} // verus!

verus! {

proof fn lemma_exact_small_value(b: nat)
    requires
        b < 0x20_0000_0000_0000,
    ensures
        u64_as_f64_value(b) == b,
{
    assert(f64_excess_bits(b) == 0);
    assert(pow2_nat(0) == 1);
    assert(round_half_even_div(b, 1) == b) by (nonlinear_arith);
}

/// A byte count below 1024 renders as itself with two zero decimals and
/// the unit `B`; a whole number `m` of kibibytes (1 <= m < 1024) renders as
/// `m` with two zero decimals and the unit `KB`.
pub proof fn law_human_readable_exact_units(b: nat, m: nat)
    requires
        b < 1024,
        1 <= m < 1024,
    ensures
        spec_human_readable_byte_size(b) == dec_digits(b) + ".00 B"@,
        spec_human_readable_byte_size(m * 1024) == dec_digits(m) + ".00 KB"@,
{
    reveal_strlit(".00 B");
    reveal_strlit(".00 KB");
    reveal_strlit("B");
    reveal_strlit("KB");
    lemma_exact_small_value(b);
    assert(round_half_even_div(b * 100, 1) == b * 100) by (nonlinear_arith);
    assert((b * 100) / 100 == b) by (nonlinear_arith);
    assert(((b * 100) / 10) % 10 == 0) by (nonlinear_arith);
    assert((b * 100) % 10 == 0) by (nonlinear_arith);
    assert(spec_human_readable_byte_size(b) =~= dec_digits(b) + ".00 B"@);
    let v = m * 1024;
    assert(m * 1024 < 1_048_576) by (nonlinear_arith) requires m < 1024;
    assert(m * 1024 >= 1024) by (nonlinear_arith) requires m >= 1;
    lemma_exact_small_value(v);
    assert(round_half_even_div(v * 100, 1024) == m * 100) by (nonlinear_arith)
        requires v == m * 1024;
    assert((m * 100) / 100 == m) by (nonlinear_arith);
    assert(((m * 100) / 10) % 10 == 0) by (nonlinear_arith);
    assert((m * 100) % 10 == 0) by (nonlinear_arith);
    assert(spec_human_readable_byte_size(v) =~= dec_digits(m) + ".00 KB"@);
}

} // verus!

verus! {

proof fn lemma_unit_text(n: nat, lower: Seq<char>, upper: Seq<char>)
    requires
        lower.len() == 2,
        forall|i: int| 0 <= i < 2 ==> 0x61 <= (#[trigger] lower[i] as u32) <= 0x7A,
        upper == ascii_upper_text(lower),
    ensures
        trim(dec_digits(n) + lower) == dec_digits(n) + lower,
        is_ascii_text(dec_digits(n) + lower),
        ascii_upper_text(dec_digits(n) + lower) == dec_digits(n) + upper,
        (dec_digits(n) + upper).take((dec_digits(n) + upper).len() - 2) == dec_digits(n),
        upper.len() == 2,
{
    let d = dec_digits(n);
    crate::text::lemma_dec_digits_ascii(n);
    let s1 = d + lower;
    assert(s1[0] == d[0]);
    assert(s1.last() == lower[1]);
    crate::text::lemma_trim_untouched(s1);
    assert(is_ascii_text(s1)) by {
        assert forall|i: int| 0 <= i < s1.len() implies (#[trigger] s1[i] as u32) < 0x80 by {
            if i < d.len() {
                assert(s1[i] == d[i]);
            } else {
                assert(s1[i] == lower[i - d.len()]);
            }
        }
    }
    let u1 = ascii_upper_text(s1);
    assert(u1 =~= d + upper) by {
        assert forall|i: int| 0 <= i < s1.len() implies #[trigger] u1[i] == (d + upper)[i] by {
            if i >= d.len() {
                assert(s1[i] == lower[i - d.len()]);
                assert(upper[i - d.len()] == crate::text::ascii_upper_char(lower[i - d.len()]));
            } else {
                assert(s1[i] == d[i]);
            }
        }
    }
    assert((d + upper).take((d + upper).len() - 2) =~= d);
}

proof fn lemma_unit_size(n: nat, lower: Seq<char>, upper: Seq<char>, mult: nat)
    requires
        n * mult <= u64::MAX,
        mult >= 1,
        lower.len() == 2,
        forall|i: int| 0 <= i < 2 ==> 0x61 <= (#[trigger] lower[i] as u32) <= 0x7A,
        upper == ascii_upper_text(lower),
        spec_parse_size_upper(dec_digits(n) + upper) == size_with_unit(dec_digits(n) + upper, 2, mult),
    ensures
        spec_parse_size_base_2(dec_digits(n) + lower) == Ok::<u64, Seq<char>>((n * mult) as u64),
{
    lemma_unit_text(n, lower, upper);
    let d = dec_digits(n);
    crate::text::lemma_dec_digits_ascii(n);
    crate::text::lemma_trim_untouched(d);
    assert(n <= u64::MAX) by (nonlinear_arith)
        requires
            n * mult <= u64::MAX,
            mult >= 1,
    ;
    crate::text::law_decimal_roundtrip(n, u64::MAX as nat);
}

proof fn lemma_mb_size(n: nat)
    requires
        n * 1_048_576 <= u64::MAX,
    ensures
        spec_parse_size_base_2(dec_digits(n) + "mb"@) == Ok::<u64, Seq<char>>((n * 1_048_576) as u64),
{
    reveal_strlit("mb");
    reveal_strlit("MB");
    reveal_strlit("KB");
    assert(ascii_upper_text("mb"@) =~= "MB"@);
    let u = dec_digits(n) + "MB"@;
    lemma_not_ending_in(u, "KB"@, 2);
    assert(u.subrange(u.len() - 2, u.len() as int) =~= "MB"@);
    lemma_unit_size(n, "mb"@, "MB"@, 1_048_576);
}

proof fn lemma_gb_size(n: nat)
    requires
        n * 1_073_741_824 <= u64::MAX,
    ensures
        spec_parse_size_base_2(dec_digits(n) + "gb"@) == Ok::<u64, Seq<char>>((n * 1_073_741_824) as u64),
{
    reveal_strlit("gb");
    reveal_strlit("GB");
    reveal_strlit("MB");
    reveal_strlit("KB");
    assert(ascii_upper_text("gb"@) =~= "GB"@);
    let u = dec_digits(n) + "GB"@;
    lemma_not_ending_in(u, "KB"@, 2);
    lemma_not_ending_in(u, "MB"@, 2);
    assert(u.subrange(u.len() - 2, u.len() as int) =~= "GB"@);
    lemma_unit_size(n, "gb"@, "GB"@, 1_073_741_824);
}

proof fn lemma_tb_size(n: nat)
    requires
        n * 1_099_511_628_000 <= u64::MAX,
    ensures
        spec_parse_size_base_2(dec_digits(n) + "tb"@) == Ok::<u64, Seq<char>>((n * 1_099_511_628_000) as u64),
{
    reveal_strlit("tb");
    reveal_strlit("TB");
    reveal_strlit("GB");
    reveal_strlit("MB");
    reveal_strlit("KB");
    assert(ascii_upper_text("tb"@) =~= "TB"@);
    let u = dec_digits(n) + "TB"@;
    lemma_not_ending_in(u, "KB"@, 2);
    lemma_not_ending_in(u, "MB"@, 2);
    lemma_not_ending_in(u, "GB"@, 2);
    assert(u.subrange(u.len() - 2, u.len() as int) =~= "TB"@);
    lemma_unit_size(n, "tb"@, "TB"@, 1_099_511_628_000);
}

/// Every unit counts its multiple of bytes, in any case: `{n}mb` is
/// `n * 1_048_576` bytes, `{n}gb` is `n * 1_073_741_824` bytes and `{n}tb`
/// is `n * 1_099_511_628_000` bytes (when that fits a `u64`).
pub proof fn law_size_larger_units(n: u64)
    ensures
        n * 1_048_576 <= u64::MAX ==> spec_parse_size_base_2(dec_digits(n as nat) + "mb"@) == Ok::<
            u64,
            Seq<char>,
        >((n * 1_048_576) as u64),
        n * 1_073_741_824 <= u64::MAX ==> spec_parse_size_base_2(dec_digits(n as nat) + "gb"@) == Ok::<
            u64,
            Seq<char>,
        >((n * 1_073_741_824) as u64),
        n * 1_099_511_628_000 <= u64::MAX ==> spec_parse_size_base_2(dec_digits(n as nat) + "tb"@) == Ok::<
            u64,
            Seq<char>,
        >((n * 1_099_511_628_000) as u64),
{
    if n * 1_048_576 <= u64::MAX {
        lemma_mb_size(n as nat);
    }
    if n * 1_073_741_824 <= u64::MAX {
        lemma_gb_size(n as nat);
    }
    if n * 1_099_511_628_000 <= u64::MAX {
        lemma_tb_size(n as nat);
    }
}

} // verus!
