//! Numbers by their bytes, and text made of digits.

use vstd::arithmetic::div_mod::lemma_div_denominator;
use vstd::arithmetic::power::{lemma_pow0, lemma_pow1, lemma_pow_adds, lemma_pow_positive, pow};
use vstd::prelude::*;
use vstd::string::StringExecFns;

verus! {

/// `256^n`.
pub open spec fn pow256(n: nat) -> nat
    decreases n,
{
    if n == 0 {
        1
    } else {
        256 * pow256((n - 1) as nat)
    }
}

/// The number with the given bytes, highest first.
pub open spec fn from_be(b: Seq<u8>) -> nat
    decreases b.len(),
{
    if b.len() == 0 {
        0
    } else {
        from_be(b.drop_last()) * 256 + b.last() as nat
    }
}

/// The `n` lowest bytes of a number, highest first.
pub open spec fn to_be(x: nat, n: nat) -> Seq<u8>
    decreases n,
{
    if n == 0 {
        Seq::empty()
    } else {
        to_be(x / 256, (n - 1) as nat).push((x % 256) as u8)
    }
}

/// The number with the given bytes, lowest first.
pub open spec fn from_le(b: Seq<u8>) -> nat
    decreases b.len(),
{
    if b.len() == 0 {
        0
    } else {
        from_le(b.skip(1)) * 256 + b[0] as nat
    }
}

/// The `n` lowest bytes of a number, lowest first.
pub open spec fn to_le(x: nat, n: nat) -> Seq<u8>
    decreases n,
{
    if n == 0 {
        Seq::empty()
    } else {
        seq![(x % 256) as u8] + to_le(x / 256, (n - 1) as nat)
    }
}

pub proof fn lemma_to_be_len(x: nat, n: nat)
    ensures
        to_be(x, n).len() == n,
    decreases n,
{
    if n > 0 {
        lemma_to_be_len(x / 256, (n - 1) as nat);
    }
}

pub proof fn lemma_to_le_len(x: nat, n: nat)
    ensures
        to_le(x, n).len() == n,
    decreases n,
{
    if n > 0 {
        lemma_to_le_len(x / 256, (n - 1) as nat);
    }
}

/// The lowest of the lowest bytes.
pub proof fn lemma_to_le_head(x: nat, m: nat, n: nat)
    requires
        m <= n,
    ensures
        to_le(x, n).take(m as int) == to_le(x, m),
    decreases m,
{
    lemma_to_le_len(x, n);
    if m > 0 {
        let rest = to_le(x / 256, (n - 1) as nat);
        lemma_to_le_head(x / 256, (m - 1) as nat, (n - 1) as nat);
        lemma_to_le_len(x / 256, (n - 1) as nat);
        assert(to_le(x, n).take(m as int) =~= seq![(x % 256) as u8] + rest.take(m - 1));
    } else {
        assert(to_le(x, n).take(0) =~= Seq::<u8>::empty());
    }
}

/// The bytes of a number that has no more of them stand for it.
pub proof fn lemma_from_to_be(x: nat, n: nat)
    requires
        x < pow256(n),
    ensures
        from_be(to_be(x, n)) == x,
    decreases n,
{
    if n > 0 {
        lemma_from_to_be(x / 256, (n - 1) as nat);
        let h = to_be(x / 256, (n - 1) as nat);
        assert(h.push((x % 256) as u8).drop_last() =~= h);
    }
}

/// The bytes of a number that has no more of them stand for it, lowest first.
pub proof fn lemma_from_to_le(x: nat, n: nat)
    requires
        x < pow256(n),
    ensures
        from_le(to_le(x, n)) == x,
    decreases n,
{
    if n > 0 {
        let rest = to_le(x / 256, (n - 1) as nat);
        lemma_from_to_le(x / 256, (n - 1) as nat);
        assert(to_le(x, n).skip(1) =~= rest);
    }
}

/// The number with given bytes has these bytes.
pub proof fn lemma_to_from_be(b: Seq<u8>)
    ensures
        to_be(from_be(b), b.len()) == b,
    decreases b.len(),
{
    if b.len() > 0 {
        lemma_to_from_be(b.drop_last());
        assert(b =~= b.drop_last().push(b.last()));
    } else {
        assert(to_be(from_be(b), b.len()) =~= b);
    }
}

proof fn lemma_from_be_bound(b: Seq<u8>)
    ensures
        from_be(b) < pow256(b.len()),
    decreases b.len(),
{
    if b.len() > 0 {
        lemma_from_be_bound(b.drop_last());
    }
}

pub proof fn lemma_pow256_16()
    ensures
        pow256(16) == 0x1_0000_0000_0000_0000_0000_0000_0000_0000int,
        pow256(8) == 0x1_0000_0000_0000_0000int,
{
    reveal_with_fuel(pow256, 17);
}

/// Numbers of no more than sixteen bytes that have the same bytes are equal.
pub proof fn lemma_to_be_unique(x: u128, y: u128)
    requires
        to_be(x as nat, 16) == to_be(y as nat, 16),
    ensures
        x == y,
{
    lemma_pow256_16();
    lemma_from_to_be(x as nat, 16);
    lemma_from_to_be(y as nat, 16);
}

/// The sixteen bytes of a number, highest first.
pub fn u128_to_be_bytes(x: u128) -> (r: [u8; 16])
    ensures
        r@ == to_be(x as nat, 16),
{
    let mut r: [u8; 16] = [0u8; 16];
    let mut rest: u128 = x;
    let mut i: usize = 16;
    assert(r@.skip(16) =~= Seq::<u8>::empty());
    assert(to_be(x as nat, 16) =~= to_be(rest as nat, 16) + r@.skip(16));
    while i > 0
        invariant
            i <= 16,
            r@.len() == 16,
            to_be(x as nat, 16) == to_be(rest as nat, i as nat) + r@.skip(i as int),
        decreases i,
    {
        let ghost r0 = r@;
        let ghost rest0 = rest as nat;
        i = i - 1;
        let low = (rest % 256) as u8;
        r[i] = low;
        rest = rest / 256;
        proof {
            assert(to_be(rest0, (i + 1) as nat) == to_be(rest0 / 256, i as nat).push(
                (rest0 % 256) as u8,
            ));
            assert(r@.skip(i as int) =~= seq![low] + r0.skip(i + 1));
            assert(to_be(rest0, (i + 1) as nat) + r0.skip(i + 1) =~= to_be(rest as nat, i as nat)
                + r@.skip(i as int));
        }
    }
    assert(r@.skip(0) =~= r@);
    assert(to_be(rest as nat, 0) + r@.skip(0) =~= r@);
    r
}

/// The number with the given sixteen bytes, highest first.
pub fn u128_from_be_bytes(b: &[u8; 16]) -> (r: u128)
    ensures
        r == from_be(b@),
{
    let mut acc: u128 = 0;
    let mut i: usize = 0;
    assert(b@.take(0) =~= Seq::<u8>::empty());
    while i < 16
        invariant
            i <= 16,
            acc == from_be(b@.take(i as int)),
        decreases 16 - i,
    {
        proof {
            lemma_from_be_bound(b@.take(i as int));
            lemma_pow256_16();
            lemma_pow256_mono(i as nat, 15);
            assert(b@.take(i + 1).drop_last() =~= b@.take(i as int));
        }
        acc = acc * 256 + b[i] as u128;
        i = i + 1;
    }
    assert(b@.take(16) =~= b@);
    acc
}

pub proof fn lemma_pow256_mono(a: nat, b: nat)
    requires
        a <= b,
    ensures
        pow256(a) <= pow256(b),
        256 * pow256(b) == pow256(b + 1),
    decreases b - a,
{
    if a < b {
        lemma_pow256_mono(a, (b - 1) as nat);
    }
}

/// The eight bytes of a number, lowest first.
pub fn u64_to_le_bytes(x: u64) -> (r: [u8; 8])
    ensures
        r@ == to_le(x as nat, 8),
{
    let mut r: [u8; 8] = [0u8; 8];
    let mut rest: u64 = x;
    let mut i: usize = 0;
    assert(r@.take(0) + to_le(x as nat, 8) =~= to_le(x as nat, 8));
    while i < 8
        invariant
            i <= 8,
            r@.len() == 8,
            to_le(x as nat, 8) == r@.take(i as int) + to_le(rest as nat, (8 - i) as nat),
        decreases 8 - i,
    {
        let ghost r0 = r@;
        let ghost rest0 = rest as nat;
        let low = (rest % 256) as u8;
        r[i] = low;
        rest = rest / 256;
        i = i + 1;
        proof {
            assert(r@.take(i as int) =~= r0.take(i - 1).push(low));
            assert(to_le(rest0, (8 - i + 1) as nat) == seq![(rest0 % 256) as u8] + to_le(
                rest0 / 256,
                (8 - i) as nat,
            ));
            assert(r0.take(i - 1) + to_le(rest0, (8 - i + 1) as nat) =~= r@.take(i as int) + to_le(
                rest as nat,
                (8 - i) as nat,
            ));
        }
    }
    assert(r@.take(8) + to_le(rest as nat, 0) =~= r@);
    r
}

/// The character of a digit, up to base sixteen.
pub open spec fn digit_char(n: nat) -> char {
    if n == 0 { '0' } else if n == 1 { '1' } else if n == 2 { '2' } else if n == 3 { '3' }
    else if n == 4 { '4' } else if n == 5 { '5' } else if n == 6 { '6' } else if n == 7 { '7' }
    else if n == 8 { '8' } else if n == 9 { '9' } else if n == 10 { 'a' } else if n == 11 { 'b' }
    else if n == 12 { 'c' } else if n == 13 { 'd' } else if n == 14 { 'e' } else { 'f' }
}

fn digit_str(n: u8) -> (r: &'static str)
    requires
        n < 16,
    ensures
        r@ == seq![digit_char(n as nat)],
{
    proof {
        reveal_strlit("0");
        reveal_strlit("1");
        reveal_strlit("2");
        reveal_strlit("3");
        reveal_strlit("4");
        reveal_strlit("5");
        reveal_strlit("6");
        reveal_strlit("7");
        reveal_strlit("8");
        reveal_strlit("9");
        reveal_strlit("a");
        reveal_strlit("b");
        reveal_strlit("c");
        reveal_strlit("d");
        reveal_strlit("e");
        reveal_strlit("f");
    }
    let r = match n {
        0 => "0",
        1 => "1",
        2 => "2",
        3 => "3",
        4 => "4",
        5 => "5",
        6 => "6",
        7 => "7",
        8 => "8",
        9 => "9",
        10 => "a",
        11 => "b",
        12 => "c",
        13 => "d",
        14 => "e",
        _ => "f",
    };
    assert(r@ =~= seq![digit_char(n as nat)]);
    r
}

/// Two hexadecimal digits for each byte.
pub open spec fn hex(b: Seq<u8>) -> Seq<char>
    decreases b.len(),
{
    if b.len() == 0 {
        Seq::empty()
    } else {
        hex(b.drop_last()) + seq![
            digit_char((b.last() / 16) as nat),
            digit_char((b.last() % 16) as nat),
        ]
    }
}

/// Appends the hexadecimal digits of bytes.
pub fn write_commit_hex(out: &mut String, bytes: &[u8])
    ensures
        final(out)@ == old(out)@ + hex(bytes@),
{
    let ghost out0 = out@;
    let mut i: usize = 0;
    assert(bytes@.take(0) =~= Seq::<u8>::empty());
    assert(out@ =~= out0 + hex(bytes@.take(0)));
    while i < bytes.len()
        invariant
            i <= bytes@.len(),
            out@ == out0 + hex(bytes@.take(i as int)),
        decreases bytes@.len() - i,
    {
        let b = bytes[i];
        let ghost out1 = out@;
        out.append(digit_str(b / 16));
        out.append(digit_str(b % 16));
        proof {
            assert(bytes@.take(i + 1).drop_last() =~= bytes@.take(i as int));
            assert(out@ =~= out0 + hex(bytes@.take(i + 1)));
        }
        i = i + 1;
    }
    assert(bytes@.take(i as int) =~= bytes@);
}

/// The decimal digits of a number, highest first.
pub open spec fn decimal(n: nat) -> Seq<char>
    decreases n,
{
    if n < 10 {
        seq![digit_char(n)]
    } else {
        decimal(n / 10).push(digit_char(n % 10))
    }
}

/// A number in decimal digits.
pub fn decimal_string(n: usize) -> (r: String)
    ensures
        r@ == decimal(n as nat),
    decreases n,
{
    if n < 10 {
        String::from_str(digit_str(n as u8))
    } else {
        let mut s = decimal_string(n / 10);
        s.append(digit_str((n % 10) as u8));
        assert(s@ =~= decimal(n as nat));
        s
    }
}

/// Different numbers have different digits.
pub proof fn lemma_decimal_unique(a: nat, b: nat)
    requires
        decimal(a) == decimal(b),
    ensures
        a == b,
    decreases a,
{
    let x = decimal(a);
    assert(x.last() == digit_char(a % 10));
    assert(x.last() == digit_char(b % 10));
    lemma_decimal_len(a);
    lemma_decimal_len(b);
    if a >= 10 {
        assert(x.drop_last() =~= decimal(a / 10));
        assert(x.drop_last() =~= decimal(b / 10));
        lemma_decimal_unique(a / 10, b / 10);
    }
}

proof fn lemma_decimal_len(n: nat)
    ensures
        decimal(n).len() >= 1,
        decimal(n).len() == 1 <==> n < 10,
    decreases n,
{
    if n >= 10 {
        lemma_decimal_len(n / 10);
    }
}

/// The weight of a byte is a power of 256.
pub proof fn lemma_pow256_power(n: nat)
    ensures
        pow256(n) == pow(256, n),
    decreases n,
{
    lemma_pow0(256);
    if n > 0 {
        lemma_pow256_power((n - 1) as nat);
        lemma_pow_adds(256, 1, (n - 1) as nat);
        lemma_pow1(256);
    }
}

/// Dividing by one base and then by a power of it is dividing by the next power.
proof fn lemma_next_power(x: nat, base: nat, k: nat)
    requires
        base > 0,
    ensures
        (x / base) as int / pow(base as int, k) == x as int / pow(base as int, k + 1),
        pow(base as int, k) > 0,
        pow(base as int, k + 1) == base * pow(base as int, k),
{
    lemma_pow_adds(base as int, 1, k);
    lemma_pow1(base as int);
    lemma_pow_positive(base as int, k);
    lemma_div_denominator(x as int, base as int, pow(base as int, k));
}

/// The bytes of a number, highest first: the byte with `k` others behind it is
/// the number divided by `256^k`, modulo 256.
pub proof fn lemma_be_byte(x: nat, n: nat, k: nat)
    requires
        k < n,
    ensures
        to_be(x, n).len() == n,
        to_be(x, n)[n - 1 - k] as int == (x as int / pow(256, k)) % 256,
    decreases n,
{
    lemma_to_be_len(x, n);
    lemma_to_be_len(x / 256, (n - 1) as nat);
    lemma_pow0(256);
    lemma_basic_div_one(x);
    if k > 0 {
        lemma_be_byte(x / 256, (n - 1) as nat, (k - 1) as nat);
        lemma_next_power(x, 256, (k - 1) as nat);
    }
}

proof fn lemma_basic_div_one(x: nat)
    ensures
        x as int / 1 == x,
{
}

/// The bytes of a number, lowest first: the `k`-th is the number divided by
/// `256^k`, modulo 256.
pub proof fn lemma_le_byte(x: nat, n: nat, k: nat)
    requires
        k < n,
    ensures
        to_le(x, n).len() == n,
        to_le(x, n)[k as int] as int == (x as int / pow(256, k)) % 256,
    decreases n,
{
    lemma_to_le_len(x, n);
    lemma_to_le_len(x / 256, (n - 1) as nat);
    lemma_pow0(256);
    lemma_basic_div_one(x);
    if k > 0 {
        lemma_le_byte(x / 256, (n - 1) as nat, (k - 1) as nat);
        lemma_next_power(x, 256, (k - 1) as nat);
    }
}

/// The number with given bytes, lowest first, has these bytes.
pub proof fn lemma_to_from_le(b: Seq<u8>)
    ensures
        to_le(from_le(b), b.len()) == b,
        from_le(b) < pow256(b.len()),
    decreases b.len(),
{
    if b.len() > 0 {
        lemma_to_from_le(b.skip(1));
        assert(b =~= seq![b[0]] + b.skip(1));
    } else {
        assert(to_le(from_le(b), b.len()) =~= b);
    }
}

/// The number with given bytes, highest first: it has no more bytes, and the byte
/// with `k` others behind it is the number divided by `256^k`, modulo 256.
pub proof fn lemma_number_be(b: Seq<u8>, k: nat)
    ensures
        from_be(b) < pow(256, b.len()),
        k < b.len() ==> (from_be(b) as int / pow(256, k)) % 256 == b[b.len() - 1 - k] as int,
{
    lemma_from_be_bound(b);
    lemma_pow256_power(b.len());
    lemma_to_from_be(b);
    if k < b.len() {
        lemma_be_byte(from_be(b), b.len(), k);
    }
}

/// The number with given bytes, lowest first: it has no more bytes, and the `k`-th
/// is the number divided by `256^k`, modulo 256.
pub proof fn lemma_number_le(b: Seq<u8>, k: nat)
    ensures
        from_le(b) < pow(256, b.len()),
        k < b.len() ==> (from_le(b) as int / pow(256, k)) % 256 == b[k as int] as int,
{
    lemma_to_from_le(b);
    lemma_pow256_power(b.len());
    if k < b.len() {
        lemma_le_byte(from_le(b), b.len(), k);
    }
}

/// Bytes that spell a number, highest first, are its bytes.
pub proof fn lemma_spelled_be(b: Seq<u8>, x: nat, n: nat)
    requires
        b.len() == n,
        from_be(b) == x,
    ensures
        b == to_be(x, n),
{
    lemma_to_from_be(b);
}

/// Bytes that spell a number, lowest first, are its bytes.
pub proof fn lemma_spelled_le(b: Seq<u8>, x: nat, n: nat)
    requires
        b.len() == n,
        from_le(b) == x,
    ensures
        b == to_le(x, n),
{
    lemma_to_from_le(b);
}

/// Each byte is written by two digits: the upper half first, and letters from ten
/// on.
pub proof fn lemma_hex_digits(b: Seq<u8>, i: int)
    requires
        0 <= i < b.len(),
    ensures
        hex(b).len() == 2 * b.len(),
        hex(b)[2 * i] as int == (if b[i] < 160 {
            48 + b[i] / 16
        } else {
            87 + b[i] / 16
        }),
        hex(b)[2 * i + 1] as int == (if b[i] % 16 < 10 {
            48 + b[i] % 16
        } else {
            87 + b[i] % 16
        }),
    decreases b.len(),
{
    lemma_hex_len(b);
    lemma_hex_len(b.drop_last());
    if i < b.len() - 1 {
        lemma_hex_digits(b.drop_last(), i);
    }
}

proof fn lemma_hex_len(b: Seq<u8>)
    ensures
        hex(b).len() == 2 * b.len(),
    decreases b.len(),
{
    if b.len() > 0 {
        lemma_hex_len(b.drop_last());
    }
}

/// The digit with `k` others behind it is the number divided by `10^k`, modulo
/// ten, and there are as many digits as the number needs: no more, and at least
/// one.
pub proof fn lemma_decimal_digits(n: nat, k: nat)
    ensures
        decimal(n).len() >= 1,
        n < pow(10, decimal(n).len()),
        decimal(n).len() > 1 ==> n >= pow(10, (decimal(n).len() - 1) as nat),
        k < decimal(n).len() ==> decimal(n)[decimal(n).len() - 1 - k] as int == 48 + (n as int
            / pow(10, k)) % 10,
    decreases n,
{
    lemma_pow0(10);
    lemma_pow1(10);
    lemma_basic_div_one(n);
    if n >= 10 {
        let m = (n / 10) as nat;
        let len = decimal(m).len();
        lemma_decimal_digits(m, if k > 0 {
            (k - 1) as nat
        } else {
            0
        });
        lemma_next_power(n, 10, len);
        if len > 1 {
            lemma_next_power(n, 10, (len - 1) as nat);
        }
        if k > 0 {
            lemma_next_power(n, 10, (k - 1) as nat);
        }
    }
}

} // verus!
