//! Decimal, hexadecimal and padded renderings of values, appended to a `String`.
use vstd::prelude::*;
use vstd::string::StringExecFns;
use vstd::string::StrSliceExecFns;

verus! {

/// The character of decimal digit `d`.
pub open spec fn digit_char(d: int) -> char {
    (48 + d) as char
}

/// The decimal digits of `n`, most significant first, without leading zeros.
pub open spec fn decimal(n: nat) -> Seq<char>
    decreases n,
{
    if n < 10 {
        seq![digit_char(n as int)]
    } else {
        decimal(n / 10).push(digit_char((n % 10) as int))
    }
}

/// `count` copies of character `c`.
pub open spec fn repeat_char(c: char, count: int) -> Seq<char> {
    Seq::new(if count > 0 {
        count as nat
    } else {
        0
    }, |i: int| c)
}

/// The decimal digits of `n`, with zeros in front up to `width` characters
/// (Rust's `{:0width$}` for an unsigned value).
pub open spec fn zero_padded(n: nat, width: int) -> Seq<char> {
    repeat_char('0', width - decimal(n).len()) + decimal(n)
}

/// The decimal rendering of `i`, with a minus sign where it is negative
/// (Rust's `{}` for a signed value).
pub open spec fn signed_decimal(i: int) -> Seq<char> {
    if i < 0 {
        seq!['-'] + decimal((-i) as nat)
    } else {
        decimal(i as nat)
    }
}

/// The rendering of `i` as Rust's `{:0width$}` writes a signed value: the sign
/// first, then zeros up to `width` characters in all, then the digits.
pub open spec fn signed_zero_padded(i: int, width: int) -> Seq<char> {
    if i < 0 {
        seq!['-'] + zero_padded((-i) as nat, width - 1)
    } else {
        zero_padded(i as nat, width)
    }
}

/// `s` followed by spaces up to `width` characters (Rust's `{:<width$}`).
pub open spec fn left_aligned(s: Seq<char>, width: int) -> Seq<char> {
    s + repeat_char(' ', width - s.len())
}

/// The lower-case character of hexadecimal digit `d`.
pub open spec fn hex_digit(d: int) -> char {
    if d < 10 {
        (48 + d) as char
    } else {
        (87 + d) as char
    }
}

/// The two lower-case hexadecimal digits of byte `b` (Rust's `{:02x}`).
pub open spec fn hex_byte(b: u8) -> Seq<char> {
    seq![hex_digit((b / 16) as int), hex_digit((b % 16) as int)]
}

/// The bytes in hexadecimal, two digits each, separated by single spaces.
pub open spec fn hex_bytes(bytes: Seq<u8>) -> Seq<char>
    decreases bytes.len(),
{
    if bytes.len() == 0 {
        seq![]
    } else if bytes.len() == 1 {
        hex_byte(bytes[0])
    } else {
        hex_bytes(bytes.drop_last()) + seq![' '] + hex_byte(bytes.last())
    }
}

/// Calls `String::push`; claims that it appends `c` to the characters of
/// `s`.
#[verifier::external_body]
pub(crate) fn push_char(s: &mut String, c: char)
    ensures
        final(s)@ == old(s)@.push(c),
{
    s.push(c);
}

proof fn lemma_decimal_len(n: nat)
    ensures
        1 <= decimal(n).len(),
        n < 10 ==> decimal(n).len() == 1,
        n >= 10 ==> decimal(n).len() == decimal(n / 10).len() + 1,
    decreases n,
{
    if n >= 10 {
        lemma_decimal_len(n / 10);
    }
}

/// The number that a run of decimal digit characters writes, most significant
/// first.
pub open spec fn digits_value(s: Seq<char>) -> int
    decreases s.len(),
{
    if s.len() == 0 {
        0
    } else {
        digits_value(s.drop_last()) * 10 + (s.last() as int - 48)
    }
}

/// Whether every character of `s` is a decimal digit.
pub open spec fn all_digits(s: Seq<char>) -> bool {
    forall|i: int| 0 <= i < s.len() ==> 48 <= (#[trigger] s[i]) as int <= 57
}

/// The decimal rendering of `n` is a non-empty run of digits that reads back
/// as `n`, and starts with a zero only where `n` is zero.
pub proof fn lemma_decimal_reads_back(n: nat)
    ensures
        decimal(n).len() >= 1,
        all_digits(decimal(n)),
        digits_value(decimal(n)) == n,
        n > 0 ==> decimal(n)[0] != '0',
    decreases n,
{
    lemma_decimal_len(n);
    if n < 10 {
        assert(digit_char(n as int) as int == 48 + n);
        assert(decimal(n) =~= seq![digit_char(n as int)]);
        assert(decimal(n).drop_last() =~= Seq::<char>::empty());
        assert(digits_value(Seq::<char>::empty()) == 0);
        assert(digits_value(decimal(n)) == n);
        assert(all_digits(decimal(n)));
    } else {
        lemma_decimal_reads_back(n / 10);
        let d = (n % 10) as int;
        assert(digit_char(d) as int == 48 + d);
        assert(decimal(n).drop_last() =~= decimal(n / 10));
        assert(decimal(n)[0] == decimal(n / 10)[0]);
        assert(decimal(n).last() == digit_char(d));
        assert(digits_value(decimal(n)) == digits_value(decimal(n / 10)) * 10 + d);
        assert((n / 10) * 10 + d == n);
        assert forall|i: int| 0 <= i < decimal(n).len() implies 48 <= (#[trigger] decimal(n)[i]) as int <= 57 by {
            if i < decimal(n / 10).len() {
                assert(decimal(n)[i] == decimal(n / 10)[i]);
            }
        }
    }
}

/// Different numbers have different decimal renderings.
pub proof fn lemma_decimal_injective(n: nat, m: nat)
    ensures
        decimal(n) == decimal(m) ==> n == m,
{
    lemma_decimal_reads_back(n);
    lemma_decimal_reads_back(m);
}

/// Appends the decimal digits of `n`.
pub fn push_decimal(s: &mut String, n: u128)
    ensures
        final(s)@ == old(s)@ + decimal(n as nat),
    decreases n,
{
    if n >= 10 {
        push_decimal(s, n / 10);
    }
    let d: u8 = (n % 10) as u8;
    push_char(s, (48u8 + d) as char);
    proof {
        if n >= 10 {
            assert(final(s)@ == old(s)@ + decimal(n as nat));
        }
    }
}

/// The number of decimal digits of `n`.
pub fn decimal_len(n: u128) -> (len: usize)
    ensures
        len == decimal(n as nat).len(),
    decreases n,
{
    proof {
        lemma_decimal_len(n as nat);
    }
    if n < 10 {
        1
    } else {
        let inner = decimal_len(n / 10);
        proof {
            assert(inner <= 39) by {
                lemma_decimal_len_bound(n as nat / 10);
            }
        }
        inner + 1
    }
}

proof fn lemma_decimal_len_bound(n: nat)
    requires
        n < 0x1_0000_0000_0000_0000_0000_0000_0000_0000,
    ensures
        decimal(n).len() <= 39,
{
    assert(pow10(39) == 1_000_000_000_000_000_000_000_000_000_000_000_000_000) by {
        reveal_with_fuel(pow10, 40);
    }
    lemma_decimal_len_le(n, 39);
}

proof fn lemma_decimal_len_le(n: nat, k: nat)
    requires
        k >= 1,
        n < pow10(k),
    ensures
        decimal(n).len() <= k,
    decreases k,
{
    lemma_decimal_len(n);
    if n >= 10 {
        assert(pow10(1) == 10) by {
            reveal_with_fuel(pow10, 2);
        }
        assert(k > 1);
        assert(n / 10 < pow10((k - 1) as nat)) by {
            assert(pow10(k) == 10 * pow10((k - 1) as nat));
        }
        lemma_decimal_len_le(n / 10, (k - 1) as nat);
    }
}

/// Ten to the power `k`.
pub open spec fn pow10(k: nat) -> nat
    decreases k,
{
    if k == 0 {
        1
    } else {
        10 * pow10((k - 1) as nat)
    }
}

/// Appends `count` copies of `c`.
pub fn push_repeated(s: &mut String, c: char, count: usize)
    ensures
        final(s)@ == old(s)@ + repeat_char(c, count as int),
{
    let mut i: usize = 0;
    while i < count
        invariant
            i <= count,
            s@ == old(s)@ + repeat_char(c, i as int),
        decreases count - i,
    {
        push_char(s, c);
        i += 1;
        assert(repeat_char(c, (i - 1) as int).push(c) =~= repeat_char(c, i as int));
    }
}

/// Appends the decimal digits of `n`, zero-padded to `width` characters.
pub fn push_zero_padded(s: &mut String, n: u128, width: usize)
    ensures
        final(s)@ == old(s)@ + zero_padded(n as nat, width as int),
{
    let len = decimal_len(n);
    if len < width {
        push_repeated(s, '0', width - len);
    } else {
        push_repeated(s, '0', 0);
        assert(repeat_char('0', 0) =~= repeat_char('0', width - len));
    }
    push_decimal(s, n);
}

/// The magnitude of `i`.
fn magnitude(i: i128) -> (m: u128)
    ensures
        m == (if i < 0 {
            -i
        } else {
            i as int
        }),
{
    if i < 0 {
        ((-(i + 1)) as u128) + 1
    } else {
        i as u128
    }
}

/// Appends the decimal rendering of the signed value `i`.
pub fn push_signed_decimal(s: &mut String, i: i128)
    ensures
        final(s)@ == old(s)@ + signed_decimal(i as int),
{
    if i < 0 {
        push_char(s, '-');
    }
    push_decimal(s, magnitude(i));
}

/// Appends the signed value `i` as `{:0width$}` renders it.
pub fn push_signed_zero_padded(s: &mut String, i: i128, width: usize)
    requires
        width >= 1,
    ensures
        final(s)@ == old(s)@ + signed_zero_padded(i as int, width as int),
{
    if i < 0 {
        push_char(s, '-');
        push_zero_padded(s, magnitude(i), width - 1);
    } else {
        push_zero_padded(s, magnitude(i), width);
    }
}

/// Appends `piece` followed by spaces up to `width` characters.
pub fn push_left_aligned(s: &mut String, piece: &str, width: usize)
    ensures
        final(s)@ == old(s)@ + left_aligned(piece@, width as int),
{
    s.append(piece);
    let len = piece.unicode_len();
    if len < width {
        push_repeated(s, ' ', width - len);
    } else {
        push_repeated(s, ' ', 0);
        assert(repeat_char(' ', 0) =~= repeat_char(' ', width - len));
    }
}

/// The hexadecimal digit character of `d`.
fn hex_digit_char(d: u8) -> (c: char)
    requires
        d < 16,
    ensures
        c == hex_digit(d as int),
{
    if d < 10 {
        (48u8 + d) as char
    } else {
        (87u8 + d) as char
    }
}

/// Appends the bytes in hexadecimal, separated by single spaces.
pub fn push_hex_bytes(s: &mut String, bytes: &[u8])
    ensures
        final(s)@ == old(s)@ + hex_bytes(bytes@),
{
    let mut i: usize = 0;
    while i < bytes.len()
        invariant
            i <= bytes@.len(),
            s@ == old(s)@ + hex_bytes(bytes@.take(i as int)),
        decreases bytes@.len() - i,
    {
        if i > 0 {
            push_char(s, ' ');
        }
        let b = bytes[i];
        push_char(s, hex_digit_char(b / 16));
        push_char(s, hex_digit_char(b % 16));
        assert(bytes@.take(i + 1).drop_last() =~= bytes@.take(i as int));
        i += 1;
    }
    assert(bytes@.take(bytes@.len() as int) =~= bytes@);
}

/// A number below `10^width` is written in exactly `width` characters when
/// zero-padded to `width`.
pub proof fn lemma_zero_padded_len(n: nat, width: nat)
    requires
        1 <= width <= 6,
        n < pow10(width),
    ensures
        zero_padded(n, width as int).len() == width,
{
    lemma_decimal_len_le(n, width);
}

/// `10^k` for the widths the timestamps use.
pub proof fn lemma_pow10_values()
    ensures
        pow10(2) == 100,
        pow10(4) == 10_000,
        pow10(6) == 1_000_000,
{
    reveal_with_fuel(pow10, 7);
}
} // verus!
