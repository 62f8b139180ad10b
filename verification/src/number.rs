//! Numbers as text: decimal in both directions, hexadecimal for bytes.

use vstd::prelude::*;
use vstd::slice::slice_subrange;
use vstd::string::*;

verus! {

/// The decimal digits.
pub open spec fn digit(c: char) -> bool {
    '0' <= c <= '9'
}

/// What a digit stands for.
pub open spec fn digit_value(c: char) -> nat {
    (c as nat - '0' as nat) as nat
}

/// The number that a row of digits stands for.
pub open spec fn digits_value(s: Seq<char>) -> nat
    decreases s.len(),
{
    if s.len() == 0 {
        0
    } else {
        digits_value(s.drop_last()) * 10 + digit_value(s.last())
    }
}

/// A row of one or more digits and nothing else.
pub open spec fn all_digits(s: Seq<char>) -> bool {
    s.len() > 0 && forall|i: int| 0 <= i < s.len() ==> digit(#[trigger] s[i])
}

/// The number that a text without a minus sign stands for: digits, with a
/// plus sign before them or not.
pub open spec fn natural(s: Seq<char>) -> Option<nat> {
    let body = if s.len() > 0 && s[0] == '+' {
        s.skip(1)
    } else {
        s
    };
    if all_digits(body) {
        Some(digits_value(body))
    } else {
        None
    }
}

/// The number that a text stands for: digits, with a sign before them or not.
pub open spec fn integer(s: Seq<char>) -> Option<int> {
    if s.len() > 0 && s[0] == '-' {
        if all_digits(s.skip(1)) {
            Some(-(digits_value(s.skip(1)) as int))
        } else {
            None
        }
    } else {
        match natural(s) {
            Some(v) => Some(v as int),
            None => None,
        }
    }
}

/// The `u64` that a text stands for.
pub open spec fn u64_of(s: Seq<char>) -> Option<u64> {
    match natural(s) {
        Some(v) => if v <= u64::MAX {
            Some(v as u64)
        } else {
            None
        },
        None => None,
    }
}

/// The `i64` that a text stands for.
pub open spec fn i64_of(s: Seq<char>) -> Option<i64> {
    match integer(s) {
        Some(v) => if i64::MIN <= v <= i64::MAX {
            Some(v as i64)
        } else {
            None
        },
        None => None,
    }
}

/// The `i32` that a text stands for.
pub open spec fn i32_of(s: Seq<char>) -> Option<i32> {
    match integer(s) {
        Some(v) => if i32::MIN <= v <= i32::MAX {
            Some(v as i32)
        } else {
            None
        },
        None => None,
    }
}

proof fn lemma_prefix_value(s: Seq<char>, i: int)
    requires
        0 <= i <= s.len(),
    ensures
        digits_value(s.take(i)) <= digits_value(s),
    decreases s.len(),
{
    if i < s.len() {
        lemma_prefix_value(s.drop_last(), i);
        assert(s.drop_last().take(i) == s.take(i));
    } else {
        assert(s.take(i) == s);
    }
}

/// The value of a row of digits, if it is one and fits.
fn parse_digits(s: &[char]) -> (r: Option<u64>)
    ensures
        match r {
            Some(v) => all_digits(s@) && digits_value(s@) == v,
            None => !all_digits(s@) || digits_value(s@) > u64::MAX,
        },
{
    if s.len() == 0 {
        return None;
    }
    let mut total: u64 = 0;
    let mut i: usize = 0;
    while i < s.len()
        invariant
            i <= s@.len(),
            forall|k: int| 0 <= k < i ==> digit(#[trigger] s@[k]),
            total == digits_value(s@.take(i as int)),
        decreases s@.len() - i,
    {
        let c = s[i];
        if !('0' <= c && c <= '9') {
            assert(!digit(s@[i as int]));
            return None;
        }
        let d: u64 = (c as u32 - '0' as u32) as u64;
        proof {
            assert(s@.take(i + 1).drop_last() == s@.take(i as int));
            assert(digits_value(s@.take(i + 1)) == total * 10 + d);
            lemma_prefix_value(s@, i + 1);
        }
        let tens = match total.checked_mul(10) {
            Some(t) => t,
            None => return None,
        };
        total = match tens.checked_add(d) {
            Some(t) => t,
            None => return None,
        };
        i += 1;
    }
    assert(s@.take(i as int) == s@);
    Some(total)
}

/// Reads an unsigned decimal number.
pub fn parse_u64(s: &[char]) -> (r: Option<u64>)
    ensures
        r == u64_of(s@),
{
    if s.len() > 0 && s[0] == '+' {
        let body = slice_subrange(s, 1, s.len());
        assert(body@ == s@.skip(1));
        parse_digits(body)
    } else {
        parse_digits(s)
    }
}

/// Reads a signed decimal number.
pub fn parse_i64(s: &[char]) -> (r: Option<i64>)
    ensures
        r == i64_of(s@),
{
    if s.len() > 0 && s[0] == '-' {
        let body = slice_subrange(s, 1, s.len());
        assert(body@ == s@.skip(1));
        match parse_digits(body) {
            Some(m) => if m <= 0x7fff_ffff_ffff_ffff {
                Some(-(m as i64))
            } else if m == 0x8000_0000_0000_0000 {
                Some(i64::MIN)
            } else {
                None
            },
            None => None,
        }
    } else {
        match parse_u64(s) {
            Some(m) => if m <= 0x7fff_ffff_ffff_ffff {
                Some(m as i64)
            } else {
                None
            },
            None => None,
        }
    }
}

/// Reads a signed decimal number that fits in 32 bits.
pub fn parse_i32(s: &[char]) -> (r: Option<i32>)
    ensures
        r == i32_of(s@),
{
    match parse_i64(s) {
        Some(v) => if -0x8000_0000 <= v && v <= 0x7fff_ffff {
            Some(v as i32)
        } else {
            None
        },
        None => None,
    }
}

/// The character of a decimal digit.
pub open spec fn digit_char(d: nat) -> char {
    (('0' as nat + d) as u8) as char
}

/// A number in decimal notation, without leading zeros.
pub open spec fn decimal(n: nat) -> Seq<char>
    decreases n,
{
    if n < 10 {
        seq![digit_char(n)]
    } else {
        decimal(n / 10).push(digit_char(n % 10))
    }
}

/// A number in decimal notation, with a minus sign where it is below zero.
pub open spec fn decimal_int(n: int) -> Seq<char> {
    if n < 0 {
        seq!['-'] + decimal((-n) as nat)
    } else {
        decimal(n as nat)
    }
}

fn push_decimal(out: &mut String, n: u64)
    ensures
        final(out)@ == old(out)@ + decimal(n as nat),
    decreases n,
{
    if n >= 10 {
        push_decimal(out, n / 10);
    }
    let d = (48 + (n % 10) as u8) as char;
    out.push(d);
    assert(out@ == old(out)@ + decimal(n as nat));
}

/// Writes a number in decimal notation.
pub fn decimal_u64(n: u64) -> (r: String)
    ensures
        r@ == decimal(n as nat),
{
    let mut out = String::new();
    push_decimal(&mut out, n);
    out
}

/// Writes a signed number in decimal notation.
pub fn decimal_i64(n: i64) -> (r: String)
    ensures
        r@ == decimal_int(n as int),
{
    let mut out = String::new();
    if n >= 0 {
        push_decimal(&mut out, n as u64);
    } else {
        out.push('-');
        let m: u64 = if n == i64::MIN {
            0x8000_0000_0000_0000
        } else {
            (-n) as u64
        };
        push_decimal(&mut out, m);
        assert(out@ == decimal_int(n as int));
    }
    out
}

/// Reading back a number that was written in decimal notation gives the
/// number, and the notation is a row of digits.
pub proof fn law_decimal_reads_back(n: nat)
    ensures
        all_digits(decimal(n)),
        digits_value(decimal(n)) == n,
        natural(decimal(n)) == Some(n),
    decreases n,
{
    let s = decimal(n);
    if n < 10 {
        assert(s.drop_last() == Seq::<char>::empty());
        assert(digits_value(s.drop_last()) == 0);
        assert(s.last() == digit_char(n));
    } else {
        law_decimal_reads_back(n / 10);
        assert(s.drop_last() == decimal(n / 10));
        assert(s.last() == digit_char(n % 10));
    }
    assert(digit(s[0]));
}

/// The character of a hexadecimal digit, in small letters.
pub open spec fn hex_char(d: nat) -> char {
    if d < 10 {
        digit_char(d)
    } else {
        ((87 + d) as u8) as char
    }
}

/// Bytes in hexadecimal notation: two digits for each, in order.
pub open spec fn hex(bytes: Seq<u8>) -> Seq<char> {
    Seq::new(
        2 * bytes.len(),
        |i: int|
            if i % 2 == 0 {
                hex_char((bytes[i / 2] / 16) as nat)
            } else {
                hex_char((bytes[i / 2] % 16) as nat)
            },
    )
}

/// Bytes that are written alike in hexadecimal notation are the same.
pub proof fn law_hex_tells_bytes_apart(a: Seq<u8>, b: Seq<u8>)
    ensures
        hex(a) == hex(b) <==> a == b,
{
    if hex(a) == hex(b) {
        assert(hex(a).len() == 2 * a.len());
        assert(hex(b).len() == 2 * b.len());
        assert forall|i: int| 0 <= i < a.len() implies a[i] == b[i] by {
            assert(hex(a)[2 * i] == hex_char((a[i] / 16) as nat));
            assert(hex(b)[2 * i] == hex_char((b[i] / 16) as nat));
            assert(hex(a)[2 * i + 1] == hex_char((a[i] % 16) as nat));
            assert(hex(b)[2 * i + 1] == hex_char((b[i] % 16) as nat));
        }
        assert(a =~= b);
    }
}

fn hex_digit(d: u8) -> (r: char)
    requires
        d < 16,
    ensures
        r == hex_char(d as nat),
{
    if d < 10 {
        (48 + d) as char
    } else {
        (87 + d) as char
    }
}

/// Writes bytes in hexadecimal notation, in small letters.
pub fn hex_lower(bytes: &[u8]) -> (r: String)
    ensures
        r@ == hex(bytes@),
{
    let mut out = String::new();
    let mut i: usize = 0;
    while i < bytes.len()
        invariant
            i <= bytes@.len(),
            out@ == hex(bytes@.take(i as int)),
        decreases bytes@.len() - i,
    {
        let b = bytes[i];
        out.push(hex_digit(b / 16));
        out.push(hex_digit(b % 16));
        i += 1;
        assert(out@ =~= hex(bytes@.take(i as int)));
    }
    assert(bytes@.take(i as int) == bytes@);
    out
}

/// The decimal notation of a number is that of its tens with the digit of its
/// units behind, and a digit is written as the character at its place behind
/// the zero.
pub proof fn law_decimal_notation(tens: nat, units: nat)
    requires
        units < 10,
    ensures
        decimal(units).len() == 1,
        decimal(units)[0] as int == 48 + units,
        tens > 0 ==> decimal(10 * tens + units) == decimal(tens) + decimal(units),
        decimal_int(units as int) == decimal(units),
        decimal_int((10 * tens + units) as int) == decimal(10 * tens + units),
        10 * tens + units > 0 ==> decimal_int(-(10 * tens + units)) == seq!['-'] + decimal(
            10 * tens + units,
        ),
{
    if tens > 0 {
        let n = 10 * tens + units;
        assert(n / 10 == tens);
        assert(n % 10 == units);
        assert(decimal(n) =~= decimal(tens) + decimal(units));
    }
}

proof fn lemma_zeros_in_front(zeros: nat, s: Seq<char>)
    requires
        all_digits(s),
    ensures
        all_digits(Seq::new(zeros, |i: int| '0') + s),
        digits_value(Seq::new(zeros, |i: int| '0') + s) == digits_value(s),
    decreases zeros + s.len(),
{
    let front = Seq::new(zeros, |i: int| '0');
    let whole = front + s;
    assert forall|i: int| 0 <= i < whole.len() implies digit(#[trigger] whole[i]) by {
        if i >= zeros {
            assert(digit(s[i - zeros]));
        }
    }
    assert(whole.last() == s.last());
    assert(whole.drop_last() == front + s.drop_last());
    if s.len() > 1 {
        assert forall|i: int| 0 <= i < s.drop_last().len() implies digit(
            #[trigger] s.drop_last()[i],
        ) by {
            assert(digit(s[i]));
        }
        lemma_zeros_in_front(zeros, s.drop_last());
    } else {
        assert(s.drop_last() == Seq::<char>::empty());
        assert(front + s.drop_last() == front);
        lemma_zeros(zeros);
    }
}

proof fn lemma_zeros(zeros: nat)
    ensures
        digits_value(Seq::new(zeros, |i: int| '0')) == 0,
    decreases zeros,
{
    if zeros > 0 {
        let before = (zeros - 1) as nat;
        lemma_zeros(before);
        assert(Seq::new(zeros, |i: int| '0').drop_last() == Seq::new(before, |i: int| '0'));
    }
}

/// Every number that is written in decimal notation, with zeros in front of
/// it or not, and with a plus or minus sign before that or not, is read as
/// that number where it fits, and is not read where it does not.
pub proof fn law_written_numbers_are_read(n: nat, zeros: nat)
    ensures
        ({
            let bare = Seq::new(zeros, |i: int| '0') + decimal(n);
            let plus = seq!['+'] + bare;
            let minus = seq!['-'] + bare;
            &&& u64_of(bare) == u64_of(plus)
            &&& i64_of(bare) == i64_of(plus)
            &&& i32_of(bare) == i32_of(plus)
            &&& n <= 0xffff_ffff_ffff_ffff ==> u64_of(bare) == Some(n as u64)
            &&& n > 0xffff_ffff_ffff_ffff ==> u64_of(bare) is None
            &&& u64_of(minus) is None
            &&& n <= 0x7fff_ffff_ffff_ffff ==> i64_of(bare) == Some(n as i64)
            &&& n > 0x7fff_ffff_ffff_ffff ==> i64_of(bare) is None
            &&& n <= 0x8000_0000_0000_0000 ==> i64_of(minus) == Some((-n) as i64)
            &&& n > 0x8000_0000_0000_0000 ==> i64_of(minus) is None
            &&& n <= 0x7fff_ffff ==> i32_of(bare) == Some(n as i32)
            &&& n > 0x7fff_ffff ==> i32_of(bare) is None
            &&& n <= 0x8000_0000 ==> i32_of(minus) == Some((-n) as i32)
            &&& n > 0x8000_0000 ==> i32_of(minus) is None
        }),
{
    let bare = Seq::new(zeros, |i: int| '0') + decimal(n);
    let plus = seq!['+'] + bare;
    let minus = seq!['-'] + bare;
    law_decimal_reads_back(n);
    lemma_zeros_in_front(zeros, decimal(n));
    assert(digit(bare[0]));
    assert(plus.skip(1) == bare);
    assert(minus.skip(1) == bare);
    assert(!digit(minus[0]));
    assert(!all_digits(minus));
    assert(natural(bare) == Some(n));
    assert(natural(plus) == Some(n));
}

/// A signed number that fits is read back as it was written.
pub proof fn law_written_integers_are_read(n: int)
    ensures
        i64::MIN <= n <= i64::MAX ==> i64_of(decimal_int(n)) == Some(n as i64),
        i32::MIN <= n <= i32::MAX ==> i32_of(decimal_int(n)) == Some(n as i32),
        !(i64::MIN <= n <= i64::MAX) ==> i64_of(decimal_int(n)) is None,
        !(i32::MIN <= n <= i32::MAX) ==> i32_of(decimal_int(n)) is None,
{
    let m = if n < 0 {
        (-n) as nat
    } else {
        n as nat
    };
    law_written_numbers_are_read(m, 0);
    assert(Seq::new(0, |i: int| '0') + decimal(m) == decimal(m));
}

/// A text with a character that is no digit is not read as a number, unless
/// that character is a sign in front of digits; nor is a text without digits.
pub proof fn law_other_texts_are_no_numbers(s: Seq<char>, at: int)
    requires
        0 <= at < s.len(),
        !(48 <= s[at] as int <= 57),
        at == 0 && s.len() > 1 ==> s[0] != '+' && s[0] != '-',
    ensures
        u64_of(s) is None,
        i64_of(s) is None,
        i32_of(s) is None,
        u64_of(Seq::empty()) is None,
        i64_of(Seq::empty()) is None,
        i32_of(Seq::empty()) is None,
{
    assert(!digit(s[at]));
    assert(!all_digits(s));
    if at > 0 {
        assert(s.skip(1)[at - 1] == s[at]);
        assert(!digit(s.skip(1)[at - 1]));
        assert(!all_digits(s.skip(1)));
    } else if s.len() == 1 {
        assert(!all_digits(s.skip(1)));
    }
    assert(!all_digits(Seq::<char>::empty()));
}

/// A byte is written as the digit of its upper half and that of its lower
/// half, from 0 to 9 and from a to f.
pub proof fn law_hex_notation(bytes: Seq<u8>, i: int)
    requires
        0 <= i < bytes.len(),
    ensures
        hex(bytes).len() == 2 * bytes.len(),
        ({
            let upper = bytes[i] as int / 16;
            let lower = bytes[i] as int % 16;
            &&& hex(bytes)[2 * i] as int == (if upper < 10 {
                48 + upper
            } else {
                87 + upper
            })
            &&& hex(bytes)[2 * i + 1] as int == (if lower < 10 {
                48 + lower
            } else {
                87 + lower
            })
        }),
{
}

/// The decimal notation of a whole number neither begins nor ends with
/// anything but a digit or a minus sign.
pub proof fn lemma_integer_text(n: int)
    ensures
        decimal_int(n).len() > 0,
        digit(decimal_int(n)[0]) || decimal_int(n)[0] == '-',
        digit(decimal_int(n)[decimal_int(n).len() - 1]),
        forall|i: int|
            0 <= i < decimal_int(n).len() ==> digit(#[trigger] decimal_int(n)[i])
                || decimal_int(n)[i] == '-',
{
    let m = if n < 0 {
        (-n) as nat
    } else {
        n as nat
    };
    law_decimal_reads_back(m);
    assert(digit(decimal(m)[0]));
    assert(digit(decimal(m)[decimal(m).len() - 1]));
    if n < 0 {
        assert forall|i: int| 0 <= i < decimal_int(n).len() implies digit(
            #[trigger] decimal_int(n)[i],
        ) || decimal_int(n)[i] == '-' by {
            if i > 0 {
                assert(decimal_int(n)[i] == decimal(m)[i - 1]);
                assert(digit(decimal(m)[i - 1]));
            }
        }
        assert(decimal_int(n)[decimal_int(n).len() - 1] == decimal(m)[decimal(m).len() - 1]);
    }
}

} // verus!
