//! Integers as text: printing, parsing and hexadecimal.

use vstd::prelude::*;

use crate::text::chars_of;

verus! {

/// The character of a hexadecimal digit, in lower case.
pub open spec fn digit_char(d: int) -> char {
    if d < 10 {
        (48 + d) as char
    } else {
        (87 + d) as char
    }
}

/// The decimal text of a number, without leading zeros.
pub open spec fn decimal(n: nat) -> Seq<char>
    decreases n,
{
    if n < 10 {
        seq![digit_char(n as int)]
    } else {
        decimal(n / 10).push(digit_char((n % 10) as int))
    }
}

/// The value of a digit in base ten or sixteen, or -1.
pub open spec fn digit_value(c: char, base: int) -> int {
    let v = if '0' <= c <= '9' {
        (c as u32) - 48
    } else if 'a' <= c <= 'f' {
        (c as u32) - 87
    } else if 'A' <= c <= 'F' {
        (c as u32) - 55
    } else {
        -1
    };
    if v < base {
        v
    } else {
        -1
    }
}

pub open spec fn all_digits(s: Seq<char>, base: int) -> bool {
    forall|i: int| 0 <= i < s.len() ==> digit_value(#[trigger] s[i], base) >= 0
}

/// The number that a sequence of digits stands for.
pub open spec fn digits_value(s: Seq<char>, base: int) -> int
    decreases s.len(),
{
    if s.len() == 0 {
        0
    } else {
        digits_value(s.drop_last(), base) * base + digit_value(s.last(), base)
    }
}

/// A non-empty sequence of digits with a value of at most `max`.
pub open spec fn parsed_digits(s: Seq<char>, base: int, max: int) -> Option<int> {
    if s.len() > 0 && all_digits(s, base) && digits_value(s, base) <= max {
        Some(digits_value(s, base))
    } else {
        None
    }
}

/// An unsigned number: digits, with an optional plus sign before them.
pub open spec fn parsed_unsigned(s: Seq<char>, base: int, max: int) -> Option<int> {
    if s.len() > 0 && s[0] == '+' {
        parsed_digits(s.skip(1), base, max)
    } else {
        parsed_digits(s, base, max)
    }
}

/// A signed decimal number in the range of `i64`.
pub open spec fn parsed_i64(s: Seq<char>) -> Option<int> {
    if s.len() > 0 && s[0] == '-' {
        match parsed_digits(s.skip(1), 10, 0x8000_0000_0000_0000) {
            Some(v) => Some(-v),
            None => None,
        }
    } else {
        parsed_unsigned(s, 10, i64::MAX as int)
    }
}

proof fn lemma_digits_value_bounds(s: Seq<char>, base: int)
    requires
        base == 10 || base == 16,
        all_digits(s, base),
    ensures
        digits_value(s, base) >= 0,
    decreases s.len(),
{
    if s.len() > 0 {
        lemma_digits_value_bounds(s.drop_last(), base);
        let v = digits_value(s.drop_last(), base);
        assert(v * base >= 0) by (nonlinear_arith)
            requires
                v >= 0,
                base >= 0,
        ;
        assert(digit_value(s[s.len() - 1], base) >= 0);
    }
}

/// A parsed number is in range.
pub proof fn lemma_parsed_in_range(s: Seq<char>, base: int, max: int)
    requires
        base == 10 || base == 16,
    ensures
        parsed_unsigned(s, base, max) matches Some(v) ==> 0 <= v <= max,
{
    if all_digits(s, base) {
        lemma_digits_value_bounds(s, base);
    }
    if s.len() > 0 && all_digits(s.skip(1), base) {
        lemma_digits_value_bounds(s.skip(1), base);
    }
}

/// What is printed in decimal parses back to the same number.
pub proof fn lemma_decimal_parses(n: nat, max: int)
    requires
        n <= max,
    ensures
        parsed_unsigned(decimal(n), 10, max) == Some(n as int),
        decimal(n).len() > 0,
        all_digits(decimal(n), 10),
        digits_value(decimal(n), 10) == n,
    decreases n,
{
    let t = decimal(n);
    if n < 10 {
        assert(t.drop_last() =~= Seq::<char>::empty());
        assert(digits_value(t.drop_last(), 10) == 0);
    } else {
        lemma_decimal_parses(n / 10, (n / 10) as int);
        assert(t.drop_last() =~= decimal(n / 10));
        let shorter = decimal(n / 10);
        assert forall|i: int| 0 <= i < t.len() implies digit_value(#[trigger] t[i], 10) >= 0 by {
            if i < shorter.len() {
                assert(t[i] == shorter[i]);
            }
        }
    }
    assert(digit_value(t[0], 10) >= 0);
}

fn digit(c: char, base: u32) -> (r: Option<u32>)
    requires
        base == 10 || base == 16,
    ensures
        r matches Some(d) ==> d == digit_value(c, base as int) && d < base,
        r is None ==> digit_value(c, base as int) == -1,
{
    let u: u32 = c as u32;
    let v: u32 = if '0' <= c && c <= '9' {
        u - 48
    } else if 'a' <= c && c <= 'f' {
        u - 87
    } else if 'A' <= c && c <= 'F' {
        u - 55
    } else {
        return None;
    };
    if v < base {
        Some(v)
    } else {
        None
    }
}

/// Whether every character is a digit in base ten or sixteen.
pub fn is_all_digits(s: &str, base: u32) -> (r: bool)
    requires
        base == 10 || base == 16,
    ensures
        r == all_digits(s@, base as int),
{
    let cs = chars_of(s);
    let mut i: usize = 0;
    while i < cs.len()
        invariant
            i <= cs@.len(),
            cs@ == s@,
            base == 10 || base == 16,
            forall|k: int| 0 <= k < i ==> digit_value(#[trigger] s@[k], base as int) >= 0,
        decreases cs@.len() - i,
    {
        if digit(cs[i], base).is_none() {
            assert(digit_value(s@[i as int], base as int) < 0);
            return false;
        }
        i = i + 1;
    }
    true
}

/// The value of the digits of `cs` from `from` on, where it is at most `max`.
fn parse_digits(cs: &[char], from: usize, base: u32, max: u64) -> (r: Option<u64>)
    requires
        from <= cs@.len(),
        base == 10 || base == 16,
        max >= 16,
    ensures
        r matches Some(v) ==> parsed_digits(cs@.skip(from as int), base as int, max as int)
            == Some(v as int),
        r is None ==> parsed_digits(cs@.skip(from as int), base as int, max as int) is None,
{
    let ghost s = cs@.skip(from as int);
    if from == cs.len() {
        return None;
    }
    let mut v: u64 = 0;
    let mut over: bool = false;
    let mut i: usize = from;
    let base64: u64 = base as u64;
    while i < cs.len()
        invariant
            from <= i <= cs@.len(),
            base == 10 || base == 16,
            base64 == base,
            max >= 16,
            s == cs@.skip(from as int),
            all_digits(s.take(i - from), base as int),
            !over ==> v == digits_value(s.take(i - from), base as int) && v <= max,
            over ==> digits_value(s.take(i - from), base as int) > max,
        decreases cs@.len() - i,
    {
        let ghost cur = s.take(i - from);
        let ghost next = s.take(i + 1 - from);
        assert(next.drop_last() =~= cur);
        assert(next.last() == cs@[i as int]);
        match digit(cs[i], base) {
            None => {
                assert(s[i - from] == cs@[i as int]);
                return None;
            },
            Some(d) => {
                proof {
                    assert forall|k: int| 0 <= k < next.len() implies digit_value(
                        #[trigger] next[k],
                        base as int,
                    ) >= 0 by {
                        if k < cur.len() {
                            assert(next[k] == cur[k]);
                        }
                    }
                    lemma_digits_value_bounds(cur, base as int);
                }
                let ghost value = digits_value(cur, base as int);
                let d64: u64 = d as u64;
                if over {
                    assert(value * base >= value) by (nonlinear_arith)
                        requires
                            value >= 0,
                            base >= 1,
                    ;
                } else if v > (max - d64) / base64 {
                    over = true;
                    assert(value * base64 + d64 > max) by (nonlinear_arith)
                        requires
                            value == v,
                            v > (max - d64) as u64 / base64,
                            d64 <= max,
                            base64 > 0,
                    ;
                } else {
                    assert(value * base64 + d64 <= max) by (nonlinear_arith)
                        requires
                            value == v,
                            v <= (max - d64) as u64 / base64,
                            d64 <= max,
                            base64 > 0,
                    ;
                    v = v * base64 + d64;
                }
            },
        }
        i = i + 1;
    }
    assert(s.take(i - from) =~= s);
    if over {
        None
    } else {
        Some(v)
    }
}

fn parse_unsigned(s: &str, base: u32, max: u64) -> (r: Option<u64>)
    requires
        base == 10 || base == 16,
        max >= 16,
    ensures
        r matches Some(v) ==> parsed_unsigned(s@, base as int, max as int) == Some(v as int),
        r is None ==> parsed_unsigned(s@, base as int, max as int) is None,
{
    let cs = chars_of(s);
    if cs.len() > 0 && cs[0] == '+' {
        parse_digits(cs.as_slice(), 1, base, max)
    } else {
        assert(cs@.skip(0) =~= s@);
        parse_digits(cs.as_slice(), 0, base, max)
    }
}

pub fn parse_u64(s: &str) -> (r: Option<u64>)
    ensures
        r matches Some(v) ==> parsed_unsigned(s@, 10, u64::MAX as int) == Some(v as int),
        r is None ==> parsed_unsigned(s@, 10, u64::MAX as int) is None,
{
    parse_unsigned(s, 10, u64::MAX)
}

pub fn parse_u32(s: &str) -> (r: Option<u32>)
    ensures
        r matches Some(v) ==> parsed_unsigned(s@, 10, u32::MAX as int) == Some(v as int),
        r is None ==> parsed_unsigned(s@, 10, u32::MAX as int) is None,
{
    match parse_unsigned(s, 10, u32::MAX as u64) {
        Some(v) => Some(v as u32),
        None => None,
    }
}

pub fn parse_u16(s: &str) -> (r: Option<u16>)
    ensures
        r matches Some(v) ==> parsed_unsigned(s@, 10, u16::MAX as int) == Some(v as int),
        r is None ==> parsed_unsigned(s@, 10, u16::MAX as int) is None,
{
    match parse_unsigned(s, 10, u16::MAX as u64) {
        Some(v) => Some(v as u16),
        None => None,
    }
}

pub fn parse_usize(s: &str) -> (r: Option<usize>)
    ensures
        r matches Some(v) ==> parsed_unsigned(s@, 10, usize::MAX as int) == Some(v as int),
        r is None ==> parsed_unsigned(s@, 10, usize::MAX as int) is None,
{
    match parse_unsigned(s, 10, usize::MAX as u64) {
        Some(v) => Some(v as usize),
        None => None,
    }
}

/// An unsigned hexadecimal number in the range of `u64`.
pub fn parse_hex_u64(s: &str) -> (r: Option<u64>)
    ensures
        r matches Some(v) ==> parsed_unsigned(s@, 16, u64::MAX as int) == Some(v as int),
        r is None ==> parsed_unsigned(s@, 16, u64::MAX as int) is None,
{
    parse_unsigned(s, 16, u64::MAX)
}

/// An unsigned hexadecimal number in the range of `u32`.
pub fn parse_hex_u32(s: &str) -> (r: Option<u32>)
    ensures
        r matches Some(v) ==> parsed_unsigned(s@, 16, u32::MAX as int) == Some(v as int),
        r is None ==> parsed_unsigned(s@, 16, u32::MAX as int) is None,
{
    match parse_unsigned(s, 16, u32::MAX as u64) {
        Some(v) => Some(v as u32),
        None => None,
    }
}

pub fn parse_i64(s: &str) -> (r: Option<i64>)
    ensures
        r matches Some(v) ==> parsed_i64(s@) == Some(v as int),
        r is None ==> parsed_i64(s@) is None,
{
    let cs = chars_of(s);
    if cs.len() > 0 && cs[0] == '-' {
        match parse_digits(cs.as_slice(), 1, 10, 0x8000_0000_0000_0000) {
            Some(v) => if v == 0x8000_0000_0000_0000 {
                Some(i64::MIN)
            } else {
                let m: i64 = v as i64;
                Some(0 - m)
            },
            None => None,
        }
    } else {
        match parse_unsigned(s, 10, i64::MAX as u64) {
            Some(v) => Some(v as i64),
            None => None,
        }
    }
}

fn decimal_digit(d: u64) -> (r: char)
    requires
        d < 10,
    ensures
        r == digit_char(d as int),
{
    (48 + d as u8) as char
}

/// The decimal text of a number.
pub fn print_u64(n: u64) -> (r: String)
    ensures
        r@ == decimal(n as nat),
    decreases n,
{
    if n < 10 {
        let mut s = String::new();
        s.push(decimal_digit(n));
        assert(s@ =~= seq![digit_char(n as int)]);
        s
    } else {
        let mut s = print_u64(n / 10);
        s.push(decimal_digit(n % 10));
        s
    }
}

/// Prints a number in decimal.
pub fn print_u128(n: u128) -> (r: String)
    ensures
        r@ == decimal(n as nat),
    decreases n,
{
    if n < 10 {
        print_u64(n as u64)
    } else {
        let mut s = print_u128(n / 10);
        s.push(decimal_digit((n % 10) as u64));
        s
    }
}

/// The decimal text of a number, with a minus sign where it is negative.
pub open spec fn signed_decimal(n: int) -> Seq<char> {
    if n < 0 {
        "-"@ + decimal((-n) as nat)
    } else {
        decimal(n as nat)
    }
}

pub fn print_i64(n: i64) -> (r: String)
    ensures
        r@ == signed_decimal(n as int),
{
    if n == i64::MIN {
        "-".to_owned().concat(print_u64(0x8000_0000_0000_0000).as_str())
    } else if n < 0 {
        let m: u64 = (0 - n) as u64;
        "-".to_owned().concat(print_u64(m).as_str())
    } else {
        print_u64(n as u64)
    }
}

/// The two lower-case hexadecimal digits of a byte.
pub open spec fn byte_hex(b: u8) -> Seq<char> {
    seq![digit_char((b / 16) as int), digit_char((b % 16) as int)]
}

/// The two digits of each byte in turn.
pub open spec fn hex_of(bytes: Seq<u8>) -> Seq<char>
    decreases bytes.len(),
{
    if bytes.len() == 0 {
        Seq::empty()
    } else {
        hex_of(bytes.drop_last()) + byte_hex(bytes.last())
    }
}

fn hex_digit(d: u8) -> (r: char)
    requires
        d < 16,
    ensures
        r == digit_char(d as int),
{
    if d < 10 {
        (48 + d) as char
    } else {
        (87 + d) as char
    }
}

pub fn print_hex(bytes: &[u8]) -> (r: String)
    ensures
        r@ == hex_of(bytes@),
{
    let mut out = String::new();
    let mut i: usize = 0;
    while i < bytes.len()
        invariant
            i <= bytes@.len(),
            out@ == hex_of(bytes@.take(i as int)),
        decreases bytes@.len() - i,
    {
        let b = bytes[i];
        let ghost before = out@;
        out.push(hex_digit(b / 16));
        out.push(hex_digit(b % 16));
        assert(bytes@.take(i + 1).drop_last() =~= bytes@.take(i as int));
        assert(out@ =~= before + byte_hex(b));
        i = i + 1;
    }
    assert(bytes@.take(i as int) =~= bytes@);
    out
}

/// Different byte sequences have different hexadecimal texts.
pub proof fn lemma_hex_injective(a: Seq<u8>, b: Seq<u8>)
    requires
        hex_of(a) == hex_of(b),
    ensures
        a == b,
    decreases a.len(),
{
    lemma_hex_len(a);
    lemma_hex_len(b);
    if a.len() == 0 {
        assert(a =~= b);
    } else {
        let ha = hex_of(a);
        let hb = hex_of(b);
        let n = ha.len();
        assert(ha[n - 2] == byte_hex(a.last())[0]);
        assert(ha[n - 1] == byte_hex(a.last())[1]);
        assert(hb[n - 2] == byte_hex(b.last())[0]);
        assert(hb[n - 1] == byte_hex(b.last())[1]);
        assert(a.last() / 16 == b.last() / 16);
        assert(a.last() % 16 == b.last() % 16);
        assert(a.last() == b.last());
        lemma_hex_len(a.drop_last());
        lemma_hex_len(b.drop_last());
        assert(hex_of(a.drop_last()) =~= ha.take(n - 2));
        assert(hex_of(b.drop_last()) =~= hb.take(n - 2));
        lemma_hex_injective(a.drop_last(), b.drop_last());
        assert(a =~= a.drop_last().push(a.last()));
        assert(b =~= b.drop_last().push(b.last()));
    }
}

proof fn lemma_hex_len(a: Seq<u8>)
    ensures
        hex_of(a).len() == 2 * a.len(),
    decreases a.len(),
{
    if a.len() > 0 {
        lemma_hex_len(a.drop_last());
    }
}

/// Digits are read from the left, each worth the base times the one behind it.
pub proof fn law_digits_count_by_place(s: Seq<char>, d: int, base: int)
    requires
        base == 10 || base == 16,
        0 <= d < base,
    ensures
        digits_value(s.push(digit_char(d)), base) == digits_value(s, base) * base + d,
        digit_value(digit_char(d), base) == d,
        d < 10 ==> digit_char(d) as int == '0' as int + d,
        d >= 10 ==> digit_char(d) as int == 'a' as int + d - 10,
        digits_value(Seq::empty(), base) == 0,
{
    assert(s.push(digit_char(d)).drop_last() =~= s);
}

/// A number is read as it is printed, with or without a plus sign, where it
/// does not exceed the bound; beyond it there is none.
pub proof fn law_numbers_are_read_as_they_are_printed(n: nat, max: int)
    ensures
        parsed_unsigned(decimal(n), 10, max) == (if n <= max {
            Some(n as int)
        } else {
            None
        }),
        parsed_unsigned(seq!['+'] + decimal(n), 10, max) == (if n <= max {
            Some(n as int)
        } else {
            None
        }),
        n <= i64::MAX ==> parsed_i64(decimal(n)) == Some(n as int),
        n <= 0x8000_0000_0000_0000 ==> parsed_i64(seq!['-'] + decimal(n)) == Some(-(n as int)),
{
    lemma_decimal_parses(n, n as int);
    let d = decimal(n);
    lemma_decimal_first(n);
    assert((seq!['+'] + d).skip(1) =~= d);
    assert((seq!['-'] + d).skip(1) =~= d);
}

proof fn lemma_decimal_first(n: nat)
    ensures
        decimal(n).len() > 0,
        decimal(n)[0] != '+' && decimal(n)[0] != '-',
    decreases n,
{
    if n >= 10 {
        lemma_decimal_first(n / 10);
    }
}

/// What holds anything but digits, behind a sign, is no number; neither is
/// nothing, or a sign alone.
pub proof fn law_only_digits_are_numbers(s: Seq<char>, i: int, max: int)
    ensures
        s.len() == 0 ==> parsed_unsigned(s, 10, max) is None && parsed_i64(s) is None,
        s.len() == 1 && !('0' <= s[0] <= '9') ==> parsed_unsigned(s, 10, max) is None && parsed_i64(
            s,
        ) is None,
        0 <= i < s.len() && !('0' <= s[i] <= '9') && (i == 0 ==> s[i] != '+') ==> parsed_unsigned(
            s,
            10,
            max,
        ) is None,
        0 <= i < s.len() && !('0' <= s[i] <= '9') && (i == 0 ==> s[i] != '+' && s[i] != '-')
            ==> parsed_i64(s) is None,
{
    if 0 <= i < s.len() && !('0' <= s[i] <= '9') {
        assert(digit_value(s[i], 10) < 0);
        if i > 0 {
            assert(s.skip(1)[i - 1] == s[i]);
        }
    }
    if s.len() == 1 {
        assert(digit_value(s[0], 10) >= 0 ==> '0' <= s[0] <= '9');
    }
}

/// Printing is by place: the digits of a tenth of the number, and then the
/// last digit.
pub proof fn law_printing_is_by_place(n: nat, d: nat)
    requires
        d < 10,
    ensures
        decimal(d) == seq![('0' as int + d) as char],
        n > 0 ==> decimal(n * 10 + d) == decimal(n) + decimal(d),
        signed_decimal(n as int) == decimal(n),
        n > 0 ==> signed_decimal(-(n as int)) == seq!['-'] + decimal(n),
{
    reveal_strlit("-");
    assert("-"@ =~= seq!['-']);
    if n > 0 {
        assert((n * 10 + d) / 10 == n && (n * 10 + d) % 10 == d);
        assert(decimal(n * 10 + d) =~= decimal(n) + decimal(d));
    }
}

/// The decimal text of a number consists of digits, and one of them is not
/// zero exactly where the number is not.
pub proof fn lemma_decimal_digits(n: nat)
    ensures
        decimal(n).len() > 0,
        forall|i: int| 0 <= i < decimal(n).len() ==> '0' <= #[trigger] decimal(n)[i] <= '9',
        n == 0 ==> decimal(n) == seq!['0'],
        n > 0 ==> decimal(n)[0] != '0',
    decreases n,
{
    if n >= 10 {
        lemma_decimal_digits(n / 10);
    } else {
        assert(decimal(n) =~= seq![digit_char(n as int)]);
    }
}

/// The hexadecimal form of bytes holds two digits for each, which stand for
/// it, the higher first.
pub proof fn law_a_byte_is_two_digits(bytes: Seq<u8>, b: u8)
    ensures
        hex_of(Seq::empty()) == Seq::<char>::empty(),
        hex_of(bytes).len() == 2 * bytes.len(),
        hex_of(bytes.push(b)).len() == hex_of(bytes).len() + 2,
        hex_of(bytes.push(b)).take(hex_of(bytes).len() as int) == hex_of(bytes),
        ({
            let n = hex_of(bytes).len() as int;
            let high = hex_of(bytes.push(b))[n];
            let low = hex_of(bytes.push(b))[n + 1];
            &&& ('0' <= high <= '9' || 'a' <= high <= 'f') && ('0' <= low <= '9' || 'a' <= low
                <= 'f')
            &&& digit_value(high, 16) * 16 + digit_value(low, 16) == b
        }),
{
    lemma_hex_len(bytes);
    let longer = bytes.push(b);
    assert(longer.drop_last() =~= bytes);
    assert(hex_of(longer) == hex_of(bytes) + byte_hex(b));
    assert(hex_of(longer).take(hex_of(bytes).len() as int) =~= hex_of(bytes));
    assert(hex_of(longer)[hex_of(bytes).len() as int] == byte_hex(b)[0]);
    assert(hex_of(longer)[hex_of(bytes).len() as int + 1] == byte_hex(b)[1]);
    law_digits_count_by_place(Seq::empty(), (b / 16) as int, 16);
    law_digits_count_by_place(Seq::empty(), (b % 16) as int, 16);
}

} // verus!
