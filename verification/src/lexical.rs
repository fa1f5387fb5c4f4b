//! Lexical forms of the inlineable datatypes: exact parsing of integer and
//! boolean lexemes, canonical printing of integers, and parsing of the
//! 128-bit hexadecimal blank-node labels.

use vstd::prelude::*;
use vstd::string::StrSliceExecFns;
use vstd::string::StringExecFns;

verus! {

/// Whether `c` is a decimal digit.
pub open spec fn is_digit(c: char) -> bool {
    48 <= c as u32 <= 57
}

/// The value of a decimal digit.
pub open spec fn digit_value(c: char) -> nat {
    (c as u32 - 48) as nat
}

/// Whether every character of `s` is a decimal digit.
pub open spec fn all_digits(s: Seq<char>) -> bool {
    forall|i: int| 0 <= i < s.len() ==> is_digit(#[trigger] s[i])
}

/// The number denoted by a sequence of decimal digits, most significant
/// first; the empty sequence denotes zero.
pub open spec fn digits_value(s: Seq<char>) -> nat
    decreases s.len(),
{
    if s.len() == 0 {
        0
    } else {
        digits_value(s.drop_last()) * 10 + digit_value(s.last())
    }
}

/// An `xsd:integer` lexical form: an optional sign followed by one or more
/// decimal digits.
pub open spec fn valid_integer_lexical(s: Seq<char>) -> bool {
    if s.len() == 0 {
        false
    } else if s[0] == '-' || s[0] == '+' {
        s.len() > 1 && all_digits(s.skip(1))
    } else {
        all_digits(s)
    }
}

/// The integer denoted by a valid integer lexical form.
pub open spec fn integer_lexical_value(s: Seq<char>) -> int
    recommends
        valid_integer_lexical(s),
{
    if s[0] == '-' {
        -(digits_value(s.skip(1)) as int)
    } else if s[0] == '+' {
        digits_value(s.skip(1)) as int
    } else {
        digits_value(s) as int
    }
}

/// The character of a decimal digit.
pub open spec fn digit_char(d: nat) -> char {
    if d == 0 {
        '0'
    } else if d == 1 {
        '1'
    } else if d == 2 {
        '2'
    } else if d == 3 {
        '3'
    } else if d == 4 {
        '4'
    } else if d == 5 {
        '5'
    } else if d == 6 {
        '6'
    } else if d == 7 {
        '7'
    } else if d == 8 {
        '8'
    } else {
        '9'
    }
}

/// The canonical digit string of a natural number: no leading zeros, except
/// that zero itself is written `0`.
pub open spec fn canonical_digits(n: nat) -> Seq<char>
    decreases n,
{
    if n < 10 {
        seq![digit_char(n)]
    } else {
        canonical_digits(n / 10) + seq![digit_char(n % 10)]
    }
}

/// The canonical `xsd:integer` lexical form of an integer: a minus sign for
/// negative values, then the canonical digits of the magnitude.
pub open spec fn integer_canonical_lexical(v: int) -> Seq<char> {
    if v < 0 {
        seq!['-'] + canonical_digits((-v) as nat)
    } else {
        canonical_digits(v as nat)
    }
}

/// Powers of ten.
pub open spec fn pow10(n: nat) -> int
    decreases n,
{
    if n == 0 {
        1
    } else {
        10 * pow10((n - 1) as nat)
    }
}

/// Powers of sixteen.
pub open spec fn pow16(n: nat) -> int
    decreases n,
{
    if n == 0 {
        1
    } else {
        16 * pow16((n - 1) as nat)
    }
}

proof fn lemma_pow10_values()
    ensures
        pow10(18) == 0xDE0B6B3A7640000,
        pow10(19) == 0x8AC7230489E80000,
{
    assert(pow10(0) == 1);
    assert(pow10(1) == 10);
    assert(pow10(2) == 100);
    assert(pow10(3) == 1000);
    assert(pow10(4) == 10000);
    assert(pow10(5) == 100000);
    assert(pow10(6) == 1000000);
    assert(pow10(7) == 10000000);
    assert(pow10(8) == 100000000);
    assert(pow10(9) == 1000000000);
    assert(pow10(10) == 10000000000);
    assert(pow10(11) == 100000000000);
    assert(pow10(12) == 1000000000000);
    assert(pow10(13) == 10000000000000);
    assert(pow10(14) == 100000000000000);
    assert(pow10(15) == 1000000000000000);
    assert(pow10(16) == 10000000000000000);
    assert(pow10(17) == 100000000000000000);
    assert(pow10(18) == 1000000000000000000);
    assert(pow10(19) == 10000000000000000000);
}

proof fn lemma_pow16_values()
    ensures
        pow16(31) == 0x10000000000000000000000000000000,
        pow16(32) == 0x100000000000000000000000000000000,
{
    assert(pow16(0) == 0x1);
    assert(pow16(1) == 0x10);
    assert(pow16(2) == 0x100);
    assert(pow16(3) == 0x1000);
    assert(pow16(4) == 0x10000);
    assert(pow16(5) == 0x100000);
    assert(pow16(6) == 0x1000000);
    assert(pow16(7) == 0x10000000);
    assert(pow16(8) == 0x100000000);
    assert(pow16(9) == 0x1000000000);
    assert(pow16(10) == 0x10000000000);
    assert(pow16(11) == 0x100000000000);
    assert(pow16(12) == 0x1000000000000);
    assert(pow16(13) == 0x10000000000000);
    assert(pow16(14) == 0x100000000000000);
    assert(pow16(15) == 0x1000000000000000);
    assert(pow16(16) == 0x10000000000000000);
    assert(pow16(17) == 0x100000000000000000);
    assert(pow16(18) == 0x1000000000000000000);
    assert(pow16(19) == 0x10000000000000000000);
    assert(pow16(20) == 0x100000000000000000000);
    assert(pow16(21) == 0x1000000000000000000000);
    assert(pow16(22) == 0x10000000000000000000000);
    assert(pow16(23) == 0x100000000000000000000000);
    assert(pow16(24) == 0x1000000000000000000000000);
    assert(pow16(25) == 0x10000000000000000000000000);
    assert(pow16(26) == 0x100000000000000000000000000);
    assert(pow16(27) == 0x1000000000000000000000000000);
    assert(pow16(28) == 0x10000000000000000000000000000);
    assert(pow16(29) == 0x100000000000000000000000000000);
    assert(pow16(30) == 0x1000000000000000000000000000000);
    assert(pow16(31) == 0x10000000000000000000000000000000);
    assert(pow16(32) == 0x100000000000000000000000000000000);
}

proof fn lemma_pow10_increases(a: nat, b: nat)
    requires
        a <= b,
    ensures
        pow10(a) <= pow10(b),
    decreases b,
{
    if a < b {
        lemma_pow10_increases(a, (b - 1) as nat);
        assert(pow10((b - 1) as nat) >= 1) by {
            lemma_pow10_pos((b - 1) as nat);
        }
    }
}

proof fn lemma_pow10_pos(n: nat)
    ensures
        pow10(n) >= 1,
    decreases n,
{
    if n > 0 {
        lemma_pow10_pos((n - 1) as nat);
    }
}

proof fn lemma_pow16_pos(n: nat)
    ensures
        pow16(n) >= 1,
    decreases n,
{
    if n > 0 {
        lemma_pow16_pos((n - 1) as nat);
    }
}

proof fn lemma_pow16_increases(a: nat, b: nat)
    requires
        a <= b,
    ensures
        pow16(a) <= pow16(b),
    decreases b,
{
    if a < b {
        lemma_pow16_increases(a, (b - 1) as nat);
        lemma_pow16_pos((b - 1) as nat);
    }
}

/// The value of a digit string is below ten to its length.
proof fn lemma_digits_value_upper(s: Seq<char>)
    requires
        all_digits(s),
    ensures
        digits_value(s) < pow10(s.len()),
    decreases s.len(),
{
    if s.len() > 0 {
        assert(all_digits(s.drop_last())) by {
            assert(forall|i: int|
                0 <= i < s.drop_last().len() ==> s.drop_last()[i] == #[trigger] s[i]);
        }
        lemma_digits_value_upper(s.drop_last());
        assert(is_digit(s.last()));
        assert(digit_value(s.last()) <= 9);
    }
}

/// A digit string that does not start with `0` is at least ten to one less
/// than its length.
proof fn lemma_digits_value_lower(s: Seq<char>)
    requires
        all_digits(s),
        s.len() > 0,
        s[0] != '0',
    ensures
        digits_value(s) >= pow10((s.len() - 1) as nat),
    decreases s.len(),
{
    if s.len() == 1 {
        assert(is_digit(s[0]));
        assert(digit_value(s[0]) >= 1) by {
            if s[0] as u32 == 48 {
                vstd::utf8::char_u32_cast(s[0], 48);
                vstd::utf8::char_u32_cast('0', 48);
            }
        }
        assert(digits_value(s) == digits_value(s.drop_last()) * 10 + digit_value(s.last()));
        assert(s.drop_last().len() == 0);
    } else {
        assert(all_digits(s.drop_last())) by {
            assert(forall|i: int|
                0 <= i < s.drop_last().len() ==> s.drop_last()[i] == #[trigger] s[i]);
        }
        assert(s.drop_last()[0] == s[0]);
        lemma_digits_value_lower(s.drop_last());
        assert(digits_value(s) >= digits_value(s.drop_last()) * 10);
    }
}

/// Leading zeros do not change the value of a digit string.
proof fn lemma_digits_value_skip_zeros(s: Seq<char>, k: int)
    requires
        0 <= k <= s.len(),
        forall|i: int| 0 <= i < k ==> s[i] == '0',
    ensures
        digits_value(s) == digits_value(s.skip(k)),
    decreases s.len(),
{
    if k > 0 && s.len() > 0 {
        if k == s.len() {
            lemma_digits_value_all_zero(s);
            assert(s.skip(k).len() == 0);
        } else {
            let t = s.drop_last();
            assert(s.skip(k).len() > 0);
            assert(s.skip(k).drop_last() =~= t.skip(k));
            assert(s.skip(k).last() == s.last());
            lemma_digits_value_skip_zeros(t, k);
        }
    } else {
        assert(s.skip(0) =~= s);
    }
}

/// A string of zeros denotes zero.
proof fn lemma_digits_value_all_zero(s: Seq<char>)
    requires
        forall|i: int| 0 <= i < s.len() ==> s[i] == '0',
    ensures
        digits_value(s) == 0,
    decreases s.len(),
{
    if s.len() > 0 {
        lemma_digits_value_all_zero(s.drop_last());
        assert(digit_value(s.last()) == 0);
    }
}

/// Appending one digit multiplies the value by ten and adds the digit.
proof fn lemma_digits_value_snoc(s: Seq<char>, i: int)
    requires
        0 <= i < s.len(),
    ensures
        digits_value(s.subrange(0, i + 1)) == digits_value(s.subrange(0, i)) * 10 + digit_value(
            s[i],
        ),
{
    assert(s.subrange(0, i + 1).drop_last() =~= s.subrange(0, i));
    assert(s.subrange(0, i + 1).last() == s[i]);
}

/// Parses an `xsd:integer` lexical form into a 64-bit value. Returns `None`
/// exactly when the string is not a valid integer lexical form or its value
/// does not fit in 64 bits.
pub fn parse_integer(s: &str) -> (r: Option<i64>)
    ensures
        r matches Some(v) ==> valid_integer_lexical(s@) && integer_lexical_value(s@) == v as int,
        r is None ==> !(valid_integer_lexical(s@) && i64::MIN <= integer_lexical_value(s@)
            <= i64::MAX),
{
    let n = s.unicode_len();
    if n == 0 {
        return None;
    }
    let c0 = s.get_char(0);
    let negative = c0 == '-';
    let start: usize = if c0 == '-' || c0 == '+' {
        1
    } else {
        0
    };
    if start == n {
        return None;
    }
    let ghost digits = s@.skip(start as int);
    // Every character from `start` on must be a digit.
    let mut i = start;
    while i < n
        invariant
            start <= i <= n,
            1 <= n == s@.len(),
            start == 0 || start == 1,
            (start == 1) == (s@[0] == '-' || s@[0] == '+'),
            forall|j: int| start <= j < i ==> is_digit(#[trigger] s@[j]),
        decreases n - i,
    {
        let c = s.get_char(i);
        if (c as u32) < 48 || (c as u32) > 57 {
            proof {
                assert(!is_digit(s@[i as int]));
                if start == 1 {
                    assert(s@.skip(1)[i - 1] == s@[i as int]);
                    assert(!all_digits(s@.skip(1)));
                } else {
                    assert(!all_digits(s@));
                }
            }
            return None;
        }
        i = i + 1;
    }
    proof {
        assert(forall|j: int| 0 <= j < digits.len() ==> digits[j] == #[trigger] s@[start + j]);
        assert(all_digits(digits));
        if start == 0 {
            assert(digits =~= s@);
        }
        assert(valid_integer_lexical(s@));
    }
    // Skip leading zeros of the digit run.
    let mut z = start;
    while z < n && s.get_char(z) == '0'
        invariant
            start <= z <= n,
            n == s@.len(),
            forall|j: int| start <= j < z ==> s@[j] == '0',
        decreases n - z,
    {
        z = z + 1;
    }
    proof {
        lemma_digits_value_skip_zeros(digits, z - start);
        assert(s@.skip(z as int) =~= digits.skip(z - start));
    }
    let ghost significant = s@.skip(z as int);
    // More than nineteen significant digits cannot fit in 64 bits.
    if n - z > 19 {
        proof {
            assert(significant[0] == s@[z as int]);
            assert(forall|j: int|
                0 <= j < significant.len() ==> significant[j] == #[trigger] s@[z + j]);
            assert(all_digits(significant));
            lemma_digits_value_lower(significant);
            lemma_pow10_increases(19, (significant.len() - 1) as nat);
            lemma_pow10_values();
        }
        return None;
    }
    // Accumulate the at most nineteen significant digits.
    let mut acc: u128 = 0;
    let mut i = z;
    while i < n
        invariant
            z <= i <= n,
            n == s@.len(),
            n - z <= 19,
            forall|j: int| z <= j < n ==> is_digit(#[trigger] s@[j]),
            acc == digits_value(s@.subrange(z as int, i as int)),
            acc < pow10((i - z) as nat),
        decreases n - i,
    {
        let c = s.get_char(i);
        let d: u128 = (c as u32 - 48) as u128;
        proof {
            lemma_pow10_increases((i - z) as nat, 18);
            lemma_pow10_values();
            lemma_digits_value_snoc(s@.subrange(z as int, n as int), i - z);
            assert(s@.subrange(z as int, n as int).subrange(0, i - z) =~= s@.subrange(
                z as int,
                i as int,
            ));
            assert(s@.subrange(z as int, n as int).subrange(0, i - z + 1) =~= s@.subrange(
                z as int,
                i + 1,
            ));
            assert(s@.subrange(z as int, n as int)[i - z] == s@[i as int]);
        }
        acc = acc * 10 + d;
        i = i + 1;
    }
    proof {
        assert(s@.subrange(z as int, n as int) =~= significant);
        assert(acc == digits_value(significant));
        assert(digits_value(digits) == acc);
        lemma_pow10_values();
        lemma_pow10_increases((n - z) as nat, 19);
    }
    if negative {
        if acc > 0x8000_0000_0000_0000u128 {
            return None;
        }
        Some((-(acc as i128)) as i64)
    } else {
        if acc > 0x7fff_ffff_ffff_ffffu128 {
            return None;
        }
        Some(acc as i64)
    }
}

/// The decimal digit characters, indexed by value.
fn digit_str(d: u8) -> (r: &'static str)
    requires
        d < 10,
    ensures
        r@ =~= seq![digit_char(d as nat)],
{
    proof {
        reveal_strlit("0");
        reveal_strlit("1");
        reveal_strlit("2");
        reveal_strlit("3");
        reveal_strlit("4");
        reveal_strlit("5");
        reveal_strlit("6");
        reveal_strlit("7");
        reveal_strlit("8");
        reveal_strlit("9");
    }
    if d == 0 {
        "0"
    } else if d == 1 {
        "1"
    } else if d == 2 {
        "2"
    } else if d == 3 {
        "3"
    } else if d == 4 {
        "4"
    } else if d == 5 {
        "5"
    } else if d == 6 {
        "6"
    } else if d == 7 {
        "7"
    } else if d == 8 {
        "8"
    } else {
        "9"
    }
}

/// Appends the canonical digits of `n` to `out`.
fn push_canonical_digits(out: &mut String, n: u64)
    ensures
        final(out)@ == old(out)@ + canonical_digits(n as nat),
    decreases n,
{
    if n < 10 {
        out.append(digit_str(n as u8));
    } else {
        push_canonical_digits(out, n / 10);
        out.append(digit_str((n % 10) as u8));
        proof {
            assert(out@ =~= old(out)@ + canonical_digits(n as nat));
        }
    }
}

/// The canonical `xsd:integer` lexical form of a 64-bit value.
pub fn integer_to_string(v: i64) -> (r: String)
    ensures
        r@ == integer_canonical_lexical(v as int),
{
    let mut out = String::new();
    if v < 0 {
        proof {
            reveal_strlit("-");
        }
        out.append("-");
        let magnitude: u64 = (-(v as i128)) as u64;
        push_canonical_digits(&mut out, magnitude);
        proof {
            assert(out@ =~= integer_canonical_lexical(v as int));
        }
    } else {
        push_canonical_digits(&mut out, v as u64);
    }
    out
}

/// The canonical digits of a number are digits and denote it.
proof fn lemma_canonical_digits(n: nat)
    ensures
        all_digits(canonical_digits(n)),
        canonical_digits(n).len() >= 1,
        digits_value(canonical_digits(n)) == n,
    decreases n,
{
    if n < 10 {
        assert(is_digit(digit_char(n)) && digit_value(digit_char(n)) == n);
        let whole = canonical_digits(n);
        assert(whole.drop_last().len() == 0);
        assert(digits_value(whole.drop_last()) == 0);
        assert(whole.last() == digit_char(n));
        assert(digits_value(whole) == 0 * 10 + digit_value(digit_char(n)));
    } else {
        lemma_canonical_digits(n / 10);
        let head = canonical_digits(n / 10);
        let whole = canonical_digits(n);
        assert(whole.drop_last() =~= head);
        assert(whole.last() == digit_char(n % 10));
        assert(is_digit(digit_char(n % 10)) && digit_value(digit_char(n % 10)) == n % 10);
        assert(all_digits(whole)) by {
            assert(forall|i: int|
                0 <= i < head.len() ==> whole[i] == #[trigger] head[i]);
        }
        assert(digits_value(whole) == digits_value(head) * 10 + (n % 10));
        vstd::arithmetic::div_mod::lemma_fundamental_div_mod(n as int, 10);
    }
}

/// Printing an integer canonically and parsing it back recovers the value.
pub proof fn lemma_integer_canonical_round_trip(v: int)
    requires
        i64::MIN <= v <= i64::MAX,
    ensures
        valid_integer_lexical(integer_canonical_lexical(v)),
        integer_lexical_value(integer_canonical_lexical(v)) == v,
{
    if v < 0 {
        lemma_canonical_digits((-v) as nat);
        let lex = integer_canonical_lexical(v);
        assert(lex.skip(1) =~= canonical_digits((-v) as nat));
        assert(lex[0] == '-');
        assert('-' as u32 == 45);
        assert(!is_digit('-') && '-' != '+');
    } else {
        lemma_canonical_digits(v as nat);
        let lex = integer_canonical_lexical(v);
        assert(lex[0] != '-' && lex[0] != '+') by {
            assert(is_digit(lex[0]));
            assert('-' as u32 == 45 && '+' as u32 == 43);
        }
    }
}

/// Compares two strings character by character.
pub fn str_eq(a: &str, b: &str) -> (r: bool)
    ensures
        r == (a@ == b@),
{
    let n = a.unicode_len();
    if n != b.unicode_len() {
        return false;
    }
    let mut i: usize = 0;
    while i < n
        invariant
            i <= n,
            n == a@.len(),
            n == b@.len(),
            forall|j: int| 0 <= j < i ==> a@[j] == b@[j],
        decreases n - i,
    {
        if a.get_char(i) != b.get_char(i) {
            return false;
        }
        i = i + 1;
    }
    proof {
        assert(a@ =~= b@);
    }
    true
}

/// An `xsd:boolean` lexical form: `true`, `false`, `1` or `0`.
pub open spec fn valid_boolean_lexical(s: Seq<char>) -> bool {
    s == "true"@ || s == "false"@ || s == "1"@ || s == "0"@
}

/// The value denoted by a boolean lexical form.
pub open spec fn boolean_lexical_value(s: Seq<char>) -> bool
    recommends
        valid_boolean_lexical(s),
{
    s == "true"@ || s == "1"@
}

/// Parses an `xsd:boolean` lexical form. Returns `None` exactly when the
/// string is not one of the four boolean lexemes.
pub fn parse_boolean(s: &str) -> (r: Option<bool>)
    ensures
        r matches Some(v) ==> valid_boolean_lexical(s@) && v == boolean_lexical_value(s@),
        r is None ==> !valid_boolean_lexical(s@),
{
    if str_eq(s, "true") || str_eq(s, "1") {
        Some(true)
    } else if str_eq(s, "false") || str_eq(s, "0") {
        Some(false)
    } else {
        None
    }
}

/// The canonical boolean lexical forms.
pub fn boolean_to_string(v: bool) -> (r: String)
    ensures
        v ==> r@ == "true"@,
        !v ==> r@ == "false"@,
{
    if v {
        String::from_str("true")
    } else {
        String::from_str("false")
    }
}

/// Whether `c` is a hexadecimal digit.
pub open spec fn is_hex_digit(c: char) -> bool {
    (48 <= c as u32 <= 57) || (97 <= c as u32 <= 102) || (65 <= c as u32 <= 70)
}

/// The value of a hexadecimal digit.
pub open spec fn hex_digit_value(c: char) -> nat {
    if 48 <= c as u32 <= 57 {
        (c as u32 - 48) as nat
    } else if 97 <= c as u32 <= 102 {
        (c as u32 - 87) as nat
    } else {
        (c as u32 - 55) as nat
    }
}

/// Whether every character of `s` is a hexadecimal digit.
pub open spec fn all_hex_digits(s: Seq<char>) -> bool {
    forall|i: int| 0 <= i < s.len() ==> is_hex_digit(#[trigger] s[i])
}

/// The number denoted by a sequence of hexadecimal digits.
pub open spec fn hex_digits_value(s: Seq<char>) -> nat
    decreases s.len(),
{
    if s.len() == 0 {
        0
    } else {
        hex_digits_value(s.drop_last()) * 16 + hex_digit_value(s.last())
    }
}

/// A 128-bit hexadecimal label: an optional plus sign followed by one or
/// more hexadecimal digits.
pub open spec fn valid_hex_lexical(s: Seq<char>) -> bool {
    if s.len() == 0 {
        false
    } else if s[0] == '+' {
        s.len() > 1 && all_hex_digits(s.skip(1))
    } else {
        all_hex_digits(s)
    }
}

/// The number denoted by a valid hexadecimal label.
pub open spec fn hex_lexical_value(s: Seq<char>) -> int
    recommends
        valid_hex_lexical(s),
{
    if s[0] == '+' {
        hex_digits_value(s.skip(1)) as int
    } else {
        hex_digits_value(s) as int
    }
}

proof fn lemma_hex_digits_value_upper(s: Seq<char>)
    requires
        all_hex_digits(s),
    ensures
        hex_digits_value(s) < pow16(s.len()),
    decreases s.len(),
{
    if s.len() > 0 {
        assert(all_hex_digits(s.drop_last())) by {
            assert(forall|i: int|
                0 <= i < s.drop_last().len() ==> s.drop_last()[i] == #[trigger] s[i]);
        }
        lemma_hex_digits_value_upper(s.drop_last());
        assert(is_hex_digit(s.last()));
        assert(hex_digit_value(s.last()) <= 15);
    }
}

proof fn lemma_hex_digits_value_lower(s: Seq<char>)
    requires
        all_hex_digits(s),
        s.len() > 0,
        s[0] != '0',
    ensures
        hex_digits_value(s) >= pow16((s.len() - 1) as nat),
    decreases s.len(),
{
    if s.len() == 1 {
        assert(is_hex_digit(s[0]));
        assert(hex_digit_value(s[0]) >= 1) by {
            if s[0] as u32 == 48 {
                vstd::utf8::char_u32_cast(s[0], 48);
                vstd::utf8::char_u32_cast('0', 48);
            }
        }
        assert(hex_digits_value(s) == hex_digits_value(s.drop_last()) * 16 + hex_digit_value(
            s.last(),
        ));
        assert(s.drop_last().len() == 0);
    } else {
        assert(all_hex_digits(s.drop_last())) by {
            assert(forall|i: int|
                0 <= i < s.drop_last().len() ==> s.drop_last()[i] == #[trigger] s[i]);
        }
        assert(s.drop_last()[0] == s[0]);
        lemma_hex_digits_value_lower(s.drop_last());
        assert(hex_digits_value(s) >= hex_digits_value(s.drop_last()) * 16);
    }
}

proof fn lemma_hex_digits_value_all_zero(s: Seq<char>)
    requires
        forall|i: int| 0 <= i < s.len() ==> s[i] == '0',
    ensures
        hex_digits_value(s) == 0,
    decreases s.len(),
{
    if s.len() > 0 {
        lemma_hex_digits_value_all_zero(s.drop_last());
        assert(hex_digit_value(s.last()) == 0);
    }
}

proof fn lemma_hex_digits_value_skip_zeros(s: Seq<char>, k: int)
    requires
        0 <= k <= s.len(),
        forall|i: int| 0 <= i < k ==> s[i] == '0',
    ensures
        hex_digits_value(s) == hex_digits_value(s.skip(k)),
    decreases s.len(),
{
    if k > 0 && s.len() > 0 {
        if k == s.len() {
            lemma_hex_digits_value_all_zero(s);
            assert(s.skip(k).len() == 0);
        } else {
            let t = s.drop_last();
            assert(s.skip(k).len() > 0);
            assert(s.skip(k).drop_last() =~= t.skip(k));
            assert(s.skip(k).last() == s.last());
            lemma_hex_digits_value_skip_zeros(t, k);
        }
    } else {
        assert(s.skip(0) =~= s);
    }
}

proof fn lemma_hex_digits_value_snoc(s: Seq<char>, i: int)
    requires
        0 <= i < s.len(),
    ensures
        hex_digits_value(s.subrange(0, i + 1)) == hex_digits_value(s.subrange(0, i)) * 16
            + hex_digit_value(s[i]),
{
    assert(s.subrange(0, i + 1).drop_last() =~= s.subrange(0, i));
    assert(s.subrange(0, i + 1).last() == s[i]);
}

/// Parses a 128-bit hexadecimal label. Returns `None` exactly when the
/// string is not a valid hexadecimal label or its value does not fit in 128
/// bits.
pub fn parse_hex_u128(s: &str) -> (r: Option<u128>)
    ensures
        r matches Some(v) ==> valid_hex_lexical(s@) && hex_lexical_value(s@) == v as int,
        r is None ==> !(valid_hex_lexical(s@) && hex_lexical_value(s@) <= u128::MAX),
{
    let n = s.unicode_len();
    if n == 0 {
        return None;
    }
    let start: usize = if s.get_char(0) == '+' {
        1
    } else {
        0
    };
    if start == n {
        return None;
    }
    let ghost digits = s@.skip(start as int);
    let mut i = start;
    while i < n
        invariant
            start <= i <= n,
            1 <= n == s@.len(),
            start == 0 || start == 1,
            (start == 1) == (s@[0] == '+'),
            forall|j: int| start <= j < i ==> is_hex_digit(#[trigger] s@[j]),
        decreases n - i,
    {
        let c = s.get_char(i);
        let u = c as u32;
        if !((48 <= u && u <= 57) || (97 <= u && u <= 102) || (65 <= u && u <= 70)) {
            proof {
                assert(!is_hex_digit(s@[i as int]));
                if start == 1 {
                    assert(s@.skip(1)[i - 1] == s@[i as int]);
                    assert(!all_hex_digits(s@.skip(1)));
                } else {
                    assert(!all_hex_digits(s@));
                }
            }
            return None;
        }
        i = i + 1;
    }
    proof {
        assert(forall|j: int| 0 <= j < digits.len() ==> digits[j] == #[trigger] s@[start + j]);
        assert(all_hex_digits(digits));
        if start == 0 {
            assert(digits =~= s@);
        }
        assert(valid_hex_lexical(s@));
    }
    let mut z = start;
    while z < n && s.get_char(z) == '0'
        invariant
            start <= z <= n,
            n == s@.len(),
            forall|j: int| start <= j < z ==> s@[j] == '0',
        decreases n - z,
    {
        z = z + 1;
    }
    proof {
        lemma_hex_digits_value_skip_zeros(digits, z - start);
        assert(s@.skip(z as int) =~= digits.skip(z - start));
    }
    let ghost significant = s@.skip(z as int);
    if n - z > 32 {
        proof {
            assert(significant[0] == s@[z as int]);
            assert(forall|j: int|
                0 <= j < significant.len() ==> significant[j] == #[trigger] s@[z + j]);
            assert(all_hex_digits(significant));
            lemma_hex_digits_value_lower(significant);
            lemma_pow16_increases(32, (significant.len() - 1) as nat);
            lemma_pow16_values();
        }
        return None;
    }
    let mut acc: u128 = 0;
    let mut i = z;
    while i < n
        invariant
            z <= i <= n,
            n == s@.len(),
            n - z <= 32,
            forall|j: int| z <= j < n ==> is_hex_digit(#[trigger] s@[j]),
            acc == hex_digits_value(s@.subrange(z as int, i as int)),
            acc < pow16((i - z) as nat),
        decreases n - i,
    {
        let c = s.get_char(i);
        let u = c as u32;
        let d: u128 = if 48 <= u && u <= 57 {
            (u - 48) as u128
        } else if 97 <= u && u <= 102 {
            (u - 87) as u128
        } else {
            (u - 55) as u128
        };
        proof {
            lemma_pow16_increases((i - z) as nat, 31);
            lemma_pow16_values();
            lemma_hex_digits_value_snoc(s@.subrange(z as int, n as int), i - z);
            assert(s@.subrange(z as int, n as int).subrange(0, i - z) =~= s@.subrange(
                z as int,
                i as int,
            ));
            assert(s@.subrange(z as int, n as int).subrange(0, i - z + 1) =~= s@.subrange(
                z as int,
                i + 1,
            ));
            assert(s@.subrange(z as int, n as int)[i - z] == s@[i as int]);
            assert(d == hex_digit_value(s@[i as int]));
        }
        acc = acc * 16 + d;
        i = i + 1;
    }
    proof {
        assert(s@.subrange(z as int, n as int) =~= significant);
        assert(hex_digits_value(digits) == acc);
    }
    Some(acc)
}

} // verus!
