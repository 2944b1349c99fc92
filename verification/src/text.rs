//! Small text utilities: comparing strings, rendering numbers in decimal and
//! hexadecimal, and parsing numbers the way the standard library's `FromStr`
//! and `from_str_radix` do.
use vstd::prelude::*;
use vstd::string::StringSliceAdditionalSpecFns;

verus! {

/// The ASCII digit for a value below ten.
pub open spec fn digit_char(d: nat) -> char {
    if d == 0 { '0' }
    else if d == 1 { '1' }
    else if d == 2 { '2' }
    else if d == 3 { '3' }
    else if d == 4 { '4' }
    else if d == 5 { '5' }
    else if d == 6 { '6' }
    else if d == 7 { '7' }
    else if d == 8 { '8' }
    else { '9' }
}

/// Decimal rendering of a natural number, without leading zeros.
pub open spec fn nat_decimal(n: nat) -> Seq<char>
    decreases n,
{
    if n < 10 {
        seq![digit_char(n)]
    } else {
        nat_decimal(n / 10).push(digit_char(n % 10))
    }
}

/// Decimal rendering of an integer, with a leading `-` for negative values.
pub open spec fn int_decimal(i: int) -> Seq<char> {
    if i < 0 {
        seq!['-'] + nat_decimal((-i) as nat)
    } else {
        nat_decimal(i as nat)
    }
}

fn digit_str(d: u64) -> (s: &'static str)
    requires
        d < 10,
    ensures
        s@ == seq![digit_char(d as nat)],
{
    if d == 0 {
        proof { reveal_strlit("0"); }
        "0"
    } else if d == 1 {
        proof { reveal_strlit("1"); }
        "1"
    } else if d == 2 {
        proof { reveal_strlit("2"); }
        "2"
    } else if d == 3 {
        proof { reveal_strlit("3"); }
        "3"
    } else if d == 4 {
        proof { reveal_strlit("4"); }
        "4"
    } else if d == 5 {
        proof { reveal_strlit("5"); }
        "5"
    } else if d == 6 {
        proof { reveal_strlit("6"); }
        "6"
    } else if d == 7 {
        proof { reveal_strlit("7"); }
        "7"
    } else if d == 8 {
        proof { reveal_strlit("8"); }
        "8"
    } else {
        proof { reveal_strlit("9"); }
        "9"
    }
}

/// Renders `n` in decimal, as `n.to_string()` does.
pub fn u64_to_decimal(n: u64) -> (s: String)
    ensures
        s@ == nat_decimal(n as nat),
    decreases n,
{
    if n < 10 {
        String::from_str(digit_str(n))
    } else {
        let mut s = u64_to_decimal(n / 10);
        s.append(digit_str(n % 10));
        s
    }
}


/// Renders `i` in decimal, as `i.to_string()` does for signed integers.
pub fn i64_to_decimal(i: i64) -> (s: String)
    ensures
        s@ == int_decimal(i as int),
{
    if i < 0 {
        let wide: i128 = -(i as i128);
        let magnitude: u64 = wide as u64;
        let digits = u64_to_decimal(magnitude);
        let mut s = String::from_str("-");
        proof { reveal_strlit("-"); }
        s.append(digits.as_str());
        s
    } else {
        u64_to_decimal(i as u64)
    }
}

/// Upper-case hexadecimal digit for a value below sixteen.
pub open spec fn hex_digit_upper(d: nat) -> char {
    if d < 10 {
        digit_char(d)
    } else if d == 10 {
        'A'
    } else if d == 11 {
        'B'
    } else if d == 12 {
        'C'
    } else if d == 13 {
        'D'
    } else if d == 14 {
        'E'
    } else {
        'F'
    }
}

/// A byte as two upper-case hexadecimal digits, zero-padded (`{:02X}`).
pub open spec fn byte_hex_upper(b: u8) -> Seq<char> {
    seq![hex_digit_upper((b / 16) as nat), hex_digit_upper((b % 16) as nat)]
}

/// The bytes, in order, each rendered with [`byte_hex_upper`].
pub open spec fn hex_upper(bytes: Seq<u8>) -> Seq<char>
    decreases bytes.len(),
{
    if bytes.len() == 0 {
        Seq::empty()
    } else {
        hex_upper(bytes.drop_last()) + byte_hex_upper(bytes.last())
    }
}

/// The ASCII code of the upper-case hexadecimal digit of a value below
/// sixteen: `0`..`9` are codes 48..57, `A`..`F` are codes 65..70.
pub open spec fn upper_hex_code(d: int) -> int {
    if d < 10 {
        48 + d
    } else {
        55 + d
    }
}

/// Each hexadecimal digit is the ASCII character `0`..`9` or the upper-case
/// letter `A`..`F` for its value.
pub proof fn lemma_hex_digit_is_upper_case(d: nat)
    requires
        d < 16,
    ensures
        hex_digit_upper(d) as int == upper_hex_code(d as int),
        '0' <= hex_digit_upper(d) <= '9' || 'A' <= hex_digit_upper(d) <= 'F',
{
}

/// The rendering of a byte string has two characters per byte: the
/// upper-case hexadecimal digit of the byte's high nibble, then that of its
/// low nibble.
pub proof fn lemma_hex_upper_digits(bytes: Seq<u8>)
    ensures
        hex_upper(bytes).len() == 2 * bytes.len(),
        forall|k: int|
            0 <= k < bytes.len() ==> hex_upper(bytes)[2 * k] as int == upper_hex_code(
                ((#[trigger] bytes[k]) / 16) as int,
            ) && hex_upper(bytes)[2 * k + 1] as int == upper_hex_code((bytes[k] % 16) as int),
        forall|i: int|
            0 <= i < hex_upper(bytes).len() ==> ('0' <= #[trigger] hex_upper(bytes)[i] <= '9' || 'A'
                <= hex_upper(bytes)[i] <= 'F'),
    decreases bytes.len(),
{
    if bytes.len() > 0 {
        let init = bytes.drop_last();
        let b = bytes.last();
        lemma_hex_upper_digits(init);
        lemma_hex_digit_is_upper_case((b / 16) as nat);
        lemma_hex_digit_is_upper_case((b % 16) as nat);
        let h = hex_upper(bytes);
        assert(h == hex_upper(init) + byte_hex_upper(b));
        assert forall|k: int| 0 <= k < bytes.len() implies h[2 * k] as int == upper_hex_code(
            ((#[trigger] bytes[k]) / 16) as int,
        ) && h[2 * k + 1] as int == upper_hex_code((bytes[k] % 16) as int) by {
            if k < init.len() {
                assert(bytes[k] == init[k]);
                assert(h[2 * k] == hex_upper(init)[2 * k]);
                assert(h[2 * k + 1] == hex_upper(init)[2 * k + 1]);
            } else {
                assert(k == init.len());
                assert(bytes[k] == b);
            }
        }
        assert forall|i: int| 0 <= i < h.len() implies ('0' <= #[trigger] h[i] <= '9' || 'A' <= h[i]
            <= 'F') by {
            if i < hex_upper(init).len() {
                assert(h[i] == hex_upper(init)[i]);
            }
        }
    }
}

fn hex_digit_str(d: u8) -> (s: &'static str)
    requires
        d < 16,
    ensures
        s@ == seq![hex_digit_upper(d as nat)],
{
    if d < 10 {
        digit_str(d as u64)
    } else if d == 10 {
        proof { reveal_strlit("A"); }
        "A"
    } else if d == 11 {
        proof { reveal_strlit("B"); }
        "B"
    } else if d == 12 {
        proof { reveal_strlit("C"); }
        "C"
    } else if d == 13 {
        proof { reveal_strlit("D"); }
        "D"
    } else if d == 14 {
        proof { reveal_strlit("E"); }
        "E"
    } else {
        proof { reveal_strlit("F"); }
        "F"
    }
}

/// Concatenates the upper-case, zero-padded hexadecimal rendering of each
/// byte, as formatting every byte with `{:02X?}` and joining does.
pub fn bytes_to_hex_upper(bytes: &[u8]) -> (s: String)
    ensures
        s@ == hex_upper(bytes@),
{
    let mut s = String::new();
    let mut i: usize = 0;
    assert(bytes@.take(0) =~= Seq::<u8>::empty());
    while i < bytes.len()
        invariant
            i <= bytes@.len(),
            s@ == hex_upper(bytes@.take(i as int)),
        decreases bytes@.len() - i,
    {
        let b = bytes[i];
        s.append(hex_digit_str(b / 16));
        s.append(hex_digit_str(b % 16));
        assert(bytes@.take(i + 1).drop_last() =~= bytes@.take(i as int));
        i = i + 1;
    }
    assert(bytes@.take(bytes@.len() as int) =~= bytes@);
    s
}

/// Whether two string slices hold the same characters.
pub fn str_equal(a: &str, b: &str) -> (r: bool)
    ensures
        r == (a@ == b@),
{
    let x = a.as_bytes();
    let y = b.as_bytes();
    proof {
        vstd::utf8::encode_utf8_decode_utf8(a@);
        vstd::utf8::encode_utf8_decode_utf8(b@);
    }
    if x.len() != y.len() {
        return false;
    }
    let mut i: usize = 0;
    while i < x.len()
        invariant
            x@ == a.spec_bytes(),
            y@ == b.spec_bytes(),
            x@.len() == y@.len(),
            i <= x@.len(),
            forall|j: int| 0 <= j < i ==> x@[j] == y@[j],
        decreases x@.len() - i,
    {
        if x[i] != y[i] {
            return false;
        }
        i = i + 1;
    }
    assert(x@ =~= y@);
    true
}

/// ASCII `+`.
pub open spec fn plus_byte() -> u8 {
    43
}

/// ASCII `-`.
pub open spec fn minus_byte() -> u8 {
    45
}

/// Whether `b` is an ASCII decimal digit.
pub open spec fn is_dec_digit(b: u8) -> bool {
    48 <= b <= 57
}

/// Whether `b` is an ASCII hexadecimal digit, in either case.
pub open spec fn is_hex_digit(b: u8) -> bool {
    ||| 48 <= b <= 57
    ||| 65 <= b <= 70
    ||| 97 <= b <= 102
}

/// The value of a hexadecimal digit.
pub open spec fn hex_digit_value(b: u8) -> int {
    if 48 <= b <= 57 {
        b - 48
    } else if 65 <= b <= 70 {
        b - 55
    } else {
        b - 87
    }
}

/// Whether every byte is a decimal digit.
pub open spec fn all_dec_digits(s: Seq<u8>) -> bool {
    forall|i: int| 0 <= i < s.len() ==> is_dec_digit(s[i])
}

/// Whether every byte is a hexadecimal digit.
pub open spec fn all_hex_digits(s: Seq<u8>) -> bool {
    forall|i: int| 0 <= i < s.len() ==> is_hex_digit(s[i])
}

/// The text after an optional leading sign.
pub open spec fn after_sign(s: Seq<u8>) -> Seq<u8> {
    if s.len() > 0 && (s[0] == plus_byte() || s[0] == minus_byte()) {
        s.drop_first()
    } else {
        s
    }
}

/// Whether the text starts with `-`.
pub open spec fn starts_negative(s: Seq<u8>) -> bool {
    s.len() > 0 && s[0] == minus_byte()
}

/// The number that a string of decimal digits denotes.
pub open spec fn dec_value(s: Seq<u8>) -> int
    decreases s.len(),
{
    if s.len() == 0 {
        0
    } else {
        dec_value(s.drop_last()) * 10 + (s.last() - 48)
    }
}

/// The number that a string of hexadecimal digits denotes.
pub open spec fn hex_value(s: Seq<u8>) -> int
    decreases s.len(),
{
    if s.len() == 0 {
        0
    } else {
        hex_value(s.drop_last()) * 16 + hex_digit_value(s.last())
    }
}

/// The text after an optional leading `+`.
pub open spec fn after_plus(s: Seq<u8>) -> Seq<u8> {
    if s.len() > 0 && s[0] == plus_byte() {
        s.drop_first()
    } else {
        s
    }
}

/// What `u8::from_str` gives for these bytes: an optional `+` followed by
/// at least one decimal digit, with a value that fits in a `u8`.
pub open spec fn parse_u8_spec(s: Seq<u8>) -> Option<u8> {
    let d = after_plus(s);
    if d.len() > 0 && all_dec_digits(d) && dec_value(d) <= 255 {
        Some(dec_value(d) as u8)
    } else {
        None
    }
}

/// What `i8::from_str` gives for these bytes: an optional sign followed by
/// at least one decimal digit, with a value that fits in an `i8`.
pub open spec fn parse_i8_spec(s: Seq<u8>) -> Option<i8> {
    let d = after_sign(s);
    let v = if starts_negative(s) {
        -dec_value(d)
    } else {
        dec_value(d)
    };
    if d.len() > 0 && all_dec_digits(d) && -128 <= v <= 127 {
        Some(v as i8)
    } else {
        None
    }
}

/// What `u8::from_str_radix(_, 16)` gives for these bytes: an optional `+`
/// followed by at least one hexadecimal digit, with a value that fits in a
/// `u8`.
pub open spec fn parse_hex_u8_spec(s: Seq<u8>) -> Option<u8> {
    let d = after_plus(s);
    if d.len() > 0 && all_hex_digits(d) && hex_value(d) <= 255 {
        Some(hex_value(d) as u8)
    } else {
        None
    }
}

proof fn lemma_dec_value_prefix(s: Seq<u8>, i: int)
    requires
        0 <= i <= s.len(),
        forall|k: int| 0 <= k < s.len() ==> is_dec_digit(s[k]),
    ensures
        0 <= dec_value(s.take(i)) <= dec_value(s),
    decreases s.len() - i,
{
    if i == s.len() {
        assert(s.take(i) =~= s);
        lemma_dec_value_nonneg(s);
    } else {
        lemma_dec_value_prefix(s, i + 1);
        assert(s.take(i + 1).drop_last() =~= s.take(i));
        lemma_dec_value_nonneg(s.take(i));
    }
}

proof fn lemma_dec_value_nonneg(s: Seq<u8>)
    requires
        forall|k: int| 0 <= k < s.len() ==> is_dec_digit(s[k]),
    ensures
        0 <= dec_value(s),
    decreases s.len(),
{
    if s.len() > 0 {
        lemma_dec_value_nonneg(s.drop_last());
    }
}

proof fn lemma_hex_value_prefix(s: Seq<u8>, i: int)
    requires
        0 <= i <= s.len(),
        forall|k: int| 0 <= k < s.len() ==> is_hex_digit(s[k]),
    ensures
        0 <= hex_value(s.take(i)) <= hex_value(s),
    decreases s.len() - i,
{
    if i == s.len() {
        assert(s.take(i) =~= s);
        lemma_hex_value_nonneg(s);
    } else {
        lemma_hex_value_prefix(s, i + 1);
        assert(s.take(i + 1).drop_last() =~= s.take(i));
        lemma_hex_value_nonneg(s.take(i));
    }
}

proof fn lemma_hex_value_nonneg(s: Seq<u8>)
    requires
        forall|k: int| 0 <= k < s.len() ==> is_hex_digit(s[k]),
    ensures
        0 <= hex_value(s),
    decreases s.len(),
{
    if s.len() > 0 {
        lemma_hex_value_nonneg(s.drop_last());
    }
}

/// Reads a run of decimal digits; `None` when one of them is not a digit or
/// when the value exceeds `limit`.
fn dec_digits_up_to(d: &[u8], limit: u32) -> (r: Option<u32>)
    requires
        limit <= 1000,
    ensures
        r matches Some(v) ==> all_dec_digits(d@) && v == dec_value(d@) && v <= limit,
        r is None ==> !all_dec_digits(d@) || dec_value(d@) > limit,
{
    let mut v: u32 = 0;
    let mut i: usize = 0;
    while i < d.len()
        invariant
            i <= d@.len(),
            limit <= 1000,
            forall|k: int| 0 <= k < i ==> is_dec_digit(d@[k]),
            v == dec_value(d@.take(i as int)),
            v <= limit,
        decreases d@.len() - i,
    {
        let b = d[i];
        if b < 48 || b > 57 {
            return None;
        }
        assert(d@.take(i + 1).drop_last() =~= d@.take(i as int));
        let next: u32 = v * 10 + (b - 48) as u32;
        if next > limit {
            proof {
                let prefix = d@.take(i + 1);
                if forall|k: int| 0 <= k < d@.len() ==> is_dec_digit(d@[k]) {
                    lemma_dec_value_prefix(d@, i + 1);
                }
            }
            return None;
        }
        v = next;
        i = i + 1;
    }
    assert(d@.take(d@.len() as int) =~= d@);
    Some(v)
}

/// Reads a run of hexadecimal digits; `None` when one of them is not a
/// digit or when the value exceeds 255.
fn hex_digits_u8(d: &[u8]) -> (r: Option<u8>)
    ensures
        r matches Some(v) ==> all_hex_digits(d@) && v == hex_value(d@),
        r is None ==> !all_hex_digits(d@) || hex_value(d@) > 255,
{
    let mut v: u32 = 0;
    let mut i: usize = 0;
    while i < d.len()
        invariant
            i <= d@.len(),
            forall|k: int| 0 <= k < i ==> is_hex_digit(d@[k]),
            v == hex_value(d@.take(i as int)),
            v <= 255,
        decreases d@.len() - i,
    {
        let b = d[i];
        let digit: u32 = if 48 <= b && b <= 57 {
            (b - 48) as u32
        } else if 65 <= b && b <= 70 {
            (b - 55) as u32
        } else if 97 <= b && b <= 102 {
            (b - 87) as u32
        } else {
            return None;
        };
        assert(d@.take(i + 1).drop_last() =~= d@.take(i as int));
        let next: u32 = v * 16 + digit;
        if next > 255 {
            proof {
                if forall|k: int| 0 <= k < d@.len() ==> is_hex_digit(d@[k]) {
                    lemma_hex_value_prefix(d@, i + 1);
                }
            }
            return None;
        }
        v = next;
        i = i + 1;
    }
    assert(d@.take(d@.len() as int) =~= d@);
    Some(v as u8)
}

/// Parses bytes as `u8::from_str` does.
pub fn parse_u8(s: &[u8]) -> (r: Option<u8>)
    ensures
        r == parse_u8_spec(s@),
{
    let d = if s.len() > 0 && s[0] == 43 {
        &s[1..s.len()]
    } else {
        s
    };
    assert(d@ == after_plus(s@)) by {
        if s@.len() > 0 && s@[0] == plus_byte() {
            assert(s@.subrange(1, s@.len() as int) =~= s@.drop_first());
        }
    }
    if d.len() == 0 {
        return None;
    }
    match dec_digits_up_to(d, 255) {
        Some(v) => Some(v as u8),
        None => None,
    }
}

/// Parses bytes as `i8::from_str` does.
pub fn parse_i8(s: &[u8]) -> (r: Option<i8>)
    ensures
        r == parse_i8_spec(s@),
{
    let negative = s.len() > 0 && s[0] == 45;
    let d = if s.len() > 0 && (s[0] == 43 || s[0] == 45) {
        &s[1..s.len()]
    } else {
        s
    };
    assert(d@ == after_sign(s@)) by {
        if s@.len() > 0 && (s@[0] == plus_byte() || s@[0] == minus_byte()) {
            assert(s@.subrange(1, s@.len() as int) =~= s@.drop_first());
        }
    }
    if d.len() == 0 {
        return None;
    }
    let limit: u32 = if negative {
        128
    } else {
        127
    };
    match dec_digits_up_to(d, limit) {
        Some(v) => {
            if negative {
                let w: i32 = -(v as i32);
                Some(w as i8)
            } else {
                Some(v as i8)
            }
        },
        None => None,
    }
}

/// Parses bytes as `u8::from_str_radix(_, 16)` does.
pub fn parse_hex_u8(s: &[u8]) -> (r: Option<u8>)
    ensures
        r == parse_hex_u8_spec(s@),
{
    let d = if s.len() > 0 && s[0] == 43 {
        &s[1..s.len()]
    } else {
        s
    };
    assert(d@ == after_plus(s@)) by {
        if s@.len() > 0 && s@[0] == plus_byte() {
            assert(s@.subrange(1, s@.len() as int) =~= s@.drop_first());
        }
    }
    if d.len() == 0 {
        return None;
    }
    hex_digits_u8(d)
}

} // verus!
