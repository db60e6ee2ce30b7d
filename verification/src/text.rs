//! Building the texts that errors carry.

use vstd::prelude::*;
use vstd::string::*;
use vstd::utf8::*;

verus! {

/// The character of a decimal digit.
pub open spec fn digit(d: nat) -> char {
    if d == 0 {
        '0'
    } else if d == 1 {
        '1'
    } else if d == 2 {
        '2'
    } else if d == 3 {
        '3'
    } else if d == 4 {
        '4'
    } else if d == 5 {
        '5'
    } else if d == 6 {
        '6'
    } else if d == 7 {
        '7'
    } else if d == 8 {
        '8'
    } else {
        '9'
    }
}

/// A natural number in decimal, without leading zeros.
pub open spec fn decimal(n: nat) -> Seq<char>
    decreases n,
{
    if n < 10 {
        seq![digit(n)]
    } else {
        decimal(n / 10).push(digit(n % 10))
    }
}

/// An integer in decimal, with a minus sign where it is negative.
pub open spec fn decimal_int(i: int) -> Seq<char> {
    if i < 0 {
        seq!['-'] + decimal((-i) as nat)
    } else {
        decimal(i as nat)
    }
}

/// The text of one decimal digit.
fn digit_str(d: u64) -> (s: &'static str)
    requires
        d < 10,
    ensures
        s@ == seq![digit(d as nat)],
{
    proof {
        reveal_strlit("0");
        reveal_strlit("1");
        reveal_strlit("2");
        reveal_strlit("3");
        reveal_strlit("4");
        reveal_strlit("5");
        reveal_strlit("6");
        reveal_strlit("7");
        reveal_strlit("8");
        reveal_strlit("9");
    }
    let s = match d {
        0 => "0",
        1 => "1",
        2 => "2",
        3 => "3",
        4 => "4",
        5 => "5",
        6 => "6",
        7 => "7",
        8 => "8",
        _ => "9",
    };
    assert(s@ =~= seq![digit(d as nat)]);
    s
}

/// Appends a number in decimal.
pub fn push_decimal(out: &mut String, n: u64)
    ensures
        final(out)@ == old(out)@ + decimal(n as nat),
    decreases n,
{
    if n < 10 {
        out.append(digit_str(n));
    } else {
        push_decimal(out, n / 10);
        out.append(digit_str(n % 10));
        assert(out@ =~= old(out)@ + decimal(n as nat));
    }
}

/// A number in decimal.
pub fn decimal_u64(n: u64) -> (s: String)
    ensures
        s@ == decimal(n as nat),
{
    let mut s = String::new();
    push_decimal(&mut s, n);
    assert(s@ =~= decimal(n as nat));
    s
}

/// A signed number in decimal.
pub fn decimal_i64(i: i64) -> (s: String)
    ensures
        s@ == decimal_int(i as int),
{
    let mut s = String::new();
    if i == i64::MIN {
        proof {
            reveal_strlit("-");
        }
        s.append("-");
        push_decimal(&mut s, 9223372036854775808u64);
        assert(s@ =~= decimal_int(i as int));
    } else if i < 0 {
        proof {
            reveal_strlit("-");
        }
        s.append("-");
        push_decimal(&mut s, (-i) as u64);
        assert(s@ =~= decimal_int(i as int));
    } else {
        push_decimal(&mut s, i as u64);
        assert(s@ =~= decimal_int(i as int));
    }
    s
}

/// What is said of bytes that are not UTF-8.
pub uninterp spec fn utf8_complaint(bytes: Seq<u8>) -> Seq<char>;

/// The text that the bytes encode, where they are UTF-8, and what is wrong with them otherwise.
///
/// Calls `std::str::from_utf8`. Believed of it: it accepts the byte sequences that are UTF-8 and
/// no others, what it returns is the text that they encode, and the text of its error depends on
/// the bytes alone.
#[verifier::external_body]
pub(crate) fn text_of_utf8(bytes: &[u8]) -> (r: Result<String, String>)
    ensures
        r is Ok <==> valid_utf8(bytes@),
        r matches Ok(s) ==> s@ == decode_utf8(bytes@),
        r matches Err(e) ==> e@ == utf8_complaint(bytes@),
{
    match std::str::from_utf8(bytes) {
        Ok(s) => Ok(s.to_owned()),
        Err(e) => Err(e.to_string()),
    }
}

/// The text that bytes stand for when what is not UTF-8 in them is replaced.
pub uninterp spec fn lossy_text(bytes: Seq<u8>) -> Seq<char>;

/// The text that bytes are read as: the one that they encode, or where they are not UTF-8 one with
/// replacements.
pub open spec fn text_read(bytes: Seq<u8>) -> Seq<char> {
    if valid_utf8(bytes) {
        decode_utf8(bytes)
    } else {
        lossy_text(bytes)
    }
}

/// The text that the bytes stand for, with replacements for what is not UTF-8.
///
/// Calls `String::from_utf8_lossy`. Believed of it: the text depends on the bytes alone, and is
/// the text that they encode where they are UTF-8. What stands for other bytes is not said.
#[verifier::external_body]
pub(crate) fn text_of_lossy(bytes: &[u8]) -> (r: String)
    ensures
        r@ == lossy_text(bytes@),
        valid_utf8(bytes@) ==> r@ == decode_utf8(bytes@),
{
    String::from_utf8_lossy(bytes).into_owned()
}

/// The bytes of a text in UTF-8.
pub fn utf8_bytes(s: &str) -> (r: Vec<u8>)
    ensures
        r@ == encode_utf8(s@),
{
    let bytes = s.as_bytes();
    copy_bytes(bytes)
}

/// A copy of some bytes.
pub fn copy_bytes(bytes: &[u8]) -> (r: Vec<u8>)
    ensures
        r@ == bytes@,
{
    let mut r: Vec<u8> = Vec::new();
    let mut i: usize = 0;
    while i < bytes.len()
        invariant
            i <= bytes@.len(),
            r@ == bytes@.take(i as int),
        decreases bytes@.len() - i,
    {
        r.push(bytes[i]);
        i += 1;
        assert(r@ =~= bytes@.take(i as int));
    }
    assert(r@ =~= bytes@);
    r
}

/// How many units a text has in UTF-16.
pub open spec fn utf16_len(s: Seq<char>) -> nat
    decreases s.len(),
{
    if s.len() == 0 {
        0
    } else {
        utf16_len(s.drop_first()) + if s[0] as u32 >= 0x10000u32 {
            2nat
        } else {
            1nat
        }
    }
}

/// A text has no more units in UTF-16 than bytes in UTF-8.
proof fn lemma_utf16_len_bound(s: Seq<char>)
    ensures
        utf16_len(s) <= encode_utf8(s).len(),
    decreases s.len(),
{
    if s.len() > 0 {
        lemma_utf16_len_bound(s.drop_first());
    }
}

/// How many units a text has in UTF-16.
pub fn utf16_units(s: &str) -> (r: usize)
    ensures
        r == utf16_len(s@),
{
    broadcast use axiom_spec_iter;

    let bytes = s.as_bytes();
    let limit = bytes.len();
    proof {
        lemma_utf16_len_bound(s@);
        assert(s@.skip(0) =~= s@);
    }
    let mut n: usize = 0;
    for c in iter: s.chars()
        invariant
            iter.seq() == s@,
            n + utf16_len(s@.skip(iter.index() as int)) == utf16_len(s@),
            utf16_len(s@) <= limit,
    {
        assert(s@.skip(iter.index() as int).drop_first() =~= s@.skip(iter.index() as int + 1));
        if c as u32 >= 0x10000 {
            n += 2;
        } else {
            n += 1;
        }
    }
    n
}

/// Two texts, one behind the other.
pub fn join(a: &str, b: &str) -> (s: String)
    ensures
        s@ == a@ + b@,
{
    let mut s = String::from_str(a);
    s.append(b);
    s
}

/// Three texts, one behind the other.
pub fn join3(a: &str, b: &str, c: &str) -> (s: String)
    ensures
        s@ == a@ + b@ + c@,
{
    let mut s = String::from_str(a);
    s.append(b);
    s.append(c);
    s
}

/// Four texts, one behind the other.
pub fn join4(a: &str, b: &str, c: &str, d: &str) -> (s: String)
    ensures
        s@ == a@ + b@ + c@ + d@,
{
    let mut s = String::from_str(a);
    s.append(b);
    s.append(c);
    s.append(d);
    s
}

/// Whether a character is a decimal digit.
pub open spec fn is_digit(c: char) -> bool {
    '0' <= c <= '9'
}

/// The number that some digits are.
pub open spec fn digits_value(s: Seq<char>) -> nat
    decreases s.len(),
{
    if s.len() == 0 {
        0
    } else {
        digits_value(s.drop_last()) * 10 + (s.last() as u32 - '0' as u32) as nat
    }
}

/// The integer that a text is: digits, with a sign in front of them or without one.
pub open spec fn integer_value(s: Seq<char>) -> Option<int> {
    if s.len() > 0 && s[0] == '-' {
        match natural_value(s.skip(1)) {
            Some(n) => Some(-n),
            None => None,
        }
    } else if s.len() > 0 && s[0] == '+' {
        natural_value(s.skip(1))
    } else {
        natural_value(s)
    }
}

/// The integer that a text of digits is.
pub open spec fn natural_value(s: Seq<char>) -> Option<int> {
    if s.len() > 0 && (forall|i: int| 0 <= i < s.len() ==> is_digit(#[trigger] s[i])) {
        Some(digits_value(s) as int)
    } else {
        None
    }
}

/// The characters of a text.
pub fn chars_of(s: &str) -> (r: Vec<char>)
    ensures
        r@ == s@,
{
    broadcast use axiom_spec_iter;

    let mut r: Vec<char> = Vec::new();
    for c in iter: s.chars()
        invariant
            iter.seq() == s@,
            r@ == s@.take(iter.index() as int),
    {
        r.push(c);
        assert(r@ =~= s@.take(iter.index() as int + 1));
    }
    assert(r@ =~= s@);
    r
}

/// The largest amount that a 64-bit integer can have.
const I64_AMOUNT: u64 = 9223372036854775808;

/// The number that the digits from `start` on are. There is none where they are not digits, or
/// none at all. A number that no 64-bit integer can have the amount of is given as the largest.
fn natural_at(chars: &Vec<char>, start: usize) -> (r: Option<u64>)
    requires
        start <= chars@.len(),
    ensures
        r is Some <==> natural_value(chars@.skip(start as int)) is Some,
        r matches Some(n) ==> {
            let v = natural_value(chars@.skip(start as int))->0;
            if v <= I64_AMOUNT {
                n == v
            } else {
                n == u64::MAX
            }
        },
{
    let ghost s = chars@.skip(start as int);
    if start == chars.len() {
        return None;
    }
    let mut n: u64 = 0;
    let mut i: usize = start;
    while i < chars.len()
        invariant
            start <= i <= chars@.len(),
            s == chars@.skip(start as int),
            forall|k: int| 0 <= k < i - start ==> is_digit(#[trigger] s[k]),
            digits_value(s.take(i - start)) <= I64_AMOUNT ==> n == digits_value(s.take(i - start)),
            digits_value(s.take(i - start)) > I64_AMOUNT ==> n == u64::MAX,
        decreases chars@.len() - i,
    {
        let c = chars[i];
        assert(s[i - start] == c);
        if c < '0' || c > '9' {
            assert(!is_digit(s[i - start]));
            return None;
        }
        let d: u64 = (c as u32 - '0' as u32) as u64;
        assert(s.take(i - start + 1).drop_last() =~= s.take(i - start));
        assert(s.take(i - start + 1).last() == c);
        if n > I64_AMOUNT / 10 {
            n = u64::MAX;
        } else {
            n = n * 10 + d;
            if n > I64_AMOUNT {
                n = u64::MAX;
            }
        }
        i += 1;
    }
    assert(s.take(i - start) =~= s);
    Some(n)
}

/// The 64-bit integer that a text is, where it is one.
pub fn parse_i64(s: &str) -> (r: Option<i64>)
    ensures
        r is Some <==> (integer_value(s@) matches Some(v) && i64::MIN <= v <= i64::MAX),
        r matches Some(i) ==> integer_value(s@) == Some(i as int),
{
    let chars = chars_of(s);
    if chars.len() > 0 && chars[0] == '-' {
        match natural_at(&chars, 1) {
            Some(n) => if n < I64_AMOUNT {
                Some(-(n as i64))
            } else if n == I64_AMOUNT {
                Some(i64::MIN)
            } else {
                None
            },
            None => None,
        }
    } else {
        let start: usize = if chars.len() > 0 && chars[0] == '+' {
            1
        } else {
            0
        };
        assert(chars@.skip(0) =~= chars@);
        match natural_at(&chars, start) {
            Some(n) => if n < I64_AMOUNT {
                Some(n as i64)
            } else {
                None
            },
            None => None,
        }
    }
}

proof fn lemma_decimal_digits(n: nat)
    ensures
        decimal(n).len() > 0,
        forall|i: int| 0 <= i < decimal(n).len() ==> is_digit(#[trigger] decimal(n)[i]),
        digits_value(decimal(n)) == n,
    decreases n,
{
    if n < 10 {
        let s = seq![digit(n)];
        assert(s.drop_last() =~= Seq::empty());
        assert(digits_value(Seq::empty()) == 0);
    } else {
        lemma_decimal_digits(n / 10);
        let head = decimal(n / 10);
        assert(decimal(n) == head.push(digit(n % 10)));
        assert(decimal(n).drop_last() =~= head);
        assert forall|i: int| 0 <= i < decimal(n).len() implies is_digit(
            #[trigger] decimal(n)[i],
        ) by {
            if i < head.len() {
                assert(is_digit(head[i]));
            }
        }
    }
}

/// An integer that is written in decimal is read as that integer.
pub proof fn law_decimal_is_read_back(i: int)
    ensures
        integer_value(decimal_int(i)) == Some(i),
{
    if i < 0 {
        let n = (-i) as nat;
        lemma_decimal_digits(n);
        assert(decimal_int(i).skip(1) =~= decimal(n));
    } else {
        lemma_decimal_digits(i as nat);
        assert(is_digit(decimal(i as nat)[0]));
    }
}

/// A text is as long in UTF-16 as its parts are together, and a character takes two units where it
/// lies beyond the first 65536, and else one.
pub proof fn law_utf16_length_adds_up(s: Seq<char>, c: char)
    ensures
        utf16_len(Seq::empty()) == 0,
        utf16_len(s.push(c)) == utf16_len(s) + if c as u32 > 0xffffu32 {
            2nat
        } else {
            1nat
        },
    decreases s.len(),
{
    if s.len() == 0 {
        reveal_with_fuel(utf16_len, 2);
        assert(s.push(c).drop_first() =~= s);
    } else {
        law_utf16_length_adds_up(s.drop_first(), c);
        assert(s.push(c).drop_first() =~= s.drop_first().push(c));
    }
}

/// The decimal text of a number below ten is its digit, one digit more at the end makes ten times the
/// number and the digit, and a minus sign stands before the text of a negative number.
pub proof fn law_decimal_digits(n: nat, d: nat)
    requires
        d < 10,
    ensures
        decimal(d) == seq![('0' as u32 + d) as char],
        n > 0 ==> decimal(10 * n + d) == decimal(n).push(('0' as u32 + d) as char),
        decimal_int(n as int) == decimal(n),
        n > 0 ==> decimal_int(-(n as int)) == seq!['-'] + decimal(n),
{
    assert((10 * n + d) / 10 == n);
    assert((10 * n + d) % 10 == d);
}

/// A text of digits is read as the number of which it is the decimal text: one digit more at the end
/// makes ten times the number and the digit. A sign before it counts, and nothing else is read.
pub proof fn law_integer_is_read_by_its_digits(s: Seq<char>, d: nat)
    requires
        d < 10,
    ensures
        integer_value(seq![('0' as u32 + d) as char]) == Some(d as int),
        (s.len() > 0 && forall|i: int| 0 <= i < s.len() ==> '0' <= #[trigger] s[i] <= '9') ==> {
            let more = s.push(('0' as u32 + d) as char);
            &&& integer_value(s) matches Some(n)
            &&& n >= 0
            &&& integer_value(more) == Some(10 * n + d)
            &&& integer_value(seq!['-'] + s) == Some(-n)
            &&& integer_value(seq!['+'] + s) == Some(n)
        },
        integer_value(Seq::empty()) is None,
        (s.len() > 0 && s[0] != '-' && s[0] != '+' && exists|i: int|
            0 <= i < s.len() && !('0' <= #[trigger] s[i] <= '9')) ==> integer_value(s) is None,
{
    let c = ('0' as u32 + d) as char;
    let one = seq![c];
    assert(one[0] == c);
    assert('0' <= c <= '9');
    reveal_with_fuel(digits_value, 2);
    assert(one.drop_last() =~= Seq::empty());
    assert(digits_value(one) == d);
    if s.len() > 0 && forall|i: int| 0 <= i < s.len() ==> '0' <= #[trigger] s[i] <= '9' {
        let more = s.push(c);
        assert('0' <= s[0] <= '9');
        assert(more[0] == s[0]);
        assert forall|i: int| 0 <= i < more.len() implies is_digit(#[trigger] more[i]) by {
            if i < s.len() {
                assert(more[i] == s[i]);
            }
        }
        assert forall|i: int| 0 <= i < s.len() implies is_digit(#[trigger] s[i]) by {}
        assert(more.drop_last() =~= s);
        assert((seq!['-'] + s).skip(1) =~= s);
        assert((seq!['+'] + s).skip(1) =~= s);
    }
    if s.len() > 0 && s[0] != '-' && s[0] != '+' && exists|i: int|
        0 <= i < s.len() && !('0' <= #[trigger] s[i] <= '9') {
        let i = choose|i: int| 0 <= i < s.len() && !('0' <= #[trigger] s[i] <= '9');
        assert(!is_digit(s[i]));
    }
}

} // verus!
