//! Decimal numbers and UTF-8 text.
use vstd::arithmetic::power::{lemma_pow0, lemma_pow1, lemma_pow_adds, pow};
use vstd::prelude::*;
use vstd::utf8::{decode_utf8, valid_utf8};

verus! {

/// Whether `c` is one of the ten decimal digits.
pub open spec fn is_digit(c: char) -> bool {
    '0' <= c <= '9'
}

/// The decimal digit for a value below ten.
pub open spec fn digit_char(d: nat) -> char {
    (48 + d) as char
}

/// The decimal spelling of `n`, without leading zeros.
pub open spec fn decimal(n: nat) -> Seq<char>
    decreases n,
{
    if n < 10 {
        seq![digit_char(n)]
    } else {
        decimal(n / 10).push(digit_char(n % 10))
    }
}

/// The number that a run of decimal digits spells.
pub open spec fn digits_value(s: Seq<char>) -> nat
    decreases s.len(),
{
    if s.len() == 0 {
        0
    } else {
        10 * digits_value(s.drop_last()) + (s.last() as nat - 48) as nat
    }
}

/// Whether `s` is a non-empty run of decimal digits.
pub open spec fn all_digits(s: Seq<char>) -> bool {
    &&& s.len() > 0
    &&& forall|i: int| 0 <= i < s.len() ==> is_digit(#[trigger] s[i])
}

/// `s` without the `+` sign that an unsigned number may start with.
pub open spec fn without_plus(s: Seq<char>) -> Seq<char> {
    if s.len() > 0 && s[0] == '+' {
        s.skip(1)
    } else {
        s
    }
}

/// The unsigned number that `s` spells: an optional `+` followed by digits.
pub open spec fn unsigned_number(s: Seq<char>) -> Option<nat> {
    if all_digits(without_plus(s)) {
        Some(digits_value(without_plus(s)))
    } else {
        None
    }
}

/// The characters with the code points given by `bytes`.
pub open spec fn latin_text(bytes: Seq<u8>) -> Seq<char> {
    Seq::new(bytes.len(), |i: int| bytes[i] as char)
}

/// Whether `needle` occurs in `text`.
pub open spec fn occurs(needle: Seq<u8>, text: Seq<u8>) -> bool {
    exists|i: int|
        0 <= i <= text.len() - needle.len() && #[trigger] text.subrange(i, i + needle.len())
            == needle
}

/// `String::push` appends one character.
pub assume_specification[ String::push ](s: &mut String, c: char)
    ensures
        final(s)@ == old(s)@.push(c),
;

/// `String::from_utf8` decodes the bytes when they are valid UTF-8 and fails
/// when they are not.
#[verifier::external_body]
pub(crate) fn text_from_utf8(bytes: Vec<u8>) -> (r: Option<String>)
    ensures
        r is Some <==> valid_utf8(bytes@),
        r matches Some(s) ==> s@ == decode_utf8(bytes@),
{
    String::from_utf8(bytes).ok()
}

/// A digit more on the right never makes a number smaller.
pub proof fn digits_value_grows(s: Seq<char>, n: int)
    requires
        0 <= n <= s.len(),
        forall|i: int| 0 <= i < s.len() ==> is_digit(#[trigger] s[i]),
    ensures
        digits_value(s.take(n)) <= digits_value(s),
    decreases s.len() - n,
{
    if n == s.len() {
        assert(s.take(n) =~= s);
    } else {
        digits_value_grows(s, n + 1);
        assert(s.take(n + 1).drop_last() =~= s.take(n));
        assert(s.take(n + 1).last() == s[n]);
        assert(is_digit(s[n]));
    }
}

/// The decimal spelling of a number is a run of digits that spells it again.
pub proof fn decimal_spells(n: nat)
    ensures
        all_digits(decimal(n)),
        digits_value(decimal(n)) == n,
        unsigned_number(decimal(n)) == Some(n),
    decreases n,
{
    let s = decimal(n);
    if n < 10 {
        assert(s.drop_last() =~= Seq::<char>::empty());
        assert(digits_value(s.drop_last()) == 0);
        assert(s[0] == digit_char(n));
        assert(digit_char(n) as nat == 48 + n);
    } else {
        decimal_spells(n / 10);
        let d = digit_char(n % 10);
        assert(d as nat == 48 + n % 10);
        assert(s.drop_last() =~= decimal(n / 10));
        assert(s.last() == d);
        assert forall|i: int| 0 <= i < s.len() implies is_digit(#[trigger] s[i]) by {
            if i < decimal(n / 10).len() {
                assert(s[i] == decimal(n / 10)[i]);
            }
        }
    }
    assert(is_digit(s[0]));
    assert(without_plus(s) == s);
}

/// The digit character for `d`.
fn digit(d: u32) -> (c: char)
    requires
        d < 10,
    ensures
        c == digit_char(d as nat),
{
    (48 + d as u8) as char
}

/// Appends the decimal spelling of `n`.
pub fn push_decimal(out: &mut String, n: u32)
    ensures
        final(out)@ == old(out)@ + decimal(n as nat),
    decreases n,
{
    if n >= 10 {
        push_decimal(out, n / 10);
    }
    out.push(digit(n % 10));
    assert(out@ =~= old(out)@ + decimal(n as nat));
}

/// The decimal spelling of `n`, as `Display` writes it.
pub fn decimal_text(n: u32) -> (s: String)
    ensures
        s@ == decimal(n as nat),
{
    let mut s = String::new();
    push_decimal(&mut s, n);
    assert(s@ =~= decimal(n as nat));
    s
}

/// A single digit stands for its place among the ten digits.
pub proof fn one_digit_is_its_value(c: char)
    requires
        '0' <= c <= '9',
    ensures
        digits_value(seq![c]) == c as nat - '0' as nat,
{
    assert(seq![c].drop_last() =~= Seq::<char>::empty());
    assert(digits_value(seq![c].drop_last()) == 0);
}

/// Digits count by their place: two runs of digits side by side spell the first
/// number shifted by the length of the second run, plus the second number.
pub proof fn digits_count_by_place(a: Seq<char>, b: Seq<char>)
    requires
        forall|i: int| 0 <= i < a.len() ==> '0' <= #[trigger] a[i] <= '9',
        forall|i: int| 0 <= i < b.len() ==> '0' <= #[trigger] b[i] <= '9',
    ensures
        digits_value(a + b) == digits_value(a) * pow(10, b.len()) + digits_value(b),
    decreases b.len(),
{
    if b.len() == 0 {
        lemma_pow0(10);
        assert(a + b =~= a);
    } else {
        let front = b.drop_last();
        digits_count_by_place(a, front);
        assert((a + b).drop_last() =~= a + front);
        assert((a + b).last() == b.last());
        assert('0' <= b[b.len() - 1] <= '9');
        lemma_pow1(10);
        lemma_pow_adds(10, front.len(), 1);
        let (x, y) = (digits_value(a) as int, pow(10, front.len()));
        assert(pow(10, b.len()) == y * 10);
        assert(10 * (x * y) == x * (y * 10)) by (nonlinear_arith);
    }
}

/// The decimal spelling of a number has nothing but digits, and starts with a
/// zero only when it is that zero alone.
pub proof fn decimal_has_no_leading_zero(n: nat)
    ensures
        decimal(n).len() > 0,
        forall|i: int| 0 <= i < decimal(n).len() ==> '0' <= #[trigger] decimal(n)[i] <= '9',
        decimal(n)[0] == '0' ==> n == 0 && decimal(n).len() == 1,
    decreases n,
{
    let s = decimal(n);
    if n < 10 {
        assert(digit_char(n) as nat == 48 + n);
    } else {
        decimal_has_no_leading_zero(n / 10);
        let front = decimal(n / 10);
        assert(digit_char(n % 10) as nat == 48 + n % 10);
        assert(s[0] == front[0]);
        assert forall|i: int| 0 <= i < s.len() implies '0' <= #[trigger] s[i] <= '9' by {
            if i < front.len() {
                assert(s[i] == front[i]);
            }
        }
    }
}

/// A text spells an unsigned number exactly when it is a run of digits, with or
/// without a plus sign before it, and then it spells what the digits do.
pub proof fn numbers_are_runs_of_digits(s: Seq<char>)
    ensures
        (s.len() > 0 && forall|i: int| 0 <= i < s.len() ==> '0' <= #[trigger] s[i] <= '9')
            ==> unsigned_number(s) == Some(digits_value(s)),
        (s.len() > 1 && s[0] == '+' && forall|i: int|
            1 <= i < s.len() ==> '0' <= #[trigger] s[i] <= '9') ==> unsigned_number(s) == Some(
            digits_value(s.subrange(1, s.len() as int)),
        ),
        unsigned_number(s) is Some ==> {
            ||| s.len() > 0 && forall|i: int| 0 <= i < s.len() ==> '0' <= #[trigger] s[i] <= '9'
            ||| s.len() > 1 && s[0] == '+' && forall|i: int|
                1 <= i < s.len() ==> '0' <= #[trigger] s[i] <= '9'
        },
{
    let t = without_plus(s);
    if s.len() > 0 && s[0] == '+' {
        assert(t =~= s.subrange(1, s.len() as int));
        assert forall|i: int| 1 <= i < s.len() implies #[trigger] s[i] == t[i - 1] by {}
        if s.len() > 1 && forall|i: int| 1 <= i < s.len() ==> '0' <= #[trigger] s[i] <= '9' {
            assert forall|i: int| 0 <= i < t.len() implies is_digit(#[trigger] t[i]) by {
                assert(t[i] == s[i + 1]);
            }
        }
        if all_digits(t) {
            assert forall|i: int| 1 <= i < s.len() implies '0' <= #[trigger] s[i] <= '9' by {
                assert(is_digit(t[i - 1]));
            }
        }
    } else {
        assert(t == s);
        if all_digits(t) {
            assert forall|i: int| 0 <= i < s.len() implies '0' <= #[trigger] s[i] <= '9' by {
                assert(is_digit(t[i]));
            }
        }
    }
}

/// Bytes as text: one character for each byte, with the byte as its code point.
pub proof fn latin_text_keeps_every_byte(bytes: Seq<u8>)
    ensures
        latin_text(bytes).len() == bytes.len(),
        forall|i: int|
            0 <= i < bytes.len() ==> (#[trigger] latin_text(bytes)[i]) as u32 == bytes[i] as u32,
{
}

/// Something occurs in a text exactly when the text can be parted before and
/// after it.
pub proof fn occurrences_part_the_text(needle: Seq<u8>, text: Seq<u8>)
    ensures
        forall|before: Seq<u8>, after: Seq<u8>|
            text == #[trigger] (before + needle + after) ==> occurs(needle, text),
        occurs(needle, text) ==> exists|before: Seq<u8>, after: Seq<u8>|
            text == #[trigger] (before + needle + after),
{
    assert forall|before: Seq<u8>, after: Seq<u8>|
        text == #[trigger] (before + needle + after) implies occurs(needle, text) by {
        let i = before.len() as int;
        assert(text.subrange(i, i + needle.len()) =~= needle);
    }
    if occurs(needle, text) {
        let i = choose|i: int|
            0 <= i <= text.len() - needle.len() && #[trigger] text.subrange(i, i + needle.len())
                == needle;
        let before = text.subrange(0, i);
        let after = text.subrange(i + needle.len(), text.len() as int);
        assert(text =~= before + text.subrange(i, i + needle.len()) + after);
        assert(text == before + needle + after);
    }
}

} // verus!
