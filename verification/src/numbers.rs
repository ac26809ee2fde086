//! Decimal numerals.

use vstd::prelude::*;

use crate::text::chars_of;

verus! {

/// The numeral of the digit `d`.
pub open spec fn digit_char(d: int) -> char {
    (('0' as int) + d) as char
}

/// `c` is a decimal digit.
pub open spec fn is_digit(c: char) -> bool {
    '0' <= c <= '9'
}

/// The decimal numeral of `n`, without leading zeros.
pub open spec fn decimal_text(n: nat) -> Seq<char>
    decreases n,
{
    if n < 10 {
        seq![digit_char(n as int)]
    } else {
        decimal_text(n / 10).push(digit_char((n % 10) as int))
    }
}

/// Every character of `s` is a decimal digit.
pub open spec fn all_digits(s: Seq<char>) -> bool {
    forall|i: int| 0 <= i < s.len() ==> is_digit(#[trigger] s[i])
}

/// The number that a row of digits stands for.
pub open spec fn digits_value(s: Seq<char>) -> nat
    decreases s.len(),
{
    if s.len() == 0 {
        0
    } else {
        (10 * digits_value(s.drop_last()) + (s.last() as int - '0' as int)) as nat
    }
}

/// The digits of an unsigned numeral, which a `+` may precede.
pub open spec fn unsigned_digits(s: Seq<char>) -> Seq<char> {
    if s.len() > 0 && s[0] == '+' {
        s.skip(1)
    } else {
        s
    }
}

/// The `u64` that `s` denotes: an optional `+` and at least one digit, in range.
pub open spec fn u64_value(s: Seq<char>) -> Option<u64> {
    let digits = unsigned_digits(s);
    if digits.len() > 0 && all_digits(digits) && digits_value(digits) <= u64::MAX {
        Some(digits_value(digits) as u64)
    } else {
        None
    }
}

/// A prefix of a row of digits stands for no more than the whole row.
proof fn lemma_prefix_value(s: Seq<char>, i: int)
    requires
        all_digits(s),
        0 <= i <= s.len(),
    ensures
        digits_value(s.take(i)) <= digits_value(s),
    decreases s.len() - i,
{
    if i == s.len() {
        assert(s.take(i) =~= s);
    } else {
        assert(s.take(i + 1).drop_last() =~= s.take(i));
        assert(is_digit(s[i]));
        lemma_prefix_value(s, i + 1);
    }
}

/// The numeral of `n` is a row of digits that stands for `n`.
pub proof fn lemma_decimal_text(n: nat)
    ensures
        decimal_text(n).len() > 0,
        all_digits(decimal_text(n)),
        digits_value(decimal_text(n)) == n,
    decreases n,
{
    if n < 10 {
        let s = decimal_text(n);
        assert(s.drop_last() =~= Seq::<char>::empty());
        assert(digits_value(s.drop_last()) == 0);
    } else {
        lemma_decimal_text(n / 10);
        let head = decimal_text(n / 10);
        assert(decimal_text(n).drop_last() =~= head);
    }
}

/// Reading back the numeral of any `u64` gives that number.
pub proof fn decimal_round_trip(n: u64)
    ensures
        u64_value(decimal_text(n as nat)) == Some(n),
{
    lemma_decimal_text(n as nat);
    let s = decimal_text(n as nat);
    assert(is_digit(s[0]));
    assert(unsigned_digits(s) == s);
}

/// The decimal numeral of `n`.
pub fn decimal(n: u64) -> (r: String)
    ensures
        r@ == decimal_text(n as nat),
    decreases n,
{
    if n < 10 {
        let mut out = String::new();
        out.push(((n as u8) + 48) as char);
        assert(out@ =~= decimal_text(n as nat));
        out
    } else {
        let mut out = decimal(n / 10);
        out.push((((n % 10) as u8) + 48) as char);
        out
    }
}

/// Reads an unsigned numeral: an optional `+` and at least one digit.
pub fn parse_u64(s: &str) -> (r: Option<u64>)
    ensures
        r == u64_value(s@),
{
    let cs = chars_of(s);
    let n: usize = cs.len();
    let start: usize = if n > 0 && cs[0] == '+' { 1 } else { 0 };
    let ghost digits = unsigned_digits(s@);
    assert(digits =~= s@.skip(start as int));
    if start == n {
        return None;
    }
    let mut value: u64 = 0;
    let mut i: usize = start;
    while i < n
        invariant
            start <= i <= n,
            n == cs@.len(),
            cs@ == s@,
            digits == s@.skip(start as int),
            digits == unsigned_digits(s@),
            all_digits(digits.take(i - start)),
            value == digits_value(digits.take(i - start)),
        decreases n - i,
    {
        let c = cs[i];
        assert(digits[i - start] == c);
        if !('0' <= c && c <= '9') {
            assert(!is_digit(digits[i - start]));
            return None;
        }
        let d: u64 = ((c as u8) - 48) as u64;
        proof {
            let longer = digits.take(i + 1 - start);
            assert(longer.drop_last() =~= digits.take(i - start));
            if all_digits(digits) {
                lemma_prefix_value(digits, i + 1 - start);
            }
        }
        match value.checked_mul(10) {
            Some(tenfold) => match tenfold.checked_add(d) {
                Some(sum) => {
                    value = sum;
                },
                None => {
                    return None;
                },
            },
            None => {
                return None;
            },
        }
        i = i + 1;
    }
    assert(digits.take(n - start) =~= digits);
    Some(value)
}

/// Numerals are read place by place: one more digit is ten times the number and
/// the digit; a plus sign in front changes nothing; and nothing else is read.
pub proof fn numerals_are_read_by_place(s: Seq<char>, c: char, i: int)
    ensures
        is_digit(c) <==> 48 <= c as int <= 57,
        is_digit(c) ==> u64_value(seq![c]) == Some((c as int - 48) as u64),
        is_digit(c) && s.len() > 0 && s[0] != '+' ==> match u64_value(s) {
            Some(n) => if 10 * n + (c as int - 48) <= u64::MAX {
                u64_value(s.push(c)) == Some((10 * n + (c as int - 48)) as u64)
            } else {
                u64_value(s.push(c)) is None
            },
            None => u64_value(s.push(c)) is None,
        },
        s.len() > 0 && s[0] != '+' ==> u64_value(seq!['+'] + s) == u64_value(s),
        u64_value(Seq::empty()) is None,
        u64_value(seq!['+']) is None,
        0 <= i < s.len() && !is_digit(s[i]) && !(i == 0 && s[0] == '+') ==> u64_value(s) is None,
{
    if is_digit(c) {
        assert(seq![c].drop_last() =~= Seq::empty());
        assert(digits_value(Seq::empty()) == 0);
        assert(seq![c].last() == c);
        if s.len() > 0 && s[0] != '+' {
            let t = s.push(c);
            assert(t.drop_last() =~= s);
            assert(t[0] == s[0]);
            if all_digits(s) {
                assert forall|j: int| 0 <= j < t.len() implies is_digit(#[trigger] t[j]) by {
                    if j < s.len() {
                        assert(t[j] == s[j]);
                    }
                }
            } else {
                let j = choose|j: int| 0 <= j < s.len() && !is_digit(#[trigger] s[j]);
                assert(t[j] == s[j]);
                assert(!all_digits(t));
            }
        }
    }
    if s.len() > 0 && s[0] != '+' {
        assert((seq!['+'] + s).skip(1) =~= s);
    }
    assert(seq!['+'].skip(1) =~= Seq::empty());
    if 0 <= i < s.len() && !is_digit(s[i]) && !(i == 0 && s[0] == '+') {
        if s[0] == '+' {
            assert(s.skip(1)[i - 1] == s[i]);
            assert(!all_digits(s.skip(1)));
        } else {
            assert(!all_digits(s));
        }
    }
}

/// The numeral of a number with more digits is that of its tenth and its last
/// digit; a single digit stands for itself. No numeral begins with a zero but
/// that of zero.
pub proof fn numerals_are_written_by_place(n: nat)
    ensures
        n < 10 ==> decimal_text(n).len() == 1 && decimal_text(n)[0] as int == 48 + n,
        n >= 10 ==> decimal_text(n) == decimal_text(n / 10).push(
            decimal_text(n)[decimal_text(n).len() - 1],
        ) && decimal_text(n)[decimal_text(n).len() - 1] as int == 48 + n % 10,
        n > 0 ==> decimal_text(n)[0] != '0',
    decreases n,
{
    if n >= 10 {
        numerals_are_written_by_place(n / 10);
        lemma_decimal_text(n / 10);
    }
}

} // verus!
