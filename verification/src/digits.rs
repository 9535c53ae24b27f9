//! Decimal numbers as text.

use vstd::prelude::*;

use crate::chars::{to_chars, to_text};

verus! {

pub open spec fn is_digit(c: char) -> bool {
    '0' <= c <= '9'
}

pub open spec fn digit_value(c: char) -> nat {
    (c as u32 - '0' as u32) as nat
}

pub open spec fn digit_char(d: nat) -> char {
    ('0' as u32 + d) as char
}

/// The decimal form of `n`, without leading zeros.
pub open spec fn decimal(n: nat) -> Seq<char>
    decreases n,
{
    if n < 10 {
        seq![digit_char(n)]
    } else {
        decimal(n / 10).push(digit_char(n % 10))
    }
}

pub open spec fn all_digits(s: Seq<char>) -> bool {
    forall|i: int| 0 <= i < s.len() ==> is_digit(#[trigger] s[i])
}

/// The number that a row of digits stands for.
pub open spec fn digits_value(s: Seq<char>) -> nat
    decreases s.len(),
{
    if s.len() == 0 {
        0
    } else {
        digits_value(s.drop_last()) * 10 + digit_value(s.last())
    }
}

/// The number that `s` stands for: an optional plus sign, then digits and
/// nothing else, at least one of them, for a value that a `usize` can hold.
pub open spec fn parsed_usize(s: Seq<char>) -> Option<usize> {
    let body = if s.len() > 0 && s[0] == '+' {
        s.drop_first()
    } else {
        s
    };
    if body.len() > 0 && all_digits(body) && digits_value(body) <= usize::MAX {
        Some(digits_value(body) as usize)
    } else {
        None
    }
}

proof fn lemma_value_grows(s: Seq<char>, i: int)
    requires
        0 <= i <= s.len(),
    ensures
        digits_value(s.take(i)) <= digits_value(s),
    decreases s.len() - i,
{
    if i < s.len() {
        lemma_value_grows(s, i + 1);
        assert(s.take(i + 1).drop_last() =~= s.take(i));
    } else {
        assert(s.take(i) =~= s);
    }
}

/// The number that `chars` stands for, if it is one.
pub fn parse_usize(chars: &[char]) -> (r: Option<usize>)
    ensures
        r == parsed_usize(chars@),
{
    let n: usize = chars.len();
    let from: usize = if n > 0 && chars[0] == '+' {
        1
    } else {
        0
    };
    let ghost body = chars@.skip(from as int);
    assert(from == 1 ==> body =~= chars@.drop_first());
    assert(from == 0 ==> body =~= chars@);
    if from == n {
        return None;
    }
    let mut value: usize = 0;
    assert(body.take(0) =~= Seq::<char>::empty());
    for i in from..n
        invariant
            n == chars@.len(),
            from <= n,
            body == chars@.skip(from as int),
            all_digits(body.take(i - from)),
            value == digits_value(body.take(i - from)),
            from < n,
            parsed_usize(chars@) == (if all_digits(body) && digits_value(body) <= usize::MAX {
                Some(digits_value(body) as usize)
            } else {
                None
            }),
    {
        let c = chars[i];
        assert(body[i - from] == c);
        assert(body.take(i + 1 - from).drop_last() =~= body.take(i - from));
        if c < '0' || c > '9' {
            return None;
        }
        assert forall|k: int| 0 <= k < i + 1 - from implies is_digit(
            #[trigger] body.take(i + 1 - from)[k],
        ) by {
            if k < i - from {
                assert(body.take(i + 1 - from)[k] == body.take(i - from)[k]);
            }
        }
        let d: usize = (c as u32 - '0' as u32) as usize;
        proof {
            lemma_value_grows(body, i + 1 - from);
        }
        match value.checked_mul(10) {
            Some(tens) => match tens.checked_add(d) {
                Some(v) => {
                    value = v;
                },
                None => {
                    return None;
                },
            },
            None => {
                return None;
            },
        }
    }
    assert(body.take(n - from) =~= body);
    Some(value)
}

/// The decimal form of `n`.
pub fn decimal_chars(n: usize) -> (r: Vec<char>)
    ensures
        r@ == decimal(n as nat),
    decreases n,
{
    let d: u8 = (n % 10) as u8;
    let c: char = (48u8 + d) as char;
    assert(c == digit_char((n % 10) as nat));
    if n < 10 {
        let mut out: Vec<char> = Vec::new();
        out.push(c);
        out
    } else {
        let mut out = decimal_chars(n / 10);
        out.push(c);
        out
    }
}

/// The decimal form of a number reads back as that number, and consists of
/// digits only.
pub proof fn law_decimal_reads_back(n: nat)
    ensures
        all_digits(decimal(n)),
        decimal(n).len() > 0,
        digits_value(decimal(n)) == n,
    decreases n,
{
    if n < 10 {
        let s = decimal(n);
        assert(s.drop_last() =~= Seq::<char>::empty());
        assert(digits_value(s.drop_last()) == 0);
    } else {
        law_decimal_reads_back(n / 10);
        let s = decimal(n);
        assert(s.drop_last() =~= decimal(n / 10));
        assert forall|i: int| 0 <= i < s.len() implies is_digit(#[trigger] s[i]) by {
            if i < s.len() - 1 {
                assert(s[i] == decimal(n / 10)[i]);
            }
        }
    }
}

/// Different numbers have different decimal forms.
pub proof fn law_decimal_injective(m: nat, n: nat)
    requires
        decimal(m) == decimal(n),
    ensures
        m == n,
{
    law_decimal_reads_back(m);
    law_decimal_reads_back(n);
}

/// A name with a number behind it.
pub fn numbered(name: &str, n: usize) -> (r: String)
    ensures
        r@ == name@ + decimal(n as nat),
{
    let mut chars = to_chars(name);
    let digits = decimal_chars(n);
    for i in 0..digits.len()
        invariant
            chars@ == name@ + digits@.take(i as int),
    {
        chars.push(digits[i]);
        assert(chars@ =~= name@ + digits@.take(i + 1));
    }
    assert(digits@.take(digits@.len() as int) =~= digits@);
    to_text(&chars)
}

/// Numbered names are the same only where the numbers are.
pub proof fn law_numbered_names_differ(name: Seq<char>, m: nat, n: nat)
    requires
        name + decimal(m) == name + decimal(n),
    ensures
        m == n,
{
    let a = name + decimal(m);
    let b = name + decimal(n);
    assert(a.skip(name.len() as int) =~= decimal(m));
    assert(b.skip(name.len() as int) =~= decimal(n));
    law_decimal_injective(m, n);
}

/// A `usize` written in decimal parses to itself.
pub proof fn law_parse_usize_of_decimal(n: usize)
    ensures
        parsed_usize(decimal(n as nat)) == Some(n),
{
    law_decimal_reads_back(n as nat);
    assert(is_digit(decimal(n as nat)[0]));
}

/// Numbers are written with the ten digits, the tens before the ones.
pub proof fn law_decimal_is_written_digit_by_digit(n: nat, d: nat)
    requires
        d < 10,
    ensures
        decimal(d) == seq!["0123456789"@[d as int]],
        n > 0 ==> decimal(10 * n + d) == decimal(n).push("0123456789"@[d as int]),
{
    reveal_strlit("0123456789");
    assert(digit_char(d) == "0123456789"@[d as int]);
    if n > 0 {
        assert((10 * n + d) / 10 == n && (10 * n + d) % 10 == d);
    }
}

/// Numbers are read digit by digit: one more digit makes ten times the number and
/// the digit, where a `usize` can hold that; any other character, and a number
/// that is too large, spoil what went before. A plus sign in front counts for
/// nothing, and there must be a digit.
pub proof fn law_numbers_are_read_digit_by_digit(s: Seq<char>, d: nat, c: char)
    requires
        d < 10,
    ensures
        parsed_usize(seq!["0123456789"@[d as int]]) == Some(d as usize),
        parsed_usize(s) matches Some(n) ==> parsed_usize(s.push("0123456789"@[d as int]))
            == if 10 * n + d <= usize::MAX {
            Some((10 * n + d) as usize)
        } else {
            None
        },
        (c < '0' || c > '9') && s.len() > 0 ==> parsed_usize(s.push(c)) is None,
        parsed_usize(Seq::empty()) is None,
        parsed_usize(seq!['+']) is None,
        s.len() > 0 && s[0] != '+' ==> parsed_usize(seq!['+'] + s) == parsed_usize(s),
{
    reveal_strlit("0123456789");
    let digit = "0123456789"@[d as int];
    assert(is_digit(digit) && digit_value(digit) == d);
    let one = seq![digit];
    assert(one.drop_last() =~= Seq::<char>::empty());
    assert(digits_value(one.drop_last()) == 0);
    assert(digits_value(one) == d);
    let body = |t: Seq<char>|
        if t.len() > 0 && t[0] == '+' {
            t.drop_first()
        } else {
            t
        };
    assert(seq!['+'].drop_first() =~= Seq::<char>::empty());
    if parsed_usize(s) is Some {
        let t = s.push(digit);
        assert(body(t) =~= body(s).push(digit));
        assert(body(t).drop_last() =~= body(s));
        assert(all_digits(body(t)));
        assert(digits_value(body(t)) == digits_value(body(s)) * 10 + d);
    }
    if (c < '0' || c > '9') && s.len() > 0 {
        let t = s.push(c);
        assert(body(t) =~= body(s).push(c));
        assert(body(t)[body(t).len() - 1] == c);
        assert(!is_digit(c));
    }
    if s.len() > 0 && s[0] != '+' {
        assert((seq!['+'] + s).drop_first() =~= s);
    }
}

} // verus!
