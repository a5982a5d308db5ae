//! Decimal text of integers: what `Display` writes for an integer and what
//! `str::parse::<i32>` accepts.
use vstd::prelude::*;

verus! {

/// The ASCII character of the decimal digit `d` (0 to 9).
pub open spec fn digit_char(d: int) -> char {
    if d == 0 {
        '0'
    } else if d == 1 {
        '1'
    } else if d == 2 {
        '2'
    } else if d == 3 {
        '3'
    } else if d == 4 {
        '4'
    } else if d == 5 {
        '5'
    } else if d == 6 {
        '6'
    } else if d == 7 {
        '7'
    } else if d == 8 {
        '8'
    } else {
        '9'
    }
}

/// The decimal digits of `n`, most significant first, without leading zeros.
pub open spec fn decimal_nat(n: nat) -> Seq<char>
    decreases n,
{
    if n < 10 {
        seq![digit_char(n as int)]
    } else {
        decimal_nat(n / 10).push(digit_char((n % 10) as int))
    }
}

/// The decimal text of `i`, with a `'-'` in front when it is negative.
pub open spec fn decimal_int(i: int) -> Seq<char> {
    if i < 0 {
        seq!['-'] + decimal_nat((-i) as nat)
    } else {
        decimal_nat(i as nat)
    }
}

/// The ASCII character of the digit `d`.
pub fn digit_char_exec(d: u64) -> (c: char)
    requires
        d < 10,
    ensures
        c == digit_char(d as int),
{
    if d == 0 {
        '0'
    } else if d == 1 {
        '1'
    } else if d == 2 {
        '2'
    } else if d == 3 {
        '3'
    } else if d == 4 {
        '4'
    } else if d == 5 {
        '5'
    } else if d == 6 {
        '6'
    } else if d == 7 {
        '7'
    } else if d == 8 {
        '8'
    } else {
        '9'
    }
}

/// Appends the decimal digits of `n` to `out`.
pub fn push_decimal(out: &mut Vec<char>, n: u64)
    ensures
        final(out)@ == old(out)@ + decimal_nat(n as nat),
    decreases n,
{
    if n >= 10 {
        push_decimal(out, n / 10);
    }
    out.push(digit_char_exec(n % 10));
    assert(final(out)@ =~= old(out)@ + decimal_nat(n as nat)) by {
        if n >= 10 {
            assert(decimal_nat(n as nat) == decimal_nat((n / 10) as nat).push(
                digit_char((n % 10) as int),
            ));
        }
    }
}

/// The decimal text of `x` (`x.to_string()` for an `i64`).
pub fn i64_decimal(x: i64) -> (r: Vec<char>)
    ensures
        r@ == decimal_int(x as int),
{
    let mut out: Vec<char> = Vec::new();
    if x < 0 {
        out.push('-');
        let magnitude: u64 = ((-(x + 1)) as u64) + 1;
        push_decimal(&mut out, magnitude);
    } else {
        push_decimal(&mut out, x as u64);
    }
    assert(out@ =~= decimal_int(x as int));
    out
}

/// The decimal text of `x` (`x.to_string()` for an `i32`).
pub fn i32_decimal(x: i32) -> (r: Vec<char>)
    ensures
        r@ == decimal_int(x as int),
{
    i64_decimal(x as i64)
}

/// The decimal text of `x` (`x.to_string()` for a `u64`).
pub fn u64_decimal(x: u64) -> (r: Vec<char>)
    ensures
        r@ == decimal_int(x as int),
{
    let mut out: Vec<char> = Vec::new();
    push_decimal(&mut out, x);
    assert(out@ =~= decimal_int(x as int));
    out
}

/// The decimal text of `x` as a string (`x.to_string()` for an `i32`).
pub fn i32_text(x: i32) -> (r: String)
    ensures
        r@ == decimal_int(x as int),
{
    crate::text::string_of(&i32_decimal(x))
}

/// `c` is one of the ASCII digits `'0'` to `'9'`.
pub open spec fn is_ascii_digit(c: char) -> bool {
    '0' <= c <= '9'
}

/// The value of the ASCII digit `c`.
pub open spec fn digit_value(c: char) -> int {
    (c as u32) - ('0' as u32)
}

/// The value of the ASCII digits `s`, read in base ten (0 for no digits).
pub open spec fn digits_value(s: Seq<char>) -> int
    decreases s.len(),
{
    if s.len() == 0 {
        0
    } else {
        digits_value(s.drop_last()) * 10 + digit_value(s.last())
    }
}

/// All of `s` are ASCII digits.
pub open spec fn all_digits(s: Seq<char>) -> bool {
    forall|i: int| 0 <= i < s.len() ==> is_ascii_digit(#[trigger] s[i])
}

/// What `str::parse::<i32>` gives for the text `s`: an optional `'+'` or `'-'`,
/// then one or more ASCII digits and nothing else, whose value fits in an `i32`.
pub open spec fn parse_i32(s: Seq<char>) -> Option<i32> {
    let negative = s.len() > 0 && s[0] == '-';
    let signed = s.len() > 0 && (s[0] == '-' || s[0] == '+');
    let body = if signed {
        s.drop_first()
    } else {
        s
    };
    let value = if negative {
        -digits_value(body)
    } else {
        digits_value(body)
    };
    if body.len() == 0 || !all_digits(body) {
        None
    } else if i32::MIN <= value <= i32::MAX {
        Some(value as i32)
    } else {
        None
    }
}

/// The bound at which reading digits stops counting: one past the largest magnitude
/// an `i32` can take.
pub open spec fn magnitude_cap() -> int {
    2147483649
}

/// `v` limited to the cap.
pub open spec fn capped(v: int) -> int {
    if v < magnitude_cap() {
        v
    } else {
        magnitude_cap()
    }
}

pub proof fn lemma_digits_value_nonneg(s: Seq<char>)
    requires
        all_digits(s),
    ensures
        digits_value(s) >= 0,
    decreases s.len(),
{
    if s.len() > 0 {
        assert(all_digits(s.drop_last())) by {
            assert forall|i: int| 0 <= i < s.drop_last().len() implies is_ascii_digit(
                #[trigger] s.drop_last()[i],
            ) by {
                assert(s.drop_last()[i] == s[i]);
            }
        }
        lemma_digits_value_nonneg(s.drop_last());
        assert(is_ascii_digit(s[s.len() - 1]));
    }
}

/// The `i32` that the text `s` holds (`s.parse::<i32>().ok()`).
pub fn parse_i32_chars(s: &Vec<char>) -> (r: Option<i32>)
    ensures
        r == parse_i32(s@),
{
    let len = s.len();
    let negative = len > 0 && s[0] == '-';
    let signed = len > 0 && (s[0] == '-' || s[0] == '+');
    let start: usize = if signed {
        1
    } else {
        0
    };
    let ghost body = if signed {
        s@.drop_first()
    } else {
        s@
    };
    assert(body =~= s@.subrange(start as int, len as int));
    if start >= len {
        return None;
    }
    let mut acc: i64 = 0;
    let mut k: usize = start;
    while k < len
        invariant
            start <= k <= len,
            len == s.len(),
            body == s@.subrange(start as int, len as int),
            signed == (s@.len() > 0 && (s@[0] == '-' || s@[0] == '+')),
            negative == (s@.len() > 0 && s@[0] == '-'),
            body == (if signed {
                s@.drop_first()
            } else {
                s@
            }),
            all_digits(body.take(k - start)),
            acc == capped(digits_value(body.take(k - start))),
            0 <= acc <= magnitude_cap(),
        decreases len - k,
    {
        let c = s[k];
        if !('0' <= c && c <= '9') {
            assert(!all_digits(body)) by {
                assert(body[k - start] == c);
                assert(!is_ascii_digit(body[k - start]));
            }
            assert(parse_i32(s@) is None);
            return None;
        }
        let d = (c as u32 - '0' as u32) as i64;
        let ghost prefix = body.take(k - start);
        let ghost next = body.take(k + 1 - start);
        assert(next.drop_last() =~= prefix);
        assert(next.last() == c);
        proof {
            lemma_digits_value_nonneg(prefix);
        }
        assert(all_digits(next)) by {
            assert forall|i: int| 0 <= i < next.len() implies is_ascii_digit(#[trigger] next[i]) by {
                if i < prefix.len() {
                    assert(next[i] == prefix[i]);
                }
            }
        }
        let grown = acc * 10 + d;
        acc = if grown < 2147483649 {
            grown
        } else {
            2147483649
        };
        k += 1;
    }
    assert(body.take(len - start) =~= body);
    if negative {
        if acc > 2147483648 {
            return None;
        }
        let v = -acc;
        Some(v as i32)
    } else {
        if acc > 2147483647 {
            return None;
        }
        Some(acc as i32)
    }
}

} // verus!

verus! {

pub proof fn lemma_digit_char(d: int)
    requires
        0 <= d < 10,
    ensures
        is_ascii_digit(digit_char(d)),
        digit_value(digit_char(d)) == d,
{
}

pub proof fn lemma_decimal_nat(n: nat)
    ensures
        decimal_nat(n).len() >= 1,
        all_digits(decimal_nat(n)),
        digits_value(decimal_nat(n)) == n,
    decreases n,
{
    if n < 10 {
        lemma_digit_char(n as int);
        let s = seq![digit_char(n as int)];
        assert(s.drop_last() =~= Seq::<char>::empty());
        assert(digits_value(s) == digits_value(s.drop_last()) * 10 + digit_value(s.last()));
    } else {
        let s = decimal_nat(n / 10);
        let d = digit_char((n % 10) as int);
        lemma_decimal_nat(n / 10);
        lemma_digit_char((n % 10) as int);
        assert(s.push(d).drop_last() =~= s);
        assert(digits_value(s.push(d)) == digits_value(s) * 10 + digit_value(d));
        assert((n / 10) * 10 + n % 10 == n);
        assert forall|i: int| 0 <= i < s.push(d).len() implies is_ascii_digit(#[trigger] s.push(d)[i]) by {
            if i < s.len() {
                assert(s.push(d)[i] == s[i]);
            }
        }
    }
}

/// Reading the decimal text of an `i32` gives the number back: what
/// `to_string` writes, `parse::<i32>` reads.
pub proof fn law_parse_reads_decimal(x: i32)
    ensures
        parse_i32(decimal_int(x as int)) == Some(x),
{
    if x < 0 {
        let m = (-x) as nat;
        lemma_decimal_nat(m);
        let s = seq!['-'] + decimal_nat(m);
        assert(s.drop_first() =~= decimal_nat(m));
        assert(s[0] == '-');
    } else {
        lemma_decimal_nat(x as nat);
        let s = decimal_nat(x as nat);
        assert(is_ascii_digit(s[0]));
    }
}

} // verus!
