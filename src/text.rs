use vstd::prelude::*;

verus! {

/// The ASCII digit for `d < 10`.
pub open spec fn spec_digit_char(d: nat) -> char {
    if d == 0 {
        '0'
    } else if d == 1 {
        '1'
    } else if d == 2 {
        '2'
    } else if d == 3 {
        '3'
    } else if d == 4 {
        '4'
    } else if d == 5 {
        '5'
    } else if d == 6 {
        '6'
    } else if d == 7 {
        '7'
    } else if d == 8 {
        '8'
    } else {
        '9'
    }
}

/// The decimal notation of `n`, without leading zeros.
pub open spec fn spec_decimal(n: nat) -> Seq<char>
    decreases n,
{
    if n < 10 {
        seq![spec_digit_char(n)]
    } else {
        spec_decimal(n / 10).push(spec_digit_char(n % 10))
    }
}

/// The digit `d` as a one-character string.
fn digit_str(d: usize) -> (r: &'static str)
    requires
        d < 10,
    ensures
        r@ == seq![spec_digit_char(d as nat)],
{
    proof {
        reveal_strlit("0");
        reveal_strlit("1");
        reveal_strlit("2");
        reveal_strlit("3");
        reveal_strlit("4");
        reveal_strlit("5");
        reveal_strlit("6");
        reveal_strlit("7");
        reveal_strlit("8");
        reveal_strlit("9");
    }
    if d == 0 {
        "0"
    } else if d == 1 {
        "1"
    } else if d == 2 {
        "2"
    } else if d == 3 {
        "3"
    } else if d == 4 {
        "4"
    } else if d == 5 {
        "5"
    } else if d == 6 {
        "6"
    } else if d == 7 {
        "7"
    } else if d == 8 {
        "8"
    } else {
        assert(seq!['9'] =~= "9"@);
        "9"
    }
}

/// Appends the decimal notation of `n` to `s`.
pub fn push_decimal(s: &mut String, n: usize)
    ensures
        final(s)@ == old(s)@ + spec_decimal(n as nat),
    decreases n,
{
    if n >= 10 {
        push_decimal(s, n / 10);
    }
    s.append(digit_str(n % 10));
    proof {
        if n >= 10 {
            assert(old(s)@ + spec_decimal(n as nat) =~= old(s)@ + spec_decimal((n / 10) as nat)
                + seq![spec_digit_char((n % 10) as nat)]);
        } else {
            assert(spec_decimal(n as nat) =~= seq![spec_digit_char((n % 10) as nat)]);
        }
    }
}

/// The decimal notation of `n`.
pub fn decimal_string(n: usize) -> (r: String)
    ensures
        r@ == spec_decimal(n as nat),
{
    let mut s = String::new();
    push_decimal(&mut s, n);
    assert(s@ =~= spec_decimal(n as nat));
    s
}

/// The characters of `s`, one by one.
pub fn chars_of(s: &str) -> (r: Vec<char>)
    ensures
        r@ == s@,
{
    let n = s.unicode_len();
    let mut r: Vec<char> = Vec::new();
    let mut i: usize = 0;
    while i < n
        invariant
            n == s@.len(),
            i <= n,
            r@ == s@.subrange(0, i as int),
        decreases n - i,
    {
        r.push(s.get_char(i));
        i = i + 1;
        assert(r@ =~= s@.subrange(0, i as int));
    }
    assert(r@ =~= s@);
    r
}

/// `c` is an ASCII decimal digit.
pub open spec fn is_digit(c: char) -> bool {
    '0' <= c && c <= '9'
}

/// The value of the digit `c`.
pub open spec fn digit_value(c: char) -> nat {
    (c as u32 - '0' as u32) as nat
}

/// The value of a string of decimal digits.
pub open spec fn digits_value(s: Seq<char>) -> nat
    decreases s.len(),
{
    if s.len() == 0 {
        0
    } else {
        digits_value(s.drop_last()) * 10 + digit_value(s.last())
    }
}

/// The unsigned integer that `s` writes: an optional `+`, then one or more decimal digits.
pub open spec fn spec_parse_unsigned(s: Seq<char>) -> Option<nat> {
    let d = unsigned_digits(s);
    if d.len() > 0 && all_digits(d) {
        Some(digits_value(d))
    } else {
        None
    }
}

/// `s` without its leading `+`, if any.
pub open spec fn unsigned_digits(s: Seq<char>) -> Seq<char> {
    if s.len() > 0 && s[0] == '+' {
        s.skip(1)
    } else {
        s
    }
}

/// Every character of `s` is a decimal digit.
pub open spec fn all_digits(s: Seq<char>) -> bool {
    forall|i: int| 0 <= i < s.len() ==> is_digit(#[trigger] s[i])
}

/// The unsigned integer that `s[start..end]` writes, where it is at most `max`.
pub fn parse_unsigned(s: &Vec<char>, start: usize, end: usize, max: u64) -> (r: Option<u64>)
    requires
        start <= end <= s@.len(),
    ensures
        match spec_parse_unsigned(s@.subrange(start as int, end as int)) {
            Some(v) => if v <= max {
                r == Some(v as u64)
            } else {
                r is None
            },
            None => r is None,
        },
{
    let ghost t = s@.subrange(start as int, end as int);
    let mut i = start;
    if i < end && s[i] == '+' {
        i = i + 1;
    }
    let ghost d = s@.subrange(i as int, end as int);
    assert(d == unsigned_digits(t));
    if i == end {
        return None;
    }
    let bound: u128 = max as u128 + 1;
    let mut acc: u128 = 0;
    let mut j = i;
    while j < end
        invariant
            i <= j <= end <= s@.len(),
            d == s@.subrange(i as int, end as int),
            t == s@.subrange(start as int, end as int),
            d.len() > 0,
            d == unsigned_digits(t),
            bound == max + 1,
            forall|k: int| i <= k < j ==> is_digit(#[trigger] s@[k]),
            acc == if digits_value(s@.subrange(i as int, j as int)) < bound {
                digits_value(s@.subrange(i as int, j as int))
            } else {
                bound as nat
            },
        decreases end - j,
    {
        let c = s[j];
        if !('0' <= c && c <= '9') {
            proof {
                let k = j - i;
                assert(d[k] == s@[j as int]);
                assert(!is_digit(d[k]));
                assert(!all_digits(d));
                assert(spec_parse_unsigned(t) is None);
            }
            return None;
        }
        let v = (c as u32 - '0' as u32) as u128;
        let ghost prev = digits_value(s@.subrange(i as int, j as int));
        assert(s@.subrange(i as int, j + 1).drop_last() == s@.subrange(i as int, j as int));
        assert(digits_value(s@.subrange(i as int, j + 1)) == prev * 10 + v);
        let next = acc * 10 + v;
        acc = if next < bound {
            next
        } else {
            bound
        };
        proof {
            if prev >= bound {
                assert(prev * 10 + v >= bound) by (nonlinear_arith)
                    requires
                        prev >= bound,
                        v >= 0,
                ;
            }
        }
        j = j + 1;
    }
    assert(s@.subrange(i as int, j as int) == d);
    if acc < bound {
        Some(acc as u64)
    } else {
        None
    }
}

} // verus!
