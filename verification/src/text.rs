//! Decimal text, character-level: rendering counters into report strings
//! and parsing the harness's numeric arguments.

use vstd::prelude::*;

verus! {

/// The ASCII digit character for `d`.
pub open spec fn digit_char(d: nat) -> char
    recommends
        d < 10,
{
    if d == 0 {
        '0'
    } else if d == 1 {
        '1'
    } else if d == 2 {
        '2'
    } else if d == 3 {
        '3'
    } else if d == 4 {
        '4'
    } else if d == 5 {
        '5'
    } else if d == 6 {
        '6'
    } else if d == 7 {
        '7'
    } else if d == 8 {
        '8'
    } else {
        '9'
    }
}

/// Decimal rendering of `n` as characters, most significant first.
pub open spec fn decimal_chars(n: nat) -> Seq<char>
    decreases n,
{
    if n < 10 {
        seq![digit_char(n)]
    } else {
        decimal_chars(n / 10).push(digit_char(n % 10))
    }
}

/// All characters are decimal digits.
pub open spec fn all_digit_chars(s: Seq<char>) -> bool {
    forall|i: int| 0 <= i < s.len() ==> '0' <= #[trigger] s[i] <= '9'
}

/// The number denoted by a string of decimal digit characters.
pub open spec fn char_digits_value(s: Seq<char>) -> nat
    decreases s.len(),
{
    if s.len() == 0 {
        0
    } else {
        (char_digits_value(s.drop_last()) * 10 + (s.last() as u8 - 48)) as nat
    }
}

/// A one-character string slice for the digit `d`.
fn digit_str(d: u64) -> (s: &'static str)
    requires
        d < 10,
    ensures
        s@ == seq![digit_char(d as nat)],
{
    proof {
        reveal_strlit("0");
        reveal_strlit("1");
        reveal_strlit("2");
        reveal_strlit("3");
        reveal_strlit("4");
        reveal_strlit("5");
        reveal_strlit("6");
        reveal_strlit("7");
        reveal_strlit("8");
        reveal_strlit("9");
    }
    let s = match d {
        0 => "0",
        1 => "1",
        2 => "2",
        3 => "3",
        4 => "4",
        5 => "5",
        6 => "6",
        7 => "7",
        8 => "8",
        _ => "9",
    };
    proof {
        assert(s@ =~= seq![digit_char(d as nat)]);
    }
    s
}

/// Appends the decimal rendering of `x` to `out`.
pub fn push_decimal_chars(x: u64, out: &mut String)
    ensures
        final(out)@ == old(out)@ + decimal_chars(x as nat),
    decreases x,
{
    if x < 10 {
        out.append(digit_str(x));
        proof {
            assert(final(out)@ =~= old(out)@ + decimal_chars(x as nat));
        }
    } else {
        push_decimal_chars(x / 10, out);
        out.append(digit_str(x % 10));
        proof {
            assert(final(out)@ =~= old(out)@ + decimal_chars(x as nat));
        }
    }
}

/// The decimal rendering of `x` as a fresh string.
pub fn u64_to_decimal_string(x: u64) -> (s: String)
    ensures
        s@ == decimal_chars(x as nat),
{
    let mut s = String::new();
    push_decimal_chars(x, &mut s);
    proof {
        assert(s@ =~= decimal_chars(x as nat));
    }
    s
}

/// Parses a string of decimal digit characters into a number. `None`
/// exactly when the string is empty, holds a non-digit, or denotes a value
/// that does not fit the machine.
pub fn parse_usize(s: &str) -> (r: Option<usize>)
    ensures
        r is Some <==> (s@.len() > 0 && all_digit_chars(s@) && char_digits_value(s@)
            <= usize::MAX),
        r matches Some(x) ==> x == char_digits_value(s@),
{
    let n = s.unicode_len();
    if n == 0 {
        return None;
    }
    let mut acc: usize = 0;
    let mut i: usize = 0;
    while i < n
        invariant
            i <= n,
            n == s@.len(),
            all_digit_chars(s@.take(i as int)),
            acc == char_digits_value(s@.take(i as int)),
        decreases n - i,
    {
        let c = s.get_char(i);
        if c < '0' || c > '9' {
            proof {
                assert(s@[i as int] == c);
            }
            return None;
        }
        let d = (c as u8 - 48) as usize;
        let acc10 = match acc.checked_mul(10) {
            Some(v) => v,
            None => {
                proof {
                    lemma_char_value_grows(s@, i as int, acc);
                }
                return None;
            },
        };
        let next = match acc10.checked_add(d) {
            Some(v) => v,
            None => {
                proof {
                    lemma_char_value_grows(s@, i as int, acc);
                }
                return None;
            },
        };
        acc = next;
        proof {
            let pre = s@.take(i as int);
            let cur = s@.take(i + 1);
            assert(cur.drop_last() =~= pre);
            assert(cur.last() == c);
        }
        i += 1;
    }
    proof {
        assert(s@.take(n as int) =~= s@);
    }
    Some(acc)
}

/// If the accumulator for a digit prefix already pushes the value past the
/// machine word, then whenever the whole string is digits its value exceeds
/// the machine word too.
proof fn lemma_char_value_grows(s: Seq<char>, i: int, acc: usize)
    requires
        0 <= i < s.len(),
        all_digit_chars(s.take(i)),
        acc == char_digits_value(s.take(i)),
        '0' <= s[i] <= '9',
        acc * 10 + (s[i] as u8 - 48) > usize::MAX,
    ensures
        !(all_digit_chars(s) && char_digits_value(s) <= usize::MAX),
{
    if all_digit_chars(s) {
        lemma_char_prefix_bound(s, i);
    }
}

/// For a digit string, the whole value dominates any prefix extended by its
/// next digit.
proof fn lemma_char_prefix_bound(s: Seq<char>, i: int)
    requires
        0 <= i < s.len(),
        all_digit_chars(s),
    ensures
        char_digits_value(s) >= char_digits_value(s.take(i)) * 10 + (s[i] as u8 - 48),
    decreases s.len(),
{
    if i == s.len() - 1 {
        assert(s.take(i) =~= s.drop_last());
    } else {
        lemma_char_prefix_bound(s.drop_last(), i);
        assert(s.drop_last().take(i) =~= s.take(i));
        assert(s.drop_last()[i] == s[i]);
        assert(char_digits_value(s) == char_digits_value(s.drop_last()) * 10 + (s.last() as u8
            - 48));
        assert(char_digits_value(s.drop_last()) * 10 >= char_digits_value(s.drop_last()))
            by (nonlinear_arith);
    }
}

} // verus!
