//! The reference workload's payload format and its integrity check.
//!
//! A message is the decimal ASCII rendering of its sequence number, right
//! aligned in a field of `size - 1` bytes padded with spaces, closed by a NUL
//! terminator, so that every payload is exactly `size` bytes. The consumer
//! parses the digits back out (bytes up to the first NUL, surrounding spaces
//! trimmed) and compares them with the ordinal it expects.

use vstd::prelude::*;

verus! {

/// A payload carried a sequence number different from the ordinal the
/// consumer expected: a correctness failure that halts the session.
#[derive(Copy, Clone, Debug, PartialEq, Eq, Structural)]
pub struct IntegrityMismatch;

/// Decimal ASCII digits of `n`, most significant first, no sign and no
/// leading zero (a single `0` for zero).
pub open spec fn spec_decimal(n: nat) -> Seq<u8>
    decreases n,
{
    if n < 10 {
        seq![(48 + n) as u8]
    } else {
        spec_decimal(n / 10).push((48 + n % 10) as u8)
    }
}

/// All bytes are decimal ASCII digits.
pub open spec fn all_digits(s: Seq<u8>) -> bool {
    forall|i: int| 0 <= i < s.len() ==> 48 <= #[trigger] s[i] <= 57
}

/// The number denoted by a string of decimal ASCII digits.
pub open spec fn digits_value(s: Seq<u8>) -> nat
    decreases s.len(),
{
    if s.len() == 0 {
        0
    } else {
        (digits_value(s.drop_last()) * 10 + (s.last() - 48)) as nat
    }
}

/// The decimal rendering consists of digits only, at least one.
pub proof fn lemma_decimal_digits(n: nat)
    ensures
        spec_decimal(n).len() >= 1,
        all_digits(spec_decimal(n)),
        48 <= spec_decimal(n)[0] <= 57,
        48 <= spec_decimal(n).last() <= 57,
    decreases n,
{
    if n >= 10 {
        lemma_decimal_digits(n / 10);
    }
}

/// Parsing the decimal rendering of `n` gives `n` back.
pub proof fn lemma_decimal_value(n: nat)
    ensures
        digits_value(spec_decimal(n)) == n,
    decreases n,
{
    if n < 10 {
        let dec = spec_decimal(n);
        assert(dec.last() == (48 + n) as u8);
        assert(dec.drop_last() =~= Seq::<u8>::empty());
        assert(digits_value(Seq::<u8>::empty()) == 0);
        assert(digits_value(dec) == (0 * 10 + ((48 + n) as u8 - 48)) as nat);
    } else {
        let dec = spec_decimal(n);
        lemma_decimal_value(n / 10);
        assert(dec.drop_last() =~= spec_decimal(n / 10));
        assert(dec.last() == (48 + n % 10) as u8);
        vstd::arithmetic::div_mod::lemma_fundamental_div_mod(n as int, 10);
        assert(digits_value(dec) == ((n / 10) * 10 + ((48 + n % 10) as u8 - 48)) as nat);
    }
}

/// Powers of ten.
pub open spec fn pow10(k: nat) -> nat
    decreases k,
{
    if k == 0 {
        1
    } else {
        10 * pow10((k - 1) as nat)
    }
}

/// A number below `pow10(k)` renders in at most `k` digits.
pub proof fn lemma_decimal_len(n: nat, k: nat)
    requires
        n < pow10(k),
        k >= 1,
    ensures
        spec_decimal(n).len() <= k,
    decreases k,
{
    if n >= 10 {
        assert(pow10(k) == 10 * pow10((k - 1) as nat));
        assert(n / 10 < pow10((k - 1) as nat)) by (nonlinear_arith)
            requires
                n < 10 * pow10((k - 1) as nat),
        ;
        lemma_decimal_len(n / 10, (k - 1) as nat);
    }
}

/// Every 64-bit ordinal renders in at most 20 digits.
pub proof fn lemma_decimal_len_u64(n: u64)
    ensures
        spec_decimal(n as nat).len() <= 20,
{
    assert(pow10(20) > u64::MAX) by {
        reveal_with_fuel(pow10, 21);
    }
    lemma_decimal_len(n as nat, 20);
}

/// Appends the decimal rendering of `x` to `out`.
fn push_decimal(x: u64, out: &mut Vec<u8>)
    ensures
        final(out)@ == old(out)@ + spec_decimal(x as nat),
    decreases x,
{
    if x < 10 {
        out.push(48 + x as u8);
        proof {
            assert(final(out)@ =~= old(out)@ + spec_decimal(x as nat));
        }
    } else {
        push_decimal(x / 10, out);
        let d = (x % 10) as u8;
        out.push(48 + d);
        proof {
            assert(final(out)@ =~= old(out)@ + spec_decimal(x as nat));
        }
    }
}

/// The canonical payload for ordinal `msgid` in a slot of `size` bytes:
/// spaces, then the decimal digits, then the NUL terminator.
pub open spec fn spec_message_bytes(msgid: nat, size: nat) -> Seq<u8>
    recommends
        spec_decimal(msgid).len() < size,
{
    Seq::new((size - 1 - spec_decimal(msgid).len()) as nat, |i: int| 32u8) + spec_decimal(msgid)
        + seq![0u8]
}

/// A fixed-width message payload: the decimal rendering of its sequence
/// number, right aligned and NUL terminated.
pub struct Message {
    content: Vec<u8>,
}

impl View for Message {
    type V = Seq<u8>;

    closed spec fn view(&self) -> Seq<u8> {
        self.content@
    }
}

impl Message {
    /// Renders ordinal `msgid` into a payload of exactly `size` bytes. The
    /// declared size must leave room for the digits and the terminator.
    pub fn from_msgid_with_size(msgid: u64, size: usize) -> (msg: Message)
        requires
            spec_decimal(msgid as nat).len() < size,
        ensures
            msg@ == spec_message_bytes(msgid as nat, size as nat),
            msg@.len() == size,
    {
        proof {
            lemma_decimal_digits(msgid as nat);
        }
        let digits_len = decimal_len(msgid);
        let pad = size - 1 - digits_len;
        let mut content: Vec<u8> = Vec::new();
        let mut i: usize = 0;
        while i < pad
            invariant
                i <= pad,
                content@ =~= Seq::new(i as nat, |j: int| 32u8),
            decreases pad - i,
        {
            content.push(32);
            proof {
                assert(content@ =~= Seq::new((i + 1) as nat, |j: int| 32u8));
            }
            i += 1;
        }
        push_decimal(msgid, &mut content);
        content.push(0);
        proof {
            assert(content@ =~= spec_message_bytes(msgid as nat, size as nat));
        }
        Message { content }
    }

    /// The payload bytes, terminator included.
    pub fn as_bytes(&self) -> (bytes: &[u8])
        ensures
            bytes@ == self@,
    {
        self.content.as_slice()
    }

    /// The payload length in bytes.
    pub fn len(&self) -> (n: usize)
        ensures
            n == self@.len(),
    {
        self.content.len()
    }
}

/// Number of digits in the decimal rendering of `x`.
fn decimal_len(x: u64) -> (n: usize)
    ensures
        n == spec_decimal(x as nat).len(),
    decreases x,
{
    if x < 10 {
        1
    } else {
        proof {
            lemma_decimal_len_u64(x);
        }
        1 + decimal_len(x / 10)
    }
}

/// Index of the first NUL byte, or the length if there is none.
pub open spec fn nul_pos(s: Seq<u8>) -> int
    decreases s.len(),
{
    if s.len() == 0 {
        0
    } else if s[0] == 0 {
        0
    } else {
        1 + nul_pos(s.drop_first())
    }
}

/// `nul_pos` finds the first NUL: nothing before it is NUL, and it points at
/// a NUL unless there is none at all.
pub proof fn lemma_nul_pos(s: Seq<u8>)
    ensures
        0 <= nul_pos(s) <= s.len(),
        forall|j: int| 0 <= j < nul_pos(s) ==> #[trigger] s[j] != 0,
        nul_pos(s) < s.len() ==> s[nul_pos(s)] == 0,
    decreases s.len(),
{
    if s.len() > 0 && s[0] != 0 {
        lemma_nul_pos(s.drop_first());
        assert forall|j: int| 0 <= j < nul_pos(s) implies #[trigger] s[j] != 0 by {
            if j > 0 {
                assert(s.drop_first()[j - 1] != 0);
            }
        }
    }
}

/// Number of leading space bytes.
pub open spec fn leading_spaces(s: Seq<u8>) -> int
    decreases s.len(),
{
    if s.len() == 0 {
        0
    } else if s[0] != 32 {
        0
    } else {
        1 + leading_spaces(s.drop_first())
    }
}

/// `leading_spaces` counts exactly the unbroken run of spaces at the front.
pub proof fn lemma_leading_spaces(s: Seq<u8>)
    ensures
        0 <= leading_spaces(s) <= s.len(),
        forall|j: int| 0 <= j < leading_spaces(s) ==> #[trigger] s[j] == 32,
        leading_spaces(s) < s.len() ==> s[leading_spaces(s)] != 32,
    decreases s.len(),
{
    if s.len() > 0 && s[0] == 32 {
        lemma_leading_spaces(s.drop_first());
        assert forall|j: int| 0 <= j < leading_spaces(s) implies #[trigger] s[j] == 32 by {
            if j > 0 {
                assert(s.drop_first()[j - 1] == 32);
            }
        }
    }
}

/// Number of trailing space bytes.
pub open spec fn trailing_spaces(s: Seq<u8>) -> int
    decreases s.len(),
{
    if s.len() == 0 {
        0
    } else if s.last() != 32 {
        0
    } else {
        1 + trailing_spaces(s.drop_last())
    }
}

/// `trailing_spaces` counts exactly the unbroken run of spaces at the back.
pub proof fn lemma_trailing_spaces(s: Seq<u8>)
    ensures
        0 <= trailing_spaces(s) <= s.len(),
        forall|j: int| s.len() - trailing_spaces(s) <= j < s.len() ==> #[trigger] s[j] == 32,
        trailing_spaces(s) < s.len() ==> s[s.len() - trailing_spaces(s) - 1] != 32,
    decreases s.len(),
{
    if s.len() > 0 && s.last() == 32 {
        lemma_trailing_spaces(s.drop_last());
        assert forall|j: int| s.len() - trailing_spaces(s) <= j < s.len() implies #[trigger] s[j]
            == 32 by {
            if j < s.len() - 1 {
                assert(s.drop_last()[j] == 32);
            }
        }
    }
}

/// What the consumer's integrity parse denotes: the bytes up to the first
/// NUL, surrounding spaces trimmed, read as a decimal number. `None` when
/// there is no terminator, nothing but spaces, or a non-digit among the
/// trimmed bytes.
pub open spec fn spec_parse_payload(s: Seq<u8>) -> Option<nat> {
    let z = nul_pos(s);
    if z == s.len() {
        None
    } else {
        let body = s.subrange(0, z);
        let a = leading_spaces(body);
        let b = z - trailing_spaces(body);
        if a < b && all_digits(body.subrange(a, b)) {
            Some(digits_value(body.subrange(a, b)))
        } else {
            None
        }
    }
}

/// Parsing a canonical payload gives its ordinal back.
pub proof fn lemma_parse_message_bytes(msgid: nat, size: nat)
    requires
        spec_decimal(msgid).len() < size,
    ensures
        spec_message_bytes(msgid, size).len() == size,
        spec_parse_payload(spec_message_bytes(msgid, size)) == Some(msgid),
{
    let s = spec_message_bytes(msgid, size);
    let dec = spec_decimal(msgid);
    let pad = size - 1 - dec.len();
    lemma_decimal_digits(msgid);
    lemma_nul_pos(s);
    // the first NUL is the terminator at size - 1
    assert forall|j: int| 0 <= j < size - 1 implies s[j] != 0 by {}
    assert(s[size - 1] == 0);
    if nul_pos(s) < size - 1 {
        assert(s[nul_pos(s)] == 0);
    }
    assert(nul_pos(s) == size - 1);
    let body = s.subrange(0, size - 1);
    lemma_leading_spaces(body);
    assert forall|j: int| 0 <= j < pad implies body[j] == 32 by {}
    assert(body[pad] == dec[0]);
    if leading_spaces(body) < pad {
        assert(body[leading_spaces(body)] == 32);
    }
    if leading_spaces(body) > pad {
        assert(body[pad] == 32);
    }
    assert(leading_spaces(body) == pad);
    lemma_trailing_spaces(body);
    assert(body.len() > 0);
    assert(body[body.len() - 1] == dec.last());
    if trailing_spaces(body) > 0 {
        assert(body[body.len() - 1] == 32);
    }
    assert(trailing_spaces(body) == 0);
    assert(body.subrange(pad as int, size - 1) =~= dec);
    lemma_decimal_value(msgid);
}

/// Parses a payload: the bytes up to the first NUL, spaces trimmed, as a
/// decimal number. `None` exactly when the payload does not have that shape
/// or its value does not fit 64 bits.
pub fn parse_payload(bytes: &[u8]) -> (r: Option<u64>)
    ensures
        r is Some <==> (spec_parse_payload(bytes@) matches Some(v) && v <= u64::MAX),
        r matches Some(x) ==> spec_parse_payload(bytes@) == Some(x as nat),
{
    proof {
        lemma_nul_pos(bytes@);
    }
    let len = bytes.len();
    let mut z: usize = 0;
    while z < len && bytes[z] != 0
        invariant
            0 <= z <= len,
            len == bytes@.len(),
            forall|j: int| 0 <= j < z ==> #[trigger] bytes@[j] != 0,
        decreases len - z,
    {
        z += 1;
    }
    proof {
        if nul_pos(bytes@) < z {
            assert(bytes@[nul_pos(bytes@)] == 0);
        }
        if z < nul_pos(bytes@) {
            assert(bytes@[z as int] != 0);
        }
        assert(z == nul_pos(bytes@));
    }
    if z == len {
        return None;
    }
    let ghost body = bytes@.subrange(0, z as int);
    proof {
        lemma_leading_spaces(body);
        lemma_trailing_spaces(body);
    }
    let mut a: usize = 0;
    while a < z && bytes[a] == 32
        invariant
            0 <= a <= z <= len,
            len == bytes@.len(),
            z == nul_pos(bytes@),
            body == bytes@.subrange(0, z as int),
            forall|j: int| 0 <= j < a ==> #[trigger] body[j] == 32,
        decreases z - a,
    {
        a += 1;
    }
    proof {
        if leading_spaces(body) < a {
            assert(body[leading_spaces(body)] == 32);
        }
        if a < leading_spaces(body) {
            assert(body[a as int] == 32);
        }
        assert(a == leading_spaces(body));
    }
    let mut b: usize = z;
    while b > a && bytes[b - 1] == 32
        invariant
            a <= b <= z <= len,
            len == bytes@.len(),
            z == nul_pos(bytes@),
            body == bytes@.subrange(0, z as int),
            a == leading_spaces(body),
            forall|j: int| b <= j < z ==> #[trigger] body[j] == 32,
        decreases b,
    {
        b -= 1;
    }
    if b == a {
        proof {
            // everything from the first non-space to the NUL is spaces, so
            // the trimmed range is empty and the parse denotes nothing
            let ts = trailing_spaces(body);
            let bb = z - ts;
            if a < bb {
                // the byte at a would be both a non-space (leading-run end)
                // and inside the all-space suffix
                assert(body[a as int] != 32);
                assert(body[a as int] == 32);
            }
        }
        return None;
    }
    proof {
        // the loop stopped on a non-space at b - 1 with only spaces behind
        // it, which pins b as the end of the trimmed range
        let ts = trailing_spaces(body);
        assert(body[b - 1] != 32);
        if z - ts < b {
            assert(body[b - 1] == 32);
        }
        if z - ts > b {
            assert(ts < z);
            assert(body[z - ts - 1] != 32);
            assert(body[z - ts - 1] == 32);
        }
        assert(b == z - ts);
    }
    let ghost digits = body.subrange(a as int, b as int);
    let mut acc: u64 = 0;
    let mut i: usize = a;
    while i < b
        invariant
            a <= i <= b <= z < len,
            len == bytes@.len(),
            z == nul_pos(bytes@),
            body == bytes@.subrange(0, z as int),
            a == leading_spaces(body),
            b == z - trailing_spaces(body),
            digits == body.subrange(a as int, b as int),
            all_digits(body.subrange(a as int, i as int)),
            acc == digits_value(body.subrange(a as int, i as int)),
        decreases b - i,
    {
        let c = bytes[i];
        if c < 48 || c > 57 {
            proof {
                assert(digits[i - a] == c);
            }
            return None;
        }
        let d = (c - 48) as u64;
        let acc10 = match acc.checked_mul(10) {
            Some(v) => v,
            None => {
                proof {
                    lemma_parse_overflow(bytes@, digits, a as int, b as int, i as int, acc);
                }
                return None;
            },
        };
        let next = match acc10.checked_add(d) {
            Some(v) => v,
            None => {
                proof {
                    lemma_parse_overflow(bytes@, digits, a as int, b as int, i as int, acc);
                }
                return None;
            },
        };
        acc = next;
        proof {
            let pre = body.subrange(a as int, i as int);
            let cur = body.subrange(a as int, i + 1);
            assert(cur.drop_last() =~= pre);
            assert(cur.last() == c);
        }
        i += 1;
    }
    proof {
        assert(body.subrange(a as int, b as int) == digits);
    }
    Some(acc)
}

/// If the accumulator for a digit prefix already pushes the value past 64
/// bits, then whenever the whole trimmed range is digits its value exceeds
/// 64 bits too, so the parse owes `None` either way.
proof fn lemma_parse_overflow(s: Seq<u8>, digits: Seq<u8>, a: int, b: int, i: int, acc: u64)
    requires
        0 <= a <= i < b,
        nul_pos(s) < s.len(),
        b <= nul_pos(s),
        digits == s.subrange(0, nul_pos(s)).subrange(a, b),
        a == leading_spaces(s.subrange(0, nul_pos(s))),
        b == nul_pos(s) - trailing_spaces(s.subrange(0, nul_pos(s))),
        all_digits(s.subrange(0, nul_pos(s)).subrange(a, i)),
        acc == digits_value(s.subrange(0, nul_pos(s)).subrange(a, i)),
        48 <= s[i] <= 57,
        acc * 10 + (s[i] - 48) > u64::MAX,
    ensures
        !(spec_parse_payload(s) matches Some(v) && v <= u64::MAX),
{
    let body = s.subrange(0, nul_pos(s));
    if all_digits(digits) {
        lemma_digits_value_grows(digits, i - a);
        assert(digits.take(i - a) =~= body.subrange(a, i));
        assert(digits[i - a] == body[i]);
        assert(body[i] == s[i]);
        assert(digits_value(digits) >= acc * 10 + (s[i] - 48));
        assert(spec_parse_payload(s) == Some(digits_value(digits)));
    } else {
        assert(spec_parse_payload(s) is None);
    }
}

/// The value of a digit string dominates the value of any of its prefixes
/// extended by one digit: if a prefix already overflows 64 bits, so does the
/// whole string.
proof fn lemma_digits_value_grows(digits: Seq<u8>, i: int)
    requires
        0 <= i < digits.len(),
        all_digits(digits),
    ensures
        digits_value(digits) >= digits_value(digits.take(i)) * 10 + (digits[i] - 48),
    decreases digits.len(),
{
    if i == digits.len() - 1 {
        assert(digits.take(i) =~= digits.drop_last());
    } else {
        lemma_digits_value_grows(digits.drop_last(), i);
        assert(digits.drop_last().take(i) =~= digits.take(i));
        assert(digits_value(digits) == digits_value(digits.drop_last()) * 10 + (digits.last()
            - 48));
        assert(digits_value(digits.drop_last()) * 10 >= digits_value(digits.drop_last()))
            by (nonlinear_arith);
    }
}

/// The consumer's integrity check: does this payload carry exactly the
/// expected ordinal? Fails with `IntegrityMismatch` otherwise.
pub fn check_payload(bytes: &[u8], expected: u64) -> (r: Result<(), IntegrityMismatch>)
    ensures
        r is Ok <==> spec_parse_payload(bytes@) == Some(expected as nat),
{
    match parse_payload(bytes) {
        Some(v) => {
            if v == expected {
                Ok(())
            } else {
                Err(IntegrityMismatch)
            }
        },
        None => Err(IntegrityMismatch),
    }
}

} // verus!
