//! Character-level text helpers: decimal numbers as the store writes and reads them.
use vstd::prelude::*;
use vstd::utf8::*;

verus! {

/// The decimal digit character for a value below ten.
pub open spec fn digit_char(d: int) -> char {
    if d == 0 { '0' } else if d == 1 { '1' } else if d == 2 { '2' } else if d == 3 { '3' }
    else if d == 4 { '4' } else if d == 5 { '5' } else if d == 6 { '6' } else if d == 7 { '7' }
    else if d == 8 { '8' } else { '9' }
}

pub open spec fn is_digit(c: char) -> bool {
    '0' <= c && c <= '9'
}

pub open spec fn digit_value(c: char) -> int {
    c as int - '0' as int
}

/// The shortest decimal spelling of `n` (no sign, no leading zeros).
pub open spec fn dec_digits(n: nat) -> Seq<char>
    decreases n,
{
    if n < 10 {
        seq![digit_char(n as int)]
    } else {
        dec_digits(n / 10).push(digit_char((n % 10) as int))
    }
}

pub open spec fn all_digits(s: Seq<char>) -> bool {
    forall|i: int| 0 <= i < s.len() ==> #[trigger] is_digit(s[i])
}

/// The value of a run of decimal digits.
pub open spec fn digits_value(s: Seq<char>) -> nat
    decreases s.len(),
{
    if s.len() == 0 {
        0
    } else {
        digits_value(s.drop_last()) * 10 + digit_value(s.last()) as nat
    }
}

/// What follows an optional leading `+`.
pub open spec fn unsigned_body(s: Seq<char>) -> Seq<char> {
    if s.len() > 0 && s[0] == '+' { s.drop_first() } else { s }
}

/// How `str::parse` reads an unsigned integer, before the range check:
/// an optional `+`, then one digit or more, and nothing else.
pub open spec fn unsigned_value(s: Seq<char>) -> Option<nat> {
    let b = unsigned_body(s);
    if b.len() > 0 && all_digits(b) { Some(digits_value(b)) } else { None }
}

/// `str::parse` of an unsigned type whose largest value is `max`.
pub open spec fn parse_bounded(s: Seq<char>, max: nat) -> Option<nat> {
    match unsigned_value(s) {
        Some(n) => if n <= max { Some(n) } else { None },
        None => None,
    }
}

pub proof fn lemma_digit_char(d: int)
    requires 0 <= d < 10,
    ensures is_digit(digit_char(d)), digit_value(digit_char(d)) == d, digit_char(d) != '+',
{
}

pub proof fn lemma_dec_digits(n: nat)
    ensures
        dec_digits(n).len() > 0,
        all_digits(dec_digits(n)),
        digits_value(dec_digits(n)) == n,
    decreases n,
{
    if n < 10 {
        lemma_digit_char(n as int);
        assert(dec_digits(n).drop_last() =~= Seq::<char>::empty());
        assert(digits_value(Seq::<char>::empty()) == 0);
    } else {
        lemma_dec_digits(n / 10);
        lemma_digit_char((n % 10) as int);
        let s = dec_digits(n);
        assert(s.drop_last() =~= dec_digits(n / 10));
        assert(s.last() == digit_char((n % 10) as int));
        assert((n / 10) * 10 + n % 10 == n) by (nonlinear_arith);
        assert forall|i: int| 0 <= i < s.len() implies #[trigger] is_digit(s[i]) by {
            if i < s.len() - 1 {
                assert(s[i] == dec_digits(n / 10)[i]);
            }
        }
    }
}

/// Reading back a number that was written in decimal gives the number.
pub proof fn lemma_parse_dec_digits(n: nat)
    ensures unsigned_value(dec_digits(n)) == Some(n),
{
    lemma_dec_digits(n);
    let s = dec_digits(n);
    assert(is_digit(s[0]));
    assert(unsigned_body(s) == s);
}

/// Appends `c` to `s`; calls `String::push`.
#[verifier::external_body]
pub(crate) fn push_char(s: &mut String, c: char)
    ensures final(s)@ == old(s)@.push(c),
{
    s.push(c);
}

/// `String::from_utf8`: the bytes become a string exactly when they are valid UTF-8,
/// and the string holds the characters they encode.
#[verifier::external_body]
pub(crate) fn string_from_utf8(bytes: Vec<u8>) -> (res: Option<String>)
    ensures
        res is Some <==> valid_utf8(bytes@),
        res matches Some(s) ==> s@ == decode_utf8(bytes@),
{
    String::from_utf8(bytes).ok()
}

fn digit_to_char(d: u128) -> (c: char)
    requires d < 10,
    ensures c == digit_char(d as int),
{
    if d == 0 { '0' } else if d == 1 { '1' } else if d == 2 { '2' } else if d == 3 { '3' }
    else if d == 4 { '4' } else if d == 5 { '5' } else if d == 6 { '6' } else if d == 7 { '7' }
    else if d == 8 { '8' } else { '9' }
}

/// Appends the decimal spelling of `n` to `s`.
pub fn push_decimal(s: &mut String, n: u128)
    ensures final(s)@ == old(s)@ + dec_digits(n as nat),
    decreases n,
{
    if n >= 10 {
        push_decimal(s, n / 10);
    }
    let c = digit_to_char(n % 10);
    push_char(s, c);
    proof {
        if n < 10 {
            assert(dec_digits(n as nat) =~= seq![c]);
        }
    }
}

/// The decimal spelling of `n`, as `n.to_string()` writes it.
pub fn decimal_string(n: u128) -> (s: String)
    ensures s@ == dec_digits(n as nat),
{
    let mut s = String::new();
    push_decimal(&mut s, n);
    assert(s@ =~= dec_digits(n as nat));
    s
}

/// A longer run of digits is worth at least as much as any of its prefixes.
pub proof fn lemma_digits_value_prefix(s: Seq<char>, k: int)
    requires 0 <= k <= s.len(), all_digits(s),
    ensures digits_value(s.take(k)) <= digits_value(s),
    decreases s.len(),
{
    if k < s.len() {
        let t = s.drop_last();
        assert(all_digits(t)) by {
            assert forall|i: int| 0 <= i < t.len() implies #[trigger] is_digit(t[i]) by {
                assert(is_digit(s[i]));
            }
        }
        lemma_digits_value_prefix(t, k);
        assert(t.take(k) =~= s.take(k));
    } else {
        assert(s.take(k) =~= s);
    }
}

proof fn lemma_digits_value_push(s: Seq<char>, c: char)
    ensures digits_value(s.push(c)) == digits_value(s) * 10 + digit_value(c) as nat,
{
    assert(s.push(c).drop_last() =~= s);
}

/// Reads `s` the way `str::parse` reads an unsigned integer type whose largest value is `max`.
pub fn parse_unsigned(s: &str, max: u128) -> (res: Option<u128>)
    ensures
        match parse_bounded(s@, max as nat) {
            Some(n) => res == Some(n as u128),
            None => res is None,
        },
{
    let n = s.unicode_len();
    let mut start: usize = 0;
    if n > 0 && s.get_char(0) == '+' {
        start = 1;
    }
    let ghost body = unsigned_body(s@);
    assert(body =~= s@.subrange(start as int, n as int));
    if start >= n {
        return None;
    }
    let mut acc: u128 = 0;
    let mut i = start;
    assert(s@.subrange(start as int, i as int) =~= Seq::<char>::empty());
    while i < n
        invariant
            start < n, start <= i <= n, n == s@.len(),
            body == s@.subrange(start as int, n as int),
            body == unsigned_body(s@),
            all_digits(s@.subrange(start as int, i as int)),
            acc as nat == digits_value(s@.subrange(start as int, i as int)),
            acc <= max,
        decreases n - i,
    {
        let c = s.get_char(i);
        let ghost prefix = s@.subrange(start as int, i as int);
        assert(s@.subrange(start as int, i + 1) =~= prefix.push(c));
        assert(body[i - start] == c);
        if !('0' <= c && c <= '9') {
            assert(!all_digits(body)) by {
                assert(!is_digit(body[i - start]));
            }
            return None;
        }
        let d: u128 = (c as u32 - '0' as u32) as u128;
        assert(d == digit_value(c));
        proof { lemma_digits_value_push(prefix, c); }
        if d > max || acc > (max - d) / 10 {
            proof {
                assert(acc * 10 + d > max) by (nonlinear_arith)
                    requires d > max || acc > (max - d) / 10, d <= 9;
                if all_digits(body) {
                    lemma_digits_value_prefix(body, i + 1 - start);
                    assert(body.take(i + 1 - start) =~= prefix.push(c));
                    assert(digits_value(body) > max);
                }
            }
            return None;
        }
        assert(acc * 10 + d <= max) by (nonlinear_arith)
            requires acc <= (max - d) / 10, d <= max;
        acc = acc * 10 + d;
        i = i + 1;
        assert(all_digits(s@.subrange(start as int, i as int))) by {
            let t = s@.subrange(start as int, i as int);
            assert forall|j: int| 0 <= j < t.len() implies #[trigger] is_digit(t[j]) by {
                if j < t.len() - 1 { assert(t[j] == prefix[j]); }
            }
        }
    }
    assert(s@.subrange(start as int, n as int) =~= body);
    Some(acc)
}

/// `str::parse::<u32>`.
pub fn parse_u32(s: &str) -> (res: Option<u32>)
    ensures
        match parse_bounded(s@, u32::MAX as nat) { Some(n) => res == Some(n as u32), None => res is None },
{
    match parse_unsigned(s, u32::MAX as u128) {
        Some(v) => Some(v as u32),
        None => None,
    }
}

/// `str::parse::<u64>`.
pub fn parse_u64(s: &str) -> (res: Option<u64>)
    ensures
        match parse_bounded(s@, u64::MAX as nat) { Some(n) => res == Some(n as u64), None => res is None },
{
    match parse_unsigned(s, u64::MAX as u128) {
        Some(v) => Some(v as u64),
        None => None,
    }
}

/// `str::parse::<u128>`.
pub fn parse_u128(s: &str) -> (res: Option<u128>)
    ensures
        match parse_bounded(s@, u128::MAX as nat) { Some(n) => res == Some(n as u128), None => res is None },
{
    parse_unsigned(s, u128::MAX)
}

/// The characters of `s`, in order.
pub fn chars_of(s: &str) -> (v: Vec<char>)
    ensures v@ == s@,
{
    let n = s.unicode_len();
    let mut v: Vec<char> = Vec::new();
    let mut i: usize = 0;
    while i < n
        invariant n == s@.len(), i <= n, v@ == s@.take(i as int),
        decreases n - i,
    {
        let c = s.get_char(i);
        v.push(c);
        i = i + 1;
        assert(v@ =~= s@.take(i as int));
    }
    assert(s@.take(n as int) =~= s@);
    v
}

/// Appends every character of `s` to `out`.
pub fn push_str(out: &mut String, s: &str)
    ensures final(out)@ == old(out)@ + s@,
{
    let n = s.unicode_len();
    let mut i: usize = 0;
    while i < n
        invariant n == s@.len(), i <= n, out@ == old(out)@ + s@.take(i as int),
        decreases n - i,
    {
        let c = s.get_char(i);
        push_char(out, c);
        i = i + 1;
        assert(out@ =~= old(out)@ + s@.take(i as int));
    }
    assert(s@.take(n as int) =~= s@);
}

/// A new string holding `s`.
pub fn string_of(s: &str) -> (r: String)
    ensures r@ == s@,
{
    let mut r = String::new();
    push_str(&mut r, s);
    assert(r@ =~= s@);
    r
}

/// Whether `s` holds the character `c`.
pub fn has_char(s: &str, c: char) -> (res: bool)
    ensures res == s@.contains(c),
{
    let n = s.unicode_len();
    let mut i: usize = 0;
    while i < n
        invariant n == s@.len(), i <= n, forall|j: int| 0 <= j < i ==> s@[j] != c,
        decreases n - i,
    {
        if s.get_char(i) == c {
            return true;
        }
        i = i + 1;
    }
    false
}

/// Whether `a` and `b` hold the same characters.
pub fn same_text(a: &str, b: &str) -> (res: bool)
    ensures res == (a@ == b@),
{
    let n = a.unicode_len();
    if n != b.unicode_len() {
        return false;
    }
    let mut i: usize = 0;
    while i < n
        invariant n == a@.len(), n == b@.len(), i <= n, a@.take(i as int) == b@.take(i as int),
        decreases n - i,
    {
        if a.get_char(i) != b.get_char(i) {
            assert(a@[i as int] != b@[i as int]);
            return false;
        }
        i = i + 1;
        assert(a@.take(i as int) =~= b@.take(i as int)) by {
            assert(a@.take(i - 1) == b@.take(i - 1));
        }
    }
    assert(a@ =~= a@.take(n as int));
    assert(b@ =~= b@.take(n as int));
    true
}

/// The decimal spelling of a signed value: a `-` before the digits of a negative one.
pub open spec fn signed_digits(v: int) -> Seq<char> {
    if v < 0 { seq!['-'] + dec_digits((-v) as nat) } else { dec_digits(v as nat) }
}

/// Appends the decimal spelling of `v`, as `format!("{}", v)` writes it.
pub fn push_signed(s: &mut String, v: i32)
    ensures final(s)@ == old(s)@ + signed_digits(v as int),
{
    if v < 0 {
        push_char(s, '-');
        let m: i64 = -(v as i64);
        push_decimal(s, m as u128);
        assert(final(s)@ =~= old(s)@ + signed_digits(v as int));
    } else {
        push_decimal(s, v as u128);
    }
}

} // verus!
