//! Character-level text helpers: decimal rendering and parsing of
//! integers, and conversions between `str` and character sequences.
use vstd::prelude::*;
use vstd::std_specs::iter::IteratorSpec;

verus! {

/// The ASCII character of the decimal digit `d` (`d < 10`).
pub open spec fn digit_char(d: nat) -> char {
    ((d + 48) as u8) as char
}

/// Decimal representation of `n`, most significant digit first, no padding.
pub open spec fn decimal_digits(n: nat) -> Seq<char>
    decreases n,
{
    if n < 10 {
        seq![digit_char(n)]
    } else {
        decimal_digits(n / 10).push(digit_char(n % 10))
    }
}

/// Appends one character to a `String` (`String::push`).
#[verifier::external_body]
pub(crate) fn string_push(s: &mut String, c: char)
    ensures
        final(s)@ == old(s)@.push(c),
{
    s.push(c);
}

/// The ASCII character of the decimal digit `d`.
pub fn digit(d: u64) -> (c: char)
    requires
        d < 10,
    ensures
        c == digit_char(d as nat),
{
    let b: u8 = (d as u8) + 48;
    b as char
}

/// Appends the decimal representation of `n` to `s`.
pub fn push_decimal(s: &mut String, n: u64)
    ensures
        final(s)@ == old(s)@ + decimal_digits(n as nat),
    decreases n,
{
    if n >= 10 {
        push_decimal(s, n / 10);
    }
    string_push(s, digit(n % 10));
    assert(s@ =~= old(s)@ + decimal_digits(n as nat));
}

/// `10^k`.
pub open spec fn pow10(k: nat) -> nat
    decreases k,
{
    if k == 0 {
        1
    } else {
        10 * pow10((k - 1) as nat)
    }
}

/// A number below `10^k` has at most `k` decimal digits.
pub proof fn lemma_decimal_len_bound(n: nat, k: nat)
    requires
        k >= 1,
        n < pow10(k),
    ensures
        1 <= decimal_digits(n).len() <= k,
    decreases k,
{
    if n >= 10 {
        assert(k >= 2) by {
            if k == 1 {
                assert(pow10(1) == 10 * pow10(0));
            }
        }
        lemma_decimal_len_bound(n / 10, (k - 1) as nat);
    }
}

/// Number of decimal digits of `n`.
pub fn decimal_len(n: u64) -> (len: usize)
    ensures
        len == decimal_digits(n as nat).len(),
        1 <= len <= 20,
    decreases n,
{
    proof {
        reveal_with_fuel(pow10, 21);
        assert(pow10(20) == 100000000000000000000);
        lemma_decimal_len_bound(n as nat, 20);
    }
    if n >= 10 {
        1 + decimal_len(n / 10)
    } else {
        1
    }
}

/// `n` in decimal, left-padded with `'0'` to at least `width` characters.
pub open spec fn zero_padded(n: nat, width: nat) -> Seq<char> {
    let d = decimal_digits(n);
    if d.len() >= width {
        d
    } else {
        Seq::new((width - d.len()) as nat, |i: int| '0') + d
    }
}

/// Appends `n` in decimal, left-padded with `'0'` to at least `width`
/// characters.
pub fn push_zero_padded(s: &mut String, n: u64, width: usize)
    ensures
        final(s)@ == old(s)@ + zero_padded(n as nat, width as nat),
{
    let len = decimal_len(n);
    let mut i: usize = len;
    let ghost start = s@;
    while i < width
        invariant
            len <= i,
            i <= width || i == len,
            s@ == start + Seq::new((i - len) as nat, |k: int| '0'),
        decreases width - i,
    {
        string_push(s, '0');
        i = i + 1;
        assert(s@ =~= start + Seq::new((i - len) as nat, |k: int| '0'));
    }
    push_decimal(s, n);
    if len >= width {
        assert(s@ =~= start + zero_padded(n as nat, width as nat));
    } else {
        assert(s@ =~= start + zero_padded(n as nat, width as nat));
    }
}

/// The characters of `s`, in order.
pub fn chars_of(s: &str) -> (v: Vec<char>)
    ensures
        v@ == s@,
{
    let mut it = s.chars();
    let mut v: Vec<char> = Vec::new();
    loop
        invariant
            v@ + it.remaining() == s@,
            it.obeys_prophetic_iter_laws(),
            it.decrease() is Some,
        decreases it.decrease()->0,
    {
        match it.next() {
            Some(c) => {
                v.push(c);
            },
            None => {
                assert(v@ =~= s@);
                return v;
            },
        }
    }
}

/// A `String` holding exactly the characters `cs`.
pub fn string_from_chars(cs: &[char]) -> (s: String)
    ensures
        s@ == cs@,
{
    let mut s = String::new();
    let mut i: usize = 0;
    while i < cs.len()
        invariant
            i <= cs@.len(),
            s@ == cs@.take(i as int),
        decreases cs@.len() - i,
    {
        string_push(&mut s, cs[i]);
        i = i + 1;
        assert(s@ =~= cs@.take(i as int));
    }
    assert(cs@.take(i as int) =~= cs@);
    s
}

/// `c` is one of the ASCII digits `'0'..='9'`.
pub open spec fn is_digit(c: char) -> bool {
    '0' <= c && c <= '9'
}

/// Every character of `s` is an ASCII digit.
pub open spec fn all_digits(s: Seq<char>) -> bool {
    forall|i: int| 0 <= i < s.len() ==> is_digit(#[trigger] s[i])
}

/// Numeric value of the ASCII digit `c`.
pub open spec fn digit_value(c: char) -> nat {
    ((c as int) - 48) as nat
}

/// Value of the decimal numeral `s` (most significant digit first).
pub open spec fn digits_value(s: Seq<char>) -> nat
    decreases s.len(),
{
    if s.len() == 0 {
        0
    } else {
        digits_value(s.drop_last()) * 10 + digit_value(s.last())
    }
}

/// A numeral's value is at least the value of each of its prefixes.
pub proof fn lemma_digits_value_prefix(s: Seq<char>, i: int)
    requires
        0 <= i <= s.len(),
    ensures
        digits_value(s.take(i)) <= digits_value(s),
    decreases s.len(),
{
    if i < s.len() {
        lemma_digits_value_prefix(s.drop_last(), i);
        assert(s.drop_last().take(i) =~= s.take(i));
    } else {
        assert(s.take(i) =~= s);
    }
}

/// `s` is a non-empty run of ASCII digits whose value is at most `limit`.
pub open spec fn bounded_numeral(s: Seq<char>, limit: nat) -> bool {
    s.len() > 0 && all_digits(s) && digits_value(s) <= limit
}

/// Reads `s[start..]` as a decimal numeral: `Some(value)` when it is a
/// non-empty run of ASCII digits whose value is at most `limit`.
pub fn parse_digits(s: &[char], start: usize, limit: u64) -> (r: Option<u64>)
    requires
        start <= s@.len(),
        limit <= u32::MAX,
    ensures
        r is Some <==> bounded_numeral(s@.skip(start as int), limit as nat),
        r matches Some(v) ==> v == digits_value(s@.skip(start as int)),
{
    let ghost body = s@.skip(start as int);
    if start == s.len() {
        return None;
    }
    let mut acc: u64 = 0;
    let mut i: usize = start;
    while i < s.len()
        invariant
            start <= i <= s@.len(),
            body == s@.skip(start as int),
            limit <= u32::MAX,
            all_digits(body.take(i - start)),
            acc == digits_value(body.take(i - start)),
            acc <= limit,
        decreases s@.len() - i,
    {
        let c = s[i];
        assert(body[i - start] == c);
        if !('0' <= c && c <= '9') {
            assert(!all_digits(body));
            return None;
        }
        let d: u64 = ((c as u32) - 48) as u64;
        assert(body.take(i + 1 - start).drop_last() =~= body.take(i - start));
        acc = acc * 10 + d;
        i = i + 1;
        assert(all_digits(body.take(i - start)));
        if acc > limit {
            proof {
                if all_digits(body) {
                    lemma_digits_value_prefix(body, i - start);
                }
            }
            return None;
        }
    }
    assert(body.take(i - start) =~= body);
    Some(acc)
}

/// What `u32::from_str` accepts: an optional `'+'`, then a non-empty run of
/// ASCII digits with value at most `u32::MAX`.
pub open spec fn parse_u32_spec(s: Seq<char>) -> Option<u32> {
    let body = if s.len() > 0 && s[0] == '+' { s.drop_first() } else { s };
    if bounded_numeral(body, u32::MAX as nat) {
        Some(digits_value(body) as u32)
    } else {
        None
    }
}

/// What `i16::from_str` accepts: an optional `'+'` or `'-'`, then a
/// non-empty run of ASCII digits whose signed value fits in `i16`.
pub open spec fn parse_i16_spec(s: Seq<char>) -> Option<i16> {
    if s.len() > 0 && s[0] == '-' {
        let body = s.drop_first();
        if bounded_numeral(body, 32768) {
            Some((0 - digits_value(body)) as i16)
        } else {
            None
        }
    } else {
        let body = if s.len() > 0 && s[0] == '+' { s.drop_first() } else { s };
        if bounded_numeral(body, 32767) {
            Some(digits_value(body) as i16)
        } else {
            None
        }
    }
}

/// Parses `s` as a `u32` in decimal, as `str::parse::<u32>` does.
pub fn parse_u32(s: &[char]) -> (r: Option<u32>)
    ensures
        r == parse_u32_spec(s@),
{
    let start: usize = if s.len() > 0 && s[0] == '+' { 1 } else { 0 };
    assert(s@.skip(start as int) =~= (if s@.len() > 0 && s@[0] == '+' { s@.drop_first() } else { s@ }));
    match parse_digits(s, start, 0xffff_ffff) {
        Some(v) => Some(v as u32),
        None => None,
    }
}

/// Parses `s` as an `i16` in decimal, as `str::parse::<i16>` does.
pub fn parse_i16(s: &[char]) -> (r: Option<i16>)
    ensures
        r == parse_i16_spec(s@),
{
    if s.len() > 0 && s[0] == '-' {
        assert(s@.skip(1) =~= s@.drop_first());
        match parse_digits(s, 1, 32768) {
            Some(v) => {
                let n: i32 = 0 - (v as i32);
                Some(n as i16)
            },
            None => None,
        }
    } else {
        let start: usize = if s.len() > 0 && s[0] == '+' { 1 } else { 0 };
        assert(s@.skip(start as int) =~= (if s@.len() > 0 && s@[0] == '+' { s@.drop_first() } else { s@ }));
        match parse_digits(s, start, 32767) {
            Some(v) => Some(v as i16),
            None => None,
        }
    }
}

/// `digit_char` gives an ASCII digit whose value is the digit.
pub proof fn lemma_digit_char(d: nat)
    requires
        d < 10,
    ensures
        is_digit(digit_char(d)),
        digit_value(digit_char(d)) == d,
{
    let b: u8 = (d + 48) as u8;
    assert(b as int == d + 48);
    assert((b as char) as int == b as int);
}

/// The decimal rendering of a number is a numeral with that value, with no
/// sign in front.
pub proof fn lemma_decimal_digits_numeral(n: nat)
    ensures
        decimal_digits(n).len() > 0,
        all_digits(decimal_digits(n)),
        digits_value(decimal_digits(n)) == n,
        is_digit(decimal_digits(n)[0]),
    decreases n,
{
    lemma_digit_char(n % 10);
    if n >= 10 {
        lemma_decimal_digits_numeral(n / 10);
        let d = decimal_digits(n);
        assert(d.drop_last() =~= decimal_digits(n / 10));
        assert(d[0] == decimal_digits(n / 10)[0]);
        assert((n / 10) * 10 + n % 10 == n);
        assert(d.last() == digit_char(n % 10));
        assert(digits_value(d) == digits_value(decimal_digits(n / 10)) * 10 + digit_value(d.last()));
        assert forall|i: int| 0 <= i < d.len() implies is_digit(#[trigger] d[i]) by {
            if i < d.len() - 1 {
                assert(d[i] == decimal_digits(n / 10)[i]);
            }
        }
    } else {
        assert(n % 10 == n);
        assert(decimal_digits(n)[0] == digit_char(n));
        assert(decimal_digits(n).drop_last() =~= Seq::<char>::empty());
        assert(digits_value(decimal_digits(n)) == digits_value(Seq::<char>::empty()) * 10 + digit_value(digit_char(n)));
    }
}

/// Rendering a `u32` in decimal and parsing it back gives the number.
pub proof fn lemma_decimal_parses_back(n: u32)
    ensures
        parse_u32_spec(decimal_digits(n as nat)) == Some(n),
{
    lemma_decimal_digits_numeral(n as nat);
    let d = decimal_digits(n as nat);
    assert(d[0] != '+');
}

} // verus!
