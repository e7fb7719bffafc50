use vstd::prelude::*;
use vstd::string::*;

verus! {

/// A fresh string holding the characters of `s`.
pub fn string_of(s: &str) -> (r: String)
    ensures
        r@ == s@,
{
    s.to_owned()
}

/// Appends the characters of `t` to `s`.
pub fn append_str(s: &mut String, t: &str)
    ensures
        final(s)@ == old(s)@ + t@,
{
    s.append(t)
}

/// `String::push`: appends one character.
#[verifier::external_body]
pub fn push_char(s: &mut String, c: char)
    ensures
        final(s)@ == old(s)@.push(c),
{
    s.push(c)
}

/// The number of characters of `s`.
pub fn char_count(s: &String) -> (n: usize)
    ensures
        n == s@.len(),
{
    s.as_str().unicode_len()
}

/// The character at position `i` of `s`.
pub fn char_at(s: &String, i: usize) -> (c: char)
    requires
        i < s@.len(),
    ensures
        c == s@[i as int],
{
    s.as_str().get_char(i)
}

/// The UTF-8 encoding of `s`.
pub fn utf8_bytes(s: &String) -> (b: Vec<u8>)
    ensures
        b@ == vstd::utf8::encode_utf8(s@),
{
    s.as_str().as_bytes_vec()
}

/// `String::from_utf8`: the string that `bytes` encodes, when `bytes` is valid UTF-8.
#[verifier::external_body]
pub fn string_from_utf8(bytes: Vec<u8>) -> (r: Option<String>)
    ensures
        r is Some <==> vstd::utf8::valid_utf8(bytes@),
        r matches Some(s) ==> s@ == vstd::utf8::decode_utf8(bytes@),
{
    match String::from_utf8(bytes) {
        Ok(s) => Some(s),
        Err(_) => None,
    }
}

pub open spec fn digit_char(d: int) -> char {
    if d == 0 { '0' }
    else if d == 1 { '1' }
    else if d == 2 { '2' }
    else if d == 3 { '3' }
    else if d == 4 { '4' }
    else if d == 5 { '5' }
    else if d == 6 { '6' }
    else if d == 7 { '7' }
    else if d == 8 { '8' }
    else { '9' }
}

/// The decimal digits of a natural number, most significant first, without leading zeros.
pub open spec fn nat_digits(n: nat) -> Seq<char>
    decreases n,
{
    if n < 10 {
        seq![digit_char(n as int)]
    } else {
        nat_digits(n / 10).push(digit_char((n % 10) as int))
    }
}

/// The decimal rendering of an integer, with a leading `-` when negative.
pub open spec fn decimal(x: int) -> Seq<char> {
    if x < 0 {
        seq!['-'] + nat_digits((-x) as nat)
    } else {
        nat_digits(x as nat)
    }
}

fn digit(d: u128) -> (c: char)
    requires
        d < 10,
    ensures
        c == digit_char(d as int),
{
    if d == 0 { '0' }
    else if d == 1 { '1' }
    else if d == 2 { '2' }
    else if d == 3 { '3' }
    else if d == 4 { '4' }
    else if d == 5 { '5' }
    else if d == 6 { '6' }
    else if d == 7 { '7' }
    else if d == 8 { '8' }
    else { '9' }
}

fn push_digits(s: &mut String, n: u128)
    ensures
        final(s)@ == old(s)@ + nat_digits(n as nat),
    decreases n,
{
    if n >= 10 {
        push_digits(s, n / 10);
        push_char(s, digit(n % 10));
        assert(final(s)@ == old(s)@ + nat_digits(n as nat)) by {
            assert(nat_digits(n as nat) == nat_digits((n / 10) as nat).push(digit_char((n % 10) as int)));
        }
    } else {
        push_char(s, digit(n));
        assert(nat_digits(n as nat) == seq![digit_char(n as int)]);
        assert(old(s)@.push(digit_char(n as int)) =~= old(s)@ + seq![digit_char(n as int)]);
    }
}

/// The decimal rendering of a signed integer.
pub fn format_signed(x: i128) -> (r: String)
    ensures
        r@ == decimal(x as int),
{
    let mut s = String::new();
    if x < 0 {
        push_char(&mut s, '-');
        let magnitude: u128 = ((-(x + 1)) as u128) + 1;
        push_digits(&mut s, magnitude);
    } else {
        push_digits(&mut s, x as u128);
        assert(s@ =~= nat_digits(x as nat));
    }
    s
}

/// The decimal rendering of an unsigned integer.
pub fn format_unsigned(x: u128) -> (r: String)
    ensures
        r@ == decimal(x as int),
{
    let mut s = String::new();
    push_digits(&mut s, x);
    assert(s@ =~= nat_digits(x as nat));
    s
}

pub open spec fn is_digit(c: char) -> bool {
    '0' <= c && c <= '9'
}

pub open spec fn digit_value(c: char) -> int {
    (c as int) - ('0' as int)
}

pub open spec fn all_digits(s: Seq<char>) -> bool {
    forall|i: int| 0 <= i < s.len() ==> is_digit(#[trigger] s[i])
}

/// The number that a string of decimal digits denotes.
pub open spec fn digits_value(s: Seq<char>) -> int
    decreases s.len(),
{
    if s.len() == 0 {
        0
    } else {
        digits_value(s.drop_last()) * 10 + digit_value(s.last())
    }
}

pub open spec fn unsigned_digits(s: Seq<char>) -> Option<int> {
    if s.len() > 0 && all_digits(s) {
        Some(digits_value(s))
    } else {
        None
    }
}

/// What a decimal integer literal denotes: an optional sign (`-` only where negative
/// numbers are allowed), then at least one digit and nothing else.
pub open spec fn parse_int_spec(s: Seq<char>, signed: bool) -> Option<int> {
    if s.len() > 0 && s[0] == '+' {
        unsigned_digits(s.drop_first())
    } else if s.len() > 0 && s[0] == '-' && signed {
        match unsigned_digits(s.drop_first()) {
            Some(v) => Some(-v),
            None => None,
        }
    } else {
        unsigned_digits(s)
    }
}

proof fn lemma_digits_value_nonneg(s: Seq<char>)
    requires
        all_digits(s),
    ensures
        digits_value(s) >= 0,
    decreases s.len(),
{
    if s.len() > 0 {
        assert(all_digits(s.drop_last()));
        lemma_digits_value_nonneg(s.drop_last());
        assert(is_digit(s[s.len() - 1]));
    }
}

proof fn lemma_digits_value_prefix(s: Seq<char>, i: int)
    requires
        all_digits(s),
        0 <= i <= s.len(),
    ensures
        digits_value(s.take(i)) <= digits_value(s),
    decreases s.len() - i,
{
    if i < s.len() {
        lemma_digits_value_prefix(s, i + 1);
        let t = s.take(i + 1);
        assert(t.drop_last() =~= s.take(i));
        assert(all_digits(t.drop_last()));
        lemma_digits_value_nonneg(t.drop_last());
        assert(is_digit(s[i]));
        assert(t.last() == s[i]);
    } else {
        assert(s.take(i) =~= s);
    }
}

/// Reads the decimal digits of `s` from position `from` on; `None` when there are none,
/// when one is not a digit, or when the number exceeds `cap`.
fn read_digits(s: &String, from: usize, cap: u128) -> (r: Option<u128>)
    requires
        from <= s@.len(),
        cap >= 10,
    ensures
        match r {
            Some(v) => unsigned_digits(s@.skip(from as int)) == Some(v as int) && v <= cap,
            None => unsigned_digits(s@.skip(from as int)) is None
                || digits_value(s@.skip(from as int)) > cap,
        },
{
    let n = char_count(s);
    if from >= n {
        return None;
    }
    let ghost t = s@.skip(from as int);
    let mut acc: u128 = 0;
    let mut i = from;
    while i < n
        invariant
            from <= i <= n,
            n == s@.len(),
            t == s@.skip(from as int),
            from < n,
            all_digits(t.take(i - from)),
            acc as int == digits_value(t.take(i - from)),
            acc <= cap,
            cap >= 10,
        decreases n - i,
    {
        let c = char_at(s, i);
        let ghost k = i - from;
        assert(t[k] == c);
        if !('0' <= c && c <= '9') {
            assert(!all_digits(t)) by {
                assert(!is_digit(t[k]));
            }
            return None;
        }
        let d = (c as u32 - '0' as u32) as u128;
        assert(t.take(k + 1).drop_last() =~= t.take(k));
        assert(t.take(k + 1).last() == c);
        assert(digits_value(t.take(k + 1)) == acc * 10 + d);
        if acc > cap / 10 || acc * 10 > cap - d {
            proof {
                assert(all_digits(t.take(k + 1)));
                if all_digits(t) {
                    lemma_digits_value_prefix(t, k + 1);
                    assert(t.take(k + 1).take(k + 1) =~= t.take(k + 1));
                }
            }
            return None;
        }
        acc = acc * 10 + d;
        i = i + 1;
        assert(all_digits(t.take(i - from)));
    }
    assert(t.take(n - from) =~= t);
    Some(acc)
}

/// Parses a decimal integer literal (see `parse_int_spec`) and checks that it lies
/// within `[lo, hi]`.
pub fn parse_int(s: &String, signed: bool, lo: i128, hi: i128) -> (r: Option<i128>)
    requires
        -0x1_0000_0000_0000_0000 <= lo,
        hi <= 0x1_0000_0000_0000_0000,
    ensures
        match r {
            Some(v) => parse_int_spec(s@, signed) == Some(v as int) && lo <= v <= hi,
            None => match parse_int_spec(s@, signed) {
                Some(x) => x < lo || x > hi,
                None => true,
            },
        },
{
    let n = char_count(s);
    let cap: u128 = 0x1_0000_0000_0000_0000;
    if n > 0 && char_at(s, 0) == '+' {
        match read_digits(s, 1, cap) {
            Some(v) => {
                assert(s@.skip(1) =~= s@.drop_first());
                if (v as i128) < lo || (v as i128) > hi { None } else { Some(v as i128) }
            }
            None => {
                assert(s@.skip(1) =~= s@.drop_first());
                None
            }
        }
    } else if n > 0 && char_at(s, 0) == '-' && signed {
        match read_digits(s, 1, cap) {
            Some(v) => {
                assert(s@.skip(1) =~= s@.drop_first());
                let x = -(v as i128);
                if x < lo || x > hi { None } else { Some(x) }
            }
            None => {
                assert(s@.skip(1) =~= s@.drop_first());
                None
            }
        }
    } else {
        if n == 0 {
            return None;
        }
        match read_digits(s, 0, cap) {
            Some(v) => {
                assert(s@.skip(0) =~= s@);
                if (v as i128) < lo || (v as i128) > hi { None } else { Some(v as i128) }
            }
            None => {
                assert(s@.skip(0) =~= s@);
                None
            }
        }
    }
}

} // verus!
