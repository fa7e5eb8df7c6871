use vstd::prelude::*;
use vstd::string::*;
use crate::ext::push_char;

verus! {

/// The character for one decimal digit.
pub open spec fn digit_char(d: nat) -> char
    recommends
        d < 10,
{
    ((d + 48) as u8) as char
}

/// The decimal digits of `n`, most significant first, with no sign and no
/// leading zeros (a single '0' for zero).
pub open spec fn dec_digits(n: nat) -> Seq<char>
    decreases n,
{
    if n < 10 {
        seq![digit_char(n)]
    } else {
        dec_digits(n / 10).push(digit_char(n % 10))
    }
}

/// The decimal rendering of a signed value: a '-' before the digits of the
/// magnitude when the value is negative.
pub open spec fn int_digits(n: int) -> Seq<char> {
    if n < 0 {
        seq!['-'] + dec_digits((-n) as nat)
    } else {
        dec_digits(n as nat)
    }
}

fn digit_to_char(d: u8) -> (c: char)
    requires
        d < 10,
    ensures
        c == digit_char(d as nat),
{
    (d + 48) as char
}

/// Renders `n` in decimal.
pub fn u64_to_string(n: u64) -> (s: String)
    ensures
        s@ == dec_digits(n as nat),
    decreases n,
{
    if n < 10 {
        let mut s = String::new();
        push_char(&mut s, digit_to_char(n as u8));
        proof {
            assert(s@ =~= dec_digits(n as nat));
        }
        s
    } else {
        let mut s = u64_to_string(n / 10);
        push_char(&mut s, digit_to_char((n % 10) as u8));
        s
    }
}

/// Renders `n` in decimal, with a leading '-' when negative.
pub fn i32_to_string(n: i32) -> (s: String)
    ensures
        s@ == int_digits(n as int),
{
    if n < 0 {
        let mag: u64 = (-(n as i64)) as u64;
        let mut s = String::new();
        push_char(&mut s, '-');
        let d = u64_to_string(mag);
        let r = s.concat(d.as_str());
        proof {
            assert(r@ =~= int_digits(n as int));
        }
        r
    } else {
        u64_to_string(n as u64)
    }
}

/// Whether `c` is an ASCII decimal digit.
pub open spec fn is_dec_digit(c: char) -> bool {
    48 <= c as int && c as int <= 57
}

/// Whether every character of `s` is an ASCII decimal digit.
pub open spec fn all_dec_digits(s: Seq<char>) -> bool {
    forall|i: int| 0 <= i < s.len() ==> is_dec_digit(#[trigger] s[i])
}

/// The unsigned value of a string of decimal digits.
pub open spec fn dec_value(s: Seq<char>) -> nat
    decreases s.len(),
{
    if s.len() == 0 {
        0
    } else {
        10 * dec_value(s.drop_last()) + ((s.last() as int - 48) as nat)
    }
}

/// The numeric value of one decimal digit character.
pub fn digit_value(c: char) -> (d: u32)
    requires
        is_dec_digit(c),
    ensures
        d == c as int - 48,
{
    match c {
        '0' => 0,
        '1' => 1,
        '2' => 2,
        '3' => 3,
        '4' => 4,
        '5' => 5,
        '6' => 6,
        '7' => 7,
        '8' => 8,
        _ => 9,
    }
}

/// Parses `chars[from..to]` as an unsigned decimal number: the result is
/// the value exactly when the range is nonempty, holds only digits, and
/// the value fits a u16; otherwise nothing.
pub fn parse_u16(chars: &Vec<char>, from: usize, to: usize) -> (r: Option<u16>)
    requires
        from <= to <= chars@.len(),
    ensures
        ({
            let s = chars@.subrange(from as int, to as int);
            match r {
                Some(v) => s.len() > 0 && all_dec_digits(s) && dec_value(s) <= u16::MAX
                    && v == dec_value(s),
                None => s.len() == 0 || !all_dec_digits(s) || dec_value(s) > u16::MAX,
            }
        }),
{
    if from == to {
        return None;
    }
    let mut v: u32 = 0;
    let mut big = false;
    let mut i: usize = from;
    while i < to
        invariant
            from <= i <= to <= chars@.len(),
            all_dec_digits(chars@.subrange(from as int, i as int)),
            big ==> dec_value(chars@.subrange(from as int, i as int)) > u16::MAX,
            !big ==> v == dec_value(chars@.subrange(from as int, i as int)) && v <= u16::MAX,
        decreases to - i,
    {
        let c = chars[i];
        if c < '0' || c > '9' {
            proof {
                let s = chars@.subrange(from as int, to as int);
                assert(s[i - from] == chars@[i as int]);
                assert(!is_dec_digit(s[i - from]));
            }
            return None;
        }
        let d: u32 = digit_value(c);
        proof {
            let pre = chars@.subrange(from as int, i as int);
            let post = chars@.subrange(from as int, (i + 1) as int);
            assert(post.drop_last() =~= pre);
            assert(post.last() == chars@[i as int]);
            assert(is_dec_digit(chars@[i as int]));
            assert forall|j: int| 0 <= j < post.len() implies is_dec_digit(#[trigger] post[j]) by {
                if j < pre.len() {
                    assert(post[j] == pre[j]);
                } else {
                    assert(post[j] == chars@[i as int]);
                }
            }
            assert(all_dec_digits(post));
        }
        if !big {
            v = v * 10 + d;
            if v > 65535 {
                big = true;
            }
        }
        i += 1;
    }
    if big {
        None
    } else {
        Some(v as u16)
    }
}

/// Copies the characters of `s` into a vector.
pub fn str_chars(s: &str) -> (r: Vec<char>)
    ensures
        r@ == s@,
{
    let n = s.unicode_len();
    let mut r: Vec<char> = Vec::new();
    let mut i: usize = 0;
    while i < n
        invariant
            0 <= i <= n,
            n == s@.len(),
            r@ == s@.take(i as int),
        decreases n - i,
    {
        let c = s.get_char(i);
        r.push(c);
        proof {
            assert(s@.take((i + 1) as int) =~= s@.take(i as int).push(s@[i as int]));
        }
        i += 1;
    }
    proof {
        assert(s@.take(n as int) =~= s@);
    }
    r
}

} // verus!
