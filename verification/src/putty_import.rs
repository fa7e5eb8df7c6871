use vstd::prelude::*;
use vstd::string::*;
use crate::config::{AuthMethod, TunnelConfig, TunnelType};
use crate::ext::{fresh_id, push_char};
use crate::strutil::{
    all_dec_digits, dec_digits, dec_value, digit_value, is_dec_digit, parse_u16, str_chars,
    u64_to_string,
};

verus! {

/// The values read out of one stored session of the external SSH client:
/// plain strings and numbers, exactly as the registry holds them (missing
/// values read as empty strings, a missing port as 22).
#[derive(Debug, Clone)]
pub struct PuttySession {
    pub name: String,
    pub host: String,
    pub port: u32,
    pub username: String,
    pub key_path: String,
    pub port_forwardings: String,
}

/// Whether `c` is an ASCII hexadecimal digit.
pub open spec fn is_hex_digit(c: char) -> bool {
    is_dec_digit(c) || (97 <= c as int && c as int <= 102) || (65 <= c as int && c as int <= 70)
}

/// The value of one hexadecimal digit character.
pub open spec fn hex_val(c: char) -> nat
    recommends
        is_hex_digit(c),
{
    if is_dec_digit(c) {
        (c as int - 48) as nat
    } else if 97 <= c as int && c as int <= 102 {
        (c as int - 87) as nat
    } else {
        (c as int - 55) as nat
    }
}

/// The URL-decoding the session names need: a '%' consumes the up to two
/// characters after it, and contributes the byte they name when both are
/// hexadecimal digits (one digit alone at the end of the string also
/// counts); anything else passes through unchanged.
pub open spec fn url_decode(s: Seq<char>) -> Seq<char>
    decreases s.len(),
{
    if s.len() == 0 {
        Seq::empty()
    } else if s[0] == '%' {
        if s.len() >= 3 {
            if is_hex_digit(s[1]) && is_hex_digit(s[2]) {
                seq![(((16 * hex_val(s[1]) + hex_val(s[2])) as u8) as char)] + url_decode(
                    s.skip(3),
                )
            } else {
                url_decode(s.skip(3))
            }
        } else if s.len() == 2 {
            if is_hex_digit(s[1]) {
                seq![((hex_val(s[1]) as u8) as char)]
            } else {
                Seq::empty()
            }
        } else {
            Seq::empty()
        }
    } else {
        seq![s[0]] + url_decode(s.skip(1))
    }
}

/// The value of `c` as a hexadecimal digit, if it is one.
fn hex_digit_value(c: char) -> (r: Option<u8>)
    ensures
        match r {
            Some(v) => is_hex_digit(c) && v == hex_val(c) && v < 16,
            None => !is_hex_digit(c),
        },
{
    if c >= '0' && c <= '9' {
        Some(digit_value(c) as u8)
    } else if c >= 'a' && c <= 'f' {
        let v: u8 = match c {
            'a' => 10,
            'b' => 11,
            'c' => 12,
            'd' => 13,
            'e' => 14,
            _ => 15,
        };
        Some(v)
    } else if c >= 'A' && c <= 'F' {
        let v: u8 = match c {
            'A' => 10,
            'B' => 11,
            'C' => 12,
            'D' => 13,
            'E' => 14,
            _ => 15,
        };
        Some(v)
    } else {
        None
    }
}

/// Decodes the percent-escapes in `s`, as `url_decode` says.
pub fn urlencoding_decode(s: &str) -> (r: String)
    ensures
        r@ == url_decode(s@),
{
    let chars = str_chars(s);
    let n = chars.len();
    let mut res = String::new();
    let mut i: usize = 0;
    proof {
        assert(s@.skip(0) =~= s@);
        assert(res@ + url_decode(s@) =~= url_decode(s@));
    }
    while i < n
        invariant
            i <= n,
            n == chars@.len(),
            chars@ == s@,
            url_decode(s@) == res@ + url_decode(s@.skip(i as int)),
        decreases n - i,
    {
        let ghost pre = res@;
        let ghost suffix = s@.skip(i as int);
        let c = chars[i];
        proof {
            assert(suffix[0] == s@[i as int]);
        }
        if c == '%' {
            if n - i >= 3 {
                let h1 = hex_digit_value(chars[i + 1]);
                let h2 = hex_digit_value(chars[i + 2]);
                proof {
                    assert(suffix[1] == s@[i + 1]);
                    assert(suffix[2] == s@[i + 2]);
                    assert(suffix.skip(3) =~= s@.skip(i + 3));
                }
                match (h1, h2) {
                    (Some(a), Some(b)) => {
                        let byte: u8 = 16 * a + b;
                        push_char(&mut res, byte as char);
                        proof {
                            assert(res@ =~= pre + seq![(byte as char)]);
                            assert(url_decode(suffix) == seq![(byte as char)] + url_decode(
                                s@.skip(i + 3),
                            ));
                            assert(pre + url_decode(suffix) =~= res@ + url_decode(s@.skip(i + 3)));
                        }
                    },
                    _ => {
                        proof {
                            assert(url_decode(suffix) == url_decode(s@.skip(i + 3)));
                        }
                    },
                }
                i += 3;
            } else if n - i == 2 {
                match hex_digit_value(chars[i + 1]) {
                    Some(a) => {
                        push_char(&mut res, a as char);
                        proof {
                            assert(suffix[1] == s@[i + 1]);
                            assert(suffix.len() == 2);
                            assert(res@ =~= pre + seq![(a as char)]);
                            assert(s@.skip(i + 2) =~= Seq::<char>::empty());
                            assert(pre + url_decode(suffix) =~= res@ + url_decode(s@.skip(i + 2)));
                        }
                    },
                    None => {
                        proof {
                            assert(suffix[1] == s@[i + 1]);
                            assert(suffix.len() == 2);
                            assert(s@.skip(i + 2) =~= Seq::<char>::empty());
                            assert(pre + url_decode(suffix) =~= pre + url_decode(s@.skip(i + 2)));
                        }
                    },
                }
                i += 2;
            } else {
                proof {
                    assert(suffix.len() == 1);
                    assert(s@.skip(i + 1) =~= Seq::<char>::empty());
                    assert(pre + url_decode(suffix) =~= pre + url_decode(s@.skip(i + 1)));
                }
                i += 1;
            }
        } else {
            push_char(&mut res, c);
            proof {
                assert(res@ =~= pre + seq![c]);
                assert(suffix.skip(1) =~= s@.skip(i + 1));
                assert(url_decode(suffix) == seq![c] + url_decode(s@.skip(i + 1)));
                assert(pre + url_decode(suffix) =~= res@ + url_decode(s@.skip(i + 1)));
            }
            i += 1;
        }
    }
    proof {
        assert(s@.skip(n as int) =~= Seq::<char>::empty());
    }
    res
}

/// The index of the first occurrence of `c` in `s`, or -1.
pub open spec fn first_index_of(s: Seq<char>, c: char) -> int
    decreases s.len(),
{
    if s.len() == 0 {
        -1
    } else if s[0] == c {
        0
    } else {
        let rest = first_index_of(s.drop_first(), c);
        if rest == -1 {
            -1
        } else {
            rest + 1
        }
    }
}

/// The index of the last occurrence of `c` in `s`, or -1.
pub open spec fn last_index_of(s: Seq<char>, c: char) -> int
    decreases s.len(),
{
    if s.len() == 0 {
        -1
    } else if s.last() == c {
        s.len() - 1
    } else {
        last_index_of(s.drop_last(), c)
    }
}

/// `first_index_of` names the first occurrence; -1 means none at all.
pub proof fn lemma_first_index_of(s: Seq<char>, c: char)
    ensures
        first_index_of(s, c) == -1 ==> forall|j: int| 0 <= j < s.len() ==> s[j] != c,
        first_index_of(s, c) != -1 ==> {
            let k = first_index_of(s, c);
            &&& 0 <= k < s.len()
            &&& s[k] == c
            &&& forall|j: int| 0 <= j < k ==> s[j] != c
        },
    decreases s.len(),
{
    if s.len() > 0 && s[0] != c {
        lemma_first_index_of(s.drop_first(), c);
        assert(forall|j: int| 1 <= j < s.len() ==> s[j] == s.drop_first()[j - 1]);
    }
}

/// `last_index_of` names the last occurrence; -1 means none at all.
pub proof fn lemma_last_index_of(s: Seq<char>, c: char)
    ensures
        last_index_of(s, c) == -1 ==> forall|j: int| 0 <= j < s.len() ==> s[j] != c,
        last_index_of(s, c) != -1 ==> {
            let k = last_index_of(s, c);
            &&& 0 <= k < s.len()
            &&& s[k] == c
            &&& forall|j: int| k < j < s.len() ==> s[j] != c
        },
    decreases s.len(),
{
    if s.len() > 0 && s.last() != c {
        lemma_last_index_of(s.drop_last(), c);
        assert(forall|j: int| 0 <= j < s.len() - 1 ==> s[j] == s.drop_last()[j]);
    }
}

/// The number a forwarding piece carries, read as the original does: the
/// value when the digits parse as a u16, zero otherwise.
pub open spec fn spec_dec_u16(s: Seq<char>) -> u16 {
    if s.len() > 0 && all_dec_digits(s) && dec_value(s) <= u16::MAX {
        dec_value(s) as u16
    } else {
        0
    }
}

/// One parsed forwarding: its direction, listening port, and destination.
#[derive(Debug, Clone)]
pub struct ParsedForward {
    pub tunnel_type: TunnelType,
    pub local_port: u16,
    pub remote_host: String,
    pub remote_port: u16,
}

/// What one piece of a stored forwarding string means. The leading letter
/// names the direction; the digits before '=' are the listening port,
/// which must be nonzero; a dynamic forwarding needs no destination; the
/// others take `host:port` after the '=', split at the last ':'.
pub open spec fn parse_forward_spec(s: Seq<char>) -> Option<(TunnelType, u16, Seq<char>, u16)> {
    if s.len() == 0 {
        None
    } else {
        let tt = if s[0] == 'L' {
            Some(TunnelType::Local)
        } else if s[0] == 'R' {
            Some(TunnelType::Remote)
        } else if s[0] == 'D' {
            Some(TunnelType::Dynamic)
        } else {
            None
        };
        match tt {
            None => None,
            Some(t) => {
                let rest = s.skip(1);
                let eq = first_index_of(rest, '=');
                let head = if eq == -1 {
                    rest
                } else {
                    rest.take(eq)
                };
                let lp = spec_dec_u16(head);
                if lp == 0 {
                    None
                } else if t == TunnelType::Dynamic {
                    Some((t, lp, "127.0.0.1"@, 0u16))
                } else if eq == -1 {
                    None
                } else {
                    let dest = rest.skip(eq + 1);
                    let colon = last_index_of(dest, ':');
                    if colon == -1 {
                        None
                    } else {
                        Some((t, lp, dest.take(colon), spec_dec_u16(dest.skip(colon + 1))))
                    }
                }
            },
        }
    }
}

/// Copies `chars[from..to]` into a string.
fn range_to_string(chars: &Vec<char>, from: usize, to: usize) -> (r: String)
    requires
        from <= to <= chars@.len(),
    ensures
        r@ == chars@.subrange(from as int, to as int),
{
    let mut r = String::new();
    let mut i: usize = from;
    while i < to
        invariant
            from <= i <= to <= chars@.len(),
            r@ == chars@.subrange(from as int, i as int),
        decreases to - i,
    {
        push_char(&mut r, chars[i]);
        proof {
            assert(chars@.subrange(from as int, (i + 1) as int) =~= chars@.subrange(
                from as int,
                i as int,
            ).push(chars@[i as int]));
        }
        i += 1;
    }
    r
}

/// Parses the piece `chars[from..to]` as one forwarding, as
/// `parse_forward_spec` says.
#[verifier::rlimit(60)]
pub fn parse_forward(chars: &Vec<char>, from: usize, to: usize) -> (r: Option<ParsedForward>)
    requires
        from <= to <= chars@.len(),
    ensures
        ({
            let s = chars@.subrange(from as int, to as int);
            match r {
                Some(p) => parse_forward_spec(s) matches Some(q) && p.tunnel_type == q.0
                    && p.local_port == q.1 && p.remote_host@ == q.2 && p.remote_port == q.3,
                None => parse_forward_spec(s) is None,
            }
        }),
{
    let ghost s = chars@.subrange(from as int, to as int);
    if from == to {
        return None;
    }
    let c0 = chars[from];
    proof {
        assert(s[0] == chars@[from as int]);
    }
    let tt = if c0 == 'L' {
        TunnelType::Local
    } else if c0 == 'R' {
        TunnelType::Remote
    } else if c0 == 'D' {
        TunnelType::Dynamic
    } else {
        return None;
    };
    let ghost rest = s.skip(1);
    proof {
        assert(rest =~= chars@.subrange((from + 1) as int, to as int));
    }
    // find the first '=' in chars[from+1..to]
    let mut eq_abs: usize = from + 1;
    let mut found_eq = false;
    while eq_abs < to && !found_eq
        invariant
            from + 1 <= eq_abs <= to,
            to <= chars@.len(),
            !found_eq ==> forall|j: int| from + 1 <= j < eq_abs ==> chars@[j] != '=',
            found_eq ==> eq_abs < to && chars@[eq_abs as int] == '=' && forall|j: int|
                from + 1 <= j < eq_abs ==> chars@[j] != '=',
        decreases to - eq_abs + (if found_eq { 0int } else { 1int }),
    {
        if chars[eq_abs] == '=' {
            found_eq = true;
        } else {
            eq_abs += 1;
        }
    }
    proof {
        lemma_first_index_of(rest, '=');
        assert(forall|j: int| 0 <= j < rest.len() ==> rest[j] == chars@[from + 1 + j]);
        let fi = first_index_of(rest, '=');
        if found_eq {
            let krel = eq_abs as int - (from + 1);
            assert(rest[krel] == '=');
            if fi == -1 {
                assert(rest[krel] != '=');
            } else if fi < krel {
                assert(chars@[from + 1 + fi] != '=');
                assert(rest[fi] == '=');
            } else if fi > krel {
                assert(rest[krel] != '=');
            }
            assert(fi == krel);
        } else {
            if fi != -1 {
                assert(chars@[from + 1 + fi] != '=');
                assert(rest[fi] == '=');
            }
            assert(fi == -1);
        }
    }
    let head_end = if found_eq {
        eq_abs
    } else {
        to
    };
    proof {
        let eq = first_index_of(rest, '=');
        let head = if eq == -1 {
            rest
        } else {
            rest.take(eq)
        };
        assert(head =~= chars@.subrange((from + 1) as int, head_end as int));
    }
    let lp = match parse_u16(chars, from + 1, head_end) {
        Some(v) => v,
        None => 0,
    };
    if lp == 0 {
        return None;
    }
    match tt {
        TunnelType::Dynamic => Some(
            ParsedForward {
                tunnel_type: tt,
                local_port: lp,
                remote_host: "127.0.0.1".to_owned(),
                remote_port: 0,
            },
        ),
        _ => {
            if !found_eq {
                return None;
            }
            let dest_start = eq_abs + 1;
            let ghost dest = rest.skip(first_index_of(rest, '=') + 1);
            proof {
                assert(dest =~= chars@.subrange(dest_start as int, to as int));
            }
            // find the last ':' in chars[dest_start..to]
            let mut colon_abs: usize = to;
            let mut found_colon = false;
            while colon_abs > dest_start && !found_colon
                invariant
                    dest_start <= colon_abs <= to,
                    to <= chars@.len(),
                    dest_start >= 1,
                    !found_colon ==> forall|j: int| colon_abs <= j < to ==> chars@[j] != ':',
                    found_colon ==> colon_abs < to && chars@[colon_abs as int] == ':'
                        && forall|j: int| colon_abs < j < to ==> chars@[j] != ':',
                decreases colon_abs - dest_start + (if found_colon { 0int } else { 1int }),
            {
                if chars[colon_abs - 1] == ':' {
                    colon_abs -= 1;
                    found_colon = true;
                } else {
                    colon_abs -= 1;
                }
            }
            proof {
                lemma_last_index_of(dest, ':');
                assert(forall|j: int| 0 <= j < dest.len() ==> dest[j] == chars@[dest_start + j]);
                let li = last_index_of(dest, ':');
                if found_colon {
                    let krel = colon_abs as int - dest_start;
                    assert(dest[krel] == ':');
                    if li == -1 {
                        assert(dest[krel] != ':');
                    } else if li > krel {
                        assert(chars@[dest_start + li] != ':');
                        assert(dest[li] == ':');
                    } else if li < krel {
                        assert(dest[krel] != ':');
                    }
                    assert(li == krel);
                } else {
                    if li != -1 {
                        assert(chars@[dest_start + li] != ':');
                        assert(dest[li] == ':');
                    }
                    assert(li == -1);
                }
            }
            if !found_colon {
                return None;
            }
            let host = range_to_string(chars, dest_start, colon_abs);
            let rp = match parse_u16(chars, colon_abs + 1, to) {
                Some(v) => v,
                None => 0,
            };
            proof {
                let colon = last_index_of(dest, ':');
                assert(dest.take(colon) =~= chars@.subrange(dest_start as int, colon_abs as int));
                assert(dest.skip(colon + 1) =~= chars@.subrange((colon_abs + 1) as int, to as int));
            }
            Some(
                ParsedForward {
                    tunnel_type: tt,
                    local_port: lp,
                    remote_host: host,
                    remote_port: rp,
                },
            )
        },
    }
}

/// The pieces of `s` between its commas, in order; an empty string is one
/// empty piece.
pub open spec fn split_commas(s: Seq<char>) -> Seq<Seq<char>>
    decreases s.len(),
{
    if s.len() == 0 {
        seq![Seq::<char>::empty()]
    } else if s.last() == ',' {
        split_commas(s.drop_last()).push(Seq::<char>::empty())
    } else {
        let r = split_commas(s.drop_last());
        r.update(r.len() - 1, r.last().push(s.last()))
    }
}

/// A split has at least one piece.
pub proof fn lemma_split_commas_nonempty(s: Seq<char>)
    ensures
        split_commas(s).len() >= 1,
    decreases s.len(),
{
    if s.len() > 0 {
        lemma_split_commas_nonempty(s.drop_last());
    }
}

/// Splits `chars` at every comma.
fn split_commas_exec(chars: &Vec<char>) -> (r: Vec<Vec<char>>)
    ensures
        r@.map_values(|v: Vec<char>| v@) == split_commas(chars@),
{
    let mut r: Vec<Vec<char>> = Vec::new();
    let mut cur: Vec<char> = Vec::new();
    let n = chars.len();
    let mut i: usize = 0;
    proof {
        assert(split_commas(chars@.take(0)) =~= r@.map_values(|v: Vec<char>| v@).push(cur@));
    }
    while i < n
        invariant
            i <= n,
            n == chars@.len(),
            split_commas(chars@.take(i as int)) == r@.map_values(|v: Vec<char>| v@).push(cur@),
        decreases n - i,
    {
        let ghost pre_r = r@.map_values(|v: Vec<char>| v@);
        let ghost pre_cur = cur@;
        let c = chars[i];
        proof {
            assert(chars@.take((i + 1) as int).drop_last() =~= chars@.take(i as int));
            assert(chars@.take((i + 1) as int).last() == chars@[i as int]);
            lemma_split_commas_nonempty(chars@.take(i as int));
        }
        if c == ',' {
            r.push(cur);
            cur = Vec::new();
            proof {
                assert(r@.map_values(|v: Vec<char>| v@) =~= pre_r.push(pre_cur));
                assert(split_commas(chars@.take((i + 1) as int)) =~= r@.map_values(
                    |v: Vec<char>| v@,
                ).push(cur@));
            }
        } else {
            cur.push(c);
            proof {
                let q = split_commas(chars@.take(i as int));
                assert(q.last() == pre_cur);
                assert(split_commas(chars@.take((i + 1) as int)) =~= q.update(
                    q.len() - 1,
                    pre_cur.push(c),
                ));
                assert(q.update(q.len() - 1, pre_cur.push(c)) =~= pre_r.push(pre_cur.push(c)));
            }
        }
        i += 1;
    }
    r.push(cur);
    proof {
        assert(chars@.take(n as int) =~= chars@);
        assert(r@.map_values(|v: Vec<char>| v@) =~= split_commas(chars@));
    }
    r
}

/// Whether `c` is blank space around a forwarding piece.
pub open spec fn is_space(c: char) -> bool {
    c == ' ' || c == '\t' || c == '\r' || c == '\n'
}

/// `s` without its leading whitespace.
pub open spec fn trim_left(s: Seq<char>) -> Seq<char>
    decreases s.len(),
{
    if s.len() == 0 {
        s
    } else if is_space(s[0]) {
        trim_left(s.skip(1))
    } else {
        s
    }
}

/// `s` without its trailing whitespace.
pub open spec fn trim_right(s: Seq<char>) -> Seq<char>
    decreases s.len(),
{
    if s.len() == 0 {
        s
    } else if is_space(s.last()) {
        trim_right(s.drop_last())
    } else {
        s
    }
}

/// `s` without leading and trailing whitespace.
pub open spec fn trim_spec(s: Seq<char>) -> Seq<char> {
    trim_right(trim_left(s))
}

fn is_space_exec(c: char) -> (r: bool)
    ensures
        r == is_space(c),
{
    c == ' ' || c == '\t' || c == '\r' || c == '\n'
}

/// The bounds of `chars` with leading and trailing whitespace left out.
fn trim_bounds(chars: &Vec<char>) -> (r: (usize, usize))
    ensures
        r.0 <= r.1 <= chars@.len(),
        chars@.subrange(r.0 as int, r.1 as int) == trim_spec(chars@),
{
    let n = chars.len();
    let mut a: usize = 0;
    proof {
        assert(chars@.skip(0) =~= chars@);
    }
    while a < n && is_space_exec(chars[a])
        invariant
            a <= n,
            n == chars@.len(),
            trim_left(chars@) == trim_left(chars@.skip(a as int)),
        decreases n - a,
    {
        proof {
            assert(chars@.skip(a as int)[0] == chars@[a as int]);
            assert(chars@.skip(a as int).skip(1) =~= chars@.skip((a + 1) as int));
        }
        a += 1;
    }
    let ghost t = chars@.skip(a as int);
    proof {
        if a < n {
            assert(t[0] == chars@[a as int]);
        }
        assert(trim_left(chars@) == t);
    }
    let mut b: usize = n;
    proof {
        assert(t.take((n - a) as int) =~= t);
    }
    while b > a && is_space_exec(chars[b - 1])
        invariant
            a <= b <= n,
            n == chars@.len(),
            t == chars@.skip(a as int),
            trim_right(t) == trim_right(t.take((b - a) as int)),
        decreases b,
    {
        proof {
            let cut = t.take((b - a) as int);
            assert(cut.last() == chars@[b - 1]);
            assert(cut.drop_last() =~= t.take((b - 1 - a) as int));
        }
        b -= 1;
    }
    proof {
        let cut = t.take((b - a) as int);
        if b > a {
            assert(cut.last() == chars@[b - 1]);
        }
        assert(trim_right(cut) == cut);
        assert(chars@.subrange(a as int, b as int) =~= cut);
    }
    (a, b)
}

/// The forwardings parsed out of the pieces: each piece, trimmed, that
/// parses contributes its forwarding, in order.
pub open spec fn forwards_of_pieces(ps: Seq<Seq<char>>) -> Seq<
    (TunnelType, u16, Seq<char>, u16),
>
    decreases ps.len(),
{
    if ps.len() == 0 {
        Seq::empty()
    } else {
        let rest = forwards_of_pieces(ps.drop_last());
        let t = trim_spec(ps.last());
        if parse_forward_spec(t) is Some {
            rest.push(parse_forward_spec(t).unwrap())
        } else {
            rest
        }
    }
}

/// The forwardings parsed out of one stored forwarding string.
pub open spec fn forwards_of(s: Seq<char>) -> Seq<(TunnelType, u16, Seq<char>, u16)> {
    forwards_of_pieces(split_commas(s))
}

/// The display name given to an imported forwarding: the decoded session
/// name with the destination in parentheses.
fn forward_name(decoded: &String, host: &String, port: u16) -> (r: String)
    ensures
        r@ == decoded@ + " ("@ + host@ + seq![':'] + dec_digits(port as nat) + ")"@,
{
    let s = decoded.clone();
    let s = s.concat(" (");
    let mut s = s.concat(host.as_str());
    push_char(&mut s, ':');
    let d = u64_to_string(port as u64);
    let s = s.concat(d.as_str());
    let s = s.concat(")");
    proof {
        assert(s@ =~= decoded@ + " ("@ + host@ + seq![':'] + dec_digits(port as nat) + ")"@);
    }
    s
}

/// What an imported definition holds, given the session it came from and
/// the parsed forwarding: a fresh identifier; the decoded session name
/// with the destination; the session's host, port and user; password
/// authentication unless the session names a key file; the forwarding
/// itself; not auto-connected, and enabled.
pub open spec fn forward_matches(
    t: TunnelConfig,
    sess: PuttySession,
    f: (TunnelType, u16, Seq<char>, u16),
) -> bool {
    &&& t.id@.len() == 36
    &&& t.name@ == url_decode(sess.name@) + " ("@ + f.2 + seq![':'] + dec_digits(f.3 as nat)
        + ")"@
    &&& t.host@ == sess.host@
    &&& t.port == sess.port as u16
    &&& t.username@ == sess.username@
    &&& (sess.key_path@.len() == 0 ==> t.auth_method == AuthMethod::Password && t.key_path
        is None)
    &&& (sess.key_path@.len() > 0 ==> t.auth_method == AuthMethod::Key && (t.key_path matches Some(
        k,
    ) && k@ == sess.key_path@))
    &&& t.tunnel_type == f.0
    &&& t.local_port == f.1
    &&& t.remote_host@ == f.2
    &&& t.remote_port == f.3
    &&& !t.auto_connect
    &&& t.enabled
}

/// The definitions imported from one session: one per forwarding that
/// parses out of its stored forwarding string, in order.
pub fn session_to_tunnels(sess: &PuttySession) -> (r: Vec<TunnelConfig>)
    ensures
        r@.len() == forwards_of(sess.port_forwardings@).len(),
        forall|k: int|
            0 <= k < r@.len() ==> forward_matches(
                #[trigger] r@[k],
                *sess,
                forwards_of(sess.port_forwardings@)[k],
            ),
{
    let chars = str_chars(sess.port_forwardings.as_str());
    let pieces = split_commas_exec(&chars);
    let decoded = urlencoding_decode(sess.name.as_str());
    let key_empty = sess.key_path.as_str().is_empty();
    let ghost ps = split_commas(chars@);
    let np = pieces.len();
    let mut r: Vec<TunnelConfig> = Vec::new();
    let mut i: usize = 0;
    proof {
        assert(pieces@.map_values(|v: Vec<char>| v@) == ps);
        assert(forwards_of_pieces(ps.take(0)) =~= Seq::<(TunnelType, u16, Seq<char>, u16)>::empty());
    }
    while i < np
        invariant
            i <= np,
            np == pieces@.len(),
            pieces@.map_values(|v: Vec<char>| v@) == ps,
            decoded@ == url_decode(sess.name@),
            key_empty == (sess.key_path@.len() == 0),
            r@.len() == forwards_of_pieces(ps.take(i as int)).len(),
            forall|k: int|
                0 <= k < r@.len() ==> forward_matches(
                    #[trigger] r@[k],
                    *sess,
                    forwards_of_pieces(ps.take(i as int))[k],
                ),
        decreases np - i,
    {
        let ghost pre = forwards_of_pieces(ps.take(i as int));
        proof {
            assert(ps.take((i + 1) as int).drop_last() =~= ps.take(i as int));
            assert(ps.take((i + 1) as int).last() == ps[i as int]);
            assert(ps[i as int] == pieces@[i as int]@);
        }
        let piece = &pieces[i];
        let (a, b) = trim_bounds(piece);
        let parsed = parse_forward(piece, a, b);
        match parsed {
            Some(p) => {
                let name = forward_name(&decoded, &p.remote_host, p.remote_port);
                let t = TunnelConfig {
                    id: fresh_id(),
                    name,
                    host: sess.host.clone(),
                    port: #[verifier::truncate] (sess.port as u16),
                    username: sess.username.clone(),
                    auth_method: if key_empty {
                        AuthMethod::Password
                    } else {
                        AuthMethod::Key
                    },
                    key_path: if key_empty {
                        None
                    } else {
                        Some(sess.key_path.clone())
                    },
                    tunnel_type: p.tunnel_type,
                    local_port: p.local_port,
                    remote_host: p.remote_host,
                    remote_port: p.remote_port,
                    auto_connect: false,
                    enabled: true,
                };
                r.push(t);
                proof {
                    let cur = forwards_of_pieces(ps.take((i + 1) as int));
                    assert(cur == pre.push(parse_forward_spec(trim_spec(ps[i as int])).unwrap()));
                    assert(forall|k: int| 0 <= k < pre.len() ==> cur[k] == pre[k]);
                }
            },
            None => {
                proof {
                    assert(forwards_of_pieces(ps.take((i + 1) as int)) == pre);
                }
            },
        }
        i += 1;
    }
    proof {
        assert(ps.take(np as int) =~= ps);
        assert(chars@ == sess.port_forwardings@);
    }
    r
}

/// Whether a stored session contributes to an import at all: it names a
/// host and holds at least one forwarding.
pub open spec fn session_included(s: PuttySession) -> bool {
    s.host@.len() > 0 && s.port_forwardings@.len() > 0
}

/// Every imported definition, in session order: one per parsed forwarding
/// of each included session, paired here with the session it came from.
pub open spec fn import_pairs(ss: Seq<PuttySession>) -> Seq<
    (PuttySession, (TunnelType, u16, Seq<char>, u16)),
>
    decreases ss.len(),
{
    if ss.len() == 0 {
        Seq::empty()
    } else {
        import_pairs(ss.drop_last()) + (if session_included(ss.last()) {
            forwards_of(ss.last().port_forwardings@).map_values(
                |f: (TunnelType, u16, Seq<char>, u16)| (ss.last(), f),
            )
        } else {
            Seq::<(PuttySession, (TunnelType, u16, Seq<char>, u16))>::empty()
        })
    }
}

/// Imports tunnel definitions from the stored sessions: a session without
/// a host or without forwardings is skipped; every forwarding that parses
/// becomes one definition.
pub fn import_sessions(sessions: &Vec<PuttySession>) -> (r: Vec<TunnelConfig>)
    ensures
        r@.len() == import_pairs(sessions@).len(),
        forall|k: int|
            0 <= k < r@.len() ==> forward_matches(
                #[trigger] r@[k],
                import_pairs(sessions@)[k].0,
                import_pairs(sessions@)[k].1,
            ),
{
    let n = sessions.len();
    let mut r: Vec<TunnelConfig> = Vec::new();
    let mut i: usize = 0;
    while i < n
        invariant
            i <= n,
            n == sessions@.len(),
            r@.len() == import_pairs(sessions@.take(i as int)).len(),
            forall|k: int|
                0 <= k < r@.len() ==> forward_matches(
                    #[trigger] r@[k],
                    import_pairs(sessions@.take(i as int))[k].0,
                    import_pairs(sessions@.take(i as int))[k].1,
                ),
        decreases n - i,
    {
        let ghost pre = import_pairs(sessions@.take(i as int));
        proof {
            assert(sessions@.take((i + 1) as int).drop_last() =~= sessions@.take(i as int));
            assert(sessions@.take((i + 1) as int).last() == sessions@[i as int]);
        }
        let sess = &sessions[i];
        let included = !sess.host.as_str().is_empty() && !sess.port_forwardings.as_str().is_empty();
        if included {
            let mut ts = session_to_tunnels(sess);
            let ghost tsv = ts@;
            r.append(&mut ts);
            proof {
                let cur = import_pairs(sessions@.take((i + 1) as int));
                let fw = forwards_of(sessions@[i as int].port_forwardings@);
                let mapped = fw.map_values(
                    |f: (TunnelType, u16, Seq<char>, u16)| (sessions@[i as int], f),
                );
                assert(cur == pre + mapped);
                assert(forall|k: int| 0 <= k < pre.len() ==> cur[k] == pre[k]);
                assert(forall|k: int|
                    pre.len() <= k < cur.len() ==> cur[k] == (sessions@[i as int], fw[k
                        - pre.len()]));
            }
        } else {
            proof {
                assert(import_pairs(sessions@.take((i + 1) as int)) =~= pre);
            }
        }
        i += 1;
    }
    proof {
        assert(sessions@.take(n as int) =~= sessions@);
    }
    r
}

} // verus!

