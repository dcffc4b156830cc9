use vstd::prelude::*;
use crate::types::Digest;

verus! {

/// Why a query parameter was refused.
#[derive(Clone, Copy, Debug, PartialEq, Eq, Structural)]
pub enum ParamsError {
    /// `previous_cfg_hash` is not 64 hexadecimal digits.
    FromHex,
    /// `actual_from` is not a height.
    IncorrectRequest,
}

pub open spec fn is_hex_digit(c: char) -> bool {
    ('0' <= c && c <= '9') || ('a' <= c && c <= 'f') || ('A' <= c && c <= 'F')
}

pub open spec fn hex_digit_value(c: char) -> nat {
    if '0' <= c && c <= '9' {
        (c as u32 - '0' as u32) as nat
    } else if 'a' <= c && c <= 'f' {
        (c as u32 - 'a' as u32 + 10) as nat
    } else {
        (c as u32 - 'A' as u32 + 10) as nat
    }
}

/// The number that hexadecimal digits `s` write, most significant first.
pub open spec fn hex_value(s: Seq<char>) -> nat
    decreases s.len(),
{
    if s.len() == 0 {
        0
    } else {
        hex_value(s.drop_last()) * 16 + hex_digit_value(s.last())
    }
}

pub open spec fn pow16(n: nat) -> nat
    decreases n,
{
    if n == 0 {
        1
    } else {
        16 * pow16((n - 1) as nat)
    }
}

/// 64 hexadecimal digits, in either case.
pub open spec fn is_digest_hex(s: Seq<char>) -> bool {
    s.len() == 64 && forall|i: int| 0 <= i < s.len() ==> is_hex_digit(#[trigger] s[i])
}

/// The digest that 64 hexadecimal digits write: each word is sixteen digits,
/// most significant first.
pub open spec fn digest_of_hex(s: Seq<char>) -> Digest {
    Digest(
        hex_value(s.subrange(0, 16)) as u64,
        hex_value(s.subrange(16, 32)) as u64,
        hex_value(s.subrange(32, 48)) as u64,
        hex_value(s.subrange(48, 64)) as u64,
    )
}

pub open spec fn is_decimal_digit(c: char) -> bool {
    '0' <= c && c <= '9'
}

/// The number that decimal digits `s` write, most significant first.
pub open spec fn decimal_value(s: Seq<char>) -> nat
    decreases s.len(),
{
    if s.len() == 0 {
        0
    } else {
        decimal_value(s.drop_last()) * 10 + (s.last() as u32 - '0' as u32) as nat
    }
}

/// The digits of a height: the text without one leading `+`.
pub open spec fn height_digits(s: Seq<char>) -> Seq<char> {
    if s.len() > 0 && s[0] == '+' {
        s.drop_first()
    } else {
        s
    }
}

/// The text writes a height: an optional `+`, then at least one decimal digit,
/// for a number that fits in 64 bits.
pub open spec fn is_height_text(s: Seq<char>) -> bool {
    let d = height_digits(s);
    &&& d.len() > 0
    &&& forall|i: int| 0 <= i < d.len() ==> is_decimal_digit(#[trigger] d[i])
    &&& decimal_value(d) <= u64::MAX
}

fn hex_digit(c: char) -> (r: Option<u64>)
    ensures
        r is Some <==> is_hex_digit(c),
        r matches Some(v) ==> v == hex_digit_value(c) && v < 16,
{
    let u = c as u32;
    if '0' <= c && c <= '9' {
        Some((u - '0' as u32) as u64)
    } else if 'a' <= c && c <= 'f' {
        Some((u - 'a' as u32 + 10) as u64)
    } else if 'A' <= c && c <= 'F' {
        Some((u - 'A' as u32 + 10) as u64)
    } else {
        None
    }
}

proof fn lemma_pow16_bound(n: nat)
    requires
        n <= 16,
    ensures
        pow16(n) <= pow16(16),
        pow16(16) == 0x1_0000_0000_0000_0000,
    decreases 16 - n,
{
    reveal_with_fuel(pow16, 17);
    if n < 16 {
        lemma_pow16_bound(n + 1);
    }
}

/// The word that the sixteen hexadecimal digits of `s` from `start` write.
fn hex_word(s: &str, start: usize) -> (r: u64)
    requires
        s@.len() == 64,
        start + 16 <= s@.len(),
        forall|i: int| start <= i < start + 16 ==> is_hex_digit(#[trigger] s@[i]),
    ensures
        r == hex_value(s@.subrange(start as int, start + 16)),
{
    let mut v: u64 = 0;
    let mut i: usize = 0;
    while i < 16
        invariant
            i <= 16,
            s@.len() == 64,
            start + 16 <= s@.len(),
            forall|k: int| start <= k < start + 16 ==> is_hex_digit(#[trigger] s@[k]),
            v == hex_value(s@.subrange(start as int, start + i)),
            v < pow16(i as nat),
        decreases 16 - i,
    {
        let c = s.get_char(start + i);
        assert(is_hex_digit(s@[start + i]));
        let d = match hex_digit(c) {
            Some(d) => d,
            None => 0,
        };
        proof {
            lemma_pow16_bound((i + 1) as nat);
            assert(pow16((i + 1) as nat) == 16 * pow16(i as nat));
            assert(v * 16 + d < pow16((i + 1) as nat)) by (nonlinear_arith)
                requires
                    v < pow16(i as nat),
                    d < 16,
                    pow16((i + 1) as nat) == 16 * pow16(i as nat),
            ;
            assert(s@.subrange(start as int, start + i + 1).drop_last() =~= s@.subrange(start as int, start + i));
        }
        v = v * 16 + d;
        i = i + 1;
    }
    v
}

/// Reads a digest written as 64 hexadecimal digits.
pub fn digest_from_hex(s: &str) -> (r: Option<Digest>)
    ensures
        r is Some <==> is_digest_hex(s@),
        r matches Some(d) ==> d == digest_of_hex(s@),
{
    let n = s.unicode_len();
    if n != 64 {
        return None;
    }
    let mut i: usize = 0;
    while i < 64
        invariant
            i <= 64,
            s@.len() == 64,
            forall|k: int| 0 <= k < i ==> is_hex_digit(#[trigger] s@[k]),
        decreases 64 - i,
    {
        if hex_digit(s.get_char(i)).is_none() {
            return None;
        }
        i = i + 1;
    }
    Some(Digest(hex_word(s, 0), hex_word(s, 16), hex_word(s, 32), hex_word(s, 48)))
}

proof fn lemma_decimal_prefix(s: Seq<char>, j: int)
    requires
        0 <= j <= s.len(),
    ensures
        decimal_value(s.subrange(0, j)) <= decimal_value(s),
    decreases s.len() - j,
{
    if j < s.len() {
        lemma_decimal_prefix(s, j + 1);
        assert(s.subrange(0, j + 1).drop_last() =~= s.subrange(0, j));
    } else {
        assert(s.subrange(0, j) =~= s);
    }
}

/// Reads a height written in decimal, with an optional leading `+`.
pub fn parse_height(s: &str) -> (r: Option<u64>)
    ensures
        r is Some <==> is_height_text(s@),
        r matches Some(v) ==> v == decimal_value(height_digits(s@)),
{
    let n = s.unicode_len();
    let first: usize = if n > 0 && s.get_char(0) == '+' {
        1
    } else {
        0
    };
    let ghost d = height_digits(s@);
    assert(d =~= s@.subrange(first as int, n as int));
    if first == n {
        return None;
    }
    let mut v: u64 = 0;
    let mut i: usize = first;
    while i < n
        invariant
            first <= i <= n,
            n == s@.len(),
            d == s@.subrange(first as int, n as int),
            d == height_digits(s@),
            forall|k: int| 0 <= k < i - first ==> is_decimal_digit(#[trigger] d[k]),
            v == decimal_value(d.subrange(0, i - first)),
        decreases n - i,
    {
        let c = s.get_char(i);
        assert(c == d[i - first]);
        if !('0' <= c && c <= '9') {
            assert(!is_decimal_digit(d[i - first]));
            return None;
        }
        let digit = (c as u32 - '0' as u32) as u64;
        assert(d.subrange(0, i - first + 1).drop_last() =~= d.subrange(0, i - first));
        let next = match v.checked_mul(10) {
            Some(t) => t.checked_add(digit),
            None => None,
        };
        match next {
            Some(t) => {
                v = t;
            },
            None => {
                proof {
                    let j = i - first;
                    assert(d.subrange(0, j + 1).last() == c);
                    assert(decimal_value(d.subrange(0, j + 1)) == v * 10 + digit);
                    lemma_decimal_prefix(d, j + 1);
                }
                return None;
            },
        }
        i = i + 1;
    }
    assert(d.subrange(0, n - first) =~= d);
    Some(v)
}

/// Reads the two filters of a listing query: a predecessor digest in
/// hexadecimal and a least activation height in decimal, each if given.
pub fn retrieve_params(previous_cfg_hash: Option<&str>, actual_from: Option<&str>) -> (r: Result<
    (Option<Digest>, Option<u64>),
    ParamsError,
>)
    ensures
        r is Ok <==> (previous_cfg_hash matches Some(h) ==> is_digest_hex(h@)) && (actual_from matches Some(
            a,
        ) ==> is_height_text(a@)),
        r matches Err(e) ==> e == if previous_cfg_hash matches Some(h) && !is_digest_hex(h@) {
            ParamsError::FromHex
        } else {
            ParamsError::IncorrectRequest
        },
        r matches Ok((h, a)) ==> (h == match previous_cfg_hash {
            Some(t) => Some(digest_of_hex(t@)),
            None => None::<Digest>,
        }) && (a == match actual_from {
            Some(t) => Some(decimal_value(height_digits(t@)) as u64),
            None => None::<u64>,
        }),
{
    let prev = match previous_cfg_hash {
        Some(text) => match digest_from_hex(text) {
            Some(d) => Some(d),
            None => {
                return Err(ParamsError::FromHex);
            },
        },
        None => None,
    };
    let from = match actual_from {
        Some(text) => match parse_height(text) {
            Some(h) => Some(h),
            None => {
                return Err(ParamsError::IncorrectRequest);
            },
        },
        None => None,
    };
    Ok((prev, from))
}

} // verus!
