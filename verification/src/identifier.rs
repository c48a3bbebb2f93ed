use vstd::prelude::*;

verus! {

/// What uuid parsing yields on a piece of text, if anything.
pub uninterp spec fn uuid_parse(s: Seq<char>) -> Option<u128>;

/// Relies on uuid::Uuid::new_v4 for a fresh random 128-bit identifier.
/// Nothing is promised of the value: every caller must hold for every
/// outcome.
#[verifier::external_body]
pub(crate) fn random_uuid() -> (r: u128) {
    uuid::Uuid::new_v4().as_u128()
}

/// Relies on uuid::Uuid::parse_str: whether the text parses, and the value it
/// parses to, depend on the characters alone.
#[verifier::external_body]
pub(crate) fn parse_uuid_str(s: &str) -> (r: Option<u128>)
    ensures
        r == uuid_parse(s@),
{
    uuid::Uuid::parse_str(s).ok().map(|u| u.as_u128())
}

/// The value of a hexadecimal digit, in either case.
pub open spec fn hex_digit_val(c: char) -> Option<int> {
    if '0' <= c && c <= '9' {
        Some(c as int - '0' as int)
    } else if 'a' <= c && c <= 'f' {
        Some(c as int - 'a' as int + 10)
    } else if 'A' <= c && c <= 'F' {
        Some(c as int - 'A' as int + 10)
    } else {
        None
    }
}

/// The value of a decimal digit.
pub open spec fn dec_digit_val(c: char) -> Option<int> {
    if '0' <= c && c <= '9' {
        Some(c as int - '0' as int)
    } else {
        None
    }
}

/// The value of a string of hexadecimal digits; anything else has none.
pub open spec fn hex_val(s: Seq<char>) -> Option<int>
    decreases s.len(),
{
    if s.len() == 0 {
        Some(0)
    } else {
        match (hex_val(s.drop_last()), hex_digit_val(s.last())) {
            (Some(v), Some(d)) => Some(16 * v + d),
            _ => None,
        }
    }
}

/// The value of a string of decimal digits; anything else has none.
pub open spec fn dec_val(s: Seq<char>) -> Option<int>
    decreases s.len(),
{
    if s.len() == 0 {
        Some(0)
    } else {
        match (dec_val(s.drop_last()), dec_digit_val(s.last())) {
            (Some(v), Some(d)) => Some(10 * v + d),
            _ => None,
        }
    }
}

/// What parsing a short identifier yields: an optional leading plus sign,
/// then hexadecimal digits whose value fits 32 bits.
pub open spec fn spec_parse_u32_hex(s: Seq<char>) -> Option<u32> {
    if s.len() == 0 {
        None
    } else {
        let body = if s[0] == '+' {
            s.skip(1)
        } else {
            s
        };
        if body.len() == 0 {
            None
        } else {
            match hex_val(body) {
                Some(v) => if v <= 0xFFFFFFFF {
                    Some(v as u32)
                } else {
                    None
                },
                None => None,
            }
        }
    }
}

/// What parsing a signed decimal identifier yields: an optional sign, then
/// decimal digits whose value fits a 32-bit signed integer.
pub open spec fn spec_parse_i32(s: Seq<char>) -> Option<i32> {
    if s.len() == 0 {
        None
    } else {
        let neg = s[0] == '-';
        let body = if s[0] == '-' || s[0] == '+' {
            s.skip(1)
        } else {
            s
        };
        if body.len() == 0 {
            None
        } else {
            match dec_val(body) {
                Some(v) => if neg {
                    if v <= 0x80000000 {
                        Some((-v) as i32)
                    } else {
                        None
                    }
                } else {
                    if v <= 0x7FFFFFFF {
                        Some(v as i32)
                    } else {
                        None
                    }
                },
                None => None,
            }
        }
    }
}

/// A digit value is never negative and a digit string's value grows with its
/// digits.
proof fn lemma_hex_val_nonneg(s: Seq<char>)
    ensures
        hex_val(s) matches Some(v) ==> v >= 0,
    decreases s.len(),
{
    if s.len() > 0 {
        lemma_hex_val_nonneg(s.drop_last());
    }
}

proof fn lemma_dec_val_nonneg(s: Seq<char>)
    ensures
        dec_val(s) matches Some(v) ==> v >= 0,
    decreases s.len(),
{
    if s.len() > 0 {
        lemma_dec_val_nonneg(s.drop_last());
    }
}

/// If the whole digit string has a value, so has each prefix, and no prefix
/// exceeds the whole.
proof fn lemma_hex_val_prefix(s: Seq<char>, i: int)
    requires
        0 <= i <= s.len(),
    ensures
        hex_val(s) matches Some(v) ==> (hex_val(s.take(i)) matches Some(u) && u <= v),
    decreases s.len() - i,
{
    if i < s.len() {
        lemma_hex_val_prefix(s, i + 1);
        assert(s.take(i + 1).drop_last() =~= s.take(i));
        if hex_val(s) is Some {
            lemma_hex_val_nonneg(s.take(i));
            assert(hex_val(s.take(i + 1)) is Some);
        }
    } else {
        assert(s.take(i) =~= s);
    }
}

proof fn lemma_dec_val_prefix(s: Seq<char>, i: int)
    requires
        0 <= i <= s.len(),
    ensures
        dec_val(s) matches Some(v) ==> (dec_val(s.take(i)) matches Some(u) && u <= v),
    decreases s.len() - i,
{
    if i < s.len() {
        lemma_dec_val_prefix(s, i + 1);
        assert(s.take(i + 1).drop_last() =~= s.take(i));
        if dec_val(s) is Some {
            lemma_dec_val_nonneg(s.take(i));
            assert(dec_val(s.take(i + 1)) is Some);
        }
    } else {
        assert(s.take(i) =~= s);
    }
}

/// A bad digit anywhere leaves the whole string without a value.
proof fn lemma_hex_val_bad_digit(s: Seq<char>, i: int)
    requires
        0 <= i < s.len(),
        hex_digit_val(s[i]) is None,
    ensures
        hex_val(s) is None,
    decreases s.len(),
{
    if i == s.len() - 1 {
    } else {
        assert(s.drop_last()[i] == s[i]);
        lemma_hex_val_bad_digit(s.drop_last(), i);
    }
}

proof fn lemma_dec_val_bad_digit(s: Seq<char>, i: int)
    requires
        0 <= i < s.len(),
        dec_digit_val(s[i]) is None,
    ensures
        dec_val(s) is None,
    decreases s.len(),
{
    if i == s.len() - 1 {
    } else {
        assert(s.drop_last()[i] == s[i]);
        lemma_dec_val_bad_digit(s.drop_last(), i);
    }
}

/// The value of one hexadecimal character.
fn hex_digit_of(c: char) -> (r: Option<u8>)
    ensures
        r == match hex_digit_val(c) {
            Some(v) => Some(v as u8),
            None => None::<u8>,
        },
{
    if '0' <= c && c <= '9' {
        Some((c as u8) - 48)
    } else if 'a' <= c && c <= 'f' {
        Some((c as u8) - 97 + 10)
    } else if 'A' <= c && c <= 'F' {
        Some((c as u8) - 65 + 10)
    } else {
        None
    }
}

/// The value of one decimal character.
fn dec_digit_of(c: char) -> (r: Option<u8>)
    ensures
        r == match dec_digit_val(c) {
            Some(v) => Some(v as u8),
            None => None::<u8>,
        },
{
    if '0' <= c && c <= '9' {
        Some((c as u8) - 48)
    } else {
        None
    }
}

/// Parses a short server identifier: optional plus sign, then hexadecimal
/// digits, rejecting values beyond 32 bits.
#[verifier::loop_isolation(false)]
pub fn parse_u32_hex(s: &str) -> (r: Option<u32>)
    ensures
        r == spec_parse_u32_hex(s@),
{
    let n = s.unicode_len();
    if n == 0 {
        return None;
    }
    let start: usize = if s.get_char(0) == '+' {
        1
    } else {
        0
    };
    if n == start {
        return None;
    }
    let ghost body = if s@[0] == '+' {
        s@.skip(1)
    } else {
        s@
    };
    let mut val: u64 = 0;
    let mut i: usize = start;
    while i < n
        invariant
            start <= i <= n,
            val <= 0xFFFFFFFF,
            hex_val(body.take(i - start)) == Some(val as int),
        decreases n - i,
    {
        proof {
            assert(body.take(i - start + 1).drop_last() =~= body.take(i - start));
            assert(body.take(i - start + 1).last() == s@[i as int]);
        }
        let d = match hex_digit_of(s.get_char(i)) {
            Some(d) => d,
            None => {
                proof {
                    lemma_hex_val_bad_digit(body, i - start);
                }
                return None;
            },
        };
        val = val * 16 + (d as u64);
        if val > 0xFFFFFFFF {
            proof {
                match hex_val(body) {
                    Some(v) => {
                        lemma_hex_val_prefix(body, i - start + 1);
                    },
                    None => {},
                }
            }
            return None;
        }
        i += 1;
    }
    proof {
        assert(body.take(n - start) =~= body);
    }
    Some(val as u32)
}

/// Parses a numeric server identifier: optional sign, then decimal digits,
/// rejecting values beyond a 32-bit signed integer.
#[verifier::loop_isolation(false)]
pub fn parse_i32(s: &str) -> (r: Option<i32>)
    ensures
        r == spec_parse_i32(s@),
{
    let n = s.unicode_len();
    if n == 0 {
        return None;
    }
    let c0 = s.get_char(0);
    let neg = c0 == '-';
    let start: usize = if c0 == '-' || c0 == '+' {
        1
    } else {
        0
    };
    if n == start {
        return None;
    }
    let ghost body = if s@[0] == '-' || s@[0] == '+' {
        s@.skip(1)
    } else {
        s@
    };
    let mut val: u64 = 0;
    let mut i: usize = start;
    while i < n
        invariant
            start <= i <= n,
            val <= 0x80000000,
            dec_val(body.take(i - start)) == Some(val as int),
        decreases n - i,
    {
        proof {
            assert(body.take(i - start + 1).drop_last() =~= body.take(i - start));
            assert(body.take(i - start + 1).last() == s@[i as int]);
        }
        let d = match dec_digit_of(s.get_char(i)) {
            Some(d) => d,
            None => {
                proof {
                    lemma_dec_val_bad_digit(body, i - start);
                }
                return None;
            },
        };
        val = val * 10 + (d as u64);
        if val > 0x80000000 {
            proof {
                match dec_val(body) {
                    Some(v) => {
                        lemma_dec_val_prefix(body, i - start + 1);
                    },
                    None => {},
                }
            }
            return None;
        }
        i += 1;
    }
    proof {
        assert(body.take(n - start) =~= body);
    }
    if neg {
        let v64: i64 = -(val as i64);
        Some(v64 as i32)
    } else {
        if val > 0x7FFFFFFF {
            return None;
        }
        Some(val as i32)
    }
}

} // verus!
