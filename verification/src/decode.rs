use vstd::prelude::*;

verus! {

use crate::model::{DecodeError, Export, Session, Tab, Window};
use crate::text::push_char;
use crate::time::{eastern_render, render_date};
use vstd::utf8::char_u32_cast;

// ---------------------------------------------------------------------------
// The decoder exists twice: as a family of spec functions that define,
// character by character, which inputs decode to which tree or error, and
// as executable parsers proved to return exactly what the spec functions
// say. The spec recursions carry explicit forward-progress tests (every
// sub-parser only moves right), which keeps them well-founded; the
// executable side proves those tests always pass.
// ---------------------------------------------------------------------------

/// Every session of a decoded export carries a rendered date: the text
/// that some second count renders to in the US-Eastern zone.
pub open spec fn dates_rendered(sessions: Seq<crate::model::SessionV>) -> bool {
    forall|k: int|
        0 <= k < sessions.len() ==> exists|secs: u64|
            #[trigger] eastern_render(secs) == Some(#[trigger] sessions[k].date)
}

pub open spec fn is_ws_char(c: char) -> bool {
    c == ' ' || c == '\t' || c == '\n' || c == '\r'
}

/// The first position at or after `i` that holds no whitespace.
pub open spec fn skip_ws_at(s: Seq<char>, i: int) -> int
    decreases s.len() - i,
{
    if 0 <= i < s.len() && is_ws_char(s[i]) {
        skip_ws_at(s, i + 1)
    } else {
        i
    }
}

/// Skips whitespace, then takes exactly the given character.
pub open spec fn expect_at(s: Seq<char>, i: int, c: char) -> Result<int, DecodeError> {
    let k = skip_ws_at(s, i);
    if 0 <= k < s.len() && s[k] == c {
        Ok(k + 1)
    } else {
        Err(DecodeError::MalformedDocument)
    }
}

pub open spec fn digit_of(c: char) -> Option<u64> {
    if 0x30 <= (c as u32) <= 0x39 {
        Some(((c as u32) - 0x30) as u64)
    } else {
        None
    }
}

pub open spec fn hex_of(c: char) -> Option<u32> {
    if 0x30 <= (c as u32) <= 0x39 {
        Some((((c as u32) - 0x30) as u32))
    } else if 0x61 <= (c as u32) <= 0x66 {
        Some((((c as u32) - 0x61 + 10) as u32))
    } else if 0x41 <= (c as u32) <= 0x46 {
        Some((((c as u32) - 0x41 + 10) as u32))
    } else {
        None
    }
}

/// Four hexadecimal digits read as one value.
pub open spec fn parse_hex4_at(s: Seq<char>, i: int) -> Result<(u32, int), DecodeError> {
    if 0 <= i && i + 4 <= s.len() {
        match (hex_of(s[i]), hex_of(s[i + 1]), hex_of(s[i + 2]), hex_of(s[i + 3])) {
            (Some(a), Some(b), Some(c), Some(d)) => Ok(
                ((a * 0x1000 + b * 0x100 + c * 0x10 + d) as u32, i + 4),
            ),
            _ => Err(DecodeError::MalformedDocument),
        }
    } else {
        Err(DecodeError::MalformedDocument)
    }
}

/// The body of a quoted string from position `j` on, with the characters
/// decoded so far: ends at an unescaped quote, processes every escape
/// form, and refuses raw control characters.
pub open spec fn parse_string_body(s: Seq<char>, j: int, acc: Seq<char>) -> Result<
    (Seq<char>, int),
    DecodeError,
>
    decreases s.len() - j,
{
    if !(0 <= j < s.len()) {
        Err(DecodeError::MalformedDocument)
    } else if s[j] == '"' {
        Ok((acc, j + 1))
    } else if s[j] == '\\' {
        if j + 2 > s.len() {
            Err(DecodeError::MalformedDocument)
        } else {
            let e = s[j + 1];
            if e == '"' {
                parse_string_body(s, j + 2, acc.push('"'))
            } else if e == '\\' {
                parse_string_body(s, j + 2, acc.push('\\'))
            } else if e == '/' {
                parse_string_body(s, j + 2, acc.push('/'))
            } else if e == 'b' {
                parse_string_body(s, j + 2, acc.push('\u{8}'))
            } else if e == 'f' {
                parse_string_body(s, j + 2, acc.push('\u{c}'))
            } else if e == 'n' {
                parse_string_body(s, j + 2, acc.push('\n'))
            } else if e == 'r' {
                parse_string_body(s, j + 2, acc.push('\r'))
            } else if e == 't' {
                parse_string_body(s, j + 2, acc.push('\t'))
            } else if e == 'u' {
                match parse_hex4_at(s, j + 2) {
                    Err(e2) => Err(e2),
                    Ok((v, j2)) => {
                        if !(j < j2 <= s.len()) {
                            Err(DecodeError::MalformedDocument)
                        } else if 0xD800 <= v < 0xDC00 {
                            // A high surrogate must pair with a following low one.
                            if j2 + 2 <= s.len() && s[j2] == '\\' && s[j2 + 1] == 'u' {
                                match parse_hex4_at(s, j2 + 2) {
                                    Err(e2) => Err(e2),
                                    Ok((lo, j3)) => {
                                        if !(j < j3 <= s.len()) {
                                            Err(DecodeError::MalformedDocument)
                                        } else if 0xDC00 <= lo < 0xE000 {
                                            parse_string_body(
                                                s,
                                                j3,
                                                acc.push(
                                                    (((0x10000 + (v - 0xD800) * 0x400 + (lo
                                                        - 0xDC00)) as u32) as char),
                                                ),
                                            )
                                        } else {
                                            Err(DecodeError::MalformedDocument)
                                        }
                                    },
                                }
                            } else {
                                Err(DecodeError::MalformedDocument)
                            }
                        } else if 0xDC00 <= v < 0xE000 {
                            Err(DecodeError::MalformedDocument)
                        } else {
                            parse_string_body(s, j2, acc.push((v as char)))
                        }
                    },
                }
            } else {
                Err(DecodeError::MalformedDocument)
            }
        }
    } else if (s[j] as u32) < 0x20 {
        // Raw control characters are not well-formed JSON.
        Err(DecodeError::MalformedDocument)
    } else {
        parse_string_body(s, j + 1, acc.push(s[j]))
    }
}

/// One quoted JSON string after optional whitespace.
pub open spec fn parse_string_at(s: Seq<char>, i: int) -> Result<(Seq<char>, int), DecodeError> {
    let j = skip_ws_at(s, i);
    if 0 <= j < s.len() && s[j] == '"' {
        parse_string_body(s, j + 1, Seq::empty())
    } else {
        Err(DecodeError::MalformedDocument)
    }
}

/// The remaining digits of an unsigned integer already worth `v`.
pub open spec fn parse_u64_digits(s: Seq<char>, j: int, v: u64, overflow: DecodeError) -> Result<
    (u64, int),
    DecodeError,
>
    decreases s.len() - j,
{
    if !(0 <= j < s.len()) {
        Ok((v, j))
    } else {
        match digit_of(s[j]) {
            Some(d) => {
                if v > (u64::MAX - d) / 10 {
                    Err(overflow)
                } else {
                    parse_u64_digits(s, j + 1, ((v * 10 + d) as u64), overflow)
                }
            },
            None => {
                if s[j] == '.' || s[j] == 'e' || s[j] == 'E' {
                    Err(DecodeError::MalformedDocument)
                } else {
                    Ok((v, j))
                }
            },
        }
    }
}

/// An unsigned decimal integer that must fit in 64 bits: no sign, no
/// fraction, no exponent, no leading zero; too large a value gives the
/// caller's overflow error.
pub open spec fn parse_u64_at(s: Seq<char>, i: int, overflow: DecodeError) -> Result<
    (u64, int),
    DecodeError,
> {
    let j = skip_ws_at(s, i);
    if !(0 <= j < s.len()) {
        Err(DecodeError::MalformedDocument)
    } else {
        match digit_of(s[j]) {
            None => Err(DecodeError::MalformedDocument),
            Some(d0) => {
                if d0 == 0 && j + 1 < s.len() && digit_of(s[j + 1]) is Some {
                    Err(DecodeError::MalformedDocument)
                } else {
                    parse_u64_digits(s, j + 1, d0, overflow)
                }
            },
        }
    }
}

/// The first position at or after `j` that holds no decimal digit.
pub open spec fn skip_digits_at(s: Seq<char>, j: int) -> int
    decreases s.len() - j,
{
    if 0 <= j < s.len() && digit_of(s[j]) is Some {
        skip_digits_at(s, j + 1)
    } else {
        j
    }
}

/// One numeral of the JSON grammar, not interpreted: an optional minus,
/// an integer part without leading zeros, an optional fraction and an
/// optional exponent, each with at least one digit.
pub open spec fn skip_number_at(s: Seq<char>, i: int) -> Result<int, DecodeError> {
    let j1 = if 0 <= i < s.len() && s[i] == '-' {
        i + 1
    } else {
        i
    };
    if !(0 <= j1 < s.len()) {
        Err(DecodeError::MalformedDocument)
    } else {
        match digit_of(s[j1]) {
            None => Err(DecodeError::MalformedDocument),
            Some(d0) => {
                let j2 = if d0 == 0 {
                    j1 + 1
                } else {
                    skip_digits_at(s, j1)
                };
                if d0 == 0 && j2 < s.len() && digit_of(s[j2]) is Some {
                    Err(DecodeError::MalformedDocument)
                } else {
                    let j3r = if j2 < s.len() && s[j2] == '.' {
                        if j2 + 1 < s.len() && digit_of(s[j2 + 1]) is Some {
                            Ok(skip_digits_at(s, j2 + 1))
                        } else {
                            Err(DecodeError::MalformedDocument)
                        }
                    } else {
                        Ok(j2)
                    };
                    match j3r {
                        Err(e) => Err(e),
                        Ok(j3) => {
                            if j3 < s.len() && (s[j3] == 'e' || s[j3] == 'E') {
                                let j4 = if j3 + 1 < s.len() && (s[j3 + 1] == '+' || s[j3 + 1]
                                    == '-') {
                                    j3 + 2
                                } else {
                                    j3 + 1
                                };
                                if j4 < s.len() && digit_of(s[j4]) is Some {
                                    Ok(skip_digits_at(s, j4))
                                } else {
                                    Err(DecodeError::MalformedDocument)
                                }
                            } else {
                                Ok(j3)
                            }
                        },
                    }
                }
            },
        }
    }
}

/// The exact characters of `w` stand in `s` at position `i`.
pub open spec fn word_at(s: Seq<char>, i: int, w: Seq<char>) -> bool {
    &&& 0 <= i
    &&& i + w.len() <= s.len()
    &&& forall|k: int| 0 <= k < w.len() ==> s[i + k] == w[k]
}

/// One JSON value of any shape, walked over and not kept.
pub open spec fn skip_value_at(s: Seq<char>, i: int) -> Result<int, DecodeError>
    decreases s.len() - i, 0int,
{
    let j = skip_ws_at(s, i);
    if !(i <= j < s.len()) {
        Err(DecodeError::MalformedDocument)
    } else {
        let c = s[j];
        if c == '"' {
            match parse_string_at(s, j) {
                Ok((_, p)) => Ok(p),
                Err(e) => Err(e),
            }
        } else if c == '{' {
            let k0 = skip_ws_at(s, j + 1);
            if 0 <= k0 < s.len() && s[k0] == '}' {
                Ok(k0 + 1)
            } else {
                skip_members_at(s, j + 1)
            }
        } else if c == '[' {
            let k0 = skip_ws_at(s, j + 1);
            if 0 <= k0 < s.len() && s[k0] == ']' {
                Ok(k0 + 1)
            } else {
                skip_items_at(s, j + 1)
            }
        } else if c == 't' {
            if word_at(s, j, "true"@) {
                Ok(j + "true"@.len())
            } else {
                Err(DecodeError::MalformedDocument)
            }
        } else if c == 'f' {
            if word_at(s, j, "false"@) {
                Ok(j + "false"@.len())
            } else {
                Err(DecodeError::MalformedDocument)
            }
        } else if c == 'n' {
            if word_at(s, j, "null"@) {
                Ok(j + "null"@.len())
            } else {
                Err(DecodeError::MalformedDocument)
            }
        } else {
            skip_number_at(s, j)
        }
    }
}

/// The members of an object being skipped, from the first key on.
pub open spec fn skip_members_at(s: Seq<char>, k: int) -> Result<int, DecodeError>
    decreases s.len() - k, 1int,
{
    if !(0 <= k <= s.len()) {
        Err(DecodeError::MalformedDocument)
    } else {
        match parse_string_at(s, k) {
            Err(e) => Err(e),
            Ok((_, k1)) => match expect_at(s, k1, ':') {
                Err(e) => Err(e),
                Ok(k2) => {
                    if !(k < k2 <= s.len()) {
                        Err(DecodeError::MalformedDocument)
                    } else {
                        match skip_value_at(s, k2) {
                            Err(e) => Err(e),
                            Ok(k3) => {
                                let k4 = skip_ws_at(s, k3);
                                if k < k4 < s.len() && s[k4] == ',' {
                                    skip_members_at(s, k4 + 1)
                                } else if 0 <= k4 < s.len() && s[k4] == '}' {
                                    Ok(k4 + 1)
                                } else {
                                    Err(DecodeError::MalformedDocument)
                                }
                            },
                        }
                    }
                },
            },
        }
    }
}

/// The items of an array being skipped, from the first item on.
pub open spec fn skip_items_at(s: Seq<char>, k: int) -> Result<int, DecodeError>
    decreases s.len() - k, 1int,
{
    if !(0 <= k <= s.len()) {
        Err(DecodeError::MalformedDocument)
    } else {
        match skip_value_at(s, k) {
            Err(e) => Err(e),
            Ok(k3) => {
                let k4 = skip_ws_at(s, k3);
                if k < k4 < s.len() && s[k4] == ',' {
                    skip_items_at(s, k4 + 1)
                } else if 0 <= k4 < s.len() && s[k4] == ']' {
                    Ok(k4 + 1)
                } else {
                    Err(DecodeError::MalformedDocument)
                }
            },
        }
    }
}

// ---------------------------------------------------------------------------
// The executable character-level parsers, each returning exactly what its
// spec function says.
// ---------------------------------------------------------------------------

fn is_ws(c: char) -> (r: bool)
    ensures
        r == is_ws_char(c),
{
    c == ' ' || c == '\t' || c == '\n' || c == '\r'
}

fn skip_ws(s: &str, i: usize) -> (r: usize)
    requires
        i <= s@.len(),
    ensures
        i <= r <= s@.len(),
        r as int == skip_ws_at(s@, i as int),
{
    let n = s.unicode_len();
    let mut j = i;
    while j < n
        invariant
            i <= j <= n,
            n == s@.len(),
            skip_ws_at(s@, i as int) == skip_ws_at(s@, j as int),
        decreases n - j,
    {
        let c = s.get_char(j);
        if is_ws(c) {
            j = j + 1;
        } else {
            return j;
        }
    }
    j
}

/// Skips whitespace, then takes exactly the given character.
fn expect(s: &str, i: usize, c: char) -> (r: Result<usize, DecodeError>)
    requires
        i <= s@.len(),
    ensures
        r matches Ok(j) ==> i < j <= s@.len(),
        match r {
            Ok(j) => expect_at(s@, i as int, c) == Ok::<int, DecodeError>(j as int),
            Err(e) => expect_at(s@, i as int, c) == Err::<int, DecodeError>(e),
        },
{
    let n = s.unicode_len();
    let k = skip_ws(s, i);
    if k < n && s.get_char(k) == c {
        Ok(k + 1)
    } else {
        Err(DecodeError::MalformedDocument)
    }
}

fn digit_val(c: char) -> (r: Option<u64>)
    ensures
        r == digit_of(c),
{
    let u = c as u32;
    if 0x30 <= u && u <= 0x39 {
        Some((u - 0x30) as u64)
    } else {
        None
    }
}

fn hex_val(c: char) -> (r: Option<u32>)
    ensures
        r == hex_of(c),
{
    let u = c as u32;
    if 0x30 <= u && u <= 0x39 {
        Some(u - 0x30)
    } else if 0x61 <= u && u <= 0x66 {
        Some(u - 0x61 + 10)
    } else if 0x41 <= u && u <= 0x46 {
        Some(u - 0x41 + 10)
    } else {
        None
    }
}

/// Reads four hexadecimal digits.
fn parse_hex4(s: &str, i: usize) -> (r: Result<(u32, usize), DecodeError>)
    requires
        i <= s@.len(),
    ensures
        r matches Ok(p) ==> i < p.1 <= s@.len() && p.0 < 0x10000,
        match r {
            Ok(p) => parse_hex4_at(s@, i as int) == Ok::<(u32, int), DecodeError>(
                (p.0, p.1 as int),
            ),
            Err(e) => parse_hex4_at(s@, i as int) == Err::<(u32, int), DecodeError>(e),
        },
{
    let n = s.unicode_len();
    if i >= n || n - i < 4 {
        return Err(DecodeError::MalformedDocument);
    }
    let (Some(a), Some(b), Some(c), Some(d)) = (
        hex_val(s.get_char(i)),
        hex_val(s.get_char(i + 1)),
        hex_val(s.get_char(i + 2)),
        hex_val(s.get_char(i + 3)),
    ) else {
        return Err(DecodeError::MalformedDocument);
    };
    Ok((a * 0x1000 + b * 0x100 + c * 0x10 + d, i + 4))
}

/// Reads one quoted JSON string, processing every escape form, and
/// returns its decoded characters.
#[verifier::rlimit(100)]
fn parse_string(s: &str, i: usize) -> (r: Result<(String, usize), DecodeError>)
    requires
        i <= s@.len(),
    ensures
        r matches Ok(p) ==> i < p.1 <= s@.len(),
        match r {
            Ok(p) => parse_string_at(s@, i as int) == Ok::<(Seq<char>, int), DecodeError>(
                (p.0@, p.1 as int),
            ),
            Err(e) => parse_string_at(s@, i as int) == Err::<(Seq<char>, int), DecodeError>(e),
        },
{
    let n = s.unicode_len();
    let mut j = skip_ws(s, i);
    if j >= n || s.get_char(j) != '"' {
        return Err(DecodeError::MalformedDocument);
    }
    j = j + 1;
    let mut text = String::new();
    proof {
        assert(parse_string_at(s@, i as int) == parse_string_body(s@, j as int, text@));
    }
    while j < n
        invariant
            i < j <= n,
            n == s@.len(),
            parse_string_at(s@, i as int) == parse_string_body(s@, j as int, text@),
        decreases n - j,
    {
        let c = s.get_char(j);
        if c == '"' {
            return Ok((text, j + 1));
        }
        if c == '\\' {
            if n - j < 2 {
                return Err(DecodeError::MalformedDocument);
            }
            let e = s.get_char(j + 1);
            if e == '"' {
                push_char(&mut text, '"');
                j = j + 2;
            } else if e == '\\' {
                push_char(&mut text, '\\');
                j = j + 2;
            } else if e == '/' {
                push_char(&mut text, '/');
                j = j + 2;
            } else if e == 'b' {
                push_char(&mut text, '\u{8}');
                j = j + 2;
            } else if e == 'f' {
                push_char(&mut text, '\u{c}');
                j = j + 2;
            } else if e == 'n' {
                push_char(&mut text, '\n');
                j = j + 2;
            } else if e == 'r' {
                push_char(&mut text, '\r');
                j = j + 2;
            } else if e == 't' {
                push_char(&mut text, '\t');
                j = j + 2;
            } else if e == 'u' {
                let (v, j2) = match parse_hex4(s, j + 2) {
                    Ok(p) => p,
                    Err(err) => {
                        return Err(err);
                    },
                };
                if 0xD800 <= v && v < 0xDC00 {
                    // A high surrogate must pair with a following low one.
                    if n - j2 < 2 || !(s.get_char(j2) == '\\' && s.get_char(j2 + 1) == 'u') {
                        return Err(DecodeError::MalformedDocument);
                    }
                    let (lo, j3) = match parse_hex4(s, j2 + 2) {
                        Ok(p) => p,
                        Err(err) => {
                            return Err(err);
                        },
                    };
                    if !(0xDC00 <= lo && lo < 0xE000) {
                        return Err(DecodeError::MalformedDocument);
                    }
                    let code: u32 = 0x10000 + (v - 0xD800) * 0x400 + (lo - 0xDC00);
                    match char::from_u32(code) {
                        Some(ch) => {
                            proof {
                                char_u32_cast(ch, code);
                            }
                            push_char(&mut text, ch);
                        },
                        None => {
                            return Err(DecodeError::MalformedDocument);
                        },
                    }
                    j = j3;
                } else if 0xDC00 <= v && v < 0xE000 {
                    return Err(DecodeError::MalformedDocument);
                } else {
                    match char::from_u32(v) {
                        Some(ch) => {
                            proof {
                                char_u32_cast(ch, v);
                            }
                            push_char(&mut text, ch);
                        },
                        None => {
                            return Err(DecodeError::MalformedDocument);
                        },
                    }
                    j = j2;
                }
            } else {
                return Err(DecodeError::MalformedDocument);
            }
        } else {
            let u = c as u32;
            if u < 0x20 {
                // Raw control characters are not well-formed JSON.
                return Err(DecodeError::MalformedDocument);
            }
            push_char(&mut text, c);
            j = j + 1;
        }
    }
    Err(DecodeError::MalformedDocument)
}

/// Reads an unsigned decimal integer that must fit in 64 bits; a number
/// with a fraction, an exponent, a sign, or a leading zero is refused.
/// Overflow fails with the given error, so the caller can tell an
/// unrepresentable timestamp from a malformed field.
fn parse_u64(s: &str, i: usize, overflow: DecodeError) -> (r: Result<(u64, usize), DecodeError>)
    requires
        i <= s@.len(),
    ensures
        r matches Ok(p) ==> i < p.1 <= s@.len(),
        match r {
            Ok(p) => parse_u64_at(s@, i as int, overflow) == Ok::<(u64, int), DecodeError>(
                (p.0, p.1 as int),
            ),
            Err(e) => parse_u64_at(s@, i as int, overflow) == Err::<(u64, int), DecodeError>(e),
        },
{
    let n = s.unicode_len();
    let mut j = skip_ws(s, i);
    if j >= n {
        return Err(DecodeError::MalformedDocument);
    }
    let first = s.get_char(j);
    let d0 = match digit_val(first) {
        Some(d) => d,
        None => {
            return Err(DecodeError::MalformedDocument);
        },
    };
    j = j + 1;
    if d0 == 0 {
        // JSON forbids further digits after a leading zero.
        if j < n && digit_val(s.get_char(j)).is_some() {
            return Err(DecodeError::MalformedDocument);
        }
    }
    let mut v: u64 = d0;
    while j < n
        invariant
            i < j <= n,
            n == s@.len(),
            parse_u64_at(s@, i as int, overflow) == parse_u64_digits(s@, j as int, v, overflow),
        decreases n - j,
    {
        let c = s.get_char(j);
        match digit_val(c) {
            Some(d) => {
                if v > (u64::MAX - d) / 10 {
                    return Err(overflow);
                }
                proof {
                    assert(v * 10 + d <= u64::MAX) by (nonlinear_arith)
                        requires
                            v <= (u64::MAX - d) / 10,
                            d < 10,
                    ;
                }
                v = v * 10 + d;
                j = j + 1;
            },
            None => {
                if c == '.' || c == 'e' || c == 'E' {
                    return Err(DecodeError::MalformedDocument);
                }
                return Ok((v, j));
            },
        }
    }
    Ok((v, j))
}

proof fn lemma_skip_digits_ge(s: Seq<char>, j: int)
    ensures
        skip_digits_at(s, j) >= j,
    decreases s.len() - j,
{
    if 0 <= j < s.len() && digit_of(s[j]) is Some {
        lemma_skip_digits_ge(s, j + 1);
    }
}

/// The position after any run of decimal digits.
fn skip_digits(s: &str, i: usize) -> (r: usize)
    requires
        i <= s@.len(),
    ensures
        i <= r <= s@.len(),
        r as int == skip_digits_at(s@, i as int),
{
    let n = s.unicode_len();
    let mut j = i;
    while j < n
        invariant
            i <= j <= n,
            n == s@.len(),
            skip_digits_at(s@, i as int) == skip_digits_at(s@, j as int),
        decreases n - j,
    {
        if digit_val(s.get_char(j)).is_some() {
            j = j + 1;
        } else {
            return j;
        }
    }
    j
}

/// Skips over one numeral of the JSON grammar without interpreting it.
fn skip_number(s: &str, i: usize) -> (r: Result<usize, DecodeError>)
    requires
        i <= s@.len(),
    ensures
        r matches Ok(j) ==> i < j <= s@.len(),
        match r {
            Ok(j) => skip_number_at(s@, i as int) == Ok::<int, DecodeError>(j as int),
            Err(e) => skip_number_at(s@, i as int) == Err::<int, DecodeError>(e),
        },
{
    let n = s.unicode_len();
    let j1 = if i < n && s.get_char(i) == '-' {
        i + 1
    } else {
        i
    };
    if j1 >= n {
        return Err(DecodeError::MalformedDocument);
    }
    let d0 = match digit_val(s.get_char(j1)) {
        Some(d) => d,
        None => {
            return Err(DecodeError::MalformedDocument);
        },
    };
    let j2 = if d0 == 0 {
        j1 + 1
    } else {
        proof {
            lemma_skip_digits_ge(s@, j1 + 1);
        }
        skip_digits(s, j1)
    };
    if d0 == 0 && j2 < n && digit_val(s.get_char(j2)).is_some() {
        return Err(DecodeError::MalformedDocument);
    }
    let j3 = if j2 < n && s.get_char(j2) == '.' {
        if j2 + 1 < n && digit_val(s.get_char(j2 + 1)).is_some() {
            skip_digits(s, j2 + 1)
        } else {
            return Err(DecodeError::MalformedDocument);
        }
    } else {
        j2
    };
    if j3 < n && (s.get_char(j3) == 'e' || s.get_char(j3) == 'E') {
        let j4 = if j3 + 1 < n && (s.get_char(j3 + 1) == '+' || s.get_char(j3 + 1) == '-') {
            j3 + 2
        } else {
            j3 + 1
        };
        if j4 < n && digit_val(s.get_char(j4)).is_some() {
            Ok(skip_digits(s, j4))
        } else {
            Err(DecodeError::MalformedDocument)
        }
    } else {
        Ok(j3)
    }
}

/// Takes the exact characters of a keyword such as `true`.
fn expect_word(s: &str, i: usize, w: &str) -> (r: Result<usize, DecodeError>)
    requires
        i <= s@.len(),
    ensures
        match r {
            Ok(j) => word_at(s@, i as int, w@) && j == i + w@.len() && j <= s@.len(),
            Err(e) => !word_at(s@, i as int, w@) && e == DecodeError::MalformedDocument,
        },
{
    let n = s.unicode_len();
    let m = w.unicode_len();
    if n - i < m {
        return Err(DecodeError::MalformedDocument);
    }
    let mut k: usize = 0;
    while k < m
        invariant
            k <= m,
            m == w@.len(),
            n == s@.len(),
            i + m <= n,
            forall|q: int| 0 <= q < k ==> s@[i + q] == w@[q],
        decreases m - k,
    {
        if s.get_char(i + k) != w.get_char(k) {
            proof {
                assert(s@[i + k] != w@[k as int]);
            }
            return Err(DecodeError::MalformedDocument);
        }
        k = k + 1;
    }
    Ok(i + m)
}

/// Walks over one JSON value of any shape without keeping it: the way
/// fields that the schema does not know are carried past.
#[verifier::rlimit(100)]
fn skip_value(s: &str, i: usize) -> (r: Result<usize, DecodeError>)
    requires
        i <= s@.len(),
    ensures
        r matches Ok(j) ==> i < j <= s@.len(),
        match r {
            Ok(j) => skip_value_at(s@, i as int) == Ok::<int, DecodeError>(j as int),
            Err(e) => skip_value_at(s@, i as int) == Err::<int, DecodeError>(e),
        },
    decreases s@.len() - i,
{
    let n = s.unicode_len();
    let j = skip_ws(s, i);
    if j >= n {
        return Err(DecodeError::MalformedDocument);
    }
    let c = s.get_char(j);
    if c == '"' {
        match parse_string(s, j) {
            Ok(p) => Ok(p.1),
            Err(err) => Err(err),
        }
    } else if c == '{' {
        let k0 = skip_ws(s, j + 1);
        if k0 < n && s.get_char(k0) == '}' {
            return Ok(k0 + 1);
        }
        let mut k = j + 1;
        loop
            invariant
                i < k <= n,
                n == s@.len(),
                skip_value_at(s@, i as int) == skip_members_at(s@, k as int),
            decreases n - k,
        {
            let p = match parse_string(s, k) {
                Ok(p) => p,
                Err(err) => {
                    return Err(err);
                },
            };
            let k2 = match expect(s, p.1, ':') {
                Ok(k2) => k2,
                Err(err) => {
                    return Err(err);
                },
            };
            let k3 = match skip_value(s, k2) {
                Ok(k3) => k3,
                Err(err) => {
                    return Err(err);
                },
            };
            let k4 = skip_ws(s, k3);
            if k4 < n && s.get_char(k4) == ',' {
                k = k4 + 1;
            } else if k4 < n && s.get_char(k4) == '}' {
                return Ok(k4 + 1);
            } else {
                return Err(DecodeError::MalformedDocument);
            }
        }
    } else if c == '[' {
        let k0 = skip_ws(s, j + 1);
        if k0 < n && s.get_char(k0) == ']' {
            return Ok(k0 + 1);
        }
        let mut k = j + 1;
        loop
            invariant
                i < k <= n,
                n == s@.len(),
                skip_value_at(s@, i as int) == skip_items_at(s@, k as int),
            decreases n - k,
        {
            let k3 = match skip_value(s, k) {
                Ok(k3) => k3,
                Err(err) => {
                    return Err(err);
                },
            };
            let k4 = skip_ws(s, k3);
            if k4 < n && s.get_char(k4) == ',' {
                k = k4 + 1;
            } else if k4 < n && s.get_char(k4) == ']' {
                return Ok(k4 + 1);
            } else {
                return Err(DecodeError::MalformedDocument);
            }
        }
    } else if c == 't' {
        let j2 = match expect_word(s, j, "true") {
            Ok(j2) => j2,
            Err(err) => {
                return Err(err);
            },
        };
        proof {
            reveal_strlit("true");
        }
        Ok(j2)
    } else if c == 'f' {
        let j2 = match expect_word(s, j, "false") {
            Ok(j2) => j2,
            Err(err) => {
                return Err(err);
            },
        };
        proof {
            reveal_strlit("false");
        }
        Ok(j2)
    } else if c == 'n' {
        let j2 = match expect_word(s, j, "null") {
            Ok(j2) => j2,
            Err(err) => {
                return Err(err);
            },
        };
        proof {
            reveal_strlit("null");
        }
        Ok(j2)
    } else {
        skip_number(s, j)
    }
}


// ---------------------------------------------------------------------------
// The schema: tabs, windows, sessions, and the export root. Unknown
// fields are walked over; a required field that is missing, repeated, or
// of the wrong shape fails the whole decode.
// ---------------------------------------------------------------------------

pub open spec fn view_opt_str(o: Option<String>) -> Option<Seq<char>> {
    match o {
        Some(t) => Some(t@),
        None => None,
    }
}

pub open spec fn view_opt_tabs(o: Option<Vec<Tab>>) -> Option<Seq<crate::model::TabV>> {
    match o {
        Some(v) => Some(crate::normalize::tab_views(v@)),
        None => None,
    }
}

pub open spec fn view_opt_windows(o: Option<Vec<Window>>) -> Option<Seq<crate::model::WindowV>> {
    match o {
        Some(v) => Some(crate::normalize::window_views(v@)),
        None => None,
    }
}

pub open spec fn view_opt_sessions(o: Option<Vec<Session>>) -> Option<Seq<crate::model::SessionV>> {
    match o {
        Some(v) => Some(crate::normalize::session_views(v@)),
        None => None,
    }
}

/// The fields of a tab object from the key at `k` on, with the required
/// fields already seen.
pub open spec fn tab_fields_at(
    s: Seq<char>,
    k: int,
    title: Option<Seq<char>>,
    url: Option<Seq<char>>,
    index: Option<u64>,
) -> Result<(crate::model::TabV, int), DecodeError>
    decreases s.len() - k,
{
    if !(0 <= k <= s.len()) {
        Err(DecodeError::MalformedDocument)
    } else {
        match parse_string_at(s, k) {
            Err(e) => Err(e),
            Ok((key, k1)) => match expect_at(s, k1, ':') {
                Err(e) => Err(e),
                Ok(k2) => {
                    if !(k < k2 <= s.len()) {
                        Err(DecodeError::MalformedDocument)
                    } else {
                        let stepr: Result<
                            ((Option<Seq<char>>, Option<Seq<char>>, Option<u64>), int),
                            DecodeError,
                        > = if key == "title"@ {
                            if title is Some {
                                Err(DecodeError::MalformedDocument)
                            } else {
                                match parse_string_at(s, k2) {
                                    Ok((v, kk)) => Ok(((Some(v), url, index), kk)),
                                    Err(e) => Err(e),
                                }
                            }
                        } else if key == "url"@ {
                            if url is Some {
                                Err(DecodeError::MalformedDocument)
                            } else {
                                match parse_string_at(s, k2) {
                                    Ok((v, kk)) => Ok(((title, Some(v), index), kk)),
                                    Err(e) => Err(e),
                                }
                            }
                        } else if key == "index"@ {
                            if index is Some {
                                Err(DecodeError::MalformedDocument)
                            } else {
                                match parse_u64_at(s, k2, DecodeError::MalformedDocument) {
                                    Ok((v, kk)) => Ok(((title, url, Some(v)), kk)),
                                    Err(e) => Err(e),
                                }
                            }
                        } else {
                            match skip_value_at(s, k2) {
                                Ok(kk) => Ok(((title, url, index), kk)),
                                Err(e) => Err(e),
                            }
                        };
                        match stepr {
                            Err(e) => Err(e),
                            Ok((st, k3)) => {
                                let k4 = skip_ws_at(s, k3);
                                if k < k4 < s.len() && s[k4] == ',' {
                                    tab_fields_at(s, k4 + 1, st.0, st.1, st.2)
                                } else if 0 <= k4 < s.len() && s[k4] == '}' {
                                    match (st.0, st.1, st.2) {
                                        (Some(t), Some(u), Some(x)) => Ok(
                                            (
                                                crate::model::TabV { title: t, url: u, index: x },
                                                k4 + 1,
                                            ),
                                        ),
                                        _ => Err(DecodeError::MalformedDocument),
                                    }
                                } else {
                                    Err(DecodeError::MalformedDocument)
                                }
                            },
                        }
                    }
                },
            },
        }
    }
}

/// One tab object: `title`, `url` and `index` required, other fields
/// ignored, an empty object refused.
pub open spec fn parse_tab_at(s: Seq<char>, i: int) -> Result<
    (crate::model::TabV, int),
    DecodeError,
> {
    match expect_at(s, i, '{') {
        Err(e) => Err(e),
        Ok(j0) => {
            let k0 = skip_ws_at(s, j0);
            if 0 <= k0 < s.len() && s[k0] == '}' {
                Err(DecodeError::MalformedDocument)
            } else {
                tab_fields_at(s, j0, None, None, None)
            }
        },
    }
}

/// The items of a tab array from the item at `k` on.
pub open spec fn tabs_items_at(s: Seq<char>, k: int, acc: Seq<crate::model::TabV>) -> Result<
    (Seq<crate::model::TabV>, int),
    DecodeError,
>
    decreases s.len() - k,
{
    if !(0 <= k <= s.len()) {
        Err(DecodeError::MalformedDocument)
    } else {
        match parse_tab_at(s, k) {
            Err(e) => Err(e),
            Ok((t, k1)) => {
                let k2 = skip_ws_at(s, k1);
                if k < k2 < s.len() && s[k2] == ',' {
                    tabs_items_at(s, k2 + 1, acc.push(t))
                } else if 0 <= k2 < s.len() && s[k2] == ']' {
                    Ok((acc.push(t), k2 + 1))
                } else {
                    Err(DecodeError::MalformedDocument)
                }
            },
        }
    }
}

/// An array of tab objects.
pub open spec fn parse_tabs_at(s: Seq<char>, i: int) -> Result<
    (Seq<crate::model::TabV>, int),
    DecodeError,
> {
    match expect_at(s, i, '[') {
        Err(e) => Err(e),
        Ok(j0) => {
            let k0 = skip_ws_at(s, j0);
            if 0 <= k0 < s.len() && s[k0] == ']' {
                Ok((Seq::empty(), k0 + 1))
            } else {
                tabs_items_at(s, j0, Seq::empty())
            }
        },
    }
}

/// The fields of a window object from the key at `k` on.
pub open spec fn window_fields_at(s: Seq<char>, k: int, tabs: Option<Seq<crate::model::TabV>>) -> Result<
    (crate::model::WindowV, int),
    DecodeError,
>
    decreases s.len() - k,
{
    if !(0 <= k <= s.len()) {
        Err(DecodeError::MalformedDocument)
    } else {
        match parse_string_at(s, k) {
            Err(e) => Err(e),
            Ok((key, k1)) => match expect_at(s, k1, ':') {
                Err(e) => Err(e),
                Ok(k2) => {
                    if !(k < k2 <= s.len()) {
                        Err(DecodeError::MalformedDocument)
                    } else {
                        let stepr: Result<(Option<Seq<crate::model::TabV>>, int), DecodeError> = if key
                            == "tabs"@ {
                            if tabs is Some {
                                Err(DecodeError::MalformedDocument)
                            } else {
                                match parse_tabs_at(s, k2) {
                                    Ok((v, kk)) => Ok((Some(v), kk)),
                                    Err(e) => Err(e),
                                }
                            }
                        } else {
                            match skip_value_at(s, k2) {
                                Ok(kk) => Ok((tabs, kk)),
                                Err(e) => Err(e),
                            }
                        };
                        match stepr {
                            Err(e) => Err(e),
                            Ok((st, k3)) => {
                                let k4 = skip_ws_at(s, k3);
                                if k < k4 < s.len() && s[k4] == ',' {
                                    window_fields_at(s, k4 + 1, st)
                                } else if 0 <= k4 < s.len() && s[k4] == '}' {
                                    match st {
                                        Some(t) => Ok(
                                            (crate::model::WindowV { tabs: t }, k4 + 1),
                                        ),
                                        None => Err(DecodeError::MalformedDocument),
                                    }
                                } else {
                                    Err(DecodeError::MalformedDocument)
                                }
                            },
                        }
                    }
                },
            },
        }
    }
}

/// One window object: `tabs` required, other fields ignored.
pub open spec fn parse_window_at(s: Seq<char>, i: int) -> Result<
    (crate::model::WindowV, int),
    DecodeError,
> {
    match expect_at(s, i, '{') {
        Err(e) => Err(e),
        Ok(j0) => {
            let k0 = skip_ws_at(s, j0);
            if 0 <= k0 < s.len() && s[k0] == '}' {
                Err(DecodeError::MalformedDocument)
            } else {
                window_fields_at(s, j0, None)
            }
        },
    }
}

/// The items of a window array from the item at `k` on.
pub open spec fn windows_items_at(s: Seq<char>, k: int, acc: Seq<crate::model::WindowV>) -> Result<
    (Seq<crate::model::WindowV>, int),
    DecodeError,
>
    decreases s.len() - k,
{
    if !(0 <= k <= s.len()) {
        Err(DecodeError::MalformedDocument)
    } else {
        match parse_window_at(s, k) {
            Err(e) => Err(e),
            Ok((w, k1)) => {
                let k2 = skip_ws_at(s, k1);
                if k < k2 < s.len() && s[k2] == ',' {
                    windows_items_at(s, k2 + 1, acc.push(w))
                } else if 0 <= k2 < s.len() && s[k2] == ']' {
                    Ok((acc.push(w), k2 + 1))
                } else {
                    Err(DecodeError::MalformedDocument)
                }
            },
        }
    }
}

/// An array of window objects.
pub open spec fn parse_windows_at(s: Seq<char>, i: int) -> Result<
    (Seq<crate::model::WindowV>, int),
    DecodeError,
> {
    match expect_at(s, i, '[') {
        Err(e) => Err(e),
        Ok(j0) => {
            let k0 = skip_ws_at(s, j0);
            if 0 <= k0 < s.len() && s[k0] == ']' {
                Ok((Seq::empty(), k0 + 1))
            } else {
                windows_items_at(s, j0, Seq::empty())
            }
        },
    }
}

/// The fields of a session object from the key at `k` on. The raw
/// millisecond `date` is rendered to US-Eastern text here, as part of
/// decoding.
pub open spec fn session_fields_at(
    s: Seq<char>,
    k: int,
    name: Option<Seq<char>>,
    date: Option<Seq<char>>,
    windows: Option<Seq<crate::model::WindowV>>,
) -> Result<(crate::model::SessionV, int), DecodeError>
    decreases s.len() - k,
{
    if !(0 <= k <= s.len()) {
        Err(DecodeError::MalformedDocument)
    } else {
        match parse_string_at(s, k) {
            Err(e) => Err(e),
            Ok((key, k1)) => match expect_at(s, k1, ':') {
                Err(e) => Err(e),
                Ok(k2) => {
                    if !(k < k2 <= s.len()) {
                        Err(DecodeError::MalformedDocument)
                    } else {
                        let stepr: Result<
                            (
                                (
                                    Option<Seq<char>>,
                                    Option<Seq<char>>,
                                    Option<Seq<crate::model::WindowV>>,
                                ),
                                int,
                            ),
                            DecodeError,
                        > = if key == "name"@ {
                            if name is Some {
                                Err(DecodeError::MalformedDocument)
                            } else {
                                match parse_string_at(s, k2) {
                                    Ok((v, kk)) => Ok(((Some(v), date, windows), kk)),
                                    Err(e) => Err(e),
                                }
                            }
                        } else if key == "date"@ {
                            if date is Some {
                                Err(DecodeError::MalformedDocument)
                            } else {
                                match parse_u64_at(s, k2, DecodeError::InvalidTimestamp) {
                                    Err(e) => Err(e),
                                    Ok((ms, kk)) => match eastern_render(ms / 1000) {
                                        Some(d) => Ok(((name, Some(d), windows), kk)),
                                        None => Err(DecodeError::InvalidTimestamp),
                                    },
                                }
                            }
                        } else if key == "windows"@ {
                            if windows is Some {
                                Err(DecodeError::MalformedDocument)
                            } else {
                                match parse_windows_at(s, k2) {
                                    Ok((v, kk)) => Ok(((name, date, Some(v)), kk)),
                                    Err(e) => Err(e),
                                }
                            }
                        } else {
                            match skip_value_at(s, k2) {
                                Ok(kk) => Ok(((name, date, windows), kk)),
                                Err(e) => Err(e),
                            }
                        };
                        match stepr {
                            Err(e) => Err(e),
                            Ok((st, k3)) => {
                                let k4 = skip_ws_at(s, k3);
                                if k < k4 < s.len() && s[k4] == ',' {
                                    session_fields_at(s, k4 + 1, st.0, st.1, st.2)
                                } else if 0 <= k4 < s.len() && s[k4] == '}' {
                                    match (st.0, st.1, st.2) {
                                        (Some(nm), Some(d), Some(w)) => Ok(
                                            (
                                                crate::model::SessionV {
                                                    name: nm,
                                                    date: d,
                                                    windows: w,
                                                },
                                                k4 + 1,
                                            ),
                                        ),
                                        _ => Err(DecodeError::MalformedDocument),
                                    }
                                } else {
                                    Err(DecodeError::MalformedDocument)
                                }
                            },
                        }
                    }
                },
            },
        }
    }
}

/// One session object: `name`, `date` and `windows` required, other
/// fields ignored.
pub open spec fn parse_session_at(s: Seq<char>, i: int) -> Result<
    (crate::model::SessionV, int),
    DecodeError,
> {
    match expect_at(s, i, '{') {
        Err(e) => Err(e),
        Ok(j0) => {
            let k0 = skip_ws_at(s, j0);
            if 0 <= k0 < s.len() && s[k0] == '}' {
                Err(DecodeError::MalformedDocument)
            } else {
                session_fields_at(s, j0, None, None, None)
            }
        },
    }
}

/// The items of the session array from the item at `k` on.
pub open spec fn sessions_items_at(s: Seq<char>, k: int, acc: Seq<crate::model::SessionV>) -> Result<
    (Seq<crate::model::SessionV>, int),
    DecodeError,
>
    decreases s.len() - k,
{
    if !(0 <= k <= s.len()) {
        Err(DecodeError::MalformedDocument)
    } else {
        match parse_session_at(s, k) {
            Err(e) => Err(e),
            Ok((se, k1)) => {
                let k2 = skip_ws_at(s, k1);
                if k < k2 < s.len() && s[k2] == ',' {
                    sessions_items_at(s, k2 + 1, acc.push(se))
                } else if 0 <= k2 < s.len() && s[k2] == ']' {
                    Ok((acc.push(se), k2 + 1))
                } else {
                    Err(DecodeError::MalformedDocument)
                }
            },
        }
    }
}

/// The array of session objects.
pub open spec fn parse_sessions_at(s: Seq<char>, i: int) -> Result<
    (Seq<crate::model::SessionV>, int),
    DecodeError,
> {
    match expect_at(s, i, '[') {
        Err(e) => Err(e),
        Ok(j0) => {
            let k0 = skip_ws_at(s, j0);
            if 0 <= k0 < s.len() && s[k0] == ']' {
                Ok((Seq::empty(), k0 + 1))
            } else {
                sessions_items_at(s, j0, Seq::empty())
            }
        },
    }
}

/// The fields of the root object from the key at `k` on: `sessions`
/// required, other fields ignored, nothing but whitespace after the
/// closing brace.
pub open spec fn export_fields_at(
    s: Seq<char>,
    k: int,
    sessions: Option<Seq<crate::model::SessionV>>,
) -> Result<crate::model::ExportV, DecodeError>
    decreases s.len() - k,
{
    if !(0 <= k <= s.len()) {
        Err(DecodeError::MalformedDocument)
    } else {
        match parse_string_at(s, k) {
            Err(e) => Err(e),
            Ok((key, k1)) => match expect_at(s, k1, ':') {
                Err(e) => Err(e),
                Ok(k2) => {
                    if !(k < k2 <= s.len()) {
                        Err(DecodeError::MalformedDocument)
                    } else {
                        let stepr: Result<(Option<Seq<crate::model::SessionV>>, int), DecodeError> =
                            if key == "sessions"@ {
                            if sessions is Some {
                                Err(DecodeError::MalformedDocument)
                            } else {
                                match parse_sessions_at(s, k2) {
                                    Ok((v, kk)) => Ok((Some(v), kk)),
                                    Err(e) => Err(e),
                                }
                            }
                        } else {
                            match skip_value_at(s, k2) {
                                Ok(kk) => Ok((sessions, kk)),
                                Err(e) => Err(e),
                            }
                        };
                        match stepr {
                            Err(e) => Err(e),
                            Ok((st, k3)) => {
                                let k4 = skip_ws_at(s, k3);
                                if k < k4 < s.len() && s[k4] == ',' {
                                    export_fields_at(s, k4 + 1, st)
                                } else if 0 <= k4 < s.len() && s[k4] == '}' {
                                    if skip_ws_at(s, k4 + 1) != s.len() {
                                        Err(DecodeError::MalformedDocument)
                                    } else {
                                        match st {
                                            Some(v) => Ok(crate::model::ExportV { sessions: v }),
                                            None => Err(DecodeError::MalformedDocument),
                                        }
                                    }
                                } else {
                                    Err(DecodeError::MalformedDocument)
                                }
                            },
                        }
                    }
                },
            },
        }
    }
}

/// Which tree or error a whole input text decodes to: an object whose
/// required `sessions` field holds the array of sessions, with every
/// session's raw millisecond date rendered to US-Eastern text, and
/// nothing besides the one document.
pub open spec fn decode_spec(s: Seq<char>) -> Result<crate::model::ExportV, DecodeError> {
    match expect_at(s, 0, '{') {
        Err(e) => Err(e),
        Ok(j0) => {
            let k0 = skip_ws_at(s, j0);
            if 0 <= k0 < s.len() && s[k0] == '}' {
                Err(DecodeError::MalformedDocument)
            } else {
                export_fields_at(s, j0, None)
            }
        },
    }
}

fn is_key(k: &String, lit: &str) -> (r: bool)
    ensures
        r == (k@ == lit@),
{
    k.eq(&String::from_str(lit))
}

/// Reads one tab object: `title`, `url` and `index` are required; any
/// other field is ignored.
#[verifier::rlimit(100)]
fn parse_tab(s: &str, i: usize) -> (r: Result<(Tab, usize), DecodeError>)
    requires
        i <= s@.len(),
    ensures
        r matches Ok(p) ==> i < p.1 <= s@.len(),
        match r {
            Ok(p) => parse_tab_at(s@, i as int) == Ok::<(crate::model::TabV, int), DecodeError>(
                (p.0@, p.1 as int),
            ),
            Err(e) => parse_tab_at(s@, i as int) == Err::<(crate::model::TabV, int), DecodeError>(
                e,
            ),
        },
{
    let n = s.unicode_len();
    let j0 = match expect(s, i, '{') {
        Ok(j) => j,
        Err(err) => {
            return Err(err);
        },
    };
    let mut title: Option<String> = None;
    let mut url: Option<String> = None;
    let mut index: Option<u64> = None;
    let k0 = skip_ws(s, j0);
    if k0 < n && s.get_char(k0) == '}' {
        return Err(DecodeError::MalformedDocument);
    }
    let mut k = j0;
    loop
        invariant
            i < k <= n,
            n == s@.len(),
            parse_tab_at(s@, i as int) == tab_fields_at(
                s@,
                k as int,
                view_opt_str(title),
                view_opt_str(url),
                index,
            ),
        decreases n - k,
    {
        let (key, k1) = match parse_string(s, k) {
            Ok(p) => p,
            Err(err) => {
                return Err(err);
            },
        };
        let k2 = match expect(s, k1, ':') {
            Ok(j) => j,
            Err(err) => {
                return Err(err);
            },
        };
        let k3: usize;
        if is_key(&key, "title") {
            if title.is_some() {
                return Err(DecodeError::MalformedDocument);
            }
            let (v, kk) = match parse_string(s, k2) {
                Ok(p) => p,
                Err(err) => {
                    return Err(err);
                },
            };
            title = Some(v);
            k3 = kk;
        } else if is_key(&key, "url") {
            if url.is_some() {
                return Err(DecodeError::MalformedDocument);
            }
            let (v, kk) = match parse_string(s, k2) {
                Ok(p) => p,
                Err(err) => {
                    return Err(err);
                },
            };
            url = Some(v);
            k3 = kk;
        } else if is_key(&key, "index") {
            if index.is_some() {
                return Err(DecodeError::MalformedDocument);
            }
            let (v, kk) = match parse_u64(s, k2, DecodeError::MalformedDocument) {
                Ok(p) => p,
                Err(err) => {
                    return Err(err);
                },
            };
            index = Some(v);
            k3 = kk;
        } else {
            k3 = match skip_value(s, k2) {
                Ok(j) => j,
                Err(err) => {
                    return Err(err);
                },
            };
        }
        let k4 = skip_ws(s, k3);
        if k4 < n && s.get_char(k4) == ',' {
            k = k4 + 1;
        } else if k4 < n && s.get_char(k4) == '}' {
            match (title, url, index) {
                (Some(t), Some(u), Some(x)) => {
                    return Ok((Tab { title: t, url: u, index: x }, k4 + 1));
                },
                _ => {
                    return Err(DecodeError::MalformedDocument);
                },
            }
        } else {
            return Err(DecodeError::MalformedDocument);
        }
    }
}

/// Reads an array of tab objects.
#[verifier::rlimit(100)]
fn parse_tabs(s: &str, i: usize) -> (r: Result<(Vec<Tab>, usize), DecodeError>)
    requires
        i <= s@.len(),
    ensures
        r matches Ok(p) ==> i < p.1 <= s@.len(),
        match r {
            Ok(p) => parse_tabs_at(s@, i as int) == Ok::<
                (Seq<crate::model::TabV>, int),
                DecodeError,
            >((crate::normalize::tab_views(p.0@), p.1 as int)),
            Err(e) => parse_tabs_at(s@, i as int) == Err::<
                (Seq<crate::model::TabV>, int),
                DecodeError,
            >(e),
        },
{
    let n = s.unicode_len();
    let j0 = match expect(s, i, '[') {
        Ok(j) => j,
        Err(err) => {
            return Err(err);
        },
    };
    let mut out: Vec<Tab> = Vec::new();
    let k0 = skip_ws(s, j0);
    if k0 < n && s.get_char(k0) == ']' {
        proof {
            assert(crate::normalize::tab_views(out@) =~= Seq::<crate::model::TabV>::empty());
        }
        return Ok((out, k0 + 1));
    }
    let mut k = j0;
    proof {
        assert(crate::normalize::tab_views(out@) =~= Seq::<crate::model::TabV>::empty());
    }
    loop
        invariant
            i < k <= n,
            n == s@.len(),
            parse_tabs_at(s@, i as int) == tabs_items_at(
                s@,
                k as int,
                crate::normalize::tab_views(out@),
            ),
        decreases n - k,
    {
        let (t, k1) = match parse_tab(s, k) {
            Ok(p) => p,
            Err(err) => {
                return Err(err);
            },
        };
        let ghost old_views = crate::normalize::tab_views(out@);
        let ghost tv = t@;
        out.push(t);
        proof {
            assert(crate::normalize::tab_views(out@) =~= old_views.push(tv));
        }
        let k2 = skip_ws(s, k1);
        if k2 < n && s.get_char(k2) == ',' {
            k = k2 + 1;
        } else if k2 < n && s.get_char(k2) == ']' {
            return Ok((out, k2 + 1));
        } else {
            return Err(DecodeError::MalformedDocument);
        }
    }
}

/// Reads one window object: `tabs` is required; any other field is
/// ignored.
#[verifier::rlimit(100)]
fn parse_window(s: &str, i: usize) -> (r: Result<(Window, usize), DecodeError>)
    requires
        i <= s@.len(),
    ensures
        r matches Ok(p) ==> i < p.1 <= s@.len(),
        match r {
            Ok(p) => parse_window_at(s@, i as int) == Ok::<
                (crate::model::WindowV, int),
                DecodeError,
            >((p.0@, p.1 as int)),
            Err(e) => parse_window_at(s@, i as int) == Err::<
                (crate::model::WindowV, int),
                DecodeError,
            >(e),
        },
{
    let n = s.unicode_len();
    let j0 = match expect(s, i, '{') {
        Ok(j) => j,
        Err(err) => {
            return Err(err);
        },
    };
    let mut tabs: Option<Vec<Tab>> = None;
    let k0 = skip_ws(s, j0);
    if k0 < n && s.get_char(k0) == '}' {
        return Err(DecodeError::MalformedDocument);
    }
    let mut k = j0;
    loop
        invariant
            i < k <= n,
            n == s@.len(),
            parse_window_at(s@, i as int) == window_fields_at(s@, k as int, view_opt_tabs(tabs)),
        decreases n - k,
    {
        let (key, k1) = match parse_string(s, k) {
            Ok(p) => p,
            Err(err) => {
                return Err(err);
            },
        };
        let k2 = match expect(s, k1, ':') {
            Ok(j) => j,
            Err(err) => {
                return Err(err);
            },
        };
        let k3: usize;
        if is_key(&key, "tabs") {
            if tabs.is_some() {
                return Err(DecodeError::MalformedDocument);
            }
            let (v, kk) = match parse_tabs(s, k2) {
                Ok(p) => p,
                Err(err) => {
                    return Err(err);
                },
            };
            tabs = Some(v);
            k3 = kk;
        } else {
            k3 = match skip_value(s, k2) {
                Ok(j) => j,
                Err(err) => {
                    return Err(err);
                },
            };
        }
        let k4 = skip_ws(s, k3);
        if k4 < n && s.get_char(k4) == ',' {
            k = k4 + 1;
        } else if k4 < n && s.get_char(k4) == '}' {
            match tabs {
                Some(t) => {
                    return Ok((Window { tabs: t }, k4 + 1));
                },
                None => {
                    return Err(DecodeError::MalformedDocument);
                },
            }
        } else {
            return Err(DecodeError::MalformedDocument);
        }
    }
}

/// Reads an array of window objects.
#[verifier::rlimit(100)]
fn parse_windows(s: &str, i: usize) -> (r: Result<(Vec<Window>, usize), DecodeError>)
    requires
        i <= s@.len(),
    ensures
        r matches Ok(p) ==> i < p.1 <= s@.len(),
        match r {
            Ok(p) => parse_windows_at(s@, i as int) == Ok::<
                (Seq<crate::model::WindowV>, int),
                DecodeError,
            >((crate::normalize::window_views(p.0@), p.1 as int)),
            Err(e) => parse_windows_at(s@, i as int) == Err::<
                (Seq<crate::model::WindowV>, int),
                DecodeError,
            >(e),
        },
{
    let n = s.unicode_len();
    let j0 = match expect(s, i, '[') {
        Ok(j) => j,
        Err(err) => {
            return Err(err);
        },
    };
    let mut out: Vec<Window> = Vec::new();
    let k0 = skip_ws(s, j0);
    if k0 < n && s.get_char(k0) == ']' {
        proof {
            assert(crate::normalize::window_views(out@) =~= Seq::<crate::model::WindowV>::empty());
        }
        return Ok((out, k0 + 1));
    }
    let mut k = j0;
    proof {
        assert(crate::normalize::window_views(out@) =~= Seq::<crate::model::WindowV>::empty());
    }
    loop
        invariant
            i < k <= n,
            n == s@.len(),
            parse_windows_at(s@, i as int) == windows_items_at(
                s@,
                k as int,
                crate::normalize::window_views(out@),
            ),
        decreases n - k,
    {
        let (w, k1) = match parse_window(s, k) {
            Ok(p) => p,
            Err(err) => {
                return Err(err);
            },
        };
        let ghost old_views = crate::normalize::window_views(out@);
        let ghost wv = w@;
        out.push(w);
        proof {
            assert(crate::normalize::window_views(out@) =~= old_views.push(wv));
        }
        let k2 = skip_ws(s, k1);
        if k2 < n && s.get_char(k2) == ',' {
            k = k2 + 1;
        } else if k2 < n && s.get_char(k2) == ']' {
            return Ok((out, k2 + 1));
        } else {
            return Err(DecodeError::MalformedDocument);
        }
    }
}

/// Reads one session object: `name`, `date` and `windows` are required;
/// the raw millisecond `date` is rendered to US-Eastern text here, as
/// part of decoding.
#[verifier::rlimit(100)]
fn parse_session(s: &str, i: usize) -> (r: Result<(Session, usize), DecodeError>)
    requires
        i <= s@.len(),
    ensures
        r matches Ok(p) ==> i < p.1 <= s@.len() && exists|secs: u64|
            #[trigger] eastern_render(secs) == Some(p.0@.date),
        match r {
            Ok(p) => parse_session_at(s@, i as int) == Ok::<
                (crate::model::SessionV, int),
                DecodeError,
            >((p.0@, p.1 as int)),
            Err(e) => parse_session_at(s@, i as int) == Err::<
                (crate::model::SessionV, int),
                DecodeError,
            >(e),
        },
{
    let n = s.unicode_len();
    let j0 = match expect(s, i, '{') {
        Ok(j) => j,
        Err(err) => {
            return Err(err);
        },
    };
    let mut name: Option<String> = None;
    let mut date: Option<String> = None;
    let ghost mut date_secs: u64 = 0;
    let mut windows: Option<Vec<Window>> = None;
    let k0 = skip_ws(s, j0);
    if k0 < n && s.get_char(k0) == '}' {
        return Err(DecodeError::MalformedDocument);
    }
    let mut k = j0;
    loop
        invariant
            i < k <= n,
            n == s@.len(),
            date matches Some(d) ==> eastern_render(date_secs) == Some(d@),
            parse_session_at(s@, i as int) == session_fields_at(
                s@,
                k as int,
                view_opt_str(name),
                view_opt_str(date),
                view_opt_windows(windows),
            ),
        decreases n - k,
    {
        let (key, k1) = match parse_string(s, k) {
            Ok(p) => p,
            Err(err) => {
                return Err(err);
            },
        };
        let k2 = match expect(s, k1, ':') {
            Ok(j) => j,
            Err(err) => {
                return Err(err);
            },
        };
        let k3: usize;
        if is_key(&key, "name") {
            if name.is_some() {
                return Err(DecodeError::MalformedDocument);
            }
            let (v, kk) = match parse_string(s, k2) {
                Ok(p) => p,
                Err(err) => {
                    return Err(err);
                },
            };
            name = Some(v);
            k3 = kk;
        } else if is_key(&key, "date") {
            if date.is_some() {
                return Err(DecodeError::MalformedDocument);
            }
            let (ms, kk) = match parse_u64(s, k2, DecodeError::InvalidTimestamp) {
                Ok(p) => p,
                Err(err) => {
                    return Err(err);
                },
            };
            let d = match render_date(ms) {
                Ok(d) => d,
                Err(err) => {
                    return Err(err);
                },
            };
            proof {
                date_secs = ms / 1000;
            }
            date = Some(d);
            k3 = kk;
        } else if is_key(&key, "windows") {
            if windows.is_some() {
                return Err(DecodeError::MalformedDocument);
            }
            let (v, kk) = match parse_windows(s, k2) {
                Ok(p) => p,
                Err(err) => {
                    return Err(err);
                },
            };
            windows = Some(v);
            k3 = kk;
        } else {
            k3 = match skip_value(s, k2) {
                Ok(j) => j,
                Err(err) => {
                    return Err(err);
                },
            };
        }
        let k4 = skip_ws(s, k3);
        if k4 < n && s.get_char(k4) == ',' {
            k = k4 + 1;
        } else if k4 < n && s.get_char(k4) == '}' {
            match (name, date, windows) {
                (Some(nm), Some(d), Some(w)) => {
                    return Ok((Session { name: nm, date: d, windows: w }, k4 + 1));
                },
                _ => {
                    return Err(DecodeError::MalformedDocument);
                },
            }
        } else {
            return Err(DecodeError::MalformedDocument);
        }
    }
}

/// Reads the array of session objects.
#[verifier::rlimit(100)]
fn parse_sessions(s: &str, i: usize) -> (r: Result<(Vec<Session>, usize), DecodeError>)
    requires
        i <= s@.len(),
    ensures
        r matches Ok(p) ==> i < p.1 <= s@.len() && dates_rendered(
            crate::normalize::session_views(p.0@),
        ),
        match r {
            Ok(p) => parse_sessions_at(s@, i as int) == Ok::<
                (Seq<crate::model::SessionV>, int),
                DecodeError,
            >((crate::normalize::session_views(p.0@), p.1 as int)),
            Err(e) => parse_sessions_at(s@, i as int) == Err::<
                (Seq<crate::model::SessionV>, int),
                DecodeError,
            >(e),
        },
{
    let n = s.unicode_len();
    let j0 = match expect(s, i, '[') {
        Ok(j) => j,
        Err(err) => {
            return Err(err);
        },
    };
    let mut out: Vec<Session> = Vec::new();
    let k0 = skip_ws(s, j0);
    if k0 < n && s.get_char(k0) == ']' {
        proof {
            assert(crate::normalize::session_views(out@) =~= Seq::<
                crate::model::SessionV,
            >::empty());
        }
        return Ok((out, k0 + 1));
    }
    let mut k = j0;
    proof {
        assert(crate::normalize::session_views(out@) =~= Seq::<crate::model::SessionV>::empty());
    }
    loop
        invariant
            i < k <= n,
            n == s@.len(),
            dates_rendered(crate::normalize::session_views(out@)),
            parse_sessions_at(s@, i as int) == sessions_items_at(
                s@,
                k as int,
                crate::normalize::session_views(out@),
            ),
        decreases n - k,
    {
        let (se, k1) = match parse_session(s, k) {
            Ok(p) => p,
            Err(err) => {
                return Err(err);
            },
        };
        let ghost old_views = crate::normalize::session_views(out@);
        out.push(se);
        proof {
            assert(crate::normalize::session_views(out@) =~= old_views.push(se@));
            let views = crate::normalize::session_views(out@);
            assert forall|q: int| #![trigger views[q]] 0 <= q < views.len() implies exists|
                secs: u64,
            |
                #[trigger] eastern_render(secs) == Some(views[q].date) by {
                if q < old_views.len() {
                    assert(views[q] == old_views[q]);
                } else {
                    assert(views[q] == se@);
                }
            }
        }
        let k2 = skip_ws(s, k1);
        if k2 < n && s.get_char(k2) == ',' {
            k = k2 + 1;
        } else if k2 < n && s.get_char(k2) == ']' {
            return Ok((out, k2 + 1));
        } else {
            return Err(DecodeError::MalformedDocument);
        }
    }
}

/// Decodes a whole export document: an object whose required `sessions`
/// field holds the array of sessions. The result is exactly what
/// `decode_spec` says of the input text; on success every session's
/// date is rendered US-Eastern text.
#[verifier::rlimit(100)]
pub fn decode_export(s: &str) -> (r: Result<Export, DecodeError>)
    ensures
        match r {
            Ok(e) => decode_spec(s@) == Ok::<crate::model::ExportV, DecodeError>(e@)
                && dates_rendered(e@.sessions),
            Err(err) => decode_spec(s@) == Err::<crate::model::ExportV, DecodeError>(err),
        },
{
    let n = s.unicode_len();
    let j0 = match expect(s, 0, '{') {
        Ok(j) => j,
        Err(err) => {
            return Err(err);
        },
    };
    let mut sessions: Option<Vec<Session>> = None;
    let k0 = skip_ws(s, j0);
    let mut k = j0;
    if k0 < n && s.get_char(k0) == '}' {
        return Err(DecodeError::MalformedDocument);
    }
    loop
        invariant
            0 < k <= n,
            n == s@.len(),
            sessions matches Some(v) ==> dates_rendered(crate::normalize::session_views(v@)),
            decode_spec(s@) == export_fields_at(s@, k as int, view_opt_sessions(sessions)),
        decreases n - k,
    {
        let (key, k1) = match parse_string(s, k) {
            Ok(p) => p,
            Err(err) => {
                return Err(err);
            },
        };
        let k2 = match expect(s, k1, ':') {
            Ok(j) => j,
            Err(err) => {
                return Err(err);
            },
        };
        let k3: usize;
        if is_key(&key, "sessions") {
            if sessions.is_some() {
                return Err(DecodeError::MalformedDocument);
            }
            let (v, kk) = match parse_sessions(s, k2) {
                Ok(p) => p,
                Err(err) => {
                    return Err(err);
                },
            };
            sessions = Some(v);
            k3 = kk;
        } else {
            k3 = match skip_value(s, k2) {
                Ok(j) => j,
                Err(err) => {
                    return Err(err);
                },
            };
        }
        let k4 = skip_ws(s, k3);
        if k4 < n && s.get_char(k4) == ',' {
            k = k4 + 1;
        } else if k4 < n && s.get_char(k4) == '}' {
            let tail = skip_ws(s, k4 + 1);
            if tail != n {
                return Err(DecodeError::MalformedDocument);
            }
            match sessions {
                Some(v) => {
                    proof {
                        assert(Export { sessions: v }@.sessions =~= crate::normalize::session_views(
                            v@,
                        ));
                    }
                    return Ok(Export { sessions: v });
                },
                None => {
                    return Err(DecodeError::MalformedDocument);
                },
            }
        } else {
            return Err(DecodeError::MalformedDocument);
        }
    }
}

} // verus!
