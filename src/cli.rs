//! Parsing of the command line's values: address to listen on and ranges.

use crate::bytes::{decimal, find_first, is_digit, starts_with, trim, trim_range};
use vstd::prelude::*;

verus! {

/// The subcommands.
pub enum Commands {
    /// Compile Adblock filter files into a blocklist file.
    Dacgen {
        /// Where to list the compiled patterns as text (`-` for stdout).
        dump: Option<String>,
        /// The Adblock filter files (`-` for stdin).
        inputs: Vec<String>,
        /// Where to write the blocklist file (`-` for stdout).
        dac: String,
    },
}

/// The value of a decimal `u32` as std's `u32::from_str` reads it: an
/// optional `+`, then one or more digits, the value at most `u32::MAX`.
pub open spec fn digits_part(s: Seq<u8>) -> Seq<u8> {
    if s.len() > 0 && s[0] == 43 {
        s.subrange(1, s.len() as int)
    } else {
        s
    }
}

pub open spec fn u32_of(s: Seq<u8>) -> Option<u32> {
    let d = digits_part(s);
    if d.len() > 0 && (forall|i: int| 0 <= i < d.len() ==> is_digit(#[trigger] d[i])) && decimal(d)
        <= u32::MAX {
        Some(decimal(d) as u32)
    } else {
        None
    }
}

pub proof fn lemma_decimal_grows(s: Seq<u8>, k: int)
    requires
        0 <= k <= s.len(),
        forall|i: int| 0 <= i < s.len() ==> is_digit(#[trigger] s[i]),
    ensures
        decimal(s) >= decimal(s.subrange(0, k)),
        decimal(s) >= 0,
    decreases s.len(),
{
    if s.len() > 0 {
        if k == s.len() {
            assert(s.subrange(0, k) =~= s);
        } else {
            assert(s.drop_last().subrange(0, k) =~= s.subrange(0, k));
        }
        lemma_decimal_grows(s.drop_last(), if k == s.len() {
            k - 1
        } else {
            k
        });
    }
}

/// Reads a decimal `u32` from `s`.
pub fn parse_u32(s: &[u8]) -> (r: Option<u32>)
    ensures
        r == u32_of(s@),
{
    let start: usize = if s.len() > 0 && s[0] == 43 {
        1
    } else {
        0
    };
    let d = &s[start..s.len()];
    assert(d@ == digits_part(s@));
    if d.len() == 0 {
        return None;
    }
    let mut v: u64 = 0;
    let mut k: usize = 0;
    while k < d.len()
        invariant
            k <= d@.len(),
            d@ == digits_part(s@),
            d@.len() > 0,
            forall|i: int| 0 <= i < k ==> is_digit(#[trigger] d@[i]),
            v as int == decimal(d@.subrange(0, k as int)),
            v <= u32::MAX,
        decreases d@.len() - k,
    {
        let c = d[k];
        if c < 48 || c > 57 {
            assert(!is_digit(d@[k as int]));
            assert(!(forall|i: int| 0 <= i < d@.len() ==> is_digit(#[trigger] d@[i])));
            assert(u32_of(s@) is None);
            return None;
        }
        assert(d@.subrange(0, k + 1).drop_last() =~= d@.subrange(0, k as int));
        let nv = v * 10 + (c - 48) as u64;
        if nv > 0xffff_ffff {
            assert(decimal(d@.subrange(0, k + 1)) == nv);
            proof {
                if forall|i: int| 0 <= i < d@.len() ==> is_digit(#[trigger] d@[i]) {
                    lemma_decimal_grows(d@, k + 1);
                    assert(decimal(d@) > u32::MAX);
                }
                assert(u32_of(s@) is None);
            }
            return None;
        }
        v = nv;
        k += 1;
    }
    assert(d@.subrange(0, d@.len() as int) =~= d@);
    Some(v as u32)
}

/// The digits of a signed decimal: without a leading `+` or `-`.
pub open spec fn signed_digits(s: Seq<u8>) -> Seq<u8> {
    if s.len() > 0 && (s[0] == 43 || s[0] == 45) {
        s.subrange(1, s.len() as int)
    } else {
        s
    }
}

/// The value of a decimal `i64` as std's `i64::from_str` reads it: an
/// optional `+` or `-`, then one or more digits, the value within range.
pub open spec fn i64_of(s: Seq<u8>) -> Option<i64> {
    let neg = s.len() > 0 && s[0] == 45;
    let d = signed_digits(s);
    let v = decimal(d);
    if d.len() > 0 && (forall|i: int| 0 <= i < d.len() ==> is_digit(#[trigger] d[i])) && (if neg {
        v <= 0x8000_0000_0000_0000
    } else {
        v <= 0x7fff_ffff_ffff_ffff
    }) {
        Some((if neg {
            -v
        } else {
            v
        }) as i64)
    } else {
        None
    }
}

/// Reads a decimal `i64` from `s`.
pub fn parse_i64(s: &[u8]) -> (r: Option<i64>)
    ensures
        r == i64_of(s@),
{
    let neg = s.len() > 0 && s[0] == 45;
    let start: usize = if s.len() > 0 && (s[0] == 43 || s[0] == 45) {
        1
    } else {
        0
    };
    let d = &s[start..s.len()];
    assert(d@ == signed_digits(s@));
    if d.len() == 0 {
        return None;
    }
    let limit: u128 = if neg {
        0x8000_0000_0000_0000
    } else {
        0x7fff_ffff_ffff_ffff
    };
    let mut v: u128 = 0;
    let mut k: usize = 0;
    while k < d.len()
        invariant
            k <= d@.len(),
            d@ == signed_digits(s@),
            d@.len() > 0,
            neg == (s@.len() > 0 && s@[0] == 45),
            limit == (if neg {
                0x8000_0000_0000_0000u128
            } else {
                0x7fff_ffff_ffff_ffffu128
            }),
            forall|i: int| 0 <= i < k ==> is_digit(#[trigger] d@[i]),
            v as int == decimal(d@.subrange(0, k as int)),
            v <= limit,
        decreases d@.len() - k,
    {
        let c = d[k];
        if c < 48 || c > 57 {
            assert(!is_digit(d@[k as int]));
            assert(!(forall|i: int| 0 <= i < d@.len() ==> is_digit(#[trigger] d@[i])));
            assert(i64_of(s@) is None);
            return None;
        }
        assert(d@.subrange(0, k + 1).drop_last() =~= d@.subrange(0, k as int));
        let nv = v * 10 + (c - 48) as u128;
        if nv > limit {
            assert(decimal(d@.subrange(0, k + 1)) == nv);
            proof {
                if forall|i: int| 0 <= i < d@.len() ==> is_digit(#[trigger] d@[i]) {
                    lemma_decimal_grows(d@, k + 1);
                }
                assert(i64_of(s@) is None);
            }
            return None;
        }
        v = nv;
        k += 1;
    }
    assert(d@.subrange(0, d@.len() as int) =~= d@);
    if neg {
        if v == 0x8000_0000_0000_0000u128 {
            Some(i64::MIN)
        } else {
            Some(-(v as i64))
        }
    } else {
        Some(v as i64)
    }
}

/// Why a range did not parse.
#[derive(Clone, Copy, Debug, PartialEq, Eq, Structural)]
pub enum RangeError {
    /// No `..` in the text.
    NoSeparator,
    /// A bound is not a decimal `u32`.
    BadNumber,
    /// The upper bound is below the lower one.
    Reversed,
}

/// Index of the first `..` in `s` at or after `i`, or `s.len()`.
pub open spec fn dots_from(s: Seq<u8>, i: int) -> int
    decreases s.len() - i,
{
    if i < 0 || i + 1 >= s.len() {
        s.len() as int
    } else if s[i] == 46 && s[i + 1] == 46 {
        i
    } else {
        dots_from(s, i + 1)
    }
}

pub open spec fn dots_at(s: Seq<u8>) -> int {
    dots_from(s, 0)
}

/// A bound's value: the trimmed text, or `dflt` when it is empty.
pub open spec fn bound_of(part: Seq<u8>, dflt: u32) -> Option<u32> {
    if trim(part).len() == 0 {
        Some(dflt)
    } else {
        u32_of(trim(part))
    }
}

/// Parses `MIN..MAX`; an empty MIN means 1 and an empty MAX `u32::MAX`.
pub fn parse_range(s: &[u8]) -> (r: Result<[u32; 2], RangeError>)
    ensures
        dots_at(s@) >= s@.len() ==> r == Err::<[u32; 2], RangeError>(RangeError::NoSeparator),
        dots_at(s@) < s@.len() ==> match (
            bound_of(s@.subrange(0, dots_at(s@)), 1),
            bound_of(s@.subrange(dots_at(s@) + 2, s@.len() as int), u32::MAX),
        ) {
            (Some(a), Some(b)) => if b < a {
                r == Err::<[u32; 2], RangeError>(RangeError::Reversed)
            } else {
                r matches Ok(v) && v@ == seq![a, b]
            },
            _ => r == Err::<[u32; 2], RangeError>(RangeError::BadNumber),
        },
{
    let n = s.len();
    let mut i: usize = 0;
    while n > 0 && i < n - 1 && !(s[i] == 46 && s[i + 1] == 46)
        invariant
            i <= n == s@.len(),
            dots_from(s@, i as int) == dots_at(s@),
        decreases n - i,
    {
        i += 1;
    }
    if n == 0 || i >= n - 1 {
        return Err(RangeError::NoSeparator);
    }
    let a = bound(&s[0..i], 1);
    let b = bound(&s[i + 2..n], 0xffff_ffff);
    match (a, b) {
        (Some(a), Some(b)) => {
            if b < a {
                Err(RangeError::Reversed)
            } else {
                let v = [a, b];
                assert(v@ =~= seq![a, b]);
                Ok(v)
            }
        },
        _ => Err(RangeError::BadNumber),
    }
}

fn bound(part: &[u8], dflt: u32) -> (r: Option<u32>)
    ensures
        r == bound_of(part@, dflt),
{
    let (lo, hi) = trim_range(part);
    if hi == lo {
        Some(dflt)
    } else {
        parse_u32(&part[lo..hi])
    }
}

/// The address part after an optional `http://` or `://`.
pub open spec fn address_part(t: Seq<u8>) -> Seq<u8> {
    if starts_with(t, seq![104u8, 116, 116, 112, 58, 47, 47]) {
        t.subrange(7, t.len() as int)
    } else if starts_with(t, seq![58u8, 47, 47]) {
        t.subrange(3, t.len() as int)
    } else {
        t
    }
}

/// The port text's value: 5151 when empty, else a decimal of at most 65535.
pub open spec fn port_of(p: Seq<u8>) -> Option<u16> {
    if p.len() == 0 {
        Some(5151)
    } else {
        match u32_of(p) {
            Some(v) => if v <= 65535 {
                Some(v as u16)
            } else {
                None
            },
            None => None,
        }
    }
}

/// A listen address: after trimming and an optional `http://` or `://`,
/// the text before the last `:` is the host (trimmed; `127.0.0.1` when
/// empty) and the text after it the port (trimmed; 5151 when empty); without
/// a `:` the whole text is the host and the port is 5151.
pub open spec fn listen_address_of(input: Seq<u8>) -> Option<(Seq<u8>, u16)> {
    let s = address_part(trim(input));
    let c = crate::bytes::find_last(s, 58, 0, s.len() as int);
    let host = if c >= 0 {
        trim(s.subrange(0, c))
    } else {
        trim(s)
    };
    let port = if c >= 0 {
        port_of(trim(s.subrange(c + 1, s.len() as int)))
    } else {
        Some(5151u16)
    };
    match port {
        Some(p) => Some((if host.len() == 0 {
            seq![49u8, 50, 55, 46, 48, 46, 48, 46, 49]
        } else {
            host
        }, p)),
        None => None,
    }
}

/// The port used when an address gives none.
pub const DEFAULT_PORT: u16 = 5151;

/// Parses a listen address (see `listen_address_of`): `host:port`,
/// `:port`, `host`, optionally after `http://` or `://`.
pub fn parse_listen_address(input: &[u8]) -> (r: Option<(Vec<u8>, u16)>)
    ensures
        r matches Some((h, p)) ==> listen_address_of(input@) == Some((h@, p)),
        r is None ==> listen_address_of(input@) is None,
{
    let (lo, hi) = trim_range(input);
    let t = &input[lo..hi];
    let http: [u8; 7] = [104, 116, 116, 112, 58, 47, 47];
    let cs: [u8; 3] = [58, 47, 47];
    assert(http@ =~= seq![104u8, 116, 116, 112, 58, 47, 47]);
    assert(cs@ =~= seq![58u8, 47, 47]);
    let s: &[u8] = if crate::bytes::starts_with_exec(t, http.as_slice()) {
        &t[7..t.len()]
    } else if crate::bytes::starts_with_exec(t, cs.as_slice()) {
        &t[3..t.len()]
    } else {
        t
    };
    assert(s@ == address_part(trim(input@)));
    let colon = crate::bytes::find_last_exec(s, 58, 0, s.len());
    let (host_part, port): (&[u8], u16) = match colon {
        Some(c) => {
            let ps = &s[c + 1..s.len()];
            let (plo, phi) = trim_range(ps);
            assert(ps@.subrange(plo as int, phi as int) == trim(s@.subrange(c + 1, s@.len() as int)));
            let port = if phi == plo {
                DEFAULT_PORT
            } else {
                match parse_u32(&ps[plo..phi]) {
                    Some(v) => {
                        if v > 65535 {
                            return None;
                        }
                        v as u16
                    },
                    None => {
                        return None;
                    },
                }
            };
            assert(port_of(trim(s@.subrange(c + 1, s@.len() as int))) == Some(port));
            (&s[0..c], port)
        },
        None => (s, DEFAULT_PORT),
    };
    let (hlo, hhi) = trim_range(host_part);
    let host = if hhi == hlo {
        let local: [u8; 9] = [49, 50, 55, 46, 48, 46, 48, 46, 49];
        let v = crate::bytes::copy_range(local.as_slice(), 0, 9);
        assert(v@ =~= seq![49u8, 50, 55, 46, 48, 46, 48, 46, 49]);
        v
    } else {
        crate::bytes::copy_range(host_part, hlo, hhi)
    };
    Some((host, port))
}

} // verus!
