//! Textual address literals parsed into typed address values.

use vstd::prelude::*;

verus! {

/// An IPv4 address, one field per octet of the dotted-decimal form.
#[derive(Clone, Copy, Debug, PartialEq, Eq, Structural)]
pub struct Ipv4Addr {
    pub o0: u8,
    pub o1: u8,
    pub o2: u8,
    pub o3: u8,
}

impl View for Ipv4Addr {
    type V = Seq<u8>;

    open spec fn view(&self) -> Seq<u8> {
        seq![self.o0, self.o1, self.o2, self.o3]
    }
}

/// An IPv6 address, one field per 16-bit group of the colon-separated form.
#[derive(Clone, Copy, Debug, PartialEq, Eq, Structural)]
pub struct Ipv6Addr {
    pub g0: u16,
    pub g1: u16,
    pub g2: u16,
    pub g3: u16,
    pub g4: u16,
    pub g5: u16,
    pub g6: u16,
    pub g7: u16,
}

impl View for Ipv6Addr {
    type V = Seq<u16>;

    open spec fn view(&self) -> Seq<u16> {
        seq![self.g0, self.g1, self.g2, self.g3, self.g4, self.g5, self.g6, self.g7]
    }
}

pub open spec fn is_dec_digit(c: char) -> bool {
    '0' <= c && c <= '9'
}

pub open spec fn dec_val(c: char) -> int {
    c as int - '0' as int
}

pub open spec fn is_hex_digit(c: char) -> bool {
    is_dec_digit(c) || ('a' <= c && c <= 'f') || ('A' <= c && c <= 'F')
}

pub open spec fn hex_val(c: char) -> int {
    if is_dec_digit(c) {
        c as int - '0' as int
    } else if 'a' <= c && c <= 'f' {
        10 + c as int - 'a' as int
    } else {
        10 + c as int - 'A' as int
    }
}

/// Scans a dotted-decimal IPv4 literal from position `i`: `acc` is the
/// value and `len` the digit count of the octet being read, `parts` the
/// octets already read.  Octets are decimal, at most 255, and may not
/// carry a leading zero; exactly four of them, separated by single dots,
/// must make up the whole string.
pub open spec fn ipv4_scan(s: Seq<char>, i: int, acc: int, len: int, parts: Seq<u8>) -> Option<
    Seq<u8>,
>
    decreases s.len() - i when 0 <= i <= s.len() && 0 <= acc <= 255
{
    if i == s.len() {
        if len >= 1 && parts.len() == 3 {
            Some(parts.push(acc as u8))
        } else {
            None
        }
    } else if s[i] == '.' {
        if len >= 1 && parts.len() < 3 {
            ipv4_scan(s, i + 1, 0, 0, parts.push(acc as u8))
        } else {
            None
        }
    } else if is_dec_digit(s[i]) {
        if len >= 1 && acc == 0 {
            None
        } else if acc * 10 + dec_val(s[i]) > 255 {
            None
        } else {
            ipv4_scan(s, i + 1, acc * 10 + dec_val(s[i]), len + 1, parts)
        }
    } else {
        None
    }
}

/// The octets of a dotted-decimal IPv4 literal, or `None` when the string
/// is not one.
pub open spec fn spec_parse_ipv4(s: Seq<char>) -> Option<Seq<u8>> {
    ipv4_scan(s, 0, 0, 0, Seq::empty())
}

/// Parses a dotted-decimal IPv4 address literal.
pub fn parse_ipv4(s: &str) -> (r: Option<Ipv4Addr>)
    ensures
        spec_parse_ipv4(s@) matches Some(v) ==> (r matches Some(ip) && ip@ == v),
        spec_parse_ipv4(s@) is None ==> r is None,
{
    let n = s.unicode_len();
    let mut i: usize = 0;
    let mut acc: u16 = 0;
    let mut len: usize = 0;
    let mut parts: Vec<u8> = Vec::new();
    while i < n
        invariant
            i <= n,
            len <= i,
            n == s@.len(),
            acc <= 255,
            parts@.len() <= 3,
            spec_parse_ipv4(s@) == ipv4_scan(s@, i as int, acc as int, len as int, parts@),
        decreases n - i,
    {
        let c = s.get_char(i);
        if c == '.' {
            if len >= 1 && parts.len() < 3 {
                parts.push(acc as u8);
                acc = 0;
                len = 0;
            } else {
                return None;
            }
        } else if '0' <= c && c <= '9' {
            let d = (c as u32 - '0' as u32) as u16;
            if len >= 1 && acc == 0 {
                return None;
            }
            let next = acc * 10 + d;
            if next > 255 {
                return None;
            }
            acc = next;
            len = len + 1;
        } else {
            return None;
        }
        i = i + 1;
    }
    if len >= 1 && parts.len() == 3 {
        let ip = Ipv4Addr { o0: parts[0], o1: parts[1], o2: parts[2], o3: acc as u8 };
        proof {
            assert(ip@ =~= parts@.push(acc as u8));
        }
        Some(ip)
    } else {
        None
    }
}

/// Inserts the zero groups a `::` abbreviation stands for: the groups
/// read before it, then zeros up to eight groups, then the groups read
/// after it.
pub open spec fn ipv6_fill(parts: Seq<u16>, z: int) -> Seq<u16> {
    parts.take(z) + Seq::new((8 - parts.len()) as nat, |j: int| 0u16) + parts.skip(z)
}

/// Accepts the groups of a finished scan: without `::` exactly eight
/// groups must have been read; with `::` (standing for at least one zero
/// group) at most seven, filled up with zeros at its position `z`.
pub open spec fn ipv6_finish(parts: Seq<u16>, zpos: Option<int>) -> Option<Seq<u16>> {
    match zpos {
        None => if parts.len() == 8 {
            Some(parts)
        } else {
            None
        },
        Some(z) => if parts.len() <= 7 && 0 <= z <= parts.len() {
            Some(ipv6_fill(parts, z))
        } else {
            None
        },
    }
}

/// Scans a colon-separated IPv6 literal from position `i`: `acc` and
/// `len` describe the hexadecimal group being read (at most four digits),
/// `parts` the groups already read, and `zpos` where a `::` abbreviation
/// occurred, if one did.
pub open spec fn ipv6_scan(
    s: Seq<char>,
    i: int,
    acc: int,
    len: int,
    parts: Seq<u16>,
    zpos: Option<int>,
) -> Option<Seq<u16>>
    decreases s.len() - i when 0 <= i <= s.len() && 0 <= acc < 0x10000
{
    if i == s.len() {
        if len >= 1 {
            ipv6_finish(parts.push(acc as u16), zpos)
        } else if zpos == Some(parts.len() as int) {
            ipv6_finish(parts, zpos)
        } else {
            None
        }
    } else if is_hex_digit(s[i]) {
        if len >= 4 {
            None
        } else {
            ipv6_scan(s, i + 1, acc * 16 + hex_val(s[i]), len + 1, parts, zpos)
        }
    } else if s[i] == ':' {
        if len >= 1 {
            if i + 1 < s.len() && s[i + 1] == ':' {
                if zpos is None {
                    ipv6_scan(s, i + 2, 0, 0, parts.push(acc as u16), Some(parts.len() as int + 1))
                } else {
                    None
                }
            } else {
                ipv6_scan(s, i + 1, 0, 0, parts.push(acc as u16), zpos)
            }
        } else {
            if i == 0 && s.len() >= 2 && s[1] == ':' && zpos is None {
                ipv6_scan(s, 2, 0, 0, parts, Some(0))
            } else {
                None
            }
        }
    } else {
        None
    }
}

/// The eight groups of an IPv6 literal, or `None` when the string is not
/// one.  The accepted grammar is the colon-separated hexadecimal form
/// with at most one `::` abbreviation.
pub open spec fn spec_parse_ipv6(s: Seq<char>) -> Option<Seq<u16>> {
    ipv6_scan(s, 0, 0, 0, Seq::empty(), None)
}

fn hex_digit_val(c: char) -> (r: Option<u16>)
    ensures
        is_hex_digit(c) ==> (r matches Some(v) && v as int == hex_val(c)),
        !is_hex_digit(c) ==> r is None,
{
    if '0' <= c && c <= '9' {
        Some((c as u32 - '0' as u32) as u16)
    } else if 'a' <= c && c <= 'f' {
        Some((10 + c as u32 - 'a' as u32) as u16)
    } else if 'A' <= c && c <= 'F' {
        Some((10 + c as u32 - 'A' as u32) as u16)
    } else {
        None
    }
}

/// Parses a colon-separated hexadecimal IPv6 address literal, with at
/// most one `::` abbreviation.
pub fn parse_ipv6(s: &str) -> (r: Option<Ipv6Addr>)
    ensures
        spec_parse_ipv6(s@) matches Some(v) ==> (r matches Some(ip) && ip@ == v),
        spec_parse_ipv6(s@) is None ==> r is None,
{
    let n = s.unicode_len();
    let mut i: usize = 0;
    let mut acc: u32 = 0;
    let mut len: usize = 0;
    let mut parts: Vec<u16> = Vec::new();
    let mut zpos: Option<usize> = None;
    while i < n
        invariant
            i <= n,
            n == s@.len(),
            len <= 4,
            (len == 0 ==> acc == 0),
            (len == 1 ==> acc < 16),
            (len == 2 ==> acc < 256),
            (len == 3 ==> acc < 4096),
            acc < 0x10000,
            zpos matches Some(z) ==> z <= parts@.len(),
            spec_parse_ipv6(s@) == ipv6_scan(
                s@,
                i as int,
                acc as int,
                len as int,
                parts@,
                match zpos {
                    Some(z) => Some(z as int),
                    None => None,
                },
            ),
        decreases n - i,
    {
        let c = s.get_char(i);
        if c == ':' {
            if len >= 1 {
                let double = i + 1 < n && s.get_char(i + 1) == ':';
                if double {
                    if zpos.is_none() {
                        parts.push(acc as u16);
                        zpos = Some(parts.len());
                        acc = 0;
                        len = 0;
                        i = i + 2;
                    } else {
                        return None;
                    }
                } else {
                    parts.push(acc as u16);
                    acc = 0;
                    len = 0;
                    i = i + 1;
                }
            } else {
                if i == 0 && n >= 2 && s.get_char(1) == ':' && zpos.is_none() {
                    zpos = Some(0);
                    i = 2;
                } else {
                    return None;
                }
            }
        } else {
            match hex_digit_val(c) {
                Some(d) => {
                    if len >= 4 {
                        return None;
                    }
                    acc = acc * 16 + d as u32;
                    len = len + 1;
                    i = i + 1;
                },
                None => {
                    return None;
                },
            }
        }
    }
    if len >= 1 {
        parts.push(acc as u16);
    } else {
        let ghost zv: Option<int> = match zpos {
            Some(z) => Some(z as int),
            None => None,
        };
        if !(zpos.is_some() && zpos.unwrap() == parts.len()) {
            assert(zv != Some(parts@.len() as int));
            return None;
        }
    }
    let groups = match zpos {
        None => {
            if parts.len() != 8 {
                return None;
            }
            parts
        },
        Some(z) => {
            if parts.len() > 7 {
                return None;
            }
            let mut out: Vec<u16> = Vec::new();
            let mut j: usize = 0;
            while j < z
                invariant
                    z <= parts@.len() <= 7,
                    j <= z,
                    out@ =~= parts@.take(j as int),
                decreases z - j,
            {
                out.push(parts[j]);
                proof {
                    assert(out@ =~= parts@.take(j as int + 1));
                }
                j = j + 1;
            }
            proof {
                assert(out@ =~= parts@.take(z as int));
            }
            let zeros = 8 - parts.len();
            let mut k: usize = 0;
            while k < zeros
                invariant
                    z <= parts@.len() <= 7,
                    zeros == 8 - parts@.len(),
                    k <= zeros,
                    out@ =~= parts@.take(z as int) + Seq::new(k as nat, |q: int| 0u16),
                decreases zeros - k,
            {
                out.push(0);
                proof {
                    assert(out@ =~= parts@.take(z as int) + Seq::new(
                        k as nat + 1,
                        |q: int| 0u16,
                    ));
                }
                k = k + 1;
            }
            let mut m: usize = z;
            while m < parts.len()
                invariant
                    z <= parts@.len() <= 7,
                    z <= m <= parts@.len(),
                    out@ =~= parts@.take(z as int) + Seq::new(
                        (8 - parts@.len()) as nat,
                        |q: int| 0u16,
                    ) + parts@.subrange(z as int, m as int),
                decreases parts@.len() - m,
            {
                let x = parts[m];
                out.push(x);
                proof {
                    assert(out@ =~= parts@.take(z as int) + Seq::new(
                        (8 - parts@.len()) as nat,
                        |q: int| 0u16,
                    ) + parts@.subrange(z as int, m as int + 1));
                }
                m = m + 1;
            }
            proof {
                assert(parts@.subrange(z as int, parts@.len() as int) =~= parts@.skip(z as int));
                assert(out@ =~= ipv6_fill(parts@, z as int));
            }
            out
        },
    };
    proof {
        assert(groups@.len() == 8);
    }
    let ip = Ipv6Addr {
        g0: groups[0],
        g1: groups[1],
        g2: groups[2],
        g3: groups[3],
        g4: groups[4],
        g5: groups[5],
        g6: groups[6],
        g7: groups[7],
    };
    proof {
        assert(ip@ =~= groups@);
    }
    Some(ip)
}

} // verus!
