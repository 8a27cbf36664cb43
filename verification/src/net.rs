//! IPv4 CIDR blocks: containment, boundary facts, and parsing of CIDR
//! notation through the `ipnet` crate.

use vstd::prelude::*;

verus! {

use vstd::arithmetic::power2::{pow2, lemma_pow2_pos, lemma2_to64};
use vstd::arithmetic::div_mod::{lemma_basic_div_specific_divisor, lemma_fundamental_div_mod_converse};
use vstd::bits::lemma_u32_shr_is_div;

/// An IPv4 CIDR block: a network address (as the 32-bit integer value of the
/// dotted quad) together with a prefix length. A prefix length of `p` means
/// the high-order `p` bits select the network; the address may carry host
/// bits below the prefix, which containment ignores.
#[derive(Clone, Copy, Debug, PartialEq, Eq, Structural)]
pub struct Ipv4Cidr {
    pub addr: u32,
    pub prefix: u8,
}

/// The number of addresses a block with this prefix length spans
/// (2^(32 - prefix); prefix lengths above 32 are treated as 32).
pub open spec fn block_size(prefix: u8) -> int {
    if prefix >= 32 {
        1
    } else {
        pow2((32 - prefix) as nat) as int
    }
}

/// Containment: `a` lies in the block iff its high-order `prefix` bits match
/// the block's, i.e. both addresses lie in the same aligned block of
/// `block_size` consecutive addresses.
pub open spec fn cidr_contains_spec(c: Ipv4Cidr, a: int) -> bool {
    a / block_size(c.prefix) == c.addr as int / block_size(c.prefix)
}

/// The lowest address of the block: the address with the host bits cleared.
pub open spec fn network_address(c: Ipv4Cidr) -> int {
    (c.addr as int / block_size(c.prefix)) * block_size(c.prefix)
}

/// The highest address of the block (its broadcast address).
pub open spec fn broadcast_address(c: Ipv4Cidr) -> int {
    network_address(c) + block_size(c.prefix) - 1
}

impl Ipv4Cidr {
    /// Whether `addr` lies within this block, boundaries included.
    pub fn contains(&self, addr: u32) -> (r: bool)
        ensures
            r == cidr_contains_spec(*self, addr as int),
    {
        if self.prefix == 0 {
            proof {
                lemma2_to64();
                lemma_basic_div_specific_divisor(pow2(32) as int);
            }
            true
        } else {
            let p: u32 = if self.prefix >= 32 {
                32
            } else {
                self.prefix as u32
            };
            let shift: u32 = 32 - p;
            let r = (addr >> shift) == (self.addr >> shift);
            proof {
                lemma2_to64();
                lemma_u32_shr_is_div(addr, shift);
                lemma_u32_shr_is_div(self.addr, shift);
                lemma_pow2_pos(shift as nat);
                assert(block_size(self.prefix) == pow2(shift as nat) as int);
            }
            r
        }
    }
}

/// Addresses exactly on the block's boundaries are contained, and the
/// addresses immediately below the network address and immediately above the
/// broadcast address are not.
pub proof fn lemma_containment_boundaries(c: Ipv4Cidr)
    ensures
        cidr_contains_spec(c, network_address(c)),
        cidr_contains_spec(c, broadcast_address(c)),
        !cidr_contains_spec(c, network_address(c) - 1),
        !cidr_contains_spec(c, broadcast_address(c) + 1),
{
    let bs = block_size(c.prefix);
    assert(bs > 0) by {
        if c.prefix < 32 {
            lemma_pow2_pos((32 - c.prefix) as nat);
        }
    }
    let q = c.addr as int / bs;
    let net = network_address(c);
    assert((q - 1) * bs == q * bs - bs) by (nonlinear_arith);
    assert((q + 1) * bs == q * bs + bs) by (nonlinear_arith);
    lemma_fundamental_div_mod_converse(net, bs, q, 0);
    lemma_fundamental_div_mod_converse(net + bs - 1, bs, q, bs - 1);
    lemma_fundamental_div_mod_converse(net - 1, bs, q - 1, bs - 1);
    lemma_fundamental_div_mod_converse(net + bs, bs, q + 1, 0);
}

/// Whether some block in `nets` contains `addr`.
pub open spec fn spec_addr_in_networks(addr: u32, nets: Seq<Ipv4Cidr>) -> bool {
    exists|i: int| 0 <= i < nets.len() && cidr_contains_spec(nets[i], addr as int)
}

/// Check whether `addr` is in any of the blocks in `nets`.
pub fn addr_in_networks(addr: u32, nets: &[Ipv4Cidr]) -> (r: bool)
    ensures
        r == spec_addr_in_networks(addr, nets@),
{
    let mut i: usize = 0;
    while i < nets.len()
        invariant
            i <= nets@.len(),
            forall|j: int| 0 <= j < i ==> !cidr_contains_spec(nets@[j], addr as int),
        decreases nets@.len() - i,
    {
        if nets[i].contains(addr) {
            return true;
        }
        i = i + 1;
    }
    false
}

/// Whether `s` is a valid decimal octet: one to three digits, no leading
/// zero unless the octet is exactly "0", value at most 255.
pub open spec fn octet_ok(s: Seq<char>) -> bool {
    1 <= s.len() <= 3 && crate::text::digits_only(s) && (s.len() == 1 || s[0] != '0')
        && crate::text::dec_value(s) <= 255
}

/// The 32-bit value of a dotted quad given as four octet texts, first octet
/// highest.
pub open spec fn quad_value(parts: Seq<Seq<char>>) -> u32
    recommends
        parts.len() == 4,
{
    (((crate::text::dec_value(parts[0]) * 256 + crate::text::dec_value(parts[1])) * 256
        + crate::text::dec_value(parts[2])) * 256 + crate::text::dec_value(parts[3])) as u32
}

/// Parse `s` as a dotted-quad IPv4 address, the way the standard library
/// reads one: exactly four octets separated by '.', each a plain decimal
/// number of at most three digits without leading zeros and at most 255.
/// The result is the address as a 32-bit integer, first octet highest.
pub open spec fn spec_parse_ipv4(s: Seq<char>) -> Option<u32> {
    let parts = crate::text::split_on(s, '.');
    if parts.len() == 4 && octet_ok(parts[0]) && octet_ok(parts[1]) && octet_ok(parts[2])
        && octet_ok(parts[3]) {
        Some(quad_value(parts))
    } else {
        None
    }
}

fn parse_octet(p: &str) -> (r: Option<u32>)
    ensures
        r is Some <==> octet_ok(p@),
        r is Some ==> r.unwrap() == crate::text::dec_value(p@) && r.unwrap() <= 255,
{
    let len = p.unicode_len();
    if len == 0 || len > 3 {
        return None;
    }
    if len > 1 && p.get_char(0) == '0' {
        return None;
    }
    let mut acc: u32 = 0;
    let mut i: usize = 0;
    while i < len
        invariant
            i <= len <= 3,
            len == p@.len(),
            forall|m: int| 0 <= m < i ==> crate::text::is_digit(p@[m]),
            acc == crate::text::dec_value(p@.take(i as int)),
            i == 0 ==> acc == 0,
            i == 1 ==> acc <= 9,
            i == 2 ==> acc <= 99,
            i == 3 ==> acc <= 999,
        decreases len - i,
    {
        match crate::text::digit_of(p.get_char(i)) {
            None => {
                proof {
                    assert(!crate::text::digits_only(p@));
                }
                return None;
            },
            Some(d) => {
                proof {
                    crate::text::lemma_dec_value_step(p@, i as int);
                }
                acc = acc * 10 + d;
            },
        }
        i = i + 1;
    }
    proof {
        assert(p@.take(len as int) =~= p@);
    }
    if acc > 255 {
        return None;
    }
    Some(acc)
}

/// Parse a dotted-quad IPv4 address, accepting exactly what
/// `spec_parse_ipv4` accepts.
pub fn parse_ipv4_address(s: &str) -> (r: Option<u32>)
    ensures
        r == spec_parse_ipv4(s@),
{
    let parts = crate::text::split_str(s, '.');
    if parts.len() != 4 {
        return None;
    }
    let a = match parse_octet(parts[0].as_str()) {
        Some(v) => v,
        None => {
            return None;
        },
    };
    let b = match parse_octet(parts[1].as_str()) {
        Some(v) => v,
        None => {
            return None;
        },
    };
    let c = match parse_octet(parts[2].as_str()) {
        Some(v) => v,
        None => {
            return None;
        },
    };
    let d = match parse_octet(parts[3].as_str()) {
        Some(v) => v,
        None => {
            return None;
        },
    };
    Some(((a * 256 + b) * 256 + c) * 256 + d)
}

/// Whether `s` is an octet as `ipnet`'s parser reads one: one to three
/// decimal digits — leading zeros allowed, unlike the standard library's
/// address parser — valued at most 255.
pub open spec fn loose_octet_ok(s: Seq<char>) -> bool {
    1 <= s.len() <= 3 && crate::text::digits_only(s) && crate::text::dec_value(s) <= 255
}

/// Parse `s` as IPv4 CIDR notation, the way `ipnet`'s parser reads it:
/// four '.'-separated octets of one to three digits each (leading zeros
/// allowed) valued at most 255, then '/', then a prefix length of one or
/// two digits valued at most 32, and nothing before or after.
pub open spec fn spec_parse_cidr(s: Seq<char>) -> Option<Ipv4Cidr> {
    let parts = crate::text::split_on(s, '/');
    let octs = crate::text::split_on(parts[0], '.');
    if parts.len() == 2 && octs.len() == 4 && loose_octet_ok(octs[0]) && loose_octet_ok(octs[1])
        && loose_octet_ok(octs[2]) && loose_octet_ok(octs[3]) && 1 <= parts[1].len() <= 2
        && crate::text::digits_only(parts[1]) && crate::text::dec_value(parts[1]) <= 32 {
        Some(Ipv4Cidr { addr: quad_value(octs), prefix: crate::text::dec_value(parts[1]) as u8 })
    } else {
        None
    }
}

/// Whether the text is valid IPv4 CIDR notation.
pub open spec fn cidr_ok(s: Seq<char>) -> bool {
    spec_parse_cidr(s) is Some
}

/// The block that valid CIDR notation denotes.
pub open spec fn cidr_value(s: Seq<char>) -> Ipv4Cidr {
    spec_parse_cidr(s).unwrap()
}

/// Relies on `ipnet::Ipv4Net`'s `FromStr` implementation: its parser reads
/// four octets of up to three digits each kept below 256 (leading zeros
/// allowed), a '/', and a prefix of up to two digits kept below 33, commits
/// only if the whole string was consumed, and depends on the characters of
/// the input alone — exactly what `spec_parse_cidr` accepts.
#[verifier::external_body]
pub(crate) fn parse_cidr(s: &str) -> (r: Option<Ipv4Cidr>)
    ensures
        r == spec_parse_cidr(s@),
{
    match s.parse::<ipnet::Ipv4Net>() {
        Ok(n) => Some(Ipv4Cidr { addr: u32::from(n.addr()), prefix: n.prefix_len() }),
        Err(_) => None,
    }
}

} // verus!
