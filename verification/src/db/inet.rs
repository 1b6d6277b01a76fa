//! Internet addresses and networks, and the containment of one in another.
use vstd::prelude::*;
use vstd::arithmetic::div_mod::{lemma_div_multiples_vanish_fancy, lemma_fundamental_div_mod};
use vstd::arithmetic::power2::{lemma_pow2_pos, pow2};
use vstd::bits::lemma_u128_shr_is_div;
use vstd::string::StringExecFns;
use crate::text::{decimal, hex_digits, push_decimal, push_hex};

verus! {

/// An address with the length of its network prefix, of either family. A
/// host is a network whose prefix takes all the bits of its family. The
/// address of the older family lies in the low 32 bits.
#[derive(Debug, Clone, Copy, PartialEq, Eq, Structural)]
pub struct Inet {
    pub v6: bool,
    pub bits: u128,
    pub prefix: u8,
}

impl Inet {
    /// The number of bits of an address of this family.
    pub open spec fn width(self) -> nat {
        if self.v6 {
            128
        } else {
            32
        }
    }

    /// The prefix is no longer than an address, and the address has no bit
    /// beyond its family's width.
    pub open spec fn valid(self) -> bool {
        &&& self.prefix <= self.width()
        &&& !self.v6 ==> self.bits < 0x1_0000_0000
    }

    /// The number of addresses in the network.
    pub open spec fn block_size(self) -> nat {
        pow2((self.width() - self.prefix) as nat)
    }

    /// The network part of the address: what its first `prefix` bits say.
    pub open spec fn network(self) -> nat {
        self.bits as nat / self.block_size()
    }

    /// The first address of the network.
    pub open spec fn block_start(self) -> nat {
        self.network() * self.block_size()
    }

    /// `other` begins with the network part of `self`.
    pub open spec fn shares_network(self, other: Inet) -> bool {
        &&& self.valid()
        &&& other.valid()
        &&& self.v6 == other.v6
        &&& other.bits as nat / self.block_size() == self.network()
    }

    /// `other` lies in the network `self` or is that network.
    pub open spec fn spec_contains_or_equals(self, other: Inet) -> bool {
        self.shares_network(other) && self.prefix <= other.prefix
    }

    /// `other` lies in the network `self` and is smaller than it.
    pub open spec fn spec_contains(self, other: Inet) -> bool {
        self.shares_network(other) && self.prefix < other.prefix
    }

    /// Whether the address is well formed.
    pub fn is_valid(&self) -> (r: bool)
        ensures
            r == self.valid(),
    {
        if self.v6 {
            self.prefix <= 128
        } else {
            self.prefix <= 32 && self.bits < 0x1_0000_0000
        }
    }

    /// Whether `other` begins with the network part of `self`.
    fn same_network(&self, other: &Inet) -> (r: bool)
        ensures
            r == self.shares_network(*other),
    {
        if !self.is_valid() || !other.is_valid() || self.v6 != other.v6 {
            return false;
        }
        let width: u8 = if self.v6 {
            128
        } else {
            32
        };
        let host_bits: u8 = width - self.prefix;
        if host_bits >= 128 {
            proof {
                vstd::arithmetic::power2::lemma2_to64_rest();
                assert(pow2(128) == 0x1_0000_0000_0000_0000_0000_0000_0000_0000) by {
                    vstd::arithmetic::power2::lemma_pow2_adds(64, 64);
                }
                vstd::arithmetic::div_mod::lemma_basic_div(self.bits as int, pow2(128) as int);
                vstd::arithmetic::div_mod::lemma_basic_div(other.bits as int, pow2(128) as int);
            }
            return true;
        }
        proof {
            lemma_u128_shr_is_div(self.bits, host_bits as u128);
            lemma_u128_shr_is_div(other.bits, host_bits as u128);
        }
        (self.bits >> (host_bits as u128)) == (other.bits >> (host_bits as u128))
    }

    /// Whether `other` lies in the network `self` or is that network.
    #[verifier::when_used_as_spec(spec_contains_or_equals)]
    pub fn contains_or_equals(self, other: Inet) -> (r: bool)
        ensures
            r == self.spec_contains_or_equals(other),
    {
        self.same_network(&other) && self.prefix <= other.prefix
    }

    /// Whether `other` lies in the network `self` and is smaller than it.
    #[verifier::when_used_as_spec(spec_contains)]
    pub fn contains(self, other: Inet) -> (r: bool)
        ensures
            r == self.spec_contains(other),
    {
        self.same_network(&other) && self.prefix < other.prefix
    }

    /// The host with the given address of the older family.
    pub fn host_v4(a: u8, b: u8, c: u8, d: u8) -> (r: Inet)
        ensures
            r == Inet::net_v4(a, b, c, d, 32),
    {
        Inet::net_v4(a, b, c, d, 32)
    }

    /// The network of the older family with the given address and prefix.
    pub open spec fn spec_net_v4(a: u8, b: u8, c: u8, d: u8, prefix: u8) -> Inet {
        Inet {
            v6: false,
            bits: (a as u128 * 0x100_0000 + b as u128 * 0x1_0000 + c as u128 * 0x100
                + d as u128) as u128,
            prefix,
        }
    }

    #[verifier::when_used_as_spec(spec_net_v4)]
    pub fn net_v4(a: u8, b: u8, c: u8, d: u8, prefix: u8) -> (r: Inet)
        ensures
            r == Inet::spec_net_v4(a, b, c, d, prefix),
            prefix <= 32 ==> r.valid(),
    {
        Inet {
            v6: false,
            bits: a as u128 * 0x100_0000 + b as u128 * 0x1_0000 + c as u128 * 0x100 + d as u128,
            prefix,
        }
    }
}

/// The byte `i` of an address of the older family, counted from the left.
pub open spec fn octet(bits: u128, i: nat) -> u64 {
    ((bits >> ((8 * (3 - i)) as u128)) & 0xff) as u64
}

/// The group `i` of sixteen bits of an address of the newer family, counted
/// from the left.
pub open spec fn hextet(bits: u128, i: nat) -> u64 {
    ((bits >> ((16 * (7 - i)) as u128)) & 0xffff) as u64
}

/// The text of an address: the four bytes in decimal with dots between them,
/// or the eight groups in hexadecimal with colons between them, none left
/// out.
pub open spec fn address_text(v6: bool, bits: u128) -> Seq<char> {
    if v6 {
        hex_digits(hextet(bits, 0) as nat) + seq![':'] + hex_digits(hextet(bits, 1) as nat) + seq![':']
            + hex_digits(hextet(bits, 2) as nat) + seq![':'] + hex_digits(hextet(bits, 3) as nat)
            + seq![':'] + hex_digits(hextet(bits, 4) as nat) + seq![':'] + hex_digits(
            hextet(bits, 5) as nat,
        ) + seq![':'] + hex_digits(hextet(bits, 6) as nat) + seq![':'] + hex_digits(
            hextet(bits, 7) as nat,
        )
    } else {
        decimal(octet(bits, 0) as int) + seq!['.'] + decimal(octet(bits, 1) as int) + seq!['.']
            + decimal(octet(bits, 2) as int) + seq!['.'] + decimal(octet(bits, 3) as int)
    }
}

/// The short text of a network: its address, and the length of its prefix
/// after a slash unless it is a host.
pub open spec fn abbreviated(net: Inet) -> Seq<char> {
    if net.prefix == net.width() {
        address_text(net.v6, net.bits)
    } else {
        address_text(net.v6, net.bits) + seq!['/'] + decimal(net.prefix as int)
    }
}

impl Inet {
    /// The short text of the network: a host is shown without the length of
    /// its prefix.
    pub fn abbrev(&self) -> (r: String)
        ensures
            r@ == abbreviated(*self),
    {
        proof {
            reveal_strlit(":");
            reveal_strlit(".");
            reveal_strlit("/");
            assert(":"@ =~= seq![':']);
            assert("."@ =~= seq!['.']);
            assert("/"@ =~= seq!['/']);
        }
        let mut out = String::new();
        let bits = self.bits;
        if self.v6 {
            push_hex(&mut out, ((bits >> 112u128) & 0xffff) as u64);
            out.append(":");
            push_hex(&mut out, ((bits >> 96u128) & 0xffff) as u64);
            out.append(":");
            push_hex(&mut out, ((bits >> 80u128) & 0xffff) as u64);
            out.append(":");
            push_hex(&mut out, ((bits >> 64u128) & 0xffff) as u64);
            out.append(":");
            push_hex(&mut out, ((bits >> 48u128) & 0xffff) as u64);
            out.append(":");
            push_hex(&mut out, ((bits >> 32u128) & 0xffff) as u64);
            out.append(":");
            push_hex(&mut out, ((bits >> 16u128) & 0xffff) as u64);
            out.append(":");
            push_hex(&mut out, ((bits >> 0u128) & 0xffff) as u64);
        } else {
            let a = ((bits >> 24u128) & 0xff) as u64;
            let b = ((bits >> 16u128) & 0xff) as u64;
            let c = ((bits >> 8u128) & 0xff) as u64;
            let d = ((bits >> 0u128) & 0xff) as u64;
            assert(a <= 0xff && b <= 0xff && c <= 0xff && d <= 0xff) by (bit_vector)
                requires
                    a == ((bits >> 24u128) & 0xff) as u64,
                    b == ((bits >> 16u128) & 0xff) as u64,
                    c == ((bits >> 8u128) & 0xff) as u64,
                    d == ((bits >> 0u128) & 0xff) as u64,
            ;
            push_decimal(&mut out, a as i64);
            out.append(".");
            push_decimal(&mut out, b as i64);
            out.append(".");
            push_decimal(&mut out, c as i64);
            out.append(".");
            push_decimal(&mut out, d as i64);
        }
        assert(out@ =~= address_text(self.v6, self.bits));
        let width: u8 = if self.v6 {
            128
        } else {
            32
        };
        if self.prefix != width {
            out.append("/");
            push_decimal(&mut out, self.prefix as i64);
        }
        out
    }
}

/// A network holds a host exactly if the host's address lies in the block of
/// addresses that begins at the network's first address and has the
/// network's size.
pub proof fn lemma_network_is_a_block(net: Inet, host: Inet)
    requires
        net.valid(),
        host.valid(),
        net.v6 == host.v6,
        host.prefix == host.width(),
    ensures
        net.spec_contains_or_equals(host) <==> net.block_start() <= host.bits < net.block_start()
            + net.block_size(),
{
    let size = net.block_size() as int;
    lemma_pow2_pos((net.width() - net.prefix) as nat);
    let n = net.network() as int;
    let a = host.bits as int;
    lemma_fundamental_div_mod(a, size);
    lemma_fundamental_div_mod(net.bits as int, size);
    if n * size <= a < n * size + size {
        lemma_div_multiples_vanish_fancy(n, a - n * size, size);
        assert(size * n + (a - n * size) == a);
    }
    if a / size == n {
        assert(size * n == n * size) by (nonlinear_arith);
    }
}

} // verus!
