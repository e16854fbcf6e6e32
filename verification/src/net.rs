//! IPv6 networks as numbers: an address of 128 bits and a prefix length.
use ipnet::Ipv6Net;
use std::str::FromStr;
use vstd::prelude::*;

verus! {

#[verifier::external_type_specification]
#[verifier::external_body]
pub struct ExPrefixLenError(ipnet::PrefixLenError);

#[verifier::external_type_specification]
#[verifier::external_body]
pub struct ExAddrParseError(ipnet::AddrParseError);

/// A prefix length above 128 was given.
#[derive(Clone, Copy, Debug, PartialEq, Eq, Structural)]
pub struct InvalidPrefixLen;

/// A text is not an IPv6 network in CIDR notation.
#[derive(Clone, Copy, Debug, PartialEq, Eq, Structural)]
pub struct InvalidCidr;

impl InvalidPrefixLen {
    /// The message of the error.
    pub fn to_string(&self) -> (text: String)
        ensures
            text@ == "invalid IP prefix length"@,
    {
        "invalid IP prefix length".to_owned()
    }
}

impl InvalidCidr {
    /// The message of the error.
    pub fn to_string(&self) -> (text: String)
        ensures
            text@ == "invalid IP address syntax"@,
    {
        "invalid IP address syntax".to_owned()
    }
}

/// An IPv6 address with a prefix length. The address is kept as it was
/// given: bits beyond the prefix length are not cleared.
#[derive(Clone, Copy, Debug, PartialEq, Eq, Structural)]
pub struct V6Net {
    pub addr: u128,
    pub prefix_len: u8,
}

/// The mask whose upper `len` bits are set; every bit for 128 and above.
pub open spec fn netmask(len: u8) -> u128 {
    if len >= 128 {
        u128::MAX
    } else {
        !(u128::MAX >> len)
    }
}

/// What `ipnet` reads from a text as an IPv6 network: the address and the
/// prefix length, or nothing where the text is not one.
pub uninterp spec fn cidr_parse(text: Seq<char>) -> Option<(u128, u8)>;

/// The text that `ipnet` writes for an IPv6 network.
pub uninterp spec fn cidr_text(addr: u128, prefix_len: u8) -> Seq<char>;

/// Calls `ipnet::Ipv6Net::new`, which accepts every address and exactly the
/// prefix lengths up to 128, and keeps both as given.
#[verifier::external_body]
fn ipnet_new(addr: u128, prefix_len: u8) -> (r: Result<V6Net, ipnet::PrefixLenError>)
    ensures
        match r {
            Ok(n) => prefix_len <= 128 && n.addr == addr && n.prefix_len == prefix_len,
            Err(_) => prefix_len > 128,
        },
{
    match Ipv6Net::new(addr.into(), prefix_len) {
        Ok(n) => Ok(V6Net { addr: n.addr().into(), prefix_len: n.prefix_len() }),
        Err(e) => Err(e),
    }
}

/// Calls `ipnet`'s `FromStr` for `Ipv6Net`. The result is named by
/// `cidr_parse`; a network that was read has a prefix length of at most 128.
#[verifier::external_body]
fn ipnet_from_str(text: &str) -> (r: Result<V6Net, ipnet::AddrParseError>)
    ensures
        match r {
            Ok(n) => cidr_parse(text@) == Some((n.addr, n.prefix_len)) && n.prefix_len <= 128,
            Err(_) => cidr_parse(text@) is None,
        },
{
    match Ipv6Net::from_str(text) {
        Ok(n) => Ok(V6Net { addr: n.addr().into(), prefix_len: n.prefix_len() }),
        Err(e) => Err(e),
    }
}

/// Calls `ipnet`'s `Display` for `Ipv6Net`, on the network that
/// `Ipv6Net::new_assert` makes of the address and the length. The result is
/// named by `cidr_text`. The second clause claims that `ipnet` reads its own
/// text back as the same network: it writes the address as std writes an
/// `Ipv6Addr`, a slash and the length in decimal, and its parser reads an
/// address in every form that std writes, a slash and up to three digits.
#[verifier::external_body]
fn ipnet_to_string(net: &V6Net) -> (r: String)
    requires
        net.prefix_len <= 128,
    ensures
        r@ == cidr_text(net.addr, net.prefix_len),
        cidr_parse(r@) == Some((net.addr, net.prefix_len)),
{
    Ipv6Net::new_assert(net.addr.into(), net.prefix_len).to_string()
}

/// Computes `netmask`.
pub fn netmask_of(len: u8) -> (mask: u128)
    ensures
        mask == netmask(len),
{
    if len >= 128 {
        u128::MAX
    } else {
        !(u128::MAX >> len)
    }
}

/// The mask of the default network length is the upper half of the bits.
pub proof fn lemma_default_netmask()
    ensures
        netmask(64) == crate::IPV6_NETMASK,
{
    assert(!(u128::MAX >> 64u8) == 0xffff_ffff_ffff_ffff_0000_0000_0000_0000u128) by (bit_vector);
}

/// The network part and the host part of an address share no bit and make
/// up the address.
pub proof fn lemma_parts(net: V6Net, len: u8)
    ensures
        net.network_part(len) & net.host_part(len) == 0,
        net.network_part(len) | net.host_part(len) == net.addr,
{
    let a = net.addr;
    let m = netmask(len);
    assert((a & m) & (a & !m) == 0) by (bit_vector);
    assert((a & m) | (a & !m) == a) by (bit_vector);
}

impl V6Net {
    /// The prefix length is one that an IPv6 network can have.
    pub open spec fn wf(&self) -> bool {
        self.prefix_len <= 128
    }

    /// No bit beyond the prefix length is set.
    pub open spec fn is_network(&self) -> bool {
        self.host_part(self.prefix_len) == 0
    }

    /// The bits of the address within the first `len`.
    pub open spec fn network_part(&self, len: u8) -> u128 {
        self.addr & netmask(len)
    }

    /// The bits of the address beyond the first `len`.
    pub open spec fn host_part(&self, len: u8) -> u128 {
        self.addr & !netmask(len)
    }

    /// The network of `addr` with `prefix_len`, where the length is at most 128.
    pub fn new(addr: u128, prefix_len: u8) -> (r: Result<V6Net, InvalidPrefixLen>)
        ensures
            match r {
                Ok(net) => prefix_len <= 128 && net.addr == addr && net.prefix_len == prefix_len,
                Err(_) => prefix_len > 128,
            },
    {
        match ipnet_new(addr, prefix_len) {
            Ok(net) => Ok(net),
            Err(_) => Err(InvalidPrefixLen),
        }
    }

    /// Reads a network in CIDR notation.
    pub fn from_str(text: &str) -> (r: Result<V6Net, InvalidCidr>)
        ensures
            match r {
                Ok(net) => cidr_parse(text@) == Some((net.addr, net.prefix_len)) && net.wf(),
                Err(_) => cidr_parse(text@) is None,
            },
    {
        match ipnet_from_str(text) {
            Ok(net) => Ok(net),
            Err(_) => Err(InvalidCidr),
        }
    }

    /// Writes the network in CIDR notation. Reading the text gives the
    /// network back.
    pub fn to_string(&self) -> (text: String)
        requires
            self.wf(),
        ensures
            text@ == cidr_text(self.addr, self.prefix_len),
            cidr_parse(text@) == Some((self.addr, self.prefix_len)),
    {
        ipnet_to_string(self)
    }
}

} // verus!
