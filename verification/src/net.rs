//! Internet addresses and networks, and how they are written.
use vstd::prelude::*;

use crate::text::integer_text;

verus! {

/// An internet address, as a number.
#[derive(Debug, Clone, Copy, PartialEq, Eq, PartialOrd, Ord, Hash, Structural)]
pub enum IpAddr {
    V4(u32),
    V6(u128),
}

/// What `core::net::IpAddr` reads from a text, or what it says is wrong with the text.
pub uninterp spec fn addr_parsed(s: Seq<char>) -> Result<IpAddr, Seq<char>>;

/// How `core::net::IpAddr` writes an address.
pub uninterp spec fn addr_text(addr: IpAddr) -> Seq<char>;

/// What `ipnetwork::IpNetwork` reads from a text: an address and the length of the prefix.
pub uninterp spec fn network_parsed(s: Seq<char>) -> Option<(IpAddr, u8)>;

/// Whether `core::net::IpAddr` reads this address from the text.
pub open spec fn addr_reads_as(s: Seq<char>, addr: IpAddr) -> bool {
    addr_parsed(s) == Ok::<IpAddr, Seq<char>>(addr)
}

/// `core::net::IpAddr::from_str`: the outcome is a function of the text.
#[verifier::external_body]
fn parse_addr(s: &str) -> (r: Result<IpAddr, String>)
    ensures
        match r {
            Ok(addr) => addr_reads_as(s@, addr),
            Err(e) => addr_parsed(s@) matches Err(t) && t == e@,
        },
{
    match s.parse::<core::net::IpAddr>() {
        Ok(core::net::IpAddr::V4(a)) => Ok(IpAddr::V4(u32::from(a))),
        Ok(core::net::IpAddr::V6(a)) => Ok(IpAddr::V6(u128::from(a))),
        Err(e) => Err(e.to_string()),
    }
}

/// `core::net::IpAddr` displayed: the text is a function of the address, and
/// `core::net::IpAddr::from_str` reads it back.
#[verifier::external_body]
fn display_addr(addr: IpAddr) -> (r: String)
    ensures
        r@ == addr_text(addr),
        addr_reads_as(r@, addr),
{
    match addr {
        IpAddr::V4(a) => core::net::Ipv4Addr::from(a).to_string(),
        IpAddr::V6(a) => core::net::Ipv6Addr::from(a).to_string(),
    }
}

/// `ipnetwork::IpNetwork::from_str`: the outcome is a function of the text, and a prefix is no
/// longer than its address.
#[verifier::external_body]
fn parse_network(s: &str) -> (r: Option<(IpAddr, u8)>)
    ensures
        r == network_parsed(s@),
        r matches Some((addr, prefix)) ==> prefix <= addr.width(),
{
    match s.parse::<ipnetwork::IpNetwork>() {
        Ok(ipnetwork::IpNetwork::V4(n)) => Some((IpAddr::V4(u32::from(n.ip())), n.prefix())),
        Ok(ipnetwork::IpNetwork::V6(n)) => Some((IpAddr::V6(u128::from(n.ip())), n.prefix())),
        Err(_) => None,
    }
}

/// `ipnetwork::IpNetwork` displayed: the address as `core::net::IpAddr` writes it, a slash and
/// the length of the prefix. `ipnetwork::IpNetwork::from_str` reads it back.
#[verifier::external_body]
fn display_network(addr: IpAddr, prefix: u8) -> (r: String)
    requires
        prefix <= addr.width(),
    ensures
        r@ == network_text(addr, prefix),
        network_parsed(r@) == Some((addr, prefix)),
{
    let addr = match addr {
        IpAddr::V4(a) => core::net::IpAddr::V4(core::net::Ipv4Addr::from(a)),
        IpAddr::V6(a) => core::net::IpAddr::V6(core::net::Ipv6Addr::from(a)),
    };
    ipnetwork::IpNetwork::new(addr, prefix).unwrap().to_string()
}

pub open spec fn network_text(addr: IpAddr, prefix: u8) -> Seq<char> {
    addr_text(addr) + "/"@ + integer_text(prefix as int)
}

impl IpAddr {
    /// Bits in an address of this family.
    pub open spec fn width(self) -> int {
        match self {
            IpAddr::V4(_) => 32,
            IpAddr::V6(_) => 128,
        }
    }

    pub open spec fn reads_back(self) -> bool {
        addr_parsed(addr_text(self)) == Ok::<IpAddr, Seq<char>>(self)
    }

    /// Reads an address; the error says what is wrong with the text.
    pub fn from_str(s: &str) -> (r: Result<IpAddr, String>)
        ensures
            match r {
                Ok(addr) => addr_parsed(s@) == Ok::<IpAddr, Seq<char>>(addr),
                Err(e) => addr_parsed(s@) == Err::<IpAddr, Seq<char>>(e@),
            },
    {
        parse_addr(s)
    }

    /// Writes the address. What is written is read back as it was.
    pub fn to_string(&self) -> (r: String)
        ensures
            r@ == addr_text(*self),
            self.reads_back(),
    {
        display_addr(*self)
    }
}

impl IpAddr {
    /// IPv4 addresses have 32 bits, and IPv6 addresses have 128.
    pub proof fn families_have_widths(a: u32, b: u128)
        ensures
            IpAddr::V4(a).width() == 32,
            IpAddr::V6(b).width() == 128,
    {
    }

    /// What reads back is read as the address, or as the address and the prefix, that was written.
    pub proof fn written_is_read(self, prefix: u8)
        ensures
            self.reads_back() <==> addr_reads_as(addr_text(self), self),
            IpNetwork::reads_back(self, prefix) <==> network_parsed(
                addr_text(self) + "/"@ + integer_text(prefix as int),
            ) == Some((self, prefix)),
    {
    }
}

/// A prefix is longer than the address it belongs to.
#[derive(Debug, Clone, Copy, PartialEq, Eq, Structural)]
pub struct InvalidPrefix;

impl InvalidPrefix {
    /// Describes the error.
    pub fn to_string(&self) -> (r: String)
        ensures
            r@ == "invalid prefix"@,
    {
        "invalid prefix".to_owned()
    }
}

/// A network: an address and the length of its prefix. Bits behind the prefix are kept.
#[derive(Debug, Clone, Copy, PartialEq, Eq, PartialOrd, Ord, Hash, Structural)]
pub struct IpNetwork {
    addr: IpAddr,
    prefix: u8,
}

impl View for IpNetwork {
    type V = (IpAddr, u8);

    closed spec fn view(&self) -> (IpAddr, u8) {
        (self.addr, self.prefix)
    }
}

impl IpNetwork {
    #[verifier::type_invariant]
    spec fn valid(self) -> bool {
        self.prefix <= self.addr.width()
    }

    pub open spec fn reads_back(addr: IpAddr, prefix: u8) -> bool {
        network_parsed(network_text(addr, prefix)) == Some((addr, prefix))
    }

    /// The network, where the prefix is no longer than the address.
    pub fn new(addr: IpAddr, prefix: u8) -> (r: Result<IpNetwork, InvalidPrefix>)
        ensures
            match r {
                Ok(n) => n@ == (addr, prefix) && prefix <= addr.width(),
                Err(_) => prefix > addr.width(),
            },
    {
        let width: u8 = match addr {
            IpAddr::V4(_) => 32,
            IpAddr::V6(_) => 128,
        };
        if prefix <= width {
            Ok(IpNetwork { addr, prefix })
        } else {
            Err(InvalidPrefix)
        }
    }

    pub fn ip(&self) -> (r: IpAddr)
        ensures
            r == self@.0,
    {
        self.addr
    }

    pub fn prefix(&self) -> (r: u8)
        ensures
            r == self@.1,
            r <= self@.0.width(),
    {
        proof {
            use_type_invariant(self);
        }
        self.prefix
    }

    /// Reads a network.
    pub fn from_str(s: &str) -> (r: Option<IpNetwork>)
        ensures
            match r {
                Some(n) => network_parsed(s@) == Some(n@),
                None => network_parsed(s@) == None::<(IpAddr, u8)>,
            },
    {
        match parse_network(s) {
            Some((addr, prefix)) => Some(IpNetwork { addr, prefix }),
            None => None,
        }
    }

    /// Writes the network. What is written is read back as it was.
    pub fn to_string(&self) -> (r: String)
        ensures
            r@ == network_text(self@.0, self@.1),
            IpNetwork::reads_back(self@.0, self@.1),
    {
        proof {
            use_type_invariant(self);
        }
        display_network(self.addr, self.prefix)
    }
}

} // verus!
