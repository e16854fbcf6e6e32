//! The prefix of a named network interface: of the addresses that the
//! interface carries, the last global IPv6 address, cut to the network length.
use crate::net::{netmask, netmask_of, V6Net};
use crate::prefix::SourceError;
use vstd::prelude::*;

verus! {

/// One address of an interface.
#[derive(Clone, Copy, Debug, PartialEq, Eq, Structural)]
pub enum Addr {
    V4(u32),
    V6(u128),
}

/// One interface as the system lists it: its name and the addresses on it.
#[derive(Debug)]
pub struct Interface {
    pub name: String,
    pub addr: Vec<Addr>,
}

/// Why an interface gave no prefix.
#[derive(Debug)]
pub enum IfaceError {
    /// No interface of this name is listed.
    NotFound(String),
    /// The interface of this name has no global IPv6 address.
    NoIpv6Prefix(String),
    /// The interfaces could not be listed, with the cause.
    LookupError(String),
}

/// The message for an interface that is not listed.
pub open spec fn not_found_text(name: Seq<char>) -> Seq<char> {
    "Interface `"@ + name + "` could not be found"@
}

/// The message for an interface without a global IPv6 address.
pub open spec fn no_prefix_text(name: Seq<char>) -> Seq<char> {
    "Interface `"@ + name + "` does not have a suitable IPv6 address assigned"@
}

/// The message for a listing that failed with `cause`.
pub open spec fn lookup_text(cause: Seq<char>) -> Seq<char> {
    "Error while looking up interfaces: `"@ + cause + "`"@
}

impl View for IfaceError {
    type V = Seq<char>;

    /// The message of the error.
    open spec fn view(&self) -> Seq<char> {
        match self {
            IfaceError::NotFound(name) => not_found_text(name@),
            IfaceError::NoIpv6Prefix(name) => no_prefix_text(name@),
            IfaceError::LookupError(cause) => lookup_text(cause@),
        }
    }
}

impl IfaceError {
    /// The message of the error.
    pub fn to_string(&self) -> (text: String)
        ensures
            text@ == self@,
    {
        match self {
            IfaceError::NotFound(name) => String::from_str("Interface `").concat(
                name.as_str(),
            ).concat("` could not be found"),
            IfaceError::NoIpv6Prefix(name) => String::from_str("Interface `").concat(
                name.as_str(),
            ).concat("` does not have a suitable IPv6 address assigned"),
            IfaceError::LookupError(cause) => String::from_str(
                "Error while looking up interfaces: `",
            ).concat(cause.as_str()).concat("`"),
        }
    }
}

/// Whether an address is globally routable, as `ip_rfc` judges it: a
/// multicast address where its scope is global; any other address unless it
/// is the loopback or the unspecified address, link-local, unique local or
/// reserved for documentation.
pub open spec fn is_global_v6(addr: u128) -> bool {
    let first = addr >> 112;
    let second = (addr >> 96) & 0xffff;
    if first & 0xff00 == 0xff00 {
        first & 0x000f == 14
    } else {
        &&& addr != 1
        &&& first & 0xffc0 != 0xfe80
        &&& first & 0xfe00 != 0xfc00
        &&& addr != 0
        &&& !(first == 0x2001 && second == 0x0db8)
    }
}

/// Calls `ip_rfc::global_v6` on the address with this number. That function
/// looks at the first 16 bits for multicast and its scope, for link-local
/// (fe80::/10) and for unique local (fc00::/7), at the first 32 bits for
/// documentation (2001:db8::/32), and at the whole address for `::` and
/// `::1`: the contract claims that its answer is `is_global_v6`.
#[verifier::external_body]
fn global_v6(addr: u128) -> (r: bool)
    ensures
        r == is_global_v6(addr),
{
    ip_rfc::global_v6(&addr.into())
}

/// The last global IPv6 address among `addrs`, if there is one.
pub open spec fn last_global(addrs: Seq<Addr>) -> Option<u128>
    decreases addrs.len(),
{
    if addrs.len() == 0 {
        None
    } else {
        match addrs.last() {
            Addr::V6(ip) if is_global_v6(ip) => Some(ip),
            _ => last_global(addrs.drop_last()),
        }
    }
}

/// How many of `addrs` are global IPv6 addresses.
pub open spec fn global_count(addrs: Seq<Addr>) -> nat
    decreases addrs.len(),
{
    if addrs.len() == 0 {
        0
    } else {
        global_count(addrs.drop_last()) + match addrs.last() {
            Addr::V6(ip) if is_global_v6(ip) => 1nat,
            _ => 0nat,
        }
    }
}

/// Counts the global IPv6 addresses among `addrs`. The prefix is taken from
/// the last of them; with more than one, the others are passed over.
pub fn count_global(addrs: &[Addr]) -> (n: usize)
    ensures
        n == global_count(addrs@),
{
    let mut n: usize = 0;
    let mut i: usize = 0;
    while i < addrs.len()
        invariant
            i <= addrs.len(),
            n <= i,
            n == global_count(addrs@.take(i as int)),
        decreases addrs.len() - i,
    {
        proof {
            assert(addrs@.take(i + 1).drop_last() == addrs@.take(i as int));
        }
        match addrs[i] {
            Addr::V4(_) => {},
            Addr::V6(ip) => {
                if global_v6(ip) {
                    n += 1;
                }
            },
        }
        i += 1;
    }
    proof {
        assert(addrs@.take(i as int) == addrs@);
    }
    n
}

/// An address is found exactly where one is counted.
pub proof fn lemma_count_and_last(addrs: Seq<Addr>)
    ensures
        last_global(addrs) is Some <==> global_count(addrs) > 0,
    decreases addrs.len(),
{
    if addrs.len() > 0 {
        lemma_count_and_last(addrs.drop_last());
    }
}

/// The address that `last_global` gives is a global IPv6 address among
/// `addrs` with no global IPv6 address behind it; it gives none only where no
/// address is one.
pub proof fn lemma_last_global(addrs: Seq<Addr>)
    ensures
        match last_global(addrs) {
            Some(ip) => is_global_v6(ip) && exists|i: int|
                0 <= i < addrs.len() && #[trigger] addrs[i] == Addr::V6(ip) && forall|j: int|
                    i < j < addrs.len() ==> !((#[trigger] addrs[j]) matches Addr::V6(other)
                        && is_global_v6(other)),
            None => forall|j: int|
                0 <= j < addrs.len() ==> !((#[trigger] addrs[j]) matches Addr::V6(other)
                    && is_global_v6(other)),
        },
    decreases addrs.len(),
{
    if addrs.len() > 0 {
        let front = addrs.drop_last();
        lemma_last_global(front);
        if addrs.last() matches Addr::V6(ip) && is_global_v6(ip) {
            assert(addrs[addrs.len() - 1] == addrs.last());
        } else {
            match last_global(front) {
                Some(ip) => {
                    let i = choose|i: int|
                        0 <= i < front.len() && #[trigger] front[i] == Addr::V6(ip) && forall|
                            j: int,
                        |
                            i < j < front.len() ==> !((#[trigger] front[j]) matches Addr::V6(other)
                                && is_global_v6(other));
                    assert(addrs[i] == Addr::V6(ip));
                    assert forall|j: int| i < j < addrs.len() implies !((
                    #[trigger] addrs[j]) matches Addr::V6(other) && is_global_v6(other)) by {
                        if j < front.len() {
                            assert(addrs[j] == front[j]);
                        }
                    }
                },
                None => {
                    assert forall|j: int| 0 <= j < addrs.len() implies !((
                    #[trigger] addrs[j]) matches Addr::V6(other) && is_global_v6(other)) by {
                        if j < front.len() {
                            assert(addrs[j] == front[j]);
                        }
                    }
                },
            }
        }
    }
}

/// Whether an interface called `name` is among `interfaces`.
pub open spec fn is_listed(interfaces: Seq<Interface>, name: Seq<char>) -> bool {
    exists|i: int| 0 <= i < interfaces.len() && (#[trigger] interfaces[i]).name@ == name
}

/// The addresses of the interfaces called `name`, in the order listed.
pub open spec fn addrs_of(interfaces: Seq<Interface>, name: Seq<char>) -> Seq<Addr>
    decreases interfaces.len(),
{
    if interfaces.len() == 0 {
        Seq::empty()
    } else if interfaces.last().name@ == name {
        addrs_of(interfaces.drop_last(), name) + interfaces.last().addr@
    } else {
        addrs_of(interfaces.drop_last(), name)
    }
}

/// An interface that is not listed has no addresses.
proof fn lemma_unlisted_has_no_addrs(interfaces: Seq<Interface>, name: Seq<char>)
    requires
        !is_listed(interfaces, name),
    ensures
        addrs_of(interfaces, name) == Seq::<Addr>::empty(),
    decreases interfaces.len(),
{
    if interfaces.len() > 0 {
        let front = interfaces.drop_last();
        assert(interfaces[interfaces.len() - 1] == interfaces.last());
        if is_listed(front, name) {
            let k = choose|k: int| 0 <= k < front.len() && (#[trigger] front[k]).name@ == name;
            assert(interfaces[k].name@ == name);
        }
        lemma_unlisted_has_no_addrs(front, name);
    }
}

/// The source of the prefix of one interface: the name of the interface, and
/// the length to which its address is cut.
pub struct IfaceSource {
    iface_name: String,
    network_length: u8,
}

impl IfaceSource {
    /// The name of the interface.
    pub closed spec fn name(&self) -> Seq<char> {
        self.iface_name@
    }

    /// The network length.
    pub closed spec fn length(&self) -> u8 {
        self.network_length
    }

    /// The prefix that the source gives for `addrs`: the last global IPv6
    /// address, cut to the network length. None where no address is global
    /// or the network length is above 128.
    pub open spec fn prefix_of(&self, addrs: Seq<Addr>) -> Option<V6Net> {
        match last_global(addrs) {
            Some(ip) if self.length() <= 128 => Some(
                V6Net { addr: ip & netmask(self.length()), prefix_len: self.length() },
            ),
            _ => None,
        }
    }

    /// A source for the interface `iface_name`, with nothing looked up.
    pub fn test_new(iface_name: String, network_length: u8) -> (source: IfaceSource)
        ensures
            source.name() == iface_name@,
            source.length() == network_length,
    {
        IfaceSource { iface_name, network_length }
    }

    /// A source for the interface `iface_name`, given what a listing of the
    /// system's interfaces returned: the interfaces, or the cause of the
    /// failure. The source is made where the interface is listed, whether or
    /// not it has a prefix now; the prefix found, if any, comes with it.
    pub fn try_new(
        iface_name: String,
        network_length: u8,
        interfaces: Result<Vec<Interface>, String>,
    ) -> (r: Result<(IfaceSource, Option<V6Net>), IfaceError>)
        ensures
            match r {
                Ok((source, probe)) => {
                    &&& source.name() == iface_name@
                    &&& source.length() == network_length
                    &&& interfaces matches Ok(list)
                    &&& is_listed(list@, iface_name@)
                    &&& probe == source.prefix_of(addrs_of(list@, iface_name@))
                },
                Err(IfaceError::LookupError(cause)) => interfaces == Err::<Vec<Interface>, String>(
                    cause,
                ),
                Err(IfaceError::NotFound(name)) => {
                    &&& interfaces matches Ok(list)
                    &&& !is_listed(list@, iface_name@)
                    &&& name@ == iface_name@
                },
                Err(IfaceError::NoIpv6Prefix(_)) => false,
            },
    {
        let source = IfaceSource { iface_name, network_length };
        match source.addrs(interfaces) {
            Err(e) => Err(e),
            Ok(addrs) => {
                let probe = source.find_v6_net(addrs.as_slice());
                Ok((source, probe))
            },
        }
    }

    /// The addresses of the interface, given what a listing of the system's
    /// interfaces returned.
    pub fn addrs(&self, interfaces: Result<Vec<Interface>, String>) -> (r: Result<
        Vec<Addr>,
        IfaceError,
    >)
        ensures
            match r {
                Ok(addrs) => {
                    &&& interfaces matches Ok(list)
                    &&& is_listed(list@, self.name())
                    &&& addrs@ == addrs_of(list@, self.name())
                },
                Err(IfaceError::LookupError(cause)) => interfaces == Err::<Vec<Interface>, String>(
                    cause,
                ),
                Err(IfaceError::NotFound(name)) => {
                    &&& interfaces matches Ok(list)
                    &&& !is_listed(list@, self.name())
                    &&& name@ == self.name()
                },
                Err(IfaceError::NoIpv6Prefix(_)) => false,
            },
    {
        let list = match interfaces {
            Ok(list) => list,
            Err(cause) => {
                return Err(IfaceError::LookupError(cause));
            },
        };
        match self.listed_addrs(&list) {
            Some(addrs) => Ok(addrs),
            None => Err(IfaceError::NotFound(self.iface_name.clone())),
        }
    }

    /// The addresses of the interface among `list`; none where the interface
    /// is not listed.
    fn listed_addrs(&self, list: &Vec<Interface>) -> (r: Option<Vec<Addr>>)
        ensures
            match r {
                Some(addrs) => is_listed(list@, self.name()) && addrs@ == addrs_of(
                    list@,
                    self.name(),
                ),
                None => !is_listed(list@, self.name()),
            },
    {
        let mut addrs: Vec<Addr> = Vec::new();
        let mut listed = false;
        let mut i: usize = 0;
        while i < list.len()
            invariant
                i <= list.len(),
                listed == is_listed(list@.take(i as int), self.name()),
                addrs@ == addrs_of(list@.take(i as int), self.name()),
            decreases list.len() - i,
        {
            proof {
                let before = list@.take(i as int);
                let after = list@.take(i + 1);
                assert(after.drop_last() == before);
                assert(after.last() == list@[i as int]);
                if is_listed(before, self.name()) {
                    let k = choose|k: int|
                        0 <= k < before.len() && (#[trigger] before[k]).name@ == self.name();
                    assert(after[k].name@ == self.name());
                }
                if is_listed(after, self.name()) && list@[i as int].name@ != self.name() {
                    let k = choose|k: int|
                        0 <= k < after.len() && (#[trigger] after[k]).name@ == self.name();
                    assert(before[k].name@ == self.name());
                }
            }
            if list[i].name == self.iface_name {
                listed = true;
                let mut j: usize = 0;
                while j < list[i].addr.len()
                    invariant
                        i < list.len(),
                        j <= list[i as int].addr.len(),
                        addrs@ == addrs_of(list@.take(i as int), self.name())
                            + list[i as int].addr@.take(j as int),
                    decreases list[i as int].addr.len() - j,
                {
                    addrs.push(list[i].addr[j]);
                    proof {
                        assert(list[i as int].addr@.take(j + 1) == list[i as int].addr@.take(
                            j as int,
                        ).push(list[i as int].addr@[j as int]));
                    }
                    j += 1;
                }
                proof {
                    assert(list[i as int].addr@.take(j as int) == list[i as int].addr@);
                    assert(list@.take(i + 1)[i as int].name@ == self.name());
                }
            }
            i += 1;
        }
        proof {
            assert(list@.take(i as int) == list@);
        }
        if listed {
            Some(addrs)
        } else {
            None
        }
    }

    /// How many global IPv6 addresses the interface has among `list`. With
    /// more than one, the prefix is that of the last, and the choice is worth
    /// a warning.
    pub fn candidates(&self, list: &Vec<Interface>) -> (n: usize)
        ensures
            n == global_count(addrs_of(list@, self.name())),
    {
        match self.listed_addrs(list) {
            Some(addrs) => count_global(addrs.as_slice()),
            None => {
                proof {
                    lemma_unlisted_has_no_addrs(list@, self.name());
                }
                0
            },
        }
    }

    /// The current prefix of the interface, given what a listing of the
    /// system's interfaces returned.
    pub fn v6_network(&self, interfaces: Result<Vec<Interface>, String>) -> (r: Result<
        V6Net,
        SourceError,
    >)
        ensures
            match interfaces {
                Err(cause) => r matches Err(e) && e@ == lookup_text(cause@),
                Ok(list) => if !is_listed(list@, self.name()) {
                    r matches Err(e) && e@ == not_found_text(self.name())
                } else {
                    match self.prefix_of(addrs_of(list@, self.name())) {
                        Some(net) => r matches Ok(n) && n == net,
                        None => r matches Err(e) && e@ == no_prefix_text(self.name()),
                    }
                },
            },
    {
        let addrs = match self.addrs(interfaces) {
            Ok(addrs) => addrs,
            Err(e) => {
                return Err(SourceError::from(e));
            },
        };
        match self.find_v6_net(addrs.as_slice()) {
            Some(net) => Ok(net),
            None => Err(SourceError::from(IfaceError::NoIpv6Prefix(self.iface_name.clone()))),
        }
    }

    /// The prefix among the addresses of the interface.
    pub fn find_v6_net(&self, addrs: &[Addr]) -> (net: Option<V6Net>)
        ensures
            net == self.prefix_of(addrs@),
            net matches Some(n) ==> n.wf() && n.is_network(),
    {
        let mut found: Option<u128> = None;
        let mut i: usize = 0;
        while i < addrs.len()
            invariant
                i <= addrs.len(),
                found == last_global(addrs@.take(i as int)),
            decreases addrs.len() - i,
        {
            proof {
                assert(addrs@.take(i + 1).drop_last() == addrs@.take(i as int));
            }
            match addrs[i] {
                Addr::V4(_) => {},
                Addr::V6(ip) => {
                    if global_v6(ip) {
                        found = Some(ip);
                    }
                },
            }
            i += 1;
        }
        proof {
            assert(addrs@.take(i as int) == addrs@);
        }
        match found {
            None => None,
            Some(ip) => {
                proof {
                    let m = netmask(self.network_length);
                    assert((ip & m) & !m == 0) by (bit_vector);
                }
                match V6Net::new(ip & netmask_of(self.network_length), self.network_length) {
                    Ok(net) => Some(net),
                    Err(_) => None,
                }
            },
        }
    }
}

} // verus!
