//! Keeps one range of an address pool in step with the IPv6 prefix that a
//! network interface currently carries.
//!
//! The crate holds the rules only: address arithmetic, the choice of the
//! prefix among an interface's addresses, the rewriting of a pool's address
//! list, and the reconciler that ties them together. Reading interfaces and
//! talking to the cluster is left to the caller.
use vstd::prelude::*;

pub mod config;
pub mod metallb;
pub mod net;
pub mod prefix;
pub mod reconcile;

verus! {

/// The mask of the network part of an address under the default network
/// length of 64 bits.
pub const IPV6_NETMASK: u128 = 0xffff_ffff_ffff_ffff_0000_0000_0000_0000;

} // verus!
