//! The settings of the reconciler.
use crate::net::V6Net;
use vstd::prelude::*;

verus! {

/// The network length that is used where none is given.
pub const DEFAULT_NETWORK_LENGTH: u8 = 64;

/// The seconds between two runs where none are given.
pub const DEFAULT_INTERVAL: u64 = 60;

/// Where the current prefix is taken from.
#[derive(Debug, Copy, Clone, PartialEq, Eq, Hash, Structural)]
pub enum Source {
    /// From the addresses of a network interface.
    Iface,
}

impl Default for Source {
    fn default() -> (r: Source)
        ensures
            r == Source::Iface,
    {
        Source::Iface
    }
}

/// How much is logged.
#[derive(Debug, Copy, Clone, PartialEq, Eq, Hash, Structural)]
pub enum Loglevel {
    Error,
    Warn,
    Info,
    Debug,
    Trace,
}

impl Default for Loglevel {
    fn default() -> (r: Loglevel)
        ensures
            r == Loglevel::Info,
    {
        Loglevel::Info
    }
}

/// A setting that is out of its range.
#[derive(Debug, Copy, Clone, PartialEq, Eq, Structural)]
pub enum ConfigError {
    /// The network length is above 128.
    NetworkLength(u8),
    /// The prefix length of the host range is above 128.
    HostRange(u8),
}

/// What the reconciler is set up with.
#[derive(Debug)]
pub struct Config {
    /// Name of the pool to keep up to date.
    pub metallb_address_pool: String,
    /// The range to hold in the pool. Of its address only the host part
    /// counts: the bits beyond the network length.
    pub metallb_host_range: V6Net,
    /// Length of the changing network part of an address, in bits.
    pub network_length: u8,
    /// Where the current prefix is taken from.
    pub source: Source,
    /// Name of the interface whose prefix is followed.
    pub iface: String,
    /// How much is logged.
    pub loglevel: Loglevel,
    /// Seconds to wait between two runs.
    pub interval: u64,
    /// Compute the change to the pool, and leave the pool as it is.
    pub dry_run: bool,
    /// Do not check the certificates of the cluster.
    pub accept_invalid_certs: bool,
}

impl Config {
    /// Both lengths are ones that an IPv6 network can have.
    pub open spec fn wf(&self) -> bool {
        self.network_length <= 128 && self.metallb_host_range.wf()
    }

    /// The settings for a pool and a host range, all others at their defaults.
    pub fn new(metallb_address_pool: String, metallb_host_range: V6Net, iface: String) -> (config:
        Config)
        ensures
            config.metallb_address_pool == metallb_address_pool,
            config.metallb_host_range == metallb_host_range,
            config.iface == iface,
            config.network_length == DEFAULT_NETWORK_LENGTH,
            config.source == Source::Iface,
            config.loglevel == Loglevel::Info,
            config.interval == DEFAULT_INTERVAL,
            !config.dry_run,
            !config.accept_invalid_certs,
    {
        Config {
            metallb_address_pool,
            metallb_host_range,
            network_length: DEFAULT_NETWORK_LENGTH,
            source: Source::Iface,
            iface,
            loglevel: Loglevel::Info,
            interval: DEFAULT_INTERVAL,
            dry_run: false,
            accept_invalid_certs: false,
        }
    }

    /// Checks the lengths; the network length first.
    pub fn validate(&self) -> (r: Result<(), ConfigError>)
        ensures
            r is Ok <==> self.wf(),
            self.network_length > 128 ==> r == Err::<(), ConfigError>(
                ConfigError::NetworkLength(self.network_length),
            ),
            self.network_length <= 128 && !self.metallb_host_range.wf() ==> r == Err::<
                (),
                ConfigError,
            >(ConfigError::HostRange(self.metallb_host_range.prefix_len)),
    {
        if self.network_length > 128 {
            Err(ConfigError::NetworkLength(self.network_length))
        } else if self.metallb_host_range.prefix_len > 128 {
            Err(ConfigError::HostRange(self.metallb_host_range.prefix_len))
        } else {
            Ok(())
        }
    }
}

} // verus!
