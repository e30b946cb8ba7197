//! What the configuration holds once it has been loaded: where the wallet
//! listens, which devices there are and what energy costs.

use vstd::prelude::*;

verus! {

/// A host name and a port.
#[derive(Debug, PartialEq, Eq)]
pub struct HostPort {
    pub host: String,
    pub port: u16,
}

impl Clone for HostPort {
    fn clone(&self) -> (r: HostPort)
        ensures
            r.host@ == self.host@,
            r.port == self.port,
    {
        HostPort { host: self.host.clone(), port: self.port }
    }
}

/// One switch and the payment address that buys energy from it.
#[derive(Debug, PartialEq, Eq)]
pub struct Device {
    /// Where the device stands, for people to read.
    pub location: String,
    /// The host name or address the switch answers on.
    pub host: String,
    /// The number of the switch within the device.
    pub switch: u16,
    /// The payment address of the device: the key by which credits find it.
    pub monero: String,
}

impl Clone for Device {
    fn clone(&self) -> (r: Device)
        ensures
            r.location@ == self.location@,
            r.host@ == self.host@,
            r.switch == self.switch,
            r.monero@ == self.monero@,
    {
        Device {
            location: self.location.clone(),
            host: self.host.clone(),
            switch: self.switch,
            monero: self.monero.clone(),
        }
    }
}

/// The price of energy.
#[derive(Debug, Clone, Copy, PartialEq, Eq, Structural)]
pub struct Price {
    /// What a kilowatt-hour costs, in piconero (a million-millionth of one
    /// unit of the currency). The type is wide enough for a price that no
    /// amount can pay: at the largest price nothing buys any energy.
    pub xmr_per_kwh: u128,
}

/// The whole configuration.
#[derive(Debug, PartialEq, Eq)]
pub struct Config {
    /// Where the wallet's RPC service listens.
    pub monero_rpc: HostPort,
    /// The devices, in the order in which they were configured.
    pub device: Vec<Device>,
    /// The price of energy.
    pub price: Price,
}

} // verus!
