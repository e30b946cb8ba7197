//! The switch: what it reports and the requests that drive it.

use vstd::prelude::*;
use vstd::string::*;
use crate::config::Device;
use crate::text::{digits, push_decimal};

verus! {

/// The energy counters of a switch.
#[derive(Debug, PartialEq, Eq)]
pub struct Energy {
    /// All the energy that has passed through the switch, in hundredths of
    /// a watt-hour.
    pub total: i64,
    /// The energy of each of the last minutes, in hundredths of a
    /// milliwatt-hour.
    pub by_minute: Vec<i64>,
    /// When the current minute began, in seconds since the Unix epoch.
    pub minute_ts: i64,
}

/// What a switch reports about itself.
#[derive(Debug, PartialEq, Eq)]
pub struct Status {
    /// The power drawn right now, in hundredths of a watt.
    pub apower: i64,
    /// The energy counters.
    pub aenergy: Energy,
}

/// One switch of a device, as the requests address it.
pub struct Shelly {
    host: String,
    switch: u16,
}

/// The address of the request that sets switch `switch` of `host` on or
/// off.
pub open spec fn set_url(host: Seq<char>, switch: u16, on: bool) -> Seq<char> {
    "http://"@ + host + "/rpc/Switch.Set?id="@ + digits(switch as nat) + if on {
        "&on=true"@
    } else {
        "&on=false"@
    }
}

/// The address of the request that asks switch `switch` of `host` for its
/// status.
pub open spec fn status_url(host: Seq<char>, switch: u16) -> Seq<char> {
    "http://"@ + host + "/rpc/Switch.GetStatus?id="@ + digits(switch as nat)
}

impl Shelly {
    /// The host the switch answers on.
    pub closed spec fn host(&self) -> Seq<char> {
        self.host@
    }

    /// The number of the switch within its device.
    pub closed spec fn switch(&self) -> u16 {
        self.switch
    }

    /// The switch of `device`.
    pub fn new(device: Device) -> (shelly: Self)
        ensures
            shelly.host() == device.host@,
            shelly.switch() == device.switch,
    {
        Shelly { host: device.host, switch: device.switch }
    }

    /// The address of the request that turns the switch on.
    pub fn on_url(&self) -> (url: String)
        ensures
            url@ == set_url(self.host(), self.switch(), true),
    {
        let mut url = String::from_str("http://");
        url.append(self.host.as_str());
        url.append("/rpc/Switch.Set?id=");
        push_decimal(&mut url, self.switch as u64);
        url.append("&on=true");
        url
    }

    /// The address of the request that turns the switch off.
    pub fn off_url(&self) -> (url: String)
        ensures
            url@ == set_url(self.host(), self.switch(), false),
    {
        let mut url = String::from_str("http://");
        url.append(self.host.as_str());
        url.append("/rpc/Switch.Set?id=");
        push_decimal(&mut url, self.switch as u64);
        url.append("&on=false");
        url
    }

    /// The address of the request that asks the switch for its status.
    pub fn status_url(&self) -> (url: String)
        ensures
            url@ == status_url(self.host(), self.switch()),
    {
        let mut url = String::from_str("http://");
        url.append(self.host.as_str());
        url.append("/rpc/Switch.GetStatus?id=");
        push_decimal(&mut url, self.switch as u64);
        url
    }
}

} // verus!
