use vstd::prelude::*;

verus! {

/// A device of the cluster as the discovery service reports it.
#[derive(Debug)]
pub struct DeviceProperties {
    /// Whether this device is a manager node (API).
    pub is_manager: bool,
    /// Whether this device is currently busy.
    pub is_busy: bool,
    /// The instance name, e.g. "shard-01".
    pub instance: String,
    /// The port that the HTTP server listens on.
    pub server_port: u16,
    /// The port that shard communication (gRPC) listens on.
    pub shard_port: u16,
    /// The local IP address of the device.
    pub local_ip: String,
    /// Thunderbolt details, if the device has them.
    pub thunderbolt: Option<ThunderboltInfo>,
}

/// Thunderbolt details of a device; `instances` is kept as the JSON text it came in.
#[derive(Debug)]
pub struct ThunderboltInfo {
    pub ip_addr: String,
    pub instances: String,
}

impl ThunderboltInfo {
    /// A copy with the same contents.
    pub fn duplicate(&self) -> (t: ThunderboltInfo)
        ensures
            t.ip_addr@ == self.ip_addr@,
            t.instances@ == self.instances@,
    {
        ThunderboltInfo { ip_addr: self.ip_addr.clone(), instances: self.instances.clone() }
    }
}

impl DeviceProperties {
    /// Whether `other` holds the same values.
    pub open spec fn same_as(self, other: DeviceProperties) -> bool {
        &&& self.is_manager == other.is_manager
        &&& self.is_busy == other.is_busy
        &&& self.instance@ == other.instance@
        &&& self.server_port == other.server_port
        &&& self.shard_port == other.shard_port
        &&& self.local_ip@ == other.local_ip@
        &&& self.thunderbolt.is_some() == other.thunderbolt.is_some()
        &&& (self.thunderbolt.is_some() ==> self.thunderbolt.unwrap().ip_addr@
            == other.thunderbolt.unwrap().ip_addr@ && self.thunderbolt.unwrap().instances@
            == other.thunderbolt.unwrap().instances@)
    }

    /// A copy with the same values.
    pub fn duplicate(&self) -> (d: DeviceProperties)
        ensures
            d.same_as(*self),
    {
        DeviceProperties {
            is_manager: self.is_manager,
            is_busy: self.is_busy,
            instance: self.instance.clone(),
            server_port: self.server_port,
            shard_port: self.shard_port,
            local_ip: self.local_ip.clone(),
            thunderbolt: match &self.thunderbolt {
                Some(t) => Some(t.duplicate()),
                None => None,
            },
        }
    }
}

/// The devices of the cluster by name, as the `/v1/devices` endpoint lists them.
#[derive(Debug)]
pub struct DevicesResponse {
    pub devices: Vec<(String, DeviceProperties)>,
}

} // verus!
