//! Device manager — a registry of kernel devices by name and type.
use vstd::prelude::*;

verus! {

/// Device types.
#[derive(Clone, Copy, PartialEq, Eq, Structural)]
pub enum DeviceType {
    Serial,
    Timer,
    Keyboard,
    Storage,
    Network,
    Gpu,
    Unknown,
}

/// The lower-case name of a device type.
pub open spec fn device_type_name(t: DeviceType) -> &'static str {
    match t {
        DeviceType::Serial => "serial",
        DeviceType::Timer => "timer",
        DeviceType::Keyboard => "keyboard",
        DeviceType::Storage => "storage",
        DeviceType::Network => "network",
        DeviceType::Gpu => "gpu",
        DeviceType::Unknown => "unknown",
    }
}

impl DeviceType {
    pub fn as_str(self) -> (r: &'static str)
        ensures
            r@ == device_type_name(self)@,
    {
        match self {
            DeviceType::Serial => "serial",
            DeviceType::Timer => "timer",
            DeviceType::Keyboard => "keyboard",
            DeviceType::Storage => "storage",
            DeviceType::Network => "network",
            DeviceType::Gpu => "gpu",
            DeviceType::Unknown => "unknown",
        }
    }
}

/// A registered device.
#[derive(Copy, Clone)]
pub struct Device {
    pub name: &'static str,
    pub dev_type: DeviceType,
    pub id: usize,
}

/// Maximum number of registered devices.
pub const MAX_DEVICES: usize = 32;

/// The device registry: up to `MAX_DEVICES` devices, ids given in order.
pub struct DeviceRegistry {
    devices: Vec<Device>,
}

impl DeviceRegistry {
    /// The registered devices, by id.
    pub closed spec fn view_devices(&self) -> Seq<Device> {
        self.devices@
    }

    pub open spec fn wf(&self) -> bool {
        &&& self.view_devices().len() <= MAX_DEVICES
        &&& forall|i: int| 0 <= i < self.view_devices().len() ==> #[trigger] self.view_devices()[i].id == i
    }

    pub fn new() -> (r: Self)
        ensures
            r.wf(),
            r.view_devices().len() == 0,
    {
        DeviceRegistry { devices: Vec::new() }
    }

    /// Register a device; returns its id, or `usize::MAX` when the table
    /// is full.
    pub fn register_device(&mut self, name: &'static str, dev_type: DeviceType) -> (id: usize)
        requires
            old(self).wf(),
        ensures
            final(self).wf(),
            old(self).view_devices().len() >= MAX_DEVICES ==> id == usize::MAX && final(self).view_devices() == old(self).view_devices(),
            old(self).view_devices().len() < MAX_DEVICES ==> id == old(self).view_devices().len()
                && final(self).view_devices() == old(self).view_devices().push(
                Device { name, dev_type, id },
            ),
    {
        let id = self.devices.len();
        if id >= MAX_DEVICES {
            return usize::MAX;
        }
        self.devices.push(Device { name, dev_type, id });
        id
    }

    /// The id of the first device registered under `name`.
    pub fn find_device(&self, name: &str) -> (r: Option<usize>)
        requires
            self.wf(),
        ensures
            r matches Some(id) ==> id < self.view_devices().len() && self.view_devices()[id as int].name@ == name@
                && forall|j: int| 0 <= j < id ==> #[trigger] self.view_devices()[j].name@ != name@,
            r is None ==> forall|j: int| 0 <= j < self.view_devices().len() ==> #[trigger] self.view_devices()[j].name@ != name@,
    {
        let mut i: usize = 0;
        while i < self.devices.len()
            invariant
                self.wf(),
                0 <= i <= self.view_devices().len(),
                forall|j: int| 0 <= j < i ==> #[trigger] self.view_devices()[j].name@ != name@,
            decreases self.devices.len() - i,
        {
            if str_eq(self.devices[i].name, name) {
                return Some(self.devices[i].id);
            }
            i = i + 1;
        }
        None
    }
}

/// Equality of two strings, byte by byte.
pub fn str_eq(a: &str, b: &str) -> (r: bool)
    ensures
        r == (a@ == b@),
{
    let r = crate::text::bytes_eq(a.as_bytes(), b.as_bytes());
    proof {
        vstd::utf8::encode_utf8_decode_utf8(a@);
        vstd::utf8::encode_utf8_decode_utf8(b@);
    }
    r
}

} // verus!
