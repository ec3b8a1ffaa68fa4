//! The command dispatcher: routes an inbound command to the configured
//! device it names.
//!
//! The decision is pure: look the device up by exact name in the static
//! configuration, check the action, and say which adapter call to make.
//! Performing the call is the caller's affair, on its own unit of
//! concurrency, so a stalled device can never hold up the session's read
//! loop. An unknown device or action discards the command; it never
//! affects the connection.

use vstd::prelude::*;

use vstd::string::StringExecFns;

verus! {

/// Static configuration of one device, loaded once at startup and shared
/// read-only for the life of the process.
pub struct DeviceConfig {
    /// Network address of the device
    pub ip: String,
    /// Unique name the collector addresses the device by
    pub name: String,
    /// Tagged device type (`P100`, `P110`, ...)
    pub device_type: String,
    /// Vendor account email
    pub tapo_email: String,
    /// Vendor account password
    pub tapo_password: String,
}

/// An inbound control command, already parsed off the wire.
pub struct Command {
    /// Name of the device the command addresses
    pub device: String,
    /// Requested action (`set_state` is the one recognized)
    pub action: String,
    /// Action argument; for `set_state`, positive means on
    pub value: i64,
}

/// What the dispatcher decided to do with a command.
#[derive(PartialEq, Eq, Structural, Clone, Copy, Debug)]
pub enum DispatchDecision {
    /// Call the adapter's set-state on the device at this configuration
    /// index, towards this state
    Invoke { device_index: usize, turn_on: bool },
    /// No configured device bears the command's name: log and discard
    UnknownDevice,
    /// The named device exists but the action is not recognized: log and
    /// discard
    UnknownAction,
}

/// Which plug protocol a configured device type speaks.
#[derive(PartialEq, Eq, Structural, Clone, Copy, Debug)]
pub enum PlugProtocol {
    /// Basic plug (`P100`, `P105`)
    Basic,
    /// Energy monitoring plug (`P110`, `P115`)
    EnergyMonitoring,
}

/// Decides what to do with an inbound command against the static device
/// set. The first device whose name matches is the one addressed; with no
/// match the command is discarded as unknown, and a matching device with
/// an unrecognized action discards it too. A positive value asks for on.
pub fn dispatch(cmd: &Command, devices: &Vec<DeviceConfig>) -> (d: DispatchDecision)
    ensures
        match d {
            DispatchDecision::Invoke { device_index, turn_on } => {
                &&& device_index < devices@.len()
                &&& devices@[device_index as int].name@ == cmd.device@
                &&& forall|j: int|
                    0 <= j < device_index ==> devices@[j].name@ != cmd.device@
                &&& cmd.action@ == "set_state"@
                &&& turn_on == (cmd.value > 0)
            },
            DispatchDecision::UnknownDevice => forall|j: int|
                0 <= j < devices@.len() ==> devices@[j].name@ != cmd.device@,
            DispatchDecision::UnknownAction => {
                &&& cmd.action@ != "set_state"@
                &&& exists|j: int| 0 <= j < devices@.len() && devices@[j].name@ == cmd.device@
            },
        },
{
    let n = devices.len();
    for i in 0..n
        invariant
            n == devices@.len(),
            forall|j: int| 0 <= j < i ==> devices@[j].name@ != cmd.device@,
    {
        if devices[i].name == cmd.device {
            let set_state = String::from_str("set_state");
            if cmd.action == set_state {
                return DispatchDecision::Invoke { device_index: i, turn_on: cmd.value > 0 };
            } else {
                return DispatchDecision::UnknownAction;
            }
        }
    }
    DispatchDecision::UnknownDevice
}

/// The protocol spoken by a device type tag, if the tag is known.
pub fn plug_protocol(device_type: &String) -> (p: Option<PlugProtocol>)
    ensures
        match p {
            Some(PlugProtocol::EnergyMonitoring) => device_type@ == "P110"@ || device_type@
                == "P115"@,
            Some(PlugProtocol::Basic) => device_type@ == "P100"@ || device_type@ == "P105"@,
            None => device_type@ != "P110"@ && device_type@ != "P115"@ && device_type@ != "P100"@
                && device_type@ != "P105"@,
        },
{
    if *device_type == String::from_str("P110") || *device_type == String::from_str("P115") {
        Some(PlugProtocol::EnergyMonitoring)
    } else if *device_type == String::from_str("P100") || *device_type == String::from_str(
        "P105",
    ) {
        Some(PlugProtocol::Basic)
    } else {
        None
    }
}

} // verus!
